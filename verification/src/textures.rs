//! Texture formats and the byte sizes of their mip levels.

use vstd::prelude::*;

verus! {

/// Pixel formats of runtime-ready texture data.
#[derive(Clone, Copy, Debug, PartialEq, Eq, Structural)]
pub enum TextureFormat {
    Rgba8Unorm,
    Rgba8Srgb,
    Bc1RgbaUnorm,
    Bc1RgbaSrgb,
    Bc2RgbaUnorm,
    Bc2RgbaSrgb,
    Bc3RgbaUnorm,
    Bc3RgbaSrgb,
    Bc5RgUnorm,
    Bc6hUf16,
    Bc6hSf16,
    Bc7RgbaUnorm,
    Bc7RgbaSrgb,
}

impl TextureFormat {
    /// Every format but the two uncompressed RGBA8 ones stores 4x4 blocks.
    pub open spec fn spec_is_block_compressed(self) -> bool {
        !(self is Rgba8Unorm || self is Rgba8Srgb)
    }

    pub open spec fn spec_is_srgb(self) -> bool {
        self is Rgba8Srgb || self is Bc1RgbaSrgb || self is Bc2RgbaSrgb || self is Bc3RgbaSrgb
            || self is Bc7RgbaSrgb
    }

    pub open spec fn spec_bytes_per_block(self) -> nat {
        match self {
            TextureFormat::Rgba8Unorm | TextureFormat::Rgba8Srgb => 4,
            TextureFormat::Bc1RgbaUnorm | TextureFormat::Bc1RgbaSrgb => 8,
            _ => 16,
        }
    }

    pub open spec fn spec_block_extent(self) -> nat {
        if self.spec_is_block_compressed() {
            4
        } else {
            1
        }
    }

    /// Byte size of a `width` x `height` mip level, as a mathematical integer:
    /// the number of blocks that cover the level times the block size.
    pub open spec fn mip_byte_count(self, width: int, height: int) -> int {
        let e = self.spec_block_extent() as int;
        let blocks_w = (width + e - 1) / e;
        let blocks_h = (height + e - 1) / e;
        blocks_w * blocks_h * self.spec_bytes_per_block()
    }

    pub fn is_block_compressed(self) -> (r: bool)
        ensures
            r == self.spec_is_block_compressed(),
    {
        !matches!(self, TextureFormat::Rgba8Unorm | TextureFormat::Rgba8Srgb)
    }

    pub fn is_srgb(self) -> (r: bool)
        ensures
            r == self.spec_is_srgb(),
    {
        matches!(
            self,
            TextureFormat::Rgba8Srgb | TextureFormat::Bc1RgbaSrgb | TextureFormat::Bc2RgbaSrgb
                | TextureFormat::Bc3RgbaSrgb | TextureFormat::Bc7RgbaSrgb
        )
    }

    pub fn bytes_per_block(self) -> (r: usize)
        ensures
            r == self.spec_bytes_per_block(),
    {
        match self {
            TextureFormat::Rgba8Unorm | TextureFormat::Rgba8Srgb => 4,
            TextureFormat::Bc1RgbaUnorm | TextureFormat::Bc1RgbaSrgb => 8,
            TextureFormat::Bc2RgbaUnorm
            | TextureFormat::Bc2RgbaSrgb
            | TextureFormat::Bc3RgbaUnorm
            | TextureFormat::Bc3RgbaSrgb
            | TextureFormat::Bc5RgUnorm
            | TextureFormat::Bc6hUf16
            | TextureFormat::Bc6hSf16
            | TextureFormat::Bc7RgbaUnorm
            | TextureFormat::Bc7RgbaSrgb => 16,
        }
    }

    pub fn block_extent(self) -> (r: usize)
        ensures
            r == self.spec_block_extent(),
    {
        if self.is_block_compressed() {
            4
        } else {
            1
        }
    }

    /// The byte size of a mip level, or `None` where an intermediate of the
    /// computation (the rounded-up width, or a product) does not fit in `usize`.
    pub fn expected_mip_bytes(self, width: u32, height: u32) -> (r: Option<usize>)
        ensures
            r matches Some(n) ==> n == self.mip_byte_count(width as int, height as int),
            r is None <==> !self.mip_computation_fits(width as int, height as int),
    {
        let width = width as usize;
        let height = height as usize;
        let bpb = self.bytes_per_block();
        if self.is_block_compressed() {
            let block = self.block_extent();
            let wb = match width.checked_add(block - 1) {
                Some(v) => v,
                None => return None,
            };
            let hb = match height.checked_add(block - 1) {
                Some(v) => v,
                None => return None,
            };
            let blocks_w = wb / block;
            let blocks_h = hb / block;
            let area = match blocks_w.checked_mul(blocks_h) {
                Some(v) => v,
                None => return None,
            };
            proof {
                assert(area as nat * bpb as nat == blocks_w as nat * blocks_h as nat * bpb as nat);
            }
            area.checked_mul(bpb)
        } else {
            let area = match width.checked_mul(height) {
                Some(v) => v,
                None => return None,
            };
            proof {
                assert(width as nat + 1 - 1 == width as nat);
                assert(height as nat + 1 - 1 == height as nat);
            }
            area.checked_mul(bpb)
        }
    }

    /// Whether every intermediate of the mip-size computation fits in `usize`.
    pub open spec fn mip_computation_fits(self, width: int, height: int) -> bool {
        let e = self.spec_block_extent() as int;
        let blocks_w = (width + e - 1) / e;
        let blocks_h = (height + e - 1) / e;
        &&& width + e - 1 <= usize::MAX
        &&& height + e - 1 <= usize::MAX
        &&& blocks_w * blocks_h <= usize::MAX
        &&& blocks_w * blocks_h * self.spec_bytes_per_block() <= usize::MAX
    }
}

/// Whether texel values are stored linearly or sRGB-encoded.
#[derive(Clone, Copy, Debug, PartialEq, Eq, Structural)]
pub enum TextureColorSpace {
    Linear,
    Srgb,
}

/// One mip level of a texture. Block-compressed formats keep their blocks.
#[derive(Clone, Debug)]
pub struct TextureMip {
    pub level: u32,
    pub width: u32,
    pub height: u32,
    pub data: Vec<u8>,
}

/// Block sizes: an uncompressed RGBA8 texel takes 4 bytes, a BC1 block 8,
/// and a block of every other block-compressed format (BC2, BC3, BC5, BC6H,
/// BC7) 16. So one 4x4 block of a compressed format, and one texel of an
/// uncompressed one, takes exactly its block size.
pub proof fn lemma_block_sizes(f: TextureFormat)
    ensures
        !f.spec_is_block_compressed() ==> f.spec_bytes_per_block() == 4,
        (f is Bc1RgbaUnorm || f is Bc1RgbaSrgb) ==> f.spec_bytes_per_block() == 8,
        f.spec_is_block_compressed() && !(f is Bc1RgbaUnorm || f is Bc1RgbaSrgb) ==> f.spec_bytes_per_block() == 16,
        f.spec_is_block_compressed() ==> f.mip_byte_count(4, 4) == f.spec_bytes_per_block(),
        !f.spec_is_block_compressed() ==> f.mip_byte_count(1, 1) == 4,
{
}

/// An sRGB format and its linear twin lay texels out alike and differ only
/// in colour space: of each pair (RGBA8, BC1, BC2, BC3, BC7) exactly the
/// sRGB one is sRGB, with the same block size and extent; the formats
/// without an sRGB twin (BC5, BC6H) are linear.
pub proof fn lemma_srgb_twins()
    ensures
        forall|pair: (TextureFormat, TextureFormat)|
            #![trigger pair.0.spec_is_srgb(), pair.1.spec_is_srgb()]
            pair == (TextureFormat::Rgba8Unorm, TextureFormat::Rgba8Srgb) || pair == (
                TextureFormat::Bc1RgbaUnorm,
                TextureFormat::Bc1RgbaSrgb,
            ) || pair == (TextureFormat::Bc2RgbaUnorm, TextureFormat::Bc2RgbaSrgb) || pair == (
                TextureFormat::Bc3RgbaUnorm,
                TextureFormat::Bc3RgbaSrgb,
            ) || pair == (TextureFormat::Bc7RgbaUnorm, TextureFormat::Bc7RgbaSrgb) ==> !pair.0.spec_is_srgb()
                && pair.1.spec_is_srgb() && pair.0.spec_bytes_per_block() == pair.1.spec_bytes_per_block()
                && pair.0.spec_block_extent() == pair.1.spec_block_extent(),
        !TextureFormat::Bc5RgUnorm.spec_is_srgb(),
        !TextureFormat::Bc6hUf16.spec_is_srgb(),
        !TextureFormat::Bc6hSf16.spec_is_srgb(),
{
}

} // verus!
