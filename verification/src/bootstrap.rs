//! Decisions of the engine's start-up: which providers a project needs, which
//! capability providers to start, and how their services are bound.

use vstd::prelude::*;
use crate::text::{compare_str, KeyOrder};

verus! {

/// A capability that a project manifest asks for.
#[derive(Clone, Debug)]
pub struct CapabilityRequest {
    pub id: String,
    pub min_version: u32,
    pub provider: Option<String>,
}

/// A capability to resolve against the discovered providers, and whether the
/// project cannot run without it.
#[derive(Clone, Debug)]
pub struct CapabilityNeed {
    pub id: String,
    pub min_version: u32,
    pub provider: Option<String>,
    pub required: bool,
}

fn clone_request(request: &CapabilityRequest, required: bool) -> (n: CapabilityNeed)
    ensures
        n.id@ == request.id@,
        n.min_version == request.min_version,
        n.provider.is_some() == request.provider.is_some(),
        n.provider matches Some(p) ==> p@ == request.provider.unwrap()@,
        n.required == required,
{
    CapabilityNeed {
        id: request.id.clone(),
        min_version: request.min_version,
        provider: match &request.provider {
            Some(p) => Some(p.clone()),
            None => None,
        },
        required,
    }
}

/// Whether `need` carries the fields of `request`.
pub open spec fn need_matches(need: CapabilityNeed, request: CapabilityRequest, required: bool) -> bool {
    &&& need.id@ == request.id@
    &&& need.min_version == request.min_version
    &&& need.provider.is_some() == request.provider.is_some()
    &&& (need.provider matches Some(p) ==> p@ == request.provider.unwrap()@)
    &&& need.required == required
}

/// The needs of a project: its required capabilities in manifest order, then
/// its optional ones.
pub fn capability_needs(required: &[CapabilityRequest], optional: &[CapabilityRequest]) -> (r: Vec<CapabilityNeed>)
    requires
        required@.len() + optional@.len() <= usize::MAX,
    ensures
        r@.len() == required@.len() + optional@.len(),
        forall|i: int| 0 <= i < required@.len() ==> need_matches(#[trigger] r@[i], required@[i], true),
        forall|i: int| 0 <= i < optional@.len() ==> need_matches(#[trigger] r@[required@.len() + i], optional@[i], false),
{
    let mut out: Vec<CapabilityNeed> = Vec::new();
    let mut i: usize = 0;
    while i < required.len()
        invariant
            i <= required@.len(),
            out@.len() == i,
            forall|j: int| 0 <= j < i ==> need_matches(#[trigger] out@[j], required@[j], true),
        decreases required@.len() - i,
    {
        out.push(clone_request(&required[i], true));
        i = i + 1;
    }
    let mut k: usize = 0;
    while k < optional.len()
        invariant
            k <= optional@.len(),
            out@.len() == required@.len() + k,
            forall|j: int| 0 <= j < required@.len() ==> need_matches(#[trigger] out@[j], required@[j], true),
            forall|j: int| 0 <= j < k ==> need_matches(#[trigger] out@[required@.len() + j], optional@[j], false),
        decreases optional@.len() - k,
    {
        out.push(clone_request(&optional[k], false));
        proof {
            assert(out@[required@.len() + k] == out@[out@.len() - 1]);
        }
        k = k + 1;
    }
    out
}

/// A provider that start-up needs and that was not discovered.
#[derive(Clone, Debug, PartialEq, Eq)]
pub struct MissingProvider {
    pub id: String,
}

/// The position of the first discovered provider named `id`.
pub fn require_provider(provider_ids: &[String], id: &str) -> (r: Result<usize, MissingProvider>)
    ensures
        match r {
            Ok(i) => i < provider_ids@.len() && provider_ids@[i as int]@ == id@ && forall|j: int|
                0 <= j < i ==> #[trigger] provider_ids@[j]@ != id@,
            Err(e) => e.id@ == id@ && forall|j: int| 0 <= j < provider_ids@.len() ==> #[trigger] provider_ids@[j]@ != id@,
        },
{
    let mut i: usize = 0;
    while i < provider_ids.len()
        invariant
            i <= provider_ids@.len(),
            forall|j: int| 0 <= j < i ==> #[trigger] provider_ids@[j]@ != id@,
        decreases provider_ids@.len() - i,
    {
        if compare_str(provider_ids[i].as_str(), id) == KeyOrder::Equal {
            return Ok(i);
        }
        i = i + 1;
    }
    Err(MissingProvider { id: id.to_owned() })
}

/// What start-up does with one resolved capability.
#[derive(Clone, Copy, Debug, PartialEq, Eq, Structural)]
pub enum CapabilityActivation {
    /// No provider offers it; only an optional capability can be unresolved.
    Unavailable,
    /// Its provider belongs to the platform or the renderer, which start later.
    Deferred,
    /// Its provider is not running yet and is loaded now.
    Start,
    /// Its provider already runs for another capability.
    AlreadyRunning,
}

/// The gateways whose providers the platform phase starts.
pub open spec fn deferred_gateway(gateway: Option<Seq<char>>) -> bool {
    gateway == Some("engine.platform"@) || gateway == Some("engine.render"@)
}

fn is_deferred_gateway(gateway: Option<&str>) -> (b: bool)
    ensures
        b == deferred_gateway(match gateway {
            Some(g) => Some(g@),
            None => None,
        }),
{
    match gateway {
        Some(g) => compare_str(g, "engine.platform") == KeyOrder::Equal || compare_str(g, "engine.render") == KeyOrder::Equal,
        None => false,
    }
}

/// Decides the activation of a resolved capability: `resolved` says whether a
/// provider was found, `platform_phase` whether that provider starts with the
/// platform, `gateway` the engine gateway it serves and `running` whether it
/// already runs.
pub fn plan_capability_activation(resolved: bool, platform_phase: bool, gateway: Option<&str>, running: bool) -> (a: CapabilityActivation)
    ensures
        !resolved ==> a is Unavailable,
        resolved && (platform_phase || deferred_gateway(match gateway {
            Some(g) => Some(g@),
            None => None,
        })) ==> a is Deferred,
        resolved && !platform_phase && !deferred_gateway(match gateway {
            Some(g) => Some(g@),
            None => None,
        }) ==> (if running { a is AlreadyRunning } else { a is Start }),
{
    if !resolved {
        CapabilityActivation::Unavailable
    } else if platform_phase || is_deferred_gateway(gateway) {
        CapabilityActivation::Deferred
    } else if running {
        CapabilityActivation::AlreadyRunning
    } else {
        CapabilityActivation::Start
    }
}

/// What start-up does about the service of an activated capability.
#[derive(Clone, Copy, Debug, PartialEq, Eq, Structural)]
pub enum ServiceBinding {
    /// The capability names no gateway or no service: nothing to bind.
    NotBound,
    /// The service is registered: the gateway becomes an alias of it.
    Alias,
    /// The service is missing and the capability was required: start-up fails.
    FailMissing,
    /// The service is missing and the capability was optional: a warning.
    WarnMissing,
}

/// Decides the binding of a capability's gateway to its descriptor service.
pub fn plan_service_binding(has_gateway: bool, has_service: bool, registered: bool, required: bool) -> (b: ServiceBinding)
    ensures
        !(has_gateway && has_service) ==> b is NotBound,
        has_gateway && has_service && registered ==> b is Alias,
        has_gateway && has_service && !registered ==> (if required { b is FailMissing } else { b is WarnMissing }),
{
    if !(has_gateway && has_service) {
        ServiceBinding::NotBound
    } else if registered {
        ServiceBinding::Alias
    } else if required {
        ServiceBinding::FailMissing
    } else {
        ServiceBinding::WarnMissing
    }
}

/// The provider chosen for each role of the engine.
#[derive(Clone, Debug)]
pub struct ProviderRoles {
    pub logging: String,
    pub input: String,
    pub assets: String,
    pub ecs: String,
    pub platform: String,
    pub renderer: String,
}

/// The providers a project manifest names for some roles.
#[derive(Clone, Debug)]
pub struct ProviderOverrides {
    pub logging: Option<String>,
    pub input: Option<String>,
    pub assets: Option<String>,
    pub ecs: Option<String>,
    pub platform: Option<String>,
    pub renderer: Option<String>,
}

/// The project's choice for a role where it makes one, else the default.
pub open spec fn chosen(choice: Option<String>, default: String) -> Seq<char> {
    match choice {
        Some(p) => p@,
        None => default@,
    }
}

fn choose_provider(choice: &Option<String>, default: &String) -> (r: String)
    ensures
        r@ == chosen(*choice, *default),
{
    match choice {
        Some(p) => p.clone(),
        None => default.clone(),
    }
}

impl ProviderRoles {
    /// The providers of a run: where the project names a provider for a
    /// role, that one; otherwise the start-up configuration's.
    pub fn resolve(defaults: &ProviderRoles, project: Option<&ProviderOverrides>) -> (r: ProviderRoles)
        ensures
            match project {
                Some(p) => {
                    &&& r.logging@ == chosen(p.logging, defaults.logging)
                    &&& r.input@ == chosen(p.input, defaults.input)
                    &&& r.assets@ == chosen(p.assets, defaults.assets)
                    &&& r.ecs@ == chosen(p.ecs, defaults.ecs)
                    &&& r.platform@ == chosen(p.platform, defaults.platform)
                    &&& r.renderer@ == chosen(p.renderer, defaults.renderer)
                },
                None => {
                    &&& r.logging@ == defaults.logging@
                    &&& r.input@ == defaults.input@
                    &&& r.assets@ == defaults.assets@
                    &&& r.ecs@ == defaults.ecs@
                    &&& r.platform@ == defaults.platform@
                    &&& r.renderer@ == defaults.renderer@
                },
            },
    {
        match project {
            Some(p) => ProviderRoles {
                logging: choose_provider(&p.logging, &defaults.logging),
                input: choose_provider(&p.input, &defaults.input),
                assets: choose_provider(&p.assets, &defaults.assets),
                ecs: choose_provider(&p.ecs, &defaults.ecs),
                platform: choose_provider(&p.platform, &defaults.platform),
                renderer: choose_provider(&p.renderer, &defaults.renderer),
            },
            None => ProviderRoles {
                logging: defaults.logging.clone(),
                input: defaults.input.clone(),
                assets: defaults.assets.clone(),
                ecs: defaults.ecs.clone(),
                platform: defaults.platform.clone(),
                renderer: defaults.renderer.clone(),
            },
        }
    }
}

} // verus!
