//! The world's reality history: every change to the living world is recorded
//! as an event with a sequence number and an id. Ids that the caller leaves
//! blank are generated from a counter (`reality.event.` and sixteen hex
//! digits) and never collide with an id already in the history, the events
//! waiting for the next frame, or the events of the current frame.

use vstd::prelude::*;
use crate::text::{compare_str, str_chars, string_from_chars, trim_chars, trim_str, KeyOrder};
use crate::world::{sequences_valid, valid_event_sequences};

verus! {

/// The lowercase hex digit for `d`, where `d < 16`.
pub open spec fn hex_digit(d: nat) -> char {
    if d == 0 {
        '0'
    } else if d == 1 {
        '1'
    } else if d == 2 {
        '2'
    } else if d == 3 {
        '3'
    } else if d == 4 {
        '4'
    } else if d == 5 {
        '5'
    } else if d == 6 {
        '6'
    } else if d == 7 {
        '7'
    } else if d == 8 {
        '8'
    } else if d == 9 {
        '9'
    } else if d == 10 {
        'a'
    } else if d == 11 {
        'b'
    } else if d == 12 {
        'c'
    } else if d == 13 {
        'd'
    } else if d == 14 {
        'e'
    } else {
        'f'
    }
}

/// The last `width` hex digits of `n`, most significant first, padded with
/// zeros.
pub open spec fn hex_text(n: nat, width: nat) -> Seq<char>
    decreases width,
{
    if width == 0 {
        Seq::empty()
    } else {
        hex_text(n / 16, (width - 1) as nat).push(hex_digit(n % 16))
    }
}

/// `n` written as sixteen lowercase hex digits, as `{:016x}` formats it.
pub open spec fn counter_text(n: u64) -> Seq<char> {
    hex_text(n as nat, 16)
}

/// Sixteen to the power `w`.
pub open spec fn pow16(w: nat) -> nat
    decreases w,
{
    if w == 0 {
        1
    } else {
        16 * pow16((w - 1) as nat)
    }
}

/// The counter that follows `n`: one more, wrapping past `u64::MAX` to 1, so
/// that 0 is never handed out.
pub open spec fn counter_next(n: u64) -> u64 {
    if n == u64::MAX {
        1
    } else {
        (n + 1) as u64
    }
}

pub(crate) fn hex_digit_char(d: u64) -> (c: char)
    requires
        d < 16,
    ensures
        c == hex_digit(d as nat),
{
    if d == 0 {
        '0'
    } else if d == 1 {
        '1'
    } else if d == 2 {
        '2'
    } else if d == 3 {
        '3'
    } else if d == 4 {
        '4'
    } else if d == 5 {
        '5'
    } else if d == 6 {
        '6'
    } else if d == 7 {
        '7'
    } else if d == 8 {
        '8'
    } else if d == 9 {
        '9'
    } else if d == 10 {
        'a'
    } else if d == 11 {
        'b'
    } else if d == 12 {
        'c'
    } else if d == 13 {
        'd'
    } else if d == 14 {
        'e'
    } else {
        'f'
    }
}

fn push_hex(n: u64, width: usize, out: &mut Vec<char>)
    ensures
        final(out)@ == old(out)@ + hex_text(n as nat, width as nat),
    decreases width,
{
    if width > 0 {
        push_hex(n / 16, width - 1, out);
        out.push(hex_digit_char(n % 16));
        proof {
            assert(hex_text(n as nat, width as nat) == hex_text((n / 16) as nat, (width - 1) as nat).push(
                hex_digit((n % 16) as nat),
            ));
        }
    } else {
        assert(old(out)@ + hex_text(n as nat, 0) == old(out)@);
    }
}

/// `prefix` followed by `n` as sixteen lowercase hex digits: the ids the
/// world generates for events, stimuli and reservations.
pub fn counter_label(prefix: &str, n: u64) -> (s: String)
    ensures
        s@ == prefix@ + counter_text(n),
{
    let mut chars = str_chars(prefix);
    push_hex(n, 16, &mut chars);
    string_from_chars(&chars)
}

/// The counter after `n`, as `n.wrapping_add(1).max(1)`.
pub fn advance_counter(n: u64) -> (r: u64)
    ensures
        r == counter_next(n),
        r != 0,
{
    if n == u64::MAX {
        1
    } else {
        n + 1
    }
}

/// An id left blank (empty once trimmed) is generated from `counter`:
/// `prefix` and the counter in sixteen hex digits, and the counter
/// advances; any other id is kept and the counter stays. This is how
/// scheduled events, stimuli and scenario reservations get their ids.
pub fn id_or_generated(id: String, prefix: &str, counter: u64) -> (r: (String, u64))
    ensures
        trim_chars(id@).len() == 0 ==> r.0@ == prefix@ + counter_text(counter) && r.1 == counter_next(counter),
        trim_chars(id@).len() != 0 ==> r.0@ == id@ && r.1 == counter,
{
    if trim_str(id.as_str()).unicode_len() == 0 {
        (counter_label(prefix, counter), advance_counter(counter))
    } else {
        (id, counter)
    }
}

proof fn lemma_hex_text_injective(a: nat, b: nat, w: nat)
    requires
        a < pow16(w),
        b < pow16(w),
        hex_text(a, w) == hex_text(b, w),
    ensures
        a == b,
    decreases w,
{
    if w > 0 {
        let p = pow16((w - 1) as nat);
        let ta = hex_text(a, w);
        let tb = hex_text(b, w);
        assert(ta.last() == hex_digit(a % 16));
        assert(tb.last() == hex_digit(b % 16));
        assert(a % 16 == b % 16);
        assert(ta.drop_last() == hex_text(a / 16, (w - 1) as nat));
        assert(tb.drop_last() == hex_text(b / 16, (w - 1) as nat));
        assert(a / 16 < p) by (nonlinear_arith)
            requires
                a < 16 * p,
        ;
        assert(b / 16 < p) by (nonlinear_arith)
            requires
                b < 16 * p,
        ;
        lemma_hex_text_injective(a / 16, b / 16, (w - 1) as nat);
        assert(a == 16 * (a / 16) + a % 16) by (nonlinear_arith);
        assert(b == 16 * (b / 16) + b % 16) by (nonlinear_arith);
    }
}

/// Distinct counters give distinct labels under one prefix.
pub proof fn lemma_counter_label_injective(prefix: Seq<char>, a: u64, b: u64)
    ensures
        prefix + counter_text(a) == prefix + counter_text(b) ==> a == b,
{
    if prefix + counter_text(a) == prefix + counter_text(b) {
        assert(counter_text(a) == (prefix + counter_text(a)).skip(prefix.len() as int));
        assert(counter_text(b) == (prefix + counter_text(b)).skip(prefix.len() as int));
        assert(pow16(16) == 0x1_0000_0000_0000_0000) by {
            reveal_with_fuel(pow16, 17);
        }
        lemma_hex_text_injective(a as nat, b as nat, 16);
    }
}


/// The label of the `c`-th generated reality event id.
pub open spec fn reality_label(c: u64) -> Seq<char> {
    "reality.event."@ + counter_text(c)
}

/// The counter reached from `start` after `k` steps.
pub open spec fn counter_after(start: u64, k: nat) -> u64
    decreases k,
{
    if k == 0 {
        start
    } else {
        counter_next(counter_after(start, (k - 1) as nat))
    }
}

proof fn lemma_counter_after_closed(start: u64, k: nat)
    requires
        start != 0,
    ensures
        counter_after(start, k) as int == (start - 1 + k) % (u64::MAX as int) + 1,
    decreases k,
{
    let m = u64::MAX as int;
    if k == 0 {
        vstd::arithmetic::div_mod::lemma_small_mod((start - 1) as nat, m as nat);
    } else {
        lemma_counter_after_closed(start, (k - 1) as nat);
        let s = start - 1 + k - 1;
        let q = s / m;
        let r = s % m;
        vstd::arithmetic::div_mod::lemma_fundamental_div_mod(s, m);
        assert(0 <= r < m);
        if r + 1 < m {
            vstd::arithmetic::div_mod::lemma_fundamental_div_mod_converse(s + 1, m, q, r + 1);
        } else {
            assert(s + 1 == (q + 1) * m + 0) by (nonlinear_arith)
                requires
                    s == q * m + r,
                    r + 1 == m,
            ;
            vstd::arithmetic::div_mod::lemma_fundamental_div_mod_converse(s + 1, m, q + 1, 0);
        }
    }
}

proof fn lemma_counter_after_distinct(start: u64, a: nat, b: nat)
    requires
        start != 0,
        a < b < u64::MAX,
    ensures
        counter_after(start, a) != counter_after(start, b),
{
    let m = u64::MAX as int;
    lemma_counter_after_closed(start, a);
    lemma_counter_after_closed(start, b);
    let x = start - 1 + a;
    let y = start - 1 + b;
    vstd::arithmetic::div_mod::lemma_fundamental_div_mod(x, m);
    vstd::arithmetic::div_mod::lemma_fundamental_div_mod(y, m);
    let qx = x / m;
    let qy = y / m;
    if x % m == y % m {
        assert(y - x == (qy - qx) * m) by (nonlinear_arith)
            requires
                x == m * qx + x % m,
                y == m * qy + y % m,
                x % m == y % m,
        ;
        assert(false) by (nonlinear_arith)
            requires
                y - x == (qy - qx) * m,
                0 < y - x < m,
        ;
    }
}

/// No run of `t + 1` successive counters can have all its labels among
/// fewer than `t + 1` ids.
proof fn lemma_labels_pigeonhole(used: Seq<Seq<char>>, start: u64, t: nat)
    requires
        start != 0,
        t < u64::MAX,
        forall|k: nat| k <= t ==> used.contains(#[trigger] reality_label(counter_after(start, k))),
    ensures
        t < used.len(),
{
    let walk = Seq::new(t + 1, |k: int| reality_label(counter_after(start, k as nat)));
    assert(walk.no_duplicates()) by {
        assert forall|a: int, b: int| 0 <= a < walk.len() && 0 <= b < walk.len() && a != b implies walk[a]
            != walk[b] by {
            if a < b {
                lemma_counter_after_distinct(start, a as nat, b as nat);
            } else {
                lemma_counter_after_distinct(start, b as nat, a as nat);
            }
            lemma_counter_label_injective("reality.event."@, counter_after(start, a as nat), counter_after(start, b as nat));
        }
    }
    walk.unique_seq_to_set();
    used.lemma_cardinality_of_set();
    vstd::seq_lib::seq_to_set_is_finite(used);
    assert(walk.to_set().subset_of(used.to_set())) by {
        assert forall|x: Seq<char>| walk.to_set().contains(x) implies used.to_set().contains(x) by {
            let j = choose|j: int| 0 <= j < walk.len() && walk[j] == x;
            assert(used.contains(reality_label(counter_after(start, j as nat))));
        }
    }
    vstd::set_lib::lemma_len_subset(walk.to_set(), used.to_set());
}

/// The history keeps at most this many events; older ones are dropped first.
pub const MAX_REALITY_HISTORY: usize = 4096;

/// One recorded event: its sequence number, its id, and what the world
/// attaches to it (kind, source, participants, time and payload).
pub struct RealityRecord<D> {
    pub sequence: u64,
    pub id: String,
    pub detail: D,
}

/// The ids of `records`, in order.
pub open spec fn record_ids<D>(records: Seq<RealityRecord<D>>) -> Seq<Seq<char>> {
    records.map_values(|r: RealityRecord<D>| r.id@)
}

/// The sequence numbers of `records`, in order.
pub open spec fn record_sequences<D>(records: Seq<RealityRecord<D>>) -> Seq<u64> {
    records.map_values(|r: RealityRecord<D>| r.sequence)
}

/// Where a history ends after one more record: the record is appended, and
/// the oldest entry goes when the cap is passed.
pub open spec fn capped_push<D>(history: Seq<RealityRecord<D>>, record: RealityRecord<D>) -> Seq<RealityRecord<D>> {
    let grown = history.push(record);
    if grown.len() > MAX_REALITY_HISTORY {
        grown.skip(grown.len() - MAX_REALITY_HISTORY)
    } else {
        grown
    }
}

/// Whether the generated id `id`, and the counter `next` after it, are what
/// the walk from `start` gives: the first counter whose label is not in `used`.
pub open spec fn allocated(start: u64, used: Seq<Seq<char>>, id: Seq<char>, next: u64) -> bool {
    exists|t: nat|
        {
            &&& forall|k: nat| k < t ==> used.contains(#[trigger] reality_label(counter_after(start, k)))
            &&& !used.contains(reality_label(counter_after(start, t)))
            &&& id == reality_label(counter_after(start, t))
            &&& next == counter_next(counter_after(start, t))
        }
}

/// Why a restored history was refused.
#[derive(Clone, Copy, Debug, PartialEq, Eq, Structural)]
pub enum RealityRestoreError {
    /// A counter is 0, or the history is longer than its cap.
    CountersOrHistorySize,
    /// Sequence numbers are not strictly increasing, are 0, or are not below
    /// the next one to hand out.
    EventSequence,
}

/// The world's event history, the events recorded since the last frame
/// (pending) and those delivered to the current frame.
pub struct RealityLog<D> {
    history: Vec<RealityRecord<D>>,
    pending: Vec<RealityRecord<D>>,
    frame: Vec<RealityRecord<D>>,
    next_id: u64,
    next_sequence: u64,
}

impl<D> RealityLog<D> {
    pub closed spec fn history(&self) -> Seq<RealityRecord<D>> {
        self.history@
    }

    pub closed spec fn pending(&self) -> Seq<RealityRecord<D>> {
        self.pending@
    }

    pub closed spec fn frame(&self) -> Seq<RealityRecord<D>> {
        self.frame@
    }

    pub closed spec fn next_id(&self) -> u64 {
        self.next_id
    }

    pub closed spec fn next_sequence(&self) -> u64 {
        self.next_sequence
    }

    /// Every id in use: in the history, the pending events and the frame.
    pub open spec fn all_ids(&self) -> Seq<Seq<char>> {
        record_ids(self.history()) + record_ids(self.pending()) + record_ids(self.frame())
    }

    /// How many records the log holds.
    pub open spec fn record_count(&self) -> nat {
        self.history().len() + self.pending().len() + self.frame().len()
    }

    /// The log's invariant: the history is within its cap and both
    /// counters are above 0.
    pub open spec fn wf(&self) -> bool {
        &&& self.history().len() <= MAX_REALITY_HISTORY
        &&& self.next_id() != 0
        &&& self.next_sequence() != 0
    }

    /// Sequence numbers are strictly increasing in the history, the pending
    /// events and the frame, and all below the next one.
    pub open spec fn ordered(&self) -> bool {
        &&& sequences_valid(record_sequences(self.history()), self.next_sequence())
        &&& sequences_valid(record_sequences(self.pending()), self.next_sequence())
        &&& sequences_valid(record_sequences(self.frame()), self.next_sequence())
    }

    /// An empty log whose counters start at 1.
    pub fn new() -> (log: Self)
        ensures
            log.wf(),
            log.ordered(),
            log.history().len() == 0,
            log.pending().len() == 0,
            log.frame().len() == 0,
            log.next_id() == 1,
            log.next_sequence() == 1,
    {
        RealityLog { history: Vec::new(), pending: Vec::new(), frame: Vec::new(), next_id: 1, next_sequence: 1 }
    }

    /// The retained history, oldest first.
    pub fn history_records(&self) -> (r: &Vec<RealityRecord<D>>)
        ensures
            r@ == self.history(),
    {
        &self.history
    }

    /// The events recorded since the last frame was delivered.
    pub fn pending_records(&self) -> (r: &Vec<RealityRecord<D>>)
        ensures
            r@ == self.pending(),
    {
        &self.pending
    }

    /// The events delivered to the current frame.
    pub fn frame_records(&self) -> (r: &Vec<RealityRecord<D>>)
        ensures
            r@ == self.frame(),
    {
        &self.frame
    }

    /// The counter the next generated id starts from.
    pub fn next_id_counter(&self) -> (r: u64)
        ensures
            r == self.next_id(),
    {
        self.next_id
    }

    /// The sequence number the next event takes.
    pub fn next_sequence_number(&self) -> (r: u64)
        ensures
            r == self.next_sequence(),
    {
        self.next_sequence
    }
}

fn records_contain_id<D>(records: &Vec<RealityRecord<D>>, id: &str) -> (b: bool)
    ensures
        b == record_ids(records@).contains(id@),
{
    let mut i: usize = 0;
    while i < records.len()
        invariant
            i <= records@.len(),
            forall|j: int| 0 <= j < i ==> #[trigger] records@[j].id@ != id@,
        decreases records@.len() - i,
    {
        if compare_str(records[i].id.as_str(), id) == KeyOrder::Equal {
            proof {
                assert(record_ids(records@)[i as int] == id@);
            }
            return true;
        }
        i = i + 1;
    }
    proof {
        if record_ids(records@).contains(id@) {
            let j = choose|j: int| 0 <= j < record_ids(records@).len() && record_ids(records@)[j] == id@;
            assert(records@[j].id@ == id@);
        }
    }
    false
}

impl<D: Clone> RealityLog<D> {
    fn id_in_use(&self, id: &str) -> (b: bool)
        ensures
            b == self.all_ids().contains(id@),
    {
        let a = records_contain_id(&self.history, id);
        let b = records_contain_id(&self.pending, id);
        let c = records_contain_id(&self.frame, id);
        proof {
            vstd::seq_lib::lemma_seq_concat_contains_all_elements(
                record_ids(self.history()) + record_ids(self.pending()),
                record_ids(self.frame()),
                id@,
            );
            vstd::seq_lib::lemma_seq_concat_contains_all_elements(
                record_ids(self.history()),
                record_ids(self.pending()),
                id@,
            );
        }
        a || b || c
    }

    /// Generates a free id: `reality.event.` and the id counter in sixteen
    /// hex digits, stepping the counter past every id already in use.
    pub fn allocate_id(&mut self) -> (r: String)
        requires
            old(self).wf(),
            old(self).record_count() < u64::MAX,
        ensures
            final(self).wf(),
            final(self).history() == old(self).history(),
            final(self).pending() == old(self).pending(),
            final(self).frame() == old(self).frame(),
            final(self).next_sequence() == old(self).next_sequence(),
            allocated(old(self).next_id(), old(self).all_ids(), r@, final(self).next_id()),
            !old(self).all_ids().contains(r@),
    {
        let ghost start = self.next_id;
        let ghost used = self.all_ids();
        let ghost mut t: nat = 0;
        loop
            invariant
                self.wf(),
                self.history() == old(self).history(),
                self.pending() == old(self).pending(),
                self.frame() == old(self).frame(),
                self.next_sequence() == old(self).next_sequence(),
                used == old(self).all_ids(),
                used == self.all_ids(),
                start == old(self).next_id(),
                start != 0,
                used.len() < u64::MAX,
                t <= used.len(),
                self.next_id == counter_after(start, t),
                forall|k: nat| k < t ==> used.contains(#[trigger] reality_label(counter_after(start, k))),
            decreases used.len() - t,
        {
            let c = self.next_id;
            let id = counter_label("reality.event.", c);
            self.next_id = advance_counter(c);
            if !self.id_in_use(id.as_str()) {
                proof {
                    assert(id@ == reality_label(counter_after(start, t)));
                    assert(self.next_id == counter_next(counter_after(start, t)));
                }
                return id;
            }
            proof {
                assert(counter_after(start, t + 1) == counter_next(counter_after(start, t)));
                assert forall|k: nat| k <= t implies used.contains(#[trigger] reality_label(counter_after(start, k))) by {
                    if k < t {
                    } else {
                        assert(id@ == reality_label(counter_after(start, t)));
                    }
                }
                lemma_labels_pigeonhole(used, start, t);
                t = t + 1;
            }
        }
    }

    /// Records an event and returns its id. An id that is empty once trimmed
    /// is replaced by a generated one. The event takes the next sequence
    /// number, joins the pending events and the history, and the oldest
    /// history entry goes when the history passes its cap.
    pub fn push(&mut self, id: String, detail: D) -> (r: String)
        requires
            old(self).wf(),
            old(self).record_count() < u64::MAX,
        ensures
            final(self).wf(),
            trim_chars(id@).len() == 0 ==> allocated(old(self).next_id(), old(self).all_ids(), r@, final(self).next_id())
                && !old(self).all_ids().contains(r@),
            trim_chars(id@).len() != 0 ==> r@ == id@ && final(self).next_id() == old(self).next_id(),
            final(self).next_sequence() == counter_next(old(self).next_sequence()),
            ({
                let rec = final(self).history().last();
                &&& rec.sequence == old(self).next_sequence()
                &&& rec.id@ == r@
                &&& rec.detail == detail
                &&& final(self).history() == capped_push(old(self).history(), rec)
            }),
            final(self).pending().len() == old(self).pending().len() + 1,
            final(self).pending().drop_last() == old(self).pending(),
            final(self).pending().last().sequence == old(self).next_sequence(),
            final(self).pending().last().id@ == r@,
            cloned::<D>(detail, final(self).pending().last().detail),
            final(self).frame() == old(self).frame(),
            old(self).ordered() && old(self).next_sequence() < u64::MAX ==> final(self).ordered(),
    {
        let id = if trim_str(id.as_str()).unicode_len() == 0 {
            self.allocate_id()
        } else {
            id
        };
        let sequence = self.next_sequence;
        self.next_sequence = advance_counter(sequence);
        let copy = RealityRecord { sequence, id: id.clone(), detail: detail.clone() };
        self.pending.push(copy);
        let ghost before = self.history@;
        let record = RealityRecord { sequence, id: id.clone(), detail };
        self.history.push(record);
        if self.history.len() > MAX_REALITY_HISTORY {
            self.history.remove(0);
            proof {
                assert(self.history@ == before.push(record).skip(1));
            }
        }
        proof {
            let ghost o = old(self);
            if o.ordered() && o.next_sequence() < u64::MAX {
                let hs = record_sequences(self.history@);
                let ps = record_sequences(self.pending@);
                let fs = record_sequences(self.frame@);
                let ohs = record_sequences(o.history());
                let ops = record_sequences(o.pending());
                assert(ps == ops.push(sequence));
                assert(sequences_valid(ps, self.next_sequence));
                let grown = ohs.push(sequence);
                assert(sequences_valid(grown, self.next_sequence));
                if before.len() + 1 > MAX_REALITY_HISTORY {
                    assert(hs == grown.skip(1));
                } else {
                    assert(hs == grown);
                }
                assert(sequences_valid(hs, self.next_sequence));
                assert(sequences_valid(fs, self.next_sequence));
            }
        }
        id
    }

    /// Hands the pending events to the frame: the frame holds exactly the
    /// events recorded since the last delivery, and nothing stays pending.
    pub fn deliver_pending(&mut self)
        requires
            old(self).wf(),
        ensures
            final(self).wf(),
            final(self).frame() == old(self).pending(),
            final(self).pending().len() == 0,
            final(self).history() == old(self).history(),
            final(self).next_id() == old(self).next_id(),
            final(self).next_sequence() == old(self).next_sequence(),
            old(self).ordered() ==> final(self).ordered(),
    {
        let mut taken: Vec<RealityRecord<D>> = Vec::new();
        std::mem::swap(&mut taken, &mut self.pending);
        self.frame = taken;
        proof {
            assert(record_sequences(self.pending@) =~= Seq::<u64>::empty());
        }
    }

    /// Rebuilds a log from a checkpoint's history, pending events and
    /// counters, refusing counters at 0, a history over its cap, and
    /// sequence numbers that are not strictly increasing below the next one.
    pub fn restore(history: Vec<RealityRecord<D>>, pending: Vec<RealityRecord<D>>, next_id: u64, next_sequence: u64) -> (r:
        Result<Self, RealityRestoreError>)
        ensures
            ({
                let bad_counters = history@.len() > MAX_REALITY_HISTORY || next_id == 0 || next_sequence == 0;
                let in_order = sequences_valid(record_sequences(history@), next_sequence) && sequences_valid(
                    record_sequences(pending@),
                    next_sequence,
                );
                &&& bad_counters ==> r == Err::<Self, RealityRestoreError>(RealityRestoreError::CountersOrHistorySize)
                &&& !bad_counters && !in_order ==> r == Err::<Self, RealityRestoreError>(RealityRestoreError::EventSequence)
                &&& !bad_counters && in_order ==> (r matches Ok(log) && log.wf() && log.ordered() && log.history()
                    == history@ && log.pending() == pending@ && log.frame().len() == 0 && log.next_id() == next_id
                    && log.next_sequence() == next_sequence)
            }),
    {
        if history.len() > MAX_REALITY_HISTORY || next_id == 0 || next_sequence == 0 {
            return Err(RealityRestoreError::CountersOrHistorySize);
        }
        let hs = sequences_of(&history);
        let ps = sequences_of(&pending);
        if !valid_event_sequences(hs.as_slice(), next_sequence) || !valid_event_sequences(ps.as_slice(), next_sequence) {
            return Err(RealityRestoreError::EventSequence);
        }
        let log = RealityLog { history, pending, frame: Vec::new(), next_id, next_sequence };
        proof {
            assert(record_sequences(log.frame@) =~= Seq::<u64>::empty());
        }
        Ok(log)
    }
}

fn sequences_of<D>(records: &Vec<RealityRecord<D>>) -> (v: Vec<u64>)
    ensures
        v@ == record_sequences(records@),
{
    let mut v: Vec<u64> = Vec::new();
    let mut i: usize = 0;
    while i < records.len()
        invariant
            i <= records@.len(),
            v@ == record_sequences(records@.take(i as int)),
        decreases records@.len() - i,
    {
        v.push(records[i].sequence);
        proof {
            assert(records@.take(i + 1) == records@.take(i as int).push(records@[i as int]));
        }
        i = i + 1;
    }
    proof {
        assert(records@.take(i as int) == records@);
    }
    v
}

/// An event recorded and then delivered reaches exactly one frame: the
/// delivery after it finds nothing more pending.
pub proof fn lemma_delivered_once<D>(pushed: RealityLog<D>, first: RealityLog<D>, second: RealityLog<D>)
    requires
        first.frame() == pushed.pending(),
        first.pending().len() == 0,
        second.frame() == first.pending(),
    ensures
        first.frame() == pushed.pending(),
        second.frame().len() == 0,
{
}

} // verus!
