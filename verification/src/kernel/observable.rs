//! Observable state: the quotient of a history under a collapse rule.
//! It is derived from the history, never stored alongside it.

use vstd::prelude::*;
use crate::kernel::entries::{pairs_joined, Entries};
use crate::kernel::event::{
    event_text, reason_text, rule_text, CollapseRule, Event, RefusalReason, SpecEvent, SpecRule,
    Symbol,
};
use crate::kernel::history::{refuses, History};
use crate::text::{chars_of, nat_text, push_decimal, same_text};

verus! {

/// Offset basis of the 64-bit FNV-1a hash.
pub const FNV_OFFSET: u64 = 0xcbf29ce484222325u64;

/// Prime of the 64-bit FNV-1a hash.
pub const FNV_PRIME: u64 = 0x100000001b3u64;

/// FNV-1a mixing of the bytes `b` into the running hash `x`.
pub open spec fn fnv_fold(x: u64, b: Seq<u8>) -> u64
    decreases b.len(),
{
    if b.len() == 0 {
        x
    } else {
        (fnv_fold(x, b.drop_last()) ^ (b.last() as u64)).wrapping_mul(FNV_PRIME)
    }
}

/// A fingerprint of the ordered event sequence: FNV-1a over the UTF-8 bytes
/// of each event's display text, in order.
pub open spec fn order_fingerprint(h: Seq<SpecEvent>) -> u64
    decreases h.len(),
{
    if h.len() == 0 {
        FNV_OFFSET
    } else {
        fnv_fold(order_fingerprint(h.drop_last()), vstd::utf8::encode_utf8(event_text(h.last())))
    }
}

/// `m` with the count of `k` increased by one (starting from zero).
pub open spec fn bump(m: Map<Seq<char>, nat>, k: Seq<char>) -> Map<Seq<char>, nat> {
    m.insert(k, if m.contains_key(k) { m[k] + 1 } else { 1 })
}

/// Counts under the identity rule: pops counted; a collapsed symbol is
/// present with count zero if it was never popped before.
pub open spec fn identity_counts(h: Seq<SpecEvent>) -> Map<Seq<char>, nat>
    decreases h.len(),
{
    if h.len() == 0 {
        Map::empty()
    } else {
        let m = identity_counts(h.drop_last());
        match h.last() {
            SpecEvent::Pop(s) => bump(m, s),
            SpecEvent::Collapse { target, .. } => if m.contains_key(target) {
                m
            } else {
                m.insert(target, 0)
            },
            _ => m,
        }
    }
}

/// Counts under the last-write rule: a pop sets 1, a refusal removes.
pub open spec fn last_write_counts(h: Seq<SpecEvent>) -> Map<Seq<char>, nat>
    decreases h.len(),
{
    if h.len() == 0 {
        Map::empty()
    } else {
        let m = last_write_counts(h.drop_last());
        match h.last() {
            SpecEvent::Pop(s) => m.insert(s, 1),
            SpecEvent::Refuse { target, .. } => m.remove(target),
            _ => m,
        }
    }
}

/// Counts under the accumulate rule: how often each symbol was popped.
pub open spec fn accumulate_counts(h: Seq<SpecEvent>) -> Map<Seq<char>, nat>
    decreases h.len(),
{
    if h.len() == 0 {
        Map::empty()
    } else {
        let m = accumulate_counts(h.drop_last());
        match h.last() {
            SpecEvent::Pop(s) => bump(m, s),
            _ => m,
        }
    }
}

/// Counts under projection onto `prefix`: pops of symbols whose name starts
/// with `prefix`.
pub open spec fn projection_counts(h: Seq<SpecEvent>, prefix: Seq<char>) -> Map<Seq<char>, nat>
    decreases h.len(),
{
    if h.len() == 0 {
        Map::empty()
    } else {
        let m = projection_counts(h.drop_last(), prefix);
        match h.last() {
            SpecEvent::Pop(s) => if prefix.is_prefix_of(s) {
                bump(m, s)
            } else {
                m
            },
            _ => m,
        }
    }
}

/// The refusals of `h`, in order, as (target, reason text), keeping only
/// those whose target passes `keep`.
pub open spec fn refusals_where(h: Seq<SpecEvent>, keep: spec_fn(Seq<char>) -> bool) -> Seq<
    (Seq<char>, Seq<char>),
>
    decreases h.len(),
{
    if h.len() == 0 {
        Seq::empty()
    } else {
        let r = refusals_where(h.drop_last(), keep);
        match h.last() {
            SpecEvent::Refuse { target, reason } => if keep(target) {
                r.push((target, reason_text(reason)))
            } else {
                r
            },
            _ => r,
        }
    }
}

/// Every refusal of `h`, in order.
pub open spec fn all_refusals(h: Seq<SpecEvent>) -> Seq<(Seq<char>, Seq<char>)> {
    refusals_where(h, |t: Seq<char>| true)
}

/// The refusals of `h` whose target starts with `prefix`.
pub open spec fn projected_refusals(h: Seq<SpecEvent>, prefix: Seq<char>) -> Seq<
    (Seq<char>, Seq<char>),
> {
    refusals_where(h, |t: Seq<char>| prefix.is_prefix_of(t))
}

/// The mathematical model of an observable state.
pub struct SpecObservation {
    pub rule: SpecRule,
    pub entries: Map<Seq<char>, nat>,
    pub has_refusals: bool,
    pub refused: Seq<(Seq<char>, Seq<char>)>,
    pub sequence: Seq<SpecEvent>,
}

/// The name of the synthetic entry that fingerprints event order.
pub open spec fn order_key() -> Seq<char> {
    "::order"@
}

/// The observation of `h` under the identity rule, labelled with `label`.
pub open spec fn identity_observation(h: Seq<SpecEvent>, label: SpecRule) -> SpecObservation {
    SpecObservation {
        rule: label,
        entries: identity_counts(h).insert(order_key(), order_fingerprint(h) as nat),
        has_refusals: all_refusals(h).len() > 0,
        refused: all_refusals(h),
        sequence: h,
    }
}

/// The observable state derived from `h` under `rule`.
pub open spec fn derive_observation(h: Seq<SpecEvent>, rule: SpecRule) -> SpecObservation {
    match rule {
        SpecRule::Identity => identity_observation(h, SpecRule::Identity),
        SpecRule::LastWrite => SpecObservation {
            rule: SpecRule::LastWrite,
            entries: last_write_counts(h),
            has_refusals: all_refusals(h).len() > 0,
            refused: all_refusals(h),
            sequence: Seq::empty(),
        },
        SpecRule::Accumulate => SpecObservation {
            rule: SpecRule::Accumulate,
            entries: accumulate_counts(h),
            has_refusals: all_refusals(h).len() > 0,
            refused: all_refusals(h),
            sequence: Seq::empty(),
        },
        SpecRule::Projection(p) => SpecObservation {
            rule: SpecRule::Projection(p),
            entries: projection_counts(h, p),
            has_refusals: projected_refusals(h, p).len() > 0,
            refused: projected_refusals(h, p),
            sequence: Seq::empty(),
        },
        SpecRule::Named(n) => identity_observation(h, SpecRule::Named(n)),
    }
}

/// The display text of an observable state.
pub open spec fn observation_text(
    rule: SpecRule,
    pairs: Seq<(String, u64)>,
    has_refusals: bool,
    refused_len: nat,
) -> Seq<char> {
    "ObsState["@ + rule_text(rule) + "]{"@ + pairs_joined(pairs) + (if has_refusals {
        " | refused:"@ + nat_text(refused_len)
    } else {
        Seq::empty()
    }) + "}"@
}

/// Whether `p` is a prefix of `s`.
pub fn has_prefix(s: &str, p: &str) -> (r: bool)
    ensures
        r == p@.is_prefix_of(s@),
{
    let a = chars_of(s);
    let b = chars_of(p);
    if b.len() > a.len() {
        return false;
    }
    let mut i: usize = 0;
    while i < b.len()
        invariant
            b@.len() <= a@.len(),
            a@ == s@,
            b@ == p@,
            i <= b@.len(),
            forall|j: int| 0 <= j < i ==> a@[j] == b@[j],
        decreases b@.len() - i,
    {
        if a[i] != b[i] {
            assert(a@.subrange(0, b@.len() as int)[i as int] != b@[i as int]);
            return false;
        }
        i = i + 1;
    }
    assert(b@ =~= a@.subrange(0, b@.len() as int));
    true
}

/// Whether two collapse rules are the same.
pub fn same_rule(a: &CollapseRule, b: &CollapseRule) -> (r: bool)
    ensures
        r == (a@ == b@),
{
    match (a, b) {
        (CollapseRule::Identity, CollapseRule::Identity) => true,
        (CollapseRule::LastWrite, CollapseRule::LastWrite) => true,
        (CollapseRule::Accumulate, CollapseRule::Accumulate) => true,
        (CollapseRule::Projection(x), CollapseRule::Projection(y)) => x.same(y),
        (CollapseRule::Named(x), CollapseRule::Named(y)) => x.same(y),
        _ => false,
    }
}

/// Observable state is derived from a history by applying a collapse rule.
#[derive(Debug, PartialEq, Eq)]
pub struct ObservableState {
    /// The rule used to derive this observation.
    pub rule: CollapseRule,
    /// Each observed symbol mapped to its observable count.
    pub entries: Entries,
    /// Whether any refusals appear in the history under this projection.
    pub has_refusals: bool,
    /// The refused symbols, each with its reason as text.
    pub refused_symbols: Vec<(Symbol, String)>,
    /// Under the identity rule (and named rules, which fall back to it) the
    /// full event sequence of the history; empty under the other rules.
    pub sequence: Vec<Event>,
}

impl View for ObservableState {
    type V = SpecObservation;

    open spec fn view(&self) -> SpecObservation {
        SpecObservation {
            rule: self.rule@,
            entries: self.entries@,
            has_refusals: self.has_refusals,
            refused: self.refused_symbols@.map_values(|p: (Symbol, String)| (p.0@, p.1@)),
            sequence: self.sequence@.map_values(|e: Event| e@),
        }
    }
}

/// Record one refusal: push `(target, reason text)`.
fn record_refusal(
    refused: &mut Vec<(Symbol, String)>,
    target: &Symbol,
    reason: &RefusalReason,
)
    ensures
        final(refused)@.map_values(|p: (Symbol, String)| (p.0@, p.1@)) == old(refused)@.map_values(
            |p: (Symbol, String)| (p.0@, p.1@),
        ).push((target@, reason_text(reason@))),
{
    refused.push((target.clone(), reason.to_text()));
    assert(refused@.map_values(|p: (Symbol, String)| (p.0@, p.1@)) =~= old(refused)@.map_values(
        |p: (Symbol, String)| (p.0@, p.1@),
    ).push((target@, reason_text(reason@))));
}

/// Mix the display text of `e` into the fingerprint `key`.
fn mix_event(key: u64, e: &Event) -> (r: u64)
    ensures
        r == fnv_fold(key, vstd::utf8::encode_utf8(event_text(e@))),
{
    let t = e.to_text();
    let bytes = t.as_str().as_bytes();
    let ghost b = bytes@;
    let mut k = key;
    let mut j: usize = 0;
    assert(b.take(0) =~= Seq::<u8>::empty());
    while j < bytes.len()
        invariant
            j <= b.len(),
            b == bytes@,
            k == fnv_fold(key, b.take(j as int)),
        decreases b.len() - j,
    {
        assert(b.take(j + 1).drop_last() =~= b.take(j as int));
        k = (k ^ (bytes[j] as u64)).wrapping_mul(FNV_PRIME);
        j = j + 1;
    }
    assert(b.take(j as int) =~= b);
    k
}

impl ObservableState {
    /// Derive observable state from `history` under `rule`.
    pub fn derive(history: &History, rule: &CollapseRule) -> (r: ObservableState)
        ensures
            r@ == derive_observation(history@, rule@),
    {
        match rule {
            CollapseRule::Identity => derive_identity(history),
            CollapseRule::LastWrite => derive_last_write(history),
            CollapseRule::Accumulate => derive_accumulate(history),
            CollapseRule::Projection(label) => derive_projection(history, label),
            CollapseRule::Named(name) => {
                let mut state = derive_identity(history);
                state.rule = CollapseRule::Named(name.clone());
                state
            },
        }
    }

    /// Two histories are observationally equivalent under a rule iff they
    /// produce the same observable state.
    pub fn equivalent(h1: &History, h2: &History, rule: &CollapseRule) -> (r: bool)
        ensures
            r == (derive_observation(h1@, rule@) == derive_observation(h2@, rule@)),
    {
        let a = Self::derive(h1, rule);
        let b = Self::derive(h2, rule);
        a.same_as(&b)
    }

    /// Whether two observable states are equal.
    pub fn same_as(&self, other: &ObservableState) -> (r: bool)
        ensures
            r == (self@ == other@),
    {
        if !same_rule(&self.rule, &other.rule) {
            return false;
        }
        if !self.entries.same(&other.entries) {
            return false;
        }
        if self.has_refusals != other.has_refusals {
            return false;
        }
        let ghost a = self.refused_symbols@.map_values(|p: (Symbol, String)| (p.0@, p.1@));
        let ghost b = other.refused_symbols@.map_values(|p: (Symbol, String)| (p.0@, p.1@));
        if self.refused_symbols.len() != other.refused_symbols.len() {
            assert(a.len() != b.len());
            return false;
        }
        let mut i: usize = 0;
        while i < self.refused_symbols.len()
            invariant
                i <= self.refused_symbols@.len(),
                self.refused_symbols@.len() == other.refused_symbols@.len(),
                a == self.refused_symbols@.map_values(|p: (Symbol, String)| (p.0@, p.1@)),
                b == other.refused_symbols@.map_values(|p: (Symbol, String)| (p.0@, p.1@)),
                forall|j: int| 0 <= j < i ==> #[trigger] a[j] == b[j],
            decreases self.refused_symbols@.len() - i,
        {
            let (s1, t1) = &self.refused_symbols[i];
            let (s2, t2) = &other.refused_symbols[i];
            if !s1.same(s2) || !same_text(t1.as_str(), t2.as_str()) {
                assert(a[i as int] != b[i as int]);
                return false;
            }
            assert(a[i as int] == b[i as int]);
            i = i + 1;
        }
        assert(a =~= b);
        same_events(&self.sequence, &other.sequence)
    }

    /// The display text: `ObsState[rule]{k:v, ...}`, with the number of
    /// refusals when there are any.
    pub fn to_text(&self) -> (r: String)
        ensures
            r@ == observation_text(
                self.rule@,
                self.entries.contents(),
                self.has_refusals,
                self.refused_symbols@.len(),
            ),
    {
        let mut out = String::new();
        out.append("ObsState[");
        self.rule.write_text(&mut out);
        out.append("]{");
        self.entries.write_pairs(&mut out);
        if self.has_refusals {
            out.append(" | refused:");
            push_decimal(&mut out, self.refused_symbols.len() as u128);
        }
        out.append("}");
        assert(out@ =~= observation_text(
            self.rule@,
            self.entries.contents(),
            self.has_refusals,
            self.refused_symbols@.len(),
        ));
        out
    }
}

/// Identity: every pop is counted, the ordered event sequence is
/// fingerprinted under the synthetic key `::order`, and the whole sequence
/// is kept.
fn derive_identity(history: &History) -> (r: ObservableState)
    ensures
        r@ == derive_observation(history@, SpecRule::Identity),
{
    let events = history.events();
    let ghost h = history@;
    let mut entries = Entries::new();
    let mut refused: Vec<(Symbol, String)> = Vec::new();
    let mut has_refusals = false;
    let mut order: u64 = FNV_OFFSET;
    let mut sequence: Vec<Event> = Vec::new();
    let mut i: usize = 0;
    assert(sequence@.map_values(|e: Event| e@) =~= h.take(0));
    while i < events.len()
        invariant
            i <= events@.len(),
            events@.map_values(|e: Event| e@) == h,
            sequence@.map_values(|e: Event| e@) == h.take(i as int),
            entries@ == identity_counts(h.take(i as int)),
            forall|k: Seq<char>| #[trigger] entries@.contains_key(k) ==> entries@[k] <= i,
            refused@.map_values(|p: (Symbol, String)| (p.0@, p.1@)) == all_refusals(h.take(i as int)),
            has_refusals == (all_refusals(h.take(i as int)).len() > 0),
            order == order_fingerprint(h.take(i as int)),
        decreases events@.len() - i,
    {
        let ghost prev = h.take(i as int);
        assert(h.take(i + 1).drop_last() =~= prev);
        assert(h.take(i + 1).last() == events@[i as int]@);
        let e = &events[i];
        order = mix_event(order, e);
        let ghost before = sequence@;
        sequence.push(e.clone());
        assert(sequence@.map_values(|e: Event| e@) =~= before.map_values(|e: Event| e@).push(e@));
        match e {
            Event::Pop(s) => {
                entries.bump(s.0.as_str());
            },
            Event::Refuse { target, reason } => {
                has_refusals = true;
                record_refusal(&mut refused, target, reason);
            },
            Event::Collapse { target, .. } => {
                entries.touch(target.0.as_str());
            },
            _ => {},
        }
        i = i + 1;
    }
    assert(h.take(i as int) =~= h);
    entries.put(String::from_str("::order"), order);
    ObservableState {
        rule: CollapseRule::Identity,
        entries,
        has_refusals,
        refused_symbols: refused,
        sequence,
    }
}

/// Last-write: only the most recent pop of each symbol is observable; a
/// refusal removes the symbol.
fn derive_last_write(history: &History) -> (r: ObservableState)
    ensures
        r@ == derive_observation(history@, SpecRule::LastWrite),
{
    let events = history.events();
    let ghost h = history@;
    let mut entries = Entries::new();
    let mut refused: Vec<(Symbol, String)> = Vec::new();
    let mut has_refusals = false;
    let mut i: usize = 0;
    while i < events.len()
        invariant
            i <= events@.len(),
            events@.map_values(|e: Event| e@) == h,
            entries@ == last_write_counts(h.take(i as int)),
            refused@.map_values(|p: (Symbol, String)| (p.0@, p.1@)) == all_refusals(h.take(i as int)),
            has_refusals == (all_refusals(h.take(i as int)).len() > 0),
        decreases events@.len() - i,
    {
        let ghost prev = h.take(i as int);
        assert(h.take(i + 1).drop_last() =~= prev);
        assert(h.take(i + 1).last() == events@[i as int]@);
        match &events[i] {
            Event::Pop(s) => {
                entries.put(s.0.clone(), 1);
            },
            Event::Refuse { target, reason } => {
                has_refusals = true;
                record_refusal(&mut refused, target, reason);
                entries.remove(target.0.as_str());
            },
            _ => {},
        }
        i = i + 1;
    }
    assert(h.take(i as int) =~= h);
    let sequence: Vec<Event> = Vec::new();
    assert(sequence@.map_values(|e: Event| e@) =~= Seq::<SpecEvent>::empty());
    ObservableState { rule: CollapseRule::LastWrite, entries, has_refusals, refused_symbols: refused, sequence }
}

/// Accumulate: count every pop, insensitive to order.
fn derive_accumulate(history: &History) -> (r: ObservableState)
    ensures
        r@ == derive_observation(history@, SpecRule::Accumulate),
{
    let events = history.events();
    let ghost h = history@;
    let mut entries = Entries::new();
    let mut refused: Vec<(Symbol, String)> = Vec::new();
    let mut has_refusals = false;
    let mut i: usize = 0;
    while i < events.len()
        invariant
            i <= events@.len(),
            events@.map_values(|e: Event| e@) == h,
            entries@ == accumulate_counts(h.take(i as int)),
            forall|k: Seq<char>| #[trigger] entries@.contains_key(k) ==> entries@[k] <= i,
            refused@.map_values(|p: (Symbol, String)| (p.0@, p.1@)) == all_refusals(h.take(i as int)),
            has_refusals == (all_refusals(h.take(i as int)).len() > 0),
        decreases events@.len() - i,
    {
        let ghost prev = h.take(i as int);
        assert(h.take(i + 1).drop_last() =~= prev);
        assert(h.take(i + 1).last() == events@[i as int]@);
        match &events[i] {
            Event::Pop(s) => {
                entries.bump(s.0.as_str());
            },
            Event::Refuse { target, reason } => {
                has_refusals = true;
                record_refusal(&mut refused, target, reason);
            },
            _ => {},
        }
        i = i + 1;
    }
    assert(h.take(i as int) =~= h);
    let sequence: Vec<Event> = Vec::new();
    assert(sequence@.map_values(|e: Event| e@) =~= Seq::<SpecEvent>::empty());
    ObservableState { rule: CollapseRule::Accumulate, entries, has_refusals, refused_symbols: refused, sequence }
}

/// Projection: only symbols whose name starts with the label are observed.
fn derive_projection(history: &History, label: &Symbol) -> (r: ObservableState)
    ensures
        r@ == derive_observation(history@, SpecRule::Projection(label@)),
{
    let events = history.events();
    let ghost h = history@;
    let ghost p = label@;
    let mut entries = Entries::new();
    let mut refused: Vec<(Symbol, String)> = Vec::new();
    let mut has_refusals = false;
    let mut i: usize = 0;
    while i < events.len()
        invariant
            i <= events@.len(),
            events@.map_values(|e: Event| e@) == h,
            p == label@,
            entries@ == projection_counts(h.take(i as int), p),
            forall|k: Seq<char>| #[trigger] entries@.contains_key(k) ==> entries@[k] <= i,
            refused@.map_values(|p: (Symbol, String)| (p.0@, p.1@)) == projected_refusals(
                h.take(i as int),
                p,
            ),
            has_refusals == (projected_refusals(h.take(i as int), p).len() > 0),
        decreases events@.len() - i,
    {
        let ghost prev = h.take(i as int);
        assert(h.take(i + 1).drop_last() =~= prev);
        assert(h.take(i + 1).last() == events@[i as int]@);
        match &events[i] {
            Event::Pop(s) => {
                if has_prefix(s.0.as_str(), label.0.as_str()) {
                    entries.bump(s.0.as_str());
                }
            },
            Event::Refuse { target, reason } => {
                if has_prefix(target.0.as_str(), label.0.as_str()) {
                    has_refusals = true;
                    record_refusal(&mut refused, target, reason);
                }
            },
            _ => {},
        }
        i = i + 1;
    }
    assert(h.take(i as int) =~= h);
    let sequence: Vec<Event> = Vec::new();
    assert(sequence@.map_values(|e: Event| e@) =~= Seq::<SpecEvent>::empty());
    ObservableState {
        rule: CollapseRule::Projection(label.clone()),
        entries,
        has_refusals,
        refused_symbols: refused,
        sequence,
    }
}

/// Counting a pop of `x` and then of `y` is counting them the other way round.
proof fn lemma_bump_commutes(m: Map<Seq<char>, nat>, x: Seq<char>, y: Seq<char>)
    ensures
        bump(bump(m, x), y) == bump(bump(m, y), x),
{
    assert(bump(bump(m, x), y) =~= bump(bump(m, y), x));
}

/// The accumulated counts after one more event.
pub open spec fn accumulate_step(m: Map<Seq<char>, nat>, e: SpecEvent) -> Map<Seq<char>, nat> {
    match e {
        SpecEvent::Pop(s) => bump(m, s),
        _ => m,
    }
}

proof fn lemma_accumulate_push(h: Seq<SpecEvent>, e: SpecEvent)
    ensures
        accumulate_counts(h.push(e)) == accumulate_step(accumulate_counts(h), e),
{
    assert(h.push(e).drop_last() =~= h);
}

proof fn lemma_accumulate_swap(p: Seq<SpecEvent>, a: SpecEvent, b: SpecEvent, t: Seq<SpecEvent>)
    ensures
        accumulate_counts(p + seq![a, b] + t) == accumulate_counts(p + seq![b, a] + t),
    decreases t.len(),
{
    let x = p + seq![a, b];
    let y = p + seq![b, a];
    if t.len() == 0 {
        assert(x + t =~= x);
        assert(y + t =~= y);
        assert(x =~= p.push(a).push(b));
        assert(y =~= p.push(b).push(a));
        lemma_accumulate_push(p, a);
        lemma_accumulate_push(p, b);
        lemma_accumulate_push(p.push(a), b);
        lemma_accumulate_push(p.push(b), a);
        let m = accumulate_counts(p);
        if a is Pop && b is Pop {
            lemma_bump_commutes(m, a->Pop_0, b->Pop_0);
        }
    } else {
        lemma_accumulate_swap(p, a, b, t.drop_last());
        assert(x + t =~= (x + t.drop_last()).push(t.last()));
        assert(y + t =~= (y + t.drop_last()).push(t.last()));
        lemma_accumulate_push(x + t.drop_last(), t.last());
        lemma_accumulate_push(y + t.drop_last(), t.last());
    }
}

/// Moving the event at `i` to the end leaves the accumulated counts unchanged.
proof fn lemma_accumulate_move_last(h: Seq<SpecEvent>, i: int)
    requires
        0 <= i < h.len(),
    ensures
        accumulate_counts(h) == accumulate_counts(h.remove(i).push(h[i])),
    decreases h.len() - i,
{
    if i == h.len() - 1 {
        assert(h.remove(i).push(h[i]) =~= h);
    } else {
        let p = h.take(i);
        let a = h[i];
        let b = h[i + 1];
        let t = h.skip(i + 2);
        assert(h =~= p + seq![a, b] + t);
        let h2 = p + seq![b, a] + t;
        lemma_accumulate_swap(p, a, b, t);
        lemma_accumulate_move_last(h2, i + 1);
        assert(h2[i + 1] == a);
        assert(h2.remove(i + 1) =~= h.remove(i));
    }
}

/// Histories that hold the same events, each as many times, accumulate the
/// same counts.
proof fn lemma_accumulate_permutation(h1: Seq<SpecEvent>, h2: Seq<SpecEvent>)
    requires
        h1.to_multiset() == h2.to_multiset(),
    ensures
        accumulate_counts(h1) == accumulate_counts(h2),
    decreases h1.len(),
{
    broadcast use vstd::seq_lib::group_to_multiset_ensures;

    if h1.len() == 0 {
        assert(h2.to_multiset().len() == 0);
        assert(h1 =~= h2);
    } else {
        let e = h1.last();
        let rest = h1.drop_last();
        assert(h1 =~= rest.push(e));
        assert(h1.to_multiset() == rest.to_multiset().insert(e));
        assert(h2.to_multiset().count(e) > 0);
        assert(h2.contains(e));
        let i = choose|i: int| 0 <= i < h2.len() && h2[i] == e;
        assert(h2.remove(i).to_multiset() == h2.to_multiset().remove(e));
        assert(rest.to_multiset() =~= rest.to_multiset().insert(e).remove(e));
        lemma_accumulate_permutation(rest, h2.remove(i));
        lemma_accumulate_move_last(h2, i);
        lemma_accumulate_push(rest, e);
        lemma_accumulate_push(h2.remove(i), e);
    }
}

/// Accumulation does not see order: two histories that hold the same
/// events, each as many times, are observed alike under the accumulate rule.
pub proof fn law_accumulate_ignores_order(h1: Seq<SpecEvent>, h2: Seq<SpecEvent>)
    requires
        h1.to_multiset() == h2.to_multiset(),
    ensures
        derive_observation(h1, SpecRule::Accumulate).entries == derive_observation(
            h2,
            SpecRule::Accumulate,
        ).entries,
{
    lemma_accumulate_permutation(h1, h2);
}

/// Whether two events are equal.
pub fn same_event(a: &Event, b: &Event) -> (r: bool)
    ensures
        r == (a@ == b@),
{
    match (a, b) {
        (Event::Pop(x), Event::Pop(y)) => x.same(y),
        (Event::Refuse { target: t1, reason: r1 }, Event::Refuse { target: t2, reason: r2 }) => t1.same(t2)
            && crate::types::ty::same_reason(r1, r2),
        (Event::Bind { name: n1, target: t1 }, Event::Bind { name: n2, target: t2 }) => n1.same(n2)
            && t1.same(t2),
        (Event::Collapse { target: t1, rule: r1 }, Event::Collapse { target: t2, rule: r2 }) => t1.same(t2)
            && same_rule(r1, r2),
        (Event::LamIntro { param: p1 }, Event::LamIntro { param: p2 }) => p1.same(p2),
        (Event::Apply { fun: f1, arg: a1 }, Event::Apply { fun: f2, arg: a2 }) => f1.same(f2) && a1.same(a2),
        (Event::ScopeOpen(x), Event::ScopeOpen(y)) => x.same(y),
        (Event::ScopeClose(x), Event::ScopeClose(y)) => x.same(y),
        _ => false,
    }
}

/// Whether two event sequences are equal, event by event.
fn same_events(a: &Vec<Event>, b: &Vec<Event>) -> (r: bool)
    ensures
        r == (a@.map_values(|e: Event| e@) == b@.map_values(|e: Event| e@)),
{
    let ghost x = a@.map_values(|e: Event| e@);
    let ghost y = b@.map_values(|e: Event| e@);
    if a.len() != b.len() {
        assert(x.len() != y.len());
        return false;
    }
    let mut i: usize = 0;
    while i < a.len()
        invariant
            i <= a@.len(),
            a@.len() == b@.len(),
            x == a@.map_values(|e: Event| e@),
            y == b@.map_values(|e: Event| e@),
            forall|j: int| 0 <= j < i ==> #[trigger] x[j] == y[j],
        decreases a@.len() - i,
    {
        if !same_event(&a[i], &b[i]) {
            assert(x[i as int] != y[i as int]);
            return false;
        }
        i = i + 1;
    }
    assert(x =~= y);
    true
}

/// The identity rule is observationally complete: two histories look alike
/// under it exactly when they are the same history (likewise under a named
/// rule, which falls back to it).
pub proof fn law_identity_is_complete(h1: Seq<SpecEvent>, h2: Seq<SpecEvent>, name: Seq<char>)
    ensures
        (derive_observation(h1, SpecRule::Identity) == derive_observation(h2, SpecRule::Identity))
            <==> h1 == h2,
        (derive_observation(h1, SpecRule::Named(name)) == derive_observation(h2, SpecRule::Named(name)))
            <==> h1 == h2,
{
}

/// How many times `h` pops `s`.
pub open spec fn pops_of(h: Seq<SpecEvent>, s: Seq<char>) -> nat
    decreases h.len(),
{
    if h.len() == 0 {
        0
    } else {
        pops_of(h.drop_last(), s) + if h.last() == SpecEvent::Pop(s) { 1nat } else { 0nat }
    }
}

/// Whether `e` collapses `s`.
pub open spec fn collapses(e: SpecEvent, s: Seq<char>) -> bool {
    e matches SpecEvent::Collapse { target, .. } && target == s
}

/// Whether `h` collapses `s` somewhere.
pub open spec fn collapsed_in(h: Seq<SpecEvent>, s: Seq<char>) -> bool {
    exists|i: int| 0 <= i < h.len() && #[trigger] collapses(h[i], s)
}

/// Whether the latest pop of `s` in `h` is not followed by a refusal of `s`.
pub open spec fn popped_since_refusal(h: Seq<SpecEvent>, s: Seq<char>) -> bool {
    exists|i: int|
        0 <= i < h.len() && #[trigger] h[i] == SpecEvent::Pop(s) && forall|j: int|
            i < j < h.len() ==> !#[trigger] refuses(h[j], s)
}

proof fn lemma_last_split(h: Seq<SpecEvent>, s: Seq<char>)
    requires
        h.len() > 0,
    ensures
        collapsed_in(h, s) <==> (collapsed_in(h.drop_last(), s) || collapses(h.last(), s)),
        forall|i: int| 0 <= i < h.len() - 1 ==> #[trigger] h.drop_last()[i] == h[i],
{
    let d = h.drop_last();
    assert forall|i: int| 0 <= i < h.len() - 1 implies #[trigger] d[i] == h[i] by {}
    if collapsed_in(h, s) {
        let i = choose|i: int| 0 <= i < h.len() && #[trigger] collapses(h[i], s);
        if i < h.len() - 1 {
            assert(collapses(d[i], s));
        }
    }
    if collapsed_in(d, s) {
        let i = choose|i: int| 0 <= i < d.len() && #[trigger] collapses(d[i], s);
        assert(collapses(h[i], s));
    }
    if collapses(h.last(), s) {
        assert(collapses(h[h.len() - 1], s));
    }
}

proof fn lemma_identity_counts(h: Seq<SpecEvent>, s: Seq<char>)
    ensures
        identity_counts(h).contains_key(s) <==> (pops_of(h, s) > 0 || collapsed_in(h, s)),
        identity_counts(h).contains_key(s) ==> identity_counts(h)[s] == pops_of(h, s),
    decreases h.len(),
{
    if h.len() > 0 {
        lemma_identity_counts(h.drop_last(), s);
        lemma_last_split(h, s);
    }
}

proof fn lemma_accumulate_counts(h: Seq<SpecEvent>, s: Seq<char>)
    ensures
        accumulate_counts(h).contains_key(s) <==> pops_of(h, s) > 0,
        accumulate_counts(h).contains_key(s) ==> accumulate_counts(h)[s] == pops_of(h, s),
    decreases h.len(),
{
    if h.len() > 0 {
        lemma_accumulate_counts(h.drop_last(), s);
    }
}

proof fn lemma_projection_counts(h: Seq<SpecEvent>, prefix: Seq<char>, s: Seq<char>)
    ensures
        projection_counts(h, prefix).contains_key(s) <==> (prefix.is_prefix_of(s) && pops_of(h, s) > 0),
        projection_counts(h, prefix).contains_key(s) ==> projection_counts(h, prefix)[s] == pops_of(h, s),
    decreases h.len(),
{
    if h.len() > 0 {
        lemma_projection_counts(h.drop_last(), prefix, s);
    }
}

proof fn lemma_last_write_counts(h: Seq<SpecEvent>, s: Seq<char>)
    ensures
        last_write_counts(h).contains_key(s) <==> popped_since_refusal(h, s),
        last_write_counts(h).contains_key(s) ==> last_write_counts(h)[s] == 1,
    decreases h.len(),
{
    if h.len() > 0 {
        let d = h.drop_last();
        let k = h.len() - 1;
        let e = h.last();
        lemma_last_write_counts(d, s);
        assert(h[k] == e);
        assert forall|i: int| 0 <= i < k implies #[trigger] d[i] == h[i] by {}
        if e == SpecEvent::Pop(s) {
            assert(h[k] == SpecEvent::Pop(s));
            assert(popped_since_refusal(h, s));
        } else if refuses(e, s) {
            if popped_since_refusal(h, s) {
                let i = choose|i: int|
                    0 <= i < h.len() && #[trigger] h[i] == SpecEvent::Pop(s) && forall|j: int|
                        i < j < h.len() ==> !#[trigger] refuses(h[j], s);
                assert(i != k);
                assert(refuses(h[k], s));
            }
        } else {
            if popped_since_refusal(h, s) {
                let i = choose|i: int|
                    0 <= i < h.len() && #[trigger] h[i] == SpecEvent::Pop(s) && forall|j: int|
                        i < j < h.len() ==> !#[trigger] refuses(h[j], s);
                assert(i != k);
                assert(d[i] == SpecEvent::Pop(s));
                assert forall|j: int| i < j < d.len() implies !#[trigger] refuses(d[j], s) by {
                    assert(d[j] == h[j]);
                    assert(!refuses(h[j], s));
                }
                assert(popped_since_refusal(d, s));
            }
            if popped_since_refusal(d, s) {
                let i = choose|i: int|
                    0 <= i < d.len() && #[trigger] d[i] == SpecEvent::Pop(s) && forall|j: int|
                        i < j < d.len() ==> !#[trigger] refuses(d[j], s);
                assert(h[i] == SpecEvent::Pop(s));
                assert forall|j: int| i < j < h.len() implies !#[trigger] refuses(h[j], s) by {
                    if j < k {
                        assert(d[j] == h[j]);
                        assert(!refuses(d[j], s));
                    }
                }
                assert(popped_since_refusal(h, s));
            }
            match e {
                SpecEvent::Pop(x) => {},
                SpecEvent::Refuse { target, .. } => {
                    assert(target != s);
                },
                _ => {},
            }
        }
    }
}

/// Under the identity rule (and under a named rule) every symbol other than
/// the order entry is observed exactly when it was popped or collapsed, with
/// the number of times it was popped; refusals change no count. Refusals are
/// noted exactly when the history holds one.
pub proof fn law_identity_counts_pops(h: Seq<SpecEvent>, s: Seq<char>, name: Seq<char>)
    requires
        s != order_key(),
    ensures
        derive_observation(h, SpecRule::Identity).entries.contains_key(s) <==> (pops_of(h, s) > 0
            || collapsed_in(h, s)),
        derive_observation(h, SpecRule::Identity).entries.contains_key(s) ==> derive_observation(
            h,
            SpecRule::Identity,
        ).entries[s] == pops_of(h, s),
        derive_observation(h, SpecRule::Named(name)).entries == derive_observation(
            h,
            SpecRule::Identity,
        ).entries,
        derive_observation(h, SpecRule::Identity).has_refusals <==> exists|i: int|
            0 <= i < h.len() && (#[trigger] h[i]) is Refuse,
{
    lemma_identity_counts(h, s);
    lemma_refusals_noted(h);
}

proof fn lemma_refusals_noted(h: Seq<SpecEvent>)
    ensures
        all_refusals(h).len() > 0 <==> exists|i: int| 0 <= i < h.len() && (#[trigger] h[i]) is Refuse,
    decreases h.len(),
{
    if h.len() > 0 {
        let d = h.drop_last();
        lemma_refusals_noted(d);
        assert(all_refusals(d) == refusals_where(d, |t: Seq<char>| true));
        assert(h[h.len() - 1] == h.last());
        if exists|i: int| 0 <= i < d.len() && (#[trigger] d[i]) is Refuse {
            let i = choose|i: int| 0 <= i < d.len() && (#[trigger] d[i]) is Refuse;
            assert(h[i] == d[i]);
        }
        if exists|i: int| 0 <= i < h.len() && (#[trigger] h[i]) is Refuse {
            let i = choose|i: int| 0 <= i < h.len() && (#[trigger] h[i]) is Refuse;
            if i < h.len() - 1 {
                assert(d[i] == h[i]);
            }
        }
    }
}

/// Under the accumulate rule a symbol is observed exactly when it was
/// popped, with the number of times it was popped.
pub proof fn law_accumulate_counts_pops(h: Seq<SpecEvent>, s: Seq<char>)
    ensures
        derive_observation(h, SpecRule::Accumulate).entries.contains_key(s) <==> pops_of(h, s) > 0,
        derive_observation(h, SpecRule::Accumulate).entries.contains_key(s) ==> derive_observation(
            h,
            SpecRule::Accumulate,
        ).entries[s] == pops_of(h, s),
{
    lemma_accumulate_counts(h, s);
}

/// Under projection onto a prefix a symbol is observed exactly when it
/// starts with the prefix and was popped, with the number of times it was
/// popped.
pub proof fn law_projection_counts_pops(h: Seq<SpecEvent>, prefix: Seq<char>, s: Seq<char>)
    ensures
        derive_observation(h, SpecRule::Projection(prefix)).entries.contains_key(s) <==> (
        prefix.is_prefix_of(s) && pops_of(h, s) > 0),
        derive_observation(h, SpecRule::Projection(prefix)).entries.contains_key(s)
            ==> derive_observation(h, SpecRule::Projection(prefix)).entries[s] == pops_of(h, s),
{
    lemma_projection_counts(h, prefix, s);
}

/// Under the last-write rule a symbol is observed, with count one, exactly
/// when it was popped and not refused since its latest pop.
pub proof fn law_last_write_latest(h: Seq<SpecEvent>, s: Seq<char>)
    ensures
        derive_observation(h, SpecRule::LastWrite).entries.contains_key(s) <==> popped_since_refusal(
            h,
            s,
        ),
        derive_observation(h, SpecRule::LastWrite).entries.contains_key(s) ==> derive_observation(
            h,
            SpecRule::LastWrite,
        ).entries[s] == 1,
{
    lemma_last_write_counts(h, s);
}

} // verus!
