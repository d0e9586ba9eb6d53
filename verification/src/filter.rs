//! Ternary filtering of beacon messages.
use vstd::prelude::*;
use crate::message::{BeaconMessage, MessageView};
use crate::types::Ternary;

verus! {

/// Filter criteria for ternary matching.
#[derive(Debug, Clone)]
pub enum FilterCriterion {
    /// Include only beacons with this capability.
    HasCapability(String),
    /// Exclude beacons with this capability.
    NotCapability(String),
    /// Include beacons with this metadata key-value.
    HasMetadata(String, String),
    /// Include beacons at or above this signal threshold.
    MinSignal(u32),
}

/// What one criterion says of a message.
pub open spec fn criterion_result(c: FilterCriterion, m: MessageView) -> Ternary {
    match c {
        FilterCriterion::HasCapability(cap) => if m.capabilities.contains(cap@) {
            Ternary::Positive
        } else {
            Ternary::Negative
        },
        FilterCriterion::NotCapability(cap) => if m.capabilities.contains(cap@) {
            Ternary::Negative
        } else {
            Ternary::Positive
        },
        FilterCriterion::HasMetadata(key, value) => if !m.metadata.contains_key(key@) {
            Ternary::Negative
        } else if m.metadata[key@] == value@ {
            Ternary::Positive
        } else {
            Ternary::Neutral
        },
        FilterCriterion::MinSignal(min) => if m.signal_strength >= min {
            Ternary::Positive
        } else {
            Ternary::Negative
        },
    }
}

/// The combination of several results: negative if any is negative, else
/// positive if any is positive, else neutral.
pub open spec fn combined(results: Seq<Ternary>) -> Ternary {
    if results.contains(Ternary::Negative) {
        Ternary::Negative
    } else if results.contains(Ternary::Positive) {
        Ternary::Positive
    } else {
        Ternary::Neutral
    }
}

/// The results of each criterion on a message, in order.
pub open spec fn criterion_results(criteria: Seq<FilterCriterion>, m: MessageView) -> Seq<Ternary> {
    criteria.map_values(|c: FilterCriterion| criterion_result(c, m))
}

/// What a list of criteria says of a message.
pub open spec fn filter_result(criteria: Seq<FilterCriterion>, m: MessageView) -> Ternary {
    combined(criterion_results(criteria, m))
}

/// Holds of the messages that a list of criteria does not reject.
pub open spec fn passes(criteria: Seq<FilterCriterion>) -> spec_fn(BeaconMessage) -> bool {
    |m: BeaconMessage| filter_result(criteria, m@) != Ternary::Negative
}

impl FilterCriterion {
    /// Apply this criterion to a beacon message, returning a ternary result.
    pub fn apply(&self, msg: &BeaconMessage) -> (t: Ternary)
        ensures
            t == criterion_result(*self, msg@),
    {
        match self {
            FilterCriterion::HasCapability(cap) => {
                if msg.has_capability(cap.as_str()) {
                    Ternary::Positive
                } else {
                    Ternary::Negative
                }
            },
            FilterCriterion::NotCapability(cap) => {
                if msg.has_capability(cap.as_str()) {
                    Ternary::Negative
                } else {
                    Ternary::Positive
                }
            },
            FilterCriterion::HasMetadata(key, value) => {
                match msg.metadata.get(key.as_str()) {
                    Some(v) => {
                        if *v == *value {
                            Ternary::Positive
                        } else {
                            Ternary::Neutral
                        }
                    },
                    None => Ternary::Negative,
                }
            },
            FilterCriterion::MinSignal(min) => {
                if msg.signal_strength >= *min {
                    Ternary::Positive
                } else {
                    Ternary::Negative
                }
            },
        }
    }
}

/// A filter that combines multiple criteria with ternary logic.
/// A message passes if all criteria are non-negative (positive or neutral).
#[derive(Debug, Clone)]
pub struct BeaconFilter {
    criteria: Vec<FilterCriterion>,
}

impl View for BeaconFilter {
    type V = Seq<FilterCriterion>;

    closed spec fn view(&self) -> Seq<FilterCriterion> {
        self.criteria@
    }
}

impl BeaconFilter {
    /// A filter without criteria, which rejects nothing.
    pub fn new() -> (f: Self)
        ensures
            f@ == Seq::<FilterCriterion>::empty(),
    {
        Self { criteria: Vec::new() }
    }

    pub fn add_criterion(&mut self, criterion: FilterCriterion)
        ensures
            final(self)@ == old(self)@.push(criterion),
    {
        self.criteria.push(criterion);
    }

    /// Apply all criteria to a message. Returns the combined ternary result.
    /// Any negative criterion makes the whole result negative.
    pub fn apply(&self, msg: &BeaconMessage) -> (t: Ternary)
        ensures
            t == filter_result(self@, msg@),
    {
        let ghost results = criterion_results(self@, msg@);
        let mut result = Ternary::Neutral;
        let mut i: usize = 0;
        while i < self.criteria.len()
            invariant
                i <= self.criteria@.len(),
                results == criterion_results(self@, msg@),
                self@ == self.criteria@,
                forall|j: int| 0 <= j < i ==> results[j] != Ternary::Negative,
                result == (if exists|j: int| 0 <= j < i && results[j] == Ternary::Positive {
                    Ternary::Positive
                } else {
                    Ternary::Neutral
                }),
            decreases self.criteria@.len() - i,
        {
            let t = self.criteria[i].apply(msg);
            assert(t == results[i as int]);
            match t {
                Ternary::Negative => {
                    proof {
                        assert(results.contains(Ternary::Negative));
                    }
                    return Ternary::Negative;
                },
                Ternary::Positive => {
                    result = Ternary::Positive;
                },
                Ternary::Neutral => {},
            }
            i = i + 1;
        }
        proof {
            assert(!results.contains(Ternary::Negative));
            if results.contains(Ternary::Positive) {
                let j = choose|j: int| 0 <= j < results.len() && results[j] == Ternary::Positive;
                assert(0 <= j < i);
            }
        }
        result
    }

    /// Filter a list of beacon messages, keeping, in order, those that no
    /// criterion rejects.
    pub fn filter<'a>(&'a self, messages: &'a [BeaconMessage]) -> (r: Vec<&'a BeaconMessage>)
        ensures
            r@.map_values(|m: &BeaconMessage| *m) == messages@.filter(passes(self@)),
    {
        let ghost pred = passes(self@);
        let ghost ms = messages@;
        let mut kept: Vec<&'a BeaconMessage> = Vec::new();
        proof {
            reveal_with_fuel(Seq::filter, 1);
            assert(ms.take(0) =~= Seq::<BeaconMessage>::empty());
            assert(kept@.map_values(|m: &BeaconMessage| *m) =~= Seq::<BeaconMessage>::empty());
        }
        let mut i: usize = 0;
        while i < messages.len()
            invariant
                i <= ms.len(),
                ms == messages@,
                pred == passes(self@),
                kept@.map_values(|m: &BeaconMessage| *m) == ms.take(i as int).filter(pred),
            decreases ms.len() - i,
        {
            let ghost prev = kept@;
            proof {
                assert(ms.take(i + 1) =~= ms.take(i as int).push(ms[i as int]));
                ms.take(i as int).lemma_filter_push(ms[i as int], pred);
            }
            let t = self.apply(&messages[i]);
            if !matches!(t, Ternary::Negative) {
                kept.push(&messages[i]);
                proof {
                    assert(kept@.map_values(|m: &BeaconMessage| *m) =~= prev.map_values(
                        |m: &BeaconMessage| *m,
                    ).push(ms[i as int]));
                }
            }
            i = i + 1;
        }
        proof {
            assert(ms.take(i as int) =~= ms);
        }
        kept
    }

    pub fn criterion_count(&self) -> (n: usize)
        ensures
            n == self@.len(),
    {
        self.criteria.len()
    }
}

impl Default for BeaconFilter {
    fn default() -> (f: Self)
        ensures
            f@ == Seq::<FilterCriterion>::empty(),
    {
        Self::new()
    }
}

/// Any single negative criterion rejects the whole message.
pub proof fn lemma_any_negative_rejects(criteria: Seq<FilterCriterion>, m: MessageView, i: int)
    requires
        0 <= i < criteria.len(),
        criterion_result(criteria[i], m) == Ternary::Negative,
    ensures
        filter_result(criteria, m) == Ternary::Negative,
{
    assert(criterion_results(criteria, m)[i] == Ternary::Negative);
}

/// A message passes exactly when no criterion is negative about it, and a
/// filter without criteria is neutral about every message.
pub proof fn lemma_passes_iff_no_negative(criteria: Seq<FilterCriterion>, m: MessageView)
    ensures
        (filter_result(criteria, m) != Ternary::Negative) <==> (forall|i: int|
            0 <= i < criteria.len() ==> criterion_result(#[trigger] criteria[i], m) != Ternary::Negative),
        criteria.len() == 0 ==> filter_result(criteria, m) == Ternary::Neutral,
{
    let rs = criterion_results(criteria, m);
    if rs.contains(Ternary::Negative) {
        let i = choose|i: int| 0 <= i < rs.len() && rs[i] == Ternary::Negative;
        assert(criterion_result(criteria[i], m) == Ternary::Negative);
    }
    assert forall|i: int| 0 <= i < criteria.len() implies criterion_result(#[trigger] criteria[i], m)
        == rs[i] by {}
}

/// Adding a criterion never lets through a message that was rejected.
pub proof fn lemma_more_criteria_reject_more(criteria: Seq<FilterCriterion>, c: FilterCriterion, m: MessageView)
    ensures
        filter_result(criteria, m) == Ternary::Negative ==> filter_result(criteria.push(c), m)
            == Ternary::Negative,
{
    let rs = criterion_results(criteria, m);
    let rs2 = criterion_results(criteria.push(c), m);
    if rs.contains(Ternary::Negative) {
        let i = choose|i: int| 0 <= i < rs.len() && rs[i] == Ternary::Negative;
        assert(rs2[i] == criterion_result(criteria.push(c)[i], m));
        assert(criteria.push(c)[i] == criteria[i]);
        assert(rs2[i] == Ternary::Negative);
    }
}

/// A capability criterion and its negation always disagree: exactly one of
/// them is positive, and neither is ever neutral.
pub proof fn lemma_not_capability_is_opposite(cap: String, m: MessageView)
    ensures
        criterion_result(FilterCriterion::HasCapability(cap), m) != Ternary::Neutral,
        (criterion_result(FilterCriterion::NotCapability(cap), m) == Ternary::Positive) <==> (
        criterion_result(FilterCriterion::HasCapability(cap), m) == Ternary::Negative),
        criterion_result(FilterCriterion::NotCapability(cap), m) != criterion_result(
            FilterCriterion::HasCapability(cap),
            m,
        ),
{
}

/// What each kind of criterion says, in terms of the message itself: a
/// capability criterion is positive exactly when the capability occurs
/// anywhere in the message's list (its negation exactly when it occurs
/// nowhere), neither is ever neutral; a metadata criterion is negative
/// when the key is missing, positive when it maps to the wanted value and
/// neutral otherwise; a signal criterion is positive exactly when the
/// signal reaches the threshold.
pub proof fn lemma_criterion_meaning(c: FilterCriterion, m: MessageView)
    ensures
        c matches FilterCriterion::HasCapability(cap) ==> {
            &&& (criterion_result(c, m) == Ternary::Positive) <==> (exists|i: int|
                0 <= i < m.capabilities.len() && #[trigger] m.capabilities[i] == cap@)
            &&& (criterion_result(c, m) == Ternary::Negative) <==> (forall|i: int|
                0 <= i < m.capabilities.len() ==> #[trigger] m.capabilities[i] != cap@)
        },
        c matches FilterCriterion::NotCapability(cap) ==> {
            &&& (criterion_result(c, m) == Ternary::Negative) <==> (exists|i: int|
                0 <= i < m.capabilities.len() && #[trigger] m.capabilities[i] == cap@)
            &&& (criterion_result(c, m) == Ternary::Positive) <==> (forall|i: int|
                0 <= i < m.capabilities.len() ==> #[trigger] m.capabilities[i] != cap@)
        },
        c matches FilterCriterion::HasMetadata(key, value) ==> {
            &&& (criterion_result(c, m) == Ternary::Negative) <==> !m.metadata.dom().contains(key@)
            &&& (criterion_result(c, m) == Ternary::Positive) <==> (m.metadata.dom().contains(key@)
                && m.metadata[key@] == value@)
        },
        c matches FilterCriterion::MinSignal(min) ==> {
            &&& (criterion_result(c, m) == Ternary::Positive) <==> m.signal_strength >= min
            &&& (criterion_result(c, m) == Ternary::Negative) <==> m.signal_strength < min
        },
{
}

/// The verdict of a filter depends only on what its criteria say, not on
/// their order: it is negative exactly when some criterion is negative,
/// positive exactly when none is negative and some is positive, and
/// neutral otherwise. Filters made of the same criteria, in any order and
/// with any repetition, give the same verdict.
pub proof fn lemma_verdict_ignores_order(a: Seq<FilterCriterion>, b: Seq<FilterCriterion>, m: MessageView)
    requires
        forall|c: FilterCriterion| a.contains(c) <==> b.contains(c),
    ensures
        (filter_result(a, m) == Ternary::Negative) <==> (exists|i: int|
            0 <= i < a.len() && criterion_result(#[trigger] a[i], m) == Ternary::Negative),
        (filter_result(a, m) == Ternary::Positive) <==> ((forall|i: int|
            0 <= i < a.len() ==> criterion_result(#[trigger] a[i], m) != Ternary::Negative) && (exists|i: int|
            0 <= i < a.len() && criterion_result(#[trigger] a[i], m) == Ternary::Positive)),
        (filter_result(a, m) == Ternary::Neutral) <==> (forall|i: int|
            0 <= i < a.len() ==> criterion_result(#[trigger] a[i], m) == Ternary::Neutral),
        filter_result(a, m) == filter_result(b, m),
{
    lemma_verdict_by_criteria(a, m);
    lemma_verdict_by_criteria(b, m);
    assert forall|t: Ternary| criterion_results(a, m).contains(t) <==> criterion_results(b, m).contains(t) by {
        let ra = criterion_results(a, m);
        let rb = criterion_results(b, m);
        if ra.contains(t) {
            let i = choose|i: int| 0 <= i < ra.len() && ra[i] == t;
            assert(a.contains(a[i]));
            let j = choose|j: int| 0 <= j < b.len() && b[j] == a[i];
            assert(rb[j] == t);
        }
        if rb.contains(t) {
            let j = choose|j: int| 0 <= j < rb.len() && rb[j] == t;
            assert(b.contains(b[j]));
            let i = choose|i: int| 0 <= i < a.len() && a[i] == b[j];
            assert(ra[i] == t);
        }
    }
}

/// `filter` keeps a message exactly when none of the criteria is negative
/// about it.
pub proof fn lemma_passes_meaning(criteria: Seq<FilterCriterion>, m: BeaconMessage)
    ensures
        passes(criteria)(m) <==> (forall|i: int|
            0 <= i < criteria.len() ==> criterion_result(#[trigger] criteria[i], m@) != Ternary::Negative),
{
    lemma_passes_iff_no_negative(criteria, m@);
}

/// A value occurs among the results exactly when some criterion gives it.
proof fn lemma_verdict_by_criteria(a: Seq<FilterCriterion>, m: MessageView)
    ensures
        forall|t: Ternary| #[trigger] criterion_results(a, m).contains(t) <==> exists|i: int|
            0 <= i < a.len() && criterion_result(#[trigger] a[i], m) == t,
        (filter_result(a, m) == Ternary::Neutral) <==> (forall|i: int|
            0 <= i < a.len() ==> criterion_result(#[trigger] a[i], m) == Ternary::Neutral),
{
    let ra = criterion_results(a, m);
    assert forall|t: Ternary| #[trigger] ra.contains(t) <==> exists|i: int|
        0 <= i < a.len() && criterion_result(#[trigger] a[i], m) == t by {
        if ra.contains(t) {
            let i = choose|i: int| 0 <= i < ra.len() && ra[i] == t;
            assert(criterion_result(a[i], m) == t);
        }
        if exists|i: int| 0 <= i < a.len() && criterion_result(#[trigger] a[i], m) == t {
            let i = choose|i: int| 0 <= i < a.len() && criterion_result(#[trigger] a[i], m) == t;
            assert(ra[i] == t);
        }
    }
    if forall|i: int| 0 <= i < a.len() ==> criterion_result(#[trigger] a[i], m) == Ternary::Neutral {
        assert(!ra.contains(Ternary::Negative));
        assert(!ra.contains(Ternary::Positive));
    }
    if filter_result(a, m) == Ternary::Neutral {
        assert forall|i: int| 0 <= i < a.len() implies criterion_result(#[trigger] a[i], m) == Ternary::Neutral by {
            assert(ra[i] == criterion_result(a[i], m));
        }
    }
}

} // verus!
