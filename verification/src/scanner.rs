//! Scanning for nearby beacons: which messages an agent detects, how it
//! classifies them, and in which order it reports them.
use vstd::prelude::*;
use crate::message::{BeaconMessage, MessageView, message_views};
use crate::types::{AgentId, SignalStrength, classify};

verus! {

/// Holds of the messages that a scanner of `agent` with range `range`
/// detects: those of other agents whose signal does not exceed the range.
pub open spec fn detectable(agent: AgentId, range: u32) -> spec_fn(MessageView) -> bool {
    |m: MessageView| m.source != agent && m.signal_strength <= range
}

/// Holds of the messages whose signal strength is exactly `s`.
pub open spec fn with_signal(s: u32) -> spec_fn(MessageView) -> bool {
    |m: MessageView| m.signal_strength == s
}

/// Strongest signal first.
pub open spec fn sorted_by_signal_desc(v: Seq<MessageView>) -> bool {
    forall|i: int, j: int| 0 <= i <= j < v.len() ==> v[i].signal_strength >= v[j].signal_strength
}

/// `out` is `input` sorted by signal strength, strongest first, where
/// messages of equal strength keep their relative order.
pub open spec fn stable_sort_desc(out: Seq<MessageView>, input: Seq<MessageView>) -> bool {
    &&& out.len() == input.len()
    &&& sorted_by_signal_desc(out)
    &&& forall|s: u32| #[trigger] out.filter(with_signal(s)) == input.filter(with_signal(s))
}

/// Estimated distance for a signal strength: the inverse of the signal,
/// or 100 for no signal at all.
pub open spec fn distance_of(signal: u32) -> u32 {
    if signal > 0 {
        100u32 / signal
    } else {
        100
    }
}

/// A detected beacon result.
#[derive(Debug, Clone)]
pub struct DetectedBeacon {
    pub message: BeaconMessage,
    pub signal_class: SignalStrength,
    pub distance_estimate: u32,
}

impl DetectedBeacon {
    /// The class and distance are those of the message's signal strength.
    pub open spec fn consistent(self) -> bool {
        &&& self.signal_class == classify(self.message.signal_strength)
        &&& self.distance_estimate == distance_of(self.message.signal_strength)
    }
}

/// The messages of a list of detections, in order.
pub open spec fn detection_views(ds: Seq<DetectedBeacon>) -> Seq<MessageView> {
    ds.map_values(|d: DetectedBeacon| d.message@)
}

/// Holds of the detections classified at least as strong as `min`.
pub open spec fn at_least(min: SignalStrength) -> spec_fn(DetectedBeacon) -> bool {
    |d: DetectedBeacon| d.signal_class.rank() >= min.rank()
}

/// The state of a scanner.
pub ghost struct ScannerView {
    pub agent_id: AgentId,
    pub scan_range: u32,
    pub detections: Seq<DetectedBeacon>,
}

/// Scans for nearby beacons within range.
#[derive(Debug, Clone)]
pub struct BeaconScanner {
    agent_id: AgentId,
    scan_range: u32,
    detections: Vec<DetectedBeacon>,
}

impl View for BeaconScanner {
    type V = ScannerView;

    closed spec fn view(&self) -> ScannerView {
        ScannerView {
            agent_id: self.agent_id,
            scan_range: self.scan_range,
            detections: self.detections@,
        }
    }
}

/// Filtering a sequence none of whose elements qualify gives nothing.
proof fn lemma_filter_none<A>(s: Seq<A>, pred: spec_fn(A) -> bool)
    requires
        forall|i: int| 0 <= i < s.len() ==> !pred(#[trigger] s[i]),
    ensures
        s.filter(pred) == Seq::<A>::empty(),
{
    let f = s.filter(pred);
    if f.len() > 0 {
        s.lemma_filter_pred(pred, 0);
        s.lemma_filter_contains_rev(pred, f[0]);
    }
    assert(f =~= Seq::<A>::empty());
}

/// Inserting a message right after the last one at least as strong keeps
/// the list a stable sort of its input with the message appended.
proof fn lemma_insert_keeps_stable_sort(
    out: Seq<MessageView>,
    input: Seq<MessageView>,
    p: int,
    e: MessageView,
)
    requires
        stable_sort_desc(out, input),
        0 <= p <= out.len(),
        forall|j: int| 0 <= j < p ==> (#[trigger] out[j]).signal_strength >= e.signal_strength,
        forall|j: int| p <= j < out.len() ==> (#[trigger] out[j]).signal_strength < e.signal_strength,
    ensures
        stable_sort_desc(out.insert(p, e), input.push(e)),
{
    let r = out.insert(p, e);
    let a = out.subrange(0, p);
    let b = out.subrange(p, out.len() as int);
    assert(r =~= a + seq![e] + b);
    assert(out =~= a + b);
    assert forall|i: int, j: int| 0 <= i <= j < r.len() implies r[i].signal_strength
        >= r[j].signal_strength by {
        if j < p {
            assert(r[i] == out[i] && r[j] == out[j]);
        } else if j == p {
            if i < p {
                assert(r[i] == out[i]);
            }
        } else if i < p {
            assert(r[i] == out[i] && r[j] == out[j - 1]);
        } else if i == p {
            assert(r[j] == out[j - 1]);
        } else {
            assert(r[i] == out[i - 1] && r[j] == out[j - 1]);
        }
    }
    assert forall|s: u32| #[trigger] r.filter(with_signal(s)) == input.push(e).filter(with_signal(s)) by {
        let pred = with_signal(s);
        Seq::filter_distributes_over_add(a + seq![e], b, pred);
        Seq::filter_distributes_over_add(a, seq![e], pred);
        Seq::filter_distributes_over_add(a, b, pred);
        input.lemma_filter_push(e, pred);
        Seq::<MessageView>::empty().lemma_filter_push(e, pred);
        assert(seq![e] =~= Seq::<MessageView>::empty().push(e));
        reveal_with_fuel(Seq::filter, 1);
        assert(out.filter(pred) == input.filter(pred));
        if s == e.signal_strength {
            assert forall|j: int| 0 <= j < b.len() implies !pred(#[trigger] b[j]) by {
                assert(b[j] == out[p + j]);
            }
            lemma_filter_none(b, pred);
            assert(b.filter(pred) + Seq::<MessageView>::empty() =~= b.filter(pred));
            assert(a.filter(pred) + Seq::<MessageView>::empty() =~= a.filter(pred));
            assert(r.filter(pred) =~= out.filter(pred).push(e));
        } else {
            assert(a.filter(pred) + Seq::<MessageView>::empty() =~= a.filter(pred));
            assert(r.filter(pred) =~= out.filter(pred));
        }
    }
}

/// Insert `d` after every detection at least as strong as it.
fn insert_by_signal(v: &mut Vec<DetectedBeacon>, d: DetectedBeacon)
    requires
        sorted_by_signal_desc(detection_views(old(v)@)),
    ensures
        exists|p: int|
            0 <= p <= old(v)@.len() && final(v)@ == old(v)@.insert(p, d) && (forall|j: int|
                0 <= j < p ==> (#[trigger] old(v)@[j]).message.signal_strength
                    >= d.message.signal_strength) && (forall|j: int|
                p <= j < old(v)@.len() ==> (#[trigger] old(v)@[j]).message.signal_strength
                    < d.message.signal_strength),
{
    let ghost views = detection_views(v@);
    let mut p: usize = 0;
    while p < v.len() && v[p].message.signal_strength >= d.message.signal_strength
        invariant
            p <= v@.len(),
            forall|j: int| 0 <= j < p ==> (#[trigger] v@[j]).message.signal_strength
                >= d.message.signal_strength,
        decreases v@.len() - p,
    {
        p = p + 1;
    }
    proof {
        assert forall|j: int| p <= j < v@.len() implies (#[trigger] v@[j]).message.signal_strength
            < d.message.signal_strength by {
            assert(views[p as int] == v@[p as int].message@);
            assert(views[j] == v@[j].message@);
        }
    }
    let ghost before = v@;
    v.insert(p, d);
    assert(v@ == before.insert(p as int, d));
}

impl BeaconScanner {
    /// A scanner for `agent_id` with no detections yet.
    pub fn new(agent_id: AgentId, scan_range: u32) -> (s: Self)
        ensures
            s@.agent_id == agent_id,
            s@.scan_range == scan_range,
            s@.detections == Seq::<DetectedBeacon>::empty(),
    {
        Self { agent_id, scan_range, detections: Vec::new() }
    }

    pub fn agent_id(&self) -> (id: AgentId)
        ensures
            id == self@.agent_id,
    {
        self.agent_id
    }

    pub fn scan_range(&self) -> (r: u32)
        ensures
            r == self@.scan_range,
    {
        self.scan_range
    }

    /// Scan a set of beacon messages, keeping those of other agents within
    /// range, strongest signal first; the result replaces the previous
    /// detections.
    pub fn scan(&mut self, messages: &[BeaconMessage]) -> (r: &[DetectedBeacon])
        ensures
            final(self)@.agent_id == old(self)@.agent_id,
            final(self)@.scan_range == old(self)@.scan_range,
            r@ == final(self)@.detections,
            forall|i: int| 0 <= i < r@.len() ==> (#[trigger] r@[i]).consistent(),
            forall|i: int|
                0 <= i < r@.len() && (#[trigger] r@[i]).message.signal_strength > 0 ==> r@[i].distance_estimate
                    * r@[i].message.signal_strength <= 100 < (r@[i].distance_estimate + 1)
                    * r@[i].message.signal_strength,
            forall|i: int|
                0 <= i < r@.len() && (#[trigger] r@[i]).message.signal_strength == 0 ==> r@[i].distance_estimate
                    == 100,
            stable_sort_desc(
                detection_views(r@),
                message_views(messages@).filter(detectable(old(self)@.agent_id, old(self)@.scan_range)),
            ),
    {
        let ghost input = message_views(messages@);
        let ghost pred = detectable(self.agent_id, self.scan_range);
        let mut found: Vec<DetectedBeacon> = Vec::new();
        proof {
            reveal_with_fuel(Seq::filter, 1);
            assert(input.take(0) =~= Seq::<MessageView>::empty());
            assert(input.take(0).filter(pred) =~= Seq::<MessageView>::empty());
            assert(detection_views(found@) =~= Seq::<MessageView>::empty());
        }
        let mut i: usize = 0;
        while i < messages.len()
            invariant
                i <= messages@.len(),
                input == message_views(messages@),
                pred == detectable(self.agent_id, self.scan_range),
                forall|k: int| 0 <= k < found@.len() ==> (#[trigger] found@[k]).consistent(),
                stable_sort_desc(detection_views(found@), input.take(i as int).filter(pred)),
            decreases messages@.len() - i,
        {
            let msg = &messages[i];
            let ghost before = found@;
            proof {
                assert(input.take(i + 1) =~= input.take(i as int).push(input[i as int]));
                input.take(i as int).lemma_filter_push(input[i as int], pred);
                assert(input[i as int] == msg@);
            }
            if msg.source.0 != self.agent_id.0 && msg.signal_strength <= self.scan_range {
                let distance: u32 = if msg.signal_strength > 0 {
                    100 / msg.signal_strength
                } else {
                    100
                };
                let d = DetectedBeacon {
                    message: msg.clone(),
                    signal_class: SignalStrength::from_raw(msg.signal_strength),
                    distance_estimate: distance,
                };
                insert_by_signal(&mut found, d);
                proof {
                    let p = choose|p: int|
                        0 <= p <= before.len() && found@ == before.insert(p, d) && (forall|j: int|
                            0 <= j < p ==> (#[trigger] before[j]).message.signal_strength
                                >= d.message.signal_strength) && (forall|j: int|
                            p <= j < before.len() ==> (#[trigger] before[j]).message.signal_strength
                                < d.message.signal_strength);
                    let bv = detection_views(before);
                    assert forall|j: int| 0 <= j < p implies (#[trigger] bv[j]).signal_strength
                        >= d.message@.signal_strength by {
                        assert(bv[j] == before[j].message@);
                    }
                    assert forall|j: int| p <= j < bv.len() implies (#[trigger] bv[j]).signal_strength
                        < d.message@.signal_strength by {
                        assert(bv[j] == before[j].message@);
                    }
                    lemma_insert_keeps_stable_sort(bv, input.take(i as int).filter(pred), p, d.message@);
                    assert(detection_views(found@) =~= bv.insert(p, d.message@));
                    assert forall|k: int| 0 <= k < found@.len() implies (#[trigger] found@[k]).consistent() by {
                        if k < p {
                            assert(found@[k] == before[k]);
                        } else if k > p {
                            assert(found@[k] == before[k - 1]);
                        }
                    }
                }
            }
            i = i + 1;
        }
        proof {
            assert(input.take(i as int) =~= input);
        }
        proof {
            assert forall|k: int| 0 <= k < found@.len() implies (#[trigger] found@[k]).consistent() && (
            found@[k].message.signal_strength > 0 ==> found@[k].distance_estimate
                * found@[k].message.signal_strength <= 100 < (found@[k].distance_estimate + 1)
                * found@[k].message.signal_strength) by {
                lemma_distance_is_quotient(found@[k].message.signal_strength);
            }
        }
        self.detections = found;
        self.detections.as_slice()
    }

    /// The detections of the last scan.
    pub fn detections(&self) -> (r: &[DetectedBeacon])
        ensures
            r@ == self@.detections,
    {
        self.detections.as_slice()
    }

    /// Count detections with at least the given signal strength.
    pub fn count_above(&self, min_signal: SignalStrength) -> (n: usize)
        ensures
            n == self@.detections.filter(at_least(min_signal)).len(),
    {
        let ghost ds = self.detections@;
        let ghost pred = at_least(min_signal);
        let min_rank = min_signal.rank_value();
        let mut n: usize = 0;
        let mut i: usize = 0;
        proof {
            assert(ds.take(0) =~= Seq::<DetectedBeacon>::empty());
            reveal_with_fuel(Seq::filter, 1);
        }
        while i < self.detections.len()
            invariant
                i <= ds.len(),
                ds == self.detections@,
                pred == at_least(min_signal),
                min_rank == min_signal.rank(),
                n == ds.take(i as int).filter(pred).len(),
                n <= i,
            decreases ds.len() - i,
        {
            proof {
                assert(ds.take(i + 1) =~= ds.take(i as int).push(ds[i as int]));
                ds.take(i as int).lemma_filter_push(ds[i as int], pred);
            }
            if self.detections[i].signal_class.rank_value() >= min_rank {
                n = n + 1;
            }
            i = i + 1;
        }
        proof {
            assert(ds.take(i as int) =~= ds);
        }
        n
    }
}

/// Every detection of a scan comes from another agent and lies within the
/// scan range, and every message of another agent within range is detected.
pub proof fn lemma_scan_detects_exactly_in_range(
    out: Seq<MessageView>,
    input: Seq<MessageView>,
    agent: AgentId,
    range: u32,
)
    requires
        stable_sort_desc(out, input.filter(detectable(agent, range))),
    ensures
        forall|i: int|
            0 <= i < out.len() ==> (#[trigger] out[i]).source != agent && out[i].signal_strength
                <= range,
        forall|j: int|
            0 <= j < input.len() && (#[trigger] input[j]).source != agent && input[j].signal_strength
                <= range ==> out.contains(input[j]),
        forall|i: int, j: int|
            0 <= i <= j < out.len() ==> (#[trigger] out[i]).signal_strength >= (#[trigger] out[j]).signal_strength,
{
    let pred = detectable(agent, range);
    let q = input.filter(pred);
    assert forall|i: int| 0 <= i < out.len() implies (#[trigger] out[i]).source != agent
        && out[i].signal_strength <= range by {
        let ws = with_signal(out[i].signal_strength);
        out.lemma_filter_contains(ws, i);
        assert(out.filter(ws) == q.filter(ws));
        q.lemma_filter_contains_rev(ws, out[i]);
        let k = choose|k: int| 0 <= k < q.len() && q[k] == out[i];
        input.lemma_filter_pred(pred, k);
    }
    assert forall|j: int|
        0 <= j < input.len() && (#[trigger] input[j]).source != agent && input[j].signal_strength
            <= range implies out.contains(input[j]) by {
        let ws = with_signal(input[j].signal_strength);
        input.lemma_filter_contains(pred, j);
        let k = choose|k: int| 0 <= k < q.len() && q[k] == input[j];
        q.lemma_filter_contains(ws, k);
        assert(out.filter(ws) == q.filter(ws));
        out.lemma_filter_contains_rev(ws, input[j]);
    }
}

/// The distance estimate is the integer quotient of 100 by the signal
/// strength, and 100 for no signal.
pub proof fn lemma_distance_is_quotient(signal: u32)
    ensures
        signal > 0 ==> distance_of(signal) * signal <= 100 < (distance_of(signal) + 1) * signal,
        signal == 0 ==> distance_of(signal) == 100,
        distance_of(signal) == 100 <==> signal <= 1,
{
    if signal > 0 {
        let d = distance_of(signal);
        assert(d == 100u32 / signal);
        assert(d * signal <= 100 < (d + 1) * signal) by (nonlinear_arith)
            requires
                signal > 0,
                d == 100u32 / signal,
        ;
        if signal >= 2 {
            assert(d < 100) by (nonlinear_arith)
                requires
                    signal >= 2,
                    d * signal <= 100,
            ;
        }
    }
}

/// The threshold of `count_above` counts a detection exactly when its
/// class is at least as strong as the threshold: every class counts itself
/// and every weaker threshold, the strongest threshold counts only the
/// strongest class, and the weakest threshold counts everything.
pub proof fn lemma_at_least_meaning(d: DetectedBeacon, e: DetectedBeacon, min: SignalStrength)
    ensures
        at_least(d.signal_class)(d),
        at_least(SignalStrength::NoSignal)(d),
        at_least(SignalStrength::Excellent)(d) <==> d.signal_class == SignalStrength::Excellent,
        at_least(SignalStrength::Weak)(d) <==> d.signal_class != SignalStrength::NoSignal,
        at_least(min)(d) <==> d.signal_class.rank() >= min.rank(),
        at_least(e.signal_class)(d) || at_least(d.signal_class)(e),
        at_least(e.signal_class)(d) && at_least(d.signal_class)(e) ==> d.signal_class == e.signal_class,
        at_least(e.signal_class)(d) && at_least(min)(e) ==> at_least(min)(d),
{
}

/// Every detection is counted by the threshold of its own class.
pub proof fn lemma_count_own_class(ds: Seq<DetectedBeacon>, i: int)
    requires
        0 <= i < ds.len(),
    ensures
        ds.filter(at_least(ds[i].signal_class)).len() >= 1,
{
    ds.lemma_filter_contains(at_least(ds[i].signal_class), i);
}

/// Two lists sorted by signal, strongest first, that agree on the messages
/// of each signal strength in order are the same list.
proof fn lemma_sorted_by_signal_unique(a: Seq<MessageView>, b: Seq<MessageView>)
    requires
        a.len() == b.len(),
        sorted_by_signal_desc(a),
        sorted_by_signal_desc(b),
        forall|s: u32| #[trigger] a.filter(with_signal(s)) == b.filter(with_signal(s)),
    ensures
        a == b,
    decreases a.len(),
{
    if a.len() == 0 {
        assert(a =~= b);
    } else {
        let x = a[0];
        let y = b[0];
        let ra = a.drop_first();
        let rb = b.drop_first();
        assert(a =~= seq![x] + ra);
        assert(b =~= seq![y] + rb);
        let wx = with_signal(x.signal_strength);
        let wy = with_signal(y.signal_strength);
        a.lemma_filter_contains(wx, 0);
        assert(b.filter(wx) == a.filter(wx));
        b.lemma_filter_contains_rev(wx, x);
        let j = choose|j: int| 0 <= j < b.len() && b[j] == x;
        assert(y.signal_strength >= b[j].signal_strength);
        b.lemma_filter_contains(wy, 0);
        assert(a.filter(wy) == b.filter(wy));
        a.lemma_filter_contains_rev(wy, y);
        let k = choose|k: int| 0 <= k < a.len() && a[k] == y;
        assert(x.signal_strength >= a[k].signal_strength);
        assert(x.signal_strength == y.signal_strength);
        ra.lemma_filter_prepend(x, wx);
        rb.lemma_filter_prepend(y, wx);
        assert(a.filter(wx)[0] == x);
        assert(b.filter(wx)[0] == y);
        assert forall|s: u32| #[trigger] ra.filter(with_signal(s)) == rb.filter(with_signal(s)) by {
            let w = with_signal(s);
            ra.lemma_filter_prepend(x, w);
            rb.lemma_filter_prepend(y, w);
            assert(a.filter(w) == b.filter(w));
            if s == x.signal_strength {
                assert(ra.filter(w) =~= a.filter(w).drop_first());
                assert(rb.filter(w) =~= b.filter(w).drop_first());
            } else {
                assert(ra.filter(w) =~= a.filter(w));
                assert(rb.filter(w) =~= b.filter(w));
            }
        }
        assert(sorted_by_signal_desc(ra)) by {
            assert forall|i: int, j: int| 0 <= i <= j < ra.len() implies ra[i].signal_strength
                >= ra[j].signal_strength by {
                assert(ra[i] == a[i + 1] && ra[j] == a[j + 1]);
            }
        }
        assert(sorted_by_signal_desc(rb)) by {
            assert forall|i: int, j: int| 0 <= i <= j < rb.len() implies rb[i].signal_strength
                >= rb[j].signal_strength by {
                assert(rb[i] == b[i + 1] && rb[j] == b[j + 1]);
            }
        }
        lemma_sorted_by_signal_unique(ra, rb);
    }
}

/// A stable sort by signal is unique: two scans of messages with the same
/// views, by scanners of the same agent and range, report the same
/// messages in the same order, whatever either scanner held before.
pub proof fn lemma_scan_is_deterministic(a: Seq<MessageView>, b: Seq<MessageView>, input: Seq<MessageView>)
    requires
        stable_sort_desc(a, input),
        stable_sort_desc(b, input),
    ensures
        a == b,
{
    lemma_sorted_by_signal_unique(a, b);
}

/// A higher threshold never counts more detections, and the lowest
/// threshold counts all of them.
pub proof fn lemma_count_above_monotone(ds: Seq<DetectedBeacon>, lo: SignalStrength, hi: SignalStrength)
    requires
        lo.rank() <= hi.rank(),
    ensures
        ds.filter(at_least(hi)).len() <= ds.filter(at_least(lo)).len(),
        ds.filter(at_least(SignalStrength::NoSignal)) == ds,
    decreases ds.len(),
{
    reveal_with_fuel(Seq::filter, 1);
    if ds.len() > 0 {
        lemma_count_above_monotone(ds.drop_last(), lo, hi);
        assert(ds.drop_last().push(ds.last()) =~= ds);
    } else {
        assert(ds.filter(at_least(SignalStrength::NoSignal)) =~= ds);
    }
}

} // verus!
