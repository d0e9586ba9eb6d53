//! A beacon broadcasts an agent's presence to the fleet.
use vstd::prelude::*;
use crate::message::{BeaconMessage, MessageView, cap_seq};
use crate::metadata::Metadata;
use crate::types::AgentId;

verus! {

/// `caps` with `cap` appended unless it is already there.
pub open spec fn add_cap(caps: Seq<Seq<char>>, cap: Seq<char>) -> Seq<Seq<char>> {
    if caps.contains(cap) {
        caps
    } else {
        caps.push(cap)
    }
}

/// `caps` with every occurrence of `cap` left out, the rest in order.
pub open spec fn remove_cap(caps: Seq<Seq<char>>, cap: Seq<char>) -> Seq<Seq<char>> {
    caps.filter(differs_from(cap))
}

/// Holds of every capability other than `cap`.
pub open spec fn differs_from(cap: Seq<char>) -> spec_fn(Seq<char>) -> bool {
    |c: Seq<char>| c != cap
}

/// The state of a beacon.
pub ghost struct BeaconView {
    pub agent_id: AgentId,
    pub active: bool,
    pub broadcast_range: u32,
    pub message: MessageView,
    pub broadcast_count: u64,
}

impl BeaconView {
    /// The message speaks for the beacon's own agent and advertises each
    /// capability once.
    pub open spec fn well_formed(self) -> bool {
        &&& self.message.source == self.agent_id
        &&& self.message.capabilities.no_duplicates()
    }
}

/// A beacon broadcasts an agent's presence to the fleet.
#[derive(Debug)]
pub struct Beacon {
    agent_id: AgentId,
    active: bool,
    broadcast_range: u32,
    message: BeaconMessage,
    broadcast_count: u64,
}

impl View for Beacon {
    type V = BeaconView;

    closed spec fn view(&self) -> BeaconView {
        BeaconView {
            agent_id: self.agent_id,
            active: self.active,
            broadcast_range: self.broadcast_range,
            message: self.message@,
            broadcast_count: self.broadcast_count,
        }
    }
}

impl Beacon {
    #[verifier::type_invariant]
    closed spec fn inv(self) -> bool {
        self@.well_formed()
    }

    /// An active beacon that has not broadcast yet; its message carries the
    /// agent, the broadcast range as signal strength and the timestamp.
    pub fn new(agent_id: AgentId, broadcast_range: u32, timestamp: u64) -> (b: Self)
        ensures
            b@ == (BeaconView {
                agent_id,
                active: true,
                broadcast_range,
                message: MessageView {
                    source: agent_id,
                    signal_strength: broadcast_range,
                    capabilities: Seq::<Seq<char>>::empty(),
                    metadata: Map::<Seq<char>, Seq<char>>::empty(),
                    timestamp,
                },
                broadcast_count: 0,
            }),
            b@.well_formed(),
    {
        let message = BeaconMessage::new(agent_id, broadcast_range, timestamp);
        proof {
            assert(message@.capabilities =~= Seq::<Seq<char>>::empty());
        }
        Self { agent_id, active: true, broadcast_range, message, broadcast_count: 0 }
    }

    pub fn agent_id(&self) -> (id: AgentId)
        ensures
            id == self@.agent_id,
    {
        self.agent_id
    }

    pub fn is_active(&self) -> (b: bool)
        ensures
            b == self@.active,
    {
        self.active
    }

    pub fn broadcast_range(&self) -> (r: u32)
        ensures
            r == self@.broadcast_range,
    {
        self.broadcast_range
    }

    pub fn broadcast_count(&self) -> (c: u64)
        ensures
            c == self@.broadcast_count,
    {
        self.broadcast_count
    }

    /// The message this beacon broadcasts; it speaks for the beacon's agent
    /// and advertises each capability once.
    pub fn message(&self) -> (m: &BeaconMessage)
        ensures
            m@ == self@.message,
            self@.well_formed(),
    {
        proof {
            use_type_invariant(self);
        }
        &self.message
    }

    /// Broadcast presence, active or not: stamp the message with
    /// `timestamp` and the current range, count the broadcast, and return
    /// the message.
    pub fn broadcast(&mut self, timestamp: u64) -> (m: &BeaconMessage)
        requires
            old(self)@.broadcast_count < u64::MAX,
        ensures
            final(self)@ == (BeaconView {
                message: MessageView {
                    timestamp,
                    signal_strength: old(self)@.broadcast_range,
                    ..old(self)@.message
                },
                broadcast_count: (old(self)@.broadcast_count + 1) as u64,
                ..old(self)@
            }),
            final(self)@.well_formed(),
            m@ == final(self)@.message,
            m.source == final(self)@.agent_id,
    {
        proof {
            use_type_invariant(&*self);
        }
        self.message.timestamp = timestamp;
        self.message.signal_strength = self.broadcast_range;
        self.broadcast_count = self.broadcast_count + 1;
        &self.message
    }

    /// Activate the beacon.
    pub fn activate(&mut self)
        ensures
            final(self)@ == (BeaconView { active: true, ..old(self)@ }),
            final(self)@.well_formed(),
    {
        proof {
            use_type_invariant(&*self);
        }
        self.active = true;
    }

    /// Deactivate the beacon (go silent).
    pub fn deactivate(&mut self)
        ensures
            final(self)@ == (BeaconView { active: false, ..old(self)@ }),
            final(self)@.well_formed(),
    {
        proof {
            use_type_invariant(&*self);
        }
        self.active = false;
    }

    /// Add a capability to broadcast, unless it is already advertised.
    pub fn add_capability(&mut self, cap: &str)
        ensures
            final(self)@ == (BeaconView {
                message: MessageView {
                    capabilities: add_cap(old(self)@.message.capabilities, cap@),
                    ..old(self)@.message
                },
                ..old(self)@
            }),
            final(self)@.well_formed(),
    {
        proof {
            use_type_invariant(&*self);
        }
        if !self.message.has_capability(cap) {
            let mut caps: Vec<String> = Vec::new();
            std::mem::swap(&mut caps, &mut self.message.capabilities);
            let ghost before = cap_seq(caps@);
            caps.push(cap.to_string());
            proof {
                assert(cap_seq(caps@) =~= before.push(cap@));
                lemma_add_cap_keeps_no_duplicates(before, cap@);
            }
            self.message.capabilities = caps;
        }
    }

    /// Remove every occurrence of a capability.
    pub fn remove_capability(&mut self, cap: &str)
        ensures
            final(self)@ == (BeaconView {
                message: MessageView {
                    capabilities: remove_cap(old(self)@.message.capabilities, cap@),
                    ..old(self)@.message
                },
                ..old(self)@
            }),
            final(self)@.well_formed(),
    {
        proof {
            use_type_invariant(&*self);
        }
        let ghost caps = self.message.caps();
        let ghost pred = differs_from(cap@);
        let unwanted = cap.to_string();
        let mut kept: Vec<String> = Vec::new();
        let mut i: usize = 0;
        while i < self.message.capabilities.len()
            invariant
                i <= self.message.capabilities@.len(),
                caps == self.message.caps(),
                unwanted@ == cap@,
                pred == differs_from(cap@),
                cap_seq(kept@) == caps.take(i as int).filter(pred),
            decreases self.message.capabilities@.len() - i,
        {
            let ghost prev = kept@;
            proof {
                assert(caps.take(i + 1) =~= caps.take(i as int).push(caps[i as int]));
                caps.take(i as int).lemma_filter_push(caps[i as int], pred);
                assert(caps[i as int] == self.message.capabilities@[i as int]@);
            }
            if !(self.message.capabilities[i] == unwanted) {
                let c = self.message.capabilities[i].clone();
                kept.push(c);
                proof {
                    assert(cap_seq(kept@) =~= cap_seq(prev).push(caps[i as int]));
                }
            }
            i = i + 1;
        }
        proof {
            assert(caps.take(i as int) =~= caps);
            lemma_filter_keeps_no_duplicates(caps, pred);
        }
        self.message.capabilities = kept;
    }

    /// Set a metadata entry.
    pub fn set_metadata(&mut self, key: &str, value: &str)
        ensures
            final(self)@ == (BeaconView {
                message: MessageView {
                    metadata: old(self)@.message.metadata.insert(key@, value@),
                    ..old(self)@.message
                },
                ..old(self)@
            }),
            final(self)@.well_formed(),
    {
        proof {
            use_type_invariant(&*self);
        }
        let mut metadata = Metadata::new();
        std::mem::swap(&mut metadata, &mut self.message.metadata);
        metadata.insert(key.to_string(), value.to_string());
        self.message.metadata = metadata;
    }
}

impl Clone for Beacon {
    fn clone(&self) -> (b: Self)
        ensures
            b@ == self@,
    {
        proof {
            use_type_invariant(self);
        }
        Beacon {
            agent_id: self.agent_id,
            active: self.active,
            broadcast_range: self.broadcast_range,
            message: self.message.clone(),
            broadcast_count: self.broadcast_count,
        }
    }
}

/// Filtering keeps a list free of duplicates.
proof fn lemma_filter_keeps_no_duplicates<A>(s: Seq<A>, pred: spec_fn(A) -> bool)
    requires
        s.no_duplicates(),
    ensures
        s.filter(pred).no_duplicates(),
    decreases s.len(),
{
    reveal_with_fuel(Seq::filter, 1);
    if s.len() > 0 {
        let rest = s.drop_last();
        assert(rest.no_duplicates()) by {
            assert forall|i: int, j: int| 0 <= i < rest.len() && 0 <= j < rest.len() && i != j implies rest[i]
                != rest[j] by {
                assert(rest[i] == s[i] && rest[j] == s[j]);
            }
        }
        lemma_filter_keeps_no_duplicates(rest, pred);
        let f = rest.filter(pred);
        if pred(s.last()) {
            if f.contains(s.last()) {
                rest.lemma_filter_contains_rev(pred, s.last());
                let k = choose|k: int| 0 <= k < rest.len() && rest[k] == s.last();
                assert(s[k] == s[s.len() - 1]);
            }
            let g = f.push(s.last());
            assert forall|i: int, j: int| 0 <= i < g.len() && 0 <= j < g.len() && i != j implies g[i] != g[j] by {
                if i == f.len() {
                    assert(g[j] == f[j]);
                } else if j == f.len() {
                    assert(g[i] == f[i]);
                } else {
                    assert(g[i] == f[i] && g[j] == f[j]);
                }
            }
        }
    }
}

/// Adding a capability makes it advertised, and adding it again changes
/// nothing.
pub proof fn lemma_add_cap_idempotent(caps: Seq<Seq<char>>, cap: Seq<char>)
    ensures
        add_cap(caps, cap).contains(cap),
        add_cap(add_cap(caps, cap), cap) == add_cap(caps, cap),
{
    if !caps.contains(cap) {
        assert(caps.push(cap)[caps.len() as int] == cap);
    }
}

/// A beacon that never advertised a capability twice still does not after
/// `add_capability`.
pub proof fn lemma_add_cap_keeps_no_duplicates(caps: Seq<Seq<char>>, cap: Seq<char>)
    requires
        caps.no_duplicates(),
    ensures
        add_cap(caps, cap).no_duplicates(),
{
    if !caps.contains(cap) {
        let r = caps.push(cap);
        assert forall|i: int, j: int| 0 <= i < r.len() && 0 <= j < r.len() && i != j implies r[i] != r[j] by {
            if i == caps.len() {
                assert(caps[j] == r[j]);
            } else if j == caps.len() {
                assert(caps[i] == r[i]);
            }
        }
    }
}

/// After `remove_capability` the capability is no longer advertised, and
/// every other capability is advertised exactly when it was before.
pub proof fn lemma_remove_cap_removes(caps: Seq<Seq<char>>, cap: Seq<char>, other: Seq<char>)
    requires
        other != cap,
    ensures
        !remove_cap(caps, cap).contains(cap),
        remove_cap(caps, cap).contains(other) == caps.contains(other),
{
    let pred = differs_from(cap);
    let r = caps.filter(pred);
    if r.contains(cap) {
        let i = choose|i: int| 0 <= i < r.len() && r[i] == cap;
        caps.lemma_filter_pred(pred, i);
    }
    if caps.contains(other) {
        let i = choose|i: int| 0 <= i < caps.len() && caps[i] == other;
        caps.lemma_filter_contains(pred, i);
    }
    if r.contains(other) {
        caps.lemma_filter_contains_rev(pred, other);
    }
}

/// Removing a capability from a list made of two parts removes it from
/// each part and keeps the parts, and everything within them, in order; a
/// single capability is dropped exactly when it is the one removed.
pub proof fn lemma_remove_cap_keeps_order(a: Seq<Seq<char>>, b: Seq<Seq<char>>, cap: Seq<char>, x: Seq<char>)
    ensures
        remove_cap(a + b, cap) == remove_cap(a, cap) + remove_cap(b, cap),
        remove_cap(seq![x], cap) == (if x == cap {
            Seq::<Seq<char>>::empty()
        } else {
            seq![x]
        }),
        remove_cap(Seq::<Seq<char>>::empty(), cap) == Seq::<Seq<char>>::empty(),
{
    Seq::filter_distributes_over_add(a, b, differs_from(cap));
    reveal_with_fuel(Seq::filter, 2);
    assert(seq![x].drop_last() =~= Seq::<Seq<char>>::empty());
    assert(Seq::<Seq<char>>::empty().filter(differs_from(cap)) =~= Seq::<Seq<char>>::empty());
    if x != cap {
        assert(Seq::<Seq<char>>::empty().push(x) =~= seq![x]);
    }
}

/// Adding a capability leaves the capabilities already there in their
/// places and adds at most one, at the end.
pub proof fn lemma_add_cap_appends(caps: Seq<Seq<char>>, cap: Seq<char>)
    ensures
        add_cap(caps, cap).take(caps.len() as int) == caps,
        caps.len() <= add_cap(caps, cap).len() <= caps.len() + 1,
        add_cap(caps, cap).len() == caps.len() + 1 ==> add_cap(caps, cap).last() == cap,
        add_cap(caps, cap).len() == caps.len() <==> exists|i: int| 0 <= i < caps.len() && #[trigger] caps[i] == cap,
{
    assert(caps.take(caps.len() as int) =~= caps);
    assert(caps.push(cap).take(caps.len() as int) =~= caps);
}

} // verus!
