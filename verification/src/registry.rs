//! The registry of known fleet members, with expiry.
use std::collections::HashMap;
use vstd::prelude::*;
use vstd::std_specs::iter::IteratorSpec;
use crate::beacon::{add_cap, lemma_add_cap_keeps_no_duplicates};
use crate::message::{BeaconMessage, MessageView, cap_seq};
use crate::types::AgentId;

verus! {

/// An agent last seen at `last_seen` is still considered active at `now`
/// when no more than `expiry` time has passed (time before `last_seen`
/// counts as none).
pub open spec fn fresh(now: u64, last_seen: u64, expiry: u64) -> bool {
    (if now >= last_seen { now - last_seen } else { 0 }) <= expiry
}

/// The capabilities of `existing` followed by those of `incoming` that are
/// not yet there, each added once, in the order they come.
pub open spec fn merge_caps(existing: Seq<Seq<char>>, incoming: Seq<Seq<char>>) -> Seq<Seq<char>>
    decreases incoming.len(),
{
    if incoming.len() == 0 {
        existing
    } else {
        add_cap(merge_caps(existing, incoming.drop_last()), incoming.last())
    }
}

/// Entry in the registry.
#[derive(Debug, Clone)]
pub struct RegistryEntry {
    pub agent_id: AgentId,
    pub last_seen: u64,
    pub capabilities: Vec<String>,
    pub signal_strength: u32,
}

/// The state of a registry.
pub ghost struct RegistryView {
    pub entries: Map<u64, RegistryEntry>,
    pub expiry_time: u64,
}

/// Maintains a registry of known fleet members.
#[derive(Debug)]
pub struct BeaconRegistry {
    entries: HashMap<u64, RegistryEntry>,
    expiry_time: u64,
}

impl View for BeaconRegistry {
    type V = RegistryView;

    closed spec fn view(&self) -> RegistryView {
        RegistryView { entries: self.entries@, expiry_time: self.expiry_time }
    }
}

/// Every entry is filed under its own agent and holds each capability once.
pub open spec fn entries_well_formed(entries: Map<u64, RegistryEntry>) -> bool {
    forall|k: u64|
        #[trigger] entries.contains_key(k) ==> entries[k].agent_id.0 == k && cap_seq(
            entries[k].capabilities@,
        ).no_duplicates()
}

/// The capabilities a registry holds for `agent`, none if it is unknown.
pub open spec fn known_caps(entries: Map<u64, RegistryEntry>, agent: u64) -> Seq<Seq<char>> {
    if entries.contains_key(agent) {
        cap_seq(entries[agent].capabilities@)
    } else {
        Seq::<Seq<char>>::empty()
    }
}

/// `after` is `before` with the sighting `msg` registered: the sender's
/// entry takes the message's timestamp and signal strength and gains the
/// message's capabilities it lacked; nothing else changes.
pub open spec fn registered(before: RegistryView, after: RegistryView, msg: MessageView) -> bool {
    let id = msg.source.0;
    &&& after.expiry_time == before.expiry_time
    &&& after.entries.remove(id) == before.entries.remove(id)
    &&& after.entries.contains_key(id)
    &&& after.entries[id].agent_id == msg.source
    &&& after.entries[id].last_seen == msg.timestamp
    &&& after.entries[id].signal_strength == msg.signal_strength
    &&& cap_seq(after.entries[id].capabilities@) == merge_caps(
        known_caps(before.entries, id),
        msg.capabilities,
    )
}

impl RegistryView {
    /// The registry knows finitely many agents, each filed under its own
    /// id and holding each capability once.
    pub open spec fn well_formed(self) -> bool {
        &&& self.entries.dom().finite()
        &&& entries_well_formed(self.entries)
    }

    /// The agent is known and still fresh at `now`.
    pub open spec fn active_at(self, agent: u64, now: u64) -> bool {
        self.entries.contains_key(agent) && fresh(now, self.entries[agent].last_seen, self.expiry_time)
    }

    /// The known agents that are no longer fresh at `now`.
    pub open spec fn expired_at(self, now: u64) -> Set<u64> {
        self.entries.dom().filter(|k: u64| !fresh(now, self.entries[k].last_seen, self.expiry_time))
    }

    /// The known agents that are still fresh at `now`.
    pub open spec fn fresh_at(self, now: u64) -> Set<u64> {
        self.entries.dom().filter(|k: u64| fresh(now, self.entries[k].last_seen, self.expiry_time))
    }
}

/// The agents of a list of entries, in order.
pub open spec fn entry_ids(es: Seq<&RegistryEntry>) -> Seq<u64> {
    es.map_values(|e: &RegistryEntry| e.agent_id.0)
}

/// Whether `v` holds a string equal to `s`.
fn contains_string(v: &Vec<String>, s: &String) -> (b: bool)
    ensures
        b == cap_seq(v@).contains(s@),
{
    let mut i: usize = 0;
    while i < v.len()
        invariant
            i <= v@.len(),
            forall|j: int| 0 <= j < i ==> (#[trigger] v@[j])@ != s@,
        decreases v@.len() - i,
    {
        if v[i] == *s {
            assert(cap_seq(v@)[i as int] == s@);
            return true;
        }
        i = i + 1;
    }
    assert forall|j: int| 0 <= j < cap_seq(v@).len() implies cap_seq(v@)[j] != s@ by {
        assert(cap_seq(v@)[j] == v@[j]@);
    }
    false
}

impl BeaconRegistry {
    #[verifier::type_invariant]
    closed spec fn well_formed(self) -> bool {
        entries_well_formed(self.entries@)
    }

    /// An empty registry whose entries expire after `expiry_time`.
    pub fn new(expiry_time: u64) -> (r: Self)
        ensures
            r@.entries == Map::<u64, RegistryEntry>::empty(),
            r@.expiry_time == expiry_time,
            r@.well_formed(),
    {
        Self { entries: HashMap::new(), expiry_time }
    }

    /// Register or update a beacon sighting: the sender's entry takes the
    /// message's timestamp and signal strength, and gains the message's
    /// capabilities it did not have yet.
    pub fn register(&mut self, msg: &BeaconMessage)
        ensures
            registered(old(self)@, final(self)@, msg@),
            final(self)@.well_formed(),
    {
        proof {
            use_type_invariant(&*self);
        }
        let id = msg.source.0;
        let mut entries: HashMap<u64, RegistryEntry> = HashMap::new();
        std::mem::swap(&mut entries, &mut self.entries);
        let ghost before = entries@;
        let mut entry = match entries.remove(&id) {
            Some(e) => e,
            None => RegistryEntry {
                agent_id: msg.source,
                last_seen: 0,
                capabilities: Vec::new(),
                signal_strength: 0,
            },
        };
        let ghost start = cap_seq(entry.capabilities@);
        proof {
            assert(start == if before.contains_key(id) {
                cap_seq(before[id].capabilities@)
            } else {
                Seq::<Seq<char>>::empty()
            }) by {
                if !before.contains_key(id) {
                    assert(start =~= Seq::<Seq<char>>::empty());
                }
            }
            assert(start.no_duplicates());
        }
        let ghost incoming = msg.caps();
        let mut i: usize = 0;
        while i < msg.capabilities.len()
            invariant
                i <= msg.capabilities@.len(),
                incoming == msg.caps(),
                start.no_duplicates(),
                cap_seq(entry.capabilities@) == merge_caps(start, incoming.take(i as int)),
                cap_seq(entry.capabilities@).no_duplicates(),
            decreases msg.capabilities@.len() - i,
        {
            let ghost prev = cap_seq(entry.capabilities@);
            proof {
                assert(incoming.take(i + 1).drop_last() =~= incoming.take(i as int));
                assert(incoming.take(i + 1).last() == msg.capabilities@[i as int]@);
                lemma_add_cap_keeps_no_duplicates(prev, incoming[i as int]);
            }
            if !contains_string(&entry.capabilities, &msg.capabilities[i]) {
                let c = msg.capabilities[i].clone();
                entry.capabilities.push(c);
                proof {
                    assert(cap_seq(entry.capabilities@) =~= prev.push(incoming[i as int]));
                }
            }
            i = i + 1;
        }
        proof {
            assert(incoming.take(i as int) =~= incoming);
        }
        entry.agent_id = msg.source;
        entry.last_seen = msg.timestamp;
        entry.signal_strength = msg.signal_strength;
        entries.insert(id, entry);
        proof {
            assert(entries@.remove(id) =~= before.remove(id));
            assert(entries_well_formed(entries@)) by {
                assert forall|k: u64| #[trigger] entries@.contains_key(k) implies entries@[k].agent_id.0 == k
                    && cap_seq(entries@[k].capabilities@).no_duplicates() by {
                    if k != id {
                        assert(before.contains_key(k));
                    }
                }
            }
        }
        self.entries = entries;
    }

    /// Check if an agent is still considered active.
    pub fn is_active(&self, agent: AgentId, current_time: u64) -> (b: bool)
        ensures
            b == self@.active_at(agent.0, current_time),
            self@.well_formed(),
    {
        proof {
            use_type_invariant(self);
        }
        match self.entries.get(&agent.0) {
            Some(entry) => current_time.saturating_sub(entry.last_seen) <= self.expiry_time,
            None => false,
        }
    }

    /// Get a registry entry.
    pub fn get(&self, agent: AgentId) -> (r: Option<&RegistryEntry>)
        ensures
            match r {
                Some(e) => self@.entries.contains_key(agent.0) && *e == self@.entries[agent.0]
                    && e.agent_id == agent && cap_seq(e.capabilities@).no_duplicates(),
                None => !self@.entries.contains_key(agent.0),
            },
            self@.well_formed(),
    {
        proof {
            use_type_invariant(self);
        }
        self.entries.get(&agent.0)
    }

    /// Remove expired entries; returns how many were removed.
    pub fn prune(&mut self, current_time: u64) -> (removed: usize)
        ensures
            final(self)@.expiry_time == old(self)@.expiry_time,
            final(self)@.entries == old(self)@.entries.restrict(old(self)@.fresh_at(current_time)),
            removed == old(self)@.expired_at(current_time).len(),
            final(self)@.well_formed(),
    {
        proof {
            use_type_invariant(&*self);
        }
        let ghost view = self@;
        let ghost old_map = self.entries@;
        let ghost gone = view.expired_at(current_time);
        let mut expired: Vec<u64> = Vec::new();
        let ghost ks = self.entries.keys().remaining();
        let ghost mut seen: int = 0;
        for k in it: self.entries.keys()
            invariant
                it.seq() == ks,
                seen == it.index(),
                view == self@,
                old_map == self.entries@,
                gone == view.expired_at(current_time),
                it.seq().no_duplicates(),
                expired@.no_duplicates(),
                forall|j: int| 0 <= j < expired@.len() ==> gone.contains(#[trigger] expired@[j]),
                forall|j: int, t: int|
                    0 <= j < expired@.len() && it.index() <= t < it.seq().len() ==> #[trigger] expired@[j]
                        != *#[trigger] it.seq()[t],
                forall|t: int|
                    0 <= t < it.index() && #[trigger] gone.contains(*it.seq()[t]) ==> expired@.contains(
                        *it.seq()[t],
                    ),
        {
            let ghost before = expired@;
            match self.entries.get(k) {
                Some(entry) => {
                    if current_time.saturating_sub(entry.last_seen) > self.expiry_time {
                        expired.push(*k);
                        proof {
                            assert(gone.contains(*k));
                            assert forall|a: int, b: int|
                                0 <= a < expired@.len() && 0 <= b < expired@.len() && a != b implies expired@[a]
                                != expired@[b] by {
                                if a == before.len() {
                                    assert(before[b] != *it.seq()[it.index()]);
                                } else if b == before.len() {
                                    assert(before[a] != *it.seq()[it.index()]);
                                } else {
                                    assert(expired@[a] == before[a] && expired@[b] == before[b]);
                                }
                            }
                        }
                    }
                },
                None => {},
            }
            proof {
                assert forall|j: int, t: int|
                    0 <= j < expired@.len() && it.index() + 1 <= t < it.seq().len() implies #[trigger] expired@[j]
                        != *#[trigger] it.seq()[t] by {
                    if j < before.len() {
                        assert(expired@[j] == before[j]);
                    } else {
                        assert(expired@[j] == *it.seq()[it.index()]);
                        assert(it.seq()[it.index()] != it.seq()[t]);
                    }
                }
                assert forall|t: int|
                    0 <= t < it.index() + 1 && #[trigger] gone.contains(*it.seq()[t]) implies expired@.contains(
                        *it.seq()[t],
                    ) by {
                    if t < it.index() {
                        let j = choose|j: int| 0 <= j < before.len() && before[j] == *it.seq()[t];
                        assert(expired@[j] == before[j]);
                    } else {
                        assert(expired@[expired@.len() - 1] == *it.seq()[t]);
                    }
                }
                seen = seen + 1;
            }
        }
        proof {
            let keys = ks.unref();
            assert(seen == ks.len());
            assert(keys.to_set() == old_map.dom());
            assert forall|x: u64| gone.contains(x) implies expired@.contains(x) by {
                assert(keys.to_set().contains(x));
                let t = choose|t: int| 0 <= t < keys.len() && keys[t] == x;
                assert(*ks[t] == x);
            }
            assert(expired@.to_set() =~= gone);
            expired@.unique_seq_to_set();
        }
        let mut entries: HashMap<u64, RegistryEntry> = HashMap::new();
        std::mem::swap(&mut entries, &mut self.entries);
        let mut j: usize = 0;
        while j < expired.len()
            invariant
                j <= expired@.len(),
                expired@.no_duplicates(),
                forall|x: u64| #[trigger] expired@.contains(x) ==> gone.contains(x),
                entries@ =~= old_map.remove_keys(expired@.take(j as int).to_set()),
            decreases expired@.len() - j,
        {
            let ghost prev = entries@;
            entries.remove(&expired[j]);
            proof {
                let cur = expired@.take(j as int);
                let nxt = expired@.take(j + 1);
                let x0 = expired@[j as int];
                assert(nxt =~= cur.push(x0));
                assert forall|x: u64| nxt.contains(x) <==> (cur.contains(x) || x == x0) by {
                    if nxt.contains(x) {
                        let t = choose|t: int| 0 <= t < nxt.len() && nxt[t] == x;
                        if t < cur.len() {
                            assert(cur[t] == x);
                        }
                    }
                    if cur.contains(x) {
                        let t = choose|t: int| 0 <= t < cur.len() && cur[t] == x;
                        assert(nxt[t] == x);
                    }
                    if x == x0 {
                        assert(nxt[cur.len() as int] == x);
                    }
                }
                assert(nxt.to_set() =~= cur.to_set().insert(x0));
            }
            j = j + 1;
        }
        proof {
            assert(expired@.take(j as int) =~= expired@);
            assert(entries@ =~= old_map.restrict(view.fresh_at(current_time)));
            assert(entries_well_formed(entries@)) by {
                assert forall|k: u64| #[trigger] entries@.contains_key(k) implies entries@[k].agent_id.0 == k
                    && cap_seq(entries@[k].capabilities@).no_duplicates() by {
                    assert(old_map.contains_key(k));
                }
            }
        }
        self.entries = entries;
        expired.len()
    }

    /// All active entries at the given time, each once, in no particular
    /// order.
    pub fn active_entries(&self, current_time: u64) -> (r: Vec<&RegistryEntry>)
        ensures
            entry_ids(r@).no_duplicates(),
            entry_ids(r@).to_set() == self@.fresh_at(current_time),
            forall|i: int|
                0 <= i < r@.len() ==> self@.entries.contains_key(#[trigger] entry_ids(r@)[i])
                    && *r@[i] == self@.entries[entry_ids(r@)[i]],
            r@.len() == self@.fresh_at(current_time).len(),
            self@.well_formed(),
    {
        proof {
            use_type_invariant(self);
        }
        let ghost view = self@;
        let ghost m = self.entries@;
        let ghost live = view.fresh_at(current_time);
        let ghost ps = self.entries.iter().remaining();
        let ghost mut seen: int = 0;
        let mut out: Vec<&RegistryEntry> = Vec::new();
        for pair in it: self.entries.iter()
            invariant
                it.seq() == ps,
                seen == it.index(),
                view == self@,
                m == self.entries@,
                live == view.fresh_at(current_time),
                entries_well_formed(m),
                ps.no_duplicates(),
                forall|t: int|
                    0 <= t < ps.len() ==> m.contains_key(*(#[trigger] ps[t]).0) && m[*ps[t].0] == *ps[t].1,
                entry_ids(out@).no_duplicates(),
                forall|i: int|
                    0 <= i < out@.len() ==> m.contains_key(#[trigger] entry_ids(out@)[i]) && *out@[i]
                        == m[entry_ids(out@)[i]] && live.contains(entry_ids(out@)[i]),
                forall|i: int, t: int|
                    0 <= i < out@.len() && it.index() <= t < ps.len() ==> #[trigger] entry_ids(out@)[i]
                        != *(#[trigger] ps[t]).0,
                forall|t: int|
                    0 <= t < it.index() && #[trigger] live.contains(*ps[t].0) ==> entry_ids(out@).contains(
                        *ps[t].0,
                    ),
        {
            let (k, e) = pair;
            let ghost before = out@;
            let ghost idx = it.index();
            proof {
                assert(ps[idx] == pair);
                assert(e.agent_id.0 == *k);
            }
            if current_time.saturating_sub(e.last_seen) <= self.expiry_time {
                out.push(e);
                proof {
                    assert(entry_ids(out@) =~= entry_ids(before).push(*k));
                    assert(live.contains(*k));
                    assert forall|a: int, b: int|
                        0 <= a < entry_ids(out@).len() && 0 <= b < entry_ids(out@).len() && a != b implies
                        entry_ids(out@)[a] != entry_ids(out@)[b] by {
                        if a == before.len() {
                            assert(entry_ids(before)[b] != *ps[idx].0);
                        } else if b == before.len() {
                            assert(entry_ids(before)[a] != *ps[idx].0);
                        } else {
                            assert(entry_ids(out@)[a] == entry_ids(before)[a]);
                            assert(entry_ids(out@)[b] == entry_ids(before)[b]);
                        }
                    }
                    assert forall|i: int|
                        0 <= i < out@.len() implies m.contains_key(#[trigger] entry_ids(out@)[i])
                            && *out@[i] == m[entry_ids(out@)[i]] && live.contains(entry_ids(out@)[i]) by {
                        if i < before.len() {
                            assert(entry_ids(out@)[i] == entry_ids(before)[i]);
                            assert(out@[i] == before[i]);
                        }
                    }
                }
            }
            proof {
                assert forall|i: int, t: int|
                    0 <= i < out@.len() && idx + 1 <= t < ps.len() implies #[trigger] entry_ids(out@)[i]
                        != *(#[trigger] ps[t]).0 by {
                    if i < before.len() {
                        assert(entry_ids(out@)[i] == entry_ids(before)[i]);
                    } else {
                        assert(entry_ids(out@)[i] == *ps[idx].0);
                        if *ps[idx].0 == *ps[t].0 {
                            assert(ps[idx] == ps[t]);
                        }
                    }
                }
                assert forall|t: int|
                    0 <= t < idx + 1 && #[trigger] live.contains(*ps[t].0) implies entry_ids(out@).contains(
                        *ps[t].0,
                    ) by {
                    if t < idx {
                        let j = choose|j: int| 0 <= j < entry_ids(before).len() && entry_ids(before)[j] == *ps[t].0;
                        assert(entry_ids(out@)[j] == entry_ids(before)[j]);
                    } else {
                        assert(entry_ids(out@)[entry_ids(out@).len() - 1] == *ps[t].0);
                    }
                }
                seen = seen + 1;
            }
        }
        proof {
            assert(seen == ps.len());
            assert forall|x: u64| live.contains(x) implies entry_ids(out@).contains(x) by {
                assert(m.contains_key(x));
                assert(ps.contains((&x, &m[x])));
                let t = choose|t: int| 0 <= t < ps.len() && ps[t] == (&x, &m[x]);
                assert(live.contains(*ps[t].0));
            }
            assert(entry_ids(out@).to_set() =~= live);
            entry_ids(out@).unique_seq_to_set();
        }
        out
    }

    pub fn entry_count(&self) -> (n: usize)
        ensures
            n == self@.entries.len(),
            self@.well_formed(),
    {
        proof {
            use_type_invariant(self);
        }
        self.entries.len()
    }
}

/// Registering merges capabilities: the entry keeps its earlier
/// capabilities first and in order, gains exactly those of the message it
/// lacked, and never holds one twice.
pub proof fn lemma_merge_caps(existing: Seq<Seq<char>>, incoming: Seq<Seq<char>>)
    ensures
        existing.no_duplicates() ==> merge_caps(existing, incoming).no_duplicates(),
        forall|c: Seq<char>|
            #[trigger] merge_caps(existing, incoming).contains(c) <==> existing.contains(c)
                || incoming.contains(c),
        existing.len() <= merge_caps(existing, incoming).len(),
        merge_caps(existing, incoming).take(existing.len() as int) == existing,
    decreases incoming.len(),
{
    if incoming.len() > 0 {
        let rest = incoming.drop_last();
        let x = incoming.last();
        let prev = merge_caps(existing, rest);
        lemma_merge_caps(existing, rest);
        if existing.no_duplicates() {
            lemma_add_cap_keeps_no_duplicates(prev, x);
        }
        assert forall|c: Seq<char>| #[trigger] merge_caps(existing, incoming).contains(c) <==> existing.contains(c)
            || incoming.contains(c) by {
            assert(incoming =~= rest.push(x));
            if rest.contains(c) {
                let i = choose|i: int| 0 <= i < rest.len() && rest[i] == c;
                assert(incoming[i] == c);
            }
            if incoming.contains(c) {
                let i = choose|i: int| 0 <= i < incoming.len() && incoming[i] == c;
                if i < rest.len() {
                    assert(rest[i] == c);
                }
            }
            if !prev.contains(x) {
                assert(prev.push(x)[prev.len() as int] == x);
                if prev.push(x).contains(c) {
                    let i = choose|i: int| 0 <= i < prev.push(x).len() && prev.push(x)[i] == c;
                    if i < prev.len() {
                        assert(prev[i] == c);
                    }
                }
                if prev.contains(c) {
                    let i = choose|i: int| 0 <= i < prev.len() && prev[i] == c;
                    assert(prev.push(x)[i] == c);
                }
            }
        }
        if !prev.contains(x) {
            assert(prev.push(x).take(existing.len() as int) =~= prev.take(existing.len() as int));
        }
    } else {
        assert(existing.take(existing.len() as int) =~= existing);
    }
}

/// After a sighting is registered, its sender is known and active at the
/// sighting's time, its entry holds every capability it held before and
/// every capability of the message, and every other agent is untouched.
pub proof fn lemma_register_then_lookup(before: RegistryView, after: RegistryView, msg: MessageView)
    requires
        registered(before, after, msg),
    ensures
        after.active_at(msg.source.0, msg.timestamp),
        after.entries[msg.source.0].last_seen == msg.timestamp,
        forall|c: Seq<char>|
            #[trigger] cap_seq(after.entries[msg.source.0].capabilities@).contains(c) <==> (
            known_caps(before.entries, msg.source.0).contains(c) || msg.capabilities.contains(c)),
        forall|k: u64|
            k != msg.source.0 ==> (#[trigger] after.entries.contains_key(k) <==> before.entries.contains_key(k))
                && (after.entries.contains_key(k) ==> after.entries[k] == before.entries[k]),
        forall|k: u64|
            k != msg.source.0 ==> #[trigger] after.active_at(k, msg.timestamp) == before.active_at(k, msg.timestamp),
{
    lemma_merge_caps(known_caps(before.entries, msg.source.0), msg.capabilities);
    assert forall|k: u64| k != msg.source.0 implies (#[trigger] after.entries.contains_key(k)
        <==> before.entries.contains_key(k)) && (after.entries.contains_key(k) ==> after.entries[k]
        == before.entries[k]) by {
        assert(after.entries.remove(msg.source.0).contains_key(k) == after.entries.contains_key(k));
        assert(before.entries.remove(msg.source.0).contains_key(k) == before.entries.contains_key(k));
        if after.entries.contains_key(k) {
            assert(after.entries.remove(msg.source.0)[k] == after.entries[k]);
            assert(before.entries.remove(msg.source.0)[k] == before.entries[k]);
        }
    }
    assert forall|k: u64| k != msg.source.0 implies #[trigger] after.active_at(k, msg.timestamp)
        == before.active_at(k, msg.timestamp) by {
        assert(after.entries.remove(msg.source.0).contains_key(k) == after.entries.contains_key(k));
        assert(before.entries.remove(msg.source.0).contains_key(k) == before.entries.contains_key(k));
        if after.entries.contains_key(k) {
            assert(after.entries.remove(msg.source.0)[k] == after.entries[k]);
            assert(before.entries.remove(msg.source.0)[k] == before.entries[k]);
        }
    }
}

/// An agent is fresh exactly until the expiry time has passed since it
/// was last seen, the bound included; any time before the last sighting
/// counts as fresh.
pub proof fn lemma_fresh_meaning(now: u64, last_seen: u64, expiry: u64)
    ensures
        fresh(now, last_seen, expiry) <==> now <= last_seen + expiry,
        now <= last_seen ==> fresh(now, last_seen, expiry),
{
}

/// Registering sightings one list after another merges as if the lists
/// were registered at once.
pub proof fn lemma_merge_caps_concat(existing: Seq<Seq<char>>, a: Seq<Seq<char>>, b: Seq<Seq<char>>)
    ensures
        merge_caps(existing, a + b) == merge_caps(merge_caps(existing, a), b),
    decreases b.len(),
{
    if b.len() == 0 {
        assert(a + b =~= a);
    } else {
        assert((a + b).drop_last() =~= a + b.drop_last());
        assert((a + b).last() == b.last());
        lemma_merge_caps_concat(existing, a, b.drop_last());
    }
}

/// Registering a sighting adds an entry exactly when its sender was
/// unknown.
pub proof fn lemma_register_count(before: RegistryView, after: RegistryView, msg: MessageView)
    requires
        before.well_formed(),
        registered(before, after, msg),
    ensures
        after.entries.len() == before.entries.len() + (if before.entries.contains_key(msg.source.0) {
            0int
        } else {
            1int
        }),
{
    let id = msg.source.0;
    lemma_register_then_lookup(before, after, msg);
    assert(after.entries.dom() =~= before.entries.dom().insert(id));
}

/// Merging capabilities that are all present already changes nothing.
proof fn lemma_merge_caps_absorbs(existing: Seq<Seq<char>>, incoming: Seq<Seq<char>>)
    requires
        forall|i: int| 0 <= i < incoming.len() ==> existing.contains(#[trigger] incoming[i]),
    ensures
        merge_caps(existing, incoming) == existing,
    decreases incoming.len(),
{
    if incoming.len() > 0 {
        let rest = incoming.drop_last();
        assert forall|i: int| 0 <= i < rest.len() implies existing.contains(#[trigger] rest[i]) by {
            assert(rest[i] == incoming[i]);
        }
        lemma_merge_caps_absorbs(existing, rest);
        assert(existing.contains(incoming[incoming.len() - 1]));
    }
}

/// Registering the same sighting twice leaves the registry as registering
/// it once.
pub proof fn lemma_register_idempotent(
    r0: RegistryView,
    r1: RegistryView,
    r2: RegistryView,
    msg: MessageView,
)
    requires
        registered(r0, r1, msg),
        registered(r1, r2, msg),
    ensures
        r2.expiry_time == r1.expiry_time,
        r2.entries.dom() == r1.entries.dom(),
        forall|k: u64| #[trigger] r2.entries.contains_key(k) && k != msg.source.0 ==> r2.entries[k] == r1.entries[k],
        r2.entries[msg.source.0].agent_id == r1.entries[msg.source.0].agent_id,
        r2.entries[msg.source.0].last_seen == r1.entries[msg.source.0].last_seen,
        r2.entries[msg.source.0].signal_strength == r1.entries[msg.source.0].signal_strength,
        cap_seq(r2.entries[msg.source.0].capabilities@) == cap_seq(r1.entries[msg.source.0].capabilities@),
{
    let id = msg.source.0;
    lemma_register_then_lookup(r0, r1, msg);
    lemma_register_then_lookup(r1, r2, msg);
    let c1 = cap_seq(r1.entries[id].capabilities@);
    assert forall|i: int| 0 <= i < msg.capabilities.len() implies c1.contains(#[trigger] msg.capabilities[i]) by {
        assert(msg.capabilities.contains(msg.capabilities[i]));
    }
    lemma_merge_caps_absorbs(c1, msg.capabilities);
    assert(known_caps(r1.entries, id) == c1);
    assert(r2.entries.dom() =~= r1.entries.dom());
}

/// Every known agent is either still fresh or expired at `now`, never
/// both, so the active entries and the entries a prune removes add up to
/// all entries.
pub proof fn lemma_active_and_expired_partition(v: RegistryView, now: u64)
    requires
        v.entries.dom().finite(),
    ensures
        v.fresh_at(now).disjoint(v.expired_at(now)),
        v.fresh_at(now).len() + v.expired_at(now).len() == v.entries.len(),
{
    let f = v.fresh_at(now);
    let x = v.expired_at(now);
    assert(f + x =~= v.entries.dom());
    vstd::set_lib::lemma_set_disjoint_lens(f, x);
}

/// After pruning at `now`, exactly the agents active at `now` remain, with
/// their entries unchanged; all of them are active, so pruning again at
/// `now` removes nothing; and the removed and remaining entries together
/// are all the entries there were.
pub proof fn lemma_prune_keeps_exactly_active(before: RegistryView, after: RegistryView, now: u64)
    requires
        before.entries.dom().finite(),
        after.expiry_time == before.expiry_time,
        after.entries == before.entries.restrict(before.fresh_at(now)),
    ensures
        forall|k: u64| #[trigger] after.entries.contains_key(k) <==> before.active_at(k, now),
        forall|k: u64| #[trigger] after.entries.contains_key(k) ==> after.entries[k] == before.entries[k],
        after.expired_at(now) == Set::<u64>::empty(),
        after.fresh_at(now) == after.entries.dom(),
        after.entries.len() + before.expired_at(now).len() == before.entries.len(),
{
    assert(after.expired_at(now) =~= Set::<u64>::empty());
    assert(after.fresh_at(now) =~= after.entries.dom());
    let f = before.fresh_at(now);
    let x = before.expired_at(now);
    assert(after.entries.dom() =~= f);
    assert(f + x =~= before.entries.dom());
    vstd::set_lib::lemma_set_disjoint_lens(f, x);
}

impl Clone for BeaconRegistry {
    fn clone(&self) -> (r: Self)
        ensures
            r@ == self@,
            r@.well_formed(),
    {
        proof {
            use_type_invariant(self);
        }
        BeaconRegistry { entries: self.entries.clone(), expiry_time: self.expiry_time }
    }
}

} // verus!
