//! The beacon message that agents broadcast.
use vstd::prelude::*;
use crate::metadata::Metadata;
use crate::types::AgentId;

verus! {

/// The capabilities of a list of strings, as character sequences.
pub open spec fn cap_seq(v: Seq<String>) -> Seq<Seq<char>> {
    v.map_values(|s: String| s@)
}

/// What a beacon message says: its fields, with strings as character
/// sequences and the metadata as a map.
pub ghost struct MessageView {
    pub source: AgentId,
    pub signal_strength: u32,
    pub capabilities: Seq<Seq<char>>,
    pub metadata: Map<Seq<char>, Seq<char>>,
    pub timestamp: u64,
}

/// The views of a list of messages, in order.
pub open spec fn message_views(ms: Seq<BeaconMessage>) -> Seq<MessageView> {
    ms.map_values(|m: BeaconMessage| m@)
}

/// A standard beacon message format.
#[derive(Debug)]
pub struct BeaconMessage {
    pub source: AgentId,
    pub signal_strength: u32,
    pub capabilities: Vec<String>,
    pub metadata: Metadata,
    pub timestamp: u64,
}

impl View for BeaconMessage {
    type V = MessageView;

    open spec fn view(&self) -> MessageView {
        MessageView {
            source: self.source,
            signal_strength: self.signal_strength,
            capabilities: self.caps(),
            metadata: self.metadata@,
            timestamp: self.timestamp,
        }
    }
}

impl BeaconMessage {
    /// The advertised capabilities, in order, duplicates included.
    pub open spec fn caps(self) -> Seq<Seq<char>> {
        cap_seq(self.capabilities@)
    }

    /// A message with no capabilities and no metadata.
    pub fn new(source: AgentId, signal_strength: u32, timestamp: u64) -> (m: Self)
        ensures
            m.source == source,
            m.signal_strength == signal_strength,
            m.timestamp == timestamp,
            m.caps() == Seq::<Seq<char>>::empty(),
            m.metadata@ == Map::<Seq<char>, Seq<char>>::empty(),
    {
        Self {
            source,
            signal_strength,
            capabilities: Vec::new(),
            metadata: Metadata::new(),
            timestamp,
        }
    }

    /// The message with `cap` appended to its capabilities.
    pub fn with_capability(self, cap: &str) -> (m: Self)
        ensures
            m.source == self.source,
            m.signal_strength == self.signal_strength,
            m.timestamp == self.timestamp,
            m.metadata@ == self.metadata@,
            m.caps() == self.caps().push(cap@),
    {
        let mut m = self;
        m.capabilities.push(cap.to_string());
        proof {
            assert(m.caps() =~= self.caps().push(cap@));
        }
        m
    }

    /// The message with `value` stored under `key` in its metadata.
    pub fn with_metadata(self, key: &str, value: &str) -> (m: Self)
        ensures
            m.source == self.source,
            m.signal_strength == self.signal_strength,
            m.timestamp == self.timestamp,
            m.caps() == self.caps(),
            m.metadata@ == self.metadata@.insert(key@, value@),
    {
        let mut m = self;
        m.metadata.insert(key.to_string(), value.to_string());
        m
    }

    /// Whether the message advertises `cap`.
    pub fn has_capability(&self, cap: &str) -> (b: bool)
        ensures
            b == self.caps().contains(cap@),
    {
        let wanted = cap.to_string();
        let mut i: usize = 0;
        while i < self.capabilities.len()
            invariant
                i <= self.capabilities@.len(),
                wanted@ == cap@,
                forall|j: int| 0 <= j < i ==> (#[trigger] self.capabilities@[j])@ != cap@,
            decreases self.capabilities@.len() - i,
        {
            if self.capabilities[i] == wanted {
                proof {
                    assert(self.caps()[i as int] == cap@);
                }
                return true;
            }
            i = i + 1;
        }
        proof {
            assert forall|j: int| 0 <= j < self.caps().len() implies self.caps()[j] != cap@ by {
                assert(self.caps()[j] == self.capabilities@[j]@);
            }
        }
        false
    }
}

impl Clone for BeaconMessage {
    fn clone(&self) -> (m: Self)
        ensures
            m@ == self@,
    {
        let capabilities = self.capabilities.clone();
        proof {
            assert(capabilities@ =~= self.capabilities@);
        }
        BeaconMessage {
            source: self.source,
            signal_strength: self.signal_strength,
            capabilities,
            metadata: self.metadata.clone(),
            timestamp: self.timestamp,
        }
    }
}

/// A capability added to a message is then advertised by it.
pub proof fn lemma_added_capability_is_advertised(caps: Seq<Seq<char>>, cap: Seq<char>)
    ensures
        caps.push(cap).contains(cap),
{
    assert(caps.push(cap)[caps.len() as int] == cap);
}

} // verus!
