//! Small value types shared by the whole library.
use vstd::prelude::*;

verus! {

/// Ternary filter result.
#[derive(Debug, Clone, Copy, PartialEq, Eq, Structural)]
pub enum Ternary {
    /// Positive match: include this beacon.
    Positive,
    /// Neutral: no opinion, include by default.
    Neutral,
    /// Negative match: exclude this beacon.
    Negative,
}

/// Unique agent identifier.
#[derive(Debug, Clone, Copy, PartialEq, Eq, Hash, Structural)]
pub struct AgentId(pub u64);

/// Signal strength categories based on distance and quality.
///
/// The variants are declared from weakest to strongest, so the derived
/// ordering agrees with `rank`.
#[derive(Debug, Clone, Copy, PartialEq, Eq, PartialOrd, Ord, Structural)]
pub enum SignalStrength {
    /// No signal, or a raw value beyond the scale.
    NoSignal,
    /// Very weak signal (0-25).
    Weak,
    /// Medium signal (26-50).
    Medium,
    /// Strong signal (51-75).
    Strong,
    /// Excellent signal (76-100).
    Excellent,
}

/// The category of a raw signal value on the 0-100 scale.
pub open spec fn classify(raw: u32) -> SignalStrength {
    if raw <= 25 {
        SignalStrength::Weak
    } else if raw <= 50 {
        SignalStrength::Medium
    } else if raw <= 75 {
        SignalStrength::Strong
    } else if raw <= 100 {
        SignalStrength::Excellent
    } else {
        SignalStrength::NoSignal
    }
}

impl SignalStrength {
    /// Position of the category from weakest (0) to strongest (4).
    pub open spec fn rank(self) -> nat {
        match self {
            SignalStrength::NoSignal => 0,
            SignalStrength::Weak => 1,
            SignalStrength::Medium => 2,
            SignalStrength::Strong => 3,
            SignalStrength::Excellent => 4,
        }
    }

    /// Classify a raw signal value (0-100) into a category.
    pub fn from_raw(raw: u32) -> (s: SignalStrength)
        ensures
            s == classify(raw),
    {
        if raw <= 25 {
            SignalStrength::Weak
        } else if raw <= 50 {
            SignalStrength::Medium
        } else if raw <= 75 {
            SignalStrength::Strong
        } else if raw <= 100 {
            SignalStrength::Excellent
        } else {
            SignalStrength::NoSignal
        }
    }

    /// Whether the signal is usable for communication.
    pub fn is_usable(&self) -> (b: bool)
        ensures
            b == (*self != SignalStrength::NoSignal),
    {
        !matches!(self, SignalStrength::NoSignal)
    }

    /// The rank of this category, computed.
    pub(crate) fn rank_value(&self) -> (r: u8)
        ensures
            r == self.rank(),
    {
        match self {
            SignalStrength::NoSignal => 0,
            SignalStrength::Weak => 1,
            SignalStrength::Medium => 2,
            SignalStrength::Strong => 3,
            SignalStrength::Excellent => 4,
        }
    }
}

/// A raw value is classified as usable exactly when it lies on the 0-100 scale.
pub proof fn lemma_usable_iff_on_scale(raw: u32)
    ensures
        (classify(raw) != SignalStrength::NoSignal) <==> raw <= 100,
{
}

/// Classification is monotone on the scale: a stronger raw signal never
/// falls into a weaker category.
pub proof fn lemma_classify_monotone(a: u32, b: u32)
    requires
        a <= b <= 100,
    ensures
        classify(a).rank() <= classify(b).rank(),
{
}

/// On the 0-100 scale the categories are bands of 25 counted upward from
/// Weak (the band of 0 to 25 is Weak, every further 25 one category
/// stronger); beyond the scale there is no signal.
pub proof fn lemma_classify_bands(raw: u32)
    ensures
        raw <= 100 ==> classify(raw).rank() == (if raw == 0 {
            1
        } else {
            (raw - 1) / 25 + 1
        }),
        raw > 100 ==> classify(raw).rank() == 0,
        classify(raw).rank() == 0 <==> classify(raw) == SignalStrength::NoSignal,
{
}

} // verus!
