//! The vocabulary of slot states shared by every packed state word.

use vstd::prelude::*;

verus! {

/// The logical state of a storage slot.
///
/// `Peeking` stands for "initialized with at least one live borrow" and
/// `Regaining` for "an exclusive claim is waiting for borrows to drain";
/// both only ever appear packed into a state word, never stored on their own.
/// `Unknown` is the decoding of any unassigned code.
#[derive(Clone, Copy, Debug, PartialEq, Eq, Structural)]
pub enum MemoryState {
    Uninitialized,
    Initializing,
    Initialized,
    Erasing,
    Peeking,
    Regaining,
    Unknown,
}

impl MemoryState {
    /// The numeric code a state word stores for this state.
    pub open spec fn code(self) -> u8 {
        match self {
            MemoryState::Uninitialized => 0,
            MemoryState::Initializing => 1,
            MemoryState::Initialized => 2,
            MemoryState::Erasing => 3,
            MemoryState::Peeking => 4,
            MemoryState::Regaining => 5,
            MemoryState::Unknown => 6,
        }
    }

    /// The state a numeric code decodes to. Unassigned codes decode to
    /// `Unknown` — including `Peeking`'s own code, since borrowed-ness is
    /// only ever encoded by magnitude in a packed word, never as a small
    /// code.
    pub open spec fn decode(code: u8) -> MemoryState {
        if code == 0 {
            MemoryState::Uninitialized
        } else if code == 1 {
            MemoryState::Initializing
        } else if code == 2 {
            MemoryState::Initialized
        } else if code == 3 {
            MemoryState::Erasing
        } else if code == 5 {
            MemoryState::Regaining
        } else {
            MemoryState::Unknown
        }
    }

    pub fn is_uninitialized(&self) -> (r: bool)
        ensures
            r == (self is Uninitialized),
    {
        self == &MemoryState::Uninitialized
    }

    pub fn is_initializing(&self) -> (r: bool)
        ensures
            r == (self is Initializing),
    {
        self == &MemoryState::Initializing
    }

    pub fn is_initialized(&self) -> (r: bool)
        ensures
            r == (self is Initialized),
    {
        self == &MemoryState::Initialized
    }

    pub fn is_erasing(&self) -> (r: bool)
        ensures
            r == (self is Erasing),
    {
        self == &MemoryState::Erasing
    }

    pub fn is_peeking(&self) -> (r: bool)
        ensures
            r == (self is Peeking),
    {
        self == &MemoryState::Peeking
    }

    pub fn is_regaining(&self) -> (r: bool)
        ensures
            r == (self is Regaining),
    {
        self == &MemoryState::Regaining
    }

    pub fn is_unknown(&self) -> (r: bool)
        ensures
            r == (self is Unknown),
    {
        self == &MemoryState::Unknown
    }

    /// A transient state: some peer is mid-transition and retrying may help.
    pub fn is_transient(&self) -> (r: bool)
        ensures
            r == (self is Initializing || self is Erasing || self is Regaining),
    {
        self == &MemoryState::Initializing || self == &MemoryState::Erasing
            || self == &MemoryState::Regaining
    }

    /// The numeric code, as executable code computes it.
    pub fn code_u8(&self) -> (r: u8)
        ensures
            r == self.code(),
    {
        match self {
            MemoryState::Uninitialized => 0,
            MemoryState::Initializing => 1,
            MemoryState::Initialized => 2,
            MemoryState::Erasing => 3,
            MemoryState::Peeking => 4,
            MemoryState::Regaining => 5,
            MemoryState::Unknown => 6,
        }
    }
}


impl PartialOrd for MemoryState {
    fn partial_cmp(&self, other: &MemoryState) -> (r: Option<core::cmp::Ordering>) {
        let a = self.code_u8();
        let b = other.code_u8();
        if a < b {
            Some(core::cmp::Ordering::Less)
        } else if a == b {
            Some(core::cmp::Ordering::Equal)
        } else {
            Some(core::cmp::Ordering::Greater)
        }
    }
}

/// The order on states: by numeric code.
pub open spec fn state_order(a: MemoryState, b: MemoryState) -> Option<core::cmp::Ordering> {
    if a.code() < b.code() {
        Some(core::cmp::Ordering::Less)
    } else if a.code() == b.code() {
        Some(core::cmp::Ordering::Equal)
    } else {
        Some(core::cmp::Ordering::Greater)
    }
}

impl vstd::std_specs::cmp::PartialOrdSpecImpl for MemoryState {
    open spec fn obeys_partial_cmp_spec() -> bool {
        true
    }

    open spec fn partial_cmp_spec(&self, other: &MemoryState) -> Option<core::cmp::Ordering> {
        state_order(*self, *other)
    }
}

impl core::convert::From<u8> for MemoryState {
    fn from(s: u8) -> (r: MemoryState) {
        if s == 0 {
            MemoryState::Uninitialized
        } else if s == 1 {
            MemoryState::Initializing
        } else if s == 2 {
            MemoryState::Initialized
        } else if s == 3 {
            MemoryState::Erasing
        } else if s == 5 {
            MemoryState::Regaining
        } else {
            MemoryState::Unknown
        }
    }
}

impl vstd::std_specs::convert::FromSpecImpl<u8> for MemoryState {
    open spec fn obeys_from_spec() -> bool {
        true
    }

    open spec fn from_spec(code: u8) -> MemoryState {
        MemoryState::decode(code)
    }
}

impl core::convert::From<MemoryState> for u8 {
    fn from(s: MemoryState) -> (r: u8) {
        match s {
            MemoryState::Uninitialized => 0,
            MemoryState::Initializing => 1,
            MemoryState::Initialized => 2,
            MemoryState::Erasing => 3,
            MemoryState::Peeking => 4,
            MemoryState::Regaining => 5,
            MemoryState::Unknown => 6,
        }
    }
}

impl vstd::std_specs::convert::FromSpecImpl<MemoryState> for u8 {
    open spec fn obeys_from_spec() -> bool {
        true
    }

    open spec fn from_spec(s: MemoryState) -> u8 {
        s.code()
    }
}

/// Encoding and decoding a state are inverse to each other for every
/// state but `Peeking`, whose code is unassigned (a borrowed word shows
/// `Peeking` by magnitude alone) and so decodes to `Unknown`.
pub proof fn lemma_state_code_round_trip()
    ensures
        forall|s: MemoryState| s != MemoryState::Peeking ==> MemoryState::decode(s.code()) == s,
        MemoryState::decode(MemoryState::Peeking.code()) == MemoryState::Unknown,
        forall|c: u8| c <= 5 && c != 4 ==> #[trigger] MemoryState::decode(c).code() == c,
{
}

} // verus!
