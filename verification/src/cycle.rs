//! A packed word tagging a ring slot with its state and its reuse-cycle
//! count: state code in the high byte, cycle in the low 24 bits. The cycle
//! tells a slot of the current lap from stale state left by a previous lap.

use vstd::prelude::*;
use crate::packing::{lemma_max_idx, lemma_pack, lemma_split};
use crate::state::{state_order, MemoryState};

verus! {

/// One more than the largest cycle the low 24 bits can hold.
pub const CYCLE_MAX: u32 = 0x0100_0000;

/// The packed per-slot word of the ring: state in the high byte, reuse
/// cycle in the low 24 bits.
#[derive(Debug, Clone, Copy, PartialEq, Eq, Structural)]
pub struct MemoryRing(u32);

impl MemoryRing {
    /// The raw packed word.
    pub closed spec fn raw(&self) -> u32 {
        self.0
    }

    /// The word whose raw value is `s`; see [`lemma_ring_from_raw`].
    pub closed spec fn from_raw(s: u32) -> MemoryRing {
        MemoryRing(s)
    }

    /// The state held in the high byte.
    pub open spec fn state_spec(&self) -> MemoryState {
        MemoryState::decode((self.raw() / 0x0100_0000) as u8)
    }

    /// The cycle held in the low 24 bits.
    pub open spec fn cycle_spec(&self) -> u32 {
        self.raw() % 0x0100_0000
    }

    /// The word packing `cycle` (reduced modulo [`CYCLE_MAX`]) and `state`.
    pub open spec fn new_spec(cycle: nat, state: MemoryState) -> MemoryRing {
        MemoryRing::from_raw(((cycle % (CYCLE_MAX as nat)) + state.code() * 0x0100_0000) as u32)
    }

    pub fn new(cycle: usize, state: MemoryState) -> (r: Self)
        ensures
            r == MemoryRing::new_spec(cycle as nat, state),
            r.cycle_spec() == cycle as nat % (CYCLE_MAX as nat),
            r.state_spec() == MemoryState::decode(state.code()),
            state != MemoryState::Peeking ==> r.state_spec() == state,
    {
        proof {
            lemma_pack(state.code() as u32, (cycle as u32) % 0x0100_0000);
            crate::state::lemma_state_code_round_trip();
        }
        let cycle = cycle % 0x0100_0000;
        Self((u8::from(state) as u32) * 0x0100_0000 + cycle as u32)
    }

    /// One more than the largest cycle a slot word can carry.
    pub fn max_cycle() -> (r: usize)
        ensures
            r == CYCLE_MAX,
    {
        0x0100_0000
    }

    pub fn cycle(&self) -> (r: usize)
        ensures
            r == self.cycle_spec(),
    {
        (self.0 as usize) % 0x0100_0000
    }

    /// Replaces the cycle (reduced modulo [`CYCLE_MAX`]), keeping the state.
    pub fn set_cycle(&mut self, val: usize)
        ensures
            final(self).cycle_spec() == val as nat % (CYCLE_MAX as nat),
            final(self).state_spec() == old(self).state_spec(),
    {
        proof {
            lemma_split(self.0);
            lemma_pack(old(self).raw() / 0x0100_0000, (val as u32) % 0x0100_0000);
        }
        let val = val % 0x0100_0000;
        self.0 = (self.0 / 0x0100_0000) * 0x0100_0000 + val as u32;
    }

    pub fn state(&self) -> (r: MemoryState)
        ensures
            r == self.state_spec(),
    {
        proof {
            lemma_split(self.0);
        }
        MemoryState::from((self.0 / 0x0100_0000) as u8)
    }

    /// Replaces the state byte, keeping the cycle.
    pub fn set_state(&mut self, val: MemoryState)
        ensures
            final(self).state_spec() == MemoryState::decode(val.code()),
            val != MemoryState::Peeking ==> final(self).state_spec() == val,
            final(self).cycle_spec() == old(self).cycle_spec(),
    {
        proof {
            lemma_split(self.0);
            lemma_pack(val.code() as u32, old(self).cycle_spec());
            crate::state::lemma_state_code_round_trip();
        }
        self.0 = self.0 % 0x0100_0000 + (u8::from(val) as u32) * 0x0100_0000;
    }

    /// The word after `self` in the slot lifecycle
    /// `Uninitialized -> Initializing -> Initialized -> Erasing`, where
    /// leaving `Erasing` starts the next cycle (wrapping back to zero at
    /// [`CYCLE_MAX`]).
    pub fn next(&self) -> (r: Self)
        requires
            self.state_spec() is Uninitialized || self.state_spec() is Initializing
                || self.state_spec() is Initialized || self.state_spec() is Erasing,
        ensures
            self.state_spec() is Uninitialized ==> r.cycle_spec() == self.cycle_spec()
                && r.state_spec() is Initializing,
            self.state_spec() is Initializing ==> r.cycle_spec() == self.cycle_spec()
                && r.state_spec() is Initialized,
            self.state_spec() is Initialized ==> r.cycle_spec() == self.cycle_spec()
                && r.state_spec() is Erasing,
            self.state_spec() is Erasing ==> r.cycle_spec() == (self.cycle_spec() + 1) % (CYCLE_MAX as int)
                && r.state_spec() is Uninitialized,
    {
        let mut ret = *self;
        let state = self.state();
        if state.is_uninitialized() {
            ret.set_state(MemoryState::Initializing);
        } else if state.is_initializing() {
            ret.set_state(MemoryState::Initialized);
        } else if state.is_initialized() {
            ret.set_state(MemoryState::Erasing);
        } else {
            let cycle = self.cycle() + 1;
            ret.set_cycle(
                if cycle >= Self::max_cycle() {
                    0
                } else {
                    cycle
                },
            );
            ret.set_state(MemoryState::Uninitialized);
        }
        ret
    }

    /// The size of the cursor domain for a ring of `size` slots: the
    /// largest multiple of `size * CYCLE_MAX` that fits in `usize`, so that
    /// a cursor always splits into an index and a cycle and wraps cleanly
    /// back to zero.
    pub fn max_idx(size: usize) -> (r: usize)
        requires
            1 <= size,
        ensures
            r == (usize::MAX as int / (size * CYCLE_MAX)) * (size * CYCLE_MAX),
    {
        let cycle_max = Self::max_cycle();
        proof {
            lemma_max_idx(size as int);
        }
        usize::MAX / size / cycle_max * size * cycle_max
    }

    /// Which cycle a cursor value falls in, for a ring of `size` slots.
    pub fn cycle_of_idx(idx: usize, size: usize) -> (r: usize)
        requires
            1 <= size,
        ensures
            r == idx as int / size as int,
    {
        idx / size
    }
}

impl core::convert::From<u32> for MemoryRing {
    fn from(s: u32) -> (r: MemoryRing) {
        Self(s)
    }
}

impl vstd::std_specs::convert::FromSpecImpl<u32> for MemoryRing {
    open spec fn obeys_from_spec() -> bool {
        true
    }

    open spec fn from_spec(s: u32) -> MemoryRing {
        MemoryRing::from_raw(s)
    }
}

impl core::convert::From<MemoryRing> for u32 {
    fn from(s: MemoryRing) -> (r: u32) {
        s.0
    }
}

impl vstd::std_specs::convert::FromSpecImpl<MemoryRing> for u32 {
    open spec fn obeys_from_spec() -> bool {
        true
    }

    open spec fn from_spec(s: MemoryRing) -> u32 {
        s.raw()
    }
}

/// The wraparound order on slot words: by cycle first (treating a cycle in
/// the lowest quarter as newer than one in the highest quarter, so that the
/// order survives the cycle wrapping back to zero), then by state.
pub open spec fn ring_order(a: MemoryRing, b: MemoryRing) -> Option<core::cmp::Ordering> {
    let ac = a.cycle_spec();
    let bc = b.cycle_spec();
    if ac == bc {
        state_order(a.state_spec(), b.state_spec())
    } else if ac < CYCLE_MAX / 4 && bc > (CYCLE_MAX / 4) * 3 {
        Some(core::cmp::Ordering::Greater)
    } else if ac > (CYCLE_MAX / 4) * 3 && bc < CYCLE_MAX / 4 {
        Some(core::cmp::Ordering::Less)
    } else if ac < bc {
        Some(core::cmp::Ordering::Less)
    } else {
        Some(core::cmp::Ordering::Greater)
    }
}

impl PartialOrd for MemoryRing {
    fn partial_cmp(&self, other: &MemoryRing) -> (r: Option<core::cmp::Ordering>) {
        let self_cycle = self.cycle();
        let other_cycle = other.cycle();
        let max_cycle = Self::max_cycle();
        if self_cycle == other_cycle {
            self.state().partial_cmp(&other.state())
        } else if self_cycle < max_cycle / 4 && other_cycle > max_cycle / 4 * 3 {
            Some(core::cmp::Ordering::Greater)
        } else if self_cycle > max_cycle / 4 * 3 && other_cycle < max_cycle / 4 {
            Some(core::cmp::Ordering::Less)
        } else if self_cycle < other_cycle {
            Some(core::cmp::Ordering::Less)
        } else {
            Some(core::cmp::Ordering::Greater)
        }
    }
}

impl vstd::std_specs::cmp::PartialOrdSpecImpl for MemoryRing {
    open spec fn obeys_partial_cmp_spec() -> bool {
        true
    }

    open spec fn partial_cmp_spec(&self, other: &MemoryRing) -> Option<core::cmp::Ordering> {
        ring_order(*self, *other)
    }
}

/// Packing a raw value and reading it back are inverse to each other.
pub proof fn lemma_ring_from_raw()
    ensures
        forall|s: u32| (#[trigger] MemoryRing::from_raw(s)).raw() == s,
        forall|w: MemoryRing| MemoryRing::from_raw(#[trigger] w.raw()) == w,
{
}

} // verus!
