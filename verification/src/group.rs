//! A packed word tagging an array slot with its state and its reuse-group
//! count: state code in the high byte, group in the low 24 bits. The group
//! plays the same anti-stale role for an array of independent slots that the
//! cycle does for the ring.

use vstd::prelude::*;
use crate::packing::{lemma_max_idx, lemma_pack, lemma_split};
use crate::state::{state_order, MemoryState};

verus! {

/// One more than the largest group the low 24 bits can hold.
pub const GROUP_MAX: u32 = 0x0100_0000;

/// The packed per-slot word of the array: state in the high byte, reuse
/// group in the low 24 bits.
#[derive(Debug, Clone, Copy, PartialEq, Eq, Structural)]
pub struct MemoryGroup(u32);

impl MemoryGroup {
    /// The raw packed word.
    pub closed spec fn raw(&self) -> u32 {
        self.0
    }

    /// The word whose raw value is `s`; see [`lemma_group_from_raw`].
    pub closed spec fn from_raw(s: u32) -> MemoryGroup {
        MemoryGroup(s)
    }

    /// The state held in the high byte.
    pub open spec fn state_spec(&self) -> MemoryState {
        MemoryState::decode((self.raw() / 0x0100_0000) as u8)
    }

    /// The cycle held in the low 24 bits.
    pub open spec fn group_spec(&self) -> u32 {
        self.raw() % 0x0100_0000
    }

    /// The word packing `group` and `state`.
    pub open spec fn new_spec(group: nat, state: MemoryState) -> MemoryGroup {
        MemoryGroup::from_raw((group + state.code() * 0x0100_0000) as u32)
    }

    pub fn new(group: usize, state: MemoryState) -> (r: Self)
        requires
            group < GROUP_MAX,
        ensures
            r == MemoryGroup::new_spec(group as nat, state),
            r.group_spec() == group,
            r.state_spec() == MemoryState::decode(state.code()),
            state != MemoryState::Peeking ==> r.state_spec() == state,
    {
        proof {
            lemma_pack(state.code() as u32, group as u32);
            crate::state::lemma_state_code_round_trip();
        }
        Self((u8::from(state) as u32) * 0x0100_0000 + group as u32)
    }

    /// One more than the largest group a slot word can carry.
    pub fn max_group() -> (r: usize)
        ensures
            r == GROUP_MAX,
    {
        0x0100_0000
    }

    pub fn group(&self) -> (r: usize)
        ensures
            r == self.group_spec(),
    {
        (self.0 as usize) % 0x0100_0000
    }

    /// Replaces the group, keeping the state.
    pub fn set_group(&mut self, val: usize)
        requires
            val < GROUP_MAX,
        ensures
            final(self).group_spec() == val,
            final(self).state_spec() == old(self).state_spec(),
    {
        proof {
            lemma_split(self.0);
            lemma_pack(old(self).raw() / 0x0100_0000, val as u32);
        }
        self.0 = (self.0 / 0x0100_0000) * 0x0100_0000 + val as u32;
    }

    pub fn state(&self) -> (r: MemoryState)
        ensures
            r == self.state_spec(),
    {
        proof {
            lemma_split(self.0);
        }
        MemoryState::from((self.0 / 0x0100_0000) as u8)
    }

    /// Replaces the state byte, keeping the cycle.
    pub fn set_state(&mut self, val: MemoryState)
        ensures
            final(self).state_spec() == MemoryState::decode(val.code()),
            val != MemoryState::Peeking ==> final(self).state_spec() == val,
            final(self).group_spec() == old(self).group_spec(),
    {
        proof {
            lemma_split(self.0);
            lemma_pack(val.code() as u32, old(self).group_spec());
            crate::state::lemma_state_code_round_trip();
        }
        self.0 = self.0 % 0x0100_0000 + (u8::from(val) as u32) * 0x0100_0000;
    }

    /// The word after `self` in the slot lifecycle
    /// `Uninitialized -> Initializing -> Initialized -> Erasing`, where
    /// leaving `Erasing` starts the next group (wrapping back to zero at
    /// [`GROUP_MAX`]).
    pub fn next(&self) -> (r: Self)
        requires
            self.state_spec() is Uninitialized || self.state_spec() is Initializing
                || self.state_spec() is Initialized || self.state_spec() is Erasing,
        ensures
            self.state_spec() is Uninitialized ==> r.group_spec() == self.group_spec()
                && r.state_spec() is Initializing,
            self.state_spec() is Initializing ==> r.group_spec() == self.group_spec()
                && r.state_spec() is Initialized,
            self.state_spec() is Initialized ==> r.group_spec() == self.group_spec()
                && r.state_spec() is Erasing,
            self.state_spec() is Erasing ==> r.group_spec() == (self.group_spec() + 1) % (
            GROUP_MAX as int) && r.state_spec() is Uninitialized,
    {
        let mut ret = *self;
        let state = self.state();
        if state.is_uninitialized() {
            ret.set_state(MemoryState::Initializing);
        } else if state.is_initializing() {
            ret.set_state(MemoryState::Initialized);
        } else if state.is_initialized() {
            ret.set_state(MemoryState::Erasing);
        } else {
            let group = self.group() + 1;
            proof {
                lemma_split(self.0);
            }
            ret.set_group(
                if group >= Self::max_group() {
                    0
                } else {
                    group
                },
            );
            ret.set_state(MemoryState::Uninitialized);
        }
        ret
    }

    /// The size of the scan domain for an array of `size` slots: the
    /// largest multiple of `size * GROUP_MAX` that fits in `usize`, so that
    /// a scan cursor always splits into an index and a group and wraps
    /// cleanly back to zero.
    pub fn max_idx(size: usize) -> (r: usize)
        requires
            1 <= size,
        ensures
            r == (usize::MAX as int / (size * GROUP_MAX)) * (size * GROUP_MAX),
    {
        let group_max = Self::max_group();
        proof {
            lemma_max_idx(size as int);
        }
        usize::MAX / size / group_max * size * group_max
    }

    /// Which group a cursor value falls in, for an array of `size` slots.
    pub fn group_of_idx(idx: usize, size: usize) -> (r: usize)
        requires
            1 <= size,
        ensures
            r == idx as int / size as int,
    {
        idx / size
    }
}

impl core::convert::From<u32> for MemoryGroup {
    fn from(s: u32) -> (r: MemoryGroup) {
        Self(s)
    }
}

impl vstd::std_specs::convert::FromSpecImpl<u32> for MemoryGroup {
    open spec fn obeys_from_spec() -> bool {
        true
    }

    open spec fn from_spec(s: u32) -> MemoryGroup {
        MemoryGroup::from_raw(s)
    }
}

impl core::convert::From<MemoryGroup> for u32 {
    fn from(s: MemoryGroup) -> (r: u32) {
        s.0
    }
}

impl vstd::std_specs::convert::FromSpecImpl<MemoryGroup> for u32 {
    open spec fn obeys_from_spec() -> bool {
        true
    }

    open spec fn from_spec(s: MemoryGroup) -> u32 {
        s.raw()
    }
}

/// The wraparound order on slot words: by group first (treating a group in
/// the lowest quarter as newer than one in the highest quarter, so that the
/// order survives the group wrapping back to zero), then by state.
pub open spec fn group_order(a: MemoryGroup, b: MemoryGroup) -> Option<core::cmp::Ordering> {
    let ac = a.group_spec();
    let bc = b.group_spec();
    if ac == bc {
        state_order(a.state_spec(), b.state_spec())
    } else if ac < GROUP_MAX / 4 && bc > (GROUP_MAX / 4) * 3 {
        Some(core::cmp::Ordering::Greater)
    } else if ac > (GROUP_MAX / 4) * 3 && bc < GROUP_MAX / 4 {
        Some(core::cmp::Ordering::Less)
    } else if ac < bc {
        Some(core::cmp::Ordering::Less)
    } else {
        Some(core::cmp::Ordering::Greater)
    }
}

impl PartialOrd for MemoryGroup {
    fn partial_cmp(&self, other: &MemoryGroup) -> (r: Option<core::cmp::Ordering>) {
        let self_group = self.group();
        let other_group = other.group();
        let max_group = Self::max_group();
        if self_group == other_group {
            self.state().partial_cmp(&other.state())
        } else if self_group < max_group / 4 && other_group > max_group / 4 * 3 {
            Some(core::cmp::Ordering::Greater)
        } else if self_group > max_group / 4 * 3 && other_group < max_group / 4 {
            Some(core::cmp::Ordering::Less)
        } else if self_group < other_group {
            Some(core::cmp::Ordering::Less)
        } else {
            Some(core::cmp::Ordering::Greater)
        }
    }
}

impl vstd::std_specs::cmp::PartialOrdSpecImpl for MemoryGroup {
    open spec fn obeys_partial_cmp_spec() -> bool {
        true
    }

    open spec fn partial_cmp_spec(&self, other: &MemoryGroup) -> Option<core::cmp::Ordering> {
        group_order(*self, *other)
    }
}

/// Packing a raw value and reading it back are inverse to each other.
pub proof fn lemma_group_from_raw()
    ensures
        forall|s: u32| (#[trigger] MemoryGroup::from_raw(s)).raw() == s,
        forall|w: MemoryGroup| MemoryGroup::from_raw(#[trigger] w.raw()) == w,
{
}

} // verus!
