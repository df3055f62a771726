//! A packed word holding a slot state in its high byte and a live-borrow
//! count in its low 24 bits.

use vstd::prelude::*;
use crate::packing::{lemma_pack, lemma_split};
use crate::state::MemoryState;

verus! {

/// The packed state-and-borrow-count word: state code in bits 24..32, count
/// of live borrows in bits 0..24.
#[derive(Debug, Clone, Copy, PartialEq, Eq, Structural)]
pub struct MemoryRefer(u32);

impl MemoryRefer {
    /// The raw packed word.
    pub closed spec fn raw(&self) -> u32 {
        self.0
    }

    /// The word whose raw value is `s`; see [`lemma_refer_from_raw`].
    pub closed spec fn from_raw(s: u32) -> MemoryRefer {
        MemoryRefer(s)
    }

    /// The state held in the high byte.
    pub open spec fn state_spec(&self) -> MemoryState {
        MemoryState::decode((self.raw() / 0x0100_0000) as u8)
    }

    /// The borrow count held in the low 24 bits.
    pub open spec fn refs_spec(&self) -> u32 {
        self.raw() % 0x0100_0000
    }

    /// True when the state admits a borrow count at all.
    pub open spec fn counted_spec(&self) -> bool {
        self.state_spec() is Initialized || self.state_spec() is Regaining || self.state_spec()
            is Erasing
    }

    /// A fresh word: `Uninitialized`, no borrows.
    pub fn new() -> (r: Self)
        ensures
            r.raw() == 0,
    {
        Self(0)
    }

    pub fn state(&self) -> (r: MemoryState)
        ensures
            r == self.state_spec(),
    {
        proof {
            lemma_split(self.0);
        }
        MemoryState::from((self.0 / 0x0100_0000) as u8)
    }

    /// Replaces the state byte, keeping the borrow count.
    pub fn set_state(&mut self, val: MemoryState)
        ensures
            final(self).raw() == old(self).refs_spec() + val.code() * 0x0100_0000,
            final(self).state_spec() == MemoryState::decode(val.code()),
            val != MemoryState::Peeking ==> final(self).state_spec() == val,
            final(self).refs_spec() == old(self).refs_spec(),
    {
        proof {
            lemma_split(self.0);
            lemma_pack(val.code() as u32, old(self).refs_spec());
            crate::state::lemma_state_code_round_trip();
        }
        self.0 = self.0 % 0x0100_0000 + (u8::from(val) as u32) * 0x0100_0000;
    }

    /// The largest borrow count the low 24 bits can hold; the count
    /// saturates there and never comes back down.
    pub fn max_refer() -> (r: usize)
        ensures
            r == 0x00FF_FFFF,
    {
        0x00FF_FFFF
    }

    /// The borrow count, or the state when it is not one that counts
    /// borrows.
    pub fn ref_num(&self) -> (r: Result<usize, MemoryState>)
        ensures
            self.counted_spec() ==> r == Ok::<usize, MemoryState>(self.refs_spec() as usize),
            !self.counted_spec() ==> r == Err::<usize, MemoryState>(self.state_spec()),
    {
        proof {
            lemma_split(self.0);
        }
        let state = self.state();
        if state.is_initialized() || state.is_regaining() || state.is_erasing() {
            Ok((self.0 as usize) % 0x0100_0000)
        } else {
            Err(state)
        }
    }

    /// Adds one borrow. Only an `Initialized` word accepts a new borrow; a
    /// saturated count stays saturated.
    pub fn ref_add(&mut self) -> (r: Result<(), MemoryState>)
        ensures
            !old(self).counted_spec() ==> r == Err::<(), MemoryState>(old(self).state_spec())
                && *final(self) == *old(self),
            old(self).counted_spec() && old(self).refs_spec() == 0x00FF_FFFF ==> r
                == Ok::<(), MemoryState>(()) && *final(self) == *old(self),
            old(self).state_spec() is Initialized && old(self).refs_spec() < 0x00FF_FFFF ==> r
                == Ok::<(), MemoryState>(())
                && final(self).state_spec() is Initialized
                && final(self).refs_spec() == old(self).refs_spec() + 1,
            (old(self).state_spec() is Regaining || old(self).state_spec() is Erasing)
                && old(self).refs_spec() < 0x00FF_FFFF ==> r
                == Err::<(), MemoryState>(old(self).state_spec())
                && *final(self) == *old(self),
    {
        proof {
            lemma_split(self.0);
        }
        let ref_num = match self.ref_num() {
            Ok(n) => n,
            Err(state) => {
                return Err(state);
            },
        };
        if ref_num == Self::max_refer() {
            return Ok(());
        }
        let state = self.state();
        if state.is_initialized() {
            proof {
                lemma_pack(old(self).raw() / 0x0100_0000, (old(self).refs_spec() + 1) as u32);
            }
            self.0 = self.0 + 1;
            Ok(())
        } else {
            Err(state)
        }
    }

    /// Removes one borrow. A zero or saturated count is left alone; only an
    /// `Initialized` or `Regaining` word gives a borrow back.
    pub fn ref_sub(&mut self) -> (r: Result<(), MemoryState>)
        ensures
            !old(self).counted_spec() ==> r == Err::<(), MemoryState>(old(self).state_spec())
                && *final(self) == *old(self),
            old(self).counted_spec()
                && (old(self).refs_spec() == 0x00FF_FFFF || old(self).refs_spec() == 0) ==> r
                == Ok::<(), MemoryState>(()) && *final(self) == *old(self),
            (old(self).state_spec() is Initialized || old(self).state_spec() is Regaining)
                && 0 < old(self).refs_spec() < 0x00FF_FFFF ==> r == Ok::<(), MemoryState>(())
                && final(self).state_spec() == old(self).state_spec()
                && final(self).refs_spec() == old(self).refs_spec() - 1,
            old(self).state_spec() is Erasing && 0 < old(self).refs_spec() < 0x00FF_FFFF ==> r
                == Err::<(), MemoryState>(MemoryState::Erasing) && *final(self) == *old(self),
    {
        proof {
            lemma_split(self.0);
        }
        let ref_num = match self.ref_num() {
            Ok(n) => n,
            Err(state) => {
                return Err(state);
            },
        };
        if ref_num == Self::max_refer() || ref_num == 0 {
            return Ok(());
        }
        let state = self.state();
        if state.is_initialized() || state.is_regaining() {
            proof {
                lemma_pack(old(self).raw() / 0x0100_0000, (old(self).refs_spec() - 1) as u32);
            }
            self.0 = self.0 - 1;
            Ok(())
        } else {
            Err(state)
        }
    }
}

impl core::convert::From<MemoryState> for MemoryRefer {
    fn from(s: MemoryState) -> (r: MemoryRefer) {
        let mut refer = MemoryRefer::new();
        refer.set_state(s);
        refer
    }
}

impl vstd::std_specs::convert::FromSpecImpl<MemoryState> for MemoryRefer {
    open spec fn obeys_from_spec() -> bool {
        true
    }

    open spec fn from_spec(s: MemoryState) -> MemoryRefer {
        MemoryRefer::from_raw((s.code() * 0x0100_0000) as u32)
    }
}

impl core::convert::From<u32> for MemoryRefer {
    fn from(s: u32) -> (r: MemoryRefer) {
        Self(s)
    }
}

impl vstd::std_specs::convert::FromSpecImpl<u32> for MemoryRefer {
    open spec fn obeys_from_spec() -> bool {
        true
    }

    open spec fn from_spec(s: u32) -> MemoryRefer {
        MemoryRefer::from_raw(s)
    }
}

impl core::convert::From<MemoryRefer> for u32 {
    fn from(s: MemoryRefer) -> (r: u32) {
        s.0
    }
}

impl vstd::std_specs::convert::FromSpecImpl<MemoryRefer> for u32 {
    open spec fn obeys_from_spec() -> bool {
        true
    }

    open spec fn from_spec(s: MemoryRefer) -> u32 {
        s.raw()
    }
}

/// Packing a raw value and reading it back are inverse to each other.
pub proof fn lemma_refer_from_raw()
    ensures
        forall|s: u32| (#[trigger] MemoryRefer::from_raw(s)).raw() == s,
        forall|w: MemoryRefer| MemoryRefer::from_raw(#[trigger] w.raw()) == w,
{
}

} // verus!
