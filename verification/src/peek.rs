//! A packed word that multiplexes a slot state and a live-borrow count by
//! magnitude: a raw value below the threshold is a plain state code, a raw
//! value at or above it means "initialized with that many live borrows".

use vstd::prelude::*;
use crate::state::MemoryState;

verus! {

/// The raw value that stands for "initialized with one live borrow"; every
/// raw value below it is a plain state code.
pub const PEEK1: u32 = 0x100;

/// The largest borrow count the word can hold; the count saturates there
/// and never comes back down.
pub const PEEK_MAX: u32 = 0x00FF_FFFF - PEEK1 + 1;

/// The packed state-or-borrow-count word.
#[derive(Debug, Clone, Copy, PartialEq, Eq, Structural)]
pub struct MemoryPeek(u32);

impl MemoryPeek {
    /// The raw packed word.
    pub closed spec fn raw(&self) -> u32 {
        self.0
    }

    /// The word whose raw value is `s`; see [`lemma_peek_from_raw`].
    pub closed spec fn from_raw(s: u32) -> MemoryPeek {
        MemoryPeek(s)
    }

    /// The state the word encodes; any raw value at or above the threshold
    /// is `Peeking`.
    pub open spec fn state_spec(&self) -> MemoryState {
        if self.raw() < PEEK1 {
            MemoryState::decode(self.raw() as u8)
        } else {
            MemoryState::Peeking
        }
    }

    /// The borrow count the word encodes: zero when just `Initialized`,
    /// `raw - PEEK1 + 1` above the threshold.
    pub open spec fn peek_num_spec(&self) -> u32 {
        if self.raw() >= PEEK1 {
            (self.raw() - PEEK1 + 1) as u32
        } else {
            0
        }
    }

    /// True when the word carries a borrow count at all: at or above the
    /// threshold, or exactly the `Initialized` code.
    pub open spec fn counted_spec(&self) -> bool {
        self.raw() >= PEEK1 || self.state_spec() is Initialized
    }

    /// A fresh word: `Uninitialized`.
    pub fn new() -> (r: MemoryPeek)
        ensures
            r.raw() == 0,
    {
        Self(0)
    }

    pub fn state(&self) -> (r: MemoryState)
        ensures
            r == self.state_spec(),
    {
        if self.0 < PEEK1 {
            MemoryState::from(self.0 as u8)
        } else {
            MemoryState::Peeking
        }
    }

    /// Replaces the word with a plain state code; refused while borrows are
    /// outstanding.
    pub fn set_state(&mut self, val: MemoryState) -> (r: Result<(), MemoryState>)
        ensures
            old(self).raw() < PEEK1 ==> r == Ok::<(), MemoryState>(()) && final(self).raw()
                == val.code(),
            old(self).raw() >= PEEK1 ==> r == Err::<(), MemoryState>(MemoryState::Peeking)
                && *final(self) == *old(self),
    {
        if self.0 < PEEK1 {
            self.0 = u8::from(val) as u32;
            Ok(())
        } else {
            Err(MemoryState::Peeking)
        }
    }

    /// True when a borrow could be taken: `Initialized` or already
    /// borrowed — exactly the words on which [`MemoryPeek::peek_num`]
    /// succeeds.
    pub fn is_peekable(&self) -> (r: bool)
        ensures
            r == (self.state_spec() is Initialized || self.state_spec() is Peeking),
            r == self.counted_spec(),
    {
        let state = self.state();
        if state == MemoryState::Initialized || state == MemoryState::Peeking {
            true
        } else {
            false
        }
    }

    /// The borrow count, or the state when it is not one that counts
    /// borrows.
    pub fn peek_num(&self) -> (r: Result<usize, MemoryState>)
        ensures
            self.counted_spec() ==> r == Ok::<usize, MemoryState>(self.peek_num_spec() as usize),
            !self.counted_spec() ==> r == Err::<usize, MemoryState>(self.state_spec()),
    {
        if self.0 >= PEEK1 {
            Ok((self.0 - PEEK1 + 1) as usize)
        } else if self.state().is_initialized() {
            Ok(0)
        } else {
            Err(MemoryState::from(self.0 as u8))
        }
    }

    /// Adds one borrow to an `Initialized` or already borrowed word; a
    /// saturated count stays saturated.
    pub fn peek_add(&mut self) -> (r: Result<(), MemoryState>)
        ensures
            !old(self).counted_spec() ==> r == Err::<(), MemoryState>(old(self).state_spec())
                && *final(self) == *old(self),
            old(self).counted_spec() && old(self).peek_num_spec() >= PEEK_MAX ==> r
                == Ok::<(), MemoryState>(()) && *final(self) == *old(self),
            old(self).counted_spec() && old(self).peek_num_spec() < PEEK_MAX ==> r
                == Ok::<(), MemoryState>(())
                && final(self).counted_spec()
                && final(self).peek_num_spec() == old(self).peek_num_spec() + 1,
    {
        let peek_num = match self.peek_num() {
            Ok(n) => n,
            Err(state) => {
                return Err(state);
            },
        };
        if peek_num >= PEEK_MAX as usize {
            return Ok(());
        }
        if peek_num == 0 {
            self.0 = PEEK1;
        } else {
            self.0 = self.0 + 1;
        }
        Ok(())
    }

    /// Removes one borrow; a zero or saturated count is left alone, and the
    /// last borrow returns the word to plain `Initialized`.
    pub fn peek_sub(&mut self) -> (r: Result<(), MemoryState>)
        ensures
            !old(self).counted_spec() ==> r == Err::<(), MemoryState>(old(self).state_spec())
                && *final(self) == *old(self),
            old(self).counted_spec()
                && (old(self).peek_num_spec() >= PEEK_MAX || old(self).peek_num_spec() == 0) ==> r
                == Ok::<(), MemoryState>(()) && *final(self) == *old(self),
            old(self).counted_spec() && 0 < old(self).peek_num_spec() < PEEK_MAX ==> r
                == Ok::<(), MemoryState>(())
                && final(self).counted_spec()
                && final(self).peek_num_spec() == old(self).peek_num_spec() - 1,
    {
        let peek_num = match self.peek_num() {
            Ok(n) => n,
            Err(state) => {
                return Err(state);
            },
        };
        if peek_num >= PEEK_MAX as usize || peek_num == 0 {
            return Ok(());
        }
        if peek_num == 1 {
            self.0 = 2;
        } else {
            self.0 = self.0 - 1;
        }
        Ok(())
    }
}

impl core::convert::From<MemoryState> for MemoryPeek {
    fn from(s: MemoryState) -> (r: MemoryPeek) {
        Self(u8::from(s) as u32)
    }
}

impl vstd::std_specs::convert::FromSpecImpl<MemoryState> for MemoryPeek {
    open spec fn obeys_from_spec() -> bool {
        true
    }

    open spec fn from_spec(s: MemoryState) -> MemoryPeek {
        MemoryPeek::from_raw(s.code() as u32)
    }
}

impl core::convert::From<u32> for MemoryPeek {
    fn from(s: u32) -> (r: MemoryPeek) {
        Self(s)
    }
}

impl vstd::std_specs::convert::FromSpecImpl<u32> for MemoryPeek {
    open spec fn obeys_from_spec() -> bool {
        true
    }

    open spec fn from_spec(s: u32) -> MemoryPeek {
        MemoryPeek::from_raw(s)
    }
}

impl core::convert::From<MemoryPeek> for u32 {
    fn from(s: MemoryPeek) -> (r: u32) {
        s.0
    }
}

impl vstd::std_specs::convert::FromSpecImpl<MemoryPeek> for u32 {
    open spec fn obeys_from_spec() -> bool {
        true
    }

    open spec fn from_spec(s: MemoryPeek) -> u32 {
        s.raw()
    }
}

/// Packing a raw value and reading it back are inverse to each other.
pub proof fn lemma_peek_from_raw()
    ensures
        forall|s: u32| (#[trigger] MemoryPeek::from_raw(s)).raw() == s,
        forall|w: MemoryPeek| MemoryPeek::from_raw(#[trigger] w.raw()) == w,
{
}

} // verus!
