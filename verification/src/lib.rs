//! Allocation-free sharing primitives: a single-slot cell and a
//! fixed-capacity ring, both driven by packed state words that encode a
//! small state machine (and, above a threshold, a borrow or reuse-cycle
//! count) in one integer, so that every operation turns on a single word
//! and a transition either completes or hands its input back in an error.

pub mod cell;
pub mod cycle;
pub mod error;
pub mod group;
pub mod op;
mod packing;
pub mod peek;
pub mod refer;
pub mod ring;
pub mod state;

pub use cell::{Cell, Ref};
pub use cycle::MemoryRing;
pub use error::{retry, Error};
pub use group::MemoryGroup;
pub use op::{MemoryOp, Op};
pub use peek::MemoryPeek;
pub use refer::MemoryRefer;
pub use ring::Ring;
pub use state::MemoryState;
