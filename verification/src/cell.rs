//! A single-slot container that multiplexes initialization, shared
//! borrowing, and exclusive removal or replacement of one value through one
//! packed state word.
//!
//! Every operation comes as a single-attempt `try_*` form; the convenience
//! forms complete the bookkeeping around one attempt. A caller that holds
//! exclusive access cannot wait out a transient condition of its own making,
//! so the convenience forms hand a transient error back instead of spinning
//! on it.
//!
//! Removal while borrows are live is deferred: `try_take` and `try_replace`
//! only announce it and fail transiently; whichever borrow is released last
//! performs the removal and hands the value out of [`Cell::release`].

use vstd::prelude::*;
use crate::error::Error;
use crate::op::{MemoryOp, Op};
use crate::peek::{MemoryPeek, PEEK1, PEEK_MAX};
use crate::state::MemoryState;

verus! {


/// What one `try_set` / `set` attempt does: it succeeds exactly on an
/// empty cell, installs its input there, and leaves a filled cell alone.
pub open spec fn set_outcome<T>(pre: Cell<T>, input: T, post: Cell<T>, ok: bool) -> bool {
    &&& (ok <==> pre.value_spec() is None)
    &&& (pre.value_spec() is None ==> post.value_spec() == Some(input) && post.refs_spec() == 0
        && !post.pending_spec())
    &&& (pre.value_spec() is Some ==> post == pre)
}

/// What one `try_get` / `get` attempt does: it succeeds exactly on a
/// filled cell with no pending removal, adding one borrow (saturating),
/// and changes nothing when it fails.
pub open spec fn get_outcome<T>(pre: Cell<T>, post: Cell<T>, ok: bool) -> bool {
    &&& (ok <==> !pre.pending_spec() && pre.value_spec() is Some)
    &&& (!ok ==> post == pre)
    &&& (ok ==> post.value_spec() == pre.value_spec() && !post.pending_spec() && (pre.refs_spec()
        < PEEK_MAX ==> post.refs_spec() == pre.refs_spec() + 1) && (pre.refs_spec() >= PEEK_MAX
        ==> post == pre))
}

/// What one `try_take` / `take` attempt does: an empty cell yields
/// `Ok(None)`, an unborrowed value is taken out, and a borrowed one is
/// only marked for removal.
pub open spec fn take_outcome<T>(pre: Cell<T>, post: Cell<T>, r: Result<
    Option<T>,
    Error<()>,
>) -> bool {
    &&& (pre.value_spec() is None ==> r == Ok::<Option<T>, Error<()>>(None) && post == pre)
    &&& (pre.value_spec() is Some && pre.refs_spec() == 0 ==> r == Ok::<Option<T>, Error<()>>(
        pre.value_spec(),
    ) && post.value_spec() is None && post.refs_spec() == 0 && !post.pending_spec())
    &&& (pre.refs_spec() >= 1 ==> r is Err && post.value_spec() == pre.value_spec()
        && post.refs_spec() == pre.refs_spec() && post.pending_spec())
}

/// What one `release` does: the last borrow with a pending removal carries
/// the removal out and yields the value; any other borrow just comes off
/// the count (zero and saturated counts are left alone).
pub open spec fn release_outcome<T>(pre: Cell<T>, post: Cell<T>, r: Option<T>) -> bool {
    &&& (pre.refs_spec() == 0 ==> r is None && post == pre)
    &&& (pre.refs_spec() == 1 && pre.pending_spec() ==> r == pre.value_spec() && post.value_spec()
        is None && post.refs_spec() == 0 && !post.pending_spec())
    &&& (pre.refs_spec() == 1 && !pre.pending_spec() ==> r is None && post.value_spec()
        == pre.value_spec() && post.refs_spec() == 0 && !post.pending_spec())
    &&& (2 <= pre.refs_spec() < PEEK_MAX ==> r is None && post.value_spec() == pre.value_spec()
        && post.refs_spec() == pre.refs_spec() - 1 && post.pending_spec() == pre.pending_spec())
    &&& (pre.refs_spec() >= PEEK_MAX ==> r is None && post == pre)
}

/// A borrow of a cell's value: one unit of the packed borrow count.
///
/// The token is handed out by [`Cell::try_get`] and its relatives and given
/// back through [`Cell::release`]; while it is held, the cell refuses
/// exclusive operations and defers removal.
#[derive(Debug)]
pub struct Ref {
    _private: (),
}

/// The single-slot container: the value, the packed state word holding the
/// borrow count, and the operation word holding the pending-removal flag.
pub struct Cell<T> {
    val: Option<T>,
    state: MemoryPeek,
    op: MemoryOp,
}

impl<T> Cell<T> {
    /// The value the cell holds, if any.
    pub closed spec fn value_spec(&self) -> Option<T> {
        self.val
    }

    /// How many borrows are outstanding.
    pub closed spec fn refs_spec(&self) -> u32 {
        self.state.peek_num_spec()
    }

    /// Whether a removal has been announced and waits for the last borrow.
    pub closed spec fn pending_spec(&self) -> bool {
        self.op.op_spec() == Op::Remove
    }

    /// Well-formedness: the state word is at rest (empty, plain initialized,
    /// or initialized with borrows), the value is present exactly when the
    /// word says so, and a pending removal always has a borrow to finish it.
    pub closed spec fn wf(&self) -> bool {
        &&& (self.state.raw() == 0 || self.state.raw() == 2 || self.state.raw() >= PEEK1)
        &&& (self.state.raw() == 0 <==> self.val is None)
        &&& (self.pending_spec() ==> self.state.raw() >= PEEK1)
        &&& (self.pending_spec() <==> !self.op.is_finished_spec())
        &&& (self.op.op_spec() == Op::Idle || self.op.op_spec() == Op::Remove)
    }

    /// An empty cell.
    pub fn new() -> (r: Self)
        ensures
            r.wf(),
            r.value_spec() is None,
            r.refs_spec() == 0,
            !r.pending_spec(),
    {
        Cell { val: None, state: MemoryPeek::new(), op: MemoryOp::new() }
    }

    /// A cell that already holds `init`.
    pub fn new_with(init: T) -> (r: Self)
        ensures
            r.wf(),
            r.value_spec() == Some(init),
            r.refs_spec() == 0,
            !r.pending_spec(),
    {
        let mut state = MemoryPeek::new();
        let _ = state.set_state(MemoryState::Initialized);
        Cell { val: Some(init), state, op: MemoryOp::new() }
    }

    /// True when the cell holds a value (with or without borrows).
    pub fn is_initialized(&self) -> (r: bool)
        requires
            self.wf(),
        ensures
            r == (self.value_spec() is Some),
    {
        self.state.is_peekable()
    }

    /// The borrow count, or `Uninitialized` when the cell is empty.
    pub fn ref_num(&self) -> (r: Result<usize, MemoryState>)
        requires
            self.wf(),
        ensures
            self.value_spec() is Some ==> r == Ok::<usize, MemoryState>(
                self.refs_spec() as usize,
            ),
            self.value_spec() is None ==> r == Err::<usize, MemoryState>(
                MemoryState::Uninitialized,
            ),
    {
        self.state.peek_num()
    }

    /// True when a removal has been announced and not yet carried out.
    pub fn will_remove(&self) -> (r: bool)
        ensures
            r == self.pending_spec(),
    {
        self.op.op() == Op::Remove
    }

    /// A reference to the value.
    pub fn peek(&self) -> (r: &T)
        requires
            self.wf(),
            self.value_spec() is Some,
        ensures
            *r == self.value_spec().unwrap(),
    {
        self.val.as_ref().unwrap()
    }

    /// Announces that the value should be removed once every borrow is
    /// released; `guard` witnesses that a borrow is outstanding.
    pub fn remove(&mut self, guard: &Ref)
        requires
            old(self).wf(),
            old(self).refs_spec() >= 1,
        ensures
            final(self).wf(),
            final(self).pending_spec(),
            final(self).value_spec() == old(self).value_spec(),
            final(self).refs_spec() == old(self).refs_spec(),
    {
        let _ = guard;
        let mut op = self.op;
        if op.is_finished() {
            let _ = self.op.set_op(Op::Remove);
        }
    }

    /// Stores `value` into an empty cell.
    ///
    /// Fails permanently when a value is already there, borrowed or not; the
    /// input comes back inside the error.
    pub fn try_set(&mut self, value: T) -> (r: Result<(), Error<T>>)
        requires
            old(self).wf(),
        ensures
            final(self).wf(),
            set_outcome(*old(self), value, *final(self), r is Ok),
            r is Ok <==> old(self).value_spec() is None,
            old(self).value_spec() is None ==> final(self).value_spec() == Some(value) && final(self).refs_spec() == 0 && !final(self).pending_spec(),
            old(self).value_spec() is Some ==> *final(self) == *old(self),
            r matches Err(e) ==> e.input == value && e.retry == false && e.state == (if old(self).refs_spec() >= 1 {
                MemoryState::Peeking
            } else {
                MemoryState::Initialized
            }),
    {
        let state = self.state.state();
        if state.is_uninitialized() {
            self.val = Some(value);
            let _ = self.state.set_state(MemoryState::Initialized);
            Ok(())
        } else {
            Err(Error { state, input: value, retry: state.is_erasing() })
        }
    }

    /// The convenience form of [`Cell::try_set`]: one attempt, since no
    /// transient state can clear while the caller holds the cell.
    pub fn set(&mut self, value: T) -> (r: Result<(), Error<T>>)
        requires
            old(self).wf(),
        ensures
            final(self).wf(),
            set_outcome(*old(self), value, *final(self), r is Ok),
            r is Ok <==> old(self).value_spec() is None,
            old(self).value_spec() is None ==> final(self).value_spec() == Some(value) && final(self).refs_spec() == 0 && !final(self).pending_spec(),
            old(self).value_spec() is Some ==> *final(self) == *old(self),
            r matches Err(e) ==> e.input == value && e.retry == false && e.state == (if old(self).refs_spec() >= 1 {
                MemoryState::Peeking
            } else {
                MemoryState::Initialized
            }),
    {
        self.try_set(value)
    }

    /// Borrows the value: increments the borrow count and hands out a
    /// [`Ref`].
    ///
    /// Fails permanently on an empty cell; fails transiently while a
    /// removal is pending, since new borrows are refused once removal has
    /// been announced.
    pub fn try_get(&mut self) -> (r: Result<Ref, Error<()>>)
        requires
            old(self).wf(),
        ensures
            final(self).wf(),
            get_outcome(*old(self), *final(self), r is Ok),
            old(self).pending_spec() ==> (r matches Err(e) && e.state == MemoryState::Unknown
                && e.retry == true && *final(self) == *old(self)),
            !old(self).pending_spec() && old(self).value_spec() is None ==> (r matches Err(e)
                && e.state == MemoryState::Uninitialized && e.retry == false && *final(self)
                == *old(self)),
            !old(self).pending_spec() && old(self).value_spec() is Some ==> r is Ok && final(self).value_spec() == old(self).value_spec() && !final(self).pending_spec(),
            !old(self).pending_spec() && old(self).value_spec() is Some && old(self).refs_spec()
                < PEEK_MAX ==> final(self).refs_spec() == old(self).refs_spec() + 1,
            !old(self).pending_spec() && old(self).value_spec() is Some && old(self).refs_spec()
                >= PEEK_MAX ==> *final(self) == *old(self),
    {
        let mut op = self.op;
        if !op.is_finished() {
            return Err(Error { state: MemoryState::Unknown, input: (), retry: true });
        }
        match self.state.peek_add() {
            Ok(()) => Ok(Ref { _private: () }),
            Err(state) => Err(Error { state, input: (), retry: state.is_initializing() }),
        }
    }

    /// The convenience form of [`Cell::try_get`]: one attempt, since no
    /// transient state can clear while the caller holds the cell.
    pub fn get(&mut self) -> (r: Result<Ref, Error<()>>)
        requires
            old(self).wf(),
        ensures
            final(self).wf(),
            get_outcome(*old(self), *final(self), r is Ok),
            old(self).pending_spec() ==> r is Err && *final(self) == *old(self),
            !old(self).pending_spec() && old(self).value_spec() is None ==> (r matches Err(e)
                && e.state == MemoryState::Uninitialized && e.retry == false && *final(self)
                == *old(self)),
            !old(self).pending_spec() && old(self).value_spec() is Some ==> r is Ok && final(self).value_spec() == old(self).value_spec() && !final(self).pending_spec(),
            !old(self).pending_spec() && old(self).value_spec() is Some && old(self).refs_spec()
                < PEEK_MAX ==> final(self).refs_spec() == old(self).refs_spec() + 1,
            !old(self).pending_spec() && old(self).value_spec() is Some && old(self).refs_spec()
                >= PEEK_MAX ==> *final(self) == *old(self),
    {
        self.try_get()
    }

    /// Takes the value out, leaving the cell empty.
    ///
    /// An empty cell gives `Ok(None)`. While borrows are outstanding the
    /// value cannot be read out: the call announces the removal and fails
    /// transiently; whichever borrow is released last finishes it.
    pub fn try_take(&mut self) -> (r: Result<Option<T>, Error<()>>)
        requires
            old(self).wf(),
        ensures
            final(self).wf(),
            take_outcome(*old(self), *final(self), r),
            old(self).value_spec() is None ==> r == Ok::<Option<T>, Error<()>>(None) && *final(self) == *old(self),
            old(self).value_spec() is Some && old(self).refs_spec() == 0 ==> r == Ok::<
                Option<T>,
                Error<()>,
            >(old(self).value_spec()) && final(self).value_spec() is None && final(self).refs_spec() == 0 && !final(self).pending_spec(),
            old(self).refs_spec() >= 1 ==> (r matches Err(e) && e.state == MemoryState::Peeking
                && e.retry == true && final(self).value_spec() == old(self).value_spec() && final(self).refs_spec() == old(self).refs_spec() && final(self).pending_spec()),
    {
        let n = match self.state.peek_num() {
            Ok(n) => n,
            Err(_) => {
                return Ok(None);
            },
        };
        if n == 0 {
            let ret = self.val.take();
            let _ = self.state.set_state(MemoryState::Uninitialized);
            Ok(ret)
        } else {
            let mut op = self.op;
            if op.is_finished() {
                let _ = self.op.set_op(Op::Remove);
            }
            Err(Error { state: self.state.state(), input: (), retry: true })
        }
    }

    /// The convenience form of [`Cell::try_take`]: one attempt, since a
    /// deferred removal can only be finished by whoever holds the borrows.
    pub fn take(&mut self) -> (r: Result<Option<T>, Error<()>>)
        requires
            old(self).wf(),
        ensures
            final(self).wf(),
            take_outcome(*old(self), *final(self), r),
            old(self).value_spec() is None ==> r == Ok::<Option<T>, Error<()>>(None) && *final(self) == *old(self),
            old(self).value_spec() is Some && old(self).refs_spec() == 0 ==> r == Ok::<
                Option<T>,
                Error<()>,
            >(old(self).value_spec()) && final(self).value_spec() is None && final(self).refs_spec() == 0 && !final(self).pending_spec(),
            old(self).refs_spec() >= 1 ==> r is Err && final(self).value_spec() == old(self).value_spec() && final(self).refs_spec() == old(self).refs_spec() && final(self).pending_spec(),
    {
        self.try_take()
    }

    /// Replaces the value, returning the old one.
    ///
    /// An empty cell is filled (returning `Ok(None)`). While borrows are
    /// outstanding the call behaves like [`Cell::try_take`]: it announces
    /// the removal and fails transiently, carrying `value` back to the
    /// caller.
    pub fn try_replace(&mut self, value: T) -> (r: Result<Option<T>, Error<T>>)
        requires
            old(self).wf(),
        ensures
            final(self).wf(),
            old(self).refs_spec() == 0 ==> r == Ok::<Option<T>, Error<T>>(old(self).value_spec())
                && final(self).value_spec() == Some(value) && final(self).refs_spec() == 0
                && !final(self).pending_spec(),
            old(self).refs_spec() >= 1 ==> (r matches Err(e) && e.state == MemoryState::Peeking
                && e.input == value && e.retry == true && final(self).value_spec() == old(self).value_spec() && final(self).refs_spec() == old(self).refs_spec() && final(self).pending_spec()),
    {
        let n = match self.state.peek_num() {
            Ok(n) => n,
            Err(_) => {
                self.val = Some(value);
                let _ = self.state.set_state(MemoryState::Initialized);
                return Ok(None);
            },
        };
        if n == 0 {
            let ret = self.val.take();
            self.val = Some(value);
            Ok(ret)
        } else {
            let mut op = self.op;
            if op.is_finished() {
                let _ = self.op.set_op(Op::Remove);
            }
            Err(Error { state: self.state.state(), input: value, retry: true })
        }
    }

    /// The convenience form of [`Cell::try_replace`]: one attempt, since a
    /// deferred removal can only be finished by whoever holds the borrows.
    pub fn replace(&mut self, value: T) -> (r: Result<Option<T>, Error<T>>)
        requires
            old(self).wf(),
        ensures
            final(self).wf(),
            old(self).refs_spec() == 0 ==> r == Ok::<Option<T>, Error<T>>(old(self).value_spec())
                && final(self).value_spec() == Some(value) && final(self).refs_spec() == 0
                && !final(self).pending_spec(),
            old(self).refs_spec() >= 1 ==> (r matches Err(e) && e.input == value && final(self).value_spec() == old(self).value_spec() && final(self).refs_spec() == old(self).refs_spec() && final(self).pending_spec()),
    {
        self.try_replace(value)
    }

    /// Borrows the value, initializing an empty cell with `value` first.
    ///
    /// Fails transiently while a removal is pending, carrying `value` back.
    pub fn get_or_try_init(&mut self, value: T) -> (r: Result<Ref, Error<T>>)
        requires
            old(self).wf(),
        ensures
            final(self).wf(),
            old(self).value_spec() is None ==> r is Ok && final(self).value_spec() == Some(value)
                && final(self).refs_spec() == 1 && !final(self).pending_spec(),
            old(self).pending_spec() ==> (r matches Err(e) && e.input == value && e.state
                == MemoryState::Unknown && e.retry == true && *final(self) == *old(self)),
            !old(self).pending_spec() && old(self).value_spec() is Some ==> r is Ok && final(self).value_spec() == old(self).value_spec() && !final(self).pending_spec(),
            !old(self).pending_spec() && old(self).value_spec() is Some && old(self).refs_spec()
                < PEEK_MAX ==> final(self).refs_spec() == old(self).refs_spec() + 1,
            !old(self).pending_spec() && old(self).value_spec() is Some && old(self).refs_spec()
                >= PEEK_MAX ==> *final(self) == *old(self),
    {
        let state = self.state.state();
        if state.is_uninitialized() {
            self.val = Some(value);
            let _ = self.state.set_state(MemoryState::Initialized);
            let _ = self.state.peek_add();
            Ok(Ref { _private: () })
        } else {
            match self.try_get() {
                Ok(r) => Ok(r),
                Err(e) => Err(Error { state: e.state, input: value, retry: e.retry }),
            }
        }
    }

    /// The convenience form of [`Cell::get_or_try_init`]; without a pending
    /// removal it cannot fail.
    pub fn get_or_init(&mut self, value: T) -> (r: Ref)
        requires
            old(self).wf(),
            !old(self).pending_spec(),
        ensures
            final(self).wf(),
            old(self).value_spec() is None ==> final(self).value_spec() == Some(value) && final(self).refs_spec() == 1 && !final(self).pending_spec(),
            old(self).value_spec() is Some ==> final(self).value_spec() == old(self).value_spec()
                && !final(self).pending_spec(),
            old(self).value_spec() is Some && old(self).refs_spec() < PEEK_MAX ==> final(self).refs_spec() == old(self).refs_spec() + 1,
            old(self).value_spec() is Some && old(self).refs_spec() >= PEEK_MAX ==> *final(self)
                == *old(self),
    {
        match self.get_or_try_init(value) {
            Ok(r) => r,
            Err(_) => vstd::pervasive::unreached(),
        }
    }

    /// Gives a borrow back. If it was the last one and a removal is
    /// pending, this performs the removal: the cell is reset to empty and
    /// the value is handed out (anywhere else it would be dropped here).
    ///
    /// A zero count (a stray token) and a saturated count are left alone.
    pub fn release(&mut self, guard: Ref) -> (r: Option<T>)
        requires
            old(self).wf(),
        ensures
            final(self).wf(),
            release_outcome(*old(self), *final(self), r),
            old(self).refs_spec() == 0 ==> r is None && *final(self) == *old(self),
            old(self).refs_spec() == 1 && old(self).pending_spec() ==> r == old(self).value_spec()
                && final(self).value_spec() is None && final(self).refs_spec() == 0 && !final(self).pending_spec(),
            old(self).refs_spec() == 1 && !old(self).pending_spec() ==> r is None && final(self).value_spec() == old(self).value_spec() && final(self).refs_spec() == 0 && !final(self).pending_spec(),
            2 <= old(self).refs_spec() < PEEK_MAX ==> r is None && final(self).value_spec() == old(self).value_spec() && final(self).refs_spec() == old(self).refs_spec() - 1 && final(self).pending_spec() == old(self).pending_spec(),
            old(self).refs_spec() >= PEEK_MAX ==> r is None && *final(self) == *old(self),
    {
        let _ = guard;
        let will_drop = self.will_remove();
        let n = match self.state.peek_num() {
            Ok(n) => n,
            Err(_) => {
                return None;
            },
        };
        if n == 1 && will_drop {
            let ret = self.val.take();
            self.state = MemoryPeek::new();
            self.op.finish();
            ret
        } else {
            let _ = self.state.peek_sub();
            None
        }
    }
}


/// Each entry negated: the releases of an op sequence, seen as gets.
pub open spec fn flip(ops: Seq<bool>) -> Seq<bool> {
    ops.map_values(|b: bool| !b)
}

/// How many of the first `k` entries of `ops` are true.
pub open spec fn count_true(ops: Seq<bool>, k: int) -> int
    decreases k,
{
    if k <= 0 {
        0
    } else {
        count_true(ops, k - 1) + if ops[k - 1] {
            1int
        } else {
            0int
        }
    }
}

/// Single-winner initialization: however many callers attempt `try_set`
/// on one cell that starts empty, exactly the first attempt succeeds —
/// the winner installs its value, and every later attempt fails and
/// leaves the cell unchanged.
///
/// `cells` are the states the cell moves through and `oks[i]` whether the
/// `i`-th attempt returned `Ok`, as `try_set`'s contract states them.
pub proof fn lemma_single_winner<T>(
    cells: Seq<Cell<T>>,
    inputs: Seq<T>,
    oks: Seq<bool>,
    i: int,
)
    requires
        cells.len() == inputs.len() + 1,
        oks.len() == inputs.len(),
        cells[0].value_spec() is None,
        forall|k: int| #![trigger oks[k]] 0 <= k < oks.len() ==> set_outcome(
            cells[k],
            inputs[k],
            cells[k + 1],
            oks[k],
        ),
        0 <= i < oks.len(),
    ensures
        oks[i] <==> i == 0,
        oks.len() > 0 ==> cells.last().value_spec() == Some(inputs[0]),
    decreases i,
{
    if i == 0 {
        assert(set_outcome(cells[0], inputs[0], cells[1], oks[0]));
        lemma_filled_stays_filled(cells, inputs, oks, oks.len() as int);
    } else {
        lemma_single_winner(cells, inputs, oks, i - 1);
        lemma_filled_stays_filled(cells, inputs, oks, i);
        assert(set_outcome(cells[i], inputs[i], cells[i + 1], oks[i]));
    }
}

/// Once a winning set has filled the cell, it stays filled with the
/// winning value through every further failed attempt.
proof fn lemma_filled_stays_filled<T>(
    cells: Seq<Cell<T>>,
    inputs: Seq<T>,
    oks: Seq<bool>,
    k: int,
)
    requires
        cells.len() == inputs.len() + 1,
        oks.len() == inputs.len(),
        cells[0].value_spec() is None,
        forall|j: int| #![trigger oks[j]] 0 <= j < oks.len() ==> set_outcome(
            cells[j],
            inputs[j],
            cells[j + 1],
            oks[j],
        ),
        1 <= k <= oks.len(),
    ensures
        cells[k].value_spec() == Some(inputs[0]),
    decreases k,
{
    if k == 1 {
        assert(set_outcome(cells[0], inputs[0], cells[1], oks[0]));
    } else {
        lemma_filled_stays_filled(cells, inputs, oks, k - 1);
        assert(set_outcome(cells[k - 1], inputs[k - 1], cells[k], oks[k - 1]));
    }
}

/// Borrow balance: starting from a filled, unborrowed cell with no
/// pending removal, any interleaving of `get` and `release` in which no
/// prefix releases more than it got, and which never accumulates enough
/// borrows to saturate the count, ends with the borrow count back at the
/// difference of the two totals; when the counts match, the count is back
/// at zero, the value is untouched, and a `take` then succeeds.
///
/// `ops[i]` is true for a `get` and false for a `release`; `cells` are
/// the states in between, as the two contracts state them.
pub proof fn lemma_borrow_balance<T>(cells: Seq<Cell<T>>, ops: Seq<bool>, rs: Seq<Option<T>>, k: int)
    requires
        cells.len() == ops.len() + 1,
        rs.len() == ops.len(),
        cells[0].value_spec() is Some,
        cells[0].refs_spec() == 0,
        !cells[0].pending_spec(),
        forall|j: int| #![trigger ops[j]] 0 <= j < ops.len() && ops[j] ==> get_outcome(
            cells[j],
            cells[j + 1],
            true,
        ),
        forall|j: int| #![trigger rs[j]] 0 <= j < ops.len() && !ops[j] ==> release_outcome(
            cells[j],
            cells[j + 1],
            rs[j],
        ),
        forall|j: int| 0 <= j <= ops.len() ==> #[trigger] count_true(flip(ops), j) <= count_true(
            ops,
            j,
        ),
        count_true(ops, ops.len() as int) < PEEK_MAX,
        0 <= k <= ops.len(),
    ensures
        cells[k].value_spec() == cells[0].value_spec(),
        !cells[k].pending_spec(),
        cells[k].refs_spec() == count_true(ops, k) - count_true(flip(ops), k),
        k == ops.len() && count_true(ops, k) == count_true(flip(ops), k) ==> cells[k].refs_spec()
            == 0,
    decreases k,
{
    let gets = |j: int| count_true(ops, j);
    let rels = |j: int| count_true(flip(ops), j);
    if k > 0 {
        lemma_borrow_balance(cells, ops, rs, k - 1);
        lemma_count_true_monotonic(ops, 0, k - 1);
        lemma_count_true_monotonic(ops, k, ops.len() as int);
        assert(flip(ops)[k - 1] == !ops[k - 1]);
        if ops[k - 1] {
            assert(get_outcome(cells[k - 1], cells[k], true));
            lemma_count_true_monotonic(ops, k - 1, ops.len() as int);
        } else {
            assert(release_outcome(cells[k - 1], cells[k], rs[k - 1]));
            assert(rels(k) == rels(k - 1) + 1);
            assert(rels(k) <= gets(k));
            lemma_count_true_monotonic(ops, k - 1, ops.len() as int);
        }
    }
}

/// The prefix counts only grow with the prefix.
proof fn lemma_count_true_monotonic(ops: Seq<bool>, j: int, k: int)
    requires
        0 <= j <= k,
    ensures
        count_true(ops, j) <= count_true(ops, k),
        count_true(flip(ops), j) <= count_true(flip(ops), k),
    decreases k - j,
{
    if j < k {
        lemma_count_true_monotonic(ops, j, k - 1);
    }
}

/// Deferred destruction: a `take` (or `replace`) that finds `n` live
/// borrows does not touch the value, only marks it; the next `n - 1`
/// releases still hand back nothing and keep the value alive; the last
/// release alone carries the value out, leaving the cell empty — so the
/// value leaves the cell exactly once.
///
/// `cells[0]` is the state right after the deferring take, `rs[i]` what
/// the `i`-th release returned, as the two contracts state them.
pub proof fn lemma_deferred_destruction<T>(cells: Seq<Cell<T>>, rs: Seq<Option<T>>, k: int)
    requires
        cells.len() == rs.len() + 1,
        rs.len() == cells[0].refs_spec(),
        1 <= cells[0].refs_spec() < PEEK_MAX,
        cells[0].value_spec() is Some,
        cells[0].pending_spec(),
        forall|j: int| #![trigger rs[j]] 0 <= j < rs.len() ==> release_outcome(
            cells[j],
            cells[j + 1],
            rs[j],
        ),
        0 <= k <= rs.len(),
    ensures
        k < rs.len() ==> cells[k].value_spec() == cells[0].value_spec() && cells[k].pending_spec()
            && cells[k].refs_spec() == cells[0].refs_spec() - k,
        k > 0 && k < rs.len() ==> rs[k - 1] is None,
        k == rs.len() ==> rs[k - 1] == cells[0].value_spec() && cells[k].value_spec() is None
            && cells[k].refs_spec() == 0 && !cells[k].pending_spec(),
    decreases k,
{
    if k > 0 {
        lemma_deferred_destruction(cells, rs, k - 1);
        assert(release_outcome(cells[k - 1], cells[k], rs[k - 1]));
    }
}

} // verus!
