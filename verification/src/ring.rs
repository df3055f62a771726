//! A fixed-capacity circular queue over `N` slots, each tagged with a
//! packed (cycle, state) word, plus two monotonically increasing cursors
//! over a wraparound domain.
//!
//! The cursor domain is the largest multiple of `N * CYCLE_MAX` that fits
//! in `usize`, so a cursor value always splits into a slot index (cursor
//! modulo `N`) and a reuse cycle (cursor divided by `N`), and the cursors
//! wrap cleanly back to zero. A slot's stored cycle disambiguates the
//! current lap from stale state left by a previous lap.

use vstd::prelude::*;
use vstd::pervasive::VecAdditionalExecFns;
use crate::cycle::{ring_order, MemoryRing, CYCLE_MAX};
use crate::error::Error;
use crate::state::MemoryState;

verus! {

/// The size of the cursor domain for a ring of `n` slots.
pub open spec fn wrap_domain(n: int) -> int {
    (usize::MAX as int / (n * CYCLE_MAX)) * (n * CYCLE_MAX)
}

/// The cursor value `j` steps after `start` in a domain of size `w`.
pub open spec fn posf(start: int, j: int, w: int) -> int {
    if start + j < w {
        start + j
    } else {
        start + j - w
    }
}

/// The fixed-capacity circular queue.
pub struct Ring<T, const N: usize> {
    buf: Vec<Option<T>>,
    /// Always points at the first live element.
    start: usize,
    end: usize,
    ops: Vec<MemoryRing>,
}

impl<T, const N: usize> Ring<T, N> {
    /// The cursor domain size for this capacity.
    pub closed spec fn wrap(&self) -> int {
        wrap_domain(N as int)
    }

    /// How many elements are live: the cursor distance in the wraparound
    /// domain.
    pub closed spec fn len_spec(&self) -> int {
        if self.end >= self.start {
            self.end - self.start
        } else {
            self.wrap() - self.start + self.end
        }
    }

    /// The cursor value `j` steps after `start`, reduced into the domain
    /// (valid for `j <= N`, which never crosses more than one wrap).
    pub closed spec fn pos(&self, j: int) -> int {
        posf(self.start as int, j, self.wrap())
    }

    /// What the slot words and the buffer must say for window offset `j`:
    /// offsets below the length hold this lap's initialized element,
    /// offsets at or above it are empty and already carry the cycle of the
    /// position at which they will next be filled.
    pub closed spec fn slot_inv(&self, j: int) -> bool {
        let p = self.pos(j);
        let i = p % (N as int);
        &&& self.ops[i] == MemoryRing::new_spec((p / (N as int)) as nat, if j < self.len_spec() {
            MemoryState::Initialized
        } else {
            MemoryState::Uninitialized
        })
        &&& (j < self.len_spec() <==> self.buf[i] is Some)
    }

    /// Well-formedness: the capacity is positive and small enough for the
    /// cursor domain, the cursors are inside the domain and at most `N`
    /// apart, and every slot agrees with the cursors.
    pub closed spec fn wf(&self) -> bool {
        &&& 1 <= N as int
        &&& (N as int) * CYCLE_MAX <= usize::MAX
        &&& self.buf.len() == N
        &&& self.ops.len() == N
        &&& self.start < self.wrap()
        &&& self.end < self.wrap()
        &&& 0 <= self.len_spec() <= N as int
        &&& forall|j: int| 0 <= j < N as int ==> #[trigger] self.slot_inv(j)
    }
}

impl<T, const N: usize> View for Ring<T, N> {
    type V = Seq<T>;

    /// The live elements in queue order, oldest first.
    closed spec fn view(&self) -> Seq<T> {
        Seq::new(
            self.len_spec() as nat,
            |j: int| self.buf[self.pos(j) % (N as int)].unwrap(),
        )
    }
}

impl<T, const N: usize> Ring<T, N> {
    /// An empty ring.
    pub fn new() -> (r: Self)
        requires
            1 <= N,
            N * (CYCLE_MAX as usize) <= usize::MAX,
        ensures
            r.wf(),
            r@ == Seq::<T>::empty(),
    {
        let mut buf: Vec<Option<T>> = Vec::new();
        let mut ops: Vec<MemoryRing> = Vec::new();
        let init = MemoryRing::new(0, MemoryState::Uninitialized);
        let mut i: usize = 0;
        while i < N
            invariant
                i <= N,
                buf.len() == i,
                ops.len() == i,
                init == MemoryRing::new_spec(0, MemoryState::Uninitialized),
                forall|k: int| 0 <= k < i ==> buf[k] is None,
                forall|k: int| 0 <= k < i ==> ops[k] == init,
            decreases N - i,
        {
            buf.push(None);
            ops.push(init);
            i = i + 1;
        }
        let r = Ring { buf, start: 0, end: 0, ops };
        proof {
            lemma_wrap_domain(N as int);
            assert(N as int <= (N as int) * CYCLE_MAX) by {
                vstd::arithmetic::mul::lemma_mul_inequality(1, CYCLE_MAX as int, N as int);
                vstd::arithmetic::mul::lemma_mul_is_commutative(CYCLE_MAX as int, N as int);
            }
            assert forall|j: int| 0 <= j < N as int implies #[trigger] r.slot_inv(j) by {
                assert(r.pos(j) == j);
                vstd::arithmetic::div_mod::lemma_small_mod(j as nat, N as nat);
                vstd::arithmetic::div_mod::lemma_basic_div(j, N as int);
            }
            assert(r@ =~= Seq::<T>::empty());
        }
        r
    }

    /// The number of elements the ring can hold.
    pub fn capacity(&self) -> (r: usize)
        ensures
            r == N,
    {
        N
    }

    /// How many elements are live.
    pub fn len(&self) -> (r: usize)
        requires
            self.wf(),
        ensures
            r == self@.len(),
            r <= N,
    {
        proof {
            lemma_wrap_domain(N as int);
        }
        let wrap = MemoryRing::max_idx(N);
        if self.end >= self.start {
            self.end - self.start
        } else {
            wrap - self.start + self.end
        }
    }

    /// True when no element is live.
    pub fn is_empty(&self) -> (r: bool)
        requires
            self.wf(),
        ensures
            r == (self@.len() == 0),
    {
        self.len() == 0
    }

    /// True when every slot is live.
    pub fn is_full(&self) -> (r: bool)
        requires
            self.wf(),
        ensures
            r == (self@.len() == N),
    {
        self.len() >= N
    }

    /// Appends `value` at the back.
    ///
    /// Fails permanently with `Full` semantics when every slot is live: the
    /// slot the `end` cursor points at still holds the previous lap's
    /// initialized element, whose word sorts below the expected one.
    pub fn try_push(&mut self, value: T) -> (r: Result<(), Error<T>>)
        requires
            old(self).wf(),
        ensures
            final(self).wf(),
            old(self)@.len() < N ==> r is Ok && final(self)@ == old(self)@.push(value),
            old(self)@.len() == N ==> (r matches Err(e) && e.input == value && e.retry == false
                && e.state is Initialized && *final(self) == *old(self)),
    {
        proof {
            lemma_wrap_domain(N as int);
            assert(N as int <= (N as int) * CYCLE_MAX) by {
                vstd::arithmetic::mul::lemma_mul_inequality(1, CYCLE_MAX as int, N as int);
                vstd::arithmetic::mul::lemma_mul_is_commutative(CYCLE_MAX as int, N as int);
            }
        }
        let ghost len = self.len_spec();
        let ghost w = self.wrap();
        let wrap = MemoryRing::max_idx(N);
        let end = self.end;
        let cycle = MemoryRing::cycle_of_idx(end, N);
        let index = end % N;
        let expect = MemoryRing::new(cycle, MemoryState::Uninitialized);
        proof {
            assert(self.pos(len) == end);
            assert(self.slot_inv(len) || len == N as int);
            lemma_pos_props(self.start as int, len, w, N as int);
            lemma_new_spec_fields((end as int / N as int) as nat, MemoryState::Uninitialized);
            lemma_new_spec_fields((end as int / N as int) as nat, MemoryState::Initialized);
            if len == N as int {
                assert(self.slot_inv(0));
                lemma_next_lap(self.start as int, w, N as int);
                assert(self.pos(N as int) == end);
                assert(end as int % N as int == self.start as int % N as int);
                lemma_new_spec_fields(
                    (self.start as int / N as int) as nat,
                    MemoryState::Initialized,
                );
                vstd::arithmetic::div_mod::lemma_mod_bound(
                    self.start as int / N as int,
                    CYCLE_MAX as int,
                );
                vstd::arithmetic::div_mod::lemma_add_mod_noop(
                    self.start as int / N as int,
                    1,
                    CYCLE_MAX as int,
                );
                vstd::arithmetic::div_mod::lemma_small_mod(1, CYCLE_MAX as nat);
                lemma_order_previous_lap(
                    (self.start as int / N as int) % (CYCLE_MAX as int),
                    (end as int / N as int) % (CYCLE_MAX as int),
                    self.ops[index as int],
                    expect,
                );
            }
        }
        let op = self.ops[index];
        if op >= expect {
            proof {
                assert(len < N as int);
            }
            let next = if end == wrap - 1 {
                0
            } else {
                end + 1
            };
            self.buf.set(index, Some(value));
            self.ops.set(index, MemoryRing::new(cycle, MemoryState::Initialized));
            self.end = next;
            proof {
                let post = *self;
                let pre = *old(self);
                assert(post.len_spec() == len + 1);
                assert forall|j: int| 0 <= j < N as int implies #[trigger] post.slot_inv(j) by {
                    assert(pre.slot_inv(j));
                    assert(post.pos(j) == pre.pos(j));
                    if j != len {
                        lemma_pos_props(pre.start as int, j, w, N as int);
                        if j < len {
                            lemma_window_distinct(pre.start as int, j, len, N as int);
                        } else {
                            lemma_window_distinct(pre.start as int, len, j, N as int);
                        }
                        assert(pre.pos(j) % (N as int) != index as int);
                    }
                }
                assert(post@ =~= pre@.push(value)) by {
                    assert forall|k: int| 0 <= k < len implies post@[k] == pre@[k] by {
                        assert(pre.slot_inv(k));
                        lemma_pos_props(pre.start as int, k, w, N as int);
                        lemma_window_distinct(pre.start as int, k, len, N as int);
                    }
                }
            }
            Ok(())
        } else {
            proof {
                if len < N as int {
                    assert(ring_order(op, expect) == Some(core::cmp::Ordering::Equal));
                }
            }
            Err(Error { state: op.state(), input: value, retry: false })
        }
    }

    /// Removes and returns the element at the front.
    ///
    /// Fails permanently with `Empty` semantics when no element is live:
    /// the slot the `start` cursor points at is still uninitialized in the
    /// current cycle, so its word sorts below the expected one.
    pub fn try_pop(&mut self) -> (r: Result<T, Error<()>>)
        requires
            old(self).wf(),
        ensures
            final(self).wf(),
            old(self)@.len() > 0 ==> (r matches Ok(v) && v == old(self)@[0] && final(self)@
                == old(self)@.subrange(1, old(self)@.len() as int)),
            old(self)@.len() == 0 ==> (r matches Err(e) && e.state is Uninitialized && e.retry
                == false && *final(self) == *old(self)),
    {
        proof {
            lemma_wrap_domain(N as int);
            assert(N as int <= (N as int) * CYCLE_MAX) by {
                vstd::arithmetic::mul::lemma_mul_inequality(1, CYCLE_MAX as int, N as int);
                vstd::arithmetic::mul::lemma_mul_is_commutative(CYCLE_MAX as int, N as int);
            }
        }
        let ghost len = self.len_spec();
        let ghost w = self.wrap();
        let wrap = MemoryRing::max_idx(N);
        let start = self.start;
        let cycle = MemoryRing::cycle_of_idx(start, N);
        let index = start % N;
        let expect = MemoryRing::new(cycle, MemoryState::Initialized);
        proof {
            assert(self.slot_inv(0));
            assert(self.pos(0) == start);
            lemma_pos_props(self.start as int, 0, w, N as int);
            lemma_new_spec_fields((start as int / N as int) as nat, MemoryState::Uninitialized);
            lemma_new_spec_fields((start as int / N as int) as nat, MemoryState::Initialized);
            assert(cycle as int <= (N as int) * (cycle as int)) by {
                vstd::arithmetic::mul::lemma_mul_inequality(1, N as int, cycle as int);
                vstd::arithmetic::mul::lemma_mul_is_commutative(N as int, cycle as int);
            }
            assert(cycle as int <= start as int) by {
                vstd::arithmetic::div_mod::lemma_fundamental_div_mod(start as int, N as int);
                vstd::arithmetic::div_mod::lemma_mod_bound(start as int, N as int);
            }
        }
        let op = self.ops[index];
        if op >= expect {
            proof {
                assert(len > 0);
            }
            let mut got: Option<T> = None;
            self.buf.set_and_swap(index, &mut got);
            self.ops.set(index, MemoryRing::new(cycle + 1, MemoryState::Uninitialized));
            let next = if start == wrap - 1 {
                0
            } else {
                start + 1
            };
            self.start = next;
            proof {
                let post = *self;
                let pre = *old(self);
                assert(post.len_spec() == len - 1);
                lemma_next_lap(pre.start as int, w, N as int);
                assert forall|j: int| 0 <= j < N as int implies #[trigger] post.slot_inv(j) by {
                    assert(pre.slot_inv(j + 1) || j == N as int - 1);
                    assert(post.pos(j) == posf(pre.start as int, j + 1, w));
                    if j < N as int - 1 {
                        lemma_pos_props(pre.start as int, j + 1, w, N as int);
                        lemma_window_distinct(pre.start as int, 0, j + 1, N as int);
                        assert(post.pos(j) % (N as int) != index as int);
                    } else {
                        assert(post.pos(j) == posf(pre.start as int, N as int, w));
                    }
                }
                assert(post@ =~= pre@.subrange(1, len)) by {
                    assert forall|k: int| 0 <= k < len - 1 implies post@[k] == pre@[k + 1] by {
                        assert(pre.slot_inv(k + 1));
                        assert(post.pos(k) == posf(pre.start as int, k + 1, w));
                        lemma_pos_props(pre.start as int, k + 1, w, N as int);
                        lemma_window_distinct(pre.start as int, 0, k + 1, N as int);
                    }
                }
            }
            Ok(got.unwrap())
        } else {
            proof {
                if len > 0 {
                    assert(ring_order(op, expect) == Some(core::cmp::Ordering::Equal));
                }
            }
            Err(Error { state: op.state(), input: (), retry: false })
        }
    }

    /// The convenience form of [`Ring::try_push`]: one attempt, since a
    /// full ring cannot drain while the caller holds it.
    pub fn push(&mut self, value: T) -> (r: Result<(), Error<T>>)
        requires
            old(self).wf(),
        ensures
            final(self).wf(),
            old(self)@.len() < N ==> r is Ok && final(self)@ == old(self)@.push(value),
            old(self)@.len() == N ==> (r matches Err(e) && e.input == value && e.retry == false
                && e.state is Initialized && *final(self) == *old(self)),
    {
        self.try_push(value)
    }

    /// The convenience form of [`Ring::try_pop`]: one attempt, since an
    /// empty ring cannot fill while the caller holds it.
    pub fn pop(&mut self) -> (r: Result<T, Error<()>>)
        requires
            old(self).wf(),
        ensures
            final(self).wf(),
            old(self)@.len() > 0 ==> (r matches Ok(v) && v == old(self)@[0] && final(self)@
                == old(self)@.subrange(1, old(self)@.len() as int)),
            old(self)@.len() == 0 ==> (r matches Err(e) && e.state is Uninitialized && e.retry
                == false && *final(self) == *old(self)),
    {
        self.try_pop()
    }

    /// Drops every live element and resets the cursors and every slot word
    /// to the first cycle; meant for use with exclusive access, e.g. on
    /// teardown.
    pub fn clear(&mut self)
        requires
            old(self).wf(),
        ensures
            final(self).wf(),
            final(self)@ == Seq::<T>::empty(),
    {
        proof {
            lemma_wrap_domain(N as int);
            assert(N as int <= (N as int) * CYCLE_MAX) by {
                vstd::arithmetic::mul::lemma_mul_inequality(1, CYCLE_MAX as int, N as int);
                vstd::arithmetic::mul::lemma_mul_is_commutative(CYCLE_MAX as int, N as int);
            }
        }
        let init = MemoryRing::new(0, MemoryState::Uninitialized);
        let mut i: usize = 0;
        while i < N
            invariant
                i <= N,
                self.buf.len() == N,
                self.ops.len() == N,
                init == MemoryRing::new_spec(0, MemoryState::Uninitialized),
                forall|k: int| 0 <= k < i ==> self.buf[k] is None,
                forall|k: int| 0 <= k < i ==> self.ops[k] == init,
            decreases N - i,
        {
            self.buf.set(i, None);
            self.ops.set(i, init);
            i = i + 1;
        }
        self.start = 0;
        self.end = 0;
        proof {
            assert forall|j: int| 0 <= j < N as int implies #[trigger] self.slot_inv(j) by {
                assert(self.pos(j) == j);
                vstd::arithmetic::div_mod::lemma_small_mod(j as nat, N as nat);
                vstd::arithmetic::div_mod::lemma_basic_div(j, N as int);
            }
            assert(self@ =~= Seq::<T>::empty());
        }
    }
}



/// A well-formed ring never holds more than `N` elements; in particular,
/// whenever `is_full` answers false, a push is owed success.
pub proof fn lemma_len_bound<T, const N: usize>(r: &Ring<T, N>)
    requires
        r.wf(),
    ensures
        r@.len() <= N,
{
}

/// Pushing a batch appends it in order: after feeding `xs[0..k]` through
/// `try_push`, the contents are the old contents followed by that prefix.
///
/// `views[j]` are the ring contents between pushes, as `try_push`'s
/// contract states them.
pub proof fn lemma_push_batch<T>(views: Seq<Seq<T>>, xs: Seq<T>, k: int)
    requires
        views.len() == xs.len() + 1,
        forall|j: int| #![trigger xs[j]] 0 <= j < xs.len() ==> views[j + 1] == views[j].push(
            xs[j],
        ),
        0 <= k <= xs.len(),
    ensures
        views[k] == views[0] + xs.take(k),
    decreases k,
{
    if k == 0 {
        assert(views[0] =~= views[0] + xs.take(0));
    } else {
        lemma_push_batch(views, xs, k - 1);
        assert(views[k] == views[k - 1].push(xs[k - 1]));
        assert((views[0] + xs.take(k - 1)).push(xs[k - 1]) =~= views[0] + xs.take(k));
    }
}


/// First-in, first-out, with no loss and no duplication: feeding a batch
/// into an empty ring and then popping until empty returns exactly that
/// batch, in order.
pub proof fn lemma_fifo_order<T>(
    push_views: Seq<Seq<T>>,
    xs: Seq<T>,
    pop_views: Seq<Seq<T>>,
    popped: Seq<T>,
)
    requires
        push_views.len() == xs.len() + 1,
        push_views[0] == Seq::<T>::empty(),
        forall|j: int| #![trigger xs[j]] 0 <= j < xs.len() ==> push_views[j + 1]
            == push_views[j].push(xs[j]),
        pop_views.len() == popped.len() + 1,
        pop_views[0] == push_views.last(),
        pop_chain(pop_views, popped),
        pop_views.last().len() == 0,
    ensures
        popped == xs,
{
    lemma_push_batch(push_views, xs, xs.len() as int);
    assert(xs.take(xs.len() as int) =~= xs);
    assert(push_views.last() == Seq::<T>::empty() + xs);
    assert(Seq::<T>::empty() + xs =~= xs);
    lemma_drain(pop_views, popped, popped.len() as int);
    assert(popped =~= xs);
}

/// One step of draining: `popped[j]` came off the front of `views[j]`,
/// as `try_pop`'s contract states it.
pub open spec fn pop_chain<T>(views: Seq<Seq<T>>, popped: Seq<T>) -> bool {
    forall|j: int| #![trigger popped[j]] 0 <= j < popped.len() ==> views[j].len() > 0
        && popped[j] == views[j][0] && views[j + 1] == views[j].subrange(
        1,
        views[j].len() as int,
    )
}

/// Draining the ring loses nothing and duplicates nothing: popping until
/// empty returns exactly the contents, in order, each element once.
///
/// `views[j]` are the ring contents between pops and `popped[j]` what the
/// `j`-th `try_pop` returned, as its contract states them.
pub proof fn lemma_drain<T>(views: Seq<Seq<T>>, popped: Seq<T>, k: int)
    requires
        views.len() == popped.len() + 1,
        pop_chain(views, popped),
        views.last().len() == 0,
        0 <= k <= popped.len(),
    ensures
        k <= views[0].len(),
        views[k].len() == views[0].len() - k,
        views[k] =~= views[0].skip(k),
        popped.take(k) =~= views[0].take(k),
        k == popped.len() ==> popped =~= views[0],
    decreases k,
{
    if k == 0 {
        assert(views[0] =~= views[0].skip(0));
    } else {
        lemma_drain(views, popped, k - 1);
        assert(popped[k - 1] == views[k - 1][0]);
        assert(views[k - 1].len() > 0);
        assert(views[k] == views[k - 1].subrange(1, views[k - 1].len() as int));
        assert(views[k].len() == views[k - 1].len() - 1);
        assert(views[k - 1] == views[0].skip(k - 1));
        assert(views[k] =~= views[0].skip(k)) by {
            assert forall|i: int| 0 <= i < views[k].len() implies views[k][i] == views[0].skip(
                k,
            )[i] by {
                assert(views[k - 1].subrange(1, views[k - 1].len() as int)[i] == views[k - 1][1
                    + i]);
                assert(views[0].skip(k - 1)[i + 1] == views[0][i + 1 + (k - 1)]);
                assert(views[0].skip(k)[i] == views[0][i + k]);
            }
        }
        assert(popped.take(k) =~= views[0].take(k)) by {
            assert forall|i: int| 0 <= i < k implies popped.take(k)[i] == views[0].take(k)[i] by {
                assert(popped.take(k)[i] == popped[i]);
                assert(views[0].take(k)[i] == views[0][i]);
                if i < k - 1 {
                    assert(popped.take(k - 1)[i] == popped[i]);
                    assert(views[0].take(k - 1)[i] == views[0][i]);
                } else {
                    assert(popped[k - 1] == views[k - 1][0]);
                    assert(views[0].skip(k - 1)[0] == views[0][k - 1]);
                }
            }
        }
    }
    if k == popped.len() {
        assert(views[k].len() == 0);
        assert(popped =~= popped.take(k));
        assert(views[0] =~= views[0].take(k));
    }
}

/// A window position keeps its slot index and (modulo [`CYCLE_MAX`]) its
/// cycle when it is reduced into the domain.
proof fn lemma_pos_props(start: int, j: int, w: int, n: int)
    requires
        0 <= start < w,
        0 <= j <= n,
        1 <= n,
        n <= w,
        w % n == 0,
        (w / n) % (CYCLE_MAX as int) == 0,
    ensures
        0 <= posf(start, j, w) < w,
        posf(start, j, w) % n == (start + j) % n,
        (posf(start, j, w) / n) % (CYCLE_MAX as int) == ((start + j) / n) % (CYCLE_MAX as int),
{
    let c = CYCLE_MAX as int;
    let x = start + j;
    vstd::arithmetic::div_mod::lemma_fundamental_div_mod(x, n);
    vstd::arithmetic::div_mod::lemma_mod_bound(x, n);
    vstd::arithmetic::div_mod::lemma_fundamental_div_mod(w, n);
    if start + j < w {
    } else {
        let q = x / n;
        let wq = w / n;
        assert(x - w == n * (q - wq) + x % n) by {
            vstd::arithmetic::mul::lemma_mul_is_distributive_sub(n, q, wq);
        }
        vstd::arithmetic::div_mod::lemma_fundamental_div_mod_converse(
            x - w,
            n,
            q - wq,
            x % n,
        );
        assert((x - w) / n == q - wq && (x - w) % n == x % n);
        vstd::arithmetic::div_mod::lemma_mod_multiples_vanish(-(wq / c), q, c);
        assert(c * (-(wq / c)) + q == q - wq) by {
            vstd::arithmetic::div_mod::lemma_fundamental_div_mod(wq, c);
        }
    }
}

/// Two distinct offsets inside one window of `n` positions land on distinct
/// slots.
proof fn lemma_window_distinct(start: int, j1: int, j2: int, n: int)
    requires
        0 <= start,
        0 <= j1 < j2 < n,
    ensures
        (start + j1) % n != (start + j2) % n,
{
    vstd::arithmetic::div_mod::lemma_fundamental_div_mod(start + j1, n);
    vstd::arithmetic::div_mod::lemma_fundamental_div_mod(start + j2, n);
    if (start + j1) % n == (start + j2) % n {
        let d = (start + j2) / n - (start + j1) / n;
        assert(j2 - j1 == n * d) by {
            vstd::arithmetic::mul::lemma_mul_is_distributive_sub(
                n,
                (start + j2) / n,
                (start + j1) / n,
            );
        }
        if d >= 1 {
            vstd::arithmetic::mul::lemma_mul_inequality(1, d, n);
            vstd::arithmetic::mul::lemma_mul_is_commutative(d, n);
        } else {
            vstd::arithmetic::mul::lemma_mul_inequality(d, 0, n);
            vstd::arithmetic::mul::lemma_mul_is_commutative(d, n);
        }
    }
}

/// One window step advances the cycle of the position by exactly one,
/// modulo [`CYCLE_MAX`]: the position `n` steps past `start` falls in the
/// next cycle.
proof fn lemma_next_lap(start: int, w: int, n: int)
    requires
        0 <= start < w,
        1 <= n,
        n <= w,
        w % n == 0,
        (w / n) % (CYCLE_MAX as int) == 0,
    ensures
        (posf(start, n, w) / n) % (CYCLE_MAX as int) == (start / n + 1) % (CYCLE_MAX as int),
        posf(start, n, w) % n == start % n,
{
    let c = CYCLE_MAX as int;
    lemma_pos_props(start, n, w, n);
    vstd::arithmetic::div_mod::lemma_fundamental_div_mod(start, n);
    vstd::arithmetic::div_mod::lemma_mod_bound(start, n);
    assert(start + n == (start / n + 1) * n + start % n) by {
        vstd::arithmetic::mul::lemma_mul_is_distributive_add(n, start / n, 1);
        vstd::arithmetic::mul::lemma_mul_is_commutative(n, start / n + 1);
    }
    vstd::arithmetic::div_mod::lemma_fundamental_div_mod_converse(
        start + n,
        n,
        start / n + 1,
        start % n,
    );
}

/// In the wraparound order, a slot word still holding the previous lap's
/// initialized element sorts strictly below the uninitialized word the
/// producer of the next lap expects.
proof fn lemma_order_previous_lap(u: int, v: int, w1: MemoryRing, w2: MemoryRing)
    requires
        0 <= u < CYCLE_MAX,
        v == (u + 1) % (CYCLE_MAX as int),
        w1.cycle_spec() == u,
        w2.cycle_spec() == v,
        w1.state_spec() is Initialized,
        w2.state_spec() is Uninitialized,
    ensures
        ring_order(w1, w2) == Some(core::cmp::Ordering::Less),
{
    let c = CYCLE_MAX as int;
    if u == c - 1 {
        assert(v == 0) by {
            vstd::arithmetic::div_mod::lemma_mod_self_0(c);
        }
    } else {
        assert(v == u + 1) by {
            vstd::arithmetic::div_mod::lemma_small_mod((u + 1) as nat, c as nat);
        }
    }
}

/// `new_spec` packs a cycle (reduced modulo [`CYCLE_MAX`]) and a state that
/// read back field by field.
proof fn lemma_new_spec_fields(cycle: nat, state: MemoryState)
    ensures
        MemoryRing::new_spec(cycle, state).cycle_spec() == cycle % (CYCLE_MAX as nat),
        MemoryRing::new_spec(cycle, state).state_spec() == MemoryState::decode(state.code()),
        state != MemoryState::Peeking ==> MemoryRing::new_spec(cycle, state).state_spec() == state,
{
    crate::packing::lemma_pack(state.code() as u32, (cycle % (CYCLE_MAX as nat)) as u32);
    crate::state::lemma_state_code_round_trip();
    crate::cycle::lemma_ring_from_raw();
}

/// The cursor domain is a positive multiple of both `n` and `n * CYCLE_MAX`
/// and fits in `usize`.
proof fn lemma_wrap_domain(n: int)
    requires
        1 <= n,
        n * CYCLE_MAX <= usize::MAX,
    ensures
        wrap_domain(n) % n == 0,
        wrap_domain(n) % (n * CYCLE_MAX) == 0,
        n * CYCLE_MAX <= wrap_domain(n) <= usize::MAX,
        wrap_domain(n) == (usize::MAX as int / (n * CYCLE_MAX)) * (n * CYCLE_MAX),
        wrap_domain(n) / n == (usize::MAX as int / (n * CYCLE_MAX)) * CYCLE_MAX,
        (wrap_domain(n) / n) % (CYCLE_MAX as int) == 0,
{
    let m = usize::MAX as int;
    let c = CYCLE_MAX as int;
    let q = m / (n * c);
    vstd::arithmetic::mul::lemma_mul_strictly_positive(n, c);
    vstd::arithmetic::div_mod::lemma_fundamental_div_mod(m, n * c);
    vstd::arithmetic::div_mod::lemma_mod_bound(m, n * c);
    assert(q * (n * c) <= m);
    assert(1 * (n * c) <= q * (n * c)) by {
        vstd::arithmetic::div_mod::lemma_div_is_ordered(n * c, m, n * c);
        vstd::arithmetic::div_mod::lemma_div_by_self(n * c);
        vstd::arithmetic::mul::lemma_mul_inequality(1, q, n * c);
    }
    assert(q * (n * c) == (q * c) * n) by {
        vstd::arithmetic::mul::lemma_mul_is_associative(q, c, n);
        vstd::arithmetic::mul::lemma_mul_is_commutative(c, n);
    }
    vstd::arithmetic::div_mod::lemma_mod_multiples_basic(q * c, n);
    vstd::arithmetic::div_mod::lemma_mod_multiples_basic(q, n * c);
    assert(wrap_domain(n) / n == q * c && wrap_domain(n) % n == 0) by {
        vstd::arithmetic::div_mod::lemma_fundamental_div_mod_converse(
            wrap_domain(n),
            n,
            q * c,
            0,
        );
    }
    vstd::arithmetic::div_mod::lemma_mod_multiples_basic(q, c);
}

} // verus!
