//! The error carried by every fallible operation: the state that was
//! observed, ownership of the input that could not be consumed, and whether
//! the failure is transient.

use vstd::prelude::*;
use crate::state::MemoryState;

verus! {

/// A failed operation.
///
/// `retry` is true exactly when the failure is believed transient (a peer is
/// mid-transition), false when a precondition was violated and retrying with
/// the same input cannot help. `input` returns ownership of whatever the
/// caller tried to move in, so a retry never has to re-synthesize it.
#[derive(Debug)]
pub struct Error<T> {
    pub state: MemoryState,
    pub input: T,
    pub retry: bool,
}

impl<T> Error<T> {
    /// A permanent failure in an unknown state, carrying `input` back.
    pub fn new(input: T) -> (r: Self)
        ensures
            r.state == MemoryState::Unknown,
            r.input == input,
            r.retry == false,
    {
        Self { state: MemoryState::Unknown, input, retry: false }
    }
}

/// A transient chain of `f`: every input in `chain` but the last was fed
/// to `f` and came back inside the matching transient error of `errs`,
/// which carries the next input.
pub open spec fn retry_chain<I, O, F: Fn(I) -> Result<O, Error<I>>>(
    f: F,
    chain: Seq<I>,
    errs: Seq<Error<I>>,
) -> bool {
    &&& chain.len() == errs.len() + 1
    &&& forall|i: int| #![trigger errs[i]] 0 <= i < errs.len() ==> call_ensures(
        f,
        (chain[i],),
        Err(errs[i]),
    ) && errs[i].retry && errs[i].input == chain[i + 1]
}

/// Calls `f` until it succeeds, fails permanently, or `limit` attempts have
/// been spent; transient failures are retried with the input the error
/// handed back.
///
/// The result is an outcome of `f` at the end of a transient chain that
/// starts at `input` and threads each error's returned input into the next
/// attempt — in particular, when the very first attempt settles matters,
/// the result is `f`'s outcome on `input` itself. Bounding the number of
/// attempts turns unbounded spinning into bounded latency at the cost of a
/// call that can give up while the blocking condition is still transient;
/// when the budget runs out after a full chain of `limit` transient
/// failures, the chain's final input comes back inside a permanent
/// `Unknown` error.
pub fn retry<I, O, F: Fn(I) -> Result<O, Error<I>>>(f: F, input: I, limit: usize) -> (r: Result<
    O,
    Error<I>,
>)
    requires
        call_requires(f, (input,)),
        forall|i: I, e: Error<I>| #[trigger]
            call_ensures(f, (i,), Err(e)) ==> call_requires(f, (e.input,)),
    ensures
        r matches Ok(o) ==> exists|chain: Seq<I>, errs: Seq<Error<I>>| #[trigger] retry_chain(
            f,
            chain,
            errs,
        ) && chain[0] == input && chain.len() <= limit && call_ensures(f, (chain.last(),), Ok(o)),
        r matches Err(e) ==> !e.retry,
        r matches Err(e) ==> (exists|chain: Seq<I>, errs: Seq<Error<I>>| #[trigger] retry_chain(
            f,
            chain,
            errs,
        ) && chain[0] == input && chain.len() <= limit && call_ensures(f, (chain.last(),), Err(e)))
            || (e.state is Unknown && exists|chain: Seq<I>, errs: Seq<Error<I>>| #[trigger]
        retry_chain(f, chain, errs) && chain[0] == input && chain.len() == limit + 1 && e.input
            == chain.last()),
        limit > 0 && (forall|e: Error<I>| #[trigger] call_ensures(f, (input,), Err(e))
            ==> !e.retry) ==> (match r {
            Ok(o) => call_ensures(f, (input,), Ok(o)),
            Err(e) => call_ensures(f, (input,), Err(e)),
        }),
{
    let mut cur = input;
    let mut attempts = limit;
    let ghost mut chain: Seq<I> = seq![input];
    let ghost mut errs: Seq<Error<I>> = Seq::empty();
    while attempts > 0
        invariant
            call_requires(f, (cur,)),
            forall|i: I, e: Error<I>| #[trigger]
                call_ensures(f, (i,), Err(e)) ==> call_requires(f, (e.input,)),
            attempts <= limit,
            retry_chain(f, chain, errs),
            chain[0] == input,
            chain.last() == cur,
            chain.len() == limit - attempts + 1,
        decreases attempts,
    {
        attempts = attempts - 1;
        match f(cur) {
            Ok(val) => {
                proof {
                    lemma_retry_settled(f, input, chain, errs);
                    assert(retry_chain(f, chain, errs) && chain[0] == input && chain.len()
                        <= limit && call_ensures(f, (chain.last(),), Ok(val)));
                }
                return Ok(val);
            },
            Err(err) => {
                if err.retry {
                    proof {
                        let prev_errs = errs;
                        chain = chain.push(err.input);
                        errs = errs.push(err);
                        assert forall|i: int| #![trigger errs[i]] 0 <= i < errs.len() implies
                            call_ensures(f, (chain[i],), Err(errs[i])) && errs[i].retry
                                && errs[i].input == chain[i + 1] by {
                            if i < prev_errs.len() {
                                assert(call_ensures(f, (chain[i],), Err(prev_errs[i]))
                                    && prev_errs[i].retry && prev_errs[i].input == chain[i + 1]);
                            }
                        }
                    }
                    cur = err.input;
                } else {
                    proof {
                        lemma_retry_settled(f, input, chain, errs);
                        assert(retry_chain(f, chain, errs) && chain[0] == input && chain.len()
                            <= limit && call_ensures(f, (chain.last(),), Err(err)));
                    }
                    return Err(err);
                }
            },
        }
    }
    proof {
        lemma_retry_settled(f, input, chain, errs);
        assert(retry_chain(f, chain, errs) && chain[0] == input && chain.len() == limit + 1
            && chain.last() == cur);
    }
    Err(Error::new(cur))
}

/// A transient chain of length two or more starts with a transient failure
/// on its first input — so when `f` can only fail permanently on that
/// input, the chain has length one.
proof fn lemma_retry_settled<I, O, F: Fn(I) -> Result<O, Error<I>>>(
    f: F,
    first: I,
    chain: Seq<I>,
    errs: Seq<Error<I>>,
)
    requires
        retry_chain(f, chain, errs),
        chain[0] == first,
    ensures
        chain.len() >= 2 ==> call_ensures(f, (first,), Err(errs[0])) && errs[0].retry,
        (forall|e: Error<I>| #[trigger] call_ensures(f, (first,), Err(e)) ==> !e.retry)
            ==> chain.len() == 1,
{
    if chain.len() >= 2 {
        assert(call_ensures(f, (chain[0],), Err(errs[0])) && errs[0].retry);
    }
}

} // verus!
