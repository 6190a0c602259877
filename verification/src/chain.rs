//! A chain of handlers: each one either hands a value on or ends the chain with a result.

use crate::request::Request;
use crate::status::Status;
use vstd::prelude::*;

verus! {

/// What one element of a chain answers.
#[derive(Debug, PartialEq)]
pub enum ChainResult<T, R> {
    /// Pass `T` to the next element of the chain.
    Next(T),
    /// End the chain: the elements that follow are skipped.
    Done(R),
}

/// An element of a chain.
pub trait Chainable<T, R>: Send {
    /// Whether the element, in the state it is in, may answer `out` to `input`. An element
    /// that does not say otherwise may answer anything.
    open spec fn answers(&self, input: T, out: ChainResult<T, R>) -> bool {
        true
    }

    /// Called when the chain reaches this element. Return `ChainResult::Next` to hand a value,
    /// changed or not, to the element that follows, or `ChainResult::Done` to end the chain.
    fn chain(&mut self, input: T) -> (out: ChainResult<T, R>)
        ensures
            old(self).answers(input, out),
    ;
}

/// Whether an element that keeps no state of its own is, after it has answered `out`, what
/// it was before.
pub open spec fn stays<H, T, R>(before: H, after: H, out: ChainResult<T, R>) -> bool {
    before == after
}

/// The elements of a chain, in the order in which they are applied.
pub type InnerChain<T, R> = Vec<Box<dyn Chainable<T, R>>>;

/// An ordered sequence of handlers.
#[verifier::reject_recursive_types(T)]
#[verifier::reject_recursive_types(R)]
pub struct Chain<T, R> {
    handlers: InnerChain<T, R>,
}

/// Whether the elements `from..` of `handlers`, given `input`, may end in `out` with `stop`
/// elements of the whole chain invoked. Each element is given what its predecessor handed on.
/// The first that answers `Done` ends the run, and its result is `out`. Where none does, all
/// are invoked and `out` is `Next` with the value that the last one handed on.
pub open spec fn runs<T, R>(
    handlers: Seq<Box<dyn Chainable<T, R>>>,
    from: int,
    input: T,
    out: ChainResult<T, R>,
    stop: int,
) -> bool
    decreases handlers.len() - from,
{
    if 0 <= from < handlers.len() {
        exists|mid: ChainResult<T, R>| #[trigger]
            handlers[from].answers(input, mid) && match mid {
                ChainResult::Next(next) => runs(handlers, from + 1, next, out, stop),
                ChainResult::Done(_) => out == mid && stop == from + 1,
            }
    } else {
        out == ChainResult::<T, R>::Next(input) && stop == from
    }
}

/// Whether each of the elements `from..` answers each input in one way only.
pub open spec fn answer_one_way<T, R>(handlers: Seq<Box<dyn Chainable<T, R>>>, from: int) -> bool {
    forall|i: int, input: T, first: ChainResult<T, R>, second: ChainResult<T, R>|
        from <= i < handlers.len() && (#[trigger] handlers[i].answers(input, first)) && (
        #[trigger] handlers[i].answers(input, second)) ==> first == second
}

/// A chain of elements that answer each input in one way only does so too: what the chain
/// makes of an input, and where it stops, is decided by the input.
pub proof fn lemma_runs_one_way<T, R>(
    handlers: Seq<Box<dyn Chainable<T, R>>>,
    from: int,
    input: T,
    first: ChainResult<T, R>,
    first_stop: int,
    second: ChainResult<T, R>,
    second_stop: int,
)
    requires
        0 <= from,
        answer_one_way(handlers, from),
        runs(handlers, from, input, first, first_stop),
        runs(handlers, from, input, second, second_stop),
    ensures
        first == second,
        first_stop == second_stop,
    decreases handlers.len() - from,
{
    if from < handlers.len() {
        let a = choose|mid: ChainResult<T, R>| #[trigger]
            handlers[from].answers(input, mid) && match mid {
                ChainResult::Next(next) => runs(handlers, from + 1, next, first, first_stop),
                ChainResult::Done(_) => first == mid && first_stop == from + 1,
            };
        let b = choose|mid: ChainResult<T, R>| #[trigger]
            handlers[from].answers(input, mid) && match mid {
                ChainResult::Next(next) => runs(handlers, from + 1, next, second, second_stop),
                ChainResult::Done(_) => second == mid && second_stop == from + 1,
            };
        assert(handlers[from].answers(input, a));
        assert(handlers[from].answers(input, b));
        assert(a == b);
        match a {
            ChainResult::Next(next) => {
                lemma_runs_one_way(
                    handlers,
                    from + 1,
                    next,
                    first,
                    first_stop,
                    second,
                    second_stop,
                );
            },
            ChainResult::Done(_) => {},
        }
    }
}

impl<T, R> View for Chain<T, R> {
    type V = Seq<Box<dyn Chainable<T, R>>>;

    closed spec fn view(&self) -> Self::V {
        self.handlers@
    }
}

impl<T, R> Default for Chain<T, R> {
    fn default() -> (out: Self)
        ensures
            out@.len() == 0,
    {
        Chain { handlers: Vec::new() }
    }
}

impl<T, R> Chain<T, R> {
    /// The chain of `values`, applied in their order.
    #[must_use]
    pub fn new(values: InnerChain<T, R>) -> (out: Self)
        ensures
            out@ == values@,
    {
        Chain { handlers: values }
    }

    /// Whether a traversal that starts in this state with `input` may end in `out` and leave
    /// the chain as `after`: `out` is what the handlers make of `input`, and the handlers
    /// behind the one that ended the run are as they were.
    pub open spec fn traverses(&self, input: T, out: ChainResult<T, R>, after: &Self) -> bool {
        &&& after@.len() == self@.len()
        &&& exists|stop: int|
            {
                &&& #[trigger] runs(self@, 0, input, out, stop)
                &&& forall|j: int| stop <= j < self@.len() ==> after@[j] == self@[j]
            }
    }

    /// The number of handlers.
    pub fn len(&self) -> (out: usize)
        ensures
            out == self@.len(),
    {
        self.handlers.len()
    }

    /// Adds `handler` behind the handlers that the chain holds.
    pub fn push(&mut self, handler: Box<dyn Chainable<T, R>>)
        ensures
            final(self)@ == old(self)@.push(handler),
            final(self)@.len() == old(self)@.len() + 1,
    {
        self.handlers.push(handler);
        proof {
            vstd::seq::axiom_seq_push_len(old(self)@, handler);
        }
    }

    /// Applies the handlers in order, each to what its predecessor handed on, and stops at
    /// the first that answers `Done`. The handlers behind that one are not invoked.
    pub fn traverse(&mut self, input: T) -> (out: ChainResult<T, R>)
        ensures
            old(self).traverses(input, out, final(self)),
    {
        let mut i: usize = 0;
        let mut current = input;
        let n = self.handlers.len();
        while i < n
            invariant
                n == self@.len(),
                n == old(self)@.len(),
                i <= n,
                forall|j: int| i <= j < n ==> self@[j] == old(self)@[j],
                forall|o: ChainResult<T, R>, s: int| #[trigger]
                    runs(old(self)@, i as int, current, o, s) ==> runs(old(self)@, 0, input, o, s),
            decreases n - i,
        {
            let ghost before = current;
            let answer = self.handlers[i].chain(current);
            assert(old(self)@[i as int].answers(before, answer));
            match answer {
                ChainResult::Next(next) => {
                    current = next;
                },
                ChainResult::Done(result) => {
                    proof {
                        assert(runs(old(self)@, i as int, before, answer, i + 1));
                        assert(runs(old(self)@, 0, input, answer, i + 1));
                    }
                    return ChainResult::Done(result);
                },
            }
            proof {
                assert forall|o: ChainResult<T, R>, s: int| #[trigger]
                    runs(old(self)@, i + 1, current, o, s) implies runs(
                    old(self)@,
                    0,
                    input,
                    o,
                    s,
                ) by {
                    assert(runs(old(self)@, i as int, before, o, s));
                }
            }
            i = i + 1;
        }
        proof {
            assert(runs(old(self)@, n as int, current, ChainResult::<T, R>::Next(current), n as int));
        }
        ChainResult::Next(current)
    }
}

/// A chain of requests that ends in a status.
pub type RequestChain = Chain<Request, Status>;

/// Several request chains, traversed one after the other.
pub struct ClientRequestChain {
    chains: Vec<RequestChain>,
}

/// Whether the chains `from..`, given `input`, may settle on `out` with `stop` of all the
/// chains traversed. Each chain is given what its predecessor handed on. The first that ends
/// with a status decides, and the chains behind it are not traversed. Where none does, all
/// are traversed and the request counts as excluded.
pub open spec fn settles(
    chains: Seq<RequestChain>,
    from: int,
    input: Request,
    out: Status,
    stop: int,
) -> bool
    decreases chains.len() - from,
{
    if 0 <= from < chains.len() {
        exists|mid: ChainResult<Request, Status>, invoked: int| #[trigger]
            runs(chains[from]@, 0, input, mid, invoked) && match mid {
                ChainResult::Next(next) => settles(chains, from + 1, next, out, stop),
                ChainResult::Done(status) => out == status && stop == from + 1,
            }
    } else {
        out == Status::Excluded && stop == from
    }
}

impl View for ClientRequestChain {
    type V = Seq<RequestChain>;

    closed spec fn view(&self) -> Self::V {
        self.chains@
    }
}

impl ClientRequestChain {
    /// The chains in the order in which they are traversed.
    pub fn new(chains: Vec<RequestChain>) -> (out: Self)
        ensures
            out@ == chains@,
    {
        ClientRequestChain { chains }
    }

    /// Hands the chains back.
    pub fn into_chains(self) -> (out: Vec<RequestChain>)
        ensures
            out@ == self@,
    {
        self.chains
    }

    /// Whether a traversal that starts in this state with `input` may settle on `out` and
    /// leave the chains as `after`: `out` is what the chains make of `input`, and the chains
    /// behind the one that settled the request are as they were.
    pub open spec fn traverses(&self, input: Request, out: Status, after: &Self) -> bool {
        &&& after@.len() == self@.len()
        &&& exists|stop: int|
            {
                &&& #[trigger] settles(self@, 0, input, out, stop)
                &&& forall|j: int| stop <= j < self@.len() ==> after@[j] == self@[j]
            }
    }

    /// Traverses the chains in order and stops at the first that ends with a status. The
    /// chains behind that one are not traversed. A request that no chain has settled counts
    /// as excluded.
    pub fn traverse(&mut self, input: Request) -> (out: Status)
        ensures
            old(self).traverses(input, out, final(self)),
    {
        let mut i: usize = 0;
        let mut current = input;
        let n = self.chains.len();
        while i < n
            invariant
                n == self@.len(),
                n == old(self)@.len(),
                i <= n,
                forall|j: int| i <= j < n ==> self@[j] == old(self)@[j],
                forall|o: Status, s: int| #[trigger]
                    settles(old(self)@, i as int, current, o, s) ==> settles(
                        old(self)@,
                        0,
                        input,
                        o,
                        s,
                    ),
            decreases n - i,
        {
            let ghost before = current;
            let answer = self.chains[i].traverse(current);
            proof {
                let invoked = choose|invoked: int| #[trigger]
                    runs(old(self)@[i as int]@, 0, before, answer, invoked);
                assert(runs(old(self)@[i as int]@, 0, before, answer, invoked));
            }
            match answer {
                ChainResult::Next(next) => {
                    current = next;
                },
                ChainResult::Done(status) => {
                    proof {
                        assert(settles(old(self)@, i as int, before, status, i + 1));
                        assert(settles(old(self)@, 0, input, status, i + 1));
                    }
                    return status;
                },
            }
            proof {
                assert forall|o: Status, s: int| #[trigger]
                    settles(old(self)@, i + 1, current, o, s) implies settles(
                    old(self)@,
                    0,
                    input,
                    o,
                    s,
                ) by {
                    assert(settles(old(self)@, i as int, before, o, s));
                }
            }
            i = i + 1;
        }
        proof {
            assert(settles(old(self)@, n as int, current, Status::Excluded, n as int));
        }
        Status::Excluded
    }
}

} // verus!
