//! Admission of checks: at most one check of a URI at a time, and a bound on the number of
//! URIs that are checked at the same time.

use crate::keyed::{
    distinct, has_key, lemma_place, lemma_push_keeps, lemma_remove_keeps, lemma_update_keeps,
    place_of,
};
use crate::uri::Uri;
use vstd::prelude::*;

verus! {

/// The requests that wait for one check: the URI, and the tickets of the requests in the
/// order in which they were submitted.
#[derive(Debug, PartialEq, Eq)]
pub struct Slot {
    pub uri: Uri,
    pub tickets: Vec<u64>,
}

/// What the controller answers to a submitted request.
#[derive(Debug, Clone, Copy, PartialEq, Eq, Structural)]
pub enum Admission {
    /// The check of the URI starts now, for this request.
    Started,
    /// A check of the URI is under way or waits for its turn: the request gets its result.
    Joined,
    /// The bound is reached: the check of the URI waits for its turn.
    Queued,
    /// The run was cancelled: no check is admitted.
    Refused,
}

/// What the end of a check sets off.
#[derive(Debug, PartialEq, Eq)]
pub struct Completion {
    /// The requests that get the status of the check that ended.
    pub tickets: Vec<u64>,
    /// The URI whose check starts now in the place that became free.
    pub next: Option<Uri>,
}

/// The state of a controller.
pub ghost struct Model {
    /// The checks under way, each with the requests that get its result.
    pub running: Seq<(Seq<char>, Seq<u64>)>,
    /// The checks that wait for their turn, first come first.
    pub waiting: Seq<(Seq<char>, Seq<u64>)>,
    /// Whether the run was cancelled.
    pub cancelled: bool,
    /// How many URIs may be checked at the same time.
    pub bound: nat,
}

impl Model {
    /// At most one check for each URI, under way or waiting; no more checks under way than
    /// the bound allows; none waits while a place is free, or after the run was cancelled.
    pub open spec fn wf(self) -> bool {
        &&& distinct(self.running)
        &&& distinct(self.waiting)
        &&& forall|i: int, j: int|
            0 <= i < self.running.len() && 0 <= j < self.waiting.len() ==> (
            #[trigger] self.running[i]).0 != (#[trigger] self.waiting[j]).0
        &&& self.running.len() <= self.bound
        &&& self.waiting.len() > 0 ==> self.running.len() == self.bound
        &&& self.cancelled ==> self.waiting.len() == 0
    }

    /// The requests that get the result of the check of `key`.
    pub open spec fn tickets_for(self, key: Seq<char>) -> Seq<u64> {
        if has_key(self.running, key) {
            self.running[place_of(self.running, key)].1
        } else if has_key(self.waiting, key) {
            self.waiting[place_of(self.waiting, key)].1
        } else {
            Seq::empty()
        }
    }

    /// A request for `key` is submitted. After a cancellation it is refused. It joins the
    /// check of `key` where there is one. Else a check of `key` is made for it, which starts
    /// where a place is free and waits where none is.
    pub open spec fn submit(self, ticket: u64, key: Seq<char>) -> (Model, Admission) {
        if self.cancelled {
            (self, Admission::Refused)
        } else if has_key(self.running, key) {
            let at = place_of(self.running, key);
            (
                Model {
                    running: self.running.update(at, (key, self.running[at].1.push(ticket))),
                    ..self
                },
                Admission::Joined,
            )
        } else if has_key(self.waiting, key) {
            let at = place_of(self.waiting, key);
            (
                Model {
                    waiting: self.waiting.update(at, (key, self.waiting[at].1.push(ticket))),
                    ..self
                },
                Admission::Joined,
            )
        } else if self.running.len() < self.bound {
            (Model { running: self.running.push((key, seq![ticket])), ..self }, Admission::Started)
        } else {
            (Model { waiting: self.waiting.push((key, seq![ticket])), ..self }, Admission::Queued)
        }
    }

    /// The check of `key` ends. Its requests get the status, and the check that has waited
    /// longest takes the place. Nothing happens where no check of `key` is under way.
    pub open spec fn complete(self, key: Seq<char>) -> (Model, Seq<u64>, Option<Seq<char>>) {
        if !has_key(self.running, key) {
            (self, Seq::empty(), None)
        } else {
            let at = place_of(self.running, key);
            let left = self.running.remove(at);
            if self.waiting.len() > 0 {
                (
                    Model {
                        running: left.push(self.waiting[0]),
                        waiting: self.waiting.drop_first(),
                        ..self
                    },
                    self.running[at].1,
                    Some(self.waiting[0].0),
                )
            } else {
                (Model { running: left, ..self }, self.running[at].1, None)
            }
        }
    }

    /// The run is cancelled. The checks under way go on; those that wait are given up.
    pub open spec fn cancel(self) -> (Model, Seq<(Seq<char>, Seq<u64>)>) {
        (Model { cancelled: true, waiting: Seq::empty(), ..self }, self.waiting)
    }

    /// The state after requests with `tickets` were submitted for `key`, one after the other.
    pub open spec fn submit_all(self, tickets: Seq<u64>, key: Seq<char>) -> Model
        decreases tickets.len(),
    {
        if tickets.len() == 0 {
            self
        } else {
            self.submit(tickets[0], key).0.submit_all(tickets.drop_first(), key)
        }
    }

    /// How many checks are made when requests with `tickets` are submitted for `key`, one
    /// after the other: the submissions that are answered `Started` or `Queued`.
    pub open spec fn checks_made(self, tickets: Seq<u64>, key: Seq<char>) -> nat
        decreases tickets.len(),
    {
        if tickets.len() == 0 {
            0
        } else {
            let (next, answer) = self.submit(tickets[0], key);
            next.checks_made(tickets.drop_first(), key) + if answer == Admission::Started
                || answer == Admission::Queued {
                1nat
            } else {
                0nat
            }
        }
    }

    /// A submission keeps the state well formed.
    pub proof fn lemma_submit(self, ticket: u64, key: Seq<char>)
        requires
            self.wf(),
        ensures
            self.submit(ticket, key).0.wf(),
            self.submit(ticket, key).0.bound == self.bound,
            self.submit(ticket, key).0.cancelled == self.cancelled,
            !self.cancelled ==> self.submit(ticket, key).0.tickets_for(key) == self.tickets_for(
                key,
            ).push(ticket),
            !self.cancelled ==> (has_key(self.submit(ticket, key).0.running, key) || has_key(
                self.submit(ticket, key).0.waiting,
                key,
            )),
            !self.cancelled ==> (self.submit(ticket, key).1 == Admission::Joined <==> (has_key(
                self.running,
                key,
            ) || has_key(self.waiting, key))),
    {
        let after = self.submit(ticket, key).0;
        if self.cancelled {
        } else if has_key(self.running, key) {
            let at = place_of(self.running, key);
            assert(after.running[at].0 == key);
            lemma_place(after.running, at);
        } else if has_key(self.waiting, key) {
            let at = place_of(self.waiting, key);
            assert(after.waiting[at].0 == key);
            lemma_place(after.waiting, at);
            if has_key(after.running, key) {
                let i = place_of(after.running, key);
                assert(self.running[i].0 == key);
            }
        } else if self.running.len() < self.bound {
            let at = self.running.len() as int;
            assert forall|i: int, j: int| 0 <= i < j < after.running.len() implies (
            #[trigger] after.running[i]).0 != (#[trigger] after.running[j]).0 by {
                if j == at {
                    assert(self.running[i].0 != key);
                }
            }
            assert forall|i: int, j: int|
                0 <= i < after.running.len() && 0 <= j < after.waiting.len() implies (
            #[trigger] after.running[i]).0 != (#[trigger] after.waiting[j]).0 by {
                if i == at {
                    assert(self.waiting[j].0 != key);
                }
            }
            assert(after.running[at].0 == key);
            lemma_place(after.running, at);
            assert(Seq::<u64>::empty().push(ticket) == seq![ticket]);
        } else {
            let at = self.waiting.len() as int;
            assert forall|i: int, j: int| 0 <= i < j < after.waiting.len() implies (
            #[trigger] after.waiting[i]).0 != (#[trigger] after.waiting[j]).0 by {
                if j == at {
                    assert(self.waiting[i].0 != key);
                }
            }
            assert forall|i: int, j: int|
                0 <= i < after.running.len() && 0 <= j < after.waiting.len() implies (
            #[trigger] after.running[i]).0 != (#[trigger] after.waiting[j]).0 by {
                if j == at {
                    assert(self.running[i].0 != key);
                }
            }
            assert(after.waiting[at].0 == key);
            lemma_place(after.waiting, at);
            assert(Seq::<u64>::empty().push(ticket) == seq![ticket]);
        }
    }

    /// The end of a check keeps the state well formed, and the requests that get the status
    /// are those of the check that ended.
    pub proof fn lemma_complete(self, key: Seq<char>)
        requires
            self.wf(),
        ensures
            self.complete(key).0.wf(),
            !has_key(self.complete(key).0.running, key) || self.complete(key).2 == Some(key),
            has_key(self.running, key) ==> self.complete(key).1 == self.tickets_for(key),
    {
        let after = self.complete(key).0;
        if has_key(self.running, key) {
            let at = place_of(self.running, key);
            lemma_place(self.running, at);
            let left = self.running.remove(at);
            assert forall|i: int| 0 <= i < left.len() implies (#[trigger] left[i]) == self.running[if i
                < at {
                i
            } else {
                i + 1
            }] by {}
            assert forall|i: int| 0 <= i < left.len() implies (#[trigger] left[i]).0 != key by {
                if i < at {
                    assert(self.running[i].0 != self.running[at].0);
                } else {
                    assert(self.running[at].0 != self.running[i + 1].0);
                }
            }
            assert(distinct(left)) by {
                assert forall|i: int, j: int| 0 <= i < j < left.len() implies (#[trigger] left[i]).0
                    != (#[trigger] left[j]).0 by {
                    let a = if i < at {
                        i
                    } else {
                        i + 1
                    };
                    let b = if j < at {
                        j
                    } else {
                        j + 1
                    };
                    assert(self.running[a].0 != self.running[b].0);
                }
            }
            if self.waiting.len() > 0 {
                let moved = self.waiting[0];
                assert forall|i: int, j: int| 0 <= i < j < after.running.len() implies (
                #[trigger] after.running[i]).0 != (#[trigger] after.running[j]).0 by {
                    if j == left.len() {
                        let a = if i < at {
                            i
                        } else {
                            i + 1
                        };
                        assert(self.running[a].0 != self.waiting[0].0);
                    }
                }
                assert forall|i: int, j: int| 0 <= i < j < after.waiting.len() implies (
                #[trigger] after.waiting[i]).0 != (#[trigger] after.waiting[j]).0 by {
                    assert(self.waiting[i + 1].0 != self.waiting[j + 1].0);
                }
                assert forall|i: int, j: int|
                    0 <= i < after.running.len() && 0 <= j < after.waiting.len() implies (
                #[trigger] after.running[i]).0 != (#[trigger] after.waiting[j]).0 by {
                    if i == left.len() {
                        assert(self.waiting[0].0 != self.waiting[j + 1].0);
                    } else {
                        let a = if i < at {
                            i
                        } else {
                            i + 1
                        };
                        assert(self.running[a].0 != self.waiting[j + 1].0);
                    }
                }
                if has_key(after.running, key) {
                    let i = place_of(after.running, key);
                    if i < left.len() {
                        assert(left[i].0 != key);
                    }
                    assert(self.running[at].0 != self.waiting[0].0);
                }
            } else {
                assert forall|i: int, j: int|
                    0 <= i < after.running.len() && 0 <= j < after.waiting.len() implies (
                #[trigger] after.running[i]).0 != (#[trigger] after.waiting[j]).0 by {}
                if has_key(after.running, key) {
                    let i = place_of(after.running, key);
                    assert(left[i].0 != key);
                }
            }
        }
    }

    /// A submission for one URI leaves the requests of every other URI where they are.
    pub proof fn lemma_submit_keeps_others(self, ticket: u64, key: Seq<char>, other: Seq<char>)
        requires
            self.wf(),
            other != key,
        ensures
            self.submit(ticket, key).0.tickets_for(other) == self.tickets_for(other),
    {
        if self.cancelled {
        } else if has_key(self.running, key) {
            let at = place_of(self.running, key);
            lemma_update_keeps(self.running, at, self.running[at].1.push(ticket), other);
        } else if has_key(self.waiting, key) {
            let at = place_of(self.waiting, key);
            lemma_update_keeps(self.waiting, at, self.waiting[at].1.push(ticket), other);
        } else if self.running.len() < self.bound {
            lemma_push_keeps(self.running, (key, seq![ticket]), other);
        } else {
            lemma_push_keeps(self.waiting, (key, seq![ticket]), other);
        }
    }

    /// No request is dropped when a check ends: the requests of every other URI stay where
    /// they are, also those of the check that takes the place.
    pub proof fn lemma_complete_keeps_others(self, key: Seq<char>, other: Seq<char>)
        requires
            self.wf(),
            other != key,
        ensures
            self.complete(key).0.tickets_for(other) == self.tickets_for(other),
    {
        if has_key(self.running, key) {
            let at = place_of(self.running, key);
            lemma_place(self.running, at);
            let left = self.running.remove(at);
            lemma_remove_keeps(self.running, at, other);
            if self.waiting.len() > 0 {
                let moved = self.waiting[0];
                let after = self.complete(key).0;
                lemma_place(self.waiting, 0);
                if has_key(left, moved.0) {
                    let i = place_of(left, moved.0);
                    let a = if i < at {
                        i
                    } else {
                        i + 1
                    };
                    assert(left[i] == self.running[a]);
                    assert(self.running[a].0 != self.waiting[0].0);
                }
                lemma_remove_keeps(self.waiting, 0, other);
                assert(self.waiting.remove(0) == self.waiting.drop_first());
                if other == moved.0 {
                    assert(after.running[left.len() as int].0 == other);
                    self.lemma_complete(key);
                    lemma_place(after.running, left.len() as int);
                    if has_key(self.running, other) {
                        let i = place_of(self.running, other);
                        assert(self.running[i].0 != self.waiting[0].0);
                    }
                } else {
                    lemma_push_keeps(left, moved, other);
                    if has_key(self.running, other) && has_key(self.waiting, other) {
                        let i = place_of(self.running, other);
                        let j = place_of(self.waiting, other);
                        assert(self.running[i].0 != self.waiting[j].0);
                    }
                }
            }
        }
    }

    /// A cancellation leaves the checks under way, with their requests, and hands back the
    /// checks that waited, with theirs.
    pub proof fn lemma_cancel_keeps_running(self, key: Seq<char>)
        requires
            self.wf(),
        ensures
            self.cancel().0.wf(),
            self.cancel().0.running == self.running,
            self.cancel().1 == self.waiting,
            has_key(self.running, key) ==> self.cancel().0.tickets_for(key) == self.tickets_for(
                key,
            ),
    {
        let after = self.cancel().0;
        assert forall|i: int, j: int|
            0 <= i < after.running.len() && 0 <= j < after.waiting.len() implies (
        #[trigger] after.running[i]).0 != (#[trigger] after.waiting[j]).0 by {}
    }

    /// Requests for a URI of which a check is under way or waiting join that check: no
    /// further check is made, and the requests are added to those of the check.
    pub proof fn lemma_duplicates_join(self, tickets: Seq<u64>, key: Seq<char>)
        requires
            self.wf(),
            !self.cancelled,
            has_key(self.running, key) || has_key(self.waiting, key),
        ensures
            self.submit_all(tickets, key).wf(),
            !self.submit_all(tickets, key).cancelled,
            self.checks_made(tickets, key) == 0,
            self.submit_all(tickets, key).tickets_for(key) == self.tickets_for(key) + tickets,
            has_key(self.submit_all(tickets, key).running, key) || has_key(
                self.submit_all(tickets, key).waiting,
                key,
            ),
        decreases tickets.len(),
    {
        if tickets.len() == 0 {
            assert(self.tickets_for(key) + tickets == self.tickets_for(key));
        } else {
            self.lemma_submit(tickets[0], key);
            let next = self.submit(tickets[0], key).0;
            next.lemma_duplicates_join(tickets.drop_first(), key);
            assert(self.tickets_for(key).push(tickets[0]) + tickets.drop_first()
                == self.tickets_for(key) + tickets);
        }
    }

    /// Deduplication: however often a URI is submitted while no check of it has ended,
    /// exactly one check is made of it, and all the requests get the status of that check.
    /// `tickets` are the requests, in the order of submission, for a URI of which no check
    /// is under way or waiting.
    pub proof fn lemma_one_check_for_all(self, tickets: Seq<u64>, key: Seq<char>)
        requires
            self.wf(),
            !self.cancelled,
            !has_key(self.running, key),
            !has_key(self.waiting, key),
            tickets.len() >= 1,
        ensures
            self.submit_all(tickets, key).wf(),
            self.checks_made(tickets, key) == 1,
            self.submit_all(tickets, key).tickets_for(key) == tickets,
            has_key(self.submit_all(tickets, key).running, key) ==> self.submit_all(
                tickets,
                key,
            ).complete(key).1 == tickets,
    {
        self.lemma_submit(tickets[0], key);
        let next = self.submit(tickets[0], key).0;
        next.lemma_duplicates_join(tickets.drop_first(), key);
        assert(Seq::<u64>::empty().push(tickets[0]) + tickets.drop_first() == tickets);
        self.submit_all(tickets, key).lemma_complete(key);
    }
}

/// The slots as pairs of URI and tickets.
pub open spec fn slots_of(slots: Seq<Slot>) -> Seq<(Seq<char>, Seq<u64>)> {
    Seq::new(slots.len(), |i: int| (slots[i].uri@, slots[i].tickets@))
}

/// The controller of one run.
pub struct Controller {
    running: Vec<Slot>,
    waiting: Vec<Slot>,
    cancelled: bool,
    bound: usize,
}

impl View for Controller {
    type V = Model;

    closed spec fn view(&self) -> Model {
        Model {
            running: slots_of(self.running@),
            waiting: slots_of(self.waiting@),
            cancelled: self.cancelled,
            bound: self.bound as nat,
        }
    }
}

/// Where the slot for `uri` stands among `slots`.
fn find_slot(slots: &Vec<Slot>, uri: &Uri) -> (out: Option<usize>)
    requires
        distinct(slots_of(slots@)),
    ensures
        match out {
            Some(at) => at < slots@.len() && has_key(slots_of(slots@), uri@) && place_of(
                slots_of(slots@),
                uri@,
            ) == at,
            None => !has_key(slots_of(slots@), uri@),
        },
{
    let mut i: usize = 0;
    while i < slots.len()
        invariant
            distinct(slots_of(slots@)),
            i <= slots@.len(),
            forall|j: int| 0 <= j < i ==> (#[trigger] slots_of(slots@)[j]).0 != uri@,
        decreases slots@.len() - i,
    {
        if slots[i].uri.same_as(uri) {
            proof {
                assert(slots_of(slots@)[i as int].0 == uri@);
                lemma_place(slots_of(slots@), i as int);
            }
            return Some(i);
        }
        i = i + 1;
    }
    None
}

impl Controller {
    /// A controller that lets `max_concurrency` URIs be checked at the same time. `None`
    /// where that is none at all.
    pub fn new(max_concurrency: usize) -> (out: Option<Controller>)
        ensures
            out is Some <==> max_concurrency > 0,
            out matches Some(controller) ==> {
                &&& controller@.wf()
                &&& controller@.running.len() == 0
                &&& controller@.waiting.len() == 0
                &&& !controller@.cancelled
                &&& controller@.bound == max_concurrency
            },
    {
        if max_concurrency == 0 {
            None
        } else {
            Some(
                Controller {
                    running: Vec::new(),
                    waiting: Vec::new(),
                    cancelled: false,
                    bound: max_concurrency,
                },
            )
        }
    }

    /// Whether the run was cancelled.
    pub fn is_cancelled(&self) -> (out: bool)
        ensures
            out == self@.cancelled,
    {
        self.cancelled
    }

    /// How many URIs are being checked.
    pub fn in_flight(&self) -> (out: usize)
        ensures
            out == self@.running.len(),
    {
        self.running.len()
    }

    /// How many URIs wait for their check.
    pub fn queued(&self) -> (out: usize)
        ensures
            out == self@.waiting.len(),
    {
        self.waiting.len()
    }

    /// Submits the request `ticket` for `uri`.
    pub fn submit(&mut self, ticket: u64, uri: Uri) -> (out: Admission)
        requires
            old(self)@.wf(),
        ensures
            final(self)@.wf(),
            (final(self)@, out) == old(self)@.submit(ticket, uri@),
    {
        proof {
            old(self)@.lemma_submit(ticket, uri@);
        }
        if self.cancelled {
            return Admission::Refused;
        }
        match find_slot(&self.running, &uri) {
            Some(at) => {
                self.running[at].tickets.push(ticket);
                proof {
                    assert(self@.running == old(self)@.running.update(
                        at as int,
                        (uri@, old(self)@.running[at as int].1.push(ticket)),
                    ));
                }
                return Admission::Joined;
            },
            None => {},
        }
        match find_slot(&self.waiting, &uri) {
            Some(at) => {
                self.waiting[at].tickets.push(ticket);
                proof {
                    assert(self@.waiting == old(self)@.waiting.update(
                        at as int,
                        (uri@, old(self)@.waiting[at as int].1.push(ticket)),
                    ));
                }
                return Admission::Joined;
            },
            None => {},
        }
        let mut tickets: Vec<u64> = Vec::new();
        tickets.push(ticket);
        let slot = Slot { uri, tickets };
        if self.running.len() < self.bound {
            self.running.push(slot);
            proof {
                assert(self@.running == old(self)@.running.push((uri@, seq![ticket])));
            }
            Admission::Started
        } else {
            self.waiting.push(slot);
            proof {
                assert(self@.waiting == old(self)@.waiting.push((uri@, seq![ticket])));
            }
            Admission::Queued
        }
    }

    /// Records that the check of `uri` has ended.
    pub fn complete(&mut self, uri: &Uri) -> (out: Completion)
        requires
            old(self)@.wf(),
        ensures
            final(self)@.wf(),
            final(self)@ == old(self)@.complete(uri@).0,
            out.tickets@ == old(self)@.complete(uri@).1,
            match out.next {
                Some(next) => old(self)@.complete(uri@).2 == Some(next@),
                None => old(self)@.complete(uri@).2 is None,
            },
    {
        proof {
            old(self)@.lemma_complete(uri@);
        }
        match find_slot(&self.running, uri) {
            None => Completion { tickets: Vec::new(), next: None },
            Some(at) => {
                let ended = self.running.remove(at);
                proof {
                    assert(slots_of(self.running@) == old(self)@.running.remove(at as int));
                }
                if self.waiting.len() > 0 {
                    let moved = self.waiting.remove(0);
                    let next = moved.uri.clone();
                    self.running.push(moved);
                    proof {
                        assert(self@.waiting == old(self)@.waiting.drop_first());
                        assert(self@.running == old(self)@.running.remove(at as int).push(
                            old(self)@.waiting[0],
                        ));
                    }
                    Completion { tickets: ended.tickets, next: Some(next) }
                } else {
                    Completion { tickets: ended.tickets, next: None }
                }
            },
        }
    }

    /// Cancels the run: no check is admitted from now on. The checks under way go on. The
    /// checks that wait are given up and handed back. A second call changes nothing.
    pub fn cancel(&mut self) -> (out: Vec<Slot>)
        requires
            old(self)@.wf(),
        ensures
            final(self)@.wf(),
            final(self)@ == old(self)@.cancel().0,
            slots_of(out@) == old(self)@.cancel().1,
            old(self)@.cancelled ==> final(self)@ == old(self)@ && out@.len() == 0,
    {
        let mut dropped: Vec<Slot> = Vec::new();
        core::mem::swap(&mut dropped, &mut self.waiting);
        self.cancelled = true;
        proof {
            assert(self@.waiting == Seq::<(Seq<char>, Seq<u64>)>::empty());
            assert forall|i: int, j: int|
                0 <= i < self@.running.len() && 0 <= j < self@.waiting.len() implies (
            #[trigger] self@.running[i]).0 != (#[trigger] self@.waiting[j]).0 by {}
            if old(self)@.cancelled {
                assert(old(self)@.waiting == Seq::<(Seq<char>, Seq<u64>)>::empty());
            }
        }
        dropped
    }
}

} // verus!
