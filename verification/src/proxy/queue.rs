//! The reply queue of a connection: one place per request, in the order in
//! which the requests were read. Replies may arrive in any order; they leave
//! in the order of the requests.

use super::command::{result_model, CommandError, CommandResult};
use super::session::CmdCtx;
use crate::protocol::resp::RespValue;
use vstd::prelude::*;

verus! {

/// How many requests of one connection may wait for their reply.
pub const FIFO_CAPACITY: usize = 1024;

/// The model of a reply.
pub type Reply = Result<RespValue, CommandError>;

/// The model of the queue: the number of the request whose place is first,
/// and the places, each empty or filled.
pub struct QueueModel {
    pub first: nat,
    pub places: Seq<Option<Reply>>,
}

/// What happens to a queue.
pub enum QueueEvent {
    /// A request was read: it gets the next place.
    Push,
    /// A reply came for the request with this number.
    Complete(nat, Reply),
    /// The writer asks for the next reply.
    Pop,
}

/// The place of request `ticket`: `None` where the queue has none for it.
pub open spec fn place_of(q: QueueModel, ticket: nat) -> Option<Option<Reply>> {
    if q.first <= ticket < q.first + q.places.len() {
        Some(q.places[ticket - q.first])
    } else {
        None
    }
}

/// Whether the queue takes another request.
pub open spec fn has_room(q: QueueModel) -> bool {
    q.places.len() < FIFO_CAPACITY && q.first + q.places.len() < u64::MAX
}

/// Whether the first place is filled.
pub open spec fn is_ready(q: QueueModel) -> bool {
    q.places.len() > 0 && q.places[0] is Some
}

/// The queue after `event`. A request gets a place where there is room. A
/// reply fills the place of its request where that is empty: the first reply
/// stays. The writer takes the first place away once it is filled.
pub open spec fn step(q: QueueModel, event: QueueEvent) -> QueueModel {
    match event {
        QueueEvent::Push => if has_room(q) {
            QueueModel { first: q.first, places: q.places.push(None) }
        } else {
            q
        },
        QueueEvent::Complete(ticket, reply) => if place_of(q, ticket) == Some(None::<Reply>) {
            QueueModel { first: q.first, places: q.places.update(ticket - q.first, Some(reply)) }
        } else {
            q
        },
        QueueEvent::Pop => if is_ready(q) {
            QueueModel { first: q.first + 1, places: q.places.skip(1) }
        } else {
            q
        },
    }
}

/// What `event` puts on the wire: the first reply and the number of its
/// request, where the writer asks and the first place is filled.
pub open spec fn output(q: QueueModel, event: QueueEvent) -> Option<(nat, Reply)> {
    match event {
        QueueEvent::Pop => if is_ready(q) {
            Some((q.first, q.places[0]->0))
        } else {
            None
        },
        _ => None,
    }
}

/// The queue after a run of events.
pub open spec fn run(q: QueueModel, events: Seq<QueueEvent>) -> QueueModel
    decreases events.len(),
{
    if events.len() == 0 {
        q
    } else {
        step(run(q, events.drop_last()), events.last())
    }
}

/// What a run of events puts on the wire, in order.
pub open spec fn written(q: QueueModel, events: Seq<QueueEvent>) -> Seq<(nat, Reply)>
    decreases events.len(),
{
    if events.len() == 0 {
        Seq::empty()
    } else {
        match output(run(q, events.drop_last()), events.last()) {
            Some(reply) => written(q, events.drop_last()).push(reply),
            None => written(q, events.drop_last()),
        }
    }
}

/// The queue of a new connection.
pub open spec fn empty_queue() -> QueueModel {
    QueueModel { first: 0, places: Seq::empty() }
}

/// Replies leave in the order of the requests: what a run of events puts on
/// the wire is, reply by reply, for the requests numbered on from the first
/// place of the queue. On a new connection the k-th reply on the wire is the
/// one of the k-th request.
pub proof fn law_replies_keep_request_order(q: QueueModel, events: Seq<QueueEvent>)
    ensures
        run(q, events).first == q.first + written(q, events).len(),
        forall|k: int|
            0 <= k < written(q, events).len() ==> (#[trigger] written(q, events)[k]).0 == q.first
                + k,
    decreases events.len(),
{
    if events.len() > 0 {
        law_replies_keep_request_order(q, events.drop_last());
    }
}

/// A request gets one reply: no two replies on the wire are for the same
/// request.
pub proof fn law_one_reply_per_request(q: QueueModel, events: Seq<QueueEvent>, i: int, j: int)
    requires
        0 <= i < j < written(q, events).len(),
    ensures
        written(q, events)[i].0 != written(q, events)[j].0,
{
    law_replies_keep_request_order(q, events);
}

/// The first reply stays: once the place of a request is filled, an event
/// either leaves the reply in its place or puts that very reply on the wire.
pub proof fn law_first_reply_stays(q: QueueModel, ticket: nat, reply: Reply, event: QueueEvent)
    requires
        place_of(q, ticket) == Some(Some(reply)),
    ensures
        place_of(step(q, event), ticket) == Some(Some(reply)) || output(q, event) == Some(
            (ticket, reply),
        ),
{
}

/// A request whose reply is on the wire has no place any more, and gets none
/// again: nothing more is written for it.
pub proof fn law_written_request_is_gone(q: QueueModel, ticket: nat, events: Seq<QueueEvent>)
    requires
        ticket < q.first,
    ensures
        place_of(run(q, events), ticket) is None,
    decreases events.len(),
{
    if events.len() > 0 {
        law_written_request_is_gone(q, ticket, events.drop_last());
        law_replies_keep_request_order(q, events.drop_last());
    }
}

/// The reply queue of a connection.
pub struct ReplyQueue {
    first: u64,
    places: Vec<Option<CommandResult>>,
}

impl View for ReplyQueue {
    type V = QueueModel;

    closed spec fn view(&self) -> QueueModel {
        QueueModel {
            first: self.first as nat,
            places: Seq::new(
                self.places@.len(),
                |i: int|
                    match self.places@[i] {
                        Some(result) => Some(result_model(result)),
                        None => None,
                    },
            ),
        }
    }
}

impl ReplyQueue {
    /// The queue holds no more than its capacity, and its numbers fit.
    pub closed spec fn wf(&self) -> bool {
        self.places@.len() <= FIFO_CAPACITY && self.first + self.places@.len() <= u64::MAX
    }

    /// The queue of a new connection.
    pub fn new() -> (queue: ReplyQueue)
        ensures
            queue.wf(),
            queue@ == empty_queue(),
    {
        let queue = ReplyQueue { first: 0, places: Vec::new() };
        assert(queue@.places =~= Seq::<Option<Reply>>::empty());
        queue
    }

    /// The number of requests that wait for their reply to be written.
    pub fn len(&self) -> (n: usize)
        requires
            self.wf(),
        ensures
            n == self@.places.len(),
            n <= FIFO_CAPACITY,
    {
        self.places.len()
    }

    /// Whether the queue takes another request.
    pub fn has_room(&self) -> (room: bool)
        requires
            self.wf(),
        ensures
            room == has_room(self@),
    {
        self.places.len() < FIFO_CAPACITY && self.first < u64::MAX - self.places.len() as u64
    }

    /// Gives the next request a place and returns its number: the requests of
    /// a connection are numbered from 0 in the order in which they are read.
    /// `None` where the queue is full; the reader then waits.
    pub fn push(&mut self) -> (ticket: Option<u64>)
        requires
            old(self).wf(),
        ensures
            final(self).wf(),
            final(self)@ == step(old(self)@, QueueEvent::Push),
            match ticket {
                Some(t) => has_room(old(self)@) && t == old(self)@.first + old(self)@.places.len(),
                None => !has_room(old(self)@),
            },
    {
        if self.places.len() >= FIFO_CAPACITY || self.first >= u64::MAX - self.places.len() as u64 {
            return None;
        }
        let ticket = self.first + self.places.len() as u64;
        self.places.push(None);
        assert(self@.places =~= old(self)@.places.push(None));
        Some(ticket)
    }

    /// Fills the place of request `ticket` with `result`, unless the place is
    /// filled or gone: a request gets one reply. Says whether it was filled.
    pub fn complete(&mut self, ticket: u64, result: CommandResult) -> (filled: bool)
        requires
            old(self).wf(),
        ensures
            final(self).wf(),
            final(self)@ == step(
                old(self)@,
                QueueEvent::Complete(ticket as nat, result_model(result)),
            ),
            filled == (place_of(old(self)@, ticket as nat) == Some(None::<Reply>)),
    {
        if ticket < self.first || ticket - self.first >= self.places.len() as u64 {
            return false;
        }
        let at = (ticket - self.first) as usize;
        if self.places[at].is_some() {
            return false;
        }
        self.places.set(at, Some(result));
        assert(self@.places =~= old(self)@.places.update(at as int, Some(result_model(result))));
        true
    }

    /// Ends `cmd_ctx` and fills its place with what the client gets for it:
    /// the result that was set, or `Dropped` where none was. So a request
    /// that is let go of still gets its reply, and the replies behind it stay
    /// in their turn.
    pub fn finish(&mut self, cmd_ctx: CmdCtx) -> (filled: bool)
        requires
            old(self).wf(),
        ensures
            final(self).wf(),
            final(self)@ == step(
                old(self)@,
                QueueEvent::Complete(cmd_ctx.ticket() as nat, cmd_ctx.outcome()),
            ),
            filled == (place_of(old(self)@, cmd_ctx.ticket() as nat) == Some(None::<Reply>)),
    {
        let ticket = cmd_ctx.get_ticket();
        self.complete(ticket, cmd_ctx.into_result())
    }

    /// Takes the first reply, with the number of its request, once it is
    /// there. `None` while the first request has no reply: a later reply
    /// waits for it.
    pub fn pop_ready(&mut self) -> (reply: Option<(u64, CommandResult)>)
        requires
            old(self).wf(),
        ensures
            final(self).wf(),
            final(self)@ == step(old(self)@, QueueEvent::Pop),
            match reply {
                Some((ticket, result)) => output(old(self)@, QueueEvent::Pop) == Some(
                    (ticket as nat, result_model(result)),
                ),
                None => output(old(self)@, QueueEvent::Pop) is None,
            },
    {
        if self.places.len() == 0 || self.places[0].is_none() {
            return None;
        }
        let ticket = self.first;
        let place = self.places.remove(0);
        self.first = self.first + 1;
        assert(self@.places =~= old(self)@.places.skip(1));
        match place {
            Some(result) => Some((ticket, result)),
            None => None,
        }
    }
}

} // verus!
