//! The sender of one backend: requests wait in a queue, go out in order,
//! and are matched with the replies in the order in which they went out.

use super::command::CommandError;
use super::database::DBSendError;
use super::session::CmdCtx;
use crate::protocol::encoder::{encode, resp_to_buf};
use crate::protocol::resp::{Resp, RespValue};
use vstd::prelude::*;

verus! {

/// The requests of one backend: those that wait to go out, and those that
/// went out and wait for their reply.
pub struct BackendSender {
    address: String,
    capacity: usize,
    waiting: Vec<CmdCtx>,
    pending: Vec<CmdCtx>,
}

/// `ctx` with `result` as its reply, unless it has one.
pub open spec fn answered(ctx: CmdCtx, after: CmdCtx, result: Result<RespValue, CommandError>) -> bool {
    &&& after.db_name() == ctx.db_name()
    &&& after.command() == ctx.command()
    &&& after.ticket() == ctx.ticket()
    &&& after.written() == match ctx.written() {
        Some(reply) => Some(reply),
        None => Some(result),
    }
}

impl BackendSender {
    pub closed spec fn address(&self) -> Seq<char> {
        self.address@
    }

    /// How many requests may wait to go out.
    pub closed spec fn capacity(&self) -> usize {
        self.capacity
    }

    /// The requests that wait to go out, in order.
    pub closed spec fn waiting(&self) -> Seq<CmdCtx> {
        self.waiting@
    }

    /// The requests that went out and have no reply yet, in the order in
    /// which they went out.
    pub closed spec fn pending(&self) -> Seq<CmdCtx> {
        self.pending@
    }

    /// A sender for the backend at `address` with nothing in flight.
    pub fn new(address: String, capacity: usize) -> (sender: BackendSender)
        ensures
            sender.address() == address@,
            sender.capacity() == capacity,
            sender.waiting() == Seq::<CmdCtx>::empty(),
            sender.pending() == Seq::<CmdCtx>::empty(),
    {
        BackendSender { address, capacity, waiting: Vec::new(), pending: Vec::new() }
    }

    pub fn get_address(&self) -> (address: &String)
        ensures
            address@ == self.address(),
    {
        &self.address
    }

    /// Puts `cmd_ctx` at the end of the queue. Where the queue is full the
    /// request comes back at once: the caller never waits.
    pub fn send(&mut self, cmd_ctx: CmdCtx) -> (res: Result<(), DBSendError>)
        ensures
            final(self).address() == old(self).address(),
            final(self).capacity() == old(self).capacity(),
            final(self).pending() == old(self).pending(),
            res is Ok == (old(self).waiting().len() < old(self).capacity()),
            match res {
                Ok(()) => final(self).waiting() == old(self).waiting().push(cmd_ctx),
                Err(e) => {
                    &&& e is Busy
                    &&& e.cmd_ctx() == cmd_ctx
                    &&& final(self).waiting() == old(self).waiting()
                },
            },
    {
        if self.waiting.len() >= self.capacity {
            return Err(DBSendError::Busy(cmd_ctx));
        }
        self.waiting.push(cmd_ctx);
        Ok(())
    }

    /// Sends the first request that waits: the frame of its command is
    /// appended to `out`, and the request goes to the end of those that wait
    /// for a reply. Says whether there was one.
    pub fn next_request(&mut self, out: &mut Vec<u8>) -> (sent: bool)
        ensures
            final(self).address() == old(self).address(),
            final(self).capacity() == old(self).capacity(),
            sent == (old(self).waiting().len() > 0),
            sent ==> final(out)@ == old(out)@ + encode(old(self).waiting()[0].command())
                && final(self).waiting() == old(self).waiting().skip(1) && final(self).pending()
                == old(self).pending().push(old(self).waiting()[0]),
            !sent ==> final(out)@ == old(out)@ && final(self).waiting() == old(self).waiting()
                && final(self).pending() == old(self).pending(),
    {
        if self.waiting.len() == 0 {
            return false;
        }
        let cmd_ctx = self.waiting.remove(0);
        resp_to_buf(out, cmd_ctx.get_resp());
        self.pending.push(cmd_ctx);
        assert(self.waiting@ =~= old(self).waiting@.skip(1));
        true
    }

    /// Takes a reply of the backend: it is for the request that went out
    /// first among those without a reply. That request comes back with the
    /// reply set. `None` where no request waits for a reply.
    pub fn on_reply(&mut self, reply: Resp) -> (done: Option<CmdCtx>)
        ensures
            final(self).address() == old(self).address(),
            final(self).capacity() == old(self).capacity(),
            final(self).waiting() == old(self).waiting(),
            match done {
                Some(ctx) => old(self).pending().len() > 0 && answered(
                    old(self).pending()[0],
                    ctx,
                    Ok(reply@),
                ) && final(self).pending() == old(self).pending().skip(1),
                None => old(self).pending().len() == 0 && final(self).pending() == old(self).pending(),
            },
    {
        if self.pending.len() == 0 {
            return None;
        }
        let mut cmd_ctx = self.pending.remove(0);
        cmd_ctx.set_result(Ok(reply));
        assert(self.pending@ =~= old(self).pending@.skip(1));
        Some(cmd_ctx)
    }

    /// The connection failed: every request that waits for a reply comes
    /// back with `BackendError` as its result, in the order in which they
    /// went out. Those that did not go out yet stay in the queue.
    pub fn on_error(&mut self) -> (failed: Vec<CmdCtx>)
        ensures
            final(self).address() == old(self).address(),
            final(self).capacity() == old(self).capacity(),
            final(self).waiting() == old(self).waiting(),
            final(self).pending() == Seq::<CmdCtx>::empty(),
            failed@.len() == old(self).pending().len(),
            forall|i: int|
                0 <= i < failed@.len() ==> answered(
                    old(self).pending()[i],
                    #[trigger] failed@[i],
                    Err(CommandError::BackendError),
                ),
    {
        let mut pending: Vec<CmdCtx> = Vec::new();
        std::mem::swap(&mut pending, &mut self.pending);
        let mut failed: Vec<CmdCtx> = Vec::new();
        let ghost all = pending@;
        while pending.len() > 0
            invariant
                all == old(self).pending@,
                failed@.len() + pending@.len() == all.len(),
                forall|j: int| 0 <= j < pending@.len() ==> pending@[j] == all[failed@.len() + j],
                forall|i: int|
                    0 <= i < failed@.len() ==> answered(
                        all[i],
                        #[trigger] failed@[i],
                        Err(CommandError::BackendError),
                    ),
            decreases pending@.len(),
        {
            let ghost before = pending@;
            let mut cmd_ctx = pending.remove(0);
            assert(pending@ =~= before.skip(1));
            cmd_ctx.set_result(Err(CommandError::BackendError));
            failed.push(cmd_ctx);
        }
        failed
    }

    /// The number of requests that wait to go out.
    pub fn waiting_len(&self) -> (n: usize)
        ensures
            n == self.waiting().len(),
    {
        self.waiting.len()
    }

    /// The number of requests that wait for a reply.
    pub fn pending_len(&self) -> (n: usize)
        ensures
            n == self.pending().len(),
    {
        self.pending.len()
    }
}

} // verus!
