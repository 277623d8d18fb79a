//! One client connection: the commands it sends, in order, and their replies.

use super::command::{
    ascii_bytes, command_error_resp, command_error_text, error_resp, result_model, CmdReplySender,
    Command, CommandError, CommandResult,
};
use super::manager::MetaMap;
use super::queue::{
    has_room, is_ready, step, QueueEvent, QueueModel, Reply, ReplyQueue,
};
use crate::common::batch_write::CircularBufWriter;
use crate::protocol::decoder::{decode_resp, parse_resp, DecodeError, Parsed, MAX_DEPTH};
use crate::protocol::encoder::{encode, resp_to_buf};
use crate::protocol::resp::{Resp, RespValue};
use vstd::prelude::*;
use vstd::string::*;

verus! {

/// The database of a session that has selected none.
pub const DEFAULT_DB: &'static str = "admin";

/// What takes the commands of a connection as they are read.
pub trait CmdHandler {
    fn handle_cmd(&mut self, sender: CmdReplySender);
}

/// What routes a command once it knows its database.
pub trait CmdCtxHandler {
    fn handle_cmd_ctx(&self, cmd_ctx: CmdCtx);
}

/// One request in flight: the database it goes to, the command, and the
/// place for its reply.
#[derive(Debug)]
pub struct CmdCtx {
    db: String,
    reply_sender: CmdReplySender,
}

impl CmdCtx {
    /// The name of the database that the request goes to.
    pub closed spec fn db_name(&self) -> Seq<char> {
        self.db@
    }

    /// The command.
    pub closed spec fn command(&self) -> RespValue {
        self.reply_sender.command()
    }

    /// The number of the request on its connection.
    pub closed spec fn ticket(&self) -> u64 {
        self.reply_sender.ticket()
    }

    /// The result that was set, if one was.
    pub closed spec fn written(&self) -> Option<Result<RespValue, CommandError>> {
        self.reply_sender.written()
    }

    /// What the client gets for the request: the result that was set, or
    /// `Dropped` where none was.
    pub open spec fn outcome(&self) -> Result<RespValue, CommandError> {
        match self.written() {
            Some(result) => result,
            None => Err(CommandError::Dropped),
        }
    }

    pub fn new(db: String, reply_sender: CmdReplySender) -> (ctx: CmdCtx)
        ensures
            ctx.db_name() == db@,
            ctx.command() == reply_sender.command(),
            ctx.ticket() == reply_sender.ticket(),
            ctx.written() == reply_sender.written(),
    {
        CmdCtx { db, reply_sender }
    }

    pub fn get_ticket(&self) -> (ticket: u64)
        ensures
            ticket == self.ticket(),
    {
        self.reply_sender.get_ticket()
    }

    pub fn get_cmd(&self) -> (cmd: &Command)
        ensures
            cmd@ == self.command(),
    {
        self.reply_sender.get_cmd()
    }

    pub fn get_resp(&self) -> (resp: &Resp)
        ensures
            resp@ == self.command(),
    {
        self.reply_sender.get_cmd().get_resp()
    }

    /// Sets the result of the request. Only the first result counts: a
    /// request gets one reply.
    pub fn set_result(&mut self, result: CommandResult) -> (set: bool)
        ensures
            final(self).db_name() == old(self).db_name(),
            final(self).command() == old(self).command(),
            final(self).ticket() == old(self).ticket(),
            set == old(self).written() is None,
            set ==> final(self).written() == Some(result_model(result)),
            !set ==> final(self).written() == old(self).written(),
    {
        self.reply_sender.try_send(result)
    }

    pub fn get_db_name(&self) -> (name: String)
        ensures
            name@ == self.db_name(),
    {
        self.db.clone()
    }

    pub fn set_db_name(&mut self, db: String)
        ensures
            final(self).db_name() == db@,
            final(self).command() == old(self).command(),
            final(self).ticket() == old(self).ticket(),
            final(self).written() == old(self).written(),
    {
        self.db = db;
    }

    /// Ends the request and gives what the client gets for it. A request
    /// that ends without a result ends in `Dropped`.
    pub fn into_result(self) -> (result: CommandResult)
        ensures
            result_model(result) == self.outcome(),
    {
        self.reply_sender.into_result()
    }
}

/// The state of one client connection.
pub struct Session<H: CmdCtxHandler> {
    db: String,
    cmd_ctx_handler: H,
}

impl<H: CmdCtxHandler> Session<H> {
    /// The name of the database that the session's commands go to.
    pub closed spec fn db_name(&self) -> Seq<char> {
        self.db@
    }

    /// A session on the default database.
    pub fn new(cmd_ctx_handler: H) -> (session: Self)
        ensures
            session.db_name() == DEFAULT_DB@,
    {
        Session { db: String::from_str(DEFAULT_DB), cmd_ctx_handler }
    }

    /// The request that the session makes of a command: it goes to the
    /// session's database.
    pub fn new_cmd_ctx(&self, reply_sender: CmdReplySender) -> (ctx: CmdCtx)
        ensures
            ctx.db_name() == self.db_name(),
            ctx.command() == reply_sender.command(),
            ctx.ticket() == reply_sender.ticket(),
            ctx.written() == reply_sender.written(),
    {
        CmdCtx::new(self.db.clone(), reply_sender)
    }

    /// Changes the database that later commands go to.
    pub fn select_db(&mut self, db: String)
        ensures
            final(self).db_name() == db@,
    {
        self.db = db;
    }

    /// Hands a command on as `handle_cmd` does, once its database is
    /// selected by `snapshot`: a session on the default database moves to the
    /// only database of the snapshot, where there is exactly one, and stays
    /// there for the requests that follow.
    pub fn handle_cmd_selecting(&mut self, reply_sender: CmdReplySender, snapshot: &MetaMap)
        ensures
            final(self).db_name() == snapshot.selected_db(old(self).db_name()),
    {
        let ctx = snapshot.try_select_db(self.new_cmd_ctx(reply_sender));
        self.take_db_name(&ctx);
        self.cmd_ctx_handler.handle_cmd_ctx(ctx);
    }

    /// Takes over the database of a request: the name of a session is one
    /// name for all its requests, so what was selected for one request holds
    /// for those that follow.
    pub fn take_db_name(&mut self, cmd_ctx: &CmdCtx)
        ensures
            final(self).db_name() == cmd_ctx.db_name(),
    {
        self.db = cmd_ctx.get_db_name();
    }
}

impl<H: CmdCtxHandler> CmdHandler for Session<H> {
    fn handle_cmd(&mut self, reply_sender: CmdReplySender)
        ensures
            final(self).db_name() == old(self).db_name(),
    {
        let ctx = self.new_cmd_ctx(reply_sender);
        self.cmd_ctx_handler.handle_cmd_ctx(ctx);
    }
}

/// Why a connection ends.
#[derive(Debug, Clone, Copy, PartialEq, Eq, Structural)]
pub enum SessionError {
    /// The transport failed.
    Io,
    /// A command ended in an error that ends the connection.
    CmdErr(CommandError),
    /// The client sent what is no RESP.
    InvalidProtocol,
    /// The other half of the connection is gone.
    Canceled,
    Other,
}

/// How far the reader came with the bytes it has.
#[derive(Debug)]
pub enum ReadProgress {
    /// One command was read; it took `consumed` bytes. `sender` holds the
    /// command and the number of its place in the reply queue, and is for
    /// the handler of the connection.
    Handled { consumed: usize, sender: CmdReplySender },
    /// The bytes end before the command does: nothing was consumed.
    NeedMore,
    /// The reply queue is full: nothing was consumed, the reader waits.
    NoRoom,
}

/// The text of the reply to bytes that are no RESP.
pub open spec fn invalid_protocol_text() -> Seq<char> {
    "Err invalid protocol"@
}

/// The number that the next request of a connection gets.
pub open spec fn next_ticket(q: QueueModel) -> nat {
    q.first + q.places.len()
}

/// Reads one command from `buf`.
///
/// The command gets the next place of `queue`, so its reply is written in
/// its turn, and comes back with the number of that place, to be handed to
/// the handler of the connection. Bytes that are no RESP yield no command:
/// they get a place too, filled with the reply that says so, and the
/// connection ends with `InvalidProtocol` once that reply is written. Where
/// the bytes end before the command does, or the queue is full, nothing
/// changes.
pub fn handle_read(queue: &mut ReplyQueue, buf: &[u8]) -> (res: Result<ReadProgress, SessionError>)
    requires
        old(queue).wf(),
    ensures
        final(queue).wf(),
        !has_room(old(queue)@) ==> {
            &&& res matches Ok(ReadProgress::NoRoom)
            &&& final(queue)@ == old(queue)@
        },
        has_room(old(queue)@) ==> match parse_resp(buf@, 0, MAX_DEPTH as nat) {
            Parsed::Done { value, end } => {
                &&& res matches Ok(ReadProgress::Handled { consumed, sender })
                &&& consumed == end
                &&& sender.command() == value
                &&& sender.ticket() == next_ticket(old(queue)@)
                &&& sender.written() is None
                &&& final(queue)@ == step(old(queue)@, QueueEvent::Push)
            },
            Parsed::Incomplete => {
                &&& res matches Ok(ReadProgress::NeedMore)
                &&& final(queue)@ == old(queue)@
            },
            Parsed::Invalid => {
                &&& res matches Err(SessionError::InvalidProtocol)
                &&& final(queue)@ == step(
                    step(old(queue)@, QueueEvent::Push),
                    QueueEvent::Complete(
                        next_ticket(old(queue)@),
                        Ok(RespValue::Error(ascii_bytes(invalid_protocol_text()))),
                    ),
                )
            },
        },
{
    if !queue.has_room() {
        return Ok(ReadProgress::NoRoom);
    }
    match decode_resp(buf) {
        Ok((resp, consumed)) => match queue.push() {
            Some(ticket) => Ok(
                ReadProgress::Handled {
                    consumed,
                    sender: CmdReplySender::new(ticket, Command::new(resp)),
                },
            ),
            None => Ok(ReadProgress::NoRoom),
        },
        Err(DecodeError::Incomplete) => Ok(ReadProgress::NeedMore),
        Err(DecodeError::InvalidProtocol) => match queue.push() {
            Some(ticket) => {
                proof {
                    reveal_strlit("Err invalid protocol");
                }
                let reply = error_resp("Err invalid protocol");
                queue.complete(ticket, Ok(reply));
                Err(SessionError::InvalidProtocol)
            },
            None => Ok(ReadProgress::NoRoom),
        },
    }
}

/// The bytes that a reply takes on the wire: the frame of the reply, or for
/// a command that got none the error that says why.
pub open spec fn reply_bytes(reply: Reply) -> Seq<u8> {
    match reply {
        Ok(value) => encode(value),
        Err(e) => encode(RespValue::Error(ascii_bytes(command_error_text(e)))),
    }
}

/// Appends what `result` takes on the wire to `writer`.
pub fn write_to_backend(writer: &mut Vec<u8>, result: &CommandResult)
    ensures
        final(writer)@ == old(writer)@ + reply_bytes(result_model(*result)),
{
    match result {
        Ok(resp) => resp_to_buf(writer, resp),
        Err(e) => {
            let reply = command_error_resp(*e);
            resp_to_buf(writer, &reply);
        },
    }
}

/// The queue once the writer has taken every reply that is ready.
pub open spec fn drained(q: QueueModel) -> QueueModel
    decreases q.places.len(),
{
    if is_ready(q) {
        drained(step(q, QueueEvent::Pop))
    } else {
        q
    }
}

/// The bytes of the replies that are ready, in the order of their requests.
pub open spec fn ready_bytes(q: QueueModel) -> Seq<u8>
    decreases q.places.len(),
{
    if is_ready(q) {
        reply_bytes(q.places[0]->0) + ready_bytes(step(q, QueueEvent::Pop))
    } else {
        Seq::empty()
    }
}

/// Writes every reply that is ready to `writer`, in the order of the
/// requests, and stops at the first request that has no reply yet. Returns
/// the number of replies written.
pub fn handle_write(queue: &mut ReplyQueue, writer: &mut Vec<u8>) -> (count: usize)
    requires
        old(queue).wf(),
    ensures
        final(queue).wf(),
        final(queue)@ == drained(old(queue)@),
        final(writer)@ == old(writer)@ + ready_bytes(old(queue)@),
        count == old(queue)@.places.len() - final(queue)@.places.len(),
{
    let total = queue.len();
    let mut count: usize = 0;
    loop
        invariant
            queue.wf(),
            total == old(queue)@.places.len(),
            drained(queue@) == drained(old(queue)@),
            writer@ + ready_bytes(queue@) == old(writer)@ + ready_bytes(old(queue)@),
            count == old(queue)@.places.len() - queue@.places.len(),
            queue@.places.len() <= old(queue)@.places.len(),
        ensures
            queue.wf(),
            !is_ready(queue@),
            drained(queue@) == drained(old(queue)@),
            writer@ + ready_bytes(queue@) == old(writer)@ + ready_bytes(old(queue)@),
            count == old(queue)@.places.len() - queue@.places.len(),
        decreases queue@.places.len(),
    {
        let ghost before = queue@;
        let ghost written = writer@;
        match queue.pop_ready() {
            Some((_, result)) => {
                write_to_backend(writer, &result);
                proof {
                    assert(writer@ + ready_bytes(queue@) =~= written + ready_bytes(before));
                }
                count += 1;
            },
            None => {
                break ;
            },
        }
    }
    proof {
        assert(writer@ =~= writer@ + ready_bytes(queue@));
    }
    count
}

/// What wakes the writer.
#[derive(Debug, Clone, Copy, PartialEq, Eq, Structural)]
pub enum WriteEvent {
    /// A reply came.
    Write,
    /// The flush timer ticked.
    Flush,
}

/// What the writer does on `event`, and the bytes that go to the socket now.
///
/// When a reply came, every reply that is ready is written into `writer` in
/// the order of the requests; the writer hands on what it holds once it is
/// full. On a tick the writer is flushed, whether anything was written since
/// the last tick or not.
pub fn on_write_event(
    event: WriteEvent,
    queue: &mut ReplyQueue,
    writer: &mut CircularBufWriter,
) -> (out: Vec<u8>)
    requires
        old(queue).wf(),
    ensures
        final(queue).wf(),
        final(writer).capacity() == old(writer).capacity(),
        match event {
            WriteEvent::Write => {
                &&& final(queue)@ == drained(old(queue)@)
                &&& out@ + final(writer).buffered() == old(writer).buffered() + ready_bytes(
                    old(queue)@,
                )
            },
            WriteEvent::Flush => {
                &&& final(queue)@ == old(queue)@
                &&& out@ == old(writer).buffered()
                &&& final(writer).buffered() == Seq::<u8>::empty()
            },
        },
{
    match event {
        WriteEvent::Write => {
            let mut bytes: Vec<u8> = Vec::new();
            handle_write(queue, &mut bytes);
            assert(bytes@ =~= ready_bytes(old(queue)@));
            writer.write(bytes.as_slice())
        },
        WriteEvent::Flush => writer.flush(),
    }
}

} // verus!
