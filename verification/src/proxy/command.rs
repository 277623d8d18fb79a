//! Commands as the proxy sees them, and what a command can end in.

use crate::protocol::resp::{model_of_items, Array, BulkStr, Resp, RespValue};
use vstd::prelude::*;
use vstd::string::*;

verus! {

/// Why a command got no reply from a backend.
#[derive(Debug, Clone, Copy, PartialEq, Eq, Structural)]
pub enum CommandError {
    /// The command was let go of before anything replied to it.
    Dropped,
    /// The connection to the backend failed while the command was in flight.
    BackendError,
    /// The reply channel was closed.
    Canceled,
}

/// What a command ends in: a reply, or the reason why there is none.
pub type CommandResult = Result<Resp, CommandError>;

/// The model of a command's end.
pub open spec fn result_model(result: CommandResult) -> Result<RespValue, CommandError> {
    match result {
        Ok(resp) => Ok(resp@),
        Err(e) => Err(e),
    }
}

/// The bytes of a text that is ASCII.
pub open spec fn ascii_bytes(text: Seq<char>) -> Seq<u8> {
    Seq::new(text.len(), |i: int| text[i] as u8)
}

/// The bytes of `text`.
pub fn bytes_of(text: &str) -> (bytes: Vec<u8>)
    requires
        is_ascii(text),
    ensures
        bytes@ == ascii_bytes(text@),
{
    let bytes = text.as_bytes_vec();
    proof {
        is_ascii_spec_bytes(text);
    }
    bytes
}

/// The error reply with the text `text`.
pub fn error_resp(text: &str) -> (resp: Resp)
    requires
        is_ascii(text),
    ensures
        resp@ == RespValue::Error(ascii_bytes(text@)),
{
    Resp::Error(bytes_of(text))
}

/// The text that tells a client why its command got no reply.
pub open spec fn command_error_text(e: CommandError) -> Seq<char> {
    match e {
        CommandError::Dropped => "Err cmd error dropped"@,
        CommandError::BackendError => "Err backend error"@,
        CommandError::Canceled => "Err cmd error canceled"@,
    }
}

/// The reply that tells a client why its command got no reply.
pub fn command_error_resp(e: CommandError) -> (resp: Resp)
    ensures
        resp@ == RespValue::Error(ascii_bytes(command_error_text(e))),
{
    proof {
        reveal_strlit("Err cmd error dropped");
        reveal_strlit("Err backend error");
        reveal_strlit("Err cmd error canceled");
    }
    match e {
        CommandError::Dropped => error_resp("Err cmd error dropped"),
        CommandError::BackendError => error_resp("Err backend error"),
        CommandError::Canceled => error_resp("Err cmd error canceled"),
    }
}

/// The key of a command: the second element of the array, where that is a
/// bulk string. The first element is the command's name.
pub open spec fn command_key(value: RespValue) -> Option<Seq<u8>> {
    match value {
        RespValue::Array(Some(items)) => if items.len() >= 2 {
            match items[1] {
                RespValue::Bulk(Some(key)) => Some(key),
                _ => None,
            }
        } else {
            None
        },
        _ => None,
    }
}

/// One request of a client.
#[derive(Debug)]
pub struct Command {
    request: Resp,
}

impl View for Command {
    type V = RespValue;

    closed spec fn view(&self) -> RespValue {
        self.request@
    }
}

impl Command {
    pub fn new(request: Resp) -> (cmd: Command)
        ensures
            cmd@ == request@,
    {
        Command { request }
    }

    pub fn get_resp(&self) -> (resp: &Resp)
        ensures
            resp@ == self@,
    {
        &self.request
    }

    /// The key by which the command is routed, if it has one.
    pub fn get_key(&self) -> (key: Option<&Vec<u8>>)
        ensures
            match key {
                Some(k) => command_key(self@) == Some(k@),
                None => command_key(self@) is None,
            },
    {
        match &self.request {
            Resp::Arr(Array::Arr(items)) => {
                proof {
                    assert(self.request@ == RespValue::Array(Some(model_of_items(items@))));
                    if items.len() >= 2 {
                        assert(model_of_items(items@)[1] == items[1]@);
                    }
                }
                if items.len() >= 2 {
                    match &items[1] {
                        Resp::Bulk(BulkStr::Str(key)) => Some(key),
                        _ => None,
                    }
                } else {
                    None
                }
            },
            _ => None,
        }
    }
}

/// The writing end of a command's reply: it holds the command and takes
/// its result, once.
#[derive(Debug)]
pub struct CmdReplySender {
    ticket: u64,
    cmd: Command,
    result: Option<CommandResult>,
}

impl CmdReplySender {
    /// The command.
    pub closed spec fn command(&self) -> RespValue {
        self.cmd@
    }

    /// The result that was written, if one was.
    pub closed spec fn written(&self) -> Option<Result<RespValue, CommandError>> {
        match self.result {
            Some(result) => Some(result_model(result)),
            None => None,
        }
    }

    /// The number of the request on its connection.
    pub closed spec fn ticket(&self) -> u64 {
        self.ticket
    }

    /// A sender for request `ticket` of a connection, which is `cmd`, with
    /// nothing written.
    pub fn new(ticket: u64, cmd: Command) -> (sender: CmdReplySender)
        ensures
            sender.ticket() == ticket,
            sender.command() == cmd@,
            sender.written() is None,
    {
        CmdReplySender { ticket, cmd, result: None }
    }

    pub fn get_ticket(&self) -> (ticket: u64)
        ensures
            ticket == self.ticket(),
    {
        self.ticket
    }

    pub fn get_cmd(&self) -> (cmd: &Command)
        ensures
            cmd@ == self.command(),
    {
        &self.cmd
    }

    /// Whether a result was written.
    pub fn is_written(&self) -> (written: bool)
        ensures
            written == self.written() is Some,
    {
        self.result.is_some()
    }

    /// Writes `result`, unless a result was written before: the first result
    /// stays. Says whether `result` was written.
    pub fn try_send(&mut self, result: CommandResult) -> (sent: bool)
        ensures
            final(self).command() == old(self).command(),
            final(self).ticket() == old(self).ticket(),
            sent == old(self).written() is None,
            sent ==> final(self).written() == Some(result_model(result)),
            !sent ==> final(self).written() == old(self).written(),
    {
        if self.result.is_some() {
            false
        } else {
            self.result = Some(result);
            true
        }
    }

    /// Writes `result`; hands it back where a result was written before.
    pub fn send(&mut self, result: CommandResult) -> (res: Result<(), CommandResult>)
        ensures
            final(self).command() == old(self).command(),
            final(self).ticket() == old(self).ticket(),
            old(self).written() is None ==> res is Ok && final(self).written() == Some(
                result_model(result),
            ),
            old(self).written() is Some ==> res == Err::<(), CommandResult>(result)
                && final(self).written() == old(self).written(),
    {
        if self.result.is_some() {
            Err(result)
        } else {
            self.result = Some(result);
            Ok(())
        }
    }

    /// What the reading end gets: the result that was written, or `Dropped`
    /// where none was.
    pub open spec fn outcome(&self) -> Result<RespValue, CommandError> {
        match self.written() {
            Some(result) => result,
            None => Err(CommandError::Dropped),
        }
    }

    /// Ends the command and gives what the reading end gets.
    pub fn into_result(self) -> (result: CommandResult)
        ensures
            result_model(result) == self.outcome(),
    {
        match self.result {
            Some(result) => result,
            None => Err(CommandError::Dropped),
        }
    }
}

} // verus!
