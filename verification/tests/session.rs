use shard_proxy::protocol::resp::{Array, BulkStr, Resp};
use shard_proxy::proxy::command::{
    bytes_of, command_error_resp, CmdReplySender, Command, CommandError,
};
use shard_proxy::proxy::database::{db_error_resp, DBError, DBSendError};
use shard_proxy::proxy::queue::{ReplyQueue, FIFO_CAPACITY};
use shard_proxy::proxy::session::{
    handle_read, handle_write, write_to_backend, CmdCtx, CmdCtxHandler, CmdHandler, ReadProgress,
    Session, SessionError, DEFAULT_DB,
};
use std::cell::RefCell;
use std::rc::Rc;

fn bulk(s: &str) -> Resp {
    Resp::Bulk(BulkStr::Str(s.as_bytes().to_vec()))
}

fn get(key: &str) -> Resp {
    Resp::Arr(Array::Arr(vec![bulk("GET"), bulk(key)]))
}

/// Keeps what it is handed.
#[derive(Clone, Default)]
struct Collector {
    seen: Rc<RefCell<Vec<CmdCtx>>>,
}

impl CmdCtxHandler for Collector {
    fn handle_cmd_ctx(&self, cmd_ctx: CmdCtx) {
        self.seen.borrow_mut().push(cmd_ctx);
    }
}

#[derive(Default)]
struct Senders {
    seen: Vec<CmdReplySender>,
}

impl CmdHandler for Senders {
    fn handle_cmd(&mut self, sender: CmdReplySender) {
        self.seen.push(sender);
    }
}

#[derive(Debug, PartialEq)]
enum Seen {
    Handled(usize),
    NeedMore,
    NoRoom,
}

/// Reads one command and hands it to the handler, as a connection does.
fn read(handler: &mut Senders, queue: &mut ReplyQueue, buf: &[u8]) -> Result<Seen, SessionError> {
    match handle_read(queue, buf)? {
        ReadProgress::Handled { consumed, sender } => {
            handler.handle_cmd(sender);
            Ok(Seen::Handled(consumed))
        }
        ReadProgress::NeedMore => Ok(Seen::NeedMore),
        ReadProgress::NoRoom => Ok(Seen::NoRoom),
    }
}

#[test]
fn sender_takes_one_result() {
    let mut sender = CmdReplySender::new(3, Command::new(get("k")));
    assert_eq!(sender.get_ticket(), 3);
    assert_eq!(*sender.get_cmd().get_resp(), get("k"));
    assert!(!sender.is_written());
    assert!(sender.try_send(Ok(bulk("first"))));
    assert!(sender.is_written());
    assert!(!sender.try_send(Ok(bulk("second"))));
    assert_eq!(sender.send(Err(CommandError::BackendError)), Err(Err(CommandError::BackendError)));
    assert_eq!(sender.into_result(), Ok(bulk("first")));
}

#[test]
fn sender_send_writes_when_empty() {
    let mut sender = CmdReplySender::new(0, Command::new(get("k")));
    assert_eq!(sender.send(Err(CommandError::BackendError)), Ok(()));
    assert_eq!(sender.into_result(), Err(CommandError::BackendError));
}

#[test]
fn cmd_ctx_dropped_without_reply_ends_in_dropped() {
    let ctx = CmdCtx::new("c".to_string(), CmdReplySender::new(0, Command::new(get("k"))));
    assert_eq!(ctx.into_result(), Err(CommandError::Dropped));
}

#[test]
fn cmd_ctx_gets_one_reply() {
    let mut ctx = CmdCtx::new("c".to_string(), CmdReplySender::new(9, Command::new(get("k"))));
    assert_eq!(ctx.get_ticket(), 9);
    assert_eq!(*ctx.get_cmd().get_resp(), get("k"));
    assert_eq!(*ctx.get_resp(), get("k"));
    assert!(ctx.set_result(Ok(bulk("hello"))));
    assert!(!ctx.set_result(Err(CommandError::BackendError)));
    assert_eq!(ctx.into_result(), Ok(bulk("hello")));
}

#[test]
fn cmd_ctx_db_name() {
    let mut ctx = CmdCtx::new("c".to_string(), CmdReplySender::new(0, Command::new(get("k"))));
    assert_eq!(ctx.get_db_name(), "c");
    ctx.set_db_name("d".to_string());
    assert_eq!(ctx.get_db_name(), "d");
    assert_eq!(*ctx.get_resp(), get("k"));
}

#[test]
fn command_key_is_the_second_word() {
    assert_eq!(Command::new(get("k")).get_key(), Some(&b"k".to_vec()));
    let set = Resp::Arr(Array::Arr(vec![bulk("SET"), bulk("a"), bulk("b")]));
    assert_eq!(Command::new(set).get_key(), Some(&b"a".to_vec()));
    assert_eq!(Command::new(Resp::Arr(Array::Arr(vec![bulk("PING")]))).get_key(), None);
    assert_eq!(Command::new(Resp::Arr(Array::Nil)).get_key(), None);
    assert_eq!(Command::new(bulk("GET")).get_key(), None);
    let nil_key = Resp::Arr(Array::Arr(vec![bulk("GET"), Resp::Bulk(BulkStr::Nil)]));
    assert_eq!(Command::new(nil_key).get_key(), None);
    let int_key = Resp::Arr(Array::Arr(vec![bulk("GET"), Resp::Integer(b"1".to_vec())]));
    assert_eq!(Command::new(int_key).get_key(), None);
}

#[test]
fn session_starts_on_the_default_database() {
    let collector = Collector::default();
    let mut session = Session::new(collector.clone());
    session.handle_cmd(CmdReplySender::new(0, Command::new(get("a"))));
    session.select_db("mine".to_string());
    session.handle_cmd(CmdReplySender::new(1, Command::new(get("b"))));
    let seen = collector.seen.borrow();
    assert_eq!(seen.len(), 2);
    assert_eq!(seen[0].get_db_name(), DEFAULT_DB);
    assert_eq!(seen[0].get_ticket(), 0);
    assert_eq!(*seen[0].get_resp(), get("a"));
    assert_eq!(seen[1].get_db_name(), "mine");
    assert_eq!(seen[1].get_ticket(), 1);
    assert_eq!(DEFAULT_DB, "admin");
}

#[test]
fn read_hands_on_one_command_at_a_time() {
    let mut handler = Senders::default();
    let mut queue = ReplyQueue::new();
    let buf = b"*2\r\n$3\r\nGET\r\n$1\r\na\r\n*2\r\n$3\r\nGET\r\n$1\r\nb\r\n*2\r\n$3";
    let first = read(&mut handler, &mut queue, buf);
    assert_eq!(first, Ok(Seen::Handled(20)));
    let second = read(&mut handler, &mut queue, &buf[20..]);
    assert_eq!(second, Ok(Seen::Handled(20)));
    let third = read(&mut handler, &mut queue, &buf[40..]);
    assert_eq!(third, Ok(Seen::NeedMore));
    assert_eq!(queue.len(), 2);
    assert_eq!(handler.seen.len(), 2);
    assert_eq!(handler.seen[0].get_ticket(), 0);
    assert_eq!(*handler.seen[0].get_cmd().get_resp(), get("a"));
    assert_eq!(handler.seen[1].get_ticket(), 1);
    assert_eq!(*handler.seen[1].get_cmd().get_resp(), get("b"));
}

#[test]
fn invalid_protocol() {
    let mut handler = Senders::default();
    let mut queue = ReplyQueue::new();
    let res = read(&mut handler, &mut queue, b"?garbage\r\n");
    assert_eq!(res, Err(SessionError::InvalidProtocol));
    assert!(handler.seen.is_empty());
    let mut wire = Vec::new();
    assert_eq!(handle_write(&mut queue, &mut wire), 1);
    assert_eq!(wire, b"-Err invalid protocol\r\n");
    assert_eq!(queue.len(), 0);
}

#[test]
fn invalid_protocol_reply_waits_for_its_turn() {
    let mut handler = Senders::default();
    let mut queue = ReplyQueue::new();
    assert!(read(&mut handler, &mut queue, b"+PING\r\n").is_ok());
    assert_eq!(
        read(&mut handler, &mut queue, b"?garbage\r\n"),
        Err(SessionError::InvalidProtocol)
    );
    let mut wire = Vec::new();
    assert_eq!(handle_write(&mut queue, &mut wire), 0);
    assert!(wire.is_empty());
    assert!(queue.complete(0, Ok(Resp::Simple(b"PONG".to_vec()))));
    assert_eq!(handle_write(&mut queue, &mut wire), 2);
    assert_eq!(wire, b"+PONG\r\n-Err invalid protocol\r\n");
}

#[test]
fn full_queue_holds_the_reader_back() {
    let mut handler = Senders::default();
    let mut queue = ReplyQueue::new();
    for _ in 0..FIFO_CAPACITY {
        assert_eq!(
            read(&mut handler, &mut queue, b"+PING\r\n"),
            Ok(Seen::Handled(7))
        );
    }
    assert_eq!(FIFO_CAPACITY, 1024);
    assert_eq!(queue.len(), 1024);
    assert!(!queue.has_room());
    assert_eq!(read(&mut handler, &mut queue, b"+PING\r\n"), Ok(Seen::NoRoom));
    assert_eq!(read(&mut handler, &mut queue, b"?x\r\n"), Ok(Seen::NoRoom));
    assert_eq!(read(&mut handler, &mut queue, b""), Ok(Seen::NoRoom));
    assert_eq!(queue.push(), None);
    assert_eq!(handler.seen.len(), 1024);
    assert!(queue.complete(0, Ok(bulk("x"))));
    assert!(queue.pop_ready().is_some());
    assert_eq!(
        read(&mut handler, &mut queue, b"+PING\r\n"),
        Ok(Seen::Handled(7))
    );
    assert_eq!(handler.seen[1024].get_ticket(), 1024);
}

#[test]
fn replies_leave_in_request_order() {
    let mut queue = ReplyQueue::new();
    assert_eq!(queue.push(), Some(0));
    assert_eq!(queue.push(), Some(1));
    assert_eq!(queue.push(), Some(2));
    assert!(queue.complete(2, Ok(bulk("c"))));
    assert!(queue.complete(1, Ok(bulk("b"))));
    assert_eq!(queue.pop_ready(), None);
    assert!(queue.complete(0, Ok(bulk("a"))));
    assert_eq!(queue.pop_ready(), Some((0, Ok(bulk("a")))));
    assert_eq!(queue.pop_ready(), Some((1, Ok(bulk("b")))));
    assert_eq!(queue.pop_ready(), Some((2, Ok(bulk("c")))));
    assert_eq!(queue.pop_ready(), None);
    assert_eq!(queue.push(), Some(3));
}

#[test]
fn a_request_gets_one_reply() {
    let mut queue = ReplyQueue::new();
    assert_eq!(queue.push(), Some(0));
    assert!(!queue.complete(1, Ok(bulk("early"))));
    assert!(queue.complete(0, Ok(bulk("first"))));
    assert!(!queue.complete(0, Ok(bulk("second"))));
    assert_eq!(queue.pop_ready(), Some((0, Ok(bulk("first")))));
    assert!(!queue.complete(0, Ok(bulk("late"))));
    assert_eq!(queue.len(), 0);
}

#[test]
fn cmd_ctx_drop() {
    let mut handler = Senders::default();
    let mut queue = ReplyQueue::new();
    assert!(read(&mut handler, &mut queue, b"*2\r\n$3\r\nGET\r\n$1\r\na\r\n").is_ok());
    assert!(read(&mut handler, &mut queue, b"*2\r\n$3\r\nGET\r\n$1\r\nb\r\n").is_ok());
    let second = handler.seen.pop().unwrap();
    let first = handler.seen.pop().unwrap();
    let mut answered = CmdCtx::new("c".to_string(), second);
    assert!(answered.set_result(Ok(bulk("hello"))));
    let ticket = answered.get_ticket();
    assert!(queue.complete(ticket, answered.into_result()));
    let dropped = CmdCtx::new("c".to_string(), first);
    let ticket = dropped.get_ticket();
    assert!(queue.complete(ticket, dropped.into_result()));
    let mut wire = Vec::new();
    assert_eq!(handle_write(&mut queue, &mut wire), 2);
    assert_eq!(wire, b"-Err cmd error dropped\r\n$5\r\nhello\r\n");
}

#[test]
fn write_to_backend_renders_replies_and_errors() {
    let mut wire = b"+a\r\n".to_vec();
    write_to_backend(&mut wire, &Ok(bulk("hello")));
    assert_eq!(wire, b"+a\r\n$5\r\nhello\r\n");
    let mut wire = Vec::new();
    write_to_backend(&mut wire, &Err(CommandError::Dropped));
    write_to_backend(&mut wire, &Err(CommandError::BackendError));
    write_to_backend(&mut wire, &Err(CommandError::Canceled));
    assert_eq!(
        wire,
        b"-Err cmd error dropped\r\n-Err backend error\r\n-Err cmd error canceled\r\n"
    );
}

#[test]
fn error_replies_have_their_texts() {
    assert_eq!(db_error_resp(DBError::OldEpoch), Resp::Error(b"Err old epoch".to_vec()));
    assert_eq!(
        command_error_resp(CommandError::BackendError),
        Resp::Error(b"Err backend error".to_vec())
    );
    assert_eq!(bytes_of("Err x"), b"Err x");
    let ctx = || CmdCtx::new("c".to_string(), CmdReplySender::new(0, Command::new(get("k"))));
    assert_eq!(
        DBSendError::SlotNotFound(ctx()).into_cmd_ctx().into_result(),
        Ok(Resp::Error(b"Err slot not served".to_vec()))
    );
    assert_eq!(
        DBSendError::DBNotFound(ctx()).into_cmd_ctx().into_result(),
        Ok(Resp::Error(b"Err db not found".to_vec()))
    );
    assert_eq!(
        DBSendError::MissingKey(ctx()).into_cmd_ctx().into_result(),
        Ok(Resp::Error(b"Err missing key".to_vec()))
    );
    let mut answered = ctx();
    assert!(answered.set_result(Ok(bulk("v"))));
    assert_eq!(DBSendError::SlotNotFound(answered).into_cmd_ctx().into_result(), Ok(bulk("v")));
}

#[test]
fn read_command_carries_its_place() {
    let mut queue = ReplyQueue::new();
    assert_eq!(queue.push(), Some(0));
    match handle_read(&mut queue, b"*2\r\n$3\r\nGET\r\n$1\r\na\r\nrest") {
        Ok(ReadProgress::Handled { consumed, sender }) => {
            assert_eq!(consumed, 20);
            assert_eq!(sender.get_ticket(), 1);
            assert_eq!(*sender.get_cmd().get_resp(), get("a"));
            assert!(!sender.is_written());
        }
        other => panic!("{:?}", other),
    }
    assert_eq!(queue.len(), 2);
    assert!(matches!(handle_read(&mut queue, b"+\r\n"), Ok(ReadProgress::Handled { consumed: 3, .. })));
}

#[test]
fn garbage_yields_no_command() {
    let mut queue = ReplyQueue::new();
    assert!(matches!(handle_read(&mut queue, b"?garbage\r\n"), Err(SessionError::InvalidProtocol)));
    assert_eq!(queue.len(), 1);
    assert!(matches!(handle_read(&mut queue, b"*2\r\n$3"), Ok(ReadProgress::NeedMore)));
    assert_eq!(queue.len(), 1);
}

#[test]
fn session_takes_over_the_database_of_a_request() {
    let collector = Collector::default();
    let mut session = Session::new(collector.clone());
    let mut ctx = session.new_cmd_ctx(CmdReplySender::new(0, Command::new(get("a"))));
    assert_eq!(ctx.get_db_name(), DEFAULT_DB);
    ctx.set_db_name("mine".to_string());
    session.take_db_name(&ctx);
    session.handle_cmd(CmdReplySender::new(1, Command::new(get("b"))));
    session.handle_cmd(CmdReplySender::new(2, Command::new(get("c"))));
    let seen = collector.seen.borrow();
    assert_eq!(seen[0].get_db_name(), "mine");
    assert_eq!(seen[1].get_db_name(), "mine");
}

#[test]
fn finished_request_fills_its_place() {
    let mut queue = ReplyQueue::new();
    assert_eq!(queue.push(), Some(0));
    assert_eq!(queue.push(), Some(1));
    let mut answered = CmdCtx::new("c".to_string(), CmdReplySender::new(1, Command::new(get("b"))));
    assert!(answered.set_result(Ok(bulk("v"))));
    assert!(queue.finish(answered));
    let let_go = CmdCtx::new("c".to_string(), CmdReplySender::new(0, Command::new(get("a"))));
    assert!(queue.finish(let_go));
    let again = CmdCtx::new("c".to_string(), CmdReplySender::new(0, Command::new(get("a"))));
    assert!(!queue.finish(again));
    assert_eq!(queue.pop_ready(), Some((0, Err(CommandError::Dropped))));
    assert_eq!(queue.pop_ready(), Some((1, Ok(bulk("v")))));
    let stray = CmdCtx::new("c".to_string(), CmdReplySender::new(7, Command::new(get("a"))));
    assert!(!queue.finish(stray));
}
