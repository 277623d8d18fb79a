use shard_proxy::common::batch_write::{CircularBufWriter, WRITE_BUF_SIZE};
use shard_proxy::protocol::resp::{Array, BulkStr, Resp};
use shard_proxy::proxy::backend::BackendSender;
use shard_proxy::proxy::command::{CmdReplySender, Command, CommandError};
use shard_proxy::proxy::database::DBSendError;
use shard_proxy::proxy::queue::ReplyQueue;
use shard_proxy::proxy::session::{on_write_event, CmdCtx, WriteEvent};

fn bulk(s: &str) -> Resp {
    Resp::Bulk(BulkStr::Str(s.as_bytes().to_vec()))
}

fn get(ticket: u64, key: &str) -> CmdCtx {
    let cmd = Command::new(Resp::Arr(Array::Arr(vec![bulk("GET"), bulk(key)])));
    CmdCtx::new("c".to_string(), CmdReplySender::new(ticket, cmd))
}

#[test]
fn requests_go_out_in_order_and_replies_pair_in_order() {
    let mut sender = BackendSender::new("B1".to_string(), 8);
    assert_eq!(sender.get_address(), "B1");
    assert!(sender.send(get(0, "a")).is_ok());
    assert!(sender.send(get(1, "b")).is_ok());
    assert_eq!(sender.waiting_len(), 2);
    let mut wire = Vec::new();
    assert!(sender.next_request(&mut wire));
    assert_eq!(wire, b"*2\r\n$3\r\nGET\r\n$1\r\na\r\n");
    assert!(sender.next_request(&mut wire));
    assert_eq!(wire, b"*2\r\n$3\r\nGET\r\n$1\r\na\r\n*2\r\n$3\r\nGET\r\n$1\r\nb\r\n");
    assert!(!sender.next_request(&mut wire));
    assert_eq!(sender.waiting_len(), 0);
    assert_eq!(sender.pending_len(), 2);
    let first = sender.on_reply(bulk("hello")).unwrap();
    assert_eq!(first.get_ticket(), 0);
    assert_eq!(first.into_result(), Ok(bulk("hello")));
    let second = sender.on_reply(Resp::Bulk(BulkStr::Nil)).unwrap();
    assert_eq!(second.get_ticket(), 1);
    assert_eq!(second.into_result(), Ok(Resp::Bulk(BulkStr::Nil)));
    assert!(sender.on_reply(bulk("stray")).is_none());
}

#[test]
fn full_queue_is_busy() {
    let mut sender = BackendSender::new("B1".to_string(), 2);
    assert!(sender.send(get(0, "a")).is_ok());
    assert!(sender.send(get(1, "b")).is_ok());
    match sender.send(get(2, "c")) {
        Err(DBSendError::Busy(ctx)) => {
            assert_eq!(ctx.get_ticket(), 2);
            assert_eq!(
                DBSendError::Busy(ctx).into_cmd_ctx().into_result(),
                Ok(Resp::Error(b"Err backend busy".to_vec()))
            );
        }
        _ => panic!("expected Busy"),
    }
    assert_eq!(sender.waiting_len(), 2);
    let mut wire = Vec::new();
    assert!(sender.next_request(&mut wire));
    assert!(sender.send(get(3, "d")).is_ok());
    let mut none = BackendSender::new("B1".to_string(), 0);
    assert!(matches!(none.send(get(0, "a")), Err(DBSendError::Busy(_))));
}

#[test]
fn connection_failure_fails_what_is_in_flight() {
    let mut sender = BackendSender::new("B1".to_string(), 8);
    for (ticket, key) in [(0, "a"), (1, "b"), (2, "c")] {
        assert!(sender.send(get(ticket, key)).is_ok());
    }
    let mut wire = Vec::new();
    assert!(sender.next_request(&mut wire));
    assert!(sender.next_request(&mut wire));
    let failed = sender.on_error();
    assert_eq!(failed.len(), 2);
    let mut tickets = vec![];
    let mut queue = ReplyQueue::new();
    for ctx in failed {
        assert_eq!(queue.push(), Some(ctx.get_ticket()));
        tickets.push(ctx.get_ticket());
        assert!(queue.complete(ctx.get_ticket(), ctx.into_result()));
    }
    assert_eq!(tickets, vec![0, 1]);
    assert_eq!(queue.pop_ready(), Some((0, Err(CommandError::BackendError))));
    assert_eq!(sender.pending_len(), 0);
    assert_eq!(sender.waiting_len(), 1);
    assert!(sender.on_error().is_empty());
    assert!(sender.next_request(&mut wire));
    assert_eq!(sender.on_reply(bulk("v")).unwrap().get_ticket(), 2);
}

#[test]
fn writer_hands_on_when_full_and_on_flush() {
    let mut writer = CircularBufWriter::new(8);
    assert!(writer.write(b"abc").is_empty());
    assert_eq!(writer.len(), 3);
    assert!(writer.write(b"de").is_empty());
    assert_eq!(writer.write(b"fgh"), b"abcdefgh");
    assert_eq!(writer.len(), 0);
    assert_eq!(writer.write(b"0123456789"), b"0123456789");
    assert!(writer.write(b"x").is_empty());
    assert_eq!(writer.flush(), b"x");
    assert_eq!(writer.len(), 0);
    assert_eq!(WRITE_BUF_SIZE, 16 * 1024);
}

#[test]
fn flush_without_writes_is_harmless() {
    let mut writer = CircularBufWriter::new(WRITE_BUF_SIZE);
    assert!(writer.flush().is_empty());
    assert!(writer.flush().is_empty());
    assert!(writer.write(b"a").is_empty());
    assert_eq!(writer.flush(), b"a");
    assert!(writer.flush().is_empty());
    assert!(writer.write(b"b").is_empty());
    assert_eq!(writer.flush(), b"b");
}

#[test]
fn tick_flushes_what_replies_left_in_the_buffer() {
    let mut queue = ReplyQueue::new();
    let mut writer = CircularBufWriter::new(WRITE_BUF_SIZE);
    assert!(on_write_event(WriteEvent::Flush, &mut queue, &mut writer).is_empty());
    assert_eq!(queue.push(), Some(0));
    assert_eq!(queue.push(), Some(1));
    assert!(queue.complete(1, Ok(bulk("b"))));
    assert!(on_write_event(WriteEvent::Write, &mut queue, &mut writer).is_empty());
    assert_eq!(writer.len(), 0);
    assert!(queue.complete(0, Ok(bulk("a"))));
    assert!(on_write_event(WriteEvent::Write, &mut queue, &mut writer).is_empty());
    assert_eq!(writer.len(), 14);
    assert_eq!(queue.len(), 0);
    assert_eq!(
        on_write_event(WriteEvent::Flush, &mut queue, &mut writer),
        b"$1\r\na\r\n$1\r\nb\r\n"
    );
    assert!(on_write_event(WriteEvent::Flush, &mut queue, &mut writer).is_empty());
}

#[test]
fn a_full_buffer_is_handed_on_without_a_tick() {
    let mut queue = ReplyQueue::new();
    let mut writer = CircularBufWriter::new(10);
    assert_eq!(queue.push(), Some(0));
    assert!(queue.complete(0, Ok(bulk("hello"))));
    assert_eq!(
        on_write_event(WriteEvent::Write, &mut queue, &mut writer),
        b"$5\r\nhello\r\n"
    );
    assert_eq!(writer.len(), 0);
}
