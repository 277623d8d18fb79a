//! RESP encoder: the bytes that a value takes on the wire.

use super::decoder::{COLON, CR, DIGIT_ZERO, DOLLAR, LF, MINUS, PLUS, STAR};
use super::resp::{model_of_items, Array, BulkStr, Resp, RespValue};
use vstd::prelude::*;

verus! {

/// The decimal digits of `n`, without leading zeros.
pub open spec fn render_nat(n: nat) -> Seq<u8>
    decreases n,
{
    if n < 10 {
        seq![(DIGIT_ZERO + n) as u8]
    } else {
        render_nat(n / 10).push((DIGIT_ZERO + n % 10) as u8)
    }
}

/// The line terminator.
pub open spec fn crlf() -> Seq<u8> {
    seq![CR, LF]
}

/// The length line of a nil bulk string or array.
pub open spec fn nil_length() -> Seq<u8> {
    seq![MINUS, (DIGIT_ZERO + 1) as u8]
}

/// The frames of `items`, one behind the other.
pub open spec fn encode_items(items: Seq<RespValue>) -> Seq<u8>
    decreases items, 0nat,
{
    if items.len() == 0 {
        Seq::empty()
    } else {
        encode(items[0]) + encode_items(items.skip(1))
    }
}

/// The frame of `value`.
pub open spec fn encode(value: RespValue) -> Seq<u8>
    decreases value, 1nat,
{
    match value {
        RespValue::Error(line) => seq![MINUS] + line + crlf(),
        RespValue::Simple(line) => seq![PLUS] + line + crlf(),
        RespValue::Integer(line) => seq![COLON] + line + crlf(),
        RespValue::Bulk(None) => seq![DOLLAR] + nil_length() + crlf(),
        RespValue::Bulk(Some(bytes)) => seq![DOLLAR] + render_nat(bytes.len()) + crlf() + bytes
            + crlf(),
        RespValue::Array(None) => seq![STAR] + nil_length() + crlf(),
        RespValue::Array(Some(items)) => seq![STAR] + render_nat(items.len()) + crlf()
            + encode_items(items),
    }
}

/// Appends the decimal digits of `n` to `buf`.
pub fn write_nat(buf: &mut Vec<u8>, n: usize)
    ensures
        final(buf)@ == old(buf)@ + render_nat(n as nat),
    decreases n,
{
    if n >= 10 {
        write_nat(buf, n / 10);
    }
    buf.push(DIGIT_ZERO + (n % 10) as u8);
    assert(buf@ =~= old(buf)@ + render_nat(n as nat));
}

/// Appends `bytes` to `buf`.
pub fn write_bytes(buf: &mut Vec<u8>, bytes: &Vec<u8>)
    ensures
        final(buf)@ == old(buf)@ + bytes@,
{
    let mut i: usize = 0;
    while i < bytes.len()
        invariant
            i <= bytes.len(),
            buf@ == old(buf)@ + bytes@.take(i as int),
        decreases bytes.len() - i,
    {
        buf.push(bytes[i]);
        i += 1;
    }
    assert(bytes@.take(i as int) =~= bytes@);
}

/// Appends the line terminator to `buf`.
pub fn write_crlf(buf: &mut Vec<u8>)
    ensures
        final(buf)@ == old(buf)@ + crlf(),
{
    buf.push(CR);
    buf.push(LF);
    assert(buf@ =~= old(buf)@ + crlf());
}

/// Appends the line `prefix`, `line`, CR LF to `buf`.
pub fn write_line(buf: &mut Vec<u8>, prefix: u8, line: &Vec<u8>)
    ensures
        final(buf)@ == old(buf)@ + (seq![prefix] + line@ + crlf()),
{
    buf.push(prefix);
    write_bytes(buf, line);
    write_crlf(buf);
    assert(buf@ =~= old(buf)@ + (seq![prefix] + line@ + crlf()));
}

/// Appends `prefix` and the length line of nil to `buf`.
pub fn write_nil(buf: &mut Vec<u8>, prefix: u8)
    ensures
        final(buf)@ == old(buf)@ + (seq![prefix] + nil_length() + crlf()),
{
    buf.push(prefix);
    buf.push(MINUS);
    buf.push(DIGIT_ZERO + 1);
    write_crlf(buf);
    assert(buf@ =~= old(buf)@ + (seq![prefix] + nil_length() + crlf()));
}

/// Appends the frame of `resp` to `buf`.
pub fn resp_to_buf(buf: &mut Vec<u8>, resp: &Resp)
    ensures
        final(buf)@ == old(buf)@ + encode(resp@),
    decreases resp,
{
    match resp {
        Resp::Error(line) => write_line(buf, MINUS, line),
        Resp::Simple(line) => write_line(buf, PLUS, line),
        Resp::Integer(line) => write_line(buf, COLON, line),
        Resp::Bulk(BulkStr::Nil) => write_nil(buf, DOLLAR),
        Resp::Bulk(BulkStr::Str(bytes)) => {
            buf.push(DOLLAR);
            write_nat(buf, bytes.len());
            write_crlf(buf);
            write_bytes(buf, bytes);
            write_crlf(buf);
            assert(buf@ =~= old(buf)@ + encode(resp@));
        },
        Resp::Arr(Array::Nil) => write_nil(buf, STAR),
        Resp::Arr(Array::Arr(items)) => {
            buf.push(STAR);
            write_nat(buf, items.len());
            write_crlf(buf);
            let ghost head = buf@;
            let ghost models = model_of_items(items@);
            assert(head =~= old(buf)@ + (seq![STAR] + render_nat(items.len() as nat) + crlf()));
            assert(models.skip(0) =~= models);
            let mut i: usize = 0;
            while i < items.len()
                invariant
                    i <= items.len(),
                    resp matches Resp::Arr(Array::Arr(v)) && v == items,
                    models == model_of_items(items@),
                    buf@ + encode_items(models.skip(i as int)) == head + encode_items(models),
                decreases items.len() - i,
            {
                assert(decreases_to!(resp => items[i as int]));
                let ghost before = buf@;
                resp_to_buf(buf, &items[i]);
                proof {
                    let tail = models.skip(i as int);
                    assert(tail[0] == items[i as int]@);
                    assert(tail.skip(1) =~= models.skip(i + 1));
                    assert(buf@ + encode_items(models.skip(i + 1)) =~= before + encode_items(tail));
                }
                i += 1;
            }
            assert(models.skip(i as int) =~= Seq::<RespValue>::empty());
            assert(buf@ =~= head + encode_items(models));
            assert(buf@ =~= old(buf)@ + encode(resp@));
        },
    }
}

/// The frame of `resp`.
pub fn resp_to_bytes(resp: &Resp) -> (bytes: Vec<u8>)
    ensures
        bytes@ == encode(resp@),
{
    let mut bytes: Vec<u8> = Vec::new();
    resp_to_buf(&mut bytes, resp);
    assert(bytes@ =~= encode(resp@));
    bytes
}

} // verus!
