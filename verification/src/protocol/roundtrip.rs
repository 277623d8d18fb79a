//! The decoder and the encoder are inverse to each other.

use super::decoder::{
    all_digits, digits_part, digits_value, int_of_bytes, is_digit, parse_items, parse_len,
    parse_line, parse_resp, Parsed, COLON, CR, DIGIT_ZERO, DOLLAR, LF, MINUS, PLUS, STAR,
};
use super::encoder::{crlf, encode, encode_items, nil_length, render_nat};
use super::resp::RespValue;
use crate::common::search::{lemma_position_is, lemma_position_of};
use vstd::prelude::*;

verus! {

/// What a line may hold: any bytes but a line feed.
pub open spec fn line_ok(line: Seq<u8>) -> bool {
    forall|i: int| 0 <= i < line.len() ==> #[trigger] line[i] != LF
}

/// The values that a frame can denote where arrays nest no deeper than
/// `depth`: lines are free of line feeds, and lengths fit the signed 64-bit
/// length field.
pub open spec fn well_formed(value: RespValue, depth: nat) -> bool
    decreases value,
{
    match value {
        RespValue::Error(line) => line_ok(line),
        RespValue::Simple(line) => line_ok(line),
        RespValue::Integer(line) => line_ok(line),
        RespValue::Bulk(None) => true,
        RespValue::Bulk(Some(bytes)) => bytes.len() <= i64::MAX,
        RespValue::Array(None) => true,
        RespValue::Array(Some(items)) => depth > 0 && items.len() <= i64::MAX && forall|i: int|
            0 <= i < items.len() ==> well_formed(#[trigger] items[i], (depth - 1) as nat),
    }
}

/// The digits of a number denote it.
pub proof fn lemma_render_nat(n: nat)
    ensures
        render_nat(n).len() > 0,
        all_digits(render_nat(n)),
        digits_value(render_nat(n)) == n,
    decreases n,
{
    let r = render_nat(n);
    if n < 10 {
        assert(r.drop_last() =~= Seq::<u8>::empty());
        assert(digits_value(r.drop_last()) == 0);
    } else {
        lemma_render_nat(n / 10);
        assert(r.drop_last() =~= render_nat(n / 10));
        assert(r.last() == (DIGIT_ZERO + n % 10) as u8);
    }
}

/// A length line made of the digits of `n` reads as `n`.
pub proof fn lemma_int_of_rendered(n: nat)
    requires
        n <= i64::MAX,
    ensures
        int_of_bytes(render_nat(n)) == Some(n as int),
        render_nat(n).len() > 0,
        line_ok(render_nat(n)),
{
    lemma_render_nat(n);
    let r = render_nat(n);
    assert(is_digit(r[0]));
    assert(digits_part(r) == r);
    assert forall|i: int| 0 <= i < r.len() implies #[trigger] r[i] != LF by {
        assert(is_digit(r[i]));
    }
}

/// The length line of nil reads as -1.
pub proof fn lemma_int_of_nil()
    ensures
        int_of_bytes(nil_length()) == Some(-1int),
        nil_length().len() > 0,
        line_ok(nil_length()),
{
    let s = nil_length();
    let d = digits_part(s);
    assert(d =~= seq![(DIGIT_ZERO + 1) as u8]);
    assert(d.drop_last() =~= Seq::<u8>::empty());
    assert(digits_value(d.drop_last()) == 0);
    assert(digits_value(d) == 1);
}

/// A well-formed line followed by CR LF is read back as it stands.
pub proof fn lemma_parse_line_at(s: Seq<u8>, pos: int, line: Seq<u8>)
    requires
        0 <= pos,
        pos + line.len() + 2 <= s.len(),
        s.subrange(pos, pos + line.len()) == line,
        s[pos + line.len()] == CR,
        s[pos + line.len() + 1] == LF,
        line_ok(line),
    ensures
        parse_line(s, pos) == (Parsed::Done { value: line, end: pos + line.len() + 2 }),
{
    let at = pos + line.len() + 1;
    assert forall|i: int| pos <= i < at implies s[i] != LF by {
        if i < pos + line.len() {
            assert(s[i] == s.subrange(pos, pos + line.len())[i - pos]);
            assert(line[i - pos] != LF);
        }
    }
    lemma_position_is(s, LF, pos, at);
}

/// Decoding reads the frames of well-formed values back, one after the other.
pub proof fn lemma_decode_encoded_items(s: Seq<u8>, pos: int, items: Seq<RespValue>, depth: nat)
    requires
        0 <= pos,
        pos + encode_items(items).len() <= s.len(),
        s.subrange(pos, pos + encode_items(items).len()) == encode_items(items),
        forall|i: int| 0 <= i < items.len() ==> well_formed(#[trigger] items[i], depth),
    ensures
        parse_items(s, pos, items.len(), depth) == (Parsed::Done {
            value: items,
            end: pos + encode_items(items).len(),
        }),
    decreases items, 0nat,
{
    if items.len() == 0 {
        assert(items =~= Seq::<RespValue>::empty());
    } else {
        let head = encode(items[0]);
        let tail = encode_items(items.skip(1));
        let whole = encode_items(items);
        assert(whole == head + tail);
        assert(s.subrange(pos, pos + head.len()) =~= whole.subrange(0, head.len() as int));
        assert(whole.subrange(0, head.len() as int) =~= head);
        lemma_decode_encoded(s, pos, items[0], depth);
        let mid = pos + head.len();
        assert(s.subrange(mid, mid + tail.len()) =~= whole.subrange(
            head.len() as int,
            whole.len() as int,
        ));
        assert(whole.subrange(head.len() as int, whole.len() as int) =~= tail);
        assert forall|i: int| 0 <= i < items.skip(1).len() implies well_formed(
            #[trigger] items.skip(1)[i],
            depth,
        ) by {
            assert(items.skip(1)[i] == items[i + 1]);
        }
        lemma_decode_encoded_items(s, mid, items.skip(1), depth);
        assert(seq![items[0]] + items.skip(1) =~= items);
    }
}

/// A frame that starts with `prefix`, `line`, CR LF has `prefix` at its
/// start and `line` read back behind it.
pub proof fn lemma_headed_line(s: Seq<u8>, pos: int, frame: Seq<u8>, prefix: u8, line: Seq<u8>)
    requires
        0 <= pos,
        pos + frame.len() <= s.len(),
        s.subrange(pos, pos + frame.len()) == frame,
        frame.len() >= line.len() + 3,
        frame.subrange(0, line.len() as int + 3) == seq![prefix] + line + crlf(),
        line_ok(line),
    ensures
        s[pos] == prefix,
        parse_line(s, pos + 1) == (Parsed::Done { value: line, end: pos + 3 + line.len() }),
{
    let n = line.len() as int;
    let head = seq![prefix] + line + crlf();
    assert forall|i: int| 0 <= i < n + 3 implies s[pos + i] == head[i] by {
        assert(s.subrange(pos, pos + frame.len())[i] == s[pos + i]);
        assert(frame.subrange(0, n + 3)[i] == frame[i]);
    }
    assert(head[0] == prefix);
    assert(s.subrange(pos + 1, pos + 1 + n) =~= line) by {
        assert forall|i: int| 0 <= i < n implies s[pos + 1 + i] == line[i] by {
            assert(head[1 + i] == line[i]);
        }
    }
    assert(head[n + 1] == CR);
    assert(head[n + 2] == LF);
    lemma_parse_line_at(s, pos + 1, line);
}

/// Decoding reads the frame of a well-formed value back, wherever the frame
/// stands in the buffer.
pub proof fn lemma_decode_encoded(s: Seq<u8>, pos: int, value: RespValue, depth: nat)
    requires
        0 <= pos,
        pos + encode(value).len() <= s.len(),
        s.subrange(pos, pos + encode(value).len()) == encode(value),
        well_formed(value, depth),
    ensures
        parse_resp(s, pos, depth) == (Parsed::Done { value, end: pos + encode(value).len() }),
    decreases value, 1nat,
{
    let frame = encode(value);
    match value {
        RespValue::Error(line) => {
            assert(frame.subrange(0, line.len() as int + 3) =~= seq![MINUS] + line + crlf());
            lemma_headed_line(s, pos, frame, MINUS, line);
        },
        RespValue::Simple(line) => {
            assert(frame.subrange(0, line.len() as int + 3) =~= seq![PLUS] + line + crlf());
            lemma_headed_line(s, pos, frame, PLUS, line);
        },
        RespValue::Integer(line) => {
            assert(frame.subrange(0, line.len() as int + 3) =~= seq![COLON] + line + crlf());
            lemma_headed_line(s, pos, frame, COLON, line);
        },
        RespValue::Bulk(None) => {
            let line = nil_length();
            lemma_int_of_nil();
            assert(frame.subrange(0, line.len() as int + 3) =~= seq![DOLLAR] + line + crlf());
            lemma_headed_line(s, pos, frame, DOLLAR, line);
        },
        RespValue::Bulk(Some(bytes)) => {
            let line = render_nat(bytes.len());
            lemma_int_of_rendered(bytes.len());
            assert(frame.subrange(0, line.len() as int + 3) =~= seq![DOLLAR] + line + crlf());
            lemma_headed_line(s, pos, frame, DOLLAR, line);
            let skip = 3 + line.len() as int;
            let n = bytes.len() as int;
            assert forall|i: int| 0 <= i < frame.len() implies s[pos + i] == frame[i] by {
                assert(s.subrange(pos, pos + frame.len())[i] == s[pos + i]);
            }
            assert(s.subrange(pos + skip, pos + skip + n) =~= bytes) by {
                assert forall|i: int| 0 <= i < n implies s[pos + skip + i] == bytes[i] by {
                    assert(frame[skip + i] == bytes[i]);
                }
            }
            assert(frame[skip + n] == CR);
            assert(frame[skip + n + 1] == LF);
        },
        RespValue::Array(None) => {
            let line = nil_length();
            lemma_int_of_nil();
            assert(frame.subrange(0, line.len() as int + 3) =~= seq![STAR] + line + crlf());
            lemma_headed_line(s, pos, frame, STAR, line);
        },
        RespValue::Array(Some(items)) => {
            let line = render_nat(items.len());
            lemma_int_of_rendered(items.len());
            assert(frame.subrange(0, line.len() as int + 3) =~= seq![STAR] + line + crlf());
            lemma_headed_line(s, pos, frame, STAR, line);
            let skip = 3 + line.len() as int;
            let body = encode_items(items);
            assert forall|i: int| 0 <= i < frame.len() implies s[pos + i] == frame[i] by {
                assert(s.subrange(pos, pos + frame.len())[i] == s[pos + i]);
            }
            assert(s.subrange(pos + skip, pos + skip + body.len()) =~= body) by {
                assert forall|i: int| 0 <= i < body.len() implies s[pos + skip + i] == body[i] by {
                    assert(frame[skip + i] == body[i]);
                }
            }
            lemma_decode_encoded_items(s, pos + skip, items, (depth - 1) as nat);
        },
    }
}

/// Decoding inverts encoding: the frame of a well-formed value, followed by
/// any bytes, decodes to that value and ends where the frame ends.
pub proof fn law_decode_inverts_encode(value: RespValue, rest: Seq<u8>, depth: nat)
    requires
        well_formed(value, depth),
    ensures
        parse_resp(encode(value) + rest, 0, depth) == (Parsed::Done {
            value,
            end: encode(value).len() as int,
        }),
{
    let s = encode(value) + rest;
    assert(s.subrange(0, encode(value).len() as int) =~= encode(value));
    lemma_decode_encoded(s, 0, value, depth);
}

/// The decimal form of `n`: a minus sign where it is negative, then its
/// digits without leading zeros.
pub open spec fn render_int(n: int) -> Seq<u8> {
    if n < 0 {
        seq![MINUS] + render_nat((-n) as nat)
    } else {
        render_nat(n as nat)
    }
}

/// Whether the length line at `pos`, if there is one, is the decimal form of
/// the number that it denotes.
pub open spec fn canonical_length(s: Seq<u8>, pos: int) -> bool {
    match parse_line(s, pos) {
        Parsed::Done { value: line, end } => match int_of_bytes(line) {
            Some(n) => line == render_int(n),
            None => true,
        },
        _ => true,
    }
}

/// Whether every length line in the `count` frames from `pos` on is in
/// decimal form.
pub open spec fn canonical_items(s: Seq<u8>, pos: int, count: nat, depth: nat) -> bool
    decreases depth, count + 2,
{
    count == 0 || match parse_resp(s, pos, depth) {
        Parsed::Done { value, end } => canonical_frame(s, pos, depth) && canonical_items(
            s,
            end,
            (count - 1) as nat,
            depth,
        ),
        _ => true,
    }
}

/// Whether every length line in the frame at `pos` is in decimal form: no
/// leading zeros, no minus sign before zero.
pub open spec fn canonical_frame(s: Seq<u8>, pos: int, depth: nat) -> bool
    decreases depth, 1nat,
{
    if pos < 0 || pos >= s.len() {
        true
    } else if s[pos] == DOLLAR {
        canonical_length(s, pos + 1)
    } else if s[pos] == STAR {
        canonical_length(s, pos + 1) && match parse_len(s, pos + 1) {
            Parsed::Done { value: n, end } => n < 0 || depth == 0 || canonical_items(
                s,
                end,
                n as nat,
                (depth - 1) as nat,
            ),
            _ => true,
        }
    } else {
        true
    }
}

/// A line that was read is well-formed and stands in the buffer with its
/// terminator.
pub proof fn lemma_parsed_line(s: Seq<u8>, pos: int)
    requires
        0 <= pos,
        parse_line(s, pos) is Done,
    ensures
        line_ok(parse_line(s, pos)->value),
        parse_line(s, pos)->end == pos + parse_line(s, pos)->value.len() + 2,
        parse_line(s, pos)->end <= s.len(),
        s.subrange(pos, parse_line(s, pos)->end) == parse_line(s, pos)->value + crlf(),
{
    lemma_position_of(s, LF, pos);
    let line = parse_line(s, pos)->value;
    let end = parse_line(s, pos)->end;
    assert(s.subrange(pos, end) =~= line + crlf());
}

/// What was read as `count` frames: that many well-formed values, whose
/// frames are the bytes read where the length lines are in decimal form.
pub proof fn lemma_parsed_items(s: Seq<u8>, pos: int, count: nat, depth: nat)
    requires
        0 <= pos,
        parse_items(s, pos, count, depth) is Done,
    ensures
        pos <= parse_items(s, pos, count, depth)->end,
        pos <= s.len() ==> parse_items(s, pos, count, depth)->end <= s.len(),
        parse_items(s, pos, count, depth)->value.len() == count,
        forall|i: int|
            0 <= i < count ==> well_formed(
                #[trigger] parse_items(s, pos, count, depth)->value[i],
                depth,
            ),
        canonical_items(s, pos, count, depth) && pos <= s.len() ==> s.subrange(
            pos,
            parse_items(s, pos, count, depth)->end,
        ) == encode_items(parse_items(s, pos, count, depth)->value),
    decreases depth, count + 2,
{
    let items = parse_items(s, pos, count, depth)->value;
    if count == 0 {
        if pos <= s.len() {
            assert(s.subrange(pos, pos) =~= Seq::<u8>::empty());
        }
    } else {
        lemma_parsed_frame(s, pos, depth);
        let first = parse_resp(s, pos, depth)->value;
        let mid = parse_resp(s, pos, depth)->end;
        let rest = parse_items(s, mid, (count - 1) as nat, depth);
        lemma_parsed_items(s, mid, (count - 1) as nat, depth);
        assert(items == seq![first] + rest->value);
        assert forall|i: int| 0 <= i < count implies well_formed(#[trigger] items[i], depth) by {
            if i > 0 {
                assert(items[i] == rest->value[i - 1]);
            }
        }
        if canonical_items(s, pos, count, depth) {
            assert(items.skip(1) =~= rest->value);
            assert(s.subrange(pos, rest->end) =~= s.subrange(pos, mid) + s.subrange(
                mid,
                rest->end,
            ));
        }
    }
}

/// What was read as one frame: a well-formed value, whose frame is the bytes
/// read where the length lines are in decimal form.
pub proof fn lemma_parsed_frame(s: Seq<u8>, pos: int, depth: nat)
    requires
        0 <= pos,
        parse_resp(s, pos, depth) is Done,
    ensures
        pos < parse_resp(s, pos, depth)->end <= s.len(),
        well_formed(parse_resp(s, pos, depth)->value, depth),
        canonical_frame(s, pos, depth) ==> s.subrange(pos, parse_resp(s, pos, depth)->end)
            == encode(parse_resp(s, pos, depth)->value),
    decreases depth, 1nat,
{
    let value = parse_resp(s, pos, depth)->value;
    let end = parse_resp(s, pos, depth)->end;
    lemma_parsed_line(s, pos + 1);
    let line = parse_line(s, pos + 1)->value;
    let mid = parse_line(s, pos + 1)->end;
    assert(s.subrange(pos, mid) =~= seq![s[pos]] + s.subrange(pos + 1, mid));
    if s[pos] == DOLLAR {
        let n = int_of_bytes(line)->0;
        if n >= 0 && canonical_frame(s, pos, depth) {
            assert(s.subrange(pos, end) =~= s.subrange(pos, mid) + s.subrange(mid, mid + n)
                + crlf());
        }
        if n == -1 && canonical_frame(s, pos, depth) {
            assert(render_int(n) =~= nil_length());
        }
    } else if s[pos] == STAR {
        let n = int_of_bytes(line)->0;
        if n >= 0 {
            lemma_parsed_items(s, mid, n as nat, (depth - 1) as nat);
            if canonical_frame(s, pos, depth) {
                assert(s.subrange(pos, end) =~= s.subrange(pos, mid) + s.subrange(mid, end));
            }
        }
        if n == -1 && canonical_frame(s, pos, depth) {
            assert(render_int(n) =~= nil_length());
        }
    }
}

/// Encoding inverts decoding: where a buffer decodes to a value and every
/// length line of the frame is in decimal form, the frame of the value is
/// the bytes that were read.
pub proof fn law_encode_inverts_decode(bytes: Seq<u8>, depth: nat)
    requires
        parse_resp(bytes, 0, depth) is Done,
        canonical_frame(bytes, 0, depth),
    ensures
        encode(parse_resp(bytes, 0, depth)->value) == bytes.subrange(
            0,
            parse_resp(bytes, 0, depth)->end,
        ),
{
    lemma_parsed_frame(bytes, 0, depth);
}

/// Whatever a buffer decodes to is well-formed, and its frame decodes to the
/// same value again: encoding a decoded value changes the bytes at most in
/// how the lengths are written.
pub proof fn law_decoded_value_reencodes(bytes: Seq<u8>, rest: Seq<u8>, depth: nat)
    requires
        parse_resp(bytes, 0, depth) is Done,
    ensures
        0 < parse_resp(bytes, 0, depth)->end <= bytes.len(),
        well_formed(parse_resp(bytes, 0, depth)->value, depth),
        parse_resp(encode(parse_resp(bytes, 0, depth)->value) + rest, 0, depth) == (Parsed::Done {
            value: parse_resp(bytes, 0, depth)->value,
            end: encode(parse_resp(bytes, 0, depth)->value).len() as int,
        }),
{
    lemma_parsed_frame(bytes, 0, depth);
    law_decode_inverts_encode(parse_resp(bytes, 0, depth)->value, rest, depth);
}

} // verus!
