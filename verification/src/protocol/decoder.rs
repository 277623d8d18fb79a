//! Incremental RESP decoder over a byte buffer.
//!
//! Every function reads from a position in a buffer and either yields a value
//! with the position just behind it, or says that the bytes are malformed, or
//! that the buffer ends before the frame does. Nothing is consumed in the last
//! two cases, so a caller may read more bytes and decode again.

use super::resp::{model_of_items, Array, BinSafeStr, BulkStr, Resp, RespValue};
use crate::common::search::{index_of, lemma_position_of, position_of};
use vstd::prelude::*;

verus! {

pub const CR: u8 = 13;

pub const LF: u8 = 10;

pub const MINUS: u8 = 45;

pub const DIGIT_ZERO: u8 = 48;

/// How deep arrays may nest inside the outermost value.
pub const MAX_DEPTH: usize = 7;

/// Why a frame could not be decoded.
#[derive(Debug, Clone, Copy, PartialEq, Eq, Structural)]
pub enum DecodeError {
    /// The bytes are not RESP.
    InvalidProtocol,
    /// The buffer ends before the frame does.
    Incomplete,
}

/// What decoding at a position gives.
pub enum Parsed<T> {
    /// A value, and the position just behind its frame.
    Done { value: T, end: int },
    /// The buffer ends before the frame does.
    Incomplete,
    /// The bytes are malformed.
    Invalid,
}

/// Whether `res` is the executable form of `parsed`.
pub open spec fn agrees<T, V>(
    res: Result<(T, usize), DecodeError>,
    parsed: Parsed<V>,
    model: spec_fn(T) -> V,
) -> bool {
    match parsed {
        Parsed::Done { value, end } => res is Ok && model(res->Ok_0.0) == value && res->Ok_0.1
            == end,
        Parsed::Incomplete => res == Err::<(T, usize), DecodeError>(DecodeError::Incomplete),
        Parsed::Invalid => res == Err::<(T, usize), DecodeError>(DecodeError::InvalidProtocol),
    }
}

pub open spec fn is_digit(b: u8) -> bool {
    DIGIT_ZERO <= b <= DIGIT_ZERO + 9
}

pub open spec fn all_digits(s: Seq<u8>) -> bool {
    forall|i: int| 0 <= i < s.len() ==> is_digit(#[trigger] s[i])
}

/// The number that the decimal digits `s` denote; 0 for no digits.
pub open spec fn digits_value(s: Seq<u8>) -> nat
    decreases s.len(),
{
    if s.len() == 0 {
        0
    } else {
        digits_value(s.drop_last()) * 10 + (s.last() - DIGIT_ZERO) as nat
    }
}

/// The digits of `s`: all of it but a leading minus sign.
pub open spec fn digits_part(s: Seq<u8>) -> Seq<u8> {
    if s.len() > 0 && s[0] == MINUS {
        s.skip(1)
    } else {
        s
    }
}

/// Whether `s` starts with a minus sign.
pub open spec fn is_negative(s: Seq<u8>) -> bool {
    s.len() > 0 && s[0] == MINUS
}

/// The largest magnitude that an `i64` of the given sign holds.
pub open spec fn magnitude_limit(negative: bool) -> nat {
    if negative {
        (i64::MAX + 1) as nat
    } else {
        i64::MAX as nat
    }
}

/// The signed decimal number that `s` denotes, where an `i64` holds it:
/// every number from `i64::MIN` to `i64::MAX`.
pub open spec fn int_of_bytes(s: Seq<u8>) -> Option<int> {
    let digits = digits_part(s);
    if all_digits(digits) && digits_value(digits) <= magnitude_limit(is_negative(s)) {
        if is_negative(s) {
            Some(-(digits_value(digits) as int))
        } else {
            Some(digits_value(digits) as int)
        }
    } else {
        None
    }
}

/// A prefix of a digit string denotes no more than the whole.
pub proof fn lemma_digits_value_prefix(s: Seq<u8>, k: int)
    requires
        0 <= k <= s.len(),
    ensures
        digits_value(s.take(k)) <= digits_value(s),
    decreases s.len() - k,
{
    if k == s.len() {
        assert(s.take(k) =~= s);
    } else {
        lemma_digits_value_prefix(s, k + 1);
        assert(s.take(k + 1).drop_last() =~= s.take(k));
    }
}

/// Reads a signed decimal number: an optional minus sign, then digits only.
pub fn bytes_to_int(bytes: &[u8]) -> (res: Result<i64, DecodeError>)
    ensures
        match int_of_bytes(bytes@) {
            Some(v) => res == Ok::<i64, DecodeError>(v as i64) && i64::MIN <= v <= i64::MAX,
            None => res == Err::<i64, DecodeError>(DecodeError::InvalidProtocol),
        },
{
    let negative = bytes.len() > 0 && bytes[0] == MINUS;
    let start: usize = if negative { 1 } else { 0 };
    let ghost digits = digits_part(bytes@);
    let limit: u64 = if negative { 0x8000_0000_0000_0000 } else { 0x7fff_ffff_ffff_ffff };
    let mut sum: u64 = 0;
    let mut i: usize = start;
    while i < bytes.len()
        invariant
            start <= i <= bytes.len(),
            digits == bytes@.skip(start as int),
            digits == digits_part(bytes@),
            limit == magnitude_limit(negative),
            negative == is_negative(bytes@),
            all_digits(digits.take(i - start)),
            sum == digits_value(digits.take(i - start)),
            sum <= limit,
        decreases bytes.len() - i,
    {
        let b = bytes[i];
        proof {
            assert(digits.take(i - start + 1).drop_last() =~= digits.take(i - start));
            assert(digits.take(i - start + 1).last() == b);
        }
        if b < DIGIT_ZERO || b > DIGIT_ZERO + 9 {
            assert(!is_digit(digits[i - start]));
            return Err(DecodeError::InvalidProtocol);
        }
        let d: u64 = (b - DIGIT_ZERO) as u64;
        if sum > (limit - d) / 10 {
            proof {
                assert(digits_value(digits.take(i - start + 1)) == sum * 10 + d);
                lemma_digits_value_prefix(digits, i - start + 1);
            }
            return Err(DecodeError::InvalidProtocol);
        }
        assert forall|j: int| 0 <= j < i - start + 1 implies is_digit(
            #[trigger] digits.take(i - start + 1)[j],
        ) by {
            if j < i - start {
                assert(digits.take(i - start + 1)[j] == digits.take(i - start)[j]);
            }
        }
        sum = sum * 10 + d;
        i += 1;
    }
    assert(digits.take(i - start) =~= digits);
    if !negative {
        Ok(sum as i64)
    } else if sum == limit {
        Ok(i64::MIN)
    } else {
        Ok(-(sum as i64))
    }
}

/// A line from `pos` on: bytes that are no line feed, then CR LF. The value
/// is the line without its terminator; it may be empty.
pub open spec fn parse_line(s: Seq<u8>, pos: int) -> Parsed<Seq<u8>> {
    let lf = position_of(s, LF, pos);
    if pos < 0 || lf >= s.len() {
        Parsed::Incomplete
    } else if lf - pos < 1 || s[lf - 1] != CR {
        Parsed::Invalid
    } else {
        Parsed::Done { value: s.subrange(pos, lf - 1), end: lf + 1 }
    }
}

/// A line that holds a signed decimal number. An empty line holds none.
pub open spec fn parse_len(s: Seq<u8>, pos: int) -> Parsed<int> {
    match parse_line(s, pos) {
        Parsed::Done { value, end } => match int_of_bytes(value) {
            Some(n) => if value.len() > 0 {
                Parsed::Done { value: n, end }
            } else {
                Parsed::Invalid
            },
            None => Parsed::Invalid,
        },
        Parsed::Incomplete => Parsed::Incomplete,
        Parsed::Invalid => Parsed::Invalid,
    }
}

/// The body of a bulk string, behind its `$`: a length line, then that many
/// bytes and CR LF. Length -1 is nil; any other negative length is malformed.
pub open spec fn parse_bulk(s: Seq<u8>, pos: int) -> Parsed<Option<Seq<u8>>> {
    match parse_len(s, pos) {
        Parsed::Done { value: n, end } => if n == -1 {
            Parsed::Done { value: None, end }
        } else if n < 0 {
            Parsed::Invalid
        } else if end + n + 2 > s.len() {
            Parsed::Incomplete
        } else if s[end + n] != CR || s[end + n + 1] != LF {
            Parsed::Invalid
        } else {
            Parsed::Done { value: Some(s.subrange(end, end + n)), end: end + n + 2 }
        },
        Parsed::Incomplete => Parsed::Incomplete,
        Parsed::Invalid => Parsed::Invalid,
    }
}

/// The bytes of `buf` from `from` up to `to`.
pub fn copy_range(buf: &[u8], from: usize, to: usize) -> (out: Vec<u8>)
    requires
        from <= to <= buf.len(),
    ensures
        out@ == buf@.subrange(from as int, to as int),
{
    let mut out: Vec<u8> = Vec::new();
    let mut i: usize = from;
    while i < to
        invariant
            from <= i <= to <= buf.len(),
            out@ == buf@.subrange(from as int, i as int),
        decreases to - i,
    {
        out.push(buf[i]);
        i += 1;
    }
    out
}

/// Reads one line at `pos` and strips its terminator.
pub fn decode_line(buf: &[u8], pos: usize) -> (res: Result<(BinSafeStr, usize), DecodeError>)
    ensures
        agrees(res, parse_line(buf@, pos as int), |line: BinSafeStr| line@),
{
    let lf = index_of(buf, LF, pos);
    if lf >= buf.len() {
        return Err(DecodeError::Incomplete);
    }
    if lf - pos < 1 || buf[lf - 1] != CR {
        return Err(DecodeError::InvalidProtocol);
    }
    Ok((copy_range(buf, pos, lf - 1), lf + 1))
}

/// Reads one line at `pos` that holds a signed decimal number.
pub fn decode_len(buf: &[u8], pos: usize) -> (res: Result<(i64, usize), DecodeError>)
    ensures
        agrees(res, parse_len(buf@, pos as int), |n: i64| n as int),
{
    match decode_line(buf, pos) {
        Ok((line, end)) => match bytes_to_int(line.as_slice()) {
            Ok(n) => if line.len() > 0 {
                Ok((n, end))
            } else {
                Err(DecodeError::InvalidProtocol)
            },
            Err(e) => Err(e),
        },
        Err(e) => Err(e),
    }
}

/// Reads the body of a bulk string at `pos`, behind its `$`.
pub fn decode_bulk_str(buf: &[u8], pos: usize) -> (res: Result<(BulkStr, usize), DecodeError>)
    ensures
        agrees(res, parse_bulk(buf@, pos as int), |b: BulkStr| b.model()),
{
    let (len, end) = match decode_len(buf, pos) {
        Ok(pair) => pair,
        Err(e) => {
            return Err(e);
        },
    };
    proof {
        lemma_position_of(buf@, LF, pos as int);
    }
    if len == -1 {
        return Ok((BulkStr::Nil, end));
    }
    if len < 0 {
        return Err(DecodeError::InvalidProtocol);
    }
    let rest: usize = buf.len() - end;
    if rest < 2 || len as u64 > (rest - 2) as u64 {
        return Err(DecodeError::Incomplete);
    }
    let n: usize = len as usize;
    if buf[end + n] != CR || buf[end + n + 1] != LF {
        return Err(DecodeError::InvalidProtocol);
    }
    Ok((BulkStr::Str(copy_range(buf, end, end + n)), end + n + 2))
}

pub const DOLLAR: u8 = 36;

pub const PLUS: u8 = 43;

pub const COLON: u8 = 58;

pub const STAR: u8 = 42;

/// `parsed` with `front` put before its items.
pub open spec fn prepend(front: Seq<RespValue>, parsed: Parsed<Seq<RespValue>>) -> Parsed<
    Seq<RespValue>,
> {
    match parsed {
        Parsed::Done { value, end } => Parsed::Done { value: front + value, end },
        Parsed::Incomplete => Parsed::Incomplete,
        Parsed::Invalid => Parsed::Invalid,
    }
}

/// `count` values one behind the other, none nesting arrays deeper than
/// `depth`.
pub open spec fn parse_items(s: Seq<u8>, pos: int, count: nat, depth: nat) -> Parsed<
    Seq<RespValue>,
>
    decreases depth, count + 2,
{
    if count == 0 {
        Parsed::Done { value: Seq::empty(), end: pos }
    } else {
        match parse_resp(s, pos, depth) {
            Parsed::Done { value, end } => prepend(
                seq![value],
                parse_items(s, end, (count - 1) as nat, depth),
            ),
            Parsed::Incomplete => Parsed::Incomplete,
            Parsed::Invalid => Parsed::Invalid,
        }
    }
}

/// The body of an array, behind its `*`: a length line, then that many
/// values. Length -1 is nil; any other negative length is malformed, and so
/// is an array where `depth` is 0.
pub open spec fn parse_array(s: Seq<u8>, pos: int, depth: nat) -> Parsed<Option<Seq<RespValue>>>
    decreases depth, 0nat,
{
    match parse_len(s, pos) {
        Parsed::Done { value: n, end } => if n == -1 {
            Parsed::Done { value: None, end }
        } else if n < 0 || depth == 0 {
            Parsed::Invalid
        } else {
            match parse_items(s, end, n as nat, (depth - 1) as nat) {
                Parsed::Done { value, end } => Parsed::Done { value: Some(value), end },
                Parsed::Incomplete => Parsed::Incomplete,
                Parsed::Invalid => Parsed::Invalid,
            }
        },
        Parsed::Incomplete => Parsed::Incomplete,
        Parsed::Invalid => Parsed::Invalid,
    }
}

/// `parsed` with each value put into a RESP value by `wrap`.
pub open spec fn wrapped<T>(parsed: Parsed<T>, wrap: spec_fn(T) -> RespValue) -> Parsed<
    RespValue,
> {
    match parsed {
        Parsed::Done { value, end } => Parsed::Done { value: wrap(value), end },
        Parsed::Incomplete => Parsed::Incomplete,
        Parsed::Invalid => Parsed::Invalid,
    }
}

/// One value at `pos` whose arrays nest no deeper than `depth`: the first
/// byte selects the shape.
pub open spec fn parse_resp(s: Seq<u8>, pos: int, depth: nat) -> Parsed<RespValue>
    decreases depth, 1nat,
{
    if pos < 0 || pos >= s.len() {
        Parsed::Incomplete
    } else if s[pos] == DOLLAR {
        wrapped(parse_bulk(s, pos + 1), |b: Option<Seq<u8>>| RespValue::Bulk(b))
    } else if s[pos] == PLUS {
        wrapped(parse_line(s, pos + 1), |line: Seq<u8>| RespValue::Simple(line))
    } else if s[pos] == COLON {
        wrapped(parse_line(s, pos + 1), |line: Seq<u8>| RespValue::Integer(line))
    } else if s[pos] == MINUS {
        wrapped(parse_line(s, pos + 1), |line: Seq<u8>| RespValue::Error(line))
    } else if s[pos] == STAR {
        wrapped(
            parse_array(s, pos + 1, depth),
            |items: Option<Seq<RespValue>>| RespValue::Array(items),
        )
    } else {
        Parsed::Invalid
    }
}

/// The model of an array.
pub open spec fn array_model(array: Array) -> Option<Seq<RespValue>> {
    match array {
        Array::Arr(items) => Some(model_of_items(items@)),
        Array::Nil => None,
    }
}

/// Reads the body of an array at `pos`, behind its `*`. Arrays inside it may
/// nest `depth - 1` deep.
pub fn decode_array(buf: &[u8], pos: usize, depth: usize) -> (res: Result<
    (Array, usize),
    DecodeError,
>)
    ensures
        agrees(
            res,
            parse_array(buf@, pos as int, depth as nat),
            |array: Array| array_model(array),
        ),
    decreases depth, 0nat,
{
    let (len, start) = match decode_len(buf, pos) {
        Ok(pair) => pair,
        Err(e) => {
            return Err(e);
        },
    };
    if len == -1 {
        return Ok((Array::Nil, start));
    }
    if len < 0 || depth == 0 {
        return Err(DecodeError::InvalidProtocol);
    }
    let ghost whole = parse_items(buf@, start as int, len as nat, (depth - 1) as nat);
    let mut items: Vec<Resp> = Vec::new();
    let mut at: usize = start;
    let mut left: i64 = len;
    while left > 0
        invariant
            0 <= left <= len,
            depth > 0,
            parse_len(buf@, pos as int) == (Parsed::Done { value: len as int, end: start as int }),
            whole == parse_items(buf@, start as int, len as nat, (depth - 1) as nat),
            whole == prepend(
                model_of_items(items@),
                parse_items(buf@, at as int, left as nat, (depth - 1) as nat),
            ),
        decreases left,
    {
        let ghost front = model_of_items(items@);
        match decode_resp_at(buf, at, depth - 1) {
            Ok((item, end)) => {
                proof {
                    let rest = parse_items(buf@, end as int, (left - 1) as nat, (depth - 1) as nat);
                    assert(model_of_items(items@.push(item)) =~= front + seq![item@]);
                    if let Parsed::Done { value, end: e } = rest {
                        assert(front + (seq![item@] + value) =~= (front + seq![item@]) + value);
                    }
                }
                items.push(item);
                at = end;
                left -= 1;
            },
            Err(e) => {
                return Err(e);
            },
        }
    }
    proof {
        assert(model_of_items(items@) + Seq::<RespValue>::empty() =~= model_of_items(items@));
    }
    Ok((Array::Arr(items), at))
}

/// Reads one value at `pos` whose arrays nest no deeper than `depth`.
pub fn decode_resp_at(buf: &[u8], pos: usize, depth: usize) -> (res: Result<
    (Resp, usize),
    DecodeError,
>)
    ensures
        agrees(res, parse_resp(buf@, pos as int, depth as nat), |resp: Resp| resp@),
    decreases depth, 1nat,
{
    if pos >= buf.len() {
        return Err(DecodeError::Incomplete);
    }
    let prefix = buf[pos];
    if prefix == DOLLAR {
        match decode_bulk_str(buf, pos + 1) {
            Ok((s, end)) => Ok((Resp::Bulk(s), end)),
            Err(e) => Err(e),
        }
    } else if prefix == PLUS {
        match decode_line(buf, pos + 1) {
            Ok((s, end)) => Ok((Resp::Simple(s), end)),
            Err(e) => Err(e),
        }
    } else if prefix == COLON {
        match decode_line(buf, pos + 1) {
            Ok((s, end)) => Ok((Resp::Integer(s), end)),
            Err(e) => Err(e),
        }
    } else if prefix == MINUS {
        match decode_line(buf, pos + 1) {
            Ok((s, end)) => Ok((Resp::Error(s), end)),
            Err(e) => Err(e),
        }
    } else if prefix == STAR {
        match decode_array(buf, pos + 1, depth) {
            Ok((a, end)) => Ok((Resp::Arr(a), end)),
            Err(e) => Err(e),
        }
    } else {
        Err(DecodeError::InvalidProtocol)
    }
}

/// Reads the first value of `buf`. Arrays may nest `MAX_DEPTH` deep.
///
/// On success the second component is the number of bytes that the frame
/// takes; on failure nothing is consumed.
pub fn decode_resp(buf: &[u8]) -> (res: Result<(Resp, usize), DecodeError>)
    ensures
        agrees(res, parse_resp(buf@, 0, MAX_DEPTH as nat), |resp: Resp| resp@),
{
    decode_resp_at(buf, 0, MAX_DEPTH)
}

} // verus!
