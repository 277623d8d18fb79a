use shard_proxy::protocol::decoder::{decode_resp, DecodeError};
use shard_proxy::protocol::encoder::{resp_to_buf, resp_to_bytes, write_nat};
use shard_proxy::protocol::resp::{Array, BulkStr, Resp};

fn bulk(s: &str) -> Resp {
    Resp::Bulk(BulkStr::Str(s.as_bytes().to_vec()))
}

fn samples() -> Vec<Resp> {
    vec![
        Resp::Simple(b"OK".to_vec()),
        Resp::Simple(vec![]),
        Resp::Error(vec![]),
        Resp::Integer(vec![]),
        Resp::Simple(b"\r".to_vec()),
        Resp::Error(b"Err old epoch".to_vec()),
        Resp::Integer(b"-42".to_vec()),
        Resp::Integer(b"007".to_vec()),
        Resp::Bulk(BulkStr::Nil),
        bulk(""),
        bulk("hello"),
        bulk("with\r\ninside"),
        Resp::Arr(Array::Nil),
        Resp::Arr(Array::Arr(vec![])),
        Resp::Arr(Array::Arr(vec![bulk("GET"), bulk("k")])),
        Resp::Arr(Array::Arr(vec![
            Resp::Arr(Array::Arr(vec![Resp::Integer(b"1".to_vec()), Resp::Bulk(BulkStr::Nil)])),
            Resp::Simple(b"x".to_vec()),
            Resp::Arr(Array::Nil),
        ])),
    ]
}

#[test]
fn encode_exact_bytes() {
    assert_eq!(resp_to_bytes(&Resp::Simple(b"OK".to_vec())), b"+OK\r\n");
    assert_eq!(resp_to_bytes(&Resp::Error(b"Err x".to_vec())), b"-Err x\r\n");
    assert_eq!(resp_to_bytes(&Resp::Integer(b"12".to_vec())), b":12\r\n");
    assert_eq!(resp_to_bytes(&Resp::Bulk(BulkStr::Nil)), b"$-1\r\n");
    assert_eq!(resp_to_bytes(&bulk("")), b"$0\r\n\r\n");
    assert_eq!(resp_to_bytes(&bulk("hello")), b"$5\r\nhello\r\n");
    assert_eq!(resp_to_bytes(&Resp::Arr(Array::Nil)), b"*-1\r\n");
    assert_eq!(
        resp_to_bytes(&Resp::Arr(Array::Arr(vec![bulk("GET"), bulk("k")]))),
        b"*2\r\n$3\r\nGET\r\n$1\r\nk\r\n"
    );
}

#[test]
fn write_nat_renders_decimal() {
    for (n, text) in [(0usize, "0"), (9, "9"), (10, "10"), (16384, "16384"), (1000000007, "1000000007")] {
        let mut buf = b"x".to_vec();
        write_nat(&mut buf, n);
        assert_eq!(buf, format!("x{}", text).into_bytes());
    }
}

#[test]
fn resp_to_buf_appends() {
    let mut buf = b"+a\r\n".to_vec();
    resp_to_buf(&mut buf, &bulk("b"));
    assert_eq!(buf, b"+a\r\n$1\r\nb\r\n");
}

#[test]
fn decode_inverts_encode() {
    for value in samples() {
        let bytes = resp_to_bytes(&value);
        let n = bytes.len();
        assert_eq!(decode_resp(&bytes), Ok((value.clone(), n)));
        let mut longer = bytes.clone();
        longer.extend_from_slice(b"+tail\r\n");
        assert_eq!(decode_resp(&longer), Ok((value, n)));
    }
}

#[test]
fn encode_inverts_decode_on_canonical_frames() {
    let frames: Vec<&[u8]> = vec![
        b"+OK\r\n",
        b":007\r\n",
        b"$-1\r\n",
        b"$5\r\nhello\r\n",
        b"*3\r\n$3\r\nSET\r\n$1\r\nk\r\n$1\r\nv\r\n",
        b"*2\r\n*1\r\n:1\r\n*-1\r\n",
    ];
    for frame in frames {
        let (value, n) = decode_resp(frame).unwrap();
        assert_eq!(n, frame.len());
        assert_eq!(resp_to_bytes(&value), frame);
    }
}

#[test]
fn lengths_are_canonical_after_a_round_trip() {
    let (value, n) = decode_resp(b"$005\r\nhello\r\n").unwrap();
    assert_eq!(n, 13);
    assert_eq!(resp_to_bytes(&value), b"$5\r\nhello\r\n");
    let (nil, _) = decode_resp(b"$-01\r\n").unwrap();
    assert_eq!(resp_to_bytes(&nil), b"$-1\r\n");
    let (zero, _) = decode_resp(b"$-0\r\n\r\n").unwrap();
    assert_eq!(resp_to_bytes(&zero), b"$0\r\n\r\n");
}

#[test]
fn every_proper_prefix_of_a_frame_is_incomplete() {
    let frame = b"*2\r\n$3\r\nGET\r\n$1\r\nk\r\n";
    for cut in 0..frame.len() {
        assert_eq!(decode_resp(&frame[..cut]), Err(DecodeError::Incomplete), "cut at {}", cut);
    }
}

#[test]
fn clone_keeps_the_value() {
    for value in samples() {
        assert_eq!(value.clone(), value);
    }
}
