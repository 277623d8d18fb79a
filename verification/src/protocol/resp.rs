//! RESP values and their mathematical model.

use vstd::prelude::*;

verus! {

/// A byte string that may hold any byte.
pub type BinSafeStr = Vec<u8>;

/// The model of a RESP value: what a frame on the wire denotes.
pub enum RespValue {
    Error(Seq<u8>),
    Simple(Seq<u8>),
    Integer(Seq<u8>),
    Bulk(Option<Seq<u8>>),
    Array(Option<Seq<RespValue>>),
}

/// A bulk string: some bytes, or nil.
#[derive(Debug, Clone, PartialEq, Eq)]
pub enum BulkStr {
    Str(BinSafeStr),
    Nil,
}

/// An array of values, or nil.
#[derive(Debug, PartialEq, Eq)]
pub enum Array {
    Arr(Vec<Resp>),
    Nil,
}

/// One RESP value.
#[derive(Debug, PartialEq, Eq)]
pub enum Resp {
    Error(BinSafeStr),
    Simple(BinSafeStr),
    Bulk(BulkStr),
    Integer(BinSafeStr),
    Arr(Array),
}

impl BulkStr {
    /// The bytes of the bulk string, `None` for nil.
    pub open spec fn model(&self) -> Option<Seq<u8>> {
        match self {
            BulkStr::Str(s) => Some(s@),
            BulkStr::Nil => None,
        }
    }
}

/// The models of the elements of `items`, in order.
pub open spec fn model_of_items(items: Seq<Resp>) -> Seq<RespValue>
    decreases items,
{
    Seq::new(
        items.len(),
        |i: int|
            if 0 <= i < items.len() {
                items[i].view()
            } else {
                RespValue::Array(None)
            },
    )
}

impl View for Resp {
    type V = RespValue;

    open spec fn view(&self) -> RespValue
        decreases self,
    {
        match self {
            Resp::Error(s) => RespValue::Error(s@),
            Resp::Simple(s) => RespValue::Simple(s@),
            Resp::Integer(s) => RespValue::Integer(s@),
            Resp::Bulk(b) => RespValue::Bulk(b.model()),
            Resp::Arr(Array::Nil) => RespValue::Array(None),
            Resp::Arr(Array::Arr(items)) => RespValue::Array(Some(model_of_items(items@))),
        }
    }
}

/// A copy of the bytes of `bytes`.
pub fn copy_bytes(bytes: &Vec<u8>) -> (copy: Vec<u8>)
    ensures
        copy@ == bytes@,
{
    let mut copy: Vec<u8> = Vec::new();
    let mut i: usize = 0;
    while i < bytes.len()
        invariant
            i <= bytes.len(),
            copy@ == bytes@.take(i as int),
        decreases bytes.len() - i,
    {
        copy.push(bytes[i]);
        i += 1;
    }
    copy
}

impl Clone for Resp {
    fn clone(&self) -> (copy: Resp)
        ensures
            copy@ == self@,
        decreases self,
    {
        match self {
            Resp::Error(s) => Resp::Error(copy_bytes(s)),
            Resp::Simple(s) => Resp::Simple(copy_bytes(s)),
            Resp::Integer(s) => Resp::Integer(copy_bytes(s)),
            Resp::Bulk(BulkStr::Str(s)) => Resp::Bulk(BulkStr::Str(copy_bytes(s))),
            Resp::Bulk(BulkStr::Nil) => Resp::Bulk(BulkStr::Nil),
            Resp::Arr(Array::Nil) => Resp::Arr(Array::Nil),
            Resp::Arr(Array::Arr(items)) => {
                let mut copies: Vec<Resp> = Vec::new();
                let mut i: usize = 0;
                while i < items.len()
                    invariant
                        i <= items.len(),
                        copies.len() == i,
                        forall|j: int| 0 <= j < i ==> copies[j]@ == items[j]@,
                        self matches Resp::Arr(Array::Arr(v)) && v == items,
                    decreases items.len() - i,
                {
                    assert(decreases_to!(self => items[i as int]));
                    copies.push(items[i].clone());
                    i += 1;
                }
                assert(model_of_items(copies@) =~= model_of_items(items@));
                Resp::Arr(Array::Arr(copies))
            },
        }
    }
}

} // verus!
