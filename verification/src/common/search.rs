//! Finding an item in a sequence.

use vstd::prelude::*;

verus! {

/// The position of the first `item` in `s` at or behind `from`, or the
/// length of `s` where there is none.
pub open spec fn position_of<T>(s: Seq<T>, item: T, from: int) -> int
    decreases s.len() - from,
{
    if from < 0 || from >= s.len() {
        s.len() as int
    } else if s[from] == item {
        from
    } else {
        position_of(s, item, from + 1)
    }
}

/// Where `position_of` points: at `item` or at the end, with no `item`
/// between `from` and there.
pub proof fn lemma_position_of<T>(s: Seq<T>, item: T, from: int)
    requires
        0 <= from <= s.len(),
    ensures
        from <= position_of(s, item, from) <= s.len(),
        position_of(s, item, from) < s.len() ==> s[position_of(s, item, from)] == item,
        forall|i: int| from <= i < position_of(s, item, from) ==> s[i] != item,
    decreases s.len() - from,
{
    if from < s.len() && s[from] != item {
        lemma_position_of(s, item, from + 1);
    }
}

/// A position with `item` at it or at the end of `s`, and without `item`
/// between `from` and it, is where `position_of` points.
pub proof fn lemma_position_is<T>(s: Seq<T>, item: T, from: int, at: int)
    requires
        0 <= from <= at <= s.len(),
        forall|i: int| from <= i < at ==> s[i] != item,
        at < s.len() ==> s[at] == item,
    ensures
        position_of(s, item, from) == at,
    decreases at - from,
{
    if from < at {
        lemma_position_is(s, item, from + 1, at);
    }
}

/// The position of the first `byte` in `bytes` at or behind `from`.
pub fn index_of(bytes: &[u8], byte: u8, from: usize) -> (at: usize)
    ensures
        at == position_of(bytes@, byte, from as int),
        at <= bytes.len(),
        from <= bytes.len() ==> from <= at,
{
    if from >= bytes.len() {
        return bytes.len();
    }
    let mut at: usize = from;
    while at < bytes.len() && bytes[at] != byte
        invariant
            from <= at <= bytes.len(),
            forall|i: int| from <= i < at ==> bytes@[i] != byte,
        decreases bytes.len() - at,
    {
        at += 1;
    }
    proof {
        lemma_position_is(bytes@, byte, from as int, at as int);
    }
    at
}

} // verus!
