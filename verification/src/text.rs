//! Editing primitives on `String`, stated over scalar values and byte
//! offsets.

use vstd::prelude::*;
use vstd::utf8::{
    encode_scalar, encode_utf8, encode_utf8_first_scalar, encode_utf8_valid_utf8,
    is_char_boundary, pop_first_scalar,
};
use crate::utf8::{
    byte_len, char_width, index_at, is_boundary, lemma_byte_len_concat, lemma_byte_len_monotone,
};

verus! {

/// The encoding of one scalar value has `char_width` bytes.
pub proof fn lemma_encode_scalar_len(c: char)
    ensures
        encode_scalar(c as u32).len() == char_width(c),
{
    vstd::utf8::char_is_scalar(c);
}

/// `byte_len` is the length of the UTF-8 encoding.
pub proof fn lemma_encoded_len(s: Seq<char>)
    ensures
        encode_utf8(s).len() == byte_len(s),
    decreases s.len(),
{
    if s.len() > 0 {
        lemma_encoded_len(s.drop_first());
        lemma_encode_scalar_len(s[0]);
        lemma_byte_len_front(s);
    }
}

/// The encoded length of a text is that of its first scalar value and that
/// of the rest.
proof fn lemma_byte_len_front(s: Seq<char>)
    requires
        s.len() > 0,
    ensures
        byte_len(s) == char_width(s[0]) + byte_len(s.drop_first()),
{
    lemma_byte_len_concat(seq![s[0]], s.drop_first());
    assert(seq![s[0]] + s.drop_first() =~= s);
    assert(seq![s[0]].drop_last() =~= Seq::<char>::empty());
    assert(byte_len(seq![s[0]]) == char_width(s[0])) by {
        reveal_with_fuel(byte_len, 2);
    }
}

/// The byte offset before scalar index `k` is a character boundary of the
/// UTF-8 encoding of the text.
pub proof fn lemma_char_boundary(s: Seq<char>, k: int)
    requires
        0 <= k <= s.len(),
    ensures
        is_char_boundary(encode_utf8(s), byte_len(s.take(k)) as int),
    decreases s.len(),
{
    let bytes = encode_utf8(s);
    encode_utf8_valid_utf8(s);
    if k == 0 {
        assert(s.take(0) =~= Seq::<char>::empty());
    } else {
        let rest = s.drop_first();
        encode_utf8_first_scalar(s);
        lemma_encode_scalar_len(s[0]);
        lemma_encoded_len(s);
        lemma_byte_len_front(s.take(k));
        lemma_byte_len_monotone(s, k, s.len() as int);
        assert(s.take(s.len() as int) =~= s);
        assert(s.take(k).drop_first() =~= rest.take(k - 1));
        assert(pop_first_scalar(bytes) =~= encode_utf8(rest));
        lemma_char_boundary(rest, k - 1);
    }
}

/// Length of `s` in bytes.
pub fn byte_length(s: &str) -> (n: usize)
    ensures
        n == byte_len(s@),
{
    proof {
        lemma_encoded_len(s@);
    }
    s.as_bytes().len()
}

/// `String::push`: appends one scalar value.
#[verifier::external_body]
pub(crate) fn push_char(s: &mut String, c: char)
    ensures
        final(s)@ == old(s)@.push(c),
{
    s.push(c);
}

/// `String::insert`: inserts one scalar value at a byte offset that is a
/// boundary; the scalar values before and after the offset keep their order.
#[verifier::external_body]
pub(crate) fn insert_at(s: &mut String, at: usize, c: char)
    requires
        is_boundary(old(s)@, at as int),
    ensures
        final(s)@ == old(s)@.insert(index_at(old(s)@, at as int), c),
{
    s.insert(at, c);
}

/// `String::remove`: removes and returns the scalar value that starts at a
/// byte offset, which must be a boundary before the end.
#[verifier::external_body]
pub(crate) fn remove_at(s: &mut String, at: usize) -> (c: char)
    requires
        is_boundary(old(s)@, at as int),
        at < byte_len(old(s)@),
    ensures
        c == old(s)@[index_at(old(s)@, at as int)],
        final(s)@ == old(s)@.remove(index_at(old(s)@, at as int)),
{
    s.remove(at)
}

} // verus!
