//! Scalar values and their UTF-8 byte lengths.

use vstd::prelude::*;

verus! {

/// Number of bytes in the UTF-8 encoding of `c`.
pub open spec fn char_width(c: char) -> nat {
    let v = c as u32;
    if v < 0x80 {
        1
    } else if v < 0x800 {
        2
    } else if v < 0x10000 {
        3
    } else {
        4
    }
}

/// Number of bytes in the UTF-8 encoding of `s`.
pub open spec fn byte_len(s: Seq<char>) -> nat
    decreases s.len(),
{
    if s.len() == 0 {
        0
    } else {
        byte_len(s.drop_last()) + char_width(s.last())
    }
}

/// True when byte offset `b` falls between two scalar values of `s`, or at
/// either end.
pub open spec fn is_boundary(s: Seq<char>, b: int) -> bool {
    exists|k: int| 0 <= k <= s.len() && byte_len(#[trigger] s.take(k)) == b
}

/// Number of scalar values of `s` that lie before the boundary `b`.
pub open spec fn index_at(s: Seq<char>, b: int) -> int {
    choose|k: int| 0 <= k <= s.len() && byte_len(#[trigger] s.take(k)) == b
}

/// Number of occurrences of `c` in `s`.
pub open spec fn count_of(s: Seq<char>, c: char) -> nat
    decreases s.len(),
{
    if s.len() == 0 {
        0
    } else {
        count_of(s.drop_last(), c) + if s.last() == c {
            1nat
        } else {
            0nat
        }
    }
}

/// Appending a scalar value adds its width to the encoded length.
pub proof fn lemma_byte_len_push(s: Seq<char>, c: char)
    ensures
        byte_len(s.push(c)) == byte_len(s) + char_width(c),
{
    assert(s.push(c).drop_last() =~= s);
}

/// The boundary after scalar index `k` lies the width of that scalar value
/// behind the boundary before it.
pub proof fn lemma_byte_len_step(s: Seq<char>, k: int)
    requires
        0 <= k < s.len(),
    ensures
        byte_len(s.take(k + 1)) == byte_len(s.take(k)) + char_width(s[k]),
        byte_len(s.take(k + 1)) > byte_len(s.take(k)),
{
    assert(s.take(k + 1).drop_last() =~= s.take(k));
}

/// The encoded length of two texts in a row is the sum of their lengths.
pub proof fn lemma_byte_len_concat(a: Seq<char>, b: Seq<char>)
    ensures
        byte_len(a + b) == byte_len(a) + byte_len(b),
    decreases b.len(),
{
    if b.len() == 0 {
        assert(a + b =~= a);
    } else {
        lemma_byte_len_concat(a, b.drop_last());
        assert((a + b).drop_last() =~= a + b.drop_last());
    }
}

/// Byte offsets of boundaries grow strictly with the scalar index.
pub proof fn lemma_byte_len_monotone(s: Seq<char>, j: int, k: int)
    requires
        0 <= j <= k <= s.len(),
    ensures
        byte_len(s.take(j)) <= byte_len(s.take(k)),
        j < k ==> byte_len(s.take(j)) < byte_len(s.take(k)),
        byte_len(s.take(k)) - byte_len(s.take(j)) >= k - j,
    decreases k - j,
{
    if j < k {
        lemma_byte_len_monotone(s, j, k - 1);
        lemma_byte_len_step(s, k - 1);
    }
}

/// A boundary determines its scalar index.
pub proof fn lemma_index_at(s: Seq<char>, k: int)
    requires
        0 <= k <= s.len(),
    ensures
        is_boundary(s, byte_len(s.take(k)) as int),
        index_at(s, byte_len(s.take(k)) as int) == k,
{
    let b = byte_len(s.take(k)) as int;
    let j = index_at(s, b);
    if j < k {
        lemma_byte_len_monotone(s, j, k);
    } else if k < j {
        lemma_byte_len_monotone(s, k, j);
    }
}

/// The scalar index of a boundary is in range and maps back to it.
pub proof fn lemma_boundary_index(s: Seq<char>, b: int)
    requires
        is_boundary(s, b),
    ensures
        0 <= index_at(s, b) <= s.len(),
        byte_len(s.take(index_at(s, b))) == b,
        0 <= b <= byte_len(s),
{
    let k = index_at(s, b);
    lemma_byte_len_monotone(s, k, s.len() as int);
    assert(s.take(s.len() as int) =~= s);
}

/// Appending a scalar value adds one to the count of that value alone.
pub proof fn lemma_count_push(s: Seq<char>, x: char, c: char)
    ensures
        count_of(s.push(x), c) == count_of(s, c) + if x == c {
            1nat
        } else {
            0nat
        },
{
    assert(s.push(x).drop_last() =~= s);
}

/// True for the scalar values with the Unicode property White_Space.
pub open spec fn is_space(c: char) -> bool {
    let v = c as u32;
    ||| 0x09 <= v <= 0x0d
    ||| v == 0x20
    ||| v == 0x85
    ||| v == 0xa0
    ||| v == 0x1680
    ||| 0x2000 <= v <= 0x200a
    ||| v == 0x2028
    ||| v == 0x2029
    ||| v == 0x202f
    ||| v == 0x205f
    ||| v == 0x3000
}

/// True when `s` holds nothing but white space.
pub open spec fn is_blank(s: Seq<char>) -> bool {
    forall|i: int| 0 <= i < s.len() ==> is_space(#[trigger] s[i])
}

/// Tells whether `c` is white space.
pub fn is_whitespace(c: char) -> (b: bool)
    ensures
        b == is_space(c),
{
    let v: u32 = c as u32;
    (0x09 <= v && v <= 0x0d) || v == 0x20 || v == 0x85 || v == 0xa0 || v == 0x1680 || (0x2000 <= v
        && v <= 0x200a) || v == 0x2028 || v == 0x2029 || v == 0x202f || v == 0x205f || v
        == 0x3000
}

/// Tells whether `s` holds nothing but white space.
pub fn blank(s: &str) -> (b: bool)
    ensures
        b == is_blank(s@),
{
    let chars = scalars(s);
    let mut i: usize = 0;
    while i < chars.len()
        invariant
            i <= chars.len(),
            chars@ == s@,
            forall|j: int| 0 <= j < i ==> is_space(#[trigger] chars@[j]),
        decreases chars.len() - i,
    {
        if !is_whitespace(chars[i]) {
            return false;
        }
        i = i + 1;
    }
    true
}

/// Computes the UTF-8 width of one scalar value.
pub fn width_of(c: char) -> (n: usize)
    ensures
        n == char_width(c),
        1 <= n <= 4,
{
    let v: u32 = c as u32;
    if v < 0x80 {
        1
    } else if v < 0x800 {
        2
    } else if v < 0x10000 {
        3
    } else {
        4
    }
}

/// Scalar index of the boundary at byte offset `cursor`, found by walking the
/// scalar values from the start.
pub fn locate(chars: &Vec<char>, cursor: usize) -> (k: usize)
    requires
        is_boundary(chars@, cursor as int),
    ensures
        k == index_at(chars@, cursor as int),
        k <= chars.len(),
        byte_len(chars@.take(k as int)) == cursor,
{
    let ghost target = index_at(chars@, cursor as int);
    let mut k: usize = 0;
    let mut at: usize = 0;
    proof {
        lemma_boundary_index(chars@, cursor as int);
        assert(chars@.take(0) =~= Seq::<char>::empty());
    }
    while k < chars.len() && at < cursor
        invariant
            0 <= k <= target <= chars.len(),
            at == byte_len(chars@.take(k as int)),
            byte_len(chars@.take(target)) == cursor,
            at <= cursor,
        decreases chars.len() - k,
    {
        proof {
            lemma_byte_len_step(chars@, k as int);
            assert(k as int != target);
            lemma_byte_len_monotone(chars@, k + 1, target);
        }
        at = at + width_of(chars[k]);
        k = k + 1;
    }
    proof {
        if (k as int) < target {
            lemma_byte_len_monotone(chars@, k as int, target);
        }
    }
    k
}

/// Byte offset of the boundary before scalar index `k`.
pub fn offset_of(chars: &Vec<char>, k: usize) -> (at: usize)
    requires
        k <= chars.len(),
        byte_len(chars@) <= usize::MAX,
    ensures
        at == byte_len(chars@.take(k as int)),
{
    let mut at: usize = 0;
    let mut j: usize = 0;
    proof {
        assert(chars@.take(0) =~= Seq::<char>::empty());
    }
    while j < k
        invariant
            j <= k <= chars.len(),
            at == byte_len(chars@.take(j as int)),
            byte_len(chars@) <= usize::MAX,
        decreases k - j,
    {
        proof {
            lemma_byte_len_step(chars@, j as int);
            lemma_byte_len_monotone(chars@, j + 1, chars.len() as int);
            assert(chars@.take(chars.len() as int) =~= chars@);
        }
        at = at + width_of(chars[j]);
        j = j + 1;
    }
    at
}

/// Collects the scalar values of a string slice.
pub fn scalars(s: &str) -> (v: Vec<char>)
    ensures
        v@ == s@,
{
    let mut v: Vec<char> = Vec::new();
    let mut it = s.chars();
    for c in iter: it
        invariant
            v@ == iter.seq().take(iter.index()),
            iter.seq() == s@,
    {
        v.push(c);
    }
    v
}

} // verus!
