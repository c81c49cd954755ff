//! Byte offsets into text: how the characters of a text and the bytes of its
//! UTF-8 form correspond.

use vstd::prelude::*;
use vstd::utf8::*;

verus! {

/// How many bytes the UTF-8 form of `c` takes.
pub open spec fn width(c: char) -> nat {
    encode_scalar(c as u32).len()
}

/// How many bytes the UTF-8 form of `s` takes.
pub open spec fn byte_len(s: Seq<char>) -> nat {
    encode_utf8(s).len()
}

/// The byte offset at which character `k` of `s` begins.
pub open spec fn offset(s: Seq<char>, k: int) -> nat {
    byte_len(s.take(k))
}

/// Whether byte offset `i` lies between two characters of `s`, or at an end.
pub open spec fn on_boundary(s: Seq<char>, i: int) -> bool {
    exists|k: int| 0 <= k <= s.len() && #[trigger] offset(s, k) == i
}

/// How many characters of `s` begin before byte offset `i`.
pub open spec fn char_index(s: Seq<char>, i: int) -> nat
    decreases s.len(),
{
    if i <= 0 || s.len() == 0 {
        0
    } else {
        1 + char_index(s.drop_first(), i - width(s[0]))
    }
}

/// A character takes one to four bytes, fewer for the smaller code points.
pub proof fn lemma_width(c: char)
    ensures
        width(c) == (if (c as u32) < 0x80 {
            1nat
        } else if (c as u32) < 0x800 {
            2
        } else if (c as u32) < 0x10000 {
            3
        } else {
            4
        }),
{
    char_is_scalar(c);
}

/// The UTF-8 form of two texts in a row.
pub proof fn lemma_encode_concat(a: Seq<char>, b: Seq<char>)
    ensures
        encode_utf8(a + b) == encode_utf8(a) + encode_utf8(b),
        byte_len(a + b) == byte_len(a) + byte_len(b),
    decreases a.len(),
{
    if a.len() == 0 {
        assert(a + b =~= b);
        assert(encode_utf8(a) + encode_utf8(b) =~= encode_utf8(b));
    } else {
        let t = a.drop_first();
        lemma_encode_concat(t, b);
        assert((a + b).drop_first() =~= t + b);
        assert((a + b)[0] == a[0]);
        assert(encode_utf8(a + b) =~= encode_utf8(a) + encode_utf8(b));
    }
}

/// Each character adds its width to the offset of the next one.
pub proof fn lemma_offset_step(s: Seq<char>, k: int)
    requires
        0 <= k < s.len(),
    ensures
        offset(s, k + 1) == offset(s, k) + width(s[k]),
{
    let one = seq![s[k]];
    assert(s.take(k + 1) =~= s.take(k) + one);
    lemma_encode_concat(s.take(k), one);
    assert(one.drop_first() =~= Seq::<char>::empty());
    assert(encode_utf8(Seq::<char>::empty()) =~= Seq::<u8>::empty());
    assert(encode_utf8(one) =~= encode_scalar(s[k] as u32));
}

/// Later characters begin at greater offsets.
pub proof fn lemma_offset_increases(s: Seq<char>, i: int, j: int)
    requires
        0 <= i < j <= s.len(),
    ensures
        offset(s, i) < offset(s, j),
    decreases j - i,
{
    lemma_offset_step(s, j - 1);
    lemma_width(s[j - 1]);
    if i < j - 1 {
        lemma_offset_increases(s, i, j - 1);
    }
}

/// The first character begins at offset 0, and the text ends at its length.
pub proof fn lemma_offset_ends(s: Seq<char>)
    ensures
        offset(s, 0) == 0,
        offset(s, s.len() as int) == byte_len(s),
{
    assert(s.take(0) =~= Seq::<char>::empty());
    assert(s.take(s.len() as int) =~= s);
}

/// Offsets in a text without its first character.
pub proof fn lemma_offset_shift(s: Seq<char>, k: int)
    requires
        0 < k <= s.len(),
    ensures
        offset(s, k) == width(s[0]) + offset(s.drop_first(), k - 1),
{
    assert(s.take(k).drop_first() =~= s.drop_first().take(k - 1));
}

/// The verifier's notion of a character boundary is [`on_boundary`].
pub proof fn lemma_boundary(s: Seq<char>, i: int)
    ensures
        is_char_boundary(encode_utf8(s), i) == on_boundary(s, i),
    decreases s.len(),
{
    let bytes = encode_utf8(s);
    encode_utf8_valid_utf8(s);
    lemma_offset_ends(s);
    if i == 0 {
        assert(offset(s, 0) == i);
    } else if s.len() == 0 {
        assert forall|k: int| 0 <= k <= s.len() implies #[trigger] offset(s, k) != i by {}
    } else {
        encode_utf8_first_scalar(s);
        let t = s.drop_first();
        let w = width(s[0]) as int;
        assert(pop_first_scalar(bytes) =~= encode_utf8(t));
        lemma_boundary(t, i - w);
        if on_boundary(t, i - w) {
            let k = choose|k: int| 0 <= k <= t.len() && #[trigger] offset(t, k) == i - w;
            lemma_offset_shift(s, k + 1);
            assert(offset(s, k + 1) == i);
            if k + 1 < s.len() {
                lemma_offset_increases(s, k + 1, s.len() as int);
            }
        }
        if on_boundary(s, i) {
            let k = choose|k: int| 0 <= k <= s.len() && #[trigger] offset(s, k) == i;
            assert(k > 0);
            lemma_offset_shift(s, k);
            assert(offset(t, k - 1) == i - w);
            if k < s.len() {
                lemma_offset_increases(s, k, s.len() as int);
            }
        }
    }
}

/// The offset of character `k` tells `k`.
pub proof fn lemma_char_index(s: Seq<char>, k: int)
    requires
        0 <= k <= s.len(),
    ensures
        char_index(s, offset(s, k) as int) == k,
    decreases k,
{
    lemma_offset_ends(s);
    if k > 0 {
        lemma_offset_shift(s, k);
        lemma_width(s[0]);
        lemma_char_index(s.drop_first(), k - 1);
    }
}

/// A boundary is the offset of the character that its index names.
pub proof fn lemma_boundary_index(s: Seq<char>, i: int)
    requires
        on_boundary(s, i),
    ensures
        char_index(s, i) <= s.len(),
        offset(s, char_index(s, i) as int) == i,
        0 <= i <= byte_len(s),
{
    let k = choose|k: int| 0 <= k <= s.len() && #[trigger] offset(s, k) == i;
    lemma_char_index(s, k);
    lemma_offset_ends(s);
    if k < s.len() {
        lemma_offset_increases(s, k, s.len() as int);
    }
}

/// How many bytes the UTF-8 form of `c` takes.
pub fn char_width(c: char) -> (r: usize)
    ensures
        r == width(c),
{
    proof {
        lemma_width(c);
    }
    let n: u32 = c as u32;
    if n < 0x80 {
        1
    } else if n < 0x800 {
        2
    } else if n < 0x10000 {
        3
    } else {
        4
    }
}

/// How many bytes the text takes.
pub fn text_len(s: &str) -> (r: usize)
    ensures
        r == byte_len(s@),
{
    s.as_bytes().len()
}

/// The byte offset at which character `k` of `v` begins.
pub fn offset_of(v: &Vec<char>, k: usize) -> (r: usize)
    requires
        k <= v.len(),
        byte_len(v@) <= usize::MAX,
    ensures
        r == offset(v@, k as int),
{
    let mut n: usize = 0;
    let mut i: usize = 0;
    proof {
        lemma_offset_ends(v@);
    }
    while i < k
        invariant
            i <= k <= v.len(),
            byte_len(v@) <= usize::MAX,
            n == offset(v@, i as int),
        decreases k - i,
    {
        proof {
            lemma_offset_step(v@, i as int);
            lemma_offset_ends(v@);
            if i + 1 < v@.len() {
                lemma_offset_increases(v@, i + 1, v@.len() as int);
            }
        }
        n = n + char_width(v[i]);
        i = i + 1;
    }
    n
}

/// The index of the character of `v` that begins at byte offset `at`.
pub fn index_at(v: &Vec<char>, at: usize) -> (r: usize)
    requires
        on_boundary(v@, at as int),
    ensures
        r == char_index(v@, at as int),
        r <= v.len(),
        offset(v@, r as int) == at,
{
    let mut n: usize = 0;
    let mut i: usize = 0;
    let ghost k = char_index(v@, at as int);
    proof {
        lemma_boundary_index(v@, at as int);
        lemma_offset_ends(v@);
    }
    while n < at
        invariant
            i <= k <= v.len(),
            n == offset(v@, i as int),
            at == offset(v@, k as int),
            n <= at,
        decreases k - i,
    {
        proof {
            lemma_offset_step(v@, i as int);
            if i + 1 < k {
                lemma_offset_increases(v@, i + 1, k as int);
            }
        }
        n = n + char_width(v[i]);
        i = i + 1;
    }
    proof {
        if i < k {
            lemma_offset_increases(v@, i as int, k as int);
        }
    }
    i
}

} // verus!
