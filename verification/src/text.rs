//! Text as sequences of characters: the small vocabulary that the other
//! modules state their contracts in, and verified functions for it.

use vstd::prelude::*;
use vstd::utf8::*;

verus! {

// ---------------------------------------------------------------------------
// Standard library functions that the verifier has no specification for.
// ---------------------------------------------------------------------------

/// `String::push` appends the given character.
pub assume_specification[ String::push ](s: &mut String, c: char)
    ensures
        final(s)@ == old(s)@.push(c),
;

/// The lowercase form of a text, as `str::to_lowercase` gives it.
pub uninterp spec fn lowercase(s: Seq<char>) -> Seq<char>;

/// `str::to_lowercase`: the result is a function of the text alone, named
/// [`lowercase`]. What the Unicode tables map each character to is not stated.
#[verifier::external_body]
pub(crate) fn to_lowercase(s: &str) -> (r: String)
    ensures
        r@ == lowercase(s@),
{
    s.to_lowercase()
}

// ---------------------------------------------------------------------------
// Kinds of characters.
// ---------------------------------------------------------------------------

/// The characters with the Unicode property `White_Space`.
pub open spec fn is_white(c: char) -> bool {
    let n: u32 = c as u32;
    ||| 0x9 <= n <= 0xd
    ||| n == 0x20
    ||| n == 0x85
    ||| n == 0xa0
    ||| n == 0x1680
    ||| 0x2000 <= n <= 0x200a
    ||| n == 0x2028
    ||| n == 0x2029
    ||| n == 0x202f
    ||| n == 0x205f
    ||| n == 0x3000
}

/// Whether `c` is white space.
pub fn is_blank(c: char) -> (r: bool)
    ensures
        r == is_white(c),
{
    let n: u32 = c as u32;
    (0x9 <= n && n <= 0xd) || n == 0x20 || n == 0x85 || n == 0xa0 || n == 0x1680 || (0x2000 <= n
        && n <= 0x200a) || n == 0x2028 || n == 0x2029 || n == 0x202f || n == 0x205f || n == 0x3000
}

/// The characters of the Unicode general category `Cc`: the C0 block, the
/// delete character and the C1 block.
pub open spec fn is_control_char(c: char) -> bool {
    let n: u32 = c as u32;
    n <= 0x1f || 0x7f <= n <= 0x9f
}

/// Whether `c` is a control character.
pub fn is_control(c: char) -> (r: bool)
    ensures
        r == is_control_char(c),
{
    let n: u32 = c as u32;
    n <= 0x1f || (0x7f <= n && n <= 0x9f)
}

// ---------------------------------------------------------------------------
// Characters of a text.
// ---------------------------------------------------------------------------

/// The characters of `s`, in order.
pub fn to_chars(s: &str) -> (r: Vec<char>)
    ensures
        r@ == s@,
{
    let mut r: Vec<char> = Vec::new();
    for c in it: s.chars()
        invariant
            it.seq() == s@,
            r@ == s@.take(it.index() as int),
    {
        r.push(c);
    }
    r
}

/// The text made of the characters of `v` from `from` up to `to`.
pub fn from_chars(v: &Vec<char>, from: usize, to: usize) -> (r: String)
    requires
        from <= to <= v.len(),
    ensures
        r@ == v@.subrange(from as int, to as int),
{
    let mut r: String = String::new();
    let mut i: usize = from;
    while i < to
        invariant
            from <= i <= to <= v.len(),
            r@ == v@.subrange(from as int, i as int),
        decreases to - i,
    {
        r.push(v[i]);
        i = i + 1;
    }
    r
}

/// Whether the two texts hold the same characters.
pub fn same_text(a: &str, b: &str) -> (r: bool)
    ensures
        r == (a@ == b@),
{
    let x = a.as_bytes();
    let y = b.as_bytes();
    proof {
        encode_utf8_decode_utf8(a@);
        encode_utf8_decode_utf8(b@);
    }
    if x.len() != y.len() {
        return false;
    }
    let n: usize = x.len();
    let mut i: usize = 0;
    while i < n
        invariant
            n == x@.len(),
            n == y@.len(),
            i <= n,
            x@ == encode_utf8(a@),
            y@ == encode_utf8(b@),
            forall|j: int| 0 <= j < i ==> x@[j] == y@[j],
        decreases n - i,
    {
        if x[i] != y[i] {
            return false;
        }
        i = i + 1;
    }
    assert(x@ =~= y@);
    true
}

// ---------------------------------------------------------------------------
// Numbers in decimal.
// ---------------------------------------------------------------------------

/// The character of a decimal digit.
pub open spec fn digit(d: nat) -> char {
    (48 + d) as char
}

/// The decimal notation of `n`, without leading zeros.
pub open spec fn decimal(n: nat) -> Seq<char>
    decreases n,
{
    if n < 10 {
        seq![digit(n)]
    } else {
        decimal(n / 10).push(digit(n % 10))
    }
}

/// The decimal notation of an integer, with a sign where it is negative.
pub open spec fn signed_decimal(n: int) -> Seq<char> {
    if n < 0 {
        seq!['-'] + decimal((-n) as nat)
    } else {
        decimal(n as nat)
    }
}

/// The decimal notation is made of digits, and of at least one.
pub proof fn lemma_decimal_digits(n: nat)
    ensures
        decimal(n).len() > 0,
        forall|i: int| 0 <= i < decimal(n).len() ==> '0' <= #[trigger] decimal(n)[i] <= '9',
    decreases n,
{
    if n >= 10 {
        lemma_decimal_digits(n / 10);
    }
}

/// Whether `c` is a decimal digit of ASCII.
pub open spec fn is_digit(c: char) -> bool {
    '0' <= c <= '9'
}

/// The number that a run of digits denotes.
pub open spec fn number(run: Seq<char>) -> nat
    decreases run.len(),
{
    if run.len() == 0 {
        0
    } else {
        (number(run.drop_last()) * 10 + (run.last() as int - '0' as int)) as nat
    }
}

/// The number that a text of digits denotes; none where there is no digit, or
/// something else.
pub open spec fn natural(s: Seq<char>) -> Option<nat> {
    if s.len() > 0 && forall|i: int| 0 <= i < s.len() ==> is_digit(#[trigger] s[i]) {
        Some(number(s))
    } else {
        None
    }
}

/// The decimal notation of a number denotes that number.
pub proof fn lemma_decimal_read_back(n: nat)
    ensures
        natural(decimal(n)) == Some(n),
    decreases n,
{
    lemma_decimal_digits(n);
    assert forall|i: int| 0 <= i < decimal(n).len() implies is_digit(#[trigger] decimal(n)[i]) by {}
    let d = decimal(n);
    if n >= 10 {
        lemma_decimal_read_back(n / 10);
        assert(d.drop_last() =~= decimal(n / 10));
        assert(d.last() == digit(n % 10));
    } else {
        assert(d.drop_last() =~= seq![]);
        assert(d.last() == digit(n));
        assert(number(d.drop_last()) == 0);
    }
}

/// The digits of a text never denote less with more digits behind them.
proof fn lemma_number_grows(s: Seq<char>, k: int)
    requires
        0 <= k <= s.len(),
        forall|i: int| 0 <= i < s.len() ==> is_digit(#[trigger] s[i]),
    ensures
        number(s.take(k)) <= number(s),
    decreases s.len() - k,
{
    if k == s.len() {
        assert(s.take(k) =~= s);
    } else {
        lemma_number_grows(s, k + 1);
        assert(s.take(k + 1).drop_last() =~= s.take(k));
        assert(s.take(k + 1).last() == s[k]);
    }
}

/// Reads the digits from position `from` on, where they denote no more than
/// `limit`.
pub fn read_natural(v: &Vec<char>, from: usize, limit: u64) -> (r: Option<u64>)
    requires
        from <= v.len(),
    ensures
        r == (match natural(v@.skip(from as int)) {
            Some(n) => if n <= limit {
                Some(n as u64)
            } else {
                None
            },
            None => None,
        }),
{
    let n: usize = v.len();
    let ghost s = v@.skip(from as int);
    if from == n {
        return None;
    }
    let mut i: usize = from;
    while i < n
        invariant
            from <= i <= n,
            n == v.len(),
            s == v@.skip(from as int),
            forall|j: int| 0 <= j < i - from ==> is_digit(#[trigger] s[j]),
        decreases n - i,
    {
        if !('0' <= v[i] && v[i] <= '9') {
            assert(!is_digit(s[i - from]));
            return None;
        }
        assert(s[i - from] == v@[i as int]);
        i = i + 1;
    }
    let mut total: u64 = 0;
    let mut k: usize = from;
    assert(s.take(0).len() == 0);
    while k < n
        invariant
            from <= k <= n,
            n == v.len(),
            s == v@.skip(from as int),
            s.len() == n - from,
            forall|j: int| 0 <= j < s.len() ==> is_digit(#[trigger] s[j]),
            total == number(s.take(k - from)),
            total <= limit,
        decreases n - k,
    {
        assert(s[k - from] == v@[k as int]);
        assert(is_digit(s[k - from]));
        let d: u64 = (v[k] as u32 - '0' as u32) as u64;
        proof {
            assert(s.take(k - from + 1).drop_last() =~= s.take(k - from));
            assert(s.take(k - from + 1).last() == s[k - from]);
            assert(number(s.take(k - from + 1)) == total * 10 + d);
            lemma_number_grows(s, k - from + 1);
        }
        let next: u128 = total as u128 * 10 + d as u128;
        if next > limit as u128 {
            return None;
        }
        total = next as u64;
        k = k + 1;
    }
    assert(s.take(s.len() as int) =~= s);
    Some(total)
}

/// The integer that a text denotes, of digits with perhaps a sign before them.
pub open spec fn integer(s: Seq<char>) -> Option<int> {
    if s.len() > 0 && s[0] == '-' {
        match natural(s.skip(1)) {
            Some(n) => Some(-(n as int)),
            None => None,
        }
    } else if s.len() > 0 && s[0] == '+' {
        match natural(s.skip(1)) {
            Some(n) => Some(n as int),
            None => None,
        }
    } else {
        match natural(s) {
            Some(n) => Some(n as int),
            None => None,
        }
    }
}

/// The integer that a text denotes, where it fits `i64`.
pub open spec fn small_integer(s: Seq<char>) -> Option<i64> {
    match integer(s) {
        Some(n) => if i64::MIN <= n <= i64::MAX {
            Some(n as i64)
        } else {
            None
        },
        None => None,
    }
}

/// Reads an integer that fits `i64`.
pub fn read_integer(s: &str) -> (r: Option<i64>)
    ensures
        r == small_integer(s@),
{
    let v: Vec<char> = to_chars(s);
    assert(v@.skip(0) =~= v@);
    if v.len() > 0 && v[0] == '-' {
        match read_natural(&v, 1, 0x8000_0000_0000_0000) {
            Some(n) => if n == 0x8000_0000_0000_0000 {
                Some(i64::MIN)
            } else {
                Some(-(n as i64))
            },
            None => None,
        }
    } else {
        let from: usize = if v.len() > 0 && v[0] == '+' {
            1
        } else {
            0
        };
        match read_natural(&v, from, 0x7fff_ffff_ffff_ffff) {
            Some(n) => Some(n as i64),
            None => None,
        }
    }
}

/// The character of the digit `d`.
fn digit_char(d: u8) -> (c: char)
    requires
        d < 10,
    ensures
        c == digit(d as nat),
{
    (48 + d) as char
}

/// Appends the decimal notation of `n`.
pub fn push_decimal(out: &mut String, n: u128)
    ensures
        final(out)@ == old(out)@ + decimal(n as nat),
    decreases n,
{
    if n >= 10 {
        push_decimal(out, n / 10);
    }
    out.push(digit_char((n % 10) as u8));
}

/// The decimal notation of `n`.
pub fn decimal_text(n: u128) -> (r: String)
    ensures
        r@ == decimal(n as nat),
{
    let mut r: String = String::new();
    push_decimal(&mut r, n);
    r
}

/// The decimal notation of `n`, with a sign where it is negative.
pub fn signed_decimal_text(n: i64) -> (r: String)
    ensures
        r@ == signed_decimal(n as int),
{
    let mut r: String = String::new();
    if n < 0 {
        r.push('-');
        push_decimal(&mut r, (-(n as i128)) as u128);
    } else {
        push_decimal(&mut r, n as u128);
    }
    r
}

// ---------------------------------------------------------------------------
// Searching.
// ---------------------------------------------------------------------------

/// How many characters of `s` stand before the first `c`; all of them where
/// there is none.
pub open spec fn until(s: Seq<char>, c: char) -> nat
    decreases s.len(),
{
    if s.len() == 0 || s[0] == c {
        0
    } else {
        1 + until(s.drop_first(), c)
    }
}

/// The count of [`until`] is the position that only it can be.
pub proof fn lemma_until(s: Seq<char>, c: char, k: int)
    requires
        0 <= k <= s.len(),
        forall|j: int| 0 <= j < k ==> s[j] != c,
        k < s.len() ==> s[k] == c,
    ensures
        until(s, c) == k,
    decreases k,
{
    if k > 0 {
        lemma_until(s.drop_first(), c, k - 1);
    }
}

/// What [`until`] counts up to.
pub proof fn lemma_until_bounds(s: Seq<char>, c: char)
    ensures
        until(s, c) <= s.len(),
        forall|j: int| 0 <= j < until(s, c) ==> s[j] != c,
        until(s, c) < s.len() ==> s[until(s, c) as int] == c,
        s.contains(c) <==> until(s, c) < s.len(),
    decreases s.len(),
{
    if s.len() == 0 || s[0] == c {
        if s.len() > 0 {
            assert(s.contains(s[0]));
        }
    } else {
        let t = s.drop_first();
        lemma_until_bounds(t, c);
        assert forall|j: int| 0 <= j < until(s, c) implies s[j] != c by {
            if j > 0 {
                assert(s[j] == t[j - 1]);
            }
        }
        if until(s, c) < s.len() {
            assert(s[until(s, c) as int] == t[until(t, c) as int]);
        } else {
            assert forall|j: int| 0 <= j < s.len() implies s[j] != c by {}
        }
    }
}

/// The position of the first `c` in `v` from `from` up to `to`; `to` where
/// there is none.
pub fn find_char(v: &Vec<char>, from: usize, to: usize, c: char) -> (r: usize)
    requires
        from <= to <= v.len(),
    ensures
        from <= r <= to,
        r - from == until(v@.subrange(from as int, to as int), c),
        forall|j: int| from <= j < r ==> v@[j] != c,
        r < to ==> v@[r as int] == c,
{
    let mut i: usize = from;
    while i < to && v[i] != c
        invariant
            from <= i <= to <= v.len(),
            forall|j: int| from <= j < i ==> v@[j] != c,
        decreases to - i,
    {
        i = i + 1;
    }
    proof {
        lemma_until(v@.subrange(from as int, to as int), c, i - from);
    }
    i
}

/// Whether `needle` stands in `hay` at position `i`.
pub open spec fn occurs_at(hay: Seq<char>, needle: Seq<char>, i: int) -> bool {
    0 <= i <= hay.len() - needle.len() && hay.subrange(i, i + needle.len()) == needle
}

/// Whether `needle` stands somewhere in `hay`.
pub open spec fn has_text(hay: Seq<char>, needle: Seq<char>) -> bool {
    exists|i: int| occurs_at(hay, needle, i)
}

/// Whether `hay` begins with `needle`.
pub open spec fn begins_with(hay: Seq<char>, needle: Seq<char>) -> bool {
    occurs_at(hay, needle, 0)
}

/// Whether `hay` ends with `needle`.
pub open spec fn ends_with(hay: Seq<char>, needle: Seq<char>) -> bool {
    occurs_at(hay, needle, hay.len() - needle.len())
}

/// Whether `needle` stands in `hay` at position `i`.
pub fn stands_at(hay: &Vec<char>, needle: &Vec<char>, i: usize) -> (r: bool)
    ensures
        r == occurs_at(hay@, needle@, i as int),
{
    if hay.len() < needle.len() || i > hay.len() - needle.len() {
        return false;
    }
    let n: usize = needle.len();
    let mut j: usize = 0;
    while j < n
        invariant
            j <= n,
            n == needle.len(),
            i + n <= hay.len(),
            forall|k: int| 0 <= k < j ==> hay@[i + k] == needle@[k],
        decreases n - j,
    {
        if hay[i + j] != needle[j] {
            assert(hay@.subrange(i as int, i + n)[j as int] == hay@[i + j]);
            return false;
        }
        j = j + 1;
    }
    assert(hay@.subrange(i as int, i + n) =~= needle@);
    true
}

/// Whether `needle` stands somewhere in `hay`.
pub fn contains_text(hay: &Vec<char>, needle: &Vec<char>) -> (r: bool)
    ensures
        r == has_text(hay@, needle@),
{
    let n: usize = hay.len();
    let mut i: usize = 0;
    while i <= n
        invariant
            n == hay.len(),
            forall|k: int| 0 <= k < i ==> !occurs_at(hay@, needle@, k),
        decreases n + 1 - i,
    {
        if stands_at(hay, needle, i) {
            return true;
        }
        if i == n {
            return false;
        }
        i = i + 1;
    }
    false
}

// ---------------------------------------------------------------------------
// Trimming.
// ---------------------------------------------------------------------------

/// `s` without the leading characters that satisfy `p`.
pub open spec fn trim_start_by(s: Seq<char>, p: spec_fn(char) -> bool) -> Seq<char>
    decreases s.len(),
{
    if s.len() > 0 && p(s[0]) {
        trim_start_by(s.drop_first(), p)
    } else {
        s
    }
}

/// `s` without the trailing characters that satisfy `p`.
pub open spec fn trim_end_by(s: Seq<char>, p: spec_fn(char) -> bool) -> Seq<char>
    decreases s.len(),
{
    if s.len() > 0 && p(s.last()) {
        trim_end_by(s.drop_last(), p)
    } else {
        s
    }
}

/// `s` without leading and trailing characters that satisfy `p`.
pub open spec fn trim_by(s: Seq<char>, p: spec_fn(char) -> bool) -> Seq<char> {
    trim_end_by(trim_start_by(s, p), p)
}

/// `s` without leading and trailing white space.
pub open spec fn trim(s: Seq<char>) -> Seq<char> {
    trim_by(s, |c: char| is_white(c))
}

/// `s` without trailing white space.
pub open spec fn trim_end(s: Seq<char>) -> Seq<char> {
    trim_end_by(s, |c: char| is_white(c))
}

/// The test for the one character `c`.
pub open spec fn only(c: char) -> spec_fn(char) -> bool {
    |d: char| d == c
}

/// `s` without the characters `c` at both ends.
pub open spec fn trim_char(s: Seq<char>, c: char) -> Seq<char> {
    trim_by(s, only(c))
}

/// `s` without the characters `c` at its end.
pub open spec fn trim_end_char(s: Seq<char>, c: char) -> Seq<char> {
    trim_end_by(s, only(c))
}

/// What trimming at the start removes.
pub proof fn lemma_trim_start(s: Seq<char>, p: spec_fn(char) -> bool, k: int)
    requires
        0 <= k <= s.len(),
        forall|j: int| 0 <= j < k ==> p(s[j]),
        k < s.len() ==> !p(s[k]),
    ensures
        trim_start_by(s, p) == s.skip(k),
    decreases k,
{
    if k > 0 {
        assert(p(s[0]));
        lemma_trim_start(s.drop_first(), p, k - 1);
        assert(s.drop_first().skip(k - 1) =~= s.skip(k));
    } else {
        assert(s.skip(0) =~= s);
    }
}

/// What trimming at the end removes.
pub proof fn lemma_trim_end(s: Seq<char>, p: spec_fn(char) -> bool, k: int)
    requires
        0 <= k <= s.len(),
        forall|j: int| k <= j < s.len() ==> p(s[j]),
        k > 0 ==> !p(s[k - 1]),
    ensures
        trim_end_by(s, p) == s.take(k),
    decreases s.len() - k,
{
    if k < s.len() {
        assert(p(s.last()));
        lemma_trim_end(s.drop_last(), p, k);
        assert(s.drop_last().take(k) =~= s.take(k));
    } else {
        assert(s.take(k) =~= s);
    }
}

/// A trimmed text is a stretch of the text it came from.
pub proof fn lemma_trim_by_len(s: Seq<char>, p: spec_fn(char) -> bool)
    ensures
        trim_start_by(s, p).len() <= s.len(),
        trim_end_by(s, p).len() <= s.len(),
    decreases s.len(),
{
    if s.len() > 0 {
        lemma_trim_by_len(s.drop_first(), p);
        lemma_trim_by_len(s.drop_last(), p);
    }
}

/// The part of `v` from `from` up to `to` without white space at its ends, as
/// a pair of positions.
pub fn trim_range(v: &Vec<char>, from: usize, to: usize) -> (r: (usize, usize))
    requires
        from <= to <= v.len(),
    ensures
        from <= r.0 <= r.1 <= to,
        v@.subrange(r.0 as int, r.1 as int) == trim(v@.subrange(from as int, to as int)),
{
    let mut i: usize = from;
    let ghost p = |c: char| is_white(c);
    let ghost s = v@.subrange(from as int, to as int);
    while i < to && is_blank(v[i])
        invariant
            from <= i <= to <= v.len(),
            forall|j: int| from <= j < i ==> is_white(v@[j]),
        decreases to - i,
    {
        i = i + 1;
    }
    let end: usize = trim_end_range(v, i, to);
    proof {
        lemma_trim_start(s, p, i - from);
        assert(s.skip(i - from) =~= v@.subrange(i as int, to as int));
    }
    (i, end)
}

/// The end of the part of `v` from `from` up to `to` without white space at
/// its end.
pub fn trim_end_range(v: &Vec<char>, from: usize, to: usize) -> (r: usize)
    requires
        from <= to <= v.len(),
    ensures
        from <= r <= to,
        v@.subrange(from as int, r as int) == trim_end(v@.subrange(from as int, to as int)),
{
    let mut j: usize = to;
    let ghost p = |c: char| is_white(c);
    let ghost s = v@.subrange(from as int, to as int);
    while from < j && is_blank(v[j - 1])
        invariant
            from <= j <= to <= v.len(),
            forall|k: int| j <= k < to ==> is_white(v@[k]),
        decreases j,
    {
        j = j - 1;
    }
    proof {
        lemma_trim_end(s, p, j - from);
        assert(s.take(j - from) =~= v@.subrange(from as int, j as int));
    }
    j
}

/// The part of `v` from `from` up to `to` without the characters `c` at its
/// ends, as a pair of positions.
pub fn trim_char_range(v: &Vec<char>, from: usize, to: usize, c: char) -> (r: (usize, usize))
    requires
        from <= to <= v.len(),
    ensures
        from <= r.0 <= r.1 <= to,
        v@.subrange(r.0 as int, r.1 as int) == trim_char(v@.subrange(from as int, to as int), c),
{
    let mut i: usize = from;
    let ghost p = only(c);
    let ghost s = v@.subrange(from as int, to as int);
    while i < to && v[i] == c
        invariant
            from <= i <= to <= v.len(),
            forall|j: int| from <= j < i ==> v@[j] == c,
        decreases to - i,
    {
        i = i + 1;
    }
    let end: usize = trim_end_char_range(v, i, to, c);
    proof {
        lemma_trim_start(s, p, i - from);
        assert(s.skip(i - from) =~= v@.subrange(i as int, to as int));
    }
    (i, end)
}

/// The end of the part of `v` from `from` up to `to` without the characters
/// `c` at its end.
pub fn trim_end_char_range(v: &Vec<char>, from: usize, to: usize, c: char) -> (r: usize)
    requires
        from <= to <= v.len(),
    ensures
        from <= r <= to,
        v@.subrange(from as int, r as int) == trim_end_char(
            v@.subrange(from as int, to as int),
            c,
        ),
{
    let mut j: usize = to;
    let ghost p = only(c);
    let ghost s = v@.subrange(from as int, to as int);
    while from < j && v[j - 1] == c
        invariant
            from <= j <= to <= v.len(),
            forall|k: int| j <= k < to ==> v@[k] == c,
        decreases j,
    {
        j = j - 1;
    }
    proof {
        lemma_trim_end(s, p, j - from);
        assert(s.take(j - from) =~= v@.subrange(from as int, j as int));
    }
    j
}

/// `s` without leading and trailing white space.
pub fn trimmed(s: &str) -> (r: String)
    ensures
        r@ == trim(s@),
{
    let v: Vec<char> = to_chars(s);
    let (a, b): (usize, usize) = trim_range(&v, 0, v.len());
    assert(v@.subrange(0, v@.len() as int) =~= v@);
    from_chars(&v, a, b)
}

/// `s` without trailing white space.
pub fn trimmed_end(s: &str) -> (r: String)
    ensures
        r@ == trim_end(s@),
{
    let v: Vec<char> = to_chars(s);
    let b: usize = trim_end_range(&v, 0, v.len());
    assert(v@.subrange(0, v@.len() as int) =~= v@);
    from_chars(&v, 0, b)
}

// ---------------------------------------------------------------------------
// Lines and lists.
// ---------------------------------------------------------------------------

/// A line without the carriage return that ends it.
pub open spec fn without_return(s: Seq<char>) -> Seq<char> {
    if s.len() > 0 && s.last() == '\r' {
        s.drop_last()
    } else {
        s
    }
}

/// The lines of a text: they end at a line feed, or at a carriage return and a
/// line feed; the end of the last line may be missing.
pub open spec fn lines(s: Seq<char>) -> Seq<Seq<char>>
    decreases s.len(),
{
    let n = until(s, '\n') as int;
    if s.len() == 0 {
        seq![]
    } else if n >= s.len() {
        seq![s]
    } else {
        seq![without_return(s.take(n))] + lines(s.skip(n + 1))
    }
}

/// The texts that the given strings hold.
pub open spec fn views(v: Seq<String>) -> Seq<Seq<char>> {
    v.map_values(|s: String| s@)
}

/// The lines of `v`.
pub fn split_lines(v: &Vec<char>) -> (r: Vec<String>)
    ensures
        views(r@) == lines(v@),
{
    let mut r: Vec<String> = Vec::new();
    let mut i: usize = 0;
    let n: usize = v.len();
    proof {
        assert(v@.skip(0) =~= v@);
        assert(views(r@) + lines(v@) =~= lines(v@));
    }
    while i < n
        invariant
            i <= n,
            n == v.len(),
            views(r@) + lines(v@.skip(i as int)) == lines(v@),
        decreases n - i,
    {
        let ghost rest = v@.skip(i as int);
        let ghost before = r@;
        let e: usize = find_char(v, i, n, '\n');
        assert(rest =~= v@.subrange(i as int, n as int));
        if e == n {
            r.push(from_chars(v, i, n));
            proof {
                assert(v@.skip(n as int).len() == 0);
                assert(views(r@) =~= views(before).push(rest));
                assert(views(r@) + lines(v@.skip(n as int)) =~= views(before) + seq![rest]);
            }
            i = n;
        } else {
            let stop: usize = if e > i && v[e - 1] == '\r' {
                e - 1
            } else {
                e
            };
            let line: String = from_chars(v, i, stop);
            proof {
                assert(rest.take(e - i) =~= v@.subrange(i as int, e as int));
                assert(line@ =~= without_return(rest.take(e - i)));
                assert(rest.skip(e - i + 1) =~= v@.skip(e + 1));
            }
            r.push(line);
            proof {
                assert(views(r@) =~= views(before).push(line@));
                assert(views(r@) + lines(v@.skip(e + 1)) =~= views(before) + lines(rest));
            }
            i = e + 1;
        }
    }
    proof {
        assert(v@.skip(i as int).len() == 0);
        assert(views(r@) + lines(v@.skip(i as int)) =~= views(r@));
    }
    r
}

/// The parts, one after the other, with `sep` between them.
pub open spec fn join(parts: Seq<Seq<char>>, sep: Seq<char>) -> Seq<char>
    decreases parts.len(),
{
    if parts.len() == 0 {
        seq![]
    } else if parts.len() == 1 {
        parts[0]
    } else {
        join(parts.drop_last(), sep) + sep + parts.last()
    }
}

/// The parts, one after the other, with `sep` between them.
pub fn join_texts(parts: &Vec<String>, sep: &str) -> (r: String)
    ensures
        r@ == join(views(parts@), sep@),
{
    let mut r: String = String::new();
    let n: usize = parts.len();
    let mut i: usize = 0;
    while i < n
        invariant
            i <= n,
            n == parts.len(),
            r@ == join(views(parts@).take(i as int), sep@),
        decreases n - i,
    {
        if i > 0 {
            r.append(sep);
        }
        r.append(parts[i].as_str());
        proof {
            let next = views(parts@).take(i + 1);
            assert(next.drop_last() =~= views(parts@).take(i as int));
            assert(next.last() == parts@[i as int]@);
        }
        i = i + 1;
    }
    assert(views(parts@).take(n as int) =~= views(parts@));
    r
}

/// Trimming the end takes away white space there, all of it and nothing else.
pub proof fn law_trimming_the_end(s: Seq<char>)
    ensures
        trim_end(s).is_prefix_of(s),
        trim_end(s).len() > 0 ==> !is_white(trim_end(s).last()),
        forall|k: int| trim_end(s).len() <= k < s.len() ==> is_white(#[trigger] s[k]),
        forall|k: int| 0 <= k < trim_end(s).len() ==> #[trigger] trim_end(s)[k] == s[k],
    decreases s.len(),
{
    if s.len() > 0 && is_white(s.last()) {
        law_trimming_the_end(s.drop_last());
        assert(trim_end(s) == trim_end(s.drop_last()));
        assert forall|k: int| trim_end(s).len() <= k < s.len() implies is_white(
            #[trigger] s[k],
        ) by {
            if k < s.len() - 1 {
                assert(is_white(s.drop_last()[k]));
            }
        }
        assert forall|k: int| 0 <= k < trim_end(s).len() implies #[trigger] trim_end(s)[k]
            == s[k] by {
            assert(trim_end(s.drop_last())[k] == s.drop_last()[k]);
        }
        assert(s.drop_last().is_prefix_of(s));
        assert(trim_end(s) =~= s.take(trim_end(s).len() as int));
    } else {
        assert(trim_end(s) == s);
        assert(s =~= s.take(s.len() as int));
    }
}

/// Trimming takes away white space at both ends, all of it and nothing else.
pub proof fn law_trimming(s: Seq<char>)
    ensures
        exists|a: int, b: int|
            0 <= a <= b <= s.len() && trim(s) == #[trigger] s.subrange(a, b) && (forall|k: int|
                0 <= k < a ==> is_white(#[trigger] s[k])) && (forall|k: int|
                b <= k < s.len() ==> is_white(#[trigger] s[k])),
        trim(s).len() > 0 ==> !is_white(trim(s)[0]) && !is_white(trim(s).last()),
    decreases s.len(),
{
    let p = |c: char| is_white(c);
    if s.len() > 0 && is_white(s[0]) {
        let t = s.drop_first();
        law_trimming(t);
        assert(trim_start_by(s, p) == trim_start_by(t, p));
        let (a, b) = choose|a: int, b: int|
            0 <= a <= b <= t.len() && trim(t) == #[trigger] t.subrange(a, b) && (forall|k: int|
                0 <= k < a ==> is_white(#[trigger] t[k])) && (forall|k: int|
                b <= k < t.len() ==> is_white(#[trigger] t[k]));
        assert(t.subrange(a, b) =~= s.subrange(a + 1, b + 1));
        assert forall|k: int| 0 <= k < a + 1 implies is_white(#[trigger] s[k]) by {
            if k > 0 {
                assert(t[k - 1] == s[k]);
            }
        }
        assert forall|k: int| b + 1 <= k < s.len() implies is_white(#[trigger] s[k]) by {
            assert(t[k - 1] == s[k]);
        }
        assert(trim(s) == s.subrange(a + 1, b + 1));
    } else {
        assert(trim_start_by(s, p) == s);
        assert(trim(s) == trim_end(s));
        law_trimming_the_end(s);
        let b = trim_end(s).len() as int;
        assert(trim(s) =~= s.subrange(0, b));
    }
}

/// A text is cut at its line feeds into all of its lines, in order: what comes
/// before the first is the first line, without a carriage return at its end, and
/// what comes behind it has the other lines.
pub proof fn law_lines_are_cut_at_line_feeds(line: Seq<char>, rest: Seq<char>)
    requires
        forall|k: int| 0 <= k < line.len() ==> line[k] != '\n',
    ensures
        line.len() == 0 || line.last() != '\r' ==> lines(line.push('\n') + rest) == seq![line]
            + lines(rest),
        lines(line.push('\r').push('\n') + rest) == seq![line] + lines(rest),
        line.len() > 0 ==> lines(line) == seq![line],
        lines(seq![]) == Seq::<Seq<char>>::empty(),
{
    let s = line.push('\n') + rest;
    let n = line.len() as int;
    lemma_until(s, '\n', n);
    assert(s.take(n) =~= line);
    assert(s.skip(n + 1) =~= rest);
    let t = line.push('\r').push('\n') + rest;
    lemma_until(t, '\n', n + 1);
    assert(t.take(n + 1) =~= line.push('\r'));
    assert(t.skip(n + 2) =~= rest);
    assert(line.push('\r').drop_last() =~= line);
    lemma_until(line, '\n', n);
}

/// Parts that are joined are all there, in order, with the separator between
/// each and the next.
pub proof fn law_joining(a: Seq<Seq<char>>, b: Seq<Seq<char>>, part: Seq<char>, sep: Seq<char>)
    ensures
        join(seq![], sep) == Seq::<char>::empty(),
        join(seq![part], sep) == part,
        a.len() > 0 && b.len() > 0 ==> join(a + b, sep) == join(a, sep) + sep + join(b, sep),
    decreases b.len(),
{
    if a.len() > 0 && b.len() > 0 {
        assert((a + b).drop_last() =~= a + b.drop_last());
        assert((a + b).last() == b.last());
        if b.len() == 1 {
            assert(a + b.drop_last() =~= a);
            assert(join(b, sep) == b[0]);
        } else {
            law_joining(a, b.drop_last(), part, sep);
            assert(join(a, sep) + sep + (join(b.drop_last(), sep) + sep + b.last()) =~= join(a, sep)
                + sep + join(b.drop_last(), sep) + sep + b.last());
        }
    }
}

/// Different numbers have different notations, and each notation is read back
/// as its number, with its sign.
pub proof fn law_numbers_are_read_back(m: nat, n: nat, k: i64)
    ensures
        natural(decimal(n)) == Some(n),
        m != n ==> decimal(m) != decimal(n),
        small_integer(signed_decimal(k as int)) == Some(k),
        decimal(n).last() as int == '0' as int + n % 10,
        n >= 10 ==> decimal(n).drop_last() == decimal(n / 10),
        n < 10 ==> decimal(n).len() == 1,
{
    lemma_decimal_read_back(m);
    lemma_decimal_read_back(n);
    lemma_decimal_digits(n);
    let a: nat = if k < 0 {
        (-k) as nat
    } else {
        k as nat
    };
    lemma_decimal_read_back(a);
    lemma_decimal_digits(a);
    assert('0' <= decimal(a)[0] <= '9');
    assert(signed_decimal(k as int).skip(1) =~= if k < 0 {
        decimal(a)
    } else {
        decimal(a).skip(1)
    });
    assert(n >= 10 ==> decimal(n).drop_last() =~= decimal(n / 10));
}

/// A text stands in another exactly where that is made of something before it,
/// the text itself, and something behind it.
pub proof fn law_text_is_found(before: Seq<char>, needle: Seq<char>, after: Seq<char>)
    ensures
        occurs_at(before + needle + after, needle, before.len() as int),
        has_text(before + needle + after, needle),
        begins_with(needle + after, needle),
        ends_with(before + needle, needle),
{
    let hay = before + needle + after;
    assert(hay.subrange(before.len() as int, (before.len() + needle.len()) as int) =~= needle);
    assert((needle + after).subrange(0, needle.len() as int) =~= needle);
    let b = before + needle;
    assert(b.subrange(b.len() - needle.len(), b.len() as int) =~= needle);
}

/// What trimming the end leaves is the beginning up to the last character that
/// does not satisfy `p`.
pub proof fn lemma_trim_end_by(s: Seq<char>, p: spec_fn(char) -> bool)
    ensures
        trim_end_by(s, p).len() <= s.len(),
        trim_end_by(s, p) == s.take(trim_end_by(s, p).len() as int),
        forall|k: int| trim_end_by(s, p).len() <= k < s.len() ==> p(#[trigger] s[k]),
        trim_end_by(s, p).len() > 0 ==> !p(s[trim_end_by(s, p).len() - 1]),
    decreases s.len(),
{
    if s.len() > 0 && p(s.last()) {
        let t = s.drop_last();
        lemma_trim_end_by(t, p);
        let n = trim_end_by(t, p).len() as int;
        assert(t.take(n) =~= s.take(n));
        assert forall|k: int| n <= k < s.len() implies p(#[trigger] s[k]) by {
            if k < t.len() {
                assert(t[k] == s[k]);
            }
        }
        if n > 0 {
            assert(t[n - 1] == s[n - 1]);
        }
    } else {
        assert(s.take(s.len() as int) =~= s);
    }
}

/// Trimming leaves exactly what stands between characters that satisfy `p`, where
/// that has none at its own ends.
pub proof fn law_trimming_leaves_the_middle(
    before: Seq<char>,
    middle: Seq<char>,
    after: Seq<char>,
    p: spec_fn(char) -> bool,
)
    requires
        forall|k: int| 0 <= k < before.len() ==> p(#[trigger] before[k]),
        forall|k: int| 0 <= k < after.len() ==> p(#[trigger] after[k]),
        middle.len() > 0 ==> !p(middle[0]) && !p(middle.last()),
    ensures
        trim_by(before + middle + after, p) == middle,
{
    let s = before + middle + after;
    let a = before.len() as int;
    if middle.len() == 0 {
        assert forall|j: int| 0 <= j < s.len() implies p(s[j]) by {
            if j < a {
                assert(s[j] == before[j]);
            } else {
                assert(s[j] == after[j - a]);
            }
        }
        lemma_trim_start(s, p, s.len() as int);
        assert(s.skip(s.len() as int) =~= middle);
        lemma_trim_end(middle, p, 0);
        assert(middle.take(0) =~= middle);
    } else {
        assert forall|j: int| 0 <= j < a implies p(s[j]) by {
            assert(s[j] == before[j]);
        }
        assert(s[a] == middle[0]);
        lemma_trim_start(s, p, a);
        let t = middle + after;
        assert(s.skip(a) =~= t);
        let m = middle.len() as int;
        assert forall|j: int| m <= j < t.len() implies p(t[j]) by {
            assert(t[j] == after[j - m]);
        }
        assert(t[m - 1] == middle.last());
        lemma_trim_end(t, p, m);
        assert(t.take(m) =~= middle);
    }
}

/// Trimming a character off the end leaves none of it there, and takes nothing
/// else.
pub proof fn law_trimming_a_character(s: Seq<char>, c: char)
    ensures
        trim_end_char(s, c).is_prefix_of(s),
        trim_end_char(s, c).len() > 0 ==> trim_end_char(s, c).last() != c,
        forall|k: int| trim_end_char(s, c).len() <= k < s.len() ==> #[trigger] s[k] == c,
{
    lemma_trim_end_by(s, only(c));
}

/// The twenty-five characters that are white space; every other is none.
pub proof fn law_white_space(c: char)
    ensures
        is_white(c) <==> seq![
            0x9u32,
            0xa,
            0xb,
            0xc,
            0xd,
            0x20,
            0x85,
            0xa0,
            0x1680,
            0x2000,
            0x2001,
            0x2002,
            0x2003,
            0x2004,
            0x2005,
            0x2006,
            0x2007,
            0x2008,
            0x2009,
            0x200a,
            0x2028,
            0x2029,
            0x202f,
            0x205f,
            0x3000,
        ].contains(c as u32),
{
    let white = seq![
        0x9u32,
        0xa,
        0xb,
        0xc,
        0xd,
        0x20,
        0x85,
        0xa0,
        0x1680,
        0x2000,
        0x2001,
        0x2002,
        0x2003,
        0x2004,
        0x2005,
        0x2006,
        0x2007,
        0x2008,
        0x2009,
        0x200a,
        0x2028,
        0x2029,
        0x202f,
        0x205f,
        0x3000,
    ];
    let n = c as u32;
    if is_white(c) {
        let k: int = if n <= 0xd {
            n - 0x9
        } else if n == 0x20 {
            5
        } else if n == 0x85 {
            6
        } else if n == 0xa0 {
            7
        } else if n == 0x1680 {
            8
        } else if n <= 0x200a {
            9 + (n - 0x2000)
        } else if n <= 0x2029 {
            20 + (n - 0x2028)
        } else if n == 0x202f {
            22
        } else if n == 0x205f {
            23
        } else {
            24
        };
        assert(white[k] == n);
    }
}

/// The control characters are those below the space, and those from delete on
/// up to the last of the same kind above it.
pub proof fn law_control_characters(c: char)
    ensures
        c < ' ' ==> is_control_char(c),
        ' ' <= c <= '~' ==> !is_control_char(c),
        '\u{7f}' <= c <= '\u{9f}' ==> is_control_char(c),
        c >= '\u{a0}' ==> !is_control_char(c),
{
}

/// Numbers may have a sign; what is no row of digits, or too great, is no number.
pub proof fn law_signs_and_limits(n: nat, s: Seq<char>, i: int)
    ensures
        n <= i64::MAX ==> small_integer("+"@ + decimal(n)) == Some(n as i64),
        n <= i64::MAX + 1 ==> small_integer("-"@ + decimal(n)) == Some((-(n as int)) as i64),
        n > i64::MAX ==> small_integer(decimal(n)) is None,
        n > i64::MAX + 1 ==> small_integer("-"@ + decimal(n)) is None,
        small_integer(seq![]) is None,
        0 < i < s.len() && !('0' <= s[i] <= '9') ==> small_integer(s) is None,
        0 <= i < s.len() && !('0' <= s[i] <= '9') ==> natural(s) is None,
        s.len() > 0 && !('0' <= s[0] <= '9') && s[0] != '-' && s[0] != '+' ==> small_integer(
            s,
        ) is None,
{
    reveal_strlit("+");
    reveal_strlit("-");
    lemma_decimal_read_back(n);
    lemma_decimal_digits(n);
    assert(("+"@ + decimal(n)).skip(1) =~= decimal(n));
    assert(("-"@ + decimal(n)).skip(1) =~= decimal(n));
    assert('0' <= decimal(n)[0] <= '9');
    if 0 <= i < s.len() && !('0' <= s[i] <= '9') {
        assert(!is_digit(s[i]));
        if i > 0 {
            assert(s.skip(1)[i - 1] == s[i]);
        }
    }
    if s.len() > 0 {
        assert(!('0' <= s[0] <= '9') ==> !is_digit(s[0]));
    }
}

} // verus!
