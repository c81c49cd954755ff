//! The arrangement of panes in a grid.

use vstd::prelude::*;

use crate::text;
use crate::text::to_chars;

verus! {

/// An N (cols) x M (rows) arrangement of panes. Index = row * cols + col.
#[derive(Clone, Copy, Debug)]
pub struct GridLayout {
    pub cols: usize,
    pub rows: usize,
    /// Pixels between neighbouring panes.
    pub gap: u32,
    /// Pixels around the grid.
    pub pad: u32,
}

impl GridLayout {
    /// Whether the layout has panes, and as many as can be counted.
    pub open spec fn wf(self) -> bool {
        self.cols >= 1 && self.rows >= 1 && self.cols * self.rows <= usize::MAX
    }

    /// A layout with at least one column and one row.
    pub fn new(cols: usize, rows: usize) -> (r: Self)
        ensures
            r.cols == (if cols > 1 {
                cols
            } else {
                1
            }),
            r.rows == (if rows > 1 {
                rows
            } else {
                1
            }),
            r.gap == 8,
            r.pad == 10,
    {
        GridLayout {
            cols: if cols > 1 {
                cols
            } else {
                1
            },
            rows: if rows > 1 {
                rows
            } else {
                1
            },
            gap: 8,
            pad: 10,
        }
    }

    /// How many panes the grid has.
    pub fn count(&self) -> (r: usize)
        requires
            self.cols * self.rows <= usize::MAX,
        ensures
            r == self.cols * self.rows,
    {
        self.cols * self.rows
    }

    /// The column and the row of the pane at `index`.
    pub fn cell_of(&self, index: usize) -> (r: (usize, usize))
        requires
            self.cols >= 1,
        ensures
            r.0 == index % self.cols,
            r.1 == index / self.cols,
    {
        (index % self.cols, index / self.cols)
    }
}

// ---------------------------------------------------------------------------
// Reading a grid size.
// ---------------------------------------------------------------------------

/// How many digits `s` begins with.
pub open spec fn run_len(s: Seq<char>) -> nat
    decreases s.len(),
{
    if s.len() > 0 && text::is_digit(s[0]) {
        1 + run_len(s.drop_first())
    } else {
        0
    }
}

/// A run of digits does not reach beyond the text.
pub proof fn lemma_run_len(s: Seq<char>)
    ensures
        run_len(s) <= s.len(),
    decreases s.len(),
{
    if s.len() > 0 {
        lemma_run_len(s.drop_first());
    }
}

/// The longest runs of digits in `s`, in order.
pub open spec fn digit_runs(s: Seq<char>) -> Seq<Seq<char>>
    decreases s.len(),
{
    if s.len() == 0 {
        seq![]
    } else if !text::is_digit(s[0]) {
        digit_runs(s.drop_first())
    } else {
        proof {
            lemma_run_len(s);
        }
        let n = run_len(s) as int;
        seq![s.take(n)] + digit_runs(s.skip(n))
    }
}

/// The numbers in `s` that fit the machine's word, in order.
pub open spec fn numbers(s: Seq<char>) -> Seq<nat>
{
    fitting(digit_runs(s))
}

/// The numbers that the runs denote, as far as they fit the machine's word.
pub open spec fn fitting(runs: Seq<Seq<char>>) -> Seq<nat>
    decreases runs.len(),
{
    if runs.len() == 0 {
        seq![]
    } else if text::number(runs[0]) <= usize::MAX {
        seq![text::number(runs[0])] + fitting(runs.drop_first())
    } else {
        fitting(runs.drop_first())
    }
}

/// The grid that a text asks for: two numbers from 1 to 12 are the columns and
/// the rows, one such number stands for both.
pub open spec fn grid_size(s: Seq<char>) -> Option<(nat, nat)> {
    let p = numbers(s);
    if p.len() == 2 && 1 <= p[0] <= 12 && 1 <= p[1] <= 12 {
        Some((p[0], p[1]))
    } else if p.len() == 1 && 1 <= p[0] <= 12 {
        Some((p[0], p[0]))
    } else {
        None
    }
}

proof fn lemma_run_len_is(s: Seq<char>, k: int)
    requires
        0 <= k <= s.len(),
        forall|j: int| 0 <= j < k ==> text::is_digit(s[j]),
        k < s.len() ==> !text::is_digit(s[k]),
    ensures
        run_len(s) == k,
    decreases k,
{
    if k > 0 {
        assert(text::is_digit(s[0]));
        lemma_run_len_is(s.drop_first(), k - 1);
    }
}

/// The end of the run of digits at `from`, and its number if that fits.
fn read_number(v: &Vec<char>, from: usize) -> (r: (usize, Option<usize>))
    requires
        from < v.len(),
        text::is_digit(v@[from as int]),
    ensures
        from < r.0 <= v.len(),
        r.0 - from == run_len(v@.skip(from as int)),
        match r.1 {
            Some(n) => n == text::number(v@.subrange(from as int, r.0 as int)),
            None => text::number(v@.subrange(from as int, r.0 as int)) > usize::MAX,
        },
{
    let n: usize = v.len();
    let mut i: usize = from;
    let mut val: usize = 0;
    let mut big: bool = false;
    while i < n && '0' <= v[i] && v[i] <= '9'
        invariant
            from <= i <= n,
            n == v.len(),
            forall|j: int| from <= j < i ==> text::is_digit(v@[j]),
            !big ==> val == text::number(v@.subrange(from as int, i as int)),
            big ==> text::number(v@.subrange(from as int, i as int)) > usize::MAX,
        decreases n - i,
    {
        let d: usize = (v[i] as u32 - 48) as usize;
        proof {
            let next = v@.subrange(from as int, i + 1);
            assert(next.drop_last() =~= v@.subrange(from as int, i as int));
            assert(next.last() == v@[i as int]);
        }
        if !big {
            match val.checked_mul(10) {
                Some(t) => match t.checked_add(d) {
                    Some(x) => {
                        val = x;
                    },
                    None => {
                        big = true;
                    },
                },
                None => {
                    big = true;
                },
            }
        }
        i = i + 1;
    }
    proof {
        let s = v@.skip(from as int);
        assert forall|j: int| 0 <= j < i - from implies text::is_digit(s[j]) by {
            assert(s[j] == v@[from + j]);
        }
        lemma_run_len_is(s, i - from);
        assert(i > from);
    }
    (
        i,
        if big {
            None
        } else {
            Some(val)
        },
    )
}

/// The numbers in `v` that fit the machine's word.
fn read_numbers(v: &Vec<char>) -> (r: Vec<usize>)
    ensures
        r@.map_values(|n: usize| n as nat) == numbers(v@),
{
    let n: usize = v.len();
    let mut r: Vec<usize> = Vec::new();
    let mut i: usize = 0;
    let ghost f = |n: usize| n as nat;
    proof {
        assert(v@.skip(0) =~= v@);
        assert(r@.map_values(f) + fitting(digit_runs(v@)) =~= numbers(v@));
    }
    while i < n
        invariant
            i <= n,
            n == v.len(),
            f == (|n: usize| n as nat),
            r@.map_values(f) + fitting(digit_runs(v@.skip(i as int))) == numbers(v@),
        decreases n - i,
    {
        let ghost rest = v@.skip(i as int);
        let ghost before = r@;
        if !('0' <= v[i] && v[i] <= '9') {
            assert(rest.drop_first() =~= v@.skip(i + 1));
            i = i + 1;
        } else {
            let (e, num): (usize, Option<usize>) = read_number(v, i);
            proof {
                assert(rest.take(e - i) =~= v@.subrange(i as int, e as int));
                assert(rest.skip(e - i) =~= v@.skip(e as int));
                let runs = digit_runs(rest);
                assert(runs.drop_first() =~= digit_runs(v@.skip(e as int)));
                assert(runs[0] == v@.subrange(i as int, e as int));
            }
            if let Some(x) = num {
                r.push(x);
                proof {
                    assert(r@.map_values(f) =~= before.map_values(f).push(x as nat));
                    assert(r@.map_values(f) + fitting(digit_runs(v@.skip(e as int)))
                        =~= before.map_values(f) + fitting(digit_runs(rest)));
                }
            }
            i = e;
        }
    }
    proof {
        assert(v@.skip(i as int).len() == 0);
        assert(r@.map_values(f) + fitting(digit_runs(v@.skip(i as int))) =~= r@.map_values(f));
    }
    r
}

/// Parses strings like "4x4", "3x2", "4 2", "2,3" into (cols, rows).
pub fn parse_grid(s: &str) -> (r: Option<(usize, usize)>)
    ensures
        match grid_size(s@) {
            Some(g) => r matches Some(x) && x.0 == g.0 && x.1 == g.1,
            None => r is None,
        },
{
    let v: Vec<char> = to_chars(s);
    let parts: Vec<usize> = read_numbers(&v);
    let ghost m = parts@.map_values(|n: usize| n as nat);
    assert(m.len() == parts@.len());
    if parts.len() == 2 {
        let c: usize = parts[0];
        let r: usize = parts[1];
        assert(m[0] == c && m[1] == r);
        if c > 0 && r > 0 && c <= 12 && r <= 12 {
            return Some((c, r));
        }
    } else if parts.len() == 1 {
        let n: usize = parts[0];
        assert(m[0] == n);
        if n > 0 && n <= 12 {
            return Some((n, n));
        }
    }
    None
}

proof fn lemma_one_run(b: Seq<char>)
    requires
        b.len() > 0,
        forall|i: int| 0 <= i < b.len() ==> text::is_digit(#[trigger] b[i]),
    ensures
        digit_runs(b) == seq![b],
{
    lemma_run_len_is(b, b.len() as int);
    assert(b.take(b.len() as int) =~= b);
    assert(b.skip(b.len() as int) =~= seq![]);
    assert(digit_runs(b.skip(b.len() as int)) =~= seq![]);
    assert(digit_runs(b) =~= seq![b]);
}

/// A size written as two numbers, with any one character between them that is
/// no digit ("4x2", "4 2", "4,2"), is read as that size, where it is at most 12
/// by 12.
pub proof fn law_grid_text_is_read(cols: nat, rows: nat, sep: char)
    requires
        1 <= cols <= 12,
        1 <= rows <= 12,
        !text::is_digit(sep),
    ensures
        grid_size(text::decimal(cols) + seq![sep] + text::decimal(rows)) == Some((cols, rows)),
{
    let a = text::decimal(cols);
    let b = text::decimal(rows);
    let s = a + seq![sep] + b;
    text::lemma_decimal_digits(cols);
    text::lemma_decimal_digits(rows);
    text::lemma_decimal_read_back(cols);
    text::lemma_decimal_read_back(rows);
    assert forall|i: int| 0 <= i < a.len() implies text::is_digit(#[trigger] s[i]) by {
        assert(s[i] == a[i]);
    }
    assert(s[a.len() as int] == sep);
    lemma_run_len_is(s, a.len() as int);
    assert(s.take(a.len() as int) =~= a);
    let t = s.skip(a.len() as int);
    assert(t =~= seq![sep] + b);
    assert(t.drop_first() =~= b);
    lemma_one_run(b);
    assert(digit_runs(t) == digit_runs(b));
    assert(digit_runs(s) =~= seq![a, b]);
    let runs = seq![a, b];
    assert(runs.drop_first() =~= seq![b]);
    assert(seq![b].drop_first() =~= Seq::<Seq<char>>::empty());
    assert(fitting(seq![b].drop_first()) =~= seq![]);
    assert(fitting(seq![b]) =~= seq![rows]);
    assert(fitting(runs) =~= seq![cols, rows]);
}

/// A size written as one number is read as a square, where it is at most 12.
pub proof fn law_single_number_is_a_square(n: nat)
    requires
        1 <= n <= 12,
    ensures
        grid_size(text::decimal(n)) == Some((n, n)),
{
    let a = text::decimal(n);
    text::lemma_decimal_digits(n);
    text::lemma_decimal_read_back(n);
    lemma_one_run(a);
    assert(seq![a].drop_first() =~= Seq::<Seq<char>>::empty());
    assert(fitting(seq![a].drop_first()) =~= seq![]);
    assert(fitting(seq![a]) =~= seq![n]);
}

/// Whatever is typed, a size that is taken is at least 1 by 1 and at most 12 by
/// 12.
pub proof fn law_grid_sizes_are_bounded(s: Seq<char>)
    ensures
        grid_size(s) matches Some((c, r)) ==> 1 <= c <= 12 && 1 <= r <= 12,
{
}

/// A cell kept within a pane of `cols` x `rows` cells.
pub fn cell_within(col: usize, row: usize, cols: usize, rows: usize) -> (r: (usize, usize))
    requires
        cols > 0,
        rows > 0,
    ensures
        r.0 == (if col < cols {
            col as int
        } else {
            cols - 1
        }),
        r.1 == (if row < rows {
            row as int
        } else {
            rows - 1
        }),
{
    (
        if col < cols {
            col
        } else {
            cols - 1
        },
        if row < rows {
            row
        } else {
            rows - 1
        },
    )
}

/// Whether there is no digit in a text.
pub open spec fn no_digits(s: Seq<char>) -> bool {
    forall|i: int| 0 <= i < s.len() ==> !text::is_digit(#[trigger] s[i])
}

proof fn lemma_words_are_skipped(words: Seq<char>, s: Seq<char>)
    requires
        no_digits(words),
    ensures
        digit_runs(words + s) == digit_runs(s),
    decreases words.len(),
{
    if words.len() == 0 {
        assert(words + s =~= s);
    } else {
        let w = words.drop_first();
        assert forall|i: int| 0 <= i < w.len() implies !text::is_digit(#[trigger] w[i]) by {
            assert(w[i] == words[i + 1]);
        }
        lemma_words_are_skipped(w, s);
        assert((words + s).drop_first() =~= w + s);
        assert((words + s)[0] == words[0]);
    }
}

proof fn lemma_run_then_rest(run: Seq<char>, rest: Seq<char>)
    requires
        run.len() > 0,
        forall|i: int| 0 <= i < run.len() ==> text::is_digit(#[trigger] run[i]),
        rest.len() > 0 ==> !text::is_digit(rest[0]),
    ensures
        digit_runs(run + rest) == seq![run] + digit_runs(rest),
{
    let s = run + rest;
    assert forall|j: int| 0 <= j < run.len() implies text::is_digit(s[j]) by {
        assert(s[j] == run[j]);
    }
    lemma_run_len_is(s, run.len() as int);
    assert(s.take(run.len() as int) =~= run);
    assert(s.skip(run.len() as int) =~= rest);
    assert(s[0] == run[0]);
}

proof fn lemma_fitting_front(n: nat, runs: Seq<Seq<char>>)
    ensures
        n <= usize::MAX ==> fitting(seq![text::decimal(n)] + runs) == seq![n] + fitting(runs),
        n > usize::MAX ==> fitting(seq![text::decimal(n)] + runs) == fitting(runs),
{
    text::lemma_decimal_read_back(n);
    let all = seq![text::decimal(n)] + runs;
    assert(all.drop_first() =~= runs);
    assert(all[0] == text::decimal(n));
}

/// The numbers in a text are all the numbers that are written in it, in order,
/// whatever stands around them.
pub proof fn law_numbers_are_found(words: Seq<char>, n: nat, rest: Seq<char>)
    requires
        no_digits(words),
        rest.len() > 0 ==> !text::is_digit(rest[0]),
        n <= usize::MAX,
    ensures
        numbers(words + text::decimal(n) + rest) == seq![n] + numbers(rest),
        numbers(words) == Seq::<nat>::empty(),
{
    let d = text::decimal(n);
    text::lemma_decimal_digits(n);
    lemma_words_are_skipped(words, d + rest);
    assert(words + d + rest =~= words + (d + rest));
    lemma_run_then_rest(d, rest);
    lemma_fitting_front(n, digit_runs(rest));
    lemma_words_are_skipped(words, Seq::<char>::empty());
    assert(words + Seq::<char>::empty() =~= words);
}

/// Two numbers from 1 to 12 are a size, however they are written; and one that is
/// greater, or a third, makes it none.
pub proof fn law_grid_sizes_are_two_numbers(
    a: Seq<char>,
    m: nat,
    b: Seq<char>,
    n: nat,
    c: Seq<char>,
    k: nat,
    d: Seq<char>,
)
    requires
        no_digits(a),
        no_digits(b),
        no_digits(c),
        no_digits(d),
        b.len() > 0,
        c.len() > 0,
        m <= usize::MAX,
        n <= usize::MAX,
        k <= usize::MAX,
    ensures
        grid_size(a + text::decimal(m) + (b + text::decimal(n) + d)) == (if 1 <= m <= 12 && 1 <= n
            <= 12 {
            Some((m, n))
        } else {
            None
        }),
        grid_size(a + text::decimal(m) + b) == (if 1 <= m <= 12 {
            Some((m, m))
        } else {
            None
        }),
        grid_size(a + text::decimal(m) + (b + text::decimal(n) + (c + text::decimal(k) + d))) is None,
        grid_size(a) is None,
{
    assert(!text::is_digit(b[0]) && !text::is_digit(c[0]));
    let two = b + text::decimal(n) + d;
    let three = c + text::decimal(k) + d;
    law_numbers_are_found(d, 0, seq![]);
    law_numbers_are_found(b, 0, seq![]);
    law_numbers_are_found(a, m, two);
    law_numbers_are_found(b, n, d);
    law_numbers_are_found(a, m, b);
    law_numbers_are_found(c, k, d);
    law_numbers_are_found(b, n, three);
    law_numbers_are_found(a, m, b + text::decimal(n) + three);
    if d.len() > 0 {
        assert(!text::is_digit(d[0]));
    }
    assert(numbers(two) =~= seq![n]);
    assert(numbers(a + text::decimal(m) + two) =~= seq![m, n]);
    assert(numbers(a + text::decimal(m) + b) =~= seq![m]);
    assert(numbers(a + text::decimal(m) + (b + text::decimal(n) + three)) =~= seq![m, n, k]);
}

} // verus!
