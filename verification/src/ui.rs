//! What the keyboard does: the key bindings of the window, the chat input and
//! the grid prompt, and the panes that they act on.

use vstd::prelude::*;

use crate::ai_ui::ChatState;
use crate::grid;
use crate::grid::{parse_grid, GridLayout};
use crate::keys;
use crate::keys::{key_to_bytes, Key, Modifiers, NamedKey};
use crate::text;
use crate::text::{from_chars, is_control, same_text, to_chars};

verus! {

/// The most panes that a column or a row is added up to.
pub const MAX_GROWN_PANES: usize = 64;

/// The most panes that any way to choose a grid leads to.
pub const MAX_PANES: usize = 144;

/// How the pane at one place of a new grid comes about.
#[derive(PartialEq, Eq, Structural, Clone, Copy, Debug)]
pub enum PaneStep {
    /// It exists and is fitted to its new size.
    Resize,
    /// It is new.
    Spawn,
}

/// The panes of the window, by their number: panes have the indices from 0 up
/// to `panes`, row by row.
pub struct PaneGrid {
    pub layout: GridLayout,
    pub panes: usize,
    pub active: usize,
}

impl PaneGrid {
    /// Whether there are no more panes than places, and the active pane exists
    /// unless there is none.
    pub open spec fn wf(self) -> bool {
        &&& self.layout.wf()
        &&& self.panes <= self.layout.cols * self.layout.rows
        &&& if self.panes == 0 {
            self.active == 0
        } else {
            self.active < self.panes
        }
    }

    /// Whether the grid is one of those that can be chosen.
    pub open spec fn bounded(self) -> bool {
        self.layout.cols * self.layout.rows <= MAX_PANES
    }

    /// A grid of one place, without a pane yet.
    pub fn new() -> (r: Self)
        ensures
            r.wf(),
            r.bounded(),
            r.layout.cols == 1,
            r.layout.rows == 1,
            r.panes == 0,
            r.active == 0,
    {
        PaneGrid { layout: GridLayout::new(1, 1), panes: 0, active: 0 }
    }

    /// Takes up the layout of `cols` x `rows`: panes keep their numbers, and the
    /// last ones are closed as far as there is no place for them. Returns how
    /// many places there are now.
    pub fn begin_rebuild(&mut self, cols: usize, rows: usize) -> (count: usize)
        requires
            at_least_one(cols) * at_least_one(rows) <= usize::MAX,
        ensures
            count == at_least_one(cols) * at_least_one(rows),
            final(self).layout.cols == at_least_one(cols),
            final(self).layout.rows == at_least_one(rows),
            final(self).layout.wf(),
            final(self).panes == (if old(self).panes < count {
                old(self).panes
            } else {
                count
            }),
            final(self).active == old(self).active,
    {
        self.layout = GridLayout::new(cols, rows);
        let count: usize = self.layout.count();
        if self.panes > count {
            self.panes = count;
        }
        count
    }

    /// What is to be done for place `i` of the new grid.
    pub fn step(&self, i: usize) -> (r: PaneStep)
        ensures
            r == (if i < self.panes {
                PaneStep::Resize
            } else {
                PaneStep::Spawn
            }),
    {
        if i < self.panes {
            PaneStep::Resize
        } else {
            PaneStep::Spawn
        }
    }

    /// Counts a pane that was spawned.
    pub fn spawned(&mut self)
        requires
            old(self).panes < old(self).layout.cols * old(self).layout.rows,
            old(self).layout.wf(),
        ensures
            final(self).panes == old(self).panes + 1,
            final(self).panes <= final(self).layout.cols * final(self).layout.rows,
            final(self).layout == old(self).layout,
            final(self).active == old(self).active,
    {
        self.panes = self.panes + 1;
    }

    /// Makes the last pane the active one where the active one was closed.
    pub fn finish_rebuild(&mut self)
        requires
            old(self).layout.wf(),
            old(self).panes <= old(self).layout.cols * old(self).layout.rows,
        ensures
            final(self).wf(),
            final(self).layout == old(self).layout,
            final(self).panes == old(self).panes,
            final(self).active == (if old(self).active < old(self).panes {
                old(self).active as int
            } else if old(self).panes > 0 {
                old(self).panes - 1
            } else {
                0
            }),
    {
        if self.active >= self.panes {
            self.active = self.panes.saturating_sub(1);
        }
    }

    /// The grid with one more column, unless that is too many panes.
    pub fn add_column(&self) -> (r: Option<(usize, usize)>)
        requires
            self.layout.wf(),
            self.bounded(),
        ensures
            r == (if (self.layout.cols + 1) * self.layout.rows <= MAX_GROWN_PANES {
                Some(((self.layout.cols + 1) as usize, self.layout.rows))
            } else {
                None
            }),
    {
        let c: usize = self.layout.cols;
        let r: usize = self.layout.rows;
        proof {
            lemma_bounded(c as int, r as int);
        }
        if (c + 1) * r <= MAX_GROWN_PANES {
            Some((c + 1, r))
        } else {
            None
        }
    }

    /// The grid with one more row, unless that is too many panes.
    pub fn add_row(&self) -> (r: Option<(usize, usize)>)
        requires
            self.layout.wf(),
            self.bounded(),
        ensures
            r == (if self.layout.cols * (self.layout.rows + 1) <= MAX_GROWN_PANES {
                Some((self.layout.cols, (self.layout.rows + 1) as usize))
            } else {
                None
            }),
    {
        let c: usize = self.layout.cols;
        let r: usize = self.layout.rows;
        proof {
            lemma_bounded(c as int, r as int);
        }
        if c * (r + 1) <= MAX_GROWN_PANES {
            Some((c, r + 1))
        } else {
            None
        }
    }

    /// The grid without its last column, unless that is its only one. Before it
    /// is rebuilt to that size, [`Self::close_last_column`] takes the panes of
    /// [`Self::last_column`] out.
    pub fn remove_column(&self) -> (r: Option<(usize, usize)>)
        ensures
            r == (if self.layout.cols > 1 {
                Some(((self.layout.cols - 1) as usize, self.layout.rows))
            } else {
                None
            }),
    {
        if self.layout.cols > 1 {
            Some((self.layout.cols - 1, self.layout.rows))
        } else {
            None
        }
    }

    /// The panes in the last column, in order: those that are closed with it.
    pub fn last_column(&self) -> (r: Vec<usize>)
        requires
            self.wf(),
        ensures
            forall|i: int, j: int| 0 <= i < j < r@.len() ==> r@[i] < r@[j],
            forall|p: usize|
                r@.contains(p) <==> p < self.panes && in_last_column(
                    p as int,
                    self.layout.cols as int,
                ),
    {
        let cols: usize = self.layout.cols;
        let mut r: Vec<usize> = Vec::new();
        let mut p: usize = 0;
        while p < self.panes
            invariant
                p <= self.panes,
                cols == self.layout.cols,
                cols >= 1,
                forall|i: int| 0 <= i < r@.len() ==> #[trigger] r@[i] < p,
                forall|i: int, j: int| 0 <= i < j < r@.len() ==> r@[i] < r@[j],
                forall|q: usize|
                    r@.contains(q) <==> q < p && in_last_column(q as int, cols as int),
            decreases self.panes - p,
        {
            if p % cols == cols - 1 {
                let ghost before = r@;
                r.push(p);
                assert(r@[before.len() as int] == p);
                assert forall|q: usize|
                    r@.contains(q) <==> q < p + 1 && in_last_column(q as int, cols as int) by {
                    if before.contains(q) {
                        let i = before.index_of(q);
                        assert(r@[i] == q);
                    }
                    if r@.contains(q) {
                        let i = r@.index_of(q);
                        if i < before.len() {
                            assert(before[i] == q);
                        }
                    }
                }
            }
            p = p + 1;
        }
        r
    }

    /// Closes the last column: its panes are gone, and the others close up, row
    /// by row. The active pane stays active; where it was closed, the one that
    /// followed it is active, or else the last.
    pub fn close_last_column(&mut self)
        requires
            old(self).wf(),
            old(self).layout.cols > 1,
        ensures
            final(self).wf(),
            old(self).bounded() ==> final(self).bounded(),
            final(self).layout.cols == old(self).layout.cols - 1,
            final(self).layout.rows == old(self).layout.rows,
            final(self).panes == kept_before(old(self).panes as int, old(self).layout.cols as int),
            final(self).active == ({
                let place = kept_before(old(self).active as int, old(self).layout.cols as int);
                if place < final(self).panes || final(self).panes == 0 {
                    place
                } else {
                    final(self).panes - 1
                }
            }),
    {
        let cols: usize = self.layout.cols;
        proof {
            let c = cols as int;
            lemma_kept_fit(self.panes as int, c, self.layout.rows as int);
            lemma_kept_fit(self.active as int, c, self.layout.rows as int);
            assert((c - 1) * self.layout.rows <= c * self.layout.rows) by (nonlinear_arith)
                requires
                    self.layout.rows >= 0,
            ;
        }
        self.panes = self.panes - self.panes / cols;
        self.active = self.active - self.active / cols;
        if self.active >= self.panes {
            self.active = self.panes.saturating_sub(1);
        }
        self.layout.cols = cols - 1;
    }

    /// The grid without its last row, unless that is its only one. The panes in
    /// that row are the last ones, so rebuilding closes them.
    pub fn remove_row(&self) -> (r: Option<(usize, usize)>)
        ensures
            r == (if self.layout.rows > 1 {
                Some((self.layout.cols, (self.layout.rows - 1) as usize))
            } else {
                None
            }),
    {
        if self.layout.rows > 1 {
            Some((self.layout.cols, self.layout.rows - 1))
        } else {
            None
        }
    }

    /// Makes the pane after the active one active, and after the last one the
    /// first. Returns whether there is a pane.
    pub fn cycle(&mut self) -> (r: bool)
        requires
            old(self).wf(),
        ensures
            final(self).wf(),
            final(self).layout == old(self).layout,
            final(self).panes == old(self).panes,
            r == (old(self).panes > 0),
            final(self).active == (if old(self).panes == 0 {
                0
            } else {
                (old(self).active + 1) % (old(self).panes as int)
            }),
    {
        if self.panes == 0 {
            return false;
        }
        let next: usize = self.active + 1;
        self.active = if next == self.panes {
            0
        } else {
            next
        };
        proof {
            let a = old(self).active as int;
            let n = old(self).panes as int;
            if a + 1 == n {
                assert((a + 1) % n == 0) by (nonlinear_arith)
                    requires
                        a + 1 == n,
                        n > 0,
                ;
            } else {
                assert((a + 1) % n == a + 1) by (nonlinear_arith)
                    requires
                        0 <= a + 1 < n,
                ;
            }
        }
        true
    }
}

/// Whether pane `p` of a grid with `cols` columns is in the last one.
pub open spec fn in_last_column(p: int, cols: int) -> bool {
    p % cols == cols - 1
}

/// How many of the panes before `p` are not in the last of `cols` columns: the
/// place of pane `p` once that column is closed.
pub open spec fn kept_before(p: int, cols: int) -> int {
    p - p / cols
}

proof fn lemma_kept_fit(p: int, cols: int, rows: int)
    requires
        0 <= p <= cols * rows,
        cols > 1,
        rows >= 1,
    ensures
        0 <= p / cols <= p,
        p > 0 ==> p / cols < p,
        kept_before(p, cols) <= (cols - 1) * rows,
{
    let q = p / cols;
    let m = p % cols;
    assert(p == q * cols + m && 0 <= m < cols && 0 <= q) by (nonlinear_arith)
        requires
            cols > 1,
            p >= 0,
            q == p / cols,
            m == p % cols,
    ;
    assert(q <= rows) by (nonlinear_arith)
        requires
            p == q * cols + m,
            0 <= m,
            p <= cols * rows,
            cols > 1,
    ;
    assert(p - q == q * (cols - 1) + m) by (nonlinear_arith)
        requires
            p == q * cols + m,
    ;
    assert(q <= q * (cols - 1)) by (nonlinear_arith)
        requires
            0 <= q,
            cols > 1,
    ;
    if q == rows {
        assert(m == 0) by (nonlinear_arith)
            requires
                p == q * cols + m,
                q == rows,
                0 <= m,
                p <= cols * rows,
        ;
        assert(q * (cols - 1) == (cols - 1) * rows) by (nonlinear_arith)
            requires
                q == rows,
        ;
    } else {
        assert((q + 1) * (cols - 1) <= (cols - 1) * rows) by (nonlinear_arith)
            requires
                q + 1 <= rows,
                cols > 1,
        ;
        assert((q + 1) * (cols - 1) == q * (cols - 1) + (cols - 1)) by (nonlinear_arith);
    }
}

/// Where the last column is closed, exactly its panes are: the places of the
/// others count those that stay, and each keeps its column and its row.
pub proof fn law_a_closed_column_leaves_the_rest(p: int, cols: int)
    requires
        0 <= p,
        cols > 1,
    ensures
        kept_before(0, cols) == 0,
        kept_before(p + 1, cols) == kept_before(p, cols) + (if in_last_column(p, cols) {
            0int
        } else {
            1
        }),
        !in_last_column(p, cols) ==> kept_before(p, cols) % (cols - 1) == p % cols && kept_before(
            p,
            cols,
        ) / (cols - 1) == p / cols,
{
    let q = p / cols;
    let m = p % cols;
    vstd::arithmetic::div_mod::lemma_fundamental_div_mod(p, cols);
    assert(0int / cols == 0) by (nonlinear_arith)
        requires
            cols > 1,
    ;
    assert(0 <= m < cols) by (nonlinear_arith)
        requires
            m == p % cols,
            cols > 1,
    ;
    if m == cols - 1 {
        assert(p + 1 == (q + 1) * cols + 0) by (nonlinear_arith)
            requires
                p == cols * q + m,
                m == cols - 1,
        ;
        vstd::arithmetic::div_mod::lemma_fundamental_div_mod_converse(p + 1, cols, q + 1, 0);
    } else {
        assert(p + 1 == q * cols + (m + 1)) by (nonlinear_arith)
            requires
                p == cols * q + m,
        ;
        vstd::arithmetic::div_mod::lemma_fundamental_div_mod_converse(p + 1, cols, q, m + 1);
        assert(p - q == q * (cols - 1) + m) by (nonlinear_arith)
            requires
                p == cols * q + m,
        ;
        vstd::arithmetic::div_mod::lemma_fundamental_div_mod_converse(p - q, cols - 1, q, m);
    }
}

/// The number of pane `p` of `panes` once the last of `cols` columns is closed:
/// its place, and for the panes that are closed the numbers behind the others.
pub open spec fn number_after(p: int, panes: int, cols: int) -> int {
    if p >= panes {
        p
    } else if in_last_column(p, cols) {
        kept_before(panes, cols) + p / cols
    } else {
        kept_before(p, cols)
    }
}

proof fn lemma_kept_grows(p: int, q: int, cols: int)
    requires
        0 <= p <= q,
        cols > 1,
    ensures
        kept_before(p, cols) <= kept_before(q, cols),
        p / cols <= q / cols,
    decreases q - p,
{
    if p < q {
        law_a_closed_column_leaves_the_rest(q - 1, cols);
        lemma_kept_grows(p, q - 1, cols);
    }
}

/// The new number of a pane, and that the panes that stay come first.
pub proof fn lemma_number_after(p: int, panes: int, cols: int)
    requires
        0 <= p,
        0 <= panes,
        cols > 1,
    ensures
        0 <= number_after(p, panes, cols),
        number_after(p, panes, cols) < panes <==> p < panes,
        p < panes ==> (number_after(p, panes, cols) < kept_before(panes, cols) <==> !in_last_column(
            p,
            cols,
        )),
        p >= panes ==> number_after(p, panes, cols) == p,
{
    if p < panes {
        law_a_closed_column_leaves_the_rest(p, cols);
        lemma_kept_grows(p + 1, panes, cols);
        lemma_kept_grows(0, p, cols);
        assert(p / cols >= 0) by (nonlinear_arith)
            requires
                p >= 0,
                cols > 1,
        ;
    }
}

/// Where a column is closed, no two panes come to have one number.
pub proof fn law_numbers_stay_apart(p: int, q: int, panes: int, cols: int)
    requires
        0 <= p,
        0 <= q,
        0 <= panes,
        cols > 1,
        number_after(p, panes, cols) == number_after(q, panes, cols),
    ensures
        p == q,
{
    lemma_number_after(p, panes, cols);
    lemma_number_after(q, panes, cols);
    if p < panes {
        if in_last_column(p, cols) {
            vstd::arithmetic::div_mod::lemma_fundamental_div_mod(p, cols);
            vstd::arithmetic::div_mod::lemma_fundamental_div_mod(q, cols);
        } else {
            law_a_closed_column_leaves_the_rest(p, cols);
            law_a_closed_column_leaves_the_rest(q, cols);
            if p < q {
                lemma_kept_grows(p + 1, q, cols);
            } else if q < p {
                lemma_kept_grows(q + 1, p, cols);
            }
        }
    }
}

/// The number of a pane once the last column is closed.
pub fn number_after_closing(p: usize, panes: usize, cols: usize) -> (r: usize)
    requires
        cols > 1,
    ensures
        r == number_after(p as int, panes as int, cols as int),
{
    if p >= panes {
        return p;
    }
    proof {
        lemma_number_after(p as int, panes as int, cols as int);
        lemma_kept_grows(0, panes as int, cols as int);
        lemma_kept_grows(0, p as int, cols as int);
        lemma_kept_grows(p as int, panes as int, cols as int);
    }
    if p % cols == cols - 1 {
        panes - panes / cols + p / cols
    } else {
        p - p / cols
    }
}

/// Where the last row is removed, exactly its panes are closed: of `panes`
/// panes, those that still fit without it are those in the rows before.
pub proof fn law_a_removed_row_leaves_the_rest(p: int, panes: int, cols: int, rows: int)
    requires
        0 <= p < panes <= cols * rows,
        cols >= 1,
        rows > 1,
    ensures
        p < (if panes < cols * (rows - 1) {
            panes
        } else {
            cols * (rows - 1)
        }) <==> p / cols != rows - 1,
{
    let q = p / cols;
    vstd::arithmetic::div_mod::lemma_fundamental_div_mod(p, cols);
    assert(0 <= p % cols < cols) by (nonlinear_arith)
        requires
            cols >= 1,
    ;
    assert(q <= rows - 1) by (nonlinear_arith)
        requires
            p == cols * q + p % cols,
            0 <= p % cols,
            p < cols * rows,
            cols >= 1,
    ;
    if q == rows - 1 {
        assert(cols * q == cols * (rows - 1));
    } else {
        assert(cols * q + cols <= cols * (rows - 1)) by (nonlinear_arith)
            requires
                q + 1 <= rows - 1,
                cols >= 1,
        ;
    }
}

/// The number by which an agent in a new pane at `place` will name it, where the
/// other panes are named by the numbers `taken`: that of its place, or else the
/// first that is free.
pub fn free_tag(taken: &Vec<usize>, place: usize) -> (r: usize)
    ensures
        !taken@.contains(r),
        !taken@.contains(place) ==> r == place,
        taken@.contains(place) ==> forall|q: usize| q < r ==> taken@.contains(q),
{
    if !is_taken(taken, place) {
        return place;
    }
    let mut r: usize = 0;
    while is_taken(taken, r)
        invariant
            r <= taken.len(),
            forall|q: usize| q < r ==> taken@.contains(q),
        decreases taken.len() - r,
    {
        proof {
            lemma_not_all_taken(taken@, r as int);
        }
        r = r + 1;
    }
    r
}

/// The place of the pane that agents name by `tag`, where `tags` are those of the
/// panes, in order. A pane that is no longer there has a number behind them.
pub fn place_of(tags: &Vec<usize>, tag: usize) -> (r: usize)
    ensures
        tags@.contains(tag) ==> r < tags@.len() && tags@[r as int] == tag && forall|j: int|
            0 <= j < r ==> tags@[j] != tag,
        !tags@.contains(tag) ==> r == (if tag < tags@.len() {
            tags@.len() as usize
        } else {
            tag
        }),
{
    let n: usize = tags.len();
    let mut i: usize = 0;
    while i < n
        invariant
            i <= n,
            n == tags.len(),
            forall|j: int| 0 <= j < i ==> tags@[j] != tag,
        decreases n - i,
    {
        if tags[i] == tag {
            assert(tags@[i as int] == tag);
            return i;
        }
        i = i + 1;
    }
    if tag < n {
        n
    } else {
        tag
    }
}

fn is_taken(taken: &Vec<usize>, tag: usize) -> (r: bool)
    ensures
        r == taken@.contains(tag),
{
    let mut i: usize = 0;
    while i < taken.len()
        invariant
            i <= taken.len(),
            forall|j: int| 0 <= j < i ==> taken@[j] != tag,
        decreases taken.len() - i,
    {
        if taken[i] == tag {
            assert(taken@[i as int] == tag);
            return true;
        }
        i = i + 1;
    }
    false
}

/// A list that holds all numbers up to `n` is longer than `n`.
proof fn lemma_not_all_taken(taken: Seq<usize>, n: int)
    requires
        0 <= n <= usize::MAX,
        forall|q: usize| q <= n ==> taken.contains(q),
    ensures
        n < taken.len(),
{
    let all = taken.map_values(|x: usize| x as int);
    let numbers = vstd::set_lib::set_int_range(0, n + 1);
    vstd::set_lib::lemma_int_range(0, n + 1);
    all.lemma_cardinality_of_set();
    assert forall|k: int| numbers.contains(k) implies all.to_set().contains(k) by {
        assert(taken.contains(k as usize));
        let i = taken.index_of(k as usize);
        assert(all[i] == k);
    }
    vstd::set_lib::lemma_len_subset(numbers, all.to_set());
}

/// `n`, but 1 for 0.
pub open spec fn at_least_one(n: usize) -> int {
    if n > 1 {
        n as int
    } else {
        1
    }
}

proof fn lemma_bounded(c: int, r: int)
    requires
        1 <= c,
        1 <= r,
        c * r <= MAX_PANES,
    ensures
        c <= MAX_PANES,
        r <= MAX_PANES,
        0 <= (c + 1) * r <= 2 * MAX_PANES,
        0 <= c * (r + 1) <= 2 * MAX_PANES,
{
    assert(c <= c * r) by (nonlinear_arith)
        requires
            1 <= c,
            1 <= r,
    ;
    assert(r <= c * r) by (nonlinear_arith)
        requires
            1 <= c,
            1 <= r,
    ;
    assert((c + 1) * r == c * r + r) by (nonlinear_arith);
    assert(c * (r + 1) == c * r + c) by (nonlinear_arith);
}

/// How many panes there are once the places of a grid from `i` on have been gone
/// through, where every shell starts.
pub open spec fn filled(panes: nat, i: nat, count: nat) -> nat
    decreases count - i,
{
    if i >= count {
        panes
    } else if i < panes {
        filled(panes, i + 1, count)
    } else {
        filled(panes + 1, i + 1, count)
    }
}

/// A rebuilt grid has a pane in every place, where every shell starts.
pub proof fn law_rebuilding_fills_the_grid(panes: nat, i: nat, count: nat)
    requires
        i <= panes <= count,
    ensures
        filled(panes, i, count) == count,
    decreases count - i,
{
    if i < count {
        if i < panes {
            law_rebuilding_fills_the_grid(panes, i + 1, count);
        } else {
            law_rebuilding_fills_the_grid(panes + 1, i + 1, count);
        }
    }
}

/// The prompt for a grid size: what was typed since it was opened.
pub struct GridCommand {
    pub active: bool,
    pub input: String,
}

/// What a key press asks of the application.
pub enum Effect {
    Nothing,
    /// The window is to be drawn again.
    Redraw,
    /// The answer that is streaming is to be stopped.
    CancelTurn,
    /// The grid is to be rebuilt.
    Rebuild { cols: usize, rows: usize },
    /// The panes in the last column are to be closed, and the grid is to be
    /// rebuilt without it.
    CloseColumn { cols: usize, rows: usize },
    /// The message is to be sent to the assistant.
    Send(String),
    /// The clipboard is to be inserted into the chat input.
    PasteIntoChat,
    /// The selection of the active pane is to be copied.
    CopySelection,
    /// The clipboard is to be pasted into the active pane.
    PasteIntoPane,
    /// The bytes are for the shell of the active pane.
    WriteToPane(Vec<u8>),
    /// The user typed the bytes into the active pane: its selection goes, and
    /// if there are any bytes it shows its end and gets them.
    TypeInPane(Vec<u8>),
}

/// An [`Effect`] with the texts and bytes that it holds.
pub enum EffectView {
    Nothing,
    Redraw,
    CancelTurn,
    Rebuild { cols: nat, rows: nat },
    CloseColumn { cols: nat, rows: nat },
    Send(Seq<char>),
    PasteIntoChat,
    CopySelection,
    PasteIntoPane,
    WriteToPane(Seq<u8>),
    TypeInPane(Seq<u8>),
}

impl View for Effect {
    type V = EffectView;

    open spec fn view(&self) -> EffectView {
        match self {
            Effect::Nothing => EffectView::Nothing,
            Effect::Redraw => EffectView::Redraw,
            Effect::CancelTurn => EffectView::CancelTurn,
            Effect::Rebuild { cols, rows } => EffectView::Rebuild {
                cols: *cols as nat,
                rows: *rows as nat,
            },
            Effect::CloseColumn { cols, rows } => EffectView::CloseColumn {
                cols: *cols as nat,
                rows: *rows as nat,
            },
            Effect::Send(s) => EffectView::Send(s@),
            Effect::PasteIntoChat => EffectView::PasteIntoChat,
            Effect::CopySelection => EffectView::CopySelection,
            Effect::PasteIntoPane => EffectView::PasteIntoPane,
            Effect::WriteToPane(b) => EffectView::WriteToPane(b@),
            Effect::TypeInPane(b) => EffectView::TypeInPane(b@),
        }
    }
}

/// The state that key presses act on.
pub struct Ui {
    pub chat: ChatState,
    pub grid_cmd: GridCommand,
    pub grid: PaneGrid,
}

/// Whether `key` is the character key for `s`.
pub open spec fn is_char_key(key: Key, s: Seq<char>) -> bool {
    key matches Key::Character(c) && c@ == s
}

/// Whether the text holds a control character.
pub open spec fn has_control(t: Seq<char>) -> bool {
    exists|i: int| 0 <= i < t.len() && text::is_control_char(#[trigger] t[i])
}

/// What a key does in the chat input, where it is not one of the editing keys:
/// with Cmd, a character key is a shortcut or nothing; else typed text is
/// inserted, unless it holds a control character.
pub open spec fn chat_text_key(
    old: ChatState,
    new: ChatState,
    mods: Modifiers,
    key: Key,
    text: Option<Seq<char>>,
    e: EffectView,
) -> bool {
    if mods.cmd && key is Character {
        if is_char_key(key, "v"@) {
            new == old && e == EffectView::PasteIntoChat
        } else if is_char_key(key, "a"@) {
            new.did_move_home(old) && e == EffectView::Redraw
        } else if is_char_key(key, "e"@) {
            new.did_move_end(old) && e == EffectView::Redraw
        } else {
            new == old && e == EffectView::Nothing
        }
    } else if text is Some && !has_control(text->0) {
        new.did_insert(old, text->0) && e == EffectView::Redraw
    } else {
        new == old && e == EffectView::Nothing
    }
}

/// What a key does while the chat input has the focus.
pub open spec fn chat_key(
    old: ChatState,
    new: ChatState,
    mods: Modifiers,
    key: Key,
    text: Option<Seq<char>>,
    e: EffectView,
) -> bool {
    match key {
        Key::Named(NamedKey::Escape) => new.did_focus(old, old.open, false)
            && e == EffectView::Redraw,
        Key::Named(NamedKey::Enter) => if mods.shift {
            new.did_insert(old, "\n"@) && e == EffectView::Redraw
        } else if old.can_send() {
            new.did_send(old) && e == EffectView::Send(text::trim(old.input@))
        } else {
            new == old && e == EffectView::Redraw
        },
        Key::Named(NamedKey::Backspace) => e == EffectView::Redraw && if mods.cmd {
            new.did_delete_line(old)
        } else if mods.alt {
            new.did_delete_word(old)
        } else {
            new.did_backspace(old)
        },
        Key::Named(NamedKey::ArrowLeft) => e == EffectView::Redraw && if mods.cmd {
            new.did_move_home(old)
        } else if mods.alt {
            new.did_move_word_left(old)
        } else {
            new.did_move_left(old)
        },
        Key::Named(NamedKey::ArrowRight) => e == EffectView::Redraw && if mods.cmd {
            new.did_move_end(old)
        } else {
            new.did_move_right(old)
        },
        Key::Named(NamedKey::Home) => new.did_move_home(old) && e == EffectView::Redraw,
        Key::Named(NamedKey::End) => new.did_move_end(old) && e == EffectView::Redraw,
        Key::Named(NamedKey::Space) => new.did_insert(old, " "@) && e == EffectView::Redraw,
        _ => chat_text_key(old, new, mods, key, text, e),
    }
}

/// What a key does while the grid prompt is open: Enter takes the size, Escape
/// gives it up, Backspace takes back a character, and typed text is added.
pub open spec fn grid_key(
    old: GridCommand,
    new: GridCommand,
    key: Key,
    text: Option<Seq<char>>,
    e: EffectView,
) -> bool {
    match key {
        Key::Named(NamedKey::Enter) => {
            &&& !new.active
            &&& new.input@.len() == 0
            &&& e == match grid::grid_size(old.input@) {
                Some(g) => EffectView::Rebuild { cols: g.0, rows: g.1 },
                None => EffectView::Nothing,
            }
        },
        Key::Named(NamedKey::Escape) => {
            &&& !new.active
            &&& new.input@.len() == 0
            &&& e == EffectView::Nothing
        },
        Key::Named(NamedKey::Backspace) => {
            &&& new.active
            &&& new.input@ == (if old.input@.len() > 0 {
                old.input@.drop_last()
            } else {
                old.input@
            })
            &&& e == EffectView::Nothing
        },
        _ => {
            &&& new.active
            &&& new.input@ == (match text {
                Some(t) => old.input@ + t,
                None => old.input@,
            })
            &&& e == EffectView::Nothing
        },
    }
}

/// The grid of a preset key: `n` x `n` for the digit `n`, and 1 x 1 for 0.
pub open spec fn preset(key: Key) -> Option<nat> {
    match key {
        Key::Character(s) => if s@.len() == 1 && text::is_digit(s@[0]) {
            Some(if s@[0] == '0' {
                1
            } else {
                (s@[0] as int - '0' as int) as nat
            })
        } else {
            None
        },
        _ => None,
    }
}

/// What the new grid, if there is one, asks for.
pub open spec fn rebuild_if(g: Option<(nat, nat)>) -> EffectView {
    match g {
        Some(g) => EffectView::Rebuild { cols: g.0, rows: g.1 },
        None => EffectView::Nothing,
    }
}

/// What a shortcut with Cmd does that leaves the state as it is; `None` where
/// the key is no such shortcut.
pub open spec fn cmd_effect(layout: GridLayout, shift: bool, key: Key) -> Option<EffectView> {
    let c = layout.cols as nat;
    let r = layout.rows as nat;
    if is_char_key(key, "c"@) {
        Some(EffectView::CopySelection)
    } else if is_char_key(key, "v"@) {
        Some(EffectView::PasteIntoPane)
    } else if preset(key) is Some {
        Some(EffectView::Rebuild { cols: preset(key)->0, rows: preset(key)->0 })
    } else {
        match key {
            Key::Named(NamedKey::Backspace) => Some(EffectView::WriteToPane(seq![0x15u8])),
            Key::Named(NamedKey::ArrowRight) => if shift {
                Some(
                    rebuild_if(
                        if (c + 1) * r <= MAX_GROWN_PANES {
                            Some((c + 1, r))
                        } else {
                            None
                        },
                    ),
                )
            } else {
                Some(EffectView::WriteToPane(seq![0x05u8]))
            },
            Key::Named(NamedKey::ArrowLeft) => if shift {
                Some(
                    if c > 1 {
                        EffectView::CloseColumn { cols: (c - 1) as nat, rows: r }
                    } else {
                        EffectView::Nothing
                    },
                )
            } else {
                Some(EffectView::WriteToPane(seq![0x01u8]))
            },
            Key::Named(NamedKey::ArrowDown) => if shift {
                Some(
                    rebuild_if(
                        if c * (r + 1) <= MAX_GROWN_PANES {
                            Some((c, r + 1))
                        } else {
                            None
                        },
                    ),
                )
            } else {
                None
            },
            Key::Named(NamedKey::ArrowUp) => if shift {
                Some(
                    rebuild_if(
                        if r > 1 {
                            Some((c, (r - 1) as nat))
                        } else {
                            None
                        },
                    ),
                )
            } else {
                None
            },
            _ => None,
        }
    }
}

/// What a key does when neither the chat input nor the grid prompt takes it:
/// a shortcut with Cmd, or Ctrl+] for the next pane, or else input for the
/// shell of the active pane.
pub open spec fn window_key(
    old: Ui,
    new: Ui,
    mods: Modifiers,
    key: Key,
    text: Option<Seq<char>>,
    e: EffectView,
) -> bool {
    &&& new.chat == old.chat
    &&& if mods.cmd && is_char_key(key, "g"@) {
        &&& new.grid_cmd.active
        &&& new.grid_cmd.input@.len() == 0
        &&& new.grid == old.grid
        &&& e == EffectView::Redraw
    } else if mods.cmd && cmd_effect(old.grid.layout, mods.shift, key) is Some {
        &&& new == old
        &&& e == cmd_effect(old.grid.layout, mods.shift, key)->0
    } else if mods.ctrl && is_char_key(key, "]"@) {
        &&& new.grid_cmd == old.grid_cmd
        &&& new.grid.layout == old.grid.layout
        &&& new.grid.panes == old.grid.panes
        &&& if old.grid.panes == 0 {
            new.grid.active == old.grid.active && e == EffectView::Nothing
        } else {
            new.grid.active == (old.grid.active + 1) % (old.grid.panes as int) && e
                == EffectView::Redraw
        }
    } else {
        &&& new == old
        &&& e == EffectView::TypeInPane(keys::key_bytes(key, text, mods.ctrl, mods.alt))
    }
}

/// What a key press does.
pub open spec fn key_step(
    old: Ui,
    new: Ui,
    mods: Modifiers,
    key: Key,
    text: Option<Seq<char>>,
    e: EffectView,
) -> bool {
    if old.chat.open && old.chat.streaming && key == Key::Named(NamedKey::Escape) {
        // Escape stops an answer from anywhere while the chat is open.
        new == old && e == EffectView::CancelTurn
    } else if mods.cmd && is_char_key(key, "j"@) {
        // Cmd+J shows and hides the chat, and the panes make room for it.
        &&& new.grid_cmd == old.grid_cmd
        &&& new.grid == old.grid
        &&& if old.chat.available {
            &&& new.chat.did_focus(old.chat, !old.chat.open, !old.chat.open)
            &&& e == EffectView::Rebuild {
                cols: old.grid.layout.cols as nat,
                rows: old.grid.layout.rows as nat,
            }
        } else {
            new.chat == old.chat && e == EffectView::Nothing
        }
    } else if old.chat.open && old.chat.input_focused {
        &&& new.grid_cmd == old.grid_cmd
        &&& new.grid == old.grid
        &&& chat_key(old.chat, new.chat, mods, key, text, e)
    } else if old.grid_cmd.active {
        &&& new.chat == old.chat
        &&& new.grid == old.grid
        &&& grid_key(old.grid_cmd, new.grid_cmd, key, text, e)
    } else {
        window_key(old, new, mods, key, text, e)
    }
}

fn is_character(key: &Key, s: &str) -> (r: bool)
    ensures
        r == is_char_key(*key, s@),
{
    match key {
        Key::Character(c) => same_text(c.as_str(), s),
        _ => false,
    }
}

fn holds_control(t: &str) -> (r: bool)
    ensures
        r == has_control(t@),
{
    let v: Vec<char> = to_chars(t);
    let n: usize = v.len();
    let mut i: usize = 0;
    while i < n
        invariant
            i <= n,
            n == v.len(),
            v@ == t@,
            forall|j: int| 0 <= j < i ==> !text::is_control_char(#[trigger] t@[j]),
        decreases n - i,
    {
        if is_control(v[i]) {
            return true;
        }
        i = i + 1;
    }
    false
}

impl Ui {
    /// Whether the parts are consistent.
    pub open spec fn wf(self) -> bool {
        self.chat.wf() && self.grid.wf() && self.grid.bounded()
    }

    fn press_in_chat(&mut self, mods: Modifiers, key: &Key, text: Option<&str>) -> (e: Effect)
        requires
            old(self).chat.wf(),
        ensures
            final(self).grid_cmd == old(self).grid_cmd,
            final(self).grid == old(self).grid,
            final(self).chat.wf(),
            chat_key(old(self).chat, final(self).chat, mods, *key, keys::typed(text), e@),
    {
        match key {
            Key::Named(NamedKey::Escape) => {
                self.chat.input_focused = false;
                Effect::Redraw
            },
            Key::Named(NamedKey::Enter) => {
                if mods.shift {
                    self.chat.insert("\n");
                    return Effect::Redraw;
                }
                match self.chat.begin_send() {
                    Some(t) => Effect::Send(t),
                    None => Effect::Redraw,
                }
            },
            Key::Named(NamedKey::Backspace) => {
                if mods.cmd {
                    self.chat.delete_to_line_start();
                } else if mods.alt {
                    self.chat.delete_word();
                } else {
                    self.chat.backspace();
                }
                Effect::Redraw
            },
            Key::Named(NamedKey::ArrowLeft) => {
                if mods.cmd {
                    self.chat.move_home();
                } else if mods.alt {
                    self.chat.move_word_left();
                } else {
                    self.chat.move_left();
                }
                Effect::Redraw
            },
            Key::Named(NamedKey::ArrowRight) => {
                if mods.cmd {
                    self.chat.move_end();
                } else {
                    self.chat.move_right();
                }
                Effect::Redraw
            },
            Key::Named(NamedKey::Home) => {
                self.chat.move_home();
                Effect::Redraw
            },
            Key::Named(NamedKey::End) => {
                self.chat.move_end();
                Effect::Redraw
            },
            Key::Named(NamedKey::Space) => {
                self.chat.insert(" ");
                Effect::Redraw
            },
            _ => {
                if mods.cmd {
                    if let Key::Character(_) = key {
                        if is_character(key, "v") {
                            return Effect::PasteIntoChat;
                        }
                        if is_character(key, "a") {
                            self.chat.move_home();
                            return Effect::Redraw;
                        }
                        if is_character(key, "e") {
                            self.chat.move_end();
                            return Effect::Redraw;
                        }
                        return Effect::Nothing;
                    }
                }
                if let Some(t) = text {
                    if !holds_control(t) {
                        self.chat.insert(t);
                        return Effect::Redraw;
                    }
                }
                Effect::Nothing
            },
        }
    }

    fn press_in_prompt(&mut self, key: &Key, text: Option<&str>) -> (e: Effect)
        requires
            old(self).grid_cmd.active,
        ensures
            final(self).chat == old(self).chat,
            final(self).grid == old(self).grid,
            grid_key(old(self).grid_cmd, final(self).grid_cmd, *key, keys::typed(text), e@),
    {
        match key {
            Key::Named(NamedKey::Enter) => {
                let parsed: Option<(usize, usize)> = parse_grid(self.grid_cmd.input.as_str());
                self.grid_cmd.active = false;
                self.grid_cmd.input = String::new();
                match parsed {
                    Some((cols, rows)) => Effect::Rebuild { cols, rows },
                    None => Effect::Nothing,
                }
            },
            Key::Named(NamedKey::Escape) => {
                self.grid_cmd.active = false;
                self.grid_cmd.input = String::new();
                Effect::Nothing
            },
            Key::Named(NamedKey::Backspace) => {
                let v: Vec<char> = to_chars(self.grid_cmd.input.as_str());
                if v.len() > 0 {
                    assert(v@.subrange(0, v@.len() - 1) =~= v@.drop_last());
                    self.grid_cmd.input = from_chars(&v, 0, v.len() - 1);
                }
                Effect::Nothing
            },
            _ => {
                if let Some(t) = text {
                    self.grid_cmd.input.append(t);
                }
                Effect::Nothing
            },
        }
    }

    fn press_with_cmd(&self, shift: bool, key: &Key) -> (r: Option<Effect>)
        requires
            self.wf(),
        ensures
            match cmd_effect(self.grid.layout, shift, *key) {
                Some(e) => r matches Some(x) && x@ == e,
                None => r is None,
            },
    {
        if is_character(key, "c") {
            return Some(Effect::CopySelection);
        }
        if is_character(key, "v") {
            return Some(Effect::PasteIntoPane);
        }
        if let Some(n) = preset_of(key) {
            return Some(Effect::Rebuild { cols: n, rows: n });
        }
        proof {
            lemma_bounded(self.grid.layout.cols as int, self.grid.layout.rows as int);
        }
        match key {
            Key::Named(NamedKey::Backspace) => Some(write_one(0x15)),
            Key::Named(NamedKey::ArrowRight) => if shift {
                Some(rebuild_effect(self.grid.add_column()))
            } else {
                Some(write_one(0x05))
            },
            Key::Named(NamedKey::ArrowLeft) => if shift {
                Some(
                    match self.grid.remove_column() {
                        Some((cols, rows)) => Effect::CloseColumn { cols, rows },
                        None => Effect::Nothing,
                    },
                )
            } else {
                Some(write_one(0x01))
            },
            Key::Named(NamedKey::ArrowDown) => if shift {
                Some(rebuild_effect(self.grid.add_row()))
            } else {
                None
            },
            Key::Named(NamedKey::ArrowUp) => if shift {
                Some(rebuild_effect(self.grid.remove_row()))
            } else {
                None
            },
            _ => None,
        }
    }

    /// Handles a key press. `text` is the text that it produced.
    pub fn handle_key(&mut self, mods: Modifiers, key: &Key, text: Option<&str>) -> (e: Effect)
        requires
            old(self).wf(),
        ensures
            key_step(*old(self), *final(self), mods, *key, keys::typed(text), e@),
            final(self).wf(),
            e@ matches EffectView::Rebuild { cols, rows } ==> 1 <= cols && 1 <= rows && cols * rows
                <= MAX_PANES,
            e@ matches EffectView::CloseColumn { cols, rows } ==> 1 <= cols && cols + 1
                == final(self).grid.layout.cols && rows == final(self).grid.layout.rows,
    {
        if self.chat.open && self.chat.streaming {
            if let Key::Named(NamedKey::Escape) = key {
                return Effect::CancelTurn;
            }
        }
        if mods.cmd && is_character(key, "j") {
            if !self.chat.available {
                return Effect::Nothing;
            }
            self.chat.open = !self.chat.open;
            self.chat.input_focused = self.chat.open;
            return Effect::Rebuild { cols: self.grid.layout.cols, rows: self.grid.layout.rows };
        }
        if self.chat.open && self.chat.input_focused {
            return self.press_in_chat(mods, key, text);
        }
        if self.grid_cmd.active {
            proof {
                lemma_prompt_grid(self.grid_cmd.input@);
            }
            return self.press_in_prompt(key, text);
        }
        if mods.cmd {
            if is_character(key, "g") {
                self.grid_cmd.active = true;
                self.grid_cmd.input = String::new();
                return Effect::Redraw;
            }
            if let Some(e) = self.press_with_cmd(mods.shift, key) {
                proof {
                    lemma_shortcut_grid(self.grid.layout, mods.shift, *key);
                }
                return e;
            }
        }
        if mods.ctrl && is_character(key, "]") {
            if self.grid.cycle() {
                return Effect::Redraw;
            }
            return Effect::Nothing;
        }
        Effect::TypeInPane(key_to_bytes(key, text, mods.ctrl, mods.alt))
    }
}

/// A shortcut leads to a grid within the bounds.
proof fn lemma_shortcut_grid(layout: GridLayout, shift: bool, key: Key)
    requires
        layout.wf(),
        layout.cols * layout.rows <= MAX_PANES,
    ensures
        cmd_effect(layout, shift, key) matches Some(EffectView::Rebuild { cols, rows }) ==> 1
            <= cols && 1 <= rows && cols * rows <= MAX_PANES,
{
    let c = layout.cols as int;
    let r = layout.rows as int;
    assert((c - 1) * r <= c * r) by (nonlinear_arith)
        requires
            r >= 1,
    ;
    assert(c * (r - 1) <= c * r) by (nonlinear_arith)
        requires
            c >= 1,
    ;
    if preset(key) is Some {
        let n = preset(key)->0;
        assert(n <= 9);
        assert(n * n <= 81) by (nonlinear_arith)
            requires
                0 <= n <= 9,
        ;
    }
}

/// The prompt leads to a grid within the bounds.
proof fn lemma_prompt_grid(s: Seq<char>)
    ensures
        grid::grid_size(s) matches Some(g) ==> 1 <= g.0 && 1 <= g.1 && g.0 * g.1 <= MAX_PANES,
{
    if let Some(g) = grid::grid_size(s) {
        assert(g.0 * g.1 <= 144) by (nonlinear_arith)
            requires
                0 <= g.0 <= 12,
                0 <= g.1 <= 12,
        ;
    }
}

fn preset_of(key: &Key) -> (r: Option<usize>)
    ensures
        match preset(*key) {
            Some(n) => r == Some(n as usize) && 1 <= n <= 9,
            None => r is None,
        },
{
    match key {
        Key::Character(s) => {
            let v: Vec<char> = to_chars(s.as_str());
            if v.len() == 1 && '0' <= v[0] && v[0] <= '9' {
                let n: usize = (v[0] as u32 - 48) as usize;
                if n == 0 {
                    Some(1)
                } else {
                    Some(n)
                }
            } else {
                None
            }
        },
        _ => None,
    }
}

fn write_one(byte: u8) -> (e: Effect)
    ensures
        e@ == EffectView::WriteToPane(seq![byte]),
{
    let b: Vec<u8> = vec![byte];
    assert(b@ =~= seq![byte]);
    Effect::WriteToPane(b)
}

fn rebuild_effect(g: Option<(usize, usize)>) -> (e: Effect)
    ensures
        e@ == rebuild_if(
            match g {
                Some(g) => Some((g.0 as nat, g.1 as nat)),
                None => None,
            },
        ),
{
    match g {
        Some((cols, rows)) => Effect::Rebuild { cols, rows },
        None => Effect::Nothing,
    }
}

impl Ui {
    /// Whether keys go to the window: neither the chat input nor the grid prompt
    /// takes them.
    pub open spec fn takes_keys(self) -> bool {
        !(self.chat.open && self.chat.input_focused) && !self.grid_cmd.active
    }
}

/// Cmd and a digit from 1 to 9 make a square grid of that size.
pub proof fn law_square_presets(
    old: Ui,
    new: Ui,
    mods: Modifiers,
    key: Key,
    d: char,
    text: Option<Seq<char>>,
    e: EffectView,
)
    requires
        old.takes_keys(),
        mods.cmd,
        '1' <= d <= '9',
        is_char_key(key, seq![d]),
        key_step(old, new, mods, key, text, e),
    ensures
        new == old,
        e == (EffectView::Rebuild {
            cols: (d as int - '0' as int) as nat,
            rows: (d as int - '0' as int) as nat,
        }),
{
    reveal_strlit("j");
    reveal_strlit("g");
    reveal_strlit("c");
    reveal_strlit("v");
    assert(seq![d][0] == d);
    assert("j"@[0] == 'j' && "g"@[0] == 'g' && "c"@[0] == 'c' && "v"@[0] == 'v');
}

/// Cmd+G opens the prompt; what is typed then is collected; and Enter after
/// NxM makes that grid.
pub proof fn law_custom_grid(
    old: Ui,
    new: Ui,
    mods: Modifiers,
    key: Key,
    text: Option<Seq<char>>,
    e: EffectView,
    cols: nat,
    rows: nat,
)
    requires
        key_step(old, new, mods, key, text, e),
        !(old.chat.open && old.chat.input_focused),
        1 <= cols <= 12,
        1 <= rows <= 12,
    ensures
        !old.grid_cmd.active && mods.cmd && is_char_key(key, "g"@) ==> new.grid_cmd.active
            && new.grid_cmd.input@ == Seq::<char>::empty(),
        old.grid_cmd.active && (key is Character) && !(mods.cmd && is_char_key(key, "j"@))
            && text is Some ==> new.grid_cmd.active && new.grid_cmd.input@ == old.grid_cmd.input@
            + text->0,
        old.grid_cmd.active && key == Key::Named(NamedKey::Enter) && old.grid_cmd.input@
            == text::decimal(cols) + "x"@ + text::decimal(rows) ==> !new.grid_cmd.active && e == (
        EffectView::Rebuild { cols, rows }),
{
    reveal_strlit("g");
    reveal_strlit("j");
    reveal_strlit("x");
    assert("j"@[0] == 'j' && "g"@[0] == 'g');
    assert("x"@ =~= seq!['x']);
    grid::law_grid_text_is_read(cols, rows, 'x');
    if new.grid_cmd.input@.len() == 0 {
        assert(new.grid_cmd.input@ =~= Seq::<char>::empty());
    }
}

/// Cmd+Shift and an arrow to the right or down add a column or a row, as long
/// as there are not too many panes, and keep all existing panes.
pub proof fn law_adding_keeps_panes(
    old: Ui,
    new: Ui,
    mods: Modifiers,
    key: Key,
    text: Option<Seq<char>>,
    e: EffectView,
)
    requires
        old.takes_keys(),
        old.wf(),
        mods.cmd,
        mods.shift,
        key == Key::Named(NamedKey::ArrowRight) || key == Key::Named(NamedKey::ArrowDown),
        key_step(old, new, mods, key, text, e),
    ensures
        new == old,
        match e {
            EffectView::Rebuild { cols, rows } => {
                &&& old.grid.panes <= cols * rows
                &&& if key == Key::Named(NamedKey::ArrowRight) {
                    cols == old.grid.layout.cols + 1 && rows == old.grid.layout.rows
                } else {
                    cols == old.grid.layout.cols && rows == old.grid.layout.rows + 1
                }
            },
            EffectView::Nothing => true,
            _ => false,
        },
{
    let c = old.grid.layout.cols as int;
    let r = old.grid.layout.rows as int;
    assert((c + 1) * r == c * r + r) by (nonlinear_arith);
    assert(c * (r + 1) == c * r + c) by (nonlinear_arith);
}

/// Cmd+Shift and an arrow to the left or up remove the last column or row, with
/// the panes in it, unless it is the only one.
pub proof fn law_removing_a_line(
    old: Ui,
    new: Ui,
    mods: Modifiers,
    key: Key,
    text: Option<Seq<char>>,
    e: EffectView,
)
    requires
        old.takes_keys(),
        mods.cmd,
        mods.shift,
        key == Key::Named(NamedKey::ArrowLeft) || key == Key::Named(NamedKey::ArrowUp),
        key_step(old, new, mods, key, text, e),
    ensures
        new == old,
        key == Key::Named(NamedKey::ArrowLeft) ==> e == (if old.grid.layout.cols > 1 {
            EffectView::CloseColumn {
                cols: (old.grid.layout.cols - 1) as nat,
                rows: old.grid.layout.rows as nat,
            }
        } else {
            EffectView::Nothing
        }),
        key == Key::Named(NamedKey::ArrowUp) ==> e == (if old.grid.layout.rows > 1 {
            EffectView::Rebuild {
                cols: old.grid.layout.cols as nat,
                rows: (old.grid.layout.rows - 1) as nat,
            }
        } else {
            EffectView::Nothing
        }),
{
}

/// The active pane after `k` presses of Ctrl+], of `n` panes.
pub open spec fn after_cycles(active: nat, n: nat, k: nat) -> nat
    decreases k,
{
    if k == 0 {
        active
    } else {
        (after_cycles(active, n, (k - 1) as nat) + 1) % n
    }
}

proof fn lemma_after_cycles(active: nat, n: nat, k: nat)
    requires
        active < n,
    ensures
        after_cycles(active, n, k) == (active + k) % n,
    decreases k,
{
    if k == 0 {
        vstd::arithmetic::div_mod::lemma_small_mod(active, n);
    } else {
        lemma_after_cycles(active, n, (k - 1) as nat);
        vstd::arithmetic::div_mod::lemma_add_mod_noop(
            (active + k - 1) as int,
            1,
            n as int,
        );
        vstd::arithmetic::div_mod::lemma_add_mod_noop_right(
            1,
            (active + k - 1) as int,
            n as int,
        );
    }
}

/// Ctrl+] goes through all panes: every pane is reached, and after as many
/// presses as there are panes the first is active again.
pub proof fn law_cycling_visits_every_pane(active: nat, n: nat, target: nat)
    requires
        active < n,
        target < n,
    ensures
        after_cycles(active, n, n) == active,
        exists|k: nat| k < n && #[trigger] after_cycles(active, n, k) == target,
{
    lemma_after_cycles(active, n, n);
    vstd::arithmetic::div_mod::lemma_mod_add_multiples_vanish(active as int, n as int);
    vstd::arithmetic::div_mod::lemma_small_mod(active, n);
    vstd::arithmetic::div_mod::lemma_small_mod(target, n);
    let k: nat = if target >= active {
        (target - active) as nat
    } else {
        (target + n - active) as nat
    };
    lemma_after_cycles(active, n, k);
    vstd::arithmetic::div_mod::lemma_mod_add_multiples_vanish(target as int, n as int);
    assert(after_cycles(active, n, k) == target);
}

/// A press of Ctrl+] is one step of that.
pub proof fn law_ctrl_bracket_cycles(
    old: Ui,
    new: Ui,
    mods: Modifiers,
    key: Key,
    text: Option<Seq<char>>,
    e: EffectView,
)
    requires
        old.takes_keys(),
        old.grid.panes > 0,
        mods.ctrl,
        !mods.cmd,
        is_char_key(key, "]"@),
        key_step(old, new, mods, key, text, e),
    ensures
        new.grid.active == after_cycles(old.grid.active as nat, old.grid.panes as nat, 1),
        new.chat == old.chat,
        e == EffectView::Redraw,
{
    assert(after_cycles(old.grid.active as nat, old.grid.panes as nat, 0) == old.grid.active);
}

/// Cmd+J twice leaves the chat as it was shown, with what was typed and said,
/// and the panes as they were.
pub proof fn law_toggling_the_chat_twice(
    a: Ui,
    b: Ui,
    c: Ui,
    mods: Modifiers,
    key: Key,
    text: Option<Seq<char>>,
    e: EffectView,
    f: EffectView,
)
    requires
        a.chat.available,
        mods.cmd,
        is_char_key(key, "j"@),
        key_step(a, b, mods, key, text, e),
        key_step(b, c, mods, key, text, f),
    ensures
        b.chat.open == !a.chat.open,
        b.chat.input_focused == b.chat.open,
        c.chat.open == a.chat.open,
        c.chat.input == a.chat.input,
        c.chat.input_cursor == a.chat.input_cursor,
        c.chat.entries == a.chat.entries,
        c.grid == a.grid,
{
}

/// Cmd+C copies what is selected and Cmd+V pastes into the pane.
pub proof fn law_copy_and_paste(
    old: Ui,
    new: Ui,
    mods: Modifiers,
    key: Key,
    text: Option<Seq<char>>,
    e: EffectView,
)
    requires
        old.takes_keys(),
        mods.cmd,
        key_step(old, new, mods, key, text, e),
    ensures
        is_char_key(key, "c"@) ==> new == old && e == EffectView::CopySelection,
        is_char_key(key, "v"@) ==> new == old && e == EffectView::PasteIntoPane,
{
    reveal_strlit("j");
    reveal_strlit("g");
    reveal_strlit("c");
    reveal_strlit("v");
    assert("j"@[0] == 'j' && "g"@[0] == 'g' && "c"@[0] == 'c' && "v"@[0] == 'v');
}

/// Option+Backspace deletes a word and Cmd+Backspace a line: in the chat input,
/// and by the shell of a pane, which gets the control code for it.
pub proof fn law_delete_shortcuts(
    old: Ui,
    new: Ui,
    mods: Modifiers,
    text: Option<Seq<char>>,
    e: EffectView,
)
    requires
        key_step(old, new, mods, Key::Named(NamedKey::Backspace), text, e),
    ensures
        old.chat.open && old.chat.input_focused && mods.cmd ==> new.chat.did_delete_line(old.chat),
        old.chat.open && old.chat.input_focused && !mods.cmd && mods.alt
            ==> new.chat.did_delete_word(old.chat),
        old.takes_keys() && mods.cmd ==> e == EffectView::WriteToPane(seq![0x15u8]),
        old.takes_keys() && !mods.cmd && mods.alt ==> e == EffectView::TypeInPane(seq![0x17u8]),
{
}

/// While the chat is open, Escape stops an answer that streams, and nothing
/// else happens.
pub proof fn law_escape_stops_an_answer(
    old: Ui,
    new: Ui,
    mods: Modifiers,
    text: Option<Seq<char>>,
    e: EffectView,
)
    requires
        old.chat.open,
        old.chat.streaming,
        key_step(old, new, mods, Key::Named(NamedKey::Escape), text, e),
    ensures
        new == old,
        e == EffectView::CancelTurn,
{
}

/// Where the mouse is in the panes: the pane, and the cell in it by column and
/// row.
pub type CellAt = (usize, usize, usize);

/// A selection of text that is being made: the pane, and the cell that the
/// mouse was at last.
#[derive(Clone, Copy, Debug)]
pub struct Dragging {
    pub pane: usize,
    pub last_cell: (usize, usize),
}

/// What becomes of a selection that is being made when the mouse moves, and the
/// cell to extend it to: only to another cell of the same pane.
pub open spec fn dragged(
    drag: Option<Dragging>,
    at: Option<CellAt>,
) -> (Option<Dragging>, Option<CellAt>) {
    match (drag, at) {
        (Some(d), Some(c)) => if c.0 == d.pane && (c.1, c.2) != d.last_cell {
            (Some(Dragging { pane: d.pane, last_cell: (c.1, c.2) }), Some(c))
        } else {
            (drag, None)
        },
        _ => (drag, None),
    }
}

/// The mouse moved. Returns the cell to extend the selection to, if any.
pub fn drag_to(drag: &mut Option<Dragging>, at: Option<CellAt>) -> (r: Option<CellAt>)
    ensures
        (*final(drag), r) == dragged(*old(drag), at),
{
    match (*drag, at) {
        (Some(d), Some(c)) => {
            if c.0 == d.pane && (c.1 != d.last_cell.0 || c.2 != d.last_cell.1) {
                *drag = Some(Dragging { pane: d.pane, last_cell: (c.1, c.2) });
                Some(c)
            } else {
                None
            }
        },
        _ => None,
    }
}

impl Ui {
    /// The mouse was pressed in the chat panel: the chat input gets the focus.
    pub fn press_in_panel(&mut self)
        requires
            old(self).wf(),
        ensures
            final(self).wf(),
            final(self).chat.did_focus(old(self).chat, old(self).chat.open, true),
            final(self).grid_cmd == old(self).grid_cmd,
            final(self).grid == old(self).grid,
    {
        self.chat.input_focused = true;
    }

    /// The mouse was pressed outside the chat panel: the chat input loses the
    /// focus, and the pane under the mouse becomes the active one. Returns the
    /// selection that begins there.
    pub fn press_in_panes(&mut self, at: Option<CellAt>) -> (r: Option<Dragging>)
        requires
            old(self).wf(),
            at matches Some(c) ==> c.0 < old(self).grid.panes,
        ensures
            final(self).wf(),
            final(self).chat.did_focus(old(self).chat, old(self).chat.open, false),
            final(self).grid_cmd == old(self).grid_cmd,
            final(self).grid.layout == old(self).grid.layout,
            final(self).grid.panes == old(self).grid.panes,
            final(self).grid.active == (match at {
                Some(c) => c.0,
                None => old(self).grid.active,
            }),
            r == (match at {
                Some(c) => Some(Dragging { pane: c.0, last_cell: (c.1, c.2) }),
                None => None,
            }),
    {
        self.chat.input_focused = false;
        match at {
            Some(c) => {
                self.grid.active = c.0;
                Some(Dragging { pane: c.0, last_cell: (c.1, c.2) })
            },
            None => None,
        }
    }
}

/// The grid to start with: that of the environment, where it names one.
pub fn startup_grid(var: Option<&str>) -> (r: (usize, usize))
    ensures
        (r.0 as nat, r.1 as nat) == (match var {
            Some(s) => match grid::grid_size(s@) {
                Some(g) => g,
                None => (1, 1),
            },
            None => (1, 1),
        }),
{
    match var {
        Some(s) => match parse_grid(s) {
            Some(g) => g,
            None => (1, 1),
        },
        None => (1, 1),
    }
}

/// A selection stays in the pane in which it was begun, and is not extended
/// while the mouse stays in one cell.
pub proof fn law_drags_stay_in_their_pane(d: Dragging, at: CellAt)
    ensures
        dragged(Some(d), Some(at)).1 matches Some(c) ==> c == at && c.0 == d.pane,
        dragged(dragged(Some(d), Some(at)).0, Some(at)).1 is None,
{
}

/// Without an assistant, Cmd+J does nothing.
pub proof fn law_no_chat_without_an_assistant(
    old: Ui,
    new: Ui,
    mods: Modifiers,
    key: Key,
    text: Option<Seq<char>>,
    e: EffectView,
)
    requires
        !old.chat.available,
        mods.cmd,
        is_char_key(key, "j"@),
        key_step(old, new, mods, key, text, e),
    ensures
        new.chat == old.chat,
        e == EffectView::Nothing,
{
}

/// What is typed reaches the shell of the active pane: where the keys go to the
/// panes, a key that is no shortcut changes nothing and is sent as what a shell
/// expects for it.
pub proof fn law_keys_reach_the_shell(
    old: Ui,
    new: Ui,
    mods: Modifiers,
    key: Key,
    text: Option<Seq<char>>,
    e: EffectView,
)
    requires
        old.takes_keys(),
        !mods.cmd,
        !(mods.ctrl && is_char_key(key, "]"@)),
        !(old.chat.open && old.chat.streaming && key == Key::Named(NamedKey::Escape)),
        key_step(old, new, mods, key, text, e),
    ensures
        new == old,
        e == EffectView::TypeInPane(keys::key_bytes(key, text, mods.ctrl, mods.alt)),
{
}

/// While the chat input has the focus, what is typed goes into it, unless it holds
/// a control character, and nothing goes to a pane.
pub proof fn law_keys_reach_the_chat(
    old: Ui,
    new: Ui,
    mods: Modifiers,
    key: Key,
    text: Option<Seq<char>>,
    e: EffectView,
)
    requires
        old.chat.open,
        old.chat.input_focused,
        key_step(old, new, mods, key, text, e),
    ensures
        !(e is TypeInPane) && !(e is WriteToPane),
        new.grid == old.grid,
        !mods.cmd && (key is Character) && text is Some && (forall|i: int|
            0 <= i < text->0.len() ==> !text::is_control_char(#[trigger] text->0[i]))
            ==> new.chat.did_insert(old.chat, text->0),
        key == Key::Named(NamedKey::Space) ==> new.chat.did_insert(old.chat, " "@),
        key == Key::Named(NamedKey::Enter) && mods.shift ==> new.chat.did_insert(old.chat, "\n"@),
        key == Key::Named(NamedKey::Enter) && !mods.shift && old.chat.can_send()
            ==> new.chat.did_send(old.chat) && e == EffectView::Send(text::trim(old.chat.input@)),
        key == Key::Named(NamedKey::Enter) && !mods.shift && !old.chat.can_send() ==> new.chat
            == old.chat && !(e is Send),
        key == Key::Named(NamedKey::Backspace) && !mods.cmd && !mods.alt
            ==> new.chat.did_backspace(old.chat),
        key == Key::Named(NamedKey::ArrowLeft) && !mods.cmd && !mods.alt
            ==> new.chat.did_move_left(old.chat),
        key == Key::Named(NamedKey::ArrowRight) && !mods.cmd ==> new.chat.did_move_right(old.chat),
        key == Key::Named(NamedKey::Home) ==> new.chat.did_move_home(old.chat),
        key == Key::Named(NamedKey::End) ==> new.chat.did_move_end(old.chat),
        mods.cmd && is_char_key(key, "v"@) ==> e == EffectView::PasteIntoChat && new == old,
        key == Key::Named(NamedKey::Escape) && !old.chat.streaming ==> !new.chat.input_focused
            && new.chat.open && new.chat.input == old.chat.input,
        (e is Send) ==> key == Key::Named(NamedKey::Enter) && old.chat.can_send(),
{
    reveal_strlit("j");
    reveal_strlit("v");
    assert("j"@[0] == 'j' && "v"@[0] == 'v');
}

/// Cmd with an arrow to the side moves the shell's cursor to the end of the line
/// on that side, by the control codes for it.
pub proof fn law_line_shortcuts(
    old: Ui,
    new: Ui,
    mods: Modifiers,
    key: Key,
    text: Option<Seq<char>>,
    e: EffectView,
)
    requires
        old.takes_keys(),
        mods.cmd,
        !mods.shift,
        key_step(old, new, mods, key, text, e),
    ensures
        key == Key::Named(NamedKey::ArrowLeft) ==> new == old && e == EffectView::WriteToPane(
            seq![1u8],
        ),
        key == Key::Named(NamedKey::ArrowRight) ==> new == old && e == EffectView::WriteToPane(
            seq![5u8],
        ),
{
}

/// The prompt for a grid size takes what is typed, all of it, and gives it back
/// character by character; it ends with Enter and with Escape, and only Enter
/// makes a grid.
pub proof fn law_the_prompt_keeps_what_is_typed(
    old: Ui,
    new: Ui,
    mods: Modifiers,
    key: Key,
    text: Option<Seq<char>>,
    e: EffectView,
)
    requires
        old.grid_cmd.active,
        !(old.chat.open && old.chat.input_focused),
        !(old.chat.open && old.chat.streaming && key == Key::Named(NamedKey::Escape)),
        !(mods.cmd && is_char_key(key, "j"@)),
        key_step(old, new, mods, key, text, e),
    ensures
        new.grid == old.grid && new.chat == old.chat,
        key == Key::Named(NamedKey::Enter) || key == Key::Named(NamedKey::Escape)
            ==> !new.grid_cmd.active && new.grid_cmd.input@.len() == 0,
        key == Key::Named(NamedKey::Backspace) && old.grid_cmd.input@.len() > 0
            ==> new.grid_cmd.input@.len() == old.grid_cmd.input@.len() - 1
            && new.grid_cmd.input@.is_prefix_of(old.grid_cmd.input@),
        !(key is Named) && text is Some ==> new.grid_cmd.active && new.grid_cmd.input@
            == old.grid_cmd.input@ + text->0,
        !(key is Named) && text is None ==> new.grid_cmd.active && new.grid_cmd.input@
            == old.grid_cmd.input@,
        (e is Rebuild) ==> key == Key::Named(NamedKey::Enter),
        key == Key::Named(NamedKey::Enter) ==> e == (match grid::grid_size(old.grid_cmd.input@) {
            Some(g) => EffectView::Rebuild { cols: g.0, rows: g.1 },
            None => EffectView::Nothing,
        }),
{
    if key == Key::Named(NamedKey::Backspace) && old.grid_cmd.input@.len() > 0 {
        let s = old.grid_cmd.input@;
        assert(s.drop_last() =~= s.take(s.len() - 1));
    }
}

/// No key changes the number of panes or their arrangement by itself; only Ctrl+]
/// changes which one is active.
pub proof fn law_keys_keep_the_panes(
    old: Ui,
    new: Ui,
    mods: Modifiers,
    key: Key,
    text: Option<Seq<char>>,
    e: EffectView,
)
    requires
        key_step(old, new, mods, key, text, e),
    ensures
        new.grid.layout == old.grid.layout,
        new.grid.panes == old.grid.panes,
        !(mods.ctrl && is_char_key(key, "]"@)) ==> new.grid.active == old.grid.active,
        new.chat.entries != old.chat.entries ==> (e is Send),
{
}

/// A column or a row is added as long as there are no more than 64 panes then.
pub proof fn law_grids_grow_up_to_the_limit(
    old: Ui,
    new: Ui,
    mods: Modifiers,
    key: Key,
    text: Option<Seq<char>>,
    e: EffectView,
)
    requires
        old.takes_keys(),
        mods.cmd,
        mods.shift,
        key_step(old, new, mods, key, text, e),
    ensures
        key == Key::Named(NamedKey::ArrowRight) ==> e == (if (old.grid.layout.cols + 1)
            * old.grid.layout.rows <= 64 {
            EffectView::Rebuild {
                cols: (old.grid.layout.cols + 1) as nat,
                rows: old.grid.layout.rows as nat,
            }
        } else {
            EffectView::Nothing
        }),
        key == Key::Named(NamedKey::ArrowDown) ==> e == (if old.grid.layout.cols * (
        old.grid.layout.rows + 1) <= 64 {
            EffectView::Rebuild {
                cols: old.grid.layout.cols as nat,
                rows: (old.grid.layout.rows + 1) as nat,
            }
        } else {
            EffectView::Nothing
        }),
{
}

/// A key that is no shortcut of the window is typed in the pane, though it is
/// pressed with the command key.
pub proof fn law_other_keys_are_typed(
    old: Ui,
    new: Ui,
    mods: Modifiers,
    key: Key,
    text: Option<Seq<char>>,
    e: EffectView,
)
    requires
        old.takes_keys(),
        mods.cmd,
        !mods.ctrl,
        !(old.chat.open && old.chat.streaming && key == Key::Named(NamedKey::Escape)),
        key_step(old, new, mods, key, text, e),
        match key {
            Key::Character(s) => !(s@ == "j"@ || s@ == "g"@ || s@ == "c"@ || s@ == "v"@) && !(
            s@.len() == 1 && '0' <= s@[0] <= '9'),
            Key::Named(n) => n != NamedKey::Backspace && n != NamedKey::ArrowLeft && n
                != NamedKey::ArrowRight && (mods.shift ==> n != NamedKey::ArrowUp && n
                != NamedKey::ArrowDown),
            _ => true,
        },
    ensures
        new == old,
        e == EffectView::TypeInPane(keys::key_bytes(key, text, false, mods.alt)),
{
}

/// The shortcuts of the chat input: to the ends of the line, by a word, and no
/// text from any other key that is pressed with the command key, nor from one
/// that stands for a control character.
pub proof fn law_chat_shortcuts(
    old: Ui,
    new: Ui,
    mods: Modifiers,
    key: Key,
    text: Option<Seq<char>>,
    e: EffectView,
    i: int,
)
    requires
        old.chat.open,
        old.chat.input_focused,
        key_step(old, new, mods, key, text, e),
    ensures
        mods.cmd && (key == Key::Named(NamedKey::ArrowLeft) || is_char_key(key, "a"@))
            ==> new.chat.did_move_home(old.chat) && e == EffectView::Redraw,
        mods.cmd && (key == Key::Named(NamedKey::ArrowRight) || is_char_key(key, "e"@))
            ==> new.chat.did_move_end(old.chat) && e == EffectView::Redraw,
        !mods.cmd && mods.alt && key == Key::Named(NamedKey::ArrowLeft)
            ==> new.chat.did_move_word_left(old.chat) && e == EffectView::Redraw,
        mods.cmd && (key is Character) && !is_char_key(key, "a"@) && !is_char_key(key, "e"@)
            && !is_char_key(key, "j"@) ==> new.chat == old.chat,
        (key is Character) && !mods.cmd && text is Some && 0 <= i < text->0.len()
            && text::is_control_char(text->0[i]) ==> new.chat == old.chat,
        (key is Character) && !mods.cmd && text is None ==> new.chat == old.chat,
{
    reveal_strlit("a");
    reveal_strlit("e");
    reveal_strlit("v");
    reveal_strlit("j");
    assert("a"@[0] == 'a' && "e"@[0] == 'e' && "v"@[0] == 'v' && "j"@[0] == 'j');
}

/// The selection follows the pointer to every other cell of the pane in which
/// the drag began, and nowhere else.
pub proof fn law_drags_follow_the_pointer(d: Dragging, at: CellAt)
    ensures
        at.0 == d.pane && (at.1, at.2) != d.last_cell ==> dragged(Some(d), Some(at)) == (
            Some(Dragging { pane: d.pane, last_cell: (at.1, at.2) }),
            Some(at),
        ),
        at.0 != d.pane || (at.1, at.2) == d.last_cell ==> dragged(Some(d), Some(at)) == (
            Some(d),
            None::<CellAt>,
        ),
        dragged(Some(d), None) == (Some(d), None::<CellAt>),
        dragged(None, Some(at)) == (None::<Dragging>, None::<CellAt>),
{
}

/// Zero is the preset for a single pane.
pub proof fn law_the_single_preset(
    old: Ui,
    new: Ui,
    mods: Modifiers,
    key: Key,
    text: Option<Seq<char>>,
    e: EffectView,
)
    requires
        old.takes_keys(),
        mods.cmd,
        is_char_key(key, seq!['0']),
        key_step(old, new, mods, key, text, e),
    ensures
        new == old,
        e == (EffectView::Rebuild { cols: 1, rows: 1 }),
{
    reveal_strlit("c");
    reveal_strlit("v");
    reveal_strlit("g");
    reveal_strlit("j");
    assert("c"@[0] == 'c' && "v"@[0] == 'v' && "g"@[0] == 'g' && "j"@[0] == 'j');
    assert(seq!['0'][0] == '0');
}

} // verus!
