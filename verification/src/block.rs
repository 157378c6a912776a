//! A rectangular grid of character cells with a baseline row, and the
//! operations that compose such grids horizontally and vertically.
use vstd::prelude::*;

verus! {

/// The cell that fills unused space: a single blank.
pub open spec fn blank_cell() -> Seq<char> {
    seq![' ']
}

/// A row of `n` blank cells.
pub open spec fn blank_row(n: nat) -> Seq<Seq<char>> {
    Seq::new(n, |_i: int| blank_cell())
}

/// `row`, extended on the right with blanks up to `w` cells.
pub open spec fn pad_row(row: Seq<Seq<char>>, w: nat) -> Seq<Seq<char>> {
    if row.len() < w {
        row + blank_row((w - row.len()) as nat)
    } else {
        row
    }
}

pub open spec fn max_nat(a: nat, b: nat) -> nat {
    if a >= b {
        a
    } else {
        b
    }
}

pub open spec fn min_nat(a: nat, b: nat) -> nat {
    if a <= b {
        a
    } else {
        b
    }
}

/// The length of the longest row.
pub open spec fn max_row_len(rows: Seq<Seq<Seq<char>>>) -> nat
    decreases rows.len(),
{
    if rows.len() == 0 {
        0
    } else {
        max_nat(max_row_len(rows.drop_last()), rows.last().len())
    }
}

/// The mathematical content of a rendered block: its rows of cells (each
/// cell being the characters it draws) and the index of its baseline row.
#[verifier::ext_equal]
pub struct Block {
    pub rows: Seq<Seq<Seq<char>>>,
    pub baseline: nat,
}

impl Block {
    pub open spec fn height(self) -> nat {
        self.rows.len()
    }

    pub open spec fn width(self) -> nat {
        if self.rows.len() == 0 {
            0
        } else {
            self.rows[0].len()
        }
    }

    /// All rows are equally wide, and the baseline lies within the block
    /// (it equals the height only when nothing is drawn below it).
    pub open spec fn wf(self) -> bool {
        &&& forall|i: int| 0 <= i < self.rows.len() ==> #[trigger] self.rows[i].len() == self.width()
        &&& self.baseline <= self.height()
    }

    /// Row `i`, or a blank row of the block's width where `i` lies outside it.
    pub open spec fn row_or_blank(self, i: int) -> Seq<Seq<char>> {
        if 0 <= i < self.rows.len() {
            self.rows[i]
        } else {
            blank_row(self.width())
        }
    }

    pub open spec fn empty() -> Block {
        Block { rows: Seq::empty(), baseline: 0 }
    }

    /// One row holding the characters of `s`, one per cell.
    pub open spec fn text(s: Seq<char>) -> Block {
        Block { rows: seq![Seq::new(s.len(), |i: int| seq![s[i]])], baseline: 0 }
    }

    /// One row of `w` copies of `c`.
    pub open spec fn hline(c: char, w: nat) -> Block {
        Block { rows: seq![Seq::new(w, |_i: int| seq![c])], baseline: 0 }
    }

    /// Rows padded on the right to the longest row; the baseline is kept
    /// within the block.
    pub open spec fn from_rows(rows: Seq<Seq<Seq<char>>>, baseline: nat) -> Block {
        Block {
            rows: rows.map_values(|row: Seq<Seq<char>>| pad_row(row, max_row_len(rows))),
            baseline: min_nat(baseline, rows.len()),
        }
    }

    /// `self` and `other` side by side, their baselines on one row.
    pub open spec fn beside(self, other: Block) -> Block {
        let base = max_nat(self.baseline, other.baseline);
        let oa = base - self.baseline;
        let ob = base - other.baseline;
        let h = max_nat((oa + self.height()) as nat, (ob + other.height()) as nat);
        Block {
            rows: Seq::new(h, |r: int| self.row_or_blank(r - oa) + other.row_or_blank(r - ob)),
            baseline: base,
        }
    }

    /// `top` stacked on `bottom`, both padded on the right to the wider of
    /// the two, with the given baseline (kept within the result).
    pub open spec fn above(top: Block, bottom: Block, baseline: nat) -> Block {
        let w = max_nat(top.width(), bottom.width());
        let rows = top.rows.map_values(|row: Seq<Seq<char>>| pad_row(row, w)) + bottom.rows.map_values(
            |row: Seq<Seq<char>>| pad_row(row, w),
        );
        Block { rows: rows, baseline: min_nat(baseline, rows.len()) }
    }

    /// `self` centered in `w` columns: blanks are added on the left (the
    /// smaller half) and on the right. A block at least `w` wide is unchanged.
    pub open spec fn center_in(self, w: nat) -> Block {
        if w <= self.width() {
            self
        } else {
            let left = ((w - self.width()) / 2) as nat;
            let right = (w - self.width() - left) as nat;
            Block {
                rows: self.rows.map_values(
                    |row: Seq<Seq<char>>| blank_row(left) + row + blank_row(right),
                ),
                baseline: self.baseline,
            }
        }
    }
}

/// The characters of a row: its cells, one after another.
pub open spec fn row_text(row: Seq<Seq<char>>) -> Seq<char>
    decreases row.len(),
{
    if row.len() == 0 {
        Seq::empty()
    } else {
        row_text(row.drop_last()) + row.last()
    }
}

/// The text of a grid: its rows, separated by line breaks.
pub open spec fn grid_text(rows: Seq<Seq<Seq<char>>>) -> Seq<char>
    decreases rows.len(),
{
    if rows.len() == 0 {
        Seq::empty()
    } else if rows.len() == 1 {
        row_text(rows[0])
    } else {
        grid_text(rows.drop_last()) + seq!['\n'] + row_text(rows.last())
    }
}

/// Every row is at most as long as the longest.
pub proof fn lemma_max_row_len(rows: Seq<Seq<Seq<char>>>, k: int)
    requires
        0 <= k < rows.len(),
    ensures
        rows[k].len() <= max_row_len(rows),
    decreases rows.len(),
{
    if k < rows.len() - 1 {
        lemma_max_row_len(rows.drop_last(), k);
    }
}

/// A string holding one blank.
pub(crate) fn blank_string() -> (s: String)
    ensures
        s@ == blank_cell(),
{
    proof {
        reveal_strlit(" ");
    }
    String::from_str(" ")
}

/// `dst` followed by `n` blank cells.
pub(crate) fn push_blanks(dst: &mut Vec<String>, n: usize)
    ensures
        final(dst).deep_view() == old(dst).deep_view() + blank_row(n as nat),
{
    let ghost start = old(dst).deep_view();
    let mut i: usize = 0;
    while i < n
        invariant
            0 <= i <= n,
            dst.deep_view() == start + blank_row(i as nat),
        decreases n - i,
    {
        let ghost before = dst.deep_view();
        let ghost bv = dst@;
        let b = blank_string();
        dst.push(b);
        assert(dst@ == bv.push(b));
        assert(dst.deep_view() =~= before.push(blank_cell()));
        i = i + 1;
        assert(dst.deep_view() =~= start + blank_row(i as nat));
    }
}

/// `dst` followed by copies of the cells of `src`.
pub(crate) fn push_cloned(dst: &mut Vec<String>, src: &Vec<String>)
    ensures
        final(dst).deep_view() == old(dst).deep_view() + src.deep_view(),
{
    let ghost start = old(dst).deep_view();
    let mut i: usize = 0;
    while i < src.len()
        invariant
            0 <= i <= src.len(),
            dst.deep_view() == start + src.deep_view().take(i as int),
        decreases src.len() - i,
    {
        let ghost before = dst.deep_view();
        let ghost bv = dst@;
        let c = src[i].clone();
        dst.push(c);
        assert(dst@ == bv.push(c));
        assert(dst.deep_view() =~= before.push(src[i as int]@));
        i = i + 1;
        assert(dst.deep_view() =~= start + src.deep_view().take(i as int));
    }
    assert(src.deep_view().take(src.len() as int) =~= src.deep_view());
}


/// `std`'s `ToString` for `char`: the string holding exactly that character.
#[verifier::external_body]
pub(crate) fn char_string(c: char) -> (s: String)
    ensures
        s@ == seq![c],
{
    c.to_string()
}

/// `rows` followed by `row`.
pub(crate) fn push_row(rows: &mut Vec<Vec<String>>, row: Vec<String>)
    ensures
        final(rows).deep_view() == old(rows).deep_view().push(row.deep_view()),
{
    let ghost before = rows.deep_view();
    let ghost bv = rows@;
    let ghost rv = row.deep_view();
    rows.push(row);
    assert(rows@ == bv.push(row));
    assert(rows.deep_view() =~= before.push(rv));
}

/// `lead` blanks, then the cells of `cells` padded with blanks to `w` cells.
pub(crate) fn padded_row(lead: usize, cells: &Vec<String>, w: usize) -> (r: Vec<String>)
    ensures
        r.deep_view() == blank_row(lead as nat) + pad_row(cells.deep_view(), w as nat),
{
    let mut row: Vec<String> = Vec::new();
    push_blanks(&mut row, lead);
    push_cloned(&mut row, cells);
    if cells.len() < w {
        push_blanks(&mut row, w - cells.len());
    }
    assert(row.deep_view() =~= blank_row(lead as nat) + pad_row(cells.deep_view(), w as nat));
    row
}

/// Copies of the rows of `src`.
pub(crate) fn copy_rows(src: &Vec<Vec<String>>) -> (out: Vec<Vec<String>>)
    ensures
        out.deep_view() == src.deep_view(),
{
    let mut out: Vec<Vec<String>> = Vec::new();
    let mut i: usize = 0;
    while i < src.len()
        invariant
            0 <= i <= src.len(),
            out.deep_view() == src.deep_view().take(i as int),
        decreases src.len() - i,
    {
        let mut row: Vec<String> = Vec::new();
        push_cloned(&mut row, &src[i]);
        assert(row.deep_view() =~= src@[i as int].deep_view());
        let ghost before = out.deep_view();
        let ghost bv = out@;
        out.push(row);
        assert(out@ == bv.push(row));
        assert(out.deep_view() =~= before.push(row.deep_view()));
        i = i + 1;
        assert(out.deep_view() =~= src.deep_view().take(i as int));
    }
    assert(src.deep_view().take(src.len() as int) =~= src.deep_view());
    out
}

/// A grid of cells, each cell a string drawn in one terminal column, with a
/// baseline row along which neighbouring blocks are aligned.
pub struct RenderedBlock {
    cells: Vec<Vec<String>>,
    baseline: usize,
}

impl View for RenderedBlock {
    type V = Block;

    closed spec fn view(&self) -> Block {
        Block { rows: self.cells.deep_view(), baseline: self.baseline as nat }
    }
}

impl RenderedBlock {
    /// Every block is rectangular and its baseline lies within it.
    #[verifier::type_invariant]
    spec fn inv(self) -> bool {
        self@.wf()
    }

    /// A block with no rows.
    pub fn empty() -> (r: RenderedBlock)
        ensures
            r@ == Block::empty(),
    {
        let r = RenderedBlock { cells: Vec::new(), baseline: 0 };
        assert(r@ =~= Block::empty());
        r
    }

    /// The number of rows.
    pub fn height(&self) -> (h: usize)
        ensures
            h == self@.height(),
    {
        self.cells.len()
    }

    /// The number of columns.
    pub fn width(&self) -> (w: usize)
        ensures
            w == self@.width(),
    {
        if self.cells.len() == 0 {
            0
        } else {
            self.cells[0].len()
        }
    }

    /// The baseline row.
    pub fn baseline(&self) -> (b: usize)
        ensures
            b == self@.baseline,
    {
        self.baseline
    }

    /// Whether the block has no rows.
    pub fn is_empty(&self) -> (b: bool)
        ensures
            b == (self@.height() == 0),
    {
        self.cells.len() == 0
    }

    /// The rows of cells.
    pub fn cells(&self) -> (c: &Vec<Vec<String>>)
        ensures
            c.deep_view() == self@.rows,
    {
        &self.cells
    }
}

impl RenderedBlock {
    /// One row holding the characters of `s`, one per cell.
    pub fn from_text(s: &str) -> (r: RenderedBlock)
        ensures
            r@ == Block::text(s@),
            r@.wf(),
    {
        let mut row: Vec<String> = Vec::new();
        for c in it: s.chars()
            invariant
                it.seq() == s@,
                row.deep_view() =~= Seq::new(it.index() as nat, |k: int| seq![s@[k]]),
        {
            let cs = char_string(c);
            let ghost before = row.deep_view();
            let ghost bv = row@;
            row.push(cs);
            assert(row@ == bv.push(cs));
            assert(row.deep_view() =~= before.push(seq![c]));
        }
        let mut cells: Vec<Vec<String>> = Vec::new();
        cells.push(row);
        let r = RenderedBlock { cells, baseline: 0 };
        assert(r@ =~= Block::text(s@));
        r
    }

    /// One row holding the single character `c`.
    pub fn from_char(c: char) -> (r: RenderedBlock)
        ensures
            r@ == Block::text(seq![c]),
            r@.wf(),
    {
        let mut row: Vec<String> = Vec::new();
        row.push(char_string(c));
        let mut cells: Vec<Vec<String>> = Vec::new();
        cells.push(row);
        let r = RenderedBlock { cells, baseline: 0 };
        assert(r@.rows[0] =~= Block::text(seq![c]).rows[0]);
        assert(r@ =~= Block::text(seq![c]));
        r
    }

    /// One row of `w` copies of `c`.
    pub fn hline(c: char, w: usize) -> (r: RenderedBlock)
        ensures
            r@ == Block::hline(c, w as nat),
            r@.wf(),
    {
        let mut row: Vec<String> = Vec::new();
        let mut i: usize = 0;
        while i < w
            invariant
                0 <= i <= w,
                row.deep_view() =~= Seq::new(i as nat, |_k: int| seq![c]),
            decreases w - i,
        {
            let cs = char_string(c);
            let ghost before = row.deep_view();
            let ghost bv = row@;
            row.push(cs);
            assert(row@ == bv.push(cs));
            assert(row.deep_view() =~= before.push(seq![c]));
            i = i + 1;
        }
        let mut cells: Vec<Vec<String>> = Vec::new();
        cells.push(row);
        let r = RenderedBlock { cells, baseline: 0 };
        assert(r@ =~= Block::hline(c, w as nat));
        r
    }
}

impl RenderedBlock {
    /// `self` and `other` side by side with their baselines on one row;
    /// rows that one of them lacks are filled with blanks of its width.
    pub fn beside(&self, other: &RenderedBlock) -> (r: RenderedBlock)
        ensures
            r@ == self@.beside(other@),
            r@.wf(),
    {
        proof {
            use_type_invariant(self);
            use_type_invariant(other);
        }
        let base = if self.baseline >= other.baseline {
            self.baseline
        } else {
            other.baseline
        };
        let oa = base - self.baseline;
        let ob = base - other.baseline;
        let wa = self.width();
        let wb = other.width();
        let ghost spec = self@.beside(other@);
        let mut cells: Vec<Vec<String>> = Vec::new();
        let mut r: usize = 0;
        while r < oa || r - oa < self.cells.len() || r < ob || r - ob < other.cells.len()
            invariant
                0 <= r <= spec.height(),
                oa == base - self.baseline,
                ob == base - other.baseline,
                spec == self@.beside(other@),
                base == max_nat(self@.baseline, other@.baseline),
                wa == self@.width(),
                wb == other@.width(),
                cells.deep_view() =~= spec.rows.take(r as int),
            decreases spec.height() - r,
        {
            let mut row: Vec<String> = Vec::new();
            if r >= oa && r - oa < self.cells.len() {
                push_cloned(&mut row, &self.cells[r - oa]);
            } else {
                push_blanks(&mut row, wa);
            }
            if r >= ob && r - ob < other.cells.len() {
                push_cloned(&mut row, &other.cells[r - ob]);
            } else {
                push_blanks(&mut row, wb);
            }
            assert(row.deep_view() =~= spec.rows[r as int]);
            let ghost before = cells.deep_view();
            let ghost bv = cells@;
            cells.push(row);
            assert(cells@ == bv.push(row));
            assert(cells.deep_view() =~= before.push(row.deep_view()));
            r = cells.len();
            assert(cells.deep_view() =~= spec.rows.take(r as int));
        }
        assert(spec.rows.take(spec.height() as int) =~= spec.rows);
        proof {
            assert forall|i: int| 0 <= i < spec.rows.len() implies #[trigger] spec.rows[i].len()
                == spec.width() by {
                assert(spec.rows[i].len() == wa + wb);
                assert(spec.rows[0].len() == wa + wb);
            }
        }
        RenderedBlock { cells, baseline: base }
    }

    /// `top` stacked on `bottom`, both padded on the right to the wider of
    /// the two; the baseline is `baseline`, or the height if that is smaller.
    pub fn above(top: &RenderedBlock, bottom: &RenderedBlock, baseline: usize) -> (r: RenderedBlock)
        ensures
            r@ == Block::above(top@, bottom@, baseline as nat),
            r@.wf(),
    {
        proof {
            use_type_invariant(top);
            use_type_invariant(bottom);
        }
        let wt = top.width();
        let wb = bottom.width();
        let w = if wt >= wb {
            wt
        } else {
            wb
        };
        let ghost spec = Block::above(top@, bottom@, baseline as nat);
        let ghost padded_top = top@.rows.map_values(|row: Seq<Seq<char>>| pad_row(row, w as nat));
        let ghost padded_bottom = bottom@.rows.map_values(
            |row: Seq<Seq<char>>| pad_row(row, w as nat),
        );
        let mut cells: Vec<Vec<String>> = Vec::new();
        let mut i: usize = 0;
        while i < top.cells.len()
            invariant
                0 <= i <= top@.height(),
                w == max_nat(top@.width(), bottom@.width()),
                padded_top == top@.rows.map_values(|row: Seq<Seq<char>>| pad_row(row, w as nat)),
                top@.wf(),
                cells.deep_view() =~= padded_top.take(i as int),
            decreases top@.height() - i,
        {
            let mut row: Vec<String> = Vec::new();
            push_cloned(&mut row, &top.cells[i]);
            if top.cells[i].len() < w {
                push_blanks(&mut row, w - top.cells[i].len());
            }
            assert(row.deep_view() =~= padded_top[i as int]);
            let ghost before = cells.deep_view();
            let ghost bv = cells@;
            cells.push(row);
            assert(cells@ == bv.push(row));
            assert(cells.deep_view() =~= before.push(row.deep_view()));
            i = i + 1;
        }
        let mut j: usize = 0;
        while j < bottom.cells.len()
            invariant
                0 <= j <= bottom@.height(),
                i == top@.height(),
                w == max_nat(top@.width(), bottom@.width()),
                padded_top == top@.rows.map_values(|row: Seq<Seq<char>>| pad_row(row, w as nat)),
                padded_bottom == bottom@.rows.map_values(
                    |row: Seq<Seq<char>>| pad_row(row, w as nat),
                ),
                bottom@.wf(),
                cells.deep_view() =~= padded_top + padded_bottom.take(j as int),
            decreases bottom@.height() - j,
        {
            let mut row: Vec<String> = Vec::new();
            push_cloned(&mut row, &bottom.cells[j]);
            if bottom.cells[j].len() < w {
                push_blanks(&mut row, w - bottom.cells[j].len());
            }
            assert(row.deep_view() =~= padded_bottom[j as int]);
            let ghost before = cells.deep_view();
            let ghost bv = cells@;
            cells.push(row);
            assert(cells@ == bv.push(row));
            assert(cells.deep_view() =~= before.push(row.deep_view()));
            j = j + 1;
        }
        assert(padded_bottom.take(bottom@.height() as int) =~= padded_bottom);
        let n = cells.len();
        let b = if baseline <= n {
            baseline
        } else {
            n
        };
        proof {
            assert forall|k: int| 0 <= k < spec.rows.len() implies #[trigger] spec.rows[k].len()
                == spec.width() by {
                if k < top@.height() {
                    assert(spec.rows[k] == padded_top[k]);
                } else {
                    assert(spec.rows[k] == padded_bottom[k - top@.height()]);
                }
                if top@.height() > 0 {
                    assert(spec.rows[0] == padded_top[0]);
                } else {
                    assert(spec.rows[0] == padded_bottom[0]);
                }
            }
        }
        let r = RenderedBlock { cells, baseline: b };
        assert(r@ =~= spec);
        r
    }

    /// `self` centered in `w` columns, blanks going left (the smaller half)
    /// and right; a block at least `w` wide is returned unchanged.
    pub fn center_in(&self, w: usize) -> (r: RenderedBlock)
        ensures
            r@ == self@.center_in(w as nat),
            r@.wf(),
    {
        proof {
            use_type_invariant(self);
        }
        let width = self.width();
        if w <= width {
            return self.clone();
        }
        let left = (w - width) / 2;
        let right = w - width - left;
        let ghost spec = self@.center_in(w as nat);
        let mut cells: Vec<Vec<String>> = Vec::new();
        let mut i: usize = 0;
        while i < self.cells.len()
            invariant
                0 <= i <= self@.height(),
                width == self@.width(),
                w > width,
                spec == self@.center_in(w as nat),
                left == (w - width) / 2,
                right == w - width - left,
                cells.deep_view() =~= spec.rows.take(i as int),
            decreases self@.height() - i,
        {
            let mut row: Vec<String> = Vec::new();
            push_blanks(&mut row, left);
            push_cloned(&mut row, &self.cells[i]);
            push_blanks(&mut row, right);
            assert(row.deep_view() =~= spec.rows[i as int]);
            let ghost before = cells.deep_view();
            let ghost bv = cells@;
            cells.push(row);
            assert(cells@ == bv.push(row));
            assert(cells.deep_view() =~= before.push(row.deep_view()));
            i = i + 1;
        }
        assert(spec.rows.take(self@.height() as int) =~= spec.rows);
        proof {
            assert forall|k: int| 0 <= k < spec.rows.len() implies #[trigger] spec.rows[k].len()
                == spec.width() by {
                assert(spec.rows[k].len() == w);
            }
        }
        RenderedBlock { cells, baseline: self.baseline }
    }
}

impl RenderedBlock {
    /// A block of the given rows, each padded on the right to the longest,
    /// with the given baseline, or the height if that is smaller.
    pub fn new(cells: Vec<Vec<String>>, baseline: usize) -> (r: RenderedBlock)
        ensures
            r@ == Block::from_rows(cells.deep_view(), baseline as nat),
            r@.wf(),
    {
        let ghost rows = cells.deep_view();
        let mut m: usize = 0;
        let mut i: usize = 0;
        while i < cells.len()
            invariant
                0 <= i <= cells.len(),
                rows == cells.deep_view(),
                m == max_row_len(rows.take(i as int)),
            decreases cells.len() - i,
        {
            assert(rows.take(i + 1).drop_last() =~= rows.take(i as int));
            if cells[i].len() > m {
                m = cells[i].len();
            }
            i = i + 1;
        }
        assert(rows.take(cells.len() as int) =~= rows);
        let ghost padded = rows.map_values(|row: Seq<Seq<char>>| pad_row(row, m as nat));
        let mut out: Vec<Vec<String>> = Vec::new();
        let mut j: usize = 0;
        while j < cells.len()
            invariant
                0 <= j <= cells.len(),
                rows == cells.deep_view(),
                m == max_row_len(rows),
                padded == rows.map_values(|row: Seq<Seq<char>>| pad_row(row, m as nat)),
                out.deep_view() =~= padded.take(j as int),
            decreases cells.len() - j,
        {
            let mut row: Vec<String> = Vec::new();
            push_cloned(&mut row, &cells[j]);
            if cells[j].len() < m {
                push_blanks(&mut row, m - cells[j].len());
            }
            assert(row.deep_view() =~= padded[j as int]);
            let ghost before = out.deep_view();
            let ghost bv = out@;
            out.push(row);
            assert(out@ == bv.push(row));
            assert(out.deep_view() =~= before.push(row.deep_view()));
            j = j + 1;
        }
        assert(padded.take(cells.len() as int) =~= padded);
        let n = out.len();
        let b = if baseline <= n {
            baseline
        } else {
            n
        };
        proof {
            assert forall|k: int| 0 <= k < padded.len() implies #[trigger] padded[k].len() == m by {
                lemma_max_row_len(rows, k);
            }
        }
        let r = RenderedBlock { cells: out, baseline: b };
        assert(r@ =~= Block::from_rows(rows, baseline as nat));
        r
    }
}

/// The characters of `row`.
fn row_string(row: &Vec<String>, out: &mut String)
    ensures
        final(out)@ == old(out)@ + row_text(row.deep_view()),
{
    let ghost start = old(out)@;
    let mut i: usize = 0;
    while i < row.len()
        invariant
            0 <= i <= row.len(),
            out@ == start + row_text(row.deep_view().take(i as int)),
        decreases row.len() - i,
    {
        assert(row.deep_view().take(i + 1).drop_last() =~= row.deep_view().take(i as int));
        out.append(row[i].as_str());
        i = i + 1;
        assert(out@ =~= start + row_text(row.deep_view().take(i as int)));
    }
    assert(row.deep_view().take(row.len() as int) =~= row.deep_view());
}

impl RenderedBlock {
    /// The block as text: each row's cells written one after another, rows
    /// separated by line breaks.
    pub fn to_text(&self) -> (s: String)
        ensures
            s@ == grid_text(self@.rows),
    {
        let ghost rows = self@.rows;
        let mut out = String::new();
        let mut i: usize = 0;
        while i < self.cells.len()
            invariant
                0 <= i <= self.cells.len(),
                rows == self@.rows,
                out@ == grid_text(rows.take(i as int)),
            decreases self.cells.len() - i,
        {
            assert(rows.take(i + 1).drop_last() =~= rows.take(i as int));
            if i > 0 {
                proof {
                    reveal_strlit("\n");
                }
                out.append("\n");
            }
            row_string(&self.cells[i], &mut out);
            i = i + 1;
            assert(out@ =~= grid_text(rows.take(i as int)));
        }
        assert(rows.take(self.cells.len() as int) =~= rows);
        out
    }
}

impl Clone for RenderedBlock {
    fn clone(&self) -> (r: Self)
        ensures
            r@ == self@,
    {
        proof {
            use_type_invariant(self);
        }
        let r = RenderedBlock { cells: copy_rows(&self.cells), baseline: self.baseline };
        assert(r@ =~= self@);
        r
    }
}

} // verus!
