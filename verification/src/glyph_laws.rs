//! What each construct draws, and where: the marks of accents, the pieces
//! of tall delimiters, the bars around matrices, and the order of the rows
//! of braces and stacked annotations.
use vstd::prelude::*;

use crate::block::{Block, blank_cell, blank_row, max_nat};
use crate::laws::{
    lemma_above_dimensions, lemma_beside_empty, lemma_beside_level, lemma_center_in,
    lemma_delimiter_shape, lemma_from_rows_wf,
};
use crate::layout::{
    accent_block, brace_block, delimiter_block, matrix_block, matrix_delims, matrix_row_blocks,
    stack_rows, stackrel_block,
};
use crate::node::{AccentMark, MatrixStyle};

verus! {

/// The row holding an accent mark over a body `w` columns wide: the mark
/// alone over a body at most one column wide, else the mark centered among
/// blanks.
pub open spec fn mark_row(w: nat, c: char) -> Seq<Seq<char>> {
    if w <= 1 {
        seq![seq![c]]
    } else {
        blank_row(((w - 1) / 2) as nat) + seq![seq![c]] + blank_row((w - 1 - (w - 1) / 2) as nat)
    }
}

/// An accent stands on its own row above the body, whose rows follow
/// unchanged; the baseline stays on the body's baseline row. Each kind
/// draws its own mark: `^` for a hat, `˙` (one dot) for a dot, `¨` (two
/// dots) for a double dot, `~` for a tilde and `→` for a vector; a bar is
/// `‾`, drawn across the whole body when it is wider than one column.
pub proof fn lemma_accent_marks(body: Block, kind: AccentMark)
    requires
        body.wf(),
    ensures
        ({
            let a = accent_block(body, kind);
            let w = body.width();
            &&& a.wf()
            &&& a.height() == body.height() + 1
            &&& a.baseline == body.baseline + 1
            &&& forall|i: int|
                0 <= i < body.height() ==> (#[trigger] a.rows[i + 1]).subrange(0, w as int)
                    == body.rows[i]
            &&& kind == AccentMark::Hat ==> a.rows[0] == mark_row(w, '^')
            &&& kind == AccentMark::Dot ==> a.rows[0] == mark_row(w, '˙')
            &&& kind == AccentMark::DoubleDot ==> a.rows[0] == mark_row(w, '¨')
            &&& kind == AccentMark::Tilde ==> a.rows[0] == mark_row(w, '~')
            &&& kind == AccentMark::Vec ==> a.rows[0] == mark_row(w, '→')
            &&& kind == AccentMark::Bar && w <= 1 ==> a.rows[0] == mark_row(w, '‾')
            &&& kind == AccentMark::Bar && w > 1 ==> a.rows[0] == Seq::new(w, |_i: int| seq!['‾'])
        }),
{
    let a = accent_block(body, kind);
    let w = body.width();
    let c = match kind {
        AccentMark::Hat => '^',
        AccentMark::Bar => '‾',
        AccentMark::Dot => '˙',
        AccentMark::DoubleDot => '¨',
        AccentMark::Tilde => '~',
        AccentMark::Vec => '→',
    };
    let text = Block::text(seq![c]);
    assert(text.rows[0] =~= seq![seq![c]]);
    let mark = if w <= 1 {
        text
    } else {
        match kind {
            AccentMark::Bar => Block::hline('‾', w),
            _ => text.center_in(w),
        }
    };
    lemma_center_in(text, w);
    assert(mark.wf());
    assert(mark.height() == 1);
    lemma_above_dimensions(mark, body, mark.height() + body.baseline);
    assert(a == Block::above(mark, body, mark.height() + body.baseline));
    let big = max_nat(mark.width(), w);
    assert(a.rows[0] == crate::block::pad_row(mark.rows[0], big));
    if w <= 1 {
        assert(mark.rows[0] == seq![seq![c]]);
        assert(a.rows[0] =~= mark_row(w, c));
    } else {
        assert(mark.width() == w);
        assert(a.rows[0] == mark.rows[0]);
        if kind != AccentMark::Bar {
            let left = ((w - 1) / 2) as nat;
            let right = (w - 1 - left) as nat;
            assert(mark.rows[0] == blank_row(left) + text.rows[0] + blank_row(right));
            assert(a.rows[0] =~= mark_row(w, c));
        } else {
            assert(a.rows[0] =~= Seq::new(w, |_i: int| seq!['‾']));
        }
    }
    assert forall|i: int| 0 <= i < body.height() implies (#[trigger] a.rows[i + 1]).subrange(
        0,
        w as int,
    ) == body.rows[i] by {
        assert(a.rows[mark.height() + i] == a.rows[i + 1]);
    }
}

/// The rows of a delimiter `h` rows tall, from its top, middle and bottom
/// pieces.
pub open spec fn tall_delimiter(d: Seq<char>, h: nat, top: char, mid: char, bot: char) -> bool {
    let b = delimiter_block(d, h);
    &&& b.height() == h
    &&& b.rows[0] == seq![seq![top]]
    &&& b.rows[h - 1] == seq![seq![bot]]
    &&& forall|r: int| 0 < r < h - 1 ==> #[trigger] b.rows[r] == seq![seq![mid]]
}

/// Tall delimiters are drawn from the Unicode bracket pieces: at any height
/// of two rows or more, the top row holds the upper piece, the bottom row
/// the lower piece and each row between the middle piece. A left brace has
/// its cusp `⎨` pointing left and a right brace `⎬` pointing right; a bar
/// is drawn with box-drawing bars and a double bar with double bars.
pub proof fn lemma_tall_delimiter_pieces(h: nat)
    requires
        h >= 2,
    ensures
        tall_delimiter(seq!['('], h, '⎛', '⎜', '⎝'),
        tall_delimiter(seq![')'], h, '⎞', '⎟', '⎠'),
        tall_delimiter(seq!['['], h, '⎡', '⎢', '⎣'),
        tall_delimiter(seq![']'], h, '⎤', '⎥', '⎦'),
        tall_delimiter(seq!['{'], h, '⎧', '⎨', '⎩'),
        tall_delimiter(seq!['}'], h, '⎫', '⎬', '⎭'),
        tall_delimiter(seq!['|'], h, '│', '│', '│'),
        tall_delimiter(seq!['‖'], h, '‖', '‖', '‖'),
{
    lemma_distinct_delimiters();
    lemma_delimiter_shape(seq!['('], h);
    lemma_delimiter_shape(seq![')'], h);
    lemma_delimiter_shape(seq!['['], h);
    lemma_delimiter_shape(seq![']'], h);
    lemma_delimiter_shape(seq!['{'], h);
    lemma_delimiter_shape(seq!['}'], h);
    lemma_delimiter_shape(seq!['|'], h);
    lemma_delimiter_shape(seq!['‖'], h);
}

/// The delimiters that have pieces are told apart from each other and from
/// the invisible `.`.
proof fn lemma_distinct_delimiters()
    ensures
        seq!['('] != seq!['.'],
        seq![')'] != seq!['.'],
        seq!['['] != seq!['.'],
        seq![']'] != seq!['.'],
        seq!['{'] != seq!['.'],
        seq!['}'] != seq!['.'],
        seq!['|'] != seq!['.'],
        seq!['‖'] != seq!['.'],
        seq![')'] != seq!['('],
        seq!['['] != seq!['('],
        seq!['['] != seq![')'],
        seq![']'] != seq!['('],
        seq![']'] != seq![')'],
        seq![']'] != seq!['['],
        seq!['{'] != seq!['('],
        seq!['{'] != seq![')'],
        seq!['{'] != seq!['['],
        seq!['{'] != seq![']'],
        seq!['}'] != seq!['('],
        seq!['}'] != seq![')'],
        seq!['}'] != seq!['['],
        seq!['}'] != seq![']'],
        seq!['}'] != seq!['{'],
        seq!['|'] != seq!['('],
        seq!['|'] != seq![')'],
        seq!['|'] != seq!['['],
        seq!['|'] != seq![']'],
        seq!['|'] != seq!['{'],
        seq!['|'] != seq!['}'],
        seq!['‖'] != seq!['('],
        seq!['‖'] != seq![')'],
        seq!['‖'] != seq!['['],
        seq!['‖'] != seq![']'],
        seq!['‖'] != seq!['{'],
        seq!['‖'] != seq!['}'],
        seq!['‖'] != seq!['|'],
{
    assert forall|a: char, b: char| a != b implies seq![a] != seq![b] by {
        assert(seq![a][0] == a);
        assert(seq![b][0] == b);
    }
}

/// The rule of `w` copies of `c`, as a row.
pub open spec fn rule_row(w: nat, c: char) -> Seq<Seq<char>> {
    Seq::new(w, |_i: int| seq![c])
}

/// A brace is a rule as wide as the content, right against it: an
/// underbrace `⏟` on the row just below the content's rows, an overbrace
/// `⏞` on the row just above them. A label lies beyond the brace, centered
/// in the content's width: below an underbrace, above an overbrace. The
/// baseline stays on the content's baseline row. (Each row is given by its
/// leading cells; a wider label widens the rows with blanks.)
pub proof fn lemma_brace_order(content: Block, label: Option<Block>, over: bool)
    requires
        content.wf(),
        label matches Some(l) ==> l.wf(),
    ensures
        ({
            let b = brace_block(content, label, over);
            let w = content.width();
            let h = content.height();
            let lh: nat = match label {
                Some(l) => l.height(),
                None => 0,
            };
            &&& b.wf()
            &&& b.height() == h + 1 + lh
            &&& !over ==> {
                &&& b.baseline == content.baseline
                &&& forall|i: int|
                    0 <= i < h ==> (#[trigger] b.rows[i]).subrange(0, w as int) == content.rows[i]
                &&& b.rows[h as int].subrange(0, w as int) == rule_row(w, '⏟')
                &&& label matches Some(l) ==> forall|j: int|
                    0 <= j < l.height() ==> (#[trigger] b.rows[h + 1 + j]).subrange(
                        0,
                        l.center_in(w).width() as int,
                    ) == l.center_in(w).rows[j]
            }
            &&& over ==> {
                &&& b.baseline == lh + 1 + content.baseline
                &&& label matches Some(l) ==> forall|j: int|
                    0 <= j < l.height() ==> (#[trigger] b.rows[j]).subrange(
                        0,
                        l.center_in(w).width() as int,
                    ) == l.center_in(w).rows[j]
                &&& b.rows[lh as int].subrange(0, w as int) == rule_row(w, '⏞')
                &&& forall|i: int|
                    0 <= i < h ==> (#[trigger] b.rows[lh + 1 + i]).subrange(0, w as int)
                        == content.rows[i]
            }
        }),
{
    let w = content.width();
    let h = content.height();
    let c = if over {
        '⏞'
    } else {
        '⏟'
    };
    let brace = Block::hline(c, w);
    assert(brace.wf());
    assert(brace.rows[0] =~= rule_row(w, c));
    let b = brace_block(content, label, over);
    match label {
        Some(l) => {
            lemma_center_in(l, w);
            let lc = l.center_in(w);
            if over {
                let top = Block::above(lc, brace, lc.height());
                lemma_above_dimensions(lc, brace, lc.height());
                lemma_above_dimensions(top, content, top.height() + content.baseline);
                assert(b == Block::above(top, content, top.height() + content.baseline));
                assert(top.width() >= lc.width());
                assert(top.width() >= w);
                assert forall|j: int| 0 <= j < l.height() implies (#[trigger] b.rows[j]).subrange(
                    0,
                    lc.width() as int,
                ) == lc.rows[j] by {
                    assert(b.rows[j].subrange(0, top.width() as int) == top.rows[j]);
                    assert(top.rows[j].subrange(0, lc.width() as int) == lc.rows[j]);
                    assert(b.rows[j].subrange(0, lc.width() as int) =~= top.rows[j].subrange(
                        0,
                        lc.width() as int,
                    ));
                }
                let k = l.height() as int;
                assert(b.rows[k].subrange(0, top.width() as int) == top.rows[k]);
                assert(top.rows[lc.height() + 0int].subrange(0, w as int) == brace.rows[0]);
                assert(b.rows[k].subrange(0, w as int) =~= top.rows[k].subrange(0, w as int));
            } else {
                let bottom = Block::above(brace, lc, 0);
                lemma_above_dimensions(brace, lc, 0);
                lemma_above_dimensions(content, bottom, content.baseline);
                assert(b == Block::above(content, bottom, content.baseline));
                assert(bottom.width() >= lc.width());
                assert(bottom.width() >= w);
                assert(b.rows[h + 0int].subrange(0, bottom.width() as int) == bottom.rows[0]);
                assert(bottom.rows[0].subrange(0, w as int) == brace.rows[0]);
                assert(b.rows[h as int].subrange(0, w as int) =~= bottom.rows[0].subrange(
                    0,
                    w as int,
                ));
                assert forall|j: int| 0 <= j < l.height() implies (#[trigger] b.rows[h + 1
                    + j]).subrange(0, lc.width() as int) == lc.rows[j] by {
                    assert(b.rows[h + (1 + j)].subrange(0, bottom.width() as int) == bottom.rows[1
                        + j]);
                    assert(bottom.rows[brace.height() + j].subrange(0, lc.width() as int)
                        == lc.rows[j]);
                    assert(b.rows[h + 1 + j].subrange(0, lc.width() as int) =~= bottom.rows[1
                        + j].subrange(0, lc.width() as int));
                }
            }
        },
        None => {
            if over {
                lemma_above_dimensions(brace, content, brace.height() + content.baseline);
                assert(b.rows[0].subrange(0, w as int) == brace.rows[0]);
            } else {
                lemma_above_dimensions(content, brace, content.baseline);
                assert(b.rows[h + 0int].subrange(0, w as int) == brace.rows[0]);
            }
        },
    }
}

/// An annotation stacked on a base: both are centered in the wider width.
/// Under the base, the base's rows come first and the baseline stays on the
/// base's baseline row; over it, the annotation's rows come first and the
/// baseline is still the base's, now below them.
pub proof fn lemma_stackrel_order(base: Block, annotation: Block, over: bool)
    requires
        base.wf(),
        annotation.wf(),
    ensures
        ({
            let s = stackrel_block(base, annotation, over);
            let w = max_nat(base.width(), annotation.width());
            let bc = base.center_in(w);
            let ac = annotation.center_in(w);
            &&& s.wf()
            &&& s.height() == base.height() + annotation.height()
            &&& !over ==> {
                &&& s.baseline == base.baseline
                &&& forall|i: int| 0 <= i < base.height() ==> #[trigger] s.rows[i] == bc.rows[i]
                &&& forall|j: int|
                    0 <= j < annotation.height() ==> #[trigger] s.rows[base.height() + j]
                        == ac.rows[j]
            }
            &&& over ==> {
                &&& s.baseline == annotation.height() + base.baseline
                &&& forall|j: int| 0 <= j < annotation.height() ==> #[trigger] s.rows[j] == ac.rows[j]
                &&& forall|i: int|
                    0 <= i < base.height() ==> #[trigger] s.rows[annotation.height() + i]
                        == bc.rows[i]
            }
        }),
{
    let w = max_nat(base.width(), annotation.width());
    lemma_center_in(base, w);
    lemma_center_in(annotation, w);
    let bc = base.center_in(w);
    let ac = annotation.center_in(w);
    let s = stackrel_block(base, annotation, over);
    let (top, bottom) = if over {
        (ac, bc)
    } else {
        (bc, ac)
    };
    let bl = if over {
        ac.height() + base.baseline
    } else {
        base.baseline
    };
    lemma_above_dimensions(top, bottom, bl);
    assert(s == Block::above(top, bottom, bl));
    assert forall|i: int| 0 <= i < top.height() implies #[trigger] s.rows[i] == top.rows[i] by {
        assert(s.rows[i] == crate::block::pad_row(top.rows[i], max_nat(top.width(), bottom.width())));
        assert(top.rows[i].len() == top.width());
        assert(top.width() == w);
    }
    assert forall|j: int| 0 <= j < bottom.height() implies #[trigger] s.rows[top.height() + j]
        == bottom.rows[j] by {
        assert(s.rows[top.height() + j] == crate::block::pad_row(
            bottom.rows[j],
            max_nat(top.width(), bottom.width()),
        ));
        assert(bottom.rows[j].len() == bottom.width());
        assert(bottom.width() == w);
        if top.height() > 0 {
            assert(top.width() == w);
        }
    }
}

/// A grid between two visible delimiters as tall as it, both on the grid's
/// middle row: every row starts with a piece of the left delimiter and ends
/// with a piece of the right one. A grid with no rows gets one row holding
/// the two delimiters as given.
proof fn lemma_between_delimiters(left: Seq<char>, right: Seq<char>, grid: Block)
    requires
        grid.wf(),
        grid.baseline == grid.height() / 2,
        left != seq!['.'],
        left.len() > 0,
        right != seq!['.'],
        right.len() > 0,
    ensures
        ({
            let h = grid.height();
            let dl = delimiter_block(left, h);
            let dr = delimiter_block(right, h);
            let m = dl.beside(grid).beside(dr);
            &&& m.height() == if h == 0 {
                1
            } else {
                h
            }
            &&& forall|i: int|
                0 <= i < m.height() ==> (#[trigger] m.rows[i])[0] == dl.rows[i][0] && m.rows[i].last()
                    == dr.rows[i][0]
            &&& h <= 1 ==> dl.rows[0] == seq![left] && dr.rows[0] == seq![right]
        }),
{
    let h = grid.height();
    let dl = delimiter_block(left, h);
    let dr = delimiter_block(right, h);
    lemma_delimiter_shape(left, h);
    lemma_delimiter_shape(right, h);
    assert forall|i: int| 0 <= i < dl.height() implies #[trigger] dl.rows[i].len() == 1 by {}
    assert forall|i: int| 0 <= i < dr.height() implies #[trigger] dr.rows[i].len() == 1 by {}
    if h <= 1 {
        assert(dl.rows[0] =~= seq![left]);
        assert(dr.rows[0] =~= seq![right]);
    }
    if h == 0 {
        assert(grid.rows =~= Seq::<Seq<Seq<char>>>::empty());
        assert(grid == Block::empty());
        lemma_beside_empty(dl);
        lemma_beside_level(dl, dr);
        let m = dl.beside(grid).beside(dr);
        assert(m == dl.beside(dr));
        assert(m.rows[0] == dl.rows[0] + dr.rows[0]);
    } else {
        lemma_beside_level(dl, grid);
        let lg = dl.beside(grid);
        crate::laws::lemma_beside_dimensions(dl, grid);
        lemma_beside_level(lg, dr);
        let m = lg.beside(dr);
        assert forall|i: int| 0 <= i < m.height() implies (#[trigger] m.rows[i])[0] == dl.rows[i][0]
            && m.rows[i].last() == dr.rows[i][0] by {
            assert(m.rows[i] == dl.rows[i] + grid.rows[i] + dr.rows[i]);
        }
    }
}

/// A matrix with a row is drawn between its delimiters, a piece of each on
/// every row: parentheses from `⎛ ⎜ ⎝` and `⎞ ⎟ ⎠`, brackets from `⎡ ⎢ ⎣`
/// and `⎤ ⎥ ⎦`, braces from `⎧ ⎨ ⎩` and `⎫ ⎬ ⎭`, single bars `│` (a
/// determinant) and double bars `‖` (a norm); one row tall, each is its own
/// character. A plain matrix is its grid alone.
pub proof fn lemma_matrix_delimiters(kind: MatrixStyle, rows: Seq<Seq<Block>>)
    requires
        rows.len() > 0,
    ensures
        ({
            let m = matrix_block(kind, rows);
            let h = m.height();
            &&& kind is Plain ==> m.rows == Block::from_rows(stack_rows(matrix_row_blocks(rows)).rows, 0).rows
            &&& !(kind is Plain) ==> h >= 1
            &&& kind is DoubleVBar ==> forall|i: int|
                0 <= i < h ==> #[trigger] m.rows[i][0] == seq!['‖'] && m.rows[i].last() == seq!['‖']
            &&& kind is VBar && h >= 2 ==> forall|i: int|
                0 <= i < h ==> #[trigger] m.rows[i][0] == seq!['│'] && m.rows[i].last() == seq!['│']
            &&& kind is VBar && h == 1 ==> m.rows[0][0] == seq!['|'] && m.rows[0].last() == seq!['|']
            &&& kind is Paren && h == 1 ==> m.rows[0][0] == seq!['('] && m.rows[0].last() == seq![')']
            &&& kind is Bracket && h == 1 ==> m.rows[0][0] == seq!['['] && m.rows[0].last() == seq![']']
            &&& kind is Brace && h == 1 ==> m.rows[0][0] == seq!['{'] && m.rows[0].last() == seq!['}']
            &&& kind is Paren && h >= 2 ==> {
                &&& m.rows[0][0] == seq!['⎛'] && m.rows[0].last() == seq!['⎞']
                &&& m.rows[h - 1][0] == seq!['⎝'] && m.rows[h - 1].last() == seq!['⎠']
                &&& forall|i: int|
                    0 < i < h - 1 ==> #[trigger] m.rows[i][0] == seq!['⎜'] && m.rows[i].last()
                        == seq!['⎟']
            }
            &&& kind is Bracket && h >= 2 ==> {
                &&& m.rows[0][0] == seq!['⎡'] && m.rows[0].last() == seq!['⎤']
                &&& m.rows[h - 1][0] == seq!['⎣'] && m.rows[h - 1].last() == seq!['⎦']
                &&& forall|i: int|
                    0 < i < h - 1 ==> #[trigger] m.rows[i][0] == seq!['⎢'] && m.rows[i].last()
                        == seq!['⎥']
            }
            &&& kind is Brace && h >= 2 ==> {
                &&& m.rows[0][0] == seq!['⎧'] && m.rows[0].last() == seq!['⎫']
                &&& m.rows[h - 1][0] == seq!['⎩'] && m.rows[h - 1].last() == seq!['⎭']
                &&& forall|i: int|
                    0 < i < h - 1 ==> #[trigger] m.rows[i][0] == seq!['⎨'] && m.rows[i].last()
                        == seq!['⎬']
            }
        }),
{
    let stacked = stack_rows(matrix_row_blocks(rows));
    let hs = stacked.height();
    let grid = Block::from_rows(stacked.rows, hs / 2);
    lemma_from_rows_wf(stacked.rows, hs / 2);
    let m = matrix_block(kind, rows);
    if !(kind is Plain) {
        lemma_distinct_delimiters();
        let (left, right) = matrix_delims(kind);
        lemma_between_delimiters(left, right, grid);
        let dl = delimiter_block(left, hs);
        let dr = delimiter_block(right, hs);
        assert(m == dl.beside(grid).beside(dr));
        if hs >= 2 {
            lemma_tall_delimiter_pieces(hs);
            assert(m.height() == hs);
            assert(m.rows[0][0] == dl.rows[0][0]);
            assert(m.rows[hs - 1][0] == dl.rows[hs - 1][0]);
        } else {
            assert(m.height() == 1);
            assert(m.rows[0][0] == dl.rows[0][0]);
            assert(dl.rows[0][0] == left);
            assert(dr.rows[0][0] == right);
        }
    }
}

/// The invisible delimiter `.`, and the empty one, are blank cells as tall
/// as asked.
pub proof fn lemma_invisible_delimiter(h: nat)
    ensures
        delimiter_block(seq!['.'], h).height() == h,
        delimiter_block(Seq::empty(), h).height() == h,
        forall|r: int| 0 <= r < h ==> #[trigger] delimiter_block(seq!['.'], h).rows[r] == seq![blank_cell()],
        forall|r: int|
            0 <= r < h ==> #[trigger] delimiter_block(Seq::empty(), h).rows[r] == seq![blank_cell()],
{
    lemma_delimiter_shape(seq!['.'], h);
    lemma_delimiter_shape(Seq::empty(), h);
    let rows = Seq::new(h, |_i: int| seq![blank_cell()]);
    crate::laws::lemma_uniform_rows(rows, 1);
}

/// A fraction draws its numerator above the bar `─` and its denominator
/// below it, each centered in the bar's width, two columns wider than the
/// wider of them; the baseline is the bar.
pub proof fn lemma_frac_order(num: Block, den: Block)
    requires
        num.wf(),
        den.wf(),
    ensures
        ({
            let f = crate::layout::frac_block(num, den);
            let bw = max_nat(num.width(), den.width()) + 2;
            &&& f.baseline == num.height()
            &&& f.rows[num.height() as int] == rule_row(bw, '─')
            &&& forall|i: int| 0 <= i < num.height() ==> #[trigger] f.rows[i] == num.center_in(bw).rows[i]
            &&& forall|j: int|
                0 <= j < den.height() ==> #[trigger] f.rows[num.height() + 1 + j] == den.center_in(
                    bw,
                ).rows[j]
        }),
{
    let bw = max_nat(num.width(), den.width()) + 2;
    let bar = Block::hline('─', bw);
    let nc = num.center_in(bw);
    let dc = den.center_in(bw);
    lemma_center_in(num, bw);
    lemma_center_in(den, bw);
    assert(bar.wf());
    crate::laws::lemma_frac_shape(num, den);
    let top = Block::above(nc, bar, 0);
    lemma_above_dimensions(nc, bar, 0);
    let f = Block::above(top, dc, (top.height() - 1) as nat);
    lemma_above_dimensions(top, dc, (top.height() - 1) as nat);
    assert(f == crate::layout::frac_block(num, den));
    assert(top.width() == bw);
    assert(bar.rows[0] =~= rule_row(bw, '─'));
    assert forall|i: int| 0 <= i < num.height() implies #[trigger] f.rows[i] == nc.rows[i] by {
        assert(f.rows[i] == crate::block::pad_row(top.rows[i], max_nat(top.width(), dc.width())));
        assert(top.rows[i] == crate::block::pad_row(nc.rows[i], max_nat(nc.width(), bar.width())));
        assert(nc.rows[i].len() == bw);
    }
    assert forall|j: int| 0 <= j < den.height() implies #[trigger] f.rows[num.height() + 1 + j]
        == dc.rows[j] by {
        assert(f.rows[top.height() + j] == crate::block::pad_row(
            dc.rows[j],
            max_nat(top.width(), dc.width()),
        ));
        assert(dc.rows[j].len() == bw);
    }
}

/// A named operator with a limit: the name on its own row, centered over
/// the limit, whose rows follow; the baseline is the name's row.
pub proof fn lemma_limit_order(name: Seq<char>, lower: Block)
    requires
        lower.wf(),
    ensures
        ({
            let b = crate::layout::limit_block(name, Some(lower));
            let w = max_nat(name.len(), lower.width());
            &&& b.height() == 1 + lower.height()
            &&& b.baseline == 0
            &&& b.rows[0] == Block::text(name).center_in(w).rows[0]
            &&& forall|j: int|
                0 <= j < lower.height() ==> #[trigger] b.rows[1 + j] == lower.center_in(w).rows[j]
        }),
{
    let nb = Block::text(name);
    let w = max_nat(nb.width(), lower.width());
    lemma_center_in(nb, w);
    lemma_center_in(lower, w);
    let nc = nb.center_in(w);
    let lc = lower.center_in(w);
    lemma_above_dimensions(nc, lc, 0);
    let b = crate::layout::limit_block(name, Some(lower));
    assert(b == Block::above(nc, lc, (nc.height() - 1) as nat));
    assert(nc.width() == w);
    assert(b.rows[0] == crate::block::pad_row(nc.rows[0], max_nat(nc.width(), lc.width())));
    assert forall|j: int| 0 <= j < lower.height() implies #[trigger] b.rows[1 + j] == lc.rows[j] by {
        assert(b.rows[nc.height() + j] == crate::block::pad_row(
            lc.rows[j],
            max_nat(nc.width(), lc.width()),
        ));
        assert(lc.rows[j].len() == w);
    }
}

/// A block of one row, on its baseline.
pub open spec fn one_row(b: Block) -> bool {
    b.wf() && b.height() == 1 && b.baseline == 0
}

/// The columns of a matrix are two blanks apart: a plain matrix of one row
/// of two one-row cells draws the first cell, two blanks, and the second.
pub proof fn lemma_matrix_column_gap(a: Block, b: Block)
    requires
        one_row(a),
        one_row(b),
    ensures
        matrix_block(MatrixStyle::Plain, seq![seq![a, b]]).rows == seq![a.rows[0] + blank_row(2)
            + b.rows[0]],
{
    let rows = seq![seq![a, b]];
    let widths = crate::layout::column_widths(rows);
    assert(rows.drop_last() =~= Seq::<Seq<Block>>::empty());
    assert(crate::layout::max_cols(rows.drop_last()) == 0);
    assert(crate::layout::col_width(rows.drop_last(), 0) == 0);
    assert(crate::layout::col_width(rows.drop_last(), 1) == 0);
    assert(rows.last() == seq![a, b]);
    assert(rows.last().len() == 2);
    assert(crate::layout::max_cols(rows) == 2);
    assert(crate::layout::col_width(rows, 0) == a.width());
    assert(crate::layout::col_width(rows, 1) == b.width());
    assert(widths =~= seq![a.width(), b.width()]);
    let cells = seq![a, b];
    assert(cells.drop_last() =~= seq![a]);
    assert(seq![a].drop_last() =~= Seq::<Block>::empty());
    assert(a.center_in(a.width()) == a);
    assert(b.center_in(b.width()) == b);
    let first = crate::layout::matrix_row_block(seq![a], widths);
    crate::laws::lemma_beside_empty(a);
    assert(crate::layout::matrix_row_block(seq![a].drop_last(), widths) == Block::empty());
    assert(seq![a].last() == a);
    assert(widths[0] == a.width());
    assert(first == a);
    let gap = Block::text(seq![' ', ' ']);
    assert(gap.rows[0] =~= blank_row(2));
    lemma_beside_level(a, gap);
    lemma_beside_level(a.beside(gap), b);
    let row = crate::layout::matrix_row_block(cells, widths);
    assert(row == a.beside(gap).beside(b));
    assert(row.rows[0] == a.rows[0] + blank_row(2) + b.rows[0]);
    assert(row.rows =~= seq![a.rows[0] + blank_row(2) + b.rows[0]]);
    let blocks = matrix_row_blocks(rows);
    assert(blocks =~= seq![row]);
    assert(seq![row].drop_last() =~= Seq::<Block>::empty());
    assert(stack_rows(seq![row].drop_last()) == Block::empty());
    assert(seq![row].last() == row);
    assert(stack_rows(seq![row]) == row);
    assert(stack_rows(blocks) == row);
    crate::laws::lemma_uniform_rows(row.rows, row.width());
}

/// A case with a condition draws its value, two blanks, `if`, a blank and
/// the condition, on one row for one-row parts.
pub proof fn lemma_case_row(value: Block, condition: Block)
    requires
        one_row(value),
        one_row(condition),
    ensures
        crate::layout::case_block(value, Some(condition)).rows == seq![value.rows[0]
            + seq![seq![' '], seq![' '], seq!['i'], seq!['f'], seq![' ']] + condition.rows[0]],
        crate::layout::case_block(value, Some(condition)).baseline == 0,
{
    let sep = Block::text(seq![' ', ' ', 'i', 'f', ' ']);
    assert(sep.rows[0] =~= seq![seq![' '], seq![' '], seq!['i'], seq!['f'], seq![' ']]);
    lemma_beside_level(value, sep);
    lemma_beside_level(value.beside(sep), condition);
    let c = crate::layout::case_block(value, Some(condition));
    assert(c.rows =~= seq![value.rows[0] + sep.rows[0] + condition.rows[0]]);
}

/// Cases stand right of a left brace as tall as they are: `⎧` on the first
/// row, `⎩` on the last and `⎨`, its cusp pointing left, between; a brace
/// one row tall is `{`.
pub proof fn lemma_cases_brace(rows: Seq<Block>)
    ensures
        ({
            let c = crate::layout::cases_block(rows);
            let h = c.height();
            &&& h >= 1
            &&& h == 1 ==> c.rows[0][0] == seq!['{']
            &&& h >= 2 ==> {
                &&& c.rows[0][0] == seq!['⎧']
                &&& c.rows[h - 1][0] == seq!['⎩']
                &&& forall|i: int| 0 < i < h - 1 ==> #[trigger] c.rows[i][0] == seq!['⎨']
            }
        }),
{
    let w = crate::layout::widest(rows);
    let stacked = stack_rows(rows.map_values(|b: Block| crate::layout::case_row_block(b, w)));
    let hs = stacked.height();
    let grid = Block::from_rows(stacked.rows, hs / 2);
    lemma_from_rows_wf(stacked.rows, hs / 2);
    lemma_distinct_delimiters();
    let dl = delimiter_block(seq!['{'], hs);
    lemma_delimiter_shape(seq!['{'], hs);
    let c = crate::layout::cases_block(rows);
    assert(c == dl.beside(grid));
    if hs == 0 {
        assert(grid.rows =~= Seq::<Seq<Seq<char>>>::empty());
        assert(grid == Block::empty());
        lemma_beside_empty(dl);
        assert(dl.rows[0] =~= seq![seq!['{']]);
    } else {
        lemma_beside_level(dl, grid);
        if hs >= 2 {
            lemma_tall_delimiter_pieces(hs);
        } else {
            assert(dl.rows[0] =~= seq![seq!['{']]);
        }
        assert forall|i: int| 0 <= i < hs implies #[trigger] c.rows[i][0] == dl.rows[i][0] by {
            assert(c.rows[i] == dl.rows[i] + grid.rows[i]);
        }
    }
}

/// Stacked blocks keep their order: the first block's rows come first, the
/// second's right after them, each at the left of its row.
pub proof fn lemma_stack_order(a: Block, b: Block)
    requires
        a.wf(),
        b.wf(),
        a.height() > 0,
    ensures
        ({
            let s = stack_rows(seq![a, b]);
            &&& s.height() == a.height() + b.height()
            &&& forall|i: int|
                0 <= i < a.height() ==> (#[trigger] s.rows[i]).subrange(0, a.width() as int)
                    == a.rows[i]
            &&& forall|j: int|
                0 <= j < b.height() ==> (#[trigger] s.rows[a.height() + j]).subrange(
                    0,
                    b.width() as int,
                ) == b.rows[j]
        }),
{
    assert(seq![a, b].drop_last() =~= seq![a]);
    assert(seq![a].drop_last() =~= Seq::<Block>::empty());
    assert(stack_rows(seq![a].drop_last()) == Block::empty());
    assert(stack_rows(seq![a]) == a);
    lemma_above_dimensions(a, b, a.height() / 2);
}

/// A big operator's upper limit stands above the operator and its lower
/// limit below, each centered in the widest of the three; the operator's
/// rows lie between them.
pub proof fn lemma_bigop_limits(symbol: Seq<char>, lower: Block, upper: Block)
    requires
        lower.wf(),
        upper.wf(),
    ensures
        ({
            let b = crate::layout::bigop_block(symbol, Some(lower), Some(upper));
            let op = crate::layout::operator_block(symbol);
            let w = max_nat(max_nat(op.width(), upper.width()), lower.width());
            let uc = upper.center_in(w);
            let lc = lower.center_in(w);
            &&& b.height() == upper.height() + op.height() + lower.height()
            &&& forall|i: int| 0 <= i < upper.height() ==> #[trigger] b.rows[i] == uc.rows[i]
            &&& forall|j: int|
                0 <= j < lower.height() ==> #[trigger] b.rows[upper.height() + op.height() + j]
                    == lc.rows[j]
        }),
{
    let op = crate::layout::operator_block(symbol);
    crate::laws::lemma_operator_shape(symbol);
    let w = max_nat(max_nat(op.width(), upper.width()), lower.width());
    lemma_center_in(op, w);
    lemma_center_in(upper, w);
    lemma_center_in(lower, w);
    let oc = op.center_in(w);
    let uc = upper.center_in(w);
    let lc = lower.center_in(w);
    let with_upper = Block::above(uc, oc, uc.height());
    lemma_above_dimensions(uc, oc, uc.height());
    let baseline = (with_upper.height() - op.height() + op.baseline) as nat;
    let with_lower = Block::above(with_upper, lc, baseline);
    lemma_above_dimensions(with_upper, lc, baseline);
    assert(oc.width() == w);
    assert(with_upper.width() == w);
    crate::laws::lemma_uniform_rows(with_lower.rows, with_lower.width());
    let b = crate::layout::bigop_block(symbol, Some(lower), Some(upper));
    assert(b.rows == Block::from_rows(with_lower.rows, 0).rows);
    assert(b.rows == with_lower.rows);
    assert forall|i: int| 0 <= i < upper.height() implies #[trigger] b.rows[i] == uc.rows[i] by {
        assert(with_lower.rows[i] == crate::block::pad_row(with_upper.rows[i], w));
        assert(with_upper.rows[i] == crate::block::pad_row(uc.rows[i], w));
        assert(uc.rows[i].len() == w);
    }
    assert forall|j: int| 0 <= j < lower.height() implies #[trigger] b.rows[upper.height()
        + op.height() + j] == lc.rows[j] by {
        assert(with_lower.rows[with_upper.height() + j] == crate::block::pad_row(
            lc.rows[j],
            max_nat(with_upper.width(), lc.width()),
        ));
        assert(lc.rows[j].len() == w);
    }
}

} // verus!
