//! What holds of blocks and layouts whatever they hold.
use vstd::prelude::*;

use crate::block::{
    Block, blank_cell, blank_row, lemma_max_row_len, max_nat, max_row_len, min_nat, pad_row,
};
use crate::layout::{
    bigop_block, case_row_block, cases_block, opt_width, delimited_block, delimiter_block, delimiter_pieces, frac_block, layout_spec,
    integral_rows, column_widths, matrix_block, matrix_delims, matrix_row_block, matrix_row_blocks, rows_spec, cases_spec, cells_spec, operator_block, seq_spec, spanning_delimiter, sqrt_block, stack_rows, sub_block,
    sup_block, sup_sub_rows, supsub_block, widest,
};
use crate::font::{font_block, font_cell, font_row};
use crate::node::{FontFamily, MathNode, MatrixStyle};

verus! {

/// Blanks of two widths side by side are blanks of the sum of the widths.
pub proof fn lemma_blank_rows_concat(a: nat, b: nat)
    ensures
        blank_row(a) + blank_row(b) == blank_row(a + b),
{
    assert(blank_row(a) + blank_row(b) =~= blank_row(a + b));
}

/// A row of a well-formed block, or a blank row in its place, is as wide as
/// the block.
pub proof fn lemma_row_or_blank_len(m: Block, i: int)
    requires
        m.wf(),
    ensures
        m.row_or_blank(i).len() == m.width(),
{
}

/// Side by side, two well-formed blocks make a well-formed block as wide as
/// both together, with the lower of their baselines, reaching as far above
/// its baseline as the taller part above and as far below as the deeper
/// part below.
pub proof fn lemma_beside_dimensions(a: Block, b: Block)
    requires
        a.wf(),
        b.wf(),
    ensures
        a.beside(b).wf(),
        a.beside(b).baseline == max_nat(a.baseline, b.baseline),
        a.beside(b).height() == max_nat(a.baseline, b.baseline) + max_nat(
            (a.height() - a.baseline) as nat,
            (b.height() - b.baseline) as nat,
        ),
        a.beside(b).height() > 0 ==> a.beside(b).width() == a.width() + b.width(),
{
    let r = a.beside(b);
    assert forall|i: int| 0 <= i < r.rows.len() implies #[trigger] r.rows[i].len() == r.width() by {
        lemma_row_or_blank_len(a, i - (r.baseline - a.baseline));
        lemma_row_or_blank_len(b, i - (r.baseline - b.baseline));
        lemma_row_or_blank_len(a, 0 - (r.baseline - a.baseline));
        lemma_row_or_blank_len(b, 0 - (r.baseline - b.baseline));
    }
    if r.height() > 0 {
        lemma_row_or_blank_len(a, 0 - (r.baseline - a.baseline));
        lemma_row_or_blank_len(b, 0 - (r.baseline - b.baseline));
    }
}

/// Side by side, each row of the left block stands, unchanged, at the left
/// of the result, shifted down so that its baseline is the result's; each
/// row of the right block stands at the right, shifted the same way. So
/// both baseline rows lie on the result's baseline row.
pub proof fn lemma_beside_aligns_baselines(a: Block, b: Block)
    requires
        a.wf(),
        b.wf(),
    ensures
        forall|i: int|
            0 <= i < a.height() ==> (#[trigger] a.beside(b).rows[i + a.beside(b).baseline
                - a.baseline]).subrange(0, a.width() as int) == a.rows[i],
        forall|j: int|
            0 <= j < b.height() ==> (#[trigger] a.beside(b).rows[j + a.beside(b).baseline
                - b.baseline]).subrange(a.width() as int, (a.width() + b.width()) as int) == b.rows[j],
{
    let r = a.beside(b);
    assert forall|i: int| 0 <= i < a.height() implies (#[trigger] r.rows[i + r.baseline
        - a.baseline]).subrange(0, a.width() as int) == a.rows[i] by {
        let k = i + r.baseline - a.baseline;
        lemma_row_or_blank_len(b, k - (r.baseline - b.baseline));
        assert(r.rows[k] == a.rows[i] + b.row_or_blank(k - (r.baseline - b.baseline)));
        assert(r.rows[k].subrange(0, a.width() as int) =~= a.rows[i]);
    }
    assert forall|j: int| 0 <= j < b.height() implies (#[trigger] r.rows[j + r.baseline
        - b.baseline]).subrange(a.width() as int, (a.width() + b.width()) as int) == b.rows[j] by {
        let k = j + r.baseline - b.baseline;
        lemma_row_or_blank_len(a, k - (r.baseline - a.baseline));
        assert(r.rows[k] == a.row_or_blank(k - (r.baseline - a.baseline)) + b.rows[j]);
        assert(r.rows[k].subrange(a.width() as int, (a.width() + b.width()) as int) =~= b.rows[j]);
    }
}

/// The block with no rows changes nothing beside a well-formed block, on
/// either side.
pub proof fn lemma_beside_empty(b: Block)
    requires
        b.wf(),
    ensures
        Block::empty().beside(b) == b,
        b.beside(Block::empty()) == b,
{
    let l = Block::empty().beside(b);
    assert forall|r: int| 0 <= r < l.rows.len() implies #[trigger] l.rows[r] == b.rows[r] by {
        assert(blank_row(0) + b.rows[r] =~= b.rows[r]);
    }
    assert(l.rows =~= b.rows);
    let rr = b.beside(Block::empty());
    assert forall|r: int| 0 <= r < rr.rows.len() implies #[trigger] rr.rows[r] == b.rows[r] by {
        assert(b.rows[r] + blank_row(0) =~= b.rows[r]);
    }
    assert(rr.rows =~= b.rows);
}

/// Placing blocks side by side does not depend on how they are grouped.
pub proof fn lemma_beside_associative(a: Block, b: Block, c: Block)
    requires
        a.wf(),
        b.wf(),
        c.wf(),
    ensures
        a.beside(b).beside(c) == a.beside(b.beside(c)),
{
    let ab = a.beside(b);
    let bc = b.beside(c);
    let l = ab.beside(c);
    let r = a.beside(bc);
    lemma_beside_dimensions(a, b);
    lemma_beside_dimensions(b, c);
    let m = l.baseline;
    assert(r.baseline == m);
    assert(l.rows.len() == r.rows.len());
    assert forall|k: int| 0 <= k < l.rows.len() implies #[trigger] l.rows[k] == r.rows[k] by {
        let ra = a.row_or_blank(k - (m - a.baseline));
        let rb = b.row_or_blank(k - (m - b.baseline));
        let rc = c.row_or_blank(k - (m - c.baseline));
        // The left grouping
        let i = k - (m - ab.baseline);
        if 0 <= i < ab.rows.len() {
            assert(ab.row_or_blank(i) == ra + rb);
        } else {
            lemma_row_or_blank_len(a, k - (m - a.baseline));
            lemma_row_or_blank_len(b, k - (m - b.baseline));
            lemma_blank_rows_concat(a.width(), b.width());
            assert(ra == blank_row(a.width()));
            assert(rb == blank_row(b.width()));
            if ab.rows.len() > 0 {
                lemma_row_or_blank_len(a, 0 - (ab.baseline - a.baseline));
                lemma_row_or_blank_len(b, 0 - (ab.baseline - b.baseline));
            }
            assert(ab.row_or_blank(i) == ra + rb);
        }
        // The right grouping
        let j = k - (m - bc.baseline);
        if 0 <= j < bc.rows.len() {
            assert(bc.row_or_blank(j) == rb + rc);
        } else {
            lemma_row_or_blank_len(b, k - (m - b.baseline));
            lemma_row_or_blank_len(c, k - (m - c.baseline));
            lemma_blank_rows_concat(b.width(), c.width());
            assert(rb == blank_row(b.width()));
            assert(rc == blank_row(c.width()));
            if bc.rows.len() > 0 {
                lemma_row_or_blank_len(b, 0 - (bc.baseline - b.baseline));
                lemma_row_or_blank_len(c, 0 - (bc.baseline - c.baseline));
            }
            assert(bc.row_or_blank(j) == rb + rc);
        }
        assert(l.rows[k] == (ra + rb) + rc);
        assert(r.rows[k] == ra + (rb + rc));
        assert((ra + rb) + rc =~= ra + (rb + rc));
    }
    assert(l.rows =~= r.rows);
}


/// Stacking keeps the rows of both blocks, the top's first, each padded on
/// the right to the wider block; the baseline is the one asked for, or the
/// height where that is smaller.
pub proof fn lemma_above_dimensions(top: Block, bottom: Block, baseline: nat)
    requires
        top.wf(),
        bottom.wf(),
    ensures
        Block::above(top, bottom, baseline).wf(),
        Block::above(top, bottom, baseline).height() == top.height() + bottom.height(),
        Block::above(top, bottom, baseline).height() > 0 ==> Block::above(
            top,
            bottom,
            baseline,
        ).width() == max_nat(top.width(), bottom.width()),
        Block::above(top, bottom, baseline).baseline == min_nat(
            baseline,
            top.height() + bottom.height(),
        ),
        forall|i: int|
            0 <= i < top.height() ==> (#[trigger] Block::above(top, bottom, baseline).rows[i]).subrange(
                0,
                top.width() as int,
            ) == top.rows[i],
        forall|j: int|
            0 <= j < bottom.height() ==> (#[trigger] Block::above(top, bottom, baseline).rows[top.height()
                + j]).subrange(0, bottom.width() as int) == bottom.rows[j],
{
    let r = Block::above(top, bottom, baseline);
    let w = max_nat(top.width(), bottom.width());
    assert forall|i: int| 0 <= i < r.rows.len() implies #[trigger] r.rows[i].len() == r.width() by {
        if top.height() > 0 {
            assert(r.rows[0] == pad_row(top.rows[0], w));
        } else {
            assert(r.rows[0] == pad_row(bottom.rows[0], w));
        }
        if i < top.height() {
            assert(r.rows[i] == pad_row(top.rows[i], w));
        } else {
            assert(r.rows[i] == pad_row(bottom.rows[i - top.height()], w));
        }
    }
    if r.height() > 0 {
        if top.height() > 0 {
            assert(r.rows[0] == pad_row(top.rows[0], w));
        } else {
            assert(r.rows[0] == pad_row(bottom.rows[0], w));
        }
    }
    assert forall|i: int| 0 <= i < top.height() implies (#[trigger] r.rows[i]).subrange(
        0,
        top.width() as int,
    ) == top.rows[i] by {
        assert(r.rows[i] == pad_row(top.rows[i], w));
        assert(pad_row(top.rows[i], w).subrange(0, top.width() as int) =~= top.rows[i]);
    }
    assert forall|j: int| 0 <= j < bottom.height() implies (#[trigger] r.rows[top.height()
        + j]).subrange(0, bottom.width() as int) == bottom.rows[j] by {
        assert(r.rows[top.height() + j] == pad_row(bottom.rows[j], w));
        assert(pad_row(bottom.rows[j], w).subrange(0, bottom.width() as int) =~= bottom.rows[j]);
    }
}

/// Centering keeps the height and the baseline, widens a block to `w`
/// columns when it is narrower, and puts its rows, unchanged, after
/// `(w - width) / 2` blanks. Centering twice in the same width changes
/// nothing more.
pub proof fn lemma_center_in(m: Block, w: nat)
    requires
        m.wf(),
    ensures
        m.center_in(w).wf(),
        m.center_in(w).height() == m.height(),
        m.center_in(w).baseline == m.baseline,
        m.height() > 0 ==> m.center_in(w).width() == max_nat(w, m.width()),
        forall|i: int|
            0 <= i < m.height() ==> (#[trigger] m.center_in(w).rows[i]).subrange(
                if w > m.width() {
                    (w - m.width()) / 2
                } else {
                    0
                },
                if w > m.width() {
                    (w - m.width()) / 2 + m.width()
                } else {
                    m.width() as int
                },
            ) == m.rows[i],
        m.center_in(w).center_in(w) == m.center_in(w),
{
    let c = m.center_in(w);
    if w > m.width() {
        let left = ((w - m.width()) / 2) as nat;
        let right = (w - m.width() - left) as nat;
        assert forall|i: int| 0 <= i < c.rows.len() implies #[trigger] c.rows[i].len() == c.width() by {
            assert(c.rows[i] == blank_row(left) + m.rows[i] + blank_row(right));
            assert(c.rows[0] == blank_row(left) + m.rows[0] + blank_row(right));
        }
        if m.height() > 0 {
            assert(c.rows[0] == blank_row(left) + m.rows[0] + blank_row(right));
        }
        assert forall|i: int| 0 <= i < m.height() implies (#[trigger] c.rows[i]).subrange(
            left as int,
            (left + m.width()) as int,
        ) == m.rows[i] by {
            assert(c.rows[i] == blank_row(left) + m.rows[i] + blank_row(right));
            assert((blank_row(left) + m.rows[i] + blank_row(right)).subrange(
                left as int,
                (left + m.width()) as int,
            ) =~= m.rows[i]);
        }
    } else {
        assert forall|i: int| 0 <= i < m.height() implies (#[trigger] c.rows[i]).subrange(
            0,
            m.width() as int,
        ) == m.rows[i] by {
            assert(m.rows[i].subrange(0, m.width() as int) =~= m.rows[i]);
        }
    }
    if m.height() > 0 {
        assert(c.width() >= w);
    } else {
        assert(c.rows.len() == 0);
        assert(c.center_in(w).rows =~= c.rows);
    }
}

/// A fraction is as tall as its numerator and denominator and the bar
/// together; its baseline is the bar, a rule two columns wider than the
/// wider part, which is as wide as the fraction.
pub proof fn lemma_frac_shape(num: Block, den: Block)
    requires
        num.wf(),
        den.wf(),
    ensures
        frac_block(num, den).wf(),
        frac_block(num, den).height() == num.height() + 1 + den.height(),
        frac_block(num, den).baseline == num.height(),
        frac_block(num, den).width() == max_nat(num.width(), den.width()) + 2,
        frac_block(num, den).rows[num.height() as int] == Seq::new(
            max_nat(num.width(), den.width()) + 2,
            |_i: int| seq!['─'],
        ),
{
    let bw = max_nat(num.width(), den.width()) + 2;
    let bar = Block::hline('─', bw);
    let nc = num.center_in(bw);
    let dc = den.center_in(bw);
    lemma_center_in(num, bw);
    lemma_center_in(den, bw);
    assert(bar.wf());
    let top = Block::above(nc, bar, 0);
    lemma_above_dimensions(nc, bar, 0);
    let f = Block::above(top, dc, (top.height() - 1) as nat);
    lemma_above_dimensions(top, dc, (top.height() - 1) as nat);
    assert(f == frac_block(num, den));
    assert(nc.height() == num.height());
    assert(top.rows[nc.height() as int] == pad_row(bar.rows[0], max_nat(nc.width(), bar.width())));
    assert(top.rows[nc.height() as int] == bar.rows[0]);
    assert(f.rows[num.height() as int] == pad_row(top.rows[num.height() as int], max_nat(top.width(), dc.width())));
}

/// A superscript stands wholly above its base, to the right of it: the
/// block is as tall as both, the base's rows come after the superscript's,
/// unchanged at the left, and the superscript's rows stand after the base's
/// width.
pub proof fn lemma_superscript_above(base: Block, sup: Block)
    requires
        base.wf(),
        sup.wf(),
    ensures
        sup_block(base, sup).height() == sup.height() + base.height(),
        base.baseline < base.height() ==> sup_block(base, sup).baseline == sup.height()
            + base.baseline,
        forall|i: int|
            0 <= i < base.height() ==> (#[trigger] sup_block(base, sup).rows[sup.height() + i]).subrange(
                0,
                base.width() as int,
            ) == base.rows[i],
        forall|j: int|
            0 <= j < sup.height() ==> (#[trigger] sup_block(base, sup).rows[j]).subrange(
                base.width() as int,
                (base.width() + sup.width()) as int,
            ) == sup.rows[j],
{
    let rows = sup_sub_rows(base.rows, base.width(), sup.rows, sup.width(), Seq::empty(), 0);
    let sw = max_nat(sup.width(), 0);
    let sup_part = sup.rows.map_values(|row: Seq<Seq<char>>| blank_row(base.width()) + pad_row(row, sw));
    let base_part = base.rows.map_values(|row: Seq<Seq<char>>| row + blank_row(sw));
    let sub_part = Seq::<Seq<Seq<char>>>::empty().map_values(
        |row: Seq<Seq<char>>| blank_row(base.width()) + pad_row(row, sw),
    );
    assert(rows == sup_part + base_part + sub_part);
    assert(sub_part.len() == 0);
    assert forall|i: int| 0 <= i < rows.len() implies #[trigger] rows[i].len() == base.width() + sup.width() by {
        if i < sup.height() {
            assert(rows[i] == sup_part[i]);
        } else {
            assert(rows[i] == base_part[i - sup.height()]);
        }
    }
    lemma_uniform_rows(rows, base.width() + sup.width());
    let r = sup_block(base, sup);
    assert(r.rows =~= rows);
    assert forall|i: int| 0 <= i < base.height() implies (#[trigger] r.rows[sup.height() + i]).subrange(
        0,
        base.width() as int,
    ) == base.rows[i] by {
        assert(rows[sup.height() + i] == base_part[i]);
        assert((base.rows[i] + blank_row(sw)).subrange(0, base.width() as int) =~= base.rows[i]);
    }
    assert forall|j: int| 0 <= j < sup.height() implies (#[trigger] r.rows[j]).subrange(
        base.width() as int,
        (base.width() + sup.width()) as int,
    ) == sup.rows[j] by {
        assert(rows[j] == sup_part[j]);
        assert(pad_row(sup.rows[j], sw) == sup.rows[j]);
        assert((blank_row(base.width()) + sup.rows[j]).subrange(
            base.width() as int,
            (base.width() + sup.width()) as int,
        ) =~= sup.rows[j]);
    }
}

/// Rows all of one length are their own padding to the longest.
pub proof fn lemma_uniform_rows(rows: Seq<Seq<Seq<char>>>, len: nat)
    requires
        forall|i: int| 0 <= i < rows.len() ==> #[trigger] rows[i].len() == len,
    ensures
        rows.len() > 0 ==> max_row_len(rows) == len,
        Block::from_rows(rows, 0).rows == rows,
    decreases rows.len(),
{
    if rows.len() > 0 {
        lemma_uniform_rows(rows.drop_last(), len);
        assert(rows.drop_last().len() > 0 ==> rows.drop_last()[0].len() == len);
    }
    let p = Block::from_rows(rows, 0);
    assert forall|i: int| 0 <= i < rows.len() implies #[trigger] p.rows[i] == rows[i] by {
        assert(pad_row(rows[i], max_row_len(rows)) == rows[i]);
    }
    assert(p.rows =~= rows);
}


/// A subscript stands wholly below its base, to the right of it: the block
/// is as tall as both, the base's rows come first, unchanged at the left,
/// and the subscript's rows follow after the base's width.
pub proof fn lemma_subscript_below(base: Block, sub: Block)
    requires
        base.wf(),
        sub.wf(),
    ensures
        sub_block(base, sub).height() == base.height() + sub.height(),
        base.baseline < base.height() ==> sub_block(base, sub).baseline == base.baseline,
        forall|i: int|
            0 <= i < base.height() ==> (#[trigger] sub_block(base, sub).rows[i]).subrange(
                0,
                base.width() as int,
            ) == base.rows[i],
        forall|j: int|
            0 <= j < sub.height() ==> (#[trigger] sub_block(base, sub).rows[base.height() + j]).subrange(
                base.width() as int,
                (base.width() + sub.width()) as int,
            ) == sub.rows[j],
{
    let rows = sup_sub_rows(base.rows, base.width(), Seq::empty(), 0, sub.rows, sub.width());
    let sw = max_nat(0, sub.width());
    let sup_part = Seq::<Seq<Seq<char>>>::empty().map_values(
        |row: Seq<Seq<char>>| blank_row(base.width()) + pad_row(row, sw),
    );
    let base_part = base.rows.map_values(|row: Seq<Seq<char>>| row + blank_row(sw));
    let sub_part = sub.rows.map_values(|row: Seq<Seq<char>>| blank_row(base.width()) + pad_row(row, sw));
    assert(rows == sup_part + base_part + sub_part);
    assert(sup_part.len() == 0);
    assert forall|i: int| 0 <= i < rows.len() implies #[trigger] rows[i].len() == base.width() + sub.width() by {
        if i < base.height() {
            assert(rows[i] == base_part[i]);
        } else {
            assert(rows[i] == sub_part[i - base.height()]);
        }
    }
    lemma_uniform_rows(rows, base.width() + sub.width());
    let r = sub_block(base, sub);
    assert(r.rows =~= rows);
    assert forall|i: int| 0 <= i < base.height() implies (#[trigger] r.rows[i]).subrange(
        0,
        base.width() as int,
    ) == base.rows[i] by {
        assert(rows[i] == base_part[i]);
        assert((base.rows[i] + blank_row(sw)).subrange(0, base.width() as int) =~= base.rows[i]);
    }
    assert forall|j: int| 0 <= j < sub.height() implies (#[trigger] r.rows[base.height() + j]).subrange(
        base.width() as int,
        (base.width() + sub.width()) as int,
    ) == sub.rows[j] by {
        assert(rows[base.height() + j] == sub_part[j]);
        assert(pad_row(sub.rows[j], sw) == sub.rows[j]);
        assert((blank_row(base.width()) + sub.rows[j]).subrange(
            base.width() as int,
            (base.width() + sub.width()) as int,
        ) =~= sub.rows[j]);
    }
}

/// Rows padded to the longest, with the baseline kept within them, always
/// make a well-formed block.
pub proof fn lemma_from_rows_wf(rows: Seq<Seq<Seq<char>>>, baseline: nat)
    ensures
        Block::from_rows(rows, baseline).wf(),
        Block::from_rows(rows, baseline).height() == rows.len(),
{
    let p = Block::from_rows(rows, baseline);
    let m = max_row_len(rows);
    assert forall|i: int| 0 <= i < p.rows.len() implies #[trigger] p.rows[i].len() == m by {
        lemma_max_row_len(rows, i);
        assert(p.rows[i] == pad_row(rows[i], m));
    }
    if p.rows.len() > 0 {
        assert(p.rows[0].len() == m);
    }
}

/// A delimiter is one column wide and as tall as asked, except that a
/// visible delimiter asked to be at most one row tall is one row tall; its
/// baseline is at half the height asked for (the top row for a one-row
/// visible delimiter). A tall visible delimiter has its top piece on its
/// first row, its bottom piece on its last and its middle piece between.
pub proof fn lemma_delimiter_shape(delim: Seq<char>, height: nat)
    ensures
        delimiter_block(delim, height).wf(),
        delimiter_block(delim, height).height() == if delim != seq!['.'] && delim.len() > 0
            && height <= 1 {
            1
        } else {
            height
        },
        delimiter_block(delim, height).height() > 0 ==> delimiter_block(delim, height).width() == 1,
        delimiter_block(delim, height).baseline == if delim != seq!['.'] && delim.len() > 0
            && height <= 1 {
            0
        } else {
            height / 2
        },
        delim != seq!['.'] && delim.len() > 0 && height > 1 ==> {
            let (top, mid, bot) = delimiter_pieces(delim);
            &&& delimiter_block(delim, height).rows[0] == seq![top]
            &&& delimiter_block(delim, height).rows[height - 1] == seq![bot]
            &&& forall|r: int|
                0 < r < height - 1 ==> #[trigger] delimiter_block(delim, height).rows[r] == seq![mid]
        },
{
    if delim == seq!['.'] || delim.len() == 0 {
        let rows = Seq::new(height, |_i: int| seq![blank_cell()]);
        lemma_uniform_rows(rows, 1);
        lemma_from_rows_wf(rows, height / 2);
    } else if height <= 1 {
        let rows = seq![seq![delim]];
        lemma_uniform_rows(rows, 1);
        lemma_from_rows_wf(rows, 0);
    } else {
        let (top, mid, bot) = delimiter_pieces(delim);
        let rows = Seq::new(
            height,
            |r: int|
                if r == 0 {
                    seq![top]
                } else if r == height - 1 {
                    seq![bot]
                } else {
                    seq![mid]
                },
        );
        lemma_uniform_rows(rows, 1);
        lemma_from_rows_wf(rows, height / 2);
        let d = delimiter_block(delim, height);
        assert(d.rows == Block::from_rows(rows, 0).rows);
    }
}

/// Two well-formed blocks of one height with one baseline, side by side:
/// each row is the first block's row followed by the second's.
pub proof fn lemma_beside_level(a: Block, b: Block)
    requires
        a.wf(),
        b.wf(),
        a.height() == b.height(),
        a.baseline == b.baseline,
    ensures
        a.beside(b).height() == a.height(),
        a.beside(b).baseline == a.baseline,
        forall|i: int| 0 <= i < a.height() ==> #[trigger] a.beside(b).rows[i] == a.rows[i] + b.rows[i],
{
}

/// Delimiters span what they enclose: around content at least one row
/// tall, the result is as tall as the content, one column wider on each
/// side, keeps the content's baseline, and each of its rows is a piece of
/// the left delimiter, the content's row and a piece of the right one.
pub proof fn lemma_delimited_spans(left: Seq<char>, right: Seq<char>, content: Block)
    requires
        content.wf(),
        content.height() >= 1,
    ensures
        ({
            let r = delimited_block(left, right, content);
            let h = content.height();
            &&& r.wf()
            &&& r.height() == h
            &&& r.width() == content.width() + 2
            &&& r.baseline == content.baseline
            &&& forall|i: int|
                0 <= i < h ==> #[trigger] r.rows[i] == delimiter_block(left, h).rows[i]
                    + content.rows[i] + delimiter_block(right, h).rows[i]
        }),
{
    let h = content.height();
    let dl = delimiter_block(left, h);
    let dr = delimiter_block(right, h);
    lemma_delimiter_shape(left, h);
    lemma_delimiter_shape(right, h);
    lemma_uniform_rows(dl.rows, 1);
    lemma_uniform_rows(dr.rows, 1);
    let l = spanning_delimiter(left, content);
    let rr = spanning_delimiter(right, content);
    lemma_from_rows_wf(dl.rows, content.baseline);
    lemma_from_rows_wf(dr.rows, content.baseline);
    assert(l.rows == dl.rows);
    assert(rr.rows == dr.rows);
    lemma_beside_level(l, content);
    let lc = l.beside(content);
    lemma_beside_dimensions(l, content);
    lemma_beside_level(lc, rr);
    lemma_beside_dimensions(lc, rr);
    let r = delimited_block(left, right, content);
    assert(r.rows[0] == dl.rows[0] + content.rows[0] + dr.rows[0]);
}

/// A block drawn in a font family keeps its shape: as many rows, as wide,
/// the same baseline, and each cell is the cell it replaces, restyled.
pub proof fn lemma_font_shape(kind: FontFamily, b: Block)
    requires
        b.wf(),
    ensures
        font_block(kind, b).wf(),
        font_block(kind, b).height() == b.height(),
        font_block(kind, b).width() == b.width(),
        font_block(kind, b).baseline == b.baseline,
        forall|i: int, j: int|
            0 <= i < b.height() && 0 <= j < b.width() ==> #[trigger] font_block(kind, b).rows[i][j]
                == font_cell(kind, b.rows[i][j]),
{
    let mapped = b.rows.map_values(|row: Seq<Seq<char>>| font_row(kind, row));
    assert forall|i: int| 0 <= i < mapped.len() implies #[trigger] mapped[i].len() == b.width() by {
        assert(b.rows[i].len() == b.width());
    }
    lemma_uniform_rows(mapped, b.width());
    lemma_from_rows_wf(mapped, b.baseline);
    assert(font_block(kind, b).rows == Block::from_rows(mapped, 0).rows);
}

/// Side by side, well-formed blocks make a well-formed block.
pub broadcast proof fn lemma_beside_wf(a: Block, b: Block)
    requires
        a.wf(),
        b.wf(),
    ensures
        #[trigger] a.beside(b).wf(),
{
    lemma_beside_dimensions(a, b);
}

/// Stacked, well-formed blocks make a well-formed block.
pub broadcast proof fn lemma_above_wf(top: Block, bottom: Block, baseline: nat)
    requires
        top.wf(),
        bottom.wf(),
    ensures
        #[trigger] Block::above(top, bottom, baseline).wf(),
{
    lemma_above_dimensions(top, bottom, baseline);
}

/// A well-formed block centered is well formed.
pub broadcast proof fn lemma_center_in_wf(m: Block, w: nat)
    requires
        m.wf(),
    ensures
        #[trigger] m.center_in(w).wf(),
{
    lemma_center_in(m, w);
}

/// Rows padded to the longest always make a well-formed block.
pub broadcast proof fn lemma_from_rows_is_wf(rows: Seq<Seq<Seq<char>>>, baseline: nat)
    ensures
        #[trigger] Block::from_rows(rows, baseline).wf(),
{
    lemma_from_rows_wf(rows, baseline);
}

/// A line of text is well formed.
pub broadcast proof fn lemma_text_wf(s: Seq<char>)
    ensures
        #[trigger] Block::text(s).wf(),
{
}

/// A rule is well formed.
pub broadcast proof fn lemma_hline_wf(c: char, w: nat)
    ensures
        #[trigger] Block::hline(c, w).wf(),
{
}

/// Every layout is a well-formed block: its rows are equally wide and its
/// baseline lies within it.
pub proof fn lemma_layout_wf(n: MathNode)
    ensures
        layout_spec(n).wf(),
    decreases n,
{
    broadcast use {
        lemma_beside_wf,
        lemma_above_wf,
        lemma_center_in_wf,
        lemma_from_rows_is_wf,
        lemma_text_wf,
        lemma_hline_wf,
    };

    assert(Block::empty().wf());
    match n {
        MathNode::Text(s) => {},
        MathNode::Space => {},
        MathNode::TextBlock(s) => {},
        MathNode::Sequence(children) => {
            lemma_seq_wf(children@);
        },
        MathNode::Frac(a, b) => {
            lemma_layout_wf(*a);
            lemma_layout_wf(*b);
            lemma_frac_shape(layout_spec(*a), layout_spec(*b));
        },
        MathNode::Sup(a, b) => {},
        MathNode::Sub(a, b) => {},
        MathNode::SupSub(a, b, c) => {},
        MathNode::Sqrt(a) => {},
        MathNode::BigOp { symbol, lower, upper } => {},
        MathNode::Accent(a, kind) => {
            lemma_layout_wf(*a);
        },
        MathNode::Limit { name, lower } => {
            match lower {
                Some(l) => {
                    lemma_layout_wf(*l);
                },
                None => {},
            }
        },
        MathNode::MathFont { kind, content } => {
            lemma_layout_wf(*content);
        },
        MathNode::Delimited { left, right, content } => {
            lemma_layout_wf(*content);
        },
        MathNode::Matrix { kind, rows } => {},
        MathNode::Cases { rows } => {},
        MathNode::Binom(a, b) => {
            lemma_layout_wf(*a);
            lemma_layout_wf(*b);
        },
        MathNode::Brace { content, label, over } => {
            lemma_layout_wf(*content);
            match label {
                Some(l) => {
                    lemma_layout_wf(*l);
                },
                None => {},
            }
        },
        MathNode::StackRel { base, annotation, over } => {
            lemma_layout_wf(*base);
            lemma_layout_wf(*annotation);
        },
    }
}

/// The tree's shape ensures that its layout has a row with the baseline on
/// it. Text, spaces, fractions, big and named operators, and cases always
/// draw such a row; so does a matrix between delimiters that has a row, and
/// a plain matrix whose rows all hold cells that do. A sequence needs one
/// node that does; a base with scripts, its base or one of its scripts; a
/// binomial, its top; every other construct, the part it is drawn around.
pub open spec fn has_baseline_row(n: MathNode) -> bool
    decreases n,
{
    match n {
        MathNode::Text(_) => true,
        MathNode::Space => true,
        MathNode::TextBlock(_) => true,
        MathNode::Sequence(children) => seq_has_baseline_row(children@),
        MathNode::Frac(_, _) => true,
        MathNode::Sup(a, b) => has_baseline_row(*a) || has_baseline_row(*b),
        MathNode::Sub(a, b) => has_baseline_row(*a) || has_baseline_row(*b),
        MathNode::SupSub(a, b, c) => has_baseline_row(*a) || has_baseline_row(*b)
            || has_baseline_row(*c),
        MathNode::Sqrt(a) => has_baseline_row(*a),
        MathNode::BigOp { .. } => true,
        MathNode::Accent(a, _) => has_baseline_row(*a),
        MathNode::Limit { .. } => true,
        MathNode::MathFont { kind, content } => has_baseline_row(*content),
        MathNode::Delimited { left, right, content } => has_baseline_row(*content),
        MathNode::Matrix { kind, rows } => rows@.len() > 0 && (!(kind is Plain) || rows_filled(
            rows@,
        )),
        MathNode::Cases { .. } => true,
        MathNode::Binom(a, _) => has_baseline_row(*a),
        MathNode::Brace { content, label, over } => has_baseline_row(*content),
        MathNode::StackRel { base, annotation, over } => has_baseline_row(*base),
    }
}

/// Some node of a sequence has a baseline row.
pub open spec fn seq_has_baseline_row(children: Seq<MathNode>) -> bool
    decreases children,
{
    if children.len() == 0 {
        false
    } else {
        seq_has_baseline_row(children.drop_last()) || has_baseline_row(children.last())
    }
}

/// Every node of a sequence has a baseline row.
pub open spec fn all_have_baseline_rows(children: Seq<MathNode>) -> bool
    decreases children,
{
    if children.len() == 0 {
        true
    } else {
        all_have_baseline_rows(children.drop_last()) && has_baseline_row(children.last())
    }
}

/// Every row of a matrix holds cells, and each of them has a baseline row.
pub open spec fn rows_filled(rows: Seq<Vec<MathNode>>) -> bool
    decreases rows,
{
    if rows.len() == 0 {
        true
    } else {
        rows_filled(rows.drop_last()) && rows.last()@.len() > 0 && all_have_baseline_rows(
            rows.last()@,
        )
    }
}

/// Every node of the tree lays out to at least one row, and every row of
/// each matrix holds a cell.
pub open spec fn drawn_everywhere(n: MathNode) -> bool
    decreases n,
{
    &&& layout_spec(n).height() >= 1
    &&& match n {
        MathNode::Text(_) => true,
        MathNode::Space => true,
        MathNode::TextBlock(_) => true,
        MathNode::Sequence(children) => all_drawn(children@),
        MathNode::Frac(a, b) => drawn_everywhere(*a) && drawn_everywhere(*b),
        MathNode::Sup(a, b) => drawn_everywhere(*a) && drawn_everywhere(*b),
        MathNode::Sub(a, b) => drawn_everywhere(*a) && drawn_everywhere(*b),
        MathNode::SupSub(a, b, c) => drawn_everywhere(*a) && drawn_everywhere(*b)
            && drawn_everywhere(*c),
        MathNode::Sqrt(a) => drawn_everywhere(*a),
        MathNode::BigOp { symbol, lower, upper } => (match lower {
            Some(l) => drawn_everywhere(*l),
            None => true,
        }) && (match upper {
            Some(u) => drawn_everywhere(*u),
            None => true,
        }),
        MathNode::Accent(a, _) => drawn_everywhere(*a),
        MathNode::Limit { name, lower } => match lower {
            Some(l) => drawn_everywhere(*l),
            None => true,
        },
        MathNode::MathFont { kind, content } => drawn_everywhere(*content),
        MathNode::Delimited { left, right, content } => drawn_everywhere(*content),
        MathNode::Matrix { kind, rows } => rows_drawn(rows@),
        MathNode::Cases { rows } => cases_drawn(rows@),
        MathNode::Binom(a, b) => drawn_everywhere(*a) && drawn_everywhere(*b),
        MathNode::Brace { content, label, over } => drawn_everywhere(*content) && match label {
            Some(l) => drawn_everywhere(*l),
            None => true,
        },
        MathNode::StackRel { base, annotation, over } => drawn_everywhere(*base)
            && drawn_everywhere(*annotation),
    }
}

/// Every node of a sequence is drawn everywhere.
pub open spec fn all_drawn(children: Seq<MathNode>) -> bool
    decreases children,
{
    if children.len() == 0 {
        true
    } else {
        all_drawn(children.drop_last()) && drawn_everywhere(children.last())
    }
}

/// Every row of a matrix holds cells, each drawn everywhere.
pub open spec fn rows_drawn(rows: Seq<Vec<MathNode>>) -> bool
    decreases rows,
{
    if rows.len() == 0 {
        true
    } else {
        rows_drawn(rows.drop_last()) && rows.last()@.len() > 0 && all_drawn(rows.last()@)
    }
}

/// Every value and condition of some cases is drawn everywhere.
pub open spec fn cases_drawn(rows: Seq<(MathNode, Option<MathNode>)>) -> bool
    decreases rows,
{
    if rows.len() == 0 {
        true
    } else {
        cases_drawn(rows.drop_last()) && drawn_everywhere(rows.last().0) && match rows.last().1 {
            Some(c) => drawn_everywhere(c),
            None => true,
        }
    }
}

/// Where every node of the tree lays out to at least one row and every row
/// of each matrix holds a cell, the layout is a well-formed block whose
/// baseline is one of its rows.
pub proof fn lemma_drawn_baseline_inside(n: MathNode)
    requires
        drawn_everywhere(n),
    ensures
        layout_spec(n).wf(),
        layout_spec(n).height() >= 1,
        layout_spec(n).baseline < layout_spec(n).height(),
{
    lemma_drawn_has_baseline_row(n);
    lemma_baseline_inside(n);
}

/// A tree drawn everywhere has a baseline row.
proof fn lemma_drawn_has_baseline_row(n: MathNode)
    requires
        drawn_everywhere(n),
    ensures
        has_baseline_row(n),
    decreases n,
{
    match n {
        MathNode::Sequence(children) => {
            if children@.len() == 0 {
                assert(seq_spec(children@) == Block::empty());
            }
            lemma_all_drawn_some(children@);
        },
        MathNode::Sup(a, b) => {
            lemma_drawn_has_baseline_row(*a);
        },
        MathNode::Sub(a, b) => {
            lemma_drawn_has_baseline_row(*a);
        },
        MathNode::SupSub(a, b, c) => {
            lemma_drawn_has_baseline_row(*a);
        },
        MathNode::Sqrt(a) => {
            lemma_drawn_has_baseline_row(*a);
        },
        MathNode::Accent(a, _) => {
            lemma_drawn_has_baseline_row(*a);
        },
        MathNode::MathFont { kind, content } => {
            lemma_drawn_has_baseline_row(*content);
        },
        MathNode::Delimited { left, right, content } => {
            lemma_drawn_has_baseline_row(*content);
        },
        MathNode::Matrix { kind, rows } => {
            if rows@.len() == 0 {
                assert(rows_spec(rows@) == Seq::<Seq<Block>>::empty());
            }
            lemma_rows_drawn_filled(rows@);
        },
        MathNode::Binom(a, b) => {
            lemma_drawn_has_baseline_row(*a);
        },
        MathNode::Brace { content, label, over } => {
            lemma_drawn_has_baseline_row(*content);
        },
        MathNode::StackRel { base, annotation, over } => {
            lemma_drawn_has_baseline_row(*base);
        },
        _ => {},
    }
}

/// A nonempty sequence drawn everywhere has a node with a baseline row,
/// and all its nodes have one.
proof fn lemma_all_drawn_some(children: Seq<MathNode>)
    requires
        all_drawn(children),
    ensures
        all_have_baseline_rows(children),
        children.len() > 0 ==> seq_has_baseline_row(children),
    decreases children,
{
    if children.len() > 0 {
        lemma_all_drawn_some(children.drop_last());
        lemma_drawn_has_baseline_row(children.last());
    }
}

/// The rows of a matrix drawn everywhere are filled.
proof fn lemma_rows_drawn_filled(rows: Seq<Vec<MathNode>>)
    requires
        rows_drawn(rows),
    ensures
        rows_filled(rows),
    decreases rows,
{
    if rows.len() > 0 {
        lemma_rows_drawn_filled(rows.drop_last());
        lemma_all_drawn_some(rows.last()@);
    }
}

/// Side by side, where one of two well-formed blocks has its baseline on
/// one of its rows, so does the result.
pub proof fn lemma_beside_inside(a: Block, b: Block)
    requires
        a.wf(),
        b.wf(),
        a.baseline < a.height() || b.baseline < b.height(),
    ensures
        a.beside(b).baseline < a.beside(b).height(),
        a.beside(b).height() >= a.height(),
        a.beside(b).height() >= b.height(),
{
    lemma_beside_dimensions(a, b);
}

/// Where the tree's shape ensures it (`has_baseline_row`), its layout is a
/// well-formed block with at least one row, and its baseline is one of its
/// rows.
pub proof fn lemma_baseline_inside(n: MathNode)
    requires
        has_baseline_row(n),
    ensures
        layout_spec(n).wf(),
        layout_spec(n).height() >= 1,
        layout_spec(n).baseline < layout_spec(n).height(),
    decreases n,
{
    broadcast use {
        lemma_beside_wf,
        lemma_above_wf,
        lemma_center_in_wf,
        lemma_from_rows_is_wf,
        lemma_text_wf,
        lemma_hline_wf,
    };

    lemma_layout_wf(n);
    match n {
        MathNode::Text(_) => {},
        MathNode::Space => {},
        MathNode::TextBlock(_) => {},
        MathNode::Sequence(children) => {
            lemma_seq_inside(children@);
        },
        MathNode::Frac(a, b) => {
            lemma_layout_wf(*a);
            lemma_layout_wf(*b);
            lemma_frac_shape(layout_spec(*a), layout_spec(*b));
        },
        MathNode::Sup(a, b) => {
            if has_baseline_row(*a) {
                lemma_baseline_inside(*a);
            } else {
                lemma_baseline_inside(*b);
            }
            lemma_layout_wf(*a);
            lemma_layout_wf(*b);
            lemma_superscript_above(layout_spec(*a), layout_spec(*b));
        },
        MathNode::Sub(a, b) => {
            if has_baseline_row(*a) {
                lemma_baseline_inside(*a);
            } else {
                lemma_baseline_inside(*b);
            }
            lemma_layout_wf(*a);
            lemma_layout_wf(*b);
            lemma_subscript_below(layout_spec(*a), layout_spec(*b));
        },
        MathNode::SupSub(a, b, c) => {
            if has_baseline_row(*a) {
                lemma_baseline_inside(*a);
            } else if has_baseline_row(*b) {
                lemma_baseline_inside(*b);
            } else {
                lemma_baseline_inside(*c);
            }
            lemma_layout_wf(*a);
            lemma_layout_wf(*b);
            lemma_layout_wf(*c);
            lemma_scripts_around_base(layout_spec(*a), layout_spec(*b), layout_spec(*c));
        },
        MathNode::Sqrt(a) => {
            lemma_baseline_inside(*a);
            lemma_sqrt_shape(layout_spec(*a));
        },
        MathNode::BigOp { symbol, lower, upper } => {
            match lower {
                Some(l) => {
                    lemma_layout_wf(*l);
                },
                None => {},
            }
            match upper {
                Some(u) => {
                    lemma_layout_wf(*u);
                },
                None => {},
            }
            lemma_operator_shape(symbol@);
            lemma_bigop_baseline(
                symbol@,
                match lower {
                    Some(l) => Some(layout_spec(*l)),
                    None => None,
                },
                match upper {
                    Some(u) => Some(layout_spec(*u)),
                    None => None,
                },
            );
        },
        MathNode::Accent(a, kind) => {
            lemma_baseline_inside(*a);
        },
        MathNode::Limit { name, lower } => {
            match lower {
                Some(l) => {
                    lemma_layout_wf(*l);
                    let nb = Block::text(name@);
                    let lb = layout_spec(*l);
                    let w = max_nat(nb.width(), lb.width());
                    lemma_center_in(nb, w);
                },
                None => {},
            }
        },
        MathNode::MathFont { kind, content } => {
            lemma_baseline_inside(*content);
            lemma_font_shape(kind, layout_spec(*content));
        },
        MathNode::Delimited { left, right, content } => {
            lemma_baseline_inside(*content);
            lemma_delimited_spans(left@, right@, layout_spec(*content));
        },
        MathNode::Matrix { kind, rows } => {
            if kind is Plain {
                lemma_rows_last_inside(rows@);
                assert(rows_spec(rows@).last() == cells_spec(rows@.last()@));
                assert(cells_spec(rows@.last()@).last() == layout_spec(rows@.last()@.last()));
            }
            lemma_rows_spec_nonempty(rows@);
            lemma_matrix_has_rows(kind, rows_spec(rows@));
            lemma_matrix_baseline_middle(kind, rows_spec(rows@));
        },
        MathNode::Cases { rows } => {
            lemma_cases_have_rows(cases_spec(rows@));
            lemma_cases_baseline_middle(cases_spec(rows@));
        },
        MathNode::Binom(a, b) => {
            lemma_baseline_inside(*a);
            lemma_layout_wf(*b);
            let top = layout_spec(*a);
            let bottom = layout_spec(*b);
            let w = max_nat(top.width(), bottom.width());
            lemma_center_in(top, w);
            lemma_center_in(bottom, w);
            let tc = top.center_in(w);
            let stacked = Block::above(tc, bottom.center_in(w), (tc.height() - 1) as nat);
            lemma_above_dimensions(tc, bottom.center_in(w), (tc.height() - 1) as nat);
            lemma_delimited_spans(seq!['('], seq![')'], stacked);
        },
        MathNode::Brace { content, label, over } => {
            lemma_baseline_inside(*content);
            match label {
                Some(l) => {
                    lemma_layout_wf(*l);
                },
                None => {},
            }
        },
        MathNode::StackRel { base, annotation, over } => {
            lemma_baseline_inside(*base);
            lemma_layout_wf(*annotation);
            let w = max_nat(layout_spec(*base).width(), layout_spec(*annotation).width());
            lemma_center_in(layout_spec(*base), w);
            lemma_center_in(layout_spec(*annotation), w);
        },
    }
}

/// The layouts of a sequence with a node that has a baseline row have a
/// row, and their baseline is one of them.
proof fn lemma_seq_inside(children: Seq<MathNode>)
    requires
        seq_has_baseline_row(children),
    ensures
        seq_spec(children).height() >= 1,
        seq_spec(children).baseline < seq_spec(children).height(),
    decreases children,
{
    lemma_seq_wf(children.drop_last());
    lemma_layout_wf(children.last());
    if has_baseline_row(children.last()) {
        lemma_baseline_inside(children.last());
    } else {
        lemma_seq_inside(children.drop_last());
    }
    lemma_beside_inside(seq_spec(children.drop_last()), layout_spec(children.last()));
}

/// The last cell of the last row of a filled matrix has a row.
proof fn lemma_rows_last_inside(rows: Seq<Vec<MathNode>>)
    requires
        rows.len() > 0,
        rows_filled(rows),
    ensures
        rows.last()@.len() > 0,
        layout_spec(rows.last()@.last()).height() >= 1,
    decreases rows,
{
    lemma_last_inside(rows.last()@);
}

/// The last node of a nonempty sequence whose nodes all have baseline rows
/// has a row.
proof fn lemma_last_inside(children: Seq<MathNode>)
    requires
        children.len() > 0,
        all_have_baseline_rows(children),
    ensures
        layout_spec(children.last()).height() >= 1,
    decreases children,
{
    lemma_baseline_inside(children.last());
}

/// A matrix has as many rows of cell layouts as it has rows.
proof fn lemma_rows_spec_nonempty(rows: Seq<Vec<MathNode>>)
    ensures
        rows.len() > 0 ==> rows_spec(rows).len() > 0,
{
}

/// Stacked blocks are at least as tall as the last of them.
proof fn lemma_stack_height(rows: Seq<Block>)
    requires
        rows.len() > 0,
    ensures
        stack_rows(rows).height() >= rows.last().height(),
{
}

/// A matrix with a row has a row when drawn between delimiters, and a
/// plain one does when its last row ends in a cell with a row.
proof fn lemma_matrix_has_rows(kind: MatrixStyle, rows: Seq<Seq<Block>>)
    requires
        rows.len() > 0,
        kind is Plain ==> rows.last().len() > 0 && rows.last().last().height() >= 1,
    ensures
        matrix_block(kind, rows).height() >= 1,
{
    let row_blocks = matrix_row_blocks(rows);
    let stacked = stack_rows(row_blocks);
    let grid = Block::from_rows(stacked.rows, stacked.height() / 2);
    lemma_from_rows_wf(stacked.rows, stacked.height() / 2);
    if kind is Plain {
        let cells = rows.last();
        let widths = column_widths(rows);
        assert(row_blocks.last() == matrix_row_block(cells, widths));
        assert(matrix_row_block(cells, widths).height() >= 1);
        lemma_stack_height(row_blocks);
    } else {
        let (left, right) = matrix_delims(kind);
        assert(left.len() == 1 && left[0] != '.');
        assert(left != seq!['.']) by {
            assert(seq!['.'][0] == '.');
        }
        lemma_delimiter_shape(left, stacked.height());
        lemma_delimiter_shape(right, stacked.height());
        let dl = delimiter_block(left, stacked.height());
        lemma_beside_dimensions(dl, grid);
        lemma_beside_dimensions(dl.beside(grid), delimiter_block(right, stacked.height()));
    }
}

/// Cases always have a row: the brace has one, even with no cases.
proof fn lemma_cases_have_rows(rows: Seq<Block>)
    ensures
        cases_block(rows).height() >= 1,
{
    let w = widest(rows);
    let stacked = stack_rows(rows.map_values(|b: Block| case_row_block(b, w)));
    let grid = Block::from_rows(stacked.rows, stacked.height() / 2);
    lemma_from_rows_wf(stacked.rows, stacked.height() / 2);
    assert(seq!['{'] != seq!['.']) by {
        assert(seq!['{'][0] != seq!['.'][0]);
    }
    lemma_delimiter_shape(seq!['{'], stacked.height());
    lemma_beside_dimensions(delimiter_block(seq!['{'], stacked.height()), grid);
}

/// The layout of a sequence is well formed.
pub proof fn lemma_seq_wf(children: Seq<MathNode>)
    ensures
        seq_spec(children).wf(),
    decreases children,
{
    if children.len() > 0 {
        lemma_seq_wf(children.drop_last());
        lemma_layout_wf(children.last());
        lemma_beside_dimensions(seq_spec(children.drop_last()), layout_spec(children.last()));
    }
}


/// Laying out a sequence in two parts and placing the parts side by side
/// gives the layout of the whole sequence: how a row of nodes is grouped
/// does not change what is drawn.
pub proof fn lemma_seq_split(xs: Seq<MathNode>, ys: Seq<MathNode>)
    ensures
        seq_spec(xs + ys) == seq_spec(xs).beside(seq_spec(ys)),
    decreases ys.len(),
{
    lemma_seq_wf(xs);
    if ys.len() == 0 {
        assert(xs + ys =~= xs);
        lemma_beside_empty(seq_spec(xs));
    } else {
        let zs = xs + ys;
        assert(zs.drop_last() =~= xs + ys.drop_last());
        assert(zs.last() == ys.last());
        lemma_seq_split(xs, ys.drop_last());
        lemma_seq_wf(ys.drop_last());
        lemma_layout_wf(ys.last());
        lemma_beside_associative(
            seq_spec(xs),
            seq_spec(ys.drop_last()),
            layout_spec(ys.last()),
        );
    }
}


/// With both scripts, the superscript stands wholly above the base and the
/// subscript wholly below it, both to the right of it.
pub proof fn lemma_scripts_around_base(base: Block, sup: Block, sub: Block)
    requires
        base.wf(),
        sup.wf(),
        sub.wf(),
    ensures
        supsub_block(base, sup, sub).height() == sup.height() + base.height() + sub.height(),
        base.baseline < base.height() ==> supsub_block(base, sup, sub).baseline == sup.height()
            + base.baseline,
        forall|i: int|
            0 <= i < base.height() ==> (#[trigger] supsub_block(base, sup, sub).rows[sup.height()
                + i]).subrange(0, base.width() as int) == base.rows[i],
        forall|j: int|
            0 <= j < sup.height() ==> (#[trigger] supsub_block(base, sup, sub).rows[j]).subrange(
                base.width() as int,
                (base.width() + sup.width()) as int,
            ) == sup.rows[j],
        forall|k: int|
            0 <= k < sub.height() ==> (#[trigger] supsub_block(base, sup, sub).rows[sup.height()
                + base.height() + k]).subrange(
                base.width() as int,
                (base.width() + sub.width()) as int,
            ) == sub.rows[k],
{
    let rows = sup_sub_rows(base.rows, base.width(), sup.rows, sup.width(), sub.rows, sub.width());
    let sw = max_nat(sup.width(), sub.width());
    let sup_part = sup.rows.map_values(|row: Seq<Seq<char>>| blank_row(base.width()) + pad_row(row, sw));
    let base_part = base.rows.map_values(|row: Seq<Seq<char>>| row + blank_row(sw));
    let sub_part = sub.rows.map_values(|row: Seq<Seq<char>>| blank_row(base.width()) + pad_row(row, sw));
    assert(rows == sup_part + base_part + sub_part);
    assert forall|i: int| 0 <= i < rows.len() implies #[trigger] rows[i].len() == base.width() + sw by {
        if i < sup.height() {
            assert(rows[i] == sup_part[i]);
        } else if i < sup.height() + base.height() {
            assert(rows[i] == base_part[i - sup.height()]);
        } else {
            assert(rows[i] == sub_part[i - sup.height() - base.height()]);
        }
    }
    lemma_uniform_rows(rows, base.width() + sw);
    let r = supsub_block(base, sup, sub);
    assert(r.rows =~= rows);
    assert forall|i: int| 0 <= i < base.height() implies (#[trigger] r.rows[sup.height()
        + i]).subrange(0, base.width() as int) == base.rows[i] by {
        assert(rows[sup.height() + i] == base_part[i]);
        assert((base.rows[i] + blank_row(sw)).subrange(0, base.width() as int) =~= base.rows[i]);
    }
    assert forall|j: int| 0 <= j < sup.height() implies (#[trigger] r.rows[j]).subrange(
        base.width() as int,
        (base.width() + sup.width()) as int,
    ) == sup.rows[j] by {
        assert(rows[j] == sup_part[j]);
        assert((blank_row(base.width()) + pad_row(sup.rows[j], sw)).subrange(
            base.width() as int,
            (base.width() + sup.width()) as int,
        ) =~= sup.rows[j]);
    }
    assert forall|k: int| 0 <= k < sub.height() implies (#[trigger] r.rows[sup.height()
        + base.height() + k]).subrange(
        base.width() as int,
        (base.width() + sub.width()) as int,
    ) == sub.rows[k] by {
        assert(rows[sup.height() + base.height() + k] == sub_part[k]);
        assert((blank_row(base.width()) + pad_row(sub.rows[k], sw)).subrange(
            base.width() as int,
            (base.width() + sub.width()) as int,
        ) =~= sub.rows[k]);
    }
}

/// A square root is one row taller than its body: an overline as wide as
/// the body over it, after a blank; `√` left of the body's last row and `│`
/// left of its other rows; its baseline is the body's, moved down one row.
pub proof fn lemma_sqrt_shape(body: Block)
    requires
        body.wf(),
    ensures
        sqrt_block(body).wf(),
        sqrt_block(body).height() == body.height() + 1,
        sqrt_block(body).baseline == body.baseline + 1,
        sqrt_block(body).rows[0] == seq![blank_cell()] + Seq::new(body.width(), |_i: int| seq!['─']),
        forall|r: int|
            0 <= r < body.height() ==> #[trigger] sqrt_block(body).rows[r + 1] == seq![
                if r == body.height() - 1 {
                    seq!['√']
                } else {
                    seq!['│']
                },
            ] + body.rows[r],
{
    let h = body.height();
    let top: Seq<Seq<char>> = seq![blank_cell()] + Seq::new(body.width(), |_i: int| seq!['─']);
    let rows = seq![top] + Seq::new(
        h,
        |r: int| seq![if r == h - 1 { seq!['√'] } else { seq!['│'] }] + body.rows[r],
    );
    assert forall|i: int| 0 <= i < rows.len() implies #[trigger] rows[i].len() == body.width() + 1 by {
        if i > 0 {
            assert(rows[i] == seq![if i - 1 == h - 1 { seq!['√'] } else { seq!['│'] }] + body.rows[i - 1]);
        }
    }
    lemma_uniform_rows(rows, body.width() + 1);
    lemma_from_rows_wf(rows, 1 + body.baseline);
    assert(sqrt_block(body).rows =~= rows);
}


/// A grid between delimiters as tall as it is has its baseline where the
/// grid's is, at half the height.
proof fn lemma_middle_between(left: Seq<char>, grid: Block)
    requires
        grid.wf(),
        grid.baseline == grid.height() / 2,
    ensures
        delimiter_block(left, grid.height()).beside(grid).baseline == delimiter_block(
            left,
            grid.height(),
        ).beside(grid).height() / 2,
        delimiter_block(left, grid.height()).beside(grid).wf(),
{
    lemma_delimiter_shape(left, grid.height());
    lemma_beside_dimensions(delimiter_block(left, grid.height()), grid);
}

/// A matrix's baseline is its middle row: half its height, rounded down.
pub proof fn lemma_matrix_baseline_middle(kind: MatrixStyle, rows: Seq<Seq<Block>>)
    ensures
        matrix_block(kind, rows).baseline == matrix_block(kind, rows).height() / 2,
{
    if rows.len() > 0 {
        let stacked = stack_rows(matrix_row_blocks(rows));
        let grid = Block::from_rows(stacked.rows, stacked.height() / 2);
        lemma_from_rows_wf(stacked.rows, stacked.height() / 2);
        let (left, right) = matrix_delims(kind);
        if left.len() > 0 {
            lemma_middle_between(left, grid);
            let lg = delimiter_block(left, stacked.height()).beside(grid);
            lemma_delimiter_shape(right, stacked.height());
            lemma_beside_dimensions(lg, delimiter_block(right, stacked.height()));
            lemma_delimiter_shape(left, stacked.height());
            lemma_beside_dimensions(delimiter_block(left, stacked.height()), grid);
        }
    }
}

/// Cases have their baseline at their middle row: half their height,
/// rounded down.
pub proof fn lemma_cases_baseline_middle(rows: Seq<Block>)
    ensures
        cases_block(rows).baseline == cases_block(rows).height() / 2,
{
    let w = widest(rows);
    let stacked = stack_rows(rows.map_values(|b: Block| case_row_block(b, w)));
    let grid = Block::from_rows(stacked.rows, stacked.height() / 2);
    lemma_from_rows_wf(stacked.rows, stacked.height() / 2);
    lemma_middle_between(seq!['{'], grid);
}


/// A big operator's baseline is the operator's own baseline row (its only
/// row, or the middle piece of a tall integral); the operator, centered in
/// the widest of itself and its limits, lies below the upper limit's rows
/// and above the lower limit's.
pub proof fn lemma_bigop_baseline(symbol: Seq<char>, lower: Option<Block>, upper: Option<Block>)
    requires
        lower matches Some(l) ==> l.wf(),
        upper matches Some(u) ==> u.wf(),
    ensures
        ({
            let op = operator_block(symbol);
            let w = max_nat(max_nat(op.width(), opt_width(upper)), opt_width(lower));
            let above = match upper {
                Some(u) => u.height(),
                None => 0,
            };
            let below = match lower {
                Some(l) => l.height(),
                None => 0,
            };
            &&& bigop_block(symbol, lower, upper).wf()
            &&& bigop_block(symbol, lower, upper).baseline == above + op.baseline
            &&& bigop_block(symbol, lower, upper).height() == above + op.height() + below
            &&& forall|k: int|
                0 <= k < op.height() ==> #[trigger] bigop_block(symbol, lower, upper).rows[above + k]
                    == op.center_in(w).rows[k]
        }),
{
    let op = operator_block(symbol);
    lemma_operator_shape(symbol);
    let w = max_nat(max_nat(op.width(), opt_width(upper)), opt_width(lower));
    let oc = op.center_in(w);
    lemma_center_in(op, w);
    assert(oc.width() == w);
    let with_upper = match upper {
        Some(ub) => Block::above(ub.center_in(w), oc, ub.center_in(w).height()),
        None => oc,
    };
    let above_rows: nat = match upper {
        Some(u) => u.height(),
        None => 0,
    };
    match upper {
        Some(ub) => {
            lemma_center_in(ub, w);
            lemma_above_dimensions(ub.center_in(w), oc, ub.center_in(w).height());
            if ub.height() > 0 {
                assert(ub.center_in(w).width() == w);
            }
            assert forall|k: int| 0 <= k < op.height() implies #[trigger] with_upper.rows[above_rows
                + k] == oc.rows[k] by {
                assert(with_upper.rows[above_rows + k] == pad_row(
                    oc.rows[k],
                    max_nat(ub.center_in(w).width(), w),
                ));
                assert(pad_row(oc.rows[k], w) == oc.rows[k]);
            }
        },
        None => {},
    }
    assert(with_upper.wf());
    assert(with_upper.height() == above_rows + op.height());
    assert(with_upper.width() == w);
    let baseline = (with_upper.height() - op.height() + op.baseline) as nat;
    let with_lower = match lower {
        Some(lb) => Block::above(with_upper, lb.center_in(w), baseline),
        None => with_upper,
    };
    match lower {
        Some(lb) => {
            lemma_center_in(lb, w);
            lemma_above_dimensions(with_upper, lb.center_in(w), baseline);
            if lb.height() > 0 {
                assert(lb.center_in(w).width() == w);
            }
            assert forall|k: int| 0 <= k < op.height() implies #[trigger] with_lower.rows[above_rows
                + k] == oc.rows[k] by {
                assert(with_lower.rows[above_rows + k] == pad_row(
                    with_upper.rows[above_rows + k],
                    max_nat(w, lb.center_in(w).width()),
                ));
            }
        },
        None => {},
    }
    assert(with_lower.wf());
    lemma_uniform_rows(with_lower.rows, with_lower.width());
    lemma_from_rows_wf(with_lower.rows, baseline);
    let r = bigop_block(symbol, lower, upper);
    assert(r.rows == Block::from_rows(with_lower.rows, 0).rows);
}

/// A big operator's symbol is drawn as a well-formed block at least one row
/// tall with its baseline on one of its rows: the three pieces of a tall
/// integral, with the middle one the baseline, or one row of text.
pub proof fn lemma_operator_shape(symbol: Seq<char>)
    ensures
        operator_block(symbol).wf(),
        operator_block(symbol).height() >= 1,
        operator_block(symbol).baseline < operator_block(symbol).height(),
        symbol == seq!['∫'] ==> operator_block(symbol).rows == seq![seq![seq!['⌠']], seq![seq!['⎮']], seq![seq!['⌡']]]
            && operator_block(symbol).baseline == 1,
        symbol != seq!['∫'] ==> operator_block(symbol) == Block::text(symbol),
{
    lemma_uniform_rows(integral_rows(), 1);
    lemma_from_rows_wf(integral_rows(), 1);
}

} // verus!
