//! Layout of an equation tree into a rendered block.
use vstd::prelude::*;

use crate::block::{
    Block, RenderedBlock, blank_cell, blank_row, copy_rows, max_nat, pad_row, padded_row, push_blanks,
    push_cloned, push_row,
};
use crate::font::{font_block, font_block_of};
use crate::laws::lemma_center_in;
use crate::node::{AccentMark, MathNode, FontFamily, MatrixStyle};

verus! {

broadcast use vstd::std_specs::vec::group_vec_axioms;

// ---------------------------------------------------------------------------
// What each construct draws, given the layouts of its parts.
// ---------------------------------------------------------------------------

/// A fraction: numerator over a bar two columns wider than the wider part,
/// over the denominator, both centered; the baseline is the bar.
pub open spec fn frac_block(num: Block, den: Block) -> Block {
    let bar_width = max_nat(num.width(), den.width()) + 2;
    let bar = Block::hline('─', bar_width);
    let top = Block::above(num.center_in(bar_width), bar, 0);
    Block::above(top, den.center_in(bar_width), (top.height() - 1) as nat)
}

/// The rows of a base with scripts: the superscript's rows above the base,
/// right of it; the base's rows; the subscript's rows below the base, right
/// of it. Script rows are padded to the wider script.
pub open spec fn sup_sub_rows(
    base: Seq<Seq<Seq<char>>>,
    base_width: nat,
    sup: Seq<Seq<Seq<char>>>,
    sup_width: nat,
    sub: Seq<Seq<Seq<char>>>,
    sub_width: nat,
) -> Seq<Seq<Seq<char>>> {
    let script_width = max_nat(sup_width, sub_width);
    sup.map_values(|row: Seq<Seq<char>>| blank_row(base_width) + pad_row(row, script_width))
        + base.map_values(|row: Seq<Seq<char>>| row + blank_row(script_width))
        + sub.map_values(|row: Seq<Seq<char>>| blank_row(base_width) + pad_row(row, script_width))
}

/// The baseline `b`, moved up to the last row of a block of height `h`.
pub open spec fn clamp_baseline(b: nat, h: nat) -> nat {
    if h == 0 {
        0
    } else if b < h {
        b
    } else {
        (h - 1) as nat
    }
}

/// A base with a superscript; the baseline is the base's.
pub open spec fn sup_block(base: Block, sup: Block) -> Block {
    let rows = sup_sub_rows(base.rows, base.width(), sup.rows, sup.width(), Seq::empty(), 0);
    Block::from_rows(rows, clamp_baseline(sup.height() + base.baseline, rows.len()))
}

/// A base with a subscript; the baseline is the base's.
pub open spec fn sub_block(base: Block, sub: Block) -> Block {
    let rows = sup_sub_rows(base.rows, base.width(), Seq::empty(), 0, sub.rows, sub.width());
    Block::from_rows(rows, clamp_baseline(base.baseline, rows.len()))
}

/// A base with both scripts; the baseline is the base's.
pub open spec fn supsub_block(base: Block, sup: Block, sub: Block) -> Block {
    let rows = sup_sub_rows(base.rows, base.width(), sup.rows, sup.width(), sub.rows, sub.width());
    Block::from_rows(rows, clamp_baseline(sup.height() + base.baseline, rows.len()))
}

/// A square root: an overline above the body, `√` left of the body's last
/// row and `│` left of its other rows.
pub open spec fn sqrt_block(body: Block) -> Block {
    let h = body.height();
    let top: Seq<Seq<char>> = seq![blank_cell()] + Seq::new(body.width(), |_i: int| seq!['─']);
    let rows = seq![top] + Seq::new(
        h,
        |r: int| seq![if r == h - 1 { seq!['√'] } else { seq!['│'] }] + body.rows[r],
    );
    Block::from_rows(rows, 1 + body.baseline)
}

/// The width of an optional block; none is zero wide.
pub open spec fn opt_width(b: Option<Block>) -> nat {
    match b {
        Some(b) => b.width(),
        None => 0,
    }
}

/// The pieces of a tall integral sign, top to bottom.
pub open spec fn integral_rows() -> Seq<Seq<Seq<char>>> {
    seq![seq![seq!['⌠']], seq![seq!['⎮']], seq![seq!['⌡']]]
}

/// The operator of a big operator: `∫` is drawn three rows tall from its
/// pieces, with its baseline on the middle piece; any other symbol is one
/// row of text.
pub open spec fn operator_block(symbol: Seq<char>) -> Block {
    if symbol == seq!['∫'] {
        Block::from_rows(integral_rows(), 1)
    } else {
        Block::text(symbol)
    }
}

/// A big operator with its limits centered above and below it; the
/// baseline is the operator's baseline row.
pub open spec fn bigop_block(symbol: Seq<char>, lower: Option<Block>, upper: Option<Block>) -> Block {
    let op = operator_block(symbol);
    let w = max_nat(max_nat(op.width(), opt_width(upper)), opt_width(lower));
    let op_centered = op.center_in(w);
    let with_upper = match upper {
        Some(ub) => Block::above(ub.center_in(w), op_centered, ub.center_in(w).height()),
        None => op_centered,
    };
    let baseline = (with_upper.height() - op.height() + op.baseline) as nat;
    let with_lower = match lower {
        Some(lb) => Block::above(with_upper, lb.center_in(w), baseline),
        None => with_upper,
    };
    Block::from_rows(with_lower.rows, baseline)
}

/// The mark drawn for an accent.
pub open spec fn accent_char(kind: AccentMark) -> char {
    match kind {
        AccentMark::Hat => '^',
        AccentMark::Bar => '‾',
        AccentMark::Dot => '˙',
        AccentMark::DoubleDot => '¨',
        AccentMark::Tilde => '~',
        AccentMark::Vec => '→',
    }
}

/// An accent above the body: a bar accent over a body wider than one
/// column spans it, other marks are centered over it.
pub open spec fn accent_block(body: Block, kind: AccentMark) -> Block {
    let mark = if body.width() <= 1 {
        Block::text(seq![accent_char(kind)])
    } else {
        match kind {
            AccentMark::Bar => Block::hline('‾', body.width()),
            _ => Block::text(seq![accent_char(kind)]).center_in(body.width()),
        }
    };
    Block::above(mark, body, mark.height() + body.baseline)
}

/// A named operator, with its limit centered below it when there is one.
pub open spec fn limit_block(name: Seq<char>, lower: Option<Block>) -> Block {
    let nb = Block::text(name);
    match lower {
        Some(lb) => {
            let w = max_nat(nb.width(), lb.width());
            let nc = nb.center_in(w);
            Block::above(nc, lb.center_in(w), (nc.height() - 1) as nat)
        },
        None => nb,
    }
}

/// The top, middle and bottom pieces of a tall delimiter.
pub open spec fn delimiter_pieces(d: Seq<char>) -> (Seq<char>, Seq<char>, Seq<char>) {
    if d == seq!['('] {
        (seq!['⎛'], seq!['⎜'], seq!['⎝'])
    } else if d == seq![')'] {
        (seq!['⎞'], seq!['⎟'], seq!['⎠'])
    } else if d == seq!['['] {
        (seq!['⎡'], seq!['⎢'], seq!['⎣'])
    } else if d == seq![']'] {
        (seq!['⎤'], seq!['⎥'], seq!['⎦'])
    } else if d == seq!['{'] {
        (seq!['⎧'], seq!['⎨'], seq!['⎩'])
    } else if d == seq!['}'] {
        (seq!['⎫'], seq!['⎬'], seq!['⎭'])
    } else if d == seq!['|'] {
        (seq!['│'], seq!['│'], seq!['│'])
    } else if d == seq!['‖'] {
        (seq!['‖'], seq!['‖'], seq!['‖'])
    } else {
        (d, d, d)
    }
}

/// A delimiter `height` rows tall, one column wide, with its baseline at
/// half the height. `.` and the empty string are invisible (blanks); a
/// delimiter at most one row tall is drawn as given; a taller one is built
/// from its top, middle and bottom pieces.
pub open spec fn delimiter_block(delim: Seq<char>, height: nat) -> Block {
    if delim == seq!['.'] || delim.len() == 0 {
        Block::from_rows(Seq::new(height, |_i: int| seq![blank_cell()]), height / 2)
    } else if height <= 1 {
        Block::from_rows(seq![seq![delim]], 0)
    } else {
        let (top, mid, bot) = delimiter_pieces(delim);
        Block::from_rows(
            Seq::new(
                height,
                |r: int|
                    if r == 0 {
                        seq![top]
                    } else if r == height - 1 {
                        seq![bot]
                    } else {
                        seq![mid]
                    },
            ),
            height / 2,
        )
    }
}

/// A delimiter spanning `content`: as tall as it, with its baseline on the
/// content's baseline, so that each of its rows lies beside a row of the
/// content.
pub open spec fn spanning_delimiter(delim: Seq<char>, content: Block) -> Block {
    Block::from_rows(delimiter_block(delim, content.height()).rows, content.baseline)
}

/// Content between delimiters that span it.
pub open spec fn delimited_block(left: Seq<char>, right: Seq<char>, content: Block) -> Block {
    spanning_delimiter(left, content).beside(content).beside(spanning_delimiter(right, content))
}

/// The number of cells in the longest row of a matrix.
pub open spec fn max_cols(rows: Seq<Seq<Block>>) -> nat
    decreases rows.len(),
{
    if rows.len() == 0 {
        0
    } else {
        max_nat(max_cols(rows.drop_last()), rows.last().len())
    }
}

/// The width of column `c`: its widest cell.
pub open spec fn col_width(rows: Seq<Seq<Block>>, c: int) -> nat
    decreases rows.len(),
{
    if rows.len() == 0 {
        0
    } else {
        max_nat(
            col_width(rows.drop_last(), c),
            if 0 <= c < rows.last().len() {
                rows.last()[c].width()
            } else {
                0
            },
        )
    }
}

/// One matrix row: its cells centered in their columns' widths, two blanks
/// between neighbours.
pub open spec fn matrix_row_block(cells: Seq<Block>, widths: Seq<nat>) -> Block
    decreases cells.len(),
{
    if cells.len() == 0 {
        Block::empty()
    } else {
        let prev = matrix_row_block(cells.drop_last(), widths);
        let cell = cells.last().center_in(widths[cells.len() - 1]);
        let spaced = if prev.height() == 0 {
            prev
        } else {
            prev.beside(Block::text(seq![' ', ' ']))
        };
        spaced.beside(cell)
    }
}

/// Blocks stacked top to bottom, each new one below the stack so far with
/// the baseline at half the stack's height.
pub open spec fn stack_rows(rows: Seq<Block>) -> Block
    decreases rows.len(),
{
    if rows.len() == 0 {
        Block::empty()
    } else {
        let prev = stack_rows(rows.drop_last());
        if prev.height() == 0 {
            rows.last()
        } else {
            Block::above(prev, rows.last(), prev.height() / 2)
        }
    }
}

/// The widths of the columns of a matrix.
pub open spec fn column_widths(rows: Seq<Seq<Block>>) -> Seq<nat> {
    Seq::new(max_cols(rows), |c: int| col_width(rows, c))
}

/// The rows of a matrix as blocks.
pub open spec fn matrix_row_blocks(rows: Seq<Seq<Block>>) -> Seq<Block> {
    rows.map_values(|row: Seq<Block>| matrix_row_block(row, column_widths(rows)))
}

/// The delimiters of a matrix kind; a plain matrix has none.
pub open spec fn matrix_delims(kind: MatrixStyle) -> (Seq<char>, Seq<char>) {
    match kind {
        MatrixStyle::Paren => (seq!['('], seq![')']),
        MatrixStyle::Bracket => (seq!['['], seq![']']),
        MatrixStyle::Brace => (seq!['{'], seq!['}']),
        MatrixStyle::VBar => (seq!['|'], seq!['|']),
        MatrixStyle::DoubleVBar => (seq!['‖'], seq!['‖']),
        MatrixStyle::Plain => (Seq::empty(), Seq::empty()),
    }
}

/// A matrix: rows stacked, cells centered in columns, the baseline at half
/// the height, between delimiters as tall as the grid.
pub open spec fn matrix_block(kind: MatrixStyle, rows: Seq<Seq<Block>>) -> Block {
    if rows.len() == 0 {
        Block::empty()
    } else {
        let stacked = stack_rows(matrix_row_blocks(rows));
        let grid = Block::from_rows(stacked.rows, stacked.height() / 2);
        let (left, right) = matrix_delims(kind);
        if left.len() == 0 {
            grid
        } else {
            delimiter_block(left, stacked.height()).beside(grid).beside(
                delimiter_block(right, stacked.height()),
            )
        }
    }
}

/// The widest of some blocks.
pub open spec fn widest(blocks: Seq<Block>) -> nat
    decreases blocks.len(),
{
    if blocks.len() == 0 {
        0
    } else {
        max_nat(widest(blocks.drop_last()), blocks.last().width())
    }
}

/// One case, padded to `w` columns.
pub open spec fn case_row_block(row: Block, w: nat) -> Block {
    let padded = Block::from_rows(row.rows, row.baseline);
    Block::from_rows(padded.rows.map_values(|r: Seq<Seq<char>>| pad_row(r, w)), padded.baseline)
}

/// Cases: the rows stacked and padded to the widest, the baseline at half
/// the height, after a left brace as tall as the stack.
pub open spec fn cases_block(rows: Seq<Block>) -> Block {
    let w = widest(rows);
    let stacked = stack_rows(rows.map_values(|b: Block| case_row_block(b, w)));
    let grid = Block::from_rows(stacked.rows, stacked.height() / 2);
    delimiter_block(seq!['{'], stacked.height()).beside(grid)
}

/// One case: the value, then `  if ` and the condition when there is one.
pub open spec fn case_block(value: Block, condition: Option<Block>) -> Block {
    match condition {
        Some(c) => value.beside(Block::text(seq![' ', ' ', 'i', 'f', ' '])).beside(c),
        None => value,
    }
}

/// A binomial coefficient: top over bottom, centered, between parentheses
/// that span the pair; the baseline is the top's last row.
pub open spec fn binom_block(top: Block, bottom: Block) -> Block {
    let w = max_nat(top.width(), bottom.width());
    let tc = top.center_in(w);
    let stacked = Block::above(tc, bottom.center_in(w), (tc.height() - 1) as nat);
    delimited_block(seq!['('], seq![')'], stacked)
}

/// An overbrace or underbrace as wide as the content, with its label
/// centered beyond the brace; the baseline is the content's.
pub open spec fn brace_block(content: Block, label: Option<Block>, over: bool) -> Block {
    let w = content.width();
    let brace = Block::hline(if over { '⏞' } else { '⏟' }, w);
    match label {
        Some(lb) => {
            let lc = lb.center_in(w);
            if over {
                let top = Block::above(lc, brace, lc.height());
                Block::above(top, content, top.height() + content.baseline)
            } else {
                Block::above(content, Block::above(brace, lc, 0), content.baseline)
            }
        },
        None => {
            if over {
                Block::above(brace, content, brace.height() + content.baseline)
            } else {
                Block::above(content, brace, content.baseline)
            }
        },
    }
}

/// A base with an annotation above or below it, both centered; the baseline
/// is the base's.
pub open spec fn stackrel_block(base: Block, annotation: Block, over: bool) -> Block {
    let w = max_nat(base.width(), annotation.width());
    let bc = base.center_in(w);
    let ac = annotation.center_in(w);
    if over {
        Block::above(ac, bc, ac.height() + base.baseline)
    } else {
        Block::above(bc, ac, base.baseline)
    }
}

// ---------------------------------------------------------------------------
// The layout of a tree.
// ---------------------------------------------------------------------------

/// The layout of a node.
pub open spec fn layout_spec(n: MathNode) -> Block
    decreases n,
{
    match n {
        MathNode::Text(s) => Block::text(s@),
        MathNode::Space => Block::text(seq![' ']),
        MathNode::Sequence(children) => seq_spec(children@),
        MathNode::Frac(num, den) => frac_block(layout_spec(*num), layout_spec(*den)),
        MathNode::Sup(base, sup) => sup_block(layout_spec(*base), layout_spec(*sup)),
        MathNode::Sub(base, sub) => sub_block(layout_spec(*base), layout_spec(*sub)),
        MathNode::SupSub(base, sup, sub) => supsub_block(
            layout_spec(*base),
            layout_spec(*sup),
            layout_spec(*sub),
        ),
        MathNode::Sqrt(body) => sqrt_block(layout_spec(*body)),
        MathNode::BigOp { symbol, lower, upper } => bigop_block(
            symbol@,
            match lower {
                Some(l) => Some(layout_spec(*l)),
                None => None,
            },
            match upper {
                Some(u) => Some(layout_spec(*u)),
                None => None,
            },
        ),
        MathNode::Accent(body, kind) => accent_block(layout_spec(*body), kind),
        MathNode::Limit { name, lower } => limit_block(
            name@,
            match lower {
                Some(l) => Some(layout_spec(*l)),
                None => None,
            },
        ),
        MathNode::TextBlock(s) => Block::text(s@),
        MathNode::MathFont { kind, content } => font_block(kind, layout_spec(*content)),
        MathNode::Delimited { left, right, content } => delimited_block(
            left@,
            right@,
            layout_spec(*content),
        ),
        MathNode::Matrix { kind, rows } => matrix_block(kind, rows_spec(rows@)),
        MathNode::Cases { rows } => cases_block(cases_spec(rows@)),
        MathNode::Binom(top, bottom) => binom_block(layout_spec(*top), layout_spec(*bottom)),
        MathNode::Brace { content, label, over } => brace_block(
            layout_spec(*content),
            match label {
                Some(l) => Some(layout_spec(*l)),
                None => None,
            },
            over,
        ),
        MathNode::StackRel { base, annotation, over } => stackrel_block(
            layout_spec(*base),
            layout_spec(*annotation),
            over,
        ),
    }
}

/// The layouts of `children`, side by side from left to right.
pub open spec fn seq_spec(children: Seq<MathNode>) -> Block
    decreases children,
{
    if children.len() == 0 {
        Block::empty()
    } else {
        seq_spec(children.drop_last()).beside(layout_spec(children.last()))
    }
}

/// The layouts of the cells of a row.
pub open spec fn cells_spec(cells: Seq<MathNode>) -> Seq<Block>
    decreases cells,
{
    if cells.len() == 0 {
        Seq::empty()
    } else {
        cells_spec(cells.drop_last()).push(layout_spec(cells.last()))
    }
}

/// The layouts of the cells of each row.
pub open spec fn rows_spec(rows: Seq<Vec<MathNode>>) -> Seq<Seq<Block>>
    decreases rows,
{
    if rows.len() == 0 {
        Seq::empty()
    } else {
        rows_spec(rows.drop_last()).push(cells_spec(rows.last()@))
    }
}

/// The layouts of the cases.
pub open spec fn cases_spec(rows: Seq<(MathNode, Option<MathNode>)>) -> Seq<Block>
    decreases rows,
{
    if rows.len() == 0 {
        Seq::empty()
    } else {
        cases_spec(rows.drop_last()).push(
            case_block(
                layout_spec(rows.last().0),
                match rows.last().1 {
                    Some(c) => Some(layout_spec(c)),
                    None => None,
                },
            ),
        )
    }
}


/// Every node of the tree can be laid out: the top of each binomial
/// coefficient has at least one row.
pub open spec fn layout_defined(n: MathNode) -> bool
    decreases n,
{
    match n {
        MathNode::Text(_) => true,
        MathNode::Space => true,
        MathNode::TextBlock(_) => true,
        MathNode::Sequence(children) => seq_defined(children@),
        MathNode::Frac(a, b) => layout_defined(*a) && layout_defined(*b),
        MathNode::Sup(a, b) => layout_defined(*a) && layout_defined(*b),
        MathNode::Sub(a, b) => layout_defined(*a) && layout_defined(*b),
        MathNode::SupSub(a, b, c) => layout_defined(*a) && layout_defined(*b) && layout_defined(*c),
        MathNode::Sqrt(a) => layout_defined(*a),
        MathNode::BigOp { symbol, lower, upper } => (match lower {
            Some(l) => layout_defined(*l),
            None => true,
        }) && (match upper {
            Some(u) => layout_defined(*u),
            None => true,
        }),
        MathNode::Accent(a, _) => layout_defined(*a),
        MathNode::Limit { name, lower } => match lower {
            Some(l) => layout_defined(*l),
            None => true,
        },
        MathNode::MathFont { kind, content } => layout_defined(*content),
        MathNode::Delimited { left, right, content } => layout_defined(*content),
        MathNode::Matrix { kind, rows } => rows_defined(rows@),
        MathNode::Cases { rows } => cases_defined(rows@),
        MathNode::Binom(a, b) => layout_defined(*a) && layout_defined(*b) && layout_spec(*a).height()
            > 0,
        MathNode::Brace { content, label, over } => layout_defined(*content) && match label {
            Some(l) => layout_defined(*l),
            None => true,
        },
        MathNode::StackRel { base, annotation, over } => layout_defined(*base) && layout_defined(
            *annotation,
        ),
    }
}

/// Every node of a sequence can be laid out.
pub open spec fn seq_defined(children: Seq<MathNode>) -> bool
    decreases children,
{
    if children.len() == 0 {
        true
    } else {
        seq_defined(children.drop_last()) && layout_defined(children.last())
    }
}

/// Every cell of a matrix can be laid out.
pub open spec fn rows_defined(rows: Seq<Vec<MathNode>>) -> bool
    decreases rows,
{
    if rows.len() == 0 {
        true
    } else {
        rows_defined(rows.drop_last()) && seq_defined(rows.last()@)
    }
}

/// Every value and condition of some cases can be laid out.
pub open spec fn cases_defined(rows: Seq<(MathNode, Option<MathNode>)>) -> bool
    decreases rows,
{
    if rows.len() == 0 {
        true
    } else {
        cases_defined(rows.drop_last()) && layout_defined(rows.last().0) && match rows.last().1 {
            Some(c) => layout_defined(c),
            None => true,
        }
    }
}

proof fn lemma_seq_defined(children: Seq<MathNode>, i: int)
    requires
        seq_defined(children),
        0 <= i < children.len(),
    ensures
        layout_defined(children[i]),
    decreases children.len(),
{
    if i < children.len() - 1 {
        lemma_seq_defined(children.drop_last(), i);
    }
}

proof fn lemma_rows_defined(rows: Seq<Vec<MathNode>>, i: int)
    requires
        rows_defined(rows),
        0 <= i < rows.len(),
    ensures
        seq_defined(rows[i]@),
    decreases rows.len(),
{
    if i < rows.len() - 1 {
        lemma_rows_defined(rows.drop_last(), i);
    }
}

proof fn lemma_cases_defined(rows: Seq<(MathNode, Option<MathNode>)>, i: int)
    requires
        cases_defined(rows),
        0 <= i < rows.len(),
    ensures
        layout_defined(rows[i].0),
        rows[i].1 matches Some(c) ==> layout_defined(c),
    decreases rows.len(),
{
    if i < rows.len() - 1 {
        lemma_cases_defined(rows.drop_last(), i);
    }
}

// ---------------------------------------------------------------------------
// Strings.
// ---------------------------------------------------------------------------

/// Whether `a` and `b` hold the same characters.
fn str_eq(a: &str, b: &str) -> (r: bool)
    ensures
        r == (a@ == b@),
{
    let n = a.unicode_len();
    let m = b.unicode_len();
    if n != m {
        return false;
    }
    let mut i: usize = 0;
    while i < n
        invariant
            n == a@.len(),
            m == b@.len(),
            n == m,
            0 <= i <= n,
            a@.take(i as int) == b@.take(i as int),
        decreases n - i,
    {
        if a.get_char(i) != b.get_char(i) {
            assert(a@[i as int] != b@[i as int]);
            return false;
        }
        assert(a@.take(i + 1) =~= a@.take(i as int).push(a@[i as int]));
        assert(b@.take(i + 1) =~= b@.take(i as int).push(b@[i as int]));
        i = i + 1;
    }
    assert(a@ =~= a@.take(n as int));
    assert(b@ =~= b@.take(n as int));
    true
}

/// A cell drawing `s`.
fn cell(s: &str) -> (r: String)
    ensures
        r@ == s@,
{
    String::from_str(s)
}

/// A row holding one cell.
fn single_cell_row(s: String) -> (r: Vec<String>)
    ensures
        r.deep_view() == seq![s@],
{
    let mut r: Vec<String> = Vec::new();
    r.push(s);
    assert(r.deep_view() =~= seq![s@]);
    r
}

/// The top, middle and bottom pieces of a tall delimiter.
fn delimiter_pieces_of(delim: &str) -> (r: (String, String, String))
    ensures
        (r.0@, r.1@, r.2@) == delimiter_pieces(delim@),
{
    proof {
        reveal_strlit("(");
        assert("("@ =~= seq!['(']);
        reveal_strlit(")");
        assert(")"@ =~= seq![')']);
        reveal_strlit("[");
        assert("["@ =~= seq!['[']);
        reveal_strlit("]");
        assert("]"@ =~= seq![']']);
        reveal_strlit("{");
        assert("{"@ =~= seq!['{']);
        reveal_strlit("}");
        assert("}"@ =~= seq!['}']);
        reveal_strlit("|");
        assert("|"@ =~= seq!['|']);
        reveal_strlit("‖");
        assert("‖"@ =~= seq!['‖']);
        reveal_strlit("⎛");
        assert("⎛"@ =~= seq!['⎛']);
        reveal_strlit("⎜");
        assert("⎜"@ =~= seq!['⎜']);
        reveal_strlit("⎝");
        assert("⎝"@ =~= seq!['⎝']);
        reveal_strlit("⎞");
        assert("⎞"@ =~= seq!['⎞']);
        reveal_strlit("⎟");
        assert("⎟"@ =~= seq!['⎟']);
        reveal_strlit("⎠");
        assert("⎠"@ =~= seq!['⎠']);
        reveal_strlit("⎡");
        assert("⎡"@ =~= seq!['⎡']);
        reveal_strlit("⎢");
        assert("⎢"@ =~= seq!['⎢']);
        reveal_strlit("⎣");
        assert("⎣"@ =~= seq!['⎣']);
        reveal_strlit("⎤");
        assert("⎤"@ =~= seq!['⎤']);
        reveal_strlit("⎥");
        assert("⎥"@ =~= seq!['⎥']);
        reveal_strlit("⎦");
        assert("⎦"@ =~= seq!['⎦']);
        reveal_strlit("⎧");
        assert("⎧"@ =~= seq!['⎧']);
        reveal_strlit("⎨");
        assert("⎨"@ =~= seq!['⎨']);
        reveal_strlit("⎩");
        assert("⎩"@ =~= seq!['⎩']);
        reveal_strlit("⎫");
        assert("⎫"@ =~= seq!['⎫']);
        reveal_strlit("⎬");
        assert("⎬"@ =~= seq!['⎬']);
        reveal_strlit("⎭");
        assert("⎭"@ =~= seq!['⎭']);
        reveal_strlit("│");
        assert("│"@ =~= seq!['│']);
    }
    if str_eq(delim, "(") {
        (cell("⎛"), cell("⎜"), cell("⎝"))
    } else if str_eq(delim, ")") {
        (cell("⎞"), cell("⎟"), cell("⎠"))
    } else if str_eq(delim, "[") {
        (cell("⎡"), cell("⎢"), cell("⎣"))
    } else if str_eq(delim, "]") {
        (cell("⎤"), cell("⎥"), cell("⎦"))
    } else if str_eq(delim, "{") {
        (cell("⎧"), cell("⎨"), cell("⎩"))
    } else if str_eq(delim, "}") {
        (cell("⎫"), cell("⎬"), cell("⎭"))
    } else if str_eq(delim, "|") {
        (cell("│"), cell("│"), cell("│"))
    } else if str_eq(delim, "‖") {
        (cell("‖"), cell("‖"), cell("‖"))
    } else {
        (cell(delim), cell(delim), cell(delim))
    }
}

/// Builds a delimiter `height` rows tall, one column wide, with its baseline
/// at half the height. `.` and the empty string give blanks; a delimiter at
/// most one row tall is drawn as given; a taller one is built from its top,
/// middle and bottom pieces.
pub fn build_delimiter(delim: &str, height: usize) -> (r: RenderedBlock)
    ensures
        r@ == delimiter_block(delim@, height as nat),
        r@.wf(),
{
    proof {
        reveal_strlit(".");
        assert("."@ =~= seq!['.']);
        reveal_strlit(" ");
        assert(" "@ =~= seq![' ']);
    }
    if str_eq(delim, ".") || delim.is_empty() {
        let ghost spec_rows = Seq::new(height as nat, |_i: int| seq![blank_cell()]);
        let mut rows: Vec<Vec<String>> = Vec::new();
        let mut i: usize = 0;
        while i < height
            invariant
                0 <= i <= height,
                spec_rows == Seq::new(height as nat, |_i: int| seq![blank_cell()]),
                rows.deep_view() =~= spec_rows.take(i as int),
            decreases height - i,
        {
            let blank = cell(" ");
            proof {
                reveal_strlit(" ");
                assert(blank@ =~= blank_cell());
            }
            let row = single_cell_row(blank);
            let ghost before = rows.deep_view();
            let ghost bv = rows@;
            rows.push(row);
            assert(rows@ == bv.push(row));
            assert(rows.deep_view() =~= before.push(row.deep_view()));
            i = i + 1;
        }
        assert(spec_rows.take(height as int) =~= spec_rows);
        return RenderedBlock::new(rows, height / 2);
    }
    if height <= 1 {
        let mut rows: Vec<Vec<String>> = Vec::new();
        let row = single_cell_row(cell(delim));
        rows.push(row);
        assert(rows.deep_view() =~= seq![seq![delim@]]);
        return RenderedBlock::new(rows, 0);
    }
    let (top, mid, bot) = delimiter_pieces_of(delim);
    let ghost pieces = delimiter_pieces(delim@);
    let ghost spec_rows = Seq::new(
        height as nat,
        |r: int|
            if r == 0 {
                seq![pieces.0]
            } else if r == height - 1 {
                seq![pieces.2]
            } else {
                seq![pieces.1]
            },
    );
    let mut rows: Vec<Vec<String>> = Vec::new();
    rows.push(single_cell_row(top));
    assert(rows.deep_view() =~= spec_rows.take(1));
    let mut i: usize = 1;
    while i < height - 1
        invariant
            2 <= height,
            1 <= i <= height - 1,
            mid@ == pieces.1,
            spec_rows == Seq::new(
                height as nat,
                |r: int|
                    if r == 0 {
                        seq![pieces.0]
                    } else if r == height - 1 {
                        seq![pieces.2]
                    } else {
                        seq![pieces.1]
                    },
            ),
            rows.deep_view() =~= spec_rows.take(i as int),
        decreases height - i,
    {
        let row = single_cell_row(mid.clone());
        let ghost before = rows.deep_view();
        let ghost bv = rows@;
        rows.push(row);
        assert(rows@ == bv.push(row));
        assert(rows.deep_view() =~= before.push(row.deep_view()));
        i = i + 1;
    }
    let row = single_cell_row(bot);
    let ghost before = rows.deep_view();
    let ghost bv = rows@;
    rows.push(row);
    assert(rows@ == bv.push(row));
    assert(rows.deep_view() =~= before.push(row.deep_view()));
    assert(rows.deep_view() =~= spec_rows);
    RenderedBlock::new(rows, height / 2)
}


/// The rows of a base with scripts: the superscript's rows above the base,
/// right of it; then the base's rows; then the subscript's rows below the
/// base, right of it. Script rows are padded with blanks to the wider
/// script's width, and the base's rows are followed by that many blanks.
///
/// ```text
///          [sup rows]
///   [base]
///          [sub rows]
/// ```
pub fn build_sup_sub_grid(
    base_cells: &[Vec<String>],
    base_width: usize,
    _base_baseline: usize,
    sup_cells: &[Vec<String>],
    sup_width: usize,
    sub: Option<(&[Vec<String>], usize)>,
    _sub_baseline: usize,
) -> (rows: Vec<Vec<String>>)
    ensures
        rows.deep_view() == (match sub {
            Some((sub_cells, sub_width)) => sup_sub_rows(
                base_cells.deep_view(),
                base_width as nat,
                sup_cells.deep_view(),
                sup_width as nat,
                sub_cells.deep_view(),
                sub_width as nat,
            ),
            None => sup_sub_rows(
                base_cells.deep_view(),
                base_width as nat,
                sup_cells.deep_view(),
                sup_width as nat,
                Seq::empty(),
                0,
            ),
        }),
{
    let empty: &[Vec<String>] = &[];
    let (sub_cells, sub_width) = match sub {
        Some(pair) => pair,
        None => (empty, 0),
    };
    assert(empty.deep_view() =~= Seq::<Seq<Seq<char>>>::empty());
    let script_width = if sup_width >= sub_width {
        sup_width
    } else {
        sub_width
    };
    let ghost base = base_cells.deep_view();
    let ghost sup = sup_cells.deep_view();
    let ghost subs = sub_cells.deep_view();
    let ghost sup_part = sup.map_values(
        |row: Seq<Seq<char>>| blank_row(base_width as nat) + pad_row(row, script_width as nat),
    );
    let ghost base_part = base.map_values(
        |row: Seq<Seq<char>>| row + blank_row(script_width as nat),
    );
    let ghost sub_part = subs.map_values(
        |row: Seq<Seq<char>>| blank_row(base_width as nat) + pad_row(row, script_width as nat),
    );
    let mut rows: Vec<Vec<String>> = Vec::new();

    // Superscript rows, above the base
    let mut r: usize = 0;
    while r < sup_cells.len()
        invariant
            0 <= r <= sup_cells.len(),
            sup == sup_cells.deep_view(),
            sup_part == sup.map_values(
                |row: Seq<Seq<char>>| blank_row(base_width as nat) + pad_row(row, script_width as nat),
            ),
            rows.deep_view() =~= sup_part.take(r as int),
        decreases sup_cells.len() - r,
    {
        let row = padded_row(base_width, &sup_cells[r], script_width);
        push_row(&mut rows, row);
        r = r + 1;
    }
    assert(sup_part.take(sup_cells.len() as int) =~= sup_part);

    // Base rows
    let mut r: usize = 0;
    while r < base_cells.len()
        invariant
            0 <= r <= base_cells.len(),
            base == base_cells.deep_view(),
            base_part == base.map_values(
                |row: Seq<Seq<char>>| row + blank_row(script_width as nat),
            ),
            rows.deep_view() =~= sup_part + base_part.take(r as int),
        decreases base_cells.len() - r,
    {
        let mut row: Vec<String> = Vec::new();
        push_cloned(&mut row, &base_cells[r]);
        push_blanks(&mut row, script_width);
        assert(row.deep_view() =~= base_part[r as int]);
        push_row(&mut rows, row);
        r = r + 1;
    }
    assert(base_part.take(base_cells.len() as int) =~= base_part);

    // Subscript rows, below the base
    let mut r: usize = 0;
    while r < sub_cells.len()
        invariant
            0 <= r <= sub_cells.len(),
            subs == sub_cells.deep_view(),
            sub_part == subs.map_values(
                |row: Seq<Seq<char>>| blank_row(base_width as nat) + pad_row(row, script_width as nat),
            ),
            rows.deep_view() =~= sup_part + base_part + sub_part.take(r as int),
        decreases sub_cells.len() - r,
    {
        let row = padded_row(base_width, &sub_cells[r], script_width);
        push_row(&mut rows, row);
        r = r + 1;
    }
    assert(sub_part.take(sub_cells.len() as int) =~= sub_part);
    rows
}


// ---------------------------------------------------------------------------
// Layout.
// ---------------------------------------------------------------------------

/// Two rules of one character side by side form one rule.
proof fn lemma_hline_beside(c: char, a: nat, b: nat)
    ensures
        Block::hline(c, a).beside(Block::hline(c, b)) == Block::hline(c, a + b),
{
    let l = Block::hline(c, a).beside(Block::hline(c, b));
    assert(l.rows[0] =~= Block::hline(c, a + b).rows[0]);
    assert(l.rows =~= Block::hline(c, a + b).rows);
}

/// `top` over `bottom` with the baseline `k` rows below the top of `bottom`.
fn above_offset(top: &RenderedBlock, bottom: &RenderedBlock, k: usize) -> (r: RenderedBlock)
    ensures
        r@ == Block::above(top@, bottom@, (top@.height() + k) as nat),
        r@.wf(),
{
    let b = top.height().saturating_add(k);
    let r = RenderedBlock::above(top, bottom, b);
    // The result's rows exist, so a baseline past them is clamped either way
    let _height = r.height();
    assert(r@ =~= Block::above(top@, bottom@, (top@.height() + k) as nat));
    r
}

/// Lays out a text node: its characters on one row.
pub fn layout_text(s: &str) -> (r: RenderedBlock)
    ensures
        r@ == Block::text(s@),
        r@.wf(),
{
    RenderedBlock::from_text(s)
}

/// Renders a node into a block.
pub fn layout(node: &MathNode) -> (r: RenderedBlock)
    requires
        layout_defined(*node),
    ensures
        r@ == layout_spec(*node),
        r@.wf(),
    decreases node, 1nat,
{
    match node {
        MathNode::Text(s) => layout_text(s.as_str()),
        MathNode::Space => RenderedBlock::from_char(' '),
        MathNode::Sequence(children) => layout_seq(children),
        MathNode::Frac(num, den) => layout_frac(num, den, Ghost(*node)),
        MathNode::Sup(base, sup) => layout_sup(base, sup, Ghost(*node)),
        MathNode::Sub(base, sub) => layout_sub(base, sub, Ghost(*node)),
        MathNode::SupSub(base, sup, sub) => layout_supsub(base, sup, sub, Ghost(*node)),
        MathNode::Sqrt(body) => layout_sqrt(body),
        MathNode::BigOp { symbol, lower, upper } => layout_bigop(
            symbol.as_str(),
            lower,
            upper,
            Ghost(*node),
        ),
        MathNode::Accent(body, kind) => layout_accent(body, kind),
        MathNode::Limit { name, lower } => layout_limit(name.as_str(), lower, Ghost(*node)),
        MathNode::TextBlock(s) => RenderedBlock::from_text(s.as_str()),
        MathNode::MathFont { kind, content } => layout_mathfont(kind, content),
        MathNode::Delimited { left, right, content } => layout_delimited(
            left.as_str(),
            right.as_str(),
            content,
        ),
        MathNode::Matrix { kind, rows } => layout_matrix(kind, rows),
        MathNode::Cases { rows } => layout_cases(rows),
        MathNode::Binom(top, bottom) => layout_binom(top, bottom, Ghost(*node)),
        MathNode::Brace { content, label, over } => layout_brace(content, label, over, Ghost(*node)),
        MathNode::StackRel { base, annotation, over } => layout_stackrel(
            base,
            annotation,
            over,
            Ghost(*node),
        ),
    }
}

/// Lays out a sequence: its children side by side, left to right.
fn layout_seq(children: &Vec<MathNode>) -> (r: RenderedBlock)
    requires
        seq_defined(children@),
    ensures
        r@ == seq_spec(children@),
        r@.wf(),
    decreases children, 0nat,
{
    let mut result = RenderedBlock::empty();
    assert(children@.take(0) =~= Seq::<MathNode>::empty());
    let mut i: usize = 0;
    while i < children.len()
        invariant
            0 <= i <= children.len(),
            seq_defined(children@),
            result@ == seq_spec(children@.take(i as int)),
            result@.wf(),
        decreases children.len() - i,
    {
        proof {
            lemma_seq_defined(children@, i as int);
        }
        let block = layout(&children[i]);
        result = result.beside(&block);
        assert(children@.take(i + 1).drop_last() =~= children@.take(i as int));
        i = i + 1;
    }
    assert(children@.take(children.len() as int) =~= children@);
    result
}

/// Lays out a fraction.
fn layout_frac(num: &MathNode, den: &MathNode, Ghost(parent): Ghost<MathNode>) -> (r: RenderedBlock)
    requires
        parent matches MathNode::Frac(a, b) && *a == *num && *b == *den,
        layout_defined(parent),
    ensures
        r@ == frac_block(layout_spec(*num), layout_spec(*den)),
        r@.wf(),
    decreases parent, 0nat,
{
    let num_block = layout(num);
    let den_block = layout(den);

    let inner = if num_block.width() >= den_block.width() {
        num_block.width()
    } else {
        den_block.width()
    };
    // Two more columns of padding
    let bar = RenderedBlock::hline('─', inner).beside(&RenderedBlock::hline('─', 2));
    proof {
        lemma_hline_beside('─', inner as nat, 2);
    }
    let bar_width = bar.width();

    let num_centered = num_block.center_in(bar_width);
    let den_centered = den_block.center_in(bar_width);

    // Stack: numerator, bar, denominator. Baseline is the bar row.
    let top = RenderedBlock::above(&num_centered, &bar, 0);
    let baseline_row = top.height() - 1;  // bar is the last row of 'top'
    RenderedBlock::above(&top, &den_centered, baseline_row)
}

/// Lays out a base with a superscript, which stands wholly above the base.
fn layout_sup(base: &MathNode, sup: &MathNode, Ghost(parent): Ghost<MathNode>) -> (r: RenderedBlock)
    requires
        parent matches MathNode::Sup(a, b) && *a == *base && *b == *sup,
        layout_defined(parent),
    ensures
        r@ == sup_block(layout_spec(*base), layout_spec(*sup)),
        r@.wf(),
    decreases parent, 0nat,
{
    let base_block = layout(base);
    let sup_block = layout(sup);
    let base_cells = base_block.cells().as_slice();
    let sup_cells = sup_block.cells().as_slice();
    let rows = build_sup_sub_grid(
        base_cells,
        base_block.width(),
        base_block.baseline(),
        sup_cells,
        sup_block.width(),
        None,
        0,
    );
    proof {
        assert(base_cells.deep_view() =~= base_block@.rows);
        assert(sup_cells.deep_view() =~= sup_block@.rows);
    }
    let total_height = rows.len();
    assert(rows.deep_view().len() == rows@.len());
    // The base's baseline, below the superscript's rows
    let baseline = sup_block.height() + base_block.baseline();
    let last = total_height.saturating_sub(1);
    RenderedBlock::new(rows, if baseline <= last { baseline } else { last })
}

/// Lays out a base with a subscript, which stands wholly below the base.
fn layout_sub(base: &MathNode, sub: &MathNode, Ghost(parent): Ghost<MathNode>) -> (r: RenderedBlock)
    requires
        parent matches MathNode::Sub(a, b) && *a == *base && *b == *sub,
        layout_defined(parent),
    ensures
        r@ == sub_block(layout_spec(*base), layout_spec(*sub)),
        r@.wf(),
    decreases parent, 0nat,
{
    let base_block = layout(base);
    let sub_block = layout(sub);
    let base_cells = base_block.cells().as_slice();
    let sub_cells = sub_block.cells().as_slice();
    let rows = build_sup_sub_grid(
        base_cells,
        base_block.width(),
        base_block.baseline(),
        &[],
        0,
        Some((sub_cells, sub_block.width())),
        0,
    );
    proof {
        assert(base_cells.deep_view() =~= base_block@.rows);
        assert(sub_cells.deep_view() =~= sub_block@.rows);
    }
    let total_height = rows.len();
    let baseline = base_block.baseline();
    let last = total_height.saturating_sub(1);
    RenderedBlock::new(rows, if baseline <= last { baseline } else { last })
}

/// Lays out a base with a superscript above it and a subscript below it.
fn layout_supsub(base: &MathNode, sup: &MathNode, sub: &MathNode, Ghost(parent): Ghost<MathNode>) -> (r:
    RenderedBlock)
    requires
        parent matches MathNode::SupSub(a, b, c) && *a == *base && *b == *sup && *c == *sub,
        layout_defined(parent),
    ensures
        r@ == supsub_block(layout_spec(*base), layout_spec(*sup), layout_spec(*sub)),
        r@.wf(),
    decreases parent, 0nat,
{
    let base_block = layout(base);
    let sup_block = layout(sup);
    let sub_block = layout(sub);
    let base_cells = base_block.cells().as_slice();
    let sup_cells = sup_block.cells().as_slice();
    let sub_cells = sub_block.cells().as_slice();
    let rows = build_sup_sub_grid(
        base_cells,
        base_block.width(),
        base_block.baseline(),
        sup_cells,
        sup_block.width(),
        Some((sub_cells, sub_block.width())),
        0,
    );
    proof {
        assert(base_cells.deep_view() =~= base_block@.rows);
        assert(sup_cells.deep_view() =~= sup_block@.rows);
        assert(sub_cells.deep_view() =~= sub_block@.rows);
    }
    let total_height = rows.len();
    assert(rows.deep_view().len() == rows@.len());
    // The base's baseline, below the superscript's rows
    let baseline = sup_block.height() + base_block.baseline();
    let last = total_height.saturating_sub(1);
    RenderedBlock::new(rows, if baseline <= last { baseline } else { last })
}


/// Lays out a square root.
fn layout_sqrt(body: &MathNode) -> (r: RenderedBlock)
    requires
        layout_defined(*body),
    ensures
        r@ == sqrt_block(layout_spec(*body)),
        r@.wf(),
    decreases body, 2nat,
{
    proof {
        reveal_strlit("√");
        reveal_strlit("│");
        assert("√"@ =~= seq!['√']);
        assert("│"@ =~= seq!['│']);
    }
    let body_block = layout(body);
    let body_h = body_block.height();
    let ghost h = body_block@.height();
    let ghost spec_rows = seq![seq![blank_cell()] + Seq::new(body_block@.width(), |_i: int| seq!['─'])]
        + Seq::new(
        h,
        |r: int| seq![if r == h - 1 { seq!['√'] } else { seq!['│'] }] + body_block@.rows[r],
    );

    // Build: overline on top, √ on left at bottom, │ extending up for tall bodies
    let overline_width = body_block.width();
    let overline = RenderedBlock::hline('─', overline_width);

    let mut rows: Vec<Vec<String>> = Vec::new();

    // Top row: overline, after a space for the radical column
    let mut top_row: Vec<String> = Vec::new();
    push_blanks(&mut top_row, 1);
    let overline_cells = overline.cells();
    push_cloned(&mut top_row, &overline_cells[0]);
    assert(overline_cells.deep_view()[0] == overline_cells@[0].deep_view());
    assert(blank_row(1) =~= seq![blank_cell()]);
    assert(top_row.deep_view() =~= spec_rows[0]);
    push_row(&mut rows, top_row);

    // Body rows with radical on the left
    let mut r: usize = 0;
    while r < body_h
        invariant
            0 <= r <= body_h,
            body_h == h,
            h == body_block@.height(),
            "√"@ == seq!['√'],
            "│"@ == seq!['│'],
            spec_rows == seq![seq![blank_cell()] + Seq::new(body_block@.width(), |_i: int| seq!['─'])]
                + Seq::new(
                h,
                |r: int| seq![if r == h - 1 { seq!['√'] } else { seq!['│'] }] + body_block@.rows[r],
            ),
            rows.deep_view() =~= spec_rows.take(r + 1),
        decreases body_h - r,
    {
        let radical = if r == body_h - 1 {
            cell("√")
        } else {
            cell("│")
        };
        let mut row: Vec<String> = Vec::new();
        row.push(radical);
        assert(row.deep_view() =~= seq![radical@]);
        push_cloned(&mut row, &body_block.cells()[r]);
        assert(row.deep_view() =~= spec_rows[r + 1]);
        push_row(&mut rows, row);
        r = r + 1;
    }
    assert(spec_rows.take(body_h + 1) =~= spec_rows);
    // The rows exist, one more than the body's, so this sum fits
    let _height: usize = rows.len();
    let baseline = 1 + body_block.baseline();  // shifted down by 1 for the overline
    RenderedBlock::new(rows, baseline)
}

/// The layouts of an optional block.
pub open spec fn opt_view(b: Option<RenderedBlock>) -> Option<Block> {
    match b {
        Some(b) => Some(b@),
        None => None,
    }
}

/// The layout of an optional node.
pub open spec fn opt_layout(n: Option<Box<MathNode>>) -> Option<Block> {
    match n {
        Some(n) => Some(layout_spec(*n)),
        None => None,
    }
}

/// The block drawn for a big operator's symbol.
fn operator_of(symbol: &str) -> (r: RenderedBlock)
    ensures
        r@ == operator_block(symbol@),
        r@.wf(),
{
    proof {
        reveal_strlit("∫");
        assert("∫"@ =~= seq!['∫']);
    }
    if str_eq(symbol, "∫") {
        proof {
            reveal_strlit("⌠");
            reveal_strlit("⎮");
            reveal_strlit("⌡");
            assert("⌠"@ =~= seq!['⌠']);
            assert("⎮"@ =~= seq!['⎮']);
            assert("⌡"@ =~= seq!['⌡']);
        }
        let mut rows: Vec<Vec<String>> = Vec::new();
        push_row(&mut rows, single_cell_row(cell("⌠")));
        push_row(&mut rows, single_cell_row(cell("⎮")));
        push_row(&mut rows, single_cell_row(cell("⌡")));
        assert(rows.deep_view() =~= integral_rows());
        RenderedBlock::new(rows, 1)
    } else {
        RenderedBlock::from_text(symbol)
    }
}

/// Lays out a big operator with its limits.
fn layout_bigop(
    symbol: &str,
    lower: &Option<Box<MathNode>>,
    upper: &Option<Box<MathNode>>,
    Ghost(parent): Ghost<MathNode>,
) -> (r: RenderedBlock)
    requires
        parent matches MathNode::BigOp { symbol: s, lower: l, upper: u } && s@ == symbol@ && l
            == *lower && u == *upper,
        layout_defined(parent),
    ensures
        r@ == bigop_block(symbol@, opt_layout(*lower), opt_layout(*upper)),
        r@.wf(),
    decreases parent, 0nat,
{
    let op_block = operator_of(symbol);

    let upper_block = match upper {
        Some(u) => Some(layout(u)),
        None => None,
    };
    let lower_block = match lower {
        Some(l) => Some(layout(l)),
        None => None,
    };
    assert(opt_view(upper_block) == opt_layout(*upper));
    assert(opt_view(lower_block) == opt_layout(*lower));

    let mut max_width = op_block.width();
    match &upper_block {
        Some(b) => {
            if b.width() > max_width {
                max_width = b.width();
            }
        },
        None => {},
    }
    match &lower_block {
        Some(b) => {
            if b.width() > max_width {
                max_width = b.width();
            }
        },
        None => {},
    }
    assert(max_width == max_nat(
        max_nat(op_block@.width(), opt_width(opt_view(upper_block))),
        opt_width(opt_view(lower_block)),
    ));

    proof {
        lemma_center_in(op_block@, max_width as nat);
        match &upper_block {
            Some(ub) => {
                lemma_center_in(ub@, max_width as nat);
            },
            None => {},
        }
    }
    let op_centered = op_block.center_in(max_width);

    let mut result = match upper_block {
        Some(ub) => {
            let ub_centered = ub.center_in(max_width);
            RenderedBlock::above(&ub_centered, &op_centered, ub_centered.height())
        },
        None => op_centered,
    };

    // The operator's baseline row
    let baseline = result.height() - op_block.height() + op_block.baseline();

    match lower_block {
        Some(lb) => {
            let lb_centered = lb.center_in(max_width);
            result = RenderedBlock::above(&result, &lb_centered, baseline);
        },
        None => {},
    }

    // Baseline is at the operator symbol
    RenderedBlock::new(copy_rows(result.cells()), baseline)
}

/// Lays out an accented node.
fn layout_accent(body: &MathNode, kind: &AccentMark) -> (r: RenderedBlock)
    requires
        layout_defined(*body),
    ensures
        r@ == accent_block(layout_spec(*body), *kind),
        r@.wf(),
    decreases body, 2nat,
{
    let body_block = layout(body);
    let accent_char = match kind {
        AccentMark::Hat => '^',
        AccentMark::Bar => '‾',
        AccentMark::Dot => '˙',
        AccentMark::DoubleDot => '¨',
        AccentMark::Tilde => '~',
        AccentMark::Vec => '→',
    };

    let accent_str = if body_block.width() <= 1 {
        RenderedBlock::from_char(accent_char)
    } else {
        // For bar/overline, repeat across width
        match kind {
            AccentMark::Bar => RenderedBlock::hline('‾', body_block.width()),
            _ => RenderedBlock::from_char(accent_char).center_in(body_block.width()),
        }
    };

    above_offset(&accent_str, &body_block, body_block.baseline())
}

/// Lays out a named operator with its limit.
fn layout_limit(name: &str, lower: &Option<Box<MathNode>>, Ghost(parent): Ghost<MathNode>) -> (r:
    RenderedBlock)
    requires
        parent matches MathNode::Limit { name: n, lower: l } && n@ == name@ && l == *lower,
        layout_defined(parent),
    ensures
        r@ == limit_block(name@, opt_layout(*lower)),
        r@.wf(),
    decreases parent, 0nat,
{
    let name_block = RenderedBlock::from_text(name);

    match lower {
        Some(low) => {
            let low_block = layout(low);
            let max_width = if name_block.width() >= low_block.width() {
                name_block.width()
            } else {
                low_block.width()
            };
            let name_centered = name_block.center_in(max_width);
            let low_centered = low_block.center_in(max_width);
            let baseline = name_centered.height() - 1;
            RenderedBlock::above(&name_centered, &low_centered, baseline)
        },
        None => name_block,
    }
}

/// Lays out a node in a math font.
fn layout_mathfont(kind: &FontFamily, content: &MathNode) -> (r: RenderedBlock)
    requires
        layout_defined(*content),
    ensures
        r@ == font_block(*kind, layout_spec(*content)),
        r@.wf(),
    decreases content, 2nat,
{
    let content_block = layout(content);
    font_block_of(kind, &content_block)
}

/// Lays out content between stretched delimiters.
fn layout_delimited(left: &str, right: &str, content: &MathNode) -> (r: RenderedBlock)
    requires
        layout_defined(*content),
    ensures
        r@ == delimited_block(left@, right@, layout_spec(*content)),
        r@.wf(),
    decreases content, 2nat,
{
    let content_block = layout(content);
    enclose(left, right, &content_block)
}

/// A delimiter as tall as `content`, with its baseline on the content's.
fn spanning_delimiter_of(delim: &str, content: &RenderedBlock) -> (r: RenderedBlock)
    ensures
        r@ == spanning_delimiter(delim@, content@),
        r@.wf(),
{
    let d = build_delimiter(delim, content.height());
    RenderedBlock::new(copy_rows(d.cells()), content.baseline())
}

/// `content` between delimiters that span it.
fn enclose(left: &str, right: &str, content: &RenderedBlock) -> (r: RenderedBlock)
    ensures
        r@ == delimited_block(left@, right@, content@),
        r@.wf(),
{
    let left_block = spanning_delimiter_of(left, content);
    let right_block = spanning_delimiter_of(right, content);
    left_block.beside(content).beside(&right_block)
}

/// Lays out a binomial coefficient.
fn layout_binom(top: &MathNode, bottom: &MathNode, Ghost(parent): Ghost<MathNode>) -> (r: RenderedBlock)
    requires
        parent matches MathNode::Binom(a, b) && *a == *top && *b == *bottom,
        layout_defined(parent),
    ensures
        r@ == binom_block(layout_spec(*top), layout_spec(*bottom)),
        r@.wf(),
    decreases parent, 0nat,
{
    // Render as a fraction with parentheses instead of a bar
    let top_block = layout(top);
    let bot_block = layout(bottom);

    let inner_width = if top_block.width() >= bot_block.width() {
        top_block.width()
    } else {
        bot_block.width()
    };
    let top_centered = top_block.center_in(inner_width);
    let bot_centered = bot_block.center_in(inner_width);

    let baseline = top_centered.height();
    let stacked = RenderedBlock::above(&top_centered, &bot_centered, baseline - 1);

    proof {
        reveal_strlit("(");
        reveal_strlit(")");
        assert("("@ =~= seq!['(']);
        assert(")"@ =~= seq![')']);
    }
    enclose("(", ")", &stacked)
}

/// Lays out an overbrace or underbrace.
fn layout_brace(
    content: &MathNode,
    label: &Option<Box<MathNode>>,
    over: &bool,
    Ghost(parent): Ghost<MathNode>,
) -> (r: RenderedBlock)
    requires
        parent matches MathNode::Brace { content: c, label: l, over: o } && *c == *content && l
            == *label,
        layout_defined(parent),
    ensures
        r@ == brace_block(layout_spec(*content), opt_layout(*label), *over),
        r@.wf(),
    decreases parent, 0nat,
{
    let content_block = layout(content);
    let w = content_block.width();

    // Build a horizontal brace
    let brace_char = if *over {
        '⏞'
    } else {
        '⏟'
    };
    let brace_block = RenderedBlock::hline(brace_char, w);

    match label {
        Some(lbl) => {
            let label_block = layout(lbl).center_in(w);
            if *over {
                let top = RenderedBlock::above(&label_block, &brace_block, label_block.height());
                above_offset(&top, &content_block, content_block.baseline())
            } else {
                let bottom = RenderedBlock::above(&brace_block, &label_block, 0);
                let baseline = content_block.baseline();
                RenderedBlock::above(&content_block, &bottom, baseline)
            }
        },
        None => {
            if *over {
                above_offset(&brace_block, &content_block, content_block.baseline())
            } else {
                let baseline = content_block.baseline();
                RenderedBlock::above(&content_block, &brace_block, baseline)
            }
        },
    }
}

/// Lays out a base with an annotation over or under it.
fn layout_stackrel(
    base: &MathNode,
    annotation: &MathNode,
    over: &bool,
    Ghost(parent): Ghost<MathNode>,
) -> (r: RenderedBlock)
    requires
        parent matches MathNode::StackRel { base: b, annotation: a, over: o } && *b == *base && *a
            == *annotation,
        layout_defined(parent),
    ensures
        r@ == stackrel_block(layout_spec(*base), layout_spec(*annotation), *over),
        r@.wf(),
    decreases parent, 0nat,
{
    let base_block = layout(base);
    let ann_block = layout(annotation);
    let w = if base_block.width() >= ann_block.width() {
        base_block.width()
    } else {
        ann_block.width()
    };
    let base_centered = base_block.center_in(w);
    let ann_centered = ann_block.center_in(w);

    if *over {
        above_offset(&ann_centered, &base_centered, base_block.baseline())
    } else {
        let baseline = base_block.baseline();
        RenderedBlock::above(&base_centered, &ann_centered, baseline)
    }
}


/// The blocks of a sequence.
pub open spec fn block_views(v: Seq<RenderedBlock>) -> Seq<Block> {
    v.map_values(|b: RenderedBlock| b@)
}

/// The blocks of a grid of blocks.
pub open spec fn block_grid_views(v: Seq<Vec<RenderedBlock>>) -> Seq<Seq<Block>> {
    v.map_values(|row: Vec<RenderedBlock>| block_views(row@))
}

proof fn lemma_cells_spec_len(cells: Seq<MathNode>)
    ensures
        cells_spec(cells).len() == cells.len(),
    decreases cells.len(),
{
    if cells.len() > 0 {
        lemma_cells_spec_len(cells.drop_last());
    }
}

proof fn lemma_rows_spec_len(rows: Seq<Vec<MathNode>>)
    ensures
        rows_spec(rows).len() == rows.len(),
    decreases rows.len(),
{
    if rows.len() > 0 {
        lemma_rows_spec_len(rows.drop_last());
    }
}

proof fn lemma_col_width_step(rows: Seq<Seq<Block>>, r: int, k: int)
    requires
        0 <= r < rows.len(),
    ensures
        col_width(rows.take(r + 1), k) == max_nat(
            col_width(rows.take(r), k),
            if 0 <= k < rows[r].len() {
                rows[r][k].width()
            } else {
                0
            },
        ),
{
    assert(rows.take(r + 1).drop_last() =~= rows.take(r));
    assert(rows.take(r + 1).last() == rows[r]);
}

proof fn lemma_max_cols(rows: Seq<Seq<Block>>, i: int)
    requires
        0 <= i < rows.len(),
    ensures
        rows[i].len() <= max_cols(rows),
    decreases rows.len(),
{
    if i < rows.len() - 1 {
        lemma_max_cols(rows.drop_last(), i);
    }
}

/// The layouts of the cells of a matrix row.
fn layout_cells(cells: &Vec<MathNode>) -> (r: Vec<RenderedBlock>)
    requires
        seq_defined(cells@),
    ensures
        block_views(r@) == cells_spec(cells@),
        forall|j: int| 0 <= j < r@.len() ==> (#[trigger] r@[j])@.wf(),
    decreases cells, 0nat,
{
    let mut out: Vec<RenderedBlock> = Vec::new();
    let mut j: usize = 0;
    while j < cells.len()
        invariant
            0 <= j <= cells.len(),
            seq_defined(cells@),
            block_views(out@) =~= cells_spec(cells@.take(j as int)),
            forall|k: int| 0 <= k < out@.len() ==> (#[trigger] out@[k])@.wf(),
        decreases cells.len() - j,
    {
        proof {
            lemma_seq_defined(cells@, j as int);
        }
        let b = layout(&cells[j]);
        out.push(b);
        assert(cells@.take(j + 1).drop_last() =~= cells@.take(j as int));
        j = j + 1;
    }
    assert(cells@.take(cells.len() as int) =~= cells@);
    out
}

/// Lays out a matrix.
fn layout_matrix(kind: &MatrixStyle, matrix_rows: &Vec<Vec<MathNode>>) -> (r: RenderedBlock)
    requires
        rows_defined(matrix_rows@),
    ensures
        r@ == matrix_block(*kind, rows_spec(matrix_rows@)),
        r@.wf(),
    decreases matrix_rows, 0nat,
{
    proof {
        lemma_rows_spec_len(matrix_rows@);
    }
    if matrix_rows.len() == 0 {
        return RenderedBlock::empty();
    }
    // Render all cells

    let mut rendered: Vec<Vec<RenderedBlock>> = Vec::new();
    let mut i: usize = 0;
    while i < matrix_rows.len()
        invariant
            0 <= i <= matrix_rows.len(),
            rows_defined(matrix_rows@),
            block_grid_views(rendered@) =~= rows_spec(matrix_rows@.take(i as int)),
            forall|a: int, b: int|
                0 <= a < rendered@.len() && 0 <= b < rendered@[a]@.len() ==> (
                #[trigger] rendered@[a]@[b])@.wf(),
        decreases matrix_rows.len() - i,
    {
        proof {
            lemma_rows_defined(matrix_rows@, i as int);
        }
        let row_blocks = layout_cells(&matrix_rows[i]);
        rendered.push(row_blocks);
        assert(matrix_rows@.take(i + 1).drop_last() =~= matrix_rows@.take(i as int));
        i = i + 1;
    }
    assert(matrix_rows@.take(matrix_rows.len() as int) =~= matrix_rows@);
    let ghost grid_spec = rows_spec(matrix_rows@);
    assert(block_grid_views(rendered@) == grid_spec);

    // Compute column widths
    let mut num_cols: usize = 0;
    let mut i: usize = 0;
    while i < rendered.len()
        invariant
            0 <= i <= rendered.len(),
            block_grid_views(rendered@) == grid_spec,
            num_cols == max_cols(grid_spec.take(i as int)),
        decreases rendered.len() - i,
    {
        assert(grid_spec.take(i + 1).drop_last() =~= grid_spec.take(i as int));
        assert(grid_spec[i as int].len() == rendered@[i as int]@.len());
        if rendered[i].len() > num_cols {
            num_cols = rendered[i].len();
        }
        i = i + 1;
    }
    assert(grid_spec.take(rendered.len() as int) =~= grid_spec);

    let mut col_widths: Vec<usize> = Vec::new();
    let mut c: usize = 0;
    while c < num_cols
        invariant
            0 <= c <= num_cols,
            col_widths@.len() == c,
            forall|k: int| 0 <= k < c ==> col_widths@[k] == 0,
        decreases num_cols - c,
    {
        col_widths.push(0);
        c = c + 1;
    }

    let mut r: usize = 0;
    while r < rendered.len()
        invariant
            0 <= r <= rendered.len(),
            block_grid_views(rendered@) == grid_spec,
            num_cols == max_cols(grid_spec),
            col_widths@.len() == num_cols,
            forall|k: int| 0 <= k < num_cols ==> col_widths@[k] == col_width(grid_spec.take(r as int), k),
        decreases rendered.len() - r,
    {
        proof {
            lemma_max_cols(grid_spec, r as int);
        }
        assert(grid_spec.take(r + 1).drop_last() =~= grid_spec.take(r as int));
        let row = &rendered[r];
        assert(grid_spec[r as int] == block_views(row@));
        let mut c: usize = 0;
        while c < row.len()
            invariant
                0 <= c <= row@.len(),
                *row == rendered@[r as int],
                0 <= r < grid_spec.len(),
                grid_spec[r as int] == block_views(row@),
                block_grid_views(rendered@) == grid_spec,
                row@.len() <= num_cols,
                col_widths@.len() == num_cols,
                grid_spec.take(r + 1).drop_last() == grid_spec.take(r as int),
                forall|k: int|
                    0 <= k < num_cols ==> col_widths@[k] == if k < c {
                        col_width(grid_spec.take(r + 1), k)
                    } else {
                        col_width(grid_spec.take(r as int), k)
                    },
            decreases row.len() - c,
        {
            assert(grid_spec[r as int][c as int] == row@[c as int]@);
            let w = row[c].width();
            if w > col_widths[c] {
                col_widths.set(c, w);
            }
            proof {
                assert forall|k: int| 0 <= k < num_cols implies col_widths@[k] == if k < c + 1 {
                    col_width(grid_spec.take(r + 1), k)
                } else {
                    col_width(grid_spec.take(r as int), k)
                } by {
                    lemma_col_width_step(grid_spec, r as int, k);
                }
            }
            c = c + 1;
        }
        proof {
            assert forall|k: int| 0 <= k < num_cols implies col_widths@[k] == col_width(
                grid_spec.take(r + 1),
                k,
            ) by {
                lemma_col_width_step(grid_spec, r as int, k);
            }
        }
        r = r + 1;
    }
    assert(grid_spec.take(rendered.len() as int) =~= grid_spec);
    let ghost widths = column_widths(grid_spec);
    assert(col_widths@.map_values(|w: usize| w as nat) =~= widths);

    // Build grid row by row
    let ghost row_specs = matrix_row_blocks(grid_spec);
    let mut grid = RenderedBlock::empty();
    let mut r: usize = 0;
    while r < rendered.len()
        invariant
            0 <= r <= rendered.len(),
            block_grid_views(rendered@) == grid_spec,
            num_cols == max_cols(grid_spec),
            widths == column_widths(grid_spec),
            col_widths@.map_values(|w: usize| w as nat) == widths,
            row_specs == matrix_row_blocks(grid_spec),
            col_widths@.len() == num_cols,
            grid@ == stack_rows(row_specs.take(r as int)),
            grid@.wf(),
        decreases rendered.len() - r,
    {
        proof {
            lemma_max_cols(grid_spec, r as int);
        }
        let row = &rendered[r];
        let ghost cells = grid_spec[r as int];
        assert(cells == block_views(row@));
        let mut row_block = RenderedBlock::empty();
        let mut c: usize = 0;
        while c < row.len()
            invariant
                0 <= c <= row@.len(),
                *row == rendered@[r as int],
                cells == grid_spec[r as int],
                cells == block_views(row@),
                block_grid_views(rendered@) == grid_spec,
                row@.len() <= num_cols,
                col_widths@.len() == num_cols,
                col_widths@.map_values(|w: usize| w as nat) == widths,
                row_block@ == matrix_row_block(cells.take(c as int), widths),
                row_block@.wf(),
            decreases row.len() - c,
        {
            assert(cells[c as int] == row@[c as int]@);
            assert(col_widths@.map_values(|w: usize| w as nat)[c as int] == col_widths@[c as int]);
            let padded = row[c].center_in(col_widths[c]);
            if !row_block.is_empty() {
                let sep = RenderedBlock::from_text("  ");
                proof {
                    reveal_strlit("  ");
                    assert("  "@ =~= seq![' ', ' ']);
                }
                row_block = row_block.beside(&sep);
            }
            row_block = row_block.beside(&padded);
            assert(cells.take(c + 1).drop_last() =~= cells.take(c as int));
            c = c + 1;
        }
        assert(cells.take(row.len() as int) =~= cells);
        assert(row_specs[r as int] == matrix_row_block(cells, widths));
        if grid.is_empty() {
            grid = row_block;
        } else {
            grid = RenderedBlock::above(&grid, &row_block, grid.height() / 2);
        }
        assert(row_specs.take(r + 1).drop_last() =~= row_specs.take(r as int));
        r = r + 1;
    }
    assert(row_specs.take(rendered.len() as int) =~= row_specs);

    // Set baseline to middle
    let total_height = grid.height();
    let grid = RenderedBlock::new(copy_rows(grid.cells()), total_height / 2);

    // Wrap with delimiters based on matrix kind
    let (left, right) = match kind {
        MatrixStyle::Paren => ("(", ")"),
        MatrixStyle::Bracket => ("[", "]"),
        MatrixStyle::Brace => ("{", "}"),
        MatrixStyle::VBar => ("|", "|"),
        MatrixStyle::DoubleVBar => ("‖", "‖"),
        MatrixStyle::Plain => ("", ""),
    };
    proof {
        reveal_strlit("(");
        reveal_strlit(")");
        reveal_strlit("[");
        reveal_strlit("]");
        reveal_strlit("{");
        reveal_strlit("}");
        reveal_strlit("|");
        reveal_strlit("‖");
        reveal_strlit("");
        assert("("@ =~= seq!['(']);
        assert(")"@ =~= seq![')']);
        assert("["@ =~= seq!['[']);
        assert("]"@ =~= seq![']']);
        assert("{"@ =~= seq!['{']);
        assert("}"@ =~= seq!['}']);
        assert("|"@ =~= seq!['|']);
        assert("‖"@ =~= seq!['‖']);
        assert(""@ =~= Seq::<char>::empty());
        assert((left@, right@) == matrix_delims(*kind));
    }

    if left.is_empty() {
        grid
    } else {
        let left_d = build_delimiter(left, total_height);
        let right_d = build_delimiter(right, total_height);
        left_d.beside(&grid).beside(&right_d)
    }
}

/// Lays out cases.
fn layout_cases(rows: &Vec<(MathNode, Option<MathNode>)>) -> (r: RenderedBlock)
    requires
        cases_defined(rows@),
    ensures
        r@ == cases_block(cases_spec(rows@)),
        r@.wf(),
    decreases rows, 0nat,
{
    proof {
        reveal_strlit("  if ");
        assert("  if "@ =~= seq![' ', ' ', 'i', 'f', ' ']);
    }
    // Render as a left-brace delimited set of rows
    let mut rendered: Vec<RenderedBlock> = Vec::new();
    let mut i: usize = 0;
    while i < rows.len()
        invariant
            0 <= i <= rows.len(),
            cases_defined(rows@),
            "  if "@ == seq![' ', ' ', 'i', 'f', ' '],
            block_views(rendered@) =~= cases_spec(rows@.take(i as int)),
            forall|k: int| 0 <= k < rendered@.len() ==> (#[trigger] rendered@[k])@.wf(),
        decreases rows.len() - i,
    {
        proof {
            lemma_cases_defined(rows@, i as int);
        }
        let val_block = layout(&rows[i].0);
        let row_block = match &rows[i].1 {
            Some(c) => {
                let cond_block = layout(c);
                val_block.beside(&RenderedBlock::from_text("  if ")).beside(&cond_block)
            },
            None => val_block,
        };
        rendered.push(row_block);
        assert(rows@.take(i + 1).drop_last() =~= rows@.take(i as int));
        i = i + 1;
    }
    assert(rows@.take(rows.len() as int) =~= rows@);
    let ghost blocks = cases_spec(rows@);

    let mut max_width: usize = 0;
    let mut i: usize = 0;
    while i < rendered.len()
        invariant
            0 <= i <= rendered.len(),
            block_views(rendered@) == blocks,
            max_width == widest(blocks.take(i as int)),
        decreases rendered.len() - i,
    {
        assert(blocks.take(i + 1).drop_last() =~= blocks.take(i as int));
        assert(blocks[i as int] == rendered@[i as int]@);
        if rendered[i].width() > max_width {
            max_width = rendered[i].width();
        }
        i = i + 1;
    }
    assert(blocks.take(rendered.len() as int) =~= blocks);

    let ghost row_specs = blocks.map_values(|b: Block| case_row_block(b, max_width as nat));
    let mut grid = RenderedBlock::empty();
    let mut i: usize = 0;
    while i < rendered.len()
        invariant
            0 <= i <= rendered.len(),
            block_views(rendered@) == blocks,
            row_specs == blocks.map_values(|b: Block| case_row_block(b, max_width as nat)),
            grid@ == stack_rows(row_specs.take(i as int)),
            grid@.wf(),
        decreases rendered.len() - i,
    {
        let row_block = &rendered[i];
        assert(blocks[i as int] == row_block@);
        let padded = RenderedBlock::new(copy_rows(row_block.cells()), row_block.baseline());
        // Pad to max width
        let padded_cells = padded.cells();
        let ghost want = padded@.rows.map_values(
            |r: Seq<Seq<char>>| pad_row(r, max_width as nat),
        );
        let mut full: Vec<Vec<String>> = Vec::new();
        let mut k: usize = 0;
        while k < padded_cells.len()
            invariant
                0 <= k <= padded_cells@.len(),
                padded_cells.deep_view() == padded@.rows,
                want == padded@.rows.map_values(
                    |r: Seq<Seq<char>>| pad_row(r, max_width as nat),
                ),
                full.deep_view() =~= want.take(k as int),
            decreases padded_cells.len() - k,
        {
            let row = padded_row(0, &padded_cells[k], max_width);
            assert(row.deep_view() =~= want[k as int]);
            push_row(&mut full, row);
            k = k + 1;
        }
        assert(want.take(padded_cells.len() as int) =~= want);
        let full_row = RenderedBlock::new(full, padded.baseline());
        assert(full_row@ == row_specs[i as int]);
        if grid.is_empty() {
            grid = full_row;
        } else {
            grid = RenderedBlock::above(&grid, &full_row, grid.height() / 2);
        }
        assert(row_specs.take(i + 1).drop_last() =~= row_specs.take(i as int));
        i = i + 1;
    }
    assert(row_specs.take(rendered.len() as int) =~= row_specs);

    let total_height = grid.height();
    let grid = RenderedBlock::new(copy_rows(grid.cells()), total_height / 2);
    let left_brace = build_delimiter("{", total_height);
    proof {
        reveal_strlit("{");
        assert("{"@ =~= seq!['{']);
    }
    left_brace.beside(&grid)
}


// ---------------------------------------------------------------------------
// Whether a tree can be laid out.
// ---------------------------------------------------------------------------

/// Whether every node of `node` can be laid out: the top of each binomial
/// coefficient has at least one row.
pub fn can_layout(node: &MathNode) -> (b: bool)
    ensures
        b == layout_defined(*node),
    decreases node,
{
    match node {
        MathNode::Text(_) => true,
        MathNode::Space => true,
        MathNode::TextBlock(_) => true,
        MathNode::Sequence(children) => can_layout_all(children),
        MathNode::Frac(a, b) => can_layout(a) && can_layout(b),
        MathNode::Sup(a, b) => can_layout(a) && can_layout(b),
        MathNode::Sub(a, b) => can_layout(a) && can_layout(b),
        MathNode::SupSub(a, b, c) => can_layout(a) && can_layout(b) && can_layout(c),
        MathNode::Sqrt(a) => can_layout(a),
        MathNode::BigOp { symbol: _, lower, upper } => {
            let l = match lower {
                Some(l) => can_layout(l),
                None => true,
            };
            let u = match upper {
                Some(u) => can_layout(u),
                None => true,
            };
            l && u
        },
        MathNode::Accent(a, _) => can_layout(a),
        MathNode::Limit { name: _, lower } => match lower {
            Some(l) => can_layout(l),
            None => true,
        },
        MathNode::MathFont { kind: _, content } => can_layout(content),
        MathNode::Delimited { left: _, right: _, content } => can_layout(content),
        MathNode::Matrix { kind: _, rows } => can_layout_rows(rows),
        MathNode::Cases { rows } => can_layout_cases(rows),
        MathNode::Binom(a, b) => {
            if can_layout(a) && can_layout(b) {
                layout(a).height() > 0
            } else {
                false
            }
        },
        MathNode::Brace { content, label, over: _ } => {
            let l = match label {
                Some(l) => can_layout(l),
                None => true,
            };
            can_layout(content) && l
        },
        MathNode::StackRel { base, annotation, over: _ } => can_layout(base) && can_layout(
            annotation,
        ),
    }
}

/// Whether every cell of a matrix can be laid out.
fn can_layout_rows(rows: &Vec<Vec<MathNode>>) -> (b: bool)
    ensures
        b == rows_defined(rows@),
    decreases rows,
{
    let mut ok = true;
    let mut i: usize = 0;
    while i < rows.len()
        invariant
            0 <= i <= rows.len(),
            ok == rows_defined(rows@.take(i as int)),
        decreases rows.len() - i,
    {
        assert(rows@.take(i + 1).drop_last() =~= rows@.take(i as int));
        let row_ok = can_layout_all(&rows[i]);
        ok = ok && row_ok;
        i = i + 1;
    }
    assert(rows@.take(rows.len() as int) =~= rows@);
    ok
}

/// Whether every value and condition of some cases can be laid out.
fn can_layout_cases(rows: &Vec<(MathNode, Option<MathNode>)>) -> (b: bool)
    ensures
        b == cases_defined(rows@),
    decreases rows,
{
    let mut ok = true;
    let mut i: usize = 0;
    while i < rows.len()
        invariant
            0 <= i <= rows.len(),
            ok == cases_defined(rows@.take(i as int)),
        decreases rows.len() - i,
    {
        assert(rows@.take(i + 1).drop_last() =~= rows@.take(i as int));
        let value_ok = can_layout(&rows[i].0);
        let condition_ok = match &rows[i].1 {
            Some(c) => can_layout(c),
            None => true,
        };
        ok = ok && value_ok && condition_ok;
        i = i + 1;
    }
    assert(rows@.take(rows.len() as int) =~= rows@);
    ok
}

/// Whether every node of `children` can be laid out.
fn can_layout_all(children: &Vec<MathNode>) -> (b: bool)
    ensures
        b == seq_defined(children@),
    decreases children,
{
    let mut ok = true;
    let mut i: usize = 0;
    while i < children.len()
        invariant
            0 <= i <= children.len(),
            ok == seq_defined(children@.take(i as int)),
        decreases children.len() - i,
    {
        assert(children@.take(i + 1).drop_last() =~= children@.take(i as int));
        let child_ok = can_layout(&children[i]);
        ok = ok && child_ok;
        i = i + 1;
    }
    assert(children@.take(children.len() as int) =~= children@);
    ok
}

} // verus!
