//! LaTeX math parsed by `rust_latex_parser`, as the library's own tree.
use vstd::prelude::*;

use rust_latex_parser::AccentKind as ParsedAccent;
use rust_latex_parser::EqNode as Parsed;
use rust_latex_parser::MathFontKind as ParsedFont;
use rust_latex_parser::MatrixKind as ParsedMatrix;

use crate::node::{AccentMark, FontFamily, MathNode, MatrixStyle};

verus! {

#[verifier::external_type_specification]
#[verifier::external_body]
pub struct ExParsedNode(rust_latex_parser::EqNode);

#[verifier::external_type_specification]
#[verifier::external_body]
pub struct ExParsedAccent(rust_latex_parser::AccentKind);

#[verifier::external_type_specification]
#[verifier::external_body]
pub struct ExParsedFont(rust_latex_parser::MathFontKind);

#[verifier::external_type_specification]
#[verifier::external_body]
pub struct ExParsedMatrix(rust_latex_parser::MatrixKind);

/// The tree that `rust_latex_parser::parse_equation` makes of `latex`.
pub uninterp spec fn parsed_equation(latex: Seq<char>) -> MathNode;

/// Calls `rust_latex_parser::parse_equation`, which never fails: its tree,
/// converted node for node into a `MathNode` (the amount of a space is not
/// kept), is `parsed_equation` of the input's characters. What that tree is
/// for a given input is the parser's own business and is not stated here.
#[verifier::external_body]
pub(crate) fn parse_equation(latex: &str) -> (node: MathNode)
    ensures
        node == parsed_equation(latex@),
{
    from_parsed(rust_latex_parser::parse_equation(latex))
}

/// Converts a parsed tree into a `MathNode`, node for node.
#[verifier::external_body]
fn from_parsed(e: Parsed) -> MathNode {
    match e {
        Parsed::Text(s) => MathNode::Text(s),
        Parsed::Space(_) => MathNode::Space,
        Parsed::Seq(c) => MathNode::Sequence(from_parsed_list(c)),
        Parsed::Sup(x, y) => MathNode::Sup(from_parsed_box(x), from_parsed_box(y)),
        Parsed::Sub(x, y) => MathNode::Sub(from_parsed_box(x), from_parsed_box(y)),
        Parsed::SupSub(x, y, z) => MathNode::SupSub(from_parsed_box(x), from_parsed_box(y), from_parsed_box(z)),
        Parsed::Frac(x, y) => MathNode::Frac(from_parsed_box(x), from_parsed_box(y)),
        Parsed::Sqrt(x) => MathNode::Sqrt(from_parsed_box(x)),
        Parsed::Binom(x, y) => MathNode::Binom(from_parsed_box(x), from_parsed_box(y)),
        other => from_parsed_named(other),
    }
}

/// Converts the nodes with named fields, node for node.
#[verifier::external_body]
fn from_parsed_named(e: Parsed) -> MathNode {
    match e {
        Parsed::BigOp { symbol, lower, upper } => MathNode::BigOp { symbol, lower: from_parsed_opt(lower), upper: from_parsed_opt(upper) },
        Parsed::Limit { name, lower } => MathNode::Limit { name, lower: from_parsed_opt(lower) },
        Parsed::TextBlock(s) => MathNode::TextBlock(s),
        Parsed::Delimited { left, right, content } => MathNode::Delimited { left, right, content: from_parsed_box(content) },
        Parsed::Brace { content, label, over } => MathNode::Brace { content: from_parsed_box(content), label: from_parsed_opt(label), over },
        Parsed::StackRel { base, annotation, over } => MathNode::StackRel { base: from_parsed_box(base), annotation: from_parsed_box(annotation), over },
        other => from_parsed_styled(other),
    }
}

/// Converts the nodes that carry a kind, node for node; every other node
/// was converted by `from_parsed` or `from_parsed_named` before it gets here.
#[verifier::external_body]
fn from_parsed_styled(e: Parsed) -> MathNode {
    match e {
        Parsed::Accent(x, k) => MathNode::Accent(from_parsed_box(x), from_parsed_accent(k)),
        Parsed::MathFont { kind, content } => MathNode::MathFont { kind: from_parsed_font(kind), content: from_parsed_box(content) },
        Parsed::Matrix { kind, rows } => MathNode::Matrix { kind: from_parsed_matrix(kind), rows: rows.into_iter().map(from_parsed_list).collect() },
        Parsed::Cases { rows } => MathNode::Cases { rows: rows.into_iter().map(|(x, y)| (from_parsed(x), y.map(from_parsed))).collect() },
        other => from_parsed(other),
    }
}

/// Converts a boxed node.
#[verifier::external_body]
fn from_parsed_box(x: Box<Parsed>) -> Box<MathNode> {
    Box::new(from_parsed(*x))
}

/// Converts an optional boxed node.
#[verifier::external_body]
fn from_parsed_opt(x: Option<Box<Parsed>>) -> Option<Box<MathNode>> {
    x.map(from_parsed_box)
}

/// Converts a list of nodes, in order.
#[verifier::external_body]
fn from_parsed_list(x: Vec<Parsed>) -> Vec<MathNode> {
    x.into_iter().map(from_parsed).collect()
}

/// Converts an accent kind, variant for variant.
#[verifier::external_body]
fn from_parsed_accent(k: ParsedAccent) -> AccentMark {
    match k {
        ParsedAccent::Hat => AccentMark::Hat,
        ParsedAccent::Bar => AccentMark::Bar,
        ParsedAccent::Dot => AccentMark::Dot,
        ParsedAccent::DoubleDot => AccentMark::DoubleDot,
        ParsedAccent::Tilde => AccentMark::Tilde,
        ParsedAccent::Vec => AccentMark::Vec,
    }
}

/// Converts a font kind, variant for variant.
#[verifier::external_body]
fn from_parsed_font(k: ParsedFont) -> FontFamily {
    match k {
        ParsedFont::Bold => FontFamily::Bold,
        ParsedFont::Blackboard => FontFamily::Blackboard,
        ParsedFont::Calligraphic => FontFamily::Calligraphic,
        ParsedFont::Roman => FontFamily::Roman,
        ParsedFont::Fraktur => FontFamily::Fraktur,
        ParsedFont::SansSerif => FontFamily::SansSerif,
        ParsedFont::Monospace => FontFamily::Monospace,
    }
}

/// Converts a matrix kind, variant for variant.
#[verifier::external_body]
fn from_parsed_matrix(k: ParsedMatrix) -> MatrixStyle {
    match k {
        ParsedMatrix::Plain => MatrixStyle::Plain,
        ParsedMatrix::Paren => MatrixStyle::Paren,
        ParsedMatrix::Bracket => MatrixStyle::Bracket,
        ParsedMatrix::VBar => MatrixStyle::VBar,
        ParsedMatrix::DoubleVBar => MatrixStyle::DoubleVBar,
        ParsedMatrix::Brace => MatrixStyle::Brace,
    }
}

} // verus!
