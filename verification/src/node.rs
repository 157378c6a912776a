//! The equation tree that layout works on.
use vstd::prelude::*;

verus! {

/// The accent drawn above a node.
#[derive(Debug, Clone, Copy, PartialEq, Eq)]
pub enum AccentMark {
    Hat,
    Bar,
    Dot,
    DoubleDot,
    Tilde,
    Vec,
}

/// The font family of a node: layout draws its Latin letters and digits
/// with the family's Unicode mathematical alphanumeric symbols.
#[derive(Debug, Clone, Copy, PartialEq, Eq)]
pub enum FontFamily {
    Bold,
    Blackboard,
    Calligraphic,
    Roman,
    Fraktur,
    SansSerif,
    Monospace,
}

/// The delimiters around a matrix.
#[derive(Debug, Clone, Copy, PartialEq, Eq)]
pub enum MatrixStyle {
    Plain,
    Paren,
    Bracket,
    VBar,
    DoubleVBar,
    Brace,
}

/// A node of an equation tree, as LaTeX math is parsed into.
///
/// `Space` stands for horizontal space of any amount: layout draws one blank
/// cell for it, so its amount is not kept.
#[derive(Debug, PartialEq)]
pub enum MathNode {
    Text(String),
    Space,
    Sequence(Vec<MathNode>),
    /// `(base, superscript)`
    Sup(Box<MathNode>, Box<MathNode>),
    /// `(base, subscript)`
    Sub(Box<MathNode>, Box<MathNode>),
    /// `(base, superscript, subscript)`
    SupSub(Box<MathNode>, Box<MathNode>, Box<MathNode>),
    /// `(numerator, denominator)`
    Frac(Box<MathNode>, Box<MathNode>),
    Sqrt(Box<MathNode>),
    BigOp { symbol: String, lower: Option<Box<MathNode>>, upper: Option<Box<MathNode>> },
    Accent(Box<MathNode>, AccentMark),
    Limit { name: String, lower: Option<Box<MathNode>> },
    TextBlock(String),
    MathFont { kind: FontFamily, content: Box<MathNode> },
    Delimited { left: String, right: String, content: Box<MathNode> },
    Matrix { kind: MatrixStyle, rows: Vec<Vec<MathNode>> },
    Cases { rows: Vec<(MathNode, Option<MathNode>)> },
    /// `(top, bottom)`
    Binom(Box<MathNode>, Box<MathNode>),
    Brace { content: Box<MathNode>, label: Option<Box<MathNode>>, over: bool },
    StackRel { base: Box<MathNode>, annotation: Box<MathNode>, over: bool },
}

} // verus!
