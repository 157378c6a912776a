//! Character-grid rendering of mathematical notation for terminals: LaTeX
//! math is parsed into a tree and laid out as a grid of cells.
pub mod block;
pub mod font;
pub mod glyph_laws;
pub mod laws;
pub mod layout;
pub mod node;
pub mod parse;

pub use block::RenderedBlock;

use vstd::prelude::*;

use layout::{can_layout, layout, layout_defined, layout_spec};
use parse::{parse_equation, parsed_equation};

verus! {

/// Parses a LaTeX math string and renders it as a 2D character grid.
pub fn render(latex: &str) -> (r: RenderedBlock)
    requires
        layout_defined(parsed_equation(latex@)),
    ensures
        r@ == layout_spec(parsed_equation(latex@)),
{
    let ast = parse_equation(latex);
    layout(&ast)
}

/// Parses a LaTeX math string and renders it as a 2D character grid, or
/// gives `None` where the tree holds a binomial coefficient whose top has
/// no rows.
pub fn try_render(latex: &str) -> (r: Option<RenderedBlock>)
    ensures
        r matches Some(b) ==> b@ == layout_spec(parsed_equation(latex@)),
        r is None <==> !layout_defined(parsed_equation(latex@)),
{
    let ast = parse_equation(latex);
    if can_layout(&ast) {
        Some(render(latex))
    } else {
        None
    }
}

} // verus!
