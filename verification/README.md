# term-maths

Character-grid rendering of LaTeX math for terminals, verified with Verus.
LaTeX is parsed by `rust_latex_parser` into an equation tree, and the tree is
laid out as a rectangular grid of cells with a baseline row.

- `src/block.rs`: `RenderedBlock`, its mathematical model `Block`, and the
  operations that compose blocks (side by side on a common baseline,
  stacked, centered).
- `src/node.rs`: the equation tree, `MathNode`.
- `src/font.rs`: math font families, drawn with the Unicode mathematical
  alphanumeric symbols (`\mathbb{R}` as `ℝ`, `\mathbf{x}` as `𝐱`).
- `src/layout.rs`: what each construct draws, as spec functions over `Block`,
  and the layout functions proved to draw exactly that: delimiters span the
  rows of what they enclose, `∫` is drawn three rows tall from `⌠ ⎮ ⌡`, and
  matrix columns are two blanks apart.
- `src/laws.rs`: properties of blocks and layouts (rectangularity, baseline
  alignment, identity and associativity of side-by-side placement, the shape
  of fractions, scripts, roots, big operators, fonts and delimiters, and that
  a layout has its baseline on one of its rows wherever the tree's shape
  ensures a row, in particular wherever every node draws at least one row).
- `src/parse.rs`: the call into the parser and the conversion of its tree.
- `app/`: `Display` for rendered output.
