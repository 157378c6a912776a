use term_maths::block::RenderedBlock;
use term_maths::layout::{build_delimiter, build_sup_sub_grid, can_layout, layout, layout_text};
use term_maths::node::{AccentMark, FontFamily, MathNode, MatrixStyle};
use term_maths::{render, try_render};

fn rows(b: &RenderedBlock) -> Vec<String> {
    b.cells().iter().map(|r| r.concat()).collect()
}

fn trimmed(b: &RenderedBlock) -> Vec<String> {
    b.to_text().lines().map(|l| l.trim_end().to_string()).collect()
}

fn text(s: &str) -> MathNode {
    MathNode::Text(s.to_string())
}

fn bx(n: MathNode) -> Box<MathNode> {
    Box::new(n)
}

#[test]
fn test_layout_text_public() {
    assert_eq!(rows(&layout_text("ab")), vec!["ab"]);
}

#[test]
fn test_delimiter_invisible() {
    let d = build_delimiter(".", 3);
    assert_eq!(rows(&d), vec![" ", " ", " "]);
    assert_eq!(d.baseline(), 1);
    let e = build_delimiter("", 0);
    assert_eq!(e.height(), 0);
}

#[test]
fn test_delimiter_short() {
    let d = build_delimiter("(", 1);
    assert_eq!(rows(&d), vec!["("]);
    assert_eq!(build_delimiter("[", 0).height(), 1);
    assert_eq!(d.baseline(), 0);
}

#[test]
fn test_delimiter_tall() {
    assert_eq!(rows(&build_delimiter("(", 3)), vec!["⎛", "⎜", "⎝"]);
    assert_eq!(rows(&build_delimiter("}", 2)), vec!["⎫", "⎭"]);
    assert_eq!(rows(&build_delimiter("|", 4)), vec!["│", "│", "│", "│"]);
    assert_eq!(rows(&build_delimiter("⟨", 2)), vec!["⟨", "⟨"]);
    assert_eq!(build_delimiter("{", 5).baseline(), 2);
}

#[test]
fn test_sup_sub_grid_rows() {
    let base = vec![vec!["x".to_string()]];
    let sup = vec![vec!["2".to_string()]];
    let sub = vec![vec!["i".to_string(), "j".to_string()]];
    let rows = build_sup_sub_grid(&base, 1, 0, &sup, 1, Some((&sub, 2)), 0);
    let lines: Vec<String> = rows.iter().map(|r| r.concat()).collect();
    assert_eq!(lines, vec![" 2 ", "x  ", " ij"]);
}

#[test]
fn test_sup_only_grid_rows() {
    let base = vec![vec!["a".to_string(), "b".to_string()]];
    let sup = vec![vec!["n".to_string()], vec!["m".to_string()]];
    let rows = build_sup_sub_grid(&base, 2, 0, &sup, 1, None, 0);
    let lines: Vec<String> = rows.iter().map(|r| r.concat()).collect();
    assert_eq!(lines, vec!["  n", "  m", "ab "]);
}

#[test]
fn test_layout_frac_shape() {
    let f = layout(&MathNode::Frac(bx(text("a")), bx(text("bcd"))));
    assert_eq!(rows(&f), vec!["  a  ", "─────", " bcd "]);
    assert_eq!(f.baseline(), 1);
}

#[test]
fn test_layout_sup_baseline_is_base_row() {
    let s = layout(&MathNode::Sup(bx(text("e")), bx(text("x"))));
    assert_eq!(rows(&s), vec![" x", "e "]);
    assert_eq!(s.baseline(), 1);
}

#[test]
fn test_layout_sub_baseline_is_base_row() {
    let s = layout(&MathNode::Sub(bx(text("a")), bx(text("n"))));
    assert_eq!(rows(&s), vec!["a ", " n"]);
    assert_eq!(s.baseline(), 0);
}

#[test]
fn test_layout_sqrt() {
    let s = layout(&MathNode::Sqrt(bx(text("x"))));
    assert_eq!(rows(&s), vec![" ─", "√x"]);
    assert_eq!(s.baseline(), 1);
}

#[test]
fn test_layout_bigop_limits() {
    let n = MathNode::BigOp {
        symbol: "∑".to_string(),
        lower: Some(bx(text("i=0"))),
        upper: Some(bx(text("n"))),
    };
    let b = layout(&n);
    assert_eq!(rows(&b), vec![" n ", " ∑ ", "i=0"]);
    assert_eq!(b.baseline(), 1);
    let bare = layout(&MathNode::BigOp { symbol: "∏".to_string(), lower: None, upper: None });
    assert_eq!(rows(&bare), vec!["∏"]);
}

#[test]
fn test_layout_accents() {
    let hat = layout(&MathNode::Accent(bx(text("x")), AccentMark::Hat));
    assert_eq!(rows(&hat), vec!["^", "x"]);
    assert_eq!(hat.baseline(), 1);
    let bar = layout(&MathNode::Accent(bx(text("xy")), AccentMark::Bar));
    assert_eq!(rows(&bar), vec!["‾‾", "xy"]);
    let vec = layout(&MathNode::Accent(bx(text("abc")), AccentMark::Vec));
    assert_eq!(rows(&vec), vec![" → ", "abc"]);
}

#[test]
fn test_layout_limit() {
    let n = MathNode::Limit { name: "lim".to_string(), lower: Some(bx(text("x→0"))) };
    let b = layout(&n);
    assert_eq!(rows(&b), vec!["lim", "x→0"]);
    assert_eq!(b.baseline(), 0);
    let plain = layout(&MathNode::Limit { name: "sin".to_string(), lower: None });
    assert_eq!(rows(&plain), vec!["sin"]);
}

#[test]
fn test_layout_mathfont_blackboard() {
    let b = layout(&MathNode::MathFont { kind: FontFamily::Blackboard, content: bx(text("R")) });
    assert_eq!(rows(&b), vec!["ℝ"]);
}

#[test]
fn test_layout_delimited_frac() {
    let frac = MathNode::Frac(bx(text("a")), bx(text("b")));
    let n = MathNode::Delimited { left: "(".to_string(), right: ")".to_string(), content: bx(frac) };
    assert_eq!(rows(&layout(&n)), vec!["⎛ a ⎞", "⎜───⎟", "⎝ b ⎠"]);
}

#[test]
fn test_layout_matrix() {
    let n = MathNode::Matrix {
        kind: MatrixStyle::Paren,
        rows: vec![vec![text("a"), text("b")], vec![text("c"), text("dd")]],
    };
    let b = layout(&n);
    assert_eq!(rows(&b), vec!["⎛a  b ⎞", "⎝c  dd⎠"]);
    assert_eq!(b.baseline(), 1);
    let plain = MathNode::Matrix { kind: MatrixStyle::Plain, rows: vec![vec![text("1"), text("2")]] };
    assert_eq!(rows(&layout(&plain)), vec!["1  2"]);
    let none = MathNode::Matrix { kind: MatrixStyle::Bracket, rows: vec![] };
    assert!(layout(&none).is_empty());
}

#[test]
fn test_layout_cases() {
    let n = MathNode::Cases { rows: vec![(text("x"), Some(text("x>0"))), (text("0"), None)] };
    let b = layout(&n);
    assert_eq!(rows(&b), vec!["⎧x  if x>0", "⎩0        "]);
    assert_eq!(b.baseline(), 1);
}

#[test]
fn test_layout_binom() {
    // The parentheses span the pair; the baseline is the top's last row.
    let b = layout(&MathNode::Binom(bx(text("n")), bx(text("k"))));
    assert_eq!(rows(&b), vec!["⎛n⎞", "⎝k⎠"]);
    assert_eq!(b.height(), 2);
    assert_eq!(b.baseline(), 0);
}

#[test]
fn test_layout_brace() {
    let over = MathNode::Brace { content: bx(text("ab")), label: Some(bx(text("n"))), over: true };
    let b = layout(&over);
    assert_eq!(rows(&b), vec!["n ", "⏞⏞", "ab"]);
    assert_eq!(b.baseline(), 2);
    let under = MathNode::Brace { content: bx(text("ab")), label: None, over: false };
    let u = layout(&under);
    assert_eq!(rows(&u), vec!["ab", "⏟⏟"]);
    assert_eq!(u.baseline(), 0);
}

#[test]
fn test_layout_stackrel() {
    let over = MathNode::StackRel { base: bx(text("=")), annotation: bx(text("def")), over: true };
    let b = layout(&over);
    assert_eq!(rows(&b), vec!["def", " = "]);
    assert_eq!(b.baseline(), 1);
    let under = MathNode::StackRel { base: bx(text("=")), annotation: bx(text("x")), over: false };
    assert_eq!(rows(&layout(&under)), vec!["=", "x"]);
}

#[test]
fn test_layout_sequence_groups_alike() {
    let frac = || MathNode::Frac(bx(text("a")), bx(text("b")));
    let flat = MathNode::Sequence(vec![text("x"), frac(), text("y")]);
    let nested = MathNode::Sequence(vec![text("x"), MathNode::Sequence(vec![frac(), text("y")])]);
    assert_eq!(rows(&layout(&flat)), rows(&layout(&nested)));
    assert_eq!(rows(&layout(&flat)), vec!["  a  ", "x───y", "  b  "]);
}

#[test]
fn test_space_is_one_blank() {
    assert_eq!(rows(&layout(&MathNode::Space)), vec![" "]);
}

#[test]
fn test_can_layout_binom_with_empty_top() {
    let bad = MathNode::Binom(bx(MathNode::Sequence(vec![])), bx(text("k")));
    assert!(!can_layout(&bad));
    let good = MathNode::Binom(bx(text("n")), bx(text("k")));
    assert!(can_layout(&good));
}

#[test]
fn test_try_render() {
    let b = try_render(r"\frac{a}{b}").unwrap();
    assert_eq!(trimmed(&b), vec![" a", "───", " b"]);
}

#[test]
fn test_readme_nested_fraction() {
    assert_eq!(
        trimmed(&render(r"\frac{1}{1+\frac{1}{x}}")),
        vec!["    1", "─────────", "      1", " 1 + ───", "      x"]
    );
}

#[test]
fn test_readme_delimited_fraction() {
    assert_eq!(trimmed(&render(r"\left(\frac{a}{b}\right)")), vec!["⎛ a ⎞", "⎜───⎟", "⎝ b ⎠"]);
}

#[test]
fn test_readme_sqrt_fraction() {
    assert_eq!(trimmed(&render(r"\sqrt{\frac{a}{b}}")), vec![" ───", "│ a", "│───", "√ b"]);
}

#[test]
fn test_readme_overline() {
    assert_eq!(trimmed(&render(r"\overline{x+y}")), vec!["‾‾‾‾‾", "x + y"]);
}

#[test]
fn test_readme_sum_limits() {
    assert_eq!(trimmed(&render(r"\sum_{n=0}^{N-1}")), vec!["N - 1", "  ∑", "n = 0"]);
}

#[test]
fn test_readme_prod_limits() {
    assert_eq!(trimmed(&render(r"\prod_{i=1}^{n}")), vec!["  n", "  ∏", "i = 1"]);
}

#[test]
fn test_render_single_char_text() {
    assert_eq!(render("x").to_text(), "x");
}

#[test]
fn test_rendered_blocks_are_rectangular() {
    for latex in [
        r"\frac{-b \pm \sqrt{b^2 - 4ac}}{2a}",
        r"\sum_{n=0}^{N-1} x[n]",
        r"\begin{pmatrix} a & b \\ c & d \end{pmatrix}",
        r"\begin{cases} x & x>0 \\ 0 & x=0 \end{cases}",
        r"\binom{n}{k} + \overbrace{a+b}^{2}",
        r"x_i^2 + \hat{y} + \lim_{x \to 0}",
    ] {
        let b = render(latex);
        let w = b.width();
        assert!(b.cells().iter().all(|r| r.len() == w), "{}", latex);
        assert!(b.baseline() <= b.height(), "{}", latex);
    }
}

#[test]
fn test_matrix_and_cases_baseline_middle() {
    for latex in [
        r"\begin{bmatrix} 1 & 2 & 3 \\ 4 & 5 & 6 \\ 7 & 8 & 9 \end{bmatrix}",
        r"\begin{cases} a \\ b \\ c \\ d \end{cases}",
    ] {
        let b = render(latex);
        assert_eq!(b.baseline(), b.height() / 2, "{}", latex);
    }
}

#[test]
fn test_bmatrix_three_by_three() {
    assert_eq!(
        trimmed(&render(r"\begin{bmatrix}1&2&3\\4&5&6\\7&8&9\end{bmatrix}")),
        vec!["⎡1  2  3⎤", "⎢4  5  6⎥", "⎣7  8  9⎦"]
    );
}

#[test]
fn test_readme_pmatrix() {
    assert_eq!(
        trimmed(&render(r"\begin{pmatrix}a&b\\c&d\end{pmatrix}")),
        vec!["⎛a  b⎞", "⎝c  d⎠"]
    );
}

#[test]
fn test_readme_bmatrix_and_vmatrix() {
    assert_eq!(
        trimmed(&render(r"\begin{bmatrix}1&0\\0&1\end{bmatrix}")),
        vec!["⎡1  0⎤", "⎣0  1⎦"]
    );
    assert_eq!(
        trimmed(&render(r"\begin{vmatrix}a&b\\c&d\end{vmatrix}")),
        vec!["│a  b│", "│c  d│"]
    );
}

#[test]
fn test_readme_matrix_with_fractions() {
    assert_eq!(
        trimmed(&render(r"\begin{pmatrix}\frac{1}{2}&0\\0&\frac{3}{4}\end{pmatrix}")),
        vec!["⎛ 1      ⎞", "⎜───   0 ⎟", "⎜ 2      ⎟", "⎜      3 ⎟", "⎜ 0   ───⎟", "⎝      4 ⎠"]
    );
}

#[test]
fn test_delimiters_span_content_with_high_baseline() {
    // a over the square root of b: the baseline is the bar, the second of
    // four rows; the parentheses span exactly those four rows.
    let frac = MathNode::Frac(bx(text("a")), bx(MathNode::Sqrt(bx(text("b")))));
    let n = MathNode::Delimited { left: "(".to_string(), right: ")".to_string(), content: bx(frac) };
    let b = layout(&n);
    assert_eq!(rows(&b), vec!["⎛ a  ⎞", "⎜────⎟", "⎜  ─ ⎟", "⎝ √b ⎠"]);
    assert_eq!(b.height(), 4);
    assert_eq!(b.baseline(), 1);
}

#[test]
fn test_readme_binom() {
    assert_eq!(trimmed(&render(r"\binom{n}{k}")), vec!["⎛n⎞", "⎝k⎠"]);
}

#[test]
fn test_readme_integral_limits() {
    let b = render(r"\int_{0}^{1}");
    assert_eq!(trimmed(&b), vec!["1", "⌠", "⎮", "⌡", "0"]);
    assert_eq!(b.baseline(), 2);
}

#[test]
fn test_integral_alone_is_three_rows() {
    let n = MathNode::BigOp { symbol: "∫".to_string(), lower: None, upper: None };
    let b = layout(&n);
    assert_eq!(rows(&b), vec!["⌠", "⎮", "⌡"]);
    assert_eq!(b.baseline(), 1);
    let sum = MathNode::BigOp { symbol: "∑".to_string(), lower: None, upper: None };
    assert_eq!(rows(&layout(&sum)), vec!["∑"]);
}

#[test]
fn test_readme_math_fonts() {
    assert_eq!(render(r"\mathbb{R}").to_text(), "ℝ");
    assert_eq!(render(r"\mathbb{Z}").to_text(), "ℤ");
    assert_eq!(render(r"\mathcal{L}").to_text(), "ℒ");
    assert_eq!(render(r"\mathbf{x}").to_text(), "𝐱");
    assert_eq!(render(r"\mathfrak{g}").to_text(), "𝔤");
}

#[test]
fn test_math_font_families() {
    let font = |kind: FontFamily, s: &str| {
        rows(&layout(&MathNode::MathFont { kind, content: bx(text(s)) }))
    };
    assert_eq!(font(FontFamily::Bold, "Ax1+"), vec!["𝐀𝐱𝟏+"]);
    assert_eq!(font(FontFamily::Blackboard, "NQa0"), vec!["ℕℚ𝕒𝟘"]);
    assert_eq!(font(FontFamily::Calligraphic, "ABeo1"), vec!["𝒜ℬℯℴ1"]);
    assert_eq!(font(FontFamily::Fraktur, "ACz"), vec!["𝔄ℭ𝔷"]);
    assert_eq!(font(FontFamily::SansSerif, "Aa9"), vec!["𝖠𝖺𝟫"]);
    assert_eq!(font(FontFamily::Monospace, "Aa9"), vec!["𝙰𝚊𝟿"]);
    assert_eq!(font(FontFamily::Roman, "sin x"), vec!["sin x"]);
}

#[test]
fn test_math_font_keeps_shape() {
    let frac = MathNode::Frac(bx(text("a")), bx(text("b")));
    let plain = layout(&frac);
    let bold = layout(&MathNode::MathFont { kind: FontFamily::Bold, content: bx(frac) });
    assert_eq!(rows(&bold), vec![" 𝐚 ", "───", " 𝐛 "]);
    assert_eq!(bold.height(), plain.height());
    assert_eq!(bold.width(), plain.width());
    assert_eq!(bold.baseline(), plain.baseline());
}

#[test]
fn test_readme_superscript_in_font() {
    assert_eq!(trimmed(&render(r"\mathbb{R}^n")), vec![" n", "ℝ"]);
}

#[test]
fn test_baseline_on_a_row() {
    for latex in [
        r"\frac{a}{b}",
        r"\int_{0}^{1} f",
        r"\left(\frac{a}{\sqrt{b}}\right)",
        r"\binom{n}{k}",
        r"\begin{pmatrix} a & b \\ c & d \end{pmatrix}",
        r"\begin{cases} x & x>0 \\ 0 & x=0 \end{cases}",
        r"\overbrace{a+b}^{2}",
        r"\mathbb{R}^n",
    ] {
        let b = render(latex);
        assert!(b.height() >= 1, "{}", latex);
        assert!(b.baseline() < b.height(), "{}", latex);
    }
}

#[test]
fn test_readme_hann_window() {
    assert_eq!(
        trimmed(&render(r"w(n)=0.5 \left(1-\cos\left(\frac{2\pi n}{N-1}\right)\right)")),
        vec!["           ⎛       ⎛  2πn  ⎞⎞", "w(n) = 0.5 ⎜1 - cos⎜───────⎟⎟", "           ⎝       ⎝ N - 1 ⎠⎠"]
    );
}

#[test]
fn test_readme_convolution_integral() {
    assert_eq!(
        trimmed(&render(r"(f*g)(t)=\int_{-\infty}^{\infty} f(\tau) g(t-\tau) d\tau")),
        vec!["             ∞", "             ⌠", "(f · g)(t) = ⎮  f(τ) g(t - τ) dτ", "             ⌡", "             -∞"]
    );
}

#[test]
fn test_readme_dft_summation() {
    assert_eq!(
        trimmed(&render(r"X[k]=\sum_{n=0}^{N-1} x[n] \cdot e^{-j \frac{2\pi}{N} kn}")),
        vec![
            "                        2π",
            "                    -j ──── kn",
            "       N - 1            N",
            "X[k] =   ∑   x[n] ·e",
            "       n = 0",
        ]
    );
}

#[test]
fn test_empty_cases_draw_the_brace() {
    let b = layout(&MathNode::Cases { rows: vec![] });
    assert_eq!(rows(&b), vec!["{"]);
    assert_eq!(b.baseline(), 0);
}

#[test]
fn test_delimited_matrix_with_empty_rows() {
    let b = layout(&MathNode::Matrix { kind: MatrixStyle::Paren, rows: vec![vec![], vec![]] });
    assert_eq!(rows(&b), vec!["()"]);
    assert_eq!(b.baseline(), 0);
    let plain = layout(&MathNode::Matrix { kind: MatrixStyle::Plain, rows: vec![vec![], vec![]] });
    assert!(plain.is_empty());
}

#[test]
fn test_baseline_row_from_one_part() {
    // An empty base under a superscript, and a sequence with one empty
    // group: the other part still draws a row that carries the baseline.
    let sup = layout(&MathNode::Sup(bx(MathNode::Sequence(vec![])), bx(text("x"))));
    assert_eq!(rows(&sup), vec!["x"]);
    assert!(sup.baseline() < sup.height());
    let seq = layout(&MathNode::Sequence(vec![MathNode::Sequence(vec![]), text("y")]));
    assert_eq!(rows(&seq), vec!["y"]);
    assert_eq!(seq.baseline(), 0);
}
