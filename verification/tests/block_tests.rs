use term_maths::block::RenderedBlock;

fn rows(b: &RenderedBlock) -> Vec<String> {
    b.cells().iter().map(|r| r.concat()).collect()
}

fn grid(lines: &[&str]) -> Vec<Vec<String>> {
    lines.iter().map(|l| l.chars().map(|c| c.to_string()).collect()).collect()
}

#[test]
fn test_from_text_one_cell_per_char() {
    let b = RenderedBlock::from_text("aπ+");
    assert_eq!(b.height(), 1);
    assert_eq!(b.width(), 3);
    assert_eq!(b.baseline(), 0);
    assert_eq!(b.cells()[0], vec!["a", "π", "+"]);
}

#[test]
fn test_from_text_empty_is_one_empty_row() {
    let b = RenderedBlock::from_text("");
    assert_eq!(b.height(), 1);
    assert_eq!(b.width(), 0);
    assert!(!b.is_empty());
}

#[test]
fn test_from_char_and_hline() {
    assert_eq!(rows(&RenderedBlock::from_char('x')), vec!["x"]);
    assert_eq!(rows(&RenderedBlock::hline('─', 4)), vec!["────"]);
    assert_eq!(RenderedBlock::hline('─', 0).width(), 0);
}

#[test]
fn test_empty_block() {
    let e = RenderedBlock::empty();
    assert!(e.is_empty());
    assert_eq!(e.height(), 0);
    assert_eq!(e.width(), 0);
    assert_eq!(e.to_text(), "");
}

#[test]
fn test_new_pads_rows_and_keeps_baseline_within() {
    let b = RenderedBlock::new(grid(&["ab", "c", ""]), 7);
    assert_eq!(rows(&b), vec!["ab", "c ", "  "]);
    assert_eq!(b.baseline(), 3);
    assert_eq!(b.width(), 2);
}

#[test]
fn test_beside_aligns_baselines() {
    // A two-row block whose baseline is its second row, beside a one-row block
    let tall = RenderedBlock::new(grid(&["a", "b"]), 1);
    let flat = RenderedBlock::from_text("xy");
    let r = tall.beside(&flat);
    assert_eq!(r.baseline(), 1);
    assert_eq!(rows(&r), vec!["a  ", "bxy"]);
    let r2 = flat.beside(&tall);
    assert_eq!(rows(&r2), vec!["  a", "xyb"]);
}

#[test]
fn test_beside_depth_below_baseline() {
    let down = RenderedBlock::new(grid(&["p", "q", "r"]), 0);
    let up = RenderedBlock::new(grid(&["s", "t"]), 1);
    let r = down.beside(&up);
    // baseline 1; 1 row above it, 2 rows below it (from `down`)
    assert_eq!(r.baseline(), 1);
    assert_eq!(rows(&r), vec![" s", "pt", "q ", "r "]);
    assert_eq!(r.width(), 2);
}

#[test]
fn test_beside_empty_is_identity() {
    let b = RenderedBlock::new(grid(&["ab", "cd"]), 1);
    assert_eq!(rows(&RenderedBlock::empty().beside(&b)), rows(&b));
    assert_eq!(rows(&b.beside(&RenderedBlock::empty())), rows(&b));
    assert_eq!(RenderedBlock::empty().beside(&b).baseline(), 1);
}

#[test]
fn test_beside_associative() {
    let a = RenderedBlock::new(grid(&["a", "b"]), 0);
    let b = RenderedBlock::new(grid(&["c", "d", "e"]), 2);
    let c = RenderedBlock::from_text("f");
    let l = a.beside(&b).beside(&c);
    let r = a.beside(&b.beside(&c));
    assert_eq!(rows(&l), rows(&r));
    assert_eq!(l.baseline(), r.baseline());
}

#[test]
fn test_above_pads_and_sets_baseline() {
    let top = RenderedBlock::from_text("abc");
    let bottom = RenderedBlock::from_text("d");
    let r = RenderedBlock::above(&top, &bottom, 1);
    assert_eq!(rows(&r), vec!["abc", "d  "]);
    assert_eq!(r.baseline(), 1);
    let clamped = RenderedBlock::above(&top, &bottom, 9);
    assert_eq!(clamped.baseline(), 2);
}

#[test]
fn test_center_in() {
    let b = RenderedBlock::from_text("ab");
    assert_eq!(rows(&b.center_in(5)), vec![" ab  "]);
    assert_eq!(rows(&b.center_in(6)), vec!["  ab  "]);
    assert_eq!(rows(&b.center_in(1)), vec!["ab"]);
    // Centering twice in one width changes nothing more
    assert_eq!(rows(&b.center_in(5).center_in(5)), rows(&b.center_in(5)));
}

#[test]
fn test_to_text_joins_rows() {
    let b = RenderedBlock::new(grid(&["ab", "c"]), 0);
    assert_eq!(b.to_text(), "ab\nc ");
}

#[test]
fn test_clone_keeps_cells() {
    let b = RenderedBlock::new(grid(&["ab", "cd"]), 1);
    let c = b.clone();
    assert_eq!(rows(&c), rows(&b));
    assert_eq!(c.baseline(), 1);
}
