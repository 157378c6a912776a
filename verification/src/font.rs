//! Math font families drawn with the Unicode mathematical alphanumeric
//! symbols.
use vstd::prelude::*;

use crate::block::{Block, RenderedBlock, char_string, push_row};
use crate::node::FontFamily;

verus! {

/// Whether `code` is a Unicode scalar value: a code point that is not a
/// surrogate.
pub open spec fn is_scalar(code: u32) -> bool {
    code <= 0xD7FF || (0xE000 <= code && code <= 0x10FFFF)
}

/// The code points where a family's capital letters, small letters and
/// digits begin among the mathematical alphanumeric symbols; zero where the
/// family draws them as they are.
pub open spec fn family_starts(kind: FontFamily) -> (u32, u32, u32) {
    match kind {
        FontFamily::Bold => (0x1D400, 0x1D41A, 0x1D7CE),
        FontFamily::Blackboard => (0x1D538, 0x1D552, 0x1D7D8),
        FontFamily::Calligraphic => (0x1D49C, 0x1D4B6, 0),
        FontFamily::Fraktur => (0x1D504, 0x1D51E, 0),
        FontFamily::SansSerif => (0x1D5A0, 0x1D5BA, 0x1D7E2),
        FontFamily::Monospace => (0x1D670, 0x1D68A, 0x1D7F6),
        FontFamily::Roman => (0, 0, 0),
    }
}

/// The letters of a family that Unicode encodes among the letterlike
/// symbols instead, leaving a gap in the family's run of letters.
pub open spec fn letterlike(kind: FontFamily, c: char) -> Option<char> {
    match kind {
        FontFamily::Blackboard => if c == 'C' {
            Some('ℂ')
        } else if c == 'H' {
            Some('ℍ')
        } else if c == 'N' {
            Some('ℕ')
        } else if c == 'P' {
            Some('ℙ')
        } else if c == 'Q' {
            Some('ℚ')
        } else if c == 'R' {
            Some('ℝ')
        } else if c == 'Z' {
            Some('ℤ')
        } else {
            None
        },
        FontFamily::Calligraphic => if c == 'B' {
            Some('ℬ')
        } else if c == 'E' {
            Some('ℰ')
        } else if c == 'F' {
            Some('ℱ')
        } else if c == 'H' {
            Some('ℋ')
        } else if c == 'I' {
            Some('ℐ')
        } else if c == 'L' {
            Some('ℒ')
        } else if c == 'M' {
            Some('ℳ')
        } else if c == 'R' {
            Some('ℛ')
        } else if c == 'e' {
            Some('ℯ')
        } else if c == 'g' {
            Some('ℊ')
        } else if c == 'o' {
            Some('ℴ')
        } else {
            None
        },
        FontFamily::Fraktur => if c == 'C' {
            Some('ℭ')
        } else if c == 'H' {
            Some('ℌ')
        } else if c == 'I' {
            Some('ℑ')
        } else if c == 'R' {
            Some('ℜ')
        } else if c == 'Z' {
            Some('ℨ')
        } else {
            None
        },
        _ => None,
    }
}

/// The character `offset` places after `start`.
pub open spec fn shifted(start: u32, offset: int) -> char {
    ((start + offset) as u32) as char
}

/// `c` in a font family: a Latin letter or digit becomes the family's
/// mathematical symbol for it (from the letterlike symbols where Unicode put
/// it there); other characters, and those a family does not restyle, stay.
pub open spec fn font_char(kind: FontFamily, c: char) -> char {
    let (upper, lower, digit) = family_starts(kind);
    let code = c as u32;
    match letterlike(kind, c) {
        Some(d) => d,
        None => if 0x41 <= code <= 0x5A && upper > 0 {
            shifted(upper, code - 0x41)
        } else if 0x61 <= code <= 0x7A && lower > 0 {
            shifted(lower, code - 0x61)
        } else if 0x30 <= code <= 0x39 && digit > 0 {
            shifted(digit, code - 0x30)
        } else {
            c
        },
    }
}

/// A cell's characters in a font family.
pub open spec fn font_cell(kind: FontFamily, cell: Seq<char>) -> Seq<char> {
    cell.map_values(|ch: char| font_char(kind, ch))
}

/// A row's cells in a font family.
pub open spec fn font_row(kind: FontFamily, row: Seq<Seq<char>>) -> Seq<Seq<char>> {
    row.map_values(|cell: Seq<char>| font_cell(kind, cell))
}

/// A block drawn in a font family: every cell restyled, the baseline kept.
pub open spec fn font_block(kind: FontFamily, b: Block) -> Block {
    Block::from_rows(b.rows.map_values(|row: Seq<Seq<char>>| font_row(kind, row)), b.baseline)
}

/// `std`'s `char::from_u32`: the character with code point `code`, or none
/// where `code` is not a Unicode scalar value.
#[verifier::external_body]
fn char_from_code(code: u32) -> (r: Option<char>)
    ensures
        is_scalar(code) ==> r == Some(code as char),
        !is_scalar(code) ==> r is None,
{
    char::from_u32(code)
}

/// Where a family's capital letters, small letters and digits begin.
fn family_starts_of(kind: &FontFamily) -> (r: (u32, u32, u32))
    ensures
        r == family_starts(*kind),
{
    match kind {
        FontFamily::Bold => (0x1D400, 0x1D41A, 0x1D7CE),
        FontFamily::Blackboard => (0x1D538, 0x1D552, 0x1D7D8),
        FontFamily::Calligraphic => (0x1D49C, 0x1D4B6, 0),
        FontFamily::Fraktur => (0x1D504, 0x1D51E, 0),
        FontFamily::SansSerif => (0x1D5A0, 0x1D5BA, 0x1D7E2),
        FontFamily::Monospace => (0x1D670, 0x1D68A, 0x1D7F6),
        FontFamily::Roman => (0, 0, 0),
    }
}

/// The letterlike symbol a family draws for `c`, if it draws one.
fn letterlike_of(kind: &FontFamily, c: char) -> (r: Option<char>)
    ensures
        r == letterlike(*kind, c),
{
    match kind {
        FontFamily::Blackboard => if c == 'C' {
            Some('ℂ')
        } else if c == 'H' {
            Some('ℍ')
        } else if c == 'N' {
            Some('ℕ')
        } else if c == 'P' {
            Some('ℙ')
        } else if c == 'Q' {
            Some('ℚ')
        } else if c == 'R' {
            Some('ℝ')
        } else if c == 'Z' {
            Some('ℤ')
        } else {
            None
        },
        FontFamily::Calligraphic => if c == 'B' {
            Some('ℬ')
        } else if c == 'E' {
            Some('ℰ')
        } else if c == 'F' {
            Some('ℱ')
        } else if c == 'H' {
            Some('ℋ')
        } else if c == 'I' {
            Some('ℐ')
        } else if c == 'L' {
            Some('ℒ')
        } else if c == 'M' {
            Some('ℳ')
        } else if c == 'R' {
            Some('ℛ')
        } else if c == 'e' {
            Some('ℯ')
        } else if c == 'g' {
            Some('ℊ')
        } else if c == 'o' {
            Some('ℴ')
        } else {
            None
        },
        FontFamily::Fraktur => if c == 'C' {
            Some('ℭ')
        } else if c == 'H' {
            Some('ℌ')
        } else if c == 'I' {
            Some('ℑ')
        } else if c == 'R' {
            Some('ℜ')
        } else if c == 'Z' {
            Some('ℨ')
        } else {
            None
        },
        _ => None,
    }
}

/// The character `offset` places after `start`.
fn shifted_of(start: u32, offset: u32) -> (r: char)
    requires
        0x1D400 <= start <= 0x1D7F6,
        offset < 26,
    ensures
        r == shifted(start, offset as int),
{
    let code = start + offset;
    assert(is_scalar(code));
    match char_from_code(code) {
        Some(d) => d,
        None => ' ',
    }
}

/// `c` in a font family.
pub fn font_char_of(kind: &FontFamily, c: char) -> (r: char)
    ensures
        r == font_char(*kind, c),
{
    let (upper, lower, digit) = family_starts_of(kind);
    let code = c as u32;
    match letterlike_of(kind, c) {
        Some(d) => d,
        None => if 0x41 <= code && code <= 0x5A && upper > 0 {
            shifted_of(upper, code - 0x41)
        } else if 0x61 <= code && code <= 0x7A && lower > 0 {
            shifted_of(lower, code - 0x61)
        } else if 0x30 <= code && code <= 0x39 && digit > 0 {
            shifted_of(digit, code - 0x30)
        } else {
            c
        },
    }
}

/// A cell's characters in a font family.
fn font_cell_of(kind: &FontFamily, cell: &String) -> (r: String)
    ensures
        r@ == font_cell(*kind, cell@),
{
    let mut out = String::new();
    for ch in it: cell.as_str().chars()
        invariant
            it.seq() == cell@,
            out@ =~= font_cell(*kind, cell@.take(it.index() as int)),
    {
        let ghost before = out@;
        let fc = font_char_of(kind, ch);
        let s = char_string(fc);
        out.append(s.as_str());
        assert(cell@.take(it.index() + 1) =~= cell@.take(it.index() as int).push(ch));
    }
    assert(cell@.take(cell@.len() as int) =~= cell@);
    out
}

/// A row's cells in a font family.
fn font_row_of(kind: &FontFamily, row: &Vec<String>) -> (r: Vec<String>)
    ensures
        r.deep_view() == font_row(*kind, row.deep_view()),
{
    let mut out: Vec<String> = Vec::new();
    let mut i: usize = 0;
    while i < row.len()
        invariant
            0 <= i <= row.len(),
            out.deep_view() =~= font_row(*kind, row.deep_view().take(i as int)),
        decreases row.len() - i,
    {
        let c = font_cell_of(kind, &row[i]);
        let ghost before = out.deep_view();
        let ghost ov = out@;
        out.push(c);
        assert(out@ == ov.push(c));
        assert(out.deep_view() =~= before.push(c@));
        assert(row.deep_view().take(i + 1) =~= row.deep_view().take(i as int).push(row@[i as int]@));
        i = i + 1;
    }
    assert(row.deep_view().take(row.len() as int) =~= row.deep_view());
    out
}

/// A block drawn in a font family.
pub fn font_block_of(kind: &FontFamily, b: &RenderedBlock) -> (r: RenderedBlock)
    ensures
        r@ == font_block(*kind, b@),
        r@.wf(),
{
    let cells = b.cells();
    let ghost mapped = b@.rows.map_values(|row: Seq<Seq<char>>| font_row(*kind, row));
    let mut rows: Vec<Vec<String>> = Vec::new();
    let mut i: usize = 0;
    while i < cells.len()
        invariant
            0 <= i <= cells.len(),
            cells.deep_view() == b@.rows,
            mapped == b@.rows.map_values(|row: Seq<Seq<char>>| font_row(*kind, row)),
            rows.deep_view() =~= mapped.take(i as int),
        decreases cells.len() - i,
    {
        let row = font_row_of(kind, &cells[i]);
        assert(cells@[i as int].deep_view() == b@.rows[i as int]);
        push_row(&mut rows, row);
        i = i + 1;
    }
    assert(mapped.take(cells.len() as int) =~= mapped);
    RenderedBlock::new(rows, b.baseline())
}


/// Whether `c` is an ASCII letter or digit: the characters that font
/// families restyle.
pub open spec fn is_ascii_alnum(c: char) -> bool {
    ('A' as u32 <= c as u32 <= 'Z' as u32) || ('a' as u32 <= c as u32 <= 'z' as u32) || (
    '0' as u32 <= c as u32 <= '9' as u32)
}

/// Restyling touches only ASCII letters and digits, and the upright (roman)
/// family leaves every character as it is.
pub proof fn lemma_font_keeps_others(kind: FontFamily, c: char)
    ensures
        !is_ascii_alnum(c) ==> font_char(kind, c) == c,
        font_char(FontFamily::Roman, c) == c,
{
}

/// Where each family draws the capital letters, small letters and digits
/// (`n` places after `A`, `a` or `0`): in its run of the mathematical
/// alphanumeric symbols, starting at the code point given, except for the
/// letters Unicode keeps among the letterlike symbols (double-struck ℂ ℍ ℕ
/// ℙ ℚ ℝ ℤ, script ℬ ℰ ℱ ℋ ℐ ℒ ℳ ℛ ℯ ℊ ℴ, fraktur ℭ ℌ ℑ ℜ ℨ). Script and
/// fraktur digits stay as they are.
pub proof fn lemma_font_runs(n: u32)
    ensures
        n < 26 ==> {
            let cap = (0x41 + n) as char;
            let small = (0x61 + n) as char;
            &&& font_char(FontFamily::Bold, cap) as u32 == 0x1D400 + n
            &&& font_char(FontFamily::Bold, small) as u32 == 0x1D41A + n
            &&& font_char(FontFamily::SansSerif, cap) as u32 == 0x1D5A0 + n
            &&& font_char(FontFamily::SansSerif, small) as u32 == 0x1D5BA + n
            &&& font_char(FontFamily::Monospace, cap) as u32 == 0x1D670 + n
            &&& font_char(FontFamily::Monospace, small) as u32 == 0x1D68A + n
            &&& font_char(FontFamily::Blackboard, small) as u32 == 0x1D552 + n
            &&& font_char(FontFamily::Fraktur, small) as u32 == 0x1D51E + n
            &&& font_char(FontFamily::Blackboard, cap) == if cap == 'C' {
                'ℂ'
            } else if cap == 'H' {
                'ℍ'
            } else if cap == 'N' {
                'ℕ'
            } else if cap == 'P' {
                'ℙ'
            } else if cap == 'Q' {
                'ℚ'
            } else if cap == 'R' {
                'ℝ'
            } else if cap == 'Z' {
                'ℤ'
            } else {
                (0x1D538 + n) as char
            }
            &&& font_char(FontFamily::Calligraphic, cap) == if cap == 'B' {
                'ℬ'
            } else if cap == 'E' {
                'ℰ'
            } else if cap == 'F' {
                'ℱ'
            } else if cap == 'H' {
                'ℋ'
            } else if cap == 'I' {
                'ℐ'
            } else if cap == 'L' {
                'ℒ'
            } else if cap == 'M' {
                'ℳ'
            } else if cap == 'R' {
                'ℛ'
            } else {
                (0x1D49C + n) as char
            }
            &&& font_char(FontFamily::Calligraphic, small) == if small == 'e' {
                'ℯ'
            } else if small == 'g' {
                'ℊ'
            } else if small == 'o' {
                'ℴ'
            } else {
                (0x1D4B6 + n) as char
            }
            &&& font_char(FontFamily::Fraktur, cap) == if cap == 'C' {
                'ℭ'
            } else if cap == 'H' {
                'ℌ'
            } else if cap == 'I' {
                'ℑ'
            } else if cap == 'R' {
                'ℜ'
            } else if cap == 'Z' {
                'ℨ'
            } else {
                (0x1D504 + n) as char
            }
        },
        n < 10 ==> {
            let digit = (0x30 + n) as char;
            &&& font_char(FontFamily::Bold, digit) as u32 == 0x1D7CE + n
            &&& font_char(FontFamily::Blackboard, digit) as u32 == 0x1D7D8 + n
            &&& font_char(FontFamily::SansSerif, digit) as u32 == 0x1D7E2 + n
            &&& font_char(FontFamily::Monospace, digit) as u32 == 0x1D7F6 + n
            &&& font_char(FontFamily::Calligraphic, digit) == digit
            &&& font_char(FontFamily::Fraktur, digit) == digit
        },
{
}

} // verus!
