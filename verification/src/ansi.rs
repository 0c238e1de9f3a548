//! Stateful truecolour ANSI emission of a grid of cell choices.
use vstd::prelude::*;
use vstd::utf8::{encode_scalar, encode_utf8, is_scalar};

use crate::Choice;

verus! {

/// ASCII decimal digits of a byte, without leading zeros.
pub open spec fn decimal(n: u8) -> Seq<u8> {
    if n < 10 {
        seq![(48 + n) as u8]
    } else if n < 100 {
        seq![(48 + n / 10) as u8, (48 + n % 10) as u8]
    } else {
        seq![(48 + n / 100) as u8, (48 + (n / 10) % 10) as u8, (48 + n % 10) as u8]
    }
}

/// `<lead>8;2;r;g;b`: an SGR truecolour parameter list; `lead` is the
/// ASCII digit '3' (foreground) or '4' (background).
pub open spec fn rgb_params(lead: u8, c: [u8; 3]) -> Seq<u8> {
    seq![lead, 56u8, 59u8, 50u8, 59u8] + decimal(c[0]) + seq![59u8] + decimal(c[1]) + seq![59u8]
        + decimal(c[2])
}

/// UTF-8 bytes of the glyph for a codepoint; a value that is no Unicode
/// scalar is drawn as a space.
pub open spec fn glyph(codepoint: u32) -> Seq<u8> {
    if is_scalar(codepoint) {
        encode_scalar(codepoint)
    } else {
        seq![32u8]
    }
}

/// The background a cell asks for: `None` when it is transparent.
pub open spec fn cell_bg(c: Choice) -> Option<[u8; 3]> {
    if c.transparent_bg == 0 {
        Some(c.bg)
    } else {
        None
    }
}

/// Bytes for one cell given the colours in effect before it: an SGR
/// sequence naming only the fields that changed, if any did, then the glyph.
pub open spec fn cell_bytes(prev_fg: Option<[u8; 3]>, prev_bg: Option<[u8; 3]>, c: Choice) -> Seq<u8> {
    let bg = cell_bg(c);
    let fg_changed = prev_fg != Some(c.fg);
    let bg_changed = prev_bg != bg;
    let fg_part = if fg_changed {
        rgb_params(51, c.fg)
    } else {
        Seq::empty()
    };
    let bg_part = if bg_changed {
        (if fg_changed {
            seq![59u8]
        } else {
            Seq::empty()
        }) + match bg {
            Some(b) => rgb_params(52, b),
            None => seq![52u8, 57u8],
        }
    } else {
        Seq::empty()
    };
    let escape = if fg_changed || bg_changed {
        seq![27u8, 91u8] + fg_part + bg_part + seq![109u8]
    } else {
        Seq::empty()
    };
    escape + glyph(c.codepoint)
}

/// Bytes of cell `k` of the grid: the colours in effect are those of the
/// cell emitted before it, or none for the first cell.
pub open spec fn grid_cell_bytes(choices: Seq<Choice>, k: int) -> Seq<u8> {
    if k == 0 {
        cell_bytes(None, None, choices[0])
    } else {
        cell_bytes(Some(choices[k - 1].fg), cell_bg(choices[k - 1]), choices[k])
    }
}

/// The first `n` cells of row `cy`.
pub open spec fn row_bytes(choices: Seq<Choice>, columns: int, cy: int, n: int) -> Seq<u8>
    decreases n,
{
    if n <= 0 {
        Seq::empty()
    } else {
        row_bytes(choices, columns, cy, n - 1) + grid_cell_bytes(choices, cy * columns + n - 1)
    }
}

/// The first `n` rows, each but the last of all `rows` ended by a newline.
pub open spec fn grid_bytes(choices: Seq<Choice>, columns: int, rows: int, n: int) -> Seq<u8>
    decreases n,
{
    if n <= 0 {
        Seq::empty()
    } else {
        grid_bytes(choices, columns, rows, n - 1) + row_bytes(choices, columns, n - 1, columns) + (
        if n < rows {
            seq![10u8]
        } else {
            Seq::empty()
        })
    }
}

/// `ESC [ 0 m` and a newline: the reset that ends every frame.
pub open spec fn reset_bytes() -> Seq<u8> {
    seq![27u8, 91u8, 48u8, 109u8, 10u8]
}

/// The ANSI text of a `columns` x `rows` grid of choices, row by row.
pub open spec fn ansi(choices: Seq<Choice>, columns: int, rows: int) -> Seq<u8> {
    grid_bytes(choices, columns, rows, rows) + reset_bytes()
}

fn push_decimal(out: &mut Vec<u8>, n: u8)
    ensures
        final(out)@ == old(out)@ + decimal(n),
{
    if n < 10 {
        out.push(48 + n);
    } else if n < 100 {
        out.push(48 + n / 10);
        out.push(48 + n % 10);
    } else {
        out.push(48 + n / 100);
        out.push(48 + (n / 10) % 10);
        out.push(48 + n % 10);
    }
    assert(final(out)@ =~= old(out)@ + decimal(n));
}

fn push_rgb_params(out: &mut Vec<u8>, lead: u8, c: [u8; 3])
    ensures
        final(out)@ == old(out)@ + rgb_params(lead, c),
{
    out.push(lead);
    out.push(56);
    out.push(59);
    out.push(50);
    out.push(59);
    push_decimal(out, c[0]);
    out.push(59);
    push_decimal(out, c[1]);
    out.push(59);
    push_decimal(out, c[2]);
    assert(final(out)@ =~= old(out)@ + rgb_params(lead, c));
}

fn push_glyph(out: &mut Vec<u8>, codepoint: u32)
    ensures
        final(out)@ == old(out)@ + glyph(codepoint),
{
    let scalar = codepoint;
    if scalar <= 0x7F {
        out.push((scalar & 0x7F) as u8);
    } else if 0x80 <= scalar && scalar <= 0x7FF {
        out.push(0xC0 | ((scalar >> 6) & 0x1F) as u8);
        out.push(0x80 | (scalar & 0x3F) as u8);
    } else if 0x800 <= scalar && scalar <= 0xFFFF && !(0xD800 <= scalar && scalar <= 0xDFFF) {
        out.push(0xE0 | ((scalar >> 12) & 0x0F) as u8);
        out.push(0x80 | ((scalar >> 6) & 0x3F) as u8);
        out.push(0x80 | (scalar & 0x3F) as u8);
    } else if 0x10000 <= scalar && scalar <= 0x10FFFF {
        out.push(0xF0 | ((scalar >> 18) & 0x7) as u8);
        out.push(0x80 | ((scalar >> 12) & 0x3F) as u8);
        out.push(0x80 | ((scalar >> 6) & 0x3F) as u8);
        out.push(0x80 | (scalar & 0x3F) as u8);
    } else {
        out.push(32);
    }
    assert(final(out)@ =~= old(out)@ + glyph(codepoint));
}

fn same_colour(a: Option<[u8; 3]>, b: Option<[u8; 3]>) -> (r: bool)
    ensures
        r == (a == b),
{
    match (a, b) {
        (None, None) => true,
        (Some(x), Some(y)) => {
            let r = x[0] == y[0] && x[1] == y[1] && x[2] == y[2];
            proof {
                broadcast use vstd::array::group_array_axioms;

                if r {
                    assert(x =~= y);
                } else {
                    assert(x != y);
                }
            }
            r
        },
        _ => false,
    }
}

/// Appends one cell and returns the colours now in effect.
fn push_cell(out: &mut Vec<u8>, prev_fg: Option<[u8; 3]>, prev_bg: Option<[u8; 3]>, choice: Choice) -> (state: (Option<[u8; 3]>, Option<[u8; 3]>))
    ensures
        final(out)@ == old(out)@ + cell_bytes(prev_fg, prev_bg, choice),
        state == (Some(choice.fg), cell_bg(choice)),
{
    let bg = if choice.transparent_bg == 0 {
        Some(choice.bg)
    } else {
        None
    };
    let fg_changed = !same_colour(prev_fg, Some(choice.fg));
    let bg_changed = !same_colour(prev_bg, bg);
    let mut next_fg = prev_fg;
    let mut next_bg = prev_bg;
    if fg_changed || bg_changed {
        out.push(27);
        out.push(91);
        if fg_changed {
            push_rgb_params(out, 51, choice.fg);
        }
        if bg_changed {
            if fg_changed {
                out.push(59);
            }
            match bg {
                Some(b) => {
                    push_rgb_params(out, 52, b);
                },
                None => {
                    out.push(52);
                    out.push(57);
                },
            }
        }
        out.push(109);
        next_fg = Some(choice.fg);
        next_bg = bg;
    }
    push_glyph(out, choice.codepoint);
    assert(final(out)@ =~= old(out)@ + cell_bytes(prev_fg, prev_bg, choice));
    (next_fg, next_bg)
}

/// Encodes a `columns` x `rows` grid of choices, row-major, as truecolour
/// ANSI text: each cell's glyph preceded by an SGR sequence for whichever
/// of its colours differ from those already in effect; rows separated by
/// newlines; a reset at the end.
pub fn encode_ansi(choices: &[Choice], columns: u32, rows: u32) -> (out: Vec<u8>)
    requires
        choices@.len() >= columns * rows,
    ensures
        out@ == ansi(choices@, columns as int, rows as int),
{
    let mut out: Vec<u8> = Vec::new();
    let mut previous_fg: Option<[u8; 3]> = None;
    let mut previous_bg: Option<[u8; 3]> = None;
    for cy in 0..rows
        invariant
            choices@.len() >= columns * rows,
            out@ == grid_bytes(choices@, columns as int, rows as int, cy as int),
            cy * columns > 0 ==> previous_fg == Some(choices@[cy * columns - 1].fg)
                && previous_bg == cell_bg(choices@[cy * columns - 1]),
            cy * columns == 0 ==> previous_fg.is_none() && previous_bg.is_none(),
    {
        let ghost before = out@;
        assert(cy * columns + columns <= columns * rows) by (nonlinear_arith)
            requires
                cy < rows,
        ;
        for cx in 0..columns
            invariant
                choices@.len() >= columns * rows,
                cy < rows,
                cy * columns + columns <= columns * rows,
                out@ == before + row_bytes(choices@, columns as int, cy as int, cx as int),
                cy * columns + cx > 0 ==> previous_fg == Some(choices@[cy * columns + cx - 1].fg)
                    && previous_bg == cell_bg(choices@[cy * columns + cx - 1]),
                cy * columns + cx == 0 ==> previous_fg.is_none() && previous_bg.is_none(),
        {
            assert(choices@.len() == choices.len());
            assert(cy * columns + cx < columns * rows);
            let index = cy as usize * columns as usize + cx as usize;
            let choice = choices[index];
            let state = push_cell(&mut out, previous_fg, previous_bg, choice);
            previous_fg = state.0;
            previous_bg = state.1;
        }
        assert((cy + 1) * columns == cy * columns + columns) by (nonlinear_arith);
        if cy + 1 < rows {
            out.push(10);
        }
        assert(out@ =~= grid_bytes(choices@, columns as int, rows as int, cy + 1));
    }
    out.push(27);
    out.push(91);
    out.push(48);
    out.push(109);
    out.push(10);
    assert(out@ =~= ansi(choices@, columns as int, rows as int));
    out
}


/// Law: a cell whose foreground and background equal those of the cell
/// emitted before it is written as its bare glyph; a cell that changes only
/// one of them names only that one.
pub proof fn lemma_only_changed_colours_are_written(choices: Seq<Choice>, k: int)
    requires
        0 < k < choices.len(),
    ensures
        choices[k].fg == choices[k - 1].fg && cell_bg(choices[k]) == cell_bg(choices[k - 1])
            ==> grid_cell_bytes(choices, k) == glyph(choices[k].codepoint),
        choices[k].fg == choices[k - 1].fg && cell_bg(choices[k]) != cell_bg(choices[k - 1])
            ==> grid_cell_bytes(choices, k) == seq![27u8, 91u8] + (match cell_bg(choices[k]) {
            Some(b) => rgb_params(52, b),
            None => seq![52u8, 57u8],
        }) + seq![109u8] + glyph(choices[k].codepoint),
        choices[k].fg != choices[k - 1].fg && cell_bg(choices[k]) == cell_bg(choices[k - 1])
            ==> grid_cell_bytes(choices, k) == seq![27u8, 91u8] + rgb_params(51, choices[k].fg)
            + seq![109u8] + glyph(choices[k].codepoint),
{
    let c = choices[k];
    if c.fg == choices[k - 1].fg && cell_bg(c) != cell_bg(choices[k - 1]) {
        assert(Seq::<u8>::empty() + (Seq::<u8>::empty() + (match cell_bg(c) {
            Some(b) => rgb_params(52, b),
            None => seq![52u8, 57u8],
        })) =~= (match cell_bg(c) {
            Some(b) => rgb_params(52, b),
            None => seq![52u8, 57u8],
        }));
    }
    if c.fg != choices[k - 1].fg && cell_bg(c) == cell_bg(choices[k - 1]) {
        assert(rgb_params(51, c.fg) + Seq::<u8>::empty() =~= rgb_params(51, c.fg));
    }
    if c.fg == choices[k - 1].fg && cell_bg(c) == cell_bg(choices[k - 1]) {
        assert(Seq::<u8>::empty() + glyph(c.codepoint) =~= glyph(c.codepoint));
    }
}

/// Law: every frame's text ends with the reset sequence.
pub proof fn lemma_ansi_ends_with_reset(choices: Seq<Choice>, columns: int, rows: int)
    ensures
        ansi(choices, columns, rows).len() >= 5,
        ansi(choices, columns, rows).subrange(
            ansi(choices, columns, rows).len() - 5,
            ansi(choices, columns, rows).len() as int,
        ) == reset_bytes(),
{
    let body = grid_bytes(choices, columns, rows, rows);
    assert((body + reset_bytes()).subrange(body.len() as int, body.len() + 5int) =~= reset_bytes());
}


/// The SGR parameters that select a background: `48;2;r;g;b`, or `49`
/// (the terminal's default background) for a transparent one.
pub open spec fn bg_params(bg: Option<[u8; 3]>) -> Seq<u8> {
    match bg {
        Some(b) => rgb_params(52, b),
        None => seq![52u8, 57u8],
    }
}

/// Law: a cell whose foreground and background both differ from those of
/// the cell emitted before it is written as one SGR sequence naming both,
/// `ESC [ 38;2;fg ; <background> m`, then its glyph; and the first cell
/// always names its foreground, and its background too when it has one.
pub proof fn lemma_changed_colours_are_both_written(choices: Seq<Choice>, k: int)
    requires
        0 <= k < choices.len(),
    ensures
        k > 0 && choices[k].fg != choices[k - 1].fg && cell_bg(choices[k]) != cell_bg(choices[k - 1])
            ==> grid_cell_bytes(choices, k) == seq![27u8, 91u8] + rgb_params(51, choices[k].fg)
            + seq![59u8] + bg_params(cell_bg(choices[k])) + seq![109u8] + glyph(choices[k].codepoint),
        k == 0 && cell_bg(choices[0]) is Some ==> grid_cell_bytes(choices, 0) == seq![27u8, 91u8]
            + rgb_params(51, choices[0].fg) + seq![59u8] + bg_params(cell_bg(choices[0])) + seq![109u8]
            + glyph(choices[0].codepoint),
        k == 0 && cell_bg(choices[0]) is None ==> grid_cell_bytes(choices, 0) == seq![27u8, 91u8]
            + rgb_params(51, choices[0].fg) + seq![109u8] + glyph(choices[0].codepoint),
{
    let c = choices[k];
    assert(seq![27u8, 91u8] + rgb_params(51, c.fg) + (seq![59u8] + bg_params(cell_bg(c))) =~= seq![
        27u8,
        91u8,
    ] + rgb_params(51, c.fg) + seq![59u8] + bg_params(cell_bg(c)));
    assert(seq![27u8, 91u8] + rgb_params(51, c.fg) + Seq::<u8>::empty() =~= seq![27u8, 91u8]
        + rgb_params(51, c.fg));
}


/// The number that ASCII decimal digits spell.
pub open spec fn digits_value(digits: Seq<u8>) -> int
    decreases digits.len(),
{
    if digits.len() == 0 {
        0
    } else {
        10 * digits_value(digits.drop_last()) + (digits.last() - 48)
    }
}

/// Law: a colour component is written as the ASCII decimal digits that
/// spell it, one to three of them, without leading zeros.
pub proof fn lemma_decimal_spells_value(n: u8)
    ensures
        1 <= decimal(n).len() <= 3,
        forall|i: int| 0 <= i < decimal(n).len() ==> 48 <= #[trigger] decimal(n)[i] <= 57,
        decimal(n).len() > 1 ==> decimal(n)[0] != 48,
        digits_value(decimal(n)) == n,
{
    let d = decimal(n);
    reveal_with_fuel(digits_value, 4);
    if n < 10 {
        assert(d.drop_last() =~= Seq::<u8>::empty());
    } else if n < 100 {
        assert(d.drop_last() =~= seq![(48 + n / 10) as u8]);
        assert(d.drop_last().drop_last() =~= Seq::<u8>::empty());
        assert(10 * (n / 10) + n % 10 == n);
    } else {
        assert(d.drop_last() =~= seq![(48 + n / 100) as u8, (48 + (n / 10) % 10) as u8]);
        assert(d.drop_last().drop_last() =~= seq![(48 + n / 100) as u8]);
        assert(d.drop_last().drop_last().drop_last() =~= Seq::<u8>::empty());
        assert(10 * (10 * (n / 100) + (n / 10) % 10) + n % 10 == n);
    }
}

/// Law: the glyph of a character's code is its UTF-8 encoding.
pub proof fn lemma_glyph_is_utf8(c: char)
    ensures
        glyph(c as u32) == encode_utf8(seq![c]),
{
    broadcast use vstd::utf8::char_is_scalar;

    assert(seq![c].drop_first() =~= Seq::<char>::empty());
    assert(encode_utf8(seq![c]) =~= encode_scalar(c as u32) + encode_utf8(Seq::<char>::empty()));
}

} // verus!
