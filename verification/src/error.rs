//! Errors of the library.
use vstd::prelude::*;

use crate::render::MAX_FRAME_CELLS;

verus! {

/// Why a request, a batch or a backend's output was refused.
#[derive(Clone, Debug, PartialEq, Eq)]
pub enum RenderError {
    /// A request asks for zero columns.
    ZeroColumns,
    /// The font ratio is not a positive finite number.
    InvalidFontRatio,
    /// The transparency threshold lies outside [0, 1].
    InvalidThreshold,
    /// The source image has no pixels.
    EmptySource,
    /// The rendered raster would be too wide.
    WidthTooLarge,
    /// The rendered raster would be too tall.
    HeightTooLarge,
    /// The frame would hold more than `MAX_FRAME_CELLS` cells.
    FrameTooLarge,
    /// The requests of one batch differ in their transparency threshold.
    MixedThreshold,
    /// A backend returned another number of cells than the batch holds.
    CellCountMismatch { returned: usize, expected: usize },
    /// The renderer produced no frame for a request.
    NoFrame,
    /// An RGBA buffer is shorter than its dimensions ask for.
    BufferTooShort { width: u32, height: u32 },
    /// A PNG could not be decoded; the decoder's message.
    Decode(String),
    /// A backend name other than auto, cpu or cuda.
    UnknownBackend,
}


/// The ASCII digit for `d` (0..10).
pub open spec fn digit_char(d: nat) -> char {
    (d + 48) as char
}

/// Decimal digits of `n`, without leading zeros.
pub open spec fn decimal_text(n: nat) -> Seq<char>
    decreases n,
{
    if n < 10 {
        seq![digit_char(n)]
    } else {
        decimal_text(n / 10).push(digit_char(n % 10))
    }
}

/// The text of an error.
pub open spec fn error_message(e: RenderError) -> Seq<char> {
    match e {
        RenderError::ZeroColumns => "columns must be greater than zero"@,
        RenderError::InvalidFontRatio => "font_ratio must be a positive finite number"@,
        RenderError::InvalidThreshold => "transparent_threshold must be between 0 and 1"@,
        RenderError::EmptySource => "source image must not be empty"@,
        RenderError::WidthTooLarge => "render width is too large"@,
        RenderError::HeightTooLarge => "render height is too large"@,
        RenderError::FrameTooLarge => "render exceeds the "@ + decimal_text(MAX_FRAME_CELLS as nat)
            + "-cell frame limit"@,
        RenderError::MixedThreshold => "all requests in a batch must use the same transparent_threshold"@,
        RenderError::CellCountMismatch { returned, expected } => "backend returned "@
            + decimal_text(returned as nat) + " cells, expected "@ + decimal_text(expected as nat),
        RenderError::NoFrame => "renderer returned no frame"@,
        RenderError::BufferTooShort { width, height } => "RGBA buffer length does not match "@
            + decimal_text(width as nat) + "x"@ + decimal_text(height as nat),
        RenderError::Decode(text) => text@,
        RenderError::UnknownBackend => "backend must be auto, cpu, or cuda"@,
    }
}

fn digit_str(d: u64) -> (s: &'static str)
    requires
        d < 10,
    ensures
        s@ == seq![digit_char(d as nat)],
{
    proof {
        reveal_strlit("0");
        reveal_strlit("1");
        reveal_strlit("2");
        reveal_strlit("3");
        reveal_strlit("4");
        reveal_strlit("5");
        reveal_strlit("6");
        reveal_strlit("7");
        reveal_strlit("8");
        reveal_strlit("9");
    }
    if d == 0 {
        "0"
    } else if d == 1 {
        "1"
    } else if d == 2 {
        "2"
    } else if d == 3 {
        "3"
    } else if d == 4 {
        "4"
    } else if d == 5 {
        "5"
    } else if d == 6 {
        "6"
    } else if d == 7 {
        "7"
    } else if d == 8 {
        "8"
    } else {
        "9"
    }
}

fn append_decimal(text: &mut String, n: u64)
    ensures
        final(text)@ == old(text)@ + decimal_text(n as nat),
    decreases n,
{
    if n >= 10 {
        append_decimal(text, n / 10);
    }
    text.append(digit_str(n % 10));
    assert(final(text)@ =~= old(text)@ + decimal_text(n as nat));
}

impl RenderError {
    /// The error's text.
    pub fn message(&self) -> (text: String)
        ensures
            text@ == error_message(*self),
    {
        match self {
            RenderError::ZeroColumns => "columns must be greater than zero".to_owned(),
            RenderError::InvalidFontRatio => "font_ratio must be a positive finite number".to_owned(),
            RenderError::InvalidThreshold => "transparent_threshold must be between 0 and 1".to_owned(),
            RenderError::EmptySource => "source image must not be empty".to_owned(),
            RenderError::WidthTooLarge => "render width is too large".to_owned(),
            RenderError::HeightTooLarge => "render height is too large".to_owned(),
            RenderError::FrameTooLarge => {
                let mut text = "render exceeds the ".to_owned();
                append_decimal(&mut text, MAX_FRAME_CELLS as u64);
                text.append("-cell frame limit");
                text
            },
            RenderError::MixedThreshold => "all requests in a batch must use the same transparent_threshold".to_owned(),
            RenderError::CellCountMismatch { returned, expected } => {
                let mut text = "backend returned ".to_owned();
                append_decimal(&mut text, *returned as u64);
                text.append(" cells, expected ");
                append_decimal(&mut text, *expected as u64);
                text
            },
            RenderError::NoFrame => "renderer returned no frame".to_owned(),
            RenderError::BufferTooShort { width, height } => {
                let mut text = "RGBA buffer length does not match ".to_owned();
                append_decimal(&mut text, *width as u64);
                text.append("x");
                append_decimal(&mut text, *height as u64);
                text
            },
            RenderError::Decode(text) => text.clone(),
            RenderError::UnknownBackend => "backend must be auto, cpu, or cuda".to_owned(),
        }
    }
}

} // verus!
