use chuda::ansi::encode_ansi;
use chuda::render::{
    chunk_pixels, prepare_cells, request_cells, split_frames, validate_requests, RequestCheck,
    MAX_FRAME_CELLS,
};
use chuda::{Backend, Choice, Prepared, RenderError};

fn cell(ch: char, fg: [u8; 3], bg: Option<[u8; 3]>) -> Choice {
    Choice {
        codepoint: ch as u32,
        fg,
        bg: bg.unwrap_or_default(),
        transparent_bg: u8::from(bg.is_none()),
    }
}

#[test]
fn ansi_emission_only_writes_changed_colour_fields() {
    let choices = [
        cell('a', [1, 2, 3], Some([4, 5, 6])),
        cell('b', [1, 2, 3], Some([7, 8, 9])),
        cell('c', [10, 11, 12], Some([7, 8, 9])),
        cell('d', [10, 11, 12], None),
    ];
    assert_eq!(
        encode_ansi(&choices, 4, 1),
        b"\x1b[38;2;1;2;3;48;2;4;5;6ma\x1b[48;2;7;8;9mb\x1b[38;2;10;11;12mc\x1b[49md\x1b[0m\n"
    );
}

#[test]
fn ansi_rows_unicode_and_invalid_codepoints() {
    let choices = [
        cell('▀', [255, 0, 100], Some([0, 0, 0])),
        cell('x', [255, 0, 100], Some([0, 0, 0])),
        Choice { codepoint: 0xD800, fg: [255, 0, 100], bg: [0, 0, 0], transparent_bg: 0 },
        cell('🦀', [255, 0, 100], Some([0, 0, 0])),
    ];
    let expected = "\x1b[38;2;255;0;100;48;2;0;0;0m▀x\n 🦀\x1b[0m\n".as_bytes();
    assert_eq!(encode_ansi(&choices, 2, 2), expected);
    // A transparent first cell names only its foreground.
    let first = [cell('q', [0, 0, 0], None)];
    assert_eq!(encode_ansi(&first, 1, 1), b"\x1b[38;2;0;0;0mq\x1b[0m\n");
    assert_eq!(encode_ansi(&[], 0, 0), b"\x1b[0m\n");
}

/// Rows of a frame of `columns` over a `width` x `height` image, as the
/// renderer counts them: rounded, at least one, `None` past `u32`.
fn rows_for(width: u32, height: u32, columns: u32, font_ratio: f32) -> Option<u32> {
    let rows = (height as f64 * columns as f64 / width as f64 / font_ratio as f64)
        .round()
        .max(1.0);
    if !rows.is_finite() || rows > u32::MAX as f64 {
        return None;
    }
    Some(rows as u32)
}

/// The validation record of a request on a 1x1 image at the default
/// transparency threshold.
fn one_pixel_request(columns: u32, font_ratio: f32) -> RequestCheck {
    RequestCheck {
        columns,
        font_ratio_ok: font_ratio.is_finite() && font_ratio > 0.0,
        threshold_ok: true,
        source_empty: false,
        rows: rows_for(1, 1, columns, font_ratio),
        same_threshold: true,
    }
}

#[test]
fn oversized_requests_return_errors_before_allocation() {
    for (columns, font_ratio) in [(536_870_912, 2.0), (1, 1e-30), (4096, 1.0)] {
        assert!(validate_requests(&[one_pixel_request(columns, font_ratio)]).is_err());
    }
    assert_eq!(
        validate_requests(&[one_pixel_request(536_870_912, 2.0)]),
        Err(RenderError::WidthTooLarge)
    );
    assert_eq!(
        validate_requests(&[one_pixel_request(1, 1e-30)]),
        Err(RenderError::HeightTooLarge)
    );
    assert_eq!(
        validate_requests(&[one_pixel_request(4096, 1.0)]),
        Err(RenderError::FrameTooLarge)
    );
    let rows = rows_for(1, 1, 1024, 1.0).unwrap();
    assert_eq!(request_cells(1024, rows).unwrap(), MAX_FRAME_CELLS);
}

#[test]
fn request_cells_limits() {
    assert_eq!(request_cells(1, 536_870_912), Err(RenderError::HeightTooLarge));
    assert_eq!(request_cells(80, 40), Ok(3200));
    assert_eq!(request_cells(1, MAX_FRAME_CELLS as u32 + 1), Err(RenderError::FrameTooLarge));
}

fn check(columns: u32, rows: u32) -> RequestCheck {
    RequestCheck {
        columns,
        font_ratio_ok: true,
        threshold_ok: true,
        source_empty: false,
        rows: Some(rows),
        same_threshold: true,
    }
}

#[test]
fn validation_reports_the_first_failure() {
    assert_eq!(validate_requests(&[check(80, 40), check(10, 5)]), Ok(()));
    assert_eq!(validate_requests(&[]), Ok(()));
    assert_eq!(validate_requests(&[check(0, 40)]), Err(RenderError::ZeroColumns));
    let bad_ratio = RequestCheck { font_ratio_ok: false, threshold_ok: false, ..check(8, 4) };
    assert_eq!(validate_requests(&[check(8, 4), bad_ratio]), Err(RenderError::InvalidFontRatio));
    let bad_threshold = RequestCheck { threshold_ok: false, ..check(8, 4) };
    assert_eq!(validate_requests(&[bad_threshold]), Err(RenderError::InvalidThreshold));
    let empty = RequestCheck { source_empty: true, rows: None, ..check(8, 4) };
    assert_eq!(validate_requests(&[empty]), Err(RenderError::EmptySource));
    let tall = RequestCheck { rows: None, ..check(8, 4) };
    assert_eq!(validate_requests(&[tall]), Err(RenderError::HeightTooLarge));
    let mixed = RequestCheck { same_threshold: false, ..check(8, 4) };
    assert_eq!(validate_requests(&[check(8, 4), mixed]), Err(RenderError::MixedThreshold));
    // A failing request is reported before a mixed threshold.
    assert_eq!(validate_requests(&[mixed, check(4096, 4096)]), Err(RenderError::FrameTooLarge));
}

#[test]
fn cell_major_layout() {
    // A 2x1-cell raster: 16 x 8 pixels, byte value = x + 16 * y per channel.
    let mut raster = Vec::new();
    for y in 0..8u8 {
        for x in 0..16u8 {
            let v = x + 16 * y;
            raster.extend_from_slice(&[v, v, v, 255]);
        }
    }
    let prepared = prepare_cells(&raster, 2, 1);
    assert_eq!(prepared.pixels.len(), 512);
    // Second cell, pixel (1, 2) is raster pixel (9, 2).
    let offset = 256 + (2 * 8 + 1) * 4;
    assert_eq!(prepared.pixels[offset], 9 + 32);
    assert_eq!(prepared.pixels[0], 0);
    assert_eq!(prepared.pixels[255], 255);
    assert_eq!(prepared.pixels[252], 7 + 16 * 7);
}

#[test]
fn frames_split_a_batch_in_request_order() {
    let prepared = vec![
        Prepared { columns: 2, rows: 1, pixels: vec![] },
        Prepared { columns: 1, rows: 1, pixels: vec![] },
    ];
    let choices: Vec<Choice> =
        (0..3).map(|i| Choice { codepoint: 'a' as u32 + i, ..Choice::default() }).collect();
    let frames = split_frames(prepared.clone(), choices.clone(), Backend::Cpu).unwrap();
    assert_eq!(frames.len(), 2);
    assert_eq!(frames[0].columns(), 2);
    assert_eq!(frames[0].choices(), &choices[..2]);
    assert_eq!(frames[1].choices(), &choices[2..]);
    assert_eq!(frames[1].backend(), Backend::Cpu);
    assert_eq!(frames[1].to_ansi(), b"\x1b[38;2;0;0;0;48;2;0;0;0mc\x1b[0m\n");
    let err = split_frames(prepared, choices[..2].to_vec(), Backend::Cuda).unwrap_err();
    assert_eq!(err, RenderError::CellCountMismatch { returned: 2, expected: 3 });
}

#[test]
fn chunk_pixels_concatenates_frames() {
    let prepared = vec![
        Prepared { columns: 1, rows: 1, pixels: vec![1, 2] },
        Prepared { columns: 1, rows: 1, pixels: vec![] },
        Prepared { columns: 1, rows: 1, pixels: vec![3] },
    ];
    assert_eq!(chunk_pixels(&prepared), vec![1, 2, 3]);
}
