use chuda::cpu::{choose_symbol, render, Symbol, MAX_EDGE_BIAS};
use chuda::Choice;

fn atlas() -> Vec<Symbol> {
    vec![
        Symbol { codepoint: ' ' as u32, bitmap: 0 },
        Symbol { codepoint: '▀' as u32, bitmap: 0xFFFF_FFFF_0000_0000 },
        Symbol { codepoint: '▄' as u32, bitmap: 0x0000_0000_FFFF_FFFF },
        Symbol { codepoint: '█' as u32, bitmap: u64::MAX },
    ]
}

fn cell(f: impl Fn(usize) -> [u8; 4]) -> Vec<u8> {
    let mut pixels = Vec::with_capacity(256);
    for i in 0..64 {
        pixels.extend_from_slice(&f(i));
    }
    pixels
}

#[test]
fn solid_opaque_cell_uses_first_zero_error_symbol() {
    let mut pixels = [0u8; 256];
    for pixel in pixels.chunks_exact_mut(4) {
        pixel.copy_from_slice(&[12, 34, 56, 255]);
    }
    let choice = choose_symbol(&pixels, &atlas(), 0);
    assert_eq!(choice.codepoint, ' ' as u32);
    assert_eq!(choice.fg, [12, 34, 56]);
    assert_eq!(choice.bg, [12, 34, 56]);
    assert_eq!(choice.transparent_bg, 0);
}

#[test]
fn split_colours_pick_the_matching_half_block() {
    // Top half red, bottom half blue, fully opaque.
    let pixels = cell(|i| if i < 32 { [200, 0, 0, 255] } else { [0, 0, 200, 255] });
    let choice = choose_symbol(&pixels, &atlas(), 0);
    assert_eq!(choice.codepoint, '▀' as u32);
    assert_eq!(choice.fg, [200, 0, 0]);
    assert_eq!(choice.bg, [0, 0, 200]);
    assert_eq!(choice.transparent_bg, 0);
}

#[test]
fn sprite_over_transparency_keeps_background_transparent() {
    // Bottom half opaque green, top half fully transparent.
    let pixels = cell(|i| if i < 32 { [9, 9, 9, 0] } else { [0, 150, 0, 255] });
    let choice = choose_symbol(&pixels, &atlas(), 0);
    assert_eq!(choice.codepoint, '▄' as u32);
    assert_eq!(choice.fg, [0, 150, 0]);
    assert_eq!(choice.bg, [0, 0, 0]);
    assert_eq!(choice.transparent_bg, 1);
}

#[test]
fn large_edge_bias_forces_opaque_cells() {
    let pixels = cell(|i| if i < 32 { [9, 9, 9, 0] } else { [0, 150, 0, 255] });
    let choice = choose_symbol(&pixels, &atlas(), MAX_EDGE_BIAS);
    assert_eq!(choice.transparent_bg, 0);
    // Every opaque variant costs the same here, so the first symbol wins; its
    // empty foreground takes the alpha-weighted mean of the whole cell.
    assert_eq!(choice.codepoint, ' ' as u32);
    assert_eq!(choice.fg, [0, 150, 0]);
    assert_eq!(choice.bg, [0, 150, 0]);
}

#[test]
fn weighted_mean_and_empty_cell() {
    // Two alphas on one side: mean of 100 (alpha 255) and 200 (alpha 85)
    // is (255*100 + 85*200) / 340 = 125.
    let pixels = cell(|i| if i % 2 == 0 { [100, 100, 100, 255] } else { [200, 200, 200, 85] });
    let choice = choose_symbol(&pixels, &[Symbol { codepoint: 'x' as u32, bitmap: 0 }], 0);
    assert_eq!(choice.bg, [125, 125, 125]);
    assert_eq!(choice.fg, [125, 125, 125]);
    // An entirely transparent cell has no colour at all.
    let clear = cell(|_| [255, 255, 255, 0]);
    let choice = choose_symbol(&clear, &atlas(), 0);
    assert_eq!(choice.fg, [0, 0, 0]);
    // An empty atlas gives the blank choice.
    assert_eq!(choose_symbol(&pixels, &[], 0), Choice::default());
}

#[test]
fn render_scores_every_whole_cell() {
    let mut pixels = cell(|_| [1, 2, 3, 255]);
    pixels.extend(cell(|i| if i < 32 { [200, 0, 0, 255] } else { [0, 0, 200, 255] }));
    pixels.extend_from_slice(&[7; 100]);
    let choices = render(&pixels, &atlas(), 0);
    assert_eq!(choices.len(), 2);
    assert_eq!(choices[0].codepoint, ' ' as u32);
    assert_eq!(choices[0].fg, [1, 2, 3]);
    assert_eq!(choices[1].codepoint, '▀' as u32);
    assert!(render(&[0; 255], &atlas(), 0).is_empty());
}
