use chuda::atlas::{block_symbols, BLOCK_SYMBOL_COUNT};

/// Coverage mask of a glyph, row by row, most significant bit first.
fn mask(covered: impl Fn(u32, u32) -> bool) -> u64 {
    let mut bitmap = 0u64;
    for i in 0..64u32 {
        if covered(i / 8, i % 8) {
            bitmap |= 1 << (63 - i);
        }
    }
    bitmap
}

#[test]
fn atlas_masks_match_the_block_shapes() {
    let atlas = block_symbols();
    assert_eq!(atlas.len(), BLOCK_SYMBOL_COUNT);
    let mut expected: Vec<(char, u64)> = vec![
        (' ', mask(|_, _| false)),
        ('█', mask(|_, _| true)),
        ('▀', mask(|r, _| r < 4)),
        ('▄', mask(|r, _| r >= 4)),
        ('▌', mask(|_, c| c < 4)),
        ('▐', mask(|_, c| c >= 4)),
        ('▘', mask(|r, c| r < 4 && c < 4)),
        ('▝', mask(|r, c| r < 4 && c >= 4)),
        ('▖', mask(|r, c| r >= 4 && c < 4)),
        ('▗', mask(|r, c| r >= 4 && c >= 4)),
        ('▚', mask(|r, c| (r < 4) == (c < 4))),
        ('▞', mask(|r, c| (r < 4) != (c < 4))),
        ('▙', mask(|r, c| !(r < 4 && c >= 4))),
        ('▛', mask(|r, c| !(r >= 4 && c >= 4))),
        ('▜', mask(|r, c| !(r >= 4 && c < 4))),
        ('▟', mask(|r, c| !(r < 4 && c < 4))),
    ];
    for (ch, k) in ['▁', '▂', '▃', '▅', '▆', '▇'].into_iter().zip([1u32, 2, 3, 5, 6, 7]) {
        expected.push((ch, mask(move |r, _| r >= 8 - k)));
    }
    for (ch, k) in ['▏', '▎', '▍', '▋', '▊', '▉'].into_iter().zip([1u32, 2, 3, 5, 6, 7]) {
        expected.push((ch, mask(move |_, c| c < k)));
    }
    expected.push(('▔', mask(|r, _| r < 1)));
    expected.push(('▕', mask(|_, c| c >= 7)));
    assert_eq!(expected.len(), atlas.len());
    for (symbol, (ch, bitmap)) in atlas.iter().zip(expected) {
        assert_eq!(symbol.codepoint, ch as u32);
        assert_eq!(symbol.bitmap, bitmap, "mask of {ch}");
    }
}
