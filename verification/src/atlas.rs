//! The symbol atlas: Unicode block elements with their 8x8 coverage masks.
use vstd::prelude::*;

use crate::cpu::Symbol;

verus! {

/// Number of symbols in the block-element atlas.
pub const BLOCK_SYMBOL_COUNT: usize = 30;

/// The block-element atlas, in scoring order: the space, the full block,
/// the halves, the quadrants and their combinations, the lower and left
/// eighths, and the upper and right one-eighth bars. Where two symbols fit
/// a cell equally well the earlier one is drawn, so the space comes first.
pub open spec fn block_atlas() -> Seq<Symbol> {
    seq![
        Symbol { codepoint: 0x0020, bitmap: 0x0000000000000000 },
        Symbol { codepoint: 0x2588, bitmap: 0xFFFFFFFFFFFFFFFF },
        Symbol { codepoint: 0x2580, bitmap: 0xFFFFFFFF00000000 },
        Symbol { codepoint: 0x2584, bitmap: 0x00000000FFFFFFFF },
        Symbol { codepoint: 0x258C, bitmap: 0xF0F0F0F0F0F0F0F0 },
        Symbol { codepoint: 0x2590, bitmap: 0x0F0F0F0F0F0F0F0F },
        Symbol { codepoint: 0x2598, bitmap: 0xF0F0F0F000000000 },
        Symbol { codepoint: 0x259D, bitmap: 0x0F0F0F0F00000000 },
        Symbol { codepoint: 0x2596, bitmap: 0x00000000F0F0F0F0 },
        Symbol { codepoint: 0x2597, bitmap: 0x000000000F0F0F0F },
        Symbol { codepoint: 0x259A, bitmap: 0xF0F0F0F00F0F0F0F },
        Symbol { codepoint: 0x259E, bitmap: 0x0F0F0F0FF0F0F0F0 },
        Symbol { codepoint: 0x2599, bitmap: 0xF0F0F0F0FFFFFFFF },
        Symbol { codepoint: 0x259B, bitmap: 0xFFFFFFFFF0F0F0F0 },
        Symbol { codepoint: 0x259C, bitmap: 0xFFFFFFFF0F0F0F0F },
        Symbol { codepoint: 0x259F, bitmap: 0x0F0F0F0FFFFFFFFF },
        Symbol { codepoint: 0x2581, bitmap: 0x00000000000000FF },
        Symbol { codepoint: 0x2582, bitmap: 0x000000000000FFFF },
        Symbol { codepoint: 0x2583, bitmap: 0x0000000000FFFFFF },
        Symbol { codepoint: 0x2585, bitmap: 0x000000FFFFFFFFFF },
        Symbol { codepoint: 0x2586, bitmap: 0x0000FFFFFFFFFFFF },
        Symbol { codepoint: 0x2587, bitmap: 0x00FFFFFFFFFFFFFF },
        Symbol { codepoint: 0x258F, bitmap: 0x8080808080808080 },
        Symbol { codepoint: 0x258E, bitmap: 0xC0C0C0C0C0C0C0C0 },
        Symbol { codepoint: 0x258D, bitmap: 0xE0E0E0E0E0E0E0E0 },
        Symbol { codepoint: 0x258B, bitmap: 0xF8F8F8F8F8F8F8F8 },
        Symbol { codepoint: 0x258A, bitmap: 0xFCFCFCFCFCFCFCFC },
        Symbol { codepoint: 0x2589, bitmap: 0xFEFEFEFEFEFEFEFE },
        Symbol { codepoint: 0x2594, bitmap: 0xFF00000000000000 },
        Symbol { codepoint: 0x2595, bitmap: 0x0101010101010101 },
    ]
}

/// The block-element atlas as a vector.
pub fn block_symbols() -> (atlas: Vec<Symbol>)
    ensures
        atlas@ == block_atlas(),
        atlas@.len() == BLOCK_SYMBOL_COUNT,
        atlas@[0] == (Symbol { codepoint: 0x20, bitmap: 0 }),
{
    let mut atlas: Vec<Symbol> = Vec::with_capacity(BLOCK_SYMBOL_COUNT);
    atlas.push(Symbol { codepoint: 0x0020, bitmap: 0x0000000000000000 }); //  
    atlas.push(Symbol { codepoint: 0x2588, bitmap: 0xFFFFFFFFFFFFFFFF }); // █
    atlas.push(Symbol { codepoint: 0x2580, bitmap: 0xFFFFFFFF00000000 }); // ▀
    atlas.push(Symbol { codepoint: 0x2584, bitmap: 0x00000000FFFFFFFF }); // ▄
    atlas.push(Symbol { codepoint: 0x258C, bitmap: 0xF0F0F0F0F0F0F0F0 }); // ▌
    atlas.push(Symbol { codepoint: 0x2590, bitmap: 0x0F0F0F0F0F0F0F0F }); // ▐
    atlas.push(Symbol { codepoint: 0x2598, bitmap: 0xF0F0F0F000000000 }); // ▘
    atlas.push(Symbol { codepoint: 0x259D, bitmap: 0x0F0F0F0F00000000 }); // ▝
    atlas.push(Symbol { codepoint: 0x2596, bitmap: 0x00000000F0F0F0F0 }); // ▖
    atlas.push(Symbol { codepoint: 0x2597, bitmap: 0x000000000F0F0F0F }); // ▗
    atlas.push(Symbol { codepoint: 0x259A, bitmap: 0xF0F0F0F00F0F0F0F }); // ▚
    atlas.push(Symbol { codepoint: 0x259E, bitmap: 0x0F0F0F0FF0F0F0F0 }); // ▞
    atlas.push(Symbol { codepoint: 0x2599, bitmap: 0xF0F0F0F0FFFFFFFF }); // ▙
    atlas.push(Symbol { codepoint: 0x259B, bitmap: 0xFFFFFFFFF0F0F0F0 }); // ▛
    atlas.push(Symbol { codepoint: 0x259C, bitmap: 0xFFFFFFFF0F0F0F0F }); // ▜
    atlas.push(Symbol { codepoint: 0x259F, bitmap: 0x0F0F0F0FFFFFFFFF }); // ▟
    atlas.push(Symbol { codepoint: 0x2581, bitmap: 0x00000000000000FF }); // ▁
    atlas.push(Symbol { codepoint: 0x2582, bitmap: 0x000000000000FFFF }); // ▂
    atlas.push(Symbol { codepoint: 0x2583, bitmap: 0x0000000000FFFFFF }); // ▃
    atlas.push(Symbol { codepoint: 0x2585, bitmap: 0x000000FFFFFFFFFF }); // ▅
    atlas.push(Symbol { codepoint: 0x2586, bitmap: 0x0000FFFFFFFFFFFF }); // ▆
    atlas.push(Symbol { codepoint: 0x2587, bitmap: 0x00FFFFFFFFFFFFFF }); // ▇
    atlas.push(Symbol { codepoint: 0x258F, bitmap: 0x8080808080808080 }); // ▏
    atlas.push(Symbol { codepoint: 0x258E, bitmap: 0xC0C0C0C0C0C0C0C0 }); // ▎
    atlas.push(Symbol { codepoint: 0x258D, bitmap: 0xE0E0E0E0E0E0E0E0 }); // ▍
    atlas.push(Symbol { codepoint: 0x258B, bitmap: 0xF8F8F8F8F8F8F8F8 }); // ▋
    atlas.push(Symbol { codepoint: 0x258A, bitmap: 0xFCFCFCFCFCFCFCFC }); // ▊
    atlas.push(Symbol { codepoint: 0x2589, bitmap: 0xFEFEFEFEFEFEFEFE }); // ▉
    atlas.push(Symbol { codepoint: 0x2594, bitmap: 0xFF00000000000000 }); // ▔
    atlas.push(Symbol { codepoint: 0x2595, bitmap: 0x0101010101010101 }); // ▕
    assert(atlas@ =~= block_atlas());
    atlas
}

} // verus!
