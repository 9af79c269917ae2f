//! How a bar of `max_blocks` cells is drawn from the eighths of a cell it fills: full
//! blocks, one partly filled block where the eighths do not come out even, and empty blocks
//! for the rest.
use vstd::prelude::*;
use crate::text::{chars_of, string_of};

verus! {

/// The glyph of a block filled `eighths` eighths of the way; none for an empty or full one.
pub open spec fn partial_glyph(eighths: nat) -> Option<Seq<char>> {
    if eighths == 1 {
        Some("▏"@)
    } else if eighths == 2 {
        Some("▎"@)
    } else if eighths == 3 {
        Some("▍"@)
    } else if eighths == 4 {
        Some("▌"@)
    } else if eighths == 5 {
        Some("▋"@)
    } else if eighths == 6 {
        Some("▊"@)
    } else if eighths == 7 {
        Some("▉"@)
    } else {
        None
    }
}

pub open spec fn glyph_text(o: Option<String>) -> Option<Seq<char>> {
    match o {
        Some(s) => Some(s@),
        None => None,
    }
}

/// The full blocks of a bar filled `filled` eighths of a cell.
pub open spec fn full_blocks(filled: nat) -> nat {
    filled / 8
}

/// One where the eighths do not come out even, for the partly filled block; zero otherwise.
pub open spec fn partial_count(filled: nat) -> nat {
    if filled % 8 > 0 {
        1
    } else {
        0
    }
}

/// The empty blocks left of a bar `max_blocks` wide once the full and partial ones are drawn;
/// none where those already take the width.
pub open spec fn empty_blocks(max_blocks: nat, filled: nat) -> nat {
    if max_blocks >= full_blocks(filled) + partial_count(filled) {
        (max_blocks - (full_blocks(filled) + partial_count(filled))) as nat
    } else {
        0
    }
}

/// The blocks of a bar `max_blocks` cells wide filled `filled_segments` eighths of a cell:
/// the full blocks, the empty blocks left of the width once the full and partial ones are
/// drawn, and the partial block's glyph.
pub fn block_counts(max_blocks: usize, filled_segments: usize) -> (r: (usize, usize, Option<String>))
    ensures
        r.0 == full_blocks(filled_segments as nat),
        r.1 == empty_blocks(max_blocks as nat, filled_segments as nat),
        glyph_text(r.2) == partial_glyph((filled_segments % 8) as nat),
{
    let full_blocks = filled_segments / 8;
    let remainder = filled_segments % 8;
    let glyph = if remainder == 1 {
        Some(chars_of("▏"))
    } else if remainder == 2 {
        Some(chars_of("▎"))
    } else if remainder == 3 {
        Some(chars_of("▍"))
    } else if remainder == 4 {
        Some(chars_of("▌"))
    } else if remainder == 5 {
        Some(chars_of("▋"))
    } else if remainder == 6 {
        Some(chars_of("▊"))
    } else if remainder == 7 {
        Some(chars_of("▉"))
    } else {
        None
    };
    let partial = match glyph {
        Some(g) => Some(string_of(&g)),
        None => None,
    };
    let partial_count: usize = if remainder > 0 {
        1
    } else {
        0
    };
    let used = full_blocks + partial_count;
    let empty = if max_blocks >= used {
        max_blocks - used
    } else {
        0
    };
    (full_blocks, empty, partial)
}

/// A bar filled no further than its width is drawn exactly that wide: its full blocks, its
/// partly filled block (drawn exactly where the eighths do not come out even) and its empty
/// blocks make up the width, and the full blocks and the partial block's eighths make up
/// the eighths filled.
pub proof fn lemma_bar_keeps_its_width(max_blocks: nat, filled: nat)
    requires
        filled <= 8 * max_blocks,
    ensures
        full_blocks(filled) + partial_count(filled) + empty_blocks(max_blocks, filled) == max_blocks,
        8 * full_blocks(filled) + filled % 8 == filled,
        partial_glyph(filled % 8) is Some <==> partial_count(filled) == 1,
{
}

} // verus!
