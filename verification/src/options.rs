//! The markdown extensions the parser is asked for, as the bits of
//! `pulldown_cmark::Options`.
use vstd::prelude::*;

verus! {

pub const ENABLE_TABLES: u32 = 2;
pub const ENABLE_FOOTNOTES: u32 = 4;
pub const ENABLE_STRIKETHROUGH: u32 = 8;
pub const ENABLE_TASKLISTS: u32 = 16;
pub const ENABLE_MATH: u32 = 1024;
pub const ENABLE_DEFINITION_LIST: u32 = 4096;

/// Tables, task lists, strikethrough, footnotes and definition lists.
pub open spec fn base_options() -> u32 {
    ENABLE_TABLES | ENABLE_TASKLISTS | ENABLE_STRIKETHROUGH | ENABLE_FOOTNOTES
        | ENABLE_DEFINITION_LIST
}

/// The extensions a document is parsed with, math as well when `math`
/// holds.
pub open spec fn options_for(math: bool) -> u32 {
    if math {
        base_options() | ENABLE_MATH
    } else {
        base_options()
    }
}

/// The extensions every document is parsed with.
pub fn parser_options() -> (r: u32)
    ensures
        r == base_options(),
{
    ENABLE_TABLES | ENABLE_TASKLISTS | ENABLE_STRIKETHROUGH | ENABLE_FOOTNOTES
        | ENABLE_DEFINITION_LIST
}

/// The extensions a document is parsed with: math as well when math can be
/// shown.
pub fn parser_options_math(is_math_enabled: bool) -> (r: u32)
    ensures
        r == options_for(is_math_enabled),
{
    if is_math_enabled {
        parser_options() | ENABLE_MATH
    } else {
        parser_options()
    }
}

/// Math is parsed exactly when it is enabled, and the other extensions
/// are the same either way.
pub proof fn lemma_math_option(is_math_enabled: bool)
    ensures
        (if is_math_enabled {
            base_options() | ENABLE_MATH
        } else {
            base_options()
        }) & ENABLE_MATH == (if is_math_enabled {
            ENABLE_MATH
        } else {
            0
        }),
        (if is_math_enabled {
            base_options() | ENABLE_MATH
        } else {
            base_options()
        }) & !ENABLE_MATH == base_options(),
{
    assert((2u32 | 16u32 | 8u32 | 4u32 | 4096u32 | 1024u32) & 1024u32 == 1024u32) by (bit_vector);
    assert((2u32 | 16u32 | 8u32 | 4u32 | 4096u32) & 1024u32 == 0u32) by (bit_vector);
    assert((2u32 | 16u32 | 8u32 | 4u32 | 4096u32 | 1024u32) & !1024u32 == (2u32 | 16u32 | 8u32
        | 4u32 | 4096u32)) by (bit_vector);
    assert((2u32 | 16u32 | 8u32 | 4u32 | 4096u32) & !1024u32 == (2u32 | 16u32 | 8u32 | 4u32
        | 4096u32)) by (bit_vector);
}

} // verus!
