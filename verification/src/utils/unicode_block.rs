//! Classification of code points into the Unicode blocks that character
//! normalization distinguishes.

use vstd::prelude::*;

verus! {

/// The Unicode blocks that character normalization treats specially.
/// Every code point outside these ranges falls under `Other`.
#[derive(Clone, Copy, PartialEq, Eq, Structural, Debug)]
pub enum UnicodeBlock {
    BasicLatin,
    Latin1Supplement,
    LatinExtendedB,
    Arabic,
    GeneralPunctuation,
    LatinExtendedAdditional,
    Hiragana,
    Katakana,
    Bopomofo,
    BopomofoExtended,
    CjkUnifiedIdeographs,
    HangulSyllables,
    Other,
}

/// Block of a code point, by the standard Unicode range boundaries.
pub open spec fn spec_unicode_block(c: char) -> UnicodeBlock {
    let u = c as u32;
    if u <= 0x7F {
        UnicodeBlock::BasicLatin
    } else if u <= 0xFF {
        UnicodeBlock::Latin1Supplement
    } else if 0x180 <= u && u <= 0x24F {
        UnicodeBlock::LatinExtendedB
    } else if 0x600 <= u && u <= 0x6FF {
        UnicodeBlock::Arabic
    } else if 0x1E00 <= u && u <= 0x1EFF {
        UnicodeBlock::LatinExtendedAdditional
    } else if 0x2000 <= u && u <= 0x206F {
        UnicodeBlock::GeneralPunctuation
    } else if 0x3040 <= u && u <= 0x309F {
        UnicodeBlock::Hiragana
    } else if 0x30A0 <= u && u <= 0x30FF {
        UnicodeBlock::Katakana
    } else if 0x3100 <= u && u <= 0x312F {
        UnicodeBlock::Bopomofo
    } else if 0x31A0 <= u && u <= 0x31BF {
        UnicodeBlock::BopomofoExtended
    } else if 0x4E00 <= u && u <= 0x9FFF {
        UnicodeBlock::CjkUnifiedIdeographs
    } else if 0xAC00 <= u && u <= 0xD7AF {
        UnicodeBlock::HangulSyllables
    } else {
        UnicodeBlock::Other
    }
}

/// Classifies a code point into its [`UnicodeBlock`].
#[verifier::when_used_as_spec(spec_unicode_block)]
pub fn unicode_block(c: char) -> (b: UnicodeBlock)
    ensures
        b == spec_unicode_block(c),
{
    let u = c as u32;
    if u <= 0x7F {
        UnicodeBlock::BasicLatin
    } else if u <= 0xFF {
        UnicodeBlock::Latin1Supplement
    } else if 0x180 <= u && u <= 0x24F {
        UnicodeBlock::LatinExtendedB
    } else if 0x600 <= u && u <= 0x6FF {
        UnicodeBlock::Arabic
    } else if 0x1E00 <= u && u <= 0x1EFF {
        UnicodeBlock::LatinExtendedAdditional
    } else if 0x2000 <= u && u <= 0x206F {
        UnicodeBlock::GeneralPunctuation
    } else if 0x3040 <= u && u <= 0x309F {
        UnicodeBlock::Hiragana
    } else if 0x30A0 <= u && u <= 0x30FF {
        UnicodeBlock::Katakana
    } else if 0x3100 <= u && u <= 0x312F {
        UnicodeBlock::Bopomofo
    } else if 0x31A0 <= u && u <= 0x31BF {
        UnicodeBlock::BopomofoExtended
    } else if 0x4E00 <= u && u <= 0x9FFF {
        UnicodeBlock::CjkUnifiedIdeographs
    } else if 0xAC00 <= u && u <= 0xD7AF {
        UnicodeBlock::HangulSyllables
    } else {
        UnicodeBlock::Other
    }
}

} // verus!
