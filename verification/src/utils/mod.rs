//! Supporting modules: Unicode block classification, character normalization
//! and n-gram windowing, language profiles, and the static normalization data.

pub mod chars;
pub mod lang_profile;
pub mod messages;
pub mod ngram;
pub mod unicode_block;
