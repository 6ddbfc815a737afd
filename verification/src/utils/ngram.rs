//! Character normalization and the sliding n-gram window.

use vstd::prelude::*;
use crate::utils::unicode_block::{UnicodeBlock, spec_unicode_block, unicode_block};
use crate::utils::chars::{
    is_upper_char,
    char_is_uppercase,
    push_char,
    chars_of,
    string_from_chars,
    spec_find,
    find_char,
};
use crate::utils::messages::{
    spec_vi_bases,
    spec_vi_dmarks,
    spec_vi_table,
    vi_bases_chars,
    vi_dmarks_chars,
    vi_table_chars,
};

verus! {

/// The text with every decomposed Vietnamese vowel (a base vowel followed by
/// one of the five combining diacritical marks) replaced by its precomposed
/// character; everything else passes through.
pub open spec fn spec_normalize_vi(s: Seq<char>) -> Seq<char>
    decreases s.len(),
{
    if s.len() == 0 {
        Seq::empty()
    } else if s.len() >= 2 && spec_find(spec_vi_bases(), s[0]) is Some && spec_find(
        spec_vi_dmarks(),
        s[1],
    ) is Some {
        let bi = spec_find(spec_vi_bases(), s[0]).unwrap();
        let di = spec_find(spec_vi_dmarks(), s[1]).unwrap();
        if di <= 4 && bi < spec_vi_table(di).len() {
            seq![spec_vi_table(di)[bi]] + spec_normalize_vi(s.skip(2))
        } else {
            seq![s[0]] + spec_normalize_vi(s.skip(1))
        }
    } else {
        seq![s[0]] + spec_normalize_vi(s.skip(1))
    }
}

/// Characters of the Latin-1 Supplement block that normalization maps to a
/// space rather than keeping: no-break space, the guillemets and the degree
/// sign.
pub open spec fn spec_latin1_excluded(c: char) -> bool {
    c == '\u{00A0}' || c == '\u{00AB}' || c == '\u{00B0}' || c == '\u{00BB}'
}

fn latin1_excluded(c: char) -> (r: bool)
    ensures
        r == spec_latin1_excluded(c),
{
    c == '\u{00A0}' || c == '\u{00AB}' || c == '\u{00B0}' || c == '\u{00BB}'
}

/// Folding of CJK unified ideographs: each group of related ideographs the
/// table lists collapses to the group's representative. The table is
/// deliberately small — it holds only the two groups U+4E03 into U+4E01 and
/// U+4E24/U+4E25 into U+4E13 — and every ideograph outside those groups
/// passes through unchanged; a fuller classification would extend the
/// groups here.
pub open spec fn spec_cjk_fold(c: char) -> char {
    if c == '\u{4E03}' {
        '\u{4E01}'
    } else if c == '\u{4E24}' || c == '\u{4E25}' {
        '\u{4E13}'
    } else {
        c
    }
}

fn cjk_fold(c: char) -> (r: char)
    ensures
        r == spec_cjk_fold(c),
{
    if c == '\u{4E03}' {
        '\u{4E01}'
    } else if c == '\u{4E24}' || c == '\u{4E25}' {
        '\u{4E13}'
    } else {
        c
    }
}

/// The canonical representative of a character, by its Unicode block:
/// Basic-Latin non-letters and the excluded Latin-1 characters become a
/// space, whole scripts (kana, bopomofo, hangul) collapse to one
/// representative, a few letters fold to an equivalent, and everything else
/// passes through.
pub open spec fn spec_normalize(c: char) -> char {
    match spec_unicode_block(c) {
        UnicodeBlock::BasicLatin => if c < 'A' || ('Z' < c && c < 'a') || c > 'z' {
            ' '
        } else {
            c
        },
        UnicodeBlock::Latin1Supplement => if spec_latin1_excluded(c) {
            ' '
        } else {
            c
        },
        UnicodeBlock::LatinExtendedB => if c == '\u{0219}' {
            '\u{015F}'
        } else if c == '\u{021B}' {
            '\u{0163}'
        } else {
            c
        },
        UnicodeBlock::GeneralPunctuation => ' ',
        UnicodeBlock::Arabic => if c == '\u{06CC}' {
            '\u{064A}'
        } else {
            c
        },
        UnicodeBlock::LatinExtendedAdditional => if c >= '\u{1EA0}' {
            '\u{1EC3}'
        } else {
            c
        },
        UnicodeBlock::Hiragana => '\u{3042}',
        UnicodeBlock::Katakana => '\u{30A2}',
        UnicodeBlock::Bopomofo => '\u{3105}',
        UnicodeBlock::BopomofoExtended => '\u{3105}',
        UnicodeBlock::CjkUnifiedIdeographs => spec_cjk_fold(c),
        UnicodeBlock::HangulSyllables => '\u{AC00}',
        UnicodeBlock::Other => c,
    }
}

/// The last character of a window buffer, or a space when it is empty.
pub open spec fn spec_last_char(grams: Seq<char>) -> char {
    if grams.len() == 0 {
        ' '
    } else {
        grams[grams.len() - 1]
    }
}

/// The capitalized-run flag after a character enters the window mid-word:
/// set when both the previous and the new character are uppercase, kept when
/// only the new one is, cleared otherwise. The sentinel space is never
/// uppercase, so a new space always clears the flag and a space before the
/// new character never sets it.
pub open spec fn spec_capital_after(capital: bool, last: char, ch: char) -> bool {
    if ch == ' ' || !is_upper_char(ch) {
        false
    } else if last != ' ' && is_upper_char(last) {
        true
    } else {
        capital
    }
}

/// The window buffer after a (already normalized) character enters: at a word
/// boundary the buffer resets to the sentinel alone (and a space keeps it
/// there); mid-word the oldest of three characters drops out before the new
/// one is appended.
pub open spec fn spec_window_after(grams: Seq<char>, ch: char) -> Seq<char> {
    if spec_last_char(grams) == ' ' {
        if ch == ' ' {
            seq![' ']
        } else {
            seq![' ', ch]
        }
    } else {
        let base = if grams.len() >= 3 {
            grams.skip(1)
        } else {
            grams
        };
        base.push(ch)
    }
}

/// The capitalized-run flag after a character enters, matching
/// [`spec_window_after`]: at a word boundary the flag is reset and, the
/// sentinel space not being uppercase, stays false whatever enters;
/// mid-word it is updated from the previous last character.
pub open spec fn spec_capital_after_add(grams: Seq<char>, capital: bool, ch: char) -> bool {
    if spec_last_char(grams) == ' ' {
        false
    } else {
        spec_capital_after(capital, spec_last_char(grams), ch)
    }
}

/// The gram of length `n` the window offers: none during a capitalized run,
/// for a length outside 1..=3, or when fewer characters are buffered; a lone
/// sentinel space is no 1-gram.
pub open spec fn spec_get(grams: Seq<char>, capital: bool, n: int) -> Option<Seq<char>> {
    if capital {
        None
    } else if n < 1 || n > 3 || grams.len() < n {
        None
    } else if n == 1 {
        if spec_last_char(grams) == ' ' {
            None
        } else {
            Some(seq![spec_last_char(grams)])
        }
    } else {
        Some(grams.subrange(grams.len() - n, grams.len() as int))
    }
}

/// Vietnamese normalization never lengthens the text.
pub proof fn lemma_normalize_vi_len(s: Seq<char>)
    ensures
        spec_normalize_vi(s).len() <= s.len(),
    decreases s.len(),
{
    if s.len() > 0 {
        lemma_normalize_vi_len(s.skip(1));
        if s.len() >= 2 {
            lemma_normalize_vi_len(s.skip(2));
        }
    }
}

/// A bounded sliding window over the most recent normalized characters,
/// together with a flag that suppresses grams during a run of consecutive
/// uppercase characters.
pub struct NGram {
    /// The buffered characters: the sentinel space plus at most three
    /// normalized characters, the most recent last.
    pub grams: Vec<char>,
    /// True while scanning a run of two or more consecutive uppercase
    /// characters.
    pub capitalword: bool,
}

impl NGram {
    /// The longest gram length the window produces.
    pub const N_GRAM: usize = 3;

    /// Replaces decomposed Vietnamese vowels with their precomposed
    /// characters (see [`spec_normalize_vi`]).
    pub fn normalize_vi(input: &str) -> (r: String)
        ensures
            r@ == spec_normalize_vi(input@),
    {
        let bases = vi_bases_chars();
        let dmarks = vi_dmarks_chars();
        let t0 = vi_table_chars(0);
        let t1 = vi_table_chars(1);
        let t2 = vi_table_chars(2);
        let t3 = vi_table_chars(3);
        let t4 = vi_table_chars(4);
        let cs = chars_of(input);
        let mut out: Vec<char> = Vec::new();
        let mut i: usize = 0;
        proof {
            assert(cs@.skip(0) =~= cs@);
            assert(out@ + spec_normalize_vi(cs@) =~= spec_normalize_vi(cs@));
        }
        while i < cs.len()
            invariant
                i <= cs@.len(),
                bases@ == spec_vi_bases(),
                dmarks@ == spec_vi_dmarks(),
                t0@ == spec_vi_table(0),
                t1@ == spec_vi_table(1),
                t2@ == spec_vi_table(2),
                t3@ == spec_vi_table(3),
                t4@ == spec_vi_table(4),
                spec_normalize_vi(cs@) == out@ + spec_normalize_vi(cs@.skip(i as int)),
            decreases cs@.len() - i,
        {
            let ghost pre = out@;
            let ghost tail = cs@.skip(i as int);
            proof {
                assert(tail[0] == cs@[i as int]);
            }
            let c = cs[i];
            let mut handled = false;
            if i + 1 < cs.len() {
                proof {
                    assert(tail.len() >= 2 && tail[1] == cs@[i as int + 1]);
                }
                let bio = find_char(&bases, c);
                let dio = find_char(&dmarks, cs[i + 1]);
                match (bio, dio) {
                    (Some(bi), Some(di)) => {
                        if di <= 4 {
                            let table = if di == 0 {
                                &t0
                            } else if di == 1 {
                                &t1
                            } else if di == 2 {
                                &t2
                            } else if di == 3 {
                                &t3
                            } else {
                                &t4
                            };
                            proof {
                                assert(table@ == spec_vi_table(di as int));
                            }
                            if bi < table.len() {
                                out.push(table[bi]);
                                i = i + 2;
                                handled = true;
                                proof {
                                    assert(cs@.skip(i as int) =~= tail.skip(2));
                                    assert(spec_normalize_vi(tail) == seq![table@[bi as int]]
                                        + spec_normalize_vi(tail.skip(2)));
                                    assert(out@ + spec_normalize_vi(cs@.skip(i as int)) =~= pre
                                        + spec_normalize_vi(tail));
                                }
                            }
                        }
                    },
                    _ => {},
                }
            }
            if !handled {
                out.push(c);
                i = i + 1;
                proof {
                    assert(cs@.skip(i as int) =~= tail.skip(1));
                    assert(spec_normalize_vi(tail) == seq![c] + spec_normalize_vi(tail.skip(1)));
                    assert(out@ + spec_normalize_vi(cs@.skip(i as int)) =~= pre
                        + spec_normalize_vi(tail));
                }
            }
        }
        proof {
            assert(cs@.skip(i as int) =~= Seq::<char>::empty());
            assert(out@ =~= spec_normalize_vi(cs@));
        }
        string_from_chars(&out)
    }

    /// A fresh window at a word boundary.
    pub fn new() -> (r: Self)
        ensures
            r.grams@ == seq![' '],
            !r.capitalword,
    {
        let mut grams: Vec<char> = Vec::new();
        grams.push(' ');
        proof {
            assert(grams@ =~= seq![' ']);
        }
        NGram { grams, capitalword: false }
    }

    /// Normalizes the character and slides it into the window, updating the
    /// capitalized-run flag.
    pub fn add_char(&mut self, ch: char)
        ensures
            final(self).grams@ == spec_window_after(old(self).grams@, spec_normalize(ch)),
            final(self).capitalword == spec_capital_after_add(
                old(self).grams@,
                old(self).capitalword,
                spec_normalize(ch),
            ),
    {
        let ch = Self::normalize(ch);
        let last_char: char = if self.grams.len() == 0 {
            ' '
        } else {
            self.grams[self.grams.len() - 1]
        };
        if last_char == ' ' {
            let mut fresh: Vec<char> = Vec::new();
            fresh.push(' ');
            proof {
                assert(fresh@ =~= seq![' ']);
            }
            self.grams = fresh;
            self.capitalword = false;
            if ch == ' ' {
                return;
            }
            self.grams.push(ch);
            proof {
                assert(self.grams@ =~= seq![' ', ch]);
            }
        } else {
            if self.grams.len() >= 3 {
                self.grams.remove(0);
                proof {
                    assert(self.grams@ =~= old(self).grams@.skip(1));
                }
            }
            self.grams.push(ch);
        }
        if char_is_uppercase(ch) {
            if char_is_uppercase(last_char) {
                self.capitalword = true;
            }
        } else {
            self.capitalword = false;
        }
    }

    /// The gram of the last `n` buffered characters, when the window offers
    /// one (see [`spec_get`]).
    pub fn get(&self, n: usize) -> (r: Option<String>)
        ensures
            r is Some <==> spec_get(self.grams@, self.capitalword, n as int) is Some,
            r is Some ==> r.unwrap()@ == spec_get(
                self.grams@,
                self.capitalword,
                n as int,
            ).unwrap(),
    {
        if self.capitalword {
            return None;
        }
        if n < 1 || n > 3 || self.grams.len() < n {
            return None;
        }
        if n == 1 {
            let c = self.grams[self.grams.len() - 1];
            if c == ' ' {
                return None;
            }
            let mut s = String::new();
            push_char(&mut s, c);
            proof {
                assert(s@ =~= seq![c]);
            }
            return Some(s);
        }
        let mut s = String::new();
        let mut i: usize = self.grams.len() - n;
        while i < self.grams.len()
            invariant
                self.grams@.len() - n <= i <= self.grams@.len(),
                n <= self.grams@.len(),
                s@ == self.grams@.subrange(self.grams@.len() - n, i as int),
            decreases self.grams@.len() - i,
        {
            push_char(&mut s, self.grams[i]);
            i = i + 1;
            proof {
                assert(s@ =~= self.grams@.subrange(self.grams@.len() - n, i as int));
            }
        }
        Some(s)
    }

    /// Normalizes one character (see [`spec_normalize`]).
    pub fn normalize(ch: char) -> (r: char)
        ensures
            r == spec_normalize(ch),
    {
        match unicode_block(ch) {
            UnicodeBlock::BasicLatin => {
                if ch < 'A' || ('Z' < ch && ch < 'a') || ch > 'z' {
                    ' '
                } else {
                    ch
                }
            },
            UnicodeBlock::Latin1Supplement => {
                if latin1_excluded(ch) {
                    ' '
                } else {
                    ch
                }
            },
            UnicodeBlock::LatinExtendedB => {
                if ch == '\u{0219}' {
                    '\u{015F}'
                } else if ch == '\u{021B}' {
                    '\u{0163}'
                } else {
                    ch
                }
            },
            UnicodeBlock::GeneralPunctuation => ' ',
            UnicodeBlock::Arabic => {
                if ch == '\u{06CC}' {
                    '\u{064A}'
                } else {
                    ch
                }
            },
            UnicodeBlock::LatinExtendedAdditional => {
                if ch >= '\u{1EA0}' {
                    '\u{1EC3}'
                } else {
                    ch
                }
            },
            UnicodeBlock::Hiragana => '\u{3042}',
            UnicodeBlock::Katakana => '\u{30A2}',
            UnicodeBlock::Bopomofo => '\u{3105}',
            UnicodeBlock::BopomofoExtended => '\u{3105}',
            UnicodeBlock::CjkUnifiedIdeographs => cjk_fold(ch),
            UnicodeBlock::HangulSyllables => '\u{AC00}',
            UnicodeBlock::Other => ch,
        }
    }
}

} // verus!
