//! The static normalization data, stored as property values whose non-ASCII
//! characters are written as `\uXXXX` escapes, together with the verified
//! escape decoder and a keyed lookup over the entries.

use vstd::prelude::*;
use crate::utils::chars::{chars_of, str_eq, string_from_chars};

verus! {

/// Value of one hexadecimal digit, if the character is one.
pub open spec fn spec_hex_val(c: char) -> Option<u32> {
    if '0' <= c && c <= '9' {
        Some((c as u32 - '0' as u32) as u32)
    } else if 'a' <= c && c <= 'f' {
        Some((c as u32 - 'a' as u32 + 10) as u32)
    } else if 'A' <= c && c <= 'F' {
        Some((c as u32 - 'A' as u32 + 10) as u32)
    } else {
        None
    }
}

/// Value of a run of hexadecimal digits; none when the run is empty or holds
/// a non-digit.
pub open spec fn spec_hex_digits_val(s: Seq<char>) -> Option<nat>
    decreases s.len(),
{
    if s.len() == 0 {
        None
    } else if s.len() == 1 {
        match spec_hex_val(s[0]) {
            Some(d) => Some(d as nat),
            None => None,
        }
    } else {
        match (spec_hex_digits_val(s.drop_last()), spec_hex_val(s.last())) {
            (Some(v), Some(d)) => Some((16 * v + d) as nat),
            _ => None,
        }
    }
}

/// Value of a short hexadecimal numeral as the standard integer parser reads
/// it: an optional leading plus sign, then at least one digit.
pub open spec fn spec_hex_numeral(s: Seq<char>) -> Option<nat> {
    if s.len() > 0 && s[0] == '+' {
        spec_hex_digits_val(s.skip(1))
    } else {
        spec_hex_digits_val(s)
    }
}

/// Whether a code a four-digit escape can express names a Unicode scalar
/// value: everything up to 0xFFFF except the surrogates.
pub open spec fn spec_escape_scalar(v: nat) -> bool {
    !(0xD800 <= v && v <= 0xDFFF)
}

/// The text with every well-formed `\uXXXX` escape replaced by the character
/// it names. After `\u`, up to four characters are taken as the hex numeral;
/// when they do not name a scalar value, the backslash alone is kept and the
/// taken characters are dropped.
pub open spec fn spec_parse_escapes(s: Seq<char>) -> Seq<char>
    decreases s.len(),
{
    if s.len() == 0 {
        Seq::empty()
    } else if s[0] == '\\' && s.len() >= 2 && s[1] == 'u' {
        let take = if s.len() - 2 >= 4 {
            4int
        } else {
            s.len() - 2
        };
        let rest = s.skip(2 + take);
        match spec_hex_numeral(s.subrange(2, 2 + take)) {
            Some(v) => if spec_escape_scalar(v) {
                seq![(v as u32) as char] + spec_parse_escapes(rest)
            } else {
                seq!['\\'] + spec_parse_escapes(rest)
            },
            None => seq!['\\'] + spec_parse_escapes(rest),
        }
    } else {
        seq![s[0]] + spec_parse_escapes(s.skip(1))
    }
}

/// Relies on char::from_u32: the result is the character with the given code,
/// and exists exactly when the code is a Unicode scalar value.
#[verifier::external_body]
fn char_from_u32(v: u32) -> (r: Option<char>)
    ensures
        r is Some <==> (v < 0xD800 || (0xE000 <= v && v <= 0x10FFFF)),
        r is Some ==> r.unwrap() == v as char,
{
    char::from_u32(v)
}

/// Value of the hex numeral in `cs[start .. start + count]`, as the standard
/// parser reads it.
fn parse_hex_numeral(cs: &Vec<char>, start: usize, count: usize) -> (r: Option<u32>)
    requires
        start + count <= cs@.len(),
        count <= 4,
    ensures
        r is Some <==> spec_hex_numeral(cs@.subrange(start as int, (start + count) as int))
            is Some,
        r is Some ==> r.unwrap() as nat == spec_hex_numeral(
            cs@.subrange(start as int, (start + count) as int),
        ).unwrap(),
{
    let n = cs.len();
    let end: usize = start + count;
    let ghost whole = cs@.subrange(start as int, end as int);
    let mut i: usize = start;
    if count > 0 && cs[start] == '+' {
        i = start + 1;
        proof {
            assert(whole[0] == cs@[start as int]);
            assert(whole.skip(1) =~= cs@.subrange(i as int, end as int));
            assert(spec_hex_numeral(whole) == spec_hex_digits_val(
                cs@.subrange(i as int, end as int),
            ));
        }
    } else {
        proof {
            if whole.len() > 0 {
                assert(whole[0] == cs@[start as int]);
            }
            assert(whole =~= cs@.subrange(i as int, end as int));
            assert(spec_hex_numeral(whole) == spec_hex_digits_val(
                cs@.subrange(i as int, end as int),
            ));
        }
    }
    let ghost digits = cs@.subrange(i as int, end as int);
    if i == end {
        proof {
            assert(digits.len() == 0);
            assert(spec_hex_digits_val(digits) is None);
        }
        return None;
    }
    let mut acc: u32 = 0;
    let mut j: usize = i;
    while j < end
        invariant
            i <= j <= end,
            end <= cs@.len(),
            end - i <= 4,
            i < end,
            j > i ==> spec_hex_digits_val(cs@.subrange(i as int, j as int)) == Some(acc as nat),
            j == i ==> acc == 0,
            acc < 0x10000,
            end == start + count,
            whole == cs@.subrange(start as int, end as int),
            digits == cs@.subrange(i as int, end as int),
            spec_hex_numeral(whole) == spec_hex_digits_val(digits),
        decreases end - j,
    {
        let c = cs[j];
        let d: u32;
        if '0' <= c && c <= '9' {
            d = c as u32 - '0' as u32;
        } else if 'a' <= c && c <= 'f' {
            d = c as u32 - 'a' as u32 + 10;
        } else if 'A' <= c && c <= 'F' {
            d = c as u32 - 'A' as u32 + 10;
        } else {
            proof {
                assert(spec_hex_val(c) is None);
                assert(digits[j - i] == cs@[j as int]);
                lemma_hex_digits_bad(digits, j - i);
                assert(spec_hex_numeral(whole) is None);
                assert(whole == cs@.subrange(start as int, (start + count) as int));
            }
            return None;
        }
        proof {
            assert(spec_hex_val(cs@[j as int]) == Some(d));
            let sub = cs@.subrange(i as int, (j + 1) as int);
            assert(sub.last() == cs@[j as int]);
            assert(sub.drop_last() =~= cs@.subrange(i as int, j as int));
            assert(sub.len() == j + 1 - i <= 4);
            if j == i {
                assert(spec_hex_digits_val(sub) == Some(d as nat));
            } else {
                assert(spec_hex_digits_val(sub) == Some((16 * acc + d) as nat));
            }
            assert(acc < 0x1000) by {
                if j > i {
                    assert(cs@.subrange(i as int, j as int).len() == j - i <= 3);
                    lemma_hex_digits_val_bound(cs@.subrange(i as int, j as int));
                }
            };
        }
        acc = acc * 16 + d;
        j = j + 1;
    }
    proof {
        assert(cs@.subrange(i as int, j as int) =~= digits);
    }
    Some(acc)
}

/// A short hex numeral fits in sixteen bits.
proof fn lemma_hex_numeral_bound(s: Seq<char>)
    requires
        s.len() <= 4,
        spec_hex_numeral(s) is Some,
    ensures
        spec_hex_numeral(s).unwrap() < 0x10000,
{
    if s.len() > 0 && s[0] == '+' {
        lemma_hex_digits_val_bound(s.skip(1));
    } else {
        lemma_hex_digits_val_bound(s);
    }
}

/// A run of at most `k` hex digits has value below `16^k`.
proof fn lemma_hex_digits_val_bound(s: Seq<char>)
    requires
        s.len() <= 4,
        spec_hex_digits_val(s) is Some,
    ensures
        s.len() <= 1 ==> spec_hex_digits_val(s).unwrap() < 0x10,
        s.len() <= 2 ==> spec_hex_digits_val(s).unwrap() < 0x100,
        s.len() <= 3 ==> spec_hex_digits_val(s).unwrap() < 0x1000,
        spec_hex_digits_val(s).unwrap() < 0x10000,
    decreases s.len(),
{
    if s.len() > 1 {
        lemma_hex_digits_val_bound(s.drop_last());
    }
}

/// A hex-digit run with a non-digit anywhere in it has no value.
proof fn lemma_hex_digits_bad(s: Seq<char>, k: int)
    requires
        0 <= k < s.len(),
        spec_hex_val(s[k]) is None,
    ensures
        spec_hex_digits_val(s) is None,
    decreases s.len(),
{
    if s.len() > 1 {
        if k < s.len() - 1 {
            lemma_hex_digits_bad(s.drop_last(), k);
        }
    }
}

/// Raw property value: the Latin-1 Supplement characters normalization maps
/// to a space.
pub open spec fn raw_latin1_exclude() -> Seq<char> {
    "\\u00A0\\u00AB\\u00B0\\u00BB"@
}

fn raw_latin1_exclude_str() -> (r: &'static str)
    ensures
        r@ == raw_latin1_exclude(),
{
    "\\u00A0\\u00AB\\u00B0\\u00BB"
}

/// Raw property value: the Vietnamese base vowels that combine with a
/// following diacritical mark.
pub open spec fn raw_to_normalize_vi() -> Seq<char> {
    "AEIOUYaeiouy\\u00C2\\u00CA\\u00D4\\u00E2\\u00EA\\u00F4\\u0102\\u0103\\u01A0\\u01A1\\u01AF\\u01B0"@
}

fn raw_to_normalize_vi_str() -> (r: &'static str)
    ensures
        r@ == raw_to_normalize_vi(),
{
    "AEIOUYaeiouy\\u00C2\\u00CA\\u00D4\\u00E2\\u00EA\\u00F4\\u0102\\u0103\\u01A0\\u01A1\\u01AF\\u01B0"
}

/// Raw property value: the five combining diacritical marks, in table order
/// (grave, acute, tilde, hook above, dot below).
pub open spec fn raw_dmark_class() -> Seq<char> {
    "\\u0300\\u0301\\u0303\\u0309\\u0323"@
}

fn raw_dmark_class_str() -> (r: &'static str)
    ensures
        r@ == raw_dmark_class(),
{
    "\\u0300\\u0301\\u0303\\u0309\\u0323"
}

/// Raw property value: precomposed forms of each base vowel with a grave
/// accent, in base order.
pub open spec fn raw_vi_0300() -> Seq<char> {
    "\\u00C0\\u00C8\\u00CC\\u00D2\\u00D9\\u1EF2\\u00E0\\u00E8\\u00EC\\u00F2\\u00F9\\u1EF3\\u1EA6\\u1EC0\\u1ED2\\u1EA7\\u1EC1\\u1ED3\\u1EB0\\u1EB1\\u1EDC\\u1EDD\\u1EEA\\u1EEB"@
}

fn raw_vi_0300_str() -> (r: &'static str)
    ensures
        r@ == raw_vi_0300(),
{
    "\\u00C0\\u00C8\\u00CC\\u00D2\\u00D9\\u1EF2\\u00E0\\u00E8\\u00EC\\u00F2\\u00F9\\u1EF3\\u1EA6\\u1EC0\\u1ED2\\u1EA7\\u1EC1\\u1ED3\\u1EB0\\u1EB1\\u1EDC\\u1EDD\\u1EEA\\u1EEB"
}

/// Raw property value: precomposed forms with an acute accent.
pub open spec fn raw_vi_0301() -> Seq<char> {
    "\\u00C1\\u00C9\\u00CD\\u00D3\\u00DA\\u00DD\\u00E1\\u00E9\\u00ED\\u00F3\\u00FA\\u00FD\\u1EA4\\u1EBE\\u1ED0\\u1EA5\\u1EBF\\u1ED1\\u1EAE\\u1EAF\\u1EDA\\u1EDB\\u1EE8\\u1EE9"@
}

fn raw_vi_0301_str() -> (r: &'static str)
    ensures
        r@ == raw_vi_0301(),
{
    "\\u00C1\\u00C9\\u00CD\\u00D3\\u00DA\\u00DD\\u00E1\\u00E9\\u00ED\\u00F3\\u00FA\\u00FD\\u1EA4\\u1EBE\\u1ED0\\u1EA5\\u1EBF\\u1ED1\\u1EAE\\u1EAF\\u1EDA\\u1EDB\\u1EE8\\u1EE9"
}

/// Raw property value: precomposed forms with a tilde.
pub open spec fn raw_vi_0303() -> Seq<char> {
    "\\u00C3\\u1EBC\\u0128\\u00D5\\u0168\\u1EF8\\u00E3\\u1EBD\\u0129\\u00F5\\u0169\\u1EF9\\u1EAA\\u1EC4\\u1ED6\\u1EAB\\u1EC5\\u1ED7\\u1EB4\\u1EB5\\u1EE0\\u1EE1\\u1EEE\\u1EEF"@
}

fn raw_vi_0303_str() -> (r: &'static str)
    ensures
        r@ == raw_vi_0303(),
{
    "\\u00C3\\u1EBC\\u0128\\u00D5\\u0168\\u1EF8\\u00E3\\u1EBD\\u0129\\u00F5\\u0169\\u1EF9\\u1EAA\\u1EC4\\u1ED6\\u1EAB\\u1EC5\\u1ED7\\u1EB4\\u1EB5\\u1EE0\\u1EE1\\u1EEE\\u1EEF"
}

/// Raw property value: precomposed forms with a hook above.
pub open spec fn raw_vi_0309() -> Seq<char> {
    "\\u1EA2\\u1EBA\\u1EC8\\u1ECE\\u1EE6\\u1EF6\\u1EA3\\u1EBB\\u1EC9\\u1ECF\\u1EE7\\u1EF7\\u1EA8\\u1EC2\\u1ED4\\u1EA9\\u1EC3\\u1ED5\\u1EB2\\u1EB3\\u1EDE\\u1EDF\\u1EEC\\u1EED"@
}

fn raw_vi_0309_str() -> (r: &'static str)
    ensures
        r@ == raw_vi_0309(),
{
    "\\u1EA2\\u1EBA\\u1EC8\\u1ECE\\u1EE6\\u1EF6\\u1EA3\\u1EBB\\u1EC9\\u1ECF\\u1EE7\\u1EF7\\u1EA8\\u1EC2\\u1ED4\\u1EA9\\u1EC3\\u1ED5\\u1EB2\\u1EB3\\u1EDE\\u1EDF\\u1EEC\\u1EED"
}

/// Raw property value: precomposed forms with a dot below.
pub open spec fn raw_vi_0323() -> Seq<char> {
    "\\u1EA0\\u1EB8\\u1ECA\\u1ECC\\u1EE4\\u1EF4\\u1EA1\\u1EB9\\u1ECB\\u1ECD\\u1EE5\\u1EF5\\u1EAC\\u1EC6\\u1ED8\\u1EAD\\u1EC7\\u1ED9\\u1EB6\\u1EB7\\u1EE2\\u1EE3\\u1EF0\\u1EF1"@
}

fn raw_vi_0323_str() -> (r: &'static str)
    ensures
        r@ == raw_vi_0323(),
{
    "\\u1EA0\\u1EB8\\u1ECA\\u1ECC\\u1EE4\\u1EF4\\u1EA1\\u1EB9\\u1ECB\\u1ECD\\u1EE5\\u1EF5\\u1EAC\\u1EC6\\u1ED8\\u1EAD\\u1EC7\\u1ED9\\u1EB6\\u1EB7\\u1EE2\\u1EE3\\u1EF0\\u1EF1"
}

/// The decoded Vietnamese base vowels.
pub open spec fn spec_vi_bases() -> Seq<char> {
    spec_parse_escapes(raw_to_normalize_vi())
}

/// The decoded combining diacritical marks.
pub open spec fn spec_vi_dmarks() -> Seq<char> {
    spec_parse_escapes(raw_dmark_class())
}

/// The decoded precomposition table for the mark at the given index of
/// [`spec_vi_dmarks`].
pub open spec fn spec_vi_table(di: int) -> Seq<char> {
    if di == 0 {
        spec_parse_escapes(raw_vi_0300())
    } else if di == 1 {
        spec_parse_escapes(raw_vi_0301())
    } else if di == 2 {
        spec_parse_escapes(raw_vi_0303())
    } else if di == 3 {
        spec_parse_escapes(raw_vi_0309())
    } else {
        spec_parse_escapes(raw_vi_0323())
    }
}

/// The decoded characters of the Latin-1 exclusion entry.
pub open spec fn spec_latin1_exclude_chars() -> Seq<char> {
    spec_parse_escapes(raw_latin1_exclude())
}

/// The entries [`Messages::new`] builds: each key with its decoded value.
pub open spec fn spec_messages() -> Seq<(Seq<char>, Seq<char>)> {
    seq![
        ("NGram.LATIN1_EXCLUDE"@, spec_latin1_exclude_chars()),
        ("TO_NORMALIZE_VI_CHARS"@, spec_vi_bases()),
        ("DMARK_CLASS"@, spec_vi_dmarks()),
        ("NORMALIZED_VI_CHARS_0300"@, spec_vi_table(0)),
        ("NORMALIZED_VI_CHARS_0301"@, spec_vi_table(1)),
        ("NORMALIZED_VI_CHARS_0303"@, spec_vi_table(2)),
        ("NORMALIZED_VI_CHARS_0309"@, spec_vi_table(3)),
        ("NORMALIZED_VI_CHARS_0323"@, spec_vi_table(4)),
    ]
}

/// The decoded Vietnamese base vowels, as characters.
pub fn vi_bases_chars() -> (r: Vec<char>)
    ensures
        r@ == spec_vi_bases(),
{
    let s = Messages::parse_unicode_escapes(raw_to_normalize_vi_str());
    chars_of(s.as_str())
}

/// The decoded combining diacritical marks, as characters.
pub fn vi_dmarks_chars() -> (r: Vec<char>)
    ensures
        r@ == spec_vi_dmarks(),
{
    let s = Messages::parse_unicode_escapes(raw_dmark_class_str());
    chars_of(s.as_str())
}

/// The decoded precomposition table for the mark at index `di`, as
/// characters.
pub fn vi_table_chars(di: usize) -> (r: Vec<char>)
    requires
        di < 5,
    ensures
        r@ == spec_vi_table(di as int),
{
    let raw: &str = if di == 0 {
        raw_vi_0300_str()
    } else if di == 1 {
        raw_vi_0301_str()
    } else if di == 2 {
        raw_vi_0303_str()
    } else if di == 3 {
        raw_vi_0309_str()
    } else {
        raw_vi_0323_str()
    };
    let s = Messages::parse_unicode_escapes(raw);
    chars_of(s.as_str())
}

/// A keyed collection of the static normalization strings, decoded from
/// their escaped property values.
pub struct Messages {
    entries: Vec<(String, String)>,
}

/// First value stored under the key, if any.
pub open spec fn spec_lookup(entries: Seq<(Seq<char>, Seq<char>)>, key: Seq<char>) -> Option<
    Seq<char>,
>
    decreases entries.len(),
{
    if entries.len() == 0 {
        None
    } else if entries[0].0 == key {
        Some(entries[0].1)
    } else {
        spec_lookup(entries.skip(1), key)
    }
}

/// The key wrapped in exclamation marks: what a lookup of an absent key
/// returns.
pub open spec fn spec_missing(key: Seq<char>) -> Seq<char> {
    seq!['!'] + key + seq!['!']
}

impl View for Messages {
    type V = Seq<(Seq<char>, Seq<char>)>;

    closed spec fn view(&self) -> Seq<(Seq<char>, Seq<char>)> {
        self.entries@.map_values(|e: (String, String)| (e.0@, e.1@))
    }
}

impl Messages {
    /// Builds the collection of normalization strings from their escaped
    /// property values.
    pub fn new() -> (r: Messages)
        ensures
            r@ == spec_messages(),
    {
        let mut entries: Vec<(String, String)> = Vec::new();
        entries.push(
            (
                String::from_str("NGram.LATIN1_EXCLUDE"),
                Self::parse_unicode_escapes(raw_latin1_exclude_str()),
            ),
        );
        entries.push(
            (
                String::from_str("TO_NORMALIZE_VI_CHARS"),
                Self::parse_unicode_escapes(raw_to_normalize_vi_str()),
            ),
        );
        entries.push(
            (String::from_str("DMARK_CLASS"), Self::parse_unicode_escapes(raw_dmark_class_str())),
        );
        entries.push(
            (
                String::from_str("NORMALIZED_VI_CHARS_0300"),
                Self::parse_unicode_escapes(raw_vi_0300_str()),
            ),
        );
        entries.push(
            (
                String::from_str("NORMALIZED_VI_CHARS_0301"),
                Self::parse_unicode_escapes(raw_vi_0301_str()),
            ),
        );
        entries.push(
            (
                String::from_str("NORMALIZED_VI_CHARS_0303"),
                Self::parse_unicode_escapes(raw_vi_0303_str()),
            ),
        );
        entries.push(
            (
                String::from_str("NORMALIZED_VI_CHARS_0309"),
                Self::parse_unicode_escapes(raw_vi_0309_str()),
            ),
        );
        entries.push(
            (
                String::from_str("NORMALIZED_VI_CHARS_0323"),
                Self::parse_unicode_escapes(raw_vi_0323_str()),
            ),
        );
        let r = Messages { entries };
        proof {
            assert(r@ =~= spec_messages());
        }
        r
    }

    /// Decodes `\uXXXX` escapes in a property value (see
    /// [`spec_parse_escapes`]).
    pub fn parse_unicode_escapes(input: &str) -> (r: String)
        ensures
            r@ == spec_parse_escapes(input@),
    {
        let cs = chars_of(input);
        let mut out: Vec<char> = Vec::new();
        let mut i: usize = 0;
        proof {
            assert(cs@.skip(0) =~= cs@);
            assert(out@ + spec_parse_escapes(cs@) =~= spec_parse_escapes(cs@));
        }
        while i < cs.len()
            invariant
                i <= cs@.len(),
                spec_parse_escapes(cs@) == out@ + spec_parse_escapes(cs@.skip(i as int)),
            decreases cs@.len() - i,
        {
            let ghost pre = out@;
            let ghost tail = cs@.skip(i as int);
            proof {
                assert(tail[0] == cs@[i as int]);
            }
            let c = cs[i];
            if c == '\\' && i + 1 < cs.len() && cs[i + 1] == 'u' {
                proof {
                    assert(tail.len() >= 2 && tail[1] == cs@[i as int + 1]);
                }
                let take: usize = if cs.len() - (i + 2) >= 4 {
                    4
                } else {
                    cs.len() - (i + 2)
                };
                let inext = i + 2 + take;
                let ghost hexs = tail.subrange(2, 2 + take as int);
                let ghost rest = cs@.skip(inext as int);
                proof {
                    assert(hexs =~= cs@.subrange((i + 2) as int, inext as int));
                    assert(rest =~= tail.skip(2 + take as int));
                    assert(tail.len() == cs@.len() - i);
                    assert(hexs.len() == take);
                }
                let parsed = parse_hex_numeral(&cs, i + 2, take);
                match parsed {
                    Some(v) => {
                        proof {
                            assert(spec_hex_numeral(hexs) == Some(v as nat));
                            lemma_hex_numeral_bound(hexs);
                            assert((v as nat) as u32 == v);
                        }
                        match char_from_u32(v) {
                            Some(ch) => {
                                proof {
                                    assert(spec_escape_scalar(v as nat));
                                    assert(ch == v as char);
                                    assert(spec_parse_escapes(tail) == seq![ch]
                                        + spec_parse_escapes(rest));
                                }
                                out.push(ch);
                            },
                            None => {
                                proof {
                                    assert(!spec_escape_scalar(v as nat));
                                    assert(spec_parse_escapes(tail) == seq!['\\']
                                        + spec_parse_escapes(rest));
                                }
                                out.push('\\');
                            },
                        }
                    },
                    None => {
                        proof {
                            assert(spec_hex_numeral(hexs) is None);
                            assert(spec_parse_escapes(tail) == seq!['\\'] + spec_parse_escapes(
                                rest,
                            ));
                        }
                        out.push('\\');
                    },
                }
                i = inext;
                proof {
                    assert(out@ =~= pre + seq![out@.last()]);
                    assert(spec_parse_escapes(tail) == seq![out@.last()] + spec_parse_escapes(
                        cs@.skip(i as int),
                    ));
                    assert(out@ + spec_parse_escapes(cs@.skip(i as int)) =~= pre
                        + spec_parse_escapes(tail));
                }
            } else {
                out.push(c);
                i = i + 1;
                proof {
                    assert(cs@.skip(i as int) =~= tail.skip(1));
                    assert(spec_parse_escapes(tail) == seq![c] + spec_parse_escapes(tail.skip(1)));
                    assert(out@ + spec_parse_escapes(cs@.skip(i as int)) =~= pre
                        + spec_parse_escapes(tail));
                }
            }
        }
        proof {
            assert(cs@.skip(i as int) =~= Seq::<char>::empty());
            assert(out@ =~= spec_parse_escapes(cs@));
        }
        string_from_chars(&out)
    }

    /// The decoded value stored under the key, or the key wrapped in
    /// exclamation marks when no entry has it.
    pub fn get_string(&self, key: &str) -> (r: String)
        ensures
            r@ == match spec_lookup(self@, key@) {
                Some(v) => v,
                None => spec_missing(key@),
            },
    {
        let mut i: usize = 0;
        proof {
            assert(self@.skip(0) =~= self@);
        }
        while i < self.entries.len()
            invariant
                i <= self.entries@.len(),
                self@ == self.entries@.map_values(|e: (String, String)| (e.0@, e.1@)),
                spec_lookup(self@, key@) == spec_lookup(self@.skip(i as int), key@),
            decreases self.entries@.len() - i,
        {
            proof {
                assert(self@.skip(i as int)[0] == (self.entries@[i as int].0@, self.entries@[
                    i as int].1@));
            }
            if str_eq(self.entries[i].0.as_str(), key) {
                let found = self.entries[i].1.clone();
                return found;
            }
            proof {
                assert(self@.skip((i + 1) as int) =~= self@.skip(i as int).skip(1));
            }
            i = i + 1;
        }
        proof {
            assert(self@.skip(i as int) =~= Seq::<(Seq<char>, Seq<char>)>::empty());
        }
        let kc = chars_of(key);
        let mut out: Vec<char> = Vec::new();
        out.push('!');
        let mut j: usize = 0;
        while j < kc.len()
            invariant
                j <= kc@.len(),
                kc@ == key@,
                out@ == seq!['!'] + key@.take(j as int),
            decreases kc@.len() - j,
        {
            out.push(kc[j]);
            j = j + 1;
            proof {
                assert(out@ =~= seq!['!'] + key@.take(j as int));
            }
        }
        out.push('!');
        proof {
            assert(out@ =~= spec_missing(key@));
        }
        string_from_chars(&out)
    }
}

/// The decoded value stored under the key in the built-in entries, or the
/// key wrapped in exclamation marks when no entry has it.
pub fn get_string(key: &str) -> (r: String)
    ensures
        r@ == match spec_lookup(spec_messages(), key@) {
            Some(v) => v,
            None => spec_missing(key@),
        },
{
    let m = Messages::new();
    m.get_string(key)
}

} // verus!
