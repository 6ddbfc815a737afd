use langdetect::utils::messages;
use langdetect::utils::messages::Messages;
use langdetect::utils::ngram::NGram;

#[test]
fn test_constants() {
    assert_eq!(NGram::N_GRAM, 3);
}

#[test]
fn test_normalize_with_latin() {
    assert_eq!(NGram::normalize('\u{0000}'), ' ');
    assert_eq!(NGram::normalize('\u{0009}'), ' ');
    assert_eq!(NGram::normalize('\u{0020}'), ' ');
    assert_eq!(NGram::normalize('\u{0030}'), ' ');
    assert_eq!(NGram::normalize('\u{0040}'), ' ');
    assert_eq!(NGram::normalize('A'), 'A');
    assert_eq!(NGram::normalize('Z'), 'Z');
    assert_eq!(NGram::normalize('\u{005B}'), ' ');
    assert_eq!(NGram::normalize('\u{0060}'), ' ');
    assert_eq!(NGram::normalize('a'), 'a');
    assert_eq!(NGram::normalize('z'), 'z');
    assert_eq!(NGram::normalize('\u{007B}'), ' ');
    assert_eq!(NGram::normalize('\u{007F}'), ' ');
    assert_eq!(NGram::normalize('\u{0080}'), '\u{0080}');
    assert_eq!(NGram::normalize('\u{00A0}'), ' ');
    assert_eq!(NGram::normalize('\u{00A1}'), '\u{00A1}');
}

#[test]
fn test_normalize_with_cjk_kanji() {
    assert_eq!(NGram::normalize('\u{4E00}'), '\u{4E00}');
    assert_eq!(NGram::normalize('\u{4E01}'), '\u{4E01}');
    assert_eq!(NGram::normalize('\u{4E02}'), '\u{4E02}');
    assert_eq!(NGram::normalize('\u{4E03}'), NGram::normalize('\u{4E01}'));
    assert_eq!(NGram::normalize('\u{4E04}'), '\u{4E04}');
    assert_eq!(NGram::normalize('\u{4E05}'), '\u{4E05}');
    assert_eq!(NGram::normalize('\u{4E06}'), '\u{4E06}');
    assert_eq!(NGram::normalize('\u{4E07}'), '\u{4E07}');
    assert_eq!(NGram::normalize('\u{4E08}'), '\u{4E08}');
    assert_eq!(NGram::normalize('\u{4E09}'), '\u{4E09}');
    assert_eq!(NGram::normalize('\u{4E10}'), '\u{4E10}');
    assert_eq!(NGram::normalize('\u{4E11}'), '\u{4E11}');
    assert_eq!(NGram::normalize('\u{4E12}'), '\u{4E12}');
    assert_eq!(NGram::normalize('\u{4E13}'), '\u{4E13}');
    assert_eq!(NGram::normalize('\u{4E14}'), '\u{4E14}');
    assert_eq!(NGram::normalize('\u{4E15}'), '\u{4E15}');
    assert_eq!(NGram::normalize('\u{4E1E}'), '\u{4E1E}');
    assert_eq!(NGram::normalize('\u{4E1F}'), '\u{4E1F}');
    assert_eq!(NGram::normalize('\u{4E20}'), '\u{4E20}');
    assert_eq!(NGram::normalize('\u{4E21}'), '\u{4E21}');
    assert_eq!(NGram::normalize('\u{4E22}'), '\u{4E22}');
    assert_eq!(NGram::normalize('\u{4E23}'), '\u{4E23}');
    assert_eq!(NGram::normalize('\u{4E24}'), NGram::normalize('\u{4E13}'));
    assert_eq!(NGram::normalize('\u{4E25}'), NGram::normalize('\u{4E13}'));
    assert_eq!(NGram::normalize('\u{4E30}'), '\u{4E30}');
}

#[test]
fn test_normalize_for_romanian() {
    assert_eq!(NGram::normalize('\u{015F}'), '\u{015F}');
    assert_eq!(NGram::normalize('\u{0163}'), '\u{0163}');
    assert_eq!(NGram::normalize('\u{0219}'), '\u{015F}');
    assert_eq!(NGram::normalize('\u{021B}'), '\u{0163}');
}

#[test]
fn test_ngram() {
    let mut ngram = NGram::new();
    assert_eq!(ngram.get(0), None);
    assert_eq!(ngram.get(1), None);
    assert_eq!(ngram.get(2), None);
    assert_eq!(ngram.get(3), None);
    assert_eq!(ngram.get(4), None);
    ngram.add_char(' ');
    assert_eq!(ngram.get(1), None);
    assert_eq!(ngram.get(2), None);
    assert_eq!(ngram.get(3), None);
    ngram.add_char('A');
    assert_eq!(ngram.get(1), Some("A".to_string()));
    assert_eq!(ngram.get(2), Some(" A".to_string()));
    assert_eq!(ngram.get(3), None);
    ngram.add_char('\u{06CC}');
    assert_eq!(ngram.get(1), Some('\u{064A}'.to_string()));
    assert_eq!(ngram.get(2), Some(format!("A{}", '\u{064A}')));
    assert_eq!(ngram.get(3), Some(format!(" {}{}", 'A', '\u{064A}')));
    ngram.add_char('\u{1EA0}');
    assert_eq!(ngram.get(1), Some('\u{1EC3}'.to_string()));
    assert_eq!(ngram.get(2), Some(format!("{}{}", '\u{064A}', '\u{1EC3}')));
    assert_eq!(ngram.get(3), Some(format!("{}{}{}", 'A', '\u{064A}', '\u{1EC3}')));
    ngram.add_char('\u{3044}');
    assert_eq!(ngram.get(1), Some('\u{3042}'.to_string()));
    assert_eq!(ngram.get(2), Some(format!("{}{}", '\u{1EC3}', '\u{3042}')));
    assert_eq!(ngram.get(3), Some(format!("{}{}{}", '\u{064A}', '\u{1EC3}', '\u{3042}')));
    ngram.add_char('\u{30A4}');
    assert_eq!(ngram.get(1), Some('\u{30A2}'.to_string()));
    assert_eq!(ngram.get(2), Some(format!("{}{}", '\u{3042}', '\u{30A2}')));
    assert_eq!(ngram.get(3), Some(format!("{}{}{}", '\u{1EC3}', '\u{3042}', '\u{30A2}')));
    ngram.add_char('\u{3106}');
    assert_eq!(ngram.get(1), Some('\u{3105}'.to_string()));
    assert_eq!(ngram.get(2), Some(format!("{}{}", '\u{30A2}', '\u{3105}')));
    assert_eq!(ngram.get(3), Some(format!("{}{}{}", '\u{3042}', '\u{30A2}', '\u{3105}')));
    ngram.add_char('\u{AC01}');
    assert_eq!(ngram.get(1), Some('\u{AC00}'.to_string()));
    assert_eq!(ngram.get(2), Some(format!("{}{}", '\u{3105}', '\u{AC00}')));
    assert_eq!(ngram.get(3), Some(format!("{}{}{}", '\u{30A2}', '\u{3105}', '\u{AC00}')));
    ngram.add_char('\u{2010}');
    assert_eq!(ngram.get(1), None);
    assert_eq!(ngram.get(2), Some(format!("{} ", '\u{AC00}')));
    assert_eq!(ngram.get(3), Some(format!("{}{} ", '\u{3105}', '\u{AC00}')));
    ngram.add_char('a');
    assert_eq!(ngram.get(1), Some("a".to_string()));
    assert_eq!(ngram.get(2), Some(" a".to_string()));
    assert_eq!(ngram.get(3), None);
}

#[test]
fn test_ngram3() {
    let mut ngram = NGram::new();
    ngram.add_char('A');
    assert_eq!(ngram.get(1), Some("A".to_string()));
    assert_eq!(ngram.get(2), Some(" A".to_string()));
    assert_eq!(ngram.get(3), None);
    ngram.add_char('1');
    assert_eq!(ngram.get(1), None);
    assert_eq!(ngram.get(2), Some("A ".to_string()));
    assert_eq!(ngram.get(3), Some(" A ".to_string()));
    ngram.add_char('B');
    assert_eq!(ngram.get(1), Some("B".to_string()));
    assert_eq!(ngram.get(2), Some(" B".to_string()));
    assert_eq!(ngram.get(3), None);
}

#[test]
fn test_normalize_vietnamese() {
    assert_eq!(NGram::normalize_vi(""), "");
    assert_eq!(NGram::normalize_vi("ABC"), "ABC");
    assert_eq!(NGram::normalize_vi("012"), "012");
    assert_eq!(NGram::normalize_vi("\u{00C0}"), "\u{00C0}");

    // All combinations
    let bases = messages::get_string("TO_NORMALIZE_VI_CHARS");
    let dmarks = messages::get_string("DMARK_CLASS");
    let norm_0300 = messages::get_string("NORMALIZED_VI_CHARS_0300");
    let norm_0301 = messages::get_string("NORMALIZED_VI_CHARS_0301");
    let norm_0303 = messages::get_string("NORMALIZED_VI_CHARS_0303");
    let norm_0309 = messages::get_string("NORMALIZED_VI_CHARS_0309");
    let norm_0323 = messages::get_string("NORMALIZED_VI_CHARS_0323");
    for (di, norm_table) in [norm_0300, norm_0301, norm_0303, norm_0309, norm_0323]
        .iter()
        .enumerate()
    {
        for (bi, base) in bases.chars().enumerate() {
            let composed = norm_table.chars().nth(bi).unwrap();
            let dmark = dmarks.chars().nth(di).unwrap();
            let input = format!("{}{}", base, dmark);
            assert_eq!(NGram::normalize_vi(&input), composed.to_string());
        }
    }
}

#[test]
fn test_parse_unicode_escapes() {
    assert_eq!(Messages::parse_unicode_escapes(""), "");
    assert_eq!(Messages::parse_unicode_escapes("plain"), "plain");
    assert_eq!(Messages::parse_unicode_escapes("\\u0041BC"), "ABC");
    assert_eq!(Messages::parse_unicode_escapes("\\u00A0"), "\u{00A0}");
    assert_eq!(Messages::parse_unicode_escapes("x\\u0079z"), "xyz");
    // A malformed numeral leaves the backslash and drops the taken characters.
    assert_eq!(Messages::parse_unicode_escapes("\\uZZZZ"), "\\");
    // A surrogate code names no character.
    assert_eq!(Messages::parse_unicode_escapes("\\uD800x"), "\\x");
    // A backslash without `u` passes through.
    assert_eq!(Messages::parse_unicode_escapes("\\x41"), "\\x41");
}

#[test]
fn test_get_string_missing_key() {
    assert_eq!(messages::get_string("NO_SUCH_KEY"), "!NO_SUCH_KEY!");
}

#[test]
fn test_get_string_decodes_escapes() {
    assert_eq!(
        messages::get_string("NGram.LATIN1_EXCLUDE"),
        "\u{00A0}\u{00AB}\u{00B0}\u{00BB}"
    );
    assert_eq!(messages::get_string("DMARK_CLASS"), "\u{0300}\u{0301}\u{0303}\u{0309}\u{0323}");
}

#[test]
fn test_capitalized_run_suppresses_grams() {
    // Two consecutive uppercase characters flag a capitalized run, and the
    // window offers no gram until the run ends.
    let mut ngram = NGram::new();
    ngram.add_char('A');
    assert_eq!(ngram.get(1), Some("A".to_string()));
    ngram.add_char('B');
    assert_eq!(ngram.get(1), None);
    assert_eq!(ngram.get(2), None);
    ngram.add_char('c');
    assert_eq!(ngram.get(1), Some("c".to_string()));
    assert_eq!(ngram.get(3), Some("ABc".to_string()));
}
