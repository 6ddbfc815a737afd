use langdetect::utils::lang_profile::{LangProfile, LangProfileJson};

#[test]
fn test_lang_profile() {
    let profile = LangProfile::new().build();
    assert!(profile.name.is_none());
}

#[test]
fn test_lang_profile_string_int() {
    let profile = LangProfile::new().with_name("en").build();
    assert_eq!(profile.name.as_deref(), Some("en"));
}

#[test]
fn test_add() {
    let mut profile = LangProfile::new().with_name("en").build();
    profile.add("a");
    assert_eq!(profile.freq_get("a"), Some(1));
    profile.add("a");
    assert_eq!(profile.freq_get("a"), Some(2));
    profile.omit_less_freq();
}

#[test]
fn test_add_illegally1() {
    let mut profile = LangProfile::new().build();
    profile.add("a"); // ignore
    assert_eq!(profile.freq_get("a"), None); // ignored
}

#[test]
fn test_add_illegally2() {
    let mut profile = LangProfile::new().with_name("en").build();
    profile.add("a");
    // Illegal (string's length of parameter must be between 1 and 3) but ignore
    profile.add("");
    // as well
    profile.add("abcd");
    assert_eq!(profile.freq_get("a"), Some(1));
    // ignored
    assert_eq!(profile.freq_get(""), None);
    // ignored
    assert_eq!(profile.freq_get("abcd"), None);
}

#[test]
fn test_omit_less_freq() {
    let mut profile = LangProfile::new().with_name("en").build();
    let grams = vec![
        "a", "b", "c", "\u{3042}", "\u{3044}", "\u{3046}", "\u{3048}", "\u{304a}", "\u{304b}",
        "\u{304c}", "\u{304d}", "\u{304e}", "\u{304f}",
    ];
    for _ in 0..5 {
        for g in &grams {
            profile.add(g);
        }
    }
    profile.add("\u{3050}");
    assert_eq!(profile.freq_get("a"), Some(5));
    assert_eq!(profile.freq_get("\u{3042}"), Some(5));
    assert_eq!(profile.freq_get("\u{3050}"), Some(1));
    profile.omit_less_freq();
    // omitted
    assert_eq!(profile.freq_get("a"), None);
    assert_eq!(profile.freq_get("\u{3042}"), Some(5));
    // omitted
    assert_eq!(profile.freq_get("\u{3050}"), None);
}

#[test]
fn test_omit_less_freq_illegally() {
    let mut profile = LangProfile::new().build();
    // ignore
    profile.omit_less_freq();
}

#[test]
fn test_omit_never_raises_totals() {
    // The per-length totals only ever shrink under pruning, and by exactly
    // the dropped counts.
    let mut profile = LangProfile::new().with_name("en").build();
    for _ in 0..5 {
        profile.add("a");
        profile.add("ab");
        profile.add("abc");
    }
    profile.add("z");
    let before: Vec<usize> = profile.n_words.clone();
    profile.omit_less_freq();
    for k in 0..3 {
        assert!(profile.n_words[k] <= before[k]);
    }
    // The rare "z" left with its count of one.
    assert_eq!(profile.n_words[0], 5);
    assert_eq!(profile.freq_get("z"), None);
    assert_eq!(profile.freq_get("a"), Some(5));
}

#[test]
fn test_update_counts_window_grams() {
    let mut profile = LangProfile::new().with_name("en").build();
    profile.update("ab");
    assert_eq!(profile.freq_get("a"), Some(1));
    assert_eq!(profile.freq_get(" a"), Some(1));
    assert_eq!(profile.freq_get("b"), Some(1));
    assert_eq!(profile.freq_get("ab"), Some(1));
    assert_eq!(profile.freq_get(" ab"), Some(1));
    assert_eq!(profile.n_words[0], 2);
    assert_eq!(profile.n_words[1], 2);
    assert_eq!(profile.n_words[2], 1);
}

#[test]
fn test_from_json_rejects_bad_totals() {
    let record = LangProfileJson {
        freq: vec![("a".to_string(), 1)],
        n_words: vec![1, 2],
        name: "en".to_string(),
    };
    let r = LangProfile::from_json(record);
    assert_eq!(r.err(), Some("Invalid n_words length"));

    let good = LangProfileJson {
        freq: vec![("a".to_string(), 1)],
        n_words: vec![1, 0, 0],
        name: "en".to_string(),
    };
    let p = LangProfile::from_json(good).unwrap();
    assert_eq!(p.name.as_deref(), Some("en"));
    assert_eq!(p.freq_get("a"), Some(1));
    assert_eq!(p.n_words, vec![1, 0, 0]);
}
