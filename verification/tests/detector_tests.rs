use langdetect::detector::{Detector, DetectorError, GramProb};
use langdetect::detector_factory::{DetectorFactory, DetectorFactoryError};
use langdetect::utils::lang_profile::{LangProfile, LangProfileJson};

fn setup_factory() -> DetectorFactory {
    let mut factory = DetectorFactory::new().build();

    let mut profile_en = LangProfile::new().with_name("en").build();
    for w in ["a", "a", "a", "b", "b", "c", "c", "d", "e"].iter() {
        profile_en.add(w);
    }
    let result = factory.add_profile(profile_en, 0, 3);
    assert!(result.is_ok(), "Unexpected error in add_profile: {:?}", result);
    result.unwrap();

    let mut profile_fr = LangProfile::new().with_name("fr").build();
    for w in ["a", "b", "b", "c", "c", "c", "d", "d", "d"].iter() {
        profile_fr.add(w);
    }
    let result = factory.add_profile(profile_fr, 1, 3);
    assert!(result.is_ok(), "Unexpected error in add_profile: {:?}", result);
    result.unwrap();

    let mut profile_ja = LangProfile::new().with_name("ja").build();
    for w in ["\u{3042}", "\u{3042}", "\u{3042}", "\u{3044}", "\u{3046}", "\u{3048}", "\u{3048}"]
        .iter()
    {
        profile_ja.add(w);
    }
    let result = factory.add_profile(profile_ja, 2, 3);
    assert!(result.is_ok(), "Unexpected error in add_profile: {:?}", result);
    result.unwrap();

    factory
}

fn lang1_record() -> LangProfileJson {
    LangProfileJson {
        freq: vec![
            ("A".to_string(), 3),
            ("B".to_string(), 6),
            ("C".to_string(), 3),
            ("AB".to_string(), 2),
            ("BC".to_string(), 1),
            ("ABC".to_string(), 2),
            ("BBC".to_string(), 1),
            ("CBA".to_string(), 1),
        ],
        n_words: vec![12, 3, 4],
        name: "lang1".to_string(),
    }
}

fn lang2_record() -> LangProfileJson {
    LangProfileJson {
        freq: vec![
            ("A".to_string(), 6),
            ("B".to_string(), 3),
            ("C".to_string(), 3),
            ("AA".to_string(), 3),
            ("AB".to_string(), 2),
            ("ABC".to_string(), 1),
            ("ABA".to_string(), 1),
            ("CAA".to_string(), 1),
        ],
        n_words: vec![12, 5, 3],
        name: "lang2".to_string(),
    }
}

#[test]
fn test_lang_list() {
    let factory = setup_factory();
    let langlist = factory.get_lang_list();
    assert_eq!(langlist.len(), 3);
    assert_eq!(langlist[0], "en");
    assert_eq!(langlist[1], "fr");
    assert_eq!(langlist[2], "ja");
}

#[test]
fn test_factory_from_json_string() {
    let mut factory = DetectorFactory::new().build();
    factory.clear();
    let profiles = vec![lang1_record(), lang2_record()];
    factory.load_json_profile(profiles).unwrap();
    let langlist = factory.get_lang_list();
    assert_eq!(langlist.len(), 2);
    assert_eq!(langlist[0], "lang1");
    assert_eq!(langlist[1], "lang2");
}

#[test]
fn test_load_too_few_profiles() {
    // Fewer than two profiles cannot support an inference run.
    let mut factory = DetectorFactory::new().build();
    let r = factory.load_json_profile(vec![lang1_record()]);
    assert!(matches!(r, Err(DetectorFactoryError::NotEnoughProfiles)));
    assert_eq!(factory.get_lang_list().len(), 0);
}

#[test]
fn test_add_profile_duplicate() {
    let mut factory = DetectorFactory::new().build();
    let en1 = LangProfile::new().with_name("en").build();
    let en2 = LangProfile::new().with_name("en").build();
    factory.add_profile(en1, 0, 2).unwrap();
    let r = factory.add_profile(en2, 1, 2);
    match r {
        Err(DetectorFactoryError::DuplicatedLanguage(lang)) => assert_eq!(lang, "en"),
        other => panic!("expected a duplicate-language error, got {:?}", other),
    }
    assert_eq!(factory.get_lang_list().len(), 1);
}

#[test]
fn test_model_vector_lengths() {
    // Every probability vector in the table has one entry per language.
    let factory = setup_factory();
    assert!(!factory.word_lang_prob_map.is_empty());
    for entry in factory.word_lang_prob_map.iter() {
        assert_eq!(entry.1.len(), 3);
    }
}

#[test]
fn test_model_probability_values() {
    // P(gram | language) is the gram's count over the profile's total for
    // its length: for "a" in "en", three of nine.
    let factory = setup_factory();
    let mut checked = false;
    for entry in factory.word_lang_prob_map.iter() {
        if entry.0 == vec!['a'] {
            assert_eq!(entry.1[0], GramProb { num: 3, den: 9 });
            assert_eq!(entry.1[1], GramProb { num: 1, den: 9 });
            assert_eq!(entry.1[2], GramProb { num: 0, den: 1 });
            checked = true;
        }
    }
    assert!(checked);
}

#[test]
fn test_delete_profile() {
    let mut factory = setup_factory();
    factory.delete_profile("fr").unwrap();
    let langlist = factory.get_lang_list();
    assert_eq!(langlist, vec!["en".to_string(), "ja".to_string()]);
    for entry in factory.word_lang_prob_map.iter() {
        assert_eq!(entry.1.len(), 2);
    }
    let r = factory.delete_profile("nope");
    match r {
        Err(DetectorFactoryError::DuplicatedLanguage(lang)) => assert_eq!(lang, "nope"),
        other => panic!("expected an unknown-language error, got {:?}", other),
    }
}

#[test]
fn test_detector_no_features() {
    // Text sharing no character with any profile yields the NoFeatures
    // error, not a default answer.
    let factory = setup_factory();
    let mut detector = Detector::new(factory.word_lang_prob_map, factory.langlist, factory.seed);
    detector.append("xyz");
    let r = detector.detect_features();
    assert!(matches!(r, Err(DetectorError::NoFeatures)));
}

#[test]
fn test_detector_features_found() {
    let factory = setup_factory();
    let mut detector = Detector::new(factory.word_lang_prob_map, factory.langlist, factory.seed);
    detector.append("a");
    let feats = detector.detect_features().unwrap();
    assert_eq!(feats, vec!["a".to_string()]);
}

#[test]
fn test_append_strips_urls_and_mail() {
    let factory = setup_factory();
    let mut detector = Detector::new(factory.word_lang_prob_map, factory.langlist, factory.seed);
    detector.append("link http://example.com/x end");
    let text: String = detector.text.iter().collect();
    assert_eq!(text, "link end");

    let factory2 = setup_factory();
    let mut detector2 =
        Detector::new(factory2.word_lang_prob_map, factory2.langlist, factory2.seed);
    detector2.append("write to user@example.com now");
    let text2: String = detector2.text.iter().collect();
    assert_eq!(text2, "write to now");
}

#[test]
fn test_append_collapses_spaces() {
    let factory = setup_factory();
    let mut detector = Detector::new(factory.word_lang_prob_map, factory.langlist, factory.seed);
    detector.append("a   b  c");
    let text: String = detector.text.iter().collect();
    assert_eq!(text, "a b c");
}

#[test]
fn test_cleaning_strips_minority_latin() {
    let factory = setup_factory();
    let mut detector = Detector::new(factory.word_lang_prob_map, factory.langlist, factory.seed);
    detector.append("\u{3042}\u{3044}\u{3046}\u{3048}z");
    detector.cleaning_text();
    let text: String = detector.text.iter().collect();
    assert_eq!(text, "\u{3042}\u{3044}\u{3046}\u{3048}");
}

#[test]
fn test_cleaning_strips_letters_only() {
    // Only Latin letters leave the buffer: the ASCII punctuation between
    // the cases stays.
    let factory = setup_factory();
    let mut detector = Detector::new(factory.word_lang_prob_map, factory.langlist, factory.seed);
    detector.append("a_\u{3042}\u{3044}\u{3046}\u{3048}\u{304A}");
    detector.cleaning_text();
    let text: String = detector.text.iter().collect();
    assert_eq!(text, "_\u{3042}\u{3044}\u{3046}\u{3048}\u{304A}");
}

#[test]
fn test_extraction_gates_by_characters() {
    // A window holding two characters offers no 3-gram, so a gram enters
    // the feature stream at most once per position whatever its byte width.
    let model = vec![
        (vec![' ', '\u{3042}'], vec![GramProb { num: 1, den: 1 }]),
        (vec!['\u{3042}'], vec![GramProb { num: 1, den: 1 }]),
    ];
    let mut detector = Detector::new(model, vec!["xx".to_string()], None);
    detector.append("\u{3042}");
    let feats = detector.detect_features().unwrap();
    assert_eq!(feats, vec!["\u{3042}".to_string(), " \u{3042}".to_string()]);
}

#[test]
fn test_cleaning_keeps_majority_latin() {
    let factory = setup_factory();
    let mut detector = Detector::new(factory.word_lang_prob_map, factory.langlist, factory.seed);
    detector.append("abcdef\u{3042}");
    detector.cleaning_text();
    let text: String = detector.text.iter().collect();
    assert_eq!(text, "abcdef\u{3042}");
}

#[test]
fn test_hiragana_features_collapse() {
    // Every hiragana character normalizes to one representative, so a
    // hiragana text maps onto the "ja" profile's grams.
    let factory = setup_factory();
    let mut detector = Detector::new(factory.word_lang_prob_map, factory.langlist, factory.seed);
    detector.append("\u{304B}");
    let feats = detector.detect_features().unwrap();
    assert_eq!(feats, vec!["\u{3042}".to_string()]);
}
