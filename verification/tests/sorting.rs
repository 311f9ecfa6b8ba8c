use greek_collate::config::CaseLevel;
use greek_collate::config::Config;
use greek_collate::config::Strength;
use greek_collate::sort::sort_words;

fn owned(words: &[&str]) -> Vec<String> {
    words.iter().map(|w| w.to_string()).collect()
}

#[test]
fn basic() {
    let mut options = Config::default();
    options.strength = Strength::Secondary;
    options.case_level = CaseLevel::On;

    let words = owned(&["ἄνθρωπος", "ἀγορά", "ἄγγελος", "Ἀθήνα", "ἀρετή"]);
    let result = sort_words(&words, &options);
    assert!(result.is_ok());
    if let Ok(r) = result {
        assert_eq!(r, owned(&["ἄγγελος", "ἀγορά", "Ἀθήνα", "ἄνθρωπος", "ἀρετή"]));
        //sanity check
        assert_ne!(r, owned(&["ἀγορά", "ἄγγελος", "Ἀθήνα", "ἄνθρωπος", "ἀρετή"]));
    }
}

#[test]
fn test_primary() {
    let mut options = Config::default();
    options.strength = Strength::Primary;
    options.case_level = CaseLevel::On;

    let words = owned(&[
        "α",
        "\u{03B1}\u{0304}",
        "ἀ",
        "ἄ",
        "Ά",
        "ἄγγελος",
        "\u{1FB1}\u{0313}\u{0301}\u{0345}",
        "Ἀθήνα",
        "Α",
        "ἀρετή",
        "ά",
    ]);
    let result = sort_words(&words, &options);
    assert!(result.is_ok());
    if let Ok(r) = result {
        // at primary strength the comparison stops before the case pass,
        // so the case variants keep their input order among the plain
        // alphas, while the length-marked forms differ at the primary
        // level already and follow them
        assert_eq!(
            r,
            owned(&[
                "α",
                "ἀ",
                "ἄ",
                "Ά",
                "Α",
                "ά",
                "\u{03B1}\u{0304}",
                "\u{1FB1}\u{0313}\u{0301}\u{0345}",
                "ἄγγελος",
                "Ἀθήνα",
                "ἀρετή"
            ])
        );
    }
}

#[test]
fn test_secondary() {
    let mut options = Config::default();
    options.strength = Strength::Secondary;
    options.case_level = CaseLevel::On;

    let words = owned(&[
        "α",
        "\u{03B1}\u{0304}",
        "ἀ",
        "ἄ",
        "Ά",
        "ἄγγελος",
        "\u{1FB1}\u{0313}\u{0301}\u{0345}",
        "Ἀθήνα",
        "Α",
        "ἀρετή",
        "ά",
    ]);
    let result = sort_words(&words, &options);
    assert!(result.is_ok());
    if let Ok(r) = result {
        assert_eq!(
            r,
            owned(&[
                "α",
                "Α",
                "ἀ",
                "ἄ",
                "ά",
                "Ά",
                "\u{03B1}\u{0304}",
                "\u{1FB1}\u{0313}\u{0301}\u{0345}",
                "ἄγγελος",
                "Ἀθήνα",
                "ἀρετή"
            ])
        );
    }
}

#[test]
fn test_teriary() {
    let mut options = Config::default();
    options.strength = Strength::Tertiary;
    options.case_level = CaseLevel::On;

    let words = owned(&[
        "α",
        "\u{03B1}\u{0304}",
        "ἀ",
        "ἄ",
        "Ά",
        "ἄγγελος",
        "\u{1FB1}\u{0313}\u{0301}\u{0345}",
        "Ἀθήνα",
        "Α",
        "ἀρετή",
        "ά",
    ]);
    let result = sort_words(&words, &options);
    assert!(result.is_ok());
    if let Ok(r) = result {
        assert_eq!(
            r,
            owned(&[
                "α",
                "Α",
                "ἀ",
                "ἄ",
                "ά",
                "Ά",
                "\u{03B1}\u{0304}",
                "\u{1FB1}\u{0313}\u{0301}\u{0345}",
                "ἄγγελος",
                "Ἀθήνα",
                "ἀρετή"
            ])
        );
    }
}
