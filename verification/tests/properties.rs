use greek_collate::config::CaseLevel;
use greek_collate::config::CollateError;
use greek_collate::config::Config;
use greek_collate::config::Rank;
use greek_collate::config::Strength;
use greek_collate::compare::compare_strs;
use greek_collate::normalize::normalize;
use greek_collate::sort::sort_words;
use greek_collate::table::WeightTable;

fn cfg(strength: Strength, case_level: CaseLevel, numeric: bool) -> Config {
    Config { strength, case_level, numeric }
}

fn owned(words: &[&str]) -> Vec<String> {
    words.iter().map(|w| w.to_string()).collect()
}

#[test]
fn case_level_toggle() {
    // With strength Secondary and the case level on, case differences show;
    // with the case level off at the same strength they do not.
    let on = cfg(Strength::Secondary, CaseLevel::On, false);
    let off = cfg(Strength::Secondary, CaseLevel::Off, false);
    assert_eq!(compare_strs("α", "Α", &on), Rank::Less);
    assert_ne!(compare_strs("α", "Α", &on), Rank::Equal);
    assert_eq!(compare_strs("α", "Α", &off), Rank::Equal);
}

#[test]
fn numeric_ordering() {
    let num = cfg(Strength::Tertiary, CaseLevel::Off, true);
    let plain = cfg(Strength::Tertiary, CaseLevel::Off, false);
    // numeric: by integer value, and numbers before letters
    assert_eq!(compare_strs("α2", "α10", &num), Rank::Less);
    assert_eq!(compare_strs("α10", "αβ", &num), Rank::Less);
    assert_eq!(compare_strs("α10", "αλ", &num), Rank::Less);
    assert_eq!(compare_strs("α10", "αω", &num), Rank::Less);
    // lexicographic digit by digit without numeric collation
    assert_eq!(compare_strs("α10", "α2", &plain), Rank::Less);
}

#[test]
fn numeric_leading_zeros() {
    // Equal integer value: the original digit length decides, at the
    // tertiary level only.
    let ter = cfg(Strength::Tertiary, CaseLevel::Off, true);
    let sec = cfg(Strength::Secondary, CaseLevel::Off, true);
    assert_eq!(compare_strs("α01", "α1", &ter), Rank::Greater);
    assert_eq!(compare_strs("α01", "α1", &sec), Rank::Equal);
    assert_eq!(compare_strs("α0", "α1", &ter), Rank::Less);
}

#[test]
fn primary_equalities() {
    // At primary strength only the base letter and its length count:
    // accents and case are invisible, whatever the case toggle says,
    // because the comparison stops before the case pass.
    let prim = cfg(Strength::Primary, CaseLevel::Off, false);
    let prim_on = cfg(Strength::Primary, CaseLevel::On, false);
    assert_eq!(compare_strs("α", "Α", &prim), Rank::Equal);
    assert_eq!(compare_strs("α", "ά", &prim), Rank::Equal);
    assert_eq!(compare_strs("α", "Ά", &prim), Rank::Equal);
    assert_eq!(compare_strs("ά", "Ά", &prim), Rank::Equal);
    assert_eq!(compare_strs("α", "Α", &prim_on), Rank::Equal);
    assert_eq!(compare_strs("ά", "Ά", &prim_on), Rank::Equal);
    // but a different base letter is a primary difference
    assert_eq!(compare_strs("α", "β", &prim), Rank::Less);
    assert_eq!(compare_strs("α", "αβ", &prim), Rank::Less);
    // and so is a length mark: the long alpha differs at primary, while
    // still ordering before any following letter decides
    assert_ne!(compare_strs("α", "\u{03B1}\u{0304}", &prim), Rank::Equal);
    assert_eq!(compare_strs("α", "\u{03B1}\u{0304}", &prim_on), Rank::Less);
    let words = owned(&["\u{03B1}\u{0304}", "α", "αβ"]);
    assert_eq!(
        sort_words(&words, &prim),
        Ok(owned(&["α", "\u{03B1}\u{0304}", "αβ"]))
    );
}

#[test]
fn precomposed_long_vowel() {
    // The precomposed long alpha decomposes to alpha plus macron and
    // compares equal to the decomposed spelling at full strength.
    let quat = cfg(Strength::Quaternary, CaseLevel::On, false);
    assert_eq!(
        compare_strs("\u{1FB1}", "\u{03B1}\u{0304}", &quat),
        Rank::Equal
    );
    let input: Vec<char> = vec!['\u{1FB1}'];
    let expected: Vec<char> = vec!['\u{03B1}', '\u{0304}'];
    assert_eq!(normalize(&input), expected);
}

#[test]
fn unassigned_scalars_unchanged() {
    // Scalar values Unicode leaves unassigned get no invented
    // decomposition and no letter weight: they pass through normalization
    // unchanged and order after real letters through the fallback.
    let options = Config::default();
    let input: Vec<char> = vec!['\u{1F58}', '\u{03A2}'];
    assert_eq!(normalize(&input), input);
    let words = owned(&["\u{03A2}", "Σ"]);
    assert_eq!(sort_words(&words, &options), Ok(owned(&["Σ", "\u{03A2}"])));
}

#[test]
fn quaternary_space() {
    // The space counts only at the quaternary level: invisible through
    // tertiary strength, and ordering the spaced token after the plain one
    // at quaternary strength.
    let ter = cfg(Strength::Tertiary, CaseLevel::Off, false);
    let quat = cfg(Strength::Quaternary, CaseLevel::Off, false);
    assert_eq!(compare_strs("ἃἅ", "ἃ ἅ", &ter), Rank::Equal);
    assert_eq!(compare_strs("ἃἅ", "ἃ ἅ", &quat), Rank::Less);

    let words = owned(&["ἃ ἅ", "ἃἅ", "ἃ"]);
    let result = sort_words(&words, &quat);
    assert_eq!(result, Ok(owned(&["ἃ", "ἃἅ", "ἃ ἅ"])));
}

#[test]
fn empty_input() {
    let options = Config::default();
    let words: Vec<String> = Vec::new();
    let result = sort_words(&words, &options);
    assert_eq!(result, Ok(Vec::new()));
}

#[test]
fn normalization_decomposes() {
    // A precomposed letter splits into base letter plus ordered marks.
    let input: Vec<char> = "ἄ".chars().collect();
    let expected: Vec<char> = vec!['\u{03B1}', '\u{0313}', '\u{0301}'];
    assert_eq!(normalize(&input), expected);
}

#[test]
fn normalization_reorders_marks() {
    // The iota subscript (class 240) moves after an accent (class 230).
    let input: Vec<char> = vec!['\u{03B1}', '\u{0345}', '\u{0301}'];
    let expected: Vec<char> = vec!['\u{03B1}', '\u{0301}', '\u{0345}'];
    assert_eq!(normalize(&input), expected);
}

#[test]
fn normalization_greek_extended() {
    // breathing-and-accent rows, the varia/oxia pairs, iota-subscript
    // forms and the rho forms all decompose to base letter plus marks
    let cases: [(&str, &[char]); 5] = [
        ("ᾧ", &['\u{03C9}', '\u{0314}', '\u{0342}', '\u{0345}']),
        ("ΐ", &['\u{03B9}', '\u{0308}', '\u{0301}']),
        ("ῥ", &['\u{03C1}', '\u{0314}']),
        ("ὲ", &['\u{03B5}', '\u{0300}']),
        ("ᾌ", &['\u{0391}', '\u{0313}', '\u{0301}', '\u{0345}']),
    ];
    for (word, expected) in cases.iter() {
        let chars: Vec<char> = word.chars().collect();
        assert_eq!(normalize(&chars), expected.to_vec());
    }
}

#[test]
fn normalization_idempotent() {
    let inputs = ["ἄνθρωπος", "\u{1FB1}\u{0313}\u{0301}\u{0345}", "ᾍδης", "α2β 10"];
    for word in inputs.iter() {
        let chars: Vec<char> = word.chars().collect();
        let once = normalize(&chars);
        let twice = normalize(&once);
        assert_eq!(once, twice);
    }
}

#[test]
fn precomposed_equals_decomposed() {
    // The same grapheme spelled precomposed and decomposed compares equal
    // at full strength.
    let quat = cfg(Strength::Quaternary, CaseLevel::On, false);
    assert_eq!(compare_strs("ἄ", "\u{03B1}\u{0313}\u{0301}", &quat), Rank::Equal);
    assert_eq!(compare_strs("ᾴ", "\u{03B1}\u{0345}\u{0301}", &quat), Rank::Equal);
}

#[test]
fn final_sigma_tertiary() {
    // Final and medial sigma share a primary weight and differ at the
    // tertiary level.
    let prim = cfg(Strength::Primary, CaseLevel::Off, false);
    let ter = cfg(Strength::Tertiary, CaseLevel::Off, false);
    assert_eq!(compare_strs("σ", "ς", &prim), Rank::Equal);
    assert_eq!(compare_strs("σ", "ς", &ter), Rank::Less);
}

#[test]
fn unsupported_code_points_order_totally() {
    // Characters outside the repertoire fall back to code-point order and
    // sort after Greek letters.
    let options = Config::default();
    assert_eq!(compare_strs("a", "b", &options), Rank::Less);
    assert_eq!(compare_strs("α", "a", &options), Rank::Less);
    let words = owned(&["b", "a", "α"]);
    assert_eq!(sort_words(&words, &options), Ok(owned(&["α", "a", "b"])));
}

#[test]
fn stable_for_equal_keys() {
    // Words that compare equal keep their input order.
    let prim = cfg(Strength::Primary, CaseLevel::Off, false);
    let words = owned(&["ά", "Α", "α", "β"]);
    assert_eq!(sort_words(&words, &prim), Ok(owned(&["ά", "Α", "α", "β"])));
}

#[test]
fn strength_monotonicity_examples() {
    // Pairs distinguished at a lower strength stay distinguished, in the
    // same direction, at every higher one.
    let pairs = [
        ("α", "β"),
        ("ἀ", "ἁ"),
        ("σ", "ς"),
        ("α", "αβ"),
        ("α", "\u{03B1}\u{0304}"),
        ("α", "Α"),
    ];
    let strengths = [
        Strength::Primary,
        Strength::Secondary,
        Strength::Tertiary,
        Strength::Quaternary,
    ];
    for (a, b) in pairs.iter() {
        for case_level in [CaseLevel::Off, CaseLevel::On].iter() {
            let mut established: Option<Rank> = None;
            for s in strengths.iter() {
                let options = cfg(*s, *case_level, false);
                let rank = compare_strs(a, b, &options);
                if let Some(e) = established {
                    assert_eq!(rank, e);
                }
                if rank != Rank::Equal {
                    established = Some(rank);
                }
            }
        }
    }
}

#[test]
fn table_construction_succeeds() {
    assert!(WeightTable::try_new().is_ok());
    let err = CollateError::DataUnavailable;
    assert_ne!(err, CollateError::InvalidText);
}

#[test]
fn default_configuration() {
    let options = Config::default();
    assert_eq!(options.strength, Strength::Tertiary);
    assert_eq!(options.case_level, CaseLevel::Off);
    assert!(!options.numeric);
}
