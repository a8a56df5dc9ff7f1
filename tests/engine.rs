use soundalike::builder::PronounceBuilder;
use soundalike::phone::{
    consonant_distance, isqrt, silent_consonant_distance, vowel_distance, Phone, SCALE,
};
use soundalike::pronounce::Pronounce;
use soundalike::replacer::{coalesce, replace_words, FrameworkReplacer, Replacement, Replacer};

fn s(x: &str) -> String {
    x.to_string()
}

fn vowels() -> Vec<(String, u32, u32)> {
    vec![
        (s("IY"), 0, 0),
        (s("EH"), 0, 500_000),
        (s("AE"), 0, 750_000),
        (s("AA"), 300_000, 400_000),
    ]
}

fn consonants() -> Vec<(String, u32, u32)> {
    vec![
        (s("R"), 600_000, 500_000),
        (s("K"), 900_000, 0),
        (s("T"), 400_000, 0),
        (s("V"), 100_000, 1_000_000),
    ]
}

fn builder() -> PronounceBuilder {
    PronounceBuilder::new(
        vec![
            (s("RECT"), s("R IY1 EH1 K T")),
            (s("VUE"), s("V AA1")),
            (s("RAT"), s("R AE1 T")),
        ],
        vowels(),
        consonants(),
    )
}

fn react() -> Vec<(String, String, u64)> {
    vec![(s("React"), s("R IY AE K T"), 1000)]
}

fn joined(parts: &[Replacement]) -> String {
    let mut out = String::new();
    for p in parts {
        match p {
            Replacement::Replace(w) | Replacement::Keep(w) => out.push_str(w),
        }
    }
    out
}

#[test]
fn isqrt_rounds_down() {
    assert_eq!(isqrt(0), 0);
    assert_eq!(isqrt(15), 3);
    assert_eq!(isqrt(16), 4);
    assert_eq!(isqrt(2_000_000_000_000), 1_414_213);
}

#[test]
fn vowel_distance_formula() {
    // (0.5 + 0.1) * 2.0
    assert_eq!(vowel_distance(0, 300_000, 0, 400_000), 1_200_000);
    // same column: no imperfection penalty
    assert_eq!(vowel_distance(0, 0, 500_000, 750_000), 500_000);
    assert_eq!(vowel_distance(SCALE, SCALE, 0, 0), 0);
}

#[test]
fn consonant_distance_formula() {
    // (0.5 + 0.5 + 0.1) / 1.6 * 0.25
    assert_eq!(consonant_distance(0, 300_000, 0, 400_000), 171_875);
    // same row: only the column penalty
    assert_eq!(consonant_distance(0, 400_000, 0, 0), 78_125);
    assert_eq!(consonant_distance(5, 5, 7, 7), 0);
}

#[test]
fn silent_consonant_distance_formula() {
    assert_eq!(silent_consonant_distance(0), 400_000);
    assert_eq!(silent_consonant_distance(500_000), 150_000);
    assert_eq!(silent_consonant_distance(SCALE), 400_000);
}

#[test]
fn phone_distance_by_category() {
    let v = Phone::Vowel(0, 0);
    let w = Phone::Vowel(300_000, 400_000);
    let c = Phone::Consonant(0, 0);
    assert_eq!(v.distance(&w), 1_200_000);
    assert_eq!(Phone::Silent.distance(&Phone::Silent), 0);
    assert_eq!(Phone::Silent.distance(&c), 400_000);
    assert_eq!(c.distance(&Phone::Silent), 400_000);
    assert!(v.is_vowel());
    assert!(!Phone::Silent.is_vowel());
}

#[test]
fn syllables_count_vowels() {
    let p = Pronounce::new(vec![
        Phone::Consonant(1, 1),
        Phone::Vowel(2, 2),
        Phone::Vowel(3, 3),
    ]);
    assert_eq!(p.syllables(), 2);
    assert_eq!(Pronounce::empty().syllables(), 0);
}

#[test]
fn normal_form_spaces_vowels() {
    let a = Phone::Vowel(1, 1);
    let b = Phone::Vowel(2, 2);
    let k = Phone::Consonant(3, 3);
    let p = Pronounce::new(vec![a, b, k, a]);
    let n = p.to_normal();
    assert_eq!(n.syllables(), 3);
    assert_eq!(
        n.get_grouped(),
        vec![
            vec![Phone::Silent],
            vec![a],
            vec![Phone::Silent],
            vec![b],
            vec![k],
            vec![a],
            vec![Phone::Silent],
        ]
    );
}

#[test]
fn grouping_keeps_runs() {
    let k = Phone::Consonant(3, 3);
    let a = Phone::Vowel(1, 1);
    let p = Pronounce::new(vec![k, k, a, k]);
    assert_eq!(p.get_grouped(), vec![vec![k, k], vec![a], vec![k]]);
    assert_eq!(Pronounce::empty().get_grouped(), Vec::<Vec<Phone>>::new());
}

#[test]
fn distance_reflexive() {
    let b = builder();
    let p = b.pronounce_from_arpabet("R IY AE K T").unwrap();
    assert_eq!(p.distance(&p), 0);
}

#[test]
fn distance_consonant_only_is_maximal() {
    let b = builder();
    let p = b.pronounce_from_arpabet("K T").unwrap();
    assert_eq!(p.distance(&p), u64::MAX);
}

#[test]
fn distance_symmetric() {
    let b = builder();
    let p = b.pronounce_from_arpabet("R IY AE K T").unwrap();
    let q = b.pronounce_from_arpabet("K EH AA V").unwrap();
    assert_eq!(p.distance(&q), q.distance(&p));
    assert!(p.distance(&q) < u64::MAX);
}

#[test]
fn distance_syllable_gate() {
    let b = builder();
    let one = b.pronounce_from_arpabet("R AE T").unwrap();
    let two = b.pronounce_from_arpabet("R IY AE K T").unwrap();
    assert_eq!(one.distance(&two), u64::MAX);
    assert_eq!(Pronounce::empty().distance(&Pronounce::empty()), u64::MAX);
}

#[test]
fn distance_exact_value() {
    let b = builder();
    let p = b.pronounce_from_arpabet("R IY AE K T").unwrap();
    let q = b.pronounce("Rect");
    // only the second vowel differs: 0.25 apart in one column, times 2.0
    assert_eq!(p.distance(&q), 500_000);
}

#[test]
fn group_length_ratio_scales_cost() {
    let k = Phone::Consonant(0, 0);
    let t = Phone::Consonant(400_000, 0);
    let a = Phone::Vowel(0, 0);
    let p = Pronounce::new(vec![k, a]);
    let q = Pronounce::new(vec![k, t, a]);
    // groups [k] vs [k, t]: two comparisons 0 and 78125, mean 39062.5, ratio 2;
    // the trailing silent placeholders match
    assert_eq!(p.distance(&q), 78_125);
}

#[test]
fn stress_marks_are_ignored() {
    let b = builder();
    let p = b.pronounce_from_arpabet("R IY1 AE0 K T").unwrap();
    let q = b.pronounce_from_arpabet("  R IY AE K T ").unwrap();
    assert_eq!(p.syllables(), 2);
    assert_eq!(p.distance(&q), 0);
}

#[test]
fn unknown_code_is_refused() {
    let b = builder();
    assert!(b.pronounce_from_arpabet("R XX T").is_none());
    assert!(Replacer::new(vec![(s("Nope"), s("N OW"), 1)], builder()).is_none());
    assert!(FrameworkReplacer::new(vec![(s("Nope"), s("N OW"), 1)], builder()).is_none());
}

#[test]
fn dictionary_lookup_is_case_blind() {
    let b = builder();
    assert_eq!(b.pronounce("rect").syllables(), 2);
    assert_eq!(b.pronounce("ReCt").syllables(), 2);
    assert_eq!(b.pronounce("missing").syllables(), 0);
}

#[test]
fn replace_words_splits_runs() {
    let parts = replace_words("a-b c", |w: &str| if w == "a" { Some(s("x")) } else { None });
    assert_eq!(parts.len(), 5);
    assert!(matches!(&parts[0], Replacement::Replace(w) if w == "x"));
    assert!(matches!(&parts[1], Replacement::Keep(w) if w == "-"));
    assert!(matches!(&parts[2], Replacement::Keep(w) if w == "b"));
    assert!(matches!(&parts[3], Replacement::Keep(w) if w == " "));
    assert!(matches!(&parts[4], Replacement::Keep(w) if w == "c"));
}

#[test]
fn replace_words_skips_non_ascii() {
    let parts = replace_words("caf\u{e9} ok", |_w: &str| Some(s("X")));
    assert_eq!(joined(&parts), "caf\u{e9} X");
}

#[test]
fn replace_scenario_match() {
    let rep = FrameworkReplacer::new(react(), builder()).unwrap();
    let out = rep.replace("I code in Rect!", 600_000, 0);
    let words: Vec<(String, bool)> = out.iter().map(|r| (r.word.clone(), r.replace)).collect();
    assert_eq!(
        words,
        vec![(s("I code in "), false), (s("React"), true), (s("!"), false)]
    );
}

#[test]
fn replace_scenario_threshold_too_low() {
    let rep = Replacer::new(react(), builder()).unwrap();
    let out = rep.replace("I code in Rect!", 400_000, 0);
    assert_eq!(joined(&out), "I code in Rect!");
    assert!(out.iter().all(|r| matches!(r, Replacement::Keep(_))));
}

#[test]
fn replace_zero_threshold_keeps_text() {
    let rep = Replacer::new(react(), builder()).unwrap();
    let text = "Rect rect, RECT!";
    let out = rep.replace(text, 0, 0);
    assert_eq!(joined(&out), text);
}

#[test]
fn replace_pass_through() {
    let rep = Replacer::new(react(), builder()).unwrap();
    let text = "  ..., \u{a1}\u{e9}\u{e9}! ";
    let out = rep.replace(text, u64::MAX, 0);
    assert_eq!(joined(&out), text);
}

#[test]
fn replace_weight_filter() {
    let words = vec![
        (s("React"), s("R IY AE K T"), 1000),
        (s("Rat"), s("R AE T"), 10),
    ];
    let rep = Replacer::new(words, builder()).unwrap();
    assert_eq!(joined(&rep.replace("rat Rect", 600_000, 0)), "Rat React");
    assert_eq!(joined(&rep.replace("rat Rect", 600_000, 11)), "rat React");
    assert_eq!(joined(&rep.replace("rat Rect", 600_000, 1001)), "rat Rect");
}

#[test]
fn replace_tie_goes_to_first_entry() {
    let words = vec![
        (s("First"), s("R AE T"), 1),
        (s("Second"), s("R AE T"), 1),
    ];
    let rep = Replacer::new(words, builder()).unwrap();
    assert_eq!(joined(&rep.replace("rat", 1, 0)), "First");
}

#[test]
fn replace_coalescing_keeps_punctuation_once() {
    let rep = FrameworkReplacer::new(react(), builder()).unwrap();
    let out = rep.replace("Rect, Rect", 600_000, 0);
    let words: Vec<(String, bool)> = out.iter().map(|r| (r.word.clone(), r.replace)).collect();
    assert_eq!(
        words,
        vec![(s("React"), true), (s(", "), false), (s("React"), true)]
    );
}

#[test]
fn replace_unicode_space_separates() {
    let rep = Replacer::new(react(), builder()).unwrap();
    let out = rep.replace("Rect\u{a0}Rect", 600_000, 0);
    assert_eq!(joined(&out), "React\u{a0}React");
}

#[test]
fn coalesce_merges_neighbours() {
    let parts = vec![
        Replacement::Keep(s("a")),
        Replacement::Keep(s(" ")),
        Replacement::Replace(s("B")),
        Replacement::Replace(s("C")),
        Replacement::Keep(s("!")),
    ];
    let out = coalesce(&parts);
    let words: Vec<(String, bool)> = out.iter().map(|r| (r.word.clone(), r.replace)).collect();
    assert_eq!(
        words,
        vec![(s("a "), false), (s("BC"), true), (s("!"), false)]
    );
    assert!(coalesce(&Vec::new()).is_empty());
}
