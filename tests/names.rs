use soundalike::names::{
    get_framework_pronounce, get_pronounce, get_pronounce_rec, get_suffix, guess_pronounce,
    special_pronounce, special_word, split_into_words,
};

fn s(x: &str) -> String {
    x.to_string()
}

fn trie() -> radix_trie::Trie<String, String> {
    let mut t = radix_trie::Trie::new();
    t.insert(s("REACT"), s("R IY0 AE1 K T"));
    t.insert(s("NEXT"), s("N EH1 K S T"));
    t.insert(s("STYLE"), s("S T AY1 L"));
    t.insert(s("TINY"), s("T AY1 N IY0"));
    t.insert(s("HTTP"), s("EY1 CH T IY1 T IY1 P IY1"));
    t
}

#[test]
fn special_words_respell() {
    assert_eq!(special_word("Qwik"), Some(s("quick")));
    assert_eq!(special_word("$mol"), Some(s("mole")));
    assert_eq!(special_word("qwik"), None);
}

#[test]
fn special_pronunciations() {
    assert_eq!(special_pronounce("VITE"), Some(s("V IY T")));
    assert_eq!(special_pronounce("TAILWIND"), Some(s("T EY L W IH N D")));
    assert_eq!(special_pronounce("vite"), None);
}

#[test]
fn letters_are_guessed() {
    assert_eq!(guess_pronounce("VUE"), "V UW IY");
    assert_eq!(guess_pronounce("AX"), "AE K S");
    assert_eq!(guess_pronounce("A1B"), "AE  B");
    assert_eq!(guess_pronounce(""), "");
}

#[test]
fn suffixes_in_order() {
    assert_eq!(get_suffix("STYLIFY"), Some((s("STYL"), s("IH F AY"))));
    assert_eq!(get_suffix("TECHSTACK"), Some((s("TECH"), s("S T AE K"))));
    assert_eq!(get_suffix("STACK"), Some((s(""), s("S T AE K"))));
    assert_eq!(get_suffix("REACT"), None);
}

#[test]
fn pronounce_prefers_special_then_dictionary() {
    let t = trie();
    assert_eq!(get_pronounce("NUXT", &t), "N AH K S T");
    assert_eq!(get_pronounce("REACT", &t), "R IY0 AE1 K T");
}

#[test]
fn pronounce_suffix_once() {
    let t = trie();
    // "NEXTKIT": the stem is in the dictionary
    assert_eq!(get_pronounce("NEXTKIT", &t), "N EH1 K S T K IH T");
    // without the suffix rule the letters are guessed
    assert_eq!(get_pronounce_rec("NEXTKIT", &t, false), "N IY K S T K AY T");
    // the stem is not split again: "KITKIT" guesses "KIT"
    assert_eq!(get_pronounce("KITKIT", &t), "K AY T K IH T");
}

#[test]
fn names_split_into_words() {
    assert_eq!(split_into_words("next.js"), vec![s("next"), s("js")]);
    assert_eq!(split_into_words("SvelteKit"), vec![s("Svelte"), s("Kit")]);
    assert_eq!(split_into_words("tinyhttp"), vec![s("tiny"), s("http")]);
    assert_eq!(split_into_words("Vue"), vec![s("Vue")]);
    assert_eq!(split_into_words("RedwoodJS app"), vec![s("Redwood"), s("J"), s("S"), s("app")]);
    assert_eq!(split_into_words("--a__b"), vec![s("a"), s("b")]);
    assert!(split_into_words("").is_empty());
}

#[test]
fn framework_pronunciation_joins_words() {
    let t = trie();
    assert_eq!(get_framework_pronounce("Next.js", &t), "N EH1 K S T JH S");
    assert_eq!(
        get_framework_pronounce("tinyhttp", &t),
        "T AY1 N IY0 EY1 CH T IY1 T IY1 P IY1"
    );
    // respelled "style ify": the bare suffix leaves an empty stem
    assert_eq!(get_framework_pronounce("Stylify", &t), "S T AY1 L  IH F AY");
}
