use vstd::prelude::*;

use vstd::string::*;

use radix_trie::Trie;

use crate::builder::{same_chars, trie_entries, trie_get, upper_word};
use crate::replacer::opt_view;
use crate::runs::{runs, lemma_runs};
use crate::text::{chars_of, punct, string_from_chars, to_upper, views};

verus! {

pub open spec fn ascii_space(c: char) -> bool {
    c == ' ' || c == '\t' || c == '\n' || c == '\u{c}' || c == '\r'
}

pub open spec fn ascii_upper(c: char) -> bool {
    'A' <= c <= 'Z'
}

/// Characters at which a project name splits into parts.
pub open spec fn name_separator(c: char) -> bool {
    ascii_space(c) || punct(c)
}

pub open spec fn name_separator_key() -> spec_fn(char) -> bool {
    |c: char| name_separator(c)
}

/// Number of ASCII upper-case letters.
pub open spec fn upper_count(s: Seq<char>) -> nat
    decreases s.len(),
{
    if s.len() == 0 {
        0
    } else {
        upper_count(s.drop_last()) + if ascii_upper(s.last()) {
            1nat
        } else {
            0nat
        }
    }
}

/// `s` cut before each upper-case letter.
pub open spec fn camel_split(s: Seq<char>) -> Seq<Seq<char>>
    decreases s.len(),
{
    if s.len() == 0 {
        seq![]
    } else {
        let c = camel_split(s.drop_last());
        let x = s.last();
        if ascii_upper(x) || c.len() == 0 {
            c.push(seq![x])
        } else {
            c.update(c.len() - 1, c.last().push(x))
        }
    }
}

/// The words of one part: cut at upper-case letters when it has more than one.
pub open spec fn part_words(p: Seq<char>) -> Seq<Seq<char>> {
    if upper_count(p) > 1 {
        camel_split(p)
    } else {
        seq![p]
    }
}

/// The words of the parts among `rs`, which alternate with separator runs.
pub open spec fn words_of_runs(rs: Seq<Seq<char>>) -> Seq<Seq<char>>
    decreases rs.len(),
{
    if rs.len() == 0 {
        seq![]
    } else if rs.last().len() > 0 && name_separator(rs.last()[0]) {
        words_of_runs(rs.drop_last())
    } else {
        words_of_runs(rs.drop_last()) + part_words(rs.last())
    }
}

/// The words of a name: split at ASCII whitespace and punctuation, and
/// camel-case parts split at their capitals.
pub open spec fn name_words(s: Seq<char>) -> Seq<Seq<char>> {
    words_of_runs(runs(s, name_separator_key()))
}

fn is_name_separator(c: char) -> (r: bool)
    ensures
        r == name_separator(c),
{
    c == ' ' || c == '\t' || c == '\n' || c == '\u{c}' || c == '\r' || crate::text::is_punct(c)
}

fn split_name_runs(s: &Vec<char>) -> (r: Vec<Vec<char>>)
    ensures
        views(r@) == runs(s@, name_separator_key()),
{
    let ghost key = name_separator_key();
    let n = s.len();
    let mut out: Vec<Vec<char>> = Vec::new();
    let mut cur: Vec<char> = Vec::new();
    let mut prev_class = false;
    let mut i: usize = 0;
    while i < n
        invariant
            n == s.len(),
            i <= n,
            key == name_separator_key(),
            i == 0 ==> out@.len() == 0,
            i > 0 ==> views(out@).push(cur@) == runs(s@.take(i as int), key),
            i > 0 ==> prev_class == key(s@[i - 1]),
        decreases n - i,
    {
        let ghost t = s@.take(i + 1);
        proof {
            assert(t.drop_last() =~= s@.take(i as int));
            if i > 0 {
                assert(t[t.len() - 2] == s@[i - 1]);
            }
        }
        let c = s[i];
        let in_c = is_name_separator(c);
        if i > 0 && prev_class == in_c {
            let ghost before = views(out@).push(cur@);
            cur.push(c);
            assert(views(out@).push(cur@) =~= before.update(
                before.len() - 1,
                before.last().push(c),
            ));
        } else {
            if i > 0 {
                out.push(cur);
            }
            cur = Vec::new();
            cur.push(c);
            assert(views(out@).push(cur@) =~= runs(t.drop_last(), key).push(seq![c]));
        }
        prev_class = in_c;
        i = i + 1;
    }
    assert(s@.take(n as int) =~= s@);
    if n > 0 {
        out.push(cur);
    }
    assert(views(out@) =~= runs(s@, key));
    out
}

fn count_upper(p: &Vec<char>) -> (r: usize)
    ensures
        r == upper_count(p@),
{
    let mut count: usize = 0;
    let mut i: usize = 0;
    while i < p.len()
        invariant
            i <= p.len(),
            count == upper_count(p@.take(i as int)),
            count <= i,
        decreases p.len() - i,
    {
        assert(p@.take(i + 1).drop_last() =~= p@.take(i as int));
        if 'A' <= p[i] && p[i] <= 'Z' {
            count = count + 1;
        }
        i = i + 1;
    }
    assert(p@.take(p.len() as int) =~= p@);
    count
}

/// Appends the words of one part to `out`.
fn push_part_words(p: &Vec<char>, out: &mut Vec<Vec<char>>)
    ensures
        views(final(out)@) == views(old(out)@) + part_words(p@),
{
    let ghost start = views(out@);
    if count_upper(p) > 1 {
        let mut words: Vec<Vec<char>> = Vec::new();
        let mut cur: Vec<char> = Vec::new();
        let mut i: usize = 0;
        while i < p.len()
            invariant
                i <= p.len(),
                i == 0 ==> words@.len() == 0 && cur@.len() == 0,
                i > 0 ==> views(words@).push(cur@) == camel_split(p@.take(i as int)),
            decreases p.len() - i,
        {
            let c = p[i];
            let ghost t = p@.take(i + 1);
            assert(t.drop_last() =~= p@.take(i as int));
            if 'A' <= c && c <= 'Z' || i == 0 {
                if i > 0 {
                    words.push(cur);
                }
                cur = Vec::new();
                cur.push(c);
                assert(views(words@).push(cur@) =~= camel_split(t.drop_last()).push(seq![c]));
            } else {
                let ghost before = views(words@).push(cur@);
                cur.push(c);
                assert(views(words@).push(cur@) =~= before.update(
                    before.len() - 1,
                    before.last().push(c),
                ));
            }
            i = i + 1;
        }
        assert(p@.take(p.len() as int) =~= p@);
        if p.len() > 0 {
            words.push(cur);
        }
        let mut j: usize = 0;
        while j < words.len()
            invariant
                j <= words.len(),
                views(out@) == start + views(words@).take(j as int),
            decreases words.len() - j,
        {
            let w = words[j].clone();
            assert(w@ == views(words@)[j as int]);
            let ghost before = views(out@);
            out.push(w);
            assert(views(out@) =~= before.push(w@));
            assert(views(words@).take(j + 1) =~= views(words@).take(j as int).push(w@));
            j = j + 1;
            assert(views(out@) =~= start + views(words@).take(j as int));
        }
        assert(views(words@).take(words.len() as int) =~= views(words@));
        assert(views(words@) =~= camel_split(p@));
    } else {
        out.push(p.clone());
        assert(views(out@) =~= start + seq![p@]);
    }
}

/// The words of a project name (see `name_words`), each non-empty.
pub fn split_name(name: &Vec<char>) -> (r: Vec<Vec<char>>)
    ensures
        views(r@) == name_words(name@),
{
    let parts = split_name_runs(name);
    let ghost rs = views(parts@);
    proof {
        lemma_runs(name@, name_separator_key());
        assert(rs.take(0) =~= Seq::<Seq<char>>::empty());
    }
    let mut out: Vec<Vec<char>> = Vec::new();
    let mut i: usize = 0;
    while i < parts.len()
        invariant
            rs == views(parts@),
            rs == runs(name@, name_separator_key()),
            i <= parts.len(),
            views(out@) == words_of_runs(rs.take(i as int)),
            forall|k: int| 0 <= k < rs.len() ==> #[trigger] rs[k].len() > 0,
        decreases parts.len() - i,
    {
        let part = &parts[i];
        assert(part@ == rs[i as int]);
        assert(rs.take(i + 1).drop_last() =~= rs.take(i as int));
        if !is_name_separator(part[0]) {
            push_part_words(part, &mut out);
        }
        i = i + 1;
    }
    assert(rs.take(parts.len() as int) =~= rs);
    out
}

/// Project names whose words are better read another way.
pub open spec fn special_words() -> Seq<(Seq<char>, Seq<char>)> {
    seq![
        ("dva"@, "DVA"@),
        ("Qwik"@, "quick"@),
        ("tinyhttp"@, "tiny http"@),
        ("Strapi"@, "strap e"@),
        ("Actionhero"@, "action hero"@),
        ("htmx"@, "HTMX"@),
        ("Stylify"@, "style ify"@),
        ("$mol"@, "mole"@),
    ]
}

/// Words whose pronunciation the dictionary lacks or gets wrong.
pub open spec fn special_pronounces() -> Seq<(Seq<char>, Seq<char>)> {
    seq![
        ("NUXT"@, "N AH K S T"@),
        ("BULMA"@, "B AH L M AH"@),
        ("KOA"@, "K OW AA"@),
        ("WINDI"@, "W IH N D IY"@),
        ("TAILWIND"@, "T EY L W IH N D"@),
        ("VITE"@, "V IY T"@),
    ]
}

/// Word endings with their pronunciation, tried in order.
pub open spec fn suffixes() -> Seq<(Seq<char>, Seq<char>)> {
    seq![
        ("IFY"@, "IH F AY"@),
        ("KIT"@, "K IH T"@),
        ("DOM"@, "D AA M"@),
        ("IZE"@, "AY Z"@),
        ("APP"@, "AE P"@),
        ("STACK"@, "S T AE K"@),
    ]
}

pub open spec fn pair_views(v: Seq<(String, String)>) -> Seq<(Seq<char>, Seq<char>)> {
    v.map_values(|e: (String, String)| (e.0@, e.1@))
}

/// The value of the first pair whose key is `key`.
pub open spec fn pair_lookup(t: Seq<(Seq<char>, Seq<char>)>, key: Seq<char>) -> Option<Seq<char>>
    decreases t.len(),
{
    if t.len() == 0 {
        None
    } else if t[0].0 == key {
        Some(t[0].1)
    } else {
        pair_lookup(t.drop_first(), key)
    }
}

pub open spec fn ends_with(s: Seq<char>, suffix: Seq<char>) -> bool {
    s.len() >= suffix.len() && s.skip(s.len() - suffix.len()) == suffix
}

/// The first suffix of the table that `s` ends with: `s` without it, and the
/// suffix's pronunciation.
pub open spec fn suffix_lookup(t: Seq<(Seq<char>, Seq<char>)>, s: Seq<char>) -> Option<
    (Seq<char>, Seq<char>),
>
    decreases t.len(),
{
    if t.len() == 0 {
        None
    } else if ends_with(s, t[0].0) {
        Some((s.take(s.len() - t[0].0.len()), t[0].1))
    } else {
        suffix_lookup(t.drop_first(), s)
    }
}

fn table_special_words() -> (r: Vec<(String, String)>)
    ensures
        pair_views(r@) == special_words(),
{
    let mut t: Vec<(String, String)> = Vec::new();
    t.push((String::from_str("dva"), String::from_str("DVA")));
    t.push((String::from_str("Qwik"), String::from_str("quick")));
    t.push((String::from_str("tinyhttp"), String::from_str("tiny http")));
    t.push((String::from_str("Strapi"), String::from_str("strap e")));
    t.push((String::from_str("Actionhero"), String::from_str("action hero")));
    t.push((String::from_str("htmx"), String::from_str("HTMX")));
    t.push((String::from_str("Stylify"), String::from_str("style ify")));
    t.push((String::from_str("$mol"), String::from_str("mole")));
    assert(pair_views(t@) =~= special_words());
    t
}

fn table_special_pronounces() -> (r: Vec<(String, String)>)
    ensures
        pair_views(r@) == special_pronounces(),
{
    let mut t: Vec<(String, String)> = Vec::new();
    t.push((String::from_str("NUXT"), String::from_str("N AH K S T")));
    t.push((String::from_str("BULMA"), String::from_str("B AH L M AH")));
    t.push((String::from_str("KOA"), String::from_str("K OW AA")));
    t.push((String::from_str("WINDI"), String::from_str("W IH N D IY")));
    t.push((String::from_str("TAILWIND"), String::from_str("T EY L W IH N D")));
    t.push((String::from_str("VITE"), String::from_str("V IY T")));
    assert(pair_views(t@) =~= special_pronounces());
    t
}

fn table_suffixes() -> (r: Vec<(String, String)>)
    ensures
        pair_views(r@) == suffixes(),
{
    let mut t: Vec<(String, String)> = Vec::new();
    t.push((String::from_str("IFY"), String::from_str("IH F AY")));
    t.push((String::from_str("KIT"), String::from_str("K IH T")));
    t.push((String::from_str("DOM"), String::from_str("D AA M")));
    t.push((String::from_str("IZE"), String::from_str("AY Z")));
    t.push((String::from_str("APP"), String::from_str("AE P")));
    t.push((String::from_str("STACK"), String::from_str("S T AE K")));
    assert(pair_views(t@) =~= suffixes());
    t
}

fn lookup_pair(t: &Vec<(String, String)>, key: &Vec<char>) -> (r: Option<String>)
    ensures
        opt_view(r) == pair_lookup(pair_views(t@), key@),
{
    let ghost tv = pair_views(t@);
    let mut i: usize = 0;
    assert(tv.skip(0) =~= tv);
    while i < t.len()
        invariant
            i <= t.len(),
            tv == pair_views(t@),
            pair_lookup(tv, key@) == pair_lookup(tv.skip(i as int), key@),
        decreases t.len() - i,
    {
        assert(tv.skip(i as int).drop_first() =~= tv.skip(i + 1));
        assert(tv[i as int] == (t@[i as int].0@, t@[i as int].1@));
        if same_chars(&t[i].0, key) {
            return Some(t[i].1.clone());
        }
        i = i + 1;
    }
    None
}

/// The respelling of a project name that reads badly as written.
pub fn special_word(name: &str) -> (r: Option<String>)
    ensures
        opt_view(r) == pair_lookup(special_words(), name@),
{
    lookup_pair(&table_special_words(), &chars_of(name))
}

/// The pronunciation of a word that the dictionary lacks or gets wrong.
pub fn special_pronounce(name: &str) -> (r: Option<String>)
    ensures
        opt_view(r) == pair_lookup(special_pronounces(), name@),
{
    lookup_pair(&table_special_pronounces(), &chars_of(name))
}

fn has_suffix(s: &Vec<char>, suffix: &String) -> (r: bool)
    ensures
        r == ends_with(s@, suffix@),
{
    let suf = chars_of(suffix.as_str());
    if suf.len() > s.len() {
        return false;
    }
    let start = s.len() - suf.len();
    let mut i: usize = 0;
    while i < suf.len()
        invariant
            suf@ == suffix@,
            suf.len() <= s.len(),
            start == s.len() - suf.len(),
            i <= suf.len(),
            forall|k: int| 0 <= k < i ==> s@[start + k] == suf@[k],
        decreases suf.len() - i,
    {
        if s[start + i] != suf[i] {
            assert(s@.skip(start as int)[i as int] != suffix@[i as int]);
            return false;
        }
        i = i + 1;
    }
    assert(s@.skip(start as int) =~= suffix@);
    true
}

/// The first listed suffix that `s` ends with: the rest of `s`, and the
/// suffix's pronunciation.
pub fn get_suffix(s: &str) -> (r: Option<(String, String)>)
    ensures
        r matches Some((rest, pron)) ==> suffix_lookup(suffixes(), s@) == Some((rest@, pron@)),
        r is None ==> suffix_lookup(suffixes(), s@) is None,
{
    let t = table_suffixes();
    let chars = chars_of(s);
    let ghost tv = pair_views(t@);
    let mut i: usize = 0;
    assert(tv.skip(0) =~= tv);
    while i < t.len()
        invariant
            i <= t.len(),
            tv == pair_views(t@),
            tv == suffixes(),
            chars@ == s@,
            suffix_lookup(tv, s@) == suffix_lookup(tv.skip(i as int), s@),
        decreases t.len() - i,
    {
        assert(tv.skip(i as int).drop_first() =~= tv.skip(i + 1));
        assert(tv[i as int] == (t@[i as int].0@, t@[i as int].1@));
        if has_suffix(&chars, &t[i].0) {
            let n = chars.len() - t[i].0.as_str().unicode_len();
            let mut stem: Vec<char> = Vec::new();
            let mut k: usize = 0;
            while k < n
                invariant
                    k <= n <= chars.len(),
                    stem@ == chars@.take(k as int),
                decreases n - k,
            {
                stem.push(chars[k]);
                k = k + 1;
                assert(stem@ =~= chars@.take(k as int));
            }
            return Some((string_from_chars(&stem), t[i].1.clone()));
        }
        i = i + 1;
    }
    None
}

/// A guessed code for one letter; none for other characters.
pub open spec fn letter_code(c: char) -> Seq<char> {
    if c == 'A' { "AE"@ } else if c == 'E' { "IY"@ } else if c == 'I' { "AY"@ } else if c == 'O' {
        "OW"@
    } else if c == 'U' { "UW"@ } else if c == 'B' { "B"@ } else if c == 'C' { "K"@ } else if c
        == 'D' { "D"@ } else if c == 'F' { "F"@ } else if c == 'G' { "G"@ } else if c == 'H' {
        "HH"@
    } else if c == 'J' { "JH"@ } else if c == 'K' { "K"@ } else if c == 'L' { "L"@ } else if c
        == 'M' { "M"@ } else if c == 'N' { "N"@ } else if c == 'P' { "P"@ } else if c == 'Q' {
        "K"@
    } else if c == 'R' { "R"@ } else if c == 'S' { "S"@ } else if c == 'T' { "T"@ } else if c
        == 'V' { "V"@ } else if c == 'W' { "W"@ } else if c == 'X' { "K S"@ } else if c == 'Y' {
        "Y"@
    } else if c == 'Z' { "Z"@ } else { Seq::empty() }
}

fn letter_code_exec(c: char) -> (r: String)
    ensures
        r@ == letter_code(c),
{
    let code = if c == 'A' { "AE" } else if c == 'E' { "IY" } else if c == 'I' { "AY" } else if c
        == 'O' { "OW" } else if c == 'U' { "UW" } else if c == 'B' { "B" } else if c == 'C' {
        "K"
    } else if c == 'D' { "D" } else if c == 'F' { "F" } else if c == 'G' { "G" } else if c
        == 'H' { "HH" } else if c == 'J' { "JH" } else if c == 'K' { "K" } else if c == 'L' {
        "L"
    } else if c == 'M' { "M" } else if c == 'N' { "N" } else if c == 'P' { "P" } else if c
        == 'Q' { "K" } else if c == 'R' { "R" } else if c == 'S' { "S" } else if c == 'T' {
        "T"
    } else if c == 'V' { "V" } else if c == 'W' { "W" } else if c == 'X' { "K S" } else if c
        == 'Y' { "Y" } else if c == 'Z' { "Z" } else { "" };
    proof {
        reveal_strlit("");
    }
    String::from_str(code)
}

/// Pieces joined with single spaces.
pub open spec fn join_words(ps: Seq<Seq<char>>) -> Seq<char>
    decreases ps.len(),
{
    if ps.len() == 0 {
        seq![]
    } else if ps.len() == 1 {
        ps[0]
    } else {
        join_words(ps.drop_last()) + seq![' '] + ps.last()
    }
}

/// A pronunciation guessed letter by letter, for an upper-case word.
pub open spec fn guess(word: Seq<char>) -> Seq<char> {
    join_words(word.map_values(|c: char| letter_code(c)))
}

/// Guesses a pronunciation from the letters of an upper-case word.
pub fn guess_pronounce(word: &str) -> (r: String)
    ensures
        r@ == guess(word@),
{
    let chars = chars_of(word);
    let ghost codes = word@.map_values(|c: char| letter_code(c));
    let mut out = String::new();
    let mut i: usize = 0;
    while i < chars.len()
        invariant
            i <= chars.len(),
            chars@ == word@,
            codes == word@.map_values(|c: char| letter_code(c)),
            out@ == join_words(codes.take(i as int)),
        decreases chars.len() - i,
    {
        let code = letter_code_exec(chars[i]);
        assert(codes.take(i + 1).drop_last() =~= codes.take(i as int));
        if i > 0 {
            out.append(" ");
            proof {
                reveal_strlit(" ");
            }
        } else {
            assert(codes.take(1) =~= seq![codes[0]]);
        }
        out.append(code.as_str());
        i = i + 1;
    }
    assert(codes.take(chars.len() as int) =~= codes);
    out
}

/// The pronunciation of an upper-case word: a special case, else the
/// dictionary's, else (when `suffix`) that of its stem followed by a known
/// suffix's, else a guess from its letters.
pub open spec fn pronounce_name(word: Seq<char>, dict: Map<Seq<char>, Seq<char>>, suffix: bool) -> Seq<
    char,
>
    decreases (if suffix {
        1int
    } else {
        0int
    }),
{
    match pair_lookup(special_pronounces(), word) {
        Some(p) => p,
        None => if dict.contains_key(word) {
            dict[word]
        } else if suffix && suffix_lookup(suffixes(), word) is Some {
            let (stem, p) = suffix_lookup(suffixes(), word)->0;
            pronounce_name(stem, dict, false) + seq![' '] + p
        } else {
            guess(word)
        },
    }
}

/// See `pronounce_name`.
pub fn get_pronounce_rec(word: &str, trie: &Trie<String, String>, suffix: bool) -> (r: String)
    ensures
        r@ == pronounce_name(word@, trie_entries(*trie), suffix),
    decreases (if suffix {
        1int
    } else {
        0int
    }),
{
    if let Some(p) = special_pronounce(word) {
        return p;
    }
    let key = String::from_str(word);
    if let Some(p) = trie_get(trie, &key) {
        return p;
    }
    if suffix {
        if let Some((stem, p)) = get_suffix(word) {
            let mut out = get_pronounce_rec(stem.as_str(), trie, false);
            out.append(" ");
            proof {
                reveal_strlit(" ");
            }
            out.append(p.as_str());
            return out;
        }
    }
    guess_pronounce(word)
}

pub fn get_pronounce(word: &str, trie: &Trie<String, String>) -> (r: String)
    ensures
        r@ == pronounce_name(word@, trie_entries(*trie), true),
{
    get_pronounce_rec(word, trie, true)
}

/// A name as written for splitting: its respelling if it has one.
pub open spec fn respelled(name: Seq<char>) -> Seq<char> {
    match pair_lookup(special_words(), name) {
        Some(w) => w,
        None => name,
    }
}

/// The words of a project name, after its respelling.
pub fn split_into_words(name: &str) -> (r: Vec<String>)
    ensures
        r@.len() == name_words(respelled(name@)).len(),
        forall|k: int| 0 <= k < r@.len() ==> #[trigger] r@[k]@ == name_words(respelled(name@))[k],
{
    let base = match special_word(name) {
        Some(w) => chars_of(w.as_str()),
        None => chars_of(name),
    };
    let words = split_name(&base);
    let mut out: Vec<String> = Vec::new();
    let mut i: usize = 0;
    while i < words.len()
        invariant
            i <= words.len(),
            views(words@) == name_words(respelled(name@)),
            out@.len() == i,
            forall|k: int| 0 <= k < i ==> #[trigger] out@[k]@ == views(words@)[k],
        decreases words.len() - i,
    {
        out.push(string_from_chars(&words[i]));
        i = i + 1;
    }
    out
}

/// The pronunciation of a project name: its words upper-cased and pronounced,
/// joined with spaces.
pub open spec fn name_pronunciation(name: Seq<char>, dict: Map<Seq<char>, Seq<char>>) -> Seq<char> {
    join_words(
        name_words(respelled(name)).map_values(
            |w: Seq<char>| pronounce_name(upper_word(w), dict, true),
        ),
    )
}

pub fn get_framework_pronounce(name: &str, trie: &Trie<String, String>) -> (r: String)
    ensures
        r@ == name_pronunciation(name@, trie_entries(*trie)),
{
    let words = split_into_words(name);
    let ghost ws = name_words(respelled(name@));
    let ghost ps = ws.map_values(
        |w: Seq<char>| pronounce_name(upper_word(w), trie_entries(*trie), true),
    );
    let mut out = String::new();
    let mut i: usize = 0;
    while i < words.len()
        invariant
            i <= words.len(),
            words@.len() == ws.len(),
            forall|k: int| 0 <= k < words@.len() ==> #[trigger] words@[k]@ == ws[k],
            ws == name_words(respelled(name@)),
            ps == ws.map_values(
                |w: Seq<char>| pronounce_name(upper_word(w), trie_entries(*trie), true),
            ),
            out@ == join_words(ps.take(i as int)),
        decreases words.len() - i,
    {
        let upper = to_upper(words[i].as_str());
        let p = get_pronounce(upper.as_str(), trie);
        assert(words@[i as int]@ == ws[i as int]);
        assert(p@ == ps[i as int]);
        assert(ps.take(i + 1).drop_last() =~= ps.take(i as int));
        if i > 0 {
            out.append(" ");
            proof {
                reveal_strlit(" ");
            }
        } else {
            assert(ps.take(1) =~= seq![ps[0]]);
        }
        out.append(p.as_str());
        i = i + 1;
    }
    assert(ps.take(words.len() as int) =~= ps);
    out
}

} // verus!
