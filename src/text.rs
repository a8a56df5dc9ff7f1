use vstd::prelude::*;
use vstd::string::*;

use crate::runs::{runs, lemma_runs};

verus! {

/// ASCII punctuation: `!` to `/`, `:` to `@`, `[` to `` ` ``, `{` to `~`.
pub open spec fn punct(c: char) -> bool {
    ('!' <= c <= '/') || (':' <= c <= '@') || ('[' <= c <= '`') || ('{' <= c <= '~')
}

/// Characters with the Unicode `White_Space` property.
pub open spec fn space(c: char) -> bool {
    ('\u{9}' <= c <= '\u{d}') || c == ' ' || c == '\u{85}' || c == '\u{a0}' || c == '\u{1680}'
        || ('\u{2000}' <= c <= '\u{200a}') || c == '\u{2028}' || c == '\u{2029}' || c
        == '\u{202f}' || c == '\u{205f}' || c == '\u{3000}'
}

pub open spec fn alpha(c: char) -> bool {
    ('a' <= c <= 'z') || ('A' <= c <= 'Z')
}

pub open spec fn upper(c: char) -> char {
    if 'a' <= c <= 'z' {
        ((c as u32) - 32) as char
    } else {
        c
    }
}

/// Separates words in free text.
pub open spec fn separator(c: char) -> bool {
    punct(c) || space(c)
}

pub open spec fn space_key() -> spec_fn(char) -> bool {
    |c: char| space(c)
}

pub open spec fn separator_key() -> spec_fn(char) -> bool {
    |c: char| separator(c)
}

pub open spec fn newline_key() -> spec_fn(char) -> bool {
    |c: char| c == '\n' || c == '\r'
}

/// Which characters a split separates on.
pub enum Class {
    Space,
    Separator,
    Newline,
}

pub open spec fn class_key(class: Class) -> spec_fn(char) -> bool {
    match class {
        Class::Space => space_key(),
        Class::Separator => separator_key(),
        Class::Newline => newline_key(),
    }
}

fn in_class(class: &Class, c: char) -> (r: bool)
    ensures
        r == class_key(*class)(c),
{
    match class {
        Class::Space => is_space(c),
        Class::Separator => is_punct(c) || is_space(c),
        Class::Newline => c == '\n' || c == '\r',
    }
}

pub fn is_punct(c: char) -> (r: bool)
    ensures
        r == punct(c),
{
    ('!' <= c && c <= '/') || (':' <= c && c <= '@') || ('[' <= c && c <= '`') || ('{' <= c && c
        <= '~')
}

pub fn is_space(c: char) -> (r: bool)
    ensures
        r == space(c),
{
    ('\u{9}' <= c && c <= '\u{d}') || c == ' ' || c == '\u{85}' || c == '\u{a0}' || c
        == '\u{1680}' || ('\u{2000}' <= c && c <= '\u{200a}') || c == '\u{2028}' || c
        == '\u{2029}' || c == '\u{202f}' || c == '\u{205f}' || c == '\u{3000}'
}

pub fn is_alpha(c: char) -> (r: bool)
    ensures
        r == alpha(c),
{
    ('a' <= c && c <= 'z') || ('A' <= c && c <= 'Z')
}

/// Relies on `Iterator::collect` into a `String`: the characters in order.
#[verifier::external_body]
pub(crate) fn string_from_chars(v: &Vec<char>) -> (r: String)
    ensures
        r@ == v@,
{
    v.iter().collect()
}

pub fn chars_of(s: &str) -> (r: Vec<char>)
    ensures
        r@ == s@,
{
    let n = s.unicode_len();
    let mut out: Vec<char> = Vec::new();
    let mut i: usize = 0;
    while i < n
        invariant
            n == s@.len(),
            i <= n,
            out@ == s@.take(i as int),
        decreases n - i,
    {
        out.push(s.get_char(i));
        i = i + 1;
        assert(out@ =~= s@.take(i as int));
    }
    assert(s@.take(n as int) =~= s@);
    out
}

/// The word with ASCII letters made upper case.
pub fn to_upper(s: &str) -> (r: String)
    ensures
        r@ == s@.map_values(|c: char| upper(c)),
{
    let n = s.unicode_len();
    let mut out: Vec<char> = Vec::new();
    let mut i: usize = 0;
    while i < n
        invariant
            n == s@.len(),
            i <= n,
            out@ == s@.take(i as int).map_values(|c: char| upper(c)),
        decreases n - i,
    {
        let c = s.get_char(i);
        let u = if 'a' <= c && c <= 'z' {
            ((c as u32) - 32) as u8 as char
        } else {
            c
        };
        out.push(u);
        i = i + 1;
        assert(out@ =~= s@.take(i as int).map_values(|c: char| upper(c)));
    }
    assert(s@.take(n as int) =~= s@);
    string_from_chars(&out)
}

pub open spec fn views(v: Seq<Vec<char>>) -> Seq<Seq<char>> {
    v.map_values(|x: Vec<char>| x@)
}

/// Splits `s` into maximal runs of characters of the class and of the others.
pub fn split_runs(s: &Vec<char>, class: Class) -> (r: Vec<Vec<char>>)
    ensures
        views(r@) == runs(s@, class_key(class)),
{
    let ghost key = class_key(class);
    let n = s.len();
    let mut out: Vec<Vec<char>> = Vec::new();
    let mut cur: Vec<char> = Vec::new();
    let mut prev_class = false;
    let mut i: usize = 0;
    while i < n
        invariant
            n == s.len(),
            i <= n,
            key == class_key(class),
            i == 0 ==> out@.len() == 0,
            i > 0 ==> views(out@).push(cur@) == runs(s@.take(i as int), key),
            i > 0 ==> prev_class == key(s@[i - 1]),
        decreases n - i,
    {
        let ghost t = s@.take(i + 1);
        proof {
            assert(t.drop_last() =~= s@.take(i as int));
            if i > 0 {
                assert(t[t.len() - 2] == s@[i - 1]);
            }
        }
        let c = s[i];
        let in_c = in_class(&class, c);
        if i > 0 && prev_class == in_c {
            let ghost before = views(out@).push(cur@);
            cur.push(c);
            assert(views(out@).push(cur@) =~= before.update(
                before.len() - 1,
                before.last().push(c),
            ));
        } else {
            if i > 0 {
                out.push(cur);
            }
            cur = Vec::new();
            cur.push(c);
            assert(views(out@).push(cur@) =~= runs(t.drop_last(), key).push(seq![c]));
        }
        prev_class = in_c;
        i = i + 1;
    }
    assert(s@.take(n as int) =~= s@);
    if n > 0 {
        out.push(cur);
    }
    assert(views(out@) =~= runs(s@, key));
    out
}

} // verus!
