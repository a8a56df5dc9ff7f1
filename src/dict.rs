use vstd::prelude::*;

use std::io::Read;

use flate2::read::GzDecoder;

use crate::runs::{runs, lemma_runs};
use crate::text::{Class, chars_of, newline_key, split_runs, string_from_chars, views};

verus! {

/// The text that a gzip stream decompresses to, if it is valid gzip holding UTF-8.
pub uninterp spec fn gunzip_text(b: Seq<u8>) -> Option<Seq<char>>;

/// Relies on `flate2::read::GzDecoder` read through `Read::read_to_string`:
/// the decompressed text, or an error for a stream that is not gzip or not UTF-8.
#[verifier::external_body]
fn gunzip(b: &[u8]) -> (r: Option<String>)
    ensures
        r is Some <==> gunzip_text(b@) is Some,
        r is Some ==> r->0@ == gunzip_text(b@)->0,
{
    let mut decoder = GzDecoder::new(b);
    let mut s = String::new();
    match decoder.read_to_string(&mut s) {
        Ok(_) => Some(s),
        Err(_) => None,
    }
}

/// Where the first two adjacent spaces at or after `i` start.
pub open spec fn double_space_from(l: Seq<char>, i: int) -> Option<int>
    decreases l.len() - i,
{
    if i < 0 || i + 1 >= l.len() {
        None
    } else if l[i] == ' ' && l[i + 1] == ' ' {
        Some(i)
    } else {
        double_space_from(l, i + 1)
    }
}

/// The text before the first double space, or all of it.
pub open spec fn first_part(l: Seq<char>) -> Seq<char> {
    match double_space_from(l, 0) {
        Some(p) => l.take(p),
        None => l,
    }
}

/// The entry of a dictionary line `WORD  CODES`: none for a `;;;` comment or a
/// line without a double space.
pub open spec fn dict_line(line: Seq<char>) -> Option<(Seq<char>, Seq<char>)> {
    if line.len() >= 3 && line[0] == ';' && line[1] == ';' && line[2] == ';' {
        None
    } else {
        match double_space_from(line, 0) {
            Some(p) => Some((line.take(p), first_part(line.skip(p + 2)))),
            None => None,
        }
    }
}

/// The entries of the lines among `rs`, the runs of a text split at line breaks.
pub open spec fn dict_entries_of(rs: Seq<Seq<char>>) -> Seq<(Seq<char>, Seq<char>)>
    decreases rs.len(),
{
    if rs.len() == 0 {
        seq![]
    } else {
        let e = dict_entries_of(rs.drop_last());
        let l = rs.last();
        if l.len() > 0 && (l[0] == '\n' || l[0] == '\r') {
            e
        } else {
            match dict_line(l) {
                Some(x) => e.push(x),
                None => e,
            }
        }
    }
}

pub open spec fn dict_text_entries(text: Seq<char>) -> Seq<(Seq<char>, Seq<char>)> {
    dict_entries_of(runs(text, newline_key()))
}

pub open spec fn entry_views(v: Seq<(String, String)>) -> Seq<(Seq<char>, Seq<char>)> {
    v.map_values(|e: (String, String)| (e.0@, e.1@))
}

fn find_double_space(l: &Vec<char>, from: usize) -> (r: Option<usize>)
    ensures
        r matches Some(p) ==> double_space_from(l@, from as int) == Some(p as int) && p + 1 < l@.len(),
        r is None ==> double_space_from(l@, from as int) is None,
{
    if l.len() < 2 || from >= l.len() - 1 {
        return None;
    }
    let mut i = from;
    while i < l.len() - 1
        invariant
            l.len() >= 2,
            i >= from,
            double_space_from(l@, from as int) == double_space_from(l@, i as int),
        decreases l.len() - i,
    {
        if l[i] == ' ' && l[i + 1] == ' ' {
            return Some(i);
        }
        i = i + 1;
    }
    None
}

fn slice_of(l: &Vec<char>, a: usize, b: usize) -> (r: Vec<char>)
    requires
        a <= b <= l.len(),
    ensures
        r@ == l@.subrange(a as int, b as int),
{
    let mut out: Vec<char> = Vec::new();
    let mut i = a;
    while i < b
        invariant
            a <= i <= b <= l.len(),
            out@ == l@.subrange(a as int, i as int),
        decreases b - i,
    {
        out.push(l[i]);
        i = i + 1;
        assert(out@ =~= l@.subrange(a as int, i as int));
    }
    out
}

fn parse_line(line: &Vec<char>) -> (r: Option<(String, String)>)
    ensures
        r is Some <==> dict_line(line@) is Some,
        r matches Some(e) ==> dict_line(line@) == Some((e.0@, e.1@)),
{
    if line.len() >= 3 && line[0] == ';' && line[1] == ';' && line[2] == ';' {
        return None;
    }
    match find_double_space(line, 0) {
        Some(p) => {
            let word = slice_of(line, 0, p);
            let rest = slice_of(line, p + 2, line.len());
            let codes = match find_double_space(&rest, 0) {
                Some(q) => slice_of(&rest, 0, q),
                None => slice_of(&rest, 0, rest.len()),
            };
            assert(word@ =~= line@.take(p as int));
            assert(rest@ =~= line@.skip(p + 2));
            assert(rest@.subrange(0, rest.len() as int) =~= rest@);
            assert(codes@ =~= first_part(rest@));
            Some((string_from_chars(&word), string_from_chars(&codes)))
        },
        None => None,
    }
}

/// Reads a pronunciation dictionary: one `WORD  CODES` entry per line, in
/// order; `;;;` comments, blank lines and lines without a double space hold none.
pub fn parse_cmudict(text: &str) -> (r: Vec<(String, String)>)
    ensures
        entry_views(r@) == dict_text_entries(text@),
{
    let chars = chars_of(text);
    let lines = split_runs(&chars, Class::Newline);
    let ghost rs = views(lines@);
    proof {
        lemma_runs(text@, newline_key());
        assert(rs.take(0) =~= Seq::<Seq<char>>::empty());
    }
    let mut out: Vec<(String, String)> = Vec::new();
    let mut i: usize = 0;
    while i < lines.len()
        invariant
            rs == views(lines@),
            rs == runs(text@, newline_key()),
            i <= lines.len(),
            entry_views(out@) == dict_entries_of(rs.take(i as int)),
            forall|k: int| 0 <= k < rs.len() ==> #[trigger] rs[k].len() > 0,
        decreases lines.len() - i,
    {
        let line = &lines[i];
        assert(line@ == rs[i as int]);
        assert(rs.take(i + 1).drop_last() =~= rs.take(i as int));
        let ghost before = out@;
        if !(line[0] == '\n' || line[0] == '\r') {
            match parse_line(line) {
                Some(e) => {
                    out.push(e);
                    assert(entry_views(out@) =~= entry_views(before).push((e.0@, e.1@)));
                },
                None => {},
            }
        }
        i = i + 1;
    }
    assert(rs.take(lines.len() as int) =~= rs);
    out
}

/// Decompresses and reads a gzip-compressed pronunciation dictionary; `None`
/// when the data is not gzip-compressed UTF-8 text.
pub fn read_cmudict(gz: &[u8]) -> (r: Option<Vec<(String, String)>>)
    ensures
        r is Some <==> gunzip_text(gz@) is Some,
        r is Some ==> entry_views(r->0@) == dict_text_entries(gunzip_text(gz@)->0),
{
    match gunzip(gz) {
        Some(text) => Some(parse_cmudict(text.as_str())),
        None => None,
    }
}

} // verus!
