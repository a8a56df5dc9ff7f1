use vstd::prelude::*;

use crate::runs::{runs, lemma_runs};
use crate::text::{Class, chars_of, space, space_key, split_runs, string_from_chars, views};

verus! {

pub open spec fn positions_view(v: Seq<(String, usize, usize)>) -> Seq<(Seq<char>, usize, usize)> {
    v.map_values(|e: (String, usize, usize)| (e.0@, e.1, e.2))
}

/// Where a phoneme sits on its chart: its last entry, as when the entries are
/// collected into a map.
pub open spec fn position_of(table: Seq<(Seq<char>, usize, usize)>, key: Seq<char>) -> Option<
    (usize, usize),
>
    decreases table.len(),
{
    if table.len() == 0 {
        None
    } else if table.last().0 == key {
        Some((table.last().1, table.last().2))
    } else {
        position_of(table.drop_last(), key)
    }
}

/// The sums of the coordinates of `phonemes`, if each is on the chart.
pub open spec fn position_sum(table: Seq<(Seq<char>, usize, usize)>, phonemes: Seq<Seq<char>>) -> Option<
    (nat, nat),
>
    decreases phonemes.len(),
{
    if phonemes.len() == 0 {
        Some((0, 0))
    } else {
        match (position_sum(table, phonemes.drop_last()), position_of(table, phonemes.last())) {
            (Some((sx, sy)), Some((x, y))) => Some(((sx + x) as nat, (sy + y) as nat)),
            _ => None,
        }
    }
}

/// The mean position (rounded down) of the phonemes that a code stands for;
/// none for an empty list, a phoneme off the chart, or sums past `usize`.
pub open spec fn code_position(table: Seq<(Seq<char>, usize, usize)>, phonemes: Seq<Seq<char>>) -> Option<
    (usize, usize),
> {
    if phonemes.len() == 0 {
        None
    } else {
        match position_sum(table, phonemes) {
            Some((sx, sy)) => if sx <= usize::MAX && sy <= usize::MAX {
                Some(((sx / phonemes.len()) as usize, (sy / phonemes.len()) as usize))
            } else {
                None
            },
            None => None,
        }
    }
}

pub open spec fn sums_le(a: (nat, nat), b: (nat, nat)) -> bool {
    let (ax, ay) = a;
    let (bx, by) = b;
    ax <= bx && ay <= by
}

proof fn lemma_position_sum_grows(
    table: Seq<(Seq<char>, usize, usize)>,
    phonemes: Seq<Seq<char>>,
    i: int,
)
    requires
        0 <= i <= phonemes.len(),
        position_sum(table, phonemes) is Some,
    ensures
        position_sum(table, phonemes.take(i)) is Some,
        sums_le(position_sum(table, phonemes.take(i))->0, position_sum(table, phonemes)->0),
    decreases phonemes.len() - i,
{
    if i < phonemes.len() {
        lemma_position_sum_grows(table, phonemes, i + 1);
        assert(phonemes.take(i + 1).drop_last() =~= phonemes.take(i));
    } else {
        assert(phonemes.take(i) =~= phonemes);
    }
}

proof fn lemma_position_sum_none(
    table: Seq<(Seq<char>, usize, usize)>,
    phonemes: Seq<Seq<char>>,
    i: int,
)
    requires
        0 <= i <= phonemes.len(),
        position_sum(table, phonemes.take(i)) is None,
    ensures
        position_sum(table, phonemes) is None,
{
    if position_sum(table, phonemes) is Some {
        lemma_position_sum_grows(table, phonemes, i);
    }
}

fn find_position(table: &Vec<(String, usize, usize)>, key: &String) -> (r: Option<(usize, usize)>)
    ensures
        r == position_of(positions_view(table@), key@),
{
    let ghost tv = positions_view(table@);
    let mut i = table.len();
    assert(tv.take(i as int) =~= tv);
    while i > 0
        invariant
            i <= table.len(),
            tv == positions_view(table@),
            position_of(tv, key@) == position_of(tv.take(i as int), key@),
        decreases i,
    {
        assert(tv.take(i as int).drop_last() =~= tv.take(i - 1));
        assert(tv[i - 1] == (table@[i - 1].0@, table@[i - 1].1, table@[i - 1].2));
        if table[i - 1].0 == *key {
            return Some((table[i - 1].1, table[i - 1].2));
        }
        i = i - 1;
    }
    None
}

fn average_position(table: &Vec<(String, usize, usize)>, phonemes: &Vec<String>) -> (r: Option<
    (usize, usize),
>)
    ensures
        r == code_position(positions_view(table@), phonemes@.map_values(|p: String| p@)),
{
    let ghost tv = positions_view(table@);
    let ghost ps = phonemes@.map_values(|p: String| p@);
    if phonemes.len() == 0 {
        return None;
    }
    let mut sx: usize = 0;
    let mut sy: usize = 0;
    let mut i: usize = 0;
    assert(ps.take(0) =~= Seq::<Seq<char>>::empty());
    while i < phonemes.len()
        invariant
            i <= phonemes.len(),
            tv == positions_view(table@),
            ps == phonemes@.map_values(|p: String| p@),
            position_sum(tv, ps.take(i as int)) == Some((sx as nat, sy as nat)),
        decreases phonemes.len() - i,
    {
        assert(ps.take(i + 1).drop_last() =~= ps.take(i as int));
        assert(ps[i as int] == phonemes@[i as int]@);
        match find_position(table, &phonemes[i]) {
            Some((x, y)) => {
                if x > usize::MAX - sx || y > usize::MAX - sy {
                    proof {
                        if position_sum(tv, ps) is Some {
                            lemma_position_sum_grows(tv, ps, i + 1);
                        }
                    }
                    return None;
                }
                sx = sx + x;
                sy = sy + y;
            },
            None => {
                proof {
                    lemma_position_sum_none(tv, ps, i + 1);
                }
                return None;
            },
        }
        i = i + 1;
    }
    assert(ps.take(phonemes.len() as int) =~= ps);
    Some((sx / phonemes.len(), sy / phonemes.len()))
}

pub open spec fn conversion_view(v: Seq<(String, Vec<String>)>) -> Seq<(Seq<char>, Seq<Seq<char>>)> {
    v.map_values(|e: (String, Vec<String>)| (e.0@, e.1@.map_values(|p: String| p@)))
}

/// Places each code on the chart at the mean position of the phonemes it
/// stands for; `None` if one of them has no position (see `code_position`).
pub fn phoneme_to_arpabet_positions(
    phoneme_positions: &Vec<(String, usize, usize)>,
    arpabet_to_phoneme: &Vec<(String, Vec<String>)>,
) -> (r: Option<Vec<(String, usize, usize)>>)
    ensures
        r is Some <==> forall|k: int|
            0 <= k < arpabet_to_phoneme@.len() ==> (#[trigger] code_position(
                positions_view(phoneme_positions@),
                conversion_view(arpabet_to_phoneme@)[k].1,
            )) is Some,
        r is Some ==> r->0@.len() == arpabet_to_phoneme@.len(),
        r is Some ==> forall|k: int|
            0 <= k < arpabet_to_phoneme@.len() ==> (#[trigger] r->0@[k]).0@
                == arpabet_to_phoneme@[k].0@ && Some((r->0@[k].1, r->0@[k].2)) == code_position(
                positions_view(phoneme_positions@),
                conversion_view(arpabet_to_phoneme@)[k].1,
            ),
{
    let ghost tv = positions_view(phoneme_positions@);
    let ghost cv = conversion_view(arpabet_to_phoneme@);
    let mut out: Vec<(String, usize, usize)> = Vec::new();
    let mut i: usize = 0;
    while i < arpabet_to_phoneme.len()
        invariant
            i <= arpabet_to_phoneme.len(),
            tv == positions_view(phoneme_positions@),
            cv == conversion_view(arpabet_to_phoneme@),
            out@.len() == i,
            forall|k: int| 0 <= k < i ==> (#[trigger] code_position(tv, cv[k].1)) is Some,
            forall|k: int|
                0 <= k < i ==> (#[trigger] out@[k]).0@ == arpabet_to_phoneme@[k].0@ && Some(
                    (out@[k].1, out@[k].2),
                ) == code_position(tv, cv[k].1),
        decreases arpabet_to_phoneme.len() - i,
    {
        assert(cv[i as int].1 == arpabet_to_phoneme@[i as int].1@.map_values(|p: String| p@));
        match average_position(phoneme_positions, &arpabet_to_phoneme[i].1) {
            Some((x, y)) => {
                out.push((arpabet_to_phoneme[i].0.clone(), x, y));
            },
            None => {
                return None;
            },
        }
        i = i + 1;
    }
    Some(out)
}

/// The whitespace-separated tokens among `rs`, the runs of a text split at whitespace.
pub open spec fn tokens_of(rs: Seq<Seq<char>>) -> Seq<Seq<char>>
    decreases rs.len(),
{
    if rs.len() == 0 {
        seq![]
    } else if rs.last().len() > 0 && space(rs.last()[0]) {
        tokens_of(rs.drop_last())
    } else {
        tokens_of(rs.drop_last()).push(rs.last())
    }
}

pub open spec fn tokens(s: Seq<char>) -> Seq<Seq<char>> {
    tokens_of(runs(s, space_key()))
}

pub open spec fn strings_view(v: Seq<String>) -> Seq<Seq<char>> {
    v.map_values(|x: String| x@)
}

/// The whitespace-separated tokens of `s`.
pub fn split_tokens(s: &String) -> (r: Vec<String>)
    ensures
        strings_view(r@) == tokens(s@),
{
    let chars = chars_of(s.as_str());
    let parts = split_runs(&chars, Class::Space);
    let ghost rs = views(parts@);
    proof {
        lemma_runs(s@, space_key());
        assert(rs.take(0) =~= Seq::<Seq<char>>::empty());
    }
    let mut out: Vec<String> = Vec::new();
    let mut i: usize = 0;
    while i < parts.len()
        invariant
            rs == views(parts@),
            rs == runs(s@, space_key()),
            i <= parts.len(),
            strings_view(out@) == tokens_of(rs.take(i as int)),
            forall|k: int| 0 <= k < rs.len() ==> #[trigger] rs[k].len() > 0,
        decreases parts.len() - i,
    {
        let part = &parts[i];
        assert(part@ == rs[i as int]);
        assert(rs.take(i + 1).drop_last() =~= rs.take(i as int));
        if !crate::text::is_space(part[0]) {
            let ghost before = out@;
            out.push(string_from_chars(part));
            assert(strings_view(out@) =~= strings_view(before).push(part@));
        }
        i = i + 1;
    }
    assert(rs.take(parts.len() as int) =~= rs);
    out
}

/// The entries of the first `k` cells of a chart row, the header column
/// excepted: each token of the cell in column `x + 1` sits at `(x, y)`.
pub open spec fn row_entries(row: Seq<Seq<char>>, y: usize, k: int) -> Seq<(Seq<char>, usize, usize)>
    decreases k,
{
    if k <= 1 || k > row.len() {
        seq![]
    } else {
        row_entries(row, y, k - 1) + tokens(row[k - 1]).map_values(
            |t: Seq<char>| (t, (k - 2) as usize, y),
        )
    }
}

/// The entries of a chart: its rows but the header row, the row under the
/// header being row zero, each row number divided by `div`.
pub open spec fn grid_entries(rows: Seq<Seq<Seq<char>>>, div: usize, k: int) -> Seq<
    (Seq<char>, usize, usize),
>
    decreases k,
{
    if k <= 1 || k > rows.len() {
        seq![]
    } else {
        grid_entries(rows, div, k - 1) + row_entries(
            rows[k - 1],
            ((k - 2) / div as int) as usize,
            rows[k - 1].len() as int,
        )
    }
}

pub open spec fn rows_view(v: Seq<Vec<String>>) -> Seq<Seq<Seq<char>>> {
    v.map_values(|row: Vec<String>| row@.map_values(|f: String| f@))
}

/// The position of each phoneme of a chart given as rows of cells, in order
/// (see `grid_entries`).
pub fn phoneme_positions(rows: &Vec<Vec<String>>, div: usize) -> (r: Vec<(String, usize, usize)>)
    requires
        div > 0,
    ensures
        positions_view(r@) == grid_entries(rows_view(rows@), div, rows@.len() as int),
{
    let ghost rv = rows_view(rows@);
    let mut out: Vec<(String, usize, usize)> = Vec::new();
    let mut y: usize = 1;
    if rows.len() == 0 {
        return out;
    }
    while y < rows.len()
        invariant
            div > 0,
            1 <= y <= rows.len(),
            rv == rows_view(rows@),
            positions_view(out@) == grid_entries(rv, div, y as int),
        decreases rows.len() - y,
    {
        let row = &rows[y];
        let ghost rowv = rv[y as int];
        assert(rowv == row@.map_values(|f: String| f@));
        let row_y = (y - 1) / div;
        let ghost start = positions_view(out@);
        let mut x: usize = 1;
        while x < row.len()
            invariant
                1 <= x,
                x <= row.len() || row.len() == 0,
                rowv == row@.map_values(|f: String| f@),
                positions_view(out@) == start + row_entries(rowv, row_y, x as int),
            decreases row.len() - x,
        {
            let toks = split_tokens(&row[x]);
            let ghost mid = positions_view(out@);
            let mut t: usize = 0;
            while t < toks.len()
                invariant
                    1 <= x,
                    t <= toks.len(),
                    positions_view(out@) == mid + strings_view(toks@).take(t as int).map_values(
                        |s: Seq<char>| (s, (x - 1) as usize, row_y),
                    ),
                decreases toks.len() - t,
            {
                let ghost before = out@;
                let w = toks[t].clone();
                assert(w@ == strings_view(toks@)[t as int]);
                out.push((w, x - 1, row_y));
                assert(positions_view(out@) =~= positions_view(before).push((w@, (x - 1) as usize, row_y)));
                assert(strings_view(toks@).take(t + 1) =~= strings_view(toks@).take(t as int).push(
                    toks@[t as int]@,
                ));
                t = t + 1;
                assert(positions_view(out@) =~= mid + strings_view(toks@).take(t as int).map_values(
                    |s: Seq<char>| (s, (x - 1) as usize, row_y),
                ));
            }
            assert(strings_view(toks@).take(toks.len() as int) =~= strings_view(toks@));
            assert(rowv[x as int] == row@[x as int]@);
            x = x + 1;
            assert(positions_view(out@) =~= start + row_entries(rowv, row_y, x as int));
        }
        if row.len() == 0 {
            assert(row_entries(rowv, row_y, rowv.len() as int) =~= Seq::empty());
        }
        y = y + 1;
        assert(positions_view(out@) =~= grid_entries(rv, div, y as int));
    }
    out
}

/// Each row's code (first field) with the phonemes it stands for (the tokens
/// of the second field); `None` if a row has fewer than two fields.
pub open spec fn conversion_rows(rows: Seq<Seq<Seq<char>>>) -> Option<Seq<(Seq<char>, Seq<Seq<char>>)>>
    decreases rows.len(),
{
    if rows.len() == 0 {
        Some(seq![])
    } else {
        match conversion_rows(rows.drop_last()) {
            Some(v) => if rows.last().len() >= 2 {
                Some(v.push((rows.last()[0], tokens(rows.last()[1]))))
            } else {
                None
            },
            None => None,
        }
    }
}

proof fn lemma_conversion_rows_none(rows: Seq<Seq<Seq<char>>>, j: int, k: int)
    requires
        0 <= j <= k <= rows.len(),
        conversion_rows(rows.take(j)) is None,
    ensures
        conversion_rows(rows.take(k)) is None,
    decreases k - j,
{
    if k > j {
        lemma_conversion_rows_none(rows, j, k - 1);
        assert(rows.take(k).drop_last() =~= rows.take(k - 1));
    }
}

/// Reads the rows `code,phonemes` of a conversion table.
pub fn conversion(rows: &Vec<Vec<String>>) -> (r: Option<Vec<(String, Vec<String>)>>)
    ensures
        r is Some <==> conversion_rows(rows_view(rows@)) is Some,
        r is Some ==> Some(conversion_view(r->0@)) == conversion_rows(rows_view(rows@)),
{
    let ghost rv = rows_view(rows@);
    let mut out: Vec<(String, Vec<String>)> = Vec::new();
    let mut i: usize = 0;
    assert(rv.take(0) =~= Seq::<Seq<Seq<char>>>::empty());
    while i < rows.len()
        invariant
            i <= rows.len(),
            rv == rows_view(rows@),
            conversion_rows(rv.take(i as int)) == Some(conversion_view(out@)),
        decreases rows.len() - i,
    {
        let row = &rows[i];
        assert(rv[i as int] == row@.map_values(|f: String| f@));
        assert(rv.take(i + 1).drop_last() =~= rv.take(i as int));
        if row.len() < 2 {
            proof {
                lemma_conversion_rows_none(rv, i + 1, rv.len() as int);
                assert(rv.take(rv.len() as int) =~= rv);
            }
            return None;
        }
        let toks = split_tokens(&row[1]);
        let ghost before = out@;
        out.push((row[0].clone(), toks));
        assert(conversion_view(out@) =~= conversion_view(before).push(
            (row@[0]@, tokens(row@[1]@)),
        ));
        i = i + 1;
    }
    assert(rv.take(rows.len() as int) =~= rv);
    Some(out)
}

} // verus!
