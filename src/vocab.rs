use vstd::prelude::*;

verus! {

/// The fields of each record of a CSV text without a header row, or `None`
/// when a record does not parse.
pub uninterp spec fn csv_rows(text: Seq<char>) -> Option<Seq<Seq<Seq<char>>>>;

pub open spec fn rows_view(v: Seq<Vec<String>>) -> Seq<Seq<Seq<char>>> {
    v.map_values(|row: Vec<String>| row@.map_values(|f: String| f@))
}

/// Relies on `csv::ReaderBuilder` (no header row) and `StringRecord::iter`:
/// the fields of every record in order, or an error for a malformed record.
#[verifier::external_body]
fn read_csv(text: &str) -> (r: Option<Vec<Vec<String>>>)
    ensures
        r is Some <==> csv_rows(text@) is Some,
        r is Some ==> rows_view(r->0@) == csv_rows(text@)->0,
{
    csv::ReaderBuilder::new().has_headers(false).from_reader(text.as_bytes()).records().map(
        |rec| rec.map(|rec| rec.iter().map(|f| f.to_string()).collect()),
    ).collect::<Result<Vec<Vec<String>>, csv::Error>>().ok()
}

pub open spec fn is_digit(c: char) -> bool {
    '0' <= c <= '9'
}

/// The number that a string of decimal digits writes.
pub open spec fn digits_value(s: Seq<char>) -> nat
    decreases s.len(),
{
    if s.len() == 0 {
        0
    } else {
        digits_value(s.drop_last()) * 10 + ((s.last() as u32) - ('0' as u32)) as nat
    }
}

/// The digits of a decimal number, without its leading `+`.
pub open spec fn unsigned_part(s: Seq<char>) -> Seq<char> {
    if s.len() > 0 && s[0] == '+' {
        s.drop_first()
    } else {
        s
    }
}

/// A `u64` written in decimal, with an optional leading `+`.
pub open spec fn decimal(s: Seq<char>) -> Option<u64> {
    let d = unsigned_part(s);
    if d.len() > 0 && (forall|k: int| 0 <= k < d.len() ==> is_digit(#[trigger] d[k]))
        && digits_value(d) <= u64::MAX {
        Some(digits_value(d) as u64)
    } else {
        None
    }
}

proof fn lemma_digits_grow(d: Seq<char>, i: int)
    requires
        0 <= i <= d.len(),
        forall|k: int| 0 <= k < d.len() ==> is_digit(#[trigger] d[k]),
    ensures
        digits_value(d.take(i)) <= digits_value(d),
    decreases d.len() - i,
{
    if i < d.len() {
        lemma_digits_grow(d, i + 1);
        assert(d.take(i + 1).drop_last() =~= d.take(i));
    } else {
        assert(d.take(i) =~= d);
    }
}

/// Reads a weight as `str::parse::<u64>` does.
pub fn parse_u64(s: &String) -> (r: Option<u64>)
    ensures
        r == decimal(s@),
{
    let chars = crate::text::chars_of(s.as_str());
    let start: usize = if chars.len() > 0 && chars[0] == '+' {
        1
    } else {
        0
    };
    let ghost d = unsigned_part(s@);
    assert(d =~= chars@.skip(start as int));
    if start >= chars.len() {
        return None;
    }
    let mut v: u64 = 0;
    let mut i = start;
    while i < chars.len()
        invariant
            start <= i <= chars.len(),
            d == chars@.skip(start as int),
            d == unsigned_part(s@),
            v == digits_value(d.take(i - start)),
            forall|k: int| 0 <= k < i - start ==> is_digit(#[trigger] d[k]),
        decreases chars.len() - i,
    {
        let c = chars[i];
        assert(d.take(i - start + 1).drop_last() =~= d.take(i - start));
        assert(d[i - start] == c);
        if !('0' <= c && c <= '9') {
            assert(!is_digit(d[i - start]));
            return None;
        }
        let digit = (c as u32 - '0' as u32) as u64;
        if v > (u64::MAX - digit) / 10 {
            proof {
                assert(v * 10 + digit > u64::MAX) by (nonlinear_arith)
                    requires
                        v > (u64::MAX - digit) / 10,
                        digit <= 9,
                ;
                assert(digits_value(d.take(i - start + 1)) == v * 10 + digit);
                if forall|k: int| 0 <= k < d.len() ==> is_digit(#[trigger] d[k]) {
                    lemma_digits_grow(d, i - start + 1);
                    assert(digits_value(d) > u64::MAX);
                }
                assert(decimal(s@) is None);
            }
            return None;
        }
        v = v * 10 + digit;
        i = i + 1;
    }
    assert(d.take(d.len() as int) =~= d);
    Some(v)
}

/// The vocabulary of the rows: a name, a code string and a weight from the
/// first three fields of each; `None` if a row is shorter or its weight is not
/// a `u64`.
pub open spec fn vocab_rows(rows: Seq<Seq<Seq<char>>>) -> Option<Seq<(Seq<char>, Seq<char>, u64)>>
    decreases rows.len(),
{
    if rows.len() == 0 {
        Some(seq![])
    } else {
        let row = rows.last();
        match vocab_rows(rows.drop_last()) {
            Some(v) => if row.len() >= 3 && decimal(row[2]) is Some {
                Some(v.push((row[0], row[1], decimal(row[2])->0)))
            } else {
                None
            },
            None => None,
        }
    }
}

pub open spec fn vocab_view(v: Seq<(String, String, u64)>) -> Seq<(Seq<char>, Seq<char>, u64)> {
    v.map_values(|e: (String, String, u64)| (e.0@, e.1@, e.2))
}

proof fn lemma_vocab_rows_none(rows: Seq<Seq<Seq<char>>>, j: int, k: int)
    requires
        0 <= j <= k <= rows.len(),
        vocab_rows(rows.take(j)) is None,
    ensures
        vocab_rows(rows.take(k)) is None,
    decreases k - j,
{
    if k > j {
        lemma_vocab_rows_none(rows, j, k - 1);
        assert(rows.take(k).drop_last() =~= rows.take(k - 1));
    }
}

/// Reads the vocabulary from CSV rows `name,codes,weight`; `None` for a
/// malformed record, a row of fewer than three fields, or a weight that is not
/// a `u64`.
pub fn read_frameworks(text: &str) -> (r: Option<Vec<(String, String, u64)>>)
    ensures
        r is Some <==> (csv_rows(text@) is Some && vocab_rows(csv_rows(text@)->0) is Some),
        r is Some ==> Some(vocab_view(r->0@)) == vocab_rows(csv_rows(text@)->0),
{
    let rows = match read_csv(text) {
        Some(rows) => rows,
        None => {
            return None;
        },
    };
    let ghost rv = rows_view(rows@);
    let mut out: Vec<(String, String, u64)> = Vec::new();
    let mut i: usize = 0;
    assert(rv.take(0) =~= Seq::<Seq<Seq<char>>>::empty());
    while i < rows.len()
        invariant
            rv == rows_view(rows@),
            rv == csv_rows(text@)->0,
            i <= rows.len(),
            vocab_rows(rv.take(i as int)) == Some(vocab_view(out@)),
        decreases rows.len() - i,
    {
        let row = &rows[i];
        assert(rv[i as int] == row@.map_values(|f: String| f@));
        assert(rv.take(i + 1).drop_last() =~= rv.take(i as int));
        if row.len() < 3 {
            proof {
                lemma_vocab_rows_none(rv, i + 1, rv.len() as int);
                assert(rv.take(rv.len() as int) =~= rv);
            }
            return None;
        }
        match parse_u64(&row[2]) {
            Some(stars) => {
                let ghost before = out@;
                out.push((row[0].clone(), row[1].clone(), stars));
                assert(vocab_view(out@) =~= vocab_view(before).push(
                    (row@[0]@, row@[1]@, stars),
                ));
            },
            None => {
                proof {
                    lemma_vocab_rows_none(rv, i + 1, rv.len() as int);
                    assert(rv.take(rv.len() as int) =~= rv);
                }
                return None;
            },
        }
        i = i + 1;
    }
    assert(rv.take(rows.len() as int) =~= rv);
    Some(out)
}

} // verus!
