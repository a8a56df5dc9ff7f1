use vstd::prelude::*;
use vstd::string::*;

use radix_trie::Trie;

use crate::phone::{Phone, SCALE};
use crate::pronounce::{Pronounce, all_wf};
use crate::runs::runs;
use crate::text::{
    alpha,
    is_alpha,
    is_space,
    space,
    space_key,
    upper,
    split_runs,
    views,
    string_from_chars,
    to_upper,
    chars_of,
};

verus! {

#[verifier::external_type_specification]
#[verifier::external_body]
#[verifier::reject_recursive_types(K)]
#[verifier::reject_recursive_types(V)]
pub struct ExTrie<K, V>(Trie<K, V>);

/// What a dictionary trie maps each key to.
pub uninterp spec fn trie_entries(t: Trie<String, String>) -> Map<Seq<char>, Seq<char>>;

/// Relies on `radix_trie::Trie::new`: an empty trie.
#[verifier::external_body]
fn trie_new() -> (r: Trie<String, String>)
    ensures
        trie_entries(r).dom() == Set::<Seq<char>>::empty(),
{
    Trie::new()
}

/// Relies on `radix_trie::Trie::insert`: the key now maps to the value, the
/// other keys are unchanged.
#[verifier::external_body]
fn trie_insert(t: &mut Trie<String, String>, key: String, value: String)
    ensures
        trie_entries(*final(t)) == trie_entries(*old(t)).insert(key@, value@),
{
    t.insert(key, value);
}

/// Relies on `radix_trie::Trie::get`: the value stored under exactly this key.
#[verifier::external_body]
pub(crate) fn trie_get(t: &Trie<String, String>, key: &String) -> (r: Option<String>)
    ensures
        r is None <==> !trie_entries(*t).contains_key(key@),
        r is Some ==> r->0@ == trie_entries(*t)[key@],
{
    t.get(key).map(|s| s.to_string())
}

/// The map that inserting `entries` in order builds: a later entry wins.
pub open spec fn entries_map(entries: Seq<(String, String)>) -> Map<Seq<char>, Seq<char>>
    decreases entries.len(),
{
    if entries.len() == 0 {
        Map::empty()
    } else {
        entries_map(entries.drop_last()).insert(entries.last().0@, entries.last().1@)
    }
}

/// The coordinates of the first entry named `code`.
pub open spec fn table_lookup(table: Seq<(String, u32, u32)>, code: Seq<char>) -> Option<
    (u32, u32),
>
    decreases table.len(),
{
    if table.len() == 0 {
        None
    } else if table[0].0@ == code {
        Some((table[0].1, table[0].2))
    } else {
        table_lookup(table.drop_first(), code)
    }
}

pub open spec fn table_wf(table: Seq<(String, u32, u32)>) -> bool {
    forall|k: int| 0 <= k < table.len() ==> #[trigger] table[k].1 <= SCALE && table[k].2 <= SCALE
}

/// A code with its stress marks (trailing non-letters) removed.
pub open spec fn trim_stress(t: Seq<char>) -> Seq<char>
    decreases t.len(),
{
    if t.len() > 0 && !alpha(t.last()) {
        trim_stress(t.drop_last())
    } else {
        t
    }
}

/// The codes of a whitespace-separated code string, stress marks removed.
pub open spec fn codes_of(rs: Seq<Seq<char>>) -> Seq<Seq<char>>
    decreases rs.len(),
{
    if rs.len() == 0 {
        seq![]
    } else if space(rs.last()[0]) {
        codes_of(rs.drop_last())
    } else {
        codes_of(rs.drop_last()).push(trim_stress(rs.last()))
    }
}

pub open spec fn codes(s: Seq<char>) -> Seq<Seq<char>> {
    codes_of(runs(s, space_key()))
}

/// The upper-cased form under which the dictionary stores a word.
pub open spec fn upper_word(w: Seq<char>) -> Seq<char> {
    w.map_values(|c: char| upper(c))
}

/// Turns words into pronunciations, from a dictionary of phonetic codes and
/// the positions of vowel and consonant codes on their charts.
pub struct PronounceBuilder {
    dict: Trie<String, String>,
    vowel_map: Vec<(String, u32, u32)>,
    consonant_map: Vec<(String, u32, u32)>,
}

impl PronounceBuilder {
    pub closed spec fn dict(&self) -> Map<Seq<char>, Seq<char>> {
        trie_entries(self.dict)
    }

    pub closed spec fn vowels(&self) -> Seq<(String, u32, u32)> {
        self.vowel_map@
    }

    pub closed spec fn consonants(&self) -> Seq<(String, u32, u32)> {
        self.consonant_map@
    }

    pub open spec fn wf(&self) -> bool {
        table_wf(self.vowels()) && table_wf(self.consonants())
    }

    /// The phone a code stands for: a vowel if the vowel chart has it, else a
    /// consonant if the consonant chart has it.
    pub open spec fn phone_spec(&self, code: Seq<char>) -> Option<Phone> {
        match table_lookup(self.vowels(), code) {
            Some((x, y)) => Some(Phone::Vowel(x, y)),
            None => match table_lookup(self.consonants(), code) {
                Some((x, y)) => Some(Phone::Consonant(x, y)),
                None => None,
            },
        }
    }

    /// The phones of a list of codes, or `None` if a code is on neither chart.
    pub open spec fn phones_spec(&self, cs: Seq<Seq<char>>) -> Option<Seq<Phone>>
        decreases cs.len(),
    {
        if cs.len() == 0 {
            Some(seq![])
        } else {
            match (self.phones_spec(cs.drop_last()), self.phone_spec(cs.last())) {
                (Some(ps), Some(p)) => Some(ps.push(p)),
                _ => None,
            }
        }
    }

    /// The phones of a word: those of its dictionary entry, or none when the
    /// word is not in the dictionary or its entry holds a code of neither chart.
    pub open spec fn word_phones(&self, word: Seq<char>) -> Seq<Phone> {
        let key = upper_word(word);
        if self.dict().contains_key(key) {
            match self.phones_spec(codes(self.dict()[key])) {
                Some(ps) => ps,
                None => seq![],
            }
        } else {
            seq![]
        }
    }

    pub fn new(
        dict_entries: Vec<(String, String)>,
        vowel_map: Vec<(String, u32, u32)>,
        consonant_map: Vec<(String, u32, u32)>,
    ) -> (r: PronounceBuilder)
        requires
            table_wf(vowel_map@),
            table_wf(consonant_map@),
        ensures
            r.wf(),
            r.dict() == entries_map(dict_entries@),
            r.vowels() == vowel_map@,
            r.consonants() == consonant_map@,
    {
        let mut dict = trie_new();
        let mut i: usize = 0;
        let n = dict_entries.len();
        while i < n
            invariant
                n == dict_entries.len(),
                i <= n,
                trie_entries(dict) == entries_map(dict_entries@.take(i as int)),
            decreases n - i,
        {
            assert(dict_entries@.take(i + 1).drop_last() =~= dict_entries@.take(i as int));
            let key = dict_entries[i].0.clone();
            let value = dict_entries[i].1.clone();
            trie_insert(&mut dict, key, value);
            i = i + 1;
        }
        assert(dict_entries@.take(n as int) =~= dict_entries@);
        PronounceBuilder { dict, vowel_map, consonant_map }
    }

    fn phone_from_arpabet(&self, code: &Vec<char>) -> (r: Option<Phone>)
        requires
            self.wf(),
        ensures
            r == self.phone_spec(code@),
            r is Some ==> r->0.wf(),
    {
        match lookup(&self.vowel_map, code) {
            Some((x, y)) => Some(Phone::Vowel(x, y)),
            None => match lookup(&self.consonant_map, code) {
                Some((x, y)) => Some(Phone::Consonant(x, y)),
                None => None,
            },
        }
    }

    /// The pronunciation of a code string such as `"R IY1 AE1 K T"`, or
    /// `None` if one of its codes is on neither chart.
    pub fn pronounce_from_arpabet(&self, arpabet: &str) -> (r: Option<Pronounce>)
        requires
            self.wf(),
        ensures
            r is None <==> self.phones_spec(codes(arpabet@)) is None,
            r is Some ==> r->0.wf() && Some(r->0.phones()) == self.phones_spec(codes(arpabet@)),
    {
        let chars = chars_of(arpabet);
        let parts = split_runs(&chars, crate::text::Class::Space);
        let ghost rs = views(parts@);
        let mut phones: Vec<Phone> = Vec::new();
        let mut i: usize = 0;
        proof {
            crate::runs::lemma_runs(arpabet@, space_key());
            assert(rs.take(0) =~= Seq::<Seq<char>>::empty());
        }
        while i < parts.len()
            invariant
                self.wf(),
                rs == views(parts@),
                rs == runs(arpabet@, space_key()),
                i <= parts.len(),
                self.phones_spec(codes_of(rs.take(i as int))) == Some(phones@),
                all_wf(phones@),
                forall|k: int| 0 <= k < rs.len() ==> #[trigger] rs[k].len() > 0,
            decreases parts.len() - i,
        {
            let ghost pre = codes_of(rs.take(i as int));
            assert(rs.take(i + 1).drop_last() =~= rs.take(i as int));
            let part = &parts[i];
            assert(part@ == rs[i as int]);
            if !is_space(part[0]) {
                let code = trim_stress_exec(part);
                assert(codes_of(rs.take(i + 1)) == pre.push(code@));
                assert(pre.push(code@).drop_last() =~= pre);
                match self.phone_from_arpabet(&code) {
                    Some(p) => {
                        phones.push(p);
                    },
                    None => {
                        proof {
                            lemma_phones_spec_none(self, rs, (i + 1) as nat, rs.len());
                            assert(rs.take(rs.len() as int) =~= rs);
                        }
                        return None;
                    },
                }
            } else {
                assert(codes_of(rs.take(i + 1)) == pre);
            }
            i = i + 1;
        }
        assert(rs.take(parts.len() as int) =~= rs);
        Some(Pronounce::new(phones))
    }

    /// The pronunciation of a word found in the dictionary by its upper-cased
    /// form; the empty pronunciation for a word that it lacks.
    pub fn pronounce(&self, word: &str) -> (r: Pronounce)
        requires
            self.wf(),
        ensures
            r.wf(),
            r.phones() == self.word_phones(word@),
    {
        let key = to_upper(word);
        match trie_get(&self.dict, &key) {
            Some(arpabet) => match self.pronounce_from_arpabet(arpabet.as_str()) {
                Some(p) => p,
                None => Pronounce::empty(),
            },
            None => Pronounce::empty(),
        }
    }
}

proof fn lemma_phones_spec_none(b: &PronounceBuilder, rs: Seq<Seq<char>>, j: nat, k: nat)
    requires
        b.phones_spec(codes_of(rs.take(j as int))) is None,
        j <= k <= rs.len(),
    ensures
        b.phones_spec(codes_of(rs.take(k as int))) is None,
    decreases k - j,
{
    if k > j {
        lemma_phones_spec_none(b, rs, j, (k - 1) as nat);
        let pre = codes_of(rs.take(k - 1));
        assert(rs.take(k as int).drop_last() =~= rs.take(k - 1));
        if !space(rs[k - 1][0]) {
            assert(codes_of(rs.take(k as int)) == pre.push(trim_stress(rs[k - 1])));
            assert(pre.push(trim_stress(rs[k - 1])).drop_last() =~= pre);
        }
    }
}

pub(crate) fn same_chars(a: &String, b: &Vec<char>) -> (r: bool)
    ensures
        r == (a@ == b@),
{
    let s = a.as_str();
    let n = s.unicode_len();
    if n != b.len() {
        return false;
    }
    let mut i: usize = 0;
    while i < n
        invariant
            n == s@.len() == b@.len(),
            s@ == a@,
            i <= n,
            forall|k: int| 0 <= k < i ==> s@[k] == b@[k],
        decreases n - i,
    {
        if s.get_char(i) != b[i] {
            return false;
        }
        i = i + 1;
    }
    assert(a@ =~= b@);
    true
}

fn lookup(table: &Vec<(String, u32, u32)>, code: &Vec<char>) -> (r: Option<(u32, u32)>)
    requires
        table_wf(table@),
    ensures
        r == table_lookup(table@, code@),
        r matches Some((x, y)) ==> x <= SCALE && y <= SCALE,
{
    let mut i: usize = 0;
    assert(table@.skip(0) =~= table@);
    while i < table.len()
        invariant
            i <= table.len(),
            table_wf(table@),
            table_lookup(table@, code@) == table_lookup(table@.skip(i as int), code@),
        decreases table.len() - i,
    {
        assert(table@.skip(i as int).drop_first() =~= table@.skip(i + 1));
        if same_chars(&table[i].0, code) {
            return Some((table[i].1, table[i].2));
        }
        i = i + 1;
    }
    None
}

fn trim_stress_exec(t: &Vec<char>) -> (r: Vec<char>)
    ensures
        r@ == trim_stress(t@),
{
    let mut end = t.len();
    assert(t@.take(end as int) =~= t@);
    while end > 0 && !is_alpha(t[end - 1])
        invariant
            end <= t.len(),
            trim_stress(t@) == trim_stress(t@.take(end as int)),
        decreases end,
    {
        assert(t@.take(end as int).drop_last() =~= t@.take(end - 1));
        end = end - 1;
    }
    let mut out: Vec<char> = Vec::new();
    let mut i: usize = 0;
    while i < end
        invariant
            end <= t.len(),
            i <= end,
            out@ == t@.take(i as int),
        decreases end - i,
    {
        out.push(t[i]);
        i = i + 1;
        assert(out@ =~= t@.take(i as int));
    }
    proof {
        assert(t@.take(0) =~= Seq::<char>::empty());
        assert(trim_stress(t@) == t@.take(end as int));
    }
    out
}

} // verus!
