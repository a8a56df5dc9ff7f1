use vstd::prelude::*;
use vstd::string::*;

use crate::builder::{PronounceBuilder, codes};
use crate::phone::Phone;
use crate::pronounce::{Pronounce, distance_spec};
use crate::runs::{runs, concat, lemma_runs};
use crate::text::{separator, separator_key, split_runs, string_from_chars, views};

verus! {

/// One run of the input: replaced by a vocabulary word, or kept as it was.
pub enum Replacement {
    Replace(String),
    Keep(String),
}

impl Replacement {
    /// Whether the run was replaced, and the text that stands for it.
    pub open spec fn view(&self) -> (bool, Seq<char>) {
        match self {
            Replacement::Replace(w) => (true, w@),
            Replacement::Keep(w) => (false, w@),
        }
    }
}

/// A run that may be replaced: a run of non-separators, all of them ASCII.
pub open spec fn replaceable(run: Seq<char>) -> bool {
    &&& run.len() > 0
    &&& !separator(run[0])
    &&& forall|k: int| 0 <= k < run.len() ==> (#[trigger] run[k] as u32) < 128
}

/// What becomes of a replaceable run when the replacement function answers `o`.
pub open spec fn outcome(run: Seq<char>, o: Option<Seq<char>>) -> (bool, Seq<char>) {
    match o {
        Some(w) => (true, w),
        None => (false, run),
    }
}

pub open spec fn opt_view(o: Option<String>) -> Option<Seq<char>> {
    match o {
        Some(w) => Some(w@),
        None => None,
    }
}

pub open spec fn text_runs(s: Seq<char>) -> Seq<Seq<char>> {
    runs(s, separator_key())
}

pub open spec fn seg_views(v: Seq<Replacement>) -> Seq<(bool, Seq<char>)> {
    v.map_values(|r: Replacement| r@)
}

/// The texts of the segments, put together.
pub open spec fn joined(v: Seq<(bool, Seq<char>)>) -> Seq<char> {
    concat(v.map_values(|x: (bool, Seq<char>)| x.1))
}

/// `seg` is what becomes of `run` for some answer of `f` to it.
pub open spec fn answered<F: Fn(&str) -> Option<String>>(
    f: F,
    run: Seq<char>,
    seg: (bool, Seq<char>),
) -> bool {
    exists|w: &str, o: Option<String>|
        w@ == run && f.ensures((w,), o) && seg == outcome(run, opt_view(o))
}

fn is_ascii_run(w: &Vec<char>) -> (r: bool)
    ensures
        r == forall|k: int| 0 <= k < w@.len() ==> (#[trigger] w@[k] as u32) < 128,
{
    let mut i: usize = 0;
    while i < w.len()
        invariant
            i <= w.len(),
            forall|k: int| 0 <= k < i ==> (#[trigger] w@[k] as u32) < 128,
        decreases w.len() - i,
    {
        if w[i] as u32 >= 128 {
            return false;
        }
        i = i + 1;
    }
    true
}

/// Splits `s` into maximal runs of separators (ASCII punctuation, whitespace)
/// and of other characters; each replaceable run is handed to `replace_fn`,
/// and is replaced by what it returns, or kept when it returns `None`. The
/// other runs are kept.
pub fn replace_words<F: Fn(&str) -> Option<String>>(s: &str, replace_fn: F) -> (r: Vec<
    Replacement,
>)
    requires
        forall|w: &str| #[trigger] replace_fn.requires((w,)),
    ensures
        r.len() == text_runs(s@).len(),
        forall|i: int|
            0 <= i < r.len() && !replaceable(text_runs(s@)[i]) ==> #[trigger] r[i]@ == (
                false,
                text_runs(s@)[i],
            ),
        forall|i: int|
            0 <= i < r.len() && replaceable(text_runs(s@)[i]) ==> answered(
                replace_fn,
                text_runs(s@)[i],
                #[trigger] r[i]@,
            ),
{
    let chars = crate::text::chars_of(s);
    let parts = split_runs(&chars, crate::text::Class::Separator);
    let ghost rs = views(parts@);
    proof {
        lemma_runs(s@, separator_key());
    }
    let mut out: Vec<Replacement> = Vec::new();
    let mut i: usize = 0;
    while i < parts.len()
        invariant
            forall|w: &str| #[trigger] replace_fn.requires((w,)),
            rs == views(parts@),
            rs == text_runs(s@),
            i <= parts.len(),
            out.len() == i,
            forall|k: int| 0 <= k < rs.len() ==> #[trigger] rs[k].len() > 0,
            forall|k: int| 0 <= k < i && !replaceable(rs[k]) ==> #[trigger] out[k]@ == (false, rs[k]),
            forall|k: int|
                0 <= k < i && replaceable(rs[k]) ==> answered(replace_fn, rs[k], #[trigger] out[k]@),
        decreases parts.len() - i,
    {
        let part = &parts[i];
        assert(part@ == rs[i as int]);
        let word = string_from_chars(part);
        let is_word = !(crate::text::is_punct(part[0]) || crate::text::is_space(part[0]));
        if is_word && is_ascii_run(part) {
            let w = word.as_str();
            let o = replace_fn(w);
            let rep = match o {
                Some(x) => Replacement::Replace(x),
                None => Replacement::Keep(string_from_chars(part)),
            };
            out.push(rep);
            assert(out[i as int]@ == outcome(w@, opt_view(o)));
            assert(answered(replace_fn, rs[i as int], out[i as int]@));
        } else {
            out.push(Replacement::Keep(word));
        }
        i = i + 1;
    }
    out
}

pub open spec fn entry_view(e: (String, Pronounce, u64)) -> (Seq<char>, Seq<Phone>, u64) {
    (e.0@, e.1.phones(), e.2)
}

/// Among the first `k` entries with weight at least `star`, the one nearest to
/// `p`, with its distance; the first one listed wins a tie.
pub open spec fn best(
    entries: Seq<(Seq<char>, Seq<Phone>, u64)>,
    p: Seq<Phone>,
    star: u64,
    k: nat,
) -> Option<(nat, int)>
    decreases k,
{
    if k == 0 {
        None
    } else {
        let b = best(entries, p, star, (k - 1) as nat);
        let e = entries[k - 1];
        if e.2 < star {
            b
        } else {
            let d = distance_spec(e.1, p);
            match b {
                Some((bd, bi)) => if d < bd {
                    Some((d, k - 1))
                } else {
                    b
                },
                None => Some((d, k - 1)),
            }
        }
    }
}

/// Substitutes words of a text with the nearest-sounding words of a vocabulary.
pub struct Replacer {
    words: Vec<(String, Pronounce, u64)>,
    builder: PronounceBuilder,
}

impl Replacer {
    /// The vocabulary: each word with its phones and its weight.
    pub closed spec fn entries(&self) -> Seq<(Seq<char>, Seq<Phone>, u64)> {
        self.words@.map_values(|e: (String, Pronounce, u64)| entry_view(e))
    }

    pub closed spec fn builder(&self) -> PronounceBuilder {
        self.builder
    }

    pub closed spec fn wf(&self) -> bool {
        &&& self.builder.wf()
        &&& forall|k: int| 0 <= k < self.words@.len() ==> (#[trigger] self.words@[k]).1.wf()
    }

    /// The vocabulary word that replaces `run`: the nearest entry of weight at
    /// least `star`, if it is nearer than `threshold`.
    pub open spec fn choice(&self, run: Seq<char>, threshold: u64, star: u64) -> Option<
        Seq<char>,
    > {
        let p = self.builder().word_phones(run);
        match best(self.entries(), p, star, self.entries().len()) {
            Some((d, i)) => if d < threshold {
                Some(self.entries()[i].0)
            } else {
                None
            },
            None => None,
        }
    }

    pub open spec fn run_outcome(&self, run: Seq<char>, threshold: u64, star: u64) -> (
        bool,
        Seq<char>,
    ) {
        if replaceable(run) {
            outcome(run, self.choice(run, threshold, star))
        } else {
            (false, run)
        }
    }

    /// The outcome for each run of `s`, in order.
    pub open spec fn replace_spec(&self, s: Seq<char>, threshold: u64, star: u64) -> Seq<
        (bool, Seq<char>),
    > {
        text_runs(s).map_values(|run: Seq<char>| self.run_outcome(run, threshold, star))
    }

    /// Builds the vocabulary from `(word, code string, weight)` triples; `None`
    /// if a code string holds a code that neither chart has.
    pub fn new(words: Vec<(String, String, u64)>, builder: PronounceBuilder) -> (r: Option<
        Replacer,
    >)
        requires
            builder.wf(),
        ensures
            r is None <==> exists|k: int|
                0 <= k < words@.len() && (#[trigger] builder.phones_spec(codes(words@[k].1@)))
                    is None,
            r is Some ==> r->0.wf() && r->0.builder() == builder && r->0.entries().len()
                == words@.len(),
            r is Some ==> forall|k: int|
                0 <= k < words@.len() ==> Some((#[trigger] r->0.entries()[k]).1) == builder.phones_spec(
                    codes(words@[k].1@),
                ) && r->0.entries()[k].0 == words@[k].0@ && r->0.entries()[k].2 == words@[k].2,
    {
        let mut out: Vec<(String, Pronounce, u64)> = Vec::new();
        let mut i: usize = 0;
        while i < words.len()
            invariant
                builder.wf(),
                i <= words.len(),
                out.len() == i,
                forall|k: int| 0 <= k < i ==> (#[trigger] out@[k]).1.wf(),
                forall|k: int|
                    0 <= k < i ==> Some((#[trigger] out@[k]).1.phones()) == builder.phones_spec(
                        codes(words@[k].1@),
                    ) && out@[k].0@ == words@[k].0@ && out@[k].2 == words@[k].2,
                forall|k: int|
                    0 <= k < i ==> (#[trigger] builder.phones_spec(codes(words@[k].1@))) is Some,
            decreases words.len() - i,
        {
            match builder.pronounce_from_arpabet(words[i].1.as_str()) {
                Some(p) => {
                    out.push((words[i].0.clone(), p, words[i].2));
                },
                None => {
                    return None;
                },
            }
            i = i + 1;
        }
        let r = Replacer { words: out, builder };
        assert forall|k: int| 0 <= k < words@.len() implies Some(
            (#[trigger] r.entries()[k]).1,
        ) == builder.phones_spec(codes(words@[k].1@)) && r.entries()[k].0 == words@[k].0@
            && r.entries()[k].2 == words@[k].2 by {
            assert(r.entries()[k] == entry_view(r.words@[k]));
        }
        Some(r)
    }

    /// The vocabulary word that replaces `word`, if any; see `choice`.
    pub fn best_match(&self, word: &str, threshold: u64, star_threshold: u32) -> (r: Option<
        String,
    >)
        requires
            self.wf(),
        ensures
            opt_view(r) == self.choice(word@, threshold, star_threshold as u64),
    {
        let pronounce = self.builder.pronounce(word);
        let ghost entries = self.entries();
        let ghost p = pronounce.phones();
        let mut found: Option<(u64, usize)> = None;
        let mut i: usize = 0;
        while i < self.words.len()
            invariant
                self.wf(),
                pronounce.wf(),
                entries == self.entries(),
                p == pronounce.phones(),
                p == self.builder().word_phones(word@),
                i <= self.words.len(),
                match found {
                    Some((d, k)) => best(entries, p, star_threshold as u64, i as nat) == Some(
                        (d as nat, k as int),
                    ) && k < i,
                    None => best(entries, p, star_threshold as u64, i as nat) is None,
                },
            decreases self.words.len() - i,
        {
            let other = &self.words[i];
            assert(entries[i as int] == entry_view(self.words@[i as int]));
            if other.2 >= star_threshold as u64 {
                let d = other.1.distance(&pronounce);
                match found {
                    Some((bd, _)) => {
                        if d < bd {
                            found = Some((d, i));
                        }
                    },
                    None => {
                        found = Some((d, i));
                    },
                }
            }
            i = i + 1;
        }
        match found {
            Some((d, k)) => {
                if d < threshold {
                    assert(entries[k as int] == entry_view(self.words@[k as int]));
                    Some(self.words[k].0.clone())
                } else {
                    None
                }
            },
            None => None,
        }
    }

    /// The runs of `s`, each replaced by its vocabulary word or kept.
    pub fn replace(&self, s: &str, threshold: u64, star_threshold: u32) -> (r: Vec<Replacement>)
        requires
            self.wf(),
        ensures
            seg_views(r@) == self.replace_spec(s@, threshold, star_threshold as u64),
    {
        let f = |word: &str| -> (o: Option<String>)
            requires
                self.wf(),
            ensures
                opt_view(o) == self.choice(word@, threshold, star_threshold as u64),
            { self.best_match(word, threshold, star_threshold) };
        let r = replace_words(s, f);
        proof {
            let rs = text_runs(s@);
            assert forall|i: int| 0 <= i < r.len() implies #[trigger] r@[i]@ == self.run_outcome(
                rs[i],
                threshold,
                star_threshold as u64,
            ) by {
                if replaceable(rs[i]) {
                    assert(answered(f, rs[i], r[i]@));
                    let (w, o) = choose|w: &str, o: Option<String>|
                        w@ == rs[i] && f.ensures((w,), o) && r[i]@ == outcome(rs[i], opt_view(o));
                }
            }
            assert(seg_views(r@) =~= self.replace_spec(s@, threshold, star_threshold as u64));
        }
        r
    }
}

/// Adjacent segments of the same kind merged into one, their texts joined.
pub open spec fn coalesce_spec(v: Seq<(bool, Seq<char>)>) -> Seq<(bool, Seq<char>)>
    decreases v.len(),
{
    if v.len() == 0 {
        seq![]
    } else {
        let c = coalesce_spec(v.drop_last());
        let x = v.last();
        if c.len() > 0 && c.last().0 == x.0 {
            c.update(c.len() - 1, (x.0, c.last().1 + x.1))
        } else {
            c.push(x)
        }
    }
}

/// A merged segment of output: its text, and whether it was replaced.
pub struct JsReplacement {
    pub word: String,
    pub replace: bool,
}

impl JsReplacement {
    pub open spec fn view(&self) -> (bool, Seq<char>) {
        (self.replace, self.word@)
    }
}

pub open spec fn js_views(v: Seq<JsReplacement>) -> Seq<(bool, Seq<char>)> {
    v.map_values(|r: JsReplacement| r@)
}

/// Merges adjacent segments that were both replaced or both kept.
pub fn coalesce(parts: &Vec<Replacement>) -> (r: Vec<JsReplacement>)
    ensures
        js_views(r@) == coalesce_spec(seg_views(parts@)),
{
    let ghost v = seg_views(parts@);
    let mut out: Vec<JsReplacement> = Vec::new();
    let mut cur = String::new();
    let mut flag = false;
    let mut i: usize = 0;
    while i < parts.len()
        invariant
            v == seg_views(parts@),
            i <= parts.len(),
            i == 0 ==> out@.len() == 0,
            i > 0 ==> js_views(out@).push((flag, cur@)) == coalesce_spec(v.take(i as int)),
        decreases parts.len() - i,
    {
        let ghost t = v.take(i + 1);
        assert(t.drop_last() =~= v.take(i as int));
        let (replace, word) = match &parts[i] {
            Replacement::Replace(w) => (true, w),
            Replacement::Keep(w) => (false, w),
        };
        assert((replace, word@) == v[i as int]);
        if i > 0 && flag == replace {
            let ghost before = js_views(out@).push((flag, cur@));
            cur.append(word.as_str());
            assert(js_views(out@).push((flag, cur@)) =~= before.update(
                before.len() - 1,
                (replace, before.last().1 + word@),
            ));
        } else {
            if i > 0 {
                out.push(JsReplacement { word: cur, replace: flag });
            }
            cur = word.clone();
            flag = replace;
            assert(js_views(out@).push((flag, cur@)) =~= coalesce_spec(t.drop_last()).push(
                (replace, word@),
            ));
        }
        i = i + 1;
    }
    assert(v.take(parts.len() as int) =~= v);
    if parts.len() > 0 {
        out.push(JsReplacement { word: cur, replace: flag });
    }
    assert(js_views(out@) =~= coalesce_spec(v));
    out
}

/// A replacer whose output merges adjacent kept runs and adjacent replaced runs.
pub struct FrameworkReplacer {
    rep: Replacer,
}

impl FrameworkReplacer {
    pub closed spec fn replacer(&self) -> Replacer {
        self.rep
    }

    pub closed spec fn wf(&self) -> bool {
        self.rep.wf()
    }

    /// See `Replacer::new`.
    pub fn new(words: Vec<(String, String, u64)>, builder: PronounceBuilder) -> (r: Option<
        FrameworkReplacer,
    >)
        requires
            builder.wf(),
        ensures
            r is None <==> exists|k: int|
                0 <= k < words@.len() && (#[trigger] builder.phones_spec(codes(words@[k].1@)))
                    is None,
            r is Some ==> r->0.wf() && r->0.replacer().builder() == builder
                && r->0.replacer().entries().len() == words@.len(),
            r is Some ==> forall|k: int|
                0 <= k < words@.len() ==> Some((#[trigger] r->0.replacer().entries()[k]).1)
                    == builder.phones_spec(codes(words@[k].1@)) && r->0.replacer().entries()[k].0
                    == words@[k].0@ && r->0.replacer().entries()[k].2 == words@[k].2,
    {
        match Replacer::new(words, builder) {
            Some(rep) => Some(FrameworkReplacer { rep }),
            None => None,
        }
    }

    /// The text as segments that alternate between kept and replaced spans.
    pub fn replace(&self, s: &str, threshold: u64, star_threshold: u32) -> (r: Vec<JsReplacement>)
        requires
            self.wf(),
        ensures
            js_views(r@) == coalesce_spec(
                self.replacer().replace_spec(s@, threshold, star_threshold as u64),
            ),
    {
        let parts = self.rep.replace(s, threshold, star_threshold);
        coalesce(&parts)
    }
}

proof fn lemma_all_kept_joined(v: Seq<(bool, Seq<char>)>, rs: Seq<Seq<char>>)
    requires
        v.len() == rs.len(),
        forall|i: int| 0 <= i < v.len() ==> #[trigger] v[i] == (false, rs[i]),
    ensures
        joined(v) == concat(rs),
{
    assert(v.map_values(|x: (bool, Seq<char>)| x.1) =~= rs);
}

/// With a distance threshold of zero nothing is replaced, and the segments put
/// together give back the text: no distance is below zero.
pub proof fn lemma_zero_threshold_keeps_text(r: Replacer, s: Seq<char>, star: u64)
    ensures
        forall|i: int|
            0 <= i < r.replace_spec(s, 0, star).len() ==> !(#[trigger] r.replace_spec(
                s,
                0,
                star,
            )[i]).0,
        joined(r.replace_spec(s, 0, star)) == s,
{
    lemma_runs(s, separator_key());
    let v = r.replace_spec(s, 0, star);
    let rs = text_runs(s);
    assert forall|i: int| 0 <= i < v.len() implies #[trigger] v[i] == (false, rs[i]) by {
        assert(r.choice(rs[i], 0, star) is None);
    }
    lemma_all_kept_joined(v, rs);
}

/// A text whose runs are all separators or hold a non-ASCII character comes
/// back unchanged, whatever the thresholds.
pub proof fn lemma_pass_through(r: Replacer, s: Seq<char>, threshold: u64, star: u64)
    requires
        forall|i: int| 0 <= i < text_runs(s).len() ==> !replaceable(#[trigger] text_runs(s)[i]),
    ensures
        forall|i: int|
            0 <= i < r.replace_spec(s, threshold, star).len() ==> !(#[trigger] r.replace_spec(
                s,
                threshold,
                star,
            )[i]).0,
        joined(r.replace_spec(s, threshold, star)) == s,
{
    lemma_runs(s, separator_key());
    let v = r.replace_spec(s, threshold, star);
    let rs = text_runs(s);
    assert forall|i: int| 0 <= i < v.len() implies #[trigger] v[i] == (false, rs[i]) by {
        assert(!replaceable(rs[i]));
    }
    lemma_all_kept_joined(v, rs);
}

proof fn lemma_best_monotonic(
    entries: Seq<(Seq<char>, Seq<Phone>, u64)>,
    p: Seq<Phone>,
    star_1: u64,
    star_2: u64,
    k: nat,
)
    requires
        star_1 <= star_2,
        k <= entries.len(),
    ensures
        best(entries, p, star_2, k) matches Some((d_2, i_2)) ==> best(entries, p, star_1, k) matches Some((d_1, i_1)) && d_1 <= d_2,
    decreases k,
{
    if k > 0 {
        lemma_best_monotonic(entries, p, star_1, star_2, (k - 1) as nat);
    }
}

/// Raising the weight threshold never makes a run replaced that was kept at
/// a lower one: the candidates only shrink.
pub proof fn lemma_weight_monotonic(
    r: Replacer,
    s: Seq<char>,
    threshold: u64,
    star_1: u64,
    star_2: u64,
)
    requires
        star_1 <= star_2,
    ensures
        r.replace_spec(s, threshold, star_1).len() == r.replace_spec(s, threshold, star_2).len(),
        forall|i: int|
            0 <= i < r.replace_spec(s, threshold, star_2).len() && (#[trigger] r.replace_spec(
                s,
                threshold,
                star_2,
            )[i]).0 ==> r.replace_spec(s, threshold, star_1)[i].0,
{
    let rs = text_runs(s);
    assert forall|i: int|
        0 <= i < r.replace_spec(s, threshold, star_2).len() && (#[trigger] r.replace_spec(
            s,
            threshold,
            star_2,
        )[i]).0 implies r.replace_spec(s, threshold, star_1)[i].0 by {
        let p = r.builder().word_phones(rs[i]);
        lemma_best_monotonic(r.entries(), p, star_1, star_2, r.entries().len());
    }
}

/// Coalescing keeps the text: the merged segments put together give what the
/// segments gave, and no two neighbours are of the same kind.
pub proof fn lemma_coalesce(v: Seq<(bool, Seq<char>)>)
    ensures
        joined(coalesce_spec(v)) == joined(v),
        forall|i: int|
            0 < i < coalesce_spec(v).len() ==> (#[trigger] coalesce_spec(v)[i]).0 != coalesce_spec(
                v,
            )[i - 1].0,
        coalesce_spec(v).len() <= v.len(),
        v.len() > 0 ==> coalesce_spec(v).len() > 0 && coalesce_spec(v).last().0 == v.last().0,
    decreases v.len(),
{
    if v.len() == 0 {
        assert(v.map_values(|x: (bool, Seq<char>)| x.1) =~= Seq::<Seq<char>>::empty());
        assert(coalesce_spec(v).map_values(|x: (bool, Seq<char>)| x.1) =~= Seq::<
            Seq<char>,
        >::empty());
    } else {
        let p = v.drop_last();
        lemma_coalesce(p);
        let c = coalesce_spec(p);
        let x = v.last();
        let m = v.map_values(|x: (bool, Seq<char>)| x.1);
        assert(m.drop_last() =~= p.map_values(|x: (bool, Seq<char>)| x.1));
        let cm = c.map_values(|x: (bool, Seq<char>)| x.1);
        let r = coalesce_spec(v);
        let rm = r.map_values(|x: (bool, Seq<char>)| x.1);
        if c.len() > 0 && c.last().0 == x.0 {
            assert(rm.drop_last() =~= cm.drop_last());
            assert(concat(cm) == concat(cm.drop_last()) + cm.last());
            assert(concat(rm) == concat(cm.drop_last()) + (c.last().1 + x.1));
            assert(concat(rm) =~= concat(cm) + x.1);
        } else {
            assert(rm.drop_last() =~= cm);
            assert(concat(rm) == concat(cm) + x.1);
        }
    }
}

} // verus!
