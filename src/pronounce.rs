use vstd::prelude::*;

use crate::phone::{Phone, phone_dist, lemma_phone_dist_symmetric, lemma_phone_dist_self, SCALE};
use crate::runs::{runs, runs_props, lemma_runs};

verus! {

pub open spec fn vowel_key() -> spec_fn(Phone) -> bool {
    |p: Phone| p.vowel()
}

/// Number of vowels, which is the number of syllables.
pub open spec fn vowel_count(s: Seq<Phone>) -> nat
    decreases s.len(),
{
    if s.len() == 0 {
        0
    } else {
        vowel_count(s.drop_last()) + if s.last().vowel() {
            1nat
        } else {
            0nat
        }
    }
}

pub open spec fn all_wf(s: Seq<Phone>) -> bool {
    forall|k: int| 0 <= k < s.len() ==> (#[trigger] s[k]).wf()
}

/// No two vowels stand next to each other.
pub open spec fn no_adjacent_vowels(s: Seq<Phone>) -> bool {
    forall|k: int| 0 <= k < s.len() - 1 ==> !(#[trigger] s[k].vowel() && s[k + 1].vowel())
}

/// `s` with a silent placeholder between each two adjacent vowels.
pub open spec fn spaced(s: Seq<Phone>) -> Seq<Phone>
    decreases s.len(),
{
    if s.len() == 0 {
        seq![]
    } else {
        let m = spaced(s.drop_last());
        if s.len() >= 2 && s[s.len() - 2].vowel() && s.last().vowel() {
            m.push(Phone::Silent).push(s.last())
        } else {
            m.push(s.last())
        }
    }
}

/// The normalized form: vowels spaced apart, and a silent placeholder before
/// a leading vowel and after a trailing one.
pub open spec fn normal(s: Seq<Phone>) -> Seq<Phone> {
    let head: Seq<Phone> = if s.len() > 0 && s[0].vowel() {
        seq![Phone::Silent]
    } else {
        seq![]
    };
    let tail: Seq<Phone> = if s.len() > 0 && s.last().vowel() {
        seq![Phone::Silent]
    } else {
        seq![]
    };
    head + spaced(s) + tail
}

/// The runs of vowels and of non-vowels of the normalized form.
pub open spec fn grouped(s: Seq<Phone>) -> Seq<Seq<Phone>> {
    runs(normal(s), vowel_key())
}

/// Sum of the first `k` cyclic comparisons between groups `g` and `h`.
pub open spec fn pair_sum(g: Seq<Phone>, h: Seq<Phone>, k: nat) -> nat
    decreases k,
{
    if k == 0 || g.len() == 0 || h.len() == 0 {
        0
    } else {
        pair_sum(g, h, (k - 1) as nat) + phone_dist(
            g[(k - 1) as int % g.len() as int],
            h[(k - 1) as int % h.len() as int],
        )
    }
}

/// How many cyclic comparisons two groups get: their product, at most 32.
pub open spec fn comparisons(g: Seq<Phone>, h: Seq<Phone>) -> nat {
    let n = g.len() * h.len();
    if n < 32 {
        n
    } else {
        32
    }
}

/// Mean comparison distance, scaled by the ratio of the longer group to the shorter.
pub open spec fn group_cost(g: Seq<Phone>, h: Seq<Phone>) -> nat {
    let t = comparisons(g, h);
    let long = if g.len() >= h.len() {
        g.len()
    } else {
        h.len()
    };
    let short = if g.len() >= h.len() {
        h.len()
    } else {
        g.len()
    };
    if t == 0 {
        0
    } else {
        pair_sum(g, h, t) * long / (t * short)
    }
}

/// Sum of the costs of the first `n` pairs of corresponding groups.
pub open spec fn groups_cost(a: Seq<Seq<Phone>>, b: Seq<Seq<Phone>>, n: nat) -> nat
    decreases n,
{
    if n == 0 {
        0
    } else {
        groups_cost(a, b, (n - 1) as nat) + group_cost(a[n - 1], b[n - 1])
    }
}

/// The largest distance; it also stands for "never a match".
pub open spec fn saturate(x: nat) -> nat {
    if x > u64::MAX {
        u64::MAX as nat
    } else {
        x
    }
}

/// Distance between two pronunciations: the maximum when the syllable counts
/// differ or are both zero, else the sum of the group costs, capped at the maximum.
pub open spec fn distance_spec(a: Seq<Phone>, b: Seq<Phone>) -> nat {
    if vowel_count(a) != vowel_count(b) || vowel_count(a) == 0 {
        u64::MAX as nat
    } else {
        let ga = grouped(a);
        let gb = grouped(b);
        let n = if ga.len() <= gb.len() {
            ga.len()
        } else {
            gb.len()
        };
        saturate(groups_cost(ga, gb, n))
    }
}

proof fn lemma_vowel_count_add(a: Seq<Phone>, b: Seq<Phone>)
    ensures
        vowel_count(a + b) == vowel_count(a) + vowel_count(b),
    decreases b.len(),
{
    if b.len() == 0 {
        assert(a + b =~= a);
    } else {
        lemma_vowel_count_add(a, b.drop_last());
        assert((a + b).drop_last() =~= a + b.drop_last());
    }
}

proof fn lemma_no_adjacent_add(a: Seq<Phone>, b: Seq<Phone>)
    requires
        no_adjacent_vowels(a),
        no_adjacent_vowels(b),
        a.len() > 0 && b.len() > 0 ==> !(a.last().vowel() && b[0].vowel()),
    ensures
        no_adjacent_vowels(a + b),
{
    let t = a + b;
    assert forall|k: int| 0 <= k < t.len() - 1 implies !(#[trigger] t[k].vowel() && t[k
        + 1].vowel()) by {
        if k < a.len() - 1 {
            assert(t[k] == a[k] && t[k + 1] == a[k + 1]);
        } else if k == a.len() - 1 {
            assert(t[k] == a.last() && t[k + 1] == b[0]);
        } else {
            assert(t[k] == b[k - a.len()] && t[k + 1] == b[k - a.len() + 1]);
        }
    }
}

proof fn lemma_vowel_count_silent()
    ensures
        vowel_count(seq![]) == 0,
        vowel_count(seq![Phone::Silent]) == 0,
{
    assert(seq![Phone::Silent].drop_last() =~= Seq::<Phone>::empty());
}

proof fn lemma_spaced(s: Seq<Phone>)
    ensures
        s.len() > 0 ==> spaced(s).len() > 0 && spaced(s)[0] == s[0] && spaced(s).last()
            == s.last(),
        vowel_count(spaced(s)) == vowel_count(s),
        no_adjacent_vowels(spaced(s)),
        all_wf(s) ==> all_wf(spaced(s)),
    decreases s.len(),
{
    if s.len() > 0 {
        let p = s.drop_last();
        let m = spaced(p);
        let x = s.last();
        lemma_spaced(p);
        if all_wf(s) {
            assert(all_wf(p)) by {
                assert forall|k: int| 0 <= k < p.len() implies (#[trigger] p[k]).wf() by {
                    assert(p[k] == s[k]);
                }
            }
        }
        if s.len() >= 2 && s[s.len() - 2].vowel() && x.vowel() {
            let m1 = m.push(Phone::Silent);
            let t = m1.push(x);
            assert(t.drop_last() =~= m1);
            assert(m1.drop_last() =~= m);
            assert(m1.last() == Phone::Silent);
            assert(vowel_count(m1) == vowel_count(m));
            assert(vowel_count(t) == vowel_count(m) + 1);
            lemma_no_adjacent_add(m, seq![Phone::Silent, x]);
            assert(m + seq![Phone::Silent, x] =~= t);
        } else {
            let t = m.push(x);
            assert(t.drop_last() =~= m);
            assert(vowel_count(t) == vowel_count(m) + if x.vowel() {
                1nat
            } else {
                0nat
            });
            if s.len() >= 2 {
                assert(p.last() == s[s.len() - 2]);
            }
            lemma_no_adjacent_add(m, seq![x]);
            assert(m + seq![x] =~= t);
        }
    }
}

/// Starts and ends with a non-vowel and never has two vowels side by side.
pub open spec fn alternating(t: Seq<Phone>) -> bool {
    &&& t.len() > 0
    &&& !t[0].vowel()
    &&& !t.last().vowel()
    &&& no_adjacent_vowels(t)
}

proof fn lemma_normal(s: Seq<Phone>)
    ensures
        vowel_count(normal(s)) == vowel_count(s),
        all_wf(s) ==> all_wf(normal(s)),
        vowel_count(s) > 0 ==> alternating(normal(s)),
{
    lemma_spaced(s);
    let m = spaced(s);
    let head: Seq<Phone> = if s.len() > 0 && s[0].vowel() {
        seq![Phone::Silent]
    } else {
        seq![]
    };
    let tail: Seq<Phone> = if s.len() > 0 && s.last().vowel() {
        seq![Phone::Silent]
    } else {
        seq![]
    };
    lemma_vowel_count_silent();
    lemma_vowel_count_add(head, m);
    lemma_vowel_count_add(head + m, tail);
    let t = head + m + tail;
    if all_wf(s) {
        assert forall|k: int| 0 <= k < t.len() implies (#[trigger] t[k]).wf() by {
            if k >= head.len() && k < head.len() + m.len() {
                assert(t[k] == m[k - head.len()]);
            }
        }
    }
    if vowel_count(s) > 0 {
        assert(s.len() > 0);
        lemma_no_adjacent_add(head, m);
        lemma_no_adjacent_add(head + m, tail);
        if head.len() == 0 {
            assert(t[0] == m[0]);
        }
        if tail.len() == 0 {
            assert(t.last() == m.last());
        }
    }
}

/// The runs of a prefix of an alternating sequence alternate between
/// non-vowels (even places) and vowels (odd places).
proof fn lemma_alternating_prefix(t: Seq<Phone>, n: nat)
    requires
        t.len() > 0,
        !t[0].vowel(),
        no_adjacent_vowels(t),
        all_wf(t),
        1 <= n <= t.len(),
    ensures
        ({
            let r = runs(t.take(n as int), vowel_key());
            &&& r.len() == 2 * vowel_count(t.take(n as int)) + if t[n - 1].vowel() {
                0nat
            } else {
                1nat
            }
            &&& forall|i: int, j: int|
                0 <= i < r.len() && 0 <= j < r[i].len() ==> (#[trigger] r[i][j]).vowel() == (i % 2
                    == 1) && r[i][j].wf()
        }),
    decreases n,
{
    let key = vowel_key();
    let s = t.take(n as int);
    let r = runs(s, key);
    lemma_runs(s, key);
    if n == 1 {
        assert(s.drop_last() =~= Seq::<Phone>::empty());
        assert(runs(s.drop_last(), key) =~= Seq::<Seq<Phone>>::empty());
        assert(s.last() == t[0]);
        assert(r =~= seq![seq![t[0]]]);
        assert(vowel_count(s) == vowel_count(s.drop_last()));
    } else {
        lemma_alternating_prefix(t, (n - 1) as nat);
        let p = t.take(n - 1);
        assert(s.drop_last() =~= p);
        let r0 = runs(p, key);
        let x = t[n - 1];
        assert(s.last() == x);
        assert(s[s.len() - 2] == t[n - 2]);
        assert(x.wf());
        if t[n - 2].vowel() == x.vowel() {
            assert(!x.vowel());
            assert(r == r0.update(r0.len() - 1, r0.last().push(x)));
            assert forall|i: int, j: int|
                0 <= i < r.len() && 0 <= j < r[i].len() implies (#[trigger] r[i][j]).vowel() == (i
                % 2 == 1) && r[i][j].wf() by {
                if i < r.len() - 1 {
                    assert(r[i] == r0[i]);
                } else if j < r0.last().len() {
                    assert(r[i][j] == r0[i][j]);
                }
            }
        } else {
            assert(r == r0.push(seq![x]));
            assert forall|i: int, j: int|
                0 <= i < r.len() && 0 <= j < r[i].len() implies (#[trigger] r[i][j]).vowel() == (i
                % 2 == 1) && r[i][j].wf() by {
                if i < r.len() - 1 {
                    assert(r[i] == r0[i]);
                }
            }
        }
    }
}

/// The groups of a pronunciation with at least one vowel: `2 * v + 1` of them,
/// non-empty, the even ones without vowels and the odd ones all vowels.
pub proof fn lemma_grouped_shape(s: Seq<Phone>)
    requires
        vowel_count(s) > 0,
        all_wf(s),
    ensures
        grouped(s).len() == 2 * vowel_count(s) + 1,
        forall|i: int| 0 <= i < grouped(s).len() ==> #[trigger] grouped(s)[i].len() > 0,
        forall|i: int, j: int|
            0 <= i < grouped(s).len() && 0 <= j < grouped(s)[i].len() ==> (#[trigger] grouped(
                s,
            )[i][j]).vowel() == (i % 2 == 1) && grouped(s)[i][j].wf(),
{
    lemma_normal(s);
    let t = normal(s);
    lemma_alternating_prefix(t, t.len());
    assert(t.take(t.len() as int) =~= t);
    lemma_runs(t, vowel_key());
}

pub open spec fn views(v: Seq<Vec<Phone>>) -> Seq<Seq<Phone>> {
    v.map_values(|x: Vec<Phone>| x@)
}

/// A word's pronunciation: its phones, and the number of syllables (vowels).
pub struct Pronounce {
    phones: Vec<Phone>,
    syllables: usize,
}

impl Pronounce {
    pub closed spec fn phones(&self) -> Seq<Phone> {
        self.phones@
    }

    pub closed spec fn syllable_count(&self) -> nat {
        self.syllables as nat
    }

    pub open spec fn wf(&self) -> bool {
        &&& self.syllable_count() == vowel_count(self.phones())
        &&& all_wf(self.phones())
    }

    pub fn new(phones: Vec<Phone>) -> (r: Pronounce)
        requires
            all_wf(phones@),
        ensures
            r.wf(),
            r.phones() == phones@,
    {
        let mut syllables: usize = 0;
        let mut i: usize = 0;
        while i < phones.len()
            invariant
                i <= phones.len(),
                syllables == vowel_count(phones@.take(i as int)),
                syllables <= i,
            decreases phones.len() - i,
        {
            assert(phones@.take(i + 1).drop_last() =~= phones@.take(i as int));
            if phones[i].is_vowel() {
                syllables = syllables + 1;
            }
            i = i + 1;
        }
        assert(phones@.take(i as int) =~= phones@);
        Pronounce { phones, syllables }
    }

    /// The pronunciation of an unknown word: no phones, no syllables.
    pub fn empty() -> (r: Pronounce)
        ensures
            r.wf(),
            r.phones() == Seq::<Phone>::empty(),
    {
        Pronounce { phones: Vec::new(), syllables: 0 }
    }

    pub fn syllables(&self) -> (r: usize)
        ensures
            r == self.syllable_count(),
    {
        self.syllables
    }

    /// The normalized form, with the same syllable count.
    pub fn to_normal(&self) -> (r: Pronounce)
        requires
            self.wf(),
        ensures
            r.wf(),
            r.phones() == normal(self.phones()),
            r.syllable_count() == self.syllable_count(),
    {
        let phones = &self.phones;
        let n = phones.len();
        let mut out: Vec<Phone> = Vec::new();
        if n > 0 && phones[0].is_vowel() {
            out.push(Phone::Silent);
        }
        let ghost head = out@;
        let mut i: usize = 0;
        while i < n
            invariant
                n == phones.len(),
                i <= n,
                out@ == head + spaced(phones@.take(i as int)),
            decreases n - i,
        {
            let ghost t = phones@.take(i + 1);
            proof {
                assert(t.drop_last() =~= phones@.take(i as int));
                if i > 0 {
                    assert(t[t.len() - 2] == phones@[i - 1]);
                }
            }
            if i > 0 && phones[i - 1].is_vowel() && phones[i].is_vowel() {
                out.push(Phone::Silent);
            }
            out.push(phones[i]);
            i = i + 1;
            assert(out@ =~= head + spaced(t));
        }
        if n > 0 && phones[n - 1].is_vowel() {
            out.push(Phone::Silent);
        }
        proof {
            assert(phones@.take(n as int) =~= phones@);
            assert(out@ =~= normal(phones@));
            lemma_normal(phones@);
        }
        Pronounce { phones: out, syllables: self.syllables }
    }

    /// The maximal runs of vowels and of non-vowels, in order.
    pub fn get_grouped(&self) -> (r: Vec<Vec<Phone>>)
        ensures
            views(r@) == runs(self.phones(), vowel_key()),
    {
        let phones = &self.phones;
        let n = phones.len();
        let mut out: Vec<Vec<Phone>> = Vec::new();
        let mut cur: Vec<Phone> = Vec::new();
        let mut i: usize = 0;
        while i < n
            invariant
                n == phones.len(),
                i <= n,
                i == 0 ==> out@.len() == 0,
                i > 0 ==> views(out@).push(cur@) == runs(phones@.take(i as int), vowel_key()),
            decreases n - i,
        {
            let ghost t = phones@.take(i + 1);
            proof {
                assert(t.drop_last() =~= phones@.take(i as int));
                if i > 0 {
                    assert(t[t.len() - 2] == phones@[i - 1]);
                }
            }
            let p = phones[i];
            if i > 0 && phones[i - 1].is_vowel() == p.is_vowel() {
                let ghost before = views(out@).push(cur@);
                cur.push(p);
                assert(views(out@).push(cur@) =~= before.update(
                    before.len() - 1,
                    before.last().push(p),
                ));
            } else {
                if i > 0 {
                    out.push(cur);
                }
                cur = Vec::new();
                cur.push(p);
                assert(views(out@).push(cur@) =~= runs(t.drop_last(), vowel_key()).push(seq![p]));
            }
            i = i + 1;
        }
        assert(phones@.take(n as int) =~= phones@);
        if n > 0 {
            out.push(cur);
        }
        assert(views(out@) =~= runs(phones@, vowel_key()));
        out
    }

    /// Distance to another pronunciation; see `distance_spec`.
    pub fn distance(&self, other: &Pronounce) -> (r: u64)
        requires
            self.wf(),
            other.wf(),
        ensures
            r == distance_spec(self.phones(), other.phones()),
    {
        if self.syllables != other.syllables || self.syllables == 0 {
            return u64::MAX;
        }
        let parts = self.to_normal().get_grouped();
        let other_parts = other.to_normal().get_grouped();
        let ghost ga = grouped(self.phones());
        let ghost gb = grouped(other.phones());
        proof {
            lemma_grouped_shape(self.phones());
            lemma_grouped_shape(other.phones());
        }
        let n = parts.len();
        assert(views(parts@) == ga);
        assert(ga.len() == gb.len());
        let mut total: u64 = 0;
        let mut i: usize = 0;
        while i < n
            invariant
                n == parts.len() == other_parts.len() == ga.len() == gb.len(),
                views(parts@) == ga,
                views(other_parts@) == gb,
                i <= n,
                total == saturate(groups_cost(ga, gb, i as nat)),
                forall|k: int| 0 <= k < ga.len() ==> #[trigger] ga[k].len() > 0,
                forall|k: int| 0 <= k < gb.len() ==> #[trigger] gb[k].len() > 0,
                forall|k: int, j: int|
                    0 <= k < ga.len() && 0 <= j < ga[k].len() ==> (#[trigger] ga[k][j]).vowel()
                        == (k % 2 == 1) && ga[k][j].wf(),
                forall|k: int, j: int|
                    0 <= k < gb.len() && 0 <= j < gb[k].len() ==> (#[trigger] gb[k][j]).vowel()
                        == (k % 2 == 1) && gb[k][j].wf(),
            decreases n - i,
        {
            assert(parts@[i as int]@ == ga[i as int]);
            assert(other_parts@[i as int]@ == gb[i as int]);
            let c = group_distance(&parts[i], &other_parts[i]);
            if c > u64::MAX - total {
                total = u64::MAX;
            } else {
                total = total + c;
            }
            i = i + 1;
        }
        total
    }
}

/// Cost of comparing two corresponding groups, capped at the maximum.
fn group_distance(g: &Vec<Phone>, h: &Vec<Phone>) -> (r: u64)
    requires
        g.len() > 0,
        h.len() > 0,
        forall|j: int, k: int|
            0 <= j < g.len() && 0 <= k < h.len() ==> (#[trigger] g[j]).vowel() == (#[trigger] h[
                k]).vowel(),
        all_wf(g@),
        all_wf(h@),
    ensures
        r == saturate(group_cost(g@, h@)),
{
    let lg = g.len();
    let lh = h.len();
    if lg < 32 && lh < 32 {
        assert(lg * lh < 32 * 32 && lg * lh >= 1) by (nonlinear_arith)
            requires
                1 <= lg < 32,
                1 <= lh < 32,
        ;
    }
    let total: usize = if lg >= 32 || lh >= 32 {
        32
    } else if lg * lh < 32 {
        lg * lh
    } else {
        32
    };
    assert(total == comparisons(g@, h@)) by (nonlinear_arith)
        requires
            lg >= 1,
            lh >= 1,
            lg == g@.len(),
            lh == h@.len(),
            total == (if lg >= 32 || lh >= 32 {
                32
            } else if lg * lh < 32 {
                lg * lh
            } else {
                32
            }),
            comparisons(g@, h@) == (if lg * lh < 32 {
                lg * lh
            } else {
                32
            }),
    ;
    let mut sum: u64 = 0;
    let mut j: usize = 0;
    while j < total
        invariant
            total <= 32,
            total >= 1,
            j <= total,
            lg == g.len(),
            lh == h.len(),
            lg > 0,
            lh > 0,
            sum == pair_sum(g@, h@, j as nat),
            sum <= j * 5 * SCALE,
            forall|a: int, b: int|
                0 <= a < g.len() && 0 <= b < h.len() ==> (#[trigger] g[a]).vowel() == (#[trigger] h[
                    b]).vowel(),
            all_wf(g@),
            all_wf(h@),
        decreases total - j,
    {
        let d = g[j % lg].distance(&h[j % lh]);
        sum = sum + d;
        j = j + 1;
    }
    let (long, short) = if lg >= lh {
        (lg, lh)
    } else {
        (lh, lg)
    };
    assert(sum as int * long as int <= 0x1000_0000 * 0x1_0000_0000_0000_0000) by (nonlinear_arith)
        requires
            sum <= 32 * 5 * 1_000_000,
            long <= 0xffff_ffff_ffff_ffff,
    ;
    let num: u128 = sum as u128 * long as u128;
    assert(total as int * short as int <= 32 * 0x1_0000_0000_0000_0000) by (nonlinear_arith)
        requires
            total <= 32,
            short <= 0xffff_ffff_ffff_ffff,
    ;
    let den: u128 = total as u128 * short as u128;
    assert(den > 0) by (nonlinear_arith)
        requires
            total >= 1,
            short >= 1,
            den == total * short,
    ;
    let q = num / den;
    if q > u64::MAX as u128 {
        u64::MAX
    } else {
        q as u64
    }
}

/// A pronunciation with at least one syllable is at distance zero from itself.
pub proof fn lemma_distance_reflexive(p: Seq<Phone>)
    requires
        vowel_count(p) > 0,
    ensures
        distance_spec(p, p) == 0,
{
    let g = grouped(p);
    lemma_groups_cost_self(g, g.len());
}

proof fn lemma_pair_sum_self(g: Seq<Phone>, k: nat)
    ensures
        pair_sum(g, g, k) == 0,
    decreases k,
{
    if k > 0 && g.len() > 0 {
        lemma_pair_sum_self(g, (k - 1) as nat);
        lemma_phone_dist_self(g[(k - 1) as int % g.len() as int]);
    }
}

proof fn lemma_groups_cost_self(a: Seq<Seq<Phone>>, n: nat)
    requires
        n <= a.len(),
    ensures
        groups_cost(a, a, n) == 0,
    decreases n,
{
    if n > 0 {
        lemma_groups_cost_self(a, (n - 1) as nat);
        let g = a[n - 1];
        lemma_pair_sum_self(g, comparisons(g, g));
        let t = comparisons(g, g);
        if t != 0 {
            assert(0 * g.len() / (t * g.len()) == 0) by (nonlinear_arith)
                requires
                    t > 0,
                    g.len() > 0,
            ;
        }
    }
}

proof fn lemma_pair_sum_symmetric(g: Seq<Phone>, h: Seq<Phone>, k: nat)
    ensures
        pair_sum(g, h, k) == pair_sum(h, g, k),
    decreases k,
{
    if k > 0 && g.len() > 0 && h.len() > 0 {
        lemma_pair_sum_symmetric(g, h, (k - 1) as nat);
        lemma_phone_dist_symmetric(
            g[(k - 1) as int % g.len() as int],
            h[(k - 1) as int % h.len() as int],
        );
    }
}

proof fn lemma_group_cost_symmetric(g: Seq<Phone>, h: Seq<Phone>)
    ensures
        group_cost(g, h) == group_cost(h, g),
{
    assert(g.len() * h.len() == h.len() * g.len()) by (nonlinear_arith);
    lemma_pair_sum_symmetric(g, h, comparisons(g, h));
}

proof fn lemma_groups_cost_symmetric(a: Seq<Seq<Phone>>, b: Seq<Seq<Phone>>, n: nat)
    requires
        n <= a.len(),
        n <= b.len(),
    ensures
        groups_cost(a, b, n) == groups_cost(b, a, n),
    decreases n,
{
    if n > 0 {
        lemma_groups_cost_symmetric(a, b, (n - 1) as nat);
        lemma_group_cost_symmetric(a[n - 1], b[n - 1]);
    }
}

/// The distance does not depend on the order of the two pronunciations.
pub proof fn lemma_distance_symmetric(a: Seq<Phone>, b: Seq<Phone>)
    ensures
        distance_spec(a, b) == distance_spec(b, a),
{
    let ga = grouped(a);
    let gb = grouped(b);
    let n = if ga.len() <= gb.len() {
        ga.len()
    } else {
        gb.len()
    };
    lemma_groups_cost_symmetric(ga, gb, n);
}

/// Two pronunciations with different syllable counts, and two unknown words,
/// are at the maximal distance.
pub proof fn lemma_distance_syllable_gate(a: Seq<Phone>, b: Seq<Phone>)
    ensures
        vowel_count(a) != vowel_count(b) ==> distance_spec(a, b) == u64::MAX,
        distance_spec(Seq::<Phone>::empty(), Seq::<Phone>::empty()) == u64::MAX,
{
}

} // verus!
