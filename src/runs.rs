use vstd::prelude::*;

verus! {

/// Splits `s` into maximal runs of adjacent elements on which `key` agrees.
pub open spec fn runs<T>(s: Seq<T>, key: spec_fn(T) -> bool) -> Seq<Seq<T>>
    decreases s.len(),
{
    if s.len() == 0 {
        seq![]
    } else {
        let r = runs(s.drop_last(), key);
        if s.len() >= 2 && key(s[s.len() - 2]) == key(s.last()) {
            r.update(r.len() - 1, r.last().push(s.last()))
        } else {
            r.push(seq![s.last()])
        }
    }
}

/// The pieces of `r` put back together in order.
pub open spec fn concat<T>(r: Seq<Seq<T>>) -> Seq<T>
    decreases r.len(),
{
    if r.len() == 0 {
        seq![]
    } else {
        concat(r.drop_last()) + r.last()
    }
}

/// Every run is non-empty, holds elements of one key only, and differs in key
/// from its neighbour; the runs put together give back `s`.
pub open spec fn runs_props<T>(s: Seq<T>, key: spec_fn(T) -> bool, r: Seq<Seq<T>>) -> bool {
    &&& concat(r) == s
    &&& (s.len() == 0 <==> r.len() == 0)
    &&& forall|i: int| 0 <= i < r.len() ==> #[trigger] r[i].len() > 0
    &&& forall|i: int, j: int|
        0 <= i < r.len() && 0 <= j < r[i].len() ==> key(#[trigger] r[i][j]) == key(r[i][0])
    &&& forall|i: int|
        0 < i < r.len() ==> key(#[trigger] r[i][0]) != key(r[i - 1][0])
    &&& s.len() > 0 ==> r.last().last() == s.last()
}

pub proof fn lemma_runs<T>(s: Seq<T>, key: spec_fn(T) -> bool)
    ensures
        runs_props(s, key, runs(s, key)),
    decreases s.len(),
{
    if s.len() == 0 {
        assert(s =~= seq![]);
    } else {
        let p = s.drop_last();
        lemma_runs(p, key);
        let r0 = runs(p, key);
        let r = runs(s, key);
        if s.len() >= 2 && key(s[s.len() - 2]) == key(s.last()) {
            assert(p.last() == s[s.len() - 2]);
            assert(r0.len() > 0);
            assert(r.drop_last() =~= r0.drop_last());
            assert(r.last() == r0.last().push(s.last()));
            assert(concat(r0) == concat(r0.drop_last()) + r0.last());
            assert(concat(r) == concat(r0.drop_last()) + r0.last().push(s.last()));
            assert(s =~= p.push(s.last()));
            assert(concat(r0.drop_last()) + r0.last().push(s.last()) =~= (concat(r0.drop_last())
                + r0.last()).push(s.last()));
            assert(concat(r) == s);
            assert forall|i: int, j: int|
                0 <= i < r.len() && 0 <= j < r[i].len() implies key(#[trigger] r[i][j]) == key(
                r[i][0],
            ) by {
                if i == r.len() - 1 && j == r[i].len() - 1 && j > 0 {
                    assert(key(r0.last()[j - 1]) == key(r0.last()[0]));
                }
            }
            assert(r.last()[0] == r0.last()[0]);
            assert forall|i: int| 0 < i < r.len() implies key(#[trigger] r[i][0]) != key(
                r[i - 1][0],
            ) by {
                assert(r[i][0] == r0[i][0]);
                assert(r[i - 1][0] == r0[i - 1][0]);
            }
        } else {
            assert(r.drop_last() =~= r0);
            assert(s =~= p.push(s.last()));
            assert(concat(r) == concat(r0) + seq![s.last()]);
            assert(concat(r) =~= s);
            if s.len() >= 2 {
                let last = r0.len() - 1;
                assert(p.last() == s[s.len() - 2]);
                assert(key(r0[last][r0[last].len() - 1]) == key(r0[last][0]));
            }
            assert forall|i: int| 0 < i < r.len() implies key(#[trigger] r[i][0]) != key(
                r[i - 1][0],
            ) by {
                if i < r.len() - 1 {
                    assert(r[i] == r0[i]);
                }
            }
        }
    }
}

} // verus!
