//! Enumeration of the k-element combinations of a sequence.
//!
//! A combination is taken here as a subsequence: the chosen elements keep the
//! order they have in the source.  The enumeration lists first every
//! combination that keeps the source's first element, then every one that
//! drops it, recursively, which is the order nested loops would produce.

use vstd::prelude::*;
use vstd::relations::sorted_by;
use crate::binomial::{binom, lemma_binom_zero};

verus! {

/// All length-k subsequences of s: those keeping s's first element first,
/// then those dropping it.
pub open spec fn combos_spec<T>(s: Seq<T>, k: nat) -> Seq<Seq<T>>
    decreases s.len(), k,
{
    if k == 0 {
        seq![Seq::<T>::empty()]
    } else if s.len() < k {
        Seq::<Seq<T>>::empty()
    } else {
        combos_spec(s.drop_first(), (k - 1) as nat).map_values(|t: Seq<T>| seq![s[0]] + t)
            + combos_spec(s.drop_first(), k)
    }
}

/// Whether t occurs inside s with its order kept.
pub open spec fn is_subseq<T>(t: Seq<T>, s: Seq<T>) -> bool
    decreases s.len(),
{
    if t.len() == 0 {
        true
    } else if s.len() == 0 {
        false
    } else {
        (t[0] == s[0] && is_subseq(t.drop_first(), s.drop_first())) || is_subseq(
            t,
            s.drop_first(),
        )
    }
}

/// A subsequence is never longer than its source.
pub proof fn lemma_subseq_len<T>(t: Seq<T>, s: Seq<T>)
    requires
        is_subseq(t, s),
    ensures
        t.len() <= s.len(),
    decreases s.len(),
{
    if t.len() == 0 {
    } else {
        if t[0] == s[0] && is_subseq(t.drop_first(), s.drop_first()) {
            lemma_subseq_len(t.drop_first(), s.drop_first());
        } else {
            lemma_subseq_len(t, s.drop_first());
        }
    }
}

/// Every element of a subsequence is an element of its source.
pub proof fn lemma_subseq_elems<T>(t: Seq<T>, s: Seq<T>)
    requires
        is_subseq(t, s),
    ensures
        forall|i: int| 0 <= i < t.len() ==> s.contains(#[trigger] t[i]),
    decreases s.len(),
{
    if t.len() == 0 {
    } else {
        if t[0] == s[0] && is_subseq(t.drop_first(), s.drop_first()) {
            lemma_subseq_elems(t.drop_first(), s.drop_first());
            assert forall|i: int| 0 <= i < t.len() implies s.contains(#[trigger] t[i]) by {
                if i == 0 {
                    assert(s[0] == t[0]);
                } else {
                    let x = t[i];
                    assert(t.drop_first()[i - 1] == x);
                    assert(s.drop_first().contains(x));
                    let j = choose|j: int|
                        0 <= j < s.drop_first().len() && s.drop_first()[j] == x;
                    assert(s[j + 1] == x);
                }
            }
        } else {
            lemma_subseq_elems(t, s.drop_first());
            assert forall|i: int| 0 <= i < t.len() implies s.contains(#[trigger] t[i]) by {
                let x = t[i];
                assert(s.drop_first().contains(x));
                let j = choose|j: int| 0 <= j < s.drop_first().len() && s.drop_first()[j] == x;
                assert(s[j + 1] == x);
            }
        }
    }
}

/// A subsequence of a sequence without repeats has no repeats either.
pub proof fn lemma_subseq_no_dup<T>(t: Seq<T>, s: Seq<T>)
    requires
        is_subseq(t, s),
        s.no_duplicates(),
    ensures
        t.no_duplicates(),
    decreases s.len(),
{
    if t.len() == 0 {
    } else {
        assert(s.drop_first().no_duplicates()) by {
            assert forall|i: int, j: int|
                0 <= i < s.drop_first().len() && 0 <= j < s.drop_first().len() && i
                != j implies s.drop_first()[i] != s.drop_first()[j] by {
                assert(s.drop_first()[i] == s[i + 1]);
                assert(s.drop_first()[j] == s[j + 1]);
            }
        }
        if t[0] == s[0] && is_subseq(t.drop_first(), s.drop_first()) {
            lemma_subseq_no_dup(t.drop_first(), s.drop_first());
            lemma_subseq_elems(t.drop_first(), s.drop_first());
            assert forall|a: int, b: int|
                0 <= a < t.len() && 0 <= b < t.len() && a != b implies t[a] != t[b] by {
                if a > 0 && b > 0 {
                    assert(t[a] == t.drop_first()[a - 1]);
                    assert(t[b] == t.drop_first()[b - 1]);
                } else {
                    let o = if a == 0 {
                        b
                    } else {
                        a
                    };
                    assert(t[o] == t.drop_first()[o - 1]);
                    assert(s.drop_first().contains(t[o]));
                    if t[o] == t[0] {
                        let m = choose|m: int|
                            0 <= m < s.drop_first().len() && s.drop_first()[m] == t[o];
                        assert(s[m + 1] == s[0]);
                        assert(false);
                    }
                }
            }
        } else {
            lemma_subseq_no_dup(t, s.drop_first());
        }
    }
}

/// A subsequence of a sorted sequence is sorted the same way.
pub proof fn lemma_subseq_sorted<T>(t: Seq<T>, s: Seq<T>, leq: spec_fn(T, T) -> bool)
    requires
        is_subseq(t, s),
        sorted_by(s, leq),
    ensures
        sorted_by(t, leq),
    decreases s.len(),
{
    if t.len() == 0 {
    } else {
        assert(sorted_by(s.drop_first(), leq)) by {
            assert forall|i: int, j: int|
                0 <= i < j < s.drop_first().len() implies leq(
                s.drop_first()[i],
                s.drop_first()[j],
            ) by {
                assert(s.drop_first()[i] == s[i + 1]);
                assert(s.drop_first()[j] == s[j + 1]);
            }
        }
        if t[0] == s[0] && is_subseq(t.drop_first(), s.drop_first()) {
            lemma_subseq_sorted(t.drop_first(), s.drop_first(), leq);
            lemma_subseq_elems(t.drop_first(), s.drop_first());
            assert forall|i: int, j: int| 0 <= i < j < t.len() implies leq(t[i], t[j]) by {
                if i == 0 {
                    let x = t[j];
                    assert(t.drop_first()[j - 1] == x);
                    assert(s.drop_first().contains(x));
                    let m = choose|m: int|
                        0 <= m < s.drop_first().len() && s.drop_first()[m] == x;
                    assert(s[m + 1] == x);
                    assert(leq(s[0], s[m + 1]));
                } else {
                    assert(t.drop_first()[i - 1] == t[i]);
                    assert(t.drop_first()[j - 1] == t[j]);
                    assert(leq(t.drop_first()[i - 1], t.drop_first()[j - 1]));
                }
            }
        } else {
            lemma_subseq_sorted(t, s.drop_first(), leq);
        }
    }
}

/// Each enumerated combination has length k and occurs inside the source in
/// order.
pub proof fn lemma_combos_elems<T>(s: Seq<T>, k: nat)
    ensures
        forall|i: int|
            0 <= i < combos_spec(s, k).len() ==> (#[trigger] combos_spec(s, k)[i]).len() == k
                && is_subseq(combos_spec(s, k)[i], s),
    decreases s.len(), k,
{
    if k == 0 {
    } else if s.len() < k {
    } else {
        let rest = s.drop_first();
        let kept = combos_spec(rest, (k - 1) as nat).map_values(|t: Seq<T>| seq![s[0]] + t);
        let dropped = combos_spec(rest, k);
        lemma_combos_elems(rest, (k - 1) as nat);
        lemma_combos_elems(rest, k);
        assert forall|i: int|
            0 <= i < combos_spec(s, k).len() implies (#[trigger] combos_spec(s, k)[i]).len() == k
            && is_subseq(combos_spec(s, k)[i], s) by {
            if i < kept.len() {
                let u = combos_spec(rest, (k - 1) as nat)[i];
                assert(combos_spec(s, k)[i] == kept[i]);
                assert(kept[i] == seq![s[0]] + u);
                assert(kept[i].len() == k);
                assert(kept[i][0] == s[0]);
                assert(kept[i].drop_first() =~= u);
                assert(is_subseq(kept[i], s));
            } else {
                let u = dropped[i - kept.len()];
                assert(combos_spec(s, k)[i] == u);
                assert(is_subseq(u, rest));
                assert(u.len() == k);
                assert(is_subseq(u, s));
            }
        }
    }
}

/// Every length-k subsequence occurs in the enumeration: it is complete.
pub proof fn lemma_combos_complete<T>(s: Seq<T>, t: Seq<T>)
    requires
        is_subseq(t, s),
    ensures
        combos_spec(s, t.len()).contains(t),
    decreases s.len(),
{
    let k = t.len();
    if k == 0 {
        assert(t =~= Seq::<T>::empty());
        assert(combos_spec(s, 0)[0] == t);
    } else {
        lemma_subseq_len(t, s);
        let rest = s.drop_first();
        let kept = combos_spec(rest, (k - 1) as nat).map_values(|u: Seq<T>| seq![s[0]] + u);
        let dropped = combos_spec(rest, k);
        assert(combos_spec(s, k) == kept + dropped);
        if t[0] == s[0] && is_subseq(t.drop_first(), rest) {
            lemma_combos_complete(rest, t.drop_first());
            let c1 = combos_spec(rest, (k - 1) as nat);
            let i = choose|i: int| 0 <= i < c1.len() && #[trigger] c1[i] == t.drop_first();
            assert(kept[i] == seq![s[0]] + t.drop_first());
            assert(t =~= seq![s[0]] + t.drop_first());
            assert((kept + dropped)[i] == t);
        } else {
            assert(is_subseq(t, rest));
            lemma_combos_complete(rest, t);
            let i = choose|i: int| 0 <= i < dropped.len() && dropped[i] == t;
            assert((kept + dropped)[kept.len() + i] == t);
        }
    }
}

/// When the source has no repeated elements, no combination is enumerated
/// twice.
pub proof fn lemma_combos_no_dup<T>(s: Seq<T>, k: nat)
    requires
        s.no_duplicates(),
    ensures
        combos_spec(s, k).no_duplicates(),
    decreases s.len(), k,
{
    if k == 0 {
    } else if s.len() < k {
    } else {
        let rest = s.drop_first();
        assert(rest.no_duplicates()) by {
            assert forall|i: int, j: int|
                0 <= i < rest.len() && 0 <= j < rest.len() && i != j implies rest[i]
                != rest[j] by {
                assert(rest[i] == s[i + 1]);
                assert(rest[j] == s[j + 1]);
            }
        }
        lemma_combos_no_dup(rest, (k - 1) as nat);
        lemma_combos_no_dup(rest, k);
        lemma_combos_elems(rest, k);
        let c1 = combos_spec(rest, (k - 1) as nat);
        let kept = c1.map_values(|t: Seq<T>| seq![s[0]] + t);
        let dropped = combos_spec(rest, k);
        assert forall|i: int, j: int|
            0 <= i < combos_spec(s, k).len() && 0 <= j < combos_spec(s, k).len() && i
                != j implies combos_spec(s, k)[i] != combos_spec(s, k)[j] by {
            let a = combos_spec(s, k)[i];
            let b = combos_spec(s, k)[j];
            if i < kept.len() && j < kept.len() {
                if a == b {
                    assert(a.drop_first() =~= c1[i]);
                    assert(b.drop_first() =~= c1[j]);
                    assert(c1[i] == c1[j]);
                    assert(false);
                }
            } else if i >= kept.len() && j >= kept.len() {
                assert(a == dropped[i - kept.len()]);
                assert(b == dropped[j - kept.len()]);
            } else {
                let (ki, di) = if i < kept.len() {
                    (i, j - kept.len())
                } else {
                    (j, i - kept.len())
                };
                let a = kept[ki];
                let b = dropped[di];
                if a == b {
                    assert(a[0] == s[0]);
                    assert(is_subseq(b, rest));
                    lemma_subseq_elems(b, rest);
                    assert(b[0] == s[0]);
                    assert(rest.contains(s[0]));
                    let m = choose|m: int| 0 <= m < rest.len() && rest[m] == s[0];
                    assert(s[m + 1] == s[0]);
                    assert(false);
                }
            }
        }
    }
}

/// The enumeration holds exactly as many combinations as the binomial
/// coefficient counts.
pub proof fn lemma_combos_len<T>(s: Seq<T>, k: nat)
    ensures
        combos_spec(s, k).len() == binom(s.len(), k),
    decreases s.len(), k,
{
    if k == 0 {
    } else if s.len() < k {
        lemma_binom_zero(s.len(), k);
    } else {
        lemma_combos_len(s.drop_first(), (k - 1) as nat);
        lemma_combos_len(s.drop_first(), k);
    }
}

/// Lists every way to choose `choose` elements of `items`, keeping their
/// order, combinations that keep earlier elements first.
pub fn combos<T: Copy>(items: &Vec<T>, choose: usize) -> (r: Vec<Vec<T>>)
    ensures
        r@.map_values(|v: Vec<T>| v@) == combos_spec(items@, choose as nat),
{
    proof {
        assert(items@.skip(0) =~= items@);
    }
    combos_from(items, 0, choose)
}

/// The combinations of the part of `items` from position `start` on.
fn combos_from<T: Copy>(items: &Vec<T>, start: usize, choose: usize) -> (r: Vec<Vec<T>>)
    requires
        start <= items@.len(),
    ensures
        r@.map_values(|v: Vec<T>| v@) == combos_spec(items@.skip(start as int), choose as nat),
    decreases items@.len() - start, choose,
{
    let ghost s = items@.skip(start as int);
    let n = items.len();
    if choose == 0 {
        let mut r: Vec<Vec<T>> = Vec::new();
        r.push(Vec::new());
        proof {
            assert(r@.map_values(|v: Vec<T>| v@) =~= combos_spec(s, 0));
        }
        r
    } else if n - start < choose {
        let r: Vec<Vec<T>> = Vec::new();
        proof {
            assert(r@.map_values(|v: Vec<T>| v@) =~= combos_spec(s, choose as nat));
        }
        r
    } else {
        let first = items[start];
        proof {
            assert(s[0] == first);
            assert(s.drop_first() =~= items@.skip(start + 1));
        }
        let with_first = combos_from(items, start + 1, choose - 1);
        let ghost c1 = combos_spec(items@.skip(start + 1), (choose - 1) as nat);
        let mut r: Vec<Vec<T>> = Vec::new();
        let mut i: usize = 0;
        while i < with_first.len()
            invariant
                with_first@.map_values(|v: Vec<T>| v@) == c1,
                i <= with_first@.len(),
                r@.len() == i,
                forall|m: int| 0 <= m < i ==> (#[trigger] r@[m])@ == seq![first] + c1[m],
            decreases with_first@.len() - i,
        {
            let sub = &with_first[i];
            let mut t: Vec<T> = Vec::new();
            t.push(first);
            let mut j: usize = 0;
            while j < sub.len()
                invariant
                    j <= sub@.len(),
                    t@.len() == j + 1,
                    t@[0] == first,
                    forall|m: int| 0 <= m < j ==> t@[m + 1] == sub@[m],
                decreases sub@.len() - j,
            {
                t.push(sub[j]);
                j = j + 1;
            }
            proof {
                assert(with_first@.map_values(|v: Vec<T>| v@)[i as int] == c1[i as int]);
                assert(with_first@[i as int]@ == c1[i as int]);
                assert(t@ =~= seq![first] + c1[i as int]);
            }
            r.push(t);
            i = i + 1;
        }
        let mut rest = combos_from(items, start + 1, choose);
        let ghost c2 = combos_spec(items@.skip(start + 1), choose as nat);
        let ghost r_mid = r@;
        let ghost rest_view = rest@;
        r.append(&mut rest);
        proof {
            assert(combos_spec(s, choose as nat) == c1.map_values(|t: Seq<T>| seq![s[0]] + t)
                + c2);
            assert forall|m: int| 0 <= m < r@.len() implies (#[trigger] r@[m])@ == combos_spec(
                s,
                choose as nat,
            )[m] by {
                if m < r_mid.len() {
                    assert(r@[m] == r_mid[m]);
                    assert(c1.map_values(|t: Seq<T>| seq![s[0]] + t)[m] == seq![s[0]] + c1[m]);
                } else {
                    assert(r@[m] == rest_view[m - r_mid.len()]);
                    assert(rest_view.map_values(|v: Vec<T>| v@)[m - r_mid.len()] == c2[m
                        - r_mid.len()]);
                }
            }
            assert(r@.map_values(|v: Vec<T>| v@) =~= combos_spec(s, choose as nat));
        }
        r
    }
}

} // verus!
