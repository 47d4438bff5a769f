//! Finding the first occurrence of a key in a sequence.

use crate::decimal::Decimal;
use vstd::prelude::*;

verus! {

/// `i` is where `x` first occurs in `s`.
pub open spec fn is_first_at<T>(s: Seq<T>, x: T, i: int) -> bool {
    &&& 0 <= i < s.len()
    &&& s[i] == x
    &&& forall|j: int| 0 <= j < i ==> s[j] != x
}

/// Where `x` first occurs in `s`, if it occurs at all.
pub open spec fn first_at<T>(s: Seq<T>, x: T) -> int {
    choose|i: int| is_first_at(s, x, i)
}

/// An element of a sequence has a first occurrence, and only one.
pub proof fn lemma_first_at<T>(s: Seq<T>, x: T)
    requires
        s.contains(x),
    ensures
        is_first_at(s, x, first_at(s, x)),
        forall|i: int| is_first_at(s, x, i) ==> i == first_at(s, x),
    decreases s.len(),
{
    let k = choose|k: int| 0 <= k < s.len() && s[k] == x;
    lemma_first_before(s, x, k);
    let f = first_at(s, x);
    assert forall|i: int| is_first_at(s, x, i) implies i == f by {
        if i < f {
            assert(s[i] != x);
        } else if f < i {
            assert(s[f] != x);
        }
    }
}

proof fn lemma_first_before<T>(s: Seq<T>, x: T, k: int)
    requires
        0 <= k < s.len(),
        s[k] == x,
    ensures
        exists|i: int| is_first_at(s, x, i),
    decreases k,
{
    if exists|j: int| 0 <= j < k && s[j] == x {
        let j = choose|j: int| 0 <= j < k && s[j] == x;
        lemma_first_before(s, x, j);
    } else {
        assert(is_first_at(s, x, k));
    }
}

/// The index at which `x` first occurs in `v`.
pub fn find_decimal(v: &Vec<Decimal>, x: Decimal) -> (r: Option<usize>)
    ensures
        match r {
            Some(i) => is_first_at(v@, x, i as int),
            None => !v@.contains(x),
        },
{
    let mut i: usize = 0;
    while i < v.len()
        invariant
            i <= v.len(),
            forall|j: int| 0 <= j < i ==> v@[j] != x,
        decreases v.len() - i,
    {
        if v[i] == x {
            return Some(i);
        }
        i += 1;
    }
    None
}

/// The index at which `x` first occurs in `v`.
pub fn find_id(v: &Vec<usize>, x: usize) -> (r: Option<usize>)
    ensures
        match r {
            Some(i) => is_first_at(v@, x, i as int),
            None => !v@.contains(x),
        },
{
    let mut i: usize = 0;
    while i < v.len()
        invariant
            i <= v.len(),
            forall|j: int| 0 <= j < i ==> v@[j] != x,
        decreases v.len() - i,
    {
        if v[i] == x {
            return Some(i);
        }
        i += 1;
    }
    None
}

/// Filtering one element more: the element is added where it passes.
pub proof fn lemma_filter_step<T>(s: Seq<T>, pred: spec_fn(T) -> bool, i: int)
    requires
        0 <= i < s.len(),
    ensures
        s.take(i + 1).filter(pred) == (if pred(s[i]) {
            s.take(i).filter(pred).push(s[i])
        } else {
            s.take(i).filter(pred)
        }),
{
    let t = s.take(i + 1);
    assert(t.drop_last() =~= s.take(i));
    assert(t.last() == s[i]);
    reveal_with_fuel(Seq::filter, 1);
}

/// A list with one more element behind it, unless it holds it already.
pub open spec fn with_new<T>(s: Seq<T>, x: T) -> Seq<T> {
    if s.contains(x) {
        s
    } else {
        s.push(x)
    }
}

/// The elements of a list without repetition: each stands where it was
/// first seen.
pub open spec fn distinct<T>(s: Seq<T>) -> Seq<T>
    decreases s.len(),
{
    if s.len() == 0 {
        Seq::empty()
    } else {
        with_new(distinct(s.drop_last()), s.last())
    }
}

/// A list without its repetitions holds the same elements, each once.
pub proof fn lemma_distinct<T>(s: Seq<T>)
    ensures
        distinct(s).no_duplicates(),
        forall|x: T| distinct(s).contains(x) <==> s.contains(x),
    decreases s.len(),
{
    if s.len() > 0 {
        let p = s.drop_last();
        let d = distinct(p);
        lemma_distinct(p);
        let y = s.last();
        assert(distinct(s) == with_new(d, y));
        assert(distinct(s).no_duplicates()) by {
            if !d.contains(y) {
                assert forall|i: int, j: int|
                    0 <= i < d.len() + 1 && 0 <= j < d.len() + 1 && i != j implies d.push(y)[i]
                    != d.push(y)[j] by {
                    if i == d.len() {
                        assert(d[j] != y);
                    } else if j == d.len() {
                        assert(d[i] != y);
                    }
                }
            }
        }
        assert forall|x: T| distinct(s).contains(x) <==> s.contains(x) by {
            if s.contains(x) {
                let i = choose|i: int| 0 <= i < s.len() && s[i] == x;
                if i < p.len() {
                    assert(p[i] == x);
                    assert(p.contains(x));
                    assert(d.contains(x));
                    let k = choose|k: int| 0 <= k < d.len() && d[k] == x;
                    assert(distinct(s)[k] == x);
                } else {
                    if !d.contains(x) {
                        assert(distinct(s)[d.len() as int] == x);
                    }
                }
            }
            if distinct(s).contains(x) {
                let k = choose|k: int| 0 <= k < distinct(s).len() && distinct(s)[k] == x;
                if k < d.len() {
                    assert(d[k] == x);
                    assert(p.contains(x));
                    let i = choose|i: int| 0 <= i < p.len() && p[i] == x;
                    assert(s[i] == x);
                } else {
                    assert(s[s.len() - 1] == x);
                }
            }
        }
    }
}

/// A list with the elements of another behind it, each unless the list
/// holds it already.
pub open spec fn with_all_new<T>(s: Seq<T>, items: Seq<T>) -> Seq<T>
    decreases items.len(),
{
    if items.len() == 0 {
        s
    } else {
        with_new(with_all_new(s, items.drop_last()), items.last())
    }
}

/// The distinct elements of two lists in a row are those of the first,
/// with those of the second added as they are new.
pub proof fn lemma_distinct_append<T>(s: Seq<T>, items: Seq<T>)
    ensures
        distinct(s + items) == with_all_new(distinct(s), items),
    decreases items.len(),
{
    if items.len() == 0 {
        assert(s + items =~= s);
    } else {
        lemma_distinct_append(s, items.drop_last());
        assert((s + items).drop_last() =~= s + items.drop_last());
        assert((s + items).last() == items.last());
    }
}

/// Adds a decimal to a list unless the list holds it.
pub fn push_new_decimal(v: &mut Vec<Decimal>, x: Decimal)
    ensures
        final(v)@ == with_new(old(v)@, x),
{
    if find_decimal(v, x).is_none() {
        v.push(x);
    } else {
        proof {
            lemma_first_at(v@, x);
        }
    }
}

/// Adds the decimals of a list to another, each unless the other holds it.
pub fn push_new_decimals(v: &mut Vec<Decimal>, items: &Vec<Decimal>)
    ensures
        final(v)@ == with_all_new(old(v)@, items@),
{
    let mut i: usize = 0;
    while i < items.len()
        invariant
            i <= items@.len(),
            v@ == with_all_new(old(v)@, items@.take(i as int)),
        decreases items@.len() - i,
    {
        push_new_decimal(v, items[i]);
        proof {
            let t = items@.take(i + 1);
            assert(t.drop_last() =~= items@.take(i as int));
            assert(t.last() == items@[i as int]);
        }
        i += 1;
    }
    assert(items@.take(i as int) =~= items@);
}

} // verus!
