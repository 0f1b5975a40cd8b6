//! Stable sorting of records by a text key, in lexicographic order.

use crate::text::{lemma_lex_le_reflexive, lemma_lex_le_total, lemma_lex_le_transitive, lex_le, str_le};
use vstd::prelude::*;

verus! {

/// A record that is ordered by a text key. The key is a function of the
/// record's view.
pub trait Keyed: View + Sized {
    /// The key of a record with view `v`.
    spec fn key_of(v: Self::V) -> Seq<char>;

    /// The record's key.
    fn key(&self) -> (k: &str)
        ensures
            k@ == Self::key_of(self@),
    ;
}

/// The views of a sequence of records.
pub open spec fn views<T: View>(s: Seq<T>) -> Seq<T::V> {
    s.map_values(|t: T| t@)
}

/// Whether the keys of `s` never decrease.
pub open spec fn sorted_by_key<T: Keyed>(s: Seq<T::V>) -> bool {
    forall|i: int, j: int|
        0 <= i < j < s.len() ==> lex_le(T::key_of(#[trigger] s[i]), T::key_of(#[trigger] s[j]))
}

/// Where `e` enters `s`: before the first record whose key is not smaller
/// than the key of `e`, at the end if there is none.
pub open spec fn insertion_point<T: Keyed>(s: Seq<T::V>, e: T::V) -> int
    decreases s.len(),
{
    if s.len() == 0 {
        0
    } else if lex_le(T::key_of(e), T::key_of(s[0])) {
        0
    } else {
        1 + insertion_point::<T>(s.drop_first(), e)
    }
}

/// The records of `s` by ascending key, records of equal key in the order in
/// which `s` holds them.
pub open spec fn stable_sort<T: Keyed>(s: Seq<T::V>) -> Seq<T::V>
    decreases s.len(),
{
    if s.len() == 0 {
        s
    } else {
        let rest = stable_sort::<T>(s.drop_first());
        rest.insert(insertion_point::<T>(rest, s[0]), s[0])
    }
}

/// The test for a record's key to be `k`.
pub open spec fn has_key<T: Keyed>(k: Seq<char>) -> spec_fn(T::V) -> bool {
    |v: T::V| T::key_of(v) == k
}

/// The records of `s` whose key is `k`, in order.
pub open spec fn with_key<T: Keyed>(s: Seq<T::V>, k: Seq<char>) -> Seq<T::V> {
    s.filter(has_key::<T>(k))
}

/// The insertion point lies within the sequence; every record before it has a
/// key that is not at least the new key, and the record at it has one that is.
pub proof fn lemma_insertion_point<T: Keyed>(s: Seq<T::V>, e: T::V)
    ensures
        0 <= insertion_point::<T>(s, e) <= s.len(),
        forall|i: int|
            0 <= i < insertion_point::<T>(s, e) ==> !lex_le(T::key_of(e), T::key_of(#[trigger] s[i])),
        insertion_point::<T>(s, e) < s.len() ==> lex_le(
            T::key_of(e),
            T::key_of(s[insertion_point::<T>(s, e)]),
        ),
    decreases s.len(),
{
    if s.len() > 0 && !lex_le(T::key_of(e), T::key_of(s[0])) {
        let tail = s.drop_first();
        lemma_insertion_point::<T>(tail, e);
        assert forall|i: int| 0 <= i < insertion_point::<T>(s, e) implies !lex_le(
            T::key_of(e),
            T::key_of(#[trigger] s[i]),
        ) by {
            if i > 0 {
                assert(s[i] == tail[i - 1]);
            }
        }
    }
}

/// Sorting keeps the number of records.
pub proof fn lemma_stable_sort_len<T: Keyed>(s: Seq<T::V>)
    ensures
        stable_sort::<T>(s).len() == s.len(),
    decreases s.len(),
{
    if s.len() > 0 {
        let rest = stable_sort::<T>(s.drop_first());
        lemma_stable_sort_len::<T>(s.drop_first());
        lemma_insertion_point::<T>(rest, s[0]);
    }
}

/// The sorted sequence is ordered by key.
pub proof fn lemma_stable_sort_sorted<T: Keyed>(s: Seq<T::V>)
    ensures
        sorted_by_key::<T>(stable_sort::<T>(s)),
    decreases s.len(),
{
    if s.len() > 0 {
        let e = s[0];
        let rest = stable_sort::<T>(s.drop_first());
        let p = insertion_point::<T>(rest, e);
        let out = rest.insert(p, e);
        lemma_stable_sort_sorted::<T>(s.drop_first());
        lemma_insertion_point::<T>(rest, e);
        assert forall|i: int, j: int| 0 <= i < j < out.len() implies lex_le(
            T::key_of(#[trigger] out[i]),
            T::key_of(#[trigger] out[j]),
        ) by {
            if j < p {
                assert(out[i] == rest[i] && out[j] == rest[j]);
            } else if j == p {
                assert(out[i] == rest[i]);
                lemma_lex_le_total(T::key_of(e), T::key_of(rest[i]));
            } else if i < p {
                assert(out[i] == rest[i] && out[j] == rest[j - 1]);
            } else if i == p {
                assert(out[j] == rest[j - 1]);
                if j - 1 > p {
                    lemma_lex_le_transitive(
                        T::key_of(e),
                        T::key_of(rest[p]),
                        T::key_of(rest[j - 1]),
                    );
                }
            } else {
                assert(out[i] == rest[i - 1] && out[j] == rest[j - 1]);
            }
        }
    }
}

/// The sorted sequence holds the records of `s`, each as often as `s` does.
pub proof fn lemma_stable_sort_permutes<T: Keyed>(s: Seq<T::V>)
    ensures
        stable_sort::<T>(s).to_multiset() == s.to_multiset(),
    decreases s.len(),
{
    broadcast use vstd::seq_lib::to_multiset_insert;

    if s.len() > 0 {
        let e = s[0];
        let tail = s.drop_first();
        let rest = stable_sort::<T>(tail);
        lemma_stable_sort_permutes::<T>(tail);
        lemma_insertion_point::<T>(rest, e);
        assert(s =~= tail.insert(0, e));
        assert(rest.insert(insertion_point::<T>(rest, e), e).to_multiset() == rest.to_multiset().insert(e));
        assert(tail.insert(0, e).to_multiset() == tail.to_multiset().insert(e));
    }
}

/// Sorting is stable: the records of any one key come out in the order in
/// which they went in.
pub proof fn lemma_stable_sort_stable<T: Keyed>(s: Seq<T::V>, k: Seq<char>)
    ensures
        with_key::<T>(stable_sort::<T>(s), k) == with_key::<T>(s, k),
    decreases s.len(),
{
    if s.len() > 0 {
        let e = s[0];
        let tail = s.drop_first();
        let rest = stable_sort::<T>(tail);
        let p = insertion_point::<T>(rest, e);
        let pred = has_key::<T>(k);
        lemma_stable_sort_stable::<T>(tail, k);
        lemma_insertion_point::<T>(rest, e);
        let front = rest.take(p);
        let back = rest.skip(p);
        assert(rest =~= front + back);
        assert(rest.insert(p, e) =~= (front + seq![e]) + back);
        assert(s =~= seq![e] + tail);
        Seq::filter_distributes_over_add(front, back, pred);
        Seq::filter_distributes_over_add(front + seq![e], back, pred);
        Seq::filter_distributes_over_add(front, seq![e], pred);
        Seq::filter_distributes_over_add(seq![e], tail, pred);
        if T::key_of(e) == k {
            assert forall|i: int| 0 <= i < front.len() implies !pred(#[trigger] front[i]) by {
                assert(front[i] == rest[i]);
                lemma_lex_le_reflexive(k);
            }
            front.lemma_all_neg_filter_empty(pred);
            assert(front.filter(pred) =~= Seq::<T::V>::empty());
            assert(with_key::<T>(rest.insert(p, e), k) =~= seq![e].filter(pred) + rest.filter(pred));
        } else {
            assert(!pred(e));
            assert forall|i: int| 0 <= i < seq![e].len() implies !pred(#[trigger] seq![e][i]) by {}
            seq![e].lemma_all_neg_filter_empty(pred);
            assert(seq![e].filter(pred) =~= Seq::<T::V>::empty());
            assert(with_key::<T>(rest.insert(p, e), k) =~= rest.filter(pred));
        }
    }
}

/// Sorts `items` by key: computes `stable_sort` on their views.
pub fn sort_by_key<T: Keyed>(items: Vec<T>) -> (sorted: Vec<T>)
    ensures
        views(sorted@) == stable_sort::<T>(views(items@)),
{
    let ghost input: Seq<T::V> = views(items@);
    let mut items: Vec<T> = items;
    let mut sorted: Vec<T> = Vec::new();
    proof {
        assert(input.skip(input.len() as int) =~= Seq::<T::V>::empty());
        assert(views(sorted@) =~= Seq::<T::V>::empty());
    }
    while items.len() > 0
        invariant
            items@.len() <= input.len(),
            views(items@) == input.take(items@.len() as int),
            views(sorted@) == stable_sort::<T>(input.skip(items@.len() as int)),
        decreases items.len(),
    {
        let ghost before: Seq<T::V> = views(sorted@);
        let ghost remaining: int = items@.len() as int;
        let ghost prior: Seq<T> = items@;
        let item: T = items.pop().unwrap();
        proof {
            assert(views(prior)[remaining - 1] == prior[remaining - 1]@);
            assert(item@ == input[remaining - 1]);
            assert(views(items@) =~= input.take(remaining - 1));
            assert(input.skip(remaining - 1).drop_first() =~= input.skip(remaining));
            assert(input.skip(remaining - 1)[0] == item@);
            lemma_stable_sort_len::<T>(input.skip(remaining));
            assert(before.skip(0) =~= before);
        }
        let mut p: usize = 0;
        while p < sorted.len() && !str_le(item.key(), sorted[p].key())
            invariant
                p <= sorted@.len(),
                views(sorted@) == before,
                insertion_point::<T>(before, item@) == p + insertion_point::<T>(
                    before.skip(p as int),
                    item@,
                ),
            decreases sorted.len() - p,
        {
            proof {
                assert(before.skip(p as int)[0] == sorted@[p as int]@);
                assert(before.skip(p as int).drop_first() =~= before.skip(p as int + 1));
            }
            p = p + 1;
        }
        proof {
            if p < sorted@.len() {
                assert(before.skip(p as int)[0] == sorted@[p as int]@);
            }
            assert(insertion_point::<T>(before, item@) == p);
        }
        sorted.insert(p, item);
        proof {
            assert(views(sorted@) =~= before.insert(p as int, item@));
        }
    }
    proof {
        assert(input.skip(0) =~= input);
    }
    sorted
}

} // verus!
