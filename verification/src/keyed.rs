//! Ordered sequences in which every item is found by a key.
//!
//! The attribute bag, the listener bag, and the attributes and registrations
//! of an element are all of this shape: insertion order matters, and a key
//! occurs at most once. This module holds their common mathematical
//! vocabulary.

use vstd::prelude::*;

verus! {

/// An item that is found by a key.
pub trait Keyed {
    /// The type of the key.
    type Key;

    /// The key under which the item is stored.
    spec fn key(&self) -> Self::Key;
}

/// No key occurs twice in `s`.
pub open spec fn distinct_keys<T: Keyed>(s: Seq<T>) -> bool {
    forall|i: int, j: int|
        #![trigger s[i], s[j]]
        0 <= i < j < s.len() ==> s[i].key() != s[j].key()
}

/// Some item of `s` is stored under `k`.
pub open spec fn has_key<T: Keyed>(s: Seq<T>, k: T::Key) -> bool {
    exists|i: int| 0 <= i < s.len() && (#[trigger] s[i]).key() == k
}

/// An index at which `s` stores an item under `k`; meaningful where
/// `has_key(s, k)`, and the only such index where the keys are distinct.
pub open spec fn position<T: Keyed>(s: Seq<T>, k: T::Key) -> int {
    choose|i: int| 0 <= i < s.len() && (#[trigger] s[i]).key() == k
}

/// The item that `s` stores under `k`, if any.
pub open spec fn lookup<T: Keyed>(s: Seq<T>, k: T::Key) -> Option<T> {
    if has_key(s, k) {
        Some(s[position(s, k)])
    } else {
        None
    }
}

/// `s` with `x` stored under its key: in place of the item that had the key,
/// or at the end where no item had it.
pub open spec fn upsert<T: Keyed>(s: Seq<T>, x: T) -> Seq<T> {
    if has_key(s, x.key()) {
        s.update(position(s, x.key()), x)
    } else {
        s.push(x)
    }
}

/// `s` without the item stored under `k`; `s` itself where there is none.
pub open spec fn without<T: Keyed>(s: Seq<T>, k: T::Key) -> Seq<T> {
    if has_key(s, k) {
        s.remove(position(s, k))
    } else {
        s
    }
}

/// The keys of `s`, in order.
pub open spec fn keys<T: Keyed>(s: Seq<T>) -> Seq<T::Key> {
    Seq::new(s.len(), |i: int| s[i].key())
}

/// The views of a list of textual keys, in order.
pub open spec fn key_views(list: Seq<String>) -> Seq<Seq<char>> {
    list.map_values(|k: String| k@)
}

/// With distinct keys, the index of an item is the position of its key.
pub proof fn lemma_position<T: Keyed>(s: Seq<T>, i: int)
    requires
        distinct_keys(s),
        0 <= i < s.len(),
    ensures
        has_key(s, s[i].key()),
        position(s, s[i].key()) == i,
        lookup(s, s[i].key()) == Some(s[i]),
{
    let k = s[i].key();
    let p = position(s, k);
    assert(0 <= p < s.len() && s[p].key() == k);
    if p < i {
        assert(s[p].key() != s[i].key());
    } else if i < p {
        assert(s[i].key() != s[p].key());
    }
}

/// A key that `s` holds has a position inside `s`, and the item there has
/// that key.
pub proof fn lemma_position_in_range<T: Keyed>(s: Seq<T>, k: T::Key)
    requires
        has_key(s, k),
    ensures
        0 <= position(s, k) < s.len(),
        s[position(s, k)].key() == k,
{
}

/// What removing a key does: the keys stay distinct, the key is gone, and
/// every other key keeps its item.
pub proof fn lemma_without<T: Keyed>(s: Seq<T>, k: T::Key)
    requires
        distinct_keys(s),
    ensures
        distinct_keys(without(s, k)),
        !has_key(without(s, k), k),
        forall|other: T::Key|
            other != k ==> #[trigger] lookup(without(s, k), other) == lookup(s, other),
        has_key(s, k) ==> without(s, k).len() == s.len() - 1,
        forall|i: int| 0 <= i < without(s, k).len() ==> s.contains(#[trigger] without(s, k)[i]),
{
    let r = without(s, k);
    if has_key(s, k) {
        let p = position(s, k);
        assert(0 <= p < s.len() && s[p].key() == k);
        assert forall|i: int| 0 <= i < r.len() implies s.contains(#[trigger] r[i]) by {
            let si = if i < p { i } else { i + 1 };
            assert(r[i] == s[si]);
        }
        assert forall|i: int, j: int| 0 <= i < j < r.len() implies r[i].key() != r[j].key() by {
            let si = if i < p { i } else { i + 1 };
            let sj = if j < p { j } else { j + 1 };
            assert(r[i] == s[si]);
            assert(r[j] == s[sj]);
            assert(s[si].key() != s[sj].key());
        }
        if has_key(r, k) {
            let q = position(r, k);
            assert(0 <= q < r.len() && r[q].key() == k);
            let sq = if q < p { q } else { q + 1 };
            assert(r[q] == s[sq]);
            lemma_position(s, sq);
            assert(false);
        }
        assert forall|other: T::Key| other != k implies #[trigger] lookup(r, other) == lookup(
            s,
            other,
        ) by {
            if has_key(s, other) {
                let a = position(s, other);
                assert(0 <= a < s.len() && s[a].key() == other);
                let ra = if a < p { a } else { a - 1 };
                assert(r[ra] == s[a]);
                lemma_position(r, ra);
            } else if has_key(r, other) {
                let b = position(r, other);
                assert(0 <= b < r.len() && r[b].key() == other);
                let sb = if b < p { b } else { b + 1 };
                assert(r[b] == s[sb]);
                assert(s[sb].key() == other);
                assert(false);
            }
        }
    } else {
        assert(r == s);
    }
}

/// What storing an item does: the keys stay distinct, the item is found
/// under its key, and every other key keeps its item.
pub proof fn lemma_upsert<T: Keyed>(s: Seq<T>, x: T)
    requires
        distinct_keys(s),
    ensures
        distinct_keys(upsert(s, x)),
        lookup(upsert(s, x), x.key()) == Some(x),
        forall|other: T::Key|
            other != x.key() ==> #[trigger] lookup(upsert(s, x), other) == lookup(s, other),
        upsert(s, x).len() == if has_key(s, x.key()) {
            s.len()
        } else {
            s.len() + 1
        },
        forall|i: int|
            0 <= i < upsert(s, x).len() ==> (#[trigger] upsert(s, x)[i]) == x || s.contains(
                upsert(s, x)[i],
            ),
{
    let k = x.key();
    let r = upsert(s, x);
    assert forall|i: int| 0 <= i < r.len() implies (#[trigger] r[i]) == x || s.contains(r[i]) by {
        if has_key(s, k) {
            let p = position(s, k);
            assert(0 <= p < s.len() && s[p].key() == k);
            if i != p {
                assert(r[i] == s[i]);
            }
        } else {
            if i < s.len() {
                assert(r[i] == s[i]);
            }
        }
    }
    if has_key(s, k) {
        let p = position(s, k);
        assert(0 <= p < s.len() && s[p].key() == k);
        assert forall|i: int, j: int| 0 <= i < j < r.len() implies r[i].key() != r[j].key() by {
            assert(s[i].key() != s[j].key());
            assert(r[i].key() == s[i].key());
            assert(r[j].key() == s[j].key());
        }
        assert(r[p] == x);
        lemma_position(r, p);
        assert forall|other: T::Key| other != k implies #[trigger] lookup(r, other) == lookup(
            s,
            other,
        ) by {
            if has_key(s, other) {
                let a = position(s, other);
                assert(0 <= a < s.len() && s[a].key() == other);
                assert(r[a] == s[a]);
                lemma_position(r, a);
            } else if has_key(r, other) {
                let b = position(r, other);
                assert(0 <= b < r.len() && r[b].key() == other);
                assert(r[b] == s[b]);
                assert(s[b].key() == other);
                assert(false);
            }
        }
    } else {
        assert forall|i: int, j: int| 0 <= i < j < r.len() implies r[i].key() != r[j].key() by {
            if j == s.len() {
                assert(r[i] == s[i]);
                assert(r[j] == x);
                if s[i].key() == k {
                    assert(has_key(s, k));
                }
            } else {
                assert(r[i] == s[i]);
                assert(r[j] == s[j]);
                assert(s[i].key() != s[j].key());
            }
        }
        assert(r[s.len() as int] == x);
        lemma_position(r, s.len() as int);
        assert forall|other: T::Key| other != k implies #[trigger] lookup(r, other) == lookup(
            s,
            other,
        ) by {
            if has_key(s, other) {
                let a = position(s, other);
                assert(0 <= a < s.len() && s[a].key() == other);
                assert(r[a] == s[a]);
                lemma_position(r, a);
            } else if has_key(r, other) {
                let b = position(r, other);
                assert(0 <= b < r.len() && r[b].key() == other);
                assert(r[b] == s[b]);
                assert(s[b].key() == other);
                assert(false);
            }
        }
    }
}

/// The test that an item's key is not among the keys of `current`.
pub open spec fn absent_from<T: Keyed>(current: Seq<T>) -> spec_fn(T) -> bool {
    |x: T| !has_key(current, x.key())
}

/// The keys that `previous` holds and `current` does not, in the order of
/// `previous`.
pub open spec fn stale_keys<T: Keyed>(current: Seq<T>, previous: Seq<T>) -> Seq<T::Key> {
    keys(previous.filter(absent_from(current)))
}

/// Filtering one item more: the item joins the filtered prefix where it
/// passes the test.
pub proof fn lemma_filter_next<T>(s: Seq<T>, test: spec_fn(T) -> bool, i: int)
    requires
        0 <= i < s.len(),
    ensures
        s.take(i + 1).filter(test) == if test(s[i]) {
            s.take(i).filter(test).push(s[i])
        } else {
            s.take(i).filter(test)
        },
{
    reveal(Seq::filter);
    assert(s.take(i + 1).drop_last() =~= s.take(i));
    assert(s.take(i + 1).last() == s[i]);
}

/// An item stands in a filtered sequence exactly where it stands in the
/// sequence and passes the test; with distinct keys, the filtered sequence
/// has distinct keys too.
pub proof fn lemma_filter_keys<T: Keyed>(s: Seq<T>, test: spec_fn(T) -> bool)
    requires
        distinct_keys(s),
    ensures
        distinct_keys(s.filter(test)),
        forall|k: T::Key| #[trigger]
            lookup(s.filter(test), k) == if has_key(s, k) && test(s[position(s, k)]) {
                lookup(s, k)
            } else {
                None
            },
    decreases s.len(),
{
    reveal(Seq::filter);
    let f = s.filter(test);
    if s.len() == 0 {
        assert forall|k: T::Key| #[trigger]
            lookup(f, k) == if has_key(s, k) && test(s[position(s, k)]) {
                lookup(s, k)
            } else {
                None
            } by {
            assert(!has_key(f, k));
            assert(!has_key(s, k));
        }
    } else {
        let head = s.drop_last();
        let x = s.last();
        let n = s.len() - 1;
        assert forall|i: int, j: int| 0 <= i < j < head.len() implies head[i].key()
            != head[j].key() by {
            assert(head[i] == s[i]);
            assert(head[j] == s[j]);
            assert(s[i].key() != s[j].key());
        }
        lemma_filter_keys(head, test);
        let g = head.filter(test);
        assert(!has_key(head, x.key())) by {
            if has_key(head, x.key()) {
                let p = position(head, x.key());
                assert(0 <= p < head.len() && head[p].key() == x.key());
                assert(head[p] == s[p]);
                assert(s[p].key() != s[n].key());
            }
        }
        assert(lookup(g, x.key()) == None::<T>);
        assert forall|k: T::Key| has_key(s, k) == (has_key(head, k) || k == x.key()) by {
            if has_key(s, k) {
                let p = position(s, k);
                assert(0 <= p < s.len() && s[p].key() == k);
                if p < n {
                    assert(head[p] == s[p]);
                }
            }
            if has_key(head, k) {
                let p = position(head, k);
                assert(0 <= p < head.len() && head[p].key() == k);
                assert(head[p] == s[p]);
            }
            if k == x.key() {
                assert(s[n].key() == k);
            }
        }
        assert forall|k: T::Key| has_key(head, k) implies position(s, k) == position(head, k) by {
            let p = position(head, k);
            assert(0 <= p < head.len() && head[p].key() == k);
            assert(head[p] == s[p]);
            lemma_position(s, p);
        }
        lemma_position(s, n);
        if test(x) {
            assert(f == g.push(x));
            assert(upsert(g, x) == f);
            lemma_upsert(g, x);
        } else {
            assert(f == g);
        }
        assert forall|k: T::Key| #[trigger]
            lookup(f, k) == if has_key(s, k) && test(s[position(s, k)]) {
                lookup(s, k)
            } else {
                None
            } by {
            if k == x.key() {
            } else {
                assert(lookup(f, k) == lookup(g, k));
                if has_key(head, k) {
                    lemma_position_in_range(head, k);
                    assert(head[position(head, k)] == s[position(head, k)]);
                }
            }
        }
    }
}

/// Every key of a sequence is among its keys, and no other.
pub proof fn lemma_keys_contains<T: Keyed>(s: Seq<T>, k: T::Key)
    ensures
        keys(s).contains(k) == has_key(s, k),
{
    if has_key(s, k) {
        lemma_position_in_range(s, k);
        assert(keys(s)[position(s, k)] == k);
    }
    if keys(s).contains(k) {
        let i = choose|i: int| 0 <= i < keys(s).len() && keys(s)[i] == k;
        assert(s[i].key() == k);
    }
}

/// A sequence in which no key is found is empty.
pub proof fn lemma_no_key_is_empty<T: Keyed>(s: Seq<T>)
    requires
        forall|k: T::Key| !has_key(s, k),
    ensures
        s.len() == 0,
{
    if s.len() > 0 {
        assert(has_key(s, s[0].key()));
    }
}

/// A key is stale exactly where `previous` holds it and `current` does not.
pub proof fn lemma_stale_keys<T: Keyed>(current: Seq<T>, previous: Seq<T>, k: T::Key)
    requires
        distinct_keys(previous),
    ensures
        stale_keys(current, previous).contains(k) == (has_key(previous, k) && !has_key(
            current,
            k,
        )),
{
    let f = previous.filter(absent_from(current));
    lemma_keys_contains(f, k);
    lemma_filter_keys(previous, absent_from(current));
    assert(has_key(f, k) == (lookup(f, k) is Some));
    if has_key(previous, k) {
        lemma_position_in_range(previous, k);
    }
}

/// A sequence with distinct keys is its front with its last item stored
/// in it, and the front has distinct keys and lacks the key of the last.
pub proof fn lemma_distinct_front<T: Keyed>(s: Seq<T>)
    requires
        distinct_keys(s),
        s.len() > 0,
    ensures
        distinct_keys(s.drop_last()),
        !has_key(s.drop_last(), s.last().key()),
        upsert(s.drop_last(), s.last()) == s,
{
    let head = s.drop_last();
    assert forall|i: int, j: int| 0 <= i < j < head.len() implies head[i].key()
        != head[j].key() by {
        assert(head[i] == s[i]);
        assert(head[j] == s[j]);
        assert(s[i].key() != s[j].key());
    }
    if has_key(head, s.last().key()) {
        let p = position(head, s.last().key());
        assert(0 <= p < head.len() && head[p].key() == s.last().key());
        assert(head[p] == s[p]);
        assert(s[p].key() != s[s.len() - 1].key());
    }
    assert(head.push(s.last()) =~= s);
}

/// Storing an item and then removing its key leaves what removing the key
/// alone leaves.
pub proof fn lemma_upsert_without<T: Keyed>(s: Seq<T>, x: T)
    requires
        distinct_keys(s),
    ensures
        without(upsert(s, x), x.key()) == without(s, x.key()),
        !has_key(s, x.key()) ==> without(upsert(s, x), x.key()) == s,
{
    let k = x.key();
    let u = upsert(s, x);
    lemma_upsert(s, x);
    if has_key(s, k) {
        let p = position(s, k);
        assert(0 <= p < s.len() && s[p].key() == k);
        assert(u[p] == x);
        lemma_position(u, p);
        assert(u.remove(p) =~= s.remove(p));
    } else {
        assert(u[s.len() as int] == x);
        lemma_position(u, s.len() as int);
        assert(u.remove(s.len() as int) =~= s);
    }
}

/// A test that every item passes filters nothing out.
pub proof fn lemma_filter_all<T>(s: Seq<T>, test: spec_fn(T) -> bool)
    requires
        forall|i: int| 0 <= i < s.len() ==> test(#[trigger] s[i]),
    ensures
        s.filter(test) == s,
    decreases s.len(),
{
    reveal(Seq::filter);
    if s.len() > 0 {
        let head = s.drop_last();
        assert forall|i: int| 0 <= i < head.len() implies test(#[trigger] head[i]) by {
            assert(head[i] == s[i]);
        }
        lemma_filter_all(head, test);
        assert(test(s[s.len() - 1]));
        assert(head.push(s.last()) =~= s);
    }
}

/// Filtering all but the last item, then the last.
pub proof fn lemma_filter_last<T>(s: Seq<T>, test: spec_fn(T) -> bool)
    requires
        s.len() > 0,
    ensures
        s.filter(test) == if test(s.last()) {
            s.drop_last().filter(test).push(s.last())
        } else {
            s.drop_last().filter(test)
        },
{
    reveal(Seq::filter);
}

/// Filtering the empty sequence.
pub proof fn lemma_filter_empty<T>(s: Seq<T>, test: spec_fn(T) -> bool)
    requires
        s.len() == 0,
    ensures
        s.filter(test) == s,
{
    reveal(Seq::filter);
}

} // verus!
