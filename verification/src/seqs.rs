//! Facts about sequences that loops over vectors rest on.

use vstd::prelude::*;

verus! {

/// The sum of a sequence of unsigned values.
pub open spec fn total(s: Seq<u16>) -> int
    decreases s.len(),
{
    if s.len() == 0 {
        0
    } else {
        total(s.drop_last()) + s.last()
    }
}

/// The smallest value of a sequence, or 0 where there is none.
pub open spec fn least(s: Seq<u16>) -> u16
    decreases s.len(),
{
    if s.len() == 0 {
        0
    } else if s.len() == 1 {
        s[0]
    } else if s.last() < least(s.drop_last()) {
        s.last()
    } else {
        least(s.drop_last())
    }
}

/// A prefix sums to no more than the whole.
pub proof fn lemma_total_prefix(s: Seq<u16>, k: int)
    requires
        0 <= k <= s.len(),
    ensures
        0 <= total(s.take(k)) <= total(s),
        0 <= total(s),
    decreases s.len() - k,
{
    if k == s.len() {
        assert(s.take(k) =~= s);
        lemma_total_nonnegative(s);
    } else {
        lemma_total_next(s, k);
        lemma_total_prefix(s, k + 1);
        lemma_total_nonnegative(s.take(k));
    }
}

pub proof fn lemma_total_nonnegative(s: Seq<u16>)
    ensures
        0 <= total(s),
    decreases s.len(),
{
    if s.len() > 0 {
        lemma_total_nonnegative(s.drop_last());
    }
}

/// One more value adds itself.
pub proof fn lemma_total_next(s: Seq<u16>, k: int)
    requires
        0 <= k < s.len(),
    ensures
        total(s.take(k + 1)) == total(s.take(k)) + s[k],
{
    assert(s.take(k + 1).drop_last() =~= s.take(k));
}

/// Values of at most `most` sum up to at most `most` times their number.
pub proof fn lemma_total_bound(s: Seq<u16>, most: int)
    requires
        most >= 0,
        forall|i: int| 0 <= i < s.len() ==> #[trigger] s[i] <= most,
    ensures
        0 <= total(s) <= most * s.len(),
    decreases s.len(),
{
    if s.len() > 0 {
        let front = s.drop_last();
        lemma_total_bound(front, most);
        assert(s[s.len() - 1] <= most);
        assert(most * s.len() == most * front.len() + most) by (nonlinear_arith)
            requires
                s.len() == front.len() + 1,
        ;
    }
}

/// The smallest value is one of the values, and none is smaller.
pub proof fn lemma_least(s: Seq<u16>)
    requires
        s.len() > 0,
    ensures
        s.contains(least(s)),
        forall|i: int| 0 <= i < s.len() ==> least(s) <= #[trigger] s[i],
    decreases s.len(),
{
    if s.len() > 1 {
        let front = s.drop_last();
        lemma_least(front);
        let i = choose|i: int| 0 <= i < front.len() && front[i] == least(front);
        assert(s[i] == least(front));
        assert forall|j: int| 0 <= j < s.len() implies least(s) <= #[trigger] s[j] by {
            if j < front.len() {
                assert(front[j] == s[j]);
            }
        }
        assert(s[s.len() - 1] == s.last());
    } else {
        assert(s[0] == least(s));
    }
}

/// Keeping the items that meet a test, one item further.
pub proof fn lemma_filter_next<A>(s: Seq<A>, p: spec_fn(A) -> bool, k: int)
    requires
        0 <= k < s.len(),
    ensures
        s.take(k + 1).filter(p) == if p(s[k]) {
            s.take(k).filter(p).push(s[k])
        } else {
            s.take(k).filter(p)
        },
{
    reveal(Seq::filter);
    assert(s.take(k + 1).drop_last() =~= s.take(k));
    assert(s.take(k + 1).last() == s[k]);
}

/// What one test keeps and what its negation keeps are all the items.
pub proof fn lemma_filter_split<A>(s: Seq<A>, p: spec_fn(A) -> bool, q: spec_fn(A) -> bool)
    requires
        forall|a: A| #![trigger p(a)] #![trigger q(a)] q(a) == !p(a),
    ensures
        s.filter(p).len() + s.filter(q).len() == s.len(),
    decreases s.len(),
{
    reveal(Seq::filter);
    if s.len() > 0 {
        lemma_filter_split(s.drop_last(), p, q);
        assert(q(s.last()) == !p(s.last()));
    }
}

/// The first place of `key` among `keys`, or their number where it is not there.
pub open spec fn first_at(keys: Seq<Seq<char>>, key: Seq<char>) -> int
    decreases keys.len(),
{
    if keys.len() == 0 {
        0
    } else if keys[0] == key {
        0
    } else {
        1 + first_at(keys.skip(1), key)
    }
}

/// What the first place is, said without recursion.
pub proof fn lemma_first_at(keys: Seq<Seq<char>>, key: Seq<char>)
    ensures
        0 <= first_at(keys, key) <= keys.len(),
        first_at(keys, key) < keys.len() ==> keys[first_at(keys, key)] == key,
        forall|j: int| 0 <= j < first_at(keys, key) ==> #[trigger] keys[j] != key,
        first_at(keys, key) == keys.len() <==> !keys.contains(key),
    decreases keys.len(),
{
    if keys.len() > 0 && keys[0] != key {
        let rest = keys.skip(1);
        lemma_first_at(rest, key);
        assert forall|j: int| 0 <= j < first_at(keys, key) implies #[trigger] keys[j] != key by {
            if j > 0 {
                assert(rest[j - 1] == keys[j]);
            }
        }
        if keys.contains(key) {
            let j = choose|j: int| 0 <= j < keys.len() && keys[j] == key;
            assert(rest[j - 1] == key);
        }
    }
}

/// A place that holds the key, with none before it that does, is the first.
pub proof fn lemma_is_first_at(keys: Seq<Seq<char>>, key: Seq<char>, at: int)
    requires
        0 <= at <= keys.len(),
        forall|j: int| 0 <= j < at ==> #[trigger] keys[j] != key,
        at < keys.len() ==> keys[at] == key,
    ensures
        first_at(keys, key) == at,
{
    lemma_first_at(keys, key);
}

/// The first place of an item that meets a test, or the number of items.
pub open spec fn first_where<A>(s: Seq<A>, p: spec_fn(A) -> bool) -> int
    decreases s.len(),
{
    if s.len() == 0 {
        0
    } else if p(s[0]) {
        0
    } else {
        1 + first_where(s.skip(1), p)
    }
}

/// What the first place is, said without recursion.
pub proof fn lemma_first_where<A>(s: Seq<A>, p: spec_fn(A) -> bool)
    ensures
        0 <= first_where(s, p) <= s.len(),
        first_where(s, p) < s.len() ==> p(s[first_where(s, p)]),
        forall|j: int| 0 <= j < first_where(s, p) ==> !p(#[trigger] s[j]),
    decreases s.len(),
{
    if s.len() > 0 && !p(s[0]) {
        let rest = s.skip(1);
        lemma_first_where(rest, p);
        assert forall|j: int| 0 <= j < first_where(s, p) implies !p(#[trigger] s[j]) by {
            if j > 0 {
                assert(rest[j - 1] == s[j]);
            }
        }
    }
}

/// A place that meets the test, with none before it that does, is the first.
pub proof fn lemma_is_first_where<A>(s: Seq<A>, p: spec_fn(A) -> bool, at: int)
    requires
        0 <= at <= s.len(),
        forall|j: int| 0 <= j < at ==> !p(#[trigger] s[j]),
        at < s.len() ==> p(s[at]),
    ensures
        first_where(s, p) == at,
{
    lemma_first_where(s, p);
}

/// No key stands in two places.
pub open spec fn distinct(keys: Seq<Seq<char>>) -> bool {
    forall|i: int, j: int| 0 <= i < j < keys.len() ==> #[trigger] keys[i] != #[trigger] keys[j]
}

/// A list of items under keys after one more was put in: in the place of the
/// one under its key, or behind all others.
pub open spec fn put<A>(items: Seq<A>, keys: Seq<Seq<char>>, key: Seq<char>, item: A) -> Seq<A> {
    let at = first_at(keys, key);
    if at < keys.len() {
        items.update(at, item)
    } else {
        items.push(item)
    }
}

/// Putting in keeps the keys distinct, leads from the key to the item, and
/// leaves every other key where it was.
pub proof fn lemma_put<A>(items: Seq<A>, keys: Seq<Seq<char>>, key: Seq<char>, item: A)
    requires
        items.len() == keys.len(),
        distinct(keys),
    ensures
        ({
            let new_keys = put(keys, keys, key, key);
            let new_items = put(items, keys, key, item);
            &&& distinct(new_keys)
            &&& new_items.len() == new_keys.len()
            &&& first_at(new_keys, key) == first_at(keys, key)
            &&& first_at(keys, key) < new_keys.len()
            &&& new_items[first_at(keys, key)] == item
            &&& forall|other: Seq<char>|
                other != key && first_at(keys, other) < keys.len() ==> #[trigger] first_at(
                    new_keys,
                    other,
                ) == first_at(keys, other) && new_items[first_at(keys, other)]
                    == items[first_at(keys, other)]
            &&& forall|other: Seq<char>|
                other != key && first_at(keys, other) == keys.len() ==> #[trigger] first_at(
                    new_keys,
                    other,
                ) == new_keys.len()
        }),
{
    let new_keys = put(keys, keys, key, key);
    let at = first_at(keys, key);
    lemma_first_at(keys, key);
    if at < keys.len() {
        assert(new_keys =~= keys);
    }
    lemma_is_first_at(new_keys, key, at);
    assert forall|other: Seq<char>|
        other != key && first_at(keys, other) < keys.len() implies #[trigger] first_at(
        new_keys,
        other,
    ) == first_at(keys, other) by {
        lemma_first_at(keys, other);
        lemma_is_first_at(new_keys, other, first_at(keys, other));
    }
    assert forall|other: Seq<char>|
        other != key && first_at(keys, other) < keys.len() implies put(items, keys, key, item)[
    first_at(keys, other)] == items[first_at(keys, other)] by {
        lemma_first_at(keys, other);
    }
    assert forall|other: Seq<char>|
        other != key && first_at(keys, other) == keys.len() implies #[trigger] first_at(
        new_keys,
        other,
    ) == new_keys.len() by {
        lemma_first_at(keys, other);
        lemma_is_first_at(new_keys, other, new_keys.len() as int);
    }
}

/// How many of the items meet a test.
pub open spec fn count<A>(s: Seq<A>, p: spec_fn(A) -> bool) -> nat
    decreases s.len(),
{
    if s.len() == 0 {
        0
    } else if p(s.last()) {
        count(s.drop_last(), p) + 1
    } else {
        count(s.drop_last(), p)
    }
}

/// Counting one item further.
pub proof fn lemma_count_next<A>(s: Seq<A>, p: spec_fn(A) -> bool, k: int)
    requires
        0 <= k < s.len(),
    ensures
        count(s.take(k + 1), p) == count(s.take(k), p) + (if p(s[k]) {
            1int
        } else {
            0
        }),
        count(s.take(k), p) <= k,
{
    assert(s.take(k + 1).drop_last() =~= s.take(k));
    lemma_count_bound(s.take(k), p);
}

/// No more items meet a test than there are.
pub proof fn lemma_count_bound<A>(s: Seq<A>, p: spec_fn(A) -> bool)
    ensures
        count(s, p) <= s.len(),
    decreases s.len(),
{
    if s.len() > 0 {
        lemma_count_bound(s.drop_last(), p);
    }
}

/// Every item meets a test or does not.
pub proof fn lemma_count_split<A>(s: Seq<A>, p: spec_fn(A) -> bool, q: spec_fn(A) -> bool)
    requires
        forall|a: A| #![trigger p(a)] #![trigger q(a)] q(a) == !p(a),
    ensures
        count(s, p) + count(s, q) == s.len(),
    decreases s.len(),
{
    if s.len() > 0 {
        lemma_count_split(s.drop_last(), p, q);
        assert(q(s.last()) == !p(s.last()));
    }
}

/// What is counted are the items that meet the test.
pub proof fn law_count_is_of_those_that_pass<A>(s: Seq<A>, p: spec_fn(A) -> bool)
    ensures
        count(s, p) == s.filter(p).len(),
    decreases s.len(),
{
    reveal(Seq::filter);
    if s.len() > 0 {
        law_count_is_of_those_that_pass(s.drop_last(), p);
    }
}

/// A sum grows by what is put behind, and starts at 0.
pub proof fn law_total_adds_up(s: Seq<u16>, x: u16)
    ensures
        total(s.push(x)) == total(s) + x,
        total(Seq::<u16>::empty()) == 0,
{
    assert(s.push(x).drop_last() =~= s);
}

/// As many are counted as there are exactly where all meet the test.
pub proof fn lemma_count_all<A>(s: Seq<A>, p: spec_fn(A) -> bool)
    ensures
        count(s, p) <= s.len(),
        count(s, p) == s.len() <==> forall|i: int| 0 <= i < s.len() ==> p(#[trigger] s[i]),
    decreases s.len(),
{
    if s.len() > 0 {
        let front = s.drop_last();
        lemma_count_all(front, p);
        if count(s, p) == s.len() {
            assert forall|i: int| 0 <= i < s.len() implies p(#[trigger] s[i]) by {
                if i < front.len() {
                    assert(p(front[i]));
                }
            }
        } else if forall|i: int| 0 <= i < s.len() ==> p(#[trigger] s[i]) {
            assert forall|i: int| 0 <= i < front.len() implies p(#[trigger] front[i]) by {
                assert(p(s[i]));
            }
            assert(p(s[s.len() - 1]));
        }
    }
}

} // verus!
