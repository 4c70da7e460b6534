//! Finding the item that occurs most often in a list.
//!
//! Items are compared with `==`. What is found is stated for element types
//! whose `==` is a symmetric and transitive relation
//! (`vstd::laws_eq::obeys_eq`). It need not be reflexive: an item that does
//! not even equal itself forms a group of its own and occurs once.

use vstd::laws_eq::{obeys_eq, obeys_eq_spec_properties};
use vstd::prelude::*;
use vstd::relations::injective_on;
use vstd::set_lib::{lemma_int_range, lemma_map_size, lemma_subset_equality, set_int_range};
use vstd::std_specs::cmp::PartialEqSpec;

verus! {

/// `a == b`, as the element type defines it.
pub open spec fn same<T: PartialEq>(a: T, b: T) -> bool {
    a.eq_spec(&b)
}

/// The item at position `j` is counted as an occurrence of the item at
/// position `i`: it is that very item, or it compares equal to it.
pub open spec fn counts_as<T: PartialEq>(s: Seq<T>, i: int, j: int) -> bool {
    i == j || same(s[i], s[j])
}

/// How many of the first `end` items of `s` count as occurrences of the item
/// at position `i`.
pub open spec fn occurrences_before<T: PartialEq>(s: Seq<T>, i: int, end: int) -> nat
    decreases end,
{
    if end <= 0 {
        0
    } else {
        occurrences_before(s, i, end - 1) + if counts_as(s, i, end - 1) {
            1nat
        } else {
            0nat
        }
    }
}

/// How often the item at position `i` occurs in `s`.
pub open spec fn occurrences<T: PartialEq>(s: Seq<T>, i: int) -> nat {
    occurrences_before(s, i, s.len() as int)
}

/// Position `i` holds the most occurring item of `s`: no item occurs more
/// often, and every item at an earlier position occurs less often. Among
/// several items that occur equally often, this singles out the one that was
/// seen first.
pub open spec fn is_most_occurring_at<T: PartialEq>(s: Seq<T>, i: int) -> bool {
    &&& 0 <= i < s.len()
    &&& forall|j: int| 0 <= j < s.len() ==> occurrences(s, j) <= occurrences(s, i)
    &&& forall|j: int| 0 <= j < i ==> occurrences(s, j) < occurrences(s, i)
}

/// The position of the most occurring item of a list that has one.
pub open spec fn most_occurring_position<T: PartialEq>(s: Seq<T>) -> int {
    choose|i: int| is_most_occurring_at(s, i)
}

/// The most occurring item stands at one position only.
pub proof fn lemma_most_occurring_unique<T: PartialEq>(s: Seq<T>, i: int, j: int)
    requires
        is_most_occurring_at(s, i),
        is_most_occurring_at(s, j),
    ensures
        i == j,
{
    assert(occurrences(s, i) <= occurrences(s, j) <= occurrences(s, i));
}

/// Where `i` is the position of the most occurring item, the position that
/// `most_occurring_position` names is `i`.
pub proof fn lemma_most_occurring_position<T: PartialEq>(s: Seq<T>, i: int)
    requires
        is_most_occurring_at(s, i),
    ensures
        most_occurring_position(s) == i,
{
    lemma_most_occurring_unique(s, i, most_occurring_position(s));
}

/// Equality of a well-behaved element type can be turned around.
pub proof fn lemma_same_symmetric<T: PartialEq>(a: T, b: T)
    requires
        obeys_eq::<T>(),
        same(a, b),
    ensures
        same(b, a),
{
    reveal(obeys_eq_spec_properties);
}

/// Equality of a well-behaved element type can be chained.
pub proof fn lemma_same_transitive<T: PartialEq>(a: T, b: T, c: T)
    requires
        obeys_eq::<T>(),
        same(a, b),
        same(b, c),
    ensures
        same(a, c),
{
    reveal(obeys_eq_spec_properties);
}

/// A count never exceeds the number of items looked at.
pub proof fn lemma_occurrences_before_bounded<T: PartialEq>(s: Seq<T>, i: int, end: int)
    requires
        0 <= end,
    ensures
        occurrences_before(s, i, end) <= end,
    decreases end,
{
    if end > 0 {
        lemma_occurrences_before_bounded(s, i, end - 1);
    }
}

/// Where none of the first `end` items counts, the count is zero.
pub proof fn lemma_occurrences_before_none<T: PartialEq>(s: Seq<T>, i: int, end: int)
    requires
        forall|j: int| 0 <= j < end ==> !counts_as(s, i, j),
    ensures
        occurrences_before(s, i, end) == 0,
    decreases end,
{
    if end > 0 {
        lemma_occurrences_before_none(s, i, end - 1);
    }
}

/// Two positions of which one counts as an occurrence of the other are
/// counted alike: whatever counts for one counts for the other.
pub proof fn lemma_counts_as_shared<T: PartialEq>(s: Seq<T>, a: int, b: int, j: int)
    requires
        obeys_eq::<T>(),
        counts_as(s, a, b),
    ensures
        counts_as(s, a, j) == counts_as(s, b, j),
{
    if a != b {
        lemma_same_symmetric(s[a], s[b]);
        if j == a || j == b {
        } else {
            if same(s[a], s[j]) {
                lemma_same_transitive(s[b], s[a], s[j]);
            }
            if same(s[b], s[j]) {
                lemma_same_transitive(s[a], s[b], s[j]);
            }
        }
    }
}

/// Two positions of which one counts as an occurrence of the other occur
/// equally often.
pub proof fn lemma_occurrences_shared<T: PartialEq>(s: Seq<T>, a: int, b: int, end: int)
    requires
        obeys_eq::<T>(),
        counts_as(s, a, b),
    ensures
        occurrences_before(s, a, end) == occurrences_before(s, b, end),
    decreases end,
{
    if end > 0 {
        lemma_occurrences_shared(s, a, b, end - 1);
        lemma_counts_as_shared(s, a, b, end - 1);
    }
}

/// What the pass over the first `j` items of `s` has gathered. Each entry of
/// `t` holds the position at which a group of equal items was first seen and
/// how many of the first `j` items belong to it; `owner` names, for each of
/// those items, the entry that it was counted under.
spec fn tallied<T: PartialEq>(s: Seq<T>, t: Seq<(usize, usize)>, owner: Seq<int>, j: int) -> bool {
    &&& owner.len() == j
    &&& forall|e: int|
        0 <= e < t.len() ==> (#[trigger] t[e]).0 < j && t[e].1 == occurrences_before(
            s,
            t[e].0 as int,
            j,
        )
    &&& forall|d: int, e: int|
        0 <= d < e < t.len() ==> (#[trigger] t[d]).0 < (#[trigger] t[e]).0 && !same(
            s[t[d].0 as int],
            s[t[e].0 as int],
        )
    &&& forall|p: int|
        0 <= p < j ==> 0 <= #[trigger] owner[p] < t.len() && t[owner[p]].0 <= p && counts_as(
            s,
            t[owner[p]].0 as int,
            p,
        )
}

/// The first entry of `counts` whose item equals the item at position `j`,
/// or `counts.len()` where there is none.
fn find_entry<T: PartialEq>(items: &[T], counts: &Vec<(usize, usize)>, j: usize) -> (e: usize)
    requires
        j < items@.len(),
        forall|d: int| 0 <= d < counts@.len() ==> (#[trigger] counts@[d]).0 < items@.len(),
    ensures
        e <= counts@.len(),
        T::obeys_eq_spec() ==> forall|d: int|
            0 <= d < e ==> !same(items@[(#[trigger] counts@[d]).0 as int], items@[j as int]),
        T::obeys_eq_spec() && e < counts@.len() ==> same(
            items@[counts@[e as int].0 as int],
            items@[j as int],
        ),
{
    let mut e: usize = 0;
    while e < counts.len()
        invariant
            j < items@.len(),
            e <= counts@.len(),
            forall|d: int| 0 <= d < counts@.len() ==> (#[trigger] counts@[d]).0 < items@.len(),
            T::obeys_eq_spec() ==> forall|d: int|
                0 <= d < e ==> !same(items@[(#[trigger] counts@[d]).0 as int], items@[j as int]),
        decreases counts@.len() - e,
    {
        let key: usize = counts[e].0;
        if items[key] == items[j] {
            return e;
        }
        e += 1;
    }
    e
}

/// Counting the item at position `j` under the entry `e` that `find_entry`
/// gave for it keeps the tally right.
proof fn lemma_tally_step<T: PartialEq>(
    s: Seq<T>,
    t: Seq<(usize, usize)>,
    owner: Seq<int>,
    j: int,
    e: int,
)
    requires
        obeys_eq::<T>(),
        0 <= j < s.len(),
        j < usize::MAX,
        tallied(s, t, owner, j),
        0 <= e <= t.len(),
        forall|d: int| 0 <= d < e ==> !same(s[(#[trigger] t[d]).0 as int], s[j]),
        e < t.len() ==> same(s[t[e].0 as int], s[j]),
    ensures
        e < t.len() ==> t[e].1 <= j && tallied(
            s,
            t.update(e, (t[e].0, (t[e].1 + 1) as usize)),
            owner.push(e),
            j + 1,
        ),
        e == t.len() ==> tallied(s, t.push((j as usize, 1usize)), owner.push(e), j + 1),
{
    assert forall|d: int| 0 <= d < t.len() && d != e implies !counts_as(
        s,
        (#[trigger] t[d]).0 as int,
        j,
    ) by {
        if d > e && same(s[t[d].0 as int], s[j]) {
            lemma_same_symmetric(s[t[d].0 as int], s[j]);
            lemma_same_transitive(s[t[e].0 as int], s[j], s[t[d].0 as int]);
        }
    }
    if e < t.len() {
        lemma_occurrences_before_bounded(s, t[e].0 as int, j);
        let t2 = t.update(e, (t[e].0, (t[e].1 + 1) as usize));
        let owner2 = owner.push(e);
        assert forall|d: int| 0 <= d < t2.len() implies (#[trigger] t2[d]).0 < j + 1 && t2[d].1
            == occurrences_before(s, t2[d].0 as int, j + 1) by {
            assert(t2[d].0 == t[d].0);
        }
        assert forall|c: int, d: int| 0 <= c < d < t2.len() implies (#[trigger] t2[c]).0 < (
        #[trigger] t2[d]).0 && !same(s[t2[c].0 as int], s[t2[d].0 as int]) by {
            assert(t2[c].0 == t[c].0 && t2[d].0 == t[d].0);
        }
        assert forall|p: int| 0 <= p < j + 1 implies 0 <= #[trigger] owner2[p] < t2.len()
            && t2[owner2[p]].0 <= p && counts_as(s, t2[owner2[p]].0 as int, p) by {
            if p < j {
                assert(owner2[p] == owner[p]);
                assert(t2[owner[p]].0 == t[owner[p]].0);
            }
        }
    } else {
        let t2 = t.push((j as usize, 1usize));
        let owner2 = owner.push(e);
        assert forall|p: int| 0 <= p < j implies !counts_as(s, j, p) by {
            if same(s[j], s[p]) {
                let d = owner[p];
                lemma_same_symmetric(s[j], s[p]);
                if t[d].0 != p {
                    lemma_same_transitive(s[t[d].0 as int], s[p], s[j]);
                }
            }
        }
        lemma_occurrences_before_none(s, j, j);
        assert forall|d: int| 0 <= d < t2.len() implies (#[trigger] t2[d]).0 < j + 1 && t2[d].1
            == occurrences_before(s, t2[d].0 as int, j + 1) by {
            if d < t.len() {
                assert(t2[d] == t[d]);
            }
        }
        assert forall|c: int, d: int| 0 <= c < d < t2.len() implies (#[trigger] t2[c]).0 < (
        #[trigger] t2[d]).0 && !same(s[t2[c].0 as int], s[t2[d].0 as int]) by {
            assert(t2[c] == t[c]);
            if d < t.len() {
                assert(t2[d] == t[d]);
            }
        }
        assert forall|p: int| 0 <= p < j + 1 implies 0 <= #[trigger] owner2[p] < t2.len()
            && t2[owner2[p]].0 <= p && counts_as(s, t2[owner2[p]].0 as int, p) by {
            if p < j {
                assert(owner2[p] == owner[p]);
                assert(t2[owner[p]] == t[owner[p]]);
            }
        }
    }
}

/// The entry of a finished tally that holds the largest count, and among
/// several such the first, stands at the position of the most occurring item.
proof fn lemma_tally_winner<T: PartialEq>(
    s: Seq<T>,
    t: Seq<(usize, usize)>,
    owner: Seq<int>,
    best: int,
)
    requires
        obeys_eq::<T>(),
        tallied(s, t, owner, s.len() as int),
        0 <= best < t.len(),
        forall|e: int| 0 <= e < t.len() ==> (#[trigger] t[e]).1 <= t[best].1,
        forall|e: int| 0 <= e < best ==> (#[trigger] t[e]).1 < t[best].1,
    ensures
        is_most_occurring_at(s, t[best].0 as int),
{
    let i = t[best].0 as int;
    let n = s.len() as int;
    assert forall|p: int| 0 <= p < n implies occurrences(s, p) <= occurrences(s, i) by {
        let e = owner[p];
        lemma_occurrences_shared(s, t[e].0 as int, p, n);
    }
    assert forall|p: int| 0 <= p < i implies occurrences(s, p) < occurrences(s, i) by {
        let e = owner[p];
        lemma_occurrences_shared(s, t[e].0 as int, p, n);
        assert(e < best) by {
            if e > best {
                assert(t[best].0 < t[e].0);
            }
        }
    }
}

/// The position of the most occurring item of `items`, or `None` for an empty
/// list.
///
/// One pass files each item under the first earlier item that it equals and
/// counts it there; a second pass picks the largest count. Which of several
/// equally frequent items wins is not something the problem itself settles;
/// this function settles it by returning the one that was seen first.
pub fn most_occurring_index<T: PartialEq>(items: &[T]) -> (found: Option<usize>)
    ensures
        found is None <==> items@.len() == 0,
        found matches Some(i) ==> i < items@.len(),
        obeys_eq::<T>() ==> (found matches Some(i) ==> is_most_occurring_at(items@, i as int)),
{
    let n: usize = items.len();
    if n == 0 {
        return None;
    }
    let mut counts: Vec<(usize, usize)> = Vec::new();
    let ghost mut owner: Seq<int> = Seq::empty();
    let mut j: usize = 0;
    while j < n
        invariant
            n == items@.len(),
            j <= n,
            j > 0 ==> counts@.len() > 0,
            forall|e: int|
                0 <= e < counts@.len() ==> (#[trigger] counts@[e]).0 < j && counts@[e].1 <= j,
            obeys_eq::<T>() ==> tallied(items@, counts@, owner, j as int),
        decreases n - j,
    {
        let e: usize = find_entry(items, &counts, j);
        proof {
            if obeys_eq::<T>() {
                lemma_tally_step(items@, counts@, owner, j as int, e as int);
            }
            owner = owner.push(e as int);
        }
        if e < counts.len() {
            let (key, count) = counts[e];
            counts.set(e, (key, count + 1));
        } else {
            counts.push((j, 1));
        }
        j += 1;
    }
    let mut best: usize = 0;
    let mut e: usize = 1;
    while e < counts.len()
        invariant
            0 <= best < e <= counts@.len(),
            forall|d: int| 0 <= d < e ==> (#[trigger] counts@[d]).1 <= counts@[best as int].1,
            forall|d: int| 0 <= d < best ==> (#[trigger] counts@[d]).1 < counts@[best as int].1,
        decreases counts@.len() - e,
    {
        if counts[e].1 > counts[best].1 {
            best = e;
        }
        e += 1;
    }
    proof {
        if obeys_eq::<T>() {
            lemma_tally_winner(items@, counts@, owner, best as int);
        }
    }
    Some(counts[best].0)
}

/// The item of `items` that occurs most often, or `None` for an empty list.
///
/// Which of several equally frequent items is returned is settled as in
/// [`most_occurring_index`]: the one that was seen first.
pub fn most_occurring_item<T: PartialEq + Clone>(items: &[T]) -> (found: Option<T>)
    ensures
        found is None <==> items@.len() == 0,
        found matches Some(item) ==> exists|i: int|
            0 <= i < items@.len() && cloned(#[trigger] items@[i], item),
        obeys_eq::<T>() ==> (found matches Some(item) ==> is_most_occurring_at(
            items@,
            most_occurring_position(items@),
        ) && cloned(items@[most_occurring_position(items@)], item)),
{
    match most_occurring_index(items) {
        None => None,
        Some(i) => {
            proof {
                if obeys_eq::<T>() {
                    lemma_most_occurring_position(items@, i as int);
                }
            }
            Some(items[i].clone())
        },
    }
}

/// The position below `n` whose item occurs most often in `s`, the first of
/// them where several do.
spec fn winner_below<T: PartialEq>(s: Seq<T>, n: int) -> int
    decreases n,
{
    if n <= 1 {
        0
    } else {
        let w = winner_below(s, n - 1);
        if occurrences(s, n - 1) > occurrences(s, w) {
            n - 1
        } else {
            w
        }
    }
}

/// `winner_below` names a position below `n` whose item no item below `n`
/// occurs more often than, and no item before it as often.
proof fn lemma_winner_below<T: PartialEq>(s: Seq<T>, n: int)
    requires
        1 <= n <= s.len(),
    ensures
        0 <= winner_below(s, n) < n,
        forall|j: int|
            0 <= j < n ==> #[trigger] occurrences(s, j) <= occurrences(s, winner_below(s, n)),
        forall|j: int|
            0 <= j < winner_below(s, n) ==> #[trigger] occurrences(s, j) < occurrences(
                s,
                winner_below(s, n),
            ),
    decreases n,
{
    if n > 1 {
        lemma_winner_below(s, n - 1);
    }
}

/// Every list that is not empty has a most occurring item.
pub proof fn lemma_most_occurring_exists<T: PartialEq>(s: Seq<T>)
    requires
        s.len() > 0,
    ensures
        is_most_occurring_at(s, most_occurring_position(s)),
{
    lemma_winner_below(s, s.len() as int);
    assert(is_most_occurring_at(s, winner_below(s, s.len() as int)));
}

/// An empty list has no most occurring item.
pub proof fn lemma_empty_has_none<T: PartialEq>(s: Seq<T>, i: int)
    requires
        s.len() == 0,
    ensures
        !is_most_occurring_at(s, i),
{
}

/// Where every one of the first `end` items counts, the count is `end`.
pub proof fn lemma_occurrences_before_all<T: PartialEq>(s: Seq<T>, i: int, end: int)
    requires
        0 <= end,
        forall|j: int| 0 <= j < end ==> counts_as(s, i, j),
    ensures
        occurrences_before(s, i, end) == end,
    decreases end,
{
    if end > 0 {
        lemma_occurrences_before_all(s, i, end - 1);
    }
}

/// A list that holds one value only, once or many times over, has that value
/// as its most occurring item, and it occurs as often as the list is long.
pub proof fn lemma_single_value<T: PartialEq>(s: Seq<T>)
    requires
        obeys_eq::<T>(),
        s.len() > 0,
        forall|i: int, j: int| 0 <= i < j < s.len() ==> same(s[i], s[j]),
    ensures
        most_occurring_position(s) == 0,
        is_most_occurring_at(s, 0),
        occurrences(s, 0) == s.len(),
        forall|j: int| 0 <= j < s.len() ==> counts_as(s, 0, j),
{
    assert forall|i: int| 0 <= i < s.len() implies occurrences(s, i) == s.len() by {
        assert forall|j: int| 0 <= j < s.len() implies counts_as(s, i, j) by {
            if j < i {
                lemma_same_symmetric(s[j], s[i]);
            }
        }
        lemma_occurrences_before_all(s, i, s.len() as int);
    }
    assert(is_most_occurring_at(s, 0));
    lemma_most_occurring_position(s, 0);
}

/// An item that occurs more often than every item that differs from it is
/// the most occurring item, wherever in the list it and the others stand.
pub proof fn lemma_strict_winner<T: PartialEq>(s: Seq<T>, k: int)
    requires
        obeys_eq::<T>(),
        0 <= k < s.len(),
        forall|j: int|
            0 <= j < s.len() && !counts_as(s, k, j) ==> occurrences(s, j) < occurrences(s, k),
    ensures
        is_most_occurring_at(s, most_occurring_position(s)),
        counts_as(s, most_occurring_position(s), k),
{
    lemma_most_occurring_exists(s);
    let w = most_occurring_position(s);
    if !counts_as(s, w, k) {
        if counts_as(s, k, w) {
            lemma_same_symmetric(s[k], s[w]);
        }
        assert(occurrences(s, w) < occurrences(s, k));
        assert(occurrences(s, k) <= occurrences(s, w));
    }
}

/// The positions below `end` whose items count as occurrences of the item at
/// position `i`.
pub open spec fn occurrence_set<T: PartialEq>(s: Seq<T>, i: int, end: int) -> Set<int> {
    Set::new(|j: int| 0 <= j < end && counts_as(s, i, j))
}

/// A count is the size of the set of positions that were counted.
pub proof fn lemma_occurrences_are_set_size<T: PartialEq>(s: Seq<T>, i: int, end: int)
    requires
        0 <= end,
    ensures
        occurrence_set(s, i, end).finite(),
        occurrences_before(s, i, end) == occurrence_set(s, i, end).len(),
    decreases end,
{
    if end == 0 {
        assert(occurrence_set(s, i, end) =~= Set::<int>::empty());
    } else {
        lemma_occurrences_are_set_size(s, i, end - 1);
        if counts_as(s, i, end - 1) {
            assert(occurrence_set(s, i, end) =~= occurrence_set(s, i, end - 1).insert(end - 1));
        } else {
            assert(occurrence_set(s, i, end) =~= occurrence_set(s, i, end - 1));
        }
    }
}

/// `t` holds the items of `s` in another order: the item at position `i` of
/// `s` stands at position `to[i]` of `t`, and no two items of `s` go to the
/// same position.
pub open spec fn is_rearrangement<T>(s: Seq<T>, t: Seq<T>, to: Seq<int>) -> bool {
    &&& t.len() == s.len()
    &&& to.len() == s.len()
    &&& forall|i: int| 0 <= i < s.len() ==> 0 <= #[trigger] to[i] < t.len() && t[to[i]] == s[i]
    &&& forall|i: int, j: int| 0 <= i < j < s.len() ==> to[i] != to[j]
}

/// In a rearrangement every position of `t` is the new place of some item of
/// `s`.
pub proof fn lemma_rearrangement_reaches<T>(s: Seq<T>, t: Seq<T>, to: Seq<int>, q: int)
    requires
        is_rearrangement(s, t, to),
        0 <= q < t.len(),
    ensures
        exists|j: int| 0 <= j < s.len() && #[trigger] to[j] == q,
{
    let n = s.len() as int;
    let all = set_int_range(0, n);
    let f = |j: int| to[j];
    let reached = all.map(f);
    lemma_int_range(0, n);
    assert(injective_on(f, all));
    lemma_map_size(all, reached, f);
    assert(reached.subset_of(all)) by {
        assert forall|b: int| reached.contains(b) implies all.contains(b) by {
            let a = choose|a: int| all.contains(a) && f(a) == b;
            assert(to[a] == b);
        }
    }
    lemma_subset_equality(reached, all);
    assert(all.contains(q));
    assert(reached.contains(q));
    let j = choose|j: int| all.contains(j) && f(j) == q;
    assert(0 <= j < s.len() && to[j] == q);
}

/// An item occurs as often after a rearrangement as before it.
pub proof fn lemma_occurrences_rearranged<T: PartialEq>(
    s: Seq<T>,
    t: Seq<T>,
    to: Seq<int>,
    i: int,
)
    requires
        is_rearrangement(s, t, to),
        0 <= i < s.len(),
    ensures
        occurrences(t, to[i]) == occurrences(s, i),
{
    let n = s.len() as int;
    let before = occurrence_set(s, i, n);
    let after = occurrence_set(t, to[i], n);
    let f = |j: int| to[j];
    lemma_occurrences_are_set_size(s, i, n);
    lemma_occurrences_are_set_size(t, to[i], n);
    assert(injective_on(f, before));
    assert(before.map(f) =~= after) by {
        assert forall|b: int| before.map(f).contains(b) implies after.contains(b) by {
            let a = choose|a: int| before.contains(a) && f(a) == b;
            assert(to[a] == b);
            assert(counts_as(t, to[i], to[a]));
        }
        assert forall|b: int| after.contains(b) implies before.map(f).contains(b) by {
            lemma_rearrangement_reaches(s, t, to, b);
            let a = choose|a: int| 0 <= a < s.len() && #[trigger] to[a] == b;
            assert(counts_as(s, i, a));
            assert(before.contains(a) && f(a) == b);
        }
    }
    lemma_map_size(before, after, f);
}

/// An item that occurs more often than every item that differs from it is
/// the most occurring item in whatever order the items were entered.
pub proof fn lemma_strict_winner_in_any_order<T: PartialEq>(
    s: Seq<T>,
    t: Seq<T>,
    to: Seq<int>,
    k: int,
)
    requires
        obeys_eq::<T>(),
        is_rearrangement(s, t, to),
        0 <= k < s.len(),
        forall|j: int|
            0 <= j < s.len() && !counts_as(s, k, j) ==> occurrences(s, j) < occurrences(s, k),
    ensures
        is_most_occurring_at(t, most_occurring_position(t)),
        counts_as(t, most_occurring_position(t), to[k]),
{
    lemma_occurrences_rearranged(s, t, to, k);
    assert forall|q: int| 0 <= q < t.len() && !counts_as(t, to[k], q) implies occurrences(t, q)
        < occurrences(t, to[k]) by {
        lemma_rearrangement_reaches(s, t, to, q);
        let j = choose|j: int| 0 <= j < s.len() && #[trigger] to[j] == q;
        lemma_occurrences_rearranged(s, t, to, j);
        assert(!counts_as(s, k, j));
    }
    lemma_strict_winner(t, to[k]);
}

} // verus!
