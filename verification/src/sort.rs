//! Stable sorting of positions by the rank of what stands there.
use crate::text;
use vstd::prelude::*;

verus! {

/// What can be ranked.
pub trait Rank: Sized {
    /// Whether this comes before `other`.
    spec fn before(self, other: Self) -> bool;

    /// Whether this comes before `other`.
    fn is_before(&self, other: &Self) -> (r: bool)
        ensures
            r == self.before(*other),
    ;
}

/// Ranks the newest first, and of two of one age the one with the larger id.
#[derive(Clone, Copy, Debug)]
pub struct NewestFirst {
    pub at: i128,
    pub id: u128,
}

impl Rank for NewestFirst {
    open spec fn before(self, other: Self) -> bool {
        self.at > other.at || (self.at == other.at && self.id > other.id)
    }

    fn is_before(&self, other: &Self) -> (r: bool) {
        self.at > other.at || (self.at == other.at && self.id > other.id)
    }
}

/// Ranks the smaller number first.
#[derive(Clone, Copy, Debug)]
pub struct SmallestFirst {
    pub number: i128,
}

impl Rank for SmallestFirst {
    open spec fn before(self, other: Self) -> bool {
        self.number < other.number
    }

    fn is_before(&self, other: &Self) -> (r: bool) {
        self.number < other.number
    }
}

/// Ranks texts in their order.
#[derive(Debug)]
pub struct ByText {
    pub text: String,
}

impl Rank for ByText {
    open spec fn before(self, other: Self) -> bool {
        text::text_less(self.text@, other.text@)
    }

    fn is_before(&self, other: &Self) -> (r: bool) {
        text::less(&self.text, &other.text)
    }
}

/// `x` put into `list`, behind everything that it does not come before.
pub open spec fn insert_by<K: Rank>(keys: Seq<K>, list: Seq<int>, x: int) -> Seq<int>
    decreases list.len(),
{
    if list.len() == 0 || !keys[x].before(keys[list.last()]) {
        list.push(x)
    } else {
        insert_by(keys, list.drop_last(), x).push(list.last())
    }
}

/// `list` sorted by the rank of its keys; what ranks alike keeps its order.
pub open spec fn sort_by<K: Rank>(keys: Seq<K>, list: Seq<int>) -> Seq<int>
    decreases list.len(),
{
    if list.len() == 0 {
        Seq::empty()
    } else {
        insert_by(keys, sort_by(keys, list.drop_last()), list.last())
    }
}

/// Positions as numbers.
pub open spec fn ints(list: Seq<usize>) -> Seq<int> {
    Seq::new(list.len(), |i: int| list[i] as int)
}

/// The positions below `n`, in order.
pub open spec fn upto(n: nat) -> Seq<int> {
    Seq::new(n, |i: int| i)
}

proof fn lemma_insert_members<K: Rank>(keys: Seq<K>, list: Seq<int>, x: int)
    ensures
        insert_by(keys, list, x).len() == list.len() + 1,
        insert_by(keys, list, x).to_multiset() == list.to_multiset().insert(x),
    decreases list.len(),
{
    broadcast use vstd::seq_lib::group_to_multiset_ensures;

    if list.len() == 0 || !keys[x].before(keys[list.last()]) {
    } else {
        lemma_insert_members(keys, list.drop_last(), x);
        let inner = insert_by(keys, list.drop_last(), x);
        assert(list == list.drop_last().push(list.last()));
        assert(inner.push(list.last()).to_multiset() == list.drop_last().to_multiset().insert(
            x,
        ).insert(list.last()));
        assert(list.drop_last().to_multiset().insert(x).insert(list.last())
            == list.drop_last().to_multiset().insert(list.last()).insert(x));
    }
}

/// Sorting loses nothing and adds nothing.
pub proof fn lemma_sort_members<K: Rank>(keys: Seq<K>, list: Seq<int>)
    ensures
        sort_by(keys, list).len() == list.len(),
        sort_by(keys, list).to_multiset() == list.to_multiset(),
    decreases list.len(),
{
    broadcast use vstd::seq_lib::group_to_multiset_ensures;

    if list.len() > 0 {
        lemma_sort_members(keys, list.drop_last());
        lemma_insert_members(keys, sort_by(keys, list.drop_last()), list.last());
        assert(list == list.drop_last().push(list.last()));
    } else {
        assert(list == Seq::<int>::empty());
    }
}

/// Whether `x` is in a sorted list exactly when it was in the list.
pub proof fn lemma_sort_contains<K: Rank>(keys: Seq<K>, list: Seq<int>, x: int)
    ensures
        sort_by(keys, list).contains(x) == list.contains(x),
{
    broadcast use vstd::seq_lib::group_to_multiset_ensures;

    lemma_sort_members(keys, list);
    assert(sort_by(keys, list).to_multiset().count(x) > 0 <==> sort_by(keys, list).contains(x));
    assert(list.to_multiset().count(x) > 0 <==> list.contains(x));
}

/// Whether nothing in `list` stands behind something it should come before.
pub open spec fn in_order<K: Rank>(keys: Seq<K>, list: Seq<int>) -> bool {
    forall|i: int, j: int|
        0 <= i < j < list.len() ==> !(#[trigger] keys[list[j]]).before(#[trigger] keys[list[i]])
}

/// Whether coming before is transitive, and so is not coming before.
pub open spec fn weak_order<K: Rank>(keys: Seq<K>) -> bool {
    &&& forall|a: K, b: K, c: K|
        #![trigger a.before(b), b.before(c)]
        !a.before(b) && !b.before(c) ==> !a.before(c)
    &&& forall|a: K, b: K| #![trigger a.before(b), b.before(a)] a.before(b) ==> !b.before(a)
}

proof fn lemma_insert_in_order<K: Rank>(keys: Seq<K>, list: Seq<int>, x: int)
    requires
        weak_order(keys),
        in_order(keys, list),
    ensures
        in_order(keys, insert_by(keys, list, x)),
    decreases list.len(),
{
    if list.len() == 0 {
    } else if !keys[x].before(keys[list.last()]) {
        let out = list.push(x);
        assert forall|i: int, j: int| 0 <= i < j < out.len() implies !(
        #[trigger] keys[out[j]]).before(#[trigger] keys[out[i]]) by {
            if j == list.len() {
                let last = list.last();
                if i < list.len() - 1 {
                    assert(!keys[list[list.len() - 1]].before(keys[list[i]]));
                    assert(!keys[x].before(keys[last]));
                }
            } else {
                assert(out[i] == list[i] && out[j] == list[j]);
            }
        }
    } else {
        let rest = list.drop_last();
        assert(in_order(keys, rest));
        lemma_insert_in_order(keys, rest, x);
        lemma_insert_members(keys, rest, x);
        let inner = insert_by(keys, rest, x);
        let out = inner.push(list.last());
        assert forall|i: int, j: int| 0 <= i < j < out.len() implies !(
        #[trigger] keys[out[j]]).before(#[trigger] keys[out[i]]) by {
            if j == inner.len() {
                let y = inner[i];
                assert(inner.contains(y));
                broadcast use vstd::seq_lib::group_to_multiset_ensures;

                assert(inner.to_multiset().count(y) > 0);
                if y == x {
                    assert(!keys[list.last()].before(keys[x]));
                } else {
                    assert(rest.to_multiset().count(y) > 0);
                    assert(rest.contains(y));
                    let k = choose|k: int| 0 <= k < rest.len() && rest[k] == y;
                    assert(list[k] == y);
                    assert(!keys[list[list.len() - 1]].before(keys[list[k]]));
                }
            } else {
                assert(out[i] == inner[i] && out[j] == inner[j]);
            }
        }
    }
}

/// A sorted list is in order.
pub proof fn lemma_sort_in_order<K: Rank>(keys: Seq<K>, list: Seq<int>)
    requires
        weak_order(keys),
    ensures
        in_order(keys, sort_by(keys, list)),
    decreases list.len(),
{
    if list.len() > 0 {
        lemma_sort_in_order(keys, list.drop_last());
        lemma_insert_in_order(keys, sort_by(keys, list.drop_last()), list.last());
    }
}

proof fn lemma_sort_in_range<K: Rank>(keys: Seq<K>, list: Seq<int>, n: int)
    requires
        forall|i: int| 0 <= i < list.len() ==> 0 <= #[trigger] list[i] < n,
    ensures
        forall|i: int|
            0 <= i < sort_by(keys, list).len() ==> 0 <= #[trigger] sort_by(keys, list)[i] < n,
{
    let out = sort_by(keys, list);
    assert forall|i: int| 0 <= i < out.len() implies 0 <= #[trigger] out[i] < n by {
        assert(out.contains(out[i]));
        lemma_sort_contains(keys, list, out[i]);
        let k = choose|k: int| 0 <= k < list.len() && list[k] == out[i];
    }
}

/// Puts `x` into a sorted list.
fn insert_index<K: Rank>(keys: &Vec<K>, list: &mut Vec<usize>, x: usize)
    requires
        x < keys@.len(),
        forall|i: int| 0 <= i < old(list)@.len() ==> #[trigger] old(list)@[i] < keys@.len(),
    ensures
        ints(final(list)@) == insert_by(keys@, ints(old(list)@), x as int),
{
    let ghost before = list@;
    let mut at: usize = list.len();
    let ghost mut tail: Seq<int> = Seq::empty();
    assert(ints(before).take(at as int) == ints(before));
    assert(insert_by(keys@, ints(before), x as int) == insert_by(
        keys@,
        ints(before).take(at as int),
        x as int,
    ) + tail);
    while at > 0 && keys[x].is_before(&keys[list[at - 1]])
        invariant
            at <= list@.len(),
            list@ == before,
            x < keys@.len(),
            forall|i: int| 0 <= i < before.len() ==> #[trigger] before[i] < keys@.len(),
            tail == ints(before).skip(at as int),
            insert_by(keys@, ints(before), x as int) == insert_by(
                keys@,
                ints(before).take(at as int),
                x as int,
            ) + tail,
        decreases at,
    {
        proof {
            let head = ints(before).take(at as int);
            assert(head.last() == before[at - 1] as int);
            assert(head.drop_last() == ints(before).take(at - 1));
            let inner = insert_by(keys@, head.drop_last(), x as int);
            assert(inner.push(head.last()) + tail == inner + (seq![head.last()] + tail));
            assert(seq![head.last()] + tail == ints(before).skip(at - 1));
            tail = ints(before).skip(at - 1);
        }
        at -= 1;
    }
    proof {
        let head = ints(before).take(at as int);
        if at > 0 {
            assert(head.last() == before[at - 1] as int);
        }
        assert(insert_by(keys@, head, x as int) == head.push(x as int));
    }
    list.insert(at, x);
    assert(ints(list@) == ints(before).take(at as int).push(x as int) + ints(before).skip(
        at as int,
    ));
}

/// Sorts positions by the rank of their keys; what ranks alike keeps its order.
pub fn sort_indexes<K: Rank>(keys: &Vec<K>, list: &Vec<usize>) -> (r: Vec<usize>)
    requires
        forall|i: int| 0 <= i < list@.len() ==> #[trigger] list@[i] < keys@.len(),
    ensures
        ints(r@) == sort_by(keys@, ints(list@)),
        forall|i: int| 0 <= i < r@.len() ==> #[trigger] r@[i] < keys@.len(),
{
    let mut r: Vec<usize> = Vec::new();
    let mut i: usize = 0;
    let ghost all = ints(list@);
    assert(all.take(0) == Seq::<int>::empty());
    while i < list.len()
        invariant
            i <= list@.len(),
            all == ints(list@),
            forall|j: int| 0 <= j < list@.len() ==> #[trigger] list@[j] < keys@.len(),
            ints(r@) == sort_by(keys@, all.take(i as int)),
            forall|j: int| 0 <= j < r@.len() ==> #[trigger] r@[j] < keys@.len(),
        decreases list@.len() - i,
    {
        insert_index(keys, &mut r, list[i]);
        proof {
            let next = all.take(i + 1);
            assert(next.drop_last() == all.take(i as int));
            assert(next.last() == list@[i as int] as int);
            assert forall|k: int| 0 <= k < next.len() implies 0 <= #[trigger] next[k]
                < keys@.len() by {
                assert(next[k] == list@[k] as int);
            }
            lemma_sort_in_range(keys@, next, keys@.len() as int);
            assert(ints(r@) == sort_by(keys@, next));
            assert forall|j: int| 0 <= j < r@.len() implies #[trigger] r@[j] < keys@.len() by {
                assert(ints(r@)[j] == r@[j] as int);
            }
        }
        i += 1;
    }
    assert(all.take(all.len() as int) == all);
    r
}

/// All positions below the number of keys, sorted by the rank of their keys.
pub fn sort_all<K: Rank>(keys: &Vec<K>) -> (r: Vec<usize>)
    ensures
        ints(r@) == sort_by(keys@, upto(keys@.len())),
        forall|i: int| 0 <= i < r@.len() ==> #[trigger] r@[i] < keys@.len(),
        r@.len() == keys@.len(),
{
    let mut list: Vec<usize> = Vec::new();
    let mut i: usize = 0;
    while i < keys.len()
        invariant
            i <= keys@.len(),
            list@.len() == i,
            forall|j: int| 0 <= j < i ==> #[trigger] list@[j] == j,
        decreases keys@.len() - i,
    {
        list.push(i);
        i += 1;
    }
    assert(ints(list@) == upto(keys@.len()));
    let r = sort_indexes(keys, &list);
    proof {
        lemma_sort_members(keys@, ints(list@));
        assert(ints(r@).len() == r@.len());
    }
    r
}

} // verus!
