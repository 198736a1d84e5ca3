//! Stable ordering of rows by a rank, a name and a number.
use crate::text;
use vstd::prelude::*;

verus! {

/// What a row is ordered by: first the rank, then the name by code points, then
/// the number.
#[derive(Debug)]
pub struct Key {
    pub rank: i128,
    pub name: String,
    pub number: u32,
}

/// A key as characters and integers.
pub struct Place {
    pub rank: int,
    pub name: Seq<char>,
    pub number: int,
}

impl View for Key {
    type V = Place;

    open spec fn view(&self) -> Place {
        Place { rank: self.rank as int, name: self.name@, number: self.number as int }
    }
}

/// Whether `a` stands strictly before `b`.
pub open spec fn less(a: Place, b: Place) -> bool {
    ||| a.rank < b.rank
    ||| a.rank == b.rank && text::before(a.name, b.name)
    ||| a.rank == b.rank && a.name == b.name && a.number < b.number
}

/// The places of a list of keys.
pub open spec fn places(keys: Seq<Key>) -> Seq<Place> {
    keys.map_values(|k: Key| k@)
}

/// The first position in `order` whose row stands strictly behind `x`.
pub open spec fn slot(keys: Seq<Place>, order: Seq<int>, x: Place) -> int
    decreases order.len(),
{
    if order.len() == 0 {
        0
    } else if less(x, keys[order[0]]) {
        0
    } else {
        1 + slot(keys, order.drop_first(), x)
    }
}

/// The indices of the rows in ascending order; rows with equal keys keep their
/// order.
pub open spec fn arrangement(keys: Seq<Place>) -> Seq<int>
    decreases keys.len(),
{
    if keys.len() == 0 {
        Seq::empty()
    } else {
        let order = arrangement(keys.drop_last());
        order.insert(slot(keys, order, keys.last()), keys.len() - 1)
    }
}

/// The order of places is a strict weak order.
pub proof fn lemma_less(a: Place, b: Place, c: Place)
    ensures
        !less(a, a),
        less(a, b) ==> !less(b, a),
        less(a, b) && less(b, c) ==> less(a, c),
        less(a, b) && !less(c, b) ==> less(a, c),
        !less(b, a) && !less(c, b) ==> !less(c, a),
{
    text::lemma_before_total(a.name, a.name);
    text::lemma_before_total(a.name, b.name);
    text::lemma_before_total(b.name, c.name);
    text::lemma_before_total(a.name, c.name);
    if text::before(a.name, b.name) && text::before(b.name, c.name) {
        text::lemma_before_transitive(a.name, b.name, c.name);
    }
    if text::before(c.name, b.name) && text::before(b.name, a.name) {
        text::lemma_before_transitive(c.name, b.name, a.name);
    }
    if text::before(c.name, a.name) && text::before(a.name, b.name) {
        text::lemma_before_transitive(c.name, a.name, b.name);
    }
    if text::before(b.name, c.name) && text::before(c.name, a.name) {
        text::lemma_before_transitive(b.name, c.name, a.name);
    }
    if text::before(a.name, c.name) && text::before(c.name, b.name) {
        text::lemma_before_transitive(a.name, c.name, b.name);
    }
    if text::before(b.name, a.name) && text::before(a.name, c.name) {
        text::lemma_before_transitive(b.name, a.name, c.name);
    }
}

proof fn lemma_slot(keys: Seq<Place>, order: Seq<int>, x: Place)
    ensures
        0 <= slot(keys, order, x) <= order.len(),
        forall|i: int| 0 <= i < slot(keys, order, x) ==> !less(x, keys[#[trigger] order[i]]),
        slot(keys, order, x) < order.len() ==> less(x, keys[order[slot(keys, order, x)]]),
    decreases order.len(),
{
    if order.len() > 0 && !less(x, keys[order[0]]) {
        let rest = order.drop_first();
        lemma_slot(keys, rest, x);
        assert forall|i: int| 0 <= i < slot(keys, order, x) implies !less(
            x,
            keys[#[trigger] order[i]],
        ) by {
            if i > 0 {
                assert(order[i] == rest[i - 1]);
            }
        }
    }
}

/// Whether `order` names each of the first `n` rows once.
pub open spec fn covers(order: Seq<int>, n: int) -> bool {
    &&& order.len() == n
    &&& forall|i: int| 0 <= i < n ==> 0 <= #[trigger] order[i] < n
    &&& forall|i: int, j: int| 0 <= i < j < n ==> order[i] != order[j]
    &&& forall|k: int| 0 <= k < n ==> #[trigger] order.contains(k)
}

/// Whether the rows ascend along `order`, equal ones by index.
pub open spec fn ascends(keys: Seq<Place>, order: Seq<int>) -> bool {
    forall|i: int, j: int|
        0 <= i < j < order.len() ==> less(keys[#[trigger] order[i]], keys[#[trigger] order[j]]) || (
        !less(keys[order[j]], keys[order[i]]) && order[i] < order[j])
}

/// Ordering names every row exactly once and puts the rows in ascending order,
/// equal ones in their original order.
pub proof fn arrangement_sorts(keys: Seq<Place>)
    ensures
        covers(arrangement(keys), keys.len() as int),
        ascends(keys, arrangement(keys)),
    decreases keys.len(),
{
    if keys.len() > 0 {
        let n = keys.len() - 1;
        let shorter = keys.drop_last();
        let order = arrangement(shorter);
        arrangement_sorts(shorter);
        let x = keys.last();
        lemma_slot(keys, order, x);
        let s = slot(keys, order, x);
        let full = arrangement(keys);
        assert(full =~= order.insert(s, n));
        assert forall|k: int| 0 <= k < keys.len() implies #[trigger] full.contains(k) by {
            if k == n {
                assert(full[s] == n);
            } else {
                assert(order.contains(k));
                let i = choose|i: int| 0 <= i < order.len() && order[i] == k;
                if i < s {
                    assert(full[i] == k);
                } else {
                    assert(full[i + 1] == k);
                }
            }
        }
        assert forall|i: int, j: int| 0 <= i < j < full.len() implies less(
            keys[#[trigger] full[i]],
            keys[#[trigger] full[j]],
        ) || (!less(keys[full[j]], keys[full[i]]) && full[i] < full[j]) by {
            let a = if i < s {
                i
            } else {
                i - 1
            };
            let b = if j < s {
                j
            } else {
                j - 1
            };
            if i != s && j != s {
                assert(full[i] == order[a] && full[j] == order[b]);
                assert(keys[order[a]] == shorter[order[a]]);
                assert(keys[order[b]] == shorter[order[b]]);
            } else if j == s {
                assert(full[i] == order[i]);
                assert(!less(x, keys[order[i]]));
            } else {
                assert(full[j] == order[b]);
                if b > s {
                    let first = keys[order[s]];
                    let later = keys[order[b]];
                    assert(shorter[order[s]] == first && shorter[order[b]] == later);
                    lemma_less(x, first, later);
                    lemma_less(first, later, x);
                }
            }
        }
    }
}

fn stands_before(a: &Key, b: &Key) -> (r: bool)
    ensures
        r == less(a@, b@),
{
    if a.rank != b.rank {
        return a.rank < b.rank;
    }
    if text::same(a.name.as_str(), b.name.as_str()) {
        proof {
            text::lemma_before_total(a.name@, a.name@);
        }
        return a.number < b.number;
    }
    text::comes_before(a.name.as_str(), b.name.as_str())
}

/// The indices as integers.
pub open spec fn indices(order: Seq<usize>) -> Seq<int> {
    order.map_values(|i: usize| i as int)
}

/// The indices of the rows in ascending order.
pub fn arrange(keys: &Vec<Key>) -> (r: Vec<usize>)
    ensures
        indices(r@) == arrangement(places(keys@)),
        r@.len() == keys@.len(),
        forall|i: int| 0 <= i < r@.len() ==> r@[i] < keys@.len(),
{
    let ghost all = places(keys@);
    let mut order: Vec<usize> = Vec::new();
    let mut i: usize = 0;
    assert(all.take(0) =~= Seq::empty());
    assert(indices(order@) =~= Seq::empty());
    while i < keys.len()
        invariant
            i <= keys@.len(),
            all == places(keys@),
            indices(order@) == arrangement(all.take(i as int)),
            order@.len() == i,
            forall|k: int| 0 <= k < order@.len() ==> order@[k] < i,
        decreases keys@.len() - i,
    {
        let ghost head = all.take(i + 1);
        let ghost old_order = indices(order@);
        let ghost x = all[i as int];
        assert(head.drop_last() =~= all.take(i as int));
        assert(head.last() == x);
        let mut s: usize = 0;
        assert(old_order.skip(0) =~= old_order);
        while s < order.len() && !stands_before(&keys[i], &keys[order[s]])
            invariant
                s <= order@.len(),
                i < keys@.len(),
                x == all[i as int],
                all == places(keys@),
                head == all.take(i + 1),
                old_order == indices(order@),
                forall|k: int| 0 <= k < order@.len() ==> order@[k] < i,
                slot(head, old_order, x) == s + slot(head, old_order.skip(s as int), x),
            decreases order@.len() - s,
        {
            assert(old_order.skip(s as int)[0] == order@[s as int] as int);
            assert(head[order@[s as int] as int] == keys@[order@[s as int] as int]@);
            assert(old_order.skip(s as int).drop_first() =~= old_order.skip(s + 1));
            s += 1;
        }
        proof {
            if s < order@.len() {
                assert(old_order.skip(s as int)[0] == order@[s as int] as int);
                assert(head[order@[s as int] as int] == keys@[order@[s as int] as int]@);
            }
        }
        let ghost before = order@;
        order.insert(s, i);
        assert(indices(order@) =~= old_order.insert(s as int, i as int));
        assert(head.len() - 1 == i);
        assert forall|k: int| 0 <= k < order@.len() implies order@[k] < i + 1 by {
            if k < s {
                assert(order@[k] == before[k]);
            } else if k > s {
                assert(order@[k] == before[k - 1]);
            }
        }
        i += 1;
    }
    assert(all.take(keys@.len() as int) =~= all);
    order
}

} // verus!
