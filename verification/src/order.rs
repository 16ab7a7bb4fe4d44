//! The order of texts, and sorting by it.

use vstd::prelude::*;

use crate::model;
use crate::text::{chars_of, str_eq};

verus! {

broadcast use crate::model::group_model;

/// Whether a text stands before another, or is the same: by the first character
/// that differs, and a prefix before what it is a prefix of.
pub open spec fn text_le(a: Seq<char>, b: Seq<char>) -> bool
    decreases a.len(),
{
    a.len() == 0 || (b.len() > 0 && (a[0] < b[0] || (a[0] == b[0] && text_le(
        a.drop_first(),
        b.drop_first(),
    ))))
}

/// Whether a list of texts stands before another, or is the same: by the first
/// text that differs.
pub open spec fn list_le(a: Seq<Seq<char>>, b: Seq<Seq<char>>) -> bool
    decreases a.len(),
{
    a.len() == 0 || (b.len() > 0 && (if a[0] == b[0] {
        list_le(a.drop_first(), b.drop_first())
    } else {
        text_le(a[0], b[0])
    }))
}

proof fn text_total(a: Seq<char>, b: Seq<char>)
    ensures
        text_le(a, b) || text_le(b, a),
        text_le(a, b) && text_le(b, a) ==> a == b,
    decreases a.len(),
{
    if a.len() == 0 {
        if b.len() == 0 {
            assert(a =~= b);
        }
    } else if b.len() > 0 && a[0] == b[0] {
        text_total(a.drop_first(), b.drop_first());
        if a.drop_first() == b.drop_first() {
            assert(a =~= seq![a[0]] + a.drop_first());
            assert(b =~= seq![b[0]] + b.drop_first());
        }
    }
}

/// A text does not stand behind itself.
pub proof fn same_text(a: Seq<char>)
    ensures
        text_le(a, a),
{
    text_total(a, a);
}

proof fn text_transitive(a: Seq<char>, b: Seq<char>, c: Seq<char>)
    requires
        text_le(a, b),
        text_le(b, c),
    ensures
        text_le(a, c),
    decreases a.len(),
{
    if a.len() > 0 && a[0] == b[0] && b[0] == c[0] {
        text_transitive(a.drop_first(), b.drop_first(), c.drop_first());
    }
}

proof fn list_total(a: Seq<Seq<char>>, b: Seq<Seq<char>>)
    ensures
        list_le(a, b) || list_le(b, a),
    decreases a.len(),
{
    if a.len() > 0 && b.len() > 0 {
        if a[0] == b[0] {
            list_total(a.drop_first(), b.drop_first());
        } else {
            text_total(a[0], b[0]);
        }
    }
}

proof fn list_transitive(a: Seq<Seq<char>>, b: Seq<Seq<char>>, c: Seq<Seq<char>>)
    requires
        list_le(a, b),
        list_le(b, c),
    ensures
        list_le(a, c),
    decreases a.len(),
{
    if a.len() > 0 {
        if a[0] == b[0] && b[0] == c[0] {
            list_transitive(a.drop_first(), b.drop_first(), c.drop_first());
        } else if a[0] != b[0] && b[0] != c[0] {
            text_transitive(a[0], b[0], c[0]);
            if a[0] == c[0] {
                text_total(a[0], b[0]);
            }
        }
    }
}

/// Puts an index behind those whose keys do not stand behind its own.
pub open spec fn placed(keys: Seq<Seq<Seq<char>>>, order: Seq<int>, i: int) -> Seq<int>
    decreases order.len(),
{
    if order.len() == 0 {
        seq![i]
    } else if list_le(keys[order.last()], keys[i]) {
        order.push(i)
    } else {
        placed(keys, order.drop_last(), i).push(order.last())
    }
}

/// The indices of the first `n` keys in the order of the keys. Equal keys stay
/// in place.
pub open spec fn sorted_order(keys: Seq<Seq<Seq<char>>>, n: nat) -> Seq<int>
    decreases n,
{
    if n == 0 {
        Seq::empty()
    } else {
        placed(keys, sorted_order(keys, (n - 1) as nat), n - 1)
    }
}

/// Whether indices are in the order of their keys.
pub open spec fn in_order(keys: Seq<Seq<Seq<char>>>, order: Seq<int>) -> bool {
    forall|i: int, j: int|
        0 <= i < j < order.len() ==> list_le(keys[#[trigger] order[i]], keys[#[trigger] order[j]])
}

proof fn placing_keeps(keys: Seq<Seq<Seq<char>>>, order: Seq<int>, i: int)
    requires
        in_order(keys, order),
        order.no_duplicates(),
        !order.contains(i),
    ensures
        in_order(keys, placed(keys, order, i)),
        placed(keys, order, i).no_duplicates(),
        placed(keys, order, i).len() == order.len() + 1,
        forall|k: int| #[trigger]
            placed(keys, order, i).contains(k) <==> (order.contains(k) || k == i),
    decreases order.len(),
{
    let r = placed(keys, order, i);
    if order.len() == 0 {
        assert(r =~= seq![i]);
        assert(r[0] == i);
    } else if list_le(keys[order.last()], keys[i]) {
        assert forall|a: int, b: int| 0 <= a < b < r.len() implies list_le(
            keys[#[trigger] r[a]],
            keys[#[trigger] r[b]],
        ) by {
            if b == order.len() && a < order.len() - 1 {
                assert(list_le(keys[order[a]], keys[order.last()]));
                list_transitive(keys[order[a]], keys[order.last()], keys[i]);
            }
        }
        assert forall|k: int| #[trigger] r.contains(k) <==> (order.contains(k) || k == i) by {
            if order.contains(k) {
                let j = order.index_of(k);
                assert(r[j] == k);
            }
            if k == i {
                assert(r[order.len() as int] == i);
            }
        }
    } else {
        let front = order.drop_last();
        assert(!front.contains(i));
        assert(front.no_duplicates());
        placing_keeps(keys, front, i);
        let p = placed(keys, front, i);
        list_total(keys[order.last()], keys[i]);
        assert forall|a: int, b: int| 0 <= a < b < r.len() implies list_le(
            keys[#[trigger] r[a]],
            keys[#[trigger] r[b]],
        ) by {
            if b == r.len() - 1 {
                assert(p.contains(p[a]));
                if p[a] != i {
                    assert(front.contains(p[a]));
                    let j = front.index_of(p[a]);
                    assert(order[j] == p[a]);
                }
            } else {
                assert(r[a] == p[a] && r[b] == p[b]);
            }
        }
        assert(!p.contains(order.last())) by {
            if front.contains(order.last()) {
                let j = front.index_of(order.last());
                assert(order[j] == order[order.len() - 1]);
            }
            assert(order.contains(order.last()));
        }
        assert forall|a: int, b: int| 0 <= a < r.len() && 0 <= b < r.len() && a != b implies r[a]
            != r[b] by {
            if a < p.len() {
                assert(p.contains(p[a]));
            }
            if b < p.len() {
                assert(p.contains(p[b]));
            }
        }
        assert forall|k: int| #[trigger] r.contains(k) <==> (order.contains(k) || k == i) by {
            if r.contains(k) {
                let j = r.index_of(k);
                if j < p.len() {
                    assert(p.contains(p[j]));
                    if k != i {
                        assert(front.contains(k));
                        assert(order[front.index_of(k)] == k);
                    }
                } else {
                    assert(order.contains(order.last()));
                }
            }
            if order.contains(k) || k == i {
                if k == order.last() && k != i {
                    assert(r[r.len() - 1] == k);
                } else {
                    if order.contains(k) {
                        let j = order.index_of(k);
                        if j < front.len() {
                            assert(front[j] == k);
                        }
                    }
                    assert(p.contains(k));
                    assert(r[p.index_of(k)] == k);
                }
            }
        }
    }
}

/// Sorting gives every index exactly once, in the order of the keys.
pub proof fn sorting_sorts(keys: Seq<Seq<Seq<char>>>, n: nat)
    ensures
        in_order(keys, sorted_order(keys, n)),
        sorted_order(keys, n).no_duplicates(),
        sorted_order(keys, n).len() == n,
        forall|k: int| #[trigger] sorted_order(keys, n).contains(k) <==> 0 <= k < n,
    decreases n,
{
    if n > 0 {
        sorting_sorts(keys, (n - 1) as nat);
        let front = sorted_order(keys, (n - 1) as nat);
        assert(!front.contains(n - 1));
        placing_keeps(keys, front, n - 1);
    }
}

/// Whether a text stands before another, or is the same.
pub fn text_before(a: &str, b: &str) -> (r: bool)
    ensures
        r == text_le(a@, b@),
{
    let x = chars_of(a);
    let y = chars_of(b);
    let mut i: usize = 0;
    assert(x@.skip(0) =~= x@);
    assert(y@.skip(0) =~= y@);
    while i < x.len() && i < y.len() && x[i] == y[i]
        invariant
            i <= x@.len(),
            i <= y@.len(),
            text_le(x@, y@) == text_le(x@.skip(i as int), y@.skip(i as int)),
        decreases x@.len() - i,
    {
        assert(x@.skip(i as int).drop_first() =~= x@.skip(i + 1));
        assert(y@.skip(i as int).drop_first() =~= y@.skip(i + 1));
        i += 1;
    }
    if i == x.len() {
        true
    } else if i == y.len() {
        false
    } else {
        x[i] < y[i]
    }
}

fn list_before(a: &Vec<String>, b: &Vec<String>) -> (r: bool)
    ensures
        r == list_le(model::all(a@), model::all(b@)),
{
    let ghost x = model::all(a@);
    let ghost y = model::all(b@);
    let mut i: usize = 0;
    assert(x.skip(0) =~= x);
    assert(y.skip(0) =~= y);
    while i < a.len() && i < b.len() && str_eq(a[i].as_str(), b[i].as_str())
        invariant
            i <= a@.len(),
            i <= b@.len(),
            x == model::all(a@),
            y == model::all(b@),
            list_le(x, y) == list_le(x.skip(i as int), y.skip(i as int)),
        decreases a@.len() - i,
    {
        assert(x.skip(i as int).drop_first() =~= x.skip(i + 1));
        assert(y.skip(i as int).drop_first() =~= y.skip(i + 1));
        i += 1;
    }
    if i == a.len() {
        true
    } else if i == b.len() {
        false
    } else {
        text_before(a[i].as_str(), b[i].as_str())
    }
}

/// The contents of lists of texts.
pub open spec fn lists_view(keys: Seq<Vec<String>>) -> Seq<Seq<Seq<char>>> {
    Seq::new(keys.len(), |i: int| model::all(keys[i]@))
}

/// Indices as mathematical integers.
pub open spec fn indices(s: Seq<usize>) -> Seq<int> {
    Seq::new(s.len(), |i: int| s[i] as int)
}

proof fn placed_at(keys: Seq<Seq<Seq<char>>>, order: Seq<int>, i: int, pos: int)
    requires
        0 <= pos <= order.len(),
        forall|k: int| pos <= k < order.len() ==> !list_le(keys[#[trigger] order[k]], keys[i]),
        pos > 0 ==> list_le(keys[order[pos - 1]], keys[i]),
    ensures
        placed(keys, order, i) == order.insert(pos, i),
    decreases order.len(),
{
    if order.len() == 0 {
        assert(seq![i] =~= order.insert(0, i));
    } else if pos == order.len() {
        assert(order.push(i) =~= order.insert(pos, i));
    } else {
        placed_at(keys, order.drop_last(), i, pos);
        assert(order.drop_last().insert(pos, i).push(order.last()) =~= order.insert(pos, i));
    }
}

/// The indices of keys in the order of the keys.
pub fn order_of(keys: &Vec<Vec<String>>) -> (r: Vec<usize>)
    ensures
        indices(r@) == sorted_order(lists_view(keys@), keys@.len()),
        forall|k: int| 0 <= k < r@.len() ==> (#[trigger] r@[k]) < keys@.len(),
{
    let ghost all = lists_view(keys@);
    let mut order: Vec<usize> = Vec::new();
    let mut i: usize = 0;
    assert(indices(order@) =~= Seq::<int>::empty());
    while i < keys.len()
        invariant
            i <= keys@.len(),
            all == lists_view(keys@),
            indices(order@) == sorted_order(all, i as nat),
            order@.len() == i,
            forall|k: int| 0 <= k < order@.len() ==> (#[trigger] order@[k]) < i,
        decreases keys@.len() - i,
    {
        let mut pos: usize = order.len();
        while pos > 0 && !list_before(&keys[order[pos - 1]], &keys[i])
            invariant
                pos <= order@.len(),
                i < keys@.len(),
                all == lists_view(keys@),
                forall|k: int| 0 <= k < order@.len() ==> (#[trigger] order@[k]) < i,
                forall|k: int|
                    pos <= k < order@.len() ==> !list_le(
                        all[#[trigger] indices(order@)[k]],
                        all[i as int],
                    ),
            decreases pos,
        {
            pos = pos - 1;
        }
        proof {
            placed_at(all, indices(order@), i as int, pos as int);
            assert(indices(order@.insert(pos as int, i)) =~= indices(order@).insert(
                pos as int,
                i as int,
            ));
        }
        order.insert(pos, i);
        i += 1;
    }
    order
}

} // verus!
