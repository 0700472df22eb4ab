//! Putting things in order.

use vstd::prelude::*;

use crate::text::{chars, texts};

verus! {

/// `item` among `sorted`, in front of the first that does not rank before it.
pub open spec fn placed<T>(item: T, sorted: Seq<T>, before: spec_fn(T, T) -> bool) -> Seq<T>
    decreases sorted.len(),
{
    if sorted.len() == 0 || !before(sorted[0], item) {
        seq![item] + sorted
    } else {
        seq![sorted[0]] + placed(item, sorted.drop_first(), before)
    }
}

/// `items` in order; those of one rank stay as they stood.
pub open spec fn in_order<T>(items: Seq<T>, before: spec_fn(T, T) -> bool) -> Seq<T>
    decreases items.len(),
{
    if items.len() == 0 {
        seq![]
    } else {
        placed(items[0], in_order(items.drop_first(), before), before)
    }
}

/// Things that have a rank.
pub trait Ranked: Sized {
    spec fn ranks_before(self, other: Self) -> bool;

    fn is_before(&self, other: &Self) -> (r: bool)
        ensures
            r == self.ranks_before(*other),
    ;
}

/// The order that a type ranks its values in.
pub open spec fn rank<T: Ranked>() -> spec_fn(T, T) -> bool {
    |a: T, b: T| a.ranks_before(b)
}

proof fn lemma_placed_at<T>(item: T, sorted: Seq<T>, before: spec_fn(T, T) -> bool, at: int)
    requires
        0 <= at <= sorted.len(),
        forall|j: int| 0 <= j < at ==> before(#[trigger] sorted[j], item),
        at < sorted.len() ==> !before(sorted[at], item),
    ensures
        placed(item, sorted, before) == sorted.insert(at, item),
    decreases sorted.len(),
{
    if at == 0 {
        assert(seq![item] + sorted =~= sorted.insert(0, item));
    } else {
        let rest = sorted.drop_first();
        assert forall|j: int| 0 <= j < at - 1 implies before(#[trigger] rest[j], item) by {
            assert(rest[j] == sorted[j + 1]);
        }
        lemma_placed_at(item, rest, before, at - 1);
        assert(seq![sorted[0]] + rest.insert(at - 1, item) =~= sorted.insert(at, item));
    }
}

/// Put `items` in order; those of one rank stay as they stood.
pub fn sort<T: Ranked>(items: Vec<T>) -> (r: Vec<T>)
    ensures
        r@ == in_order(items@, rank::<T>()),
{
    let ghost all = items@;
    let ghost before = rank::<T>();
    let mut items: Vec<T> = items;
    let mut r: Vec<T> = Vec::new();
    assert(all.skip(all.len() as int) =~= seq![]);
    while items.len() > 0
        invariant
            items.len() <= all.len(),
            items@ == all.take(items.len() as int),
            r@ == in_order(all.skip(items.len() as int), before),
            before == rank::<T>(),
        decreases items.len(),
    {
        let ghost k = items.len() - 1;
        let item: T = items.pop().unwrap();
        let mut at: usize = 0;
        while at < r.len() && r[at].is_before(&item)
            invariant
                at <= r.len(),
                before == rank::<T>(),
                forall|j: int| 0 <= j < at ==> before(#[trigger] r@[j], item),
            decreases r.len() - at,
        {
            at = at + 1;
        }
        proof {
            lemma_placed_at(item, r@, before, at as int);
            assert(all.skip(k).drop_first() =~= all.skip(k + 1));
            assert(all.skip(k)[0] == item);
            assert(items@ =~= all.take(k));
        }
        r.insert(at, item);
    }
    assert(all.skip(0) =~= all);
    r
}

// --- What sorting keeps ------------------------------------------------------

/// Whether an order is one: nothing ranks before itself, and what ranks apart
/// from one thing ranks apart on one side of it.
pub open spec fn is_order<T>(before: spec_fn(T, T) -> bool) -> bool {
    &&& forall|a: T| !#[trigger] before(a, a)
    &&& forall|a: T, b: T, c: T| #[trigger]
        before(a, b) && #[trigger] before(b, c) ==> before(a, c)
    &&& forall|a: T, b: T, c: T|
        before(a, c) ==> #[trigger] before(a, b) || #[trigger] before(b, c)
}

/// Whether nothing ranks before what it stands after.
pub open spec fn is_sorted<T>(items: Seq<T>, before: spec_fn(T, T) -> bool) -> bool {
    forall|i: int, j: int|
        0 <= i < j < items.len() ==> !before(#[trigger] items[j], #[trigger] items[i])
}

proof fn lemma_placed<T>(item: T, sorted: Seq<T>, before: spec_fn(T, T) -> bool)
    requires
        is_order(before),
        is_sorted(sorted, before),
    ensures
        is_sorted(placed(item, sorted, before), before),
        placed(item, sorted, before).to_multiset() == sorted.to_multiset().insert(item),
    decreases sorted.len(),
{
    broadcast use vstd::seq_lib::group_to_multiset_ensures;
    if sorted.len() == 0 || !before(sorted[0], item) {
        let r = seq![item] + sorted;
        assert forall|i: int, j: int| 0 <= i < j < r.len() implies !before(
            #[trigger] r[j],
            #[trigger] r[i],
        ) by {
            if i == 0 && before(r[j], item) {
                assert(before(sorted[j - 1], sorted[0]) || before(sorted[0], item));
            }
        }
        assert(sorted.insert(0, item) =~= r);
    } else {
        let rest = sorted.drop_first();
        assert forall|i: int, j: int| 0 <= i < j < rest.len() implies !before(
            #[trigger] rest[j],
            #[trigger] rest[i],
        ) by {
            assert(rest[j] == sorted[j + 1] && rest[i] == sorted[i + 1]);
        }
        lemma_placed(item, rest, before);
        let tail = placed(item, rest, before);
        let r = seq![sorted[0]] + tail;
        assert forall|i: int, j: int| 0 <= i < j < r.len() implies !before(
            #[trigger] r[j],
            #[trigger] r[i],
        ) by {
            assert(r[j] == tail[j - 1]);
            if i == 0 {
                assert(tail.to_multiset().count(tail[j - 1]) > 0);
                if tail[j - 1] != item {
                    assert(rest.to_multiset().count(tail[j - 1]) > 0);
                    assert(rest.contains(tail[j - 1]));
                    let m = choose|m: int| 0 <= m < rest.len() && rest[m] == tail[j - 1];
                    assert(sorted[m + 1] == tail[j - 1]);
                } else if before(item, sorted[0]) {
                    assert(before(item, item));
                }
            } else {
                assert(r[i] == tail[i - 1]);
            }
        }
        assert(sorted =~= rest.insert(0, sorted[0]));
        assert(r =~= tail.insert(0, sorted[0]));
        assert(r.to_multiset() =~= sorted.to_multiset().insert(item));
    }
}

/// Things put in order are all there, and in order.
pub proof fn sorting_keeps_everything<T>(items: Seq<T>, before: spec_fn(T, T) -> bool)
    requires
        is_order(before),
    ensures
        is_sorted(in_order(items, before), before),
        in_order(items, before).to_multiset() == items.to_multiset(),
        in_order(items, before).len() == items.len(),
    decreases items.len(),
{
    broadcast use vstd::seq_lib::group_to_multiset_ensures;
    if items.len() > 0 {
        let rest = items.drop_first();
        sorting_keeps_everything(rest, before);
        lemma_placed(items[0], in_order(rest, before), before);
        assert(rest.insert(0, items[0]) =~= items);
    }
    assert(in_order(items, before).len() == in_order(items, before).to_multiset().len());
    assert(items.len() == items.to_multiset().len());
}

/// Those of one rank.
pub open spec fn peers<T>(items: Seq<T>, of: T, before: spec_fn(T, T) -> bool) -> Seq<T>
    decreases items.len(),
{
    if items.len() == 0 {
        seq![]
    } else {
        let rest = peers(items.drop_first(), of, before);
        if !before(items[0], of) && !before(of, items[0]) {
            seq![items[0]] + rest
        } else {
            rest
        }
    }
}

proof fn lemma_placed_peers<T>(
    item: T,
    sorted: Seq<T>,
    of: T,
    before: spec_fn(T, T) -> bool,
)
    requires
        is_order(before),
    ensures
        peers(placed(item, sorted, before), of, before) == peers(seq![item] + sorted, of, before),
    decreases sorted.len(),
{
    let one = seq![item] + sorted;
    assert(one.drop_first() =~= sorted);
    if sorted.len() > 0 && before(sorted[0], item) {
        let rest = sorted.drop_first();
        let tail = placed(item, rest, before);
        lemma_placed_peers(item, rest, of, before);
        assert((seq![item] + rest).drop_first() =~= rest);
        assert((seq![sorted[0]] + tail).drop_first() =~= tail);
        let near = peers(rest, of, before);
        let one_rest = seq![item] + rest;
        let moved = seq![sorted[0]] + tail;
        assert(before(sorted[0], of) || before(of, item));
        let is_peer = !before(item, of) && !before(of, item);
        assert(peers(one_rest, of, before) == if is_peer {
            seq![item] + near
        } else {
            near
        });
        assert(moved[0] == sorted[0] && one[0] == item);
        if is_peer {
            assert(peers(sorted, of, before) == near);
            assert(peers(moved, of, before) == peers(tail, of, before));
        } else {
            assert(peers(one, of, before) == peers(sorted, of, before));
        }
    }
}

/// Things of one rank stay as they stood.
pub proof fn sorting_is_stable<T>(items: Seq<T>, of: T, before: spec_fn(T, T) -> bool)
    requires
        is_order(before),
    ensures
        peers(in_order(items, before), of, before) == peers(items, of, before),
    decreases items.len(),
{
    if items.len() > 0 {
        let rest = items.drop_first();
        sorting_is_stable(rest, of, before);
        lemma_placed_peers(items[0], in_order(rest, before), of, before);
        assert((seq![items[0]] + in_order(rest, before)).drop_first() =~= in_order(rest, before));
    }
}

proof fn lemma_placed_mapped<T, U>(
    item: T,
    sorted: Seq<T>,
    before: spec_fn(T, T) -> bool,
    f: spec_fn(T) -> U,
    mapped: spec_fn(U, U) -> bool,
)
    requires
        forall|a: T, b: T| #[trigger] before(a, b) == mapped(f(a), f(b)),
    ensures
        placed(item, sorted, before).map_values(f) == placed(
            f(item),
            sorted.map_values(f),
            mapped,
        ),
    decreases sorted.len(),
{
    let images = sorted.map_values(f);
    if sorted.len() == 0 || !before(sorted[0], item) {
        assert((seq![item] + sorted).map_values(f) =~= seq![f(item)] + images);
        assert(sorted.len() > 0 ==> before(sorted[0], item) == mapped(images[0], f(item)));
    } else {
        let rest = sorted.drop_first();
        lemma_placed_mapped(item, rest, before, f, mapped);
        assert(rest.map_values(f) =~= images.drop_first());
        assert(before(sorted[0], item) == mapped(images[0], f(item)));
        assert((seq![sorted[0]] + placed(item, rest, before)).map_values(f) =~= seq![images[0]]
            + placed(item, rest, before).map_values(f));
    }
}

/// Sorting goes by what the order looks at.
pub proof fn lemma_in_order_mapped<T, U>(
    items: Seq<T>,
    before: spec_fn(T, T) -> bool,
    f: spec_fn(T) -> U,
    mapped: spec_fn(U, U) -> bool,
)
    requires
        forall|a: T, b: T| #[trigger] before(a, b) == mapped(f(a), f(b)),
    ensures
        in_order(items, before).map_values(f) == in_order(items.map_values(f), mapped),
    decreases items.len(),
{
    if items.len() == 0 {
        assert(in_order(items, before).map_values(f) =~= seq![]);
        assert(items.map_values(f) =~= seq![]);
    } else {
        let rest = items.drop_first();
        lemma_in_order_mapped(rest, before, f, mapped);
        lemma_placed_mapped(items[0], in_order(rest, before), before, f, mapped);
        assert(items.map_values(f).drop_first() =~= rest.map_values(f));
    }
}

// --- Texts -------------------------------------------------------------------

/// Whether a text comes before another: by the first character in which they
/// differ, and a text before those that it starts.
pub open spec fn text_before(a: Seq<char>, b: Seq<char>) -> bool
    decreases a.len(),
{
    if b.len() == 0 {
        false
    } else if a.len() == 0 {
        true
    } else if a[0] != b[0] {
        a[0] < b[0]
    } else {
        text_before(a.drop_first(), b.drop_first())
    }
}

/// The order of texts.
pub open spec fn text_order() -> spec_fn(Seq<char>, Seq<char>) -> bool {
    |a: Seq<char>, b: Seq<char>| text_before(a, b)
}

fn before_text(a: &[char], b: &[char]) -> (r: bool)
    ensures
        r == text_before(a@, b@),
{
    let mut i: usize = 0;
    assert(a@.skip(0) =~= a@);
    assert(b@.skip(0) =~= b@);
    while i < a.len() && i < b.len() && a[i] == b[i]
        invariant
            i <= a.len(),
            i <= b.len(),
            text_before(a@, b@) == text_before(a@.skip(i as int), b@.skip(i as int)),
        decreases a.len() - i,
    {
        proof {
            assert(a@.skip(i as int).drop_first() =~= a@.skip(i + 1));
            assert(b@.skip(i as int).drop_first() =~= b@.skip(i + 1));
        }
        i = i + 1;
    }
    if i >= b.len() {
        false
    } else if i >= a.len() {
        true
    } else {
        a[i] < b[i]
    }
}

impl Ranked for String {
    open spec fn ranks_before(self, other: Self) -> bool {
        text_before(self@, other@)
    }

    fn is_before(&self, other: &Self) -> (r: bool) {
        before_text(&chars(self), &chars(other))
    }
}

/// Some texts in order.
pub open spec fn sorted_texts(items: Seq<Seq<char>>) -> Seq<Seq<char>> {
    in_order(items, text_order())
}

/// Sort texts.
pub fn sort_texts(items: Vec<String>) -> (r: Vec<String>)
    ensures
        texts(r@) == sorted_texts(texts(items@)),
{
    proof {
        let f = |s: String| s@;
        lemma_in_order_mapped(items@, rank::<String>(), f, text_order());
        assert(texts(items@) =~= items@.map_values(f));
    }
    let r: Vec<String> = sort(items);
    assert(texts(r@) =~= r@.map_values(|s: String| s@));
    r
}

proof fn lemma_text_order(a: Seq<char>, b: Seq<char>, c: Seq<char>)
    ensures
        !text_before(a, a),
        text_before(a, b) && text_before(b, c) ==> text_before(a, c),
        text_before(a, c) ==> text_before(a, b) || text_before(b, c),
        !text_before(a, b) && !text_before(b, a) ==> a == b,
    decreases a.len(),
{
    if a.len() == 0 {
        if b.len() == 0 {
            assert(a =~= b);
        }
    } else if b.len() > 0 && c.len() > 0 {
        lemma_text_order(a.drop_first(), b.drop_first(), c.drop_first());
        if a[0] == b[0] && a.drop_first() == b.drop_first() {
            assert(a =~= seq![a[0]] + a.drop_first());
            assert(b =~= seq![b[0]] + b.drop_first());
        }
    } else {
        lemma_text_order(a.drop_first(), b.drop_first(), c);
        if b.len() > 0 && a[0] == b[0] && a.drop_first() == b.drop_first() {
            assert(a =~= seq![a[0]] + a.drop_first());
            assert(b =~= seq![b[0]] + b.drop_first());
        }
    }
}

/// Texts are ordered, and two that rank alike are the same: a sorted list of
/// texts is the only one with these texts.
pub proof fn texts_are_ordered(a: Seq<char>, b: Seq<char>)
    ensures
        is_order(text_order()),
        a != b ==> text_before(a, b) || text_before(b, a),
{
    let before = text_order();
    assert forall|a: Seq<char>| !#[trigger] before(a, a) by {
        lemma_text_order(a, a, a);
    }
    assert forall|a: Seq<char>, b: Seq<char>, c: Seq<char>| #[trigger]
        before(a, b) && #[trigger] before(b, c) implies before(a, c) by {
        lemma_text_order(a, b, c);
    }
    assert forall|a: Seq<char>, b: Seq<char>, c: Seq<char>| before(a, c) implies #[trigger] before(
        a,
        b,
    ) || #[trigger] before(b, c) by {
        lemma_text_order(a, b, c);
    }
    lemma_text_order(a, b, b);
}

/// Sorting texts keeps them all, and puts them in order.
pub proof fn sorted_texts_are_all_there(items: Seq<Seq<char>>)
    ensures
        is_sorted(sorted_texts(items), text_order()),
        sorted_texts(items).to_multiset() == items.to_multiset(),
        sorted_texts(items).len() == items.len(),
{
    texts_are_ordered(seq![], seq![]);
    sorting_keeps_everything(items, text_order());
}

/// Texts rank by the first character in which they differ, and one that another
/// starts with ranks before it.
pub proof fn texts_rank_like_words(p: Seq<char>, x: char, y: char, a: Seq<char>, b: Seq<char>)
    requires
        x < y,
    ensures
        text_before(p + seq![x] + a, p + seq![y] + b),
        !text_before(p + seq![y] + b, p + seq![x] + a),
        text_before(p, p + seq![x] + a),
        !text_before(p + seq![x] + a, p),
        !text_before(p, p),
    decreases p.len(),
{
    if p.len() > 0 {
        let q = p.drop_first();
        assert((p + seq![x] + a).drop_first() =~= q + seq![x] + a);
        assert((p + seq![y] + b).drop_first() =~= q + seq![y] + b);
        texts_rank_like_words(q, x, y, a, b);
    }
}

/// A thing is among some exactly where it is among them put in order.
pub proof fn sorting_loses_nothing<T>(items: Seq<T>, before: spec_fn(T, T) -> bool, item: T)
    requires
        is_order(before),
    ensures
        in_order(items, before).contains(item) <==> items.contains(item),
{
    broadcast use vstd::seq_lib::group_to_multiset_ensures;
    sorting_keeps_everything(items, before);
    assert(in_order(items, before).to_multiset().count(item) == items.to_multiset().count(item));
}

} // verus!
