//! Runs of one item at the front and at the back of a sequence.

use vstd::prelude::*;

verus! {

/// `count` copies of `item`.
pub open spec fn repeat<T>(item: T, count: nat) -> Seq<T> {
    Seq::new(count, |i: int| item)
}

/// How many items at the front of `items` equal `item`.
pub open spec fn leading_count<T>(items: Seq<T>, item: T) -> nat
    decreases items.len(),
{
    if items.len() > 0 && items[0] == item {
        1 + leading_count(items.drop_first(), item)
    } else {
        0
    }
}

/// How many items at the back of `items` equal `item`.
pub open spec fn trailing_count<T>(items: Seq<T>, item: T) -> nat
    decreases items.len(),
{
    if items.len() > 0 && items.last() == item {
        1 + trailing_count(items.drop_last(), item)
    } else {
        0
    }
}

/// The items in front of a sequence that equal `item` are followed by the
/// rest, which does not begin with `item`.
pub proof fn lemma_leading_split<T>(items: Seq<T>, item: T)
    ensures
        leading_count(items, item) <= items.len(),
        items =~= repeat(item, leading_count(items, item)) + items.skip(
            leading_count(items, item) as int,
        ),
        leading_count(items, item) < items.len() ==> items[leading_count(items, item) as int]
            != item,
    decreases items.len(),
{
    if items.len() > 0 && items[0] == item {
        let rest = items.drop_first();
        lemma_leading_split(rest, item);
        let k = leading_count(rest, item);
        let joined = repeat(item, k + 1) + items.skip(k as int + 1);
        assert forall|i: int| 0 <= i < items.len() implies items[i] == joined[i] by {
            if i > 0 {
                assert(rest[i - 1] == (repeat(item, k) + rest.skip(k as int))[i - 1]);
            }
        }
    }
}

/// Counting the leading `item`s of `count` copies of `item` followed by a
/// rest that does not begin with `item` gives `count`.
pub proof fn lemma_leading_count<T>(count: nat, rest: Seq<T>, item: T)
    requires
        rest.len() > 0 ==> rest[0] != item,
    ensures
        leading_count(repeat(item, count) + rest, item) == count,
    decreases count,
{
    let all = repeat(item, count) + rest;
    if count > 0 {
        assert(all.drop_first() =~= repeat(item, (count - 1) as nat) + rest);
        lemma_leading_count((count - 1) as nat, rest, item);
    }
}

/// The items at the back of a sequence that equal `item` come behind an
/// item that does not.
pub proof fn lemma_trailing_split<T>(items: Seq<T>, item: T)
    ensures
        trailing_count(items, item) <= items.len(),
        forall|i: int|
            items.len() - trailing_count(items, item) <= i < items.len() ==> #[trigger] items[i]
                == item,
        trailing_count(items, item) < items.len() ==> items[items.len() - trailing_count(
            items,
            item,
        ) - 1] != item,
    decreases items.len(),
{
    if items.len() > 0 && items.last() == item {
        let rest = items.drop_last();
        lemma_trailing_split(rest, item);
        let k = trailing_count(rest, item);
        assert forall|i: int| items.len() - (k + 1) <= i < items.len() implies #[trigger] items[i]
            == item by {
            if i < items.len() - 1 {
                assert(items[i] == rest[i]);
            }
        }
    }
}

/// Counting the trailing `item`s of a sequence that does not end with
/// `item`, followed by `count` copies of `item`, gives `count`.
pub proof fn lemma_trailing_count<T>(rest: Seq<T>, item: T, count: nat)
    requires
        rest.len() > 0 ==> rest.last() != item,
    ensures
        trailing_count(rest + repeat(item, count), item) == count,
    decreases count,
{
    let all = rest + repeat(item, count);
    if count > 0 {
        assert(all.drop_last() =~= rest + repeat(item, (count - 1) as nat));
        lemma_trailing_count(rest, item, (count - 1) as nat);
    }
}

} // verus!
