//! Texts in ascending order, each once.

use crate::text;
use vstd::prelude::*;

verus! {

/// Texts in strictly ascending order.
pub open spec fn in_order(list: Seq<Seq<char>>) -> bool {
    forall|i: int, j: int|
        0 <= i < j < list.len() ==> text::comes_before(#[trigger] list[i], #[trigger] list[j])
}

/// Texts in order with one more in its place; one that is there already stays
/// alone.
pub open spec fn with_text(list: Seq<Seq<char>>, item: Seq<char>) -> Seq<Seq<char>>
    decreases list.len(),
{
    if list.len() == 0 {
        seq![item]
    } else if list.last() == item {
        list
    } else if text::comes_before(list.last(), item) {
        list.push(item)
    } else {
        with_text(list.drop_last(), item).push(list.last())
    }
}

/// One more text keeps the order, and only it is added.
pub proof fn lemma_with_text_keeps_order(list: Seq<Seq<char>>, item: Seq<char>)
    requires
        in_order(list),
    ensures
        in_order(with_text(list, item)),
        forall|other: Seq<char>|
            #[trigger] with_text(list, item).contains(other) <==> list.contains(other) || other == item,
    decreases list.len(),
{
    let all = with_text(list, item);
    if list.len() == 0 {
        assert(all[0] == item);
    } else if list.last() == item {
        assert(list[list.len() - 1] == item);
    } else if text::comes_before(list.last(), item) {
        assert forall|i: int, j: int| 0 <= i < j < all.len() implies text::comes_before(
            #[trigger] all[i],
            #[trigger] all[j],
        ) by {
            if j == list.len() && i < list.len() - 1 {
                text::lemma_order_transitive(list[i], list.last(), item);
            }
        }
        assert(all[list.len() as int] == item);
        assert forall|other: Seq<char>| list.contains(other) implies #[trigger] all.contains(
            other,
        ) by {
            let k = choose|k: int| 0 <= k < list.len() && list[k] == other;
            assert(all[k] == other);
        }
    } else {
        let rest = list.drop_last();
        let part = with_text(rest, item);
        lemma_with_text_keeps_order(rest, item);
        text::lemma_order_total(list.last(), item);
        assert forall|i: int, j: int| 0 <= i < j < all.len() implies text::comes_before(
            #[trigger] all[i],
            #[trigger] all[j],
        ) by {
            if j == part.len() {
                assert(part.contains(all[i]));
                if rest.contains(all[i]) {
                    let k = choose|k: int| 0 <= k < rest.len() && rest[k] == all[i];
                    assert(list[k] == all[i]);
                    assert(list[list.len() - 1] == all[j]);
                }
            }
        }
        assert forall|other: Seq<char>|
            #[trigger] all.contains(other) <==> list.contains(other) || other == item by {
            if all.contains(other) {
                let k = choose|k: int| 0 <= k < all.len() && all[k] == other;
                if k < part.len() {
                    assert(part.contains(other));
                    if rest.contains(other) {
                        let m = choose|m: int| 0 <= m < rest.len() && rest[m] == other;
                        assert(list[m] == other);
                    }
                } else {
                    assert(list[list.len() - 1] == other);
                }
            }
            if list.contains(other) || other == item {
                if other == list.last() {
                    assert(all[part.len() as int] == other);
                } else {
                    if list.contains(other) {
                        let m = choose|m: int| 0 <= m < list.len() && list[m] == other;
                        assert(rest[m] == other);
                    }
                    assert(part.contains(other));
                    let k = choose|k: int| 0 <= k < part.len() && part[k] == other;
                    assert(all[k] == other);
                }
            }
        }
    }
}

/// Where an text goes, given how it stands to those at the end.
proof fn lemma_with_text(list: Seq<Seq<char>>, item: Seq<char>, place: int)
    requires
        0 <= place <= list.len(),
        forall|k: int|
            place <= k < list.len() ==> #[trigger] list[k] != item && !text::comes_before(list[k], item),
        place > 0 ==> list[place - 1] == item || text::comes_before(list[place - 1], item),
    ensures
        with_text(list, item) == if place > 0 && list[place - 1] == item {
            list
        } else {
            list.insert(place, item)
        },
    decreases list.len(),
{
    if place < list.len() {
        let rest = list.drop_last();
        assert forall|k: int| place <= k < rest.len() implies #[trigger] rest[k] != item
            && !text::comes_before(rest[k], item) by {
            assert(rest[k] == list[k]);
        }
        lemma_with_text(rest, item, place);
        assert(list.last() == list[list.len() - 1]);
        if place > 0 && list[place - 1] == item {
            assert(rest.push(list.last()) =~= list);
        } else {
            assert(rest.insert(place, item).push(list.last()) =~= list.insert(place, item));
        }
    } else if list.len() == 0 {
        assert(seq![item] =~= list.insert(0, item));
    } else if list.last() != item {
        assert(list.push(item) =~= list.insert(place, item));
    }
}

/// Finds the place of a text among texts: after those that come before it.  Tells
/// whether the last of these is the text itself.
pub fn place_of(list: &Vec<String>, item: &str) -> (found: (usize, bool))
    ensures
        found.0 <= list@.len(),
        forall|k: int|
            found.0 <= k < list@.len() ==> #[trigger] text::texts(list@)[k] != item@,
        found.0 > 0 ==> text::texts(list@)[found.0 - 1] == item@ || text::comes_before(
            text::texts(list@)[found.0 - 1],
            item@,
        ),
        found.1 <==> found.0 > 0 && text::texts(list@)[found.0 - 1] == item@,
        with_text(text::texts(list@), item@) == if found.1 {
            text::texts(list@)
        } else {
            text::texts(list@).insert(found.0 as int, item@)
        },
{
    let ghost known = text::texts(list@);
    let mut place: usize = list.len();
    while place > 0 && !text::same_text(list[place - 1].as_str(), item) && !text::precedes(
        list[place - 1].as_str(),
        item,
    )
        invariant
            place <= list@.len(),
            known == text::texts(list@),
            forall|k: int|
                place <= k < known.len() ==> #[trigger] known[k] != item@ && !text::comes_before(
                    known[k],
                    item@,
                ),
        decreases place,
    {
        assert(known[place - 1] == list@[place - 1]@);
        place = place - 1;
    }
    proof {
        if place > 0 {
            assert(known[place - 1] == list@[place - 1]@);
        }
        lemma_with_text(known, item@, place as int);
    }
    let present = place > 0 && text::same_text(list[place - 1].as_str(), item);
    (place, present)
}

/// Adds a text in its place, unless it is there already.
pub fn insert(list: &mut Vec<String>, item: String)
    ensures
        text::texts(final(list)@) == with_text(text::texts(old(list)@), item@),
{
    let (place, present) = place_of(list, item.as_str());
    if !present {
        let ghost known = text::texts(list@);
        let ghost value = item@;
        list.insert(place, item);
        assert(text::texts(list@) =~= known.insert(place as int, value));
    }
}

} // verus!
