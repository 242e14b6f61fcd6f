//! What is written of a store is read back as it was.

use crate::text::{
    braced, collect, decimal, entry_text, is_brace, is_digit, joined, lemma_decimal_is_read_back,
    lemma_find_is, lemma_first_unbraced_is, lemma_last_unbraced_is, map_text, parse_entry,
    parse_map, split, stores, trimmed, CLOSE_BRACE, COLON, COMMA, OPEN_BRACE,
};
use vstd::prelude::*;

verus! {

/// Whether the text is made of digits and colons, with a digit at each end.
spec fn is_entry_like(text: Seq<u8>) -> bool {
    &&& text.len() > 0
    &&& is_digit(text.first())
    &&& is_digit(text.last())
    &&& forall|i: int| 0 <= i < text.len() ==> is_digit(#[trigger] text[i]) || text[i] == COLON
}

spec fn all_entry_like(parts: Seq<Seq<u8>>) -> bool {
    forall|i: int| 0 <= i < parts.len() ==> is_entry_like(#[trigger] parts[i])
}

/// The entries as they are stored, one text for each.
spec fn entry_texts(order: Seq<(u32, u32)>) -> Seq<Seq<u8>> {
    order.map_values(|entry: (u32, u32)| entry_text(entry.0, entry.1))
}

/// The map that the entries give when they are put in first to last.
spec fn gathered(order: Seq<(u32, u32)>) -> Map<u32, u32>
    decreases order.len(),
{
    if order.len() == 0 {
        Map::empty()
    } else {
        gathered(order.drop_last()).insert(order.last().0, order.last().1)
    }
}

proof fn lemma_entry_text(key: u32, value: u32)
    ensures
        is_entry_like(entry_text(key, value)),
        parse_entry(entry_text(key, value)) == Some((key, value)),
{
    let k = decimal(key as nat);
    let v = decimal(value as nat);
    let entry = entry_text(key, value);
    lemma_decimal_is_read_back(key as nat);
    lemma_decimal_is_read_back(value as nat);
    lemma_find_is(entry, COLON, 0, k.len() as int);
    assert(entry.subrange(0, k.len() as int) =~= k);
    assert(entry.subrange(k.len() as int + 1, entry.len() as int) =~= v);
    lemma_find_is(v, COLON, 0, v.len() as int);
    assert(split(v, COLON) == seq![v]);
}

/// With two parts or more, the first part stands before a comma and the
/// rest.
proof fn lemma_joined_from_the_left(parts: Seq<Seq<u8>>)
    requires
        parts.len() >= 2,
    ensures
        joined(parts) == parts.first() + seq![COMMA] + joined(parts.drop_first()),
    decreases parts.len(),
{
    let rest = parts.drop_first();
    if parts.len() == 2 {
        assert(joined(parts.drop_last()) == parts.first());
    } else {
        lemma_joined_from_the_left(parts.drop_last());
        assert(rest.drop_last() =~= parts.drop_last().drop_first());
    }
}

proof fn lemma_joined_is_entry_like(parts: Seq<Seq<u8>>)
    requires
        parts.len() > 0,
        all_entry_like(parts),
    ensures
        joined(parts).len() > 0,
        is_digit(joined(parts).first()),
        is_digit(joined(parts).last()),
        forall|i: int| 0 <= i < joined(parts).len() ==> !is_brace(#[trigger] joined(parts)[i]),
    decreases parts.len(),
{
    if parts.len() > 1 {
        lemma_joined_is_entry_like(parts.drop_last());
    }
}

/// Parts without a comma are got back when what joins them is split.
proof fn lemma_split_of_joined(parts: Seq<Seq<u8>>)
    requires
        parts.len() > 0,
        all_entry_like(parts),
    ensures
        split(joined(parts), COMMA) == parts,
    decreases parts.len(),
{
    let text = joined(parts);
    let first = parts.first();
    if parts.len() == 1 {
        lemma_find_is(text, COMMA, 0, text.len() as int);
    } else {
        let rest = parts.drop_first();
        lemma_joined_from_the_left(parts);
        lemma_split_of_joined(rest);
        lemma_find_is(text, COMMA, 0, first.len() as int);
        assert(text.subrange(0, first.len() as int) =~= first);
        assert(text.subrange(first.len() as int + 1, text.len() as int) =~= joined(rest));
    }
}

/// Between the braces stands what was joined.
proof fn lemma_trimmed_of_braced(parts: Seq<Seq<u8>>)
    requires
        all_entry_like(parts),
    ensures
        trimmed(braced(joined(parts))) == joined(parts),
{
    let body = joined(parts);
    let text = braced(body);
    if parts.len() == 0 {
        lemma_first_unbraced_is(text, 0, 2);
    } else {
        lemma_joined_is_entry_like(parts);
        lemma_first_unbraced_is(text, 0, 1);
        let inner = text.subrange(1, text.len() as int);
        lemma_last_unbraced_is(inner, inner.len() as int, body.len() as int);
    }
}

proof fn lemma_collect_of_entry_texts(order: Seq<(u32, u32)>)
    ensures
        all_entry_like(entry_texts(order)),
        collect(entry_texts(order)) == gathered(order),
    decreases order.len(),
{
    let parts = entry_texts(order);
    assert forall|i: int| 0 <= i < parts.len() implies is_entry_like(#[trigger] parts[i]) by {
        lemma_entry_text(order[i].0, order[i].1);
    }
    if order.len() > 0 {
        lemma_collect_of_entry_texts(order.drop_last());
        assert(parts.drop_last() =~= entry_texts(order.drop_last()));
        lemma_entry_text(order.last().0, order.last().1);
    }
}

proof fn lemma_gathered_within(order: Seq<(u32, u32)>, map: Map<u32, u32>)
    requires
        forall|i: int| 0 <= i < order.len() ==> map.contains_pair(order[i].0, order[i].1),
    ensures
        forall|key: u32| #[trigger]
            gathered(order).contains_key(key) ==> map.contains_key(key) && gathered(order)[key]
                == map[key],
        forall|i: int| 0 <= i < order.len() ==> gathered(order).contains_key(#[trigger] order[i].0),
    decreases order.len(),
{
    if order.len() > 0 {
        let earlier = order.drop_last();
        lemma_gathered_within(earlier, map);
        assert forall|key: u32| #[trigger] gathered(order).contains_key(key) implies map.contains_key(
            key,
        ) && gathered(order)[key] == map[key] by {
            if key != order.last().0 {
                assert(gathered(earlier).contains_key(key));
            }
        }
        assert forall|i: int| 0 <= i < order.len() implies gathered(order).contains_key(
            #[trigger] order[i].0,
        ) by {
            if i < earlier.len() {
                assert(gathered(earlier).contains_key(earlier[i].0));
            }
        }
    }
}

/// The entries of a map, written in any order, are read as that map.
pub proof fn lemma_entries_are_read_back(order: Seq<(u32, u32)>, map: Map<u32, u32>)
    requires
        order.to_set() == map.kv_pairs(),
    ensures
        parse_map(map_text(order)) == map,
{
    let parts = entry_texts(order);
    lemma_collect_of_entry_texts(order);
    lemma_trimmed_of_braced(parts);
    if parts.len() > 0 {
        lemma_split_of_joined(parts);
    } else {
        let none = Seq::<u8>::empty();
        assert(seq![none].drop_last() =~= Seq::<Seq<u8>>::empty());
        assert(collect(Seq::<Seq<u8>>::empty()) == Map::<u32, u32>::empty());
    }
    assert forall|i: int| 0 <= i < order.len() implies map.contains_pair(
        order[i].0,
        order[i].1,
    ) by {
        assert(map.kv_pairs().contains(order[i]));
    }
    lemma_gathered_within(order, map);
    assert forall|key: u32| map.contains_key(key) implies gathered(order).contains_key(key) by {
        assert(order.to_set().contains((key, map[key])));
    }
}

/// What a store writes of its map, a store reads as that map.
pub proof fn lemma_saved_is_loaded(text: Seq<u8>, map: Map<u32, u32>)
    requires
        stores(text, map),
    ensures
        parse_map(text) == map,
{
    let order = choose|order: Seq<(u32, u32)>|
        #[trigger] map_text(order) == text && order.no_duplicates() && order.to_set()
            == map.kv_pairs();
    lemma_entries_are_read_back(order, map);
}

} // verus!
