//! Sorting by a text key, in the order of the bytes of the text.

use vstd::prelude::*;

verus! {

/// Lexicographic order of byte sequences.
pub open spec fn bytes_le(left: Seq<u8>, right: Seq<u8>) -> bool
    decreases left.len(),
{
    ||| left.len() == 0
    ||| right.len() > 0 && (left[0] < right[0] || (left[0] == right[0] && bytes_le(
        left.drop_first(),
        right.drop_first(),
    )))
}

/// The order of texts: that of their UTF-8 bytes.
pub open spec fn text_le(left: Seq<char>, right: Seq<char>) -> bool {
    bytes_le(vstd::utf8::encode_utf8(left), vstd::utf8::encode_utf8(right))
}

/// A value that is sorted by a text.
pub trait Keyed {
    spec fn key(&self) -> Seq<char>;
}

/// A value that can hand out the text it is sorted by.
pub trait TextKeyed: Keyed {
    fn key_text(&self) -> (text: &str)
        ensures
            text@ == self.key(),
    ;
}

impl Keyed for String {
    open spec fn key(&self) -> Seq<char> {
        self@
    }
}

impl TextKeyed for String {
    fn key_text(&self) -> (text: &str) {
        self.as_str()
    }
}

impl Keyed for Seq<char> {
    open spec fn key(&self) -> Seq<char> {
        *self
    }
}

/// `sorted` with `item` behind the last value that does not come after it.
pub open spec fn inserted<T: Keyed>(sorted: Seq<T>, item: T) -> Seq<T>
    decreases sorted.len(),
{
    if sorted.len() == 0 || text_le(sorted.last().key(), item.key()) {
        sorted.push(item)
    } else {
        inserted(sorted.drop_last(), item).push(sorted.last())
    }
}

/// `items` in the order of their keys; values with equal keys keep their order.
pub open spec fn sorted_by_key<T: Keyed>(items: Seq<T>) -> Seq<T>
    decreases items.len(),
{
    if items.len() == 0 {
        items
    } else {
        inserted(sorted_by_key(items.drop_last()), items.last())
    }
}

/// The keys never decrease.
pub open spec fn is_in_key_order<T: Keyed>(items: Seq<T>) -> bool {
    forall|i: int, j: int|
        0 <= i <= j < items.len() ==> text_le(
            (#[trigger] items[i]).key(),
            (#[trigger] items[j]).key(),
        )
}

/// The values that have the given key, in order.
pub open spec fn with_key<T: Keyed>(items: Seq<T>, key: Seq<char>) -> Seq<T> {
    items.filter(|item: T| item.key() == key)
}

/// Any two byte sequences are ordered one way or the other.
pub proof fn lemma_bytes_le_total(left: Seq<u8>, right: Seq<u8>)
    ensures
        bytes_le(left, right) || bytes_le(right, left),
    decreases left.len(),
{
    if left.len() > 0 && right.len() > 0 {
        lemma_bytes_le_total(left.drop_first(), right.drop_first());
    }
}

pub proof fn lemma_bytes_le_transitive(a: Seq<u8>, b: Seq<u8>, c: Seq<u8>)
    requires
        bytes_le(a, b),
        bytes_le(b, c),
    ensures
        bytes_le(a, c),
    decreases a.len(),
{
    if a.len() > 0 && a[0] == b[0] && b[0] == c[0] {
        lemma_bytes_le_transitive(a.drop_first(), b.drop_first(), c.drop_first());
    }
}

pub proof fn lemma_bytes_le_antisymmetric(left: Seq<u8>, right: Seq<u8>)
    requires
        bytes_le(left, right),
        bytes_le(right, left),
    ensures
        left == right,
    decreases left.len(),
{
    if left.len() > 0 {
        lemma_bytes_le_antisymmetric(left.drop_first(), right.drop_first());
        assert(left =~= seq![left[0]] + left.drop_first());
        assert(right =~= seq![right[0]] + right.drop_first());
    } else {
        assert(left =~= right);
    }
}

/// Only equal texts come before each other both ways.
pub proof fn lemma_text_le_antisymmetric(left: Seq<char>, right: Seq<char>)
    requires
        text_le(left, right),
        text_le(right, left),
    ensures
        left == right,
{
    lemma_bytes_le_antisymmetric(
        vstd::utf8::encode_utf8(left),
        vstd::utf8::encode_utf8(right),
    );
    vstd::utf8::encode_utf8_decode_utf8(left);
    vstd::utf8::encode_utf8_decode_utf8(right);
}

proof fn lemma_inserted_members<T: Keyed>(sorted: Seq<T>, item: T)
    ensures
        inserted(sorted, item).len() == sorted.len() + 1,
        inserted(sorted, item).to_multiset() == sorted.to_multiset().insert(item),
        forall|i: int|
            0 <= i < inserted(sorted, item).len() ==> (#[trigger] inserted(sorted, item)[i]) == item
                || sorted.contains(inserted(sorted, item)[i]),
    decreases sorted.len(),
{
    broadcast use vstd::seq_lib::group_to_multiset_ensures;

    if sorted.len() == 0 || text_le(sorted.last().key(), item.key()) {
        assert forall|i: int| 0 <= i < sorted.len() implies sorted.contains(
            #[trigger] sorted.push(item)[i],
        ) by {
            assert(sorted[i] == sorted.push(item)[i]);
        }
    } else {
        let rest = sorted.drop_last();
        let last = sorted.last();
        lemma_inserted_members(rest, item);
        assert(sorted =~= rest.push(last));
        let whole = inserted(sorted, item);
        assert forall|i: int| 0 <= i < whole.len() implies (#[trigger] whole[i]) == item
            || sorted.contains(whole[i]) by {
            if i < whole.len() - 1 {
                assert(inserted(rest, item)[i] == whole[i]);
                if rest.contains(whole[i]) {
                    let j = choose|j: int| 0 <= j < rest.len() && rest[j] == whole[i];
                    assert(sorted[j] == whole[i]);
                }
            } else {
                assert(sorted[sorted.len() - 1] == whole[i]);
            }
        }
        assert(whole.to_multiset() =~= sorted.to_multiset().insert(item));
    }
}

proof fn lemma_inserted_in_order<T: Keyed>(sorted: Seq<T>, item: T)
    requires
        is_in_key_order(sorted),
    ensures
        is_in_key_order(inserted(sorted, item)),
    decreases sorted.len(),
{
    let whole = inserted(sorted, item);
    let item_bytes = vstd::utf8::encode_utf8(item.key());
    lemma_inserted_members(sorted, item);
    lemma_bytes_le_total(item_bytes, item_bytes);
    if sorted.len() == 0 {
    } else if text_le(sorted.last().key(), item.key()) {
        assert forall|i: int, j: int| 0 <= i <= j < whole.len() implies text_le(
            (#[trigger] whole[i]).key(),
            (#[trigger] whole[j]).key(),
        ) by {
            if j < sorted.len() {
                assert(text_le(sorted[i].key(), sorted[j].key()));
            } else if i < sorted.len() {
                assert(text_le(sorted[i].key(), sorted[sorted.len() - 1].key()));
                lemma_bytes_le_transitive(
                    vstd::utf8::encode_utf8(sorted[i].key()),
                    vstd::utf8::encode_utf8(sorted.last().key()),
                    item_bytes,
                );
            }
        }
    } else {
        let rest = sorted.drop_last();
        let last = sorted.last();
        assert(is_in_key_order(rest)) by {
            assert forall|i: int, j: int| 0 <= i <= j < rest.len() implies text_le(
                (#[trigger] rest[i]).key(),
                (#[trigger] rest[j]).key(),
            ) by {
                assert(text_le(sorted[i].key(), sorted[j].key()));
            }
        }
        lemma_inserted_in_order(rest, item);
        lemma_inserted_members(rest, item);
        lemma_bytes_le_total(vstd::utf8::encode_utf8(last.key()), item_bytes);
        lemma_bytes_le_total(
            vstd::utf8::encode_utf8(last.key()),
            vstd::utf8::encode_utf8(last.key()),
        );
        assert forall|i: int, j: int| 0 <= i <= j < whole.len() implies text_le(
            (#[trigger] whole[i]).key(),
            (#[trigger] whole[j]).key(),
        ) by {
            if j < whole.len() - 1 {
                assert(text_le(inserted(rest, item)[i].key(), inserted(rest, item)[j].key()));
            } else if i < whole.len() - 1 {
                assert(inserted(rest, item)[i] == whole[i]);
                if rest.contains(whole[i]) {
                    let k = choose|k: int| 0 <= k < rest.len() && rest[k] == whole[i];
                    assert(sorted[k] == whole[i]);
                    assert(text_le(sorted[k].key(), sorted[sorted.len() - 1].key()));
                }
            }
        }
    }
}

/// One more value behind the others.
pub proof fn lemma_with_key_push<T: Keyed>(items: Seq<T>, item: T, key: Seq<char>)
    ensures
        with_key(items.push(item), key) == if item.key() == key {
            with_key(items, key).push(item)
        } else {
            with_key(items, key)
        },
{
    reveal(Seq::filter);
    assert(items.push(item).drop_last() =~= items);
}

proof fn lemma_inserted_stable<T: Keyed>(sorted: Seq<T>, item: T, key: Seq<char>)
    requires
        is_in_key_order(sorted),
    ensures
        with_key(inserted(sorted, item), key) == with_key(sorted.push(item), key),
    decreases sorted.len(),
{
    if !(sorted.len() == 0 || text_le(sorted.last().key(), item.key())) {
        let rest = sorted.drop_last();
        let last = sorted.last();
        assert(is_in_key_order(rest)) by {
            assert forall|i: int, j: int| 0 <= i <= j < rest.len() implies text_le(
                (#[trigger] rest[i]).key(),
                (#[trigger] rest[j]).key(),
            ) by {
                assert(text_le(sorted[i].key(), sorted[j].key()));
            }
        }
        lemma_inserted_stable(rest, item, key);
        assert(sorted =~= rest.push(last));
        lemma_with_key_push(inserted(rest, item), last, key);
        lemma_with_key_push(rest, item, key);
        lemma_with_key_push(rest, last, key);
        lemma_with_key_push(sorted, item, key);
        if last.key() == item.key() {
            lemma_bytes_le_total(
                vstd::utf8::encode_utf8(item.key()),
                vstd::utf8::encode_utf8(item.key()),
            );
        }
    }
}

/// Sorting puts the values in the order of their keys, keeps every value, and keeps
/// the order of values with equal keys.
pub proof fn lemma_sorted_by_key<T: Keyed>(items: Seq<T>)
    ensures
        is_in_key_order(sorted_by_key(items)),
        sorted_by_key(items).len() == items.len(),
        sorted_by_key(items).to_multiset() == items.to_multiset(),
        forall|i: int|
            0 <= i < items.len() ==> items.contains(#[trigger] sorted_by_key(items)[i]),
        forall|key: Seq<char>| #[trigger]
            with_key(sorted_by_key(items), key) == with_key(items, key),
    decreases items.len(),
{
    broadcast use vstd::seq_lib::group_to_multiset_ensures;

    if items.len() > 0 {
        let rest = items.drop_last();
        let last = items.last();
        lemma_sorted_by_key(rest);
        lemma_inserted_in_order(sorted_by_key(rest), last);
        lemma_inserted_members(sorted_by_key(rest), last);
        assert(items =~= rest.push(last));
        assert forall|key: Seq<char>| #[trigger] with_key(sorted_by_key(items), key) == with_key(
            items,
            key,
        ) by {
            lemma_inserted_stable(sorted_by_key(rest), last, key);
            lemma_with_key_push(sorted_by_key(rest), last, key);
            lemma_with_key_push(rest, last, key);
            assert(with_key(sorted_by_key(rest), key) == with_key(rest, key));
        }
    }
    let sorted = sorted_by_key(items);
    assert forall|i: int| 0 <= i < items.len() implies items.contains(#[trigger] sorted[i]) by {
        assert(sorted.to_multiset().count(sorted[i]) > 0);
    }
}

proof fn lemma_inserted_map<T: Keyed, U: Keyed>(sorted: Seq<T>, item: T, f: spec_fn(T) -> U)
    requires
        forall|t: T| #[trigger] f(t).key() == t.key(),
    ensures
        inserted(sorted, item).map_values(f) == inserted(sorted.map_values(f), f(item)),
    decreases sorted.len(),
{
    let mapped = sorted.map_values(f);
    if sorted.len() > 0 {
        assert(mapped.last() == f(sorted.last()));
        assert(f(sorted.last()).key() == sorted.last().key());
        assert(f(item).key() == item.key());
    }
    if sorted.len() == 0 || text_le(sorted.last().key(), item.key()) {
        assert(sorted.push(item).map_values(f) =~= mapped.push(f(item)));
    } else {
        lemma_inserted_map(sorted.drop_last(), item, f);
        assert(sorted.drop_last().map_values(f) =~= mapped.drop_last());
        assert(inserted(sorted, item).map_values(f) =~= inserted(
            sorted.drop_last(),
            item,
        ).map_values(f).push(f(sorted.last())));
    }
}

/// A map that keeps the keys may be applied before sorting as well as after.
pub proof fn lemma_sorted_map<T: Keyed, U: Keyed>(items: Seq<T>, f: spec_fn(T) -> U)
    requires
        forall|t: T| #[trigger] f(t).key() == t.key(),
    ensures
        sorted_by_key(items).map_values(f) == sorted_by_key(items.map_values(f)),
    decreases items.len(),
{
    if items.len() > 0 {
        lemma_sorted_map(items.drop_last(), f);
        lemma_inserted_map(sorted_by_key(items.drop_last()), items.last(), f);
        assert(items.drop_last().map_values(f) =~= items.map_values(f).drop_last());
    } else {
        assert(sorted_by_key(items).map_values(f) =~= sorted_by_key(items.map_values(f)));
    }
}

/// Two orderly sequences of the same distinct texts are the same sequence.
pub proof fn lemma_distinct_order_is_unique(left: Seq<Seq<char>>, right: Seq<Seq<char>>)
    requires
        is_in_key_order(left),
        is_in_key_order(right),
        left.no_duplicates(),
        right.no_duplicates(),
        forall|text: Seq<char>| #[trigger] left.contains(text) <==> right.contains(text),
    ensures
        left == right,
    decreases left.len(),
{
    if left.len() == 0 {
        if right.len() > 0 {
            assert(right.contains(right[0]));
            assert(left.contains(right[0]));
        }
        assert(left =~= right);
    } else {
        assert(left.contains(left.last()));
        assert(right.contains(left.last()));
        let i = right.index_of(left.last());
        assert(text_le(right[i].key(), right[right.len() - 1].key()));
        assert(right.contains(right.last()));
        assert(left.contains(right.last()));
        let j = left.index_of(right.last());
        assert(text_le(left[j].key(), left[left.len() - 1].key()));
        lemma_text_le_antisymmetric(left.last(), right.last());
        let l = left.drop_last();
        let r = right.drop_last();
        assert forall|a: int, b: int| 0 <= a <= b < l.len() implies text_le(
            (#[trigger] l[a]).key(),
            (#[trigger] l[b]).key(),
        ) by {
            assert(text_le(left[a].key(), left[b].key()));
        }
        assert forall|a: int, b: int| 0 <= a <= b < r.len() implies text_le(
            (#[trigger] r[a]).key(),
            (#[trigger] r[b]).key(),
        ) by {
            assert(text_le(right[a].key(), right[b].key()));
        }
        assert forall|text: Seq<char>| #[trigger] l.contains(text) <==> r.contains(text) by {
            if l.contains(text) {
                let a = l.index_of(text);
                assert(left[a] == text);
                assert(left.contains(text));
                let b = right.index_of(text);
                assert(right[b] == text);
                assert(left[a] != left[left.len() - 1]);
                assert(r[b] == text);
            }
            if r.contains(text) {
                let b = r.index_of(text);
                assert(right[b] == text);
                assert(right.contains(text));
                assert(left.contains(text));
                let a = left.index_of(text);
                assert(left[a] == text);
                assert(right[b] != right[right.len() - 1]);
                assert(l[a] == text);
            }
        }
        lemma_distinct_order_is_unique(l, r);
        assert(left =~= l.push(left.last()));
        assert(right =~= r.push(right.last()));
    }
}

/// Whether `left` does not come after `right`.
pub fn is_text_le(left: &str, right: &str) -> (le: bool)
    ensures
        le == text_le(left@, right@),
{
    let a = left.as_bytes();
    let b = right.as_bytes();
    let mut i: usize = 0;
    assert(a@.skip(0) =~= a@);
    assert(b@.skip(0) =~= b@);
    loop
        invariant
            a@ == vstd::utf8::encode_utf8(left@),
            b@ == vstd::utf8::encode_utf8(right@),
            i <= a.len(),
            i <= b.len(),
            text_le(left@, right@) == bytes_le(a@.skip(i as int), b@.skip(i as int)),
        decreases a.len() - i,
    {
        if i == a.len() {
            return true;
        }
        if i == b.len() {
            return false;
        }
        if a[i] != b[i] {
            return a[i] < b[i];
        }
        assert(a@.skip(i as int).drop_first() =~= a@.skip(i + 1));
        assert(b@.skip(i as int).drop_first() =~= b@.skip(i + 1));
        i += 1;
    }
}

/// Values with a key are values of the sequence.
pub proof fn lemma_with_key_is_found<T: Keyed>(items: Seq<T>, key: Seq<char>)
    requires
        with_key(items, key).len() > 0,
    ensures
        exists|i: int| 0 <= i < items.len() && (#[trigger] items[i]).key() == key,
    decreases items.len(),
{
    if items.len() == 0 {
        reveal(Seq::filter);
    } else {
        assert(items =~= items.drop_last().push(items.last()));
        lemma_with_key_push(items.drop_last(), items.last(), key);
        if items.last().key() == key {
            assert(items[items.len() - 1].key() == key);
        } else {
            lemma_with_key_is_found(items.drop_last(), key);
            let i = choose|i: int|
                0 <= i < items.drop_last().len() && (#[trigger] items.drop_last()[i]).key() == key;
            assert(items[i].key() == key);
        }
    }
}

/// The values with a key have that key and are values of the sequence.
pub proof fn lemma_with_key_members<T: Keyed>(items: Seq<T>, key: Seq<char>, index: int)
    requires
        0 <= index < with_key(items, key).len(),
    ensures
        with_key(items, key)[index].key() == key,
        items.contains(with_key(items, key)[index]),
    decreases items.len(),
{
    if items.len() == 0 {
        reveal(Seq::filter);
    } else {
        let front = items.drop_last();
        assert(items =~= front.push(items.last()));
        lemma_with_key_push(front, items.last(), key);
        if index < with_key(front, key).len() {
            lemma_with_key_members(front, key, index);
            let i = front.index_of(with_key(front, key)[index]);
            assert(items[i] == with_key(items, key)[index]);
        } else {
            assert(items[items.len() - 1] == with_key(items, key)[index]);
        }
    }
}

/// A value of the sequence is among those with its key.
pub proof fn lemma_found_has_key<T: Keyed>(items: Seq<T>, index: int)
    requires
        0 <= index < items.len(),
    ensures
        with_key(items, items[index].key()).len() > 0,
    decreases items.len(),
{
    let key = items[index].key();
    assert(items =~= items.drop_last().push(items.last()));
    lemma_with_key_push(items.drop_last(), items.last(), key);
    if index < items.len() - 1 {
        lemma_found_has_key(items.drop_last(), index);
    }
}

/// The front of an orderly sequence is orderly.
proof fn lemma_front_in_order<T: Keyed>(items: Seq<T>)
    requires
        is_in_key_order(items),
        items.len() > 0,
    ensures
        is_in_key_order(items.drop_last()),
{
    let front = items.drop_last();
    assert forall|i: int, j: int| 0 <= i <= j < front.len() implies text_le(
        (#[trigger] front[i]).key(),
        (#[trigger] front[j]).key(),
    ) by {
        assert(text_le(items[i].key(), items[j].key()));
    }
}

/// There is one way only to put values in the order of their keys so that values with
/// equal keys keep their order.
pub proof fn lemma_stable_order_is_unique<T: Keyed>(left: Seq<T>, right: Seq<T>)
    requires
        is_in_key_order(left),
        is_in_key_order(right),
        forall|key: Seq<char>| #[trigger] with_key(left, key) == with_key(right, key),
    ensures
        left == right,
    decreases left.len(),
{
    reveal(Seq::filter);
    if left.len() > 0 {
        assert(left =~= left.drop_last().push(left.last()));
        lemma_with_key_push(left.drop_last(), left.last(), left.last().key());
        assert(with_key(right, left.last().key()).len() > 0);
        lemma_with_key_is_found(right, left.last().key());
    }
    if right.len() > 0 {
        assert(right =~= right.drop_last().push(right.last()));
        lemma_with_key_push(right.drop_last(), right.last(), right.last().key());
        assert(with_key(left, right.last().key()).len() > 0);
        lemma_with_key_is_found(left, right.last().key());
    }
    if left.len() > 0 && right.len() > 0 {
        let key = left.last().key();
        let i = choose|i: int| 0 <= i < right.len() && (#[trigger] right[i]).key() == key;
        assert(text_le(right[i].key(), right[right.len() - 1].key()));
        let j = choose|j: int|
            0 <= j < left.len() && (#[trigger] left[j]).key() == right.last().key();
        assert(text_le(left[j].key(), left[left.len() - 1].key()));
        lemma_text_le_antisymmetric(key, right.last().key());
        let l = left.drop_last();
        let r = right.drop_last();
        assert(with_key(left, key) == with_key(right, key));
        assert(with_key(left, key).last() == left.last());
        assert(with_key(right, key).last() == right.last());
        assert forall|k: Seq<char>| #[trigger] with_key(l, k) == with_key(r, k) by {
            lemma_with_key_push(l, left.last(), k);
            lemma_with_key_push(r, right.last(), k);
            assert(with_key(left, k) == with_key(right, k));
            if k == key {
                assert(with_key(l, k) =~= with_key(left, k).drop_last());
                assert(with_key(r, k) =~= with_key(right, k).drop_last());
            }
        }
        lemma_front_in_order(left);
        lemma_front_in_order(right);
        lemma_stable_order_is_unique(l, r);
    }
}

/// What the values with a key are once two orderly sequences and a tail are one behind
/// the other.
spec fn keyed_parts<T: Keyed>(left: Seq<T>, right: Seq<T>, tail: Seq<T>, key: Seq<char>) -> Seq<T> {
    with_key(left, key) + with_key(right, key) + with_key(tail, key)
}

/// Every value of the sequence may stand in front of the tail.
spec fn may_precede<T: Keyed>(items: Seq<T>, tail: Seq<T>) -> bool {
    forall|i: int, j: int|
        0 <= i < items.len() && 0 <= j < tail.len() ==> text_le(
            (#[trigger] items[i]).key(),
            (#[trigger] tail[j]).key(),
        )
}

/// The last value of `items` goes in front of the tail, if no value of `others` comes
/// after it.
proof fn lemma_last_joins_tail<T: Keyed>(items: Seq<T>, others: Seq<T>, tail: Seq<T>)
    requires
        items.len() > 0,
        is_in_key_order(items),
        is_in_key_order(others),
        is_in_key_order(tail),
        may_precede(items, tail),
        may_precede(others, tail),
        others.len() > 0 ==> text_le(others.last().key(), items.last().key()),
    ensures
        is_in_key_order(items.drop_last()),
        is_in_key_order(seq![items.last()] + tail),
        may_precede(items.drop_last(), seq![items.last()] + tail),
        may_precede(others, seq![items.last()] + tail),
        forall|key: Seq<char>| #[trigger]
            with_key(items, key) == if items.last().key() == key {
                with_key(items.drop_last(), key).push(items.last())
            } else {
                with_key(items.drop_last(), key)
            },
        forall|key: Seq<char>| #[trigger]
            with_key(seq![items.last()] + tail, key) == if items.last().key() == key {
                seq![items.last()] + with_key(tail, key)
            } else {
                with_key(tail, key)
            },
{
    let item = items.last();
    let front = items.drop_last();
    let longer = seq![item] + tail;
    let bytes = vstd::utf8::encode_utf8(item.key());
    lemma_bytes_le_total(bytes, bytes);
    lemma_front_in_order(items);
    assert forall|i: int, j: int| 0 <= i <= j < longer.len() implies text_le(
        (#[trigger] longer[i]).key(),
        (#[trigger] longer[j]).key(),
    ) by {
        if i > 0 {
            assert(text_le(tail[i - 1].key(), tail[j - 1].key()));
        } else if j > 0 {
            assert(text_le(items[items.len() - 1].key(), tail[j - 1].key()));
        }
    }
    assert forall|i: int, j: int| 0 <= i < front.len() && 0 <= j < longer.len() implies text_le(
        (#[trigger] front[i]).key(),
        (#[trigger] longer[j]).key(),
    ) by {
        if j == 0 {
            assert(text_le(items[i].key(), items[items.len() - 1].key()));
        } else {
            assert(text_le(items[i].key(), tail[j - 1].key()));
        }
    }
    assert forall|i: int, j: int| 0 <= i < others.len() && 0 <= j < longer.len() implies text_le(
        (#[trigger] others[i]).key(),
        (#[trigger] longer[j]).key(),
    ) by {
        if j == 0 {
            assert(text_le(others[i].key(), others[others.len() - 1].key()));
            lemma_bytes_le_transitive(
                vstd::utf8::encode_utf8(others[i].key()),
                vstd::utf8::encode_utf8(others.last().key()),
                bytes,
            );
        } else {
            assert(text_le(others[i].key(), tail[j - 1].key()));
        }
    }
    assert(items =~= front.push(item));
    assert forall|key: Seq<char>| #[trigger]
        with_key(items, key) == if item.key() == key {
            with_key(front, key).push(item)
        } else {
            with_key(front, key)
        } by {
        lemma_with_key_push(front, item, key);
    }
    assert forall|key: Seq<char>| #[trigger]
        with_key(longer, key) == if item.key() == key {
            seq![item] + with_key(tail, key)
        } else {
            with_key(tail, key)
        } by {
        let has_key = |t: T| t.key() == key;
        Seq::filter_distributes_over_add(seq![item], tail, has_key);
        reveal(Seq::filter);
        assert(seq![item].drop_last() =~= Seq::empty());
        assert(Seq::<T>::empty().filter(has_key) =~= Seq::empty());
        if item.key() == key {
            assert(seq![item].filter(has_key) =~= seq![item]);
            assert(with_key(longer, key) =~= seq![item] + with_key(tail, key));
        } else {
            assert(seq![item].filter(has_key) =~= Seq::empty());
            assert(with_key(longer, key) =~= with_key(tail, key));
        }
    }
}

/// No value has a key behind the last.
proof fn lemma_no_later_key<T: Keyed>(items: Seq<T>, key: Seq<char>)
    requires
        is_in_key_order(items),
        items.len() > 0 ==> !text_le(key, items.last().key()),
    ensures
        with_key(items, key) == Seq::<T>::empty(),
{
    if with_key(items, key).len() > 0 {
        lemma_with_key_is_found(items, key);
        let i = choose|i: int| 0 <= i < items.len() && (#[trigger] items[i]).key() == key;
        assert(text_le(items[i].key(), items[items.len() - 1].key()));
    }
    assert(with_key(items, key) =~= Seq::empty());
}

/// Merges two orderly sequences; of equal keys those of the first come first.
fn merge<T: TextKeyed>(left: Vec<T>, right: Vec<T>) -> (merged: Vec<T>)
    requires
        is_in_key_order(left@),
        is_in_key_order(right@),
    ensures
        is_in_key_order(merged@),
        forall|key: Seq<char>| #[trigger]
            with_key(merged@, key) == with_key(left@ + right@, key),
{
    let ghost all_left = left@;
    let ghost all_right = right@;
    let mut left = left;
    let mut right = right;
    // The merged values from the last to the first.
    let mut backwards: Vec<T> = Vec::new();
    let ghost mut tail: Seq<T> = Seq::empty();
    assert(backwards@ =~= tail.reverse());
    proof {
        reveal(Seq::filter);
        assert forall|key: Seq<char>| #[trigger]
            keyed_parts(left@, right@, tail, key) == with_key(all_left, key) + with_key(
                all_right,
                key,
            ) by {
            assert(keyed_parts(left@, right@, tail, key) =~= with_key(all_left, key) + with_key(
                all_right,
                key,
            ));
        }
    }
    while left.len() > 0 || right.len() > 0
        invariant
            is_in_key_order(left@),
            is_in_key_order(right@),
            is_in_key_order(tail),
            may_precede(left@, tail),
            may_precede(right@, tail),
            backwards@ == tail.reverse(),
            forall|key: Seq<char>| #[trigger]
                keyed_parts(left@, right@, tail, key) == with_key(all_left, key) + with_key(
                    all_right,
                    key,
                ),
        decreases left.len() + right.len(),
    {
        let ghost l = left@;
        let ghost r = right@;
        let ghost t = tail;
        let take_left = right.len() == 0 || (left.len() > 0 && !is_text_le(
            left[left.len() - 1].key_text(),
            right[right.len() - 1].key_text(),
        ));
        if take_left {
            proof {
                if r.len() > 0 {
                    lemma_bytes_le_total(
                        vstd::utf8::encode_utf8(l.last().key()),
                        vstd::utf8::encode_utf8(r.last().key()),
                    );
                }
                lemma_last_joins_tail(l, r, t);
                lemma_no_later_key(r, l.last().key());
                tail = seq![l.last()] + t;
            }
            match left.pop() {
                Some(item) => backwards.push(item),
                None => {},
            }
        } else {
            proof {
                lemma_last_joins_tail(r, l, t);
                tail = seq![r.last()] + t;
            }
            match right.pop() {
                Some(item) => backwards.push(item),
                None => {},
            }
        }
        assert(backwards@ =~= tail.reverse());
        assert forall|key: Seq<char>| #[trigger]
            keyed_parts(left@, right@, tail, key) == with_key(all_left, key) + with_key(
                all_right,
                key,
            ) by {
            assert(keyed_parts(left@, right@, tail, key) =~= keyed_parts(l, r, t, key));
        }
    }
    let mut merged: Vec<T> = Vec::new();
    assert(tail.take(0) =~= merged@);
    while backwards.len() > 0
        invariant
            backwards@.len() <= tail.len(),
            backwards@ == tail.reverse().take(backwards@.len() as int),
            merged@ == tail.take(tail.len() - backwards@.len()),
        decreases backwards.len(),
    {
        let ghost before = backwards@;
        match backwards.pop() {
            Some(item) => merged.push(item),
            None => {},
        }
        assert(backwards@ =~= tail.reverse().take(backwards@.len() as int));
        assert(merged@ =~= tail.take(tail.len() - backwards@.len()));
    }
    assert(merged@ =~= tail);
    proof {
        reveal(Seq::filter);
        assert forall|key: Seq<char>| #[trigger]
            with_key(merged@, key) == with_key(all_left + all_right, key) by {
            Seq::filter_distributes_over_add(all_left, all_right, |t: T| t.key() == key);
            assert(left@ =~= Seq::empty() && right@ =~= Seq::empty());
            assert(keyed_parts(left@, right@, tail, key) =~= with_key(merged@, key));
        }
    }
    merged
}

/// Sorts by merging halves.
fn merge_sort<T: TextKeyed>(items: Vec<T>) -> (sorted: Vec<T>)
    ensures
        is_in_key_order(sorted@),
        forall|key: Seq<char>| #[trigger] with_key(sorted@, key) == with_key(items@, key),
    decreases items@.len(),
{
    if items.len() <= 1 {
        proof {
            if items@.len() == 1 {
                let bytes = vstd::utf8::encode_utf8(items@[0].key());
                lemma_bytes_le_total(bytes, bytes);
            }
        }
        return items;
    }
    let ghost all = items@;
    let mut front = items;
    let half = front.len() / 2;
    let back = front.split_off(half);
    let ghost first = front@;
    let ghost second = back@;
    assert(all =~= first + second);
    let left = merge_sort(front);
    let right = merge_sort(back);
    let merged = merge(left, right);
    proof {
        assert forall|key: Seq<char>| #[trigger] with_key(merged@, key) == with_key(all, key) by {
            Seq::filter_distributes_over_add(first, second, |t: T| t.key() == key);
            Seq::filter_distributes_over_add(left@, right@, |t: T| t.key() == key);
            assert(with_key(left@, key) == with_key(first, key));
            assert(with_key(right@, key) == with_key(second, key));
            assert(with_key(merged@, key) == with_key(left@ + right@, key));
        }
    }
    merged
}

/// Puts the values in the order of their keys; values with equal keys keep their order.
pub fn sort_by_key<T: TextKeyed>(items: Vec<T>) -> (sorted: Vec<T>)
    ensures
        sorted@ == sorted_by_key(items@),
{
    let ghost all = items@;
    let sorted = merge_sort(items);
    proof {
        lemma_sorted_by_key(all);
        lemma_stable_order_is_unique(sorted@, sorted_by_key(all));
    }
    sorted
}

} // verus!
