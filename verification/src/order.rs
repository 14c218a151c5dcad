//! Lexicographic order, stable sorting and sorted collections without
//! repetition.
use vstd::prelude::*;
use vstd::seq_lib::*;
use vstd::utf8::*;

use crate::peer::views;

verus! {

/// `a` and `b` agree before position `at`, where `a` ends or holds the
/// smaller number.
pub open spec fn splits_at(a: Seq<int>, b: Seq<int>, at: int) -> bool {
    &&& 0 <= at <= a.len()
    &&& at < b.len()
    &&& forall|i: int| 0 <= i < at ==> a[i] == b[i]
    &&& at == a.len() || a[at] < b[at]
}

/// Strict lexicographic order on sequences of integers.
pub open spec fn seq_before(a: Seq<int>, b: Seq<int>) -> bool {
    exists|at: int| #[trigger] splits_at(a, b, at)
}

/// The order is irreflexive and asymmetric.
pub proof fn lemma_before_asymmetric(a: Seq<int>, b: Seq<int>)
    requires
        seq_before(a, b),
    ensures
        !seq_before(b, a),
        a != b,
{
    let at = choose|at: int| #[trigger] splits_at(a, b, at);
    if seq_before(b, a) {
        let back = choose|at: int| #[trigger] splits_at(b, a, at);
        if at < back {
            assert(b[at] == a[at]);
        } else if back < at {
            assert(a[back] == b[back]);
        }
    }
}

/// The order is transitive.
pub proof fn lemma_before_transitive(a: Seq<int>, b: Seq<int>, c: Seq<int>)
    requires
        seq_before(a, b),
        seq_before(b, c),
    ensures
        seq_before(a, c),
{
    let i = choose|at: int| #[trigger] splits_at(a, b, at);
    let j = choose|at: int| #[trigger] splits_at(b, c, at);
    let at = if i < j {
        i
    } else {
        j
    };
    assert(splits_at(a, c, at));
}

/// The order is total.
pub proof fn lemma_before_total(a: Seq<int>, b: Seq<int>)
    ensures
        a == b || seq_before(a, b) || seq_before(b, a),
    decreases a.len(),
{
    if a.len() == 0 {
        if b.len() > 0 {
            assert(splits_at(a, b, 0));
        } else {
            assert(a =~= b);
        }
    } else if b.len() == 0 {
        assert(splits_at(b, a, 0));
    } else if a[0] < b[0] {
        assert(splits_at(a, b, 0));
    } else if b[0] < a[0] {
        assert(splits_at(b, a, 0));
    } else {
        let x = a.drop_first();
        let y = b.drop_first();
        lemma_before_total(x, y);
        if x == y {
            assert forall|i: int| 0 <= i < a.len() implies a[i] == b[i] by {
                if i > 0 {
                    assert(x[i - 1] == y[i - 1]);
                }
            }
            assert(a.len() == x.len() + 1);
            assert(b.len() == y.len() + 1);
            assert(a =~= b);
        } else if seq_before(x, y) {
            lemma_before_cons(a, b);
        } else {
            lemma_before_cons(b, a);
        }
    }
}

proof fn lemma_before_cons(a: Seq<int>, b: Seq<int>)
    requires
        a.len() > 0,
        b.len() > 0,
        a[0] == b[0],
        seq_before(a.drop_first(), b.drop_first()),
    ensures
        seq_before(a, b),
{
    let x = a.drop_first();
    let y = b.drop_first();
    let at = choose|at: int| #[trigger] splits_at(x, y, at);
    assert forall|i: int| 0 <= i < at + 1 implies a[i] == b[i] by {
        if i > 0 {
            assert(x[i - 1] == y[i - 1]);
        }
    }
    if at < x.len() {
        assert(x[at] == a[at + 1]);
        assert(y[at] == b[at + 1]);
    }
    assert(splits_at(a, b, at + 1));
}

/// Bytes as integers.
pub open spec fn byte_key(bytes: Seq<u8>) -> Seq<int> {
    Seq::new(bytes.len(), |i: int| bytes[i] as int)
}

/// Equal keys come from equal bytes.
pub proof fn lemma_byte_key_injective(a: Seq<u8>, b: Seq<u8>)
    requires
        byte_key(a) == byte_key(b),
    ensures
        a == b,
{
    let x = byte_key(a);
    let y = byte_key(b);
    assert(x.len() == a.len() && y.len() == b.len());
    assert forall|i: int| 0 <= i < a.len() implies a[i] == b[i] by {
        assert(x[i] == a[i] as int && y[i] == b[i] as int);
    }
    assert(a =~= b);
}

/// The position of a text in byte order.
pub open spec fn text_key(text: Seq<char>) -> Seq<int> {
    byte_key(encode_utf8(text))
}

/// Equal keys come from equal texts.
pub proof fn lemma_text_key_injective(a: Seq<char>, b: Seq<char>)
    requires
        text_key(a) == text_key(b),
    ensures
        a == b,
{
    lemma_byte_key_injective(encode_utf8(a), encode_utf8(b));
    crate::text::lemma_encode_utf8_injective(a, b);
}

/// Whether `a` comes before `b` in byte order.
pub fn bytes_before(a: &[u8], b: &[u8]) -> (before: bool)
    ensures
        before == seq_before(byte_key(a@), byte_key(b@)),
{
    let ghost x = byte_key(a@);
    let ghost y = byte_key(b@);
    let mut i: usize = 0;
    while i < a.len() && i < b.len()
        invariant
            i <= a.len(),
            i <= b.len(),
            x == byte_key(a@),
            y == byte_key(b@),
            forall|j: int| 0 <= j < i ==> x[j] == y[j],
        decreases a.len() - i,
    {
        if a[i] < b[i] {
            assert(splits_at(x, y, i as int));
            return true;
        }
        if b[i] < a[i] {
            assert(splits_at(y, x, i as int));
            proof {
                lemma_before_asymmetric(y, x);
            }
            return false;
        }
        i += 1;
    }
    if i < b.len() {
        assert(splits_at(x, y, i as int));
        true
    } else {
        proof {
            if seq_before(x, y) {
                let at = choose|at: int| #[trigger] splits_at(x, y, at);
                assert(x[at] == y[at]);
            }
        }
        false
    }
}

/// Whether `a` comes before `b` in byte order.
pub fn text_before(a: &str, b: &str) -> (before: bool)
    ensures
        before == seq_before(text_key(a@), text_key(b@)),
{
    bytes_before(a.as_bytes(), b.as_bytes())
}

/// Items stand in non-decreasing order of their keys.
pub open spec fn is_sorted<T>(items: Seq<T>, key: spec_fn(T) -> Seq<int>) -> bool {
    forall|i: int, j: int|
        0 <= i < j < items.len() ==> !seq_before(key(#[trigger] items[j]), key(#[trigger] items[i]))
}

/// Items stand in strictly increasing order of their keys.
pub open spec fn is_strictly_sorted<T>(items: Seq<T>, key: spec_fn(T) -> Seq<int>) -> bool {
    forall|i: int, j: int|
        0 <= i < j < items.len() ==> seq_before(key(#[trigger] items[i]), key(#[trigger] items[j]))
}

/// Holds of the items that have this key.
pub open spec fn key_is<T>(key: spec_fn(T) -> Seq<int>, k: Seq<int>) -> spec_fn(T) -> bool {
    |item: T| key(item) == k
}

/// The items of one key, in the order in which they stand.
pub open spec fn with_key<T>(items: Seq<T>, key: spec_fn(T) -> Seq<int>, k: Seq<int>) -> Seq<T> {
    items.filter(key_is(key, k))
}

/// `sorted` holds the items of `items` ordered by key, and items of one key in
/// the order in which they stood.
pub open spec fn is_stable_sort<T>(
    items: Seq<T>,
    sorted: Seq<T>,
    key: spec_fn(T) -> Seq<int>,
) -> bool {
    &&& is_sorted(sorted, key)
    &&& sorted.len() == items.len()
    &&& forall|k: Seq<int>| #[trigger] with_key(sorted, key, k) == with_key(items, key, k)
}

/// A stable sort neither loses nor invents items.
pub proof fn lemma_stable_sort_contains<T>(
    items: Seq<T>,
    sorted: Seq<T>,
    key: spec_fn(T) -> Seq<int>,
    item: T,
)
    requires
        is_stable_sort(items, sorted, key),
    ensures
        items.contains(item) <==> sorted.contains(item),
{
    let pred = |x: T| key(x) == key(item);
    assert(with_key(sorted, key, key(item)) == with_key(items, key, key(item)));
    assert(with_key(sorted, key, key(item)) == sorted.filter(pred));
    assert(with_key(items, key, key(item)) == items.filter(pred));
    if items.contains(item) {
        let i = choose|i: int| 0 <= i < items.len() && items[i] == item;
        items.lemma_filter_contains(pred, i);
        assert(sorted.filter(pred).contains(item));
        sorted.lemma_filter_contains_rev(pred, item);
    }
    if sorted.contains(item) {
        let i = choose|i: int| 0 <= i < sorted.len() && sorted[i] == item;
        sorted.lemma_filter_contains(pred, i);
        assert(items.filter(pred).contains(item));
        items.lemma_filter_contains_rev(pred, item);
    }
}

/// The item that comes before all others is the first of a sort.
pub proof fn lemma_least_is_first<T>(
    items: Seq<T>,
    sorted: Seq<T>,
    key: spec_fn(T) -> Seq<int>,
    least: T,
)
    requires
        is_stable_sort(items, sorted, key),
        items.contains(least),
        forall|i: int|
            0 <= i < items.len() ==> (#[trigger] items[i]) == least || seq_before(
                key(least),
                key(items[i]),
            ),
    ensures
        sorted.len() > 0,
        sorted[0] == least,
{
    lemma_stable_sort_contains(items, sorted, key, least);
    let p = choose|p: int| 0 <= p < sorted.len() && sorted[p] == least;
    assert(sorted.contains(sorted[0]));
    lemma_stable_sort_contains(items, sorted, key, sorted[0]);
    let i = choose|i: int| 0 <= i < items.len() && items[i] == sorted[0];
    if items[i] != least {
        assert(0 < p);
        assert(!seq_before(key(sorted[p]), key(sorted[0])));
    }
}

proof fn lemma_insert_keeps_stable<T>(
    items: Seq<T>,
    sorted: Seq<T>,
    key: spec_fn(T) -> Seq<int>,
    at: int,
    item: T,
)
    requires
        is_stable_sort(items, sorted, key),
        0 <= at <= sorted.len(),
        forall|i: int| 0 <= i < at ==> !seq_before(key(item), key(#[trigger] sorted[i])),
        forall|i: int| at <= i < sorted.len() ==> seq_before(key(item), key(#[trigger] sorted[i])),
    ensures
        is_stable_sort(items.push(item), sorted.insert(at, item), key),
{
    let grown = sorted.insert(at, item);
    let low = sorted.take(at);
    let high = sorted.skip(at);
    assert(grown =~= low + seq![item] + high);
    assert(sorted =~= low + high);
    assert forall|i: int, j: int| 0 <= i < j < grown.len() implies !seq_before(
        key(#[trigger] grown[j]),
        key(#[trigger] grown[i]),
    ) by {
        if j == at {
            assert(grown[i] == sorted[i]);
        } else if i == at {
            assert(grown[j] == sorted[j - 1]);
            lemma_before_asymmetric(key(item), key(grown[j]));
        } else {
            let a = if i < at {
                i
            } else {
                i - 1
            };
            let b = if j < at {
                j
            } else {
                j - 1
            };
            assert(grown[i] == sorted[a]);
            assert(grown[j] == sorted[b]);
        }
    }
    assert forall|k: Seq<int>| #[trigger]
        with_key(grown, key, k) == with_key(items.push(item), key, k) by {
        let pred = |x: T| key(x) == k;
        assert(with_key(sorted, key, k) == with_key(items, key, k));
        Seq::filter_distributes_over_add(low + seq![item], high, pred);
        Seq::filter_distributes_over_add(low, seq![item], pred);
        Seq::filter_distributes_over_add(low, high, pred);
        items.lemma_filter_push(item, pred);
        assert(seq![item] =~= Seq::<T>::empty().push(item));
        Seq::<T>::empty().lemma_filter_push(item, pred);
        assert(Seq::<T>::empty().filter(pred) =~= Seq::<T>::empty()) by {
            Seq::<T>::empty().lemma_filter_len(pred);
        }
        if pred(item) {
            assert forall|i: int| 0 <= i < high.len() implies !pred(#[trigger] high[i]) by {
                assert(high[i] == sorted[at + i]);
                lemma_before_asymmetric(key(item), key(high[i]));
            }
            lemma_filter_none(high, pred);
            assert(grown.filter(pred) =~= low.filter(pred).push(item));
            assert(sorted.filter(pred) =~= low.filter(pred));
            assert(items.push(item).filter(pred) =~= items.filter(pred).push(item));
        } else {
            assert(grown.filter(pred) =~= sorted.filter(pred));
        }
    }
}

/// Filtering keeps nothing when no item passes.
pub proof fn lemma_filter_none<T>(items: Seq<T>, pred: spec_fn(T) -> bool)
    requires
        forall|i: int| 0 <= i < items.len() ==> !pred(#[trigger] items[i]),
    ensures
        items.filter(pred) == Seq::<T>::empty(),
    decreases items.len(),
{
    reveal(Seq::filter);
    if items.len() > 0 {
        lemma_filter_none(items.drop_last(), pred);
    }
}

/// Two equal items that pass a filter stand in it twice.
proof fn lemma_filter_twice<T>(list: Seq<T>, pred: spec_fn(T) -> bool, i: int, j: int)
    requires
        0 <= i < j < list.len(),
        list[i] == list[j],
        pred(list[i]),
    ensures
        !list.filter(pred).no_duplicates(),
{
    let low = list.take(j);
    let high = list.skip(j);
    assert(list =~= low + high);
    Seq::filter_distributes_over_add(low, high, pred);
    assert(low[i] == list[i]);
    low.lemma_filter_contains(pred, i);
    assert(high[0] == list[j]);
    high.lemma_filter_contains(pred, 0);
    let a = choose|a: int| 0 <= a < low.filter(pred).len() && low.filter(pred)[a] == list[i];
    let b = choose|b: int| 0 <= b < high.filter(pred).len() && high.filter(pred)[b] == list[i];
    let whole = list.filter(pred);
    assert(whole == low.filter(pred) + high.filter(pred));
    assert(whole[a] == list[i]);
    assert(whole[low.filter(pred).len() + b] == list[i]);
}

/// A filter keeps at most once what stands at most once.
proof fn lemma_filter_no_duplicates<T>(list: Seq<T>, pred: spec_fn(T) -> bool)
    requires
        list.no_duplicates(),
    ensures
        list.filter(pred).no_duplicates(),
    decreases list.len(),
{
    reveal(Seq::filter);
    if list.len() > 0 {
        let rest = list.drop_last();
        lemma_filter_no_duplicates(rest, pred);
        if pred(list.last()) {
            assert forall|a: int| 0 <= a < rest.filter(pred).len() implies rest.filter(pred)[a]
                != list.last() by {
                let item = rest.filter(pred)[a];
                assert(rest.filter(pred).contains(item));
                rest.lemma_filter_contains_rev(pred, item);
                let k = choose|k: int| 0 <= k < rest.len() && rest[k] == item;
                assert(list[k] != list[list.len() - 1]);
            }
        }
    }
}

/// A stable sort of distinct items holds distinct items.
pub proof fn lemma_stable_sort_no_duplicates<T>(
    items: Seq<T>,
    sorted: Seq<T>,
    key: spec_fn(T) -> Seq<int>,
)
    requires
        items.no_duplicates(),
        is_stable_sort(items, sorted, key),
    ensures
        sorted.no_duplicates(),
{
    assert forall|i: int, j: int| 0 <= i < j < sorted.len() implies sorted[i] != sorted[j] by {
        if sorted[i] == sorted[j] {
            lemma_no_key_twice(items, sorted, key, key(sorted[i]), i, j);
        }
    }
}

/// Items that differ in what `tag` tells of them still do after a stable sort.
pub proof fn lemma_stable_sort_distinct<T, B>(
    items: Seq<T>,
    sorted: Seq<T>,
    key: spec_fn(T) -> Seq<int>,
    tag: spec_fn(T) -> B,
)
    requires
        forall|i: int, j: int| 0 <= i < j < items.len() ==> tag(items[i]) != tag(items[j]),
        is_stable_sort(items, sorted, key),
    ensures
        forall|i: int, j: int| 0 <= i < j < sorted.len() ==> tag(sorted[i]) != tag(sorted[j]),
{
    assert(items.no_duplicates()) by {
        assert forall|i: int, j: int|
            0 <= i < items.len() && 0 <= j < items.len() && i != j implies items[i] != items[j] by {
            if i < j {
                assert(tag(items[i]) != tag(items[j]));
            } else {
                assert(tag(items[j]) != tag(items[i]));
            }
        }
    }
    lemma_stable_sort_no_duplicates(items, sorted, key);
    assert forall|i: int, j: int| 0 <= i < j < sorted.len() implies tag(sorted[i]) != tag(
        sorted[j],
    ) by {
        assert(sorted.contains(sorted[i]));
        assert(sorted.contains(sorted[j]));
        lemma_stable_sort_contains(items, sorted, key, sorted[i]);
        lemma_stable_sort_contains(items, sorted, key, sorted[j]);
        let a = choose|a: int| 0 <= a < items.len() && items[a] == sorted[i];
        let b = choose|b: int| 0 <= b < items.len() && items[b] == sorted[j];
        if a < b {
            assert(tag(items[a]) != tag(items[b]));
        } else if b < a {
            assert(tag(items[b]) != tag(items[a]));
        } else {
            assert(sorted[i] == sorted[j]);
        }
    }
}

proof fn lemma_no_key_twice<T>(
    items: Seq<T>,
    sorted: Seq<T>,
    key: spec_fn(T) -> Seq<int>,
    k: Seq<int>,
    i: int,
    j: int,
)
    requires
        items.no_duplicates(),
        is_stable_sort(items, sorted, key),
        0 <= i < j < sorted.len(),
        k == key(sorted[i]),
    ensures
        sorted[i] != sorted[j],
{
    if sorted[i] == sorted[j] {
        assert(with_key(sorted, key, k) == with_key(items, key, k));
        lemma_filter_twice(sorted, key_is(key, k), i, j);
        lemma_filter_no_duplicates(items, key_is(key, k));
    }
}

/// A stable sort of items is a stable sort of what the items say.
pub proof fn lemma_stable_sort_views<T: View>(
    items: Seq<T>,
    sorted: Seq<T>,
    key: spec_fn(T) -> Seq<int>,
    view_key: spec_fn(T::V) -> Seq<int>,
)
    requires
        is_stable_sort(items, sorted, key),
        forall|item: T| key(item) == view_key(#[trigger] item@),
    ensures
        is_stable_sort(views(items), views(sorted), view_key),
{
    let a = views(items);
    let b = views(sorted);
    assert forall|i: int, j: int| 0 <= i < j < b.len() implies !seq_before(
        view_key(#[trigger] b[j]),
        view_key(#[trigger] b[i]),
    ) by {
        assert(b[i] == sorted[i]@);
        assert(b[j] == sorted[j]@);
        assert(!seq_before(key(sorted[j]), key(sorted[i])));
    }
    assert forall|k: Seq<int>| #[trigger] with_key(b, view_key, k) == with_key(a, view_key, k) by {
        let pred = |item: T| key(item) == k;
        let view_pred = |item: T::V| view_key(item) == k;
        assert forall|item: T| pred(item) <==> view_pred(item.view()) by {
            assert(key(item) == view_key(item@));
        }
        assert(with_key(sorted, key, k) == with_key(items, key, k));
        lemma_filter_view_commute(sorted, pred, view_pred);
        lemma_filter_view_commute(items, pred, view_pred);
        assert(with_key(sorted, key, k) == sorted.filter(pred));
        assert(with_key(items, key, k) == items.filter(pred));
    }
}

/// Sorts `items` by `key`, keeping the order of items with equal keys.
pub fn stable_sort<T, F: Fn(&T, &T) -> bool>(
    items: Vec<T>,
    before: F,
    Ghost(key): Ghost<spec_fn(T) -> Seq<int>>,
) -> (sorted: Vec<T>)
    requires
        forall|a: &T, b: &T| call_requires(before, (a, b)),
        forall|a: &T, b: &T, r: bool|
            call_ensures(before, (a, b), r) ==> r == seq_before(key(*a), key(*b)),
    ensures
        is_stable_sort(items@, sorted@, key),
{
    let ghost all = items@;
    let mut rest = items;
    let mut reversed: Vec<T> = Vec::new();
    while rest.len() > 0
        invariant
            all == rest@ + reversed@.reverse(),
        decreases rest.len(),
    {
        let ghost done = reversed@;
        let ghost left = rest@;
        match rest.pop() {
            Some(item) => {
                reversed.push(item);
                assert(reversed@.reverse() =~= seq![item] + done.reverse());
                assert(left =~= rest@.push(item));
                assert(all =~= rest@ + reversed@.reverse());
            },
            None => {},
        }
    }
    assert(all =~= reversed@.reverse());
    let mut sorted: Vec<T> = Vec::new();
    let ghost mut seen: Seq<T> = seq![];
    assert(is_stable_sort(seen, sorted@, key)) by {
        assert(seen =~= sorted@);
    }
    while reversed.len() > 0
        invariant
            all == seen + reversed@.reverse(),
            is_stable_sort(seen, sorted@, key),
            forall|a: &T, b: &T| call_requires(before, (a, b)),
            forall|a: &T, b: &T, r: bool|
                call_ensures(before, (a, b), r) ==> r == seq_before(key(*a), key(*b)),
        decreases reversed.len(),
    {
        let ghost left = reversed@;
        match reversed.pop() {
            Some(item) => {
                let mut at: usize = sorted.len();
                while at > 0 && before(&item, &sorted[at - 1])
                    invariant
                        at <= sorted.len(),
                        is_sorted(sorted@, key),
                        forall|i: int|
                            at <= i < sorted.len() ==> seq_before(
                                key(item),
                                key(#[trigger] sorted@[i]),
                            ),
                        forall|a: &T, b: &T| call_requires(before, (a, b)),
                        forall|a: &T, b: &T, r: bool|
                            call_ensures(before, (a, b), r) ==> r == seq_before(key(*a), key(*b)),
                    ensures
                        at <= sorted.len(),
                        at > 0 ==> !seq_before(key(item), key(sorted@[at - 1])),
                        forall|i: int|
                            at <= i < sorted.len() ==> seq_before(
                                key(item),
                                key(#[trigger] sorted@[i]),
                            ),
                    decreases at,
                {
                    at -= 1;
                }
                proof {
                    assert forall|i: int| 0 <= i < at implies !seq_before(
                        key(item),
                        key(#[trigger] sorted@[i]),
                    ) by {
                        if i < at - 1 {
                            if seq_before(key(item), key(sorted@[i])) {
                                lemma_before_total(key(sorted@[i]), key(sorted@[at - 1]));
                                if seq_before(key(sorted@[i]), key(sorted@[at - 1])) {
                                    lemma_before_transitive(
                                        key(item),
                                        key(sorted@[i]),
                                        key(sorted@[at - 1]),
                                    );
                                }
                            }
                        }
                    }
                    lemma_insert_keeps_stable(seen, sorted@, key, at as int, item);
                    assert(left =~= reversed@.push(item));
                    assert(left.reverse() =~= seq![item] + reversed@.reverse());
                    assert(all =~= seen.push(item) + reversed@.reverse());
                    seen = seen.push(item);
                }
                sorted.insert(at, item);
            },
            None => {},
        }
    }
    assert(all =~= seen);
    sorted
}

/// `kept` holds each key of `items` once, in increasing order of the keys.
pub open spec fn is_sorted_distinct<T>(
    items: Seq<T>,
    kept: Seq<T>,
    key: spec_fn(T) -> Seq<int>,
) -> bool {
    &&& is_strictly_sorted(kept, key)
    &&& forall|i: int| 0 <= i < kept.len() ==> items.contains(#[trigger] kept[i])
    &&& forall|i: int|
        0 <= i < items.len() ==> has_key(kept, key, key(#[trigger] items[i]))
}

/// Sorts `items` by `key` and keeps one item of each key.
pub fn sorted_distinct<T, F: Fn(&T, &T) -> bool>(
    items: Vec<T>,
    before: F,
    Ghost(key): Ghost<spec_fn(T) -> Seq<int>>,
) -> (kept: Vec<T>)
    requires
        forall|a: &T, b: &T| call_requires(before, (a, b)),
        forall|a: &T, b: &T, r: bool|
            call_ensures(before, (a, b), r) ==> r == seq_before(key(*a), key(*b)),
    ensures
        is_sorted_distinct(items@, kept@, key),
{
    let ghost all = items@;
    let mut sorted = stable_sort(items, &before, Ghost(key));
    let ghost order = sorted@;
    let mut kept: Vec<T> = Vec::new();
    while sorted.len() > 0
        invariant
            sorted@ == order.take(sorted@.len() as int),
            sorted@.len() <= order.len(),
            is_stable_sort(all, order, key),
            is_strictly_sorted(kept@.reverse(), key),
            forall|i: int| 0 <= i < kept.len() ==> order.contains(#[trigger] kept@[i]),
            forall|i: int|
                sorted@.len() <= i < order.len() ==> has_key(kept@, key, key(#[trigger] order[i])),
            forall|i: int, j: int|
                0 <= i < sorted@.len() && 0 <= j < kept.len() ==> !seq_before(
                    key(#[trigger] kept@[j]),
                    key(#[trigger] sorted@[i]),
                ),
            forall|a: &T, b: &T| call_requires(before, (a, b)),
            forall|a: &T, b: &T, r: bool|
                call_ensures(before, (a, b), r) ==> r == seq_before(key(*a), key(*b)),
        decreases sorted.len(),
    {
        let ghost left = sorted@;
        let ghost old_kept = kept@;
        match sorted.pop() {
            Some(item) => {
                let ghost here = sorted@.len() as int;
                assert(left[here] == item);
                assert(order[here] == item);
                assert(sorted@ =~= order.take(here));
                let fresh = kept.len() == 0 || before(&item, &kept[kept.len() - 1]);
                if fresh {
                    kept.push(item);
                    proof {
                        let now = kept@.reverse();
                        let before_now = old_kept.reverse();
                        assert(now =~= seq![item] + before_now);
                        assert forall|i: int, j: int| 0 <= i < j < now.len() implies seq_before(
                            key(#[trigger] now[i]),
                            key(#[trigger] now[j]),
                        ) by {
                            assert(now[j] == before_now[j - 1]);
                            if i == 0 {
                                if j > 1 {
                                    assert(before_now[0] == old_kept.last());
                                    assert(seq_before(key(before_now[0]), key(before_now[j - 1])));
                                    lemma_before_transitive(
                                        key(item),
                                        key(before_now[0]),
                                        key(before_now[j - 1]),
                                    );
                                }
                            } else {
                                assert(now[i] == before_now[i - 1]);
                            }
                        }
                        assert forall|i: int| 0 <= i < kept.len() implies order.contains(
                            #[trigger] kept@[i],
                        ) by {
                            if i == kept.len() - 1 {
                                assert(order[here] == kept@[i]);
                            } else {
                                assert(kept@[i] == old_kept[i]);
                            }
                        }
                        assert forall|i: int| sorted@.len() <= i < order.len() implies has_key(
                            kept@,
                            key,
                            key(#[trigger] order[i]),
                        ) by {
                            if i == here {
                                assert(key(kept@[kept.len() - 1]) == key(order[i]));
                            } else {
                                assert(has_key(old_kept, key, key(order[i])));
                                let j = choose|j: int|
                                    0 <= j < old_kept.len() && key(#[trigger] old_kept[j]) == key(
                                        order[i],
                                    );
                                assert(kept@[j] == old_kept[j]);
                            }
                        }
                        assert forall|i: int, j: int|
                            0 <= i < sorted@.len() && 0 <= j < kept.len() implies !seq_before(
                            key(#[trigger] kept@[j]),
                            key(#[trigger] sorted@[i]),
                        ) by {
                            assert(sorted@[i] == left[i]);
                            if j < old_kept.len() {
                                assert(kept@[j] == old_kept[j]);
                            } else {
                                assert(sorted@[i] == order[i]);
                                assert(kept@[j] == order[here]);
                            }
                        }
                    }
                } else {
                    proof {
                        let last = kept@.last();
                        assert(!seq_before(key(last), key(left[here])));
                        lemma_before_total(key(item), key(last));
                        assert(key(last) == key(item));
                        assert forall|i: int| sorted@.len() <= i < order.len() implies has_key(
                            kept@,
                            key,
                            key(#[trigger] order[i]),
                        ) by {
                            if i == here {
                                assert(key(kept@[kept.len() - 1]) == key(order[i]));
                            }
                        }
                        assert forall|i: int, j: int|
                            0 <= i < sorted@.len() && 0 <= j < kept.len() implies !seq_before(
                            key(#[trigger] kept@[j]),
                            key(#[trigger] sorted@[i]),
                        ) by {
                            assert(sorted@[i] == left[i]);
                        }
                    }
                }
            },
            None => {},
        }
    }
    let mut result: Vec<T> = Vec::new();
    let ghost mirrored = kept@;
    while kept.len() > 0
        invariant
            mirrored == kept@ + result@.reverse(),
        decreases kept.len(),
    {
        let ghost left = kept@;
        let ghost done = result@;
        match kept.pop() {
            Some(item) => {
                result.push(item);
                assert(result@.reverse() =~= seq![item] + done.reverse());
                assert(left =~= kept@.push(item));
                assert(mirrored =~= kept@ + result@.reverse());
            },
            None => {},
        }
    }
    proof {
        assert(mirrored =~= result@.reverse());
        assert(result@ =~= mirrored.reverse());
        assert forall|i: int| 0 <= i < result.len() implies all.contains(#[trigger] result@[i]) by {
            assert(result@[i] == mirrored[mirrored.len() - 1 - i]);
            lemma_stable_sort_contains(all, order, key, result@[i]);
        }
        assert forall|i: int| 0 <= i < all.len() implies has_key(
            result@,
            key,
            key(#[trigger] all[i]),
        ) by {
            assert(all.contains(all[i]));
            lemma_stable_sort_contains(all, order, key, all[i]);
            let k = choose|k: int| 0 <= k < order.len() && order[k] == all[i];
            assert(has_key(mirrored, key, key(order[k])));
            let j = choose|j: int|
                0 <= j < mirrored.len() && key(#[trigger] mirrored[j]) == key(order[k]);
            assert(result@[mirrored.len() - 1 - j] == mirrored[j]);
        }
    }
    result
}

/// Two strictly sorted sequences with the same keys agree position by position.
pub proof fn lemma_strictly_sorted_same<T>(a: Seq<T>, b: Seq<T>, key: spec_fn(T) -> Seq<int>)
    requires
        is_strictly_sorted(a, key),
        is_strictly_sorted(b, key),
        forall|i: int| 0 <= i < a.len() ==> has_key(b, key, key(#[trigger] a[i])),
        forall|i: int| 0 <= i < b.len() ==> has_key(a, key, key(#[trigger] b[i])),
    ensures
        a.len() == b.len(),
        forall|i: int| 0 <= i < a.len() ==> key(#[trigger] a[i]) == key(b[i]),
    decreases a.len(),
{
    if a.len() == 0 {
        if b.len() > 0 {
            assert(has_key(a, key, key(b[0])));
        }
    } else if b.len() == 0 {
        assert(has_key(b, key, key(a[0])));
    } else {
        let n = a.len() - 1;
        let m = b.len() - 1;
        let j = choose|j: int| 0 <= j < b.len() && key(#[trigger] b[j]) == key(a[n]);
        assert(has_key(b, key, key(a[n])));
        assert(has_key(a, key, key(b[m])));
        let i = choose|i: int| 0 <= i < a.len() && key(#[trigger] a[i]) == key(b[m]);
        if j < m {
            assert(seq_before(key(b[j]), key(b[m])));
            if i < n {
                assert(seq_before(key(a[i]), key(a[n])));
                lemma_before_asymmetric(key(a[i]), key(a[n]));
            } else {
                lemma_before_asymmetric(key(b[j]), key(b[m]));
            }
        }
        assert(key(a[n]) == key(b[m]));
        let x = a.drop_last();
        let y = b.drop_last();
        assert forall|k: int| 0 <= k < x.len() implies has_key(y, key, key(#[trigger] x[k])) by {
            assert(x[k] == a[k]);
            assert(has_key(b, key, key(a[k])));
            let l = choose|l: int| 0 <= l < b.len() && key(#[trigger] b[l]) == key(a[k]);
            assert(seq_before(key(a[k]), key(a[n])));
            lemma_before_asymmetric(key(a[k]), key(a[n]));
            assert(l < m);
            assert(y[l] == b[l]);
        }
        assert forall|k: int| 0 <= k < y.len() implies has_key(x, key, key(#[trigger] y[k])) by {
            assert(y[k] == b[k]);
            assert(has_key(a, key, key(b[k])));
            let l = choose|l: int| 0 <= l < a.len() && key(#[trigger] a[l]) == key(b[k]);
            assert(seq_before(key(b[k]), key(b[m])));
            lemma_before_asymmetric(key(b[k]), key(b[m]));
            assert(l < n);
            assert(x[l] == a[l]);
        }
        lemma_strictly_sorted_same(x, y, key);
        assert forall|k: int| 0 <= k < a.len() implies key(#[trigger] a[k]) == key(b[k]) by {
            if k < n {
                assert(x[k] == a[k]);
                assert(y[k] == b[k]);
            }
        }
    }
}

/// Whether some item has the key `k`.
pub open spec fn has_key<T>(items: Seq<T>, key: spec_fn(T) -> Seq<int>, k: Seq<int>) -> bool {
    exists|i: int| 0 <= i < items.len() && key(#[trigger] items[i]) == k
}

/// Pairs of keys without negative numbers are ordered by the first, then by the
/// second.
pub proof fn lemma_pair_order(a: Seq<int>, a2: Seq<int>, b: Seq<int>, b2: Seq<int>)
    requires
        forall|i: int| 0 <= i < a.len() ==> #[trigger] a[i] >= 0,
        forall|i: int| 0 <= i < b.len() ==> #[trigger] b[i] >= 0,
    ensures
        seq_before(a + seq![-1int] + a2, b + seq![-1int] + b2) <==> (seq_before(a, b) || (a == b
            && seq_before(a2, b2))),
{
    let x = a + seq![-1int] + a2;
    let y = b + seq![-1int] + b2;
    if seq_before(a, b) {
        let at = choose|at: int| #[trigger] splits_at(a, b, at);
        assert(splits_at(x, y, at));
    }
    if a == b && seq_before(a2, b2) {
        let at = choose|at: int| #[trigger] splits_at(a2, b2, at);
        let far = a.len() + 1 + at;
        assert forall|i: int| 0 <= i < far implies x[i] == y[i] by {
            if i > a.len() {
                assert(a2[i - a.len() - 1] == b2[i - a.len() - 1]);
            }
        }
        assert(splits_at(x, y, far));
    }
    if seq_before(x, y) {
        let at = choose|at: int| #[trigger] splits_at(x, y, at);
        let low = if a.len() <= b.len() {
            a.len() as int
        } else {
            b.len() as int
        };
        if at < low {
            assert forall|i: int| 0 <= i <= at implies x[i] == a[i] && y[i] == b[i] by {}
            assert(splits_at(a, b, at));
        } else if a.len() != b.len() {
            if a.len() < b.len() {
                assert(x[a.len() as int] == -1);
                assert(y[a.len() as int] == b[a.len() as int]);
                assert(at == a.len());
                assert forall|i: int| 0 <= i < at implies a[i] == b[i] by {
                    assert(x[i] == a[i] && y[i] == b[i]);
                }
                assert(splits_at(a, b, at));
            } else {
                assert(y[b.len() as int] == -1);
                assert(x[b.len() as int] == a[b.len() as int]);
                assert(false);
            }
        } else {
            let n = a.len() as int;
            if at == n {
                assert(x[n] == -1 && y[n] == -1);
            }
            assert forall|i: int| 0 <= i < n implies a[i] == b[i] by {
                assert(x[i] == a[i] && y[i] == b[i]);
            }
            assert(a =~= b);
            let near = at - n - 1;
            assert forall|i: int| 0 <= i < near implies a2[i] == b2[i] by {
                assert(x[n + 1 + i] == a2[i] && y[n + 1 + i] == b2[i]);
            }
            assert(splits_at(a2, b2, near));
        }
    }
}

/// A number in front of a key decides first.
pub proof fn lemma_number_first(p: int, a: Seq<int>, q: int, b: Seq<int>)
    ensures
        seq_before(seq![p] + a, seq![q] + b) <==> (p < q || (p == q && seq_before(a, b))),
{
    let x = seq![p] + a;
    let y = seq![q] + b;
    if p < q {
        assert(splits_at(x, y, 0));
    }
    if p == q && seq_before(a, b) {
        let at = choose|at: int| #[trigger] splits_at(a, b, at);
        assert forall|i: int| 0 <= i < at + 1 implies x[i] == y[i] by {
            if i > 0 {
                assert(a[i - 1] == b[i - 1]);
            }
        }
        assert(splits_at(x, y, at + 1));
    }
    if seq_before(x, y) {
        let at = choose|at: int| #[trigger] splits_at(x, y, at);
        if at > 0 {
            assert(x[0] == y[0]);
            assert forall|i: int| 0 <= i < at - 1 implies a[i] == b[i] by {
                assert(x[i + 1] == y[i + 1]);
            }
            assert(splits_at(a, b, at - 1));
        }
    }
}

/// Of two strings of bytes that agree up to a position the one with the smaller byte
/// there comes first, and a string comes before any that it begins.
pub proof fn law_order_of_bytes(a: Seq<u8>, b: Seq<u8>, at: int)
    requires
        0 <= at <= a.len(),
        0 <= at <= b.len(),
        forall|i: int| 0 <= i < at ==> a[i] == b[i],
    ensures
        at < a.len() && at < b.len() && a[at] != b[at] ==> (seq_before(byte_key(a), byte_key(b))
            <==> a[at] < b[at]),
        at == a.len() && at < b.len() ==> seq_before(byte_key(a), byte_key(b)) && !seq_before(
            byte_key(b),
            byte_key(a),
        ),
{
    let x = byte_key(a);
    let y = byte_key(b);
    if at < a.len() && at < b.len() && a[at] != b[at] {
        if a[at] < b[at] {
            assert(splits_at(x, y, at));
        } else {
            assert(splits_at(y, x, at));
            lemma_before_asymmetric(y, x);
        }
    } else if at == a.len() && at < b.len() {
        assert(splits_at(x, y, at));
        lemma_before_asymmetric(x, y);
    }
}

/// Texts are in the order of their bytes in UTF-8.
pub proof fn law_order_of_texts(a: Seq<char>, b: Seq<char>, at: int)
    requires
        0 <= at < encode_utf8(a).len(),
        at < encode_utf8(b).len(),
        forall|i: int| 0 <= i < at ==> encode_utf8(a)[i] == encode_utf8(b)[i],
        encode_utf8(a)[at] != encode_utf8(b)[at],
    ensures
        seq_before(text_key(a), text_key(b)) <==> encode_utf8(a)[at] < encode_utf8(b)[at],
{
    law_order_of_bytes(encode_utf8(a), encode_utf8(b), at);
}

/// A stable sort holds the items that were given, none lost and none new. None of
/// them stands after one that it comes before, and those under one key keep their
/// order.
pub proof fn law_stable_sort<T>(
    items: Seq<T>,
    sorted: Seq<T>,
    key: spec_fn(T) -> Seq<int>,
    item: T,
    i: int,
    j: int,
)
    requires
        is_stable_sort(items, sorted, key),
    ensures
        sorted.len() == items.len(),
        sorted.contains(item) <==> items.contains(item),
        0 <= i < j < sorted.len() ==> !seq_before(key(sorted[j]), key(sorted[i])),
        sorted.filter(|other: T| key(other) == key(item)) == items.filter(
            |other: T| key(other) == key(item),
        ),
{
    lemma_stable_sort_contains(items, sorted, key, item);
    let pred = |other: T| key(other) == key(item);
    assert(with_key(sorted, key, key(item)) == with_key(items, key, key(item)));
    assert(with_key(sorted, key, key(item)) == sorted.filter(pred));
    assert(with_key(items, key, key(item)) == items.filter(pred));
}

} // verus!
