//! The keys of a table in order.
use vstd::prelude::*;
use crate::semantics::{key_before, lists_keys, sorted_keys, text_before};
use crate::text::chars_of;
use crate::value::{TableKey, TableKeyView, Value, ValueView};
use crate::views::{Dict, Key, distinct_keys, group_views, lemma_entry, lemma_has_entry, views};

verus! {

broadcast use group_views;

proof fn lemma_text_order(a: Seq<char>, b: Seq<char>)
    ensures
        text_before(a, b) ==> !text_before(b, a),
        text_before(a, b) || text_before(b, a) || a == b,
        a == b ==> !text_before(a, b),
    decreases a.len(),
{
    if a.len() > 0 && b.len() > 0 {
        lemma_text_order(a.skip(1), b.skip(1));
        if a[0] == b[0] && a.skip(1) == b.skip(1) {
            assert(a =~= seq![a[0]] + a.skip(1));
            assert(b =~= seq![b[0]] + b.skip(1));
        }
    } else if a.len() == 0 && b.len() == 0 {
        assert(a =~= b);
    }
}

proof fn lemma_text_order_chains(a: Seq<char>, b: Seq<char>, c: Seq<char>)
    requires
        text_before(a, b),
        text_before(b, c),
    ensures
        text_before(a, c),
    decreases a.len(),
{
    if a.len() > 0 && b.len() > 0 && c.len() > 0 && a[0] == b[0] && b[0] == c[0] {
        lemma_text_order_chains(a.skip(1), b.skip(1), c.skip(1));
    }
}

/// The order of keys is total: of two different keys one comes first, and
/// never both.
pub proof fn keys_are_ordered(a: TableKeyView, b: TableKeyView)
    ensures
        key_before(a, b) ==> !key_before(b, a),
        key_before(a, b) || key_before(b, a) || a == b,
        a == b ==> !key_before(a, b),
{
    match (a, b) {
        (TableKeyView::Name(x), TableKeyView::Name(y)) => {
            lemma_text_order(x, y);
        },
        _ => {},
    }
}

/// The order of keys carries over.
pub proof fn key_order_chains(a: TableKeyView, b: TableKeyView, c: TableKeyView)
    requires
        key_before(a, b),
        key_before(b, c),
    ensures
        key_before(a, c),
{
    match (a, b, c) {
        (TableKeyView::Name(x), TableKeyView::Name(y), TableKeyView::Name(z)) => {
            lemma_text_order_chains(x, y, z);
        },
        _ => {},
    }
}

/// A table's keys have one order.
pub proof fn key_lists_are_unique(
    a: Seq<TableKeyView>,
    b: Seq<TableKeyView>,
    entries: Map<TableKeyView, ValueView>,
)
    requires
        lists_keys(a, entries),
        lists_keys(b, entries),
    ensures
        a == b,
    decreases a.len(),
{
    if a.len() == 0 {
        if b.len() > 0 {
            assert(b.contains(b[0]));
            assert(a.contains(b[0]));
        }
        assert(a =~= b);
    } else {
        assert(a.contains(a[0]));
        assert(b.contains(a[0]));
        let p = choose|p: int| 0 <= p < b.len() && b[p] == a[0];
        assert(b.contains(b[0]));
        assert(a.contains(b[0]));
        let q = choose|q: int| 0 <= q < a.len() && a[q] == b[0];
        keys_are_ordered(a[0], b[0]);
        if p > 0 {
            assert(key_before(b[0], b[p]));
            if q > 0 {
                assert(key_before(a[0], a[q]));
            }
        }
        assert(a[0] == b[0]);
        let rest = entries.remove(a[0]);
        let a1 = a.skip(1);
        let b1 = b.skip(1);
        assert forall|k: TableKeyView| a1.contains(k) <==> rest.contains_key(k) by {
            keys_are_ordered(a[0], a[0]);
            if a1.contains(k) {
                let j = choose|j: int| 0 <= j < a1.len() && a1[j] == k;
                assert(a[j + 1] == k);
                assert(a.contains(k));
                assert(key_before(a[0], a[j + 1]));
            }
            if rest.contains_key(k) {
                assert(a.contains(k));
                let j = choose|j: int| 0 <= j < a.len() && a[j] == k;
                assert(a1[j - 1] == k);
            }
        }
        assert forall|k: TableKeyView| b1.contains(k) <==> rest.contains_key(k) by {
            keys_are_ordered(b[0], b[0]);
            if b1.contains(k) {
                let j = choose|j: int| 0 <= j < b1.len() && b1[j] == k;
                assert(b[j + 1] == k);
                assert(b.contains(k));
                assert(key_before(b[0], b[j + 1]));
            }
            if rest.contains_key(k) {
                assert(b.contains(k));
                let j = choose|j: int| 0 <= j < b.len() && b[j] == k;
                assert(b1[j - 1] == k);
            }
        }
        key_lists_are_unique(a1, b1, rest);
        assert(a =~= seq![a[0]] + a1);
        assert(b =~= seq![b[0]] + b1);
    }
}

fn text_less(a: &String, b: &String) -> (r: bool)
    ensures
        r == text_before(a@, b@),
{
    let x = chars_of(a.as_str());
    let y = chars_of(b.as_str());
    let mut k: usize = 0;
    assert(x@.skip(0) =~= x@);
    assert(y@.skip(0) =~= y@);
    while k < x.len() && k < y.len() && x[k] == y[k]
        invariant
            k <= x@.len(),
            k <= y@.len(),
            text_before(a@, b@) == text_before(x@.skip(k as int), y@.skip(k as int)),
        decreases x@.len() - k,
    {
        assert(x@.skip(k as int).skip(1) =~= x@.skip(k + 1));
        assert(y@.skip(k as int).skip(1) =~= y@.skip(k + 1));
        k += 1;
    }
    if k >= y.len() {
        false
    } else if k >= x.len() {
        true
    } else {
        x[k] < y[k]
    }
}

fn key_less(a: &TableKey, b: &TableKey) -> (r: bool)
    ensures
        r == key_before(a@, b@),
{
    match (a, b) {
        (TableKey::Index(x), TableKey::Index(y)) => *x < *y,
        (TableKey::Name(x), TableKey::Name(y)) => text_less(x, y),
        (TableKey::Index(_), TableKey::Name(_)) => true,
        (TableKey::Name(_), TableKey::Index(_)) => false,
    }
}

pub open spec fn in_order(keys: Seq<TableKeyView>) -> bool {
    forall|a: int, b: int|
        0 <= a < b < keys.len() ==> key_before(#[trigger] keys[a], #[trigger] keys[b])
}

fn insert_key(keys: &mut Vec<TableKey>, key: TableKey)
    requires
        in_order(views(old(keys)@)),
        !views(old(keys)@).contains(key@),
    ensures
        in_order(views(final(keys)@)),
        forall|k: TableKeyView|
            views(final(keys)@).contains(k) <==> views(old(keys)@).contains(k) || k == key@,
{
    let ghost before = views(keys@);
    let mut p: usize = 0;
    while p < keys.len() && key_less(&keys[p], &key)
        invariant
            p <= keys@.len(),
            before == views(keys@),
            forall|j: int| 0 <= j < p ==> key_before(#[trigger] before[j], key@),
        decreases keys@.len() - p,
    {
        assert(before[p as int] == keys@[p as int]@);
        p += 1;
    }
    let ghost old_keys = keys@;
    keys.insert(p, key);
    let ghost after = views(keys@);
    proof {
        assert(after.len() == before.len() + 1);
        assert forall|j: int| 0 <= j < after.len() implies #[trigger] after[j] == if j < p {
            before[j]
        } else if j == p {
            key@
        } else {
            before[j - 1]
        } by {
            assert(keys@[j] == old_keys.insert(p as int, key)[j]);
        }
        assert forall|j: int| p <= j < before.len() implies key_before(key@, #[trigger] before[j]) by {
            assert(before[p as int] == old_keys[p as int]@);
            keys_are_ordered(before[p as int], key@);
            if before[p as int] == key@ {
                assert(before.contains(key@));
            }
            if j > p {
                key_order_chains(key@, before[p as int], before[j]);
            }
        }
        assert forall|a: int, b: int| 0 <= a < b < after.len() implies key_before(
            #[trigger] after[a],
            #[trigger] after[b],
        ) by {
            if a < p && b > p {
                assert(key_before(before[a], before[b - 1]));
            } else if a > p {
                assert(key_before(before[a - 1], before[b - 1]));
            }
        }
        assert forall|k: TableKeyView| after.contains(k) <==> before.contains(k) || k == key@ by {
            if after.contains(k) {
                let j = choose|j: int| 0 <= j < after.len() && after[j] == k;
                if j < p {
                    assert(before[j] == k);
                } else if j > p {
                    assert(before[j - 1] == k);
                }
            }
            if before.contains(k) {
                let j = choose|j: int| 0 <= j < before.len() && before[j] == k;
                if j < p {
                    assert(after[j] == k);
                } else {
                    assert(after[j + 1] == k);
                }
            }
            assert(after[p as int] == key@);
        }
    }
}

/// The keys of a table in order.
pub fn keys_in_order(entries: &Dict<TableKey, Value>) -> (r: Vec<TableKey>)
    ensures
        views(r@) == sorted_keys(entries@),
{
    let list = entries.entries();
    let mut keys: Vec<TableKey> = Vec::new();
    let mut i: usize = 0;
    while i < list.len()
        invariant
            i <= list@.len(),
            distinct_keys(list@),
            in_order(views(keys@)),
            forall|k: TableKeyView|
                views(keys@).contains(k) <==> exists|j: int|
                    0 <= j < i && (#[trigger] list@[j]).0@ == k,
        decreases list@.len() - i,
    {
        let ghost before = views(keys@);
        assert(!views(keys@).contains(list@[i as int].0@)) by {
            if views(keys@).contains(list@[i as int].0@) {
                let j = choose|j: int|
                    0 <= j < i && (#[trigger] list@[j]).0@ == list@[i as int].0@;
                assert(list@[j].0@ != list@[i as int].0@);
            }
        }
        insert_key(&mut keys, list[i].0.copy_key());
        assert forall|k: TableKeyView|
            views(keys@).contains(k) <==> exists|j: int|
                0 <= j < i + 1 && (#[trigger] list@[j]).0@ == k by {
            if views(keys@).contains(k) {
                if before.contains(k) {
                    let j = choose|j: int| 0 <= j < i && (#[trigger] list@[j]).0@ == k;
                    assert(list@[j].0@ == k);
                } else {
                    assert(list@[i as int].0@ == k);
                }
            }
            if exists|j: int| 0 <= j < i + 1 && (#[trigger] list@[j]).0@ == k {
                let j = choose|j: int| 0 <= j < i + 1 && (#[trigger] list@[j]).0@ == k;
                if j < i {
                    assert(before.contains(k));
                }
            }
        }
        i += 1;
    }
    proof {
        let found = views(keys@);
        assert forall|k: TableKeyView| found.contains(k) <==> entries@.contains_key(k) by {
            if found.contains(k) {
                let j = choose|j: int| 0 <= j < list@.len() && (#[trigger] list@[j]).0@ == k;
                lemma_entry(list@, j);
            }
            if entries@.contains_key(k) {
                lemma_has_entry(list@, k);
                let j = choose|j: int| 0 <= j < list@.len() && (#[trigger] list@[j]).0@ == k;
                assert(list@[j].0@ == k);
            }
        }
        assert(lists_keys(found, entries@));
        key_lists_are_unique(found, sorted_keys(entries@), entries@);
    }
    keys
}

} // verus!
