//! Laws of the instructions that make, read and change what a program holds.
use vstd::prelude::*;
use crate::code::EntryView;
use crate::heap::{ObjectView, allocation_is_fresh, object_at, with_object};
use crate::instance::{ActiveDestructor, InstanceView, cut, dropped, pushed};
use crate::ir::OpView;
use crate::machine::{RunView, VmView, apply, with_run};
use crate::number_laws::{Site, left_by, left_by_one};
use crate::run_laws::{
    stored_entries_read_back, stored_fields_read_back, stored_items_read_back,
    storing_a_field_keeps_the_rest, storing_an_item_keeps_the_others,
};
use crate::scalar::{
    decoded, packed, packed_array, scalar_bytes, scalars_round_trip, written_cell_reads_back,
};
use crate::semantics::{
    Effect, HeapView, effect, entries_of, entry_in, entry_values, field_at, fresh, key_before,
    key_of, latest_destructor, made, offset_of, popped_indices, string_in, table_from,
};
use crate::types::{ErrorView, TypeView, size_of_type};
use crate::value::{
    FieldView, HeapRef, LayoutView, TableKey, TableKeyView, ValueView, index_of, int_of, ref_of,
};

verus! {

/// What an instruction does with these values on top of the stack, the last on
/// top.
pub open spec fn done_with(s: Site, values: Seq<ValueView>, op: OpView) -> Effect {
    effect(
        s.heap,
        s.all,
        InstanceView { stack: s.inst.stack + values, ..s.inst },
        s.receiver,
        op,
    )
}

/// The instruction succeeded, took the values, and changed nothing but the heap.
pub open spec fn took(s: Site, e: Effect) -> bool {
    e.flow is Next && e.inst == s.inst
}

/// The instruction succeeded and left a new object in place of the values: what
/// was in the heap is still there.
pub open spec fn made_one(s: Site, e: Effect) -> bool {
    &&& e.flow is Settle
    &&& e.inst.stack.len() == s.inst.stack.len() + 1
    &&& e.inst == pushed(s.inst, e.inst.stack.last())
    &&& ref_of(e.inst.stack.last()) matches Some(new) && object_at(s.heap, new) is Err
    &&& forall|r: HeapRef| #[trigger]
        object_at(s.heap, r) is Ok ==> object_at(e.heap, r) == object_at(s.heap, r)
}

/// The same place after an instruction.
pub open spec fn behind(s: Site, e: Effect) -> Site {
    Site { heap: e.heap, ..s }
}

proof fn lemma_taken(s: Site, values: Seq<ValueView>)
    ensures
        ({
            let full = InstanceView { stack: s.inst.stack + values, ..s.inst };
            &&& cut(full, s.inst.stack.len() as int) == s.inst
            &&& full.stack.skip(s.inst.stack.len() as int) == values
            &&& values.len() > 0 ==> {
                &&& dropped(full) == (InstanceView {
                    stack: s.inst.stack + values.drop_last(),
                    ..s.inst
                })
                &&& full.stack.last() == values.last()
            }
            &&& values.len() == 0 ==> full == s.inst
        }),
{
    let full = InstanceView { stack: s.inst.stack + values, ..s.inst };
    assert(full.stack.take(s.inst.stack.len() as int) =~= s.inst.stack);
    assert(full.stack.skip(s.inst.stack.len() as int) =~= values);
    if values.len() > 0 {
        assert(dropped(full).stack =~= s.inst.stack + values.drop_last());
    } else {
        assert(full.stack =~= s.inst.stack);
    }
}

proof fn lemma_made(s: Site, object: ObjectView)
    requires
        s.heap.len() <= usize::MAX,
    ensures
        ({
            let h = with_object(s.heap, object);
            &&& object_at(h, fresh(s.heap)) == Ok::<ObjectView, ErrorView>(object) || s.heap.len()
                == usize::MAX
            &&& s.heap.len() < usize::MAX ==> object_at(s.heap, fresh(s.heap)) is Err
            &&& forall|r: HeapRef| #[trigger]
                object_at(s.heap, r) is Ok ==> object_at(h, r) == object_at(s.heap, r)
        }),
{
    allocation_is_fresh(s.heap, object);
}

proof fn lemma_packed_len(values: Seq<ValueView>, element: TypeView)
    requires
        packed(values, element) is Ok,
        size_of_type(element) is Some,
    ensures
        packed(values, element)->Ok_0.len() == values.len() * size_of_type(element).unwrap(),
    decreases values.len(),
{
    let size = size_of_type(element).unwrap() as int;
    if values.len() > 0 {
        lemma_packed_len(values.drop_last(), element);
        scalars_round_trip(values.last());
        assert((values.len() - 1) * size + size == values.len() * size) by (nonlinear_arith);
    }
}

proof fn lemma_packed_cell(values: Seq<ValueView>, element: TypeView, k: int)
    requires
        packed(values, element) is Ok,
        size_of_type(element) is Some,
        0 <= k < values.len(),
        values.len() * size_of_type(element).unwrap() <= usize::MAX,
    ensures
        decoded(packed(values, element)->Ok_0, k as usize, element) == Ok::<ValueView, ErrorView>(
            values[k],
        ),
    decreases values.len(),
{
    let size = size_of_type(element).unwrap() as int;
    let bytes = packed(values, element)->Ok_0;
    let before = packed(values.drop_last(), element)->Ok_0;
    lemma_packed_len(values, element);
    lemma_packed_len(values.drop_last(), element);
    scalars_round_trip(values.last());
    assert(k * size + size <= values.len() * size) by (nonlinear_arith)
        requires
            0 <= k < values.len(),
            size >= 0,
    ;
    assert(k * size >= 0) by (nonlinear_arith)
        requires
            k >= 0,
            size >= 0,
    ;
    assert((values.len() - 1) * size + size == values.len() * size) by (nonlinear_arith);
    if k == values.len() - 1 {
        assert(bytes.subrange(k * size, k * size + size) =~= scalar_bytes(values.last()));
    } else {
        assert((values.len() - 1) * size <= usize::MAX) by (nonlinear_arith)
            requires
                values.len() * size <= usize::MAX,
                size >= 0,
        ;
        lemma_packed_cell(values.drop_last(), element, k);
        assert(k * size + size <= (values.len() - 1) * size) by (nonlinear_arith)
            requires
                0 <= k < values.len() - 1,
                size >= 0,
        ;
        assert(bytes.subrange(k * size, k * size + size) =~= before.subrange(
            k * size,
            k * size + size,
        ));
    }
}

/// A vector made of values of its element type holds them in the order in which
/// they were pushed: reading at index `k` gives the `k`th, behind the last there
/// is none, and its length is their number.
#[verifier::spinoff_prover]
#[verifier::rlimit(40)]
pub proof fn vectors_hold_their_items(s: Site, items: Seq<ValueView>, element: TypeView, k: i32)
    requires
        s.heap.len() < usize::MAX,
        packed_array(items, element) is Ok,
        items.len() <= i32::MAX,
        0 <= k,
    ensures
        ({
            let e = done_with(s, items, OpView::MakeArray(items.len() as usize, element));
            let v = e.inst.stack.last();
            let at = behind(s, e);
            &&& made_one(s, e)
            &&& k < items.len() ==> left_by(at, OpView::Index, v, ValueView::I32(k)) == Some(
                items[k as int],
            )
            &&& k >= items.len() ==> left_by(at, OpView::Index, v, ValueView::I32(k)) is None
            &&& left_by_one(at, OpView::Len, v) == Some(ValueView::I32(items.len() as i32))
        }),
{
    lemma_taken(s, items);
    let size = size_of_type(element).unwrap() as int;
    let bytes = packed(items, element)->Ok_0;
    lemma_packed_len(items, element);
    let object = ObjectView::Array { bytes, element };
    lemma_made(s, object);
    let e = done_with(s, items, OpView::MakeArray(items.len() as usize, element));
    let v = ValueView::Array(fresh(s.heap), element);
    assert(e == made(s.heap, s.inst, object, v));
    let at = behind(s, e);
    lemma_two(at, v, ValueView::I32(k));
    assert(index_of(ValueView::I32(k)) == Ok::<usize, ErrorView>(k as usize));
    if k < items.len() {
        lemma_packed_cell(items, element, k as int);
    } else {
        assert(k * size + size > items.len() * size) by (nonlinear_arith)
            requires
                k >= items.len(),
                size > 0,
        ;
    }
    assert(items.len() * size / size == items.len()) by (nonlinear_arith)
        requires
            size > 0,
    ;
    assert(dropped(pushed(at.inst, v)).stack =~= at.inst.stack);
}

proof fn lemma_two(s: Site, a: ValueView, b: ValueView)
    ensures
        dropped(pushed(s.inst, a)) == s.inst,
        dropped(pushed(pushed(s.inst, a), b)) == pushed(s.inst, a),
{
    assert(dropped(pushed(s.inst, a)).stack =~= s.inst.stack);
    assert(dropped(pushed(pushed(s.inst, a), b)).stack =~= pushed(s.inst, a).stack);
}

/// A struct made of values holds them in the order of its fields: the field with
/// index `k` is the `k`th value that was pushed.
#[verifier::spinoff_prover]
#[verifier::rlimit(40)]
pub proof fn structs_hold_their_fields(
    s: Site,
    values: Seq<ValueView>,
    layout: LayoutView,
    field: FieldView,
)
    requires
        s.heap.len() < usize::MAX,
        values.len() == layout.fields.len(),
        field.index < values.len(),
    ensures
        ({
            let e = done_with(s, values, OpView::MakeStruct(layout));
            let v = e.inst.stack.last();
            &&& made_one(s, e)
            &&& left_by_one(behind(s, e), OpView::Field(field), v) == Some(
                values[field.index as int],
            )
        }),
{
    lemma_taken(s, values);
    lemma_made(s, ObjectView::Struct { values, layout });
    let e = done_with(s, values, OpView::MakeStruct(layout));
    let v = ValueView::Struct(fresh(s.heap), layout);
    assert(e == made(s.heap, s.inst, ObjectView::Struct { values, layout }, v));
    lemma_two(behind(s, e), v, v);
}

/// The values that the entries of a table literal leave on the stack: for each
/// its key, unless the key is a name in the program, and its value.
pub open spec fn laid_out(entries: Seq<(EntryView, ValueView, ValueView)>, k: int) -> Seq<ValueView>
    decreases entries.len() - k,
{
    if k < 0 || k >= entries.len() {
        Seq::empty()
    } else {
        (if entries[k].0 is Index {
            seq![entries[k].1, entries[k].2]
        } else {
            seq![entries[k].2]
        }) + laid_out(entries, k + 1)
    }
}

/// How the entries are written.
pub open spec fn kinds(entries: Seq<(EntryView, ValueView, ValueView)>) -> Seq<EntryView> {
    Seq::new(entries.len(), |k: int| entries[k].0)
}

/// The key of an entry.
pub open spec fn entry_key(h: HeapView, entry: (EntryView, ValueView, ValueView)) -> Result<
    TableKeyView,
    ErrorView,
> {
    match entry.0 {
        EntryView::Index => key_of(h, entry.1),
        EntryView::Name(name) => Ok(TableKeyView::Name(name)),
    }
}

/// Each entry has a key, and no two have the same.
pub open spec fn keys_differ(h: HeapView, entries: Seq<(EntryView, ValueView, ValueView)>) -> bool {
    &&& forall|k: int| 0 <= k < entries.len() ==> entry_key(h, #[trigger] entries[k]) is Ok
    &&& forall|j: int, k: int|
        0 <= j < k < entries.len() ==> entry_key(h, #[trigger] entries[j]) != entry_key(
            h,
            #[trigger] entries[k],
        )
}

proof fn lemma_laid_len(entries: Seq<(EntryView, ValueView, ValueView)>, k: int)
    requires
        0 <= k,
    ensures
        laid_out(entries, k).len() == entry_values(kinds(entries), k),
    decreases entries.len() - k,
{
    if k < entries.len() {
        lemma_laid_len(entries, k + 1);
    }
}

#[verifier::spinoff_prover]
#[verifier::rlimit(40)]
proof fn lemma_table(
    h: HeapView,
    table: Map<TableKeyView, ValueView>,
    entries: Seq<(EntryView, ValueView, ValueView)>,
    k: int,
    values: Seq<ValueView>,
    c: int,
)
    requires
        0 <= k <= entries.len(),
        0 <= c <= values.len(),
        values.skip(c) == laid_out(entries, k),
        keys_differ(h, entries),
        forall|j: int|
            k <= j < entries.len() ==> !table.contains_key(
                entry_key(h, #[trigger] entries[j])->Ok_0,
            ),
    ensures
        ({
            let all = table_from(h, table, kinds(entries), k, values, c);
            &&& all is Ok
            &&& forall|j: int|
                k <= j < entries.len() ==> {
                    let key = entry_key(h, #[trigger] entries[j])->Ok_0;
                    all->Ok_0.contains_key(key) && all->Ok_0[key] == entries[j].2
                }
            &&& forall|key: TableKeyView| #[trigger]
                all->Ok_0.contains_key(key) ==> table.contains_key(key) || exists|j: int|
                    k <= j < entries.len() && entry_key(h, #[trigger] entries[j])->Ok_0 == key
            &&& forall|key: TableKeyView| #[trigger]
                table.contains_key(key) ==> all->Ok_0.contains_key(key) && all->Ok_0[key]
                    == table[key]
        }),
    decreases entries.len() - k,
{
    if k < entries.len() {
        let entry = entries[k];
        let rest = laid_out(entries, k + 1);
        let all = laid_out(entries, k);
        let at = if entry.0 is Index {
            c + 1
        } else {
            c
        };
        assert(all.len() == rest.len() + (at - c) + 1);
        assert(values[c] == values.skip(c)[0]);
        assert(values[at] == values.skip(c)[at - c]);
        assert(values[at] == entry.2);
        assert(entry.0 is Index ==> values[c] == entry.1);
        let key = entry_key(h, entry)->Ok_0;
        let next = table.insert(key, entry.2);
        assert(values.skip(at + 1) =~= rest) by {
            assert(values.skip(at + 1) =~= values.skip(c).skip(at + 1 - c));
            assert(all.skip(at + 1 - c) =~= rest);
        }
        assert forall|j: int| k + 1 <= j < entries.len() implies !next.contains_key(
            entry_key(h, #[trigger] entries[j])->Ok_0,
        ) by {
            assert(entry_key(h, entries[k]) != entry_key(h, entries[j]));
        }
        lemma_table(h, next, entries, k + 1, values, at + 1);
        assert(kinds(entries)[k] == entry.0);
        assert(table_from(h, table, kinds(entries), k, values, c) == table_from(
            h,
            next,
            kinds(entries),
            k + 1,
            values,
            at + 1,
        ));
        assert(next.contains_key(key));
        assert forall|j: int| k <= j < entries.len() implies ({
            let all = table_from(h, table, kinds(entries), k, values, c);
            let key = entry_key(h, #[trigger] entries[j])->Ok_0;
            all->Ok_0.contains_key(key) && all->Ok_0[key] == entries[j].2
        }) by {}
        assert forall|other: TableKeyView| #[trigger] table.contains_key(other) implies ({
            let all = table_from(h, table, kinds(entries), k, values, c);
            all->Ok_0.contains_key(other) && all->Ok_0[other] == table[other]
        }) by {
            assert(other != key);
            assert(next.contains_key(other));
        }
    }
}

/// A table made of entries whose keys differ holds each value under its key, and
/// nothing else: it has as many entries as were written.
#[verifier::spinoff_prover]
#[verifier::rlimit(40)]
pub proof fn tables_hold_their_entries(
    s: Site,
    entries: Seq<(EntryView, ValueView, ValueView)>,
    element: TypeView,
    k: int,
    key: TableKeyView,
)
    requires
        s.heap.len() < usize::MAX,
        keys_differ(s.heap, entries),
        0 <= k < entries.len(),
    ensures
        ({
            let e = done_with(
                s,
                laid_out(entries, 0),
                OpView::MakeTable(kinds(entries), element),
            );
            let v = e.inst.stack.last();
            &&& made_one(s, e)
            &&& entry_in(e.heap, v, entry_key(s.heap, entries[k])->Ok_0) == Ok::<
                ValueView,
                ErrorView,
            >(entries[k].2)
            &&& entry_in(e.heap, v, key) is Ok ==> exists|j: int|
                0 <= j < entries.len() && entry_key(s.heap, #[trigger] entries[j])->Ok_0 == key
        }),
{
    let values = laid_out(entries, 0);
    lemma_taken(s, values);
    lemma_laid_len(entries, 0);
    assert(values.skip(0) =~= values);
    lemma_table(s.heap, Map::empty(), entries, 0, values, 0);
    let table = table_from(s.heap, Map::empty(), kinds(entries), 0, values, 0)->Ok_0;
    lemma_made(s, ObjectView::Table { entries: table, element });
    let e = done_with(s, values, OpView::MakeTable(kinds(entries), element));
    assert(e == made(
        s.heap,
        s.inst,
        ObjectView::Table { entries: table, element },
        ValueView::Table(fresh(s.heap), element),
    ));
}

/// A table literal that writes a key twice is refused.
pub proof fn repeated_keys_are_refused(
    s: Site,
    name: Seq<char>,
    a: ValueView,
    b: ValueView,
    element: TypeView,
)
    ensures
        done_with(
            s,
            seq![a, b],
            OpView::MakeTable(seq![EntryView::Name(name), EntryView::Name(name)], element),
        ).flow is Fail,
{
    let entries = seq![EntryView::Name(name), EntryView::Name(name)];
    let values = seq![a, b];
    lemma_taken(s, values);
    reveal_with_fuel(entry_values, 3);
    assert(entry_values(entries, 0) == 2);
    let t = Map::<TableKeyView, ValueView>::empty();
    let t1 = t.insert(TableKeyView::Name(name), a);
    assert(table_from(s.heap, t1, entries, 1, values, 1) is Err);
    assert(table_from(s.heap, t, entries, 0, values, 0) is Err);
}

/// Joined strings: the first text and behind it the second.
pub proof fn joined_strings_follow_each_other(s: Site, left: HeapRef, right: HeapRef)
    requires
        s.heap.len() < usize::MAX,
        string_in(s.heap, left) is Ok,
        string_in(s.heap, right) is Ok,
    ensures
        ({
            let e = done_with(
                s,
                seq![ValueView::String(left), ValueView::String(right)],
                OpView::ConcatString,
            );
            let a = string_in(s.heap, left)->Ok_0;
            let b = string_in(s.heap, right)->Ok_0;
            &&& made_one(s, e)
            &&& e.inst.stack.last() is String
            &&& string_in(e.heap, e.inst.stack.last()->String_0) matches Ok(text) && {
                &&& text.len() == a.len() + b.len()
                &&& text.take(a.len() as int) == a
                &&& text.skip(a.len() as int) == b
            }
        }),
{
    let values = seq![ValueView::String(left), ValueView::String(right)];
    lemma_taken(s, values);
    lemma_taken(s, values.drop_last());
    assert(values.drop_last().drop_last() =~= Seq::empty());
    lemma_taken(s, values.drop_last().drop_last());
    let a = string_in(s.heap, left)->Ok_0;
    let b = string_in(s.heap, right)->Ok_0;
    lemma_made(s, ObjectView::String(a + b));
    assert((a + b).take(a.len() as int) =~= a);
    assert((a + b).skip(a.len() as int) =~= b);
}

/// A string of a program is a new text.
pub proof fn written_strings_are_held(s: Site, text: Seq<char>)
    requires
        s.heap.len() < usize::MAX,
    ensures
        ({
            let e = done_with(s, Seq::empty(), OpView::MakeString(text));
            &&& made_one(s, e)
            &&& e.inst.stack.last() is String
            &&& string_in(e.heap, e.inst.stack.last()->String_0) == Ok::<Seq<char>, ErrorView>(
                text,
            )
            &&& text.len() <= i32::MAX ==> left_by_one(
                behind(s, e),
                OpView::Len,
                e.inst.stack.last(),
            ) == Some(ValueView::I32(text.len() as i32))
        }),
{
    lemma_taken(s, Seq::empty());
    lemma_made(s, ObjectView::String(text));
    let e = done_with(s, Seq::empty(), OpView::MakeString(text));
    lemma_two(behind(s, e), e.inst.stack.last(), e.inst.stack.last());
}

/// A local that is stored is loaded again, and no other local changes.
pub proof fn stored_locals_are_loaded(s: Site, slot: usize, v: ValueView, other: usize)
    requires
        slot < usize::MAX,
        other < s.inst.locals.len(),
        other != slot,
    ensures
        ({
            let e = done_with(s, seq![v], OpView::Store(slot));
            let at = Site { inst: e.inst, ..behind(s, e) };
            &&& e.flow is Next && e.heap == s.heap
            &&& e.inst.stack == s.inst.stack
            &&& done_with(at, Seq::empty(), OpView::Load(slot)).inst == pushed(e.inst, v)
            &&& done_with(at, Seq::empty(), OpView::Load(other)).inst == pushed(
                e.inst,
                s.inst.locals[other as int],
            )
        }),
{
    lemma_taken(s, seq![v]);
    assert(seq![v].drop_last() =~= Seq::empty());
    lemma_taken(s, Seq::empty());
    let e = done_with(s, seq![v], OpView::Store(slot));
    lemma_taken(Site { inst: e.inst, ..behind(s, e) }, Seq::empty());
}

/// A vector of this element type.
pub open spec fn is_vector(h: HeapView, v: ValueView, element: TypeView) -> bool {
    match v {
        ValueView::Array(r, t) => t == element && match object_at(h, r) {
            Ok(ObjectView::Array { element: held, .. }) => held == element,
            _ => false,
        },
        _ => false,
    }
}

/// What is stored at an index of the vector in a local is read there again, and
/// the items at other indices stay.
#[verifier::spinoff_prover]
#[verifier::rlimit(40)]
pub proof fn stored_items_are_read(
    s: Site,
    slot: usize,
    element: TypeView,
    k: i32,
    v: ValueView,
    other: i32,
)
    requires
        slot < s.inst.locals.len(),
        is_vector(s.heap, s.inst.locals[slot as int], element),
        done_with(s, seq![ValueView::I32(k), v], OpView::StoreIndex(slot, element)).flow is Next,
        other >= 0,
        other != k,
    ensures
        ({
            let e = done_with(s, seq![ValueView::I32(k), v], OpView::StoreIndex(slot, element));
            let array = s.inst.locals[slot as int];
            &&& took(s, e)
            &&& left_by(behind(s, e), OpView::Index, array, ValueView::I32(k)) == Some(v)
            &&& left_by(behind(s, e), OpView::Index, array, ValueView::I32(other)) == left_by(
                s,
                OpView::Index,
                array,
                ValueView::I32(other),
            )
        }),
{
    let values = seq![ValueView::I32(k), v];
    lemma_taken(s, values);
    assert(values.drop_last() =~= seq![ValueView::I32(k)]);
    lemma_taken(s, values.drop_last());
    assert(values.drop_last().drop_last() =~= Seq::empty());
    lemma_taken(s, Seq::empty());
    let r = s.inst.locals[slot as int]->Array_0;
    let array = s.inst.locals[slot as int];
    assert(k >= 0);
    let e = done_with(s, values, OpView::StoreIndex(slot, element));
    stored_items_read_back(s.heap, r, k as usize, v, element);
    storing_an_item_keeps_the_others(s.heap, r, k as usize, v, element, other as usize);
    lemma_two(s, array, ValueView::I32(k));
    lemma_two(s, array, ValueView::I32(other));
    assert(index_of(ValueView::I32(other)) == Ok::<usize, ErrorView>(other as usize));
    assert(index_of(ValueView::I32(k)) == Ok::<usize, ErrorView>(k as usize));
}

/// What is stored under a key of the table in a local is read under that key
/// again, and under other keys nothing changes.
#[verifier::spinoff_prover]
#[verifier::rlimit(40)]
pub proof fn stored_entries_are_read(
    s: Site,
    slot: usize,
    element: TypeView,
    key: ValueView,
    v: ValueView,
    other: ValueView,
)
    requires
        slot < s.inst.locals.len(),
        s.inst.locals[slot as int] is Table,
        done_with(s, seq![key, v], OpView::StoreTableIndex(slot, element)).flow is Next,
        key is TableKey,
        other is TableKey,
        other != key,
    ensures
        ({
            let e = done_with(s, seq![key, v], OpView::StoreTableIndex(slot, element));
            let table = s.inst.locals[slot as int];
            &&& took(s, e)
            &&& left_by(behind(s, e), OpView::TableIndex, table, key) == Some(v)
            &&& left_by(behind(s, e), OpView::TableIndex, table, other) == left_by(
                s,
                OpView::TableIndex,
                table,
                other,
            )
        }),
{
    let values = seq![key, v];
    lemma_taken(s, values);
    assert(values.drop_last() =~= seq![key]);
    lemma_taken(s, values.drop_last());
    assert(values.drop_last().drop_last() =~= Seq::empty());
    lemma_taken(s, Seq::empty());
    let table = s.inst.locals[slot as int];
    let r = table->Table_0;
    stored_entries_read_back(
        s.heap,
        r,
        table->Table_1,
        key->TableKey_0,
        v,
        other->TableKey_0,
    );
    lemma_two(s, table, key);
    lemma_two(s, table, other);
}

/// A name behind a dot and the same name as a key reach the same entry.
#[verifier::spinoff_prover]
#[verifier::rlimit(40)]
pub proof fn named_entries_are_entries(
    s: Site,
    slot: usize,
    element: TypeView,
    name: Seq<char>,
    v: ValueView,
)
    requires
        slot < s.inst.locals.len(),
        s.inst.locals[slot as int] is Table,
    ensures
        ({
            let key = ValueView::TableKey(TableKeyView::Name(name));
            let table = s.inst.locals[slot as int];
            &&& done_with(s, seq![v], OpView::StoreTableField(slot, name, element)).heap
                == done_with(s, seq![key, v], OpView::StoreTableIndex(slot, element)).heap
            &&& left_by_one(s, OpView::TableField(name), table) == left_by(
                s,
                OpView::TableIndex,
                table,
                key,
            )
        }),
{
    let key = ValueView::TableKey(TableKeyView::Name(name));
    let table = s.inst.locals[slot as int];
    lemma_taken(s, seq![v]);
    assert(seq![v].drop_last() =~= Seq::empty());
    lemma_taken(s, Seq::empty());
    lemma_taken(s, seq![key, v]);
    assert(seq![key, v].drop_last() =~= seq![key]);
    lemma_taken(s, seq![key]);
    assert(seq![key].drop_last() =~= Seq::empty());
    lemma_two(s, table, key);
}

/// A number is the same key whatever its type, and a string is the key of its
/// text.
pub proof fn keys_are_numbers_or_texts(h: HeapView, a: ValueView, b: ValueView, r: HeapRef)
    requires
        int_of(a) is Some,
        int_of(b) is Some,
        string_in(h, r) is Ok,
    ensures
        key_of(h, a) is Ok,
        key_of(h, a) == key_of(h, b) <==> int_of(a) == int_of(b),
        key_of(h, ValueView::String(r)) == Ok::<TableKeyView, ErrorView>(
            TableKeyView::Name(string_in(h, r)->Ok_0),
        ),
        key_of(h, a) != key_of(h, ValueView::String(r)),
{
}

/// What is stored in a field of the struct in a local is read there again, and
/// the other fields stay; so it is with the struct that a method works on.
#[verifier::spinoff_prover]
#[verifier::rlimit(40)]
pub proof fn stored_fields_are_read(
    s: Site,
    slot: usize,
    field: FieldView,
    v: ValueView,
    other: FieldView,
)
    requires
        slot < s.inst.locals.len(),
        s.inst.locals[slot as int] is Struct,
        done_with(s, seq![v], OpView::StoreField(slot, field)).flow is Next,
        other.index != field.index,
    ensures
        ({
            let e = done_with(s, seq![v], OpView::StoreField(slot, field));
            let held = s.inst.locals[slot as int];
            &&& took(s, e)
            &&& left_by_one(behind(s, e), OpView::Field(field), held) == Some(v)
            &&& left_by_one(behind(s, e), OpView::Field(other), held) == left_by_one(
                s,
                OpView::Field(other),
                held,
            )
            &&& s.receiver == Some(slot) ==> {
                &&& done_with(s, seq![v], OpView::StoreCurrentField(field)) == e
                &&& done_with(behind(s, e), Seq::empty(), OpView::LoadCurrentField(field)).inst
                    == pushed(s.inst, v)
                &&& done_with(s, Seq::empty(), OpView::LoadCurrentReceiver).inst == pushed(
                    s.inst,
                    held,
                )
            }
        }),
{
    lemma_taken(s, seq![v]);
    assert(seq![v].drop_last() =~= Seq::empty());
    lemma_taken(s, Seq::empty());
    let held = s.inst.locals[slot as int];
    let r = held->Struct_0;
    let e = done_with(s, seq![v], OpView::StoreField(slot, field));
    stored_fields_read_back(s.heap, r, field.index, v);
    storing_a_field_keeps_the_rest(s.heap, r, field.index, v, r, other.index);
    lemma_two(s, held, held);
    lemma_taken(behind(s, e), Seq::empty());
}

/// What is stored at an index of the vector in a field of a struct is read by
/// reading the field and, of that, the index.
#[verifier::spinoff_prover]
#[verifier::rlimit(40)]
pub proof fn stored_items_of_fields_are_read(
    s: Site,
    slot: usize,
    field: FieldView,
    element: TypeView,
    k: i32,
    v: ValueView,
)
    requires
        slot < s.inst.locals.len(),
        s.inst.locals[slot as int] is Struct,
        field_at(s.heap, s.inst.locals[slot as int]->Struct_0, field.index) matches Ok(held)
            && is_vector(s.heap, held, element),
        done_with(
            s,
            seq![ValueView::I32(k), v],
            OpView::StoreFieldIndex(slot, field, element),
        ).flow is Next,
    ensures
        ({
            let e = done_with(
                s,
                seq![ValueView::I32(k), v],
                OpView::StoreFieldIndex(slot, field, element),
            );
            let inner = left_by_one(behind(s, e), OpView::Field(field), s.inst.locals[slot as int]);
            &&& took(s, e)
            &&& inner is Some
            &&& left_by(behind(s, e), OpView::Index, inner->Some_0, ValueView::I32(k)) == Some(v)
        }),
{
    let values = seq![ValueView::I32(k), v];
    lemma_taken(s, values);
    assert(values.drop_last() =~= seq![ValueView::I32(k)]);
    lemma_taken(s, values.drop_last());
    assert(values.drop_last().drop_last() =~= Seq::empty());
    lemma_taken(s, Seq::empty());
    let held = s.inst.locals[slot as int];
    let r = held->Struct_0;
    let array = field_at(s.heap, r, field.index)->Ok_0;
    let a = array->Array_0;
    assert(k >= 0);
    let e = done_with(s, values, OpView::StoreFieldIndex(slot, field, element));
    stored_items_read_back(s.heap, a, k as usize, v, element);
    lemma_two(s, held, held);
    lemma_two(s, array, ValueView::I32(k));
    assert(index_of(ValueView::I32(k)) == Ok::<usize, ErrorView>(k as usize));
    assert(a != r);
    assert(object_at(e.heap, r) == object_at(s.heap, r));
}

/// Indices are taken in the order in which they were pushed.
proof fn lemma_indices(s: Site, indices: Seq<i32>, acc: Seq<usize>)
    requires
        forall|k: int| 0 <= k < indices.len() ==> #[trigger] indices[k] >= 0,
    ensures
        popped_indices(
            InstanceView {
                stack: s.inst.stack + indices.map_values(|k: i32| ValueView::I32(k)),
                ..s.inst
            },
            indices.len(),
            acc,
        ) == (
            s.inst,
            Ok::<Seq<usize>, ErrorView>(indices.map_values(|k: i32| k as usize) + acc),
        ),
    decreases indices.len(),
{
    let values = indices.map_values(|k: i32| ValueView::I32(k));
    let numbers = indices.map_values(|k: i32| k as usize);
    let full = InstanceView { stack: s.inst.stack + values, ..s.inst };
    lemma_taken(s, values);
    if indices.len() > 0 {
        let k = indices.last();
        lemma_indices(s, indices.drop_last(), seq![k as usize] + acc);
        assert(indices.drop_last().map_values(|k: i32| ValueView::I32(k)) =~= values.drop_last());
        assert(indices.drop_last().map_values(|k: i32| k as usize) + (seq![k as usize] + acc)
            =~= numbers + acc);
        assert(index_of(full.stack.last()) == Ok::<usize, ErrorView>(k as usize));
    } else {
        assert(numbers + acc =~= acc);
    }
}

/// What is stored at a position of the tensor in a local is read there again:
/// both take the indices in the order in which they are written.
#[verifier::spinoff_prover]
#[verifier::rlimit(40)]
pub proof fn stored_tensor_items_are_read(
    s: Site,
    slot: usize,
    element: TypeView,
    indices: Seq<i32>,
    v: ValueView,
)
    requires
        slot < s.inst.locals.len(),
        indices.len() <= usize::MAX,
        forall|k: int| 0 <= k < indices.len() ==> #[trigger] indices[k] >= 0,
        s.inst.locals[slot as int] matches ValueView::Tensor(r, _) && object_at(
            s.heap,
            r,
        ) matches Ok(ObjectView::Tensor { element: held, .. }) && held == element,
        done_with(
            s,
            indices.map_values(|k: i32| ValueView::I32(k)).push(v),
            OpView::StoreTensorIndex(slot, element, indices.len() as usize),
        ).flow is Next,
    ensures
        ({
            let places = indices.map_values(|k: i32| ValueView::I32(k));
            let rank = indices.len() as usize;
            let e = done_with(s, places.push(v), OpView::StoreTensorIndex(slot, element, rank));
            let tensor = s.inst.locals[slot as int];
            let at = Site { inst: pushed(s.inst, tensor), ..behind(s, e) };
            &&& took(s, e)
            &&& done_with(at, places, OpView::TensorIndex(element, rank)).inst == pushed(
                s.inst,
                v,
            )
        }),
{
    let places = indices.map_values(|k: i32| ValueView::I32(k));
    let numbers = indices.map_values(|k: i32| k as usize);
    let rank = indices.len() as usize;
    lemma_taken(s, places.push(v));
    assert(places.push(v).drop_last() =~= places);
    lemma_indices(s, indices, Seq::empty());
    assert(numbers + Seq::empty() =~= numbers);
    let tensor = s.inst.locals[slot as int];
    let r = tensor->Tensor_0;
    let e = done_with(s, places.push(v), OpView::StoreTensorIndex(slot, element, rank));
    let at = Site { inst: pushed(s.inst, tensor), ..behind(s, e) };
    lemma_indices(at, indices, Seq::empty());
    lemma_two(s, tensor, v);
    if let Ok(ObjectView::Tensor { bytes, shape, .. }) = object_at(s.heap, r) {
        let offset = offset_of(shape, numbers)->Ok_0;
        written_cell_reads_back(bytes, offset, v, element);
    }
}

/// A removed entry can no longer be read; the instruction says whether there was
/// one.
#[verifier::spinoff_prover]
#[verifier::rlimit(40)]
pub proof fn removed_entries_are_not_read(
    s: Site,
    table: ValueView,
    key: ValueView,
    other: ValueView,
)
    requires
        key is TableKey,
        other is TableKey,
        other != key,
        entries_of(s.heap, table) is Ok,
    ensures
        ({
            let e = done_with(s, seq![table, key], OpView::TableRemove);
            let there = left_by(s, OpView::TableIndex, table, key) is Some;
            &&& e.flow is Next
            &&& e.inst == pushed(s.inst, ValueView::Bool(there))
            &&& left_by(behind(s, e), OpView::TableIndex, table, key) is None
            &&& left_by(behind(s, e), OpView::TableIndex, table, other) == left_by(
                s,
                OpView::TableIndex,
                table,
                other,
            )
        }),
{
    let values = seq![table, key];
    lemma_taken(s, values);
    assert(values.drop_last() =~= seq![table]);
    lemma_taken(s, values.drop_last());
    assert(values.drop_last().drop_last() =~= Seq::empty());
    lemma_taken(s, Seq::empty());
    lemma_two(s, table, key);
    lemma_two(s, table, other);
}

/// The length of a table is the number of its entries, and the length of a list
/// of keys the number of keys.
pub proof fn lengths_count(s: Site, table: ValueView, keys: ValueView, k: i32)
    requires
        0 <= k,
        entries_of(s.heap, table) matches Ok(entries) && entries.len() <= i32::MAX,
        keys matches ValueView::TableKeys(r) && object_at(s.heap, r) matches Ok(
            ObjectView::TableKeys(list),
        ) && list.len() <= i32::MAX,
    ensures
        left_by_one(s, OpView::Len, table) == Some(
            ValueView::I32(entries_of(s.heap, table)->Ok_0.len() as i32),
        ),
        ({
            let n = object_at(s.heap, keys->TableKeys_0)->Ok_0->TableKeys_0.len();
            &&& left_by_one(s, OpView::Len, keys) == Some(ValueView::I32(n as i32))
            &&& left_by(s, OpView::TableKeysIndex, keys, ValueView::I32(k)) is Some <==> k < n
        }),
{
    lemma_two(s, table, table);
    lemma_two(s, keys, keys);
    lemma_two(s, keys, ValueView::I32(k));
    assert(index_of(ValueView::I32(k)) == Ok::<usize, ErrorView>(k as usize));
}

/// The keys of a table are listed smaller numbers first, numbers before names, and
/// names as in a dictionary: the first character in which they differ decides,
/// and a name stands before those that it begins.
pub proof fn keys_are_listed_as_in_a_dictionary(
    begin: Seq<char>,
    a: char,
    b: char,
    x: Seq<char>,
    y: Seq<char>,
    m: i128,
    n: i128,
)
    ensures
        key_before(TableKeyView::Index(m), TableKeyView::Index(n)) <==> m < n,
        key_before(TableKeyView::Index(m), TableKeyView::Name(x)),
        !key_before(TableKeyView::Name(x), TableKeyView::Index(m)),
        a != b ==> (key_before(
            TableKeyView::Name(begin + seq![a] + x),
            TableKeyView::Name(begin + seq![b] + y),
        ) <==> a < b),
        key_before(TableKeyView::Name(begin), TableKeyView::Name(begin + seq![a] + x)),
        !key_before(TableKeyView::Name(begin + seq![a] + x), TableKeyView::Name(begin)),
    decreases begin.len(),
{
    let p = begin + seq![a] + x;
    let q = begin + seq![b] + y;
    if begin.len() == 0 {
        assert(p[0] == a && q[0] == b);
        assert(p.len() > 0 && q.len() > 0);
    } else {
        keys_are_listed_as_in_a_dictionary(begin.skip(1), a, b, x, y, m, n);
        assert(p.skip(1) =~= begin.skip(1) + seq![a] + x);
        assert(q.skip(1) =~= begin.skip(1) + seq![b] + y);
        assert(p[0] == begin[0] && q[0] == begin[0]);
    }
}

/// A method call remembers the instruction behind it and what the caller worked
/// on; `Return` goes back there.
pub proof fn methods_return_to_their_caller(
    m: VmView,
    slot: usize,
    target: usize,
    back: usize,
    next: usize,
    tidy: bool,
)
    requires
        m.runs.len() > 0,
        m.runs.last().instance < m.instances.len(),
    ensures
        ({
            let r = m.runs.last();
            let i = m.instances[r.instance as int];
            let called = apply(
                m,
                effect(m.heap, m.instances, i, r.receiver, OpView::CallMethod(slot, target)),
                back,
                tidy,
            );
            let r1 = called.runs.last();
            let returned = apply(
                called,
                effect(called.heap, called.instances, i, r1.receiver, OpView::Return),
                next,
                tidy,
            );
            &&& called.runs.len() == m.runs.len()
            &&& called.instances == m.instances
            &&& r1.pc == target
            &&& r1.receiver == Some(slot)
            &&& returned == with_run(m, RunView { pc: back, ..r })
        }),
{
    let r = m.runs.last();
    let i = m.instances[r.instance as int];
    let called = apply(
        m,
        effect(m.heap, m.instances, i, r.receiver, OpView::CallMethod(slot, target)),
        back,
        tidy,
    );
    assert(m.instances.update(r.instance as int, i) =~= m.instances);
    let r1 = called.runs.last();
    assert(called.instances.update(r1.instance as int, i) =~= m.instances);
    assert(r1.calls.drop_last() =~= r.calls);
    let returned = apply(
        called,
        effect(called.heap, called.instances, i, r1.receiver, OpView::Return),
        next,
        tidy,
    );
    assert(returned.runs =~= with_run(m, RunView { pc: back, ..r }).runs);
}

/// A struct that is tracked is destroyed first on a failure; ending the tracking
/// takes back the latest one of its slot and no other.
pub proof fn tracking_is_undone(s: Site, slot: usize, target: usize)
    requires
        slot < s.inst.locals.len(),
        s.inst.locals[slot as int] is Struct,
    ensures
        ({
            let e = done_with(s, Seq::empty(), OpView::TrackDestructor(slot, target));
            &&& e.flow is Next
            &&& e.inst.destructors.len() == s.inst.destructors.len() + 1
            &&& e.inst.destructors.last() == (ActiveDestructor { slot, target })
            &&& took(
                s,
                done_with(
                    Site { inst: e.inst, ..s },
                    Seq::empty(),
                    OpView::UntrackDestructor(slot),
                ),
            )
        }),
{
    lemma_taken(s, Seq::empty());
    let e = done_with(s, Seq::empty(), OpView::TrackDestructor(slot, target));
    lemma_taken(Site { inst: e.inst, ..s }, Seq::empty());
    let n = e.inst.destructors.len() as int;
    assert(latest_destructor(e.inst.destructors, slot, n) == n - 1);
    assert(e.inst.destructors.remove(n - 1) =~= s.inst.destructors);
}

} // verus!
