//! Laws of garbage collection: a program does not notice it.
use vstd::prelude::*;
use vstd::set_lib::*;
use crate::code::EntryView;
use crate::format::{PieceView, field_pieces, printf_pieces, separated, value_pieces};
use crate::heap::{
    ObjectView, allocation_is_fresh, collected, is_root, lemma_tail_prefix, object_at, occupied,
    only_reachable_objects_survive, points_to, reachable, reachable_objects_survive,
    references_are_reachable, refers, roots_are_reachable, swept,
};
use crate::instance::{InstanceView, cut, dropped, underflow};
use crate::ir::OpView;
use crate::machine::{VmView, refs_from, roots, roots_from, tidied};
use crate::numeric::binary_result;
use crate::scalar::packed_array;
use crate::semantics::{
    BytesView, Effect, HeapView, concatenated, effect, entries_of, entry_values, fresh, key_of,
    made, made_string, popped_indices, popped_values, shape_of, sorted_keys, string_in, table_from,
    tensor_bytes, zeros,
};
use crate::text::line_content;
use crate::types::{ErrorView, TypeView};
use crate::value::{FieldView, HeapRef, TableKeyView, ValueView, index_of, ref_of, type_of};

verus! {

/// Whether what a value refers to stays in a collection.
pub open spec fn kept(h: HeapView, rs: Seq<HeapRef>, v: ValueView) -> bool {
    ref_of(v) is Some && occupied(h, ref_of(v).unwrap().0 as int) ==> reachable(
        h,
        rs,
        ref_of(v).unwrap().0 as int,
    )
}

proof fn lemma_same_object(h: HeapView, rs: Seq<HeapRef>, r: HeapRef)
    requires
        occupied(h, r.0 as int) ==> reachable(h, rs, r.0 as int),
    ensures
        object_at(collected(h, rs), r) == object_at(h, r),
{
    let after = collected(h, rs);
    if occupied(h, r.0 as int) {
        reachable_objects_survive(h, rs, r.0 as int);
    } else if r.0 < after.len() && after[r.0 as int] is Some {
        only_reachable_objects_survive(h, rs, r.0 as int);
        reachable_objects_survive(h, rs, r.0 as int);
    }
}

proof fn lemma_field_kept(h: HeapView, rs: Seq<HeapRef>, r: HeapRef, values: Seq<ValueView>, k: int)
    requires
        occupied(h, r.0 as int),
        reachable(h, rs, r.0 as int),
        h[r.0 as int].unwrap() matches ObjectView::Struct { values: held, .. } && held == values,
        0 <= k < values.len(),
    ensures
        kept(h, rs, values[k]),
{
    if ref_of(values[k]) is Some {
        let j = ref_of(values[k]).unwrap().0 as int;
        if occupied(h, j) {
            assert(refers(values[k], j));
            assert(points_to(h[r.0 as int].unwrap(), j));
            references_are_reachable(h, rs, r.0 as int, j);
        }
    }
}

proof fn lemma_same_text(h: HeapView, rs: Seq<HeapRef>, v: ValueView, depth: nat)
    requires
        kept(h, rs, v),
    ensures
        value_pieces(collected(h, rs), v, depth) == value_pieces(h, v, depth),
    decreases depth, 0int,
{
    let after = collected(h, rs);
    if ref_of(v) is Some {
        lemma_same_object(h, rs, ref_of(v).unwrap());
    }
    match v {
        ValueView::Struct(r, _) => match object_at(h, r) {
            Ok(object) => match object {
                ObjectView::Struct { values, layout } => {
                    if depth > 0 {
                        lemma_same_fields(
                            h,
                            rs,
                            r,
                            seq![PieceView::Text(layout.name + "{"@)],
                            values,
                            layout.fields,
                            0,
                            (depth - 1) as nat,
                        );
                    }
                },
                _ => {},
            },
            Err(_) => {},
        },
        _ => {},
    }
}

proof fn lemma_same_fields(
    h: HeapView,
    rs: Seq<HeapRef>,
    r: HeapRef,
    acc: Seq<PieceView>,
    values: Seq<ValueView>,
    fields: Seq<FieldView>,
    i: int,
    depth: nat,
)
    requires
        occupied(h, r.0 as int),
        reachable(h, rs, r.0 as int),
        h[r.0 as int].unwrap() matches ObjectView::Struct { values: held, .. } && held == values,
    ensures
        field_pieces(collected(h, rs), acc, values, fields, i, depth) == field_pieces(
            h,
            acc,
            values,
            fields,
            i,
            depth,
        ),
    decreases depth, fields.len() - i + 1,
{
    if 0 <= i < fields.len() && fields[i].index < values.len() {
        lemma_field_kept(h, rs, r, values, fields[i].index as int);
        lemma_same_text(h, rs, values[fields[i].index as int], depth);
        match value_pieces(h, values[fields[i].index as int], depth) {
            Ok(pieces) => {
                lemma_same_fields(
                    h,
                    rs,
                    r,
                    separated(acc, i).push(
                        PieceView::Text(fields[i].name + ": "@),
                    ) + pieces,
                    values,
                    fields,
                    i + 1,
                    depth,
                );
            },
            Err(_) => {},
        }
    }
}

/// What the program holds on a stack or in a local is never freed.
pub proof fn held_values_are_kept(m: VmView, at: int, v: ValueView)
    requires
        0 <= at < m.instances.len(),
        m.instances[at].stack.contains(v) || m.instances[at].locals.contains(v),
    ensures
        kept(m.heap, roots(m.instances), v),
{
    if ref_of(v) is Some {
        lemma_roots(Seq::empty(), m.instances, 0, at, v);
        let r = ref_of(v).unwrap();
        let found = roots(m.instances);
        let j = choose|j: int| 0 <= j < found.len() && found[j] == r;
        assert(found[j].0 == r.0);
        assert(is_root(found, r.0 as int));
        if occupied(m.heap, r.0 as int) {
            roots_are_reachable(m.heap, found, r.0 as int);
        }
    }
}

/// What the program holds is written the same before and after unreachable
/// objects are freed.
pub proof fn collections_do_not_change_what_is_written(
    m: VmView,
    at: int,
    v: ValueView,
    depth: nat,
)
    requires
        0 <= at < m.instances.len(),
        m.instances[at].stack.contains(v) || m.instances[at].locals.contains(v),
    ensures
        value_pieces(tidied(m).heap, v, depth) == value_pieces(m.heap, v, depth),
{
    held_values_are_kept(m, at, v);
    lemma_same_text(m.heap, roots(m.instances), v, depth);
}

/// Whether a value refers to the same object in two heaps.
pub open spec fn looks_alike(h: HeapView, h1: HeapView, v: ValueView) -> bool {
    ref_of(v) matches Some(r) ==> object_at(h1, r) == object_at(h, r)
}

/// Whether all that an instance holds is the same in two heaps.
pub open spec fn all_alike(h: HeapView, h1: HeapView, i: InstanceView) -> bool {
    &&& forall|k: int| 0 <= k < i.stack.len() ==> looks_alike(h, h1, #[trigger] i.stack[k])
    &&& forall|k: int| 0 <= k < i.locals.len() ==> looks_alike(h, h1, #[trigger] i.locals[k])
}

/// Whether two instructions leave the same behind but for the heap.
pub open spec fn alike(a: Effect, b: Effect) -> bool {
    a.inst == b.inst && a.flow == b.flow
}

proof fn lemma_indices_leave_held(
    h: HeapView,
    h1: HeapView,
    i: InstanceView,
    rank: nat,
    acc: Seq<usize>,
)
    requires
        all_alike(h, h1, i),
    ensures
        all_alike(h, h1, popped_indices(i, rank, acc).0),
    decreases rank,
{
    if rank > 0 && i.stack.len() > 0 {
        assert(all_alike(h, h1, dropped(i)));
        match index_of(i.stack.last()) {
            Ok(n) => {
                lemma_indices_leave_held(h, h1, dropped(i), (rank - 1) as nat, seq![n] + acc);
            },
            Err(_) => {},
        }
    }
}

/// The instructions that can put objects into the heap.
pub open spec fn makes_objects(op: OpView) -> bool {
    op is MakeString || op is MakeArray || op is MakeTable || op is MakeStruct || op is MakeTensor
        || op is TableKeys || op is ConcatString || op is Input
}

/// The instructions that read objects.
pub open spec fn reads_objects(op: OpView) -> bool {
    op is Index || op is TableIndex || op is TableKeysIndex || op is Field || op is TableField
        || op is Len || op is LoadCurrentField
}

/// The instructions that change objects.
pub open spec fn changes_objects(op: OpView) -> bool {
    op is StoreIndex || op is StoreTableIndex || op is StoreField || op is StoreTableField
        || op is StoreCurrentField || op is TableRemove
}

/// The instructions on items of tensors.
pub open spec fn touches_tensors(op: OpView) -> bool {
    op is StoreTensorIndex || op is StoreTensorIndexF32 || op is TensorIndex
        || op is TensorIndexF32
}

/// Objects that look alike are read alike.
#[verifier::spinoff_prover]
proof fn lemma_alike_reads(
    h: HeapView,
    h1: HeapView,
    all: Seq<InstanceView>,
    i: InstanceView,
    receiver: Option<usize>,
    op: OpView,
)
    requires
        all_alike(h, h1, i),
        reads_objects(op),
    ensures
        alike(effect(h, all, i, receiver, op), effect(h1, all, i, receiver, op)),
{
    if i.stack.len() > 0 {
        assert(looks_alike(h, h1, i.stack[i.stack.len() - 1]));
        assert(all_alike(h, h1, dropped(i)));
        if i.stack.len() > 1 {
            assert(looks_alike(h, h1, i.stack[i.stack.len() - 2]));
        }
    }
}

/// They are changed alike.
#[verifier::spinoff_prover]
proof fn lemma_alike_changes(
    h: HeapView,
    h1: HeapView,
    all: Seq<InstanceView>,
    i: InstanceView,
    receiver: Option<usize>,
    op: OpView,
)
    requires
        all_alike(h, h1, i),
        changes_objects(op),
    ensures
        alike(effect(h, all, i, receiver, op), effect(h1, all, i, receiver, op)),
{
    if i.stack.len() > 0 {
        assert(looks_alike(h, h1, i.stack[i.stack.len() - 1]));
        assert(all_alike(h, h1, dropped(i)));
        if i.stack.len() > 1 {
            assert(looks_alike(h, h1, i.stack[i.stack.len() - 2]));
        }
    }
}

/// So are the items of tensors.
#[verifier::spinoff_prover]
proof fn lemma_alike_tensors(
    h: HeapView,
    h1: HeapView,
    all: Seq<InstanceView>,
    i: InstanceView,
    receiver: Option<usize>,
    op: OpView,
)
    requires
        all_alike(h, h1, i),
        touches_tensors(op),
    ensures
        alike(effect(h, all, i, receiver, op), effect(h1, all, i, receiver, op)),
{
    if i.stack.len() > 0 {
        assert(looks_alike(h, h1, i.stack[i.stack.len() - 1]));
        assert(all_alike(h, h1, dropped(i)));
        if i.stack.len() > 1 {
            assert(looks_alike(h, h1, i.stack[i.stack.len() - 2]));
        }
    }
    match op {
        OpView::StoreTensorIndex(_, _, rank) | OpView::StoreTensorIndexF32(_, rank) => {
            if i.stack.len() > 0 {
                lemma_indices_leave_held(h, h1, dropped(i), rank as nat, Seq::empty());
            }
        },
        OpView::TensorIndex(_, rank) | OpView::TensorIndexF32(rank) => {
            lemma_indices_leave_held(h, h1, i, rank as nat, Seq::empty());
        },
        _ => {},
    }
}

/// Operators compare texts.
#[verifier::spinoff_prover]
proof fn lemma_alike_operators(
    h: HeapView,
    h1: HeapView,
    all: Seq<InstanceView>,
    i: InstanceView,
    receiver: Option<usize>,
    op: OpView,
)
    requires
        all_alike(h, h1, i),
        op is Binary,
    ensures
        alike(effect(h, all, i, receiver, op), effect(h1, all, i, receiver, op)),
{
    if i.stack.len() > 0 {
        assert(looks_alike(h, h1, i.stack[i.stack.len() - 1]));
        assert(all_alike(h, h1, dropped(i)));
        if i.stack.len() > 1 {
            assert(looks_alike(h, h1, i.stack[i.stack.len() - 2]));
        }
    }
    match op {
        OpView::Binary(op) => {
            if i.stack.len() > 1 {
                let right = i.stack.last();
                let left = dropped(i).stack.last();
                assert(binary_result(h1, left, right, op) == binary_result(h, left, right, op));
            }
        },
        _ => {},
    }
}

/// The other instructions do not look at objects.
#[verifier::spinoff_prover]
proof fn lemma_alike_others(
    h: HeapView,
    h1: HeapView,
    all: Seq<InstanceView>,
    i: InstanceView,
    receiver: Option<usize>,
    op: OpView,
)
    requires
        all_alike(h, h1, i),
        !makes_objects(op) && !reads_objects(op) && !changes_objects(op),
        !touches_tensors(op) && !(op is Binary) && !(op is StoreFieldIndex),
        !(op is Print) && !(op is Printf),
    ensures
        alike(effect(h, all, i, receiver, op), effect(h1, all, i, receiver, op)),
{
}

/// What an instance holds is the same after a collection.
proof fn lemma_held_alike(m: VmView, at: int)
    requires
        0 <= at < m.instances.len(),
    ensures
        all_alike(m.heap, tidied(m).heap, m.instances[at]),
{
    let h = m.heap;
    let h1 = tidied(m).heap;
    let i = m.instances[at];
    let rs = roots(m.instances);
    assert forall|k: int| 0 <= k < i.stack.len() implies looks_alike(h, h1, #[trigger] i.stack[k]) by {
        assert(i.stack.contains(i.stack[k]));
        held_values_are_kept(m, at, i.stack[k]);
        if ref_of(i.stack[k]) is Some {
            lemma_same_object(h, rs, ref_of(i.stack[k]).unwrap());
        }
    }
    assert forall|k: int| 0 <= k < i.locals.len() implies looks_alike(
        h,
        h1,
        #[trigger] i.locals[k],
    ) by {
        assert(i.locals.contains(i.locals[k]));
        held_values_are_kept(m, at, i.locals[k]);
        if ref_of(i.locals[k]) is Some {
            lemma_same_object(h, rs, ref_of(i.locals[k]).unwrap());
        }
    }
}

/// Whether two instructions leave the same behind but for the place of a new
/// object.
pub open spec fn alike_but_for_a_place(a: Effect, b: Effect) -> bool {
    &&& a.flow == b.flow
    &&& a.inst == b.inst || {
        &&& a.inst.stack.len() > 0
        &&& b.inst.stack.len() > 0
        &&& dropped(a.inst) == dropped(b.inst)
        &&& type_of(a.inst.stack.last()) == type_of(b.inst.stack.last())
        &&& ref_of(a.inst.stack.last()) is Some
        &&& ref_of(b.inst.stack.last()) is Some
        &&& object_at(a.heap, ref_of(a.inst.stack.last()).unwrap()) == object_at(
            b.heap,
            ref_of(b.inst.stack.last()).unwrap(),
        )
    }
}

proof fn lemma_made(
    h: HeapView,
    h1: HeapView,
    i: InstanceView,
    object: ObjectView,
    v: ValueView,
    v1: ValueView,
)
    requires
        h.len() <= usize::MAX,
        h1.len() <= usize::MAX,
        ref_of(v) == Some(fresh(h)),
        ref_of(v1) == Some(fresh(h1)),
        type_of(v) == type_of(v1),
    ensures
        alike_but_for_a_place(made(h, i, object, v), made(h1, i, object, v1)),
{
    allocation_is_fresh(h, object);
    allocation_is_fresh(h1, object);
    assert(i.stack.push(v).drop_last() =~= i.stack);
    assert(i.stack.push(v1).drop_last() =~= i.stack);
}

proof fn lemma_alike_entries(
    h: HeapView,
    h1: HeapView,
    table: Map<TableKeyView, ValueView>,
    entries: Seq<EntryView>,
    k: int,
    values: Seq<ValueView>,
    c: int,
)
    requires
        0 <= c,
        forall|j: int| 0 <= j < values.len() ==> looks_alike(h, h1, #[trigger] values[j]),
    ensures
        table_from(h1, table, entries, k, values, c) == table_from(h, table, entries, k, values, c),
    decreases entries.len() - k,
{
    if 0 <= k < entries.len() {
        if c < values.len() {
            assert(looks_alike(h, h1, values[c]));
            assert(key_of(h1, values[c]) == key_of(h, values[c]));
        }
        let key = match entries[k] {
            EntryView::Index => if c < values.len() {
                key_of(h, values[c])
            } else {
                Err(underflow())
            },
            EntryView::Name(name) => Ok(TableKeyView::Name(name)),
        };
        let at = if entries[k] is Index {
            c + 1
        } else {
            c
        };
        match key {
            Ok(key) => {
                if at < values.len() {
                    lemma_alike_entries(
                        h,
                        h1,
                        table.insert(key, values[at]),
                        entries,
                        k + 1,
                        values,
                        at + 1,
                    );
                }
            },
            Err(_) => {},
        }
    }
}

/// An instruction that puts an object into the heap makes the same object,
/// whether or not unreachable objects were freed before it. Only the place of
/// the object can differ.
#[verifier::spinoff_prover]
pub proof fn collections_change_only_places(
    m: VmView,
    at: int,
    receiver: Option<usize>,
    op: OpView,
)
    requires
        0 <= at < m.instances.len(),
        m.heap.len() <= usize::MAX,
        makes_objects(op),
    ensures
        alike_but_for_a_place(
            effect(m.heap, m.instances, m.instances[at], receiver, op),
            effect(tidied(m).heap, m.instances, m.instances[at], receiver, op),
        ),
{
    let h = m.heap;
    let h1 = tidied(m).heap;
    let i = m.instances[at];
    lemma_held_alike(m, at);
    lemma_collected_len(h, roots(m.instances));
    if i.stack.len() > 0 {
        assert(looks_alike(h, h1, i.stack[i.stack.len() - 1]));
        if i.stack.len() > 1 {
            assert(looks_alike(h, h1, i.stack[i.stack.len() - 2]));
        }
    }
    match op {
        OpView::MakeString(text) => {
            lemma_made_string(h, h1, i, text);
        },
        OpView::ConcatString => {
            if i.stack.len() > 1 {
                match (dropped(i).stack.last(), i.stack.last()) {
                    (ValueView::String(left), ValueView::String(right)) => {
                        match concatenated(h, left, right) {
                            Ok(text) => {
                                lemma_made_string(h, h1, dropped(dropped(i)), text);
                            },
                            Err(_) => {},
                        }
                    },
                    _ => {},
                }
            }
        },
        OpView::Input(t) => {
            if i.input.len() > 0 {
                lemma_made_string(
                    h,
                    h1,
                    InstanceView { input: i.input.drop_first(), ..i },
                    line_content(i.input.first()),
                );
            }
        },
        OpView::MakeArray(len, element) => {
            if i.stack.len() >= len {
                let below = i.stack.len() - len;
                match packed_array(i.stack.skip(below), element) {
                    Ok(bytes) => {
                        lemma_made(
                            h,
                            h1,
                            cut(i, below),
                            ObjectView::Array { bytes, element },
                            ValueView::Array(fresh(h), element),
                            ValueView::Array(fresh(h1), element),
                        );
                    },
                    Err(_) => {},
                }
            }
        },
        OpView::MakeTable(entries, element) => {
            let count = entry_values(entries, 0);
            if i.stack.len() >= count {
                let below = i.stack.len() - count;
                lemma_alike_entries(h, h1, Map::empty(), entries, 0, i.stack.skip(below), 0);
                match table_from(h, Map::empty(), entries, 0, i.stack.skip(below), 0) {
                    Ok(table) => {
                        lemma_made(
                            h,
                            h1,
                            cut(i, below),
                            ObjectView::Table { entries: table, element },
                            ValueView::Table(fresh(h), element),
                            ValueView::Table(fresh(h1), element),
                        );
                    },
                    Err(_) => {},
                }
            }
        },
        OpView::MakeStruct(layout) => {
            if i.stack.len() >= layout.fields.len() {
                let below = i.stack.len() - layout.fields.len();
                lemma_made(
                    h,
                    h1,
                    cut(i, below),
                    ObjectView::Struct { values: i.stack.skip(below), layout },
                    ValueView::Struct(fresh(h), layout),
                    ValueView::Struct(fresh(h1), layout),
                );
            }
        },
        OpView::TableKeys => {
            if i.stack.len() > 0 {
                match entries_of(h, i.stack.last()) {
                    Ok(entries) => {
                        lemma_made(
                            h,
                            h1,
                            dropped(i),
                            ObjectView::TableKeys(sorted_keys(entries)),
                            ValueView::TableKeys(fresh(h)),
                            ValueView::TableKeys(fresh(h1)),
                        );
                    },
                    Err(_) => {},
                }
            }
        },
        OpView::MakeTensor(init, element, rank) => {
            if i.stack.len() > 0 {
                match shape_of(h, i.stack.last()) {
                    Ok(shape) => {
                        match tensor_bytes(init, element, shape) {
                            Ok(BytesView::Zeros(total)) => {
                                let t = TypeView::Tensor(Box::new(element), rank);
                                lemma_made(
                                    h,
                                    h1,
                                    dropped(i),
                                    ObjectView::Tensor { bytes: zeros(total), element, shape },
                                    ValueView::Tensor(fresh(h), t),
                                    ValueView::Tensor(fresh(h1), t),
                                );
                            },
                            _ => {},
                        }
                    },
                    Err(_) => {},
                }
            }
        },
        _ => {},
    }
}

proof fn lemma_collected_len(h: HeapView, rs: Seq<HeapRef>)
    ensures
        collected(h, rs).len() <= h.len(),
{
    lemma_tail_prefix(swept(h, rs));
}

proof fn lemma_made_string(h: HeapView, h1: HeapView, i: InstanceView, text: Seq<char>)
    requires
        h.len() <= usize::MAX,
        h1.len() <= usize::MAX,
    ensures
        alike_but_for_a_place(made_string(h, i, text), made_string(h1, i, text)),
{
    lemma_made(
        h,
        h1,
        i,
        ObjectView::String(text),
        ValueView::String(fresh(h)),
        ValueView::String(fresh(h1)),
    );
}

proof fn lemma_refs(acc: Seq<HeapRef>, values: Seq<ValueView>, k: int)
    ensures
        ({
            let found = refs_from(acc, values, k);
            &&& forall|r: HeapRef| acc.contains(r) ==> #[trigger] found.contains(r)
            &&& forall|j: int|
                0 <= k <= j < values.len() && ref_of(#[trigger] values[j]) is Some
                    ==> found.contains(ref_of(values[j]).unwrap())
        }),
    decreases values.len() - k,
{
    let found = refs_from(acc, values, k);
    if 0 <= k < values.len() {
        match ref_of(values[k]) {
            Some(r) => {
                let more = acc.push(r);
                lemma_refs(more, values, k + 1);
                assert(found == refs_from(more, values, k + 1));
                assert(more[acc.len() as int] == r);
                assert(more.contains(r));
                assert(found.contains(r));
                assert forall|x: HeapRef| acc.contains(x) implies #[trigger] found.contains(x) by {
                    let j = choose|j: int| 0 <= j < acc.len() && acc[j] == x;
                    assert(more[j] == x);
                    assert(more.contains(x));
                }
            },
            None => {
                lemma_refs(acc, values, k + 1);
                assert(found == refs_from(acc, values, k + 1));
            },
        }
        assert forall|j: int|
            k <= j < values.len() && ref_of(#[trigger] values[j]) is Some implies found.contains(
            ref_of(values[j]).unwrap(),
        ) by {}
    }
}

proof fn lemma_roots(
    acc: Seq<HeapRef>,
    instances: Seq<InstanceView>,
    n: int,
    at: int,
    v: ValueView,
)
    requires
        0 <= n,
        0 <= at < instances.len(),
        instances[at].stack.contains(v) || instances[at].locals.contains(v),
        ref_of(v) is Some,
        at < n ==> acc.contains(ref_of(v).unwrap()),
    ensures
        roots_from(acc, instances, n).contains(ref_of(v).unwrap()),
    decreases instances.len() - n,
{
    if n < instances.len() {
        let first = refs_from(acc, instances[n].stack, 0);
        let next = refs_from(first, instances[n].locals, 0);
        lemma_refs(acc, instances[n].stack, 0);
        lemma_refs(first, instances[n].locals, 0);
        let r = ref_of(v).unwrap();
        if at == n {
            if instances[n].stack.contains(v) {
                let k = choose|k: int|
                    0 <= k < instances[n].stack.len() && instances[n].stack[k] == v;
                assert(ref_of(instances[n].stack[k]) is Some);
                assert(first.contains(r));
            } else {
                let k = choose|k: int|
                    0 <= k < instances[n].locals.len() && instances[n].locals[k] == v;
                assert(ref_of(instances[n].locals[k]) is Some);
            }
            assert(next.contains(r));
        } else if at < n {
            assert(first.contains(r));
            assert(next.contains(r));
        }
        lemma_roots(next, instances, n + 1, at, v);
    }
}

/// Whether a struct is written only with more than `depth` levels of structs.
pub open spec fn too_deep(h: HeapView, r: HeapRef, depth: nat) -> bool
    decreases depth, 0int,
{
    match object_at(h, r) {
        Ok(ObjectView::Struct { values, layout }) => depth == 0 || fields_too_deep(
            h,
            values,
            layout.fields,
            0,
            (depth - 1) as nat,
        ),
        _ => false,
    }
}

/// Whether that holds of a struct in the fields from `i` on.
pub open spec fn fields_too_deep(
    h: HeapView,
    values: Seq<ValueView>,
    fields: Seq<FieldView>,
    i: int,
    depth: nat,
) -> bool
    decreases depth, fields.len() - i + 1,
{
    if i < 0 || i >= fields.len() || fields[i].index >= values.len() {
        false
    } else {
        let v = values[fields[i].index as int];
        ||| v is Struct && too_deep(h, v->Struct_0, depth)
        ||| value_pieces(h, v, depth) is Ok && fields_too_deep(h, values, fields, i + 1, depth)
    }
}

pub open spec fn nested_error() -> Result<Seq<PieceView>, ErrorView> {
    Err(ErrorView::Runtime("struct is nested in itself"@))
}

proof fn lemma_too_deep_fails(h: HeapView, v: ValueView, depth: nat)
    requires
        v is Struct && too_deep(h, v->Struct_0, depth),
    ensures
        value_pieces(h, v, depth) == nested_error(),
    decreases depth, 0int,
{
    match object_at(h, v->Struct_0) {
        Ok(ObjectView::Struct { values, layout }) => {
            if depth > 0 {
                lemma_fields_too_deep_fail(
                    h,
                    seq![PieceView::Text(layout.name + "{"@)],
                    values,
                    layout.fields,
                    0,
                    (depth - 1) as nat,
                );
            }
        },
        _ => {},
    }
}

proof fn lemma_fields_too_deep_fail(
    h: HeapView,
    acc: Seq<PieceView>,
    values: Seq<ValueView>,
    fields: Seq<FieldView>,
    i: int,
    depth: nat,
)
    requires
        fields_too_deep(h, values, fields, i, depth),
    ensures
        field_pieces(h, acc, values, fields, i, depth) == nested_error(),
    decreases depth, fields.len() - i + 1,
{
    let v = values[fields[i].index as int];
    if v is Struct && too_deep(h, v->Struct_0, depth) {
        lemma_too_deep_fails(h, v, depth);
    } else {
        let pieces = value_pieces(h, v, depth)->Ok_0;
        lemma_fields_too_deep_fail(
            h,
            separated(acc, i).push(PieceView::Text(fields[i].name + ": "@)) + pieces,
            values,
            fields,
            i + 1,
            depth,
        );
    }
}

proof fn lemma_deep_enough(h: HeapView, v: ValueView, depth: nat)
    requires
        !(v is Struct && too_deep(h, v->Struct_0, depth)),
    ensures
        value_pieces(h, v, depth + 1) == value_pieces(h, v, depth),
        !(v is Struct && too_deep(h, v->Struct_0, depth + 1)),
    decreases depth, 0int,
{
    if v is Struct {
        match object_at(h, v->Struct_0) {
            Ok(ObjectView::Struct { values, layout }) => {
                lemma_fields_deep_enough(
                    h,
                    seq![PieceView::Text(layout.name + "{"@)],
                    values,
                    layout.fields,
                    0,
                    (depth - 1) as nat,
                );
            },
            _ => {},
        }
    }
}

proof fn lemma_fields_deep_enough(
    h: HeapView,
    acc: Seq<PieceView>,
    values: Seq<ValueView>,
    fields: Seq<FieldView>,
    i: int,
    depth: nat,
)
    requires
        !fields_too_deep(h, values, fields, i, depth),
    ensures
        field_pieces(h, acc, values, fields, i, depth + 1) == field_pieces(
            h,
            acc,
            values,
            fields,
            i,
            depth,
        ),
        !fields_too_deep(h, values, fields, i, depth + 1),
    decreases depth, fields.len() - i + 1,
{
    if 0 <= i < fields.len() && fields[i].index < values.len() {
        let v = values[fields[i].index as int];
        lemma_deep_enough(h, v, depth);
        match value_pieces(h, v, depth) {
            Ok(pieces) => {
                lemma_fields_deep_enough(
                    h,
                    separated(acc, i).push(PieceView::Text(fields[i].name + ": "@)) + pieces,
                    values,
                    fields,
                    i + 1,
                    depth,
                );
            },
            Err(_) => {},
        }
    }
}

/// Deeper than deep enough is deep enough.
proof fn lemma_deeper(h: HeapView, v: ValueView, depth: nat, deeper: nat)
    requires
        !(v is Struct && too_deep(h, v->Struct_0, depth)),
        depth <= deeper,
    ensures
        value_pieces(h, v, deeper) == value_pieces(h, v, depth),
        !(v is Struct && too_deep(h, v->Struct_0, deeper)),
    decreases deeper - depth,
{
    if depth < deeper {
        lemma_deep_enough(h, v, depth);
        lemma_deeper(h, v, depth + 1, deeper);
    }
}

/// How many levels of structs a struct is written with.
pub open spec fn levels(h: HeapView, r: HeapRef, n: nat) -> bool {
    n > 0 && too_deep(h, r, (n - 1) as nat) && !too_deep(h, r, n)
}

/// A field that is written with as many levels as the fields are together.
proof fn lemma_deepest_field(
    h: HeapView,
    values: Seq<ValueView>,
    fields: Seq<FieldView>,
    i: int,
    depth: nat,
) -> (k: int)
    requires
        0 <= i,
        fields_too_deep(h, values, fields, i, depth),
        !fields_too_deep(h, values, fields, i, depth + 1),
    ensures
        0 <= k < values.len(),
        values[k] is Struct,
        levels(h, values[k]->Struct_0, depth + 1),
    decreases fields.len() - i,
{
    let v = values[fields[i].index as int];
    if v is Struct && too_deep(h, v->Struct_0, depth) {
        fields[i].index as int
    } else {
        lemma_deep_enough(h, v, depth);
        lemma_deepest_field(h, values, fields, i + 1, depth)
    }
}

/// Structs within each other, each with one level less.
proof fn lemma_levels_chain(h: HeapView, rs: Seq<HeapRef>, r: HeapRef, n: nat) -> (s: Seq<int>)
    requires
        levels(h, r, n),
        reachable(h, rs, r.0 as int),
    ensures
        s.len() == n,
        forall|k: int|
            0 <= k < n ==> reachable(h, rs, #[trigger] s[k]) && 0 <= s[k] <= usize::MAX && levels(
                h,
                HeapRef(s[k] as usize),
                (n - k) as nat,
            ),
    decreases n,
{
    let here = seq![r.0 as int];
    if n == 1 {
        here
    } else {
        match object_at(h, r) {
            Ok(ObjectView::Struct { values, layout }) => {
                let k = lemma_deepest_field(h, values, layout.fields, 0, (n - 2) as nat);
                lemma_field_kept(h, rs, r, values, k);
                let inner = values[k]->Struct_0;
                assert(object_at(h, inner) is Ok);
                let s = lemma_levels_chain(h, rs, inner, (n - 1) as nat);
                let all = here + s;
                assert forall|j: int| 0 <= j < n implies reachable(h, rs, #[trigger] all[j]) && 0
                    <= all[j] <= usize::MAX && levels(
                    h,
                    HeapRef(all[j] as usize),
                    (n - j) as nat,
                ) by {
                    if j > 0 {
                        assert(all[j] == s[j - 1]);
                    }
                }
                all
            },
            _ => here,
        }
    }
}

proof fn lemma_levels_differ(h: HeapView, r: HeapRef, a: nat, b: nat)
    requires
        levels(h, r, a),
        levels(h, r, b),
    ensures
        a == b,
{
    let v = ValueView::Struct(r, arbitrary());
    if a < b {
        lemma_deeper(h, v, a, (b - 1) as nat);
    } else if b < a {
        lemma_deeper(h, v, b, (a - 1) as nat);
    }
}

/// A struct that has a finite text is written with no more levels than there
/// are slots after a collection.
proof fn lemma_levels_fit(h: HeapView, rs: Seq<HeapRef>, r: HeapRef, n: nat)
    requires
        levels(h, r, n),
        reachable(h, rs, r.0 as int),
    ensures
        n <= collected(h, rs).len(),
{
    let s = lemma_levels_chain(h, rs, r, n);
    let m = collected(h, rs).len() as int;
    assert forall|a: int, b: int| 0 <= a < n && 0 <= b < n && a != b implies s[a] != s[b] by {
        if s[a] == s[b] {
            lemma_levels_differ(h, HeapRef(s[a] as usize), (n - a) as nat, (n - b) as nat);
        }
    }
    assert(s.no_duplicates());
    assert forall|x: int| s.to_set().contains(x) implies set_int_range(0, m).contains(x) by {
        let k = choose|k: int| 0 <= k < s.len() && s[k] == x;
        reachable_objects_survive(h, rs, s[k]);
    }
    s.unique_seq_to_set();
    lemma_int_range(0, m);
    lemma_len_subset(s.to_set(), set_int_range(0, m));
}

/// The levels of a struct that is too deep at one depth and not at another.
proof fn lemma_levels_exist(h: HeapView, r: HeapRef, low: nat, high: nat) -> (n: nat)
    requires
        low <= high,
        too_deep(h, r, low),
        !too_deep(h, r, high),
    ensures
        low < n <= high,
        levels(h, r, n),
    decreases high - low,
{
    if too_deep(h, r, (high - 1) as nat) {
        high
    } else {
        lemma_levels_exist(h, r, low, (high - 1) as nat)
    }
}

/// What the program holds is written the same whether or not unreachable
/// objects were freed before: the depth that is allowed for is enough in both.
pub proof fn collections_do_not_change_texts(m: VmView, at: int, v: ValueView)
    requires
        0 <= at < m.instances.len(),
        m.instances[at].stack.contains(v) || m.instances[at].locals.contains(v),
    ensures
        value_pieces(tidied(m).heap, v, tidied(m).heap.len()) == value_pieces(
            m.heap,
            v,
            m.heap.len(),
        ),
{
    let h = m.heap;
    let rs = roots(m.instances);
    let n = collected(h, rs).len();
    collections_do_not_change_what_is_written(m, at, v, n);
    lemma_collected_len(h, rs);
    held_values_are_kept(m, at, v);
    if v is Struct && too_deep(h, v->Struct_0, n) {
        lemma_too_deep_fails(h, v, n);
        assert(object_at(h, v->Struct_0) is Ok);
        if too_deep(h, v->Struct_0, h.len()) {
            lemma_too_deep_fails(h, v, h.len());
        } else {
            let k = lemma_levels_exist(h, v->Struct_0, n, h.len());
            lemma_levels_fit(h, rs, v->Struct_0, k);
        }
    } else {
        lemma_deeper(h, v, n, h.len());
    }
}

/// What is popped was on the stack.
proof fn lemma_popped_were_held(
    i: InstanceView,
    count: nat,
    acc: Seq<ValueView>,
    held: Seq<ValueView>,
)
    requires
        forall|k: int| 0 <= k < i.stack.len() ==> held.contains(#[trigger] i.stack[k]),
        forall|k: int| 0 <= k < acc.len() ==> held.contains(#[trigger] acc[k]),
    ensures
        match popped_values(i, count, acc).1 {
            Ok(args) => forall|k: int| 0 <= k < args.len() ==> held.contains(#[trigger] args[k]),
            Err(_) => true,
        },
    decreases count,
{
    if count > 0 && i.stack.len() > 0 {
        let more = seq![i.stack.last()] + acc;
        assert(held.contains(i.stack[i.stack.len() - 1]));
        assert forall|k: int| 0 <= k < more.len() implies held.contains(#[trigger] more[k]) by {
            if k > 0 {
                assert(more[k] == acc[k - 1]);
            }
        }
        lemma_popped_were_held(dropped(i), (count - 1) as nat, more, held);
    }
}

proof fn lemma_same_printf(
    m: VmView,
    at: int,
    acc: Seq<PieceView>,
    format: Seq<char>,
    i: int,
    args: Seq<ValueView>,
    k: int,
)
    requires
        0 <= at < m.instances.len(),
        0 <= k,
        forall|j: int|
            0 <= j < args.len() ==> m.instances[at].stack.contains(#[trigger] args[j]),
    ensures
        printf_pieces(tidied(m).heap, acc, format, i, args, k) == printf_pieces(
            m.heap,
            acc,
            format,
            i,
            args,
            k,
        ),
    decreases format.len() - i,
{
    if 0 <= i < format.len() {
        let doubled = i + 1 < format.len() && format[i + 1] == format[i];
        if format[i] == '{' {
            if i + 1 < format.len() && format[i + 1] == '}' {
                if k < args.len() {
                    collections_do_not_change_texts(m, at, args[k]);
                    match value_pieces(m.heap, args[k], m.heap.len()) {
                        Ok(pieces) => {
                            lemma_same_printf(m, at, acc + pieces, format, i + 2, args, k + 1);
                        },
                        Err(_) => {},
                    }
                }
            } else if doubled {
                let more = acc.push(PieceView::Text("{"@));
                lemma_same_printf(m, at, more, format, i + 2, args, k);
            }
        } else if format[i] == '}' {
            if doubled {
                let more = acc.push(PieceView::Text("}"@));
                lemma_same_printf(m, at, more, format, i + 2, args, k);
            }
        } else {
            let more = acc.push(PieceView::Text(seq![format[i]]));
            lemma_same_printf(m, at, more, format, i + 1, args, k);
        }
    }
}

/// A program goes on after a collection as it would have without: an instruction
/// that puts no object into the heap does the same, whether or not unreachable
/// objects were freed before it.
pub proof fn collections_do_not_change_instructions(
    m: VmView,
    at: int,
    receiver: Option<usize>,
    op: OpView,
)
    requires
        0 <= at < m.instances.len(),
        !makes_objects(op),
    ensures
        alike(
            effect(m.heap, m.instances, m.instances[at], receiver, op),
            effect(tidied(m).heap, m.instances, m.instances[at], receiver, op),
        ),
{
    let h = m.heap;
    let h1 = tidied(m).heap;
    let i = m.instances[at];
    let rs = roots(m.instances);
    lemma_held_alike(m, at);
    match op {
        OpView::StoreFieldIndex(slot, field, element) => {
            if slot < i.locals.len() && i.locals[slot as int] is Struct {
                let r = i.locals[slot as int]->Struct_0;
                assert(looks_alike(h, h1, i.locals[slot as int]));
                if occupied(h, r.0 as int) {
                    held_values_are_kept(m, at, i.locals[slot as int]);
                    match h[r.0 as int].unwrap() {
                        ObjectView::Struct { values, .. } => {
                            if field.index < values.len() && values[field.index as int] is Array {
                                lemma_field_kept(h, rs, r, values, field.index as int);
                                lemma_same_object(h, rs, values[field.index as int]->Array_0);
                            }
                        },
                        _ => {},
                    }
                }
            }
        },
        OpView::Print => {
            if i.stack.len() > 0 {
                assert(i.stack.contains(i.stack.last()));
                collections_do_not_change_texts(m, at, i.stack.last());
            }
        },
        OpView::Printf(count) => {
            if i.stack.len() > 0 {
                assert(looks_alike(h, h1, i.stack[i.stack.len() - 1]));
                let none = Seq::<ValueView>::empty();
                lemma_popped_were_held(dropped(i), count as nat, none, i.stack);
                match (i.stack.last(), popped_values(dropped(i), count as nat, none).1) {
                    (ValueView::String(r), Ok(args)) => {
                        match string_in(h, r) {
                            Ok(text) => {
                                lemma_same_printf(m, at, Seq::empty(), text, 0, args, 0);
                            },
                            Err(_) => {},
                        }
                    },
                    _ => {},
                }
            }
        },
        _ => {
            if reads_objects(op) {
                lemma_alike_reads(h, h1, m.instances, i, receiver, op);
            } else if changes_objects(op) {
                lemma_alike_changes(h, h1, m.instances, i, receiver, op);
            } else if touches_tensors(op) {
                lemma_alike_tensors(h, h1, m.instances, i, receiver, op);
            } else if op is Binary {
                lemma_alike_operators(h, h1, m.instances, i, receiver, op);
            } else {
                lemma_alike_others(h, h1, m.instances, i, receiver, op);
            }
        },
    }
}

} // verus!
