//! The instructions carried out.
use vstd::prelude::*;
use std::rc::Rc;
use crate::code::{FlatBytecode, ModuleArtifact, ModuleExport, TableEntry, group_code_views};
use crate::compiler::export_named;
use crate::format::{Piece, assemble, floats_of, format_printf, format_value};
use crate::heap::{Heap, HeapObject, grown};
use crate::instance::{
    ActiveDestructor, Answer, CandleExtension, ExternalFunction, Instance, InstanceView, Pending,
    Request, cut, dropped, registered, underflow,
};
use crate::ir::DecodedOp;
use crate::keys::keys_in_order;
use crate::numeric::{
    FloatRequest, Outcome, binary_result, builtin1_result, builtin2_result, cast_numeric,
    cast_result, evaluate_binary, evaluate_builtin1, evaluate_builtin2, evaluate_unary,
    unary_result,
};
use crate::ops::{BinOp, BinaryOp, BuiltinFn, TensorInit, UnOp};
use crate::scalar::{decode_scalar, pack_values, write_scalar};
use crate::semantics::{
    BytesView, Effect, FlowView, HeapView, add_op, answered, arguments_fit, array_ref, broken,
    call_external_op, call_module_op, cell_in, concat_op, count_from, effect, entries_of, entry_in,
    entry_values, failed, field_at, field_op, host_result_op, index_op, input_op, is_scalar_value,
    item_in, item_op, jump_if_false_op, jump_keep_op, key_in, key_of, latest_destructor, len_op,
    length_of, load_current_field_op, local, made_string, made_tensor, make_array_op,
    make_struct_op, make_table_op, make_tensor_op, module_field_op, module_value, next, next_random,
    offset_from, offset_of, pair_op, popped_indices, popped_values, print_op, printf_op,
    push_outcome, put_out, putc_op, random_after, random_draws, read_op, receiver_ref,
    receiver_value, require_op, returned, shape_from, shape_of, signature, single_fault, single_op,
    store_current_field_op, store_field_index_op, store_field_op, store_index_op, store_item_op,
    store_op, store_table_field_op, store_table_index_op, stored, string_in, struct_ref,
    table_field_op, table_from, table_index_op, table_keys_index_op, table_keys_op, table_ref,
    table_remove_op, tensor_bytes, tensor_ref, track_op, untrack_op, vector_field, with_cell,
    with_entry, with_field, with_item, with_single, without_entry, zeros,
};
use crate::text::{
    cat2, cat3, cat4, cat5, cat6, chars_of, decimal_text, line_text, parse_integer, text_of,
    trim_bounds, usize_text,
};
use crate::types::{
    Error, ErrorView, Type, TypeView, compatible, is_float, is_integer, is_numeric, runtime_error,
    scalar_size, types_compatible,
};
use crate::value::{
    HeapRef, StructField, StructLayout, TableKey, TableKeyView, Value, ValueView, int_value,
    integer_to_usize, table_key_display, type_of,
};
use crate::views::{Dict, group_views, same, views};

verus! {

broadcast use {group_views, group_code_views};

/// Where a program goes on after an instruction that did not fail.
#[derive(Debug)]
pub enum Flow {
    Next,
    Settle,
    Goto(usize),
    Call { receiver: usize, target: usize },
    Return,
    Ask(Request, Pending),
    Load(Rc<ModuleArtifact>),
    Enter { instance: usize, code: Rc<FlatBytecode>, entry: usize },
}

impl View for Flow {
    type V = FlowView;

    open spec fn view(&self) -> FlowView {
        match *self {
            Flow::Next => FlowView::Next,
            Flow::Settle => FlowView::Settle,
            Flow::Goto(target) => FlowView::Goto(target),
            Flow::Call { receiver, target } => FlowView::Call { receiver, target },
            Flow::Return => FlowView::Return,
            Flow::Ask(request, pending) => FlowView::Ask(request@, pending@),
            Flow::Load(artifact) => FlowView::Load((*artifact)@),
            Flow::Enter { instance, code, entry } => FlowView::Enter {
                instance,
                code: (*code)@,
                entry,
            },
        }
    }
}

/// Whether an instruction had an effect.
pub open spec fn done(r: Result<Flow, Error>, h: HeapView, i: InstanceView, e: Effect) -> bool {
    match r {
        Ok(flow) => same(e, Effect { heap: h, inst: i, flow: flow@ }),
        Err(x) => same(e, Effect { heap: h, inst: i, flow: FlowView::Fail(x@) }),
    }
}

/// Whether an execution gave a result.
pub open spec fn gave<T: View>(r: Result<T, Error>, e: Result<T::V, ErrorView>) -> bool {
    match r {
        Ok(v) => same(e, Ok::<T::V, ErrorView>(v@)),
        Err(x) => same(e, Err::<T::V, ErrorView>(x@)),
    }
}

/// Whether an execution changed the heap as it should.
pub open spec fn changed(
    r: Result<(), Error>,
    before: HeapView,
    after: HeapView,
    e: Result<HeapView, ErrorView>,
) -> bool {
    match r {
        Ok(_) => same(e, Ok::<HeapView, ErrorView>(after)),
        Err(x) => same(e, Err::<HeapView, ErrorView>(x@)) && same(before, after),
    }
}

proof fn lemma_unchanged(h: HeapView, r: HeapRef)
    ensures
        r.0 < h.len() ==> h.update(r.0 as int, h[r.0 as int]) == h,
{
    if r.0 < h.len() {
        assert(h.update(r.0 as int, h[r.0 as int]) =~= h);
    }
}

fn local_value<'a>(inst: &'a Instance, slot: usize, message: &str) -> (r: Result<&'a Value, Error>)
    ensures
        match r {
            Ok(v) => same(local(inst@, slot, message@), Ok::<ValueView, ErrorView>(v@)),
            Err(e) => same(local(inst@, slot, message@), Err::<ValueView, ErrorView>(e@)),
        },
{
    assert(inst@.locals.len() == inst.locals@.len());
    if slot < inst.locals.len() {
        assert(inst@.locals[slot as int] == inst.locals@[slot as int]@);
        Ok(&inst.locals[slot])
    } else {
        Err(runtime_error(message))
    }
}

fn receiver_local<'a>(
    inst: &'a Instance,
    receiver: Option<usize>,
    outside: &str,
) -> (r: Result<&'a Value, Error>)
    ensures
        match r {
            Ok(v) => same(
                receiver_value(inst@, receiver, outside@),
                Ok::<ValueView, ErrorView>(v@),
            ),
            Err(e) => same(
                receiver_value(inst@, receiver, outside@),
                Err::<ValueView, ErrorView>(e@),
            ),
        },
{
    match receiver {
        None => Err(runtime_error(outside)),
        Some(slot) => local_value(inst, slot, "invalid method receiver"),
    }
}

/// Whether a reference was found as it should be.
pub open spec fn found_ref(r: Result<HeapRef, Error>, e: Result<HeapRef, ErrorView>) -> bool {
    match r {
        Ok(v) => same(e, Ok::<HeapRef, ErrorView>(v)),
        Err(x) => same(e, Err::<HeapRef, ErrorView>(x@)),
    }
}

fn receiver_struct(
    inst: &Instance,
    receiver: Option<usize>,
    outside: &str,
) -> (r: Result<HeapRef, Error>)
    ensures
        found_ref(r, receiver_ref(inst@, receiver, outside@)),
{
    match receiver_local(inst, receiver, outside)? {
        Value::Struct(reference, _) => Ok(*reference),
        _ => Err(runtime_error("VM method receiver invariant broken")),
    }
}

fn local_array(inst: &Instance, slot: usize) -> (r: Result<HeapRef, Error>)
    ensures
        found_ref(r, array_ref(inst@, slot)),
{
    match local_value(inst, slot, "invalid local slot")? {
        Value::Array(reference, _) => Ok(*reference),
        _ => Err(runtime_error("VM array slot invariant broken")),
    }
}

fn local_table(inst: &Instance, slot: usize) -> (r: Result<HeapRef, Error>)
    ensures
        found_ref(r, table_ref(inst@, slot)),
{
    match local_value(inst, slot, "invalid local slot")? {
        Value::Table(reference, _) => Ok(*reference),
        _ => Err(runtime_error("VM table slot invariant broken")),
    }
}

fn local_tensor(inst: &Instance, slot: usize) -> (r: Result<HeapRef, Error>)
    ensures
        found_ref(r, tensor_ref(inst@, slot)),
{
    match local_value(inst, slot, "invalid local slot")? {
        Value::Tensor(reference, _) => Ok(*reference),
        _ => Err(runtime_error("VM tensor slot invariant broken")),
    }
}

fn local_struct(inst: &Instance, slot: usize) -> (r: Result<HeapRef, Error>)
    ensures
        found_ref(r, struct_ref(inst@, slot)),
{
    match local_value(inst, slot, "invalid local slot")? {
        Value::Struct(reference, _) => Ok(*reference),
        _ => Err(runtime_error("VM struct slot invariant broken")),
    }
}

fn get_field(heap: &Heap, reference: HeapRef, index: usize) -> (r: Result<Value, Error>)
    ensures
        gave(r, field_at(heap@, reference, index)),
{
    match heap.get(reference)? {
        HeapObject::Struct { values, .. } => {
            assert(views(values@).len() == values@.len());
            if index < values.len() {
                assert(views(values@)[index as int] == values@[index as int]@);
                Ok(values[index].clone())
            } else {
                Err(runtime_error("invalid struct field index"))
            }
        },
        _ => Err(runtime_error("struct heap invariant broken")),
    }
}

fn set_field(
    heap: &mut Heap,
    reference: HeapRef,
    index: usize,
    value: Value,
) -> (r: Result<(), Error>)
    requires
        old(heap).wf(),
    ensures
        final(heap).wf(),
        grown(*old(heap), *final(heap)),
        changed(r, old(heap)@, final(heap)@, with_field(old(heap)@, reference, index, value@)),
{
    proof {
        lemma_unchanged(heap@, reference);
    }
    match heap.get_mut(reference)? {
        HeapObject::Struct { values, .. } => {
            assert(views(values@).len() == values@.len());
            if index < values.len() {
                values[index] = value;
                Ok(())
            } else {
                Err(runtime_error("invalid struct field index"))
            }
        },
        _ => Err(runtime_error("struct heap invariant broken")),
    }
}

fn set_cell(
    heap: &mut Heap,
    reference: HeapRef,
    index: usize,
    value: &Value,
    element: &Type,
) -> (r: Result<(), Error>)
    requires
        old(heap).wf(),
    ensures
        final(heap).wf(),
        grown(*old(heap), *final(heap)),
        changed(
            r,
            old(heap)@,
            final(heap)@,
            with_cell(old(heap)@, reference, index, value@, element@),
        ),
{
    proof {
        lemma_unchanged(heap@, reference);
    }
    match heap.get_mut(reference)? {
        HeapObject::Array { bytes, .. } => write_scalar(bytes, index, value, element),
        _ => Err(runtime_error("array heap invariant broken")),
    }
}

fn set_entry(
    heap: &mut Heap,
    reference: HeapRef,
    key: TableKey,
    value: Value,
) -> (r: Result<(), Error>)
    requires
        old(heap).wf(),
    ensures
        final(heap).wf(),
        grown(*old(heap), *final(heap)),
        changed(r, old(heap)@, final(heap)@, with_entry(old(heap)@, reference, key@, value@)),
{
    proof {
        lemma_unchanged(heap@, reference);
    }
    match heap.get_mut(reference)? {
        HeapObject::Table { entries, .. } => {
            let _known: bool = entries.insert(key, value);
            Ok(())
        },
        _ => Err(runtime_error("table heap invariant broken")),
    }
}

/// A value as a table key.
pub fn table_key_from_value(heap: &Heap, value: &Value) -> (r: Result<TableKey, Error>)
    ensures
        gave(r, key_of(heap@, value@)),
{
    match value {
        Value::TableKey(key) => Ok((**key).clone()),
        Value::String(reference) => match heap.get(*reference)? {
            HeapObject::String(name) => Ok(TableKey::Name(Rc::new(name.clone()))),
            _ => Err(runtime_error("string heap invariant broken")),
        },
        _ => match value.as_integer() {
            Some(index) => Ok(TableKey::Index(index)),
            None => Err(runtime_error("table key must be an integer or string")),
        },
    }
}

/// Pops the indices of a tensor item.
fn pop_tensor_indices(inst: &mut Instance, rank: usize) -> (r: Result<Vec<usize>, Error>)
    ensures
        match r {
            Ok(indices) => same(
                popped_indices(old(inst)@, rank as nat, Seq::empty()),
                (final(inst)@, Ok::<Seq<usize>, ErrorView>(indices@)),
            ),
            Err(e) => same(
                popped_indices(old(inst)@, rank as nat, Seq::empty()),
                (final(inst)@, Err::<Seq<usize>, ErrorView>(e@)),
            ),
        },
{
    let ghost start = *inst;
    let mut indices: Vec<usize> = Vec::new();
    let mut left: usize = rank;
    while left > 0
        invariant
            start == *old(inst),
            left <= rank,
            same(
                popped_indices(start@, rank as nat, Seq::empty()),
                popped_indices(inst@, left as nat, indices@),
            ),
        decreases left,
    {
        let value = inst.pop()?;
        let index: usize = integer_to_usize(&value)?;
        let ghost before = indices@;
        indices.insert(0, index);
        assert(indices@ =~= seq![index] + before);
        left -= 1;
    }
    Ok(indices)
}

/// Pops values, the last one first.
fn pop_values(inst: &mut Instance, count: usize) -> (r: Result<Vec<Value>, Error>)
    ensures
        match r {
            Ok(values) => same(
                popped_values(old(inst)@, count as nat, Seq::empty()),
                (final(inst)@, Ok::<Seq<ValueView>, ErrorView>(views(values@))),
            ),
            Err(e) => same(
                popped_values(old(inst)@, count as nat, Seq::empty()),
                (final(inst)@, Err::<Seq<ValueView>, ErrorView>(e@)),
            ),
        },
{
    let ghost start = *inst;
    let mut values: Vec<Value> = Vec::new();
    let mut left: usize = count;
    while left > 0
        invariant
            start == *old(inst),
            left <= count,
            same(
                popped_values(start@, count as nat, Seq::empty()),
                popped_values(inst@, left as nat, views(values@)),
            ),
        decreases left,
    {
        let value = inst.pop()?;
        let ghost before = values@;
        values.insert(0, value);
        assert(values@ =~= seq![value] + before);
        assert(views(seq![value]) =~= seq![value@]);
        left -= 1;
    }
    Ok(values)
}

/// Whether a number was found as it should be.
pub open spec fn found_number(r: Result<usize, Error>, e: Result<usize, ErrorView>) -> bool {
    match r {
        Ok(n) => same(e, Ok::<usize, ErrorView>(n)),
        Err(x) => same(e, Err::<usize, ErrorView>(x@)),
    }
}

/// The row-major position of an item of a tensor.
pub fn tensor_offset(shape: &Vec<usize>, indices: &Vec<usize>) -> (r: Result<usize, Error>)
    ensures
        found_number(r, offset_of(shape@, indices@)),
{
    if shape.len() != indices.len() {
        let rank = usize_text(shape.len());
        return Err(
            Error::Runtime(
                cat5("tensor rank ", rank.as_str(), " requires ", rank.as_str(), " index(es)"),
            ),
        );
    }
    let mut offset: usize = 0;
    let mut k: usize = 0;
    while k < shape.len()
        invariant
            k <= shape@.len(),
            shape@.len() == indices@.len(),
            same(
                offset_of(shape@, indices@),
                offset_from(offset as int, shape@, indices@, k as int),
            ),
        decreases shape@.len() - k,
    {
        let dimension: usize = shape[k];
        let index: usize = indices[k];
        if index >= dimension {
            return Err(
                Error::Runtime(
                    cat4(
                        "tensor index ",
                        usize_text(index).as_str(),
                        " is out of bounds for dimension ",
                        usize_text(dimension).as_str(),
                    ),
                ),
            );
        }
        match offset.checked_mul(dimension) {
            None => {
                return Err(runtime_error("tensor index is too large"));
            },
            Some(scaled) => match scaled.checked_add(index) {
                None => {
                    return Err(runtime_error("tensor index is too large"));
                },
                Some(next) => {
                    offset = next;
                },
            },
        }
        k += 1;
    }
    Ok(offset)
}

/// The number of items of a shape.
pub fn item_count(shape: &Vec<usize>) -> (r: Result<usize, Error>)
    ensures
        found_number(r, count_from(1, shape@, 0)),
{
    let mut total: usize = 1;
    let mut k: usize = 0;
    while k < shape.len()
        invariant
            k <= shape@.len(),
            same(count_from(1, shape@, 0), count_from(total as int, shape@, k as int)),
        decreases shape@.len() - k,
    {
        match total.checked_mul(shape[k]) {
            None => {
                return Err(runtime_error("tensor is too large"));
            },
            Some(next) => {
                total = next;
            },
        }
        k += 1;
    }
    Ok(total)
}

fn set_item(
    heap: &mut Heap,
    reference: HeapRef,
    indices: &Vec<usize>,
    value: &Value,
    element: &Type,
    rank: usize,
) -> (r: Result<(), Error>)
    requires
        old(heap).wf(),
    ensures
        final(heap).wf(),
        grown(*old(heap), *final(heap)),
        changed(
            r,
            old(heap)@,
            final(heap)@,
            with_item(old(heap)@, reference, indices@, value@, element@, rank),
        ),
{
    proof {
        lemma_unchanged(heap@, reference);
    }
    match heap.get_mut(reference)? {
        HeapObject::Tensor { bytes, shape, .. } => {
            if shape.len() != rank {
                return Err(runtime_error("tensor heap invariant broken"));
            }
            let offset: usize = tensor_offset(shape, indices)?;
            write_scalar(bytes, offset, value, element)
        },
        _ => Err(runtime_error("tensor heap invariant broken")),
    }
}

/// Checks that a single-precision item lies in a buffer.
fn check_single(len: usize, offset: usize) -> (r: Result<(), Error>)
    ensures
        match r {
            Ok(_) => single_fault(len as int, offset) is None,
            Err(e) => same(single_fault(len as int, offset), Some(e@)),
        },
{
    match offset.checked_mul(4) {
        None => Err(runtime_error("tensor offset is too large")),
        Some(start) => if len < 4 || start > len - 4 {
            Err(runtime_error("tensor offset out of bounds"))
        } else {
            Ok(())
        },
    }
}

fn set_single(
    heap: &mut Heap,
    reference: HeapRef,
    indices: &Vec<usize>,
    value: &Value,
) -> (r: Result<(), Error>)
    requires
        old(heap).wf(),
    ensures
        final(heap).wf(),
        grown(*old(heap), *final(heap)),
        changed(
            r,
            old(heap)@,
            final(heap)@,
            with_single(old(heap)@, reference, indices@, value@),
        ),
{
    proof {
        lemma_unchanged(heap@, reference);
    }
    match heap.get_mut(reference)? {
        HeapObject::Tensor { bytes, shape, .. } => {
            let offset: usize = tensor_offset(shape, indices)?;
            check_single(bytes.len(), offset)?;
            assert(Type::F32@ == TypeView::F32);
            let _ignored = write_scalar(bytes, offset, value, &Type::F32);
            Ok(())
        },
        _ => Err(runtime_error("tensor heap invariant broken")),
    }
}

fn store(heap: &mut Heap, inst: &mut Instance, slot: usize) -> (r: Result<Flow, Error>)
    ensures
        *final(heap) == *old(heap),
        done(r, final(heap)@, final(inst)@, store_op(old(heap)@, old(inst)@, slot)),
{
    let value = inst.pop()?;
    if slot == usize::MAX {
        return Err(runtime_error("invalid local slot"));
    }
    let ghost before = inst@.locals;
    assert(before.len() == inst.locals@.len());
    if slot < inst.locals.len() {
        inst.locals[slot] = value;
    } else {
        while inst.locals.len() < slot
            invariant
                inst.locals@.len() <= slot,
                inst@.locals.len() >= before.len(),
                forall|k: int|
                    0 <= k < inst@.locals.len() ==> #[trigger] inst@.locals[k] == if k
                        < before.len() {
                        before[k]
                    } else {
                        ValueView::Bool(false)
                    },
                same(inst@, InstanceView { locals: inst@.locals, ..dropped(old(inst)@) }),
            decreases slot - inst.locals@.len(),
        {
            inst.locals.push(Value::Bool(false));
        }
        inst.locals.push(value);
    }
    assert(inst@.locals =~= stored(before, slot, value@));
    Ok(Flow::Next)
}

fn store_index(
    heap: &mut Heap,
    inst: &mut Instance,
    slot: usize,
    element: &Type,
) -> (r: Result<Flow, Error>)
    requires
        old(heap).wf(),
    ensures
        final(heap).wf(),
        grown(*old(heap), *final(heap)),
        done(
            r,
            final(heap)@,
            final(inst)@,
            store_index_op(old(heap)@, old(inst)@, slot, element@),
        ),
{
    let value = inst.pop()?;
    let index_value = inst.pop()?;
    let index: usize = integer_to_usize(&index_value)?;
    let reference = local_array(inst, slot)?;
    set_cell(heap, reference, index, &value, element)?;
    Ok(Flow::Next)
}

fn store_table_index(heap: &mut Heap, inst: &mut Instance, slot: usize) -> (r: Result<Flow, Error>)
    requires
        old(heap).wf(),
    ensures
        final(heap).wf(),
        grown(*old(heap), *final(heap)),
        done(r, final(heap)@, final(inst)@, store_table_index_op(old(heap)@, old(inst)@, slot)),
{
    let value = inst.pop()?;
    let key_value = inst.pop()?;
    let key = table_key_from_value(heap, &key_value)?;
    let reference = local_table(inst, slot)?;
    set_entry(heap, reference, key, value)?;
    Ok(Flow::Next)
}

fn store_item(
    heap: &mut Heap,
    inst: &mut Instance,
    slot: usize,
    element: Option<&Type>,
    rank: usize,
) -> (r: Result<Flow, Error>)
    requires
        old(heap).wf(),
    ensures
        final(heap).wf(),
        grown(*old(heap), *final(heap)),
        done(
            r,
            final(heap)@,
            final(inst)@,
            store_item_op(
                old(heap)@,
                old(inst)@,
                slot,
                match element {
                    Some(t) => Some(t@),
                    None => None,
                },
                rank,
            ),
        ),
{
    let value = inst.pop()?;
    let indices = pop_tensor_indices(inst, rank)?;
    let reference = local_tensor(inst, slot)?;
    match element {
        Some(t) => {
            set_item(heap, reference, &indices, &value, t, rank)?;
        },
        None => {
            set_single(heap, reference, &indices, &value)?;
        },
    }
    Ok(Flow::Next)
}

fn store_field(
    heap: &mut Heap,
    inst: &mut Instance,
    slot: usize,
    field: &StructField,
) -> (r: Result<Flow, Error>)
    requires
        old(heap).wf(),
    ensures
        final(heap).wf(),
        grown(*old(heap), *final(heap)),
        done(
            r,
            final(heap)@,
            final(inst)@,
            store_field_op(old(heap)@, old(inst)@, slot, field@),
        ),
{
    let value = inst.pop()?;
    let reference = local_struct(inst, slot)?;
    set_field(heap, reference, field.index, value)?;
    Ok(Flow::Next)
}

fn get_vector_field(heap: &Heap, reference: HeapRef, index: usize) -> (r: Result<HeapRef, Error>)
    ensures
        found_ref(r, vector_field(heap@, reference, index)),
{
    match heap.get(reference)? {
        HeapObject::Struct { values, .. } => {
            assert(views(values@).len() == values@.len());
            if index < values.len() {
                assert(views(values@)[index as int] == values@[index as int]@);
                match &values[index] {
                    Value::Array(array, _) => Ok(*array),
                    _ => Err(runtime_error("VM struct vector field invariant broken")),
                }
            } else {
                Err(runtime_error("VM struct vector field invariant broken"))
            }
        },
        _ => Err(runtime_error("struct heap invariant broken")),
    }
}

fn store_field_index(
    heap: &mut Heap,
    inst: &mut Instance,
    slot: usize,
    field: &StructField,
    element: &Type,
) -> (r: Result<Flow, Error>)
    requires
        old(heap).wf(),
    ensures
        final(heap).wf(),
        grown(*old(heap), *final(heap)),
        done(
            r,
            final(heap)@,
            final(inst)@,
            store_field_index_op(old(heap)@, old(inst)@, slot, field@, element@),
        ),
{
    let value = inst.pop()?;
    let index_value = inst.pop()?;
    let index: usize = integer_to_usize(&index_value)?;
    let reference = local_struct(inst, slot)?;
    let array = get_vector_field(heap, reference, field.index)?;
    set_cell(heap, array, index, &value, element)?;
    Ok(Flow::Next)
}

fn store_table_field(
    heap: &mut Heap,
    inst: &mut Instance,
    slot: usize,
    name: &Rc<String>,
) -> (r: Result<Flow, Error>)
    requires
        old(heap).wf(),
    ensures
        final(heap).wf(),
        grown(*old(heap), *final(heap)),
        done(
            r,
            final(heap)@,
            final(inst)@,
            store_table_field_op(old(heap)@, old(inst)@, slot, name@),
        ),
{
    let value = inst.pop()?;
    let reference = local_table(inst, slot)?;
    set_entry(heap, reference, TableKey::Name(name.clone()), value)?;
    Ok(Flow::Next)
}

fn store_current_field(
    heap: &mut Heap,
    inst: &mut Instance,
    receiver: Option<usize>,
    field: &StructField,
) -> (r: Result<Flow, Error>)
    requires
        old(heap).wf(),
    ensures
        final(heap).wf(),
        grown(*old(heap), *final(heap)),
        done(
            r,
            final(heap)@,
            final(inst)@,
            store_current_field_op(old(heap)@, old(inst)@, receiver, field@),
        ),
{
    let value = inst.pop()?;
    let reference = receiver_struct(inst, receiver, "field assignment outside method")?;
    set_field(heap, reference, field.index, value)?;
    Ok(Flow::Next)
}

fn load_current_field(
    heap: &Heap,
    inst: &mut Instance,
    receiver: Option<usize>,
    field: &StructField,
) -> (r: Result<Flow, Error>)
    ensures
        done(
            r,
            heap@,
            final(inst)@,
            load_current_field_op(heap@, old(inst)@, receiver, field@),
        ),
{
    let reference = receiver_struct(inst, receiver, "field access outside method")?;
    let value = get_field(heap, reference, field.index)?;
    inst.push(value);
    Ok(Flow::Next)
}

/// The values above a height of the stack, taken off.
fn take_values(inst: &mut Instance, at: usize) -> (r: Vec<Value>)
    requires
        at <= old(inst)@.stack.len(),
    ensures
        same(final(inst)@, cut(old(inst)@, at as int)),
        views(r@) == old(inst)@.stack.skip(at as int),
{
    let ghost before = inst.stack@;
    assert(inst@.stack.len() == before.len());
    let values = inst.stack.split_off(at);
    assert(inst@.stack =~= views(before).take(at as int));
    assert(views(values@) =~= views(before).skip(at as int));
    values
}

fn make_array(
    heap: &mut Heap,
    inst: &mut Instance,
    len: usize,
    element: &Type,
) -> (r: Result<Flow, Error>)
    requires
        old(heap).wf(),
    ensures
        final(heap).wf(),
        grown(*old(heap), *final(heap)),
        done(
            r,
            final(heap)@,
            final(inst)@,
            make_array_op(old(heap)@, old(inst)@, len, element@),
        ),
{
    assert(inst@.stack.len() == inst.stack@.len());
    if inst.stack.len() < len {
        return Err(runtime_error("stack underflow"));
    }
    let at: usize = inst.stack.len() - len;
    let values = take_values(inst, at);
    let bytes = Value::pack_array(values, element)?;
    let reference = heap.allocate(HeapObject::Array { bytes, element: element.clone() });
    inst.push(Value::Array(reference, Box::new(element.clone())));
    Ok(Flow::Settle)
}

fn make_struct(
    heap: &mut Heap,
    inst: &mut Instance,
    layout: &Rc<StructLayout>,
) -> (r: Result<Flow, Error>)
    requires
        old(heap).wf(),
    ensures
        final(heap).wf(),
        grown(*old(heap), *final(heap)),
        done(
            r,
            final(heap)@,
            final(inst)@,
            make_struct_op(old(heap)@, old(inst)@, (**layout)@),
        ),
{
    assert(inst@.stack.len() == inst.stack@.len());
    assert((**layout)@.fields.len() == layout.fields@.len());
    if inst.stack.len() < layout.fields.len() {
        return Err(runtime_error("stack underflow"));
    }
    let at: usize = inst.stack.len() - layout.fields.len();
    let values = take_values(inst, at);
    let reference = heap.allocate(HeapObject::Struct { values, layout: layout.clone() });
    inst.push(Value::Struct(reference, layout.clone()));
    Ok(Flow::Settle)
}

fn make_string(heap: &mut Heap, inst: &mut Instance, text: String) -> (r: Flow)
    requires
        old(heap).wf(),
    ensures
        final(heap).wf(),
        grown(*old(heap), *final(heap)),
        same(
            made_string(old(heap)@, old(inst)@, text@),
            Effect { heap: final(heap)@, inst: final(inst)@, flow: r@ },
        ),
{
    let reference = heap.allocate(HeapObject::String(text));
    inst.push(Value::String(reference));
    Flow::Settle
}

/// How many values the entries of a table literal take, if the stack has them.
fn count_entry_values(entries: &Vec<TableEntry>, limit: usize) -> (r: Option<usize>)
    ensures
        match r {
            Some(n) => n == entry_values(views(entries@), 0) && n <= limit,
            None => entry_values(views(entries@), 0) > limit,
        },
{
    let mut total: usize = 0;
    let mut k: usize = 0;
    while k < entries.len()
        invariant
            k <= entries@.len(),
            total <= limit,
            entry_values(views(entries@), 0) == total + entry_values(views(entries@), k as int),
        decreases entries@.len() - k,
    {
        assert(views(entries@)[k as int] == entries@[k as int]@);
        let step: usize = match &entries[k] {
            TableEntry::Index => 2,
            TableEntry::Name(_) => 1,
        };
        if limit - total < step {
            return None;
        }
        total += step;
        k += 1;
    }
    Some(total)
}

fn build_table(
    heap: &Heap,
    entries: &Vec<TableEntry>,
    values: &Vec<Value>,
) -> (r: Result<Dict<TableKey, Value>, Error>)
    ensures
        gave(
            r,
            table_from(heap@, Map::empty(), views(entries@), 0, views(values@), 0),
        ),
{
    let mut table: Dict<TableKey, Value> = Dict::new();
    let mut k: usize = 0;
    let mut c: usize = 0;
    assert(views(values@).len() == values@.len());
    while k < entries.len()
        invariant
            k <= entries@.len(),
            c <= values@.len(),
            views(values@).len() == values@.len(),
            same(
                table_from(heap@, Map::empty(), views(entries@), 0, views(values@), 0),
                table_from(
                    heap@,
                    table@,
                    views(entries@),
                    k as int,
                    views(values@),
                    c as int,
                ),
            ),
        decreases entries@.len() - k,
    {
        assert(views(entries@)[k as int] == entries@[k as int]@);
        let key: TableKey = match &entries[k] {
            TableEntry::Index => {
                if c >= values.len() {
                    return Err(runtime_error("stack underflow"));
                }
                assert(views(values@)[c as int] == values@[c as int]@);
                let key = table_key_from_value(heap, &values[c])?;
                c += 1;
                key
            },
            TableEntry::Name(name) => TableKey::Name(name.clone()),
        };
        if c >= values.len() {
            return Err(runtime_error("stack underflow"));
        }
        assert(views(values@)[c as int] == values@[c as int]@);
        if table.contains_key(&key) {
            return Err(
                Error::Runtime(
                    cat3(
                        "table key ",
                        table_key_display(&key).as_str(),
                        " is declared more than once",
                    ),
                ),
            );
        }
        let _known: bool = table.insert(key, values[c].clone());
        c += 1;
        k += 1;
    }
    Ok(table)
}

fn make_table(
    heap: &mut Heap,
    inst: &mut Instance,
    entries: &Vec<TableEntry>,
    element: &Type,
) -> (r: Result<Flow, Error>)
    requires
        old(heap).wf(),
    ensures
        final(heap).wf(),
        grown(*old(heap), *final(heap)),
        done(
            r,
            final(heap)@,
            final(inst)@,
            make_table_op(old(heap)@, old(inst)@, views(entries@), element@),
        ),
{
    assert(inst@.stack.len() == inst.stack@.len());
    let height: usize = inst.stack.len();
    match count_entry_values(entries, height) {
        None => Err(runtime_error("stack underflow")),
        Some(count) => {
            let values = take_values(inst, height - count);
            let table = build_table(heap, entries, &values)?;
            let reference = heap.allocate(
                HeapObject::Table { entries: table, element: element.clone() },
            );
            inst.push(Value::Table(reference, Box::new(element.clone())));
            Ok(Flow::Settle)
        },
    }
}

/// Whether a shape was found as it should be.
pub open spec fn found_shape(r: Result<Vec<usize>, Error>, e: Result<Seq<usize>, ErrorView>) -> bool {
    match r {
        Ok(shape) => same(e, Ok::<Seq<usize>, ErrorView>(shape@)),
        Err(x) => same(e, Err::<Seq<usize>, ErrorView>(x@)),
    }
}

fn unpack_shape(bytes: &Vec<u8>) -> (r: Result<Vec<usize>, Error>)
    ensures
        found_shape(r, shape_from(bytes@, Seq::empty(), 0)),
{
    let count: usize = bytes.len() / 8;
    let mut shape: Vec<usize> = Vec::new();
    let mut k: usize = 0;
    assert(Type::U64@ == TypeView::U64);
    while k < count
        invariant
            k <= count,
            count == bytes@.len() / 8,
            Type::U64@ == TypeView::U64,
            same(
                shape_from(bytes@, Seq::empty(), 0),
                shape_from(bytes@, shape@, k as int),
            ),
        decreases count - k,
    {
        match decode_scalar(bytes.as_slice(), k, &Type::U64)? {
            Value::U64(n) => {
                if n > usize::MAX as u64 {
                    return Err(runtime_error("tensor dimension is too large"));
                }
                shape.push(n as usize);
            },
            _ => {
                return Err(runtime_error("tensor shape heap invariant broken"));
            },
        }
        k += 1;
    }
    Ok(shape)
}

fn tensor_shape_from_value(heap: &Heap, value: &Value) -> (r: Result<Vec<usize>, Error>)
    ensures
        found_shape(r, shape_of(heap@, value@)),
{
    assert(Type::U64@ == TypeView::U64);
    match value {
        Value::Array(reference, element) => {
            if !element.same(&Type::U64) {
                return Err(runtime_error("tensor shape must be vector<u64>"));
            }
            match heap.get(*reference)? {
                HeapObject::Array { bytes, element: stored } => {
                    if !stored.same(&Type::U64) {
                        return Err(runtime_error("tensor shape heap invariant broken"));
                    }
                    unpack_shape(bytes)
                },
                _ => Err(runtime_error("tensor shape heap invariant broken")),
            }
        },
        _ => Err(runtime_error("tensor shape must be vector<u64>")),
    }
}

/// The bytes of a new tensor, or the random numbers that they are made of.
#[derive(Debug)]
pub enum TensorBytes {
    Ready(Vec<u8>),
    Draws(Vec<u64>),
}

impl Instance {
    /// Draws a random number of 53 bits.
    pub fn next_random(&mut self) -> (r: u64)
        ensures
            same(
                final(self)@,
                InstanceView {
                    random_state: next_random(old(self)@.random_state),
                    ..old(self)@
                },
            ),
            r == next_random(old(self)@.random_state) >> 11u64,
    {
        let mut state: u64 = self.random_state;
        state = state ^ (state << 13u64);
        state = state ^ (state >> 7u64);
        state = state ^ (state << 17u64);
        self.random_state = state;
        state >> 11u64
    }

    /// The bytes of a new tensor. Random floats are not made here: the random
    /// numbers for them are.
    pub fn make_tensor_bytes(
        &mut self,
        init: TensorInit,
        element: &Type,
        shape: &Vec<usize>,
    ) -> (r: Result<TensorBytes, Error>)
        ensures
            match tensor_bytes(init, element@, shape@) {
                Err(x) => r is Err && same(r->Err_0@, x) && same(final(self)@, old(self)@),
                Ok(plan) => match plan {
                    BytesView::Zeros(total) => r matches Ok(TensorBytes::Ready(bytes)) && bytes@
                        == zeros(total) && same(final(self)@, old(self)@),
                    BytesView::Random(count) => r matches Ok(TensorBytes::Draws(draws)) && draws@
                        == random_draws(old(self)@.random_state, count as nat) && same(
                        final(self)@,
                        InstanceView {
                            random_state: random_after(old(self)@.random_state, count as nat),
                            ..old(self)@
                        },
                    ),
                },
            },
    {
        let size: usize = scalar_size(element)?;
        let count: usize = item_count(shape)?;
        let total: usize = match count.checked_mul(size) {
            None => {
                return Err(runtime_error("tensor is too large"));
            },
            Some(total) => total,
        };
        if matches!(init, TensorInit::Zeros) || count == 0 {
            let bytes: Vec<u8> = vec![0u8; total];
            assert(bytes@ =~= zeros(total));
            return Ok(TensorBytes::Ready(bytes));
        }
        if !is_float(element) {
            return Err(runtime_error("random tensor element invariant broken"));
        }
        let ghost start = *self;
        let mut draws: Vec<u64> = Vec::new();
        let mut k: usize = 0;
        while k < count
            invariant
                start == *old(self),
                k <= count,
                draws@.len() == k,
                forall|j: int|
                    0 <= j < k ==> #[trigger] draws@[j] == random_after(
                        start@.random_state,
                        (j + 1) as nat,
                    ) >> 11u64,
                same(
                    self@,
                    InstanceView {
                        random_state: random_after(start@.random_state, k as nat),
                        ..start@
                    },
                ),
            decreases count - k,
        {
            let draw: u64 = self.next_random();
            draws.push(draw);
            k += 1;
        }
        assert(draws@ =~= random_draws(start@.random_state, count as nat));
        Ok(TensorBytes::Draws(draws))
    }
}

fn finish_tensor(
    heap: &mut Heap,
    inst: &mut Instance,
    bytes: Vec<u8>,
    element: &Type,
    shape: Vec<usize>,
    rank: usize,
) -> (r: Flow)
    requires
        old(heap).wf(),
    ensures
        final(heap).wf(),
        grown(*old(heap), *final(heap)),
        same(
            made_tensor(old(heap)@, old(inst)@, bytes@, element@, shape@, rank),
            Effect { heap: final(heap)@, inst: final(inst)@, flow: r@ },
        ),
{
    let reference = heap.allocate(HeapObject::Tensor { bytes, element: element.clone(), shape });
    let ty = Type::Tensor(Box::new(element.clone()), rank);
    assert(ty@ == TypeView::Tensor(Box::new(element@), rank));
    inst.push(Value::Tensor(reference, Rc::new(ty)));
    Flow::Settle
}

fn make_tensor(
    heap: &mut Heap,
    inst: &mut Instance,
    init: TensorInit,
    element: &Type,
    rank: usize,
) -> (r: Result<Flow, Error>)
    requires
        old(heap).wf(),
    ensures
        final(heap).wf(),
        grown(*old(heap), *final(heap)),
        done(
            r,
            final(heap)@,
            final(inst)@,
            make_tensor_op(old(heap)@, old(inst)@, init, element@, rank),
        ),
{
    let shape_value = inst.pop()?;
    let shape = tensor_shape_from_value(heap, &shape_value)?;
    if shape.len() != rank {
        let wanted = usize_text(rank);
        return Err(
            Error::Runtime(
                crate::text::cat6(
                    "tensor rank ",
                    wanted.as_str(),
                    " requires ",
                    wanted.as_str(),
                    " dimensions, got ",
                    usize_text(shape.len()).as_str(),
                ),
            ),
        );
    }
    match inst.make_tensor_bytes(init, element, &shape)? {
        TensorBytes::Ready(bytes) => Ok(finish_tensor(heap, inst, bytes, element, shape, rank)),
        TensorBytes::Draws(draws) => Ok(
            Flow::Ask(
                Request::Units { draws, element: element.clone() },
                Pending::Tensor { element: element.clone(), shape, rank },
            ),
        ),
    }
}

fn read_cell(heap: &Heap, value: &Value, index: usize) -> (r: Result<Value, Error>)
    ensures
        gave(r, cell_in(heap@, value@, index)),
{
    match value {
        Value::Array(reference, element) => match heap.get(*reference)? {
            HeapObject::Array { bytes, element: stored } => if stored.same(element) {
                decode_scalar(bytes.as_slice(), index, element)
            } else {
                Err(runtime_error("array heap invariant broken"))
            },
            _ => Err(runtime_error("array heap invariant broken")),
        },
        _ => Err(runtime_error("VM array invariant broken")),
    }
}

fn load_index(heap: &Heap, inst: &mut Instance) -> (r: Result<Flow, Error>)
    ensures
        done(r, heap@, final(inst)@, index_op(heap@, old(inst)@)),
{
    let index_value = inst.pop()?;
    let index: usize = integer_to_usize(&index_value)?;
    let object = inst.pop()?;
    let value = read_cell(heap, &object, index)?;
    inst.push(value);
    Ok(Flow::Next)
}

fn read_item(
    heap: &Heap,
    value: &Value,
    indices: &Vec<usize>,
    element: Option<&Type>,
    rank: usize,
) -> (r: Result<Value, Error>)
    ensures
        gave(
            r,
            item_in(
                heap@,
                value@,
                indices@,
                match element {
                    Some(t) => Some(t@),
                    None => None,
                },
                rank,
            ),
        ),
{
    match value {
        Value::Tensor(reference, _) => match heap.get(*reference)? {
            HeapObject::Tensor { bytes, element: stored, shape } => match element {
                Some(t) => {
                    if !stored.same(t) || shape.len() != rank {
                        return Err(runtime_error("tensor heap invariant broken"));
                    }
                    let offset: usize = tensor_offset(shape, indices)?;
                    decode_scalar(bytes.as_slice(), offset, t)
                },
                None => {
                    let offset: usize = tensor_offset(shape, indices)?;
                    check_single(bytes.len(), offset)?;
                    assert(Type::F32@ == TypeView::F32);
                    decode_scalar(bytes.as_slice(), offset, &Type::F32)
                },
            },
            _ => Err(runtime_error("tensor heap invariant broken")),
        },
        _ => Err(runtime_error("VM tensor invariant broken")),
    }
}

fn load_item(
    heap: &Heap,
    inst: &mut Instance,
    element: Option<&Type>,
    rank: usize,
) -> (r: Result<Flow, Error>)
    ensures
        done(
            r,
            heap@,
            final(inst)@,
            item_op(
                heap@,
                old(inst)@,
                match element {
                    Some(t) => Some(t@),
                    None => None,
                },
                rank,
            ),
        ),
{
    let indices = pop_tensor_indices(inst, rank)?;
    let object = inst.pop()?;
    let value = read_item(heap, &object, &indices, element, rank)?;
    inst.push(value);
    Ok(Flow::Next)
}

fn table_entries<'a>(heap: &'a Heap, value: &Value) -> (r: Result<&'a Dict<TableKey, Value>, Error>)
    ensures
        match r {
            Ok(entries) => same(
                entries_of(heap@, value@),
                Ok::<Map<TableKeyView, ValueView>, ErrorView>(entries@),
            ),
            Err(e) => same(
                entries_of(heap@, value@),
                Err::<Map<TableKeyView, ValueView>, ErrorView>(e@),
            ),
        },
{
    match value {
        Value::Table(reference, _) => match heap.get(*reference)? {
            HeapObject::Table { entries, .. } => Ok(entries),
            _ => Err(runtime_error("table heap invariant broken")),
        },
        _ => Err(runtime_error("VM table invariant broken")),
    }
}

fn read_entry(heap: &Heap, value: &Value, key: &TableKey) -> (r: Result<Value, Error>)
    ensures
        gave(r, entry_in(heap@, value@, key@)),
{
    match table_entries(heap, value)?.get(key) {
        Some(found) => Ok(found.clone()),
        None => Err(
            Error::Runtime(cat2("table has no key ", table_key_display(key).as_str())),
        ),
    }
}

fn load_table_index(heap: &Heap, inst: &mut Instance) -> (r: Result<Flow, Error>)
    ensures
        done(r, heap@, final(inst)@, table_index_op(heap@, old(inst)@)),
{
    let key_value = inst.pop()?;
    let key = table_key_from_value(heap, &key_value)?;
    let object = inst.pop()?;
    let value = read_entry(heap, &object, &key)?;
    inst.push(value);
    Ok(Flow::Next)
}

fn load_table_field(heap: &Heap, inst: &mut Instance, name: &Rc<String>) -> (r: Result<Flow, Error>)
    ensures
        done(r, heap@, final(inst)@, table_field_op(heap@, old(inst)@, name@)),
{
    let object = inst.pop()?;
    let key = TableKey::Name(name.clone());
    let value = read_entry(heap, &object, &key)?;
    inst.push(value);
    Ok(Flow::Next)
}

fn make_table_keys(heap: &mut Heap, inst: &mut Instance) -> (r: Result<Flow, Error>)
    requires
        old(heap).wf(),
    ensures
        final(heap).wf(),
        grown(*old(heap), *final(heap)),
        done(r, final(heap)@, final(inst)@, table_keys_op(old(heap)@, old(inst)@)),
{
    let object = inst.pop()?;
    let keys = keys_in_order(table_entries(heap, &object)?);
    let reference = heap.allocate(HeapObject::TableKeys(keys));
    inst.push(Value::TableKeys(reference));
    Ok(Flow::Settle)
}

fn read_key(heap: &Heap, value: &Value, index: usize) -> (r: Result<Value, Error>)
    ensures
        gave(r, key_in(heap@, value@, index)),
{
    match value {
        Value::TableKeys(reference) => match heap.get(*reference)? {
            HeapObject::TableKeys(keys) => {
                assert(views(keys@).len() == keys@.len());
                if index < keys.len() {
                    assert(views(keys@)[index as int] == keys@[index as int]@);
                    Ok(Value::TableKey(Rc::new(keys[index].clone())))
                } else {
                    Err(
                        Error::Runtime(
                            cat3(
                                "table key index ",
                                usize_text(index).as_str(),
                                " is out of bounds",
                            ),
                        ),
                    )
                }
            },
            _ => Err(runtime_error("table_keys heap invariant broken")),
        },
        _ => Err(runtime_error("VM table_keys invariant broken")),
    }
}

fn load_key(heap: &Heap, inst: &mut Instance) -> (r: Result<Flow, Error>)
    ensures
        done(r, heap@, final(inst)@, table_keys_index_op(heap@, old(inst)@)),
{
    let index_value = inst.pop()?;
    let index: usize = integer_to_usize(&index_value)?;
    let object = inst.pop()?;
    let value = read_key(heap, &object, index)?;
    inst.push(value);
    Ok(Flow::Next)
}

fn remove_entry(heap: &mut Heap, value: &Value, key: &TableKey) -> (r: Result<bool, Error>)
    requires
        old(heap).wf(),
    ensures
        final(heap).wf(),
        grown(*old(heap), *final(heap)),
        match r {
            Ok(removed) => same(
                without_entry(old(heap)@, value@, key@),
                Ok::<(HeapView, bool), ErrorView>((final(heap)@, removed)),
            ),
            Err(e) => same(
                without_entry(old(heap)@, value@, key@),
                Err::<(HeapView, bool), ErrorView>(e@),
            ) && same(final(heap)@, old(heap)@),
        },
{
    match value {
        Value::Table(reference, _) => {
            proof {
                lemma_unchanged(heap@, *reference);
            }
            match heap.get_mut(*reference)? {
                HeapObject::Table { entries, .. } => Ok(entries.remove(key)),
                _ => Err(runtime_error("table heap invariant broken")),
            }
        },
        _ => Err(runtime_error("VM table invariant broken")),
    }
}

fn remove_table_entry(heap: &mut Heap, inst: &mut Instance) -> (r: Result<Flow, Error>)
    requires
        old(heap).wf(),
    ensures
        final(heap).wf(),
        grown(*old(heap), *final(heap)),
        done(r, final(heap)@, final(inst)@, table_remove_op(old(heap)@, old(inst)@)),
{
    let key_value = inst.pop()?;
    let key = table_key_from_value(heap, &key_value)?;
    let object = inst.pop()?;
    let removed: bool = remove_entry(heap, &object, &key)?;
    inst.push(Value::Bool(removed));
    Ok(Flow::Next)
}

fn load_field(heap: &Heap, inst: &mut Instance, field: &StructField) -> (r: Result<Flow, Error>)
    ensures
        done(r, heap@, final(inst)@, field_op(heap@, old(inst)@, field@)),
{
    match inst.pop()? {
        Value::Struct(reference, _) => {
            let value = get_field(heap, reference, field.index)?;
            inst.push(value);
            Ok(Flow::Next)
        },
        _ => Err(runtime_error("VM struct invariant broken")),
    }
}

fn add_numbers(heap: &Heap, inst: &mut Instance, ty: Type) -> (r: Result<Flow, Error>)
    ensures
        done(r, heap@, final(inst)@, add_op(heap@, old(inst)@, ty@)),
{
    let right = inst.pop()?;
    let left = inst.pop()?;
    match (&left, &right, &ty) {
        (Value::I32(a), Value::I32(b), Type::I32) => match a.checked_add(*b) {
            Some(sum) => {
                inst.push(Value::I32(sum));
                Ok(Flow::Next)
            },
            None => Err(runtime_error("addition overflow")),
        },
        (Value::F32(_), Value::F32(_), Type::F32) | (Value::F64(_), Value::F64(_), Type::F64) => Ok(
            Flow::Ask(
                Request::Float(
                    FloatRequest::Binary {
                        op: BinOp::Add,
                        left: left.clone(),
                        right: right.clone(),
                        result: ty.clone(),
                    },
                ),
                Pending::Push { settle: false },
            ),
        ),
        _ => Err(
            Error::Runtime(
                cat3("VM ", ty.to_text().as_str(), " addition invariant broken"),
            ),
        ),
    }
}

/// Pushes what an evaluation gave, once its floating-point part is done.
fn push_outcome_of(inst: &mut Instance, outcome: Outcome) -> (r: Flow)
    ensures
        forall|h: HeapView| #[trigger]
            same(
                push_outcome(h, old(inst)@, Ok(outcome@)),
                Effect { heap: h, inst: final(inst)@, flow: r@ },
            ),
{
    match outcome {
        Outcome::Value(value) => {
            inst.push(value);
            Flow::Next
        },
        Outcome::Float(request) => Flow::Ask(
            Request::Float(request),
            Pending::Push { settle: false },
        ),
    }
}

fn binary(heap: &Heap, inst: &mut Instance, op: &BinaryOp) -> (r: Result<Flow, Error>)
    ensures
        done(
            r,
            heap@,
            final(inst)@,
            pair_op(
                heap@,
                old(inst)@,
                |a: ValueView, b: ValueView| binary_result(heap@, a, b, *op),
            ),
        ),
{
    let right = inst.pop()?;
    let left = inst.pop()?;
    let outcome = evaluate_binary(heap, left, right, op)?;
    let ghost before = inst@;
    let flow = push_outcome_of(inst, outcome);
    assert(same(
        push_outcome(heap@, before, Ok(outcome@)),
        Effect { heap: heap@, inst: inst@, flow: flow@ },
    ));
    Ok(flow)
}

fn unary(heap: &Heap, inst: &mut Instance, op: &UnOp, ty: &Type) -> (r: Result<Flow, Error>)
    ensures
        done(
            r,
            heap@,
            final(inst)@,
            single_op(heap@, old(inst)@, |a: ValueView| unary_result(a, *op, ty@)),
        ),
{
    let value = inst.pop()?;
    let outcome = evaluate_unary(value, op, ty)?;
    let ghost before = inst@;
    let flow = push_outcome_of(inst, outcome);
    assert(same(
        push_outcome(heap@, before, Ok(outcome@)),
        Effect { heap: heap@, inst: inst@, flow: flow@ },
    ));
    Ok(flow)
}

fn cast(heap: &Heap, inst: &mut Instance, ty: &Type) -> (r: Result<Flow, Error>)
    ensures
        done(
            r,
            heap@,
            final(inst)@,
            single_op(heap@, old(inst)@, |a: ValueView| cast_result(a, ty@)),
        ),
{
    let value = inst.pop()?;
    let outcome = cast_numeric(value, ty)?;
    let ghost before = inst@;
    let flow = push_outcome_of(inst, outcome);
    assert(same(
        push_outcome(heap@, before, Ok(outcome@)),
        Effect { heap: heap@, inst: inst@, flow: flow@ },
    ));
    Ok(flow)
}

fn builtin1(heap: &Heap, inst: &mut Instance, function: BuiltinFn) -> (r: Result<Flow, Error>)
    ensures
        done(
            r,
            heap@,
            final(inst)@,
            single_op(heap@, old(inst)@, |a: ValueView| builtin1_result(function, a)),
        ),
{
    let value = inst.pop()?;
    let outcome = evaluate_builtin1(function, value)?;
    let ghost before = inst@;
    let flow = push_outcome_of(inst, outcome);
    assert(same(
        push_outcome(heap@, before, Ok(outcome@)),
        Effect { heap: heap@, inst: inst@, flow: flow@ },
    ));
    Ok(flow)
}

fn builtin2(
    heap: &Heap,
    inst: &mut Instance,
    function: BuiltinFn,
    ty: &Type,
) -> (r: Result<Flow, Error>)
    ensures
        done(
            r,
            heap@,
            final(inst)@,
            pair_op(
                heap@,
                old(inst)@,
                |a: ValueView, b: ValueView| builtin2_result(function, a, b, ty@),
            ),
        ),
{
    let right = inst.pop()?;
    let left = inst.pop()?;
    let outcome = evaluate_builtin2(function, left, right, ty)?;
    let ghost before = inst@;
    let flow = push_outcome_of(inst, outcome);
    assert(same(
        push_outcome(heap@, before, Ok(outcome@)),
        Effect { heap: heap@, inst: inst@, flow: flow@ },
    ));
    Ok(flow)
}

fn measure(heap: &Heap, value: &Value) -> (r: Result<usize, Error>)
    ensures
        match r {
            Ok(n) => same(length_of(heap@, value@), Ok::<int, ErrorView>(n as int)),
            Err(e) => same(length_of(heap@, value@), Err::<int, ErrorView>(e@)),
        },
{
    match value {
        Value::Array(reference, element) => match heap.get(*reference)? {
            HeapObject::Array { bytes, element: stored } => {
                if !stored.same(element) {
                    return Err(runtime_error("array heap invariant broken"));
                }
                let size: usize = scalar_size(element)?;
                Ok(bytes.len() / size)
            },
            _ => Err(runtime_error("array heap invariant broken")),
        },
        Value::String(reference) => match heap.get(*reference)? {
            HeapObject::String(text) => Ok(text.as_str().unicode_len()),
            _ => Err(runtime_error("string heap invariant broken")),
        },
        Value::Table(reference, _) => match heap.get(*reference)? {
            HeapObject::Table { entries, .. } => Ok(entries.len()),
            _ => Err(runtime_error("table heap invariant broken")),
        },
        Value::TableKeys(reference) => match heap.get(*reference)? {
            HeapObject::TableKeys(keys) => {
                assert(views(keys@).len() == keys@.len());
                Ok(keys.len())
            },
            _ => Err(runtime_error("table_keys heap invariant broken")),
        },
        Value::Tensor(reference, _) => match heap.get(*reference)? {
            HeapObject::Tensor { shape, .. } => item_count(shape),
            _ => Err(runtime_error("tensor heap invariant broken")),
        },
        _ => Err(runtime_error("VM len invariant broken")),
    }
}

fn len(heap: &Heap, inst: &mut Instance) -> (r: Result<Flow, Error>)
    ensures
        done(r, heap@, final(inst)@, len_op(heap@, old(inst)@)),
{
    let value = inst.pop()?;
    let length: usize = measure(heap, &value)?;
    if length > i32::MAX as usize {
        return Err(runtime_error("vector length exceeds i32"));
    }
    inst.push(Value::I32(length as i32));
    Ok(Flow::Next)
}

/// Two texts joined, in a buffer of the right size.
fn join(left: &String, right: &String) -> (r: String)
    ensures
        r@ == left@ + right@,
{
    let size: usize = left.as_str().len().saturating_add(right.as_str().len());
    let mut text = if size <= isize::MAX as usize {
        String::with_capacity(size)
    } else {
        String::new()
    };
    text.append(left.as_str());
    text.append(right.as_str());
    assert(Seq::<char>::empty() + left@ =~= left@);
    text
}

fn concat_string(heap: &mut Heap, inst: &mut Instance) -> (r: Result<Flow, Error>)
    requires
        old(heap).wf(),
    ensures
        final(heap).wf(),
        grown(*old(heap), *final(heap)),
        done(r, final(heap)@, final(inst)@, concat_op(old(heap)@, old(inst)@)),
{
    let right = inst.pop()?;
    let left = inst.pop()?;
    match (left, right) {
        (Value::String(a), Value::String(b)) => {
            let text: String = match (heap.get(a)?, heap.get(b)?) {
                (HeapObject::String(x), HeapObject::String(y)) => join(x, y),
                _ => {
                    return Err(runtime_error("string heap invariant broken"));
                },
            };
            Ok(make_string(heap, inst, text))
        },
        _ => Err(runtime_error("VM string invariant broken")),
    }
}

/// Takes a line of input as a value.
fn read_line(
    heap: &mut Heap,
    inst: &mut Instance,
    line: &String,
    ty: &Type,
) -> (r: Result<Flow, Error>)
    requires
        old(heap).wf(),
    ensures
        final(heap).wf(),
        grown(*old(heap), *final(heap)),
        done(
            r,
            final(heap)@,
            final(inst)@,
            read_op(old(heap)@, old(inst)@, line@, ty@),
        ),
{
    let chars = chars_of(line.as_str());
    let (from, to) = trim_bounds(chars.as_slice());
    if matches!(ty, Type::String) {
        let text = line_text(chars.as_slice());
        return Ok(make_string(heap, inst, text));
    }
    let text = text_of(chars.as_slice(), from, to);
    if is_integer(ty) {
        let digits = chars_of(text.as_str());
        match parse_integer(digits.as_slice()) {
            None => Err(Error::Runtime(cat2("invalid integer: ", text.as_str()))),
            Some(n) => {
                let value = int_value(n, ty)?;
                inst.push(value);
                Ok(Flow::Settle)
            },
        }
    } else if is_numeric(ty) {
        Ok(
            Flow::Ask(
                Request::Float(FloatRequest::Parse { text, ty: ty.clone() }),
                Pending::Push { settle: true },
            ),
        )
    } else {
        Err(runtime_error("VM input type invariant broken"))
    }
}

fn read_input(heap: &mut Heap, inst: &mut Instance, ty: &Type) -> (r: Result<Flow, Error>)
    requires
        old(heap).wf(),
    ensures
        final(heap).wf(),
        grown(*old(heap), *final(heap)),
        done(r, final(heap)@, final(inst)@, input_op(old(heap)@, old(inst)@, ty@)),
{
    let ghost before = inst.input@;
    assert(inst@.input.len() == before.len());
    match inst.input.pop_front() {
        Some(line) => {
            assert(inst@.input =~= views(before).drop_first());
            assert(views(before).first() == line@);
            read_line(heap, inst, &line, ty)
        },
        None => Ok(Flow::Ask(Request::Line, Pending::Read { ty: ty.clone() })),
    }
}

/// Puts pieces out, once the digits of the floats among them are known.
fn put_pieces(heap: &Heap, inst: &mut Instance, pieces: Vec<Piece>, line: bool) -> (r: Flow)
    ensures
        same(
            put_out(heap@, old(inst)@, views(pieces@), line),
            Effect { heap: heap@, inst: final(inst)@, flow: r@ },
        ),
{
    let floats = floats_of(&pieces);
    assert(views(floats@).len() == floats@.len());
    if floats.len() == 0 {
        let texts: Vec<String> = Vec::new();
        let text = assemble(&pieces, &texts);
        inst.show(text, line);
        Flow::Next
    } else {
        Flow::Ask(Request::Texts(floats), Pending::Print { pieces, line })
    }
}

fn print(heap: &Heap, inst: &mut Instance) -> (r: Result<Flow, Error>)
    ensures
        done(r, heap@, final(inst)@, print_op(heap@, old(inst)@)),
{
    let value = inst.pop()?;
    assert(heap@.len() == heap.slots@.len());
    let pieces = format_value(heap, &value, heap.slots.len())?;
    Ok(put_pieces(heap, inst, pieces, true))
}

fn read_string<'a>(heap: &'a Heap, reference: HeapRef) -> (r: Result<&'a String, Error>)
    ensures
        match r {
            Ok(text) => same(
                string_in(heap@, reference),
                Ok::<Seq<char>, ErrorView>(text@),
            ),
            Err(e) => same(string_in(heap@, reference), Err::<Seq<char>, ErrorView>(e@)),
        },
{
    match heap.get(reference)? {
        HeapObject::String(text) => Ok(text),
        _ => Err(runtime_error("string heap invariant broken")),
    }
}

fn printf(heap: &Heap, inst: &mut Instance, count: usize) -> (r: Result<Flow, Error>)
    ensures
        done(r, heap@, final(inst)@, printf_op(heap@, old(inst)@, count)),
{
    let format = inst.pop()?;
    let args = pop_values(inst, count)?;
    match format {
        Value::String(reference) => {
            let text = read_string(heap, reference)?;
            let pieces = format_printf(heap, text, &args)?;
            Ok(put_pieces(heap, inst, pieces, false))
        },
        _ => Err(runtime_error("printf format is not a string")),
    }
}

/// The character with a number.
///
/// Calls `char::from_u32`, which gives the character with that code where the
/// number is a Unicode scalar value.
#[verifier::external_body]
fn char_of(n: u32) -> (r: Option<char>)
    ensures
        match r {
            Some(c) => is_scalar_value(n as int) && c == n as char,
            None => !is_scalar_value(n as int),
        },
{
    char::from_u32(n)
}

fn putc(heap: &Heap, inst: &mut Instance) -> (r: Result<Flow, Error>)
    ensures
        done(r, heap@, final(inst)@, putc_op(heap@, old(inst)@)),
{
    let value = inst.pop()?;
    let n: usize = integer_to_usize(&value)?;
    if n as u64 > u32::MAX as u64 {
        return Err(runtime_error("putc code point exceeds u32"));
    }
    match char_of(n as u32) {
        None => Err(
            Error::Runtime(
                cat2(
                    "putc requires a valid Unicode scalar value, got ",
                    usize_text(n).as_str(),
                ),
            ),
        ),
        Some(c) => {
            if inst.interactive {
                inst.display.push(c);
            }
            Ok(Flow::Next)
        },
    }
}

fn copy_values(values: &Vec<Value>, from: usize) -> (r: Vec<Value>)
    requires
        from <= values@.len(),
    ensures
        views(r@) == views(values@).skip(from as int),
{
    let mut out: Vec<Value> = Vec::new();
    let mut k: usize = from;
    while k < values.len()
        invariant
            from <= k <= values@.len(),
            out@.len() == k - from,
            forall|j: int| 0 <= j < out@.len() ==> #[trigger] out@[j]@ == values@[from + j]@,
        decreases values@.len() - k,
    {
        out.push(values[k].clone());
        k += 1;
    }
    assert(views(out@) =~= views(values@).skip(from as int));
    out
}

fn check_arguments(arguments: &Vec<Value>, types: &Vec<Type>) -> (r: bool)
    requires
        arguments@.len() == types@.len(),
    ensures
        r == arguments_fit(views(arguments@), views(types@)),
{
    let mut k: usize = 0;
    while k < arguments.len()
        invariant
            k <= arguments@.len(),
            arguments@.len() == types@.len(),
            forall|j: int|
                0 <= j < k ==> compatible(
                    type_of(#[trigger] views(arguments@)[j]),
                    views(types@)[j],
                ),
        decreases arguments@.len() - k,
    {
        assert(views(arguments@)[k as int] == arguments@[k as int]@);
        assert(views(types@)[k as int] == types@[k as int]@);
        let ty = arguments[k].ty();
        if !types_compatible(&ty, &types[k]) {
            return false;
        }
        k += 1;
    }
    true
}

fn call_external(
    heap: &Heap,
    inst: &mut Instance,
    name: &String,
    count: usize,
) -> (r: Result<Flow, Error>)
    ensures
        done(r, heap@, final(inst)@, call_external_op(heap@, old(inst)@, name@, count)),
{
    assert(inst@.stack.len() == inst.stack@.len());
    match inst.extern_functions.get(name) {
        None => Err(
            Error::Runtime(
                cat3("external function '", name.as_str(), "' is not registered"),
            ),
        ),
        Some(external) => {
            assert(external@.signature.arguments.len() == external.signature.arguments@.len());
            if external.signature.arguments.len() != count || inst.stack.len() < count {
                return Err(runtime_error("external call stack invariant broken"));
            }
            let base: usize = inst.stack.len() - count;
            let arguments = copy_values(&inst.stack, base);
            assert(views(arguments@).len() == arguments@.len());
            if !check_arguments(&arguments, &external.signature.arguments) {
                return Err(
                    Error::Runtime(
                        cat3(
                            "external function '",
                            name.as_str(),
                            "' received an invalid argument type",
                        ),
                    ),
                );
            }
            if matches!(external.function, ExternalFunction::C(_)) && !inst.callback_state {
                return Err(
                    Error::Runtime(
                        cat3(
                            "C function '",
                            name.as_str(),
                            "' requires execution through L0State",
                        ),
                    ),
                );
            }
            Ok(
                Flow::Ask(
                    Request::Host { name: name.clone(), function: external.function, arguments },
                    Pending::Host {
                        name: name.clone(),
                        result: external.signature.result.clone(),
                        base,
                    },
                ),
            )
        },
    }
}

fn return_value(inst: &mut Instance, base: usize, value: Value) -> (r: Flow)
    ensures
        forall|h: HeapView| #[trigger]
            same(
                returned(h, old(inst)@, base, value@),
                Effect { heap: h, inst: final(inst)@, flow: r@ },
            ),
{
    inst.cut(base);
    inst.push(value);
    Flow::Next
}

fn host_result(
    heap: &Heap,
    inst: &mut Instance,
    name: &String,
    result: &Type,
    base: usize,
    value: Value,
) -> (r: Result<Flow, Error>)
    ensures
        done(
            r,
            heap@,
            final(inst)@,
            host_result_op(heap@, old(inst)@, name@, result@, base, value@),
        ),
{
    let ty = value.ty();
    if !types_compatible(result, &ty) {
        return Err(
            Error::Runtime(
                crate::text::cat6(
                    "external function '",
                    name.as_str(),
                    "' returned ",
                    ty.to_text().as_str(),
                    "; expected ",
                    result.to_text().as_str(),
                ),
            ),
        );
    }
    let ghost before = inst@;
    if is_numeric(result) && !ty.same(result) {
        match cast_numeric(value, result)? {
            Outcome::Value(w) => {
                let flow = return_value(inst, base, w);
                assert(same(
                    returned(heap@, before, base, w@),
                    Effect { heap: heap@, inst: inst@, flow: flow@ },
                ));
                Ok(flow)
            },
            Outcome::Float(request) => Ok(
                Flow::Ask(Request::Float(request), Pending::Return { base }),
            ),
        }
    } else {
        let flow = return_value(inst, base, value);
        assert(same(
            returned(heap@, before, base, value@),
            Effect { heap: heap@, inst: inst@, flow: flow@ },
        ));
        Ok(flow)
    }
}

fn track_destructor(
    heap: &Heap,
    inst: &mut Instance,
    slot: usize,
    target: usize,
) -> (r: Result<Flow, Error>)
    ensures
        done(r, heap@, final(inst)@, track_op(heap@, old(inst)@, slot, target)),
{
    assert(inst@.locals.len() == inst.locals@.len());
    let tracked_struct: bool = if slot < inst.locals.len() {
        assert(inst@.locals[slot as int] == inst.locals@[slot as int]@);
        matches!(&inst.locals[slot], Value::Struct(_, _))
    } else {
        false
    };
    if !tracked_struct {
        return Err(runtime_error("VM destructor slot invariant broken"));
    }
    inst.active_destructors.push(ActiveDestructor { slot, target });
    Ok(Flow::Next)
}

fn untrack_destructor(heap: &Heap, inst: &mut Instance, slot: usize) -> (r: Result<Flow, Error>)
    ensures
        done(r, heap@, final(inst)@, untrack_op(heap@, old(inst)@, slot)),
{
    let mut n: usize = inst.active_destructors.len();
    let ghost all = inst@.destructors;
    while n > 0 && inst.active_destructors[n - 1].slot != slot
        invariant
            *inst == *old(inst),
            all == inst@.destructors,
            n <= all.len(),
            latest_destructor(all, slot, all.len() as int) == latest_destructor(
                all,
                slot,
                n as int,
            ),
        decreases n,
    {
        n -= 1;
    }
    if n == 0 {
        return Err(runtime_error("VM destructor tracking invariant broken"));
    }
    let _removed = inst.active_destructors.remove(n - 1);
    Ok(Flow::Next)
}

fn jump_if_false(heap: &Heap, inst: &mut Instance, target: usize) -> (r: Result<Flow, Error>)
    ensures
        done(r, heap@, final(inst)@, jump_if_false_op(heap@, old(inst)@, target)),
{
    match inst.pop()? {
        Value::Bool(condition) => if condition {
            Ok(Flow::Next)
        } else {
            Ok(Flow::Goto(target))
        },
        _ => Err(runtime_error("VM condition invariant broken")),
    }
}

fn jump_keep(
    heap: &Heap,
    inst: &mut Instance,
    target: usize,
    wanted: bool,
) -> (r: Result<Flow, Error>)
    ensures
        done(r, heap@, final(inst)@, jump_keep_op(heap@, old(inst)@, target, wanted)),
{
    assert(inst@.stack.len() == inst.stack@.len());
    let height: usize = inst.stack.len();
    if height == 0 {
        return Err(runtime_error("stack underflow"));
    }
    assert(inst@.stack.last() == inst.stack@[height - 1]@);
    let condition: bool = match &inst.stack[height - 1] {
        Value::Bool(condition) => *condition,
        _ => {
            return Err(runtime_error("VM condition invariant broken"));
        },
    };
    if condition == wanted {
        return Ok(Flow::Goto(target));
    }
    let _value = inst.pop()?;
    Ok(Flow::Next)
}

fn require(
    heap: &Heap,
    inst: &mut Instance,
    artifact: &Rc<ModuleArtifact>,
) -> (r: Result<Flow, Error>)
    ensures
        done(r, heap@, final(inst)@, require_op(heap@, old(inst)@, (**artifact)@)),
{
    if inst.native_modules.contains_key(&artifact.id) {
        let _known: bool = inst.native_modules.remove(&artifact.id);
        CandleExtension.register(inst)?;
        inst.push(Value::Module(artifact.id.clone()));
        Ok(Flow::Next)
    } else if inst.modules.contains_key(&artifact.id) {
        inst.push(Value::Module(artifact.id.clone()));
        Ok(Flow::Next)
    } else {
        Ok(Flow::Load(artifact.clone()))
    }
}

/// Carries out an instruction that needs no other instance.
#[verifier::spinoff_prover]
#[verifier::rlimit(60)]
fn perform_alone(
    heap: &mut Heap,
    inst: &mut Instance,
    receiver: Option<usize>,
    op: DecodedOp<'_>,
    Ghost(all): Ghost<Seq<InstanceView>>,
) -> (r: Result<Flow, Error>)
    requires
        old(heap).wf(),
        !(op@ is ModuleField),
    ensures
        final(heap).wf(),
        grown(*old(heap), *final(heap)),
        done(
            r,
            final(heap)@,
            final(inst)@,
            effect(old(heap)@, all, old(inst)@, receiver, op@),
        ),
{
    match op {
        DecodedOp::AddI32 => add_numbers(heap, inst, Type::I32),
        DecodedOp::AddF32 => add_numbers(heap, inst, Type::F32),
        DecodedOp::AddF64 => add_numbers(heap, inst, Type::F64),
        DecodedOp::Push(value) => {
            inst.push(value.clone());
            Ok(Flow::Next)
        },
        DecodedOp::MakeString(text) => Ok(make_string(heap, inst, (**text).clone())),
        DecodedOp::Input(ty) => read_input(heap, inst, ty),
        DecodedOp::Require(artifact) => require(heap, inst, artifact),
        DecodedOp::Load(slot) => {
            let value = local_value(inst, slot, "invalid local slot")?.clone();
            inst.push(value);
            Ok(Flow::Next)
        },
        DecodedOp::LoadCurrentReceiver => {
            let value = receiver_local(
                inst,
                receiver,
                "this is available only inside a method",
            )?.clone();
            inst.push(value);
            Ok(Flow::Next)
        },
        DecodedOp::LoadCurrentField(field) => load_current_field(heap, inst, receiver, field),
        DecodedOp::Store(slot) => store(heap, inst, slot),
        DecodedOp::StoreIndex(slot, element) => store_index(heap, inst, slot, element),
        DecodedOp::StoreTableIndex(slot, _) => store_table_index(heap, inst, slot),
        DecodedOp::StoreTensorIndex(slot, element, rank) => store_item(
            heap,
            inst,
            slot,
            Some(element),
            rank,
        ),
        DecodedOp::StoreTensorIndexF32(slot, rank) => store_item(heap, inst, slot, None, rank),
        DecodedOp::StoreField(slot, field) => store_field(heap, inst, slot, field),
        DecodedOp::StoreFieldIndex(slot, field, element) => store_field_index(
            heap,
            inst,
            slot,
            field,
            element,
        ),
        DecodedOp::StoreTableField(slot, name, _) => store_table_field(heap, inst, slot, name),
        DecodedOp::StoreCurrentField(field) => store_current_field(heap, inst, receiver, field),
        DecodedOp::MakeArray(len, element) => make_array(heap, inst, len, element),
        DecodedOp::MakeTable(entries, element) => make_table(heap, inst, entries, element),
        DecodedOp::MakeStruct(layout) => make_struct(heap, inst, layout),
        DecodedOp::MakeTensor(init, element, rank) => make_tensor(heap, inst, init, element, rank),
        DecodedOp::Index => load_index(heap, inst),
        DecodedOp::TensorIndex(element, rank) => load_item(heap, inst, Some(element), rank),
        DecodedOp::TensorIndexF32(rank) => load_item(heap, inst, None, rank),
        DecodedOp::TableIndex => load_table_index(heap, inst),
        DecodedOp::TableKeys => make_table_keys(heap, inst),
        DecodedOp::TableKeysIndex => load_key(heap, inst),
        DecodedOp::TableRemove => remove_table_entry(heap, inst),
        DecodedOp::Field(field) => load_field(heap, inst, field),
        DecodedOp::TableField(name) => load_table_field(heap, inst, name),
        DecodedOp::ModuleField(_) => Ok(Flow::Next),
        DecodedOp::Binary(op) => binary(heap, inst, &op),
        DecodedOp::Unary(op, ty) => unary(heap, inst, &op, ty),
        DecodedOp::Len => len(heap, inst),
        DecodedOp::ConcatString => concat_string(heap, inst),
        DecodedOp::Builtin1(function, _) => builtin1(heap, inst, function),
        DecodedOp::Builtin2(function, ty) => builtin2(heap, inst, function, ty),
        DecodedOp::CallExternal(name, count) => call_external(heap, inst, name, count),
        DecodedOp::JumpIfFalse(target) => jump_if_false(heap, inst, target),
        DecodedOp::Jump(target) => Ok(Flow::Goto(target)),
        DecodedOp::JumpIfFalseKeep(target) => jump_keep(heap, inst, target, false),
        DecodedOp::JumpIfTrueKeep(target) => jump_keep(heap, inst, target, true),
        DecodedOp::CallMethod(slot, target) => Ok(Flow::Call { receiver: slot, target }),
        DecodedOp::CallCurrentMethod(target) => match receiver {
            None => Err(runtime_error("this is available only inside a method")),
            Some(slot) => Ok(Flow::Call { receiver: slot, target }),
        },
        DecodedOp::CallModule(slot, name) => call_module(heap, inst, slot, name),
        DecodedOp::Return => Ok(Flow::Return),
        DecodedOp::Print => print(heap, inst),
        DecodedOp::Printf(count) => printf(heap, inst, count),
        DecodedOp::Putc => putc(heap, inst),
        DecodedOp::Cast(ty) => cast(heap, inst, ty),
        DecodedOp::TrackDestructor(slot, target) => track_destructor(heap, inst, slot, target),
        DecodedOp::UntrackDestructor(slot) => untrack_destructor(heap, inst, slot),
        DecodedOp::PushFloat(text, ty) => Ok(
            Flow::Ask(
                Request::Float(FloatRequest::Parse { text: (**text).clone(), ty: (**ty).clone() }),
                Pending::Push { settle: false },
            ),
        ),
    }
}

fn read_module_value(
    instances: &Vec<Instance>,
    at: usize,
    id: &String,
    name: &String,
) -> (r: Result<Value, Error>)
    requires
        at < instances@.len(),
    ensures
        gave(
            r,
            module_value(views(instances@), instances@[at as int]@, id@, name@),
        ),
{
    assert(views(instances@).len() == instances@.len());
    match instances[at].modules.get(id) {
        None => Err(runtime_error("loaded module is missing")),
        Some(module) => {
            let artifact = &module.artifact;
            assert((**artifact)@.exports == views(artifact.exports@));
            match export_named(&artifact.exports, name) {
                None => Err(
                    Error::Runtime(cat3("module has no exported value '", name.as_str(), "'")),
                ),
                Some(ModuleExport::Value { slot, .. }) => {
                    if module.instance >= instances.len() {
                        return Err(runtime_error("loaded module is missing"));
                    }
                    assert(views(instances@)[module.instance as int]
                        == instances@[module.instance as int]@);
                    let value = local_value(
                        &instances[module.instance],
                        *slot,
                        "invalid module export slot",
                    )?;
                    Ok(value.clone())
                },
                Some(_) => Err(
                    Error::Runtime(cat3("'", name.as_str(), "' is not an exported module value")),
                ),
            }
        },
    }
}

/// Whether an instruction of instance `at` had an effect.
pub open spec fn done_at(
    r: Result<Flow, Error>,
    h: HeapView,
    before: Seq<Instance>,
    after: Seq<Instance>,
    at: int,
    e: Effect,
) -> bool {
    &&& after.len() == before.len()
    &&& same(views(after), views(before).update(at, after[at]@))
    &&& done(r, h, after[at]@, e)
}

fn module_field(
    heap: &Heap,
    instances: &mut Vec<Instance>,
    at: usize,
    name: &String,
) -> (r: Result<Flow, Error>)
    requires
        at < old(instances)@.len(),
    ensures
        done_at(
            r,
            heap@,
            old(instances)@,
            final(instances)@,
            at as int,
            module_field_op(
                heap@,
                views(old(instances)@),
                old(instances)@[at as int]@,
                name@,
            ),
        ),
{
    let ghost before = instances@;
    let inst = &mut instances[at];
    match inst.pop() {
        Err(e) => {
            assert(views(before).update(at as int, instances@[at as int]@) =~= views(instances@));
            Err(e)
        },
        Ok(Value::Module(id)) => {
            proof {
                assert(views(instances@) =~= views(before).update(
                    at as int,
                    instances@[at as int]@,
                ));
                lemma_module_value(
                    views(before),
                    views(instances@),
                    at as int,
                    instances@[at as int]@,
                    id@,
                    name@,
                );
            }
            let value = read_module_value(instances, at, &id, name)?;
            let ghost middle = instances@;
            instances[at].push(value);
            assert(views(instances@) =~= views(before).update(at as int, instances@[at as int]@));
            Ok(Flow::Next)
        },
        Ok(_) => {
            assert(views(instances@) =~= views(before).update(at as int, instances@[at as int]@));
            Err(runtime_error("VM module invariant broken"))
        },
    }
}

/// A change that keeps every local keeps what modules offer.
proof fn lemma_module_value(
    before: Seq<InstanceView>,
    after: Seq<InstanceView>,
    at: int,
    i: InstanceView,
    id: Seq<char>,
    name: Seq<char>,
)
    requires
        0 <= at < before.len(),
        after == before.update(at, i),
        i.locals == before[at].locals,
    ensures
        module_value(before, i, id, name) == module_value(after, i, id, name),
{
}

fn call_module(heap: &Heap, inst: &Instance, slot: usize, name: &String) -> (r: Result<Flow, Error>)
    ensures
        done(r, heap@, inst@, call_module_op(heap@, inst@, slot, name@)),
{
    match local_value(inst, slot, "invalid module slot")? {
        Value::Module(id) => match inst.modules.get(id) {
            None => Err(runtime_error("loaded module is missing")),
            Some(module) => {
                let artifact = &module.artifact;
                assert((**artifact)@.exports == views(artifact.exports@));
                match export_named(&artifact.exports, name) {
                    None => Err(
                        Error::Runtime(
                            cat3("module has no exported function '", name.as_str(), "'"),
                        ),
                    ),
                    Some(ModuleExport::Function { entry }) => Ok(
                        Flow::Enter {
                            instance: module.instance,
                            code: artifact.code.clone(),
                            entry: *entry,
                        },
                    ),
                    Some(_) => Err(
                        Error::Runtime(
                            cat3("'", name.as_str(), "' is not an exported module function"),
                        ),
                    ),
                }
            },
        },
        _ => Err(runtime_error("VM module slot invariant broken")),
    }
}

/// Carries out an instruction of instance `at`.
pub fn perform(
    heap: &mut Heap,
    instances: &mut Vec<Instance>,
    at: usize,
    receiver: Option<usize>,
    op: DecodedOp<'_>,
) -> (r: Result<Flow, Error>)
    requires
        old(heap).wf(),
        at < old(instances)@.len(),
    ensures
        final(heap).wf(),
        grown(*old(heap), *final(heap)),
        done_at(
            r,
            final(heap)@,
            old(instances)@,
            final(instances)@,
            at as int,
            effect(
                old(heap)@,
                views(old(instances)@),
                old(instances)@[at as int]@,
                receiver,
                op@,
            ),
        ),
{
    let ghost before = instances@;
    match op {
        DecodedOp::ModuleField(name) => module_field(heap, instances, at, name),
        _ => {
            let ghost all = views(before);
            let r = perform_alone(heap, &mut instances[at], receiver, op, Ghost(all));
            assert(views(instances@) =~= views(before).update(at as int, instances@[at as int]@));
            r
        },
    }
}

/// Carries on with the answer to a request.
#[verifier::spinoff_prover]
#[verifier::rlimit(30)]
pub fn take_answer(
    heap: &mut Heap,
    inst: &mut Instance,
    request: &Request,
    pending: Pending,
    answer: Answer,
) -> (r: Result<Flow, Error>)
    requires
        old(heap).wf(),
    ensures
        final(heap).wf(),
        grown(*old(heap), *final(heap)),
        done(
            r,
            final(heap)@,
            final(inst)@,
            answered(old(heap)@, old(inst)@, request@, pending@, answer@),
        ),
{
    match pending {
        Pending::Push { settle } => match answer {
            Answer::Value(value) => {
                inst.push(value);
                Ok(
                    if settle {
                        Flow::Settle
                    } else {
                        Flow::Next
                    },
                )
            },
            _ => Err(
                Error::Runtime(
                    cat2(
                        "invalid float: ",
                        match request {
                            Request::Float(FloatRequest::Parse { text, .. }) => text.as_str(),
                            _ => "",
                        },
                    ),
                ),
            ),
        },
        Pending::Print { pieces, line } => {
            if let Answer::Texts(texts) = answer {
                let text = assemble(&pieces, &texts);
                inst.show(text, line);
            }
            Ok(Flow::Next)
        },
        Pending::Read { ty } => match answer {
            Answer::Line(line) => read_line(heap, inst, &line, &ty),
            Answer::Unreadable(reason) => Err(
                Error::Runtime(cat2("failed to read input: ", reason.as_str())),
            ),
            _ => Err(runtime_error("input ended before a value was read")),
        },
        Pending::Host { name, result, base } => match answer {
            Answer::Host(Err(e)) => Err(e),
            Answer::Host(Ok(value)) => host_result(heap, inst, &name, &result, base, value),
            Answer::C { status, results } => {
                assert(views(results@).len() == results@.len());
                if status != 0 {
                    inst.cut(base);
                    return Err(
                        Error::Runtime(
                            cat4(
                                "C function '",
                                name.as_str(),
                                "' failed with status ",
                                decimal_text(status as i128).as_str(),
                            ),
                        ),
                    );
                }
                if results.len() != 1 {
                    inst.cut(base);
                    return Err(
                        Error::Runtime(
                            cat3(
                                "C function '",
                                name.as_str(),
                                "' must push exactly one result",
                            ),
                        ),
                    );
                }
                assert(views(results@)[0] == results@[0]@);
                host_result(heap, inst, &name, &result, base, results[0].clone())
            },
            _ => Ok(Flow::Next),
        },
        Pending::Return { base } => {
            let ghost before = inst@;
            match answer {
                Answer::Value(value) => {
                    let flow = return_value(inst, base, value);
                    assert(same(
                        returned(heap@, before, base, value@),
                        Effect { heap: heap@, inst: inst@, flow: flow@ },
                    ));
                    Ok(flow)
                },
                _ => Ok(Flow::Next),
            }
        },
        Pending::Tensor { element, shape, rank } => match answer {
            Answer::Units(values) => {
                let bytes = pack_values(&values, &element, 0)?;
                Ok(finish_tensor(heap, inst, bytes, &element, shape, rank))
            },
            _ => Ok(Flow::Next),
        },
    }
}

} // verus!
