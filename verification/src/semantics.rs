//! What each instruction does.
use vstd::prelude::*;
use crate::code::{ArtifactView, CodeView, EntryView, ExportView};
use crate::codegen::{SignatureView, find_export};
use crate::format::{PieceView, assembled, floats_in, printf_pieces, value_pieces};
use crate::heap::{ObjectView, lowest_free, object_at, with_object};
use crate::instance::{
    ActiveDestructor, AnswerView, ExternalFunction, InstanceView, PendingView, RegisteredView,
    RequestView, cut, dropped, pushed, registered, shown, underflow,
};
use crate::ir::OpView;
use crate::numeric::{
    FloatView, OutcomeView, binary_result, builtin1_result, builtin2_result, cast_result,
    unary_result,
};
use crate::ops::{BinOp, TensorInit};
use crate::scalar::{decoded, packed, packed_array, written};
use crate::text::{decimal, line_content, parsed_integer, trimmed};
use crate::types::{
    ErrorView, TypeView, compatible, float_type, integer_type, numeric_type, scalar_size_of,
    type_text,
};
use crate::value::{
    FieldView, HeapRef, LayoutView, TableKeyView, ValueView, index_of, int_of, int_value_of,
    key_text, type_of,
};

verus! {

/// The objects of a heap by slot.
pub type HeapView = Seq<Option<ObjectView>>;

/// Where a program goes on after an instruction.
pub enum FlowView {
    /// At the next instruction.
    Next,
    /// At the next instruction, once unreachable objects may have been freed.
    Settle,
    Goto(usize),
    Call { receiver: usize, target: usize },
    Return,
    Fail(ErrorView),
    /// At the next instruction, once a request is answered.
    Ask(RequestView, PendingView),
    /// At the next instruction, once a module has run.
    Load(ArtifactView),
    /// At the next instruction, once a module's function has run.
    Enter { instance: usize, code: CodeView, entry: usize },
}

/// What an instruction leaves behind.
pub struct Effect {
    pub heap: HeapView,
    pub inst: InstanceView,
    pub flow: FlowView,
}

pub open spec fn next(h: HeapView, i: InstanceView) -> Effect {
    Effect { heap: h, inst: i, flow: FlowView::Next }
}

pub open spec fn flows(h: HeapView, i: InstanceView, flow: FlowView) -> Effect {
    Effect { heap: h, inst: i, flow }
}

pub open spec fn failed(h: HeapView, i: InstanceView, e: ErrorView) -> Effect {
    Effect { heap: h, inst: i, flow: FlowView::Fail(e) }
}

pub open spec fn broken(h: HeapView, i: InstanceView, message: Seq<char>) -> Effect {
    failed(h, i, ErrorView::Runtime(message))
}

pub open spec fn push_next(h: HeapView, i: InstanceView, v: ValueView) -> Effect {
    next(h, pushed(i, v))
}

/// A value pushed, or a failure.
pub open spec fn push_result(
    h: HeapView,
    i: InstanceView,
    r: Result<ValueView, ErrorView>,
) -> Effect {
    match r {
        Ok(v) => push_next(h, i, v),
        Err(e) => failed(h, i, e),
    }
}

/// A changed heap, or a failure.
pub open spec fn store_result(
    h: HeapView,
    i: InstanceView,
    r: Result<HeapView, ErrorView>,
) -> Effect {
    match r {
        Ok(h1) => next(h1, i),
        Err(e) => failed(h, i, e),
    }
}

/// A computed value pushed, once its floating-point part is done.
pub open spec fn push_outcome(
    h: HeapView,
    i: InstanceView,
    r: Result<OutcomeView, ErrorView>,
) -> Effect {
    match r {
        Err(e) => failed(h, i, e),
        Ok(outcome) => match outcome {
            OutcomeView::Value(v) => push_next(h, i, v),
            OutcomeView::Float(f) => flows(
                h,
                i,
                FlowView::Ask(RequestView::Float(f), PendingView::Push { settle: false }),
            ),
        },
    }
}

/// The slot that the next object is put into.
pub open spec fn fresh(h: HeapView) -> HeapRef {
    HeapRef(lowest_free(h, 0) as usize)
}

/// A new object whose reference is pushed as `v`.
pub open spec fn made(h: HeapView, i: InstanceView, object: ObjectView, v: ValueView) -> Effect {
    Effect { heap: with_object(h, object), inst: pushed(i, v), flow: FlowView::Settle }
}

pub open spec fn made_string(h: HeapView, i: InstanceView, text: Seq<char>) -> Effect {
    made(h, i, ObjectView::String(text), ValueView::String(fresh(h)))
}

/// The locals after a value was stored, grown where needed.
pub open spec fn stored(locals: Seq<ValueView>, slot: usize, v: ValueView) -> Seq<ValueView> {
    let n = if slot < locals.len() {
        locals.len()
    } else {
        slot as nat + 1
    };
    Seq::new(
        n,
        |k: int|
            if k == slot {
                v
            } else if k < locals.len() {
                locals[k]
            } else {
                ValueView::Bool(false)
            },
    )
}

pub open spec fn store_op(h: HeapView, i: InstanceView, slot: usize) -> Effect {
    if i.stack.len() == 0 {
        failed(h, i, underflow())
    } else if slot == usize::MAX {
        broken(h, dropped(i), "invalid local slot"@)
    } else {
        next(h, InstanceView { locals: stored(i.locals, slot, i.stack.last()), ..dropped(i) })
    }
}

pub open spec fn local(
    i: InstanceView,
    slot: usize,
    message: Seq<char>,
) -> Result<ValueView, ErrorView> {
    if slot < i.locals.len() {
        Ok(i.locals[slot as int])
    } else {
        Err(ErrorView::Runtime(message))
    }
}

/// The value that a method works on.
pub open spec fn receiver_value(
    i: InstanceView,
    receiver: Option<usize>,
    outside: Seq<char>,
) -> Result<ValueView, ErrorView> {
    match receiver {
        None => Err(ErrorView::Runtime(outside)),
        Some(slot) => local(i, slot, "invalid method receiver"@),
    }
}

/// The struct that a method works on.
pub open spec fn receiver_ref(
    i: InstanceView,
    receiver: Option<usize>,
    outside: Seq<char>,
) -> Result<HeapRef, ErrorView> {
    match receiver_value(i, receiver, outside) {
        Err(e) => Err(e),
        Ok(v) => match v {
            ValueView::Struct(r, _) => Ok(r),
            _ => Err(ErrorView::Runtime("VM method receiver invariant broken"@)),
        },
    }
}

pub open spec fn array_ref(i: InstanceView, slot: usize) -> Result<HeapRef, ErrorView> {
    match local(i, slot, "invalid local slot"@) {
        Err(e) => Err(e),
        Ok(v) => match v {
            ValueView::Array(r, _) => Ok(r),
            _ => Err(ErrorView::Runtime("VM array slot invariant broken"@)),
        },
    }
}

pub open spec fn table_ref(i: InstanceView, slot: usize) -> Result<HeapRef, ErrorView> {
    match local(i, slot, "invalid local slot"@) {
        Err(e) => Err(e),
        Ok(v) => match v {
            ValueView::Table(r, _) => Ok(r),
            _ => Err(ErrorView::Runtime("VM table slot invariant broken"@)),
        },
    }
}

pub open spec fn tensor_ref(i: InstanceView, slot: usize) -> Result<HeapRef, ErrorView> {
    match local(i, slot, "invalid local slot"@) {
        Err(e) => Err(e),
        Ok(v) => match v {
            ValueView::Tensor(r, _) => Ok(r),
            _ => Err(ErrorView::Runtime("VM tensor slot invariant broken"@)),
        },
    }
}

pub open spec fn struct_ref(i: InstanceView, slot: usize) -> Result<HeapRef, ErrorView> {
    match local(i, slot, "invalid local slot"@) {
        Err(e) => Err(e),
        Ok(v) => match v {
            ValueView::Struct(r, _) => Ok(r),
            _ => Err(ErrorView::Runtime("VM struct slot invariant broken"@)),
        },
    }
}

/// A field of a struct in the heap.
pub open spec fn field_at(h: HeapView, r: HeapRef, index: usize) -> Result<ValueView, ErrorView> {
    match object_at(h, r) {
        Err(e) => Err(e),
        Ok(object) => match object {
            ObjectView::Struct { values, .. } => if index < values.len() {
                Ok(values[index as int])
            } else {
                Err(ErrorView::Runtime("invalid struct field index"@))
            },
            _ => Err(ErrorView::Runtime("struct heap invariant broken"@)),
        },
    }
}

/// The heap after a field of a struct was set.
pub open spec fn with_field(
    h: HeapView,
    r: HeapRef,
    index: usize,
    v: ValueView,
) -> Result<HeapView, ErrorView> {
    match object_at(h, r) {
        Err(e) => Err(e),
        Ok(object) => match object {
            ObjectView::Struct { values, layout } => if index < values.len() {
                Ok(
                    h.update(
                        r.0 as int,
                        Some(
                            ObjectView::Struct { values: values.update(index as int, v), layout },
                        ),
                    ),
                )
            } else {
                Err(ErrorView::Runtime("invalid struct field index"@))
            },
            _ => Err(ErrorView::Runtime("struct heap invariant broken"@)),
        },
    }
}

/// The heap after an item of a vector was set.
pub open spec fn with_cell(
    h: HeapView,
    r: HeapRef,
    index: usize,
    v: ValueView,
    element: TypeView,
) -> Result<HeapView, ErrorView> {
    match object_at(h, r) {
        Err(e) => Err(e),
        Ok(object) => match object {
            ObjectView::Array { bytes, element: stored } => match written(
                bytes,
                index,
                v,
                element,
            ) {
                Err(e) => Err(e),
                Ok(changed) => Ok(
                    h.update(
                        r.0 as int,
                        Some(ObjectView::Array { bytes: changed, element: stored }),
                    ),
                ),
            },
            _ => Err(ErrorView::Runtime("array heap invariant broken"@)),
        },
    }
}

/// The heap after an entry of a table was set.
pub open spec fn with_entry(
    h: HeapView,
    r: HeapRef,
    key: TableKeyView,
    v: ValueView,
) -> Result<HeapView, ErrorView> {
    match object_at(h, r) {
        Err(e) => Err(e),
        Ok(object) => match object {
            ObjectView::Table { entries, element } => Ok(
                h.update(
                    r.0 as int,
                    Some(ObjectView::Table { entries: entries.insert(key, v), element }),
                ),
            ),
            _ => Err(ErrorView::Runtime("table heap invariant broken"@)),
        },
    }
}

/// A value as a table key.
pub open spec fn key_of(h: HeapView, v: ValueView) -> Result<TableKeyView, ErrorView> {
    match v {
        ValueView::TableKey(key) => Ok(key),
        ValueView::String(r) => match object_at(h, r) {
            Err(e) => Err(e),
            Ok(object) => match object {
                ObjectView::String(text) => Ok(TableKeyView::Name(text)),
                _ => Err(ErrorView::Runtime("string heap invariant broken"@)),
            },
        },
        _ => match int_of(v) {
            Some(n) => Ok(TableKeyView::Index(n as i128)),
            None => Err(ErrorView::Runtime("table key must be an integer or string"@)),
        },
    }
}

/// Indices popped from the stack, the last one first.
pub open spec fn popped_indices(i: InstanceView, rank: nat, acc: Seq<usize>) -> (
    InstanceView,
    Result<Seq<usize>, ErrorView>,
)
    decreases rank,
{
    if rank == 0 {
        (i, Ok(acc))
    } else if i.stack.len() == 0 {
        (i, Err(underflow()))
    } else {
        match index_of(i.stack.last()) {
            Err(e) => (dropped(i), Err(e)),
            Ok(n) => popped_indices(dropped(i), (rank - 1) as nat, seq![n] + acc),
        }
    }
}

/// Values popped from the stack, the last one first.
pub open spec fn popped_values(i: InstanceView, count: nat, acc: Seq<ValueView>) -> (
    InstanceView,
    Result<Seq<ValueView>, ErrorView>,
)
    decreases count,
{
    if count == 0 {
        (i, Ok(acc))
    } else if i.stack.len() == 0 {
        (i, Err(underflow()))
    } else {
        popped_values(dropped(i), (count - 1) as nat, seq![i.stack.last()] + acc)
    }
}

/// The row-major position of an item, from dimension `k` on.
pub open spec fn offset_from(
    offset: int,
    shape: Seq<usize>,
    indices: Seq<usize>,
    k: int,
) -> Result<usize, ErrorView>
    decreases shape.len() - k,
{
    if k < 0 || k >= shape.len() || k >= indices.len() {
        Ok(offset as usize)
    } else if indices[k] >= shape[k] {
        Err(
            ErrorView::Runtime(
                "tensor index "@ + decimal(indices[k] as int) + " is out of bounds for dimension "@
                    + decimal(shape[k] as int),
            ),
        )
    } else if offset * shape[k] > usize::MAX || offset * shape[k] + indices[k] > usize::MAX {
        Err(ErrorView::Runtime("tensor index is too large"@))
    } else {
        offset_from(offset * shape[k] + indices[k], shape, indices, k + 1)
    }
}

/// The row-major position of an item of a tensor.
pub open spec fn offset_of(shape: Seq<usize>, indices: Seq<usize>) -> Result<usize, ErrorView> {
    if shape.len() != indices.len() {
        Err(
            ErrorView::Runtime(
                "tensor rank "@ + decimal(shape.len() as int) + " requires "@ + decimal(
                    shape.len() as int,
                ) + " index(es)"@,
            ),
        )
    } else {
        offset_from(0, shape, indices, 0)
    }
}

/// The product of the dimensions from `k` on.
pub open spec fn volume(shape: Seq<usize>, k: int) -> int
    decreases shape.len() - k,
{
    if k < 0 || k >= shape.len() {
        1
    } else {
        shape[k] * volume(shape, k + 1)
    }
}

/// The number of items of a shape, from dimension `k` on.
pub open spec fn count_from(total: int, shape: Seq<usize>, k: int) -> Result<usize, ErrorView>
    decreases shape.len() - k,
{
    if k < 0 || k >= shape.len() {
        Ok(total as usize)
    } else if total * shape[k] > usize::MAX {
        Err(ErrorView::Runtime("tensor is too large"@))
    } else {
        count_from(total * shape[k], shape, k + 1)
    }
}

pub open spec fn store_index_op(
    h: HeapView,
    i: InstanceView,
    slot: usize,
    element: TypeView,
) -> Effect {
    if i.stack.len() == 0 {
        failed(h, i, underflow())
    } else {
        let value = i.stack.last();
        let i1 = dropped(i);
        if i1.stack.len() == 0 {
            failed(h, i1, underflow())
        } else {
            let i2 = dropped(i1);
            match index_of(i1.stack.last()) {
                Err(e) => failed(h, i2, e),
                Ok(index) => match array_ref(i2, slot) {
                    Err(e) => failed(h, i2, e),
                    Ok(r) => store_result(h, i2, with_cell(h, r, index, value, element)),
                },
            }
        }
    }
}

pub open spec fn store_table_index_op(h: HeapView, i: InstanceView, slot: usize) -> Effect {
    if i.stack.len() == 0 {
        failed(h, i, underflow())
    } else {
        let value = i.stack.last();
        let i1 = dropped(i);
        if i1.stack.len() == 0 {
            failed(h, i1, underflow())
        } else {
            let i2 = dropped(i1);
            match key_of(h, i1.stack.last()) {
                Err(e) => failed(h, i2, e),
                Ok(key) => match table_ref(i2, slot) {
                    Err(e) => failed(h, i2, e),
                    Ok(r) => store_result(h, i2, with_entry(h, r, key, value)),
                },
            }
        }
    }
}

/// The heap after an item of a tensor was set.
pub open spec fn with_item(
    h: HeapView,
    r: HeapRef,
    indices: Seq<usize>,
    v: ValueView,
    element: TypeView,
    rank: usize,
) -> Result<HeapView, ErrorView> {
    match object_at(h, r) {
        Err(e) => Err(e),
        Ok(object) => match object {
            ObjectView::Tensor { bytes, element: stored, shape } => if shape.len() != rank {
                Err(ErrorView::Runtime("tensor heap invariant broken"@))
            } else {
                match offset_of(shape, indices) {
                    Err(e) => Err(e),
                    Ok(offset) => match written(bytes, offset, v, element) {
                        Err(e) => Err(e),
                        Ok(changed) => Ok(
                            h.update(
                                r.0 as int,
                                Some(ObjectView::Tensor { bytes: changed, element: stored, shape }),
                            ),
                        ),
                    },
                }
            },
            _ => Err(ErrorView::Runtime("tensor heap invariant broken"@)),
        },
    }
}

/// Why a single-precision item does not lie in a buffer.
pub open spec fn single_fault(len: int, offset: usize) -> Option<ErrorView> {
    if offset * 4 > usize::MAX {
        Some(ErrorView::Runtime("tensor offset is too large"@))
    } else if offset * 4 + 4 > len {
        Some(ErrorView::Runtime("tensor offset out of bounds"@))
    } else {
        None
    }
}

/// The heap after a single-precision item of a tensor was set. A value of
/// another type leaves it as it is.
pub open spec fn with_single(
    h: HeapView,
    r: HeapRef,
    indices: Seq<usize>,
    v: ValueView,
) -> Result<HeapView, ErrorView> {
    match object_at(h, r) {
        Err(e) => Err(e),
        Ok(object) => match object {
            ObjectView::Tensor { bytes, element, shape } => match offset_of(shape, indices) {
                Err(e) => Err(e),
                Ok(offset) => match single_fault(bytes.len() as int, offset) {
                    Some(e) => Err(e),
                    None => match written(bytes, offset, v, TypeView::F32) {
                        Err(_) => Ok(h),
                        Ok(changed) => Ok(
                            h.update(
                                r.0 as int,
                                Some(ObjectView::Tensor { bytes: changed, element, shape }),
                            ),
                        ),
                    },
                },
            },
            _ => Err(ErrorView::Runtime("tensor heap invariant broken"@)),
        },
    }
}

/// An item of a tensor set: its element type where that is checked, and rank.
pub open spec fn store_item_op(
    h: HeapView,
    i: InstanceView,
    slot: usize,
    element: Option<TypeView>,
    rank: usize,
) -> Effect {
    if i.stack.len() == 0 {
        failed(h, i, underflow())
    } else {
        let value = i.stack.last();
        let (i1, indices) = popped_indices(dropped(i), rank as nat, Seq::empty());
        match indices {
            Err(e) => failed(h, i1, e),
            Ok(indices) => match tensor_ref(i1, slot) {
                Err(e) => failed(h, i1, e),
                Ok(r) => match element {
                    Some(t) => store_result(h, i1, with_item(h, r, indices, value, t, rank)),
                    None => store_result(h, i1, with_single(h, r, indices, value)),
                },
            },
        }
    }
}

pub open spec fn store_field_op(
    h: HeapView,
    i: InstanceView,
    slot: usize,
    field: FieldView,
) -> Effect {
    if i.stack.len() == 0 {
        failed(h, i, underflow())
    } else {
        match struct_ref(dropped(i), slot) {
            Err(e) => failed(h, dropped(i), e),
            Ok(r) => store_result(h, dropped(i), with_field(h, r, field.index, i.stack.last())),
        }
    }
}

/// The vector in a field of a struct.
pub open spec fn vector_field(h: HeapView, r: HeapRef, index: usize) -> Result<HeapRef, ErrorView> {
    match object_at(h, r) {
        Err(e) => Err(e),
        Ok(object) => match object {
            ObjectView::Struct { values, .. } => if index < values.len()
                && values[index as int] is Array {
                Ok(values[index as int]->Array_0)
            } else {
                Err(ErrorView::Runtime("VM struct vector field invariant broken"@))
            },
            _ => Err(ErrorView::Runtime("struct heap invariant broken"@)),
        },
    }
}

pub open spec fn store_field_index_op(
    h: HeapView,
    i: InstanceView,
    slot: usize,
    field: FieldView,
    element: TypeView,
) -> Effect {
    if i.stack.len() == 0 {
        failed(h, i, underflow())
    } else {
        let value = i.stack.last();
        let i1 = dropped(i);
        if i1.stack.len() == 0 {
            failed(h, i1, underflow())
        } else {
            let i2 = dropped(i1);
            match index_of(i1.stack.last()) {
                Err(e) => failed(h, i2, e),
                Ok(index) => match struct_ref(i2, slot) {
                    Err(e) => failed(h, i2, e),
                    Ok(r) => match vector_field(h, r, field.index) {
                        Err(e) => failed(h, i2, e),
                        Ok(array) => store_result(
                            h,
                            i2,
                            with_cell(h, array, index, value, element),
                        ),
                    },
                },
            }
        }
    }
}

pub open spec fn store_table_field_op(
    h: HeapView,
    i: InstanceView,
    slot: usize,
    name: Seq<char>,
) -> Effect {
    if i.stack.len() == 0 {
        failed(h, i, underflow())
    } else {
        match table_ref(dropped(i), slot) {
            Err(e) => failed(h, dropped(i), e),
            Ok(r) => store_result(
                h,
                dropped(i),
                with_entry(h, r, TableKeyView::Name(name), i.stack.last()),
            ),
        }
    }
}

pub open spec fn store_current_field_op(
    h: HeapView,
    i: InstanceView,
    receiver: Option<usize>,
    field: FieldView,
) -> Effect {
    if i.stack.len() == 0 {
        failed(h, i, underflow())
    } else {
        match receiver_ref(dropped(i), receiver, "field assignment outside method"@) {
            Err(e) => failed(h, dropped(i), e),
            Ok(r) => store_result(h, dropped(i), with_field(h, r, field.index, i.stack.last())),
        }
    }
}

pub open spec fn load_current_field_op(
    h: HeapView,
    i: InstanceView,
    receiver: Option<usize>,
    field: FieldView,
) -> Effect {
    match receiver_ref(i, receiver, "field access outside method"@) {
        Err(e) => failed(h, i, e),
        Ok(r) => push_result(h, i, field_at(h, r, field.index)),
    }
}

pub open spec fn make_array_op(
    h: HeapView,
    i: InstanceView,
    len: usize,
    element: TypeView,
) -> Effect {
    if i.stack.len() < len {
        failed(h, i, underflow())
    } else {
        let at = i.stack.len() - len;
        let i1 = cut(i, at);
        match packed_array(i.stack.skip(at), element) {
            Err(e) => failed(h, i1, e),
            Ok(bytes) => made(
                h,
                i1,
                ObjectView::Array { bytes, element },
                ValueView::Array(fresh(h), element),
            ),
        }
    }
}

pub open spec fn make_struct_op(h: HeapView, i: InstanceView, layout: LayoutView) -> Effect {
    if i.stack.len() < layout.fields.len() {
        failed(h, i, underflow())
    } else {
        let at = i.stack.len() - layout.fields.len();
        made(
            h,
            cut(i, at),
            ObjectView::Struct { values: i.stack.skip(at), layout },
            ValueView::Struct(fresh(h), layout),
        )
    }
}

/// How many values the entries of a table literal take, from `k` on.
pub open spec fn entry_values(entries: Seq<EntryView>, k: int) -> nat
    decreases entries.len() - k,
{
    if k < 0 || k >= entries.len() {
        0
    } else {
        (if entries[k] is Index {
            2nat
        } else {
            1nat
        }) + entry_values(entries, k + 1)
    }
}

/// The entries of a table literal from `k` on, with the values from `c` on.
pub open spec fn table_from(
    h: HeapView,
    table: Map<TableKeyView, ValueView>,
    entries: Seq<EntryView>,
    k: int,
    values: Seq<ValueView>,
    c: int,
) -> Result<Map<TableKeyView, ValueView>, ErrorView>
    decreases entries.len() - k,
{
    if k < 0 || k >= entries.len() {
        Ok(table)
    } else {
        let key = match entries[k] {
            EntryView::Index => if c < values.len() {
                key_of(h, values[c])
            } else {
                Err(underflow())
            },
            EntryView::Name(name) => Ok(TableKeyView::Name(name)),
        };
        let at = if entries[k] is Index {
            c + 1
        } else {
            c
        };
        match key {
            Err(e) => Err(e),
            Ok(key) => if at >= values.len() {
                Err(underflow())
            } else if table.contains_key(key) {
                Err(
                    ErrorView::Runtime(
                        "table key "@ + key_text(key) + " is declared more than once"@,
                    ),
                )
            } else {
                table_from(h, table.insert(key, values[at]), entries, k + 1, values, at + 1)
            },
        }
    }
}

pub open spec fn make_table_op(
    h: HeapView,
    i: InstanceView,
    entries: Seq<EntryView>,
    element: TypeView,
) -> Effect {
    let count = entry_values(entries, 0);
    if i.stack.len() < count {
        failed(h, i, underflow())
    } else {
        let at = i.stack.len() - count;
        let i1 = cut(i, at);
        match table_from(h, Map::empty(), entries, 0, i.stack.skip(at), 0) {
            Err(e) => failed(h, i1, e),
            Ok(table) => made(
                h,
                i1,
                ObjectView::Table { entries: table, element },
                ValueView::Table(fresh(h), element),
            ),
        }
    }
}

/// The numbers of a packed shape from `k` on.
pub open spec fn shape_from(
    bytes: Seq<u8>,
    acc: Seq<usize>,
    k: int,
) -> Result<Seq<usize>, ErrorView>
    decreases bytes.len() / 8 - k,
{
    if k < 0 || k >= bytes.len() / 8 {
        Ok(acc)
    } else {
        match decoded(bytes, k as usize, TypeView::U64) {
            Err(e) => Err(e),
            Ok(v) => match v {
                ValueView::U64(n) => if n > usize::MAX {
                    Err(ErrorView::Runtime("tensor dimension is too large"@))
                } else {
                    shape_from(bytes, acc.push(n as usize), k + 1)
                },
                _ => Err(ErrorView::Runtime("tensor shape heap invariant broken"@)),
            },
        }
    }
}

/// The shape that a value holds.
pub open spec fn shape_of(h: HeapView, v: ValueView) -> Result<Seq<usize>, ErrorView> {
    match v {
        ValueView::Array(r, element) => if element != TypeView::U64 {
            Err(ErrorView::Runtime("tensor shape must be vector<u64>"@))
        } else {
            match object_at(h, r) {
                Err(e) => Err(e),
                Ok(object) => match object {
                    ObjectView::Array { bytes, element: stored } => if stored != TypeView::U64 {
                        Err(ErrorView::Runtime("tensor shape heap invariant broken"@))
                    } else {
                        shape_from(bytes, Seq::empty(), 0)
                    },
                    _ => Err(ErrorView::Runtime("tensor shape heap invariant broken"@)),
                },
            }
        },
        _ => Err(ErrorView::Runtime("tensor shape must be vector<u64>"@)),
    }
}

/// The next state of the random numbers.
pub open spec fn next_random(state: u64) -> u64 {
    let a = state ^ (state << 13u64);
    let b = a ^ (a >> 7u64);
    b ^ (b << 17u64)
}

/// The state after a number of draws.
pub open spec fn random_after(state: u64, count: nat) -> u64
    decreases count,
{
    if count == 0 {
        state
    } else {
        next_random(random_after(state, (count - 1) as nat))
    }
}

/// Random numbers of 53 bits.
pub open spec fn random_draws(state: u64, count: nat) -> Seq<u64> {
    Seq::new(count, |k: int| random_after(state, (k + 1) as nat) >> 11u64)
}

/// How the bytes of a new tensor come about.
pub enum BytesView {
    /// All zero, so many.
    Zeros(usize),
    /// So many random numbers.
    Random(usize),
}

pub open spec fn tensor_bytes(
    init: TensorInit,
    element: TypeView,
    shape: Seq<usize>,
) -> Result<BytesView, ErrorView> {
    match scalar_size_of(element) {
        Err(e) => Err(e),
        Ok(size) => match count_from(1, shape, 0) {
            Err(e) => Err(e),
            Ok(count) => if count * size > usize::MAX {
                Err(ErrorView::Runtime("tensor is too large"@))
            } else if init is Zeros || count == 0 {
                Ok(BytesView::Zeros((count * size) as usize))
            } else if float_type(element) {
                Ok(BytesView::Random(count))
            } else {
                Err(ErrorView::Runtime("random tensor element invariant broken"@))
            },
        },
    }
}

pub open spec fn made_tensor(
    h: HeapView,
    i: InstanceView,
    bytes: Seq<u8>,
    element: TypeView,
    shape: Seq<usize>,
    rank: usize,
) -> Effect {
    made(
        h,
        i,
        ObjectView::Tensor { bytes, element, shape },
        ValueView::Tensor(fresh(h), TypeView::Tensor(Box::new(element), rank)),
    )
}

pub open spec fn zeros(n: usize) -> Seq<u8> {
    Seq::new(n as nat, |k: int| 0u8)
}

pub open spec fn make_tensor_op(
    h: HeapView,
    i: InstanceView,
    init: TensorInit,
    element: TypeView,
    rank: usize,
) -> Effect {
    if i.stack.len() == 0 {
        failed(h, i, underflow())
    } else {
        let i1 = dropped(i);
        match shape_of(h, i.stack.last()) {
            Err(e) => failed(h, i1, e),
            Ok(shape) => if shape.len() != rank {
                broken(
                    h,
                    i1,
                    "tensor rank "@ + decimal(rank as int) + " requires "@ + decimal(rank as int)
                        + " dimensions, got "@ + decimal(shape.len() as int),
                )
            } else {
                match tensor_bytes(init, element, shape) {
                    Err(e) => failed(h, i1, e),
                    Ok(plan) => match plan {
                        BytesView::Zeros(total) => made_tensor(
                            h,
                            i1,
                            zeros(total),
                            element,
                            shape,
                            rank,
                        ),
                        BytesView::Random(count) => flows(
                            h,
                            InstanceView {
                                random_state: random_after(i1.random_state, count as nat),
                                ..i1
                            },
                            FlowView::Ask(
                                RequestView::Units {
                                    draws: random_draws(i1.random_state, count as nat),
                                    element,
                                },
                                PendingView::Tensor { element, shape, rank },
                            ),
                        ),
                    },
                }
            },
        }
    }
}

/// An item of a vector in the heap.
pub open spec fn cell_in(h: HeapView, v: ValueView, index: usize) -> Result<ValueView, ErrorView> {
    match v {
        ValueView::Array(r, element) => match object_at(h, r) {
            Err(e) => Err(e),
            Ok(object) => match object {
                ObjectView::Array { bytes, element: stored } => if stored == element {
                    decoded(bytes, index, element)
                } else {
                    Err(ErrorView::Runtime("array heap invariant broken"@))
                },
                _ => Err(ErrorView::Runtime("array heap invariant broken"@)),
            },
        },
        _ => Err(ErrorView::Runtime("VM array invariant broken"@)),
    }
}

pub open spec fn index_op(h: HeapView, i: InstanceView) -> Effect {
    if i.stack.len() == 0 {
        failed(h, i, underflow())
    } else {
        let i1 = dropped(i);
        match index_of(i.stack.last()) {
            Err(e) => failed(h, i1, e),
            Ok(index) => if i1.stack.len() == 0 {
                failed(h, i1, underflow())
            } else {
                push_result(h, dropped(i1), cell_in(h, i1.stack.last(), index))
            },
        }
    }
}

/// An item of a tensor in the heap: its element type where that is checked.
pub open spec fn item_in(
    h: HeapView,
    v: ValueView,
    indices: Seq<usize>,
    element: Option<TypeView>,
    rank: usize,
) -> Result<ValueView, ErrorView> {
    match v {
        ValueView::Tensor(r, _) => match object_at(h, r) {
            Err(e) => Err(e),
            Ok(object) => match object {
                ObjectView::Tensor { bytes, element: stored, shape } => match element {
                    Some(t) => if stored == t && shape.len() == rank {
                        match offset_of(shape, indices) {
                            Err(e) => Err(e),
                            Ok(offset) => decoded(bytes, offset, t),
                        }
                    } else {
                        Err(ErrorView::Runtime("tensor heap invariant broken"@))
                    },
                    None => match offset_of(shape, indices) {
                        Err(e) => Err(e),
                        Ok(offset) => match single_fault(bytes.len() as int, offset) {
                            Some(e) => Err(e),
                            None => decoded(bytes, offset, TypeView::F32),
                        },
                    },
                },
                _ => Err(ErrorView::Runtime("tensor heap invariant broken"@)),
            },
        },
        _ => Err(ErrorView::Runtime("VM tensor invariant broken"@)),
    }
}

pub open spec fn item_op(
    h: HeapView,
    i: InstanceView,
    element: Option<TypeView>,
    rank: usize,
) -> Effect {
    let (i1, indices) = popped_indices(i, rank as nat, Seq::empty());
    match indices {
        Err(e) => failed(h, i1, e),
        Ok(indices) => if i1.stack.len() == 0 {
            failed(h, i1, underflow())
        } else {
            push_result(h, dropped(i1), item_in(h, i1.stack.last(), indices, element, rank))
        },
    }
}

/// The entries of a table value.
pub open spec fn entries_of(
    h: HeapView,
    v: ValueView,
) -> Result<Map<TableKeyView, ValueView>, ErrorView> {
    match v {
        ValueView::Table(r, _) => match object_at(h, r) {
            Err(e) => Err(e),
            Ok(object) => match object {
                ObjectView::Table { entries, .. } => Ok(entries),
                _ => Err(ErrorView::Runtime("table heap invariant broken"@)),
            },
        },
        _ => Err(ErrorView::Runtime("VM table invariant broken"@)),
    }
}

pub open spec fn entry_in(
    h: HeapView,
    v: ValueView,
    key: TableKeyView,
) -> Result<ValueView, ErrorView> {
    match entries_of(h, v) {
        Err(e) => Err(e),
        Ok(entries) => if entries.contains_key(key) {
            Ok(entries[key])
        } else {
            Err(ErrorView::Runtime("table has no key "@ + key_text(key)))
        },
    }
}

pub open spec fn table_index_op(h: HeapView, i: InstanceView) -> Effect {
    if i.stack.len() == 0 {
        failed(h, i, underflow())
    } else {
        let i1 = dropped(i);
        match key_of(h, i.stack.last()) {
            Err(e) => failed(h, i1, e),
            Ok(key) => if i1.stack.len() == 0 {
                failed(h, i1, underflow())
            } else {
                push_result(h, dropped(i1), entry_in(h, i1.stack.last(), key))
            },
        }
    }
}

pub open spec fn table_field_op(h: HeapView, i: InstanceView, name: Seq<char>) -> Effect {
    if i.stack.len() == 0 {
        failed(h, i, underflow())
    } else {
        push_result(h, dropped(i), entry_in(h, i.stack.last(), TableKeyView::Name(name)))
    }
}

/// The order of texts: by their first different character.
pub open spec fn text_before(a: Seq<char>, b: Seq<char>) -> bool
    decreases a.len(),
{
    if b.len() == 0 {
        false
    } else if a.len() == 0 {
        true
    } else if a[0] != b[0] {
        a[0] < b[0]
    } else {
        text_before(a.skip(1), b.skip(1))
    }
}

/// The order of table keys: numbers come before names.
pub open spec fn key_before(a: TableKeyView, b: TableKeyView) -> bool {
    match (a, b) {
        (TableKeyView::Index(x), TableKeyView::Index(y)) => x < y,
        (TableKeyView::Name(x), TableKeyView::Name(y)) => text_before(x, y),
        (TableKeyView::Index(_), TableKeyView::Name(_)) => true,
        (TableKeyView::Name(_), TableKeyView::Index(_)) => false,
    }
}

/// Whether a list holds each key of a table once, in order.
pub open spec fn lists_keys(
    keys: Seq<TableKeyView>,
    entries: Map<TableKeyView, ValueView>,
) -> bool {
    &&& forall|a: int, b: int|
        0 <= a < b < keys.len() ==> key_before(#[trigger] keys[a], #[trigger] keys[b])
    &&& forall|k: TableKeyView| keys.contains(k) <==> entries.contains_key(k)
}

/// The keys of a table in order.
pub open spec fn sorted_keys(entries: Map<TableKeyView, ValueView>) -> Seq<TableKeyView> {
    choose|keys: Seq<TableKeyView>| lists_keys(keys, entries)
}

pub open spec fn table_keys_op(h: HeapView, i: InstanceView) -> Effect {
    if i.stack.len() == 0 {
        failed(h, i, underflow())
    } else {
        match entries_of(h, i.stack.last()) {
            Err(e) => failed(h, dropped(i), e),
            Ok(entries) => made(
                h,
                dropped(i),
                ObjectView::TableKeys(sorted_keys(entries)),
                ValueView::TableKeys(fresh(h)),
            ),
        }
    }
}

pub open spec fn key_in(h: HeapView, v: ValueView, index: usize) -> Result<ValueView, ErrorView> {
    match v {
        ValueView::TableKeys(r) => match object_at(h, r) {
            Err(e) => Err(e),
            Ok(object) => match object {
                ObjectView::TableKeys(keys) => if index < keys.len() {
                    Ok(ValueView::TableKey(keys[index as int]))
                } else {
                    Err(
                        ErrorView::Runtime(
                            "table key index "@ + decimal(index as int) + " is out of bounds"@,
                        ),
                    )
                },
                _ => Err(ErrorView::Runtime("table_keys heap invariant broken"@)),
            },
        },
        _ => Err(ErrorView::Runtime("VM table_keys invariant broken"@)),
    }
}

pub open spec fn table_keys_index_op(h: HeapView, i: InstanceView) -> Effect {
    if i.stack.len() == 0 {
        failed(h, i, underflow())
    } else {
        let i1 = dropped(i);
        match index_of(i.stack.last()) {
            Err(e) => failed(h, i1, e),
            Ok(index) => if i1.stack.len() == 0 {
                failed(h, i1, underflow())
            } else {
                push_result(h, dropped(i1), key_in(h, i1.stack.last(), index))
            },
        }
    }
}

/// The heap after an entry of a table was removed, and whether there was one.
pub open spec fn without_entry(
    h: HeapView,
    v: ValueView,
    key: TableKeyView,
) -> Result<(HeapView, bool), ErrorView> {
    match v {
        ValueView::Table(r, _) => match object_at(h, r) {
            Err(e) => Err(e),
            Ok(object) => match object {
                ObjectView::Table { entries, element } => Ok(
                    (
                        h.update(
                            r.0 as int,
                            Some(ObjectView::Table { entries: entries.remove(key), element }),
                        ),
                        entries.contains_key(key),
                    ),
                ),
                _ => Err(ErrorView::Runtime("table heap invariant broken"@)),
            },
        },
        _ => Err(ErrorView::Runtime("VM table invariant broken"@)),
    }
}

pub open spec fn table_remove_op(h: HeapView, i: InstanceView) -> Effect {
    if i.stack.len() == 0 {
        failed(h, i, underflow())
    } else {
        let i1 = dropped(i);
        match key_of(h, i.stack.last()) {
            Err(e) => failed(h, i1, e),
            Ok(key) => if i1.stack.len() == 0 {
                failed(h, i1, underflow())
            } else {
                match without_entry(h, i1.stack.last(), key) {
                    Err(e) => failed(h, dropped(i1), e),
                    Ok((h1, removed)) => push_next(h1, dropped(i1), ValueView::Bool(removed)),
                }
            },
        }
    }
}

pub open spec fn field_op(h: HeapView, i: InstanceView, field: FieldView) -> Effect {
    if i.stack.len() == 0 {
        failed(h, i, underflow())
    } else {
        match i.stack.last() {
            ValueView::Struct(r, _) => push_result(h, dropped(i), field_at(h, r, field.index)),
            _ => broken(h, dropped(i), "VM struct invariant broken"@),
        }
    }
}

/// What a loaded module offers as a value.
pub open spec fn module_value(
    all: Seq<InstanceView>,
    i: InstanceView,
    id: Seq<char>,
    name: Seq<char>,
) -> Result<ValueView, ErrorView> {
    if !i.modules.contains_key(id) {
        Err(ErrorView::Runtime("loaded module is missing"@))
    } else {
        let module = i.modules[id];
        match find_export(module.artifact.exports, name, 0) {
            None => Err(ErrorView::Runtime("module has no exported value '"@ + name + "'"@)),
            Some(export) => match export {
                ExportView::Value { slot, .. } => if module.instance >= all.len() {
                    Err(ErrorView::Runtime("loaded module is missing"@))
                } else {
                    local(all[module.instance as int], slot, "invalid module export slot"@)
                },
                _ => Err(ErrorView::Runtime("'"@ + name + "' is not an exported module value"@)),
            },
        }
    }
}

pub open spec fn module_field_op(
    h: HeapView,
    all: Seq<InstanceView>,
    i: InstanceView,
    name: Seq<char>,
) -> Effect {
    if i.stack.len() == 0 {
        failed(h, i, underflow())
    } else {
        match i.stack.last() {
            ValueView::Module(id) => push_result(
                h,
                dropped(i),
                module_value(all, dropped(i), id, name),
            ),
            _ => broken(h, dropped(i), "VM module invariant broken"@),
        }
    }
}

pub open spec fn call_module_op(
    h: HeapView,
    i: InstanceView,
    slot: usize,
    name: Seq<char>,
) -> Effect {
    match local(i, slot, "invalid module slot"@) {
        Err(e) => failed(h, i, e),
        Ok(v) => match v {
            ValueView::Module(id) => if !i.modules.contains_key(id) {
                broken(h, i, "loaded module is missing"@)
            } else {
                let module = i.modules[id];
                match find_export(module.artifact.exports, name, 0) {
                    None => broken(h, i, "module has no exported function '"@ + name + "'"@),
                    Some(export) => match export {
                        ExportView::Function { entry } => flows(
                            h,
                            i,
                            FlowView::Enter {
                                instance: module.instance,
                                code: *module.artifact.code,
                                entry,
                            },
                        ),
                        _ => broken(h, i, "'"@ + name + "' is not an exported module function"@),
                    },
                }
            },
            _ => broken(h, i, "VM module slot invariant broken"@),
        },
    }
}

/// Addition of two numbers of one type on top of the stack.
pub open spec fn add_op(h: HeapView, i: InstanceView, t: TypeView) -> Effect {
    if i.stack.len() == 0 {
        failed(h, i, underflow())
    } else {
        let i1 = dropped(i);
        if i1.stack.len() == 0 {
            failed(h, i1, underflow())
        } else {
            let i2 = dropped(i1);
            let left = i1.stack.last();
            let right = i.stack.last();
            if left is I32 && right is I32 && t is I32 {
                let sum = left->I32_0 + right->I32_0;
                if i32::MIN <= sum <= i32::MAX {
                    push_next(h, i2, ValueView::I32(sum as i32))
                } else {
                    broken(h, i2, "addition overflow"@)
                }
            } else if (left is F32 && right is F32 && t is F32) || (left is F64 && right is F64
                && t is F64) {
                flows(
                    h,
                    i2,
                    FlowView::Ask(
                        RequestView::Float(
                            FloatView::Binary { op: BinOp::Add, left, right, result: t },
                        ),
                        PendingView::Push { settle: false },
                    ),
                )
            } else {
                broken(h, i2, "VM "@ + type_text(t) + " addition invariant broken"@)
            }
        }
    }
}

/// What two values on top of the stack give.
pub open spec fn pair_op(
    h: HeapView,
    i: InstanceView,
    f: spec_fn(ValueView, ValueView) -> Result<OutcomeView, ErrorView>,
) -> Effect {
    if i.stack.len() == 0 {
        failed(h, i, underflow())
    } else {
        let i1 = dropped(i);
        if i1.stack.len() == 0 {
            failed(h, i1, underflow())
        } else {
            push_outcome(h, dropped(i1), f(i1.stack.last(), i.stack.last()))
        }
    }
}

/// What the value on top of the stack gives.
pub open spec fn single_op(
    h: HeapView,
    i: InstanceView,
    f: spec_fn(ValueView) -> Result<OutcomeView, ErrorView>,
) -> Effect {
    if i.stack.len() == 0 {
        failed(h, i, underflow())
    } else {
        push_outcome(h, dropped(i), f(i.stack.last()))
    }
}

/// The number of items that a value has.
pub open spec fn length_of(h: HeapView, v: ValueView) -> Result<int, ErrorView> {
    match v {
        ValueView::Array(r, element) => match object_at(h, r) {
            Err(e) => Err(e),
            Ok(object) => match object {
                ObjectView::Array { bytes, element: stored } => if stored == element {
                    match scalar_size_of(element) {
                        Err(e) => Err(e),
                        Ok(size) => Ok(bytes.len() as int / size as int),
                    }
                } else {
                    Err(ErrorView::Runtime("array heap invariant broken"@))
                },
                _ => Err(ErrorView::Runtime("array heap invariant broken"@)),
            },
        },
        ValueView::String(r) => match object_at(h, r) {
            Err(e) => Err(e),
            Ok(object) => match object {
                ObjectView::String(text) => Ok(text.len() as int),
                _ => Err(ErrorView::Runtime("string heap invariant broken"@)),
            },
        },
        ValueView::Table(r, _) => match object_at(h, r) {
            Err(e) => Err(e),
            Ok(object) => match object {
                ObjectView::Table { entries, .. } => Ok(entries.len() as int),
                _ => Err(ErrorView::Runtime("table heap invariant broken"@)),
            },
        },
        ValueView::TableKeys(r) => match object_at(h, r) {
            Err(e) => Err(e),
            Ok(object) => match object {
                ObjectView::TableKeys(keys) => Ok(keys.len() as int),
                _ => Err(ErrorView::Runtime("table_keys heap invariant broken"@)),
            },
        },
        ValueView::Tensor(r, _) => match object_at(h, r) {
            Err(e) => Err(e),
            Ok(object) => match object {
                ObjectView::Tensor { shape, .. } => match count_from(1, shape, 0) {
                    Err(e) => Err(e),
                    Ok(n) => Ok(n as int),
                },
                _ => Err(ErrorView::Runtime("tensor heap invariant broken"@)),
            },
        },
        _ => Err(ErrorView::Runtime("VM len invariant broken"@)),
    }
}

pub open spec fn len_op(h: HeapView, i: InstanceView) -> Effect {
    if i.stack.len() == 0 {
        failed(h, i, underflow())
    } else {
        match length_of(h, i.stack.last()) {
            Err(e) => failed(h, dropped(i), e),
            Ok(n) => if n > i32::MAX {
                broken(h, dropped(i), "vector length exceeds i32"@)
            } else {
                push_next(h, dropped(i), ValueView::I32(n as i32))
            },
        }
    }
}

/// The text that a string value refers to.
pub open spec fn string_in(h: HeapView, r: HeapRef) -> Result<Seq<char>, ErrorView> {
    match object_at(h, r) {
        Err(e) => Err(e),
        Ok(object) => match object {
            ObjectView::String(text) => Ok(text),
            _ => Err(ErrorView::Runtime("string heap invariant broken"@)),
        },
    }
}

/// Two texts joined. A reference to nothing is found before one to another
/// kind of object.
pub open spec fn concatenated(
    h: HeapView,
    left: HeapRef,
    right: HeapRef,
) -> Result<Seq<char>, ErrorView> {
    match (object_at(h, left), object_at(h, right)) {
        (Err(e), _) => Err(e),
        (_, Err(e)) => Err(e),
        (Ok(a), Ok(b)) => match (a, b) {
            (ObjectView::String(x), ObjectView::String(y)) => Ok(x + y),
            _ => Err(ErrorView::Runtime("string heap invariant broken"@)),
        },
    }
}

pub open spec fn concat_op(h: HeapView, i: InstanceView) -> Effect {
    if i.stack.len() == 0 {
        failed(h, i, underflow())
    } else {
        let i1 = dropped(i);
        if i1.stack.len() == 0 {
            failed(h, i1, underflow())
        } else {
            let i2 = dropped(i1);
            match (i1.stack.last(), i.stack.last()) {
                (ValueView::String(left), ValueView::String(right)) => match concatenated(
                    h,
                    left,
                    right,
                ) {
                    Err(e) => failed(h, i2, e),
                    Ok(text) => made_string(h, i2, text),
                },
                _ => broken(h, i2, "VM string invariant broken"@),
            }
        }
    }
}

/// A line of input as a value.
pub open spec fn read_op(h: HeapView, i: InstanceView, line: Seq<char>, t: TypeView) -> Effect {
    let text = trimmed(line);
    if t == TypeView::String {
        made_string(h, i, line_content(line))
    } else if integer_type(t) {
        match parsed_integer(text) {
            None => broken(h, i, "invalid integer: "@ + text),
            Some(n) => match int_value_of(n, t) {
                Err(e) => failed(h, i, e),
                Ok(v) => flows(h, pushed(i, v), FlowView::Settle),
            },
        }
    } else if numeric_type(t) {
        flows(
            h,
            i,
            FlowView::Ask(
                RequestView::Float(FloatView::Parse { text, ty: t }),
                PendingView::Push { settle: true },
            ),
        )
    } else {
        broken(h, i, "VM input type invariant broken"@)
    }
}

pub open spec fn input_op(h: HeapView, i: InstanceView, t: TypeView) -> Effect {
    if i.input.len() > 0 {
        read_op(h, InstanceView { input: i.input.drop_first(), ..i }, i.input.first(), t)
    } else {
        flows(h, i, FlowView::Ask(RequestView::Line, PendingView::Read { ty: t }))
    }
}

/// Pieces put out, once the digits of the floats among them are known.
pub open spec fn put_out(h: HeapView, i: InstanceView, pieces: Seq<PieceView>, line: bool) -> Effect {
    let floats = floats_in(pieces, 0);
    if floats.len() == 0 {
        next(h, shown(i, assembled(""@, pieces, 0, Seq::empty(), 0), line))
    } else {
        flows(
            h,
            i,
            FlowView::Ask(RequestView::Texts(floats), PendingView::Print { pieces, line }),
        )
    }
}

pub open spec fn print_op(h: HeapView, i: InstanceView) -> Effect {
    if i.stack.len() == 0 {
        failed(h, i, underflow())
    } else {
        match value_pieces(h, i.stack.last(), h.len()) {
            Err(e) => failed(h, dropped(i), e),
            Ok(pieces) => put_out(h, dropped(i), pieces, true),
        }
    }
}

pub open spec fn printf_op(h: HeapView, i: InstanceView, count: usize) -> Effect {
    if i.stack.len() == 0 {
        failed(h, i, underflow())
    } else {
        let format = i.stack.last();
        let (i1, args) = popped_values(dropped(i), count as nat, Seq::empty());
        match args {
            Err(e) => failed(h, i1, e),
            Ok(args) => match format {
                ValueView::String(r) => match string_in(h, r) {
                    Err(e) => failed(h, i1, e),
                    Ok(text) => match printf_pieces(h, Seq::empty(), text, 0, args, 0) {
                        Err(e) => failed(h, i1, e),
                        Ok(pieces) => put_out(h, i1, pieces, false),
                    },
                },
                _ => broken(h, i1, "printf format is not a string"@),
            },
        }
    }
}

/// Whether a number is a Unicode scalar value.
pub open spec fn is_scalar_value(n: int) -> bool {
    0 <= n <= 0xD7FF || 0xE000 <= n <= 0x10FFFF
}

pub open spec fn putc_op(h: HeapView, i: InstanceView) -> Effect {
    if i.stack.len() == 0 {
        failed(h, i, underflow())
    } else {
        let i1 = dropped(i);
        match index_of(i.stack.last()) {
            Err(e) => failed(h, i1, e),
            Ok(n) => if n > u32::MAX {
                broken(h, i1, "putc code point exceeds u32"@)
            } else if !is_scalar_value(n as int) {
                broken(
                    h,
                    i1,
                    "putc requires a valid Unicode scalar value, got "@ + decimal(n as int),
                )
            } else {
                next(
                    h,
                    InstanceView {
                        display: if i1.interactive {
                            i1.display.push(n as char)
                        } else {
                            i1.display
                        },
                        ..i1
                    },
                )
            },
        }
    }
}

/// Whether arguments fit the types of a host function.
pub open spec fn arguments_fit(arguments: Seq<ValueView>, types: Seq<TypeView>) -> bool {
    forall|k: int|
        0 <= k < arguments.len() && k < types.len() ==> compatible(
            type_of(#[trigger] arguments[k]),
            types[k],
        )
}

pub open spec fn call_external_op(
    h: HeapView,
    i: InstanceView,
    name: Seq<char>,
    count: usize,
) -> Effect {
    if !i.externs.contains_key(name) {
        broken(h, i, "external function '"@ + name + "' is not registered"@)
    } else {
        let external = i.externs[name];
        if external.signature.arguments.len() != count || i.stack.len() < count {
            broken(h, i, "external call stack invariant broken"@)
        } else {
            let base = i.stack.len() - count;
            let arguments = i.stack.skip(base);
            if !arguments_fit(arguments, external.signature.arguments) {
                broken(
                    h,
                    i,
                    "external function '"@ + name + "' received an invalid argument type"@,
                )
            } else if external.function is C && !i.callback_state {
                broken(h, i, "C function '"@ + name + "' requires execution through L0State"@)
            } else {
                flows(
                    h,
                    i,
                    FlowView::Ask(
                        RequestView::Host { name, function: external.function, arguments },
                        PendingView::Host {
                            name,
                            result: external.signature.result,
                            base: base as usize,
                        },
                    ),
                )
            }
        }
    }
}

/// The result of a host function pushed in place of its arguments.
pub open spec fn returned(h: HeapView, i: InstanceView, base: usize, v: ValueView) -> Effect {
    push_next(h, cut(i, base as int), v)
}

/// The result of a host function, brought to the type that it is to have.
pub open spec fn host_result_op(
    h: HeapView,
    i: InstanceView,
    name: Seq<char>,
    result: TypeView,
    base: usize,
    v: ValueView,
) -> Effect {
    if !compatible(result, type_of(v)) {
        broken(
            h,
            i,
            "external function '"@ + name + "' returned "@ + type_text(type_of(v)) + "; expected "@
                + type_text(result),
        )
    } else if numeric_type(result) && type_of(v) != result {
        match cast_result(v, result) {
            Err(e) => failed(h, i, e),
            Ok(outcome) => match outcome {
                OutcomeView::Value(w) => returned(h, i, base, w),
                OutcomeView::Float(f) => flows(
                    h,
                    i,
                    FlowView::Ask(RequestView::Float(f), PendingView::Return { base }),
                ),
            },
        }
    } else {
        returned(h, i, base, v)
    }
}

/// What an answer to a request leads to.
pub open spec fn answered(
    h: HeapView,
    i: InstanceView,
    request: RequestView,
    pending: PendingView,
    answer: AnswerView,
) -> Effect {
    match pending {
        PendingView::Push { settle } => match answer {
            AnswerView::Value(v) => flows(
                h,
                pushed(i, v),
                if settle {
                    FlowView::Settle
                } else {
                    FlowView::Next
                },
            ),
            _ => broken(
                h,
                i,
                "invalid float: "@ + match request {
                    RequestView::Float(f) => match f {
                        FloatView::Parse { text, .. } => text,
                        _ => ""@,
                    },
                    _ => ""@,
                },
            ),
        },
        PendingView::Print { pieces, line } => match answer {
            AnswerView::Texts(texts) => next(
                h,
                shown(i, assembled(""@, pieces, 0, texts, 0), line),
            ),
            _ => next(h, i),
        },
        PendingView::Read { ty } => match answer {
            AnswerView::Line(text) => read_op(h, i, text, ty),
            AnswerView::Unreadable(reason) => broken(h, i, "failed to read input: "@ + reason),
            _ => broken(h, i, "input ended before a value was read"@),
        },
        PendingView::Host { name, result, base } => match answer {
            AnswerView::Host(returned) => match returned {
                Err(e) => failed(h, i, e),
                Ok(v) => host_result_op(h, i, name, result, base, v),
            },
            AnswerView::C { status, results } => if status != 0 {
                broken(
                    h,
                    cut(i, base as int),
                    "C function '"@ + name + "' failed with status "@ + decimal(status as int),
                )
            } else if results.len() != 1 {
                broken(
                    h,
                    cut(i, base as int),
                    "C function '"@ + name + "' must push exactly one result"@,
                )
            } else {
                host_result_op(h, i, name, result, base, results[0])
            },
            _ => next(h, i),
        },
        PendingView::Return { base } => match answer {
            AnswerView::Value(v) => returned(h, i, base, v),
            _ => next(h, i),
        },
        PendingView::Tensor { element, shape, rank } => match answer {
            AnswerView::Units(values) => match packed(values, element) {
                Err(e) => failed(h, i, e),
                Ok(bytes) => made_tensor(h, i, bytes, element, shape, rank),
            },
            _ => next(h, i),
        },
    }
}

/// Where the latest destructor of a slot stands among `n`, or -1.
pub open spec fn latest_destructor(destructors: Seq<ActiveDestructor>, slot: usize, n: int) -> int
    decreases n,
{
    if n <= 0 {
        -1
    } else if destructors[n - 1].slot == slot {
        n - 1
    } else {
        latest_destructor(destructors, slot, n - 1)
    }
}

pub open spec fn track_op(h: HeapView, i: InstanceView, slot: usize, target: usize) -> Effect {
    if slot < i.locals.len() && i.locals[slot as int] is Struct {
        next(
            h,
            InstanceView {
                destructors: i.destructors.push(ActiveDestructor { slot, target }),
                ..i
            },
        )
    } else {
        broken(h, i, "VM destructor slot invariant broken"@)
    }
}

pub open spec fn untrack_op(h: HeapView, i: InstanceView, slot: usize) -> Effect {
    let k = latest_destructor(i.destructors, slot, i.destructors.len() as int);
    if k < 0 {
        broken(h, i, "VM destructor tracking invariant broken"@)
    } else {
        next(h, InstanceView { destructors: i.destructors.remove(k), ..i })
    }
}

pub open spec fn jump_if_false_op(h: HeapView, i: InstanceView, target: usize) -> Effect {
    if i.stack.len() == 0 {
        failed(h, i, underflow())
    } else {
        match i.stack.last() {
            ValueView::Bool(b) => if b {
                next(h, dropped(i))
            } else {
                flows(h, dropped(i), FlowView::Goto(target))
            },
            _ => broken(h, dropped(i), "VM condition invariant broken"@),
        }
    }
}

/// A jump that keeps the condition on the stack where it is `wanted`.
pub open spec fn jump_keep_op(h: HeapView, i: InstanceView, target: usize, wanted: bool) -> Effect {
    if i.stack.len() == 0 {
        failed(h, i, underflow())
    } else {
        match i.stack.last() {
            ValueView::Bool(b) => if b == wanted {
                flows(h, i, FlowView::Goto(target))
            } else {
                next(h, dropped(i))
            },
            _ => broken(h, i, "VM condition invariant broken"@),
        }
    }
}

pub open spec fn signature(arguments: Seq<TypeView>, result: TypeView) -> SignatureView {
    SignatureView { arguments, result }
}

/// The host functions of the `candle` extension.
pub open spec fn candle_functions() -> Seq<(Seq<char>, SignatureView)> {
    let i32_ = TypeView::I32;
    let f32_ = TypeView::F32;
    let array = TypeView::DArray;
    let tensor = TypeView::DTensor;
    let text = TypeView::String;
    let model = TypeView::Table(Box::new(TypeView::I32));
    seq![
        ("candle_l0_layer"@, signature(seq![tensor, array], array)),
        ("candle_matmul"@, signature(seq![tensor, tensor], tensor)),
        ("tensor_shape"@, signature(seq![tensor], array)),
        ("candle_vector_add"@, signature(seq![array, array], array)),
        ("candle_vector_relu"@, signature(seq![array], array)),
        ("candle_load_safetensor"@, signature(seq![text, text], tensor)),
        ("candle_load_model"@, signature(seq![text], model)),
        ("candle_save_model"@, signature(seq![model, text], TypeView::Bool)),
        ("candle_embedding"@, signature(seq![i32_, i32_], i32_)),
        ("candle_softmax"@, signature(seq![i32_], i32_)),
        ("candle_rmsnorm"@, signature(seq![i32_, i32_, f32_], i32_)),
        ("candle_free_tensor"@, signature(seq![i32_], TypeView::Bool)),
        ("candle_linear_id"@, signature(seq![i32_, i32_], i32_)),
        ("candle_silu"@, signature(seq![i32_], i32_)),
        ("candle_mul_id"@, signature(seq![i32_, i32_], i32_)),
        ("candle_get_darray"@, signature(seq![i32_], array)),
        ("candle_reshape_id"@, signature(seq![i32_, array], i32_)),
        ("candle_transpose_id"@, signature(seq![i32_, i32_, i32_], i32_)),
        ("candle_repeat_kv_id"@, signature(seq![i32_, i32_], i32_)),
        ("candle_scale_id"@, signature(seq![i32_, f32_], i32_)),
        ("candle_matmul_id"@, signature(seq![i32_, i32_], i32_)),
        ("candle_apply_rope_id"@, signature(seq![i32_, i32_, i32_], i32_)),
        ("candle_softmax_dim_id"@, signature(seq![i32_, i32_], i32_)),
        ("candle_add_id"@, signature(seq![i32_, i32_], i32_)),
        ("candle_cat_id"@, signature(seq![i32_, i32_, i32_], i32_)),
        ("tokenizer_load"@, signature(seq![text], i32_)),
        ("tokenizer_decode"@, signature(seq![i32_, i32_], text)),
        ("candle_argmax_token"@, signature(seq![i32_], i32_)),
        (
            "tokenizer_encode"@,
            signature(seq![i32_, text], TypeView::Array(Box::new(TypeView::I32))),
        ),
        ("candle_sample_token"@, signature(seq![i32_, f32_, tensor, i32_, f32_], i32_)),
    ]
}

/// Host functions of an extension made known, from `k` on.
pub open spec fn register_from(
    i: InstanceView,
    functions: Seq<(Seq<char>, SignatureView)>,
    k: int,
) -> (InstanceView, Result<(), ErrorView>)
    decreases functions.len() - k,
{
    if k < 0 || k >= functions.len() {
        (i, Ok(()))
    } else {
        let (i1, r) = registered(
            i,
            functions[k].0,
            RegisteredView { signature: functions[k].1, function: ExternalFunction::Native },
        );
        match r {
            Err(e) => (i1, Err(e)),
            Ok(_) => register_from(i1, functions, k + 1),
        }
    }
}

pub open spec fn require_op(h: HeapView, i: InstanceView, artifact: ArtifactView) -> Effect {
    let id = artifact.id;
    if i.natives.contains_key(id) {
        let (i1, r) = register_from(
            InstanceView { natives: i.natives.remove(id), ..i },
            candle_functions(),
            0,
        );
        match r {
            Err(e) => failed(h, i1, e),
            Ok(_) => push_next(h, i1, ValueView::Module(id)),
        }
    } else if i.modules.contains_key(id) {
        push_next(h, i, ValueView::Module(id))
    } else {
        flows(h, i, FlowView::Load(artifact))
    }
}

/// What an instruction does to the heap and to the instance that runs it.
/// `receiver` is the local that the method at work was called on.
pub open spec fn effect(
    h: HeapView,
    all: Seq<InstanceView>,
    i: InstanceView,
    receiver: Option<usize>,
    op: OpView,
) -> Effect {
    match op {
        OpView::AddI32 => add_op(h, i, TypeView::I32),
        OpView::AddF32 => add_op(h, i, TypeView::F32),
        OpView::AddF64 => add_op(h, i, TypeView::F64),
        OpView::Push(v) => push_next(h, i, v),
        OpView::MakeString(text) => made_string(h, i, text),
        OpView::Input(t) => input_op(h, i, t),
        OpView::Require(artifact) => require_op(h, i, *artifact),
        OpView::Load(slot) => push_result(h, i, local(i, slot, "invalid local slot"@)),
        OpView::LoadCurrentReceiver => push_result(
            h,
            i,
            receiver_value(i, receiver, "this is available only inside a method"@),
        ),
        OpView::LoadCurrentField(field) => load_current_field_op(h, i, receiver, field),
        OpView::Store(slot) => store_op(h, i, slot),
        OpView::StoreIndex(slot, element) => store_index_op(h, i, slot, element),
        OpView::StoreTableIndex(slot, _) => store_table_index_op(h, i, slot),
        OpView::StoreTensorIndex(slot, element, rank) => store_item_op(
            h,
            i,
            slot,
            Some(element),
            rank,
        ),
        OpView::StoreTensorIndexF32(slot, rank) => store_item_op(h, i, slot, None, rank),
        OpView::StoreField(slot, field) => store_field_op(h, i, slot, field),
        OpView::StoreFieldIndex(slot, field, element) => store_field_index_op(
            h,
            i,
            slot,
            field,
            element,
        ),
        OpView::StoreTableField(slot, name, _) => store_table_field_op(h, i, slot, name),
        OpView::StoreCurrentField(field) => store_current_field_op(h, i, receiver, field),
        OpView::MakeArray(len, element) => make_array_op(h, i, len, element),
        OpView::MakeTable(entries, element) => make_table_op(h, i, entries, element),
        OpView::MakeStruct(layout) => make_struct_op(h, i, layout),
        OpView::MakeTensor(init, element, rank) => make_tensor_op(h, i, init, element, rank),
        OpView::Index => index_op(h, i),
        OpView::TensorIndex(element, rank) => item_op(h, i, Some(element), rank),
        OpView::TensorIndexF32(rank) => item_op(h, i, None, rank),
        OpView::TableIndex => table_index_op(h, i),
        OpView::TableKeys => table_keys_op(h, i),
        OpView::TableKeysIndex => table_keys_index_op(h, i),
        OpView::TableRemove => table_remove_op(h, i),
        OpView::Field(field) => field_op(h, i, field),
        OpView::TableField(name) => table_field_op(h, i, name),
        OpView::ModuleField(name) => module_field_op(h, all, i, name),
        OpView::Binary(op) => pair_op(
            h,
            i,
            |a: ValueView, b: ValueView| binary_result(h, a, b, op),
        ),
        OpView::Unary(op, t) => single_op(h, i, |a: ValueView| unary_result(a, op, t)),
        OpView::Len => len_op(h, i),
        OpView::ConcatString => concat_op(h, i),
        OpView::Builtin1(f, _) => single_op(h, i, |a: ValueView| builtin1_result(f, a)),
        OpView::Builtin2(f, t) => pair_op(
            h,
            i,
            |a: ValueView, b: ValueView| builtin2_result(f, a, b, t),
        ),
        OpView::CallExternal(name, count) => call_external_op(h, i, name, count),
        OpView::JumpIfFalse(target) => jump_if_false_op(h, i, target),
        OpView::Jump(target) => flows(h, i, FlowView::Goto(target)),
        OpView::JumpIfFalseKeep(target) => jump_keep_op(h, i, target, false),
        OpView::JumpIfTrueKeep(target) => jump_keep_op(h, i, target, true),
        OpView::CallMethod(slot, target) => flows(
            h,
            i,
            FlowView::Call { receiver: slot, target },
        ),
        OpView::CallCurrentMethod(target) => match receiver {
            None => broken(h, i, "this is available only inside a method"@),
            Some(slot) => flows(h, i, FlowView::Call { receiver: slot, target }),
        },
        OpView::CallModule(slot, name) => call_module_op(h, i, slot, name),
        OpView::Return => flows(h, i, FlowView::Return),
        OpView::Print => print_op(h, i),
        OpView::Printf(count) => printf_op(h, i, count),
        OpView::Putc => putc_op(h, i),
        OpView::Cast(t) => single_op(h, i, |a: ValueView| cast_result(a, t)),
        OpView::TrackDestructor(slot, target) => track_op(h, i, slot, target),
        OpView::UntrackDestructor(slot) => untrack_op(h, i, slot),
        OpView::PushFloat(text, t) => flows(
            h,
            i,
            FlowView::Ask(
                RequestView::Float(FloatView::Parse { text, ty: t }),
                PendingView::Push { settle: false },
            ),
        ),
    }
}

} // verus!
