//! Host functions on heap values: what they are handed, and what they hand back.
use vstd::prelude::*;
use std::rc::Rc;
use crate::heap::{Heap, HeapObject, ObjectView, object_at, with_object};
use crate::instructions::item_count;
use crate::numeric::{divide, trunc_div};
use crate::scalar::{decode_scalar, decoded, is_scalar, pack_values, packed};
use crate::semantics::{HeapView, count_from, fresh};
use crate::text::{decimal, decimal_text};
use crate::types::{
    Error, ErrorView, Type, TypeView, runtime_error, size_of_type, type_error, type_size,
};
use crate::value::{HeapRef, Value, ValueView, type_of};
use crate::views::{group_views, views};

verus! {

broadcast use group_views;

/// A host function that was called on something else than it takes.
pub open spec fn misused(message: Seq<char>) -> ErrorView {
    ErrorView::Runtime(message)
}

/// Whether a value can be an item of the given type.
pub open spec fn item_of(v: ValueView, element: TypeView) -> bool {
    is_scalar(v) && type_of(v) == element
}

/// The whole items of a packed buffer.
pub open spec fn items(bytes: Seq<u8>, element: TypeView, size: nat) -> Seq<ValueView> {
    Seq::new(
        (bytes.len() / size) as nat,
        |k: int| decoded(bytes, k as usize, element)->Ok_0,
    )
}

/// The items of a tensor of the given element type, and its shape.
pub open spec fn tensor_items(
    h: HeapView,
    r: HeapRef,
    element: TypeView,
    fault: ErrorView,
) -> Result<(Seq<ValueView>, Seq<usize>), ErrorView> {
    match object_at(h, r) {
        Err(e) => Err(e),
        Ok(object) => match object {
            ObjectView::Tensor { bytes, element: stored, shape } => if stored == element {
                Ok((items(bytes, element, size_of_type(element).unwrap() as nat), shape))
            } else {
                Err(fault)
            },
            _ => Err(fault),
        },
    }
}

/// The items of a vector of the given element type.
pub open spec fn array_items(
    h: HeapView,
    r: HeapRef,
    element: TypeView,
    fault: ErrorView,
) -> Result<Seq<ValueView>, ErrorView> {
    match object_at(h, r) {
        Err(e) => Err(e),
        Ok(object) => match object {
            ObjectView::Array { bytes, element: stored } => if stored == element {
                Ok(items(bytes, element, size_of_type(element).unwrap() as nat))
            } else {
                Err(fault)
            },
            _ => Err(fault),
        },
    }
}

/// The items of a packed buffer, one after the other; bytes that do not fill
/// an item are left out.
fn unpack(bytes: &Vec<u8>, element: &Type, size: usize) -> (r: Vec<Value>)
    requires
        size_of_type(element@) == Some(size),
    ensures
        views(r@) == items(bytes@, element@, size as nat),
        forall|k: int| 0 <= k < r@.len() ==> item_of((#[trigger] r@[k])@, element@),
{
    let total: usize = bytes.len();
    let count: usize = total / size;
    let ghost all = items(bytes@, element@, size as nat);
    let mut out: Vec<Value> = Vec::new();
    let mut k: usize = 0;
    while k < count
        invariant
            size_of_type(element@) == Some(size),
            size == 1 || size == 2 || size == 4 || size == 8,
            total == bytes@.len(),
            count == total / size,
            k <= count,
            all == items(bytes@, element@, size as nat),
            views(out@) == all.take(k as int),
            forall|j: int| 0 <= j < out@.len() ==> item_of((#[trigger] out@[j])@, element@),
        decreases count - k,
    {
        assert(k * size + size <= total) by (nonlinear_arith)
            requires
                k < count,
                count == total / size,
                size >= 1,
        ;
        match decode_scalar(bytes.as_slice(), k, element) {
            Ok(value) => {
                out.push(value);
                assert(views(out@) =~= all.take(k + 1));
            },
            Err(_) => {
                assert(false);
            },
        }
        k += 1;
    }
    assert(all.take(count as int) =~= all);
    out
}

/// The items of a tensor in the heap, as bit patterns where they are floats.
pub fn get_tensor_items(
    heap: &Heap,
    reference: HeapRef,
    element: &Type,
    fault: Error,
) -> (r: Result<(Vec<Value>, Vec<usize>), Error>)
    requires
        size_of_type(element@) is Some,
    ensures
        match r {
            Ok((values, shape)) => {
                &&& tensor_items(heap@, reference, element@, fault@) == Ok::<
                    (Seq<ValueView>, Seq<usize>),
                    ErrorView,
                >((views(values@), shape@))
                &&& forall|k: int|
                    0 <= k < values@.len() ==> item_of((#[trigger] values@[k])@, element@)
            },
            Err(e) => tensor_items(heap@, reference, element@, fault@) == Err::<
                (Seq<ValueView>, Seq<usize>),
                ErrorView,
            >(e@),
        },
{
    let size: usize = match type_size(element) {
        Some(size) => size,
        None => {
            return Err(fault);
        },
    };
    match heap.get(reference)? {
        HeapObject::Tensor { bytes, element: stored, shape } => if stored.same(element) {
            Ok((unpack(bytes, element, size), copy_shape(shape)))
        } else {
            Err(fault)
        },
        _ => Err(fault),
    }
}

/// The items of a vector in the heap, as bit patterns where they are floats.
pub fn get_array_items(
    heap: &Heap,
    reference: HeapRef,
    element: &Type,
    fault: Error,
) -> (r: Result<Vec<Value>, Error>)
    requires
        size_of_type(element@) is Some,
    ensures
        match r {
            Ok(values) => array_items(heap@, reference, element@, fault@) == Ok::<
                Seq<ValueView>,
                ErrorView,
            >(views(values@)),
            Err(e) => array_items(heap@, reference, element@, fault@) == Err::<
                Seq<ValueView>,
                ErrorView,
            >(e@),
        },
{
    let size: usize = match type_size(element) {
        Some(size) => size,
        None => {
            return Err(fault);
        },
    };
    match heap.get(reference)? {
        HeapObject::Array { bytes, element: stored } => if stored.same(element) {
            Ok(unpack(bytes, element, size))
        } else {
            Err(fault)
        },
        _ => Err(fault),
    }
}

pub(crate) fn copy_shape(shape: &Vec<usize>) -> (r: Vec<usize>)
    ensures
        r@ == shape@,
{
    let mut out: Vec<usize> = Vec::new();
    let mut k: usize = 0;
    while k < shape.len()
        invariant
            k <= shape@.len(),
            out@ == shape@.take(k as int),
        decreases shape@.len() - k,
    {
        out.push(shape[k]);
        assert(out@ =~= shape@.take(k + 1));
        k += 1;
    }
    assert(shape@.take(shape@.len() as int) =~= shape@);
    out
}

/// The decimal numeral of the one argument, as a new string.
pub open spec fn int2str_result(h: HeapView, arguments: Seq<ValueView>) -> (
    HeapView,
    Result<ValueView, ErrorView>,
) {
    if arguments.len() == 1 {
        match arguments[0] {
            ValueView::I64(n) => (
                with_object(h, ObjectView::String(decimal(n as int))),
                Ok(ValueView::String(fresh(h))),
            ),
            _ => (h, Err(misused("int2str expects exactly one i64 argument"@))),
        }
    } else {
        (h, Err(misused("int2str expects exactly one i64 argument"@)))
    }
}

/// Writes an integer in decimal.
pub fn int2str(arguments: &Vec<Value>, heap: &mut Heap) -> (r: Result<Value, Error>)
    requires
        old(heap).wf(),
    ensures
        final(heap).wf(),
        match r {
            Ok(v) => int2str_result(old(heap)@, views(arguments@)) == (
                final(heap)@,
                Ok::<ValueView, ErrorView>(v@),
            ),
            Err(e) => int2str_result(old(heap)@, views(arguments@)) == (
                final(heap)@,
                Err::<ValueView, ErrorView>(e@),
            ),
        },
{
    if arguments.len() == 1 {
        assert(views(arguments@)[0] == arguments@[0]@);
        if let Value::I64(n) = &arguments[0] {
            let reference = heap.allocate(HeapObject::String(decimal_text(*n as i128)));
            return Ok(Value::String(reference));
        }
    }
    Err(runtime_error("int2str expects exactly one i64 argument"))
}

/// The one tensor of floats that a function is called on.
pub open spec fn one_tensor(
    h: HeapView,
    arguments: Seq<ValueView>,
    message: Seq<char>,
    fault: ErrorView,
) -> Result<(Seq<ValueView>, Seq<usize>), ErrorView> {
    if arguments.len() == 1 {
        match arguments[0] {
            ValueView::Tensor(r, _) => tensor_items(h, r, TypeView::F32, fault),
            _ => Err(misused(message)),
        }
    } else {
        Err(misused(message))
    }
}

/// The tensor of floats and the float that a function is called on.
pub open spec fn tensor_and_scalar(
    h: HeapView,
    arguments: Seq<ValueView>,
    message: Seq<char>,
    fault: ErrorView,
) -> Result<(Seq<ValueView>, Seq<usize>, u32), ErrorView> {
    if arguments.len() == 2 {
        match (arguments[0], arguments[1]) {
            (ValueView::Tensor(r, _), ValueView::F32(scalar)) => match tensor_items(
                h,
                r,
                TypeView::F32,
                fault,
            ) {
                Ok((values, shape)) => Ok((values, shape, scalar)),
                Err(e) => Err(e),
            },
            _ => Err(misused(message)),
        }
    } else {
        Err(misused(message))
    }
}

/// The two tensors of floats that a function is called on.
pub open spec fn two_tensors(
    h: HeapView,
    arguments: Seq<ValueView>,
    message: Seq<char>,
    first: ErrorView,
    second: ErrorView,
) -> Result<((Seq<ValueView>, Seq<usize>), (Seq<ValueView>, Seq<usize>)), ErrorView> {
    if arguments.len() == 2 {
        match (arguments[0], arguments[1]) {
            (ValueView::Tensor(a, _), ValueView::Tensor(b, _)) => match tensor_items(
                h,
                a,
                TypeView::F32,
                first,
            ) {
                Err(e) => Err(e),
                Ok(left) => match tensor_items(h, b, TypeView::F32, second) {
                    Err(e) => Err(e),
                    Ok(right) => Ok((left, right)),
                },
            },
            _ => Err(misused(message)),
        }
    } else {
        Err(misused(message))
    }
}

/// Whether a list of items and a shape, or a failure, is what is wanted.
pub open spec fn got_tensor(
    r: Result<(Vec<Value>, Vec<usize>), Error>,
    wanted: Result<(Seq<ValueView>, Seq<usize>), ErrorView>,
) -> bool {
    match r {
        Ok((values, shape)) => wanted == Ok::<(Seq<ValueView>, Seq<usize>), ErrorView>(
            (views(values@), shape@),
        ),
        Err(e) => wanted == Err::<(Seq<ValueView>, Seq<usize>), ErrorView>(e@),
    }
}

fn operand(
    arguments: &Vec<Value>,
    heap: &Heap,
    message: &str,
    fault: Error,
) -> (r: Result<(Vec<Value>, Vec<usize>), Error>)
    ensures
        got_tensor(r, one_tensor(heap@, views(arguments@), message@, fault@)),
{
    if arguments.len() == 1 {
        assert(views(arguments@)[0] == arguments@[0]@);
        if let Value::Tensor(reference, _) = &arguments[0] {
            return get_tensor_items(heap, *reference, &Type::F32, fault);
        }
    }
    Err(runtime_error(message))
}

fn scaled_operand(
    arguments: &Vec<Value>,
    heap: &Heap,
    message: &str,
    fault: Error,
) -> (r: Result<(Vec<Value>, Vec<usize>, u32), Error>)
    ensures
        match r {
            Ok((values, shape, scalar)) => tensor_and_scalar(
                heap@,
                views(arguments@),
                message@,
                fault@,
            ) == Ok::<(Seq<ValueView>, Seq<usize>, u32), ErrorView>(
                (views(values@), shape@, scalar),
            ),
            Err(e) => tensor_and_scalar(heap@, views(arguments@), message@, fault@) == Err::<
                (Seq<ValueView>, Seq<usize>, u32),
                ErrorView,
            >(e@),
        },
{
    if arguments.len() == 2 {
        assert(views(arguments@)[0] == arguments@[0]@);
        assert(views(arguments@)[1] == arguments@[1]@);
        if let (Value::Tensor(reference, _), Value::F32(scalar)) = (&arguments[0], &arguments[1]) {
            let (values, shape) = get_tensor_items(heap, *reference, &Type::F32, fault)?;
            return Ok((values, shape, *scalar));
        }
    }
    Err(runtime_error(message))
}

/// Whether two lists of items with their shapes, or a failure, are what is
/// wanted.
pub open spec fn got_tensors(
    r: Result<((Vec<Value>, Vec<usize>), (Vec<Value>, Vec<usize>)), Error>,
    wanted: Result<((Seq<ValueView>, Seq<usize>), (Seq<ValueView>, Seq<usize>)), ErrorView>,
) -> bool {
    match r {
        Ok((left, right)) => wanted == Ok::<
            ((Seq<ValueView>, Seq<usize>), (Seq<ValueView>, Seq<usize>)),
            ErrorView,
        >(((views(left.0@), left.1@), (views(right.0@), right.1@))),
        Err(e) => wanted == Err::<
            ((Seq<ValueView>, Seq<usize>), (Seq<ValueView>, Seq<usize>)),
            ErrorView,
        >(e@),
    }
}

fn operands(
    arguments: &Vec<Value>,
    heap: &Heap,
    message: &str,
    first: Error,
    second: Error,
) -> (r: Result<((Vec<Value>, Vec<usize>), (Vec<Value>, Vec<usize>)), Error>)
    ensures
        got_tensors(r, two_tensors(heap@, views(arguments@), message@, first@, second@)),
{
    if arguments.len() == 2 {
        assert(views(arguments@)[0] == arguments@[0]@);
        assert(views(arguments@)[1] == arguments@[1]@);
        if let (Value::Tensor(a, _), Value::Tensor(b, _)) = (&arguments[0], &arguments[1]) {
            let left = get_tensor_items(heap, *a, &Type::F32, first)?;
            let right = get_tensor_items(heap, *b, &Type::F32, second)?;
            return Ok((left, right));
        }
    }
    Err(runtime_error(message))
}

/// The failure on a tensor whose elements are no floats.
pub open spec fn not_float_tensor() -> ErrorView {
    ErrorView::Type("expected tensor<f32>"@)
}

fn not_float_tensor_error() -> (r: Error)
    ensures
        r@ == not_float_tensor(),
{
    type_error("expected tensor<f32>")
}

/// The failure of the element-wise functions on such a tensor.
pub open spec fn not_floats() -> ErrorView {
    ErrorView::Runtime("invalid tensor heap object or element type"@)
}

fn not_floats_error() -> (r: Error)
    ensures
        r@ == not_floats(),
{
    runtime_error("invalid tensor heap object or element type")
}

/// What `t_square` squares, item by item.
pub fn t_square_operand(
    arguments: &Vec<Value>,
    heap: &Heap,
) -> (r: Result<(Vec<Value>, Vec<usize>), Error>)
    ensures
        got_tensor(
            r,
            one_tensor(heap@, views(arguments@), "t_square expects 1 dTensor"@, not_float_tensor()),
        ),
{
    operand(arguments, heap, "t_square expects 1 dTensor", not_float_tensor_error())
}

/// What `t_sum` adds up.
pub fn t_sum_operand(
    arguments: &Vec<Value>,
    heap: &Heap,
) -> (r: Result<(Vec<Value>, Vec<usize>), Error>)
    ensures
        got_tensor(
            r,
            one_tensor(heap@, views(arguments@), "t_sum expects 1 dTensor"@, not_float_tensor()),
        ),
{
    operand(arguments, heap, "t_sum expects 1 dTensor", not_float_tensor_error())
}

/// What `mean_dim0` takes the mean of, over the first dimension.
pub fn mean_dim0_operand(
    arguments: &Vec<Value>,
    heap: &Heap,
) -> (r: Result<(Vec<Value>, Vec<usize>), Error>)
    ensures
        got_tensor(
            r,
            one_tensor(
                heap@,
                views(arguments@),
                "mean_dim0 expects 1 dTensor"@,
                not_float_tensor(),
            ),
        ),
{
    operand(arguments, heap, "mean_dim0 expects 1 dTensor", not_float_tensor_error())
}

/// What `t_log` takes the logarithm of, item by item.
pub fn t_log_operand(
    arguments: &Vec<Value>,
    heap: &Heap,
) -> (r: Result<(Vec<Value>, Vec<usize>), Error>)
    ensures
        got_tensor(
            r,
            one_tensor(
                heap@,
                views(arguments@),
                "t_log expects exactly 1 dTensor argument"@,
                not_floats(),
            ),
        ),
{
    operand(arguments, heap, "t_log expects exactly 1 dTensor argument", not_floats_error())
}

/// What `t_scalar_add` adds to, item by item, and what it adds.
pub fn t_scalar_add_operands(
    arguments: &Vec<Value>,
    heap: &Heap,
) -> (r: Result<(Vec<Value>, Vec<usize>, u32), Error>)
    ensures
        match r {
            Ok((values, shape, scalar)) => tensor_and_scalar(
                heap@,
                views(arguments@),
                "t_scalar_add expects 1 dTensor and 1 f32 argument"@,
                not_floats(),
            ) == Ok::<(Seq<ValueView>, Seq<usize>, u32), ErrorView>(
                (views(values@), shape@, scalar),
            ),
            Err(e) => tensor_and_scalar(
                heap@,
                views(arguments@),
                "t_scalar_add expects 1 dTensor and 1 f32 argument"@,
                not_floats(),
            ) == Err::<(Seq<ValueView>, Seq<usize>, u32), ErrorView>(e@),
        },
{
    scaled_operand(
        arguments,
        heap,
        "t_scalar_add expects 1 dTensor and 1 f32 argument",
        not_floats_error(),
    )
}

/// What `t_scalar_div` divides, item by item, and what it divides by.
pub fn t_scalar_div_operands(
    arguments: &Vec<Value>,
    heap: &Heap,
) -> (r: Result<(Vec<Value>, Vec<usize>, u32), Error>)
    ensures
        match r {
            Ok((values, shape, scalar)) => tensor_and_scalar(
                heap@,
                views(arguments@),
                "t_scalar_div expects 1 dTensor and 1 f32 argument"@,
                not_floats(),
            ) == Ok::<(Seq<ValueView>, Seq<usize>, u32), ErrorView>(
                (views(values@), shape@, scalar),
            ),
            Err(e) => tensor_and_scalar(
                heap@,
                views(arguments@),
                "t_scalar_div expects 1 dTensor and 1 f32 argument"@,
                not_floats(),
            ) == Err::<(Seq<ValueView>, Seq<usize>, u32), ErrorView>(e@),
        },
{
    scaled_operand(
        arguments,
        heap,
        "t_scalar_div expects 1 dTensor and 1 f32 argument",
        not_floats_error(),
    )
}

/// What `t_sub` subtracts from, and what it subtracts from each row.
pub fn t_sub_operands(
    arguments: &Vec<Value>,
    heap: &Heap,
) -> (r: Result<((Vec<Value>, Vec<usize>), (Vec<Value>, Vec<usize>)), Error>)
    ensures
        got_tensors(
            r,
            two_tensors(
                heap@,
                views(arguments@),
                "t_sub expects 2 dTensor arguments"@,
                not_float_tensor(),
                not_float_tensor(),
            ),
        ),
{
    operands(
        arguments,
        heap,
        "t_sub expects 2 dTensor arguments",
        not_float_tensor_error(),
        not_float_tensor_error(),
    )
}

/// What `t_mul` multiplies, item by item.
pub open spec fn factors(
    h: HeapView,
    arguments: Seq<ValueView>,
) -> Result<((Seq<ValueView>, Seq<usize>), (Seq<ValueView>, Seq<usize>)), ErrorView> {
    match two_tensors(
        h,
        arguments,
        "t_mul expects exactly 2 dTensor arguments"@,
        ErrorView::Runtime("invalid first tensor heap object or element type"@),
        ErrorView::Runtime("invalid second tensor heap object or element type"@),
    ) {
        Err(e) => Err(e),
        Ok((left, right)) => if left.0.len() != right.0.len() {
            Err(
                misused(
                    "t_mul expects tensors of the same size for element-wise multiplication"@,
                ),
            )
        } else {
            Ok((left, right))
        },
    }
}

/// What `t_mul` multiplies, item by item. The product has the shape of the
/// first tensor.
pub fn t_mul_operands(
    arguments: &Vec<Value>,
    heap: &Heap,
) -> (r: Result<((Vec<Value>, Vec<usize>), (Vec<Value>, Vec<usize>)), Error>)
    ensures
        got_tensors(r, factors(heap@, views(arguments@))),
{
    let (left, right) = operands(
        arguments,
        heap,
        "t_mul expects exactly 2 dTensor arguments",
        runtime_error("invalid first tensor heap object or element type"),
        runtime_error("invalid second tensor heap object or element type"),
    )?;
    if left.0.len() != right.0.len() {
        return Err(
            runtime_error("t_mul expects tensors of the same size for element-wise multiplication"),
        );
    }
    Ok((left, right))
}

/// What `svdvals` takes the singular values of: a matrix.
pub open spec fn matrix(
    h: HeapView,
    arguments: Seq<ValueView>,
) -> Result<(Seq<ValueView>, Seq<usize>), ErrorView> {
    match one_tensor(h, arguments, "svdvals expects 1 dTensor"@, not_float_tensor()) {
        Err(e) => Err(e),
        Ok((values, shape)) => if shape.len() != 2 {
            Err(misused("SVD requires a 2D tensor"@))
        } else {
            Ok((values, shape))
        },
    }
}

/// What `svdvals` takes the singular values of.
pub fn svdvals_operand(
    arguments: &Vec<Value>,
    heap: &Heap,
) -> (r: Result<(Vec<Value>, Vec<usize>), Error>)
    ensures
        got_tensor(r, matrix(heap@, views(arguments@))),
{
    let (values, shape) = operand(
        arguments,
        heap,
        "svdvals expects 1 dTensor",
        not_float_tensor_error(),
    )?;
    if shape.len() != 2 {
        return Err(runtime_error("SVD requires a 2D tensor"));
    }
    Ok((values, shape))
}

/// A new tensor of floats in the heap.
pub open spec fn float_tensor_result(h: HeapView, values: Seq<ValueView>, shape: Seq<usize>) -> (
    HeapView,
    Result<ValueView, ErrorView>,
) {
    match packed(values, TypeView::F32) {
        Err(e) => (h, Err(e)),
        Ok(bytes) => (
            with_object(h, ObjectView::Tensor { bytes, element: TypeView::F32, shape }),
            Ok(ValueView::Tensor(fresh(h), TypeView::DTensor)),
        ),
    }
}

/// Puts floats into the heap as a tensor.
pub fn float_tensor(
    heap: &mut Heap,
    values: &Vec<Value>,
    shape: Vec<usize>,
) -> (r: Result<Value, Error>)
    requires
        old(heap).wf(),
    ensures
        final(heap).wf(),
        match r {
            Ok(v) => float_tensor_result(old(heap)@, views(values@), shape@) == (
                final(heap)@,
                Ok::<ValueView, ErrorView>(v@),
            ),
            Err(e) => float_tensor_result(old(heap)@, views(values@), shape@) == (
                final(heap)@,
                Err::<ValueView, ErrorView>(e@),
            ),
        },
{
    let bytes = pack_values(values, &Type::F32, values.len())?;
    let reference = heap.allocate(HeapObject::Tensor { bytes, element: Type::F32, shape });
    Ok(Value::Tensor(reference, Rc::new(Type::DTensor)))
}

/// A new vector of floats in the heap.
pub open spec fn float_vector_result(h: HeapView, values: Seq<ValueView>) -> (
    HeapView,
    Result<ValueView, ErrorView>,
) {
    match packed(values, TypeView::F32) {
        Err(e) => (h, Err(e)),
        Ok(bytes) => (
            with_object(h, ObjectView::Array { bytes, element: TypeView::F32 }),
            Ok(ValueView::Array(fresh(h), TypeView::F32)),
        ),
    }
}

/// Puts floats into the heap as a vector.
pub fn float_vector(heap: &mut Heap, values: &Vec<Value>) -> (r: Result<Value, Error>)
    requires
        old(heap).wf(),
    ensures
        final(heap).wf(),
        match r {
            Ok(v) => float_vector_result(old(heap)@, views(values@)) == (
                final(heap)@,
                Ok::<ValueView, ErrorView>(v@),
            ),
            Err(e) => float_vector_result(old(heap)@, views(values@)) == (
                final(heap)@,
                Err::<ValueView, ErrorView>(e@),
            ),
        },
{
    let bytes = pack_values(values, &Type::F32, values.len())?;
    let reference = heap.allocate(HeapObject::Array { bytes, element: Type::F32 });
    Ok(Value::Array(reference, Box::new(Type::F32)))
}

/// The tensor and the two dimensions that `t_reshape` is called on.
pub open spec fn reshape_operands(arguments: Seq<ValueView>) -> Option<(HeapRef, i32, i32)> {
    if arguments.len() == 3 {
        match (arguments[0], arguments[1], arguments[2]) {
            (ValueView::Tensor(r, _), ValueView::I32(rows), ValueView::I32(columns)) => Some(
                (r, rows, columns),
            ),
            _ => None,
        }
    } else {
        None
    }
}

/// The dimensions of `total` items, where -1 stands for as many as are left.
pub open spec fn two_dims(total: int, rows: int, columns: int) -> (int, int) {
    if rows == -1 {
        (trunc_div(total, columns), columns)
    } else if columns == -1 {
        (rows, trunc_div(total, rows))
    } else {
        (rows, columns)
    }
}

/// Whether `t_reshape` can be carried out: the number of items of the tensor
/// can be counted, and nothing is divided by zero or out of range.
pub open spec fn can_reshape(h: HeapView, arguments: Seq<ValueView>) -> bool {
    match reshape_operands(arguments) {
        None => true,
        Some((r, rows, columns)) => match object_at(h, r) {
            Ok(ObjectView::Tensor { shape, .. }) => {
                &&& count_from(1, shape, 0) is Ok
                &&& rows == -1 ==> columns != 0
                &&& rows == -1 && columns == -1 ==> (count_from(1, shape, 0)->Ok_0 as isize)
                    != isize::MIN
                &&& rows != -1 && columns == -1 ==> rows != 0
            },
            _ => true,
        },
    }
}

/// The tensor with the same items and other dimensions.
pub open spec fn reshape_result(h: HeapView, arguments: Seq<ValueView>) -> (
    HeapView,
    Result<ValueView, ErrorView>,
) {
    match reshape_operands(arguments) {
        None => (h, Err(misused("t_reshape expects 1 dTensor and 2 i32 arguments"@))),
        Some((r, rows, columns)) => match object_at(h, r) {
            Err(e) => (h, Err(e)),
            Ok(object) => match object {
                ObjectView::Tensor { bytes, element, shape } => {
                    let total = (count_from(1, shape, 0)->Ok_0 as isize) as int;
                    let dims = two_dims(total, rows as int, columns as int);
                    (
                        with_object(
                            h,
                            ObjectView::Tensor {
                                bytes,
                                element,
                                shape: seq![
                                    (dims.0 as isize) as usize,
                                    (dims.1 as isize) as usize,
                                ],
                            },
                        ),
                        Ok(ValueView::Tensor(fresh(h), TypeView::DTensor)),
                    )
                },
                _ => (h, Err(misused("invalid tensor object"@))),
            },
        },
    }
}

fn three_arguments(arguments: &Vec<Value>) -> (r: Option<(HeapRef, i32, i32)>)
    ensures
        r == reshape_operands(views(arguments@)),
{
    if arguments.len() == 3 {
        assert(views(arguments@)[0] == arguments@[0]@);
        assert(views(arguments@)[1] == arguments@[1]@);
        assert(views(arguments@)[2] == arguments@[2]@);
        if let (Value::Tensor(reference, _), Value::I32(rows), Value::I32(columns)) = (
            &arguments[0],
            &arguments[1],
            &arguments[2],
        ) {
            return Some((*reference, *rows, *columns));
        }
    }
    None
}

/// Whether `t_reshape` can be carried out.
pub fn reshape_is_possible(arguments: &Vec<Value>, heap: &Heap) -> (r: bool)
    ensures
        r == can_reshape(heap@, views(arguments@)),
{
    match three_arguments(arguments) {
        None => true,
        Some((reference, rows, columns)) => match heap.get(reference) {
            Ok(HeapObject::Tensor { shape, .. }) => match item_count(shape) {
                Err(_) => false,
                Ok(count) => {
                    let total: isize = count as isize;
                    if rows == -1 {
                        columns != 0 && (columns != -1 || total != isize::MIN)
                    } else {
                        columns != -1 || rows != 0
                    }
                },
            },
            _ => true,
        },
    }
}

fn quotient(total: isize, d: i32) -> (r: isize)
    requires
        d != 0,
        d != -1 || total != isize::MIN,
    ensures
        r == trunc_div(total as int, d as int),
{
    let r: i128 = divide(total as i128, d as i128);
    proof {
        lemma_quotient(total as int, d as int);
    }
    r as isize
}

proof fn lemma_quotient(l: int, r: int)
    requires
        r != 0,
    ensures
        l >= 0 ==> -l <= trunc_div(l, r) <= l,
        l < 0 ==> l <= trunc_div(l, r) <= -l,
        l < 0 && r != -1 ==> trunc_div(l, r) < -l,
{
    let a = if l < 0 { -l } else { l };
    let d = if r < 0 { -r } else { r };
    assert(0 <= a / d <= a) by (nonlinear_arith)
        requires
            a >= 0,
            d >= 1,
    ;
    if a > 0 && d >= 2 {
        assert(a / d < a) by (nonlinear_arith)
            requires
                a > 0,
                d >= 2,
        ;
    }
}

/// Gives a tensor two other dimensions.
pub fn t_reshape(arguments: &Vec<Value>, heap: &mut Heap) -> (r: Result<Value, Error>)
    requires
        old(heap).wf(),
        can_reshape(old(heap)@, views(arguments@)),
    ensures
        final(heap).wf(),
        match r {
            Ok(v) => reshape_result(old(heap)@, views(arguments@)) == (
                final(heap)@,
                Ok::<ValueView, ErrorView>(v@),
            ),
            Err(e) => reshape_result(old(heap)@, views(arguments@)) == (
                final(heap)@,
                Err::<ValueView, ErrorView>(e@),
            ),
        },
{
    let (reference, rows, columns) = match three_arguments(arguments) {
        Some(found) => found,
        None => {
            return Err(runtime_error("t_reshape expects 1 dTensor and 2 i32 arguments"));
        },
    };
    let (bytes, element, total) = match heap.get(reference)? {
        HeapObject::Tensor { bytes, element, shape } => {
            let total: isize = match item_count(shape) {
                Ok(count) => count as isize,
                Err(_) => 0,
            };
            (copy_bytes(bytes), element.clone(), total)
        },
        _ => {
            return Err(runtime_error("invalid tensor object"));
        },
    };
    let mut first: isize = rows as isize;
    let mut second: isize = columns as isize;
    if rows == -1 {
        first = quotient(total, columns);
    } else if columns == -1 {
        second = quotient(total, rows);
    }
    let mut shape: Vec<usize> = Vec::new();
    shape.push(first as usize);
    shape.push(second as usize);
    let ghost dims = shape@;
    let reference = heap.allocate(HeapObject::Tensor { bytes, element, shape });
    proof {
        let d = two_dims(total as int, rows as int, columns as int);
        assert(dims =~= seq![(d.0 as isize) as usize, (d.1 as isize) as usize]);
    }
    Ok(Value::Tensor(reference, Rc::new(Type::DTensor)))
}

fn copy_bytes(bytes: &Vec<u8>) -> (r: Vec<u8>)
    ensures
        r@ == bytes@,
{
    let mut out: Vec<u8> = Vec::with_capacity(bytes.len());
    let mut k: usize = 0;
    while k < bytes.len()
        invariant
            k <= bytes@.len(),
            out@ == bytes@.take(k as int),
        decreases bytes@.len() - k,
    {
        out.push(bytes[k]);
        assert(out@ =~= bytes@.take(k + 1));
        k += 1;
    }
    assert(bytes@.take(bytes@.len() as int) =~= bytes@);
    out
}

/// A dimension that is left open is filled in so that the number of items stays
/// the same, where the other one divides it.
pub proof fn open_dimensions_fit(total: int, rows: int, columns: int)
    requires
        total >= 0,
        rows == -1 && columns > 0 && total % columns == 0 || columns == -1 && rows > 0 && total
            % rows == 0,
    ensures
        two_dims(total, rows, columns).0 * two_dims(total, rows, columns).1 == total,
{
    if rows == -1 {
        assert(total / columns * columns == total) by (nonlinear_arith)
            requires
                columns > 0,
                total % columns == 0,
        ;
    } else {
        assert(rows * (total / rows) == total) by (nonlinear_arith)
            requires
                rows > 0,
                total % rows == 0,
        ;
    }
}

} // verus!
