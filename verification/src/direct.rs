//! The functions on tensors that the program itself registers: they take floats
//! of 32 and 16 bits, and run on a given device.
use vstd::prelude::*;
use std::rc::Rc;
use candle_core::{Device, Tensor};
use crate::bridge::{
    Source, came_to, complete, fetch, filled, given, got_source, heap_tensor, heap_vector,
    is_complete, lemma_applied, tensor_in, vector_in,
};
use crate::candle::{applied, can_be_counted, part, product_can_be_counted};
use crate::heap::{Heap, HeapObject, ObjectView, with_object};
use crate::host::misused;
use crate::semantics::{HeapView, fresh};
use crate::tensors::{
    FloatKind, Items, Kind, contents, countable, multiply, product_countable, product_dims,
    product_gives, squeeze, tensor_dims, tensor_from, tensor_kind, unsqueeze, unsqueezed,
};
use crate::text::cat2;
use crate::types::{Error, ErrorView, Type, TypeView, runtime_error};
use crate::value::{Value, ValueView};
use crate::views::{group_views, views};

verus! {

broadcast use group_views;

/// The float types that are taken.
pub open spec fn direct_kind(t: TypeView) -> Option<FloatKind> {
    match t {
        TypeView::F32 => Some(FloatKind::F32),
        TypeView::F16 => Some(FloatKind::F16),
        _ => None,
    }
}

fn kind_of_direct(ty: &Type) -> (r: Option<FloatKind>)
    ensures
        r == direct_kind(ty@),
{
    match ty {
        Type::F32 => Some(FloatKind::F32),
        Type::F16 => Some(FloatKind::F16),
        _ => None,
    }
}

/// The items of a tensor that a function is called on.
pub open spec fn direct_tensor(h: HeapView, v: ValueView) -> Result<(FloatKind, Items), ErrorView> {
    match v {
        ValueView::Tensor(r, ty) => match ty {
            TypeView::Tensor(element, _) => match direct_kind(*element) {
                Some(kind) => match heap_tensor(h, r, *element, kind) {
                    Ok(i) => Ok((kind, i)),
                    Err(e) => Err(e),
                },
                None => Err(misused("Unsupported tensor type. Use f32 or f16."@)),
            },
            _ => Err(misused("Invalid tensor type"@)),
        },
        _ => Err(misused("Expected tensor"@)),
    }
}

/// The items of a vector that a function is called on.
pub open spec fn direct_vector(h: HeapView, v: ValueView) -> Result<(FloatKind, Items), ErrorView> {
    match v {
        ValueView::Array(r, element) => match direct_kind(element) {
            Some(kind) => match heap_vector(h, r, element, kind, "> or dArray"@) {
                Ok(i) => Ok((kind, i)),
                Err(e) => Err(e),
            },
            None => Err(misused("Unsupported vector type. Use vector<f32> or vector<f16>."@)),
        },
        _ => Err(misused("Expected vector"@)),
    }
}

fn take_tensor(value: &Value, heap: &Heap) -> (r: Result<Source, Error>)
    ensures
        got_source(r, direct_tensor(heap@, value@)),
{
    let (reference, ty) = match value {
        Value::Tensor(reference, ty) => (*reference, ty),
        _ => {
            return Err(runtime_error("Expected tensor"));
        },
    };
    let element: &Type = match &**ty {
        Type::Tensor(element, _) => element,
        _ => {
            return Err(runtime_error("Invalid tensor type"));
        },
    };
    match kind_of_direct(element) {
        Some(kind) => tensor_in(heap, reference, element, kind),
        None => Err(runtime_error("Unsupported tensor type. Use f32 or f16.")),
    }
}

fn take_vector(value: &Value, heap: &Heap) -> (r: Result<Source, Error>)
    ensures
        got_source(r, direct_vector(heap@, value@)),
        r matches Ok(s) ==> filled(s@.1, s.kind) && s.dims@.len() == 1,
{
    let (reference, element) = match value {
        Value::Array(reference, element) => (*reference, element),
        _ => {
            return Err(runtime_error("Expected vector"));
        },
    };
    match kind_of_direct(element) {
        Some(kind) => vector_in(heap, reference, element, kind, "> or dArray"),
        None => Err(runtime_error("Unsupported vector type. Use vector<f32> or vector<f16>.")),
    }
}

/// A tensor of the candle crate with the given items.
fn place(source: &Source, device: &Device) -> (r: Result<Tensor, Error>)
    requires
        complete(source@.1, source.kind),
    ensures
        match r {
            Ok(t) => contents(t) == source@.1,
            Err(e) => e@ is Runtime,
        },
{
    match tensor_from(&source.bytes, source.kind, &source.dims, device) {
        Ok(t) => Ok(t),
        Err(text) => Err(
            Error::Runtime(
                match source.kind {
                    FloatKind::F32 => cat2("Candle f32 error: ", text.as_str()),
                    _ => cat2("Candle f16 error: ", text.as_str()),
                },
            ),
        ),
    }
}

/// The reason why there is no device.
pub open spec fn no_device(device: Result<Device, String>) -> Option<ErrorView> {
    match device {
        Ok(_) => None,
        Err(text) => Some(ErrorView::Runtime(text@)),
    }
}

/// The two tensors that `direct_matmul` is called on.
pub open spec fn direct_factors(
    h: HeapView,
    arguments: Seq<ValueView>,
    missing: Option<ErrorView>,
) -> Result<((FloatKind, Items), (FloatKind, Items)), ErrorView> {
    match missing {
        Some(e) => Err(e),
        None => match direct_tensor(h, arguments[0]) {
            Err(e) => Err(e),
            Ok(a) => match direct_tensor(h, arguments[1]) {
                Err(e) => Err(e),
                Ok(b) => Ok((a, b)),
            },
        },
    }
}

/// Whether `direct_matmul` can be carried out: it takes two arguments.
pub open spec fn direct_matmul_allowed(h: HeapView, arguments: Seq<ValueView>) -> bool {
    &&& arguments.len() >= 2
    &&& match direct_factors(h, arguments, None) {
        Err(_) => true,
        Ok((a, b)) => {
            &&& complete(a.1, a.0)
            &&& complete(b.1, b.0)
            &&& product_countable(a.1.dims, b.1.dims)
        },
    }
}

/// The float type of a kind of items, where it is taken.
pub open spec fn direct_type(kind: Kind) -> Option<TypeView> {
    match kind {
        Kind::F32 => Some(TypeView::F32),
        Kind::F16 => Some(TypeView::F16),
        _ => None,
    }
}

fn type_of_direct(kind: Kind) -> (r: Option<Type>)
    ensures
        match r {
            Some(ty) => direct_type(kind) == Some(ty@),
            None => direct_type(kind) is None,
        },
{
    match kind {
        Kind::F32 => Some(Type::F32),
        Kind::F16 => Some(Type::F16),
        _ => None,
    }
}

/// What a tensor of the candle crate becomes in the heap, as one of any rank,
/// from its kind, its extents and what the crate gave for its items.
pub open spec fn put_dynamic(
    h: HeapView,
    kind: Kind,
    dims: Seq<usize>,
    items: Result<Seq<u8>, Seq<char>>,
) -> (HeapView, Result<ValueView, ErrorView>) {
    match items {
        Err(text) => (h, Err(ErrorView::Runtime(text))),
        Ok(bytes) => match direct_type(kind) {
            None => (h, Err(misused("Unsupported output dtype from Candle"@))),
            Some(element) => (
                with_object(h, ObjectView::Tensor { bytes, element, shape: dims }),
                Ok(ValueView::Tensor(fresh(h), TypeView::DTensor)),
            ),
        },
    }
}

/// The same as a vector.
pub open spec fn put_plain(h: HeapView, kind: Kind, items: Result<Seq<u8>, Seq<char>>) -> (
    HeapView,
    Result<ValueView, ErrorView>,
) {
    match items {
        Err(text) => (h, Err(ErrorView::Runtime(text))),
        Ok(bytes) => match direct_type(kind) {
            None => (h, Err(misused("Unsupported output dtype from Candle"@))),
            Some(element) => (
                with_object(h, ObjectView::Array { bytes, element }),
                Ok(ValueView::Array(fresh(h), element)),
            ),
        },
    }
}

/// Puts items of the candle crate into the heap as a tensor of any rank, or
/// passes the failure on.
pub fn store_dynamic(
    kind: Kind,
    dims: Vec<usize>,
    items: Result<Vec<u8>, String>,
    heap: &mut Heap,
) -> (r: Result<Value, Error>)
    requires
        old(heap).wf(),
    ensures
        final(heap).wf(),
        came_to(final(heap)@, r, put_dynamic(old(heap)@, kind, dims@, given(items))),
{
    let bytes = match items {
        Ok(bytes) => bytes,
        Err(text) => {
            return Err(Error::Runtime(text));
        },
    };
    match type_of_direct(kind) {
        Some(element) => {
            let reference = heap.allocate(HeapObject::Tensor { bytes, element, shape: dims });
            Ok(Value::Tensor(reference, Rc::new(Type::DTensor)))
        },
        None => Err(runtime_error("Unsupported output dtype from Candle")),
    }
}

/// Puts items of the candle crate into the heap as a vector, or passes the
/// failure on.
pub fn store_plain(kind: Kind, items: Result<Vec<u8>, String>, heap: &mut Heap) -> (r: Result<
    Value,
    Error,
>)
    requires
        old(heap).wf(),
    ensures
        final(heap).wf(),
        came_to(final(heap)@, r, put_plain(old(heap)@, kind, given(items))),
{
    let bytes = match items {
        Ok(bytes) => bytes,
        Err(text) => {
            return Err(Error::Runtime(text));
        },
    };
    match type_of_direct(kind) {
        Some(element) => {
            let ty = element.clone();
            let reference = heap.allocate(HeapObject::Array { bytes, element });
            Ok(Value::Array(reference, Box::new(ty)))
        },
        None => Err(runtime_error("Unsupported output dtype from Candle")),
    }
}

/// The product of two tensors on a device: the `candle_matmul` of the program.
pub fn direct_matmul(
    arguments: &Vec<Value>,
    heap: &mut Heap,
    device: Result<Device, String>,
) -> (r: Result<Value, Error>)
    requires
        old(heap).wf(),
        direct_matmul_allowed(old(heap)@, views(arguments@)),
    ensures
        final(heap).wf(),
        r is Err ==> final(heap)@ == old(heap)@,
        match direct_factors(old(heap)@, views(arguments@), no_device(device)) {
            Err(e) => r is Err && r->Err_0@ == e,
            Ok((a, b)) => match r {
                Err(e) => e@ is Runtime,
                Ok(v) => exists|x: Items| #[trigger]
                    product_gives(a.1, b.1, x) && x.kind == a.1.kind && a.1.dims.len()
                        == b.1.dims.len() && a.1.dims.len() >= 2 && x.dims == product_dims(
                        a.1.dims.take(a.1.dims.len() - 2),
                        a.1.dims,
                        b.1.dims,
                    ) && put_dynamic(old(heap)@, x.kind, x.dims, Ok(x.bytes)) == (
                        final(heap)@,
                        Ok::<ValueView, ErrorView>(v@),
                    ),
            },
        },
{
    assert(views(arguments@)[0] == arguments@[0]@);
    assert(views(arguments@)[1] == arguments@[1]@);
    let device: Device = match device {
        Ok(device) => device,
        Err(text) => {
            return Err(Error::Runtime(text));
        },
    };
    let left = take_tensor(&arguments[0], heap)?;
    let right = take_tensor(&arguments[1], heap)?;
    let a = place(&left, &device)?;
    let b = place(&right, &device)?;
    match multiply(&a, &b) {
        Ok(x) => {
            assert(product_gives(contents(a), contents(b), contents(x)));
            store_dynamic(tensor_kind(&x), tensor_dims(&x), fetch(&x), heap)
        },
        Err(text) => Err(Error::Runtime(cat2("Candle matmul failed: ", text.as_str()))),
    }
}

/// The matrix and the vector that `direct_layer` is called on.
pub open spec fn direct_operands(
    h: HeapView,
    arguments: Seq<ValueView>,
    missing: Option<ErrorView>,
) -> Result<((FloatKind, Items), Items), ErrorView> {
    if arguments.len() != 2 {
        Err(misused("candle_l0_layer expects 1 tensor and 1 vector"@))
    } else {
        match missing {
            Some(e) => Err(e),
            None => match direct_tensor(h, arguments[0]) {
                Err(e) => Err(e),
                Ok(w) => match direct_vector(h, arguments[1]) {
                    Err(e) => Err(e),
                    Ok(x) => Ok((w, x.1)),
                },
            },
        }
    }
}

/// Whether `direct_layer` can be carried out.
pub open spec fn direct_layer_allowed(h: HeapView, arguments: Seq<ValueView>) -> bool {
    match direct_operands(h, arguments, None) {
        Err(_) => true,
        Ok((w, x)) => {
            &&& complete(w.1, w.0)
            &&& countable(x.dims)
            &&& product_countable(w.1.dims, unsqueezed(x, 1).dims)
        },
    }
}

/// The product of a matrix and a vector on a device, as a vector: the
/// `candle_l0_layer` of the program.
pub fn direct_layer(
    arguments: &Vec<Value>,
    heap: &mut Heap,
    device: Result<Device, String>,
) -> (r: Result<Value, Error>)
    requires
        old(heap).wf(),
        direct_layer_allowed(old(heap)@, views(arguments@)),
    ensures
        final(heap).wf(),
        r is Err ==> final(heap)@ == old(heap)@,
        match direct_operands(old(heap)@, views(arguments@), no_device(device)) {
            Err(e) => r is Err && r->Err_0@ == e,
            Ok((w, x)) => match r {
                Err(e) => e@ is Runtime,
                Ok(v) => exists|y: Items| #[trigger]
                    applied(w.1, x, y) && put_plain(old(heap)@, y.kind, Ok(y.bytes)) == (
                        final(heap)@,
                        Ok::<ValueView, ErrorView>(v@),
                    ),
            },
        },
{
    if arguments.len() != 2 {
        return Err(runtime_error("candle_l0_layer expects 1 tensor and 1 vector"));
    }
    assert(views(arguments@)[0] == arguments@[0]@);
    assert(views(arguments@)[1] == arguments@[1]@);
    let device: Device = match device {
        Ok(device) => device,
        Err(text) => {
            return Err(Error::Runtime(text));
        },
    };
    let weights = take_tensor(&arguments[0], heap)?;
    let input = take_vector(&arguments[1], heap)?;
    let w = place(&weights, &device)?;
    let x = place(&input, &device)?;
    let column = match unsqueeze(&x, 1) {
        Ok(column) => column,
        Err(text) => {
            return Err(Error::Runtime(cat2("Candle unsqueeze error: ", text.as_str())));
        },
    };
    let product = match multiply(&w, &column) {
        Ok(product) => product,
        Err(text) => {
            return Err(Error::Runtime(cat2("Candle matmul error: ", text.as_str())));
        },
    };
    assert(product_gives(contents(w), unsqueezed(contents(x), 1), contents(product)));
    match squeeze(&product, 1) {
        Ok(y) => {
            proof {
                assert(applied(contents(w), contents(x), contents(y)));
                lemma_applied(contents(w), contents(x), contents(y));
            }
            store_plain(tensor_kind(&y), fetch(&y), heap)
        },
        Err(text) => Err(Error::Runtime(cat2("Candle squeeze error: ", text.as_str()))),
    }
}

/// Whether `direct_matmul` can be carried out.
pub fn direct_matmul_is_possible(arguments: &Vec<Value>, heap: &Heap) -> (r: bool)
    ensures
        r == direct_matmul_allowed(heap@, views(arguments@)),
{
    if arguments.len() < 2 {
        return false;
    }
    assert(views(arguments@)[0] == arguments@[0]@);
    assert(views(arguments@)[1] == arguments@[1]@);
    match take_tensor(&arguments[0], heap) {
        Err(_) => true,
        Ok(a) => match take_tensor(&arguments[1], heap) {
            Err(_) => true,
            Ok(b) => is_complete(&a) && is_complete(&b) && product_can_be_counted(&a.dims, &b.dims),
        },
    }
}

/// Whether `direct_layer` can be carried out.
pub fn direct_layer_is_possible(arguments: &Vec<Value>, heap: &Heap) -> (r: bool)
    ensures
        r == direct_layer_allowed(heap@, views(arguments@)),
{
    if arguments.len() != 2 {
        return true;
    }
    assert(views(arguments@)[0] == arguments@[0]@);
    assert(views(arguments@)[1] == arguments@[1]@);
    match take_tensor(&arguments[0], heap) {
        Err(_) => true,
        Ok(w) => match take_vector(&arguments[1], heap) {
            Err(_) => true,
            Ok(x) => {
                let mut column = part(&x.dims, 0, x.dims.len());
                column.insert(1, 1);
                assert(column@ =~= x.dims@.insert(1, 1));
                is_complete(&w) && can_be_counted(&x.dims) && product_can_be_counted(
                    &w.dims,
                    &column,
                )
            },
        },
    }
}

} // verus!
