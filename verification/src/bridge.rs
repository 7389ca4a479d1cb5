//! Vectors and tensors of programs as tensors of the candle crate, and back.
use vstd::prelude::*;
use std::rc::Rc;
use candle_core::{Device, Tensor};
use crate::candle::{
    Tensors, applied, apply_matrix, argmax_allowed, counted, lookup, number, one_number, part,
    product_can_be_counted,
};
use crate::heap::{Heap, HeapObject, ObjectView, allocation_is_fresh, object_at, with_object};
use crate::host::{copy_shape, misused};
use crate::semantics::{HeapView, fresh, volume};
use crate::tensors::{
    FloatKind, Items, Kind, add_items, best_device, bulk, clipped, contents, countable, dims_of,
    item_bytes, kind_of, lemma_bulk, matching, multiply, on_processor, product_countable,
    product_dims, product_gives, relu, relu_gives, sum_gives, tensor_dims, tensor_from, tensor_kind,
    unsqueezed, wider,
};
use crate::text::cat3;
use crate::types::{Error, ErrorView, Type, TypeView, runtime_error, type_text};
use crate::value::{HeapRef, Value, ValueView};
use crate::views::{group_views, views};

verus! {

broadcast use group_views;

/// The float types that are exchanged.
pub open spec fn float_kind(t: TypeView) -> Option<FloatKind> {
    match t {
        TypeView::F32 => Some(FloatKind::F32),
        TypeView::F16 => Some(FloatKind::F16),
        TypeView::BF16 => Some(FloatKind::BF16),
        _ => None,
    }
}

/// The float type of a kind of items, where programs have it.
pub open spec fn float_type(kind: Kind) -> Option<TypeView> {
    match kind {
        Kind::F32 => Some(TypeView::F32),
        Kind::F16 => Some(TypeView::F16),
        Kind::BF16 => Some(TypeView::BF16),
        _ => None,
    }
}

/// As many bytes as make up whole items.
pub open spec fn whole_bytes(bytes: Seq<u8>, size: nat) -> Seq<u8> {
    bytes.take((bytes.len() / size * size) as int)
}

/// Whether there are as many items as the extents say.
pub open spec fn filled(i: Items, kind: FloatKind) -> bool {
    i.bytes.len() == volume(i.dims, 0) * kind.size()
}

/// Whether there are as many items as the extents say, and they can be counted.
pub open spec fn complete(i: Items, kind: FloatKind) -> bool {
    filled(i, kind) && countable(i.dims)
}

/// The items of a tensor in the heap.
pub open spec fn heap_tensor(
    h: HeapView,
    r: HeapRef,
    element: TypeView,
    kind: FloatKind,
) -> Result<Items, ErrorView> {
    let fault = ErrorView::Type("expected tensor<"@ + type_text(element) + ">"@);
    match object_at(h, r) {
        Err(e) => Err(e),
        Ok(object) => match object {
            ObjectView::Tensor { bytes, element: stored, shape } => if stored == element {
                Ok(
                    Items {
                        kind: kind.kind(),
                        dims: shape,
                        bytes: whole_bytes(bytes, kind.size()),
                    },
                )
            } else {
                Err(fault)
            },
            _ => Err(fault),
        },
    }
}

/// The items of a vector in the heap; `after` ends the message where it is none.
pub open spec fn heap_vector(
    h: HeapView,
    r: HeapRef,
    element: TypeView,
    kind: FloatKind,
    after: Seq<char>,
) -> Result<Items, ErrorView> {
    let fault = ErrorView::Type("expected vector<"@ + type_text(element) + after);
    match object_at(h, r) {
        Err(e) => Err(e),
        Ok(object) => match object {
            ObjectView::Array { bytes, element: stored } => if stored == element {
                Ok(
                    Items {
                        kind: kind.kind(),
                        dims: seq![(bytes.len() / kind.size()) as usize],
                        bytes: whole_bytes(bytes, kind.size()),
                    },
                )
            } else {
                Err(fault)
            },
            _ => Err(fault),
        },
    }
}

/// The items of a tensor that a function is called on.
pub open spec fn tensor_source(h: HeapView, v: ValueView) -> Result<(FloatKind, Items), ErrorView> {
    match v {
        ValueView::Tensor(r, ty) => match ty {
            TypeView::Tensor(element, _) => match float_kind(*element) {
                Some(kind) => match heap_tensor(h, r, *element, kind) {
                    Ok(i) => Ok((kind, i)),
                    Err(e) => Err(e),
                },
                None => Err(ErrorView::Runtime("Unsupported tensor element type"@)),
            },
            _ => Err(ErrorView::Runtime("Invalid tensor type"@)),
        },
        _ => Err(ErrorView::Runtime("Expected tensor"@)),
    }
}

/// The items of a vector that a function is called on.
pub open spec fn vector_source(h: HeapView, v: ValueView) -> Result<(FloatKind, Items), ErrorView> {
    match v {
        ValueView::Array(r, element) => match float_kind(element) {
            Some(kind) => match heap_vector(h, r, element, kind, ">"@) {
                Ok(i) => Ok((kind, i)),
                Err(e) => Err(e),
            },
            None => Err(ErrorView::Runtime("Unsupported vector type"@)),
        },
        _ => Err(ErrorView::Runtime("Expected vector"@)),
    }
}

fn kind_of_type(ty: &Type) -> (r: Option<FloatKind>)
    ensures
        r == float_kind(ty@),
{
    match ty {
        Type::F32 => Some(FloatKind::F32),
        Type::F16 => Some(FloatKind::F16),
        Type::BF16 => Some(FloatKind::BF16),
        _ => None,
    }
}

fn item_size(kind: FloatKind) -> (r: usize)
    ensures
        r == kind.size(),
{
    match kind {
        FloatKind::F32 => 4,
        FloatKind::F16 => 2,
        FloatKind::BF16 => 2,
    }
}

/// The first bytes of a buffer.
fn first_bytes(bytes: &Vec<u8>, n: usize) -> (r: Vec<u8>)
    requires
        n <= bytes@.len(),
    ensures
        r@ == bytes@.take(n as int),
{
    let mut out: Vec<u8> = Vec::with_capacity(n);
    let mut k: usize = 0;
    while k < n
        invariant
            k <= n <= bytes@.len(),
            out@ == bytes@.take(k as int),
        decreases n - k,
    {
        out.push(bytes[k]);
        assert(out@ =~= bytes@.take(k + 1));
        k += 1;
    }
    out
}

fn whole_items(bytes: &Vec<u8>, size: usize) -> (r: Vec<u8>)
    requires
        size == 2 || size == 4,
    ensures
        r@ == whole_bytes(bytes@, size as nat),
        r@.len() == bytes@.len() / size as nat * size,
{
    let count: usize = bytes.len() / size;
    assert(count * size <= bytes@.len()) by (nonlinear_arith)
        requires
            count == bytes@.len() / size as nat,
            size >= 1,
    ;
    first_bytes(bytes, count * size)
}

/// What is found in the heap for a tensor of the candle crate: the kind, the
/// extents and the bytes.
pub struct Source {
    pub kind: FloatKind,
    pub dims: Vec<usize>,
    pub bytes: Vec<u8>,
}

impl View for Source {
    type V = (FloatKind, Items);

    open spec fn view(&self) -> (FloatKind, Items) {
        (self.kind, Items { kind: self.kind.kind(), dims: self.dims@, bytes: self.bytes@ })
    }
}

/// Whether a source, or a failure, is what is wanted.
pub open spec fn got_source(
    r: Result<Source, Error>,
    wanted: Result<(FloatKind, Items), ErrorView>,
) -> bool {
    match r {
        Ok(s) => wanted == Ok::<(FloatKind, Items), ErrorView>(s@),
        Err(e) => wanted == Err::<(FloatKind, Items), ErrorView>(e@),
    }
}

/// Whether a source, or a failure, has the items that are wanted.
pub open spec fn got_items(
    r: Result<Source, Error>,
    kind: FloatKind,
    wanted: Result<Items, ErrorView>,
) -> bool {
    match r {
        Ok(s) => s.kind == kind && wanted == Ok::<Items, ErrorView>(s@.1),
        Err(e) => wanted == Err::<Items, ErrorView>(e@),
    }
}

/// The items of a tensor in the heap.
pub(crate) fn tensor_in(heap: &Heap, reference: HeapRef, element: &Type, kind: FloatKind) -> (r:
    Result<Source, Error>)
    ensures
        got_items(r, kind, heap_tensor(heap@, reference, element@, kind)),
{
    match heap.get(reference)? {
        HeapObject::Tensor { bytes, element: stored, shape } => {
            if stored.same(element) {
                return Ok(
                    Source {
                        kind,
                        dims: copy_shape(shape),
                        bytes: whole_items(bytes, item_size(kind)),
                    },
                );
            }
        },
        _ => {},
    }
    Err(Error::Type(cat3("expected tensor<", element.to_text().as_str(), ">")))
}

/// The items of a vector in the heap.
pub(crate) fn vector_in(
    heap: &Heap,
    reference: HeapRef,
    element: &Type,
    kind: FloatKind,
    after: &str,
) -> (r: Result<Source, Error>)
    ensures
        got_items(r, kind, heap_vector(heap@, reference, element@, kind, after@)),
        r matches Ok(s) ==> filled(s@.1, s.kind) && s.dims@.len() == 1,
{
    match heap.get(reference)? {
        HeapObject::Array { bytes, element: stored } => {
            if stored.same(element) {
                let size: usize = item_size(kind);
                let count: usize = bytes.len() / size;
                let mut dims: Vec<usize> = Vec::new();
                dims.push(count);
                proof {
                    assert(dims@ =~= seq![count]);
                    lemma_one_dim(count);
                }
                return Ok(Source { kind, dims, bytes: whole_items(bytes, size) });
            }
        },
        _ => {},
    }
    Err(Error::Type(cat3("expected vector<", element.to_text().as_str(), after)))
}

/// The items of a tensor that a function is called on.
pub fn source_of_tensor(value: &Value, heap: &Heap) -> (r: Result<Source, Error>)
    ensures
        got_source(r, tensor_source(heap@, value@)),
{
    let (reference, ty) = match value {
        Value::Tensor(reference, ty) => (*reference, ty),
        _ => {
            return Err(runtime_error("Expected tensor"));
        },
    };
    let element: &Type = match &**ty {
        Type::Tensor(element, _) => element,
        _ => {
            return Err(runtime_error("Invalid tensor type"));
        },
    };
    match kind_of_type(element) {
        Some(kind) => tensor_in(heap, reference, element, kind),
        None => Err(runtime_error("Unsupported tensor element type")),
    }
}

/// The items of a vector that a function is called on.
pub fn source_of_vector(value: &Value, heap: &Heap) -> (r: Result<Source, Error>)
    ensures
        got_source(r, vector_source(heap@, value@)),
        r matches Ok(s) ==> filled(s@.1, s.kind) && s.dims@.len() == 1,
{
    let (reference, element) = match value {
        Value::Array(reference, element) => (*reference, element),
        _ => {
            return Err(runtime_error("Expected vector"));
        },
    };
    match kind_of_type(element) {
        Some(kind) => vector_in(heap, reference, element, kind, ">"),
        None => Err(runtime_error("Unsupported vector type")),
    }
}

proof fn lemma_one_dim(n: usize)
    ensures
        countable(seq![n]) <==> n * 8 <= isize::MAX,
        volume(seq![n], 0) == n,
{
    reveal_with_fuel(bulk, 2);
    reveal_with_fuel(volume, 2);
    assert(bulk(seq![n], 1) == 1);
    assert(volume(seq![n], 1) == 1);
}

/// Whether a source has as many items as its extents say.
pub fn is_complete(source: &Source) -> (r: bool)
    ensures
        r == complete(source@.1, source.kind),
{
    match counted(&source.dims) {
        None => false,
        Some(n) => {
            let size: usize = item_size(source.kind);
            let have: usize = source.bytes.len();
            match n.checked_mul(size) {
                Some(total) => total == have,
                None => false,
            }
        },
    }
}

/// A tensor of the candle crate with the given items.
pub fn tensor_on(source: &Source, device: &Device) -> (r: Result<Tensor, Error>)
    requires
        complete(source@.1, source.kind),
    ensures
        match r {
            Ok(t) => contents(t) == source@.1,
            Err(e) => e@ is Runtime,
        },
{
    match tensor_from(&source.bytes, source.kind, &source.dims, device) {
        Ok(t) => Ok(t),
        Err(text) => Err(Error::Runtime(text)),
    }
}

/// Whether a tensor was put into the heap: as a tensor of its kind.
pub open spec fn stored_tensor(before: HeapView, after: HeapView, i: Items, v: ValueView) -> bool {
    match float_type(i.kind) {
        None => false,
        Some(element) => {
            &&& after == with_object(
                before,
                ObjectView::Tensor { bytes: i.bytes, element, shape: i.dims },
            )
            &&& v == ValueView::Tensor(
                fresh(before),
                TypeView::Tensor(Box::new(element), i.dims.len() as usize),
            )
        },
    }
}

/// Whether a tensor was put into the heap: as a vector of its kind.
pub open spec fn stored_vector(before: HeapView, after: HeapView, i: Items, v: ValueView) -> bool {
    match float_type(i.kind) {
        None => false,
        Some(element) => {
            &&& after == with_object(before, ObjectView::Array { bytes: i.bytes, element })
            &&& v == ValueView::Array(fresh(before), element)
        },
    }
}

fn type_of_kind(kind: Kind) -> (r: Option<Type>)
    ensures
        match r {
            Some(ty) => float_type(kind) == Some(ty@),
            None => float_type(kind) is None,
        },
{
    match kind {
        Kind::F32 => Some(Type::F32),
        Kind::F16 => Some(Type::F16),
        Kind::BF16 => Some(Type::BF16),
        _ => None,
    }
}

/// What a tensor of the candle crate becomes in the heap, from its kind, its
/// extents and what the crate gave for its items.
pub open spec fn put_tensor(
    h: HeapView,
    kind: Kind,
    dims: Seq<usize>,
    items: Result<Seq<u8>, Seq<char>>,
) -> (HeapView, Result<ValueView, ErrorView>) {
    match items {
        Err(text) => (h, Err(ErrorView::Runtime(text))),
        Ok(bytes) => match float_type(kind) {
            None => (h, Err(misused("Unsupported Candle dtype"@))),
            Some(element) => (
                with_object(h, ObjectView::Tensor { bytes, element, shape: dims }),
                Ok(
                    ValueView::Tensor(
                        fresh(h),
                        TypeView::Tensor(Box::new(element), dims.len() as usize),
                    ),
                ),
            ),
        },
    }
}

/// The same as a vector.
pub open spec fn put_vector(h: HeapView, kind: Kind, items: Result<Seq<u8>, Seq<char>>) -> (
    HeapView,
    Result<ValueView, ErrorView>,
) {
    match items {
        Err(text) => (h, Err(ErrorView::Runtime(text))),
        Ok(bytes) => match float_type(kind) {
            None => (h, Err(misused("Unsupported Candle dtype"@))),
            Some(element) => (
                with_object(h, ObjectView::Array { bytes, element }),
                Ok(ValueView::Array(fresh(h), element)),
            ),
        },
    }
}

/// Whether a heap and a result are what is wanted.
pub open spec fn came_to(
    after: HeapView,
    r: Result<Value, Error>,
    wanted: (HeapView, Result<ValueView, ErrorView>),
) -> bool {
    match r {
        Ok(v) => wanted == (after, Ok::<ValueView, ErrorView>(v@)),
        Err(e) => wanted == (after, Err::<ValueView, ErrorView>(e@)),
    }
}

/// The bytes that the candle crate gave, or its failure.
pub open spec fn given(items: Result<Vec<u8>, String>) -> Result<Seq<u8>, Seq<char>> {
    match items {
        Ok(bytes) => Ok(bytes@),
        Err(text) => Err(text@),
    }
}

/// Puts items of the candle crate into the heap as a tensor, or passes the
/// failure on.
pub fn store_tensor(
    kind: Kind,
    dims: Vec<usize>,
    items: Result<Vec<u8>, String>,
    heap: &mut Heap,
) -> (r: Result<Value, Error>)
    requires
        old(heap).wf(),
    ensures
        final(heap).wf(),
        came_to(final(heap)@, r, put_tensor(old(heap)@, kind, dims@, given(items))),
{
    let bytes = match items {
        Ok(bytes) => bytes,
        Err(text) => {
            return Err(Error::Runtime(text));
        },
    };
    match type_of_kind(kind) {
        Some(element) => {
            let ty = Type::Tensor(Box::new(element.clone()), dims.len());
            let reference = heap.allocate(HeapObject::Tensor { bytes, element, shape: dims });
            Ok(Value::Tensor(reference, Rc::new(ty)))
        },
        None => Err(runtime_error("Unsupported Candle dtype")),
    }
}

/// Puts items of the candle crate into the heap as a vector, or passes the
/// failure on.
pub fn store_vector(kind: Kind, items: Result<Vec<u8>, String>, heap: &mut Heap) -> (r: Result<
    Value,
    Error,
>)
    requires
        old(heap).wf(),
    ensures
        final(heap).wf(),
        came_to(final(heap)@, r, put_vector(old(heap)@, kind, given(items))),
{
    let bytes = match items {
        Ok(bytes) => bytes,
        Err(text) => {
            return Err(Error::Runtime(text));
        },
    };
    match type_of_kind(kind) {
        Some(element) => {
            let ty = element.clone();
            let reference = heap.allocate(HeapObject::Array { bytes, element });
            Ok(Value::Array(reference, Box::new(ty)))
        },
        None => Err(runtime_error("Unsupported Candle dtype")),
    }
}

/// Whether items are those of a tensor, or the failure to get at them. Items of
/// a kind that programs do not have are not fetched.
pub open spec fn fetched(i: Items, items: Result<Seq<u8>, Seq<char>>) -> bool {
    items matches Ok(bytes) ==> float_type(i.kind) is Some ==> bytes == i.bytes
}

pub(crate) fn fetch(t: &Tensor) -> (r: Result<Vec<u8>, String>)
    requires
        countable(dims_of(*t)),
    ensures
        fetched(contents(*t), given(r)),
{
    let near = on_processor(t)?;
    assert(contents(near).dims == contents(*t).dims);
    assert(contents(near).bytes == contents(*t).bytes);
    match type_of_kind(tensor_kind(t)) {
        Some(_) => item_bytes(&near),
        None => Ok(Vec::new()),
    }
}

/// Puts a tensor of the candle crate into the heap.
pub fn candle_to_tensor(t: &Tensor, heap: &mut Heap) -> (r: Result<Value, Error>)
    requires
        old(heap).wf(),
        countable(dims_of(*t)),
    ensures
        final(heap).wf(),
        exists|items: Result<Seq<u8>, Seq<char>>| #[trigger]
            fetched(contents(*t), items) && came_to(
                final(heap)@,
                r,
                put_tensor(old(heap)@, kind_of(*t), dims_of(*t), items),
            ),
        float_type(kind_of(*t)) is None ==> r is Err,
        match r {
            Ok(v) => stored_tensor(old(heap)@, final(heap)@, contents(*t), v@),
            Err(e) => final(heap)@ == old(heap)@ && e@ is Runtime,
        },
{
    let items = fetch(t);
    let ghost got = given(items);
    assert(fetched(contents(*t), got));
    store_tensor(tensor_kind(t), tensor_dims(t), items, heap)
}

/// Puts a tensor of the candle crate into the heap as a vector.
pub fn candle_to_vector(t: &Tensor, heap: &mut Heap) -> (r: Result<Value, Error>)
    requires
        old(heap).wf(),
        countable(dims_of(*t)),
    ensures
        final(heap).wf(),
        exists|items: Result<Seq<u8>, Seq<char>>| #[trigger]
            fetched(contents(*t), items) && came_to(
                final(heap)@,
                r,
                put_vector(old(heap)@, kind_of(*t), items),
            ),
        float_type(kind_of(*t)) is None ==> r is Err,
        match r {
            Ok(v) => stored_vector(old(heap)@, final(heap)@, contents(*t), v@),
            Err(e) => final(heap)@ == old(heap)@ && e@ is Runtime,
        },
{
    let items = fetch(t);
    let ghost got = given(items);
    assert(fetched(contents(*t), got));
    store_vector(tensor_kind(t), items, heap)
}

/// The items of the one tensor that a function by number is called on, as a
/// vector.
pub fn candle_get_darray(
    tensors: &Tensors,
    arguments: &Vec<Value>,
    heap: &mut Heap,
) -> (r: Result<Value, Error>)
    requires
        old(heap).wf(),
        argmax_allowed(tensors@, views(arguments@)),
    ensures
        final(heap).wf(),
        r is Err ==> final(heap)@ == old(heap)@,
        match one_number(views(arguments@)) {
            None => r is Err && r->Err_0@ == misused("expects i32"@),
            Some(id) => match lookup(tensors@, id) {
                Err(e) => r is Err && r->Err_0@ == e,
                Ok(t) => {
                    &&& exists|items: Result<Seq<u8>, Seq<char>>| #[trigger]
                        fetched(contents(t), items) && came_to(
                            final(heap)@,
                            r,
                            put_vector(old(heap)@, kind_of(t), items),
                        )
                    &&& float_type(kind_of(t)) is None ==> r is Err
                    &&& match r {
                        Err(e) => e@ is Runtime,
                        Ok(v) => stored_vector(old(heap)@, final(heap)@, contents(t), v@),
                    }
                },
            },
        },
{
    match number(arguments) {
        Some(id) => candle_to_vector(tensors.get_tensor(id)?, heap),
        None => Err(runtime_error("expects i32")),
    }
}

/// Whether the items of a vector that a function is called on can be counted.
pub open spec fn vector_allowed(h: HeapView, v: ValueView) -> bool {
    match vector_source(h, v) {
        Err(_) => true,
        Ok((_, i)) => countable(i.dims),
    }
}

/// Whether `candle_vector_add` and `candle_vector_relu` can be carried out.
pub open spec fn vectors_allowed(h: HeapView, arguments: Seq<ValueView>) -> bool {
    forall|k: int| 0 <= k < arguments.len() ==> #[trigger] vector_allowed(h, arguments[k])
}

/// Whether `candle_vector_add` and `candle_vector_relu` can be carried out.
pub fn vectors_are_possible(arguments: &Vec<Value>, heap: &Heap) -> (r: bool)
    ensures
        r == vectors_allowed(heap@, views(arguments@)),
{
    let mut k: usize = 0;
    while k < arguments.len()
        invariant
            k <= arguments@.len(),
            forall|j: int| 0 <= j < k ==> #[trigger] vector_allowed(heap@, views(arguments@)[j]),
        decreases arguments@.len() - k,
    {
        assert(views(arguments@)[k as int] == arguments@[k as int]@);
        if let Ok(source) = source_of_vector(&arguments[k], heap) {
            if counted(&source.dims).is_none() {
                assert(!vector_allowed(heap@, views(arguments@)[k as int]));
                return false;
            }
        }
        k += 1;
    }
    true
}

/// The two vectors that a function is called on.
pub open spec fn two_vectors(h: HeapView, arguments: Seq<ValueView>) -> Result<
    (Items, Items),
    ErrorView,
> {
    if arguments.len() != 2 {
        Err(misused("expects 2 dArrays"@))
    } else {
        match vector_source(h, arguments[0]) {
            Err(e) => Err(e),
            Ok(a) => match vector_source(h, arguments[1]) {
                Err(e) => Err(e),
                Ok(b) => Ok((a.1, b.1)),
            },
        }
    }
}

/// The sum of two vectors, item by item.
pub fn candle_vector_add(arguments: &Vec<Value>, heap: &mut Heap) -> (r: Result<Value, Error>)
    requires
        old(heap).wf(),
        vectors_allowed(old(heap)@, views(arguments@)),
    ensures
        final(heap).wf(),
        r is Err ==> final(heap)@ == old(heap)@,
        match two_vectors(old(heap)@, views(arguments@)) {
            Err(e) => r is Err && r->Err_0@ == e,
            Ok((a, b)) => match r {
                Err(e) => e@ is Runtime,
                Ok(v) => exists|sum: Items| #[trigger]
                    sum_gives(a, b, sum) && sum.kind == a.kind && sum.dims == wider(a.dims, b.dims)
                        && matching(a.dims, b.dims) && stored_vector(
                        old(heap)@,
                        final(heap)@,
                        sum,
                        v@,
                    ),
            },
        },
{
    if arguments.len() != 2 {
        return Err(runtime_error("expects 2 dArrays"));
    }
    assert(views(arguments@)[0] == arguments@[0]@);
    assert(views(arguments@)[1] == arguments@[1]@);
    assert(vector_allowed(old(heap)@, views(arguments@)[0]));
    assert(vector_allowed(old(heap)@, views(arguments@)[1]));
    let device = best_device();
    let left = source_of_vector(&arguments[0], heap)?;
    let right = source_of_vector(&arguments[1], heap)?;
    let a = tensor_on(&left, &device)?;
    let b = tensor_on(&right, &device)?;
    proof {
        lemma_widest_vector(left.dims@, right.dims@);
    }
    match add_items(&a, &b) {
        Ok(sum) => {
            assert(sum_gives(contents(a), contents(b), contents(sum)));
            candle_to_vector(&sum, heap)
        },
        Err(text) => Err(Error::Runtime(text)),
    }
}

/// Of two vectors, one is as long as both taken together.
proof fn lemma_widest_vector(a: Seq<usize>, b: Seq<usize>)
    requires
        a.len() == 1,
        b.len() == 1,
        countable(a),
        countable(b),
    ensures
        countable(wider(a, b)),
{
    let w = wider(a, b);
    assert(w =~= if a[0] == 1 {
        b
    } else {
        a
    });
}

/// The positive parts of a vector.
pub fn candle_vector_relu(arguments: &Vec<Value>, heap: &mut Heap) -> (r: Result<Value, Error>)
    requires
        old(heap).wf(),
        vectors_allowed(old(heap)@, views(arguments@)),
    ensures
        final(heap).wf(),
        r is Err ==> final(heap)@ == old(heap)@,
        if arguments@.len() != 1 {
            r is Err && r->Err_0@ == misused("expects 1 dArray"@)
        } else {
            match vector_source(old(heap)@, arguments@[0]@) {
                Err(e) => r is Err && r->Err_0@ == e,
                Ok((_, i)) => match r {
                    Err(e) => e@ is Runtime,
                    Ok(v) => exists|x: Items| #[trigger]
                        relu_gives(i, x) && clipped(i, x) && x.kind == i.kind && x.dims == i.dims
                            && stored_vector(old(heap)@, final(heap)@, x, v@),
                },
            }
        },
{
    if arguments.len() != 1 {
        return Err(runtime_error("expects 1 dArray"));
    }
    assert(views(arguments@)[0] == arguments@[0]@);
    assert(vector_allowed(old(heap)@, views(arguments@)[0]));
    let device = best_device();
    let source = source_of_vector(&arguments[0], heap)?;
    let t = tensor_on(&source, &device)?;
    match relu(&t) {
        Ok(x) => {
            assert(relu_gives(contents(t), contents(x)));
            candle_to_vector(&x, heap)
        },
        Err(text) => Err(Error::Runtime(text)),
    }
}

/// The matrix and the vector that `candle_l0_layer` is called on.
pub open spec fn layer_operands(h: HeapView, arguments: Seq<ValueView>) -> Result<
    ((FloatKind, Items), Items),
    ErrorView,
> {
    if arguments.len() != 2 {
        Err(misused("expects 1 tensor and 1 vector"@))
    } else {
        match tensor_source(h, arguments[0]) {
            Err(e) => Err(e),
            Ok(w) => match vector_source(h, arguments[1]) {
                Err(e) => Err(e),
                Ok(x) => Ok((w, x.1)),
            },
        }
    }
}

/// Whether `candle_l0_layer` can be carried out.
pub open spec fn layer_allowed(h: HeapView, arguments: Seq<ValueView>) -> bool {
    match layer_operands(h, arguments) {
        Err(_) => true,
        Ok((w, x)) => {
            &&& complete(w.1, w.0)
            &&& countable(x.dims)
            &&& product_countable(w.1.dims, unsqueezed(x, 1).dims)
        },
    }
}

/// What `candle_l0_layer` does.
pub open spec fn layer_done(
    before: HeapView,
    after: HeapView,
    arguments: Seq<ValueView>,
    r: Result<Value, Error>,
) -> bool {
    &&& r is Err ==> after == before
    &&& match layer_operands(before, arguments) {
        Err(e) => r is Err && r->Err_0@ == e,
        Ok((w, x)) => match r {
            Err(e) => e@ is Runtime,
            Ok(v) => exists|y: Items| #[trigger]
                applied(w.1, x, y) && stored_vector(before, after, y, v@),
        },
    }
}

/// The product of a matrix and a vector, as a vector.
pub fn candle_l0_layer(arguments: &Vec<Value>, heap: &mut Heap) -> (r: Result<Value, Error>)
    requires
        old(heap).wf(),
        layer_allowed(old(heap)@, views(arguments@)),
    ensures
        final(heap).wf(),
        layer_done(old(heap)@, final(heap)@, views(arguments@), r),
{
    layer_on(arguments, heap, &best_device())
}

/// The same on the given device.
pub fn layer_on(
    arguments: &Vec<Value>,
    heap: &mut Heap,
    device: &Device,
) -> (r: Result<Value, Error>)
    requires
        old(heap).wf(),
        layer_allowed(old(heap)@, views(arguments@)),
    ensures
        final(heap).wf(),
        layer_done(old(heap)@, final(heap)@, views(arguments@), r),
{
    if arguments.len() != 2 {
        return Err(runtime_error("expects 1 tensor and 1 vector"));
    }
    assert(views(arguments@)[0] == arguments@[0]@);
    assert(views(arguments@)[1] == arguments@[1]@);
    let weights = source_of_tensor(&arguments[0], heap)?;
    let input = source_of_vector(&arguments[1], heap)?;
    let w = tensor_on(&weights, device)?;
    let x = tensor_on(&input, device)?;
    match apply_matrix(&w, &x) {
        Ok(y) => {
            proof {
                lemma_applied(contents(w), contents(x), contents(y));
            }
            candle_to_vector(&y, heap)
        },
        Err(text) => Err(Error::Runtime(text)),
    }
}

/// What a matrix makes of a vector can be counted.
pub(crate) proof fn lemma_applied(w: Items, x: Items, y: Items)
    requires
        applied(w, x, y),
        x.dims.len() == 1,
        countable(w.dims),
    ensures
        countable(y.dims),
{
    let dims = y.dims;
    assert(dims.len() == 1);
    assert(dims =~= seq![dims[0]]);
    assert(dims[0] == w.dims[0]);
    lemma_bulk(w.dims, 0);
    lemma_one_dim(dims[0]);
}

/// The two tensors that `candle_matmul` is called on.
pub open spec fn product_operands(h: HeapView, arguments: Seq<ValueView>) -> Result<
    ((FloatKind, Items), (FloatKind, Items)),
    ErrorView,
> {
    match tensor_source(h, arguments[0]) {
        Err(e) => Err(e),
        Ok(a) => match tensor_source(h, arguments[1]) {
            Err(e) => Err(e),
            Ok(b) => Ok((a, b)),
        },
    }
}

/// Whether `candle_matmul` can be carried out: it takes two arguments.
pub open spec fn matmul_allowed(h: HeapView, arguments: Seq<ValueView>) -> bool {
    &&& arguments.len() >= 2
    &&& match product_operands(h, arguments) {
        Err(_) => true,
        Ok((a, b)) => {
            &&& complete(a.1, a.0)
            &&& complete(b.1, b.0)
            &&& product_countable(a.1.dims, b.1.dims)
        },
    }
}

/// What `candle_matmul` does.
pub open spec fn matmul_done(
    before: HeapView,
    after: HeapView,
    arguments: Seq<ValueView>,
    r: Result<Value, Error>,
) -> bool {
    &&& r is Err ==> after == before
    &&& match product_operands(before, arguments) {
        Err(e) => r is Err && r->Err_0@ == e,
        Ok((a, b)) => match r {
            Err(e) => e@ is Runtime,
            Ok(v) => exists|x: Items| #[trigger]
                product_gives(a.1, b.1, x) && x.kind == a.1.kind && a.1.dims.len()
                    == b.1.dims.len() && a.1.dims.len() >= 2 && x.dims == product_dims(
                    a.1.dims.take(a.1.dims.len() - 2),
                    a.1.dims,
                    b.1.dims,
                ) && stored_tensor(before, after, x, v@),
        },
    }
}

/// The product of two tensors.
pub fn candle_matmul(arguments: &Vec<Value>, heap: &mut Heap) -> (r: Result<Value, Error>)
    requires
        old(heap).wf(),
        matmul_allowed(old(heap)@, views(arguments@)),
    ensures
        final(heap).wf(),
        matmul_done(old(heap)@, final(heap)@, views(arguments@), r),
{
    matmul_on(arguments, heap, &best_device())
}

/// The same on the given device.
pub fn matmul_on(
    arguments: &Vec<Value>,
    heap: &mut Heap,
    device: &Device,
) -> (r: Result<Value, Error>)
    requires
        old(heap).wf(),
        matmul_allowed(old(heap)@, views(arguments@)),
    ensures
        final(heap).wf(),
        matmul_done(old(heap)@, final(heap)@, views(arguments@), r),
{
    assert(views(arguments@)[0] == arguments@[0]@);
    assert(views(arguments@)[1] == arguments@[1]@);
    let left = source_of_tensor(&arguments[0], heap)?;
    let right = source_of_tensor(&arguments[1], heap)?;
    let a = tensor_on(&left, device)?;
    let b = tensor_on(&right, device)?;
    match multiply(&a, &b) {
        Ok(x) => {
            assert(product_gives(contents(a), contents(b), contents(x)));
            candle_to_tensor(&x, heap)
        },
        Err(text) => Err(Error::Runtime(text)),
    }
}

/// The extents of the one tensor that `tensor_shape` is called on.
pub fn tensor_extents(arguments: &Vec<Value>, heap: &Heap) -> (r: Result<Vec<usize>, Error>)
    ensures
        if arguments@.len() != 1 {
            r is Err && r->Err_0@ == misused("expects 1 dTensor"@)
        } else {
            match tensor_source(heap@, arguments@[0]@) {
                Err(e) => r is Err && r->Err_0@ == e,
                Ok((_, i)) => r is Ok && r->Ok_0@ == i.dims,
            }
        },
{
    if arguments.len() != 1 {
        return Err(runtime_error("expects 1 dTensor"));
    }
    let source = source_of_tensor(&arguments[0], heap)?;
    Ok(source.dims)
}

/// Whether `candle_l0_layer` can be carried out.
pub fn layer_is_possible(arguments: &Vec<Value>, heap: &Heap) -> (r: bool)
    ensures
        r == layer_allowed(heap@, views(arguments@)),
{
    if arguments.len() != 2 {
        return true;
    }
    assert(views(arguments@)[0] == arguments@[0]@);
    assert(views(arguments@)[1] == arguments@[1]@);
    match source_of_tensor(&arguments[0], heap) {
        Err(_) => true,
        Ok(w) => match source_of_vector(&arguments[1], heap) {
            Err(_) => true,
            Ok(x) => {
                let mut column = part(&x.dims, 0, x.dims.len());
                column.insert(1, 1);
                assert(column@ =~= x.dims@.insert(1, 1));
                is_complete(&w) && counted(&x.dims).is_some() && product_can_be_counted(
                    &w.dims,
                    &column,
                )
            },
        },
    }
}

/// Whether `candle_matmul` can be carried out.
pub fn matmul_is_possible(arguments: &Vec<Value>, heap: &Heap) -> (r: bool)
    ensures
        r == matmul_allowed(heap@, views(arguments@)),
{
    if arguments.len() < 2 {
        return false;
    }
    assert(views(arguments@)[0] == arguments@[0]@);
    assert(views(arguments@)[1] == arguments@[1]@);
    match source_of_tensor(&arguments[0], heap) {
        Err(_) => true,
        Ok(a) => match source_of_tensor(&arguments[1], heap) {
            Err(_) => true,
            Ok(b) => is_complete(&a) && is_complete(&b) && product_can_be_counted(&a.dims, &b.dims),
        },
    }
}

/// A tensor of floats that is handed to the candle crate and put back into the
/// heap as it is has the same items, extents and type.
pub proof fn tensors_come_back(
    before: HeapView,
    after: HeapView,
    r: HeapRef,
    element: TypeView,
    kind: FloatKind,
    bytes: Seq<u8>,
    shape: Seq<usize>,
    t: Tensor,
    v: ValueView,
)
    requires
        before.len() <= usize::MAX,
        float_kind(element) == Some(kind),
        object_at(before, r) == Ok::<ObjectView, ErrorView>(
            ObjectView::Tensor { bytes, element, shape },
        ),
        bytes.len() == volume(shape, 0) * kind.size(),
        heap_tensor(before, r, element, kind) == Ok::<Items, ErrorView>(contents(t)),
        stored_tensor(before, after, contents(t), v),
    ensures
        v is Tensor,
        object_at(after, v->Tensor_0) == object_at(before, r),
        object_at(after, r) == object_at(before, r),
{
    let n = volume(shape, 0);
    let size = kind.size() as int;
    assert(n * size / size * size == n * size) by (nonlinear_arith)
        requires
            size > 0,
    ;
    assert(bytes.take(bytes.len() as int) =~= bytes);
    allocation_is_fresh(before, ObjectView::Tensor { bytes, element, shape });
}

} // verus!
