//! Tensors of the candle crate, and its functions on them.
use vstd::prelude::*;
use candle_core::Error as CandleFault;
use candle_core::{DType, Device, IndexOp, Tensor};
use crate::scalar::le_value;
use crate::semantics::{offset_of, volume};

verus! {

/// A tensor of the candle crate.
#[verifier::external_type_specification]
#[verifier::external_body]
pub struct OutsideTensor(candle_core::Tensor);

/// A device that the candle crate computes on.
#[verifier::external_type_specification]
#[verifier::external_body]
pub struct OutsideDevice(candle_core::Device);

/// A failure of the candle crate, which the operators of its tensors return.
#[verifier::external_type_specification]
#[verifier::external_body]
pub struct OutsideFault(CandleFault);

/// The kinds of items that the candle crate knows.
#[derive(Clone, Copy, Debug, PartialEq, Eq, Structural)]
pub enum Kind {
    U8,
    U32,
    I16,
    I32,
    I64,
    BF16,
    F16,
    F32,
    F64,
    F8E4M3,
    F6E2M3,
    F6E3M2,
    F4,
    F8E8M0,
}

impl Kind {
    /// Whether the items are integers.
    pub open spec fn integer(self) -> bool {
        self is U8 || self is U32 || self is I16 || self is I32 || self is I64
    }

    /// Whether the items are integers.
    pub fn is_integer(self) -> (r: bool)
        ensures
            r == self.integer(),
    {
        match self {
            Kind::U8 | Kind::U32 | Kind::I16 | Kind::I32 | Kind::I64 => true,
            _ => false,
        }
    }
}

/// The extent of a tensor in each dimension.
pub uninterp spec fn dims_of(t: Tensor) -> Seq<usize>;

/// The kind of the items of a tensor.
pub uninterp spec fn kind_of(t: Tensor) -> Kind;

/// The items of a tensor in row-major order, as little-endian bytes.
pub uninterp spec fn bytes_of(t: Tensor) -> Seq<u8>;

/// Whether the items of a tensor lie in memory in row-major order, each extent
/// with the stride that this order gives it. A tensor that was stretched by an
/// extent of 1 has a stride of 0 there, and is not packed.
pub uninterp spec fn packed(t: Tensor) -> bool;

/// What a tensor holds.
pub struct Items {
    pub kind: Kind,
    pub dims: Seq<usize>,
    pub bytes: Seq<u8>,
}

pub open spec fn contents(t: Tensor) -> Items {
    Items { kind: kind_of(t), dims: dims_of(t), bytes: bytes_of(t) }
}

/// The kinds of floats that programs have too.
#[derive(Clone, Copy, Debug, PartialEq, Eq, Structural)]
pub enum FloatKind {
    F32,
    F16,
    BF16,
}

impl FloatKind {
    pub open spec fn kind(self) -> Kind {
        match self {
            FloatKind::F32 => Kind::F32,
            FloatKind::F16 => Kind::F16,
            FloatKind::BF16 => Kind::BF16,
        }
    }

    /// The size of an item.
    pub open spec fn size(self) -> nat {
        match self {
            FloatKind::F32 => 4,
            FloatKind::F16 | FloatKind::BF16 => 2,
        }
    }
}

/// The product of the extents from `k` on, where an extent of 0 counts as 1:
/// no product of some of these extents is above it.
pub open spec fn bulk(dims: Seq<usize>, k: int) -> int
    decreases dims.len() - k,
{
    if k < 0 || k >= dims.len() {
        1
    } else {
        (if dims[k] == 0 {
            1
        } else {
            dims[k] as int
        }) * bulk(dims, k + 1)
    }
}

/// Whether the items of a shape can be counted, in whatever order the extents
/// are multiplied, and fit into memory at the size of the largest items.
pub open spec fn countable(dims: Seq<usize>) -> bool {
    bulk(dims, 0) * 8 <= isize::MAX
}

pub(crate) proof fn lemma_bulk(dims: Seq<usize>, k: int)
    requires
        0 <= k <= dims.len(),
    ensures
        1 <= bulk(dims, k),
        0 <= volume(dims, k) <= bulk(dims, k),
        k < dims.len() ==> bulk(dims, k + 1) <= bulk(dims, k) && dims[k] <= bulk(dims, k),
    decreases dims.len() - k,
{
    if k < dims.len() {
        lemma_bulk(dims, k + 1);
        let d = dims[k] as int;
        let m = if d == 0 {
            1
        } else {
            d
        };
        let rest = bulk(dims, k + 1);
        let v = volume(dims, k + 1);
        assert(1 <= m * rest && rest <= m * rest && m <= m * rest) by (nonlinear_arith)
            requires
                1 <= m,
                1 <= rest,
        ;
        assert(0 <= d * v <= m * rest) by (nonlinear_arith)
            requires
                0 <= d <= m,
                0 <= v <= rest,
        ;
    }
}

/// The extents from `k` on are no more than all of them.
pub(crate) proof fn lemma_bulk_from(dims: Seq<usize>, k: int)
    requires
        0 <= k <= dims.len(),
    ensures
        bulk(dims, k) <= bulk(dims, 0),
    decreases k,
{
    if k > 0 {
        lemma_bulk_from(dims, k - 1);
        lemma_bulk(dims, k - 1);
    }
}

/// A shape with one extent made smaller is no bulkier.
pub(crate) proof fn lemma_bulk_update(dims: Seq<usize>, at: int, extent: usize, k: int)
    requires
        0 <= at < dims.len(),
        extent <= dims[at],
        0 <= k <= dims.len(),
    ensures
        bulk(dims.update(at, extent), k) <= bulk(dims, k),
    decreases dims.len() - k,
{
    if k < dims.len() {
        let smaller = dims.update(at, extent);
        lemma_bulk_update(dims, at, extent, k + 1);
        lemma_bulk(smaller, k + 1);
        let m = if smaller[k] == 0 {
            1
        } else {
            smaller[k] as int
        };
        let n = if dims[k] == 0 {
            1
        } else {
            dims[k] as int
        };
        let a = bulk(smaller, k + 1);
        let b = bulk(dims, k + 1);
        assert(m * a <= n * b) by (nonlinear_arith)
            requires
                1 <= m <= n,
                1 <= a <= b,
        ;
    }
}

/// A shape that can be counted has a number of items, and so has a single
/// dimension with that many.
pub(crate) proof fn lemma_countable(dims: Seq<usize>)
    requires
        countable(dims),
    ensures
        0 <= volume(dims, 0) <= isize::MAX,
        countable(seq![volume(dims, 0) as usize]),
        volume(seq![volume(dims, 0) as usize], 0) == volume(dims, 0),
{
    lemma_bulk(dims, 0);
    let one = seq![volume(dims, 0) as usize];
    reveal_with_fuel(bulk, 2);
    reveal_with_fuel(volume, 2);
    assert(bulk(one, 1) == 1);
    assert(volume(one, 1) == 1);
    assert(volume(one, 0) == one[0] * 1);
}

/// The bytes of the item at a position.
pub open spec fn cell(i: Items, index: Seq<usize>) -> Seq<u8> {
    let size = i.bytes.len() as int / volume(i.dims, 0);
    let at = offset_of(i.dims, index)->Ok_0 * size;
    i.bytes.subrange(at, at + size)
}

/// With a dimension of extent 1 put in.
pub open spec fn unsqueezed(i: Items, dim: int) -> Items {
    Items { dims: i.dims.insert(dim, 1), ..i }
}

/// With a dimension of extent 1 taken out.
pub open spec fn squeezed(i: Items, dim: int) -> Items {
    Items {
        dims: if i.dims[dim] == 1 {
            i.dims.remove(dim)
        } else {
            i.dims
        },
        ..i
    }
}

pub open spec fn reshaped(i: Items, dims: Seq<usize>) -> Items {
    Items { dims, ..i }
}

/// A row of the first dimension.
pub open spec fn row_of(i: Items, row: int) -> Items {
    let size = i.bytes.len() as int / i.dims[0] as int;
    Items {
        dims: i.dims.skip(1),
        bytes: i.bytes.subrange(row * size, row * size + size),
        ..i
    }
}

pub open spec fn has_row(dims: Seq<usize>, row: usize) -> bool {
    dims.len() >= 2 && row < dims[0]
}

pub open spec fn has_both(dims: Seq<usize>, a: usize, b: usize) -> bool {
    a < dims.len() && b < dims.len()
}

pub open spec fn swapped<T>(s: Seq<T>, a: int, b: int) -> Seq<T> {
    s.update(a, s[b]).update(b, s[a])
}

/// With two dimensions swapped.
pub open spec fn transposes(i: Items, a: int, b: int, r: Items) -> bool {
    &&& r.kind == i.kind
    &&& r.dims == swapped(i.dims, a, b)
    &&& r.bytes.len() == i.bytes.len()
    &&& forall|index: Seq<usize>| #[trigger]
        offset_of(r.dims, index) is Ok ==> cell(r, index) == cell(i, swapped(index, a, b))
}

/// Whether a tensor of extents `dims` can be stretched to `wider`.
pub open spec fn stretchable(dims: Seq<usize>, wider: Seq<usize>) -> bool {
    &&& dims.len() <= wider.len()
    &&& forall|k: int|
        0 <= k < dims.len() ==> (#[trigger] dims[k]) == 1 || dims[k] == wider[k + wider.len()
            - dims.len()]
}

/// Where an item of a stretched tensor comes from.
pub open spec fn unstretched(dims: Seq<usize>, index: Seq<usize>) -> Seq<usize> {
    Seq::new(
        dims.len(),
        |k: int|
            if dims[k] == 1 {
                0
            } else {
                index[k + index.len() - dims.len()]
            },
    )
}

/// Stretched along dimensions of extent 1.
pub open spec fn stretches(i: Items, dims: Seq<usize>, r: Items) -> bool {
    &&& r.kind == i.kind
    &&& r.dims == dims
    &&& forall|index: Seq<usize>| #[trigger]
        offset_of(r.dims, index) is Ok ==> cell(r, index) == cell(i, unstretched(i.dims, index))
}

/// One after the other along a dimension.
pub open spec fn joins(a: Items, b: Items, dim: int, r: Items) -> bool {
    &&& r.kind == a.kind
    &&& r.dims == a.dims.update(dim, (a.dims[dim] + b.dims[dim]) as usize)
    &&& forall|index: Seq<usize>| #[trigger]
        offset_of(r.dims, index) is Ok ==> cell(r, index) == if index[dim] < a.dims[dim] {
            cell(a, index)
        } else {
            cell(b, index.update(dim, (index[dim] - a.dims[dim]) as usize))
        }
}

/// A part of the last dimension.
pub open spec fn narrows(i: Items, start: int, len: int, r: Items) -> bool {
    let last = i.dims.len() - 1;
    &&& r.kind == i.kind
    &&& r.dims == i.dims.update(last, len as usize)
    &&& forall|index: Seq<usize>| #[trigger]
        offset_of(r.dims, index) is Ok ==> cell(r, index) == cell(
            i,
            index.update(last, (index[last] + start) as usize),
        )
}

/// Whether the last dimension has such a part.
pub open spec fn has_part(dims: Seq<usize>, start: int, len: int) -> bool {
    dims.len() > 0 && start + len <= dims.last()
}

/// An extent, counted from the last dimension; beyond the first it is 1.
pub open spec fn extent(dims: Seq<usize>, from_last: int) -> usize {
    if from_last < dims.len() {
        dims[dims.len() - 1 - from_last]
    } else {
        1
    }
}

/// Whether two tensors can be taken together, each stretched to the other.
pub open spec fn matching(a: Seq<usize>, b: Seq<usize>) -> bool {
    forall|k: int|
        0 <= k < a.len() && k < b.len() ==> (#[trigger] extent(a, k)) == extent(b, k) || extent(
            a,
            k,
        ) == 1 || extent(b, k) == 1
}

/// The extents of two tensors taken together.
pub open spec fn wider(a: Seq<usize>, b: Seq<usize>) -> Seq<usize> {
    let n = if a.len() < b.len() {
        b.len()
    } else {
        a.len()
    };
    Seq::new(
        n,
        |j: int|
            if extent(a, n - 1 - j) == 1 {
                extent(b, n - 1 - j)
            } else {
                extent(a, n - 1 - j)
            },
    )
}

/// The extents of a product of matrices, with what stands before them.
pub open spec fn product_dims(leading: Seq<usize>, a: Seq<usize>, b: Seq<usize>) -> Seq<usize> {
    leading + seq![a[a.len() - 2], b.last()]
}

/// Whether the product of two tensors can be counted.
pub open spec fn product_countable(a: Seq<usize>, b: Seq<usize>) -> bool {
    &&& countable(a)
    &&& countable(b)
    &&& a.len() == b.len() && a.len() >= 2 ==> countable(
        product_dims(a.take(a.len() - 2), a, b),
    )
}

/// What stands before the matrices of two tensors taken together.
pub open spec fn leading_dims(a: Seq<usize>, b: Seq<usize>) -> Seq<usize> {
    wider(a.take(a.len() - 2), b.take(b.len() - 2))
}

/// Whether the matrices of two tensors can be multiplied.
pub open spec fn products_match(a: Seq<usize>, b: Seq<usize>) -> bool {
    &&& a.len() >= 2
    &&& b.len() >= 2
    &&& a.last() == b[b.len() - 2]
    &&& matching(a.take(a.len() - 2), b.take(b.len() - 2))
}

/// Whether their products, if they match, can be counted.
pub open spec fn products_countable(a: Seq<usize>, b: Seq<usize>) -> bool {
    products_match(a, b) ==> {
        &&& countable(product_dims(leading_dims(a, b), a, b))
        &&& countable(leading_dims(a, b) + a.skip(a.len() - 2))
        &&& countable(leading_dims(a, b) + b.skip(b.len() - 2))
    }
}

/// Whether functions of floats can be computed on the items.
pub open spec fn computable(i: Items) -> bool {
    countable(i.dims) && (i.kind.integer() ==> volume(i.dims, 0) == 0)
}

/// Whether two tensors can be taken together item by item: integers can
/// overflow.
pub open spec fn pairable(a: Items, b: Items) -> bool {
    matching(a.dims, b.dims) ==> {
        &&& countable(wider(a.dims, b.dims))
        &&& a.kind.integer() && a.kind == b.kind ==> volume(wider(a.dims, b.dims), 0) == 0
    }
}

/// That `r` is what the candle crate gave for the product of two tensors.
pub uninterp spec fn product_gives(a: Items, b: Items, r: Items) -> bool;

/// That `r` is what it gave for their product with stretching.
pub uninterp spec fn stretched_product_gives(a: Items, b: Items, r: Items) -> bool;

/// That `r` is what it gave for their sum, item by item.
pub uninterp spec fn sum_gives(a: Items, b: Items, r: Items) -> bool;

/// That `r` is what it gave for their product, item by item.
pub uninterp spec fn multiple_gives(a: Items, b: Items, r: Items) -> bool;

/// The size of a float's pattern, or 0 where the items are others.
pub open spec fn float_size(kind: Kind) -> int {
    match kind {
        Kind::F16 | Kind::BF16 => 2,
        Kind::F32 => 4,
        Kind::F64 => 8,
        _ => 0,
    }
}

/// The pattern of infinity: above it stand those that are no numbers.
pub open spec fn infinity(kind: Kind) -> int {
    match kind {
        Kind::F16 => 0x7c00,
        Kind::BF16 => 0x7f80,
        Kind::F32 => 0x7f80_0000,
        _ => 0x7ff0_0000_0000_0000,
    }
}

/// The pattern of a float.
pub open spec fn float_at(i: Items, k: int) -> Seq<u8> {
    i.bytes.subrange(k * float_size(i.kind), k * float_size(i.kind) + float_size(i.kind))
}

/// A pattern with another sign.
pub open spec fn with_sign(pattern: Seq<u8>, negative: bool) -> Seq<u8> {
    let top = pattern.last() % 128;
    pattern.update(
        pattern.len() - 1,
        if negative {
            (top + 128) as u8
        } else {
            top
        },
    )
}

pub open spec fn has_sign(pattern: Seq<u8>) -> bool {
    pattern.last() >= 128
}

/// Whether a pattern is that of a number.
pub open spec fn is_number(kind: Kind, pattern: Seq<u8>) -> bool {
    le_value(with_sign(pattern, false)) <= infinity(kind)
}

/// That the positive floats are kept and the negative ones made 0. Of a zero with
/// a sign, and of what is no number, nothing is said.
pub open spec fn clipped(i: Items, r: Items) -> bool {
    float_size(i.kind) > 0 ==> {
        &&& r.bytes.len() == i.bytes.len()
        &&& forall|k: int|
            0 <= k < i.bytes.len() as int / float_size(i.kind) && is_number(
                i.kind,
                #[trigger] float_at(i, k),
            ) ==> {
                &&& !has_sign(float_at(i, k)) ==> float_at(r, k) == float_at(i, k)
                &&& has_sign(float_at(i, k)) && le_value(with_sign(float_at(i, k), false)) != 0
                    ==> le_value(float_at(r, k)) == 0
            }
    }
}

/// That the signs of the floats are turned. Of what is no number, nothing is
/// said.
pub open spec fn turned_signs(i: Items, r: Items) -> bool {
    float_size(i.kind) > 0 ==> {
        &&& r.bytes.len() == i.bytes.len()
        &&& forall|k: int|
            0 <= k < i.bytes.len() as int / float_size(i.kind) && is_number(
                i.kind,
                #[trigger] float_at(i, k),
            ) ==> float_at(r, k) == with_sign(float_at(i, k), !has_sign(float_at(i, k)))
    }
}

/// That `r` is what it gave for the positive parts of the items.
pub uninterp spec fn relu_gives(i: Items, r: Items) -> bool;

/// That `r` is what it gave for the items times their sigmoids.
pub uninterp spec fn silu_gives(i: Items, r: Items) -> bool;

/// That `r` is what it gave for the shares of the items along a dimension.
pub uninterp spec fn softmax_gives(i: Items, dim: int, r: Items) -> bool;

/// That `r` is what it gave for the items with their signs turned.
pub uninterp spec fn negative_gives(i: Items, r: Items) -> bool;

/// That `r` is what it gave for the squares of the items.
pub uninterp spec fn squares_give(i: Items, r: Items) -> bool;

/// That `r` is what it gave for the means along the last dimension.
pub uninterp spec fn means_give(i: Items, r: Items) -> bool;

/// That `r` is what it gave for the roots of the items.
pub uninterp spec fn roots_give(i: Items, r: Items) -> bool;

/// That `r` is what it gave for the quotients of two tensors, item by item.
pub uninterp spec fn quotient_gives(a: Items, b: Items, r: Items) -> bool;

/// That `r` is what it gave for the cosines of the items.
pub uninterp spec fn cosine_gives(i: Items, r: Items) -> bool;

/// That `r` is what it gave for the sines of the items.
pub uninterp spec fn sine_gives(i: Items, r: Items) -> bool;

/// That `r` is what it gave for the items as floats of 32 bits.
pub uninterp spec fn floats_gives(i: Items, r: Items) -> bool;

/// That `r` is what it gave for the position of the greatest item.
pub uninterp spec fn greatest_gives(i: Items, r: Items) -> bool;

/// Calls `Tensor::dims`, the extents.
#[verifier::external_body]
pub(crate) fn tensor_dims(t: &Tensor) -> (r: Vec<usize>)
    ensures
        r@ == dims_of(*t),
{
    t.dims().to_vec()
}

/// Calls `Tensor::dtype`, the kind of the items.
#[verifier::external_body]
pub(crate) fn tensor_kind(t: &Tensor) -> (r: Kind)
    ensures
        r == kind_of(*t),
{
    match t.dtype() {
        DType::U8 => Kind::U8, DType::U32 => Kind::U32,
        DType::I16 => Kind::I16, DType::I32 => Kind::I32, DType::I64 => Kind::I64,
        DType::BF16 => Kind::BF16,
        DType::F16 => Kind::F16,
        DType::F32 => Kind::F32,
        DType::F64 => Kind::F64,
        DType::F8E4M3 => Kind::F8E4M3,
        DType::F6E2M3 => Kind::F6E2M3,
        DType::F6E3M2 => Kind::F6E3M2,
        DType::F4 => Kind::F4,
        DType::F8E8M0 => Kind::F8E8M0,
    }
}

/// Calls `Tensor::from_raw_buffer`: a tensor of the given items. It may fail
/// on a device that has no room. It reads the items in the order of the
/// machine, so each item is turned from little-endian order into that first.
#[verifier::external_body]
pub(crate) fn tensor_from(
    bytes: &Vec<u8>,
    kind: FloatKind,
    dims: &Vec<usize>,
    device: &Device,
) -> (r: Result<Tensor, String>)
    requires
        countable(dims@),
        bytes@.len() == volume(dims@, 0) * kind.size(),
    ensures
        r matches Ok(t) ==> contents(t) == (
            Items { kind: kind.kind(), dims: dims@, bytes: bytes@ }
        ),
{
    let native: Vec<u8> = match kind {
        FloatKind::F32 => bytes.chunks_exact(4).flat_map(
            |b| u32::from_le_bytes([b[0], b[1], b[2], b[3]]).to_ne_bytes()).collect(),
        _ => bytes.chunks_exact(2).flat_map(
            |b| u16::from_le_bytes([b[0], b[1]]).to_ne_bytes()).collect(),
    };
    let dtype = match kind {
        FloatKind::F32 => DType::F32,
        FloatKind::F16 => DType::F16,
        FloatKind::BF16 => DType::BF16,
    };
    Tensor::from_raw_buffer(&native, dtype, dims, device).map_err(|e| e.to_string())
}

/// Calls `Tensor::write_bytes`, the items. It may fail where the device fails.
#[verifier::external_body]
pub(crate) fn item_bytes(t: &Tensor) -> (r: Result<Vec<u8>, String>)
    requires
        countable(dims_of(*t)),
    ensures
        r matches Ok(bytes) ==> bytes@ == bytes_of(*t),
{
    let mut bytes: Vec<u8> = Vec::new();
    t.write_bytes(&mut bytes).map(|_| bytes).map_err(|e| e.to_string())
}

/// Calls `Device::new_cuda` for the first graphics card. Whether there is one
/// depends on the machine.
#[verifier::external_body]
fn first_card() -> (r: Option<Device>) {
    Device::new_cuda(0).ok()
}

/// Makes `Device::Cpu`, the processor.
#[verifier::external_body]
fn processor() -> (r: Device) {
    Device::Cpu
}

/// The first graphics card, or the processor where there is none.
pub(crate) fn best_device() -> (r: Device) {
    match first_card() {
        Some(device) => device,
        None => processor(),
    }
}

/// Calls `Tensor::unsqueeze`. It fails where there is no such place.
#[verifier::external_body]
pub(crate) fn unsqueeze(t: &Tensor, dim: usize) -> (r: Result<Tensor, String>)
    ensures
        r is Ok <==> dim <= dims_of(*t).len(),
        r matches Ok(x) ==> contents(x) == unsqueezed(contents(*t), dim as int),
{
    t.unsqueeze(dim).map_err(|e| e.to_string())
}

/// Calls `Tensor::squeeze`. It fails where there is no such dimension.
#[verifier::external_body]
pub(crate) fn squeeze(t: &Tensor, dim: usize) -> (r: Result<Tensor, String>)
    ensures
        r is Ok <==> dim < dims_of(*t).len(),
        r matches Ok(x) ==> contents(x) == squeezed(contents(*t), dim as int),
{
    t.squeeze(dim).map_err(|e| e.to_string())
}

/// Calls `Tensor::reshape`, which gives each extent the stride of row-major
/// order. It fails where the number of items differs; it may fail where the
/// device fails.
#[verifier::external_body]
pub(crate) fn reshape(t: &Tensor, dims: &Vec<usize>) -> (r: Result<Tensor, String>)
    requires
        countable(dims@),
        countable(dims_of(*t)),
    ensures
        r is Ok ==> volume(dims@, 0) == volume(dims_of(*t), 0),
        r matches Ok(x) ==> contents(x) == reshaped(contents(*t), dims@) && packed(x),
{
    t.reshape(dims.as_slice()).map_err(|e| e.to_string())
}

/// The same tensor with its items packed.
pub(crate) fn pack(t: &Tensor) -> (r: Result<Tensor, String>)
    requires
        countable(dims_of(*t)),
    ensures
        r matches Ok(x) ==> contents(x) == contents(*t) && packed(x),
{
    let dims = tensor_dims(t);
    reshape(t, &dims)
}

/// Calls `IndexOp::i` with a row and all of the second dimension. It fails
/// where there is no such row.
#[verifier::external_body]
pub(crate) fn select_row(t: &Tensor, row: usize) -> (r: Result<Tensor, String>)
    requires
        dims_of(*t).len() == 1 ==> row >= dims_of(*t)[0],
    ensures
        r is Ok <==> has_row(dims_of(*t), row),
        r matches Ok(x) ==> contents(x) == row_of(contents(*t), row as int),
{
    t.i((row, ..)).map_err(|e| e.to_string())
}

/// Calls `Tensor::transpose`. It fails where a dimension is missing.
#[verifier::external_body]
pub(crate) fn transpose(t: &Tensor, a: usize, b: usize) -> (r: Result<Tensor, String>)
    ensures
        r is Ok <==> has_both(dims_of(*t), a, b),
        r matches Ok(x) ==> transposes(contents(*t), a as int, b as int, contents(x)),
{
    t.transpose(a, b).map_err(|e| e.to_string())
}

/// Calls `Tensor::broadcast_as`. It fails where the extents do not fit.
#[verifier::external_body]
pub(crate) fn stretch(t: &Tensor, dims: &Vec<usize>) -> (r: Result<Tensor, String>)
    ensures
        r is Ok <==> stretchable(dims_of(*t), dims@),
        r matches Ok(x) ==> stretches(contents(*t), dims@, contents(x)),
{
    t.broadcast_as(dims.as_slice()).map_err(|e| e.to_string())
}

/// Calls `Tensor::cat` on two tensors. It fails where they differ in kind or in
/// another dimension; it may fail where the device fails.
#[verifier::external_body]
pub(crate) fn join(a: &Tensor, b: &Tensor, dim: usize) -> (r: Result<Tensor, String>)
    requires
        countable(dims_of(*a)),
        countable(dims_of(*b)),
        dims_of(*a).len() == dims_of(*b).len() && dim < dims_of(*a).len() ==> dims_of(
            *a,
        )[dim as int] + dims_of(*b)[dim as int] <= usize::MAX && countable(
            dims_of(*a).update(
                dim as int,
                (dims_of(*a)[dim as int] + dims_of(*b)[dim as int]) as usize,
            ),
        ),
    ensures
        r is Ok ==> {
            &&& dims_of(*a).len() == dims_of(*b).len()
            &&& dim < dims_of(*a).len()
            &&& forall|k: int|
                0 <= k < dims_of(*a).len() && k != dim ==> (#[trigger] dims_of(*a)[k]) == dims_of(
                    *b,
                )[k]
        },
        r matches Ok(x) ==> joins(contents(*a), contents(*b), dim as int, contents(x)),
{
    Tensor::cat(&[a, b], dim).map_err(|e| e.to_string())
}

/// Calls `Tensor::matmul`. It fails where the matrices do not fit; it may fail
/// where the device fails. How the sums are rounded depends on the machine.
#[verifier::external_body]
pub(crate) fn multiply(a: &Tensor, b: &Tensor) -> (r: Result<Tensor, String>)
    requires
        product_countable(dims_of(*a), dims_of(*b)),
    ensures
        r is Ok ==> dims_of(*a).len() == dims_of(*b).len() && dims_of(*a).len() >= 2,
        r matches Ok(x) ==> {
            &&& product_gives(contents(*a), contents(*b), contents(x))
            &&& kind_of(x) == kind_of(*a)
            &&& dims_of(x) == product_dims(
                dims_of(*a).take(dims_of(*a).len() - 2),
                dims_of(*a),
                dims_of(*b),
            )
        },
{
    a.matmul(b).map_err(|e| e.to_string())
}

/// Calls `Tensor::broadcast_matmul`. It fails where the matrices or what stands
/// before them do not fit; it may fail where the device fails.
#[verifier::external_body]
pub(crate) fn multiply_stretched(a: &Tensor, b: &Tensor) -> (r: Result<Tensor, String>)
    requires
        products_countable(dims_of(*a), dims_of(*b)),
    ensures
        r is Ok ==> products_match(dims_of(*a), dims_of(*b)),
        r matches Ok(x) ==> {
            &&& stretched_product_gives(contents(*a), contents(*b), contents(x))
            &&& kind_of(x) == kind_of(*a)
            &&& dims_of(x) == product_dims(
                leading_dims(dims_of(*a), dims_of(*b)),
                dims_of(*a),
                dims_of(*b),
            )
        },
{
    a.broadcast_matmul(b).map_err(|e| e.to_string())
}

/// Calls `Tensor::broadcast_add`. It fails where the extents do not fit; it may
/// fail where the kinds differ or the device fails.
#[verifier::external_body]
pub(crate) fn add_items(a: &Tensor, b: &Tensor) -> (r: Result<Tensor, String>)
    requires
        pairable(contents(*a), contents(*b)),
    ensures
        r is Ok ==> matching(dims_of(*a), dims_of(*b)),
        r matches Ok(x) ==> {
            &&& sum_gives(contents(*a), contents(*b), contents(x))
            &&& kind_of(x) == kind_of(*a)
            &&& dims_of(x) == wider(dims_of(*a), dims_of(*b))
        },
{
    a.broadcast_add(b).map_err(|e| e.to_string())
}

/// Calls `Tensor::broadcast_mul`, with the same conditions.
#[verifier::external_body]
pub(crate) fn multiply_items(a: &Tensor, b: &Tensor) -> (r: Result<Tensor, String>)
    requires
        pairable(contents(*a), contents(*b)),
    ensures
        r is Ok ==> matching(dims_of(*a), dims_of(*b)),
        r matches Ok(x) ==> {
            &&& multiple_gives(contents(*a), contents(*b), contents(x))
            &&& kind_of(x) == kind_of(*a)
            &&& dims_of(x) == wider(dims_of(*a), dims_of(*b))
        },
{
    a.broadcast_mul(b).map_err(|e| e.to_string())
}

/// Calls `Tensor::relu`, which takes the greater of each item and 0. It may fail
/// where the device fails.
#[verifier::external_body]
pub(crate) fn relu(t: &Tensor) -> (r: Result<Tensor, String>)
    requires
        countable(dims_of(*t)),
    ensures
        r matches Ok(x) ==> {
            &&& relu_gives(contents(*t), contents(x))
            &&& clipped(contents(*t), contents(x))
            &&& kind_of(x) == kind_of(*t)
            &&& dims_of(x) == dims_of(*t)
        },
{
    t.relu().map_err(|e| e.to_string())
}

/// Calls `candle_nn::ops::silu`. It may fail where the device fails. Its
/// exponential depends on the machine.
#[verifier::external_body]
pub(crate) fn silu(t: &Tensor) -> (r: Result<Tensor, String>)
    requires
        computable(contents(*t)),
    ensures
        r matches Ok(x) ==> {
            &&& silu_gives(contents(*t), contents(x))
            &&& kind_of(x) == kind_of(*t)
            &&& dims_of(x) == dims_of(*t)
        },
{
    candle_nn::ops::silu(t).map_err(|e| e.to_string())
}

/// Calls `candle_nn::ops::softmax`. It fails where there is no such dimension;
/// it may fail where the device fails. It divides by the stride of the
/// dimension. Its exponential depends on the machine.
#[verifier::external_body]
pub(crate) fn softmax(t: &Tensor, dim: usize) -> (r: Result<Tensor, String>)
    requires
        computable(contents(*t)),
        packed(*t),
    ensures
        r is Ok ==> dim < dims_of(*t).len(),
        r matches Ok(x) ==> {
            &&& softmax_gives(contents(*t), dim as int, contents(x))
            &&& kind_of(x) == kind_of(*t)
            &&& dims_of(x) == dims_of(*t)
        },
{
    candle_nn::ops::softmax(t, dim).map_err(|e| e.to_string())
}

/// Calls `candle_nn::ops::softmax` on the last dimension, with the same
/// conditions.
#[verifier::external_body]
pub(crate) fn softmax_last(t: &Tensor) -> (r: Result<Tensor, String>)
    requires
        computable(contents(*t)),
        packed(*t),
    ensures
        r is Ok ==> dims_of(*t).len() > 0,
        r matches Ok(x) ==> {
            &&& softmax_gives(contents(*t), dims_of(*t).len() - 1, contents(x))
            &&& kind_of(x) == kind_of(*t)
            &&& dims_of(x) == dims_of(*t)
        },
{
    candle_nn::ops::softmax(t, candle_core::D::Minus1).map_err(|e| e.to_string())
}

/// Calls `Tensor::narrow` on the last dimension. It fails where there is no such
/// part.
#[verifier::external_body]
pub(crate) fn narrow(t: &Tensor, start: usize, len: usize) -> (r: Result<Tensor, String>)
    requires
        countable(dims_of(*t)),
    ensures
        r is Ok <==> has_part(dims_of(*t), start as int, len as int),
        r matches Ok(x) ==> narrows(contents(*t), start as int, len as int, contents(x)),
{
    t.narrow(candle_core::D::Minus1, start, len).map_err(|e| e.to_string())
}

/// Calls `Tensor::neg`, which turns the sign of each item. It may fail where the
/// device fails.
#[verifier::external_body]
pub(crate) fn negative(t: &Tensor) -> (r: Result<Tensor, String>)
    requires
        computable(contents(*t)),
    ensures
        r matches Ok(x) ==> {
            &&& negative_gives(contents(*t), contents(x))
            &&& turned_signs(contents(*t), contents(x))
            &&& kind_of(x) == kind_of(*t)
            &&& dims_of(x) == dims_of(*t)
        },
{
    t.neg().map_err(|e| e.to_string())
}

/// Calls `Tensor::sqr`. It may fail where the device fails.
#[verifier::external_body]
pub(crate) fn squares(t: &Tensor) -> (r: Result<Tensor, String>)
    requires
        computable(contents(*t)),
    ensures
        r matches Ok(x) ==> {
            &&& squares_give(contents(*t), contents(x))
            &&& kind_of(x) == kind_of(*t)
            &&& dims_of(x) == dims_of(*t)
        },
{
    t.sqr().map_err(|e| e.to_string())
}

/// Calls `Tensor::mean_keepdim` on the last dimension. It fails where there is
/// none; it may fail where the device fails. In which order it adds depends on
/// the machine.
#[verifier::external_body]
pub(crate) fn last_means(t: &Tensor) -> (r: Result<Tensor, String>)
    requires
        computable(contents(*t)),
    ensures
        r is Ok ==> dims_of(*t).len() > 0,
        r matches Ok(x) ==> {
            &&& means_give(contents(*t), contents(x))
            &&& kind_of(x) == kind_of(*t)
            &&& dims_of(x) == dims_of(*t).update(dims_of(*t).len() - 1, 1)
        },
{
    t.mean_keepdim(candle_core::D::Minus1).map_err(|e| e.to_string())
}

/// Calls `Tensor::sqrt`. It may fail where the device fails.
#[verifier::external_body]
pub(crate) fn root_items(t: &Tensor) -> (r: Result<Tensor, String>)
    requires
        computable(contents(*t)),
    ensures
        r matches Ok(x) ==> {
            &&& roots_give(contents(*t), contents(x))
            &&& kind_of(x) == kind_of(*t)
            &&& dims_of(x) == dims_of(*t)
        },
{
    t.sqrt().map_err(|e| e.to_string())
}

/// Calls `Tensor::broadcast_div`, with the conditions of the sum and the product.
#[verifier::external_body]
pub(crate) fn divide_items(a: &Tensor, b: &Tensor) -> (r: Result<Tensor, String>)
    requires
        pairable(contents(*a), contents(*b)),
    ensures
        r is Ok ==> matching(dims_of(*a), dims_of(*b)),
        r matches Ok(x) ==> {
            &&& quotient_gives(contents(*a), contents(*b), contents(x))
            &&& kind_of(x) == kind_of(*a)
            &&& dims_of(x) == wider(dims_of(*a), dims_of(*b))
        },
{
    a.broadcast_div(b).map_err(|e| e.to_string())
}

/// Calls `Tensor::cos`. It may fail where the device fails. The cosine depends
/// on the machine.
#[verifier::external_body]
pub(crate) fn cosine(t: &Tensor) -> (r: Result<Tensor, String>)
    requires
        computable(contents(*t)),
    ensures
        r matches Ok(x) ==> {
            &&& cosine_gives(contents(*t), contents(x))
            &&& kind_of(x) == kind_of(*t)
            &&& dims_of(x) == dims_of(*t)
        },
{
    t.cos().map_err(|e| e.to_string())
}

/// Calls `Tensor::sin`, with the same conditions.
#[verifier::external_body]
pub(crate) fn sine(t: &Tensor) -> (r: Result<Tensor, String>)
    requires
        computable(contents(*t)),
    ensures
        r matches Ok(x) ==> {
            &&& sine_gives(contents(*t), contents(x))
            &&& kind_of(x) == kind_of(*t)
            &&& dims_of(x) == dims_of(*t)
        },
{
    t.sin().map_err(|e| e.to_string())
}

/// Calls `Tensor::to_device` for the processor. It may fail where the device
/// fails.
#[verifier::external_body]
pub(crate) fn on_processor(t: &Tensor) -> (r: Result<Tensor, String>)
    ensures
        r matches Ok(x) ==> contents(x) == contents(*t),
{
    t.to_device(&Device::Cpu).map_err(|e| e.to_string())
}

/// Calls `Tensor::to_dtype` for floats of 32 bits. It may fail where the device
/// fails.
#[verifier::external_body]
pub(crate) fn floats(t: &Tensor) -> (r: Result<Tensor, String>)
    requires
        countable(dims_of(*t)),
    ensures
        r matches Ok(x) ==> {
            &&& kind_of(*t) == Kind::F32 ==> contents(x) == contents(*t)
            &&& floats_gives(contents(*t), contents(x))
            &&& kind_of(x) == Kind::F32
            &&& dims_of(x) == dims_of(*t)
        },
{
    t.to_dtype(DType::F32).map_err(|e| e.to_string())
}

/// Calls `Tensor::flatten_all`. It may fail where the device fails.
#[verifier::external_body]
pub(crate) fn flatten(t: &Tensor) -> (r: Result<Tensor, String>)
    requires
        countable(dims_of(*t)),
    ensures
        r matches Ok(x) ==> contents(x) == reshaped(
            contents(*t),
            seq![volume(dims_of(*t), 0) as usize],
        ),
{
    t.flatten_all().map_err(|e| e.to_string())
}

/// Calls `Tensor::argmax` on the first dimension. It fails where there is none,
/// or no item; it may fail where the device fails. It divides by the stride of
/// the dimension.
#[verifier::external_body]
pub(crate) fn greatest(t: &Tensor) -> (r: Result<Tensor, String>)
    requires
        countable(dims_of(*t)),
        packed(*t),
    ensures
        r is Ok ==> dims_of(*t).len() > 0,
        r matches Ok(x) ==> {
            &&& greatest_gives(contents(*t), contents(x))
            &&& dims_of(x) == dims_of(*t).skip(1)
        },
{
    t.argmax(0).map_err(|e| e.to_string())
}

/// Calls `Tensor::to_scalar` for unsigned integers of 32 bits. It fails where
/// there is not just one such item; it may fail where the device fails.
#[verifier::external_body]
pub(crate) fn single(t: &Tensor) -> (r: Result<u32, String>)
    ensures
        r is Ok ==> dims_of(*t).len() == 0,
        r matches Ok(n) ==> bytes_of(*t).len() == 4 && le_value(bytes_of(*t)) == n,
{
    t.to_scalar::<u32>().map_err(|e| e.to_string())
}

/// Calls `Tensor::clone`: another handle of the same tensor.
#[verifier::external_body]
pub(crate) fn shared(t: &Tensor) -> (r: Tensor)
    ensures
        contents(r) == contents(*t),
{
    t.clone()
}

} // verus!
