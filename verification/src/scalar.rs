//! Packed scalars: little-endian cells of a byte buffer.
use vstd::prelude::*;
use crate::text::{cat3, decimal, usize_text};
use crate::types::{
    Error, ErrorView, Type, TypeView, int_bounds, runtime_error, scalar_size, scalar_size_of,
    signed_type, size_of_type, type_error, type_size,
};
use crate::value::{Value, ValueView, int_in, int_of, type_of};
use crate::views::{group_views, views};

verus! {

broadcast use group_views;

/// The `size` low bytes of `n`, least significant first.
pub open spec fn le_bytes(n: int, size: nat) -> Seq<u8>
    decreases size,
{
    if size == 0 {
        Seq::empty()
    } else {
        seq![(n % 256) as u8] + le_bytes(n / 256, (size - 1) as nat)
    }
}

/// The number whose bytes, least significant first, are `s`.
pub open spec fn le_value(s: Seq<u8>) -> int
    decreases s.len(),
{
    if s.len() == 0 {
        0
    } else {
        s[0] + 256 * le_value(s.skip(1))
    }
}

/// Two to the power of the number of bits in `size` bytes, for the sizes that scalars have.
pub open spec fn modulus(size: usize) -> int {
    if size == 1 {
        0x100
    } else if size == 2 {
        0x1_0000
    } else if size == 4 {
        0x1_0000_0000
    } else {
        0x1_0000_0000_0000_0000
    }
}

/// Whether a value is a number or a truth value.
pub open spec fn is_scalar(v: ValueView) -> bool {
    int_of(v) is Some || v is F16 || v is BF16 || v is F32 || v is F64 || v is Bool
}

/// The bit pattern of a scalar, as a number.
pub open spec fn bits_of(v: ValueView) -> int {
    match v {
        ValueView::F16(b) => b as int,
        ValueView::BF16(b) => b as int,
        ValueView::F32(b) => b as int,
        ValueView::F64(b) => b as int,
        ValueView::Bool(b) => if b {
            1
        } else {
            0
        },
        _ => {
            let n = int_of(v).unwrap();
            if n < 0 {
                n + modulus(size_of_type(type_of(v)).unwrap())
            } else {
                n
            }
        },
    }
}

/// The scalar with a bit pattern.
pub open spec fn from_bits(t: TypeView, bits: int) -> ValueView {
    match t {
        TypeView::F16 => ValueView::F16(bits as u16),
        TypeView::BF16 => ValueView::BF16(bits as u16),
        TypeView::F32 => ValueView::F32(bits as u32),
        TypeView::F64 => ValueView::F64(bits as u64),
        TypeView::Bool => ValueView::Bool(bits != 0),
        _ => int_in(
            t,
            if signed_type(t) && bits > int_bounds(t).1 {
                bits - modulus(size_of_type(t).unwrap())
            } else {
                bits
            },
        ),
    }
}

proof fn lemma_le_bytes_len(n: int, size: nat)
    ensures
        le_bytes(n, size).len() == size,
    decreases size,
{
    if size > 0 {
        lemma_le_bytes_len(n / 256, (size - 1) as nat);
    }
}

spec fn power(size: nat) -> int
    decreases size,
{
    if size == 0 {
        1
    } else {
        256 * power((size - 1) as nat)
    }
}

proof fn lemma_powers()
    ensures
        power(1) == 0x100,
        power(2) == 0x1_0000,
        power(4) == 0x1_0000_0000,
        power(8) == 0x1_0000_0000_0000_0000,
{
    reveal_with_fuel(power, 9);
}

proof fn lemma_le_value_bounds(s: Seq<u8>)
    ensures
        0 <= le_value(s) < power(s.len()),
    decreases s.len(),
{
    if s.len() > 0 {
        lemma_le_value_bounds(s.skip(1));
    }
}

proof fn lemma_le_inverse(n: int, size: nat)
    requires
        0 <= n < power(size),
    ensures
        le_value(le_bytes(n, size)) == n,
    decreases size,
{
    if size > 0 {
        assert(0 <= n / 256 < power((size - 1) as nat)) by {
            assert(n < 256 * power((size - 1) as nat));
        }
        lemma_le_inverse(n / 256, (size - 1) as nat);
        let s = le_bytes(n, size);
        assert(s.skip(1) =~= le_bytes(n / 256, (size - 1) as nat));
        assert(s[0] == (n % 256) as u8);
    }
}

proof fn lemma_bits_bounds(v: ValueView)
    requires
        is_scalar(v),
    ensures
        size_of_type(type_of(v)) is Some,
        0 <= bits_of(v) < modulus(size_of_type(type_of(v)).unwrap()),
        from_bits(type_of(v), bits_of(v)) == v,
{
}

/// The bytes of a scalar.
pub open spec fn scalar_bytes(v: ValueView) -> Seq<u8> {
    le_bytes(bits_of(v), size_of_type(type_of(v)).unwrap() as nat)
}

/// The bytes to append for a value of a packed buffer, or why it has no place there.
pub open spec fn encoded(v: ValueView, element: TypeView) -> Result<Seq<u8>, ErrorView> {
    if type_of(v) != element {
        Err(ErrorView::Runtime("VM array type invariant broken"@))
    } else if !is_scalar(v) {
        Err(ErrorView::Type("packed arrays can contain only scalar values"@))
    } else {
        Ok(scalar_bytes(v))
    }
}

fn scalar_bits(value: &Value) -> (r: Option<u64>)
    ensures
        match r {
            Some(bits) => is_scalar(value@) && bits == bits_of(value@),
            None => !is_scalar(value@),
        },
{
    match value {
        Value::I8(v) => Some(
            if *v < 0 {
                (*v as i64 + 0x100) as u64
            } else {
                *v as u64
            },
        ),
        Value::I16(v) => Some(
            if *v < 0 {
                (*v as i64 + 0x1_0000) as u64
            } else {
                *v as u64
            },
        ),
        Value::I32(v) => Some(
            if *v < 0 {
                (*v as i64 + 0x1_0000_0000) as u64
            } else {
                *v as u64
            },
        ),
        Value::I64(v) => Some(
            if *v < 0 {
                (*v as i128 + 0x1_0000_0000_0000_0000) as u64
            } else {
                *v as u64
            },
        ),
        Value::U8(v) => Some(*v as u64),
        Value::U16(v) | Value::F16(v) | Value::BF16(v) => Some(*v as u64),
        Value::U32(v) | Value::F32(v) => Some(*v as u64),
        Value::U64(v) | Value::F64(v) => Some(*v),
        Value::Bool(v) => Some(
            if *v {
                1
            } else {
                0
            },
        ),
        _ => None,
    }
}

fn scalar_from_bits(ty: &Type, bits: u64) -> (r: Value)
    requires
        size_of_type(ty@) is Some,
        bits < modulus(size_of_type(ty@).unwrap()),
    ensures
        r@ == from_bits(ty@, bits as int),
{
    match ty {
        Type::I8 => Value::I8(
            if bits > 0x7f {
                (bits as i64 - 0x100) as i8
            } else {
                bits as i8
            },
        ),
        Type::I16 => Value::I16(
            if bits > 0x7fff {
                (bits as i64 - 0x1_0000) as i16
            } else {
                bits as i16
            },
        ),
        Type::I32 => Value::I32(
            if bits > 0x7fff_ffff {
                (bits as i64 - 0x1_0000_0000) as i32
            } else {
                bits as i32
            },
        ),
        Type::I64 => Value::I64(
            if bits > 0x7fff_ffff_ffff_ffff {
                (bits as i128 - 0x1_0000_0000_0000_0000) as i64
            } else {
                bits as i64
            },
        ),
        Type::U8 => Value::U8(bits as u8),
        Type::U16 => Value::U16(bits as u16),
        Type::U32 => Value::U32(bits as u32),
        Type::F16 => Value::F16(bits as u16),
        Type::BF16 => Value::BF16(bits as u16),
        Type::F32 => Value::F32(bits as u32),
        Type::F64 => Value::F64(bits),
        Type::Bool => Value::Bool(bits != 0),
        _ => Value::U64(bits),
    }
}

/// Appends a value to a packed buffer.
pub fn encode_scalar(value: &Value, element: &Type, bytes: &mut Vec<u8>) -> (r: Result<(), Error>)
    ensures
        match r {
            Ok(_) => encoded(value@, element@) is Ok && final(bytes)@ == old(bytes)@ + encoded(
                value@,
                element@,
            )->Ok_0,
            Err(e) => encoded(value@, element@) == Err::<Seq<u8>, ErrorView>(e@) && final(bytes)@
                == old(bytes)@,
        },
{
    let ty = value.ty();
    if !ty.same(element) {
        return Err(runtime_error("VM array type invariant broken"));
    }
    match (scalar_bits(value), crate::types::type_size(element)) {
        (Some(bits), Some(size)) => {
            let ghost start = bytes@;
            let ghost all = bits as int;
            let mut rest: u64 = bits;
            let mut left: usize = size;
            assert(
                start + le_bytes(all, size as nat) =~= bytes@ + le_bytes(rest as int, left as nat)
            );
            while left > 0
                invariant
                    start + le_bytes(all, size as nat) == bytes@ + le_bytes(rest as int, left as nat),
                decreases left,
            {
                let ghost before = bytes@;
                let ghost tail = le_bytes(rest as int / 256, (left - 1) as nat);
                bytes.push((rest % 256) as u8);
                assert(before + (seq![(rest as int % 256) as u8] + tail) =~= bytes@ + tail);
                rest = rest / 256;
                left -= 1;
            }
            assert(bytes@ + le_bytes(rest as int, 0) =~= bytes@);
            Ok(())
        },
        _ => Err(type_error("packed arrays can contain only scalar values")),
    }
}

/// Where the cell of a packed buffer begins, or why there is none.
pub open spec fn cell_at(len: int, index: usize, element: TypeView) -> Result<int, ErrorView> {
    match scalar_size_of(element) {
        Err(e) => Err(e),
        Ok(size) => if index * size > usize::MAX {
            Err(ErrorView::Runtime("array index too large"@))
        } else if index * size + size > len {
            Err(
                ErrorView::Runtime(
                    "array index "@ + decimal(index as int) + " is out of bounds"@,
                ),
            )
        } else {
            Ok(index * size)
        },
    }
}

/// The value in a cell of a packed buffer.
pub open spec fn decoded(
    bytes: Seq<u8>,
    index: usize,
    element: TypeView,
) -> Result<ValueView, ErrorView> {
    match cell_at(bytes.len() as int, index, element) {
        Err(e) => Err(e),
        Ok(start) => Ok(
            from_bits(
                element,
                le_value(bytes.subrange(start, start + size_of_type(element).unwrap())),
            ),
        ),
    }
}

/// The buffer after a write to one of its cells.
pub open spec fn written(
    bytes: Seq<u8>,
    index: usize,
    v: ValueView,
    element: TypeView,
) -> Result<Seq<u8>, ErrorView> {
    match cell_at(bytes.len() as int, index, element) {
        Err(e) => Err(e),
        Ok(start) => if type_of(v) != element {
            Err(ErrorView::Runtime("VM array type invariant broken"@))
        } else if !is_scalar(v) {
            Err(ErrorView::Type("packed arrays can contain only scalar values"@))
        } else {
            Ok(
                bytes.take(start) + scalar_bytes(v) + bytes.skip(
                    start + size_of_type(element).unwrap(),
                ),
            )
        },
    }
}

fn find_cell(len: usize, index: usize, element: &Type) -> (r: Result<(usize, usize), Error>)
    ensures
        match r {
            Ok((start, size)) => cell_at(len as int, index, element@) == Ok::<int, ErrorView>(
                start as int,
            ) && size_of_type(element@) == Some(size) && start + size <= len,
            Err(e) => cell_at(len as int, index, element@) == Err::<int, ErrorView>(e@),
        },
{
    let size: usize = scalar_size(element)?;
    match index.checked_mul(size) {
        None => Err(runtime_error("array index too large")),
        Some(start) => if len < size || start > len - size {
            Err(
                Error::Runtime(
                    cat3("array index ", usize_text(index).as_str(), " is out of bounds"),
                ),
            )
        } else {
            Ok((start, size))
        },
    }
}

/// Reads a cell of a packed buffer.
pub fn decode_scalar(bytes: &[u8], index: usize, element: &Type) -> (r: Result<Value, Error>)
    ensures
        match r {
            Ok(v) => decoded(bytes@, index, element@) == Ok::<ValueView, ErrorView>(v@),
            Err(e) => decoded(bytes@, index, element@) == Err::<ValueView, ErrorView>(e@),
        },
{
    let (start, size) = find_cell(bytes.len(), index, element)?;
    let ghost cell = bytes@.subrange(start as int, start + size);
    let mut bits: u64 = 0;
    let mut left: usize = size;
    assert(cell.skip(size as int) =~= Seq::<u8>::empty());
    while left > 0
        invariant
            left <= size,
            start + size <= bytes@.len(),
            start + size <= usize::MAX,
            size == 1 || size == 2 || size == 4 || size == 8,
            cell == bytes@.subrange(start as int, start + size),
            bits == le_value(cell.skip(left as int)),
        decreases left,
    {
        left -= 1;
        proof {
            let tail = cell.skip(left as int);
            assert(tail.skip(1) =~= cell.skip(left + 1));
            assert(tail[0] == bytes@[start + left]);
            lemma_le_value_bounds(tail);
            lemma_power_monotonic(tail.len(), 8);
            lemma_powers();
        }
        bits = bits * 256 + bytes[start + left] as u64;
    }
    proof {
        assert(cell.skip(0) =~= cell);
        lemma_le_value_bounds(cell);
        lemma_powers();
    }
    Ok(scalar_from_bits(element, bits))
}

proof fn lemma_power_monotonic(a: nat, b: nat)
    requires
        a <= b,
    ensures
        0 < power(a) <= power(b),
    decreases b,
{
    if a < b {
        lemma_power_monotonic(a, (b - 1) as nat);
    } else if a > 0 {
        lemma_power_monotonic((a - 1) as nat, (a - 1) as nat);
    }
}

/// Overwrites a cell of a packed buffer.
pub fn write_scalar(
    bytes: &mut Vec<u8>,
    index: usize,
    value: &Value,
    element: &Type,
) -> (r: Result<(), Error>)
    ensures
        match r {
            Ok(_) => written(old(bytes)@, index, value@, element@) == Ok::<Seq<u8>, ErrorView>(
                final(bytes)@,
            ),
            Err(e) => written(old(bytes)@, index, value@, element@) == Err::<Seq<u8>, ErrorView>(e@)
                && final(bytes)@ == old(bytes)@,
        },
{
    let (start, size) = find_cell(bytes.len(), index, element)?;
    let ty = value.ty();
    if !ty.same(element) {
        return Err(runtime_error("VM array type invariant broken"));
    }
    match scalar_bits(value) {
        None => Err(type_error("packed arrays can contain only scalar values")),
        Some(bits) => {
            let ghost before = bytes@;
            let ghost cell = le_bytes(bits as int, size as nat);
            let mut rest: u64 = bits;
            let mut k: usize = 0;
            proof {
                lemma_le_bytes_len(bits as int, size as nat);
                assert(cell.skip(0) =~= cell);
            }
            while k < size
                invariant
                    k <= size,
                    start + size <= bytes@.len() == before.len(),
                    start + size <= usize::MAX,
                    cell.len() == size,
                    cell.skip(k as int) == le_bytes(rest as int, (size - k) as nat),
                    forall|i: int| 0 <= i < k ==> #[trigger] bytes@[start + i] == cell[i],
                    forall|i: int|
                        0 <= i < before.len() && (i < start || i >= start + size)
                            ==> #[trigger] bytes@[i] == before[i],
                decreases size - k,
            {
                proof {
                    assert(cell.skip(k as int)[0] == cell[k as int]);
                    assert(cell.skip(k + 1) =~= cell.skip(k as int).skip(1));
                    assert(cell.skip(k as int).skip(1) =~= le_bytes(
                        rest as int / 256,
                        (size - k - 1) as nat,
                    ));
                }
                bytes[start + k] = (rest % 256) as u8;
                rest = rest / 256;
                k += 1;
            }
            proof {
                let after = before.take(start as int) + cell + before.skip(start + size);
                assert forall|i: int| 0 <= i < before.len() implies bytes@[i] == after[i] by {
                    if start <= i < start + size {
                        assert(bytes@[start + (i - start)] == cell[i - start]);
                    }
                }
                assert(bytes@ =~= after);
            }
            Ok(())
        },
    }
}

/// The packed buffer of a list of values.
pub open spec fn packed(values: Seq<ValueView>, element: TypeView) -> Result<Seq<u8>, ErrorView>
    decreases values.len(),
{
    if values.len() == 0 {
        Ok(Seq::empty())
    } else {
        match packed(values.drop_last(), element) {
            Err(e) => Err(e),
            Ok(bytes) => match encoded(values.last(), element) {
                Err(e) => Err(e),
                Ok(cell) => Ok(bytes + cell),
            },
        }
    }
}

/// The packed buffer of an array literal.
pub open spec fn packed_array(
    values: Seq<ValueView>,
    element: TypeView,
) -> Result<Seq<u8>, ErrorView> {
    match scalar_size_of(element) {
        Err(e) => Err(e),
        Ok(size) => if values.len() * size > usize::MAX {
            Err(ErrorView::Runtime("array is too large"@))
        } else {
            packed(values, element)
        },
    }
}

/// The room to reserve for a number of bytes: none where no buffer is that large.
pub(crate) fn room(capacity: usize) -> (r: usize)
    ensures
        r <= isize::MAX,
        capacity <= isize::MAX ==> r == capacity,
{
    if capacity <= isize::MAX as usize {
        capacity
    } else {
        0
    }
}

/// Packs values of one scalar type into a buffer with room for `capacity` bytes,
/// where there can be that much.
pub fn pack_values(
    values: &Vec<Value>,
    element: &Type,
    capacity: usize,
) -> (r: Result<Vec<u8>, Error>)
    ensures
        match r {
            Ok(bytes) => packed(views(values@), element@) == Ok::<Seq<u8>, ErrorView>(bytes@),
            Err(e) => packed(views(values@), element@) == Err::<Seq<u8>, ErrorView>(e@),
        },
{
    let ghost all = views(values@);
    let mut bytes: Vec<u8> = Vec::with_capacity(room(capacity));
    let mut i: usize = 0;
    assert(all.take(0) =~= Seq::<ValueView>::empty());
    while i < values.len()
        invariant
            i <= values@.len() == all.len(),
            all == views(values@),
            packed(all.take(i as int), element@) == Ok::<Seq<u8>, ErrorView>(bytes@),
        decreases values@.len() - i,
    {
        assert(all.take(i + 1).drop_last() =~= all.take(i as int));
        match encode_scalar(&values[i], element, &mut bytes) {
            Ok(_) => {},
            Err(e) => {
                proof {
                    lemma_packed_fails(all, element@, i + 1, e@);
                }
                return Err(e);
            },
        }
        i += 1;
    }
    assert(all.take(all.len() as int) =~= all);
    Ok(bytes)
}

impl Value {
    /// Packs the items of an array.
    pub fn pack_array(values: Vec<Value>, element: &Type) -> (r: Result<Vec<u8>, Error>)
        ensures
            match r {
                Ok(bytes) => packed_array(views(values@), element@) == Ok::<Seq<u8>, ErrorView>(
                    bytes@,
                ),
                Err(e) => packed_array(views(values@), element@) == Err::<Seq<u8>, ErrorView>(e@),
            },
    {
        let size: usize = scalar_size(element)?;
        assert(views(values@).len() == values@.len());
        match values.len().checked_mul(size) {
            None => Err(runtime_error("array is too large")),
            Some(total) => pack_values(&values, element, total),
        }
    }
}

proof fn lemma_packed_fails(values: Seq<ValueView>, element: TypeView, n: int, e: ErrorView)
    requires
        0 <= n <= values.len(),
        packed(values.take(n), element) == Err::<Seq<u8>, ErrorView>(e),
    ensures
        packed(values, element) == Err::<Seq<u8>, ErrorView>(e),
    decreases values.len() - n,
{
    if n == values.len() {
        assert(values.take(n) =~= values);
    } else {
        assert(values.take(n + 1).drop_last() =~= values.take(n));
        lemma_packed_fails(values, element, n + 1, e);
    }
}

/// Reading a scalar's bytes back gives the scalar.
pub proof fn scalars_round_trip(v: ValueView)
    requires
        is_scalar(v),
    ensures
        size_of_type(type_of(v)) is Some,
        scalar_bytes(v).len() == size_of_type(type_of(v)).unwrap(),
        from_bits(type_of(v), le_value(scalar_bytes(v))) == v,
{
    lemma_bits_bounds(v);
    let size = size_of_type(type_of(v)).unwrap() as nat;
    lemma_powers();
    lemma_le_inverse(bits_of(v), size);
    lemma_le_bytes_len(bits_of(v), size);
}

/// A cell reads back as what was written to it.
pub proof fn written_cell_reads_back(
    bytes: Seq<u8>,
    index: usize,
    v: ValueView,
    element: TypeView,
)
    requires
        written(bytes, index, v, element) is Ok,
    ensures
        decoded(written(bytes, index, v, element)->Ok_0, index, element) == Ok::<
            ValueView,
            ErrorView,
        >(v),
        written(bytes, index, v, element)->Ok_0.len() == bytes.len(),
{
    scalars_round_trip(v);
    let size = size_of_type(element).unwrap() as int;
    let start = index * size;
    let after = written(bytes, index, v, element)->Ok_0;
    assert(after.subrange(start, start + size) =~= scalar_bytes(v));
}

/// A write to one cell leaves every other cell as it was.
pub proof fn other_cells_stay(
    bytes: Seq<u8>,
    index: usize,
    other: usize,
    v: ValueView,
    element: TypeView,
)
    requires
        written(bytes, index, v, element) is Ok,
        other != index,
    ensures
        decoded(written(bytes, index, v, element)->Ok_0, other, element) == decoded(
            bytes,
            other,
            element,
        ),
{
    scalars_round_trip(v);
    let size = size_of_type(element).unwrap() as int;
    let start = index * size;
    let there = other * size;
    let after = written(bytes, index, v, element)->Ok_0;
    assert(there + size <= start || start + size <= there) by (nonlinear_arith)
        requires
            there == other * size,
            start == index * size,
            size > 0,
            other != index,
    ;
    assert(after.len() == bytes.len());
    if there + size <= bytes.len() {
        assert(after.subrange(there, there + size) =~= bytes.subrange(there, there + size));
    }
}

} // verus!
