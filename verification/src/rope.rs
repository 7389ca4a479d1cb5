//! Turning the items of a tensor, in pairs, by angles.
use vstd::prelude::*;
use candle_core::Tensor;
use crate::candle::{
    Tensors, TensorsView, can_be_counted, counted, lookup, refused, settled, three_numbers, triple,
};
use crate::host::misused;
use crate::semantics::volume;
use crate::tensors::{
    Items, Kind, add_items, contents, cosine, cosine_gives, countable, dims_of, join, joins,
    lemma_bulk_update, multiple_gives, multiply_items, narrow, narrows, negative, negative_gives,
    sine, sine_gives, stretch, stretchable, stretches, sum_gives, tensor_dims, tensor_kind,
    turned_signs, wider,
};
use crate::types::{Error, ErrorView, runtime_error};
use crate::value::Value;
use crate::views::{group_views, views};

verus! {

broadcast use {group_views, vstd::std_specs::hash::group_hash_axioms};

/// The angles of both halves, as their cosines, stretched to some extents.
pub open spec fn cosines_of(angles: Items, dims: Seq<usize>, r: Items) -> bool {
    exists|both: Items, c: Items| #[trigger]
        joins(angles, angles, 1, both) && #[trigger] cosine_gives(both, c) && stretches(c, dims, r)
}

/// The same as their sines.
pub open spec fn sines_of(angles: Items, dims: Seq<usize>, r: Items) -> bool {
    exists|both: Items, s: Items| #[trigger]
        joins(angles, angles, 1, both) && #[trigger] sine_gives(both, s) && stretches(s, dims, r)
}

/// The second half of the last dimension with its signs turned, and the first
/// half behind it.
pub open spec fn swapped_halves(i: Items, half: int, r: Items) -> bool {
    exists|first: Items, second: Items, negated: Items|
        #![trigger narrows(i, 0, half, first), negative_gives(second, negated)]
        narrows(i, 0, half, first) && narrows(i, half, half, second) && negative_gives(
            second,
            negated,
        ) && turned_signs(second, negated) && joins(negated, first, i.dims.len() - 1, r)
}

/// The items of a tensor times the cosines, and its swapped halves times the
/// sines.
pub open spec fn turned(i: Items, angles: Items, r: Items) -> bool {
    exists|c: Items, s: Items, swapped: Items, near: Items, far: Items|
        #![trigger multiple_gives(i, c, near), multiple_gives(swapped, s, far)]
        cosines_of(angles, i.dims, c) && sines_of(angles, i.dims, s) && swapped_halves(
            i,
            angles.dims[1] as int,
            swapped,
        ) && multiple_gives(i, c, near) && multiple_gives(swapped, s, far) && sum_gives(
            near,
            far,
            r,
        )
}

/// Whether a tensor can be turned: there is one row of angles, everything can be
/// counted, and items that the angles fit are floats of 32 bits as the angles
/// are.
pub open spec fn turnable(i: Items, angles: Items) -> bool {
    &&& angles.kind == Kind::F32
    &&& countable(i.dims)
    &&& countable(angles.dims)
    &&& angles.dims.len() == 2
    &&& angles.dims[0] == 1
    &&& angles.dims[1] * 2 <= usize::MAX
    &&& countable(seq![1, (angles.dims[1] * 2) as usize])
    &&& i.dims.len() >= 2 && i.dims.last() == angles.dims[1] * 2 ==> i.kind == Kind::F32
        || volume(i.dims, 0) == 0
}

/// Whether a tensor can be turned.
fn can_turn(t: &Tensor, angles: &Tensor) -> (r: bool)
    ensures
        r == turnable(contents(*t), contents(*angles)),
{
    let row = tensor_dims(angles);
    if row.len() != 2 || row[0] != 1 || tensor_kind(angles) != Kind::F32 || !can_be_counted(&row) {
        return false;
    }
    let both: usize = match row[1].checked_mul(2) {
        None => {
            return false;
        },
        Some(both) => both,
    };
    let mut whole: Vec<usize> = Vec::new();
    whole.push(1);
    whole.push(both);
    assert(whole@ =~= seq![1, both]);
    let dims = tensor_dims(t);
    if !can_be_counted(&whole) {
        return false;
    }
    match counted(&dims) {
        None => false,
        Some(n) => {
            let rank: usize = dims.len();
            rank < 2 || dims[rank - 1] != both || tensor_kind(t) == Kind::F32 || n == 0
        },
    }
}

/// The items of a tensor turned by angles. It fails where the last dimension is
/// not twice as long as there are angles.
fn turn(t: &Tensor, angles: &Tensor) -> (r: Result<Tensor, String>)
    requires
        turnable(contents(*t), contents(*angles)),
    ensures
        r matches Ok(x) ==> turned(contents(*t), contents(*angles), contents(x)),
{
    let dims = tensor_dims(t);
    let half: usize = tensor_dims(angles)[1];
    let ghost i = contents(*t);
    proof {
        assert(dims_of(*angles).update(1, (half + half) as usize) =~= seq![
            1,
            (half * 2) as usize,
        ]);
    }
    let both = join(angles, angles, 1)?;
    let cosines = cosine(&both)?;
    let sines = sine(&both)?;
    let c = stretch(&cosines, &dims)?;
    let s = stretch(&sines, &dims)?;
    assert(joins(contents(*angles), contents(*angles), 1, contents(both)));
    assert(cosine_gives(contents(both), contents(cosines)));
    assert(sine_gives(contents(both), contents(sines)));
    assert(cosines_of(contents(*angles), i.dims, contents(c)));
    assert(sines_of(contents(*angles), i.dims, contents(s)));
    proof {
        lemma_fitting(seq![1, (half * 2) as usize], dims@);
    }
    let first = narrow(t, 0, half)?;
    let second = narrow(t, half, half)?;
    let last: usize = dims.len() - 1;
    proof {
        lemma_bulk_update(dims@, last as int, half, 0);
        if volume(dims@, 0) == 0 {
            lemma_empty_half(dims@, half, 0);
        }
        lemma_bulk_update(dims@, last as int, (half + half) as usize, 0);
        assert(dims_of(first).update(last as int, (half + half) as usize) =~= dims@.update(
            last as int,
            (half + half) as usize,
        ));
    }
    let negated = negative(&second)?;
    let swapped = join(&negated, &first, last)?;
    assert(narrows(i, 0, half as int, contents(first)));
    assert(negative_gives(contents(second), contents(negated)));
    assert(swapped_halves(i, half as int, contents(swapped)));
    proof {
        lemma_same_extents(i.dims);
        lemma_turned_extents(i.dims, half, dims_of(swapped));
    }
    let near = multiply_items(t, &c)?;
    let far = multiply_items(&swapped, &s)?;
    assert(multiple_gives(i, contents(c), contents(near)));
    assert(multiple_gives(contents(swapped), contents(s), contents(far)));
    add_items(&near, &far)
}

/// A row that can be stretched to some extents is as long as the last of them.
proof fn lemma_fitting(row: Seq<usize>, dims: Seq<usize>)
    requires
        row.len() == 2,
        row[1] != 1,
        stretchable(row, dims),
    ensures
        dims.len() >= 2,
        dims.last() == row[1],
{
    assert(row[1] == dims[1 + dims.len() - 2]);
}

/// A tensor without items has none in half of its last dimension either.
proof fn lemma_empty_half(dims: Seq<usize>, half: usize, k: int)
    requires
        dims.len() > 0,
        dims.last() == half + half,
        0 <= k <= dims.len(),
        volume(dims, k) == 0,
    ensures
        volume(dims.update(dims.len() - 1, half), k) == 0,
    decreases dims.len() - k,
{
    if k < dims.len() {
        let part = dims.update(dims.len() - 1, half);
        let d = dims[k] as int;
        let v = volume(dims, k + 1);
        assert(d == 0 || v == 0) by (nonlinear_arith)
            requires
                d * v == 0,
        ;
        if v == 0 {
            lemma_empty_half(dims, half, k + 1);
            assert(part[k] * 0 == 0);
        } else {
            assert(part[k] == 0);
            assert(0 * volume(part, k + 1) == 0);
        }
    }
}

/// A tensor taken together with one of the same extents has these extents.
proof fn lemma_same_extents(dims: Seq<usize>)
    ensures
        wider(dims, dims) == dims,
{
    assert(wider(dims, dims) =~= dims);
}

/// The swapped halves have the extents of the whole where both halves make up
/// the last dimension.
proof fn lemma_turned_extents(dims: Seq<usize>, half: usize, swapped: Seq<usize>)
    requires
        dims.len() > 0,
        half + half <= dims.last(),
        swapped == dims.update(dims.len() - 1, half).update(
            dims.len() - 1,
            (half + half) as usize,
        ),
    ensures
        half + half == dims.last() ==> swapped == dims,
{
    if half + half == dims.last() {
        assert(swapped =~= dims);
    }
}

/// The tensor, the position and the extent of a head that `candle_apply_rope_id`
/// is called on.
pub fn rope_call(tensors: &Tensors, arguments: &Vec<Value>) -> (r: Result<
    (i32, usize, usize),
    Error,
>)
    ensures
        match three_numbers(views(arguments@)) {
            None => r is Err && r->Err_0@ == misused("expects (i32, i32, i32)"@),
            Some((id, position, extent)) => match lookup(tensors@, id) {
                Err(e) => r is Err && r->Err_0@ == e,
                Ok(_) => r is Ok && r->Ok_0 == (id, position as usize, extent as usize),
            },
        },
{
    match triple(arguments) {
        None => Err(runtime_error("expects (i32, i32, i32)")),
        Some((id, position, extent)) => {
            let _held: &Tensor = tensors.get_tensor(id)?;
            Ok((id, position as usize, extent as usize))
        },
    }
}

/// Whether `candle_apply_rope_id` can be carried out.
pub open spec fn rope_allowed(v: TensorsView, id: i32, angles: Result<Tensor, String>) -> bool {
    v.held.contains_key(id) ==> match angles {
        Err(_) => true,
        Ok(a) => turnable(contents(v.held[id]), contents(a)),
    }
}

/// Whether `candle_apply_rope_id` can be carried out.
pub fn may_turn(tensors: &Tensors, id: i32, angles: &Result<Tensor, String>) -> (r: bool)
    ensures
        r == rope_allowed(tensors@, id, *angles),
{
    match tensors.held.get(&id) {
        None => true,
        Some(t) => match angles {
            Err(_) => true,
            Ok(a) => can_turn(t, a),
        },
    }
}

/// A tensor turned by angles, or the reason why there are none: what
/// `candle_apply_rope_id` does with the angles of its position.
pub fn candle_apply_rope_id(
    tensors: &mut Tensors,
    id: i32,
    angles: Result<Tensor, String>,
) -> (r: Result<Value, Error>)
    requires
        old(tensors).next < i32::MAX,
        rope_allowed(old(tensors)@, id, angles),
    ensures
        match lookup(old(tensors)@, id) {
            Err(e) => refused(old(tensors)@, final(tensors)@, r, e),
            Ok(t) => match angles {
                Err(text) => refused(
                    old(tensors)@,
                    final(tensors)@,
                    r,
                    ErrorView::Runtime(text@),
                ),
                Ok(a) => settled(
                    old(tensors)@,
                    final(tensors)@,
                    r,
                    |x: Items| turned(contents(t), contents(a), x),
                ),
            },
        },
{
    let t = tensors.get_tensor(id)?;
    let outcome = match &angles {
        Ok(a) => turn(t, a),
        Err(text) => Err(text.clone()),
    };
    tensors.keep(outcome)
}

} // verus!
