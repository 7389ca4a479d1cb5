//! The items of a tensor over the root of the mean of their squares.
use vstd::prelude::*;
use candle_core::Tensor;
use crate::candle::{
    Tensors, TensorsView, can_compute, do_match, lookup, refused, settled, shapes_pair, widest,
};
use crate::host::misused;
use crate::tensors::{
    Items, Kind, computable, contents, dims_of, divide_items, last_means, matching, means_give,
    multiple_gives, multiply_items, pairable, quotient_gives, root_items, roots_give, squares,
    squares_give, tensor_dims, tensor_kind, wider,
};
use crate::types::{Error, ErrorView, runtime_error};
use crate::value::{Value, ValueView};
use crate::views::{group_views, views};

verus! {

broadcast use {group_views, vstd::std_specs::hash::group_hash_axioms};

/// The tensor and the weights that `candle_rmsnorm` is called on. The float
/// behind them is added to the means by the host.
pub open spec fn norm_call(arguments: Seq<ValueView>) -> Option<(i32, i32)> {
    if arguments.len() == 3 && arguments[0] is I32 && arguments[1] is I32 && arguments[2] is F32 {
        Some((arguments[0]->I32_0, arguments[1]->I32_0))
    } else {
        None
    }
}

fn norm_numbers(arguments: &Vec<Value>) -> (r: Option<(i32, i32)>)
    ensures
        r == norm_call(views(arguments@)),
{
    if arguments.len() != 3 {
        return None;
    }
    assert(views(arguments@)[0] == arguments@[0]@);
    assert(views(arguments@)[1] == arguments@[1]@);
    assert(views(arguments@)[2] == arguments@[2]@);
    match (&arguments[0], &arguments[1], &arguments[2]) {
        (Value::I32(id), Value::I32(weights), Value::F32(_)) => Some((*id, *weights)),
        _ => None,
    }
}

/// The tensor and the weights, where both are held.
pub open spec fn norm_operands(v: TensorsView, arguments: Seq<ValueView>) -> Result<
    (Tensor, Tensor),
    ErrorView,
> {
    match norm_call(arguments) {
        None => Err(misused("expects (i32, i32, f32)"@)),
        Some((id, weights)) => match lookup(v, id) {
            Err(e) => Err(e),
            Ok(t) => match lookup(v, weights) {
                Err(e) => Err(e),
                Ok(w) => Ok((t, w)),
            },
        },
    }
}

/// The means of the squares of some items, along the last dimension.
pub open spec fn square_means(i: Items, m: Items) -> bool {
    &&& i.dims.len() > 0
    &&& m.kind == i.kind
    &&& m.dims == i.dims.update(i.dims.len() - 1, 1)
    &&& exists|squares: Items| #[trigger]
        squares_give(i, squares) && squares.kind == i.kind && squares.dims == i.dims && means_give(
            squares,
            m,
        )
}

/// Some items over the roots of others, weighed.
pub open spec fn weighed(i: Items, shifted: Items, weights: Items, x: Items) -> bool {
    exists|roots: Items, quotients: Items|
        #![trigger roots_give(shifted, roots), quotient_gives(i, roots, quotients)]
        roots_give(shifted, roots) && quotient_gives(i, roots, quotients) && multiple_gives(
            quotients,
            weights,
            x,
        ) && x.kind == i.kind && x.dims == wider(wider(i.dims, shifted.dims), weights.dims)
}

/// Whether the means that `candle_rmsnorm` begins with can be taken.
pub open spec fn means_allowed(v: TensorsView, arguments: Seq<ValueView>) -> bool {
    norm_operands(v, arguments) matches Ok((t, _)) ==> computable(contents(t))
}

/// Whether `candle_rmsnorm` can be carried out from its means on.
pub open spec fn norm_allowed(v: TensorsView, arguments: Seq<ValueView>, shifted: Items) -> bool {
    norm_operands(v, arguments) matches Ok((t, w)) ==> {
        &&& computable(shifted)
        &&& pairable(contents(t), shifted)
        &&& matching(dims_of(t), shifted.dims) ==> pairable(
            Items { dims: wider(dims_of(t), shifted.dims), ..contents(t) },
            contents(w),
        )
    }
}

/// Whether the means that `candle_rmsnorm` begins with can be taken.
pub fn may_mean(tensors: &Tensors, arguments: &Vec<Value>) -> (r: bool)
    ensures
        r == means_allowed(tensors@, views(arguments@)),
{
    match norm_numbers(arguments) {
        None => true,
        Some((id, weights)) => match (tensors.held.get(&id), tensors.held.get(&weights)) {
            (Some(t), Some(_)) => can_compute(t),
            _ => true,
        },
    }
}

/// Whether `candle_rmsnorm` can be carried out from its means on.
pub fn may_norm(tensors: &Tensors, arguments: &Vec<Value>, shifted: &Tensor) -> (r: bool)
    ensures
        r == norm_allowed(tensors@, views(arguments@), contents(*shifted)),
{
    match norm_numbers(arguments) {
        None => true,
        Some((id, weights)) => match (tensors.held.get(&id), tensors.held.get(&weights)) {
            (Some(t), Some(w)) => {
                let kind: Kind = tensor_kind(t);
                let dims = tensor_dims(t);
                let means = tensor_dims(shifted);
                if !can_compute(shifted) || !shapes_pair(
                    kind,
                    &dims,
                    tensor_kind(shifted),
                    &means,
                ) {
                    return false;
                }
                !do_match(&dims, &means) || shapes_pair(
                    kind,
                    &widest(&dims, &means),
                    tensor_kind(w),
                    &tensor_dims(w),
                )
            },
            _ => true,
        },
    }
}

/// The means of the squares of the items that `candle_rmsnorm` is called on,
/// along the last dimension.
pub fn rms_means(tensors: &Tensors, arguments: &Vec<Value>) -> (r: Result<Tensor, Error>)
    requires
        means_allowed(tensors@, views(arguments@)),
    ensures
        match norm_operands(tensors@, views(arguments@)) {
            Err(e) => r is Err && r->Err_0@ == e,
            Ok((t, _)) => match r {
                Err(e) => e@ is Runtime,
                Ok(m) => square_means(contents(t), contents(m)),
            },
        },
{
    let (id, weights) = match norm_numbers(arguments) {
        Some(found) => found,
        None => {
            return Err(runtime_error("expects (i32, i32, f32)"));
        },
    };
    let t = tensors.get_tensor(id)?;
    let _weights: &Tensor = tensors.get_tensor(weights)?;
    let found = match squares(t) {
        Ok(found) => found,
        Err(text) => {
            return Err(Error::Runtime(text));
        },
    };
    assert(squares_give(contents(*t), contents(found)));
    match last_means(&found) {
        Ok(means) => Ok(means),
        Err(text) => Err(Error::Runtime(text)),
    }
}

fn norm_of(t: &Tensor, weights: &Tensor, shifted: &Tensor) -> (r: Result<Tensor, String>)
    requires
        computable(contents(*shifted)),
        pairable(contents(*t), contents(*shifted)),
        matching(dims_of(*t), dims_of(*shifted)) ==> pairable(
            (Items { dims: wider(dims_of(*t), dims_of(*shifted)), ..contents(*t) }),
            contents(*weights),
        ),
    ensures
        r matches Ok(x) ==> weighed(
            contents(*t),
            contents(*shifted),
            contents(*weights),
            contents(x),
        ),
{
    let divisors = root_items(shifted)?;
    let quotients = divide_items(t, &divisors)?;
    assert(roots_give(contents(*shifted), contents(divisors)));
    assert(quotient_gives(contents(*t), contents(divisors), contents(quotients)));
    multiply_items(&quotients, weights)
}

/// The items that `candle_rmsnorm` is called on over the roots of some means,
/// weighed.
pub fn rms_settle(
    tensors: &mut Tensors,
    arguments: &Vec<Value>,
    shifted: &Tensor,
) -> (r: Result<Value, Error>)
    requires
        old(tensors).next < i32::MAX,
        norm_allowed(old(tensors)@, views(arguments@), contents(*shifted)),
    ensures
        match norm_operands(old(tensors)@, views(arguments@)) {
            Err(e) => refused(old(tensors)@, final(tensors)@, r, e),
            Ok((t, w)) => settled(
                old(tensors)@,
                final(tensors)@,
                r,
                |x: Items| weighed(contents(t), contents(*shifted), contents(w), x),
            ),
        },
{
    let (id, weights) = match norm_numbers(arguments) {
        Some(found) => found,
        None => {
            return Err(runtime_error("expects (i32, i32, f32)"));
        },
    };
    let outcome = norm_of(tensors.get_tensor(id)?, tensors.get_tensor(weights)?, shifted);
    tensors.keep(outcome)
}

} // verus!
