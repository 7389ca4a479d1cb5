//! The host functions on tensors that are held by number.
use vstd::prelude::*;
use std::collections::HashMap;
use candle_core::Tensor;
use crate::heap::Heap;
use crate::host::{array_items, get_array_items, misused};
use crate::scalar::le_value;
use crate::semantics::{HeapView, volume};
use crate::tensors::{
    Items, Kind, add_items, bulk, computable, contents, countable, dims_of, extent, flatten, floats,
    floats_gives, greatest, greatest_gives, has_both, has_row, join, joins, kind_of, leading_dims,
    lemma_bulk, lemma_bulk_from, lemma_countable, matching, multiple_gives, multiply,
    multiply_items, multiply_stretched, on_processor, pack, pairable, product_countable,
    product_dims, product_gives, products_countable, products_match, reshape, reshaped, row_of,
    select_row, silu, silu_gives, single, softmax, softmax_gives, softmax_last, squeeze, squeezed,
    stretch, stretched_product_gives, stretches, sum_gives, tensor_dims, tensor_kind, transpose,
    transposes, unsqueeze, unsqueezed, wider,
};
use crate::text::{cat3, decimal, decimal_text};
use crate::types::{Error, ErrorView, Type, TypeView, runtime_error, type_error};
use crate::value::{Value, ValueView};
use crate::views::{group_views, views};

verus! {

broadcast use {group_views, vstd::std_specs::hash::group_hash_axioms};

/// The tensors that programs refer to by number.
pub struct Tensors {
    pub held: HashMap<i32, Tensor>,
    pub next: i32,
}

/// The mathematical model of [`Tensors`].
pub struct TensorsView {
    pub held: Map<i32, Tensor>,
    pub next: i32,
}

impl View for Tensors {
    type V = TensorsView;

    open spec fn view(&self) -> TensorsView {
        TensorsView { held: self.held@, next: self.next }
    }
}

impl Default for Tensors {
    fn default() -> (r: Self)
        ensures
            r@ == (TensorsView { held: Map::empty(), next: 1 }),
    {
        Tensors { held: HashMap::new(), next: 1 }
    }
}

/// A tensor by its number.
pub open spec fn lookup(v: TensorsView, id: i32) -> Result<Tensor, ErrorView> {
    if v.held.contains_key(id) {
        Ok(v.held[id])
    } else {
        Err(
            ErrorView::Runtime(
                "Tensor ID "@ + decimal(id as int) + " not found in registry"@,
            ),
        )
    }
}

/// With one more tensor.
pub open spec fn with_tensor(v: TensorsView, t: Tensor) -> TensorsView {
    TensorsView { held: v.held.insert(v.next, t), next: (v.next + 1) as i32 }
}

/// What a function gives for a tensor that the candle crate gave, or for its
/// failure: the number of the tensor.
pub open spec fn kept(v: TensorsView, outcome: Result<Tensor, Seq<char>>) -> (
    TensorsView,
    Result<ValueView, ErrorView>,
) {
    match outcome {
        Ok(t) => (with_tensor(v, t), Ok(ValueView::I32(v.next))),
        Err(text) => (v, Err(ErrorView::Runtime(text))),
    }
}

/// Whether a function ended with a failure that left everything as it was, or
/// with a new tensor for which `p` holds.
pub open spec fn settled(
    before: TensorsView,
    after: TensorsView,
    r: Result<Value, Error>,
    p: spec_fn(Items) -> bool,
) -> bool {
    match r {
        Err(e) => after == before && e@ is Runtime,
        Ok(v) => exists|t: Tensor|
            #![trigger contents(t)]
            p(contents(t)) && v@ == ValueView::I32(before.next) && after == with_tensor(before, t),
    }
}

/// Whether a function failed and left everything as it was.
pub open spec fn refused(
    before: TensorsView,
    after: TensorsView,
    r: Result<Value, Error>,
    e: ErrorView,
) -> bool {
    after == before && r is Err && r->Err_0@ == e
}

impl Tensors {
    /// Holds a tensor under the next number.
    pub fn insert_tensor(&mut self, t: Tensor) -> (id: i32)
        requires
            old(self).next < i32::MAX,
        ensures
            id == old(self).next,
            final(self)@ == with_tensor(old(self)@, t),
    {
        let id: i32 = self.next;
        self.next = id + 1;
        self.held.insert(id, t);
        id
    }

    /// The tensor of a number.
    pub fn get_tensor(&self, id: i32) -> (r: Result<&Tensor, Error>)
        ensures
            match r {
                Ok(t) => lookup(self@, id) == Ok::<Tensor, ErrorView>(*t),
                Err(e) => lookup(self@, id) == Err::<Tensor, ErrorView>(e@),
            },
    {
        match self.held.get(&id) {
            Some(t) => Ok(t),
            None => Err(
                Error::Runtime(
                    cat3(
                        "Tensor ID ",
                        decimal_text(id as i128).as_str(),
                        " not found in registry",
                    ),
                ),
            ),
        }
    }

    /// Holds what the candle crate gave, or passes its failure on.
    pub fn keep(&mut self, outcome: Result<Tensor, String>) -> (r: Result<Value, Error>)
        requires
            old(self).next < i32::MAX,
        ensures
            match (r, outcome) {
                (Ok(v), Ok(t)) => kept(old(self)@, Ok(t)) == (
                    final(self)@,
                    Ok::<ValueView, ErrorView>(v@),
                ),
                (Err(e), Err(text)) => kept(old(self)@, Err(text@)) == (
                    final(self)@,
                    Err::<ValueView, ErrorView>(e@),
                ),
                _ => false,
            },
    {
        match outcome {
            Ok(t) => Ok(Value::I32(self.insert_tensor(t))),
            Err(text) => Err(Error::Runtime(text)),
        }
    }

    /// The extents of a tensor.
    pub fn dims(&self, id: i32) -> (r: Option<Vec<usize>>)
        ensures
            match r {
                Some(dims) => self@.held.contains_key(id) && dims@ == dims_of(self@.held[id]),
                None => !self@.held.contains_key(id),
            },
    {
        match self.held.get(&id) {
            Some(t) => Some(tensor_dims(t)),
            None => None,
        }
    }
}

/// The one number that a function is called on.
pub open spec fn one_number(arguments: Seq<ValueView>) -> Option<i32> {
    if arguments.len() == 1 {
        match arguments[0] {
            ValueView::I32(a) => Some(a),
            _ => None,
        }
    } else {
        None
    }
}

/// The two numbers that a function is called on.
pub open spec fn two_numbers(arguments: Seq<ValueView>) -> Option<(i32, i32)> {
    if arguments.len() == 2 {
        match (arguments[0], arguments[1]) {
            (ValueView::I32(a), ValueView::I32(b)) => Some((a, b)),
            _ => None,
        }
    } else {
        None
    }
}

/// The three numbers that a function is called on.
pub open spec fn three_numbers(arguments: Seq<ValueView>) -> Option<(i32, i32, i32)> {
    if arguments.len() == 3 {
        match (arguments[0], arguments[1], arguments[2]) {
            (ValueView::I32(a), ValueView::I32(b), ValueView::I32(c)) => Some((a, b, c)),
            _ => None,
        }
    } else {
        None
    }
}

pub(crate) fn number(arguments: &Vec<Value>) -> (r: Option<i32>)
    ensures
        r == one_number(views(arguments@)),
{
    if arguments.len() == 1 {
        assert(views(arguments@)[0] == arguments@[0]@);
        if let Value::I32(a) = &arguments[0] {
            return Some(*a);
        }
    }
    None
}

pub(crate) fn numbers(arguments: &Vec<Value>) -> (r: Option<(i32, i32)>)
    ensures
        r == two_numbers(views(arguments@)),
{
    if arguments.len() == 2 {
        assert(views(arguments@)[0] == arguments@[0]@);
        assert(views(arguments@)[1] == arguments@[1]@);
        if let (Value::I32(a), Value::I32(b)) = (&arguments[0], &arguments[1]) {
            return Some((*a, *b));
        }
    }
    None
}

pub(crate) fn triple(arguments: &Vec<Value>) -> (r: Option<(i32, i32, i32)>)
    ensures
        r == three_numbers(views(arguments@)),
{
    if arguments.len() == 3 {
        assert(views(arguments@)[0] == arguments@[0]@);
        assert(views(arguments@)[1] == arguments@[1]@);
        assert(views(arguments@)[2] == arguments@[2]@);
        if let (Value::I32(a), Value::I32(b), Value::I32(c)) = (
            &arguments[0],
            &arguments[1],
            &arguments[2],
        ) {
            return Some((*a, *b, *c));
        }
    }
    None
}

/// What a function of one tensor does: `computed` says what it may be called
/// on, and `p` what it gives.
pub open spec fn unary_done(
    before: TensorsView,
    after: TensorsView,
    arguments: Seq<ValueView>,
    r: Result<Value, Error>,
    p: spec_fn(Items, Items) -> bool,
) -> bool {
    match one_number(arguments) {
        None => refused(before, after, r, misused("expects i32"@)),
        Some(id) => match lookup(before, id) {
            Err(e) => refused(before, after, r, e),
            Ok(t) => settled(before, after, r, |x: Items| p(contents(t), x)),
        },
    }
}

/// What a function of two tensors does.
pub open spec fn binary_done(
    before: TensorsView,
    after: TensorsView,
    arguments: Seq<ValueView>,
    r: Result<Value, Error>,
    p: spec_fn(Items, Items, Items) -> bool,
) -> bool {
    match two_numbers(arguments) {
        None => refused(before, after, r, misused("expects (i32, i32)"@)),
        Some((a, b)) => match lookup(before, a) {
            Err(e) => refused(before, after, r, e),
            Ok(left) => match lookup(before, b) {
                Err(e) => refused(before, after, r, e),
                Ok(right) => settled(
                    before,
                    after,
                    r,
                    |x: Items| p(contents(left), contents(right), x),
                ),
            },
        },
    }
}

/// The tensors of the two numbers that a function is called on, where there
/// are two.
pub open spec fn pair_of(v: TensorsView, arguments: Seq<ValueView>) -> Option<(Items, Items)> {
    match two_numbers(arguments) {
        None => None,
        Some((a, b)) => if v.held.contains_key(a) && v.held.contains_key(b) {
            Some((contents(v.held[a]), contents(v.held[b])))
        } else {
            None
        },
    }
}

/// The number of items of a shape that can be counted.
pub(crate) fn counted(dims: &Vec<usize>) -> (r: Option<usize>)
    ensures
        r is Some <==> countable(dims@),
        r matches Some(n) ==> n == volume(dims@, 0),
{
    let most: usize = isize::MAX as usize / 8;
    let mut product: usize = 1;
    let mut count: usize = 1;
    let mut k: usize = dims.len();
    while k > 0
        invariant
            k <= dims@.len(),
            most == isize::MAX / 8,
            product == bulk(dims@, k as int),
            count == volume(dims@, k as int),
            count <= product <= most,
        decreases k,
    {
        k -= 1;
        proof {
            lemma_bulk(dims@, k as int);
            lemma_bulk_from(dims@, k as int);
        }
        let extent: usize = dims[k];
        let factor: usize = if extent == 0 {
            1
        } else {
            extent
        };
        assert(bulk(dims@, k as int) == factor * product);
        assert(factor * product == product * factor) by (nonlinear_arith);
        match product.checked_mul(factor) {
            Some(next) => {
                if next > most {
                    return None;
                }
                assert(0 <= extent * count <= next) by (nonlinear_arith)
                    requires
                        0 <= count <= product,
                        0 <= extent <= factor,
                        next == product * factor,
                ;
                product = next;
                count = extent * count;
            },
            None => {
                return None;
            },
        }
    }
    Some(count)
}

/// An extent, counted from the last dimension.
fn extent_of(dims: &Vec<usize>, from_last: usize) -> (r: usize)
    ensures
        r == extent(dims@, from_last as int),
{
    if from_last < dims.len() {
        dims[dims.len() - 1 - from_last]
    } else {
        1
    }
}

pub(crate) fn do_match(a: &Vec<usize>, b: &Vec<usize>) -> (r: bool)
    ensures
        r == matching(a@, b@),
{
    let mut k: usize = 0;
    while k < a.len() && k < b.len()
        invariant
            forall|j: int|
                0 <= j < k ==> (#[trigger] extent(a@, j)) == extent(b@, j) || extent(a@, j) == 1
                    || extent(b@, j) == 1,
        decreases a@.len() - k,
    {
        let x: usize = extent_of(a, k);
        let y: usize = extent_of(b, k);
        if x != y && x != 1 && y != 1 {
            assert(extent(a@, k as int) == x);
            return false;
        }
        k += 1;
    }
    true
}

pub(crate) fn widest(a: &Vec<usize>, b: &Vec<usize>) -> (r: Vec<usize>)
    ensures
        r@ == wider(a@, b@),
{
    let n: usize = if a.len() < b.len() {
        b.len()
    } else {
        a.len()
    };
    let ghost all = wider(a@, b@);
    let mut out: Vec<usize> = Vec::new();
    let mut j: usize = 0;
    while j < n
        invariant
            j <= n == all.len(),
            n == if a@.len() < b@.len() {
                b@.len()
            } else {
                a@.len()
            },
            all == wider(a@, b@),
            out@ == all.take(j as int),
        decreases n - j,
    {
        let x: usize = extent_of(a, n - 1 - j);
        out.push(
            if x == 1 {
                extent_of(b, n - 1 - j)
            } else {
                x
            },
        );
        assert(out@ =~= all.take(j + 1));
        j += 1;
    }
    assert(all.take(n as int) =~= all);
    out
}

/// A part of a list.
pub(crate) fn part(dims: &Vec<usize>, from: usize, to: usize) -> (r: Vec<usize>)
    requires
        from <= to <= dims@.len(),
    ensures
        r@ == dims@.subrange(from as int, to as int),
{
    let mut out: Vec<usize> = Vec::new();
    let mut k: usize = from;
    while k < to
        invariant
            from <= k <= to <= dims@.len(),
            out@ == dims@.subrange(from as int, k as int),
        decreases to - k,
    {
        out.push(dims[k]);
        assert(out@ =~= dims@.subrange(from as int, k + 1));
        k += 1;
    }
    out
}

fn with_two(dims: &Vec<usize>, a: usize, b: usize) -> (r: Vec<usize>)
    ensures
        r@ == dims@ + seq![a, b],
{
    let mut out = part(dims, 0, dims.len());
    out.push(a);
    out.push(b);
    assert(out@ =~= dims@ + seq![a, b]);
    out
}

/// Whether the one tensor that a function is called on can be computed on.
pub open spec fn unary_allowed(v: TensorsView, arguments: Seq<ValueView>) -> bool {
    match one_number(arguments) {
        None => true,
        Some(id) => v.held.contains_key(id) ==> computable(contents(v.held[id])),
    }
}

pub(crate) fn can_compute(t: &Tensor) -> (r: bool)
    ensures
        r == computable(contents(*t)),
{
    match counted(&tensor_dims(t)) {
        None => false,
        Some(n) => n == 0 || !tensor_kind(t).is_integer(),
    }
}

/// Whether tensors of these kinds and extents can be taken together.
pub(crate) fn shapes_pair(
    kind: Kind,
    left: &Vec<usize>,
    other: Kind,
    right: &Vec<usize>,
) -> (r: bool)
    ensures
        forall|a: Items, b: Items|
            a.kind == kind && a.dims == left@ && b.kind == other && b.dims == right@ ==> r
                == #[trigger] pairable(a, b),
{
    if !do_match(left, right) {
        return true;
    }
    match counted(&widest(left, right)) {
        None => false,
        Some(n) => n == 0 || !kind.is_integer() || kind != other,
    }
}

fn can_pair(a: &Tensor, b: &Tensor) -> (r: bool)
    ensures
        r == pairable(contents(*a), contents(*b)),
{
    shapes_pair(tensor_kind(a), &tensor_dims(a), tensor_kind(b), &tensor_dims(b))
}

/// Whether the two tensors that a function is called on can be taken together
/// item by item.
pub open spec fn sum_allowed(v: TensorsView, arguments: Seq<ValueView>) -> bool {
    match pair_of(v, arguments) {
        None => true,
        Some((a, b)) => pairable(a, b),
    }
}

/// Whether they have a product with stretching that can be counted.
pub open spec fn product_allowed(v: TensorsView, arguments: Seq<ValueView>) -> bool {
    match pair_of(v, arguments) {
        None => true,
        Some((a, b)) => products_countable(a.dims, b.dims),
    }
}

/// Whether the product of the first with the second as a column can be counted.
pub open spec fn linear_allowed(v: TensorsView, arguments: Seq<ValueView>) -> bool {
    match pair_of(v, arguments) {
        None => true,
        Some((w, x)) => x.dims.len() >= 1 ==> product_countable(w.dims, unsqueezed(x, 1).dims),
    }
}

impl Tensors {
    /// Whether `candle_silu` and `candle_softmax` can be carried out.
    pub fn may_compute(&self, arguments: &Vec<Value>) -> (r: bool)
        ensures
            r == unary_allowed(self@, views(arguments@)),
    {
        match number(arguments) {
            None => true,
            Some(id) => match self.held.get(&id) {
                Some(t) => can_compute(t),
                None => true,
            },
        }
    }

    /// Whether `candle_add_id` and `candle_mul_id` can be carried out.
    pub fn may_add(&self, arguments: &Vec<Value>) -> (r: bool)
        ensures
            r == sum_allowed(self@, views(arguments@)),
    {
        match numbers(arguments) {
            None => true,
            Some((a, b)) => match (self.held.get(&a), self.held.get(&b)) {
                (Some(x), Some(y)) => can_pair(x, y),
                _ => true,
            },
        }
    }

    /// Whether `candle_matmul_id` can be carried out.
    pub fn may_multiply(&self, arguments: &Vec<Value>) -> (r: bool)
        ensures
            r == product_allowed(self@, views(arguments@)),
    {
        match numbers(arguments) {
            None => true,
            Some((a, b)) => match (self.held.get(&a), self.held.get(&b)) {
                (Some(x), Some(y)) => products_can_be_counted(&tensor_dims(x), &tensor_dims(y)),
                _ => true,
            },
        }
    }

    /// Whether `candle_linear_id` can be carried out.
    pub fn may_apply(&self, arguments: &Vec<Value>) -> (r: bool)
        ensures
            r == linear_allowed(self@, views(arguments@)),
    {
        match numbers(arguments) {
            None => true,
            Some((a, b)) => match (self.held.get(&a), self.held.get(&b)) {
                (Some(w), Some(x)) => {
                    let dims = tensor_dims(x);
                    if dims.len() >= 1 {
                        let mut column = part(&dims, 0, dims.len());
                        column.insert(1, 1);
                        assert(column@ =~= dims@.insert(1, 1));
                        product_can_be_counted(&tensor_dims(w), &column)
                    } else {
                        true
                    }
                },
                _ => true,
            },
        }
    }
}

pub(crate) fn product_can_be_counted(a: &Vec<usize>, b: &Vec<usize>) -> (r: bool)
    ensures
        r == product_countable(a@, b@),
{
    if counted(a).is_none() || counted(b).is_none() {
        return false;
    }
    let n: usize = a.len();
    if n != b.len() || n < 2 {
        return true;
    }
    let dims = with_two(&part(a, 0, n - 2), a[n - 2], b[n - 1]);
    assert(a@.subrange(0, n - 2) =~= a@.take(n - 2));
    assert(dims@ =~= product_dims(a@.take(n - 2), a@, b@));
    counted(&dims).is_some()
}

fn products_can_be_counted(a: &Vec<usize>, b: &Vec<usize>) -> (r: bool)
    ensures
        r == products_countable(a@, b@),
{
    let n: usize = a.len();
    let m: usize = b.len();
    if n < 2 || m < 2 || a[n - 1] != b[m - 2] {
        return true;
    }
    let left = part(a, 0, n - 2);
    let right = part(b, 0, m - 2);
    assert(left@ =~= a@.take(n - 2));
    assert(right@ =~= b@.take(m - 2));
    if !do_match(&left, &right) {
        return true;
    }
    let leading = widest(&left, &right);
    let product = with_two(&leading, a[n - 2], b[m - 1]);
    let first = with_two(&leading, a[n - 2], a[n - 1]);
    let second = with_two(&leading, b[m - 2], b[m - 1]);
    assert(product@ =~= product_dims(leading_dims(a@, b@), a@, b@));
    assert(first@ =~= leading_dims(a@, b@) + a@.skip(n - 2));
    assert(second@ =~= leading_dims(a@, b@) + b@.skip(m - 2));
    counted(&product).is_some() && counted(&first).is_some() && counted(&second).is_some()
}

/// The items of a tensor times their sigmoids.
pub fn candle_silu(tensors: &mut Tensors, arguments: &Vec<Value>) -> (r: Result<Value, Error>)
    requires
        old(tensors).next < i32::MAX,
        unary_allowed(old(tensors)@, views(arguments@)),
    ensures
        unary_done(
            old(tensors)@,
            final(tensors)@,
            views(arguments@),
            r,
            |i: Items, x: Items| silu_gives(i, x) && x.kind == i.kind && x.dims == i.dims,
        ),
{
    let id: i32 = match number(arguments) {
        Some(id) => id,
        None => {
            return Err(runtime_error("expects i32"));
        },
    };
    let outcome = silu(tensors.get_tensor(id)?);
    tensors.keep(outcome)
}

/// The shares of the items of a tensor along its last dimension.
pub fn candle_softmax(tensors: &mut Tensors, arguments: &Vec<Value>) -> (r: Result<Value, Error>)
    requires
        old(tensors).next < i32::MAX,
        unary_allowed(old(tensors)@, views(arguments@)),
    ensures
        unary_done(
            old(tensors)@,
            final(tensors)@,
            views(arguments@),
            r,
            |i: Items, x: Items|
                i.dims.len() > 0 && softmax_gives(i, i.dims.len() - 1, x) && x.kind == i.kind
                    && x.dims == i.dims,
        ),
{
    let id: i32 = match number(arguments) {
        Some(id) => id,
        None => {
            return Err(runtime_error("expects i32"));
        },
    };
    let outcome = match pack(tensors.get_tensor(id)?) {
        Ok(t) => softmax_last(&t),
        Err(text) => Err(text),
    };
    tensors.keep(outcome)
}

/// The sum of two tensors, item by item.
pub fn candle_add_id(tensors: &mut Tensors, arguments: &Vec<Value>) -> (r: Result<Value, Error>)
    requires
        old(tensors).next < i32::MAX,
        sum_allowed(old(tensors)@, views(arguments@)),
    ensures
        binary_done(
            old(tensors)@,
            final(tensors)@,
            views(arguments@),
            r,
            |a: Items, b: Items, x: Items| matching(a.dims, b.dims) && sum_gives(a, b, x) && x.kind
                == a.kind && x.dims == wider(a.dims, b.dims),
        ),
{
    let (a, b) = match numbers(arguments) {
        Some(found) => found,
        None => {
            return Err(runtime_error("expects (i32, i32)"));
        },
    };
    let outcome = add_items(tensors.get_tensor(a)?, tensors.get_tensor(b)?);
    tensors.keep(outcome)
}

/// The product of two tensors, item by item.
pub fn candle_mul_id(tensors: &mut Tensors, arguments: &Vec<Value>) -> (r: Result<Value, Error>)
    requires
        old(tensors).next < i32::MAX,
        sum_allowed(old(tensors)@, views(arguments@)),
    ensures
        binary_done(
            old(tensors)@,
            final(tensors)@,
            views(arguments@),
            r,
            |a: Items, b: Items, x: Items| matching(a.dims, b.dims) && multiple_gives(a, b, x)
                && x.kind == a.kind && x.dims == wider(a.dims, b.dims),
        ),
{
    let (a, b) = match numbers(arguments) {
        Some(found) => found,
        None => {
            return Err(runtime_error("expects (i32, i32)"));
        },
    };
    let outcome = multiply_items(tensors.get_tensor(a)?, tensors.get_tensor(b)?);
    tensors.keep(outcome)
}

/// The product of the matrices of two tensors.
pub fn candle_matmul_id(tensors: &mut Tensors, arguments: &Vec<Value>) -> (r: Result<Value, Error>)
    requires
        old(tensors).next < i32::MAX,
        product_allowed(old(tensors)@, views(arguments@)),
    ensures
        binary_done(
            old(tensors)@,
            final(tensors)@,
            views(arguments@),
            r,
            |a: Items, b: Items, x: Items| products_match(a.dims, b.dims)
                && stretched_product_gives(a, b, x) && x.kind == a.kind && x.dims == product_dims(
                leading_dims(a.dims, b.dims),
                a.dims,
                b.dims,
            ),
        ),
{
    let (a, b) = match numbers(arguments) {
        Some(found) => found,
        None => {
            return Err(runtime_error("expects (i32, i32)"));
        },
    };
    let outcome = multiply_stretched(tensors.get_tensor(a)?, tensors.get_tensor(b)?);
    tensors.keep(outcome)
}

/// What a matrix makes of a vector: the product with the vector as a column, as
/// a vector again.
pub open spec fn applied(w: Items, x: Items, y: Items) -> bool {
    &&& x.dims.len() >= 1
    &&& w.dims.len() == x.dims.len() + 1
    &&& exists|product: Items| #[trigger]
        product_gives(w, unsqueezed(x, 1), product) && product.kind == w.kind && product.dims
            == product_dims(w.dims.take(w.dims.len() - 2), w.dims, unsqueezed(x, 1).dims)
            && product.dims.len() >= 2 && y == squeezed(product, 1)
}

/// The product of a matrix and a vector.
pub(crate) fn apply_matrix(w: &Tensor, x: &Tensor) -> (r: Result<Tensor, String>)
    requires
        dims_of(*x).len() >= 1 ==> product_countable(
            dims_of(*w),
            unsqueezed(contents(*x), 1).dims,
        ),
    ensures
        r matches Ok(y) ==> applied(contents(*w), contents(*x), contents(y)),
{
    let column = unsqueeze(x, 1)?;
    let product = multiply(w, &column)?;
    assert(product_gives(contents(*w), unsqueezed(contents(*x), 1), contents(product)));
    squeeze(&product, 1)
}

/// The product of a matrix and a vector, by their numbers.
pub fn candle_linear_id(tensors: &mut Tensors, arguments: &Vec<Value>) -> (r: Result<Value, Error>)
    requires
        old(tensors).next < i32::MAX,
        linear_allowed(old(tensors)@, views(arguments@)),
    ensures
        binary_done(
            old(tensors)@,
            final(tensors)@,
            views(arguments@),
            r,
            |w: Items, x: Items, y: Items| applied(w, x, y),
        ),
{
    let (a, b) = match numbers(arguments) {
        Some(found) => found,
        None => {
            return Err(runtime_error("expects (i32, i32)"));
        },
    };
    let outcome = apply_matrix(tensors.get_tensor(a)?, tensors.get_tensor(b)?);
    tensors.keep(outcome)
}

/// Whether `candle_embedding` can be carried out: it needs two dimensions.
pub open spec fn embedding_allowed(v: TensorsView, arguments: Seq<ValueView>) -> bool {
    match two_numbers(arguments) {
        None => true,
        Some((id, token)) => v.held.contains_key(id) && dims_of(v.held[id]).len() == 1
            ==> (token as usize) >= dims_of(v.held[id])[0],
    }
}

/// The row of a token in a table of weights.
pub fn candle_embedding(tensors: &mut Tensors, arguments: &Vec<Value>) -> (r: Result<Value, Error>)
    requires
        old(tensors).next < i32::MAX,
        embedding_allowed(old(tensors)@, views(arguments@)),
    ensures
        match two_numbers(views(arguments@)) {
            None => refused(
                old(tensors)@,
                final(tensors)@,
                r,
                misused("expects (i32, i32)"@),
            ),
            Some((id, token)) => match lookup(old(tensors)@, id) {
                Err(e) => refused(old(tensors)@, final(tensors)@, r, e),
                Ok(t) => {
                    &&& r is Ok <==> has_row(dims_of(t), token as usize)
                    &&& settled(
                        old(tensors)@,
                        final(tensors)@,
                        r,
                        |x: Items| x == row_of(contents(t), (token as usize) as int),
                    )
                },
            },
        },
{
    let (id, token) = match numbers(arguments) {
        Some(found) => found,
        None => {
            return Err(runtime_error("expects (i32, i32)"));
        },
    };
    let outcome = select_row(tensors.get_tensor(id)?, token as usize);
    tensors.keep(outcome)
}

/// Whether `candle_softmax_dim_id` can be carried out.
pub open spec fn softmax_dim_allowed(v: TensorsView, arguments: Seq<ValueView>) -> bool {
    match two_numbers(arguments) {
        None => true,
        Some((id, _)) => v.held.contains_key(id) ==> computable(contents(v.held[id])),
    }
}

/// The shares of the items of a tensor along a dimension.
pub fn candle_softmax_dim_id(
    tensors: &mut Tensors,
    arguments: &Vec<Value>,
) -> (r: Result<Value, Error>)
    requires
        old(tensors).next < i32::MAX,
        softmax_dim_allowed(old(tensors)@, views(arguments@)),
    ensures
        match two_numbers(views(arguments@)) {
            None => refused(
                old(tensors)@,
                final(tensors)@,
                r,
                misused("expects (i32, i32)"@),
            ),
            Some((id, dim)) => match lookup(old(tensors)@, id) {
                Err(e) => refused(old(tensors)@, final(tensors)@, r, e),
                Ok(t) => settled(
                    old(tensors)@,
                    final(tensors)@,
                    r,
                    |x: Items| (dim as usize) < dims_of(t).len() && softmax_gives(
                        contents(t),
                        (dim as usize) as int,
                        x,
                    ) && x.kind == kind_of(t) && x.dims == dims_of(t),
                ),
            },
        },
{
    let (id, dim) = match numbers(arguments) {
        Some(found) => found,
        None => {
            return Err(runtime_error("expects (i32, i32)"));
        },
    };
    let outcome = match pack(tensors.get_tensor(id)?) {
        Ok(t) => softmax(&t, dim as usize),
        Err(text) => Err(text),
    };
    tensors.keep(outcome)
}

/// A tensor with two dimensions swapped.
pub fn candle_transpose_id(
    tensors: &mut Tensors,
    arguments: &Vec<Value>,
) -> (r: Result<Value, Error>)
    requires
        old(tensors).next < i32::MAX,
    ensures
        match three_numbers(views(arguments@)) {
            None => refused(
                old(tensors)@,
                final(tensors)@,
                r,
                misused("expects (i32, i32, i32)"@),
            ),
            Some((id, a, b)) => match lookup(old(tensors)@, id) {
                Err(e) => refused(old(tensors)@, final(tensors)@, r, e),
                Ok(t) => {
                    &&& r is Ok <==> has_both(dims_of(t), a as usize, b as usize)
                    &&& settled(
                        old(tensors)@,
                        final(tensors)@,
                        r,
                        |x: Items| transposes(
                            contents(t),
                            (a as usize) as int,
                            (b as usize) as int,
                            x,
                        ),
                    )
                },
            },
        },
{
    let (id, a, b) = match triple(arguments) {
        Some(found) => found,
        None => {
            return Err(runtime_error("expects (i32, i32, i32)"));
        },
    };
    let outcome = transpose(tensors.get_tensor(id)?, a as usize, b as usize);
    tensors.keep(outcome)
}

/// Whether two tensors put one after the other can be counted.
pub open spec fn join_countable(a: Seq<usize>, b: Seq<usize>, dim: usize) -> bool {
    &&& countable(a)
    &&& countable(b)
    &&& a.len() == b.len() && dim < a.len() ==> a[dim as int] + b[dim as int] <= usize::MAX
        && countable(a.update(dim as int, (a[dim as int] + b[dim as int]) as usize))
}

/// Whether `candle_cat_id` can be carried out.
pub open spec fn cat_allowed(v: TensorsView, arguments: Seq<ValueView>) -> bool {
    match three_numbers(arguments) {
        None => true,
        Some((a, b, dim)) => v.held.contains_key(a) && v.held.contains_key(b) ==> join_countable(
            dims_of(v.held[a]),
            dims_of(v.held[b]),
            dim as usize,
        ),
    }
}

/// Two tensors one after the other along a dimension.
pub fn candle_cat_id(tensors: &mut Tensors, arguments: &Vec<Value>) -> (r: Result<Value, Error>)
    requires
        old(tensors).next < i32::MAX,
        cat_allowed(old(tensors)@, views(arguments@)),
    ensures
        match three_numbers(views(arguments@)) {
            None => refused(
                old(tensors)@,
                final(tensors)@,
                r,
                misused("expects (i32, i32, i32)"@),
            ),
            Some((a, b, dim)) => match lookup(old(tensors)@, a) {
                Err(e) => refused(old(tensors)@, final(tensors)@, r, e),
                Ok(left) => match lookup(old(tensors)@, b) {
                    Err(e) => refused(old(tensors)@, final(tensors)@, r, e),
                    Ok(right) => settled(
                        old(tensors)@,
                        final(tensors)@,
                        r,
                        |x: Items| joins(
                            contents(left),
                            contents(right),
                            (dim as usize) as int,
                            x,
                        ),
                    ),
                },
            },
        },
{
    let (a, b, dim) = match triple(arguments) {
        Some(found) => found,
        None => {
            return Err(runtime_error("expects (i32, i32, i32)"));
        },
    };
    let outcome = join(tensors.get_tensor(a)?, tensors.get_tensor(b)?, dim as usize);
    tensors.keep(outcome)
}

/// Forgets a tensor.
pub fn candle_free_tensor(
    tensors: &mut Tensors,
    arguments: &Vec<Value>,
) -> (r: Result<Value, Error>)
    ensures
        match one_number(views(arguments@)) {
            None => refused(old(tensors)@, final(tensors)@, r, misused("expects i32"@)),
            Some(id) => {
                &&& r is Ok
                &&& r->Ok_0@ == ValueView::Bool(true)
                &&& final(tensors)@ == (TensorsView {
                    held: old(tensors)@.held.remove(id),
                    ..old(tensors)@
                })
            },
        },
{
    match number(arguments) {
        Some(id) => {
            let _freed: Option<Tensor> = tensors.held.remove(&id);
            assert(tensors.held@ =~= old(tensors)@.held.remove(id));
            Ok(Value::Bool(true))
        },
        None => Err(runtime_error("expects i32")),
    }
}

/// The tensor and the extents that `candle_reshape_id` is called on.
pub open spec fn reshape_call(
    v: TensorsView,
    h: HeapView,
    arguments: Seq<ValueView>,
) -> Result<(i32, Seq<ValueView>), ErrorView> {
    if arguments.len() == 2 {
        match (arguments[0], arguments[1]) {
            (ValueView::I32(id), ValueView::Array(r, _)) => match lookup(v, id) {
                Err(e) => Err(e),
                Ok(_) => match array_items(
                    h,
                    r,
                    TypeView::F32,
                    ErrorView::Type("expected vector<f32>"@),
                ) {
                    Err(e) => Err(e),
                    Ok(extents) => Ok((id, extents)),
                },
            },
            _ => Err(misused("expects (i32, dArray)"@)),
        }
    } else {
        Err(misused("expects (i32, dArray)"@))
    }
}

/// The tensor that `candle_reshape_id` is called on, and the extents, as bit
/// patterns of floats.
pub fn reshape_call_of(
    tensors: &Tensors,
    arguments: &Vec<Value>,
    heap: &Heap,
) -> (r: Result<(i32, Vec<Value>), Error>)
    ensures
        match r {
            Ok((id, extents)) => reshape_call(tensors@, heap@, views(arguments@)) == Ok::<
                (i32, Seq<ValueView>),
                ErrorView,
            >((id, views(extents@))),
            Err(e) => reshape_call(tensors@, heap@, views(arguments@)) == Err::<
                (i32, Seq<ValueView>),
                ErrorView,
            >(e@),
        },
{
    if arguments.len() == 2 {
        assert(views(arguments@)[0] == arguments@[0]@);
        assert(views(arguments@)[1] == arguments@[1]@);
        if let (Value::I32(id), Value::Array(reference, _)) = (&arguments[0], &arguments[1]) {
            let _held: &Tensor = tensors.get_tensor(*id)?;
            let extents = get_array_items(
                heap,
                *reference,
                &Type::F32,
                type_error("expected vector<f32>"),
            )?;
            return Ok((*id, extents));
        }
    }
    Err(runtime_error("expects (i32, dArray)"))
}

/// A tensor with other extents: `candle_reshape_id`.
pub fn candle_reshape_id(
    tensors: &mut Tensors,
    id: i32,
    dims: &Vec<usize>,
) -> (r: Result<Value, Error>)
    requires
        old(tensors).next < i32::MAX,
        countable(dims@),
        old(tensors)@.held.contains_key(id) ==> countable(dims_of(old(tensors)@.held[id])),
    ensures
        match lookup(old(tensors)@, id) {
            Err(e) => refused(old(tensors)@, final(tensors)@, r, e),
            Ok(t) => settled(
                old(tensors)@,
                final(tensors)@,
                r,
                |x: Items| volume(dims@, 0) == volume(dims_of(t), 0) && x == reshaped(
                    contents(t),
                    dims@,
                ),
            ),
        },
{
    let outcome = reshape(tensors.get_tensor(id)?, dims);
    tensors.keep(outcome)
}

/// With a dimension of `n` after the second.
pub open spec fn repeated_dims(dims: Seq<usize>, n: usize) -> Seq<usize> {
    dims.insert(2, n)
}

/// With the second dimension `n` times as long.
pub open spec fn merged_dims(dims: Seq<usize>, n: usize) -> Seq<usize> {
    dims.update(1, (dims[1] * n) as usize)
}

/// Every head of a tensor `n` times, one after the other.
pub open spec fn repeats(i: Items, n: usize, x: Items) -> bool {
    &&& i.dims.len() == 3 || i.dims.len() == 4
    &&& exists|wide: Items| #[trigger]
        stretches(unsqueezed(i, 2), repeated_dims(i.dims, n), wide) && x == reshaped(
            wide,
            merged_dims(i.dims, n),
        )
}

/// Whether the heads of a tensor can be repeated: the items can be counted.
pub open spec fn repeat_countable(dims: Seq<usize>, n: usize) -> bool {
    dims.len() == 3 || dims.len() == 4 ==> {
        &&& dims[1] * n <= usize::MAX
        &&& countable(repeated_dims(dims, n))
        &&& countable(merged_dims(dims, n))
    }
}

/// Whether `candle_repeat_kv_id` can be carried out.
pub open spec fn repeat_allowed(v: TensorsView, arguments: Seq<ValueView>) -> bool {
    match two_numbers(arguments) {
        None => true,
        Some((id, n)) => v.held.contains_key(id) ==> repeat_countable(
            dims_of(v.held[id]),
            n as usize,
        ),
    }
}

fn repeat_heads(t: &Tensor, dims: &Vec<usize>, n: usize) -> (r: Result<Tensor, String>)
    requires
        dims@ == dims_of(*t),
        dims@.len() == 3 || dims@.len() == 4,
        repeat_countable(dims@, n),
    ensures
        r matches Ok(x) ==> repeats(contents(*t), n, contents(x)),
{
    let mut wide_dims = part(dims, 0, dims.len());
    wide_dims.insert(2, n);
    let mut merged = part(dims, 0, dims.len());
    assert(merged@ =~= dims@);
    merged.set(1, dims[1] * n);
    assert(wide_dims@ =~= repeated_dims(dims@, n));
    assert(merged@ =~= merged_dims(dims@, n));
    let open = unsqueeze(t, 2)?;
    let wide = stretch(&open, &wide_dims)?;
    assert(stretches(unsqueezed(contents(*t), 2), repeated_dims(dims@, n), contents(wide)));
    reshape(&wide, &merged)
}

/// Every head of a tensor several times: the second dimension of three or four.
pub fn candle_repeat_kv_id(
    tensors: &mut Tensors,
    arguments: &Vec<Value>,
) -> (r: Result<Value, Error>)
    requires
        old(tensors).next < i32::MAX,
        repeat_allowed(old(tensors)@, views(arguments@)),
    ensures
        match two_numbers(views(arguments@)) {
            None => refused(
                old(tensors)@,
                final(tensors)@,
                r,
                misused("expects (i32, i32)"@),
            ),
            Some((id, n)) => match lookup(old(tensors)@, id) {
                Err(e) => refused(old(tensors)@, final(tensors)@, r, e),
                Ok(t) => if dims_of(t).len() == 3 || dims_of(t).len() == 4 {
                    settled(
                        old(tensors)@,
                        final(tensors)@,
                        r,
                        |x: Items| repeats(contents(t), n as usize, x),
                    )
                } else {
                    refused(
                        old(tensors)@,
                        final(tensors)@,
                        r,
                        misused("repeat_kv expects 3D or 4D tensor"@),
                    )
                },
            },
        },
{
    let (id, n) = match numbers(arguments) {
        Some(found) => found,
        None => {
            return Err(runtime_error("expects (i32, i32)"));
        },
    };
    let t = tensors.get_tensor(id)?;
    let dims = tensor_dims(t);
    if dims.len() != 3 && dims.len() != 4 {
        return Err(runtime_error("repeat_kv expects 3D or 4D tensor"));
    }
    let outcome = repeat_heads(t, &dims, n as usize);
    tensors.keep(outcome)
}

/// That a token is the position of the greatest item, as the candle crate
/// found it.
pub open spec fn best_token(i: Items, token: i32) -> bool {
    exists|f: Items, g: Items|
        #![trigger floats_gives(i, f), greatest_gives(reshaped(f, seq![volume(i.dims, 0) as usize]), g)]
        floats_gives(i, f) && (i.kind == Kind::F32 ==> f == i) && greatest_gives(
            reshaped(f, seq![volume(i.dims, 0) as usize]),
            g,
        ) && token == (le_value(g.bytes) as u32) as i32
}

fn best_of(t: &Tensor) -> (r: Result<i32, String>)
    requires
        countable(dims_of(*t)),
    ensures
        r matches Ok(token) ==> best_token(contents(*t), token),
{
    let near = on_processor(t)?;
    let scores = floats(&near)?;
    let flat = flatten(&scores)?;
    let ghost n = volume(dims_of(*t), 0) as usize;
    proof {
        lemma_countable(dims_of(*t));
    }
    let flat = pack(&flat)?;
    let best = greatest(&flat)?;
    let token: u32 = single(&best)?;
    assert(floats_gives(contents(*t), contents(scores)));
    assert(greatest_gives(reshaped(contents(scores), seq![n]), contents(best)));
    Ok(token as i32)
}

/// Whether `candle_argmax_token` can be carried out.
pub open spec fn argmax_allowed(v: TensorsView, arguments: Seq<ValueView>) -> bool {
    match one_number(arguments) {
        None => true,
        Some(id) => v.held.contains_key(id) ==> countable(dims_of(v.held[id])),
    }
}

/// The position of the greatest item of a tensor.
pub fn candle_argmax_token(tensors: &Tensors, arguments: &Vec<Value>) -> (r: Result<Value, Error>)
    requires
        argmax_allowed(tensors@, views(arguments@)),
    ensures
        match one_number(views(arguments@)) {
            None => r is Err && r->Err_0@ == misused(
                "candle_argmax_token expects 1 i32 (tensor ID)"@,
            ),
            Some(id) => match lookup(tensors@, id) {
                Err(e) => r is Err && r->Err_0@ == e,
                Ok(t) => match r {
                    Err(e) => e@ is Runtime,
                    Ok(v) => v@ is I32 && best_token(contents(t), v@->I32_0),
                },
            },
        },
{
    let id: i32 = match number(arguments) {
        Some(id) => id,
        None => {
            return Err(runtime_error("candle_argmax_token expects 1 i32 (tensor ID)"));
        },
    };
    match best_of(tensors.get_tensor(id)?) {
        Ok(token) => Ok(Value::I32(token)),
        Err(text) => Err(Error::Runtime(text)),
    }
}

/// Whether the items of a shape can be counted.
pub fn can_be_counted(dims: &Vec<usize>) -> (r: bool)
    ensures
        r == countable(dims@),
{
    counted(dims).is_some()
}

impl Tensors {
    /// Whether `candle_embedding` can be carried out.
    pub fn may_select(&self, arguments: &Vec<Value>) -> (r: bool)
        ensures
            r == embedding_allowed(self@, views(arguments@)),
    {
        match numbers(arguments) {
            None => true,
            Some((id, token)) => match self.held.get(&id) {
                Some(t) => {
                    let dims = tensor_dims(t);
                    dims.len() != 1 || token as usize >= dims[0]
                },
                None => true,
            },
        }
    }

    /// Whether `candle_softmax_dim_id` can be carried out.
    pub fn may_share(&self, arguments: &Vec<Value>) -> (r: bool)
        ensures
            r == softmax_dim_allowed(self@, views(arguments@)),
    {
        match numbers(arguments) {
            None => true,
            Some((id, _)) => match self.held.get(&id) {
                Some(t) => can_compute(t),
                None => true,
            },
        }
    }

    /// Whether `candle_cat_id` can be carried out.
    pub fn may_join(&self, arguments: &Vec<Value>) -> (r: bool)
        ensures
            r == cat_allowed(self@, views(arguments@)),
    {
        match triple(arguments) {
            None => true,
            Some((a, b, dim)) => match (self.held.get(&a), self.held.get(&b)) {
                (Some(x), Some(y)) => {
                    let left = tensor_dims(x);
                    let right = tensor_dims(y);
                    let at: usize = dim as usize;
                    if counted(&left).is_none() || counted(&right).is_none() {
                        return false;
                    }
                    if left.len() != right.len() || at >= left.len() {
                        return true;
                    }
                    match left[at].checked_add(right[at]) {
                        None => false,
                        Some(sum) => {
                            let mut joined = part(&left, 0, left.len());
                            assert(joined@ =~= left@);
                            joined.set(at, sum);
                            counted(&joined).is_some()
                        },
                    }
                },
                _ => true,
            },
        }
    }

    /// Whether `candle_repeat_kv_id` can be carried out.
    pub fn may_repeat(&self, arguments: &Vec<Value>) -> (r: bool)
        ensures
            r == repeat_allowed(self@, views(arguments@)),
    {
        match numbers(arguments) {
            None => true,
            Some((id, n)) => match self.held.get(&id) {
                Some(t) => {
                    let dims = tensor_dims(t);
                    if dims.len() != 3 && dims.len() != 4 {
                        return true;
                    }
                    match dims[1].checked_mul(n as usize) {
                        None => false,
                        Some(heads) => {
                            let mut wide = part(&dims, 0, dims.len());
                            wide.insert(2, n as usize);
                            let mut merged = part(&dims, 0, dims.len());
                            assert(merged@ =~= dims@);
                            merged.set(1, heads);
                            assert(wide@ =~= repeated_dims(dims@, n as usize));
                            assert(merged@ =~= merged_dims(dims@, n as usize));
                            counted(&wide).is_some() && counted(&merged).is_some()
                        },
                    }
                },
                None => true,
            },
        }
    }

    /// Whether `candle_argmax_token` and `candle_get_darray` can be carried out.
    pub fn may_count(&self, arguments: &Vec<Value>) -> (r: bool)
        ensures
            r == argmax_allowed(self@, views(arguments@)),
    {
        match number(arguments) {
            None => true,
            Some(id) => match self.held.get(&id) {
                Some(t) => counted(&tensor_dims(t)).is_some(),
                None => true,
            },
        }
    }
}

/// A tensor is found under the number that it was given, and every other one
/// under its own.
pub proof fn held_tensors_are_found(v: TensorsView, t: Tensor, other: i32)
    requires
        other != v.next,
    ensures
        lookup(with_tensor(v, t), v.next) == Ok::<Tensor, ErrorView>(t),
        lookup(with_tensor(v, t), other) == lookup(v, other),
{
}

} // verus!
