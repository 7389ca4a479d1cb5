//! Choosing the next token of a text from the scores of all tokens.
use vstd::prelude::*;
use candle_core::Tensor;
use crate::candle::{Tensors, TensorsView, can_be_counted, lookup};
use crate::heap::Heap;
use crate::host::{get_tensor_items, item_of, misused, tensor_items};
use crate::scalar::{cell_at, decode_scalar, le_value};
use crate::semantics::{HeapView, next_random, volume};
use crate::tensors::{
    Items, Kind, contents, countable, dims_of, flatten, floats, floats_gives, item_bytes,
    lemma_countable, on_processor, tensor_dims,
};
use crate::types::{Error, ErrorView, Type, TypeView, runtime_error, scalar_size_of, type_error};
use crate::value::{Value, ValueView};
use crate::views::{group_views, views};

verus! {

broadcast use {group_views, vstd::std_specs::hash::group_hash_axioms};

/// Whether a bit pattern of 32 bits stands for no number.
pub open spec fn is_nan(bits: u32) -> bool {
    bits as int % 0x8000_0000 > 0x7f80_0000
}

/// The place of a float among the floats, from its bit pattern. The two zeros
/// have the same place.
pub open spec fn place(bits: u32) -> int {
    if bits < 0x8000_0000 {
        bits as int
    } else {
        0x8000_0000 - bits
    }
}

/// Whether a float is less than another, from their bit patterns.
pub open spec fn less(a: u32, b: u32) -> bool {
    !is_nan(a) && !is_nan(b) && place(a) < place(b)
}

/// Whether a float is less than another.
pub fn is_less(a: u32, b: u32) -> (r: bool)
    ensures
        r == less(a, b),
{
    let numbers: bool = a % 0x8000_0000 <= 0x7f80_0000 && b % 0x8000_0000 <= 0x7f80_0000;
    let left: i64 = if a < 0x8000_0000 {
        a as i64
    } else {
        0x8000_0000 - (a as i64)
    };
    let right: i64 = if b < 0x8000_0000 {
        b as i64
    } else {
        0x8000_0000 - (b as i64)
    };
    numbers && left < right
}

/// Whether a bit pattern of 64 bits stands for no number.
pub open spec fn is_nan_double(bits: u64) -> bool {
    bits as int % 0x8000_0000_0000_0000 > 0x7ff0_0000_0000_0000
}

pub open spec fn place_double(bits: u64) -> int {
    if bits < 0x8000_0000_0000_0000 {
        bits as int
    } else {
        0x8000_0000_0000_0000 - bits
    }
}

/// Whether a double is less than another, from their bit patterns.
pub open spec fn less_double(a: u64, b: u64) -> bool {
    !is_nan_double(a) && !is_nan_double(b) && place_double(a) < place_double(b)
}

fn is_less_double(a: u64, b: u64) -> (r: bool)
    ensures
        r == less_double(a, b),
{
    let numbers: bool = a % 0x8000_0000_0000_0000 <= 0x7ff0_0000_0000_0000 && b
        % 0x8000_0000_0000_0000 <= 0x7ff0_0000_0000_0000;
    let left: i128 = if a < 0x8000_0000_0000_0000 {
        a as i128
    } else {
        0x8000_0000_0000_0000 - (a as i128)
    };
    let right: i128 = if b < 0x8000_0000_0000_0000 {
        b as i128
    } else {
        0x8000_0000_0000_0000 - (b as i128)
    };
    numbers && left < right
}

/// The bit patterns of one and of minus infinity.
pub const ONE: u32 = 0x3f80_0000;

pub const LEAST: u32 = 0xff80_0000;

/// What a token is chosen by: the tensor of scores, how freely to choose, the
/// tokens so far, how many of them count, and how much they are held back.
pub struct Sampling {
    pub scores: i32,
    pub temperature: u32,
    pub context: Vec<i32>,
    pub length: usize,
    pub penalty: u32,
}

/// The mathematical model of a [`Sampling`].
pub struct SamplingView {
    pub scores: i32,
    pub temperature: u32,
    pub context: Seq<i32>,
    pub length: usize,
    pub penalty: u32,
}

impl View for Sampling {
    type V = SamplingView;

    open spec fn view(&self) -> SamplingView {
        SamplingView {
            scores: self.scores,
            temperature: self.temperature,
            context: self.context@,
            length: self.length,
            penalty: self.penalty,
        }
    }
}

/// The numbers of a list of 32-bit integers.
pub open spec fn numbers(values: Seq<ValueView>) -> Seq<i32> {
    Seq::new(values.len(), |k: int| values[k]->I32_0)
}

/// What `candle_sample_token` is called on.
pub open spec fn sampling(h: HeapView, arguments: Seq<ValueView>) -> Result<SamplingView, ErrorView> {
    let message = "candle_sample_token expects (i32, f32, dTensor, i32, f32)"@;
    if arguments.len() == 5 {
        match (arguments[0], arguments[1], arguments[2], arguments[3], arguments[4]) {
            (
                ValueView::I32(scores),
                ValueView::F32(temperature),
                ValueView::Tensor(r, _),
                ValueView::I32(length),
                ValueView::F32(penalty),
            ) => match tensor_items(
                h,
                r,
                TypeView::I32,
                ErrorView::Type("expected tensor<i32>"@),
            ) {
                Err(e) => Err(e),
                Ok((values, _)) => Ok(
                    SamplingView {
                        scores,
                        temperature,
                        context: numbers(values),
                        length: length as usize,
                        penalty,
                    },
                ),
            },
            _ => Err(misused(message)),
        }
    } else {
        Err(misused(message))
    }
}

fn numbers_of(values: &Vec<Value>) -> (r: Vec<i32>)
    requires
        forall|k: int| 0 <= k < values@.len() ==> (#[trigger] values@[k]@) is I32,
    ensures
        r@ == numbers(views(values@)),
{
    let ghost all = numbers(views(values@));
    let mut out: Vec<i32> = Vec::new();
    let mut k: usize = 0;
    while k < values.len()
        invariant
            forall|k: int| 0 <= k < values@.len() ==> (#[trigger] values@[k]@) is I32,
            k <= values@.len(),
            all == numbers(views(values@)),
            out@ == all.take(k as int),
        decreases values@.len() - k,
    {
        assert(values@[k as int]@ is I32);
        if let Value::I32(n) = &values[k] {
            out.push(*n);
        }
        assert(out@ =~= all.take(k + 1));
        k += 1;
    }
    assert(all.take(all.len() as int) =~= all);
    out
}

/// What `candle_sample_token` is called on.
pub fn sample_operands(arguments: &Vec<Value>, heap: &Heap) -> (r: Result<Sampling, Error>)
    ensures
        match r {
            Ok(s) => sampling(heap@, views(arguments@)) == Ok::<SamplingView, ErrorView>(s@),
            Err(e) => sampling(heap@, views(arguments@)) == Err::<SamplingView, ErrorView>(e@),
        },
{
    if arguments.len() == 5 {
        assert(views(arguments@)[0] == arguments@[0]@);
        assert(views(arguments@)[1] == arguments@[1]@);
        assert(views(arguments@)[2] == arguments@[2]@);
        assert(views(arguments@)[3] == arguments@[3]@);
        assert(views(arguments@)[4] == arguments@[4]@);
        if let (
            Value::I32(scores),
            Value::F32(temperature),
            Value::Tensor(reference, _),
            Value::I32(length),
            Value::F32(penalty),
        ) = (&arguments[0], &arguments[1], &arguments[2], &arguments[3], &arguments[4]) {
            let (values, _shape) = get_tensor_items(
                heap,
                *reference,
                &Type::I32,
                type_error("expected tensor<i32>"),
            )?;
            proof {
                assert forall|k: int| 0 <= k < values@.len() implies (
                #[trigger] values@[k]@) is I32 by {
                    assert(item_of(values@[k]@, TypeView::I32));
                }
            }
            return Ok(
                Sampling {
                    scores: *scores,
                    temperature: *temperature,
                    context: numbers_of(&values),
                    length: *length as usize,
                    penalty: *penalty,
                },
            );
        }
    }
    Err(runtime_error("candle_sample_token expects (i32, f32, dTensor, i32, f32)"))
}

/// The bit patterns in a buffer of 32-bit floats.
pub open spec fn patterns(bytes: Seq<u8>) -> Seq<u32> {
    Seq::new(
        bytes.len() / 4,
        |k: int| le_value(bytes.subrange(4 * k, 4 * k + 4)) as u32,
    )
}

fn patterns_of(bytes: &Vec<u8>) -> (r: Vec<u32>)
    ensures
        r@ == patterns(bytes@),
{
    let ghost all = patterns(bytes@);
    let len: usize = bytes.len();
    let count: usize = len / 4;
    let mut out: Vec<u32> = Vec::new();
    let mut k: usize = 0;
    while k < count
        invariant
            k <= count,
            len == bytes@.len(),
            count == len / 4,
            all == patterns(bytes@),
            out@ == all.take(k as int),
        decreases count - k,
    {
        assert(scalar_size_of(TypeView::F32) == Ok::<usize, ErrorView>(4));
        assert(cell_at(bytes@.len() as int, k, TypeView::F32) == Ok::<int, ErrorView>(k * 4));
        if let Ok(Value::F32(bits)) = decode_scalar(bytes.as_slice(), k, &Type::F32) {
            out.push(bits);
        }
        assert(out@ =~= all.take(k + 1));
        k += 1;
    }
    assert(all.take(all.len() as int) =~= all);
    out
}

/// That scores are the items of a tensor, as the candle crate made floats of
/// 32 bits of them. Items that are such floats are taken as they are.
pub open spec fn scores_given(i: Items, scores: Seq<u32>) -> bool {
    &&& exists|f: Items| #[trigger] floats_gives(i, f) && scores == patterns(f.bytes)
    &&& i.kind == Kind::F32 ==> scores == patterns(i.bytes)
}

fn scores_in(t: &Tensor) -> (r: Result<Vec<u32>, String>)
    requires
        countable(dims_of(*t)),
    ensures
        r matches Ok(scores) ==> scores_given(contents(*t), scores@),
{
    let near = on_processor(t)?;
    let scores = floats(&near)?;
    let flat = flatten(&scores)?;
    let ghost n = volume(dims_of(*t), 0) as usize;
    proof {
        lemma_countable(dims_of(*t));
    }
    let bytes = item_bytes(&flat)?;
    assert(floats_gives(contents(*t), contents(scores)));
    Ok(patterns_of(&bytes))
}

/// Whether the scores that `candle_sample_token` chooses by can be counted.
pub open spec fn sampling_allowed(
    v: TensorsView,
    h: HeapView,
    arguments: Seq<ValueView>,
) -> bool {
    match sampling(h, arguments) {
        Err(_) => true,
        Ok(s) => v.held.contains_key(s.scores) ==> countable(dims_of(v.held[s.scores])),
    }
}

/// What `candle_sample_token` chooses by, and the scores of all tokens.
pub fn sample_scores(tensors: &Tensors, arguments: &Vec<Value>, heap: &Heap) -> (r: Result<
    (Sampling, Vec<u32>),
    Error,
>)
    requires
        sampling_allowed(tensors@, heap@, views(arguments@)),
    ensures
        match sampling(heap@, views(arguments@)) {
            Err(e) => r is Err && r->Err_0@ == e,
            Ok(s) => match lookup(tensors@, s.scores) {
                Err(e) => r is Err && r->Err_0@ == e,
                Ok(t) => match r {
                    Err(e) => e@ is Runtime,
                    Ok(found) => found.0@ == s && scores_given(contents(t), found.1@),
                },
            },
        },
{
    let sampling = sample_operands(arguments, heap)?;
    let t = tensors.get_tensor(sampling.scores)?;
    match scores_in(t) {
        Ok(scores) => Ok((sampling, scores)),
        Err(text) => Err(Error::Runtime(text)),
    }
}

/// Whether `sample_scores` can be called.
pub fn may_sample(tensors: &Tensors, arguments: &Vec<Value>, heap: &Heap) -> (r: bool)
    ensures
        r == sampling_allowed(tensors@, heap@, views(arguments@)),
{
    match sample_operands(arguments, heap) {
        Err(_) => true,
        Ok(sampling) => match tensors.held.get(&sampling.scores) {
            Some(t) => can_be_counted(&tensor_dims(t)),
            None => true,
        },
    }
}

/// The tokens that are held back among the first `n` of the context, in order;
/// a token that occurs twice is held back twice.
pub open spec fn held_back(context: Seq<i32>, tokens: usize, n: int) -> Seq<usize>
    decreases n,
{
    if n <= 0 || n > context.len() {
        Seq::empty()
    } else {
        let before = held_back(context, tokens, n - 1);
        if 0 <= context[n - 1] < tokens {
            before.push(context[n - 1] as usize)
        } else {
            before
        }
    }
}

impl SamplingView {
    /// Whether tokens of the context are held back at all.
    pub open spec fn holds_back(self) -> bool {
        less(ONE, self.penalty)
    }

    /// How many tokens of the context count.
    pub open spec fn counted(self) -> int {
        if self.length < self.context.len() {
            self.length as int
        } else {
            self.context.len() as int
        }
    }

    /// The tokens that are held back, of so many.
    pub open spec fn penalties(self, tokens: usize) -> Seq<usize> {
        if self.holds_back() {
            held_back(self.context, tokens, self.counted())
        } else {
            Seq::empty()
        }
    }

    /// Whether the best token is taken, without any chance.
    pub open spec fn greedy(self) -> bool {
        !is_nan(self.temperature) && place(self.temperature) <= 0
    }
}

impl Sampling {
    /// The tokens whose scores are lowered, one after the other.
    pub fn penalties(&self, tokens: usize) -> (r: Vec<usize>)
        ensures
            r@ == self@.penalties(tokens),
            forall|k: int| 0 <= k < r@.len() ==> #[trigger] r@[k] < tokens,
    {
        let mut out: Vec<usize> = Vec::new();
        if !is_less(ONE, self.penalty) {
            return out;
        }
        let counted: usize = if self.length < self.context.len() {
            self.length
        } else {
            self.context.len()
        };
        let mut k: usize = 0;
        while k < counted
            invariant
                k <= counted <= self.context@.len(),
                counted == self@.counted(),
                out@ == held_back(self.context@, tokens, k as int),
                forall|j: int| 0 <= j < out@.len() ==> #[trigger] out@[j] < tokens,
            decreases counted - k,
        {
            let token: i32 = self.context[k];
            if token >= 0 && (token as u64) < (tokens as u64) {
                out.push(token as usize);
            }
            k += 1;
        }
        out
    }

    /// Whether the best token is taken, without any chance.
    pub fn is_greedy(&self) -> (r: bool)
        ensures
            r == self@.greedy(),
    {
        self.temperature % 0x8000_0000 <= 0x7f80_0000 && (self.temperature == 0
            || self.temperature >= 0x8000_0000)
    }
}

/// A held-back score is divided by the penalty where it is positive, and
/// multiplied with it otherwise.
pub fn is_divided(score: u32) -> (r: bool)
    ensures
        r == less(0, score),
{
    is_less(0, score)
}

/// Whether a token is the first of those with the best score.
pub open spec fn is_best(scores: Seq<u32>, token: int) -> bool {
    &&& 0 <= token < scores.len()
    &&& less(LEAST, scores[token])
    &&& forall|j: int| 0 <= j < scores.len() ==> !less(scores[token], #[trigger] scores[j])
    &&& forall|j: int| 0 <= j < token ==> less(#[trigger] scores[j], scores[token]) || is_nan(
        scores[j],
    )
}

/// The first token with the best score; where no score is above minus infinity,
/// the first token.
pub fn greedy_token(scores: &Vec<u32>) -> (r: i32)
    ensures
        exists|token: usize| #[trigger] (token as i32) == r && if exists|j: int|
            0 <= j < scores@.len() && less(LEAST, #[trigger] scores@[j]) {
            is_best(scores@, token as int)
        } else {
            token == 0
        },
{
    let mut best: u32 = LEAST;
    let mut token: usize = 0;
    let mut k: usize = 0;
    assert(!is_nan(LEAST));
    while k < scores.len()
        invariant
            k <= scores@.len(),
            !is_nan(best),
            best == LEAST ==> token == 0,
            best == LEAST ==> forall|j: int| 0 <= j < k ==> !less(LEAST, #[trigger] scores@[j]),
            best != LEAST ==> less(LEAST, best),
            best != LEAST ==> token < k && scores@[token as int] == best,
            forall|j: int| 0 <= j < k ==> !less(best, #[trigger] scores@[j]),
            best != LEAST ==> forall|j: int|
                0 <= j < token ==> less(#[trigger] scores@[j], best) || is_nan(scores@[j]),
        decreases scores@.len() - k,
    {
        if is_less(best, scores[k]) {
            best = scores[k];
            token = k;
        }
        k += 1;
    }
    proof {
        if exists|j: int| 0 <= j < scores@.len() && less(LEAST, #[trigger] scores@[j]) {
            let j = choose|j: int| 0 <= j < scores@.len() && less(LEAST, #[trigger] scores@[j]);
            assert(best != LEAST);
            assert(is_best(scores@, token as int));
        }
    }
    token as i32
}

/// The number that a choice is made by, from the time.
pub fn chance(now: u64) -> (r: u64)
    ensures
        r == next_random(now),
{
    let a: u64 = now ^ (now << 13);
    let b: u64 = a ^ (a >> 7);
    b ^ (b << 17)
}

/// The token that a number between 0 and 1 falls on, from the sums of the
/// probabilities up to each token; where it falls on none, the first token.
pub fn drawn_token(chance: u64, sums: &Vec<u64>) -> (r: i32)
    ensures
        exists|token: usize| #[trigger] (token as i32) == r && if exists|j: int|
            0 <= j < sums@.len() && less_double(chance, #[trigger] sums@[j]) {
            &&& token < sums@.len()
            &&& less_double(chance, sums@[token as int])
            &&& forall|j: int| 0 <= j < token ==> !less_double(chance, #[trigger] sums@[j])
        } else {
            token == 0
        },
{
    let mut k: usize = 0;
    while k < sums.len()
        invariant
            k <= sums@.len(),
            forall|j: int| 0 <= j < k ==> !less_double(chance, #[trigger] sums@[j]),
        decreases sums@.len() - k,
    {
        if is_less_double(chance, sums[k]) {
            assert(less_double(chance, sums@[k as int]));
            return k as i32;
        }
        k += 1;
    }
    assert(0usize as i32 == 0i32);
    0
}

} // verus!
