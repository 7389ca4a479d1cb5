//! The host functions that come with the runtime.
use vstd::prelude::*;
use crate::compiler::HostSignature;
use crate::instance::{CandleExtension, ExternalFunction, Instance};
use crate::semantics::{candle_functions, register_from, signature};
use crate::types::{Error, ErrorView, Type, TypeView};
use crate::views::{group_views, same, views};

verus! {

broadcast use group_views;

fn sig(arguments: Vec<Type>, result: Type) -> (r: HostSignature)
    ensures
        r@ == signature(views(arguments@), result@),
{
    HostSignature { arguments, result }
}

fn types0() -> (r: Vec<Type>)
    ensures
        views(r@) == Seq::<TypeView>::empty(),
{
    Vec::new()
}

fn with_type(types: Vec<Type>, ty: Type) -> (r: Vec<Type>)
    ensures
        views(r@) == views(types@).push(ty@),
{
    let mut types = types;
    types.push(ty);
    types
}

fn one(a: Type) -> (r: Vec<Type>)
    ensures
        views(r@) == seq![a@],
{
    let r = with_type(types0(), a);
    assert(views(r@) =~= seq![a@]);
    r
}

fn two(a: Type, b: Type) -> (r: Vec<Type>)
    ensures
        views(r@) == seq![a@, b@],
{
    let r = with_type(one(a), b);
    assert(views(r@) =~= seq![a@, b@]);
    r
}

fn three(a: Type, b: Type, c: Type) -> (r: Vec<Type>)
    ensures
        views(r@) == seq![a@, b@, c@],
{
    let r = with_type(two(a, b), c);
    assert(views(r@) =~= seq![a@, b@, c@]);
    r
}

fn five(a: Type, b: Type, c: Type, d: Type, e: Type) -> (r: Vec<Type>)
    ensures
        views(r@) == seq![a@, b@, c@, d@, e@],
{
    let r = with_type(with_type(three(a, b, c), d), e);
    assert(views(r@) =~= seq![a@, b@, c@, d@, e@]);
    r
}

/// The host functions of the `candle` extension.
fn candle_table() -> (r: Vec<(&'static str, HostSignature)>)
    ensures
        r@.len() == candle_functions().len(),
        forall|k: int|
            0 <= k < r@.len() ==> (#[trigger] r@[k]).0@ == candle_functions()[k].0 && r@[k].1@
                == candle_functions()[k].1,
{
    let mut table: Vec<(&'static str, HostSignature)> = Vec::new();
    assert(Type::I32@ == TypeView::I32);
    table.push(("candle_l0_layer", sig(two(Type::DTensor, Type::DArray), Type::DArray)));
    table.push(("candle_matmul", sig(two(Type::DTensor, Type::DTensor), Type::DTensor)));
    table.push(("tensor_shape", sig(one(Type::DTensor), Type::DArray)));
    table.push(("candle_vector_add", sig(two(Type::DArray, Type::DArray), Type::DArray)));
    table.push(("candle_vector_relu", sig(one(Type::DArray), Type::DArray)));
    table.push(("candle_load_safetensor", sig(two(Type::String, Type::String), Type::DTensor)));
    table.push(("candle_load_model", sig(one(Type::String), Type::Table(Box::new(Type::I32)))));
    table.push(
        ("candle_save_model", sig(two(Type::Table(Box::new(Type::I32)), Type::String), Type::Bool)),
    );
    table.push(("candle_embedding", sig(two(Type::I32, Type::I32), Type::I32)));
    table.push(("candle_softmax", sig(one(Type::I32), Type::I32)));
    table.push(("candle_rmsnorm", sig(three(Type::I32, Type::I32, Type::F32), Type::I32)));
    table.push(("candle_free_tensor", sig(one(Type::I32), Type::Bool)));
    table.push(("candle_linear_id", sig(two(Type::I32, Type::I32), Type::I32)));
    table.push(("candle_silu", sig(one(Type::I32), Type::I32)));
    table.push(("candle_mul_id", sig(two(Type::I32, Type::I32), Type::I32)));
    table.push(("candle_get_darray", sig(one(Type::I32), Type::DArray)));
    table.push(("candle_reshape_id", sig(two(Type::I32, Type::DArray), Type::I32)));
    table.push(("candle_transpose_id", sig(three(Type::I32, Type::I32, Type::I32), Type::I32)));
    table.push(("candle_repeat_kv_id", sig(two(Type::I32, Type::I32), Type::I32)));
    table.push(("candle_scale_id", sig(two(Type::I32, Type::F32), Type::I32)));
    table.push(("candle_matmul_id", sig(two(Type::I32, Type::I32), Type::I32)));
    table.push(("candle_apply_rope_id", sig(three(Type::I32, Type::I32, Type::I32), Type::I32)));
    table.push(("candle_softmax_dim_id", sig(two(Type::I32, Type::I32), Type::I32)));
    table.push(("candle_add_id", sig(two(Type::I32, Type::I32), Type::I32)));
    table.push(("candle_cat_id", sig(three(Type::I32, Type::I32, Type::I32), Type::I32)));
    table.push(("tokenizer_load", sig(one(Type::String), Type::I32)));
    table.push(("tokenizer_decode", sig(two(Type::I32, Type::I32), Type::String)));
    table.push(("candle_argmax_token", sig(one(Type::I32), Type::I32)));
    table.push(
        ("tokenizer_encode", sig(two(Type::I32, Type::String), Type::Array(Box::new(Type::I32)))),
    );
    table.push(
        (
            "candle_sample_token",
            sig(five(Type::I32, Type::F32, Type::DTensor, Type::I32, Type::F32), Type::I32),
        ),
    );
    table
}

impl CandleExtension {
    /// The module that a program imports the functions by.
    pub fn name(&self) -> (r: &'static str)
        ensures
            r@ == "candle"@,
    {
        "candle"
    }

    /// Makes the functions known, in order, up to the first name that is taken.
    pub fn register(&self, inst: &mut Instance) -> (r: Result<(), Error>)
        ensures
            match r {
                Ok(_) => same(
                    register_from(old(inst)@, candle_functions(), 0),
                    (final(inst)@, Ok::<(), ErrorView>(())),
                ),
                Err(e) => same(
                    register_from(old(inst)@, candle_functions(), 0),
                    (final(inst)@, Err::<(), ErrorView>(e@)),
                ),
            },
    {
        let table = candle_table();
        let ghost start = *inst;
        let ghost functions = candle_functions();
        let mut k: usize = 0;
        while k < table.len()
            invariant
                start == *old(inst),
                k <= table@.len(),
                functions == candle_functions(),
                table@.len() == functions.len(),
                forall|j: int|
                    0 <= j < table@.len() ==> (#[trigger] table@[j]).0@ == functions[j].0
                        && table@[j].1@ == functions[j].1,
                same(
                    register_from(start@, functions, 0),
                    register_from(inst@, functions, k as int),
                ),
            decreases table@.len() - k,
        {
            assert(table@[k as int].0@ == functions[k as int].0);
            inst.register_external(
                table[k].0.to_string(),
                table[k].1.clone(),
                ExternalFunction::Native,
            )?;
            k += 1;
        }
        Ok(())
    }
}

} // verus!
