//! Laws of the rules that a program is held to: which types and names stand where.
use vstd::prelude::*;
use crate::ast::{ExprView, ReceiverView, StatementView};
use crate::code::ExportView;
use crate::code_laws::imports_add_structs;
use crate::codegen::{
    Context, State, call_method_code, coerced, declared, exports_in_words, expr_code, find_export,
    for_code, for_in_code, held, if_code, indices_code, key_code, let_code, method_entry,
    method_field, operator_code, rebound, set_field_code, set_index_code, statement_code,
    struct_field, text_in, while_code,
};
use crate::ir::{OpView, decoded_op, fits_words, in_words, lowered, lowered_code_decodes};
use crate::lexer::StringId;
use crate::ops::BinOp;
use crate::types::{ErrorView, TypeView, compatible, integer_type, numeric_type};
use crate::value::Value;
use crate::views::same;

verus! {

/// Arithmetic is for numbers, and `+` for texts too; bits and shifts are for
/// integers, comparisons for numbers, and equality for all. An operator on
/// operands of any other type is refused.
pub proof fn operators_take_their_types(c: State, op: BinOp, t: TypeView)
    requires
        !(op is And || op is Or),
    ensures
        ({
            let r = operator_code(c, op, t);
            let arithmetic = op is Add || op is Sub || op is Mul || op is Div || op is Mod;
            let bits = op is BitAnd || op is BitOr || op is BitXor || op is Shl || op is Shr;
            let compares = op is Lt || op is Le || op is Gt || op is Ge;
            &&& arithmetic ==> (r is Ok <==> numeric_type(t) || (op is Add && t is String))
            &&& bits ==> (r is Ok <==> integer_type(t))
            &&& compares ==> (r is Ok <==> numeric_type(t))
            &&& op is Eq || op is Neq ==> r is Ok
            &&& r matches Ok((done, result)) ==> {
                &&& result == (if arithmetic || bits {
                    t
                } else {
                    TypeView::Bool
                })
                &&& done.code.len() == c.code.len() + 1
            }
        }),
{
}

/// What a conditional or a loop depends on is a truth value.
pub proof fn conditions_are_truth_values(
    ctx: Context,
    c: State,
    condition: ExprView,
    body: Seq<StatementView>,
    else_body: Seq<StatementView>,
)
    requires
        expr_code(ctx, c, condition, None) matches Ok((_, t)) && t != TypeView::Bool,
    ensures
        statement_code(
            ctx,
            c,
            StatementView::If { condition, then_body: body, else_body },
        ) is Err,
        statement_code(ctx, c, StatementView::While { condition, body }) is Err,
{
    assert(if_code(
        ctx,
        c,
        StatementView::If { condition, then_body: body, else_body },
    ) is Err);
    assert(while_code(ctx, c, StatementView::While { condition, body }) is Err);
}

/// The name of a loop is new, its bounds are numbers of `i32`, and what it walks
/// over is a vector, a tensor of one dimension or the keys of a table.
pub proof fn loops_have_new_names(
    ctx: Context,
    c: State,
    name: Seq<char>,
    start: ExprView,
    end: ExprView,
    iterable: ExprView,
    body: Seq<StatementView>,
)
    ensures
        for_code(ctx, c, StatementView::For { name, start, end, body }) is Ok ==> {
            let first = expr_code(ctx, c, start, Some(TypeView::I32));
            let last = expr_code(ctx, first->Ok_0.0, end, Some(TypeView::I32));
            &&& !c.names.contains_key(name)
            &&& first is Ok && first->Ok_0.1 == TypeView::I32
            &&& last is Ok && last->Ok_0.1 == TypeView::I32
        },
        for_in_code(ctx, c, StatementView::ForIn { name, iterable, body }) is Ok ==> {
            let walked = expr_code(ctx, c, iterable, None);
            &&& !c.names.contains_key(name)
            &&& walked is Ok
            &&& match walked->Ok_0.1 {
                TypeView::Array(_) | TypeView::TableKeys => true,
                TypeView::Tensor(_, rank) => rank == 1,
                _ => false,
            }
        },
{
}

/// A declared name has its type, and holds only values of a type that fits it. A
/// name that is bound cannot be declared with another type.
pub proof fn declared_names_have_their_type(
    ctx: Context,
    c: State,
    name: Seq<char>,
    ty: TypeView,
    value: ExprView,
)
    requires
        let_code(ctx, c, name, ty, value) is Ok,
        !(ty is Module),
    ensures
        ({
            let done = let_code(ctx, c, name, ty, value)->Ok_0;
            let r = expr_code(ctx, c, value, Some(ty));
            &&& r is Ok
            &&& compatible(ty, r->Ok_0.1)
            &&& done.names.contains_key(name)
            &&& !(r->Ok_0.1 is Module) ==> declared(done.names[name].1) == ty
            &&& r->Ok_0.0.names.contains_key(name) ==> declared(r->Ok_0.0.names[name].1) == ty
        }),
{
    let (c1, found) = expr_code(ctx, c, value, Some(ty))->Ok_0;
    let c2 = coerced(c1, ty, found);
    let fresh = !c2.names.contains_key(name);
    if found is Module {
        let slot = if fresh {
            c2.next_slot
        } else {
            c2.names[name].0
        };
        let c3 = if fresh {
            State {
                names: c2.names.insert(name, (slot, held(ty, found))),
                globals: if c2.nested {
                    c2.globals
                } else {
                    c2.globals.insert(name, (slot, held(ty, found)))
                },
                next_slot: c2.next_slot.wrapping_add(1),
                ..c2
            }
        } else {
            rebound(c2, name, slot, found)
        };
        imports_add_structs(c3, name, c3.artifacts[found->Module_0].exports, 0);
    }
}

/// What is exported under a name is what is bound to it, and nothing is exported
/// twice.
pub proof fn exports_are_what_is_bound(
    ctx: Context,
    c: State,
    id: StringId,
    ty: TypeView,
    value: ExprView,
)
    requires
        statement_code(ctx, c, StatementView::ExportLet { name: id, ty, expr: value }) is Ok,
    ensures
        ({
            let n = text_in(ctx, id);
            let done = statement_code(
                ctx,
                c,
                StatementView::ExportLet { name: id, ty, expr: value },
            )->Ok_0;
            &&& done.names.contains_key(n)
            &&& done.exports.len() > 0
            &&& done.exports.last() == (
                n,
                ExportView::Value { slot: done.names[n].0, ty: done.names[n].1 },
            )
            &&& find_export(done.exports.drop_last(), n, 0) is None
        }),
{
    let n = text_in(ctx, id);
    let c1 = let_code(ctx, c, n, ty, value)->Ok_0;
    let done = statement_code(
        ctx,
        c,
        StatementView::ExportLet { name: id, ty, expr: value },
    )->Ok_0;
    assert(done.exports.drop_last() =~= c1.exports);
}

/// A field of a struct is stored into the struct that the name stands for, under
/// the field of that name; an entry of a table into the table.
pub proof fn stored_fields_belong_to_their_name(
    ctx: Context,
    c: State,
    name: Seq<char>,
    field: Seq<char>,
    value: ExprView,
)
    requires
        method_field(c, name) is None,
        set_field_code(ctx, c, name, field, value) is Ok,
    ensures
        ({
            let done = set_field_code(ctx, c, name, field, value)->Ok_0;
            let (slot, t) = c.names[name];
            &&& c.names.contains_key(name)
            &&& done.code.len() > 0
            &&& match t {
                TypeView::Struct(struct_name) => struct_field(c, struct_name, field) matches Ok(f)
                    && done.code.last() == OpView::StoreField(slot, f),
                TypeView::Table(element) => done.code.last() == OpView::StoreTableField(
                    slot,
                    field,
                    *element,
                ),
                _ => false,
            }
        }),
{
}

/// The indices of an assignment are computed in order, behind them the value, and
/// it is stored into what the name stands for.
pub proof fn stored_items_belong_to_their_name(
    ctx: Context,
    c: State,
    name: Seq<char>,
    indices: Seq<ExprView>,
    value: ExprView,
)
    requires
        method_field(c, name) is None,
        set_index_code(
            ctx,
            c,
            StatementView::SetIndex { name, indices, expr: value },
        ) is Ok,
    ensures
        ({
            let done = set_index_code(
                ctx,
                c,
                StatementView::SetIndex { name, indices, expr: value },
            )->Ok_0;
            let (slot, t) = c.names[name];
            let places = if t is Table {
                key_code(ctx, c, indices[0])
            } else {
                indices_code(ctx, c, indices, 0)
            };
            let element = match t {
                TypeView::Array(inner) => *inner,
                TypeView::Table(inner) => *inner,
                TypeView::Tensor(inner, _) => *inner,
                _ => t,
            };
            let given = expr_code(ctx, places->Ok_0, value, Some(element));
            &&& c.names.contains_key(name)
            &&& places is Ok && given is Ok
            &&& compatible(element, given->Ok_0.1)
            &&& done.code == given->Ok_0.0.code.push(done.code.last())
            &&& match t {
                TypeView::Array(_) => indices.len() == 1 && done.code.last() == OpView::StoreIndex(
                    slot,
                    element,
                ),
                TypeView::Table(_) => indices.len() == 1 && done.code.last()
                    == OpView::StoreTableIndex(slot, element),
                TypeView::Tensor(_, rank) => indices.len() == rank && (done.code.last()
                    == OpView::StoreTensorIndex(slot, element, rank) || (element is F32
                    && done.code.last() == OpView::StoreTensorIndexF32(slot, rank))),
                _ => false,
            }
        }),
{
    let s = StatementView::SetIndex { name, indices, expr: value };
    let done = set_index_code(ctx, c, s)->Ok_0;
    assert(done.code.drop_last().push(done.code.last()) =~= done.code);
}

/// A method is called on the struct that the name stands for, and the method is
/// the one of its struct.
pub proof fn methods_are_called_on_their_struct(c: State, name: Seq<char>, method: Seq<char>)
    requires
        c.names.contains_key(name),
        c.names[name].1 is Struct,
    ensures
        ({
            let r = call_method_code(c, ReceiverView::Name(name), method);
            let entry = method_entry(c, c.names[name].1->Struct_0, method);
            &&& r is Ok
            &&& r->Ok_0.code == c.code.push(
                OpView::CallMethod(
                    c.names[name].0,
                    match entry {
                        Some(at) => at,
                        None => usize::MAX,
                    },
                ),
            )
            &&& entry is None ==> r->Ok_0.pending == c.pending.push(
                (c.code.len() as usize, c.names[name].1->Struct_0, method),
            )
            &&& entry is Some && entry != Some(usize::MAX) ==> r->Ok_0.pending == c.pending
        }),
{
}

/// The instruction that a jump or an exported function goes to is the one at its
/// target, wherever it stands in the words of the code.
pub proof fn targets_are_found_in_the_words(
    code: Seq<OpView>,
    target: usize,
    exports: Seq<(Seq<char>, ExportView)>,
    k: int,
)
    requires
        target < code.len(),
        4 * code.len() <= usize::MAX,
        fits_words(code[target as int]),
        lowered(code).constants.len() <= u32::MAX,
        0 <= k < exports.len(),
    ensures
        ({
            let jump = in_words(OpView::Jump(target))->Jump_0;
            let branch = in_words(OpView::JumpIfFalse(target))->JumpIfFalse_0;
            let here = Ok::<OpView, ErrorView>(in_words(code[target as int]));
            &&& same(decoded_op(lowered(code), jump as int), here)
            &&& same(decoded_op(lowered(code), branch as int), here)
            &&& exports[k].1 == (ExportView::Function { entry: target }) ==> {
                let e = exports_in_words(exports)[k];
                e.0 == exports[k].0 && e.1 is Function && same(
                    decoded_op(lowered(code), e.1->entry as int),
                    here,
                )
            }
            &&& exports[k].1 is Value ==> exports_in_words(exports)[k] == exports[k]
        }),
{
    lowered_code_decodes(code, target as int);
    assert(in_words(OpView::Jump(target))->Jump_0 == 4 * target);
    assert(in_words(OpView::JumpIfFalse(target))->JumpIfFalse_0 == 4 * target);
    let range = (usize::MAX + 1) as nat;
    assert(target as nat * 4 == 4 * target);
    vstd::arithmetic::div_mod::lemma_small_mod((target as nat * 4) as nat, range);
    assert(target.wrapping_mul(4) == 4 * target);
}

} // verus!
