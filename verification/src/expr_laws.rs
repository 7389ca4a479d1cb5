//! Laws of compiled expressions and declarations: in which order their parts are
//! computed, and what their values are.
use vstd::prelude::*;
use crate::ast::{ExprView, StatementView};
use crate::code_laws::{expr_grows, extends};
use crate::codegen::{
    Context, State, arguments_code, array_code, assign_code, binary_code, builtin1_code,
    builtin2_code, declare_methods, expr_code, extern_code, find_field, find_initializer,
    global_assign_code, index_code, indices_code, initializers_code, items_code, key_code,
    members_code, method_field, numbered, repeated_field, repeated_initializer, statement_code,
    struct_code, struct_field, struct_statement_code, text_in,
};
use crate::flow_laws::{Place, lemma_went_on, moved, went};
use crate::instance::{InstanceView, dropped, pushed};
use crate::ir::OpView;
use crate::lexer::StringId;
use crate::number_laws::{Site, instruction_for, lemma_left};
use crate::ops::{BinOp, BuiltinFn, UnOp, binary_builtin, unary_builtin};
use crate::types::{
    ErrorView, TypeView, compatible, float_type, in_int_bounds, integer_type, numeric_type,
    signed_type,
};
use crate::value::{
    FieldView, LayoutView, TableKey, ValueView, int_in, int_of, integer_values_hold_their_number,
    type_of,
};

verus! {

/// The left operand is computed first, behind it the right one, and behind both
/// the operator. A comparison gives a truth value, other operators a value of the
/// type of the left operand; the right operand is taken to be of that type.
pub proof fn operands_are_computed_from_left_to_right(
    ctx: Context,
    c: State,
    left: ExprView,
    op: BinOp,
    right: ExprView,
    expected: Option<TypeView>,
)
    requires
        !(op is And || op is Or),
        expr_code(
            ctx,
            c,
            ExprView::Binary(Box::new(left), op, Box::new(right)),
            expected,
        ) is Ok,
    ensures
        ({
            let e = ExprView::Binary(Box::new(left), op, Box::new(right));
            let compares = op is Eq || op is Neq || op is Lt || op is Le || op is Gt || op is Ge;
            let (done, t) = expr_code(ctx, c, e, expected)->Ok_0;
            let first = expr_code(
                ctx,
                c,
                left,
                if compares {
                    None
                } else {
                    expected
                },
            );
            let second = expr_code(ctx, first->Ok_0.0, right, Some(first->Ok_0.1));
            &&& first is Ok && second is Ok
            &&& compatible(first->Ok_0.1, second->Ok_0.1)
            &&& done.code == second->Ok_0.0.code.push(done.code.last())
            &&& t == (if compares {
                TypeView::Bool
            } else {
                first->Ok_0.1
            })
        }),
{
    let e = ExprView::Binary(Box::new(left), op, Box::new(right));
    assert(expr_code(ctx, c, e, expected) == binary_code(ctx, c, e, expected));
    let done = expr_code(ctx, c, e, expected)->Ok_0.0;
    assert(done.code.drop_last().push(done.code.last()) =~= done.code);
}

/// Signs, negations and conversions are computed behind their operand.
pub proof fn operands_are_computed_before_their_sign(
    ctx: Context,
    c: State,
    op: UnOp,
    inner: ExprView,
    expected: Option<TypeView>,
    target: TypeView,
)
    ensures
        ({
            let signed = expr_code(ctx, c, ExprView::Unary(op, Box::new(inner)), expected);
            let operand = expr_code(ctx, c, inner, expected);
            let cast = expr_code(ctx, c, ExprView::Cast(Box::new(inner), target), expected);
            let source = expr_code(ctx, c, inner, None);
            &&& signed matches Ok((done, t)) ==> operand matches Ok((at, t0)) && {
                &&& t == t0
                &&& op is Neg ==> numeric_type(t)
                &&& op is Not ==> t == TypeView::Bool
                &&& done.code == at.code.push(OpView::Unary(op, t))
            }
            &&& cast matches Ok((done, t)) ==> source matches Ok((at, t0)) && {
                &&& t == target
                &&& numeric_type(t0) && numeric_type(target)
                &&& done.code == at.code.push(OpView::Cast(target))
            }
        }),
{
}

/// An integer literal is a number of the type that is expected, or of `i32`. One
/// that does not fit is refused.
pub proof fn integer_literals_are_their_number(
    ctx: Context,
    c: State,
    n: i128,
    expected: Option<TypeView>,
)
    ensures
        ({
            let t = match expected {
                Some(t) => t,
                None => TypeView::I32,
            };
            let r = expr_code(ctx, c, ExprView::Integer(n), expected);
            &&& r is Ok <==> integer_type(t) && in_int_bounds(t, n as int)
            &&& r matches Ok((done, found)) ==> found == t && done.code.len() == c.code.len() + 1
                && done.code.last() is Push && type_of(done.code.last()->Push_0) == t && int_of(
                done.code.last()->Push_0,
            ) == Some(n as int)
        }),
{
    let t = match expected {
        Some(t) => t,
        None => TypeView::I32,
    };
    if integer_type(t) && in_int_bounds(t, n as int) {
        integer_values_hold_their_number(t, n as int);
    }
}

/// A name is read from its slot, and has the type that it was bound with; so is a
/// global behind `::`. A name that is not bound is refused.
pub proof fn names_are_read_from_their_slot(
    ctx: Context,
    c: State,
    id: StringId,
    expected: Option<TypeView>,
)
    requires
        method_field(c, text_in(ctx, id)) is None,
    ensures
        ({
            let n = text_in(ctx, id);
            let r = expr_code(ctx, c, ExprView::Name(id), expected);
            let g = expr_code(ctx, c, ExprView::GlobalName(id), expected);
            &&& r is Ok <==> c.names.contains_key(n)
            &&& r matches Ok((done, t)) ==> done.code == c.code.push(OpView::Load(c.names[n].0))
                && t == c.names[n].1
            &&& g is Ok <==> c.globals.contains_key(n)
            &&& g matches Ok((done, t)) ==> done.code == c.code.push(OpView::Load(c.globals[n].0))
                && t == c.globals[n].1
        }),
{
}

/// An assignment stores into the slot of its name, and that is the slot that the
/// name is read from.
pub proof fn assignments_reach_their_name(
    ctx: Context,
    c: State,
    name: Seq<char>,
    value: ExprView,
)
    requires
        method_field(c, name) is None,
        assign_code(ctx, c, name, value) is Ok,
    ensures
        ({
            let done = assign_code(ctx, c, name, value)->Ok_0;
            &&& c.names.contains_key(name)
            &&& done.code.len() > 0
            &&& done.code.last() == OpView::Store(c.names[name].0)
        }),
{
}

/// `::name = value` stores into the slot of the global.
pub proof fn global_assignments_reach_their_name(
    ctx: Context,
    c: State,
    name: Seq<char>,
    value: ExprView,
)
    requires
        global_assign_code(ctx, c, name, value) is Ok,
    ensures
        ({
            let done = global_assign_code(ctx, c, name, value)->Ok_0;
            &&& c.globals.contains_key(name)
            &&& done.code.len() > 0
            &&& done.code.last() == OpView::Store(c.globals[name].0)
        }),
{
}

/// The items of a vector literal are computed in order, each as a value of the
/// element type, and the vector is made of as many.
pub proof fn items_are_computed_in_order(
    ctx: Context,
    c: State,
    items: Seq<ExprView>,
    i: int,
    element: TypeView,
)
    requires
        0 <= i < items.len(),
        items_code(ctx, c, items, i, element) is Ok,
    ensures
        ({
            let item = expr_code(ctx, c, items[i], Some(element));
            &&& item is Ok
            &&& compatible(element, item->Ok_0.1)
            &&& items_code(ctx, item->Ok_0.0, items, i + 1, element) == items_code(
                ctx,
                c,
                items,
                i,
                element,
            )
        }),
{
}

/// A vector literal where a vector is expected.
pub proof fn vector_literals_are_vectors(
    ctx: Context,
    c: State,
    items: Seq<ExprView>,
    element: TypeView,
)
    requires
        items.len() <= usize::MAX,
        expr_code(
            ctx,
            c,
            ExprView::Array(items),
            Some(TypeView::Array(Box::new(element))),
        ) is Ok,
    ensures
        ({
            let (done, t) = expr_code(
                ctx,
                c,
                ExprView::Array(items),
                Some(TypeView::Array(Box::new(element))),
            )->Ok_0;
            let at = items_code(ctx, c, items, 0, element);
            &&& t == TypeView::Array(Box::new(element))
            &&& at is Ok
            &&& done.code == at->Ok_0.code.push(OpView::MakeArray(items.len() as usize, element))
        }),
{
    assert(array_code(ctx, c, items, Some(TypeView::Array(Box::new(element)))) is Ok);
}

proof fn lemma_initializer(fields: Seq<(Seq<char>, ExprView)>, name: Seq<char>, i: int)
    requires
        0 <= i <= fields.len(),
    ensures
        ({
            let j = find_initializer(fields, name, i);
            &&& i <= j <= fields.len()
            &&& j < fields.len() ==> fields[j].0 == name
            &&& forall|k: int| i <= k < j ==> (#[trigger] fields[k]).0 != name
        }),
    decreases fields.len() - i,
{
    if i < fields.len() && fields[i].0 != name {
        lemma_initializer(fields, name, i + 1);
    }
}

proof fn lemma_repeated(fields: Seq<(Seq<char>, ExprView)>, i: int)
    requires
        0 <= i,
        repeated_initializer(fields, i) is None,
    ensures
        forall|j: int, k: int|
            0 <= j < k < fields.len() && i <= k ==> (#[trigger] fields[j]).0 != (
            #[trigger] fields[k]).0,
    decreases fields.len() - i,
{
    if i < fields.len() {
        lemma_repeated(fields, i + 1);
        lemma_initializer(fields, fields[i].0, 0);
    }
}

/// A struct literal names each field of its struct once. Its values are computed
/// in the order of the struct's fields, whatever the order in which they are
/// written: at the `k`th place stands the value that is written for the `k`th field.
pub proof fn fields_are_computed_in_the_order_of_the_struct(
    ctx: Context,
    c: State,
    name: Seq<char>,
    fields: Seq<(Seq<char>, ExprView)>,
    expected: Option<TypeView>,
    at: State,
    k: int,
)
    requires
        expr_code(ctx, c, ExprView::StructLiteral(name, fields), expected) is Ok,
        c.structs.contains_key(name),
        0 <= k < c.structs[name].fields.len(),
        initializers_code(ctx, at, name, c.structs[name].fields, k, fields) is Ok,
    ensures
        ({
            let (done, t) = expr_code(
                ctx,
                c,
                ExprView::StructLiteral(name, fields),
                expected,
            )->Ok_0;
            let layout = c.structs[name];
            let all = initializers_code(ctx, c, name, layout.fields, 0, fields);
            &&& t == TypeView::Struct(name)
            &&& fields.len() == layout.fields.len()
            &&& all is Ok
            &&& done.code == all->Ok_0.code.push(OpView::MakeStruct(layout))
            &&& exists|j: int|
                #![trigger fields[j]]
                0 <= j < fields.len() && fields[j].0 == layout.fields[k].name && {
                    let value = expr_code(ctx, at, fields[j].1, Some(layout.fields[k].ty));
                    &&& value is Ok
                    &&& compatible(layout.fields[k].ty, value->Ok_0.1)
                    &&& initializers_code(ctx, at, name, layout.fields, k, fields)
                        == initializers_code(
                        ctx,
                        value->Ok_0.0,
                        name,
                        layout.fields,
                        k + 1,
                        fields,
                    )
                }
            &&& forall|i: int, j: int|
                0 <= i < j < fields.len() ==> (#[trigger] fields[i]).0 != (
                #[trigger] fields[j]).0
        }),
{
    assert(struct_code(ctx, c, name, fields, expected) is Ok);
    let layout = c.structs[name];
    lemma_initializer(fields, layout.fields[k].name, 0);
    let j = find_initializer(fields, layout.fields[k].name, 0);
    assert(fields[j].0 == layout.fields[k].name);
    lemma_repeated(fields, 0);
}

proof fn lemma_find_field(fields: Seq<FieldView>, name: Seq<char>, i: int)
    requires
        0 <= i,
    ensures
        match find_field(fields, name, i) {
            Some(f) => f.name == name && exists|k: int|
                i <= k < fields.len() && #[trigger] fields[k] == f,
            None => forall|k: int| i <= k < fields.len() ==> (#[trigger] fields[k]).name != name,
        },
    decreases fields.len() - i,
{
    if i < fields.len() {
        if fields[i].name == name {
            assert(fields[i] == find_field(fields, name, i)->Some_0);
        } else {
            lemma_find_field(fields, name, i + 1);
        }
    }
}

proof fn lemma_repeated_field(fields: Seq<(Seq<char>, TypeView)>, i: int)
    requires
        0 <= i,
        repeated_field(fields, i) is None,
    ensures
        forall|j: int, k: int|
            0 <= j < k < fields.len() && i <= k ==> (#[trigger] fields[j]).0 != (
            #[trigger] fields[k]).0,
    decreases fields.len() - i,
{
    if i < fields.len() {
        lemma_repeated_field(fields, i + 1);
    }
}

/// A declared struct has its fields in the order in which they are written, each
/// with its name, its type and its place; no two have the same name. So a field
/// is found by its name.
pub proof fn declared_fields_are_found(
    ctx: Context,
    c: State,
    name: Seq<char>,
    fields: Seq<(Seq<char>, TypeView)>,
    k: int,
)
    requires
        fields.len() <= usize::MAX,
        struct_statement_code(ctx, c, name, fields, Seq::empty()) is Ok,
        0 <= k < fields.len(),
    ensures
        ({
            let done = struct_statement_code(ctx, c, name, fields, Seq::empty())->Ok_0;
            struct_field(done, name, fields[k].0) == Ok::<FieldView, ErrorView>(
                FieldView { name: fields[k].0, ty: fields[k].1, index: k as usize },
            )
        }),
{
    lemma_repeated_field(fields, 0);
    let layout = numbered(fields);
    lemma_find_field(layout, fields[k].0, 0);
    let d = State {
        structs: c.structs.insert(name, LayoutView { name, fields: layout }),
        ..c
    };
    assert(declare_methods(d, name, Seq::empty(), 0) == Ok::<State, ErrorView>(d));
    assert(members_code(ctx, d, name, Seq::empty(), 0) == Ok::<State, ErrorView>(d));
    let done = struct_statement_code(ctx, c, name, fields, Seq::empty())->Ok_0;
    assert(done == d);
    assert(layout[k].name == fields[k].0);
    match find_field(layout, fields[k].0, 0) {
        Some(f) => {
            let j = choose|j: int| 0 <= j < layout.len() && #[trigger] layout[j] == f;
            assert(fields[j].0 == fields[k].0);
            if j < k {
                assert(fields[j].0 != fields[k].0);
            } else if k < j {
                assert(fields[k].0 != fields[j].0);
            }
        },
        None => {},
    }
}

/// What is indexed is computed before the indices, and the indices in order; the
/// result has the type of the items.
pub proof fn indices_are_computed_in_order(
    ctx: Context,
    c: State,
    container: ExprView,
    indices: Seq<ExprView>,
    expected: Option<TypeView>,
)
    requires
        expr_code(
            ctx,
            c,
            ExprView::Index(Box::new(container), indices),
            expected,
        ) is Ok,
    ensures
        ({
            let (done, t) = expr_code(
                ctx,
                c,
                ExprView::Index(Box::new(container), indices),
                expected,
            )->Ok_0;
            let whole = expr_code(ctx, c, container, None);
            let (at, of) = whole->Ok_0;
            let places = indices_code(ctx, at, indices, 0);
            let key = key_code(ctx, at, indices[0]);
            &&& whole is Ok
            &&& match of {
                TypeView::Array(element) => indices.len() == 1 && t == *element && places is Ok
                    && done.code == places->Ok_0.code.push(OpView::Index),
                TypeView::Table(element) => indices.len() == 1 && t == *element && key is Ok
                    && done.code == key->Ok_0.code.push(OpView::TableIndex),
                TypeView::TableKeys => indices.len() == 1 && t == TypeView::TableKey && places is Ok
                    && done.code == places->Ok_0.code.push(OpView::TableKeysIndex),
                TypeView::Tensor(element, rank) => indices.len() == rank && t == *element
                    && places is Ok && done.code == places->Ok_0.code.push(
                    if *element is F32 {
                        OpView::TensorIndexF32(rank)
                    } else {
                        OpView::TensorIndex(*element, rank)
                    },
                ),
                _ => false,
            }
        }),
{
    let (at, of) = expr_code(ctx, c, container, None)->Ok_0;
    assert(index_code(ctx, at, of, indices) is Ok);
}

/// The next index of several.
pub proof fn further_indices_are_integers(
    ctx: Context,
    c: State,
    indices: Seq<ExprView>,
    i: int,
)
    requires
        0 <= i < indices.len(),
        indices_code(ctx, c, indices, i) is Ok,
    ensures
        ({
            let one = expr_code(ctx, c, indices[i], None);
            &&& one is Ok
            &&& integer_type(one->Ok_0.1)
            &&& indices_code(ctx, one->Ok_0.0, indices, i + 1) == indices_code(
                ctx,
                c,
                indices,
                i,
            )
        }),
{
}

/// The name of a built-in function.
pub open spec fn builtin_name(f: BuiltinFn) -> Seq<char> {
    match f {
        BuiltinFn::Sqrt => seq!['s', 'q', 'r', 't'],
        BuiltinFn::Sin => seq!['s', 'i', 'n'],
        BuiltinFn::Cos => seq!['c', 'o', 's'],
        BuiltinFn::Tan => seq!['t', 'a', 'n'],
        BuiltinFn::Asin => seq!['a', 's', 'i', 'n'],
        BuiltinFn::Acos => seq!['a', 'c', 'o', 's'],
        BuiltinFn::Atan => seq!['a', 't', 'a', 'n'],
        BuiltinFn::Floor => seq!['f', 'l', 'o', 'o', 'r'],
        BuiltinFn::Ceil => seq!['c', 'e', 'i', 'l'],
        BuiltinFn::Round => seq!['r', 'o', 'u', 'n', 'd'],
        BuiltinFn::Abs => seq!['a', 'b', 's'],
        BuiltinFn::Pow => seq!['p', 'o', 'w'],
        BuiltinFn::Min => seq!['m', 'i', 'n'],
        BuiltinFn::Max => seq!['m', 'a', 'x'],
        BuiltinFn::Atan2 => seq!['a', 't', 'a', 'n', '2'],
    }
}

/// Each built-in function is called by its name, with one argument or with two.
#[verifier::spinoff_prover]
#[verifier::rlimit(40)]
pub proof fn built_in_functions_are_called_by_their_name(f: BuiltinFn)
    ensures
        ({
            let two = f is Pow || f is Min || f is Max || f is Atan2;
            &&& two ==> binary_builtin(builtin_name(f)) == Some(f) && unary_builtin(
                builtin_name(f),
            ) is None
            &&& !two ==> unary_builtin(builtin_name(f)) == Some(f) && binary_builtin(
                builtin_name(f),
            ) is None
        }),
{
    reveal_strlit("sqrt");
    reveal_strlit("sin");
    reveal_strlit("cos");
    reveal_strlit("tan");
    reveal_strlit("asin");
    reveal_strlit("acos");
    reveal_strlit("atan");
    reveal_strlit("floor");
    reveal_strlit("ceil");
    reveal_strlit("round");
    reveal_strlit("abs");
    reveal_strlit("pow");
    reveal_strlit("min");
    reveal_strlit("max");
    reveal_strlit("atan2");
    let n = builtin_name(f);
    assert(n =~= "sqrt"@ || n[0] != 's' || n[1] != 'q');
    assert(n =~= "sin"@ || n.len() != 3 || n[0] != 's');
    assert(n =~= "cos"@ || n.len() != 3 || n[0] != 'c');
    assert(n =~= "tan"@ || n.len() != 3 || n[0] != 't');
    assert(n =~= "asin"@ || n.len() != 4 || n[1] != 's');
    assert(n =~= "acos"@ || n.len() != 4 || n[1] != 'c' || n[0] != 'a');
    assert(n =~= "atan"@ || n.len() != 4 || n[1] != 't');
    assert(n =~= "floor"@ || n[0] != 'f');
    assert(n =~= "ceil"@ || n[0] != 'c' || n.len() != 4);
    assert(n =~= "round"@ || n[0] != 'r');
    assert(n =~= "abs"@ || n.len() != 3 || n[0] != 'a');
    assert(n =~= "pow"@ || n[0] != 'p');
    assert(n =~= "min"@ || n[0] != 'm' || n[1] != 'i');
    assert(n =~= "max"@ || n[0] != 'm' || n[1] != 'a');
    assert(n =~= "atan2"@ || n.len() != 5 || n[0] != 'a');
}

/// The arguments of a call are computed in order, and the function behind them:
/// with two arguments, the second is of the type of the first.
pub proof fn arguments_are_computed_in_order(
    ctx: Context,
    c: State,
    name: Seq<char>,
    f: BuiltinFn,
    a: ExprView,
    b: ExprView,
    expected: Option<TypeView>,
)
    ensures
        builtin1_code(ctx, c, name, f, seq![a], expected) matches Ok((done, t)) ==> expr_code(
            ctx,
            c,
            a,
            expected,
        ) matches Ok((at, t0)) && t == t0 && (f is Abs && numeric_type(t) || float_type(t))
            && done.code == at.code.push(OpView::Builtin1(f, t)),
        builtin2_code(ctx, c, name, f, seq![a, b], expected) matches Ok((done, t)) ==> {
            let first = expr_code(ctx, c, a, expected);
            let second = expr_code(ctx, first->Ok_0.0, b, Some(first->Ok_0.1));
            &&& first is Ok && second is Ok
            &&& t == first->Ok_0.1
            &&& compatible(t, second->Ok_0.1)
            &&& f is Atan2 ==> float_type(t)
            &&& done.code == second->Ok_0.0.code.push(OpView::Builtin2(f, t))
        },
        builtin1_code(ctx, c, name, f, seq![a, b], expected) is Err,
        builtin2_code(ctx, c, name, f, seq![a], expected) is Err,
{
}

/// The arguments of a host function are computed in order, each as a value of the
/// type that the function takes there; the call has the type of its result.
pub proof fn host_arguments_are_computed_in_order(
    ctx: Context,
    c: State,
    name: Seq<char>,
    args: Seq<ExprView>,
    at: State,
    i: int,
)
    requires
        extern_code(ctx, c, name, args) is Ok,
        0 <= i < args.len(),
        ctx.externs[name].arguments.len() <= usize::MAX,
        arguments_code(ctx, at, name, args, ctx.externs[name].arguments, i) is Ok,
    ensures
        ({
            let (done, t) = extern_code(ctx, c, name, args)->Ok_0;
            let s = ctx.externs[name];
            let all = arguments_code(ctx, c, name, args, s.arguments, 0);
            let one = expr_code(ctx, at, args[i], Some(s.arguments[i]));
            &&& ctx.externs.contains_key(name)
            &&& args.len() == s.arguments.len()
            &&& t == s.result
            &&& all is Ok
            &&& done.code == all->Ok_0.code.push(
                OpView::CallExternal(name, args.len() as usize),
            )
            &&& one is Ok
            &&& compatible(s.arguments[i], one->Ok_0.1)
            &&& arguments_code(ctx, at, name, args, s.arguments, i) == arguments_code(
                ctx,
                one->Ok_0.0,
                name,
                args,
                s.arguments,
                i + 1,
            )
        }),
{
}

/// A value that is printed, or put out as a character, is computed before.
pub proof fn printed_values_are_computed_before(ctx: Context, c: State, e: ExprView)
    ensures
        statement_code(ctx, c, StatementView::Print(e)) matches Ok(done) ==> expr_code(
            ctx,
            c,
            e,
            None,
        ) matches Ok((at, _)) && done.code == at.code.push(OpView::Print),
        statement_code(ctx, c, StatementView::Putc(e)) matches Ok(done) ==> expr_code(
            ctx,
            c,
            e,
            None,
        ) matches Ok((at, _)) && done.code == at.code.push(OpView::Putc),
{
}

/// The number that arithmetic on numbers of an integer type comes to, as in
/// mathematics, unless some part of it is no number of the type. `known` holds
/// the numbers that names stand for.
pub open spec fn worth(
    ctx: Context,
    e: ExprView,
    t: TypeView,
    known: Map<Seq<char>, int>,
) -> Option<int>
    decreases e,
{
    let n = match e {
        ExprView::Located { node, .. } => worth(ctx, *node, t, known),
        ExprView::Integer(n) => Some(n as int),
        ExprView::Name(id) => if known.contains_key(text_in(ctx, id)) {
            Some(known[text_in(ctx, id)])
        } else {
            None
        },
        ExprView::Unary(op, inner) => match worth(ctx, *inner, t, known) {
            Some(n) => if op is Neg && signed_type(t) {
                Some(-n)
            } else {
                None
            },
            None => None,
        },
        ExprView::Binary(left, op, right) => match (
            worth(ctx, *left, t, known),
            worth(ctx, *right, t, known),
        ) {
            (Some(l), Some(r)) => match op {
                BinOp::Add => Some(l + r),
                BinOp::Sub => Some(l - r),
                BinOp::Mul => Some(l * r),
                _ => None,
            },
            _ => None,
        },
        _ => None,
    };
    match n {
        Some(n) => if in_int_bounds(t, n) {
            Some(n)
        } else {
            None
        },
        None => None,
    }
}

/// How many instructions arithmetic is compiled to.
pub open spec fn length(e: ExprView) -> nat
    decreases e,
{
    match e {
        ExprView::Located { node, .. } => length(*node),
        ExprView::Unary(_, inner) => length(*inner) + 1,
        ExprView::Binary(left, _, right) => length(*left) + length(*right) + 1,
        _ => 1,
    }
}

/// The names that are known stand for numbers of the type, which their locals hold.
pub open spec fn holds(
    c: State,
    i: InstanceView,
    t: TypeView,
    known: Map<Seq<char>, int>,
) -> bool {
    forall|n: Seq<char>| #[trigger]
        known.contains_key(n) ==> {
            &&& method_field(c, n) is None
            &&& c.names.contains_key(n)
            &&& c.names[n].1 == t
            &&& c.names[n].0 < i.locals.len()
            &&& in_int_bounds(t, known[n])
            &&& i.locals[c.names[n].0 as int] == int_in(t, known[n])
        }
}

/// Compiled arithmetic leaves the number that it comes to in mathematics on the
/// stack, and changes nothing else: whatever its operands are, in whatever order
/// and however deep they are nested.
#[verifier::spinoff_prover]
#[verifier::rlimit(40)]
pub proof fn arithmetic_comes_to_its_number(
    ctx: Context,
    c: State,
    e: ExprView,
    t: TypeView,
    known: Map<Seq<char>, int>,
    code: Seq<OpView>,
    s: Site,
)
    requires
        integer_type(t),
        worth(ctx, e, t, known) is Some,
        holds(c, s.inst, t, known),
        c.code.len() + length(e) <= code.len() <= usize::MAX,
        expr_code(ctx, c, e, Some(t)) matches Ok((done, _)) ==> forall|k: int|
            c.code.len() <= k < done.code.len() ==> #[trigger] code[k] == done.code[k],
    ensures
        ({
            let (done, found) = expr_code(ctx, c, e, Some(t))->Ok_0;
            let n = worth(ctx, e, t, known)->Some_0;
            &&& expr_code(ctx, c, e, Some(t)) is Ok
            &&& found == t
            &&& done.code.len() == c.code.len() + length(e)
            &&& done.names == c.names && done.method_fields == c.method_fields
            &&& went(
                s.all,
                s.receiver,
                code,
                Place { heap: s.heap, inst: s.inst, at: c.code.len() as int },
                length(e),
            ) == Some(
                Place {
                    heap: s.heap,
                    inst: pushed(s.inst, int_in(t, n)),
                    at: done.code.len() as int,
                },
            )
        }),
    decreases e,
{
    let n = worth(ctx, e, t, known)->Some_0;
    let at = c.code.len() as int;
    let here = Place { heap: s.heap, inst: s.inst, at };
    match e {
        ExprView::Located { node, .. } => {
            assert(worth(ctx, *node, t, known) == Some(n));
            arithmetic_comes_to_its_number(ctx, c, *node, t, known, code, s);
        },
        ExprView::Integer(m) => {
            let done = expr_code(ctx, c, e, Some(t))->Ok_0.0;
            assert(done.code[at] == OpView::Push(int_in(t, n)));
            assert(code[at] == done.code[at]);
            lemma_one_step(s, code, here, int_in(t, n));
        },
        ExprView::Name(id) => {
            let name = text_in(ctx, id);
            assert(known.contains_key(name));
            let done = expr_code(ctx, c, e, Some(t))->Ok_0.0;
            assert(done.code[at] == OpView::Load(c.names[name].0));
            assert(code[at] == done.code[at]);
            lemma_one_step(s, code, here, int_in(t, n));
        },
        ExprView::Unary(op, inner) => {
            let m = worth(ctx, *inner, t, known)->Some_0;
            let inside = expr_code(ctx, c, *inner, Some(t));
            if inside is Ok {
                assert forall|k: int|
                    c.code.len() <= k < inside->Ok_0.0.code.len() implies #[trigger] code[k]
                    == inside->Ok_0.0.code[k] by {
                    if expr_code(ctx, c, e, Some(t)) is Ok {
                        assert(expr_code(ctx, c, e, Some(t))->Ok_0.0.code[k]
                            == inside->Ok_0.0.code[k]);
                    } else {
                        lemma_sign_type(ctx, c, *inner, t, known, s);
                    }
                }
            }
            arithmetic_comes_to_its_number(ctx, c, *inner, t, known, code, s);
            let c1 = inside->Ok_0.0;
            let done = expr_code(ctx, c, e, Some(t))->Ok_0.0;
            let k = c1.code.len() as int;
            assert(done.code[k] == OpView::Unary(op, t));
            assert(code[k] == done.code[k]);
            integer_values_hold_their_number(t, m);
            integer_values_hold_their_number(t, n);
            let mid = Place { heap: s.heap, inst: pushed(s.inst, int_in(t, m)), at: k };
            assert(dropped(mid.inst).stack =~= s.inst.stack);
            lemma_last_step(s, code, here, length(*inner), mid, int_in(t, n));
        },
        ExprView::Binary(left, op, right) => {
            let l = worth(ctx, *left, t, known)->Some_0;
            let r = worth(ctx, *right, t, known)->Some_0;
            lemma_both_types(ctx, c, *left, *right, t, known, s);
            let c1 = expr_code(ctx, c, *left, Some(t))->Ok_0.0;
            let c2 = expr_code(ctx, c1, *right, Some(t))->Ok_0.0;
            assert(expr_code(ctx, c, e, Some(t)) == binary_code(ctx, c, e, Some(t)));
            let done = expr_code(ctx, c, e, Some(t))->Ok_0.0;
            assert(done.code == c2.code.push(instruction_for(op, t)));
            assert forall|k: int| c.code.len() <= k < c1.code.len() implies #[trigger] code[k]
                == c1.code[k] by {
                assert(c2.code[k] == c1.code[k]);
                assert(done.code[k] == c2.code[k]);
            }
            arithmetic_comes_to_its_number(ctx, c, *left, t, known, code, s);
            let s1 = Site { inst: pushed(s.inst, int_in(t, l)), ..s };
            assert forall|k: int| c1.code.len() <= k < c2.code.len() implies #[trigger] code[k]
                == c2.code[k] by {
                assert(done.code[k] == c2.code[k]);
            }
            assert(holds(c1, s1.inst, t, known));
            arithmetic_comes_to_its_number(ctx, c1, *right, t, known, code, s1);
            let k = c2.code.len() as int;
            assert(code[k] == done.code[k]);
            let mid1 = Place { heap: s.heap, inst: s1.inst, at: c1.code.len() as int };
            let mid = Place { heap: s.heap, inst: pushed(s1.inst, int_in(t, r)), at: k };
            lemma_went_on(s.all, s.receiver, code, here, length(*left), length(*right));
            lemma_left(s, op, t, l, r);
            lemma_last_step(s, code, here, length(*left) + length(*right), mid, int_in(t, n));
        },
        _ => {},
    }
}

proof fn lemma_one_step(s: Site, code: Seq<OpView>, here: Place, v: ValueView)
    requires
        moved(s.all, s.receiver, code, here) == Some(
            Place { heap: s.heap, inst: pushed(s.inst, v), at: here.at + 1 },
        ),
    ensures
        went(s.all, s.receiver, code, here, 1) == Some(
            Place { heap: s.heap, inst: pushed(s.inst, v), at: here.at + 1 },
        ),
{
    let q = Place { heap: s.heap, inst: pushed(s.inst, v), at: here.at + 1 };
    assert(went(s.all, s.receiver, code, q, 0) == Some(q));
}

proof fn lemma_last_step(
    s: Site,
    code: Seq<OpView>,
    here: Place,
    n: nat,
    mid: Place,
    v: ValueView,
)
    requires
        went(s.all, s.receiver, code, here, n) == Some(mid),
        moved(s.all, s.receiver, code, mid) == Some(
            Place { heap: s.heap, inst: pushed(s.inst, v), at: mid.at + 1 },
        ),
    ensures
        went(s.all, s.receiver, code, here, n + 1) == Some(
            Place { heap: s.heap, inst: pushed(s.inst, v), at: mid.at + 1 },
        ),
{
    lemma_one_step(s, code, mid, v);
    lemma_went_on(s.all, s.receiver, code, here, n, 1);
}

/// Arithmetic on numbers of a type compiles, to code of its length and to the type.
#[verifier::spinoff_prover]
#[verifier::rlimit(40)]
proof fn lemma_compiles(
    ctx: Context,
    c: State,
    e: ExprView,
    t: TypeView,
    known: Map<Seq<char>, int>,
    i: InstanceView,
)
    requires
        integer_type(t),
        worth(ctx, e, t, known) is Some,
        holds(c, i, t, known),
        c.code.len() + length(e) <= usize::MAX,
    ensures
        ({
            let (done, found) = expr_code(ctx, c, e, Some(t))->Ok_0;
            &&& expr_code(ctx, c, e, Some(t)) is Ok
            &&& found == t
            &&& extends(c, done)
            &&& done.code.len() == c.code.len() + length(e)
        }),
    decreases e,
{
    expr_grows(ctx, c, e, Some(t));
    match e {
        ExprView::Located { node, .. } => {
            lemma_compiles(ctx, c, *node, t, known, i);
        },
        ExprView::Name(id) => {
            assert(known.contains_key(text_in(ctx, id)));
        },
        ExprView::Unary(op, inner) => {
            lemma_compiles(ctx, c, *inner, t, known, i);
        },
        ExprView::Binary(left, op, right) => {
            lemma_compiles(ctx, c, *left, t, known, i);
            let c1 = expr_code(ctx, c, *left, Some(t))->Ok_0.0;
            assert(holds(c1, i, t, known));
            lemma_compiles(ctx, c1, *right, t, known, i);
            assert(expr_code(ctx, c, e, Some(t)) == binary_code(ctx, c, e, Some(t)));
        },
        _ => {},
    }
}

proof fn lemma_sign_type(
    ctx: Context,
    c: State,
    inner: ExprView,
    t: TypeView,
    known: Map<Seq<char>, int>,
    s: Site,
)
    requires
        integer_type(t),
        worth(ctx, inner, t, known) is Some,
        holds(c, s.inst, t, known),
        c.code.len() + length(inner) <= usize::MAX,
    ensures
        expr_code(ctx, c, inner, Some(t)) matches Ok((_, found)) && found == t,
{
    lemma_compiles(ctx, c, inner, t, known, s.inst);
}

proof fn lemma_both_types(
    ctx: Context,
    c: State,
    left: ExprView,
    right: ExprView,
    t: TypeView,
    known: Map<Seq<char>, int>,
    s: Site,
)
    requires
        integer_type(t),
        worth(ctx, left, t, known) is Some,
        worth(ctx, right, t, known) is Some,
        holds(c, s.inst, t, known),
        c.code.len() + length(left) + length(right) <= usize::MAX,
    ensures
        ({
            let (c1, lt) = expr_code(ctx, c, left, Some(t))->Ok_0;
            let (c2, rt) = expr_code(ctx, c1, right, Some(t))->Ok_0;
            &&& expr_code(ctx, c, left, Some(t)) is Ok && lt == t
            &&& expr_code(ctx, c1, right, Some(t)) is Ok && rt == t
            &&& extends(c, c1) && extends(c1, c2)
            &&& holds(c1, s.inst, t, known)
        }),
{
    lemma_compiles(ctx, c, left, t, known, s.inst);
    let c1 = expr_code(ctx, c, left, Some(t))->Ok_0.0;
    assert(holds(c1, s.inst, t, known));
    lemma_compiles(ctx, c1, right, t, known, s.inst);
}

} // verus!
