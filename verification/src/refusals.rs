//! Which programs are refused before any code is emitted for them.
use vstd::prelude::*;
use crate::ast::{ExprView, StatementView};
use crate::codegen::{
    Context, State, container, declared, expr_code, find_export, method_field, repeated_field,
    repeated_initializer, struct_field,
};
use crate::ops::{BinOp, binary_builtin, unary_builtin};
use crate::types::{TypeView, scalar_size_of};

verus! {

/// Whether an expression has no parts.
pub open spec fn is_leaf(e: ExprView) -> bool {
    ||| e is Integer
    ||| e is Float
    ||| e is String
    ||| e is Input
    ||| e is This
    ||| e is Require
    ||| e is GlobalName
    ||| e is Name
}

/// Whether a statement defines something or calls a method.
pub open spec fn is_definition(s: StatementView) -> bool {
    ||| s is Struct
    ||| s is MethodDefinition
    ||| s is ExportLet
    ||| s is ExportStruct
    ||| s is ExportFunction
    ||| s is CallMethod
}

/// Whether a statement binds or changes what a name denotes.
pub open spec fn is_store(s: StatementView) -> bool {
    ||| s is Let
    ||| s is Assign
    ||| s is GlobalAssign
    ||| s is SetIndex
    ||| s is SetField
    ||| s is SetFieldIndex
}

/// Whether a statement prints, branches or loops.
pub open spec fn is_action(s: StatementView) -> bool {
    !(s is Located) && !is_definition(s) && !is_store(s)
}

/// Whether an expression does not compile and is refused before any code.
#[verifier::opaque]
pub open spec fn refused_at_once(
    ctx: Context,
    c: State,
    e: ExprView,
    expected: Option<TypeView>,
) -> bool
    decreases e, 1int,
{
    &&& expr_code(ctx, c, e, expected) is Err
    &&& expr_refused(ctx, c, e, expected)
}

/// Whether an expression, where it does not compile, is refused before any
/// code is emitted for it: a literal that does not fit, an unknown name, a
/// wrong number of arguments, a literal of another type than the expected one,
/// or a first part for which this holds.
pub open spec fn expr_refused(
    ctx: Context,
    c: State,
    e: ExprView,
    expected: Option<TypeView>,
) -> bool
    decreases e, 0int,
{
    match e {
        ExprView::Located { node, .. } => refused_at_once(ctx, c, *node, expected),
        ExprView::Integer(_) => true,
        ExprView::Float(_) => true,
        ExprView::String(_) => true,
        ExprView::Input => true,
        ExprView::This => true,
        ExprView::Require(_) => true,
        ExprView::GlobalName(_) => true,
        ExprView::Name(_) => true,
        ExprView::Array(items) => array_refused(ctx, c, items, expected),
        ExprView::Table(_) => !(expected is Some && expected.unwrap() is Table),
        ExprView::TensorFactory { element, shape, .. } => tensor_refused(
            ctx,
            c,
            element,
            *shape,
            expected,
        ),
        ExprView::StructLiteral(name, fields) => struct_refused(c, name, fields, expected),
        ExprView::Cast(inner, _) => refused_at_once(ctx, c, *inner, None),
        ExprView::Call(name, args) => call_refused(ctx, c, name, args, expected),
        ExprView::Unary(_, inner) => refused_at_once(ctx, c, *inner, expected),
        ExprView::Binary(left, op, _) => refused_at_once(
            ctx,
            c,
            *left,
            expected_left(op, expected),
        ),
        ExprView::Index(container, _) => refused_at_once(ctx, c, *container, None),
        ExprView::Field(container, _) => refused_at_once(ctx, c, *container, None),
    }
}

/// The type that is expected of an operator's left side.
pub open spec fn expected_left(op: BinOp, expected: Option<TypeView>) -> Option<TypeView> {
    if op is And || op is Or {
        Some(TypeView::Bool)
    } else if op is Eq || op is Neq || op is Lt || op is Le || op is Gt || op is Ge {
        None
    } else {
        expected
    }
}

/// Whether a tensor factory is refused before any code: by the expected type or
/// by its shape.
pub open spec fn tensor_refused(
    ctx: Context,
    c: State,
    element: TypeView,
    shape: ExprView,
    expected: Option<TypeView>,
) -> bool
    decreases shape, 2int,
{
    match expected {
        Some(TypeView::Tensor(wanted, _)) => *wanted != element || refused_at_once(
            ctx,
            c,
            shape,
            Some(TypeView::Array(Box::new(TypeView::U64))),
        ),
        _ => true,
    }
}

/// Whether an array literal is refused before any code: another type is
/// expected, no element type is known, the elements cannot be held in a vector,
/// or the first item is refused so.
pub open spec fn array_refused(
    ctx: Context,
    c: State,
    items: Seq<ExprView>,
    expected: Option<TypeView>,
) -> bool
    decreases items, 2int,
{
    match expected {
        Some(TypeView::Array(inner)) => scalar_size_of(*inner) is Err || first_refused(
            ctx,
            c,
            items,
            Some(*inner),
        ),
        Some(_) => true,
        None => items.len() == 0 || first_refused(ctx, c, items, None),
    }
}

/// Whether the first of several expressions is refused before any code.
pub open spec fn first_refused(
    ctx: Context,
    c: State,
    items: Seq<ExprView>,
    expected: Option<TypeView>,
) -> bool
    decreases items, 0int,
{
    items.len() > 0 && refused_at_once(ctx, c, items[0], expected)
}

/// Whether a struct literal is refused before its first initializer.
pub open spec fn struct_refused(
    c: State,
    name: Seq<char>,
    fields: Seq<(Seq<char>, ExprView)>,
    expected: Option<TypeView>,
) -> bool {
    ||| !c.structs.contains_key(name)
    ||| expected is Some && expected.unwrap() != TypeView::Struct(name)
    ||| fields.len() != c.structs[name].fields.len()
    ||| repeated_initializer(fields, 0) is Some
}

/// Whether a call of a built-in function that takes `count` arguments is refused
/// before any code: by its number of arguments or by its first argument.
pub open spec fn builtin_refused(
    ctx: Context,
    c: State,
    args: Seq<ExprView>,
    count: nat,
    expected: Option<TypeView>,
) -> bool
    decreases args, 1int,
{
    args.len() != count || first_refused(ctx, c, args, expected)
}

/// Whether a call of a host function is refused before any code: the function is
/// unknown, its number of arguments is another, or the first one is refused so.
pub open spec fn extern_refused(
    ctx: Context,
    c: State,
    name: Seq<char>,
    args: Seq<ExprView>,
) -> bool
    decreases args, 1int,
{
    ||| !ctx.externs.contains_key(name)
    ||| args.len() != ctx.externs[name].arguments.len()
    ||| first_refused(ctx, c, args, Some(ctx.externs[name].arguments[0]))
}

/// Whether a call is refused before any code.
pub open spec fn call_refused(
    ctx: Context,
    c: State,
    name: Seq<char>,
    args: Seq<ExprView>,
    expected: Option<TypeView>,
) -> bool
    decreases args, 2int,
{
    if name == "len"@ || name == "keys"@ {
        builtin_refused(ctx, c, args, 1, None)
    } else if name == "remove"@ {
        builtin_refused(ctx, c, args, 2, None)
    } else if unary_builtin(name) is Some {
        builtin_refused(ctx, c, args, 1, expected)
    } else if binary_builtin(name) is Some {
        builtin_refused(ctx, c, args, 2, expected)
    } else {
        extern_refused(ctx, c, name, args)
    }
}

/// Whether an assignment to a name is refused before any code.
pub open spec fn assign_refused(ctx: Context, c: State, name: Seq<char>, value: ExprView) -> bool {
    match method_field(c, name) {
        Some(field) => refused_at_once(ctx, c, value, Some(field.ty)),
        None => !c.names.contains_key(name) || refused_at_once(
            ctx,
            c,
            value,
            Some(declared(c.names[name].1)),
        ),
    }
}

/// Whether an assignment to a global name is refused before any code.
pub open spec fn global_assign_refused(
    ctx: Context,
    c: State,
    name: Seq<char>,
    value: ExprView,
) -> bool {
    !c.globals.contains_key(name) || refused_at_once(
        ctx,
        c,
        value,
        Some(declared(c.globals[name].1)),
    )
}

/// Whether a store into an item of what a name denotes is refused before any
/// code: by the name, by its type or by the number of indices.
pub open spec fn set_index_refused(c: State, name: Seq<char>, count: nat) -> bool {
    &&& method_field(c, name) is None
    &&& match container(c, name) {
        Err(_) => true,
        Ok((_, _, t)) => match t {
            TypeView::Array(inner) => count != 1 || scalar_size_of(*inner) is Err,
            TypeView::Table(_) => count != 1,
            TypeView::Tensor(_, rank) => count != rank,
            _ => true,
        },
    }
}

/// Whether a store into a named field is refused before any code.
pub open spec fn set_field_refused(
    ctx: Context,
    c: State,
    name: Seq<char>,
    field: Seq<char>,
    value: ExprView,
) -> bool {
    &&& method_field(c, name) is None
    &&& match container(c, name) {
        Err(_) => true,
        Ok((_, _, t)) => match t {
            TypeView::Struct(struct_name) => match struct_field(c, struct_name, field) {
                Err(_) => true,
                Ok(f) => refused_at_once(ctx, c, value, Some(f.ty)),
            },
            TypeView::Table(element) => refused_at_once(ctx, c, value, Some(*element)),
            _ => true,
        },
    }
}

/// Whether a store into an item of a named field is refused before any code.
pub open spec fn set_field_index_refused(
    ctx: Context,
    c: State,
    name: Seq<char>,
    field: Seq<char>,
    index: ExprView,
) -> bool {
    &&& method_field(c, name) is None
    &&& match container(c, name) {
        Err(_) => true,
        Ok((_, _, t)) => match t {
            TypeView::Struct(struct_name) => match struct_field(c, struct_name, field) {
                Err(_) => true,
                Ok(f) => match f.ty {
                    TypeView::Array(element) => scalar_size_of(*element) is Err || refused_at_once(
                        ctx,
                        c,
                        index,
                        None,
                    ),
                    _ => true,
                },
            },
            _ => true,
        },
    }
}

/// Whether the body of a method is refused before any code.
pub open spec fn method_refused(
    c: State,
    struct_name: Seq<char>,
    method: Seq<char>,
    args: Seq<(Seq<char>, TypeView)>,
) -> bool {
    ||| method == struct_name && args.len() > 0
    ||| !c.methods.contains_key((struct_name, method))
    ||| c.methods[(struct_name, method)] is Some
    ||| !c.structs.contains_key(struct_name)
}

/// Whether a struct is refused before anything of it is declared.
pub open spec fn struct_statement_refused(
    c: State,
    name: Seq<char>,
    fields: Seq<(Seq<char>, TypeView)>,
) -> bool {
    c.structs.contains_key(name) || repeated_field(fields, 0) is Some
}

/// Whether a `printf` is refused before any code.
pub open spec fn printf_refused(
    ctx: Context,
    c: State,
    format: ExprView,
    args: Seq<ExprView>,
) -> bool {
    if args.len() == 0 {
        refused_at_once(ctx, c, format, Some(TypeView::String))
    } else {
        first_refused(ctx, c, args, None)
    }
}

/// Whether a loop over what `first` begins with is refused before any code.
pub open spec fn loop_refused(
    ctx: Context,
    c: State,
    name: Seq<char>,
    first: ExprView,
    expected: Option<TypeView>,
) -> bool {
    c.names.contains_key(name) || refused_at_once(ctx, c, first, expected)
}

/// Whether a statement, where it does not compile, is refused before any code
/// is emitted for it and before anything is declared.
pub open spec fn statement_refused(ctx: Context, c: State, s: StatementView) -> bool
    decreases s,
{
    match s {
        StatementView::Located { node, .. } => statement_refused(ctx, c, *node),
        StatementView::Struct { name, fields, .. } => struct_statement_refused(c, name, fields),
        StatementView::MethodDefinition { struct_name, method, args, .. } => method_refused(
            c,
            struct_name,
            method,
            args,
        ),
        StatementView::ExportLet { ty, expr, .. } => refused_at_once(ctx, c, expr, Some(ty)),
        StatementView::ExportStruct { name, fields, .. } => struct_statement_refused(
            c,
            name,
            fields,
        ),
        StatementView::ExportFunction { name, .. } => find_export(c.exports, name, 0) is Some,
        StatementView::CallMethod { .. } => true,
        StatementView::Let { ty, expr, .. } => refused_at_once(ctx, c, expr, Some(ty)),
        StatementView::Assign { name, expr } => assign_refused(ctx, c, name, expr),
        StatementView::GlobalAssign { name, expr } => global_assign_refused(ctx, c, name, expr),
        StatementView::SetIndex { name, indices, .. } => set_index_refused(c, name, indices.len()),
        StatementView::SetField { name, field, expr } => set_field_refused(
            ctx,
            c,
            name,
            field,
            expr,
        ),
        StatementView::SetFieldIndex { name, field, index, .. } => set_field_index_refused(
            ctx,
            c,
            name,
            field,
            index,
        ),
        StatementView::Print(expr) => refused_at_once(ctx, c, expr, None),
        StatementView::Printf { format, args } => printf_refused(ctx, c, format, args),
        StatementView::Putc(expr) => refused_at_once(ctx, c, expr, None),
        StatementView::If { condition, .. } => refused_at_once(ctx, c, condition, None),
        StatementView::While { condition, .. } => refused_at_once(ctx, c, condition, None),
        StatementView::For { name, start, .. } => loop_refused(
            ctx,
            c,
            name,
            start,
            Some(TypeView::I32),
        ),
        StatementView::ForIn { name, iterable, .. } => loop_refused(ctx, c, name, iterable, None),
        StatementView::Break => true,
        StatementView::Continue => true,
    }
}

} // verus!
