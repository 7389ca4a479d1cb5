//! Laws of compilation.
use vstd::prelude::*;
use crate::ast::{ExprView, KeyLiteralView, ReceiverView, StatementView};
use crate::code::{ArtifactView, EntryView, ExportView};
use crate::codegen::{
    Context, FileView, State, arguments_code, array_code, binary_code, bind_name, builtin1_code,
    builtin2_code, call_code, call_method_code, close_scope, coerced, destructor_calls,
    destructor_target, emit, emit_call, entries_code, expr_code, extern_code, field_code,
    find_export, find_file, find_initializer, import_structs, index_code, indices_code,
    initializers_code, is_extension, items_code, key_code, keys_code, len_code, let_code,
    literal_key_code, load_module, logical_code, method_field, rebound, remaining, remove_code,
    scoped_code, statement_code, struct_code, table_code, tensor_code, text_in,
};
use crate::ir::OpView;
use crate::lexer::StringId;
use crate::ops::{BinOp, BuiltinFn, binary_builtin, unary_builtin};
use crate::text::decimal;
use crate::types::{ErrorView, Type, TypeView, compatible, float_type, type_text};
use crate::value::{FieldView, LayoutView, Value};

verus! {

/// What an expression may do to the state of the compiler: add code that stores
/// into no local, and make modules known.
pub open spec fn extends(c: State, c1: State) -> bool {
    &&& c1 == (State { code: c1.code, artifacts: c1.artifacts, ..c })
    &&& c.code.len() <= c1.code.len()
    &&& forall|k: int| 0 <= k < c.code.len() ==> #[trigger] c1.code[k] == c.code[k]
    &&& forall|k: int| c.code.len() <= k < c1.code.len() ==> !(#[trigger] c1.code[k] is Store)
}

/// As long as positions in the code fit the machine.
pub open spec fn grows(c: State, c1: State) -> bool {
    c1.code.len() <= usize::MAX ==> extends(c, c1)
}

#[verifier::spinoff_prover]
proof fn items_grow(ctx: Context, c: State, items: Seq<ExprView>, i: int, element: TypeView)
    ensures
        match items_code(ctx, c, items, i, element) {
            Ok(c1) => grows(c, c1),
            Err(_) => true,
        },
    decreases remaining(ctx.files, ctx.compiling), 0int, items, items.len() - i,
{
    if 0 <= i < items.len() {
        match expr_code(ctx, c, items[i], Some(element)) {
            Ok((c1, _)) => {
                items_grow(ctx, c1, items, i + 1, element);
                expr_grows(ctx, c, items[i], Some(element));
            },
            Err(_) => {},
        }
    }
}

#[verifier::spinoff_prover]
proof fn array_grows(ctx: Context, c: State, items: Seq<ExprView>, expected: Option<TypeView>)
    ensures
        match array_code(ctx, c, items, expected) {
            Ok((c1, _)) => grows(c, c1),
            Err(_) => true,
        },
    decreases remaining(ctx.files, ctx.compiling), 0int, items, items.len() + 1,
{
    match expected {
        Some(t) => {
            if let TypeView::Array(element) = t {
                items_grow(ctx, c, items, 0, *element);
            }
        },
        None => {
            if items.len() > 0 {
                match expr_code(ctx, c, items[0], None) {
                    Ok((c1, element)) => {
                        items_grow(ctx, c1, items, 1, element);
                        expr_grows(ctx, c, items[0], None);
                    },
                    Err(_) => {},
                }
            }
        },
    }
}

#[verifier::spinoff_prover]
pub(crate) proof fn key_grows(ctx: Context, c: State, key: ExprView)
    ensures
        match key_code(ctx, c, key) {
            Ok(c1) => grows(c, c1),
            Err(_) => true,
        },
    decreases remaining(ctx.files, ctx.compiling), 0int, key, 51int,
{
    expr_grows(ctx, c, key, None);
}

#[verifier::spinoff_prover]
proof fn literal_key_grows(ctx: Context, c: State, key: KeyLiteralView)
    ensures
        match literal_key_code(ctx, c, key) {
            Ok((c1, _)) => grows(c, c1),
            Err(_) => true,
        },
    decreases remaining(ctx.files, ctx.compiling), 0int, key, 0int,
{
    match key {
        KeyLiteralView::Name(_) => {},
        KeyLiteralView::Index(index) => {
            key_grows(ctx, c, index);
        },
    }
}

#[verifier::spinoff_prover]
proof fn entries_grow(
    ctx: Context,
    c: State,
    items: Seq<(KeyLiteralView, ExprView)>,
    i: int,
    element: TypeView,
    entries: Seq<EntryView>,
)
    ensures
        match entries_code(ctx, c, items, i, element, entries) {
            Ok((c1, _)) => grows(c, c1),
            Err(_) => true,
        },
    decreases remaining(ctx.files, ctx.compiling), 0int, items, items.len() - i,
{
    if 0 <= i < items.len() {
        match literal_key_code(ctx, c, items[i].0) {
            Ok((c1, entry)) => {
                match expr_code(ctx, c1, items[i].1, Some(element)) {
                    Ok((c2, _)) => {
                        entries_grow(ctx, c2, items, i + 1, element, entries.push(entry));
                        expr_grows(ctx, c1, items[i].1, Some(element));
                    },
                    Err(_) => {},
                }
                literal_key_grows(ctx, c, items[i].0);
            },
            Err(_) => {},
        }
    }
}

#[verifier::spinoff_prover]
proof fn table_grows(
    ctx: Context,
    c: State,
    items: Seq<(KeyLiteralView, ExprView)>,
    expected: Option<TypeView>,
)
    ensures
        match table_code(ctx, c, items, expected) {
            Ok((c1, _)) => grows(c, c1),
            Err(_) => true,
        },
    decreases remaining(ctx.files, ctx.compiling), 0int, items, items.len() + 1,
{
    match expected {
        Some(t) => {
            if let TypeView::Table(element) = t {
                entries_grow(ctx, c, items, 0, *element, Seq::empty());
            }
        },
        None => {},
    }
}

#[verifier::spinoff_prover]
proof fn tensor_grows(
    ctx: Context,
    c: State,
    name: Seq<char>,
    element: TypeView,
    shape: ExprView,
    expected: Option<TypeView>,
)
    ensures
        match tensor_code(ctx, c, name, element, shape, expected) {
            Ok((c1, _)) => grows(c, c1),
            Err(_) => true,
        },
    decreases remaining(ctx.files, ctx.compiling), 0int, shape, 51int,
{
    expr_grows(ctx, c, shape, Some(TypeView::Array(Box::new(TypeView::U64))));
}

#[verifier::spinoff_prover]
proof fn initializers_grow(
    ctx: Context,
    c: State,
    name: Seq<char>,
    layout: Seq<FieldView>,
    k: int,
    fields: Seq<(Seq<char>, ExprView)>,
)
    ensures
        match initializers_code(ctx, c, name, layout, k, fields) {
            Ok(c1) => grows(c, c1),
            Err(_) => true,
        },
    decreases remaining(ctx.files, ctx.compiling), 0int, fields, layout.len() - k,
{
    if 0 <= k < layout.len() {
        let j = find_initializer(fields, layout[k].name, 0);
        if 0 <= j < fields.len() {
            match expr_code(ctx, c, fields[j].1, Some(layout[k].ty)) {
                Ok((c1, _)) => {
                    initializers_grow(ctx, c1, name, layout, k + 1, fields);
                    expr_grows(ctx, c, fields[j].1, Some(layout[k].ty));
                },
                Err(_) => {},
            }
        }
    }
}

#[verifier::spinoff_prover]
proof fn struct_grows(
    ctx: Context,
    c: State,
    name: Seq<char>,
    fields: Seq<(Seq<char>, ExprView)>,
    expected: Option<TypeView>,
)
    ensures
        match struct_code(ctx, c, name, fields, expected) {
            Ok((c1, _)) => grows(c, c1),
            Err(_) => true,
        },
    decreases remaining(ctx.files, ctx.compiling), 0int, fields, (if c.structs.contains_key(name) {
        c.structs[name].fields.len() + 1
    } else {
        0
    }),
{
    if c.structs.contains_key(name) {
        initializers_grow(ctx, c, name, c.structs[name].fields, 0, fields);
    }
}

#[verifier::spinoff_prover]
pub(crate) proof fn indices_grow(ctx: Context, c: State, indices: Seq<ExprView>, i: int)
    ensures
        match indices_code(ctx, c, indices, i) {
            Ok(c1) => grows(c, c1),
            Err(_) => true,
        },
    decreases remaining(ctx.files, ctx.compiling), 0int, indices, indices.len() - i,
{
    if 0 <= i < indices.len() {
        match expr_code(ctx, c, indices[i], None) {
            Ok((c1, _)) => {
                indices_grow(ctx, c1, indices, i + 1);
                expr_grows(ctx, c, indices[i], None);
            },
            Err(_) => {},
        }
    }
}

#[verifier::spinoff_prover]
proof fn index_grows(ctx: Context, c: State, t: TypeView, indices: Seq<ExprView>)
    ensures
        match index_code(ctx, c, t, indices) {
            Ok((c1, _)) => grows(c, c1),
            Err(_) => true,
        },
    decreases remaining(ctx.files, ctx.compiling), 0int, indices, indices.len() + 1,
{
    indices_grow(ctx, c, indices, 0);
    if indices.len() == 1 {
        key_grows(ctx, c, indices[0]);
    }
}

#[verifier::spinoff_prover]
proof fn arguments_grow(
    ctx: Context,
    c: State,
    name: Seq<char>,
    args: Seq<ExprView>,
    types: Seq<TypeView>,
    i: int,
)
    ensures
        match arguments_code(ctx, c, name, args, types, i) {
            Ok(c1) => grows(c, c1),
            Err(_) => true,
        },
    decreases remaining(ctx.files, ctx.compiling), 0int, args, args.len() - i,
{
    if 0 <= i < args.len() && i < types.len() {
        match expr_code(ctx, c, args[i], Some(types[i])) {
            Ok((c1, _)) => {
                arguments_grow(ctx, c1, name, args, types, i + 1);
                expr_grows(ctx, c, args[i], Some(types[i]));
            },
            Err(_) => {},
        }
    }
}

#[verifier::spinoff_prover]
proof fn builtin1_grows(
    ctx: Context,
    c: State,
    name: Seq<char>,
    f: BuiltinFn,
    args: Seq<ExprView>,
    expected: Option<TypeView>,
)
    ensures
        match builtin1_code(ctx, c, name, f, args, expected) {
            Ok((c1, _)) => grows(c, c1),
            Err(_) => true,
        },
    decreases remaining(ctx.files, ctx.compiling), 0int, args, args.len() + 1,
{
    if args.len() == 1 {
        expr_grows(ctx, c, args[0], expected);
    }
}

#[verifier::spinoff_prover]
proof fn builtin2_grows(
    ctx: Context,
    c: State,
    name: Seq<char>,
    f: BuiltinFn,
    args: Seq<ExprView>,
    expected: Option<TypeView>,
)
    ensures
        match builtin2_code(ctx, c, name, f, args, expected) {
            Ok((c1, _)) => grows(c, c1),
            Err(_) => true,
        },
    decreases remaining(ctx.files, ctx.compiling), 0int, args, args.len() + 1,
{
    if args.len() == 2 {
        match expr_code(ctx, c, args[0], expected) {
            Ok((c1, t1)) => {
                expr_grows(ctx, c1, args[1], Some(t1));
                expr_grows(ctx, c, args[0], expected);
            },
            Err(_) => {},
        }
    }
}

#[verifier::spinoff_prover]
proof fn len_grows(ctx: Context, c: State, args: Seq<ExprView>)
    ensures
        match len_code(ctx, c, args) {
            Ok((c1, _)) => grows(c, c1),
            Err(_) => true,
        },
    decreases remaining(ctx.files, ctx.compiling), 0int, args, args.len() + 1,
{
    if args.len() == 1 {
        expr_grows(ctx, c, args[0], None);
    }
}

#[verifier::spinoff_prover]
proof fn keys_grows(ctx: Context, c: State, args: Seq<ExprView>)
    ensures
        match keys_code(ctx, c, args) {
            Ok((c1, _)) => grows(c, c1),
            Err(_) => true,
        },
    decreases remaining(ctx.files, ctx.compiling), 0int, args, args.len() + 1,
{
    if args.len() == 1 {
        expr_grows(ctx, c, args[0], None);
    }
}

#[verifier::spinoff_prover]
proof fn remove_grows(ctx: Context, c: State, args: Seq<ExprView>)
    ensures
        match remove_code(ctx, c, args) {
            Ok((c1, _)) => grows(c, c1),
            Err(_) => true,
        },
    decreases remaining(ctx.files, ctx.compiling), 0int, args, args.len() + 1,
{
    if args.len() == 2 {
        match expr_code(ctx, c, args[0], None) {
            Ok((c1, _)) => {
                key_grows(ctx, c1, args[1]);
                expr_grows(ctx, c, args[0], None);
            },
            Err(_) => {},
        }
    }
}

#[verifier::spinoff_prover]
proof fn extern_grows(ctx: Context, c: State, name: Seq<char>, args: Seq<ExprView>)
    ensures
        match extern_code(ctx, c, name, args) {
            Ok((c1, _)) => grows(c, c1),
            Err(_) => true,
        },
    decreases remaining(ctx.files, ctx.compiling), 0int, args, args.len() + 1,
{
    if ctx.externs.contains_key(name) {
        arguments_grow(ctx, c, name, args, ctx.externs[name].arguments, 0);
    }
}

#[verifier::spinoff_prover]
proof fn call_grows(
    ctx: Context,
    c: State,
    name: Seq<char>,
    args: Seq<ExprView>,
    expected: Option<TypeView>,
)
    ensures
        match call_code(ctx, c, name, args, expected) {
            Ok((c1, _)) => grows(c, c1),
            Err(_) => true,
        },
    decreases remaining(ctx.files, ctx.compiling), 0int, args, args.len() + 2,
{
    if name == "len"@ {
        len_grows(ctx, c, args);
    } else if name == "keys"@ {
        keys_grows(ctx, c, args);
    } else if name == "remove"@ {
        remove_grows(ctx, c, args);
    } else if unary_builtin(name) is Some {
        builtin1_grows(ctx, c, name, unary_builtin(name).unwrap(), args, expected);
    } else if binary_builtin(name) is Some {
        builtin2_grows(ctx, c, name, binary_builtin(name).unwrap(), args, expected);
    } else {
        extern_grows(ctx, c, name, args);
    }
}

#[verifier::spinoff_prover]
proof fn logical_grows(ctx: Context, c: State, e: ExprView)
    ensures
        match logical_code(ctx, c, e) {
            Ok((c1, _)) => grows(c, c1),
            Err(_) => true,
        },
    decreases remaining(ctx.files, ctx.compiling), 0int, e, 40int,
{
    if let ExprView::Binary(left, op, right) = e {
        match expr_code(ctx, c, *left, Some(TypeView::Bool)) {
            Ok((c1, _)) => {
                let c2 = emit(
                    c1,
                    if op is And {
                        OpView::JumpIfFalseKeep(usize::MAX)
                    } else {
                        OpView::JumpIfTrueKeep(usize::MAX)
                    },
                );
                expr_grows(ctx, c2, *right, Some(TypeView::Bool));
                expr_grows(ctx, c, *left, Some(TypeView::Bool));
            },
            Err(_) => {},
        }
    }
}

#[verifier::spinoff_prover]
proof fn binary_grows(ctx: Context, c: State, e: ExprView, expected: Option<TypeView>)
    ensures
        match binary_code(ctx, c, e, expected) {
            Ok((c1, _)) => grows(c, c1),
            Err(_) => true,
        },
    decreases remaining(ctx.files, ctx.compiling), 0int, e, 40int,
{
    if let ExprView::Binary(left, op, right) = e {
        let left_expected = if op is Eq || op is Neq || op is Lt || op is Le || op is Gt || op is Ge {
            None
        } else {
            expected
        };
        match expr_code(ctx, c, *left, left_expected) {
            Ok((c1, lt)) => {
                expr_grows(ctx, c1, *right, Some(lt));
                expr_grows(ctx, c, *left, left_expected);
            },
            Err(_) => {},
        }
    }
}

#[verifier::spinoff_prover]
pub(crate) proof fn expr_grows(ctx: Context, c: State, e: ExprView, expected: Option<TypeView>)
    ensures
        match expr_code(ctx, c, e, expected) {
            Ok((c1, _)) => grows(c, c1),
            Err(_) => true,
        },
    decreases remaining(ctx.files, ctx.compiling), 0int, e, 50int,
{
    match e {
        ExprView::Located { node, .. } => {
            expr_grows(ctx, c, *node, expected);
        },
        ExprView::Array(items) => {
            array_grows(ctx, c, items, expected);
        },
        ExprView::Table(items) => {
            table_grows(ctx, c, items, expected);
        },
        ExprView::TensorFactory { name, element, shape } => {
            tensor_grows(ctx, c, name, element, *shape, expected);
        },
        ExprView::StructLiteral(name, fields) => {
            struct_grows(ctx, c, name, fields, expected);
        },
        ExprView::Cast(inner, _) => {
            expr_grows(ctx, c, *inner, None);
        },
        ExprView::Call(name, args) => {
            call_grows(ctx, c, name, args, expected);
        },
        ExprView::Unary(_, inner) => {
            expr_grows(ctx, c, *inner, expected);
        },
        ExprView::Binary(_, op, _) => {
            if op is And || op is Or {
                logical_grows(ctx, c, e);
            } else {
                binary_grows(ctx, c, e, expected);
            }
        },
        ExprView::Index(container, indices) => {
            match expr_code(ctx, c, *container, None) {
                Ok((c1, t)) => {
                    index_grows(ctx, c1, t, indices);
                    expr_grows(ctx, c, *container, None);
                },
                Err(_) => {},
            }
        },
        ExprView::Field(container, _) => {
            expr_grows(ctx, c, *container, None);
        },
        ExprView::Require(path) => {
            assert(load_module(ctx, c, path, e) matches Ok((c1, _)) ==> c1.code == c.code);
        },
        _ => {},
    }
}

/// An expression declares nothing: compiling it leaves names, structs, methods,
/// blocks and loops as they were, and adds code after the code that is there.
pub proof fn expressions_only_add_code(
    ctx: Context,
    c: State,
    e: ExprView,
    expected: Option<TypeView>,
)
    requires
        expr_code(ctx, c, e, expected) matches Ok((c1, _)) && c1.code.len() <= usize::MAX,
    ensures
        extends(c, expr_code(ctx, c, e, expected)->Ok_0.0),
{
    expr_grows(ctx, c, e, expected);
}

/// `&&` and `||` evaluate their right side only when it is needed: between the
/// code of the two sides stands a jump to the end, taken when the left side
/// decides, and the code of the left side and of the right side is kept.
#[verifier::spinoff_prover]
pub proof fn logical_operators_jump_over_their_right_side(
    ctx: Context,
    c: State,
    left: ExprView,
    op: BinOp,
    right: ExprView,
    expected: Option<TypeView>,
)
    requires
        op is And || op is Or,
        expr_code(
            ctx,
            c,
            ExprView::Binary(Box::new(left), op, Box::new(right)),
            expected,
        ) matches Ok((done, _)) && done.code.len() <= usize::MAX,
    ensures
        ({
            let done = expr_code(
                ctx,
                c,
                ExprView::Binary(Box::new(left), op, Box::new(right)),
                expected,
            )->Ok_0.0;
            let at = expr_code(ctx, c, left, Some(TypeView::Bool))->Ok_0.0;
            let end = done.code.len();
            let jump = |to: usize|
                if op is And {
                    OpView::JumpIfFalseKeep(to)
                } else {
                    OpView::JumpIfTrueKeep(to)
                };
            let whole = expr_code(
                ctx,
                emit(at, jump(usize::MAX)),
                right,
                Some(TypeView::Bool),
            )->Ok_0.0;
            &&& at.code.len() < end
            &&& done.code[at.code.len() as int] == jump(end as usize)
            &&& forall|k: int| 0 <= k < at.code.len() ==> #[trigger] done.code[k] == at.code[k]
            &&& whole.code.len() == end
            &&& forall|k: int| at.code.len() < k < end ==> #[trigger] done.code[k] == whole.code[k]
        }),
{
    let e = ExprView::Binary(Box::new(left), op, Box::new(right));
    assert(expr_code(ctx, c, e, expected) == logical_code(ctx, c, e));
    match expr_code(ctx, c, left, Some(TypeView::Bool)) {
        Ok((at, _)) => {
            let c2 = emit(
                at,
                if op is And {
                    OpView::JumpIfFalseKeep(usize::MAX)
                } else {
                    OpView::JumpIfTrueKeep(usize::MAX)
                },
            );
            expr_grows(ctx, c2, right, Some(TypeView::Bool));
            expr_grows(ctx, c, left, Some(TypeView::Bool));
            assert(c2.code[at.code.len() as int] == c2.code.last());
            assert forall|k: int| 0 <= k < at.code.len() implies c2.code[k] == at.code[k] by {}
        },
        Err(_) => {},
    }
}

/// A block's names do not outlive it, and the slots of its locals are free
/// again after it.
pub proof fn block_locals_do_not_escape(ctx: Context, c: State, body: Seq<StatementView>)
    requires
        scoped_code(ctx, c, body) is Ok,
    ensures
        ({
            let done = scoped_code(ctx, c, body)->Ok_0;
            &&& done.names == c.names
            &&& done.next_slot == c.next_slot
            &&& done.nested == c.nested
        }),
{
}

proof fn lemma_destructor_calls(c: State, locals: Seq<(usize, Seq<char>)>, i: int)
    requires
        0 <= i <= locals.len(),
    ensures
        ({
            let done = destructor_calls(c, locals, i);
            &&& done.methods == c.methods
            &&& done.code.len() == c.code.len() + 2 * (locals.len() - i)
            &&& forall|k: int| 0 <= k < c.code.len() ==> #[trigger] done.code[k] == c.code[k]
            &&& forall|j: int|
                #![trigger locals[j]]
                i <= j < locals.len() ==> {
                    &&& done.code[c.code.len() + 2 * (j - i)] == OpView::UntrackDestructor(
                        locals[j].0,
                    )
                    &&& done.code[c.code.len() + 2 * (j - i) + 1] == OpView::CallMethod(
                        locals[j].0,
                        destructor_target(c, locals[j].1),
                    )
                }
        }),
    decreases locals.len() - i,
{
    if i < locals.len() {
        let (slot, name) = locals[i];
        let c1 = emit(c, OpView::UntrackDestructor(slot));
        let target = destructor_target(c1, name);
        let c2 = emit_call(c1, OpView::CallMethod(slot, target), target, name, name);
        lemma_destructor_calls(c2, locals, i + 1);
        let done = destructor_calls(c, locals, i);
        assert(c2.code == c.code.push(OpView::UntrackDestructor(slot)).push(
            OpView::CallMethod(slot, target),
        ));
        assert forall|k: int| 0 <= k < c.code.len() implies #[trigger] done.code[k] == c.code[k] by {
            assert(done.code[k] == c2.code[k]);
        }
        assert forall|j: int|
            #![trigger locals[j]]
            i <= j < locals.len() implies {
            &&& done.code[c.code.len() + 2 * (j - i)] == OpView::UntrackDestructor(locals[j].0)
            &&& done.code[c.code.len() + 2 * (j - i) + 1] == OpView::CallMethod(
                locals[j].0,
                destructor_target(c, locals[j].1),
            )
        } by {
            if j == i {
                assert(done.code[c.code.len() as int] == c2.code[c.code.len() as int]);
                let at = c.code.len() as int + 1;
                assert(done.code[at] == c2.code[at]);
            } else {
                assert(c2.code.len() + 2 * (j - (i + 1)) == c.code.len() + 2 * (j - i));
            }
        }
    }
}

/// At the end of a block the structs in it are destroyed, the latest first: for
/// the `j`th from the end the tracking ends and its destructor is called.
pub proof fn blocks_destroy_in_reverse_order(c: State, j: int)
    requires
        c.scopes.len() > 0,
        0 <= j < c.scopes.last().len(),
    ensures
        ({
            let locals = c.scopes.last();
            let (slot, name) = locals[locals.len() - 1 - j];
            let done = close_scope(c)->Ok_0;
            &&& close_scope(c) is Ok
            &&& done.code.len() == c.code.len() + 2 * locals.len()
            &&& done.code[c.code.len() + 2 * j] == OpView::UntrackDestructor(slot)
            &&& done.code[c.code.len() + 2 * j + 1] == OpView::CallMethod(
                slot,
                destructor_target(c, name),
            )
        }),
{
    let locals = c.scopes.last().reverse();
    lemma_destructor_calls(c, locals, 0);
    assert(locals[j] == c.scopes.last()[c.scopes.last().len() - 1 - j]);
}

/// A float literal cannot stand for a value of another kind of type.
pub proof fn float_literals_need_a_float_type(ctx: Context, c: State, id: StringId, t: TypeView)
    requires
        !float_type(t),
    ensures
        expr_code(ctx, c, ExprView::Float(id), Some(t)) == Err::<(State, TypeView), ErrorView>(
            ErrorView::Type("float literal cannot initialize "@ + type_text(t)),
        ),
{
}

/// A call of a host function with the wrong number of arguments is refused
/// before anything runs.
pub proof fn wrong_argument_counts_are_refused(
    ctx: Context,
    c: State,
    name: Seq<char>,
    args: Seq<ExprView>,
)
    requires
        ctx.externs.contains_key(name),
        args.len() != ctx.externs[name].arguments.len(),
    ensures
        extern_code(ctx, c, name, args) == Err::<(State, TypeView), ErrorView>(
            ErrorView::Type(
                name + " expects "@ + decimal(ctx.externs[name].arguments.len() as int)
                    + " argument(s)"@,
            ),
        ),
{
}

/// An import by an absolute path is refused, and so is one that leads out of
/// the module root.
pub proof fn imports_stay_below_the_root(
    ctx: Context,
    c: State,
    path: Seq<char>,
    node: ExprView,
)
    requires
        !is_extension(path),
        ctx.rooted,
        0 <= find_file(ctx.files, path, 0) < ctx.files.len(),
    ensures
        ctx.files[find_file(ctx.files, path, 0)].1 is Absolute ==> load_module(ctx, c, path, node)
            == Err::<(State, ArtifactView), ErrorView>(
            ErrorView::Type("module path must be relative"@),
        ),
        ctx.files[find_file(ctx.files, path, 0)].1 is Escapes ==> load_module(ctx, c, path, node)
            == Err::<(State, ArtifactView), ErrorView>(
            ErrorView::Type("module '"@ + path + "' escapes the module root"@),
        ),
{
}

/// A module that imports itself, directly or through others, is refused.
pub proof fn cyclic_imports_are_refused(
    ctx: Context,
    c: State,
    path: Seq<char>,
    node: ExprView,
)
    requires
        !is_extension(path),
        ctx.rooted,
        0 <= find_file(ctx.files, path, 0) < ctx.files.len(),
        ctx.files[find_file(ctx.files, path, 0)].1 matches FileView::Found { id, .. }
            && ctx.compiling.contains(id) && !c.artifacts.contains_key(id),
    ensures
        load_module(ctx, c, path, node) matches Err(e) && e == ErrorView::Type(
            "cyclic module import involving '"@ + path + "'"@,
        ),
{
}

/// A module is compiled once: a second import gives the same artifact and
/// leaves the compiler as it was.
pub proof fn modules_are_compiled_once(
    ctx: Context,
    c: State,
    path: Seq<char>,
    node: ExprView,
)
    requires
        load_module(ctx, c, path, node) is Ok,
    ensures
        ({
            let (c1, artifact) = load_module(ctx, c, path, node)->Ok_0;
            load_module(ctx, c1, path, node) matches Ok((c2, again)) && c2 == c1 && again
                == artifact
        }),
{
    if is_extension(path) {
        let (c1, artifact) = load_module(ctx, c, path, node)->Ok_0;
        assert(c1.artifacts.insert(path, artifact) =~= c1.artifacts);
    }
}

/// Importing structs touches the structs alone.
pub(crate) proof fn imports_add_structs(
    c: State,
    binding: Seq<char>,
    exports: Seq<(Seq<char>, ExportView)>,
    i: int,
)
    ensures
        match import_structs(c, binding, exports, i) {
            Ok(c1) => c1 == (State { structs: c1.structs, ..c }),
            Err(_) => true,
        },
    decreases exports.len() - i,
{
    if 0 <= i < exports.len() {
        match exports[i].1 {
            ExportView::Struct(layout) => {
                let alias = binding + "."@ + exports[i].0;
                imports_add_structs(
                    State {
                        structs: c.structs.insert(alias, LayoutView { name: alias, ..layout }),
                        ..c
                    },
                    binding,
                    exports,
                    i + 1,
                );
            },
            _ => {
                imports_add_structs(c, binding, exports, i + 1);
            },
        }
    }
}

/// The modules that are known stand under their own ids.
pub open spec fn filed(c: State) -> bool {
    forall|id: Seq<char>| #[trigger]
        c.artifacts.contains_key(id) ==> c.artifacts[id].id == id
}

/// A module that has been loaded is known by its id from then on, and nothing
/// else has changed.
pub proof fn loaded_modules_are_known(ctx: Context, c: State, path: Seq<char>, node: ExprView)
    requires
        filed(c),
    ensures
        match load_module(ctx, c, path, node) {
            Ok((c1, artifact)) => filed(c1) && c1 == (State { artifacts: c1.artifacts, ..c })
                && c1.artifacts.contains_key(artifact.id) && c1.artifacts[artifact.id] == artifact,
            Err(_) => true,
        },
{
}

/// A name that is given a module knows it.
proof fn modules_are_bound(c: State, text: Seq<char>, id: Seq<char>)
    ensures
        match bind_name(c, text, TypeView::Module(Seq::empty()), TypeView::Module(id)) {
            Ok(bound) => bound.names.contains_key(text) && bound.names[text].1
                == TypeView::Module(id) && bound.artifacts == c.artifacts && bound.method_fields
                == c.method_fields,
            Err(_) => true,
        },
{
    let module = TypeView::Module(id);
    let slot = if c.names.contains_key(text) {
        c.names[text].0
    } else {
        c.next_slot
    };
    let c1 = if c.names.contains_key(text) {
        rebound(c, text, slot, module)
    } else {
        State {
            names: c.names.insert(text, (slot, module)),
            globals: if c.nested {
                c.globals
            } else {
                c.globals.insert(text, (slot, module))
            },
            next_slot: c.next_slot.wrapping_add(1),
            ..c
        }
    };
    imports_add_structs(c1, text, c1.artifacts[id].exports, 0);
}

proof fn requires_load(
    ctx: Context,
    c: State,
    path: Seq<char>,
    expected: Option<TypeView>,
)
    ensures
        expr_code(ctx, c, ExprView::Require(path), expected) == (match load_module(
            ctx,
            c,
            path,
            ExprView::Require(path),
        ) {
            Err(x) => Err::<(State, TypeView), ErrorView>(x),
            Ok((c1, artifact)) => Ok(
                (
                    emit(c1, OpView::Require(Box::new(artifact))),
                    TypeView::Module(artifact.id),
                ),
            ),
        }),
{
}

/// A name that holds a module knows it, and so does the compiler.
#[verifier::spinoff_prover]
proof fn bound_modules_are_known(ctx: Context, c: State, text: Seq<char>, path: Seq<char>)
    requires
        filed(c),
        let_code(ctx, c, text, TypeView::Module(Seq::empty()), ExprView::Require(path)) is Ok,
    ensures
        load_module(ctx, c, path, ExprView::Require(path)) is Ok,
        ({
            let artifact = load_module(ctx, c, path, ExprView::Require(path))->Ok_0.1;
            let bound = let_code(
                ctx,
                c,
                text,
                TypeView::Module(Seq::empty()),
                ExprView::Require(path),
            )->Ok_0;
            &&& bound.names.contains_key(text)
            &&& bound.names[text].1 == TypeView::Module(artifact.id)
            &&& bound.artifacts.contains_key(artifact.id)
            &&& bound.artifacts[artifact.id] == artifact
            &&& bound.method_fields == c.method_fields
        }),
{
    let require = ExprView::Require(path);
    let nothing = TypeView::Module(Seq::<char>::empty());
    requires_load(ctx, c, path, Some(nothing));
    loaded_modules_are_known(ctx, c, path, require);
    let (c1, artifact) = load_module(ctx, c, path, require)->Ok_0;
    let c2 = emit(c1, OpView::Require(Box::new(artifact)));
    assert(coerced(c2, nothing, TypeView::Module(artifact.id)) == c2);
    modules_are_bound(c2, text, artifact.id);
}

proof fn name_is_loaded(ctx: Context, c: State, name: StringId)
    requires
        method_field(c, text_in(ctx, name)) is None,
        c.names.contains_key(text_in(ctx, name)),
    ensures
        expr_code(ctx, c, ExprView::Name(name), None) == Ok::<(State, TypeView), ErrorView>(
            (
                emit(c, OpView::Load(c.names[text_in(ctx, name)].0)),
                c.names[text_in(ctx, name)].1,
            ),
        ),
{
}

proof fn named_fields(ctx: Context, c: State, name: StringId, field: Seq<char>)
    requires
        expr_code(ctx, c, ExprView::Name(name), None) is Ok,
    ensures
        expr_code(ctx, c, ExprView::Field(Box::new(ExprView::Name(name)), field), None) == ({
            let (c1, t) = expr_code(ctx, c, ExprView::Name(name), None)->Ok_0;
            field_code(c1, t, field)
        }),
{
}

/// What a module exports is reached through the name that the module was bound
/// to: an exported value is read through it and an exported function is called
/// through it, and whatever the module does not export is refused.
pub proof fn modules_are_reached_through_their_name(
    ctx: Context,
    c: State,
    name: StringId,
    path: Seq<char>,
    exported: Seq<char>,
)
    requires
        filed(c),
        let_code(
            ctx,
            c,
            text_in(ctx, name),
            TypeView::Module(Seq::empty()),
            ExprView::Require(path),
        ) is Ok,
        method_field(c, text_in(ctx, name)) is None,
    ensures
        load_module(ctx, c, path, ExprView::Require(path)) is Ok,
        ({
            let artifact = load_module(ctx, c, path, ExprView::Require(path))->Ok_0.1;
            let bound = let_code(
                ctx,
                c,
                text_in(ctx, name),
                TypeView::Module(Seq::empty()),
                ExprView::Require(path),
            )->Ok_0;
            let slot = bound.names[text_in(ctx, name)].0;
            let read = expr_code(
                ctx,
                bound,
                ExprView::Field(Box::new(ExprView::Name(name)), exported),
                None,
            );
            let call = call_method_code(bound, ReceiverView::Name(text_in(ctx, name)), exported);
            match find_export(artifact.exports, exported, 0) {
                Some(ExportView::Value { ty, .. }) => read == Ok::<(State, TypeView), ErrorView>(
                    (
                        emit(emit(bound, OpView::Load(slot)), OpView::ModuleField(exported)),
                        ty,
                    ),
                ) && call is Err,
                Some(ExportView::Function { .. }) => read is Err && call == Ok::<State, ErrorView>(
                    emit(bound, OpView::CallModule(slot, exported)),
                ),
                _ => read is Err && call is Err,
            }
        }),
{
    let text = text_in(ctx, name);
    let artifact = load_module(ctx, c, path, ExprView::Require(path))->Ok_0.1;
    bound_modules_are_known(ctx, c, text, path);
    let bound = let_code(
        ctx,
        c,
        text,
        TypeView::Module(Seq::empty()),
        ExprView::Require(path),
    )->Ok_0;
    name_is_loaded(ctx, bound, name);
    named_fields(ctx, bound, name, exported);
}

/// An argument of a host function whose type does not fit is refused before
/// anything runs, where the arguments before it fit.
pub proof fn wrong_argument_types_are_refused(
    ctx: Context,
    c: State,
    name: Seq<char>,
    args: Seq<ExprView>,
    k: int,
    c1: State,
    c2: State,
    found: TypeView,
)
    requires
        ctx.externs.contains_key(name),
        args.len() == ctx.externs[name].arguments.len(),
        0 <= k < args.len(),
        arguments_reach(ctx, c, name, args, ctx.externs[name].arguments, 0, k, c1),
        expr_code(ctx, c1, args[k], Some(ctx.externs[name].arguments[k])) == Ok::<
            (State, TypeView),
            ErrorView,
        >((c2, found)),
        !compatible(ctx.externs[name].arguments[k], found),
    ensures
        extern_code(ctx, c, name, args) is Err,
{
    lemma_arguments_fail(ctx, c, name, args, ctx.externs[name].arguments, 0, k, c1, c2, found);
}

/// Whether the arguments from `i` up to `k` fit, and lead from `c` to `c1`.
pub open spec fn arguments_reach(
    ctx: Context,
    c: State,
    name: Seq<char>,
    args: Seq<ExprView>,
    types: Seq<TypeView>,
    i: int,
    k: int,
    c1: State,
) -> bool
    decreases k - i,
{
    if i >= k {
        c1 == c
    } else {
        match expr_code(ctx, c, args[i], Some(types[i])) {
            Err(_) => false,
            Ok((next, found)) => compatible(types[i], found) && arguments_reach(
                ctx,
                next,
                name,
                args,
                types,
                i + 1,
                k,
                c1,
            ),
        }
    }
}

proof fn lemma_arguments_fail(
    ctx: Context,
    c: State,
    name: Seq<char>,
    args: Seq<ExprView>,
    types: Seq<TypeView>,
    i: int,
    k: int,
    c1: State,
    c2: State,
    found: TypeView,
)
    requires
        args.len() == types.len(),
        0 <= i <= k < args.len(),
        arguments_reach(ctx, c, name, args, types, i, k, c1),
        expr_code(ctx, c1, args[k], Some(types[k])) == Ok::<(State, TypeView), ErrorView>(
            (c2, found),
        ),
        !compatible(types[k], found),
    ensures
        arguments_code(ctx, c, name, args, types, i) is Err,
    decreases k - i,
{
    if i < k {
        match expr_code(ctx, c, args[i], Some(types[i])) {
            Ok((next, _)) => {
                lemma_arguments_fail(ctx, next, name, args, types, i + 1, k, c1, c2, found);
            },
            Err(_) => {},
        }
    }
}

/// In a member function a field hides what else has its name.
pub proof fn fields_hide_other_names(
    ctx: Context,
    c: State,
    id: StringId,
    expected: Option<TypeView>,
    field: FieldView,
)
    requires
        method_field(c, text_in(ctx, id)) == Some(field),
    ensures
        expr_code(ctx, c, ExprView::Name(id), expected) == Ok::<(State, TypeView), ErrorView>(
            (emit(c, OpView::LoadCurrentField(field)), field.ty),
        ),
{
}

/// `break` and `continue` stand inside a loop.
pub proof fn jumps_stand_inside_loops(ctx: Context, c: State)
    requires
        c.loops.len() == 0,
    ensures
        statement_code(ctx, c, StatementView::Break) is Err,
        statement_code(ctx, c, StatementView::Continue) is Err,
{
}

/// An empty list says nothing of its items: without a type it is refused.
pub proof fn empty_lists_need_a_type(ctx: Context, c: State)
    ensures
        expr_code(ctx, c, ExprView::Array(Seq::empty()), None) is Err,
{
    reveal_with_fuel(array_code, 2);
    assert(array_code(ctx, c, Seq::empty(), None) is Err);
}

} // verus!
