//! Laws of what statements do to the state of the compiler: which slots names
//! get, which code is kept, and which jumps still wait for their target.
use vstd::prelude::*;
use crate::ast::{ExprView, MethodView, ReceiverView, StatementView};
use crate::code::ExportView;
use crate::code_laws::{expr_grows, grows, imports_add_structs, indices_grow, key_grows};
use crate::codegen::{
    Context, LoopView, State, assign_code, bind_name, block_code, call_method_code, close_loop,
    close_scope, coerced, container, count_entered, count_on, declare_methods, declared,
    destructor_calls, destructor_target, emit, emit_call, empty_state, export_function_code,
    expr_code, for_code, for_in_code, global_assign_code, held, if_code, import_structs,
    indices_code, item_code, item_op, item_type, key_code, leave_code, let_code, live_locals,
    member_code, members_code, method_code, method_entry, method_field, numbered, open_loop,
    parameters_code, patch, patch_jumps, printed_code, printf_code, rebound, remaining,
    resolve_pending, retargeted, scoped_code, set_field_code, set_field_index_code, set_index_code,
    statement_code, struct_field, struct_statement_code, text_in, track_destructor, walk_entered,
    while_code,
};
use crate::ir::OpView;
use crate::ops::{BinOp, BinaryOp};
use crate::types::{ErrorView, TypeView};
use crate::value::{LayoutView, ValueView};

verus! {

/// Names that are in scope at the same time have slots of their own, and so have
/// globals; the next slot to be handed out lies behind all of them. Outside of
/// blocks every global is in scope. No more slots have been handed out than there
/// are instructions.
pub open spec fn sound(c: State) -> bool {
    &&& c.next_slot <= c.code.len()
    &&& forall|n: Seq<char>| #[trigger]
        c.names.contains_key(n) ==> c.names[n].0 < c.next_slot
    &&& forall|n: Seq<char>| #[trigger]
        c.globals.contains_key(n) ==> c.globals[n].0 < c.next_slot
    &&& forall|n: Seq<char>, m: Seq<char>| #[trigger]
        c.names.contains_key(n) && #[trigger] c.names.contains_key(m) && n != m ==> c.names[n].0
            != c.names[m].0
    &&& forall|n: Seq<char>, m: Seq<char>| #[trigger]
        c.globals.contains_key(n) && #[trigger] c.globals.contains_key(m) && n != m
            ==> c.globals[n].0 != c.globals[m].0
    &&& forall|n: Seq<char>, m: Seq<char>| #[trigger]
        c.names.contains_key(n) && #[trigger] c.globals.contains_key(m) && n != m ==> c.names[n].0
            != c.globals[m].0
    &&& !c.nested ==> forall|n: Seq<char>| #[trigger]
        c.globals.contains_key(n) ==> c.names.contains_key(n) && c.names[n].0 == c.globals[n].0
}

/// A slot that a name in scope or a global has.
pub open spec fn taken(c: State, slot: usize) -> bool {
    ||| exists|n: Seq<char>| #[trigger] c.names.contains_key(n) && c.names[n].0 == slot
    ||| exists|n: Seq<char>| #[trigger] c.globals.contains_key(n) && c.globals[n].0 == slot
}

/// The code that was there is kept.
pub open spec fn code_kept(c: State, c1: State) -> bool {
    &&& c.code.len() <= c1.code.len()
    &&& forall|k: int| 0 <= k < c.code.len() ==> #[trigger] c1.code[k] == c.code[k]
}

/// What is bound keeps its slot, new names get slots that were free, globals
/// come only from outside of blocks, and the new code stores into no slot but
/// those of what was bound and those that were free.
pub open spec fn slots_kept(c: State, c1: State) -> bool {
    &&& c.next_slot <= c1.next_slot
    &&& c1.nested == c.nested
    &&& forall|n: Seq<char>| #[trigger]
        c.names.contains_key(n) ==> c1.names.contains_key(n) && c1.names[n].0 == c.names[n].0
    &&& forall|n: Seq<char>| #[trigger]
        c1.names.contains_key(n) && !c.names.contains_key(n) ==> c.next_slot <= c1.names[n].0
    &&& forall|n: Seq<char>| #[trigger]
        c.globals.contains_key(n) ==> c1.globals.contains_key(n) && c1.globals[n].0
            == c.globals[n].0
    &&& forall|n: Seq<char>| #[trigger]
        c1.globals.contains_key(n) && !c.globals.contains_key(n) ==> !c.nested && c.next_slot
            <= c1.globals[n].0
    &&& forall|k: int|
        c.code.len() <= k < c1.code.len() && #[trigger] c1.code[k] is Store ==> c.next_slot
            <= c1.code[k]->Store_0 || taken(c, c1.code[k]->Store_0)
}

/// The jumps of open loops that wait for their target are jumps in the code, and
/// none is both a `break` and a `continue`.
pub open spec fn waiting(c: State) -> bool {
    &&& forall|i: int, p: usize|
        0 <= i < c.loops.len() && #[trigger] c.loops[i].break_jumps.contains(p) ==> {
            &&& p < c.code.len()
            &&& c.code[p as int] is Jump
            &&& !c.loops[i].continue_jumps.contains(p)
        }
    &&& forall|i: int, p: usize|
        0 <= i < c.loops.len() && #[trigger] c.loops[i].continue_jumps.contains(p) ==> {
            &&& p < c.code.len()
            &&& c.code[p as int] is Jump
            &&& !c.loops[i].break_jumps.contains(p)
        }
}

/// The open loops stay open; the jumps that come to wait stand in the new code.
pub open spec fn loops_kept(c: State, c1: State) -> bool {
    &&& c1.loops.len() == c.loops.len()
    &&& forall|i: int|
        0 <= i < c.loops.len() ==> (#[trigger] c1.loops[i]).scope_base == c.loops[i].scope_base
    &&& forall|i: int, p: usize|
        0 <= i < c.loops.len() && #[trigger] c.loops[i].break_jumps.contains(p)
            ==> c1.loops[i].break_jumps.contains(p)
    &&& forall|i: int, p: usize|
        0 <= i < c.loops.len() && #[trigger] c.loops[i].continue_jumps.contains(p)
            ==> c1.loops[i].continue_jumps.contains(p)
    &&& forall|i: int, p: usize|
        0 <= i < c.loops.len() && #[trigger] c1.loops[i].break_jumps.contains(p)
            && !c.loops[i].break_jumps.contains(p) ==> c.code.len() <= p < c1.code.len()
    &&& forall|i: int, p: usize|
        0 <= i < c.loops.len() && #[trigger] c1.loops[i].continue_jumps.contains(p)
            && !c.loops[i].continue_jumps.contains(p) ==> c.code.len() <= p < c1.code.len()
}

/// The open blocks stay open, and of those only the innermost gets locals. Methods
/// stay declared, and keep their entry once they have one.
pub open spec fn blocks_kept(c: State, c1: State) -> bool {
    &&& c1.scopes.len() == c.scopes.len()
    &&& forall|i: int| 0 <= i < c.scopes.len() - 1 ==> #[trigger] c1.scopes[i] == c.scopes[i]
    &&& c1.method_fields == c.method_fields
    &&& c1.method_struct == c.method_struct
    &&& forall|key: (Seq<char>, Seq<char>)| #[trigger]
        c.methods.contains_key(key) ==> c1.methods.contains_key(key) && (c.methods[key] is Some
            ==> c1.methods[key] == c.methods[key])
}

/// What a statement keeps, as long as positions in the code fit the machine.
pub open spec fn keeps(c: State, c1: State) -> bool {
    c1.code.len() <= usize::MAX ==> {
        &&& code_kept(c, c1)
        &&& blocks_kept(c, c1)
        &&& loops_kept(c, c1)
        &&& waiting(c) ==> waiting(c1)
        &&& sound(c) ==> sound(c1) && slots_kept(c, c1)
    }
}

#[verifier::spinoff_prover]
#[verifier::rlimit(40)]
proof fn lemma_stores_after(c: State, c1: State, c2: State)
    requires
        code_kept(c1, c2),
        code_kept(c, c1),
        slots_kept(c, c1),
        slots_kept(c1, c2),
    ensures
        slots_kept(c, c2),
{
    assert forall|k: int|
        c.code.len() <= k < c2.code.len() && #[trigger] c2.code[k] is Store implies c.next_slot
        <= c2.code[k]->Store_0 || taken(c, c2.code[k]->Store_0) by {
        let s = c2.code[k]->Store_0;
        if k < c1.code.len() {
            assert(c2.code[k] == c1.code[k]);
        } else if taken(c1, s) && s < c.next_slot {
            if exists|n: Seq<char>| #[trigger] c1.names.contains_key(n) && c1.names[n].0 == s {
                let n = choose|n: Seq<char>| #[trigger]
                    c1.names.contains_key(n) && c1.names[n].0 == s;
                assert(c.names.contains_key(n));
            } else {
                let n = choose|n: Seq<char>| #[trigger]
                    c1.globals.contains_key(n) && c1.globals[n].0 == s;
                assert(c.globals.contains_key(n));
            }
        }
    }
}

/// What two statements keep one after the other.
#[verifier::spinoff_prover]
#[verifier::rlimit(40)]
proof fn lemma_follow(c: State, c1: State, c2: State)
    requires
        keeps(c, c1),
        keeps(c1, c2),
    ensures
        keeps(c, c2),
{
    if c2.code.len() <= usize::MAX {
        assert forall|k: int| 0 <= k < c.code.len() implies #[trigger] c2.code[k] == c.code[k] by {
            assert(c2.code[k] == c1.code[k]);
        }
        assert forall|i: int| 0 <= i < c.scopes.len() - 1 implies #[trigger] c2.scopes[i]
            == c.scopes[i] by {
            assert(c2.scopes[i] == c1.scopes[i]);
        }
        assert(loops_kept(c, c2)) by {
            assert forall|i: int| 0 <= i < c.loops.len() implies (
            #[trigger] c2.loops[i]).scope_base == c.loops[i].scope_base by {
                assert(c1.loops[i].scope_base == c.loops[i].scope_base);
            }
        }
        assert forall|key: (Seq<char>, Seq<char>)| #[trigger]
            c.methods.contains_key(key) implies c2.methods.contains_key(key) && (
        c.methods[key] is Some ==> c2.methods[key] == c.methods[key]) by {
            assert(c1.methods.contains_key(key));
        }
        if sound(c) {
            lemma_stores_after(c, c1, c2);
        }
    }
}

/// Expressions keep everything.
#[verifier::spinoff_prover]
#[verifier::rlimit(40)]
proof fn lemma_extends(c: State, c1: State)
    requires
        grows(c, c1),
    ensures
        keeps(c, c1),
{
}

proof fn lemma_expr(ctx: Context, c: State, e: ExprView, expected: Option<TypeView>)
    ensures
        match expr_code(ctx, c, e, expected) {
            Ok((c1, _)) => keeps(c, c1),
            Err(_) => true,
        },
{
    expr_grows(ctx, c, e, expected);
    match expr_code(ctx, c, e, expected) {
        Ok((c1, _)) => {
            lemma_extends(c, c1);
        },
        Err(_) => {},
    }
}

/// One more instruction that stores into no local.
#[verifier::spinoff_prover]
#[verifier::rlimit(40)]
proof fn lemma_emit(c: State, op: OpView)
    requires
        !(op is Store),
    ensures
        keeps(c, emit(c, op)),
{
}

/// A change of what no slot, block or loop depends on.
#[verifier::spinoff_prover]
#[verifier::rlimit(40)]
proof fn lemma_same(c: State, c1: State)
    requires
        c1 == (State {
            structs: c1.structs,
            methods: c1.methods,
            pending: c1.pending,
            artifacts: c1.artifacts,
            exports: c1.exports,
            ..c
        }),
        forall|key: (Seq<char>, Seq<char>)| #[trigger]
            c.methods.contains_key(key) ==> c1.methods.contains_key(key) && (c.methods[key] is Some
                ==> c1.methods[key] == c.methods[key]),
    ensures
        keeps(c, c1),
{
}

#[verifier::spinoff_prover]
#[verifier::rlimit(40)]
proof fn lemma_call(
    c: State,
    op: OpView,
    target: usize,
    struct_name: Seq<char>,
    method: Seq<char>,
)
    requires
        !(op is Store),
    ensures
        keeps(c, emit_call(c, op, target, struct_name, method)),
{
    let c1 = emit(c, op);
    lemma_emit(c, op);
    let c2 = emit_call(c, op, target, struct_name, method);
    lemma_same(c1, c2);
    lemma_follow(c, c1, c2);
}

/// A store into the slot of something that is bound, which may come to know its module.
#[verifier::spinoff_prover]
#[verifier::rlimit(40)]
proof fn lemma_rebound(c: State, name: Seq<char>, slot: usize, found: TypeView)
    requires
        taken(c, slot),
    ensures
        keeps(c, emit(rebound(c, name, slot, found), OpView::Store(slot))),
{
    let c1 = emit(rebound(c, name, slot, found), OpView::Store(slot));
    assert forall|n: Seq<char>| #[trigger] c1.names.contains_key(n) <==> c.names.contains_key(n) by {
    }
    assert forall|n: Seq<char>| #[trigger]
        c1.globals.contains_key(n) <==> c.globals.contains_key(n) by {
    }
    if c1.code.len() <= usize::MAX && sound(c) {
        assert(sound(c1));
        assert(slots_kept(c, c1));
    }
}

/// A new name gets the next slot, and its value is stored there.
#[verifier::spinoff_prover]
#[verifier::rlimit(40)]
proof fn lemma_bound(c: State, c1: State, name: Seq<char>, ty: TypeView)
    requires
        !c.names.contains_key(name),
        c1 == (State {
            names: c.names.insert(name, (c.next_slot, ty)),
            globals: if c.nested {
                c.globals
            } else {
                c.globals.insert(name, (c.next_slot, ty))
            },
            next_slot: c.next_slot.wrapping_add(1),
            code: c.code.push(OpView::Store(c.next_slot)),
            ..c
        }),
    ensures
        keeps(c, c1),
{
    if c1.code.len() <= usize::MAX && sound(c) {
        assert(c1.next_slot == c.next_slot + 1);
        assert(sound(c1));
        assert(slots_kept(c, c1));
    }
}

#[verifier::spinoff_prover]
#[verifier::rlimit(40)]
proof fn lemma_destructors(c: State, locals: Seq<(usize, Seq<char>)>, i: int)
    ensures
        keeps(c, destructor_calls(c, locals, i)),
        destructor_calls(c, locals, i).scopes == c.scopes,
        destructor_calls(c, locals, i).loops == c.loops,
    decreases locals.len() - i,
{
    if 0 <= i < locals.len() {
        let (slot, name) = locals[i];
        let c1 = emit(c, OpView::UntrackDestructor(slot));
        let target = destructor_target(c1, name);
        let c2 = emit_call(c1, OpView::CallMethod(slot, target), target, name, name);
        lemma_emit(c, OpView::UntrackDestructor(slot));
        lemma_call(c1, OpView::CallMethod(slot, target), target, name, name);
        lemma_follow(c, c1, c2);
        lemma_destructors(c2, locals, i + 1);
        lemma_follow(c, c2, destructor_calls(c2, locals, i + 1));
    } else {
        lemma_same(c, c);
    }
}

#[verifier::spinoff_prover]
#[verifier::rlimit(40)]
proof fn lemma_tracked(c: State, slot: usize, name: Seq<char>)
    ensures
        match track_destructor(c, slot, name) {
            Ok(c1) => keeps(c, c1),
            Err(_) => true,
        },
{
    lemma_same(c, c);
    if c.methods.contains_key((name, name)) {
        let target = destructor_target(c, name);
        let op = OpView::TrackDestructor(slot, target);
        let c1 = emit_call(c, op, target, name, name);
        lemma_call(c, op, target, name, name);
        if c1.scopes.len() > 0 {
            let c2 = State {
                scopes: c1.scopes.update(c1.scopes.len() - 1, c1.scopes.last().push((slot, name))),
                ..c1
            };
            assert(keeps(c1, c2));
            lemma_follow(c, c1, c2);
        }
    }
}

#[verifier::spinoff_prover]
#[verifier::rlimit(40)]
proof fn lemma_bind(c: State, name: Seq<char>, ty: TypeView, found: TypeView)
    ensures
        match bind_name(c, name, ty, found) {
            Ok(c1) => keeps(c, c1),
            Err(_) => true,
        },
{
    if bind_name(c, name, ty, found) is Ok {
        let fresh = !c.names.contains_key(name);
        let slot = if fresh {
            c.next_slot
        } else {
            c.names[name].0
        };
        let c1 = if fresh {
            State {
                names: c.names.insert(name, (slot, held(ty, found))),
                globals: if c.nested {
                    c.globals
                } else {
                    c.globals.insert(name, (slot, held(ty, found)))
                },
                next_slot: c.next_slot.wrapping_add(1),
                ..c
            }
        } else {
            rebound(c, name, slot, found)
        };
        let c2 = match found {
            TypeView::Module(id) => import_structs(c1, name, c1.artifacts[id].exports, 0)->Ok_0,
            _ => c1,
        };
        if found is Module {
            imports_add_structs(c1, name, c1.artifacts[found->Module_0].exports, 0);
        }
        assert(c2 == (State { structs: c2.structs, ..c1 }));
        let c3 = emit(c2, OpView::Store(slot));
        let d = emit(c1, OpView::Store(slot));
        if fresh {
            lemma_bound(c, d, name, held(ty, found));
        } else {
            lemma_rebound(c, name, slot, found);
        }
        lemma_same(d, c3);
        lemma_follow(c, d, c3);
        if found is Struct && fresh && c.nested {
            lemma_tracked(c3, slot, found->Struct_0);
            lemma_follow(c, c3, track_destructor(c3, slot, found->Struct_0)->Ok_0);
        }
    }
}

proof fn lemma_coerced(c: State, ty: TypeView, found: TypeView)
    ensures
        keeps(c, coerced(c, ty, found)),
        coerced(c, ty, found).names == c.names,
{
    lemma_same(c, c);
    lemma_emit(c, OpView::Cast(ty));
}

#[verifier::spinoff_prover]
#[verifier::rlimit(40)]
proof fn lemma_let(ctx: Context, c: State, name: Seq<char>, ty: TypeView, value: ExprView)
    ensures
        match let_code(ctx, c, name, ty, value) {
            Ok(c1) => keeps(c, c1),
            Err(_) => true,
        },
{
    match let_code(ctx, c, name, ty, value) {
        Ok(done) => {
            let (c1, found) = expr_code(ctx, c, value, Some(ty))->Ok_0;
            let c2 = coerced(c1, ty, found);
            lemma_expr(ctx, c, value, Some(ty));
            lemma_coerced(c1, ty, found);
            lemma_follow(c, c1, c2);
            lemma_bind(c2, name, ty, found);
            lemma_follow(c, c2, done);
        },
        Err(_) => {},
    }
}

/// A store into a slot that was taken before an expression.
#[verifier::spinoff_prover]
#[verifier::rlimit(40)]
proof fn lemma_assigned(c: State, c1: State, name: Seq<char>, slot: usize, found: TypeView)
    requires
        keeps(c, c1),
        taken(c, slot),
        c1.code.len() <= usize::MAX ==> c1.names == c.names && c1.globals == c.globals,
    ensures
        keeps(c, rebound(emit(c1, OpView::Store(slot)), name, slot, found)),
{
    let done = rebound(emit(c1, OpView::Store(slot)), name, slot, found);
    if done.code.len() <= usize::MAX {
        assert(taken(c1, slot));
        lemma_rebound(c1, name, slot, found);
        assert(done == emit(rebound(c1, name, slot, found), OpView::Store(slot)));
        lemma_follow(c, c1, done);
    }
}

#[verifier::spinoff_prover]
#[verifier::rlimit(40)]
proof fn lemma_assign(ctx: Context, c: State, name: Seq<char>, value: ExprView)
    ensures
        match assign_code(ctx, c, name, value) {
            Ok(c1) => keeps(c, c1),
            Err(_) => true,
        },
{
    match assign_code(ctx, c, name, value) {
        Ok(done) => {
            let field = method_field(c, name);
            let ty = if field is Some {
                field->Some_0.ty
            } else {
                declared(c.names[name].1)
            };
            let (c1, found) = expr_code(ctx, c, value, Some(ty))->Ok_0;
            let c2 = coerced(c1, ty, found);
            lemma_expr(ctx, c, value, Some(ty));
            expr_grows(ctx, c, value, Some(ty));
            lemma_coerced(c1, ty, found);
            lemma_follow(c, c1, c2);
            if field is Some {
                lemma_emit(c2, OpView::StoreCurrentField(field->Some_0));
                lemma_follow(c, c2, done);
            } else {
                assert(c.names.contains_key(name));
                lemma_assigned(c, c2, name, c.names[name].0, found);
            }
        },
        Err(_) => {},
    }
}

#[verifier::spinoff_prover]
#[verifier::rlimit(40)]
proof fn lemma_global_assign(ctx: Context, c: State, name: Seq<char>, value: ExprView)
    ensures
        match global_assign_code(ctx, c, name, value) {
            Ok(c1) => keeps(c, c1),
            Err(_) => true,
        },
{
    match global_assign_code(ctx, c, name, value) {
        Ok(done) => {
            let ty = declared(c.globals[name].1);
            let (c1, found) = expr_code(ctx, c, value, Some(ty))->Ok_0;
            lemma_expr(ctx, c, value, Some(ty));
            expr_grows(ctx, c, value, Some(ty));
            assert(c.globals.contains_key(name));
            lemma_assigned(c, c1, name, c.globals[name].0, found);
        },
        Err(_) => {},
    }
}

/// The slot of a field of the current struct is new.
#[verifier::spinoff_prover]
#[verifier::rlimit(40)]
proof fn lemma_container(c: State, name: Seq<char>)
    ensures
        match container(c, name) {
            Ok((c1, _, _)) => keeps(c, c1),
            Err(_) => true,
        },
{
    lemma_same(c, c);
    match method_field(c, name) {
        Some(field) => {
            let (c1, slot, _) = container(c, name)->Ok_0;
            if c1.code.len() <= usize::MAX && sound(c) {
                assert(c1.next_slot == c.next_slot + 1);
                assert(sound(c1));
                assert(slots_kept(c, c1));
            }
        },
        None => {},
    }
}

#[verifier::spinoff_prover]
#[verifier::rlimit(40)]
proof fn lemma_item(
    ctx: Context,
    c: State,
    value: ExprView,
    element: TypeView,
    message: Seq<char>,
    op: OpView,
)
    requires
        !(op is Store),
    ensures
        match item_code(ctx, c, value, element, message, op) {
            Ok(c1) => keeps(c, c1),
            Err(_) => true,
        },
{
    match item_code(ctx, c, value, element, message, op) {
        Ok(done) => {
            let (c1, _) = expr_code(ctx, c, value, Some(element))->Ok_0;
            lemma_expr(ctx, c, value, Some(element));
            lemma_emit(c1, op);
            lemma_follow(c, c1, done);
        },
        Err(_) => {},
    }
}

#[verifier::spinoff_prover]
#[verifier::rlimit(40)]
proof fn lemma_set_index(ctx: Context, c: State, s: StatementView)
    ensures
        match set_index_code(ctx, c, s) {
            Ok(c1) => keeps(c, c1),
            Err(_) => true,
        },
{
    lemma_same(c, c);
    match s {
        StatementView::SetIndex { name, indices, expr } => match container(c, name) {
            Ok((c1, slot, t)) => {
                lemma_container(c, name);
                match set_index_code(ctx, c, s) {
                    Ok(done) => {
                        let (element, message, op) = match t {
                            TypeView::Array(inner) => (
                                *inner,
                                "item is "@,
                                OpView::StoreIndex(slot, *inner),
                            ),
                            TypeView::Table(inner) => (
                                *inner,
                                "item is "@,
                                OpView::StoreTableIndex(slot, *inner),
                            ),
                            TypeView::Tensor(inner, rank) => (
                                *inner,
                                "tensor item is "@,
                                if *inner is F32 {
                                    OpView::StoreTensorIndexF32(slot, rank)
                                } else {
                                    OpView::StoreTensorIndex(slot, *inner, rank)
                                },
                            ),
                            _ => (t, Seq::empty(), OpView::Return),
                        };
                        let c2 = if t is Table {
                            key_code(ctx, c1, indices[0])->Ok_0
                        } else {
                            indices_code(ctx, c1, indices, 0)->Ok_0
                        };
                        if t is Table {
                            key_grows(ctx, c1, indices[0]);
                        } else {
                            indices_grow(ctx, c1, indices, 0);
                        }
                        lemma_extends(c1, c2);
                        lemma_follow(c, c1, c2);
                        lemma_item(ctx, c2, expr, element, message, op);
                        assert(item_code(ctx, c2, expr, element, message, op) == Ok::<
                            State,
                            ErrorView,
                        >(done));
                        lemma_follow(c, c2, done);
                    },
                    Err(_) => {},
                }
            },
            Err(_) => {},
        },
        _ => {},
    }
}

#[verifier::spinoff_prover]
#[verifier::rlimit(40)]
proof fn lemma_set_field(
    ctx: Context,
    c: State,
    name: Seq<char>,
    field: Seq<char>,
    value: ExprView,
)
    ensures
        match set_field_code(ctx, c, name, field, value) {
            Ok(c1) => keeps(c, c1),
            Err(_) => true,
        },
{
    match set_field_code(ctx, c, name, field, value) {
        Ok(done) => {
            let (c1, slot, t) = container(c, name)->Ok_0;
            lemma_container(c, name);
            let (ty, op) = match t {
                TypeView::Struct(struct_name) => {
                    let f = struct_field(c1, struct_name, field)->Ok_0;
                    (f.ty, OpView::StoreField(slot, f))
                },
                TypeView::Table(element) => (
                    *element,
                    OpView::StoreTableField(slot, field, *element),
                ),
                _ => (t, OpView::Return),
            };
            let (c2, _) = expr_code(ctx, c1, value, Some(ty))->Ok_0;
            lemma_expr(ctx, c1, value, Some(ty));
            lemma_follow(c, c1, c2);
            lemma_emit(c2, op);
            lemma_follow(c, c2, done);
        },
        Err(_) => {},
    }
}

#[verifier::spinoff_prover]
#[verifier::rlimit(40)]
proof fn lemma_set_field_index(ctx: Context, c: State, s: StatementView)
    ensures
        match set_field_index_code(ctx, c, s) {
            Ok(c1) => keeps(c, c1),
            Err(_) => true,
        },
{
    lemma_same(c, c);
    match s {
        StatementView::SetFieldIndex { name, field, index, expr } => match set_field_index_code(
            ctx,
            c,
            s,
        ) {
            Ok(done) => {
                let (c1, slot, t) = container(c, name)->Ok_0;
                lemma_container(c, name);
                let f = struct_field(c1, t->Struct_0, field)->Ok_0;
                let element = *f.ty->Array_0;
                let (c2, _) = expr_code(ctx, c1, index, None)->Ok_0;
                lemma_expr(ctx, c1, index, None);
                lemma_follow(c, c1, c2);
                let op = OpView::StoreFieldIndex(slot, f, element);
                lemma_item(ctx, c2, expr, element, "item is "@, op);
                lemma_follow(c, c2, done);
            },
            Err(_) => {},
        },
        _ => {},
    }
}

proof fn lemma_printed(ctx: Context, c: State, args: Seq<ExprView>, i: int)
    ensures
        match printed_code(ctx, c, args, i) {
            Ok(c1) => keeps(c, c1),
            Err(_) => true,
        },
    decreases args.len() - i,
{
    lemma_same(c, c);
    if 0 <= i < args.len() {
        match expr_code(ctx, c, args[i], None) {
            Ok((c1, _)) => {
                lemma_expr(ctx, c, args[i], None);
                lemma_printed(ctx, c1, args, i + 1);
                match printed_code(ctx, c1, args, i + 1) {
                    Ok(done) => {
                        lemma_follow(c, c1, done);
                    },
                    Err(_) => {},
                }
            },
            Err(_) => {},
        }
    }
}

proof fn lemma_printf(ctx: Context, c: State, s: StatementView)
    ensures
        match printf_code(ctx, c, s) {
            Ok(c1) => keeps(c, c1),
            Err(_) => true,
        },
{
    lemma_same(c, c);
    match s {
        StatementView::Printf { format, args } => match printf_code(ctx, c, s) {
            Ok(done) => {
                let c1 = printed_code(ctx, c, args, 0)->Ok_0;
                lemma_printed(ctx, c, args, 0);
                let (c2, _) = expr_code(ctx, c1, format, Some(TypeView::String))->Ok_0;
                lemma_expr(ctx, c1, format, Some(TypeView::String));
                lemma_follow(c, c1, c2);
                lemma_emit(c2, OpView::Printf(args.len() as usize));
                lemma_follow(c, c2, done);
            },
            Err(_) => {},
        },
        _ => {},
    }
}

#[verifier::spinoff_prover]
#[verifier::rlimit(40)]
proof fn lemma_leave(c: State, leaves: bool)
    ensures
        match leave_code(c, leaves) {
            Ok(c1) => keeps(c, c1),
            Err(_) => true,
        },
{
    match leave_code(c, leaves) {
        Ok(done) => {
            let l = c.loops.last();
            let locals = live_locals(c.scopes, l.scope_base, c.scopes.len() as int);
            let c1 = destructor_calls(c, locals, 0);
            lemma_destructors(c, locals, 0);
            let jump = c1.code.len() as usize;
            let c2 = emit(c1, OpView::Jump(usize::MAX));
            if done.code.len() <= usize::MAX {
                assert(done.code[jump as int] is Jump);
                let open = done.loops.last();
                let n = c.loops.len() - 1;
                assert forall|p: usize| #[trigger]
                    open.break_jumps.contains(p) <==> l.break_jumps.contains(p) || (leaves && p
                        == jump) by {
                    if leaves {
                        lemma_push_contains(l.break_jumps, jump, p);
                    }
                }
                assert forall|p: usize| #[trigger]
                    open.continue_jumps.contains(p) <==> l.continue_jumps.contains(p) || (!leaves
                        && p == jump) by {
                    if !leaves {
                        lemma_push_contains(l.continue_jumps, jump, p);
                    }
                }
                assert forall|i: int| 0 <= i < c.loops.len() implies #[trigger] done.loops[i]
                    == (if i == n {
                    open
                } else {
                    c.loops[i]
                }) by {}
                assert(code_kept(c, done));
                assert(loops_kept(c, done));
                if waiting(c) {
                    assert(waiting(c1));
                    assert(waiting(done));
                }
                if sound(c) {
                    lemma_emit(c1, OpView::Jump(usize::MAX));
                    lemma_follow(c, c1, c2);
                    assert(sound(done) && slots_kept(c, done));
                }
            }
        },
        Err(_) => {},
    }
}

proof fn lemma_push_contains(s: Seq<usize>, x: usize, p: usize)
    ensures
        s.push(x).contains(p) <==> s.contains(p) || p == x,
{
    if s.contains(p) {
        let i = choose|i: int| 0 <= i < s.len() && s[i] == p;
        assert(s.push(x)[i] == p);
    }
    if p == x {
        assert(s.push(x)[s.len() as int] == p);
    }
}

proof fn lemma_call_method(c: State, receiver: ReceiverView, method: Seq<char>)
    ensures
        match call_method_code(c, receiver, method) {
            Ok(c1) => keeps(c, c1),
            Err(_) => true,
        },
{
    match call_method_code(c, receiver, method) {
        Ok(done) => match receiver {
            ReceiverView::Name(name) => {
                let (slot, ty) = c.names[name];
                match ty {
                    TypeView::Struct(struct_name) => {
                        let target = match method_entry(c, struct_name, method) {
                            Some(target) => target,
                            None => usize::MAX,
                        };
                        lemma_call(
                            c,
                            OpView::CallMethod(slot, target),
                            target,
                            struct_name,
                            method,
                        );
                    },
                    _ => {
                        lemma_emit(c, OpView::CallModule(slot, method));
                    },
                }
            },
            ReceiverView::This => {
                let struct_name = c.method_struct->Some_0;
                let target = match method_entry(c, struct_name, method) {
                    Some(target) => target,
                    None => usize::MAX,
                };
                lemma_call(
                    c,
                    OpView::CallCurrentMethod(target),
                    target,
                    struct_name,
                    method,
                );
            },
        },
        Err(_) => {},
    }
}

/// Whether a loop still waits to give this jump a target.
pub open spec fn waits(l: LoopView, p: usize) -> bool {
    l.break_jumps.contains(p) || l.continue_jumps.contains(p)
}

/// An instruction of the new code is replaced.
#[verifier::spinoff_prover]
#[verifier::rlimit(40)]
proof fn lemma_patch(c: State, c1: State, at: usize, op: OpView)
    requires
        keeps(c, c1),
        c.code.len() <= at,
        !(op is Store),
        c1.code.len() <= usize::MAX && waiting(c) ==> op is Jump || forall|i: int, p: usize|
            0 <= i < c1.loops.len() && #[trigger] waits(c1.loops[i], p) ==> p != at,
    ensures
        keeps(c, patch(c1, at, op)),
{
    let done = patch(c1, at, op);
    if done.code.len() <= usize::MAX {
        assert(code_kept(c, done));
        if waiting(c) {
            assert forall|i: int, p: usize|
                0 <= i < done.loops.len() && #[trigger] done.loops[i].break_jumps.contains(
                    p,
                ) implies {
                &&& p < done.code.len()
                &&& done.code[p as int] is Jump
                &&& !done.loops[i].continue_jumps.contains(p)
            } by {
                assert(waits(c1.loops[i], p));
            }
            assert forall|i: int, p: usize|
                0 <= i < done.loops.len() && #[trigger] done.loops[i].continue_jumps.contains(
                    p,
                ) implies {
                &&& p < done.code.len()
                &&& done.code[p as int] is Jump
                &&& !done.loops[i].break_jumps.contains(p)
            } by {
                assert(waits(c1.loops[i], p));
            }
        }
        if sound(c) {
            assert(sound(done));
            assert forall|k: int|
                c.code.len() <= k < done.code.len() && #[trigger] done.code[k] is Store implies
                c.next_slot <= done.code[k]->Store_0 || taken(c, done.code[k]->Store_0) by {
                assert(k != at);
                assert(done.code[k] == c1.code[k]);
            }
            assert(slots_kept(c, done));
        }
    }
}

proof fn lemma_patch_list(c: State, c1: State, jumps: Seq<usize>, i: int, target: usize)
    requires
        keeps(c, c1),
        forall|p: usize| #[trigger] jumps.contains(p) ==> c.code.len() <= p,
        0 <= i,
    ensures
        keeps(c, patch_jumps(c1, jumps, i, target)),
    decreases jumps.len() - i,
{
    if 0 <= i < jumps.len() {
        assert(jumps.contains(jumps[i]));
        lemma_patch(c, c1, jumps[i], OpView::Jump(target));
        lemma_patch_list(c, patch(c1, jumps[i], OpView::Jump(target)), jumps, i + 1, target);
    }
}

/// Jumps that get their target are given it, and nothing else changes.
pub(crate) proof fn lemma_targets(c: State, jumps: Seq<usize>, i: int, target: usize)
    requires
        0 <= i <= jumps.len(),
    ensures
        ({
            let done = patch_jumps(c, jumps, i, target);
            &&& done == (State { code: done.code, ..c })
            &&& done.code.len() == c.code.len()
            &&& forall|k: int|
                0 <= k < c.code.len() ==> #[trigger] done.code[k] == (if exists|j: int|
                    i <= j < jumps.len() && #[trigger] jumps[j] == k {
                    OpView::Jump(target)
                } else {
                    c.code[k]
                })
        }),
    decreases jumps.len() - i,
{
    if i < jumps.len() {
        let c1 = patch(c, jumps[i], OpView::Jump(target));
        lemma_targets(c1, jumps, i + 1, target);
        let done = patch_jumps(c, jumps, i, target);
        assert forall|k: int| 0 <= k < c.code.len() implies #[trigger] done.code[k] == (
        if exists|j: int| i <= j < jumps.len() && #[trigger] jumps[j] == k {
            OpView::Jump(target)
        } else {
            c.code[k]
        }) by {
            if jumps[i] == k {
            } else {
                assert(c1.code[k] == c.code[k]);
                if exists|j: int| i <= j < jumps.len() && #[trigger] jumps[j] == k {
                    let j = choose|j: int| i <= j < jumps.len() && #[trigger] jumps[j] == k;
                    assert(i + 1 <= j && jumps[j] == k);
                }
            }
        }
    }
}

/// What is patched depends on the code alone.
proof fn lemma_patched_code(c: State, d: State, jumps: Seq<usize>, i: int, target: usize)
    requires
        c.code == d.code,
    ensures
        patch_jumps(c, jumps, i, target).code == patch_jumps(d, jumps, i, target).code,
        patch_jumps(c, jumps, i, target) == (State {
            code: patch_jumps(c, jumps, i, target).code,
            ..c
        }),
    decreases jumps.len() - i,
{
    if 0 <= i < jumps.len() {
        lemma_patched_code(
            patch(c, jumps[i], OpView::Jump(target)),
            patch(d, jumps[i], OpView::Jump(target)),
            jumps,
            i + 1,
            target,
        );
        lemma_patched_code(
            patch(c, jumps[i], OpView::Jump(target)),
            patch(c, jumps[i], OpView::Jump(target)),
            jumps,
            i + 1,
            target,
        );
    }
}

/// What a block leaves as it was: after it the names, the slots, the globals and
/// the blocks are those from before it.
pub open spec fn restored(c: State, c1: State) -> bool {
    &&& c1.names == c.names
    &&& c1.next_slot == c.next_slot
    &&& c1.nested == c.nested
    &&& c1.code.len() <= usize::MAX ==> c1.scopes == c.scopes
    &&& c1.code.len() <= usize::MAX && sound(c) ==> {
        &&& forall|n: Seq<char>| #[trigger]
            c1.globals.contains_key(n) <==> c.globals.contains_key(n)
        &&& forall|n: Seq<char>| #[trigger]
            c.globals.contains_key(n) ==> c1.globals[n].0 == c.globals[n].0
    }
}

/// The state in which a block is compiled.
spec fn inner(c: State) -> State {
    State { nested: true, scopes: c.scopes.push(Seq::empty()), ..c }
}

#[verifier::spinoff_prover]
#[verifier::rlimit(40)]
proof fn lemma_block_end(c: State, c1: State)
    requires
        keeps(inner(c), c1),
    ensures
        match close_scope(c1) {
            Ok(c2) => {
                let done = State {
                    names: c.names,
                    next_slot: c.next_slot,
                    nested: c.nested,
                    scopes: c2.scopes.drop_last(),
                    ..c2
                };
                keeps(c, done) && restored(c, done)
            },
            Err(_) => true,
        },
{
    match close_scope(c1) {
        Ok(c2) => {
            lemma_destructors(c1, c1.scopes.last().reverse(), 0);
            let done = State {
                names: c.names,
                next_slot: c.next_slot,
                nested: c.nested,
                scopes: c2.scopes.drop_last(),
                ..c2
            };
            lemma_follow(inner(c), c1, c2);
            if done.code.len() <= usize::MAX {
                assert(code_kept(c, done));
                assert forall|i: int| 0 <= i < c.scopes.len() implies #[trigger] done.scopes[i]
                    == c.scopes[i] by {
                    assert(c2.scopes[i] == inner(c).scopes[i]);
                }
                assert(done.scopes =~= c.scopes);
                assert(loops_kept(c, done));
                if waiting(c) {
                    assert(waiting(inner(c)));
                    assert(waiting(done));
                }
                if sound(c) {
                    assert(sound(inner(c)));
                    assert(sound(done));
                    assert forall|k: int|
                        c.code.len() <= k < done.code.len() && #[trigger] done.code[k] is Store implies
                        c.next_slot <= done.code[k]->Store_0 || taken(c, done.code[k]->Store_0) by {
                        assert(c2.code[k] is Store);
                        assert(taken(inner(c), c2.code[k]->Store_0) ==> taken(
                            c,
                            c2.code[k]->Store_0,
                        ));
                    }
                    assert(slots_kept(inner(c), c2));
                    assert forall|n: Seq<char>| #[trigger]
                        done.globals.contains_key(n) <==> c.globals.contains_key(n) by {
                        assert(c2.globals.contains_key(n) ==> inner(c).globals.contains_key(n));
                        assert(inner(c).globals.contains_key(n) ==> c2.globals.contains_key(n));
                    }
                    assert forall|n: Seq<char>| #[trigger]
                        c.globals.contains_key(n) implies done.globals[n].0 == c.globals[n].0 by {
                        assert(inner(c).globals.contains_key(n));
                    }
                    assert(slots_kept(c, done));
                }
            }
        },
        Err(_) => {},
    }
}

/// A loop's body has been compiled, from the state `e` that the loop was entered
/// in, which came from `b`.
spec fn entered(b: State, e: State) -> bool {
    &&& code_kept(b, e)
    &&& b.code.len() < e.code.len()
    &&& e.loops == open_loop(b).loops
    &&& e.scopes == b.scopes
    &&& e.nested == b.nested
    &&& e.globals == b.globals
    &&& e.method_fields == b.method_fields
    &&& e.method_struct == b.method_struct
    &&& e.methods == b.methods
    &&& e.code.len() <= usize::MAX && sound(b) ==> {
        &&& sound(e)
        &&& b.next_slot <= e.next_slot
        &&& forall|n: Seq<char>| #[trigger]
            e.names.contains_key(n) ==> (if b.names.contains_key(n) {
                e.names[n].0 == b.names[n].0
            } else {
                b.next_slot <= e.names[n].0
            })
        &&& forall|k: int|
            b.code.len() <= k < e.code.len() && #[trigger] e.code[k] is Store ==> b.next_slot
                <= e.code[k]->Store_0
    }
}

/// The state behind a loop's body, without the loop and its own names.
spec fn left(b: State, c: State) -> State {
    State { loops: c.loops.drop_last(), names: b.names, next_slot: b.next_slot, ..c }
}

#[verifier::spinoff_prover]
#[verifier::rlimit(40)]
proof fn lemma_loop(b: State, e: State, c: State)
    requires
        entered(b, e),
        keeps(e, c),
        restored(e, c),
    ensures
        keeps(b, left(b, c)),
        c.code.len() <= usize::MAX ==> {
            &&& c.loops.len() == b.loops.len() + 1
            &&& b.code.len() < e.code.len() <= c.code.len()
            &&& forall|p: usize| #[trigger]
                waits(c.loops.last(), p) ==> e.code.len() <= p < c.code.len()
            &&& waiting(b) ==> forall|i: int, p: usize|
                0 <= i < b.loops.len() && #[trigger] waits(c.loops[i], p) ==> p < b.code.len()
                    || e.code.len() <= p
        },
{
    let u = left(b, c);
    if c.code.len() <= usize::MAX {
        assert(code_kept(b, u)) by {
            assert forall|k: int| 0 <= k < b.code.len() implies #[trigger] u.code[k]
                == b.code[k] by {
                assert(c.code[k] == e.code[k]);
            }
        }
        let n = b.loops.len() as int;
        assert(forall|p: usize| !(#[trigger] waits(e.loops[n], p)));
        assert forall|p: usize| #[trigger] waits(c.loops.last(), p) implies e.code.len() <= p
            < c.code.len() by {
            assert(c.loops.last() == c.loops[n]);
            assert(!waits(e.loops[n], p));
        }
        assert forall|i: int| 0 <= i < n implies #[trigger] e.loops[i] == b.loops[i] by {}
        assert forall|i: int| 0 <= i < n implies #[trigger] u.loops[i] == c.loops[i] by {}
        assert(loops_kept(b, u)) by {
            assert forall|i: int| 0 <= i < n implies (#[trigger] u.loops[i]).scope_base
                == b.loops[i].scope_base by {
                assert(c.loops[i].scope_base == e.loops[i].scope_base);
            }
            assert forall|i: int, p: usize|
                0 <= i < n && #[trigger] b.loops[i].break_jumps.contains(p) implies u.loops[i].break_jumps.contains(
            p) by {
                assert(e.loops[i].break_jumps.contains(p));
            }
            assert forall|i: int, p: usize|
                0 <= i < n && #[trigger] b.loops[i].continue_jumps.contains(p) implies u.loops[i].continue_jumps.contains(
            p) by {
                assert(e.loops[i].continue_jumps.contains(p));
            }
            assert forall|i: int, p: usize|
                0 <= i < n && #[trigger] u.loops[i].break_jumps.contains(p)
                    && !b.loops[i].break_jumps.contains(p) implies b.code.len() <= p
                < u.code.len() by {
                assert(c.loops[i].break_jumps.contains(p));
                assert(!e.loops[i].break_jumps.contains(p));
            }
            assert forall|i: int, p: usize|
                0 <= i < n && #[trigger] u.loops[i].continue_jumps.contains(p)
                    && !b.loops[i].continue_jumps.contains(p) implies b.code.len() <= p
                < u.code.len() by {
                assert(c.loops[i].continue_jumps.contains(p));
                assert(!e.loops[i].continue_jumps.contains(p));
            }
        }
        if waiting(b) {
            assert(waiting(e)) by {
                assert forall|i: int, p: usize|
                    0 <= i < e.loops.len() && #[trigger] e.loops[i].break_jumps.contains(
                        p,
                    ) implies {
                    &&& p < e.code.len()
                    &&& e.code[p as int] is Jump
                    &&& !e.loops[i].continue_jumps.contains(p)
                } by {
                    assert(waits(e.loops[i], p));
                    assert(b.loops[i].break_jumps.contains(p));
                    assert(e.code[p as int] == b.code[p as int]);
                }
                assert forall|i: int, p: usize|
                    0 <= i < e.loops.len() && #[trigger] e.loops[i].continue_jumps.contains(
                        p,
                    ) implies {
                    &&& p < e.code.len()
                    &&& e.code[p as int] is Jump
                    &&& !e.loops[i].break_jumps.contains(p)
                } by {
                    assert(waits(e.loops[i], p));
                    assert(b.loops[i].continue_jumps.contains(p));
                    assert(e.code[p as int] == b.code[p as int]);
                }
            }
            assert(waiting(u)) by {
                assert forall|i: int, p: usize|
                    0 <= i < u.loops.len() && #[trigger] u.loops[i].break_jumps.contains(
                        p,
                    ) implies {
                    &&& p < u.code.len()
                    &&& u.code[p as int] is Jump
                    &&& !u.loops[i].continue_jumps.contains(p)
                } by {
                    assert(c.loops[i].break_jumps.contains(p));
                }
                assert forall|i: int, p: usize|
                    0 <= i < u.loops.len() && #[trigger] u.loops[i].continue_jumps.contains(
                        p,
                    ) implies {
                    &&& p < u.code.len()
                    &&& u.code[p as int] is Jump
                    &&& !u.loops[i].break_jumps.contains(p)
                } by {
                    assert(c.loops[i].continue_jumps.contains(p));
                }
            }
            assert forall|i: int, p: usize|
                0 <= i < b.loops.len() && #[trigger] waits(c.loops[i], p) implies p < b.code.len()
                || e.code.len() <= p by {
                assert(e.loops[i] == b.loops[i]);
                if c.loops[i].break_jumps.contains(p) {
                    if b.loops[i].break_jumps.contains(p) {
                    } else {
                        assert(!e.loops[i].break_jumps.contains(p));
                    }
                } else if b.loops[i].continue_jumps.contains(p) {
                } else {
                    assert(!e.loops[i].continue_jumps.contains(p));
                }
            }
        }
        if sound(b) {
            assert(sound(e));
            assert(sound(u));
            assert forall|k: int|
                b.code.len() <= k < u.code.len() && #[trigger] u.code[k] is Store implies
                b.next_slot <= u.code[k]->Store_0 || taken(b, u.code[k]->Store_0) by {
                let t = u.code[k]->Store_0;
                assert(c.code[k] is Store);
                if k < e.code.len() {
                    assert(c.code[k] == e.code[k]);
                } else if taken(e, t) && t < b.next_slot {
                    if exists|m: Seq<char>| #[trigger]
                        e.names.contains_key(m) && e.names[m].0 == t {
                        let m = choose|m: Seq<char>| #[trigger]
                            e.names.contains_key(m) && e.names[m].0 == t;
                        assert(b.names.contains_key(m));
                    }
                }
            }
            assert(slots_kept(b, u));
        }
    }
}

/// A store into a slot that was free.
#[verifier::spinoff_prover]
#[verifier::rlimit(40)]
proof fn lemma_store_free(b: State, u: State, slot: usize)
    requires
        keeps(b, u),
        u.code.len() < usize::MAX && sound(b) ==> b.next_slot <= slot,
    ensures
        keeps(b, emit(u, OpView::Store(slot))),
{
    let done = emit(u, OpView::Store(slot));
    if done.code.len() <= usize::MAX {
        assert(code_kept(b, done)) by {
            assert forall|k: int| 0 <= k < b.code.len() implies #[trigger] done.code[k]
                == b.code[k] by {
                assert(u.code[k] == b.code[k]);
            }
        }
        if waiting(b) {
            assert(waiting(done));
        }
        if sound(b) {
            assert(sound(done));
            assert forall|k: int|
                b.code.len() <= k < done.code.len() && #[trigger] done.code[k] is Store implies
                b.next_slot <= done.code[k]->Store_0 || taken(b, done.code[k]->Store_0) by {
                if k < u.code.len() {
                    assert(done.code[k] == u.code[k]);
                }
            }
            assert(slots_kept(b, done));
        }
    }
}

/// The end of a loop: the way out and the jumps of `break` and `continue` get
/// their targets.
#[verifier::spinoff_prover]
#[verifier::rlimit(40)]
proof fn lemma_close(b: State, t: State, l: LoopView, exit: usize, end: usize, next: usize)
    requires
        keeps(b, t),
        t.code.len() <= usize::MAX ==> {
            &&& b.code.len() <= exit
            &&& forall|p: usize| #[trigger] waits(l, p) ==> b.code.len() <= p
            &&& waiting(b) ==> forall|i: int, p: usize|
                0 <= i < t.loops.len() && #[trigger] waits(t.loops[i], p) ==> p != exit
        },
    ensures
        keeps(
            b,
            patch_jumps(
                patch_jumps(patch(t, exit, OpView::JumpIfFalse(end)), l.break_jumps, 0, end),
                l.continue_jumps,
                0,
                next,
            ),
        ),
{
    let t1 = patch(t, exit, OpView::JumpIfFalse(end));
    lemma_targets(t1, l.break_jumps, 0, end);
    let t2 = patch_jumps(t1, l.break_jumps, 0, end);
    lemma_targets(t2, l.continue_jumps, 0, next);
    if t.code.len() <= usize::MAX {
        lemma_patch(b, t, exit, OpView::JumpIfFalse(end));
        assert forall|p: usize| #[trigger] l.break_jumps.contains(p) implies b.code.len() <= p by {
            assert(waits(l, p));
        }
        lemma_patch_list(b, t1, l.break_jumps, 0, end);
        assert forall|p: usize| #[trigger]
            l.continue_jumps.contains(p) implies b.code.len() <= p by {
            assert(waits(l, p));
        }
        lemma_patch_list(b, t2, l.continue_jumps, 0, next);
    }
}

#[verifier::spinoff_prover]
#[verifier::rlimit(40)]
proof fn lemma_block(ctx: Context, c: State, body: Seq<StatementView>, i: int)
    ensures
        match block_code(ctx, c, body, i) {
            Ok(c1) => keeps(c, c1),
            Err(_) => true,
        },
    decreases remaining(ctx.files, ctx.compiling), 1int, body, body.len() - i,
{
    lemma_same(c, c);
    if 0 <= i < body.len() {
        match statement_code(ctx, c, body[i]) {
            Ok(c1) => {
                lemma_statement(ctx, c, body[i]);
                lemma_block(ctx, c1, body, i + 1);
                match block_code(ctx, c1, body, i + 1) {
                    Ok(done) => {
                        lemma_follow(c, c1, done);
                    },
                    Err(_) => {},
                }
            },
            Err(_) => {},
        }
    }
}

proof fn lemma_scoped(ctx: Context, c: State, body: Seq<StatementView>)
    ensures
        match scoped_code(ctx, c, body) {
            Ok(c1) => keeps(c, c1) && restored(c, c1),
            Err(_) => true,
        },
    decreases remaining(ctx.files, ctx.compiling), 1int, body, body.len() + 1,
{
    lemma_block(ctx, inner(c), body, 0);
    match block_code(ctx, inner(c), body, 0) {
        Ok(c1) => {
            lemma_block_end(c, c1);
        },
        Err(_) => {},
    }
}

/// A jump over a branch gets its target: it lies before the branch.
#[verifier::spinoff_prover]
#[verifier::rlimit(40)]
proof fn lemma_skip(c: State, b: State, c1: State, at: usize, op: OpView)
    requires
        keeps(c, b),
        keeps(b, c1),
        b.loops == c.loops,
        c1.code.len() <= usize::MAX ==> c.code.len() <= at < b.code.len(),
        !(op is Store),
    ensures
        keeps(c, patch(c1, at, op)),
{
    lemma_follow(c, b, c1);
    if c1.code.len() <= usize::MAX {
        if waiting(c) {
            assert forall|i: int, p: usize|
                0 <= i < c1.loops.len() && #[trigger] waits(c1.loops[i], p) implies p != at by {
                if c1.loops[i].break_jumps.contains(p) {
                    if c.loops[i].break_jumps.contains(p) {
                    } else {
                        assert(!b.loops[i].break_jumps.contains(p));
                    }
                } else if c.loops[i].continue_jumps.contains(p) {
                } else {
                    assert(!b.loops[i].continue_jumps.contains(p));
                }
            }
        }
        lemma_patch(c, c1, at, op);
    }
}

#[verifier::spinoff_prover]
#[verifier::rlimit(40)]
proof fn lemma_if(ctx: Context, c: State, s: StatementView)
    ensures
        match if_code(ctx, c, s) {
            Ok(c1) => keeps(c, c1),
            Err(_) => true,
        },
    decreases remaining(ctx.files, ctx.compiling), 1int, s, 40int,
{
    lemma_same(c, c);
    match s {
        StatementView::If { condition, then_body, else_body } => match if_code(ctx, c, s) {
            Ok(done) => {
                let (c1, _) = expr_code(ctx, c, condition, None)->Ok_0;
                lemma_expr(ctx, c, condition, None);
                expr_grows(ctx, c, condition, None);
                let false_jump = c1.code.len() as usize;
                let b = emit(c1, OpView::JumpIfFalse(usize::MAX));
                lemma_emit(c1, OpView::JumpIfFalse(usize::MAX));
                lemma_follow(c, c1, b);
                let c2 = scoped_code(ctx, b, then_body)->Ok_0;
                lemma_scoped(ctx, b, then_body);
                if done.code.len() <= usize::MAX {
                    if else_body.len() == 0 {
                        lemma_skip(
                            c,
                            b,
                            c2,
                            false_jump,
                            OpView::JumpIfFalse(c2.code.len() as usize),
                        );
                    } else {
                        let end_jump = c2.code.len() as usize;
                        let c3 = emit(c2, OpView::Jump(usize::MAX));
                        lemma_emit(c2, OpView::Jump(usize::MAX));
                        lemma_follow(b, c2, c3);
                        let op = OpView::JumpIfFalse(c3.code.len() as usize);
                        let d = patch(c3, false_jump, op);
                        let c4 = scoped_code(ctx, d, else_body)->Ok_0;
                        lemma_scoped(ctx, d, else_body);
                        assert(c4.code.len() == done.code.len());
                        assert(b.loops == c.loops);
                        lemma_skip(c, b, c3, false_jump, op);
                        lemma_follow(c, d, c4);
                        lemma_patch(c, c4, end_jump, OpView::Jump(c4.code.len() as usize));
                    }
                }
            },
            Err(_) => {},
        },
        _ => {},
    }
}

#[verifier::spinoff_prover]
#[verifier::rlimit(40)]
proof fn lemma_while(ctx: Context, c: State, s: StatementView)
    ensures
        match while_code(ctx, c, s) {
            Ok(c1) => keeps(c, c1),
            Err(_) => true,
        },
    decreases remaining(ctx.files, ctx.compiling), 1int, s, 40int,
{
    lemma_same(c, c);
    match s {
        StatementView::While { condition, body } => match while_code(ctx, c, s) {
            Ok(done) => {
                let loop_start = c.code.len() as usize;
                let (c1, _) = expr_code(ctx, c, condition, None)->Ok_0;
                lemma_expr(ctx, c, condition, None);
                let exit_jump = c1.code.len() as usize;
                let e = open_loop(emit(c1, OpView::JumpIfFalse(usize::MAX)));
                lemma_emit(c1, OpView::JumpIfFalse(usize::MAX));
                let c3 = scoped_code(ctx, e, body)->Ok_0;
                lemma_scoped(ctx, e, body);
                let c4 = emit(c3, OpView::Jump(loop_start));
                let end = c4.code.len() as usize;
                assert(entered(c1, e));
                lemma_loop(c1, e, c3);
                let u = left(c1, c3);
                lemma_emit(u, OpView::Jump(loop_start));
                lemma_follow(c1, u, emit(u, OpView::Jump(loop_start)));
                lemma_loop_done(c1, e, c3, c4, exit_jump, end, loop_start);
                lemma_closed_names(patch(c4, exit_jump, OpView::JumpIfFalse(end)), end, loop_start);
                assert(done == (State { names: c1.names, next_slot: c1.next_slot, ..done }));
                lemma_follow(c, c1, done);
            },
            Err(_) => {},
        },
        _ => {},
    }
}

/// A loop whose body has been compiled is closed; `t` is the state behind the
/// step and the jump back.
#[verifier::spinoff_prover]
#[verifier::rlimit(40)]
proof fn lemma_loop_done(
    b: State,
    e: State,
    c: State,
    t: State,
    exit: usize,
    end: usize,
    next: usize,
)
    requires
        entered(b, e),
        keeps(e, c),
        restored(e, c),
        t == (State { code: t.code, ..c }),
        keeps(b, State { code: t.code, ..left(b, c) }),
        c.code.len() <= t.code.len(),
        t.code.len() <= usize::MAX ==> b.code.len() <= exit < e.code.len(),
    ensures
        ({
            let done = close_loop(patch(t, exit, OpView::JumpIfFalse(end)), end, next);
            keeps(b, State { names: b.names, next_slot: b.next_slot, ..done })
        }),
{
    let done = close_loop(patch(t, exit, OpView::JumpIfFalse(end)), end, next);
    let u = State { code: t.code, ..left(b, c) };
    lemma_loop(b, e, c);
    if c.loops.len() > 0 {
        let l = c.loops.last();
        let t1 = patch(t, exit, OpView::JumpIfFalse(end));
        let t2 = State { loops: t1.loops.drop_last(), ..t1 };
        let u1 = patch(u, exit, OpView::JumpIfFalse(end));
        assert(t1.loops == c.loops);
        assert(t2.code == u1.code);
        lemma_patched_code(t2, u1, l.break_jumps, 0, end);
        lemma_patched_code(u1, u1, l.break_jumps, 0, end);
        let t3 = patch_jumps(t2, l.break_jumps, 0, end);
        let u2 = patch_jumps(u1, l.break_jumps, 0, end);
        lemma_patched_code(t3, u2, l.continue_jumps, 0, next);
        lemma_patched_code(u2, u2, l.continue_jumps, 0, next);
        let u3 = patch_jumps(u2, l.continue_jumps, 0, next);
        assert(u3 == (State { names: b.names, next_slot: b.next_slot, ..done }));
        if t.code.len() <= usize::MAX {
            assert(c.code.len() <= usize::MAX);
            if waiting(b) {
                assert forall|i: int, p: usize|
                    0 <= i < u.loops.len() && #[trigger] waits(u.loops[i], p) implies p
                    != exit by {
                    assert(u.loops[i] == c.loops[i]);
                    assert(waits(c.loops[i], p));
                }
            }
        }
        lemma_close(b, u, l, exit, end, next);
    } else {
        lemma_targets(t, Seq::empty(), 0, end);
        assert(done.code.len() == t.code.len());
    }
}

/// Closing a loop changes code and loops alone.
proof fn lemma_closed_names(c: State, end: usize, next: usize)
    ensures
        ({
            let done = close_loop(c, end, next);
            &&& done == (State { code: done.code, loops: done.loops, ..c })
            &&& done.code.len() == c.code.len()
        }),
{
    if c.loops.len() > 0 {
        let l = c.loops.last();
        let c1 = State { loops: c.loops.drop_last(), ..c };
        lemma_targets(c1, l.break_jumps, 0, end);
        lemma_targets(patch_jumps(c1, l.break_jumps, 0, end), l.continue_jumps, 0, next);
    }
}

/// The end of a counting loop.
#[verifier::spinoff_prover]
#[verifier::rlimit(40)]
proof fn lemma_count_on(b: State, e: State, c: State, index_slot: usize, start: usize, exit: usize)
    requires
        entered(b, e),
        keeps(e, c),
        restored(e, c),
        c.code.len() <= usize::MAX ==> b.code.len() <= exit < e.code.len(),
        c.code.len() <= usize::MAX && sound(b) ==> b.next_slot <= index_slot,
    ensures
        keeps(
            b,
            State {
                names: b.names,
                next_slot: b.next_slot,
                ..count_on(c, index_slot, start, exit)
            },
        ),
        count_on(c, index_slot, start, exit).names == c.names,
{
    let u = left(b, c);
    lemma_loop(b, e, c);
    let u1 = emit(u, OpView::Load(index_slot));
    let u2 = emit(u1, OpView::Push(ValueView::I32(1)));
    let u3 = emit(u2, OpView::Binary(BinaryOp::I32(BinOp::Add)));
    let u4 = emit(u3, OpView::Store(index_slot));
    let u5 = emit(u4, OpView::Jump(start));
    lemma_emit(u, OpView::Load(index_slot));
    lemma_follow(b, u, u1);
    lemma_emit(u1, OpView::Push(ValueView::I32(1)));
    lemma_follow(b, u1, u2);
    lemma_emit(u2, OpView::Binary(BinaryOp::I32(BinOp::Add)));
    lemma_follow(b, u2, u3);
    lemma_store_free(b, u3, index_slot);
    lemma_emit(u4, OpView::Jump(start));
    lemma_follow(b, u4, u5);
    let step = c.code.len() as usize;
    let t = emit(
        emit(
            emit(
                emit(emit(c, OpView::Load(index_slot)), OpView::Push(ValueView::I32(1))),
                OpView::Binary(BinaryOp::I32(BinOp::Add)),
            ),
            OpView::Store(index_slot),
        ),
        OpView::Jump(start),
    );
    let end = t.code.len() as usize;
    assert(u5 == (State { code: t.code, ..left(b, c) }));
    lemma_loop_done(b, e, c, t, exit, end, step);
    lemma_closed_names(patch(t, exit, OpView::JumpIfFalse(end)), end, step);
}

/// A counting loop enters its body with slots of its own.
#[verifier::spinoff_prover]
#[verifier::rlimit(40)]
proof fn lemma_count_entered(b: State, name: Seq<char>)
    requires
        !b.names.contains_key(name),
    ensures
        entered(b, count_entered(b, name)),
        count_entered(b, name).code.len() == b.code.len() + 6,
{
    let e = count_entered(b, name);
    assert forall|k: int| 0 <= k < b.code.len() implies #[trigger] e.code[k] == b.code[k] by {}
    let n = b.code.len() as int;
    if e.code.len() <= usize::MAX && sound(b) {
        assert(e.next_slot == b.next_slot + 2);
        assert(sound(e));
        assert(e.code[n] == OpView::Store((b.next_slot + 1) as usize));
        assert(e.code[n + 1] == OpView::Store(b.next_slot));
        assert(e.code[n + 2] == OpView::Load(b.next_slot));
    }
}

/// So does a loop over items.
#[verifier::spinoff_prover]
#[verifier::rlimit(40)]
proof fn lemma_walk_entered(b: State, name: Seq<char>, t: TypeView, element: TypeView)
    requires
        !b.names.contains_key(name),
        item_type(t) is Some,
    ensures
        entered(b, walk_entered(b, name, t, element)),
        walk_entered(b, name, t, element).code.len() == b.code.len() + 14,
{
    let e = walk_entered(b, name, t, element);
    assert forall|k: int| 0 <= k < b.code.len() implies #[trigger] e.code[k] == b.code[k] by {}
    let n = b.code.len() as int;
    if e.code.len() <= usize::MAX && sound(b) {
        assert(e.next_slot == b.next_slot + 4);
        assert(sound(e));
        assert(e.code[n] == OpView::Store(b.next_slot));
        assert(e.code[n + 3] == OpView::Store((b.next_slot + 1) as usize));
        assert(e.code[n + 5] == OpView::Store((b.next_slot + 2) as usize));
        assert(e.code[n + 12] == item_op(t));
        assert(e.code[n + 13] == OpView::Store((b.next_slot + 3) as usize));
    }
}

#[verifier::spinoff_prover]
#[verifier::rlimit(40)]
proof fn lemma_for(ctx: Context, c: State, s: StatementView)
    ensures
        match for_code(ctx, c, s) {
            Ok(c1) => keeps(c, c1),
            Err(_) => true,
        },
    decreases remaining(ctx.files, ctx.compiling), 1int, s, 40int,
{
    lemma_same(c, c);
    match s {
        StatementView::For { name, start, end, body } => match for_code(ctx, c, s) {
            Ok(done) => {
                let (c1, _) = expr_code(ctx, c, start, Some(TypeView::I32))->Ok_0;
                let (c2, _) = expr_code(ctx, c1, end, Some(TypeView::I32))->Ok_0;
                lemma_expr(ctx, c, start, Some(TypeView::I32));
                lemma_expr(ctx, c1, end, Some(TypeView::I32));
                expr_grows(ctx, c, start, Some(TypeView::I32));
                expr_grows(ctx, c1, end, Some(TypeView::I32));
                lemma_follow(c, c1, c2);
                let index_slot = c2.next_slot;
                let loop_start = (c2.code.len() + 2) as usize;
                let exit_jump = (c2.code.len() + 5) as usize;
                let e = count_entered(c2, name);
                let c8 = scoped_code(ctx, e, body)->Ok_0;
                lemma_scoped(ctx, e, body);
                let c9 = count_on(c8, index_slot, loop_start, exit_jump);
                lemma_closed_len(c8, index_slot, loop_start, exit_jump);
                if done.code.len() <= usize::MAX {
                    assert(!c2.names.contains_key(name));
                    lemma_count_entered(c2, name);
                    lemma_count_on(c2, e, c8, index_slot, loop_start, exit_jump);
                    assert(c9.names.remove(name) =~= c2.names);
                    lemma_follow(c, c2, done);
                }
            },
            Err(_) => {},
        },
        _ => {},
    }
}

proof fn lemma_closed_len(c: State, index_slot: usize, start: usize, exit: usize)
    ensures
        count_on(c, index_slot, start, exit).code.len() == c.code.len() + 5,
{
    let t = emit(
        emit(
            emit(
                emit(emit(c, OpView::Load(index_slot)), OpView::Push(ValueView::I32(1))),
                OpView::Binary(BinaryOp::I32(BinOp::Add)),
            ),
            OpView::Store(index_slot),
        ),
        OpView::Jump(start),
    );
    let end = t.code.len() as usize;
    lemma_closed_names(
        patch(t, exit, OpView::JumpIfFalse(end)),
        end,
        c.code.len() as usize,
    );
}

#[verifier::spinoff_prover]
#[verifier::rlimit(40)]
proof fn lemma_for_in(ctx: Context, c: State, s: StatementView)
    ensures
        match for_in_code(ctx, c, s) {
            Ok(c1) => keeps(c, c1),
            Err(_) => true,
        },
    decreases remaining(ctx.files, ctx.compiling), 1int, s, 40int,
{
    lemma_same(c, c);
    match s {
        StatementView::ForIn { name, iterable, body } => match for_in_code(ctx, c, s) {
            Ok(done) => {
                let (c1, t) = expr_code(ctx, c, iterable, None)->Ok_0;
                lemma_expr(ctx, c, iterable, None);
                expr_grows(ctx, c, iterable, None);
                let element = item_type(t)->Some_0;
                let index_slot = c1.next_slot.wrapping_add(1).wrapping_add(1);
                let loop_start = (c1.code.len() + 6) as usize;
                let exit_jump = (c1.code.len() + 9) as usize;
                let e = walk_entered(c1, name, t, element);
                let c11 = scoped_code(ctx, e, body)->Ok_0;
                lemma_scoped(ctx, e, body);
                let c12 = count_on(c11, index_slot, loop_start, exit_jump);
                lemma_closed_len(c11, index_slot, loop_start, exit_jump);
                if done.code.len() <= usize::MAX {
                    assert(!c1.names.contains_key(name));
                    lemma_walk_entered(c1, name, t, element);
                    lemma_count_on(c1, e, c11, index_slot, loop_start, exit_jump);
                    assert(c12.names.remove(name) =~= c1.names);
                    lemma_follow(c, c1, done);
                }
            },
            Err(_) => {},
        },
        _ => {},
    }
}

#[verifier::spinoff_prover]
#[verifier::rlimit(40)]
proof fn lemma_parameters(c: State, args: Seq<(Seq<char>, TypeView)>, n: int)
    requires
        c.nested,
    ensures
        ({
            let done = parameters_code(c, args, n);
            &&& c.code.len() <= done.code.len()
            &&& done == (State {
                names: done.names,
                next_slot: done.next_slot,
                code: done.code,
                ..c
            })
            &&& done.code.len() <= usize::MAX ==> code_kept(c, done)
            &&& done.code.len() <= usize::MAX && sound(c) ==> {
                &&& sound(done)
                &&& c.next_slot <= done.next_slot
                &&& forall|k: int|
                    c.code.len() <= k < done.code.len() && #[trigger] done.code[k] is Store
                        ==> c.next_slot <= done.code[k]->Store_0
            }
        }),
    decreases n,
{
    if 0 < n <= args.len() {
        let slot = c.next_slot;
        let c1 = State {
            names: c.names.insert(args[n - 1].0, (slot, args[n - 1].1)),
            next_slot: slot.wrapping_add(1),
            ..c
        };
        let c2 = emit(c1, OpView::Store(slot));
        lemma_parameters(c2, args, n - 1);
        let done = parameters_code(c, args, n);
        assert(done == parameters_code(c2, args, n - 1));
        if done.code.len() <= usize::MAX {
            assert forall|k: int| 0 <= k < c.code.len() implies #[trigger] done.code[k]
                == c.code[k] by {
                assert(done.code[k] == c2.code[k]);
            }
            if sound(c) {
                assert(c2.next_slot == c.next_slot + 1);
                assert(sound(c2));
                assert forall|k: int|
                    c.code.len() <= k < done.code.len() && #[trigger] done.code[k] is Store implies
                    c.next_slot <= done.code[k]->Store_0 by {
                    if k == c.code.len() {
                        assert(done.code[k] == c2.code[k]);
                    }
                }
            }
        }
    }
}

/// The state in which a method's parameters are compiled.
spec fn method_start(c: State, struct_name: Seq<char>, method: Seq<char>) -> State {
    let c1 = emit(c, OpView::Jump(usize::MAX));
    State {
        methods: c1.methods.insert((struct_name, method), Some(c1.code.len() as usize)),
        method_fields: Some(c.structs[struct_name].fields),
        method_struct: Some(struct_name),
        names: Map::empty(),
        nested: true,
        scopes: seq![Seq::empty()],
        ..c1
    }
}

/// What the body of a method keeps of the state around the method.
#[verifier::spinoff_prover]
#[verifier::rlimit(40)]
proof fn lemma_method_end(
    c: State,
    struct_name: Seq<char>,
    method: Seq<char>,
    p: State,
    c4: State,
    done: State,
)
    requires
        ({
            let c2 = method_start(c, struct_name, method);
            &&& p == (State {
                names: p.names,
                next_slot: p.next_slot,
                code: p.code,
                ..c2
            })
            &&& p.code.len() <= usize::MAX ==> code_kept(c2, p)
            &&& p.code.len() <= usize::MAX && sound(c2) ==> {
                &&& sound(p)
                &&& c2.next_slot <= p.next_slot
                &&& forall|k: int|
                    c2.code.len() <= k < p.code.len() && #[trigger] p.code[k] is Store
                        ==> c2.next_slot <= p.code[k]->Store_0
            }
        }),
        keeps(p, c4),
        done == emit(
            State {
                method_fields: c.method_fields,
                method_struct: c.method_struct,
                names: c.names,
                nested: c.nested,
                scopes: c.scopes,
                ..c4
            },
            OpView::Return,
        ),
        forall|n: Seq<char>| #[trigger]
            p.names.contains_key(n) && p.code.len() <= usize::MAX && sound(c) ==> c.next_slot
                <= p.names[n].0,
        !(c.methods[(struct_name, method)] is Some),
    ensures
        keeps(c, done),
        done.code.len() <= usize::MAX ==> c.code.len() < done.code.len(),
{
    let c1 = emit(c, OpView::Jump(usize::MAX));
    let c2 = method_start(c, struct_name, method);
    if done.code.len() <= usize::MAX {
        assert(code_kept(c, done)) by {
            assert forall|k: int| 0 <= k < c.code.len() implies #[trigger] done.code[k]
                == c.code[k] by {
                assert(c4.code[k] == p.code[k]);
                assert(p.code[k] == c2.code[k]);
            }
        }
        assert(loops_kept(c, done)) by {
            assert(loops_kept(p, c4));
            assert(p.loops == c.loops);
        }
        assert forall|key: (Seq<char>, Seq<char>)| #[trigger]
            c.methods.contains_key(key) implies done.methods.contains_key(key) && (
        c.methods[key] is Some ==> done.methods[key] == c.methods[key]) by {
            assert(p.methods.contains_key(key));
        }
        if waiting(c) {
            assert(waiting(p)) by {
                assert(waiting(c1));
                assert forall|k: int| 0 <= k < c1.code.len() implies #[trigger] p.code[k]
                    == c1.code[k] by {}
            }
            assert(waiting(done));
        }
        if sound(c) {
            assert(sound(c2));
            assert(sound(done)) by {
                assert forall|n: Seq<char>| #[trigger]
                    done.globals.contains_key(n) <==> c.globals.contains_key(n) by {
                    assert(c4.globals.contains_key(n) ==> p.globals.contains_key(n));
                    assert(p.globals.contains_key(n) ==> c4.globals.contains_key(n));
                }
                assert forall|n: Seq<char>| #[trigger]
                    c.globals.contains_key(n) implies done.globals[n].0 == c.globals[n].0 by {
                    assert(p.globals.contains_key(n));
                }
            }
            assert forall|k: int|
                c.code.len() <= k < done.code.len() && #[trigger] done.code[k] is Store implies
                c.next_slot <= done.code[k]->Store_0 || taken(c, done.code[k]->Store_0) by {
                let t = done.code[k]->Store_0;
                assert(k < c4.code.len() && c4.code[k] == done.code[k]);
                if k < p.code.len() {
                    assert(c4.code[k] == p.code[k]);
                    if k == c.code.len() {
                        assert(p.code[k] == c2.code[k]);
                    }
                } else if taken(p, t) && t < c.next_slot {
                    if exists|n: Seq<char>| #[trigger]
                        p.names.contains_key(n) && p.names[n].0 == t {
                        let n = choose|n: Seq<char>| #[trigger]
                            p.names.contains_key(n) && p.names[n].0 == t;
                        assert(false);
                    }
                }
            }
            assert forall|n: Seq<char>| #[trigger]
                c.globals.contains_key(n) implies done.globals.contains_key(n)
                && done.globals[n].0 == c.globals[n].0 by {
                assert(p.globals.contains_key(n));
            }
            assert forall|n: Seq<char>| #[trigger]
                done.globals.contains_key(n) implies c.globals.contains_key(n) by {
                assert(c4.globals.contains_key(n));
            }
            assert(slots_kept(c, done));
        }
    }
}

/// Parameters get slots that were free.
proof fn lemma_parameter_slots(c: State, args: Seq<(Seq<char>, TypeView)>, n: int, base: usize)
    requires
        c.nested,
        sound(c),
        base <= c.next_slot,
        forall|m: Seq<char>| #[trigger] c.names.contains_key(m) ==> base <= c.names[m].0,
        parameters_code(c, args, n).code.len() <= usize::MAX,
    ensures
        forall|m: Seq<char>| #[trigger]
            parameters_code(c, args, n).names.contains_key(m) ==> base <= parameters_code(
                c,
                args,
                n,
            ).names[m].0,
    decreases n,
{
    if 0 < n <= args.len() {
        let slot = c.next_slot;
        let c1 = State {
            names: c.names.insert(args[n - 1].0, (slot, args[n - 1].1)),
            next_slot: slot.wrapping_add(1),
            ..c
        };
        let c2 = emit(c1, OpView::Store(slot));
        lemma_parameters(c2, args, n - 1);
        assert(parameters_code(c, args, n) == parameters_code(c2, args, n - 1));
        assert(sound(c2));
        lemma_parameter_slots(c2, args, n - 1, base);
    }
}

#[verifier::spinoff_prover]
#[verifier::rlimit(40)]
proof fn lemma_method(
    ctx: Context,
    c: State,
    struct_name: Seq<char>,
    method: Seq<char>,
    args: Seq<(Seq<char>, TypeView)>,
    body: Seq<StatementView>,
)
    ensures
        match method_code(ctx, c, struct_name, method, args, body) {
            Ok(c1) => keeps(c, c1),
            Err(_) => true,
        },
    decreases remaining(ctx.files, ctx.compiling), 1int, body, body.len() + 1,
{
    match method_code(ctx, c, struct_name, method, args, body) {
        Ok(done) => {
            let skip = c.code.len() as usize;
            let c2 = method_start(c, struct_name, method);
            let p = parameters_code(c2, args, args.len() as int);
            lemma_parameters(c2, args, args.len() as int);
            let c3 = block_code(ctx, p, body, 0)->Ok_0;
            lemma_block(ctx, p, body, 0);
            let c4 = close_scope(c3)->Ok_0;
            lemma_destructors(c3, c3.scopes.last().reverse(), 0);
            lemma_follow(p, c3, c4);
            let c5 = State {
                method_fields: c.method_fields,
                method_struct: c.method_struct,
                names: c.names,
                nested: c.nested,
                scopes: c.scopes,
                ..c4
            };
            let c6 = emit(c5, OpView::Return);
            if p.code.len() <= usize::MAX && sound(c) {
                assert(sound(c2));
                lemma_parameter_slots(c2, args, args.len() as int, c.next_slot);
            }
            lemma_method_end(c, struct_name, method, p, c4, c6);
            let op = OpView::Jump(c6.code.len() as usize);
            assert(done == patch(c6, skip, op));
            if done.code.len() <= usize::MAX {
                lemma_patch(c, c6, skip, op);
            }
        },
        Err(_) => {},
    }
}

proof fn lemma_declared(c: State, name: Seq<char>, methods: Seq<MethodView>, i: int)
    ensures
        match declare_methods(c, name, methods, i) {
            Ok(c1) => {
                &&& c1 == (State { methods: c1.methods, ..c })
                &&& forall|key: (Seq<char>, Seq<char>)| #[trigger]
                    c.methods.contains_key(key) ==> c1.methods.contains_key(key)
                        && c1.methods[key] == c.methods[key]
            },
            Err(_) => true,
        },
    decreases methods.len() - i,
{
    if 0 <= i < methods.len() {
        let d = State { methods: c.methods.insert((name, methods[i].name), None), ..c };
        assert forall|key: (Seq<char>, Seq<char>)| #[trigger]
            c.methods.contains_key(key) && !c.methods.contains_key(
                (name, methods[i].name),
            ) implies d.methods.contains_key(key) && d.methods[key] == c.methods[key] by {}
        lemma_declared(
            State { methods: c.methods.insert((name, methods[i].name), None), ..c },
            name,
            methods,
            i + 1,
        );
    }
}

proof fn lemma_member(ctx: Context, c: State, name: Seq<char>, m: MethodView)
    ensures
        match member_code(ctx, c, name, m) {
            Ok(c1) => keeps(c, c1),
            Err(_) => true,
        },
    decreases remaining(ctx.files, ctx.compiling), 1int, m, 0int,
{
    lemma_same(c, c);
    match m.body {
        Some(body) => {
            lemma_method(ctx, c, name, m.name, m.args, body);
        },
        None => {},
    }
}

proof fn lemma_members(ctx: Context, c: State, name: Seq<char>, methods: Seq<MethodView>, i: int)
    ensures
        match members_code(ctx, c, name, methods, i) {
            Ok(c1) => keeps(c, c1),
            Err(_) => true,
        },
    decreases remaining(ctx.files, ctx.compiling), 1int, methods, methods.len() - i,
{
    lemma_same(c, c);
    if 0 <= i < methods.len() {
        match member_code(ctx, c, name, methods[i]) {
            Ok(c1) => {
                lemma_member(ctx, c, name, methods[i]);
                lemma_members(ctx, c1, name, methods, i + 1);
                match members_code(ctx, c1, name, methods, i + 1) {
                    Ok(done) => {
                        lemma_follow(c, c1, done);
                    },
                    Err(_) => {},
                }
            },
            Err(_) => {},
        }
    }
}

proof fn lemma_struct(
    ctx: Context,
    c: State,
    name: Seq<char>,
    fields: Seq<(Seq<char>, TypeView)>,
    methods: Seq<MethodView>,
)
    ensures
        match struct_statement_code(ctx, c, name, fields, methods) {
            Ok(c1) => keeps(c, c1),
            Err(_) => true,
        },
    decreases remaining(ctx.files, ctx.compiling), 1int, methods, methods.len() + 1,
{
    match struct_statement_code(ctx, c, name, fields, methods) {
        Ok(done) => {
            let layout = LayoutView { name, fields: numbered(fields) };
            let d = State { structs: c.structs.insert(name, layout), ..c };
            lemma_declared(d, name, methods, 0);
            let c1 = declare_methods(d, name, methods, 0)->Ok_0;
            lemma_same(c, c1);
            lemma_members(ctx, c1, name, methods, 0);
            lemma_follow(c, c1, done);
        },
        Err(_) => {},
    }
}

proof fn lemma_export_function(
    ctx: Context,
    c: State,
    name: Seq<char>,
    body: Seq<StatementView>,
)
    ensures
        match export_function_code(ctx, c, name, body) {
            Ok(c1) => keeps(c, c1),
            Err(_) => true,
        },
    decreases remaining(ctx.files, ctx.compiling), 1int, body, body.len() + 2,
{
    match export_function_code(ctx, c, name, body) {
        Ok(done) => {
            let skip = c.code.len() as usize;
            let c1 = emit(c, OpView::Jump(usize::MAX));
            lemma_emit(c, OpView::Jump(usize::MAX));
            let c2 = scoped_code(ctx, c1, body)->Ok_0;
            lemma_scoped(ctx, c1, body);
            lemma_follow(c, c1, c2);
            let c3 = emit(c2, OpView::Return);
            lemma_emit(c2, OpView::Return);
            lemma_follow(c, c2, c3);
            let op = OpView::Jump(c3.code.len() as usize);
            let c4 = patch(c3, skip, op);
            if done.code.len() <= usize::MAX {
                lemma_patch(c, c3, skip, op);
                lemma_same(c4, done);
                lemma_follow(c, c4, done);
            }
        },
        Err(_) => {},
    }
}

#[verifier::spinoff_prover]
#[verifier::rlimit(40)]
proof fn lemma_statement(ctx: Context, c: State, s: StatementView)
    ensures
        match statement_code(ctx, c, s) {
            Ok(c1) => keeps(c, c1),
            Err(_) => true,
        },
    decreases remaining(ctx.files, ctx.compiling), 1int, s, 50int,
{
    match s {
        StatementView::Located { node, location } => {
            lemma_statement(ctx, c, *node);
        },
        StatementView::Struct { name, fields, methods } => {
            lemma_struct(ctx, c, name, fields, methods);
        },
        StatementView::MethodDefinition { struct_name, method, args, body } => {
            lemma_method(ctx, c, struct_name, method, args, body);
        },
        StatementView::ExportLet { name, ty, expr } => {
            let text = text_in(ctx, name);
            lemma_let(ctx, c, text, ty, expr);
            match statement_code(ctx, c, s) {
                Ok(done) => {
                    let c1 = let_code(ctx, c, text, ty, expr)->Ok_0;
                    lemma_same(c1, done);
                    lemma_follow(c, c1, done);
                },
                Err(_) => {},
            }
        },
        StatementView::ExportStruct { name, fields, methods } => {
            lemma_struct(ctx, c, name, fields, methods);
            match statement_code(ctx, c, s) {
                Ok(done) => {
                    let c1 = struct_statement_code(ctx, c, name, fields, methods)->Ok_0;
                    lemma_same(c1, done);
                    lemma_follow(c, c1, done);
                },
                Err(_) => {},
            }
        },
        StatementView::ExportFunction { name, body } => {
            lemma_export_function(ctx, c, name, body);
        },
        StatementView::CallMethod { receiver, method } => {
            lemma_call_method(c, receiver, method);
        },
        StatementView::Let { name, ty, expr } => {
            lemma_let(ctx, c, text_in(ctx, name), ty, expr);
        },
        StatementView::Assign { name, expr } => {
            lemma_assign(ctx, c, name, expr);
        },
        StatementView::GlobalAssign { name, expr } => {
            lemma_global_assign(ctx, c, name, expr);
        },
        StatementView::SetIndex { .. } => {
            lemma_set_index(ctx, c, s);
        },
        StatementView::SetField { name, field, expr } => {
            lemma_set_field(ctx, c, name, field, expr);
        },
        StatementView::SetFieldIndex { .. } => {
            lemma_set_field_index(ctx, c, s);
        },
        StatementView::Print(expr) => {
            lemma_expr(ctx, c, expr, None);
            match expr_code(ctx, c, expr, None) {
                Ok((c1, _)) => {
                    lemma_emit(c1, OpView::Print);
                    lemma_follow(c, c1, emit(c1, OpView::Print));
                },
                Err(_) => {},
            }
        },
        StatementView::Printf { .. } => {
            lemma_printf(ctx, c, s);
        },
        StatementView::Putc(expr) => {
            lemma_expr(ctx, c, expr, None);
            match expr_code(ctx, c, expr, None) {
                Ok((c1, _)) => {
                    lemma_emit(c1, OpView::Putc);
                    lemma_follow(c, c1, emit(c1, OpView::Putc));
                },
                Err(_) => {},
            }
        },
        StatementView::If { .. } => {
            lemma_if(ctx, c, s);
        },
        StatementView::While { .. } => {
            lemma_while(ctx, c, s);
        },
        StatementView::For { .. } => {
            lemma_for(ctx, c, s);
        },
        StatementView::ForIn { .. } => {
            lemma_for_in(ctx, c, s);
        },
        StatementView::Break => {
            lemma_leave(c, true);
        },
        StatementView::Continue => {
            lemma_leave(c, false);
        },
    }
}

/// In every state that a program's statements lead to, names in scope have slots
/// of their own below the next slot, and the jumps that wait are jumps.
pub proof fn names_have_slots_of_their_own(ctx: Context, body: Seq<StatementView>, i: int)
    requires
        0 <= i <= body.len(),
        block_code(ctx, empty_state(), body.take(i), 0) matches Ok(c) && c.code.len()
            <= usize::MAX,
    ensures
        sound(block_code(ctx, empty_state(), body.take(i), 0)->Ok_0),
        waiting(block_code(ctx, empty_state(), body.take(i), 0)->Ok_0),
{
    lemma_block(ctx, empty_state(), body.take(i), 0);
}

/// Wherever names have slots of their own before a statement, they have them
/// after it. What was bound keeps its slot, what is new gets a slot that was
/// free, and the code that the statement adds stores into no slot but those.
pub proof fn statements_store_only_into_their_slots(ctx: Context, c: State, s: StatementView)
    requires
        sound(c),
        statement_code(ctx, c, s) matches Ok(c1) && c1.code.len() <= usize::MAX,
    ensures
        sound(statement_code(ctx, c, s)->Ok_0),
        slots_kept(c, statement_code(ctx, c, s)->Ok_0),
{
    lemma_statement(ctx, c, s);
}

/// A statement adds its code behind the code that is there, and leaves the
/// blocks and loops around it open.
pub proof fn statements_only_add_code(ctx: Context, c: State, s: StatementView)
    requires
        statement_code(ctx, c, s) matches Ok(c1) && c1.code.len() <= usize::MAX,
    ensures
        code_kept(c, statement_code(ctx, c, s)->Ok_0),
        blocks_kept(c, statement_code(ctx, c, s)->Ok_0),
        loops_kept(c, statement_code(ctx, c, s)->Ok_0),
        waiting(c) ==> waiting(statement_code(ctx, c, s)->Ok_0),
{
    lemma_statement(ctx, c, s);
}

/// The same holds of a block, which gives the slots of its locals back.
pub proof fn blocks_give_their_slots_back(ctx: Context, c: State, body: Seq<StatementView>)
    requires
        scoped_code(ctx, c, body) matches Ok(c1) && c1.code.len() <= usize::MAX,
    ensures
        keeps(c, scoped_code(ctx, c, body)->Ok_0),
        restored(c, scoped_code(ctx, c, body)->Ok_0),
{
    lemma_scoped(ctx, c, body);
}

/// The slots that the code of `e` behind that of `c` stores into are all
/// different, and lie between the next slots of `c` and of `e`: whatever is bound
/// in `e` afterwards has another slot.
pub open spec fn sets_slots_aside(c: State, e: State) -> bool {
    &&& code_kept(c, e)
    &&& forall|k: int|
        c.code.len() <= k < e.code.len() && #[trigger] e.code[k] is Store ==> c.next_slot
            <= e.code[k]->Store_0 < e.next_slot
    &&& forall|j: int, k: int|
        c.code.len() <= j < k < e.code.len() && #[trigger] e.code[j] is Store && #[trigger]
        e.code[k] is Store ==> e.code[j] != e.code[k]
}

/// Where the body of a loop over items starts, the item, what is walked over, its
/// length and the position have slots of their own, which nothing in the body can
/// take, and the last thing that was done is to store the item into the slot of
/// the loop's name.
#[verifier::spinoff_prover]
#[verifier::rlimit(40)]
pub proof fn loops_over_items_set_slots_aside(
    c: State,
    name: Seq<char>,
    t: TypeView,
    element: TypeView,
)
    requires
        sound(c),
        !c.names.contains_key(name),
        item_type(t) is Some,
        walk_entered(c, name, t, element).code.len() <= usize::MAX,
    ensures
        ({
            let e = walk_entered(c, name, t, element);
            &&& sound(e)
            &&& sets_slots_aside(c, e)
            &&& e.names.contains_key(name)
            &&& e.names[name].1 == element
            &&& e.code.last() == OpView::Store(e.names[name].0)
            &&& forall|n: Seq<char>| #[trigger]
                c.names.contains_key(n) ==> e.names.contains_key(n) && e.names[n] == c.names[n]
        }),
{
    lemma_walk_entered(c, name, t, element);
    let e = walk_entered(c, name, t, element);
    let n = c.code.len() as int;
    assert(e.next_slot == c.next_slot + 4);
    assert(e.code[n] == OpView::Store(c.next_slot));
    assert(e.code[n + 3] == OpView::Store((c.next_slot + 1) as usize));
    assert(e.code[n + 5] == OpView::Store((c.next_slot + 2) as usize));
    assert(e.code[n + 12] == item_op(t));
    assert(e.code[n + 13] == OpView::Store((c.next_slot + 3) as usize));
    assert forall|k: int| n <= k < e.code.len() && #[trigger] e.code[k] is Store implies k == n || k
        == n + 3 || k == n + 5 || k == n + 13 by {}
}

/// Where the body of a counting loop starts, the count and its bound have slots
/// of their own, which nothing in the body can take.
#[verifier::spinoff_prover]
#[verifier::rlimit(40)]
pub proof fn counting_loops_set_slots_aside(c: State, name: Seq<char>)
    requires
        sound(c),
        !c.names.contains_key(name),
        count_entered(c, name).code.len() <= usize::MAX,
    ensures
        ({
            let e = count_entered(c, name);
            &&& sound(e)
            &&& sets_slots_aside(c, e)
            &&& e.names.contains_key(name)
            &&& e.names[name].1 == TypeView::I32
            &&& forall|n: Seq<char>| #[trigger]
                c.names.contains_key(n) ==> e.names.contains_key(n) && e.names[n] == c.names[n]
        }),
{
    lemma_count_entered(c, name);
    let e = count_entered(c, name);
    let n = c.code.len() as int;
    assert(e.next_slot == c.next_slot + 2);
    assert(e.code[n] == OpView::Store((c.next_slot + 1) as usize));
    assert(e.code[n + 1] == OpView::Store(c.next_slot));
    assert forall|k: int| n <= k < e.code.len() && #[trigger] e.code[k] is Store implies k == n || k
        == n + 1 by {}
}

/// A method's parameters have slots of their own, and each is stored: the last
/// argument, which lies on top of the stack, first.
pub proof fn parameters_set_slots_aside(
    c: State,
    args: Seq<(Seq<char>, TypeView)>,
    i: int,
)
    requires
        sound(c),
        c.nested,
        0 <= i < args.len(),
        forall|j: int, k: int| 0 <= j < k < args.len() ==> args[j].0 != args[k].0,
        c.code.len() + args.len() <= usize::MAX,
    ensures
        ({
            let e = parameters_code(c, args, args.len() as int);
            &&& sound(e)
            &&& e.code.len() == c.code.len() + args.len()
            &&& e.names.contains_key(args[i].0)
            &&& e.names[args[i].0].1 == args[i].1
            &&& e.code[c.code.len() + args.len() - 1 - i] == OpView::Store(e.names[args[i].0].0)
        }),
{
    lemma_parameter(c, args, args.len() as int, i);
    lemma_parameters(c, args, args.len() as int);
}

#[verifier::spinoff_prover]
#[verifier::rlimit(40)]
proof fn lemma_parameter(c: State, args: Seq<(Seq<char>, TypeView)>, n: int, i: int)
    requires
        0 <= i < args.len(),
        0 <= n <= args.len(),
        c.nested,
        forall|j: int, k: int| 0 <= j < k < args.len() ==> args[j].0 != args[k].0,
        i >= n ==> c.names.contains_key(args[i].0),
    ensures
        ({
            let e = parameters_code(c, args, n);
            &&& e.code.len() == c.code.len() + n
            &&& forall|k: int| 0 <= k < c.code.len() ==> #[trigger] e.code[k] == c.code[k]
            &&& e.names.contains_key(args[i].0)
            &&& i >= n ==> e.names[args[i].0] == c.names[args[i].0]
            &&& i < n ==> e.names[args[i].0].1 == args[i].1
            &&& i < n ==> e.code[c.code.len() + n - 1 - i] == OpView::Store(e.names[args[i].0].0)
        }),
    decreases n,
{
    if n > 0 {
        let slot = c.next_slot;
        let c1 = State {
            names: c.names.insert(args[n - 1].0, (slot, args[n - 1].1)),
            next_slot: slot.wrapping_add(1),
            ..c
        };
        let c2 = emit(c1, OpView::Store(slot));
        lemma_parameter(c2, args, n - 1, i);
        let e = parameters_code(c, args, n);
        assert(e == parameters_code(c2, args, n - 1));
        assert forall|k: int| 0 <= k < c.code.len() implies #[trigger] e.code[k] == c.code[k] by {
            assert(e.code[k] == c2.code[k]);
        }
        if i == n - 1 {
            let at = c.code.len() as int;
            assert(e.code[at] == c2.code[at]);
        }
    }
}

/// `let` gives a new name the next slot and stores the value there; a name that
/// is bound keeps its slot.
pub proof fn bound_names_are_stored(c: State, name: Seq<char>, ty: TypeView, found: TypeView)
    requires
        bind_name(c, name, ty, found) is Ok,
        c.code.len() < usize::MAX,
        sound(c),
    ensures
        ({
            let done = bind_name(c, name, ty, found)->Ok_0;
            &&& done.names.contains_key(name)
            &&& done.code.len() > c.code.len()
            &&& done.code[c.code.len() as int] == OpView::Store(done.names[name].0)
            &&& c.names.contains_key(name) ==> done.names[name].0 == c.names[name].0
            &&& forall|n: Seq<char>| #[trigger]
                c.names.contains_key(n) && n != name ==> done.names.contains_key(n)
                    && done.names[n] == c.names[n]
            &&& forall|n: Seq<char>| #[trigger]
                done.names.contains_key(n) ==> n == name || c.names.contains_key(n)
            &&& !c.names.contains_key(name) && !c.nested ==> done.globals.contains_key(name)
                && done.globals[name] == done.names[name]
        }),
{
    let done = bind_name(c, name, ty, found)->Ok_0;
    let fresh = !c.names.contains_key(name);
    let slot = if fresh {
        c.next_slot
    } else {
        c.names[name].0
    };
    let c1 = if fresh {
        State {
            names: c.names.insert(name, (slot, held(ty, found))),
            globals: if c.nested {
                c.globals
            } else {
                c.globals.insert(name, (slot, held(ty, found)))
            },
            next_slot: c.next_slot.wrapping_add(1),
            ..c
        }
    } else {
        rebound(c, name, slot, found)
    };
    if found is Module {
        imports_add_structs(c1, name, c1.artifacts[found->Module_0].exports, 0);
    }
}

/// The code of a closed loop: before the body only the way out has changed, in
/// the body only the jumps that waited, and behind the body nothing.
#[verifier::spinoff_prover]
#[verifier::rlimit(40)]
proof fn lemma_loop_code(
    b: State,
    e: State,
    c: State,
    t: State,
    exit: usize,
    end: usize,
    next: usize,
)
    requires
        entered(b, e),
        keeps(e, c),
        restored(e, c),
        t == (State { code: t.code, ..c }),
        code_kept(c, t),
        t.code.len() <= usize::MAX,
        b.code.len() <= exit < e.code.len(),
    ensures
        ({
            let done = close_loop(patch(t, exit, OpView::JumpIfFalse(end)), end, next);
            &&& done.code.len() == t.code.len()
            &&& c.loops.len() > 0
            &&& e.code.len() <= c.code.len()
            &&& done.code[exit as int] == OpView::JumpIfFalse(end)
            &&& loop_closed(c, done, end, next)
            &&& forall|k: int|
                0 <= k < e.code.len() && k != exit ==> #[trigger] done.code[k] == e.code[k]
            &&& forall|k: int|
                c.code.len() <= k < t.code.len() ==> #[trigger] done.code[k] == t.code[k]
            &&& forall|k: int|
                e.code.len() <= k < c.code.len() && !waits(c.loops.last(), k as usize)
                    ==> #[trigger] done.code[k] == c.code[k]
            &&& waiting(b) ==> waiting(e)
        }),
{
    lemma_loop(b, e, c);
    let l = c.loops.last();
    let t1 = patch(t, exit, OpView::JumpIfFalse(end));
    let t2 = State { loops: t1.loops.drop_last(), ..t1 };
    let t3 = patch_jumps(t2, l.break_jumps, 0, end);
    let done = patch_jumps(t3, l.continue_jumps, 0, next);
    assert(done == close_loop(t1, end, next));
    lemma_targets(t2, l.break_jumps, 0, end);
    lemma_targets(t3, l.continue_jumps, 0, next);
    assert forall|k: int| 0 <= k < t.code.len() && !waits(l, k as usize) implies #[trigger] done.code[k]
        == t1.code[k] by {
        assert(forall|j: int|
            0 <= j < l.break_jumps.len() ==> l.break_jumps.contains(#[trigger] l.break_jumps[j]));
        assert(forall|j: int|
            0 <= j < l.continue_jumps.len() ==> l.continue_jumps.contains(
                #[trigger] l.continue_jumps[j],
            ));
        assert(t3.code[k] == t2.code[k]);
    }
    assert(!waits(l, exit));
    assert forall|k: int| 0 <= k < e.code.len() && k != exit implies #[trigger] done.code[k]
        == e.code[k] by {
        assert(!waits(l, k as usize));
        assert(t.code[k] == c.code[k]);
    }
    assert forall|k: int| c.code.len() <= k < t.code.len() implies #[trigger] done.code[k]
        == t.code[k] by {
        assert(!waits(l, k as usize));
    }
    assert forall|k: int|
        e.code.len() <= k < c.code.len() && !waits(l, k as usize) implies #[trigger] done.code[k]
        == c.code[k] by {
        assert(t.code[k] == c.code[k]);
    }
    if waiting(b) {
        lemma_entered_waits(b, e);
    }
    if waiting(c) {
        let n = c.loops.len() - 1;
        assert forall|p: usize| #[trigger]
            l.break_jumps.contains(p) implies done.code[p as int] == OpView::Jump(end) by {
            assert(c.loops[n].break_jumps.contains(p));
            let j = choose|j: int| 0 <= j < l.break_jumps.len() && l.break_jumps[j] == p;
            assert(l.break_jumps[j] == p as int);
            assert(t3.code[p as int] == OpView::Jump(end));
            assert(!l.continue_jumps.contains(p));
            assert(forall|j: int|
                0 <= j < l.continue_jumps.len() ==> l.continue_jumps.contains(
                    #[trigger] l.continue_jumps[j],
                ));
            assert(done.code[p as int] == t3.code[p as int]);
        }
        assert forall|p: usize| #[trigger]
            l.continue_jumps.contains(p) implies done.code[p as int] == OpView::Jump(next) by {
            assert(c.loops[n].continue_jumps.contains(p));
            let j = choose|j: int| 0 <= j < l.continue_jumps.len() && l.continue_jumps[j] == p;
            assert(l.continue_jumps[j] == p as int);
        }
    }
}

#[verifier::spinoff_prover]
#[verifier::rlimit(40)]
proof fn lemma_entered_waits(b: State, e: State)
    requires
        entered(b, e),
        waiting(b),
    ensures
        waiting(e),
{
    let n = b.loops.len() as int;
    assert forall|i: int| 0 <= i < n implies #[trigger] e.loops[i] == b.loops[i] by {}
    assert(e.loops[n].break_jumps.len() == 0 && e.loops[n].continue_jumps.len() == 0);
    assert forall|i: int, p: usize|
        0 <= i < e.loops.len() && #[trigger] e.loops[i].break_jumps.contains(p) implies {
        &&& p < e.code.len()
        &&& e.code[p as int] is Jump
        &&& !e.loops[i].continue_jumps.contains(p)
    } by {
        assert(b.loops[i].break_jumps.contains(p));
        assert(e.code[p as int] == b.code[p as int]);
    }
    assert forall|i: int, p: usize|
        0 <= i < e.loops.len() && #[trigger] e.loops[i].continue_jumps.contains(p) implies {
        &&& p < e.code.len()
        &&& e.code[p as int] is Jump
        &&& !e.loops[i].break_jumps.contains(p)
    } by {
        assert(b.loops[i].continue_jumps.contains(p));
        assert(e.code[p as int] == b.code[p as int]);
    }
}

/// Every `break` that waited at the end of the loop's body goes to `end`, and
/// every `continue` to `next`.
pub open spec fn loop_closed(c: State, done: State, end: usize, next: usize) -> bool {
    waiting(c) ==> {
        &&& forall|p: usize| #[trigger]
            c.loops.last().break_jumps.contains(p) ==> done.code[p as int] == OpView::Jump(end)
        &&& forall|p: usize| #[trigger]
            c.loops.last().continue_jumps.contains(p) ==> done.code[p as int] == OpView::Jump(next)
    }
}

/// The code of a finished loop: `e` is the state in which its body starts, and
/// `inside` the one at the end of its body. The code before the body is that of
/// `e`, but for the way out at `exit`, which goes to the end of the loop. `break`
/// goes there too, and `continue` to `next`. The rest of the body is kept.
pub open spec fn is_loop(
    e: State,
    inside: State,
    done: State,
    exit: int,
    next: int,
) -> bool {
    &&& exit < e.code.len() <= inside.code.len() < done.code.len()
    &&& inside.loops.len() > 0
    &&& done.code[exit] == OpView::JumpIfFalse(done.code.len() as usize)
    &&& loop_closed(inside, done, done.code.len() as usize, next as usize)
    &&& waiting(inside)
    &&& forall|k: int| 0 <= k < e.code.len() && k != exit ==> #[trigger] done.code[k] == e.code[k]
    &&& forall|k: int|
        e.code.len() <= k < inside.code.len() && !waits(inside.loops.last(), k as usize)
            ==> #[trigger] done.code[k] == inside.code[k]
}

/// A `while` loop: behind the code of the condition stands the way out, taken
/// where the condition does not hold; behind the body a jump to the condition,
/// where `continue` goes too.
#[verifier::spinoff_prover]
#[verifier::rlimit(40)]
pub proof fn while_loops_repeat(
    ctx: Context,
    c: State,
    condition: ExprView,
    body: Seq<StatementView>,
)
    requires
        waiting(c),
        while_code(ctx, c, StatementView::While { condition, body }) matches Ok(done)
            && done.code.len() <= usize::MAX,
    ensures
        ({
            let done = while_code(ctx, c, StatementView::While { condition, body })->Ok_0;
            let at = expr_code(ctx, c, condition, None)->Ok_0.0;
            let e = open_loop(emit(at, OpView::JumpIfFalse(usize::MAX)));
            let inside = scoped_code(ctx, e, body)->Ok_0;
            &&& is_loop(e, inside, done, at.code.len() as int, c.code.len() as int)
            &&& done.code.len() == inside.code.len() + 1
            &&& done.code.last() == OpView::Jump(c.code.len() as usize)
        }),
{
    let s = StatementView::While { condition, body };
    let done = while_code(ctx, c, s)->Ok_0;
    let (at, _) = expr_code(ctx, c, condition, None)->Ok_0;
    lemma_expr(ctx, c, condition, None);
    let e = open_loop(emit(at, OpView::JumpIfFalse(usize::MAX)));
    let inside = scoped_code(ctx, e, body)->Ok_0;
    lemma_scoped(ctx, e, body);
    let loop_start = c.code.len() as usize;
    let t = emit(inside, OpView::Jump(loop_start));
    let end = t.code.len() as usize;
    let exit = at.code.len() as usize;
    lemma_closed_names(patch(t, exit, OpView::JumpIfFalse(end)), end, loop_start);
    assert(entered(at, e));
    lemma_loop_code(at, e, inside, t, exit, end, loop_start);
}

/// What a counting loop and a loop over items have in common: behind the body
/// stands the step, where `continue` goes.
#[verifier::spinoff_prover]
#[verifier::rlimit(40)]
proof fn lemma_counting(
    b: State,
    e: State,
    c: State,
    index_slot: usize,
    start: usize,
    exit: usize,
)
    requires
        entered(b, e),
        keeps(e, c),
        restored(e, c),
        waiting(b),
        c.code.len() + 5 <= usize::MAX,
        b.code.len() <= exit < e.code.len(),
    ensures
        ({
            let done = count_on(c, index_slot, start, exit);
            &&& is_loop(e, c, done, exit as int, c.code.len() as int)
            &&& done.code.len() == c.code.len() + 5
            &&& done.code[c.code.len() as int] == OpView::Load(index_slot)
            &&& done.code[c.code.len() as int + 1] == OpView::Push(ValueView::I32(1))
            &&& done.code[c.code.len() as int + 2] == OpView::Binary(BinaryOp::I32(BinOp::Add))
            &&& done.code[c.code.len() as int + 3] == OpView::Store(index_slot)
            &&& done.code[c.code.len() as int + 4] == OpView::Jump(start)
        }),
{
    let t = emit(
        emit(
            emit(
                emit(emit(c, OpView::Load(index_slot)), OpView::Push(ValueView::I32(1))),
                OpView::Binary(BinaryOp::I32(BinOp::Add)),
            ),
            OpView::Store(index_slot),
        ),
        OpView::Jump(start),
    );
    let end = t.code.len() as usize;
    lemma_loop_code(b, e, c, t, exit, end, c.code.len() as usize);
}

/// The finished code of a counting loop.
#[verifier::spinoff_prover]
#[verifier::rlimit(40)]
pub(crate) proof fn lemma_for_code(
    ctx: Context,
    c: State,
    name: Seq<char>,
    start: ExprView,
    end: ExprView,
    body: Seq<StatementView>,
)
    requires
        waiting(c),
        for_code(ctx, c, StatementView::For { name, start, end, body }) matches Ok(done)
            && done.code.len() <= usize::MAX,
    ensures
        ({
            let done = for_code(ctx, c, StatementView::For { name, start, end, body })->Ok_0;
            let first = expr_code(ctx, c, start, Some(TypeView::I32))->Ok_0.0;
            let at = expr_code(ctx, first, end, Some(TypeView::I32))->Ok_0.0;
            let e = count_entered(at, name);
            let inside = scoped_code(ctx, e, body)->Ok_0;
            let n = inside.code.len() as int;
            &&& expr_code(ctx, c, start, Some(TypeView::I32)) is Ok
            &&& expr_code(ctx, first, end, Some(TypeView::I32)) is Ok
            &&& scoped_code(ctx, e, body) is Ok
            &&& keeps(c, at)
            &&& at.next_slot == c.next_slot
            &&& at.names == c.names
            &&& !at.names.contains_key(name)
            &&& is_loop(e, inside, done, at.code.len() as int + 5, n)
            &&& done.code.len() == n + 5
            &&& done.code[n] == OpView::Load(at.next_slot)
            &&& done.code[n + 1] == OpView::Push(ValueView::I32(1))
            &&& done.code[n + 2] == OpView::Binary(BinaryOp::I32(BinOp::Add))
            &&& done.code[n + 3] == OpView::Store(at.next_slot)
            &&& done.code[n + 4] == OpView::Jump((at.code.len() + 2) as usize)
        }),
{
    let s = StatementView::For { name, start, end, body };
    let done = for_code(ctx, c, s)->Ok_0;
    let (first, _) = expr_code(ctx, c, start, Some(TypeView::I32))->Ok_0;
    let (at, _) = expr_code(ctx, first, end, Some(TypeView::I32))->Ok_0;
    lemma_expr(ctx, c, start, Some(TypeView::I32));
    lemma_expr(ctx, first, end, Some(TypeView::I32));
    expr_grows(ctx, c, start, Some(TypeView::I32));
    expr_grows(ctx, first, end, Some(TypeView::I32));
    lemma_follow(c, first, at);
    let e = count_entered(at, name);
    let inside = scoped_code(ctx, e, body)->Ok_0;
    lemma_scoped(ctx, e, body);
    let loop_start = (at.code.len() + 2) as usize;
    let exit = (at.code.len() + 5) as usize;
    lemma_closed_len(inside, at.next_slot, loop_start, exit);
    assert(!at.names.contains_key(name));
    lemma_count_entered(at, name);
    lemma_counting(at, e, inside, at.next_slot, loop_start, exit);
}

/// The finished code of a loop over items.
#[verifier::spinoff_prover]
#[verifier::rlimit(40)]
pub(crate) proof fn lemma_for_in_code(
    ctx: Context,
    c: State,
    name: Seq<char>,
    iterable: ExprView,
    body: Seq<StatementView>,
)
    requires
        waiting(c),
        for_in_code(ctx, c, StatementView::ForIn { name, iterable, body }) matches Ok(done)
            && done.code.len() <= usize::MAX,
    ensures
        ({
            let done = for_in_code(ctx, c, StatementView::ForIn { name, iterable, body })->Ok_0;
            let (at, t) = expr_code(ctx, c, iterable, None)->Ok_0;
            let e = walk_entered(at, name, t, item_type(t)->Some_0);
            let inside = scoped_code(ctx, e, body)->Ok_0;
            let n = inside.code.len() as int;
            let slot = at.next_slot.wrapping_add(1).wrapping_add(1);
            &&& expr_code(ctx, c, iterable, None) is Ok
            &&& item_type(t) is Some
            &&& scoped_code(ctx, e, body) is Ok
            &&& keeps(c, at)
            &&& at.next_slot == c.next_slot
            &&& at.names == c.names
            &&& !at.names.contains_key(name)
            &&& is_loop(e, inside, done, at.code.len() as int + 9, n)
            &&& done.code.len() == n + 5
            &&& done.code[n] == OpView::Load(slot)
            &&& done.code[n + 1] == OpView::Push(ValueView::I32(1))
            &&& done.code[n + 2] == OpView::Binary(BinaryOp::I32(BinOp::Add))
            &&& done.code[n + 3] == OpView::Store(slot)
            &&& done.code[n + 4] == OpView::Jump((at.code.len() + 6) as usize)
        }),
{
    let s = StatementView::ForIn { name, iterable, body };
    let done = for_in_code(ctx, c, s)->Ok_0;
    let (at, t) = expr_code(ctx, c, iterable, None)->Ok_0;
    lemma_expr(ctx, c, iterable, None);
    expr_grows(ctx, c, iterable, None);
    let element = item_type(t)->Some_0;
    let e = walk_entered(at, name, t, element);
    let inside = scoped_code(ctx, e, body)->Ok_0;
    lemma_scoped(ctx, e, body);
    let slot = at.next_slot.wrapping_add(1).wrapping_add(1);
    let loop_start = (at.code.len() + 6) as usize;
    let exit = (at.code.len() + 9) as usize;
    lemma_closed_len(inside, slot, loop_start, exit);
    assert(!at.names.contains_key(name));
    lemma_walk_entered(at, name, t, element);
    lemma_counting(at, e, inside, slot, loop_start, exit);
}

/// A conditional without an `else`: behind the code of the condition stands a
/// jump to the end, taken where the condition does not hold, and behind that the
/// branch.
#[verifier::spinoff_prover]
#[verifier::rlimit(40)]
pub proof fn conditions_guard_their_branch(
    ctx: Context,
    c: State,
    condition: ExprView,
    then_body: Seq<StatementView>,
)
    requires
        if_code(
            ctx,
            c,
            StatementView::If { condition, then_body, else_body: Seq::empty() },
        ) matches Ok(done) && done.code.len() <= usize::MAX,
    ensures
        ({
            let done = if_code(
                ctx,
                c,
                StatementView::If { condition, then_body, else_body: Seq::empty() },
            )->Ok_0;
            let at = expr_code(ctx, c, condition, None)->Ok_0.0;
            let branch = scoped_code(
                ctx,
                emit(at, OpView::JumpIfFalse(usize::MAX)),
                then_body,
            )->Ok_0;
            &&& at.code.len() < done.code.len() == branch.code.len()
            &&& code_kept(at, done)
            &&& done.code[at.code.len() as int] == OpView::JumpIfFalse(done.code.len() as usize)
            &&& forall|k: int|
                at.code.len() < k < done.code.len() ==> #[trigger] done.code[k] == branch.code[k]
        }),
{
    let (at, _) = expr_code(ctx, c, condition, None)->Ok_0;
    let b = emit(at, OpView::JumpIfFalse(usize::MAX));
    let branch = scoped_code(ctx, b, then_body)->Ok_0;
    lemma_scoped(ctx, b, then_body);
    assert forall|k: int| 0 <= k < at.code.len() implies #[trigger] branch.code[k]
        == at.code[k] by {
        assert(branch.code[k] == b.code[k]);
    }
}

/// With an `else`: where the condition does not hold, the other branch is
/// carried out; behind the first branch a jump goes past the other one.
#[verifier::spinoff_prover]
#[verifier::rlimit(40)]
pub proof fn conditions_choose_a_branch(
    ctx: Context,
    c: State,
    condition: ExprView,
    then_body: Seq<StatementView>,
    else_body: Seq<StatementView>,
)
    requires
        else_body.len() > 0,
        if_code(ctx, c, StatementView::If { condition, then_body, else_body }) matches Ok(done)
            && done.code.len() <= usize::MAX,
    ensures
        ({
            let done = if_code(
                ctx,
                c,
                StatementView::If { condition, then_body, else_body },
            )->Ok_0;
            let at = expr_code(ctx, c, condition, None)->Ok_0.0;
            let branch = scoped_code(
                ctx,
                emit(at, OpView::JumpIfFalse(usize::MAX)),
                then_body,
            )->Ok_0;
            let n = branch.code.len() as int;
            &&& at.code.len() < n < done.code.len()
            &&& code_kept(at, done)
            &&& done.code[at.code.len() as int] == OpView::JumpIfFalse((n + 1) as usize)
            &&& forall|k: int|
                at.code.len() < k < n ==> #[trigger] done.code[k] == branch.code[k]
            &&& done.code[n] == OpView::Jump(done.code.len() as usize)
            &&& exists|from: State, other: State|
                #![trigger scoped_code(ctx, from, else_body), other.code]
                {
                    &&& from.names == branch.names
                    &&& from.next_slot == branch.next_slot
                    &&& from.code.len() == n + 1
                    &&& scoped_code(ctx, from, else_body) == Ok::<State, ErrorView>(other)
                    &&& other.code.len() == done.code.len()
                    &&& forall|k: int|
                        n < k < done.code.len() ==> #[trigger] done.code[k] == other.code[k]
                }
        }),
{
    let done = if_code(ctx, c, StatementView::If { condition, then_body, else_body })->Ok_0;
    let (at, _) = expr_code(ctx, c, condition, None)->Ok_0;
    let b = emit(at, OpView::JumpIfFalse(usize::MAX));
    let branch = scoped_code(ctx, b, then_body)->Ok_0;
    lemma_scoped(ctx, b, then_body);
    let n = branch.code.len() as int;
    let c3 = emit(branch, OpView::Jump(usize::MAX));
    let from = patch(
        c3,
        at.code.len() as usize,
        OpView::JumpIfFalse(c3.code.len() as usize),
    );
    let other = scoped_code(ctx, from, else_body)->Ok_0;
    lemma_scoped(ctx, from, else_body);
    assert(other.code.len() == done.code.len());
    assert(code_kept(from, other));
    assert(code_kept(b, branch));
    assert forall|k: int| 0 <= k < at.code.len() implies #[trigger] done.code[k] == at.code[k] by {
        assert(other.code[k] == from.code[k]);
        assert(branch.code[k] == b.code[k]);
    }
    let x = at.code.len() as int;
    assert(other.code[x] == from.code[x]);
    assert forall|k: int| x < k < n implies #[trigger] done.code[k] == branch.code[k] by {
        assert(other.code[k] == from.code[k]);
    }
    assert(scoped_code(ctx, from, else_body) == Ok::<State, ErrorView>(other));
}

/// `break` and `continue` destroy the locals of the loop's blocks and end in a
/// jump that the innermost loop gives its target: as a `break` or as a
/// `continue`, whichever it is. No other loop waits for it.
#[verifier::spinoff_prover]
#[verifier::rlimit(40)]
pub proof fn jumps_wait_for_the_innermost_loop(c: State, leaves: bool)
    requires
        waiting(c),
        leave_code(c, leaves) matches Ok(done) && done.code.len() <= usize::MAX,
    ensures
        ({
            let done = leave_code(c, leaves)->Ok_0;
            let at = (done.code.len() - 1) as usize;
            let n = c.loops.len() - 1;
            &&& c.loops.len() > 0 && done.loops.len() == c.loops.len()
            &&& done.code.last() is Jump
            &&& done.loops[n].break_jumps.contains(at) == leaves
            &&& done.loops[n].continue_jumps.contains(at) == !leaves
            &&& forall|i: int| 0 <= i < n ==> #[trigger] done.loops[i] == c.loops[i]
            &&& waiting(done)
        }),
{
    lemma_leave(c, leaves);
    let done = leave_code(c, leaves)->Ok_0;
    let l = c.loops.last();
    let locals = live_locals(c.scopes, l.scope_base, c.scopes.len() as int);
    lemma_destructors(c, locals, 0);
    let at = (done.code.len() - 1) as usize;
    let n = c.loops.len() - 1;
    assert(l == c.loops[n]);
    assert(waits(l, at) ==> at < c.code.len());
    if leaves {
        lemma_push_contains(l.break_jumps, at, at);
        assert(!l.continue_jumps.contains(at));
    } else {
        lemma_push_contains(l.continue_jumps, at, at);
        assert(!l.break_jumps.contains(at));
    }
}

/// A method's code stands behind a jump over it, ends with `Return`, and is
/// entered behind the jump.
#[verifier::spinoff_prover]
#[verifier::rlimit(40)]
pub proof fn methods_are_jumped_over(
    ctx: Context,
    c: State,
    struct_name: Seq<char>,
    method: Seq<char>,
    args: Seq<(Seq<char>, TypeView)>,
    body: Seq<StatementView>,
)
    requires
        method_code(ctx, c, struct_name, method, args, body) matches Ok(done) && done.code.len()
            <= usize::MAX,
    ensures
        ({
            let done = method_code(ctx, c, struct_name, method, args, body)->Ok_0;
            &&& code_kept(c, done)
            &&& c.code.len() + 1 < done.code.len()
            &&& done.code[c.code.len() as int] == OpView::Jump(done.code.len() as usize)
            &&& done.code.last() == OpView::Return
            &&& done.methods.contains_key((struct_name, method))
            &&& done.methods[(struct_name, method)] == Some((c.code.len() + 1) as usize)
        }),
{
    lemma_method(ctx, c, struct_name, method, args, body);
    let done = method_code(ctx, c, struct_name, method, args, body)->Ok_0;
    let c2 = method_start(c, struct_name, method);
    let p = parameters_code(c2, args, args.len() as int);
    lemma_parameters(c2, args, args.len() as int);
    let c3 = block_code(ctx, p, body, 0)->Ok_0;
    lemma_block(ctx, p, body, 0);
    let c4 = close_scope(c3)->Ok_0;
    lemma_destructors(c3, c3.scopes.last().reverse(), 0);
    lemma_follow(p, c3, c4);
    assert(done.code.len() == c4.code.len() + 1);
    assert(p.methods.contains_key((struct_name, method)));
}

/// So does the code of an exported function, which is exported with its entry.
#[verifier::spinoff_prover]
#[verifier::rlimit(40)]
pub proof fn exported_functions_are_jumped_over(
    ctx: Context,
    c: State,
    name: Seq<char>,
    body: Seq<StatementView>,
)
    requires
        export_function_code(ctx, c, name, body) matches Ok(done) && done.code.len() <= usize::MAX,
    ensures
        ({
            let done = export_function_code(ctx, c, name, body)->Ok_0;
            &&& code_kept(c, done)
            &&& c.code.len() + 1 < done.code.len()
            &&& done.code[c.code.len() as int] == OpView::Jump(done.code.len() as usize)
            &&& done.code.last() == OpView::Return
            &&& done.exports.last() == (
                name,
                ExportView::Function { entry: (c.code.len() + 1) as usize },
            )
        }),
{
    lemma_export_function(ctx, c, name, body);
    let c1 = emit(c, OpView::Jump(usize::MAX));
    lemma_scoped(ctx, c1, body);
}

/// The entry that an instruction goes to, where it waits for a method.
pub open spec fn entry_of(op: OpView) -> Option<usize> {
    match op {
        OpView::CallMethod(_, target) => Some(target),
        OpView::CallCurrentMethod(target) => Some(target),
        OpView::TrackDestructor(_, target) => Some(target),
        _ => None,
    }
}

/// The local that an instruction calls a method of or tracks.
pub open spec fn local_of(op: OpView) -> Option<usize> {
    match op {
        OpView::CallMethod(slot, _) => Some(slot),
        OpView::TrackDestructor(slot, _) => Some(slot),
        _ => None,
    }
}

/// Once all instructions that wait have the entry of their method, each that
/// waited goes to the entry of the method it waited for and keeps its local, and
/// no other instruction has changed.
pub proof fn waiting_calls_reach_their_method(
    c: State,
    pending: Seq<(usize, Seq<char>, Seq<char>)>,
    i: int,
)
    requires
        0 <= i <= pending.len(),
        resolve_pending(c, pending, i) is Ok,
        forall|j: int, k: int|
            0 <= j < k < pending.len() ==> (#[trigger] pending[j]).0 != (#[trigger] pending[k]).0,
    ensures
        ({
            let done = resolve_pending(c, pending, i)->Ok_0;
            &&& done == (State { code: done.code, ..c })
            &&& done.code.len() == c.code.len()
            &&& forall|j: int|
                #![trigger pending[j]]
                i <= j < pending.len() ==> {
                    let (at, struct_name, method) = pending[j];
                    &&& at < done.code.len()
                    &&& method_entry(c, struct_name, method) is Some
                    &&& entry_of(done.code[at as int]) == method_entry(c, struct_name, method)
                    &&& local_of(done.code[at as int]) == local_of(c.code[at as int])
                }
            &&& forall|k: int|
                0 <= k < c.code.len() && (forall|j: int|
                    i <= j < pending.len() ==> (#[trigger] pending[j]).0 != k)
                    ==> #[trigger] done.code[k] == c.code[k]
        }),
    decreases pending.len() - i,
{
    if i < pending.len() {
        let (at, struct_name, method) = pending[i];
        let target = method_entry(c, struct_name, method)->Some_0;
        let op = retargeted(c.code[at as int], target)->Some_0;
        let c1 = patch(c, at, op);
        waiting_calls_reach_their_method(c1, pending, i + 1);
        let done = resolve_pending(c, pending, i)->Ok_0;
        assert(done.code[at as int] == c1.code[at as int]) by {
            assert forall|j: int| i + 1 <= j < pending.len() implies (
            #[trigger] pending[j]).0 != at as int by {
                assert(pending[i].0 != pending[j].0);
            }
        }
        assert forall|j: int|
            #![trigger pending[j]]
            i <= j < pending.len() implies ({
            let (at, struct_name, method) = pending[j];
            &&& at < done.code.len()
            &&& method_entry(c, struct_name, method) is Some
            &&& entry_of(done.code[at as int]) == method_entry(c, struct_name, method)
            &&& local_of(done.code[at as int]) == local_of(c.code[at as int])
        }) by {
            if j > i {
                assert(pending[i].0 != pending[j].0);
                let (p, s, m) = pending[j];
                assert(method_entry(c1, s, m) == method_entry(c, s, m));
                assert(c1.code[p as int] == c.code[p as int]);
            }
        }
    }
}

} // verus!
