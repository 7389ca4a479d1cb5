//! Laws of what compiled loops do when they run.
use vstd::prelude::*;
use crate::ast::{ExprView, StatementView};
use crate::codegen::{
    Context, State, count_entered, expr_code, for_code, for_in_code, item_op, item_type,
    scoped_code, walk_entered,
};
use crate::instance::{InstanceView, dropped, pushed};
use crate::ir::OpView;
use crate::ops::{BinOp, BinaryOp};
use crate::semantics::{
    FlowView, HeapView, cell_in, effect, flows, item_in, key_in, length_of, next, popped_indices,
    stored,
};
use crate::slot_laws::{
    counting_loops_set_slots_aside, lemma_for_code, lemma_for_in_code,
    loops_over_items_set_slots_aside, sound, waiting,
};
use crate::types::{ErrorView, TypeView};
use crate::value::{ValueView, index_of, int_in};

verus! {

/// An instance at a place in the code it runs.
pub struct Place {
    pub heap: HeapView,
    pub inst: InstanceView,
    pub at: int,
}

/// The place after one instruction that only computes or jumps.
pub open spec fn moved(
    all: Seq<InstanceView>,
    receiver: Option<usize>,
    code: Seq<OpView>,
    p: Place,
) -> Option<Place> {
    if 0 <= p.at < code.len() {
        let e = effect(p.heap, all, p.inst, receiver, code[p.at]);
        match e.flow {
            FlowView::Next => Some(Place { heap: e.heap, inst: e.inst, at: p.at + 1 }),
            FlowView::Goto(target) => Some(
                Place { heap: e.heap, inst: e.inst, at: target as int },
            ),
            _ => None,
        }
    } else {
        None
    }
}

/// The place after `n` such instructions.
pub open spec fn went(
    all: Seq<InstanceView>,
    receiver: Option<usize>,
    code: Seq<OpView>,
    p: Place,
    n: nat,
) -> Option<Place>
    decreases n,
{
    if n == 0 {
        Some(p)
    } else {
        match moved(all, receiver, code, p) {
            None => None,
            Some(q) => went(all, receiver, code, q, (n - 1) as nat),
        }
    }
}

/// The locals of `j` are those of `i` but for the slots from `from` up to `to`.
pub open spec fn locals_kept(i: InstanceView, j: InstanceView, from: int, to: int) -> bool {
    &&& i.locals.len() <= j.locals.len()
    &&& forall|k: int|
        0 <= k < i.locals.len() && !(from <= k < to) ==> #[trigger] j.locals[k] == i.locals[k]
}

proof fn lemma_store(
    h: HeapView,
    all: Seq<InstanceView>,
    i: InstanceView,
    receiver: Option<usize>,
    v: ValueView,
    slot: usize,
)
    requires
        slot < usize::MAX,
    ensures
        ({
            let e = effect(h, all, pushed(i, v), receiver, OpView::Store(slot));
            &&& e == next(h, InstanceView { locals: stored(i.locals, slot, v), ..i })
            &&& slot < e.inst.locals.len()
            &&& e.inst.locals[slot as int] == v
            &&& i.locals.len() <= e.inst.locals.len()
            &&& forall|k: int|
                0 <= k < i.locals.len() && k != slot ==> #[trigger] e.inst.locals[k] == i.locals[k]
        }),
{
    assert(dropped(pushed(i, v)).stack =~= i.stack);
}

proof fn lemma_compare(
    h: HeapView,
    all: Seq<InstanceView>,
    i: InstanceView,
    receiver: Option<usize>,
    op: BinOp,
    a: i32,
    b: i32,
)
    requires
        op is Le || op is Lt,
    ensures
        effect(
            h,
            all,
            pushed(pushed(i, ValueView::I32(a)), ValueView::I32(b)),
            receiver,
            OpView::Binary(BinaryOp::I32(op)),
        ) == next(
            h,
            pushed(
                i,
                ValueView::Bool(
                    if op is Le {
                        a <= b
                    } else {
                        a < b
                    },
                ),
            ),
        ),
{
    let full = pushed(pushed(i, ValueView::I32(a)), ValueView::I32(b));
    assert(dropped(full).stack =~= i.stack.push(ValueView::I32(a)));
    assert(dropped(dropped(full)).stack =~= i.stack);
    assert(int_in(TypeView::I32, a as int) == ValueView::I32(a));
}

proof fn lemma_one_more(
    h: HeapView,
    all: Seq<InstanceView>,
    i: InstanceView,
    receiver: Option<usize>,
    a: i32,
)
    requires
        a < i32::MAX,
    ensures
        effect(
            h,
            all,
            pushed(pushed(i, ValueView::I32(a)), ValueView::I32(1)),
            receiver,
            OpView::Binary(BinaryOp::I32(BinOp::Add)),
        ) == next(h, pushed(i, ValueView::I32((a + 1) as i32))),
{
    let full = pushed(pushed(i, ValueView::I32(a)), ValueView::I32(1));
    assert(dropped(full).stack =~= i.stack.push(ValueView::I32(a)));
    assert(dropped(dropped(full)).stack =~= i.stack);
}

/// A condition is taken off the stack: where it holds, the program goes on behind
/// the jump, else at its target.
pub proof fn conditions_decide_where_to_go_on(
    h: HeapView,
    all: Seq<InstanceView>,
    i: InstanceView,
    receiver: Option<usize>,
    b: bool,
    target: usize,
)
    ensures
        effect(h, all, pushed(i, ValueView::Bool(b)), receiver, OpView::JumpIfFalse(target)) == (
        if b {
            next(h, i)
        } else {
            flows(h, i, FlowView::Goto(target))
        }),
{
    assert(dropped(pushed(i, ValueView::Bool(b))).stack =~= i.stack);
}

/// The test in front of a loop's body: two locals are compared, and the body or
/// the end of the loop follows.
#[verifier::spinoff_prover]
#[verifier::rlimit(40)]
proof fn lemma_test(
    all: Seq<InstanceView>,
    receiver: Option<usize>,
    code: Seq<OpView>,
    p: Place,
    index_slot: usize,
    bound_slot: usize,
    op: BinOp,
    target: usize,
    a: i32,
    b: i32,
)
    requires
        op is Le || op is Lt,
        0 <= p.at,
        p.at + 3 < code.len(),
        code[p.at] == OpView::Load(index_slot),
        code[p.at + 1] == OpView::Load(bound_slot),
        code[p.at + 2] == OpView::Binary(BinaryOp::I32(op)),
        code[p.at + 3] == OpView::JumpIfFalse(target),
        index_slot < p.inst.locals.len(),
        bound_slot < p.inst.locals.len(),
        p.inst.locals[index_slot as int] == ValueView::I32(a),
        p.inst.locals[bound_slot as int] == ValueView::I32(b),
    ensures
        ({
            let on = if op is Le {
                a <= b
            } else {
                a < b
            };
            went(all, receiver, code, p, 4) == Some(
                Place {
                    at: if on {
                        p.at + 4
                    } else {
                        target as int
                    },
                    ..p
                },
            )
        }),
{
    let on = if op is Le {
        a <= b
    } else {
        a < b
    };
    let (h, i) = (p.heap, p.inst);
    let i1 = pushed(i, ValueView::I32(a));
    let i2 = pushed(i1, ValueView::I32(b));
    let i3 = pushed(i, ValueView::Bool(on));
    lemma_compare(h, all, i, receiver, op, a, b);
    conditions_decide_where_to_go_on(h, all, i, receiver, on, target);
    let p1 = Place { inst: i1, at: p.at + 1, ..p };
    let p2 = Place { inst: i2, at: p.at + 2, ..p };
    let p3 = Place { inst: i3, at: p.at + 3, ..p };
    let p4 = Place {
        at: if on {
            p.at + 4
        } else {
            target as int
        },
        ..p
    };
    assert(moved(all, receiver, code, p) == Some(p1));
    assert(moved(all, receiver, code, p1) == Some(p2));
    assert(moved(all, receiver, code, p2) == Some(p3));
    assert(moved(all, receiver, code, p3) == Some(p4));
    assert(went(all, receiver, code, p4, 0) == Some(p4));
    assert(went(all, receiver, code, p3, 1) == Some(p4));
    assert(went(all, receiver, code, p2, 2) == Some(p4));
    assert(went(all, receiver, code, p1, 3) == Some(p4));
}

/// The step behind a loop's body: a local becomes one more, and the test follows.
#[verifier::spinoff_prover]
#[verifier::rlimit(40)]
proof fn lemma_step(
    all: Seq<InstanceView>,
    receiver: Option<usize>,
    code: Seq<OpView>,
    p: Place,
    slot: usize,
    target: usize,
    a: i32,
)
    requires
        0 <= p.at,
        p.at + 4 < code.len(),
        code[p.at] == OpView::Load(slot),
        code[p.at + 1] == OpView::Push(ValueView::I32(1)),
        code[p.at + 2] == OpView::Binary(BinaryOp::I32(BinOp::Add)),
        code[p.at + 3] == OpView::Store(slot),
        code[p.at + 4] == OpView::Jump(target),
        slot < p.inst.locals.len(),
        p.inst.locals[slot as int] == ValueView::I32(a),
        a < i32::MAX,
        slot < usize::MAX,
    ensures
        ({
            let after = InstanceView {
                locals: stored(p.inst.locals, slot, ValueView::I32((a + 1) as i32)),
                ..p.inst
            };
            went(all, receiver, code, p, 5) == Some(
                Place { heap: p.heap, inst: after, at: target as int },
            )
        }),
{
    let (h, i) = (p.heap, p.inst);
    let v = ValueView::I32((a + 1) as i32);
    let i1 = pushed(i, ValueView::I32(a));
    let i2 = pushed(i1, ValueView::I32(1));
    let i3 = pushed(i, v);
    let i4 = InstanceView { locals: stored(i.locals, slot, v), ..i };
    lemma_one_more(h, all, i, receiver, a);
    lemma_store(h, all, i, receiver, v, slot);
    let p1 = Place { inst: i1, at: p.at + 1, ..p };
    let p2 = Place { inst: i2, at: p.at + 2, ..p };
    let p3 = Place { inst: i3, at: p.at + 3, ..p };
    let p4 = Place { inst: i4, at: p.at + 4, ..p };
    let p5 = Place { inst: i4, at: target as int, ..p };
    assert(moved(all, receiver, code, p) == Some(p1));
    assert(moved(all, receiver, code, p1) == Some(p2));
    assert(moved(all, receiver, code, p2) == Some(p3));
    assert(moved(all, receiver, code, p3) == Some(p4));
    assert(moved(all, receiver, code, p4) == Some(p5));
    assert(went(all, receiver, code, p5, 0) == Some(p5));
    assert(went(all, receiver, code, p4, 1) == Some(p5));
    assert(went(all, receiver, code, p3, 2) == Some(p5));
    assert(went(all, receiver, code, p2, 3) == Some(p5));
    assert(went(all, receiver, code, p1, 4) == Some(p5));
}

/// Going on from where one has got to.
pub(crate) proof fn lemma_went_on(
    all: Seq<InstanceView>,
    receiver: Option<usize>,
    code: Seq<OpView>,
    p: Place,
    m: nat,
    n: nat,
)
    requires
        went(all, receiver, code, p, m) is Some,
    ensures
        went(all, receiver, code, p, m + n) == went(
            all,
            receiver,
            code,
            went(all, receiver, code, p, m)->Some_0,
            n,
        ),
    decreases m,
{
    if m > 0 {
        match moved(all, receiver, code, p) {
            Some(q) => {
                lemma_went_on(all, receiver, code, q, (m - 1) as nat, n);
                assert(went(all, receiver, code, p, m) == went(
                    all,
                    receiver,
                    code,
                    q,
                    (m - 1) as nat,
                ));
                assert((m + n - 1) as nat == (m - 1) as nat + n);
                assert(went(all, receiver, code, p, m + n) == went(
                    all,
                    receiver,
                    code,
                    q,
                    (m + n - 1) as nat,
                ));
            },
            None => {},
        }
    }
}

/// A counting loop that starts with the bounds `a` and `b` on the stack, `b` on
/// top, takes both, gives its name the value `a`, and carries its body out if `a`
/// is at most `b`; else the loop is over.
#[verifier::spinoff_prover]
#[verifier::rlimit(40)]
pub proof fn counting_loops_start_at_their_first_bound(
    ctx: Context,
    c: State,
    name: Seq<char>,
    start: ExprView,
    end: ExprView,
    body: Seq<StatementView>,
    h: HeapView,
    all: Seq<InstanceView>,
    i: InstanceView,
    receiver: Option<usize>,
    a: i32,
    b: i32,
)
    requires
        sound(c),
        waiting(c),
        for_code(ctx, c, StatementView::For { name, start, end, body }) matches Ok(done)
            && done.code.len() <= usize::MAX,
    ensures
        ({
            let done = for_code(ctx, c, StatementView::For { name, start, end, body })->Ok_0;
            let first = expr_code(ctx, c, start, Some(TypeView::I32))->Ok_0.0;
            let at = expr_code(ctx, first, end, Some(TypeView::I32))->Ok_0.0;
            let e = count_entered(at, name);
            let from = Place {
                heap: h,
                inst: pushed(pushed(i, ValueView::I32(a)), ValueView::I32(b)),
                at: at.code.len() as int,
            };
            let to = went(all, receiver, done.code, from, 6);
            &&& to is Some
            &&& to->Some_0.heap == h
            &&& to->Some_0.inst == (InstanceView { locals: to->Some_0.inst.locals, ..i })
            &&& to->Some_0.inst.locals[e.names[name].0 as int] == ValueView::I32(a)
            &&& locals_kept(i, to->Some_0.inst, c.next_slot as int, e.next_slot as int)
            &&& to->Some_0.at == (if a <= b {
                e.code.len() as int
            } else {
                done.code.len() as int
            })
        }),
{
    lemma_for_code(ctx, c, name, start, end, body);
    let done = for_code(ctx, c, StatementView::For { name, start, end, body })->Ok_0;
    let first = expr_code(ctx, c, start, Some(TypeView::I32))->Ok_0.0;
    let at = expr_code(ctx, first, end, Some(TypeView::I32))->Ok_0.0;
    let e = count_entered(at, name);
    counting_loops_set_slots_aside(at, name);
    let n = at.code.len() as int;
    let code = done.code;
    let index_slot = at.next_slot;
    let end_slot = (at.next_slot + 1) as usize;
    assert(e.code[n] == OpView::Store(end_slot));
    assert(e.code[n + 1] == OpView::Store(index_slot));
    assert(e.code[n + 2] == OpView::Load(index_slot));
    assert(e.code[n + 3] == OpView::Load(end_slot));
    assert(e.code[n + 4] == OpView::Binary(BinaryOp::I32(BinOp::Le)));
    assert(code[n] == e.code[n]);
    assert(code[n + 1] == e.code[n + 1]);
    assert(code[n + 2] == e.code[n + 2]);
    assert(code[n + 3] == e.code[n + 3]);
    assert(code[n + 4] == e.code[n + 4]);
    let i0 = pushed(i, ValueView::I32(a));
    let p = Place { heap: h, inst: pushed(i0, ValueView::I32(b)), at: n };
    let i1 = InstanceView { locals: stored(i.locals, end_slot, ValueView::I32(b)), ..i };
    let i2 = InstanceView { locals: stored(i1.locals, index_slot, ValueView::I32(a)), ..i };
    lemma_store(h, all, i0, receiver, ValueView::I32(b), end_slot);
    lemma_store(h, all, i1, receiver, ValueView::I32(a), index_slot);
    let p1 = Place { heap: h, inst: pushed(i1, ValueView::I32(a)), at: n + 1 };
    let p2 = Place { heap: h, inst: i2, at: n + 2 };
    assert(moved(all, receiver, code, p) == Some(p1));
    assert(moved(all, receiver, code, p1) == Some(p2));
    assert(went(all, receiver, code, p2, 0) == Some(p2));
    assert(went(all, receiver, code, p1, 1) == Some(p2));
    assert(went(all, receiver, code, p, 2) == Some(p2));
    lemma_test(
        all,
        receiver,
        code,
        p2,
        index_slot,
        end_slot,
        BinOp::Le,
        code.len() as usize,
        a,
        b,
    );
    lemma_went_on(all, receiver, code, p, 2, 4);
}

/// Behind its body a counting loop adds one to the count, keeps the other locals,
/// and carries the body out again if the count is still at most the bound.
#[verifier::spinoff_prover]
#[verifier::rlimit(40)]
pub proof fn counting_loops_go_up_by_one(
    ctx: Context,
    c: State,
    name: Seq<char>,
    start: ExprView,
    end: ExprView,
    body: Seq<StatementView>,
    h: HeapView,
    all: Seq<InstanceView>,
    i: InstanceView,
    receiver: Option<usize>,
    a: i32,
    b: i32,
)
    requires
        sound(c),
        waiting(c),
        for_code(ctx, c, StatementView::For { name, start, end, body }) matches Ok(done)
            && done.code.len() <= usize::MAX,
        i.locals.len() > c.next_slot + 1,
        i.locals[c.next_slot as int] == ValueView::I32(a),
        i.locals[c.next_slot + 1] == ValueView::I32(b),
        a < i32::MAX,
    ensures
        ({
            let done = for_code(ctx, c, StatementView::For { name, start, end, body })->Ok_0;
            let first = expr_code(ctx, c, start, Some(TypeView::I32))->Ok_0.0;
            let at = expr_code(ctx, first, end, Some(TypeView::I32))->Ok_0.0;
            let e = count_entered(at, name);
            let inside = scoped_code(ctx, e, body)->Ok_0;
            let from = Place { heap: h, inst: i, at: inside.code.len() as int };
            let to = went(all, receiver, done.code, from, 9);
            let slot = e.names[name].0;
            &&& to is Some
            &&& to->Some_0.heap == h
            &&& to->Some_0.inst == (InstanceView { locals: to->Some_0.inst.locals, ..i })
            &&& to->Some_0.inst.locals[slot as int] == ValueView::I32((a + 1) as i32)
            &&& locals_kept(i, to->Some_0.inst, slot as int, slot + 1)
            &&& to->Some_0.at == (if a + 1 <= b {
                e.code.len() as int
            } else {
                done.code.len() as int
            })
        }),
{
    lemma_for_code(ctx, c, name, start, end, body);
    let done = for_code(ctx, c, StatementView::For { name, start, end, body })->Ok_0;
    let first = expr_code(ctx, c, start, Some(TypeView::I32))->Ok_0.0;
    let at = expr_code(ctx, first, end, Some(TypeView::I32))->Ok_0.0;
    let e = count_entered(at, name);
    let inside = scoped_code(ctx, e, body)->Ok_0;
    counting_loops_set_slots_aside(at, name);
    let n = at.code.len() as int;
    let code = done.code;
    let slot = at.next_slot;
    let end_slot = (at.next_slot + 1) as usize;
    assert(e.code[n + 2] == OpView::Load(slot));
    assert(e.code[n + 3] == OpView::Load(end_slot));
    assert(e.code[n + 4] == OpView::Binary(BinaryOp::I32(BinOp::Le)));
    assert(code[n + 2] == e.code[n + 2]);
    assert(code[n + 3] == e.code[n + 3]);
    assert(code[n + 4] == e.code[n + 4]);
    let p = Place { heap: h, inst: i, at: inside.code.len() as int };
    lemma_step(all, receiver, code, p, slot, (n + 2) as usize, a);
    let q = went(all, receiver, code, p, 5)->Some_0;
    lemma_test(
        all,
        receiver,
        code,
        q,
        slot,
        end_slot,
        BinOp::Le,
        code.len() as usize,
        (a + 1) as i32,
        b,
    );
    lemma_went_on(all, receiver, code, p, 5, 4);
}

/// The item at an index of what can be walked over: a vector, the keys of a table
/// or a tensor of one dimension.
pub open spec fn item_at(h: HeapView, t: TypeView, v: ValueView, index: usize) -> Result<
    ValueView,
    ErrorView,
> {
    match t {
        TypeView::TableKeys => key_in(h, v, index),
        TypeView::Tensor(inner, _) => item_in(
            h,
            v,
            seq![index],
            if *inner is F32 {
                None
            } else {
                Some(*inner)
            },
            1,
        ),
        _ => cell_in(h, v, index),
    }
}

proof fn lemma_item(
    h: HeapView,
    all: Seq<InstanceView>,
    i: InstanceView,
    receiver: Option<usize>,
    t: TypeView,
    v: ValueView,
    k: i32,
    x: ValueView,
)
    requires
        item_type(t) is Some,
        k >= 0,
        item_at(h, t, v, k as usize) == Ok::<ValueView, ErrorView>(x),
    ensures
        effect(h, all, pushed(pushed(i, v), ValueView::I32(k)), receiver, item_op(t)) == next(
            h,
            pushed(i, x),
        ),
{
    let full = pushed(pushed(i, v), ValueView::I32(k));
    assert(dropped(full).stack =~= i.stack.push(v));
    assert(dropped(full) == pushed(i, v));
    assert(dropped(dropped(full)).stack =~= i.stack);
    assert(dropped(dropped(full)) == i);
    assert(index_of(ValueView::I32(k)) == Ok::<usize, ErrorView>(k as usize));
    reveal_with_fuel(popped_indices, 2);
    assert(popped_indices(full, 1, Seq::empty()) == (
        dropped(full),
        Ok::<Seq<usize>, ErrorView>(seq![k as usize]),
    ));
}

/// A loop over items that starts with what is walked over on the stack takes it
/// and carries its body out if there are any items: with its name standing for
/// the first of them. Else the loop is over.
#[verifier::spinoff_prover]
#[verifier::rlimit(40)]
pub proof fn loops_over_items_start_with_the_first(
    ctx: Context,
    c: State,
    name: Seq<char>,
    iterable: ExprView,
    body: Seq<StatementView>,
    h: HeapView,
    all: Seq<InstanceView>,
    i: InstanceView,
    receiver: Option<usize>,
    v: ValueView,
    n: i32,
    x: ValueView,
)
    requires
        sound(c),
        waiting(c),
        for_in_code(ctx, c, StatementView::ForIn { name, iterable, body }) matches Ok(done)
            && done.code.len() <= usize::MAX,
        n >= 0,
        length_of(h, v) == Ok::<int, ErrorView>(n as int),
        n > 0 ==> item_at(h, expr_code(ctx, c, iterable, None)->Ok_0.1, v, 0) == Ok::<
            ValueView,
            ErrorView,
        >(x),
    ensures
        ({
            let done = for_in_code(ctx, c, StatementView::ForIn { name, iterable, body })->Ok_0;
            let (at, t) = expr_code(ctx, c, iterable, None)->Ok_0;
            let e = walk_entered(at, name, t, item_type(t)->Some_0);
            let from = Place { heap: h, inst: pushed(i, v), at: at.code.len() as int };
            let to = went(
                all,
                receiver,
                done.code,
                from,
                if n > 0 {
                    14
                } else {
                    10
                },
            );
            &&& to is Some
            &&& to->Some_0.heap == h
            &&& to->Some_0.inst == (InstanceView { locals: to->Some_0.inst.locals, ..i })
            &&& n > 0 ==> to->Some_0.inst.locals[e.names[name].0 as int] == x
            &&& locals_kept(i, to->Some_0.inst, c.next_slot as int, e.next_slot as int)
            &&& to->Some_0.at == (if n > 0 {
                e.code.len() as int
            } else {
                done.code.len() as int
            })
        }),
{
    lemma_for_in_code(ctx, c, name, iterable, body);
    let done = for_in_code(ctx, c, StatementView::ForIn { name, iterable, body })->Ok_0;
    let (at, t) = expr_code(ctx, c, iterable, None)->Ok_0;
    let e = walk_entered(at, name, t, item_type(t)->Some_0);
    loops_over_items_set_slots_aside(at, name, t, item_type(t)->Some_0);
    lemma_walk(at, name, t, done.code, e);
    let m = at.code.len() as int;
    let code = done.code;
    let s0 = at.next_slot;
    let s1 = (s0 + 1) as usize;
    let s2 = (s0 + 2) as usize;
    let p = Place { heap: h, inst: pushed(i, v), at: m };
    lemma_begin(all, receiver, code, p, i, s0, v, n);
    let p6 = went(all, receiver, code, p, 6)->Some_0;
    lemma_test(all, receiver, code, p6, s2, s1, BinOp::Lt, code.len() as usize, 0, n);
    lemma_went_on(all, receiver, code, p, 6, 4);
    if n > 0 {
        let p10 = Place { at: m + 10, ..p6 };
        lemma_fetch(all, receiver, code, p10, t, s0, e.names[name].0, v, 0, x);
        lemma_went_on(all, receiver, code, p, 10, 4);
    }
}

/// What is walked over, its length and the first position are put into their
/// locals.
#[verifier::spinoff_prover]
#[verifier::rlimit(40)]
proof fn lemma_begin(
    all: Seq<InstanceView>,
    receiver: Option<usize>,
    code: Seq<OpView>,
    p: Place,
    i: InstanceView,
    s0: usize,
    v: ValueView,
    n: i32,
)
    requires
        0 <= p.at,
        p.at + 5 < code.len(),
        p.inst == pushed(i, v),
        s0 + 4 <= usize::MAX,
        code[p.at] == OpView::Store(s0),
        code[p.at + 1] == OpView::Load(s0),
        code[p.at + 2] == OpView::Len,
        code[p.at + 3] == OpView::Store((s0 + 1) as usize),
        code[p.at + 4] == OpView::Push(ValueView::I32(0)),
        code[p.at + 5] == OpView::Store((s0 + 2) as usize),
        length_of(p.heap, v) == Ok::<int, ErrorView>(n as int),
    ensures
        ({
            let q = went(all, receiver, code, p, 6);
            &&& q is Some
            &&& q->Some_0.heap == p.heap
            &&& q->Some_0.at == p.at + 6
            &&& q->Some_0.inst == (InstanceView { locals: q->Some_0.inst.locals, ..i })
            &&& q->Some_0.inst.locals.len() > s0 + 2
            &&& q->Some_0.inst.locals[s0 as int] == v
            &&& q->Some_0.inst.locals[s0 + 1] == ValueView::I32(n)
            &&& q->Some_0.inst.locals[s0 + 2] == ValueView::I32(0)
            &&& locals_kept(i, q->Some_0.inst, s0 as int, s0 + 4)
        }),
{
    let h = p.heap;
    let m = p.at;
    let s1 = (s0 + 1) as usize;
    let s2 = (s0 + 2) as usize;
    let count = ValueView::I32(n);
    let zero = ValueView::I32(0);
    let i1 = InstanceView { locals: stored(i.locals, s0, v), ..i };
    let i2 = InstanceView { locals: stored(i1.locals, s1, count), ..i };
    let i3 = InstanceView { locals: stored(i2.locals, s2, zero), ..i };
    lemma_store(h, all, i, receiver, v, s0);
    lemma_store(h, all, i1, receiver, count, s1);
    lemma_store(h, all, i2, receiver, zero, s2);
    let p1 = Place { heap: h, inst: i1, at: m + 1 };
    let p2 = Place { heap: h, inst: pushed(i1, v), at: m + 2 };
    let p3 = Place { heap: h, inst: pushed(i1, count), at: m + 3 };
    let p4 = Place { heap: h, inst: i2, at: m + 4 };
    let p5 = Place { heap: h, inst: pushed(i2, zero), at: m + 5 };
    let p6 = Place { heap: h, inst: i3, at: m + 6 };
    assert(moved(all, receiver, code, p) == Some(p1));
    assert(moved(all, receiver, code, p1) == Some(p2));
    assert(dropped(pushed(i1, v)).stack =~= i1.stack);
    assert(moved(all, receiver, code, p2) == Some(p3));
    assert(moved(all, receiver, code, p3) == Some(p4));
    assert(moved(all, receiver, code, p4) == Some(p5));
    assert(moved(all, receiver, code, p5) == Some(p6));
    assert(went(all, receiver, code, p6, 0) == Some(p6));
    assert(went(all, receiver, code, p5, 1) == Some(p6));
    assert(went(all, receiver, code, p4, 2) == Some(p6));
    assert(went(all, receiver, code, p3, 3) == Some(p6));
    assert(went(all, receiver, code, p2, 4) == Some(p6));
    assert(went(all, receiver, code, p1, 5) == Some(p6));
    assert(went(all, receiver, code, p, 6) == Some(p6));
}

/// The code in front of the body of a loop over items, as it stands in the
/// finished code.
#[verifier::spinoff_prover]
#[verifier::rlimit(40)]
proof fn lemma_walk(at: State, name: Seq<char>, t: TypeView, code: Seq<OpView>, e: State)
    requires
        sound(at),
        item_type(t) is Some,
        e == walk_entered(at, name, t, item_type(t)->Some_0),
        e.code.len() <= code.len() <= usize::MAX,
        forall|k: int|
            0 <= k < e.code.len() && k != at.code.len() + 9 ==> #[trigger] code[k] == e.code[k],
    ensures
        ({
            let m = at.code.len() as int;
            let s0 = at.next_slot;
            &&& e.code.len() == m + 14
            &&& e.next_slot == s0 + 4
            &&& e.names[name].0 == s0 + 3
            &&& s0 + 4 <= usize::MAX
            &&& s0.wrapping_add(1).wrapping_add(1) == s0 + 2
            &&& code[m] == OpView::Store(s0)
            &&& code[m + 1] == OpView::Load(s0)
            &&& code[m + 2] == OpView::Len
            &&& code[m + 3] == OpView::Store((s0 + 1) as usize)
            &&& code[m + 4] == OpView::Push(ValueView::I32(0))
            &&& code[m + 5] == OpView::Store((s0 + 2) as usize)
            &&& code[m + 6] == OpView::Load((s0 + 2) as usize)
            &&& code[m + 7] == OpView::Load((s0 + 1) as usize)
            &&& code[m + 8] == OpView::Binary(BinaryOp::I32(BinOp::Lt))
            &&& code[m + 10] == OpView::Load(s0)
            &&& code[m + 11] == OpView::Load((s0 + 2) as usize)
            &&& code[m + 12] == item_op(t)
            &&& code[m + 13] == OpView::Store((s0 + 3) as usize)
        }),
{
    let m = at.code.len() as int;
    assert(e.code.len() == m + 14);
    assert(code[m] == e.code[m]);
    assert(code[m + 1] == e.code[m + 1]);
    assert(code[m + 2] == e.code[m + 2]);
    assert(code[m + 3] == e.code[m + 3]);
    assert(code[m + 4] == e.code[m + 4]);
    assert(code[m + 5] == e.code[m + 5]);
    assert(code[m + 6] == e.code[m + 6]);
    assert(code[m + 7] == e.code[m + 7]);
    assert(code[m + 8] == e.code[m + 8]);
    assert(code[m + 10] == e.code[m + 10]);
    assert(code[m + 11] == e.code[m + 11]);
    assert(code[m + 12] == e.code[m + 12]);
    assert(code[m + 13] == e.code[m + 13]);
}

/// An item is put into its local.
#[verifier::spinoff_prover]
#[verifier::rlimit(40)]
proof fn lemma_fetch(
    all: Seq<InstanceView>,
    receiver: Option<usize>,
    code: Seq<OpView>,
    p: Place,
    t: TypeView,
    s0: usize,
    slot: usize,
    v: ValueView,
    k: i32,
    x: ValueView,
)
    requires
        0 <= p.at,
        p.at + 3 < code.len(),
        s0 + 2 < p.inst.locals.len(),
        code[p.at] == OpView::Load(s0),
        code[p.at + 1] == OpView::Load((s0 + 2) as usize),
        code[p.at + 2] == item_op(t),
        code[p.at + 3] == OpView::Store(slot),
        p.inst.locals[s0 as int] == v,
        p.inst.locals[s0 + 2] == ValueView::I32(k),
        item_type(t) is Some,
        k >= 0,
        item_at(p.heap, t, v, k as usize) == Ok::<ValueView, ErrorView>(x),
        s0 + 3 <= usize::MAX,
        slot < usize::MAX,
    ensures
        went(all, receiver, code, p, 4) == Some(
            Place {
                heap: p.heap,
                inst: InstanceView { locals: stored(p.inst.locals, slot, x), ..p.inst },
                at: p.at + 4,
            },
        ),
{
    let (h, i) = (p.heap, p.inst);
    let i1 = pushed(i, v);
    let i2 = pushed(i1, ValueView::I32(k));
    let i3 = pushed(i, x);
    let i4 = InstanceView { locals: stored(i.locals, slot, x), ..i };
    lemma_item(h, all, i, receiver, t, v, k, x);
    lemma_store(h, all, i, receiver, x, slot);
    let p1 = Place { inst: i1, at: p.at + 1, ..p };
    let p2 = Place { inst: i2, at: p.at + 2, ..p };
    let p3 = Place { inst: i3, at: p.at + 3, ..p };
    let p4 = Place { inst: i4, at: p.at + 4, ..p };
    assert(moved(all, receiver, code, p) == Some(p1));
    assert(moved(all, receiver, code, p1) == Some(p2));
    assert(moved(all, receiver, code, p2) == Some(p3));
    assert(moved(all, receiver, code, p3) == Some(p4));
    assert(went(all, receiver, code, p4, 0) == Some(p4));
    assert(went(all, receiver, code, p3, 1) == Some(p4));
    assert(went(all, receiver, code, p2, 2) == Some(p4));
    assert(went(all, receiver, code, p1, 3) == Some(p4));
}

/// Behind its body a loop over items goes on to the next item, if there is one,
/// and carries the body out again with its name standing for that; else the loop
/// is over. `v` is what is walked over, `n` its length and `k` the position of
/// the item before.
#[verifier::spinoff_prover]
#[verifier::rlimit(40)]
pub proof fn loops_over_items_go_on_with_the_next(
    ctx: Context,
    c: State,
    name: Seq<char>,
    iterable: ExprView,
    body: Seq<StatementView>,
    h: HeapView,
    all: Seq<InstanceView>,
    i: InstanceView,
    receiver: Option<usize>,
    v: ValueView,
    n: i32,
    k: i32,
    x: ValueView,
)
    requires
        sound(c),
        waiting(c),
        for_in_code(ctx, c, StatementView::ForIn { name, iterable, body }) matches Ok(done)
            && done.code.len() <= usize::MAX,
        i.locals.len() > c.next_slot + 3,
        i.locals[c.next_slot as int] == v,
        i.locals[c.next_slot + 1] == ValueView::I32(n),
        i.locals[c.next_slot + 2] == ValueView::I32(k),
        0 <= k < n,
        k + 1 < n ==> item_at(
            h,
            expr_code(ctx, c, iterable, None)->Ok_0.1,
            v,
            (k + 1) as usize,
        ) == Ok::<ValueView, ErrorView>(x),
    ensures
        ({
            let done = for_in_code(ctx, c, StatementView::ForIn { name, iterable, body })->Ok_0;
            let (at, t) = expr_code(ctx, c, iterable, None)->Ok_0;
            let e = walk_entered(at, name, t, item_type(t)->Some_0);
            let inside = scoped_code(ctx, e, body)->Ok_0;
            let from = Place { heap: h, inst: i, at: inside.code.len() as int };
            let to = went(
                all,
                receiver,
                done.code,
                from,
                if k + 1 < n {
                    13
                } else {
                    9
                },
            );
            &&& to is Some
            &&& to->Some_0.heap == h
            &&& to->Some_0.inst == (InstanceView { locals: to->Some_0.inst.locals, ..i })
            &&& k + 1 < n ==> to->Some_0.inst.locals[e.names[name].0 as int] == x
            &&& to->Some_0.inst.locals[c.next_slot as int] == v
            &&& to->Some_0.inst.locals[c.next_slot + 1] == ValueView::I32(n)
            &&& to->Some_0.inst.locals[c.next_slot + 2] == ValueView::I32((k + 1) as i32)
            &&& locals_kept(i, to->Some_0.inst, c.next_slot as int, e.next_slot as int)
            &&& to->Some_0.at == (if k + 1 < n {
                e.code.len() as int
            } else {
                done.code.len() as int
            })
        }),
{
    lemma_for_in_code(ctx, c, name, iterable, body);
    let done = for_in_code(ctx, c, StatementView::ForIn { name, iterable, body })->Ok_0;
    let (at, t) = expr_code(ctx, c, iterable, None)->Ok_0;
    let e = walk_entered(at, name, t, item_type(t)->Some_0);
    let inside = scoped_code(ctx, e, body)->Ok_0;
    loops_over_items_set_slots_aside(at, name, t, item_type(t)->Some_0);
    lemma_walk(at, name, t, done.code, e);
    let m = at.code.len() as int;
    let code = done.code;
    let s0 = at.next_slot;
    let s1 = (s0 + 1) as usize;
    let s2 = (s0 + 2) as usize;
    let p = Place { heap: h, inst: i, at: inside.code.len() as int };
    lemma_step(all, receiver, code, p, s2, (m + 6) as usize, k);
    let q = went(all, receiver, code, p, 5)->Some_0;
    lemma_test(all, receiver, code, q, s2, s1, BinOp::Lt, code.len() as usize, (k + 1) as i32, n);
    lemma_went_on(all, receiver, code, p, 5, 4);
    if k + 1 < n {
        let q10 = Place { at: m + 10, ..q };
        lemma_fetch(all, receiver, code, q10, t, s0, e.names[name].0, v, (k + 1) as i32, x);
        lemma_went_on(all, receiver, code, p, 9, 4);
    }
}

} // verus!
