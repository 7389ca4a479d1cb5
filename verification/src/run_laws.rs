//! Laws of running programs.
use vstd::prelude::*;
use crate::code::ArtifactView;
use crate::codegen::{SignatureView, find_export};
use crate::format::{PieceView, assembled, floats_in, printf_pieces};
use crate::heap::{ObjectView, object_at};
use crate::instance::{
    AnswerView, ExternalFunction, InstanceView, ModuleView, PendingView, RegisteredView,
    RequestView, cut, dropped, pushed, registered, shown, shown_lines,
};
use crate::ir::{OpView, decoded_op};
use crate::machine::{
    AfterView, VmView, acceptable, all_running, fail, finish, loaded, machine_wf, passed_on,
    running, step, steps, with_instance,
};
use crate::scalar::{other_cells_stay, written_cell_reads_back};
use crate::semantics::{
    Effect, FlowView, HeapView, answered, candle_functions, cell_in, effect, entry_in, field_at,
    item_in, offset_from, offset_of, popped_indices, popped_values, random_after, random_draws,
    register_from, stored, volume, with_cell, with_entry, with_field, with_item, without_entry,
};
use crate::text::decimal;
use crate::types::{ErrorView, TypeView};
use crate::value::{HeapRef, TableKeyView, ValueView, index_of};

verus! {

/// A condition that decides `&&` or `||` is kept, and the program goes on at
/// the target of the jump: nothing in between is carried out.
pub proof fn decided_conditions_skip(
    h: HeapView,
    all: Seq<InstanceView>,
    i: InstanceView,
    receiver: Option<usize>,
    target: usize,
    b: bool,
)
    requires
        i.stack.len() > 0,
        i.stack.last() == ValueView::Bool(b),
    ensures
        effect(
            h,
            all,
            i,
            receiver,
            if b {
                OpView::JumpIfTrueKeep(target)
            } else {
                OpView::JumpIfFalseKeep(target)
            },
        ) == (Effect { heap: h, inst: i, flow: FlowView::Goto(target) }),
{
}

/// A condition that does not decide is dropped, and the program goes on with
/// the right side.
pub proof fn undecided_conditions_go_on(
    h: HeapView,
    all: Seq<InstanceView>,
    i: InstanceView,
    receiver: Option<usize>,
    target: usize,
    b: bool,
)
    requires
        i.stack.len() > 0,
        i.stack.last() == ValueView::Bool(b),
    ensures
        effect(
            h,
            all,
            i,
            receiver,
            if b {
                OpView::JumpIfFalseKeep(target)
            } else {
                OpView::JumpIfTrueKeep(target)
            },
        ) == (Effect { heap: h, inst: dropped(i), flow: FlowView::Next }),
{
}

/// A local reads back as what was stored in it, and other locals stay.
pub proof fn stored_locals_read_back(locals: Seq<ValueView>, slot: usize, v: ValueView, other: int)
    requires
        0 <= other < locals.len(),
        other != slot,
    ensures
        stored(locals, slot, v)[slot as int] == v,
        stored(locals, slot, v)[other] == locals[other],
{
}

/// A field of a struct reads back as what was stored in it.
pub proof fn stored_fields_read_back(h: HeapView, r: HeapRef, index: usize, v: ValueView)
    requires
        with_field(h, r, index, v) is Ok,
    ensures
        field_at(with_field(h, r, index, v)->Ok_0, r, index) == Ok::<ValueView, ErrorView>(v),
{
}

/// Other fields, and every other object, stay as they were.
pub proof fn storing_a_field_keeps_the_rest(
    h: HeapView,
    r: HeapRef,
    index: usize,
    v: ValueView,
    other: HeapRef,
    other_index: usize,
)
    requires
        with_field(h, r, index, v) is Ok,
        other != r || other_index != index,
    ensures
        field_at(with_field(h, r, index, v)->Ok_0, other, other_index) == field_at(
            h,
            other,
            other_index,
        ),
        other != r ==> object_at(with_field(h, r, index, v)->Ok_0, other) == object_at(h, other),
{
}

/// An item of a vector reads back as what was stored in it.
pub proof fn stored_items_read_back(
    h: HeapView,
    r: HeapRef,
    index: usize,
    v: ValueView,
    element: TypeView,
)
    requires
        with_cell(h, r, index, v, element) is Ok,
        object_at(h, r) matches Ok(ObjectView::Array { element: held, .. }) && held == element,
    ensures
        cell_in(
            with_cell(h, r, index, v, element)->Ok_0,
            ValueView::Array(r, element),
            index,
        ) == Ok::<ValueView, ErrorView>(v),
{
    if let Ok(ObjectView::Array { bytes, .. }) = object_at(h, r) {
        written_cell_reads_back(bytes, index, v, element);
    }
}

/// Other items of the vector stay as they were.
pub proof fn storing_an_item_keeps_the_others(
    h: HeapView,
    r: HeapRef,
    index: usize,
    v: ValueView,
    element: TypeView,
    other: usize,
)
    requires
        with_cell(h, r, index, v, element) is Ok,
        object_at(h, r) matches Ok(ObjectView::Array { element: held, .. }) && held == element,
        other != index,
    ensures
        cell_in(
            with_cell(h, r, index, v, element)->Ok_0,
            ValueView::Array(r, element),
            other,
        ) == cell_in(h, ValueView::Array(r, element), other),
{
    if let Ok(ObjectView::Array { bytes, .. }) = object_at(h, r) {
        other_cells_stay(bytes, index, other, v, element);
    }
}

/// An entry of a table reads back as what was stored in it, and other entries
/// stay as they were.
pub proof fn stored_entries_read_back(
    h: HeapView,
    r: HeapRef,
    element: TypeView,
    key: TableKeyView,
    v: ValueView,
    other: TableKeyView,
)
    requires
        with_entry(h, r, key, v) is Ok,
        other != key,
    ensures
        entry_in(with_entry(h, r, key, v)->Ok_0, ValueView::Table(r, element), key) == Ok::<
            ValueView,
            ErrorView,
        >(v),
        entry_in(with_entry(h, r, key, v)->Ok_0, ValueView::Table(r, element), other) == entry_in(
            h,
            ValueView::Table(r, element),
            other,
        ),
{
}

/// A removed entry is gone, and removing says whether there was one.
pub proof fn removed_entries_are_gone(
    h: HeapView,
    r: HeapRef,
    element: TypeView,
    key: TableKeyView,
)
    requires
        without_entry(h, ValueView::Table(r, element), key) is Ok,
    ensures
        ({
            let (h1, removed) = without_entry(h, ValueView::Table(r, element), key)->Ok_0;
            &&& entry_in(h1, ValueView::Table(r, element), key) is Err
            &&& removed == (entry_in(h, ValueView::Table(r, element), key) is Ok)
        }),
{
}

proof fn lemma_volume(shape: Seq<usize>, k: int)
    ensures
        volume(shape, k) >= 0,
    decreases shape.len() - k,
{
    if 0 <= k < shape.len() {
        lemma_volume(shape, k + 1);
        let v = volume(shape, k + 1);
        let d = shape[k] as int;
        assert(d * v >= 0) by (nonlinear_arith)
            requires
                d >= 0,
                v >= 0,
        ;
    }
}

proof fn lemma_offset(offset: int, shape: Seq<usize>, indices: Seq<usize>, k: int)
    requires
        0 <= k <= shape.len(),
        shape.len() == indices.len(),
        0 <= offset <= usize::MAX,
        offset_from(offset, shape, indices, k) is Ok,
    ensures
        ({
            let n = offset_from(offset, shape, indices, k)->Ok_0 as int;
            offset * volume(shape, k) <= n < (offset + 1) * volume(shape, k)
        }),
        forall|j: int| k <= j < shape.len() ==> #[trigger] indices[j] < shape[j],
    decreases shape.len() - k,
{
    if k < shape.len() {
        let d = shape[k] as int;
        let x = indices[k] as int;
        let next = offset * d + x;
        assert(next >= 0) by (nonlinear_arith)
            requires
                next == offset * d + x,
                offset >= 0,
                d >= 0,
                x >= 0,
        ;
        lemma_offset(next, shape, indices, k + 1);
        lemma_volume(shape, k + 1);
        let v = volume(shape, k + 1);
        assert(offset * (d * v) <= next * v) by (nonlinear_arith)
            requires
                next == offset * d + x,
                x >= 0,
                v >= 0,
        ;
        assert((next + 1) * v <= (offset + 1) * (d * v)) by (nonlinear_arith)
            requires
                next == offset * d + x,
                x + 1 <= d,
                v >= 0,
        ;
    } else {
        assert(offset * 1 == offset);
    }
}

/// The position of an item lies inside the tensor.
pub proof fn offsets_stay_inside(shape: Seq<usize>, indices: Seq<usize>)
    requires
        offset_of(shape, indices) is Ok,
    ensures
        offset_of(shape, indices)->Ok_0 < volume(shape, 0),
{
    lemma_offset(0, shape, indices, 0);
    assert(1 * volume(shape, 0) == volume(shape, 0));
}

proof fn lemma_offsets_differ(
    a: int,
    b: int,
    shape: Seq<usize>,
    left: Seq<usize>,
    right: Seq<usize>,
    k: int,
)
    requires
        0 <= k <= shape.len(),
        shape.len() == left.len(),
        shape.len() == right.len(),
        0 <= a <= usize::MAX,
        0 <= b <= usize::MAX,
        offset_from(a, shape, left, k) is Ok,
        offset_from(b, shape, right, k) is Ok,
        offset_from(a, shape, left, k) == offset_from(b, shape, right, k),
    ensures
        a == b,
        forall|j: int| k <= j < shape.len() ==> #[trigger] left[j] == right[j],
    decreases shape.len() - k,
{
    if k < shape.len() {
        let d = shape[k] as int;
        let x = left[k] as int;
        let y = right[k] as int;
        assert(a * d + x >= 0 && b * d + y >= 0) by (nonlinear_arith)
            requires
                a >= 0,
                b >= 0,
                d >= 0,
                x >= 0,
                y >= 0,
        ;
        lemma_offsets_differ(a * d + x, b * d + y, shape, left, right, k + 1);
        assert(a == b && x == y) by (nonlinear_arith)
            requires
                a * d + x == b * d + y,
                0 <= x < d,
                0 <= y < d,
        ;
    }
}

/// Different items of a tensor have different positions.
pub proof fn offsets_differ(shape: Seq<usize>, left: Seq<usize>, right: Seq<usize>)
    requires
        offset_of(shape, left) is Ok,
        offset_of(shape, left) == offset_of(shape, right),
    ensures
        left == right,
{
    lemma_offsets_differ(0, 0, shape, left, right, 0);
    assert(left =~= right);
}

/// An item of a tensor reads back as what was stored in it.
pub proof fn stored_tensor_items_read_back(
    h: HeapView,
    r: HeapRef,
    ty: TypeView,
    indices: Seq<usize>,
    v: ValueView,
    element: TypeView,
    rank: usize,
)
    requires
        with_item(h, r, indices, v, element, rank) is Ok,
        object_at(h, r) matches Ok(ObjectView::Tensor { element: held, .. }) && held == element,
    ensures
        item_in(
            with_item(h, r, indices, v, element, rank)->Ok_0,
            ValueView::Tensor(r, ty),
            indices,
            Some(element),
            rank,
        ) == Ok::<ValueView, ErrorView>(v),
{
    if let Ok(ObjectView::Tensor { bytes, shape, .. }) = object_at(h, r) {
        written_cell_reads_back(bytes, offset_of(shape, indices)->Ok_0, v, element);
    }
}

/// Other items of the tensor stay as they were.
pub proof fn storing_a_tensor_item_keeps_the_others(
    h: HeapView,
    r: HeapRef,
    ty: TypeView,
    indices: Seq<usize>,
    v: ValueView,
    element: TypeView,
    rank: usize,
    other: Seq<usize>,
)
    requires
        with_item(h, r, indices, v, element, rank) is Ok,
        object_at(h, r) matches Ok(ObjectView::Tensor { element: held, .. }) && held == element,
        other != indices,
    ensures
        item_in(
            with_item(h, r, indices, v, element, rank)->Ok_0,
            ValueView::Tensor(r, ty),
            other,
            Some(element),
            rank,
        ) == item_in(h, ValueView::Tensor(r, ty), other, Some(element), rank),
{
    if let Ok(ObjectView::Tensor { bytes, shape, .. }) = object_at(h, r) {
        let at = offset_of(shape, indices)->Ok_0;
        if offset_of(shape, other) is Ok {
            let there = offset_of(shape, other)->Ok_0;
            if there == at {
                offsets_differ(shape, indices, other);
            }
            other_cells_stay(bytes, at, there, v, element);
        }
    }
}

/// A module that is loaded is not run again: importing it gives it at once.
pub proof fn loaded_modules_are_not_run_again(
    h: HeapView,
    all: Seq<InstanceView>,
    i: InstanceView,
    receiver: Option<usize>,
    artifact: ArtifactView,
)
    requires
        i.modules.contains_key(artifact.id),
        !i.natives.contains_key(artifact.id),
    ensures
        effect(h, all, i, receiver, OpView::Require(Box::new(artifact))) == (Effect {
            heap: h,
            inst: pushed(i, ValueView::Module(artifact.id)),
            flow: FlowView::Next,
        }),
{
}

/// Once a module has run, its importer knows it.
pub proof fn modules_that_have_run_are_loaded(
    m: VmView,
    artifact: ArtifactView,
    child: usize,
    parent: usize,
)
    requires
        child < m.instances.len(),
        parent < m.instances.len(),
        child != parent,
    ensures
        ({
            let i = loaded(m, artifact, child, parent).instances[parent as int];
            &&& i.modules.contains_key(artifact.id)
            &&& i.modules[artifact.id] == (ModuleView { artifact, instance: child })
            &&& i.stack.last() == ValueView::Module(artifact.id)
        }),
{
    lemma_lines_keep(
        m.instances[parent as int],
        m.instances[child as int].output,
        0,
    );
    let i = m.instances[parent as int];
    let known = InstanceView {
        modules: i.modules.insert(artifact.id, ModuleView { artifact, instance: child }),
        ..i
    };
    lemma_lines_keep(known, m.instances[child as int].output, 0);
}

/// Putting lines out changes nothing but the output.
proof fn lemma_lines_keep(i: InstanceView, lines: Seq<Seq<char>>, k: int)
    ensures
        ({
            let done = shown_lines(i, lines, k);
            done == (InstanceView { output: done.output, display: done.display, ..i })
        }),
    decreases lines.len() - k,
{
    if 0 <= k < lines.len() {
        lemma_lines_keep(shown(i, lines[k], true), lines, k + 1);
    }
}

/// After a failure the structs that are alive are destroyed, the latest first,
/// and the failure is kept.
pub proof fn failures_destroy_the_latest_struct_first(m: VmView, e: ErrorView)
    requires
        machine_wf(m),
        m.runs.len() > 0,
        m.runs.last().failure is None,
        m.instances[m.runs.last().instance as int].destructors.len() > 0,
    ensures
        ({
            let r = m.runs.last();
            let i = m.instances[r.instance as int];
            let d = i.destructors.last();
            let next = fail(m, e);
            &&& next.runs.last().pc == d.target
            &&& next.runs.last().receiver == Some(d.slot)
            &&& next.runs.last().failure == Some(e)
            &&& next.instances[r.instance as int].destructors == i.destructors.drop_last()
            &&& next.outcome == m.outcome
        }),
{
    assert(m.runs[m.runs.len() - 1].instance < m.instances.len());
}

/// A failure of a destructor does not take the place of the failure that led
/// to it.
pub proof fn the_first_failure_counts(m: VmView, first: ErrorView, second: ErrorView)
    requires
        m.runs.len() > 0,
        m.runs.last().failure == Some(first),
    ensures
        fail(m, second) == fail(m, first),
{
}

/// A program whose structs are all destroyed ends with the failure.
pub proof fn failures_end_the_program(m: VmView, e: ErrorView)
    requires
        m.runs.len() == 1,
        m.runs.last().failure is None,
        !(m.runs.last().after is Load),
        m.instances[m.runs.last().instance as int].destructors.len() == 0,
    ensures
        fail(m, e).outcome == Some(Err::<(), ErrorView>(e)),
        fail(m, e).runs.len() == 0,
        fail(m, e).instances == m.instances,
        fail(m, e).heap == m.heap,
{
    reveal_with_fuel(fail, 2);
}

/// A function that fails with a status aborts the call: its arguments are
/// dropped and the program fails.
pub proof fn failed_c_calls_abort(
    h: HeapView,
    i: InstanceView,
    request: RequestView,
    name: Seq<char>,
    result: TypeView,
    base: usize,
    status: i32,
    results: Seq<ValueView>,
)
    requires
        status != 0,
    ensures
        answered(
            h,
            i,
            request,
            PendingView::Host { name, result, base },
            AnswerView::C { status, results },
        ) == (Effect {
            heap: h,
            inst: cut(i, base as int),
            flow: FlowView::Fail(
                ErrorView::Runtime(
                    "C function '"@ + name + "' failed with status "@ + decimal(status as int),
                ),
            ),
        }),
{
}

/// A name that is taken is refused a second time.
pub proof fn names_are_registered_once(
    i: InstanceView,
    name: Seq<char>,
    first: RegisteredView,
    second: RegisteredView,
)
    requires
        name.len() > 0,
    ensures
        registered(registered(i, name, first).0, name, second).1 is Err,
        registered(i, name, first).0.externs[name] == first,
{
}

/// An answer of the wrong kind is refused whatever it holds.
pub proof fn wrong_answers_are_refused(m: VmView, text: Seq<char>)
    requires
        m.waiting matches Some((RequestView::Float(_), _)),
    ensures
        !acceptable(m, AnswerView::Line(text)),
        !acceptable(m, AnswerView::End),
{
}

/// Random numbers have 53 bits.
pub proof fn draws_have_53_bits(state: u64, count: nat, k: int)
    requires
        0 <= k < count,
    ensures
        random_draws(state, count)[k] < 0x20_0000_0000_0000u64,
{
    let s = random_after(state, (k + 1) as nat);
    assert(s >> 11u64 < 0x20_0000_0000_0000u64) by (bit_vector);
}

/// A text without braces is printed as it is.
pub proof fn plain_formats_print_themselves(h: HeapView, format: Seq<char>)
    requires
        forall|k: int| 0 <= k < format.len() ==> #[trigger] format[k] != '{' && format[k] != '}',
    ensures
        printf_pieces(h, Seq::empty(), format, 0, Seq::empty(), 0) is Ok,
        floats_in(printf_pieces(h, Seq::empty(), format, 0, Seq::empty(), 0)->Ok_0, 0).len() == 0,
        assembled(
            ""@,
            printf_pieces(h, Seq::empty(), format, 0, Seq::empty(), 0)->Ok_0,
            0,
            Seq::empty(),
            0,
        ) == format,
{
    let all = Seq::new(format.len(), |k: int| PieceView::Text(seq![format[k]]));
    assert(all.take(0) =~= Seq::empty());
    lemma_plain_pieces(h, format, 0, all);
    lemma_plain_floats(format, 0, all);
    reveal_strlit("");
    assert(format.take(0) =~= ""@);
    lemma_plain_text(format, 0, all);
}

proof fn lemma_plain_pieces(h: HeapView, format: Seq<char>, k: int, all: Seq<PieceView>)
    requires
        0 <= k <= format.len(),
        all == Seq::new(format.len(), |j: int| PieceView::Text(seq![format[j]])),
        forall|j: int| 0 <= j < format.len() ==> #[trigger] format[j] != '{' && format[j] != '}',
    ensures
        printf_pieces(h, all.take(k), format, k, Seq::empty(), 0) == Ok::<
            Seq<PieceView>,
            ErrorView,
        >(all),
    decreases format.len() - k,
{
    if k < format.len() {
        lemma_plain_pieces(h, format, k + 1, all);
        assert(all.take(k).push(PieceView::Text(seq![format[k]])) =~= all.take(k + 1));
    } else {
        assert(all.take(k) =~= all);
    }
}

proof fn lemma_plain_floats(format: Seq<char>, k: int, all: Seq<PieceView>)
    requires
        0 <= k <= format.len(),
        all == Seq::new(format.len(), |j: int| PieceView::Text(seq![format[j]])),
    ensures
        floats_in(all, k).len() == 0,
    decreases format.len() - k,
{
    if k < format.len() {
        lemma_plain_floats(format, k + 1, all);
    }
}

proof fn lemma_plain_text(format: Seq<char>, k: int, all: Seq<PieceView>)
    requires
        0 <= k <= format.len(),
        all == Seq::new(format.len(), |j: int| PieceView::Text(seq![format[j]])),
    ensures
        assembled(format.take(k), all, k, Seq::empty(), 0) == format,
    decreases format.len() - k,
{
    if k < format.len() {
        lemma_plain_text(format, k + 1, all);
        assert(format.take(k) + seq![format[k]] =~= format.take(k + 1));
    } else {
        assert(format.take(k) =~= format);
    }
}

proof fn lemma_indices_keep_modules(i: InstanceView, rank: nat, acc: Seq<usize>)
    ensures
        popped_indices(i, rank, acc).0.modules == i.modules,
    decreases rank,
{
    if rank > 0 && i.stack.len() > 0 {
        match index_of(i.stack.last()) {
            Ok(index) => {
                lemma_indices_keep_modules(
                    dropped(i),
                    (rank - 1) as nat,
                    seq![index] + acc,
                );
            },
            Err(_) => {},
        }
    }
}

proof fn lemma_values_keep_modules(i: InstanceView, count: nat, acc: Seq<ValueView>)
    ensures
        popped_values(i, count, acc).0.modules == i.modules,
    decreases count,
{
    if count > 0 && i.stack.len() > 0 {
        lemma_values_keep_modules(
            dropped(i),
            (count - 1) as nat,
            seq![i.stack.last()] + acc,
        );
    }
}

proof fn lemma_registering_keeps_modules(
    i: InstanceView,
    functions: Seq<(Seq<char>, SignatureView)>,
    k: int,
)
    ensures
        register_from(i, functions, k).0.modules == i.modules,
    decreases functions.len() - k,
{
    if 0 <= k < functions.len() {
        let (i1, _) = registered(
            i,
            functions[k].0,
            RegisteredView { signature: functions[k].1, function: ExternalFunction::Native },
        );
        lemma_registering_keeps_modules(i1, functions, k + 1);
    }
}

/// An instruction makes no module known and forgets none: only a module that
/// has run is loaded, and it stays so.
#[verifier::spinoff_prover]
#[verifier::rlimit(60)]
pub proof fn instructions_keep_the_loaded_modules(
    h: HeapView,
    all: Seq<InstanceView>,
    i: InstanceView,
    receiver: Option<usize>,
    op: OpView,
)
    ensures
        effect(h, all, i, receiver, op).inst.modules == i.modules,
{
    match op {
        OpView::StoreTensorIndex(_, _, rank) => {
            lemma_indices_keep_modules(dropped(i), rank as nat, Seq::empty());
        },
        OpView::StoreTensorIndexF32(_, rank) => {
            lemma_indices_keep_modules(dropped(i), rank as nat, Seq::empty());
        },
        OpView::TensorIndex(_, rank) => {
            lemma_indices_keep_modules(i, rank as nat, Seq::empty());
        },
        OpView::TensorIndexF32(rank) => {
            lemma_indices_keep_modules(i, rank as nat, Seq::empty());
        },
        OpView::Printf(count) => {
            lemma_values_keep_modules(dropped(i), count as nat, Seq::empty());
        },
        OpView::Require(artifact) => {
            lemma_registering_keeps_modules(
                InstanceView { natives: i.natives.remove(artifact.id), ..i },
                candle_functions(),
                0,
            );
        },
        _ => {},
    }
}

proof fn lemma_steps_compose(m: VmView, a: Seq<bool>, b: Seq<bool>)
    ensures
        steps(m, a + b) == steps(steps(m, a), b),
    decreases b.len(),
{
    if b.len() == 0 {
        assert(a + b =~= a);
    } else {
        lemma_steps_compose(m, a, b.drop_last());
        assert((a + b).drop_last() =~= a + b.drop_last());
        assert((a + b).last() == b.last());
    }
}

/// Running a program in pieces is running it at once.
pub proof fn running_in_pieces(m: VmView, first: Seq<bool>, second: Seq<bool>)
    requires
        all_running(m, first),
        all_running(steps(m, first), second),
    ensures
        all_running(m, first + second),
        steps(m, first + second) == steps(steps(m, first), second),
{
    lemma_steps_compose(m, first, second);
    let whole = first + second;
    assert forall|k: int| 0 <= k < whole.len() implies running(
        #[trigger] steps(m, whole.take(k)),
    ) by {
        if k < first.len() {
            assert(whole.take(k) =~= first.take(k));
        } else {
            let rest = k - first.len();
            assert(whole.take(k) =~= first + second.take(rest));
            lemma_steps_compose(m, first, second.take(rest));
            assert(running(steps(steps(m, first), second.take(rest))));
        }
    }
}

/// A C function has to give exactly one result: none, or more than one, aborts
/// the call.
pub proof fn c_calls_give_one_result(
    h: HeapView,
    i: InstanceView,
    request: RequestView,
    name: Seq<char>,
    result: TypeView,
    base: usize,
    results: Seq<ValueView>,
)
    requires
        results.len() != 1,
    ensures
        answered(
            h,
            i,
            request,
            PendingView::Host { name, result, base },
            AnswerView::C { status: 0, results },
        ) == (Effect {
            heap: h,
            inst: cut(i, base as int),
            flow: FlowView::Fail(
                ErrorView::Runtime("C function '"@ + name + "' must push exactly one result"@),
            ),
        }),
{
}

/// Only what a module exports can be read or called from outside.
pub proof fn only_exports_are_reachable(
    h: HeapView,
    all: Seq<InstanceView>,
    i: InstanceView,
    receiver: Option<usize>,
    id: Seq<char>,
    name: Seq<char>,
    slot: usize,
)
    requires
        i.modules.contains_key(id),
        find_export(i.modules[id].artifact.exports, name, 0) is None,
        i.stack.len() > 0,
        i.stack.last() == ValueView::Module(id),
        slot < i.locals.len(),
        i.locals[slot as int] == ValueView::Module(id),
    ensures
        effect(h, all, i, receiver, OpView::ModuleField(name)).flow is Fail,
        effect(h, all, i, receiver, OpView::CallModule(slot, name)).flow is Fail,
{
}

/// Whether every instance that is left knows the modules that it knew.
pub open spec fn modules_kept(before: Seq<InstanceView>, after: Seq<InstanceView>) -> bool {
    forall|at: int, id: Seq<char>|
        #![trigger after[at].modules.contains_key(id)]
        0 <= at < before.len() && at < after.len() && before[at].modules.contains_key(id)
            ==> after[at].modules.contains_key(id)
}

proof fn lemma_fail_keeps_modules(m: VmView, e: ErrorView)
    requires
        machine_wf(m),
    ensures
        0 < fail(m, e).instances.len() <= m.instances.len(),
        forall|at: int|
            0 <= at < fail(m, e).instances.len() ==> (#[trigger] fail(m, e).instances[at]).modules
                == m.instances[at].modules,
    decreases m.runs.len(),
{
    if m.runs.len() > 0 {
        let r = m.runs.last();
        let k = m.runs.len() - 1;
        assert(m.runs[k] == r);
        assert(r.instance < m.instances.len());
        let i = m.instances[r.instance as int];
        if i.destructors.len() == 0 {
            let first = match r.failure {
                Some(x) => x,
                None => e,
            };
            let instances = if r.after is Load {
                m.instances.take(r.instance as int)
            } else {
                m.instances
            };
            let rest = VmView { instances, runs: m.runs.drop_last(), waiting: None, ..m };
            let next = VmView { instances, runs: m.runs.drop_last(), ..m };
            if r.after is Load {
                assert(k > 0);
                assert(m.runs[0].instance < m.runs[k].instance);
            }
            assert forall|j: int| 0 <= j < rest.runs.len() implies (
            #[trigger] rest.runs[j]).instance < rest.instances.len() by {
                assert(rest.runs[j] == m.runs[j]);
                if r.after is Load {
                    assert(m.runs[j].instance < m.runs[k].instance);
                }
            }
            assert forall|a: int, b: int|
                #![trigger rest.runs[a], rest.runs[b]]
                0 <= a < b < rest.runs.len() && rest.runs[b].after is Load implies rest.runs[a].instance
                < rest.runs[b].instance by {
                assert(m.runs[a].instance < m.runs[b].instance);
            }
            if rest.runs.len() > 0 {
                assert(rest.runs[0] == m.runs[0]);
            }
            lemma_fail_keeps_modules(rest, first);
            lemma_waiting_is_irrelevant(next, first);
        }
    }
}

proof fn lemma_waiting_is_irrelevant(m: VmView, e: ErrorView)
    ensures
        fail(m, e).instances == fail(VmView { waiting: None, ..m }, e).instances,
    decreases m.runs.len(),
{
    if m.runs.len() > 0 {
        let r = m.runs.last();
        let first = match r.failure {
            Some(x) => x,
            None => e,
        };
        let instances = if r.after is Load {
            m.instances.take(r.instance as int)
        } else {
            m.instances
        };
        lemma_waiting_is_irrelevant(VmView { instances, runs: m.runs.drop_last(), ..m }, first);
    }
}

proof fn lemma_finish_keeps_modules(m: VmView)
    requires
        machine_wf(m),
        m.runs.len() > 0,
    ensures
        finish(m).instances.len() > 0,
        modules_kept(m.instances, finish(m).instances),
{
    let r = m.runs.last();
    let k = m.runs.len() - 1;
    assert(m.runs[k] == r);
    match r.failure {
        Some(e) => {
            lemma_fail_keeps_modules(m, e);
        },
        None => {
            let rest = VmView { runs: m.runs.drop_last(), ..m };
            if rest.runs.len() > 0 {
                assert(rest.runs.last() == m.runs[k - 1]);
                let parent = m.runs[k - 1].instance;
                assert(parent < m.instances.len());
                let child = r.instance;
                assert(child < m.instances.len());
                match r.after {
                    AfterView::Finish => {},
                    AfterView::Resume => {
                        lemma_passed_on_keeps_modules(rest, child, parent);
                    },
                    AfterView::Load(artifact) => {
                        let i = rest.instances[parent as int];
                        let m1 = with_instance(
                            rest,
                            parent,
                            InstanceView {
                                modules: i.modules.insert(
                                    artifact.id,
                                    ModuleView { artifact, instance: child },
                                ),
                                ..i
                            },
                        );
                        lemma_passed_on_keeps_modules(m1, child, parent);
                    },
                }
            }
        },
    }
}

proof fn lemma_passed_on_keeps_modules(m: VmView, child: usize, parent: usize)
    requires
        child < m.instances.len(),
        parent < m.instances.len(),
    ensures
        passed_on(m, child, parent).instances.len() == m.instances.len(),
        forall|at: int|
            0 <= at < m.instances.len() ==> (#[trigger] passed_on(
                m,
                child,
                parent,
            ).instances[at]).modules == m.instances[at].modules,
{
    let lines = m.instances[child as int].output;
    let m1 = with_instance(
        m,
        child,
        InstanceView { output: Seq::empty(), ..m.instances[child as int] },
    );
    lemma_lines_keep(m1.instances[parent as int], lines, 0);
}

/// A module that is loaded stays loaded while the program runs: no step makes
/// an instance forget one.
pub proof fn loaded_modules_stay(m: VmView, tidy: bool)
    requires
        machine_wf(m),
        running(m),
    ensures
        step(m, tidy).instances.len() > 0,
        modules_kept(m.instances, step(m, tidy).instances),
{
    let r = m.runs.last();
    let k = m.runs.len() - 1;
    assert(m.runs[k] == r);
    if r.pc >= r.code.words.len() {
        lemma_finish_keeps_modules(m);
    } else {
        match decoded_op(r.code, r.pc as int) {
            Err(e) => {
                lemma_fail_keeps_modules(m, e);
            },
            Ok(op) => {
                let i = m.instances[r.instance as int];
                let e = effect(m.heap, m.instances, i, r.receiver, op);
                instructions_keep_the_loaded_modules(m.heap, m.instances, i, r.receiver, op);
                let m1 = VmView {
                    heap: e.heap,
                    instances: m.instances.update(r.instance as int, e.inst),
                    ..m
                };
                assert(machine_wf(m1));
                match e.flow {
                    FlowView::Return => {
                        if r.calls.len() == 0 {
                            if r.terminal {
                                lemma_finish_keeps_modules(m1);
                            } else {
                                lemma_fail_keeps_modules(
                                    m1,
                                    ErrorView::Runtime("return outside method"@),
                                );
                            }
                        }
                    },
                    FlowView::Fail(x) => {
                        lemma_fail_keeps_modules(m1, x);
                    },
                    FlowView::Enter { .. } => {
                        lemma_fail_keeps_modules(
                            m1,
                            ErrorView::Runtime("loaded module is missing"@),
                        );
                    },
                    _ => {},
                }
            },
        }
    }
}

} // verus!
