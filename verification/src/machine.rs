//! How a program runs: one instruction after the other, modules within it, and
//! destructors after a failure.
use vstd::prelude::*;
use crate::code::{ArtifactView, CodeView};
use crate::heap::{Heap, collected, due, grown, recounted};
use crate::instance::{
    AnswerView, InstanceView, ModuleView, PendingView, RequestView, answers, module_instance,
    new_instance, pushed, shown_lines,
};
use crate::ir::decoded_op;
use crate::semantics::{Effect, FlowView, HeapView, answered, effect};
use crate::types::ErrorView;
use crate::value::{HeapRef, ValueView, ref_of};

verus! {

/// What follows a run.
pub enum AfterView {
    /// The program ends.
    Finish,
    /// The module that was run is loaded.
    Load(ArtifactView),
    /// The importer of the module goes on.
    Resume,
}

/// Code at work.
pub struct RunView {
    pub instance: usize,
    pub code: CodeView,
    pub pc: usize,
    /// Whether a return outside of any call ends the run.
    pub terminal: bool,
    pub receiver: Option<usize>,
    /// Where the calls return to, and with which receiver.
    pub calls: Seq<(usize, Option<usize>)>,
    pub after: AfterView,
    /// The failure after which the destructors are run.
    pub failure: Option<ErrorView>,
}

/// A machine: what it holds, the runs that wait for each other, and the request
/// that the last of them waits for.
pub struct VmView {
    pub heap: HeapView,
    pub instances: Seq<InstanceView>,
    pub runs: Seq<RunView>,
    pub waiting: Option<(RequestView, PendingView)>,
    pub outcome: Option<Result<(), ErrorView>>,
}

/// Every run has its instance, and a module that is being loaded has a later
/// instance than what loads it.
pub open spec fn machine_wf(m: VmView) -> bool {
    &&& m.instances.len() > 0
    &&& m.runs.len() > 0 ==> !(m.runs[0].after is Load)
    &&& forall|k: int|
        0 <= k < m.runs.len() ==> (#[trigger] m.runs[k]).instance < m.instances.len()
    &&& forall|j: int, k: int|
        #![trigger m.runs[j], m.runs[k]]
        0 <= j < k < m.runs.len() && m.runs[k].after is Load ==> m.runs[j].instance
            < m.runs[k].instance
    &&& m.waiting is Some ==> m.runs.len() > 0
}

/// A machine that has run nothing yet.
pub open spec fn new_machine() -> VmView {
    VmView {
        heap: Seq::empty(),
        instances: seq![new_instance()],
        runs: Seq::empty(),
        waiting: None,
        outcome: None,
    }
}

/// The machine with another state of the last run.
pub open spec fn with_run(m: VmView, r: RunView) -> VmView {
    VmView { runs: m.runs.drop_last().push(r), ..m }
}

pub open spec fn with_instance(m: VmView, at: usize, i: InstanceView) -> VmView {
    VmView { instances: m.instances.update(at as int, i), ..m }
}

/// A run of a destructor for the struct in a local.
pub open spec fn destructor_run(r: RunView, slot: usize, target: usize) -> RunView {
    RunView { pc: target, terminal: true, receiver: Some(slot), calls: Seq::empty(), ..r }
}

/// The machine after a failure: the destructors of the run are carried out
/// first, the latest first; then the failure passes on to what started the run.
/// Of several failures the first one counts.
pub open spec fn fail(m: VmView, e: ErrorView) -> VmView
    decreases m.runs.len(),
{
    if m.runs.len() == 0 {
        VmView { outcome: Some(Err(e)), ..m }
    } else {
        let r = m.runs.last();
        let first = match r.failure {
            Some(x) => x,
            None => e,
        };
        let i = m.instances[r.instance as int];
        if i.destructors.len() > 0 {
            let d = i.destructors.last();
            with_run(
                with_instance(
                    m,
                    r.instance,
                    InstanceView { destructors: i.destructors.drop_last(), ..i },
                ),
                RunView { failure: Some(first), ..destructor_run(r, d.slot, d.target) },
            )
        } else {
            fail(
                VmView {
                    instances: if r.after is Load {
                        m.instances.take(r.instance as int)
                    } else {
                        m.instances
                    },
                    runs: m.runs.drop_last(),
                    ..m
                },
                first,
            )
        }
    }
}

/// The importer of a module once a run of it has ended: it puts out what the
/// module put out.
pub open spec fn passed_on(m: VmView, child: usize, parent: usize) -> VmView {
    let lines = m.instances[child as int].output;
    let m1 = with_instance(
        m,
        child,
        InstanceView { output: Seq::empty(), ..m.instances[child as int] },
    );
    with_instance(m1, parent, shown_lines(m1.instances[parent as int], lines, 0))
}

/// The importer of a module once the module is loaded.
pub open spec fn loaded(m: VmView, artifact: ArtifactView, child: usize, parent: usize) -> VmView {
    let i = m.instances[parent as int];
    let m1 = with_instance(
        m,
        parent,
        InstanceView {
            modules: i.modules.insert(artifact.id, ModuleView { artifact, instance: child }),
            ..i
        },
    );
    let m2 = passed_on(m1, child, parent);
    with_instance(
        m2,
        parent,
        pushed(m2.instances[parent as int], ValueView::Module(artifact.id)),
    )
}

/// The machine once the last run has come to its end.
pub open spec fn finish(m: VmView) -> VmView {
    let r = m.runs.last();
    let rest = VmView { runs: m.runs.drop_last(), ..m };
    match r.failure {
        Some(e) => fail(m, e),
        None => if rest.runs.len() == 0 {
            VmView { outcome: Some(Ok(())), ..rest }
        } else {
            let parent = rest.runs.last().instance;
            match r.after {
                AfterView::Finish => rest,
                AfterView::Resume => passed_on(rest, r.instance, parent),
                AfterView::Load(artifact) => loaded(rest, artifact, r.instance, parent),
            }
        },
    }
}

/// The references among values from `k` on.
pub open spec fn refs_from(acc: Seq<HeapRef>, values: Seq<ValueView>, k: int) -> Seq<HeapRef>
    decreases values.len() - k,
{
    if k < 0 || k >= values.len() {
        acc
    } else {
        match ref_of(values[k]) {
            Some(r) => refs_from(acc.push(r), values, k + 1),
            None => refs_from(acc, values, k + 1),
        }
    }
}

/// What the stacks and locals refer to, from instance `k` on.
pub open spec fn roots_from(acc: Seq<HeapRef>, instances: Seq<InstanceView>, k: int) -> Seq<HeapRef>
    decreases instances.len() - k,
{
    if k < 0 || k >= instances.len() {
        acc
    } else {
        roots_from(
            refs_from(refs_from(acc, instances[k].stack, 0), instances[k].locals, 0),
            instances,
            k + 1,
        )
    }
}

/// What the program can reach at once.
pub open spec fn roots(instances: Seq<InstanceView>) -> Seq<HeapRef> {
    roots_from(Seq::empty(), instances, 0)
}

/// The machine once unreachable objects have been freed.
pub open spec fn tidied(m: VmView) -> VmView {
    VmView { heap: collected(m.heap, roots(m.instances)), ..m }
}

/// The machine after an instruction with the given effect. `tidy` says whether
/// unreachable objects were freed where that is possible.
pub open spec fn apply(m: VmView, e: Effect, next: usize, tidy: bool) -> VmView {
    let r = m.runs.last();
    let m1 = VmView {
        heap: e.heap,
        instances: m.instances.update(r.instance as int, e.inst),
        ..m
    };
    let on = RunView { pc: next, ..r };
    match e.flow {
        FlowView::Next => with_run(m1, on),
        FlowView::Settle => if tidy && r.instance == 0 {
            tidied(with_run(m1, on))
        } else {
            with_run(m1, on)
        },
        FlowView::Goto(target) => with_run(m1, RunView { pc: target, ..r }),
        FlowView::Call { receiver, target } => with_run(
            m1,
            RunView {
                pc: target,
                receiver: Some(receiver),
                calls: r.calls.push((next, r.receiver)),
                ..r
            },
        ),
        FlowView::Return => if r.calls.len() > 0 {
            let (back, receiver) = r.calls.last();
            with_run(m1, RunView { pc: back, receiver, calls: r.calls.drop_last(), ..r })
        } else if r.terminal {
            finish(m1)
        } else {
            fail(m1, ErrorView::Runtime("return outside method"@))
        },
        FlowView::Fail(x) => fail(m1, x),
        FlowView::Ask(request, pending) => VmView {
            waiting: Some((request, pending)),
            ..with_run(m1, on)
        },
        FlowView::Load(artifact) => {
            let m2 = with_run(m1, on);
            VmView {
                instances: m2.instances.push(module_instance(e.inst)),
                runs: m2.runs.push(
                    RunView {
                        instance: m2.instances.len() as usize,
                        code: *artifact.code,
                        pc: 0,
                        terminal: false,
                        receiver: None,
                        calls: Seq::empty(),
                        after: AfterView::Load(artifact),
                        failure: None,
                    },
                ),
                ..m2
            }
        },
        FlowView::Enter { instance, code, entry } => if instance >= m1.instances.len() {
            fail(m1, ErrorView::Runtime("loaded module is missing"@))
        } else {
            let m2 = with_run(m1, on);
            VmView {
                runs: m2.runs.push(
                    RunView {
                        instance,
                        code,
                        pc: entry,
                        terminal: true,
                        receiver: None,
                        calls: Seq::empty(),
                        after: AfterView::Resume,
                        failure: None,
                    },
                ),
                ..m2
            }
        },
    }
}

pub(crate) proof fn lemma_fail_heap(m: VmView, e: ErrorView)
    ensures
        fail(m, e).heap == m.heap,
    decreases m.runs.len(),
{
    if m.runs.len() > 0 {
        let r = m.runs.last();
        let first = match r.failure {
            Some(x) => x,
            None => e,
        };
        lemma_fail_heap(
            VmView {
                instances: if r.after is Load {
                    m.instances.take(r.instance as int)
                } else {
                    m.instances
                },
                runs: m.runs.drop_last(),
                ..m
            },
            first,
        );
    }
}

pub(crate) proof fn lemma_finish_heap(m: VmView)
    ensures
        finish(m).heap == m.heap,
{
    if let Some(e) = m.runs.last().failure {
        lemma_fail_heap(m, e);
    }
}

/// Where nothing is freed, an instruction leaves the heap of its effect.
pub(crate) proof fn lemma_apply_heap(m: VmView, e: Effect, next: usize)
    ensures
        apply(m, e, next, false).heap == e.heap,
{
    let m1 = VmView {
        heap: e.heap,
        instances: m.instances.update(m.runs.last().instance as int, e.inst),
        ..m
    };
    lemma_finish_heap(m1);
    lemma_fail_heap(m1, ErrorView::Runtime("return outside method"@));
    lemma_fail_heap(m1, ErrorView::Runtime("loaded module is missing"@));
    if let FlowView::Fail(x) = e.flow {
        lemma_fail_heap(m1, x);
    }
}

/// Whether there is an instruction to carry out.
pub open spec fn running(m: VmView) -> bool {
    m.runs.len() > 0 && m.waiting is None
}

/// The machine after one instruction.
pub open spec fn step(m: VmView, tidy: bool) -> VmView {
    let r = m.runs.last();
    if r.pc >= r.code.words.len() {
        finish(m)
    } else {
        match decoded_op(r.code, r.pc as int) {
            Err(e) => fail(m, e),
            Ok(op) => apply(
                m,
                effect(m.heap, m.instances, m.instances[r.instance as int], r.receiver, op),
                r.pc.wrapping_add(4),
                tidy,
            ),
        }
    }
}

/// Whether the program is where unreachable objects can be freed after an
/// instruction: it may have put an object into the heap, and no module runs.
pub open spec fn settles(m: VmView) -> bool {
    let r = m.runs.last();
    running(m) && r.instance == 0 && r.pc < r.code.words.len() && match decoded_op(
        r.code,
        r.pc as int,
    ) {
        Err(_) => false,
        Ok(op) => effect(
            m.heap,
            m.instances,
            m.instances[r.instance as int],
            r.receiver,
            op,
        ).flow is Settle,
    }
}

/// Whether that is so after an answer.
pub open spec fn settles_with(m: VmView, answer: AnswerView) -> bool {
    let r = m.runs.last();
    m.waiting is Some && r.instance == 0 && answered(
        m.heap,
        m.instances[r.instance as int],
        m.waiting.unwrap().0,
        m.waiting.unwrap().1,
        answer,
    ).flow is Settle
}

/// Whether what a heap counts fits what was done: `full` is the heap that an
/// instruction has left. Unreachable objects are freed only where that is due,
/// and `wanted` says whether it is to be done then.
pub open spec fn heap_counted(
    before: Heap,
    full: Heap,
    after: Heap,
    wanted: bool,
    tidy: bool,
) -> bool {
    &&& grown(before, full)
    &&& tidy == (wanted && due(full))
    &&& if tidy {
        recounted(full, after)
    } else {
        after == full
    }
}

/// The same for some heap with the given objects.
pub open spec fn tallied(
    before: Heap,
    objects: HeapView,
    after: Heap,
    wanted: bool,
    tidy: bool,
) -> bool {
    exists|full: Heap| #[trigger]
        heap_counted(before, full, after, wanted, tidy) && full@ == objects
}

/// Whether what the heap counts fits a step: unreachable objects are freed
/// exactly where the instruction allows it and it is due.
pub open spec fn step_counted(m: VmView, before: Heap, after: Heap, tidy: bool) -> bool {
    tallied(before, step(m, false).heap, after, settles(m), tidy)
}

/// The same of an answer.
pub open spec fn answer_counted(
    m: VmView,
    answer: AnswerView,
    before: Heap,
    after: Heap,
    tidy: bool,
) -> bool {
    tallied(before, resumed(m, answer, false).heap, after, settles_with(m, answer), tidy)
}

/// Whether it fits every one of the steps. `heaps` are the heaps before the first
/// step and after each.
pub open spec fn steps_counted(m: VmView, tidy: Seq<bool>, heaps: Seq<Heap>) -> bool {
    &&& heaps.len() == tidy.len() + 1
    &&& forall|k: int|
        0 <= k < tidy.len() ==> #[trigger] step_counted(
            steps(m, tidy.take(k)),
            heaps[k],
            heaps[k + 1],
            tidy[k],
        )
}

/// The machine after instructions, one for each of the choices.
pub open spec fn steps(m: VmView, tidy: Seq<bool>) -> VmView
    decreases tidy.len(),
{
    if tidy.len() == 0 {
        m
    } else {
        step(steps(m, tidy.drop_last()), tidy.last())
    }
}

/// Whether every one of the steps finds an instruction to carry out.
pub open spec fn all_running(m: VmView, tidy: Seq<bool>) -> bool {
    forall|k: int| 0 <= k < tidy.len() ==> running(#[trigger] steps(m, tidy.take(k)))
}

/// The machine once the request that it waits for is answered.
pub open spec fn resumed(m: VmView, answer: AnswerView, tidy: bool) -> VmView {
    match m.waiting {
        None => m,
        Some((request, pending)) => {
            let r = m.runs.last();
            let m1 = VmView { waiting: None, ..m };
            apply(
                m1,
                answered(
                    m1.heap,
                    m1.instances[r.instance as int],
                    request,
                    pending,
                    answer,
                ),
                r.pc,
                tidy,
            )
        },
    }
}

/// Whether an answer fits the request that a machine waits for.
pub open spec fn acceptable(m: VmView, answer: AnswerView) -> bool {
    m.waiting is Some && answers(m.waiting.unwrap().0, answer)
}

/// The machine with code to run from a position on.
pub open spec fn started(m: VmView, code: CodeView, pc: usize, terminal: bool) -> VmView {
    VmView {
        runs: seq![
            RunView {
                instance: 0,
                code,
                pc,
                terminal,
                receiver: None,
                calls: Seq::empty(),
                after: AfterView::Finish,
                failure: None,
            },
        ],
        waiting: None,
        outcome: None,
        ..m
    }
}

} // verus!
