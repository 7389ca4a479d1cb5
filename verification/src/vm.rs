//! The machine that runs programs.
use vstd::prelude::*;
use std::rc::Rc;
use crate::code::{FlatBytecode, ModuleArtifact, group_code_views};
use crate::heap::{
    Heap, HeapObject, due, grown, least_size, lowest_free, object_count, recounted, with_object,
};
use crate::instance::{
    Answer, Instance, InstanceView, ModuleInstance, ModuleView, Pending, Request, new_instance,
    pushed, shown_lines,
};
use crate::instructions::{Flow, perform, take_answer};
use crate::ir::DecodedOp;
use crate::machine::{
    AfterView, RunView, VmView, acceptable, all_running, answer_counted, apply, fail, finish,
    heap_counted, lemma_apply_heap, lemma_fail_heap, lemma_finish_heap, loaded, machine_wf,
    new_machine, passed_on, refs_from, resumed, roots, roots_from, running, settles_with, step,
    step_counted, steps, steps_counted, tallied, tidied, with_run,
};
use crate::semantics::{Effect, answered, effect};
use crate::types::{Error, ErrorView, runtime_error};
use crate::value::{HeapRef, Value, ValueView};
use crate::views::{group_views, same, views};

verus! {

broadcast use {group_views, group_code_views};

/// What follows a run.
#[derive(Debug)]
pub enum After {
    Finish,
    Load(Rc<ModuleArtifact>),
    Resume,
}

impl View for After {
    type V = AfterView;

    open spec fn view(&self) -> AfterView {
        match *self {
            After::Finish => AfterView::Finish,
            After::Load(artifact) => AfterView::Load((*artifact)@),
            After::Resume => AfterView::Resume,
        }
    }
}

/// Code at work.
#[derive(Debug)]
pub struct Run {
    pub instance: usize,
    pub code: Rc<FlatBytecode>,
    pub pc: usize,
    pub terminal_return: bool,
    pub receiver: Option<usize>,
    pub calls: Vec<(usize, Option<usize>)>,
    pub after: After,
    pub failure: Option<Error>,
}

impl View for Run {
    type V = RunView;

    open spec fn view(&self) -> RunView {
        RunView {
            instance: self.instance,
            code: (*self.code)@,
            pc: self.pc,
            terminal: self.terminal_return,
            receiver: self.receiver,
            calls: self.calls@,
            after: self.after@,
            failure: match self.failure {
                Some(e) => Some(e@),
                None => None,
            },
        }
    }
}

/// A machine. What it needs from its surroundings it asks for.
#[derive(Debug)]
pub struct Vm {
    pub heap: Heap,
    /// The program, and the modules that it has loaded.
    pub instances: Vec<Instance>,
    pub runs: Vec<Run>,
    pub waiting: Option<(Request, Pending)>,
    pub outcome: Option<Result<(), Error>>,
}

impl View for Vm {
    type V = VmView;

    open spec fn view(&self) -> VmView {
        VmView {
            heap: self.heap@,
            instances: views(self.instances@),
            runs: views(self.runs@),
            waiting: match self.waiting {
                Some((request, pending)) => Some((request@, pending@)),
                None => None,
            },
            outcome: match self.outcome {
                Some(Ok(_)) => Some(Ok(())),
                Some(Err(e)) => Some(Err(e@)),
                None => None,
            },
        }
    }
}

impl Default for Vm {
    fn default() -> (r: Self)
        ensures
            r.wf(),
            r@ == new_machine(),
    {
        let mut instances: Vec<Instance> = Vec::new();
        instances.push(Instance::default());
        let r = Vm {
            heap: Heap::default(),
            instances,
            runs: Vec::new(),
            waiting: None,
            outcome: None,
        };
        assert(r@.instances =~= seq![new_instance()]);
        r
    }
}

fn add_refs(refs: &mut Vec<HeapRef>, values: &Vec<Value>)
    ensures
        final(refs)@ == refs_from(old(refs)@, views(values@), 0),
{
    let ghost start = refs@;
    let mut k: usize = 0;
    while k < values.len()
        invariant
            start == old(refs)@,
            k <= values@.len(),
            refs_from(start, views(values@), 0) == refs_from(refs@, views(values@), k as int),
        decreases values@.len() - k,
    {
        assert(views(values@)[k as int] == values@[k as int]@);
        if let Some(r) = Heap::heap_ref(&values[k]) {
            refs.push(r);
        }
        k += 1;
    }
}

impl Vm {
    pub open spec fn wf(self) -> bool {
        self.heap.wf() && machine_wf(self@)
    }

    fn roots(&self) -> (r: Vec<HeapRef>)
        ensures
            r@ == roots(self@.instances),
    {
        let mut refs: Vec<HeapRef> = Vec::new();
        let mut k: usize = 0;
        while k < self.instances.len()
            invariant
                k <= self.instances@.len(),
                roots(self@.instances) == roots_from(refs@, self@.instances, k as int),
            decreases self.instances@.len() - k,
        {
            assert(self@.instances[k as int] == self.instances@[k as int]@);
            add_refs(&mut refs, &self.instances[k].stack);
            add_refs(&mut refs, &self.instances[k].locals);
            k += 1;
        }
        refs
    }

    /// Frees every object that the program cannot reach. Returns how many.
    pub fn collect_garbage(&mut self) -> (reclaimed: usize)
        requires
            old(self).wf(),
        ensures
            final(self).wf(),
            same(final(self)@, tidied(old(self)@)),
            reclaimed == object_count(old(self)@.heap) - object_count(final(self)@.heap),
            final(self).heap.allocated_bytes <= old(self).heap.allocated_bytes,
            recounted(old(self).heap, final(self).heap),
    {
        let roots = self.roots();
        self.heap.collect(roots)
    }

    /// Puts an object into the heap.
    pub fn allocate(&mut self, object: HeapObject) -> (r: HeapRef)
        requires
            old(self).wf(),
        ensures
            final(self).wf(),
            same(
                final(self)@,
                VmView { heap: with_object(old(self)@.heap, object@), ..old(self)@ },
            ),
            r.0 == lowest_free(old(self)@.heap, 0),
            grown(old(self).heap, final(self).heap),
            final(self).heap.allocated_bytes >= old(self).heap.allocated_bytes + least_size(object@)
                || final(self).heap.allocated_bytes == usize::MAX,
    {
        self.heap.allocate(object)
    }

    /// Frees unreachable objects once enough has been allocated. How much that
    /// is depends on the allocator. Returns whether it was done.
    fn collect_if_needed(&mut self) -> (tidy: bool)
        requires
            old(self).wf(),
        ensures
            final(self).wf(),
            tidy == due(old(self).heap),
            !tidy ==> final(self).heap == old(self).heap,
            tidy ==> recounted(old(self).heap, final(self).heap),
            same(
                final(self)@,
                if tidy {
                    tidied(old(self)@)
                } else {
                    old(self)@
                },
            ),
    {
        if self.heap.should_collect() {
            let _reclaimed: usize = self.collect_garbage();
            true
        } else {
            false
        }
    }

    /// Passes a failure on: to the destructors of the last run, and then to what
    /// started the run.
    fn fail(&mut self, error: Error)
        requires
            old(self).wf(),
            old(self).waiting is None,
        ensures
            final(self).wf(),
            same(final(self)@, fail(old(self)@, error@)),
            final(self).heap == old(self).heap,
        decreases old(self)@.runs.len(),
    {
        let ghost before = *self;
        assert(self@.runs.len() == self.runs@.len());
        match self.runs.pop() {
            None => {
                assert(self.runs@ =~= before.runs@);
                self.outcome = Some(Err(error));
            },
            Some(run) => {
                let mut run = run;
                assert(self.runs@ =~= before.runs@.drop_last());
                assert(before@.runs.last() == run@);
                assert(before@.runs[before@.runs.len() - 1] == run@);
                let first: Error = match run.failure {
                    Some(x) => x,
                    None => error,
                };
                let at: usize = run.instance;
                assert(self@.instances[at as int] == self.instances@[at as int]@);
                let ghost inst = self.instances@[at as int]@;
                match self.instances[at].active_destructors.pop() {
                    Some(d) => {
                        run.failure = Some(first);
                        run.pc = d.target;
                        run.terminal_return = true;
                        run.receiver = Some(d.slot);
                        run.calls = Vec::new();
                        self.runs.push(run);
                        proof {
                            let changed = InstanceView {
                                destructors: inst.destructors.drop_last(),
                                ..inst
                            };
                            assert(self@.instances =~= before@.instances.update(
                                at as int,
                                changed,
                            ));
                            assert(run.calls@ =~= Seq::<(usize, Option<usize>)>::empty());
                            lemma_with_run(before@, self@, run@);
                        }
                    },
                    None => {
                        assert(self@.instances =~= before@.instances);
                        if let After::Load(_) = run.after {
                            let ghost kept = self.instances@;
                            self.instances.truncate(at);
                            assert(self@.instances =~= before@.instances.take(at as int));
                        }
                        assert(machine_wf(self@)) by {
                            let n = before@.runs.len() - 1;
                            if n > 0 {
                                assert(self@.runs[0] == before@.runs[0]);
                                assert(before@.runs[0].instance < before@.instances.len());
                                assert(run@.after is Load ==> before@.runs[0].instance
                                    < before@.runs[n].instance);
                            }
                            assert forall|k: int| 0 <= k < self@.runs.len() implies (
                            #[trigger] self@.runs[k]).instance < self@.instances.len() by {
                                assert(self@.runs[k] == before@.runs[k]);
                            }
                            assert forall|j: int, k: int|
                                #![trigger self@.runs[j], self@.runs[k]]
                                0 <= j < k < self@.runs.len() && self@.runs[k].after is Load implies self@.runs[j].instance
                                < self@.runs[k].instance by {
                                assert(self@.runs[k] == before@.runs[k]);
                                assert(self@.runs[j] == before@.runs[j]);
                            }
                        }
                        self.fail(first);
                    },
                }
            },
        }
    }
}

impl Vm {
    /// Hands what a module put out to its importer.
    fn pass_on(&mut self, child: usize, parent: usize)
        requires
            child < old(self)@.instances.len(),
            parent < old(self)@.instances.len(),
        ensures
            same(final(self)@, passed_on(old(self)@, child, parent)),
            final(self).heap == old(self).heap,
    {
        let ghost before = *self;
        assert(self@.instances.len() == self.instances@.len());
        assert(self@.instances[child as int] == self.instances@[child as int]@);
        let mut lines: Vec<String> = Vec::new();
        std::mem::swap(&mut lines, &mut self.instances[child].output);
        let ghost emptied = InstanceView {
            output: Seq::empty(),
            ..before@.instances[child as int]
        };
        assert(self@.instances =~= before@.instances.update(child as int, emptied));
        let ghost middle = *self;
        assert(middle@.instances[parent as int] == middle.instances@[parent as int]@);
        self.instances[parent].emit_lines(&lines);
        assert(self@.instances =~= middle@.instances.update(
            parent as int,
            shown_lines(
                middle@.instances[parent as int],
                before@.instances[child as int].output,
                0,
            ),
        ));
    }

    /// Makes a module that has run known to its importer.
    fn add_module(&mut self, artifact: Rc<ModuleArtifact>, child: usize, parent: usize)
        requires
            child < old(self)@.instances.len(),
            parent < old(self)@.instances.len(),
        ensures
            same(final(self)@, loaded(old(self)@, (*artifact)@, child, parent)),
            final(self).heap == old(self).heap,
    {
        let ghost before = *self;
        let id: String = artifact.id.clone();
        assert(self@.instances.len() == self.instances@.len());
        assert(self@.instances[parent as int] == self.instances@[parent as int]@);
        let _known: bool = self.instances[parent].modules.insert(
            id.clone(),
            ModuleInstance { artifact, instance: child },
        );
        proof {
            let i = before@.instances[parent as int];
            assert(self@.instances =~= before@.instances.update(
                parent as int,
                InstanceView {
                    modules: i.modules.insert(
                        id@,
                        ModuleView { artifact: (*artifact)@, instance: child },
                    ),
                    ..i
                },
            ));
        }
        self.pass_on(child, parent);
        let ghost shown = *self;
        assert(shown@.instances.len() == shown.instances@.len());
        assert(shown@.instances[parent as int] == shown.instances@[parent as int]@);
        self.instances[parent].push(Value::Module(id));
        assert(self@.instances =~= shown@.instances.update(
            parent as int,
            pushed(shown@.instances[parent as int], ValueView::Module(id@)),
        ));
    }

    /// Ends the last run.
    fn finish(&mut self)
        requires
            old(self).wf(),
            old(self).waiting is None,
            old(self)@.runs.len() > 0,
        ensures
            final(self).wf(),
            same(final(self)@, finish(old(self)@)),
            final(self).heap == old(self).heap,
    {
        let ghost before = *self;
        assert(self@.runs.len() == self.runs@.len());
        if let Some(run) = self.runs.pop() {
            let mut run = run;
            assert(self.runs@ =~= before.runs@.drop_last());
            assert(before@.runs.last() == run@);
            let mut failure: Option<Error> = None;
            std::mem::swap(&mut failure, &mut run.failure);
            if let Some(e) = failure {
                self.runs.push(run);
                proof {
                    lemma_with_run(before@, self@, run@);
                    lemma_first_failure(before@, self@, e@);
                }
                self.fail(e);
                return;
            }
            proof {
                lemma_without_run(before@, self@);
            }
            let left: usize = self.runs.len();
            assert(self@.runs.len() == left);
            if left == 0 {
                self.outcome = Some(Ok(()));
                return;
            }
            assert(self@.runs.last() == self.runs@[left - 1]@);
            assert(self@.runs[left - 1] == before@.runs[left - 1]);
            assert(before@.runs[left as int] == run@);
            let parent: usize = self.runs[left - 1].instance;
            match run.after {
                After::Finish => {},
                After::Resume => {
                    self.pass_on(run.instance, parent);
                },
                After::Load(artifact) => {
                    self.add_module(artifact, run.instance, parent);
                },
            }
        }
    }

    /// Goes on after an instruction that did not fail. Returns whether
    /// unreachable objects were freed.
    fn apply(&mut self, flow: Flow, next: usize) -> (tidy: bool)
        requires
            old(self).wf(),
            old(self).waiting is None,
            old(self)@.runs.len() > 0,
        ensures
            final(self).wf(),
            same(
                final(self)@,
                apply(
                    old(self)@,
                    Effect {
                        heap: old(self)@.heap,
                        inst: old(self)@.instances[old(self)@.runs.last().instance as int],
                        flow: flow@,
                    },
                    next,
                    tidy,
                ),
            ),
            tidy == (flow@ is Settle && old(self)@.runs.last().instance == 0 && due(
                old(self).heap,
            )),
            !tidy ==> final(self).heap == old(self).heap,
            tidy ==> recounted(old(self).heap, final(self).heap),
    {
        let ghost before = *self;
        assert(self@.runs.len() == self.runs@.len());
        let last: usize = self.runs.len() - 1;
        let ghost r = before@.runs.last();
        assert(r == self.runs@[last as int]@);
        assert(before@.runs[last as int] == r);
        assert(before@.instances.update(r.instance as int, before@.instances[r.instance as int])
            =~= before@.instances);
        match flow {
            Flow::Next => {
                self.runs[last].pc = next;
                proof {
                    lemma_on(before@, self@, RunView { pc: next, ..r });
                }
                false
            },
            Flow::Settle => {
                self.runs[last].pc = next;
                proof {
                    lemma_on(before@, self@, RunView { pc: next, ..r });
                }
                if self.runs[last].instance == 0 {
                    self.collect_if_needed()
                } else {
                    false
                }
            },
            Flow::Goto(target) => {
                self.runs[last].pc = target;
                proof {
                    lemma_on(before@, self@, RunView { pc: target, ..r });
                }
                false
            },
            Flow::Call { receiver, target } => {
                let previous: Option<usize> = self.runs[last].receiver;
                self.runs[last].calls.push((next, previous));
                self.runs[last].receiver = Some(receiver);
                self.runs[last].pc = target;
                proof {
                    let on = RunView {
                        pc: target,
                        receiver: Some(receiver),
                        calls: r.calls.push((next, r.receiver)),
                        ..r
                    };
                    assert(self@.runs =~= before@.runs.update(last as int, on));
                    lemma_on(before@, self@, on);
                }
                false
            },
            Flow::Return => {
                let popped: Option<(usize, Option<usize>)> = self.runs[last].calls.pop();
                match popped {
                    Some((back, receiver)) => {
                        self.runs[last].pc = back;
                        self.runs[last].receiver = receiver;
                        proof {
                            assert(self.runs@[last as int].calls@ =~= r.calls.drop_last());
                            let on = RunView {
                                pc: back,
                                receiver,
                                calls: r.calls.drop_last(),
                                ..r
                            };
                            assert(self@.runs =~= before@.runs.update(last as int, on));
                            lemma_on(before@, self@, on);
                        }
                        false
                    },
                    None => {
                        assert(self@.runs =~= before@.runs);
                        if self.runs[last].terminal_return {
                            self.finish();
                        } else {
                            self.fail(runtime_error("return outside method"));
                        }
                        false
                    },
                }
            },
            Flow::Ask(request, pending) => {
                self.runs[last].pc = next;
                proof {
                    lemma_on(before@, self@, RunView { pc: next, ..r });
                }
                self.waiting = Some((request, pending));
                false
            },
            Flow::Load(artifact) => {
                self.runs[last].pc = next;
                let ghost on = RunView { pc: next, ..r };
                proof {
                    lemma_on(before@, self@, on);
                }
                let ghost middle = *self;
                let at: usize = self.runs[last].instance;
                assert(self@.instances[at as int] == self.instances@[at as int]@);
                assert(self@.instances.len() == self.instances@.len());
                let child = self.instances[at].for_module();
                let index: usize = self.instances.len();
                self.instances.push(child);
                self.runs.push(
                    Run {
                        instance: index,
                        code: artifact.code.clone(),
                        pc: 0,
                        terminal_return: false,
                        receiver: None,
                        calls: Vec::new(),
                        after: After::Load(artifact),
                        failure: None,
                    },
                );
                proof {
                    assert(self.runs@.last().calls@ =~= Seq::<(usize, Option<usize>)>::empty());
                    lemma_new_run(middle@, self@, self.runs@.last()@);
                }
                false
            },
            Flow::Enter { instance, code, entry } => {
                assert(self@.instances.len() == self.instances@.len());
                if instance >= self.instances.len() {
                    self.fail(runtime_error("loaded module is missing"));
                    return false;
                }
                self.runs[last].pc = next;
                proof {
                    lemma_on(before@, self@, RunView { pc: next, ..r });
                }
                let ghost middle = *self;
                self.runs.push(
                    Run {
                        instance,
                        code,
                        pc: entry,
                        terminal_return: true,
                        receiver: None,
                        calls: Vec::new(),
                        after: After::Resume,
                        failure: None,
                    },
                );
                proof {
                    assert(self.runs@.last().calls@ =~= Seq::<(usize, Option<usize>)>::empty());
                    lemma_new_run(middle@, self@, self.runs@.last()@);
                }
                false
            },
        }
    }

    /// Whether there is an instruction to carry out.
    pub fn is_running(&self) -> (r: bool)
        ensures
            r == running(self@),
    {
        assert(self@.runs.len() == self.runs@.len());
        self.runs.len() > 0 && self.waiting.is_none()
    }

    /// Carries out one instruction, if there is one. Returns whether
    /// unreachable objects were freed, which is done once it is due.
    #[verifier::rlimit(40)]
    #[verifier::spinoff_prover]
    pub fn step(&mut self) -> (tidy: bool)
        requires
            old(self).wf(),
        ensures
            final(self).wf(),
            running(old(self)@) ==> step_counted(
                old(self)@,
                old(self).heap,
                final(self).heap,
                tidy,
            ),
            !running(old(self)@) ==> !tidy && final(self).heap == old(self).heap,
            same(
                final(self)@,
                if running(old(self)@) {
                    step(old(self)@, tidy)
                } else {
                    old(self)@
                },
            ),
    {
        if !self.is_running() {
            return false;
        }
        let ghost before = *self;
        assert(self@.runs.len() == self.runs@.len());
        let last: usize = self.runs.len() - 1;
        let ghost r = before@.runs.last();
        assert(r == self.runs@[last as int]@);
        assert(before@.runs[last as int] == r);
        let pc: usize = self.runs[last].pc;
        let code = self.runs[last].code.clone();
        let at: usize = self.runs[last].instance;
        let receiver: Option<usize> = self.runs[last].receiver;
        assert((*code)@.words == code.words@);
        if pc >= code.words.len() {
            proof {
                lemma_finish_heap(before@);
            }
            self.finish();
            assert(heap_counted(before.heap, before.heap, self.heap, false, false));
            return false;
        }
        match code.decode(pc) {
            Err(e) => {
                proof {
                    lemma_fail_heap(before@, e@);
                }
                self.fail(e);
                assert(heap_counted(before.heap, before.heap, self.heap, false, false));
                false
            },
            Ok((op, next)) => {
                proof {
                    lemma_apply_heap(
                        before@,
                        effect(
                            before@.heap,
                            before@.instances,
                            before@.instances[at as int],
                            receiver,
                            op@,
                        ),
                        next,
                    );
                }
                self.carry_out(op, next)
            },
        }
    }

    /// Carries out an instruction of the last run. Returns whether unreachable
    /// objects were freed.
    #[verifier::rlimit(40)]
    #[verifier::spinoff_prover]
    fn carry_out(&mut self, op: DecodedOp, next: usize) -> (tidy: bool)
        requires
            old(self).wf(),
            running(old(self)@),
        ensures
            final(self).wf(),
            ({
                let m = old(self)@;
                let r = m.runs.last();
                let e = effect(
                    m.heap,
                    m.instances,
                    m.instances[r.instance as int],
                    r.receiver,
                    op@,
                );
                let wanted = r.instance == 0 && e.flow is Settle;
                &&& same(final(self)@, apply(m, e, next, tidy))
                &&& tallied(old(self).heap, e.heap, final(self).heap, wanted, tidy)
            }),
    {
        let ghost before = *self;
        assert(self@.runs.len() == self.runs@.len());
        let last: usize = self.runs.len() - 1;
        let ghost r = before@.runs.last();
        assert(r == self.runs@[last as int]@);
        assert(before@.runs[last as int] == r);
        let at: usize = self.runs[last].instance;
        let receiver: Option<usize> = self.runs[last].receiver;
        assert(before@.instances[at as int] == before.instances@[at as int]@);
        let ghost e = effect(
            before@.heap,
            before@.instances,
            before@.instances[at as int],
            receiver,
            op@,
        );
        let result = perform(&mut self.heap, &mut self.instances, at, receiver, op);
        let ghost full = self.heap;
        proof {
            assert(before@.instances.update(at as int, self.instances@[at as int]@)[at as int]
                == self.instances@[at as int]@);
            lemma_effect(before@, self@, e);
        }
        match result {
            Err(x) => {
                self.fail(x);
                proof {
                    assert(heap_counted(before.heap, full, self.heap, false, false));
                    assert(tallied(before.heap, e.heap, self.heap, false, false));
                }
                false
            },
            Ok(flow) => {
                proof {
                    lemma_applied(before@, self@, e, next, true);
                    lemma_applied(before@, self@, e, next, false);
                }
                let ghost wanted = r.instance == 0 && e.flow is Settle;
                let tidy: bool = self.apply(flow, next);
                proof {
                    assert(heap_counted(before.heap, full, self.heap, wanted, tidy));
                    assert(tallied(before.heap, e.heap, self.heap, wanted, tidy));
                }
                tidy
            },
        }
    }

    /// Carries out up to `budget` instructions, until there is none or a
    /// request has to be answered.
    pub fn advance(&mut self, budget: usize)
        requires
            old(self).wf(),
        ensures
            final(self).wf(),
            exists|tidy: Seq<bool>, heaps: Seq<Heap>|
                {
                    &&& tidy.len() <= budget
                    &&& same(final(self)@, steps(old(self)@, tidy))
                    &&& all_running(old(self)@, tidy)
                    &&& #[trigger] steps_counted(old(self)@, tidy, heaps)
                    &&& heaps[0] == old(self).heap
                    &&& heaps.last() == final(self).heap
                    &&& tidy.len() == budget || !running(final(self)@)
                },
    {
        let ghost start = *self;
        let ghost mut tidy: Seq<bool> = Seq::empty();
        let ghost mut heaps: Seq<Heap> = seq![self.heap];
        let mut left: usize = budget;
        assert(same(self@, steps(start@, tidy)));
        while left > 0 && self.is_running()
            invariant
                start == *old(self),
                self.wf(),
                left <= budget,
                tidy.len() == budget - left,
                same(self@, steps(start@, tidy)),
                all_running(start@, tidy),
                steps_counted(start@, tidy, heaps),
                heaps[0] == start.heap,
                heaps.last() == self.heap,
            decreases left,
        {
            let ghost before = tidy;
            let ghost earlier = heaps;
            let freed: bool = self.step();
            proof {
                tidy = tidy.push(freed);
                heaps = heaps.push(self.heap);
                assert(tidy.drop_last() =~= before);
                assert forall|k: int| 0 <= k < tidy.len() implies #[trigger] step_counted(
                    steps(start@, tidy.take(k)),
                    heaps[k],
                    heaps[k + 1],
                    tidy[k],
                ) by {
                    if k < before.len() {
                        assert(heaps[k] == earlier[k] && heaps[k + 1] == earlier[k + 1]);
                        assert(tidy.take(k) =~= before.take(k));
                        assert(step_counted(
                            steps(start@, before.take(k)),
                            earlier[k],
                            earlier[k + 1],
                            before[k],
                        ));
                    } else {
                        assert(tidy.take(k) =~= before);
                    }
                }
                assert forall|k: int| 0 <= k < tidy.len() implies running(
                    #[trigger] steps(start@, tidy.take(k)),
                ) by {
                    if k < before.len() {
                        assert(tidy.take(k) =~= before.take(k));
                    } else {
                        assert(tidy.take(k) =~= before);
                    }
                }
            }
            left -= 1;
        }
        assert(steps_counted(start@, tidy, heaps));
    }

    /// The request that has to be answered.
    pub fn request(&self) -> (r: Option<&Request>)
        ensures
            match r {
                Some(request) => self@.waiting is Some && self@.waiting.unwrap().0 == request@,
                None => self@.waiting is None,
            },
    {
        match &self.waiting {
            Some((request, _)) => Some(request),
            None => None,
        }
    }

    /// Goes on with the answer to the request, where it is an answer to it.
    pub fn resume(&mut self, answer: Answer) -> (accepted: bool)
        requires
            old(self).wf(),
        ensures
            final(self).wf(),
            accepted == acceptable(old(self)@, answer@),
            accepted ==> exists|tidy: bool|
                same(final(self)@, #[trigger] resumed(old(self)@, answer@, tidy)) && answer_counted(
                    old(self)@,
                    answer@,
                    old(self).heap,
                    final(self).heap,
                    tidy,
                ),
            !accepted ==> same(final(self)@, old(self)@) && final(self).heap == old(self).heap,
    {
        let ghost before = *self;
        match &self.waiting {
            None => {
                return false;
            },
            Some((request, _)) => {
                if !request.accepts(&answer) {
                    return false;
                }
            },
        }
        let mut waiting: Option<(Request, Pending)> = None;
        std::mem::swap(&mut waiting, &mut self.waiting);
        if let Some((request, pending)) = waiting {
            let ghost idle = *self;
            assert(self@.runs.len() == self.runs@.len());
            let last: usize = self.runs.len() - 1;
            let ghost r = idle@.runs.last();
            assert(r == self.runs@[last as int]@);
            assert(idle@.runs[last as int] == r);
            let next: usize = self.runs[last].pc;
            let at: usize = self.runs[last].instance;
            assert(idle@.instances[at as int] == idle.instances@[at as int]@);
            let ghost e = answered(
                idle@.heap,
                idle@.instances[at as int],
                request@,
                pending@,
                answer@,
            );
            let result = take_answer(
                &mut self.heap,
                &mut self.instances[at],
                &request,
                pending,
                answer,
            );
            let ghost full = self.heap;
            proof {
                assert(views(self.instances@) =~= idle@.instances.update(
                    at as int,
                    self.instances@[at as int]@,
                ));
                lemma_effect(idle@, self@, e);
            }
            proof {
                lemma_apply_heap(idle@, e, next);
            }
            match result {
                Err(x) => {
                    self.fail(x);
                    assert(heap_counted(before.heap, full, self.heap, false, false));
                    assert(!(e.flow is Settle));
                    assert(tallied(before.heap, e.heap, self.heap, false, false));
                    assert(answer_counted(before@, answer@, before.heap, self.heap, false));
                    assert(same(self@, resumed(before@, answer@, false)));
                },
                Ok(flow) => {
                    proof {
                        lemma_applied(idle@, self@, e, next, true);
                        lemma_applied(idle@, self@, e, next, false);
                    }
                    let ghost wanted = settles_with(before@, answer@);
                    let tidy: bool = self.apply(flow, next);
                    assert(heap_counted(before.heap, full, self.heap, wanted, tidy));
                    assert(tallied(before.heap, e.heap, self.heap, wanted, tidy));
                    assert(answer_counted(before@, answer@, before.heap, self.heap, tidy));
                    assert(same(self@, resumed(before@, answer@, tidy)));
                },
            }
        }
        true
    }
}

/// A machine whose heap and running instance an instruction has changed.
proof fn lemma_effect(before: VmView, after: VmView, e: Effect)
    requires
        machine_wf(before),
        before.runs.len() > 0,
        after == (VmView {
            heap: after.heap,
            instances: before.instances.update(
                before.runs.last().instance as int,
                after.instances[before.runs.last().instance as int],
            ),
            ..before
        }),
    ensures
        machine_wf(after),
{
}

/// Applying an effect is applying its flow to what it has left behind.
proof fn lemma_applied(before: VmView, after: VmView, e: Effect, next: usize, tidy: bool)
    requires
        machine_wf(before),
        before.runs.len() > 0,
        after == (VmView {
            heap: e.heap,
            instances: before.instances.update(before.runs.last().instance as int, e.inst),
            ..before
        }),
    ensures
        apply(before, e, next, tidy) == apply(
            after,
            Effect {
                heap: after.heap,
                inst: after.instances[before.runs.last().instance as int],
                flow: e.flow,
            },
            next,
            tidy,
        ),
{
    let at = before.runs.last().instance as int;
    assert(before.runs[before.runs.len() - 1].instance < before.instances.len());
    assert(after.instances.update(at, after.instances[at]) =~= after.instances);
}

proof fn lemma_on(before: VmView, after: VmView, r: RunView)
    requires
        machine_wf(before),
        before.waiting is None,
        before.runs.len() > 0,
        after.waiting is None,
        after.runs == before.runs.update(before.runs.len() - 1, r),
        after.instances == before.instances,
        r.instance == before.runs.last().instance,
        r.after == before.runs.last().after,
    ensures
        after.runs == before.runs.drop_last().push(r),
        machine_wf(after),
{
    assert(after.runs =~= before.runs.drop_last().push(r));
    lemma_with_run(before, after, r);
}

/// A run ended keeps the machine in order.
proof fn lemma_without_run(before: VmView, after: VmView)
    requires
        machine_wf(before),
        before.runs.len() > 0,
        after.waiting is None,
        after.runs == before.runs.drop_last(),
        after.instances == before.instances,
    ensures
        machine_wf(after),
{
    assert forall|k: int| 0 <= k < after.runs.len() implies #[trigger] after.runs[k]
        == before.runs[k] by {}
}

/// A run begun keeps the machine in order.
proof fn lemma_new_run(before: VmView, after: VmView, r: RunView)
    requires
        machine_wf(before),
        before.runs.len() > 0,
        after.waiting is None,
        after.runs == before.runs.push(r),
        after.instances.len() >= before.instances.len(),
        r.instance < after.instances.len(),
        r.after is Load ==> r.instance >= before.instances.len(),
    ensures
        machine_wf(after),
{
    let n = before.runs.len() as int;
    assert forall|k: int| 0 <= k < n implies #[trigger] after.runs[k] == before.runs[k] by {}
    assert(after.runs[n] == r);
}

/// A failure that is known already stays the one that counts.
proof fn lemma_first_failure(before: VmView, after: VmView, e: ErrorView)
    requires
        before.runs.len() > 0,
        before.runs.last().failure == Some(e),
        after == with_run(before, RunView { failure: None, ..before.runs.last() }),
    ensures
        fail(after, e) == fail(before, e),
{
    assert(after.runs.drop_last() =~= before.runs.drop_last());
}

/// Another state of the last run keeps the machine in order, as long as its
/// instance and what follows it stay.
proof fn lemma_with_run(before: VmView, after: VmView, r: RunView)
    requires
        machine_wf(before),
        before.runs.len() > 0,
        after.runs == before.runs.drop_last().push(r),
        after.instances.len() >= before.instances.len(),
        r.instance == before.runs.last().instance,
        r.after == before.runs.last().after,
    ensures
        after.instances.len() > 0,
        !(after.runs[0].after is Load),
        forall|k: int|
            0 <= k < after.runs.len() ==> (#[trigger] after.runs[k]).instance
                < after.instances.len(),
        forall|j: int, k: int|
            #![trigger after.runs[j], after.runs[k]]
            0 <= j < k < after.runs.len() && after.runs[k].after is Load ==> after.runs[j].instance
                < after.runs[k].instance,
{
    let n = before.runs.len() - 1;
    assert(after.runs[0] == if n == 0 {
        r
    } else {
        before.runs[0]
    });
    assert forall|k: int| 0 <= k < after.runs.len() implies (#[trigger] after.runs[k]).instance
        < after.instances.len() by {
        if k < n {
            assert(after.runs[k] == before.runs[k]);
        } else {
            assert(before.runs[n] == before.runs.last());
        }
    }
    assert forall|j: int, k: int|
        #![trigger after.runs[j], after.runs[k]]
        0 <= j < k < after.runs.len() && after.runs[k].after is Load implies after.runs[j].instance
        < after.runs[k].instance by {
        assert(after.runs[j] == before.runs[j]);
        if k < n {
            assert(after.runs[k] == before.runs[k]);
        } else {
            assert(before.runs[n] == before.runs.last());
        }
    }
}

} // verus!
