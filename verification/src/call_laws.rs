//! Laws of modules, host functions and tensors that come into being.
use vstd::prelude::*;
use crate::code::{ArtifactView, ExportView};
use crate::codegen::{State, coerced, find_export, import_structs, live_locals};
use crate::heap::{ObjectView, allocation_is_fresh, object_at};
use crate::instance::{
    AnswerView, InstanceView, ModuleView, RequestView, cut, dropped, pushed, shown, shown_lines,
};
use crate::ir::OpView;
use crate::machine::{VmView, loaded};
use crate::number_laws::{Site, left_by_one};
use crate::object_laws::{done_with, made_one};
use crate::ops::TensorInit;
use crate::run_laws::offsets_stay_inside;
use crate::scalar::le_value;
use crate::semantics::{
    FlowView, answered, arguments_fit, count_from, effect, item_in, made_tensor, offset_of,
    shape_of, tensor_bytes, volume, zeros,
};
use crate::types::{ErrorView, TypeView, compatible, integer_type, numeric_type, size_of_type};
use crate::value::{LayoutView, Value, ValueView, int_in, type_of};

verus! {

proof fn lemma_shown_lines(i: InstanceView, lines: Seq<Seq<char>>, k: int)
    requires
        0 <= k <= lines.len(),
    ensures
        ({
            let done = shown_lines(i, lines, k);
            &&& done.output == i.output + lines.skip(k)
            &&& done == (InstanceView { output: done.output, display: done.display, ..i })
        }),
    decreases lines.len() - k,
{
    if k < lines.len() {
        lemma_shown_lines(shown(i, lines[k], true), lines, k + 1);
        assert(i.output.push(lines[k]) + lines.skip(k + 1) =~= i.output + lines.skip(k));
    } else {
        assert(i.output + lines.skip(k) =~= i.output);
    }
}

/// Once a module is loaded, its importer has put out what the module put out,
/// behind what it had put out itself, knows the module, and has it on the stack.
/// The module has nothing left to put out.
pub proof fn loaded_modules_hand_their_output_on(
    m: VmView,
    artifact: ArtifactView,
    child: usize,
    parent: usize,
)
    requires
        child < m.instances.len(),
        parent < m.instances.len(),
        child != parent,
    ensures
        ({
            let done = loaded(m, artifact, child, parent);
            let i = done.instances[parent as int];
            let before = m.instances[parent as int];
            &&& i.output == before.output + m.instances[child as int].output
            &&& i.stack == before.stack.push(ValueView::Module(artifact.id))
            &&& i.modules.contains_key(artifact.id)
            &&& i.modules[artifact.id].instance == child
            &&& i.modules[artifact.id].artifact == artifact
            &&& i.locals == before.locals
            &&& done.instances[child as int].output.len() == 0
            &&& done.instances[child as int].locals == m.instances[child as int].locals
            &&& forall|k: int|
                0 <= k < m.instances.len() && k != child && k != parent
                    ==> #[trigger] done.instances[k] == m.instances[k]
        }),
{
    let i = m.instances[parent as int];
    let known = InstanceView {
        modules: i.modules.insert(artifact.id, ModuleView { artifact, instance: child }),
        ..i
    };
    let lines = m.instances[child as int].output;
    lemma_shown_lines(known, lines, 0);
    assert(lines.skip(0) =~= lines);
}

proof fn lemma_found(exports: Seq<(Seq<char>, ExportView)>, name: Seq<char>, i: int, k: int)
    requires
        0 <= i <= k < exports.len(),
        exports[k].0 == name,
        forall|j: int| 0 <= j < k ==> (#[trigger] exports[j]).0 != name,
    ensures
        find_export(exports, name, i) == Some(exports[k].1),
    decreases exports.len() - i,
{
    if i < k {
        assert(exports[i].0 != name);
        lemma_found(exports, name, i + 1, k);
    }
}

/// A value that a module exports is what stands in its slot in the module itself.
pub proof fn exported_values_are_those_of_the_module(
    s: Site,
    id: Seq<char>,
    name: Seq<char>,
    k: int,
)
    requires
        s.inst.modules.contains_key(id),
        s.inst.modules[id].instance < s.all.len(),
        ({
            let exports = s.inst.modules[id].artifact.exports;
            &&& 0 <= k < exports.len()
            &&& exports[k].0 == name
            &&& exports[k].1 is Value
            &&& exports[k].1->slot < s.all[s.inst.modules[id].instance as int].locals.len()
            &&& forall|j: int| 0 <= j < k ==> (#[trigger] exports[j]).0 != name
        }),
    ensures
        left_by_one(s, OpView::ModuleField(name), ValueView::Module(id)) == Some(
            s.all[s.inst.modules[id].instance as int].locals[
                s.inst.modules[id].artifact.exports[k].1->slot as int
            ],
        ),
{
    lemma_found(s.inst.modules[id].artifact.exports, name, 0, k);
    let full = pushed(s.inst, ValueView::Module(id));
    assert(dropped(full).stack =~= s.inst.stack);
    assert(dropped(full) == s.inst);
}

/// A call of a function that a module exports goes on in the module itself, at
/// the entry of the function.
pub proof fn exported_functions_run_in_their_module(
    s: Site,
    slot: usize,
    id: Seq<char>,
    name: Seq<char>,
    k: int,
)
    requires
        slot < s.inst.locals.len(),
        s.inst.locals[slot as int] == ValueView::Module(id),
        s.inst.modules.contains_key(id),
        ({
            let exports = s.inst.modules[id].artifact.exports;
            &&& 0 <= k < exports.len()
            &&& exports[k].0 == name
            &&& exports[k].1 is Function
            &&& forall|j: int| 0 <= j < k ==> (#[trigger] exports[j]).0 != name
        }),
    ensures
        ({
            let module = s.inst.modules[id];
            let e = effect(s.heap, s.all, s.inst, s.receiver, OpView::CallModule(slot, name));
            &&& e.heap == s.heap && e.inst == s.inst
            &&& e.flow == FlowView::Enter {
                instance: module.instance,
                code: *module.artifact.code,
                entry: module.artifact.exports[k].1->entry,
            }
        }),
{
    lemma_found(s.inst.modules[id].artifact.exports, name, 0, k);
}

/// A host function is asked with its arguments in the order in which they were
/// pushed. What it gives back, of the type that it has, stands in their place.
#[verifier::spinoff_prover]
#[verifier::rlimit(40)]
pub proof fn host_functions_are_asked_with_their_arguments(
    s: Site,
    name: Seq<char>,
    arguments: Seq<ValueView>,
    v: ValueView,
)
    requires
        s.inst.externs.contains_key(name),
        s.inst.externs[name].signature.arguments.len() == arguments.len(),
        s.inst.stack.len() + arguments.len() <= usize::MAX,
        forall|k: int|
            0 <= k < arguments.len() ==> compatible(
                type_of(#[trigger] arguments[k]),
                s.inst.externs[name].signature.arguments[k],
            ),
        !(s.inst.externs[name].function is C) || s.inst.callback_state,
        type_of(v) == s.inst.externs[name].signature.result,
    ensures
        ({
            let e = done_with(s, arguments, OpView::CallExternal(name, arguments.len() as usize));
            let (request, pending) = (e.flow->Ask_0, e.flow->Ask_1);
            let back = answered(e.heap, e.inst, request, pending, AnswerView::Host(Ok(v)));
            &&& e.flow is Ask
            &&& e.heap == s.heap
            &&& request == (RequestView::Host {
                name,
                function: s.inst.externs[name].function,
                arguments,
            })
            &&& back.flow is Next
            &&& back.heap == s.heap
            &&& back.inst == pushed(s.inst, v)
        }),
{
    let full = InstanceView { stack: s.inst.stack + arguments, ..s.inst };
    let base = s.inst.stack.len() as int;
    assert(full.stack.skip(base) =~= arguments);
    assert(full.stack.take(base) =~= s.inst.stack);
    assert(cut(full, base) == s.inst);
    assert(arguments_fit(arguments, s.inst.externs[name].signature.arguments));
}

/// A host function whose arguments are of other types is not asked.
pub proof fn wrong_arguments_are_not_handed_over(
    s: Site,
    name: Seq<char>,
    arguments: Seq<ValueView>,
    k: int,
)
    requires
        s.inst.externs.contains_key(name),
        s.inst.externs[name].signature.arguments.len() == arguments.len(),
        arguments.len() <= usize::MAX,
        0 <= k < arguments.len(),
        !compatible(type_of(arguments[k]), s.inst.externs[name].signature.arguments[k]),
    ensures
        done_with(s, arguments, OpView::CallExternal(name, arguments.len() as usize)).flow is Fail,
{
    let full = InstanceView { stack: s.inst.stack + arguments, ..s.inst };
    assert(full.stack.skip(s.inst.stack.len() as int) =~= arguments);
    assert(!arguments_fit(arguments, s.inst.externs[name].signature.arguments));
}

proof fn lemma_no_bytes(bytes: Seq<u8>)
    requires
        forall|k: int| 0 <= k < bytes.len() ==> #[trigger] bytes[k] == 0,
    ensures
        le_value(bytes) == 0,
    decreases bytes.len(),
{
    if bytes.len() > 0 {
        assert forall|k: int| 0 <= k < bytes.skip(1).len() implies #[trigger] bytes.skip(1)[k]
            == 0 by {
            assert(bytes[k + 1] == 0);
        }
        lemma_no_bytes(bytes.skip(1));
    }
}

/// A tensor of zeros has the shape that was asked for, and every item of it is 0.
#[verifier::spinoff_prover]
#[verifier::rlimit(40)]
pub proof fn zeros_are_zeros(
    s: Site,
    shape_value: ValueView,
    element: TypeView,
    rank: usize,
    shape: Seq<usize>,
    index: Seq<usize>,
)
    requires
        s.heap.len() < usize::MAX,
        shape_of(s.heap, shape_value) == Ok::<Seq<usize>, ErrorView>(shape),
        shape.len() == rank,
        integer_type(element),
        tensor_bytes(TensorInit::Zeros, element, shape) is Ok,
        volume(shape, 0) * size_of_type(element).unwrap() <= usize::MAX,
        count_from(1, shape, 0) matches Ok(n) && n == volume(shape, 0),
        offset_of(shape, index) is Ok,
    ensures
        ({
            let e = done_with(
                s,
                seq![shape_value],
                OpView::MakeTensor(TensorInit::Zeros, element, rank),
            );
            let v = e.inst.stack.last();
            &&& made_one(s, e)
            &&& v is Tensor
            &&& object_at(e.heap, v->Tensor_0) matches Ok(ObjectView::Tensor { shape: held, .. })
                && held == shape
            &&& item_in(e.heap, v, index, Some(element), rank) == Ok::<ValueView, ErrorView>(
                int_in(element, 0),
            )
        }),
{
    let full = InstanceView { stack: s.inst.stack + seq![shape_value], ..s.inst };
    assert(dropped(full).stack =~= s.inst.stack);
    assert(full.stack.last() == shape_value);
    let size = size_of_type(element).unwrap() as int;
    let total = (volume(shape, 0) * size) as usize;
    let bytes = zeros(total);
    let object = ObjectView::Tensor { bytes, element, shape };
    allocation_is_fresh(s.heap, object);
    offsets_stay_inside(shape, index);
    let k = offset_of(shape, index)->Ok_0 as int;
    assert(0 <= k * size && k * size + size <= volume(shape, 0) * size) by (nonlinear_arith)
        requires
            0 <= k < volume(shape, 0),
            size > 0,
    ;
    let cell = bytes.subrange(k * size, k * size + size);
    lemma_no_bytes(cell);
    let e = done_with(s, seq![shape_value], OpView::MakeTensor(TensorInit::Zeros, element, rank));
    assert(e == made_tensor(s.heap, s.inst, bytes, element, shape, rank));
}

/// The locals of the innermost blocks are destroyed in the reverse of the order in
/// which they came, those of inner blocks before those of outer ones.
pub proof fn inner_blocks_are_left_first(
    scopes: Seq<Seq<(usize, Seq<char>)>>,
    base: int,
    n: int,
)
    requires
        0 <= base < n <= scopes.len(),
    ensures
        live_locals(scopes, base, n) == scopes[n - 1].reverse() + live_locals(scopes, base, n - 1),
        live_locals(scopes, base, base).len() == 0,
        n - 1 == base ==> live_locals(scopes, base, n) == scopes[base].reverse(),
{
    if n - 1 == base {
        assert(scopes[n - 1].reverse() + live_locals(scopes, base, base) =~= scopes[base].reverse());
    }
}

/// A number that is stored under a declared type is brought to that type: where it
/// has another one a conversion is added, and nothing where it has it already.
pub proof fn stored_numbers_are_converted(c: State, ty: TypeView, found: TypeView)
    ensures
        ty == found ==> coerced(c, ty, found) == c,
        numeric_type(ty) && ty != found ==> coerced(c, ty, found).code == c.code.push(
            OpView::Cast(ty),
        ),
        !numeric_type(ty) ==> coerced(c, ty, found) == c,
{
}

/// The structs that a module exports are known under the module's name and their
/// own, with their fields; structs that were known stay.
pub proof fn exported_structs_are_known_by_both_names(
    c: State,
    binding: Seq<char>,
    exports: Seq<(Seq<char>, ExportView)>,
    i: int,
    k: int,
)
    requires
        0 <= i <= k < exports.len(),
        import_structs(c, binding, exports, i) is Ok,
        exports[k].1 is Struct,
    ensures
        ({
            let done = import_structs(c, binding, exports, i)->Ok_0;
            let alias = binding + "."@ + exports[k].0;
            &&& done.structs.contains_key(alias)
            &&& done.structs[alias].name == alias
            &&& done.structs[alias].fields == exports[k].1->Struct_0.fields
            &&& forall|n: Seq<char>| #[trigger]
                c.structs.contains_key(n) ==> done.structs.contains_key(n) && done.structs[n]
                    == c.structs[n]
        }),
    decreases exports.len() - i,
{
    let c1 = match exports[i].1 {
        ExportView::Struct(layout) => {
            let alias = binding + "."@ + exports[i].0;
            State {
                structs: c.structs.insert(alias, LayoutView { name: alias, ..layout }),
                ..c
            }
        },
        _ => c,
    };
    assert(import_structs(c1, binding, exports, i + 1) == import_structs(c, binding, exports, i));
    lemma_imports_stay(c1, binding, exports, i + 1);
    if i < k {
        exported_structs_are_known_by_both_names(c1, binding, exports, i + 1, k);
    } else {
        let alias = binding + "."@ + exports[k].0;
        assert(c1.structs.contains_key(alias));
    }
    assert forall|n: Seq<char>| #[trigger] c.structs.contains_key(n) implies c1.structs.contains_key(
        n,
    ) && c1.structs[n] == c.structs[n] by {}
}

proof fn lemma_imports_stay(
    c: State,
    binding: Seq<char>,
    exports: Seq<(Seq<char>, ExportView)>,
    i: int,
)
    requires
        0 <= i,
        import_structs(c, binding, exports, i) is Ok,
    ensures
        forall|n: Seq<char>| #[trigger]
            c.structs.contains_key(n) ==> import_structs(
                c,
                binding,
                exports,
                i,
            )->Ok_0.structs.contains_key(n) && import_structs(c, binding, exports, i)->Ok_0.structs[n]
                == c.structs[n],
    decreases exports.len() - i,
{
    if i < exports.len() {
        let c1 = match exports[i].1 {
            ExportView::Struct(layout) => {
                let alias = binding + "."@ + exports[i].0;
                State {
                    structs: c.structs.insert(alias, LayoutView { name: alias, ..layout }),
                    ..c
                }
            },
            _ => c,
        };
        assert(import_structs(c1, binding, exports, i + 1) == import_structs(
            c,
            binding,
            exports,
            i,
        ));
        lemma_imports_stay(c1, binding, exports, i + 1);
        assert forall|n: Seq<char>| #[trigger]
            c.structs.contains_key(n) implies c1.structs.contains_key(n) && c1.structs[n]
            == c.structs[n] by {}
    }
}

} // verus!
