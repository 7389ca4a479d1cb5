//! The state behind the C interface.
use vstd::prelude::*;
use crate::codegen::SignatureView;
use crate::compiler::HostSignature;
use crate::instance::{
    Answer, AnswerView, ExternalFunction, InstanceView, RegisteredView, pushed, registered,
};
use crate::machine::{VmView, new_machine, with_instance};
use crate::program::{compiled_source, prepared, signatures_of};
use crate::types::{Type, TypeView, error_text};
use crate::value::{Value, ValueView};
use crate::views::{group_views, same, views};
use crate::vm::Vm;

verus! {

broadcast use group_views;

pub const ABI_VERSION: u32 = 3;

/// The types that a C function can be registered with.
#[derive(Clone, Copy, Debug, PartialEq, Eq, Structural)]
pub enum L0TypeId {
    I8,
    I16,
    I32,
    I64,
    U8,
    U16,
    U32,
    U64,
    F16,
    F32,
    F64,
    Bool,
    DArray,
    DTensor,
}

/// The types by their numbers.
pub open spec fn type_ids() -> Seq<L0TypeId> {
    seq![
        L0TypeId::I8,
        L0TypeId::I16,
        L0TypeId::I32,
        L0TypeId::I64,
        L0TypeId::U8,
        L0TypeId::U16,
        L0TypeId::U32,
        L0TypeId::U64,
        L0TypeId::F16,
        L0TypeId::F32,
        L0TypeId::F64,
        L0TypeId::Bool,
        L0TypeId::DArray,
        L0TypeId::DTensor,
    ]
}

/// The type of a number.
pub open spec fn type_id_of(value: i32) -> Option<L0TypeId> {
    if 0 <= value < type_ids().len() {
        Some(type_ids()[value as int])
    } else {
        None
    }
}

/// The type that a C function is registered with.
pub open spec fn l0_type(id: L0TypeId) -> TypeView {
    match id {
        L0TypeId::I8 => TypeView::I8,
        L0TypeId::I16 => TypeView::I16,
        L0TypeId::I32 => TypeView::I32,
        L0TypeId::I64 => TypeView::I64,
        L0TypeId::U8 => TypeView::U8,
        L0TypeId::U16 => TypeView::U16,
        L0TypeId::U32 => TypeView::U32,
        L0TypeId::U64 => TypeView::U64,
        L0TypeId::F16 => TypeView::F16,
        L0TypeId::F32 => TypeView::F32,
        L0TypeId::F64 => TypeView::F64,
        L0TypeId::Bool => TypeView::Bool,
        L0TypeId::DArray => TypeView::DArray,
        L0TypeId::DTensor => TypeView::DTensor,
    }
}

pub open spec fn scalar_type_of(value: i32) -> Option<TypeView> {
    match type_id_of(value) {
        Some(id) => Some(l0_type(id)),
        None => None,
    }
}

impl L0TypeId {
    /// The type of a number.
    pub fn from_raw(value: i32) -> (r: Option<Self>)
        ensures
            r == type_id_of(value),
    {
        match value {
            0 => Some(L0TypeId::I8),
            1 => Some(L0TypeId::I16),
            2 => Some(L0TypeId::I32),
            3 => Some(L0TypeId::I64),
            4 => Some(L0TypeId::U8),
            5 => Some(L0TypeId::U16),
            6 => Some(L0TypeId::U32),
            7 => Some(L0TypeId::U64),
            8 => Some(L0TypeId::F16),
            9 => Some(L0TypeId::F32),
            10 => Some(L0TypeId::F64),
            11 => Some(L0TypeId::Bool),
            12 => Some(L0TypeId::DArray),
            13 => Some(L0TypeId::DTensor),
            _ => None,
        }
    }

    pub fn to_l0_type(self) -> (r: Type)
        ensures
            r@ == l0_type(self),
    {
        match self {
            L0TypeId::I8 => Type::I8,
            L0TypeId::I16 => Type::I16,
            L0TypeId::I32 => Type::I32,
            L0TypeId::I64 => Type::I64,
            L0TypeId::U8 => Type::U8,
            L0TypeId::U16 => Type::U16,
            L0TypeId::U32 => Type::U32,
            L0TypeId::U64 => Type::U64,
            L0TypeId::F16 => Type::F16,
            L0TypeId::F32 => Type::F32,
            L0TypeId::F64 => Type::F64,
            L0TypeId::Bool => Type::Bool,
            L0TypeId::DArray => Type::DArray,
            L0TypeId::DTensor => Type::DTensor,
        }
    }
}

/// The type of a number.
pub fn c_scalar_type(value: i32) -> (r: Option<Type>)
    ensures
        match r {
            Some(ty) => scalar_type_of(value) == Some(ty@),
            None => scalar_type_of(value) is None,
        },
{
    match L0TypeId::from_raw(value) {
        Some(id) => Some(id.to_l0_type()),
        None => None,
    }
}

/// Whether every number stands for a type.
pub open spec fn all_types(raw: Seq<i32>) -> bool {
    forall|k: int| 0 <= k < raw.len() ==> scalar_type_of(#[trigger] raw[k]) is Some
}

/// The signature that numbers stand for.
pub open spec fn c_signature_of(raw_arguments: Seq<i32>, raw_result: i32) -> Option<SignatureView> {
    if scalar_type_of(raw_result) is Some && all_types(raw_arguments) {
        Some(
            SignatureView {
                arguments: Seq::new(
                    raw_arguments.len(),
                    |k: int| scalar_type_of(raw_arguments[k]).unwrap(),
                ),
                result: scalar_type_of(raw_result).unwrap(),
            },
        )
    } else {
        None
    }
}

/// The signature that numbers stand for.
pub fn c_signature(raw_arguments: &Vec<i32>, raw_result: i32) -> (r: Option<HostSignature>)
    ensures
        match r {
            Some(signature) => c_signature_of(raw_arguments@, raw_result) == Some(signature@),
            None => c_signature_of(raw_arguments@, raw_result) is None,
        },
{
    let result = match c_scalar_type(raw_result) {
        Some(result) => result,
        None => {
            return None;
        },
    };
    let mut arguments: Vec<Type> = Vec::new();
    let mut k: usize = 0;
    while k < raw_arguments.len()
        invariant
            k <= raw_arguments@.len(),
            arguments@.len() == k,
            forall|j: int|
                0 <= j < k ==> scalar_type_of(#[trigger] raw_arguments@[j]) == Some(
                    arguments@[j]@,
                ),
        decreases raw_arguments@.len() - k,
    {
        match c_scalar_type(raw_arguments[k]) {
            Some(ty) => {
                arguments.push(ty);
            },
            None => {
                assert(scalar_type_of(raw_arguments@[k as int]) is None);
                return None;
            },
        }
        k += 1;
    }
    assert(views(arguments@) =~= Seq::new(
        raw_arguments@.len(),
        |j: int| scalar_type_of(raw_arguments@[j]).unwrap(),
    ));
    Some(HostSignature { arguments, result })
}

/// A call of a C function: what it is given, and what it gives.
#[derive(Debug)]
pub struct FfiCall {
    pub arguments: Vec<Value>,
    pub results: Vec<Value>,
}

/// What the C interface works on.
#[derive(Debug)]
pub struct L0State {
    pub vm: Vm,
    pub ffi_call: Option<FfiCall>,
    pub is_executing: bool,
    pub last_error: Option<String>,
}

impl Default for L0State {
    fn default() -> (r: Self)
        ensures
            r.vm.wf(),
            same(r.vm@, new_machine()),
            r.ffi_call is None,
            !r.is_executing,
            r.last_error is None,
    {
        L0State { vm: Vm::default(), ffi_call: None, is_executing: false, last_error: None }
    }
}

impl L0State {
    /// What can be read by position: the arguments of the call at work, and
    /// outside of a call the stack.
    pub open spec fn readable(self) -> Seq<ValueView> {
        match self.ffi_call {
            Some(call) => views(call.arguments@),
            None => self.vm@.instances[0].stack,
        }
    }

    /// The value at a position.
    pub fn ffi_argument(&self, index: usize) -> (r: Option<&Value>)
        requires
            self.vm.wf(),
        ensures
            match r {
                Some(value) => index < self.readable().len() && value@
                    == self.readable()[index as int],
                None => index >= self.readable().len(),
            },
    {
        match &self.ffi_call {
            Some(call) => {
                assert(views(call.arguments@).len() == call.arguments@.len());
                if index < call.arguments.len() {
                    assert(views(call.arguments@)[index as int] == call.arguments@[index as int]@);
                    Some(&call.arguments[index])
                } else {
                    None
                }
            },
            None => {
                let stack = &self.vm.instances[0].stack;
                assert(self.vm@.instances[0] == self.vm.instances@[0]@);
                assert(views(stack@).len() == stack@.len());
                if index < stack.len() {
                    assert(views(stack@)[index as int] == stack@[index as int]@);
                    Some(&stack[index])
                } else {
                    None
                }
            },
        }
    }

    /// Adds a result of the call at work; outside of a call, pushes a value.
    pub fn ffi_push(&mut self, value: Value)
        requires
            old(self).vm.wf(),
        ensures
            final(self).vm.wf(),
            final(self).is_executing == old(self).is_executing,
            final(self).last_error == old(self).last_error,
            match old(self).ffi_call {
                Some(call) => {
                    &&& final(self).ffi_call is Some
                    &&& final(self).ffi_call.unwrap().arguments == call.arguments
                    &&& final(self).ffi_call.unwrap().results@ == call.results@.push(value)
                    &&& final(self).vm == old(self).vm
                },
                None => {
                    &&& final(self).ffi_call is None
                    &&& same(
                        final(self).vm@,
                        with_instance(
                            old(self).vm@,
                            0,
                            pushed(old(self).vm@.instances[0], value@),
                        ),
                    )
                },
            },
    {
        let mut call: Option<FfiCall> = None;
        std::mem::swap(&mut call, &mut self.ffi_call);
        match call {
            Some(mut call) => {
                call.results.push(value);
                self.ffi_call = Some(call);
            },
            None => {
                let ghost before = self.vm;
                assert(before@.instances[0] == before.instances@[0]@);
                self.vm.instances[0].push(value);
                assert(self.vm@.instances =~= before@.instances.update(
                    0,
                    self.vm.instances@[0]@,
                ));
            },
        }
    }

    /// Makes a C function known whose types are given by number. `function` is
    /// what the host knows it by.
    pub fn register_c_function(
        &mut self,
        name: String,
        function: usize,
        raw_arguments: &Vec<i32>,
        raw_result: i32,
    ) -> (r: bool)
        requires
            old(self).vm.wf(),
        ensures
            final(self).vm.wf(),
            match c_signature_of(raw_arguments@, raw_result) {
                None => !r && same(final(self).vm@, old(self).vm@),
                Some(signature) => {
                    let (i, result) = registered(
                        old(self).vm@.instances[0],
                        name@,
                        RegisteredView { signature, function: ExternalFunction::C(function) },
                    );
                    &&& same(final(self).vm@, with_instance(old(self).vm@, 0, i))
                    &&& r == (result is Ok)
                },
            },
    {
        match c_signature(raw_arguments, raw_result) {
            None => false,
            Some(signature) => self.vm.register_external(
                name,
                signature,
                ExternalFunction::C(function),
            ).is_ok(),
        }
    }

    /// Makes a C function known that takes and returns `i32` values.
    pub fn register_i32_function(
        &mut self,
        name: String,
        function: usize,
        argument_count: usize,
    ) -> (r: bool)
        requires
            old(self).vm.wf(),
        ensures
            final(self).vm.wf(),
            ({
                let (i, result) = registered(
                    old(self).vm@.instances[0],
                    name@,
                    RegisteredView {
                        signature: SignatureView {
                            arguments: Seq::new(argument_count as nat, |k: int| TypeView::I32),
                            result: TypeView::I32,
                        },
                        function: ExternalFunction::C(function),
                    },
                );
                &&& same(final(self).vm@, with_instance(old(self).vm@, 0, i))
                &&& r == (result is Ok)
            }),
    {
        self.vm.register_c_i32_function(name, argument_count, function).is_ok()
    }

    /// Begins to run a program. It is refused where another one runs, and where
    /// it cannot be compiled; the reason of the latter is kept.
    pub fn begin(&mut self, source: &str) -> (r: bool)
        requires
            old(self).vm.wf(),
        ensures
            final(self).vm.wf(),
            final(self).ffi_call == old(self).ffi_call,
            if old(self).is_executing {
                !r && *final(self) == *old(self)
            } else {
                match compiled_source(
                    source@,
                    None,
                    signatures_of(old(self).vm@.instances[0].externs),
                ) {
                    Ok(code) => {
                        &&& r
                        &&& final(self).is_executing
                        &&& final(self).last_error is None
                        &&& same(
                            final(self).vm@,
                            prepared(with_callbacks(old(self).vm@, true), code),
                        )
                    },
                    Err(e) => {
                        &&& !r
                        &&& !final(self).is_executing
                        &&& final(self).last_error is Some
                        &&& final(self).last_error.unwrap()@ == error_text(e)
                        &&& same(final(self).vm@, with_callbacks(old(self).vm@, false))
                    },
                }
            },
    {
        if self.is_executing {
            return false;
        }
        self.last_error = None;
        let ghost before = self.vm@;
        self.vm.set_callback_state(true);
        assert(self.vm@.instances[0].externs == before.instances[0].externs);
        match self.vm.execute(source) {
            Ok(_) => {
                self.is_executing = true;
                true
            },
            Err(e) => {
                self.vm.set_callback_state(false);
                assert(self.vm@.instances =~= with_callbacks(before, false).instances);
                self.last_error = Some(e.to_text());
                false
            },
        }
    }

    /// Ends the program that runs, once the machine has come to its end. It
    /// returns whether it succeeded; why it failed is kept.
    pub fn end(&mut self) -> (r: bool)
        requires
            old(self).vm.wf(),
            old(self).vm.outcome is Some,
        ensures
            final(self).vm.wf(),
            same(final(self).vm@, with_callbacks(old(self).vm@, false)),
            final(self).ffi_call == old(self).ffi_call,
            !final(self).is_executing,
            match old(self).vm@.outcome.unwrap() {
                Ok(_) => r && final(self).last_error == old(self).last_error,
                Err(e) => {
                    &&& !r
                    &&& final(self).last_error is Some
                    &&& final(self).last_error.unwrap()@ == error_text(e)
                },
            },
    {
        self.is_executing = false;
        self.vm.set_callback_state(false);
        match &self.vm.outcome {
            Some(Err(e)) => {
                self.last_error = Some(e.to_text());
                false
            },
            _ => true,
        }
    }

    /// Gives the program that runs up after a panic.
    pub fn give_up(&mut self)
        requires
            old(self).vm.wf(),
        ensures
            final(self).vm.wf(),
            same(final(self).vm@, with_callbacks(old(self).vm@, false)),
            final(self).ffi_call == old(self).ffi_call,
            !final(self).is_executing,
            final(self).last_error is Some,
            final(self).last_error.unwrap()@ == "panic prevented from crossing the C ABI boundary"@,
    {
        self.is_executing = false;
        self.vm.set_callback_state(false);
        self.last_error = Some("panic prevented from crossing the C ABI boundary".to_string());
    }

    /// Begins a call of a C function.
    pub fn begin_call(&mut self, arguments: Vec<Value>)
        ensures
            final(self).ffi_call is Some,
            final(self).ffi_call.unwrap().arguments == arguments,
            final(self).ffi_call.unwrap().results@ == Seq::<Value>::empty(),
            final(self).vm == old(self).vm,
            final(self).is_executing == old(self).is_executing,
            final(self).last_error == old(self).last_error,
    {
        self.ffi_call = Some(FfiCall { arguments, results: Vec::new() });
    }

    /// Ends the call of a C function: the answer to the machine.
    pub fn end_call(&mut self, status: i32) -> (r: Answer)
        requires
            old(self).ffi_call is Some,
        ensures
            r@ == (AnswerView::C {
                status,
                results: views(old(self).ffi_call.unwrap().results@),
            }),
            final(self).ffi_call is None,
            final(self).vm == old(self).vm,
            final(self).is_executing == old(self).is_executing,
            final(self).last_error == old(self).last_error,
    {
        let mut call: Option<FfiCall> = None;
        std::mem::swap(&mut call, &mut self.ffi_call);
        let results = match call {
            Some(call) => call.results,
            None => Vec::new(),
        };
        Answer::C { status, results }
    }
}

/// The machine, with C functions that can be called or not.
pub open spec fn with_callbacks(m: VmView, callback_state: bool) -> VmView {
    with_instance(m, 0, InstanceView { callback_state, ..m.instances[0] })
}

/// Every number below the number of types stands for a type, and no two for
/// the same.
pub proof fn type_numbers_differ(a: i32, b: i32)
    requires
        0 <= a < type_ids().len(),
        0 <= b < type_ids().len(),
        a != b,
    ensures
        scalar_type_of(a) is Some,
        scalar_type_of(a) != scalar_type_of(b),
{
}

} // verus!
