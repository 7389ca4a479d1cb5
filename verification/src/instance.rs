//! A program or module at work: its stack, locals, output and what it knows.
use vstd::prelude::*;
use std::collections::VecDeque;
use std::rc::Rc;
use crate::code::{ArtifactView, ModuleArtifact, group_code_views};
use crate::codegen::SignatureView;
use crate::compiler::HostSignature;
use crate::format::{Piece, PieceView};
use crate::numeric::{FloatRequest, FloatView, float_result};
use crate::text::cat3;
use crate::types::{Error, ErrorView, Type, TypeView, runtime_error, type_error};
use crate::value::{Value, ValueView, type_of};
use crate::views::{Dict, Duplicate, group_views, same, views};

verus! {

broadcast use {group_views, group_code_views};

/// Who carries out a host function: a function that the host keeps under a
/// number, one with the C calling convention, or one of an extension.
#[derive(Clone, Copy, Debug, PartialEq, Eq, Structural)]
pub enum ExternalFunction {
    Rust(usize),
    C(usize),
    Native,
}

/// A host function that programs can call.
#[derive(Debug)]
pub struct RegisteredExternal {
    pub signature: HostSignature,
    pub function: ExternalFunction,
}

/// The mathematical model of a [`RegisteredExternal`].
pub struct RegisteredView {
    pub signature: SignatureView,
    pub function: ExternalFunction,
}

impl View for RegisteredExternal {
    type V = RegisteredView;

    open spec fn view(&self) -> RegisteredView {
        RegisteredView { signature: self.signature@, function: self.function }
    }
}

impl Duplicate for RegisteredExternal {
    fn duplicate(&self) -> (r: Self) {
        RegisteredExternal { signature: self.signature.duplicate(), function: self.function }
    }
}

/// A struct in a local whose destructor is still to run.
#[derive(Clone, Copy, Debug, PartialEq, Eq, Structural)]
pub struct ActiveDestructor {
    pub slot: usize,
    pub target: usize,
}

/// A module that has been loaded, and the instance that holds its state.
#[derive(Debug)]
pub struct ModuleInstance {
    pub artifact: Rc<ModuleArtifact>,
    pub instance: usize,
}

/// The mathematical model of a [`ModuleInstance`].
pub struct ModuleView {
    pub artifact: ArtifactView,
    pub instance: usize,
}

impl View for ModuleInstance {
    type V = ModuleView;

    open spec fn view(&self) -> ModuleView {
        ModuleView { artifact: (*self.artifact)@, instance: self.instance }
    }
}

/// The host functions of tensors and tokenizers that come with the runtime.
#[derive(Clone, Copy, Debug, PartialEq, Eq, Structural)]
pub struct CandleExtension;

impl View for CandleExtension {
    type V = CandleExtension;

    open spec fn view(&self) -> CandleExtension {
        *self
    }
}

/// The state of a program or of a module.
#[derive(Debug)]
pub struct Instance {
    pub stack: Vec<Value>,
    pub locals: Vec<Value>,
    pub output: Vec<String>,
    /// Whether output is shown at once.
    pub interactive: bool,
    /// What is to be shown next.
    pub display: String,
    pub input: VecDeque<String>,
    pub modules: Dict<String, ModuleInstance>,
    pub extern_functions: Dict<String, RegisteredExternal>,
    /// Whether functions with the C calling convention can be called.
    pub callback_state: bool,
    pub random_state: u64,
    pub active_destructors: Vec<ActiveDestructor>,
    /// The extensions whose functions are not registered yet.
    pub native_modules: Dict<String, CandleExtension>,
}

/// The mathematical model of an [`Instance`].
pub struct InstanceView {
    pub stack: Seq<ValueView>,
    pub locals: Seq<ValueView>,
    pub output: Seq<Seq<char>>,
    pub interactive: bool,
    pub display: Seq<char>,
    pub input: Seq<Seq<char>>,
    pub modules: Map<Seq<char>, ModuleView>,
    pub externs: Map<Seq<char>, RegisteredView>,
    pub callback_state: bool,
    pub random_state: u64,
    pub destructors: Seq<ActiveDestructor>,
    pub natives: Map<Seq<char>, CandleExtension>,
}

impl View for Instance {
    type V = InstanceView;

    open spec fn view(&self) -> InstanceView {
        InstanceView {
            stack: views(self.stack@),
            locals: views(self.locals@),
            output: views(self.output@),
            interactive: self.interactive,
            display: self.display@,
            input: views(self.input@),
            modules: self.modules@,
            externs: self.extern_functions@,
            callback_state: self.callback_state,
            random_state: self.random_state,
            destructors: self.active_destructors@,
            natives: self.native_modules@,
        }
    }
}

/// The state in which random numbers begin.
pub const RANDOM_SEED: u64 = 0x5EED_CAFE_D15C_A11E;

/// A new instance.
pub open spec fn new_instance() -> InstanceView {
    InstanceView {
        stack: Seq::empty(),
        locals: Seq::empty(),
        output: Seq::empty(),
        interactive: false,
        display: ""@,
        input: Seq::empty(),
        modules: Map::empty(),
        externs: Map::empty(),
        callback_state: false,
        random_state: RANDOM_SEED,
        destructors: Seq::empty(),
        natives: Map::empty().insert("candle"@, CandleExtension),
    }
}

/// A new instance for a module: it can call what its importer can call.
pub open spec fn module_instance(parent: InstanceView) -> InstanceView {
    InstanceView {
        externs: parent.externs,
        callback_state: parent.callback_state,
        ..new_instance()
    }
}

pub open spec fn pushed(i: InstanceView, v: ValueView) -> InstanceView {
    InstanceView { stack: i.stack.push(v), ..i }
}

pub open spec fn dropped(i: InstanceView) -> InstanceView {
    InstanceView { stack: i.stack.drop_last(), ..i }
}

/// The stack cut down to a length.
pub open spec fn cut(i: InstanceView, base: int) -> InstanceView {
    if 0 <= base <= i.stack.len() {
        InstanceView { stack: i.stack.take(base), ..i }
    } else {
        i
    }
}

pub open spec fn underflow() -> ErrorView {
    ErrorView::Runtime("stack underflow"@)
}

/// The instance after a text was put out, as a line or as it is.
pub open spec fn shown(i: InstanceView, text: Seq<char>, line: bool) -> InstanceView {
    let end = if line {
        "\n"@
    } else {
        ""@
    };
    InstanceView {
        output: i.output.push(text),
        display: if i.interactive {
            i.display + text + end
        } else {
            i.display
        },
        ..i
    }
}

/// Lines put out one after the other, from `k` on.
pub open spec fn shown_lines(i: InstanceView, lines: Seq<Seq<char>>, k: int) -> InstanceView
    decreases lines.len() - k,
{
    if k < 0 || k >= lines.len() {
        i
    } else {
        shown_lines(shown(i, lines[k], true), lines, k + 1)
    }
}

/// Makes a host function known. A name that is taken is refused, and the new
/// function stands in place of the old.
pub open spec fn registered(i: InstanceView, name: Seq<char>, external: RegisteredView) -> (
    InstanceView,
    Result<(), ErrorView>,
) {
    if name.len() == 0 {
        (i, Err(ErrorView::Type("external function name cannot be empty"@)))
    } else {
        (
            InstanceView { externs: i.externs.insert(name, external), ..i },
            if i.externs.contains_key(name) {
                Err(
                    ErrorView::Type("external function '"@ + name + "' is already registered"@),
                )
            } else {
                Ok(())
            },
        )
    }
}

impl Default for Instance {
    fn default() -> (r: Self)
        ensures
            r@ == new_instance(),
    {
        let mut native_modules: Dict<String, CandleExtension> = Dict::new();
        let _known: bool = native_modules.insert("candle".to_string(), CandleExtension);
        let r = Instance {
            stack: Vec::new(),
            locals: Vec::new(),
            output: Vec::new(),
            interactive: false,
            display: "".to_string(),
            input: VecDeque::new(),
            modules: Dict::new(),
            extern_functions: Dict::new(),
            callback_state: false,
            random_state: RANDOM_SEED,
            active_destructors: Vec::new(),
            native_modules,
        };
        assert(views(r.input@) =~= Seq::empty());
        r
    }
}

impl Instance {
    /// An instance for a module that this one imports.
    pub fn for_module(&self) -> (r: Self)
        ensures
            same(r@, module_instance(self@)),
    {
        Instance {
            extern_functions: self.extern_functions.copied(),
            callback_state: self.callback_state,
            ..Instance::default()
        }
    }

    pub fn push(&mut self, value: Value)
        ensures
            same(final(self)@, pushed(old(self)@, value@)),
    {
        self.stack.push(value);
    }

    pub fn pop(&mut self) -> (r: Result<Value, Error>)
        ensures
            match r {
                Ok(value) => {
                    &&& old(self)@.stack.len() > 0
                    &&& value@ == old(self)@.stack.last()
                    &&& same(final(self)@, dropped(old(self)@))
                },
                Err(e) => {
                    &&& old(self)@.stack.len() == 0
                    &&& e@ == underflow()
                    &&& same(final(self)@, old(self)@)
                },
            },
    {
        let ghost before = self.stack@;
        assert(self@.stack.len() == before.len());
        match self.stack.pop() {
            Some(value) => {
                assert(views(before).last() == value@);
                assert(self.stack@ =~= before.drop_last());
                Ok(value)
            },
            None => {
                assert(self.stack@ =~= before);
                Err(runtime_error("stack underflow"))
            },
        }
    }

    /// Cuts the stack down to a length.
    pub fn cut(&mut self, base: usize)
        ensures
            same(final(self)@, cut(old(self)@, base as int)),
    {
        let ghost before = self.stack@;
        assert(self@.stack.len() == before.len());
        if base <= self.stack.len() {
            self.stack.truncate(base);
            assert(self.stack@ =~= before.subrange(0, base as int));
            assert(self@.stack =~= views(before).take(base as int));
        }
    }

    /// Puts a text out, as a line or as it is.
    pub fn show(&mut self, text: String, line: bool)
        ensures
            same(final(self)@, shown(old(self)@, text@, line)),
    {
        if self.interactive {
            self.display = cat3(
                self.display.as_str(),
                text.as_str(),
                if line {
                    "\n"
                } else {
                    ""
                },
            );
        }
        self.output.push(text);
    }

    /// Puts a line out.
    pub fn emit(&mut self, s: String)
        ensures
            same(final(self)@, shown(old(self)@, s@, true)),
    {
        self.show(s, true);
    }

    /// Puts lines out one after the other.
    pub fn emit_lines(&mut self, lines: &Vec<String>)
        ensures
            same(final(self)@, shown_lines(old(self)@, views(lines@), 0)),
    {
        let ghost start = *self;
        let mut k: usize = 0;
        while k < lines.len()
            invariant
                start == *old(self),
                k <= lines@.len(),
                same(
                    shown_lines(start@, views(lines@), 0),
                    shown_lines(self@, views(lines@), k as int),
                ),
            decreases lines@.len() - k,
        {
            assert(views(lines@)[k as int] == lines@[k as int]@);
            self.emit(lines[k].clone());
            k += 1;
        }
    }

    pub fn register_external(
        &mut self,
        name: String,
        signature: HostSignature,
        function: ExternalFunction,
    ) -> (r: Result<(), Error>)
        ensures
            match r {
                Ok(_) => same(
                    registered(
                        old(self)@,
                        name@,
                        RegisteredView { signature: signature@, function },
                    ),
                    (final(self)@, Ok::<(), ErrorView>(())),
                ),
                Err(e) => same(
                    registered(
                        old(self)@,
                        name@,
                        RegisteredView { signature: signature@, function },
                    ),
                    (final(self)@, Err::<(), ErrorView>(e@)),
                ),
            },
    {
        if name.as_str().is_empty() {
            return Err(type_error("external function name cannot be empty"));
        }
        let known: bool = self.extern_functions.insert(
            name.clone(),
            RegisteredExternal { signature, function },
        );
        if known {
            return Err(
                Error::Type(
                    cat3("external function '", name.as_str(), "' is already registered"),
                ),
            );
        }
        Ok(())
    }

    /// Adds a line to be read before any other input is asked for.
    pub fn push_input(&mut self, data: String)
        ensures
            same(
                final(self)@,
                InstanceView { input: old(self)@.input.push(data@), ..old(self)@ },
            ),
    {
        let ghost before = self.input@;
        self.input.push_back(data);
        assert(self.input@ =~= before.push(data));
    }
}

/// What the machine asks of its surroundings.
#[derive(Debug)]
pub enum Request {
    /// A floating-point computation.
    Float(FloatRequest),
    /// The digits of floats.
    Texts(Vec<Value>),
    /// A line of input.
    Line,
    /// A call of a host function.
    Host { name: String, function: ExternalFunction, arguments: Vec<Value> },
    /// Floats of a type: each number is a count of steps of `2^-53` above zero.
    Units { draws: Vec<u64>, element: Type },
}

/// The mathematical model of a [`Request`].
pub enum RequestView {
    Float(FloatView),
    Texts(Seq<ValueView>),
    Line,
    Host { name: Seq<char>, function: ExternalFunction, arguments: Seq<ValueView> },
    Units { draws: Seq<u64>, element: TypeView },
}

impl View for Request {
    type V = RequestView;

    open spec fn view(&self) -> RequestView {
        match *self {
            Request::Float(f) => RequestView::Float(f@),
            Request::Texts(values) => RequestView::Texts(views(values@)),
            Request::Line => RequestView::Line,
            Request::Host { name, function, arguments } => RequestView::Host {
                name: name@,
                function,
                arguments: views(arguments@),
            },
            Request::Units { draws, element } => RequestView::Units {
                draws: draws@,
                element: element@,
            },
        }
    }
}

/// What is done with the answer to a request.
#[derive(Debug)]
pub enum Pending {
    Push { settle: bool },
    Print { pieces: Vec<Piece>, line: bool },
    Read { ty: Type },
    Host { name: String, result: Type, base: usize },
    Return { base: usize },
    Tensor { element: Type, shape: Vec<usize>, rank: usize },
}

/// The mathematical model of a [`Pending`].
pub enum PendingView {
    Push { settle: bool },
    Print { pieces: Seq<PieceView>, line: bool },
    Read { ty: TypeView },
    Host { name: Seq<char>, result: TypeView, base: usize },
    Return { base: usize },
    Tensor { element: TypeView, shape: Seq<usize>, rank: usize },
}

impl View for Pending {
    type V = PendingView;

    open spec fn view(&self) -> PendingView {
        match *self {
            Pending::Push { settle } => PendingView::Push { settle },
            Pending::Print { pieces, line } => PendingView::Print { pieces: views(pieces@), line },
            Pending::Read { ty } => PendingView::Read { ty: ty@ },
            Pending::Host { name, result, base } => PendingView::Host {
                name: name@,
                result: result@,
                base,
            },
            Pending::Return { base } => PendingView::Return { base },
            Pending::Tensor { element, shape, rank } => PendingView::Tensor {
                element: element@,
                shape: shape@,
                rank,
            },
        }
    }
}

/// An answer to a request.
#[derive(Debug)]
pub enum Answer {
    /// The result of a computation.
    Value(Value),
    /// A text that is no number.
    Refused,
    Texts(Vec<String>),
    Line(String),
    /// There is no more input.
    End,
    /// Input could not be read.
    Unreadable(String),
    /// What a host function returned.
    Host(Result<Value, Error>),
    /// The status of a C function, and the results that it pushed.
    C { status: i32, results: Vec<Value> },
    Units(Vec<Value>),
}

/// The mathematical model of an [`Answer`].
pub enum AnswerView {
    Value(ValueView),
    Refused,
    Texts(Seq<Seq<char>>),
    Line(Seq<char>),
    End,
    Unreadable(Seq<char>),
    Host(Result<ValueView, ErrorView>),
    C { status: i32, results: Seq<ValueView> },
    Units(Seq<ValueView>),
}

impl View for Answer {
    type V = AnswerView;

    open spec fn view(&self) -> AnswerView {
        match *self {
            Answer::Value(v) => AnswerView::Value(v@),
            Answer::Refused => AnswerView::Refused,
            Answer::Texts(texts) => AnswerView::Texts(views(texts@)),
            Answer::Line(line) => AnswerView::Line(line@),
            Answer::End => AnswerView::End,
            Answer::Unreadable(reason) => AnswerView::Unreadable(reason@),
            Answer::Host(result) => AnswerView::Host(
                match result {
                    Ok(v) => Ok(v@),
                    Err(e) => Err(e@),
                },
            ),
            Answer::C { status, results } => AnswerView::C { status, results: views(results@) },
            Answer::Units(values) => AnswerView::Units(views(values@)),
        }
    }
}

pub open spec fn all_of_type(values: Seq<ValueView>, t: TypeView) -> bool {
    forall|k: int| 0 <= k < values.len() ==> type_of(#[trigger] values[k]) == t
}

/// Whether an answer is of the kind that a request asks for.
pub open spec fn answers(request: RequestView, answer: AnswerView) -> bool {
    match request {
        RequestView::Float(f) => match answer {
            AnswerView::Value(v) => type_of(v) == float_result(f),
            AnswerView::Refused => f is Parse,
            _ => false,
        },
        RequestView::Texts(values) => match answer {
            AnswerView::Texts(texts) => texts.len() == values.len(),
            _ => false,
        },
        RequestView::Line => answer is Line || answer is End || answer is Unreadable,
        RequestView::Host { function, .. } => if function is C {
            answer is C
        } else {
            answer is Host
        },
        RequestView::Units { draws, element } => match answer {
            AnswerView::Units(values) => values.len() == draws.len() && all_of_type(
                values,
                element,
            ),
            _ => false,
        },
    }
}

fn values_of_type(values: &Vec<Value>, ty: &Type) -> (r: bool)
    ensures
        r == all_of_type(views(values@), ty@),
{
    let mut k: usize = 0;
    while k < values.len()
        invariant
            k <= values@.len(),
            forall|j: int| 0 <= j < k ==> type_of(#[trigger] views(values@)[j]) == ty@,
        decreases values@.len() - k,
    {
        assert(views(values@)[k as int] == values@[k as int]@);
        let found = values[k].ty();
        if !found.same(ty) {
            return false;
        }
        k += 1;
    }
    true
}

impl Request {
    /// Whether an answer is of the kind that is asked for.
    pub fn accepts(&self, answer: &Answer) -> (r: bool)
        ensures
            r == answers(self@, answer@),
    {
        match self {
            Request::Float(f) => match answer {
                Answer::Value(value) => {
                    let found = value.ty();
                    found.same(f.result_type())
                },
                Answer::Refused => matches!(f, FloatRequest::Parse { .. }),
                _ => false,
            },
            Request::Texts(values) => match answer {
                Answer::Texts(texts) => {
                    assert(views(texts@).len() == texts@.len());
                    assert(views(values@).len() == values@.len());
                    texts.len() == values.len()
                },
                _ => false,
            },
            Request::Line => matches!(answer, Answer::Line(_) | Answer::End | Answer::Unreadable(_)),
            Request::Host { function, .. } => match function {
                ExternalFunction::C(_) => matches!(answer, Answer::C { .. }),
                _ => matches!(answer, Answer::Host(_)),
            },
            Request::Units { draws, element } => match answer {
                Answer::Units(values) => {
                    assert(views(values@).len() == values@.len());
                    values.len() == draws.len() && values_of_type(values, element)
                },
                _ => false,
            },
        }
    }
}

} // verus!
