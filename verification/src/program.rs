//! From source text to a machine that is ready to run it.
use vstd::prelude::*;
use std::rc::Rc;
use crate::code::{CodeView, FlatBytecode, group_code_views};
use crate::codegen::{
    Context, FileView, SignatureView, compiled_program, empty_state, parsed_module,
};
use crate::compiler::{Compiler, HostSignature, ModuleFile};
use crate::instance::{ActiveDestructor, ExternalFunction, InstanceView, RegisteredView, registered};
use crate::ir::lowered;
use crate::lexer::{SpannedToken, Token, lex, lexed, token_wf, tokens_wf};
use crate::machine::{VmView, new_machine, started, with_instance};
use crate::parser::Parser;
use crate::types::{Error, ErrorView, Type, TypeView};
use crate::value::Value;
use crate::views::{
    Dict, Duplicate, distinct_keys, entries_map, group_views, lemma_entry, lemma_has_entry, same,
    views,
};
use crate::vm::{After, Run, Vm};

verus! {

broadcast use {group_views, group_code_views};

/// The types of the host functions that are known.
pub open spec fn signatures_of(
    externs: Map<Seq<char>,
    RegisteredView>,
) -> Map<Seq<char>, SignatureView> {
    Map::new(|name: Seq<char>| externs.contains_key(name), |name: Seq<char>| externs[name].signature)
}

/// What a program is compiled with.
pub open spec fn source_context(
    files: Option<Seq<(Seq<char>, FileView)>>,
    externs: Map<Seq<char>, SignatureView>,
    strings: Seq<Seq<char>>,
) -> Context {
    Context {
        rooted: files is Some,
        files: match files {
            Some(files) => files,
            None => Seq::empty(),
        },
        compiling: Seq::empty(),
        externs,
        strings,
    }
}

/// The code of a program. A program that comes from a file can import modules.
pub open spec fn compiled_source(
    source: Seq<char>,
    files: Option<Seq<(Seq<char>, FileView)>>,
    externs: Map<Seq<char>, SignatureView>,
) -> Result<CodeView, ErrorView> {
    match parsed_module(source) {
        Err(e) => Err(e),
        Ok((statements, strings)) => match compiled_program(
            source_context(files, externs, strings),
            empty_state(),
            statements,
        ) {
            Err(e) => Err(e),
            Ok(done) => Ok(lowered(done.code)),
        },
    }
}

/// The machine with its output cleared.
pub open spec fn without_output(m: VmView) -> VmView {
    with_instance(m, 0, InstanceView { output: Seq::empty(), ..m.instances[0] })
}

/// The machine with a program to run.
pub open spec fn prepared(m: VmView, code: CodeView) -> VmView {
    started(without_output(m), code, 0, false)
}

/// Compiles a program.
pub fn compile_source(
    source: &str,
    files: Option<Vec<(String, ModuleFile)>>,
    externs: Dict<String, HostSignature>,
) -> (r: Result<FlatBytecode, Error>)
    ensures
        match r {
            Ok(code) => same(
                compiled_source(
                    source@,
                    match files {
                        Some(files) => Some(views(files@)),
                        None => None,
                    },
                    externs@,
                ),
                Ok::<CodeView, ErrorView>(code@),
            ),
            Err(e) => same(
                compiled_source(
                    source@,
                    match files {
                        Some(files) => Some(views(files@)),
                        None => None,
                    },
                    externs@,
                ),
                Err::<CodeView, ErrorView>(e@),
            ),
        },
{
    let lexed = lex(source)?;
    let (program, strings) = Parser::new(lexed).into_program()?;
    match files {
        Some(files) => {
            let compiler = Compiler {
                rooted: true,
                files: Rc::new(files),
                extern_functions: Rc::new(externs),
                strings,
                ..Compiler::default()
            };
            assert(compiler.ctx() == source_context(Some(views(files@)), externs@, strings@));
            compiler.compile(program)
        },
        None => {
            let compiler = Compiler::with_extern_functions(externs).with_strings(strings);
            assert(compiler.ctx() == source_context(None, externs@, strings@));
            compiler.compile(program)
        },
    }
}

/// The paths of the modules that a text names, from token `k` on.
pub open spec fn required_from(
    acc: Seq<Seq<char>>,
    tokens: Seq<SpannedToken>,
    strings: Seq<Seq<char>>,
    k: int,
) -> Seq<Seq<char>>
    decreases tokens.len() - k,
{
    if k < 0 || k >= tokens.len() {
        acc
    } else if tokens[k].kind is Require && k + 2 < tokens.len() && tokens[k + 2].kind is StringLit {
        required_from(
            acc.push(strings[tokens[k + 2].kind->StringLit_0.0 as int]),
            tokens,
            strings,
            k + 1,
        )
    } else {
        required_from(acc, tokens, strings, k + 1)
    }
}

/// The paths of the modules that a text may import, in the order of the text.
pub fn required_paths(source: &str) -> (r: Result<Vec<String>, Error>)
    ensures
        match (r, lexed(source@)) {
            (Ok(paths), Ok((tokens, strings))) => views(paths@) == required_from(
                Seq::empty(),
                tokens,
                strings,
                0,
            ),
            (Err(e), Err(x)) => e@ == x,
            _ => false,
        },
{
    let lexed = lex(source)?;
    let tokens = lexed.tokens;
    let strings = lexed.strings;
    let mut paths: Vec<String> = Vec::new();
    let mut k: usize = 0;
    while k < tokens.len()
        invariant
            k <= tokens@.len(),
            tokens_wf(tokens@, strings@.len()),
            required_from(Seq::empty(), tokens@, strings@, 0) == required_from(
                views(paths@),
                tokens@,
                strings@,
                k as int,
            ),
        decreases tokens@.len() - k,
    {
        if matches!(tokens[k].kind, Token::Require) && tokens.len() - k > 2 {
            assert(token_wf(tokens@[k + 2].kind, strings@.len()));
            if let Token::StringLit(id) = &tokens[k + 2].kind {
                paths.push(strings.resolve(*id).to_string());
            }
        }
        k += 1;
    }
    Ok(paths)
}

impl Vm {
    /// The types of the host functions that the program can call.
    fn external_signatures(&self) -> (r: Dict<String, HostSignature>)
        requires
            self.wf(),
        ensures
            r@ == signatures_of(self@.instances[0].externs),
    {
        assert(self@.instances[0] == self.instances@[0]@);
        let list = self.instances[0].extern_functions.entries();
        let ghost externs = self@.instances[0].externs;
        let mut out: Dict<String, HostSignature> = Dict::new();
        let mut k: usize = 0;
        while k < list.len()
            invariant
                k <= list@.len(),
                distinct_keys(list@),
                entries_map(list@) == externs,
                forall|name: Seq<char>| #[trigger]
                    out@.contains_key(name) ==> externs.contains_key(name) && out@[name]
                        == externs[name].signature,
                forall|j: int| 0 <= j < k ==> out@.contains_key((#[trigger] list@[j]).0@),
            decreases list@.len() - k,
        {
            proof {
                lemma_entry(list@, k as int);
            }
            let _known: bool = out.insert(list[k].0.clone(), list[k].1.signature.duplicate());
            k += 1;
        }
        proof {
            assert forall|name: Seq<char>| externs.contains_key(name) implies #[trigger] out@.contains_key(
                name,
            ) by {
                lemma_has_entry(list@, name);
                let j = choose|j: int| 0 <= j < list@.len() && #[trigger] list@[j].0@ == name;
                assert(out@.contains_key(list@[j].0@));
            }
            assert(out@ =~= signatures_of(externs));
        }
        out
    }

    /// Makes a host function known to the program.
    pub fn register_external(
        &mut self,
        name: String,
        signature: HostSignature,
        function: ExternalFunction,
    ) -> (r: Result<(), Error>)
        requires
            old(self).wf(),
        ensures
            final(self).wf(),
            ({
                let (i, result) = registered(
                    old(self)@.instances[0],
                    name@,
                    RegisteredView { signature: signature@, function },
                );
                &&& same(final(self)@, with_instance(old(self)@, 0, i))
                &&& match r {
                    Ok(_) => result is Ok,
                    Err(e) => result == Err::<(), ErrorView>(e@),
                }
            }),
    {
        let ghost before = *self;
        assert(self@.instances[0] == self.instances@[0]@);
        let r = self.instances[0].register_external(name, signature, function);
        assert(self@.instances =~= before@.instances.update(0, self.instances@[0]@));
        r
    }

    /// Makes a host function known that the host keeps under a number.
    pub fn register_rust_function(
        &mut self,
        name: String,
        arguments: Vec<Type>,
        result: Type,
        function: usize,
    ) -> (r: Result<(), Error>)
        requires
            old(self).wf(),
        ensures
            final(self).wf(),
            ({
                let (i, outcome) = registered(
                    old(self)@.instances[0],
                    name@,
                    RegisteredView {
                        signature: SignatureView {
                            arguments: views(arguments@),
                            result: result@,
                        },
                        function: ExternalFunction::Rust(function),
                    },
                );
                &&& same(final(self)@, with_instance(old(self)@, 0, i))
                &&& match r {
                    Ok(_) => outcome is Ok,
                    Err(e) => outcome == Err::<(), ErrorView>(e@),
                }
            }),
    {
        self.register_external(
            name,
            HostSignature { arguments, result },
            ExternalFunction::Rust(function),
        )
    }

    /// Makes a C function known that takes and returns `i32` values.
    pub fn register_c_i32_function(
        &mut self,
        name: String,
        argument_count: usize,
        function: usize,
    ) -> (r: Result<(), Error>)
        requires
            old(self).wf(),
        ensures
            final(self).wf(),
            ({
                let (i, outcome) = registered(
                    old(self)@.instances[0],
                    name@,
                    RegisteredView {
                        signature: SignatureView {
                            arguments: Seq::new(argument_count as nat, |k: int| TypeView::I32),
                            result: TypeView::I32,
                        },
                        function: ExternalFunction::C(function),
                    },
                );
                &&& same(final(self)@, with_instance(old(self)@, 0, i))
                &&& match r {
                    Ok(_) => outcome is Ok,
                    Err(e) => outcome == Err::<(), ErrorView>(e@),
                }
            }),
    {
        let mut arguments: Vec<Type> = Vec::new();
        let mut k: usize = 0;
        while k < argument_count
            invariant
                k <= argument_count,
                arguments@.len() == k,
                forall|j: int| 0 <= j < k ==> #[trigger] arguments@[j]@ == TypeView::I32,
            decreases argument_count - k,
        {
            arguments.push(Type::I32);
            k += 1;
        }
        assert(views(arguments@) =~= Seq::new(argument_count as nat, |k: int| TypeView::I32));
        self.register_external(
            name,
            HostSignature { arguments, result: Type::I32 },
            ExternalFunction::C(function),
        )
    }

    /// Sets whether output is shown at once.
    pub fn set_interactive(&mut self, interactive: bool)
        requires
            old(self).wf(),
        ensures
            final(self).wf(),
            same(
                final(self)@,
                with_instance(
                    old(self)@,
                    0,
                    InstanceView { interactive, ..old(self)@.instances[0] },
                ),
            ),
    {
        let ghost before = *self;
        assert(self@.instances[0] == self.instances@[0]@);
        self.instances[0].interactive = interactive;
        assert(self@.instances =~= before@.instances.update(0, self.instances@[0]@));
    }

    /// Sets whether functions with the C calling convention can be called.
    pub fn set_callback_state(&mut self, callback_state: bool)
        requires
            old(self).wf(),
        ensures
            final(self).wf(),
            same(
                final(self)@,
                with_instance(
                    old(self)@,
                    0,
                    InstanceView { callback_state, ..old(self)@.instances[0] },
                ),
            ),
    {
        let ghost before = *self;
        assert(self@.instances[0] == self.instances@[0]@);
        self.instances[0].callback_state = callback_state;
        assert(self@.instances =~= before@.instances.update(0, self.instances@[0]@));
    }

    /// Adds a line to be read before any other input is asked for.
    pub fn push_input(&mut self, data: String)
        requires
            old(self).wf(),
        ensures
            final(self).wf(),
            same(
                final(self)@,
                with_instance(
                    old(self)@,
                    0,
                    InstanceView {
                        input: old(self)@.instances[0].input.push(data@),
                        ..old(self)@.instances[0]
                    },
                ),
            ),
    {
        let ghost before = *self;
        assert(self@.instances[0] == self.instances@[0]@);
        self.instances[0].push_input(data);
        assert(self@.instances =~= before@.instances.update(0, self.instances@[0]@));
    }

    /// Takes what is to be shown next.
    pub fn take_display(&mut self) -> (r: String)
        requires
            old(self).wf(),
        ensures
            final(self).wf(),
            r@ == old(self)@.instances[0].display,
            same(
                final(self)@,
                with_instance(
                    old(self)@,
                    0,
                    InstanceView { display: ""@, ..old(self)@.instances[0] },
                ),
            ),
    {
        let ghost before = *self;
        assert(self@.instances[0] == self.instances@[0]@);
        let mut text: String = "".to_string();
        std::mem::swap(&mut text, &mut self.instances[0].display);
        assert(self@.instances =~= before@.instances.update(0, self.instances@[0]@));
        text
    }

    /// What the program has put out.
    pub fn output(&self) -> (r: &Vec<String>)
        requires
            self.wf(),
        ensures
            views(r@) == self@.instances[0].output,
    {
        assert(self@.instances[0] == self.instances@[0]@);
        &self.instances[0].output
    }

    /// The locals of the program.
    pub fn locals(&self) -> (r: &Vec<Value>)
        requires
            self.wf(),
        ensures
            views(r@) == self@.instances[0].locals,
    {
        assert(self@.instances[0] == self.instances@[0]@);
        &self.instances[0].locals
    }

    /// The structs of the program whose destructors are still to run.
    pub fn active_destructors(&self) -> (r: &Vec<ActiveDestructor>)
        requires
            self.wf(),
        ensures
            r@ == self@.instances[0].destructors,
    {
        assert(self@.instances[0] == self.instances@[0]@);
        &self.instances[0].active_destructors
    }

    /// Prepares to run code from the beginning.
    pub fn run(&mut self, code: Rc<FlatBytecode>)
        requires
            old(self).wf(),
        ensures
            final(self).wf(),
            same(final(self)@, started(old(self)@, (*code)@, 0, false)),
    {
        self.run_from(code, 0, false);
    }

    /// Prepares to run code from a position on.
    pub fn run_from(&mut self, code: Rc<FlatBytecode>, pc: usize, terminal_return: bool)
        requires
            old(self).wf(),
        ensures
            final(self).wf(),
            same(final(self)@, started(old(self)@, (*code)@, pc, terminal_return)),
    {
        let mut runs: Vec<Run> = Vec::new();
        runs.push(
            Run {
                instance: 0,
                code,
                pc,
                terminal_return,
                receiver: None,
                calls: Vec::new(),
                after: After::Finish,
                failure: None,
            },
        );
        assert(runs@[0].calls@ =~= Seq::<(usize, Option<usize>)>::empty());
        assert(views(runs@) =~= seq![runs@[0]@]);
        self.runs = runs;
        self.waiting = None;
        self.outcome = None;
    }

    fn prepare(&mut self, code: FlatBytecode)
        requires
            old(self).wf(),
        ensures
            final(self).wf(),
            same(final(self)@, prepared(old(self)@, code@)),
    {
        let ghost before = *self;
        assert(self@.instances[0] == self.instances@[0]@);
        self.instances[0].output = Vec::new();
        assert(self.instances@[0]@.output =~= Seq::empty());
        assert(self@.instances =~= before@.instances.update(0, self.instances@[0]@));
        self.run(Rc::new(code));
    }

    /// Compiles a program and prepares to run it. A program that cannot be
    /// compiled changes nothing.
    pub fn execute(&mut self, source: &str) -> (r: Result<(), Error>)
        requires
            old(self).wf(),
        ensures
            final(self).wf(),
            match compiled_source(
                source@,
                None,
                signatures_of(old(self)@.instances[0].externs),
            ) {
                Ok(code) => r is Ok && same(final(self)@, prepared(old(self)@, code)),
                Err(e) => r is Err && same(r->Err_0@, e) && same(final(self)@, old(self)@),
            },
    {
        let code = compile_source(source, None, self.external_signatures())?;
        self.prepare(code);
        Ok(())
    }

    /// Compiles a program that comes from a file, with the modules that it may
    /// import, and prepares to run it.
    pub fn execute_file(
        &mut self,
        source: &str,
        files: Vec<(String, ModuleFile)>,
    ) -> (r: Result<(), Error>)
        requires
            old(self).wf(),
        ensures
            final(self).wf(),
            match compiled_source(
                source@,
                Some(views(files@)),
                signatures_of(old(self)@.instances[0].externs),
            ) {
                Ok(code) => r is Ok && same(final(self)@, prepared(old(self)@, code)),
                Err(e) => r is Err && same(r->Err_0@, e) && same(final(self)@, old(self)@),
            },
    {
        let code = compile_source(source, Some(files), self.external_signatures())?;
        self.prepare(code);
        Ok(())
    }
}

/// A machine whose input begins with lines.
pub open spec fn with_input(m: VmView, input: Seq<Seq<char>>) -> VmView {
    with_instance(m, 0, InstanceView { input: m.instances[0].input + input, ..m.instances[0] })
}

/// A machine that shows its output at once.
pub open spec fn interactive_machine() -> VmView {
    with_instance(
        new_machine(),
        0,
        InstanceView { interactive: true, ..new_machine().instances[0] },
    )
}

/// Prepares a program to run.
pub fn execute(source: &str) -> (r: Result<Vm, Error>)
    ensures
        match compiled_source(source@, None, Map::empty()) {
            Ok(code) => r is Ok && r->Ok_0.wf() && same(r->Ok_0@, prepared(new_machine(), code)),
            Err(e) => r is Err && same(r->Err_0@, e),
        },
{
    let mut vm = Vm::default();
    assert(signatures_of(vm@.instances[0].externs) =~= Map::empty());
    vm.execute(source)?;
    Ok(vm)
}

/// Prepares a program to run with lines of input.
pub fn execute_with_input(source: &str, input: Vec<String>) -> (r: Result<Vm, Error>)
    ensures
        match compiled_source(source@, None, Map::empty()) {
            Ok(code) => r is Ok && r->Ok_0.wf() && same(
                r->Ok_0@,
                prepared(with_input(new_machine(), views(input@)), code),
            ),
            Err(e) => r is Err && same(r->Err_0@, e),
        },
{
    let mut vm = Vm::default();
    let ghost start = vm@;
    let mut k: usize = 0;
    assert(views(input@).take(0) =~= Seq::empty());
    assert(with_input(start, Seq::empty()).instances =~= start.instances) by {
        assert(start.instances[0].input + Seq::<Seq<char>>::empty() =~= start.instances[0].input);
    }
    while k < input.len()
        invariant
            vm.wf(),
            start == new_machine(),
            k <= input@.len(),
            same(vm@, with_input(start, views(input@).take(k as int))),
        decreases input@.len() - k,
    {
        assert(views(input@)[k as int] == input@[k as int]@);
        let ghost before = vm@;
        vm.push_input(input[k].clone());
        proof {
            let next = views(input@).take(k + 1);
            assert(views(input@).take(k as int).push(input@[k as int]@) =~= next);
            assert(start.instances[0].input + next =~= (start.instances[0].input + views(
                input@,
            ).take(k as int)).push(input@[k as int]@));
            assert(vm@.instances =~= with_input(start, next).instances);
        }
        k += 1;
    }
    assert(views(input@).take(input@.len() as int) =~= views(input@));
    assert(signatures_of(vm@.instances[0].externs) =~= Map::empty());
    vm.execute(source)?;
    Ok(vm)
}

/// Prepares a program to run that shows its output at once.
pub fn execute_interactive(source: &str) -> (r: Result<Vm, Error>)
    ensures
        match compiled_source(source@, None, Map::empty()) {
            Ok(code) => r is Ok && r->Ok_0.wf() && same(
                r->Ok_0@,
                prepared(interactive_machine(), code),
            ),
            Err(e) => r is Err && same(r->Err_0@, e),
        },
{
    let mut vm = Vm::default();
    vm.set_interactive(true);
    assert(signatures_of(vm@.instances[0].externs) =~= Map::empty());
    vm.execute(source)?;
    Ok(vm)
}

/// Prepares a program to run that comes from a file.
pub fn execute_file(source: &str, files: Vec<(String, ModuleFile)>) -> (r: Result<Vm, Error>)
    ensures
        match compiled_source(source@, Some(views(files@)), Map::empty()) {
            Ok(code) => r is Ok && r->Ok_0.wf() && same(r->Ok_0@, prepared(new_machine(), code)),
            Err(e) => r is Err && same(r->Err_0@, e),
        },
{
    let mut vm = Vm::default();
    assert(signatures_of(vm@.instances[0].externs) =~= Map::empty());
    vm.execute_file(source, files)?;
    Ok(vm)
}

/// Prepares a program to run that comes from a file and shows its output at once.
pub fn execute_interactive_file(
    source: &str,
    files: Vec<(String, ModuleFile)>,
) -> (r: Result<Vm, Error>)
    ensures
        match compiled_source(source@, Some(views(files@)), Map::empty()) {
            Ok(code) => r is Ok && r->Ok_0.wf() && same(
                r->Ok_0@,
                prepared(interactive_machine(), code),
            ),
            Err(e) => r is Err && same(r->Err_0@, e),
        },
{
    let mut vm = Vm::default();
    vm.set_interactive(true);
    assert(signatures_of(vm@.instances[0].externs) =~= Map::empty());
    vm.execute_file(source, files)?;
    Ok(vm)
}

} // verus!
