//! The compiler: a syntax tree to bytecode.
use vstd::prelude::*;
use std::rc::Rc;
use crate::ast::{
    Expr, ExprView, MethodReceiver, Statement, StatementView, StructMethod, TableLiteralKey,
    group_ast_views,
};
use crate::code::{
    ArtifactView, CodeView, EntryView, FlatBytecode, ModuleArtifact, ModuleExport, TableEntry,
    group_code_views,
};
use crate::codegen::{
    Context, FileView, LoopView, SignatureView, State, add_export, arguments_code, array_code,
    assign_code, binary_code, binary_opcode, bind_name, block_code, builtin1_code, builtin2_code,
    call_code, call_method_code, close_loop, close_scope, coerced, compiled_module,
    compiled_program, container, count_on, declare_methods, declared, destructor_arguments,
    destructor_calls, destructor_target, emit, emit_call, empty_state, entries_code,
    export_function_code, exports_in_words, expr_code, extension_artifact, extern_code, field_code,
    find_export, find_field, find_file, find_initializer, for_code, for_in_code, global_assign_code,
    if_code, import_structs, index_code, indices_code, initializers_code, is_extension, item_code,
    item_op, item_type, items_code, key_code, keys_code, leave_code, lemma_remaining_shrinks,
    len_code, let_code, literal_key_code, live_locals, load_module, logical_code, member_code,
    members_code, method_code, method_entry, method_field, mismatch, numbered, open_loop,
    operator_code, parameters_code, parsed_module, patch, patch_jumps, printed_code, printf_code,
    rank_error, rebound, remaining, remove_code, repeated_field, repeated_initializer,
    resolve_pending, scoped_code, set_field_code, set_field_index_code, set_index_code,
    statement_code, struct_code, struct_field, struct_statement_code, table_code, tensor_code,
    text_in, track_destructor, unknown_name, unknown_struct, while_code,
};
use crate::grammar::unary;
use crate::ir::{IrOp, OpView, lowered};
use crate::lexer::{StringId, StringInterner, lex};
use crate::ops::{BinOp, BinaryOp, BuiltinFn, TensorInit, UnOp};
use crate::parser::Parser;
use crate::refusals::{
    array_refused, assign_refused, builtin_refused, call_refused, expected_left, expr_refused,
    extern_refused, first_refused, global_assign_refused, is_action, is_definition, is_leaf,
    is_store, loop_refused, method_refused, printf_refused, refused_at_once,
    set_field_index_refused, set_field_refused, set_index_refused, statement_refused,
    struct_refused, struct_statement_refused, tensor_refused,
};
use crate::text::{cat2, cat3, cat4, cat5, cat6, text_eq, usize_text};
use crate::types::{
    Error, ErrorView, Type, TypeView, is_float, is_integer, is_numeric, runtime_error, scalar_size,
    type_error, types_compatible,
};
use crate::value::{FieldView, StructField, StructLayout, TableKey, Value, int_value};
use crate::views::{Dict, Duplicate, duplicate_all, group_views, same, views};

verus! {

broadcast use {group_views, group_ast_views, group_code_views};

/// The types of a host function's arguments and of its result.
#[derive(Debug)]
pub struct HostSignature {
    pub arguments: Vec<Type>,
    pub result: Type,
}

impl View for HostSignature {
    type V = SignatureView;

    open spec fn view(&self) -> SignatureView {
        SignatureView { arguments: views(self.arguments@), result: self.result@ }
    }
}

impl Duplicate for Type {
    fn duplicate(&self) -> (r: Self) {
        self.clone()
    }
}

impl Duplicate for HostSignature {
    fn duplicate(&self) -> (r: Self) {
        HostSignature {
            arguments: crate::views::duplicate_all(&self.arguments),
            result: self.result.clone(),
        }
    }
}

impl Clone for HostSignature {
    fn clone(&self) -> (r: Self)
        ensures
            r@ == self@,
    {
        self.duplicate()
    }
}

impl Duplicate for (usize, Type) {
    fn duplicate(&self) -> (r: Self) {
        (self.0, self.1.clone())
    }
}

/// What became of a module path.
#[derive(Debug)]
pub enum ModuleFile {
    /// The path is absolute.
    Absolute,
    /// No file was found, with the reason.
    Unresolved(String),
    /// The file lies outside the module root.
    Escapes,
    /// The file's unique name, and its text or why it could not be read.
    Found { id: String, source: Result<String, String> },
}

impl View for ModuleFile {
    type V = FileView;

    open spec fn view(&self) -> FileView {
        match *self {
            ModuleFile::Absolute => FileView::Absolute,
            ModuleFile::Unresolved(reason) => FileView::Unresolved(reason@),
            ModuleFile::Escapes => FileView::Escapes,
            ModuleFile::Found { id, source } => FileView::Found {
                id: id@,
                source: match source {
                    Ok(text) => Ok(text@),
                    Err(reason) => Err(reason@),
                },
            },
        }
    }
}

/// A local whose struct has a destructor.
#[derive(Debug)]
pub struct DestructorLocal {
    pub slot: usize,
    pub struct_name: String,
}

impl View for DestructorLocal {
    type V = (usize, Seq<char>);

    open spec fn view(&self) -> (usize, Seq<char>) {
        (self.slot, self.struct_name@)
    }
}

impl Duplicate for DestructorLocal {
    fn duplicate(&self) -> (r: Self) {
        DestructorLocal { slot: self.slot, struct_name: self.struct_name.clone() }
    }
}

/// The locals of an open block that have a destructor.
#[derive(Debug)]
pub struct ScopeContext {
    pub destructors: Vec<DestructorLocal>,
}

impl View for ScopeContext {
    type V = Seq<(usize, Seq<char>)>;

    open spec fn view(&self) -> Seq<(usize, Seq<char>)> {
        views(self.destructors@)
    }
}

impl Default for ScopeContext {
    fn default() -> (r: Self)
        ensures
            r@ == Seq::<(usize, Seq<char>)>::empty(),
    {
        ScopeContext { destructors: Vec::new() }
    }
}

/// A loop whose end is still to come.
#[derive(Debug)]
pub struct LoopContext {
    pub break_jumps: Vec<usize>,
    pub continue_jumps: Vec<usize>,
    pub scope_base: usize,
}

impl View for LoopContext {
    type V = LoopView;

    open spec fn view(&self) -> LoopView {
        LoopView {
            break_jumps: self.break_jumps@,
            continue_jumps: self.continue_jumps@,
            scope_base: self.scope_base as int,
        }
    }
}

pub struct Compiler {
    pub names: Dict<String, (usize, Type)>,
    pub structs: Dict<String, StructLayout>,
    pub globals: Dict<String, (usize, Type)>,
    pub methods: Dict<(String, String), Option<usize>>,
    pub pending_method_calls: Vec<(usize, String, String)>,
    pub current_method_fields: Option<Vec<StructField>>,
    pub current_method_struct: Option<String>,
    pub rooted: bool,
    pub files: Rc<Vec<(String, ModuleFile)>>,
    pub compiling: Vec<String>,
    pub module_artifacts: Dict<String, Rc<ModuleArtifact>>,
    pub exports: Vec<(String, ModuleExport)>,
    pub extern_functions: Rc<Dict<String, HostSignature>>,
    pub code: Vec<IrOp>,
    pub strings: StringInterner,
    pub interned_names: Dict<String, Rc<String>>,
    pub next_slot: usize,
    pub scope_depth: usize,
    pub scope_stack: Vec<ScopeContext>,
    pub loops: Vec<LoopContext>,
}

pub open spec fn type_option(t: Option<&Type>) -> Option<TypeView> {
    match t {
        Some(t) => Some(t@),
        None => None,
    }
}

/// The first field with a name.
fn field_named<'a>(fields: &'a Vec<StructField>, name: &String) -> (r: Option<&'a StructField>)
    ensures
        match r {
            Some(f) => find_field(views(fields@), name@, 0) == Some(f@),
            None => find_field(views(fields@), name@, 0) is None,
        },
{
    let mut i: usize = 0;
    while i < fields.len()
        invariant
            i <= fields@.len(),
            find_field(views(fields@), name@, 0) == find_field(views(fields@), name@, i as int),
        decreases fields@.len() - i,
    {
        assert(views(fields@)[i as int] == fields@[i as int]@);
        if fields[i].name == *name {
            return Some(&fields[i]);
        }
        i += 1;
    }
    None
}

/// The export with a name.
pub fn export_named<'a>(
    exports: &'a Vec<(String, ModuleExport)>,
    name: &String,
) -> (r: Option<&'a ModuleExport>)
    ensures
        match r {
            Some(x) => find_export(views(exports@), name@, 0) == Some(x@),
            None => find_export(views(exports@), name@, 0) is None,
        },
{
    let mut i: usize = 0;
    while i < exports.len()
        invariant
            i <= exports@.len(),
            find_export(views(exports@), name@, 0) == find_export(views(exports@), name@, i as int),
        decreases exports@.len() - i,
    {
        assert(views(exports@)[i as int] == exports@[i as int]@);
        if exports[i].0 == *name {
            return Some(&exports[i].1);
        }
        i += 1;
    }
    None
}

fn opcode_for(op: BinOp, ty: &Type) -> (r: Result<BinaryOp, Error>)
    ensures
        match r {
            Ok(t) => binary_opcode(op, ty@) == Ok::<BinaryOp, ErrorView>(t),
            Err(e) => binary_opcode(op, ty@) == Err::<BinaryOp, ErrorView>(e@),
        },
{
    match op {
        BinOp::Eq => Ok(BinaryOp::Equal),
        BinOp::Neq => Ok(BinaryOp::NotEqual),
        _ => match ty {
            Type::I8 => Ok(BinaryOp::I8(op)),
            Type::I16 => Ok(BinaryOp::I16(op)),
            Type::I32 => Ok(BinaryOp::I32(op)),
            Type::I64 => Ok(BinaryOp::I64(op)),
            Type::U8 => Ok(BinaryOp::U8(op)),
            Type::U16 => Ok(BinaryOp::U16(op)),
            Type::U32 => Ok(BinaryOp::U32(op)),
            Type::U64 => Ok(BinaryOp::U64(op)),
            Type::F16 => Ok(BinaryOp::F16(op)),
            Type::BF16 => Ok(BinaryOp::BF16(op)),
            Type::F32 => Ok(BinaryOp::F32(op)),
            Type::F64 => Ok(BinaryOp::F64(op)),
            _ => Err(
                Error::Type(cat2("unsupported binary operand type ", ty.to_text().as_str())),
            ),
        },
    }
}

fn mismatch_error(before: &str, found: &Type, between: &str, expected: &Type) -> (r: Error)
    ensures
        r@ == mismatch(before@, found@, between@, expected@),
{
    Error::Type(
        cat4(before, found.to_text().as_str(), between, expected.to_text().as_str()),
    )
}

fn unknown_name_error(name: &str) -> (r: Error)
    ensures
        r@ == unknown_name(name@),
{
    Error::Type(cat3("unknown name '", name, "'"))
}

fn unknown_struct_error(name: &str) -> (r: Error)
    ensures
        r@ == unknown_struct(name@),
{
    Error::Type(cat3("unknown struct '", name, "'"))
}

fn rank_mismatch(rank: usize) -> (r: Error)
    ensures
        r@ == rank_error(rank),
{
    let n = usize_text(rank);
    Error::Type(cat5("tensor rank ", n.as_str(), " requires ", n.as_str(), " index(es)"))
}

/// The position of a field's initializer, or the number of initializers.
fn initializer_of(fields: &Vec<(String, Expr)>, name: &String) -> (r: usize)
    ensures
        r == find_initializer(views(fields@), name@, 0),
        r <= fields@.len(),
{
    let mut i: usize = 0;
    while i < fields.len()
        invariant
            i <= fields@.len(),
            find_initializer(views(fields@), name@, 0) == find_initializer(
                views(fields@),
                name@,
                i as int,
            ),
        decreases fields@.len() - i,
    {
        assert(views(fields@)[i as int] == fields@[i as int]@);
        if fields[i].0 == *name {
            return i;
        }
        i += 1;
    }
    i
}

fn repeated_initializer_of(fields: &Vec<(String, Expr)>) -> (r: Option<String>)
    ensures
        match r {
            Some(name) => repeated_initializer(views(fields@), 0) == Some(name@),
            None => repeated_initializer(views(fields@), 0) is None,
        },
{
    let mut i: usize = 0;
    while i < fields.len()
        invariant
            i <= fields@.len(),
            repeated_initializer(views(fields@), 0) == repeated_initializer(
                views(fields@),
                i as int,
            ),
        decreases fields@.len() - i,
    {
        assert(views(fields@)[i as int] == fields@[i as int]@);
        if initializer_of(fields, &fields[i].0) < i {
            return Some(fields[i].0.clone());
        }
        i += 1;
    }
    None
}

/// The position of a module path among the files, or their number.
fn file_of(files: &Vec<(String, ModuleFile)>, path: &String) -> (r: usize)
    ensures
        r == find_file(views(files@), path@, 0),
        r <= files@.len(),
{
    let mut i: usize = 0;
    while i < files.len()
        invariant
            i <= files@.len(),
            find_file(views(files@), path@, 0) == find_file(views(files@), path@, i as int),
        decreases files@.len() - i,
    {
        assert(views(files@)[i as int] == files@[i as int]@);
        if files[i].0 == *path {
            return i;
        }
        i += 1;
    }
    i
}

fn listed(texts: &Vec<String>, text: &String) -> (r: bool)
    ensures
        r == views(texts@).contains(text@),
{
    let mut i: usize = 0;
    while i < texts.len()
        invariant
            i <= texts@.len(),
            forall|j: int| 0 <= j < i ==> #[trigger] texts@[j]@ != text@,
        decreases texts@.len() - i,
    {
        if texts[i] == *text {
            assert(views(texts@)[i as int] == text@);
            return true;
        }
        i += 1;
    }
    proof {
        if views(texts@).contains(text@) {
            let k = choose|k: int| 0 <= k < views(texts@).len() && views(texts@)[k] == text@;
            assert(texts@[k]@ == text@);
        }
    }
    false
}

fn destructor_arguments_error(struct_name: &str) -> (r: Error)
    ensures
        r@ == destructor_arguments(struct_name@),
{
    Error::Type(cat3("destructor '", struct_name, "' must not accept arguments"))
}

/// The type of the items of what can be walked over, and the instruction that reads one.
fn walk_over(ty: &Type) -> (r: Option<(Type, IrOp)>)
    ensures
        match r {
            Some((element, op)) => item_type(ty@) == Some(element@) && item_op(ty@) == op@,
            None => item_type(ty@) is None,
        },
{
    match ty {
        Type::Array(inner) => Some(((**inner).clone(), IrOp::Index)),
        Type::TableKeys => Some((Type::TableKey, IrOp::TableKeysIndex)),
        Type::Tensor(inner, rank) => if *rank != 1 {
            None
        } else if matches!(**inner, Type::F32) {
            Some(((**inner).clone(), IrOp::TensorIndexF32(1)))
        } else {
            Some(((**inner).clone(), IrOp::TensorIndex(Rc::new((**inner).clone()), 1)))
        },
        _ => None,
    }
}

fn repeated_field_of(fields: &Vec<(String, Type)>) -> (r: Option<String>)
    ensures
        match r {
            Some(name) => repeated_field(views(fields@), 0) == Some(name@),
            None => repeated_field(views(fields@), 0) is None,
        },
{
    let ghost seen = views(fields@);
    let mut i: usize = 0;
    while i < fields.len()
        invariant
            i <= fields@.len(),
            seen == views(fields@),
            repeated_field(seen, 0) == repeated_field(seen, i as int),
        decreases fields@.len() - i,
    {
        assert(seen[i as int] == fields@[i as int]@);
        let mut j: usize = 0;
        while j < i
            invariant
                j <= i < fields@.len(),
                seen == views(fields@),
                repeated_field(seen, 0) == repeated_field(seen, i as int),
                forall|k: int| 0 <= k < j ==> (#[trigger] seen[k]).0 != seen[i as int].0,
            decreases i - j,
        {
            assert(seen[j as int] == fields@[j as int]@);
            assert(seen[i as int] == fields@[i as int]@);
            if fields[j].0 == fields[i].0 {
                assert(seen[j as int].0 == seen[i as int].0);
                return Some(fields[i].0.clone());
            }
            j += 1;
        }
        i += 1;
    }
    None
}

fn numbered_fields(fields: &Vec<(String, Type)>) -> (r: Vec<StructField>)
    ensures
        views(r@) == numbered(views(fields@)),
{
    let mut out: Vec<StructField> = Vec::new();
    let mut i: usize = 0;
    while i < fields.len()
        invariant
            i <= fields@.len(),
            out@.len() == i,
            forall|k: int|
                0 <= k < i ==> #[trigger] out@[k]@ == (FieldView {
                    name: fields@[k].0@,
                    ty: fields@[k].1@,
                    index: k as usize,
                }),
        decreases fields@.len() - i,
    {
        out.push(
            StructField { name: fields[i].0.clone(), ty: fields[i].1.clone(), index: i },
        );
        i += 1;
    }
    assert(views(out@) =~= numbered(views(fields@)));
    out
}

fn exports_with_word_entries(
    exports: Vec<(String, ModuleExport)>,
) -> (r: Vec<(String, ModuleExport)>)
    ensures
        views(r@) == exports_in_words(views(exports@)),
{
    let mut out: Vec<(String, ModuleExport)> = Vec::new();
    let mut i: usize = 0;
    while i < exports.len()
        invariant
            i <= exports@.len(),
            out@.len() == i,
            forall|k: int|
                0 <= k < i ==> #[trigger] out@[k]@ == exports_in_words(views(exports@))[k],
        decreases exports@.len() - i,
    {
        assert(views(exports@)[i as int] == exports@[i as int]@);
        let export: ModuleExport = match &exports[i].1 {
            ModuleExport::Function { entry } => ModuleExport::Function {
                entry: entry.wrapping_mul(4),
            },
            other => other.duplicate(),
        };
        out.push((exports[i].0.clone(), export));
        i += 1;
    }
    assert(views(out@) =~= exports_in_words(views(exports@)));
    out
}

proof fn lemma_calls_keep_blocks(c: State, locals: Seq<(usize, Seq<char>)>, i: int)
    ensures
        destructor_calls(c, locals, i).loops == c.loops,
        destructor_calls(c, locals, i).scopes == c.scopes,
    decreases locals.len() - i,
{
    if 0 <= i < locals.len() {
        let (slot, name) = locals[i];
        let c1 = emit(c, OpView::UntrackDestructor(slot));
        let target = destructor_target(c1, name);
        lemma_calls_keep_blocks(
            emit_call(c1, OpView::CallMethod(slot, target), target, name, name),
            locals,
            i + 1,
        );
    }
}

/// The type that a binding of type `ty` was declared with.
fn declared_type(ty: &Type) -> (r: Type)
    ensures
        r@ == declared(ty@),
{
    match ty {
        Type::Module(_) => {
            proof {
                reveal_strlit("");
            }
            let none = String::new();
            assert(none@ =~= Seq::<char>::empty());
            Type::Module(none)
        },
        _ => ty.clone(),
    }
}

impl Compiler {
    pub open spec fn ctx(self) -> Context {
        Context {
            rooted: self.rooted,
            files: views((*self.files)@),
            compiling: views(self.compiling@),
            externs: (*self.extern_functions)@,
            strings: self.strings@,
        }
    }

    pub open spec fn state(self) -> State {
        State {
            names: self.names@,
            structs: self.structs@,
            globals: self.globals@,
            methods: self.methods@,
            pending: views(self.pending_method_calls@),
            method_fields: match self.current_method_fields {
                Some(fields) => Some(views(fields@)),
                None => None,
            },
            method_struct: match self.current_method_struct {
                Some(name) => Some(name@),
                None => None,
            },
            artifacts: self.module_artifacts@,
            exports: views(self.exports@),
            code: views(self.code@),
            next_slot: self.next_slot,
            nested: self.scope_depth > 0,
            scopes: views(self.scope_stack@),
            loops: views(self.loops@),
        }
    }

    fn string(&self, id: StringId) -> (r: String)
        ensures
            r@ == text_in(self.ctx(), id),
    {
        assert(self.strings@.len() == self.strings.strings@.len());
        if (id.0 as usize) < self.strings.strings.len() {
            self.strings.resolve(id).to_string()
        } else {
            String::new()
        }
    }

    fn here(&self) -> (r: usize)
        ensures
            r == self.state().code.len() as usize,
            r == self.state().code.len(),
    {
        self.code.len()
    }

    fn emit(&mut self, op: IrOp)
        ensures
            final(self).ctx() == old(self).ctx(),
            final(self).state() == emit(old(self).state(), op@),
    {
        self.code.push(op);
    }

    /// A name as a text that the code and all tables share.
    fn intern_name(&mut self, name: &String) -> (r: Rc<String>)
        ensures
            final(self).ctx() == old(self).ctx(),
            final(self).state() == old(self).state(),
            r@ == name@,
    {
        if let Some(known) = self.interned_names.get(name) {
            if **known == *name {
                return known.clone();
            }
        }
        let shared: Rc<String> = Rc::new(name.clone());
        let _known: bool = self.interned_names.insert(name.clone(), shared.clone());
        shared
    }

    fn patch(&mut self, at: usize, op: IrOp)
        ensures
            final(self).ctx() == old(self).ctx(),
            final(self).state() == patch(old(self).state(), at, op@),
    {
        if at < self.code.len() {
            self.code[at] = op;
        }
    }

    fn method_field(&self, name: &String) -> (r: Option<&StructField>)
        ensures
            match r {
                Some(f) => method_field(self.state(), name@) == Some(f@),
                None => method_field(self.state(), name@) is None,
            },
    {
        match &self.current_method_fields {
            Some(fields) => field_named(fields, name),
            None => None,
        }
    }

    fn struct_field(&self, struct_name: &String, field: &String) -> (r: Result<StructField, Error>)
        ensures
            match r {
                Ok(t) => struct_field(self.state(), struct_name@, field@) == Ok::<
                    FieldView,
                    ErrorView,
                >(t@),
                Err(e) => struct_field(self.state(), struct_name@, field@) == Err::<
                    FieldView,
                    ErrorView,
                >(e@),
            },
    {
        match self.structs.get(struct_name) {
            None => Err(unknown_struct_error(struct_name.as_str())),
            Some(layout) => match field_named(&layout.fields, field) {
                Some(f) => Ok(f.clone()),
                None => Err(
                    Error::Type(
                        cat5(
                            "struct '",
                            struct_name.as_str(),
                            "' has no field '",
                            field.as_str(),
                            "'",
                        ),
                    ),
                ),
            },
        }
    }

    fn method_entry(&self, struct_name: &String, method: &String) -> (r: Option<usize>)
        ensures
            r == method_entry(self.state(), struct_name@, method@),
    {
        let key = (struct_name.clone(), method.clone());
        match self.methods.get(&key) {
            Some(entry) => *entry,
            None => None,
        }
    }

    #[verifier::spinoff_prover]
    fn expr(&mut self, expr: &Expr, expected: Option<&Type>) -> (r: Result<Type, Error>)
        ensures
            final(self).ctx() == old(self).ctx(),
            match r {
                Ok(t) => same(
                    expr_code(old(self).ctx(), old(self).state(), expr@, type_option(expected)),
                    Ok::<(State, TypeView), ErrorView>((final(self).state(), t@)),
                ),
                Err(e) => {
                    &&& same(
                        expr_code(old(self).ctx(), old(self).state(), expr@, type_option(expected)),
                        Err::<(State, TypeView), ErrorView>(e@),
                    )
                    &&& expr_refused(
                        old(self).ctx(),
                        old(self).state(),
                        expr@,
                        type_option(expected),
                    ) ==> same(final(self).state(), old(self).state())
                },
            },
            refused_at_once(old(self).ctx(), old(self).state(), expr@, type_option(expected)) ==> {
                &&& r is Err
                &&& same(final(self).state(), old(self).state())
            },
        decreases remaining(old(self).ctx().files, old(self).ctx().compiling), 0int, *expr, 50int,
    {
        reveal(refused_at_once);
        self.expression(expr, expected)
    }

    /// An expression without parts. One that is refused changes nothing.
    #[verifier::spinoff_prover]
    fn leaf(&mut self, expr: &Expr, expected: Option<&Type>) -> (r: Result<Type, Error>)
        requires
            is_leaf(expr@),
        ensures
            final(self).ctx() == old(self).ctx(),
            match r {
                Ok(t) => same(
                    expr_code(old(self).ctx(), old(self).state(), expr@, type_option(expected)),
                    Ok::<(State, TypeView), ErrorView>((final(self).state(), t@)),
                ),
                Err(e) => {
                    &&& same(
                        expr_code(old(self).ctx(), old(self).state(), expr@, type_option(expected)),
                        Err::<(State, TypeView), ErrorView>(e@),
                    )
                    &&& same(final(self).state(), old(self).state())
                },
            },
        decreases remaining(old(self).ctx().files, old(self).ctx().compiling), 0int, *expr, 48int,
    {
        match expr {
            Expr::Integer(n) => {
                let ty: Type = match expected {
                    Some(t) => t.clone(),
                    None => Type::I32,
                };
                let value = int_value(*n, &ty)?;
                self.emit(IrOp::Push(value));
                Ok(ty)
            },
            Expr::Float(id) => {
                let ty: Type = match expected {
                    Some(t) => t.clone(),
                    None => Type::F64,
                };
                if !is_float(&ty) {
                    return Err(
                        Error::Type(
                            cat2("float literal cannot initialize ", ty.to_text().as_str()),
                        ),
                    );
                }
                let text = self.string(*id);
                self.emit(IrOp::PushFloat(Rc::new(text), Rc::new(ty.clone())));
                Ok(ty)
            },
            Expr::String(id) => {
                let text = self.string(*id);
                self.emit(IrOp::MakeString(Rc::new(text)));
                Ok(Type::String)
            },
            Expr::Input => {
                if let Some(t) = expected {
                    if is_numeric(t) || matches!(t, Type::String) {
                        let ty = t.clone();
                        self.emit(IrOp::Input(Rc::new(ty.clone())));
                        return Ok(ty);
                    }
                }
                Err(
                    type_error(
                        "input needs an expected scalar or string type, e.g. let value: i32 = input",
                    ),
                )
            },
            Expr::This => {
                let name: Option<String> = match &self.current_method_struct {
                    Some(name) => Some(name.clone()),
                    None => None,
                };
                match name {
                    Some(name) => {
                        self.emit(IrOp::LoadCurrentReceiver);
                        Ok(Type::Struct(name))
                    },
                    None => Err(type_error("this is available only inside a struct method")),
                }
            },
            Expr::Require(path) => {
                let module = self.load_module(path, expr)?;
                let id = module.id.clone();
                self.emit(IrOp::Require(module));
                Ok(Type::Module(id))
            },
            Expr::GlobalName(id) => {
                let name = self.string(*id);
                let found: Option<(usize, Type)> = match self.globals.get(&name) {
                    Some(entry) => Some((entry.0, entry.1.clone())),
                    None => None,
                };
                match found {
                    Some((slot, ty)) => {
                        self.emit(IrOp::Load(slot));
                        Ok(ty)
                    },
                    None => Err(
                        Error::Type(cat3("unknown global name '", name.as_str(), "'")),
                    ),
                }
            },
            Expr::Name(id) => self.name(*id),
            _ => Err(type_error("")),
        }
    }

    /// An expression, by its kind.
    #[verifier::spinoff_prover]
    fn expression(&mut self, expr: &Expr, expected: Option<&Type>) -> (r: Result<Type, Error>)
        ensures
            final(self).ctx() == old(self).ctx(),
            match r {
                Ok(t) => same(
                    expr_code(old(self).ctx(), old(self).state(), expr@, type_option(expected)),
                    Ok::<(State, TypeView), ErrorView>((final(self).state(), t@)),
                ),
                Err(e) => {
                    &&& same(
                        expr_code(old(self).ctx(), old(self).state(), expr@, type_option(expected)),
                        Err::<(State, TypeView), ErrorView>(e@),
                    )
                    &&& expr_refused(
                        old(self).ctx(),
                        old(self).state(),
                        expr@,
                        type_option(expected),
                    ) ==> same(final(self).state(), old(self).state())
                },
            },
        decreases remaining(old(self).ctx().files, old(self).ctx().compiling), 0int, *expr, 49int,
    {
        match expr {
            Expr::Located { node, location } => match self.expr(node, expected) {
                Ok(t) => Ok(t),
                Err(e) => Err(e.at(*location)),
            },
            Expr::Integer(_) | Expr::Float(_) | Expr::String(_) | Expr::Input | Expr::This
            | Expr::Require(_) | Expr::GlobalName(_) | Expr::Name(_) => self.leaf(expr, expected),
            Expr::Array(items) => {
                assert(decreases_to!(*expr => expr->Array_0));
                self.array(items, expected)
            },
            Expr::Table(items) => {
                assert(decreases_to!(*expr => expr->Table_0));
                self.table(items, expected)
            },
            Expr::TensorFactory { name, element, shape } => self.tensor_factory(
                name,
                element,
                shape,
                expected,
            ),
            Expr::StructLiteral(name, fields) => {
                assert(decreases_to!(*expr => expr->StructLiteral_1));
                self.struct_literal(name, fields, expected)
            },
            Expr::Cast(inner, target) => {
                let source = self.expr(inner, None)?;
                if is_numeric(&source) && is_numeric(target) {
                    self.emit(IrOp::Cast(Rc::new(target.clone())));
                    Ok(target.clone())
                } else {
                    Err(mismatch_error("cannot cast ", &source, " to ", target))
                }
            },
            Expr::Call(name, args) => {
                assert(decreases_to!(*expr => expr->Call_1));
                self.call(name, args, expected)
            },
            Expr::Unary(op, inner) => {
                let ty = self.expr(inner, expected)?;
                match op {
                    UnOp::Neg => {
                        if !is_numeric(&ty) {
                            return Err(type_error("'-' requires a numeric type"));
                        }
                    },
                    UnOp::Not => {
                        if !matches!(ty, Type::Bool) {
                            return Err(type_error("'!' requires a bool"));
                        }
                    },
                }
                self.emit(IrOp::Unary(*op, Rc::new(ty.clone())));
                Ok(ty)
            },
            Expr::Binary(left, op, right) => if matches!(op, BinOp::And | BinOp::Or) {
                self.logical(expr)
            } else {
                self.binary(expr, expected)
            },
            Expr::Index(container, indices) => {
                assert(decreases_to!(*expr => expr->Index_1));
                let ty = self.expr(container, None)?;
                self.index(&ty, indices)
            },
            Expr::Field(container, field) => {
                let ty = self.expr(container, None)?;
                self.field(&ty, field)
            },
        }
    }

    fn name(&mut self, id: StringId) -> (r: Result<Type, Error>)
        ensures
            final(self).ctx() == old(self).ctx(),
            match r {
                Ok(t) => same(
                    expr_code(old(self).ctx(), old(self).state(), ExprView::Name(id), None),
                    Ok::<(State, TypeView), ErrorView>((final(self).state(), t@)),
                ),
                Err(e) => {
                    &&& same(
                        expr_code(old(self).ctx(), old(self).state(), ExprView::Name(id), None),
                        Err::<(State, TypeView), ErrorView>(e@),
                    )
                    &&& same(final(self).state(), old(self).state())
                },
            },
    {
        let name = self.string(id);
        let field: Option<StructField> = match self.method_field(&name) {
            Some(f) => Some(f.clone()),
            None => None,
        };
        if let Some(field) = field {
            let ty = field.ty.clone();
            self.emit(IrOp::LoadCurrentField(Rc::new(field)));
            return Ok(ty);
        }
        let found: Option<(usize, Type)> = match self.names.get(&name) {
            Some(entry) => Some((entry.0, entry.1.clone())),
            None => None,
        };
        match found {
            Some((slot, ty)) => {
                self.emit(IrOp::Load(slot));
                Ok(ty)
            },
            None => Err(unknown_name_error(name.as_str())),
        }
    }

    #[verifier::spinoff_prover]
    fn logical(&mut self, expr: &Expr) -> (r: Result<Type, Error>)
        requires
            expr is Binary,
        ensures
            final(self).ctx() == old(self).ctx(),
            match r {
                Ok(t) => same(
                    logical_code(old(self).ctx(), old(self).state(), expr@),
                    Ok::<(State, TypeView), ErrorView>((final(self).state(), t@)),
                ),
                Err(e) => {
                    &&& same(
                        logical_code(old(self).ctx(), old(self).state(), expr@),
                        Err::<(State, TypeView), ErrorView>(e@),
                    )
                    &&& (
                        expr@ matches ExprView::Binary(left, _, _)
                        && refused_at_once(
                            old(self).ctx(),
                            old(self).state(),
                            *left,
                            Some(TypeView::Bool),
                        )
                    ) ==> same(final(self).state(), old(self).state())
                },
            },
        decreases remaining(old(self).ctx().files, old(self).ctx().compiling), 0int, *expr, 40int,
    {
        match expr {
            Expr::Binary(left, op, right) => {
                let and: bool = matches!(op, BinOp::And);
                let lt = self.expr(left, Some(&Type::Bool))?;
                if !matches!(lt, Type::Bool) {
                    return Err(type_error("logical operators require bool"));
                }
                let jump: usize = self.here();
                if and {
                    self.emit(IrOp::JumpIfFalseKeep(usize::MAX));
                } else {
                    self.emit(IrOp::JumpIfTrueKeep(usize::MAX));
                }
                let rt = self.expr(right, Some(&Type::Bool))?;
                if !matches!(rt, Type::Bool) {
                    return Err(type_error("logical operators require bool"));
                }
                let end: usize = self.here();
                if and {
                    self.patch(jump, IrOp::JumpIfFalseKeep(end));
                } else {
                    self.patch(jump, IrOp::JumpIfTrueKeep(end));
                }
                Ok(Type::Bool)
            },
            _ => Err(type_error("logical operators require bool")),
        }
    }

    fn operator(&mut self, op: BinOp, ty: Type) -> (r: Result<Type, Error>)
        ensures
            final(self).ctx() == old(self).ctx(),
            match r {
                Ok(t) => same(
                    operator_code(old(self).state(), op, ty@),
                    Ok::<(State, TypeView), ErrorView>((final(self).state(), t@)),
                ),
                Err(e) => same(
                    operator_code(old(self).state(), op, ty@),
                    Err::<(State, TypeView), ErrorView>(e@),
                ),
            },
    {
        match op {
            BinOp::Add | BinOp::Sub | BinOp::Mul | BinOp::Div | BinOp::Mod => {
                if matches!(op, BinOp::Add) && matches!(ty, Type::String) {
                    self.emit(IrOp::ConcatString);
                    return Ok(Type::String);
                }
                if !is_numeric(&ty) {
                    return Err(type_error("arithmetic requires numeric types"));
                }
                if matches!(op, BinOp::Add) && matches!(ty, Type::I32) {
                    self.emit(IrOp::AddI32);
                } else if matches!(op, BinOp::Add) && matches!(ty, Type::F32) {
                    self.emit(IrOp::AddF32);
                } else if matches!(op, BinOp::Add) && matches!(ty, Type::F64) {
                    self.emit(IrOp::AddF64);
                } else {
                    let opcode = opcode_for(op, &ty)?;
                    self.emit(IrOp::Binary(opcode));
                }
                Ok(ty)
            },
            BinOp::BitAnd | BinOp::BitOr | BinOp::BitXor | BinOp::Shl | BinOp::Shr => {
                if !is_integer(&ty) {
                    return Err(type_error("bitwise operations require integer types"));
                }
                let opcode = opcode_for(op, &ty)?;
                self.emit(IrOp::Binary(opcode));
                Ok(ty)
            },
            BinOp::Lt | BinOp::Le | BinOp::Gt | BinOp::Ge => {
                if !is_numeric(&ty) {
                    return Err(type_error("comparisons require numeric types"));
                }
                let opcode = opcode_for(op, &ty)?;
                self.emit(IrOp::Binary(opcode));
                Ok(Type::Bool)
            },
            BinOp::Eq | BinOp::Neq => {
                let opcode = opcode_for(op, &ty)?;
                self.emit(IrOp::Binary(opcode));
                Ok(Type::Bool)
            },
            BinOp::And | BinOp::Or => {
                let opcode = opcode_for(op, &ty)?;
                self.emit(IrOp::Binary(opcode));
                Ok(ty)
            },
        }
    }

    #[verifier::spinoff_prover]
    fn binary(&mut self, expr: &Expr, expected: Option<&Type>) -> (r: Result<Type, Error>)
        requires
            expr is Binary,
        ensures
            final(self).ctx() == old(self).ctx(),
            match r {
                Ok(t) => same(
                    binary_code(old(self).ctx(), old(self).state(), expr@, type_option(expected)),
                    Ok::<(State, TypeView), ErrorView>((final(self).state(), t@)),
                ),
                Err(e) => {
                    &&& same(
                        binary_code(old(self).ctx(), old(self).state(), expr@, type_option(expected)),
                        Err::<(State, TypeView), ErrorView>(e@),
                    )
                    &&& (
                        expr@ matches ExprView::Binary(left, op, _)
                        && !(op is And || op is Or)
                        && refused_at_once(
                            old(self).ctx(),
                            old(self).state(),
                            *left,
                            expected_left(op, type_option(expected)),
                        )
                    ) ==> same(final(self).state(), old(self).state())
                },
            },
        decreases remaining(old(self).ctx().files, old(self).ctx().compiling), 0int, *expr, 40int,
    {
        match expr {
            Expr::Binary(left, op, right) => {
                let left_expected: Option<&Type> = match op {
                    BinOp::Eq | BinOp::Neq | BinOp::Lt | BinOp::Le | BinOp::Gt | BinOp::Ge => None,
                    _ => expected,
                };
                let lt = self.expr(left, left_expected)?;
                let rt = self.expr(right, Some(&lt))?;
                if !types_compatible(&lt, &rt) {
                    return Err(
                        Error::Type(
                            cat6(
                                "operator ",
                                op.to_text(),
                                " needs matching types, got ",
                                lt.to_text().as_str(),
                                " and ",
                                rt.to_text().as_str(),
                            ),
                        ),
                    );
                }
                self.operator(*op, lt)
            },
            _ => Err(type_error("")),
        }
    }

    #[verifier::spinoff_prover]
    fn items(&mut self, items: &Vec<Expr>, from: usize, element: &Type) -> (r: Result<(), Error>)
        requires
            from <= items@.len(),
        ensures
            final(self).ctx() == old(self).ctx(),
            match r {
                Ok(t) => same(
                    items_code(
                        old(self).ctx(),
                        old(self).state(),
                        views(items@),
                        from as int,
                        element@,
                    ),
                    Ok::<State, ErrorView>(final(self).state()),
                ),
                Err(e) => {
                    &&& same(
                        items_code(
                            old(self).ctx(),
                            old(self).state(),
                            views(items@),
                            from as int,
                            element@,
                        ),
                        Err::<State, ErrorView>(e@),
                    )
                    &&& (
                        from < items@.len()
                        && refused_at_once(
                            old(self).ctx(),
                            old(self).state(),
                            items@[from as int]@,
                            Some(element@),
                        )
                    ) ==> same(final(self).state(), old(self).state())
                },
            },
        decreases remaining(old(self).ctx().files, old(self).ctx().compiling), 0int, *items, 0int,
    {
        let ghost start = *self;
        let mut i: usize = from;
        while i < items.len()
            invariant
                start == *old(self),
                i <= items@.len(),
                self.ctx() == start.ctx(),
                same(
                    items_code(start.ctx(), start.state(), views(items@), from as int, element@),
                    items_code(self.ctx(), self.state(), views(items@), i as int, element@),
                ),
                from <= i,
                i == from ==> self.state() == start.state(),
                from < i ==> !refused_at_once(
                    start.ctx(),
                    start.state(),
                    items@[from as int]@,
                    Some(element@),
                ),
            decreases items@.len() - i,
        {
            assert(views(items@)[i as int] == items@[i as int]@);
            assert(decreases_to!(*items => items@));
            assert(decreases_to!(items@ => items@[i as int]));
            let found = self.expr(&items[i], Some(element))?;
            if !types_compatible(element, &found) {
                return Err(mismatch_error("array item is ", &found, "; expected ", element));
            }
            i += 1;
        }
        Ok(())
    }

    #[verifier::spinoff_prover]
    fn array(&mut self, items: &Vec<Expr>, expected: Option<&Type>) -> (r: Result<Type, Error>)
        ensures
            final(self).ctx() == old(self).ctx(),
            match r {
                Ok(t) => same(
                    array_code(
                        old(self).ctx(),
                        old(self).state(),
                        views(items@),
                        type_option(expected),
                    ),
                    Ok::<(State, TypeView), ErrorView>((final(self).state(), t@)),
                ),
                Err(e) => {
                    &&& same(
                        array_code(
                            old(self).ctx(),
                            old(self).state(),
                            views(items@),
                            type_option(expected),
                        ),
                        Err::<(State, TypeView), ErrorView>(e@),
                    )
                    &&& array_refused(
                        old(self).ctx(),
                        old(self).state(),
                        views(items@),
                        type_option(expected),
                    ) ==> same(final(self).state(), old(self).state())
                },
            },
        decreases remaining(old(self).ctx().files, old(self).ctx().compiling), 0int, *items, 1int,
    {
        let mut from: usize = 0;
        let element: Type = match expected {
            Some(Type::Array(inner)) => (**inner).clone(),
            Some(other) => {
                return Err(
                    Error::Type(
                        cat3(
                            "expected ",
                            other.to_text().as_str(),
                            ", but array literal creates a vector",
                        ),
                    ),
                );
            },
            None => {
                if items.len() == 0 {
                    return Err(type_error("cannot infer the element type of an empty array"));
                }
                from = 1;
                assert(views(items@)[0] == items@[0]@);
                assert(decreases_to!(*items => items@));
                assert(decreases_to!(items@ => items@[0]));
                self.expr(&items[0], None)?
            },
        };
        let _size: usize = scalar_size(&element)?;
        self.items(items, from, &element)?;
        assert(views(items@).len() == items.len());
        self.emit(IrOp::MakeArray(items.len(), Rc::new(element.clone())));
        Ok(Type::Array(Box::new(element)))
    }

    #[verifier::spinoff_prover]
    fn table_key(&mut self, key: &Expr) -> (r: Result<(), Error>)
        ensures
            final(self).ctx() == old(self).ctx(),
            match r {
                Ok(t) => same(
                    key_code(old(self).ctx(), old(self).state(), key@),
                    Ok::<State, ErrorView>(final(self).state()),
                ),
                Err(e) => same(
                    key_code(old(self).ctx(), old(self).state(), key@),
                    Err::<State, ErrorView>(e@),
                ),
            },
        decreases remaining(old(self).ctx().files, old(self).ctx().compiling), 0int, *key, 51int,
    {
        let ty = self.expr(key, None)?;
        if is_integer(&ty) || matches!(ty, Type::String | Type::TableKey) {
            Ok(())
        } else {
            Err(type_error("table key must be an integer or string"))
        }
    }

    #[verifier::spinoff_prover]
    fn literal_key(&mut self, key: &TableLiteralKey) -> (r: Result<TableEntry, Error>)
        ensures
            final(self).ctx() == old(self).ctx(),
            match r {
                Ok(t) => same(
                    literal_key_code(old(self).ctx(), old(self).state(), key@),
                    Ok::<(State, EntryView), ErrorView>((final(self).state(), t@)),
                ),
                Err(e) => same(
                    literal_key_code(old(self).ctx(), old(self).state(), key@),
                    Err::<(State, EntryView), ErrorView>(e@),
                ),
            },
        decreases remaining(old(self).ctx().files, old(self).ctx().compiling), 0int, *key, 0int,
    {
        match key {
            TableLiteralKey::Name(name) => Ok(TableEntry::Name(self.intern_name(name))),
            TableLiteralKey::Index(index) => {
                self.table_key(index)?;
                Ok(TableEntry::Index)
            },
        }
    }

    #[verifier::spinoff_prover]
    fn table_entries(
        &mut self,
        items: &Vec<(TableLiteralKey, Expr)>,
        element: &Type,
    ) -> (r: Result<Vec<TableEntry>, Error>)
        ensures
            final(self).ctx() == old(self).ctx(),
            match r {
                Ok(t) => same(
                    entries_code(
                        old(self).ctx(),
                        old(self).state(),
                        views(items@),
                        0,
                        element@,
                        Seq::empty(),
                    ),
                    Ok::<(State, Seq<EntryView>), ErrorView>((final(self).state(), views(t@))),
                ),
                Err(e) => same(
                    entries_code(
                        old(self).ctx(),
                        old(self).state(),
                        views(items@),
                        0,
                        element@,
                        Seq::empty(),
                    ),
                    Err::<(State, Seq<EntryView>), ErrorView>(e@),
                ),
            },
        decreases remaining(old(self).ctx().files, old(self).ctx().compiling), 0int, *items, 0int,
    {
        let ghost start = *self;
        let mut entries: Vec<TableEntry> = Vec::new();
        let mut i: usize = 0;
        while i < items.len()
            invariant
                start == *old(self),
                i <= items@.len(),
                self.ctx() == start.ctx(),
                same(
                    entries_code(
                        start.ctx(),
                        start.state(),
                        views(items@),
                        0,
                        element@,
                        Seq::empty(),
                    ),
                    entries_code(
                        self.ctx(),
                        self.state(),
                        views(items@),
                        i as int,
                        element@,
                        views(entries@),
                    ),
                ),
            decreases items@.len() - i,
        {
            assert(views(items@)[i as int] == items@[i as int]@);
            assert(decreases_to!(*items => items@));
            assert(decreases_to!(items@ => items@[i as int]));
            assert(decreases_to!(items@[i as int] => items@[i as int].0));
            assert(decreases_to!(items@[i as int] => items@[i as int].1));
            let entry = self.literal_key(&items[i].0)?;
            entries.push(entry);
            let found = self.expr(&items[i].1, Some(element))?;
            if !types_compatible(element, &found) {
                return Err(mismatch_error("table value is ", &found, "; expected ", element));
            }
            i += 1;
        }
        Ok(entries)
    }

    #[verifier::spinoff_prover]
    fn table(
        &mut self,
        items: &Vec<(TableLiteralKey, Expr)>,
        expected: Option<&Type>,
    ) -> (r: Result<Type, Error>)
        ensures
            final(self).ctx() == old(self).ctx(),
            match r {
                Ok(t) => same(
                    table_code(
                        old(self).ctx(),
                        old(self).state(),
                        views(items@),
                        type_option(expected),
                    ),
                    Ok::<(State, TypeView), ErrorView>((final(self).state(), t@)),
                ),
                Err(e) => {
                    &&& same(
                        table_code(
                            old(self).ctx(),
                            old(self).state(),
                            views(items@),
                            type_option(expected),
                        ),
                        Err::<(State, TypeView), ErrorView>(e@),
                    )
                    &&& (
                        !(expected is Some
                        && expected.unwrap()@ is Table)
                    ) ==> same(final(self).state(), old(self).state())
                },
            },
        decreases remaining(old(self).ctx().files, old(self).ctx().compiling), 0int, *items, 1int,
    {
        match expected {
            Some(Type::Table(inner)) => {
                let element: Type = (**inner).clone();
                let entries = self.table_entries(items, &element)?;
                self.emit(IrOp::MakeTable(Rc::new(entries), Rc::new(element.clone())));
                Ok(Type::Table(Box::new(element)))
            },
            _ => Err(type_error("table needs an explicit value type, e.g. table<i32>")),
        }
    }

    #[verifier::spinoff_prover]
    fn tensor_factory(
        &mut self,
        name: &String,
        element: &Type,
        shape: &Expr,
        expected: Option<&Type>,
    ) -> (r: Result<Type, Error>)
        ensures
            final(self).ctx() == old(self).ctx(),
            match r {
                Ok(t) => same(
                    tensor_code(
                        old(self).ctx(),
                        old(self).state(),
                        name@,
                        element@,
                        shape@,
                        type_option(expected),
                    ),
                    Ok::<(State, TypeView), ErrorView>((final(self).state(), t@)),
                ),
                Err(e) => {
                    &&& same(
                        tensor_code(
                            old(self).ctx(),
                            old(self).state(),
                            name@,
                            element@,
                            shape@,
                            type_option(expected),
                        ),
                        Err::<(State, TypeView), ErrorView>(e@),
                    )
                    &&& tensor_refused(
                        old(self).ctx(),
                        old(self).state(),
                        element@,
                        shape@,
                        type_option(expected),
                    ) ==> same(final(self).state(), old(self).state())
                },
            },
        decreases remaining(old(self).ctx().files, old(self).ctx().compiling), 0int, *shape, 51int,
    {
        match expected {
            None => Err(
                Error::Type(
                    cat4(
                        name.as_str(),
                        "<T> needs an expected tensor type, e.g. let x: tensor<f32, 2> = ",
                        name.as_str(),
                        "<f32>([2, 3])",
                    ),
                ),
            ),
            Some(Type::Tensor(expected_element, rank)) => {
                if !expected_element.same(element) {
                    return Err(
                        Error::Type(
                            cat5(
                                name.as_str(),
                                " element type is ",
                                element.to_text().as_str(),
                                "; expected ",
                                expected_element.to_text().as_str(),
                            ),
                        ),
                    );
                }
                let shape_type = Type::Array(Box::new(Type::U64));
                assert(Type::U64@ == TypeView::U64);
                let found = self.expr(shape, Some(&shape_type))?;
                if !found.same(&shape_type) {
                    return Err(type_error("tensor shape must be vector<u64>"));
                }
                let zeros: bool = text_eq(name.as_str(), "zeros");
                if !zeros && !is_float(element) {
                    return Err(
                        type_error("random<T> supports f16, bf16, f32, and f64 tensors only"),
                    );
                }
                let init = if zeros {
                    TensorInit::Zeros
                } else {
                    TensorInit::Random
                };
                self.emit(IrOp::MakeTensor(init, Rc::new(element.clone()), *rank));
                Ok(Type::Tensor(Box::new(element.clone()), *rank))
            },
            Some(_) => Err(
                Error::Type(
                    cat4(
                        name.as_str(),
                        "<",
                        element.to_text().as_str(),
                        "> creates a tensor, but the expected type is not tensor",
                    ),
                ),
            ),
        }
    }

    #[verifier::spinoff_prover]
    fn initializers(
        &mut self,
        name: &String,
        layout: &Vec<StructField>,
        fields: &Vec<(String, Expr)>,
    ) -> (r: Result<(), Error>)
        ensures
            final(self).ctx() == old(self).ctx(),
            match r {
                Ok(t) => same(
                    initializers_code(
                        old(self).ctx(),
                        old(self).state(),
                        name@,
                        views(layout@),
                        0,
                        views(fields@),
                    ),
                    Ok::<State, ErrorView>(final(self).state()),
                ),
                Err(e) => same(
                    initializers_code(
                        old(self).ctx(),
                        old(self).state(),
                        name@,
                        views(layout@),
                        0,
                        views(fields@),
                    ),
                    Err::<State, ErrorView>(e@),
                ),
            },
        decreases remaining(old(self).ctx().files, old(self).ctx().compiling), 0int, *fields, 0int,
    {
        let ghost start = *self;
        let mut k: usize = 0;
        while k < layout.len()
            invariant
                start == *old(self),
                k <= layout@.len(),
                self.ctx() == start.ctx(),
                same(
                    initializers_code(
                        start.ctx(),
                        start.state(),
                        name@,
                        views(layout@),
                        0,
                        views(fields@),
                    ),
                    initializers_code(
                        self.ctx(),
                        self.state(),
                        name@,
                        views(layout@),
                        k as int,
                        views(fields@),
                    ),
                ),
            decreases layout@.len() - k,
        {
            assert(views(layout@)[k as int] == layout@[k as int]@);
            let j: usize = initializer_of(fields, &layout[k].name);
            if j >= fields.len() {
                return Err(
                    Error::Type(
                        cat5(
                            "struct '",
                            name.as_str(),
                            "' is missing field '",
                            layout[k].name.as_str(),
                            "'",
                        ),
                    ),
                );
            }
            assert(views(fields@)[j as int] == fields@[j as int]@);
            assert(decreases_to!(*fields => fields@));
            assert(decreases_to!(fields@ => fields@[j as int]));
            assert(decreases_to!(fields@[j as int] => fields@[j as int].1));
            let found = self.expr(&fields[j].1, Some(&layout[k].ty))?;
            if !types_compatible(&layout[k].ty, &found) {
                return Err(
                    Error::Type(
                        cat6(
                            "field '",
                            layout[k].name.as_str(),
                            "' is ",
                            found.to_text().as_str(),
                            "; expected ",
                            layout[k].ty.to_text().as_str(),
                        ),
                    ),
                );
            }
            k += 1;
        }
        Ok(())
    }

    #[verifier::spinoff_prover]
    fn struct_literal(
        &mut self,
        name: &String,
        fields: &Vec<(String, Expr)>,
        expected: Option<&Type>,
    ) -> (r: Result<Type, Error>)
        ensures
            final(self).ctx() == old(self).ctx(),
            match r {
                Ok(t) => same(
                    struct_code(
                        old(self).ctx(),
                        old(self).state(),
                        name@,
                        views(fields@),
                        type_option(expected),
                    ),
                    Ok::<(State, TypeView), ErrorView>((final(self).state(), t@)),
                ),
                Err(e) => {
                    &&& same(
                        struct_code(
                            old(self).ctx(),
                            old(self).state(),
                            name@,
                            views(fields@),
                            type_option(expected),
                        ),
                        Err::<(State, TypeView), ErrorView>(e@),
                    )
                    &&& struct_refused(
                        old(self).state(),
                        name@,
                        views(fields@),
                        type_option(expected),
                    ) ==> same(final(self).state(), old(self).state())
                },
            },
        decreases remaining(old(self).ctx().files, old(self).ctx().compiling), 0int, *fields, 1int,
    {
        let layout: StructLayout = match self.structs.get(name) {
            Some(layout) => layout.clone(),
            None => {
                return Err(unknown_struct_error(name.as_str()));
            },
        };
        if let Some(t) = expected {
            let own = Type::Struct(name.clone());
            if !t.same(&own) {
                return Err(
                    Error::Type(
                        cat4("expected ", t.to_text().as_str(), ", got ", name.as_str()),
                    ),
                );
            }
        }
        assert(layout@.fields.len() == layout.fields@.len());
        assert(views(fields@).len() == fields@.len());
        if fields.len() != layout.fields.len() {
            return Err(
                Error::Type(
                    cat5(
                        "struct '",
                        name.as_str(),
                        "' needs ",
                        usize_text(layout.fields.len()).as_str(),
                        " field(s)",
                    ),
                ),
            );
        }
        if let Some(field) = repeated_initializer_of(fields) {
            return Err(
                Error::Type(
                    cat5(
                        "struct '",
                        name.as_str(),
                        "' initializes field '",
                        field.as_str(),
                        "' more than once",
                    ),
                ),
            );
        }
        self.initializers(name, &layout.fields, fields)?;
        self.emit(IrOp::MakeStruct(Rc::new(layout)));
        Ok(Type::Struct(name.clone()))
    }

    #[verifier::spinoff_prover]
    fn indices(&mut self, indices: &Vec<Expr>) -> (r: Result<(), Error>)
        ensures
            final(self).ctx() == old(self).ctx(),
            match r {
                Ok(t) => same(
                    indices_code(old(self).ctx(), old(self).state(), views(indices@), 0),
                    Ok::<State, ErrorView>(final(self).state()),
                ),
                Err(e) => same(
                    indices_code(old(self).ctx(), old(self).state(), views(indices@), 0),
                    Err::<State, ErrorView>(e@),
                ),
            },
        decreases remaining(old(self).ctx().files, old(self).ctx().compiling), 0int, *indices, 0int,
    {
        let ghost start = *self;
        let mut i: usize = 0;
        while i < indices.len()
            invariant
                start == *old(self),
                i <= indices@.len(),
                self.ctx() == start.ctx(),
                same(
                    indices_code(start.ctx(), start.state(), views(indices@), 0),
                    indices_code(self.ctx(), self.state(), views(indices@), i as int),
                ),
            decreases indices@.len() - i,
        {
            assert(views(indices@)[i as int] == indices@[i as int]@);
            assert(decreases_to!(*indices => indices@));
            assert(decreases_to!(indices@ => indices@[i as int]));
            let ty = self.expr(&indices[i], None)?;
            if !is_integer(&ty) {
                return Err(type_error("tensor index must be an integer"));
            }
            i += 1;
        }
        Ok(())
    }

    #[verifier::spinoff_prover]
    fn index(&mut self, ty: &Type, indices: &Vec<Expr>) -> (r: Result<Type, Error>)
        ensures
            final(self).ctx() == old(self).ctx(),
            match r {
                Ok(t) => same(
                    index_code(old(self).ctx(), old(self).state(), ty@, views(indices@)),
                    Ok::<(State, TypeView), ErrorView>((final(self).state(), t@)),
                ),
                Err(e) => same(
                    index_code(old(self).ctx(), old(self).state(), ty@, views(indices@)),
                    Err::<(State, TypeView), ErrorView>(e@),
                ),
            },
        decreases remaining(old(self).ctx().files, old(self).ctx().compiling), 0int, *indices, 1int,
    {
        assert(views(indices@).len() == indices@.len());
        match ty {
            Type::Array(element) => {
                if indices.len() != 1 {
                    return Err(type_error("vector indexing requires exactly one index"));
                }
                self.indices(indices)?;
                self.emit(IrOp::Index);
                Ok((**element).clone())
            },
            Type::Table(element) => {
                if indices.len() != 1 {
                    return Err(type_error("table indexing requires exactly one index"));
                }
                assert(views(indices@)[0] == indices@[0]@);
                assert(decreases_to!(*indices => indices@));
                assert(decreases_to!(indices@ => indices@[0]));
                self.table_key(&indices[0])?;
                self.emit(IrOp::TableIndex);
                Ok((**element).clone())
            },
            Type::TableKeys => {
                if indices.len() != 1 {
                    return Err(type_error("table_keys indexing requires exactly one index"));
                }
                self.indices(indices)?;
                self.emit(IrOp::TableKeysIndex);
                Ok(Type::TableKey)
            },
            Type::Tensor(element, rank) => {
                if indices.len() != *rank {
                    return Err(rank_mismatch(*rank));
                }
                self.indices(indices)?;
                if matches!(**element, Type::F32) {
                    self.emit(IrOp::TensorIndexF32(*rank));
                } else {
                    self.emit(IrOp::TensorIndex(Rc::new((**element).clone()), *rank));
                }
                Ok((**element).clone())
            },
            _ => Err(Error::Type(cat2("cannot index ", ty.to_text().as_str()))),
        }
    }

    fn field(&mut self, ty: &Type, field: &String) -> (r: Result<Type, Error>)
        ensures
            final(self).ctx() == old(self).ctx(),
            match r {
                Ok(t) => same(
                    field_code(old(self).state(), ty@, field@),
                    Ok::<(State, TypeView), ErrorView>((final(self).state(), t@)),
                ),
                Err(e) => same(
                    field_code(old(self).state(), ty@, field@),
                    Err::<(State, TypeView), ErrorView>(e@),
                ),
            },
    {
        match ty {
            Type::Struct(struct_name) => {
                let found = self.struct_field(struct_name, field)?;
                let field_type = found.ty.clone();
                self.emit(IrOp::Field(Rc::new(found)));
                Ok(field_type)
            },
            Type::Table(element) => {
                let name = self.intern_name(field);
                self.emit(IrOp::TableField(name));
                Ok((**element).clone())
            },
            Type::Module(id) => {
                let value_type: Type = match self.module_artifacts.get(id) {
                    None => {
                        return Err(runtime_error("missing compiled module"));
                    },
                    Some(module) => match export_named(&module.exports, field) {
                        None => {
                            return Err(
                                Error::Type(
                                    cat3("module has no exported value '", field.as_str(), "'"),
                                ),
                            );
                        },
                        Some(ModuleExport::Value { ty, .. }) => ty.clone(),
                        Some(_) => {
                            return Err(
                                Error::Type(
                                    cat3("'", field.as_str(), "' is not an exported module value"),
                                ),
                            );
                        },
                    },
                };
                let name = self.intern_name(field);
                self.emit(IrOp::ModuleField(name));
                Ok(value_type)
            },
            _ => Err(type_error("field access requires a struct, table, or module")),
        }
    }

    #[verifier::spinoff_prover]
    fn arguments(
        &mut self,
        name: &String,
        args: &Vec<Expr>,
        types: &Vec<Type>,
    ) -> (r: Result<(), Error>)
        ensures
            final(self).ctx() == old(self).ctx(),
            match r {
                Ok(t) => same(
                    arguments_code(
                        old(self).ctx(),
                        old(self).state(),
                        name@,
                        views(args@),
                        views(types@),
                        0,
                    ),
                    Ok::<State, ErrorView>(final(self).state()),
                ),
                Err(e) => {
                    &&& same(
                        arguments_code(
                            old(self).ctx(),
                            old(self).state(),
                            name@,
                            views(args@),
                            views(types@),
                            0,
                        ),
                        Err::<State, ErrorView>(e@),
                    )
                    &&& (
                        args@.len() == types@.len()
                        && first_refused(
                            old(self).ctx(),
                            old(self).state(),
                            views(args@),
                            Some(views(types@)[0]),
                        )
                    ) ==> same(final(self).state(), old(self).state())
                },
            },
        decreases remaining(old(self).ctx().files, old(self).ctx().compiling), 0int, *args, 0int,
    {
        let ghost start = *self;
        let mut i: usize = 0;
        assert(views(types@).len() == types@.len());
        while i < args.len() && i < types.len()
            invariant
                start == *old(self),
                i <= args@.len(),
                i <= types@.len(),
                self.ctx() == start.ctx(),
                same(
                    arguments_code(
                        start.ctx(),
                        start.state(),
                        name@,
                        views(args@),
                        views(types@),
                        0,
                    ),
                    arguments_code(
                        self.ctx(),
                        self.state(),
                        name@,
                        views(args@),
                        views(types@),
                        i as int,
                    ),
                ),
                i == 0 ==> self.state() == start.state(),
                0 < i ==> !refused_at_once(
                    start.ctx(),
                    start.state(),
                    views(args@)[0],
                    Some(views(types@)[0]),
                ),
            decreases args@.len() - i,
        {
            assert(views(args@)[i as int] == args@[i as int]@);
            assert(decreases_to!(*args => args@));
            assert(decreases_to!(args@ => args@[i as int]));
            assert(views(types@)[i as int] == types@[i as int]@);
            let found = self.expr(&args[i], Some(&types[i]))?;
            if !types_compatible(&types[i], &found) {
                let before = cat2(name.as_str(), " argument is ");
                return Err(mismatch_error(before.as_str(), &found, "; expected ", &types[i]));
            }
            i += 1;
        }
        Ok(())
    }

    #[verifier::spinoff_prover]
    fn builtin1(
        &mut self,
        name: &String,
        function: BuiltinFn,
        args: &Vec<Expr>,
        expected: Option<&Type>,
    ) -> (r: Result<Type, Error>)
        ensures
            final(self).ctx() == old(self).ctx(),
            match r {
                Ok(t) => same(
                    builtin1_code(
                        old(self).ctx(),
                        old(self).state(),
                        name@,
                        function,
                        views(args@),
                        type_option(expected),
                    ),
                    Ok::<(State, TypeView), ErrorView>((final(self).state(), t@)),
                ),
                Err(e) => {
                    &&& same(
                        builtin1_code(
                            old(self).ctx(),
                            old(self).state(),
                            name@,
                            function,
                            views(args@),
                            type_option(expected),
                        ),
                        Err::<(State, TypeView), ErrorView>(e@),
                    )
                    &&& builtin_refused(
                        old(self).ctx(),
                        old(self).state(),
                        views(args@),
                        1,
                        type_option(expected),
                    ) ==> same(final(self).state(), old(self).state())
                },
            },
        decreases remaining(old(self).ctx().files, old(self).ctx().compiling), 0int, *args, 0int,
    {
        assert(views(args@).len() == args@.len());
        if args.len() != 1 {
            return Err(Error::Type(cat2(name.as_str(), " expects 1 argument")));
        }
        assert(views(args@)[0 as int] == args@[0 as int]@);
        assert(decreases_to!(*args => args@));
        assert(decreases_to!(args@ => args@[0 as int]));
        let ty = self.expr(&args[0], expected)?;
        if matches!(function, BuiltinFn::Abs) {
            if !is_numeric(&ty) {
                return Err(type_error("abs requires a numeric argument"));
            }
        } else if !is_float(&ty) {
            return Err(
                Error::Type(
                    cat3(
                        name.as_str(),
                        " requires a float argument, got ",
                        ty.to_text().as_str(),
                    ),
                ),
            );
        }
        self.emit(IrOp::Builtin1(function, Rc::new(ty.clone())));
        Ok(ty)
    }

    #[verifier::spinoff_prover]
    fn builtin2(
        &mut self,
        name: &String,
        function: BuiltinFn,
        args: &Vec<Expr>,
        expected: Option<&Type>,
    ) -> (r: Result<Type, Error>)
        ensures
            final(self).ctx() == old(self).ctx(),
            match r {
                Ok(t) => same(
                    builtin2_code(
                        old(self).ctx(),
                        old(self).state(),
                        name@,
                        function,
                        views(args@),
                        type_option(expected),
                    ),
                    Ok::<(State, TypeView), ErrorView>((final(self).state(), t@)),
                ),
                Err(e) => {
                    &&& same(
                        builtin2_code(
                            old(self).ctx(),
                            old(self).state(),
                            name@,
                            function,
                            views(args@),
                            type_option(expected),
                        ),
                        Err::<(State, TypeView), ErrorView>(e@),
                    )
                    &&& builtin_refused(
                        old(self).ctx(),
                        old(self).state(),
                        views(args@),
                        2,
                        type_option(expected),
                    ) ==> same(final(self).state(), old(self).state())
                },
            },
        decreases remaining(old(self).ctx().files, old(self).ctx().compiling), 0int, *args, 0int,
    {
        assert(views(args@).len() == args@.len());
        if args.len() != 2 {
            return Err(Error::Type(cat2(name.as_str(), " expects 2 arguments")));
        }
        assert(views(args@)[0 as int] == args@[0 as int]@);
        assert(decreases_to!(*args => args@));
        assert(decreases_to!(args@ => args@[0 as int]));
        assert(views(args@)[1 as int] == args@[1 as int]@);
        assert(decreases_to!(*args => args@));
        assert(decreases_to!(args@ => args@[1 as int]));
        let t1 = self.expr(&args[0], expected)?;
        let t2 = self.expr(&args[1], Some(&t1))?;
        if !types_compatible(&t1, &t2) {
            return Err(Error::Type(cat2(name.as_str(), " arguments must have same type")));
        }
        if matches!(function, BuiltinFn::Atan2) && !is_float(&t1) {
            return Err(type_error("atan2 requires float arguments"));
        }
        self.emit(IrOp::Builtin2(function, Rc::new(t1.clone())));
        Ok(t1)
    }

    #[verifier::spinoff_prover]
    fn len_call(&mut self, args: &Vec<Expr>) -> (r: Result<Type, Error>)
        ensures
            final(self).ctx() == old(self).ctx(),
            match r {
                Ok(t) => same(
                    len_code(old(self).ctx(), old(self).state(), views(args@)),
                    Ok::<(State, TypeView), ErrorView>((final(self).state(), t@)),
                ),
                Err(e) => {
                    &&& same(
                        len_code(old(self).ctx(), old(self).state(), views(args@)),
                        Err::<(State, TypeView), ErrorView>(e@),
                    )
                    &&& builtin_refused(
                        old(self).ctx(),
                        old(self).state(),
                        views(args@),
                        1,
                        None,
                    ) ==> same(final(self).state(), old(self).state())
                },
            },
        decreases remaining(old(self).ctx().files, old(self).ctx().compiling), 0int, *args, 0int,
    {
        assert(views(args@).len() == args@.len());
        if args.len() != 1 {
            return Err(type_error("len expects 1 argument"));
        }
        assert(views(args@)[0 as int] == args@[0 as int]@);
        assert(decreases_to!(*args => args@));
        assert(decreases_to!(args@ => args@[0 as int]));
        let ty = self.expr(&args[0], None)?;
        if !matches!(
            ty,
            Type::Array(_) | Type::String | Type::Table(_) | Type::TableKeys | Type::Tensor(_, _)
                | Type::DArray | Type::DTensor
        ) {
            return Err(
                Error::Type(
                    cat2(
                        "len requires a vector, string, table, table_keys, or tensor, got ",
                        ty.to_text().as_str(),
                    ),
                ),
            );
        }
        self.emit(IrOp::Len);
        Ok(Type::I32)
    }

    #[verifier::spinoff_prover]
    fn keys_call(&mut self, args: &Vec<Expr>) -> (r: Result<Type, Error>)
        ensures
            final(self).ctx() == old(self).ctx(),
            match r {
                Ok(t) => same(
                    keys_code(old(self).ctx(), old(self).state(), views(args@)),
                    Ok::<(State, TypeView), ErrorView>((final(self).state(), t@)),
                ),
                Err(e) => {
                    &&& same(
                        keys_code(old(self).ctx(), old(self).state(), views(args@)),
                        Err::<(State, TypeView), ErrorView>(e@),
                    )
                    &&& builtin_refused(
                        old(self).ctx(),
                        old(self).state(),
                        views(args@),
                        1,
                        None,
                    ) ==> same(final(self).state(), old(self).state())
                },
            },
        decreases remaining(old(self).ctx().files, old(self).ctx().compiling), 0int, *args, 0int,
    {
        assert(views(args@).len() == args@.len());
        if args.len() != 1 {
            return Err(type_error("keys expects 1 argument"));
        }
        assert(views(args@)[0 as int] == args@[0 as int]@);
        assert(decreases_to!(*args => args@));
        assert(decreases_to!(args@ => args@[0 as int]));
        let ty = self.expr(&args[0], None)?;
        if !matches!(ty, Type::Table(_)) {
            return Err(Error::Type(cat2("keys requires a table, got ", ty.to_text().as_str())));
        }
        self.emit(IrOp::TableKeys);
        Ok(Type::TableKeys)
    }

    #[verifier::spinoff_prover]
    fn remove_call(&mut self, args: &Vec<Expr>) -> (r: Result<Type, Error>)
        ensures
            final(self).ctx() == old(self).ctx(),
            match r {
                Ok(t) => same(
                    remove_code(old(self).ctx(), old(self).state(), views(args@)),
                    Ok::<(State, TypeView), ErrorView>((final(self).state(), t@)),
                ),
                Err(e) => {
                    &&& same(
                        remove_code(old(self).ctx(), old(self).state(), views(args@)),
                        Err::<(State, TypeView), ErrorView>(e@),
                    )
                    &&& builtin_refused(
                        old(self).ctx(),
                        old(self).state(),
                        views(args@),
                        2,
                        None,
                    ) ==> same(final(self).state(), old(self).state())
                },
            },
        decreases remaining(old(self).ctx().files, old(self).ctx().compiling), 0int, *args, 0int,
    {
        assert(views(args@).len() == args@.len());
        if args.len() != 2 {
            return Err(type_error("remove expects 2 arguments"));
        }
        assert(views(args@)[0 as int] == args@[0 as int]@);
        assert(decreases_to!(*args => args@));
        assert(decreases_to!(args@ => args@[0 as int]));
        assert(views(args@)[1 as int] == args@[1 as int]@);
        assert(decreases_to!(*args => args@));
        assert(decreases_to!(args@ => args@[1 as int]));
        let ty = self.expr(&args[0], None)?;
        if !matches!(ty, Type::Table(_)) {
            return Err(
                Error::Type(
                    cat2(
                        "remove requires a table as its first argument, got ",
                        ty.to_text().as_str(),
                    ),
                ),
            );
        }
        self.table_key(&args[1])?;
        self.emit(IrOp::TableRemove);
        Ok(Type::Bool)
    }

    #[verifier::spinoff_prover]
    fn extern_call(&mut self, name: &String, args: &Vec<Expr>) -> (r: Result<Type, Error>)
        ensures
            final(self).ctx() == old(self).ctx(),
            match r {
                Ok(t) => same(
                    extern_code(old(self).ctx(), old(self).state(), name@, views(args@)),
                    Ok::<(State, TypeView), ErrorView>((final(self).state(), t@)),
                ),
                Err(e) => {
                    &&& same(
                        extern_code(old(self).ctx(), old(self).state(), name@, views(args@)),
                        Err::<(State, TypeView), ErrorView>(e@),
                    )
                    &&& extern_refused(
                        old(self).ctx(),
                        old(self).state(),
                        name@,
                        views(args@),
                    ) ==> same(final(self).state(), old(self).state())
                },
            },
        decreases remaining(old(self).ctx().files, old(self).ctx().compiling), 0int, *args, 1int,
    {
        assert(views(args@).len() == args@.len());
        let signature: HostSignature = match self.extern_functions.get(name) {
            Some(signature) => signature.clone(),
            None => {
                return Err(Error::Type(cat3("unknown function '", name.as_str(), "'")));
            },
        };
        let count: usize = signature.arguments.len();
        assert(signature@.arguments.len() == count);
        if args.len() != count {
            return Err(
                Error::Type(
                    cat4(name.as_str(), " expects ", usize_text(count).as_str(), " argument(s)"),
                ),
            );
        }
        self.arguments(name, args, &signature.arguments)?;
        self.emit(IrOp::CallExternal(Rc::new(name.clone()), count));
        Ok(signature.result)
    }

    #[verifier::spinoff_prover]
    fn call(
        &mut self,
        name: &String,
        args: &Vec<Expr>,
        expected: Option<&Type>,
    ) -> (r: Result<Type, Error>)
        ensures
            final(self).ctx() == old(self).ctx(),
            match r {
                Ok(t) => same(
                    call_code(
                        old(self).ctx(),
                        old(self).state(),
                        name@,
                        views(args@),
                        type_option(expected),
                    ),
                    Ok::<(State, TypeView), ErrorView>((final(self).state(), t@)),
                ),
                Err(e) => {
                    &&& same(
                        call_code(
                            old(self).ctx(),
                            old(self).state(),
                            name@,
                            views(args@),
                            type_option(expected),
                        ),
                        Err::<(State, TypeView), ErrorView>(e@),
                    )
                    &&& call_refused(
                        old(self).ctx(),
                        old(self).state(),
                        name@,
                        views(args@),
                        type_option(expected),
                    ) ==> same(final(self).state(), old(self).state())
                },
            },
        decreases remaining(old(self).ctx().files, old(self).ctx().compiling), 0int, *args, 2int,
    {
        if text_eq(name.as_str(), "len") {
            return self.len_call(args);
        }
        if text_eq(name.as_str(), "keys") {
            return self.keys_call(args);
        }
        if text_eq(name.as_str(), "remove") {
            return self.remove_call(args);
        }
        if let Some(function) = BuiltinFn::unary(name.as_str()) {
            return self.builtin1(name, function, args, expected);
        }
        if let Some(function) = BuiltinFn::binary(name.as_str()) {
            return self.builtin2(name, function, args, expected);
        }
        self.extern_call(name, args)
    }

    /// Compiles the text of a module file.
    #[verifier::spinoff_prover]
    fn compile_source(
        &self,
        id: &String,
        text: &String,
        at: usize,
        node: &Expr,
    ) -> (r: Result<ModuleArtifact, Error>)
        requires
            at < self.ctx().files.len(),
            self.ctx().files[at as int].1 matches FileView::Found { id: found, .. } && found == id@,
            !self.ctx().compiling.contains(id@),
        ensures
            match parsed_module(text@) {
                Err(x) => r is Err && same(r->Err_0@, x),
                Ok((statements, strings)) => {
                    let inner = Context {
                        compiling: self.ctx().compiling.push(id@),
                        strings,
                        ..self.ctx()
                    };
                    match r {
                        Ok(t) => same(
                            compiled_module(inner, id@, empty_state(), statements),
                            Ok::<ArtifactView, ErrorView>(t@),
                        ),
                        Err(e) => same(
                            compiled_module(inner, id@, empty_state(), statements),
                            Err::<ArtifactView, ErrorView>(e@),
                        ),
                    }
                },
            },
        decreases remaining(self.ctx().files, self.ctx().compiling), 0int, *node, 5int,
    {
        let lexed = lex(text.as_str())?;
        let (program, strings) = Parser::new(lexed).into_program()?;
        let mut compiling = crate::views::duplicate_all(&self.compiling);
        compiling.push(id.clone());
        assert(views(compiling@) =~= self.ctx().compiling.push(id@));
        let inner = Compiler {
            rooted: self.rooted,
            files: self.files.clone(),
            compiling,
            extern_functions: self.extern_functions.clone(),
            strings,
            ..Compiler::default()
        };
        proof {
            lemma_remaining_shrinks(self.ctx().files, self.ctx().compiling, id@, at as int);
        }
        inner.compile_module(id.clone(), program)
    }

    fn open_scope(&mut self)
        ensures
            final(self).ctx() == old(self).ctx(),
            same(
                final(self).state(),
                State {
                    nested: true,
                    scopes: old(self).state().scopes.push(Seq::empty()),
                    ..old(self).state()
                },
            ),
    {
        self.scope_depth = self.scope_depth.saturating_add(1);
        let ghost before = self.state().scopes;
        self.scope_stack.push(ScopeContext { destructors: Vec::new() });
        assert(self.scope_stack@.last()@ =~= Seq::<(usize, Seq<char>)>::empty());
        assert(self.state().scopes =~= before.push(Seq::empty()));
    }

    /// Leaves a block with the names, the slot and the nesting from before it.
    fn leave_scope(&mut self, names: Dict<String, (usize, Type)>, next_slot: usize, depth: usize)
        requires
            old(self).state().scopes.len() > 0,
        ensures
            final(self).ctx() == old(self).ctx(),
            same(
                final(self).state(),
                State {
                    names: names@,
                    next_slot,
                    nested: depth > 0,
                    scopes: old(self).state().scopes.drop_last(),
                    ..old(self).state()
                },
            ),
    {
        let ghost before = self.state().scopes;
        let _scope = self.scope_stack.pop();
        assert(self.state().scopes =~= before.drop_last());
        self.names = names;
        self.next_slot = next_slot;
        self.scope_depth = depth;
    }

    /// Makes a module of the runtime itself known.
    fn load_extension(&mut self, requested: &String) -> (r: Rc<ModuleArtifact>)
        ensures
            final(self).ctx() == old(self).ctx(),
            same((*r)@, extension_artifact(requested@)),
            same(
                final(self).state(),
                State {
                    artifacts: old(self).state().artifacts.insert(
                        requested@,
                        extension_artifact(requested@),
                    ),
                    ..old(self).state()
                },
            ),
    {
        let artifact = Rc::new(
            ModuleArtifact {
                id: requested.clone(),
                code: Rc::new(FlatBytecode { words: Vec::new(), constants: Vec::new() }),
                exports: Vec::new(),
            },
        );
        assert(views(artifact.exports@) =~= Seq::empty());
        assert(artifact.code@ == CodeView { words: Seq::empty(), constants: Seq::empty() });
        assert(same((*artifact)@, extension_artifact(requested@)));
        let _known: bool = self.module_artifacts.insert(requested.clone(), artifact.clone());
        artifact
    }

    /// Imports a file that was found: compiles it unless that has been done.
    #[verifier::spinoff_prover]
    fn load_file(
        &mut self,
        requested: &String,
        id: &String,
        source: &Result<String, String>,
        at: usize,
        node: &Expr,
    ) -> (r: Result<Rc<ModuleArtifact>, Error>)
        requires
            !is_extension(requested@),
            old(self).ctx().rooted,
            at < old(self).ctx().files.len(),
            at == find_file(old(self).ctx().files, requested@, 0),
            old(self).ctx().files[at as int].1 == (FileView::Found {
                id: id@,
                source: match *source {
                    Ok(text) => Ok(text@),
                    Err(reason) => Err(reason@),
                },
            }),
        ensures
            final(self).ctx() == old(self).ctx(),
            match r {
                Ok(t) => same(
                    load_module(old(self).ctx(), old(self).state(), requested@, node@),
                    Ok::<(State, ArtifactView), ErrorView>((final(self).state(), (*t)@)),
                ),
                Err(e) => {
                    &&& same(
                        load_module(old(self).ctx(), old(self).state(), requested@, node@),
                        Err::<(State, ArtifactView), ErrorView>(e@),
                    )
                    &&& same(final(self).state(), old(self).state())
                },
            },
        decreases
            remaining(old(self).ctx().files, old(self).ctx().compiling),
            0int,
            *node,
            9int,
    {
        let known: Option<Rc<ModuleArtifact>> = match self.module_artifacts.get(id) {
            Some(artifact) => Some(artifact.clone()),
            None => None,
        };
        if let Some(artifact) = known {
            return Ok(artifact);
        }
        if listed(&self.compiling, id) {
            return Err(
                Error::Type(cat3("cyclic module import involving '", requested.as_str(), "'")),
            );
        }
        match source {
            Err(reason) => Err(
                Error::Runtime(
                    cat4("cannot read module '", requested.as_str(), "': ", reason.as_str()),
                ),
            ),
            Ok(text) => {
                let artifact = self.compile_source(id, text, at, node)?;
                let shared = Rc::new(artifact);
                let _known: bool = self.module_artifacts.insert(id.clone(), shared.clone());
                Ok(shared)
            },
        }
    }

    /// Imports a module.
    #[verifier::spinoff_prover]
    fn load_module(
        &mut self,
        requested: &String,
        node: &Expr,
    ) -> (r: Result<Rc<ModuleArtifact>, Error>)
        ensures
            final(self).ctx() == old(self).ctx(),
            match r {
                Ok(t) => same(
                    load_module(old(self).ctx(), old(self).state(), requested@, node@),
                    Ok::<(State, ArtifactView), ErrorView>((final(self).state(), (*t)@)),
                ),
                Err(e) => {
                    &&& same(
                        load_module(old(self).ctx(), old(self).state(), requested@, node@),
                        Err::<(State, ArtifactView), ErrorView>(e@),
                    )
                    &&& same(final(self).state(), old(self).state())
                },
            },
        decreases
            remaining(old(self).ctx().files, old(self).ctx().compiling),
            0int,
            *node,
            10int,
    {
        if text_eq(requested.as_str(), "candle") {
            return Ok(self.load_extension(requested));
        }
        if !self.rooted {
            return Err(type_error("require is available only when executing an .l0 file"));
        }
        let files = self.files.clone();
        let at: usize = file_of(&files, requested);
        if at >= files.len() {
            return Err(
                Error::Runtime(
                    cat4("cannot load module '", requested.as_str(), "': ", "no such file"),
                ),
            );
        }
        assert(self.ctx().files[at as int] == (*files)@[at as int]@);
        match &files[at].1 {
            ModuleFile::Absolute => Err(type_error("module path must be relative")),
            ModuleFile::Unresolved(reason) => Err(
                Error::Runtime(
                    cat4("cannot load module '", requested.as_str(), "': ", reason.as_str()),
                ),
            ),
            ModuleFile::Escapes => Err(
                Error::Type(cat3("module '", requested.as_str(), "' escapes the module root")),
            ),
            ModuleFile::Found { id, source } => self.load_file(requested, id, source, at, node),
        }
    }

    fn emit_call(&mut self, op: IrOp, target: usize, struct_name: &String, method: &String)
        ensures
            final(self).ctx() == old(self).ctx(),
            final(self).state() == emit_call(
                old(self).state(),
                op@,
                target,
                struct_name@,
                method@,
            ),
    {
        let position: usize = self.here();
        self.emit(op);
        if target == usize::MAX {
            self.pending_method_calls.push((position, struct_name.clone(), method.clone()));
        }
    }

    fn destructor_target(&self, struct_name: &String) -> (r: usize)
        ensures
            r == destructor_target(self.state(), struct_name@),
    {
        match self.method_entry(struct_name, struct_name) {
            Some(target) => target,
            None => usize::MAX,
        }
    }

    fn destructor_calls(&mut self, locals: Vec<DestructorLocal>)
        ensures
            final(self).ctx() == old(self).ctx(),
            same(
                final(self).state(),
                destructor_calls(old(self).state(), views(locals@), 0),
            ),
    {
        let ghost start = *self;
        let mut i: usize = 0;
        while i < locals.len()
            invariant
                start == *old(self),
                i <= locals@.len(),
                self.ctx() == start.ctx(),
                same(
                    destructor_calls(start.state(), views(locals@), 0),
                    destructor_calls(self.state(), views(locals@), i as int),
                ),
            decreases locals@.len() - i,
        {
            assert(views(locals@)[i as int] == locals@[i as int]@);
            let slot: usize = locals[i].slot;
            self.emit(IrOp::UntrackDestructor(slot));
            let target: usize = self.destructor_target(&locals[i].struct_name);
            self.emit_call(
                IrOp::CallMethod(slot, target),
                target,
                &locals[i].struct_name,
                &locals[i].struct_name,
            );
            i += 1;
        }
    }

    fn close_scope(&mut self) -> (r: Result<(), Error>)
        ensures
            final(self).ctx() == old(self).ctx(),
            match r {
                Ok(t) => same(
                    close_scope(old(self).state()),
                    Ok::<State, ErrorView>(final(self).state()),
                ),
                Err(e) => same(close_scope(old(self).state()), Err::<State, ErrorView>(e@)),
            },
    {
        let count: usize = self.scope_stack.len();
        assert(self.state().scopes.len() == count);
        if count == 0 {
            return Err(runtime_error("missing compiler scope for destructors"));
        }
        assert(self.state().scopes.last() == self.scope_stack@[count - 1]@);
        let locals = reversed(&self.scope_stack[count - 1].destructors);
        self.destructor_calls(locals);
        Ok(())
    }

    /// The locals with a destructor in the blocks from `base` on, the latest first.
    fn live_locals(&self, base: usize) -> (r: Vec<DestructorLocal>)
        requires
            base <= self.scope_stack@.len(),
        ensures
            views(r@) == live_locals(
                self.state().scopes,
                base as int,
                self.state().scopes.len() as int,
            ),
    {
        let ghost scopes = self.state().scopes;
        let mut found: Vec<DestructorLocal> = Vec::new();
        let mut n: usize = self.scope_stack.len();
        assert(views(found@) + live_locals(scopes, base as int, n as int) =~= live_locals(
            scopes,
            base as int,
            n as int,
        ));
        while n > base
            invariant
                base <= n <= self.scope_stack@.len(),
                scopes == self.state().scopes,
                scopes.len() == self.scope_stack@.len(),
                views(found@) + live_locals(scopes, base as int, n as int) == live_locals(
                    scopes,
                    base as int,
                    scopes.len() as int,
                ),
            decreases n,
        {
            n -= 1;
            assert(scopes[n as int] == self.scope_stack@[n as int]@);
            let ghost before = views(found@);
            let mut more = reversed(&self.scope_stack[n].destructors);
            let ghost added = views(more@);
            found.append(&mut more);
            assert(views(found@) =~= before + added);
            assert(before + (added + live_locals(scopes, base as int, n as int)) =~= views(found@)
                + live_locals(scopes, base as int, n as int));
        }
        assert(views(found@) + Seq::<(usize, Seq<char>)>::empty() =~= views(found@));
        found
    }

    #[verifier::spinoff_prover]
    fn statements(&mut self, body: &Vec<Statement>) -> (r: Result<(), Error>)
        ensures
            final(self).ctx() == old(self).ctx(),
            match r {
                Ok(t) => same(
                    block_code(old(self).ctx(), old(self).state(), views(body@), 0),
                    Ok::<State, ErrorView>(final(self).state()),
                ),
                Err(e) => same(
                    block_code(old(self).ctx(), old(self).state(), views(body@), 0),
                    Err::<State, ErrorView>(e@),
                ),
            },
        decreases remaining(old(self).ctx().files, old(self).ctx().compiling), 1int, *body, 0int,
    {
        let ghost start = *self;
        let mut i: usize = 0;
        while i < body.len()
            invariant
                start == *old(self),
                i <= body@.len(),
                self.ctx() == start.ctx(),
                same(
                    block_code(start.ctx(), start.state(), views(body@), 0),
                    block_code(self.ctx(), self.state(), views(body@), i as int),
                ),
            decreases body@.len() - i,
        {
            assert(views(body@)[i as int] == body@[i as int]@);
            assert(decreases_to!(*body => body@));
            assert(decreases_to!(body@ => body@[i as int]));
            self.statement(&body[i])?;
            i += 1;
        }
        Ok(())
    }

    #[verifier::spinoff_prover]
    fn scoped_block(&mut self, body: &Vec<Statement>) -> (r: Result<(), Error>)
        ensures
            final(self).ctx() == old(self).ctx(),
            match r {
                Ok(t) => same(
                    scoped_code(old(self).ctx(), old(self).state(), views(body@)),
                    Ok::<State, ErrorView>(final(self).state()),
                ),
                Err(e) => same(
                    scoped_code(old(self).ctx(), old(self).state(), views(body@)),
                    Err::<State, ErrorView>(e@),
                ),
            },
        decreases remaining(old(self).ctx().files, old(self).ctx().compiling), 1int, *body, 1int,
    {
        let saved_names = self.names.copied();
        let saved_next_slot: usize = self.next_slot;
        let saved_depth: usize = self.scope_depth;
        self.open_scope();
        self.statements(body)?;
        let ghost inner = self.state();
        self.close_scope()?;
        proof {
            lemma_calls_keep_blocks(inner, inner.scopes.last().reverse(), 0);
        }
        self.leave_scope(saved_names, saved_next_slot, saved_depth);
        Ok(())
    }

    fn coerce(&mut self, ty: &Type, found: &Type)
        ensures
            final(self).ctx() == old(self).ctx(),
            final(self).state() == coerced(old(self).state(), ty@, found@),
    {
        if is_numeric(ty) && !ty.same(found) {
            self.emit(IrOp::Cast(Rc::new(ty.clone())));
        }
    }

    fn track_destructor(&mut self, slot: usize, struct_name: &String) -> (r: Result<(), Error>)
        ensures
            final(self).ctx() == old(self).ctx(),
            match r {
                Ok(t) => same(
                    track_destructor(old(self).state(), slot, struct_name@),
                    Ok::<State, ErrorView>(final(self).state()),
                ),
                Err(e) => same(
                    track_destructor(old(self).state(), slot, struct_name@),
                    Err::<State, ErrorView>(e@),
                ),
            },
    {
        let key = (struct_name.clone(), struct_name.clone());
        if !self.methods.contains_key(&key) {
            return Ok(());
        }
        let target: usize = self.destructor_target(struct_name);
        self.emit_call(IrOp::TrackDestructor(slot, target), target, struct_name, struct_name);
        let count: usize = self.scope_stack.len();
        assert(self.state().scopes.len() == count);
        if count == 0 {
            return Err(runtime_error("missing compiler scope for destructor"));
        }
        let ghost before = *self;
        let mut scope = ScopeContext { destructors: Vec::new() };
        std::mem::swap(&mut scope, &mut self.scope_stack[count - 1]);
        assert(scope@ == before.state().scopes.last());
        scope.destructors.push(DestructorLocal { slot, struct_name: struct_name.clone() });
        let ghost grown = scope@;
        self.scope_stack[count - 1] = scope;
        assert(self.state().scopes =~= before.state().scopes.update(count - 1, grown));
        Ok(())
    }

    fn import_structs(&mut self, binding: &String, module_id: &String) -> (r: Result<(), Error>)
        ensures
            final(self).ctx() == old(self).ctx(),
            match r {
                Ok(t) => same(
                    imported(old(self).state(), binding@, module_id@),
                    Ok::<State, ErrorView>(final(self).state()),
                ),
                Err(e) => same(
                    imported(old(self).state(), binding@, module_id@),
                    Err::<State, ErrorView>(e@),
                ),
            },
    {
        let module: Rc<ModuleArtifact> = match self.module_artifacts.get(module_id) {
            Some(module) => module.clone(),
            None => {
                return Err(runtime_error("missing compiled module"));
            },
        };
        let ghost start = *self;
        let mut i: usize = 0;
        while i < module.exports.len()
            invariant
                start == *old(self),
                i <= module.exports@.len(),
                self.ctx() == start.ctx(),
                start.state().artifacts.contains_key(module_id@),
                start.state().artifacts[module_id@] == (*module)@,
                same(
                    imported(start.state(), binding@, module_id@),
                    import_structs(self.state(), binding@, views(module.exports@), i as int),
                ),
            decreases module.exports@.len() - i,
        {
            assert(views(module.exports@)[i as int] == module.exports@[i as int]@);
            if let ModuleExport::Struct(layout) = &module.exports[i].1 {
                let alias = cat3(binding.as_str(), ".", module.exports[i].0.as_str());
                if self.structs.contains_key(&alias) {
                    return Err(
                        Error::Type(
                            cat3(
                                "imported struct '",
                                alias.as_str(),
                                "' conflicts with an existing struct",
                            ),
                        ),
                    );
                }
                let mut renamed = layout.clone();
                renamed.name = alias.clone();
                let _known: bool = self.structs.insert(alias, renamed);
            }
            i += 1;
        }
        Ok(())
    }

    /// Notes which module the slot of a name has been given.
    fn rebind(&mut self, name: &String, slot: usize, found: &Type)
        ensures
            final(self).ctx() == old(self).ctx(),
            same(final(self).state(), rebound(old(self).state(), name@, slot, found@)),
    {
        if let Type::Module(_) = found {
            let named: bool = match self.names.get(name) {
                Some(entry) => entry.0 == slot,
                None => false,
            };
            if named {
                let _known: bool = self.names.insert(name.clone(), (slot, found.clone()));
            }
            let global: bool = match self.globals.get(name) {
                Some(entry) => entry.0 == slot,
                None => false,
            };
            if global {
                let _known: bool = self.globals.insert(name.clone(), (slot, found.clone()));
            }
        }
    }

    /// Binds a name to the value on the stack.
    fn bind_name(&mut self, name: &String, ty: &Type, found: &Type) -> (r: Result<(), Error>)
        ensures
            final(self).ctx() == old(self).ctx(),
            match r {
                Ok(t) => same(
                    bind_name(old(self).state(), name@, ty@, found@),
                    Ok::<State, ErrorView>(final(self).state()),
                ),
                Err(e) => same(
                    bind_name(old(self).state(), name@, ty@, found@),
                    Err::<State, ErrorView>(e@),
                ),
            },
    {
        let nested: bool = self.scope_depth > 0;
        let existing: Option<(usize, bool)> = match self.names.get(name) {
            Some(entry) => Some((entry.0, declared_type(&entry.1).same(ty))),
            None => None,
        };
        let fresh: bool = existing.is_none();
        let slot: usize = match existing {
            Some((slot, same_type)) => {
                if !same_type {
                    return Err(
                        Error::Type(
                            cat3("cannot redefine '", name.as_str(), "' with a different type"),
                        ),
                    );
                }
                self.rebind(name, slot, found);
                slot
            },
            None => {
                let slot: usize = self.next_slot;
                self.next_slot = self.next_slot.wrapping_add(1);
                let held = match found {
                    Type::Module(_) => found.clone(),
                    _ => ty.clone(),
                };
                if !nested {
                    let _known: bool = self.globals.insert(name.clone(), (slot, held.clone()));
                }
                let _known: bool = self.names.insert(name.clone(), (slot, held));
                slot
            },
        };
        if let Type::Module(id) = found {
            self.import_structs(name, id)?;
        }
        self.emit(IrOp::Store(slot));
        if fresh && nested {
            if let Type::Struct(struct_name) = found {
                self.track_destructor(slot, struct_name)?;
            }
        }
        Ok(())
    }

    #[verifier::spinoff_prover]
    fn let_binding(&mut self, name: &String, ty: &Type, value: &Expr) -> (r: Result<(), Error>)
        ensures
            final(self).ctx() == old(self).ctx(),
            match r {
                Ok(t) => same(
                    let_code(old(self).ctx(), old(self).state(), name@, ty@, value@),
                    Ok::<State, ErrorView>(final(self).state()),
                ),
                Err(e) => same(
                    let_code(old(self).ctx(), old(self).state(), name@, ty@, value@),
                    Err::<State, ErrorView>(e@),
                ),
            },
            refused_at_once(old(self).ctx(), old(self).state(), value@, Some(ty@)) ==> {
                &&& r is Err
                &&& same(final(self).state(), old(self).state())
            },
        decreases remaining(old(self).ctx().files, old(self).ctx().compiling), 0int, *value, 51int,
    {
        let found = self.expr(value, Some(ty))?;
        if !types_compatible(ty, &found) {
            return Err(
                Error::Type(
                    cat6(
                        "'",
                        name.as_str(),
                        "' declared ",
                        ty.to_text().as_str(),
                        ", but expression has type ",
                        found.to_text().as_str(),
                    ),
                ),
            );
        }
        self.coerce(ty, &found);
        self.bind_name(name, ty, &found)
    }

    #[verifier::spinoff_prover]
    fn assign(&mut self, name: &String, value: &Expr) -> (r: Result<(), Error>)
        ensures
            final(self).ctx() == old(self).ctx(),
            match r {
                Ok(t) => same(
                    assign_code(old(self).ctx(), old(self).state(), name@, value@),
                    Ok::<State, ErrorView>(final(self).state()),
                ),
                Err(e) => {
                    &&& same(
                        assign_code(old(self).ctx(), old(self).state(), name@, value@),
                        Err::<State, ErrorView>(e@),
                    )
                    &&& assign_refused(
                        old(self).ctx(),
                        old(self).state(),
                        name@,
                        value@,
                    ) ==> same(final(self).state(), old(self).state())
                },
            },
        decreases remaining(old(self).ctx().files, old(self).ctx().compiling), 0int, *value, 51int,
    {
        let field: Option<StructField> = match self.method_field(name) {
            Some(f) => Some(f.clone()),
            None => None,
        };
        if let Some(field) = field {
            let found = self.expr(value, Some(&field.ty))?;
            if !types_compatible(&field.ty, &found) {
                return Err(
                    Error::Type(
                        cat6(
                            "field '",
                            name.as_str(),
                            "' is ",
                            field.ty.to_text().as_str(),
                            ", but expression has type ",
                            found.to_text().as_str(),
                        ),
                    ),
                );
            }
            self.coerce(&field.ty, &found);
            self.emit(IrOp::StoreCurrentField(Rc::new(field)));
            return Ok(());
        }
        let (slot, ty): (usize, Type) = match self.names.get(name) {
            Some(entry) => (entry.0, declared_type(&entry.1)),
            None => {
                return Err(unknown_name_error(name.as_str()));
            },
        };
        let found = self.expr(value, Some(&ty))?;
        if !types_compatible(&ty, &found) {
            return Err(
                Error::Type(
                    cat6(
                        "'",
                        name.as_str(),
                        "' is ",
                        ty.to_text().as_str(),
                        ", but expression has type ",
                        found.to_text().as_str(),
                    ),
                ),
            );
        }
        self.coerce(&ty, &found);
        self.emit(IrOp::Store(slot));
        self.rebind(name, slot, &found);
        Ok(())
    }

    #[verifier::spinoff_prover]
    fn global_assign(&mut self, name: &String, value: &Expr) -> (r: Result<(), Error>)
        ensures
            final(self).ctx() == old(self).ctx(),
            match r {
                Ok(t) => same(
                    global_assign_code(old(self).ctx(), old(self).state(), name@, value@),
                    Ok::<State, ErrorView>(final(self).state()),
                ),
                Err(e) => {
                    &&& same(
                        global_assign_code(old(self).ctx(), old(self).state(), name@, value@),
                        Err::<State, ErrorView>(e@),
                    )
                    &&& global_assign_refused(
                        old(self).ctx(),
                        old(self).state(),
                        name@,
                        value@,
                    ) ==> same(final(self).state(), old(self).state())
                },
            },
        decreases remaining(old(self).ctx().files, old(self).ctx().compiling), 0int, *value, 51int,
    {
        let (slot, ty): (usize, Type) = match self.globals.get(name) {
            Some(entry) => (entry.0, declared_type(&entry.1)),
            None => {
                return Err(Error::Type(cat3("unknown global name '", name.as_str(), "'")));
            },
        };
        let found = self.expr(value, Some(&ty))?;
        if !types_compatible(&ty, &found) {
            return Err(
                Error::Type(
                    cat6(
                        "global '",
                        name.as_str(),
                        "' is ",
                        ty.to_text().as_str(),
                        ", but expression has type ",
                        found.to_text().as_str(),
                    ),
                ),
            );
        }
        self.emit(IrOp::Store(slot));
        self.rebind(name, slot, &found);
        Ok(())
    }

    fn container(&mut self, name: &String) -> (r: Result<(usize, Type), Error>)
        ensures
            final(self).ctx() == old(self).ctx(),
            match r {
                Ok(t) => same(
                    container(old(self).state(), name@),
                    Ok::<(State, usize, TypeView), ErrorView>((final(self).state(), t.0, t.1@)),
                ),
                Err(e) => {
                    &&& same(
                        container(old(self).state(), name@),
                        Err::<(State, usize, TypeView), ErrorView>(e@),
                    )
                    &&& same(final(self).state(), old(self).state())
                },
            },
    {
        let field: Option<StructField> = match self.method_field(name) {
            Some(f) => Some(f.clone()),
            None => None,
        };
        if let Some(field) = field {
            let slot: usize = self.next_slot;
            self.next_slot = self.next_slot.wrapping_add(1);
            let ty = field.ty.clone();
            self.emit(IrOp::LoadCurrentField(Rc::new(field)));
            self.emit(IrOp::Store(slot));
            return Ok((slot, ty));
        }
        match self.names.get(name) {
            Some(entry) => Ok((entry.0, entry.1.clone())),
            None => Err(unknown_name_error(name.as_str())),
        }
    }

    #[verifier::spinoff_prover]
    fn item(
        &mut self,
        value: &Expr,
        element: &Type,
        message: &str,
        op: IrOp,
    ) -> (r: Result<(), Error>)
        ensures
            final(self).ctx() == old(self).ctx(),
            match r {
                Ok(t) => same(
                    item_code(old(self).ctx(), old(self).state(), value@, element@, message@, op@),
                    Ok::<State, ErrorView>(final(self).state()),
                ),
                Err(e) => same(
                    item_code(old(self).ctx(), old(self).state(), value@, element@, message@, op@),
                    Err::<State, ErrorView>(e@),
                ),
            },
        decreases remaining(old(self).ctx().files, old(self).ctx().compiling), 0int, *value, 51int,
    {
        let found = self.expr(value, Some(element))?;
        if !types_compatible(element, &found) {
            return Err(mismatch_error(message, &found, "; expected ", element));
        }
        self.emit(op);
        Ok(())
    }

    #[verifier::spinoff_prover]
    fn set_index(
        &mut self,
        name: &String,
        indices: &Vec<Expr>,
        value: &Expr,
        node: &Statement,
    ) -> (r: Result<(), Error>)
        ensures
            final(self).ctx() == old(self).ctx(),
            match r {
                Ok(t) => same(
                    set_index_code(
                        old(self).ctx(),
                        old(self).state(),
                        (
                            StatementView::SetIndex {
                                name: name@,
                                indices: views(indices@),
                                expr: value@,
                            }
                        ),
                    ),
                    Ok::<State, ErrorView>(final(self).state()),
                ),
                Err(e) => {
                    &&& same(
                        set_index_code(
                            old(self).ctx(),
                            old(self).state(),
                            (
                                StatementView::SetIndex {
                                    name: name@,
                                    indices: views(indices@),
                                    expr: value@,
                                }
                            ),
                        ),
                        Err::<State, ErrorView>(e@),
                    )
                    &&& set_index_refused(
                        old(self).state(),
                        name@,
                        indices@.len(),
                    ) ==> same(final(self).state(), old(self).state())
                },
            },
        decreases remaining(old(self).ctx().files, old(self).ctx().compiling), 1int, *node, 40int,
    {
        let (slot, ty) = self.container(name)?;
        assert(views(indices@).len() == indices@.len());
        match ty {
            Type::Array(inner) => {
                if indices.len() != 1 {
                    return Err(type_error("vector indexing requires exactly one index"));
                }
                let _size: usize = scalar_size(&inner)?;
                self.indices(indices)?;
                self.item(
                    value,
                    &inner,
                    "item is ",
                    IrOp::StoreIndex(slot, Rc::new((*inner).clone())),
                )
            },
            Type::Table(inner) => {
                if indices.len() != 1 {
                    return Err(type_error("table indexing requires exactly one index"));
                }
                assert(views(indices@)[0] == indices@[0]@);
                self.table_key(&indices[0])?;
                self.item(
                    value,
                    &inner,
                    "item is ",
                    IrOp::StoreTableIndex(slot, Rc::new((*inner).clone())),
                )
            },
            Type::Tensor(inner, rank) => {
                if indices.len() != rank {
                    return Err(rank_mismatch(rank));
                }
                self.indices(indices)?;
                let op: IrOp = if matches!(*inner, Type::F32) {
                    IrOp::StoreTensorIndexF32(slot, rank)
                } else {
                    IrOp::StoreTensorIndex(slot, Rc::new((*inner).clone()), rank)
                };
                self.item(value, &inner, "tensor item is ", op)
            },
            _ => Err(Error::Type(cat3("'", name.as_str(), "' is not indexable"))),
        }
    }

    #[verifier::spinoff_prover]
    fn set_field(&mut self, name: &String, field: &String, value: &Expr) -> (r: Result<(), Error>)
        ensures
            final(self).ctx() == old(self).ctx(),
            match r {
                Ok(t) => same(
                    set_field_code(old(self).ctx(), old(self).state(), name@, field@, value@),
                    Ok::<State, ErrorView>(final(self).state()),
                ),
                Err(e) => {
                    &&& same(
                        set_field_code(old(self).ctx(), old(self).state(), name@, field@, value@),
                        Err::<State, ErrorView>(e@),
                    )
                    &&& set_field_refused(
                        old(self).ctx(),
                        old(self).state(),
                        name@,
                        field@,
                        value@,
                    ) ==> same(final(self).state(), old(self).state())
                },
            },
        decreases remaining(old(self).ctx().files, old(self).ctx().compiling), 0int, *value, 51int,
    {
        let (slot, ty) = self.container(name)?;
        match ty {
            Type::Struct(struct_name) => {
                let found_field = self.struct_field(&struct_name, field)?;
                let found = self.expr(value, Some(&found_field.ty))?;
                if !types_compatible(&found_field.ty, &found) {
                    return Err(type_error("struct field type mismatch"));
                }
                self.emit(IrOp::StoreField(slot, Rc::new(found_field)));
                Ok(())
            },
            Type::Table(element) => {
                let found = self.expr(value, Some(&element))?;
                if !types_compatible(&element, &found) {
                    return Err(type_error("table value type mismatch"));
                }
                let name = self.intern_name(field);
                self.emit(IrOp::StoreTableField(slot, name, Rc::new((*element).clone())));
                Ok(())
            },
            _ => Err(Error::Type(cat3("'", name.as_str(), "' has no named keys"))),
        }
    }

    #[verifier::spinoff_prover]
    fn set_field_index(
        &mut self,
        name: &String,
        field: &String,
        index: &Expr,
        value: &Expr,
        node: &Statement,
    ) -> (r: Result<(), Error>)
        ensures
            final(self).ctx() == old(self).ctx(),
            match r {
                Ok(t) => same(
                    set_field_index_code(
                        old(self).ctx(),
                        old(self).state(),
                        (
                            StatementView::SetFieldIndex {
                                name: name@,
                                field: field@,
                                index: index@,
                                expr: value@,
                            }
                        ),
                    ),
                    Ok::<State, ErrorView>(final(self).state()),
                ),
                Err(e) => {
                    &&& same(
                        set_field_index_code(
                            old(self).ctx(),
                            old(self).state(),
                            (
                                StatementView::SetFieldIndex {
                                    name: name@,
                                    field: field@,
                                    index: index@,
                                    expr: value@,
                                }
                            ),
                        ),
                        Err::<State, ErrorView>(e@),
                    )
                    &&& set_field_index_refused(
                        old(self).ctx(),
                        old(self).state(),
                        name@,
                        field@,
                        index@,
                    ) ==> same(final(self).state(), old(self).state())
                },
            },
        decreases remaining(old(self).ctx().files, old(self).ctx().compiling), 1int, *node, 40int,
    {
        let (slot, ty) = self.container(name)?;
        match ty {
            Type::Struct(struct_name) => {
                let found_field = self.struct_field(&struct_name, field)?;
                let element: Type = match &found_field.ty {
                    Type::Array(element) => (**element).clone(),
                    _ => {
                        return Err(
                            Error::Type(
                                cat3("field '", found_field.name.as_str(), "' is not a vector"),
                            ),
                        );
                    },
                };
                let _size: usize = scalar_size(&element)?;
                let index_type = self.expr(index, None)?;
                if !is_integer(&index_type) {
                    return Err(type_error("index must be an integer"));
                }
                self.item(
                    value,
                    &element,
                    "item is ",
                    IrOp::StoreFieldIndex(
                        slot,
                        Rc::new(found_field),
                        Rc::new(element.clone()),
                    ),
                )
            },
            _ => Err(Error::Type(cat3("'", name.as_str(), "' is not a struct"))),
        }
    }

    #[verifier::spinoff_prover]
    fn printed(&mut self, args: &Vec<Expr>) -> (r: Result<(), Error>)
        ensures
            final(self).ctx() == old(self).ctx(),
            match r {
                Ok(t) => same(
                    printed_code(old(self).ctx(), old(self).state(), views(args@), 0),
                    Ok::<State, ErrorView>(final(self).state()),
                ),
                Err(e) => same(
                    printed_code(old(self).ctx(), old(self).state(), views(args@), 0),
                    Err::<State, ErrorView>(e@),
                ),
            },
            first_refused(old(self).ctx(), old(self).state(), views(args@), None) ==> {
                &&& r is Err
                &&& same(final(self).state(), old(self).state())
            },
            args@.len() == 0 ==> same(final(self).state(), old(self).state()),
        decreases remaining(old(self).ctx().files, old(self).ctx().compiling), 0int, *args, 0int,
    {
        let ghost start = *self;
        let mut i: usize = 0;
        while i < args.len()
            invariant
                start == *old(self),
                i <= args@.len(),
                self.ctx() == start.ctx(),
                same(
                    printed_code(start.ctx(), start.state(), views(args@), 0),
                    printed_code(self.ctx(), self.state(), views(args@), i as int),
                ),
                i == 0 ==> self.state() == start.state(),
                0 < i ==> !refused_at_once(start.ctx(), start.state(), views(args@)[0], None),
            decreases args@.len() - i,
        {
            assert(views(args@)[i as int] == args@[i as int]@);
            assert(decreases_to!(*args => args@));
            assert(decreases_to!(args@ => args@[i as int]));
            let _ty = self.expr(&args[i], None)?;
            i += 1;
        }
        Ok(())
    }

    /// The format of a `printf`, and the instruction that prints it.
    #[verifier::spinoff_prover]
    fn printed_format(&mut self, format: &Expr, count: usize) -> (r: Result<(), Error>)
        ensures
            final(self).ctx() == old(self).ctx(),
            match expr_code(
                old(self).ctx(),
                old(self).state(),
                format@,
                Some(TypeView::String),
            ) {
                Err(x) => r is Err && same(r->Err_0@, x),
                Ok((c, t)) => if t == TypeView::String {
                    r is Ok && same(final(self).state(), emit(c, OpView::Printf(count)))
                } else {
                    r is Err && r->Err_0@ == ErrorView::Type("printf format must be a string"@)
                },
            },
            refused_at_once(
                old(self).ctx(),
                old(self).state(),
                format@,
                Some(TypeView::String),
            ) ==> {
                &&& r is Err
                &&& same(final(self).state(), old(self).state())
            },
        decreases remaining(old(self).ctx().files, old(self).ctx().compiling), 0int, *format, 51int,
    {
        let ty = self.expr(format, Some(&Type::String))?;
        if !matches!(ty, Type::String) {
            return Err(type_error("printf format must be a string"));
        }
        self.emit(IrOp::Printf(count));
        Ok(())
    }

    #[verifier::spinoff_prover]
    fn printf(
        &mut self,
        format: &Expr,
        args: &Vec<Expr>,
        node: &Statement,
    ) -> (r: Result<(), Error>)
        ensures
            final(self).ctx() == old(self).ctx(),
            match r {
                Ok(t) => same(
                    printf_code(
                        old(self).ctx(),
                        old(self).state(),
                        (StatementView::Printf { format: format@, args: views(args@) }),
                    ),
                    Ok::<State, ErrorView>(final(self).state()),
                ),
                Err(e) => {
                    &&& same(
                        printf_code(
                            old(self).ctx(),
                            old(self).state(),
                            (StatementView::Printf { format: format@, args: views(args@) }),
                        ),
                        Err::<State, ErrorView>(e@),
                    )
                    &&& printf_refused(
                        old(self).ctx(),
                        old(self).state(),
                        format@,
                        views(args@),
                    ) ==> same(final(self).state(), old(self).state())
                },
            },
        decreases remaining(old(self).ctx().files, old(self).ctx().compiling), 1int, *node, 40int,
    {
        assert(views(args@).len() == args@.len());
        self.printed(args)?;
        self.printed_format(format, args.len())
    }

    #[verifier::spinoff_prover]
    fn if_statement(
        &mut self,
        condition: &Expr,
        then_body: &Vec<Statement>,
        else_body: &Vec<Statement>,
        node: &Statement,
    ) -> (r: Result<(), Error>)
        requires
            *node == (
                Statement::If {
                    condition: *condition,
                    then_body: *then_body,
                    else_body: *else_body,
                }
            ),
        ensures
            final(self).ctx() == old(self).ctx(),
            match r {
                Ok(t) => same(
                    if_code(old(self).ctx(), old(self).state(), node@),
                    Ok::<State, ErrorView>(final(self).state()),
                ),
                Err(e) => {
                    &&& same(
                        if_code(old(self).ctx(), old(self).state(), node@),
                        Err::<State, ErrorView>(e@),
                    )
                    &&& refused_at_once(
                        old(self).ctx(),
                        old(self).state(),
                        condition@,
                        None,
                    ) ==> same(final(self).state(), old(self).state())
                },
            },
        decreases remaining(old(self).ctx().files, old(self).ctx().compiling), 1int, *node, 40int,
    {
        assert(decreases_to!(*node => node->then_body));
        assert(decreases_to!(*node => node->else_body));
        assert(views(else_body@).len() == else_body@.len());
        let ty = self.expr(condition, None)?;
        if !matches!(ty, Type::Bool) {
            return Err(
                Error::Type(cat2("if condition must be bool, got ", ty.to_text().as_str())),
            );
        }
        let false_jump: usize = self.here();
        self.emit(IrOp::JumpIfFalse(usize::MAX));
        self.scoped_block(then_body)?;
        if else_body.len() == 0 {
            let end: usize = self.here();
            self.patch(false_jump, IrOp::JumpIfFalse(end));
        } else {
            let end_jump: usize = self.here();
            self.emit(IrOp::Jump(usize::MAX));
            let else_start: usize = self.here();
            self.patch(false_jump, IrOp::JumpIfFalse(else_start));
            self.scoped_block(else_body)?;
            let end: usize = self.here();
            self.patch(end_jump, IrOp::Jump(end));
        }
        Ok(())
    }

    fn patch_jumps(&mut self, jumps: &Vec<usize>, target: usize)
        ensures
            final(self).ctx() == old(self).ctx(),
            same(final(self).state(), patch_jumps(old(self).state(), jumps@, 0, target)),
    {
        let ghost start = *self;
        let mut i: usize = 0;
        while i < jumps.len()
            invariant
                start == *old(self),
                i <= jumps@.len(),
                self.ctx() == start.ctx(),
                same(
                    patch_jumps(start.state(), jumps@, 0, target),
                    patch_jumps(self.state(), jumps@, i as int, target),
                ),
            decreases jumps@.len() - i,
        {
            self.patch(jumps[i], IrOp::Jump(target));
            i += 1;
        }
    }

    fn open_loop(&mut self)
        ensures
            final(self).ctx() == old(self).ctx(),
            final(self).state() == open_loop(old(self).state()),
    {
        let scope_base: usize = self.scope_stack.len();
        assert(self.state().scopes.len() == scope_base);
        self.loops.push(
            LoopContext { break_jumps: Vec::new(), continue_jumps: Vec::new(), scope_base },
        );
        assert(self.loops@.last()@.break_jumps =~= Seq::<usize>::empty());
        assert(self.loops@.last()@.continue_jumps =~= Seq::<usize>::empty());
    }

    fn close_loop(&mut self, end: usize, next: usize)
        ensures
            final(self).ctx() == old(self).ctx(),
            same(final(self).state(), close_loop(old(self).state(), end, next)),
    {
        assert(self.state().loops.len() == self.loops@.len());
        let ghost before = *self;
        if let Some(context) = self.loops.pop() {
            assert(before.state().loops.last() == context@);
            assert(self.loops@ =~= before.loops@.drop_last());
            self.patch_jumps(&context.break_jumps, end);
            self.patch_jumps(&context.continue_jumps, next);
        }
    }

    #[verifier::spinoff_prover]
    fn while_statement(
        &mut self,
        condition: &Expr,
        body: &Vec<Statement>,
        node: &Statement,
    ) -> (r: Result<(), Error>)
        requires
            *node == (Statement::While { condition: *condition, body: *body }),
        ensures
            final(self).ctx() == old(self).ctx(),
            match r {
                Ok(t) => same(
                    while_code(old(self).ctx(), old(self).state(), node@),
                    Ok::<State, ErrorView>(final(self).state()),
                ),
                Err(e) => {
                    &&& same(
                        while_code(old(self).ctx(), old(self).state(), node@),
                        Err::<State, ErrorView>(e@),
                    )
                    &&& refused_at_once(
                        old(self).ctx(),
                        old(self).state(),
                        condition@,
                        None,
                    ) ==> same(final(self).state(), old(self).state())
                },
            },
        decreases remaining(old(self).ctx().files, old(self).ctx().compiling), 1int, *node, 40int,
    {
        assert(decreases_to!(*node => node->While_body));
        let loop_start: usize = self.here();
        let ty = self.expr(condition, None)?;
        if !matches!(ty, Type::Bool) {
            return Err(
                Error::Type(cat2("while condition must be bool, got ", ty.to_text().as_str())),
            );
        }
        let exit_jump: usize = self.here();
        self.emit(IrOp::JumpIfFalse(usize::MAX));
        self.open_loop();
        self.scoped_block(body)?;
        self.emit(IrOp::Jump(loop_start));
        let end: usize = self.here();
        self.patch(exit_jump, IrOp::JumpIfFalse(end));
        self.close_loop(end, loop_start);
        Ok(())
    }

    fn count_on(&mut self, index_slot: usize, loop_start: usize, exit_jump: usize)
        ensures
            final(self).ctx() == old(self).ctx(),
            same(
                final(self).state(),
                count_on(old(self).state(), index_slot, loop_start, exit_jump),
            ),
    {
        let step: usize = self.here();
        self.emit(IrOp::Load(index_slot));
        self.emit(IrOp::Push(Value::I32(1)));
        self.emit(IrOp::Binary(BinaryOp::I32(BinOp::Add)));
        self.emit(IrOp::Store(index_slot));
        self.emit(IrOp::Jump(loop_start));
        let end: usize = self.here();
        self.patch(exit_jump, IrOp::JumpIfFalse(end));
        self.close_loop(end, step);
    }

    #[verifier::spinoff_prover]
    fn for_statement(
        &mut self,
        name: &String,
        start: &Expr,
        end: &Expr,
        body: &Vec<Statement>,
        node: &Statement,
    ) -> (r: Result<(), Error>)
        requires
            *node == (Statement::For { name: *name, start: *start, end: *end, body: *body }),
        ensures
            final(self).ctx() == old(self).ctx(),
            match r {
                Ok(t) => same(
                    for_code(old(self).ctx(), old(self).state(), node@),
                    Ok::<State, ErrorView>(final(self).state()),
                ),
                Err(e) => {
                    &&& same(
                        for_code(old(self).ctx(), old(self).state(), node@),
                        Err::<State, ErrorView>(e@),
                    )
                    &&& loop_refused(
                        old(self).ctx(),
                        old(self).state(),
                        name@,
                        start@,
                        Some(TypeView::I32),
                    ) ==> same(final(self).state(), old(self).state())
                },
            },
        decreases remaining(old(self).ctx().files, old(self).ctx().compiling), 1int, *node, 40int,
    {
        assert(decreases_to!(*node => node->For_body));
        if self.names.contains_key(name) {
            return Err(
                Error::Type(cat3("loop variable '", name.as_str(), "' is already defined")),
            );
        }
        let start_type = self.expr(start, Some(&Type::I32))?;
        let end_type = self.expr(end, Some(&Type::I32))?;
        if !matches!(start_type, Type::I32) || !matches!(end_type, Type::I32) {
            return Err(type_error("for bounds must be i32"));
        }
        let index_slot: usize = self.next_slot;
        let end_slot: usize = index_slot.wrapping_add(1);
        self.next_slot = end_slot.wrapping_add(1);
        let _known: bool = self.names.insert(name.clone(), (index_slot, Type::I32));
        self.emit(IrOp::Store(end_slot));
        self.emit(IrOp::Store(index_slot));
        let loop_start: usize = self.here();
        self.emit(IrOp::Load(index_slot));
        self.emit(IrOp::Load(end_slot));
        self.emit(IrOp::Binary(BinaryOp::I32(BinOp::Le)));
        let exit_jump: usize = self.here();
        self.emit(IrOp::JumpIfFalse(usize::MAX));
        self.open_loop();
        self.scoped_block(body)?;
        self.count_on(index_slot, loop_start, exit_jump);
        let _known: bool = self.names.remove(name);
        self.next_slot = index_slot;
        Ok(())
    }

    #[verifier::spinoff_prover]
    fn for_in_statement(
        &mut self,
        name: &String,
        iterable: &Expr,
        body: &Vec<Statement>,
        node: &Statement,
    ) -> (r: Result<(), Error>)
        requires
            *node == (Statement::ForIn { name: *name, iterable: *iterable, body: *body }),
        ensures
            final(self).ctx() == old(self).ctx(),
            match r {
                Ok(t) => same(
                    for_in_code(old(self).ctx(), old(self).state(), node@),
                    Ok::<State, ErrorView>(final(self).state()),
                ),
                Err(e) => {
                    &&& same(
                        for_in_code(old(self).ctx(), old(self).state(), node@),
                        Err::<State, ErrorView>(e@),
                    )
                    &&& loop_refused(
                        old(self).ctx(),
                        old(self).state(),
                        name@,
                        iterable@,
                        None,
                    ) ==> same(final(self).state(), old(self).state())
                },
            },
        decreases remaining(old(self).ctx().files, old(self).ctx().compiling), 1int, *node, 40int,
    {
        assert(decreases_to!(*node => node->ForIn_body));
        if self.names.contains_key(name) {
            return Err(
                Error::Type(cat3("loop variable '", name.as_str(), "' is already defined")),
            );
        }
        let ty = self.expr(iterable, None)?;
        let walked: Option<(Type, IrOp)> = walk_over(&ty);
        match walked {
            None => Err(
                Error::Type(
                    cat3(
                        "cannot iterate over ",
                        ty.to_text().as_str(),
                        "; 'for ... in' requires a vector, 1D tensor, or table_keys",
                    ),
                ),
            ),
            Some((element, read)) => {
                let iterable_slot: usize = self.next_slot;
                let len_slot: usize = iterable_slot.wrapping_add(1);
                let index_slot: usize = len_slot.wrapping_add(1);
                let item_slot: usize = index_slot.wrapping_add(1);
                self.next_slot = item_slot.wrapping_add(1);
                let _known: bool = self.names.insert(name.clone(), (item_slot, element));
                self.emit(IrOp::Store(iterable_slot));
                self.emit(IrOp::Load(iterable_slot));
                self.emit(IrOp::Len);
                self.emit(IrOp::Store(len_slot));
                self.emit(IrOp::Push(Value::I32(0)));
                self.emit(IrOp::Store(index_slot));
                let loop_start: usize = self.here();
                self.emit(IrOp::Load(index_slot));
                self.emit(IrOp::Load(len_slot));
                self.emit(IrOp::Binary(BinaryOp::I32(BinOp::Lt)));
                let exit_jump: usize = self.here();
                self.emit(IrOp::JumpIfFalse(usize::MAX));
                self.emit(IrOp::Load(iterable_slot));
                self.emit(IrOp::Load(index_slot));
                self.emit(read);
                self.emit(IrOp::Store(item_slot));
                self.open_loop();
                self.scoped_block(body)?;
                self.count_on(index_slot, loop_start, exit_jump);
                let _known: bool = self.names.remove(name);
                self.next_slot = iterable_slot;
                Ok(())
            },
        }
    }

    /// `break` and `continue`.
    fn leave(&mut self, leaves: bool) -> (r: Result<(), Error>)
        ensures
            final(self).ctx() == old(self).ctx(),
            match r {
                Ok(t) => same(
                    leave_code(old(self).state(), leaves),
                    Ok::<State, ErrorView>(final(self).state()),
                ),
                Err(e) => {
                    &&& same(leave_code(old(self).state(), leaves), Err::<State, ErrorView>(e@))
                    &&& same(final(self).state(), old(self).state())
                },
            },
    {
        let count: usize = self.loops.len();
        assert(self.state().loops.len() == count);
        assert(self.state().scopes.len() == self.scope_stack@.len());
        if count == 0 {
            return Err(
                type_error(
                    if leaves {
                        "break is available only inside a loop"
                    } else {
                        "continue is available only inside a loop"
                    },
                ),
            );
        }
        let scope_base: usize = self.loops[count - 1].scope_base;
        if scope_base > self.scope_stack.len() {
            return Err(runtime_error("invalid loop scope for destructors"));
        }
        let locals = self.live_locals(scope_base);
        self.destructor_calls(locals);
        let jump: usize = self.here();
        self.emit(IrOp::Jump(usize::MAX));
        let ghost before = *self;
        assert(before.state().loops == old(self).state().loops) by {
            lemma_calls_keep_blocks(
                old(self).state(),
                live_locals(
                    old(self).state().scopes,
                    scope_base as int,
                    old(self).state().scopes.len() as int,
                ),
                0,
            );
        }
        assert(self.loops@.len() == before.state().loops.len());
        let mut context = LoopContext {
            break_jumps: Vec::new(),
            continue_jumps: Vec::new(),
            scope_base: 0,
        };
        std::mem::swap(&mut context, &mut self.loops[count - 1]);
        assert(context@ == before.state().loops.last());
        if leaves {
            context.break_jumps.push(jump);
        } else {
            context.continue_jumps.push(jump);
        }
        let ghost grown = context@;
        self.loops[count - 1] = context;
        assert(self.state().loops =~= before.state().loops.update(count - 1, grown));
        Ok(())
    }

    fn call_method(&mut self, receiver: &MethodReceiver, method: &String) -> (r: Result<(), Error>)
        ensures
            final(self).ctx() == old(self).ctx(),
            match r {
                Ok(t) => same(
                    call_method_code(old(self).state(), receiver@, method@),
                    Ok::<State, ErrorView>(final(self).state()),
                ),
                Err(e) => {
                    &&& same(
                        call_method_code(old(self).state(), receiver@, method@),
                        Err::<State, ErrorView>(e@),
                    )
                    &&& same(final(self).state(), old(self).state())
                },
            },
    {
        match receiver {
            MethodReceiver::Name(name) => {
                let (slot, ty): (usize, Type) = match self.names.get(name) {
                    Some(entry) => (entry.0, entry.1.clone()),
                    None => {
                        return Err(unknown_name_error(name.as_str()));
                    },
                };
                match ty {
                    Type::Struct(struct_name) => {
                        let target: usize = match self.method_entry(&struct_name, method) {
                            Some(target) => target,
                            None => usize::MAX,
                        };
                        self.emit_call(
                            IrOp::CallMethod(slot, target),
                            target,
                            &struct_name,
                            method,
                        );
                        Ok(())
                    },
                    Type::Module(id) => {
                        let callable: bool = match self.module_artifacts.get(&id) {
                            None => {
                                return Err(runtime_error("missing compiled module"));
                            },
                            Some(module) => match export_named(&module.exports, method) {
                                Some(ModuleExport::Function { .. }) => true,
                                _ => false,
                            },
                        };
                        if !callable {
                            return Err(
                                Error::Type(
                                    cat3("module has no exported function '", method.as_str(), "'"),
                                ),
                            );
                        }
                        self.emit(IrOp::CallModule(slot, Rc::new(method.clone())));
                        Ok(())
                    },
                    _ => Err(
                        Error::Type(cat3("'", name.as_str(), "' is not a struct or module")),
                    ),
                }
            },
            MethodReceiver::This => {
                let struct_name: String = match &self.current_method_struct {
                    Some(name) => name.clone(),
                    None => {
                        return Err(type_error("this is available only inside a struct method"));
                    },
                };
                let target: usize = match self.method_entry(&struct_name, method) {
                    Some(target) => target,
                    None => usize::MAX,
                };
                self.emit_call(IrOp::CallCurrentMethod(target), target, &struct_name, method);
                Ok(())
            },
        }
    }

    fn parameters(&mut self, args: &Vec<(String, Type)>)
        ensures
            final(self).ctx() == old(self).ctx(),
            same(
                final(self).state(),
                parameters_code(old(self).state(), views(args@), args@.len() as int),
            ),
    {
        let ghost start = *self;
        let mut n: usize = args.len();
        while n > 0
            invariant
                start == *old(self),
                n <= args@.len(),
                self.ctx() == start.ctx(),
                same(
                    parameters_code(start.state(), views(args@), args@.len() as int),
                    parameters_code(self.state(), views(args@), n as int),
                ),
            decreases n,
        {
            n -= 1;
            assert(views(args@)[n as int] == args@[n as int]@);
            let slot: usize = self.next_slot;
            self.next_slot = self.next_slot.wrapping_add(1);
            let _known: bool = self.names.insert(args[n].0.clone(), (slot, args[n].1.clone()));
            self.emit(IrOp::Store(slot));
        }
    }

    #[verifier::spinoff_prover]
    fn compile_method_body(
        &mut self,
        struct_name: &String,
        method: &String,
        args: &Vec<(String, Type)>,
        body: &Vec<Statement>,
    ) -> (r: Result<(), Error>)
        ensures
            final(self).ctx() == old(self).ctx(),
            match r {
                Ok(t) => same(
                    method_code(
                        old(self).ctx(),
                        old(self).state(),
                        struct_name@,
                        method@,
                        views(args@),
                        views(body@),
                    ),
                    Ok::<State, ErrorView>(final(self).state()),
                ),
                Err(e) => {
                    &&& same(
                        method_code(
                            old(self).ctx(),
                            old(self).state(),
                            struct_name@,
                            method@,
                            views(args@),
                            views(body@),
                        ),
                        Err::<State, ErrorView>(e@),
                    )
                    &&& method_refused(
                        old(self).state(),
                        struct_name@,
                        method@,
                        views(args@),
                    ) ==> same(final(self).state(), old(self).state())
                },
            },
        decreases remaining(old(self).ctx().files, old(self).ctx().compiling), 1int, *body, 1int,
    {
        assert(views(args@).len() == args@.len());
        if *method == *struct_name && args.len() > 0 {
            return Err(destructor_arguments_error(struct_name.as_str()));
        }
        let key = (struct_name.clone(), method.clone());
        match self.methods.get(&key) {
            Some(None) => {},
            Some(Some(_)) => {
                return Err(
                    Error::Type(
                        cat5(
                            "struct '",
                            struct_name.as_str(),
                            "' already has a body for method '",
                            method.as_str(),
                            "'",
                        ),
                    ),
                );
            },
            None => {
                return Err(
                    Error::Type(
                        cat5(
                            "struct '",
                            struct_name.as_str(),
                            "' has no declared method '",
                            method.as_str(),
                            "'",
                        ),
                    ),
                );
            },
        }
        let fields: Vec<StructField> = match self.structs.get(struct_name) {
            Some(layout) => crate::views::duplicate_all(&layout.fields),
            None => {
                return Err(unknown_struct_error(struct_name.as_str()));
            },
        };
        let skip: usize = self.here();
        self.emit(IrOp::Jump(usize::MAX));
        let entry: usize = self.here();
        let _known: bool = self.methods.insert(key, Some(entry));
        let mut saved_fields: Option<Vec<StructField>> = Some(fields);
        std::mem::swap(&mut saved_fields, &mut self.current_method_fields);
        let mut saved_struct: Option<String> = Some(struct_name.clone());
        std::mem::swap(&mut saved_struct, &mut self.current_method_struct);
        let mut saved_names: Dict<String, (usize, Type)> = Dict::new();
        std::mem::swap(&mut saved_names, &mut self.names);
        let saved_depth: usize = self.scope_depth;
        let mut saved_scopes: Vec<ScopeContext> = Vec::new();
        saved_scopes.push(ScopeContext { destructors: Vec::new() });
        std::mem::swap(&mut saved_scopes, &mut self.scope_stack);
        self.scope_depth = self.scope_depth.saturating_add(1);
        assert(self.state().scopes =~= seq![Seq::<(usize, Seq<char>)>::empty()]);
        self.parameters(args);
        self.statements(body)?;
        self.close_scope()?;
        self.current_method_fields = saved_fields;
        self.current_method_struct = saved_struct;
        self.names = saved_names;
        self.scope_stack = saved_scopes;
        self.scope_depth = saved_depth;
        self.emit(IrOp::Return);
        let after: usize = self.here();
        self.patch(skip, IrOp::Jump(after));
        Ok(())
    }

    fn declare_methods(
        &mut self,
        name: &String,
        methods: &Vec<StructMethod>,
    ) -> (r: Result<(), Error>)
        ensures
            final(self).ctx() == old(self).ctx(),
            match r {
                Ok(t) => same(
                    declare_methods(old(self).state(), name@, views(methods@), 0),
                    Ok::<State, ErrorView>(final(self).state()),
                ),
                Err(e) => same(
                    declare_methods(old(self).state(), name@, views(methods@), 0),
                    Err::<State, ErrorView>(e@),
                ),
            },
    {
        let ghost start = *self;
        let mut i: usize = 0;
        while i < methods.len()
            invariant
                start == *old(self),
                i <= methods@.len(),
                self.ctx() == start.ctx(),
                same(
                    declare_methods(start.state(), name@, views(methods@), 0),
                    declare_methods(self.state(), name@, views(methods@), i as int),
                ),
            decreases methods@.len() - i,
        {
            assert(views(methods@)[i as int] == methods@[i as int]@);
            let method = &methods[i];
            assert(method@.args.len() == method.args@.len());
            if method.name == *name && method.args.len() > 0 {
                return Err(destructor_arguments_error(name.as_str()));
            }
            let key = (name.clone(), method.name.clone());
            if self.methods.contains_key(&key) {
                return Err(
                    Error::Type(
                        cat5(
                            "struct '",
                            name.as_str(),
                            "' defines method '",
                            method.name.as_str(),
                            "' more than once",
                        ),
                    ),
                );
            }
            let _known: bool = self.methods.insert(key, None);
            i += 1;
        }
        Ok(())
    }

    #[verifier::spinoff_prover]
    fn member(&mut self, name: &String, method: &StructMethod) -> (r: Result<(), Error>)
        ensures
            final(self).ctx() == old(self).ctx(),
            match r {
                Ok(t) => same(
                    member_code(old(self).ctx(), old(self).state(), name@, method@),
                    Ok::<State, ErrorView>(final(self).state()),
                ),
                Err(e) => same(
                    member_code(old(self).ctx(), old(self).state(), name@, method@),
                    Err::<State, ErrorView>(e@),
                ),
            },
        decreases remaining(old(self).ctx().files, old(self).ctx().compiling), 1int, *method, 0int,
    {
        match &method.body {
            Some(body) => {
                assert(decreases_to!(*method => method.body));
                assert(decreases_to!(method.body => method.body->Some_0));
                self.compile_method_body(name, &method.name, &method.args, body)
            },
            None => Ok(()),
        }
    }

    #[verifier::spinoff_prover]
    fn members(&mut self, name: &String, methods: &Vec<StructMethod>) -> (r: Result<(), Error>)
        ensures
            final(self).ctx() == old(self).ctx(),
            match r {
                Ok(t) => same(
                    members_code(old(self).ctx(), old(self).state(), name@, views(methods@), 0),
                    Ok::<State, ErrorView>(final(self).state()),
                ),
                Err(e) => same(
                    members_code(old(self).ctx(), old(self).state(), name@, views(methods@), 0),
                    Err::<State, ErrorView>(e@),
                ),
            },
        decreases remaining(old(self).ctx().files, old(self).ctx().compiling), 1int, *methods, 0int,
    {
        let ghost start = *self;
        let mut i: usize = 0;
        while i < methods.len()
            invariant
                start == *old(self),
                i <= methods@.len(),
                self.ctx() == start.ctx(),
                same(
                    members_code(start.ctx(), start.state(), name@, views(methods@), 0),
                    members_code(self.ctx(), self.state(), name@, views(methods@), i as int),
                ),
            decreases methods@.len() - i,
        {
            assert(views(methods@)[i as int] == methods@[i as int]@);
            assert(decreases_to!(*methods => methods@));
            assert(decreases_to!(methods@ => methods@[i as int]));
            self.member(name, &methods[i])?;
            i += 1;
        }
        Ok(())
    }

    #[verifier::spinoff_prover]
    fn struct_statement(
        &mut self,
        name: &String,
        fields: &Vec<(String, Type)>,
        methods: &Vec<StructMethod>,
    ) -> (r: Result<(), Error>)
        ensures
            final(self).ctx() == old(self).ctx(),
            match r {
                Ok(t) => same(
                    struct_statement_code(
                        old(self).ctx(),
                        old(self).state(),
                        name@,
                        views(fields@),
                        views(methods@),
                    ),
                    Ok::<State, ErrorView>(final(self).state()),
                ),
                Err(e) => {
                    &&& same(
                        struct_statement_code(
                            old(self).ctx(),
                            old(self).state(),
                            name@,
                            views(fields@),
                            views(methods@),
                        ),
                        Err::<State, ErrorView>(e@),
                    )
                    &&& struct_statement_refused(
                        old(self).state(),
                        name@,
                        views(fields@),
                    ) ==> same(final(self).state(), old(self).state())
                },
            },
        decreases remaining(old(self).ctx().files, old(self).ctx().compiling), 1int, *methods, 1int,
    {
        if self.structs.contains_key(name) {
            return Err(
                Error::Type(cat3("struct '", name.as_str(), "' is already defined")),
            );
        }
        if let Some(field) = repeated_field_of(fields) {
            return Err(
                Error::Type(
                    cat5(
                        "struct '",
                        name.as_str(),
                        "' defines field '",
                        field.as_str(),
                        "' more than once",
                    ),
                ),
            );
        }
        let layout = StructLayout { name: name.clone(), fields: numbered_fields(fields) };
        let _known: bool = self.structs.insert(name.clone(), layout);
        self.declare_methods(name, methods)?;
        self.members(name, methods)
    }

    fn add_export(&mut self, name: &String, export: ModuleExport) -> (r: Result<(), Error>)
        ensures
            final(self).ctx() == old(self).ctx(),
            match r {
                Ok(t) => same(
                    add_export(old(self).state(), name@, export@),
                    Ok::<State, ErrorView>(final(self).state()),
                ),
                Err(e) => same(
                    add_export(old(self).state(), name@, export@),
                    Err::<State, ErrorView>(e@),
                ),
            },
    {
        if export_named(&self.exports, name).is_some() {
            return Err(Error::Type(cat3("module already exports '", name.as_str(), "'")));
        }
        self.exports.push((name.clone(), export));
        Ok(())
    }

    #[verifier::spinoff_prover]
    fn compile_module_function(
        &mut self,
        name: &String,
        body: &Vec<Statement>,
    ) -> (r: Result<(), Error>)
        ensures
            final(self).ctx() == old(self).ctx(),
            match r {
                Ok(t) => same(
                    export_function_code(old(self).ctx(), old(self).state(), name@, views(body@)),
                    Ok::<State, ErrorView>(final(self).state()),
                ),
                Err(e) => {
                    &&& same(
                        export_function_code(old(self).ctx(), old(self).state(), name@, views(body@)),
                        Err::<State, ErrorView>(e@),
                    )
                    &&& find_export(old(self).state().exports, name@, 0) is Some
                        ==> same(final(self).state(), old(self).state())
                },
            },
        decreases remaining(old(self).ctx().files, old(self).ctx().compiling), 1int, *body, 2int,
    {
        if export_named(&self.exports, name).is_some() {
            return Err(Error::Type(cat3("module already exports '", name.as_str(), "'")));
        }
        let skip: usize = self.here();
        self.emit(IrOp::Jump(usize::MAX));
        let entry: usize = self.here();
        self.scoped_block(body)?;
        self.emit(IrOp::Return);
        let after: usize = self.here();
        self.patch(skip, IrOp::Jump(after));
        self.exports.push((name.clone(), ModuleExport::Function { entry }));
        Ok(())
    }

    #[verifier::spinoff_prover]
    fn export_let(
        &mut self,
        name: StringId,
        ty: &Type,
        value: &Expr,
        node: &Statement,
    ) -> (r: Result<(), Error>)
        ensures
            final(self).ctx() == old(self).ctx(),
            match r {
                Ok(t) => same(
                    statement_code(
                        old(self).ctx(),
                        old(self).state(),
                        (StatementView::ExportLet { name, ty: ty@, expr: value@ }),
                    ),
                    Ok::<State, ErrorView>(final(self).state()),
                ),
                Err(e) => {
                    &&& same(
                        statement_code(
                            old(self).ctx(),
                            old(self).state(),
                            (StatementView::ExportLet { name, ty: ty@, expr: value@ }),
                        ),
                        Err::<State, ErrorView>(e@),
                    )
                    &&& refused_at_once(
                        old(self).ctx(),
                        old(self).state(),
                        value@,
                        Some(ty@),
                    ) ==> same(final(self).state(), old(self).state())
                },
            },
        decreases remaining(old(self).ctx().files, old(self).ctx().compiling), 1int, *node, 40int,
    {
        let text = self.string(name);
        self.let_binding(&text, ty, value)?;
        let (slot, found): (usize, Type) = match self.names.get(&text) {
            Some(entry) => (entry.0, entry.1.clone()),
            None => {
                return Err(runtime_error("missing exported local"));
            },
        };
        self.add_export(&text, ModuleExport::Value { slot, ty: found })
    }

    #[verifier::spinoff_prover]
    fn export_struct(
        &mut self,
        name: &String,
        fields: &Vec<(String, Type)>,
        methods: &Vec<StructMethod>,
    ) -> (r: Result<(), Error>)
        ensures
            final(self).ctx() == old(self).ctx(),
            match r {
                Ok(t) => same(
                    statement_code(
                        old(self).ctx(),
                        old(self).state(),
                        (
                            StatementView::ExportStruct {
                                name: name@,
                                fields: views(fields@),
                                methods: views(methods@),
                            }
                        ),
                    ),
                    Ok::<State, ErrorView>(final(self).state()),
                ),
                Err(e) => {
                    &&& same(
                        statement_code(
                            old(self).ctx(),
                            old(self).state(),
                            (
                                StatementView::ExportStruct {
                                    name: name@,
                                    fields: views(fields@),
                                    methods: views(methods@),
                                }
                            ),
                        ),
                        Err::<State, ErrorView>(e@),
                    )
                    &&& struct_statement_refused(
                        old(self).state(),
                        name@,
                        views(fields@),
                    ) ==> same(final(self).state(), old(self).state())
                },
            },
        decreases remaining(old(self).ctx().files, old(self).ctx().compiling), 1int, *methods, 2int,
    {
        self.struct_statement(name, fields, methods)?;
        let layout: StructLayout = match self.structs.get(name) {
            Some(layout) => layout.clone(),
            None => {
                return Err(runtime_error("missing exported struct"));
            },
        };
        self.add_export(name, ModuleExport::Struct(layout))
    }

    /// A statement that defines something, or calls a method.
    #[verifier::spinoff_prover]
    fn definition(&mut self, stmt: &Statement) -> (r: Result<(), Error>)
        requires
            is_definition(stmt@),
        ensures
            final(self).ctx() == old(self).ctx(),
            match r {
                Ok(t) => same(
                    statement_code(old(self).ctx(), old(self).state(), stmt@),
                    Ok::<State, ErrorView>(final(self).state()),
                ),
                Err(e) => {
                    &&& same(
                        statement_code(old(self).ctx(), old(self).state(), stmt@),
                        Err::<State, ErrorView>(e@),
                    )
                    &&& statement_refused(
                        old(self).ctx(),
                        old(self).state(),
                        stmt@,
                    ) ==> same(final(self).state(), old(self).state())
                },
            },
        decreases remaining(old(self).ctx().files, old(self).ctx().compiling), 1int, *stmt, 45int,
    {
        match stmt {
            Statement::Struct { name, fields, methods } => {
                assert(decreases_to!(*stmt => stmt->Struct_methods));
                self.struct_statement(name, fields, methods)
            },
            Statement::MethodDefinition { struct_name, method, args, body } => {
                assert(decreases_to!(*stmt => stmt->MethodDefinition_body));
                self.compile_method_body(struct_name, method, args, body)
            },
            Statement::ExportLet { name, ty, expr } => self.export_let(*name, ty, expr, stmt),
            Statement::ExportStruct { name, fields, methods } => {
                assert(decreases_to!(*stmt => stmt->ExportStruct_methods));
                self.export_struct(name, fields, methods)
            },
            Statement::ExportFunction { name, body } => {
                assert(decreases_to!(*stmt => stmt->ExportFunction_body));
                self.compile_module_function(name, body)
            },
            Statement::CallMethod { receiver, method } => self.call_method(receiver, method),
            _ => Err(type_error("")),
        }
    }

    /// A statement that binds or changes what a name denotes.
    #[verifier::spinoff_prover]
    fn store(&mut self, stmt: &Statement) -> (r: Result<(), Error>)
        requires
            is_store(stmt@),
        ensures
            final(self).ctx() == old(self).ctx(),
            match r {
                Ok(t) => same(
                    statement_code(old(self).ctx(), old(self).state(), stmt@),
                    Ok::<State, ErrorView>(final(self).state()),
                ),
                Err(e) => {
                    &&& same(
                        statement_code(old(self).ctx(), old(self).state(), stmt@),
                        Err::<State, ErrorView>(e@),
                    )
                    &&& statement_refused(
                        old(self).ctx(),
                        old(self).state(),
                        stmt@,
                    ) ==> same(final(self).state(), old(self).state())
                },
            },
        decreases remaining(old(self).ctx().files, old(self).ctx().compiling), 1int, *stmt, 45int,
    {
        match stmt {
            Statement::Let { name, ty, expr } => {
                let text = self.string(*name);
                self.let_binding(&text, ty, expr)
            },
            Statement::Assign { name, expr } => self.assign(name, expr),
            Statement::GlobalAssign { name, expr } => self.global_assign(name, expr),
            Statement::SetIndex { name, indices, expr } => self.set_index(
                name,
                indices,
                expr,
                stmt,
            ),
            Statement::SetField { name, field, expr } => self.set_field(name, field, expr),
            Statement::SetFieldIndex { name, field, index, expr } => self.set_field_index(
                name,
                field,
                index,
                expr,
                stmt,
            ),
            _ => Err(type_error("")),
        }
    }

    /// A statement that prints, branches or loops.
    #[verifier::spinoff_prover]
    fn action(&mut self, stmt: &Statement) -> (r: Result<(), Error>)
        requires
            is_action(stmt@),
        ensures
            final(self).ctx() == old(self).ctx(),
            match r {
                Ok(t) => same(
                    statement_code(old(self).ctx(), old(self).state(), stmt@),
                    Ok::<State, ErrorView>(final(self).state()),
                ),
                Err(e) => {
                    &&& same(
                        statement_code(old(self).ctx(), old(self).state(), stmt@),
                        Err::<State, ErrorView>(e@),
                    )
                    &&& statement_refused(
                        old(self).ctx(),
                        old(self).state(),
                        stmt@,
                    ) ==> same(final(self).state(), old(self).state())
                },
            },
        decreases remaining(old(self).ctx().files, old(self).ctx().compiling), 1int, *stmt, 45int,
    {
        match stmt {
            Statement::Print(expr) => {
                let _ty = self.expr(expr, None)?;
                self.emit(IrOp::Print);
                Ok(())
            },
            Statement::Printf { format, args } => self.printf(format, args, stmt),
            Statement::Putc(expr) => {
                let _ty = self.expr(expr, None)?;
                self.emit(IrOp::Putc);
                Ok(())
            },
            Statement::If { condition, then_body, else_body } => self.if_statement(
                condition,
                then_body,
                else_body,
                stmt,
            ),
            Statement::While { condition, body } => self.while_statement(condition, body, stmt),
            Statement::For { name, start, end, body } => self.for_statement(
                name,
                start,
                end,
                body,
                stmt,
            ),
            Statement::ForIn { name, iterable, body } => self.for_in_statement(
                name,
                iterable,
                body,
                stmt,
            ),
            Statement::Break => self.leave(true),
            Statement::Continue => self.leave(false),
            _ => Err(type_error("")),
        }
    }

    #[verifier::spinoff_prover]
    fn statement(&mut self, stmt: &Statement) -> (r: Result<(), Error>)
        ensures
            final(self).ctx() == old(self).ctx(),
            match r {
                Ok(t) => same(
                    statement_code(old(self).ctx(), old(self).state(), stmt@),
                    Ok::<State, ErrorView>(final(self).state()),
                ),
                Err(e) => {
                    &&& same(
                        statement_code(old(self).ctx(), old(self).state(), stmt@),
                        Err::<State, ErrorView>(e@),
                    )
                    &&& statement_refused(
                        old(self).ctx(),
                        old(self).state(),
                        stmt@,
                    ) ==> same(final(self).state(), old(self).state())
                },
            },
        decreases remaining(old(self).ctx().files, old(self).ctx().compiling), 1int, *stmt, 50int,
    {
        match stmt {
            Statement::Located { node, location } => match self.statement(node) {
                Ok(_) => Ok(()),
                Err(e) => Err(e.at(*location)),
            },
            Statement::Struct { .. }
            | Statement::MethodDefinition { .. }
            | Statement::ExportLet { .. }
            | Statement::ExportStruct { .. }
            | Statement::ExportFunction { .. }
            | Statement::CallMethod { .. } => self.definition(stmt),
            Statement::Let { .. }
            | Statement::Assign { .. }
            | Statement::GlobalAssign { .. }
            | Statement::SetIndex { .. }
            | Statement::SetField { .. }
            | Statement::SetFieldIndex { .. } => self.store(stmt),
            _ => self.action(stmt),
        }
    }

    fn resolve_pending(&mut self, pending: &Vec<(usize, String, String)>) -> (r: Result<(), Error>)
        ensures
            final(self).ctx() == old(self).ctx(),
            match r {
                Ok(t) => same(
                    resolve_pending(old(self).state(), views(pending@), 0),
                    Ok::<State, ErrorView>(final(self).state()),
                ),
                Err(e) => same(
                    resolve_pending(old(self).state(), views(pending@), 0),
                    Err::<State, ErrorView>(e@),
                ),
            },
    {
        let ghost start = *self;
        let mut i: usize = 0;
        while i < pending.len()
            invariant
                start == *old(self),
                i <= pending@.len(),
                self.ctx() == start.ctx(),
                same(
                    resolve_pending(start.state(), views(pending@), 0),
                    resolve_pending(self.state(), views(pending@), i as int),
                ),
            decreases pending@.len() - i,
        {
            assert(views(pending@)[i as int] == pending@[i as int]@);
            let position: usize = pending[i].0;
            let target: usize = match self.method_entry(&pending[i].1, &pending[i].2) {
                Some(target) => target,
                None => {
                    return Err(
                        Error::Type(
                            cat5(
                                "struct '",
                                pending[i].1.as_str(),
                                "' has no defined method '",
                                pending[i].2.as_str(),
                                "'",
                            ),
                        ),
                    );
                },
            };
            assert(self.state().code.len() == self.code@.len());
            if position >= self.code.len() {
                return Err(runtime_error("invalid pending method call"));
            }
            assert(self.state().code[position as int] == self.code@[position as int]@);
            let op: IrOp = match &self.code[position] {
                IrOp::CallMethod(slot, _) => IrOp::CallMethod(*slot, target),
                IrOp::CallCurrentMethod(_) => IrOp::CallCurrentMethod(target),
                IrOp::TrackDestructor(slot, _) => IrOp::TrackDestructor(*slot, target),
                _ => {
                    return Err(runtime_error("invalid pending method call"));
                },
            };
            self.patch(position, op);
            i += 1;
        }
        Ok(())
    }

    #[verifier::spinoff_prover]
    fn compile_program(&mut self, program: &Vec<Statement>) -> (r: Result<(), Error>)
        ensures
            final(self).ctx() == old(self).ctx(),
            match r {
                Ok(t) => same(
                    compiled_program(old(self).ctx(), old(self).state(), views(program@)),
                    Ok::<State, ErrorView>(final(self).state()),
                ),
                Err(e) => same(
                    compiled_program(old(self).ctx(), old(self).state(), views(program@)),
                    Err::<State, ErrorView>(e@),
                ),
            },
        decreases remaining(old(self).ctx().files, old(self).ctx().compiling), 1int, *program, 1int,
    {
        self.statements(program)?;
        let mut pending: Vec<(usize, String, String)> = Vec::new();
        std::mem::swap(&mut pending, &mut self.pending_method_calls);
        self.resolve_pending(&pending)
    }

    /// Compiles a program.
    pub fn compile(self, program: Vec<Statement>) -> (r: Result<FlatBytecode, Error>)
        ensures
            match (r, compiled_program(self.ctx(), self.state(), views(program@))) {
                (Ok(code), Ok(done)) => code@ == lowered(done.code),
                (Err(e), Err(x)) => e@ == x,
                _ => false,
            },
    {
        let mut compiler = self;
        match compiler.compile_program(&program) {
            Ok(_) => Ok(FlatBytecode::lower(compiler.code)),
            Err(e) => Err(e),
        }
    }

    /// Compiles a module.
    #[verifier::spinoff_prover]
    pub fn compile_module(
        self,
        id: String,
        program: Vec<Statement>,
    ) -> (r: Result<ModuleArtifact, Error>)
        ensures
            match r {
                Ok(t) => same(
                    compiled_module(self.ctx(), id@, self.state(), views(program@)),
                    Ok::<ArtifactView, ErrorView>(t@),
                ),
                Err(e) => same(
                    compiled_module(self.ctx(), id@, self.state(), views(program@)),
                    Err::<ArtifactView, ErrorView>(e@),
                ),
            },
        decreases remaining(self.ctx().files, self.ctx().compiling), 1int, program, 2int,
    {
        let mut compiler = self;
        compiler.compile_program(&program)?;
        let exports = exports_with_word_entries(compiler.exports);
        let code = FlatBytecode::lower(compiler.code);
        Ok(ModuleArtifact { id, code: Rc::new(code), exports })
    }

    /// A compiler with module files to import from.
    pub fn with_module_files(files: Vec<(String, ModuleFile)>) -> (r: Self)
        ensures
            r.state() == empty_state(),
            r.ctx() == (Context {
                rooted: true,
                files: views(files@),
                compiling: Seq::empty(),
                externs: Map::empty(),
                strings: Seq::empty(),
            }),
    {
        Compiler { rooted: true, files: Rc::new(files), ..Compiler::default() }
    }

    /// A compiler with host functions to call.
    pub fn with_extern_functions(extern_functions: Dict<String, HostSignature>) -> (r: Self)
        ensures
            r.state() == empty_state(),
            r.ctx() == (Context {
                rooted: false,
                files: Seq::empty(),
                compiling: Seq::empty(),
                externs: extern_functions@,
                strings: Seq::empty(),
            }),
    {
        Compiler { extern_functions: Rc::new(extern_functions), ..Compiler::default() }
    }

    /// The same compiler with the texts of a program.
    pub fn with_strings(self, strings: StringInterner) -> (r: Self)
        ensures
            r.state() == self.state(),
            r.ctx() == (Context { strings: strings@, ..self.ctx() }),
    {
        Compiler { strings, ..self }
    }

}

/// The structs that a module offers, imported under a name.
pub open spec fn imported(c: State, binding: Seq<char>, id: Seq<char>) -> Result<State, ErrorView> {
    if c.artifacts.contains_key(id) {
        import_structs(c, binding, c.artifacts[id].exports, 0)
    } else {
        Err(ErrorView::Runtime("missing compiled module"@))
    }
}

/// The locals in reverse order.
fn reversed(locals: &Vec<DestructorLocal>) -> (r: Vec<DestructorLocal>)
    ensures
        views(r@) == views(locals@).reverse(),
{
    let mut out: Vec<DestructorLocal> = Vec::new();
    let mut n: usize = locals.len();
    while n > 0
        invariant
            n <= locals@.len(),
            out@.len() == locals@.len() - n,
            forall|i: int|
                0 <= i < out@.len() ==> #[trigger] out@[i]@ == locals@[locals@.len() - 1 - i]@,
        decreases n,
    {
        n -= 1;
        out.push(locals[n].duplicate());
    }
    assert(views(out@) =~= views(locals@).reverse());
    out
}

impl Default for Compiler {
    fn default() -> (r: Self)
        ensures
            r.state() == empty_state(),
            r.ctx() == (Context {
                rooted: false,
                files: Seq::empty(),
                compiling: Seq::empty(),
                externs: Map::empty(),
                strings: Seq::empty(),
            }),
    {
        Compiler {
            names: Dict::new(),
            structs: Dict::new(),
            globals: Dict::new(),
            methods: Dict::new(),
            pending_method_calls: Vec::new(),
            current_method_fields: None,
            current_method_struct: None,
            rooted: false,
            files: Rc::new(Vec::new()),
            compiling: Vec::new(),
            module_artifacts: Dict::new(),
            exports: Vec::new(),
            extern_functions: Rc::new(Dict::new()),
            code: Vec::new(),
            strings: StringInterner::new(),
            interned_names: Dict::new(),
            next_slot: 0,
            scope_depth: 0,
            scope_stack: Vec::new(),
            loops: Vec::new(),
        }
    }
}

} // verus!
