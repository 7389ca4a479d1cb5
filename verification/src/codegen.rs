//! What the compiler makes of a syntax tree: instructions, types and errors.
use vstd::prelude::*;
use crate::ast::{ExprView, KeyLiteralView, MethodView, ReceiverView, StatementView};
use crate::code::{ArtifactView, CodeView, EntryView, ExportView};
use crate::grammar::{Source, program};
use crate::ir::{OpView, lowered};
use crate::lexer::{StringId, lexed};
use crate::ops::{BinOp, BinaryOp, BuiltinFn, TensorInit, binary_builtin, op_text, unary_builtin};
use crate::text::decimal;
use crate::types::{
    ErrorView, Type, TypeView, compatible, error_at, float_type, integer_type, numeric_type,
    scalar_size_of, type_text,
};
use crate::value::{FieldView, LayoutView, TableKey, Value, ValueView, int_value_of};

verus! {

/// The types of a host function's arguments and of its result.
pub struct SignatureView {
    pub arguments: Seq<TypeView>,
    pub result: TypeView,
}

/// What became of a module path.
pub enum FileView {
    /// The path is absolute.
    Absolute,
    /// No file was found, with the reason.
    Unresolved(Seq<char>),
    /// The file lies outside the module root.
    Escapes,
    /// The file's unique name, and its text or why it could not be read.
    Found { id: Seq<char>, source: Result<Seq<char>, Seq<char>> },
}

/// What a compilation is given and does not change.
pub struct Context {
    /// Whether modules can be imported at all.
    pub rooted: bool,
    pub files: Seq<(Seq<char>, FileView)>,
    /// The modules whose compilation waits for this one.
    pub compiling: Seq<Seq<char>>,
    pub externs: Map<Seq<char>, SignatureView>,
    pub strings: Seq<Seq<char>>,
}

/// The text with a number; one without a text stands for none.
pub open spec fn text_in(ctx: Context, id: StringId) -> Seq<char> {
    if id.0 < ctx.strings.len() {
        ctx.strings[id.0 as int]
    } else {
        Seq::empty()
    }
}

/// A loop whose end is still to come.
pub struct LoopView {
    pub break_jumps: Seq<usize>,
    pub continue_jumps: Seq<usize>,
    pub scope_base: int,
}

/// What a compilation has gathered.
pub struct State {
    pub names: Map<Seq<char>, (usize, TypeView)>,
    pub structs: Map<Seq<char>, LayoutView>,
    pub globals: Map<Seq<char>, (usize, TypeView)>,
    /// The methods of structs, by struct and name, with their entries once known.
    pub methods: Map<(Seq<char>, Seq<char>), Option<usize>>,
    /// Instructions that wait for the entry of a method.
    pub pending: Seq<(usize, Seq<char>, Seq<char>)>,
    pub method_fields: Option<Seq<FieldView>>,
    pub method_struct: Option<Seq<char>>,
    pub artifacts: Map<Seq<char>, ArtifactView>,
    pub exports: Seq<(Seq<char>, ExportView)>,
    pub code: Seq<OpView>,
    pub next_slot: usize,
    /// Whether the code stands inside a block.
    pub nested: bool,
    /// For each open block the locals that have a destructor.
    pub scopes: Seq<Seq<(usize, Seq<char>)>>,
    pub loops: Seq<LoopView>,
}

pub open spec fn empty_state() -> State {
    State {
        names: Map::empty(),
        structs: Map::empty(),
        globals: Map::empty(),
        methods: Map::empty(),
        pending: Seq::empty(),
        method_fields: None,
        method_struct: None,
        artifacts: Map::empty(),
        exports: Seq::empty(),
        code: Seq::empty(),
        next_slot: 0,
        nested: false,
        scopes: Seq::empty(),
        loops: Seq::empty(),
    }
}

/// The state after one more instruction.
pub open spec fn emit(c: State, op: OpView) -> State {
    State { code: c.code.push(op), ..c }
}

/// The state after an instruction was replaced.
pub open spec fn patch(c: State, at: usize, op: OpView) -> State {
    if at < c.code.len() {
        State { code: c.code.update(at as int, op), ..c }
    } else {
        c
    }
}

/// The number of module files that are not being compiled.
pub open spec fn remaining(files: Seq<(Seq<char>, FileView)>, compiling: Seq<Seq<char>>) -> nat
    decreases files.len(),
{
    if files.len() == 0 {
        0
    } else {
        remaining(files.drop_last(), compiling) + match files.last().1 {
            FileView::Found { id, .. } => if compiling.contains(id) {
                0nat
            } else {
                1nat
            },
            _ => 0nat,
        }
    }
}

pub proof fn lemma_remaining_shrinks(
    files: Seq<(Seq<char>, FileView)>,
    compiling: Seq<Seq<char>>,
    id: Seq<char>,
    i: int,
)
    requires
        0 <= i < files.len(),
        files[i].1 matches FileView::Found { id: found, .. } && found == id,
        !compiling.contains(id),
    ensures
        remaining(files, compiling.push(id)) < remaining(files, compiling),
    decreases files.len(),
{
    lemma_remaining_grows_less(files.drop_last(), compiling, id);
    assert(compiling.push(id)[compiling.len() as int] == id);
    assert(compiling.push(id).contains(id));
    if let FileView::Found { id: last, .. } = files.last().1 {
        if compiling.contains(last) {
            let k = choose|k: int| 0 <= k < compiling.len() && compiling[k] == last;
            assert(compiling.push(id)[k] == last);
        }
    }
    if i < files.len() - 1 {
        lemma_remaining_shrinks(files.drop_last(), compiling, id, i);
    }
}

proof fn lemma_remaining_grows_less(
    files: Seq<(Seq<char>, FileView)>,
    compiling: Seq<Seq<char>>,
    id: Seq<char>,
)
    ensures
        remaining(files, compiling.push(id)) <= remaining(files, compiling),
    decreases files.len(),
{
    if files.len() > 0 {
        lemma_remaining_grows_less(files.drop_last(), compiling, id);
        if let FileView::Found { id: last, .. } = files.last().1 {
            if compiling.contains(last) {
                let k = choose|k: int| 0 <= k < compiling.len() && compiling[k] == last;
                assert(compiling.push(id)[k] == last);
            }
        }
    }
}

/// The position of a module path among the files, or their number.
pub open spec fn find_file(files: Seq<(Seq<char>, FileView)>, path: Seq<char>, i: int) -> int
    decreases files.len() - i,
{
    if i < 0 || i >= files.len() || files[i].0 == path {
        i
    } else {
        find_file(files, path, i + 1)
    }
}

/// The first field with a name.
pub open spec fn find_field(fields: Seq<FieldView>, name: Seq<char>, i: int) -> Option<FieldView>
    decreases fields.len() - i,
{
    if i < 0 || i >= fields.len() {
        None
    } else if fields[i].name == name {
        Some(fields[i])
    } else {
        find_field(fields, name, i + 1)
    }
}

/// The field of the current method's struct with a name.
pub open spec fn method_field(c: State, name: Seq<char>) -> Option<FieldView> {
    match c.method_fields {
        Some(fields) => find_field(fields, name, 0),
        None => None,
    }
}

/// The export with a name.
pub open spec fn find_export(
    exports: Seq<(Seq<char>, ExportView)>,
    name: Seq<char>,
    i: int,
) -> Option<ExportView>
    decreases exports.len() - i,
{
    if i < 0 || i >= exports.len() {
        None
    } else if exports[i].0 == name {
        Some(exports[i].1)
    } else {
        find_export(exports, name, i + 1)
    }
}

pub open spec fn unknown_name(name: Seq<char>) -> ErrorView {
    ErrorView::Type("unknown name '"@ + name + "'"@)
}

pub open spec fn unknown_struct(name: Seq<char>) -> ErrorView {
    ErrorView::Type("unknown struct '"@ + name + "'"@)
}

pub open spec fn no_field(struct_name: Seq<char>, field: Seq<char>) -> ErrorView {
    ErrorView::Type("struct '"@ + struct_name + "' has no field '"@ + field + "'"@)
}

/// The field of a struct with a name.
pub open spec fn struct_field(
    c: State,
    struct_name: Seq<char>,
    field: Seq<char>,
) -> Result<FieldView, ErrorView> {
    if !c.structs.contains_key(struct_name) {
        Err(unknown_struct(struct_name))
    } else {
        match find_field(c.structs[struct_name].fields, field, 0) {
            Some(f) => Ok(f),
            None => Err(no_field(struct_name, field)),
        }
    }
}

/// The instruction for a binary operator on operands of a type.
pub open spec fn binary_opcode(op: BinOp, t: TypeView) -> Result<BinaryOp, ErrorView> {
    match op {
        BinOp::Eq => Ok(BinaryOp::Equal),
        BinOp::Neq => Ok(BinaryOp::NotEqual),
        _ => match t {
            TypeView::I8 => Ok(BinaryOp::I8(op)),
            TypeView::I16 => Ok(BinaryOp::I16(op)),
            TypeView::I32 => Ok(BinaryOp::I32(op)),
            TypeView::I64 => Ok(BinaryOp::I64(op)),
            TypeView::U8 => Ok(BinaryOp::U8(op)),
            TypeView::U16 => Ok(BinaryOp::U16(op)),
            TypeView::U32 => Ok(BinaryOp::U32(op)),
            TypeView::U64 => Ok(BinaryOp::U64(op)),
            TypeView::F16 => Ok(BinaryOp::F16(op)),
            TypeView::BF16 => Ok(BinaryOp::BF16(op)),
            TypeView::F32 => Ok(BinaryOp::F32(op)),
            TypeView::F64 => Ok(BinaryOp::F64(op)),
            _ => Err(ErrorView::Type("unsupported binary operand type "@ + type_text(t))),
        },
    }
}

/// The name of the native extension, which needs no file.
pub open spec fn is_extension(path: Seq<char>) -> bool {
    path == "candle"@
}

/// The artifact of a native extension: no code and no exports.
pub open spec fn extension_artifact(path: Seq<char>) -> ArtifactView {
    ArtifactView {
        id: path,
        code: Box::new(CodeView { words: Seq::empty(), constants: Seq::empty() }),
        exports: Seq::empty(),
    }
}

/// A module's exports with function entries counted in words.
pub open spec fn exports_in_words(
    exports: Seq<(Seq<char>, ExportView)>,
) -> Seq<(Seq<char>, ExportView)> {
    Seq::new(
        exports.len(),
        |i: int|
            match exports[i].1 {
                ExportView::Function { entry } => (
                    exports[i].0,
                    ExportView::Function { entry: entry.wrapping_mul(4) },
                ),
                _ => exports[i],
            },
    )
}

/// The source of a module, parsed.
pub open spec fn parsed_module(text: Seq<char>) -> Result<(
    Seq<StatementView>,
    Seq<Seq<char>>,
), ErrorView> {
    match lexed(text) {
        Err(e) => Err(e),
        Ok((tokens, strings)) => match program(Source { tokens, strings }) {
            Err(e) => Err(e),
            Ok(statements) => Ok((statements, strings)),
        },
    }
}

/// A compiled module.
pub open spec fn compiled_module(
    ctx: Context,
    id: Seq<char>,
    c: State,
    statements: Seq<StatementView>,
) -> Result<ArtifactView, ErrorView>
    decreases remaining(ctx.files, ctx.compiling), 1int, statements, statements.len() + 2,
{
    match compiled_program(ctx, c, statements) {
        Err(e) => Err(e),
        Ok(done) => Ok(
            ArtifactView {
                id,
                code: Box::new(lowered(done.code)),
                exports: exports_in_words(done.exports),
            },
        ),
    }
}

/// A compiled program: its statements, with the entries of methods filled in.
pub open spec fn compiled_program(
    ctx: Context,
    c: State,
    statements: Seq<StatementView>,
) -> Result<State, ErrorView>
    decreases remaining(ctx.files, ctx.compiling), 1int, statements, statements.len() + 1,
{
    match block_code(ctx, c, statements, 0) {
        Err(e) => Err(e),
        Ok(c1) => resolve_pending(State { pending: Seq::empty(), ..c1 }, c1.pending, 0),
    }
}

/// Fills in the entries of the methods that instructions wait for.
pub open spec fn resolve_pending(
    c: State,
    pending: Seq<(usize, Seq<char>, Seq<char>)>,
    i: int,
) -> Result<State, ErrorView>
    decreases pending.len() - i,
{
    if i < 0 || i >= pending.len() {
        Ok(c)
    } else {
        let (position, struct_name, method) = pending[i];
        match method_entry(c, struct_name, method) {
            None => Err(
                ErrorView::Type(
                    "struct '"@ + struct_name + "' has no defined method '"@ + method + "'"@,
                ),
            ),
            Some(target) => if position < c.code.len() {
                match retargeted(c.code[position as int], target) {
                    Some(op) => resolve_pending(patch(c, position, op), pending, i + 1),
                    None => Err(ErrorView::Runtime("invalid pending method call"@)),
                }
            } else {
                Err(ErrorView::Runtime("invalid pending method call"@))
            },
        }
    }
}

/// The instruction with another entry, where it has one.
pub open spec fn retargeted(op: OpView, target: usize) -> Option<OpView> {
    match op {
        OpView::CallMethod(slot, _) => Some(OpView::CallMethod(slot, target)),
        OpView::CallCurrentMethod(_) => Some(OpView::CallCurrentMethod(target)),
        OpView::TrackDestructor(slot, _) => Some(OpView::TrackDestructor(slot, target)),
        _ => None,
    }
}

/// The entry of a method, once its body is compiled.
pub open spec fn method_entry(c: State, struct_name: Seq<char>, method: Seq<char>) -> Option<usize> {
    if c.methods.contains_key((struct_name, method)) {
        c.methods[(struct_name, method)]
    } else {
        None
    }
}

/// Imports a module for the expression `node`: the state that knows it, and its artifact.
pub open spec fn load_module(
    ctx: Context,
    c: State,
    path: Seq<char>,
    node: ExprView,
) -> Result<(State, ArtifactView), ErrorView>
    decreases remaining(ctx.files, ctx.compiling), 0int, node, 10int,
{
    if is_extension(path) {
        let artifact = extension_artifact(path);
        Ok((State { artifacts: c.artifacts.insert(path, artifact), ..c }, artifact))
    } else if !ctx.rooted {
        Err(ErrorView::Type("require is available only when executing an .l0 file"@))
    } else {
        let i = find_file(ctx.files, path, 0);
        if !(0 <= i < ctx.files.len()) {
            Err(ErrorView::Runtime("cannot load module '"@ + path + "': "@ + "no such file"@))
        } else {
            match ctx.files[i].1 {
                FileView::Absolute => Err(ErrorView::Type("module path must be relative"@)),
                FileView::Unresolved(reason) => Err(
                    ErrorView::Runtime("cannot load module '"@ + path + "': "@ + reason),
                ),
                FileView::Escapes => Err(
                    ErrorView::Type("module '"@ + path + "' escapes the module root"@),
                ),
                FileView::Found { id, source } => if c.artifacts.contains_key(id) {
                    Ok((c, c.artifacts[id]))
                } else if ctx.compiling.contains(id) {
                    Err(ErrorView::Type("cyclic module import involving '"@ + path + "'"@))
                } else {
                    match source {
                        Err(reason) => Err(
                            ErrorView::Runtime("cannot read module '"@ + path + "': "@ + reason),
                        ),
                        Ok(text) => match parsed_module(text) {
                            Err(e) => Err(e),
                            Ok((statements, strings)) => {
                                let inner = Context {
                                    compiling: ctx.compiling.push(id),
                                    strings,
                                    ..ctx
                                };
                                proof {
                                    lemma_remaining_shrinks(ctx.files, ctx.compiling, id, i);
                                }
                                match compiled_module(inner, id, empty_state(), statements) {
                                    Err(e) => Err(e),
                                    Ok(artifact) => Ok(
                                        (
                                            State {
                                                artifacts: c.artifacts.insert(id, artifact),
                                                ..c
                                            },
                                            artifact,
                                        ),
                                    ),
                                }
                            },
                        },
                    }
                },
            }
        }
    }
}

/// The error for an expression whose type does not fit.
pub open spec fn mismatch(
    before: Seq<char>,
    found: TypeView,
    between: Seq<char>,
    expected: TypeView,
) -> ErrorView {
    ErrorView::Type(before + type_text(found) + between + type_text(expected))
}

/// An expression: the state with its code, and its type.
pub open spec fn expr_code(
    ctx: Context,
    c: State,
    e: ExprView,
    expected: Option<TypeView>,
) -> Result<(State, TypeView), ErrorView>
    decreases remaining(ctx.files, ctx.compiling), 0int, e, 50int,
{
    match e {
        ExprView::Located { node, location } => match expr_code(ctx, c, *node, expected) {
            Err(x) => Err(error_at(x, location)),
            Ok(done) => Ok(done),
        },
        ExprView::Integer(n) => {
            let t = match expected {
                Some(t) => t,
                None => TypeView::I32,
            };
            match int_value_of(n as int, t) {
                Err(x) => Err(x),
                Ok(v) => Ok((emit(c, OpView::Push(v)), t)),
            }
        },
        ExprView::Float(id) => {
            let t = match expected {
                Some(t) => t,
                None => TypeView::F64,
            };
            if float_type(t) {
                Ok((emit(c, OpView::PushFloat(text_in(ctx, id), t)), t))
            } else {
                Err(ErrorView::Type("float literal cannot initialize "@ + type_text(t)))
            }
        },
        ExprView::String(id) => Ok(
            (emit(c, OpView::MakeString(text_in(ctx, id))), TypeView::String),
        ),
        ExprView::Input => match expected {
            Some(t) => if numeric_type(t) || t == TypeView::String {
                Ok((emit(c, OpView::Input(t)), t))
            } else {
                Err(
                    ErrorView::Type(
                        "input needs an expected scalar or string type, e.g. let value: i32 = input"@,
                    ),
                )
            },
            None => Err(
                ErrorView::Type(
                    "input needs an expected scalar or string type, e.g. let value: i32 = input"@,
                ),
            ),
        },
        ExprView::This => match c.method_struct {
            Some(name) => Ok((emit(c, OpView::LoadCurrentReceiver), TypeView::Struct(name))),
            None => Err(ErrorView::Type("this is available only inside a struct method"@)),
        },
        ExprView::Require(path) => match load_module(ctx, c, path, e) {
            Err(x) => Err(x),
            Ok((c1, artifact)) => Ok(
                (
                    emit(c1, OpView::Require(Box::new(artifact))),
                    TypeView::Module(artifact.id),
                ),
            ),
        },
        ExprView::GlobalName(id) => {
            let name = text_in(ctx, id);
            if c.globals.contains_key(name) {
                Ok((emit(c, OpView::Load(c.globals[name].0)), c.globals[name].1))
            } else {
                Err(ErrorView::Type("unknown global name '"@ + name + "'"@))
            }
        },
        ExprView::Name(id) => {
            let name = text_in(ctx, id);
            match method_field(c, name) {
                Some(field) => Ok((emit(c, OpView::LoadCurrentField(field)), field.ty)),
                None => if c.names.contains_key(name) {
                    Ok((emit(c, OpView::Load(c.names[name].0)), c.names[name].1))
                } else {
                    Err(unknown_name(name))
                },
            }
        },
        ExprView::Array(items) => array_code(ctx, c, items, expected),
        ExprView::Table(items) => table_code(ctx, c, items, expected),
        ExprView::TensorFactory { name, element, shape } => tensor_code(
            ctx,
            c,
            name,
            element,
            *shape,
            expected,
        ),
        ExprView::StructLiteral(name, fields) => struct_code(ctx, c, name, fields, expected),
        ExprView::Cast(inner, target) => match expr_code(ctx, c, *inner, None) {
            Err(x) => Err(x),
            Ok((c1, source)) => if numeric_type(source) && numeric_type(target) {
                Ok((emit(c1, OpView::Cast(target)), target))
            } else {
                Err(mismatch("cannot cast "@, source, " to "@, target))
            },
        },
        ExprView::Call(name, args) => call_code(ctx, c, name, args, expected),
        ExprView::Unary(op, inner) => match expr_code(ctx, c, *inner, expected) {
            Err(x) => Err(x),
            Ok((c1, t)) => if op is Neg && !numeric_type(t) {
                Err(ErrorView::Type("'-' requires a numeric type"@))
            } else if op is Not && t != TypeView::Bool {
                Err(ErrorView::Type("'!' requires a bool"@))
            } else {
                Ok((emit(c1, OpView::Unary(op, t)), t))
            },
        },
        ExprView::Binary(left, op, right) => if op is And || op is Or {
            logical_code(ctx, c, e)
        } else {
            binary_code(ctx, c, e, expected)
        },
        ExprView::Index(container, indices) => match expr_code(ctx, c, *container, None) {
            Err(x) => Err(x),
            Ok((c1, t)) => index_code(ctx, c1, t, indices),
        },
        ExprView::Field(container, field) => match expr_code(ctx, c, *container, None) {
            Err(x) => Err(x),
            Ok((c1, t)) => field_code(c1, t, field),
        },
    }
}

/// `left && right` and `left || right`: the right side runs only where the
/// left one does not decide.
pub open spec fn logical_code(
    ctx: Context,
    c: State,
    e: ExprView,
) -> Result<(State, TypeView), ErrorView>
    recommends
        e is Binary,
    decreases remaining(ctx.files, ctx.compiling), 0int, e, 40int,
{
    let wrong = ErrorView::Type("logical operators require bool"@);
    let (left, and, right) = match e {
        ExprView::Binary(left, op, right) => (*left, op is And, *right),
        _ => (ExprView::Input, false, ExprView::Input),
    };
    if !(e is Binary) {
        Err(wrong)
    } else {
        match expr_code(ctx, c, left, Some(TypeView::Bool)) {
            Err(x) => Err(x),
            Ok((c1, lt)) => if lt != TypeView::Bool {
                Err(wrong)
            } else {
                let jump = c1.code.len() as usize;
                let c2 = emit(
                    c1,
                    if and {
                        OpView::JumpIfFalseKeep(usize::MAX)
                    } else {
                        OpView::JumpIfTrueKeep(usize::MAX)
                    },
                );
                match expr_code(ctx, c2, right, Some(TypeView::Bool)) {
                    Err(x) => Err(x),
                    Ok((c3, rt)) => if rt != TypeView::Bool {
                        Err(wrong)
                    } else {
                        let end = c3.code.len() as usize;
                        Ok(
                            (
                                patch(
                                    c3,
                                    jump,
                                    if and {
                                        OpView::JumpIfFalseKeep(end)
                                    } else {
                                        OpView::JumpIfTrueKeep(end)
                                    },
                                ),
                                TypeView::Bool,
                            ),
                        )
                    },
                }
            },
        }
    }
}

/// The code of an operator whose operands have been compiled.
pub open spec fn operator_code(
    c: State,
    op: BinOp,
    t: TypeView,
) -> Result<(State, TypeView), ErrorView> {
    let result = if op is Eq || op is Neq || op is Lt || op is Le || op is Gt || op is Ge {
        TypeView::Bool
    } else {
        t
    };
    if op is Add && t == TypeView::String {
        Ok((emit(c, OpView::ConcatString), TypeView::String))
    } else if (op is Add || op is Sub || op is Mul || op is Div || op is Mod) && !numeric_type(t) {
        Err(ErrorView::Type("arithmetic requires numeric types"@))
    } else if (op is BitAnd || op is BitOr || op is BitXor || op is Shl || op is Shr)
        && !integer_type(t) {
        Err(ErrorView::Type("bitwise operations require integer types"@))
    } else if (op is Lt || op is Le || op is Gt || op is Ge) && !numeric_type(t) {
        Err(ErrorView::Type("comparisons require numeric types"@))
    } else if op is Add && t is I32 {
        Ok((emit(c, OpView::AddI32), t))
    } else if op is Add && t is F32 {
        Ok((emit(c, OpView::AddF32), t))
    } else if op is Add && t is F64 {
        Ok((emit(c, OpView::AddF64), t))
    } else {
        match binary_opcode(op, t) {
            Err(x) => Err(x),
            Ok(opcode) => Ok((emit(c, OpView::Binary(opcode)), result)),
        }
    }
}

/// A binary operator that evaluates both operands.
pub open spec fn binary_code(
    ctx: Context,
    c: State,
    e: ExprView,
    expected: Option<TypeView>,
) -> Result<(State, TypeView), ErrorView>
    recommends
        e is Binary,
    decreases remaining(ctx.files, ctx.compiling), 0int, e, 40int,
{
    let (left, op, right) = match e {
        ExprView::Binary(left, op, right) => (*left, op, *right),
        _ => (ExprView::Input, BinOp::Add, ExprView::Input),
    };
    let left_expected = if op is Eq || op is Neq || op is Lt || op is Le || op is Gt || op is Ge {
        None
    } else {
        expected
    };
    if !(e is Binary) {
        Err(ErrorView::Type(Seq::empty()))
    } else {
        match expr_code(ctx, c, left, left_expected) {
            Err(x) => Err(x),
            Ok((c1, lt)) => match expr_code(ctx, c1, right, Some(lt)) {
                Err(x) => Err(x),
                Ok((c2, rt)) => if !compatible(lt, rt) {
                    Err(
                        ErrorView::Type(
                            "operator "@ + op_text(op) + " needs matching types, got "@
                                + type_text(lt) + " and "@ + type_text(rt),
                        ),
                    )
                } else {
                    operator_code(c2, op, lt)
                },
            },
        }
    }
}

/// Items of an array literal from `i` on.
pub open spec fn items_code(
    ctx: Context,
    c: State,
    items: Seq<ExprView>,
    i: int,
    element: TypeView,
) -> Result<State, ErrorView>
    decreases remaining(ctx.files, ctx.compiling), 0int, items, items.len() - i,
{
    if i < 0 || i >= items.len() {
        Ok(c)
    } else {
        match expr_code(ctx, c, items[i], Some(element)) {
            Err(x) => Err(x),
            Ok((c1, found)) => if compatible(element, found) {
                items_code(ctx, c1, items, i + 1, element)
            } else {
                Err(mismatch("array item is "@, found, "; expected "@, element))
            },
        }
    }
}

/// An array literal.
pub open spec fn array_code(
    ctx: Context,
    c: State,
    items: Seq<ExprView>,
    expected: Option<TypeView>,
) -> Result<(State, TypeView), ErrorView>
    decreases remaining(ctx.files, ctx.compiling), 0int, items, items.len() + 1,
{
    let first = match expected {
        Some(TypeView::Array(t)) => Ok((c, *t)),
        Some(other) => Err(
            ErrorView::Type(
                "expected "@ + type_text(other) + ", but array literal creates a vector"@,
            ),
        ),
        None => if items.len() == 0 {
            Err(ErrorView::Type("cannot infer the element type of an empty array"@))
        } else {
            expr_code(ctx, c, items[0], None)
        },
    };
    match first {
        Err(x) => Err(x),
        Ok((c1, element)) => match scalar_size_of(element) {
            Err(x) => Err(x),
            Ok(_) => match items_code(
                ctx,
                c1,
                items,
                if expected is None {
                    1
                } else {
                    0
                },
                element,
            ) {
                Err(x) => Err(x),
                Ok(c2) => Ok(
                    (
                        emit(c2, OpView::MakeArray(items.len() as usize, element)),
                        TypeView::Array(Box::new(element)),
                    ),
                ),
            },
        },
    }
}

/// A table key: an integer, a string or a key.
pub open spec fn key_code(ctx: Context, c: State, key: ExprView) -> Result<State, ErrorView>
    decreases remaining(ctx.files, ctx.compiling), 0int, key, 51int,
{
    match expr_code(ctx, c, key, None) {
        Err(x) => Err(x),
        Ok((c1, t)) => if integer_type(t) || t is String || t is TableKey {
            Ok(c1)
        } else {
            Err(ErrorView::Type("table key must be an integer or string"@))
        },
    }
}

/// The key of a table literal's entry.
pub open spec fn literal_key_code(
    ctx: Context,
    c: State,
    key: KeyLiteralView,
) -> Result<(State, EntryView), ErrorView>
    decreases remaining(ctx.files, ctx.compiling), 0int, key, 0int,
{
    match key {
        KeyLiteralView::Name(name) => Ok((c, EntryView::Name(name))),
        KeyLiteralView::Index(index) => match key_code(ctx, c, index) {
            Err(x) => Err(x),
            Ok(c1) => Ok((c1, EntryView::Index)),
        },
    }
}

/// Entries of a table literal from `i` on, after those already compiled.
pub open spec fn entries_code(
    ctx: Context,
    c: State,
    items: Seq<(KeyLiteralView, ExprView)>,
    i: int,
    element: TypeView,
    entries: Seq<EntryView>,
) -> Result<(State, Seq<EntryView>), ErrorView>
    decreases remaining(ctx.files, ctx.compiling), 0int, items, items.len() - i,
{
    if i < 0 || i >= items.len() {
        Ok((c, entries))
    } else {
        match literal_key_code(ctx, c, items[i].0) {
            Err(x) => Err(x),
            Ok((c1, entry)) => match expr_code(ctx, c1, items[i].1, Some(element)) {
                Err(x) => Err(x),
                Ok((c2, found)) => if compatible(element, found) {
                    entries_code(ctx, c2, items, i + 1, element, entries.push(entry))
                } else {
                    Err(mismatch("table value is "@, found, "; expected "@, element))
                },
            },
        }
    }
}

/// A table literal.
pub open spec fn table_code(
    ctx: Context,
    c: State,
    items: Seq<(KeyLiteralView, ExprView)>,
    expected: Option<TypeView>,
) -> Result<(State, TypeView), ErrorView>
    decreases remaining(ctx.files, ctx.compiling), 0int, items, items.len() + 1,
{
    match expected {
        Some(TypeView::Table(element)) => match entries_code(
            ctx,
            c,
            items,
            0,
            *element,
            Seq::empty(),
        ) {
            Err(x) => Err(x),
            Ok((c1, entries)) => Ok(
                (
                    emit(c1, OpView::MakeTable(entries, *element)),
                    TypeView::Table(Box::new(*element)),
                ),
            ),
        },
        _ => Err(ErrorView::Type("table needs an explicit value type, e.g. table<i32>"@)),
    }
}

/// A tensor factory.
pub open spec fn tensor_code(
    ctx: Context,
    c: State,
    name: Seq<char>,
    element: TypeView,
    shape: ExprView,
    expected: Option<TypeView>,
) -> Result<(State, TypeView), ErrorView>
    decreases remaining(ctx.files, ctx.compiling), 0int, shape, 51int,
{
    let shape_type = TypeView::Array(Box::new(TypeView::U64));
    match expected {
        None => Err(
            ErrorView::Type(
                name + "<T> needs an expected tensor type, e.g. let x: tensor<f32, 2> = "@ + name
                    + "<f32>([2, 3])"@,
            ),
        ),
        Some(TypeView::Tensor(expected_element, rank)) => if *expected_element != element {
            Err(
                ErrorView::Type(
                    name + " element type is "@ + type_text(element) + "; expected "@ + type_text(
                        *expected_element,
                    ),
                ),
            )
        } else {
            match expr_code(ctx, c, shape, Some(shape_type)) {
                Err(x) => Err(x),
                Ok((c1, found)) => if found != shape_type {
                    Err(ErrorView::Type("tensor shape must be vector<u64>"@))
                } else if name != "zeros"@ && !float_type(element) {
                    Err(
                        ErrorView::Type(
                            "random<T> supports f16, bf16, f32, and f64 tensors only"@,
                        ),
                    )
                } else {
                    Ok(
                        (
                            emit(
                                c1,
                                OpView::MakeTensor(
                                    if name == "zeros"@ {
                                        TensorInit::Zeros
                                    } else {
                                        TensorInit::Random
                                    },
                                    element,
                                    rank,
                                ),
                            ),
                            TypeView::Tensor(Box::new(element), rank),
                        ),
                    )
                },
            }
        },
        Some(_) => Err(
            ErrorView::Type(
                name + "<"@ + type_text(element)
                    + "> creates a tensor, but the expected type is not tensor"@,
            ),
        ),
    }
}

/// The position of a field's initializer, or the number of initializers.
pub open spec fn find_initializer(
    fields: Seq<(Seq<char>, ExprView)>,
    name: Seq<char>,
    i: int,
) -> int
    decreases fields.len() - i,
{
    if i < 0 || i >= fields.len() || fields[i].0 == name {
        i
    } else {
        find_initializer(fields, name, i + 1)
    }
}

/// The first initializer, from `i` on, of a field that was initialized before.
pub open spec fn repeated_initializer(
    fields: Seq<(Seq<char>, ExprView)>,
    i: int,
) -> Option<Seq<char>>
    decreases fields.len() - i,
{
    if i < 0 || i >= fields.len() {
        None
    } else if find_initializer(fields, fields[i].0, 0) < i {
        Some(fields[i].0)
    } else {
        repeated_initializer(fields, i + 1)
    }
}

/// The initializers of a struct literal, in the order of the layout's fields from `k` on.
pub open spec fn initializers_code(
    ctx: Context,
    c: State,
    name: Seq<char>,
    layout: Seq<FieldView>,
    k: int,
    fields: Seq<(Seq<char>, ExprView)>,
) -> Result<State, ErrorView>
    decreases remaining(ctx.files, ctx.compiling), 0int, fields, layout.len() - k,
{
    if k < 0 || k >= layout.len() {
        Ok(c)
    } else {
        let j = find_initializer(fields, layout[k].name, 0);
        if !(0 <= j < fields.len()) {
            Err(
                ErrorView::Type(
                    "struct '"@ + name + "' is missing field '"@ + layout[k].name + "'"@,
                ),
            )
        } else {
            match expr_code(ctx, c, fields[j].1, Some(layout[k].ty)) {
                Err(x) => Err(x),
                Ok((c1, found)) => if compatible(layout[k].ty, found) {
                    initializers_code(ctx, c1, name, layout, k + 1, fields)
                } else {
                    Err(
                        ErrorView::Type(
                            "field '"@ + layout[k].name + "' is "@ + type_text(found)
                                + "; expected "@ + type_text(layout[k].ty),
                        ),
                    )
                },
            }
        }
    }
}

/// A struct literal.
pub open spec fn struct_code(
    ctx: Context,
    c: State,
    name: Seq<char>,
    fields: Seq<(Seq<char>, ExprView)>,
    expected: Option<TypeView>,
) -> Result<(State, TypeView), ErrorView>
    decreases
        remaining(ctx.files, ctx.compiling), 0int,
        fields,
        (if c.structs.contains_key(name) { c.structs[name].fields.len() + 1 } else { 0 }),
{
    if !c.structs.contains_key(name) {
        Err(unknown_struct(name))
    } else {
        let layout = c.structs[name];
        if expected is Some && expected.unwrap() != TypeView::Struct(name) {
            Err(
                ErrorView::Type(
                    "expected "@ + type_text(expected.unwrap()) + ", got "@ + name,
                ),
            )
        } else if fields.len() != layout.fields.len() {
            Err(
                ErrorView::Type(
                    "struct '"@ + name + "' needs "@ + decimal(layout.fields.len() as int)
                        + " field(s)"@,
                ),
            )
        } else if repeated_initializer(fields, 0) is Some {
            Err(
                ErrorView::Type(
                    "struct '"@ + name + "' initializes field '"@ + repeated_initializer(
                        fields,
                        0,
                    ).unwrap() + "' more than once"@,
                ),
            )
        } else {
            match initializers_code(ctx, c, name, layout.fields, 0, fields) {
                Err(x) => Err(x),
                Ok(c1) => Ok((emit(c1, OpView::MakeStruct(layout)), TypeView::Struct(name))),
            }
        }
    }
}

/// Integer indices from `i` on.
pub open spec fn indices_code(
    ctx: Context,
    c: State,
    indices: Seq<ExprView>,
    i: int,
) -> Result<State, ErrorView>
    decreases remaining(ctx.files, ctx.compiling), 0int, indices, indices.len() - i,
{
    if i < 0 || i >= indices.len() {
        Ok(c)
    } else {
        match expr_code(ctx, c, indices[i], None) {
            Err(x) => Err(x),
            Ok((c1, t)) => if integer_type(t) {
                indices_code(ctx, c1, indices, i + 1)
            } else {
                Err(ErrorView::Type("tensor index must be an integer"@))
            },
        }
    }
}

pub open spec fn rank_error(rank: usize) -> ErrorView {
    ErrorView::Type(
        "tensor rank "@ + decimal(rank as int) + " requires "@ + decimal(rank as int)
            + " index(es)"@,
    )
}

/// An index into a container of type `t`, which has been compiled.
pub open spec fn index_code(
    ctx: Context,
    c: State,
    t: TypeView,
    indices: Seq<ExprView>,
) -> Result<(State, TypeView), ErrorView>
    decreases remaining(ctx.files, ctx.compiling), 0int, indices, indices.len() + 1,
{
    match t {
        TypeView::Array(element) => if indices.len() != 1 {
            Err(ErrorView::Type("vector indexing requires exactly one index"@))
        } else {
            match indices_code(ctx, c, indices, 0) {
                Err(x) => Err(x),
                Ok(c1) => Ok((emit(c1, OpView::Index), *element)),
            }
        },
        TypeView::Table(element) => if indices.len() != 1 {
            Err(ErrorView::Type("table indexing requires exactly one index"@))
        } else {
            match key_code(ctx, c, indices[0]) {
                Err(x) => Err(x),
                Ok(c1) => Ok((emit(c1, OpView::TableIndex), *element)),
            }
        },
        TypeView::TableKeys => if indices.len() != 1 {
            Err(ErrorView::Type("table_keys indexing requires exactly one index"@))
        } else {
            match indices_code(ctx, c, indices, 0) {
                Err(x) => Err(x),
                Ok(c1) => Ok((emit(c1, OpView::TableKeysIndex), TypeView::TableKey)),
            }
        },
        TypeView::Tensor(element, rank) => if indices.len() != rank {
            Err(rank_error(rank))
        } else {
            match indices_code(ctx, c, indices, 0) {
                Err(x) => Err(x),
                Ok(c1) => Ok(
                    (
                        emit(
                            c1,
                            if *element is F32 {
                                OpView::TensorIndexF32(rank)
                            } else {
                                OpView::TensorIndex(*element, rank)
                            },
                        ),
                        *element,
                    ),
                ),
            }
        },
        _ => Err(ErrorView::Type("cannot index "@ + type_text(t))),
    }
}

/// A field of a container of type `t`, which has been compiled.
pub open spec fn field_code(
    c: State,
    t: TypeView,
    field: Seq<char>,
) -> Result<(State, TypeView), ErrorView> {
    match t {
        TypeView::Struct(struct_name) => match struct_field(c, struct_name, field) {
            Err(x) => Err(x),
            Ok(f) => Ok((emit(c, OpView::Field(f)), f.ty)),
        },
        TypeView::Table(element) => Ok((emit(c, OpView::TableField(field)), *element)),
        TypeView::Module(id) => if !c.artifacts.contains_key(id) {
            Err(ErrorView::Runtime("missing compiled module"@))
        } else {
            match find_export(c.artifacts[id].exports, field, 0) {
                None => Err(
                    ErrorView::Type("module has no exported value '"@ + field + "'"@),
                ),
                Some(ExportView::Value { ty, .. }) => Ok(
                    (emit(c, OpView::ModuleField(field)), ty),
                ),
                Some(_) => Err(
                    ErrorView::Type("'"@ + field + "' is not an exported module value"@),
                ),
            }
        },
        _ => Err(ErrorView::Type("field access requires a struct, table, or module"@)),
    }
}

/// Whether a value of the type has a length.
pub open spec fn has_length(t: TypeView) -> bool {
    t is Array || t is String || t is Table || t is TableKeys || t is Tensor || t is DArray
        || t is DTensor
}

/// The arguments of a host function from `i` on.
pub open spec fn arguments_code(
    ctx: Context,
    c: State,
    name: Seq<char>,
    args: Seq<ExprView>,
    types: Seq<TypeView>,
    i: int,
) -> Result<State, ErrorView>
    decreases remaining(ctx.files, ctx.compiling), 0int, args, args.len() - i,
{
    if i < 0 || i >= args.len() || i >= types.len() {
        Ok(c)
    } else {
        match expr_code(ctx, c, args[i], Some(types[i])) {
            Err(x) => Err(x),
            Ok((c1, found)) => if compatible(types[i], found) {
                arguments_code(ctx, c1, name, args, types, i + 1)
            } else {
                Err(mismatch(name + " argument is "@, found, "; expected "@, types[i]))
            },
        }
    }
}

/// A call of a built-in function that takes one argument of its own kind.
pub open spec fn builtin1_code(
    ctx: Context,
    c: State,
    name: Seq<char>,
    f: BuiltinFn,
    args: Seq<ExprView>,
    expected: Option<TypeView>,
) -> Result<(State, TypeView), ErrorView>
    decreases remaining(ctx.files, ctx.compiling), 0int, args, args.len() + 1,
{
    if args.len() != 1 {
        Err(ErrorView::Type(name + " expects 1 argument"@))
    } else {
        match expr_code(ctx, c, args[0], expected) {
            Err(x) => Err(x),
            Ok((c1, t)) => if f is Abs && !numeric_type(t) {
                Err(ErrorView::Type("abs requires a numeric argument"@))
            } else if !(f is Abs) && !float_type(t) {
                Err(
                    ErrorView::Type(name + " requires a float argument, got "@ + type_text(t)),
                )
            } else {
                Ok((emit(c1, OpView::Builtin1(f, t)), t))
            },
        }
    }
}

/// A call of a built-in function that takes two arguments.
pub open spec fn builtin2_code(
    ctx: Context,
    c: State,
    name: Seq<char>,
    f: BuiltinFn,
    args: Seq<ExprView>,
    expected: Option<TypeView>,
) -> Result<(State, TypeView), ErrorView>
    decreases remaining(ctx.files, ctx.compiling), 0int, args, args.len() + 1,
{
    if args.len() != 2 {
        Err(ErrorView::Type(name + " expects 2 arguments"@))
    } else {
        match expr_code(ctx, c, args[0], expected) {
            Err(x) => Err(x),
            Ok((c1, t1)) => match expr_code(ctx, c1, args[1], Some(t1)) {
                Err(x) => Err(x),
                Ok((c2, t2)) => if !compatible(t1, t2) {
                    Err(ErrorView::Type(name + " arguments must have same type"@))
                } else if f is Atan2 && !float_type(t1) {
                    Err(ErrorView::Type("atan2 requires float arguments"@))
                } else {
                    Ok((emit(c2, OpView::Builtin2(f, t1)), t1))
                },
            },
        }
    }
}

/// `len(x)`
pub open spec fn len_code(
    ctx: Context,
    c: State,
    args: Seq<ExprView>,
) -> Result<(State, TypeView), ErrorView>
    decreases remaining(ctx.files, ctx.compiling), 0int, args, args.len() + 1,
{
    if args.len() != 1 {
        Err(ErrorView::Type("len expects 1 argument"@))
    } else {
        match expr_code(ctx, c, args[0], None) {
            Err(x) => Err(x),
            Ok((c1, t)) => if has_length(t) {
                Ok((emit(c1, OpView::Len), TypeView::I32))
            } else {
                Err(
                    ErrorView::Type(
                        "len requires a vector, string, table, table_keys, or tensor, got "@
                            + type_text(t),
                    ),
                )
            },
        }
    }
}

/// `keys(t)`
pub open spec fn keys_code(
    ctx: Context,
    c: State,
    args: Seq<ExprView>,
) -> Result<(State, TypeView), ErrorView>
    decreases remaining(ctx.files, ctx.compiling), 0int, args, args.len() + 1,
{
    if args.len() != 1 {
        Err(ErrorView::Type("keys expects 1 argument"@))
    } else {
        match expr_code(ctx, c, args[0], None) {
            Err(x) => Err(x),
            Ok((c1, t)) => if t is Table {
                Ok((emit(c1, OpView::TableKeys), TypeView::TableKeys))
            } else {
                Err(ErrorView::Type("keys requires a table, got "@ + type_text(t)))
            },
        }
    }
}

/// `remove(t, k)`
pub open spec fn remove_code(
    ctx: Context,
    c: State,
    args: Seq<ExprView>,
) -> Result<(State, TypeView), ErrorView>
    decreases remaining(ctx.files, ctx.compiling), 0int, args, args.len() + 1,
{
    if args.len() != 2 {
        Err(ErrorView::Type("remove expects 2 arguments"@))
    } else {
        match expr_code(ctx, c, args[0], None) {
            Err(x) => Err(x),
            Ok((c1, t)) => if !(t is Table) {
                Err(
                    ErrorView::Type(
                        "remove requires a table as its first argument, got "@ + type_text(t),
                    ),
                )
            } else {
                match key_code(ctx, c1, args[1]) {
                    Err(x) => Err(x),
                    Ok(c2) => Ok((emit(c2, OpView::TableRemove), TypeView::Bool)),
                }
            },
        }
    }
}

/// A call of a host function.
pub open spec fn extern_code(
    ctx: Context,
    c: State,
    name: Seq<char>,
    args: Seq<ExprView>,
) -> Result<(State, TypeView), ErrorView>
    decreases remaining(ctx.files, ctx.compiling), 0int, args, args.len() + 1,
{
    if !ctx.externs.contains_key(name) {
        Err(ErrorView::Type("unknown function '"@ + name + "'"@))
    } else {
        let signature = ctx.externs[name];
        if args.len() != signature.arguments.len() {
            Err(
                ErrorView::Type(
                    name + " expects "@ + decimal(signature.arguments.len() as int)
                        + " argument(s)"@,
                ),
            )
        } else {
            match arguments_code(ctx, c, name, args, signature.arguments, 0) {
                Err(x) => Err(x),
                Ok(c1) => Ok(
                    (
                        emit(
                            c1,
                            OpView::CallExternal(name, signature.arguments.len() as usize),
                        ),
                        signature.result,
                    ),
                ),
            }
        }
    }
}

/// A call: of a built-in function, or else of a host function.
pub open spec fn call_code(
    ctx: Context,
    c: State,
    name: Seq<char>,
    args: Seq<ExprView>,
    expected: Option<TypeView>,
) -> Result<(State, TypeView), ErrorView>
    decreases remaining(ctx.files, ctx.compiling), 0int, args, args.len() + 2,
{
    if name == "len"@ {
        len_code(ctx, c, args)
    } else if name == "keys"@ {
        keys_code(ctx, c, args)
    } else if name == "remove"@ {
        remove_code(ctx, c, args)
    } else if unary_builtin(name) is Some {
        builtin1_code(ctx, c, name, unary_builtin(name).unwrap(), args, expected)
    } else if binary_builtin(name) is Some {
        builtin2_code(ctx, c, name, binary_builtin(name).unwrap(), args, expected)
    } else {
        extern_code(ctx, c, name, args)
    }
}

/// Statements from `i` on.
pub open spec fn block_code(
    ctx: Context,
    c: State,
    body: Seq<StatementView>,
    i: int,
) -> Result<State, ErrorView>
    decreases remaining(ctx.files, ctx.compiling), 1int, body, body.len() - i,
{
    if i < 0 || i >= body.len() {
        Ok(c)
    } else {
        match statement_code(ctx, c, body[i]) {
            Err(x) => Err(x),
            Ok(c1) => block_code(ctx, c1, body, i + 1),
        }
    }
}

/// The code that turns a number of type `found` into one of the declared type.
pub open spec fn coerced(c: State, ty: TypeView, found: TypeView) -> State {
    if numeric_type(ty) && ty != found {
        emit(c, OpView::Cast(ty))
    } else {
        c
    }
}

/// The entry of a struct's destructor, or the mark of an unknown one.
pub open spec fn destructor_target(c: State, struct_name: Seq<char>) -> usize {
    match method_entry(c, struct_name, struct_name) {
        Some(target) => target,
        None => usize::MAX,
    }
}

/// The state after an instruction that waits for a method's entry unless `target` is known.
pub open spec fn emit_call(
    c: State,
    op: OpView,
    target: usize,
    struct_name: Seq<char>,
    method: Seq<char>,
) -> State {
    let c1 = emit(c, op);
    if target == usize::MAX {
        State { pending: c1.pending.push((c.code.len() as usize, struct_name, method)), ..c1 }
    } else {
        c1
    }
}

/// Calls of the destructors of locals from `i` on.
pub open spec fn destructor_calls(c: State, locals: Seq<(usize, Seq<char>)>, i: int) -> State
    decreases locals.len() - i,
{
    if i < 0 || i >= locals.len() {
        c
    } else {
        let (slot, name) = locals[i];
        let c1 = emit(c, OpView::UntrackDestructor(slot));
        let target = destructor_target(c1, name);
        destructor_calls(
            emit_call(c1, OpView::CallMethod(slot, target), target, name, name),
            locals,
            i + 1,
        )
    }
}

/// The locals with a destructor in the innermost `n - base` blocks, the latest first.
pub open spec fn live_locals(
    scopes: Seq<Seq<(usize, Seq<char>)>>,
    base: int,
    n: int,
) -> Seq<(usize, Seq<char>)>
    decreases n - base,
{
    if n <= base || n > scopes.len() || n <= 0 {
        Seq::empty()
    } else {
        scopes[n - 1].reverse() + live_locals(scopes, base, n - 1)
    }
}

/// The end of a block: its locals are destroyed, the latest first.
pub open spec fn close_scope(c: State) -> Result<State, ErrorView> {
    if c.scopes.len() == 0 {
        Err(ErrorView::Runtime("missing compiler scope for destructors"@))
    } else {
        Ok(destructor_calls(c, c.scopes.last().reverse(), 0))
    }
}

/// A block with its own names.
pub open spec fn scoped_code(
    ctx: Context,
    c: State,
    body: Seq<StatementView>,
) -> Result<State, ErrorView>
    decreases remaining(ctx.files, ctx.compiling), 1int, body, body.len() + 1,
{
    match block_code(ctx, State { nested: true, scopes: c.scopes.push(Seq::empty()), ..c }, body, 0) {
        Err(x) => Err(x),
        Ok(c1) => match close_scope(c1) {
            Err(x) => Err(x),
            Ok(c2) => Ok(
                State {
                    names: c.names,
                    next_slot: c.next_slot,
                    nested: c.nested,
                    scopes: c2.scopes.drop_last(),
                    ..c2
                },
            ),
        },
    }
}

/// Records a local whose struct has a destructor.
pub open spec fn track_destructor(
    c: State,
    slot: usize,
    name: Seq<char>,
) -> Result<State, ErrorView> {
    if !c.methods.contains_key((name, name)) {
        Ok(c)
    } else {
        let target = destructor_target(c, name);
        let c1 = emit_call(c, OpView::TrackDestructor(slot, target), target, name, name);
        if c1.scopes.len() == 0 {
            Err(ErrorView::Runtime("missing compiler scope for destructor"@))
        } else {
            Ok(
                State {
                    scopes: c1.scopes.update(
                        c1.scopes.len() - 1,
                        c1.scopes.last().push((slot, name)),
                    ),
                    ..c1
                },
            )
        }
    }
}

/// Makes the structs among a module's exports from `i` on known under the module's local name.
pub open spec fn import_structs(
    c: State,
    binding: Seq<char>,
    exports: Seq<(Seq<char>, ExportView)>,
    i: int,
) -> Result<State, ErrorView>
    decreases exports.len() - i,
{
    if i < 0 || i >= exports.len() {
        Ok(c)
    } else {
        match exports[i].1 {
            ExportView::Struct(layout) => {
                let alias = binding + "."@ + exports[i].0;
                if c.structs.contains_key(alias) {
                    Err(
                        ErrorView::Type(
                            "imported struct '"@ + alias + "' conflicts with an existing struct"@,
                        ),
                    )
                } else {
                    import_structs(
                        State {
                            structs: c.structs.insert(alias, LayoutView { name: alias, ..layout }),
                            ..c
                        },
                        binding,
                        exports,
                        i + 1,
                    )
                }
            },
            _ => import_structs(c, binding, exports, i + 1),
        }
    }
}

/// The type that a binding was declared with. Which module a binding holds is
/// no part of it.
pub open spec fn declared(ty: TypeView) -> TypeView {
    match ty {
        TypeView::Module(_) => TypeView::Module(Seq::empty()),
        _ => ty,
    }
}

/// The type that a name declared as `ty` has while it holds a value of type
/// `found`: a name for a module knows its module.
pub open spec fn held(ty: TypeView, found: TypeView) -> TypeView {
    match found {
        TypeView::Module(_) => found,
        _ => ty,
    }
}

/// A slot's names after the slot has been given a value of type `found`.
pub open spec fn renamed(
    names: Map<Seq<char>, (usize, TypeView)>,
    name: Seq<char>,
    slot: usize,
    found: TypeView,
) -> Map<Seq<char>, (usize, TypeView)> {
    if found is Module && names.contains_key(name) && names[name].0 == slot {
        names.insert(name, (slot, found))
    } else {
        names
    }
}

/// The state after the slot of `name` has been given a value of type `found`.
pub open spec fn rebound(c: State, name: Seq<char>, slot: usize, found: TypeView) -> State {
    State {
        names: renamed(c.names, name, slot, found),
        globals: renamed(c.globals, name, slot, found),
        ..c
    }
}

/// Binds a name to a value of type `found` that lies on the stack.
pub open spec fn bind_name(
    c: State,
    name: Seq<char>,
    ty: TypeView,
    found: TypeView,
) -> Result<State, ErrorView> {
    let fresh = !c.names.contains_key(name);
    if !fresh && declared(c.names[name].1) != ty {
        Err(ErrorView::Type("cannot redefine '"@ + name + "' with a different type"@))
    } else {
        let slot = if fresh {
            c.next_slot
        } else {
            c.names[name].0
        };
        let c1 = if fresh {
            State {
                names: c.names.insert(name, (slot, held(ty, found))),
                globals: if c.nested {
                    c.globals
                } else {
                    c.globals.insert(name, (slot, held(ty, found)))
                },
                next_slot: c.next_slot.wrapping_add(1),
                ..c
            }
        } else {
            rebound(c, name, slot, found)
        };
        let imported = match found {
            TypeView::Module(id) => if c1.artifacts.contains_key(id) {
                import_structs(c1, name, c1.artifacts[id].exports, 0)
            } else {
                Err(ErrorView::Runtime("missing compiled module"@))
            },
            _ => Ok(c1),
        };
        match imported {
            Err(x) => Err(x),
            Ok(c2) => {
                let c3 = emit(c2, OpView::Store(slot));
                match found {
                    TypeView::Struct(struct_name) => if fresh && c.nested {
                        track_destructor(c3, slot, struct_name)
                    } else {
                        Ok(c3)
                    },
                    _ => Ok(c3),
                }
            },
        }
    }
}

/// `let name: T = value`
pub open spec fn let_code(
    ctx: Context,
    c: State,
    name: Seq<char>,
    ty: TypeView,
    value: ExprView,
) -> Result<State, ErrorView>
    decreases remaining(ctx.files, ctx.compiling), 0int, value, 51int,
{
    match expr_code(ctx, c, value, Some(ty)) {
        Err(x) => Err(x),
        Ok((c1, found)) => if !compatible(ty, found) {
            Err(
                ErrorView::Type(
                    "'"@ + name + "' declared "@ + type_text(ty) + ", but expression has type "@
                        + type_text(found),
                ),
            )
        } else {
            bind_name(coerced(c1, ty, found), name, ty, found)
        },
    }
}

/// `name = value`
pub open spec fn assign_code(
    ctx: Context,
    c: State,
    name: Seq<char>,
    value: ExprView,
) -> Result<State, ErrorView>
    decreases remaining(ctx.files, ctx.compiling), 0int, value, 51int,
{
    match method_field(c, name) {
        Some(field) => match expr_code(ctx, c, value, Some(field.ty)) {
            Err(x) => Err(x),
            Ok((c1, found)) => if !compatible(field.ty, found) {
                Err(
                    ErrorView::Type(
                        "field '"@ + name + "' is "@ + type_text(field.ty)
                            + ", but expression has type "@ + type_text(found),
                    ),
                )
            } else {
                Ok(emit(coerced(c1, field.ty, found), OpView::StoreCurrentField(field)))
            },
        },
        None => if !c.names.contains_key(name) {
            Err(unknown_name(name))
        } else {
            let slot = c.names[name].0;
            let ty = declared(c.names[name].1);
            match expr_code(ctx, c, value, Some(ty)) {
                Err(x) => Err(x),
                Ok((c1, found)) => if !compatible(ty, found) {
                    Err(
                        ErrorView::Type(
                            "'"@ + name + "' is "@ + type_text(ty) + ", but expression has type "@
                                + type_text(found),
                        ),
                    )
                } else {
                    Ok(
                        rebound(
                            emit(coerced(c1, ty, found), OpView::Store(slot)),
                            name,
                            slot,
                            found,
                        ),
                    )
                },
            }
        },
    }
}

/// `::name = value`
pub open spec fn global_assign_code(
    ctx: Context,
    c: State,
    name: Seq<char>,
    value: ExprView,
) -> Result<State, ErrorView>
    decreases remaining(ctx.files, ctx.compiling), 0int, value, 51int,
{
    if !c.globals.contains_key(name) {
        Err(ErrorView::Type("unknown global name '"@ + name + "'"@))
    } else {
        let slot = c.globals[name].0;
        let ty = declared(c.globals[name].1);
        match expr_code(ctx, c, value, Some(ty)) {
            Err(x) => Err(x),
            Ok((c1, found)) => if !compatible(ty, found) {
                Err(
                    ErrorView::Type(
                        "global '"@ + name + "' is "@ + type_text(ty)
                            + ", but expression has type "@ + type_text(found),
                    ),
                )
            } else {
                Ok(rebound(emit(c1, OpView::Store(slot)), name, slot, found))
            },
        }
    }
}

/// The slot and the type of what a name denotes; a field of the current struct
/// is first put into a slot of its own.
pub open spec fn container(c: State, name: Seq<char>) -> Result<(State, usize, TypeView), ErrorView> {
    match method_field(c, name) {
        Some(field) => {
            let slot = c.next_slot;
            let c1 = State { next_slot: c.next_slot.wrapping_add(1), ..c };
            Ok(
                (
                    emit(emit(c1, OpView::LoadCurrentField(field)), OpView::Store(slot)),
                    slot,
                    field.ty,
                ),
            )
        },
        None => if c.names.contains_key(name) {
            Ok((c, c.names[name].0, c.names[name].1))
        } else {
            Err(unknown_name(name))
        },
    }
}

/// The value to store into a container whose items have type `element`.
pub open spec fn item_code(
    ctx: Context,
    c: State,
    value: ExprView,
    element: TypeView,
    message: Seq<char>,
    op: OpView,
) -> Result<State, ErrorView>
    decreases remaining(ctx.files, ctx.compiling), 0int, value, 51int,
{
    match expr_code(ctx, c, value, Some(element)) {
        Err(x) => Err(x),
        Ok((c1, found)) => if compatible(element, found) {
            Ok(emit(c1, op))
        } else {
            Err(mismatch(message, found, "; expected "@, element))
        },
    }
}

/// `name[indices] = value`
pub open spec fn set_index_code(
    ctx: Context,
    c: State,
    s: StatementView,
) -> Result<State, ErrorView>
    decreases remaining(ctx.files, ctx.compiling), 1int, s, 40int,
{
    match s {
        StatementView::SetIndex { name, indices, expr } => match container(c, name) {
            Err(x) => Err(x),
            Ok((c1, slot, t)) => match t {
                TypeView::Array(inner) => if indices.len() != 1 {
                    Err(ErrorView::Type("vector indexing requires exactly one index"@))
                } else {
                    match scalar_size_of(*inner) {
                        Err(x) => Err(x),
                        Ok(_) => match indices_code(ctx, c1, indices, 0) {
                            Err(x) => Err(x),
                            Ok(c2) => item_code(
                                ctx,
                                c2,
                                expr,
                                *inner,
                                "item is "@,
                                OpView::StoreIndex(slot, *inner),
                            ),
                        },
                    }
                },
                TypeView::Table(inner) => if indices.len() != 1 {
                    Err(ErrorView::Type("table indexing requires exactly one index"@))
                } else {
                    match key_code(ctx, c1, indices[0]) {
                        Err(x) => Err(x),
                        Ok(c2) => item_code(
                            ctx,
                            c2,
                            expr,
                            *inner,
                            "item is "@,
                            OpView::StoreTableIndex(slot, *inner),
                        ),
                    }
                },
                TypeView::Tensor(inner, rank) => if indices.len() != rank {
                    Err(rank_error(rank))
                } else {
                    match indices_code(ctx, c1, indices, 0) {
                        Err(x) => Err(x),
                        Ok(c2) => item_code(
                            ctx,
                            c2,
                            expr,
                            *inner,
                            "tensor item is "@,
                            if *inner is F32 {
                                OpView::StoreTensorIndexF32(slot, rank)
                            } else {
                                OpView::StoreTensorIndex(slot, *inner, rank)
                            },
                        ),
                    }
                },
                _ => Err(ErrorView::Type("'"@ + name + "' is not indexable"@)),
            },
        },
        _ => Ok(c),
    }
}

/// `name.field = value`
pub open spec fn set_field_code(
    ctx: Context,
    c: State,
    name: Seq<char>,
    field: Seq<char>,
    value: ExprView,
) -> Result<State, ErrorView>
    decreases remaining(ctx.files, ctx.compiling), 0int, value, 51int,
{
    match container(c, name) {
        Err(x) => Err(x),
        Ok((c1, slot, t)) => match t {
            TypeView::Struct(struct_name) => match struct_field(c1, struct_name, field) {
                Err(x) => Err(x),
                Ok(f) => match expr_code(ctx, c1, value, Some(f.ty)) {
                    Err(x) => Err(x),
                    Ok((c2, found)) => if compatible(f.ty, found) {
                        Ok(emit(c2, OpView::StoreField(slot, f)))
                    } else {
                        Err(ErrorView::Type("struct field type mismatch"@))
                    },
                },
            },
            TypeView::Table(element) => match expr_code(ctx, c1, value, Some(*element)) {
                Err(x) => Err(x),
                Ok((c2, found)) => if compatible(*element, found) {
                    Ok(emit(c2, OpView::StoreTableField(slot, field, *element)))
                } else {
                    Err(ErrorView::Type("table value type mismatch"@))
                },
            },
            _ => Err(ErrorView::Type("'"@ + name + "' has no named keys"@)),
        },
    }
}

/// `name.field[index] = value`
pub open spec fn set_field_index_code(
    ctx: Context,
    c: State,
    s: StatementView,
) -> Result<State, ErrorView>
    decreases remaining(ctx.files, ctx.compiling), 1int, s, 40int,
{
    match s {
        StatementView::SetFieldIndex { name, field, index, expr } => match container(c, name) {
            Err(x) => Err(x),
            Ok((c1, slot, t)) => match t {
                TypeView::Struct(struct_name) => match struct_field(c1, struct_name, field) {
                    Err(x) => Err(x),
                    Ok(f) => match f.ty {
                        TypeView::Array(element) => match scalar_size_of(*element) {
                            Err(x) => Err(x),
                            Ok(_) => match expr_code(ctx, c1, index, None) {
                                Err(x) => Err(x),
                                Ok((c2, index_type)) => if integer_type(index_type) {
                                    item_code(
                                        ctx,
                                        c2,
                                        expr,
                                        *element,
                                        "item is "@,
                                        OpView::StoreFieldIndex(slot, f, *element),
                                    )
                                } else {
                                    Err(ErrorView::Type("index must be an integer"@))
                                },
                            },
                        },
                        _ => Err(ErrorView::Type("field '"@ + f.name + "' is not a vector"@)),
                    },
                },
                _ => Err(ErrorView::Type("'"@ + name + "' is not a struct"@)),
            },
        },
        _ => Ok(c),
    }
}

/// Arguments of any type from `i` on.
pub open spec fn printed_code(
    ctx: Context,
    c: State,
    args: Seq<ExprView>,
    i: int,
) -> Result<State, ErrorView>
    decreases remaining(ctx.files, ctx.compiling), 0int, args, args.len() - i,
{
    if i < 0 || i >= args.len() {
        Ok(c)
    } else {
        match expr_code(ctx, c, args[i], None) {
            Err(x) => Err(x),
            Ok((c1, _)) => printed_code(ctx, c1, args, i + 1),
        }
    }
}

/// `printf(format, args)`
pub open spec fn printf_code(ctx: Context, c: State, s: StatementView) -> Result<State, ErrorView>
    decreases remaining(ctx.files, ctx.compiling), 1int, s, 40int,
{
    match s {
        StatementView::Printf { format, args } => match printed_code(ctx, c, args, 0) {
            Err(x) => Err(x),
            Ok(c1) => match expr_code(ctx, c1, format, Some(TypeView::String)) {
                Err(x) => Err(x),
                Ok((c2, t)) => if t == TypeView::String {
                    Ok(emit(c2, OpView::Printf(args.len() as usize)))
                } else {
                    Err(ErrorView::Type("printf format must be a string"@))
                },
            },
        },
        _ => Ok(c),
    }
}

/// A conditional.
pub open spec fn if_code(ctx: Context, c: State, s: StatementView) -> Result<State, ErrorView>
    decreases remaining(ctx.files, ctx.compiling), 1int, s, 40int,
{
    match s {
        StatementView::If { condition, then_body, else_body } => match expr_code(
            ctx,
            c,
            condition,
            None,
        ) {
            Err(x) => Err(x),
            Ok((c1, t)) => if t != TypeView::Bool {
                Err(ErrorView::Type("if condition must be bool, got "@ + type_text(t)))
            } else {
                let false_jump = c1.code.len() as usize;
                match scoped_code(ctx, emit(c1, OpView::JumpIfFalse(usize::MAX)), then_body) {
                    Err(x) => Err(x),
                    Ok(c2) => if else_body.len() == 0 {
                        Ok(patch(c2, false_jump, OpView::JumpIfFalse(c2.code.len() as usize)))
                    } else {
                        let end_jump = c2.code.len() as usize;
                        let c3 = emit(c2, OpView::Jump(usize::MAX));
                        match scoped_code(
                            ctx,
                            patch(c3, false_jump, OpView::JumpIfFalse(c3.code.len() as usize)),
                            else_body,
                        ) {
                            Err(x) => Err(x),
                            Ok(c4) => Ok(
                                patch(c4, end_jump, OpView::Jump(c4.code.len() as usize)),
                            ),
                        }
                    },
                }
            },
        },
        _ => Ok(c),
    }
}

/// Points jumps from `i` on to a target.
pub open spec fn patch_jumps(c: State, jumps: Seq<usize>, i: int, target: usize) -> State
    decreases jumps.len() - i,
{
    if i < 0 || i >= jumps.len() {
        c
    } else {
        patch_jumps(patch(c, jumps[i], OpView::Jump(target)), jumps, i + 1, target)
    }
}

/// The state inside a loop.
pub open spec fn open_loop(c: State) -> State {
    State {
        loops: c.loops.push(
            LoopView {
                break_jumps: Seq::empty(),
                continue_jumps: Seq::empty(),
                scope_base: c.scopes.len() as int,
            },
        ),
        ..c
    }
}

/// The end of a loop: the jumps of `break` and `continue` get their targets.
pub open spec fn close_loop(c: State, end: usize, next: usize) -> State {
    if c.loops.len() == 0 {
        c
    } else {
        let l = c.loops.last();
        let c1 = State { loops: c.loops.drop_last(), ..c };
        patch_jumps(patch_jumps(c1, l.break_jumps, 0, end), l.continue_jumps, 0, next)
    }
}

/// `while condition do body end`
pub open spec fn while_code(ctx: Context, c: State, s: StatementView) -> Result<State, ErrorView>
    decreases remaining(ctx.files, ctx.compiling), 1int, s, 40int,
{
    match s {
        StatementView::While { condition, body } => {
            let loop_start = c.code.len() as usize;
            match expr_code(ctx, c, condition, None) {
                Err(x) => Err(x),
                Ok((c1, t)) => if t != TypeView::Bool {
                    Err(ErrorView::Type("while condition must be bool, got "@ + type_text(t)))
                } else {
                    let exit_jump = c1.code.len() as usize;
                    let c2 = open_loop(emit(c1, OpView::JumpIfFalse(usize::MAX)));
                    match scoped_code(ctx, c2, body) {
                        Err(x) => Err(x),
                        Ok(c3) => {
                            let c4 = emit(c3, OpView::Jump(loop_start));
                            let end = c4.code.len() as usize;
                            Ok(
                                close_loop(
                                    patch(c4, exit_jump, OpView::JumpIfFalse(end)),
                                    end,
                                    loop_start,
                                ),
                            )
                        },
                    }
                },
            }
        },
        _ => Ok(c),
    }
}

/// The end of a counting loop: the step, the jump back, and the targets.
pub open spec fn count_on(c: State, index_slot: usize, loop_start: usize, exit_jump: usize) -> State {
    let step = c.code.len() as usize;
    let c1 = emit(c, OpView::Load(index_slot));
    let c2 = emit(c1, OpView::Push(ValueView::I32(1)));
    let c3 = emit(c2, OpView::Binary(BinaryOp::I32(BinOp::Add)));
    let c4 = emit(c3, OpView::Store(index_slot));
    let c5 = emit(c4, OpView::Jump(loop_start));
    let end = c5.code.len() as usize;
    close_loop(patch(c5, exit_jump, OpView::JumpIfFalse(end)), end, step)
}

/// The state in which the body of `for name = start, end` is compiled: the count
/// and its bound have slots of their own.
pub open spec fn count_entered(c2: State, name: Seq<char>) -> State {
    let index_slot = c2.next_slot;
    let end_slot = index_slot.wrapping_add(1);
    let c3 = State {
        names: c2.names.insert(name, (index_slot, TypeView::I32)),
        next_slot: end_slot.wrapping_add(1),
        ..c2
    };
    let c4 = emit(
        emit(c3, OpView::Store(end_slot)),
        OpView::Store(index_slot),
    );
    let c5 = emit(emit(c4, OpView::Load(index_slot)), OpView::Load(end_slot));
    let c6 = emit(c5, OpView::Binary(BinaryOp::I32(BinOp::Le)));
    open_loop(emit(c6, OpView::JumpIfFalse(usize::MAX)))
}

/// `for name = start, end do body end`
pub open spec fn for_code(ctx: Context, c: State, s: StatementView) -> Result<State, ErrorView>
    decreases remaining(ctx.files, ctx.compiling), 1int, s, 40int,
{
    match s {
        StatementView::For { name, start, end, body } => if c.names.contains_key(name) {
            Err(ErrorView::Type("loop variable '"@ + name + "' is already defined"@))
        } else {
            match expr_code(ctx, c, start, Some(TypeView::I32)) {
                Err(x) => Err(x),
                Ok((c1, start_type)) => match expr_code(ctx, c1, end, Some(TypeView::I32)) {
                    Err(x) => Err(x),
                    Ok((c2, end_type)) => if start_type != TypeView::I32 || end_type
                        != TypeView::I32 {
                        Err(ErrorView::Type("for bounds must be i32"@))
                    } else {
                        let index_slot = c2.next_slot;
                        let loop_start = (c2.code.len() + 2) as usize;
                        let exit_jump = (c2.code.len() + 5) as usize;
                        let c7 = count_entered(c2, name);
                        match scoped_code(ctx, c7, body) {
                            Err(x) => Err(x),
                            Ok(c8) => {
                                let c9 = count_on(c8, index_slot, loop_start, exit_jump);
                                Ok(
                                    State {
                                        names: c9.names.remove(name),
                                        next_slot: index_slot,
                                        ..c9
                                    },
                                )
                            },
                        }
                    },
                },
            }
        },
        _ => Ok(c),
    }
}

/// The type of the items of what can be walked over.
pub open spec fn item_type(t: TypeView) -> Option<TypeView> {
    match t {
        TypeView::Array(inner) => Some(*inner),
        TypeView::TableKeys => Some(TypeView::TableKey),
        TypeView::Tensor(inner, rank) => if rank == 1 {
            Some(*inner)
        } else {
            None
        },
        _ => None,
    }
}

/// The instruction that reads an item of what can be walked over.
pub open spec fn item_op(t: TypeView) -> OpView {
    match t {
        TypeView::TableKeys => OpView::TableKeysIndex,
        TypeView::Tensor(inner, _) => if *inner is F32 {
            OpView::TensorIndexF32(1)
        } else {
            OpView::TensorIndex(*inner, 1)
        },
        _ => OpView::Index,
    }
}

/// The state in which the body of `for name in iterable` is compiled: what is
/// walked over, its length and the position have slots of their own, and so has
/// the item.
pub open spec fn walk_entered(c1: State, name: Seq<char>, t: TypeView, element: TypeView) -> State {
    let iterable_slot = c1.next_slot;
    let len_slot = iterable_slot.wrapping_add(1);
    let index_slot = len_slot.wrapping_add(1);
    let item_slot = index_slot.wrapping_add(1);
    let c2 = State {
        names: c1.names.insert(name, (item_slot, element)),
        next_slot: item_slot.wrapping_add(1),
        ..c1
    };
    let c3 = emit(
        emit(c2, OpView::Store(iterable_slot)),
        OpView::Load(iterable_slot),
    );
    let c4 = emit(emit(c3, OpView::Len), OpView::Store(len_slot));
    let c5 = emit(
        emit(c4, OpView::Push(ValueView::I32(0))),
        OpView::Store(index_slot),
    );
    let c6 = emit(emit(c5, OpView::Load(index_slot)), OpView::Load(len_slot));
    let c7 = emit(c6, OpView::Binary(BinaryOp::I32(BinOp::Lt)));
    let c8 = emit(c7, OpView::JumpIfFalse(usize::MAX));
    let c9 = emit(
        emit(c8, OpView::Load(iterable_slot)),
        OpView::Load(index_slot),
    );
    open_loop(emit(emit(c9, item_op(t)), OpView::Store(item_slot)))
}

/// `for name in iterable do body end`
pub open spec fn for_in_code(ctx: Context, c: State, s: StatementView) -> Result<State, ErrorView>
    decreases remaining(ctx.files, ctx.compiling), 1int, s, 40int,
{
    match s {
        StatementView::ForIn { name, iterable, body } => if c.names.contains_key(name) {
            Err(ErrorView::Type("loop variable '"@ + name + "' is already defined"@))
        } else {
            match expr_code(ctx, c, iterable, None) {
                Err(x) => Err(x),
                Ok((c1, t)) => match item_type(t) {
                    None => Err(
                        ErrorView::Type(
                            "cannot iterate over "@ + type_text(t)
                                + "; 'for ... in' requires a vector, 1D tensor, or table_keys"@,
                        ),
                    ),
                    Some(element) => {
                        let iterable_slot = c1.next_slot;
                        let index_slot = iterable_slot.wrapping_add(1).wrapping_add(1);
                        let loop_start = (c1.code.len() + 6) as usize;
                        let exit_jump = (c1.code.len() + 9) as usize;
                        let c10 = walk_entered(c1, name, t, element);
                        match scoped_code(ctx, c10, body) {
                            Err(x) => Err(x),
                            Ok(c11) => {
                                let c12 = count_on(c11, index_slot, loop_start, exit_jump);
                                Ok(
                                    State {
                                        names: c12.names.remove(name),
                                        next_slot: iterable_slot,
                                        ..c12
                                    },
                                )
                            },
                        }
                    },
                },
            }
        },
        _ => Ok(c),
    }
}

/// `break` and `continue`: the locals of the loop's blocks are destroyed first.
pub open spec fn leave_code(c: State, leaves: bool) -> Result<State, ErrorView> {
    if c.loops.len() == 0 {
        Err(
            ErrorView::Type(
                if leaves {
                    "break is available only inside a loop"@
                } else {
                    "continue is available only inside a loop"@
                },
            ),
        )
    } else {
        let l = c.loops.last();
        if l.scope_base > c.scopes.len() {
            Err(ErrorView::Runtime("invalid loop scope for destructors"@))
        } else {
            let c1 = destructor_calls(
                c,
                live_locals(c.scopes, l.scope_base, c.scopes.len() as int),
                0,
            );
            let jump = c1.code.len() as usize;
            let c2 = emit(c1, OpView::Jump(usize::MAX));
            let open = if leaves {
                LoopView { break_jumps: l.break_jumps.push(jump), ..l }
            } else {
                LoopView { continue_jumps: l.continue_jumps.push(jump), ..l }
            };
            Ok(State { loops: c2.loops.update(c2.loops.len() - 1, open), ..c2 })
        }
    }
}

/// `receiver.method()`
pub open spec fn call_method_code(
    c: State,
    receiver: ReceiverView,
    method: Seq<char>,
) -> Result<State, ErrorView> {
    match receiver {
        ReceiverView::Name(name) => if !c.names.contains_key(name) {
            Err(unknown_name(name))
        } else {
            let (slot, ty) = c.names[name];
            match ty {
                TypeView::Struct(struct_name) => {
                    let target = match method_entry(c, struct_name, method) {
                        Some(target) => target,
                        None => usize::MAX,
                    };
                    Ok(
                        emit_call(
                            c,
                            OpView::CallMethod(slot, target),
                            target,
                            struct_name,
                            method,
                        ),
                    )
                },
                TypeView::Module(id) => if !c.artifacts.contains_key(id) {
                    Err(ErrorView::Runtime("missing compiled module"@))
                } else {
                    match find_export(c.artifacts[id].exports, method, 0) {
                        Some(ExportView::Function { .. }) => Ok(
                            emit(c, OpView::CallModule(slot, method)),
                        ),
                        _ => Err(
                            ErrorView::Type("module has no exported function '"@ + method + "'"@),
                        ),
                    }
                },
                _ => Err(ErrorView::Type("'"@ + name + "' is not a struct or module"@)),
            }
        },
        ReceiverView::This => match c.method_struct {
            None => Err(ErrorView::Type("this is available only inside a struct method"@)),
            Some(struct_name) => {
                let target = match method_entry(c, struct_name, method) {
                    Some(target) => target,
                    None => usize::MAX,
                };
                Ok(emit_call(c, OpView::CallCurrentMethod(target), target, struct_name, method))
            },
        },
    }
}

/// A method's parameters, the last first: `n` of them are still to be stored.
pub open spec fn parameters_code(c: State, args: Seq<(Seq<char>, TypeView)>, n: int) -> State
    decreases n,
{
    if n <= 0 || n > args.len() {
        c
    } else {
        let slot = c.next_slot;
        let c1 = State {
            names: c.names.insert(args[n - 1].0, (slot, args[n - 1].1)),
            next_slot: slot.wrapping_add(1),
            ..c
        };
        parameters_code(emit(c1, OpView::Store(slot)), args, n - 1)
    }
}

pub open spec fn destructor_arguments(struct_name: Seq<char>) -> ErrorView {
    ErrorView::Type("destructor '"@ + struct_name + "' must not accept arguments"@)
}

/// The body of a method, which sees its struct's fields and nothing else.
pub open spec fn method_code(
    ctx: Context,
    c: State,
    struct_name: Seq<char>,
    method: Seq<char>,
    args: Seq<(Seq<char>, TypeView)>,
    body: Seq<StatementView>,
) -> Result<State, ErrorView>
    decreases remaining(ctx.files, ctx.compiling), 1int, body, body.len() + 1,
{
    let key = (struct_name, method);
    if method == struct_name && args.len() > 0 {
        Err(destructor_arguments(struct_name))
    } else if !c.methods.contains_key(key) {
        Err(
            ErrorView::Type(
                "struct '"@ + struct_name + "' has no declared method '"@ + method + "'"@,
            ),
        )
    } else if c.methods[key] is Some {
        Err(
            ErrorView::Type(
                "struct '"@ + struct_name + "' already has a body for method '"@ + method + "'"@,
            ),
        )
    } else if !c.structs.contains_key(struct_name) {
        Err(unknown_struct(struct_name))
    } else {
        let skip = c.code.len() as usize;
        let c1 = emit(c, OpView::Jump(usize::MAX));
        let c2 = State {
            methods: c1.methods.insert(key, Some(c1.code.len() as usize)),
            method_fields: Some(c.structs[struct_name].fields),
            method_struct: Some(struct_name),
            names: Map::empty(),
            nested: true,
            scopes: seq![Seq::empty()],
            ..c1
        };
        match block_code(ctx, parameters_code(c2, args, args.len() as int), body, 0) {
            Err(x) => Err(x),
            Ok(c3) => match close_scope(c3) {
                Err(x) => Err(x),
                Ok(c4) => {
                    let c5 = State {
                        method_fields: c.method_fields,
                        method_struct: c.method_struct,
                        names: c.names,
                        nested: c.nested,
                        scopes: c.scopes,
                        ..c4
                    };
                    let c6 = emit(c5, OpView::Return);
                    Ok(patch(c6, skip, OpView::Jump(c6.code.len() as usize)))
                },
            },
        }
    }
}

/// The first field, from `i` on, whose name came before.
pub open spec fn repeated_field(fields: Seq<(Seq<char>, TypeView)>, i: int) -> Option<Seq<char>>
    decreases fields.len() - i,
{
    if i < 0 || i >= fields.len() {
        None
    } else if exists|j: int| 0 <= j < i && (#[trigger] fields[j]).0 == fields[i].0 {
        Some(fields[i].0)
    } else {
        repeated_field(fields, i + 1)
    }
}

/// The fields of a layout, numbered in order.
pub open spec fn numbered(fields: Seq<(Seq<char>, TypeView)>) -> Seq<FieldView> {
    Seq::new(
        fields.len(),
        |i: int| FieldView { name: fields[i].0, ty: fields[i].1, index: i as usize },
    )
}

/// Declares the methods of a struct from `i` on.
pub open spec fn declare_methods(
    c: State,
    name: Seq<char>,
    methods: Seq<MethodView>,
    i: int,
) -> Result<State, ErrorView>
    decreases methods.len() - i,
{
    if i < 0 || i >= methods.len() {
        Ok(c)
    } else {
        let key = (name, methods[i].name);
        if methods[i].name == name && methods[i].args.len() > 0 {
            Err(destructor_arguments(name))
        } else if c.methods.contains_key(key) {
            Err(
                ErrorView::Type(
                    "struct '"@ + name + "' defines method '"@ + methods[i].name
                        + "' more than once"@,
                ),
            )
        } else {
            declare_methods(
                State { methods: c.methods.insert(key, None), ..c },
                name,
                methods,
                i + 1,
            )
        }
    }
}

/// A method inside its struct.
pub open spec fn member_code(
    ctx: Context,
    c: State,
    name: Seq<char>,
    m: MethodView,
) -> Result<State, ErrorView>
    decreases remaining(ctx.files, ctx.compiling), 1int, m, 0int,
{
    match m.body {
        Some(body) => method_code(ctx, c, name, m.name, m.args, body),
        None => Ok(c),
    }
}

/// The bodies of a struct's methods from `i` on.
pub open spec fn members_code(
    ctx: Context,
    c: State,
    name: Seq<char>,
    methods: Seq<MethodView>,
    i: int,
) -> Result<State, ErrorView>
    decreases remaining(ctx.files, ctx.compiling), 1int, methods, methods.len() - i,
{
    if i < 0 || i >= methods.len() {
        Ok(c)
    } else {
        match member_code(ctx, c, name, methods[i]) {
            Err(x) => Err(x),
            Ok(c1) => members_code(ctx, c1, name, methods, i + 1),
        }
    }
}

/// `struct Name { ... }`
pub open spec fn struct_statement_code(
    ctx: Context,
    c: State,
    name: Seq<char>,
    fields: Seq<(Seq<char>, TypeView)>,
    methods: Seq<MethodView>,
) -> Result<State, ErrorView>
    decreases remaining(ctx.files, ctx.compiling), 1int, methods, methods.len() + 1,
{
    if c.structs.contains_key(name) {
        Err(ErrorView::Type("struct '"@ + name + "' is already defined"@))
    } else {
        match repeated_field(fields, 0) {
            Some(field) => Err(
                ErrorView::Type(
                    "struct '"@ + name + "' defines field '"@ + field + "' more than once"@,
                ),
            ),
            None => {
                let layout = LayoutView { name, fields: numbered(fields) };
                match declare_methods(
                    State { structs: c.structs.insert(name, layout), ..c },
                    name,
                    methods,
                    0,
                ) {
                    Err(x) => Err(x),
                    Ok(c1) => members_code(ctx, c1, name, methods, 0),
                }
            },
        }
    }
}

/// Adds an export under a name that must be new.
pub open spec fn add_export(
    c: State,
    name: Seq<char>,
    export: ExportView,
) -> Result<State, ErrorView> {
    match find_export(c.exports, name, 0) {
        Some(_) => Err(ErrorView::Type("module already exports '"@ + name + "'"@)),
        None => Ok(State { exports: c.exports.push((name, export)), ..c }),
    }
}

/// `export function name() ... end`
pub open spec fn export_function_code(
    ctx: Context,
    c: State,
    name: Seq<char>,
    body: Seq<StatementView>,
) -> Result<State, ErrorView>
    decreases remaining(ctx.files, ctx.compiling), 1int, body, body.len() + 2,
{
    match find_export(c.exports, name, 0) {
        Some(_) => Err(ErrorView::Type("module already exports '"@ + name + "'"@)),
        None => {
            let skip = c.code.len() as usize;
            let c1 = emit(c, OpView::Jump(usize::MAX));
            let entry = c1.code.len() as usize;
            match scoped_code(ctx, c1, body) {
                Err(x) => Err(x),
                Ok(c2) => {
                    let c3 = emit(c2, OpView::Return);
                    let c4 = patch(c3, skip, OpView::Jump(c3.code.len() as usize));
                    Ok(
                        State {
                            exports: c4.exports.push((name, ExportView::Function { entry })),
                            ..c4
                        },
                    )
                },
            }
        },
    }
}

/// A statement.
pub open spec fn statement_code(
    ctx: Context,
    c: State,
    s: StatementView,
) -> Result<State, ErrorView>
    decreases remaining(ctx.files, ctx.compiling), 1int, s, 50int,
{
    match s {
        StatementView::Located { node, location } => match statement_code(ctx, c, *node) {
            Err(x) => Err(error_at(x, location)),
            Ok(done) => Ok(done),
        },
        StatementView::Struct { name, fields, methods } => struct_statement_code(
            ctx,
            c,
            name,
            fields,
            methods,
        ),
        StatementView::MethodDefinition { struct_name, method, args, body } => method_code(
            ctx,
            c,
            struct_name,
            method,
            args,
            body,
        ),
        StatementView::ExportLet { name, ty, expr } => {
            let text = text_in(ctx, name);
            match let_code(ctx, c, text, ty, expr) {
                Err(x) => Err(x),
                Ok(c1) => if c1.names.contains_key(text) {
                    let (slot, found) = c1.names[text];
                    add_export(c1, text, ExportView::Value { slot, ty: found })
                } else {
                    Err(ErrorView::Runtime("missing exported local"@))
                },
            }
        },
        StatementView::ExportStruct { name, fields, methods } => match struct_statement_code(
            ctx,
            c,
            name,
            fields,
            methods,
        ) {
            Err(x) => Err(x),
            Ok(c1) => if c1.structs.contains_key(name) {
                add_export(c1, name, ExportView::Struct(c1.structs[name]))
            } else {
                Err(ErrorView::Runtime("missing exported struct"@))
            },
        },
        StatementView::ExportFunction { name, body } => export_function_code(ctx, c, name, body),
        StatementView::CallMethod { receiver, method } => call_method_code(c, receiver, method),
        StatementView::Let { name, ty, expr } => let_code(
            ctx,
            c,
            text_in(ctx, name),
            ty,
            expr,
        ),
        StatementView::Assign { name, expr } => assign_code(ctx, c, name, expr),
        StatementView::GlobalAssign { name, expr } => global_assign_code(ctx, c, name, expr),
        StatementView::SetIndex { .. } => set_index_code(ctx, c, s),
        StatementView::SetField { name, field, expr } => set_field_code(ctx, c, name, field, expr),
        StatementView::SetFieldIndex { .. } => set_field_index_code(ctx, c, s),
        StatementView::Print(expr) => match expr_code(ctx, c, expr, None) {
            Err(x) => Err(x),
            Ok((c1, _)) => Ok(emit(c1, OpView::Print)),
        },
        StatementView::Printf { .. } => printf_code(ctx, c, s),
        StatementView::Putc(expr) => match expr_code(ctx, c, expr, None) {
            Err(x) => Err(x),
            Ok((c1, _)) => Ok(emit(c1, OpView::Putc)),
        },
        StatementView::If { .. } => if_code(ctx, c, s),
        StatementView::While { .. } => while_code(ctx, c, s),
        StatementView::For { .. } => for_code(ctx, c, s),
        StatementView::ForIn { .. } => for_in_code(ctx, c, s),
        StatementView::Break => leave_code(c, true),
        StatementView::Continue => leave_code(c, false),
    }
}

} // verus!
