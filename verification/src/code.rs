//! Compiled code: words, constants and modules.
use vstd::prelude::*;
use std::rc::Rc;
use crate::ops::{BinaryOp, BuiltinFn, TensorInit, UnOp};
use crate::types::{Type, TypeView};
use crate::value::{FieldView, LayoutView, StructField, StructLayout, Value, ValueView};
use crate::views::{Duplicate, group_views, views};

verus! {

broadcast use group_views;

/// An entry of a table literal: a computed key or a name.
#[derive(Debug)]
pub enum TableEntry {
    Index,
    Name(Rc<String>),
}

/// The mathematical model of a [`TableEntry`].
pub enum EntryView {
    Index,
    Name(Seq<char>),
}

impl View for TableEntry {
    type V = EntryView;

    open spec fn view(&self) -> EntryView {
        match *self {
            TableEntry::Index => EntryView::Index,
            TableEntry::Name(name) => EntryView::Name(name@),
        }
    }
}

/// What a module offers under a name.
#[derive(Debug)]
pub enum ModuleExport {
    Value { slot: usize, ty: Type },
    Function { entry: usize },
    Struct(StructLayout),
}

/// The mathematical model of a [`ModuleExport`].
pub enum ExportView {
    Value { slot: usize, ty: TypeView },
    Function { entry: usize },
    Struct(LayoutView),
}

impl View for ModuleExport {
    type V = ExportView;

    open spec fn view(&self) -> ExportView {
        match *self {
            ModuleExport::Value { slot, ty } => ExportView::Value { slot, ty: ty@ },
            ModuleExport::Function { entry } => ExportView::Function { entry },
            ModuleExport::Struct(layout) => ExportView::Struct(layout@),
        }
    }
}

impl Duplicate for ModuleExport {
    fn duplicate(&self) -> (r: Self) {
        match self {
            ModuleExport::Value { slot, ty } => ModuleExport::Value { slot: *slot, ty: ty.clone() },
            ModuleExport::Function { entry } => ModuleExport::Function { entry: *entry },
            ModuleExport::Struct(layout) => ModuleExport::Struct(layout.clone()),
        }
    }
}

/// A compiled module: its code and what it exports, in the order of export.
#[derive(Debug)]
pub struct ModuleArtifact {
    pub id: String,
    pub code: Rc<FlatBytecode>,
    pub exports: Vec<(String, ModuleExport)>,
}

/// Words and the constants that they refer to.
#[derive(Debug)]
pub struct FlatBytecode {
    pub words: Vec<u32>,
    pub constants: Vec<Constant>,
}

#[derive(Debug)]
pub enum Constant {
    Value(Value),
    String(Rc<String>),
    Type(Rc<Type>),
    Module(Rc<ModuleArtifact>),
    Field(Rc<StructField>),
    Entries(Rc<Vec<TableEntry>>),
    Layout(Rc<StructLayout>),
    Binary(BinaryOp),
    Unary(UnOp),
    Builtin(BuiltinFn),
    TensorInit(TensorInit),
}

/// The mathematical model of a [`ModuleArtifact`].
pub struct ArtifactView {
    pub id: Seq<char>,
    pub code: Box<CodeView>,
    pub exports: Seq<(Seq<char>, ExportView)>,
}

/// The mathematical model of a [`FlatBytecode`].
pub struct CodeView {
    pub words: Seq<u32>,
    pub constants: Seq<ConstantView>,
}

/// The mathematical model of a [`Constant`].
pub enum ConstantView {
    Value(ValueView),
    String(Seq<char>),
    Type(TypeView),
    Module(Box<ArtifactView>),
    Field(FieldView),
    Entries(Seq<EntryView>),
    Layout(LayoutView),
    Binary(BinaryOp),
    Unary(UnOp),
    Builtin(BuiltinFn),
    TensorInit(TensorInit),
}

pub open spec fn artifact_view(a: ModuleArtifact) -> ArtifactView
    decreases a,
{
    ArtifactView { id: a.id@, code: Box::new(code_view(*a.code)), exports: views(a.exports@) }
}

pub open spec fn code_view(c: FlatBytecode) -> CodeView
    decreases c,
{
    CodeView { words: c.words@, constants: constants_view(c.constants@) }
}

pub open spec fn constants_view(s: Seq<Constant>) -> Seq<ConstantView>
    decreases s,
{
    Seq::new(
        s.len(),
        |i: int|
            if 0 <= i < s.len() {
                constant_view(s[i])
            } else {
                ConstantView::Unary(UnOp::Neg)
            },
    )
}

pub open spec fn constant_view(c: Constant) -> ConstantView
    decreases c,
{
    match c {
        Constant::Value(v) => ConstantView::Value(v@),
        Constant::String(s) => ConstantView::String(s@),
        Constant::Type(t) => ConstantView::Type((*t)@),
        Constant::Module(m) => ConstantView::Module(Box::new(artifact_view(*m))),
        Constant::Field(f) => ConstantView::Field((*f)@),
        Constant::Entries(e) => ConstantView::Entries(views((*e)@)),
        Constant::Layout(l) => ConstantView::Layout((*l)@),
        Constant::Binary(b) => ConstantView::Binary(b),
        Constant::Unary(u) => ConstantView::Unary(u),
        Constant::Builtin(n) => ConstantView::Builtin(n),
        Constant::TensorInit(i) => ConstantView::TensorInit(i),
    }
}

impl View for ModuleArtifact {
    type V = ArtifactView;

    open spec fn view(&self) -> ArtifactView {
        artifact_view(*self)
    }
}

impl View for FlatBytecode {
    type V = CodeView;

    open spec fn view(&self) -> CodeView {
        code_view(*self)
    }
}

impl View for Constant {
    type V = ConstantView;

    open spec fn view(&self) -> ConstantView {
        constant_view(*self)
    }
}

pub broadcast proof fn code_parts(c: FlatBytecode)
    ensures
        (#[trigger] code_view(c)) == (CodeView { words: c.words@, constants: views(c.constants@) }),
{
    assert(constants_view(c.constants@) =~= views(c.constants@));
}

pub broadcast group group_code_views {
    code_parts,
}

} // verus!
