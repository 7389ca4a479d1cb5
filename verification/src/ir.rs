//! The compiler's instructions and the flat bytecode that they become: four
//! words for each instruction, an opcode and up to three operands.
use vstd::prelude::*;
use std::rc::Rc;
use crate::code::{
    ArtifactView, CodeView, Constant, ConstantView, EntryView, FlatBytecode, ModuleArtifact,
    TableEntry, artifact_view, group_code_views,
};
use crate::ops::{BinaryOp, BuiltinFn, TensorInit, UnOp};
use crate::types::{Error, ErrorView, Type, TypeView, runtime_error};
use crate::value::{FieldView, LayoutView, StructField, StructLayout, Value, ValueView};
use crate::views::{group_views, same, views};

verus! {

broadcast use {group_views, group_code_views};

/// An instruction of the compiler. Jump targets count instructions.
#[derive(Debug)]
pub enum IrOp {
    AddI32,
    AddF32,
    AddF64,
    Push(Value),
    MakeString(Rc<String>),
    Input(Rc<Type>),
    Require(Rc<ModuleArtifact>),
    Load(usize),
    LoadCurrentReceiver,
    LoadCurrentField(Rc<StructField>),
    Store(usize),
    StoreIndex(usize, Rc<Type>),
    StoreTableIndex(usize, Rc<Type>),
    StoreTensorIndex(usize, Rc<Type>, usize),
    StoreTensorIndexF32(usize, usize),
    StoreField(usize, Rc<StructField>),
    StoreFieldIndex(usize, Rc<StructField>, Rc<Type>),
    StoreTableField(usize, Rc<String>, Rc<Type>),
    StoreCurrentField(Rc<StructField>),
    MakeArray(usize, Rc<Type>),
    MakeTable(Rc<Vec<TableEntry>>, Rc<Type>),
    MakeStruct(Rc<StructLayout>),
    MakeTensor(TensorInit, Rc<Type>, usize),
    Index,
    TensorIndex(Rc<Type>, usize),
    TensorIndexF32(usize),
    TableIndex,
    TableKeys,
    TableKeysIndex,
    TableRemove,
    Field(Rc<StructField>),
    TableField(Rc<String>),
    ModuleField(Rc<String>),
    Binary(BinaryOp),
    Unary(UnOp, Rc<Type>),
    Len,
    ConcatString,
    Builtin1(BuiltinFn, Rc<Type>),
    Builtin2(BuiltinFn, Rc<Type>),
    CallExternal(Rc<String>, usize),
    JumpIfFalse(usize),
    Jump(usize),
    JumpIfFalseKeep(usize),
    JumpIfTrueKeep(usize),
    CallMethod(usize, usize),
    CallCurrentMethod(usize),
    CallModule(usize, Rc<String>),
    Return,
    Print,
    Printf(usize),
    Putc,
    Cast(Rc<Type>),
    TrackDestructor(usize, usize),
    UntrackDestructor(usize),
    PushFloat(Rc<String>, Rc<Type>),
}

pub type Op = IrOp;

/// The mathematical model of an [`IrOp`] or a [`DecodedOp`].
pub enum OpView {
    AddI32,
    AddF32,
    AddF64,
    Push(ValueView),
    MakeString(Seq<char>),
    Input(TypeView),
    Require(Box<ArtifactView>),
    Load(usize),
    LoadCurrentReceiver,
    LoadCurrentField(FieldView),
    Store(usize),
    StoreIndex(usize, TypeView),
    StoreTableIndex(usize, TypeView),
    StoreTensorIndex(usize, TypeView, usize),
    StoreTensorIndexF32(usize, usize),
    StoreField(usize, FieldView),
    StoreFieldIndex(usize, FieldView, TypeView),
    StoreTableField(usize, Seq<char>, TypeView),
    StoreCurrentField(FieldView),
    MakeArray(usize, TypeView),
    MakeTable(Seq<EntryView>, TypeView),
    MakeStruct(LayoutView),
    MakeTensor(TensorInit, TypeView, usize),
    Index,
    TensorIndex(TypeView, usize),
    TensorIndexF32(usize),
    TableIndex,
    TableKeys,
    TableKeysIndex,
    TableRemove,
    Field(FieldView),
    TableField(Seq<char>),
    ModuleField(Seq<char>),
    Binary(BinaryOp),
    Unary(UnOp, TypeView),
    Len,
    ConcatString,
    Builtin1(BuiltinFn, TypeView),
    Builtin2(BuiltinFn, TypeView),
    CallExternal(Seq<char>, usize),
    JumpIfFalse(usize),
    Jump(usize),
    JumpIfFalseKeep(usize),
    JumpIfTrueKeep(usize),
    CallMethod(usize, usize),
    CallCurrentMethod(usize),
    CallModule(usize, Seq<char>),
    Return,
    Print,
    Printf(usize),
    Putc,
    Cast(TypeView),
    TrackDestructor(usize, usize),
    UntrackDestructor(usize),
    PushFloat(Seq<char>, TypeView),
}

impl View for IrOp {
    type V = OpView;

    open spec fn view(&self) -> OpView {
        match *self {
            IrOp::AddI32 => OpView::AddI32,
            IrOp::AddF32 => OpView::AddF32,
            IrOp::AddF64 => OpView::AddF64,
            IrOp::Push(a) => OpView::Push(a@),
            IrOp::MakeString(a) => OpView::MakeString(a@),
            IrOp::Input(a) => OpView::Input((*a)@),
            IrOp::Require(a) => OpView::Require(Box::new(artifact_view(*a))),
            IrOp::Load(a) => OpView::Load(a),
            IrOp::LoadCurrentReceiver => OpView::LoadCurrentReceiver,
            IrOp::LoadCurrentField(a) => OpView::LoadCurrentField((*a)@),
            IrOp::Store(a) => OpView::Store(a),
            IrOp::StoreIndex(a, b) => OpView::StoreIndex(a, (*b)@),
            IrOp::StoreTableIndex(a, b) => OpView::StoreTableIndex(a, (*b)@),
            IrOp::StoreTensorIndex(a, b, c) => OpView::StoreTensorIndex(a, (*b)@, c),
            IrOp::StoreTensorIndexF32(a, b) => OpView::StoreTensorIndexF32(a, b),
            IrOp::StoreField(a, b) => OpView::StoreField(a, (*b)@),
            IrOp::StoreFieldIndex(a, b, c) => OpView::StoreFieldIndex(a, (*b)@, (*c)@),
            IrOp::StoreTableField(a, b, c) => OpView::StoreTableField(a, b@, (*c)@),
            IrOp::StoreCurrentField(a) => OpView::StoreCurrentField((*a)@),
            IrOp::MakeArray(a, b) => OpView::MakeArray(a, (*b)@),
            IrOp::MakeTable(a, b) => OpView::MakeTable(views((*a)@), (*b)@),
            IrOp::MakeStruct(a) => OpView::MakeStruct((*a)@),
            IrOp::MakeTensor(a, b, c) => OpView::MakeTensor(a, (*b)@, c),
            IrOp::Index => OpView::Index,
            IrOp::TensorIndex(a, b) => OpView::TensorIndex((*a)@, b),
            IrOp::TensorIndexF32(a) => OpView::TensorIndexF32(a),
            IrOp::TableIndex => OpView::TableIndex,
            IrOp::TableKeys => OpView::TableKeys,
            IrOp::TableKeysIndex => OpView::TableKeysIndex,
            IrOp::TableRemove => OpView::TableRemove,
            IrOp::Field(a) => OpView::Field((*a)@),
            IrOp::TableField(a) => OpView::TableField(a@),
            IrOp::ModuleField(a) => OpView::ModuleField(a@),
            IrOp::Binary(a) => OpView::Binary(a),
            IrOp::Unary(a, b) => OpView::Unary(a, (*b)@),
            IrOp::Len => OpView::Len,
            IrOp::ConcatString => OpView::ConcatString,
            IrOp::Builtin1(a, b) => OpView::Builtin1(a, (*b)@),
            IrOp::Builtin2(a, b) => OpView::Builtin2(a, (*b)@),
            IrOp::CallExternal(a, b) => OpView::CallExternal(a@, b),
            IrOp::JumpIfFalse(a) => OpView::JumpIfFalse(a),
            IrOp::Jump(a) => OpView::Jump(a),
            IrOp::JumpIfFalseKeep(a) => OpView::JumpIfFalseKeep(a),
            IrOp::JumpIfTrueKeep(a) => OpView::JumpIfTrueKeep(a),
            IrOp::CallMethod(a, b) => OpView::CallMethod(a, b),
            IrOp::CallCurrentMethod(a) => OpView::CallCurrentMethod(a),
            IrOp::CallModule(a, b) => OpView::CallModule(a, b@),
            IrOp::Return => OpView::Return,
            IrOp::Print => OpView::Print,
            IrOp::Printf(a) => OpView::Printf(a),
            IrOp::Putc => OpView::Putc,
            IrOp::Cast(a) => OpView::Cast((*a)@),
            IrOp::TrackDestructor(a, b) => OpView::TrackDestructor(a, b),
            IrOp::UntrackDestructor(a) => OpView::UntrackDestructor(a),
            IrOp::PushFloat(a, b) => OpView::PushFloat(a@, (*b)@),
        }
    }
}

/// An instruction read from bytecode. Jump targets count words.
pub enum DecodedOp<'a> {
    AddI32,
    AddF32,
    AddF64,
    Push(&'a Value),
    MakeString(&'a Rc<String>),
    Input(&'a Rc<Type>),
    Require(&'a Rc<ModuleArtifact>),
    Load(usize),
    LoadCurrentReceiver,
    LoadCurrentField(&'a Rc<StructField>),
    Store(usize),
    StoreIndex(usize, &'a Rc<Type>),
    StoreTableIndex(usize, &'a Rc<Type>),
    StoreTensorIndex(usize, &'a Rc<Type>, usize),
    StoreTensorIndexF32(usize, usize),
    StoreField(usize, &'a Rc<StructField>),
    StoreFieldIndex(usize, &'a Rc<StructField>, &'a Rc<Type>),
    StoreTableField(usize, &'a Rc<String>, &'a Rc<Type>),
    StoreCurrentField(&'a Rc<StructField>),
    MakeArray(usize, &'a Rc<Type>),
    MakeTable(&'a Rc<Vec<TableEntry>>, &'a Rc<Type>),
    MakeStruct(&'a Rc<StructLayout>),
    MakeTensor(TensorInit, &'a Rc<Type>, usize),
    Index,
    TensorIndex(&'a Rc<Type>, usize),
    TensorIndexF32(usize),
    TableIndex,
    TableKeys,
    TableKeysIndex,
    TableRemove,
    Field(&'a Rc<StructField>),
    TableField(&'a Rc<String>),
    ModuleField(&'a Rc<String>),
    Binary(BinaryOp),
    Unary(UnOp, &'a Rc<Type>),
    Len,
    ConcatString,
    Builtin1(BuiltinFn, &'a Rc<Type>),
    Builtin2(BuiltinFn, &'a Rc<Type>),
    CallExternal(&'a Rc<String>, usize),
    JumpIfFalse(usize),
    Jump(usize),
    JumpIfFalseKeep(usize),
    JumpIfTrueKeep(usize),
    CallMethod(usize, usize),
    CallCurrentMethod(usize),
    CallModule(usize, &'a Rc<String>),
    Return,
    Print,
    Printf(usize),
    Putc,
    Cast(&'a Rc<Type>),
    TrackDestructor(usize, usize),
    UntrackDestructor(usize),
    PushFloat(&'a Rc<String>, &'a Rc<Type>),
}

impl<'a> View for DecodedOp<'a> {
    type V = OpView;

    open spec fn view(&self) -> OpView {
        match *self {
            DecodedOp::AddI32 => OpView::AddI32,
            DecodedOp::AddF32 => OpView::AddF32,
            DecodedOp::AddF64 => OpView::AddF64,
            DecodedOp::Push(a) => OpView::Push((*a)@),
            DecodedOp::MakeString(a) => OpView::MakeString((*a)@),
            DecodedOp::Input(a) => OpView::Input((**a)@),
            DecodedOp::Require(a) => OpView::Require(Box::new(artifact_view(**a))),
            DecodedOp::Load(a) => OpView::Load(a),
            DecodedOp::LoadCurrentReceiver => OpView::LoadCurrentReceiver,
            DecodedOp::LoadCurrentField(a) => OpView::LoadCurrentField((**a)@),
            DecodedOp::Store(a) => OpView::Store(a),
            DecodedOp::StoreIndex(a, b) => OpView::StoreIndex(a, (**b)@),
            DecodedOp::StoreTableIndex(a, b) => OpView::StoreTableIndex(a, (**b)@),
            DecodedOp::StoreTensorIndex(a, b, c) => OpView::StoreTensorIndex(a, (**b)@, c),
            DecodedOp::StoreTensorIndexF32(a, b) => OpView::StoreTensorIndexF32(a, b),
            DecodedOp::StoreField(a, b) => OpView::StoreField(a, (**b)@),
            DecodedOp::StoreFieldIndex(a, b, c) => OpView::StoreFieldIndex(a, (**b)@, (**c)@),
            DecodedOp::StoreTableField(a, b, c) => OpView::StoreTableField(a, (*b)@, (**c)@),
            DecodedOp::StoreCurrentField(a) => OpView::StoreCurrentField((**a)@),
            DecodedOp::MakeArray(a, b) => OpView::MakeArray(a, (**b)@),
            DecodedOp::MakeTable(a, b) => OpView::MakeTable(views((**a)@), (**b)@),
            DecodedOp::MakeStruct(a) => OpView::MakeStruct((**a)@),
            DecodedOp::MakeTensor(a, b, c) => OpView::MakeTensor(a, (**b)@, c),
            DecodedOp::Index => OpView::Index,
            DecodedOp::TensorIndex(a, b) => OpView::TensorIndex((**a)@, b),
            DecodedOp::TensorIndexF32(a) => OpView::TensorIndexF32(a),
            DecodedOp::TableIndex => OpView::TableIndex,
            DecodedOp::TableKeys => OpView::TableKeys,
            DecodedOp::TableKeysIndex => OpView::TableKeysIndex,
            DecodedOp::TableRemove => OpView::TableRemove,
            DecodedOp::Field(a) => OpView::Field((**a)@),
            DecodedOp::TableField(a) => OpView::TableField((*a)@),
            DecodedOp::ModuleField(a) => OpView::ModuleField((*a)@),
            DecodedOp::Binary(a) => OpView::Binary(a),
            DecodedOp::Unary(a, b) => OpView::Unary(a, (**b)@),
            DecodedOp::Len => OpView::Len,
            DecodedOp::ConcatString => OpView::ConcatString,
            DecodedOp::Builtin1(a, b) => OpView::Builtin1(a, (**b)@),
            DecodedOp::Builtin2(a, b) => OpView::Builtin2(a, (**b)@),
            DecodedOp::CallExternal(a, b) => OpView::CallExternal((*a)@, b),
            DecodedOp::JumpIfFalse(a) => OpView::JumpIfFalse(a),
            DecodedOp::Jump(a) => OpView::Jump(a),
            DecodedOp::JumpIfFalseKeep(a) => OpView::JumpIfFalseKeep(a),
            DecodedOp::JumpIfTrueKeep(a) => OpView::JumpIfTrueKeep(a),
            DecodedOp::CallMethod(a, b) => OpView::CallMethod(a, b),
            DecodedOp::CallCurrentMethod(a) => OpView::CallCurrentMethod(a),
            DecodedOp::CallModule(a, b) => OpView::CallModule(a, (*b)@),
            DecodedOp::Return => OpView::Return,
            DecodedOp::Print => OpView::Print,
            DecodedOp::Printf(a) => OpView::Printf(a),
            DecodedOp::Putc => OpView::Putc,
            DecodedOp::Cast(a) => OpView::Cast((**a)@),
            DecodedOp::TrackDestructor(a, b) => OpView::TrackDestructor(a, b),
            DecodedOp::UntrackDestructor(a) => OpView::UntrackDestructor(a),
            DecodedOp::PushFloat(a, b) => OpView::PushFloat((*a)@, (**b)@),
        }
    }
}

#[derive(Clone, Copy, Debug, PartialEq, Eq, Structural)]
pub enum Opcode {
    AddI32,
    AddF32,
    AddF64,
    Push,
    MakeString,
    Input,
    Require,
    Load,
    LoadCurrentReceiver,
    LoadCurrentField,
    Store,
    StoreIndex,
    StoreTableIndex,
    StoreTensorIndex,
    StoreTensorIndexF32,
    StoreField,
    StoreFieldIndex,
    StoreTableField,
    StoreCurrentField,
    MakeArray,
    MakeTable,
    MakeStruct,
    MakeTensor,
    Index,
    TensorIndex,
    TensorIndexF32,
    TableIndex,
    TableKeys,
    TableKeysIndex,
    TableRemove,
    Field,
    TableField,
    ModuleField,
    Binary,
    Unary,
    Len,
    ConcatString,
    Builtin1,
    Builtin2,
    CallExternal,
    JumpIfFalse,
    Jump,
    JumpIfFalseKeep,
    JumpIfTrueKeep,
    CallMethod,
    CallCurrentMethod,
    CallModule,
    Return,
    Print,
    Printf,
    Putc,
    Cast,
    TrackDestructor,
    UntrackDestructor,
    PushFloat,
}

/// The number of an opcode.
pub open spec fn opcode_word(opcode: Opcode) -> u32 {
    match opcode {
        Opcode::AddI32 => 0,
        Opcode::AddF32 => 1,
        Opcode::AddF64 => 2,
        Opcode::Push => 3,
        Opcode::MakeString => 4,
        Opcode::Input => 5,
        Opcode::Require => 6,
        Opcode::Load => 7,
        Opcode::LoadCurrentReceiver => 8,
        Opcode::LoadCurrentField => 9,
        Opcode::Store => 10,
        Opcode::StoreIndex => 11,
        Opcode::StoreTableIndex => 12,
        Opcode::StoreTensorIndex => 13,
        Opcode::StoreTensorIndexF32 => 14,
        Opcode::StoreField => 15,
        Opcode::StoreFieldIndex => 16,
        Opcode::StoreTableField => 17,
        Opcode::StoreCurrentField => 18,
        Opcode::MakeArray => 19,
        Opcode::MakeTable => 20,
        Opcode::MakeStruct => 21,
        Opcode::MakeTensor => 22,
        Opcode::Index => 23,
        Opcode::TensorIndex => 24,
        Opcode::TensorIndexF32 => 25,
        Opcode::TableIndex => 26,
        Opcode::TableKeys => 27,
        Opcode::TableKeysIndex => 28,
        Opcode::TableRemove => 29,
        Opcode::Field => 30,
        Opcode::TableField => 31,
        Opcode::ModuleField => 32,
        Opcode::Binary => 33,
        Opcode::Unary => 34,
        Opcode::Len => 35,
        Opcode::ConcatString => 36,
        Opcode::Builtin1 => 37,
        Opcode::Builtin2 => 38,
        Opcode::CallExternal => 39,
        Opcode::JumpIfFalse => 40,
        Opcode::Jump => 41,
        Opcode::JumpIfFalseKeep => 42,
        Opcode::JumpIfTrueKeep => 43,
        Opcode::CallMethod => 44,
        Opcode::CallCurrentMethod => 45,
        Opcode::CallModule => 46,
        Opcode::Return => 47,
        Opcode::Print => 48,
        Opcode::Printf => 49,
        Opcode::Putc => 50,
        Opcode::Cast => 51,
        Opcode::TrackDestructor => 52,
        Opcode::UntrackDestructor => 53,
        Opcode::PushFloat => 54,
    }
}

/// The opcode with a number.
pub open spec fn opcode_of(word: u32) -> Option<Opcode> {
    if word == 0 {
        Some(Opcode::AddI32)
    } else if word == 1 {
        Some(Opcode::AddF32)
    } else if word == 2 {
        Some(Opcode::AddF64)
    } else if word == 3 {
        Some(Opcode::Push)
    } else if word == 4 {
        Some(Opcode::MakeString)
    } else if word == 5 {
        Some(Opcode::Input)
    } else if word == 6 {
        Some(Opcode::Require)
    } else if word == 7 {
        Some(Opcode::Load)
    } else if word == 8 {
        Some(Opcode::LoadCurrentReceiver)
    } else if word == 9 {
        Some(Opcode::LoadCurrentField)
    } else if word == 10 {
        Some(Opcode::Store)
    } else if word == 11 {
        Some(Opcode::StoreIndex)
    } else if word == 12 {
        Some(Opcode::StoreTableIndex)
    } else if word == 13 {
        Some(Opcode::StoreTensorIndex)
    } else if word == 14 {
        Some(Opcode::StoreTensorIndexF32)
    } else if word == 15 {
        Some(Opcode::StoreField)
    } else if word == 16 {
        Some(Opcode::StoreFieldIndex)
    } else if word == 17 {
        Some(Opcode::StoreTableField)
    } else if word == 18 {
        Some(Opcode::StoreCurrentField)
    } else if word == 19 {
        Some(Opcode::MakeArray)
    } else if word == 20 {
        Some(Opcode::MakeTable)
    } else if word == 21 {
        Some(Opcode::MakeStruct)
    } else if word == 22 {
        Some(Opcode::MakeTensor)
    } else if word == 23 {
        Some(Opcode::Index)
    } else if word == 24 {
        Some(Opcode::TensorIndex)
    } else if word == 25 {
        Some(Opcode::TensorIndexF32)
    } else if word == 26 {
        Some(Opcode::TableIndex)
    } else if word == 27 {
        Some(Opcode::TableKeys)
    } else if word == 28 {
        Some(Opcode::TableKeysIndex)
    } else if word == 29 {
        Some(Opcode::TableRemove)
    } else if word == 30 {
        Some(Opcode::Field)
    } else if word == 31 {
        Some(Opcode::TableField)
    } else if word == 32 {
        Some(Opcode::ModuleField)
    } else if word == 33 {
        Some(Opcode::Binary)
    } else if word == 34 {
        Some(Opcode::Unary)
    } else if word == 35 {
        Some(Opcode::Len)
    } else if word == 36 {
        Some(Opcode::ConcatString)
    } else if word == 37 {
        Some(Opcode::Builtin1)
    } else if word == 38 {
        Some(Opcode::Builtin2)
    } else if word == 39 {
        Some(Opcode::CallExternal)
    } else if word == 40 {
        Some(Opcode::JumpIfFalse)
    } else if word == 41 {
        Some(Opcode::Jump)
    } else if word == 42 {
        Some(Opcode::JumpIfFalseKeep)
    } else if word == 43 {
        Some(Opcode::JumpIfTrueKeep)
    } else if word == 44 {
        Some(Opcode::CallMethod)
    } else if word == 45 {
        Some(Opcode::CallCurrentMethod)
    } else if word == 46 {
        Some(Opcode::CallModule)
    } else if word == 47 {
        Some(Opcode::Return)
    } else if word == 48 {
        Some(Opcode::Print)
    } else if word == 49 {
        Some(Opcode::Printf)
    } else if word == 50 {
        Some(Opcode::Putc)
    } else if word == 51 {
        Some(Opcode::Cast)
    } else if word == 52 {
        Some(Opcode::TrackDestructor)
    } else if word == 53 {
        Some(Opcode::UntrackDestructor)
    } else if word == 54 {
        Some(Opcode::PushFloat)
    } else {
        None
    }
}

impl Opcode {
    /// The number of the opcode.
    pub fn to_word(self) -> (r: u32)
        ensures
            r == opcode_word(self),
    {
        match self {
            Opcode::AddI32 => 0,
            Opcode::AddF32 => 1,
            Opcode::AddF64 => 2,
            Opcode::Push => 3,
            Opcode::MakeString => 4,
            Opcode::Input => 5,
            Opcode::Require => 6,
            Opcode::Load => 7,
            Opcode::LoadCurrentReceiver => 8,
            Opcode::LoadCurrentField => 9,
            Opcode::Store => 10,
            Opcode::StoreIndex => 11,
            Opcode::StoreTableIndex => 12,
            Opcode::StoreTensorIndex => 13,
            Opcode::StoreTensorIndexF32 => 14,
            Opcode::StoreField => 15,
            Opcode::StoreFieldIndex => 16,
            Opcode::StoreTableField => 17,
            Opcode::StoreCurrentField => 18,
            Opcode::MakeArray => 19,
            Opcode::MakeTable => 20,
            Opcode::MakeStruct => 21,
            Opcode::MakeTensor => 22,
            Opcode::Index => 23,
            Opcode::TensorIndex => 24,
            Opcode::TensorIndexF32 => 25,
            Opcode::TableIndex => 26,
            Opcode::TableKeys => 27,
            Opcode::TableKeysIndex => 28,
            Opcode::TableRemove => 29,
            Opcode::Field => 30,
            Opcode::TableField => 31,
            Opcode::ModuleField => 32,
            Opcode::Binary => 33,
            Opcode::Unary => 34,
            Opcode::Len => 35,
            Opcode::ConcatString => 36,
            Opcode::Builtin1 => 37,
            Opcode::Builtin2 => 38,
            Opcode::CallExternal => 39,
            Opcode::JumpIfFalse => 40,
            Opcode::Jump => 41,
            Opcode::JumpIfFalseKeep => 42,
            Opcode::JumpIfTrueKeep => 43,
            Opcode::CallMethod => 44,
            Opcode::CallCurrentMethod => 45,
            Opcode::CallModule => 46,
            Opcode::Return => 47,
            Opcode::Print => 48,
            Opcode::Printf => 49,
            Opcode::Putc => 50,
            Opcode::Cast => 51,
            Opcode::TrackDestructor => 52,
            Opcode::UntrackDestructor => 53,
            Opcode::PushFloat => 54,
        }
    }

    pub fn from_word(word: u32) -> (r: Result<Self, Error>)
        ensures
            match r {
                Ok(opcode) => opcode_of(word) == Some(opcode),
                Err(e) => opcode_of(word) is None && e@ == ErrorView::Runtime(
                    "invalid bytecode opcode"@,
                ),
            },
    {
        if word == 0 {
            return Ok(Opcode::AddI32);
        }
        if word == 1 {
            return Ok(Opcode::AddF32);
        }
        if word == 2 {
            return Ok(Opcode::AddF64);
        }
        if word == 3 {
            return Ok(Opcode::Push);
        }
        if word == 4 {
            return Ok(Opcode::MakeString);
        }
        if word == 5 {
            return Ok(Opcode::Input);
        }
        if word == 6 {
            return Ok(Opcode::Require);
        }
        if word == 7 {
            return Ok(Opcode::Load);
        }
        if word == 8 {
            return Ok(Opcode::LoadCurrentReceiver);
        }
        if word == 9 {
            return Ok(Opcode::LoadCurrentField);
        }
        if word == 10 {
            return Ok(Opcode::Store);
        }
        if word == 11 {
            return Ok(Opcode::StoreIndex);
        }
        if word == 12 {
            return Ok(Opcode::StoreTableIndex);
        }
        if word == 13 {
            return Ok(Opcode::StoreTensorIndex);
        }
        if word == 14 {
            return Ok(Opcode::StoreTensorIndexF32);
        }
        if word == 15 {
            return Ok(Opcode::StoreField);
        }
        if word == 16 {
            return Ok(Opcode::StoreFieldIndex);
        }
        if word == 17 {
            return Ok(Opcode::StoreTableField);
        }
        if word == 18 {
            return Ok(Opcode::StoreCurrentField);
        }
        if word == 19 {
            return Ok(Opcode::MakeArray);
        }
        if word == 20 {
            return Ok(Opcode::MakeTable);
        }
        if word == 21 {
            return Ok(Opcode::MakeStruct);
        }
        if word == 22 {
            return Ok(Opcode::MakeTensor);
        }
        if word == 23 {
            return Ok(Opcode::Index);
        }
        if word == 24 {
            return Ok(Opcode::TensorIndex);
        }
        if word == 25 {
            return Ok(Opcode::TensorIndexF32);
        }
        if word == 26 {
            return Ok(Opcode::TableIndex);
        }
        if word == 27 {
            return Ok(Opcode::TableKeys);
        }
        if word == 28 {
            return Ok(Opcode::TableKeysIndex);
        }
        if word == 29 {
            return Ok(Opcode::TableRemove);
        }
        if word == 30 {
            return Ok(Opcode::Field);
        }
        if word == 31 {
            return Ok(Opcode::TableField);
        }
        if word == 32 {
            return Ok(Opcode::ModuleField);
        }
        if word == 33 {
            return Ok(Opcode::Binary);
        }
        if word == 34 {
            return Ok(Opcode::Unary);
        }
        if word == 35 {
            return Ok(Opcode::Len);
        }
        if word == 36 {
            return Ok(Opcode::ConcatString);
        }
        if word == 37 {
            return Ok(Opcode::Builtin1);
        }
        if word == 38 {
            return Ok(Opcode::Builtin2);
        }
        if word == 39 {
            return Ok(Opcode::CallExternal);
        }
        if word == 40 {
            return Ok(Opcode::JumpIfFalse);
        }
        if word == 41 {
            return Ok(Opcode::Jump);
        }
        if word == 42 {
            return Ok(Opcode::JumpIfFalseKeep);
        }
        if word == 43 {
            return Ok(Opcode::JumpIfTrueKeep);
        }
        if word == 44 {
            return Ok(Opcode::CallMethod);
        }
        if word == 45 {
            return Ok(Opcode::CallCurrentMethod);
        }
        if word == 46 {
            return Ok(Opcode::CallModule);
        }
        if word == 47 {
            return Ok(Opcode::Return);
        }
        if word == 48 {
            return Ok(Opcode::Print);
        }
        if word == 49 {
            return Ok(Opcode::Printf);
        }
        if word == 50 {
            return Ok(Opcode::Putc);
        }
        if word == 51 {
            return Ok(Opcode::Cast);
        }
        if word == 52 {
            return Ok(Opcode::TrackDestructor);
        }
        if word == 53 {
            return Ok(Opcode::UntrackDestructor);
        }
        if word == 54 {
            return Ok(Opcode::PushFloat);
        }
        Err(runtime_error("invalid bytecode opcode"))
    }
}

/// Every opcode is read back from its number.
pub proof fn opcodes_round_trip(opcode: Opcode)
    ensures
        opcode_of(opcode_word(opcode)) == Some(opcode),
{
}

/// Numbers beyond the last opcode name none.
pub proof fn no_other_opcodes(word: u32)
    ensures
        opcode_of(word) is Some <==> word < 55,
        opcode_of(word) matches Some(opcode) ==> opcode_word(opcode) == word,
{
}

/// A jump target, from instructions to words.
pub open spec fn word_target(target: usize) -> u32 {
    target.wrapping_mul(4) as u32
}

/// An instruction's opcode, operand words and constants, where `n` constants
/// come before them.
pub struct Encoding {
    pub opcode: Opcode,
    pub operands: Seq<u32>,
    pub constants: Seq<ConstantView>,
}

#[verifier::opaque]
pub open spec fn encoding(op: OpView, n: int) -> Encoding {
    match op {
        OpView::AddI32 => Encoding {
            opcode: Opcode::AddI32,
            operands: Seq::empty(),
            constants: Seq::empty(),
        },
        OpView::AddF32 => Encoding {
            opcode: Opcode::AddF32,
            operands: Seq::empty(),
            constants: Seq::empty(),
        },
        OpView::AddF64 => Encoding {
            opcode: Opcode::AddF64,
            operands: Seq::empty(),
            constants: Seq::empty(),
        },
        OpView::Push(a) => Encoding {
            opcode: Opcode::Push,
            operands: seq![n as u32],
            constants: seq![ConstantView::Value(a)],
        },
        OpView::MakeString(a) => Encoding {
            opcode: Opcode::MakeString,
            operands: seq![n as u32],
            constants: seq![ConstantView::String(a)],
        },
        OpView::Input(a) => Encoding {
            opcode: Opcode::Input,
            operands: seq![n as u32],
            constants: seq![ConstantView::Type(a)],
        },
        OpView::Require(a) => Encoding {
            opcode: Opcode::Require,
            operands: seq![n as u32],
            constants: seq![ConstantView::Module(a)],
        },
        OpView::Load(a) => Encoding {
            opcode: Opcode::Load,
            operands: seq![a as u32],
            constants: Seq::empty(),
        },
        OpView::LoadCurrentReceiver => Encoding {
            opcode: Opcode::LoadCurrentReceiver,
            operands: Seq::empty(),
            constants: Seq::empty(),
        },
        OpView::LoadCurrentField(a) => Encoding {
            opcode: Opcode::LoadCurrentField,
            operands: seq![n as u32],
            constants: seq![ConstantView::Field(a)],
        },
        OpView::Store(a) => Encoding {
            opcode: Opcode::Store,
            operands: seq![a as u32],
            constants: Seq::empty(),
        },
        OpView::StoreIndex(a, b) => Encoding {
            opcode: Opcode::StoreIndex,
            operands: seq![a as u32, n as u32],
            constants: seq![ConstantView::Type(b)],
        },
        OpView::StoreTableIndex(a, b) => Encoding {
            opcode: Opcode::StoreTableIndex,
            operands: seq![a as u32, n as u32],
            constants: seq![ConstantView::Type(b)],
        },
        OpView::StoreTensorIndex(a, b, c) => Encoding {
            opcode: Opcode::StoreTensorIndex,
            operands: seq![a as u32, n as u32, c as u32],
            constants: seq![ConstantView::Type(b)],
        },
        OpView::StoreTensorIndexF32(a, b) => Encoding {
            opcode: Opcode::StoreTensorIndexF32,
            operands: seq![a as u32, b as u32],
            constants: Seq::empty(),
        },
        OpView::StoreField(a, b) => Encoding {
            opcode: Opcode::StoreField,
            operands: seq![a as u32, n as u32],
            constants: seq![ConstantView::Field(b)],
        },
        OpView::StoreFieldIndex(a, b, c) => Encoding {
            opcode: Opcode::StoreFieldIndex,
            operands: seq![a as u32, n as u32, (n + 1) as u32],
            constants: seq![ConstantView::Field(b), ConstantView::Type(c)],
        },
        OpView::StoreTableField(a, b, c) => Encoding {
            opcode: Opcode::StoreTableField,
            operands: seq![a as u32, n as u32, (n + 1) as u32],
            constants: seq![ConstantView::String(b), ConstantView::Type(c)],
        },
        OpView::StoreCurrentField(a) => Encoding {
            opcode: Opcode::StoreCurrentField,
            operands: seq![n as u32],
            constants: seq![ConstantView::Field(a)],
        },
        OpView::MakeArray(a, b) => Encoding {
            opcode: Opcode::MakeArray,
            operands: seq![a as u32, n as u32],
            constants: seq![ConstantView::Type(b)],
        },
        OpView::MakeTable(a, b) => Encoding {
            opcode: Opcode::MakeTable,
            operands: seq![n as u32, (n + 1) as u32],
            constants: seq![ConstantView::Entries(a), ConstantView::Type(b)],
        },
        OpView::MakeStruct(a) => Encoding {
            opcode: Opcode::MakeStruct,
            operands: seq![n as u32],
            constants: seq![ConstantView::Layout(a)],
        },
        OpView::MakeTensor(a, b, c) => Encoding {
            opcode: Opcode::MakeTensor,
            operands: seq![n as u32, (n + 1) as u32, c as u32],
            constants: seq![ConstantView::TensorInit(a), ConstantView::Type(b)],
        },
        OpView::Index => Encoding {
            opcode: Opcode::Index,
            operands: Seq::empty(),
            constants: Seq::empty(),
        },
        OpView::TensorIndex(a, b) => Encoding {
            opcode: Opcode::TensorIndex,
            operands: seq![n as u32, b as u32],
            constants: seq![ConstantView::Type(a)],
        },
        OpView::TensorIndexF32(a) => Encoding {
            opcode: Opcode::TensorIndexF32,
            operands: seq![a as u32],
            constants: Seq::empty(),
        },
        OpView::TableIndex => Encoding {
            opcode: Opcode::TableIndex,
            operands: Seq::empty(),
            constants: Seq::empty(),
        },
        OpView::TableKeys => Encoding {
            opcode: Opcode::TableKeys,
            operands: Seq::empty(),
            constants: Seq::empty(),
        },
        OpView::TableKeysIndex => Encoding {
            opcode: Opcode::TableKeysIndex,
            operands: Seq::empty(),
            constants: Seq::empty(),
        },
        OpView::TableRemove => Encoding {
            opcode: Opcode::TableRemove,
            operands: Seq::empty(),
            constants: Seq::empty(),
        },
        OpView::Field(a) => Encoding {
            opcode: Opcode::Field,
            operands: seq![n as u32],
            constants: seq![ConstantView::Field(a)],
        },
        OpView::TableField(a) => Encoding {
            opcode: Opcode::TableField,
            operands: seq![n as u32],
            constants: seq![ConstantView::String(a)],
        },
        OpView::ModuleField(a) => Encoding {
            opcode: Opcode::ModuleField,
            operands: seq![n as u32],
            constants: seq![ConstantView::String(a)],
        },
        OpView::Binary(a) => Encoding {
            opcode: Opcode::Binary,
            operands: seq![n as u32],
            constants: seq![ConstantView::Binary(a)],
        },
        OpView::Unary(a, b) => Encoding {
            opcode: Opcode::Unary,
            operands: seq![n as u32, (n + 1) as u32],
            constants: seq![ConstantView::Unary(a), ConstantView::Type(b)],
        },
        OpView::Len => Encoding {
            opcode: Opcode::Len,
            operands: Seq::empty(),
            constants: Seq::empty(),
        },
        OpView::ConcatString => Encoding {
            opcode: Opcode::ConcatString,
            operands: Seq::empty(),
            constants: Seq::empty(),
        },
        OpView::Builtin1(a, b) => Encoding {
            opcode: Opcode::Builtin1,
            operands: seq![n as u32, (n + 1) as u32],
            constants: seq![ConstantView::Builtin(a), ConstantView::Type(b)],
        },
        OpView::Builtin2(a, b) => Encoding {
            opcode: Opcode::Builtin2,
            operands: seq![n as u32, (n + 1) as u32],
            constants: seq![ConstantView::Builtin(a), ConstantView::Type(b)],
        },
        OpView::CallExternal(a, b) => Encoding {
            opcode: Opcode::CallExternal,
            operands: seq![n as u32, b as u32],
            constants: seq![ConstantView::String(a)],
        },
        OpView::JumpIfFalse(a) => Encoding {
            opcode: Opcode::JumpIfFalse,
            operands: seq![word_target(a)],
            constants: Seq::empty(),
        },
        OpView::Jump(a) => Encoding {
            opcode: Opcode::Jump,
            operands: seq![word_target(a)],
            constants: Seq::empty(),
        },
        OpView::JumpIfFalseKeep(a) => Encoding {
            opcode: Opcode::JumpIfFalseKeep,
            operands: seq![word_target(a)],
            constants: Seq::empty(),
        },
        OpView::JumpIfTrueKeep(a) => Encoding {
            opcode: Opcode::JumpIfTrueKeep,
            operands: seq![word_target(a)],
            constants: Seq::empty(),
        },
        OpView::CallMethod(a, b) => Encoding {
            opcode: Opcode::CallMethod,
            operands: seq![a as u32, word_target(b)],
            constants: Seq::empty(),
        },
        OpView::CallCurrentMethod(a) => Encoding {
            opcode: Opcode::CallCurrentMethod,
            operands: seq![word_target(a)],
            constants: Seq::empty(),
        },
        OpView::CallModule(a, b) => Encoding {
            opcode: Opcode::CallModule,
            operands: seq![a as u32, n as u32],
            constants: seq![ConstantView::String(b)],
        },
        OpView::Return => Encoding {
            opcode: Opcode::Return,
            operands: Seq::empty(),
            constants: Seq::empty(),
        },
        OpView::Print => Encoding {
            opcode: Opcode::Print,
            operands: Seq::empty(),
            constants: Seq::empty(),
        },
        OpView::Printf(a) => Encoding {
            opcode: Opcode::Printf,
            operands: seq![a as u32],
            constants: Seq::empty(),
        },
        OpView::Putc => Encoding {
            opcode: Opcode::Putc,
            operands: Seq::empty(),
            constants: Seq::empty(),
        },
        OpView::Cast(a) => Encoding {
            opcode: Opcode::Cast,
            operands: seq![n as u32],
            constants: seq![ConstantView::Type(a)],
        },
        OpView::TrackDestructor(a, b) => Encoding {
            opcode: Opcode::TrackDestructor,
            operands: seq![a as u32, word_target(b)],
            constants: Seq::empty(),
        },
        OpView::UntrackDestructor(a) => Encoding {
            opcode: Opcode::UntrackDestructor,
            operands: seq![a as u32],
            constants: Seq::empty(),
        },
        OpView::PushFloat(a, b) => Encoding {
            opcode: Opcode::PushFloat,
            operands: seq![n as u32, (n + 1) as u32],
            constants: seq![ConstantView::String(a), ConstantView::Type(b)],
        },
    }
}

/// The operand at a position, where there is one.
pub open spec fn padded(operands: Seq<u32>, i: int) -> u32 {
    if i < operands.len() {
        operands[i]
    } else {
        0
    }
}

/// The four words of an instruction.
pub open spec fn instruction_words(e: Encoding) -> Seq<u32> {
    seq![
        opcode_word(e.opcode),
        padded(e.operands, 0),
        padded(e.operands, 1),
        padded(e.operands, 2),
    ]
}

/// The bytecode of a list of instructions.
pub open spec fn lowered(ir: Seq<OpView>) -> CodeView
    decreases ir.len(),
{
    if ir.len() == 0 {
        CodeView { words: Seq::empty(), constants: Seq::empty() }
    } else {
        let before = lowered(ir.drop_last());
        let e = encoding(ir.last(), before.constants.len() as int);
        CodeView {
            words: before.words + instruction_words(e),
            constants: before.constants + e.constants,
        }
    }
}

/// The operand word `k` places after the opcode.
pub open spec fn operand(code: CodeView, pc: int, k: int) -> Result<usize, ErrorView> {
    if pc + k < code.words.len() {
        Ok(code.words[pc + k] as usize)
    } else {
        Err(ErrorView::Runtime("truncated bytecode operand"@))
    }
}

/// The constant that an operand refers to.
pub open spec fn constant_at(code: CodeView, pc: int, k: int) -> Result<ConstantView, ErrorView> {
    match operand(code, pc, k) {
        Err(e) => Err(e),
        Ok(i) => if i < code.constants.len() {
            Ok(code.constants[i as int])
        } else {
            Err(ErrorView::Runtime("invalid bytecode constant"@))
        },
    }
}

pub open spec fn value_at(code: CodeView, pc: int, k: int) -> Result<ValueView, ErrorView> {
    match constant_at(code, pc, k) {
        Err(e) => Err(e),
        Ok(ConstantView::Value(x)) => Ok(x),
        Ok(_) => Err(ErrorView::Runtime("invalid bytecode constant kind"@)),
    }
}

pub open spec fn string_at(code: CodeView, pc: int, k: int) -> Result<Seq<char>, ErrorView> {
    match constant_at(code, pc, k) {
        Err(e) => Err(e),
        Ok(ConstantView::String(x)) => Ok(x),
        Ok(_) => Err(ErrorView::Runtime("invalid bytecode constant kind"@)),
    }
}

pub open spec fn type_at(code: CodeView, pc: int, k: int) -> Result<TypeView, ErrorView> {
    match constant_at(code, pc, k) {
        Err(e) => Err(e),
        Ok(ConstantView::Type(x)) => Ok(x),
        Ok(_) => Err(ErrorView::Runtime("invalid bytecode constant kind"@)),
    }
}

pub open spec fn module_at(code: CodeView, pc: int, k: int) -> Result<Box<ArtifactView>, ErrorView> {
    match constant_at(code, pc, k) {
        Err(e) => Err(e),
        Ok(ConstantView::Module(x)) => Ok(x),
        Ok(_) => Err(ErrorView::Runtime("invalid bytecode constant kind"@)),
    }
}

pub open spec fn field_at(code: CodeView, pc: int, k: int) -> Result<FieldView, ErrorView> {
    match constant_at(code, pc, k) {
        Err(e) => Err(e),
        Ok(ConstantView::Field(x)) => Ok(x),
        Ok(_) => Err(ErrorView::Runtime("invalid bytecode constant kind"@)),
    }
}

pub open spec fn entries_at(code: CodeView, pc: int, k: int) -> Result<Seq<EntryView>, ErrorView> {
    match constant_at(code, pc, k) {
        Err(e) => Err(e),
        Ok(ConstantView::Entries(x)) => Ok(x),
        Ok(_) => Err(ErrorView::Runtime("invalid bytecode constant kind"@)),
    }
}

pub open spec fn layout_at(code: CodeView, pc: int, k: int) -> Result<LayoutView, ErrorView> {
    match constant_at(code, pc, k) {
        Err(e) => Err(e),
        Ok(ConstantView::Layout(x)) => Ok(x),
        Ok(_) => Err(ErrorView::Runtime("invalid bytecode constant kind"@)),
    }
}

pub open spec fn binary_at(code: CodeView, pc: int, k: int) -> Result<BinaryOp, ErrorView> {
    match constant_at(code, pc, k) {
        Err(e) => Err(e),
        Ok(ConstantView::Binary(x)) => Ok(x),
        Ok(_) => Err(ErrorView::Runtime("invalid bytecode constant kind"@)),
    }
}

pub open spec fn unary_at(code: CodeView, pc: int, k: int) -> Result<UnOp, ErrorView> {
    match constant_at(code, pc, k) {
        Err(e) => Err(e),
        Ok(ConstantView::Unary(x)) => Ok(x),
        Ok(_) => Err(ErrorView::Runtime("invalid bytecode constant kind"@)),
    }
}

pub open spec fn builtin_at(code: CodeView, pc: int, k: int) -> Result<BuiltinFn, ErrorView> {
    match constant_at(code, pc, k) {
        Err(e) => Err(e),
        Ok(ConstantView::Builtin(x)) => Ok(x),
        Ok(_) => Err(ErrorView::Runtime("invalid bytecode constant kind"@)),
    }
}

pub open spec fn init_at(code: CodeView, pc: int, k: int) -> Result<TensorInit, ErrorView> {
    match constant_at(code, pc, k) {
        Err(e) => Err(e),
        Ok(ConstantView::TensorInit(x)) => Ok(x),
        Ok(_) => Err(ErrorView::Runtime("invalid bytecode constant kind"@)),
    }
}

/// The instruction at a word of the bytecode.
#[verifier::opaque]
pub open spec fn decoded_op(code: CodeView, pc: int) -> Result<OpView, ErrorView> {
    if pc >= code.words.len() {
        Err(ErrorView::Runtime("truncated bytecode"@))
    } else {
        match opcode_of(code.words[pc]) {
            None => Err(ErrorView::Runtime("invalid bytecode opcode"@)),
            Some(opcode) => match opcode {
                Opcode::AddI32 => Ok(OpView::AddI32),
                Opcode::AddF32 => Ok(OpView::AddF32),
                Opcode::AddF64 => Ok(OpView::AddF64),
                Opcode::Push => match value_at(code, pc, 1) {
                    Err(e) => Err(e),
                    Ok(a) => Ok(OpView::Push(a)),
                },
                Opcode::MakeString => match string_at(code, pc, 1) {
                    Err(e) => Err(e),
                    Ok(a) => Ok(OpView::MakeString(a)),
                },
                Opcode::Input => match type_at(code, pc, 1) {
                    Err(e) => Err(e),
                    Ok(a) => Ok(OpView::Input(a)),
                },
                Opcode::Require => match module_at(code, pc, 1) {
                    Err(e) => Err(e),
                    Ok(a) => Ok(OpView::Require(a)),
                },
                Opcode::Load => match operand(code, pc, 1) {
                    Err(e) => Err(e),
                    Ok(a) => Ok(OpView::Load(a)),
                },
                Opcode::LoadCurrentReceiver => Ok(OpView::LoadCurrentReceiver),
                Opcode::LoadCurrentField => match field_at(code, pc, 1) {
                    Err(e) => Err(e),
                    Ok(a) => Ok(OpView::LoadCurrentField(a)),
                },
                Opcode::Store => match operand(code, pc, 1) {
                    Err(e) => Err(e),
                    Ok(a) => Ok(OpView::Store(a)),
                },
                Opcode::StoreIndex => match operand(code, pc, 1) {
                    Err(e) => Err(e),
                    Ok(a) => match type_at(code, pc, 2) {
                        Err(e) => Err(e),
                        Ok(b) => Ok(OpView::StoreIndex(a, b)),
                    },
                },
                Opcode::StoreTableIndex => match operand(code, pc, 1) {
                    Err(e) => Err(e),
                    Ok(a) => match type_at(code, pc, 2) {
                        Err(e) => Err(e),
                        Ok(b) => Ok(OpView::StoreTableIndex(a, b)),
                    },
                },
                Opcode::StoreTensorIndex => match operand(code, pc, 1) {
                    Err(e) => Err(e),
                    Ok(a) => match type_at(code, pc, 2) {
                        Err(e) => Err(e),
                        Ok(b) => match operand(code, pc, 3) {
                            Err(e) => Err(e),
                            Ok(c) => Ok(OpView::StoreTensorIndex(a, b, c)),
                        },
                    },
                },
                Opcode::StoreTensorIndexF32 => match operand(code, pc, 1) {
                    Err(e) => Err(e),
                    Ok(a) => match operand(code, pc, 2) {
                        Err(e) => Err(e),
                        Ok(b) => Ok(OpView::StoreTensorIndexF32(a, b)),
                    },
                },
                Opcode::StoreField => match operand(code, pc, 1) {
                    Err(e) => Err(e),
                    Ok(a) => match field_at(code, pc, 2) {
                        Err(e) => Err(e),
                        Ok(b) => Ok(OpView::StoreField(a, b)),
                    },
                },
                Opcode::StoreFieldIndex => match operand(code, pc, 1) {
                    Err(e) => Err(e),
                    Ok(a) => match field_at(code, pc, 2) {
                        Err(e) => Err(e),
                        Ok(b) => match type_at(code, pc, 3) {
                            Err(e) => Err(e),
                            Ok(c) => Ok(OpView::StoreFieldIndex(a, b, c)),
                        },
                    },
                },
                Opcode::StoreTableField => match operand(code, pc, 1) {
                    Err(e) => Err(e),
                    Ok(a) => match string_at(code, pc, 2) {
                        Err(e) => Err(e),
                        Ok(b) => match type_at(code, pc, 3) {
                            Err(e) => Err(e),
                            Ok(c) => Ok(OpView::StoreTableField(a, b, c)),
                        },
                    },
                },
                Opcode::StoreCurrentField => match field_at(code, pc, 1) {
                    Err(e) => Err(e),
                    Ok(a) => Ok(OpView::StoreCurrentField(a)),
                },
                Opcode::MakeArray => match operand(code, pc, 1) {
                    Err(e) => Err(e),
                    Ok(a) => match type_at(code, pc, 2) {
                        Err(e) => Err(e),
                        Ok(b) => Ok(OpView::MakeArray(a, b)),
                    },
                },
                Opcode::MakeTable => match entries_at(code, pc, 1) {
                    Err(e) => Err(e),
                    Ok(a) => match type_at(code, pc, 2) {
                        Err(e) => Err(e),
                        Ok(b) => Ok(OpView::MakeTable(a, b)),
                    },
                },
                Opcode::MakeStruct => match layout_at(code, pc, 1) {
                    Err(e) => Err(e),
                    Ok(a) => Ok(OpView::MakeStruct(a)),
                },
                Opcode::MakeTensor => match init_at(code, pc, 1) {
                    Err(e) => Err(e),
                    Ok(a) => match type_at(code, pc, 2) {
                        Err(e) => Err(e),
                        Ok(b) => match operand(code, pc, 3) {
                            Err(e) => Err(e),
                            Ok(c) => Ok(OpView::MakeTensor(a, b, c)),
                        },
                    },
                },
                Opcode::Index => Ok(OpView::Index),
                Opcode::TensorIndex => match type_at(code, pc, 1) {
                    Err(e) => Err(e),
                    Ok(a) => match operand(code, pc, 2) {
                        Err(e) => Err(e),
                        Ok(b) => Ok(OpView::TensorIndex(a, b)),
                    },
                },
                Opcode::TensorIndexF32 => match operand(code, pc, 1) {
                    Err(e) => Err(e),
                    Ok(a) => Ok(OpView::TensorIndexF32(a)),
                },
                Opcode::TableIndex => Ok(OpView::TableIndex),
                Opcode::TableKeys => Ok(OpView::TableKeys),
                Opcode::TableKeysIndex => Ok(OpView::TableKeysIndex),
                Opcode::TableRemove => Ok(OpView::TableRemove),
                Opcode::Field => match field_at(code, pc, 1) {
                    Err(e) => Err(e),
                    Ok(a) => Ok(OpView::Field(a)),
                },
                Opcode::TableField => match string_at(code, pc, 1) {
                    Err(e) => Err(e),
                    Ok(a) => Ok(OpView::TableField(a)),
                },
                Opcode::ModuleField => match string_at(code, pc, 1) {
                    Err(e) => Err(e),
                    Ok(a) => Ok(OpView::ModuleField(a)),
                },
                Opcode::Binary => match binary_at(code, pc, 1) {
                    Err(e) => Err(e),
                    Ok(a) => Ok(OpView::Binary(a)),
                },
                Opcode::Unary => match unary_at(code, pc, 1) {
                    Err(e) => Err(e),
                    Ok(a) => match type_at(code, pc, 2) {
                        Err(e) => Err(e),
                        Ok(b) => Ok(OpView::Unary(a, b)),
                    },
                },
                Opcode::Len => Ok(OpView::Len),
                Opcode::ConcatString => Ok(OpView::ConcatString),
                Opcode::Builtin1 => match builtin_at(code, pc, 1) {
                    Err(e) => Err(e),
                    Ok(a) => match type_at(code, pc, 2) {
                        Err(e) => Err(e),
                        Ok(b) => Ok(OpView::Builtin1(a, b)),
                    },
                },
                Opcode::Builtin2 => match builtin_at(code, pc, 1) {
                    Err(e) => Err(e),
                    Ok(a) => match type_at(code, pc, 2) {
                        Err(e) => Err(e),
                        Ok(b) => Ok(OpView::Builtin2(a, b)),
                    },
                },
                Opcode::CallExternal => match string_at(code, pc, 1) {
                    Err(e) => Err(e),
                    Ok(a) => match operand(code, pc, 2) {
                        Err(e) => Err(e),
                        Ok(b) => Ok(OpView::CallExternal(a, b)),
                    },
                },
                Opcode::JumpIfFalse => match operand(code, pc, 1) {
                    Err(e) => Err(e),
                    Ok(a) => Ok(OpView::JumpIfFalse(a)),
                },
                Opcode::Jump => match operand(code, pc, 1) {
                    Err(e) => Err(e),
                    Ok(a) => Ok(OpView::Jump(a)),
                },
                Opcode::JumpIfFalseKeep => match operand(code, pc, 1) {
                    Err(e) => Err(e),
                    Ok(a) => Ok(OpView::JumpIfFalseKeep(a)),
                },
                Opcode::JumpIfTrueKeep => match operand(code, pc, 1) {
                    Err(e) => Err(e),
                    Ok(a) => Ok(OpView::JumpIfTrueKeep(a)),
                },
                Opcode::CallMethod => match operand(code, pc, 1) {
                    Err(e) => Err(e),
                    Ok(a) => match operand(code, pc, 2) {
                        Err(e) => Err(e),
                        Ok(b) => Ok(OpView::CallMethod(a, b)),
                    },
                },
                Opcode::CallCurrentMethod => match operand(code, pc, 1) {
                    Err(e) => Err(e),
                    Ok(a) => Ok(OpView::CallCurrentMethod(a)),
                },
                Opcode::CallModule => match operand(code, pc, 1) {
                    Err(e) => Err(e),
                    Ok(a) => match string_at(code, pc, 2) {
                        Err(e) => Err(e),
                        Ok(b) => Ok(OpView::CallModule(a, b)),
                    },
                },
                Opcode::Return => Ok(OpView::Return),
                Opcode::Print => Ok(OpView::Print),
                Opcode::Printf => match operand(code, pc, 1) {
                    Err(e) => Err(e),
                    Ok(a) => Ok(OpView::Printf(a)),
                },
                Opcode::Putc => Ok(OpView::Putc),
                Opcode::Cast => match type_at(code, pc, 1) {
                    Err(e) => Err(e),
                    Ok(a) => Ok(OpView::Cast(a)),
                },
                Opcode::TrackDestructor => match operand(code, pc, 1) {
                    Err(e) => Err(e),
                    Ok(a) => match operand(code, pc, 2) {
                        Err(e) => Err(e),
                        Ok(b) => Ok(OpView::TrackDestructor(a, b)),
                    },
                },
                Opcode::UntrackDestructor => match operand(code, pc, 1) {
                    Err(e) => Err(e),
                    Ok(a) => Ok(OpView::UntrackDestructor(a)),
                },
                Opcode::PushFloat => match string_at(code, pc, 1) {
                    Err(e) => Err(e),
                    Ok(a) => match type_at(code, pc, 2) {
                        Err(e) => Err(e),
                        Ok(b) => Ok(OpView::PushFloat(a, b)),
                    },
                },
            },
        }
    }
}

impl Default for FlatBytecode {
    fn default() -> (r: Self)
        ensures
            r@ == (CodeView { words: Seq::empty(), constants: Seq::empty() }),
    {
        FlatBytecode { words: Vec::new(), constants: Vec::new() }
    }
}

fn target_word(target: usize) -> (r: u32)
    ensures
        r == word_target(target),
{
    #[verifier::truncate]
    let word: u32 = target.wrapping_mul(4) as u32;
    word
}

fn to_word(n: usize) -> (r: u32)
    ensures
        r == n as u32,
{
    #[verifier::truncate]
    let word: u32 = n as u32;
    word
}

impl FlatBytecode {
    /// Adds a constant and gives its number.
    fn constant(&mut self, constant: Constant) -> (r: u32)
        ensures
            final(self).words@ == old(self).words@,
            views(final(self).constants@) == views(old(self).constants@).push(constant@),
            r == old(self).constants@.len() as u32,
    {
        let index: u32 = to_word(self.constants.len());
        self.constants.push(constant);
        index
    }

    /// Appends an instruction.
    fn emit(&mut self, op: IrOp)
        ensures
            ({
                let e = encoding(op@, old(self).constants@.len() as int);
                &&& final(self).words@ == old(self).words@ + instruction_words(e)
                &&& views(final(self).constants@) == views(old(self).constants@) + e.constants
            }),
    {
        reveal(encoding);
        let ghost n = self.constants@.len() as int;
        let ghost e = encoding(op@, n);
        let ghost before = views(self.constants@);
        let mut x: u32 = 0;
        let mut y: u32 = 0;
        let mut z: u32 = 0;
        let opcode: Opcode = match op {
            IrOp::AddI32 => Opcode::AddI32,
            IrOp::AddF32 => Opcode::AddF32,
            IrOp::AddF64 => Opcode::AddF64,
            IrOp::Push(a) => {
                x = self.constant(Constant::Value(a));
                Opcode::Push
            },
            IrOp::MakeString(a) => {
                x = self.constant(Constant::String(a));
                Opcode::MakeString
            },
            IrOp::Input(a) => {
                x = self.constant(Constant::Type(a));
                Opcode::Input
            },
            IrOp::Require(a) => {
                x = self.constant(Constant::Module(a));
                Opcode::Require
            },
            IrOp::Load(a) => {
                x = to_word(a);
                Opcode::Load
            },
            IrOp::LoadCurrentReceiver => Opcode::LoadCurrentReceiver,
            IrOp::LoadCurrentField(a) => {
                x = self.constant(Constant::Field(a));
                Opcode::LoadCurrentField
            },
            IrOp::Store(a) => {
                x = to_word(a);
                Opcode::Store
            },
            IrOp::StoreIndex(a, b) => {
                x = to_word(a);
                y = self.constant(Constant::Type(b));
                Opcode::StoreIndex
            },
            IrOp::StoreTableIndex(a, b) => {
                x = to_word(a);
                y = self.constant(Constant::Type(b));
                Opcode::StoreTableIndex
            },
            IrOp::StoreTensorIndex(a, b, c) => {
                x = to_word(a);
                y = self.constant(Constant::Type(b));
                z = to_word(c);
                Opcode::StoreTensorIndex
            },
            IrOp::StoreTensorIndexF32(a, b) => {
                x = to_word(a);
                y = to_word(b);
                Opcode::StoreTensorIndexF32
            },
            IrOp::StoreField(a, b) => {
                x = to_word(a);
                y = self.constant(Constant::Field(b));
                Opcode::StoreField
            },
            IrOp::StoreFieldIndex(a, b, c) => {
                x = to_word(a);
                y = self.constant(Constant::Field(b));
                z = self.constant(Constant::Type(c));
                Opcode::StoreFieldIndex
            },
            IrOp::StoreTableField(a, b, c) => {
                x = to_word(a);
                y = self.constant(Constant::String(b));
                z = self.constant(Constant::Type(c));
                Opcode::StoreTableField
            },
            IrOp::StoreCurrentField(a) => {
                x = self.constant(Constant::Field(a));
                Opcode::StoreCurrentField
            },
            IrOp::MakeArray(a, b) => {
                x = to_word(a);
                y = self.constant(Constant::Type(b));
                Opcode::MakeArray
            },
            IrOp::MakeTable(a, b) => {
                x = self.constant(Constant::Entries(a));
                y = self.constant(Constant::Type(b));
                Opcode::MakeTable
            },
            IrOp::MakeStruct(a) => {
                x = self.constant(Constant::Layout(a));
                Opcode::MakeStruct
            },
            IrOp::MakeTensor(a, b, c) => {
                x = self.constant(Constant::TensorInit(a));
                y = self.constant(Constant::Type(b));
                z = to_word(c);
                Opcode::MakeTensor
            },
            IrOp::Index => Opcode::Index,
            IrOp::TensorIndex(a, b) => {
                x = self.constant(Constant::Type(a));
                y = to_word(b);
                Opcode::TensorIndex
            },
            IrOp::TensorIndexF32(a) => {
                x = to_word(a);
                Opcode::TensorIndexF32
            },
            IrOp::TableIndex => Opcode::TableIndex,
            IrOp::TableKeys => Opcode::TableKeys,
            IrOp::TableKeysIndex => Opcode::TableKeysIndex,
            IrOp::TableRemove => Opcode::TableRemove,
            IrOp::Field(a) => {
                x = self.constant(Constant::Field(a));
                Opcode::Field
            },
            IrOp::TableField(a) => {
                x = self.constant(Constant::String(a));
                Opcode::TableField
            },
            IrOp::ModuleField(a) => {
                x = self.constant(Constant::String(a));
                Opcode::ModuleField
            },
            IrOp::Binary(a) => {
                x = self.constant(Constant::Binary(a));
                Opcode::Binary
            },
            IrOp::Unary(a, b) => {
                x = self.constant(Constant::Unary(a));
                y = self.constant(Constant::Type(b));
                Opcode::Unary
            },
            IrOp::Len => Opcode::Len,
            IrOp::ConcatString => Opcode::ConcatString,
            IrOp::Builtin1(a, b) => {
                x = self.constant(Constant::Builtin(a));
                y = self.constant(Constant::Type(b));
                Opcode::Builtin1
            },
            IrOp::Builtin2(a, b) => {
                x = self.constant(Constant::Builtin(a));
                y = self.constant(Constant::Type(b));
                Opcode::Builtin2
            },
            IrOp::CallExternal(a, b) => {
                x = self.constant(Constant::String(a));
                y = to_word(b);
                Opcode::CallExternal
            },
            IrOp::JumpIfFalse(a) => {
                x = target_word(a);
                Opcode::JumpIfFalse
            },
            IrOp::Jump(a) => {
                x = target_word(a);
                Opcode::Jump
            },
            IrOp::JumpIfFalseKeep(a) => {
                x = target_word(a);
                Opcode::JumpIfFalseKeep
            },
            IrOp::JumpIfTrueKeep(a) => {
                x = target_word(a);
                Opcode::JumpIfTrueKeep
            },
            IrOp::CallMethod(a, b) => {
                x = to_word(a);
                y = target_word(b);
                Opcode::CallMethod
            },
            IrOp::CallCurrentMethod(a) => {
                x = target_word(a);
                Opcode::CallCurrentMethod
            },
            IrOp::CallModule(a, b) => {
                x = to_word(a);
                y = self.constant(Constant::String(b));
                Opcode::CallModule
            },
            IrOp::Return => Opcode::Return,
            IrOp::Print => Opcode::Print,
            IrOp::Printf(a) => {
                x = to_word(a);
                Opcode::Printf
            },
            IrOp::Putc => Opcode::Putc,
            IrOp::Cast(a) => {
                x = self.constant(Constant::Type(a));
                Opcode::Cast
            },
            IrOp::TrackDestructor(a, b) => {
                x = to_word(a);
                y = target_word(b);
                Opcode::TrackDestructor
            },
            IrOp::UntrackDestructor(a) => {
                x = to_word(a);
                Opcode::UntrackDestructor
            },
            IrOp::PushFloat(a, b) => {
                x = self.constant(Constant::String(a));
                y = self.constant(Constant::Type(b));
                Opcode::PushFloat
            },
        };
        assert(views(self.constants@) =~= before + e.constants);
        self.words.push(opcode.to_word());
        self.words.push(x);
        self.words.push(y);
        self.words.push(z);
        assert(self.words@ =~= old(self).words@ + instruction_words(e));
    }

    /// The bytecode of a list of instructions.
    pub fn lower(ir: Vec<IrOp>) -> (r: Self)
        ensures
            r@ == lowered(views(ir@)),
    {
        let ghost all = ir@;
        let mut out = FlatBytecode { words: Vec::new(), constants: Vec::new() };
        assert(views(all.take(0)) =~= Seq::<OpView>::empty());
        assert(views(out.constants@) =~= Seq::<ConstantView>::empty());
        for op in it: ir
            invariant
                it.seq() == all,
                out.words@ == lowered(views(all.take(it.index() as int))).words,
                views(out.constants@) == lowered(views(all.take(it.index() as int))).constants,
        {
            proof {
                let k = it.index() as int;
                assert(all.take(k + 1).drop_last() =~= all.take(k));
                assert(all.take(k + 1).last() == op);
                assert(views(all.take(k + 1)).last() == op@);
                assert(views(all.take(k + 1)).drop_last() =~= views(all.take(k)));
                assert(out.constants@.len() == views(out.constants@).len());
            }
            out.emit(op);
        }
        assert(all.take(all.len() as int) =~= all);
        out
    }

    fn operand(&self, pc: usize, k: usize) -> (r: Result<usize, Error>)
        requires
            pc < self.words@.len(),
            k <= 3,
        ensures
            match r {
                Ok(n) => operand(self@, pc as int, k as int) == Ok::<usize, ErrorView>(n),
                Err(e) => operand(self@, pc as int, k as int) == Err::<usize, ErrorView>(e@),
            },
    {
        let rest: usize = self.words.len() - pc;
        if k < rest {
            Ok(self.words[pc + k] as usize)
        } else {
            Err(runtime_error("truncated bytecode operand"))
        }
    }

    fn constant_at(&self, pc: usize, k: usize) -> (r: Result<&Constant, Error>)
        requires
            pc < self.words@.len(),
            k <= 3,
        ensures
            match r {
                Ok(c) => constant_at(self@, pc as int, k as int) == Ok::<ConstantView, ErrorView>(
                    c@,
                ),
                Err(e) => constant_at(self@, pc as int, k as int) == Err::<ConstantView, ErrorView>(
                    e@,
                ),
            },
    {
        let i: usize = self.operand(pc, k)?;
        assert(self@.constants.len() == self.constants@.len());
        if i < self.constants.len() {
            assert(self@.constants[i as int] == self.constants@[i as int]@);
            Ok(&self.constants[i])
        } else {
            Err(runtime_error("invalid bytecode constant"))
        }
    }

    fn value_at(&self, pc: usize, k: usize) -> (r: Result<&Value, Error>)
        requires
            pc < self.words@.len(),
            k <= 3,
        ensures
            match r {
                Ok(x) => value_at(self@, pc as int, k as int) == Ok::<ValueView, ErrorView>(x@),
                Err(e) => value_at(self@, pc as int, k as int) == Err::<ValueView, ErrorView>(e@),
            },
    {
        match self.constant_at(pc, k)? {
            Constant::Value(x) => Ok(x),
            _ => Err(runtime_error("invalid bytecode constant kind")),
        }
    }

    fn string_at(&self, pc: usize, k: usize) -> (r: Result<&Rc<String>, Error>)
        requires
            pc < self.words@.len(),
            k <= 3,
        ensures
            match r {
                Ok(x) => string_at(self@, pc as int, k as int) == Ok::<Seq<char>, ErrorView>(x@),
                Err(e) => string_at(self@, pc as int, k as int) == Err::<Seq<char>, ErrorView>(e@),
            },
    {
        match self.constant_at(pc, k)? {
            Constant::String(x) => Ok(x),
            _ => Err(runtime_error("invalid bytecode constant kind")),
        }
    }

    fn type_at(&self, pc: usize, k: usize) -> (r: Result<&Rc<Type>, Error>)
        requires
            pc < self.words@.len(),
            k <= 3,
        ensures
            match r {
                Ok(x) => type_at(self@, pc as int, k as int) == Ok::<TypeView, ErrorView>((**x)@),
                Err(e) => type_at(self@, pc as int, k as int) == Err::<TypeView, ErrorView>(e@),
            },
    {
        match self.constant_at(pc, k)? {
            Constant::Type(x) => Ok(x),
            _ => Err(runtime_error("invalid bytecode constant kind")),
        }
    }

    fn module_at(&self, pc: usize, k: usize) -> (r: Result<&Rc<ModuleArtifact>, Error>)
        requires
            pc < self.words@.len(),
            k <= 3,
        ensures
            match r {
                Ok(x) => module_at(
                    self@,
                    pc as int,
                    k as int,
                ) == Ok::<Box<ArtifactView>, ErrorView>(Box::new((**x)@)),
                Err(e) => module_at(
                    self@,
                    pc as int,
                    k as int,
                ) == Err::<Box<ArtifactView>, ErrorView>(e@),
            },
    {
        match self.constant_at(pc, k)? {
            Constant::Module(x) => Ok(x),
            _ => Err(runtime_error("invalid bytecode constant kind")),
        }
    }

    fn field_at(&self, pc: usize, k: usize) -> (r: Result<&Rc<StructField>, Error>)
        requires
            pc < self.words@.len(),
            k <= 3,
        ensures
            match r {
                Ok(x) => field_at(self@, pc as int, k as int) == Ok::<FieldView, ErrorView>((**x)@),
                Err(e) => field_at(self@, pc as int, k as int) == Err::<FieldView, ErrorView>(e@),
            },
    {
        match self.constant_at(pc, k)? {
            Constant::Field(x) => Ok(x),
            _ => Err(runtime_error("invalid bytecode constant kind")),
        }
    }

    fn entries_at(&self, pc: usize, k: usize) -> (r: Result<&Rc<Vec<TableEntry>>, Error>)
        requires
            pc < self.words@.len(),
            k <= 3,
        ensures
            match r {
                Ok(x) => entries_at(self@, pc as int, k as int) == Ok::<Seq<EntryView>, ErrorView>(
                    views((**x)@),
                ),
                Err(e) => entries_at(
                    self@,
                    pc as int,
                    k as int,
                ) == Err::<Seq<EntryView>, ErrorView>(e@),
            },
    {
        match self.constant_at(pc, k)? {
            Constant::Entries(x) => Ok(x),
            _ => Err(runtime_error("invalid bytecode constant kind")),
        }
    }

    fn layout_at(&self, pc: usize, k: usize) -> (r: Result<&Rc<StructLayout>, Error>)
        requires
            pc < self.words@.len(),
            k <= 3,
        ensures
            match r {
                Ok(x) => layout_at(self@, pc as int, k as int) == Ok::<LayoutView, ErrorView>(
                    (**x)@,
                ),
                Err(e) => layout_at(self@, pc as int, k as int) == Err::<LayoutView, ErrorView>(e@),
            },
    {
        match self.constant_at(pc, k)? {
            Constant::Layout(x) => Ok(x),
            _ => Err(runtime_error("invalid bytecode constant kind")),
        }
    }

    fn binary_at(&self, pc: usize, k: usize) -> (r: Result<BinaryOp, Error>)
        requires
            pc < self.words@.len(),
            k <= 3,
        ensures
            match r {
                Ok(x) => binary_at(self@, pc as int, k as int) == Ok::<BinaryOp, ErrorView>(x),
                Err(e) => binary_at(self@, pc as int, k as int) == Err::<BinaryOp, ErrorView>(e@),
            },
    {
        match self.constant_at(pc, k)? {
            Constant::Binary(x) => Ok(*x),
            _ => Err(runtime_error("invalid bytecode constant kind")),
        }
    }

    fn unary_at(&self, pc: usize, k: usize) -> (r: Result<UnOp, Error>)
        requires
            pc < self.words@.len(),
            k <= 3,
        ensures
            match r {
                Ok(x) => unary_at(self@, pc as int, k as int) == Ok::<UnOp, ErrorView>(x),
                Err(e) => unary_at(self@, pc as int, k as int) == Err::<UnOp, ErrorView>(e@),
            },
    {
        match self.constant_at(pc, k)? {
            Constant::Unary(x) => Ok(*x),
            _ => Err(runtime_error("invalid bytecode constant kind")),
        }
    }

    fn builtin_at(&self, pc: usize, k: usize) -> (r: Result<BuiltinFn, Error>)
        requires
            pc < self.words@.len(),
            k <= 3,
        ensures
            match r {
                Ok(x) => builtin_at(self@, pc as int, k as int) == Ok::<BuiltinFn, ErrorView>(x),
                Err(e) => builtin_at(self@, pc as int, k as int) == Err::<BuiltinFn, ErrorView>(e@),
            },
    {
        match self.constant_at(pc, k)? {
            Constant::Builtin(x) => Ok(*x),
            _ => Err(runtime_error("invalid bytecode constant kind")),
        }
    }

    fn init_at(&self, pc: usize, k: usize) -> (r: Result<TensorInit, Error>)
        requires
            pc < self.words@.len(),
            k <= 3,
        ensures
            match r {
                Ok(x) => init_at(self@, pc as int, k as int) == Ok::<TensorInit, ErrorView>(x),
                Err(e) => init_at(self@, pc as int, k as int) == Err::<TensorInit, ErrorView>(e@),
            },
    {
        match self.constant_at(pc, k)? {
            Constant::TensorInit(x) => Ok(*x),
            _ => Err(runtime_error("invalid bytecode constant kind")),
        }
    }

    /// Reads the instruction at `pc`, and gives the position after it.
    pub fn decode(&self, pc: usize) -> (r: Result<(DecodedOp<'_>, usize), Error>)
        ensures
            match r {
                Ok((op, next)) => decoded_op(self@, pc as int) == Ok::<OpView, ErrorView>(op@)
                    && next == pc.wrapping_add(4),
                Err(e) => decoded_op(self@, pc as int) == Err::<OpView, ErrorView>(e@),
            },
    {
        reveal(decoded_op);
        if pc >= self.words.len() {
            return Err(runtime_error("truncated bytecode"));
        }
        let opcode = Opcode::from_word(self.words[pc])?;
        let op: DecodedOp<'_> = match opcode {
            Opcode::AddI32 => DecodedOp::AddI32,
            Opcode::AddF32 => DecodedOp::AddF32,
            Opcode::AddF64 => DecodedOp::AddF64,
            Opcode::Push => {
                let a = self.value_at(pc, 1)?;
                DecodedOp::Push(a)
            },
            Opcode::MakeString => {
                let a = self.string_at(pc, 1)?;
                DecodedOp::MakeString(a)
            },
            Opcode::Input => {
                let a = self.type_at(pc, 1)?;
                DecodedOp::Input(a)
            },
            Opcode::Require => {
                let a = self.module_at(pc, 1)?;
                DecodedOp::Require(a)
            },
            Opcode::Load => {
                let a: usize = self.operand(pc, 1)?;
                DecodedOp::Load(a)
            },
            Opcode::LoadCurrentReceiver => DecodedOp::LoadCurrentReceiver,
            Opcode::LoadCurrentField => {
                let a = self.field_at(pc, 1)?;
                DecodedOp::LoadCurrentField(a)
            },
            Opcode::Store => {
                let a: usize = self.operand(pc, 1)?;
                DecodedOp::Store(a)
            },
            Opcode::StoreIndex => {
                let a: usize = self.operand(pc, 1)?;
                let b = self.type_at(pc, 2)?;
                DecodedOp::StoreIndex(a, b)
            },
            Opcode::StoreTableIndex => {
                let a: usize = self.operand(pc, 1)?;
                let b = self.type_at(pc, 2)?;
                DecodedOp::StoreTableIndex(a, b)
            },
            Opcode::StoreTensorIndex => {
                let a: usize = self.operand(pc, 1)?;
                let b = self.type_at(pc, 2)?;
                let c: usize = self.operand(pc, 3)?;
                DecodedOp::StoreTensorIndex(a, b, c)
            },
            Opcode::StoreTensorIndexF32 => {
                let a: usize = self.operand(pc, 1)?;
                let b: usize = self.operand(pc, 2)?;
                DecodedOp::StoreTensorIndexF32(a, b)
            },
            Opcode::StoreField => {
                let a: usize = self.operand(pc, 1)?;
                let b = self.field_at(pc, 2)?;
                DecodedOp::StoreField(a, b)
            },
            Opcode::StoreFieldIndex => {
                let a: usize = self.operand(pc, 1)?;
                let b = self.field_at(pc, 2)?;
                let c = self.type_at(pc, 3)?;
                DecodedOp::StoreFieldIndex(a, b, c)
            },
            Opcode::StoreTableField => {
                let a: usize = self.operand(pc, 1)?;
                let b = self.string_at(pc, 2)?;
                let c = self.type_at(pc, 3)?;
                DecodedOp::StoreTableField(a, b, c)
            },
            Opcode::StoreCurrentField => {
                let a = self.field_at(pc, 1)?;
                DecodedOp::StoreCurrentField(a)
            },
            Opcode::MakeArray => {
                let a: usize = self.operand(pc, 1)?;
                let b = self.type_at(pc, 2)?;
                DecodedOp::MakeArray(a, b)
            },
            Opcode::MakeTable => {
                let a = self.entries_at(pc, 1)?;
                let b = self.type_at(pc, 2)?;
                DecodedOp::MakeTable(a, b)
            },
            Opcode::MakeStruct => {
                let a = self.layout_at(pc, 1)?;
                DecodedOp::MakeStruct(a)
            },
            Opcode::MakeTensor => {
                let a = self.init_at(pc, 1)?;
                let b = self.type_at(pc, 2)?;
                let c: usize = self.operand(pc, 3)?;
                DecodedOp::MakeTensor(a, b, c)
            },
            Opcode::Index => DecodedOp::Index,
            Opcode::TensorIndex => {
                let a = self.type_at(pc, 1)?;
                let b: usize = self.operand(pc, 2)?;
                DecodedOp::TensorIndex(a, b)
            },
            Opcode::TensorIndexF32 => {
                let a: usize = self.operand(pc, 1)?;
                DecodedOp::TensorIndexF32(a)
            },
            Opcode::TableIndex => DecodedOp::TableIndex,
            Opcode::TableKeys => DecodedOp::TableKeys,
            Opcode::TableKeysIndex => DecodedOp::TableKeysIndex,
            Opcode::TableRemove => DecodedOp::TableRemove,
            Opcode::Field => {
                let a = self.field_at(pc, 1)?;
                DecodedOp::Field(a)
            },
            Opcode::TableField => {
                let a = self.string_at(pc, 1)?;
                DecodedOp::TableField(a)
            },
            Opcode::ModuleField => {
                let a = self.string_at(pc, 1)?;
                DecodedOp::ModuleField(a)
            },
            Opcode::Binary => {
                let a = self.binary_at(pc, 1)?;
                DecodedOp::Binary(a)
            },
            Opcode::Unary => {
                let a = self.unary_at(pc, 1)?;
                let b = self.type_at(pc, 2)?;
                DecodedOp::Unary(a, b)
            },
            Opcode::Len => DecodedOp::Len,
            Opcode::ConcatString => DecodedOp::ConcatString,
            Opcode::Builtin1 => {
                let a = self.builtin_at(pc, 1)?;
                let b = self.type_at(pc, 2)?;
                DecodedOp::Builtin1(a, b)
            },
            Opcode::Builtin2 => {
                let a = self.builtin_at(pc, 1)?;
                let b = self.type_at(pc, 2)?;
                DecodedOp::Builtin2(a, b)
            },
            Opcode::CallExternal => {
                let a = self.string_at(pc, 1)?;
                let b: usize = self.operand(pc, 2)?;
                DecodedOp::CallExternal(a, b)
            },
            Opcode::JumpIfFalse => {
                let a: usize = self.operand(pc, 1)?;
                DecodedOp::JumpIfFalse(a)
            },
            Opcode::Jump => {
                let a: usize = self.operand(pc, 1)?;
                DecodedOp::Jump(a)
            },
            Opcode::JumpIfFalseKeep => {
                let a: usize = self.operand(pc, 1)?;
                DecodedOp::JumpIfFalseKeep(a)
            },
            Opcode::JumpIfTrueKeep => {
                let a: usize = self.operand(pc, 1)?;
                DecodedOp::JumpIfTrueKeep(a)
            },
            Opcode::CallMethod => {
                let a: usize = self.operand(pc, 1)?;
                let b: usize = self.operand(pc, 2)?;
                DecodedOp::CallMethod(a, b)
            },
            Opcode::CallCurrentMethod => {
                let a: usize = self.operand(pc, 1)?;
                DecodedOp::CallCurrentMethod(a)
            },
            Opcode::CallModule => {
                let a: usize = self.operand(pc, 1)?;
                let b = self.string_at(pc, 2)?;
                DecodedOp::CallModule(a, b)
            },
            Opcode::Return => DecodedOp::Return,
            Opcode::Print => DecodedOp::Print,
            Opcode::Printf => {
                let a: usize = self.operand(pc, 1)?;
                DecodedOp::Printf(a)
            },
            Opcode::Putc => DecodedOp::Putc,
            Opcode::Cast => {
                let a = self.type_at(pc, 1)?;
                DecodedOp::Cast(a)
            },
            Opcode::TrackDestructor => {
                let a: usize = self.operand(pc, 1)?;
                let b: usize = self.operand(pc, 2)?;
                DecodedOp::TrackDestructor(a, b)
            },
            Opcode::UntrackDestructor => {
                let a: usize = self.operand(pc, 1)?;
                DecodedOp::UntrackDestructor(a)
            },
            Opcode::PushFloat => {
                let a = self.string_at(pc, 1)?;
                let b = self.type_at(pc, 2)?;
                DecodedOp::PushFloat(a, b)
            },
        };
        Ok((op, pc.wrapping_add(4)))
    }
}

/// The instruction as it is decoded: its jump targets count words.
pub open spec fn in_words(op: OpView) -> OpView {
    match op {
        OpView::JumpIfFalse(a) => OpView::JumpIfFalse((a * 4) as usize),
        OpView::Jump(a) => OpView::Jump((a * 4) as usize),
        OpView::JumpIfFalseKeep(a) => OpView::JumpIfFalseKeep((a * 4) as usize),
        OpView::JumpIfTrueKeep(a) => OpView::JumpIfTrueKeep((a * 4) as usize),
        OpView::CallMethod(a, b) => OpView::CallMethod(a, (b * 4) as usize),
        OpView::CallCurrentMethod(a) => OpView::CallCurrentMethod((a * 4) as usize),
        OpView::TrackDestructor(a, b) => OpView::TrackDestructor(a, (b * 4) as usize),
        _ => op,
    }
}

/// Whether the numbers in an instruction fit in words.
pub open spec fn fits_words(op: OpView) -> bool {
    match op {
        OpView::Load(a) => a <= u32::MAX,
        OpView::Store(a) => a <= u32::MAX,
        OpView::StoreIndex(a, b) => a <= u32::MAX,
        OpView::StoreTableIndex(a, b) => a <= u32::MAX,
        OpView::StoreTensorIndex(a, b, c) => a <= u32::MAX && c <= u32::MAX,
        OpView::StoreTensorIndexF32(a, b) => a <= u32::MAX && b <= u32::MAX,
        OpView::StoreField(a, b) => a <= u32::MAX,
        OpView::StoreFieldIndex(a, b, c) => a <= u32::MAX,
        OpView::StoreTableField(a, b, c) => a <= u32::MAX,
        OpView::MakeArray(a, b) => a <= u32::MAX,
        OpView::MakeTensor(a, b, c) => c <= u32::MAX,
        OpView::TensorIndex(a, b) => b <= u32::MAX,
        OpView::TensorIndexF32(a) => a <= u32::MAX,
        OpView::CallExternal(a, b) => b <= u32::MAX,
        OpView::JumpIfFalse(a) => a * 4 <= u32::MAX,
        OpView::Jump(a) => a * 4 <= u32::MAX,
        OpView::JumpIfFalseKeep(a) => a * 4 <= u32::MAX,
        OpView::JumpIfTrueKeep(a) => a * 4 <= u32::MAX,
        OpView::CallMethod(a, b) => a <= u32::MAX && b * 4 <= u32::MAX,
        OpView::CallCurrentMethod(a) => a * 4 <= u32::MAX,
        OpView::CallModule(a, b) => a <= u32::MAX,
        OpView::Printf(a) => a <= u32::MAX,
        OpView::TrackDestructor(a, b) => a <= u32::MAX && b * 4 <= u32::MAX,
        OpView::UntrackDestructor(a) => a <= u32::MAX,
        _ => true,
    }
}

proof fn lemma_lowered_len(ir: Seq<OpView>)
    ensures
        lowered(ir).words.len() == 4 * ir.len(),
    decreases ir.len(),
{
    if ir.len() > 0 {
        lemma_lowered_len(ir.drop_last());
    }
}

proof fn lemma_lowered_prefix(ir: Seq<OpView>, n: int)
    requires
        0 <= n <= ir.len(),
    ensures
        lowered(ir.take(n)).words == lowered(ir).words.take(4 * n),
        lowered(ir.take(n)).constants.len() <= lowered(ir).constants.len(),
        lowered(ir.take(n)).constants == lowered(ir).constants.take(
            lowered(ir.take(n)).constants.len() as int,
        ),
    decreases ir.len() - n,
{
    lemma_lowered_len(ir);
    lemma_lowered_len(ir.take(n));
    if n == ir.len() {
        assert(ir.take(n) =~= ir);
        assert(lowered(ir).words.take(4 * n) =~= lowered(ir).words);
        assert(lowered(ir).constants.take(lowered(ir).constants.len() as int) =~= lowered(
            ir,
        ).constants);
    } else {
        lemma_lowered_prefix(ir, n + 1);
        lemma_lowered_len(ir.take(n + 1));
        assert(ir.take(n + 1).drop_last() =~= ir.take(n));
        assert(lowered(ir.take(n)).words =~= lowered(ir).words.take(4 * n));
        assert(lowered(ir.take(n)).constants =~= lowered(ir).constants.take(
            lowered(ir.take(n)).constants.len() as int,
        ));
    }
}

/// Lowered code is whole instructions of four words each.
pub proof fn instructions_are_four_words(ir: Seq<OpView>)
    ensures
        lowered(ir).words.len() == 4 * ir.len(),
        lowered(ir).words.len() % 4 == 0,
{
    lemma_lowered_len(ir);
}

/// Decoding lowered code gives the instructions back, with jump targets
/// counted in words.
pub proof fn lowered_code_decodes(ir: Seq<OpView>, i: int)
    requires
        0 <= i < ir.len(),
        fits_words(ir[i]),
        lowered(ir).constants.len() <= u32::MAX,
    ensures
        same(decoded_op(lowered(ir), 4 * i), Ok::<OpView, ErrorView>(in_words(ir[i]))),
{
    let code = lowered(ir);
    let op = ir[i];
    let before = lowered(ir.take(i));
    let n = before.constants.len() as int;
    let e = encoding(op, n);
    lemma_lowered_len(ir);
    lemma_lowered_len(ir.take(i));
    lemma_lowered_prefix(ir, i + 1);
    lemma_lowered_len(ir.take(i + 1));
    assert(ir.take(i + 1).drop_last() =~= ir.take(i));
    assert(ir.take(i + 1).last() == op);
    let upto = lowered(ir.take(i + 1));
    assert forall|k: int| 0 <= k < 4 implies code.words[4 * i + k] == #[trigger] instruction_words(
        e,
    )[k] by {
        assert(upto.words[4 * i + k] == instruction_words(e)[k]);
    }
    assert(code.words[4 * i] == instruction_words(e)[0]);
    assert(code.words[4 * i + 1] == instruction_words(e)[1]);
    assert(code.words[4 * i + 2] == instruction_words(e)[2]);
    assert(code.words[4 * i + 3] == instruction_words(e)[3]);
    assert forall|k: int| 0 <= k < e.constants.len() implies code.constants[n + k]
        == #[trigger] e.constants[k] by {
        assert(upto.constants[n + k] == e.constants[k]);
    }
    opcodes_round_trip(e.opcode);
    lemma_decodes(code, op, 4 * i, n);
}

/// An instruction whose words and constants stand in the code is decoded.
proof fn lemma_decodes(code: CodeView, op: OpView, pc: int, n: int)
    requires
        fits_words(op),
        0 <= pc,
        pc + 4 <= code.words.len(),
        0 <= n,
        n + encoding(op, n).constants.len() <= code.constants.len() <= u32::MAX,
        opcode_of(code.words[pc]) == Some(encoding(op, n).opcode),
        code.words[pc + 1] == padded(encoding(op, n).operands, 0),
        code.words[pc + 2] == padded(encoding(op, n).operands, 1),
        code.words[pc + 3] == padded(encoding(op, n).operands, 2),
        forall|k: int|
            0 <= k < encoding(op, n).constants.len() ==> code.constants[n + k] == #[trigger] encoding(
                op,
                n,
            ).constants[k],
    ensures
        same(decoded_op(code, pc), Ok::<OpView, ErrorView>(in_words(op))),
{
    reveal(encoding);
    reveal(decoded_op);
    let cs = encoding(op, n).constants;
    assert(cs.len() > 0 ==> code.constants[n] == cs[0]) by {
        if cs.len() > 0 {
            assert(code.constants[n + 0] == cs[0]);
        }
    }
    assert(cs.len() > 1 ==> code.constants[n + 1] == cs[1]);
    match op {
        OpView::JumpIfFalse(t) | OpView::Jump(t) | OpView::JumpIfFalseKeep(t)
        | OpView::JumpIfTrueKeep(t) | OpView::CallMethod(_, t) | OpView::CallCurrentMethod(t)
        | OpView::TrackDestructor(_, t) => lemma_word_target(t),
        _ => {},
    }
}

proof fn lemma_word_target(t: usize)
    requires
        t * 4 <= u32::MAX,
    ensures
        word_target(t) == t * 4,
{
    vstd::arithmetic::div_mod::lemma_small_mod((t * 4) as nat, (usize::MAX + 1) as nat);
}

} // verus!
