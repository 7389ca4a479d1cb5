//! Run-time values, table keys and struct layouts.
use vstd::prelude::*;
use vstd::std_specs::cmp::PartialEqSpecImpl;
use std::rc::Rc;
use crate::text::{cat2, cat3, cat4, decimal, decimal_text, usize_text};
use crate::types::{
    Error, ErrorView, Type, TypeView, in_int_bounds, integer_type, is_integer, runtime_error,
    type_text,
};
use crate::views::{Duplicate, Key, duplicate_all, group_views, views};

verus! {

broadcast use group_views;

/// The index of a heap slot.
#[derive(Clone, Copy, Debug, PartialEq, Eq, Hash, Structural)]
pub struct HeapRef(pub usize);

/// A key of a table: an integer or a name, which tables and code share.
#[derive(Debug, PartialEq, Eq, Hash)]
pub enum TableKey {
    Index(i128),
    Name(Rc<String>),
}

/// The mathematical model of a [`TableKey`].
pub enum TableKeyView {
    Index(i128),
    Name(Seq<char>),
}

impl View for TableKey {
    type V = TableKeyView;

    open spec fn view(&self) -> TableKeyView {
        match *self {
            TableKey::Index(index) => TableKeyView::Index(index),
            TableKey::Name(name) => TableKeyView::Name(name@),
        }
    }
}

impl Clone for TableKey {
    fn clone(&self) -> (r: Self)
        ensures
            r == *self,
    {
        match self {
            TableKey::Index(index) => TableKey::Index(*index),
            TableKey::Name(name) => TableKey::Name(name.clone()),
        }
    }
}

impl Key for TableKey {
    fn same_key(&self, other: &Self) -> (r: bool) {
        match (self, other) {
            (TableKey::Index(a), TableKey::Index(b)) => *a == *b,
            (TableKey::Name(a), TableKey::Name(b)) => **a == **b,
            _ => false,
        }
    }

    fn copy_key(&self) -> (r: Self) {
        self.clone()
    }
}

impl Duplicate for TableKey {
    fn duplicate(&self) -> (r: Self) {
        self.clone()
    }
}

/// How a table key is written.
pub open spec fn key_text(key: TableKeyView) -> Seq<char> {
    match key {
        TableKeyView::Index(index) => "["@ + decimal(index as int) + "]"@,
        TableKeyView::Name(name) => name,
    }
}

pub fn table_key_display(key: &TableKey) -> (r: String)
    ensures
        r@ == key_text(key@),
{
    match key {
        TableKey::Index(index) => cat3("[", decimal_text(*index).as_str(), "]"),
        TableKey::Name(name) => (**name).clone(),
    }
}

/// A field of a struct: its name, its type and its place among the values.
#[derive(Debug, PartialEq, Eq)]
pub struct StructField {
    pub name: String,
    pub ty: Type,
    pub index: usize,
}

/// The mathematical model of a [`StructField`].
pub struct FieldView {
    pub name: Seq<char>,
    pub ty: TypeView,
    pub index: usize,
}

impl View for StructField {
    type V = FieldView;

    open spec fn view(&self) -> FieldView {
        FieldView { name: self.name@, ty: self.ty@, index: self.index }
    }
}

impl Clone for StructField {
    fn clone(&self) -> (r: Self)
        ensures
            r == *self,
    {
        StructField { name: self.name.clone(), ty: self.ty.clone(), index: self.index }
    }
}

impl Duplicate for StructField {
    fn duplicate(&self) -> (r: Self) {
        self.clone()
    }
}

impl StructField {
    pub fn same(&self, other: &StructField) -> (r: bool)
        ensures
            r == (self@ == other@),
    {
        self.name == other.name && self.index == other.index && self.ty.same(&other.ty)
    }
}

/// A struct's name and fields.
#[derive(Debug, PartialEq, Eq)]
pub struct StructLayout {
    pub name: String,
    pub fields: Vec<StructField>,
}

/// The mathematical model of a [`StructLayout`].
pub struct LayoutView {
    pub name: Seq<char>,
    pub fields: Seq<FieldView>,
}

impl View for StructLayout {
    type V = LayoutView;

    open spec fn view(&self) -> LayoutView {
        LayoutView { name: self.name@, fields: views(self.fields@) }
    }
}

impl Clone for StructLayout {
    fn clone(&self) -> (r: Self)
        ensures
            r@ == self@,
    {
        StructLayout { name: self.name.clone(), fields: crate::views::duplicate_all(&self.fields) }
    }
}

impl Duplicate for StructLayout {
    fn duplicate(&self) -> (r: Self) {
        self.clone()
    }
}

impl StructLayout {
    pub fn same(&self, other: &StructLayout) -> (r: bool)
        ensures
            r == (self@ == other@),
    {
        assert(self@.fields.len() == self.fields@.len());
        assert(other@.fields.len() == other.fields@.len());
        if !(self.name == other.name) || self.fields.len() != other.fields.len() {
            return false;
        }
        let mut i: usize = 0;
        while i < self.fields.len()
            invariant
                i <= self.fields@.len() == other.fields@.len(),
                forall|j: int| 0 <= j < i ==> #[trigger] self.fields@[j]@ == other.fields@[j]@,
            decreases self.fields@.len() - i,
        {
            if !self.fields[i].same(&other.fields[i]) {
                assert(views(self.fields@)[i as int] != views(other.fields@)[i as int]);
                return false;
            }
            i += 1;
        }
        assert(views(self.fields@) =~= views(other.fields@));
        true
    }
}

/// A value of the machine. A float is held by its bit pattern.
#[derive(Debug)]
pub enum Value {
    I8(i8),
    I16(i16),
    I32(i32),
    I64(i64),
    U8(u8),
    U16(u16),
    U32(u32),
    U64(u64),
    F16(u16),
    BF16(u16),
    F32(u32),
    F64(u64),
    Bool(bool),
    String(HeapRef),
    Array(HeapRef, Box<Type>),
    Tensor(HeapRef, Rc<Type>),
    Table(HeapRef, Box<Type>),
    TableKey(Rc<TableKey>),
    TableKeys(HeapRef),
    Struct(HeapRef, Rc<StructLayout>),
    Module(String),
}

/// The mathematical model of a [`Value`].
pub enum ValueView {
    I8(i8),
    I16(i16),
    I32(i32),
    I64(i64),
    U8(u8),
    U16(u16),
    U32(u32),
    U64(u64),
    F16(u16),
    BF16(u16),
    F32(u32),
    F64(u64),
    Bool(bool),
    String(HeapRef),
    Array(HeapRef, TypeView),
    Tensor(HeapRef, TypeView),
    Table(HeapRef, TypeView),
    TableKey(TableKeyView),
    TableKeys(HeapRef),
    Struct(HeapRef, LayoutView),
    Module(Seq<char>),
}

impl View for Value {
    type V = ValueView;

    open spec fn view(&self) -> ValueView {
        match *self {
            Value::I8(v) => ValueView::I8(v),
            Value::I16(v) => ValueView::I16(v),
            Value::I32(v) => ValueView::I32(v),
            Value::I64(v) => ValueView::I64(v),
            Value::U8(v) => ValueView::U8(v),
            Value::U16(v) => ValueView::U16(v),
            Value::U32(v) => ValueView::U32(v),
            Value::U64(v) => ValueView::U64(v),
            Value::F16(v) => ValueView::F16(v),
            Value::BF16(v) => ValueView::BF16(v),
            Value::F32(v) => ValueView::F32(v),
            Value::F64(v) => ValueView::F64(v),
            Value::Bool(v) => ValueView::Bool(v),
            Value::String(r) => ValueView::String(r),
            Value::Array(r, t) => ValueView::Array(r, (*t)@),
            Value::Tensor(r, t) => ValueView::Tensor(r, (*t)@),
            Value::Table(r, t) => ValueView::Table(r, (*t)@),
            Value::TableKey(k) => ValueView::TableKey((*k)@),
            Value::TableKeys(r) => ValueView::TableKeys(r),
            Value::Struct(r, l) => ValueView::Struct(r, (*l)@),
            Value::Module(id) => ValueView::Module(id@),
        }
    }
}

impl Clone for Value {
    fn clone(&self) -> (r: Self)
        ensures
            r == *self,
    {
        match self {
            Value::I8(v) => Value::I8(*v),
            Value::I16(v) => Value::I16(*v),
            Value::I32(v) => Value::I32(*v),
            Value::I64(v) => Value::I64(*v),
            Value::U8(v) => Value::U8(*v),
            Value::U16(v) => Value::U16(*v),
            Value::U32(v) => Value::U32(*v),
            Value::U64(v) => Value::U64(*v),
            Value::F16(v) => Value::F16(*v),
            Value::BF16(v) => Value::BF16(*v),
            Value::F32(v) => Value::F32(*v),
            Value::F64(v) => Value::F64(*v),
            Value::Bool(v) => Value::Bool(*v),
            Value::String(r) => Value::String(*r),
            Value::Array(r, t) => Value::Array(*r, Box::new((**t).clone())),
            Value::Tensor(r, t) => Value::Tensor(*r, t.clone()),
            Value::Table(r, t) => Value::Table(*r, Box::new((**t).clone())),
            Value::TableKey(k) => Value::TableKey(k.clone()),
            Value::TableKeys(r) => Value::TableKeys(*r),
            Value::Struct(r, l) => Value::Struct(*r, l.clone()),
            Value::Module(id) => Value::Module(id.clone()),
        }
    }
}

/// Whether two floats of 32 bits are equal: the two zeros are, and what is no number
/// equals nothing.
pub open spec fn equal_singles(a: u32, b: u32) -> bool {
    let (x, y) = (a % 0x8000_0000, b % 0x8000_0000);
    x <= 0x7f80_0000 && y <= 0x7f80_0000 && (a == b || x == 0 && y == 0)
}

/// Whether two floats of 64 bits are equal.
pub open spec fn equal_doubles(a: u64, b: u64) -> bool {
    let (x, y) = (a % 0x8000_0000_0000_0000, b % 0x8000_0000_0000_0000);
    x <= 0x7ff0_0000_0000_0000 && y <= 0x7ff0_0000_0000_0000 && (a == b || x == 0 && y == 0)
}

/// Two values are equal where they are the same; floats of 32 and of 64 bits where
/// the numbers are.
impl PartialEq for Value {
    fn eq(&self, other: &Self) -> (r: bool) {
        match (self, other) {
            (Value::F32(a), Value::F32(b)) => {
                let (x, y): (u32, u32) = (*a % 0x8000_0000, *b % 0x8000_0000);
                x <= 0x7f80_0000 && y <= 0x7f80_0000 && (*a == *b || x == 0 && y == 0)
            },
            (Value::F64(a), Value::F64(b)) => {
                let (x, y): (u64, u64) = (
                    *a % 0x8000_0000_0000_0000,
                    *b % 0x8000_0000_0000_0000,
                );
                x <= 0x7ff0_0000_0000_0000 && y <= 0x7ff0_0000_0000_0000 && (*a == *b || x == 0 && y
                    == 0)
            },
            _ => self.same(other),
        }
    }
}

impl PartialEqSpecImpl for Value {
    open spec fn obeys_eq_spec() -> bool {
        true
    }

    open spec fn eq_spec(&self, other: &Self) -> bool {
        match (self@, other@) {
            (ValueView::F32(a), ValueView::F32(b)) => equal_singles(a, b),
            (ValueView::F64(a), ValueView::F64(b)) => equal_doubles(a, b),
            _ => self@ == other@,
        }
    }
}

impl Duplicate for Value {
    fn duplicate(&self) -> (r: Self) {
        self.clone()
    }
}

/// The type of a value.
pub open spec fn type_of(v: ValueView) -> TypeView {
    match v {
        ValueView::I8(_) => TypeView::I8,
        ValueView::I16(_) => TypeView::I16,
        ValueView::I32(_) => TypeView::I32,
        ValueView::I64(_) => TypeView::I64,
        ValueView::U8(_) => TypeView::U8,
        ValueView::U16(_) => TypeView::U16,
        ValueView::U32(_) => TypeView::U32,
        ValueView::U64(_) => TypeView::U64,
        ValueView::F16(_) => TypeView::F16,
        ValueView::BF16(_) => TypeView::BF16,
        ValueView::F32(_) => TypeView::F32,
        ValueView::F64(_) => TypeView::F64,
        ValueView::Bool(_) => TypeView::Bool,
        ValueView::String(_) => TypeView::String,
        ValueView::Array(_, element) => TypeView::Array(Box::new(element)),
        ValueView::Tensor(_, ty) => ty,
        ValueView::Table(_, element) => TypeView::Table(Box::new(element)),
        ValueView::TableKey(_) => TypeView::TableKey,
        ValueView::TableKeys(_) => TypeView::TableKeys,
        ValueView::Struct(_, layout) => TypeView::Struct(layout.name),
        ValueView::Module(id) => TypeView::Module(id),
    }
}

/// The number that an integer value holds.
pub open spec fn int_of(v: ValueView) -> Option<int> {
    match v {
        ValueView::I8(n) => Some(n as int),
        ValueView::I16(n) => Some(n as int),
        ValueView::I32(n) => Some(n as int),
        ValueView::I64(n) => Some(n as int),
        ValueView::U8(n) => Some(n as int),
        ValueView::U16(n) => Some(n as int),
        ValueView::U32(n) => Some(n as int),
        ValueView::U64(n) => Some(n as int),
        _ => None,
    }
}

/// The value of an integer type that holds the number `n`.
pub open spec fn int_in(t: TypeView, n: int) -> ValueView
    recommends
        integer_type(t),
        in_int_bounds(t, n),
{
    match t {
        TypeView::I8 => ValueView::I8(n as i8),
        TypeView::I16 => ValueView::I16(n as i16),
        TypeView::I32 => ValueView::I32(n as i32),
        TypeView::I64 => ValueView::I64(n as i64),
        TypeView::U8 => ValueView::U8(n as u8),
        TypeView::U16 => ValueView::U16(n as u16),
        TypeView::U32 => ValueView::U32(n as u32),
        _ => ValueView::U64(n as u64),
    }
}

/// An integer value holds exactly the number it was made of, in its type.
pub proof fn integer_values_hold_their_number(t: TypeView, n: int)
    requires
        integer_type(t),
        in_int_bounds(t, n),
    ensures
        int_of(int_in(t, n)) == Some(n),
        type_of(int_in(t, n)) == t,
{
}

impl Value {
    pub fn ty(&self) -> (r: Type)
        ensures
            r@ == type_of(self@),
    {
        match self {
            Value::I8(_) => Type::I8,
            Value::I16(_) => Type::I16,
            Value::I32(_) => Type::I32,
            Value::I64(_) => Type::I64,
            Value::U8(_) => Type::U8,
            Value::U16(_) => Type::U16,
            Value::U32(_) => Type::U32,
            Value::U64(_) => Type::U64,
            Value::F16(_) => Type::F16,
            Value::BF16(_) => Type::BF16,
            Value::F32(_) => Type::F32,
            Value::F64(_) => Type::F64,
            Value::Bool(_) => Type::Bool,
            Value::String(_) => Type::String,
            Value::Array(_, element) => Type::Array(Box::new((**element).clone())),
            Value::Tensor(_, ty) => (**ty).clone(),
            Value::Table(_, element) => Type::Table(Box::new((**element).clone())),
            Value::TableKey(_) => Type::TableKey,
            Value::TableKeys(_) => Type::TableKeys,
            Value::Struct(_, layout) => Type::Struct(layout.name.clone()),
            Value::Module(id) => Type::Module(id.clone()),
        }
    }

    /// The number that an integer value holds.
    pub fn as_integer(&self) -> (r: Option<i128>)
        ensures
            match r {
                Some(n) => int_of(self@) == Some(n as int) && in_int_bounds(type_of(self@), n as int),
                None => int_of(self@) is None,
            },
    {
        match self {
            Value::I8(n) => Some(*n as i128),
            Value::I16(n) => Some(*n as i128),
            Value::I32(n) => Some(*n as i128),
            Value::I64(n) => Some(*n as i128),
            Value::U8(n) => Some(*n as i128),
            Value::U16(n) => Some(*n as i128),
            Value::U32(n) => Some(*n as i128),
            Value::U64(n) => Some(*n as i128),
            _ => None,
        }
    }

    /// Whether two values have the same type and the same contents; heap
    /// values are the same when they are the same slot.
    pub fn same(&self, other: &Value) -> (r: bool)
        ensures
            r == (self@ == other@),
    {
        match (self, other) {
            (Value::I8(a), Value::I8(b)) => *a == *b,
            (Value::I16(a), Value::I16(b)) => *a == *b,
            (Value::I32(a), Value::I32(b)) => *a == *b,
            (Value::I64(a), Value::I64(b)) => *a == *b,
            (Value::U8(a), Value::U8(b)) => *a == *b,
            (Value::U16(a), Value::U16(b)) => *a == *b,
            (Value::U32(a), Value::U32(b)) => *a == *b,
            (Value::U64(a), Value::U64(b)) => *a == *b,
            (Value::F16(a), Value::F16(b)) => *a == *b,
            (Value::BF16(a), Value::BF16(b)) => *a == *b,
            (Value::F32(a), Value::F32(b)) => *a == *b,
            (Value::F64(a), Value::F64(b)) => *a == *b,
            (Value::Bool(a), Value::Bool(b)) => *a == *b,
            (Value::String(a), Value::String(b)) => *a == *b,
            (Value::Array(a, s), Value::Array(b, t)) => *a == *b && s.same(t),
            (Value::Tensor(a, s), Value::Tensor(b, t)) => *a == *b && s.same(t),
            (Value::Table(a, s), Value::Table(b, t)) => *a == *b && s.same(t),
            (Value::TableKey(a), Value::TableKey(b)) => a.same_key(b),
            (Value::TableKeys(a), Value::TableKeys(b)) => *a == *b,
            (Value::Struct(a, s), Value::Struct(b, t)) => *a == *b && s.same(t),
            (Value::Module(a), Value::Module(b)) => *a == *b,
            _ => false,
        }
    }
}

/// Makes the value of an integer type that holds `n`.
pub fn make_integer(ty: &Type, n: i128) -> (r: Value)
    requires
        integer_type(ty@),
        in_int_bounds(ty@, n as int),
    ensures
        r@ == int_in(ty@, n as int),
{
    match ty {
        Type::I8 => Value::I8(n as i8),
        Type::I16 => Value::I16(n as i16),
        Type::I32 => Value::I32(n as i32),
        Type::I64 => Value::I64(n as i64),
        Type::U8 => Value::U8(n as u8),
        Type::U16 => Value::U16(n as u16),
        Type::U32 => Value::U32(n as u32),
        _ => Value::U64(n as u64),
    }
}

/// The number `n` as a value of type `t`, or why it is none.
pub open spec fn int_value_of(n: int, t: TypeView) -> Result<ValueView, ErrorView> {
    if !integer_type(t) {
        Err(ErrorView::Type("integer literal cannot initialize "@ + type_text(t)))
    } else if in_int_bounds(t, n) {
        Ok(int_in(t, n))
    } else {
        Err(ErrorView::Type(decimal(n) + " does not fit in "@ + type_text(t)))
    }
}

/// Whether `n` is a number of the integer type.
pub fn fits(ty: &Type, n: i128) -> (r: bool)
    ensures
        r == (integer_type(ty@) && in_int_bounds(ty@, n as int)),
{
    match ty {
        Type::I8 => -0x80 <= n && n <= 0x7f,
        Type::I16 => -0x8000 <= n && n <= 0x7fff,
        Type::I32 => -0x8000_0000 <= n && n <= 0x7fff_ffff,
        Type::I64 => -0x8000_0000_0000_0000 <= n && n <= 0x7fff_ffff_ffff_ffff,
        Type::U8 => 0 <= n && n <= 0xff,
        Type::U16 => 0 <= n && n <= 0xffff,
        Type::U32 => 0 <= n && n <= 0xffff_ffff,
        Type::U64 => 0 <= n && n <= 0xffff_ffff_ffff_ffff,
        _ => false,
    }
}

pub fn int_value(n: i128, ty: &Type) -> (r: Result<Value, Error>)
    ensures
        match r {
            Ok(v) => int_value_of(n as int, ty@) == Ok::<ValueView, ErrorView>(v@),
            Err(e) => int_value_of(n as int, ty@) == Err::<ValueView, ErrorView>(e@),
        },
{
    if !crate::types::is_integer(ty) {
        Err(
            Error::Type(
                crate::text::cat2("integer literal cannot initialize ", ty.to_text().as_str()),
            ),
        )
    } else if fits(ty, n) {
        Ok(make_integer(ty, n))
    } else {
        Err(
            Error::Type(
                cat3(decimal_text(n).as_str(), " does not fit in ", ty.to_text().as_str()),
            ),
        )
    }
}

/// A value as an index: a non-negative integer.
pub open spec fn index_of(v: ValueView) -> Result<usize, ErrorView> {
    match int_of(v) {
        Some(n) => if n > usize::MAX && v is U64 {
            Err(ErrorView::Runtime("array index too large"@))
        } else if n >= 0 {
            Ok(n as usize)
        } else {
            Err(ErrorView::Runtime("array index must be non-negative integer"@))
        },
        None => Err(ErrorView::Runtime("array index must be non-negative integer"@)),
    }
}

pub fn integer_to_usize(v: &Value) -> (r: Result<usize, Error>)
    ensures
        match r {
            Ok(n) => index_of(v@) == Ok::<usize, ErrorView>(n),
            Err(e) => index_of(v@) == Err::<usize, ErrorView>(e@),
        },
{
    match v {
        Value::I64(n) => if *n >= 0 {
            Ok(*n as usize)
        } else {
            Err(runtime_error("array index must be non-negative integer"))
        },
        Value::U64(n) => if *n > usize::MAX as u64 {
            Err(runtime_error("array index too large"))
        } else {
            Ok(*n as usize)
        },
        _ => match v.as_integer() {
            Some(n) => if n >= 0 {
                Ok(n as usize)
            } else {
                Err(runtime_error("array index must be non-negative integer"))
            },
            None => Err(runtime_error("array index must be non-negative integer")),
        },
    }
}

/// How a value is written without looking into the heap. The text of a float
/// is not part of it.
pub open spec fn plain_text(v: ValueView) -> Option<Seq<char>> {
    match v {
        ValueView::F16(_) | ValueView::BF16(_) | ValueView::F32(_) | ValueView::F64(_) => None,
        ValueView::Bool(b) => Some(if b {
            "true"@
        } else {
            "false"@
        }),
        ValueView::String(r) => Some("string@"@ + decimal(r.0 as int)),
        ValueView::Array(r, element) => Some(
            "vector<"@ + type_text(element) + ">@"@ + decimal(r.0 as int),
        ),
        ValueView::Tensor(r, ty) => Some(type_text(ty) + "@"@ + decimal(r.0 as int)),
        ValueView::Table(r, element) => Some(
            "table<"@ + type_text(element) + ">@"@ + decimal(r.0 as int),
        ),
        ValueView::TableKey(key) => Some(key_text(key)),
        ValueView::TableKeys(r) => Some("table_keys@"@ + decimal(r.0 as int)),
        ValueView::Struct(r, layout) => Some(layout.name + "@"@ + decimal(r.0 as int)),
        ValueView::Module(id) => Some("module("@ + id + ")"@),
        _ => Some(decimal(int_of(v).unwrap())),
    }
}

impl Value {
    /// The value as it is written without looking into the heap, unless it is
    /// a float.
    pub fn to_plain_text(&self) -> (r: Option<String>)
        ensures
            match r {
                Some(text) => plain_text(self@) == Some(text@),
                None => plain_text(self@) is None,
            },
    {
        match self {
            Value::F16(_) | Value::BF16(_) | Value::F32(_) | Value::F64(_) => None,
            Value::Bool(b) => Some(
                if *b {
                    "true".to_string()
                } else {
                    "false".to_string()
                },
            ),
            Value::String(r) => Some(crate::text::cat2("string@", usize_text(r.0).as_str())),
            Value::Array(r, element) => Some(
                crate::text::cat4(
                    "vector<",
                    element.to_text().as_str(),
                    ">@",
                    usize_text(r.0).as_str(),
                ),
            ),
            Value::Tensor(r, ty) => Some(
                cat3(ty.to_text().as_str(), "@", usize_text(r.0).as_str()),
            ),
            Value::Table(r, element) => Some(
                crate::text::cat4(
                    "table<",
                    element.to_text().as_str(),
                    ">@",
                    usize_text(r.0).as_str(),
                ),
            ),
            Value::TableKey(key) => Some(table_key_display(key)),
            Value::TableKeys(r) => Some(crate::text::cat2("table_keys@", usize_text(r.0).as_str())),
            Value::Struct(r, layout) => Some(
                cat3(layout.name.as_str(), "@", usize_text(r.0).as_str()),
            ),
            Value::Module(id) => Some(cat3("module(", id.as_str(), ")")),
            _ => match self.as_integer() {
                Some(n) => Some(decimal_text(n)),
                None => None,
            },
        }
    }
}

/// The heap slot that a value refers to.
pub open spec fn ref_of(v: ValueView) -> Option<HeapRef> {
    match v {
        ValueView::Array(r, _) => Some(r),
        ValueView::Tensor(r, _) => Some(r),
        ValueView::String(r) => Some(r),
        ValueView::Table(r, _) => Some(r),
        ValueView::TableKeys(r) => Some(r),
        ValueView::Struct(r, _) => Some(r),
        _ => None,
    }
}

} // verus!
