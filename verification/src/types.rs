//! The language's types, source locations and errors.
use vstd::prelude::*;
use crate::text::{cat2, cat3, cat5, decimal, text_eq, usize_text};

verus! {

/// A position in a source text, counted in characters.
#[derive(Clone, Copy, Debug, PartialEq, Eq, Structural)]
pub struct SourceLocation {
    pub offset: usize,
    pub line: usize,
    pub column: usize,
}

impl Default for SourceLocation {
    fn default() -> (r: Self)
        ensures
            r == (SourceLocation { offset: 0, line: 0, column: 0 }),
    {
        SourceLocation { offset: 0, line: 0, column: 0 }
    }
}

/// The number of newlines in a text.
pub open spec fn newlines(s: Seq<char>) -> nat
    decreases s.len(),
{
    if s.len() == 0 {
        0
    } else {
        newlines(s.drop_last()) + if s.last() == '\n' {
            1nat
        } else {
            0nat
        }
    }
}

/// The number of characters after the last newline of a text.
pub open spec fn tail_len(s: Seq<char>) -> nat
    decreases s.len(),
{
    if s.len() == 0 || s.last() == '\n' {
        0
    } else {
        tail_len(s.drop_last()) + 1
    }
}

/// The line and the column, both counted from one, of the character at `offset`.
pub open spec fn location_at(s: Seq<char>, offset: int) -> (int, int) {
    let before = s.take(if offset < s.len() {
        offset
    } else {
        s.len() as int
    });
    (newlines(before) as int + 1, tail_len(before) as int + 1)
}

/// A count as a machine number; one too large for it is the greatest.
pub open spec fn capped(n: int) -> usize {
    if n > usize::MAX {
        usize::MAX
    } else {
        n as usize
    }
}

/// The location of the character at `offset`.
pub open spec fn source_location(s: Seq<char>, offset: int) -> SourceLocation {
    SourceLocation {
        offset: offset as usize,
        line: capped(location_at(s, offset).0),
        column: capped(location_at(s, offset).1),
    }
}

impl SourceLocation {
    /// The location of the character at `offset`.
    pub fn at(chars: &[char], offset: usize) -> (r: Self)
        ensures
            r == source_location(chars@, offset as int),
    {
        let end: usize = if offset < chars.len() {
            offset
        } else {
            chars.len()
        };
        let mut line: usize = 1;
        let mut column: usize = 1;
        let mut i: usize = 0;
        assert(chars@.take(0) =~= Seq::<char>::empty());
        while i < end
            invariant
                i <= end <= chars@.len(),
                line == capped(newlines(chars@.take(i as int)) as int + 1),
                column == capped(tail_len(chars@.take(i as int)) as int + 1),
            decreases end - i,
        {
            assert(chars@.take(i + 1).drop_last() =~= chars@.take(i as int));
            if chars[i] == '\n' {
                line = line.saturating_add(1);
                column = 1;
            } else {
                column = column.saturating_add(1);
            }
            i += 1;
        }
        SourceLocation { offset, line, column }
    }
}

/// A type of the language.
#[derive(Debug, PartialEq, Eq)]
pub enum Type {
    I8,
    I16,
    I32,
    I64,
    U8,
    U16,
    U32,
    U64,
    F16,
    BF16,
    F32,
    F64,
    Bool,
    String,
    Array(Box<Type>),
    Tensor(Box<Type>, usize),
    Table(Box<Type>),
    TableKey,
    TableKeys,
    Struct(String),
    Module(String),
    DArray,
    DTensor,
}

/// The mathematical model of a [`Type`].
pub enum TypeView {
    I8,
    I16,
    I32,
    I64,
    U8,
    U16,
    U32,
    U64,
    F16,
    BF16,
    F32,
    F64,
    Bool,
    String,
    Array(Box<TypeView>),
    Tensor(Box<TypeView>, usize),
    Table(Box<TypeView>),
    TableKey,
    TableKeys,
    Struct(Seq<char>),
    Module(Seq<char>),
    DArray,
    DTensor,
}

pub open spec fn type_view(t: Type) -> TypeView
    decreases t,
{
    match t {
        Type::I8 => TypeView::I8,
        Type::I16 => TypeView::I16,
        Type::I32 => TypeView::I32,
        Type::I64 => TypeView::I64,
        Type::U8 => TypeView::U8,
        Type::U16 => TypeView::U16,
        Type::U32 => TypeView::U32,
        Type::U64 => TypeView::U64,
        Type::F16 => TypeView::F16,
        Type::BF16 => TypeView::BF16,
        Type::F32 => TypeView::F32,
        Type::F64 => TypeView::F64,
        Type::Bool => TypeView::Bool,
        Type::String => TypeView::String,
        Type::Array(inner) => TypeView::Array(Box::new(type_view(*inner))),
        Type::Tensor(inner, rank) => TypeView::Tensor(Box::new(type_view(*inner)), rank),
        Type::Table(inner) => TypeView::Table(Box::new(type_view(*inner))),
        Type::TableKey => TypeView::TableKey,
        Type::TableKeys => TypeView::TableKeys,
        Type::Struct(name) => TypeView::Struct(name@),
        Type::Module(id) => TypeView::Module(id@),
        Type::DArray => TypeView::DArray,
        Type::DTensor => TypeView::DTensor,
    }
}

impl View for Type {
    type V = TypeView;

    open spec fn view(&self) -> TypeView {
        type_view(*self)
    }
}

impl Clone for Type {
    fn clone(&self) -> (r: Self)
        ensures
            r == *self,
        decreases *self,
    {
        match self {
            Type::I8 => Type::I8,
            Type::I16 => Type::I16,
            Type::I32 => Type::I32,
            Type::I64 => Type::I64,
            Type::U8 => Type::U8,
            Type::U16 => Type::U16,
            Type::U32 => Type::U32,
            Type::U64 => Type::U64,
            Type::F16 => Type::F16,
            Type::BF16 => Type::BF16,
            Type::F32 => Type::F32,
            Type::F64 => Type::F64,
            Type::Bool => Type::Bool,
            Type::String => Type::String,
            Type::Array(inner) => Type::Array(Box::new((**inner).clone())),
            Type::Tensor(inner, rank) => Type::Tensor(Box::new((**inner).clone()), *rank),
            Type::Table(inner) => Type::Table(Box::new((**inner).clone())),
            Type::TableKey => Type::TableKey,
            Type::TableKeys => Type::TableKeys,
            Type::Struct(name) => Type::Struct(name.clone()),
            Type::Module(id) => Type::Module(id.clone()),
            Type::DArray => Type::DArray,
            Type::DTensor => Type::DTensor,
        }
    }
}

/// How a type is written in messages.
pub open spec fn type_text(t: TypeView) -> Seq<char>
    decreases t,
{
    match t {
        TypeView::I8 => "i8"@,
        TypeView::I16 => "i16"@,
        TypeView::I32 => "i32"@,
        TypeView::I64 => "i64"@,
        TypeView::U8 => "u8"@,
        TypeView::U16 => "u16"@,
        TypeView::U32 => "u32"@,
        TypeView::U64 => "u64"@,
        TypeView::F16 => "f16"@,
        TypeView::BF16 => "bf16"@,
        TypeView::F32 => "f32"@,
        TypeView::F64 => "f64"@,
        TypeView::Bool => "bool"@,
        TypeView::String => "string"@,
        TypeView::Array(inner) => "vector<"@ + type_text(*inner) + ">"@,
        TypeView::Tensor(inner, rank) => "tensor<"@ + type_text(*inner) + ", "@ + decimal(
            rank as int,
        ) + ">"@,
        TypeView::Table(inner) => "table<"@ + type_text(*inner) + ">"@,
        TypeView::TableKey => "table_key"@,
        TypeView::TableKeys => "table_keys"@,
        TypeView::Struct(name) => name,
        TypeView::Module(_) => "module"@,
        TypeView::DArray => "dArray"@,
        TypeView::DTensor => "dTensor"@,
    }
}

impl Type {
    /// Whether two types are the same.
    pub fn same(&self, other: &Type) -> (r: bool)
        ensures
            r == (self@ == other@),
        decreases *self,
    {
        match (self, other) {
            (Type::I8, Type::I8) | (Type::I16, Type::I16) | (Type::I32, Type::I32) | (
                Type::I64,
                Type::I64,
            ) | (Type::U8, Type::U8) | (Type::U16, Type::U16) | (Type::U32, Type::U32) | (
                Type::U64,
                Type::U64,
            ) | (Type::F16, Type::F16) | (Type::BF16, Type::BF16) | (Type::F32, Type::F32) | (
                Type::F64,
                Type::F64,
            ) | (Type::Bool, Type::Bool) | (Type::String, Type::String) | (
                Type::TableKey,
                Type::TableKey,
            ) | (Type::TableKeys, Type::TableKeys) | (Type::DArray, Type::DArray) | (
                Type::DTensor,
                Type::DTensor,
            ) => true,
            (Type::Array(a), Type::Array(b)) => a.same(b),
            (Type::Tensor(a, m), Type::Tensor(b, n)) => *m == *n && a.same(b),
            (Type::Table(a), Type::Table(b)) => a.same(b),
            (Type::Struct(a), Type::Struct(b)) => *a == *b,
            (Type::Module(a), Type::Module(b)) => *a == *b,
            _ => false,
        }
    }

    /// The type as it is written in messages.
    pub fn to_text(&self) -> (r: String)
        ensures
            r@ == type_text(self@),
        decreases *self,
    {
        match self {
            Type::I8 => "i8".to_string(),
            Type::I16 => "i16".to_string(),
            Type::I32 => "i32".to_string(),
            Type::I64 => "i64".to_string(),
            Type::U8 => "u8".to_string(),
            Type::U16 => "u16".to_string(),
            Type::U32 => "u32".to_string(),
            Type::U64 => "u64".to_string(),
            Type::F16 => "f16".to_string(),
            Type::BF16 => "bf16".to_string(),
            Type::F32 => "f32".to_string(),
            Type::F64 => "f64".to_string(),
            Type::Bool => "bool".to_string(),
            Type::String => "string".to_string(),
            Type::Array(inner) => cat3("vector<", inner.to_text().as_str(), ">"),
            Type::Tensor(inner, rank) => cat5(
                "tensor<",
                inner.to_text().as_str(),
                ", ",
                usize_text(*rank).as_str(),
                ">",
            ),
            Type::Table(inner) => cat3("table<", inner.to_text().as_str(), ">"),
            Type::TableKey => "table_key".to_string(),
            Type::TableKeys => "table_keys".to_string(),
            Type::Struct(name) => name.clone(),
            Type::Module(_) => "module".to_string(),
            Type::DArray => "dArray".to_string(),
            Type::DTensor => "dTensor".to_string(),
        }
    }
}

/// What went wrong in a source text or in its execution.
#[derive(Debug, PartialEq)]
pub enum Error {
    Lex(String),
    Parse(String),
    Type(String),
    Runtime(String),
    Located { source: Box<Error>, location: SourceLocation },
}

/// The mathematical model of an [`Error`].
pub enum ErrorView {
    Lex(Seq<char>),
    Parse(Seq<char>),
    Type(Seq<char>),
    Runtime(Seq<char>),
    Located { source: Box<ErrorView>, location: SourceLocation },
}

pub open spec fn error_view(e: Error) -> ErrorView
    decreases e,
{
    match e {
        Error::Lex(message) => ErrorView::Lex(message@),
        Error::Parse(message) => ErrorView::Parse(message@),
        Error::Type(message) => ErrorView::Type(message@),
        Error::Runtime(message) => ErrorView::Runtime(message@),
        Error::Located { source, location } => ErrorView::Located {
            source: Box::new(error_view(*source)),
            location,
        },
    }
}

impl View for Error {
    type V = ErrorView;

    open spec fn view(&self) -> ErrorView {
        error_view(*self)
    }
}

impl Clone for Error {
    fn clone(&self) -> (r: Self)
        ensures
            r == *self,
        decreases *self,
    {
        match self {
            Error::Lex(message) => Error::Lex(message.clone()),
            Error::Parse(message) => Error::Parse(message.clone()),
            Error::Type(message) => Error::Type(message.clone()),
            Error::Runtime(message) => Error::Runtime(message.clone()),
            Error::Located { source, location } => Error::Located {
                source: Box::new((**source).clone()),
                location: *location,
            },
        }
    }
}

/// The error with a location, unless it already has one.
pub open spec fn error_at(e: ErrorView, location: SourceLocation) -> ErrorView {
    if e is Located {
        e
    } else {
        ErrorView::Located { source: Box::new(e), location }
    }
}

/// How an error is reported.
pub open spec fn error_text(e: ErrorView) -> Seq<char>
    decreases e,
{
    match e {
        ErrorView::Lex(message) => "lex error: "@ + message,
        ErrorView::Parse(message) => "parse error: "@ + message,
        ErrorView::Type(message) => "type error: "@ + message,
        ErrorView::Runtime(message) => "runtime error: "@ + message,
        ErrorView::Located { source, location } => error_text(*source) + " at line "@ + decimal(
            location.line as int,
        ) + ", column "@ + decimal(location.column as int),
    }
}

impl Error {
    /// Adds a location to an error that has none.
    pub fn at(self, location: SourceLocation) -> (r: Self)
        ensures
            r@ == error_at(self@, location),
            self is Located ==> r == self,
    {
        match self {
            Error::Located { source, location } => Error::Located { source, location },
            source => Error::Located { source: Box::new(source), location },
        }
    }

    /// The location of an error that has one.
    pub fn location(&self) -> (r: Option<SourceLocation>)
        ensures
            r == match self@ {
                ErrorView::Located { location, .. } => Some(location),
                _ => None,
            },
    {
        match self {
            Error::Located { location, .. } => Some(*location),
            _ => None,
        }
    }

    /// The error as it is reported.
    pub fn to_text(&self) -> (r: String)
        ensures
            r@ == error_text(self@),
        decreases *self,
    {
        match self {
            Error::Lex(message) => cat2("lex error: ", message.as_str()),
            Error::Parse(message) => cat2("parse error: ", message.as_str()),
            Error::Type(message) => cat2("type error: ", message.as_str()),
            Error::Runtime(message) => cat2("runtime error: ", message.as_str()),
            Error::Located { source, location } => cat5(
                source.to_text().as_str(),
                " at line ",
                usize_text(location.line).as_str(),
                ", column ",
                usize_text(location.column).as_str(),
            ),
        }
    }
}

pub fn runtime_error(message: &str) -> (r: Error)
    ensures
        r@ == ErrorView::Runtime(message@),
{
    Error::Runtime(message.to_string())
}

pub fn type_error(message: &str) -> (r: Error)
    ensures
        r@ == ErrorView::Type(message@),
{
    Error::Type(message.to_string())
}

pub open spec fn integer_type(t: TypeView) -> bool {
    t is I8 || t is I16 || t is I32 || t is I64 || t is U8 || t is U16 || t is U32 || t is U64
}

pub open spec fn float_type(t: TypeView) -> bool {
    t is F16 || t is BF16 || t is F32 || t is F64
}

pub open spec fn numeric_type(t: TypeView) -> bool {
    integer_type(t) || float_type(t)
}

pub open spec fn signed_type(t: TypeView) -> bool {
    t is I8 || t is I16 || t is I32 || t is I64
}

/// The number of bytes that a scalar of the type takes.
pub open spec fn size_of_type(t: TypeView) -> Option<usize> {
    match t {
        TypeView::I8 | TypeView::U8 | TypeView::Bool => Some(1),
        TypeView::I16 | TypeView::U16 | TypeView::F16 | TypeView::BF16 => Some(2),
        TypeView::I32 | TypeView::U32 | TypeView::F32 => Some(4),
        TypeView::I64 | TypeView::U64 | TypeView::F64 => Some(8),
        _ => None,
    }
}

/// The numbers of an integer type, from the least to the greatest.
pub open spec fn int_bounds(t: TypeView) -> (int, int) {
    match t {
        TypeView::I8 => (i8::MIN as int, i8::MAX as int),
        TypeView::I16 => (i16::MIN as int, i16::MAX as int),
        TypeView::I32 => (i32::MIN as int, i32::MAX as int),
        TypeView::I64 => (i64::MIN as int, i64::MAX as int),
        TypeView::U8 => (0, u8::MAX as int),
        TypeView::U16 => (0, u16::MAX as int),
        TypeView::U32 => (0, u32::MAX as int),
        TypeView::U64 => (0, u64::MAX as int),
        _ => (0, -1),
    }
}

pub open spec fn in_int_bounds(t: TypeView, n: int) -> bool {
    int_bounds(t).0 <= n <= int_bounds(t).1
}

/// Whether a value of type `found` may stand where `expected` is declared:
/// equal types, an anonymous module, dynamic containers, and numeric widening.
pub open spec fn compatible(expected: TypeView, found: TypeView) -> bool {
    ||| expected == found
    ||| match (expected, found) {
        (TypeView::Module(id), TypeView::Module(_)) => id.len() == 0,
        (TypeView::DArray, TypeView::Array(_)) | (TypeView::Array(_), TypeView::DArray) => true,
        (TypeView::DTensor, TypeView::Tensor(_, _)) | (
            TypeView::Tensor(_, _),
            TypeView::DTensor,
        ) => true,
        _ => widens(expected, found),
    }
}

/// Implicit numeric widening.
pub open spec fn widens(to: TypeView, from: TypeView) -> bool {
    if to is F32 {
        from is F16 || from is BF16
    } else if to is F64 {
        from is F16 || from is BF16 || from is F32
    } else {
        // Any narrower integer whose numbers all belong to the wider type.
        integer_type(to) && integer_type(from) && from != to && int_bounds(to).0 <= int_bounds(
            from,
        ).0 && int_bounds(from).1 <= int_bounds(to).1
    }
}

pub fn types_compatible(expected: &Type, found: &Type) -> (r: bool)
    ensures
        r == compatible(expected@, found@),
{
    if expected.same(found) {
        return true;
    }
    proof {
        reveal_strlit("");
        if let TypeView::Module(id) = expected@ {
            assert(id.len() == 0 ==> id =~= ""@);
        }
    }
    match (expected, found) {
        (Type::Module(expected_id), Type::Module(_)) => text_eq(expected_id.as_str(), ""),
        (Type::DArray, Type::Array(_)) | (Type::Array(_), Type::DArray) => true,
        (Type::DTensor, Type::Tensor(_, _)) | (Type::Tensor(_, _), Type::DTensor) => true,
        (Type::F32, Type::F16) | (Type::F32, Type::BF16) => true,
        (Type::F64, Type::F16) | (Type::F64, Type::BF16) | (Type::F64, Type::F32) => true,
        (Type::I16, Type::I8) | (Type::I16, Type::U8) => true,
        (Type::I32, Type::I8) | (Type::I32, Type::U8) | (Type::I32, Type::I16) | (
            Type::I32,
            Type::U16,
        ) => true,
        (Type::I64, Type::I8) | (Type::I64, Type::U8) | (Type::I64, Type::I16) | (
            Type::I64,
            Type::U16,
        ) | (Type::I64, Type::I32) | (Type::I64, Type::U32) => true,
        (Type::U16, Type::U8) => true,
        (Type::U32, Type::U8) | (Type::U32, Type::U16) => true,
        (Type::U64, Type::U8) | (Type::U64, Type::U16) | (Type::U64, Type::U32) => true,
        _ => false,
    }
}

pub fn is_numeric(t: &Type) -> (r: bool)
    ensures
        r == numeric_type(t@),
{
    !matches!(
        t,
        Type::Bool | Type::String | Type::Array(_) | Type::Tensor(_, _) | Type::Table(_)
            | Type::TableKey | Type::TableKeys | Type::Struct(_) | Type::Module(_) | Type::DArray
            | Type::DTensor
    )
}

pub fn is_integer(t: &Type) -> (r: bool)
    ensures
        r == integer_type(t@),
{
    matches!(
        t,
        Type::I8 | Type::I16 | Type::I32 | Type::I64 | Type::U8 | Type::U16 | Type::U32 | Type::U64
    )
}

pub fn is_float(t: &Type) -> (r: bool)
    ensures
        r == float_type(t@),
{
    matches!(t, Type::F16 | Type::BF16 | Type::F32 | Type::F64)
}

/// The size in bytes of a scalar type.
pub fn type_size(ty: &Type) -> (r: Option<usize>)
    ensures
        r == size_of_type(ty@),
{
    match ty {
        Type::I8 | Type::U8 | Type::Bool => Some(1),
        Type::I16 | Type::U16 | Type::F16 | Type::BF16 => Some(2),
        Type::I32 | Type::U32 | Type::F32 => Some(4),
        Type::I64 | Type::U64 | Type::F64 => Some(8),
        _ => None,
    }
}

/// The size in bytes of a scalar type, or the error for any other type.
pub open spec fn scalar_size_of(t: TypeView) -> Result<usize, ErrorView> {
    match size_of_type(t) {
        Some(size) => Ok(size),
        None => Err(
            ErrorView::Type("packed storage supports scalar field and element types only"@),
        ),
    }
}

pub fn scalar_size(ty: &Type) -> (r: Result<usize, Error>)
    ensures
        match r {
            Ok(size) => scalar_size_of(ty@) == Ok::<usize, ErrorView>(size),
            Err(e) => scalar_size_of(ty@) == Err::<usize, ErrorView>(e@),
        },
{
    match type_size(ty) {
        Some(size) => Ok(size),
        None => Err(type_error("packed storage supports scalar field and element types only")),
    }
}

/// A type is compatible with itself.
pub proof fn compatible_is_reflexive(t: TypeView)
    ensures
        compatible(t, t),
{
}

/// Integer widening loses nothing: every number of the narrower type belongs
/// to the wider one.
pub proof fn integer_widening_keeps_numbers(to: TypeView, from: TypeView, n: int)
    requires
        compatible(to, from),
        integer_type(to),
        in_int_bounds(from, n),
    ensures
        in_int_bounds(to, n),
{
}

/// Widening never narrows: a wider type is not accepted where the narrower one
/// is declared.
pub proof fn widening_is_one_way(a: TypeView, b: TypeView)
    requires
        numeric_type(a),
        a != b,
        compatible(a, b),
    ensures
        numeric_type(b),
        !compatible(b, a),
{
}

/// Locating an error twice keeps the first location.
pub proof fn first_location_stays(e: ErrorView, first: SourceLocation, second: SourceLocation)
    ensures
        error_at(error_at(e, first), second) == error_at(e, first),
{
}

} // verus!
