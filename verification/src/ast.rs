//! The syntax tree.
use vstd::prelude::*;
use crate::lexer::StringId;
use crate::ops::{BinOp, UnOp};
use crate::types::{SourceLocation, Type, TypeView};
use crate::views::{group_views, views};

verus! {

broadcast use group_views;

#[derive(Debug)]
pub enum Expr {
    Integer(i128),
    /// A floating-point literal, as it is written.
    Float(StringId),
    String(StringId),
    Input,
    This,
    Require(String),
    Name(StringId),
    GlobalName(StringId),
    Array(Vec<Expr>),
    Table(Vec<(TableLiteralKey, Expr)>),
    StructLiteral(String, Vec<(String, Expr)>),
    Cast(Box<Expr>, Type),
    Binary(Box<Expr>, BinOp, Box<Expr>),
    Unary(UnOp, Box<Expr>),
    Index(Box<Expr>, Vec<Expr>),
    Field(Box<Expr>, String),
    Call(String, Vec<Expr>),
    TensorFactory { name: String, element: Type, shape: Box<Expr> },
    Located { node: Box<Expr>, location: SourceLocation },
}

#[derive(Debug)]
pub enum TableLiteralKey {
    Index(Expr),
    Name(String),
}

#[derive(Debug)]
pub struct StructMethod {
    pub name: String,
    pub args: Vec<(String, Type)>,
    pub body: Option<Vec<Statement>>,
}

#[derive(Debug)]
pub enum MethodReceiver {
    Name(String),
    This,
}

#[derive(Debug)]
#[allow(inconsistent_fields)]
pub enum Statement {
    Struct { name: String, fields: Vec<(String, Type)>, methods: Vec<StructMethod> },
    MethodDefinition {
        struct_name: String,
        method: String,
        args: Vec<(String, Type)>,
        body: Vec<Statement>,
    },
    ExportLet { name: StringId, ty: Type, expr: Expr },
    ExportStruct { name: String, fields: Vec<(String, Type)>, methods: Vec<StructMethod> },
    ExportFunction { name: String, body: Vec<Statement> },
    CallMethod { receiver: MethodReceiver, method: String },
    Let { name: StringId, ty: Type, expr: Expr },
    Assign { name: String, expr: Expr },
    GlobalAssign { name: String, expr: Expr },
    SetIndex { name: String, indices: Vec<Expr>, expr: Expr },
    SetField { name: String, field: String, expr: Expr },
    SetFieldIndex { name: String, field: String, index: Expr, expr: Expr },
    Print(Expr),
    Printf { format: Expr, args: Vec<Expr> },
    Putc(Expr),
    If { condition: Expr, then_body: Vec<Statement>, else_body: Vec<Statement> },
    While { condition: Expr, body: Vec<Statement> },
    For { name: String, start: Expr, end: Expr, body: Vec<Statement> },
    ForIn { name: String, iterable: Expr, body: Vec<Statement> },
    Break,
    Continue,
    Located { node: Box<Statement>, location: SourceLocation },
}

/// The mathematical model of an [`Expr`].
pub enum ExprView {
    Integer(i128),
    Float(StringId),
    String(StringId),
    Input,
    This,
    Require(Seq<char>),
    Name(StringId),
    GlobalName(StringId),
    Array(Seq<ExprView>),
    Table(Seq<(KeyLiteralView, ExprView)>),
    StructLiteral(Seq<char>, Seq<(Seq<char>, ExprView)>),
    Cast(Box<ExprView>, TypeView),
    Binary(Box<ExprView>, BinOp, Box<ExprView>),
    Unary(UnOp, Box<ExprView>),
    Index(Box<ExprView>, Seq<ExprView>),
    Field(Box<ExprView>, Seq<char>),
    Call(Seq<char>, Seq<ExprView>),
    TensorFactory { name: Seq<char>, element: TypeView, shape: Box<ExprView> },
    Located { node: Box<ExprView>, location: SourceLocation },
}

/// The mathematical model of a [`TableLiteralKey`].
pub enum KeyLiteralView {
    Index(ExprView),
    Name(Seq<char>),
}

/// The mathematical model of a [`StructMethod`].
pub struct MethodView {
    pub name: Seq<char>,
    pub args: Seq<(Seq<char>, TypeView)>,
    pub body: Option<Seq<StatementView>>,
}

/// The mathematical model of a [`MethodReceiver`].
pub enum ReceiverView {
    Name(Seq<char>),
    This,
}

/// The mathematical model of a [`Statement`].
#[allow(inconsistent_fields)]
pub enum StatementView {
    Struct { name: Seq<char>, fields: Seq<(Seq<char>, TypeView)>, methods: Seq<MethodView> },
    MethodDefinition {
        struct_name: Seq<char>,
        method: Seq<char>,
        args: Seq<(Seq<char>, TypeView)>,
        body: Seq<StatementView>,
    },
    ExportLet { name: StringId, ty: TypeView, expr: ExprView },
    ExportStruct { name: Seq<char>, fields: Seq<(Seq<char>, TypeView)>, methods: Seq<MethodView> },
    ExportFunction { name: Seq<char>, body: Seq<StatementView> },
    CallMethod { receiver: ReceiverView, method: Seq<char> },
    Let { name: StringId, ty: TypeView, expr: ExprView },
    Assign { name: Seq<char>, expr: ExprView },
    GlobalAssign { name: Seq<char>, expr: ExprView },
    SetIndex { name: Seq<char>, indices: Seq<ExprView>, expr: ExprView },
    SetField { name: Seq<char>, field: Seq<char>, expr: ExprView },
    SetFieldIndex { name: Seq<char>, field: Seq<char>, index: ExprView, expr: ExprView },
    Print(ExprView),
    Printf { format: ExprView, args: Seq<ExprView> },
    Putc(ExprView),
    If { condition: ExprView, then_body: Seq<StatementView>, else_body: Seq<StatementView> },
    While { condition: ExprView, body: Seq<StatementView> },
    For { name: Seq<char>, start: ExprView, end: ExprView, body: Seq<StatementView> },
    ForIn { name: Seq<char>, iterable: ExprView, body: Seq<StatementView> },
    Break,
    Continue,
    Located { node: Box<StatementView>, location: SourceLocation },
}

pub open spec fn expr_view(e: Expr) -> ExprView
    decreases e,
{
    match e {
        Expr::Integer(n) => ExprView::Integer(n),
        Expr::Float(id) => ExprView::Float(id),
        Expr::String(id) => ExprView::String(id),
        Expr::Input => ExprView::Input,
        Expr::This => ExprView::This,
        Expr::Require(path) => ExprView::Require(path@),
        Expr::Name(id) => ExprView::Name(id),
        Expr::GlobalName(id) => ExprView::GlobalName(id),
        Expr::Array(items) => ExprView::Array(exprs_view(items@)),
        Expr::Table(entries) => ExprView::Table(entries_view(entries@)),
        Expr::StructLiteral(name, fields) => ExprView::StructLiteral(
            name@,
            field_exprs_view(fields@),
        ),
        Expr::Cast(inner, ty) => ExprView::Cast(Box::new(expr_view(*inner)), ty@),
        Expr::Binary(left, op, right) => ExprView::Binary(
            Box::new(expr_view(*left)),
            op,
            Box::new(expr_view(*right)),
        ),
        Expr::Unary(op, inner) => ExprView::Unary(op, Box::new(expr_view(*inner))),
        Expr::Index(container, indices) => ExprView::Index(
            Box::new(expr_view(*container)),
            exprs_view(indices@),
        ),
        Expr::Field(container, field) => ExprView::Field(Box::new(expr_view(*container)), field@),
        Expr::Call(name, args) => ExprView::Call(name@, exprs_view(args@)),
        Expr::TensorFactory { name, element, shape } => ExprView::TensorFactory {
            name: name@,
            element: element@,
            shape: Box::new(expr_view(*shape)),
        },
        Expr::Located { node, location } => ExprView::Located {
            node: Box::new(expr_view(*node)),
            location,
        },
    }
}

pub open spec fn exprs_view(s: Seq<Expr>) -> Seq<ExprView>
    decreases s,
{
    Seq::new(
        s.len(),
        |i: int|
            if 0 <= i < s.len() {
                expr_view(s[i])
            } else {
                ExprView::Input
            },
    )
}

pub open spec fn key_literal_view(key: TableLiteralKey) -> KeyLiteralView
    decreases key,
{
    match key {
        TableLiteralKey::Index(e) => KeyLiteralView::Index(expr_view(e)),
        TableLiteralKey::Name(name) => KeyLiteralView::Name(name@),
    }
}

pub open spec fn entries_view(s: Seq<(TableLiteralKey, Expr)>) -> Seq<(KeyLiteralView, ExprView)>
    decreases s,
{
    Seq::new(
        s.len(),
        |i: int|
            if 0 <= i < s.len() {
                (key_literal_view(s[i].0), expr_view(s[i].1))
            } else {
                (KeyLiteralView::Name(Seq::empty()), ExprView::Input)
            },
    )
}

pub open spec fn field_exprs_view(s: Seq<(String, Expr)>) -> Seq<(Seq<char>, ExprView)>
    decreases s,
{
    Seq::new(
        s.len(),
        |i: int|
            if 0 <= i < s.len() {
                (s[i].0@, expr_view(s[i].1))
            } else {
                (Seq::empty(), ExprView::Input)
            },
    )
}

pub open spec fn statement_view(s: Statement) -> StatementView
    decreases s,
{
    match s {
        Statement::Struct { name, fields, methods } => StatementView::Struct {
            name: name@,
            fields: views(fields@),
            methods: methods_view(methods@),
        },
        Statement::MethodDefinition { struct_name, method, args, body } =>
        StatementView::MethodDefinition {
            struct_name: struct_name@,
            method: method@,
            args: views(args@),
            body: statements_view(body@),
        },
        Statement::ExportLet { name, ty, expr } => StatementView::ExportLet {
            name,
            ty: ty@,
            expr: expr_view(expr),
        },
        Statement::ExportStruct { name, fields, methods } => StatementView::ExportStruct {
            name: name@,
            fields: views(fields@),
            methods: methods_view(methods@),
        },
        Statement::ExportFunction { name, body } => StatementView::ExportFunction {
            name: name@,
            body: statements_view(body@),
        },
        Statement::CallMethod { receiver, method } => StatementView::CallMethod {
            receiver: receiver@,
            method: method@,
        },
        Statement::Let { name, ty, expr } => StatementView::Let {
            name,
            ty: ty@,
            expr: expr_view(expr),
        },
        Statement::Assign { name, expr } => StatementView::Assign {
            name: name@,
            expr: expr_view(expr),
        },
        Statement::GlobalAssign { name, expr } => StatementView::GlobalAssign {
            name: name@,
            expr: expr_view(expr),
        },
        Statement::SetIndex { name, indices, expr } => StatementView::SetIndex {
            name: name@,
            indices: exprs_view(indices@),
            expr: expr_view(expr),
        },
        Statement::SetField { name, field, expr } => StatementView::SetField {
            name: name@,
            field: field@,
            expr: expr_view(expr),
        },
        Statement::SetFieldIndex { name, field, index, expr } => StatementView::SetFieldIndex {
            name: name@,
            field: field@,
            index: expr_view(index),
            expr: expr_view(expr),
        },
        Statement::Print(expr) => StatementView::Print(expr_view(expr)),
        Statement::Printf { format, args } => StatementView::Printf {
            format: expr_view(format),
            args: exprs_view(args@),
        },
        Statement::Putc(expr) => StatementView::Putc(expr_view(expr)),
        Statement::If { condition, then_body, else_body } => StatementView::If {
            condition: expr_view(condition),
            then_body: statements_view(then_body@),
            else_body: statements_view(else_body@),
        },
        Statement::While { condition, body } => StatementView::While {
            condition: expr_view(condition),
            body: statements_view(body@),
        },
        Statement::For { name, start, end, body } => StatementView::For {
            name: name@,
            start: expr_view(start),
            end: expr_view(end),
            body: statements_view(body@),
        },
        Statement::ForIn { name, iterable, body } => StatementView::ForIn {
            name: name@,
            iterable: expr_view(iterable),
            body: statements_view(body@),
        },
        Statement::Break => StatementView::Break,
        Statement::Continue => StatementView::Continue,
        Statement::Located { node, location } => StatementView::Located {
            node: Box::new(statement_view(*node)),
            location,
        },
    }
}

pub open spec fn statements_view(s: Seq<Statement>) -> Seq<StatementView>
    decreases s,
{
    Seq::new(
        s.len(),
        |i: int|
            if 0 <= i < s.len() {
                statement_view(s[i])
            } else {
                StatementView::Break
            },
    )
}

pub open spec fn method_view(m: StructMethod) -> MethodView
    decreases m,
{
    MethodView {
        name: m.name@,
        args: views(m.args@),
        body: match m.body {
            Some(body) => Some(statements_view(body@)),
            None => None,
        },
    }
}

pub open spec fn methods_view(s: Seq<StructMethod>) -> Seq<MethodView>
    decreases s,
{
    Seq::new(
        s.len(),
        |i: int|
            if 0 <= i < s.len() {
                method_view(s[i])
            } else {
                MethodView { name: Seq::empty(), args: Seq::empty(), body: None }
            },
    )
}

impl View for Expr {
    type V = ExprView;

    open spec fn view(&self) -> ExprView {
        expr_view(*self)
    }
}

impl View for TableLiteralKey {
    type V = KeyLiteralView;

    open spec fn view(&self) -> KeyLiteralView {
        key_literal_view(*self)
    }
}

impl View for MethodReceiver {
    type V = ReceiverView;

    open spec fn view(&self) -> ReceiverView {
        match *self {
            MethodReceiver::Name(name) => ReceiverView::Name(name@),
            MethodReceiver::This => ReceiverView::This,
        }
    }
}

impl View for StructMethod {
    type V = MethodView;

    open spec fn view(&self) -> MethodView {
        method_view(*self)
    }
}

impl View for Statement {
    type V = StatementView;

    open spec fn view(&self) -> StatementView {
        statement_view(*self)
    }
}

proof fn lemma_exprs(s: Seq<Expr>)
    ensures
        exprs_view(s) == views(s),
{
    assert(exprs_view(s) =~= views(s));
}

proof fn lemma_entries(s: Seq<(TableLiteralKey, Expr)>)
    ensures
        entries_view(s) == views(s),
{
    assert(entries_view(s) =~= views(s));
}

proof fn lemma_field_exprs(s: Seq<(String, Expr)>)
    ensures
        field_exprs_view(s) == views(s),
{
    assert(field_exprs_view(s) =~= views(s));
}

proof fn lemma_statements(s: Seq<Statement>)
    ensures
        statements_view(s) == views(s),
{
    assert(statements_view(s) =~= views(s));
}

proof fn lemma_methods(s: Seq<StructMethod>)
    ensures
        methods_view(s) == views(s),
{
    assert(methods_view(s) =~= views(s));
}

pub broadcast proof fn expr_parts(e: Expr)
    ensures
        (#[trigger] expr_view(e)) == match e {
            Expr::Array(items) => ExprView::Array(views(items@)),
            Expr::Table(entries) => ExprView::Table(views(entries@)),
            Expr::StructLiteral(name, fields) => ExprView::StructLiteral(name@, views(fields@)),
            Expr::Index(container, indices) => ExprView::Index(
                Box::new((*container)@),
                views(indices@),
            ),
            Expr::Call(name, args) => ExprView::Call(name@, views(args@)),
            _ => expr_view(e),
        },
{
    match e {
        Expr::Array(items) => lemma_exprs(items@),
        Expr::Table(entries) => lemma_entries(entries@),
        Expr::StructLiteral(_, fields) => lemma_field_exprs(fields@),
        Expr::Index(_, indices) => lemma_exprs(indices@),
        Expr::Call(_, args) => lemma_exprs(args@),
        _ => {},
    }
}

pub broadcast proof fn statement_parts(s: Statement)
    ensures
        (#[trigger] statement_view(s)) == match s {
            Statement::Struct { name, fields, methods } => StatementView::Struct {
                name: name@,
                fields: views(fields@),
                methods: views(methods@),
            },
            Statement::MethodDefinition { struct_name, method, args, body } =>
            StatementView::MethodDefinition {
                struct_name: struct_name@,
                method: method@,
                args: views(args@),
                body: views(body@),
            },
            Statement::ExportStruct { name, fields, methods } => StatementView::ExportStruct {
                name: name@,
                fields: views(fields@),
                methods: views(methods@),
            },
            Statement::ExportFunction { name, body } => StatementView::ExportFunction {
                name: name@,
                body: views(body@),
            },
            Statement::SetIndex { name, indices, expr } => StatementView::SetIndex {
                name: name@,
                indices: views(indices@),
                expr: expr@,
            },
            Statement::Printf { format, args } => StatementView::Printf {
                format: format@,
                args: views(args@),
            },
            Statement::If { condition, then_body, else_body } => StatementView::If {
                condition: condition@,
                then_body: views(then_body@),
                else_body: views(else_body@),
            },
            Statement::While { condition, body } => StatementView::While {
                condition: condition@,
                body: views(body@),
            },
            Statement::For { name, start, end, body } => StatementView::For {
                name: name@,
                start: start@,
                end: end@,
                body: views(body@),
            },
            Statement::ForIn { name, iterable, body } => StatementView::ForIn {
                name: name@,
                iterable: iterable@,
                body: views(body@),
            },
            _ => statement_view(s),
        },
{
    match s {
        Statement::Struct { methods, .. } => lemma_methods(methods@),
        Statement::MethodDefinition { body, .. } => lemma_statements(body@),
        Statement::ExportStruct { methods, .. } => lemma_methods(methods@),
        Statement::ExportFunction { body, .. } => lemma_statements(body@),
        Statement::SetIndex { indices, .. } => lemma_exprs(indices@),
        Statement::Printf { args, .. } => lemma_exprs(args@),
        Statement::If { then_body, else_body, .. } => {
            lemma_statements(then_body@);
            lemma_statements(else_body@);
        },
        Statement::While { body, .. } => lemma_statements(body@),
        Statement::For { body, .. } => lemma_statements(body@),
        Statement::ForIn { body, .. } => lemma_statements(body@),
        _ => {},
    }
}

pub broadcast proof fn method_parts(m: StructMethod)
    ensures
        (#[trigger] method_view(m)) == (MethodView {
            name: m.name@,
            args: views(m.args@),
            body: match m.body {
                Some(body) => Some(views(body@)),
                None => None,
            },
        }),
{
    if let Some(body) = m.body {
        lemma_statements(body@);
    }
}

pub broadcast group group_ast_views {
    expr_parts,
    statement_parts,
    method_parts,
}

} // verus!
