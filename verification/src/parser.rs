//! The parser: tokens to a syntax tree, as the grammar says.
use vstd::prelude::*;
use crate::ast::{
    Expr, ExprView, KeyLiteralView, MethodReceiver, MethodView, Statement, StatementView,
    StructMethod, TableLiteralKey, group_ast_views,
};
use crate::grammar::{
    Source, atom, binary, binary_rest, block, body, bracketed_type, call_on_this, casts,
    closed_list, declaration, else_chain, ends_block, exported, exported_function, expr, expr_list,
    field_index_assignment, for_each, for_range, for_statement, gives, global_assignment, ident,
    if_statement, index_list, levels, literal_fields, loop_body, maybe_parenthesized, member_method,
    member_statement, members, method_definition, more_arguments, moved, name, name_statement,
    named, need, operator, optional_body, parameter_list, parameters, parsed_type, place, postfix,
    primary, printf, program, qualified_literal, require_path, simple_type, statement,
    statement_inner, struct_declaration, table_entries, table_key, tensor_factory, tensor_rank,
    tensor_type, tok, token_text, unary, unexpected, while_statement,
};
use crate::lexer::{LexedTokens, SpannedToken, StringId, StringInterner, Token, token_wf, tokens_wf};
use crate::ops::{BinOp, UnOp};
use crate::text::{cat2, cat3, decimal_text, text_eq};
use crate::types::{Error, ErrorView, SourceLocation, Type, TypeView, scalar_size};
use crate::views::{group_views, same, views};

verus! {

broadcast use {group_views, group_ast_views};

/// A position in a list of tokens.
#[derive(Debug)]
pub struct Parser {
    pub tokens: Vec<SpannedToken>,
    pub strings: StringInterner,
    pub at: usize,
}

fn find_operator(level: u8, t: Token) -> (r: Option<BinOp>)
    ensures
        r == operator(level as int, t),
{
    match t {
        Token::OrOr => if level == 0 {
            Some(BinOp::Or)
        } else {
            None
        },
        Token::AndAnd => if level == 1 {
            Some(BinOp::And)
        } else {
            None
        },
        Token::EqualEqual => if level == 2 {
            Some(BinOp::Eq)
        } else {
            None
        },
        Token::BangEq => if level == 2 {
            Some(BinOp::Neq)
        } else {
            None
        },
        Token::Lt => if level == 3 {
            Some(BinOp::Lt)
        } else {
            None
        },
        Token::Le => if level == 3 {
            Some(BinOp::Le)
        } else {
            None
        },
        Token::Gt => if level == 3 {
            Some(BinOp::Gt)
        } else {
            None
        },
        Token::Ge => if level == 3 {
            Some(BinOp::Ge)
        } else {
            None
        },
        Token::Pipe => if level == 4 {
            Some(BinOp::BitOr)
        } else {
            None
        },
        Token::Caret => if level == 5 {
            Some(BinOp::BitXor)
        } else {
            None
        },
        Token::Ampersand => if level == 6 {
            Some(BinOp::BitAnd)
        } else {
            None
        },
        Token::Shl => if level == 7 {
            Some(BinOp::Shl)
        } else {
            None
        },
        Token::Shr => if level == 7 {
            Some(BinOp::Shr)
        } else {
            None
        },
        Token::Plus => if level == 8 {
            Some(BinOp::Add)
        } else {
            None
        },
        Token::Minus => if level == 8 {
            Some(BinOp::Sub)
        } else {
            None
        },
        Token::Star => if level == 9 {
            Some(BinOp::Mul)
        } else {
            None
        },
        Token::Slash => if level == 9 {
            Some(BinOp::Div)
        } else {
            None
        },
        Token::Percent => if level == 9 {
            Some(BinOp::Mod)
        } else {
            None
        },
        _ => None,
    }
}

fn find_simple_type(name: &str) -> (r: Option<Type>)
    ensures
        match r {
            Some(t) => simple_type(name@) == Some(t@),
            None => simple_type(name@) is None,
        },
{
    if text_eq(name, "i8") {
        Some(Type::I8)
    } else if text_eq(name, "i16") {
        Some(Type::I16)
    } else if text_eq(name, "i32") {
        Some(Type::I32)
    } else if text_eq(name, "i64") {
        Some(Type::I64)
    } else if text_eq(name, "u8") {
        Some(Type::U8)
    } else if text_eq(name, "u16") {
        Some(Type::U16)
    } else if text_eq(name, "u32") {
        Some(Type::U32)
    } else if text_eq(name, "u64") {
        Some(Type::U64)
    } else if text_eq(name, "f16") {
        Some(Type::F16)
    } else if text_eq(name, "bf16") {
        Some(Type::BF16)
    } else if text_eq(name, "f32") {
        Some(Type::F32)
    } else if text_eq(name, "f64") {
        Some(Type::F64)
    } else if text_eq(name, "bool") {
        Some(Type::Bool)
    } else if text_eq(name, "table_key") {
        Some(Type::TableKey)
    } else if text_eq(name, "table_keys") {
        Some(Type::TableKeys)
    } else if text_eq(name, "string") {
        Some(Type::String)
    } else if text_eq(name, "dArray") {
        Some(Type::DArray)
    } else if text_eq(name, "dTensor") {
        Some(Type::DTensor)
    } else if text_eq(name, "module") {
        Some(Type::Module(String::new()))
    } else {
        None
    }
}

impl Parser {
    pub open spec fn src(self) -> Source {
        Source { tokens: self.tokens@, strings: self.strings@ }
    }

    pub open spec fn wf(self) -> bool {
        &&& tokens_wf(self.tokens@, self.strings@.len())
        &&& self.at <= self.tokens@.len()
    }

    /// There is a token to look at.
    pub open spec fn ready(self) -> bool {
        self.wf() && self.at < self.tokens@.len()
    }

    /// The parser stands further on in the same tokens.
    pub open spec fn follows(self, other: Parser) -> bool {
        &&& self.wf()
        &&& self.tokens == other.tokens
        &&& self.strings == other.strings
        &&& other.at <= self.at
    }

    pub fn new(lexed: LexedTokens) -> (r: Self)
        ensures
            r.src() == (Source { tokens: lexed.tokens@, strings: lexed.strings@ }),
            r.at == 0,
    {
        Parser { tokens: lexed.tokens, strings: lexed.strings, at: 0 }
    }

    fn string(&self, id: StringId) -> (r: String)
        requires
            id.0 < self.strings@.len(),
        ensures
            r@ == self.strings@[id.0 as int],
    {
        self.strings.resolve(id).to_string()
    }

    fn peek(&self) -> (r: Token)
        requires
            self.ready(),
        ensures
            r == tok(self.src(), self.at as int),
            token_wf(r, self.strings@.len()),
            r != Token::Eof ==> self.at + 1 < self.tokens@.len(),
    {
        assert(token_wf(self.tokens@[self.at as int].kind, self.strings@.len()));
        self.tokens[self.at].kind
    }

    fn location(&self) -> (r: SourceLocation)
        requires
            self.wf(),
        ensures
            r == place(self.src(), self.at as int),
    {
        if self.at < self.tokens.len() {
            self.tokens[self.at].location
        } else if self.at > 0 {
            self.tokens[self.at - 1].location
        } else {
            SourceLocation { offset: 0, line: 1, column: 1 }
        }
    }

    fn next(&mut self) -> (r: Token)
        requires
            old(self).ready(),
        ensures
            r == tok(old(self).src(), old(self).at as int),
            token_wf(r, old(self).strings@.len()),
            final(self).follows(*old(self)),
            final(self).at == old(self).at + 1,
            r != Token::Eof ==> final(self).ready(),
    {
        let token = self.peek();
        assert(self.at < self.tokens.len());
        self.at += 1;
        token
    }

    /// The token as it is written in messages.
    fn show(&self, t: Token) -> (r: String)
        requires
            token_wf(t, self.strings@.len()),
        ensures
            r@ == token_text(self.strings@, t),
    {
        match t {
            Token::Ident(id) => cat3(
                "Ident(StringId(",
                decimal_text(id.0 as i128).as_str(),
                "))",
            ),
            Token::Integer(n) => cat3("Integer(", decimal_text(n).as_str(), ")"),
            Token::Float(id) => cat3("Float(", self.strings.resolve(id), ")"),
            Token::StringLit(id) => cat3(
                "StringLit(StringId(",
                decimal_text(id.0 as i128).as_str(),
                "))",
            ),
            Token::Let => "Let".to_string(),
            Token::Print => "Print".to_string(),
            Token::Printf => "Printf".to_string(),
            Token::Putc => "Putc".to_string(),
            Token::Input => "Input".to_string(),
            Token::This => "This".to_string(),
            Token::Function => "Function".to_string(),
            Token::Export => "Export".to_string(),
            Token::Require => "Require".to_string(),
            Token::If => "If".to_string(),
            Token::Then => "Then".to_string(),
            Token::Else => "Else".to_string(),
            Token::ElseIf => "ElseIf".to_string(),
            Token::While => "While".to_string(),
            Token::For => "For".to_string(),
            Token::Do => "Do".to_string(),
            Token::Break => "Break".to_string(),
            Token::Continue => "Continue".to_string(),
            Token::Struct => "Struct".to_string(),
            Token::Table => "Table".to_string(),
            Token::End => "End".to_string(),
            Token::As => "As".to_string(),
            Token::In => "In".to_string(),
            Token::Colon => "Colon".to_string(),
            Token::DoubleColon => "DoubleColon".to_string(),
            Token::Equal => "Equal".to_string(),
            Token::EqualEqual => "EqualEqual".to_string(),
            Token::Bang => "Bang".to_string(),
            Token::BangEq => "BangEq".to_string(),
            Token::Plus => "Plus".to_string(),
            Token::Minus => "Minus".to_string(),
            Token::Star => "Star".to_string(),
            Token::Slash => "Slash".to_string(),
            Token::Percent => "Percent".to_string(),
            Token::Ampersand => "Ampersand".to_string(),
            Token::Pipe => "Pipe".to_string(),
            Token::Caret => "Caret".to_string(),
            Token::Shl => "Shl".to_string(),
            Token::Shr => "Shr".to_string(),
            Token::AndAnd => "AndAnd".to_string(),
            Token::OrOr => "OrOr".to_string(),
            Token::Dot => "Dot".to_string(),
            Token::Lt => "Lt".to_string(),
            Token::Le => "Le".to_string(),
            Token::Gt => "Gt".to_string(),
            Token::Ge => "Ge".to_string(),
            Token::LParen => "LParen".to_string(),
            Token::RParen => "RParen".to_string(),
            Token::LBracket => "LBracket".to_string(),
            Token::RBracket => "RBracket".to_string(),
            Token::LBrace => "LBrace".to_string(),
            Token::RBrace => "RBrace".to_string(),
            Token::Comma => "Comma".to_string(),
            Token::Semi => "Semi".to_string(),
            Token::Eof => "Eof".to_string(),
        }
    }

    fn unexpected(&self, wanted: &str, t: Token) -> (r: Error)
        requires
            token_wf(t, self.strings@.len()),
        ensures
            r@ == unexpected(self.src(), wanted@, t),
    {
        Error::Parse(cat3(wanted, ", got ", self.show(t).as_str()))
    }

    fn need(&mut self, wanted: Token) -> (r: Result<(), Error>)
        requires
            old(self).ready(),
            token_wf(wanted, old(self).strings@.len()),
            wanted != Token::Eof,
        ensures
            final(self).follows(*old(self)),
            final(self).at == old(self).at + 1,
            match r {
                Ok(x) => need(old(self).src(), old(self).at as int, wanted) == (
                    Ok::<(), ErrorView>(()),
                    final(self).at as int,
                ) && final(self).ready(),
                Err(e) => need(old(self).src(), old(self).at as int, wanted) == (
                    Err::<(), ErrorView>(e@),
                    final(self).at as int,
                ),
            },
    {
        let got = self.next();
        if got == wanted {
            Ok(())
        } else {
            let text = cat2("expected ", self.show(wanted).as_str());
            Err(self.unexpected(text.as_str(), got))
        }
    }

    fn ident(&mut self, wanted: &str) -> (r: Result<StringId, Error>)
        requires
            old(self).ready(),
        ensures
            final(self).follows(*old(self)),
            final(self).at == old(self).at + 1,
            match r {
                Ok(x) => ident(old(self).src(), old(self).at as int, wanted@) == (
                    Ok::<StringId, ErrorView>(x),
                    final(self).at as int,
                ) && final(self).ready() && x.0 < final(self).strings@.len(),
                Err(e) => ident(old(self).src(), old(self).at as int, wanted@) == (
                    Err::<StringId, ErrorView>(e@),
                    final(self).at as int,
                ),
            },
    {
        match self.next() {
            Token::Ident(id) => Ok(id),
            t => Err(self.unexpected(wanted, t)),
        }
    }

    fn name(&mut self, wanted: &str) -> (r: Result<String, Error>)
        requires
            old(self).ready(),
        ensures
            final(self).follows(*old(self)),
            final(self).at == old(self).at + 1,
            match r {
                Ok(x) => name(old(self).src(), old(self).at as int, wanted@) == (
                    Ok::<Seq<char>, ErrorView>(x@),
                    final(self).at as int,
                ) && final(self).ready(),
                Err(e) => name(old(self).src(), old(self).at as int, wanted@) == (
                    Err::<Seq<char>, ErrorView>(e@),
                    final(self).at as int,
                ),
            },
    {
        let id = self.ident(wanted)?;
        Ok(self.string(id))
    }

    fn tensor_rank(&mut self) -> (r: Result<usize, Error>)
        requires
            old(self).ready(),
        ensures
            final(self).follows(*old(self)),
            match r {
                Ok(x) => gives(
                    tensor_rank(old(self).src(), old(self).at as int),
                    Ok::<usize, ErrorView>(x),
                    final(self).at as int,
                ) && moved(old(self).src(), old(self).at as int, final(self).at as int),
                Err(e) => gives(
                    tensor_rank(old(self).src(), old(self).at as int),
                    Err::<usize, ErrorView>(e@),
                    final(self).at as int,
                ),
            },
    {
        let t = self.next();
        match t {
            Token::Integer(rank) => if rank <= 0 {
                Err(self.unexpected("tensor rank must be a positive integer", t))
            } else if rank > usize::MAX as i128 {
                Err(Error::Parse("tensor rank is too large".to_string()))
            } else {
                Ok(rank as usize)
            },
            _ => Err(self.unexpected("tensor rank must be a positive integer", t)),
        }
    }

    fn bracketed_type(&mut self) -> (r: Result<Type, Error>)
        requires
            old(self).ready(),
        ensures
            final(self).follows(*old(self)),
            match r {
                Ok(x) => gives(
                    bracketed_type(old(self).src(), old(self).at as int),
                    Ok::<TypeView, ErrorView>(x@),
                    final(self).at as int,
                ) && moved(old(self).src(), old(self).at as int, final(self).at as int),
                Err(e) => gives(
                    bracketed_type(old(self).src(), old(self).at as int),
                    Err::<TypeView, ErrorView>(e@),
                    final(self).at as int,
                ),
            },
        decreases old(self).tokens@.len() - old(self).at, 1int,
    {
        self.need(Token::Lt)?;
        let inner = self.ty()?;
        self.need(Token::Gt)?;
        Ok(inner)
    }

    fn tensor_type(&mut self) -> (r: Result<Type, Error>)
        requires
            old(self).ready(),
        ensures
            final(self).follows(*old(self)),
            match r {
                Ok(x) => gives(
                    tensor_type(old(self).src(), old(self).at as int),
                    Ok::<TypeView, ErrorView>(x@),
                    final(self).at as int,
                ) && moved(old(self).src(), old(self).at as int, final(self).at as int),
                Err(e) => gives(
                    tensor_type(old(self).src(), old(self).at as int),
                    Err::<TypeView, ErrorView>(e@),
                    final(self).at as int,
                ),
            },
        decreases old(self).tokens@.len() - old(self).at, 1int,
    {
        self.need(Token::Lt)?;
        let inner = self.ty()?;
        self.need(Token::Comma)?;
        let rank: usize = self.tensor_rank()?;
        self.need(Token::Gt)?;
        let _size: usize = scalar_size(&inner)?;
        Ok(Type::Tensor(Box::new(inner), rank))
    }

    fn ty(&mut self) -> (r: Result<Type, Error>)
        requires
            old(self).ready(),
        ensures
            final(self).follows(*old(self)),
            match r {
                Ok(x) => gives(
                    parsed_type(old(self).src(), old(self).at as int),
                    Ok::<TypeView, ErrorView>(x@),
                    final(self).at as int,
                ) && moved(old(self).src(), old(self).at as int, final(self).at as int),
                Err(e) => gives(
                    parsed_type(old(self).src(), old(self).at as int),
                    Err::<TypeView, ErrorView>(e@),
                    final(self).at as int,
                ),
            },
        decreases old(self).tokens@.len() - old(self).at, 0int,
    {
        match self.next() {
            Token::Ident(id) => {
                let n = self.string(id);
                if let Some(t) = find_simple_type(n.as_str()) {
                    return Ok(t);
                }
                if text_eq(n.as_str(), "vector") {
                    let inner = self.bracketed_type()?;
                    return Ok(Type::Array(Box::new(inner)));
                }
                if text_eq(n.as_str(), "tensor") {
                    return self.tensor_type();
                }
                if self.peek() == Token::Dot {
                    let _dot = self.next();
                    let member = self.name("expected exported struct name")?;
                    return Ok(Type::Struct(cat3(n.as_str(), ".", member.as_str())));
                }
                Ok(Type::Struct(n))
            },
            Token::Table => {
                let inner = self.bracketed_type()?;
                Ok(Type::Table(Box::new(inner)))
            },
            Token::Struct => {
                let n = self.name("expected struct name")?;
                Ok(Type::Struct(n))
            },
            t => Err(self.unexpected("expected type", t)),
        }
    }

    fn expr(&mut self) -> (r: Result<Expr, Error>)
        requires
            old(self).ready(),
        ensures
            final(self).follows(*old(self)),
            match r {
                Ok(x) => gives(
                    expr(old(self).src(), old(self).at as int),
                    Ok::<ExprView, ErrorView>(x@),
                    final(self).at as int,
                ) && moved(old(self).src(), old(self).at as int, final(self).at as int),
                Err(e) => gives(
                    expr(old(self).src(), old(self).at as int),
                    Err::<ExprView, ErrorView>(e@),
                    final(self).at as int,
                ),
            },
        decreases old(self).tokens@.len() - old(self).at, 60int,
    {
        let location = self.location();
        match self.binary(0) {
            Ok(node) => Ok(Expr::Located { node: Box::new(node), location }),
            Err(e) => Err(e.at(location)),
        }
    }

    /// Operators of one level, from the loosest to the tightest.
    fn binary(&mut self, level: u8) -> (r: Result<Expr, Error>)
        requires
            old(self).ready(),
        ensures
            final(self).follows(*old(self)),
            match r {
                Ok(x) => gives(
                    binary(old(self).src(), old(self).at as int, level as int),
                    Ok::<ExprView, ErrorView>(x@),
                    final(self).at as int,
                ) && moved(old(self).src(), old(self).at as int, final(self).at as int),
                Err(e) => gives(
                    binary(old(self).src(), old(self).at as int, level as int),
                    Err::<ExprView, ErrorView>(e@),
                    final(self).at as int,
                ),
            },
        decreases old(self).tokens@.len() - old(self).at, (
            if 0 <= level < levels() { 50 - level } else { 40int }
        ),
    {
        if level >= 10 {
            return self.unary();
        }
        let ghost start = *self;
        let mut e = self.binary(level + 1)?;
        let mut op: Option<BinOp> = find_operator(level, self.peek());
        while op.is_some()
            invariant
                start == *old(self),
                start.ready(),
                level < 10,
                self.ready(),
                self.follows(start),
                start.at < self.at,
                op == operator(level as int, tok(self.src(), self.at as int)),
                same(
                    binary(start.src(), start.at as int, level as int),
                    binary_rest(self.src(), self.at as int, level as int, e@),
                ),
            decreases self.tokens@.len() - self.at,
        {
            let found = op.unwrap();
            let _operator = self.next();
            let right = self.binary(level + 1)?;
            e = Expr::Binary(Box::new(e), found, Box::new(right));
            op = find_operator(level, self.peek());
        }
        Ok(e)
    }

    fn unary(&mut self) -> (r: Result<Expr, Error>)
        requires
            old(self).ready(),
        ensures
            final(self).follows(*old(self)),
            match r {
                Ok(x) => gives(
                    unary(old(self).src(), old(self).at as int),
                    Ok::<ExprView, ErrorView>(x@),
                    final(self).at as int,
                ) && moved(old(self).src(), old(self).at as int, final(self).at as int),
                Err(e) => gives(
                    unary(old(self).src(), old(self).at as int),
                    Err::<ExprView, ErrorView>(e@),
                    final(self).at as int,
                ),
            },
        decreases old(self).tokens@.len() - old(self).at, 30int,
    {
        if self.peek() == Token::Minus {
            let _minus = self.next();
            let inner = self.unary()?;
            Ok(Expr::Unary(UnOp::Neg, Box::new(inner)))
        } else if self.peek() == Token::Bang {
            let _bang = self.next();
            let inner = self.unary()?;
            Ok(Expr::Unary(UnOp::Not, Box::new(inner)))
        } else {
            self.cast()
        }
    }

    fn cast(&mut self) -> (r: Result<Expr, Error>)
        requires
            old(self).ready(),
            tok(old(self).src(), old(self).at as int) != Token::Minus,
            tok(old(self).src(), old(self).at as int) != Token::Bang,
        ensures
            final(self).follows(*old(self)),
            match r {
                Ok(x) => gives(
                    unary(old(self).src(), old(self).at as int),
                    Ok::<ExprView, ErrorView>(x@),
                    final(self).at as int,
                ) && moved(old(self).src(), old(self).at as int, final(self).at as int),
                Err(e) => gives(
                    unary(old(self).src(), old(self).at as int),
                    Err::<ExprView, ErrorView>(e@),
                    final(self).at as int,
                ),
            },
        decreases old(self).tokens@.len() - old(self).at, 20int,
    {
        let ghost start = *self;
        let mut e = self.primary()?;
        while self.peek() == Token::As
            invariant
                start == *old(self),
                start.ready(),
                self.ready(),
                self.follows(start),
                start.at < self.at,
                same(
                    unary(start.src(), start.at as int),
                    casts(self.src(), self.at as int, e@),
                ),
            decreases self.tokens@.len() - self.at,
        {
            let _as = self.next();
            let ty = self.ty()?;
            e = Expr::Cast(Box::new(e), ty);
        }
        Ok(e)
    }

    fn primary(&mut self) -> (r: Result<Expr, Error>)
        requires
            old(self).ready(),
        ensures
            final(self).follows(*old(self)),
            match r {
                Ok(x) => gives(
                    primary(old(self).src(), old(self).at as int),
                    Ok::<ExprView, ErrorView>(x@),
                    final(self).at as int,
                ) && moved(old(self).src(), old(self).at as int, final(self).at as int),
                Err(e) => gives(
                    primary(old(self).src(), old(self).at as int),
                    Err::<ExprView, ErrorView>(e@),
                    final(self).at as int,
                ),
            },
        decreases old(self).tokens@.len() - old(self).at, 10int,
    {
        let ghost start = *self;
        let mut e = self.atom()?;
        let mut more: bool = true;
        while more
            invariant
                start == *old(self),
                start.ready(),
                self.ready(),
                self.follows(start),
                start.at < self.at,
                if more {
                    same(
                        primary(start.src(), start.at as int),
                        postfix(self.src(), self.at as int, e@),
                    )
                } else {
                    gives(
                        primary(start.src(), start.at as int),
                        Ok::<ExprView, ErrorView>(e@),
                        self.at as int,
                    )
                },
            decreases self.tokens@.len() - self.at, (if more { 1int } else { 0int }),
        {
            let t = self.peek();
            if t == Token::LBracket {
                let _bracket = self.next();
                let indices = self.indices()?;
                e = Expr::Index(Box::new(e), indices);
            } else if t == Token::Dot {
                let _dot = self.next();
                let field = self.name("expected field name")?;
                e = Expr::Field(Box::new(e), field);
            } else {
                more = false;
            }
        }
        Ok(e)
    }

    fn expr_list(&mut self) -> (r: Result<Vec<Expr>, Error>)
        requires
            old(self).ready(),
        ensures
            final(self).follows(*old(self)),
            match r {
                Ok(x) => gives(
                    expr_list(old(self).src(), old(self).at as int, Seq::empty()),
                    Ok::<Seq<ExprView>, ErrorView>(views(x@)),
                    final(self).at as int,
                ) && moved(old(self).src(), old(self).at as int, final(self).at as int),
                Err(e) => gives(
                    expr_list(old(self).src(), old(self).at as int, Seq::empty()),
                    Err::<Seq<ExprView>, ErrorView>(e@),
                    final(self).at as int,
                ),
            },
        decreases old(self).tokens@.len() - old(self).at, 70int,
    {
        let ghost start = *self;
        let mut items: Vec<Expr> = Vec::new();
        let mut more: bool = true;
        while more
            invariant
                start == *old(self),
                start.ready(),
                self.ready(),
                self.follows(start),
                !more ==> start.at < self.at,
                if more {
                    same(
                        expr_list(start.src(), start.at as int, Seq::empty()),
                        expr_list(self.src(), self.at as int, views(items@)),
                    )
                } else {
                    gives(
                        expr_list(start.src(), start.at as int, Seq::empty()),
                        Ok::<Seq<ExprView>, ErrorView>(views(items@)),
                        self.at as int,
                    )
                },
            decreases self.tokens@.len() - self.at, (if more { 1int } else { 0int }),
        {
            let item = self.expr()?;
            items.push(item);
            if self.peek() == Token::Comma {
                let _comma = self.next();
            } else {
                more = false;
            }
        }
        Ok(items)
    }

    fn indices(&mut self) -> (r: Result<Vec<Expr>, Error>)
        requires
            old(self).ready(),
        ensures
            final(self).follows(*old(self)),
            match r {
                Ok(x) => gives(
                    index_list(old(self).src(), old(self).at as int),
                    Ok::<Seq<ExprView>, ErrorView>(views(x@)),
                    final(self).at as int,
                ) && moved(old(self).src(), old(self).at as int, final(self).at as int),
                Err(e) => gives(
                    index_list(old(self).src(), old(self).at as int),
                    Err::<Seq<ExprView>, ErrorView>(e@),
                    final(self).at as int,
                ),
            },
        decreases old(self).tokens@.len() - old(self).at, 71int,
    {
        let items = self.expr_list()?;
        self.need(Token::RBracket)?;
        Ok(items)
    }

    fn closed_list(&mut self, close: Token) -> (r: Result<Vec<Expr>, Error>)
        requires
            old(self).ready(),
            close == Token::RParen || close == Token::RBracket,
        ensures
            final(self).follows(*old(self)),
            match r {
                Ok(x) => gives(
                    closed_list(old(self).src(), old(self).at as int, close),
                    Ok::<Seq<ExprView>, ErrorView>(views(x@)),
                    final(self).at as int,
                ) && moved(old(self).src(), old(self).at as int, final(self).at as int),
                Err(e) => gives(
                    closed_list(old(self).src(), old(self).at as int, close),
                    Err::<Seq<ExprView>, ErrorView>(e@),
                    final(self).at as int,
                ),
            },
        decreases old(self).tokens@.len() - old(self).at, 71int,
    {
        if self.peek() == close {
            let _close = self.next();
            return Ok(Vec::new());
        }
        let items = self.expr_list()?;
        self.need(close)?;
        Ok(items)
    }

    fn table_key(&mut self) -> (r: Result<TableLiteralKey, Error>)
        requires
            old(self).ready(),
        ensures
            final(self).follows(*old(self)),
            match r {
                Ok(x) => gives(
                    table_key(old(self).src(), old(self).at as int),
                    Ok::<KeyLiteralView, ErrorView>(x@),
                    final(self).at as int,
                ) && moved(old(self).src(), old(self).at as int, final(self).at as int),
                Err(e) => gives(
                    table_key(old(self).src(), old(self).at as int),
                    Err::<KeyLiteralView, ErrorView>(e@),
                    final(self).at as int,
                ),
            },
        decreases old(self).tokens@.len() - old(self).at, 71int,
    {
        if self.peek() == Token::LBracket {
            let _bracket = self.next();
            let index = self.expr()?;
            self.need(Token::RBracket)?;
            Ok(TableLiteralKey::Index(index))
        } else {
            let n = self.name("expected table key")?;
            Ok(TableLiteralKey::Name(n))
        }
    }

    fn table_entries(&mut self) -> (r: Result<Vec<(TableLiteralKey, Expr)>, Error>)
        requires
            old(self).ready(),
        ensures
            final(self).follows(*old(self)),
            match r {
                Ok(x) => gives(
                    table_entries(old(self).src(), old(self).at as int, Seq::empty()),
                    Ok::<Seq<(KeyLiteralView, ExprView)>, ErrorView>(views(x@)),
                    final(self).at as int,
                ) && moved(old(self).src(), old(self).at as int, final(self).at as int),
                Err(e) => gives(
                    table_entries(old(self).src(), old(self).at as int, Seq::empty()),
                    Err::<Seq<(KeyLiteralView, ExprView)>, ErrorView>(e@),
                    final(self).at as int,
                ),
            },
        decreases old(self).tokens@.len() - old(self).at, 72int,
    {
        let ghost start = *self;
        let mut entries: Vec<(TableLiteralKey, Expr)> = Vec::new();
        while self.peek() != Token::RBrace
            invariant
                start == *old(self),
                start.ready(),
                self.ready(),
                self.follows(start),
                same(
                    table_entries(start.src(), start.at as int, Seq::empty()),
                    table_entries(self.src(), self.at as int, views(entries@)),
                ),
            decreases self.tokens@.len() - self.at,
        {
            let key = self.table_key()?;
            self.need(Token::Equal)?;
            let value = self.expr()?;
            entries.push((key, value));
            let t = self.peek();
            if t == Token::Comma || t == Token::Semi {
                let _separator = self.next();
            }
        }
        let _brace = self.next();
        Ok(entries)
    }

    fn literal_fields(&mut self) -> (r: Result<Vec<(String, Expr)>, Error>)
        requires
            old(self).ready(),
        ensures
            final(self).follows(*old(self)),
            match r {
                Ok(x) => gives(
                    literal_fields(old(self).src(), old(self).at as int, Seq::empty()),
                    Ok::<Seq<(Seq<char>, ExprView)>, ErrorView>(views(x@)),
                    final(self).at as int,
                ) && moved(old(self).src(), old(self).at as int, final(self).at as int),
                Err(e) => gives(
                    literal_fields(old(self).src(), old(self).at as int, Seq::empty()),
                    Err::<Seq<(Seq<char>, ExprView)>, ErrorView>(e@),
                    final(self).at as int,
                ),
            },
        decreases old(self).tokens@.len() - old(self).at, 72int,
    {
        let ghost start = *self;
        let mut fields: Vec<(String, Expr)> = Vec::new();
        while self.peek() != Token::RBrace
            invariant
                start == *old(self),
                start.ready(),
                self.ready(),
                self.follows(start),
                same(
                    literal_fields(start.src(), start.at as int, Seq::empty()),
                    literal_fields(self.src(), self.at as int, views(fields@)),
                ),
            decreases self.tokens@.len() - self.at,
        {
            let field = self.name("expected field name")?;
            self.need(Token::Equal)?;
            let value = self.expr()?;
            fields.push((field, value));
            if self.peek() == Token::Comma {
                let _comma = self.next();
            }
        }
        let _brace = self.next();
        Ok(fields)
    }

    fn tensor_factory(&mut self, factory: String) -> (r: Result<Expr, Error>)
        requires
            old(self).ready(),
            tok(old(self).src(), old(self).at as int) == Token::Lt,
        ensures
            final(self).follows(*old(self)),
            match r {
                Ok(x) => gives(
                    tensor_factory(old(self).src(), old(self).at as int, factory@),
                    Ok::<ExprView, ErrorView>(x@),
                    final(self).at as int,
                ) && moved(old(self).src(), old(self).at as int, final(self).at as int),
                Err(e) => gives(
                    tensor_factory(old(self).src(), old(self).at as int, factory@),
                    Err::<ExprView, ErrorView>(e@),
                    final(self).at as int,
                ),
            },
        decreases old(self).tokens@.len() - old(self).at, 71int,
    {
        let _less = self.next();
        let element = self.ty()?;
        let _size: usize = scalar_size(&element)?;
        self.need(Token::Gt)?;
        self.need(Token::LParen)?;
        let shape = self.expr()?;
        self.need(Token::RParen)?;
        Ok(Expr::TensorFactory { name: factory, element, shape: Box::new(shape) })
    }

    fn qualified_literal(&self) -> (r: bool)
        requires
            self.ready(),
        ensures
            r == qualified_literal(self.src(), self.at as int),
    {
        if self.tokens.len() - self.at <= 2 {
            return false;
        }
        self.tokens[self.at].kind == Token::Dot && matches!(
            self.tokens[self.at + 1].kind,
            Token::Ident(_)
        ) && self.tokens[self.at + 2].kind == Token::LBrace
    }

    fn named(&mut self, id: StringId) -> (r: Result<Expr, Error>)
        requires
            old(self).ready(),
            id.0 < old(self).strings@.len(),
        ensures
            final(self).follows(*old(self)),
            match r {
                Ok(x) => gives(
                    named(old(self).src(), old(self).at as int, id),
                    Ok::<ExprView, ErrorView>(x@),
                    final(self).at as int,
                ) && old(self).at <= final(self).at < final(self).tokens@.len(),
                Err(e) => gives(
                    named(old(self).src(), old(self).at as int, id),
                    Err::<ExprView, ErrorView>(e@),
                    final(self).at as int,
                ),
            },
        decreases old(self).tokens@.len() - old(self).at, 73int,
    {
        let n = self.string(id);
        let mut struct_name = n.clone();
        if self.qualified_literal() {
            let _dot = self.next();
            if let Token::Ident(member) = self.next() {
                let text = self.string(member);
                struct_name = cat3(n.as_str(), ".", text.as_str());
            }
        }
        let t = self.peek();
        if t == Token::Lt && (text_eq(n.as_str(), "zeros") || text_eq(n.as_str(), "random")) {
            self.tensor_factory(n)
        } else if t == Token::LBrace {
            let _brace = self.next();
            let fields = self.literal_fields()?;
            Ok(Expr::StructLiteral(struct_name, fields))
        } else if t == Token::LParen {
            let _parenthesis = self.next();
            let args = self.closed_list(Token::RParen)?;
            Ok(Expr::Call(n, args))
        } else {
            Ok(Expr::Name(id))
        }
    }

    fn require_path(&mut self) -> (r: Result<Expr, Error>)
        requires
            old(self).ready(),
        ensures
            final(self).follows(*old(self)),
            match r {
                Ok(x) => gives(
                    require_path(old(self).src(), old(self).at as int),
                    Ok::<ExprView, ErrorView>(x@),
                    final(self).at as int,
                ) && moved(old(self).src(), old(self).at as int, final(self).at as int),
                Err(e) => gives(
                    require_path(old(self).src(), old(self).at as int),
                    Err::<ExprView, ErrorView>(e@),
                    final(self).at as int,
                ),
            },
    {
        self.need(Token::LParen)?;
        match self.next() {
            Token::StringLit(id) => {
                let path = self.string(id);
                self.need(Token::RParen)?;
                Ok(Expr::Require(path))
            },
            t => Err(self.unexpected("require expects a string literal", t)),
        }
    }

    fn atom(&mut self) -> (r: Result<Expr, Error>)
        requires
            old(self).ready(),
        ensures
            final(self).follows(*old(self)),
            match r {
                Ok(x) => gives(
                    atom(old(self).src(), old(self).at as int),
                    Ok::<ExprView, ErrorView>(x@),
                    final(self).at as int,
                ) && moved(old(self).src(), old(self).at as int, final(self).at as int),
                Err(e) => gives(
                    atom(old(self).src(), old(self).at as int),
                    Err::<ExprView, ErrorView>(e@),
                    final(self).at as int,
                ),
            },
        decreases old(self).tokens@.len() - old(self).at, 5int,
    {
        match self.next() {
            Token::Integer(n) => Ok(Expr::Integer(n)),
            Token::Float(id) => Ok(Expr::Float(id)),
            Token::StringLit(id) => Ok(Expr::String(id)),
            Token::Input => Ok(Expr::Input),
            Token::This => Ok(Expr::This),
            Token::DoubleColon => {
                let id = self.ident("expected global variable name after '::'")?;
                Ok(Expr::GlobalName(id))
            },
            Token::Require => self.require_path(),
            Token::Table => {
                self.need(Token::LBrace)?;
                let entries = self.table_entries()?;
                Ok(Expr::Table(entries))
            },
            Token::Ident(id) => self.named(id),
            Token::LParen => {
                let grouped = self.expr()?;
                self.need(Token::RParen)?;
                Ok(grouped)
            },
            Token::LBracket => {
                let items = self.closed_list(Token::RBracket)?;
                Ok(Expr::Array(items))
            },
            t => Err(self.unexpected("expected expression", t)),
        }
    }

    fn parameters(&mut self) -> (r: Result<Vec<(String, Type)>, Error>)
        requires
            old(self).ready(),
        ensures
            final(self).follows(*old(self)),
            match r {
                Ok(x) => gives(
                    parameters(old(self).src(), old(self).at as int, Seq::empty()),
                    Ok::<Seq<(Seq<char>, TypeView)>, ErrorView>(views(x@)),
                    final(self).at as int,
                ) && moved(old(self).src(), old(self).at as int, final(self).at as int),
                Err(e) => gives(
                    parameters(old(self).src(), old(self).at as int, Seq::empty()),
                    Err::<Seq<(Seq<char>, TypeView)>, ErrorView>(e@),
                    final(self).at as int,
                ),
            },
    {
        let ghost start = *self;
        let mut args: Vec<(String, Type)> = Vec::new();
        let mut more: bool = true;
        while more
            invariant
                start == *old(self),
                start.ready(),
                self.ready(),
                self.follows(start),
                !more ==> start.at < self.at,
                if more {
                    same(
                        parameters(start.src(), start.at as int, Seq::empty()),
                        parameters(self.src(), self.at as int, views(args@)),
                    )
                } else {
                    match need(self.src(), self.at as int, Token::RParen) {
                        (Err(e), d) => gives(
                            parameters(start.src(), start.at as int, Seq::empty()),
                            Err::<Seq<(Seq<char>, TypeView)>, ErrorView>(e),
                            d,
                        ),
                        (Ok(_), d) => gives(
                            parameters(start.src(), start.at as int, Seq::empty()),
                            Ok::<Seq<(Seq<char>, TypeView)>, ErrorView>(views(args@)),
                            d,
                        ),
                    }
                },
            decreases self.tokens@.len() - self.at, (if more { 1int } else { 0int }),
        {
            let n = self.name("expected argument name")?;
            self.need(Token::Colon)?;
            let ty = self.ty()?;
            args.push((n, ty));
            if self.peek() == Token::Comma {
                let _comma = self.next();
            } else {
                more = false;
            }
        }
        self.need(Token::RParen)?;
        Ok(args)
    }

    fn parameter_list(&mut self) -> (r: Result<Vec<(String, Type)>, Error>)
        requires
            old(self).ready(),
        ensures
            final(self).follows(*old(self)),
            match r {
                Ok(x) => gives(
                    parameter_list(old(self).src(), old(self).at as int),
                    Ok::<Seq<(Seq<char>, TypeView)>, ErrorView>(views(x@)),
                    final(self).at as int,
                ) && moved(old(self).src(), old(self).at as int, final(self).at as int),
                Err(e) => gives(
                    parameter_list(old(self).src(), old(self).at as int),
                    Err::<Seq<(Seq<char>, TypeView)>, ErrorView>(e@),
                    final(self).at as int,
                ),
            },
    {
        self.need(Token::LParen)?;
        if self.peek() == Token::RParen {
            let _close = self.next();
            return Ok(Vec::new());
        }
        self.parameters()
    }

    fn declaration(&mut self) -> (r: Result<(StringId, Type, Expr), Error>)
        requires
            old(self).ready(),
        ensures
            final(self).follows(*old(self)),
            match r {
                Ok(x) => gives(
                    declaration(old(self).src(), old(self).at as int),
                    Ok::<(StringId, TypeView, ExprView), ErrorView>((x.0, x.1@, x.2@)),
                    final(self).at as int,
                ) && moved(old(self).src(), old(self).at as int, final(self).at as int),
                Err(e) => gives(
                    declaration(old(self).src(), old(self).at as int),
                    Err::<(StringId, TypeView, ExprView), ErrorView>(e@),
                    final(self).at as int,
                ),
            },
    {
        let id = self.ident("expected name")?;
        self.need(Token::Colon)?;
        let ty = self.ty()?;
        self.need(Token::Equal)?;
        let value = self.expr()?;
        Ok((id, ty, value))
    }

    fn at_block_end(&self) -> (r: bool)
        requires
            self.ready(),
        ensures
            r == ends_block(tok(self.src(), self.at as int)),
    {
        matches!(self.peek(), Token::Eof | Token::Else | Token::ElseIf | Token::End)
    }

    fn block(&mut self) -> (r: Result<Vec<Statement>, Error>)
        requires
            old(self).ready(),
        ensures
            final(self).follows(*old(self)),
            match r {
                Ok(x) => gives(
                    block(old(self).src(), old(self).at as int, Seq::empty()),
                    Ok::<Seq<StatementView>, ErrorView>(views(x@)),
                    final(self).at as int,
                ) && old(self).at <= final(self).at < final(self).tokens@.len(),
                Err(e) => gives(
                    block(old(self).src(), old(self).at as int, Seq::empty()),
                    Err::<Seq<StatementView>, ErrorView>(e@),
                    final(self).at as int,
                ),
            },
        decreases old(self).tokens@.len() - old(self).at, 100int,
    {
        let ghost start = *self;
        let mut statements: Vec<Statement> = Vec::new();
        while !self.at_block_end()
            invariant
                start == *old(self),
                start.ready(),
                self.ready(),
                self.follows(start),
                same(
                    block(start.src(), start.at as int, Seq::empty()),
                    block(self.src(), self.at as int, views(statements@)),
                ),
            decreases self.tokens@.len() - self.at,
        {
            let s = self.statement()?;
            statements.push(s);
            if self.peek() == Token::Semi {
                let _semicolon = self.next();
            }
        }
        Ok(statements)
    }

    fn body(&mut self) -> (r: Result<Vec<Statement>, Error>)
        requires
            old(self).ready(),
        ensures
            final(self).follows(*old(self)),
            match r {
                Ok(x) => gives(
                    body(old(self).src(), old(self).at as int),
                    Ok::<Seq<StatementView>, ErrorView>(views(x@)),
                    final(self).at as int,
                ) && moved(old(self).src(), old(self).at as int, final(self).at as int),
                Err(e) => gives(
                    body(old(self).src(), old(self).at as int),
                    Err::<Seq<StatementView>, ErrorView>(e@),
                    final(self).at as int,
                ),
            },
        decreases old(self).tokens@.len() - old(self).at, 101int,
    {
        let statements = self.block()?;
        self.need(Token::End)?;
        Ok(statements)
    }

    fn parse_else_if_chain(&mut self) -> (r: Result<Vec<Statement>, Error>)
        requires
            old(self).ready(),
        ensures
            final(self).follows(*old(self)),
            match r {
                Ok(x) => gives(
                    else_chain(old(self).src(), old(self).at as int),
                    Ok::<Seq<StatementView>, ErrorView>(views(x@)),
                    final(self).at as int,
                ) && moved(old(self).src(), old(self).at as int, final(self).at as int),
                Err(e) => gives(
                    else_chain(old(self).src(), old(self).at as int),
                    Err::<Seq<StatementView>, ErrorView>(e@),
                    final(self).at as int,
                ),
            },
        decreases old(self).tokens@.len() - old(self).at, 102int,
    {
        let t = self.peek();
        if t == Token::ElseIf {
            let location = self.location();
            let _elseif = self.next();
            let condition = self.expr()?;
            self.need(Token::Then)?;
            let then_body = self.block()?;
            let else_body = self.parse_else_if_chain()?;
            let branch = Statement::If { condition, then_body, else_body };
            let ghost shown = branch@;
            let nested = Statement::Located { node: Box::new(branch), location };
            assert(same(nested@, (StatementView::Located { node: Box::new(shown), location })));
            let mut statements: Vec<Statement> = Vec::new();
            statements.push(nested);
            assert(views(statements@) =~= seq![nested@]);
            Ok(statements)
        } else if t == Token::Else {
            let _else = self.next();
            self.body()
        } else {
            self.need(Token::End)?;
            Ok(Vec::new())
        }
    }

    fn optional_body(&mut self) -> (r: Result<Option<Vec<Statement>>, Error>)
        requires
            old(self).ready(),
        ensures
            final(self).follows(*old(self)),
            match r {
                Ok(x) => gives(
                    optional_body(old(self).src(), old(self).at as int),
                    Ok::<Option<Seq<StatementView>>, ErrorView>(
                        match x { Some(b) => Some(views(b@)), None => None }
                    ),
                    final(self).at as int,
                ) && old(self).at <= final(self).at < final(self).tokens@.len(),
                Err(e) => gives(
                    optional_body(old(self).src(), old(self).at as int),
                    Err::<Option<Seq<StatementView>>, ErrorView>(e@),
                    final(self).at as int,
                ),
            },
        decreases old(self).tokens@.len() - old(self).at, 102int,
    {
        let t = self.peek();
        if t == Token::End {
            let _end = self.next();
            Ok(None)
        } else if t == Token::RBrace {
            Ok(None)
        } else {
            let statements = self.body()?;
            Ok(Some(statements))
        }
    }

    fn member_method(&mut self) -> (r: Result<StructMethod, Error>)
        requires
            old(self).ready(),
        ensures
            final(self).follows(*old(self)),
            match r {
                Ok(x) => gives(
                    member_method(old(self).src(), old(self).at as int),
                    Ok::<MethodView, ErrorView>(x@),
                    final(self).at as int,
                ) && moved(old(self).src(), old(self).at as int, final(self).at as int),
                Err(e) => gives(
                    member_method(old(self).src(), old(self).at as int),
                    Err::<MethodView, ErrorView>(e@),
                    final(self).at as int,
                ),
            },
        decreases old(self).tokens@.len() - old(self).at, 103int,
    {
        let n = self.name("expected method name")?;
        let args = self.parameter_list()?;
        let body = self.optional_body()?;
        Ok(StructMethod { name: n, args, body })
    }

    fn members(&mut self) -> (r: Result<(Vec<(String, Type)>, Vec<StructMethod>), Error>)
        requires
            old(self).ready(),
        ensures
            final(self).follows(*old(self)),
            match r {
                Ok(x) => gives(
                    members(old(self).src(), old(self).at as int, Seq::empty(), Seq::empty()),
                    Ok::<(
                        Seq<(Seq<char>, TypeView)>,
                        Seq<MethodView>,
                    ), ErrorView>((views(x.0@), views(x.1@))),
                    final(self).at as int,
                ) && moved(old(self).src(), old(self).at as int, final(self).at as int),
                Err(e) => gives(
                    members(old(self).src(), old(self).at as int, Seq::empty(), Seq::empty()),
                    Err::<(Seq<(Seq<char>, TypeView)>, Seq<MethodView>), ErrorView>(e@),
                    final(self).at as int,
                ),
            },
        decreases old(self).tokens@.len() - old(self).at, 104int,
    {
        let ghost start = *self;
        let mut fields: Vec<(String, Type)> = Vec::new();
        let mut methods: Vec<StructMethod> = Vec::new();
        while self.peek() != Token::RBrace
            invariant
                start == *old(self),
                start.ready(),
                self.ready(),
                self.follows(start),
                same(
                    members(start.src(), start.at as int, Seq::empty(), Seq::empty()),
                    members(self.src(), self.at as int, views(fields@), views(methods@)),
                ),
            decreases self.tokens@.len() - self.at,
        {
            match self.next() {
                Token::Ident(id) => {
                    self.need(Token::Colon)?;
                    let ty = self.ty()?;
                    fields.push((self.string(id), ty));
                    let t = self.peek();
                    if t == Token::Semi || t == Token::Comma {
                        let _separator = self.next();
                    }
                },
                Token::Function => {
                    let method = self.member_method()?;
                    methods.push(method);
                },
                t => {
                    return Err(self.unexpected("expected field or method", t));
                },
            }
        }
        let _brace = self.next();
        Ok((fields, methods))
    }

    fn struct_declaration(&mut self) -> (r: Result<
        (String, Vec<(String, Type)>, Vec<StructMethod>),
        Error,
    >)
        requires
            old(self).ready(),
        ensures
            final(self).follows(*old(self)),
            match r {
                Ok(x) => gives(
                    struct_declaration(old(self).src(), old(self).at as int),
                    Ok::<(
                        Seq<char>,
                        Seq<(Seq<char>, TypeView)>,
                        Seq<MethodView>,
                    ), ErrorView>((x.0@, views(x.1@), views(x.2@))),
                    final(self).at as int,
                ) && moved(old(self).src(), old(self).at as int, final(self).at as int),
                Err(e) => gives(
                    struct_declaration(old(self).src(), old(self).at as int),
                    Err::<(Seq<char>, Seq<(Seq<char>, TypeView)>, Seq<MethodView>), ErrorView>(e@),
                    final(self).at as int,
                ),
            },
        decreases old(self).tokens@.len() - old(self).at, 105int,
    {
        let n = self.name("expected struct name")?;
        self.need(Token::LBrace)?;
        let (fields, methods) = self.members()?;
        Ok((n, fields, methods))
    }

    fn maybe_parenthesized(&mut self) -> (r: Result<Expr, Error>)
        requires
            old(self).ready(),
        ensures
            final(self).follows(*old(self)),
            match r {
                Ok(x) => gives(
                    maybe_parenthesized(old(self).src(), old(self).at as int),
                    Ok::<ExprView, ErrorView>(x@),
                    final(self).at as int,
                ) && moved(old(self).src(), old(self).at as int, final(self).at as int),
                Err(e) => gives(
                    maybe_parenthesized(old(self).src(), old(self).at as int),
                    Err::<ExprView, ErrorView>(e@),
                    final(self).at as int,
                ),
            },
    {
        if self.peek() == Token::LParen {
            let _open = self.next();
            let inner = self.expr()?;
            self.need(Token::RParen)?;
            Ok(inner)
        } else {
            self.expr()
        }
    }

    fn more_arguments(&mut self) -> (r: Result<Vec<Expr>, Error>)
        requires
            old(self).ready(),
        ensures
            final(self).follows(*old(self)),
            match r {
                Ok(x) => gives(
                    more_arguments(old(self).src(), old(self).at as int, Seq::empty()),
                    Ok::<Seq<ExprView>, ErrorView>(views(x@)),
                    final(self).at as int,
                ) && old(self).at <= final(self).at < final(self).tokens@.len(),
                Err(e) => gives(
                    more_arguments(old(self).src(), old(self).at as int, Seq::empty()),
                    Err::<Seq<ExprView>, ErrorView>(e@),
                    final(self).at as int,
                ),
            },
    {
        let ghost start = *self;
        let mut args: Vec<Expr> = Vec::new();
        while self.peek() == Token::Comma
            invariant
                start == *old(self),
                start.ready(),
                self.ready(),
                self.follows(start),
                same(
                    more_arguments(start.src(), start.at as int, Seq::empty()),
                    more_arguments(self.src(), self.at as int, views(args@)),
                ),
            decreases self.tokens@.len() - self.at,
        {
            let _comma = self.next();
            let item = self.expr()?;
            args.push(item);
        }
        Ok(args)
    }

    fn printf(&mut self) -> (r: Result<Statement, Error>)
        requires
            old(self).ready(),
        ensures
            final(self).follows(*old(self)),
            match r {
                Ok(x) => gives(
                    printf(old(self).src(), old(self).at as int),
                    Ok::<StatementView, ErrorView>(x@),
                    final(self).at as int,
                ) && moved(old(self).src(), old(self).at as int, final(self).at as int),
                Err(e) => gives(
                    printf(old(self).src(), old(self).at as int),
                    Err::<StatementView, ErrorView>(e@),
                    final(self).at as int,
                ),
            },
    {
        let parenthesized: bool = self.peek() == Token::LParen;
        if parenthesized {
            let _open = self.next();
        }
        let format = self.expr()?;
        let args = self.more_arguments()?;
        if parenthesized {
            self.need(Token::RParen)?;
        }
        Ok(Statement::Printf { format, args })
    }

    fn method_definition(&mut self) -> (r: Result<Statement, Error>)
        requires
            old(self).ready(),
        ensures
            final(self).follows(*old(self)),
            match r {
                Ok(x) => gives(
                    method_definition(old(self).src(), old(self).at as int),
                    Ok::<StatementView, ErrorView>(x@),
                    final(self).at as int,
                ) && moved(old(self).src(), old(self).at as int, final(self).at as int),
                Err(e) => gives(
                    method_definition(old(self).src(), old(self).at as int),
                    Err::<StatementView, ErrorView>(e@),
                    final(self).at as int,
                ),
            },
        decreases old(self).tokens@.len() - old(self).at, 103int,
    {
        let struct_name = self.name("expected struct name")?;
        self.need(Token::DoubleColon)?;
        let method = self.name("expected method name")?;
        let args = self.parameter_list()?;
        let body = self.body()?;
        Ok(Statement::MethodDefinition { struct_name, method, args, body })
    }

    fn exported_function(&mut self) -> (r: Result<Statement, Error>)
        requires
            old(self).ready(),
        ensures
            final(self).follows(*old(self)),
            match r {
                Ok(x) => gives(
                    exported_function(old(self).src(), old(self).at as int),
                    Ok::<StatementView, ErrorView>(x@),
                    final(self).at as int,
                ) && moved(old(self).src(), old(self).at as int, final(self).at as int),
                Err(e) => gives(
                    exported_function(old(self).src(), old(self).at as int),
                    Err::<StatementView, ErrorView>(e@),
                    final(self).at as int,
                ),
            },
        decreases old(self).tokens@.len() - old(self).at, 103int,
    {
        let n = self.name("expected exported function name")?;
        self.need(Token::LParen)?;
        self.need(Token::RParen)?;
        let body = self.body()?;
        Ok(Statement::ExportFunction { name: n, body })
    }

    fn exported(&mut self) -> (r: Result<Statement, Error>)
        requires
            old(self).ready(),
        ensures
            final(self).follows(*old(self)),
            match r {
                Ok(x) => gives(
                    exported(old(self).src(), old(self).at as int),
                    Ok::<StatementView, ErrorView>(x@),
                    final(self).at as int,
                ) && moved(old(self).src(), old(self).at as int, final(self).at as int),
                Err(e) => gives(
                    exported(old(self).src(), old(self).at as int),
                    Err::<StatementView, ErrorView>(e@),
                    final(self).at as int,
                ),
            },
        decreases old(self).tokens@.len() - old(self).at, 106int,
    {
        match self.next() {
            Token::Let => {
                let (name, ty, expr) = self.declaration()?;
                Ok(Statement::ExportLet { name, ty, expr })
            },
            Token::Struct => {
                let (name, fields, methods) = self.struct_declaration()?;
                Ok(Statement::ExportStruct { name, fields, methods })
            },
            Token::Function => self.exported_function(),
            t => Err(self.unexpected("expected let, struct, or function after export", t)),
        }
    }

    fn if_statement(&mut self) -> (r: Result<Statement, Error>)
        requires
            old(self).ready(),
        ensures
            final(self).follows(*old(self)),
            match r {
                Ok(x) => gives(
                    if_statement(old(self).src(), old(self).at as int),
                    Ok::<StatementView, ErrorView>(x@),
                    final(self).at as int,
                ) && moved(old(self).src(), old(self).at as int, final(self).at as int),
                Err(e) => gives(
                    if_statement(old(self).src(), old(self).at as int),
                    Err::<StatementView, ErrorView>(e@),
                    final(self).at as int,
                ),
            },
        decreases old(self).tokens@.len() - old(self).at, 103int,
    {
        let condition = self.expr()?;
        self.need(Token::Then)?;
        let then_body = self.block()?;
        let else_body = self.parse_else_if_chain()?;
        Ok(Statement::If { condition, then_body, else_body })
    }

    fn loop_body(&mut self) -> (r: Result<Vec<Statement>, Error>)
        requires
            old(self).ready(),
        ensures
            final(self).follows(*old(self)),
            match r {
                Ok(x) => gives(
                    loop_body(old(self).src(), old(self).at as int),
                    Ok::<Seq<StatementView>, ErrorView>(views(x@)),
                    final(self).at as int,
                ) && moved(old(self).src(), old(self).at as int, final(self).at as int),
                Err(e) => gives(
                    loop_body(old(self).src(), old(self).at as int),
                    Err::<Seq<StatementView>, ErrorView>(e@),
                    final(self).at as int,
                ),
            },
        decreases old(self).tokens@.len() - old(self).at, 102int,
    {
        self.need(Token::Do)?;
        self.body()
    }

    fn while_statement(&mut self) -> (r: Result<Statement, Error>)
        requires
            old(self).ready(),
        ensures
            final(self).follows(*old(self)),
            match r {
                Ok(x) => gives(
                    while_statement(old(self).src(), old(self).at as int),
                    Ok::<StatementView, ErrorView>(x@),
                    final(self).at as int,
                ) && moved(old(self).src(), old(self).at as int, final(self).at as int),
                Err(e) => gives(
                    while_statement(old(self).src(), old(self).at as int),
                    Err::<StatementView, ErrorView>(e@),
                    final(self).at as int,
                ),
            },
        decreases old(self).tokens@.len() - old(self).at, 103int,
    {
        let condition = self.expr()?;
        let body = self.loop_body()?;
        Ok(Statement::While { condition, body })
    }

    fn for_range(&mut self, n: String) -> (r: Result<Statement, Error>)
        requires
            old(self).ready(),
        ensures
            final(self).follows(*old(self)),
            match r {
                Ok(x) => gives(
                    for_range(old(self).src(), old(self).at as int, n@),
                    Ok::<StatementView, ErrorView>(x@),
                    final(self).at as int,
                ) && moved(old(self).src(), old(self).at as int, final(self).at as int),
                Err(e) => gives(
                    for_range(old(self).src(), old(self).at as int, n@),
                    Err::<StatementView, ErrorView>(e@),
                    final(self).at as int,
                ),
            },
        decreases old(self).tokens@.len() - old(self).at, 103int,
    {
        let start = self.expr()?;
        self.need(Token::Comma)?;
        let end = self.expr()?;
        let body = self.loop_body()?;
        Ok(Statement::For { name: n, start, end, body })
    }

    fn for_each(&mut self, n: String) -> (r: Result<Statement, Error>)
        requires
            old(self).ready(),
        ensures
            final(self).follows(*old(self)),
            match r {
                Ok(x) => gives(
                    for_each(old(self).src(), old(self).at as int, n@),
                    Ok::<StatementView, ErrorView>(x@),
                    final(self).at as int,
                ) && moved(old(self).src(), old(self).at as int, final(self).at as int),
                Err(e) => gives(
                    for_each(old(self).src(), old(self).at as int, n@),
                    Err::<StatementView, ErrorView>(e@),
                    final(self).at as int,
                ),
            },
        decreases old(self).tokens@.len() - old(self).at, 103int,
    {
        let iterable = self.expr()?;
        let body = self.loop_body()?;
        Ok(Statement::ForIn { name: n, iterable, body })
    }

    fn for_statement(&mut self) -> (r: Result<Statement, Error>)
        requires
            old(self).ready(),
        ensures
            final(self).follows(*old(self)),
            match r {
                Ok(x) => gives(
                    for_statement(old(self).src(), old(self).at as int),
                    Ok::<StatementView, ErrorView>(x@),
                    final(self).at as int,
                ) && moved(old(self).src(), old(self).at as int, final(self).at as int),
                Err(e) => gives(
                    for_statement(old(self).src(), old(self).at as int),
                    Err::<StatementView, ErrorView>(e@),
                    final(self).at as int,
                ),
            },
        decreases old(self).tokens@.len() - old(self).at, 104int,
    {
        let n = self.name("expected loop variable")?;
        let t = self.peek();
        if t == Token::Equal {
            let _equal = self.next();
            self.for_range(n)
        } else if t == Token::In {
            let _in = self.next();
            self.for_each(n)
        } else {
            Err(self.unexpected("expected '=' or 'in' after loop variable", t))
        }
    }

    fn call_on_this(&mut self) -> (r: Result<Statement, Error>)
        requires
            old(self).ready(),
        ensures
            final(self).follows(*old(self)),
            match r {
                Ok(x) => gives(
                    call_on_this(old(self).src(), old(self).at as int),
                    Ok::<StatementView, ErrorView>(x@),
                    final(self).at as int,
                ) && moved(old(self).src(), old(self).at as int, final(self).at as int),
                Err(e) => gives(
                    call_on_this(old(self).src(), old(self).at as int),
                    Err::<StatementView, ErrorView>(e@),
                    final(self).at as int,
                ),
            },
    {
        self.need(Token::Dot)?;
        let method = self.name("expected method name")?;
        self.need(Token::LParen)?;
        self.need(Token::RParen)?;
        Ok(Statement::CallMethod { receiver: MethodReceiver::This, method })
    }

    fn global_assignment(&mut self) -> (r: Result<Statement, Error>)
        requires
            old(self).ready(),
        ensures
            final(self).follows(*old(self)),
            match r {
                Ok(x) => gives(
                    global_assignment(old(self).src(), old(self).at as int),
                    Ok::<StatementView, ErrorView>(x@),
                    final(self).at as int,
                ) && moved(old(self).src(), old(self).at as int, final(self).at as int),
                Err(e) => gives(
                    global_assignment(old(self).src(), old(self).at as int),
                    Err::<StatementView, ErrorView>(e@),
                    final(self).at as int,
                ),
            },
    {
        let n = self.name("expected global variable name after '::'")?;
        self.need(Token::Equal)?;
        let value = self.expr()?;
        Ok(Statement::GlobalAssign { name: n, expr: value })
    }

    fn field_index_assignment(&mut self, n: String, field: String) -> (r: Result<Statement, Error>)
        requires
            old(self).ready(),
        ensures
            final(self).follows(*old(self)),
            match r {
                Ok(x) => gives(
                    field_index_assignment(old(self).src(), old(self).at as int, n@, field@),
                    Ok::<StatementView, ErrorView>(x@),
                    final(self).at as int,
                ) && moved(old(self).src(), old(self).at as int, final(self).at as int),
                Err(e) => gives(
                    field_index_assignment(old(self).src(), old(self).at as int, n@, field@),
                    Err::<StatementView, ErrorView>(e@),
                    final(self).at as int,
                ),
            },
    {
        let index = self.expr()?;
        self.need(Token::RBracket)?;
        self.need(Token::Equal)?;
        let value = self.expr()?;
        Ok(Statement::SetFieldIndex { name: n, field, index, expr: value })
    }

    fn member_statement(&mut self, n: String) -> (r: Result<Statement, Error>)
        requires
            old(self).ready(),
        ensures
            final(self).follows(*old(self)),
            match r {
                Ok(x) => gives(
                    member_statement(old(self).src(), old(self).at as int, n@),
                    Ok::<StatementView, ErrorView>(x@),
                    final(self).at as int,
                ) && moved(old(self).src(), old(self).at as int, final(self).at as int),
                Err(e) => gives(
                    member_statement(old(self).src(), old(self).at as int, n@),
                    Err::<StatementView, ErrorView>(e@),
                    final(self).at as int,
                ),
            },
    {
        let field = self.name("expected field or method name")?;
        match self.next() {
            Token::Equal => {
                let value = self.expr()?;
                Ok(Statement::SetField { name: n, field, expr: value })
            },
            Token::LBracket => self.field_index_assignment(n, field),
            Token::LParen => {
                self.need(Token::RParen)?;
                Ok(Statement::CallMethod { receiver: MethodReceiver::Name(n), method: field })
            },
            t => Err(self.unexpected("expected '=', '[', or '('", t)),
        }
    }

    fn name_statement(&mut self, n: String) -> (r: Result<Statement, Error>)
        requires
            old(self).ready(),
        ensures
            final(self).follows(*old(self)),
            match r {
                Ok(x) => gives(
                    name_statement(old(self).src(), old(self).at as int, n@),
                    Ok::<StatementView, ErrorView>(x@),
                    final(self).at as int,
                ) && moved(old(self).src(), old(self).at as int, final(self).at as int),
                Err(e) => gives(
                    name_statement(old(self).src(), old(self).at as int, n@),
                    Err::<StatementView, ErrorView>(e@),
                    final(self).at as int,
                ),
            },
    {
        match self.next() {
            Token::Equal => {
                let value = self.expr()?;
                Ok(Statement::Assign { name: n, expr: value })
            },
            Token::LBracket => {
                let indices = self.indices()?;
                self.need(Token::Equal)?;
                let value = self.expr()?;
                Ok(Statement::SetIndex { name: n, indices, expr: value })
            },
            Token::Dot => self.member_statement(n),
            t => Err(self.unexpected("expected '=', '[' or '.'", t)),
        }
    }

    fn statement_inner(&mut self) -> (r: Result<Statement, Error>)
        requires
            old(self).ready(),
        ensures
            final(self).follows(*old(self)),
            match r {
                Ok(x) => gives(
                    statement_inner(old(self).src(), old(self).at as int),
                    Ok::<StatementView, ErrorView>(x@),
                    final(self).at as int,
                ) && moved(old(self).src(), old(self).at as int, final(self).at as int),
                Err(e) => gives(
                    statement_inner(old(self).src(), old(self).at as int),
                    Err::<StatementView, ErrorView>(e@),
                    final(self).at as int,
                ),
            },
        decreases old(self).tokens@.len() - old(self).at, 80int,
    {
        match self.next() {
            Token::Struct => {
                let (name, fields, methods) = self.struct_declaration()?;
                Ok(Statement::Struct { name, fields, methods })
            },
            Token::Export => self.exported(),
            Token::Function => self.method_definition(),
            Token::Let => {
                let (name, ty, expr) = self.declaration()?;
                Ok(Statement::Let { name, ty, expr })
            },
            Token::Print => {
                let value = self.maybe_parenthesized()?;
                Ok(Statement::Print(value))
            },
            Token::Printf => self.printf(),
            Token::Putc => {
                let value = self.maybe_parenthesized()?;
                Ok(Statement::Putc(value))
            },
            Token::If => self.if_statement(),
            Token::While => self.while_statement(),
            Token::For => self.for_statement(),
            Token::Break => Ok(Statement::Break),
            Token::Continue => Ok(Statement::Continue),
            Token::This => self.call_on_this(),
            Token::DoubleColon => self.global_assignment(),
            Token::Ident(id) => {
                let n = self.string(id);
                self.name_statement(n)
            },
            t => Err(self.unexpected("expected statement", t)),
        }
    }

    fn statement(&mut self) -> (r: Result<Statement, Error>)
        requires
            old(self).ready(),
        ensures
            final(self).follows(*old(self)),
            match r {
                Ok(x) => gives(
                    statement(old(self).src(), old(self).at as int),
                    Ok::<StatementView, ErrorView>(x@),
                    final(self).at as int,
                ) && moved(old(self).src(), old(self).at as int, final(self).at as int),
                Err(e) => gives(
                    statement(old(self).src(), old(self).at as int),
                    Err::<StatementView, ErrorView>(e@),
                    final(self).at as int,
                ),
            },
        decreases old(self).tokens@.len() - old(self).at, 90int,
    {
        let location = self.location();
        match self.statement_inner() {
            Ok(node) => Ok(Statement::Located { node: Box::new(node), location }),
            Err(e) => Err(e.at(location)),
        }
    }

    /// Reads statements up to the first token that ends a block.
    pub fn program(&mut self) -> (r: Result<Vec<Statement>, Error>)
        requires
            old(self).ready(),
        ensures
            final(self).follows(*old(self)),
            match (r, block(old(self).src(), old(self).at as int, Seq::empty())) {
                (Ok(x), (Ok(statements), a)) => views(x@) == statements && final(self).at == a,
                (Err(e), (Err(inner), a)) => e@ == crate::types::error_at(
                    inner,
                    place(old(self).src(), a),
                ) && final(self).at == a,
                _ => false,
            },
    {
        match self.block() {
            Ok(statements) => Ok(statements),
            Err(e) => {
                let location = self.location();
                Err(e.at(location))
            },
        }
    }

    /// The whole program and the texts that it refers to.
    pub fn into_program(self) -> (r: Result<(Vec<Statement>, StringInterner), Error>)
        requires
            self.ready(),
            self.at == 0,
        ensures
            match r {
                Ok((statements, strings)) => program(self.src()) == Ok::<
                    Seq<StatementView>,
                    ErrorView,
                >(views(statements@)) && strings@ == self.strings@,
                Err(e) => program(self.src()) == Err::<Seq<StatementView>, ErrorView>(e@),
            },
    {
        let mut parser = self;
        match parser.program() {
            Ok(statements) => Ok((statements, parser.strings)),
            Err(e) => Err(e),
        }
    }

}

} // verus!
