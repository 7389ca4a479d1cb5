//! The grammar: what a sequence of tokens denotes.
use vstd::prelude::*;
use crate::ast::{ExprView, KeyLiteralView, MethodView, ReceiverView, StatementView};
use crate::lexer::{SpannedToken, StringId, Token};
use crate::ops::{BinOp, UnOp};
use crate::text::decimal;
use crate::types::{ErrorView, SourceLocation, TypeView, error_at, scalar_size_of};

verus! {

/// Tokens and the texts that they refer to.
pub struct Source {
    pub tokens: Seq<SpannedToken>,
    pub strings: Seq<Seq<char>>,
}

/// How a token is written in messages.
pub open spec fn token_text(strings: Seq<Seq<char>>, t: Token) -> Seq<char> {
    match t {
        Token::Ident(id) => "Ident(StringId("@ + decimal(id.0 as int) + "))"@,
        Token::Integer(n) => "Integer("@ + decimal(n as int) + ")"@,
        Token::Float(id) => "Float("@ + strings[id.0 as int] + ")"@,
        Token::StringLit(id) => "StringLit(StringId("@ + decimal(id.0 as int) + "))"@,
        Token::Let => "Let"@,
        Token::Print => "Print"@,
        Token::Printf => "Printf"@,
        Token::Putc => "Putc"@,
        Token::Input => "Input"@,
        Token::This => "This"@,
        Token::Function => "Function"@,
        Token::Export => "Export"@,
        Token::Require => "Require"@,
        Token::If => "If"@,
        Token::Then => "Then"@,
        Token::Else => "Else"@,
        Token::ElseIf => "ElseIf"@,
        Token::While => "While"@,
        Token::For => "For"@,
        Token::Do => "Do"@,
        Token::Break => "Break"@,
        Token::Continue => "Continue"@,
        Token::Struct => "Struct"@,
        Token::Table => "Table"@,
        Token::End => "End"@,
        Token::As => "As"@,
        Token::In => "In"@,
        Token::Colon => "Colon"@,
        Token::DoubleColon => "DoubleColon"@,
        Token::Equal => "Equal"@,
        Token::EqualEqual => "EqualEqual"@,
        Token::Bang => "Bang"@,
        Token::BangEq => "BangEq"@,
        Token::Plus => "Plus"@,
        Token::Minus => "Minus"@,
        Token::Star => "Star"@,
        Token::Slash => "Slash"@,
        Token::Percent => "Percent"@,
        Token::Ampersand => "Ampersand"@,
        Token::Pipe => "Pipe"@,
        Token::Caret => "Caret"@,
        Token::Shl => "Shl"@,
        Token::Shr => "Shr"@,
        Token::AndAnd => "AndAnd"@,
        Token::OrOr => "OrOr"@,
        Token::Dot => "Dot"@,
        Token::Lt => "Lt"@,
        Token::Le => "Le"@,
        Token::Gt => "Gt"@,
        Token::Ge => "Ge"@,
        Token::LParen => "LParen"@,
        Token::RParen => "RParen"@,
        Token::LBracket => "LBracket"@,
        Token::RBracket => "RBracket"@,
        Token::LBrace => "LBrace"@,
        Token::RBrace => "RBrace"@,
        Token::Comma => "Comma"@,
        Token::Semi => "Semi"@,
        Token::Eof => "Eof"@,
    }
}

pub open spec fn tok(src: Source, at: int) -> Token {
    src.tokens[at].kind
}

/// Where the parser stands: at the next token, or at the last one when none is left.
pub open spec fn place(src: Source, at: int) -> SourceLocation {
    if 0 <= at < src.tokens.len() {
        src.tokens[at].location
    } else if 0 < at <= src.tokens.len() {
        src.tokens[at - 1].location
    } else {
        SourceLocation { offset: 0, line: 1, column: 1 }
    }
}

/// The error for a token other than what was wanted.
pub open spec fn unexpected(src: Source, wanted: Seq<char>, t: Token) -> ErrorView {
    ErrorView::Parse(wanted + ", got "@ + token_text(src.strings, t))
}

/// The outcome of a rule: what it denotes, and the position after it.
pub type Parsed<T> = (Result<T, ErrorView>, int);

/// Whether a rule gives a result and a position.
pub open spec fn gives<T>(p: Parsed<T>, result: Result<T, ErrorView>, at: int) -> bool {
    p.0 == result && p.1 == at
}

/// Whether a rule moved forward and left a token to look at.
pub open spec fn moved(src: Source, from: int, to: int) -> bool {
    from < to < src.tokens.len()
}

/// The outcome of a rule that did not move forward; no rule does that.
pub open spec fn stuck<T>(at: int) -> Parsed<T> {
    (Err(ErrorView::Parse(Seq::empty())), at)
}

/// One given token.
pub open spec fn need(src: Source, at: int, wanted: Token) -> Parsed<()> {
    if tok(src, at) == wanted {
        (Ok(()), at + 1)
    } else {
        (
            Err(
                unexpected(src, "expected "@ + token_text(src.strings, wanted), tok(src, at)),
            ),
            at + 1,
        )
    }
}

/// An identifier.
pub open spec fn ident(src: Source, at: int, wanted: Seq<char>) -> Parsed<StringId> {
    match tok(src, at) {
        Token::Ident(id) => (Ok(id), at + 1),
        t => (Err(unexpected(src, wanted, t)), at + 1),
    }
}

/// An identifier's text.
pub open spec fn name(src: Source, at: int, wanted: Seq<char>) -> Parsed<Seq<char>> {
    match ident(src, at, wanted) {
        (Ok(id), a) => (Ok(src.strings[id.0 as int]), a),
        (Err(e), a) => (Err(e), a),
    }
}

/// The types that are one word.
pub open spec fn simple_type(name: Seq<char>) -> Option<TypeView> {
    if name == "i8"@ {
        Some(TypeView::I8)
    } else if name == "i16"@ {
        Some(TypeView::I16)
    } else if name == "i32"@ {
        Some(TypeView::I32)
    } else if name == "i64"@ {
        Some(TypeView::I64)
    } else if name == "u8"@ {
        Some(TypeView::U8)
    } else if name == "u16"@ {
        Some(TypeView::U16)
    } else if name == "u32"@ {
        Some(TypeView::U32)
    } else if name == "u64"@ {
        Some(TypeView::U64)
    } else if name == "f16"@ {
        Some(TypeView::F16)
    } else if name == "bf16"@ {
        Some(TypeView::BF16)
    } else if name == "f32"@ {
        Some(TypeView::F32)
    } else if name == "f64"@ {
        Some(TypeView::F64)
    } else if name == "bool"@ {
        Some(TypeView::Bool)
    } else if name == "table_key"@ {
        Some(TypeView::TableKey)
    } else if name == "table_keys"@ {
        Some(TypeView::TableKeys)
    } else if name == "string"@ {
        Some(TypeView::String)
    } else if name == "dArray"@ {
        Some(TypeView::DArray)
    } else if name == "dTensor"@ {
        Some(TypeView::DTensor)
    } else if name == "module"@ {
        Some(TypeView::Module(Seq::empty()))
    } else {
        None
    }
}

/// The rank of a tensor type.
pub open spec fn tensor_rank(src: Source, at: int) -> Parsed<usize> {
    match tok(src, at) {
        Token::Integer(rank) => if rank <= 0 {
            (
                Err(
                    unexpected(src, "tensor rank must be a positive integer"@, tok(src, at)),
                ),
                at + 1,
            )
        } else if rank > usize::MAX {
            (Err(ErrorView::Parse("tensor rank is too large"@)), at + 1)
        } else {
            (Ok(rank as usize), at + 1)
        },
        t => (Err(unexpected(src, "tensor rank must be a positive integer"@, t)), at + 1),
    }
}

/// `<T>`
pub open spec fn bracketed_type(src: Source, at: int) -> Parsed<TypeView>
    decreases src.tokens.len() - at, 1int,
{
    if at >= src.tokens.len() {
        stuck(at)
    } else {
        match need(src, at, Token::Lt) {
            (Err(e), a) => (Err(e), a),
            (Ok(_), a) => match parsed_type(src, a) {
                (Err(e), b) => (Err(e), b),
                (Ok(inner), b) => match need(src, b, Token::Gt) {
                    (Err(e), c) => (Err(e), c),
                    (Ok(_), c) => (Ok(inner), c),
                },
            },
        }
    }
}

/// `<T, N>`
pub open spec fn tensor_type(src: Source, at: int) -> Parsed<TypeView>
    decreases src.tokens.len() - at, 1int,
{
    if at >= src.tokens.len() {
        stuck(at)
    } else {
        match need(src, at, Token::Lt) {
            (Err(e), a) => (Err(e), a),
            (Ok(_), a) => match parsed_type(src, a) {
                (Err(e), b) => (Err(e), b),
                (Ok(inner), b) => match need(src, b, Token::Comma) {
                    (Err(e), c) => (Err(e), c),
                    (Ok(_), c) => match tensor_rank(src, c) {
                        (Err(e), d) => (Err(e), d),
                        (Ok(rank), d) => match need(src, d, Token::Gt) {
                            (Err(e), f) => (Err(e), f),
                            (Ok(_), f) => match scalar_size_of(inner) {
                                Err(e) => (Err(e), f),
                                Ok(_) => (Ok(TypeView::Tensor(Box::new(inner), rank)), f),
                            },
                        },
                    },
                },
            },
        }
    }
}

/// A type.
pub open spec fn parsed_type(src: Source, at: int) -> Parsed<TypeView>
    decreases src.tokens.len() - at, 0int,
{
    if at >= src.tokens.len() {
        stuck(at)
    } else {
        match tok(src, at) {
            Token::Ident(id) => {
                let n = src.strings[id.0 as int];
                match simple_type(n) {
                    Some(t) => (Ok(t), at + 1),
                    None => if n == "vector"@ {
                        match bracketed_type(src, at + 1) {
                            (Err(e), a) => (Err(e), a),
                            (Ok(inner), a) => (Ok(TypeView::Array(Box::new(inner))), a),
                        }
                    } else if n == "tensor"@ {
                        tensor_type(src, at + 1)
                    } else if tok(src, at + 1) == Token::Dot {
                        match name(src, at + 2, "expected exported struct name"@) {
                            (Err(e), a) => (Err(e), a),
                            (Ok(member), a) => (Ok(TypeView::Struct(n + "."@ + member)), a),
                        }
                    } else {
                        (Ok(TypeView::Struct(n)), at + 1)
                    },
                }
            },
            Token::Table => match bracketed_type(src, at + 1) {
                (Err(e), a) => (Err(e), a),
                (Ok(inner), a) => (Ok(TypeView::Table(Box::new(inner))), a),
            },
            Token::Struct => match name(src, at + 1, "expected struct name"@) {
                (Err(e), a) => (Err(e), a),
                (Ok(n), a) => (Ok(TypeView::Struct(n)), a),
            },
            t => (Err(unexpected(src, "expected type"@, t)), at + 1),
        }
    }
}

/// The number of levels of binary operators.
pub open spec fn levels() -> int {
    10
}

/// The binary operator of a level that a token is; a higher level binds tighter.
pub open spec fn operator(level: int, t: Token) -> Option<BinOp> {
    match t {
        Token::OrOr => if level == 0 {
            Some(BinOp::Or)
        } else {
            None
        },
        Token::AndAnd => if level == 1 {
            Some(BinOp::And)
        } else {
            None
        },
        Token::EqualEqual => if level == 2 {
            Some(BinOp::Eq)
        } else {
            None
        },
        Token::BangEq => if level == 2 {
            Some(BinOp::Neq)
        } else {
            None
        },
        Token::Lt => if level == 3 {
            Some(BinOp::Lt)
        } else {
            None
        },
        Token::Le => if level == 3 {
            Some(BinOp::Le)
        } else {
            None
        },
        Token::Gt => if level == 3 {
            Some(BinOp::Gt)
        } else {
            None
        },
        Token::Ge => if level == 3 {
            Some(BinOp::Ge)
        } else {
            None
        },
        Token::Pipe => if level == 4 {
            Some(BinOp::BitOr)
        } else {
            None
        },
        Token::Caret => if level == 5 {
            Some(BinOp::BitXor)
        } else {
            None
        },
        Token::Ampersand => if level == 6 {
            Some(BinOp::BitAnd)
        } else {
            None
        },
        Token::Shl => if level == 7 {
            Some(BinOp::Shl)
        } else {
            None
        },
        Token::Shr => if level == 7 {
            Some(BinOp::Shr)
        } else {
            None
        },
        Token::Plus => if level == 8 {
            Some(BinOp::Add)
        } else {
            None
        },
        Token::Minus => if level == 8 {
            Some(BinOp::Sub)
        } else {
            None
        },
        Token::Star => if level == 9 {
            Some(BinOp::Mul)
        } else {
            None
        },
        Token::Slash => if level == 9 {
            Some(BinOp::Div)
        } else {
            None
        },
        Token::Percent => if level == 9 {
            Some(BinOp::Mod)
        } else {
            None
        },
        _ => None,
    }
}

/// An expression, with its location.
pub open spec fn expr(src: Source, at: int) -> Parsed<ExprView>
    decreases src.tokens.len() - at, 60int,
{
    let location = place(src, at);
    match binary(src, at, 0) {
        (Err(e), a) => (Err(error_at(e, location)), a),
        (Ok(node), a) => (Ok(ExprView::Located { node: Box::new(node), location }), a),
    }
}

/// Operators of one level, left to right.
pub open spec fn binary(src: Source, at: int, level: int) -> Parsed<ExprView>
    decreases src.tokens.len() - at, (if 0 <= level < levels() { 50 - level } else { 40int }),
{
    if level < 0 || level >= levels() {
        unary(src, at)
    } else {
        match binary(src, at, level + 1) {
            (Err(e), a) => (Err(e), a),
            (Ok(left), a) => if moved(src, at, a) {
                binary_rest(src, a, level, left)
            } else {
                stuck(a)
            },
        }
    }
}

/// The operators and operands that follow the first operand.
pub open spec fn binary_rest(src: Source, at: int, level: int, left: ExprView) -> Parsed<ExprView>
    decreases src.tokens.len() - at, 51int,
{
    if at >= src.tokens.len() || level < 0 || level >= levels() {
        stuck(at)
    } else {
        match operator(level, tok(src, at)) {
            None => (Ok(left), at),
            Some(op) => match binary(src, at + 1, level + 1) {
                (Err(e), a) => (Err(e), a),
                (Ok(right), a) => if moved(src, at, a) {
                    binary_rest(
                        src,
                        a,
                        level,
                        ExprView::Binary(Box::new(left), op, Box::new(right)),
                    )
                } else {
                    stuck(a)
                },
            },
        }
    }
}

/// Prefix operators.
pub open spec fn unary(src: Source, at: int) -> Parsed<ExprView>
    decreases src.tokens.len() - at, 30int,
{
    if at >= src.tokens.len() {
        stuck(at)
    } else if tok(src, at) == Token::Minus {
        match unary(src, at + 1) {
            (Err(e), a) => (Err(e), a),
            (Ok(inner), a) => (Ok(ExprView::Unary(UnOp::Neg, Box::new(inner))), a),
        }
    } else if tok(src, at) == Token::Bang {
        match unary(src, at + 1) {
            (Err(e), a) => (Err(e), a),
            (Ok(inner), a) => (Ok(ExprView::Unary(UnOp::Not, Box::new(inner))), a),
        }
    } else {
        match primary(src, at) {
            (Err(e), a) => (Err(e), a),
            (Ok(inner), a) => casts(src, a, inner),
        }
    }
}

/// The casts that follow an expression.
pub open spec fn casts(src: Source, at: int, inner: ExprView) -> Parsed<ExprView>
    decreases src.tokens.len() - at,
{
    if at >= src.tokens.len() {
        stuck(at)
    } else if tok(src, at) == Token::As {
        match parsed_type(src, at + 1) {
            (Err(e), a) => (Err(e), a),
            (Ok(ty), a) => if moved(src, at, a) {
                casts(src, a, ExprView::Cast(Box::new(inner), ty))
            } else {
                stuck(a)
            },
        }
    } else {
        (Ok(inner), at)
    }
}

/// An operand with its indices and fields.
pub open spec fn primary(src: Source, at: int) -> Parsed<ExprView>
    decreases src.tokens.len() - at, 10int,
{
    match atom(src, at) {
        (Err(e), a) => (Err(e), a),
        (Ok(inner), a) => if moved(src, at, a) {
            postfix(src, a, inner)
        } else {
            stuck(a)
        },
    }
}

/// The indices and fields that follow an operand.
pub open spec fn postfix(src: Source, at: int, inner: ExprView) -> Parsed<ExprView>
    decreases src.tokens.len() - at, 9int,
{
    if at >= src.tokens.len() {
        stuck(at)
    } else if tok(src, at) == Token::LBracket {
        match index_list(src, at + 1) {
            (Err(e), a) => (Err(e), a),
            (Ok(indices), a) => if moved(src, at, a) {
                postfix(src, a, ExprView::Index(Box::new(inner), indices))
            } else {
                stuck(a)
            },
        }
    } else if tok(src, at) == Token::Dot {
        match name(src, at + 1, "expected field name"@) {
            (Err(e), a) => (Err(e), a),
            (Ok(field), a) => if moved(src, at, a) {
                postfix(src, a, ExprView::Field(Box::new(inner), field))
            } else {
                stuck(a)
            },
        }
    } else {
        (Ok(inner), at)
    }
}

/// One or more expressions, with commas between them, after those already read.
pub open spec fn expr_list(src: Source, at: int, read: Seq<ExprView>) -> Parsed<Seq<ExprView>>
    decreases src.tokens.len() - at, 70int,
{
    match expr(src, at) {
        (Err(e), a) => (Err(e), a),
        (Ok(item), a) => if !moved(src, at, a) {
            stuck(a)
        } else if tok(src, a) == Token::Comma {
            expr_list(src, a + 1, read.push(item))
        } else {
            (Ok(read.push(item)), a)
        },
    }
}

/// Indices up to the closing bracket.
pub open spec fn index_list(src: Source, at: int) -> Parsed<Seq<ExprView>>
    decreases src.tokens.len() - at, 71int,
{
    match expr_list(src, at, Seq::empty()) {
        (Err(e), a) => (Err(e), a),
        (Ok(items), a) => match need(src, a, Token::RBracket) {
            (Err(e), b) => (Err(e), b),
            (Ok(_), b) => (Ok(items), b),
        },
    }
}

/// Possibly no expressions, up to a closing token.
pub open spec fn closed_list(src: Source, at: int, close: Token) -> Parsed<Seq<ExprView>>
    decreases src.tokens.len() - at, 71int,
{
    if at >= src.tokens.len() {
        stuck(at)
    } else if tok(src, at) == close {
        (Ok(Seq::empty()), at + 1)
    } else {
        match expr_list(src, at, Seq::empty()) {
            (Err(e), a) => (Err(e), a),
            (Ok(items), a) => match need(src, a, close) {
                (Err(e), b) => (Err(e), b),
                (Ok(_), b) => (Ok(items), b),
            },
        }
    }
}

/// The key of a table literal's entry.
pub open spec fn table_key(src: Source, at: int) -> Parsed<KeyLiteralView>
    decreases src.tokens.len() - at, 71int,
{
    if at >= src.tokens.len() {
        stuck(at)
    } else if tok(src, at) == Token::LBracket {
        match expr(src, at + 1) {
            (Err(e), a) => (Err(e), a),
            (Ok(index), a) => match need(src, a, Token::RBracket) {
                (Err(e), b) => (Err(e), b),
                (Ok(_), b) => (Ok(KeyLiteralView::Index(index)), b),
            },
        }
    } else {
        match name(src, at, "expected table key"@) {
            (Err(e), a) => (Err(e), a),
            (Ok(n), a) => (Ok(KeyLiteralView::Name(n)), a),
        }
    }
}

/// The entries of a table literal up to the closing brace, after those already read.
pub open spec fn table_entries(
    src: Source,
    at: int,
    read: Seq<(KeyLiteralView, ExprView)>,
) -> Parsed<Seq<(KeyLiteralView, ExprView)>>
    decreases src.tokens.len() - at, 72int,
{
    if at >= src.tokens.len() {
        stuck(at)
    } else if tok(src, at) == Token::RBrace {
        (Ok(read), at + 1)
    } else {
        match table_key(src, at) {
            (Err(e), a) => (Err(e), a),
            (Ok(key), a) => if !moved(src, at, a) {
                stuck(a)
            } else {
                match need(src, a, Token::Equal) {
                    (Err(e), b) => (Err(e), b),
                    (Ok(_), b) => match expr(src, b) {
                        (Err(e), c) => (Err(e), c),
                        (Ok(value), c) => if !moved(src, at, c) {
                            stuck(c)
                        } else if tok(src, c) == Token::Comma || tok(src, c) == Token::Semi {
                            table_entries(src, c + 1, read.push((key, value)))
                        } else {
                            table_entries(src, c, read.push((key, value)))
                        },
                    },
                }
            },
        }
    }
}

/// The fields of a struct literal up to the closing brace, after those already read.
pub open spec fn literal_fields(
    src: Source,
    at: int,
    read: Seq<(Seq<char>, ExprView)>,
) -> Parsed<Seq<(Seq<char>, ExprView)>>
    decreases src.tokens.len() - at, 72int,
{
    if at >= src.tokens.len() {
        stuck(at)
    } else if tok(src, at) == Token::RBrace {
        (Ok(read), at + 1)
    } else {
        match name(src, at, "expected field name"@) {
            (Err(e), a) => (Err(e), a),
            (Ok(field), a) => if !moved(src, at, a) {
                stuck(a)
            } else {
                match need(src, a, Token::Equal) {
                    (Err(e), b) => (Err(e), b),
                    (Ok(_), b) => match expr(src, b) {
                        (Err(e), c) => (Err(e), c),
                        (Ok(value), c) => if !moved(src, at, c) {
                            stuck(c)
                        } else if tok(src, c) == Token::Comma {
                            literal_fields(src, c + 1, read.push((field, value)))
                        } else {
                            literal_fields(src, c, read.push((field, value)))
                        },
                    },
                }
            },
        }
    }
}

/// `<T>(shape)` of a tensor factory.
pub open spec fn tensor_factory(src: Source, at: int, factory: Seq<char>) -> Parsed<ExprView>
    decreases src.tokens.len() - at, 71int,
{
    if at >= src.tokens.len() {
        stuck(at)
    } else {
        match parsed_type(src, at + 1) {
            (Err(e), a) => (Err(e), a),
            (Ok(element), a) => match scalar_size_of(element) {
                Err(e) => (Err(e), a),
                Ok(_) => match need(src, a, Token::Gt) {
                    (Err(e), b) => (Err(e), b),
                    (Ok(_), b) => match need(src, b, Token::LParen) {
                        (Err(e), c) => (Err(e), c),
                        (Ok(_), c) => if !(at < c <= src.tokens.len()) {
                            stuck(c)
                        } else {
                            match expr(src, c) {
                                (Err(e), d) => (Err(e), d),
                                (Ok(shape), d) => match need(src, d, Token::RParen) {
                                    (Err(e), f) => (Err(e), f),
                                    (Ok(_), f) => (
                                        Ok(
                                            ExprView::TensorFactory {
                                                name: factory,
                                                element,
                                                shape: Box::new(shape),
                                            },
                                        ),
                                        f,
                                    ),
                                },
                            }
                        },
                    },
                },
            },
        }
    }
}

/// Whether `.name {` follows: the literal of an imported struct.
pub open spec fn qualified_literal(src: Source, at: int) -> bool {
    &&& at + 2 < src.tokens.len()
    &&& tok(src, at) == Token::Dot
    &&& tok(src, at + 1) is Ident
    &&& tok(src, at + 2) == Token::LBrace
}

/// What begins with the identifier before `at`.
pub open spec fn named(src: Source, at: int, id: StringId) -> Parsed<ExprView>
    decreases src.tokens.len() - at, 73int,
{
    let n = src.strings[id.0 as int];
    let qualified = qualified_literal(src, at);
    let here = if qualified {
        at + 2
    } else {
        at
    };
    let struct_name = if qualified {
        n + "."@ + src.strings[tok(src, at + 1)->Ident_0.0 as int]
    } else {
        n
    };
    if here >= src.tokens.len() {
        stuck(here)
    } else if tok(src, here) == Token::Lt && (n == "zeros"@ || n == "random"@) {
        tensor_factory(src, here, n)
    } else if tok(src, here) == Token::LBrace {
        match literal_fields(src, here + 1, Seq::empty()) {
            (Err(e), a) => (Err(e), a),
            (Ok(fields), a) => (Ok(ExprView::StructLiteral(struct_name, fields)), a),
        }
    } else if tok(src, here) == Token::LParen {
        match closed_list(src, here + 1, Token::RParen) {
            (Err(e), a) => (Err(e), a),
            (Ok(args), a) => (Ok(ExprView::Call(n, args)), a),
        }
    } else {
        (Ok(ExprView::Name(id)), here)
    }
}

/// `("path")` of a module import.
pub open spec fn require_path(src: Source, at: int) -> Parsed<ExprView> {
    match need(src, at, Token::LParen) {
        (Err(e), a) => (Err(e), a),
        (Ok(_), a) => match tok(src, a) {
            Token::StringLit(id) => match need(src, a + 1, Token::RParen) {
                (Err(e), b) => (Err(e), b),
                (Ok(_), b) => (Ok(ExprView::Require(src.strings[id.0 as int])), b),
            },
            t => (Err(unexpected(src, "require expects a string literal"@, t)), a + 1),
        },
    }
}

/// An operand without what may follow it.
pub open spec fn atom(src: Source, at: int) -> Parsed<ExprView>
    decreases src.tokens.len() - at, 5int,
{
    if at >= src.tokens.len() {
        stuck(at)
    } else {
        match tok(src, at) {
            Token::Integer(n) => (Ok(ExprView::Integer(n)), at + 1),
            Token::Float(id) => (Ok(ExprView::Float(id)), at + 1),
            Token::StringLit(id) => (Ok(ExprView::String(id)), at + 1),
            Token::Input => (Ok(ExprView::Input), at + 1),
            Token::This => (Ok(ExprView::This), at + 1),
            Token::DoubleColon => match ident(
                src,
                at + 1,
                "expected global variable name after '::'"@,
            ) {
                (Err(e), a) => (Err(e), a),
                (Ok(id), a) => (Ok(ExprView::GlobalName(id)), a),
            },
            Token::Require => require_path(src, at + 1),
            Token::Table => match need(src, at + 1, Token::LBrace) {
                (Err(e), a) => (Err(e), a),
                (Ok(_), a) => if a > src.tokens.len() {
                    stuck(a)
                } else {
                    match table_entries(src, a, Seq::empty()) {
                        (Err(e), b) => (Err(e), b),
                        (Ok(entries), b) => (Ok(ExprView::Table(entries)), b),
                    }
                },
            },
            Token::Ident(id) => named(src, at + 1, id),
            Token::LParen => match expr(src, at + 1) {
                (Err(e), a) => (Err(e), a),
                (Ok(grouped), a) => match need(src, a, Token::RParen) {
                    (Err(e), b) => (Err(e), b),
                    (Ok(_), b) => (Ok(grouped), b),
                },
            },
            Token::LBracket => match closed_list(src, at + 1, Token::RBracket) {
                (Err(e), a) => (Err(e), a),
                (Ok(items), a) => (Ok(ExprView::Array(items)), a),
            },
            t => (Err(unexpected(src, "expected expression"@, t)), at + 1),
        }
    }
}

/// The parameters of a method up to the closing parenthesis, after those already read.
pub open spec fn parameters(
    src: Source,
    at: int,
    read: Seq<(Seq<char>, TypeView)>,
) -> Parsed<Seq<(Seq<char>, TypeView)>>
    decreases src.tokens.len() - at,
{
    if at >= src.tokens.len() {
        stuck(at)
    } else {
        match name(src, at, "expected argument name"@) {
            (Err(e), a) => (Err(e), a),
            (Ok(n), a) => match need(src, a, Token::Colon) {
                (Err(e), b) => (Err(e), b),
                (Ok(_), b) => match parsed_type(src, b) {
                    (Err(e), c) => (Err(e), c),
                    (Ok(ty), c) => if !moved(src, at, c) {
                        stuck(c)
                    } else if tok(src, c) == Token::Comma {
                        parameters(src, c + 1, read.push((n, ty)))
                    } else {
                        match need(src, c, Token::RParen) {
                            (Err(e), d) => (Err(e), d),
                            (Ok(_), d) => (Ok(read.push((n, ty))), d),
                        }
                    },
                },
            },
        }
    }
}

/// `(a: T, b: U)`
pub open spec fn parameter_list(src: Source, at: int) -> Parsed<Seq<(Seq<char>, TypeView)>> {
    match need(src, at, Token::LParen) {
        (Err(e), a) => (Err(e), a),
        (Ok(_), a) => if tok(src, a) == Token::RParen {
            (Ok(Seq::empty()), a + 1)
        } else {
            parameters(src, a, Seq::empty())
        },
    }
}

/// `name: T = value`
pub open spec fn declaration(src: Source, at: int) -> Parsed<(StringId, TypeView, ExprView)> {
    match ident(src, at, "expected name"@) {
        (Err(e), a) => (Err(e), a),
        (Ok(id), a) => match need(src, a, Token::Colon) {
            (Err(e), b) => (Err(e), b),
            (Ok(_), b) => match parsed_type(src, b) {
                (Err(e), c) => (Err(e), c),
                (Ok(ty), c) => match need(src, c, Token::Equal) {
                    (Err(e), d) => (Err(e), d),
                    (Ok(_), d) => match expr(src, d) {
                        (Err(e), f) => (Err(e), f),
                        (Ok(value), f) => (Ok((id, ty, value)), f),
                    },
                },
            },
        },
    }
}

/// Whether a token ends a block.
pub open spec fn ends_block(t: Token) -> bool {
    t == Token::Eof || t == Token::Else || t == Token::ElseIf || t == Token::End
}

/// Statements up to a token that ends a block, after those already read.
pub open spec fn block(src: Source, at: int, read: Seq<StatementView>) -> Parsed<Seq<StatementView>>
    decreases src.tokens.len() - at, 100int,
{
    if at >= src.tokens.len() {
        stuck(at)
    } else if ends_block(tok(src, at)) {
        (Ok(read), at)
    } else {
        match statement(src, at) {
            (Err(e), a) => (Err(e), a),
            (Ok(s), a) => if !moved(src, at, a) {
                stuck(a)
            } else if tok(src, a) == Token::Semi {
                block(src, a + 1, read.push(s))
            } else {
                block(src, a, read.push(s))
            },
        }
    }
}

/// Statements and the `end` after them.
pub open spec fn body(src: Source, at: int) -> Parsed<Seq<StatementView>>
    decreases src.tokens.len() - at, 101int,
{
    match block(src, at, Seq::empty()) {
        (Err(e), a) => (Err(e), a),
        (Ok(statements), a) => match need(src, a, Token::End) {
            (Err(e), b) => (Err(e), b),
            (Ok(_), b) => (Ok(statements), b),
        },
    }
}

/// What follows the first branch of an `if`.
pub open spec fn else_chain(src: Source, at: int) -> Parsed<Seq<StatementView>>
    decreases src.tokens.len() - at, 102int,
{
    if at >= src.tokens.len() {
        stuck(at)
    } else if tok(src, at) == Token::ElseIf {
        match expr(src, at + 1) {
            (Err(e), a) => (Err(e), a),
            (Ok(condition), a) => match need(src, a, Token::Then) {
                (Err(e), b) => (Err(e), b),
                (Ok(_), b) => if !(at < b <= src.tokens.len()) {
                    stuck(b)
                } else {
                    match block(src, b, Seq::empty()) {
                        (Err(e), c) => (Err(e), c),
                        (Ok(then_body), c) => if !moved(src, at, c) {
                            stuck(c)
                        } else {
                            match else_chain(src, c) {
                                (Err(e), d) => (Err(e), d),
                                (Ok(else_body), d) => (
                                    Ok(
                                        seq![StatementView::Located {
                                            node: Box::new(
                                                StatementView::If {
                                                    condition,
                                                    then_body,
                                                    else_body,
                                                },
                                            ),
                                            location: place(src, at),
                                        }],
                                    ),
                                    d,
                                ),
                            }
                        },
                    }
                },
            },
        }
    } else if tok(src, at) == Token::Else {
        body(src, at + 1)
    } else {
        match need(src, at, Token::End) {
            (Err(e), a) => (Err(e), a),
            (Ok(_), a) => (Ok(Seq::empty()), a),
        }
    }
}

/// The body of a method inside a struct, which may be left out.
pub open spec fn optional_body(src: Source, at: int) -> Parsed<Option<Seq<StatementView>>>
    decreases src.tokens.len() - at, 102int,
{
    if at >= src.tokens.len() {
        stuck(at)
    } else if tok(src, at) == Token::End {
        (Ok(None), at + 1)
    } else if tok(src, at) == Token::RBrace {
        (Ok(None), at)
    } else {
        match body(src, at) {
            (Err(e), a) => (Err(e), a),
            (Ok(statements), a) => (Ok(Some(statements)), a),
        }
    }
}

/// A method inside a struct, after the word `function`.
pub open spec fn member_method(src: Source, at: int) -> Parsed<MethodView>
    decreases src.tokens.len() - at, 103int,
{
    match name(src, at, "expected method name"@) {
        (Err(e), a) => (Err(e), a),
        (Ok(n), a) => match parameter_list(src, a) {
            (Err(e), b) => (Err(e), b),
            (Ok(args), b) => if !moved(src, at, b) {
                stuck(b)
            } else {
                match optional_body(src, b) {
                    (Err(e), c) => (Err(e), c),
                    (Ok(body), c) => (Ok(MethodView { name: n, args, body }), c),
                }
            },
        },
    }
}

/// The fields and methods of a struct up to the closing brace, after those already read.
pub open spec fn members(
    src: Source,
    at: int,
    fields: Seq<(Seq<char>, TypeView)>,
    methods: Seq<MethodView>,
) -> Parsed<(Seq<(Seq<char>, TypeView)>, Seq<MethodView>)>
    decreases src.tokens.len() - at, 104int,
{
    if at >= src.tokens.len() {
        stuck(at)
    } else {
        match tok(src, at) {
            Token::RBrace => (Ok((fields, methods)), at + 1),
            Token::Ident(id) => match need(src, at + 1, Token::Colon) {
                (Err(e), a) => (Err(e), a),
                (Ok(_), a) => match parsed_type(src, a) {
                    (Err(e), b) => (Err(e), b),
                    (Ok(ty), b) => {
                        let read = fields.push((src.strings[id.0 as int], ty));
                        if !moved(src, at, b) {
                            stuck(b)
                        } else if tok(src, b) == Token::Semi || tok(src, b) == Token::Comma {
                            members(src, b + 1, read, methods)
                        } else {
                            members(src, b, read, methods)
                        }
                    },
                },
            },
            Token::Function => match member_method(src, at + 1) {
                (Err(e), a) => (Err(e), a),
                (Ok(method), a) => if !moved(src, at, a) {
                    stuck(a)
                } else {
                    members(src, a, fields, methods.push(method))
                },
            },
            t => (Err(unexpected(src, "expected field or method"@, t)), at + 1),
        }
    }
}

/// `Name { members }`
pub open spec fn struct_declaration(src: Source, at: int) -> Parsed<(Seq<char>, Seq<(Seq<char>, TypeView)>, Seq<MethodView>)>
    decreases src.tokens.len() - at, 105int,
{
    match name(src, at, "expected struct name"@) {
        (Err(e), a) => (Err(e), a),
        (Ok(n), a) => match need(src, a, Token::LBrace) {
            (Err(e), b) => (Err(e), b),
            (Ok(_), b) => if !moved(src, at, b) {
                stuck(b)
            } else {
                match members(src, b, Seq::empty(), Seq::empty()) {
                    (Err(e), c) => (Err(e), c),
                    (Ok((fields, methods)), c) => (Ok((n, fields, methods)), c),
                }
            },
        },
    }
}

/// An expression, with or without parentheses around it.
pub open spec fn maybe_parenthesized(src: Source, at: int) -> Parsed<ExprView> {
    if tok(src, at) == Token::LParen {
        match expr(src, at + 1) {
            (Err(e), a) => (Err(e), a),
            (Ok(inner), a) => match need(src, a, Token::RParen) {
                (Err(e), b) => (Err(e), b),
                (Ok(_), b) => (Ok(inner), b),
            },
        }
    } else {
        expr(src, at)
    }
}

/// The arguments that follow a format, each after a comma.
pub open spec fn more_arguments(src: Source, at: int, read: Seq<ExprView>) -> Parsed<Seq<ExprView>>
    decreases src.tokens.len() - at,
{
    if at >= src.tokens.len() {
        stuck(at)
    } else if tok(src, at) == Token::Comma {
        match expr(src, at + 1) {
            (Err(e), a) => (Err(e), a),
            (Ok(item), a) => if moved(src, at, a) {
                more_arguments(src, a, read.push(item))
            } else {
                stuck(a)
            },
        }
    } else {
        (Ok(read), at)
    }
}

/// A formatted print, after its keyword.
pub open spec fn printf(src: Source, at: int) -> Parsed<StatementView> {
    let parenthesized = tok(src, at) == Token::LParen;
    match expr(
        src,
        if parenthesized {
            at + 1
        } else {
            at
        },
    ) {
        (Err(e), a) => (Err(e), a),
        (Ok(format), a) => match more_arguments(src, a, Seq::empty()) {
            (Err(e), b) => (Err(e), b),
            (Ok(args), b) => if parenthesized {
                match need(src, b, Token::RParen) {
                    (Err(e), c) => (Err(e), c),
                    (Ok(_), c) => (Ok(StatementView::Printf { format, args }), c),
                }
            } else {
                (Ok(StatementView::Printf { format, args }), b)
            },
        },
    }
}

/// `::name(a: T) ... end` of a method defined outside its struct.
pub open spec fn method_definition(src: Source, at: int) -> Parsed<StatementView>
    decreases src.tokens.len() - at, 103int,
{
    match name(src, at, "expected struct name"@) {
        (Err(e), a) => (Err(e), a),
        (Ok(struct_name), a) => match need(src, a, Token::DoubleColon) {
            (Err(e), b) => (Err(e), b),
            (Ok(_), b) => match name(src, b, "expected method name"@) {
                (Err(e), c) => (Err(e), c),
                (Ok(method), c) => match parameter_list(src, c) {
                    (Err(e), d) => (Err(e), d),
                    (Ok(args), d) => if !moved(src, at, d) {
                        stuck(d)
                    } else {
                        match body(src, d) {
                            (Err(e), f) => (Err(e), f),
                            (Ok(body), f) => (
                                Ok(
                                    StatementView::MethodDefinition {
                                        struct_name,
                                        method,
                                        args,
                                        body,
                                    },
                                ),
                                f,
                            ),
                        }
                    },
                },
            },
        },
    }
}

/// `name() ... end` of an exported function.
pub open spec fn exported_function(src: Source, at: int) -> Parsed<StatementView>
    decreases src.tokens.len() - at, 103int,
{
    match name(src, at, "expected exported function name"@) {
        (Err(e), a) => (Err(e), a),
        (Ok(n), a) => match need(src, a, Token::LParen) {
            (Err(e), b) => (Err(e), b),
            (Ok(_), b) => match need(src, b, Token::RParen) {
                (Err(e), c) => (Err(e), c),
                (Ok(_), c) => if !moved(src, at, c) {
                    stuck(c)
                } else {
                    match body(src, c) {
                        (Err(e), d) => (Err(e), d),
                        (Ok(body), d) => (Ok(StatementView::ExportFunction { name: n, body }), d),
                    }
                },
            },
        },
    }
}

/// What may follow the word `export`.
pub open spec fn exported(src: Source, at: int) -> Parsed<StatementView>
    decreases src.tokens.len() - at, 106int,
{
    if at >= src.tokens.len() {
        stuck(at)
    } else {
        match tok(src, at) {
            Token::Let => match declaration(src, at + 1) {
                (Err(e), a) => (Err(e), a),
                (Ok((name, ty, expr)), a) => (Ok(StatementView::ExportLet { name, ty, expr }), a),
            },
            Token::Struct => match struct_declaration(src, at + 1) {
                (Err(e), a) => (Err(e), a),
                (Ok((name, fields, methods)), a) => (
                    Ok(StatementView::ExportStruct { name, fields, methods }),
                    a,
                ),
            },
            Token::Function => exported_function(src, at + 1),
            t => (
                Err(unexpected(src, "expected let, struct, or function after export"@, t)),
                at + 1,
            ),
        }
    }
}

/// `c then ... end` with its other branches.
pub open spec fn if_statement(src: Source, at: int) -> Parsed<StatementView>
    decreases src.tokens.len() - at, 103int,
{
    match expr(src, at) {
        (Err(e), a) => (Err(e), a),
        (Ok(condition), a) => match need(src, a, Token::Then) {
            (Err(e), b) => (Err(e), b),
            (Ok(_), b) => if !moved(src, at, b) {
                stuck(b)
            } else {
                match block(src, b, Seq::empty()) {
                    (Err(e), c) => (Err(e), c),
                    (Ok(then_body), c) => if !moved(src, at, c) {
                        stuck(c)
                    } else {
                        match else_chain(src, c) {
                            (Err(e), d) => (Err(e), d),
                            (Ok(else_body), d) => (
                                Ok(StatementView::If { condition, then_body, else_body }),
                                d,
                            ),
                        }
                    },
                }
            },
        },
    }
}

/// `do ... end`
pub open spec fn loop_body(src: Source, at: int) -> Parsed<Seq<StatementView>>
    decreases src.tokens.len() - at, 102int,
{
    if at >= src.tokens.len() {
        stuck(at)
    } else {
        match need(src, at, Token::Do) {
            (Err(e), a) => (Err(e), a),
            (Ok(_), a) => body(src, a),
        }
    }
}

/// `c do ... end`
pub open spec fn while_statement(src: Source, at: int) -> Parsed<StatementView>
    decreases src.tokens.len() - at, 103int,
{
    match expr(src, at) {
        (Err(e), a) => (Err(e), a),
        (Ok(condition), a) => if !moved(src, at, a) {
            stuck(a)
        } else {
            match loop_body(src, a) {
                (Err(e), b) => (Err(e), b),
                (Ok(body), b) => (Ok(StatementView::While { condition, body }), b),
            }
        },
    }
}

/// `a, b do ... end` of a loop over numbers.
pub open spec fn for_range(src: Source, at: int, n: Seq<char>) -> Parsed<StatementView>
    decreases src.tokens.len() - at, 103int,
{
    match expr(src, at) {
        (Err(e), a) => (Err(e), a),
        (Ok(start), a) => match need(src, a, Token::Comma) {
            (Err(e), b) => (Err(e), b),
            (Ok(_), b) => match expr(src, b) {
                (Err(e), c) => (Err(e), c),
                (Ok(end), c) => if !moved(src, at, c) {
                    stuck(c)
                } else {
                    match loop_body(src, c) {
                        (Err(e), d) => (Err(e), d),
                        (Ok(body), d) => (
                            Ok(StatementView::For { name: n, start, end, body }),
                            d,
                        ),
                    }
                },
            },
        },
    }
}

/// `xs do ... end` of a loop over items.
pub open spec fn for_each(src: Source, at: int, n: Seq<char>) -> Parsed<StatementView>
    decreases src.tokens.len() - at, 103int,
{
    match expr(src, at) {
        (Err(e), a) => (Err(e), a),
        (Ok(iterable), a) => if !moved(src, at, a) {
            stuck(a)
        } else {
            match loop_body(src, a) {
                (Err(e), b) => (Err(e), b),
                (Ok(body), b) => (Ok(StatementView::ForIn { name: n, iterable, body }), b),
            }
        },
    }
}

/// A `for` loop, after its keyword.
pub open spec fn for_statement(src: Source, at: int) -> Parsed<StatementView>
    decreases src.tokens.len() - at, 104int,
{
    match name(src, at, "expected loop variable"@) {
        (Err(e), a) => (Err(e), a),
        (Ok(n), a) => if !moved(src, at, a) {
            stuck(a)
        } else if tok(src, a) == Token::Equal {
            for_range(src, a + 1, n)
        } else if tok(src, a) == Token::In {
            for_each(src, a + 1, n)
        } else {
            (Err(unexpected(src, "expected '=' or 'in' after loop variable"@, tok(src, a))), a)
        },
    }
}

/// `.method()` on the current receiver.
pub open spec fn call_on_this(src: Source, at: int) -> Parsed<StatementView> {
    match need(src, at, Token::Dot) {
        (Err(e), a) => (Err(e), a),
        (Ok(_), a) => match name(src, a, "expected method name"@) {
            (Err(e), b) => (Err(e), b),
            (Ok(method), b) => match need(src, b, Token::LParen) {
                (Err(e), c) => (Err(e), c),
                (Ok(_), c) => match need(src, c, Token::RParen) {
                    (Err(e), d) => (Err(e), d),
                    (Ok(_), d) => (
                        Ok(StatementView::CallMethod { receiver: ReceiverView::This, method }),
                        d,
                    ),
                },
            },
        },
    }
}

/// An assignment to a global variable, after `::`.
pub open spec fn global_assignment(src: Source, at: int) -> Parsed<StatementView> {
    match name(src, at, "expected global variable name after '::'"@) {
        (Err(e), a) => (Err(e), a),
        (Ok(n), a) => match need(src, a, Token::Equal) {
            (Err(e), b) => (Err(e), b),
            (Ok(_), b) => match expr(src, b) {
                (Err(e), c) => (Err(e), c),
                (Ok(value), c) => (Ok(StatementView::GlobalAssign { name: n, expr: value }), c),
            },
        },
    }
}

/// `i] = value` of an assignment to a vector field.
pub open spec fn field_index_assignment(
    src: Source,
    at: int,
    n: Seq<char>,
    field: Seq<char>,
) -> Parsed<StatementView> {
    match expr(src, at) {
        (Err(e), a) => (Err(e), a),
        (Ok(index), a) => match need(src, a, Token::RBracket) {
            (Err(e), b) => (Err(e), b),
            (Ok(_), b) => match need(src, b, Token::Equal) {
                (Err(e), c) => (Err(e), c),
                (Ok(_), c) => match expr(src, c) {
                    (Err(e), d) => (Err(e), d),
                    (Ok(value), d) => (
                        Ok(
                            StatementView::SetFieldIndex {
                                name: n,
                                field,
                                index,
                                expr: value,
                            },
                        ),
                        d,
                    ),
                },
            },
        },
    }
}

/// What may follow `name.`
pub open spec fn member_statement(src: Source, at: int, n: Seq<char>) -> Parsed<StatementView> {
    match name(src, at, "expected field or method name"@) {
        (Err(e), a) => (Err(e), a),
        (Ok(field), a) => match tok(src, a) {
            Token::Equal => match expr(src, a + 1) {
                (Err(e), b) => (Err(e), b),
                (Ok(value), b) => (
                    Ok(StatementView::SetField { name: n, field, expr: value }),
                    b,
                ),
            },
            Token::LBracket => field_index_assignment(src, a + 1, n, field),
            Token::LParen => match need(src, a + 1, Token::RParen) {
                (Err(e), b) => (Err(e), b),
                (Ok(_), b) => (
                    Ok(
                        StatementView::CallMethod {
                            receiver: ReceiverView::Name(n),
                            method: field,
                        },
                    ),
                    b,
                ),
            },
            t => (Err(unexpected(src, "expected '=', '[', or '('"@, t)), a + 1),
        },
    }
}

/// What may follow a name at the start of a statement.
pub open spec fn name_statement(src: Source, at: int, n: Seq<char>) -> Parsed<StatementView> {
    match tok(src, at) {
        Token::Equal => match expr(src, at + 1) {
            (Err(e), a) => (Err(e), a),
            (Ok(value), a) => (Ok(StatementView::Assign { name: n, expr: value }), a),
        },
        Token::LBracket => match index_list(src, at + 1) {
            (Err(e), a) => (Err(e), a),
            (Ok(indices), a) => match need(src, a, Token::Equal) {
                (Err(e), b) => (Err(e), b),
                (Ok(_), b) => match expr(src, b) {
                    (Err(e), c) => (Err(e), c),
                    (Ok(value), c) => (
                        Ok(StatementView::SetIndex { name: n, indices, expr: value }),
                        c,
                    ),
                },
            },
        },
        Token::Dot => member_statement(src, at + 1, n),
        t => (Err(unexpected(src, "expected '=', '[' or '.'"@, t)), at + 1),
    }
}

/// A statement without its location.
pub open spec fn statement_inner(src: Source, at: int) -> Parsed<StatementView>
    decreases src.tokens.len() - at, 80int,
{
    if at >= src.tokens.len() {
        stuck(at)
    } else {
        match tok(src, at) {
            Token::Struct => match struct_declaration(src, at + 1) {
                (Err(e), a) => (Err(e), a),
                (Ok((name, fields, methods)), a) => (
                    Ok(StatementView::Struct { name, fields, methods }),
                    a,
                ),
            },
            Token::Export => exported(src, at + 1),
            Token::Function => method_definition(src, at + 1),
            Token::Let => match declaration(src, at + 1) {
                (Err(e), a) => (Err(e), a),
                (Ok((name, ty, expr)), a) => (Ok(StatementView::Let { name, ty, expr }), a),
            },
            Token::Print => match maybe_parenthesized(src, at + 1) {
                (Err(e), a) => (Err(e), a),
                (Ok(value), a) => (Ok(StatementView::Print(value)), a),
            },
            Token::Printf => printf(src, at + 1),
            Token::Putc => match maybe_parenthesized(src, at + 1) {
                (Err(e), a) => (Err(e), a),
                (Ok(value), a) => (Ok(StatementView::Putc(value)), a),
            },
            Token::If => if_statement(src, at + 1),
            Token::While => while_statement(src, at + 1),
            Token::For => for_statement(src, at + 1),
            Token::Break => (Ok(StatementView::Break), at + 1),
            Token::Continue => (Ok(StatementView::Continue), at + 1),
            Token::This => call_on_this(src, at + 1),
            Token::DoubleColon => global_assignment(src, at + 1),
            Token::Ident(id) => name_statement(src, at + 1, src.strings[id.0 as int]),
            t => (Err(unexpected(src, "expected statement"@, t)), at + 1),
        }
    }
}

/// A statement, with its location.
pub open spec fn statement(src: Source, at: int) -> Parsed<StatementView>
    decreases src.tokens.len() - at, 90int,
{
    let location = place(src, at);
    match statement_inner(src, at) {
        (Err(e), a) => (Err(error_at(e, location)), a),
        (Ok(node), a) => (Ok(StatementView::Located { node: Box::new(node), location }), a),
    }
}

/// A whole program: the statements up to the first token that ends a block.
pub open spec fn program(src: Source) -> Result<Seq<StatementView>, ErrorView> {
    match block(src, 0, Seq::empty()) {
        (Err(e), a) => Err(error_at(e, place(src, a))),
        (Ok(statements), a) => Ok(statements),
    }
}

} // verus!
