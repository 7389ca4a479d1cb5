//! Laws of the grammar of statements and lists: what is read in which place.
use vstd::prelude::*;
use crate::ast::{ExprView, KeyLiteralView, ReceiverView, StatementView};
use crate::grammar::place;
use crate::grammar::{
    Parsed, Source, atom, block, body, closed_list, declaration, else_chain, ends_block, exported,
    exported_function, expr, expr_list, for_each, for_range, for_statement, global_assignment,
    if_statement, index_list, literal_fields, loop_body, method_definition, more_arguments, moved,
    name, name_statement, named, need, parameter_list, parameters, parsed_type, postfix, program,
    statement, statement_inner, table_entries, table_key, tok, while_statement,
};
use crate::lexer::{StringId, Token};
use crate::types::{ErrorView, TypeView};

verus! {

/// Something was read from `at` up to `to`, which is still before the end of the
/// text.
pub open spec fn read<T>(src: Source, p: Parsed<T>, at: int, value: T, to: int) -> bool {
    0 <= at && p == (Ok::<T, ErrorView>(value), to) && moved(src, at, to)
}

/// A statement as it was read: with the place of its first token.
pub open spec fn stands(src: Source, at: int, node: StatementView, to: int) -> bool {
    statement(src, at) == (
        Ok::<StatementView, ErrorView>(
            StatementView::Located { node: Box::new(node), location: src.tokens[at].location },
        ),
        to,
    )
}

/// More of a list behind what has been read of it.
pub open spec fn continued<T>(before: Seq<T>, p: Parsed<Seq<T>>) -> Parsed<Seq<T>> {
    match p {
        (Ok(items), to) => (Ok(before + items), to),
        (Err(e), to) => (Err(e), to),
    }
}

proof fn lemma_push<T>(before: Seq<T>, x: T, items: Seq<T>)
    ensures
        before.push(x) + items == before + (seq![x] + items),
        before + seq![x] == before.push(x),
        Seq::<T>::empty().push(x) == seq![x],
        before + Seq::<T>::empty() == before,
{
    assert(before.push(x) + items =~= before + (seq![x] + items));
    assert(before + seq![x] =~= before.push(x));
    assert(Seq::<T>::empty().push(x) =~= seq![x]);
    assert(before + Seq::<T>::empty() =~= before);
}

proof fn lemma_expr_list(src: Source, at: int, before: Seq<ExprView>)
    ensures
        expr_list(src, at, before) == continued(before, expr_list(src, at, Seq::empty())),
    decreases src.tokens.len() - at,
{
    match expr(src, at) {
        (Ok(item), a) => {
            lemma_push(before, item, Seq::empty());
            if moved(src, at, a) && tok(src, a) == Token::Comma {
                lemma_expr_list(src, a + 1, before.push(item));
                lemma_expr_list(src, a + 1, seq![item]);
                match expr_list(src, a + 1, Seq::empty()) {
                    (Ok(items), _) => {
                        lemma_push(before, item, items);
                    },
                    _ => {},
                }
            }
        },
        _ => {},
    }
}

/// Expressions with commas between them are read in the order in which they are
/// written.
pub proof fn lists_are_read_in_order(src: Source, at: int, item: ExprView, a: int)
    requires
        read(src, expr(src, at), at, item, a),
    ensures
        tok(src, a) == Token::Comma ==> expr_list(src, at, Seq::empty()) == continued(
            seq![item],
            expr_list(src, a + 1, Seq::empty()),
        ),
        tok(src, a) != Token::Comma ==> expr_list(src, at, Seq::empty()) == (
            Ok::<Seq<ExprView>, ErrorView>(seq![item]),
            a,
        ),
{
    lemma_push(Seq::empty(), item, Seq::empty());
    lemma_expr_list(src, a + 1, seq![item]);
}

/// A vector literal and the arguments of a call are such lists between brackets;
/// they may be empty.
pub proof fn brackets_hold_lists(
    src: Source,
    at: int,
    items: Seq<ExprView>,
    a: int,
)
    requires
        at + 1 < src.tokens.len(),
        read(src, expr_list(src, at + 1, Seq::empty()), at + 1, items, a),
        tok(src, at) == Token::LBracket,
        tok(src, at + 1) != Token::RBracket,
        tok(src, a) == Token::RBracket,
    ensures
        atom(src, at) == (Ok::<ExprView, ErrorView>(ExprView::Array(items)), a + 1),
        index_list(src, at + 1) == (Ok::<Seq<ExprView>, ErrorView>(items), a + 1),
{
    assert(closed_list(src, at + 1, Token::RBracket) == (
        Ok::<Seq<ExprView>, ErrorView>(items),
        a + 1,
    ));
}

/// An empty vector literal.
pub proof fn empty_brackets_hold_nothing(src: Source, at: int)
    requires
        0 <= at,
        at + 1 < src.tokens.len(),
        tok(src, at) == Token::LBracket,
        tok(src, at + 1) == Token::RBracket,
    ensures
        atom(src, at) == (Ok::<ExprView, ErrorView>(ExprView::Array(Seq::empty())), at + 2),
{
    assert(closed_list(src, at + 1, Token::RBracket) == (
        Ok::<Seq<ExprView>, ErrorView>(Seq::empty()),
        at + 2,
    ));
}

/// A call: the name and the arguments between parentheses.
pub proof fn calls_hold_their_arguments(
    src: Source,
    at: int,
    id: StringId,
    args: Seq<ExprView>,
    a: int,
)
    requires
        0 <= at,
        at + 2 < src.tokens.len(),
        tok(src, at) == Token::Ident(id),
        tok(src, at + 1) == Token::LParen,
        tok(src, at + 2) == Token::RParen && args.len() == 0 && a == at + 2 || (tok(src, at + 2)
            != Token::RParen && read(
            src,
            expr_list(src, at + 2, Seq::empty()),
            at + 2,
            args,
            a,
        ) && tok(src, a) == Token::RParen),
    ensures
        atom(src, at) == (
            Ok::<ExprView, ErrorView>(ExprView::Call(src.strings[id.0 as int], args)),
            a + 1,
        ),
{
    assert(args.len() == 0 ==> args =~= Seq::empty());
    assert(closed_list(src, at + 2, Token::RParen) == (
        Ok::<Seq<ExprView>, ErrorView>(args),
        a + 1,
    ));
    assert(named(src, at + 1, id) == (
        Ok::<ExprView, ErrorView>(ExprView::Call(src.strings[id.0 as int], args)),
        a + 1,
    ));
}

/// Behind an operand, brackets read items of it and a dot reads a field of it,
/// from left to right.
pub proof fn items_and_fields_are_read_from_left_to_right(
    src: Source,
    at: int,
    inner: ExprView,
    indices: Seq<ExprView>,
    a: int,
    id: StringId,
)
    requires
        0 <= at < src.tokens.len(),
    ensures
        tok(src, at) == Token::LBracket && index_list(src, at + 1) == (
            Ok::<Seq<ExprView>, ErrorView>(indices),
            a,
        ) && moved(src, at, a) ==> postfix(src, at, inner) == postfix(
            src,
            a,
            ExprView::Index(Box::new(inner), indices),
        ),
        tok(src, at) == Token::Dot && moved(src, at, at + 2) && tok(src, at + 1) == Token::Ident(id)
            ==> postfix(src, at, inner) == postfix(
            src,
            at + 2,
            ExprView::Field(Box::new(inner), src.strings[id.0 as int]),
        ),
        tok(src, at) != Token::LBracket && tok(src, at) != Token::Dot ==> postfix(src, at, inner)
            == (Ok::<ExprView, ErrorView>(inner), at),
{
}

/// Literals and single words stand for themselves.
pub proof fn literals_stand_for_themselves(src: Source, at: int, n: i128, id: StringId)
    requires
        0 <= at < src.tokens.len(),
    ensures
        tok(src, at) == Token::Integer(n) ==> atom(src, at) == (
            Ok::<ExprView, ErrorView>(ExprView::Integer(n)),
            at + 1,
        ),
        tok(src, at) == Token::Float(id) ==> atom(src, at) == (
            Ok::<ExprView, ErrorView>(ExprView::Float(id)),
            at + 1,
        ),
        tok(src, at) == Token::StringLit(id) ==> atom(src, at) == (
            Ok::<ExprView, ErrorView>(ExprView::String(id)),
            at + 1,
        ),
        tok(src, at) == Token::Input ==> atom(src, at) == (
            Ok::<ExprView, ErrorView>(ExprView::Input),
            at + 1,
        ),
        tok(src, at) == Token::This ==> atom(src, at) == (
            Ok::<ExprView, ErrorView>(ExprView::This),
            at + 1,
        ),
        tok(src, at) == Token::DoubleColon && tok(src, at + 1) == Token::Ident(id) ==> atom(
            src,
            at,
        ) == (Ok::<ExprView, ErrorView>(ExprView::GlobalName(id)), at + 2),
        tok(src, at) == Token::Require && tok(src, at + 1) == Token::LParen && tok(src, at + 2)
            == Token::StringLit(id) && tok(src, at + 3) == Token::RParen ==> atom(src, at) == (
            Ok::<ExprView, ErrorView>(ExprView::Require(src.strings[id.0 as int])),
            at + 4,
        ),
{
}

proof fn lemma_entries(src: Source, at: int, before: Seq<(KeyLiteralView, ExprView)>)
    ensures
        table_entries(src, at, before) == continued(
            before,
            table_entries(src, at, Seq::empty()),
        ),
    decreases src.tokens.len() - at,
{
    lemma_push(before, arbitrary::<(KeyLiteralView, ExprView)>(), Seq::empty());
    if at < src.tokens.len() && tok(src, at) != Token::RBrace {
        match table_key(src, at) {
            (Ok(key), a) => if moved(src, at, a) && tok(src, a) == Token::Equal {
                match expr(src, a + 1) {
                    (Ok(value), c) => if moved(src, at, c) {
                        let next = if tok(src, c) == Token::Comma || tok(src, c) == Token::Semi {
                            c + 1
                        } else {
                            c
                        };
                        let x = (key, value);
                        lemma_push(before, x, Seq::empty());
                        lemma_entries(src, next, before.push(x));
                        lemma_entries(src, next, seq![x]);
                        match table_entries(src, next, Seq::empty()) {
                            (Ok(items), _) => {
                                lemma_push(before, x, items);
                            },
                            _ => {},
                        }
                    },
                    _ => {},
                }
            },
            _ => {},
        }
    }
}

/// The entries of a table literal are read in order: a key, `=` and a value, with
/// a comma, a semicolon or nothing behind it. A key is a name, or an expression
/// between brackets.
pub proof fn table_entries_are_read_in_order(
    src: Source,
    at: int,
    key: KeyLiteralView,
    a: int,
    value: ExprView,
    b: int,
)
    requires
        tok(src, at) != Token::RBrace,
        read(src, table_key(src, at), at, key, a),
        tok(src, a) == Token::Equal,
        read(src, expr(src, a + 1), a + 1, value, b),
    ensures
        table_entries(src, at, Seq::empty()) == continued(
            seq![(key, value)],
            table_entries(
                src,
                if tok(src, b) == Token::Comma || tok(src, b) == Token::Semi {
                    b + 1
                } else {
                    b
                },
                Seq::empty(),
            ),
        ),
{
    lemma_push(Seq::empty(), (key, value), Seq::empty());
    lemma_entries(
        src,
        if tok(src, b) == Token::Comma || tok(src, b) == Token::Semi {
            b + 1
        } else {
            b
        },
        seq![(key, value)],
    );
}

/// Where a table literal ends, and what its keys are.
pub proof fn table_literals_end_at_their_brace(
    src: Source,
    at: int,
    id: StringId,
    index: ExprView,
    a: int,
    entries: Seq<(KeyLiteralView, ExprView)>,
    b: int,
)
    requires
        0 <= at,
        at + 1 < src.tokens.len(),
    ensures
        tok(src, at) == Token::RBrace ==> table_entries(src, at, Seq::empty()) == (
            Ok::<Seq<(KeyLiteralView, ExprView)>, ErrorView>(Seq::empty()),
            at + 1,
        ),
        tok(src, at) == Token::Ident(id) ==> table_key(src, at) == (
            Ok::<KeyLiteralView, ErrorView>(KeyLiteralView::Name(src.strings[id.0 as int])),
            at + 1,
        ),
        tok(src, at) == Token::LBracket && read(src, expr(src, at + 1), at + 1, index, a) && tok(
            src,
            a,
        ) == Token::RBracket ==> table_key(src, at) == (
            Ok::<KeyLiteralView, ErrorView>(KeyLiteralView::Index(index)),
            a + 1,
        ),
        tok(src, at) == Token::Table && tok(src, at + 1) == Token::LBrace && table_entries(
            src,
            at + 2,
            Seq::empty(),
        ) == (Ok::<Seq<(KeyLiteralView, ExprView)>, ErrorView>(entries), b) ==> atom(src, at) == (
            Ok::<ExprView, ErrorView>(ExprView::Table(entries)),
            b,
        ),
{
}

proof fn lemma_literal_fields(src: Source, at: int, before: Seq<(Seq<char>, ExprView)>)
    ensures
        literal_fields(src, at, before) == continued(
            before,
            literal_fields(src, at, Seq::empty()),
        ),
    decreases src.tokens.len() - at,
{
    lemma_push(before, arbitrary::<(Seq<char>, ExprView)>(), Seq::empty());
    if at < src.tokens.len() && tok(src, at) != Token::RBrace {
        match name(src, at, "expected field name"@) {
            (Ok(field), a) => if moved(src, at, a) && tok(src, a) == Token::Equal {
                match expr(src, a + 1) {
                    (Ok(value), c) => if moved(src, at, c) {
                        let next = if tok(src, c) == Token::Comma {
                            c + 1
                        } else {
                            c
                        };
                        let x = (field, value);
                        lemma_push(before, x, Seq::empty());
                        lemma_literal_fields(src, next, before.push(x));
                        lemma_literal_fields(src, next, seq![x]);
                        match literal_fields(src, next, Seq::empty()) {
                            (Ok(items), _) => {
                                lemma_push(before, x, items);
                            },
                            _ => {},
                        }
                    },
                    _ => {},
                }
            },
            _ => {},
        }
    }
}

/// The fields of a struct literal are read in order: a name, `=` and a value,
/// with a comma or nothing behind it.
pub proof fn literal_fields_are_read_in_order(
    src: Source,
    at: int,
    id: StringId,
    value: ExprView,
    b: int,
)
    requires
        0 <= at,
        at + 2 < src.tokens.len(),
        tok(src, at) == Token::Ident(id),
        tok(src, at + 1) == Token::Equal,
        read(src, expr(src, at + 2), at + 2, value, b),
    ensures
        literal_fields(src, at, Seq::empty()) == continued(
            seq![(src.strings[id.0 as int], value)],
            literal_fields(
                src,
                if tok(src, b) == Token::Comma {
                    b + 1
                } else {
                    b
                },
                Seq::empty(),
            ),
        ),
{
    let x = (src.strings[id.0 as int], value);
    lemma_push(Seq::empty(), x, Seq::empty());
    lemma_literal_fields(
        src,
        if tok(src, b) == Token::Comma {
            b + 1
        } else {
            b
        },
        seq![x],
    );
}

/// A struct literal: the name of the struct, with that of its module where it has
/// one, and the fields between braces.
pub proof fn struct_literals_name_their_struct(
    src: Source,
    at: int,
    id: StringId,
    member: StringId,
    fields: Seq<(Seq<char>, ExprView)>,
    b: int,
)
    requires
        0 <= at,
        at + 1 < src.tokens.len(),
        tok(src, at) == Token::Ident(id),
    ensures
        tok(src, at + 1) == Token::LBrace && literal_fields(src, at + 2, Seq::empty()) == (
            Ok::<Seq<(Seq<char>, ExprView)>, ErrorView>(fields),
            b,
        ) ==> atom(src, at) == (
            Ok::<ExprView, ErrorView>(
                ExprView::StructLiteral(src.strings[id.0 as int], fields),
            ),
            b,
        ),
        at + 3 < src.tokens.len() && tok(src, at + 1) == Token::Dot && tok(src, at + 2)
            == Token::Ident(member) && tok(src, at + 3) == Token::LBrace && literal_fields(
            src,
            at + 4,
            Seq::empty(),
        ) == (Ok::<Seq<(Seq<char>, ExprView)>, ErrorView>(fields), b) ==> atom(src, at) == (
            Ok::<ExprView, ErrorView>(
                ExprView::StructLiteral(
                    src.strings[id.0 as int] + "."@ + src.strings[member.0 as int],
                    fields,
                ),
            ),
            b,
        ),
{
    assert(atom(src, at) == named(src, at + 1, id));
}

proof fn lemma_block(src: Source, at: int, before: Seq<StatementView>)
    ensures
        block(src, at, before) == continued(before, block(src, at, Seq::empty())),
    decreases src.tokens.len() - at,
{
    lemma_push(before, arbitrary::<StatementView>(), Seq::empty());
    if at < src.tokens.len() && !ends_block(tok(src, at)) {
        match statement(src, at) {
            (Ok(s), a) => if moved(src, at, a) {
                let next = if tok(src, a) == Token::Semi {
                    a + 1
                } else {
                    a
                };
                lemma_push(before, s, Seq::empty());
                lemma_block(src, next, before.push(s));
                lemma_block(src, next, seq![s]);
                match block(src, next, Seq::empty()) {
                    (Ok(items), _) => {
                        lemma_push(before, s, items);
                    },
                    _ => {},
                }
            },
            _ => {},
        }
    }
}

/// Statements are read in the order in which they are written, with a semicolon
/// or nothing behind each, up to the end of their block.
pub proof fn statements_are_read_in_order(src: Source, at: int, s: StatementView, a: int)
    requires
        0 <= at < src.tokens.len(),
    ensures
        tok(src, at) == Token::End || tok(src, at) == Token::Else || tok(src, at) == Token::ElseIf
            || tok(src, at) == Token::Eof ==> block(src, at, Seq::empty()) == (
            Ok::<Seq<StatementView>, ErrorView>(Seq::empty()),
            at,
        ),
        read(src, statement(src, at), at, s, a) ==> block(src, at, Seq::empty()) == continued(
            seq![s],
            block(
                src,
                if tok(src, a) == Token::Semi {
                    a + 1
                } else {
                    a
                },
                Seq::empty(),
            ),
        ),
{
    lemma_push(Seq::empty(), s, Seq::empty());
    lemma_block(
        src,
        if tok(src, a) == Token::Semi {
            a + 1
        } else {
            a
        },
        seq![s],
    );
    if ends_block(tok(src, at)) {
        assert(statement_inner(src, at).0 is Err);
        assert(statement(src, at).0 is Err);
    }
}

/// A program is read to its end, statement by statement, unless a block was
/// closed that was never opened.
pub proof fn programs_are_blocks(src: Source, statements: Seq<StatementView>, a: int)
    requires
        block(src, 0, Seq::empty()) == (Ok::<Seq<StatementView>, ErrorView>(statements), a),
    ensures
        program(src) == Ok::<Seq<StatementView>, ErrorView>(statements),
{
}

/// `let name: T = value` and `export let name: T = value`.
pub proof fn declarations_are_read(
    src: Source,
    at: int,
    id: StringId,
    ty: TypeView,
    a: int,
    value: ExprView,
    b: int,
)
    requires
        0 <= at,
        at + 4 < src.tokens.len(),
        tok(src, at) == Token::Let,
        tok(src, at + 1) == Token::Ident(id),
        tok(src, at + 2) == Token::Colon,
        read(src, parsed_type(src, at + 3), at + 3, ty, a),
        tok(src, a) == Token::Equal,
        expr(src, a + 1) == (Ok::<ExprView, ErrorView>(value), b),
    ensures
        stands(src, at, StatementView::Let { name: id, ty, expr: value }, b),
        at > 0 && tok(src, at - 1) == Token::Export ==> stands(
            src,
            at - 1,
            StatementView::ExportLet { name: id, ty, expr: value },
            b,
        ),
{
    assert(declaration(src, at + 1) == (
        Ok::<(StringId, TypeView, ExprView), ErrorView>((id, ty, value)),
        b,
    ));
    assert(statement_inner(src, at) == (
        Ok::<StatementView, ErrorView>(StatementView::Let { name: id, ty, expr: value }),
        b,
    ));
    if at > 0 && tok(src, at - 1) == Token::Export {
        assert(exported(src, at) == (
            Ok::<StatementView, ErrorView>(StatementView::ExportLet { name: id, ty, expr: value }),
            b,
        ));
        assert(statement_inner(src, at - 1) == exported(src, at));
    }
}

/// `name = value`, `::name = value`, `name[indices] = value`, `name.field = value`
/// and `name.field[index] = value`.
pub proof fn assignments_are_read(
    src: Source,
    at: int,
    id: StringId,
    field: StringId,
    indices: Seq<ExprView>,
    index: ExprView,
    a: int,
    value: ExprView,
    b: int,
)
    requires
        0 <= at,
        at + 3 < src.tokens.len(),
    ensures
        ({
            let n = src.strings[id.0 as int];
            let f = src.strings[field.0 as int];
            let given = |from: int| expr(src, from) == (Ok::<ExprView, ErrorView>(value), b);
            &&& tok(src, at) == Token::Ident(id) && tok(src, at + 1) == Token::Equal && given(
                at + 2,
            ) ==> stands(src, at, StatementView::Assign { name: n, expr: value }, b)
            &&& tok(src, at) == Token::DoubleColon && tok(src, at + 1) == Token::Ident(id) && tok(
                src,
                at + 2,
            ) == Token::Equal && given(at + 3) ==> stands(
                src,
                at,
                StatementView::GlobalAssign { name: n, expr: value },
                b,
            )
            &&& tok(src, at) == Token::Ident(id) && tok(src, at + 1) == Token::LBracket && read(
                src,
                index_list(src, at + 2),
                at + 2,
                indices,
                a,
            ) && tok(src, a) == Token::Equal && given(a + 1) ==> stands(
                src,
                at,
                StatementView::SetIndex { name: n, indices, expr: value },
                b,
            )
            &&& tok(src, at) == Token::Ident(id) && tok(src, at + 1) == Token::Dot && tok(
                src,
                at + 2,
            ) == Token::Ident(field) && tok(src, at + 3) == Token::Equal && given(at + 4)
                ==> stands(
                src,
                at,
                StatementView::SetField { name: n, field: f, expr: value },
                b,
            )
            &&& tok(src, at) == Token::Ident(id) && tok(src, at + 1) == Token::Dot && tok(
                src,
                at + 2,
            ) == Token::Ident(field) && tok(src, at + 3) == Token::LBracket && read(
                src,
                expr(src, at + 4),
                at + 4,
                index,
                a,
            ) && tok(src, a) == Token::RBracket && tok(src, a + 1) == Token::Equal && given(a + 2)
                ==> stands(
                src,
                at,
                StatementView::SetFieldIndex { name: n, field: f, index, expr: value },
                b,
            )
        }),
{
    if let Token::Ident(id) = tok(src, at) {
        assert(statement_inner(src, at) == name_statement(
            src,
            at + 1,
            src.strings[id.0 as int],
        ));
    }
    if tok(src, at) == Token::DoubleColon {
        assert(statement_inner(src, at) == global_assignment(src, at + 1));
    }
}

/// `print value`, `putc value` and `printf(format, arguments)`.
pub proof fn printing_is_read(
    src: Source,
    at: int,
    value: ExprView,
    a: int,
    args: Seq<ExprView>,
    b: int,
)
    requires
        0 <= at,
        at + 1 < src.tokens.len(),
    ensures
        ({
            let bare = tok(src, at + 1) != Token::LParen && expr(src, at + 1) == (
                Ok::<ExprView, ErrorView>(value),
                a,
            );
            let wrapped = tok(src, at + 1) == Token::LParen && expr(src, at + 2) == (
                Ok::<ExprView, ErrorView>(value),
                a,
            ) && tok(src, a) == Token::RParen;
            let arguments = more_arguments(src, a, Seq::empty()) == (
                Ok::<Seq<ExprView>, ErrorView>(args),
                b,
            );
            let formatted = tok(src, at + 1) == Token::LParen && expr(src, at + 2) == (
                Ok::<ExprView, ErrorView>(value),
                a,
            ) && arguments && tok(src, b) == Token::RParen;
            let print = StatementView::Print(value);
            let putc = StatementView::Putc(value);
            let printf = StatementView::Printf { format: value, args };
            &&& tok(src, at) == Token::Print && bare ==> stands(src, at, print, a)
            &&& tok(src, at) == Token::Print && wrapped ==> stands(src, at, print, a + 1)
            &&& tok(src, at) == Token::Putc && bare ==> stands(src, at, putc, a)
            &&& tok(src, at) == Token::Putc && wrapped ==> stands(src, at, putc, a + 1)
            &&& tok(src, at) == Token::Printf && bare && arguments ==> stands(src, at, printf, b)
            &&& tok(src, at) == Token::Printf && formatted ==> stands(src, at, printf, b + 1)
        }),
{
}

proof fn lemma_more_arguments(src: Source, at: int, before: Seq<ExprView>)
    ensures
        more_arguments(src, at, before) == continued(
            before,
            more_arguments(src, at, Seq::empty()),
        ),
    decreases src.tokens.len() - at,
{
    lemma_push(before, arbitrary::<ExprView>(), Seq::empty());
    if at < src.tokens.len() && tok(src, at) == Token::Comma {
        match expr(src, at + 1) {
            (Ok(item), a) => if moved(src, at, a) {
                lemma_push(before, item, Seq::empty());
                lemma_more_arguments(src, a, before.push(item));
                lemma_more_arguments(src, a, seq![item]);
                match more_arguments(src, a, Seq::empty()) {
                    (Ok(items), _) => {
                        lemma_push(before, item, items);
                    },
                    _ => {},
                }
            },
            _ => {},
        }
    }
}

/// The arguments of `printf` are read in order, a comma before each.
pub proof fn printed_arguments_are_read_in_order(src: Source, at: int, item: ExprView, a: int)
    requires
        0 <= at < src.tokens.len(),
    ensures
        tok(src, at) == Token::Comma && expr(src, at + 1) == (
            Ok::<ExprView, ErrorView>(item),
            a,
        ) && moved(src, at, a) ==> more_arguments(src, at, Seq::empty()) == continued(
            seq![item],
            more_arguments(src, a, Seq::empty()),
        ),
        tok(src, at) != Token::Comma ==> more_arguments(src, at, Seq::empty()) == (
            Ok::<Seq<ExprView>, ErrorView>(Seq::empty()),
            at,
        ),
{
    lemma_push(Seq::empty(), item, Seq::empty());
    lemma_more_arguments(src, a, seq![item]);
}

/// A block that is closed by `end`.
pub open spec fn closed_block(
    src: Source,
    at: int,
    statements: Seq<StatementView>,
    to: int,
) -> bool {
    block(src, at, Seq::empty()) == (Ok::<Seq<StatementView>, ErrorView>(statements), to - 1)
        && tok(src, to - 1) == Token::End
}

/// `while condition do ... end`
pub proof fn while_loops_are_read(
    src: Source,
    at: int,
    condition: ExprView,
    a: int,
    statements: Seq<StatementView>,
    b: int,
)
    requires
        0 <= at,
        at + 1 < src.tokens.len(),
        tok(src, at) == Token::While,
        read(src, expr(src, at + 1), at + 1, condition, a),
        tok(src, a) == Token::Do,
        closed_block(src, a + 1, statements, b),
    ensures
        stands(src, at, StatementView::While { condition, body: statements }, b),
{
    assert(body(src, a + 1) == (Ok::<Seq<StatementView>, ErrorView>(statements), b));
    assert(loop_body(src, a) == (Ok::<Seq<StatementView>, ErrorView>(statements), b));
    assert(while_statement(src, at + 1) == (
        Ok::<StatementView, ErrorView>(StatementView::While { condition, body: statements }),
        b,
    ));
    assert(statement_inner(src, at) == while_statement(src, at + 1));
}

/// `for name = first, last do ... end`
pub proof fn counting_loops_are_read(
    src: Source,
    at: int,
    id: StringId,
    start: ExprView,
    a: int,
    end: ExprView,
    b: int,
    statements: Seq<StatementView>,
    c: int,
)
    requires
        0 <= at,
        at + 3 < src.tokens.len(),
        tok(src, at) == Token::For,
        tok(src, at + 1) == Token::Ident(id),
        tok(src, at + 2) == Token::Equal,
        read(src, expr(src, at + 3), at + 3, start, a),
        tok(src, a) == Token::Comma,
        read(src, expr(src, a + 1), a + 1, end, b),
        tok(src, b) == Token::Do,
        closed_block(src, b + 1, statements, c),
    ensures
        stands(
            src,
            at,
            StatementView::For {
                name: src.strings[id.0 as int],
                start,
                end,
                body: statements,
            },
            c,
        ),
{
    let n = src.strings[id.0 as int];
    let node = StatementView::For { name: n, start, end, body: statements };
    assert(body(src, b + 1) == (Ok::<Seq<StatementView>, ErrorView>(statements), c));
    assert(loop_body(src, b) == (Ok::<Seq<StatementView>, ErrorView>(statements), c));
    assert(for_range(src, at + 3, n) == (Ok::<StatementView, ErrorView>(node), c));
    assert(for_statement(src, at + 1) == for_range(src, at + 3, n));
    assert(statement_inner(src, at) == for_statement(src, at + 1));
}

/// `for name in iterable do ... end`
pub proof fn loops_over_items_are_read(
    src: Source,
    at: int,
    id: StringId,
    iterable: ExprView,
    a: int,
    statements: Seq<StatementView>,
    b: int,
)
    requires
        0 <= at,
        at + 3 < src.tokens.len(),
        tok(src, at) == Token::For,
        tok(src, at + 1) == Token::Ident(id),
        tok(src, at + 2) == Token::In,
        read(src, expr(src, at + 3), at + 3, iterable, a),
        tok(src, a) == Token::Do,
        closed_block(src, a + 1, statements, b),
    ensures
        stands(
            src,
            at,
            StatementView::ForIn { name: src.strings[id.0 as int], iterable, body: statements },
            b,
        ),
{
    let n = src.strings[id.0 as int];
    let node = StatementView::ForIn { name: n, iterable, body: statements };
    assert(body(src, a + 1) == (Ok::<Seq<StatementView>, ErrorView>(statements), b));
    assert(loop_body(src, a) == (Ok::<Seq<StatementView>, ErrorView>(statements), b));
    assert(for_each(src, at + 3, n) == (Ok::<StatementView, ErrorView>(node), b));
    assert(for_statement(src, at + 1) == for_each(src, at + 3, n));
    assert(statement_inner(src, at) == for_statement(src, at + 1));
}

/// `if condition then ... `, and what may stand before the `end`.
#[verifier::spinoff_prover]
#[verifier::rlimit(40)]
pub proof fn conditionals_are_read(
    src: Source,
    at: int,
    condition: ExprView,
    a: int,
    then_body: Seq<StatementView>,
    b: int,
    else_body: Seq<StatementView>,
    c: int,
)
    requires
        0 <= at,
        at + 1 < src.tokens.len(),
        tok(src, at) == Token::If,
        read(src, expr(src, at + 1), at + 1, condition, a),
        tok(src, a) == Token::Then,
        moved(src, at, a + 1),
        read(src, block(src, a + 1, Seq::empty()), at + 1, then_body, b),
        else_chain(src, b) == (Ok::<Seq<StatementView>, ErrorView>(else_body), c),
    ensures
        stands(src, at, StatementView::If { condition, then_body, else_body }, c),
{
    let node = StatementView::If { condition, then_body, else_body };
    assert(need(src, a, Token::Then) == (Ok::<(), ErrorView>(()), a + 1));
    assert(if_statement(src, at + 1) == (Ok::<StatementView, ErrorView>(node), c));
    assert(statement_inner(src, at) == if_statement(src, at + 1));
}

/// `elseif` is a conditional of its own in the `else`.
#[verifier::spinoff_prover]
#[verifier::rlimit(40)]
pub proof fn further_conditions_are_nested(
    src: Source,
    at: int,
    condition: ExprView,
    a: int,
    then_body: Seq<StatementView>,
    b: int,
    else_body: Seq<StatementView>,
    c: int,
)
    requires
        0 <= at,
        at + 1 < src.tokens.len(),
        tok(src, at) == Token::ElseIf,
        read(src, expr(src, at + 1), at + 1, condition, a),
        tok(src, a) == Token::Then,
        moved(src, at, a + 1),
        read(src, block(src, a + 1, Seq::empty()), at + 1, then_body, b),
        else_chain(src, b) == (Ok::<Seq<StatementView>, ErrorView>(else_body), c),
    ensures
        else_chain(src, at) == (
            Ok::<Seq<StatementView>, ErrorView>(
                seq![
                    StatementView::Located {
                        node: Box::new(StatementView::If { condition, then_body, else_body }),
                        location: src.tokens[at].location,
                    },
                ],
            ),
            c,
        ),
{
    assert(need(src, a, Token::Then) == (Ok::<(), ErrorView>(()), a + 1));
    assert(place(src, at) == src.tokens[at].location);
}

/// How a conditional ends.
pub proof fn conditionals_end(src: Source, at: int, statements: Seq<StatementView>, b: int)
    requires
        0 <= at < src.tokens.len(),
    ensures
        tok(src, at) == Token::End ==> else_chain(src, at) == (
            Ok::<Seq<StatementView>, ErrorView>(Seq::empty()),
            at + 1,
        ),
        tok(src, at) == Token::Else && closed_block(src, at + 1, statements, b) ==> else_chain(
            src,
            at,
        ) == (Ok::<Seq<StatementView>, ErrorView>(statements), b),
{
    if tok(src, at) == Token::Else && closed_block(src, at + 1, statements, b) {
        assert(body(src, at + 1) == (Ok::<Seq<StatementView>, ErrorView>(statements), b));
    }
}

/// `break`, `continue`, `this.method()` and `name.method()`.
pub proof fn short_statements_are_read(src: Source, at: int, id: StringId, method: StringId)
    requires
        0 <= at < src.tokens.len(),
    ensures
        tok(src, at) == Token::Break ==> stands(src, at, StatementView::Break, at + 1),
        tok(src, at) == Token::Continue ==> stands(src, at, StatementView::Continue, at + 1),
        tok(src, at + 1) == Token::Dot && tok(src, at + 2) == Token::Ident(method) && tok(
            src,
            at + 3,
        ) == Token::LParen && tok(src, at + 4) == Token::RParen ==> {
            let m = src.strings[method.0 as int];
            &&& tok(src, at) == Token::This ==> stands(
                src,
                at,
                StatementView::CallMethod { receiver: ReceiverView::This, method: m },
                at + 5,
            )
            &&& tok(src, at) == Token::Ident(id) ==> stands(
                src,
                at,
                StatementView::CallMethod {
                    receiver: ReceiverView::Name(src.strings[id.0 as int]),
                    method: m,
                },
                at + 5,
            )
        },
{
}

proof fn lemma_parameters(src: Source, at: int, before: Seq<(Seq<char>, TypeView)>)
    ensures
        parameters(src, at, before) == continued(before, parameters(src, at, Seq::empty())),
    decreases src.tokens.len() - at,
{
    if at < src.tokens.len() {
        match name(src, at, "expected argument name"@) {
            (Ok(n), a) => if tok(src, a) == Token::Colon {
                match parsed_type(src, a + 1) {
                    (Ok(ty), c) => if moved(src, at, c) {
                        lemma_push(before, (n, ty), Seq::empty());
                        if tok(src, c) == Token::Comma {
                            lemma_parameters(src, c + 1, before.push((n, ty)));
                            lemma_parameters(src, c + 1, seq![(n, ty)]);
                            match parameters(src, c + 1, Seq::empty()) {
                                (Ok(items), _) => {
                                    lemma_push(before, (n, ty), items);
                                },
                                _ => {},
                            }
                        }
                    },
                    _ => {},
                }
            },
            _ => {},
        }
    }
}

/// Parameters are read in order: a name, a colon and a type each.
pub proof fn parameters_are_read_in_order(
    src: Source,
    at: int,
    id: StringId,
    ty: TypeView,
    a: int,
)
    requires
        0 <= at,
        at + 2 < src.tokens.len(),
        tok(src, at) == Token::Ident(id),
        tok(src, at + 1) == Token::Colon,
        read(src, parsed_type(src, at + 2), at + 2, ty, a),
    ensures
        ({
            let one = seq![(src.strings[id.0 as int], ty)];
            &&& tok(src, a) == Token::Comma ==> parameters(src, at, Seq::empty()) == continued(
                one,
                parameters(src, a + 1, Seq::empty()),
            )
            &&& tok(src, a) == Token::RParen ==> parameters(src, at, Seq::empty()) == (
                Ok::<Seq<(Seq<char>, TypeView)>, ErrorView>(one),
                a + 1,
            )
        }),
{
    let x = (src.strings[id.0 as int], ty);
    lemma_push(Seq::empty(), x, Seq::empty());
    lemma_parameters(src, a + 1, seq![x]);
}

/// `function Struct::method(parameters) ... end` and `export function name() ... end`.
pub proof fn functions_are_read(
    src: Source,
    at: int,
    id: StringId,
    method: StringId,
    args: Seq<(Seq<char>, TypeView)>,
    a: int,
    statements: Seq<StatementView>,
    b: int,
)
    requires
        0 <= at,
        at + 4 < src.tokens.len(),
        tok(src, at) == Token::Function,
        tok(src, at + 1) == Token::Ident(id),
    ensures
        ({
            let n = src.strings[id.0 as int];
            &&& tok(src, at + 2) == Token::DoubleColon && tok(src, at + 3) == Token::Ident(method)
                && read(src, parameter_list(src, at + 4), at + 1, args, a) && closed_block(
                src,
                a,
                statements,
                b,
            ) ==> stands(
                src,
                at,
                StatementView::MethodDefinition {
                    struct_name: n,
                    method: src.strings[method.0 as int],
                    args,
                    body: statements,
                },
                b,
            )
            &&& at > 0 && tok(src, at - 1) == Token::Export && tok(src, at + 2) == Token::LParen
                && tok(src, at + 3) == Token::RParen && closed_block(src, at + 4, statements, b)
                ==> stands(
                src,
                at - 1,
                StatementView::ExportFunction { name: n, body: statements },
                b,
            )
        }),
{
    let n = src.strings[id.0 as int];
    if tok(src, at + 2) == Token::DoubleColon && tok(src, at + 3) == Token::Ident(method) && read(
        src,
        parameter_list(src, at + 4),
        at + 1,
        args,
        a,
    ) && closed_block(src, a, statements, b) {
        assert(body(src, a) == (Ok::<Seq<StatementView>, ErrorView>(statements), b));
        assert(statement_inner(src, at) == method_definition(src, at + 1));
    }
    if at > 0 && tok(src, at - 1) == Token::Export && tok(src, at + 2) == Token::LParen && tok(
        src,
        at + 3,
    ) == Token::RParen && closed_block(src, at + 4, statements, b) {
        assert(body(src, at + 4) == (Ok::<Seq<StatementView>, ErrorView>(statements), b));
        assert(exported_function(src, at + 1) == (
            Ok::<StatementView, ErrorView>(
                StatementView::ExportFunction { name: n, body: statements },
            ),
            b,
        ));
        assert(exported(src, at) == exported_function(src, at + 1));
        assert(statement_inner(src, at - 1) == exported(src, at));
    }
}

/// A parameter list may be empty.
pub proof fn parameter_lists_are_read(src: Source, at: int)
    requires
        0 <= at,
        at + 1 < src.tokens.len(),
        tok(src, at) == Token::LParen,
    ensures
        tok(src, at + 1) == Token::RParen ==> parameter_list(src, at) == (
            Ok::<Seq<(Seq<char>, TypeView)>, ErrorView>(Seq::empty()),
            at + 2,
        ),
        tok(src, at + 1) is Ident ==> parameter_list(src, at) == parameters(
            src,
            at + 1,
            Seq::empty(),
        ),
{
}

} // verus!
