//! Laws of the grammar: how tokens group into expressions and statements.
use vstd::prelude::*;
use crate::ast::ExprView;
use crate::grammar::{
    Source, atom, binary, binary_rest, casts, expr, index_list, levels, moved, name, named,
    operator, parsed_type, place, postfix, primary, tensor_factory, tok, unary,
};
use crate::lexer::{Token, keyword, pair_token, single_token};
use crate::ops::{BinOp, UnOp};
use crate::types::{ErrorView, TypeView};

verus! {

/// How tightly an operator binds; a higher rank binds tighter.
pub open spec fn rank(op: BinOp) -> int {
    match op {
        BinOp::Or => 0,
        BinOp::And => 1,
        BinOp::Eq | BinOp::Neq => 2,
        BinOp::Lt | BinOp::Le | BinOp::Gt | BinOp::Ge => 3,
        BinOp::BitOr => 4,
        BinOp::BitXor => 5,
        BinOp::BitAnd => 6,
        BinOp::Shl | BinOp::Shr => 7,
        BinOp::Add | BinOp::Sub => 8,
        BinOp::Mul | BinOp::Div | BinOp::Mod => 9,
    }
}

/// The characters that an operator is written with.
pub open spec fn symbol(op: BinOp) -> Seq<char> {
    match op {
        BinOp::Or => seq!['|', '|'],
        BinOp::And => seq!['&', '&'],
        BinOp::Eq => seq!['=', '='],
        BinOp::Neq => seq!['!', '='],
        BinOp::Lt => seq!['<'],
        BinOp::Le => seq!['<', '='],
        BinOp::Gt => seq!['>'],
        BinOp::Ge => seq!['>', '='],
        BinOp::BitOr => seq!['|'],
        BinOp::BitXor => seq!['^'],
        BinOp::BitAnd => seq!['&'],
        BinOp::Shl => seq!['<', '<'],
        BinOp::Shr => seq!['>', '>'],
        BinOp::Add => seq!['+'],
        BinOp::Sub => seq!['-'],
        BinOp::Mul => seq!['*'],
        BinOp::Div => seq!['/'],
        BinOp::Mod => seq!['%'],
    }
}

/// The token that an operator's characters are read as.
pub open spec fn token_for(op: BinOp) -> Token {
    let s = symbol(op);
    if s.len() == 2 {
        pair_token(s[0], s[1])->Some_0
    } else {
        single_token(s[0])->Some_0
    }
}

/// Whether a token is that of an operator.
pub open spec fn is_operator(t: Token) -> bool {
    exists|op: BinOp| #[trigger] token_for(op) == t
}

/// The characters of an operator are read as a token that denotes this operator,
/// at one level and at no other.
pub proof fn operators_are_known_by_their_characters(op: BinOp, level: int)
    ensures
        symbol(op).len() == 2 ==> pair_token(symbol(op)[0], symbol(op)[1]) is Some,
        symbol(op).len() == 1 ==> single_token(symbol(op)[0]) is Some,
        operator(level, token_for(op)) == (if level == rank(op) {
            Some(op)
        } else {
            None
        }),
{
}

/// A token that is an operator's at some level is that operator's token.
proof fn lemma_operator(level: int, t: Token)
    ensures
        operator(level, t) matches Some(op) ==> t == token_for(op) && rank(op) == level,
        !is_operator(t) ==> operator(level, t) is None,
{
    if let Some(op) = operator(level, t) {
        operators_are_known_by_their_characters(op, level);
        assert(t == token_for(op));
    }
}

/// How tightly the operator at the top of an expression binds. What is in
/// parentheses, and what has no operator, is as tight as can be.
pub open spec fn top_rank(e: ExprView) -> int {
    match e {
        ExprView::Binary(_, op, _) => rank(op),
        _ => 10,
    }
}

/// Whether operators are grouped as they bind: what stands left of an operator
/// binds no looser, what stands right of it binds tighter.
pub open spec fn grouped(e: ExprView) -> bool
    decreases e,
{
    match e {
        ExprView::Binary(l, op, r) => {
            &&& top_rank(*l) >= rank(op)
            &&& top_rank(*r) > rank(op)
            &&& grouped(*l)
            &&& grouped(*r)
        },
        _ => true,
    }
}

proof fn lemma_casts_grouped(src: Source, at: int, inner: ExprView)
    requires
        !(inner is Binary),
    ensures
        casts(src, at, inner) matches (Ok(e), _) ==> !(e is Binary),
    decreases src.tokens.len() - at,
{
    if at < src.tokens.len() && tok(src, at) == Token::As {
        if let (Ok(ty), a) = parsed_type(src, at + 1) {
            if moved(src, at, a) {
                lemma_casts_grouped(src, a, ExprView::Cast(Box::new(inner), ty));
            }
        }
    }
}

proof fn lemma_postfix_grouped(src: Source, at: int, inner: ExprView)
    requires
        !(inner is Binary),
    ensures
        postfix(src, at, inner) matches (Ok(e), _) ==> !(e is Binary),
    decreases src.tokens.len() - at,
{
    if at < src.tokens.len() {
        if tok(src, at) == Token::LBracket {
            if let (Ok(indices), a) = index_list(src, at + 1) {
                if moved(src, at, a) {
                    lemma_postfix_grouped(src, a, ExprView::Index(Box::new(inner), indices));
                }
            }
        } else if tok(src, at) == Token::Dot {
            if let (Ok(field), a) = name(src, at + 1, "expected field name"@) {
                if moved(src, at, a) {
                    lemma_postfix_grouped(src, a, ExprView::Field(Box::new(inner), field));
                }
            }
        }
    }
}

proof fn lemma_atom_grouped(src: Source, at: int)
    ensures
        atom(src, at) matches (Ok(e), _) ==> !(e is Binary),
{
    reveal_with_fuel(expr, 2);
    reveal_with_fuel(named, 2);
    reveal_with_fuel(tensor_factory, 2);
}

proof fn lemma_unary_grouped(src: Source, at: int)
    ensures
        unary(src, at) matches (Ok(e), _) ==> !(e is Binary),
{
    lemma_atom_grouped(src, at);
    reveal_with_fuel(primary, 2);
    if let (Ok(inner), a) = atom(src, at) {
        if moved(src, at, a) {
            lemma_postfix_grouped(src, a, inner);
        }
    }
    if let (Ok(inner), a) = primary(src, at) {
        lemma_casts_grouped(src, a, inner);
    }
}

proof fn lemma_binary_grouped(src: Source, at: int, level: int)
    requires
        0 <= level <= levels(),
    ensures
        binary(src, at, level) matches (Ok(e), _) ==> grouped(e) && top_rank(e) >= level,
    decreases src.tokens.len() - at, levels() - level, 0int,
{
    if level == levels() {
        lemma_unary_grouped(src, at);
    } else {
        lemma_binary_grouped(src, at, level + 1);
        if let (Ok(left), a) = binary(src, at, level + 1) {
            if moved(src, at, a) {
                lemma_rest_grouped(src, a, level, left);
            }
        }
    }
}

proof fn lemma_rest_grouped(src: Source, at: int, level: int, left: ExprView)
    requires
        0 <= level < levels(),
        grouped(left),
        top_rank(left) >= level,
    ensures
        binary_rest(src, at, level, left) matches (Ok(e), _) ==> grouped(e) && top_rank(e) >= level,
    decreases src.tokens.len() - at, levels() + 1, 1int,
{
    if at < src.tokens.len() {
        lemma_operator(level, tok(src, at));
        if let Some(op) = operator(level, tok(src, at)) {
            lemma_binary_grouped(src, at + 1, level + 1);
            if let (Ok(right), a) = binary(src, at + 1, level + 1) {
                if moved(src, at, a) {
                    lemma_rest_grouped(
                        src,
                        a,
                        level,
                        ExprView::Binary(Box::new(left), op, Box::new(right)),
                    );
                }
            }
        }
    }
}

/// Whatever is read as an expression is grouped by how tightly its operators
/// bind, and operators that bind alike from the left.
pub proof fn expressions_are_grouped_by_rank(src: Source, at: int)
    ensures
        expr(src, at) matches (Ok(e), _) ==> e is Located && grouped(*e->Located_node),
{
    lemma_binary_grouped(src, at, 0);
}

/// What is read at a level is read at a lower one, where no operator of the
/// levels in between follows.
proof fn lemma_down(src: Source, at: int, level: int, low: int, e: ExprView, a: int)
    requires
        0 <= low <= level <= levels(),
        binary(src, at, level) == (Ok::<ExprView, ErrorView>(e), a),
        moved(src, at, a),
        forall|k: int| low <= k < level ==> (#[trigger] operator(k, tok(src, a))) is None,
    ensures
        binary(src, at, low) == (Ok::<ExprView, ErrorView>(e), a),
    decreases level - low,
{
    if low < level {
        lemma_down(src, at, level, low + 1, e, a);
        assert(operator(low, tok(src, a)) is None);
        assert(binary_rest(src, a, low, e) == (Ok::<ExprView, ErrorView>(e), a));
    }
}

proof fn lemma_no_operator(t: Token)
    requires
        !is_operator(t),
    ensures
        forall|k: int| (#[trigger] operator(k, t)) is None,
{
    assert forall|k: int| (#[trigger] operator(k, t)) is None by {
        lemma_operator(k, t);
    }
}

proof fn lemma_other_levels(op: BinOp)
    ensures
        forall|k: int| k != rank(op) ==> (#[trigger] operator(k, token_for(op))) is None,
        operator(rank(op), token_for(op)) == Some(op),
{
}

/// One operand behind another, with an operator between them that nothing of the
/// same or a higher rank follows.
proof fn lemma_pair(
    src: Source,
    at: int,
    a: int,
    b: int,
    x: ExprView,
    y: ExprView,
    op: BinOp,
    low: int,
)
    requires
        unary(src, at) == (Ok::<ExprView, ErrorView>(x), a),
        moved(src, at, a),
        tok(src, a) == token_for(op),
        unary(src, a + 1) == (Ok::<ExprView, ErrorView>(y), b),
        moved(src, a + 1, b),
        0 <= low <= rank(op),
        forall|k: int| low <= k < levels() ==> (#[trigger] operator(k, tok(src, b))) is None,
    ensures
        binary(src, at, low) == (
            Ok::<ExprView, ErrorView>(ExprView::Binary(Box::new(x), op, Box::new(y))),
            b,
        ),
{
    let r = rank(op);
    lemma_other_levels(op);
    lemma_down(src, at, levels(), r + 1, x, a);
    lemma_down(src, a + 1, levels(), r + 1, y, b);
    assert(operator(r, tok(src, b)) is None);
    let e = ExprView::Binary(Box::new(x), op, Box::new(y));
    assert(binary_rest(src, b, r, e) == (Ok::<ExprView, ErrorView>(e), b));
    assert(binary_rest(src, a, r, x) == (Ok::<ExprView, ErrorView>(e), b));
    assert(binary(src, at, r) == (Ok::<ExprView, ErrorView>(e), b));
    lemma_down(src, at, r, low, ExprView::Binary(Box::new(x), op, Box::new(y)), b);
}

/// Three operands with two operators between them, whatever the operands are: the
/// operator that binds tighter takes the operand in the middle, and of two that
/// bind alike the first one does.
pub proof fn two_operators_group_by_rank(
    src: Source,
    at: int,
    a: int,
    b: int,
    c: int,
    x: ExprView,
    first: BinOp,
    y: ExprView,
    second: BinOp,
    z: ExprView,
)
    requires
        unary(src, at) == (Ok::<ExprView, ErrorView>(x), a),
        moved(src, at, a),
        tok(src, a) == token_for(first),
        unary(src, a + 1) == (Ok::<ExprView, ErrorView>(y), b),
        moved(src, a + 1, b),
        tok(src, b) == token_for(second),
        unary(src, b + 1) == (Ok::<ExprView, ErrorView>(z), c),
        moved(src, b + 1, c),
        !is_operator(tok(src, c)),
    ensures
        expr(src, at) == (
            Ok::<ExprView, ErrorView>(
                ExprView::Located {
                    node: Box::new(
                        if rank(second) > rank(first) {
                            ExprView::Binary(
                                Box::new(x),
                                first,
                                Box::new(ExprView::Binary(Box::new(y), second, Box::new(z))),
                            )
                        } else {
                            ExprView::Binary(
                                Box::new(ExprView::Binary(Box::new(x), first, Box::new(y))),
                                second,
                                Box::new(z),
                            )
                        },
                    ),
                    location: place(src, at),
                },
            ),
            c,
        ),
{
    let (r1, r2) = (rank(first), rank(second));
    lemma_no_operator(tok(src, c));
    lemma_other_levels(first);
    lemma_other_levels(second);
    if r2 > r1 {
        lemma_down(src, at, levels(), r1 + 1, x, a);
        lemma_pair(src, a + 1, b, c, y, z, second, r1 + 1);
        let right = ExprView::Binary(Box::new(y), second, Box::new(z));
        let e = ExprView::Binary(Box::new(x), first, Box::new(right));
        assert(operator(r1, tok(src, c)) is None);
        assert(binary_rest(src, c, r1, e) == (Ok::<ExprView, ErrorView>(e), c));
        assert(binary_rest(src, a, r1, x) == (Ok::<ExprView, ErrorView>(e), c));
        assert(binary(src, at, r1) == (Ok::<ExprView, ErrorView>(e), c));
        lemma_down(src, at, r1, 0, e, c);
    } else {
        let left = ExprView::Binary(Box::new(x), first, Box::new(y));
        let e = ExprView::Binary(Box::new(left), second, Box::new(z));
        lemma_down(src, b + 1, levels(), r2 + 1, z, c);
        assert(operator(r2, tok(src, c)) is None);
        if r2 < r1 {
            lemma_pair(src, at, a, b, x, y, first, r2 + 1);
            assert(binary_rest(src, c, r2, e) == (Ok::<ExprView, ErrorView>(e), c));
            assert(binary_rest(src, b, r2, left) == (Ok::<ExprView, ErrorView>(e), c));
            assert(binary(src, at, r2) == (Ok::<ExprView, ErrorView>(e), c));
        } else {
            lemma_down(src, at, levels(), r1 + 1, x, a);
            lemma_down(src, a + 1, levels(), r1 + 1, y, b);
            assert(binary_rest(src, c, r2, e) == (Ok::<ExprView, ErrorView>(e), c));
            assert(binary_rest(src, b, r2, left) == (Ok::<ExprView, ErrorView>(e), c));
            assert(binary_rest(src, a, r2, x) == (Ok::<ExprView, ErrorView>(e), c));
            assert(binary(src, at, r2) == (Ok::<ExprView, ErrorView>(e), c));
        }
        lemma_down(src, at, r2, 0, e, c);
    }
}

/// Two operands with an operator between them, in their order.
pub proof fn operands_keep_their_order(
    src: Source,
    at: int,
    a: int,
    b: int,
    x: ExprView,
    op: BinOp,
    y: ExprView,
)
    requires
        unary(src, at) == (Ok::<ExprView, ErrorView>(x), a),
        moved(src, at, a),
        tok(src, a) == token_for(op),
        unary(src, a + 1) == (Ok::<ExprView, ErrorView>(y), b),
        moved(src, a + 1, b),
        !is_operator(tok(src, b)),
    ensures
        expr(src, at) == (
            Ok::<ExprView, ErrorView>(
                ExprView::Located {
                    node: Box::new(ExprView::Binary(Box::new(x), op, Box::new(y))),
                    location: place(src, at),
                },
            ),
            b,
        ),
{
    lemma_no_operator(tok(src, b));
    lemma_pair(src, at, a, b, x, y, op, 0);
}

/// A sign before an operand belongs to the operand alone, with the casts behind
/// it, and not to an operator further on; signs stand one before the other.
pub proof fn signs_belong_to_their_operand(src: Source, at: int, a: int, x: ExprView)
    requires
        at < src.tokens.len(),
        unary(src, at + 1) == (Ok::<ExprView, ErrorView>(x), a),
    ensures
        tok(src, at) == single_token('-')->Some_0 ==> unary(src, at) == (
            Ok::<ExprView, ErrorView>(ExprView::Unary(UnOp::Neg, Box::new(x))),
            a,
        ),
        tok(src, at) == single_token('!')->Some_0 ==> unary(src, at) == (
            Ok::<ExprView, ErrorView>(ExprView::Unary(UnOp::Not, Box::new(x))),
            a,
        ),
        single_token('-') is Some && single_token('!') is Some,
{
}

/// A cast takes what stands before it, and another cast takes the first one.
pub proof fn casts_take_what_stands_before(
    src: Source,
    at: int,
    a: int,
    b: int,
    x: ExprView,
    ty: TypeView,
)
    requires
        at < src.tokens.len(),
        primary(src, at) == (Ok::<ExprView, ErrorView>(x), a),
        tok(src, at) != Token::Minus && tok(src, at) != Token::Bang,
        moved(src, at, a),
        tok(src, a) == keyword("as"@)->Some_0,
        parsed_type(src, a + 1) == (Ok::<TypeView, ErrorView>(ty), b),
        moved(src, a, b),
        tok(src, b) != Token::As,
    ensures
        unary(src, at) == (
            Ok::<ExprView, ErrorView>(ExprView::Cast(Box::new(x), ty)),
            b,
        ),
{
    lemma_keywords();
    reveal_with_fuel(casts, 3);
}

/// What stands in parentheses is one operand.
pub proof fn parentheses_make_one_operand(src: Source, at: int, a: int, e: ExprView)
    requires
        0 <= at < src.tokens.len(),
        tok(src, at) == single_token('(')->Some_0,
        expr(src, at + 1) == (Ok::<ExprView, ErrorView>(e), a),
        tok(src, a) == single_token(')')->Some_0,
    ensures
        atom(src, at) == (Ok::<ExprView, ErrorView>(e), a + 1),
{
}

proof fn lemma_keywords()
    ensures
        keyword("as"@) == Some(Token::As),
{
    reveal_strlit("as");
    reveal_strlit("let");
    reveal_strlit("print");
    reveal_strlit("printf");
    reveal_strlit("putc");
    reveal_strlit("input");
    reveal_strlit("this");
    reveal_strlit("function");
    reveal_strlit("export");
    reveal_strlit("require");
    reveal_strlit("if");
    reveal_strlit("then");
    reveal_strlit("else");
    reveal_strlit("elseif");
    reveal_strlit("while");
    reveal_strlit("for");
    reveal_strlit("do");
    reveal_strlit("break");
    reveal_strlit("continue");
    reveal_strlit("struct");
    reveal_strlit("table");
    reveal_strlit("end");
    reveal_strlit("in");
    assert("as"@.len() == 2);
    assert("as"@[0] == 'a');
    assert("if"@[0] == 'i' && "do"@[0] == 'd' && "in"@[0] == 'i');
}

} // verus!
