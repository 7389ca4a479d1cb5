//! Laws of words: how the characters of a program become tokens and types.
use vstd::prelude::*;
use crate::ast::MethodView;
use crate::grammar::{
    Parsed, Source, bracketed_type, member_method, members, moved, need, parsed_type, simple_type,
    tensor_type, tok, token_text,
};
use crate::lexer::{
    StringId, Token, comment_end, escape, keyword, number_end, string_body,
    word_end,
};
use crate::text::{is_digit, is_word_char};
use crate::types::{ErrorView, TypeView, location_at, size_of_type, type_text};

verus! {

/// A capital letter as a small one; other characters as they are.
pub open spec fn small(c: char) -> char {
    if 'A' <= c <= 'Z' {
        ((c as u32) + 32) as char
    } else {
        c
    }
}

/// A text in small letters.
pub open spec fn in_small_letters(s: Seq<char>) -> Seq<char> {
    s.map_values(|c: char| small(c))
}

/// A word of the language is the word that the token is called by.
#[verifier::spinoff_prover]
#[verifier::rlimit(40)]
pub proof fn keywords_are_called_by_their_name(word: Seq<char>, texts: Seq<Seq<char>>)
    requires
        keyword(word) is Some,
    ensures
        in_small_letters(token_text(texts, keyword(word)->Some_0)) == word,
{
    reveal_strlit("let");
    reveal_strlit("Let");
    reveal_strlit("print");
    reveal_strlit("Print");
    reveal_strlit("printf");
    reveal_strlit("Printf");
    reveal_strlit("putc");
    reveal_strlit("Putc");
    reveal_strlit("input");
    reveal_strlit("Input");
    reveal_strlit("this");
    reveal_strlit("This");
    reveal_strlit("function");
    reveal_strlit("Function");
    reveal_strlit("export");
    reveal_strlit("Export");
    reveal_strlit("require");
    reveal_strlit("Require");
    reveal_strlit("if");
    reveal_strlit("If");
    reveal_strlit("then");
    reveal_strlit("Then");
    reveal_strlit("else");
    reveal_strlit("Else");
    reveal_strlit("elseif");
    reveal_strlit("ElseIf");
    reveal_strlit("while");
    reveal_strlit("While");
    reveal_strlit("for");
    reveal_strlit("For");
    reveal_strlit("do");
    reveal_strlit("Do");
    reveal_strlit("break");
    reveal_strlit("Break");
    reveal_strlit("continue");
    reveal_strlit("Continue");
    reveal_strlit("struct");
    reveal_strlit("Struct");
    reveal_strlit("table");
    reveal_strlit("Table");
    reveal_strlit("end");
    reveal_strlit("End");
    reveal_strlit("as");
    reveal_strlit("As");
    reveal_strlit("in");
    reveal_strlit("In");
    assert(in_small_letters(token_text(texts, keyword(word)->Some_0)) =~= word);
}

/// Places in a text: the first character stands in line 1, column 1; a line break
/// starts the next line, and any other character takes one column.
pub proof fn places_go_from_left_to_right_and_down(s: Seq<char>, i: int)
    requires
        0 <= i < s.len(),
    ensures
        location_at(s, 0) == (1int, 1int),
        location_at(s, i + 1) == (if s[i] == '\n' {
            (location_at(s, i).0 + 1, 1int)
        } else {
            (location_at(s, i).0, location_at(s, i).1 + 1)
        }),
{
    assert(s.take(0) =~= Seq::empty());
    assert(s.take(i + 1).drop_last() =~= s.take(i));
    assert(s.take(i + 1).last() == s[i]);
    assert(s.take(s.len() as int) =~= s);
}

/// A word goes on as long as its characters do: it ends before the first other
/// character.
pub proof fn words_end_before_other_characters(s: Seq<char>, i: int)
    requires
        0 <= i <= s.len(),
    ensures
        i <= word_end(s, i) <= s.len(),
        forall|k: int| i <= k < word_end(s, i) ==> is_word_char(#[trigger] s[k]),
        word_end(s, i) < s.len() ==> !is_word_char(s[word_end(s, i)]),
    decreases s.len() - i,
{
    if i < s.len() && is_word_char(s[i]) {
        words_end_before_other_characters(s, i + 1);
    }
}

/// A comment takes the rest of its line and nothing of the next.
pub proof fn comments_end_with_their_line(s: Seq<char>, i: int)
    requires
        0 <= i <= s.len(),
    ensures
        i <= comment_end(s, i) <= s.len(),
        forall|k: int| i <= k < comment_end(s, i) ==> #[trigger] s[k] != '\n',
        comment_end(s, i) < s.len() ==> s[comment_end(s, i)] == '\n',
    decreases s.len() - i,
{
    if i < s.len() && s[i] != '\n' {
        comments_end_with_their_line(s, i + 1);
    }
}

/// A number is made of digits and at most one dot, and takes all that stand
/// there. With a dot it is a float, without one an integer.
pub proof fn numbers_have_digits_and_one_dot(s: Seq<char>, i: int, dot: bool)
    requires
        0 <= i <= s.len(),
    ensures
        ({
            let (end, found) = number_end(s, i, dot);
            &&& i <= end <= s.len()
            &&& forall|k: int| i <= k < end ==> is_digit(#[trigger] s[k]) || s[k] == '.'
            &&& forall|j: int, k: int|
                i <= j < k < end && #[trigger] s[j] == '.' ==> #[trigger] s[k] != '.'
            &&& dot ==> found && forall|k: int| i <= k < end ==> #[trigger] s[k] != '.'
            &&& !dot ==> (found <==> exists|k: int| i <= k < end && #[trigger] s[k] == '.')
            &&& end < s.len() ==> !is_digit(s[end]) && (s[end] == '.' ==> found)
        }),
    decreases s.len() - i,
{
    if i < s.len() && is_digit(s[i]) {
        numbers_have_digits_and_one_dot(s, i + 1, dot);
        let (end, found) = number_end(s, i, dot);
        if exists|k: int| i <= k < end && #[trigger] s[k] == '.' {
            let k = choose|k: int| i <= k < end && #[trigger] s[k] == '.';
            assert(i + 1 <= k < end && s[k] == '.');
        }
    } else if i < s.len() && !dot && s[i] == '.' {
        numbers_have_digits_and_one_dot(s, i + 1, true);
        assert(i < number_end(s, i, dot).0 && s[i] == '.');
    }
}

/// A text as it is written between quotes: quotes, backslashes, line breaks, tabs
/// and carriage returns with a backslash before what stands for them.
pub open spec fn quoted(text: Seq<char>) -> Seq<char>
    decreases text.len(),
{
    if text.len() == 0 {
        seq!['"']
    } else {
        let c = text[0];
        (if c == '"' {
            seq!['\\', '"']
        } else if c == '\\' {
            seq!['\\', '\\']
        } else if c == '\n' {
            seq!['\\', 'n']
        } else if c == '\t' {
            seq!['\\', 't']
        } else if c == '\r' {
            seq!['\\', 'r']
        } else {
            seq![c]
        }) + quoted(text.skip(1))
    }
}

/// A text written between quotes is read as that text, and the string ends at its
/// closing quote, whatever stands behind.
#[verifier::spinoff_prover]
#[verifier::rlimit(40)]
pub proof fn quoted_texts_are_read(before: Seq<char>, text: Seq<char>, after: Seq<char>)
    ensures
        string_body(before + quoted(text) + after, before.len() as int) == Some(
            (text, before.len() + quoted(text).len() - 1),
        ),
    decreases text.len(),
{
    let s = before + quoted(text) + after;
    let i = before.len() as int;
    if text.len() == 0 {
        assert(s[i] == '"');
        assert(text =~= Seq::empty());
    } else {
        let rest = quoted(text.skip(1));
        let first = quoted(text).take(quoted(text).len() - rest.len());
        let n = first.len() as int;
        assert(quoted(text) =~= first + rest);
        quoted_texts_are_read(before + first, text.skip(1), after);
        assert(before + first + rest + after =~= s);
        assert((before + first).len() == i + n);
        assert(s[i] == quoted(text)[0]);
        if n == 2 {
            assert(s[i + 1] == quoted(text)[1]);
            assert(s[i] == '\\');
            assert(escape(s[i + 1]) =~= seq![text[0]]);
        }
        assert(seq![text[0]] + text.skip(1) =~= text);
    }
}

/// A backslash before any other character is kept with it.
pub proof fn other_backslashes_are_kept(s: Seq<char>, i: int)
    requires
        0 <= i,
        i + 1 < s.len(),
        s[i] == '\\',
        s[i + 1] != 'n' && s[i + 1] != 't' && s[i + 1] != 'r' && s[i + 1] != '\\' && s[i + 1]
            != '"',
        string_body(s, i + 2) is Some,
    ensures
        string_body(s, i) == Some(
            (
                s.subrange(i, i + 2) + string_body(s, i + 2)->Some_0.0,
                string_body(s, i + 2)->Some_0.1,
            ),
        ),
{
    assert(s.subrange(i, i + 2) =~= seq!['\\', s[i + 1]]);
}

/// The words for types that are not made of others.
pub open spec fn plain_type(t: TypeView) -> bool {
    match t {
        TypeView::Array(_) | TypeView::Tensor(_, _) | TypeView::Table(_) | TypeView::Struct(
            _,
        ) => false,
        TypeView::Module(id) => id.len() == 0,
        _ => true,
    }
}

#[verifier::spinoff_prover]
#[verifier::rlimit(40)]
proof fn lemma_type_letters()
    ensures
        "i8"@.len() == 2,
        "i8"@[0] == 'i',
        "i8"@[1] == '8',
        "i16"@.len() == 3,
        "i16"@[0] == 'i',
        "i16"@[1] == '1',
        "i16"@[2] == '6',
        "i32"@.len() == 3,
        "i32"@[0] == 'i',
        "i32"@[1] == '3',
        "i32"@[2] == '2',
        "i64"@.len() == 3,
        "i64"@[0] == 'i',
        "i64"@[1] == '6',
        "i64"@[2] == '4',
        "u8"@.len() == 2,
        "u8"@[0] == 'u',
        "u8"@[1] == '8',
        "u16"@.len() == 3,
        "u16"@[0] == 'u',
        "u16"@[1] == '1',
        "u16"@[2] == '6',
        "u32"@.len() == 3,
        "u32"@[0] == 'u',
        "u32"@[1] == '3',
        "u32"@[2] == '2',
        "u64"@.len() == 3,
        "u64"@[0] == 'u',
        "u64"@[1] == '6',
        "u64"@[2] == '4',
        "f16"@.len() == 3,
        "f16"@[0] == 'f',
        "f16"@[1] == '1',
        "f16"@[2] == '6',
        "bf16"@.len() == 4,
        "bf16"@[0] == 'b',
        "bf16"@[1] == 'f',
        "bf16"@[2] == '1',
        "f32"@.len() == 3,
        "f32"@[0] == 'f',
        "f32"@[1] == '3',
        "f32"@[2] == '2',
        "f64"@.len() == 3,
        "f64"@[0] == 'f',
        "f64"@[1] == '6',
        "f64"@[2] == '4',
        "bool"@.len() == 4,
        "bool"@[0] == 'b',
        "bool"@[1] == 'o',
        "bool"@[2] == 'o',
        "string"@.len() == 6,
        "string"@[0] == 's',
        "string"@[1] == 't',
        "string"@[2] == 'r',
        "table_key"@.len() == 9,
        "table_key"@[0] == 't',
        "table_key"@[1] == 'a',
        "table_key"@[2] == 'b',
        "table_keys"@.len() == 10,
        "table_keys"@[0] == 't',
        "table_keys"@[1] == 'a',
        "table_keys"@[2] == 'b',
        "module"@.len() == 6,
        "module"@[0] == 'm',
        "module"@[1] == 'o',
        "module"@[2] == 'd',
        "dArray"@.len() == 6,
        "dArray"@[0] == 'd',
        "dArray"@[1] == 'A',
        "dArray"@[2] == 'r',
        "dTensor"@.len() == 7,
        "dTensor"@[0] == 'd',
        "dTensor"@[1] == 'T',
        "dTensor"@[2] == 'e',
        "vector"@.len() == 6,
        "vector"@[0] == 'v',
        "vector"@[1] == 'e',
        "vector"@[2] == 'c',
        "tensor"@.len() == 6,
        "tensor"@[0] == 't',
        "tensor"@[1] == 'e',
        "tensor"@[2] == 'n',
{
    reveal_strlit("i8");
    reveal_strlit("i16");
    reveal_strlit("i32");
    reveal_strlit("i64");
    reveal_strlit("u8");
    reveal_strlit("u16");
    reveal_strlit("u32");
    reveal_strlit("u64");
    reveal_strlit("f16");
    reveal_strlit("bf16");
    reveal_strlit("f32");
    reveal_strlit("f64");
    reveal_strlit("bool");
    reveal_strlit("string");
    reveal_strlit("table_key");
    reveal_strlit("table_keys");
    reveal_strlit("module");
    reveal_strlit("dArray");
    reveal_strlit("dTensor");
    reveal_strlit("vector");
    reveal_strlit("tensor");
}

/// A type is read from the text that it is written as.
#[verifier::spinoff_prover]
#[verifier::rlimit(40)]
pub proof fn types_are_called_by_their_name(t: TypeView)
    requires
        plain_type(t),
    ensures
        simple_type(type_text(t)) == Some(t),
{
    lemma_type_letters();
    if let TypeView::Module(id) = t {
        assert(id =~= Seq::empty());
    }
}

#[verifier::spinoff_prover]
#[verifier::rlimit(40)]
proof fn lemma_type_words()
    ensures
        simple_type("vector"@) is None,
        simple_type("tensor"@) is None,
        "tensor"@ != "vector"@,
{
    lemma_type_letters();
}

/// Types made of others: `vector<T>`, `table<T>`, `tensor<T, n>`, the structs of
/// the program and those of a module.
#[verifier::spinoff_prover]
#[verifier::rlimit(40)]
pub proof fn types_are_made_of_others(
    src: Source,
    at: int,
    id: StringId,
    inner: TypeView,
    a: int,
    rank: i128,
)
    requires
        0 <= at,
        at + 2 < src.tokens.len(),
    ensures
        ({
            let n = src.strings[id.0 as int];
            let held = tok(src, at + 1) == Token::Lt && parsed_type(src, at + 2) == (
                Ok::<TypeView, ErrorView>(inner),
                a,
            );
            &&& tok(src, at) == Token::Ident(id) && simple_type(n) is Some ==> parsed_type(src, at)
                == (Ok::<TypeView, ErrorView>(simple_type(n)->Some_0), at + 1)
            &&& tok(src, at) == Token::Ident(id) && n == "vector"@ && held && tok(src, a)
                == Token::Gt ==> parsed_type(src, at) == (
                Ok::<TypeView, ErrorView>(TypeView::Array(Box::new(inner))),
                a + 1,
            )
            &&& tok(src, at) == Token::Table && held && tok(src, a) == Token::Gt ==> parsed_type(
                src,
                at,
            ) == (Ok::<TypeView, ErrorView>(TypeView::Table(Box::new(inner))), a + 1)
            &&& tok(src, at) == Token::Ident(id) && n == "tensor"@ && held
                && tok(src, a) == Token::Comma && tok(src, a + 1) == Token::Integer(rank) && 0
                < rank <= usize::MAX && tok(src, a + 2) == Token::Gt && size_of_type(inner) is Some
                ==> parsed_type(src, at) == (
                Ok::<TypeView, ErrorView>(TypeView::Tensor(Box::new(inner), rank as usize)),
                a + 3,
            )
            &&& tok(src, at) == Token::Ident(id) && simple_type(n) is None && n != "vector"@ && n
                != "tensor"@ ==> parsed_type(src, at) == (if tok(src, at + 1) == Token::Dot {
                match tok(src, at + 2) {
                    Token::Ident(member) => (
                        Ok::<TypeView, ErrorView>(
                            TypeView::Struct(n + "."@ + src.strings[member.0 as int]),
                        ),
                        at + 3,
                    ),
                    _ => parsed_type(src, at),
                }
            } else {
                (Ok::<TypeView, ErrorView>(TypeView::Struct(n)), at + 1)
            })
        }),
{
    lemma_type_words();
    if tok(src, at + 1) == Token::Lt && parsed_type(src, at + 2) == (
        Ok::<TypeView, ErrorView>(inner),
        a,
    ) {
        if tok(src, a) == Token::Gt {
            assert(bracketed_type(src, at + 1) == (Ok::<TypeView, ErrorView>(inner), a + 1));
        }
        if tok(src, a) == Token::Comma && tok(src, a + 1) == Token::Integer(rank) && 0 < rank
            <= usize::MAX && tok(src, a + 2) == Token::Gt && size_of_type(inner) is Some {
            assert(tensor_type(src, at + 1) == (
                Ok::<TypeView, ErrorView>(TypeView::Tensor(Box::new(inner), rank as usize)),
                a + 3,
            ));
        }
    }
}

/// More members behind those that have been read.
pub open spec fn more_members(
    fields: Seq<(Seq<char>, TypeView)>,
    methods: Seq<MethodView>,
    p: Parsed<(Seq<(Seq<char>, TypeView)>, Seq<MethodView>)>,
) -> Parsed<(Seq<(Seq<char>, TypeView)>, Seq<MethodView>)> {
    match p {
        (Ok((more, others)), to) => (Ok((fields + more, methods + others)), to),
        (Err(e), to) => (Err(e), to),
    }
}

#[verifier::spinoff_prover]
#[verifier::rlimit(40)]
proof fn lemma_members(
    src: Source,
    at: int,
    fields: Seq<(Seq<char>, TypeView)>,
    methods: Seq<MethodView>,
)
    ensures
        members(src, at, fields, methods) == more_members(
            fields,
            methods,
            members(src, at, Seq::empty(), Seq::empty()),
        ),
    decreases src.tokens.len() - at,
{
    let no_fields = Seq::<(Seq<char>, TypeView)>::empty();
    let no_methods = Seq::<MethodView>::empty();
    assert(fields + no_fields =~= fields);
    assert(methods + no_methods =~= methods);
    if at < src.tokens.len() {
        match tok(src, at) {
            Token::Ident(id) => match need(src, at + 1, Token::Colon) {
                (Ok(_), a) => match parsed_type(src, a) {
                    (Ok(ty), b) => if moved(src, at, b) {
                        let x = (src.strings[id.0 as int], ty);
                        let next = if tok(src, b) == Token::Semi || tok(src, b) == Token::Comma {
                            b + 1
                        } else {
                            b
                        };
                        lemma_members(src, next, fields.push(x), methods);
                        lemma_members(src, next, no_fields.push(x), no_methods);
                        match members(src, next, no_fields, no_methods) {
                            (Ok((more, others)), _) => {
                                assert(fields.push(x) + more =~= fields + (no_fields.push(x)
                                    + more));
                                assert(no_methods + others =~= others);
                            },
                            _ => {},
                        }
                    },
                    _ => {},
                },
                _ => {},
            },
            Token::Function => match member_method(src, at + 1) {
                (Ok(method), a) => if moved(src, at, a) {
                    lemma_members(src, a, fields, methods.push(method));
                    lemma_members(src, a, no_fields, no_methods.push(method));
                    match members(src, a, no_fields, no_methods) {
                        (Ok((more, others)), _) => {
                            assert(methods.push(method) + others =~= methods + (no_methods.push(
                                method,
                            ) + others));
                            assert(no_fields + more =~= more);
                        },
                        _ => {},
                    }
                },
                _ => {},
            },
            _ => {},
        }
    }
}

/// The fields and the methods of a struct are read in order, up to its brace.
#[verifier::spinoff_prover]
#[verifier::rlimit(40)]
pub proof fn members_are_read_in_order(
    src: Source,
    at: int,
    id: StringId,
    ty: TypeView,
    b: int,
    method: MethodView,
    a: int,
)
    requires
        0 <= at,
        at + 1 < src.tokens.len(),
    ensures
        tok(src, at) == Token::RBrace ==> members(src, at, Seq::empty(), Seq::empty()) == (
            Ok::<(Seq<(Seq<char>, TypeView)>, Seq<MethodView>), ErrorView>(
                (Seq::empty(), Seq::empty()),
            ),
            at + 1,
        ),
        tok(src, at) == Token::Ident(id) && tok(src, at + 1) == Token::Colon && parsed_type(
            src,
            at + 2,
        ) == (Ok::<TypeView, ErrorView>(ty), b) && moved(src, at, b) ==> members(
            src,
            at,
            Seq::empty(),
            Seq::empty(),
        ) == more_members(
            seq![(src.strings[id.0 as int], ty)],
            Seq::empty(),
            members(
                src,
                if tok(src, b) == Token::Semi || tok(src, b) == Token::Comma {
                    b + 1
                } else {
                    b
                },
                Seq::empty(),
                Seq::empty(),
            ),
        ),
        tok(src, at) == Token::Function && member_method(src, at + 1) == (
            Ok::<MethodView, ErrorView>(method),
            a,
        ) && moved(src, at, a) ==> members(src, at, Seq::empty(), Seq::empty()) == more_members(
            Seq::empty(),
            seq![method],
            members(src, a, Seq::empty(), Seq::empty()),
        ),
{
    let x = (src.strings[id.0 as int], ty);
    let next = if tok(src, b) == Token::Semi || tok(src, b) == Token::Comma {
        b + 1
    } else {
        b
    };
    lemma_members(src, next, seq![x], Seq::empty());
    lemma_members(src, a, Seq::empty(), seq![method]);
    assert(Seq::<(Seq<char>, TypeView)>::empty().push(x) =~= seq![x]);
    assert(Seq::<MethodView>::empty().push(method) =~= seq![method]);
}

} // verus!
