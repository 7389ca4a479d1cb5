//! From a source text to tokens.
use vstd::prelude::*;
use crate::text::{
    cat3, char_is_digit, char_is_space, char_is_word, char_is_word_start, chars_of, is_digit,
    is_space, is_word_char, is_word_start, parse_integer, parsed_integer, text_eq, text_of,
};
use crate::types::{Error, ErrorView, SourceLocation, error_at, source_location};
use crate::views::{group_views, views};

verus! {

broadcast use group_views;

/// The number of an interned text.
#[derive(Clone, Copy, Debug, PartialEq, Eq, Hash, Structural)]
pub struct StringId(pub u32);

/// Texts, each held once and known by its number.
#[derive(Debug)]
pub struct StringInterner {
    pub strings: Vec<String>,
}

impl View for StringInterner {
    type V = Seq<Seq<char>>;

    open spec fn view(&self) -> Seq<Seq<char>> {
        views(self.strings@)
    }
}

/// The first index at or after `i` where the text stands, or the length.
pub open spec fn find_text(s: Seq<Seq<char>>, text: Seq<char>, i: int) -> int
    decreases s.len() - i,
{
    if i < 0 || i >= s.len() || s[i] == text {
        i
    } else {
        find_text(s, text, i + 1)
    }
}

/// The texts after interning one.
pub open spec fn with_text(s: Seq<Seq<char>>, text: Seq<char>) -> Seq<Seq<char>> {
    if find_text(s, text, 0) < s.len() {
        s
    } else {
        s.push(text)
    }
}

/// The number that a text gets.
pub open spec fn text_id(s: Seq<Seq<char>>, text: Seq<char>) -> StringId {
    StringId(find_text(s, text, 0) as u32)
}

impl Default for StringInterner {
    fn default() -> (r: Self)
        ensures
            r@ == Seq::<Seq<char>>::empty(),
    {
        StringInterner { strings: Vec::new() }
    }
}

impl StringInterner {
    pub fn new() -> (r: Self)
        ensures
            r@ == Seq::<Seq<char>>::empty(),
    {
        StringInterner { strings: Vec::new() }
    }

    /// The number of a text, which is added unless it is there.
    pub fn intern(&mut self, s: &str) -> (r: StringId)
        ensures
            final(self)@ == with_text(old(self)@, s@),
            r == text_id(old(self)@, s@),
    {
        let mut i: usize = 0;
        while i < self.strings.len() && !text_eq(self.strings[i].as_str(), s)
            invariant
                i <= self.strings@.len(),
                find_text(self@, s@, 0) == find_text(self@, s@, i as int),
                self@ == old(self)@,
            decreases self.strings@.len() - i,
        {
            assert(self@[i as int] == self.strings@[i as int]@);
            i += 1;
        }
        if i < self.strings.len() {
            assert(self@[i as int] == self.strings@[i as int]@);
        } else {
            self.strings.push(s.to_string());
        }
        #[verifier::truncate]
        let id: u32 = i as u32;
        StringId(id)
    }

    /// The text with a number.
    pub fn resolve(&self, id: StringId) -> (r: &str)
        requires
            id.0 < self@.len(),
        ensures
            r@ == self@[id.0 as int],
    {
        self.strings[id.0 as usize].as_str()
    }
}

proof fn lemma_find_text(s: Seq<Seq<char>>, text: Seq<char>, i: int)
    requires
        0 <= i <= s.len(),
    ensures
        i <= find_text(s, text, i) <= s.len(),
        find_text(s, text, i) < s.len() ==> s[find_text(s, text, i)] == text,
        forall|j: int| i <= j < find_text(s, text, i) ==> #[trigger] s[j] != text,
    decreases s.len() - i,
{
    if i < s.len() && s[i] != text {
        lemma_find_text(s, text, i + 1);
    }
}

/// Resolving the number of an interned text gives the text back.
pub proof fn interned_text_resolves(s: Seq<Seq<char>>, text: Seq<char>)
    requires
        s.len() <= u32::MAX,
    ensures
        text_id(s, text).0 < with_text(s, text).len(),
        with_text(s, text)[text_id(s, text).0 as int] == text,
{
    lemma_find_text(s, text, 0);
}

/// Interning a text keeps the numbers of all others, and interning it again
/// gives the same number.
pub proof fn interning_is_stable(s: Seq<Seq<char>>, text: Seq<char>, other: Seq<char>)
    requires
        s.len() < u32::MAX,
    ensures
        forall|i: int| 0 <= i < s.len() ==> #[trigger] with_text(s, text)[i] == s[i],
        text_id(with_text(s, text), text) == text_id(s, text),
        with_text(with_text(s, text), text) == with_text(s, text),
        text == other <==> text_id(with_text(with_text(s, text), other), text) == text_id(
            with_text(with_text(s, text), other),
            other,
        ),
{
    lemma_find_text(s, text, 0);
    let t = with_text(s, text);
    lemma_find_text(t, text, 0);
    let u = with_text(t, other);
    lemma_find_text(t, other, 0);
    lemma_find_text(u, text, 0);
    lemma_find_text(u, other, 0);
    let i = find_text(s, text, 0);
    assert(t[i] == text);
    assert(u[i] == text);
    let j = find_text(t, other, 0);
    assert(u[j] == other);
    assert(find_text(t, text, 0) == i) by {
        if find_text(t, text, 0) < i {
            assert(s[find_text(t, text, 0)] == t[find_text(t, text, 0)]);
        }
    }
}

#[derive(Clone, Copy, Debug, PartialEq, Eq, Structural)]
pub enum Token {
    Let,
    Print,
    Printf,
    Putc,
    Input,
    This,
    Function,
    Export,
    Require,
    If,
    Then,
    Else,
    ElseIf,
    While,
    For,
    Do,
    Break,
    Continue,
    Struct,
    Table,
    End,
    As,
    In,
    Ident(StringId),
    Integer(i128),
    /// A floating-point literal, as it is written.
    Float(StringId),
    StringLit(StringId),
    Colon,
    DoubleColon,
    Equal,
    EqualEqual,
    Bang,
    BangEq,
    Plus,
    Minus,
    Star,
    Slash,
    Percent,
    Ampersand,
    Pipe,
    Caret,
    Shl,
    Shr,
    AndAnd,
    OrOr,
    Dot,
    Lt,
    Le,
    Gt,
    Ge,
    LParen,
    RParen,
    LBracket,
    RBracket,
    LBrace,
    RBrace,
    Comma,
    Semi,
    Eof,
}

#[derive(Clone, Copy, Debug)]
pub struct SpannedToken {
    pub kind: Token,
    pub location: SourceLocation,
}

/// The tokens of a source text and the texts that they refer to.
#[derive(Debug)]
pub struct LexedTokens {
    pub tokens: Vec<SpannedToken>,
    pub strings: StringInterner,
}

/// The keyword that a word is.
pub open spec fn keyword(word: Seq<char>) -> Option<Token> {
    if word == "let"@ {
        Some(Token::Let)
    } else if word == "print"@ {
        Some(Token::Print)
    } else if word == "printf"@ {
        Some(Token::Printf)
    } else if word == "putc"@ {
        Some(Token::Putc)
    } else if word == "input"@ {
        Some(Token::Input)
    } else if word == "this"@ {
        Some(Token::This)
    } else if word == "function"@ {
        Some(Token::Function)
    } else if word == "export"@ {
        Some(Token::Export)
    } else if word == "require"@ {
        Some(Token::Require)
    } else if word == "if"@ {
        Some(Token::If)
    } else if word == "then"@ {
        Some(Token::Then)
    } else if word == "else"@ {
        Some(Token::Else)
    } else if word == "elseif"@ {
        Some(Token::ElseIf)
    } else if word == "while"@ {
        Some(Token::While)
    } else if word == "for"@ {
        Some(Token::For)
    } else if word == "do"@ {
        Some(Token::Do)
    } else if word == "break"@ {
        Some(Token::Break)
    } else if word == "continue"@ {
        Some(Token::Continue)
    } else if word == "struct"@ {
        Some(Token::Struct)
    } else if word == "table"@ {
        Some(Token::Table)
    } else if word == "end"@ {
        Some(Token::End)
    } else if word == "as"@ {
        Some(Token::As)
    } else if word == "in"@ {
        Some(Token::In)
    } else {
        None
    }
}

fn find_keyword(word: &str) -> (r: Option<Token>)
    ensures
        r == keyword(word@),
{
    if text_eq(word, "let") {
        Some(Token::Let)
    } else if text_eq(word, "print") {
        Some(Token::Print)
    } else if text_eq(word, "printf") {
        Some(Token::Printf)
    } else if text_eq(word, "putc") {
        Some(Token::Putc)
    } else if text_eq(word, "input") {
        Some(Token::Input)
    } else if text_eq(word, "this") {
        Some(Token::This)
    } else if text_eq(word, "function") {
        Some(Token::Function)
    } else if text_eq(word, "export") {
        Some(Token::Export)
    } else if text_eq(word, "require") {
        Some(Token::Require)
    } else if text_eq(word, "if") {
        Some(Token::If)
    } else if text_eq(word, "then") {
        Some(Token::Then)
    } else if text_eq(word, "else") {
        Some(Token::Else)
    } else if text_eq(word, "elseif") {
        Some(Token::ElseIf)
    } else if text_eq(word, "while") {
        Some(Token::While)
    } else if text_eq(word, "for") {
        Some(Token::For)
    } else if text_eq(word, "do") {
        Some(Token::Do)
    } else if text_eq(word, "break") {
        Some(Token::Break)
    } else if text_eq(word, "continue") {
        Some(Token::Continue)
    } else if text_eq(word, "struct") {
        Some(Token::Struct)
    } else if text_eq(word, "table") {
        Some(Token::Table)
    } else if text_eq(word, "end") {
        Some(Token::End)
    } else if text_eq(word, "as") {
        Some(Token::As)
    } else if text_eq(word, "in") {
        Some(Token::In)
    } else {
        None
    }
}

/// The token of two characters.
pub open spec fn pair_token(a: char, b: char) -> Option<Token> {
    if a == ':' && b == ':' {
        Some(Token::DoubleColon)
    } else if a == '=' && b == '=' {
        Some(Token::EqualEqual)
    } else if a == '!' && b == '=' {
        Some(Token::BangEq)
    } else if a == '<' && b == '=' {
        Some(Token::Le)
    } else if a == '<' && b == '<' {
        Some(Token::Shl)
    } else if a == '>' && b == '=' {
        Some(Token::Ge)
    } else if a == '>' && b == '>' {
        Some(Token::Shr)
    } else if a == '&' && b == '&' {
        Some(Token::AndAnd)
    } else if a == '|' && b == '|' {
        Some(Token::OrOr)
    } else {
        None
    }
}

fn find_pair(a: char, b: char) -> (r: Option<Token>)
    ensures
        r == pair_token(a, b),
{
    if a == ':' && b == ':' {
        Some(Token::DoubleColon)
    } else if a == '=' && b == '=' {
        Some(Token::EqualEqual)
    } else if a == '!' && b == '=' {
        Some(Token::BangEq)
    } else if a == '<' && b == '=' {
        Some(Token::Le)
    } else if a == '<' && b == '<' {
        Some(Token::Shl)
    } else if a == '>' && b == '=' {
        Some(Token::Ge)
    } else if a == '>' && b == '>' {
        Some(Token::Shr)
    } else if a == '&' && b == '&' {
        Some(Token::AndAnd)
    } else if a == '|' && b == '|' {
        Some(Token::OrOr)
    } else {
        None
    }
}

/// The token of one character.
pub open spec fn single_token(c: char) -> Option<Token> {
    if c == ':' {
        Some(Token::Colon)
    } else if c == '=' {
        Some(Token::Equal)
    } else if c == '!' {
        Some(Token::Bang)
    } else if c == '<' {
        Some(Token::Lt)
    } else if c == '>' {
        Some(Token::Gt)
    } else if c == '&' {
        Some(Token::Ampersand)
    } else if c == '|' {
        Some(Token::Pipe)
    } else if c == '^' {
        Some(Token::Caret)
    } else if c == '+' {
        Some(Token::Plus)
    } else if c == '-' {
        Some(Token::Minus)
    } else if c == '*' {
        Some(Token::Star)
    } else if c == '/' {
        Some(Token::Slash)
    } else if c == '%' {
        Some(Token::Percent)
    } else if c == '.' {
        Some(Token::Dot)
    } else if c == '(' {
        Some(Token::LParen)
    } else if c == ')' {
        Some(Token::RParen)
    } else if c == '[' {
        Some(Token::LBracket)
    } else if c == ']' {
        Some(Token::RBracket)
    } else if c == '{' {
        Some(Token::LBrace)
    } else if c == '}' {
        Some(Token::RBrace)
    } else if c == ',' {
        Some(Token::Comma)
    } else if c == ';' {
        Some(Token::Semi)
    } else {
        None
    }
}

fn find_single(c: char) -> (r: Option<Token>)
    ensures
        r == single_token(c),
{
    if c == ':' {
        Some(Token::Colon)
    } else if c == '=' {
        Some(Token::Equal)
    } else if c == '!' {
        Some(Token::Bang)
    } else if c == '<' {
        Some(Token::Lt)
    } else if c == '>' {
        Some(Token::Gt)
    } else if c == '&' {
        Some(Token::Ampersand)
    } else if c == '|' {
        Some(Token::Pipe)
    } else if c == '^' {
        Some(Token::Caret)
    } else if c == '+' {
        Some(Token::Plus)
    } else if c == '-' {
        Some(Token::Minus)
    } else if c == '*' {
        Some(Token::Star)
    } else if c == '/' {
        Some(Token::Slash)
    } else if c == '%' {
        Some(Token::Percent)
    } else if c == '.' {
        Some(Token::Dot)
    } else if c == '(' {
        Some(Token::LParen)
    } else if c == ')' {
        Some(Token::RParen)
    } else if c == '[' {
        Some(Token::LBracket)
    } else if c == ']' {
        Some(Token::RBracket)
    } else if c == '{' {
        Some(Token::LBrace)
    } else if c == '}' {
        Some(Token::RBrace)
    } else if c == ',' {
        Some(Token::Comma)
    } else if c == ';' {
        Some(Token::Semi)
    } else {
        None
    }
}

/// The text that a character after a backslash stands for.
pub open spec fn escape(c: char) -> Seq<char> {
    if c == 'n' {
        seq!['\n']
    } else if c == 't' {
        seq!['\t']
    } else if c == 'r' {
        seq!['\r']
    } else if c == '\\' {
        seq!['\\']
    } else if c == '"' {
        seq!['"']
    } else {
        seq!['\\', c]
    }
}

/// The text of a string literal from `i` on, and where its closing quote stands.
pub open spec fn string_body(s: Seq<char>, i: int) -> Option<(Seq<char>, int)>
    decreases s.len() - i,
{
    if i < 0 || i >= s.len() {
        None
    } else if s[i] == '"' {
        Some((Seq::empty(), i))
    } else if s[i] == '\\' && i + 1 < s.len() {
        match string_body(s, i + 2) {
            Some((rest, end)) => Some((escape(s[i + 1]) + rest, end)),
            None => None,
        }
    } else {
        match string_body(s, i + 1) {
            Some((rest, end)) => Some((seq![s[i]] + rest, end)),
            None => None,
        }
    }
}

/// Where a comment ends.
pub open spec fn comment_end(s: Seq<char>, i: int) -> int
    decreases s.len() - i,
{
    if 0 <= i < s.len() && s[i] != '\n' {
        comment_end(s, i + 1)
    } else {
        i
    }
}

/// Where a word ends.
pub open spec fn word_end(s: Seq<char>, i: int) -> int
    decreases s.len() - i,
{
    if 0 <= i < s.len() && is_word_char(s[i]) {
        word_end(s, i + 1)
    } else {
        i
    }
}

/// Where a number ends, and whether it has a decimal point.
pub open spec fn number_end(s: Seq<char>, i: int, dot: bool) -> (int, bool)
    decreases s.len() - i,
{
    if 0 <= i < s.len() && is_digit(s[i]) {
        number_end(s, i + 1, dot)
    } else if 0 <= i < s.len() && !dot && s[i] == '.' {
        number_end(s, i + 1, true)
    } else {
        (i, dot)
    }
}

/// What stands at a position of a source text.
pub enum LexStep {
    /// Nothing up to here.
    Skip(int),
    /// A token up to `next`. A float is numbered among the literals.
    Token { kind: Token, next: int, strings: Seq<Seq<char>>, literals: Seq<Seq<char>> },
    Fail(ErrorView),
}

pub open spec fn string_step(
    s: Seq<char>,
    i: int,
    strings: Seq<Seq<char>>,
    literals: Seq<Seq<char>>,
) -> LexStep {
    match string_body(s, i + 1) {
        Some((text, end)) => LexStep::Token {
            kind: Token::StringLit(text_id(strings, text)),
            next: end + 1,
            strings: with_text(strings, text),
            literals,
        },
        None => LexStep::Fail(
            error_at(ErrorView::Lex("unterminated string"@), source_location(s, i)),
        ),
    }
}

pub open spec fn word_step(
    s: Seq<char>,
    i: int,
    strings: Seq<Seq<char>>,
    literals: Seq<Seq<char>>,
) -> LexStep {
    let end = word_end(s, i + 1);
    let word = s.subrange(i, end);
    match keyword(word) {
        Some(kind) => LexStep::Token { kind, next: end, strings, literals },
        None => LexStep::Token {
            kind: Token::Ident(text_id(strings, word)),
            next: end,
            strings: with_text(strings, word),
            literals,
        },
    }
}

pub open spec fn number_step(
    s: Seq<char>,
    i: int,
    strings: Seq<Seq<char>>,
    literals: Seq<Seq<char>>,
) -> LexStep {
    let (end, dot) = number_end(s, i + 1, false);
    let raw = s.subrange(i, end);
    if dot {
        LexStep::Token {
            kind: Token::Float(text_id(literals, raw)),
            next: end,
            strings,
            literals: with_text(literals, raw),
        }
    } else {
        match parsed_integer(raw) {
            Some(n) => LexStep::Token {
                kind: Token::Integer(n as i128),
                next: end,
                strings,
                literals,
            },
            None => LexStep::Fail(ErrorView::Lex(raw)),
        }
    }
}

pub open spec fn lex_step(
    s: Seq<char>,
    i: int,
    strings: Seq<Seq<char>>,
    literals: Seq<Seq<char>>,
) -> LexStep {
    let c = s[i];
    let pair = if i + 1 < s.len() {
        pair_token(c, s[i + 1])
    } else {
        None
    };
    if is_space(c) {
        LexStep::Skip(i + 1)
    } else if c == '-' && i + 1 < s.len() && s[i + 1] == '-' {
        LexStep::Skip(comment_end(s, i))
    } else if pair is Some {
        LexStep::Token { kind: pair.unwrap(), next: i + 2, strings, literals }
    } else if single_token(c) is Some {
        LexStep::Token { kind: single_token(c).unwrap(), next: i + 1, strings, literals }
    } else if c == '"' {
        string_step(s, i, strings, literals)
    } else if is_word_start(c) {
        word_step(s, i, strings, literals)
    } else if is_digit(c) {
        number_step(s, i, strings, literals)
    } else {
        LexStep::Fail(
            error_at(
                ErrorView::Lex("unexpected character '"@ + seq![c] + "'"@),
                source_location(s, i),
            ),
        )
    }
}

/// The tokens from position `i` on, after those already found, with the texts and
/// the literals.
pub open spec fn lexed_from(
    s: Seq<char>,
    i: int,
    tokens: Seq<SpannedToken>,
    strings: Seq<Seq<char>>,
    literals: Seq<Seq<char>>,
) -> Result<(Seq<SpannedToken>, Seq<Seq<char>>, Seq<Seq<char>>), ErrorView>
    decreases s.len() - i,
{
    let location = source_location(s, i);
    if i >= s.len() {
        Ok((tokens.push(SpannedToken { kind: Token::Eof, location }), strings, literals))
    } else {
        match lex_step(s, i, strings, literals) {
            LexStep::Skip(next) => if i < next <= s.len() {
                lexed_from(s, next, tokens, strings, literals)
            } else {
                arbitrary()
            },
            LexStep::Token { kind, next, strings, literals } => if i < next <= s.len() {
                lexed_from(
                    s,
                    next,
                    tokens.push(SpannedToken { kind, location }),
                    strings,
                    literals,
                )
            } else {
                arbitrary()
            },
            LexStep::Fail(e) => Err(e),
        }
    }
}

/// A token whose literal, if it has one, is numbered behind `texts` texts.
pub open spec fn numbered_behind(t: SpannedToken, texts: nat) -> SpannedToken {
    match t.kind {
        Token::Float(id) => SpannedToken {
            kind: Token::Float(StringId((texts + id.0) as u32)),
            ..t
        },
        _ => t,
    }
}

/// The tokens of a source text and the texts that they refer to. Words and quoted
/// texts are numbered in the order in which they come; the literals of floats are
/// numbered behind all of them.
pub open spec fn lexed(s: Seq<char>) -> Result<(Seq<SpannedToken>, Seq<Seq<char>>), ErrorView> {
    match lexed_from(s, 0, Seq::empty(), Seq::empty(), Seq::empty()) {
        Err(e) => Err(e),
        Ok((tokens, strings, literals)) => Ok(
            (
                tokens.map_values(|t: SpannedToken| numbered_behind(t, strings.len())),
                strings + literals,
            ),
        ),
    }
}

/// The text that a token refers to is there, among the texts or the literals.
pub open spec fn token_within(t: Token, texts: nat, literals: nat) -> bool {
    match t {
        Token::Ident(id) => id.0 < texts,
        Token::Float(id) => id.0 < literals,
        Token::StringLit(id) => id.0 < texts,
        _ => true,
    }
}

/// The text that a token refers to is there.
pub open spec fn token_wf(t: Token, texts: nat) -> bool {
    token_within(t, texts, texts)
}

/// The last token is the end of the text, and every text referred to is there.
pub open spec fn tokens_wf(tokens: Seq<SpannedToken>, texts: nat) -> bool {
    &&& tokens.len() > 0
    &&& tokens.last().kind == Token::Eof
    &&& forall|i: int| 0 <= i < tokens.len() ==> token_wf((#[trigger] tokens[i]).kind, texts)
}

fn scan_string(chars: &[char], start: usize) -> (r: Option<(String, usize)>)
    requires
        start <= chars@.len(),
    ensures
        match r {
            Some((text, end)) => string_body(chars@, start as int) == Some((text@, end as int))
                && start <= end < chars@.len(),
            None => string_body(chars@, start as int) is None,
        },
{
    let mut text = String::new();
    let mut i: usize = start;
    let len: usize = chars.len();
    while i < len && chars[i] != '"'
        invariant
            start <= i <= len == chars@.len(),
            string_body(chars@, start as int) == match string_body(chars@, i as int) {
                Some((rest, end)) => Some((text@ + rest, end)),
                None => None,
            },
        decreases len - i,
    {
        let ghost before = text@;
        let ghost here = i as int;
        let c = chars[i];
        if c == '\\' && i + 1 < len {
            let e = chars[i + 1];
            if e == 'n' {
                text.push('\n');
            } else if e == 't' {
                text.push('\t');
            } else if e == 'r' {
                text.push('\r');
            } else if e == '\\' {
                text.push('\\');
            } else if e == '"' {
                text.push('"');
            } else {
                text.push('\\');
                text.push(e);
            }
            assert(text@ =~= before + escape(e));
            proof {
                if let Some((rest, end)) = string_body(chars@, here + 2) {
                    assert(before + (escape(e) + rest) =~= text@ + rest);
                }
            }
            i += 2;
        } else {
            text.push(c);
            proof {
                if let Some((rest, end)) = string_body(chars@, here + 1) {
                    assert(before + (seq![c] + rest) =~= text@ + rest);
                }
            }
            i += 1;
        }
    }
    if i >= len {
        None
    } else {
        assert(text@ + Seq::<char>::empty() =~= text@);
        Some((text, i))
    }
}

fn scan_word(chars: &[char], start: usize) -> (end: usize)
    requires
        start <= chars@.len(),
    ensures
        end == word_end(chars@, start as int),
        start <= end <= chars@.len(),
{
    let mut i: usize = start;
    while i < chars.len() && char_is_word(chars[i])
        invariant
            start <= i <= chars@.len(),
            word_end(chars@, start as int) == word_end(chars@, i as int),
        decreases chars@.len() - i,
    {
        i += 1;
    }
    i
}

fn scan_comment(chars: &[char], start: usize) -> (end: usize)
    requires
        start <= chars@.len(),
    ensures
        end == comment_end(chars@, start as int),
        start <= end <= chars@.len(),
        start < chars@.len() && chars@[start as int] != '\n' ==> end > start,
{
    let mut i: usize = start;
    while i < chars.len() && chars[i] != '\n'
        invariant
            start <= i <= chars@.len(),
            comment_end(chars@, start as int) == comment_end(chars@, i as int),
        decreases chars@.len() - i,
    {
        i += 1;
    }
    i
}

fn scan_number(chars: &[char], start: usize) -> (r: (usize, bool))
    requires
        start <= chars@.len(),
    ensures
        (r.0 as int, r.1) == number_end(chars@, start as int, false),
        start <= r.0 <= chars@.len(),
{
    let mut i: usize = start;
    let mut dot: bool = false;
    while i < chars.len() && (char_is_digit(chars[i]) || (!dot && chars[i] == '.'))
        invariant
            start <= i <= chars@.len(),
            number_end(chars@, start as int, false) == number_end(chars@, i as int, dot),
        decreases chars@.len() - i,
    {
        if chars[i] == '.' {
            dot = true;
        }
        i += 1;
    }
    (i, dot)
}

proof fn lemma_text_id_wf(strings: Seq<Seq<char>>, text: Seq<char>)
    ensures
        text_id(strings, text).0 < with_text(strings, text).len(),
        strings.len() <= with_text(strings, text).len(),
{
    lemma_find_text(strings, text, 0);
}

/// Reads one token, or skips what is none. `None` stands for a skip.
fn next_token(
    chars: &[char],
    i: usize,
    strings: &mut StringInterner,
    literals: &mut StringInterner,
) -> (r: Result<(Option<Token>, usize), Error>)
    requires
        i < chars@.len(),
    ensures
        match r {
            Ok((None, next)) => {
                &&& lex_step(chars@, i as int, old(strings)@, old(literals)@) == LexStep::Skip(
                    next as int,
                )
                &&& i < next <= chars@.len()
                &&& final(strings)@ == old(strings)@
                &&& final(literals)@ == old(literals)@
            },
            Ok((Some(kind), next)) => {
                &&& lex_step(chars@, i as int, old(strings)@, old(literals)@) == (LexStep::Token {
                    kind,
                    next: next as int,
                    strings: final(strings)@,
                    literals: final(literals)@,
                })
                &&& i < next <= chars@.len()
                &&& token_within(kind, final(strings)@.len(), final(literals)@.len())
                &&& old(strings)@.len() <= final(strings)@.len()
                &&& old(literals)@.len() <= final(literals)@.len()
            },
            Err(e) => lex_step(chars@, i as int, old(strings)@, old(literals)@) == LexStep::Fail(
                e@,
            ),
        },
{
    let c = chars[i];
    let len: usize = chars.len();
    if char_is_space(c) {
        return Ok((None, i + 1));
    }
    if i < len - 1 {
        let d = chars[i + 1];
        if c == '-' && d == '-' {
            return Ok((None, scan_comment(chars, i)));
        }
        if let Some(kind) = find_pair(c, d) {
            return Ok((Some(kind), i + 2));
        }
    }
    if let Some(kind) = find_single(c) {
        return Ok((Some(kind), i + 1));
    }
    if c == '"' {
        return match scan_string(chars, i + 1) {
            Some((text, end)) => {
                proof {
                    lemma_text_id_wf(strings@, text@);
                }
                let id = strings.intern(text.as_str());
                Ok((Some(Token::StringLit(id)), end + 1))
            },
            None => Err(
                Error::Lex("unterminated string".to_string()).at(SourceLocation::at(chars, i)),
            ),
        };
    }
    if char_is_word_start(c) {
        let end: usize = scan_word(chars, i + 1);
        let word = text_of(chars, i, end);
        return match find_keyword(word.as_str()) {
            Some(kind) => Ok((Some(kind), end)),
            None => {
                proof {
                    lemma_text_id_wf(strings@, word@);
                }
                let id = strings.intern(word.as_str());
                Ok((Some(Token::Ident(id)), end))
            },
        };
    }
    if char_is_digit(c) {
        let (end, dot) = scan_number(chars, i + 1);
        let raw = text_of(chars, i, end);
        if dot {
            proof {
                lemma_text_id_wf(literals@, raw@);
            }
            let id = literals.intern(raw.as_str());
            return Ok((Some(Token::Float(id)), end));
        }
        let digits = chars_of(raw.as_str());
        return match parse_integer(digits.as_slice()) {
            Some(n) => Ok((Some(Token::Integer(n)), end)),
            None => Err(Error::Lex(raw)),
        };
    }
    let mut shown = String::new();
    shown.push(c);
    assert(shown@ =~= seq![c]);
    Err(
        Error::Lex(crate::text::cat3("unexpected character '", shown.as_str(), "'")).at(
            SourceLocation::at(chars, i),
        ),
    )
}

/// The tokens with their literals numbered behind `texts` texts.
fn number_behind(tokens: Vec<SpannedToken>, texts: usize) -> (r: Vec<SpannedToken>)
    ensures
        r@ == tokens@.map_values(|t: SpannedToken| numbered_behind(t, texts as nat)),
{
    let ghost wanted = tokens@.map_values(|t: SpannedToken| numbered_behind(t, texts as nat));
    let mut out: Vec<SpannedToken> = Vec::new();
    let mut k: usize = 0;
    while k < tokens.len()
        invariant
            k <= tokens@.len() == wanted.len(),
            wanted == tokens@.map_values(
                |t: SpannedToken| numbered_behind(t, texts as nat),
            ),
            out@ == wanted.take(k as int),
        decreases tokens@.len() - k,
    {
        let token = tokens[k];
        let kind = match token.kind {
            Token::Float(id) => {
                let place: u128 = texts as u128 + id.0 as u128;
                #[verifier::truncate]
                let number: u32 = place as u32;
                Token::Float(StringId(number))
            },
            other => other,
        };
        out.push(SpannedToken { kind, location: token.location });
        assert(out@ =~= wanted.take(k + 1));
        k += 1;
    }
    assert(wanted.take(k as int) =~= wanted);
    out
}

/// The texts with others behind them.
fn append_texts(strings: &mut StringInterner, others: StringInterner)
    ensures
        final(strings)@ == old(strings)@ + others@,
{
    let ghost start = strings@;
    let mut k: usize = 0;
    while k < others.strings.len()
        invariant
            k <= others.strings@.len(),
            strings@ == start + others@.take(k as int),
        decreases others.strings@.len() - k,
    {
        strings.strings.push(others.strings[k].clone());
        assert(others@[k as int] == others.strings@[k as int]@);
        assert(strings@ =~= start + others@.take(k + 1));
        k += 1;
    }
    assert(others@.take(k as int) =~= others@);
}

/// Splits a source text into tokens.
pub fn lex(source: &str) -> (r: Result<LexedTokens, Error>)
    ensures
        match r {
            Ok(l) => lexed(source@) == Ok::<(Seq<SpannedToken>, Seq<Seq<char>>), ErrorView>(
                (l.tokens@, l.strings@),
            ) && tokens_wf(l.tokens@, l.strings@.len()),
            Err(e) => lexed(source@) == Err::<(Seq<SpannedToken>, Seq<Seq<char>>), ErrorView>(e@),
        },
{
    let text = chars_of(source);
    let chars = text.as_slice();
    let mut tokens: Vec<SpannedToken> = Vec::new();
    let mut strings = StringInterner::new();
    let mut literals = StringInterner::new();
    let ghost none = Seq::<Seq<char>>::empty();
    let mut i: usize = 0;
    while i < chars.len()
        invariant
            chars@ == source@,
            i <= chars@.len(),
            none == Seq::<Seq<char>>::empty(),
            lexed_from(source@, 0, Seq::empty(), none, none) == lexed_from(
                source@,
                i as int,
                tokens@,
                strings@,
                literals@,
            ),
            forall|k: int|
                0 <= k < tokens@.len() ==> token_within(
                    (#[trigger] tokens@[k]).kind,
                    strings@.len(),
                    literals@.len(),
                ),
        decreases chars@.len() - i,
    {
        let location = SourceLocation::at(chars, i);
        match next_token(chars, i, &mut strings, &mut literals)? {
            (None, next) => {
                i = next;
            },
            (Some(kind), next) => {
                tokens.push(SpannedToken { kind, location });
                i = next;
            },
        }
    }
    tokens.push(SpannedToken { kind: Token::Eof, location: SourceLocation::at(chars, i) });
    let ghost found = tokens@;
    let ghost texts = strings@.len();
    assert(strings@.len() == strings.strings@.len());
    let tokens = number_behind(tokens, strings.strings.len());
    append_texts(&mut strings, literals);
    assert forall|k: int| 0 <= k < tokens@.len() implies token_wf(
        (#[trigger] tokens@[k]).kind,
        strings@.len(),
    ) by {
        assert(tokens@[k] == numbered_behind(found[k], texts));
    }
    assert(tokens@.last() == numbered_behind(found.last(), texts));
    Ok(LexedTokens { tokens, strings })
}

proof fn lemma_string_body(s: Seq<char>, i: int)
    requires
        0 <= i,
    ensures
        string_body(s, i) matches Some((_, end)) ==> i <= end < s.len(),
    decreases s.len() - i,
{
    if i < s.len() && s[i] != '"' {
        if s[i] == '\\' && i + 1 < s.len() {
            lemma_string_body(s, i + 2);
        } else {
            lemma_string_body(s, i + 1);
        }
    }
}

proof fn lemma_comment_end(s: Seq<char>, i: int)
    requires
        0 <= i <= s.len(),
    ensures
        i <= comment_end(s, i) <= s.len(),
    decreases s.len() - i,
{
    if i < s.len() && s[i] != '\n' {
        lemma_comment_end(s, i + 1);
    }
}

proof fn lemma_word_end(s: Seq<char>, i: int)
    requires
        0 <= i <= s.len(),
    ensures
        i <= word_end(s, i) <= s.len(),
    decreases s.len() - i,
{
    if i < s.len() && is_word_char(s[i]) {
        lemma_word_end(s, i + 1);
    }
}

proof fn lemma_number_end(s: Seq<char>, i: int, dot: bool)
    requires
        0 <= i <= s.len(),
    ensures
        i <= number_end(s, i, dot).0 <= s.len(),
    decreases s.len() - i,
{
    if i < s.len() && is_digit(s[i]) {
        lemma_number_end(s, i + 1, dot);
    } else if i < s.len() && !dot && s[i] == '.' {
        lemma_number_end(s, i + 1, true);
    }
}

/// A step leads on, within the text, to a token that is not the end of it.
proof fn lemma_lex_step(
    s: Seq<char>,
    i: int,
    strings: Seq<Seq<char>>,
    literals: Seq<Seq<char>>,
)
    requires
        0 <= i < s.len(),
    ensures
        match lex_step(s, i, strings, literals) {
            LexStep::Skip(next) => i < next <= s.len(),
            LexStep::Token { kind, next, strings: more, literals: later } => {
                &&& i < next <= s.len()
                &&& !(kind is Eof)
                &&& token_within(kind, more.len(), later.len())
                &&& strings.len() <= more.len()
                &&& literals.len() <= later.len()
            },
            LexStep::Fail(_) => true,
        },
{
    lemma_string_body(s, i + 1);
    lemma_word_end(s, i + 1);
    lemma_number_end(s, i + 1, false);
    if s[i] == '-' {
        lemma_comment_end(s, i + 1);
    }
    if let Some((text, _)) = string_body(s, i + 1) {
        lemma_text_id_wf(strings, text);
    }
    lemma_text_id_wf(strings, s.subrange(i, word_end(s, i + 1)));
    lemma_text_id_wf(literals, s.subrange(i, number_end(s, i + 1, false).0));
}

/// The tokens before position `i`: none is the end of the text, each stands where
/// its location says, and they stand one after the other.
pub open spec fn tokens_before(
    s: Seq<char>,
    i: int,
    tokens: Seq<SpannedToken>,
    texts: nat,
    literals: nat,
) -> bool {
    &&& forall|k: int|
        0 <= k < tokens.len() ==> {
            &&& !((#[trigger] tokens[k]).kind is Eof)
            &&& tokens[k].location.offset < i
            &&& tokens[k].location == source_location(s, tokens[k].location.offset as int)
            &&& token_within(tokens[k].kind, texts, literals)
        }
    &&& forall|j: int, k: int|
        0 <= j < k < tokens.len() ==> (#[trigger] tokens[j]).location.offset < (
        #[trigger] tokens[k]).location.offset
}

/// One token more.
proof fn lemma_tokens_pushed(
    s: Seq<char>,
    i: int,
    next: int,
    tokens: Seq<SpannedToken>,
    token: SpannedToken,
    strings: Seq<Seq<char>>,
    literals: Seq<Seq<char>>,
    more: Seq<Seq<char>>,
    later: Seq<Seq<char>>,
)
    requires
        0 <= i < s.len(),
        s.len() <= usize::MAX,
        tokens_before(s, i, tokens, strings.len(), literals.len()),
        i < next,
        token.location == source_location(s, i),
        !(token.kind is Eof),
        token_within(token.kind, more.len(), later.len()),
        strings.len() <= more.len(),
        literals.len() <= later.len(),
    ensures
        tokens_before(s, next, tokens.push(token), more.len(), later.len()),
{
    let longer = tokens.push(token);
    assert forall|k: int| 0 <= k < longer.len() implies {
        &&& !((#[trigger] longer[k]).kind is Eof)
        &&& longer[k].location.offset < next
        &&& longer[k].location == source_location(s, longer[k].location.offset as int)
        &&& token_within(longer[k].kind, more.len(), later.len())
    } by {
        if k < tokens.len() {
            assert(longer[k] == tokens[k]);
        }
    }
    assert forall|j: int, k: int| 0 <= j < k < longer.len() implies (
    #[trigger] longer[j]).location.offset < (#[trigger] longer[k]).location.offset by {
        assert(longer[j] == tokens[j]);
        if k < tokens.len() {
            assert(longer[k] == tokens[k]);
        }
    }
}

proof fn lemma_lexed_from(
    s: Seq<char>,
    i: int,
    tokens: Seq<SpannedToken>,
    strings: Seq<Seq<char>>,
    literals: Seq<Seq<char>>,
)
    requires
        0 <= i <= s.len(),
        s.len() <= usize::MAX,
        tokens_before(s, i, tokens, strings.len(), literals.len()),
    ensures
        lexed_from(s, i, tokens, strings, literals) matches Ok((all, texts, last)) ==> {
            &&& all.len() > 0
            &&& all.last() == (SpannedToken {
                kind: Token::Eof,
                location: source_location(s, s.len() as int),
            })
            &&& tokens_before(s, s.len() as int, all.drop_last(), texts.len(), last.len())
        },
    decreases s.len() - i,
{
    if i >= s.len() {
        let all = tokens.push(
            SpannedToken { kind: Token::Eof, location: source_location(s, i) },
        );
        assert(all.drop_last() =~= tokens);
    } else {
        lemma_lex_step(s, i, strings, literals);
        match lex_step(s, i, strings, literals) {
            LexStep::Skip(next) => {
                lemma_lexed_from(s, next, tokens, strings, literals);
            },
            LexStep::Token { kind, next, strings: more, literals: later } => {
                let longer = tokens.push(SpannedToken { kind, location: source_location(s, i) });
                lemma_tokens_pushed(
                    s,
                    i,
                    next,
                    tokens,
                    longer.last(),
                    strings,
                    literals,
                    more,
                    later,
                );
                lemma_lexed_from(s, next, longer, more, later);
            },
            LexStep::Fail(_) => {},
        }
    }
}

/// The tokens of a source text end with the one token that marks the end of the
/// text, which stands behind the last character. The others stand one after the
/// other, each where its location says, and every text that one refers to is
/// there.
pub proof fn tokens_stand_in_order(s: Seq<char>)
    requires
        lexed(s) is Ok,
        s.len() <= usize::MAX,
    ensures
        ({
            let (tokens, texts) = lexed(s)->Ok_0;
            &&& tokens.len() > 0
            &&& tokens.last() == (SpannedToken {
                kind: Token::Eof,
                location: source_location(s, s.len() as int),
            })
            &&& forall|k: int|
                0 <= k < tokens.len() ==> {
                    &&& (#[trigger] tokens[k]).kind is Eof <==> k == tokens.len() - 1
                    &&& tokens[k].location == source_location(s, tokens[k].location.offset as int)
                    &&& token_wf(tokens[k].kind, texts.len())
                }
            &&& forall|j: int, k: int|
                0 <= j < k < tokens.len() ==> (#[trigger] tokens[j]).location.offset < (
                #[trigger] tokens[k]).location.offset
        }),
{
    let none = Seq::<Seq<char>>::empty();
    lemma_lexed_from(s, 0, Seq::empty(), none, none);
    let (found, strings, literals) = lexed_from(s, 0, Seq::empty(), none, none)->Ok_0;
    let (tokens, texts) = lexed(s)->Ok_0;
    let before = found.drop_last();
    assert forall|k: int| 0 <= k < tokens.len() implies {
        &&& (#[trigger] tokens[k]).kind is Eof <==> k == tokens.len() - 1
        &&& tokens[k].location == source_location(s, tokens[k].location.offset as int)
        &&& token_wf(tokens[k].kind, texts.len())
    } by {
        assert(tokens[k] == numbered_behind(found[k], strings.len()));
        if k < before.len() {
            assert(before[k] == found[k]);
        }
    }
    assert forall|j: int, k: int| 0 <= j < k < tokens.len() implies (
    #[trigger] tokens[j]).location.offset < (#[trigger] tokens[k]).location.offset by {
        assert(tokens[j] == numbered_behind(found[j], strings.len()));
        assert(tokens[k] == numbered_behind(found[k], strings.len()));
        assert(before[j] == found[j]);
        if k < before.len() {
            assert(before[k] == found[k]);
        }
    }
}

/// A token that refers to a text refers to what stands in the source text there: a
/// word, what a quoted text stands for, or a literal; an integer is the number
/// that is written there.
pub open spec fn token_reads(
    s: Seq<char>,
    t: SpannedToken,
    texts: Seq<Seq<char>>,
    literals: Seq<Seq<char>>,
) -> bool {
    let at = t.location.offset as int;
    let number = s.subrange(at, number_end(s, at + 1, false).0);
    match t.kind {
        Token::Ident(id) => texts[id.0 as int] == s.subrange(at, word_end(s, at + 1)),
        Token::StringLit(id) => match string_body(s, at + 1) {
            Some((text, _)) => texts[id.0 as int] == text,
            None => false,
        },
        Token::Float(id) => literals[id.0 as int] == number,
        Token::Integer(n) => match parsed_integer(number) {
            Some(m) => n == m as i128,
            None => false,
        },
        _ => true,
    }
}

/// That the tokens so far read back, as long as no number is out of range.
spec fn tokens_read(
    s: Seq<char>,
    tokens: Seq<SpannedToken>,
    texts: Seq<Seq<char>>,
    literals: Seq<Seq<char>>,
) -> bool {
    texts.len() <= u32::MAX && literals.len() <= u32::MAX ==> forall|k: int|
        0 <= k < tokens.len() ==> token_reads(s, #[trigger] tokens[k], texts, literals)
}

proof fn lemma_step_reads(
    s: Seq<char>,
    i: int,
    strings: Seq<Seq<char>>,
    literals: Seq<Seq<char>>,
)
    requires
        0 <= i < s.len(),
        s.len() <= usize::MAX,
    ensures
        lex_step(s, i, strings, literals) matches LexStep::Token {
            kind,
            next,
            strings: more,
            literals: later,
        } ==> {
            &&& more.len() <= u32::MAX && later.len() <= u32::MAX ==> token_reads(
                s,
                SpannedToken { kind, location: source_location(s, i) },
                more,
                later,
            )
            &&& strings.len() <= more.len()
            &&& literals.len() <= later.len()
            &&& forall|j: int| 0 <= j < strings.len() ==> #[trigger] more[j] == strings[j]
            &&& forall|j: int| 0 <= j < literals.len() ==> #[trigger] later[j] == literals[j]
        },
{
    if let Some((text, _)) = string_body(s, i + 1) {
        lemma_find_text(strings, text, 0);
    }
    lemma_find_text(strings, s.subrange(i, word_end(s, i + 1)), 0);
    lemma_find_text(literals, s.subrange(i, number_end(s, i + 1, false).0), 0);
}

proof fn lemma_all_read(
    s: Seq<char>,
    i: int,
    tokens: Seq<SpannedToken>,
    strings: Seq<Seq<char>>,
    literals: Seq<Seq<char>>,
)
    requires
        0 <= i <= s.len(),
        s.len() <= usize::MAX,
        tokens_before(s, i, tokens, strings.len(), literals.len()),
        tokens_read(s, tokens, strings, literals),
    ensures
        lexed_from(s, i, tokens, strings, literals) matches Ok((all, texts, last)) ==> tokens_read(
            s,
            all,
            texts,
            last,
        ),
    decreases s.len() - i,
{
    if i >= s.len() {
        let all = tokens.push(
            SpannedToken { kind: Token::Eof, location: source_location(s, i) },
        );
        assert forall|k: int|
            0 <= k < all.len() && strings.len() <= u32::MAX && literals.len()
                <= u32::MAX implies token_reads(s, #[trigger] all[k], strings, literals) by {
            if k < tokens.len() {
                assert(all[k] == tokens[k]);
            }
        }
    } else {
        lemma_lex_step(s, i, strings, literals);
        lemma_step_reads(s, i, strings, literals);
        match lex_step(s, i, strings, literals) {
            LexStep::Skip(next) => {
                lemma_all_read(s, next, tokens, strings, literals);
            },
            LexStep::Token { kind, next, strings: more, literals: later } => {
                let token = SpannedToken { kind, location: source_location(s, i) };
                let longer = tokens.push(token);
                lemma_tokens_pushed(s, i, next, tokens, token, strings, literals, more, later);
                assert forall|k: int|
                    0 <= k < longer.len() && more.len() <= u32::MAX && later.len()
                        <= u32::MAX implies token_reads(s, #[trigger] longer[k], more, later) by {
                    if k < tokens.len() {
                        assert(longer[k] == tokens[k]);
                        assert(token_reads(s, tokens[k], strings, literals));
                    }
                }
                lemma_all_read(s, next, longer, more, later);
            },
            LexStep::Fail(_) => {},
        }
    }
}

/// Every word, quoted text and literal of a source text can be read back by the
/// number that its token has, and every integer is the number that is written.
pub proof fn tokens_read_back(s: Seq<char>)
    requires
        lexed(s) is Ok,
        s.len() <= usize::MAX,
        lexed(s)->Ok_0.1.len() <= u32::MAX,
    ensures
        ({
            let (tokens, texts) = lexed(s)->Ok_0;
            forall|k: int|
                0 <= k < tokens.len() ==> token_reads(s, #[trigger] tokens[k], texts, texts)
        }),
{
    let none = Seq::<Seq<char>>::empty();
    lemma_lexed_from(s, 0, Seq::empty(), none, none);
    lemma_all_read(s, 0, Seq::empty(), none, none);
    let (found, strings, literals) = lexed_from(s, 0, Seq::empty(), none, none)->Ok_0;
    let (tokens, texts) = lexed(s)->Ok_0;
    let before = found.drop_last();
    assert forall|k: int| 0 <= k < tokens.len() implies token_reads(
        s,
        #[trigger] tokens[k],
        texts,
        texts,
    ) by {
        assert(tokens[k] == numbered_behind(found[k], strings.len()));
        assert(token_reads(s, found[k], strings, literals));
        if k < before.len() {
            assert(before[k] == found[k]);
            match found[k].kind {
                Token::Float(id) => {
                    assert(texts[strings.len() + id.0] == literals[id.0 as int]);
                },
                Token::Ident(id) => {
                    assert(texts[id.0 as int] == strings[id.0 as int]);
                },
                Token::StringLit(id) => {
                    assert(texts[id.0 as int] == strings[id.0 as int]);
                },
                _ => {},
            }
        }
    }
}

} // verus!
