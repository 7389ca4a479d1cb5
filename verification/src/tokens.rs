//! Tokenizers, held by number, and the host functions on them.
use vstd::prelude::*;
use std::collections::HashMap;
use tokenizers::Tokenizer;
use tokenizers::models::ModelWrapper;
use tokenizers::pre_tokenizers::PreTokenizerWrapper;
use tokenizers::processors::PostProcessorWrapper;
use crate::candle::{numbers, two_numbers};
use crate::heap::{Heap, HeapObject, ObjectView, object_at, with_object};
use crate::host::misused;
use crate::scalar::{encoded, pack_values, packed};
use crate::semantics::{HeapView, fresh};
use crate::text::{cat2, char_is_digit, chars_of, is_digit};
use crate::types::{Error, ErrorView, Type, TypeView, runtime_error};
use crate::value::{HeapRef, Value, ValueView};
use crate::views::{group_views, views};

verus! {

broadcast use {group_views, vstd::std_specs::hash::group_hash_axioms};

/// A tokenizer of the tokenizers crate.
#[verifier::external_type_specification]
#[verifier::external_body]
pub struct OutsideTokenizer(tokenizers::Tokenizer);

/// The texts of the tokens that a tokenizer knows.
pub uninterp spec fn vocabulary(t: Tokenizer) -> Map<u32, Seq<char>>;

/// Whether a text describes a tokenizer.
pub uninterp spec fn describes(text: Seq<char>) -> bool;

/// That a tokenizer was read from a text.
pub uninterp spec fn read_from(text: Seq<char>, t: Tokenizer) -> bool;

/// That a text was split into tokens. A tokenizer may leave merges out at
/// random, so a text can be split in more than one way.
pub uninterp spec fn splits(t: Tokenizer, text: Seq<char>, tokens: Seq<u32>) -> bool;

/// The model of a tokenizer.
pub uninterp spec fn model_of(t: Tokenizer) -> ModelKind;

/// Whether a tokenizer changes a text before it splits it.
pub uninterp spec fn normalizes(t: Tokenizer) -> bool;

/// What a tokenizer splits a text with before its model sees it.
pub uninterp spec fn splitter_of(t: Tokenizer) -> SplitterKind;

/// What a tokenizer does with the tokens of a text.
pub uninterp spec fn processor_of(t: Tokenizer) -> ProcessorKind;

/// The greatest number of tokens, and how many tokens two parts share.
pub uninterp spec fn truncation_of(t: Tokenizer) -> Option<(usize, usize)>;

/// Whether a tokenizer fills up with tokens that stand for nothing.
pub uninterp spec fn pads(t: Tokenizer) -> bool;

/// Whether an added token takes the spaces behind it.
pub uninterp spec fn strips(t: Tokenizer) -> bool;

/// The models of the tokenizers crate.
#[derive(Clone, Copy, Debug, PartialEq, Eq, Structural)]
pub enum ModelKind {
    BytePair,
    WordPiece,
    WordLevel,
    Unigram,
}

/// Its splitters.
#[derive(Clone, Copy, Debug, PartialEq, Eq, Structural)]
pub enum SplitterKind {
    Absent,
    Bert,
    ByteLevel,
    Delimiter,
    Metaspace,
    Whitespace,
    Sequence,
    Split,
    Punctuation,
    WhitespaceSplit,
    Digits,
    UnicodeScripts,
    FixedLength,
}

/// Its processors of tokens.
#[derive(Clone, Copy, Debug, PartialEq, Eq, Structural)]
pub enum ProcessorKind {
    Absent,
    Roberta,
    Bert,
    ByteLevel,
    Template,
    Sequence,
}

impl ProcessorKind {
    /// How many tokens are put around those of a text.
    pub open spec fn added(self) -> nat {
        match self {
            ProcessorKind::Roberta | ProcessorKind::Bert => 2,
            _ => 0,
        }
    }

    fn added_tokens(self) -> (r: usize)
        ensures
            r == self.added(),
    {
        match self {
            ProcessorKind::Roberta => 2,
            ProcessorKind::Bert => 2,
            _ => 0,
        }
    }
}

/// Whether a word stands in a text at a position.
pub open spec fn stands_at(text: Seq<char>, k: int, word: Seq<char>) -> bool {
    0 <= k && k + word.len() <= text.len() && text.subrange(k, k + word.len()) == word
}

/// The first position from `k` on that holds no blank.
pub open spec fn past_blanks(text: Seq<char>, k: int) -> int
    decreases text.len() - k,
{
    if k < 0 || k >= text.len() {
        k
    } else if text[k] == ' ' || text[k] == '\n' || text[k] == '\r' || text[k] == '\t' {
        past_blanks(text, k + 1)
    } else {
        k
    }
}

/// Whether a key that ends at `k` has no value.
pub open spec fn null_follows(text: Seq<char>, k: int) -> bool {
    let colon = past_blanks(text, k);
    &&& 0 <= colon < text.len()
    &&& text[colon] == ':'
    &&& stands_at(text, past_blanks(text, colon + 1), "null"@)
}

/// Whether a word stands nowhere in a text.
pub open spec fn absent(text: Seq<char>, word: Seq<char>) -> bool {
    forall|k: int| !(#[trigger] stands_at(text, k, word))
}

/// Whether ten digits stand in a text one after the other.
pub open spec fn long_number(text: Seq<char>, k: int) -> bool {
    0 <= k && k + 10 <= text.len() && forall|j: int|
        k <= j < k + 10 ==> is_digit(#[trigger] text[j])
}

/// Whether no number in a text has more than nine digits.
pub open spec fn short_numbers(text: Seq<char>) -> bool {
    forall|k: int| !(#[trigger] long_number(text, k))
}

/// Whether a key has no value wherever it stands.
pub open spec fn nulled(text: Seq<char>, key: Seq<char>) -> bool {
    forall|k: int| #[trigger] stands_at(text, k, key) ==> null_follows(text, k + key.len())
}

/// Where a quoted text ends, of which the characters from `k` on are left: behind
/// its closing quote. Escapes and control characters are not taken.
pub open spec fn quote_end(text: Seq<char>, k: int) -> Option<int>
    decreases text.len() - k,
{
    if k < 0 || k >= text.len() || text[k] == '\\' || (text[k] as u32) < 32 {
        None
    } else if text[k] == '"' {
        Some(k + 1)
    } else {
        quote_end(text, k + 1)
    }
}

/// Where a quoted text, or one of the three words, ends that begins at `k`.
pub open spec fn word_value_end(text: Seq<char>, k: int) -> Option<int> {
    if 0 <= k < text.len() && text[k] == '"' {
        quote_end(text, k + 1)
    } else if stands_at(text, k, "true"@) || stands_at(text, k, "null"@) {
        Some(k + 4)
    } else if stands_at(text, k, "false"@) {
        Some(k + 5)
    } else {
        None
    }
}

/// Where an entry ends that begins at `k`: behind its value.
pub open spec fn entry_end(text: Seq<char>, k: int) -> Option<int> {
    let key = past_blanks(text, k);
    if !(0 <= key < text.len() && text[key] == '"') {
        None
    } else {
        match quote_end(text, key + 1) {
            None => None,
            Some(end) => {
                let colon = past_blanks(text, end);
                if 0 <= colon < text.len() && text[colon] == ':' {
                    word_value_end(text, past_blanks(text, colon + 1))
                } else {
                    None
                }
            },
        }
    }
}

/// Whether entries stand from `k` on up to a closing brace.
pub open spec fn entries_close(text: Seq<char>, k: int) -> bool
    decreases text.len() - k,
{
    match entry_end(text, k) {
        None => false,
        Some(end) => {
            let next = past_blanks(text, end);
            if !(k <= next < text.len()) {
                false
            } else if text[next] == '}' {
                true
            } else {
                text[next] == ',' && entries_close(text, next + 1)
            }
        },
    }
}

/// Whether a key that ends at `k` has an object of plain entries as its value.
pub open spec fn object_follows(text: Seq<char>, k: int) -> bool {
    let colon = past_blanks(text, k);
    let open = past_blanks(text, colon + 1);
    &&& 0 <= colon < text.len()
    &&& text[colon] == ':'
    &&& 0 <= open < text.len()
    &&& text[open] == '{'
    &&& entries_close(text, open + 1)
}

/// Whether a key has no value, or an object of plain entries, wherever it stands.
pub open spec fn simple(text: Seq<char>, key: Seq<char>) -> bool {
    forall|k: int| #[trigger]
        stands_at(text, k, key) ==> null_follows(text, k + key.len()) || object_follows(
            text,
            k + key.len(),
        )
}

/// Whether a text can be read as a description, whatever else is in it. Left out
/// are texts with a normalizer, a regular expression or a prefix of parts of
/// words, with a decoder that is no object of plain entries, with characters that
/// are written as numbers, and with numbers of more than nine digits.
pub open spec fn plain(text: Seq<char>) -> bool {
    &&& text.len() <= 0x0400_0000
    &&& absent(text, "\\u"@)
    &&& absent(text, "\"Regex\""@)
    &&& short_numbers(text)
    &&& simple(text, "\"decoder\""@)
    &&& nulled(text, "\"normalizer\""@)
    &&& nulled(text, "\"continuing_subword_prefix\""@)
}

/// Whether a text can be split, whatever is in it. Left out are tokenizers with
/// parts that cannot be looked into, or that fail on some texts.
pub open spec fn steady(t: Tokenizer) -> bool {
    &&& model_of(t) != ModelKind::Unigram
    &&& !normalizes(t)
    &&& splitter_of(t) != SplitterKind::Sequence
    &&& splitter_of(t) != SplitterKind::Split
    &&& splitter_of(t) != SplitterKind::FixedLength
    &&& processor_of(t) != ProcessorKind::Template
    &&& processor_of(t) != ProcessorKind::Sequence
    &&& !pads(t)
    &&& !strips(t)
    &&& match truncation_of(t) {
        None => true,
        Some((most, shared)) => {
            let room = most - processor_of(t).added();
            room == 0 || 0 <= shared < room
        },
    }
}

/// Calls `Tokenizer::from_str`: a tokenizer from its description. What is a
/// description is left to the tokenizers crate. It panics on a decoder that is
/// cut off, on some normalizers, on prefixes that are longer than what they
/// stand before, and where no number is left for an added token.
#[verifier::external_body]
fn parse_tokenizer(text: &str) -> (r: Result<Tokenizer, String>)
    requires
        plain(text@),
    ensures
        r is Ok <==> describes(text@),
        r matches Ok(t) ==> read_from(text@, t),
{
    text.parse::<Tokenizer>().map_err(|e| e.to_string())
}

/// Calls `Tokenizer::id_to_token`: the text of a token.
#[verifier::external_body]
fn token_text(t: &Tokenizer, token: u32) -> (r: Option<String>)
    ensures
        match r {
            Some(text) => vocabulary(*t).contains_key(token) && text@ == vocabulary(*t)[token],
            None => !vocabulary(*t).contains_key(token),
        },
{
    t.id_to_token(token)
}

/// Calls `Tokenizer::get_model`, the kind of the model.
#[verifier::external_body]
fn model_kind(t: &Tokenizer) -> (r: ModelKind)
    ensures
        r == model_of(*t),
{
    match t.get_model() {
        ModelWrapper::BPE(_) => ModelKind::BytePair,
        ModelWrapper::WordPiece(_) => ModelKind::WordPiece,
        ModelWrapper::WordLevel(_) => ModelKind::WordLevel,
        ModelWrapper::Unigram(_) => ModelKind::Unigram,
    }
}

/// Calls `Tokenizer::get_normalizer`, whether there is one.
#[verifier::external_body]
fn has_normalizer(t: &Tokenizer) -> (r: bool)
    ensures
        r == normalizes(*t),
{
    t.get_normalizer().is_some()
}

/// Calls `Tokenizer::get_pre_tokenizer`, the kind of the splitter.
#[verifier::external_body]
fn splitter_kind(t: &Tokenizer) -> (r: SplitterKind)
    ensures
        r == splitter_of(*t),
{
    match t.get_pre_tokenizer() {
        None => SplitterKind::Absent,
        Some(PreTokenizerWrapper::BertPreTokenizer(_)) => SplitterKind::Bert,
        Some(PreTokenizerWrapper::ByteLevel(_)) => SplitterKind::ByteLevel,
        Some(PreTokenizerWrapper::Delimiter(_)) => SplitterKind::Delimiter,
        Some(PreTokenizerWrapper::Metaspace(_)) => SplitterKind::Metaspace,
        Some(PreTokenizerWrapper::Whitespace(_)) => SplitterKind::Whitespace,
        Some(PreTokenizerWrapper::Sequence(_)) => SplitterKind::Sequence,
        Some(PreTokenizerWrapper::Split(_)) => SplitterKind::Split,
        Some(PreTokenizerWrapper::Punctuation(_)) => SplitterKind::Punctuation,
        Some(PreTokenizerWrapper::WhitespaceSplit(_)) => SplitterKind::WhitespaceSplit,
        Some(PreTokenizerWrapper::Digits(_)) => SplitterKind::Digits,
        Some(PreTokenizerWrapper::UnicodeScripts(_)) => SplitterKind::UnicodeScripts,
        Some(PreTokenizerWrapper::FixedLength(_)) => SplitterKind::FixedLength,
    }
}

/// Calls `Tokenizer::get_post_processor`, the kind of the processor.
#[verifier::external_body]
fn processor_kind(t: &Tokenizer) -> (r: ProcessorKind)
    ensures
        r == processor_of(*t),
{
    match t.get_post_processor() {
        None => ProcessorKind::Absent,
        Some(PostProcessorWrapper::Roberta(_)) => ProcessorKind::Roberta,
        Some(PostProcessorWrapper::Bert(_)) => ProcessorKind::Bert,
        Some(PostProcessorWrapper::ByteLevel(_)) => ProcessorKind::ByteLevel,
        Some(PostProcessorWrapper::Template(_)) => ProcessorKind::Template,
        Some(PostProcessorWrapper::Sequence(_)) => ProcessorKind::Sequence,
    }
}

/// Calls `Tokenizer::get_truncation`: the greatest number of tokens, and the
/// stride.
#[verifier::external_body]
fn truncation(t: &Tokenizer) -> (r: Option<(usize, usize)>)
    ensures
        r == truncation_of(*t),
{
    t.get_truncation().map(|p| (p.max_length, p.stride))
}

/// Calls `Tokenizer::get_padding`, whether there is any.
#[verifier::external_body]
fn has_padding(t: &Tokenizer) -> (r: bool)
    ensures
        r == pads(*t),
{
    t.get_padding().is_some()
}

/// Calls `Tokenizer::get_added_tokens_decoder`: of each added token, whether it
/// takes the spaces behind it. The order of the tokens is left open.
#[verifier::external_body]
fn stripping(t: &Tokenizer) -> (r: Vec<bool>)
    ensures
        r@.contains(true) == strips(*t),
{
    t.get_added_tokens_decoder().into_values().map(|token| token.rstrip).collect()
}

/// Calls `Tokenizer::encode` with special tokens, and takes their numbers.
/// Whether a text can be split is left to the tokenizers crate. It panics where
/// the stride is no less than the room for tokens, and some parts of a
/// tokenizer panic on some texts.
#[verifier::external_body]
fn split_text(t: &Tokenizer, text: &str) -> (r: Result<Vec<u32>, String>)
    requires
        steady(*t),
    ensures
        r matches Ok(tokens) ==> splits(*t, text@, tokens@),
{
    t.encode(text, true).map(|e| e.get_ids().to_vec()).map_err(|e| e.to_string())
}

fn has_true(flags: &Vec<bool>) -> (r: bool)
    ensures
        r == flags@.contains(true),
{
    let mut k: usize = 0;
    while k < flags.len()
        invariant
            k <= flags@.len(),
            forall|j: int| 0 <= j < k ==> !(#[trigger] flags@[j]),
        decreases flags@.len() - k,
    {
        if flags[k] {
            assert(flags@[k as int]);
            return true;
        }
        k += 1;
    }
    false
}

/// Whether a tokenizer can split any text.
pub fn is_steady(t: &Tokenizer) -> (r: bool)
    ensures
        r == steady(*t),
{
    let splitter: SplitterKind = splitter_kind(t);
    let processor: ProcessorKind = processor_kind(t);
    if splitter == SplitterKind::Sequence || splitter == SplitterKind::Split || splitter
        == SplitterKind::FixedLength {
        return false;
    }
    if processor == ProcessorKind::Template || processor == ProcessorKind::Sequence {
        return false;
    }
    if model_kind(t) == ModelKind::Unigram || has_normalizer(t) || has_padding(t) {
        return false;
    }
    if has_true(&stripping(t)) {
        return false;
    }
    let added: usize = processor.added_tokens();
    match truncation(t) {
        None => true,
        Some((most, shared)) => most == added || (most > added && shared < most - added),
    }
}

fn word_stands(text: &Vec<char>, k: usize, word: &Vec<char>) -> (r: bool)
    requires
        k <= text@.len(),
    ensures
        r == stands_at(text@, k as int, word@),
{
    if text.len() - k < word.len() {
        return false;
    }
    let size: usize = text.len();
    let ghost part = text@.subrange(k as int, k + word@.len());
    let mut j: usize = 0;
    while j < word.len()
        invariant
            j <= word@.len(),
            k + word@.len() <= text@.len(),
            size == text@.len(),
            part == text@.subrange(k as int, k + word@.len()),
            forall|i: int| 0 <= i < j ==> #[trigger] part[i] == word@[i],
        decreases word@.len() - j,
    {
        assert(part[j as int] == text@[k + j]);
        if text[k + j] != word[j] {
            return false;
        }
        j += 1;
    }
    assert(part =~= word@);
    true
}

fn skip_blanks(text: &Vec<char>, k: usize) -> (r: usize)
    requires
        k <= text@.len(),
    ensures
        r == past_blanks(text@, k as int),
        k <= r <= text@.len(),
{
    let mut i: usize = k;
    while i < text.len() && (text[i] == ' ' || text[i] == '\n' || text[i] == '\r' || text[i] == '\t')
        invariant
            k <= i <= text@.len(),
            past_blanks(text@, k as int) == past_blanks(text@, i as int),
        decreases text@.len() - i,
    {
        i += 1;
    }
    i
}

fn is_null_next(text: &Vec<char>, k: usize) -> (r: bool)
    requires
        k <= text@.len(),
    ensures
        r == null_follows(text@, k as int),
{
    let colon: usize = skip_blanks(text, k);
    if colon >= text.len() || text[colon] != ':' {
        return false;
    }
    word_stands(text, skip_blanks(text, colon + 1), &chars_of("null"))
}

fn is_absent(text: &Vec<char>, word: &str) -> (r: bool)
    ensures
        r == absent(text@, word@),
{
    let chars = chars_of(word);
    let mut k: usize = 0;
    while k <= text.len()
        invariant
            chars@ == word@,
            k <= text@.len() + 1,
            forall|j: int| 0 <= j < k ==> !(#[trigger] stands_at(text@, j, word@)),
        decreases text@.len() + 1 - k,
    {
        if word_stands(text, k, &chars) {
            return false;
        }
        if k == text.len() {
            return true;
        }
        k += 1;
    }
    true
}

fn has_short_numbers(text: &Vec<char>) -> (r: bool)
    ensures
        r == short_numbers(text@),
{
    let mut run: usize = 0;
    let mut k: usize = 0;
    while k < text.len()
        invariant
            k <= text@.len(),
            run <= k,
            run < 10,
            forall|j: int| k - run <= j < k ==> is_digit(#[trigger] text@[j]),
            run < k ==> !is_digit(text@[k - run - 1]),
            forall|j: int| 0 <= j && j + 10 <= k ==> !(#[trigger] long_number(text@, j)),
        decreases text@.len() - k,
    {
        let ghost before: int = run as int;
        if char_is_digit(text[k]) {
            run += 1;
            if run == 10 {
                assert(long_number(text@, k - 9));
                return false;
            }
        } else {
            run = 0;
        }
        proof {
            let j = k - 9;
            if 0 <= j {
                if run == 0 {
                    assert(!is_digit(text@[k as int]));
                } else {
                    assert(!is_digit(text@[k - before - 1]));
                }
                assert(!long_number(text@, j));
            }
        }
        k += 1;
    }
    true
}

fn is_nulled(text: &Vec<char>, key: &str) -> (r: bool)
    ensures
        r == nulled(text@, key@),
{
    let chars = chars_of(key);
    let mut k: usize = 0;
    while k <= text.len()
        invariant
            chars@ == key@,
            k <= text@.len() + 1,
            forall|j: int|
                0 <= j < k && #[trigger] stands_at(text@, j, key@) ==> null_follows(
                    text@,
                    j + key@.len(),
                ),
        decreases text@.len() + 1 - k,
    {
        if word_stands(text, k, &chars) && !is_null_next(text, k + chars.len()) {
            assert(stands_at(text@, k as int, key@));
            return false;
        }
        if k == text.len() {
            return true;
        }
        k += 1;
    }
    true
}

fn find_quote_end(text: &Vec<char>, k: usize) -> (r: Option<usize>)
    requires
        k <= text@.len(),
    ensures
        match r {
            Some(end) => quote_end(text@, k as int) == Some(end as int) && k < end <= text@.len(),
            None => quote_end(text@, k as int) is None,
        },
{
    let mut i: usize = k;
    while i < text.len()
        invariant
            k <= i <= text@.len(),
            quote_end(text@, k as int) == quote_end(text@, i as int),
        decreases text@.len() - i,
    {
        if text[i] == '\\' || (text[i] as u32) < 32 {
            return None;
        }
        if text[i] == '"' {
            return Some(i + 1);
        }
        i += 1;
    }
    None
}

fn find_value_end(text: &Vec<char>, k: usize) -> (r: Option<usize>)
    requires
        k <= text@.len(),
    ensures
        match r {
            Some(end) => word_value_end(text@, k as int) == Some(end as int) && k < end
                <= text@.len(),
            None => word_value_end(text@, k as int) is None,
        },
{
    proof {
        reveal_strlit("true");
        reveal_strlit("null");
        reveal_strlit("false");
    }
    if k < text.len() && text[k] == '"' {
        find_quote_end(text, k + 1)
    } else if word_stands(text, k, &chars_of("true")) || word_stands(text, k, &chars_of("null")) {
        Some(k + 4)
    } else if word_stands(text, k, &chars_of("false")) {
        Some(k + 5)
    } else {
        None
    }
}

fn find_entry_end(text: &Vec<char>, k: usize) -> (r: Option<usize>)
    requires
        k <= text@.len(),
    ensures
        match r {
            Some(end) => entry_end(text@, k as int) == Some(end as int) && k < end <= text@.len(),
            None => entry_end(text@, k as int) is None,
        },
{
    let key: usize = skip_blanks(text, k);
    if key >= text.len() || text[key] != '"' {
        return None;
    }
    match find_quote_end(text, key + 1) {
        None => None,
        Some(end) => {
            let colon: usize = skip_blanks(text, end);
            if colon >= text.len() || text[colon] != ':' {
                return None;
            }
            find_value_end(text, skip_blanks(text, colon + 1))
        },
    }
}

fn do_entries_close(text: &Vec<char>, k: usize) -> (r: bool)
    requires
        k <= text@.len(),
    ensures
        r == entries_close(text@, k as int),
{
    let mut i: usize = k;
    loop
        invariant
            k <= i <= text@.len(),
            entries_close(text@, k as int) == entries_close(text@, i as int),
        decreases text@.len() - i,
    {
        match find_entry_end(text, i) {
            None => {
                return false;
            },
            Some(end) => {
                let next: usize = skip_blanks(text, end);
                if next >= text.len() {
                    return false;
                }
                if text[next] == '}' {
                    return true;
                }
                if text[next] != ',' {
                    return false;
                }
                i = next + 1;
            },
        }
    }
}

fn is_object_next(text: &Vec<char>, k: usize) -> (r: bool)
    requires
        k <= text@.len(),
    ensures
        r == object_follows(text@, k as int),
{
    let colon: usize = skip_blanks(text, k);
    if colon >= text.len() || text[colon] != ':' {
        return false;
    }
    let open: usize = skip_blanks(text, colon + 1);
    open < text.len() && text[open] == '{' && do_entries_close(text, open + 1)
}

fn is_simple(text: &Vec<char>, key: &str) -> (r: bool)
    ensures
        r == simple(text@, key@),
{
    let chars = chars_of(key);
    let mut k: usize = 0;
    while k <= text.len()
        invariant
            chars@ == key@,
            k <= text@.len() + 1,
            forall|j: int|
                0 <= j < k && #[trigger] stands_at(text@, j, key@) ==> null_follows(
                    text@,
                    j + key@.len(),
                ) || object_follows(text@, j + key@.len()),
        decreases text@.len() + 1 - k,
    {
        if word_stands(text, k, &chars) {
            let end: usize = k + chars.len();
            if !is_null_next(text, end) && !is_object_next(text, end) {
                assert(stands_at(text@, k as int, key@));
                return false;
            }
        }
        if k == text.len() {
            return true;
        }
        k += 1;
    }
    true
}

/// Whether a text can be read as a description.
pub fn is_plain(text: &str) -> (r: bool)
    ensures
        r == plain(text@),
{
    let chars = chars_of(text);
    chars.len() <= 0x0400_0000 && is_absent(&chars, "\\u") && is_absent(&chars, "\"Regex\"")
        && has_short_numbers(&chars) && is_simple(&chars, "\"decoder\"") && is_nulled(
        &chars,
        "\"normalizer\"",
    ) && is_nulled(&chars, "\"continuing_subword_prefix\"")
}

/// The tokenizers that programs refer to by number.
pub struct Tokenizers {
    pub held: HashMap<i32, Tokenizer>,
    pub next: i32,
}

/// The mathematical model of [`Tokenizers`].
pub struct TokenizersView {
    pub held: Map<i32, Tokenizer>,
    pub next: i32,
}

impl View for Tokenizers {
    type V = TokenizersView;

    open spec fn view(&self) -> TokenizersView {
        TokenizersView { held: self.held@, next: self.next }
    }
}

impl Default for Tokenizers {
    fn default() -> (r: Self)
        ensures
            r@ == (TokenizersView { held: Map::empty(), next: 1 }),
    {
        Tokenizers { held: HashMap::new(), next: 1 }
    }
}

/// The text in a slot of the heap.
pub open spec fn text_at(h: HeapView, r: HeapRef) -> Result<Seq<char>, ErrorView> {
    match object_at(h, r) {
        Err(e) => Err(e),
        Ok(object) => match object {
            ObjectView::String(text) => Ok(text),
            _ => Err(ErrorView::Runtime("invalid string heap object"@)),
        },
    }
}

/// The one text that a function is called on.
pub open spec fn one_text(
    h: HeapView,
    arguments: Seq<ValueView>,
    message: Seq<char>,
) -> Result<Seq<char>, ErrorView> {
    if arguments.len() == 1 {
        match arguments[0] {
            ValueView::String(r) => text_at(h, r),
            _ => Err(misused(message)),
        }
    } else {
        Err(misused(message))
    }
}

/// Whether a text, or a failure, is what is wanted.
pub open spec fn got_text(r: Result<String, Error>, wanted: Result<Seq<char>, ErrorView>) -> bool {
    match r {
        Ok(text) => wanted == Ok::<Seq<char>, ErrorView>(text@),
        Err(e) => wanted == Err::<Seq<char>, ErrorView>(e@),
    }
}

/// The text in a slot of the heap.
pub fn heap_text(heap: &Heap, reference: HeapRef) -> (r: Result<String, Error>)
    ensures
        got_text(r, text_at(heap@, reference)),
{
    match heap.get(reference)? {
        HeapObject::String(text) => Ok(text.clone()),
        _ => Err(runtime_error("invalid string heap object")),
    }
}

fn text_argument(arguments: &Vec<Value>, heap: &Heap, message: &str) -> (r: Result<String, Error>)
    ensures
        got_text(r, one_text(heap@, views(arguments@), message@)),
{
    if arguments.len() == 1 {
        assert(views(arguments@)[0] == arguments@[0]@);
        if let Value::String(reference) = &arguments[0] {
            return heap_text(heap, *reference);
        }
    }
    Err(runtime_error(message))
}

/// The file that `tokenizer_load` is called on.
pub fn tokenizer_path(arguments: &Vec<Value>, heap: &Heap) -> (r: Result<String, Error>)
    ensures
        got_text(
            r,
            one_text(heap@, views(arguments@), "tokenizer_load expects 1 string (path)"@),
        ),
{
    text_argument(arguments, heap, "tokenizer_load expects 1 string (path)")
}

/// The file that `candle_load_model` is called on.
pub fn model_path(arguments: &Vec<Value>, heap: &Heap) -> (r: Result<String, Error>)
    ensures
        got_text(
            r,
            one_text(heap@, views(arguments@), "candle_load_model expects 1 string (path)"@),
        ),
{
    text_argument(arguments, heap, "candle_load_model expects 1 string (path)")
}

/// With one more tokenizer.
pub open spec fn with_tokenizer(v: TokenizersView, t: Tokenizer) -> TokenizersView {
    TokenizersView { held: v.held.insert(v.next, t), next: (v.next + 1) as i32 }
}

/// Whether a tokenizer was held under the next number, or the reason why there
/// is none passed on.
pub open spec fn held(
    before: TokenizersView,
    after: TokenizersView,
    loaded: Result<Tokenizer, Seq<char>>,
    r: Result<Value, Error>,
) -> bool {
    match loaded {
        Ok(t) => after == with_tokenizer(before, t) && r is Ok && r->Ok_0@ == ValueView::I32(
            before.next,
        ),
        Err(reason) => after == before && r is Err && r->Err_0@ == ErrorView::Runtime(
            "Failed to load tokenizer: "@ + reason,
        ),
    }
}

/// A tokenizer, or the reason why there is none.
pub open spec fn loaded_as(loaded: Result<Tokenizer, String>) -> Result<Tokenizer, Seq<char>> {
    match loaded {
        Ok(t) => Ok(t),
        Err(reason) => Err(reason@),
    }
}

/// Holds a tokenizer under the next number, or passes the reason on why there is
/// none.
pub fn hold_tokenizer(
    tokenizers: &mut Tokenizers,
    loaded: Result<Tokenizer, String>,
) -> (r: Result<Value, Error>)
    requires
        old(tokenizers).next < i32::MAX,
    ensures
        held(old(tokenizers)@, final(tokenizers)@, loaded_as(loaded), r),
{
    match loaded {
        Ok(t) => {
            let id: i32 = tokenizers.next;
            tokenizers.next = id + 1;
            tokenizers.held.insert(id, t);
            Ok(Value::I32(id))
        },
        Err(reason) => Err(Error::Runtime(cat2("Failed to load tokenizer: ", reason.as_str()))),
    }
}

/// Whether what was loaded is what a file describes, or the reason why it does
/// not.
pub open spec fn loaded_from(
    content: Result<String, String>,
    loaded: Result<Tokenizer, Seq<char>>,
) -> bool {
    match content {
        Err(reason) => loaded == Err::<Tokenizer, Seq<char>>(reason@),
        Ok(text) => {
            &&& loaded is Ok <==> describes(text@)
            &&& loaded matches Ok(t) ==> read_from(text@, t)
        },
    }
}

/// Holds a tokenizer under the next number: what `tokenizer_load` does with the
/// content of its file, or with the reason why it cannot be read.
pub fn host_tokenizer_load(
    tokenizers: &mut Tokenizers,
    content: Result<String, String>,
) -> (r: Result<Value, Error>)
    requires
        old(tokenizers).next < i32::MAX,
        content matches Ok(text) ==> plain(text@),
    ensures
        r is Ok <==> (content is Ok && describes(content->Ok_0@)),
        exists|loaded: Result<Tokenizer, Seq<char>>| #[trigger]
            loaded_from(content, loaded) && held(
                old(tokenizers)@,
                final(tokenizers)@,
                loaded,
                r,
            ),
{
    let outcome = match &content {
        Ok(text) => parse_tokenizer(text.as_str()),
        Err(reason) => Err(reason.clone()),
    };
    let ghost loaded = loaded_as(outcome);
    assert(loaded_from(content, loaded));
    hold_tokenizer(tokenizers, outcome)
}

/// Whether a text has a line break, spelled out, at a position.
pub open spec fn spelled_break(text: Seq<char>, k: int) -> bool {
    k + 6 <= text.len() && text.subrange(k, k + 6) == "<0x0A>"@
}

/// What a token stands for, from `k` on: marks of spaces are spaces, and a line
/// break that is spelled out is a line break.
pub open spec fn cleaned(text: Seq<char>, k: int) -> Seq<char>
    decreases text.len() - k,
{
    if k < 0 || k >= text.len() {
        Seq::empty()
    } else if spelled_break(text, k) {
        seq!['\n'] + cleaned(text, k + 6)
    } else if text[k] == '\u{2581}' || text[k] == '\u{120}' {
        seq![' '] + cleaned(text, k + 1)
    } else {
        seq![text[k]] + cleaned(text, k + 1)
    }
}

fn is_spelled_break(chars: &Vec<char>, k: usize) -> (r: bool)
    requires
        k < chars@.len(),
    ensures
        r == spelled_break(chars@, k as int),
{
    proof {
        reveal_strlit("<0x0A>");
    }
    if chars.len() - k < 6 {
        return false;
    }
    let ghost found = chars@.subrange(k as int, k + 6);
    assert(found[0] == chars@[k as int]);
    assert(found[1] == chars@[k + 1]);
    assert(found[2] == chars@[k + 2]);
    assert(found[3] == chars@[k + 3]);
    assert(found[4] == chars@[k + 4]);
    assert(found[5] == chars@[k + 5]);
    let same: bool = chars[k] == '<' && chars[k + 1] == '0' && chars[k + 2] == 'x' && chars[k + 3]
        == '0' && chars[k + 4] == 'A' && chars[k + 5] == '>';
    proof {
        if same {
            assert(found =~= "<0x0A>"@);
        }
    }
    same
}

/// What a token stands for.
pub fn clean_token(text: &str) -> (r: String)
    ensures
        r@ == cleaned(text@, 0),
{
    let chars = chars_of(text);
    let mut out = String::new();
    let mut k: usize = 0;
    assert(out@ + cleaned(text@, 0) =~= cleaned(text@, 0));
    while k < chars.len()
        invariant
            chars@ == text@,
            k <= chars@.len(),
            out@ + cleaned(text@, k as int) == cleaned(text@, 0),
        decreases chars@.len() - k,
    {
        let ghost before = out@;
        if is_spelled_break(&chars, k) {
            out.push('\n');
            assert(out@ + cleaned(text@, k + 6) =~= before + (seq!['\n'] + cleaned(text@, k + 6)));
            k += 6;
        } else if chars[k] == '\u{2581}' || chars[k] == '\u{120}' {
            out.push(' ');
            assert(out@ + cleaned(text@, k + 1) =~= before + (seq![' '] + cleaned(text@, k + 1)));
            k += 1;
        } else {
            out.push(chars[k]);
            assert(out@ + cleaned(text@, k + 1) =~= before + (seq![text@[k as int]] + cleaned(
                text@,
                k + 1,
            )));
            k += 1;
        }
    }
    assert(out@ + Seq::<char>::empty() =~= out@);
    out
}

/// The text of a token, as a new string.
pub open spec fn decode_result(v: TokenizersView, h: HeapView, arguments: Seq<ValueView>) -> (
    HeapView,
    Result<ValueView, ErrorView>,
) {
    match two_numbers(arguments) {
        None => (
            h,
            Err(misused("tokenizer_decode expects (tokenizer_id: i32, token: i32)"@)),
        ),
        Some((id, token)) => if v.held.contains_key(id) {
            let known = vocabulary(v.held[id]);
            let raw = if known.contains_key(token as u32) {
                known[token as u32]
            } else {
                ""@
            };
            (
                with_object(h, ObjectView::String(cleaned(raw, 0))),
                Ok(ValueView::String(fresh(h))),
            )
        } else {
            (h, Err(misused("Tokenizer not found"@)))
        },
    }
}

/// The text of a token.
pub fn host_tokenizer_decode(
    tokenizers: &Tokenizers,
    arguments: &Vec<Value>,
    heap: &mut Heap,
) -> (r: Result<Value, Error>)
    requires
        old(heap).wf(),
    ensures
        final(heap).wf(),
        match r {
            Ok(v) => decode_result(tokenizers@, old(heap)@, views(arguments@)) == (
                final(heap)@,
                Ok::<ValueView, ErrorView>(v@),
            ),
            Err(e) => decode_result(tokenizers@, old(heap)@, views(arguments@)) == (
                final(heap)@,
                Err::<ValueView, ErrorView>(e@),
            ),
        },
{
    let (id, token) = match numbers(arguments) {
        Some(found) => found,
        None => {
            return Err(
                runtime_error("tokenizer_decode expects (tokenizer_id: i32, token: i32)"),
            );
        },
    };
    let raw = match tokenizers.held.get(&id) {
        Some(t) => match token_text(t, token as u32) {
            Some(text) => text,
            None => "".to_string(),
        },
        None => {
            return Err(runtime_error("Tokenizer not found"));
        },
    };
    let reference = heap.allocate(HeapObject::String(clean_token(raw.as_str())));
    Ok(Value::String(reference))
}

/// The tokenizer and the text that `tokenizer_encode` is called on.
pub open spec fn encode_call(
    v: TokenizersView,
    h: HeapView,
    arguments: Seq<ValueView>,
) -> Result<(Tokenizer, Seq<char>), ErrorView> {
    let message = "tokenizer_encode expects (tokenizer_id: i32, text: string)"@;
    if arguments.len() == 2 {
        match (arguments[0], arguments[1]) {
            (ValueView::I32(id), ValueView::String(r)) => match text_at(h, r) {
                Err(e) => Err(e),
                Ok(text) => if v.held.contains_key(id) {
                    Ok((v.held[id], text))
                } else {
                    Err(misused("Tokenizer not found"@))
                },
            },
            _ => Err(misused(message)),
        }
    } else {
        Err(misused(message))
    }
}

/// Tokens as integers of a program.
pub open spec fn token_values(tokens: Seq<u32>) -> Seq<ValueView> {
    Seq::new(tokens.len(), |k: int| ValueView::I32(tokens[k] as i32))
}

/// Whether tokens were put into the heap as a vector.
pub open spec fn stored_tokens(
    before: HeapView,
    after: HeapView,
    tokens: Seq<u32>,
    v: ValueView,
) -> bool {
    match packed(token_values(tokens), TypeView::I32) {
        Err(_) => false,
        Ok(bytes) => {
            &&& after == with_object(before, ObjectView::Array { bytes, element: TypeView::I32 })
            &&& v == ValueView::Array(fresh(before), TypeView::I32)
        },
    }
}

/// Whether the tokens that a text was split into were put into the heap.
pub open spec fn tokens_stored(
    before: HeapView,
    after: HeapView,
    t: Tokenizer,
    text: Seq<char>,
    v: ValueView,
) -> bool {
    exists|tokens: Seq<u32>| #[trigger]
        splits(t, text, tokens) && stored_tokens(before, after, tokens, v)
}

proof fn lemma_tokens_pack(tokens: Seq<u32>)
    ensures
        packed(token_values(tokens), TypeView::I32) is Ok,
    decreases tokens.len(),
{
    if tokens.len() > 0 {
        lemma_tokens_pack(tokens.drop_last());
        assert(token_values(tokens).drop_last() =~= token_values(tokens.drop_last()));
        assert(encoded(token_values(tokens).last(), TypeView::I32) is Ok);
    }
}

/// Puts tokens into the heap as a vector.
pub fn store_tokens(heap: &mut Heap, tokens: &Vec<u32>) -> (r: Value)
    requires
        old(heap).wf(),
    ensures
        final(heap).wf(),
        stored_tokens(old(heap)@, final(heap)@, tokens@, r@),
{
    let ghost all = token_values(tokens@);
    let mut values: Vec<Value> = Vec::new();
    let mut k: usize = 0;
    while k < tokens.len()
        invariant
            k <= tokens@.len(),
            all == token_values(tokens@),
            views(values@) == all.take(k as int),
        decreases tokens@.len() - k,
    {
        values.push(Value::I32(tokens[k] as i32));
        assert(views(values@) =~= all.take(k + 1));
        k += 1;
    }
    proof {
        assert(all.take(all.len() as int) =~= all);
        lemma_tokens_pack(tokens@);
    }
    let bytes = match pack_values(&values, &Type::I32, values.len()) {
        Ok(bytes) => bytes,
        Err(_) => Vec::new(),
    };
    let reference = heap.allocate(HeapObject::Array { bytes, element: Type::I32 });
    Value::Array(reference, Box::new(Type::I32))
}

/// The tokenizer, by its number, and the text that `tokenizer_encode` is called
/// on.
pub fn encode_operands(tokenizers: &Tokenizers, arguments: &Vec<Value>, heap: &Heap) -> (r: Result<
    (i32, String),
    Error,
>)
    ensures
        match r {
            Ok((id, text)) => tokenizers@.held.contains_key(id) && encode_call(
                tokenizers@,
                heap@,
                views(arguments@),
            ) == Ok::<(Tokenizer, Seq<char>), ErrorView>((tokenizers@.held[id], text@)),
            Err(e) => encode_call(tokenizers@, heap@, views(arguments@)) == Err::<
                (Tokenizer, Seq<char>),
                ErrorView,
            >(e@),
        },
{
    if arguments.len() == 2 {
        assert(views(arguments@)[0] == arguments@[0]@);
        assert(views(arguments@)[1] == arguments@[1]@);
        if let (Value::I32(id), Value::String(reference)) = (&arguments[0], &arguments[1]) {
            let text = heap_text(heap, *reference)?;
            return match tokenizers.held.get(id) {
                Some(_) => Ok((*id, text)),
                None => Err(runtime_error("Tokenizer not found")),
            };
        }
    }
    Err(runtime_error("tokenizer_encode expects (tokenizer_id: i32, text: string)"))
}

/// Whether `tokenizer_encode` can be carried out.
pub open spec fn encode_allowed(
    v: TokenizersView,
    h: HeapView,
    arguments: Seq<ValueView>,
) -> bool {
    match encode_call(v, h, arguments) {
        Err(_) => true,
        Ok((t, _)) => steady(t),
    }
}

/// Whether `tokenizer_encode` can be carried out.
pub fn may_encode(tokenizers: &Tokenizers, arguments: &Vec<Value>, heap: &Heap) -> (r: bool)
    ensures
        r == encode_allowed(tokenizers@, heap@, views(arguments@)),
{
    match encode_operands(tokenizers, arguments, heap) {
        Err(_) => true,
        Ok((id, _)) => match tokenizers.held.get(&id) {
            Some(t) => is_steady(t),
            None => true,
        },
    }
}

/// Whether tokens were put into the heap, or the reason why there are none
/// passed on.
pub open spec fn tokens_settled(
    before: HeapView,
    after: HeapView,
    outcome: Result<Seq<u32>, Seq<char>>,
    r: Result<Value, Error>,
) -> bool {
    match outcome {
        Ok(tokens) => r is Ok && stored_tokens(before, after, tokens, r->Ok_0@),
        Err(reason) => after == before && r is Err && r->Err_0@ == ErrorView::Runtime(
            "Encode error: "@ + reason,
        ),
    }
}

/// Tokens, or the reason why there are none.
pub open spec fn tokens_given(outcome: Result<Vec<u32>, String>) -> Result<Seq<u32>, Seq<char>> {
    match outcome {
        Ok(tokens) => Ok(tokens@),
        Err(reason) => Err(reason@),
    }
}

/// Puts the tokens of a text into the heap as a vector, or passes the reason on
/// why there are none.
pub fn settle_tokens(heap: &mut Heap, outcome: Result<Vec<u32>, String>) -> (r: Result<Value, Error>)
    requires
        old(heap).wf(),
    ensures
        final(heap).wf(),
        tokens_settled(old(heap)@, final(heap)@, tokens_given(outcome), r),
{
    match outcome {
        Ok(tokens) => Ok(store_tokens(heap, &tokens)),
        Err(reason) => Err(Error::Runtime(cat2("Encode error: ", reason.as_str()))),
    }
}

/// The tokens of a text, as a vector.
pub fn host_tokenizer_encode(
    tokenizers: &Tokenizers,
    arguments: &Vec<Value>,
    heap: &mut Heap,
) -> (r: Result<Value, Error>)
    requires
        old(heap).wf(),
        encode_allowed(tokenizers@, old(heap)@, views(arguments@)),
    ensures
        final(heap).wf(),
        r is Err ==> final(heap)@ == old(heap)@,
        match encode_call(tokenizers@, old(heap)@, views(arguments@)) {
            Err(e) => r is Err && r->Err_0@ == e,
            Ok((t, text)) => match r {
                Err(e) => e@ is Runtime && exists|reason: Seq<char>| #[trigger]
                    ("Encode error: "@ + reason) == e@->Runtime_0,
                Ok(v) => tokens_stored(old(heap)@, final(heap)@, t, text, v@),
            },
        },
{
    let (id, text) = encode_operands(tokenizers, arguments, heap)?;
    let outcome = match tokenizers.held.get(&id) {
        Some(t) => split_text(t, text.as_str()),
        None => Err("Tokenizer not found".to_string()),
    };
    let ghost given = tokens_given(outcome);
    let ghost tokenizer = tokenizers@.held[id];
    assert(given matches Ok(tokens) ==> splits(tokenizer, text@, tokens));
    let r = settle_tokens(heap, outcome);
    proof {
        if r is Ok {
            assert(splits(tokenizer, text@, given->Ok_0));
        } else {
            assert(("Encode error: "@ + given->Err_0) == r->Err_0@->Runtime_0);
        }
    }
    r
}

} // verus!
