//! Laws of what is read and of what is written.
use vstd::prelude::*;
use crate::format::{
    PieceView, assembled, cells, dimensions_text, field_pieces, floats_in, keys_text, printf_pieces,
    separated, value_piece, value_pieces,
};
use crate::heap::{ObjectView, object_at};
use crate::instance::{AnswerView, InstanceView, PendingView, RequestView, dropped, pushed, shown};
use crate::ir::OpView;
use crate::numeric::FloatView;
use crate::scalar::{decoded, is_scalar};
use crate::semantics::{
    Effect, FlowView, HeapView, answered, cell_in, effect, length_of, made_string, string_in,
};
use crate::text::{
    all_digits, decimal, digit, digits, digits_value, drop_spaces, is_digit, is_space, line_content,
    line_end, parsed_integer, sign_split, skip_spaces, trimmed,
};
use crate::types::{ErrorView, TypeView, in_int_bounds, int_bounds, integer_type, scalar_size_of};
use crate::value::{
    FieldView, HeapRef, LayoutView, TableKeyView, ValueView, int_of,
    integer_values_hold_their_number, key_text, type_of,
};

verus! {

/// Whether a text is made of blanks, tabs and line breaks.
pub open spec fn blank(s: Seq<char>) -> bool {
    forall|k: int|
        0 <= k < s.len() ==> (#[trigger] s[k] == ' ' || s[k] == '\t' || s[k] == '\r' || s[k]
            == '\n')
}

proof fn lemma_line_end(s: Seq<char>, j: int)
    requires
        0 <= j <= s.len(),
    ensures
        0 <= line_end(s, j) <= j,
        forall|k: int| line_end(s, j) <= k < j ==> #[trigger] s[k] == '\r' || s[k] == '\n',
        line_end(s, j) > 0 ==> s[line_end(s, j) - 1] != '\r' && s[line_end(s, j) - 1] != '\n',
    decreases j,
{
    if 0 < j && (s[j - 1] == '\r' || s[j - 1] == '\n') {
        lemma_line_end(s, j - 1);
    }
}

/// A line that is read as a string becomes a new string: the line without the
/// line breaks at its end, and with everything else.
pub proof fn strings_are_lines_without_their_end(
    h: HeapView,
    i: InstanceView,
    request: RequestView,
    line: Seq<char>,
)
    ensures
        exists|text: Seq<char>|
            {
                &&& answered(
                    h,
                    i,
                    request,
                    PendingView::Read { ty: TypeView::String },
                    AnswerView::Line(line),
                ) == #[trigger] made_string(h, i, text)
                &&& text.is_prefix_of(line)
                &&& text.len() > 0 ==> text.last() != '\r' && text.last() != '\n'
                &&& forall|k: int|
                    text.len() <= k < line.len() ==> #[trigger] line[k] == '\r' || line[k] == '\n'
            },
{
    let end = line_end(line, line.len() as int);
    lemma_line_end(line, line.len() as int);
    let text = line_content(line);
    assert(text == line.take(end));
    assert(text.is_prefix_of(line));
    assert(answered(
        h,
        i,
        request,
        PendingView::Read { ty: TypeView::String },
        AnswerView::Line(line),
    ) == made_string(h, i, text));
}

proof fn lemma_skip_spaces(s: Seq<char>, i: int)
    requires
        0 <= i <= s.len(),
    ensures
        i <= skip_spaces(s, i) <= s.len(),
        forall|k: int| i <= k < skip_spaces(s, i) ==> is_space(#[trigger] s[k]),
        skip_spaces(s, i) < s.len() ==> !is_space(s[skip_spaces(s, i)]),
    decreases s.len() - i,
{
    if i < s.len() && is_space(s[i]) {
        lemma_skip_spaces(s, i + 1);
    }
}

proof fn lemma_drop_spaces(s: Seq<char>, i: int, j: int)
    requires
        0 <= i <= j <= s.len(),
    ensures
        i <= drop_spaces(s, i, j) <= j,
        forall|k: int| drop_spaces(s, i, j) <= k < j ==> is_space(#[trigger] s[k]),
        drop_spaces(s, i, j) > i ==> !is_space(s[drop_spaces(s, i, j) - 1]),
    decreases j - i,
{
    if i < j && is_space(s[j - 1]) {
        lemma_drop_spaces(s, i, j - 1);
    }
}

/// A text around which blanks stand is what is left when it is trimmed, if it has
/// none at its own ends.
pub proof fn trimming_takes_blanks_away(before: Seq<char>, text: Seq<char>, after: Seq<char>)
    requires
        blank(before),
        blank(after),
        text.len() > 0 ==> !is_space(text.first()) && !is_space(text.last()),
    ensures
        trimmed(before + text + after) == text,
{
    let s = before + text + after;
    assert(is_space(' ') && is_space('\t') && is_space('\r') && is_space('\n'));
    lemma_skip_spaces(s, 0);
    let start = skip_spaces(s, 0);
    lemma_drop_spaces(s, start, s.len() as int);
    let end = drop_spaces(s, start, s.len() as int);
    assert forall|k: int| 0 <= k < before.len() implies is_space(#[trigger] s[k]) by {
        assert(s[k] == before[k]);
    }
    assert forall|k: int| before.len() + text.len() <= k < s.len() implies is_space(
        #[trigger] s[k],
    ) by {
        assert(s[k] == after[k - before.len() - text.len()]);
    }
    if text.len() > 0 {
        assert(s[before.len() as int] == text.first());
        assert(s[before.len() + text.len() - 1] == text.last());
        assert(start == before.len());
        assert(end == before.len() + text.len());
        assert(s.subrange(start, end) =~= text);
    } else {
        if start < s.len() {
            assert(!is_space(s[start]));
        }
        assert(end == start) by {
            if end > start {
                assert(!is_space(s[end - 1]));
            }
        }
        assert(s.subrange(start, end) =~= text);
    }
}

proof fn lemma_digits(n: nat)
    ensures
        digits(n).len() > 0,
        all_digits(digits(n)),
        digits_value(digits(n)) == n,
    decreases n,
{
    if n >= 10 {
        lemma_digits(n / 10);
        let d = digits(n / 10).push(digit((n % 10) as int));
        assert(d.drop_last() =~= digits(n / 10));
        assert forall|k: int| 0 <= k < d.len() implies is_digit(#[trigger] d[k]) by {
            if k < d.len() - 1 {
                assert(d[k] == digits(n / 10)[k]);
            }
        }
    } else {
        let d = seq![digit(n as int)];
        assert(d.drop_last() =~= Seq::<char>::empty());
        assert(digits_value(d.drop_last()) == 0);
    }
}

/// A number that is written in decimal reads back as the number.
pub proof fn written_numbers_read_back(n: int)
    requires
        i128::MIN <= n <= i128::MAX,
    ensures
        parsed_integer(decimal(n)) == Some(n),
{
    reveal_strlit("-");
    if n < 0 {
        lemma_digits((-n) as nat);
        assert(decimal(n).skip(1) =~= digits((-n) as nat));
        assert(decimal(n)[0] == '-');
    } else {
        lemma_digits(n as nat);
        assert(is_digit(digits(n as nat)[0]));
    }
}

/// A line that holds a number, with blanks around it, is read as that number
/// where the type has it, and refused where it has not.
pub proof fn typed_numbers_are_read(
    h: HeapView,
    i: InstanceView,
    request: RequestView,
    t: TypeView,
    n: int,
    before: Seq<char>,
    after: Seq<char>,
)
    requires
        integer_type(t),
        i128::MIN <= n <= i128::MAX,
        blank(before),
        blank(after),
    ensures
        ({
            let e = answered(
                h,
                i,
                request,
                PendingView::Read { ty: t },
                AnswerView::Line(before + decimal(n) + after),
            );
            let v = e.inst.stack.last();
            if int_bounds(t).0 <= n <= int_bounds(t).1 {
                &&& e.flow is Settle && e.heap == h && e.inst == pushed(i, v)
                &&& type_of(v) == t && int_of(v) == Some(n)
            } else {
                e.flow is Fail && e.heap == h && e.inst == i
            }
        }),
{
    lemma_decimal_ends(n);
    trimming_takes_blanks_away(before, decimal(n), after);
    written_numbers_read_back(n);
    if in_int_bounds(t, n) {
        integer_values_hold_their_number(t, n);
    }
}

proof fn lemma_decimal_ends(n: int)
    ensures
        decimal(n).len() > 0,
        !is_space(decimal(n).first()),
        !is_space(decimal(n).last()),
{
    reveal_strlit("-");
    let m = if n < 0 {
        (-n) as nat
    } else {
        n as nat
    };
    lemma_digits(m);
    assert(is_digit(digits(m).last()));
    assert(is_digit(digits(m).first()));
    assert(decimal(n).last() == digits(m).last());
}

/// A line that is no number with blanks around it is refused: what is read has
/// only digits, with a sign at most before them.
pub proof fn other_lines_are_refused(
    h: HeapView,
    i: InstanceView,
    request: RequestView,
    t: TypeView,
    line: Seq<char>,
    k: int,
)
    requires
        integer_type(t),
        0 <= k < line.len(),
        !is_space(line[k]),
        !('0' <= line[k] <= '9'),
        line[k] != '-' && line[k] != '+' || (k > 0 && !is_space(line[k - 1])),
    ensures
        answered(
            h,
            i,
            request,
            PendingView::Read { ty: t },
            AnswerView::Line(line),
        ).flow is Fail,
{
    lemma_skip_spaces(line, 0);
    let start = skip_spaces(line, 0);
    lemma_drop_spaces(line, start, line.len() as int);
    let end = drop_spaces(line, start, line.len() as int);
    let text = trimmed(line);
    assert(start <= k < end);
    assert(text[k - start] == line[k]);
    let (negative, body) = sign_split(text);
    if parsed_integer(text) is Some {
        if body.len() == text.len() {
            assert(is_digit(body[k - start]));
        } else {
            if k == start {
                assert(line[k] == '-' || line[k] == '+');
                assert(is_space(line[k - 1]));
            } else {
                assert(body[k - start - 1] == text[k - start]);
                assert(is_digit(body[k - start - 1]));
            }
        }
    }
}

/// A line that is read as a float is handed over without the blanks around it.
pub proof fn typed_floats_are_handed_over(
    h: HeapView,
    i: InstanceView,
    request: RequestView,
    t: TypeView,
    text: Seq<char>,
    before: Seq<char>,
    after: Seq<char>,
)
    requires
        t is F16 || t is BF16 || t is F32 || t is F64,
        blank(before),
        blank(after),
        text.len() > 0 ==> !is_space(text.first()) && !is_space(text.last()),
    ensures
        answered(
            h,
            i,
            request,
            PendingView::Read { ty: t },
            AnswerView::Line(before + text + after),
        ) == (Effect {
            heap: h,
            inst: i,
            flow: FlowView::Ask(
                RequestView::Float(FloatView::Parse { text, ty: t }),
                PendingView::Push { settle: true },
            ),
        }),
{
    trimming_takes_blanks_away(before, text, after);
}

/// Lines that are there are read in their order, each once; where none is left,
/// one is asked for.
pub proof fn lines_are_read_in_order(
    h: HeapView,
    all: Seq<InstanceView>,
    i: InstanceView,
    receiver: Option<usize>,
    t: TypeView,
    first: Seq<char>,
    rest: Seq<Seq<char>>,
)
    ensures
        i.input == seq![first] + rest ==> effect(h, all, i, receiver, OpView::Input(t)) == answered(
            h,
            InstanceView { input: rest, ..i },
            RequestView::Line,
            PendingView::Read { ty: t },
            AnswerView::Line(first),
        ),
        i.input.len() == 0 ==> effect(h, all, i, receiver, OpView::Input(t)) == (Effect {
            heap: h,
            inst: i,
            flow: FlowView::Ask(RequestView::Line, PendingView::Read { ty: t }),
        }),
{
    if i.input == seq![first] + rest {
        assert(i.input.drop_first() =~= rest);
        assert(i.input.first() == first);
    }
}

/// How many floats stand among some pieces.
pub open spec fn float_count(pieces: Seq<PieceView>) -> nat
    decreases pieces.len(),
{
    if pieces.len() == 0 {
        0
    } else {
        float_count(pieces.drop_last()) + (if pieces.last() is Float {
            1nat
        } else {
            0nat
        })
    }
}

/// The text that pieces make up with the texts of their floats.
pub open spec fn put_together(pieces: Seq<PieceView>, texts: Seq<Seq<char>>) -> Seq<char> {
    assembled(""@, pieces, 0, texts, 0)
}

proof fn lemma_assembled_from(
    acc: Seq<char>,
    pieces: Seq<PieceView>,
    i: int,
    texts: Seq<Seq<char>>,
    k: int,
)
    requires
        0 <= i <= pieces.len(),
        k == float_count(pieces.take(i)),
        texts.len() == float_count(pieces),
    ensures
        assembled(acc, pieces, i, texts, k) == acc + assembled(""@, pieces, i, texts, k),
        k <= texts.len(),
        i < pieces.len() && pieces[i] is Float ==> k < texts.len(),
    decreases pieces.len() - i,
{
    reveal_strlit("");
    assert(""@ =~= Seq::<char>::empty());
    lemma_float_count(pieces, i);
    if i < pieces.len() {
        assert(pieces.take(i + 1).drop_last() =~= pieces.take(i));
        lemma_float_count(pieces, i + 1);
        match pieces[i] {
            PieceView::Text(text) => {
                lemma_assembled_from(acc + text, pieces, i + 1, texts, k);
                lemma_assembled_from(""@ + text, pieces, i + 1, texts, k);
                assert(""@ + text =~= text);
                assert(acc + text + assembled(""@, pieces, i + 1, texts, k) =~= acc + (text
                    + assembled(""@, pieces, i + 1, texts, k)));
            },
            PieceView::Float(_) => {
                lemma_assembled_from(acc + texts[k], pieces, i + 1, texts, k + 1);
                lemma_assembled_from(""@ + texts[k], pieces, i + 1, texts, k + 1);
                assert(""@ + texts[k] =~= texts[k]);
                assert(acc + texts[k] + assembled(""@, pieces, i + 1, texts, k + 1) =~= acc + (
                texts[k] + assembled(""@, pieces, i + 1, texts, k + 1)));
            },
        }
    } else {
        assert(acc + ""@ =~= acc);
        assert(pieces.take(i) =~= pieces);
    }
}

proof fn lemma_float_count(pieces: Seq<PieceView>, i: int)
    requires
        0 <= i <= pieces.len(),
    ensures
        float_count(pieces.take(i)) <= float_count(pieces),
        i < pieces.len() && pieces[i] is Float ==> float_count(pieces.take(i)) < float_count(
            pieces,
        ),
    decreases pieces.len() - i,
{
    if i == pieces.len() {
        assert(pieces.take(i) =~= pieces);
    } else {
        assert(pieces.take(i + 1).drop_last() =~= pieces.take(i));
        lemma_float_count(pieces, i + 1);
    }
}

/// What stands from a piece on depends only on the pieces from there on and on the
/// texts from there on.
proof fn lemma_assembled_shifts(
    first: Seq<PieceView>,
    second: Seq<PieceView>,
    i: int,
    texts: Seq<Seq<char>>,
    k: int,
)
    requires
        0 <= i <= second.len(),
        k == float_count(second.take(i)),
        texts.len() == float_count(first) + float_count(second),
    ensures
        assembled(""@, first + second, first.len() + i, texts, float_count(first) + k) == assembled(
            ""@,
            second,
            i,
            texts.skip(float_count(first) as int),
            k,
        ),
        float_count(first + second) == float_count(first) + float_count(second),
    decreases second.len() - i,
{
    let both = first + second;
    let m = float_count(first) as int;
    let rest = texts.skip(m);
    lemma_counts_add(first, second);
    lemma_float_count(second, i);
    reveal_strlit("");
    if i < second.len() {
        assert(both[first.len() + i] == second[i]);
        assert(second.take(i + 1).drop_last() =~= second.take(i));
        lemma_float_count(second, i + 1);
        assert(both.take(first.len() + i + 1) =~= first + second.take(i + 1));
        lemma_counts_add(first, second.take(i + 1));
        match second[i] {
            PieceView::Text(text) => {
                lemma_assembled_shifts(first, second, i + 1, texts, k);
                lemma_assembled_from(""@ + text, both, first.len() + i + 1, texts, m + k);
                lemma_assembled_from(""@ + text, second, i + 1, rest, k);
            },
            PieceView::Float(_) => {
                assert(rest[k] == texts[m + k]);
                lemma_assembled_shifts(first, second, i + 1, texts, k + 1);
                lemma_assembled_from(""@ + texts[m + k], both, first.len() + i + 1, texts, m + k + 1);
                lemma_assembled_from(""@ + rest[k], second, i + 1, rest, k + 1);
            },
        }
    }
}

proof fn lemma_counts_add(first: Seq<PieceView>, second: Seq<PieceView>)
    ensures
        float_count(first + second) == float_count(first) + float_count(second),
    decreases second.len(),
{
    if second.len() == 0 {
        assert(first + second =~= first);
    } else {
        assert((first + second).drop_last() =~= first + second.drop_last());
        lemma_counts_add(first, second.drop_last());
    }
}

proof fn lemma_assembled_splits(
    first: Seq<PieceView>,
    second: Seq<PieceView>,
    i: int,
    texts: Seq<Seq<char>>,
    k: int,
)
    requires
        0 <= i <= first.len(),
        k == float_count(first.take(i)),
        texts.len() == float_count(first) + float_count(second),
    ensures
        assembled(""@, first + second, i, texts, k) == assembled(
            ""@,
            first,
            i,
            texts.take(float_count(first) as int),
            k,
        ) + put_together(second, texts.skip(float_count(first) as int)),
    decreases first.len() - i,
{
    let both = first + second;
    let m = float_count(first) as int;
    let head = texts.take(m);
    reveal_strlit("");
    lemma_counts_add(first, second);
    lemma_float_count(first, i);
    if i == first.len() {
        assert(first.take(i) =~= first);
        assert(second.take(0) =~= Seq::<PieceView>::empty());
        lemma_assembled_shifts(first, second, 0, texts, 0);
        assert(""@ + put_together(second, texts.skip(m)) =~= put_together(second, texts.skip(m)));
    } else {
        assert(both[i] == first[i]);
        assert(first.take(i + 1).drop_last() =~= first.take(i));
        assert(both.take(i + 1) =~= first.take(i + 1));
        lemma_float_count(first, i + 1);
        match first[i] {
            PieceView::Text(text) => {
                lemma_assembled_splits(first, second, i + 1, texts, k);
                lemma_assembled_from(""@ + text, both, i + 1, texts, k);
                lemma_assembled_from(""@ + text, first, i + 1, head, k);
                let a = assembled(""@, first, i + 1, head, k);
                let b = put_together(second, texts.skip(m));
                assert((""@ + text) + (a + b) =~= ((""@ + text) + a) + b);
            },
            PieceView::Float(_) => {
                assert(head[k] == texts[k]);
                lemma_assembled_splits(first, second, i + 1, texts, k + 1);
                lemma_assembled_from(""@ + texts[k], both, i + 1, texts, k + 1);
                lemma_assembled_from(""@ + texts[k], first, i + 1, head, k + 1);
                let a = assembled(""@, first, i + 1, head, k + 1);
                let b = put_together(second, texts.skip(m));
                assert((""@ + texts[k]) + (a + b) =~= ((""@ + texts[k]) + a) + b);
            },
        }
    }
}

/// What is put out for pieces in a row is what is put out for the first of them,
/// with as many of the texts as they have floats, and behind it what is put out
/// for the others with the texts that are left. A piece of text is put out as it
/// is, and a float as its text.
pub proof fn pieces_are_put_out_in_order(
    first: Seq<PieceView>,
    second: Seq<PieceView>,
    texts: Seq<Seq<char>>,
    text: Seq<char>,
    v: ValueView,
)
    requires
        texts.len() == float_count(first) + float_count(second),
    ensures
        put_together(first + second, texts) == put_together(
            first,
            texts.take(float_count(first) as int),
        ) + put_together(second, texts.skip(float_count(first) as int)),
        put_together(seq![PieceView::Text(text)], Seq::empty()) == text,
        put_together(seq![PieceView::Float(v)], seq![text]) == text,
{
    reveal_strlit("");
    assert(first.take(0) =~= Seq::<PieceView>::empty());
    lemma_assembled_splits(first, second, 0, texts, 0);
    reveal_with_fuel(assembled, 3);
    assert(""@ + text =~= text);
}

/// The floats that are asked for are those among the pieces, in their order.
pub proof fn floats_are_asked_for_in_their_order(
    first: Seq<PieceView>,
    second: Seq<PieceView>,
    text: Seq<char>,
    v: ValueView,
)
    ensures
        floats_in(first + second, 0) == floats_in(first, 0) + floats_in(second, 0),
        floats_in(seq![PieceView::Text(text)], 0).len() == 0,
        floats_in(seq![PieceView::Float(v)], 0) == seq![v],
        floats_in(first, 0).len() == float_count(first),
{
    lemma_floats_split(first, second, 0);
    lemma_floats_counted(first);
    reveal_with_fuel(floats_in, 3);
    assert(seq![v] + Seq::<ValueView>::empty() =~= seq![v]);
}

proof fn lemma_floats_shift(first: Seq<PieceView>, second: Seq<PieceView>, i: int)
    requires
        0 <= i <= second.len(),
    ensures
        floats_in(first + second, first.len() + i) == floats_in(second, i),
    decreases second.len() - i,
{
    if i < second.len() {
        assert((first + second)[first.len() + i] == second[i]);
        lemma_floats_shift(first, second, i + 1);
    }
}

proof fn lemma_floats_split(first: Seq<PieceView>, second: Seq<PieceView>, i: int)
    requires
        0 <= i <= first.len(),
    ensures
        floats_in(first + second, i) == floats_in(first, i) + floats_in(second, 0),
    decreases first.len() - i,
{
    if i == first.len() {
        lemma_floats_shift(first, second, 0);
        assert(Seq::<ValueView>::empty() + floats_in(second, 0) =~= floats_in(second, 0));
    } else {
        assert((first + second)[i] == first[i]);
        lemma_floats_split(first, second, i + 1);
        if let PieceView::Float(v) = first[i] {
            assert(seq![v] + (floats_in(first, i + 1) + floats_in(second, 0)) =~= (seq![v]
                + floats_in(first, i + 1)) + floats_in(second, 0));
        }
    }
}

proof fn lemma_floats_counted(pieces: Seq<PieceView>)
    ensures
        floats_in(pieces, 0).len() == float_count(pieces),
    decreases pieces.len(),
{
    if pieces.len() > 0 {
        lemma_floats_counted(pieces.drop_last());
        let last = seq![pieces.last()];
        assert(pieces.drop_last() + last =~= pieces);
        lemma_floats_split(pieces.drop_last(), last, 0);
        reveal_with_fuel(floats_in, 3);
    }
}

/// How a format is written with its arguments.
pub open spec fn formatted(h: HeapView, format: Seq<char>, args: Seq<ValueView>) -> Result<
    Seq<PieceView>,
    ErrorView,
> {
    printf_pieces(h, Seq::empty(), format, 0, args, 0)
}

/// One result behind another.
pub open spec fn behind(first: Seq<PieceView>, second: Result<Seq<PieceView>, ErrorView>) -> Result<
    Seq<PieceView>,
    ErrorView,
> {
    match second {
        Ok(pieces) => Ok(first + pieces),
        Err(e) => Err(e),
    }
}

proof fn lemma_printf_behind(
    h: HeapView,
    acc: Seq<PieceView>,
    format: Seq<char>,
    i: int,
    args: Seq<ValueView>,
    k: int,
)
    requires
        0 <= i <= format.len(),
        0 <= k,
    ensures
        printf_pieces(h, acc, format, i, args, k) == behind(
            acc,
            printf_pieces(h, Seq::empty(), format, i, args, k),
        ),
    decreases format.len() - i,
{
    let none = Seq::<PieceView>::empty();
    if i >= format.len() {
        assert(acc + none =~= acc);
    } else if format[i] == '{' && i + 1 < format.len() && format[i + 1] == '}' {
        if k < args.len() {
            if let Ok(pieces) = value_pieces(h, args[k], h.len()) {
                lemma_printf_behind(h, acc + pieces, format, i + 2, args, k + 1);
                lemma_printf_behind(h, none + pieces, format, i + 2, args, k + 1);
                if let Ok(rest) = printf_pieces(h, none, format, i + 2, args, k + 1) {
                    assert((acc + pieces) + rest =~= acc + ((none + pieces) + rest));
                }
            }
        }
    } else {
        let (text, n) = if format[i] == '{' {
            ("{"@, 2int)
        } else if format[i] == '}' {
            ("}"@, 2int)
        } else {
            (seq![format[i]], 1int)
        };
        if i + n <= format.len() {
            let piece = PieceView::Text(text);
            lemma_printf_behind(h, acc.push(piece), format, i + n, args, k);
            lemma_printf_behind(h, none.push(piece), format, i + n, args, k);
            if let Ok(rest) = printf_pieces(h, none, format, i + n, args, k) {
                assert(acc.push(piece) + rest =~= acc + (none.push(piece) + rest));
            }
        }
    }
}

proof fn lemma_printf_shifts(
    h: HeapView,
    f1: Seq<char>,
    f2: Seq<char>,
    i: int,
    a1: Seq<ValueView>,
    a2: Seq<ValueView>,
    k: int,
)
    requires
        0 <= i <= f2.len(),
        0 <= k,
    ensures
        printf_pieces(h, Seq::empty(), f1 + f2, f1.len() + i, a1 + a2, a1.len() + k)
            == printf_pieces(h, Seq::empty(), f2, i, a2, k),
    decreases f2.len() - i,
{
    let none = Seq::<PieceView>::empty();
    let f = f1 + f2;
    let a = a1 + a2;
    let (j, m) = (f1.len() + i, a1.len() + k);
    if i < f2.len() {
        assert(f[j] == f2[i]);
        if i + 1 < f2.len() {
            assert(f[j + 1] == f2[i + 1]);
        }
        if f2[i] == '{' && i + 1 < f2.len() && f2[i + 1] == '}' {
            if k < a2.len() {
                assert(a[m] == a2[k]);
                if let Ok(pieces) = value_pieces(h, a2[k], h.len()) {
                    lemma_printf_shifts(h, f1, f2, i + 2, a1, a2, k + 1);
                    lemma_printf_behind(h, none + pieces, f, j + 2, a, m + 1);
                    lemma_printf_behind(h, none + pieces, f2, i + 2, a2, k + 1);
                }
            }
        } else {
            let (text, n) = if f2[i] == '{' {
                ("{"@, 2int)
            } else if f2[i] == '}' {
                ("}"@, 2int)
            } else {
                (seq![f2[i]], 1int)
            };
            if i + n <= f2.len() {
                let piece = PieceView::Text(text);
                lemma_printf_shifts(h, f1, f2, i + n, a1, a2, k);
                lemma_printf_behind(h, none.push(piece), f, j + n, a, m);
                lemma_printf_behind(h, none.push(piece), f2, i + n, a2, k);
            }
        }
    }
}

proof fn lemma_printf_splits(
    h: HeapView,
    f1: Seq<char>,
    f2: Seq<char>,
    i: int,
    a1: Seq<ValueView>,
    a2: Seq<ValueView>,
    k: int,
)
    requires
        0 <= i <= f1.len(),
        0 <= k <= a1.len(),
        printf_pieces(h, Seq::empty(), f1, i, a1, k) is Ok,
    ensures
        printf_pieces(h, Seq::empty(), f1 + f2, i, a1 + a2, k) == behind(
            printf_pieces(h, Seq::empty(), f1, i, a1, k)->Ok_0,
            formatted(h, f2, a2),
        ),
    decreases f1.len() - i,
{
    let none = Seq::<PieceView>::empty();
    let f = f1 + f2;
    let a = a1 + a2;
    if i == f1.len() {
        lemma_printf_shifts(h, f1, f2, 0, a1, a2, 0);
        if let Ok(rest) = formatted(h, f2, a2) {
            assert(none + rest =~= rest);
        }
    } else {
        assert(f[i] == f1[i]);
        if i + 1 < f1.len() {
            assert(f[i + 1] == f1[i + 1]);
        }
        if f1[i] == '{' && i + 1 < f1.len() && f1[i + 1] == '}' {
            assert(a[k] == a1[k]);
            let pieces = value_pieces(h, a1[k], h.len())->Ok_0;
            lemma_printf_behind(h, none + pieces, f1, i + 2, a1, k + 1);
            lemma_printf_splits(h, f1, f2, i + 2, a1, a2, k + 1);
            lemma_printf_behind(h, none + pieces, f, i + 2, a, k + 1);
            let p = printf_pieces(h, none, f1, i + 2, a1, k + 1)->Ok_0;
            if let Ok(rest) = formatted(h, f2, a2) {
                assert((none + pieces) + (p + rest) =~= ((none + pieces) + p) + rest);
            }
        } else {
            let (text, n) = if f1[i] == '{' {
                ("{"@, 2int)
            } else if f1[i] == '}' {
                ("}"@, 2int)
            } else {
                (seq![f1[i]], 1int)
            };
            let piece = PieceView::Text(text);
            lemma_printf_behind(h, none.push(piece), f1, i + n, a1, k);
            lemma_printf_splits(h, f1, f2, i + n, a1, a2, k);
            lemma_printf_behind(h, none.push(piece), f, i + n, a, k);
            let p = printf_pieces(h, none, f1, i + n, a1, k)->Ok_0;
            if let Ok(rest) = formatted(h, f2, a2) {
                assert(none.push(piece) + (p + rest) =~= (none.push(piece) + p) + rest);
            }
        }
    }
}

/// A format behind another one takes the arguments that the other has left, and
/// what it writes stands behind.
pub proof fn formats_are_written_in_order(
    h: HeapView,
    first: Seq<char>,
    second: Seq<char>,
    args: Seq<ValueView>,
    more: Seq<ValueView>,
)
    requires
        formatted(h, first, args) is Ok,
    ensures
        formatted(h, first + second, args + more) == behind(
            formatted(h, first, args)->Ok_0,
            formatted(h, second, more),
        ),
{
    lemma_printf_splits(h, first, second, 0, args, more, 0);
}

/// The parts that formats are made of: a place is written as `print` writes its
/// argument, a doubled brace is one, a single brace is none, and any other
/// character stands for itself. Nothing may be left over on either side.
pub proof fn formats_are_made_of_places_and_characters(h: HeapView, v: ValueView, c: char)
    ensures
        formatted(h, seq!['{', '}'], seq![v]) == value_pieces(h, v, h.len()),
        formatted(h, seq!['{', '{'], Seq::empty()) == Ok::<Seq<PieceView>, ErrorView>(
            seq![PieceView::Text(seq!['{'])],
        ),
        formatted(h, seq!['}', '}'], Seq::empty()) == Ok::<Seq<PieceView>, ErrorView>(
            seq![PieceView::Text(seq!['}'])],
        ),
        c != '{' && c != '}' ==> formatted(h, seq![c], Seq::empty()) == Ok::<
            Seq<PieceView>,
            ErrorView,
        >(seq![PieceView::Text(seq![c])]),
        formatted(h, Seq::empty(), Seq::empty()) == Ok::<Seq<PieceView>, ErrorView>(Seq::empty()),
        c == '{' || c == '}' ==> formatted(h, seq![c], Seq::empty()) is Err,
        formatted(h, seq!['{', '}'], Seq::empty()) is Err,
        formatted(h, Seq::empty(), seq![v]) is Err,
{
    reveal_with_fuel(printf_pieces, 3);
    reveal_strlit("{");
    reveal_strlit("}");
    let none = Seq::<PieceView>::empty();
    assert("{"@ =~= seq!['{']);
    assert("}"@ =~= seq!['}']);
    if let Ok(pieces) = value_pieces(h, v, h.len()) {
        assert(none + pieces =~= pieces);
    }
    assert(none.push(PieceView::Text(seq![c])) =~= seq![PieceView::Text(seq![c])]);
    assert(none.push(PieceView::Text("{"@)) =~= seq![PieceView::Text(seq!['{'])]);
    assert(none.push(PieceView::Text("}"@)) =~= seq![PieceView::Text(seq!['}'])]);
}

/// Where the piece of an item stands among those of a vector.
pub open spec fn place_of(k: int) -> int {
    2 * k + 1
}

proof fn lemma_cells(
    acc: Seq<PieceView>,
    bytes: Seq<u8>,
    element: TypeView,
    i: int,
    n: int,
)
    requires
        0 <= i <= n,
        acc.len() == (if i == 0 {
            1
        } else {
            2 * i
        }),
    ensures
        cells(acc, bytes, element, i, n) matches Ok(pieces) ==> {
            &&& pieces.len() == (if n == 0 {
                1
            } else {
                2 * n
            })
            &&& acc.is_prefix_of(pieces)
            &&& forall|k: int|
                #![trigger place_of(k)]
                i <= k < n ==> decoded(bytes, k as usize, element) is Ok && pieces[place_of(k)]
                    == value_piece(decoded(bytes, k as usize, element)->Ok_0)
            &&& forall|k: int|
                #![trigger place_of(k)]
                i <= k < n && k > 0 ==> pieces[place_of(k) - 1] == PieceView::Text(", "@)
        },
        cells(acc, bytes, element, i, n) is Err ==> exists|k: int|
            i <= k < n && (#[trigger] decoded(bytes, k as usize, element)) is Err,
    decreases n - i,
{
    if i < n {
        if let Ok(v) = decoded(bytes, i as usize, element) {
            let longer = separated(acc, i).push(value_piece(v));
            lemma_cells(longer, bytes, element, i + 1, n);
            if let Ok(pieces) = cells(longer, bytes, element, i + 1, n) {
                assert(longer[place_of(i)] == value_piece(v));
                assert(pieces[place_of(i)] == longer[place_of(i)]);
                if i > 0 {
                    assert(longer[place_of(i) - 1] == PieceView::Text(", "@));
                    assert(pieces[place_of(i) - 1] == longer[place_of(i) - 1]);
                }
                assert(acc =~= pieces.take(acc.len() as int));
            }
        } else {
            assert(decoded(bytes, i as usize, element) is Err);
        }
    }
}

/// That an item is written in its place as it is written by itself, with a comma
/// before it unless it is the first.
pub open spec fn item_written(
    h: HeapView,
    item: Result<ValueView, ErrorView>,
    depth: nat,
    pieces: Seq<PieceView>,
    k: int,
) -> bool {
    &&& item is Ok
    &&& value_pieces(h, item->Ok_0, depth) == Ok::<Seq<PieceView>, ErrorView>(
        seq![pieces[place_of(k)]],
    )
    &&& k > 0 ==> pieces[place_of(k) - 1] == PieceView::Text(", "@)
}

/// A vector is written with all its items, each in its place as it is written by
/// itself, commas between them and brackets around.
pub proof fn vectors_are_written_item_by_item(
    h: HeapView,
    r: HeapRef,
    element: TypeView,
    bytes: Seq<u8>,
    depth: nat,
)
    requires
        object_at(h, r) == Ok::<ObjectView, ErrorView>(ObjectView::Array { bytes, element }),
        value_pieces(h, ValueView::Array(r, element), depth) is Ok,
    ensures
        ({
            let pieces = value_pieces(h, ValueView::Array(r, element), depth)->Ok_0;
            let n = length_of(h, ValueView::Array(r, element))->Ok_0;
            &&& length_of(h, ValueView::Array(r, element)) is Ok
            &&& pieces.len() == (if n == 0 {
                2
            } else {
                2 * n + 1
            })
            &&& pieces.first() == PieceView::Text("["@)
            &&& pieces.last() == PieceView::Text("]"@)
            &&& forall|k: int|
                0 <= k < n ==> #[trigger] item_written(
                    h,
                    cell_in(h, ValueView::Array(r, element), k as usize),
                    depth,
                    pieces,
                    k,
                )
        }),
{
    let size = scalar_size_of(element)->Ok_0;
    let n = bytes.len() as int / size as int;
    let open = seq![PieceView::Text("["@)];
    assert(n >= 0) by (nonlinear_arith)
        requires
            n == bytes.len() as int / size as int,
            size > 0,
    ;
    lemma_cells(open, bytes, element, 0, n);
    let inner = cells(open, bytes, element, 0, n)->Ok_0;
    let pieces = value_pieces(h, ValueView::Array(r, element), depth)->Ok_0;
    assert(pieces == inner.push(PieceView::Text("]"@)));
    assert(open.len() == 1);
    assert(inner.take(1)[0] == open[0]);
    assert(inner[0] == open[0]);
    assert(pieces[0] == inner[0]);
    assert(length_of(h, ValueView::Array(r, element)) == Ok::<int, ErrorView>(n));
    assert(pieces.len() == (if n == 0 {
        2
    } else {
        2 * n + 1
    }));
    assert(pieces.last() == PieceView::Text("]"@));
    assert forall|k: int| 0 <= k < n implies #[trigger] item_written(
        h,
        cell_in(h, ValueView::Array(r, element), k as usize),
        depth,
        pieces,
        k,
    ) by {
        let at = place_of(k);
        assert(pieces[at] == inner[at]);
        assert(k > 0 ==> pieces[at - 1] == inner[at - 1]);
        lemma_scalar_decoded(bytes, k as usize, element);
    }
}

proof fn lemma_scalar_decoded(bytes: Seq<u8>, index: usize, element: TypeView)
    ensures
        decoded(bytes, index, element) matches Ok(v) ==> is_scalar(v),
{
}

proof fn lemma_fields_from(
    h: HeapView,
    acc: Seq<PieceView>,
    values: Seq<ValueView>,
    fields: Seq<FieldView>,
    f: FieldView,
    i: int,
    depth: nat,
)
    requires
        0 <= i <= fields.len(),
        field_pieces(h, acc, values, fields, i, depth) is Ok,
        f.index < values.len(),
        value_pieces(h, values[f.index as int], depth) is Ok,
    ensures
        field_pieces(h, acc, values, fields.push(f), i, depth) == Ok::<Seq<PieceView>, ErrorView>(
            separated(field_pieces(h, acc, values, fields, i, depth)->Ok_0, fields.len() as int).push(
                PieceView::Text(f.name + ": "@),
            ) + value_pieces(h, values[f.index as int], depth)->Ok_0,
        ),
    decreases fields.len() - i,
{
    let more = fields.push(f);
    if i == fields.len() {
        reveal_with_fuel(field_pieces, 2);
        assert(more[i] == f);
    } else {
        assert(more[i] == fields[i]);
        let pieces = value_pieces(h, values[fields[i].index as int], depth)->Ok_0;
        let next = separated(acc, i).push(PieceView::Text(fields[i].name + ": "@)) + pieces;
        lemma_fields_from(h, next, values, fields, f, i + 1, depth);
    }
}

/// A struct with one field more is written with that field behind the others: its
/// name, a colon and its value as it is written by itself.
pub proof fn structs_are_written_field_by_field(
    h: HeapView,
    r: HeapRef,
    more: HeapRef,
    name: Seq<char>,
    fields: Seq<FieldView>,
    f: FieldView,
    values: Seq<ValueView>,
    depth: nat,
)
    requires
        object_at(h, r) == Ok::<ObjectView, ErrorView>(
            ObjectView::Struct { values, layout: LayoutView { name, fields } },
        ),
        object_at(h, more) == Ok::<ObjectView, ErrorView>(
            ObjectView::Struct { values, layout: LayoutView { name, fields: fields.push(f) } },
        ),
        depth > 0,
        f.index < values.len(),
        value_pieces(h, ValueView::Struct(r, LayoutView { name, fields }), depth) is Ok,
        value_pieces(h, values[f.index as int], (depth - 1) as nat) is Ok,
    ensures
        value_pieces(
            h,
            ValueView::Struct(more, LayoutView { name, fields: fields.push(f) }),
            depth,
        ) == Ok::<Seq<PieceView>, ErrorView>(
            (value_pieces(h, ValueView::Struct(r, LayoutView { name, fields }), depth)->Ok_0.drop_last()
                + (if fields.len() > 0 {
                seq![PieceView::Text(", "@)]
            } else {
                Seq::empty()
            }) + seq![PieceView::Text(f.name + ": "@)] + value_pieces(
                h,
                values[f.index as int],
                (depth - 1) as nat,
            )->Ok_0).push(PieceView::Text("}"@)),
        ),
        value_pieces(
            h,
            ValueView::Struct(r, LayoutView { name, fields }),
            depth,
        )->Ok_0.first() == PieceView::Text(name + "{"@),
{
    let open = seq![PieceView::Text(name + "{"@)];
    let below = (depth - 1) as nat;
    lemma_fields_from(h, open, values, fields, f, 0, below);
    lemma_fields_keep(h, open, values, fields, 0, below);
    let inner = field_pieces(h, open, values, fields, 0, below)->Ok_0;
    let own = value_pieces(h, values[f.index as int], below)->Ok_0;
    assert(inner.push(PieceView::Text("}"@)).drop_last() =~= inner);
    let separator = if fields.len() > 0 {
        seq![PieceView::Text(", "@)]
    } else {
        Seq::empty()
    };
    assert(separated(inner, fields.len() as int).push(PieceView::Text(f.name + ": "@)) + own
        =~= inner + separator + seq![PieceView::Text(f.name + ": "@)] + own);
    assert(inner[0] == open[0]);
}

proof fn lemma_fields_keep(
    h: HeapView,
    acc: Seq<PieceView>,
    values: Seq<ValueView>,
    fields: Seq<FieldView>,
    i: int,
    depth: nat,
)
    requires
        0 <= i <= fields.len(),
        acc.len() > 0,
    ensures
        field_pieces(h, acc, values, fields, i, depth) matches Ok(pieces) ==> pieces.len() > 0
            && pieces[0] == acc[0],
    decreases fields.len() - i,
{
    if i < fields.len() && fields[i].index < values.len() {
        if let Ok(pieces) = value_pieces(h, values[fields[i].index as int], depth) {
            lemma_fields_keep(
                h,
                separated(acc, i).push(PieceView::Text(fields[i].name + ": "@)) + pieces,
                values,
                fields,
                i + 1,
                depth,
            );
        }
    }
}

proof fn lemma_keys_from(acc: Seq<char>, keys: Seq<TableKeyView>, k: TableKeyView, i: int)
    requires
        0 <= i <= keys.len(),
    ensures
        keys_text(acc, keys.push(k), i) == keys_text(acc, keys, i) + (if keys.len() > 0 {
            ", "@
        } else {
            ""@
        }) + key_text(k),
    decreases keys.len() - i,
{
    if i == keys.len() {
        reveal_with_fuel(keys_text, 2);
        assert(keys.push(k)[i] == k);
    } else {
        assert(keys.push(k)[i] == keys[i]);
        let comma = if i > 0 {
            ", "@
        } else {
            ""@
        };
        lemma_keys_from(acc + comma + key_text(keys[i]), keys, k, i + 1);
    }
}

proof fn lemma_dimensions_from(acc: Seq<char>, shape: Seq<usize>, n: usize, i: int)
    requires
        0 <= i <= shape.len(),
    ensures
        dimensions_text(acc, shape.push(n), i) == dimensions_text(acc, shape, i) + (if shape.len()
            > 0 {
            ", "@
        } else {
            ""@
        }) + decimal(n as int),
    decreases shape.len() - i,
{
    if i == shape.len() {
        reveal_with_fuel(dimensions_text, 2);
        assert(shape.push(n)[i] == n);
    } else {
        assert(shape.push(n)[i] == shape[i]);
        let comma = if i > 0 {
            ", "@
        } else {
            ""@
        };
        lemma_dimensions_from(acc + comma + decimal(shape[i] as int), shape, n, i + 1);
    }
}

/// Keys and extents are written one behind the other, with commas between them.
pub proof fn keys_and_extents_are_listed(
    keys: Seq<TableKeyView>,
    k: TableKeyView,
    shape: Seq<usize>,
    n: usize,
)
    ensures
        keys_text(""@, Seq::empty(), 0) == ""@,
        keys_text(""@, keys.push(k), 0) == keys_text(""@, keys, 0) + (if keys.len() > 0 {
            ", "@
        } else {
            ""@
        }) + key_text(k),
        dimensions_text(""@, Seq::empty(), 0) == ""@,
        dimensions_text(""@, shape.push(n), 0) == dimensions_text(""@, shape, 0) + (if shape.len()
            > 0 {
            ", "@
        } else {
            ""@
        }) + decimal(n as int),
{
    lemma_keys_from(""@, keys, k, 0);
    lemma_dimensions_from(""@, shape, n, 0);
}

/// An integer is written so that it reads back as its number, a string as its
/// text, and the two truth values differently.
pub proof fn plain_values_are_written(h: HeapView, v: ValueView, depth: nat)
    ensures
        int_of(v) is Some ==> exists|text: Seq<char>| #[trigger]
            parsed_integer(text) == int_of(v) && value_pieces(h, v, depth) == Ok::<
                Seq<PieceView>,
                ErrorView,
            >(seq![PieceView::Text(text)]),
        v matches ValueView::String(r) ==> (string_in(h, r) matches Ok(text) ==> value_pieces(
            h,
            v,
            depth,
        ) == Ok::<Seq<PieceView>, ErrorView>(seq![PieceView::Text(text)])),
        v matches ValueView::Bool(b) ==> value_pieces(h, v, depth) == Ok::<
            Seq<PieceView>,
            ErrorView,
        >(
            seq![
                PieceView::Text(
                    if b {
                        "true"@
                    } else {
                        "false"@
                    },
                ),
            ],
        ),
        v is F16 || v is BF16 || v is F32 || v is F64 ==> value_pieces(h, v, depth) == Ok::<
            Seq<PieceView>,
            ErrorView,
        >(seq![PieceView::Float(v)]),
{
    if let Some(n) = int_of(v) {
        written_numbers_read_back(n);
        assert(parsed_integer(decimal(n)) == int_of(v));
    }
}

/// What is printed is put out as a text of its own, in order; a line ends with a
/// line break where it is shown as it comes.
pub proof fn texts_are_put_out_behind_each_other(i: InstanceView, text: Seq<char>)
    ensures
        shown(i, text, true).output == i.output.push(text),
        shown(i, text, false).output == i.output.push(text),
        i.interactive ==> shown(i, text, true).display == i.display + text + seq!['\n'],
        i.interactive ==> shown(i, text, false).display == i.display + text,
        !i.interactive ==> shown(i, text, true).display == i.display,
        shown(i, text, true).stack == i.stack && shown(i, text, true).locals == i.locals,
        shown(i, text, false).stack == i.stack && shown(i, text, false).locals == i.locals,
{
    reveal_strlit("\n");
    reveal_strlit("");
    assert("\n"@ =~= seq!['\n']);
    assert(i.display + text + ""@ =~= i.display + text);
}

/// A character is shown by its number and nothing else.
pub proof fn characters_are_shown_by_their_number(
    h: HeapView,
    all: Seq<InstanceView>,
    i: InstanceView,
    receiver: Option<usize>,
    c: char,
    v: ValueView,
)
    requires
        int_of(v) == Some(c as int),
        i.interactive,
    ensures
        effect(h, all, pushed(i, v), receiver, OpView::Putc) == (Effect {
            heap: h,
            inst: InstanceView { display: i.display.push(c), ..i },
            flow: FlowView::Next,
        }),
{
    assert(dropped(pushed(i, v)).stack =~= i.stack);
    assert(dropped(pushed(i, v)) == i);
    assert((c as usize) as char == c);
}

} // verus!
