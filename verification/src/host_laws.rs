//! Laws of what host functions do with tensors, texts and scores.
use vstd::prelude::*;
use crate::candle::{merged_dims, repeat_countable, repeated_dims, repeats};
use crate::heap::{ObjectView, allocation_is_fresh, object_at};
use crate::host::int2str_result;
use crate::lexer::{SpannedToken, StringId, Token};
use crate::program::required_from;
use crate::run_laws::offsets_stay_inside;
use crate::sample::{SamplingView, held_back, less};
use crate::semantics::{HeapView, offset_from, offset_of, string_in, volume};
use crate::tensors::{
    Items, cell, float_at, float_size, has_sign, is_number, joins, narrows, reshaped, stretches,
    turned_signs, unsqueezed, unstretched, with_sign,
};
use crate::text::{decimal, parsed_integer};
use crate::text_laws::written_numbers_read_back;
use crate::tokens::cleaned;
use crate::types::ErrorView;
use crate::value::{HeapRef, ValueView};

verus! {

/// The position of an item by its indices, from dimension `k` on, without regard
/// to the size of the machine.
spec fn flat(acc: int, dims: Seq<usize>, index: Seq<usize>, k: int) -> int
    decreases dims.len() - k,
{
    if k < 0 || k >= dims.len() {
        acc
    } else {
        flat(acc * dims[k] + index[k], dims, index, k + 1)
    }
}

/// Every index is smaller than the extent of its dimension.
pub open spec fn fits_in(dims: Seq<usize>, index: Seq<usize>) -> bool {
    dims.len() == index.len() && forall|k: int|
        0 <= k < dims.len() ==> #[trigger] index[k] < dims[k]
}

proof fn lemma_flat_grows(acc: int, dims: Seq<usize>, index: Seq<usize>, k: int)
    requires
        0 <= acc,
        0 <= k <= dims.len(),
        fits_in(dims, index),
    ensures
        acc <= flat(acc, dims, index, k),
    decreases dims.len() - k,
{
    if k < dims.len() {
        let d = dims[k] as int;
        let x = index[k] as int;
        assert(x < d);
        assert(acc <= acc * d + x) by (nonlinear_arith)
            requires
                acc >= 0,
                d >= 1,
                x >= 0,
        ;
        lemma_flat_grows(acc * d + x, dims, index, k + 1);
    }
}

proof fn lemma_flat_offset(acc: int, dims: Seq<usize>, index: Seq<usize>, k: int)
    requires
        0 <= acc,
        0 <= k <= dims.len(),
        fits_in(dims, index),
    ensures
        flat(acc, dims, index, k) <= usize::MAX ==> offset_from(acc, dims, index, k) == Ok::<
            usize,
            ErrorView,
        >(flat(acc, dims, index, k) as usize),
        acc <= usize::MAX && offset_from(acc, dims, index, k) is Ok ==> offset_from(
            acc,
            dims,
            index,
            k,
        )->Ok_0 == flat(acc, dims, index, k),
    decreases dims.len() - k,
{
    if k < dims.len() {
        let d = dims[k] as int;
        let x = index[k] as int;
        assert(x < d);
        assert(0 <= acc * d) by (nonlinear_arith)
            requires
                acc >= 0,
                d >= 1,
        ;
        lemma_flat_grows(acc * d + x, dims, index, k + 1);
        lemma_flat_offset(acc * d + x, dims, index, k + 1);
    }
}

proof fn lemma_flat_same(
    acc: int,
    a: Seq<usize>,
    i: Seq<usize>,
    j: int,
    b: Seq<usize>,
    n: Seq<usize>,
    k: int,
)
    requires
        0 <= j <= a.len(),
        0 <= k <= b.len(),
        a.len() - j == b.len() - k,
        a.len() == i.len(),
        b.len() == n.len(),
        forall|m: int|
            0 <= m < a.len() - j ==> #[trigger] a[m + j] == b[m + k] && i[m + j] == n[m + k],
    ensures
        flat(acc, a, i, j) == flat(acc, b, n, k),
    decreases a.len() - j,
{
    if j < a.len() {
        assert(a[0 + j] == b[0 + k] && i[0 + j] == n[0 + k]);
        assert forall|m: int| 0 <= m < a.len() - (j + 1) implies #[trigger] a[m + (j + 1)] == b[m
            + (k + 1)] && i[m + (j + 1)] == n[m + (k + 1)] by {
            assert(a[(m + 1) + j] == b[(m + 1) + k] && i[(m + 1) + j] == n[(m + 1) + k]);
        }
        lemma_flat_same(acc * a[j] + i[j], a, i, j + 1, b, n, k + 1);
    }
}

proof fn lemma_fits(dims: Seq<usize>, index: Seq<usize>, offset: int, k: int)
    requires
        dims.len() == index.len(),
        0 <= k <= dims.len(),
        offset_from(offset, dims, index, k) is Ok,
    ensures
        forall|j: int| k <= j < dims.len() ==> #[trigger] index[j] < dims[j],
    decreases dims.len() - k,
{
    if k < dims.len() {
        lemma_fits(dims, index, offset * dims[k] + index[k], k + 1);
    }
}

proof fn lemma_flat_last(acc: int, dims: Seq<usize>, index: Seq<usize>, k: int)
    requires
        0 <= k < dims.len(),
        dims.len() == index.len(),
        index.last() < usize::MAX,
    ensures
        flat(acc, dims, index.update(dims.len() - 1, (index.last() + 1) as usize), k) == flat(
            acc,
            dims,
            index,
            k,
        ) + 1,
    decreases dims.len() - k,
{
    let next = index.update(dims.len() - 1, (index.last() + 1) as usize);
    if k < dims.len() - 1 {
        lemma_flat_last(acc * dims[k] + index[k], dims, index, k + 1);
    } else {
        assert(flat(acc * dims[k] + index[k], dims, index, k + 1) == acc * dims[k] + index[k]);
        assert(flat(acc * dims[k] + next[k], dims, next, k + 1) == acc * dims[k] + next[k]);
    }
}

/// The items of a tensor lie row by row: the first is at position 0, and the next
/// in the last dimension is at the next position.
pub proof fn last_indices_vary_fastest(dims: Seq<usize>, index: Seq<usize>)
    requires
        dims.len() > 0,
        offset_of(dims, index) is Ok,
        index.last() + 1 < dims.last(),
        offset_of(dims, index)->Ok_0 < usize::MAX,
    ensures
        offset_of(dims, index.update(dims.len() - 1, (index.last() + 1) as usize)) == Ok::<
            usize,
            ErrorView,
        >((offset_of(dims, index)->Ok_0 + 1) as usize),
{
    let next = index.update(dims.len() - 1, (index.last() + 1) as usize);
    lemma_fits(dims, index, 0, 0);
    assert forall|k: int| 0 <= k < dims.len() implies #[trigger] next[k] < dims[k] by {
        assert(index[k] < dims[k]);
    }
    lemma_flat_offset(0, dims, index, 0);
    lemma_flat_offset(0, dims, next, 0);
    lemma_flat_last(0, dims, index, 0);
}

proof fn lemma_volume_same(a: Seq<usize>, j: int, b: Seq<usize>, k: int)
    requires
        0 <= j <= a.len(),
        0 <= k <= b.len(),
        a.len() - j == b.len() - k,
        forall|m: int| 0 <= m < a.len() - j ==> #[trigger] a[m + j] == b[m + k],
    ensures
        volume(a, j) == volume(b, k),
    decreases a.len() - j,
{
    if j < a.len() {
        assert(a[0 + j] == b[0 + k]);
        assert forall|m: int| 0 <= m < a.len() - (j + 1) implies #[trigger] a[m + (j + 1)] == b[m
            + (k + 1)] by {
            assert(a[(m + 1) + j] == b[(m + 1) + k]);
        }
        lemma_volume_same(a, j + 1, b, k + 1);
    }
}

/// A tensor whose second dimension is repeated `n` times holds each part `n` times
/// in a row: at place `h` of that dimension stands what stood at place `h / n`.
#[verifier::spinoff_prover]
#[verifier::rlimit(40)]
pub proof fn repeated_parts_follow_each_other(
    i: Items,
    n: usize,
    x: Items,
    index: Seq<usize>,
)
    requires
        repeats(i, n, x),
        repeat_countable(i.dims, n),
        offset_of(x.dims, index) is Ok,
    ensures
        n > 0,
        cell(x, index) == cell(i, index.update(1, index[1] / n)),
{
    let dims = i.dims;
    let wide = choose|wide: Items| #[trigger]
        stretches(unsqueezed(i, 2), repeated_dims(dims, n), wide) && x == reshaped(
            wide,
            merged_dims(dims, n),
        );
    let all = merged_dims(dims, n);
    let deep = repeated_dims(dims, n);
    let single = dims.insert(2, 1);
    lemma_fits(all, index, 0, 0);
    assert(fits_in(all, index));
    let b = index[0] as int;
    let h = index[1] as int;
    let w = n as int;
    let y = dims[1] as int;
    assert(index[0] < all[0] && index[1] < all[1]);
    assert(all[1] == y * w);
    assert(y > 0 && w > 0) by (nonlinear_arith)
        requires
            y >= 0,
            w >= 0,
            y * w > 0,
    ;
    let q = h / w;
    let r = h % w;
    assert(h == q * w + r && 0 <= r < w && 0 <= q) by (nonlinear_arith)
        requires
            q == h / w,
            r == h % w,
            w > 0,
            h >= 0,
    ;
    assert(q < y) by (nonlinear_arith)
        requires
            h == q * w + r,
            r >= 0,
            h < y * w,
            w > 0,
    ;
    let part = index.update(1, q as usize);
    let deep_index = part.insert(2, r as usize);
    let flat_index = part.insert(2, 0);
    // The place in the repeated tensor.
    assert(fits_in(deep, deep_index)) by {
        assert forall|k: int| 0 <= k < deep.len() implies #[trigger] deep_index[k] < deep[k] by {
            if k > 2 {
                assert(deep_index[k] == index[k - 1] && deep[k] == all[k - 1]);
                assert(index[k - 1] < all[k - 1]);
            }
        }
    }
    let top = b * all[1] + h;
    assert(0 * all[0] + b == b) by (nonlinear_arith);
    assert((b * y + q) * w + r == top) by (nonlinear_arith)
        requires
            top == b * (y * w) + h,
            h == q * w + r,
    ;
    lemma_three(deep, deep_index);
    lemma_two(all, index);
    assert forall|m: int| 0 <= m < all.len() - 2 implies #[trigger] all[m + 2] == deep[m + 3]
        && index[m + 2] == deep_index[m + 3] by {}
    lemma_flat_same(top, all, index, 2, deep, deep_index, 3);
    lemma_flat_offset(0, all, index, 0);
    lemma_flat_offset(0, deep, deep_index, 0);
    assert(offset_of(deep, deep_index) == offset_of(all, index));
    // As many items.
    lemma_volumes(dims, n);
    assert(cell(x, index) == cell(wide, deep_index));
    // The place that it was stretched from.
    assert(unstretched(single, deep_index) =~= flat_index) by {
        assert forall|k: int| 0 <= k < single.len() implies #[trigger] unstretched(
            single,
            deep_index,
        )[k] == flat_index[k] by {
            if k == 2 {
            } else if single[k] == 1 {
                if k < 2 {
                    assert(deep_index[k] < deep[k] && deep[k] == single[k]);
                } else {
                    assert(deep_index[k] < deep[k] && deep[k] == single[k]);
                }
            }
        }
    }
    assert(cell(wide, deep_index) == cell(unsqueezed(i, 2), flat_index));
    // The same place before.
    assert(fits_in(single, flat_index)) by {
        assert forall|k: int| 0 <= k < single.len() implies #[trigger] flat_index[k] < single[k] by {
            if k != 2 {
                assert(deep_index[k] < deep[k]);
            }
        }
    }
    assert(fits_in(dims, part)) by {
        assert forall|k: int| 0 <= k < dims.len() implies #[trigger] part[k] < dims[k] by {
            if k > 1 {
                assert(index[k] < all[k]);
            }
        }
    }
    lemma_three(single, flat_index);
    lemma_two(dims, part);
    assert((b * y + q) * 1 + 0 == b * y + q) by (nonlinear_arith);
    assert forall|m: int| 0 <= m < dims.len() - 2 implies #[trigger] dims[m + 2] == single[m + 3]
        && part[m + 2] == flat_index[m + 3] by {}
    lemma_flat_same(b * y + q, dims, part, 2, single, flat_index, 3);
    assert(b * y >= 0) by (nonlinear_arith)
        requires
            b >= 0,
            y >= 0,
    ;
    assert(b * y + q <= top) by (nonlinear_arith)
        requires
            (b * y + q) * w + r == top,
            b * y + q >= 0,
            w >= 1,
            r >= 0,
    ;
    assert forall|m: int| 0 <= m < dims.len() - 2 implies #[trigger] dims[m + 2] == all[m + 2]
        && part[m + 2] == index[m + 2] by {}
    lemma_flat_same(b * y + q, dims, part, 2, all, index, 2);
    lemma_flat_more(b * y + q, top, all, index, 2);
    lemma_flat_offset(0, dims, part, 0);
    lemma_flat_offset(0, single, flat_index, 0);
    assert(offset_of(dims, part) == offset_of(single, flat_index));
    assert(cell(unsqueezed(i, 2), flat_index) == cell(i, part));
    assert(part == index.update(1, index[1] / n));
}

proof fn lemma_flat_more(a: int, b: int, dims: Seq<usize>, index: Seq<usize>, k: int)
    requires
        a <= b,
        0 <= k,
    ensures
        flat(a, dims, index, k) <= flat(b, dims, index, k),
    decreases dims.len() - k,
{
    if k < dims.len() {
        let d = dims[k] as int;
        assert(a * d <= b * d) by (nonlinear_arith)
            requires
                a <= b,
                d >= 0,
        ;
        lemma_flat_more(a * d + index[k], b * d + index[k], dims, index, k + 1);
    }
}

proof fn lemma_two(dims: Seq<usize>, index: Seq<usize>)
    requires
        dims.len() >= 2,
        dims.len() == index.len(),
    ensures
        flat(0, dims, index, 0) == flat(index[0] * dims[1] + index[1], dims, index, 2),
{
    assert(0 * dims[0] + index[0] == index[0]) by (nonlinear_arith);
    assert(flat(0, dims, index, 0) == flat(index[0] as int, dims, index, 1));
}

proof fn lemma_three(dims: Seq<usize>, index: Seq<usize>)
    requires
        dims.len() >= 3,
        dims.len() == index.len(),
    ensures
        flat(0, dims, index, 0) == flat(
            (index[0] * dims[1] + index[1]) * dims[2] + index[2],
            dims,
            index,
            3,
        ),
{
    lemma_two(dims, index);
}

#[verifier::spinoff_prover]
#[verifier::rlimit(40)]
proof fn lemma_volumes(dims: Seq<usize>, n: usize)
    requires
        dims.len() == 3 || dims.len() == 4,
        dims[1] * n <= usize::MAX,
    ensures
        volume(merged_dims(dims, n), 0) == volume(repeated_dims(dims, n), 0),
        volume(dims.insert(2, 1), 0) == volume(dims, 0),
{
    let all = merged_dims(dims, n);
    let deep = repeated_dims(dims, n);
    let single = dims.insert(2, 1);
    assert forall|m: int| 0 <= m < all.len() - 2 implies #[trigger] all[m + 2] == deep[m + 3] by {}
    lemma_volume_same(all, 2, deep, 3);
    assert forall|m: int| 0 <= m < dims.len() - 2 implies #[trigger] dims[m + 2] == single[m
        + 3] by {}
    lemma_volume_same(dims, 2, single, 3);
    let rest = volume(all, 2);
    let rest1 = volume(dims, 2);
    let (a, b, w) = (dims[0] as int, dims[1] as int, n as int);
    assert(volume(all, 1) == (b * w) * rest);
    assert(volume(all, 0) == a * ((b * w) * rest));
    assert(volume(deep, 2) == w * rest);
    assert(volume(deep, 1) == b * (w * rest));
    assert(volume(deep, 0) == a * (b * (w * rest)));
    assert((b * w) * rest == b * (w * rest)) by (nonlinear_arith);
    assert(volume(single, 2) == 1 * rest1);
    assert(volume(single, 1) == b * rest1);
    assert(volume(single, 0) == a * (b * rest1));
    assert(volume(dims, 1) == b * rest1);
}

/// Floats are ordered as numbers: of two that are not negative the one with the
/// greater pattern is greater, of two negative ones it is the other way round, a
/// negative number is less than any other but for the two zeros, and what is no
/// number is never less or greater.
pub proof fn floats_are_ordered_as_numbers(a: u32, b: u32, nan: u32)
    requires
        a <= 0x7f80_0000,
        b <= 0x7f80_0000,
        0x7f80_0000 < nan <= 0x7fff_ffff || 0xff80_0000 < nan,
    ensures
        less(a, b) <==> a < b,
        less((0x8000_0000 + a) as u32, (0x8000_0000 + b) as u32) <==> b < a,
        less((0x8000_0000 + a) as u32, b) <==> a != 0 || b != 0,
        !less(b, (0x8000_0000 + a) as u32),
        !less(nan, a) && !less(a, nan) && !less(nan, (0x8000_0000 + a) as u32),
{
}

/// The tokens that are held back are those at the front of the context that the
/// scores have a place for, in order.
pub proof fn tokens_of_the_context_are_held_back(
    context: Seq<i32>,
    tokens: usize,
    n: int,
    token: usize,
)
    requires
        0 <= n <= context.len(),
    ensures
        held_back(context, tokens, n).contains(token) <==> token < tokens && exists|k: int|
            0 <= k < n && #[trigger] context[k] == token,
        n < context.len() && 0 <= context[n] < tokens ==> held_back(context, tokens, n + 1)
            == held_back(context, tokens, n).push(context[n] as usize),
        n < context.len() && !(0 <= context[n] < tokens) ==> held_back(context, tokens, n + 1)
            == held_back(context, tokens, n),
    decreases n,
{
    if n > 0 {
        tokens_of_the_context_are_held_back(context, tokens, n - 1, token);
        let before = held_back(context, tokens, n - 1);
        let all = held_back(context, tokens, n);
        if 0 <= context[n - 1] < tokens {
            assert(all == before.push(context[n - 1] as usize));
            if all.contains(token) {
                let k = choose|k: int| 0 <= k < all.len() && all[k] == token;
                if k < before.len() {
                    assert(before[k] == token);
                    assert(before.contains(token));
                } else {
                    assert(context[n - 1] == token);
                }
            }
            if before.contains(token) {
                let k = choose|k: int| 0 <= k < before.len() && before[k] == token;
                assert(all[k] == token);
            }
            if context[n - 1] == token {
                assert(all[all.len() - 1] == token);
            }
        }
        if exists|k: int| 0 <= k < n && #[trigger] context[k] == token {
            let k = choose|k: int| 0 <= k < n && #[trigger] context[k] == token;
            if k < n - 1 {
                assert(0 <= k < n - 1 && context[k] == token);
            }
        }
    }
}

/// Of a context longer than what is asked for only the front counts, and nothing
/// is held back by a penalty of at most 1.
pub proof fn penalties_count_the_front(s: SamplingView, tokens: usize)
    ensures
        s.counted() <= s.length && s.counted() <= s.context.len(),
        s.counted() == s.length || s.counted() == s.context.len(),
        s.penalty <= 0x3f80_0000 ==> s.penalties(tokens).len() == 0,
        0x3f80_0000 < s.penalty <= 0x7f80_0000 ==> s.penalties(tokens) == held_back(
            s.context,
            tokens,
            s.counted(),
        ),
        s.temperature == 0 || s.temperature == 0x8000_0000 ==> s.greedy(),
        0 < s.temperature <= 0x7f80_0000 ==> !s.greedy(),
        0x8000_0000 < s.temperature <= 0xff80_0000 ==> s.greedy(),
{
}

/// The pieces of words that a tokenizer holds become text: a spelled line break
/// becomes one, the two marks for a blank become blanks, and all else stays.
#[verifier::spinoff_prover]
#[verifier::rlimit(40)]
pub proof fn pieces_become_text(text: Seq<char>, k: int)
    requires
        0 <= k < text.len(),
    ensures
        ({
            let c = text[k];
            let spelled = k + 6 <= text.len() && text.subrange(k, k + 6) == seq![
                '<',
                '0',
                'x',
                '0',
                'A',
                '>',
            ];
            &&& spelled ==> cleaned(text, k) == seq!['\n'] + cleaned(text, k + 6)
            &&& !spelled && (c == '\u{2581}' || c == '\u{120}') ==> cleaned(text, k) == seq![' ']
                + cleaned(text, k + 1)
            &&& !spelled && c != '\u{2581}' && c != '\u{120}' ==> cleaned(text, k) == seq![c]
                + cleaned(text, k + 1)
        }),
{
    reveal_strlit("<0x0A>");
    assert("<0x0A>"@ =~= seq!['<', '0', 'x', '0', 'A', '>']);
}

/// `int2str` gives the text that reads as the number.
pub proof fn numbers_become_their_text(h: HeapView, n: i64)
    requires
        h.len() < usize::MAX,
    ensures
        ({
            let (after, r) = int2str_result(h, seq![ValueView::I64(n)]);
            &&& r is Ok && r->Ok_0 is String
            &&& string_in(after, r->Ok_0->String_0) matches Ok(text) && parsed_integer(text) == Some(
                n as int,
            )
            &&& forall|x: HeapRef| #[trigger]
                object_at(h, x) is Ok ==> object_at(after, x) == object_at(h, x)
        }),
{
    allocation_is_fresh(h, ObjectView::String(decimal(n as int)));
    written_numbers_read_back(n as int);
}

/// Every item of a tensor of floats has its bytes.
pub open spec fn full(i: Items) -> bool {
    float_size(i.kind) > 0 && volume(i.dims, 0) > 0 && i.bytes.len() == volume(i.dims, 0)
        * float_size(i.kind)
}

proof fn lemma_cell(i: Items, index: Seq<usize>)
    requires
        full(i),
        offset_of(i.dims, index) is Ok,
    ensures
        cell(i, index) == float_at(i, offset_of(i.dims, index)->Ok_0 as int),
        offset_of(i.dims, index)->Ok_0 < i.bytes.len() as int / float_size(i.kind),
{
    let v = volume(i.dims, 0);
    let f = float_size(i.kind);
    assert(v * f / v == f && v * f / f == v) by (nonlinear_arith)
        requires
            v > 0,
            f > 0,
    ;
    offsets_stay_inside(i.dims, index);
}

/// Turning a tensor swaps the halves of its last dimension: the second half comes
/// first, with the other sign, and the first half behind it as it was.
#[verifier::spinoff_prover]
#[verifier::rlimit(40)]
pub proof fn halves_change_places(
    i: Items,
    half: usize,
    first: Items,
    second: Items,
    negated: Items,
    r: Items,
    index: Seq<usize>,
)
    requires
        i.dims.len() > 0,
        half > 0,
        i.dims.last() == 2 * half,
        narrows(i, 0, half as int, first),
        narrows(i, half as int, half as int, second),
        full(second),
        turned_signs(second, negated),
        negated.dims == second.dims,
        negated.kind == second.kind,
        joins(negated, first, i.dims.len() - 1, r),
        offset_of(i.dims, index) is Ok,
    ensures
        r.dims == i.dims,
        index.last() >= half ==> cell(r, index) == cell(
            i,
            index.update(i.dims.len() - 1, (index.last() - half) as usize),
        ),
        index.last() < half ==> {
            let from = cell(i, index.update(i.dims.len() - 1, (index.last() + half) as usize));
            is_number(i.kind, from) ==> cell(r, index) == with_sign(from, !has_sign(from))
        },
{
    let last = i.dims.len() - 1;
    assert(r.dims =~= i.dims);
    lemma_fits(i.dims, index, 0, 0);
    assert(index[last] < i.dims[last]);
    let part = i.dims.update(last, half);
    let at = if index.last() >= half {
        index.update(last, (index.last() - half) as usize)
    } else {
        index
    };
    assert(fits_in(part, at)) by {
        assert forall|k: int| 0 <= k < part.len() implies #[trigger] at[k] < part[k] by {
            assert(index[k] < i.dims[k]);
        }
    }
    lemma_smaller(i.dims, index, part, at);
    if index.last() >= half {
        assert(at.update(last, (at[last] + 0) as usize) =~= at);
        assert(index.update(last, (index[last] - negated.dims[last]) as usize) =~= at);
        assert(cell(first, at) == cell(i, at));
    } else {
        let from = index.update(last, (index[last] + half) as usize);
        assert(cell(second, index) == cell(i, from));
        lemma_cell(second, index);
        assert(full(negated));
        lemma_cell(negated, index);
        let k = offset_of(part, index)->Ok_0 as int;
        assert(float_at(second, k) == cell(i, from));
    }
}

/// A place with smaller indices in smaller dimensions lies no further behind.
proof fn lemma_smaller(dims: Seq<usize>, index: Seq<usize>, part: Seq<usize>, at: Seq<usize>)
    requires
        offset_of(dims, index) is Ok,
        part.len() == dims.len(),
        fits_in(part, at),
        forall|k: int| 0 <= k < dims.len() ==> #[trigger] part[k] <= dims[k],
        forall|k: int| 0 <= k < dims.len() ==> #[trigger] at[k] <= index[k],
    ensures
        offset_of(part, at) is Ok,
{
    lemma_fits(dims, index, 0, 0);
    lemma_flat_offset(0, dims, index, 0);
    lemma_flat_offset(0, part, at, 0);
    lemma_flat_smaller(0, 0, dims, index, part, at, 0);
}

proof fn lemma_flat_smaller(
    a: int,
    b: int,
    dims: Seq<usize>,
    index: Seq<usize>,
    part: Seq<usize>,
    at: Seq<usize>,
    k: int,
)
    requires
        0 <= a <= b,
        0 <= k,
        part.len() == dims.len(),
        at.len() == dims.len(),
        index.len() == dims.len(),
        forall|k: int| 0 <= k < dims.len() ==> #[trigger] part[k] <= dims[k],
        forall|k: int| 0 <= k < dims.len() ==> #[trigger] at[k] <= index[k],
    ensures
        flat(a, part, at, k) <= flat(b, dims, index, k),
    decreases dims.len() - k,
{
    if k < dims.len() {
        let (p, d) = (part[k] as int, dims[k] as int);
        assert(p <= d);
        assert(at[k] <= index[k]);
        assert(0 <= a * p <= b * d) by (nonlinear_arith)
            requires
                0 <= a <= b,
                0 <= p <= d,
        ;
        lemma_flat_smaller(a * p + at[k], b * d + index[k], dims, index, part, at, k + 1);
    }
}

proof fn lemma_required(
    acc: Seq<Seq<char>>,
    tokens: Seq<SpannedToken>,
    strings: Seq<Seq<char>>,
    k: int,
)
    ensures
        required_from(acc, tokens, strings, k) == acc + required_from(
            Seq::empty(),
            tokens,
            strings,
            k,
        ),
    decreases tokens.len() - k,
{
    assert(acc + Seq::empty() =~= acc);
    if 0 <= k < tokens.len() {
        if tokens[k].kind is Require && k + 2 < tokens.len() && tokens[k + 2].kind is StringLit {
            let x = strings[tokens[k + 2].kind->StringLit_0.0 as int];
            lemma_required(acc.push(x), tokens, strings, k + 1);
            lemma_required(Seq::<Seq<char>>::empty().push(x), tokens, strings, k + 1);
            let rest = required_from(Seq::empty(), tokens, strings, k + 1);
            assert(acc.push(x) + rest =~= acc + (Seq::<Seq<char>>::empty().push(x) + rest));
        } else {
            lemma_required(acc, tokens, strings, k + 1);
        }
    }
}

/// The modules that a program asks for are listed in the order in which it names
/// them.
pub proof fn required_modules_are_listed_in_order(
    tokens: Seq<SpannedToken>,
    strings: Seq<Seq<char>>,
    k: int,
    id: StringId,
)
    requires
        0 <= k < tokens.len(),
    ensures
        k + 2 < tokens.len() && tokens[k].kind == Token::Require && tokens[k + 2].kind
            == Token::StringLit(id) ==> required_from(Seq::empty(), tokens, strings, k) == seq![
            strings[id.0 as int],
        ] + required_from(Seq::empty(), tokens, strings, k + 1),
        tokens[k].kind != Token::Require ==> required_from(Seq::empty(), tokens, strings, k)
            == required_from(Seq::empty(), tokens, strings, k + 1),
{
    if tokens[k].kind == Token::Require && k + 2 < tokens.len() && tokens[k + 2].kind
        == Token::StringLit(id) {
        let x = strings[id.0 as int];
        lemma_required(seq![x], tokens, strings, k + 1);
        assert(Seq::<Seq<char>>::empty().push(x) =~= seq![x]);
    }
}

} // verus!
