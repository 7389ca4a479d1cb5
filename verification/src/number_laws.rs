//! Laws of arithmetic: what the compiled operators leave on the stack.
use vstd::prelude::*;
use vstd::arithmetic::power2::{lemma_pow2_pos, pow2};
use crate::codegen::{empty_state, operator_code};
use crate::instance::{AnswerView, InstanceView, PendingView, RequestView, dropped, pushed};
use crate::ir::OpView;
use crate::numeric::{
    FloatView, bit_width, int_binary, lemma_bitwise_stays, trunc_div, trunc_rem, wrapped,
};
use crate::ops::{BinOp, BuiltinFn, UnOp};
use crate::scalar::modulus;
use crate::semantics::{Effect, FlowView, HeapView, answered, effect};
use crate::types::{TypeView, in_int_bounds, int_bounds, integer_type, signed_type, size_of_type};
use crate::value::{Value, ValueView, int_in, int_of, integer_values_hold_their_number, type_of};

verus! {

/// Where an instruction is carried out.
pub struct Site {
    pub heap: HeapView,
    pub all: Seq<InstanceView>,
    pub inst: InstanceView,
    pub receiver: Option<usize>,
}

/// The value that an instruction leaves in place of two values on the stack, the
/// second on top, where it changes nothing else.
pub open spec fn left_by(s: Site, op: OpView, a: ValueView, b: ValueView) -> Option<ValueView> {
    let e = effect(s.heap, s.all, pushed(pushed(s.inst, a), b), s.receiver, op);
    let v = e.inst.stack.last();
    if e.flow is Next && e.heap == s.heap && e.inst == pushed(s.inst, v) {
        Some(v)
    } else {
        None
    }
}

/// The value that an instruction leaves in place of one value on the stack.
pub open spec fn left_by_one(s: Site, op: OpView, a: ValueView) -> Option<ValueView> {
    let e = effect(s.heap, s.all, pushed(s.inst, a), s.receiver, op);
    let v = e.inst.stack.last();
    if e.flow is Next && e.heap == s.heap && e.inst == pushed(s.inst, v) {
        Some(v)
    } else {
        None
    }
}

/// The instruction that an operator on values of a type is compiled to.
pub open spec fn instruction_for(op: BinOp, t: TypeView) -> OpView {
    operator_code(empty_state(), op, t)->Ok_0.0.code.last()
}

/// The number that the compiled operator leaves for two numbers of an integer
/// type, if it leaves one of the same type.
pub open spec fn number(s: Site, op: BinOp, t: TypeView, l: int, r: int) -> Option<int> {
    match left_by(s, instruction_for(op, t), int_in(t, l), int_in(t, r)) {
        Some(v) => if type_of(v) == t {
            int_of(v)
        } else {
            None
        },
        None => None,
    }
}

/// The truth value that the compiled operator leaves for two numbers of an
/// integer type, if it leaves one.
pub open spec fn truth(s: Site, op: BinOp, t: TypeView, l: int, r: int) -> Option<bool> {
    match left_by(s, instruction_for(op, t), int_in(t, l), int_in(t, r)) {
        Some(ValueView::Bool(b)) => Some(b),
        _ => None,
    }
}

/// Two numbers of an integer type.
pub open spec fn both_in(t: TypeView, l: int, r: int) -> bool {
    integer_type(t) && in_int_bounds(t, l) && in_int_bounds(t, r)
}

pub(crate) proof fn lemma_left(s: Site, op: BinOp, t: TypeView, l: int, r: int)
    requires
        both_in(t, l, r),
        !(op is And || op is Or || op is Eq || op is Neq),
    ensures
        left_by(s, instruction_for(op, t), int_in(t, l), int_in(t, r)) == match int_binary(
            op,
            t,
            l,
            r,
        ) {
            Ok(v) => Some(v),
            Err(_) => None,
        },
{
    let a = int_in(t, l);
    let b = int_in(t, r);
    integer_values_hold_their_number(t, l);
    integer_values_hold_their_number(t, r);
    let full = pushed(pushed(s.inst, a), b);
    assert(dropped(full).stack =~= s.inst.stack.push(a));
    assert(dropped(full) == pushed(s.inst, a));
    assert(dropped(dropped(full)).stack =~= s.inst.stack);
    assert(dropped(dropped(full)) == s.inst);
    let done = operator_code(empty_state(), op, t)->Ok_0.0.code;
    assert(done.len() == 1);
}

/// A difference is the number that makes up the first operand with the second.
/// There is one exactly where the type has such a number, and compiled addition
/// undoes it.
pub proof fn differences_undo_sums(s: Site, t: TypeView, l: int, r: int, d: int)
    requires
        both_in(t, l, r),
        in_int_bounds(t, d),
    ensures
        d + r == l <==> number(s, BinOp::Sub, t, l, r) == Some(d),
        d + r == l <==> number(s, BinOp::Add, t, d, r) == Some(l),
        number(s, BinOp::Sub, t, l, 0) == Some(l),
        number(s, BinOp::Add, t, l, 0) == Some(l),
        number(s, BinOp::Add, t, l, r) == number(s, BinOp::Add, t, r, l),
{
    lemma_left(s, BinOp::Sub, t, l, r);
    lemma_left(s, BinOp::Add, t, d, r);
    lemma_left(s, BinOp::Sub, t, l, 0);
    lemma_left(s, BinOp::Add, t, l, 0);
    lemma_left(s, BinOp::Add, t, l, r);
    lemma_left(s, BinOp::Add, t, r, l);
    integer_values_hold_their_number(t, d);
    integer_values_hold_their_number(t, l);
    if in_int_bounds(t, l - r) {
        integer_values_hold_their_number(t, l - r);
    }
    if in_int_bounds(t, d + r) {
        integer_values_hold_their_number(t, d + r);
    }
    if in_int_bounds(t, l + r) {
        integer_values_hold_their_number(t, l + r);
    }
}

/// A product grows by the first operand with every step of the second, from 0
/// on; the operands can be swapped; and where the type has no such number, there
/// is no result.
pub proof fn products_are_repeated_sums(s: Site, t: TypeView, l: int, r: int)
    requires
        both_in(t, l, r),
    ensures
        number(s, BinOp::Mul, t, l, 0) == Some(0int),
        number(s, BinOp::Mul, t, l, r) == number(s, BinOp::Mul, t, r, l),
        in_int_bounds(t, r + 1) ==> match (
            number(s, BinOp::Mul, t, l, r),
            number(s, BinOp::Mul, t, l, r + 1),
        ) {
            (Some(p), Some(q)) => q == p + l,
            (Some(p), None) => !in_int_bounds(t, p + l),
            (None, Some(q)) => !in_int_bounds(t, q - l),
            (None, None) => true,
        },
{
    lemma_left(s, BinOp::Mul, t, l, 0);
    lemma_left(s, BinOp::Mul, t, l, r);
    lemma_left(s, BinOp::Mul, t, r, l);
    integer_values_hold_their_number(t, 0);
    assert(l * 0 == 0);
    assert(l * r == r * l) by (nonlinear_arith);
    if in_int_bounds(t, l * r) {
        integer_values_hold_their_number(t, l * r);
    }
    if in_int_bounds(t, r + 1) {
        lemma_left(s, BinOp::Mul, t, l, r + 1);
        assert(l * (r + 1) == l * r + l) by (nonlinear_arith);
        if in_int_bounds(t, l * (r + 1)) {
            integer_values_hold_their_number(t, l * (r + 1));
        }
    }
}

proof fn lemma_trunc_parts(l: int, r: int)
    requires
        r != 0,
    ensures
        trunc_div(l, r) * r + trunc_rem(l, r) == l,
        l >= 0 ==> trunc_rem(l, r) >= 0,
        l <= 0 ==> trunc_rem(l, r) <= 0,
        r > 0 ==> -r < trunc_rem(l, r) < r,
        r < 0 ==> r < trunc_rem(l, r) < -r,
{
    let a = if l < 0 {
        -l
    } else {
        l
    };
    let d = if r < 0 {
        -r
    } else {
        r
    };
    assert(a == d * (a / d) + a % d && 0 <= a % d < d) by (nonlinear_arith)
        requires
            d >= 1,
    ;
    let q = a / d;
    assert(d * q == q * d && (-q) * r == -(q * r) && q * (-r) == -(q * r) && (-q) * (-r) == q * r)
        by (nonlinear_arith);
    assert((-l) / (-r) == (if l < 0 && r < 0 {
        q
    } else {
        (-l) / (-r)
    }));
}

/// A quotient and a remainder make up the first operand: the remainder is nearer
/// to 0 than the second operand and never of another sign than the first. Both
/// are there unless the second operand is 0 or the quotient is no number of the
/// type.
pub proof fn quotients_and_remainders_make_up(s: Site, t: TypeView, l: int, r: int)
    requires
        both_in(t, l, r),
    ensures
        r == 0 ==> number(s, BinOp::Div, t, l, r) is None && number(s, BinOp::Mod, t, l, r) is None,
        match (number(s, BinOp::Div, t, l, r), number(s, BinOp::Mod, t, l, r)) {
            (Some(q), Some(m)) => {
                &&& q * r + m == l
                &&& -r < m < r || r < m < -r
                &&& l >= 0 ==> m >= 0
                &&& l <= 0 ==> m <= 0
            },
            (None, None) => r == 0 || (r == -1 && !in_int_bounds(t, -l)),
            _ => false,
        },
{
    lemma_quotient_number(s, t, l, r);
    if r != 0 {
        lemma_trunc_parts(l, r);
        if !in_int_bounds(t, trunc_div(l, r)) {
            if r != -1 {
                lemma_quotient_fits(t, l, r);
            }
            assert(trunc_div(l, -1) == -l);
        }
    }
}

proof fn lemma_quotient_number(s: Site, t: TypeView, l: int, r: int)
    requires
        both_in(t, l, r),
    ensures
        r == 0 ==> number(s, BinOp::Div, t, l, r) is None && number(s, BinOp::Mod, t, l, r) is None,
        r != 0 && in_int_bounds(t, trunc_div(l, r)) ==> number(s, BinOp::Div, t, l, r) == Some(
            trunc_div(l, r),
        ) && number(s, BinOp::Mod, t, l, r) == Some(trunc_rem(l, r)),
        r != 0 && !in_int_bounds(t, trunc_div(l, r)) ==> number(s, BinOp::Div, t, l, r) is None
            && number(s, BinOp::Mod, t, l, r) is None,
{
    lemma_left(s, BinOp::Div, t, l, r);
    lemma_left(s, BinOp::Mod, t, l, r);
    if r != 0 && in_int_bounds(t, trunc_div(l, r)) {
        integer_values_hold_their_number(t, trunc_div(l, r));
        lemma_remainder_fits(t, l, r);
        integer_values_hold_their_number(t, trunc_rem(l, r));
    }
}

proof fn lemma_remainder_fits(t: TypeView, l: int, r: int)
    requires
        both_in(t, l, r),
        r != 0,
    ensures
        in_int_bounds(t, trunc_rem(l, r)),
{
    let a = if l < 0 {
        -l
    } else {
        l
    };
    let d = if r < 0 {
        -r
    } else {
        r
    };
    assert(0 <= a % d <= a) by (nonlinear_arith)
        requires
            a >= 0,
            d >= 1,
    ;
}

proof fn lemma_quotient_fits(t: TypeView, l: int, r: int)
    requires
        both_in(t, l, r),
        r != 0,
        r != -1,
    ensures
        in_int_bounds(t, trunc_div(l, r)),
{
    let a = if l < 0 {
        -l
    } else {
        l
    };
    let d = if r < 0 {
        -r
    } else {
        r
    };
    assert(0 <= a / d <= a) by (nonlinear_arith)
        requires
            a >= 0,
            d >= 1,
    ;
    if d >= 2 {
        assert(2 * (a / d) <= a) by (nonlinear_arith)
            requires
                a >= 0,
                d >= 2,
        ;
    } else {
        assert(a / 1 == a);
    }
}

/// A shift to the left multiplies by two as often as the second operand says, and
/// keeps what fits into the type; one to the right halves as often and rounds
/// down. Neither is there where all bits would be shifted out.
pub proof fn shifts_double_and_halve(s: Site, t: TypeView, l: int, r: int)
    requires
        both_in(t, l, r),
        0 <= r,
        r < 0x1_0000_0000,
    ensures
        match number(s, BinOp::Shl, t, l, r) {
            Some(n) => r < bit_width(t) && in_int_bounds(t, n) && exists|k: int|
                n == l * pow2(r as nat) + #[trigger] (k * pow2(bit_width(t) as nat)),
            None => r >= bit_width(t),
        },
        match number(s, BinOp::Shr, t, l, r) {
            Some(n) => r < bit_width(t) && n * pow2(r as nat) <= l < (n + 1) * pow2(r as nat),
            None => r >= bit_width(t),
        },
{
    lemma_left(s, BinOp::Shl, t, l, r);
    lemma_left(s, BinOp::Shr, t, l, r);
    if r < bit_width(t) {
        let p = pow2(r as nat) as int;
        lemma_pow2_pos(r as nat);
        let m = modulus(size_of_type(t).unwrap());
        lemma_modulus(t);
        let x = l * p;
        let n = wrapped(t, x);
        assert(x % m == x - (x / m) * m && 0 <= x % m < m) by (nonlinear_arith)
            requires
                m > 0,
        ;
        let k = if x % m > int_bounds(t).1 {
            -(x / m) - 1
        } else {
            -(x / m)
        };
        assert((-(x / m) - 1) * m == -((x / m) * m) - m && (-(x / m)) * m == -((x / m) * m))
            by (nonlinear_arith);
        assert(n == l * pow2(r as nat) + k * pow2(bit_width(t) as nat));
        assert(in_int_bounds(t, n));
        integer_values_hold_their_number(t, n);
        let q = l / p;
        assert(q * p <= l < (q + 1) * p) by (nonlinear_arith)
            requires
                q == l / p,
                p > 0,
        ;
        lemma_halved_stays(t, l, p);
        integer_values_hold_their_number(t, q);
    }
}

proof fn lemma_halved_stays(t: TypeView, l: int, p: int)
    requires
        integer_type(t),
        in_int_bounds(t, l),
        p >= 1,
    ensures
        in_int_bounds(t, l / p),
{
    if l >= 0 {
        assert(0 <= l / p <= l) by (nonlinear_arith)
            requires
                l >= 0,
                p >= 1,
        ;
    } else {
        assert(l <= l / p <= 0) by (nonlinear_arith)
            requires
                l < 0,
                p >= 1,
        ;
    }
}

proof fn lemma_modulus(t: TypeView)
    requires
        integer_type(t),
    ensures
        modulus(size_of_type(t).unwrap()) == pow2(bit_width(t) as nat),
        int_bounds(t).1 - int_bounds(t).0 + 1 == modulus(size_of_type(t).unwrap()),
{
    vstd::arithmetic::power2::lemma2_to64();
}

/// Comparisons and equality agree with the order of the numbers, whatever their
/// type: exactly one of less, equal and greater holds.
pub proof fn comparisons_order_the_numbers(s: Site, t: TypeView, l: int, r: int)
    requires
        both_in(t, l, r),
    ensures
        truth(s, BinOp::Lt, t, l, r) == Some(l < r),
        truth(s, BinOp::Le, t, l, r) == Some(!(r < l)),
        truth(s, BinOp::Gt, t, l, r) == truth(s, BinOp::Lt, t, r, l),
        truth(s, BinOp::Ge, t, l, r) == truth(s, BinOp::Le, t, r, l),
        truth(s, BinOp::Eq, t, l, r) == Some(!(l < r) && !(r < l)),
        truth(s, BinOp::Neq, t, l, r) == Some(l < r || r < l),
{
    lemma_left(s, BinOp::Lt, t, l, r);
    lemma_left(s, BinOp::Le, t, l, r);
    lemma_left(s, BinOp::Gt, t, l, r);
    lemma_left(s, BinOp::Ge, t, l, r);
    lemma_left(s, BinOp::Lt, t, r, l);
    lemma_left(s, BinOp::Le, t, r, l);
    let a = int_in(t, l);
    let b = int_in(t, r);
    integer_values_hold_their_number(t, l);
    integer_values_hold_their_number(t, r);
    let full = pushed(pushed(s.inst, a), b);
    assert(dropped(full).stack =~= s.inst.stack.push(a));
    assert(dropped(full) == pushed(s.inst, a));
    assert(dropped(dropped(full)).stack =~= s.inst.stack);
    assert(dropped(dropped(full)) == s.inst);
    assert(operator_code(empty_state(), BinOp::Eq, t)->Ok_0.0.code.len() == 1);
    assert(operator_code(empty_state(), BinOp::Neq, t)->Ok_0.0.code.len() == 1);
    assert(a == b <==> l == r);
}


/// The bits of the results of `&`, `|` and `^`: what both operands have, what
/// either has, and what just one has.
pub proof fn bits_are_shared_joined_and_told_apart(s: Site, t: TypeView, l: int, r: int)
    requires
        both_in(t, l, r),
    ensures
        match (
            number(s, BinOp::BitAnd, t, l, r),
            number(s, BinOp::BitOr, t, l, r),
            number(s, BinOp::BitXor, t, l, r),
        ) {
            (Some(both), Some(either), Some(one)) => {
                &&& both + either == l + r
                &&& one == either - both
                &&& l >= 0 && r >= 0 ==> 0 <= both <= l && both <= r && l <= either && r <= either
                &&& in_int_bounds(t, both) && in_int_bounds(t, either) && in_int_bounds(t, one)
                &&& number(s, BinOp::BitAnd, t, r, l) == Some(both)
                &&& number(s, BinOp::BitAnd, t, l, either) == Some(l)
                &&& number(s, BinOp::BitOr, t, l, both) == Some(l)
                &&& number(s, BinOp::BitAnd, t, both, one) == Some(0int)
                &&& number(s, BinOp::BitXor, t, one, r) == Some(l)
            },
            _ => false,
        },
        number(s, BinOp::BitAnd, t, l, 0) == Some(0int),
        number(s, BinOp::BitAnd, t, l, l) == Some(l),
        number(s, BinOp::BitOr, t, l, 0) == Some(l),
        number(s, BinOp::BitXor, t, l, l) == Some(0int),
{
    let (a, b) = (l as i128, r as i128);
    lemma_bitwise_stays(t, a, b);
    let (both, either, one) = (a & b, a | b, a ^ b);
    lemma_bit_facts(t, a, b);
    lemma_bits(s, t, a, b);
    lemma_bits(s, t, b, a);
    lemma_bits(s, t, a, either);
    lemma_bits(s, t, a, both);
    lemma_bits(s, t, both, one);
    lemma_bits(s, t, one, b);
    lemma_bits(s, t, a, 0);
    lemma_bits(s, t, a, a);
}

proof fn lemma_bits(s: Site, t: TypeView, a: i128, b: i128)
    requires
        both_in(t, a as int, b as int),
    ensures
        number(s, BinOp::BitAnd, t, a as int, b as int) == Some((a & b) as int),
        number(s, BinOp::BitOr, t, a as int, b as int) == Some((a | b) as int),
        number(s, BinOp::BitXor, t, a as int, b as int) == Some((a ^ b) as int),
{
    lemma_bitwise_stays(t, a, b);
    lemma_left(s, BinOp::BitAnd, t, a as int, b as int);
    lemma_left(s, BinOp::BitOr, t, a as int, b as int);
    lemma_left(s, BinOp::BitXor, t, a as int, b as int);
    integer_values_hold_their_number(t, (a & b) as int);
    integer_values_hold_their_number(t, (a | b) as int);
    integer_values_hold_their_number(t, (a ^ b) as int);
}

proof fn lemma_bit_facts(t: TypeView, a: i128, b: i128)
    requires
        both_in(t, a as int, b as int),
    ensures
        (a & b) + (a | b) == a + b,
        (a ^ b) == (a | b) - (a & b),
        a >= 0 && b >= 0 ==> 0 <= (a & b) <= a && (a & b) <= b && a <= (a | b) && b <= (a | b),
        (b & a) == (a & b),
        (a & (a | b)) == a,
        (a | (a & b)) == a,
        ((a & b) & (a ^ b)) == 0,
        ((a ^ b) ^ b) == a,
        (a & 0) == 0,
        (a & a) == a,
        (a | 0) == a,
        (a ^ a) == 0,
{
    let (x, y) = (a, b);
    assert((x & y) + (x | y) == x + y && (x ^ y) == (x | y) - (x & y)) by (bit_vector)
        requires
            -0x1_0000_0000_0000_0000 <= x <= 0x1_0000_0000_0000_0000,
            -0x1_0000_0000_0000_0000 <= y <= 0x1_0000_0000_0000_0000,
    ;
    assert(x >= 0 && y >= 0 ==> 0 <= (x & y) && (x & y) <= x && (x & y) <= y && x <= (x | y) && y
        <= (x | y)) by (bit_vector);
    assert((y & x) == (x & y) && (x & (x | y)) == x && (x | (x & y)) == x && ((x & y) & (x ^ y))
        == 0 && ((x ^ y) ^ y) == x && (x & 0) == 0 && (x & x) == x && (x | 0) == x && (x ^ x) == 0)
        by (bit_vector);
}

/// The number that an instruction leaves for one number of an integer type.
pub open spec fn number_of_one(s: Site, op: OpView, t: TypeView, n: int) -> Option<int> {
    match left_by_one(s, op, int_in(t, n)) {
        Some(v) => if type_of(v) == t {
            int_of(v)
        } else {
            None
        },
        None => None,
    }
}

/// The number that an instruction leaves for two numbers of an integer type.
pub open spec fn number_of_two(s: Site, op: OpView, t: TypeView, l: int, r: int) -> Option<int> {
    match left_by(s, op, int_in(t, l), int_in(t, r)) {
        Some(v) => if type_of(v) == t {
            int_of(v)
        } else {
            None
        },
        None => None,
    }
}

/// A negated number and the number add up to 0; an unsigned one is not negated,
/// and neither is one whose opposite the type has not.
pub proof fn negations_add_up_to_nothing(s: Site, t: TypeView, n: int)
    requires
        integer_type(t),
        in_int_bounds(t, n),
    ensures
        match number_of_one(s, OpView::Unary(UnOp::Neg, t), t, n) {
            Some(m) => m + n == 0 && signed_type(t),
            None => !signed_type(t) || !in_int_bounds(t, -n),
        },
{
    integer_values_hold_their_number(t, n);
    let full = pushed(s.inst, int_in(t, n));
    assert(dropped(full).stack =~= s.inst.stack);
    assert(dropped(full) == s.inst);
    if in_int_bounds(t, -n) {
        integer_values_hold_their_number(t, -n);
    }
}

/// `!` turns a truth value into the other one.
pub proof fn negated_truths_are_the_other_ones(s: Site, b: bool)
    ensures
        left_by_one(s, OpView::Unary(UnOp::Not, TypeView::Bool), ValueView::Bool(b)) == Some(
            ValueView::Bool(!b),
        ),
{
    let full = pushed(s.inst, ValueView::Bool(b));
    assert(dropped(full).stack =~= s.inst.stack);
    assert(dropped(full) == s.inst);
}

/// What `abs`, `min`, `max` and `pow` leave for numbers of an integer type: the
/// distance from 0, the operand that is not above the other, the one that is not
/// below it, and the product of as many first operands as the second says.
pub proof fn built_in_functions_compute(s: Site, t: TypeView, l: int, r: int)
    requires
        both_in(t, l, r),
    ensures
        match number_of_one(s, OpView::Builtin1(BuiltinFn::Abs, t), t, l) {
            Some(n) => n >= 0 && (n == l || n + l == 0),
            None => l < 0 && !in_int_bounds(t, -l),
        },
        match number_of_two(s, OpView::Builtin2(BuiltinFn::Min, t), t, l, r) {
            Some(n) => n <= l && n <= r && (n == l || n == r),
            None => false,
        },
        match number_of_two(s, OpView::Builtin2(BuiltinFn::Max, t), t, l, r) {
            Some(n) => n >= l && n >= r && (n == l || n == r),
            None => false,
        },
        number_of_two(s, OpView::Builtin2(BuiltinFn::Pow, t), t, l, 0) == Some(1int),
        r < 0 ==> number_of_two(s, OpView::Builtin2(BuiltinFn::Pow, t), t, l, r) is None,
        0 <= r < u32::MAX && in_int_bounds(t, r + 1) ==> match (
            number_of_two(s, OpView::Builtin2(BuiltinFn::Pow, t), t, l, r),
            number_of_two(s, OpView::Builtin2(BuiltinFn::Pow, t), t, l, r + 1),
        ) {
            (Some(p), Some(q)) => q == p * l,
            (Some(p), None) => !in_int_bounds(t, p * l),
            _ => true,
        },
{
    integer_values_hold_their_number(t, l);
    integer_values_hold_their_number(t, r);
    integer_values_hold_their_number(t, 0);
    integer_values_hold_their_number(t, 1);
    let one = pushed(s.inst, int_in(t, l));
    assert(dropped(one).stack =~= s.inst.stack);
    assert(dropped(one) == s.inst);
    if in_int_bounds(t, -l) {
        integer_values_hold_their_number(t, -l);
    }
    lemma_two_dropped(s, int_in(t, l), int_in(t, r));
    lemma_two_dropped(s, int_in(t, l), int_in(t, 0));
    vstd::arithmetic::power::lemma_pow0(l);
    if 0 <= r && in_int_bounds(t, r + 1) {
        integer_values_hold_their_number(t, r + 1);
        lemma_two_dropped(s, int_in(t, l), int_in(t, r + 1));
        vstd::arithmetic::power::lemma_pow_adds(l, r as nat, 1);
        vstd::arithmetic::power::lemma_pow1(l);
        let p = vstd::arithmetic::power::pow(l, r as nat);
        let q = vstd::arithmetic::power::pow(l, (r + 1) as nat);
        if in_int_bounds(t, p) {
            integer_values_hold_their_number(t, p);
        }
        if in_int_bounds(t, q) {
            integer_values_hold_their_number(t, q);
        }
    }
}

proof fn lemma_two_dropped(s: Site, a: ValueView, b: ValueView)
    ensures
        dropped(pushed(pushed(s.inst, a), b)) == pushed(s.inst, a),
        dropped(pushed(s.inst, a)) == s.inst,
{
    assert(dropped(pushed(pushed(s.inst, a), b)).stack =~= s.inst.stack.push(a));
    assert(dropped(pushed(s.inst, a)).stack =~= s.inst.stack);
}

/// A cast of an integer to an integer type leaves the one number of that type that
/// differs from it by a multiple of the number of values that the type has.
pub proof fn casts_keep_the_low_bits(s: Site, from: TypeView, to: TypeView, n: int)
    requires
        integer_type(from),
        integer_type(to),
        in_int_bounds(from, n),
    ensures
        match left_by_one(s, OpView::Cast(to), int_in(from, n)) {
            Some(v) => {
                &&& type_of(v) == to
                &&& int_of(v) is Some
                &&& in_int_bounds(to, int_of(v).unwrap())
                &&& exists|k: int|
                    int_of(v).unwrap() == n + #[trigger] (k * (int_bounds(to).1 - int_bounds(to).0
                        + 1))
            },
            None => false,
        },
{
    integer_values_hold_their_number(from, n);
    let full = pushed(s.inst, int_in(from, n));
    assert(dropped(full).stack =~= s.inst.stack);
    assert(dropped(full) == s.inst);
    let m = modulus(size_of_type(to).unwrap());
    lemma_modulus(to);
    assert(n % m == n - (n / m) * m && 0 <= n % m < m) by (nonlinear_arith)
        requires
            m > 0,
    ;
    let w = wrapped(to, n);
    let k = if n % m > int_bounds(to).1 {
        -(n / m) - 1
    } else {
        -(n / m)
    };
    assert((-(n / m) - 1) * m == -((n / m) * m) - m && (-(n / m)) * m == -((n / m) * m))
        by (nonlinear_arith);
    assert(w == n + k * (int_bounds(to).1 - int_bounds(to).0 + 1));
    integer_values_hold_their_number(to, w);
}

/// Operators on floats are asked for with their operands in the order in which
/// they stand, and leave what is answered: a truth value for a comparison, or a
/// number of the type of the operands. Narrow operands are widened.
pub proof fn floats_are_asked_for_in_order(
    s: Site,
    op: BinOp,
    t: TypeView,
    a: ValueView,
    b: ValueView,
)
    requires
        t is F16 || t is F32 || t is F64,
        type_of(a) == t && type_of(b) == t,
        a is F16 || a is F32 || a is F64,
        b is F16 || b is F32 || b is F64,
        op is Add || op is Sub || op is Mul || op is Div || op is Mod || op is Lt || op is Le
            || op is Gt || op is Ge,
    ensures
        effect(
            s.heap,
            s.all,
            pushed(pushed(s.inst, a), b),
            s.receiver,
            instruction_for(op, t),
        ) == (Effect {
            heap: s.heap,
            inst: s.inst,
            flow: FlowView::Ask(
                RequestView::Float(
                    FloatView::Binary {
                        op,
                        left: a,
                        right: b,
                        result: if op is Lt || op is Le || op is Gt || op is Ge {
                            TypeView::Bool
                        } else {
                            t
                        },
                    },
                ),
                PendingView::Push { settle: false },
            ),
        }),
{
    lemma_two_dropped(s, a, b);
    assert(operator_code(empty_state(), op, t)->Ok_0.0.code.len() == 1);
}

/// What a value that was asked for is answered with is left on the stack.
pub proof fn answered_values_are_left(s: Site, request: RequestView, settle: bool, v: ValueView)
    ensures
        ({
            let e = answered(
                s.heap,
                s.inst,
                request,
                PendingView::Push { settle },
                AnswerView::Value(v),
            );
            e.heap == s.heap && e.inst == pushed(s.inst, v) && (e.flow is Next || e.flow is Settle)
        }),
{
}

} // verus!
