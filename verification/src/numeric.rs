//! Evaluation of operators, built-in functions and casts. Integer results are
//! computed here; a floating-point result is asked for with a [`FloatRequest`].
use vstd::prelude::*;
use vstd::arithmetic::power::{lemma_pow0, lemma_pow1, pow};
use vstd::arithmetic::power2::pow2;
use crate::heap::{Heap, HeapObject, ObjectView, object_at};
use crate::ops::{BinOp, BinaryOp, BuiltinFn, UnOp};
use crate::scalar::{from_bits, modulus};
use crate::types::{
    Error, ErrorView, Type, TypeView, in_int_bounds, int_bounds, integer_type, is_integer,
    numeric_type, runtime_error, signed_type, size_of_type,
};
use crate::value::{Value, ValueView, fits, int_in, int_of, make_integer, type_of};

verus! {

/// A floating-point computation. Operands of type `BF16` come widened to
/// `F32`. What is computed in single precision, or in double precision for
/// `F64` operands, is rounded to `result`.
#[derive(Debug)]
pub enum FloatRequest {
    Binary { op: BinOp, left: Value, right: Value, result: Type },
    Negate { value: Value, result: Type },
    Unary { function: BuiltinFn, argument: Value, result: Type },
    Pair { function: BuiltinFn, left: Value, right: Value, result: Type },
    Cast { value: Value, target: Type },
    Parse { text: String, ty: Type },
}

/// The mathematical model of a [`FloatRequest`].
pub enum FloatView {
    Binary { op: BinOp, left: ValueView, right: ValueView, result: TypeView },
    Negate { value: ValueView, result: TypeView },
    Unary { function: BuiltinFn, argument: ValueView, result: TypeView },
    Pair { function: BuiltinFn, left: ValueView, right: ValueView, result: TypeView },
    Cast { value: ValueView, target: TypeView },
    Parse { text: Seq<char>, ty: TypeView },
}

impl View for FloatRequest {
    type V = FloatView;

    open spec fn view(&self) -> FloatView {
        match *self {
            FloatRequest::Binary { op, left, right, result } => FloatView::Binary {
                op,
                left: left@,
                right: right@,
                result: result@,
            },
            FloatRequest::Negate { value, result } => FloatView::Negate {
                value: value@,
                result: result@,
            },
            FloatRequest::Unary { function, argument, result } => FloatView::Unary {
                function,
                argument: argument@,
                result: result@,
            },
            FloatRequest::Pair { function, left, right, result } => FloatView::Pair {
                function,
                left: left@,
                right: right@,
                result: result@,
            },
            FloatRequest::Cast { value, target } => FloatView::Cast {
                value: value@,
                target: target@,
            },
            FloatRequest::Parse { text, ty } => FloatView::Parse { text: text@, ty: ty@ },
        }
    }
}

/// The type of the value that a floating-point computation gives.
pub open spec fn float_result(f: FloatView) -> TypeView {
    match f {
        FloatView::Binary { result, .. } => result,
        FloatView::Negate { result, .. } => result,
        FloatView::Unary { result, .. } => result,
        FloatView::Pair { result, .. } => result,
        FloatView::Cast { target, .. } => target,
        FloatView::Parse { ty, .. } => ty,
    }
}

impl FloatRequest {
    /// The type of the value that is asked for.
    pub fn result_type(&self) -> (r: &Type)
        ensures
            r@ == float_result(self@),
    {
        match self {
            FloatRequest::Binary { result, .. } => result,
            FloatRequest::Negate { result, .. } => result,
            FloatRequest::Unary { result, .. } => result,
            FloatRequest::Pair { result, .. } => result,
            FloatRequest::Cast { target, .. } => target,
            FloatRequest::Parse { ty, .. } => ty,
        }
    }
}

/// What an evaluation gives: a value, or a floating-point computation to do.
#[derive(Debug)]
pub enum Outcome {
    Value(Value),
    Float(FloatRequest),
}

/// The mathematical model of an [`Outcome`].
pub enum OutcomeView {
    Value(ValueView),
    Float(FloatView),
}

impl View for Outcome {
    type V = OutcomeView;

    open spec fn view(&self) -> OutcomeView {
        match *self {
            Outcome::Value(v) => OutcomeView::Value(v@),
            Outcome::Float(f) => OutcomeView::Float(f@),
        }
    }
}

/// The single-precision bit pattern of a bfloat16 number: its bits in the upper
/// half. A NaN becomes quiet.
pub open spec fn bf16_widened(bits: u16) -> u32 {
    if bits & 0x7fff > 0x7f80 {
        (bits as u32 | 0x40) << 16
    } else {
        (bits as u32) << 16
    }
}

/// Trusted: `half::bf16::to_f32` puts the sixteen bits into the upper half of
/// the single-precision pattern and sets the quiet bit of a NaN.
#[verifier::external_body]
pub fn bf16_to_f32(bits: u16) -> (r: u32)
    ensures
        r == bf16_widened(bits),
{
    half::bf16::from_bits(bits).to_f32().to_bits()
}

/// A float operand: a bfloat16 number is widened.
pub open spec fn widened(v: ValueView) -> ValueView {
    match v {
        ValueView::BF16(bits) => ValueView::F32(bf16_widened(bits)),
        _ => v,
    }
}

fn widen(v: Value) -> (r: Value)
    ensures
        r@ == widened(v@),
{
    match v {
        Value::BF16(bits) => Value::F32(bf16_to_f32(bits)),
        other => other,
    }
}

/// Division that rounds toward zero.
pub open spec fn trunc_div(l: int, r: int) -> int {
    if l >= 0 {
        if r > 0 {
            l / r
        } else {
            -(l / (-r))
        }
    } else {
        if r > 0 {
            -((-l) / r)
        } else {
            (-l) / (-r)
        }
    }
}

/// The remainder of a division that rounds toward zero.
pub open spec fn trunc_rem(l: int, r: int) -> int {
    let d = if r > 0 {
        r
    } else {
        -r
    };
    if l >= 0 {
        l % d
    } else {
        -((-l) % d)
    }
}

/// The number of an integer type that is congruent to `n`.
pub open spec fn wrapped(t: TypeView, n: int) -> int {
    let m = modulus(size_of_type(t).unwrap());
    let u = n % m;
    if u > int_bounds(t).1 {
        u - m
    } else {
        u
    }
}

/// The number of bits of an integer type.
pub open spec fn bit_width(t: TypeView) -> int {
    size_of_type(t).unwrap() * 8
}

/// An integer result, or the overflow error.
pub open spec fn checked(t: TypeView, n: int, message: Seq<char>) -> Result<ValueView, ErrorView> {
    if in_int_bounds(t, n) {
        Ok(int_in(t, n))
    } else {
        Err(ErrorView::Runtime(message))
    }
}

/// The result of an operator on two integers of the same type.
pub open spec fn int_binary(op: BinOp, t: TypeView, l: int, r: int) -> Result<ValueView, ErrorView> {
    match op {
        BinOp::Add => checked(t, l + r, "addition overflow"@),
        BinOp::Sub => checked(t, l - r, "subtraction overflow"@),
        BinOp::Mul => checked(t, l * r, "multiplication overflow"@),
        BinOp::Div => if r == 0 {
            Err(ErrorView::Runtime("division by zero"@))
        } else {
            checked(t, trunc_div(l, r), "division by zero"@)
        },
        BinOp::Mod => if r == 0 || !in_int_bounds(t, trunc_div(l, r)) {
            Err(ErrorView::Runtime("modulo by zero"@))
        } else {
            Ok(int_in(t, trunc_rem(l, r)))
        },
        BinOp::BitAnd => Ok(int_in(t, (l as i128 & r as i128) as int)),
        BinOp::BitOr => Ok(int_in(t, (l as i128 | r as i128) as int)),
        BinOp::BitXor => Ok(int_in(t, (l as i128 ^ r as i128) as int)),
        BinOp::Shl => {
            let amount = r % 0x1_0000_0000;
            if amount >= bit_width(t) {
                Err(ErrorView::Runtime("shift overflow"@))
            } else {
                Ok(int_in(t, wrapped(t, l * pow2(amount as nat) as int)))
            }
        },
        BinOp::Shr => {
            let amount = r % 0x1_0000_0000;
            if amount >= bit_width(t) {
                Err(ErrorView::Runtime("shift overflow"@))
            } else {
                Ok(int_in(t, l / (pow2(amount as nat) as int)))
            }
        },
        BinOp::Lt => Ok(ValueView::Bool(l < r)),
        BinOp::Le => Ok(ValueView::Bool(l <= r)),
        BinOp::Gt => Ok(ValueView::Bool(l > r)),
        BinOp::Ge => Ok(ValueView::Bool(l >= r)),
        _ => Err(ErrorView::Runtime("VM operator invariant broken"@)),
    }
}

/// Bitwise operators keep the numbers of an integer type within the type.
pub(crate) proof fn lemma_bitwise_stays(t: TypeView, a: i128, b: i128)
    requires
        integer_type(t),
        in_int_bounds(t, a as int),
        in_int_bounds(t, b as int),
    ensures
        in_int_bounds(t, (a & b) as int),
        in_int_bounds(t, (a | b) as int),
        in_int_bounds(t, (a ^ b) as int),
{
    match t {
        TypeView::I8 => {
            assert(-0x80 <= a & b <= 0x7f && -0x80 <= a | b <= 0x7f
                && -0x80 <= a ^ b <= 0x7f)
                by (bit_vector)
                requires
                    -0x80 <= a <= 0x7f,
                    -0x80 <= b <= 0x7f,
            ;
        },
        TypeView::I16 => {
            assert(-0x8000 <= a & b <= 0x7fff && -0x8000 <= a | b <= 0x7fff
                && -0x8000 <= a ^ b <= 0x7fff)
                by (bit_vector)
                requires
                    -0x8000 <= a <= 0x7fff,
                    -0x8000 <= b <= 0x7fff,
            ;
        },
        TypeView::I32 => {
            assert(-0x8000_0000 <= a & b <= 0x7fff_ffff && -0x8000_0000 <= a | b <= 0x7fff_ffff
                && -0x8000_0000 <= a ^ b <= 0x7fff_ffff)
                by (bit_vector)
                requires
                    -0x8000_0000 <= a <= 0x7fff_ffff,
                    -0x8000_0000 <= b <= 0x7fff_ffff,
            ;
        },
        TypeView::I64 => {
            assert(-0x8000_0000_0000_0000 <= a & b <= 0x7fff_ffff_ffff_ffff && -0x8000_0000_0000_0000 <= a | b <= 0x7fff_ffff_ffff_ffff
                && -0x8000_0000_0000_0000 <= a ^ b <= 0x7fff_ffff_ffff_ffff)
                by (bit_vector)
                requires
                    -0x8000_0000_0000_0000 <= a <= 0x7fff_ffff_ffff_ffff,
                    -0x8000_0000_0000_0000 <= b <= 0x7fff_ffff_ffff_ffff,
            ;
        },
        TypeView::U8 => {
            assert(0 <= a & b <= 0xff && 0 <= a | b <= 0xff
                && 0 <= a ^ b <= 0xff)
                by (bit_vector)
                requires
                    0 <= a <= 0xff,
                    0 <= b <= 0xff,
            ;
        },
        TypeView::U16 => {
            assert(0 <= a & b <= 0xffff && 0 <= a | b <= 0xffff
                && 0 <= a ^ b <= 0xffff)
                by (bit_vector)
                requires
                    0 <= a <= 0xffff,
                    0 <= b <= 0xffff,
            ;
        },
        TypeView::U32 => {
            assert(0 <= a & b <= 0xffff_ffff && 0 <= a | b <= 0xffff_ffff
                && 0 <= a ^ b <= 0xffff_ffff)
                by (bit_vector)
                requires
                    0 <= a <= 0xffff_ffff,
                    0 <= b <= 0xffff_ffff,
            ;
        },
        TypeView::U64 => {
            assert(0 <= a & b <= 0xffff_ffff_ffff_ffff && 0 <= a | b <= 0xffff_ffff_ffff_ffff
                && 0 <= a ^ b <= 0xffff_ffff_ffff_ffff)
                by (bit_vector)
                requires
                    0 <= a <= 0xffff_ffff_ffff_ffff,
                    0 <= b <= 0xffff_ffff_ffff_ffff,
            ;
        },
        _ => {},
    }
}

pub(crate) fn divide(l: i128, r: i128) -> (q: i128)
    requires
        r != 0,
        -0x1_0000_0000_0000_0000 <= l <= 0x1_0000_0000_0000_0000,
        -0x1_0000_0000_0000_0000 <= r <= 0x1_0000_0000_0000_0000,
    ensures
        q == trunc_div(l as int, r as int),
{
    let a: u128 = if l < 0 {
        (-l) as u128
    } else {
        l as u128
    };
    let d: u128 = if r < 0 {
        (-r) as u128
    } else {
        r as u128
    };
    let q: u128 = a / d;
    assert(q <= a) by (nonlinear_arith)
        requires
            q == a / d,
            d >= 1,
    ;
    assert(0int / (d as int) == 0) by (nonlinear_arith)
        requires
            d >= 1,
    ;
    if (l < 0) == (r < 0) {
        q as i128
    } else {
        -(q as i128)
    }
}

fn remainder(l: i128, r: i128) -> (m: i128)
    requires
        r != 0,
        -0x1_0000_0000_0000_0000 <= l <= 0x1_0000_0000_0000_0000,
        -0x1_0000_0000_0000_0000 <= r <= 0x1_0000_0000_0000_0000,
    ensures
        m == trunc_rem(l as int, r as int),
{
    let a: u128 = if l < 0 {
        (-l) as u128
    } else {
        l as u128
    };
    let d: u128 = if r < 0 {
        (-r) as u128
    } else {
        r as u128
    };
    let m: u128 = a % d;
    if l < 0 {
        -(m as i128)
    } else {
        m as i128
    }
}

/// The least number at or above zero that is congruent to `n`.
fn residue(n: i128, m: i128) -> (u: i128)
    requires
        m > 0,
    ensures
        u == n as int % m as int,
        0 <= u < m,
{
    if n >= 0 {
        (n as u128 % m as u128) as i128
    } else {
        let k: i128 = -(n + 1);
        let u: i128 = m - 1 - (k as u128 % m as u128) as i128;
        proof {
            let q = k as int / m as int;
            assert(k as int == m as int * q + k as int % m as int) by {
                vstd::arithmetic::div_mod::lemma_fundamental_div_mod(k as int, m as int);
            }
            assert(n as int == m as int * (-q - 1) + u as int) by (nonlinear_arith)
                requires
                    k as int == m as int * q + k as int % m as int,
                    n as int == -(k as int) - 1,
                    u as int == m as int - 1 - k as int % m as int,
            ;
            vstd::arithmetic::div_mod::lemma_fundamental_div_mod_converse(
                n as int,
                m as int,
                -q - 1,
                u as int,
            );
        }
        u
    }
}

fn type_modulus(ty: &Type) -> (m: i128)
    requires
        integer_type(ty@),
    ensures
        m == modulus(size_of_type(ty@).unwrap()),
{
    match ty {
        Type::I8 | Type::U8 => 0x100,
        Type::I16 | Type::U16 => 0x1_0000,
        Type::I32 | Type::U32 => 0x1_0000_0000,
        _ => 0x1_0000_0000_0000_0000,
    }
}

fn wrap(ty: &Type, n: i128) -> (r: i128)
    requires
        integer_type(ty@),
    ensures
        r == wrapped(ty@, n as int),
        in_int_bounds(ty@, r as int),
{
    let m: i128 = type_modulus(ty);
    let u: i128 = residue(n, m);
    if fits(ty, u) {
        u
    } else {
        u - m
    }
}

proof fn lemma_doubled(x: int, n: nat, m: int)
    requires
        m > 0,
    ensures
        (((x * pow2(n)) % m) * 2) % m == (x * pow2(n + 1)) % m,
{
    vstd::arithmetic::power2::lemma_pow2_unfold(n + 1);
    vstd::arithmetic::div_mod::lemma_mul_mod_noop_left(x * pow2(n), 2, m);
    assert(x * pow2(n) * 2 == x * pow2(n + 1)) by (nonlinear_arith)
        requires
            pow2(n + 1) == 2 * pow2(n),
    ;
}

fn shift_left(ty: &Type, l: i128, amount: u32) -> (r: i128)
    requires
        integer_type(ty@),
        amount < 64,
        in_int_bounds(ty@, l as int),
    ensures
        r == wrapped(ty@, l * pow2(amount as nat)),
        in_int_bounds(ty@, r as int),
{
    let m: i128 = type_modulus(ty);
    let mut u: i128 = residue(l, m);
    let mut i: u32 = 0;
    proof {
        vstd::arithmetic::power2::lemma2_to64();
        assert(l * pow2(0) == l) by (nonlinear_arith)
            requires
                pow2(0) == 1,
        ;
    }
    while i < amount
        invariant
            i <= amount,
            0 < m <= 0x1_0000_0000_0000_0000,
            0 <= u < m,
            u == (l * pow2(i as nat)) % m as int,
        decreases amount - i,
    {
        proof {
            lemma_doubled(l as int, i as nat, m as int);
        }
        u = residue(u * 2, m);
        i += 1;
    }
    if fits(ty, u) {
        u
    } else {
        u - m
    }
}

fn floor_half(n: i128) -> (r: i128)
    ensures
        r == n as int / 2,
{
    if n >= 0 {
        (n as u128 / 2) as i128
    } else {
        let k: i128 = -(n + 1);
        -((k as u128 / 2) as i128) - 1
    }
}

proof fn lemma_half_of_quotient(l: int, a: int)
    requires
        a > 0,
    ensures
        (l / a) / 2 == l / (a * 2),
{
    let q = l / a;
    let r = l % a;
    let h = q / 2;
    let s = q % 2;
    vstd::arithmetic::div_mod::lemma_fundamental_div_mod(l, a);
    assert(l == (a * 2) * h + (a * s + r) && 0 <= a * s + r < a * 2) by (nonlinear_arith)
        requires
            l == a * q + r,
            q == 2 * h + s,
            0 <= r < a,
            s == 0 || s == 1,
    ;
    vstd::arithmetic::div_mod::lemma_fundamental_div_mod_converse(l, a * 2, h, a * s + r);
}

fn shift_right(l: i128, amount: u32) -> (r: i128)
    ensures
        r == l as int / pow2(amount as nat) as int,
{
    let mut n: i128 = l;
    let mut i: u32 = 0;
    proof {
        vstd::arithmetic::power2::lemma2_to64();
        assert(l as int / 1 == l as int);
    }
    while i < amount
        invariant
            i <= amount,
            n == l as int / pow2(i as nat) as int,
        decreases amount - i,
    {
        proof {
            vstd::arithmetic::power2::lemma_pow2_pos(i as nat);
            vstd::arithmetic::power2::lemma_pow2_unfold((i + 1) as nat);
            lemma_half_of_quotient(l as int, pow2(i as nat) as int);
            assert(pow2(i as nat) * 2 == pow2((i + 1) as nat));
        }
        n = floor_half(n);
        i += 1;
    }
    n
}

proof fn lemma_shift_right_stays(t: TypeView, l: int, n: nat)
    requires
        integer_type(t),
        in_int_bounds(t, l),
    ensures
        in_int_bounds(t, l / pow2(n) as int),
{
    vstd::arithmetic::power2::lemma_pow2_pos(n);
    let d = pow2(n) as int;
    let q = l / d;
    assert(l >= 0 ==> 0 <= q <= l) by (nonlinear_arith)
        requires
            q == l / d,
            d >= 1,
    ;
    assert(l < 0 ==> l <= q < 0) by (nonlinear_arith)
        requires
            q == l / d,
            d >= 1,
    ;
}

fn integer_result(ty: &Type, n: i128, message: &str) -> (r: Result<Value, Error>)
    requires
        integer_type(ty@),
    ensures
        match r {
            Ok(v) => checked(ty@, n as int, message@) == Ok::<ValueView, ErrorView>(v@),
            Err(e) => checked(ty@, n as int, message@) == Err::<ValueView, ErrorView>(e@),
        },
{
    if fits(ty, n) {
        Ok(make_integer(ty, n))
    } else {
        Err(runtime_error(message))
    }
}

proof fn lemma_trunc(l: int, r: int)
    requires
        r != 0,
    ensures
        l >= 0 ==> -l <= trunc_div(l, r) <= l && 0 <= trunc_rem(l, r) <= l,
        l < 0 ==> l <= trunc_div(l, r) <= -l && l <= trunc_rem(l, r) <= 0,
{
    let a = if l < 0 {
        -l
    } else {
        l
    };
    let d = if r < 0 {
        -r
    } else {
        r
    };
    assert(0 <= a / d <= a && 0 <= a % d <= a) by (nonlinear_arith)
        requires
            a >= 0,
            d >= 1,
    ;
}

/// Applies an operator to two integers of the same type.
fn evaluate_integers(op: BinOp, ty: &Type, l: i128, r: i128) -> (res: Result<Value, Error>)
    requires
        integer_type(ty@),
        in_int_bounds(ty@, l as int),
        in_int_bounds(ty@, r as int),
    ensures
        match res {
            Ok(v) => int_binary(op, ty@, l as int, r as int) == Ok::<ValueView, ErrorView>(v@),
            Err(e) => int_binary(op, ty@, l as int, r as int) == Err::<ValueView, ErrorView>(e@),
        },
{
    match op {
        BinOp::Add => integer_result(ty, l + r, "addition overflow"),
        BinOp::Sub => integer_result(ty, l - r, "subtraction overflow"),
        BinOp::Mul => match l.checked_mul(r) {
            Some(n) => integer_result(ty, n, "multiplication overflow"),
            None => Err(runtime_error("multiplication overflow")),
        },
        BinOp::Div => if r == 0 {
            Err(runtime_error("division by zero"))
        } else {
            integer_result(ty, divide(l, r), "division by zero")
        },
        BinOp::Mod => {
            if r == 0 {
                return Err(runtime_error("modulo by zero"));
            }
            let quotient: i128 = divide(l, r);
            if !fits(ty, quotient) {
                return Err(runtime_error("modulo by zero"));
            }
            proof {
                lemma_trunc(l as int, r as int);
            }
            Ok(make_integer(ty, remainder(l, r)))
        },
        BinOp::BitAnd => {
            proof {
                lemma_bitwise_stays(ty@, l, r);
            }
            Ok(make_integer(ty, l & r))
        },
        BinOp::BitOr => {
            proof {
                lemma_bitwise_stays(ty@, l, r);
            }
            Ok(make_integer(ty, l | r))
        },
        BinOp::BitXor => {
            proof {
                lemma_bitwise_stays(ty@, l, r);
            }
            Ok(make_integer(ty, l ^ r))
        },
        BinOp::Shl => {
            let amount: i128 = residue(r, 0x1_0000_0000);
            if amount >= width_of(ty) {
                Err(runtime_error("shift overflow"))
            } else {
                Ok(make_integer(ty, shift_left(ty, l, amount as u32)))
            }
        },
        BinOp::Shr => {
            let amount: i128 = residue(r, 0x1_0000_0000);
            if amount >= width_of(ty) {
                Err(runtime_error("shift overflow"))
            } else {
                proof {
                    lemma_shift_right_stays(ty@, l as int, amount as nat);
                }
                Ok(make_integer(ty, shift_right(l, amount as u32)))
            }
        },
        BinOp::Lt => Ok(Value::Bool(l < r)),
        BinOp::Le => Ok(Value::Bool(l <= r)),
        BinOp::Gt => Ok(Value::Bool(l > r)),
        BinOp::Ge => Ok(Value::Bool(l >= r)),
        _ => Err(runtime_error("VM operator invariant broken")),
    }
}

fn width_of(ty: &Type) -> (w: i128)
    requires
        integer_type(ty@),
    ensures
        w == bit_width(ty@),
        w <= 64,
{
    match ty {
        Type::I8 | Type::U8 => 8,
        Type::I16 | Type::U16 => 16,
        Type::I32 | Type::U32 => 32,
        _ => 64,
    }
}


/// Whether a value is a scalar of a type.
pub open spec fn is_kind(v: ValueView, t: TypeView) -> bool {
    crate::scalar::is_scalar(v) && type_of(v) == t
}

fn kind_is(v: &Value, ty: &Type) -> (r: bool)
    ensures
        r == is_kind(v@, ty@),
{
    match (v, ty) {
        (Value::I8(_), Type::I8) | (Value::I16(_), Type::I16) | (Value::I32(_), Type::I32) | (
            Value::I64(_),
            Type::I64,
        ) | (Value::U8(_), Type::U8) | (Value::U16(_), Type::U16) | (Value::U32(_), Type::U32) | (
            Value::U64(_),
            Type::U64,
        ) | (Value::F16(_), Type::F16) | (Value::BF16(_), Type::BF16) | (Value::F32(_), Type::F32)
        | (Value::F64(_), Type::F64) | (Value::Bool(_), Type::Bool) => true,
        _ => false,
    }
}

/// Whether a value is a floating-point number.
pub open spec fn is_float_value(v: ValueView) -> bool {
    v is F16 || v is BF16 || v is F32 || v is F64
}

fn float_value_is(v: &Value) -> (r: bool)
    ensures
        r == is_float_value(v@),
{
    matches!(v, Value::F16(_) | Value::BF16(_) | Value::F32(_) | Value::F64(_))
}

/// The operand type and the operator of an opcode.
pub open spec fn opcode_parts(opcode: BinaryOp) -> (TypeView, BinOp) {
    match opcode {
        BinaryOp::I8(op) => (TypeView::I8, op),
        BinaryOp::I16(op) => (TypeView::I16, op),
        BinaryOp::I32(op) => (TypeView::I32, op),
        BinaryOp::I64(op) => (TypeView::I64, op),
        BinaryOp::U8(op) => (TypeView::U8, op),
        BinaryOp::U16(op) => (TypeView::U16, op),
        BinaryOp::U32(op) => (TypeView::U32, op),
        BinaryOp::U64(op) => (TypeView::U64, op),
        BinaryOp::F16(op) => (TypeView::F16, op),
        BinaryOp::BF16(op) => (TypeView::BF16, op),
        BinaryOp::F32(op) => (TypeView::F32, op),
        BinaryOp::F64(op) => (TypeView::F64, op),
        BinaryOp::Equal => (TypeView::Bool, BinOp::Eq),
        BinaryOp::NotEqual => (TypeView::Bool, BinOp::Neq),
    }
}

fn split_opcode(opcode: &BinaryOp) -> (r: (Type, BinOp))
    ensures
        (r.0@, r.1) == opcode_parts(*opcode),
{
    match opcode {
        BinaryOp::I8(op) => (Type::I8, *op),
        BinaryOp::I16(op) => (Type::I16, *op),
        BinaryOp::I32(op) => (Type::I32, *op),
        BinaryOp::I64(op) => (Type::I64, *op),
        BinaryOp::U8(op) => (Type::U8, *op),
        BinaryOp::U16(op) => (Type::U16, *op),
        BinaryOp::U32(op) => (Type::U32, *op),
        BinaryOp::U64(op) => (Type::U64, *op),
        BinaryOp::F16(op) => (Type::F16, *op),
        BinaryOp::BF16(op) => (Type::BF16, *op),
        BinaryOp::F32(op) => (Type::F32, *op),
        BinaryOp::F64(op) => (Type::F64, *op),
        BinaryOp::Equal => (Type::Bool, BinOp::Eq),
        BinaryOp::NotEqual => (Type::Bool, BinOp::Neq),
    }
}

pub open spec fn is_arithmetic(op: BinOp) -> bool {
    op is Add || op is Sub || op is Mul || op is Div || op is Mod
}

pub open spec fn is_comparison(op: BinOp) -> bool {
    op is Lt || op is Le || op is Gt || op is Ge
}

/// The computation for an operator on two floats of type `t`.
pub open spec fn float_binary(
    op: BinOp,
    t: TypeView,
    a: ValueView,
    b: ValueView,
) -> Result<OutcomeView, ErrorView> {
    if is_arithmetic(op) || is_comparison(op) {
        Ok(
            OutcomeView::Float(
                FloatView::Binary {
                    op,
                    left: widened(a),
                    right: widened(b),
                    result: if is_comparison(op) {
                        TypeView::Bool
                    } else {
                        t
                    },
                },
            ),
        )
    } else {
        Err(ErrorView::Runtime("VM float operator invariant broken"@))
    }
}

/// Whether two values are equal: strings by their texts, floats as numbers,
/// everything else by type and contents.
pub open spec fn equality(
    h: Seq<Option<ObjectView>>,
    a: ValueView,
    b: ValueView,
    wanted: bool,
) -> Result<OutcomeView, ErrorView> {
    match (a, b) {
        (ValueView::String(left), ValueView::String(right)) => match (
            object_at(h, left),
            object_at(h, right),
        ) {
            (Err(e), _) => Err(e),
            (_, Err(e)) => Err(e),
            (Ok(ObjectView::String(x)), Ok(ObjectView::String(y))) => Ok(
                OutcomeView::Value(ValueView::Bool((x == y) == wanted)),
            ),
            _ => Err(ErrorView::Runtime("string heap invariant broken"@)),
        },
        (ValueView::F32(_), ValueView::F32(_)) | (ValueView::F64(_), ValueView::F64(_)) => Ok(
            OutcomeView::Float(
                FloatView::Binary {
                    op: if wanted {
                        BinOp::Eq
                    } else {
                        BinOp::Neq
                    },
                    left: a,
                    right: b,
                    result: TypeView::Bool,
                },
            ),
        ),
        _ => Ok(OutcomeView::Value(ValueView::Bool((a == b) == wanted))),
    }
}

pub open spec fn value_outcome(r: Result<ValueView, ErrorView>) -> Result<OutcomeView, ErrorView> {
    match r {
        Ok(v) => Ok(OutcomeView::Value(v)),
        Err(e) => Err(e),
    }
}

/// The result of a binary opcode.
pub open spec fn binary_result(
    h: Seq<Option<ObjectView>>,
    a: ValueView,
    b: ValueView,
    opcode: BinaryOp,
) -> Result<OutcomeView, ErrorView> {
    if opcode is Equal || opcode is NotEqual {
        equality(h, a, b, opcode is Equal)
    } else {
        let (t, op) = opcode_parts(opcode);
        if !is_kind(a, t) || !is_kind(b, t) {
            Err(ErrorView::Runtime("VM execution invariant broken: unsupported binary op"@))
        } else if integer_type(t) {
            value_outcome(int_binary(op, t, int_of(a).unwrap(), int_of(b).unwrap()))
        } else {
            float_binary(op, t, a, b)
        }
    }
}

fn evaluate_equality(heap: &Heap, a: Value, b: Value, wanted: bool) -> (r: Result<Outcome, Error>)
    ensures
        match r {
            Ok(o) => equality(heap@, a@, b@, wanted) == Ok::<OutcomeView, ErrorView>(o@),
            Err(e) => equality(heap@, a@, b@, wanted) == Err::<OutcomeView, ErrorView>(e@),
        },
{
    match (&a, &b) {
        (Value::String(left), Value::String(right)) => {
            let x = heap.get(*left)?;
            let y = heap.get(*right)?;
            match (x, y) {
                (HeapObject::String(x), HeapObject::String(y)) => Ok(
                    Outcome::Value(Value::Bool((*x == *y) == wanted)),
                ),
                _ => Err(runtime_error("string heap invariant broken")),
            }
        },
        (Value::F32(_), Value::F32(_)) | (Value::F64(_), Value::F64(_)) => Ok(
            Outcome::Float(
                FloatRequest::Binary {
                    op: if wanted {
                        BinOp::Eq
                    } else {
                        BinOp::Neq
                    },
                    left: a,
                    right: b,
                    result: Type::Bool,
                },
            ),
        ),
        _ => Ok(Outcome::Value(Value::Bool(a.same(&b) == wanted))),
    }
}

pub fn evaluate_binary(
    heap: &Heap,
    a: Value,
    b: Value,
    opcode: &BinaryOp,
) -> (r: Result<Outcome, Error>)
    ensures
        match r {
            Ok(o) => binary_result(heap@, a@, b@, *opcode) == Ok::<OutcomeView, ErrorView>(o@),
            Err(e) => binary_result(heap@, a@, b@, *opcode) == Err::<OutcomeView, ErrorView>(e@),
        },
{
    match opcode {
        BinaryOp::Equal => evaluate_equality(heap, a, b, true),
        BinaryOp::NotEqual => evaluate_equality(heap, a, b, false),
        _ => {
            let (ty, op) = split_opcode(opcode);
            if !kind_is(&a, &ty) || !kind_is(&b, &ty) {
                return Err(
                    runtime_error("VM execution invariant broken: unsupported binary op"),
                );
            }
            match (a.as_integer(), b.as_integer()) {
                (Some(l), Some(r)) => match evaluate_integers(op, &ty, l, r) {
                    Ok(v) => Ok(Outcome::Value(v)),
                    Err(e) => Err(e),
                },
                _ => match op {
                    BinOp::Add | BinOp::Sub | BinOp::Mul | BinOp::Div | BinOp::Mod => Ok(
                        Outcome::Float(
                            FloatRequest::Binary {
                                op,
                                left: widen(a),
                                right: widen(b),
                                result: ty,
                            },
                        ),
                    ),
                    BinOp::Lt | BinOp::Le | BinOp::Gt | BinOp::Ge => Ok(
                        Outcome::Float(
                            FloatRequest::Binary {
                                op,
                                left: widen(a),
                                right: widen(b),
                                result: Type::Bool,
                            },
                        ),
                    ),
                    _ => Err(runtime_error("VM float operator invariant broken")),
                },
            }
        },
    }
}

/// The result of a unary operator.
pub open spec fn unary_result(a: ValueView, op: UnOp, t: TypeView) -> Result<OutcomeView, ErrorView> {
    let unsupported = Err(
        ErrorView::Runtime("VM execution invariant broken: unsupported unary op"@),
    );
    match op {
        UnOp::Neg => if t is U8 || t is U16 || t is U32 || t is U64 {
            Err(ErrorView::Runtime("cannot negate unsigned integer"@))
        } else if !numeric_type(t) || !is_kind(a, t) {
            unsupported
        } else if integer_type(t) {
            value_outcome(checked(t, -int_of(a).unwrap(), "negation overflow"@))
        } else {
            Ok(OutcomeView::Float(FloatView::Negate { value: widened(a), result: t }))
        },
        UnOp::Not => match a {
            ValueView::Bool(b) => Ok(OutcomeView::Value(ValueView::Bool(!b))),
            _ => unsupported,
        },
    }
}

pub fn evaluate_unary(a: Value, op: &UnOp, ty: &Type) -> (r: Result<Outcome, Error>)
    ensures
        match r {
            Ok(o) => unary_result(a@, *op, ty@) == Ok::<OutcomeView, ErrorView>(o@),
            Err(e) => unary_result(a@, *op, ty@) == Err::<OutcomeView, ErrorView>(e@),
        },
{
    match op {
        UnOp::Neg => {
            if matches!(ty, Type::U8 | Type::U16 | Type::U32 | Type::U64) {
                return Err(runtime_error("cannot negate unsigned integer"));
            }
            if !crate::types::is_numeric(ty) || !kind_is(&a, ty) {
                return Err(
                    runtime_error("VM execution invariant broken: unsupported unary op"),
                );
            }
            match a.as_integer() {
                Some(n) => match integer_result(ty, -n, "negation overflow") {
                    Ok(v) => Ok(Outcome::Value(v)),
                    Err(e) => Err(e),
                },
                None => Ok(
                    Outcome::Float(FloatRequest::Negate { value: widen(a), result: ty.clone() }),
                ),
            }
        },
        UnOp::Not => match a {
            Value::Bool(b) => Ok(Outcome::Value(Value::Bool(!b))),
            _ => Err(runtime_error("VM execution invariant broken: unsupported unary op")),
        },
    }
}

/// Whether a built-in function takes one float.
pub open spec fn is_float_function(f: BuiltinFn) -> bool {
    f is Sqrt || f is Sin || f is Cos || f is Tan || f is Asin || f is Acos || f is Atan
        || f is Floor || f is Ceil || f is Round
}

/// The result of a built-in function of one argument.
pub open spec fn builtin1_result(f: BuiltinFn, a: ValueView) -> Result<OutcomeView, ErrorView> {
    let t = type_of(a);
    if f is Abs {
        match int_of(a) {
            Some(n) => value_outcome(
                checked(
                    t,
                    if n < 0 {
                        -n
                    } else {
                        n
                    },
                    "abs overflow"@,
                ),
            ),
            None => if is_float_value(a) {
                Ok(
                    OutcomeView::Float(
                        FloatView::Unary { function: f, argument: widened(a), result: t },
                    ),
                )
            } else {
                Err(ErrorView::Runtime("invalid type for abs"@))
            },
        }
    } else if !is_float_value(a) {
        Err(ErrorView::Runtime("built-in requires a float"@))
    } else if is_float_function(f) {
        Ok(OutcomeView::Float(FloatView::Unary { function: f, argument: widened(a), result: t }))
    } else {
        Err(ErrorView::Runtime("invalid unary built-in"@))
    }
}

pub fn evaluate_builtin1(builtin: BuiltinFn, arg: Value) -> (r: Result<Outcome, Error>)
    ensures
        match r {
            Ok(o) => builtin1_result(builtin, arg@) == Ok::<OutcomeView, ErrorView>(o@),
            Err(e) => builtin1_result(builtin, arg@) == Err::<OutcomeView, ErrorView>(e@),
        },
{
    let ty = arg.ty();
    if matches!(builtin, BuiltinFn::Abs) {
        return match arg.as_integer() {
            Some(n) => {
                let magnitude: i128 = if n < 0 {
                    -n
                } else {
                    n
                };
                match integer_result(&ty, magnitude, "abs overflow") {
                    Ok(v) => Ok(Outcome::Value(v)),
                    Err(e) => Err(e),
                }
            },
            None => if float_value_is(&arg) {
                Ok(
                    Outcome::Float(
                        FloatRequest::Unary {
                            function: builtin,
                            argument: widen(arg),
                            result: ty,
                        },
                    ),
                )
            } else {
                Err(runtime_error("invalid type for abs"))
            },
        };
    }
    if !float_value_is(&arg) {
        return Err(runtime_error("built-in requires a float"));
    }
    match builtin {
        BuiltinFn::Sqrt | BuiltinFn::Sin | BuiltinFn::Cos | BuiltinFn::Tan | BuiltinFn::Asin
        | BuiltinFn::Acos | BuiltinFn::Atan | BuiltinFn::Floor | BuiltinFn::Ceil
        | BuiltinFn::Round => Ok(
            Outcome::Float(
                FloatRequest::Unary { function: builtin, argument: widen(arg), result: ty },
            ),
        ),
        _ => Err(runtime_error("invalid unary built-in")),
    }
}

/// The power of an integer, where the exponent and the result have a place.
pub open spec fn int_power(t: TypeView, l: int, r: int) -> Result<ValueView, ErrorView> {
    if !(0 <= r <= u32::MAX) {
        Err(ErrorView::Runtime("pow exponent out of bounds for int"@))
    } else {
        checked(t, pow(l, r as nat), "pow overflow"@)
    }
}

/// The computation for a function of two floats.
pub open spec fn float_pair(f: BuiltinFn, a: ValueView, b: ValueView) -> OutcomeView {
    OutcomeView::Float(
        FloatView::Pair {
            function: f,
            left: widened(a),
            right: widened(b),
            result: type_of(a),
        },
    )
}

/// The result of a built-in function of two arguments.
pub open spec fn builtin2_result(
    f: BuiltinFn,
    a: ValueView,
    b: ValueView,
    t: TypeView,
) -> Result<OutcomeView, ErrorView> {
    let same = type_of(a) == type_of(b);
    let floats = same && is_float_value(a) && is_float_value(b);
    if f is Min || f is Max {
        match (int_of(a), int_of(b)) {
            (Some(l), Some(r)) => if !same {
                Err(ErrorView::Runtime("invalid type for min/max"@))
            } else if (f is Min && l < r) || (f is Max && l > r) {
                Ok(OutcomeView::Value(a))
            } else {
                Ok(OutcomeView::Value(b))
            },
            _ => if floats {
                Ok(float_pair(f, a, b))
            } else {
                Err(ErrorView::Runtime("invalid type for min/max"@))
            },
        }
    } else if f is Pow && integer_type(t) && is_kind(a, t) && is_kind(b, t) {
        value_outcome(int_power(t, int_of(a).unwrap(), int_of(b).unwrap()))
    } else if !floats {
        Err(ErrorView::Runtime("built-in requires matching floats"@))
    } else if f is Pow || f is Atan2 {
        Ok(float_pair(f, a, b))
    } else {
        Err(ErrorView::Runtime("invalid binary built-in"@))
    }
}

proof fn lemma_pow_step(b: int, n: nat)
    ensures
        pow(b, n + 1) == pow(b, n) * b,
{
    vstd::arithmetic::power::lemma_pow_adds(b, n, 1);
    lemma_pow1(b);
}

/// Once a power has left an integer type, no higher power comes back.
proof fn lemma_power_leaves(t: TypeView, b: int, n: nat, e: nat)
    requires
        integer_type(t),
        in_int_bounds(t, b),
        b >= 2 || b <= -2,
        !in_int_bounds(t, pow(b, n)),
        n <= e,
        b < 0 ==> signed_type(t),
    ensures
        !in_int_bounds(t, pow(b, e)),
        pow(b, n) > int_bounds(t).1 || -pow(b, n) > int_bounds(t).1,
    decreases e - n,
{
    let p = pow(b, n);
    if n < e {
        lemma_pow_step(b, n);
        assert(pow(b, n + 1) == p * b);
        if p >= 0 {
            assert(p * b >= 2 * p || p * b <= -2 * p) by (nonlinear_arith)
                requires
                    p >= 0,
                    b >= 2 || b <= -2,
            ;
        } else {
            assert(p * b <= 2 * p || p * b >= -2 * p) by (nonlinear_arith)
                requires
                    p < 0,
                    b >= 2 || b <= -2,
            ;
        }
        if b > 0 {
            lemma_power_positive(b, n);
            assert(p * b >= 2 * p) by (nonlinear_arith)
                requires
                    p >= 0,
                    b >= 2,
            ;
        }
        lemma_power_leaves(t, b, n + 1, e);
    }
    if b > 0 {
        lemma_power_positive(b, n);
    }
}

proof fn lemma_power_positive(b: int, n: nat)
    requires
        b > 0,
    ensures
        pow(b, n) > 0,
{
    vstd::arithmetic::power::lemma_pow_positive(b, n);
}

proof fn lemma_small_powers(b: int, e: nat)
    ensures
        b == 0 && e > 0 ==> pow(b, e) == 0,
        b == 1 ==> pow(b, e) == 1,
        b == -1 ==> pow(b, e) == if e % 2 == 0 {
            1int
        } else {
            -1int
        },
    decreases e,
{
    if e > 0 {
        lemma_small_powers(b, (e - 1) as nat);
        lemma_pow_step(b, (e - 1) as nat);
    } else {
        lemma_pow0(b);
    }
}

fn integer_power(ty: &Type, base: i128, exponent: i128) -> (r: Result<Value, Error>)
    requires
        integer_type(ty@),
        in_int_bounds(ty@, base as int),
    ensures
        match r {
            Ok(v) => int_power(ty@, base as int, exponent as int) == Ok::<ValueView, ErrorView>(v@),
            Err(e) => int_power(ty@, base as int, exponent as int) == Err::<ValueView, ErrorView>(
                e@,
            ),
        },
{
    if exponent < 0 || exponent > 0xffff_ffff {
        return Err(runtime_error("pow exponent out of bounds for int"));
    }
    let e: u32 = exponent as u32;
    proof {
        lemma_small_powers(base as int, e as nat);
        lemma_pow0(base as int);
    }
    if e == 0 {
        return integer_result(ty, 1, "pow overflow");
    }
    if base == 0 {
        return integer_result(ty, 0, "pow overflow");
    }
    if base == 1 {
        return integer_result(ty, 1, "pow overflow");
    }
    if base == -1 {
        return integer_result(
            ty,
            if e % 2 == 0 {
                1
            } else {
                -1
            },
            "pow overflow",
        );
    }
    let mut power: i128 = 1;
    let mut n: u32 = 0;
    while n < e
        invariant
            n <= e,
            power == pow(base as int, n as nat),
            n > 0 ==> in_int_bounds(ty@, power as int),
            n == 0 ==> power == 1,
            integer_type(ty@),
            in_int_bounds(ty@, base as int),
            base >= 2 || base <= -2,
            exponent == e,
            0 <= exponent <= u32::MAX,
        decreases e - n,
    {
        proof {
            lemma_pow_step(base as int, n as nat);
        }
        let next: Option<i128> = power.checked_mul(base);
        match next {
            Some(p) => {
                if !fits(ty, p) {
                    proof {
                        lemma_power_leaves(ty@, base as int, (n + 1) as nat, e as nat);
                    }
                    return Err(runtime_error("pow overflow"));
                }
                power = p;
            },
            None => {
                proof {
                    lemma_power_leaves(ty@, base as int, (n + 1) as nat, e as nat);
                }
                return Err(runtime_error("pow overflow"));
            },
        }
        n += 1;
    }
    integer_result(ty, power, "pow overflow")
}

pub fn evaluate_builtin2(
    builtin: BuiltinFn,
    a: Value,
    b: Value,
    ty: &Type,
) -> (r: Result<Outcome, Error>)
    ensures
        match r {
            Ok(o) => builtin2_result(builtin, a@, b@, ty@) == Ok::<OutcomeView, ErrorView>(o@),
            Err(e) => builtin2_result(builtin, a@, b@, ty@) == Err::<OutcomeView, ErrorView>(e@),
        },
{
    let ta = a.ty();
    let tb = b.ty();
    let same: bool = ta.same(&tb);
    let floats: bool = same && float_value_is(&a) && float_value_is(&b);
    if matches!(builtin, BuiltinFn::Min | BuiltinFn::Max) {
        return match (a.as_integer(), b.as_integer()) {
            (Some(l), Some(r)) => if !same {
                Err(runtime_error("invalid type for min/max"))
            } else if (matches!(builtin, BuiltinFn::Min) && l < r) || (matches!(
                builtin,
                BuiltinFn::Max
            ) && l > r) {
                Ok(Outcome::Value(a))
            } else {
                Ok(Outcome::Value(b))
            },
            _ => if floats {
                Ok(
                    Outcome::Float(
                        FloatRequest::Pair {
                            function: builtin,
                            left: widen(a),
                            right: widen(b),
                            result: ta,
                        },
                    ),
                )
            } else {
                Err(runtime_error("invalid type for min/max"))
            },
        };
    }
    if matches!(builtin, BuiltinFn::Pow) && is_integer(ty) && kind_is(&a, ty) && kind_is(&b, ty) {
        if let (Some(l), Some(r)) = (a.as_integer(), b.as_integer()) {
            return match integer_power(ty, l, r) {
                Ok(v) => Ok(Outcome::Value(v)),
                Err(e) => Err(e),
            };
        }
    }
    if !floats {
        return Err(runtime_error("built-in requires matching floats"));
    }
    match builtin {
        BuiltinFn::Pow | BuiltinFn::Atan2 => Ok(
            Outcome::Float(
                FloatRequest::Pair {
                    function: builtin,
                    left: widen(a),
                    right: widen(b),
                    result: ta,
                },
            ),
        ),
        _ => Err(runtime_error("invalid binary built-in")),
    }
}

/// A number as a value of another numeric type: integers wrap around.
pub open spec fn cast_result(v: ValueView, target: TypeView) -> Result<OutcomeView, ErrorView> {
    match int_of(v) {
        Some(n) => if integer_type(target) {
            Ok(OutcomeView::Value(int_in(target, wrapped(target, n))))
        } else if numeric_type(target) {
            Ok(OutcomeView::Float(FloatView::Cast { value: v, target }))
        } else {
            Err(ErrorView::Runtime("invalid cast target"@))
        },
        None => if !is_float_value(v) {
            Err(ErrorView::Runtime("invalid cast source"@))
        } else if numeric_type(target) {
            Ok(OutcomeView::Float(FloatView::Cast { value: widened(v), target }))
        } else {
            Err(ErrorView::Runtime("invalid cast target"@))
        },
    }
}

pub fn cast_numeric(val: Value, target_ty: &Type) -> (r: Result<Outcome, Error>)
    ensures
        match r {
            Ok(o) => cast_result(val@, target_ty@) == Ok::<OutcomeView, ErrorView>(o@),
            Err(e) => cast_result(val@, target_ty@) == Err::<OutcomeView, ErrorView>(e@),
        },
{
    match val.as_integer() {
        Some(n) => if is_integer(target_ty) {
            Ok(Outcome::Value(make_integer(target_ty, wrap(target_ty, n))))
        } else if crate::types::is_numeric(target_ty) {
            Ok(Outcome::Float(FloatRequest::Cast { value: val, target: target_ty.clone() }))
        } else {
            Err(runtime_error("invalid cast target"))
        },
        None => if !float_value_is(&val) {
            Err(runtime_error("invalid cast source"))
        } else if crate::types::is_numeric(target_ty) {
            Ok(
                Outcome::Float(
                    FloatRequest::Cast { value: widen(val), target: target_ty.clone() },
                ),
            )
        } else {
            Err(runtime_error("invalid cast target"))
        },
    }
}

/// A cast to an integer type that holds the number keeps it.
pub proof fn cast_keeps_fitting_numbers(v: ValueView, target: TypeView)
    requires
        int_of(v) is Some,
        integer_type(target),
        in_int_bounds(target, int_of(v).unwrap()),
    ensures
        cast_result(v, target) == Ok::<OutcomeView, ErrorView>(
            OutcomeView::Value(int_in(target, int_of(v).unwrap())),
        ),
{
    let n = int_of(v).unwrap();
    let m = modulus(size_of_type(target).unwrap());
    if n >= 0 {
        vstd::arithmetic::div_mod::lemma_small_mod(n as nat, m as nat);
    } else {
        vstd::arithmetic::div_mod::lemma_fundamental_div_mod_converse(n, m, -1, n + m);
    }
}

/// A cast to an integer type and back to a type of the same size gives the
/// value back.
pub proof fn cast_between_signs_round_trips(v: ValueView, target: TypeView)
    requires
        int_of(v) is Some,
        integer_type(type_of(v)),
        integer_type(target),
        size_of_type(target) == size_of_type(type_of(v)),
    ensures
        ({
            let there = int_in(target, wrapped(target, int_of(v).unwrap()));
            cast_result(there, type_of(v)) == Ok::<OutcomeView, ErrorView>(OutcomeView::Value(v))
        }),
{
    let t = type_of(v);
    let n = int_of(v).unwrap();
    let m = modulus(size_of_type(target).unwrap());
    let u = n % m;
    if n >= 0 {
        vstd::arithmetic::div_mod::lemma_small_mod(n as nat, m as nat);
    } else {
        vstd::arithmetic::div_mod::lemma_fundamental_div_mod_converse(n, m, -1, n + m);
    }
    let w = wrapped(target, n);
    assert(in_int_bounds(target, w));
    if w >= 0 {
        vstd::arithmetic::div_mod::lemma_small_mod(w as nat, m as nat);
    } else {
        vstd::arithmetic::div_mod::lemma_fundamental_div_mod_converse(w, m, -1, w + m);
    }
}

} // verus!
