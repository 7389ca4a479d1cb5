//! Operators and built-in functions.
use vstd::prelude::*;
use crate::text::text_eq;

verus! {

#[derive(Clone, Copy, Debug, PartialEq, Eq, Structural)]
pub enum BinOp {
    Add,
    Sub,
    Mul,
    Div,
    Mod,
    Eq,
    Neq,
    Lt,
    Le,
    Gt,
    Ge,
    And,
    Or,
    BitAnd,
    BitOr,
    BitXor,
    Shl,
    Shr,
}

#[derive(Clone, Copy, Debug, PartialEq, Eq, Structural)]
pub enum UnOp {
    Neg,
    Not,
}

/// A binary operator with the type of its operands.
#[derive(Clone, Copy, Debug, PartialEq, Eq, Structural)]
pub enum BinaryOp {
    I8(BinOp),
    I16(BinOp),
    I32(BinOp),
    I64(BinOp),
    U8(BinOp),
    U16(BinOp),
    U32(BinOp),
    U64(BinOp),
    F16(BinOp),
    BF16(BinOp),
    F32(BinOp),
    F64(BinOp),
    Equal,
    NotEqual,
}

#[derive(Clone, Copy, Debug, PartialEq, Eq, Structural)]
pub enum BuiltinFn {
    Sqrt,
    Sin,
    Cos,
    Tan,
    Asin,
    Acos,
    Atan,
    Floor,
    Ceil,
    Round,
    Abs,
    Pow,
    Min,
    Max,
    Atan2,
}

#[derive(Clone, Copy, Debug, PartialEq, Eq, Structural)]
pub enum TensorInit {
    Zeros,
    Random,
}

/// The built-in function of one argument with a name.
pub open spec fn unary_builtin(name: Seq<char>) -> Option<BuiltinFn> {
    if name == "sqrt"@ {
        Some(BuiltinFn::Sqrt)
    } else if name == "sin"@ {
        Some(BuiltinFn::Sin)
    } else if name == "cos"@ {
        Some(BuiltinFn::Cos)
    } else if name == "tan"@ {
        Some(BuiltinFn::Tan)
    } else if name == "asin"@ {
        Some(BuiltinFn::Asin)
    } else if name == "acos"@ {
        Some(BuiltinFn::Acos)
    } else if name == "atan"@ {
        Some(BuiltinFn::Atan)
    } else if name == "floor"@ {
        Some(BuiltinFn::Floor)
    } else if name == "ceil"@ {
        Some(BuiltinFn::Ceil)
    } else if name == "round"@ {
        Some(BuiltinFn::Round)
    } else if name == "abs"@ {
        Some(BuiltinFn::Abs)
    } else {
        None
    }
}

/// The built-in function of two arguments with a name.
pub open spec fn binary_builtin(name: Seq<char>) -> Option<BuiltinFn> {
    if name == "pow"@ {
        Some(BuiltinFn::Pow)
    } else if name == "min"@ {
        Some(BuiltinFn::Min)
    } else if name == "max"@ {
        Some(BuiltinFn::Max)
    } else if name == "atan2"@ {
        Some(BuiltinFn::Atan2)
    } else {
        None
    }
}

impl BuiltinFn {
    pub fn unary(name: &str) -> (r: Option<Self>)
        ensures
            r == unary_builtin(name@),
    {
        if text_eq(name, "sqrt") {
            Some(BuiltinFn::Sqrt)
        } else if text_eq(name, "sin") {
            Some(BuiltinFn::Sin)
        } else if text_eq(name, "cos") {
            Some(BuiltinFn::Cos)
        } else if text_eq(name, "tan") {
            Some(BuiltinFn::Tan)
        } else if text_eq(name, "asin") {
            Some(BuiltinFn::Asin)
        } else if text_eq(name, "acos") {
            Some(BuiltinFn::Acos)
        } else if text_eq(name, "atan") {
            Some(BuiltinFn::Atan)
        } else if text_eq(name, "floor") {
            Some(BuiltinFn::Floor)
        } else if text_eq(name, "ceil") {
            Some(BuiltinFn::Ceil)
        } else if text_eq(name, "round") {
            Some(BuiltinFn::Round)
        } else if text_eq(name, "abs") {
            Some(BuiltinFn::Abs)
        } else {
            None
        }
    }

    pub fn binary(name: &str) -> (r: Option<Self>)
        ensures
            r == binary_builtin(name@),
    {
        if text_eq(name, "pow") {
            Some(BuiltinFn::Pow)
        } else if text_eq(name, "min") {
            Some(BuiltinFn::Min)
        } else if text_eq(name, "max") {
            Some(BuiltinFn::Max)
        } else if text_eq(name, "atan2") {
            Some(BuiltinFn::Atan2)
        } else {
            None
        }
    }
}

/// How an operator is written in messages.
pub open spec fn op_text(op: BinOp) -> Seq<char> {
    match op {
        BinOp::Add => "Add"@,
        BinOp::Sub => "Sub"@,
        BinOp::Mul => "Mul"@,
        BinOp::Div => "Div"@,
        BinOp::Mod => "Mod"@,
        BinOp::Eq => "Eq"@,
        BinOp::Neq => "Neq"@,
        BinOp::Lt => "Lt"@,
        BinOp::Le => "Le"@,
        BinOp::Gt => "Gt"@,
        BinOp::Ge => "Ge"@,
        BinOp::And => "And"@,
        BinOp::Or => "Or"@,
        BinOp::BitAnd => "BitAnd"@,
        BinOp::BitOr => "BitOr"@,
        BinOp::BitXor => "BitXor"@,
        BinOp::Shl => "Shl"@,
        BinOp::Shr => "Shr"@,
    }
}

impl BinOp {
    pub fn to_text(self) -> (r: &'static str)
        ensures
            r@ == op_text(self),
    {
        match self {
            BinOp::Add => "Add",
            BinOp::Sub => "Sub",
            BinOp::Mul => "Mul",
            BinOp::Div => "Div",
            BinOp::Mod => "Mod",
            BinOp::Eq => "Eq",
            BinOp::Neq => "Neq",
            BinOp::Lt => "Lt",
            BinOp::Le => "Le",
            BinOp::Gt => "Gt",
            BinOp::Ge => "Ge",
            BinOp::And => "And",
            BinOp::Or => "Or",
            BinOp::BitAnd => "BitAnd",
            BinOp::BitOr => "BitOr",
            BinOp::BitXor => "BitXor",
            BinOp::Shl => "Shl",
            BinOp::Shr => "Shr",
        }
    }
}

} // verus!
