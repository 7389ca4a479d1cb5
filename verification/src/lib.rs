//! L0: a small, statically typed language with a stack bytecode machine.
//!
//! A source text goes through [`lexer::lex`], [`parser::Parser`] and
//! [`compiler::Compiler`] to [`code::FlatBytecode`], which a [`vm::Vm`] runs.
//! The machine never touches the outside world. When a program needs a line of
//! input, a floating-point operation or a host function, the machine stops with
//! an [`instance::Request`] and goes on once it has been given an
//! [`instance::Answer`].
//!
//! What the stages compute is stated apart from how they compute it:
//! [`grammar`] says what a token sequence means, [`codegen`] which code a
//! program has, and [`semantics`] what an instruction does. What follows from them
//! for all programs stands in modules of its own: [`word_laws`],
//! [`grammar_laws`] and [`statement_laws`] for what is read, [`code_laws`],
//! [`slot_laws`], [`expr_laws`] and [`rule_laws`] for what is compiled, [`flow_laws`],
//! [`run_laws`], [`number_laws`], [`object_laws`], [`text_laws`] and
//! [`collection_laws`] for what is run, and [`call_laws`] and [`host_laws`] for
//! modules and host functions.

pub mod text;
pub mod types;
pub mod views;
pub mod value;
pub mod heap;
pub mod scalar;
pub mod ops;
pub mod numeric;
pub mod lexer;
pub mod ast;
pub mod grammar;
pub mod parser;
pub mod code;
pub mod ir;
pub mod codegen;
pub mod refusals;
pub mod compiler;
pub mod format;
pub mod instance;
pub mod semantics;
pub mod ext;
pub mod keys;
pub mod instructions;
pub mod machine;
pub mod vm;
pub mod modules;
pub mod program;
pub mod ffi;
pub mod host;
pub mod sample;
pub mod tensors;
pub mod tokens;
pub mod bridge;
pub mod direct;
pub mod model;
pub mod candle;
pub mod rope;
pub mod norm;
pub mod code_laws;
pub mod collection_laws;
pub mod run_laws;
pub mod number_laws;
pub mod text_laws;
pub mod grammar_laws;
pub mod slot_laws;
pub mod flow_laws;
pub mod object_laws;
pub mod statement_laws;
pub mod word_laws;
pub mod expr_laws;
pub mod host_laws;
pub mod call_laws;
pub mod rule_laws;

pub use crate::types::{
    Error, SourceLocation, Type, is_integer, is_numeric, scalar_size, type_size,
    types_compatible,
};
pub use crate::value::{
    HeapRef, StructField, StructLayout, TableKey, Value, int_value, integer_to_usize,
    table_key_display,
};
pub use crate::heap::{Heap, HeapObject, HeapSlot};
pub use crate::scalar::{decode_scalar, encode_scalar, write_scalar};
pub use crate::ops::{BinOp, BinaryOp, BuiltinFn, TensorInit, UnOp};
pub use crate::numeric::{
    bf16_to_f32, cast_numeric, evaluate_binary, evaluate_builtin1, evaluate_builtin2,
    evaluate_unary,
};
pub use crate::lexer::{LexedTokens, SpannedToken, StringId, StringInterner, Token, lex};
pub use crate::ast::{Expr, MethodReceiver, Statement, StructMethod, TableLiteralKey};
pub use crate::parser::Parser;
pub use crate::code::{Constant, FlatBytecode, ModuleArtifact, ModuleExport, TableEntry};
pub use crate::ir::{DecodedOp, IrOp, Opcode};
pub use crate::compiler::{Compiler, DestructorLocal, HostSignature, LoopContext, ScopeContext};
pub use crate::instance::{ActiveDestructor, ExternalFunction, ModuleInstance, RegisteredExternal};
pub use crate::instructions::table_key_from_value;
pub use crate::vm::Vm;
pub use crate::program::{
    execute, execute_file, execute_interactive, execute_interactive_file, execute_with_input,
};
pub use crate::ffi::{FfiCall, L0State, L0TypeId};
