use std::rc::Rc;

use l0::compiler::{Compiler, export_named};
use l0::code::ModuleExport;
use l0::heap::{Heap, HeapObject};
use l0::instance::{Answer, ExternalFunction, Request};
use l0::instructions::TensorBytes;
use l0::lexer::{Token, lex};
use l0::numeric::FloatRequest;
use l0::ops::{BinOp, BuiltinFn, TensorInit};
use l0::parser::Parser;
use l0::program;
use l0::scalar::{decode_scalar, encode_scalar};
use l0::types::{Error, SourceLocation, Type};
use l0::value::{HeapRef, TableKey, Value};
use l0::views::Dict;
use l0::vm::Vm;

fn single(value: &Value) -> f32 {
    match value {
        Value::F16(bits) => half::f16::from_bits(*bits).to_f32(),
        Value::BF16(bits) => half::bf16::from_bits(*bits).to_f32(),
        Value::F32(bits) => f32::from_bits(*bits),
        _ => panic!("not a single-precision value"),
    }
}

fn rounded(n: f32, ty: &Type) -> Value {
    match ty {
        Type::F16 => Value::F16(half::f16::from_f32(n).to_bits()),
        Type::BF16 => Value::BF16(half::bf16::from_f32(n).to_bits()),
        Type::F32 => Value::F32(n.to_bits()),
        _ => panic!("not a single-precision type"),
    }
}

fn from_double(n: f64, ty: &Type) -> Value {
    match ty {
        Type::F64 => Value::F64(n.to_bits()),
        _ => rounded(n as f32, ty),
    }
}

fn as_double(value: &Value) -> f64 {
    match value {
        Value::F64(bits) => f64::from_bits(*bits),
        _ => single(value) as f64,
    }
}

fn arithmetic(op: &BinOp, l: f64, r: f64) -> f64 {
    match op {
        BinOp::Add => l + r,
        BinOp::Sub => l - r,
        BinOp::Mul => l * r,
        BinOp::Div => l / r,
        _ => l % r,
    }
}

fn unary_single(function: &BuiltinFn, n: f32) -> f32 {
    match function {
        BuiltinFn::Sqrt => n.sqrt(),
        BuiltinFn::Sin => n.sin(),
        BuiltinFn::Cos => n.cos(),
        BuiltinFn::Tan => n.tan(),
        BuiltinFn::Asin => n.asin(),
        BuiltinFn::Acos => n.acos(),
        BuiltinFn::Atan => n.atan(),
        BuiltinFn::Floor => n.floor(),
        BuiltinFn::Ceil => n.ceil(),
        BuiltinFn::Round => n.round(),
        BuiltinFn::Abs => n.abs(),
        other => panic!("{other:?} takes two numbers"),
    }
}

fn unary_double(function: &BuiltinFn, n: f64) -> f64 {
    match function {
        BuiltinFn::Sqrt => n.sqrt(),
        BuiltinFn::Sin => n.sin(),
        BuiltinFn::Cos => n.cos(),
        BuiltinFn::Tan => n.tan(),
        BuiltinFn::Asin => n.asin(),
        BuiltinFn::Acos => n.acos(),
        BuiltinFn::Atan => n.atan(),
        BuiltinFn::Floor => n.floor(),
        BuiltinFn::Ceil => n.ceil(),
        BuiltinFn::Round => n.round(),
        BuiltinFn::Abs => n.abs(),
        other => panic!("{other:?} takes two numbers"),
    }
}

fn unary(function: &BuiltinFn, argument: &Value, result: &Type) -> Value {
    match argument {
        Value::F64(bits) => from_double(unary_double(function, f64::from_bits(*bits)), result),
        _ => rounded(unary_single(function, single(argument)), result),
    }
}

fn chosen<T: PartialOrd>(function: &BuiltinFn, l: T, r: T) -> T {
    let left = if *function == BuiltinFn::Min { l < r } else { l > r };
    if left {
        l
    } else {
        r
    }
}

fn pair(function: &BuiltinFn, left: &Value, right: &Value, result: &Type) -> Value {
    match (left, right) {
        (Value::F64(l), Value::F64(r)) => {
            let (l, r) = (f64::from_bits(*l), f64::from_bits(*r));
            let n = match function {
                BuiltinFn::Pow => l.powf(r),
                BuiltinFn::Atan2 => l.atan2(r),
                _ => chosen(function, l, r),
            };
            from_double(n, result)
        }
        _ => {
            let (l, r) = (single(left), single(right));
            let n = match function {
                BuiltinFn::Pow => l.powf(r),
                BuiltinFn::Atan2 => l.atan2(r),
                _ => chosen(function, l, r),
            };
            rounded(n, result)
        }
    }
}

fn negated(value: &Value, result: &Type) -> Value {
    match value {
        Value::F64(bits) => from_double(-f64::from_bits(*bits), result),
        _ => rounded(-single(value), result),
    }
}

fn cast(value: &Value, target: &Type) -> Value {
    if let Some(n) = value.as_integer() {
        return match target {
            Type::F64 => Value::F64((n as f64).to_bits()),
            _ => rounded(n as f32, target),
        };
    }
    let n = as_double(value);
    match target {
        Type::I8 => Value::I8(n as i8),
        Type::I16 => Value::I16(n as i16),
        Type::I32 => Value::I32(n as i32),
        Type::I64 => Value::I64(n as i64),
        Type::U8 => Value::U8(n as u8),
        Type::U16 => Value::U16(n as u16),
        Type::U32 => Value::U32(n as u32),
        Type::U64 => Value::U64(n as u64),
        _ => from_double(n, target),
    }
}

fn compute(request: &FloatRequest) -> Answer {
    match request {
        FloatRequest::Binary { op, left, right, result } => {
            let (l, r) = (as_double(left), as_double(right));
            let double = matches!(left, Value::F64(_));
            let value = match op {
                BinOp::Lt => Value::Bool(l < r),
                BinOp::Le => Value::Bool(l <= r),
                BinOp::Gt => Value::Bool(l > r),
                BinOp::Ge => Value::Bool(l >= r),
                BinOp::Eq => Value::Bool(l == r),
                BinOp::Neq => Value::Bool(l != r),
                _ if double => from_double(arithmetic(op, l, r), result),
                _ => {
                    let (l, r) = (single(left), single(right));
                    let n = match op {
                        BinOp::Add => l + r,
                        BinOp::Sub => l - r,
                        BinOp::Mul => l * r,
                        BinOp::Div => l / r,
                        _ => l % r,
                    };
                    rounded(n, result)
                }
            };
            Answer::Value(value)
        }
        FloatRequest::Negate { value, result } => Answer::Value(negated(value, result)),
        FloatRequest::Unary { function, argument, result } => {
            Answer::Value(unary(function, argument, result))
        }
        FloatRequest::Pair { function, left, right, result } => {
            Answer::Value(pair(function, left, right, result))
        }
        FloatRequest::Cast { value, target } => Answer::Value(cast(value, target)),
        FloatRequest::Parse { text, ty } => match text.parse::<f64>() {
            Ok(n) => Answer::Value(from_double(n, ty)),
            Err(_) => Answer::Refused,
        },
    }
}

fn written(value: &Value) -> String {
    match value {
        Value::F64(bits) => f64::from_bits(*bits).to_string(),
        _ => single(value).to_string(),
    }
}

fn reply(request: &Request) -> Answer {
    match request {
        Request::Float(float) => compute(float),
        Request::Texts(values) => Answer::Texts(values.iter().map(written).collect()),
        Request::Line => Answer::End,
        Request::Units { draws, element } => Answer::Units(
            draws.iter().map(|n| from_double(*n as f64 / (1u64 << 53) as f64, element)).collect(),
        ),
        Request::Host { name, .. } => panic!("no host function {name}"),
    }
}

fn finish(vm: &mut Vm) -> Result<Vec<String>, Error> {
    drive(vm, &mut |request, _| reply(request))
}

fn drive(
    vm: &mut Vm,
    host: &mut dyn FnMut(&Request, &Heap) -> Answer,
) -> Result<Vec<String>, Error> {
    loop {
        vm.advance(100_000);
        let answer = match vm.request() {
            Some(request) => Some(host(request, &vm.heap)),
            None => None,
        };
        match answer {
            Some(answer) => assert!(vm.resume(answer)),
            None => {
                if !vm.is_running() {
                    break;
                }
            }
        }
    }
    match vm.outcome.take() {
        Some(Err(error)) => Err(error),
        _ => Ok(vm.output().clone()),
    }
}

fn execute(source: &str) -> Result<Vec<String>, Error> {
    let mut vm = program::execute(source)?;
    finish(&mut vm)
}

fn run_on(vm: &mut Vm, source: &str) -> Result<Vec<String>, Error> {
    vm.execute(source)?;
    finish(vm)
}

const RAII_PROGRAM: &str = r#"
struct Guard { id: i32; function Guard() printf("drop {}", id) end }
struct Plain { id: i32; }
struct Worker { function work() end }
function Worker::work()
    let guard: Guard = Guard { id = 70 }
    printf("method body")
end
printf("RAII: declaration order")
if 1 == 1 then
    let first: Guard = Guard { id = 1 }
    let second: Guard = Guard { id = 2 }
    printf("block body")
end
printf("RAII: if then")
if 1 == 1 then let guard: Guard = Guard { id = 3 } else let guard: Guard = Guard { id = 0 } end
printf("RAII: if else")
if 1 == 2 then let guard: Guard = Guard { id = 0 } else let guard: Guard = Guard { id = 4 } end
printf("RAII: nested scopes")
if 1 == 1 then
    let outer: Guard = Guard { id = 5 }
    if 1 == 1 then let inner: Guard = Guard { id = 6 } end
end
printf("RAII: while fallthrough")
let w: i32 = 10
while w < 12 do
    let guard: Guard = Guard { id = w }
    w = w + 1
end
printf("RAII: while continue")
let c: i32 = 20
while c < 22 do
    c = c + 1
    let guard: Guard = Guard { id = c }
    continue
end
printf("RAII: while break")
while 1 == 1 do
    let guard: Guard = Guard { id = 30 }
    break
end
printf("RAII: nested break")
while 1 == 1 do
    let outer: Guard = Guard { id = 40 }
    if 1 == 1 then
        let inner: Guard = Guard { id = 41 }
        break
    end
end
printf("RAII: for fallthrough")
for i = 51, 52 do let guard: Guard = Guard { id = i } end
printf("RAII: for continue")
for i = 61, 62 do
    let guard: Guard = Guard { id = i }
    continue
end
printf("RAII: for break")
for i = 66, 68 do
    let guard: Guard = Guard { id = i }
    break
end
printf("RAII: method return")
let worker: Worker = Worker { }
worker.work()
printf("RAII: no destructor")
if 1 == 1 then
    let plain: Plain = Plain { id = 80 }
    print(plain.id)
end
printf("RAII scope tests completed")
"#;


#[test]
fn float_literals_cannot_claim_non_float_types() {
    assert!(matches!(execute("let value: i32 = 1.0"), Err(Error::Located { source, location: SourceLocation { line: 1, column: 18, .. } }) if matches!(*source, Error::Type(_))));
    assert!(matches!(execute("let value: bool = 1.0"), Err(Error::Located { source, location: SourceLocation { line: 1, column: 19, .. } }) if matches!(*source, Error::Type(_))));
}
#[test]
fn specialized_i32_addition_reports_overflow() {
    assert!(matches!(
        execute("let value: i32 = 2147483647; print(value + 1)"),
        Err(Error::Runtime(message)) if message == "addition overflow"
    ));
}
#[test]
fn unary_not_is_lexed_parsed_and_evaluated() {
    assert_eq!(execute("let no: bool = 1 == 0; print(!no)").unwrap(), vec!["true".to_owned()]);
}
#[test]
fn strings_compare_by_content() {
    assert_eq!(
        execute("let left: string = \"same\"; let right: string = \"same\"; print(left == right)").unwrap(),
        vec!["true".to_owned()]
    );
}
#[test]
fn block_locals_do_not_escape_or_consume_slots_forever() {
    assert!(matches!(
        execute("if 1 == 1 then let inner: i32 = 7 end print(inner)"),
        Err(Error::Located { source, location: SourceLocation { line: 1, column: 45, .. } }) if matches!(&*source, Error::Type(message) if message == "unknown name 'inner'")
    ));
    assert!(matches!(
        execute("for i = 1, 2 do let temporary: i32 = i end print(i)"),
        Err(Error::Located { source, location: SourceLocation { line: 1, column: 50, .. } }) if matches!(&*source, Error::Type(message) if message == "unknown name 'i'")
    ));
}
#[test]
fn scope_test_covers_all_normal_raii_exit_paths() {
    let expected = vec![
        "RAII: declaration order", "block body", "drop 2", "drop 1",
        "RAII: if then", "drop 3", "RAII: if else", "drop 4",
        "RAII: nested scopes", "drop 6", "drop 5",
        "RAII: while fallthrough", "drop 10", "drop 11",
        "RAII: while continue", "drop 21", "drop 22",
        "RAII: while break", "drop 30",
        "RAII: nested break", "drop 41", "drop 40",
        "RAII: for fallthrough", "drop 51", "drop 52",
        "RAII: for continue", "drop 61", "drop 62",
        "RAII: for break", "drop 66",
        "RAII: method return", "method body", "drop 70",
        "RAII: no destructor", "80", "RAII scope tests completed",
    ].into_iter().map(str::to_owned).collect::<Vec<_>>();
    let output = execute(RAII_PROGRAM).unwrap();
    let raii_start = output.iter().position(|line| line == "RAII: declaration order")
        .expect("scope test must reach the RAII section");
    assert_eq!(&output[raii_start..], expected);
}
#[test]
fn runtime_error_unwinds_live_structs_in_reverse_order() {
    let source = r#"
            struct CrashGuard {
                id: i32;
                function CrashGuard() print(id) end
            }
            struct Crasher { function fail() end }
            function Crasher::fail()
                let outer: CrashGuard = CrashGuard { id = 90 }
                if 1 == 1 then
                    let inner: CrashGuard = CrashGuard { id = 91 }
                    let zero: i32 = 0
                    print(1 / zero)
                end
            end
            let crasher: Crasher = Crasher { }
            crasher.fail()
        "#;
    let mut vm = Vm::default();
    assert!(matches!(run_on(&mut vm, source), Err(Error::Runtime(message)) if message.contains("division by zero")));
    assert_eq!(*vm.output(), ["91", "90"]);
    assert!(vm.active_destructors().is_empty());
}
#[test]
fn exported_function_drops_its_local_before_implicit_return() {
    let source = r#"
            struct ExportGuard {
                function ExportGuard() print(100) end
            }
            export function work()
                let guard: ExportGuard = ExportGuard { }
                print(101)
            end
        "#;
    let (program, strings) = Parser::new(lex(source).unwrap()).into_program().unwrap();
    let artifact = Compiler::default().with_strings(strings).compile_module("test-module".into(), program).unwrap();
    let Some(ModuleExport::Function { entry }) = export_named(&artifact.exports, &"work".to_string()) else { panic!("missing exported function") };
    let mut vm = Vm::default();
    vm.run_from(artifact.code.clone(), *entry, true);
    assert_eq!(finish(&mut vm).unwrap(), ["101", "100"]);
}
#[test]
fn destructor_cannot_accept_arguments() {
    assert!(matches!(
        execute("struct Invalid { function Invalid(value: i32) end }"),
        Err(Error::Located { source, .. }) if matches!(&*source, Error::Type(message) if message == "destructor 'Invalid' must not accept arguments")
    ));
}
#[test]
fn failed_initializer_does_not_register_or_destroy_a_partial_struct() {
    let source = r#"
            struct PartialGuard {
                id: i32;
                function PartialGuard() print(id) end
            }
            if 1 == 1 then
                let guard: PartialGuard = PartialGuard { id = 1 / 0 }
            end
        "#;
    let mut vm = Vm::default();
    assert!(matches!(run_on(&mut vm, source), Err(Error::Runtime(message)) if message.contains("division by zero")));
    assert!(vm.output().is_empty());
    assert!(vm.active_destructors().is_empty());
}
#[test]
fn methods_are_isolated_and_can_explicitly_access_globals() {
    let source = r#"
            let counter: i32 = 7
            struct Meter { value: i32; function advance() end }
            function Meter::advance()
                let step: i32 = 1
                ::counter = ::counter + step
                value = value + ::counter
            end
            let meter: Meter = Meter { value = 0 }
            meter.advance()
            print(meter.value)
            print(counter)
        "#;
    assert_eq!(execute(source).unwrap(), ["8", "8"]);
    assert!(matches!(
        execute("let counter: i32 = 7; struct Meter { value: i32; function read() print(counter) end }"),
        Err(Error::Located { source, .. }) if matches!(&*source, Error::Type(message) if message == "unknown name 'counter'")
    ));
}
#[test]
fn len_supports_all_sized_runtime_values() {
    assert_eq!(
        execute("let text: string = \"ёж\"; let map: table<i32> = table { a = 1, b = 2 }; print(len(text)); print(len(map))").unwrap(),
        vec!["2".to_owned(), "2".to_owned()]
    );
}
#[test]
fn packed_scalars_are_little_endian() {
    let mut bytes = Vec::new();
    encode_scalar(&Value::I32(0x0102_0304), &Type::I32, &mut bytes).unwrap();
    assert_eq!(bytes, [4, 3, 2, 1]);
    assert_eq!(decode_scalar(&bytes, 0, &Type::I32).unwrap(), Value::I32(0x0102_0304));
}
#[test]
fn queued_input_is_consumed_before_stdin() {
    let mut vm = Vm::default();
    vm.push_input("42".to_owned());
    assert_eq!(run_on(&mut vm, "let answer: i32 = input; print(answer)").unwrap(), vec!["42"]);
}
#[test]
fn public_input_helper_supports_strings_and_numbers() {
    assert_eq!(
        finish(&mut program::execute_with_input(
            "let label: string = input; let answer: i32 = input; print(label); print(answer)",
            vec!["ready".to_owned(), "42".to_owned()],
        ).unwrap()).unwrap(),
        vec!["ready", "42"],
    );
}
#[test]
fn tables_accept_string_keys_and_support_removal_and_iteration() {
    let source = r#"
            let map: table<i32> = table { ["alpha"] = 2, [7] = 3 };
            let name: string = "alpha";
            map[name] = 5;
            print(len(map));
            print(remove(map, name));
            print(len(map));
            let table_keys: table_keys = keys(map);
            for i = 0, len(table_keys) - 1 do
                let key: table_key = table_keys[i];
                print(map[key]);
            end
        "#;
    assert_eq!(execute(source).unwrap(), vec!["2", "true", "1", "3"]);
}
#[test]
fn printf_validates_arguments_and_brace_escapes() {
    assert_eq!(execute("printf(\"{{{}}}\", 7)").unwrap(), vec!["{7}"]);
    assert!(matches!(execute("printf(\"{}\", 7, 8)"), Err(Error::Runtime(message)) if message == "printf has more arguments than placeholders"));
    assert!(matches!(execute("printf(\"{\", 7)"), Err(Error::Runtime(message)) if message.contains("invalid '{' escape")));
}
#[test]
fn putc_rejects_invalid_unicode_scalars() {
    assert!(matches!(execute("putc(1114112)"), Err(Error::Runtime(message)) if message.contains("valid Unicode scalar")));
}
#[test]
fn zero_tensor_bytes_need_no_scalar_encoding() {
    let mut vm = Vm::default();
    let TensorBytes::Ready(bytes) = vm.instances[0].make_tensor_bytes(TensorInit::Zeros, &Type::I32, &vec![2, 3]).unwrap() else { panic!("zeros are not drawn") };
    assert_eq!(bytes, vec![0; 24]);
}

#[test]
fn stack_value_stays_within_three_machine_words() {
    // This protects the VM stack from a future metadata-bearing variant
    // accidentally turning every stack slot into a cache-line fragment.
    assert!(std::mem::size_of::<Value>() <= 3 * std::mem::size_of::<usize>());
}
#[test]
fn tensor_value_keeps_its_complete_static_type() {
    let ty = Rc::new(Type::Tensor(Box::new(Type::F32), 2));
    let value = Value::Tensor(HeapRef(0), ty);
    assert_eq!(value.ty(), Type::Tensor(Box::new(Type::F32), 2));
}
#[test]
fn garbage_collection_tracks_payload_bytes() {
    let mut heap = Heap::default();
    heap.allocate(HeapObject::String("payload".repeat(128)));
    assert!(heap.allocated_bytes > 0);
    assert_eq!(heap.collect(Vec::new()), 1);
    assert_eq!(heap.allocated_bytes, 0);
}
#[test]
fn garbage_collection_traverses_references_without_cloning_values() {
    let mut heap = Heap::default();
    let child = heap.allocate(HeapObject::String("reachable".into()));
    let mut entries = Dict::new();
    entries.insert(TableKey::Name(Rc::new("child".to_owned())), Value::String(child));
    let parent = heap.allocate(HeapObject::Table {
        entries,
        element: Type::String,
    });
    assert_eq!(heap.collect(vec![parent]), 0);
    assert!(matches!(heap.get(child), Ok(HeapObject::String(text)) if text == "reachable"));
}
#[test]
fn f16_conversion_uses_standard_binary16_encoding() {
    assert_eq!(rounded(1.0, &Type::F16), Value::F16(0x3c00));
    assert_eq!(single(&Value::F16(0xc000)), -2.0);
    let mut vm = Vm::default();
    assert_eq!(run_on(&mut vm, "let one: f16 = 1.0; let two: f16 = 0.0 - 2.0; print(two)").unwrap(), ["-2"]);
    assert_eq!(vm.locals()[0], Value::F16(0x3c00));
    assert_eq!(vm.locals()[1], Value::F16(0xc000));
}
#[test]
fn builtins_are_resolved_during_compilation() {
    assert_eq!(execute("let value: f32 = 4.0; print(sqrt(value)); print(min(value, 3.0))").unwrap(), vec!["2", "3"]);
}
#[test]
fn lexer_and_core_ast_names_share_string_ids() {
    let lexed = lex("let repeated: i32 = 1; print(repeated)").unwrap();
    let ids: Vec<_> = lexed.tokens.iter().filter_map(|token| match token.kind {
        Token::Ident(id) => Some(id), _ => None,
    }).collect();
    assert_eq!(ids[0], ids[2]);
    assert_eq!(lexed.strings.resolve(ids[0]), "repeated");
}
#[test]
fn executable_bytecode_is_a_flat_u32_stream() {
    let (program, strings) = Parser::new(lex("let answer: i32 = 42; print(answer)").unwrap()).into_program().unwrap();
    let code = Compiler::default().with_strings(strings).compile(program).unwrap();
    assert!(code.words.iter().all(|word| *word <= u32::MAX));
    assert_eq!(code.words.len() % 4, 0);
    let mut vm = Vm::default();
    vm.run(Rc::new(code));
    assert_eq!(finish(&mut vm).unwrap(), ["42"]);
}
#[test]
fn concat_allocates_exact_payload_capacity() {
    let mut vm = Vm::default();
    assert_eq!(run_on(&mut vm, "let left: string = \"left\"; let right: string = \"right\"; let joined: string = left + right; print(joined)").unwrap(), ["leftright"]);
    let Value::String(reference) = vm.locals()[2] else { panic!("joined local is not a string") };
    let HeapObject::String(joined) = vm.heap.get(reference).unwrap() else { panic!("joined value is not a heap string") };
    assert_eq!(joined.capacity(), joined.len());
}
#[test]
fn numeric_casts_work_correctly() {
    let source = "let a: i8 = 10; let b: i32 = a as i32; print(b)";
    assert_eq!(execute(source).unwrap(), vec!["10".to_owned()]);
    let source_float = "let f: f32 = 42.5; let i: i32 = f as i32; print(i)";
    assert_eq!(execute(source_float).unwrap(), vec!["42".to_owned()]);
}
#[test]
fn elseif_chain_evaluates_correctly() {
    let source = "
            let x: i32 = 2
            if x == 1 then
                print(10)
            elseif x == 2 then
                print(20)
            elseif x == 3 then
                print(30)
            else
                print(40)
            end
        ";
    assert_eq!(execute(source).unwrap(), vec!["20".to_owned()]);
}
#[test]
fn cast_various_numeric_types_and_chains() {
    let source = r#"
            -- знаковое в беззнаковое с циклическим переносом (-1 -> 255)
            let neg: i32 = -1;
            let u: u8 = neg as u8;
            print(u);
            -- усечение старших битов (300 % 256 = 44)
            let big: i32 = 300;
            let wrapped: u8 = big as u8;
            print(wrapped);
            -- усечение дробной части к нулю (-3.7 -> -3)
            let f_neg: f64 = -3.7;
            let i_trunc: i32 = f_neg as i32;
            print(i_trunc);
            -- конвертация с участием f16 (binary16)
            let orig_f32: f32 = 2.5;
            let half: f16 = orig_f32 as f16;
            let back_f64: f64 = half as f64;
            print(back_f64);
            -- цепочки приведений
            let chained: i32 = 123.75 as f32 as i32;
            print(chained);
            -- приведение результата выражения в скобках
            let expr_cast: f64 = (10 + 5) as f64 / 2.0;
            print(expr_cast);
        "#;
    assert_eq!(
        execute(source).unwrap(),
        vec!["255", "44", "-3", "2.5", "123", "7.5"]
    );
}
#[test]
fn cast_rejects_non_numeric_types() {
    assert!(matches!(
        execute("let b: bool = 1 == 1; let i: i32 = b as i32"),
        Err(Error::Located { source, .. }) if matches!(*source, Error::Type(ref msg) if msg.contains("cannot cast bool to i32"))
    ));
    assert!(matches!(
        execute("let s: string = \"hello\"; let i: i32 = s as i32"),
        Err(Error::Located { source, .. }) if matches!(*source, Error::Type(ref msg) if msg.contains("cannot cast string to i32"))
    ));
    assert!(matches!(
        execute("let i: i32 = 42; let b: bool = i as bool"),
        Err(Error::Located { source, .. }) if matches!(*source, Error::Type(ref msg) if msg.contains("cannot cast i32 to bool"))
    ));
}
#[test]
fn garbage_collection_allocates_and_frees_999999_chunks() {
    let mut heap = Heap::default();
    let mut refs = Vec::new();
    for i in 0..999999 {
        let k:  i32 = i + 979999999 % 1333;
        let j:   i64 = (i as i64) * (k as i64);
        let fv: f32 = j  as f32;
        refs.push(heap.allocate(HeapObject::String(format!("mem-Chunk {i}-{k}-{j}-{fv}"))));
    }
    assert_eq!(heap.slots.len(), 999999);
    let roots = vec![refs[0], refs[999998]];
    let reclaimed = heap.collect(roots);
    assert_eq!(reclaimed, 999997);
    assert_eq!(heap.slots.len(), 999999);
    assert!(heap.free_head.is_some());
    let reused_ref = heap.allocate(HeapObject::String("reused".into()));
    assert!(reused_ref.0 > 0 && reused_ref.0 < 999998);
    assert_eq!(heap.slots.len(), 999999);
    let reclaimed_final = heap.collect(Vec::new());
    assert_eq!(reclaimed_final, 3);
    assert_eq!(heap.slots.len(), 0);
    assert_eq!(heap.free_head, None);
    assert_eq!(heap.allocated_bytes, 0);
}
#[test]
fn dynamic_types_binding_and_len() {
    let source = r#"
            -- Проверка привязки вектора к dArray и вычисления длины
            let vec: vector<i32> = [10, 20, 30, 40]
            let d_vec: dArray = vec
            print(len(d_vec))

            -- Проверка привязки тензора к dTensor и вычисления длины
            let t: tensor<f32, 2> = zeros<f32>([2, 3])
            let d_t: dTensor = t
            print(len(d_t))
        "#;
    assert_eq!(
        execute(source).unwrap(),
        vec!["4".to_owned(), "6".to_owned()]
    );
}
#[test]
fn dynamic_types_reject_invalid_assignments() {
    assert!(matches!(
        execute("let num: i32 = 42; let d: dArray = num"),
        Err(Error::Located { source, .. }) if matches!(*source, Error::Type(ref msg) if msg.contains("expression has type i32"))
    ));
    assert!(matches!(
        execute("let v: vector<i32> = [1]; let t: dTensor = v"),
        Err(Error::Located { source, .. }) if matches!(*source, Error::Type(ref msg) if msg.contains("expression has type vector<i32>"))
    ));
}
#[test]
fn dynamic_types_ffi_passing() {
    let mut vm = Vm::default();
    vm.register_rust_function("is_dynamic_array".to_owned(), vec![Type::DArray], Type::Bool, 0).unwrap();
    vm.register_rust_function("is_dynamic_tensor".to_owned(), vec![Type::DTensor], Type::Bool, 1).unwrap();
    let source = r#"
            let vec: vector<f64> = [1.0, 2.0]
            let t: tensor<u8, 1> = zeros<u8>([5])
            print(is_dynamic_array(vec))
            print(is_dynamic_tensor(t))
        "#;
    vm.execute(source).unwrap();
    let output = drive(&mut vm, &mut |request, _| match request {
        Request::Host { function: ExternalFunction::Rust(0), arguments, .. } => {
            Answer::Host(Ok(Value::Bool(matches!(arguments[0], Value::Array(_, _)))))
        }
        Request::Host { function: ExternalFunction::Rust(1), arguments, .. } => {
            Answer::Host(Ok(Value::Bool(matches!(arguments[0], Value::Tensor(_, _)))))
        }
        _ => reply(request),
    });
    assert_eq!(output.unwrap(), vec!["true".to_owned(), "true".to_owned()]);
}

#[test]
fn float_functions_follow_their_type() {
    let output = execute(
        "let x: f32 = 0.3 let y: f64 = 0.3 print(tan(x)) print(tan(y)) print(asin(x)) print(acos(y)) \
         print(atan(x)) print(atan2(y, y)) print(pow(x, x)) print(abs(-x)) print(min(x, -x)) print(max(y, -y))",
    )
    .unwrap();
    let (x, y) = (0.3f32, 0.3f64);
    assert_eq!(
        output,
        [
            x.tan().to_string(),
            y.tan().to_string(),
            x.asin().to_string(),
            y.acos().to_string(),
            x.atan().to_string(),
            y.atan2(y).to_string(),
            x.powf(x).to_string(),
            "0.3".to_string(),
            "-0.3".to_string(),
            "0.3".to_string(),
        ]
    );
}

#[test]
fn integers_become_floats_in_one_step() {
    let output = execute(
        "let n: i64 = 9007199791611905 let a: f32 = n as f32 let b: f64 = n as f64 print(a) print(b) \
         let c: i32 = -2.7 as i32 print(c)",
    )
    .unwrap();
    let n = 9007199791611905i64;
    assert_eq!(output, [(n as f32).to_string(), (n as f64).to_string(), "-2".to_string()]);
}
