use std::rc::Rc;

use l0::code::FlatBytecode;
use l0::compiler::{Compiler, ModuleFile};
use l0::heap::{Heap, HeapObject};
use l0::instance::{Answer, Request};
use l0::instructions::{item_count, tensor_offset};
use l0::ir::{DecodedOp, IrOp, Opcode};
use l0::lexer::{lex, StringInterner, Token};
use l0::ops::{BinOp, BinaryOp};
use l0::parser::Parser;
use l0::program;
use l0::scalar::{decode_scalar, write_scalar};
use l0::types::{types_compatible, Error, SourceLocation, Type};
use l0::value::{int_value, TableKey, Value};
use l0::views::Dict;
use l0::vm::Vm;

fn finish(vm: &mut Vm) -> Result<Vec<String>, Error> {
    loop {
        vm.advance(10_000);
        match vm.request() {
            Some(request) => panic!("unexpected request {request:?}"),
            None if vm.is_running() => {}
            None => break,
        }
    }
    match vm.outcome.take() {
        Some(Err(error)) => Err(error),
        _ => Ok(vm.output().clone()),
    }
}

fn run(source: &str) -> Result<Vec<String>, Error> {
    let mut vm = program::execute(source)?;
    finish(&mut vm)
}

fn printed(source: &str) -> Vec<String> {
    match run(source) {
        Ok(output) => output,
        Err(error) => panic!("{}", error.to_text()),
    }
}

fn refused(source: &str) -> String {
    run(source).unwrap_err().to_text()
}

fn module(id: &str, source: &str) -> ModuleFile {
    ModuleFile::Found { id: id.to_string(), source: Ok(source.to_string()) }
}

fn run_with(source: &str, files: Vec<(&str, ModuleFile)>) -> Result<Vec<String>, Error> {
    let files = files.into_iter().map(|(path, file)| (path.to_string(), file)).collect();
    let mut vm = program::execute_file(source, files)?;
    finish(&mut vm)
}

fn compiled(source: &str) -> FlatBytecode {
    let (program, strings) = Parser::new(lex(source).unwrap()).into_program().unwrap();
    Compiler::default().with_strings(strings).compile(program).unwrap()
}

#[test]
fn the_right_side_is_evaluated_only_when_needed() {
    let guarded = "let no: bool = 1 == 2 if no && 1 / 0 == 1 then print(1) end print(2)";
    assert_eq!(printed(guarded), ["2"]);
    let decided = "let yes: bool = 1 == 1 if yes || 1 / 0 == 1 then print(1) end";
    assert_eq!(printed(decided), ["1"]);
    assert!(refused("let yes: bool = 1 == 1 if yes && 1 / 0 == 1 then print(1) end")
        .contains("division by zero"));
}

#[test]
fn modules_run_once_and_stay_loaded() {
    let output = run_with(
        "let a: module = require(\"m\") let b: module = require(\"m\") b.bump() print(a.count)",
        vec![("m", module("/m.l0", "print(7) export let count: i32 = 1 export function bump() count = count + 1 end"))],
    );
    assert_eq!(output.unwrap(), ["7", "2"]);
}

#[test]
fn imports_are_kept_below_the_root() {
    let absolute = run_with("let a: module = require(\"/m\")", vec![("/m", ModuleFile::Absolute)]);
    assert!(absolute.unwrap_err().to_text().contains("module path must be relative"));
    let outside = run_with("let a: module = require(\"../m\")", vec![("../m", ModuleFile::Escapes)]);
    assert!(outside.unwrap_err().to_text().contains("module '../m' escapes the module root"));
    let missing = run_with(
        "let a: module = require(\"m\")",
        vec![("m", ModuleFile::Unresolved("no such file".to_string()))],
    );
    assert!(missing.unwrap_err().to_text().contains("cannot load module 'm': no such file"));
    let unreadable = run_with(
        "let a: module = require(\"m\")",
        vec![("m", ModuleFile::Found { id: "/m".to_string(), source: Err("denied".to_string()) })],
    );
    assert!(unreadable.unwrap_err().to_text().contains("cannot read module 'm': denied"));
    assert!(refused("let a: module = require(\"m\")")
        .contains("require is available only when executing an .l0 file"));
}

#[test]
fn modules_cannot_import_themselves() {
    let files = vec![
        ("a", module("/a.l0", "let b: module = require(\"b\")")),
        ("b", module("/b.l0", "let a: module = require(\"a\")")),
    ];
    let error = run_with("let a: module = require(\"a\")", files).unwrap_err().to_text();
    assert!(error.contains("cyclic module import involving 'a'"), "{error}");
}

#[test]
fn only_exported_names_are_seen() {
    let file = || vec![("m", module("/m.l0", "let hidden: i32 = 1 export let shown: i32 = 2"))];
    let shown = run_with("let m: module = require(\"m\") print(m.shown)", file());
    assert_eq!(shown.unwrap(), ["2"]);
    let hidden = run_with("let m: module = require(\"m\") print(m.hidden)", file());
    assert!(hidden.unwrap_err().to_text().contains("module has no exported value 'hidden'"));
    let called = run_with("let m: module = require(\"m\") m.shown()", file());
    assert!(called.unwrap_err().to_text().contains("module has no exported function 'shown'"));
}

#[test]
fn a_module_name_follows_its_module() {
    let files = || {
        vec![
            ("a", module("/a.l0", "export let n: i32 = 1")),
            ("b", module("/b.l0", "export let n: i32 = 2 export let s: string = \"b\"")),
        ]
    };
    let source = "let m: module = require(\"a\") print(m.n) m = require(\"b\") print(m.n) print(m.s) \
                  let m: module = require(\"a\") print(m.n) ::m = require(\"b\") print(m.s)";
    assert_eq!(run_with(source, files()).unwrap(), ["1", "2", "b", "1", "b"]);
    let copied = "let m: module = require(\"b\") let k: module = m print(k.s)";
    assert_eq!(run_with(copied, files()).unwrap(), ["b"]);
    let retyped = "let m: module = require(\"a\") let m: i32 = 1";
    assert!(run_with(retyped, files())
        .unwrap_err()
        .to_text()
        .contains("cannot redefine 'm' with a different type"));
}

#[test]
fn a_game_module_is_used_through_its_name() {
    let game = "export let score: i32 = 0 export struct Board { cells: vector<i8>; } \
                export function init() score = score + 1 print(score) end";
    let source = "let game: module = require(\"game\") game.init() print(game.score) \
                  let board: game.Board = game.Board { cells = [0, 0, 0] } print(len(board.cells))";
    let output = run_with(source, vec![("game", module("/game.l0", game))]);
    assert_eq!(output.unwrap(), ["1", "1", "3"]);
}

#[test]
fn exported_structs_are_qualified() {
    let output = run_with(
        "let game: module = require(\"game\") let b: game.Board = game.Board { cells = [4, 5], score = 6 } print(b.score) print(b.cells[1])",
        vec![("game", module("/game.l0", "export struct Board { cells: vector<i8>; score: i8; }"))],
    );
    assert_eq!(output.unwrap(), ["6", "5"]);
}

#[test]
fn the_paths_of_imports_are_listed() {
    let source = "let a: module = require(\"a\") print(\"require\") let b: module = require(\"sub/b\")";
    assert_eq!(program::required_paths(source).unwrap(), ["a", "sub/b"]);
    assert!(program::required_paths("\"open").is_err());
}

#[test]
fn host_functions_are_checked_when_compiled() {
    let mut vm = Vm::default();
    vm.register_rust_function("twice".to_string(), vec![Type::I32], Type::I32, 0).unwrap();
    assert!(vm.execute("print(twice())").unwrap_err().to_text().contains("twice expects 1 argument(s)"));
    assert!(vm.execute("print(twice(\"x\"))").is_err());
    assert_eq!(
        vm.register_rust_function("twice".to_string(), vec![], Type::I32, 1).unwrap_err().to_text(),
        "type error: external function 'twice' is already registered"
    );
    assert_eq!(
        vm.register_rust_function("".to_string(), vec![], Type::I32, 1).unwrap_err().to_text(),
        "type error: external function name cannot be empty"
    );
}

#[test]
fn host_functions_answer_with_their_type() {
    let mut vm = Vm::default();
    vm.register_rust_function("twice".to_string(), vec![Type::I32], Type::I32, 0).unwrap();
    vm.execute("print(twice(21))").unwrap();
    vm.advance(100);
    let Some(Request::Host { arguments, .. }) = vm.request() else { panic!() };
    assert!(arguments[0].same(&Value::I32(21)));
    assert!(!vm.resume(Answer::Line("42".to_string())));
    assert!(vm.resume(Answer::Host(Ok(Value::I32(42)))));
    assert_eq!(finish(&mut vm).unwrap(), ["42"]);

    vm.execute("print(twice(21))").unwrap();
    vm.advance(100);
    assert!(vm.resume(Answer::Host(Ok(Value::Bool(true)))));
    assert_eq!(
        finish(&mut vm).unwrap_err().to_text(),
        "runtime error: external function 'twice' returned bool; expected i32"
    );
}

#[test]
fn c_functions_need_their_state() {
    let mut vm = Vm::default();
    vm.register_c_i32_function("c".to_string(), 0, 0).unwrap();
    vm.execute("print(c())").unwrap();
    assert_eq!(
        finish(&mut vm).unwrap_err().to_text(),
        "runtime error: C function 'c' requires execution through L0State"
    );
    vm.set_callback_state(true);
    vm.execute("print(c())").unwrap();
    vm.advance(100);
    assert!(vm.resume(Answer::C { status: 0, results: vec![] }));
    assert_eq!(
        finish(&mut vm).unwrap_err().to_text(),
        "runtime error: C function 'c' must push exactly one result"
    );
}

#[test]
fn fields_hide_other_names_in_methods() {
    let source = "struct Box { n: i32; function show() print(n) end } \
                  let n: i32 = 1 let b: Box = Box { n = 2 } b.show() print(n)";
    assert_eq!(printed(source), ["2", "1"]);
}

#[test]
fn jumps_need_a_loop() {
    assert!(refused("break").contains("break"));
    assert!(refused("continue").contains("continue"));
    assert_eq!(printed("for i = 0, 3 do if i == 1 then continue end if i == 3 then break end print(i) end"), ["0", "2"]);
}

#[test]
fn ranges_are_inclusive() {
    assert_eq!(printed("for i = 1, 3 do print(i) end"), ["1", "2", "3"]);
    assert!(printed("for i = 3, 1 do print(i) end").is_empty());
    assert_eq!(printed("let v: vector<i32> = [5, 6] for x in v do print(x) end"), ["5", "6"]);
}

#[test]
fn empty_lists_need_their_type() {
    assert_eq!(printed("let v: vector<i32> = [] print(len(v))"), ["0"]);
    assert!(run("print(len([]))").is_err());
}

#[test]
fn what_is_stored_is_read_back() {
    let source = "struct P { a: i32; b: i32; } \
                  let p: P = P { a = 1, b = 2 } p.a = 7 print(p.a) print(p.b) \
                  let v: vector<i16> = [1, 2, 3] v[1] = 9 print(v[0]) print(v[1]) print(v[2]) \
                  let t: table<i32> = table { x = 1, y = 2 } t.x = 5 print(t.x) print(t.y)";
    assert_eq!(printed(source), ["7", "2", "1", "9", "3", "5", "2"]);
}

#[test]
fn copies_share_their_object() {
    let source = "let a: vector<i32> = [1, 2] let b: vector<i32> = a b[0] = 9 print(a[0])";
    assert_eq!(printed(source), ["9"]);
}

#[test]
fn tensor_items_are_read_back() {
    let source = "let t: tensor<i32, 2> = zeros<i32>([2, 3]) t[1, 2] = 5 t[0, 1] = 4 \
                  print(t[1, 2]) print(t[0, 1]) print(t[0, 0])";
    assert_eq!(printed(source), ["5", "4", "0"]);
    assert!(refused("let t: tensor<i32, 1> = zeros<i32>([2]) print(t[2])")
        .contains("tensor index 2 is out of bounds for dimension 2"));
}

#[test]
fn tensor_positions_are_row_major() {
    assert_eq!(tensor_offset(&vec![2, 3], &vec![1, 2]).unwrap(), 5);
    assert_eq!(tensor_offset(&vec![2, 3], &vec![0, 0]).unwrap(), 0);
    assert_eq!(
        tensor_offset(&vec![2, 3], &vec![1]).unwrap_err().to_text(),
        "runtime error: tensor rank 2 requires 2 index(es)"
    );
    assert_eq!(item_count(&vec![2, 3, 4]).unwrap(), 24);
    assert_eq!(
        item_count(&vec![usize::MAX, 2]).unwrap_err().to_text(),
        "runtime error: tensor is too large"
    );
}

#[test]
fn removed_entries_are_missing() {
    let source = "let t: table<i32> = table { [1] = 1, [2] = 2 } \
                  print(remove(t, 1)) print(remove(t, 1)) print(len(t)) print(t[1])";
    let mut vm = program::execute(source).unwrap();
    let error = finish(&mut vm).unwrap_err().to_text();
    assert_eq!(error, "runtime error: table has no key [1]");
    assert_eq!(*vm.output(), ["true", "false", "1"]);
}

#[test]
fn keys_come_in_order() {
    let source = "let t: table<i32> = table { [\"b\"] = 1, [10] = 2, [\"a\"] = 3, [-4] = 4 } \
                  for key in keys(t) do print(t[key]) end";
    assert_eq!(printed(source), ["4", "2", "3", "1"]);
    assert!(refused("let t: table<i32> = table { [1] = 1, [1] = 2 }").contains("more than once"));
}

#[test]
fn failures_of_destructors_do_not_count() {
    let source = "struct G { id: i32; function G() print(id) print(1 / (id - id)) end } \
                  if 1 == 1 then let a: G = G { id = 1 } let b: G = G { id = 2 } \
                  let v: vector<i32> = [1] print(v[5]) end";
    let mut vm = program::execute(source).unwrap();
    let error = finish(&mut vm).unwrap_err().to_text();
    assert!(error.contains("out of bounds") || error.contains("index"), "{error}");
    assert_eq!(*vm.output(), ["2", "1"]);
}

#[test]
fn a_program_can_be_run_in_pieces() {
    let source = "let sum: i32 = 0 for i = 1, 50 do sum = sum + i end print(sum)";
    let mut vm = program::execute(source).unwrap();
    let mut steps = 0;
    while vm.is_running() {
        vm.advance(1);
        steps += 1;
    }
    assert!(steps > 300);
    assert_eq!(*vm.output(), ["1275"]);
    assert_eq!(printed(source), ["1275"]);
}

#[test]
fn collections_keep_what_is_held() {
    let source = "struct Node { name: string; } let n: Node = Node { name = \"kept\" } \
                  let v: vector<i32> = [1, 2]";
    let mut vm = program::execute(source).unwrap();
    finish(&mut vm).unwrap();
    let garbage = vm.allocate(HeapObject::String("dropped".to_string()));
    let before = vm.heap.slots.len();
    assert_eq!(vm.collect_garbage(), 1);
    assert!(vm.heap.get(garbage).is_err());
    assert!(vm.heap.slots.len() <= before);
    assert_eq!(vm.collect_garbage(), 0);
    vm.run(Rc::new(compiled("let n: i32 = 3 print(n)")));
    assert_eq!(finish(&mut vm).unwrap().last().unwrap(), "3");
}

#[test]
fn programs_do_not_notice_collections() {
    let source = "struct Inner { n: i32; } struct Outer { inner: Inner; names: table<string>; } \
                  let i: Inner = Inner { n = 1 } \
                  let t: table<string> = table { a = \"x\" + \"y\" } \
                  let o: Outer = Outer { inner = i, names = t } \
                  for k = 1, 3 do i.n = i.n + k let s: string = \"n\" + \"ew\" print(s) end \
                  t.b = \"z\" print(o) printf(\"{}-{}\", o.names.a, [1, 2]) print(len(keys(o.names)))";
    let mut vm = program::execute(source).unwrap();
    while vm.is_running() {
        vm.advance(1);
        vm.collect_garbage();
    }
    assert_eq!(*vm.output(), printed(source));
    assert_eq!(
        *vm.output(),
        ["new", "new", "new", "Outer{inner: Inner{n: 7}, names: table<string>(2)}", "xy-[1, 2]", "2"]
    );
}

#[test]
fn cycles_are_freed_when_they_are_out_of_reach() {
    let mut heap = Heap::default();
    let a = heap.allocate(HeapObject::TableKeys(Vec::new()));
    let mut entries: Dict<TableKey, Value> = Dict::new();
    entries.insert(TableKey::Index(0), Value::TableKeys(a));
    let b = heap.allocate(HeapObject::Table { entries, element: Type::I32 });
    let mut back: Dict<TableKey, Value> = Dict::new();
    back.insert(TableKey::Index(0), Value::Table(b, Box::new(Type::I32)));
    *heap.get_mut(a).unwrap() = HeapObject::Table { entries: back, element: Type::I32 };
    assert_eq!(heap.collect(vec![a]), 0);
    assert_eq!(heap.collect(vec![]), 2);
}

#[test]
fn plain_formats_are_printed_as_they_are() {
    assert_eq!(printed("printf(\"no braces here\")"), ["no braces here"]);
    assert!(refused("printf(\"{}\")").contains("more placeholders than arguments"));
    assert!(refused("printf(\"}\")").contains("invalid '}' escape"));
}

#[test]
fn values_print_as_they_are_held() {
    let source = "struct P { x: i32; on: bool; } print(P { x = 1, on = 1 == 1 }) \
                  print([1, 2, 3]) let t: table<i32> = table { a = 1 } print(t) print(keys(t)) \
                  let z: tensor<u8, 2> = zeros<u8>([2, 2]) print(z)";
    assert_eq!(
        printed(source),
        ["P{x: 1, on: true}", "[1, 2, 3]", "table<i32>(1)", "[a]", "tensor<u8, 2>[2, 2]"]
    );
}

#[test]
fn characters_are_put_out() {
    let mut vm = program::execute_interactive("putc(1105) putc(10) printf(\"a\") print(1)").unwrap();
    finish(&mut vm).unwrap();
    assert_eq!(*vm.output(), ["a", "1"]);
    assert_eq!(vm.take_display(), "ё\na1\n");
    assert_eq!(vm.take_display(), "");
}

#[test]
fn scalars_are_read_back_from_their_bytes() {
    let mut bytes = vec![0u8; 6];
    write_scalar(&mut bytes, 1, &Value::I16(-2), &Type::I16).unwrap();
    assert_eq!(bytes, [0, 0, 0xfe, 0xff, 0, 0]);
    assert!(decode_scalar(&bytes, 1, &Type::I16).unwrap().same(&Value::I16(-2)));
    assert!(decode_scalar(&bytes, 2, &Type::I16).unwrap().same(&Value::I16(0)));
    assert!(decode_scalar(&bytes, 3, &Type::I16).is_err());
}

#[test]
fn opcodes_are_read_back_from_their_numbers() {
    assert!(matches!(Opcode::from_word(0), Ok(Opcode::AddI32)));
    assert_eq!(
        Opcode::from_word(10_000).unwrap_err().to_text(),
        "runtime error: invalid bytecode opcode"
    );
}

#[test]
fn lowered_code_is_read_back() {
    let code = FlatBytecode::lower(vec![IrOp::Push(Value::I32(5)), IrOp::AddI32, IrOp::Jump(1)]);
    assert_eq!(code.words.len(), 12);
    assert!(matches!(code.decode(0), Ok((DecodedOp::Push(Value::I32(5)), 4))));
    assert!(matches!(code.decode(4), Ok((DecodedOp::AddI32, 8))));
    assert!(matches!(code.decode(8), Ok((DecodedOp::Jump(4), 12))));
    assert!(code.decode(12).is_err());
}

#[test]
fn texts_are_interned_once() {
    let mut strings = StringInterner::new();
    let a = strings.intern("a");
    let b = strings.intern("b");
    assert_eq!(strings.intern("a"), a);
    assert!(a != b);
    assert_eq!(strings.resolve(b), "b");
}

#[test]
fn widening_goes_one_way() {
    assert!(types_compatible(&Type::I64, &Type::I32) != types_compatible(&Type::I32, &Type::I64));
    assert!(types_compatible(&Type::U8, &Type::U8));
}

#[test]
fn integers_fit_their_type() {
    assert!(int_value(255, &Type::U8).unwrap().same(&Value::U8(255)));
    assert!(int_value(256, &Type::U8).is_err());
    assert_eq!(printed("let a: i32 = -1 let b: u32 = a as u32 let c: i32 = b as i32 print(b) print(c)"), ["4294967295", "-1"]);
}

#[test]
fn the_first_location_stays() {
    let first = SourceLocation { line: 1, column: 2, offset: 1 };
    let second = SourceLocation { line: 9, column: 9, offset: 90 };
    let error = Error::Type("t".to_string()).at(first).at(second);
    assert_eq!(error.location(), Some(first));
    assert_eq!(error.to_text(), "type error: t at line 1, column 2");
}

#[test]
fn errors_say_what_they_are() {
    assert!(refused("\"open").starts_with("lex error: "));
    assert!(refused("let").starts_with("parse error: "));
    assert!(refused("print(missing)").starts_with("type error: "));
    assert!(refused("print(1 / 0)").starts_with("runtime error: "));
}

#[test]
fn input_is_read_by_its_type() {
    let mut vm = program::execute("let n: u8 = input print(n)").unwrap();
    vm.advance(100);
    assert!(matches!(vm.request(), Some(Request::Line)));
    assert!(vm.resume(Answer::Line("  42 \n".to_string())));
    assert_eq!(finish(&mut vm).unwrap(), ["42"]);
    for (line, expected) in [
        (Answer::Line("x".to_string()), "runtime error: invalid integer: x"),
        (Answer::End, "runtime error: input ended before a value was read"),
        (Answer::Unreadable("gone".to_string()), "runtime error: failed to read input: gone"),
    ] {
        let mut vm = program::execute("let n: u8 = input print(n)").unwrap();
        vm.advance(100);
        assert!(vm.resume(line));
        assert_eq!(finish(&mut vm).unwrap_err().to_text(), expected);
    }
}

#[test]
fn tokens_stand_in_the_order_of_the_text() {
    let source = "let x = \"a b\" -- note\n  y <= 1.5 ";
    let chars: Vec<char> = source.chars().collect();
    let lexed = lex(source).unwrap();
    let offsets: Vec<usize> = lexed.tokens.iter().map(|t| t.location.offset).collect();
    assert_eq!(offsets, [0, 4, 6, 8, 24, 26, 29, chars.len()]);
    for (k, token) in lexed.tokens.iter().enumerate() {
        let here = SourceLocation::at(&chars, token.location.offset);
        assert_eq!(
            (token.location.line, token.location.column),
            (here.line, here.column)
        );
        assert_eq!(matches!(token.kind, Token::Eof), k + 1 == lexed.tokens.len());
        if let Token::Ident(id) | Token::StringLit(id) | Token::Float(id) = token.kind {
            assert!((id.0 as usize) < lexed.strings.strings.len());
        }
    }
    let mixed = lex("1.5 x \"y\" 2.5 x").unwrap();
    assert!(matches!(mixed.tokens[1].kind, Token::Ident(id) if id.0 == 0));
    assert!(matches!(mixed.tokens[2].kind, Token::StringLit(id) if id.0 == 1));
    assert!(matches!(mixed.tokens[4].kind, Token::Ident(id) if id.0 == 0));
    let Token::Float(id) = mixed.tokens[3].kind else { panic!() };
    assert_eq!(mixed.strings.resolve(id), "2.5");
    let Token::Float(id) = mixed.tokens[0].kind else { panic!() };
    assert_eq!(mixed.strings.resolve(id), "1.5");
    let Token::Ident(id) = mixed.tokens[1].kind else { panic!() };
    assert_eq!(mixed.strings.resolve(id), "x");
    let Token::StringLit(id) = mixed.tokens[2].kind else { panic!() };
    assert_eq!(mixed.strings.resolve(id), "y");
    assert!(matches!(lex("x 042").unwrap().tokens[1].kind, Token::Integer(42)));
    let empty = lex("").unwrap();
    assert_eq!(empty.tokens.len(), 1);
    assert!(matches!(empty.tokens[0].kind, Token::Eof));
}

#[test]
fn floats_are_equal_as_numbers() {
    let single = |n: f32| Value::F32(n.to_bits());
    let double = |n: f64| Value::F64(n.to_bits());
    assert!(single(0.0) == single(-0.0));
    assert!(single(f32::NAN) != single(f32::NAN));
    assert!(single(1.5) == single(1.5));
    assert!(single(1.5) != single(-1.5));
    assert!(single(f32::INFINITY) == single(f32::INFINITY));
    assert!(double(0.0) == double(-0.0));
    assert!(double(f64::NAN) != double(f64::NAN));
    assert!(double(2.0) != single(2.0));
    assert!(Value::F16(0) != Value::F16(0x8000));
    assert!(Value::I32(1) == Value::I32(1));
    assert!(Value::I32(1) != Value::I64(1));
}

#[test]
fn an_empty_heap_counts_nothing() {
    let mut heap = Heap::default();
    heap.allocate(HeapObject::String("text".to_string()));
    assert!(heap.allocated_bytes > 0);
    assert_eq!(heap.collect(Vec::new()), 1);
    assert_eq!(heap.allocated_bytes, 0);
    assert!(heap.slots.is_empty());
    assert!(heap.free_head.is_none());
    assert_eq!(heap.threshold_bytes, 65536);
}
