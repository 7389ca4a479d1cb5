use std::rc::Rc;

use candle_core::{DType, Device, Tensor};
use l0::bridge;
use l0::candle::{self, Tensors};
use l0::code::{Constant, TableEntry};
use l0::compiler::{Compiler, ModuleFile};
use l0::direct;
use l0::heap::{Heap, HeapObject};
use l0::lexer::lex;
use l0::model;
use l0::modules::{module_candidate, module_file};
use l0::parser::Parser;
use l0::rope;
use l0::tensors::Kind;
use l0::tokens::{self, Tokenizers};
use l0::types::{Error, Type};
use l0::value::{TableKey, Value};
use l0::views::Dict;
use tokenizers::Tokenizer;

fn packed(numbers: &[f32]) -> Vec<u8> {
    numbers.iter().flat_map(|n| n.to_bits().to_le_bytes()).collect()
}

fn float_tensor(heap: &mut Heap, numbers: &[f32], shape: &[usize]) -> Value {
    let reference = heap.allocate(HeapObject::Tensor {
        bytes: packed(numbers),
        element: Type::F32,
        shape: shape.to_vec(),
    });
    Value::Tensor(reference, Rc::new(Type::Tensor(Box::new(Type::F32), shape.len())))
}

fn float_vector(heap: &mut Heap, numbers: &[f32]) -> Value {
    let reference = heap.allocate(HeapObject::Array { bytes: packed(numbers), element: Type::F32 });
    Value::Array(reference, Box::new(Type::F32))
}

fn message(result: Result<Value, Error>) -> String {
    result.unwrap_err().to_text()
}

fn ids(numbers: &[i32]) -> Vec<Value> {
    numbers.iter().map(|n| Value::I32(*n)).collect()
}

fn names(list: &[&str]) -> Vec<String> {
    list.iter().map(|name| name.to_string()).collect()
}

#[test]
fn sums_of_integers_are_left_out() {
    let mut tensors = Tensors::default();
    let a = tensors.insert_tensor(Tensor::new(&[255u8], &Device::Cpu).unwrap());
    let b = tensors.insert_tensor(Tensor::new(&[1u8], &Device::Cpu).unwrap());
    let x = tensors.insert_tensor(Tensor::new(&[1.5f32], &Device::Cpu).unwrap());
    let y = tensors.insert_tensor(Tensor::new(&[2.0f32, 4.0], &Device::Cpu).unwrap());
    let none: [u8; 0] = [];
    let e = tensors.insert_tensor(Tensor::new(&none, &Device::Cpu).unwrap());
    assert!(!tensors.may_add(&ids(&[a, b])));
    assert!(tensors.may_add(&ids(&[a, e])));
    assert!(tensors.may_add(&ids(&[x, y])));
    let sum = candle::candle_add_id(&mut tensors, &ids(&[x, y])).unwrap();
    let Value::I32(id) = sum else { panic!() };
    assert_eq!(tensors.get_tensor(id).unwrap().to_vec1::<f32>().unwrap(), vec![3.5, 5.5]);
    assert!(tensors.may_add(&ids(&[a, x])));
    assert!(candle::candle_add_id(&mut tensors, &ids(&[a, x])).is_err());
    assert!(candle::candle_mul_id(&mut tensors, &ids(&[a, x])).is_err());
}

#[test]
fn extents_are_counted_from_both_ends() {
    let wide: usize = 1 << 33;
    assert!(!candle::can_be_counted(&vec![0, wide, wide]));
    assert!(!candle::can_be_counted(&vec![wide, wide, 0]));
    assert!(candle::can_be_counted(&vec![0, wide]));
    assert!(candle::can_be_counted(&vec![2, 3, 4]));
    assert!(candle::can_be_counted(&vec![]));
}

#[test]
fn items_become_values_or_errors() {
    let mut heap = Heap::default();
    let bytes = packed(&[1.0, 2.0]);
    let t = bridge::store_tensor(Kind::F32, vec![1, 2], Ok(bytes.clone()), &mut heap).unwrap();
    assert_eq!(t.ty().to_text(), Type::Tensor(Box::new(Type::F32), 2).to_text());
    let v = bridge::store_vector(Kind::BF16, Ok(vec![1, 2]), &mut heap).unwrap();
    let Value::Array(reference, element) = v else { panic!() };
    assert_eq!(*element, Type::BF16);
    let HeapObject::Array { bytes, .. } = heap.get(reference).unwrap() else { panic!() };
    assert_eq!(*bytes, vec![1, 2]);
    for kind in [Kind::I64, Kind::F64, Kind::U8, Kind::F8E4M3] {
        assert_eq!(
            message(bridge::store_tensor(kind, vec![], Ok(vec![]), &mut heap)),
            "runtime error: Unsupported Candle dtype"
        );
        assert_eq!(
            message(bridge::store_vector(kind, Ok(vec![]), &mut heap)),
            "runtime error: Unsupported Candle dtype"
        );
    }
    assert_eq!(
        message(bridge::store_vector(Kind::F32, Err("lost".to_string()), &mut heap)),
        "runtime error: lost"
    );
    assert_eq!(
        message(bridge::store_tensor(Kind::U8, vec![], Err("lost".to_string()), &mut heap)),
        "runtime error: lost"
    );
    let whole = Tensor::new(&[1i64], &Device::Cpu).unwrap();
    assert_eq!(
        message(bridge::candle_to_tensor(&whole, &mut heap)),
        "runtime error: Unsupported Candle dtype"
    );
}

#[test]
fn the_second_operand_is_named_in_errors() {
    let mut heap = Heap::default();
    let w = float_tensor(&mut heap, &[1.0, 2.0], &[1, 2]);
    let x = float_vector(&mut heap, &[1.0, 2.0]);
    let half = heap.allocate(HeapObject::Array { bytes: vec![0, 0], element: Type::F16 });
    let odd = Value::Array(half, Box::new(Type::F32));
    assert_eq!(
        message(bridge::candle_vector_add(&vec![x.clone(), odd.clone()], &mut heap)),
        "type error: expected vector<f32>"
    );
    assert_eq!(
        message(bridge::candle_l0_layer(&vec![w.clone(), odd], &mut heap)),
        "type error: expected vector<f32>"
    );
    assert_eq!(
        message(bridge::candle_matmul(&vec![w, x], &mut heap)),
        "runtime error: Expected tensor"
    );
    let short = float_tensor(&mut heap, &[1.0], &[2, 2]);
    let arguments = vec![short.clone(), Value::I32(1)];
    assert!(bridge::layer_is_possible(&arguments, &heap));
    assert_eq!(
        message(bridge::candle_l0_layer(&arguments, &mut heap)),
        "runtime error: Expected vector"
    );
    assert!(!bridge::matmul_is_possible(&vec![short.clone(), short], &heap));
}

#[test]
fn the_program_has_its_own_products() {
    let mut heap = Heap::default();
    let w = float_tensor(&mut heap, &[1.0, 2.0, 3.0, 4.0], &[2, 2]);
    let x = float_vector(&mut heap, &[1.0, -1.0]);
    let arguments = vec![w.clone(), w.clone()];
    assert!(direct::direct_matmul_is_possible(&arguments, &heap));
    let p = direct::direct_matmul(&arguments, &mut heap, Ok(Device::Cpu)).unwrap();
    let Value::Tensor(reference, ty) = &p else { panic!() };
    assert_eq!(**ty, Type::DTensor);
    let HeapObject::Tensor { bytes, shape, .. } = heap.get(*reference).unwrap() else { panic!() };
    assert_eq!((bytes.clone(), shape.clone()), (packed(&[7.0, 10.0, 15.0, 22.0]), vec![2, 2]));

    let arguments = vec![w.clone(), x.clone()];
    assert!(direct::direct_layer_is_possible(&arguments, &heap));
    let y = direct::direct_layer(&arguments, &mut heap, Ok(Device::Cpu)).unwrap();
    let Value::Array(reference, _) = &y else { panic!() };
    let HeapObject::Array { bytes, .. } = heap.get(*reference).unwrap() else { panic!() };
    assert_eq!(*bytes, packed(&[-1.0, -1.0]));

    let lost = || Err("no card".to_string());
    assert_eq!(message(direct::direct_matmul(&vec![p.clone(), w.clone()], &mut heap, lost())),
        "runtime error: no card");
    assert_eq!(message(direct::direct_layer(&vec![w.clone()], &mut heap, lost())),
        "runtime error: candle_l0_layer expects 1 tensor and 1 vector");
    assert_eq!(message(direct::direct_layer(&arguments, &mut heap, lost())), "runtime error: no card");
    let device = || Ok(Device::Cpu);
    assert_eq!(message(direct::direct_matmul(&vec![p, w.clone()], &mut heap, device())),
        "runtime error: Invalid tensor type");
    let rough = heap.allocate(HeapObject::Array { bytes: vec![0, 0], element: Type::BF16 });
    let rough = Value::Array(rough, Box::new(Type::BF16));
    assert_eq!(message(direct::direct_layer(&vec![w.clone(), rough], &mut heap, device())),
        "runtime error: Unsupported vector type. Use vector<f32> or vector<f16>.");
    let Value::Array(reference, _) = x else { panic!() };
    let odd = Value::Array(reference, Box::new(Type::F16));
    assert_eq!(message(direct::direct_layer(&vec![w.clone(), odd], &mut heap, device())),
        "type error: expected vector<f16> or dArray");
    let refused = float_tensor(&mut heap, &[1.0], &[1, 1]);
    assert!(message(direct::direct_matmul(&vec![w, refused], &mut heap, device()))
        .starts_with("runtime error: Candle matmul failed: "));
}

#[test]
fn other_outputs_are_refused_by_the_program() {
    let mut heap = Heap::default();
    for kind in [Kind::BF16, Kind::F64, Kind::U32] {
        assert_eq!(
            message(direct::store_dynamic(kind, vec![1], Ok(vec![0, 0]), &mut heap)),
            "runtime error: Unsupported output dtype from Candle"
        );
        assert_eq!(
            message(direct::store_plain(kind, Ok(vec![0, 0]), &mut heap)),
            "runtime error: Unsupported output dtype from Candle"
        );
    }
    assert_eq!(
        message(direct::store_plain(Kind::F32, Err("lost".to_string()), &mut heap)),
        "runtime error: lost"
    );
    let t = direct::store_dynamic(Kind::F16, vec![1], Ok(vec![1, 2]), &mut heap).unwrap();
    let Value::Tensor(reference, ty) = t else { panic!() };
    assert_eq!(*ty, Type::DTensor);
    let HeapObject::Tensor { bytes, element, shape } = heap.get(reference).unwrap() else { panic!() };
    assert_eq!((bytes.clone(), element.clone(), shape.clone()), (vec![1, 2], Type::F16, vec![1]));
}

#[test]
fn models_are_saved_when_all_tensors_are_held() {
    let mut tensors = Tensors::default();
    let mut heap = Heap::default();
    let t = Tensor::new(&[1.0f32], &Device::Cpu).unwrap();
    let loaded = vec![("a".to_string(), t.clone()), ("b".to_string(), t)];
    let failed = model::candle_load_model(&mut tensors, &mut heap, loaded, Some("cut off".into()));
    assert_eq!(message(failed), "runtime error: cut off");
    assert_eq!(tensors.next, 3);
    assert_eq!(tensors.dims(2), Some(vec![1]));

    let mut entries: Dict<TableKey, Value> = Dict::new();
    entries.insert(TableKey::Name(Rc::new("a".to_string())), Value::I32(1));
    entries.insert(TableKey::Name(Rc::new("c".to_string())), Value::I32(7));
    let table = heap.allocate(HeapObject::Table { entries, element: Type::I32 });
    let path = heap.allocate(HeapObject::String("m".to_string()));
    let arguments = vec![Value::Table(table, Box::new(Type::I32)), Value::String(path)];
    assert_eq!(
        model::model_to_save(&tensors, &arguments, &heap).unwrap_err().to_text(),
        "runtime error: Tensor ID 7 not found in registry"
    );
    for _ in 3..8 {
        tensors.insert_tensor(Tensor::new(&[2.0f32], &Device::Cpu).unwrap());
    }
    assert!(model::may_save(&tensors, &arguments, &heap));
    let (_, list) = model::model_to_save(&tensors, &arguments, &heap).unwrap();
    assert_eq!(list.len(), 2);
    assert!(list.iter().all(|(_, t)| t.dtype() == DType::F32));
}

#[test]
fn omitted_extensions_are_l0() {
    let root = names(&["home", "game.dir"]);
    for (requested, expected) in [
        ("enemy", "enemy.l0"),
        ("lib/enemy", "lib/enemy.l0"),
        ("lib.d/enemy", "lib.d/enemy.l0"),
        ("enemy.l0", "enemy.l0"),
        ("enemy.txt", "enemy.txt"),
        ("enemy.", "enemy."),
        (".hidden", ".hidden.l0"),
        ("...", "..."),
        ("lib/enemy/", "lib/enemy.l0"),
        ("lib/enemy/.", "lib/enemy.l0"),
        ("./enemy", "./enemy.l0"),
        ("..", ".."),
        ("lib/..", "lib/.."),
        ("", "../game.l0"),
        (".", "../game.l0"),
        ("./", "../game.l0"),
    ] {
        assert_eq!(module_candidate(&root, requested), expected, "{requested}");
        let path = std::path::Path::new("/home/game.dir");
        let relative = std::path::Path::new(requested);
        let joined = path.join(relative);
        let known = if relative.extension().is_some() { joined } else { joined.with_extension("l0") };
        let found = path.join(module_candidate(&root, requested));
        let found = found.to_string_lossy().replace("/game.dir/../", "/");
        let known = known.to_string_lossy().into_owned();
        assert_eq!(found.replace("/home/game.dir/..", "/home"), known.replace("/home/game.dir/..", "/home"));
    }
    assert_eq!(module_candidate(&vec![], ""), "");
}

#[test]
fn modules_lie_below_the_root() {
    let root = names(&["home", "game"]);
    let inside = names(&["home", "game", "lib", "enemy.l0"]);
    let text = || Ok("let x: i32 = 1".to_string());
    match module_file(false, Ok(inside.clone()), &root, text()) {
        ModuleFile::Found { id, source } => {
            assert_eq!(id, "/home/game/lib/enemy.l0");
            assert_eq!(source, text());
        }
        other => panic!("{other:?}"),
    }
    assert!(matches!(module_file(true, Ok(inside), &root, text()), ModuleFile::Absolute));
    for outside in [names(&["home", "games", "x.l0"]), names(&["home"]), names(&["etc", "game"])] {
        assert!(matches!(module_file(false, Ok(outside), &root, text()), ModuleFile::Escapes));
    }
    match module_file(false, Err("gone".to_string()), &root, text()) {
        ModuleFile::Unresolved(reason) => assert_eq!(reason, "gone"),
        other => panic!("{other:?}"),
    }
    match module_file(false, Ok(vec![]), &vec![], Err("a directory".to_string())) {
        ModuleFile::Found { id, source } => {
            assert_eq!((id.as_str(), source), ("/", Err("a directory".to_string())));
        }
        other => panic!("{other:?}"),
    }
}

fn description(truncation: &str, splitter: &str, processor: &str, added: &str) -> String {
    [
        r#"{"version": "1.0", "padding": null, "normalizer": null, "decoder" : null, "truncation": "#,
        truncation,
        r#", "pre_tokenizer": "#,
        splitter,
        r#", "post_processor": "#,
        processor,
        r#", "added_tokens": ["#,
        added,
        r#"], "model": {"type": "WordLevel", "vocab": {"a": 0, "b": 1, "u": 2}, "unk_token": "u"}}"#,
    ]
    .concat()
}

const SPACES: &str = r#"{"type": "Whitespace"}"#;

fn steady(text: &str) -> bool {
    tokens::is_steady(&text.parse::<Tokenizer>().unwrap())
}

#[test]
fn descriptions_are_read_where_they_are_plain() {
    let text = description("null", SPACES, "null", "");
    assert!(tokens::is_plain(&text));
    let mut tokenizers = Tokenizers::default();
    let id = tokens::host_tokenizer_load(&mut tokenizers, Ok(text.clone())).unwrap();
    assert!(id.same(&Value::I32(1)));
    assert!(!tokens::is_plain(&text.replace(r#""decoder" : null"#, r#""decoder" : {"#)));
    assert!(!tokens::is_plain(r#"{"decoder":"#));
    assert!(!tokens::is_plain(r#"{"normalizer": {"type": "Precompiled"}}"#));
    assert!(!tokens::is_plain(r#"{"continuing_subword_prefix": "^^"}"#));
    assert!(tokens::is_plain(r#"{"continuing_subword_prefix":	null}"#));
    assert!(!tokens::is_plain("{\"d\\u0065coder\": 1}"));
    assert!(!tokens::is_plain(r#"{"a": 4294967294}"#));
    assert!(!tokens::is_plain("0123456789"));
    assert!(tokens::is_plain("123456789 123456789"));
    assert!(!tokens::is_plain(r#"{"pattern": {"Regex": "("}}"#));
    assert!(tokens::is_plain("{}"));
    let held = tokens::hold_tokenizer(&mut tokenizers, Ok(text.parse().unwrap())).unwrap();
    assert!(held.same(&Value::I32(2)));
    assert_eq!(
        message(tokens::hold_tokenizer(&mut tokenizers, Err("gone".to_string()))),
        "runtime error: Failed to load tokenizer: gone"
    );
    assert_eq!(tokenizers.next, 3);
}

#[test]
fn tokenizers_are_looked_into_before_they_split() {
    let cut = |most: usize, stride: usize| {
        format!(
            r#"{{"direction": "Right", "max_length": {most}, "strategy": "LongestFirst", "stride": {stride}}}"#
        )
    };
    let bert = r#"{"type": "BertProcessing", "sep": ["b", 1], "cls": ["a", 0]}"#;
    let bytes = r#"{"type": "ByteLevel", "add_prefix_space": false, "trim_offsets": true, "use_regex": true}"#;
    assert!(steady(&description("null", SPACES, "null", "")));
    assert!(steady(&description(&cut(2, 1), SPACES, "null", "")));
    assert!(!steady(&description(&cut(2, 5), SPACES, "null", "")));
    assert!(!steady(&description(&cut(2, 2), SPACES, "null", "")));
    assert!(steady(&description(&cut(0, 7), SPACES, "null", "")));
    assert!(!steady(&description(&cut(1, 0), SPACES, bert, "")));
    assert!(steady(&description(&cut(2, 9), SPACES, bert, "")));
    assert!(!steady(&description(&cut(3, 1), SPACES, bert, "")));
    assert!(steady(&description(&cut(4, 1), SPACES, bert, "")));
    assert!(steady(&description(&cut(1, 0), SPACES, bytes, "")));
    assert!(!steady(&description("null", r#"{"type": "FixedLength", "length": 0}"#, "null", "")));
    assert!(!steady(&description(
        "null",
        r#"{"type": "Sequence", "pretokenizers": []}"#,
        "null",
        ""
    )));
    let split = r#"{"type": "Split", "pattern": {"String": "-"}, "behavior": "Removed", "invert": false}"#;
    assert!(!steady(&description("null", split, "null", "")));
    let template = r#"{"type": "TemplateProcessing", "single": [{"Sequence": {"id": "A", "type_id": 0}}],
        "pair": [], "special_tokens": {}}"#;
    assert!(!steady(&description("null", SPACES, template, "")));
    let added = r#"{"id": 3, "content": "x", "single_word": false, "lstrip": false, "rstrip": true,
        "normalized": false, "special": true}"#;
    assert!(!steady(&description("null", SPACES, "null", added)));
    let lower = description("null", SPACES, "null", "")
        .replace(r#""normalizer": null"#, r#""normalizer": {"type": "Lowercase"}"#);
    assert!(!steady(&lower));
    let padded = description("null", SPACES, "null", "").replace(
        r#""padding": null"#,
        r#""padding": {"strategy": "BatchLongest", "direction": "Right", "pad_to_multiple_of": null,
            "pad_id": 0, "pad_type_id": 0, "pad_token": "a"}"#,
    );
    assert!(!steady(&padded));
    let scored = r#"{"version": "1.0", "model": {"type": "Unigram", "unk_id": 0, "vocab": [["a", 0.0]]}}"#;
    assert!(!steady(scored));
}

#[test]
fn tokens_are_cut_off_and_put_around() {
    let mut tokenizers = Tokenizers::default();
    let mut heap = Heap::default();
    let cut = r#"{"direction": "Right", "max_length": 4, "strategy": "LongestFirst", "stride": 1}"#;
    let bert = r#"{"type": "BertProcessing", "sep": ["b", 1], "cls": ["a", 0]}"#;
    let text = description(cut, SPACES, bert, "");
    tokens::host_tokenizer_load(&mut tokenizers, Ok(text)).unwrap();
    let words = heap.allocate(HeapObject::String("b b b b".to_string()));
    let arguments = vec![Value::I32(1), Value::String(words)];
    assert!(tokens::may_encode(&tokenizers, &arguments, &heap));
    let v = tokens::host_tokenizer_encode(&tokenizers, &arguments, &mut heap).unwrap();
    let Value::Array(reference, _) = &v else { panic!() };
    let HeapObject::Array { bytes, .. } = heap.get(*reference).unwrap() else { panic!() };
    assert_eq!(*bytes, vec![0, 0, 0, 0, 1, 0, 0, 0, 1, 0, 0, 0, 1, 0, 0, 0]);

    let (id, text) = tokens::encode_operands(&tokenizers, &arguments, &heap).unwrap();
    assert_eq!((id, text.as_str()), (1, "b b b b"));
    assert_eq!(
        tokens::encode_operands(&tokenizers, &vec![Value::I32(5), Value::String(words)], &heap)
            .unwrap_err()
            .to_text(),
        "runtime error: Tokenizer not found"
    );
    let v = tokens::settle_tokens(&mut heap, Ok(vec![7])).unwrap();
    let Value::Array(reference, _) = &v else { panic!() };
    let HeapObject::Array { bytes, .. } = heap.get(*reference).unwrap() else { panic!() };
    assert_eq!(*bytes, vec![7, 0, 0, 0]);
    assert_eq!(
        message(tokens::settle_tokens(&mut heap, Err("no".to_string()))),
        "runtime error: Encode error: no"
    );
}

#[test]
fn tokenizers_that_cannot_be_called_are_told_apart() {
    let mut tokenizers = Tokenizers::default();
    let mut heap = Heap::default();
    let cut = r#"{"direction": "Right", "max_length": 2, "strategy": "LongestFirst", "stride": 5}"#;
    let text = description(cut, SPACES, "null", "");
    assert!(tokens::is_plain(&text));
    tokens::host_tokenizer_load(&mut tokenizers, Ok(text)).unwrap();
    let words = heap.allocate(HeapObject::String("a a a".to_string()));
    assert!(!tokens::may_encode(&tokenizers, &vec![Value::I32(1), Value::String(words)], &heap));
    assert!(tokens::may_encode(&tokenizers, &vec![], &heap));
}

#[test]
fn slots_count_towards_the_next_collection() {
    let mut heap = Heap::default();
    let before = heap.allocated_bytes;
    heap.allocate(HeapObject::Array { bytes: vec![0; 64], element: Type::U8 });
    assert!(heap.allocated_bytes >= before + 64 + std::mem::size_of::<l0::heap::HeapSlot>());
    heap.threshold_bytes = heap.allocated_bytes + 1;
    assert!(!heap.should_collect());
    heap.threshold_bytes = heap.allocated_bytes;
    assert!(heap.should_collect());
}

#[test]
fn names_in_code_are_shared() {
    let source = "let t: table<i32> = table { a = 1, b = 2 }; t.a = 3; print(t.a); print(t.b)";
    let (program, strings) = Parser::new(lex(source).unwrap()).into_program().unwrap();
    let code = Compiler::default().with_strings(strings).compile(program).unwrap();
    let mut shared: Vec<Rc<String>> = Vec::new();
    for constant in &code.constants {
        match constant {
            Constant::String(name) if **name == "a" => shared.push(name.clone()),
            Constant::Entries(entries) => {
                for entry in entries.iter() {
                    match entry {
                        TableEntry::Name(name) if **name == "a" => shared.push(name.clone()),
                        _ => {}
                    }
                }
            }
            _ => {}
        }
    }
    assert!(shared.len() >= 3);
    assert!(shared.iter().all(|name| Rc::ptr_eq(name, &shared[0])));
}

#[test]
fn pairs_of_items_are_turned() {
    let mut tensors = Tensors::default();
    let t = Tensor::new(&[[1.0f32, 2.0, 3.0, 4.0]], &Device::Cpu).unwrap();
    let id = tensors.insert_tensor(t);
    assert_eq!(
        rope::rope_call(&tensors, &ids(&[id, 7, 4])).unwrap(),
        (id, 7, 4)
    );
    assert_eq!(
        rope::rope_call(&tensors, &ids(&[9, 7, 4])).unwrap_err().to_text(),
        "runtime error: Tensor ID 9 not found in registry"
    );
    assert_eq!(
        rope::rope_call(&tensors, &vec![]).unwrap_err().to_text(),
        "runtime error: expects (i32, i32, i32)"
    );
    let turn = |tensors: &mut Tensors, angles: &[f32]| {
        let angles = Ok(Tensor::from_vec(angles.to_vec(), (1, angles.len()), &Device::Cpu).unwrap());
        assert!(rope::may_turn(tensors, id, &angles));
        rope::candle_apply_rope_id(tensors, id, angles)
    };
    let Value::I32(still) = turn(&mut tensors, &[0.0, 0.0]).unwrap() else { panic!() };
    let items = tensors.get_tensor(still).unwrap().to_vec2::<f32>().unwrap();
    assert_eq!(items, vec![vec![1.0, 2.0, 3.0, 4.0]]);
    let quarter = std::f32::consts::FRAC_PI_2;
    let Value::I32(turned) = turn(&mut tensors, &[quarter, 0.0]).unwrap() else { panic!() };
    let items = tensors.get_tensor(turned).unwrap().to_vec2::<f32>().unwrap();
    for (found, expected) in items[0].iter().zip([-3.0f32, 2.0, 1.0, 4.0]) {
        assert!((found - expected).abs() < 1e-5, "{items:?}");
    }
    assert!(turn(&mut tensors, &[0.0]).is_err());
    assert_eq!(
        message(rope::candle_apply_rope_id(&mut tensors, id, Err("no angles".to_string()))),
        "runtime error: no angles"
    );
    let half = tensors.get_tensor(id).unwrap().to_dtype(DType::F16).unwrap();
    let half = tensors.insert_tensor(half);
    let angles = Ok(Tensor::new(&[[0.0f32, 0.0]], &Device::Cpu).unwrap());
    assert!(!rope::may_turn(&tensors, half, &angles));
    let short = Ok(Tensor::new(&[[0.0f32]], &Device::Cpu).unwrap());
    assert!(rope::may_turn(&tensors, half, &short));
    assert!(rope::candle_apply_rope_id(&mut tensors, half, short).is_err());
}

#[test]
fn decoders_of_plain_entries_are_read() {
    let text = description("null", SPACES, "null", "");
    let mut tokenizers = Tokenizers::default();
    let decoder = |value: &str| text.replace(r#""decoder" : null"#, &format!("\"decoder\" :{value}"));
    let bytes = decoder(
        r#" { "type" : "ByteLevel", "add_prefix_space":true, "trim_offsets":false,"use_regex": null }"#,
    );
    assert!(!tokens::is_plain(&decoder(r#"{"type": "Fuse", "a": 1}"#)));
    assert!(tokens::is_plain(&bytes.replace("null }", "true }")));
    let loaded = tokens::host_tokenizer_load(
        &mut tokenizers,
        Ok(bytes.replace("null }", "true }")),
    );
    assert!(loaded.unwrap().same(&Value::I32(1)));
    let fused = decoder(r#"{"type":"Fuse"}"#);
    assert!(tokens::is_plain(&fused));
    assert!(tokens::host_tokenizer_load(&mut tokenizers, Ok(fused)).is_ok());
    let unknown = decoder(r#"{"type":"Nothing"}"#);
    assert!(tokens::is_plain(&unknown));
    assert!(tokens::host_tokenizer_load(&mut tokenizers, Ok(unknown)).is_err());
    for cut in [r#"{"type":"Fuse""#, r#"{"type":"Fuse",}"#, "{}", r#"{"a":[]}"#, r#"{"a":"\n"}"#] {
        assert!(!tokens::is_plain(&decoder(cut)));
    }
}
