use std::rc::Rc;

use candle_core::{DType, Device, Tensor};
use l0::bridge;
use l0::candle::{self, Tensors};
use l0::ffi::{c_scalar_type, c_signature, L0State, L0TypeId, ABI_VERSION};
use l0::heap::{Heap, HeapObject};
use l0::host;
use l0::instance::{Answer, CandleExtension, ExternalFunction, Instance, Request};
use l0::model;
use l0::norm;
use l0::sample;
use l0::tokens::{self, Tokenizers};
use l0::types::{Error, Type};
use l0::value::{HeapRef, TableKey, Value};
use l0::views::Dict;

fn float(n: f32) -> Value {
    Value::F32(n.to_bits())
}

fn packed(numbers: &[f32]) -> Vec<u8> {
    numbers.iter().flat_map(|n| n.to_bits().to_le_bytes()).collect()
}

fn float_tensor(heap: &mut Heap, numbers: &[f32], shape: &[usize]) -> Value {
    let reference = heap.allocate(HeapObject::Tensor {
        bytes: packed(numbers),
        element: Type::F32,
        shape: shape.to_vec(),
    });
    Value::Tensor(reference, Rc::new(Type::Tensor(Box::new(Type::F32), shape.len())))
}

fn float_vector(heap: &mut Heap, numbers: &[f32]) -> Value {
    let reference = heap.allocate(HeapObject::Array { bytes: packed(numbers), element: Type::F32 });
    Value::Array(reference, Box::new(Type::F32))
}

fn string(heap: &mut Heap, text: &str) -> Value {
    Value::String(heap.allocate(HeapObject::String(text.to_string())))
}

fn vector_numbers(heap: &Heap, value: &Value) -> Vec<f32> {
    let Value::Array(reference, _) = value else { panic!("no vector: {value:?}") };
    let HeapObject::Array { bytes, element } = heap.get(*reference).unwrap() else {
        panic!("no vector in the heap")
    };
    assert_eq!(*element, Type::F32);
    bytes.chunks(4).map(|b| f32::from_le_bytes([b[0], b[1], b[2], b[3]])).collect()
}

fn tensor_parts(heap: &Heap, value: &Value) -> (Vec<f32>, Vec<usize>) {
    let Value::Tensor(reference, _) = value else { panic!("no tensor: {value:?}") };
    let HeapObject::Tensor { bytes, shape, .. } = heap.get(*reference).unwrap() else {
        panic!("no tensor in the heap")
    };
    let numbers = bytes.chunks(4).map(|b| f32::from_le_bytes([b[0], b[1], b[2], b[3]])).collect();
    (numbers, shape.clone())
}

fn message(result: Result<Value, Error>) -> String {
    result.unwrap_err().to_text()
}

fn held(tensors: &mut Tensors, numbers: &[f32], shape: &[usize]) -> i32 {
    tensors.insert_tensor(Tensor::from_vec(numbers.to_vec(), shape, &Device::Cpu).unwrap())
}

fn numbers_of(tensors: &Tensors, value: &Value) -> (Vec<f32>, Vec<usize>) {
    let Value::I32(id) = value else { panic!("no number: {value:?}") };
    let t = tensors.get_tensor(*id).unwrap();
    (t.flatten_all().unwrap().to_vec1::<f32>().unwrap(), t.dims().to_vec())
}

fn ids(numbers: &[i32]) -> Vec<Value> {
    numbers.iter().map(|n| Value::I32(*n)).collect()
}

#[test]
fn integers_are_written_in_decimal() {
    let mut heap = Heap::default();
    let value = host::int2str(&vec![Value::I64(-9223372036854775808)], &mut heap).unwrap();
    let Value::String(reference) = value else { panic!() };
    let HeapObject::String(text) = heap.get(reference).unwrap() else { panic!() };
    assert_eq!(text, "-9223372036854775808");
    assert_eq!(
        message(host::int2str(&vec![Value::I32(1)], &mut heap)),
        "runtime error: int2str expects exactly one i64 argument"
    );
}

#[test]
fn tensor_items_are_bit_patterns() {
    let mut heap = Heap::default();
    let value = float_tensor(&mut heap, &[1.5, -2.0], &[2]);
    let (items, shape) = host::t_square_operand(&vec![value], &heap).unwrap();
    assert!(items[0].same(&float(1.5)) && items[1].same(&float(-2.0)));
    assert_eq!((items.len(), shape), (2, vec![2]));
    assert_eq!(
        host::t_square_operand(&vec![], &heap).unwrap_err().to_text(),
        "runtime error: t_square expects 1 dTensor"
    );
    let odd = heap.allocate(HeapObject::Tensor {
        bytes: vec![0; 4],
        element: Type::I32,
        shape: vec![1],
    });
    let odd = Value::Tensor(odd, Rc::new(Type::DTensor));
    assert_eq!(
        host::t_sum_operand(&vec![odd.clone()], &heap).unwrap_err().to_text(),
        "type error: expected tensor<f32>"
    );
    assert_eq!(
        host::t_log_operand(&vec![odd], &heap).unwrap_err().to_text(),
        "runtime error: invalid tensor heap object or element type"
    );
}

#[test]
fn products_need_tensors_of_one_size() {
    let mut heap = Heap::default();
    let a = float_tensor(&mut heap, &[1.0, 2.0], &[2]);
    let b = float_tensor(&mut heap, &[3.0], &[1]);
    assert_eq!(
        host::t_mul_operands(&vec![a.clone(), b], &heap).unwrap_err().to_text(),
        "runtime error: t_mul expects tensors of the same size for element-wise multiplication"
    );
    let ((left, shape), (right, _)) = host::t_mul_operands(&vec![a.clone(), a.clone()], &heap).unwrap();
    assert!(left[1].same(&right[1]));
    assert_eq!(shape, vec![2]);
    assert_eq!(
        host::svdvals_operand(&vec![a.clone()], &heap).unwrap_err().to_text(),
        "runtime error: SVD requires a 2D tensor"
    );
    let (_, _, scalar) = host::t_scalar_div_operands(&vec![a, float(2.5)], &heap).unwrap();
    assert_eq!(f32::from_bits(scalar), 2.5);
}

#[test]
fn reshaping_fills_in_one_dimension() {
    let mut heap = Heap::default();
    let t = float_tensor(&mut heap, &[1.0, 2.0, 3.0, 4.0, 5.0, 6.0], &[6]);
    let arguments = vec![t.clone(), Value::I32(2), Value::I32(-1)];
    assert!(host::reshape_is_possible(&arguments, &heap));
    let r = host::t_reshape(&arguments, &mut heap).unwrap();
    assert_eq!(tensor_parts(&heap, &r), (vec![1.0, 2.0, 3.0, 4.0, 5.0, 6.0], vec![2, 3]));
    let r = host::t_reshape(&vec![t.clone(), Value::I32(-1), Value::I32(4)], &mut heap).unwrap();
    assert_eq!(tensor_parts(&heap, &r).1, vec![1, 4]);
    assert!(!host::reshape_is_possible(&vec![t.clone(), Value::I32(-1), Value::I32(0)], &heap));
    assert_eq!(
        message(host::t_reshape(&vec![t], &mut heap)),
        "runtime error: t_reshape expects 1 dTensor and 2 i32 arguments"
    );
}

#[test]
fn floats_are_put_into_the_heap() {
    let mut heap = Heap::default();
    let values = vec![float(0.5), float(4.0)];
    let t = host::float_tensor(&mut heap, &values, vec![1, 2]).unwrap();
    assert_eq!(tensor_parts(&heap, &t), (vec![0.5, 4.0], vec![1, 2]));
    let v = host::float_vector(&mut heap, &values).unwrap();
    assert_eq!(vector_numbers(&heap, &v), vec![0.5, 4.0]);
    assert!(host::float_vector(&mut heap, &vec![Value::I32(1)]).is_err());
}

#[test]
fn vectors_are_added_and_cut_off() {
    let mut heap = Heap::default();
    let a = float_vector(&mut heap, &[1.0, -2.0, 3.0]);
    let b = float_vector(&mut heap, &[10.0, 20.0, 30.0]);
    let sum = bridge::candle_vector_add(&vec![a.clone(), b], &mut heap).unwrap();
    assert_eq!(vector_numbers(&heap, &sum), vec![11.0, 18.0, 33.0]);
    let cut = bridge::candle_vector_relu(&vec![a], &mut heap).unwrap();
    assert_eq!(vector_numbers(&heap, &cut), vec![1.0, 0.0, 3.0]);
    assert_eq!(
        message(bridge::candle_vector_add(&vec![], &mut heap)),
        "runtime error: expects 2 dArrays"
    );
    assert_eq!(
        message(bridge::candle_vector_relu(&vec![Value::I32(1)], &mut heap)),
        "runtime error: Expected vector"
    );
}

#[test]
fn matrices_are_multiplied() {
    let mut heap = Heap::default();
    let w = float_tensor(&mut heap, &[1.0, 2.0, 3.0, 4.0, 5.0, 6.0], &[2, 3]);
    let x = float_vector(&mut heap, &[1.0, 0.0, -1.0]);
    let arguments = vec![w.clone(), x];
    assert!(bridge::layer_is_possible(&arguments, &heap));
    let y = bridge::candle_l0_layer(&arguments, &mut heap).unwrap();
    assert_eq!(vector_numbers(&heap, &y), vec![-2.0, -2.0]);

    let u = float_tensor(&mut heap, &[1.0, 0.0, 0.0, 1.0, 1.0, 1.0], &[3, 2]);
    let arguments = vec![w.clone(), u];
    assert!(bridge::matmul_is_possible(&arguments, &heap));
    let p = bridge::candle_matmul(&arguments, &mut heap).unwrap();
    assert_eq!(tensor_parts(&heap, &p), (vec![4.0, 5.0, 10.0, 11.0], vec![2, 2]));
    assert!(bridge::candle_matmul(&vec![w.clone(), w.clone()], &mut heap).is_err());
    assert_eq!(bridge::tensor_extents(&vec![w], &heap).unwrap(), vec![2, 3]);
}

#[test]
fn incomplete_tensors_are_recognised() {
    let mut heap = Heap::default();
    let short = float_tensor(&mut heap, &[1.0, 2.0], &[2, 3]);
    assert!(!bridge::matmul_is_possible(&vec![short.clone(), short], &heap));
}

#[test]
fn tensors_are_held_by_number() {
    let mut tensors = Tensors::default();
    let a = held(&mut tensors, &[1.0, 2.0], &[2]);
    let b = held(&mut tensors, &[3.0, 4.0], &[2]);
    assert_eq!((a, b), (1, 2));
    let sum = candle::candle_add_id(&mut tensors, &ids(&[a, b])).unwrap();
    assert!(sum.same(&Value::I32(3)));
    assert_eq!(numbers_of(&tensors, &sum), (vec![4.0, 6.0], vec![2]));
    let product = candle::candle_mul_id(&mut tensors, &ids(&[a, b])).unwrap();
    assert_eq!(numbers_of(&tensors, &product), (vec![3.0, 8.0], vec![2]));
    assert!(candle::candle_free_tensor(&mut tensors, &ids(&[a])).unwrap().same(&Value::Bool(true)));
    assert_eq!(
        message(candle::candle_silu(&mut tensors, &ids(&[a]))),
        "runtime error: Tensor ID 1 not found in registry"
    );
    assert_eq!(
        message(candle::candle_silu(&mut tensors, &vec![])),
        "runtime error: expects i32"
    );
}

#[test]
fn rows_and_dimensions_are_picked() {
    let mut tensors = Tensors::default();
    let t = held(&mut tensors, &[1.0, 2.0, 3.0, 4.0, 5.0, 6.0], &[2, 3]);
    assert!(tensors.may_select(&ids(&[t, 1])));
    let row = candle::candle_embedding(&mut tensors, &ids(&[t, 1])).unwrap();
    assert_eq!(numbers_of(&tensors, &row), (vec![4.0, 5.0, 6.0], vec![3]));
    assert!(candle::candle_embedding(&mut tensors, &ids(&[t, 2])).is_err());
    assert!(candle::candle_embedding(&mut tensors, &ids(&[t, -1])).is_err());

    let turned = candle::candle_transpose_id(&mut tensors, &ids(&[t, 0, 1])).unwrap();
    assert_eq!(numbers_of(&tensors, &turned), (vec![1.0, 4.0, 2.0, 5.0, 3.0, 6.0], vec![3, 2]));
    assert!(candle::candle_transpose_id(&mut tensors, &ids(&[t, 0, 2])).is_err());

    let flat = candle::candle_reshape_id(&mut tensors, t, &vec![6]).unwrap();
    assert_eq!(numbers_of(&tensors, &flat).1, vec![6]);
    assert!(candle::candle_reshape_id(&mut tensors, t, &vec![4]).is_err());

    let joined = candle::candle_cat_id(&mut tensors, &ids(&[t, t, 1])).unwrap();
    assert_eq!(
        numbers_of(&tensors, &joined),
        (vec![1.0, 2.0, 3.0, 1.0, 2.0, 3.0, 4.0, 5.0, 6.0, 4.0, 5.0, 6.0], vec![2, 6])
    );
}

#[test]
fn products_by_number_stretch() {
    let mut tensors = Tensors::default();
    let w = held(&mut tensors, &[1.0, 2.0, 3.0, 4.0], &[2, 2]);
    let x = held(&mut tensors, &[1.0, 1.0], &[2]);
    assert!(tensors.may_apply(&ids(&[w, x])));
    let y = candle::candle_linear_id(&mut tensors, &ids(&[w, x])).unwrap();
    assert_eq!(numbers_of(&tensors, &y), (vec![3.0, 7.0], vec![2]));
    let batch = held(&mut tensors, &[1.0, 0.0, 0.0, 1.0, 0.0, 1.0, 1.0, 0.0], &[2, 2, 2]);
    assert!(tensors.may_multiply(&ids(&[w, batch])));
    let p = candle::candle_matmul_id(&mut tensors, &ids(&[w, batch])).unwrap();
    assert_eq!(
        numbers_of(&tensors, &p),
        (vec![1.0, 2.0, 3.0, 4.0, 2.0, 1.0, 4.0, 3.0], vec![2, 2, 2])
    );
}

#[test]
fn heads_are_repeated() {
    let mut tensors = Tensors::default();
    let t = held(&mut tensors, &[1.0, 2.0, 3.0, 4.0], &[1, 2, 2]);
    assert!(tensors.may_repeat(&ids(&[t, 2])));
    let r = candle::candle_repeat_kv_id(&mut tensors, &ids(&[t, 2])).unwrap();
    assert_eq!(
        numbers_of(&tensors, &r),
        (vec![1.0, 2.0, 1.0, 2.0, 3.0, 4.0, 3.0, 4.0], vec![1, 4, 2])
    );
    let flat = held(&mut tensors, &[1.0], &[1]);
    assert_eq!(
        message(candle::candle_repeat_kv_id(&mut tensors, &ids(&[flat, 2]))),
        "runtime error: repeat_kv expects 3D or 4D tensor"
    );
    assert!(!tensors.may_repeat(&ids(&[t, -1])));
}

#[test]
fn shares_add_up_to_one() {
    let mut tensors = Tensors::default();
    let t = held(&mut tensors, &[1.0, 1.0, 1.0, 1.0], &[2, 2]);
    let all = candle::candle_softmax(&mut tensors, &ids(&[t])).unwrap();
    assert_eq!(numbers_of(&tensors, &all), (vec![0.5, 0.5, 0.5, 0.5], vec![2, 2]));
    let first = candle::candle_softmax_dim_id(&mut tensors, &ids(&[t, 0])).unwrap();
    assert_eq!(numbers_of(&tensors, &first).0, vec![0.5, 0.5, 0.5, 0.5]);
    assert!(candle::candle_softmax_dim_id(&mut tensors, &ids(&[t, 2])).is_err());
    let zero = held(&mut tensors, &[0.0], &[1]);
    let silu = candle::candle_silu(&mut tensors, &ids(&[zero])).unwrap();
    assert_eq!(numbers_of(&tensors, &silu), (vec![0.0], vec![1]));
}

#[test]
fn integers_cannot_be_computed_on() {
    let mut tensors = Tensors::default();
    let n = tensors.insert_tensor(Tensor::new(&[1u32, 2], &Device::Cpu).unwrap());
    assert!(!tensors.may_compute(&ids(&[n])));
    assert!(tensors.may_count(&ids(&[n])));
}

#[test]
fn the_greatest_item_is_found() {
    let mut tensors = Tensors::default();
    let t = held(&mut tensors, &[0.5, 7.0, -1.0, 6.5], &[2, 2]);
    assert!(candle::candle_argmax_token(&tensors, &ids(&[t])).unwrap().same(&Value::I32(1)));
    let half = tensors.insert_tensor(
        Tensor::new(&[1.0f32, 3.0, 2.0], &Device::Cpu).unwrap().to_dtype(DType::BF16).unwrap(),
    );
    assert!(candle::candle_argmax_token(&tensors, &ids(&[half])).unwrap().same(&Value::I32(1)));
    assert_eq!(
        message(candle::candle_argmax_token(&tensors, &vec![])),
        "runtime error: candle_argmax_token expects 1 i32 (tensor ID)"
    );
}

#[test]
fn tensors_come_back_as_vectors() {
    let mut tensors = Tensors::default();
    let mut heap = Heap::default();
    let t = held(&mut tensors, &[2.5, -1.0], &[1, 2]);
    let v = bridge::candle_get_darray(&tensors, &ids(&[t]), &mut heap).unwrap();
    assert_eq!(vector_numbers(&heap, &v), vec![2.5, -1.0]);
    let n = tensors.insert_tensor(Tensor::new(&[1u32], &Device::Cpu).unwrap());
    assert_eq!(
        message(bridge::candle_get_darray(&tensors, &ids(&[n]), &mut heap)),
        "runtime error: Unsupported Candle dtype"
    );
    let half = Tensor::new(&[1.0f32], &Device::Cpu).unwrap().to_dtype(DType::F16).unwrap();
    let value = bridge::candle_to_tensor(&half, &mut heap).unwrap();
    assert_eq!(value.ty().to_text(), Type::Tensor(Box::new(Type::F16), 1).to_text());
}

#[test]
fn reshapes_read_their_extents() {
    let mut tensors = Tensors::default();
    let mut heap = Heap::default();
    let t = held(&mut tensors, &[1.0, 2.0], &[2]);
    let dims = float_vector(&mut heap, &[2.0, 1.0]);
    let arguments = vec![Value::I32(t), dims];
    let (id, extents) = candle::reshape_call_of(&tensors, &arguments, &heap).unwrap();
    assert_eq!(id, t);
    assert!(extents[0].same(&float(2.0)) && extents[1].same(&float(1.0)));
    assert_eq!(
        candle::reshape_call_of(&tensors, &vec![], &heap).unwrap_err().to_text(),
        "runtime error: expects (i32, dArray)"
    );
    assert_eq!(tensors.dims(t), Some(vec![2]));
}

#[test]
fn models_are_tables_of_numbers() {
    let mut tensors = Tensors::default();
    let mut heap = Heap::default();
    let loaded = vec![
        ("a".to_string(), Tensor::new(&[1.0f32], &Device::Cpu).unwrap()),
        (
            "b".to_string(),
            Tensor::new(&[2.0f32], &Device::Cpu).unwrap().to_dtype(DType::BF16).unwrap(),
        ),
    ];
    let table = model::candle_load_model(&mut tensors, &mut heap, loaded, None).unwrap();
    let Value::Table(reference, _) = &table else { panic!() };
    let HeapObject::Table { entries, .. } = heap.get(*reference).unwrap() else { panic!() };
    assert!(entries.get(&TableKey::Name(Rc::new("a".to_string()))).unwrap().same(&Value::I32(1)));
    assert!(entries.get(&TableKey::Name(Rc::new("b".to_string()))).unwrap().same(&Value::I32(2)));

    let path = string(&mut heap, "model.safetensors");
    let (file, list) =
        model::model_to_save(&tensors, &vec![table.clone(), path.clone()], &heap).unwrap();
    assert_eq!(file, "model.safetensors");
    assert_eq!(list.len(), 2);
    for (name, t) in &list {
        assert_eq!(t.dtype(), DType::F32);
        assert_eq!(t.to_vec1::<f32>().unwrap(), vec![if name == "a" { 1.0 } else { 2.0 }]);
    }
    assert_eq!(
        model::model_to_save(&tensors, &vec![path.clone()], &heap).unwrap_err().to_text(),
        "runtime error: candle_save_model expects (table<i32>, string)"
    );
    candle::candle_free_tensor(&mut tensors, &ids(&[1])).unwrap();
    assert_eq!(
        model::model_to_save(&tensors, &vec![table, path], &heap).unwrap_err().to_text(),
        "runtime error: Tensor ID 1 not found in registry"
    );
}

#[test]
fn entries_that_are_no_numbers_are_not_saved() {
    let tensors = Tensors::default();
    let mut heap = Heap::default();
    let mut entries: Dict<TableKey, Value> = Dict::new();
    entries.insert(TableKey::Index(1), Value::I32(9));
    entries.insert(TableKey::Name(Rc::new("x".to_string())), Value::Bool(true));
    let reference = heap.allocate(HeapObject::Table { entries, element: Type::I32 });
    let path = string(&mut heap, "m");
    let arguments = vec![Value::Table(reference, Box::new(Type::I32)), path];
    let (_, list) = model::model_to_save(&tensors, &arguments, &heap).unwrap();
    assert!(list.is_empty());
}

#[test]
fn tensors_of_files_are_found_by_name() {
    let mut heap = Heap::default();
    let path = string(&mut heap, "weights");
    let name = string(&mut heap, "w");
    let (p, n) = model::safetensor_call(&vec![path.clone(), name], &heap).unwrap();
    assert_eq!((p.as_str(), n.as_str()), ("weights", "w"));
    assert_eq!(
        model::safetensor_call(&vec![path, Value::I32(1)], &heap).unwrap_err().to_text(),
        "type error: tensor_name must be a string"
    );
    assert_eq!(
        message(model::candle_load_safetensor("w", None, &mut heap)),
        "runtime error: Tensor 'w' not found"
    );
    let t = Tensor::new(&[[1.0f32, 2.0]], &Device::Cpu).unwrap();
    let value = model::candle_load_safetensor("w", Some(&t), &mut heap).unwrap();
    assert_eq!(tensor_parts(&heap, &value), (vec![1.0, 2.0], vec![1, 2]));
}

const WORDS: &str = r#"{
  "version": "1.0", "truncation": null, "padding": null, "added_tokens": [],
  "normalizer": null, "pre_tokenizer": {"type": "Whitespace"}, "post_processor": null,
  "decoder": null,
  "model": {"type": "WordLevel",
    "vocab": {"hello": 0, "▁world": 1, "<0x0A>": 2, "Ġx": 3, "[UNK]": 4, "world": 5},
    "unk_token": "[UNK]"}
}"#;

fn text_of(heap: &Heap, value: &Value) -> String {
    let Value::String(reference) = value else { panic!("no string: {value:?}") };
    let HeapObject::String(text) = heap.get(*reference).unwrap() else { panic!() };
    text.clone()
}

#[test]
fn tokens_are_decoded() {
    let mut tokenizers = Tokenizers::default();
    let mut heap = Heap::default();
    let id = tokens::host_tokenizer_load(&mut tokenizers, Ok(WORDS.to_string())).unwrap();
    assert!(id.same(&Value::I32(1)));
    let mut decoded = Vec::new();
    for token in [0, 1, 2, 3, 99] {
        let v = tokens::host_tokenizer_decode(&tokenizers, &ids(&[1, token]), &mut heap).unwrap();
        decoded.push(text_of(&heap, &v));
    }
    assert_eq!(decoded, vec!["hello", " world", "\n", " x", ""]);
    assert_eq!(
        message(tokens::host_tokenizer_decode(&tokenizers, &ids(&[2, 0]), &mut heap)),
        "runtime error: Tokenizer not found"
    );
    assert_eq!(
        message(tokens::host_tokenizer_decode(&tokenizers, &vec![], &mut heap)),
        "runtime error: tokenizer_decode expects (tokenizer_id: i32, token: i32)"
    );
}

#[test]
fn texts_are_split_into_tokens() {
    let mut tokenizers = Tokenizers::default();
    let mut heap = Heap::default();
    tokens::host_tokenizer_load(&mut tokenizers, Ok(WORDS.to_string())).unwrap();
    let text = string(&mut heap, "hello world hello");
    let arguments = vec![Value::I32(1), text];
    assert!(tokens::may_encode(&tokenizers, &arguments, &heap));
    let v = tokens::host_tokenizer_encode(&tokenizers, &arguments, &mut heap).unwrap();
    let Value::Array(reference, element) = &v else { panic!() };
    assert_eq!(**element, Type::I32);
    let HeapObject::Array { bytes, .. } = heap.get(*reference).unwrap() else { panic!() };
    assert_eq!(*bytes, vec![0, 0, 0, 0, 5, 0, 0, 0, 0, 0, 0, 0]);
    assert_eq!(
        message(tokens::host_tokenizer_encode(&tokenizers, &vec![], &mut heap)),
        "runtime error: tokenizer_encode expects (tokenizer_id: i32, text: string)"
    );
}

#[test]
fn unreadable_tokenizers_are_refused() {
    let mut tokenizers = Tokenizers::default();
    let mut heap = Heap::default();
    assert_eq!(
        message(tokens::host_tokenizer_load(&mut tokenizers, Err("no such file".to_string()))),
        "runtime error: Failed to load tokenizer: no such file"
    );
    assert!(tokens::is_plain("{"));
    let refused = message(tokens::host_tokenizer_load(&mut tokenizers, Ok("{".to_string())));
    assert!(refused.starts_with("runtime error: Failed to load tokenizer: "));
    assert_eq!(tokenizers.next, 1);
    assert_eq!(
        tokens::tokenizer_path(&vec![Value::I32(1)], &heap).unwrap_err().to_text(),
        "runtime error: tokenizer_load expects 1 string (path)"
    );
    let path = string(&mut heap, "tokenizer.json");
    assert_eq!(tokens::tokenizer_path(&vec![path.clone()], &heap).unwrap(), "tokenizer.json");
    assert_eq!(tokens::model_path(&vec![path], &heap).unwrap(), "tokenizer.json");
}

#[test]
fn tokens_are_cleaned_from_left_to_right() {
    assert_eq!(tokens::clean_token("a\u{2581}b\u{120}<0x0A><0x0A"), "a b \n<0x0A");
}

#[test]
fn scores_are_read_as_floats() {
    let mut heap = Heap::default();
    let mut tensors = Tensors::default();
    let halves = Tensor::from_vec(vec![1.5f32, -2.0, 0.25, 4.0], (2, 2), &Device::Cpu)
        .unwrap()
        .to_dtype(DType::BF16)
        .unwrap();
    let id = tensors.insert_tensor(halves);
    let context = heap.allocate(HeapObject::Tensor {
        bytes: vec![0, 0, 0, 0],
        element: Type::I32,
        shape: vec![1],
    });
    let arguments = |id: i32| {
        vec![
            Value::I32(id),
            float(1.0),
            Value::Tensor(context, Rc::new(Type::DTensor)),
            Value::I32(1),
            float(2.0),
        ]
    };
    assert!(sample::may_sample(&tensors, &arguments(id), &heap));
    let (s, scores) = sample::sample_scores(&tensors, &arguments(id), &heap).ok().unwrap();
    assert_eq!(s.scores, id);
    let floats: Vec<f32> = scores.iter().map(|bits| f32::from_bits(*bits)).collect();
    assert_eq!(floats, [1.5, -2.0, 0.25, 4.0]);
    assert_eq!(
        sample::sample_scores(&tensors, &arguments(id + 1), &heap).err().unwrap().to_text(),
        format!("runtime error: Tensor ID {} not found in registry", id + 1)
    );
}

#[test]
fn sampling_reads_its_arguments() {
    let mut heap = Heap::default();
    let context = heap.allocate(HeapObject::Tensor {
        bytes: [1i32, 1, 7, -2].iter().flat_map(|n| n.to_le_bytes()).collect(),
        element: Type::I32,
        shape: vec![4],
    });
    let arguments = |length: i32, penalty: f32, temperature: f32| {
        vec![
            Value::I32(3),
            float(temperature),
            Value::Tensor(context, Rc::new(Type::DTensor)),
            Value::I32(length),
            float(penalty),
        ]
    };
    let s = sample::sample_operands(&arguments(3, 1.5, 0.0), &heap).unwrap();
    assert_eq!(s.context, vec![1, 1, 7, -2]);
    assert_eq!(s.penalties(8), vec![1, 1, 7]);
    assert_eq!(s.penalties(4), vec![1, 1]);
    assert!(s.is_greedy());
    let s = sample::sample_operands(&arguments(-1, 1.5, 0.7), &heap).unwrap();
    assert_eq!(s.penalties(8), vec![1, 1, 7]);
    assert!(!s.is_greedy());
    let s = sample::sample_operands(&arguments(3, 1.0, f32::NAN), &heap).unwrap();
    assert!(s.penalties(8).is_empty());
    assert!(!s.is_greedy());
    assert_eq!(
        sample::sample_operands(&vec![], &heap).err().unwrap().to_text(),
        "runtime error: candle_sample_token expects (i32, f32, dTensor, i32, f32)"
    );
    let mut wrong = arguments(1, 1.0, 1.0);
    wrong[2] = float_tensor(&mut heap, &[1.0], &[1]);
    assert_eq!(
        sample::sample_operands(&wrong, &heap).err().unwrap().to_text(),
        "type error: expected tensor<i32>"
    );
}

#[test]
fn floats_compare_by_their_bits() {
    let numbers = [f32::NEG_INFINITY, -2.5, -0.0, 0.0, 1.0e-40, 1.0, f32::INFINITY, f32::NAN];
    for a in numbers {
        for b in numbers {
            assert_eq!(sample::is_less(a.to_bits(), b.to_bits()), a < b);
        }
        assert_eq!(sample::is_divided(a.to_bits()), a > 0.0);
    }
}

#[test]
fn the_first_best_token_is_taken() {
    let bits = |numbers: &[f32]| numbers.iter().map(|n| n.to_bits()).collect::<Vec<u32>>();
    assert_eq!(sample::greedy_token(&bits(&[0.5, 2.0, f32::NAN, 2.0])), 1);
    assert_eq!(sample::greedy_token(&bits(&[-3.0, -1.0])), 1);
    assert_eq!(sample::greedy_token(&bits(&[f32::NAN, f32::NEG_INFINITY])), 0);
    assert_eq!(sample::greedy_token(&vec![]), 0);
}

#[test]
fn a_token_is_drawn_by_its_share() {
    let sums: Vec<u64> = [0.25f64, 0.5, 1.0].iter().map(|n| n.to_bits()).collect();
    assert_eq!(sample::drawn_token(0.1f64.to_bits(), &sums), 0);
    assert_eq!(sample::drawn_token(0.25f64.to_bits(), &sums), 1);
    assert_eq!(sample::drawn_token(0.75f64.to_bits(), &sums), 2);
    assert_eq!(sample::drawn_token(1.0f64.to_bits(), &sums), 0);
    assert_eq!(sample::chance(1), 1082269761);
}

#[test]
fn type_numbers_stand_for_types() {
    assert_eq!(ABI_VERSION, 3);
    assert_eq!(L0TypeId::from_raw(0), Some(L0TypeId::I8));
    assert_eq!(L0TypeId::from_raw(13), Some(L0TypeId::DTensor));
    assert_eq!(L0TypeId::from_raw(14), None);
    assert_eq!(L0TypeId::from_raw(-1), None);
    assert_eq!(c_scalar_type(11), Some(Type::Bool));
    let signature = c_signature(&vec![9, 2], 12).unwrap();
    assert_eq!(signature.arguments, vec![Type::F32, Type::I32]);
    assert_eq!(signature.result, Type::DArray);
    assert!(c_signature(&vec![2, 99], 2).is_none());
}

fn finish_without_floats(state: &mut L0State, add: &dyn Fn(&mut L0State) -> i32) -> bool {
    loop {
        state.vm.advance(1_000);
        let call = match state.vm.request() {
            Some(Request::Host { function: ExternalFunction::C(_), arguments, .. }) => {
                Some(arguments.clone())
            }
            Some(other) => panic!("unexpected request {other:?}"),
            None => None,
        };
        match call {
            Some(arguments) => {
                state.begin_call(arguments);
                let status = add(state);
                let answer = state.end_call(status);
                assert!(state.vm.resume(answer));
            }
            None => {
                if !state.vm.is_running() {
                    return state.end();
                }
            }
        }
    }
}

#[test]
fn c_functions_read_arguments_and_push_results() {
    let mut state = L0State::default();
    assert!(state.register_i32_function("c_add".to_string(), 7, 2));
    assert!(!state.register_i32_function("c_add".to_string(), 7, 2));
    assert!(state.begin("print(c_add(40, 2))"), "{:?}", state.last_error);
    let ok = finish_without_floats(&mut state, &|state| {
        let sum = match (state.ffi_argument(0), state.ffi_argument(1)) {
            (Some(Value::I32(a)), Some(Value::I32(b))) => a + b,
            _ => return 1,
        };
        assert!(state.ffi_argument(2).is_none());
        state.ffi_push(Value::I32(sum));
        0
    });
    assert!(ok);
    assert_eq!(state.vm.output(), &vec!["42".to_string()]);
}

#[test]
fn failing_c_functions_leave_a_message() {
    let mut state = L0State::default();
    assert!(state.register_c_function("c_fail".to_string(), 1, &vec![2], 2));
    assert!(!state.register_c_function("c_odd".to_string(), 1, &vec![77], 2));
    assert!(state.begin("print(c_fail(1));"), "{:?}", state.last_error);
    assert!(!state.begin("print(1);"));
    assert!(!finish_without_floats(&mut state, &|_| 5));
    assert_eq!(
        state.last_error.clone().unwrap(),
        "runtime error: C function 'c_fail' failed with status 5"
    );
    assert!(!state.is_executing);
    state.give_up();
    assert_eq!(
        state.last_error.clone().unwrap(),
        "panic prevented from crossing the C ABI boundary"
    );
}

#[test]
fn values_are_pushed_outside_of_calls() {
    let mut state = L0State::default();
    state.ffi_push(Value::I32(5));
    assert!(state.ffi_argument(0).unwrap().same(&Value::I32(5)));
    assert!(state.ffi_argument(1).is_none());
}

#[test]
fn programs_that_do_not_compile_are_reported() {
    let mut state = L0State::default();
    assert!(!state.begin("let x: i32 = true;"));
    assert!(state.last_error.is_some());
    assert!(!state.is_executing);
}

#[test]
fn the_extension_registers_its_functions_once() {
    let mut instance = Instance::default();
    assert_eq!(CandleExtension.name(), "candle");
    assert!(CandleExtension.register(&mut instance).is_ok());
    assert_eq!(
        CandleExtension.register(&mut instance).unwrap_err().to_text(),
        "type error: external function 'candle_l0_layer' is already registered"
    );
    assert!(instance.extern_functions.contains_key(&"candle_sample_token".to_string()));
    assert_eq!(instance.extern_functions.len(), 30);
}

#[test]
fn answers_to_other_requests_are_not_taken() {
    let mut state = L0State::default();
    assert!(state.register_i32_function("f".to_string(), 1, 0));
    assert!(state.begin("print(f());"), "{:?}", state.last_error);
    state.vm.advance(100);
    assert!(state.vm.request().is_some());
    assert!(!state.vm.resume(Answer::End));
    assert!(state.vm.request().is_some());
    assert!(state.vm.resume(Answer::C { status: 0, results: vec![Value::I32(3)] }));
    state.vm.advance(100);
    assert_eq!(state.vm.output(), &vec!["3".to_string()]);
}

#[test]
fn dangling_references_are_refused() {
    let heap = Heap::default();
    let value = Value::Array(HeapRef(3), Box::new(Type::F32));
    let mut target = Heap::default();
    assert_eq!(
        message(bridge::candle_vector_relu(&vec![value], &mut target)),
        "runtime error: dangling heap reference"
    );
    assert!(heap.get(HeapRef(0)).is_err());
}

#[test]
fn stretched_tensors_are_packed_first() {
    let mut tensors = Tensors::default();
    let row = Tensor::new(&[1.0f32, 2.0, 3.0], &Device::Cpu).unwrap();
    let wide = tensors.insert_tensor(row.broadcast_as((1, 3)).unwrap());
    assert!(tensors.may_share(&ids(&[wide, 0])));
    let shares = candle::candle_softmax_dim_id(&mut tensors, &ids(&[wide, 0])).unwrap();
    assert_eq!(numbers_of(&tensors, &shares), (vec![1.0, 1.0, 1.0], vec![1, 3]));
    let single = Tensor::new(2.5f32, &Device::Cpu).unwrap();
    let column = tensors.insert_tensor(single.broadcast_as((1,)).unwrap());
    assert!(tensors.may_compute(&ids(&[column])));
    let share = candle::candle_softmax(&mut tensors, &ids(&[column])).unwrap();
    assert_eq!(numbers_of(&tensors, &share), (vec![1.0], vec![1]));
    assert!(tensors.may_count(&ids(&[column])));
    assert_eq!(
        candle::candle_argmax_token(&tensors, &ids(&[column])).unwrap(),
        Value::I32(0)
    );
}

#[test]
fn means_of_squares_divide_the_items() {
    let mut tensors = Tensors::default();
    let t = held(&mut tensors, &[3.0, 4.0, 6.0, 8.0], &[2, 2]);
    let w = held(&mut tensors, &[2.0, 0.5], &[2]);
    let arguments = vec![Value::I32(t), Value::I32(w), float(0.0)];
    assert!(norm::may_mean(&tensors, &arguments));
    let means = norm::rms_means(&tensors, &arguments).ok().unwrap();
    assert_eq!(means.dims(), [2, 1]);
    assert_eq!(means.flatten_all().unwrap().to_vec1::<f32>().unwrap(), [12.5, 50.0]);
    let shifted = Tensor::new(&[[4.0f32], [16.0]], &Device::Cpu).unwrap();
    assert!(norm::may_norm(&tensors, &arguments, &shifted));
    let r = norm::rms_settle(&mut tensors, &arguments, &shifted).unwrap();
    assert_eq!(numbers_of(&tensors, &r), (vec![3.0, 1.0, 3.0, 1.0], vec![2, 2]));
    assert_eq!(
        norm::rms_means(&tensors, &ids(&[t, w])).err().unwrap().to_text(),
        "runtime error: expects (i32, i32, f32)"
    );
    let missing = vec![Value::I32(t), Value::I32(99), float(0.0)];
    assert_eq!(
        message(norm::rms_settle(&mut tensors, &missing, &shifted)),
        "runtime error: Tensor ID 99 not found in registry"
    );
    let wide = Tensor::new(&[[1.0f32], [1.0], [1.0]], &Device::Cpu).unwrap();
    assert!(norm::may_norm(&tensors, &arguments, &wide));
    assert!(norm::rms_settle(&mut tensors, &arguments, &wide).is_err());
    let whole = tensors.insert_tensor(Tensor::new(&[1u32, 2], &Device::Cpu).unwrap());
    assert!(!norm::may_mean(&tensors, &vec![Value::I32(whole), Value::I32(w), float(0.0)]));
}

#[test]
fn negative_parts_are_cut_off_to_the_bit() {
    let mut heap = Heap::default();
    let tiny = f32::from_bits(1);
    let v = float_vector(&mut heap, &[-tiny, tiny, f32::INFINITY, f32::NEG_INFINITY, 0.0]);
    let cut = bridge::candle_vector_relu(&vec![v], &mut heap).unwrap();
    let bits: Vec<u32> = vector_numbers(&heap, &cut).iter().map(|n| n.to_bits()).collect();
    assert_eq!(bits, [0, 1, f32::INFINITY.to_bits(), 0, 0]);
}

#[test]
fn single_scores_are_taken_as_they_are() {
    let mut heap = Heap::default();
    let mut tensors = Tensors::default();
    let id = held(&mut tensors, &[0.1, -0.0, 7.25], &[3]);
    let context = heap.allocate(HeapObject::Tensor {
        bytes: vec![0, 0, 0, 0],
        element: Type::I32,
        shape: vec![1],
    });
    let arguments = vec![
        Value::I32(id),
        float(1.0),
        Value::Tensor(context, Rc::new(Type::DTensor)),
        Value::I32(1),
        float(1.0),
    ];
    let (_, scores) = sample::sample_scores(&tensors, &arguments, &heap).ok().unwrap();
    assert_eq!(scores, [0.1f32.to_bits(), 0x8000_0000, 7.25f32.to_bits()]);
}
