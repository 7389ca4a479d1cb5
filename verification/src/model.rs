//! Models: tensors by name, as tables of their numbers.
use vstd::prelude::*;
use std::rc::Rc;
use candle_core::Tensor;
use crate::bridge::{came_to, candle_to_tensor, fetched, float_type, put_tensor, stored_tensor};
use crate::candle::{Tensors, TensorsView, can_be_counted, lookup, with_tensor};
use crate::heap::{Heap, HeapObject, ObjectView, object_at, with_object};
use crate::host::misused;
use crate::semantics::{HeapView, fresh};
use crate::tensors::{
    Items, Kind, contents, countable, dims_of, floats, floats_gives, kind_of, shared, tensor_dims,
    tensor_kind,
};
use crate::text::cat3;
use crate::tokens::{got_text, heap_text, text_at};
use crate::types::{Error, ErrorView, Type, TypeView, runtime_error, type_error};
use crate::value::{TableKey, TableKeyView, Value, ValueView};
use crate::views::{
    Dict, distinct_keys, entries_map, group_views, lemma_entry, lemma_has_entry, views,
};

verus! {

broadcast use group_views;

/// A table of the numbers under which tensors are held, one after the other.
pub open spec fn model_table(
    v: TensorsView,
    table: Map<TableKeyView, ValueView>,
    list: Seq<(String, Tensor)>,
) -> (TensorsView, Map<TableKeyView, ValueView>)
    decreases list.len(),
{
    if list.len() == 0 {
        (v, table)
    } else {
        model_table(
            with_tensor(v, list[0].1),
            table.insert(TableKeyView::Name(list[0].0@), ValueView::I32(v.next)),
            list.drop_first(),
        )
    }
}

/// Holds the tensors of a model, and puts a table of their numbers into the
/// heap: what `candle_load_model` does with the tensors of its file, up to the
/// first that cannot be loaded, and with the reason why it cannot.
pub fn candle_load_model(
    tensors: &mut Tensors,
    heap: &mut Heap,
    loaded: Vec<(String, Tensor)>,
    failure: Option<String>,
) -> (r: Result<Value, Error>)
    requires
        old(heap).wf(),
        old(tensors).next + loaded@.len() <= i32::MAX,
    ensures
        final(heap).wf(),
        ({
            let (v, entries) = model_table(old(tensors)@, Map::empty(), loaded@);
            &&& final(tensors)@ == v
            &&& match failure {
                None => {
                    &&& final(heap)@ == with_object(
                        old(heap)@,
                        ObjectView::Table { entries, element: TypeView::I32 },
                    )
                    &&& r is Ok
                    &&& r->Ok_0@ == ValueView::Table(fresh(old(heap)@), TypeView::I32)
                },
                Some(text) => {
                    &&& final(heap)@ == old(heap)@
                    &&& r is Err
                    &&& r->Err_0@ == ErrorView::Runtime(text@)
                },
            }
        }),
{
    let mut rest = loaded;
    let mut entries: Dict<TableKey, Value> = Dict::new();
    while rest.len() > 0
        invariant
            tensors.next + rest@.len() <= i32::MAX,
            model_table(old(tensors)@, Map::empty(), loaded@) == model_table(
                tensors@,
                entries@,
                rest@,
            ),
        decreases rest@.len(),
    {
        let ghost before = rest@;
        let (name, tensor) = rest.remove(0);
        assert(rest@ =~= before.drop_first());
        let id: i32 = tensors.insert_tensor(tensor);
        let _known: bool = entries.insert(TableKey::Name(Rc::new(name)), Value::I32(id));
    }
    match failure {
        None => {
            let reference = heap.allocate(HeapObject::Table { entries, element: Type::I32 });
            Ok(Value::Table(reference, Box::new(Type::I32)))
        },
        Some(text) => Err(Error::Runtime(text)),
    }
}

/// The two texts that `candle_load_safetensor` is called on: a file and a name.
pub open spec fn load_call(
    h: HeapView,
    arguments: Seq<ValueView>,
) -> Result<(Seq<char>, Seq<char>), ErrorView> {
    if arguments.len() != 2 {
        Err(misused("expects 2 strings"@))
    } else {
        match named_text(h, arguments[0], "path must be a string"@) {
            Err(e) => Err(e),
            Ok(path) => match named_text(h, arguments[1], "tensor_name must be a string"@) {
                Err(e) => Err(e),
                Ok(name) => Ok((path, name)),
            },
        }
    }
}

pub open spec fn named_text(
    h: HeapView,
    v: ValueView,
    message: Seq<char>,
) -> Result<Seq<char>, ErrorView> {
    match v {
        ValueView::String(r) => match object_at(h, r) {
            Err(e) => Err(e),
            Ok(object) => match object {
                ObjectView::String(text) => Ok(text),
                _ => Err(misused("invalid string"@)),
            },
        },
        _ => Err(ErrorView::Type(message)),
    }
}

fn text_of_value(value: &Value, heap: &Heap, message: &str) -> (r: Result<String, Error>)
    ensures
        got_text(r, named_text(heap@, value@, message@)),
{
    match value {
        Value::String(reference) => match heap.get(*reference)? {
            HeapObject::String(text) => Ok(text.clone()),
            _ => Err(runtime_error("invalid string")),
        },
        _ => Err(type_error(message)),
    }
}

/// The file and the name that `candle_load_safetensor` is called on.
pub fn safetensor_call(arguments: &Vec<Value>, heap: &Heap) -> (r: Result<(String, String), Error>)
    ensures
        match r {
            Ok((path, name)) => load_call(heap@, views(arguments@)) == Ok::<
                (Seq<char>, Seq<char>),
                ErrorView,
            >((path@, name@)),
            Err(e) => load_call(heap@, views(arguments@)) == Err::<
                (Seq<char>, Seq<char>),
                ErrorView,
            >(e@),
        },
{
    if arguments.len() != 2 {
        return Err(runtime_error("expects 2 strings"));
    }
    assert(views(arguments@)[0] == arguments@[0]@);
    assert(views(arguments@)[1] == arguments@[1]@);
    let path = text_of_value(&arguments[0], heap, "path must be a string")?;
    let name = text_of_value(&arguments[1], heap, "tensor_name must be a string")?;
    Ok((path, name))
}

/// Puts the tensor of a name into the heap: what `candle_load_safetensor` does
/// with what it found in its file.
pub fn candle_load_safetensor(
    name: &str,
    found: Option<&Tensor>,
    heap: &mut Heap,
) -> (r: Result<Value, Error>)
    requires
        old(heap).wf(),
        found matches Some(t) ==> countable(dims_of(*t)),
    ensures
        final(heap).wf(),
        match found {
            None => {
                &&& final(heap)@ == old(heap)@
                &&& r is Err
                &&& r->Err_0@ == ErrorView::Runtime("Tensor '"@ + name@ + "' not found"@)
            },
            Some(t) => {
                &&& exists|items: Result<Seq<u8>, Seq<char>>| #[trigger]
                    fetched(contents(*t), items) && came_to(
                        final(heap)@,
                        r,
                        put_tensor(old(heap)@, kind_of(*t), dims_of(*t), items),
                    )
                &&& float_type(kind_of(*t)) is None ==> r is Err
                &&& match r {
                    Ok(v) => stored_tensor(old(heap)@, final(heap)@, contents(*t), v@),
                    Err(e) => final(heap)@ == old(heap)@ && e@ is Runtime,
                }
            },
        },
{
    match found {
        Some(t) => candle_to_tensor(t, heap),
        None => Err(Error::Runtime(cat3("Tensor '", name, "' not found"))),
    }
}

/// What is saved of a tensor: floats of 16 bits with the range of 32 as floats
/// of 32 bits, anything else as it is.
pub open spec fn saved_as(i: Items, x: Items) -> bool {
    if i.kind == Kind::BF16 {
        floats_gives(i, x) && x.kind == Kind::F32 && x.dims == i.dims
    } else {
        x == i
    }
}

/// Whether a tensor is what is saved under a name.
pub open spec fn saved_entry(
    v: TensorsView,
    entries: Map<TableKeyView, ValueView>,
    name: Seq<char>,
    x: Items,
) -> bool {
    let key = TableKeyView::Name(name);
    &&& entries.contains_key(key)
    &&& entries[key] is I32
    &&& v.held.contains_key(entries[key]->I32_0)
    &&& saved_as(contents(v.held[entries[key]->I32_0]), x)
}

/// Whether a list has exactly the tensors that a table names.
pub open spec fn saves(
    v: TensorsView,
    entries: Map<TableKeyView, ValueView>,
    list: Seq<(String, Tensor)>,
) -> bool {
    &&& forall|k: int|
        #![trigger list[k]]
        0 <= k < list.len() ==> saved_entry(v, entries, list[k].0@, contents(list[k].1))
    &&& forall|i: int, j: int|
        #![trigger list[i], list[j]]
        0 <= i < j < list.len() ==> list[i].0@ != list[j].0@
    &&& forall|name: Seq<char>|
        #![trigger listed(list, name)]
        entries.contains_key(TableKeyView::Name(name)) && entries[TableKeyView::Name(name)] is I32
            ==> listed(list, name)
}

pub open spec fn listed(list: Seq<(String, Tensor)>, name: Seq<char>) -> bool {
    exists|k: int| 0 <= k < list.len() && (#[trigger] list[k]).0@ == name
}

/// Whether a table has a number under a name.
pub open spec fn names(entries: Map<TableKeyView, ValueView>, name: Seq<char>, id: i32) -> bool {
    entries.contains_key(TableKeyView::Name(name)) && entries[TableKeyView::Name(name)]
        == ValueView::I32(id)
}

/// Whether every tensor that a table names is held.
pub open spec fn all_held(v: TensorsView, entries: Map<TableKeyView, ValueView>) -> bool {
    forall|name: Seq<char>, id: i32| #[trigger]
        names(entries, name, id) ==> v.held.contains_key(id)
}

/// Whether a tensor that a table names has to be converted before it is saved.
pub open spec fn converts(v: TensorsView, entries: Map<TableKeyView, ValueView>) -> bool {
    exists|name: Seq<char>, id: i32| #[trigger]
        names(entries, name, id) && v.held.contains_key(id) && kind_of(v.held[id]) == Kind::BF16
}

/// Whether a failure says that a tensor that a table names is not held.
pub open spec fn says_missing(
    v: TensorsView,
    entries: Map<TableKeyView, ValueView>,
    e: ErrorView,
) -> bool {
    exists|name: Seq<char>, id: i32| #[trigger]
        names(entries, name, id) && lookup(v, id) == Err::<Tensor, ErrorView>(e)
}

/// Whether the tensors that a table names were collected. It fails where one is
/// not held, and may fail where one has to be converted.
pub open spec fn collected(
    v: TensorsView,
    entries: Map<TableKeyView, ValueView>,
    r: Result<Seq<(String, Tensor)>, ErrorView>,
) -> bool {
    match r {
        Ok(list) => all_held(v, entries) && saves(v, entries, list),
        Err(e) => says_missing(v, entries, e) || (e is Runtime && converts(v, entries)),
    }
}

/// The table and the file that `candle_save_model` is called on.
pub open spec fn save_call(
    h: HeapView,
    arguments: Seq<ValueView>,
) -> Result<(Map<TableKeyView, ValueView>, Seq<char>), ErrorView> {
    let message = "candle_save_model expects (table<i32>, string)"@;
    if arguments.len() == 2 {
        match (arguments[0], arguments[1]) {
            (ValueView::Table(t, _), ValueView::String(p)) => match text_at(h, p) {
                Err(e) => Err(e),
                Ok(path) => match object_at(h, t) {
                    Err(e) => Err(e),
                    Ok(object) => match object {
                        ObjectView::Table { entries, .. } => Ok((entries, path)),
                        _ => Err(misused("invalid table heap object"@)),
                    },
                },
            },
            _ => Err(misused(message)),
        }
    } else {
        Err(misused(message))
    }
}

/// Whether `candle_save_model` can be carried out: the tensors that have to be
/// converted can be counted.
pub open spec fn save_allowed(v: TensorsView, h: HeapView, arguments: Seq<ValueView>) -> bool {
    match save_call(h, arguments) {
        Err(_) => true,
        Ok((entries, _)) => convertible(v, entries),
    }
}

/// Whether the tensors that a table names and that have to be converted can be
/// counted.
pub open spec fn convertible(v: TensorsView, entries: Map<TableKeyView, ValueView>) -> bool {
    forall|name: Seq<char>, id: i32| #[trigger]
        names(entries, name, id) && v.held.contains_key(id) && kind_of(v.held[id]) == Kind::BF16
            ==> countable(dims_of(v.held[id]))
}

/// Whether `candle_save_model` can be carried out.
pub fn may_save(tensors: &Tensors, arguments: &Vec<Value>, heap: &Heap) -> (r: bool)
    ensures
        r == save_allowed(tensors@, heap@, views(arguments@)),
{
    if arguments.len() == 2 {
        assert(views(arguments@)[0] == arguments@[0]@);
        assert(views(arguments@)[1] == arguments@[1]@);
        if let (Value::Table(table, _), Value::String(path)) = (&arguments[0], &arguments[1]) {
            if heap_text(heap, *path).is_err() {
                return true;
            }
            if let Ok(HeapObject::Table { entries, .. }) = heap.get(*table) {
                return can_convert(tensors, entries);
            }
        }
    }
    true
}

fn can_convert(tensors: &Tensors, entries: &Dict<TableKey, Value>) -> (r: bool)
    ensures
        r == convertible(tensors@, entries@),
{
    let pairs = entries.entries();
    let mut k: usize = 0;
    while k < pairs.len()
        invariant
            k <= pairs@.len(),
            distinct_keys(pairs@),
            entries_map(pairs@) == entries@,
            forall|j: int|
                #![trigger pairs@[j]]
                0 <= j < k && pairs@[j].0@ is Name && pairs@[j].1@ is I32
                    ==> tensors@.held.contains_key(pairs@[j].1@->I32_0) && kind_of(
                    tensors@.held[pairs@[j].1@->I32_0],
                ) == Kind::BF16 ==> countable(dims_of(tensors@.held[pairs@[j].1@->I32_0])),
        decreases pairs@.len() - k,
    {
        if let (TableKey::Name(name), Value::I32(id)) = (&pairs[k].0, &pairs[k].1) {
            if let Ok(t) = tensors.get_tensor(*id) {
                if tensor_kind(t) == Kind::BF16 && !can_be_counted(&tensor_dims(t)) {
                    proof {
                        lemma_entry(pairs@, k as int);
                        assert(names(entries@, name@, *id));
                    }
                    return false;
                }
            }
        }
        k += 1;
    }
    proof {
        assert forall|name: Seq<char>, id: i32| #[trigger]
            names(entries@, name, id) && tensors@.held.contains_key(id) && kind_of(
                tensors@.held[id],
            ) == Kind::BF16 implies countable(dims_of(tensors@.held[id])) by {
            lemma_has_entry(pairs@, TableKeyView::Name(name));
            let j = choose|j: int|
                0 <= j < pairs@.len() && (#[trigger] pairs@[j]).0@ == TableKeyView::Name(name);
            lemma_entry(pairs@, j);
        }
    }
    true
}

/// The tensors to save, by name, and the file to save them in: what
/// `candle_save_model` is called on. An entry that is no number under a name is
/// left out.
pub fn model_to_save(
    tensors: &Tensors,
    arguments: &Vec<Value>,
    heap: &Heap,
) -> (r: Result<(String, Vec<(String, Tensor)>), Error>)
    requires
        save_allowed(tensors@, heap@, views(arguments@)),
    ensures
        match save_call(heap@, views(arguments@)) {
            Err(e) => r is Err && r->Err_0@ == e,
            Ok((entries, path)) => {
                &&& all_held(tensors@, entries) && !converts(tensors@, entries) ==> r is Ok
                &&& !all_held(tensors@, entries) ==> r is Err
                &&& match r {
                    Ok((file, list)) => file@ == path && collected(
                        tensors@,
                        entries,
                        Ok(list@),
                    ),
                    Err(e) => e@ is Runtime && collected(tensors@, entries, Err(e@)),
                }
            },
        },
{
    if arguments.len() == 2 {
        assert(views(arguments@)[0] == arguments@[0]@);
        assert(views(arguments@)[1] == arguments@[1]@);
        if let (Value::Table(table, _), Value::String(path)) = (&arguments[0], &arguments[1]) {
            let file = heap_text(heap, *path)?;
            return match heap.get(*table)? {
                HeapObject::Table { entries, .. } => match collect(tensors, entries) {
                    Ok(list) => Ok((file, list)),
                    Err(e) => Err(e),
                },
                _ => Err(runtime_error("invalid table heap object")),
            };
        }
    }
    Err(runtime_error("candle_save_model expects (table<i32>, string)"))
}

/// The tensors that a table names.
fn collect(
    tensors: &Tensors,
    entries: &Dict<TableKey, Value>,
) -> (r: Result<Vec<(String, Tensor)>, Error>)
    requires
        convertible(tensors@, entries@),
    ensures
        match r {
            Ok(list) => collected(tensors@, entries@, Ok(list@)),
            Err(e) => e@ is Runtime && collected(tensors@, entries@, Err(e@)),
        },
{
    let pairs = entries.entries();
    let mut list: Vec<(String, Tensor)> = Vec::new();
    let mut k: usize = 0;
    while k < pairs.len()
        invariant
            k <= pairs@.len(),
            convertible(tensors@, entries@),
            distinct_keys(pairs@),
            entries_map(pairs@) == entries@,
            forall|j: int|
                #![trigger list@[j]]
                0 <= j < list@.len() ==> saved_entry(
                    tensors@,
                    entries@,
                    list@[j].0@,
                    contents(list@[j].1),
                ) && listed_before(pairs@, k as int, list@[j].0@),
            forall|i: int, j: int|
                #![trigger list@[i], list@[j]]
                0 <= i < j < list@.len() ==> list@[i].0@ != list@[j].0@,
            forall|j: int|
                #![trigger pairs@[j]]
                0 <= j < k && pairs@[j].0@ is Name && pairs@[j].1@ is I32
                    ==> tensors@.held.contains_key(pairs@[j].1@->I32_0),
            forall|j: int|
                #![trigger pairs@[j]]
                0 <= j < k && pairs@[j].0@ is Name && pairs@[j].1@ is I32 ==> listed(
                    list@,
                    pairs@[j].0@->Name_0,
                ),
        decreases pairs@.len() - k,
    {
        let ghost before = list@;
        proof {
            lemma_entry(pairs@, k as int);
        }
        if let (TableKey::Name(name), Value::I32(id)) = (&pairs[k].0, &pairs[k].1) {
            assert(names(entries@, name@, *id));
            let t = tensors.get_tensor(*id)?;
            let saved: Tensor = match tensor_kind(t) {
                Kind::BF16 => match floats(t) {
                    Ok(x) => x,
                    Err(text) => {
                        return Err(Error::Runtime(text));
                    },
                },
                _ => shared(t),
            };
            assert(saved_entry(tensors@, entries@, name@, contents(saved)));
            list.push(((**name).clone(), saved));
            proof {
                assert(list@[before.len() as int].0@ == name@);
                assert forall|i: int, j: int|
                    #![trigger list@[i], list@[j]]
                    0 <= i < j < list@.len() implies list@[i].0@ != list@[j].0@ by {
                    if j == before.len() {
                        assert(list@[i] == before[i]);
                        assert(listed_before(pairs@, k as int, before[i].0@));
                    } else {
                        assert(list@[i] == before[i] && list@[j] == before[j]);
                    }
                }
            }
        }
        proof {
            assert forall|j: int|
                #![trigger list@[j]]
                0 <= j < list@.len() implies saved_entry(
                tensors@,
                entries@,
                list@[j].0@,
                contents(list@[j].1),
            ) && listed_before(pairs@, k + 1, list@[j].0@) by {
                if j < before.len() {
                    assert(list@[j] == before[j]);
                    assert(listed_before(pairs@, k as int, before[j].0@));
                    let i = choose|i: int|
                        0 <= i < k && (#[trigger] pairs@[i]).0@ == TableKeyView::Name(
                            before[j].0@,
                        );
                    assert(pairs@[i].0@ == TableKeyView::Name(list@[j].0@));
                } else {
                    assert(pairs@[k as int].0@ == TableKeyView::Name(list@[j].0@));
                }
            }
            assert forall|j: int|
                #![trigger pairs@[j]]
                0 <= j < k + 1 && pairs@[j].0@ is Name && pairs@[j].1@ is I32 implies listed(
                list@,
                pairs@[j].0@->Name_0,
            ) by {
                if j < k {
                    let i = choose|i: int|
                        0 <= i < before.len() && (#[trigger] before[i]).0@ == pairs@[j].0@->Name_0;
                    assert(list@[i] == before[i]);
                } else {
                    assert(list@[before.len() as int].0@ == pairs@[j].0@->Name_0);
                }
            }
        }
        k += 1;
    }
    proof {
        assert forall|name: Seq<char>, id: i32| #[trigger]
            names(entries@, name, id) implies tensors@.held.contains_key(id) by {
            lemma_has_entry(pairs@, TableKeyView::Name(name));
            let j = choose|j: int|
                0 <= j < pairs@.len() && (#[trigger] pairs@[j]).0@ == TableKeyView::Name(name);
            lemma_entry(pairs@, j);
        }
        assert forall|name: Seq<char>|
            #![trigger listed(list@, name)]
            entries@.contains_key(TableKeyView::Name(name)) && entries@[TableKeyView::Name(
                name,
            )] is I32 implies listed(list@, name) by {
            lemma_has_entry(pairs@, TableKeyView::Name(name));
            let j = choose|j: int|
                0 <= j < pairs@.len() && (#[trigger] pairs@[j]).0@ == TableKeyView::Name(name);
            lemma_entry(pairs@, j);
        }
    }
    Ok(list)
}

spec fn listed_before(pairs: Seq<(TableKey, Value)>, n: int, name: Seq<char>) -> bool {
    exists|i: int| 0 <= i < n && (#[trigger] pairs[i]).0@ == TableKeyView::Name(name)
}

} // verus!
