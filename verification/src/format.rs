//! How values are written: text with places for the floats in it.
use vstd::prelude::*;
use crate::heap::{Heap, HeapObject, ObjectView, object_at};
use crate::scalar::{decode_scalar, decoded};
use crate::text::{cat2, cat4, chars_of, decimal, usize_text};
use crate::types::{
    Error, ErrorView, TypeView, runtime_error, scalar_size, scalar_size_of, type_text,
};
use crate::value::{
    FieldView, HeapRef, StructField, TableKey, TableKeyView, Value, ValueView, key_text, plain_text,
    table_key_display,
};
use crate::views::{group_views, same, views};

verus! {

broadcast use group_views;

/// A part of a text: characters, or a float whose digits are still to be found.
#[derive(Debug)]
pub enum Piece {
    Text(String),
    Float(Value),
}

/// The mathematical model of a [`Piece`].
pub enum PieceView {
    Text(Seq<char>),
    Float(ValueView),
}

impl View for Piece {
    type V = PieceView;

    open spec fn view(&self) -> PieceView {
        match *self {
            Piece::Text(text) => PieceView::Text(text@),
            Piece::Float(value) => PieceView::Float(value@),
        }
    }
}

/// How a value is written without looking into the heap.
pub open spec fn value_piece(v: ValueView) -> PieceView {
    match plain_text(v) {
        Some(text) => PieceView::Text(text),
        None => PieceView::Float(v),
    }
}

/// The pieces so far, with a comma before every item but the first.
pub open spec fn separated(acc: Seq<PieceView>, i: int) -> Seq<PieceView> {
    if i > 0 {
        acc.push(PieceView::Text(", "@))
    } else {
        acc
    }
}

/// The cells of a packed buffer from `i` on.
pub open spec fn cells(
    acc: Seq<PieceView>,
    bytes: Seq<u8>,
    element: TypeView,
    i: int,
    n: int,
) -> Result<Seq<PieceView>, ErrorView>
    decreases n - i,
{
    if i < 0 || i >= n {
        Ok(acc)
    } else {
        match decoded(bytes, i as usize, element) {
            Err(e) => Err(e),
            Ok(v) => cells(separated(acc, i).push(value_piece(v)), bytes, element, i + 1, n),
        }
    }
}

/// The numbers of a shape from `i` on.
pub open spec fn dimensions_text(acc: Seq<char>, shape: Seq<usize>, i: int) -> Seq<char>
    decreases shape.len() - i,
{
    if i < 0 || i >= shape.len() {
        acc
    } else {
        let comma = if i > 0 {
            ", "@
        } else {
            ""@
        };
        dimensions_text(acc + comma + decimal(shape[i] as int), shape, i + 1)
    }
}

/// The keys of a list from `i` on.
pub open spec fn keys_text(acc: Seq<char>, keys: Seq<TableKeyView>, i: int) -> Seq<char>
    decreases keys.len() - i,
{
    if i < 0 || i >= keys.len() {
        acc
    } else {
        let comma = if i > 0 {
            ", "@
        } else {
            ""@
        };
        keys_text(acc + comma + key_text(keys[i]), keys, i + 1)
    }
}

pub open spec fn array_pieces(
    h: Seq<Option<ObjectView>>,
    r: HeapRef,
    element: TypeView,
) -> Result<Seq<PieceView>, ErrorView> {
    match object_at(h, r) {
        Err(e) => Err(e),
        Ok(object) => match object {
            ObjectView::Array { bytes, element: stored } => if stored != element {
                Err(ErrorView::Runtime("array heap invariant broken"@))
            } else {
                match scalar_size_of(element) {
                    Err(e) => Err(e),
                    Ok(size) => match cells(
                        seq![PieceView::Text("["@)],
                        bytes,
                        element,
                        0,
                        bytes.len() as int / size as int,
                    ) {
                        Err(e) => Err(e),
                        Ok(pieces) => Ok(pieces.push(PieceView::Text("]"@))),
                    },
                }
            },
            _ => Err(ErrorView::Runtime("array heap invariant broken"@)),
        },
    }
}

/// How a value that is neither a vector nor a struct is written.
pub open spec fn simple_piece(
    h: Seq<Option<ObjectView>>,
    v: ValueView,
) -> Result<PieceView, ErrorView> {
    match v {
        ValueView::Tensor(r, ty) => match object_at(h, r) {
            Err(e) => Err(e),
            Ok(object) => match object {
                ObjectView::Tensor { shape, .. } => Ok(
                    PieceView::Text(type_text(ty) + "["@ + dimensions_text(""@, shape, 0) + "]"@),
                ),
                _ => Err(ErrorView::Runtime("tensor heap invariant broken"@)),
            },
        },
        ValueView::String(r) => match object_at(h, r) {
            Err(e) => Err(e),
            Ok(object) => match object {
                ObjectView::String(text) => Ok(PieceView::Text(text)),
                _ => Err(ErrorView::Runtime("string heap invariant broken"@)),
            },
        },
        ValueView::Table(r, element) => match object_at(h, r) {
            Err(e) => Err(e),
            Ok(object) => match object {
                ObjectView::Table { entries, .. } => Ok(
                    PieceView::Text(
                        "table<"@ + type_text(element) + ">("@ + decimal(entries.len() as int)
                            + ")"@,
                    ),
                ),
                _ => Err(ErrorView::Runtime("table heap invariant broken"@)),
            },
        },
        ValueView::TableKeys(r) => match object_at(h, r) {
            Err(e) => Err(e),
            Ok(object) => match object {
                ObjectView::TableKeys(keys) => Ok(
                    PieceView::Text("["@ + keys_text(""@, keys, 0) + "]"@),
                ),
                _ => Err(ErrorView::Runtime("table_keys heap invariant broken"@)),
            },
        },
        _ => Ok(value_piece(v)),
    }
}

/// How a value is written. `depth` bounds how far structs are nested; a struct
/// within itself has no finite text.
pub open spec fn value_pieces(
    h: Seq<Option<ObjectView>>,
    v: ValueView,
    depth: nat,
) -> Result<Seq<PieceView>, ErrorView>
    decreases depth, 0int,
{
    match v {
        ValueView::Array(r, element) => array_pieces(h, r, element),
        ValueView::Struct(r, _) => match object_at(h, r) {
            Err(e) => Err(e),
            Ok(object) => match object {
                ObjectView::Struct { values, layout } => if depth == 0 {
                    Err(ErrorView::Runtime("struct is nested in itself"@))
                } else {
                    match field_pieces(
                        h,
                        seq![PieceView::Text(layout.name + "{"@)],
                        values,
                        layout.fields,
                        0,
                        (depth - 1) as nat,
                    ) {
                        Err(e) => Err(e),
                        Ok(pieces) => Ok(pieces.push(PieceView::Text("}"@))),
                    }
                },
                _ => Err(ErrorView::Runtime("struct heap invariant broken"@)),
            },
        },
        _ => match simple_piece(h, v) {
            Err(e) => Err(e),
            Ok(piece) => Ok(seq![piece]),
        },
    }
}

/// The fields of a struct from `i` on.
pub open spec fn field_pieces(
    h: Seq<Option<ObjectView>>,
    acc: Seq<PieceView>,
    values: Seq<ValueView>,
    fields: Seq<FieldView>,
    i: int,
    depth: nat,
) -> Result<Seq<PieceView>, ErrorView>
    decreases depth, fields.len() - i + 1,
{
    if i < 0 || i >= fields.len() {
        Ok(acc)
    } else if fields[i].index >= values.len() {
        Err(ErrorView::Runtime("invalid struct field index"@))
    } else {
        match value_pieces(h, values[fields[i].index as int], depth) {
            Err(e) => Err(e),
            Ok(pieces) => field_pieces(
                h,
                separated(acc, i).push(PieceView::Text(fields[i].name + ": "@)) + pieces,
                values,
                fields,
                i + 1,
                depth,
            ),
        }
    }
}

/// A `printf` format from `i` on, with the arguments from `k` on in its places.
pub open spec fn printf_pieces(
    h: Seq<Option<ObjectView>>,
    acc: Seq<PieceView>,
    format: Seq<char>,
    i: int,
    args: Seq<ValueView>,
    k: int,
) -> Result<Seq<PieceView>, ErrorView>
    decreases format.len() - i,
{
    if i < 0 || i >= format.len() {
        if k != args.len() {
            Err(ErrorView::Runtime("printf has more arguments than placeholders"@))
        } else {
            Ok(acc)
        }
    } else if format[i] == '{' {
        if i + 1 < format.len() && format[i + 1] == '}' {
            if k >= args.len() {
                Err(ErrorView::Runtime("printf has more placeholders than arguments"@))
            } else {
                match value_pieces(h, args[k], h.len()) {
                    Err(e) => Err(e),
                    Ok(pieces) => printf_pieces(h, acc + pieces, format, i + 2, args, k + 1),
                }
            }
        } else if i + 1 < format.len() && format[i + 1] == '{' {
            printf_pieces(h, acc.push(PieceView::Text("{"@)), format, i + 2, args, k)
        } else {
            Err(ErrorView::Runtime("printf has an invalid '{' escape; use '{{' or '{}'"@))
        }
    } else if format[i] == '}' {
        if i + 1 < format.len() && format[i + 1] == '}' {
            printf_pieces(h, acc.push(PieceView::Text("}"@)), format, i + 2, args, k)
        } else {
            Err(ErrorView::Runtime("printf has an invalid '}' escape; use '}}'"@))
        }
    } else {
        printf_pieces(h, acc.push(PieceView::Text(seq![format[i]])), format, i + 1, args, k)
    }
}

/// The floats among pieces, from `i` on.
pub open spec fn floats_in(pieces: Seq<PieceView>, i: int) -> Seq<ValueView>
    decreases pieces.len() - i,
{
    if i < 0 || i >= pieces.len() {
        Seq::empty()
    } else {
        match pieces[i] {
            PieceView::Text(_) => floats_in(pieces, i + 1),
            PieceView::Float(v) => seq![v] + floats_in(pieces, i + 1),
        }
    }
}

/// The text of pieces from `i` on, the floats written as `texts` from `k` on.
pub open spec fn assembled(
    acc: Seq<char>,
    pieces: Seq<PieceView>,
    i: int,
    texts: Seq<Seq<char>>,
    k: int,
) -> Seq<char>
    decreases pieces.len() - i,
{
    if i < 0 || i >= pieces.len() {
        acc
    } else {
        match pieces[i] {
            PieceView::Text(text) => assembled(acc + text, pieces, i + 1, texts, k),
            PieceView::Float(_) => if 0 <= k < texts.len() {
                assembled(acc + texts[k], pieces, i + 1, texts, k + 1)
            } else {
                assembled(acc, pieces, i + 1, texts, k)
            },
        }
    }
}

fn piece_of(value: &Value) -> (r: Piece)
    ensures
        r@ == value_piece(value@),
{
    match value.to_plain_text() {
        Some(text) => Piece::Text(text),
        None => Piece::Float(value.clone()),
    }
}

fn separate(pieces: &mut Vec<Piece>, i: usize)
    ensures
        views(final(pieces)@) == separated(views(old(pieces)@), i as int),
{
    if i > 0 {
        pieces.push(Piece::Text(", ".to_string()));
    }
}

fn format_array(
    heap: &Heap,
    reference: HeapRef,
    element: &crate::types::Type,
) -> (r: Result<Vec<Piece>, Error>)
    ensures
        match r {
            Ok(pieces) => same(
                array_pieces(heap@, reference, element@),
                Ok::<Seq<PieceView>, ErrorView>(views(pieces@)),
            ),
            Err(e) => same(
                array_pieces(heap@, reference, element@),
                Err::<Seq<PieceView>, ErrorView>(e@),
            ),
        },
{
    match heap.get(reference)? {
        HeapObject::Array { bytes, element: stored } => {
            if !stored.same(element) {
                return Err(runtime_error("array heap invariant broken"));
            }
            let size: usize = scalar_size(element)?;
            let count: usize = bytes.len() / size;
            let mut pieces: Vec<Piece> = Vec::new();
            pieces.push(Piece::Text("[".to_string()));
            assert(views(pieces@) =~= seq![PieceView::Text("["@)]);
            let ghost start = views(pieces@);
            let mut i: usize = 0;
            while i < count
                invariant
                    i <= count,
                    same(
                        cells(start, bytes@, element@, 0, count as int),
                        cells(views(pieces@), bytes@, element@, i as int, count as int),
                    ),
                    array_pieces(heap@, reference, element@) == match cells(
                        start,
                        bytes@,
                        element@,
                        0,
                        count as int,
                    ) {
                        Err(e) => Err::<Seq<PieceView>, ErrorView>(e),
                        Ok(pieces) => Ok(pieces.push(PieceView::Text("]"@))),
                    },
                decreases count - i,
            {
                let value = decode_scalar(bytes.as_slice(), i, element)?;
                separate(&mut pieces, i);
                pieces.push(piece_of(&value));
                i += 1;
            }
            pieces.push(Piece::Text("]".to_string()));
            Ok(pieces)
        },
        _ => Err(runtime_error("array heap invariant broken")),
    }
}

fn shape_text(shape: &Vec<usize>) -> (r: String)
    ensures
        r@ == dimensions_text(""@, shape@, 0),
{
    let mut text: String = "".to_string();
    let mut i: usize = 0;
    while i < shape.len()
        invariant
            i <= shape@.len(),
            dimensions_text(""@, shape@, 0) == dimensions_text(text@, shape@, i as int),
        decreases shape@.len() - i,
    {
        text = crate::text::cat3(
            text.as_str(),
            if i > 0 {
                ", "
            } else {
                ""
            },
            usize_text(shape[i]).as_str(),
        );
        i += 1;
    }
    text
}

fn key_list_text(keys: &Vec<TableKey>) -> (r: String)
    ensures
        r@ == keys_text(""@, views(keys@), 0),
{
    let mut text: String = "".to_string();
    let mut i: usize = 0;
    while i < keys.len()
        invariant
            i <= keys@.len(),
            keys_text(""@, views(keys@), 0) == keys_text(text@, views(keys@), i as int),
        decreases keys@.len() - i,
    {
        assert(views(keys@)[i as int] == keys@[i as int]@);
        text = crate::text::cat3(
            text.as_str(),
            if i > 0 {
                ", "
            } else {
                ""
            },
            table_key_display(&keys[i]).as_str(),
        );
        i += 1;
    }
    text
}

fn format_simple(heap: &Heap, value: &Value) -> (r: Result<Piece, Error>)
    ensures
        match r {
            Ok(piece) => same(
                simple_piece(heap@, value@),
                Ok::<PieceView, ErrorView>(piece@),
            ),
            Err(e) => same(simple_piece(heap@, value@), Err::<PieceView, ErrorView>(e@)),
        },
{
    match value {
        Value::Tensor(reference, ty) => match heap.get(*reference)? {
            HeapObject::Tensor { shape, .. } => Ok(
                Piece::Text(
                    cat4(ty.to_text().as_str(), "[", shape_text(shape).as_str(), "]"),
                ),
            ),
            _ => Err(runtime_error("tensor heap invariant broken")),
        },
        Value::String(reference) => match heap.get(*reference)? {
            HeapObject::String(text) => Ok(Piece::Text(text.clone())),
            _ => Err(runtime_error("string heap invariant broken")),
        },
        Value::Table(reference, element) => match heap.get(*reference)? {
            HeapObject::Table { entries, .. } => Ok(
                Piece::Text(
                    crate::text::cat5(
                        "table<",
                        element.to_text().as_str(),
                        ">(",
                        usize_text(entries.len()).as_str(),
                        ")",
                    ),
                ),
            ),
            _ => Err(runtime_error("table heap invariant broken")),
        },
        Value::TableKeys(reference) => match heap.get(*reference)? {
            HeapObject::TableKeys(keys) => Ok(
                Piece::Text(crate::text::cat3("[", key_list_text(keys).as_str(), "]")),
            ),
            _ => Err(runtime_error("table_keys heap invariant broken")),
        },
        _ => Ok(piece_of(value)),
    }
}

fn format_fields(
    heap: &Heap,
    name: &String,
    values: &Vec<Value>,
    fields: &Vec<StructField>,
    depth: usize,
) -> (r: Result<Vec<Piece>, Error>)
    ensures
        match r {
            Ok(pieces) => same(
                field_pieces(
                    heap@,
                    seq![PieceView::Text(name@ + "{"@)],
                    views(values@),
                    views(fields@),
                    0,
                    depth as nat,
                ),
                Ok::<Seq<PieceView>, ErrorView>(views(pieces@)),
            ),
            Err(e) => same(
                field_pieces(
                    heap@,
                    seq![PieceView::Text(name@ + "{"@)],
                    views(values@),
                    views(fields@),
                    0,
                    depth as nat,
                ),
                Err::<Seq<PieceView>, ErrorView>(e@),
            ),
        },
    decreases depth, 1int,
{
    let mut pieces: Vec<Piece> = Vec::new();
    pieces.push(Piece::Text(cat2(name.as_str(), "{")));
    assert(views(pieces@) =~= seq![PieceView::Text(name@ + "{"@)]);
    let ghost start = views(pieces@);
    let mut i: usize = 0;
    while i < fields.len()
        invariant
            i <= fields@.len(),
            start == seq![PieceView::Text(name@ + "{"@)],
            same(
                field_pieces(heap@, start, views(values@), views(fields@), 0, depth as nat),
                field_pieces(
                    heap@,
                    views(pieces@),
                    views(values@),
                    views(fields@),
                    i as int,
                    depth as nat,
                ),
            ),
        decreases fields@.len() - i,
    {
        assert(views(fields@)[i as int] == fields@[i as int]@);
        assert(views(values@).len() == values@.len());
        let index: usize = fields[i].index;
        if index >= values.len() {
            return Err(runtime_error("invalid struct field index"));
        }
        assert(views(values@)[index as int] == values@[index as int]@);
        let mut more = format_value(heap, &values[index], depth)?;
        separate(&mut pieces, i);
        pieces.push(Piece::Text(cat2(fields[i].name.as_str(), ": ")));
        pieces.append(&mut more);
        i += 1;
    }
    Ok(pieces)
}

/// Writes a value. `depth` bounds how far structs are nested.
pub fn format_value(heap: &Heap, value: &Value, depth: usize) -> (r: Result<Vec<Piece>, Error>)
    ensures
        match r {
            Ok(pieces) => same(
                value_pieces(heap@, value@, depth as nat),
                Ok::<Seq<PieceView>, ErrorView>(views(pieces@)),
            ),
            Err(e) => same(
                value_pieces(heap@, value@, depth as nat),
                Err::<Seq<PieceView>, ErrorView>(e@),
            ),
        },
    decreases depth, 0int,
{
    match value {
        Value::Array(reference, element) => format_array(heap, *reference, element),
        Value::Struct(reference, _) => match heap.get(*reference)? {
            HeapObject::Struct { values, layout } => {
                if depth == 0 {
                    return Err(runtime_error("struct is nested in itself"));
                }
                let mut pieces = format_fields(
                    heap,
                    &layout.name,
                    values,
                    &layout.fields,
                    depth - 1,
                )?;
                pieces.push(Piece::Text("}".to_string()));
                Ok(pieces)
            },
            _ => Err(runtime_error("struct heap invariant broken")),
        },
        _ => {
            let piece = format_simple(heap, value)?;
            let mut pieces: Vec<Piece> = Vec::new();
            pieces.push(piece);
            assert(views(pieces@) =~= seq![piece@]);
            Ok(pieces)
        },
    }
}

/// Writes arguments into the places of a format.
#[verifier::rlimit(30)]
pub fn format_printf(
    heap: &Heap,
    format: &String,
    args: &Vec<Value>,
) -> (r: Result<Vec<Piece>, Error>)
    ensures
        match r {
            Ok(pieces) => same(
                printf_pieces(heap@, Seq::empty(), format@, 0, views(args@), 0),
                Ok::<Seq<PieceView>, ErrorView>(views(pieces@)),
            ),
            Err(e) => same(
                printf_pieces(heap@, Seq::empty(), format@, 0, views(args@), 0),
                Err::<Seq<PieceView>, ErrorView>(e@),
            ),
        },
{
    let chars = chars_of(format.as_str());
    let mut pieces: Vec<Piece> = Vec::new();
    let mut i: usize = 0;
    let mut k: usize = 0;
    let depth: usize = heap.slots.len();
    assert(heap@.len() == depth);
    assert(views(args@).len() == args@.len());
    while i < chars.len()
        invariant
            chars@ == format@,
            i <= chars@.len(),
            k <= args@.len(),
            depth == heap@.len(),
            views(args@).len() == args@.len(),
            same(
                printf_pieces(heap@, Seq::empty(), format@, 0, views(args@), 0),
                printf_pieces(heap@, views(pieces@), format@, i as int, views(args@), k as int),
            ),
        decreases chars@.len() - i,
    {
        let c: char = chars[i];
        if c == '{' {
            if chars.len() - i > 1 && chars[i + 1] == '}' {
                if k >= args.len() {
                    return Err(runtime_error("printf has more placeholders than arguments"));
                }
                assert(views(args@)[k as int] == args@[k as int]@);
                let mut more = format_value(heap, &args[k], depth)?;
                pieces.append(&mut more);
                k += 1;
                i += 2;
            } else if chars.len() - i > 1 && chars[i + 1] == '{' {
                pieces.push(Piece::Text("{".to_string()));
                i += 2;
            } else {
                return Err(
                    runtime_error("printf has an invalid '{' escape; use '{{' or '{}'"),
                );
            }
        } else if c == '}' {
            if chars.len() - i > 1 && chars[i + 1] == '}' {
                pieces.push(Piece::Text("}".to_string()));
                i += 2;
            } else {
                return Err(runtime_error("printf has an invalid '}' escape; use '}}'"));
            }
        } else {
            let mut text: String = String::new();
            text.push(c);
            assert(text@ =~= seq![c]);
            pieces.push(Piece::Text(text));
            i += 1;
        }
    }
    if k != args.len() {
        return Err(runtime_error("printf has more arguments than placeholders"));
    }
    Ok(pieces)
}

/// The floats whose digits are still to be found, in order.
pub fn floats_of(pieces: &Vec<Piece>) -> (r: Vec<Value>)
    ensures
        views(r@) == floats_in(views(pieces@), 0),
{
    let mut floats: Vec<Value> = Vec::new();
    let mut i: usize = 0;
    assert(views(floats@) + floats_in(views(pieces@), 0) =~= floats_in(views(pieces@), 0));
    while i < pieces.len()
        invariant
            i <= pieces@.len(),
            views(floats@) + floats_in(views(pieces@), i as int) == floats_in(views(pieces@), 0),
        decreases pieces@.len() - i,
    {
        assert(views(pieces@)[i as int] == pieces@[i as int]@);
        let ghost before = views(floats@);
        let ghost rest = floats_in(views(pieces@), i + 1);
        if let Piece::Float(value) = &pieces[i] {
            floats.push(value.clone());
            assert(before + (seq![value@] + rest) =~= views(floats@) + rest);
        }
        i += 1;
    }
    assert(views(floats@) + Seq::<ValueView>::empty() =~= views(floats@));
    floats
}

/// The text of pieces with the floats written as given.
pub fn assemble(pieces: &Vec<Piece>, texts: &Vec<String>) -> (r: String)
    ensures
        r@ == assembled(""@, views(pieces@), 0, views(texts@), 0),
{
    let mut text: String = "".to_string();
    let mut i: usize = 0;
    let mut k: usize = 0;
    assert(views(texts@).len() == texts@.len());
    while i < pieces.len()
        invariant
            i <= pieces@.len(),
            k <= texts@.len(),
            views(texts@).len() == texts@.len(),
            assembled(""@, views(pieces@), 0, views(texts@), 0) == assembled(
                text@,
                views(pieces@),
                i as int,
                views(texts@),
                k as int,
            ),
        decreases pieces@.len() - i,
    {
        assert(views(pieces@)[i as int] == pieces@[i as int]@);
        match &pieces[i] {
            Piece::Text(part) => {
                text.append(part.as_str());
            },
            Piece::Float(_) => {
                if k < texts.len() {
                    assert(views(texts@)[k as int] == texts@[k as int]@);
                    text.append(texts[k].as_str());
                    k += 1;
                }
            },
        }
        i += 1;
    }
    text
}

} // verus!
