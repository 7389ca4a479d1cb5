//! The heap: slots with a free list, and a mark-and-sweep collector.
use vstd::prelude::*;
use std::rc::Rc;
use crate::types::{Error, ErrorView, Type, TypeView, runtime_error};
use crate::value::{
    HeapRef, LayoutView, StructField, StructLayout, TableKey, TableKeyView, Value, ValueView,
    ref_of,
};
use crate::views::{
    Dict, distinct_keys, entries_map, group_views, lemma_entry, lemma_has_entry, views,
};

verus! {

broadcast use group_views;

/// What a heap slot holds.
#[derive(Debug)]
pub enum HeapObject {
    Array { bytes: Vec<u8>, element: Type },
    Struct { values: Vec<Value>, layout: Rc<StructLayout> },
    Tensor { bytes: Vec<u8>, element: Type, shape: Vec<usize> },
    Table { entries: Dict<TableKey, Value>, element: Type },
    TableKeys(Vec<TableKey>),
    String(String),
}

/// The mathematical model of a [`HeapObject`].
pub enum ObjectView {
    Array { bytes: Seq<u8>, element: TypeView },
    Struct { values: Seq<ValueView>, layout: LayoutView },
    Tensor { bytes: Seq<u8>, element: TypeView, shape: Seq<usize> },
    Table { entries: Map<TableKeyView, ValueView>, element: TypeView },
    TableKeys(Seq<TableKeyView>),
    String(Seq<char>),
}

impl View for HeapObject {
    type V = ObjectView;

    open spec fn view(&self) -> ObjectView {
        match *self {
            HeapObject::Array { bytes, element } => ObjectView::Array {
                bytes: bytes@,
                element: element@,
            },
            HeapObject::Struct { values, layout } => ObjectView::Struct {
                values: views(values@),
                layout: (*layout)@,
            },
            HeapObject::Tensor { bytes, element, shape } => ObjectView::Tensor {
                bytes: bytes@,
                element: element@,
                shape: shape@,
            },
            HeapObject::Table { entries, element } => ObjectView::Table {
                entries: entries@,
                element: element@,
            },
            HeapObject::TableKeys(keys) => ObjectView::TableKeys(views(keys@)),
            HeapObject::String(text) => ObjectView::String(text@),
        }
    }
}

/// A slot: free, with the next free slot, or occupied.
#[derive(Debug)]
pub enum HeapSlot {
    Free { next_free: Option<usize> },
    Occupied { object: HeapObject },
}

impl View for HeapSlot {
    type V = Option<ObjectView>;

    open spec fn view(&self) -> Option<ObjectView> {
        match *self {
            HeapSlot::Free { .. } => None,
            HeapSlot::Occupied { object } => Some(object@),
        }
    }
}

/// The objects of a program. `allocated_bytes` estimates what they take, and a
/// collection is due when it reaches `threshold_bytes`.
#[derive(Debug)]
pub struct Heap {
    pub slots: Vec<HeapSlot>,
    pub free_head: Option<usize>,
    pub allocated_bytes: usize,
    pub threshold_bytes: usize,
}

pub const MINIMUM_THRESHOLD: usize = 65536;

/// The first free slot at or after `i`.
pub open spec fn first_free(s: Seq<HeapSlot>, i: int) -> Option<usize>
    decreases s.len() - i,
{
    if i < 0 || i >= s.len() {
        None
    } else if s[i] is Free {
        Some(i as usize)
    } else {
        first_free(s, i + 1)
    }
}

/// The lowest free index at or after `i`, or the length.
pub open spec fn lowest_free(h: Seq<Option<ObjectView>>, i: int) -> int
    decreases h.len() - i,
{
    if i < 0 || i >= h.len() || h[i] is None {
        i
    } else {
        lowest_free(h, i + 1)
    }
}

/// The heap after an allocation: the object is in the lowest free slot.
pub open spec fn with_object(
    h: Seq<Option<ObjectView>>,
    object: ObjectView,
) -> Seq<Option<ObjectView>> {
    let i = lowest_free(h, 0);
    if i < h.len() {
        h.update(i, Some(object))
    } else {
        h.push(Some(object))
    }
}

/// The object in a slot, or the error for a slot that holds none.
pub open spec fn object_at(h: Seq<Option<ObjectView>>, r: HeapRef) -> Result<ObjectView, ErrorView> {
    if r.0 < h.len() && h[r.0 as int] is Some {
        Ok(h[r.0 as int].unwrap())
    } else {
        Err(ErrorView::Runtime("dangling heap reference"@))
    }
}

/// Whether a value refers to slot `j`.
pub open spec fn refers(v: ValueView, j: int) -> bool {
    ref_of(v) is Some && ref_of(v).unwrap().0 == j
}

/// Whether an object holds a reference to slot `j`.
pub open spec fn points_to(object: ObjectView, j: int) -> bool {
    match object {
        ObjectView::Table { entries, .. } => exists|k: TableKeyView| #[trigger]
            entries.contains_key(k) && refers(entries[k], j),
        ObjectView::Struct { values, .. } => exists|k: int|
            0 <= k < values.len() && refers(#[trigger] values[k], j),
        _ => false,
    }
}

pub open spec fn occupied(h: Seq<Option<ObjectView>>, i: int) -> bool {
    0 <= i < h.len() && h[i] is Some
}

pub open spec fn is_root(roots: Seq<HeapRef>, i: int) -> bool {
    exists|k: int| 0 <= k < roots.len() && (#[trigger] roots[k]).0 == i
}

/// Whether step `j` of a path follows a reference.
pub open spec fn link(h: Seq<Option<ObjectView>>, path: Seq<int>, j: int) -> bool {
    points_to(h[path[j]].unwrap(), path[j + 1])
}

/// A chain of references through occupied slots that starts at a root.
pub open spec fn is_path(h: Seq<Option<ObjectView>>, roots: Seq<HeapRef>, path: Seq<int>) -> bool {
    &&& path.len() > 0
    &&& is_root(roots, path[0])
    &&& forall|j: int| 0 <= j < path.len() ==> occupied(h, #[trigger] path[j])
    &&& forall|j: int| 0 <= j < path.len() - 1 ==> #[trigger] link(h, path, j)
}

/// Whether an object can be reached from the roots.
pub open spec fn reachable(h: Seq<Option<ObjectView>>, roots: Seq<HeapRef>, i: int) -> bool {
    exists|path: Seq<int>| #[trigger] is_path(h, roots, path) && path.last() == i
}

/// The heap with every unreachable object freed.
pub open spec fn swept(h: Seq<Option<ObjectView>>, roots: Seq<HeapRef>) -> Seq<Option<ObjectView>> {
    Seq::new(
        h.len(),
        |i: int|
            if reachable(h, roots, i) {
                h[i]
            } else {
                None
            },
    )
}

/// The heap without the free slots at its end.
pub open spec fn without_free_tail(h: Seq<Option<ObjectView>>) -> Seq<Option<ObjectView>>
    decreases h.len(),
{
    if h.len() > 0 && h.last() is None {
        without_free_tail(h.drop_last())
    } else {
        h
    }
}

/// The heap after a collection.
pub open spec fn collected(
    h: Seq<Option<ObjectView>>,
    roots: Seq<HeapRef>,
) -> Seq<Option<ObjectView>> {
    without_free_tail(swept(h, roots))
}

/// The number of objects.
pub open spec fn object_count(h: Seq<Option<ObjectView>>) -> nat
    decreases h.len(),
{
    if h.len() == 0 {
        0
    } else {
        object_count(h.drop_last()) + if h.last() is Some {
            1nat
        } else {
            0nat
        }
    }
}

proof fn lemma_first_free(s: Seq<HeapSlot>, i: int)
    requires
        0 <= i <= s.len() <= usize::MAX,
    ensures
        match first_free(s, i) {
            Some(f) => i <= f < s.len() && s[f as int] is Free && lowest_free(views(s), i) == f
                && forall|j: int| i <= j < f ==> #[trigger] s[j] is Occupied,
            None => lowest_free(views(s), i) == s.len() && forall|j: int|
                i <= j < s.len() ==> #[trigger] s[j] is Occupied,
        },
    decreases s.len() - i,
{
    if i < s.len() && s[i] is Occupied {
        lemma_first_free(s, i + 1);
    }
}

proof fn lemma_first_free_same(s: Seq<HeapSlot>, t: Seq<HeapSlot>, i: int)
    requires
        0 <= i,
        s.len() == t.len(),
        forall|j: int| i <= j < s.len() ==> (#[trigger] s[j] is Free <==> t[j] is Free),
    ensures
        first_free(s, i) == first_free(t, i),
    decreases s.len() - i,
{
    if i < s.len() {
        assert(s[i] is Free <==> t[i] is Free);
        lemma_first_free_same(s, t, i + 1);
    }
}

proof fn lemma_first_free_push(s: Seq<HeapSlot>, slot: HeapSlot, i: int)
    requires
        0 <= i <= s.len(),
        slot is Occupied,
    ensures
        first_free(s.push(slot), i) == first_free(s, i),
    decreases s.len() - i,
{
    reveal_with_fuel(first_free, 2);
    if i < s.len() {
        lemma_first_free_push(s, slot, i + 1);
    }
}

/// The free list holds exactly the free slots, in ascending order.
pub open spec fn free_list_wf(s: Seq<HeapSlot>, head: Option<usize>) -> bool {
    &&& head == first_free(s, 0)
    &&& forall|i: int|
        0 <= i < s.len() && (#[trigger] s[i] is Free) ==> s[i]->next_free == first_free(s, i + 1)
}

impl View for Heap {
    type V = Seq<Option<ObjectView>>;

    open spec fn view(&self) -> Seq<Option<ObjectView>> {
        views(self.slots@)
    }
}

impl Default for Heap {
    fn default() -> (r: Self)
        ensures
            r.wf(),
            r@ == Seq::<Option<ObjectView>>::empty(),
            r.allocated_bytes == 0,
            r.threshold_bytes == MINIMUM_THRESHOLD,
    {
        Heap {
            slots: Vec::new(),
            free_head: None,
            allocated_bytes: 0,
            threshold_bytes: MINIMUM_THRESHOLD,
        }
    }
}

/// Trusted: `Vec::capacity` returns what the allocator gave, which is room for
/// the elements at least.
#[verifier::external_body]
fn vec_capacity<T>(v: &Vec<T>) -> (r: usize)
    ensures
        r >= v@.len(),
{
    v.capacity()
}

/// Trusted: `String::capacity` returns what the allocator gave, of which
/// nothing is stated.
pub assume_specification[ std::string::String::capacity ](s: &std::string::String) -> usize
;

/// Trusted: `Vec::shrink_to_fit` keeps the elements.
#[verifier::external_body]
fn shrink<T>(v: &mut Vec<T>)
    ensures
        final(v)@ == old(v)@,
{
    v.shrink_to_fit()
}

fn bytes_of(count: usize, size: usize) -> (r: usize) {
    match count.checked_mul(size) {
        Some(total) => total,
        None => usize::MAX,
    }
}

/// What an object takes at least: its slot, and the items of a vector or a
/// tensor.
pub open spec fn least_size(object: ObjectView) -> int {
    vstd::layout::size_of::<HeapSlot>() + match object {
        ObjectView::Array { bytes, .. } => bytes.len() as int,
        ObjectView::Tensor { bytes, .. } => bytes.len() as int,
        _ => 0,
    }
}

/// Whether so much has been allocated that unreachable objects are to be freed.
pub open spec fn due(h: Heap) -> bool {
    h.allocated_bytes >= h.threshold_bytes
}

/// Whether a heap counts at least as much as before, up to the same threshold.
pub open spec fn grown(before: Heap, after: Heap) -> bool {
    &&& after.threshold_bytes == before.threshold_bytes
    &&& after.allocated_bytes >= before.allocated_bytes
}

/// Whether a heap counts what a collection has left: every freed object takes
/// its slot off at least, nothing is counted once no object is left, and the
/// threshold is twice of what is counted.
pub open spec fn recounted(before: Heap, after: Heap) -> bool {
    let freed = object_count(before@) - object_count(after@);
    &&& after.allocated_bytes + freed * vstd::layout::size_of::<HeapSlot>()
        <= before.allocated_bytes || after.allocated_bytes == 0
    &&& object_count(after@) == 0 ==> after.allocated_bytes == 0
    &&& after.threshold_bytes == if after.allocated_bytes * 2 < MINIMUM_THRESHOLD {
        MINIMUM_THRESHOLD as int
    } else if after.allocated_bytes * 2 > usize::MAX {
        usize::MAX as int
    } else {
        after.allocated_bytes * 2
    }
}

impl Heap {
    pub open spec fn wf(self) -> bool {
        free_list_wf(self.slots@, self.free_head)
    }

    /// An estimate of what an object takes: its slot and what its containers
    /// reserve, which depends on the allocator.
    fn object_size(object: &HeapObject) -> (r: usize)
        ensures
            r >= least_size(object@) || r == usize::MAX,
    {
        let payload: usize = match object {
            HeapObject::Array { bytes, .. } => vec_capacity(bytes),
            HeapObject::Tensor { bytes, .. } => vec_capacity(bytes),
            HeapObject::String(text) => text.capacity(),
            HeapObject::Table { entries, .. } => bytes_of(
                vec_capacity(entries.entries()),
                std::mem::size_of::<(TableKey, Value)>(),
            ),
            HeapObject::TableKeys(keys) => bytes_of(
                vec_capacity(keys),
                std::mem::size_of::<TableKey>(),
            ),
            HeapObject::Struct { values, layout } => bytes_of(
                vec_capacity(values),
                std::mem::size_of::<Value>(),
            ).saturating_add(
                bytes_of(vec_capacity(&layout.fields), std::mem::size_of::<StructField>()),
            ).saturating_add(layout.name.capacity()),
        };
        std::mem::size_of::<HeapSlot>().saturating_add(payload)
    }

    /// Puts an object into the lowest free slot, or a new one at the end.
    pub fn allocate(&mut self, object: HeapObject) -> (r: HeapRef)
        requires
            old(self).wf(),
        ensures
            final(self).wf(),
            final(self)@ == with_object(old(self)@, object@),
            r.0 == lowest_free(old(self)@, 0),
            grown(*old(self), *final(self)),
            final(self).allocated_bytes >= old(self).allocated_bytes + least_size(object@)
                || final(self).allocated_bytes == usize::MAX,
    {
        self.allocated_bytes = self.allocated_bytes.saturating_add(Self::object_size(&object));
        let ghost before = self.slots@;
        let index: usize = self.slots.len();
        proof {
            lemma_first_free(before, 0);
        }
        if let Some(index) = self.free_head {
            let next: Option<usize> = match &self.slots[index] {
                HeapSlot::Free { next_free } => *next_free,
                HeapSlot::Occupied { .. } => None,
            };
            self.free_head = next;
            let slot = HeapSlot::Occupied { object };
            proof {
                let after = before.update(index as int, slot);
                assert forall|i: int|
                    0 <= i < after.len() && (#[trigger] after[i] is Free) implies after[i]->next_free
                    == first_free(after, i + 1) by {
                    assert(before[i] is Free);
                    if i < index {
                        assert(before[i] is Occupied);
                    }
                    lemma_first_free_same(before, after, i + 1);
                }
                lemma_first_free_same(before, after, index + 1);
                lemma_skip_occupied(after, 0, index + 1);
            }
            self.slots[index] = slot;
            return HeapRef(index);
        }
        let slot = HeapSlot::Occupied { object };
        proof {
            lemma_first_free_push(before, slot, 0);
            assert(before.push(slot)[before.len() as int] is Occupied);
            assert forall|i: int| 0 <= i < before.push(slot).len() implies before.push(slot)[i] is Occupied by {
                if i < before.len() {
                    assert(before[i] is Occupied);
                }
            }
        }
        self.slots.push(slot);
        HeapRef(index)
    }

    /// The object in a slot.
    pub fn get(&self, reference: HeapRef) -> (r: Result<&HeapObject, Error>)
        ensures
            match r {
                Ok(object) => object_at(self@, reference) == Ok::<ObjectView, ErrorView>(object@),
                Err(e) => object_at(self@, reference) == Err::<ObjectView, ErrorView>(e@),
            },
    {
        if reference.0 < self.slots.len() {
            assert(self@[reference.0 as int] == self.slots@[reference.0 as int]@);
            match &self.slots[reference.0] {
                HeapSlot::Occupied { object } => Ok(object),
                HeapSlot::Free { .. } => Err(runtime_error("dangling heap reference")),
            }
        } else {
            Err(runtime_error("dangling heap reference"))
        }
    }

    /// The object in a slot, to be changed in place.
    pub fn get_mut(&mut self, reference: HeapRef) -> (r: Result<&mut HeapObject, Error>)
        requires
            old(self).wf(),
        ensures
            match r {
                Ok(object) => {
                    &&& object_at(old(self)@, reference) == Ok::<ObjectView, ErrorView>(object@)
                    &&& final(self)@ == old(self)@.update(
                        reference.0 as int,
                        Some((*final(object))@),
                    )
                    &&& final(self).wf()
                    &&& final(self).allocated_bytes == old(self).allocated_bytes
                    &&& final(self).threshold_bytes == old(self).threshold_bytes
                },
                Err(e) => {
                    &&& object_at(old(self)@, reference) == Err::<ObjectView, ErrorView>(e@)
                    &&& final(self)@ == old(self)@
                    &&& final(self).wf()
                    &&& final(self).allocated_bytes == old(self).allocated_bytes
                    &&& final(self).threshold_bytes == old(self).threshold_bytes
                },
            },
    {
        if reference.0 < self.slots.len() {
            let ghost before = self.slots@;
            assert(self@[reference.0 as int] == self.slots@[reference.0 as int]@);
            match &mut self.slots[reference.0] {
                HeapSlot::Occupied { object } => {
                    proof {
                        assert forall|o: HeapObject| #[trigger]
                            free_list_wf(
                                before.update(reference.0 as int, HeapSlot::Occupied { object: o }),
                                old(self).free_head,
                            ) by {
                            lemma_same_pattern(
                                before,
                                before.update(reference.0 as int, HeapSlot::Occupied { object: o }),
                                old(self).free_head,
                            );
                        }
                    }
                    Ok(object)
                },
                HeapSlot::Free { .. } => {
                    assert(
                        before.update(reference.0 as int, before[reference.0 as int]) =~= before
                    );
                    Err(runtime_error("dangling heap reference"))
                },
            }
        } else {
            Err(runtime_error("dangling heap reference"))
        }
    }

    /// The slot that a value refers to.
    pub fn heap_ref(value: &Value) -> (r: Option<HeapRef>)
        ensures
            r == ref_of(value@),
    {
        match value {
            Value::Array(reference, _) => Some(*reference),
            Value::Tensor(reference, _) => Some(*reference),
            Value::String(reference) => Some(*reference),
            Value::Table(reference, _) => Some(*reference),
            Value::TableKeys(reference) => Some(*reference),
            Value::Struct(reference, _) => Some(*reference),
            _ => None,
        }
    }

    pub fn should_collect(&self) -> (r: bool)
        ensures
            r == due(*self),
    {
        self.allocated_bytes >= self.threshold_bytes
    }
}

proof fn lemma_same_pattern(s: Seq<HeapSlot>, t: Seq<HeapSlot>, head: Option<usize>)
    requires
        free_list_wf(s, head),
        s.len() == t.len(),
        forall|j: int| 0 <= j < s.len() ==> (#[trigger] s[j] is Free <==> t[j] is Free),
        forall|j: int| 0 <= j < s.len() && (#[trigger] t[j] is Free) ==> t[j] == s[j],
    ensures
        free_list_wf(t, head),
{
    lemma_first_free_same(s, t, 0);
    assert forall|i: int| 0 <= i < t.len() && (#[trigger] t[i] is Free) implies t[i]->next_free
        == first_free(t, i + 1) by {
        assert(s[i] is Free);
        lemma_first_free_same(s, t, i + 1);
    }
}

proof fn lemma_skip_occupied(s: Seq<HeapSlot>, i: int, n: int)
    requires
        0 <= i <= n <= s.len(),
        forall|j: int| i <= j < n ==> #[trigger] s[j] is Occupied,
    ensures
        first_free(s, i) == first_free(s, n),
    decreases n - i,
{
    if i < n {
        assert(s[i] is Occupied);
        lemma_skip_occupied(s, i + 1, n);
    }
}


/// Appends the slots that an object refers to.
fn push_children(object: &HeapObject, work: &mut Vec<HeapRef>)
    ensures
        final(work)@.len() >= old(work)@.len(),
        forall|i: int| 0 <= i < old(work)@.len() ==> final(work)@[i] == old(work)@[i],
        forall|i: int|
            old(work)@.len() <= i < final(work)@.len() ==> points_to(
                object@,
                (#[trigger] final(work)@[i]).0 as int,
            ),
        forall|j: int|
            points_to(object@, j) ==> exists|i: int|
                0 <= i < final(work)@.len() && (#[trigger] final(work)@[i]).0 == j,
{
    let ghost before = work@;
    match object {
        HeapObject::Table { entries, .. } => {
            let list = entries.entries();
            let mut i: usize = 0;
            while i < list.len()
                invariant
                    i <= list@.len(),
                    object@ is Table,
                    crate::views::distinct_keys(list@),
                    entries_map(list@) == object@->entries,
                    work@.len() >= before.len(),
                    forall|k: int| 0 <= k < before.len() ==> work@[k] == before[k],
                    forall|k: int|
                        before.len() <= k < work@.len() ==> points_to(
                            object@,
                            (#[trigger] work@[k]).0 as int,
                        ),
                    forall|k: int|
                        0 <= k < i && ref_of((#[trigger] list@[k]).1@) is Some ==> exists|w: int|
                            0 <= w < work@.len() && (#[trigger] work@[w]) == ref_of(
                                list@[k].1@,
                            ).unwrap(),
                decreases list@.len() - i,
            {
                let ghost prior = work@;
                if let Some(reference) = Heap::heap_ref(&list[i].1) {
                    proof {
                        lemma_entry(list@, i as int);
                        let key = list@[i as int].0@;
                        assert(object@->entries.contains_key(key) && refers(
                            object@->entries[key],
                            reference.0 as int,
                        ));
                        assert(points_to(object@, reference.0 as int));
                    }
                    work.push(reference);
                    assert(work@[prior.len() as int] == reference);
                }
                proof {
                    assert forall|k: int|
                        0 <= k < i + 1 && ref_of(
                            (#[trigger] list@[k]).1@,
                        ) is Some implies exists|w: int|
                        0 <= w < work@.len() && (#[trigger] work@[w]) == ref_of(
                            list@[k].1@,
                        ).unwrap() by {
                        if k < i {
                            let w = choose|w: int|
                                0 <= w < prior.len() && (#[trigger] prior[w]) == ref_of(
                                    list@[k].1@,
                                ).unwrap();
                            assert(work@[w] == prior[w]);
                        }
                    }
                }
                i += 1;
            }
            proof {
                assert forall|j: int| points_to(object@, j) implies exists|w: int|
                    0 <= w < work@.len() && (#[trigger] work@[w]).0 == j by {
                    let key = choose|k: crate::value::TableKeyView| #[trigger]
                        object@->entries.contains_key(k) && refers(object@->entries[k], j);
                    lemma_has_entry(list@, key);
                    let k = choose|k: int| 0 <= k < list@.len() && #[trigger] list@[k].0@ == key;
                    lemma_entry(list@, k);
                    assert(ref_of(list@[k].1@) is Some);
                }
            }
        },
        HeapObject::Struct { values, .. } => {
            let mut i: usize = 0;
            while i < values.len()
                invariant
                    i <= values@.len(),
                    object@ is Struct,
                    object@->values == views(values@),
                    work@.len() >= before.len(),
                    forall|k: int| 0 <= k < before.len() ==> work@[k] == before[k],
                    forall|k: int|
                        before.len() <= k < work@.len() ==> points_to(
                            object@,
                            (#[trigger] work@[k]).0 as int,
                        ),
                    forall|k: int|
                        0 <= k < i && ref_of((#[trigger] values@[k])@) is Some ==> exists|w: int|
                            0 <= w < work@.len() && (#[trigger] work@[w]) == ref_of(
                                values@[k]@,
                            ).unwrap(),
                decreases values@.len() - i,
            {
                let ghost prior = work@;
                if let Some(reference) = Heap::heap_ref(&values[i]) {
                    proof {
                        assert(refers(object@->values[i as int], reference.0 as int));
                        assert(points_to(object@, reference.0 as int));
                    }
                    work.push(reference);
                    assert(work@[prior.len() as int] == reference);
                }
                proof {
                    assert forall|k: int|
                        0 <= k < i + 1 && ref_of(
                            (#[trigger] values@[k])@,
                        ) is Some implies exists|w: int|
                        0 <= w < work@.len() && (#[trigger] work@[w]) == ref_of(
                            values@[k]@,
                        ).unwrap() by {
                        if k < i {
                            let w = choose|w: int|
                                0 <= w < prior.len() && (#[trigger] prior[w]) == ref_of(
                                    values@[k]@,
                                ).unwrap();
                            assert(work@[w] == prior[w]);
                        }
                    }
                }
                i += 1;
            }
            proof {
                assert forall|j: int| points_to(object@, j) implies exists|w: int|
                    0 <= w < work@.len() && (#[trigger] work@[w]).0 == j by {
                    let k = choose|k: int|
                        0 <= k < object@->values.len() && refers(#[trigger] object@->values[k], j);
                    assert(ref_of(values@[k]@) is Some);
                }
            }
        },
        _ => {},
    }
}

/// What a reachable object refers to is reachable.
pub proof fn references_are_reachable(
    h: Seq<Option<ObjectView>>,
    roots: Seq<HeapRef>,
    i: int,
    j: int,
)
    requires
        reachable(h, roots, i),
        points_to(h[i].unwrap(), j),
        occupied(h, j),
    ensures
        reachable(h, roots, j),
{
    let path = choose|path: Seq<int>| #[trigger] is_path(h, roots, path) && path.last() == i;
    let longer = path.push(j);
    assert(longer[0] == path[0]);
    assert forall|k: int| 0 <= k < longer.len() - 1 implies #[trigger] link(h, longer, k) by {
        if k < path.len() - 1 {
            assert(link(h, path, k));
        }
    }
    assert(is_path(h, roots, longer) && longer.last() == j);
}

/// The roots are reachable.
pub proof fn roots_are_reachable(h: Seq<Option<ObjectView>>, roots: Seq<HeapRef>, i: int)
    requires
        is_root(roots, i),
        occupied(h, i),
    ensures
        reachable(h, roots, i),
{
    let path = seq![i];
    assert(is_path(h, roots, path) && path.last() == i);
}

/// Whether the slot is free, marked, or still to be visited.
spec fn settled(
    h: Seq<Option<ObjectView>>,
    marks: Seq<bool>,
    work: Seq<HeapRef>,
    j: int,
) -> bool {
    !occupied(h, j) || marks[j] || is_root(work, j)
}

proof fn lemma_closed_marks_reachable(
    h: Seq<Option<ObjectView>>,
    roots: Seq<HeapRef>,
    marks: Seq<bool>,
    path: Seq<int>,
    n: int,
)
    requires
        marks.len() == h.len(),
        is_path(h, roots, path),
        0 <= n < path.len(),
        forall|r: int| is_root(roots, r) && occupied(h, r) ==> #[trigger] marks[r],
        forall|i: int, j: int|
            0 <= i < h.len() && marks[i] && #[trigger] points_to(h[i].unwrap(), j) && occupied(h, j)
                ==> marks[j],
    ensures
        marks[path[n]],
    decreases n,
{
    if n > 0 {
        lemma_closed_marks_reachable(h, roots, marks, path, n - 1);
        assert(link(h, path, n - 1));
        assert(occupied(h, path[n]));
        assert(occupied(h, path[n - 1]));
    } else {
        assert(occupied(h, path[0]));
    }
}

/// The number of slots without a mark.
spec fn unmarked(marks: Seq<bool>) -> nat
    decreases marks.len(),
{
    if marks.len() == 0 {
        0
    } else {
        unmarked(marks.drop_last()) + if marks.last() {
            0nat
        } else {
            1nat
        }
    }
}

proof fn lemma_mark_one(marks: Seq<bool>, i: int)
    requires
        0 <= i < marks.len(),
        !marks[i],
    ensures
        unmarked(marks.update(i, true)) + 1 == unmarked(marks),
    decreases marks.len(),
{
    let after = marks.update(i, true);
    if i == marks.len() - 1 {
        assert(after.drop_last() =~= marks.drop_last());
    } else {
        assert(after.drop_last() =~= marks.drop_last().update(i, true));
        lemma_mark_one(marks.drop_last(), i);
    }
}

/// What holds while marking: marked and waiting slots are reachable, and what
/// marked objects refer to is settled.
#[verifier::opaque]
spec fn marking(
    h: Seq<Option<ObjectView>>,
    roots: Seq<HeapRef>,
    marks: Seq<bool>,
    work: Seq<HeapRef>,
) -> bool {
    &&& marks.len() == h.len()
    &&& forall|i: int| 0 <= i < h.len() && #[trigger] marks[i] ==> reachable(h, roots, i)
    &&& forall|w: int|
        0 <= w < work.len() && occupied(h, (#[trigger] work[w]).0 as int) ==> reachable(
            h,
            roots,
            work[w].0 as int,
        )
    &&& forall|r: int| #[trigger] is_root(roots, r) ==> settled(h, marks, work, r)
    &&& forall|i: int, j: int|
        0 <= i < h.len() && marks[i] && #[trigger] points_to(h[i].unwrap(), j) ==> settled(
            h,
            marks,
            work,
            j,
        )
}

proof fn lemma_marking_starts(
    h: Seq<Option<ObjectView>>,
    roots: Seq<HeapRef>,
    marks: Seq<bool>,
)
    requires
        marks.len() == h.len(),
        forall|i: int| 0 <= i < marks.len() ==> !(#[trigger] marks[i]),
    ensures
        marking(h, roots, marks, roots),
{
    reveal(marking);
    assert forall|w: int|
        0 <= w < roots.len() && occupied(h, (#[trigger] roots[w]).0 as int) implies reachable(
        h,
        roots,
        roots[w].0 as int,
    ) by {
        assert(is_root(roots, roots[w].0 as int));
        roots_are_reachable(h, roots, roots[w].0 as int);
    }
}

proof fn lemma_skip(
    h: Seq<Option<ObjectView>>,
    roots: Seq<HeapRef>,
    marks: Seq<bool>,
    work: Seq<HeapRef>,
)
    requires
        marking(h, roots, marks, work),
        work.len() > 0,
        !occupied(h, work.last().0 as int) || marks[work.last().0 as int],
    ensures
        marking(h, roots, marks, work.drop_last()),
{
    reveal(marking);
    let rest = work.drop_last();
    assert forall|j: int| settled(h, marks, work, j) implies settled(h, marks, rest, j) by {
        if is_root(work, j) && j != work.last().0 {
            let w = choose|w: int| 0 <= w < work.len() && (#[trigger] work[w]).0 == j;
            assert(rest[w] == work[w]);
        }
    }
    assert forall|w: int|
        0 <= w < rest.len() && occupied(h, (#[trigger] rest[w]).0 as int) implies reachable(
        h,
        roots,
        rest[w].0 as int,
    ) by {
        assert(rest[w] == work[w]);
    }
}

proof fn lemma_visit(
    h: Seq<Option<ObjectView>>,
    roots: Seq<HeapRef>,
    marks: Seq<bool>,
    work: Seq<HeapRef>,
    grown: Seq<HeapRef>,
)
    requires
        marking(h, roots, marks, work),
        work.len() > 0,
        occupied(h, work.last().0 as int),
        grown.len() >= work.len() - 1,
        forall|i: int| 0 <= i < work.len() - 1 ==> grown[i] == work[i],
        forall|i: int|
            work.len() - 1 <= i < grown.len() ==> points_to(
                h[work.last().0 as int].unwrap(),
                (#[trigger] grown[i]).0 as int,
            ),
        forall|j: int|
            points_to(h[work.last().0 as int].unwrap(), j) ==> exists|i: int|
                0 <= i < grown.len() && (#[trigger] grown[i]).0 == j,
    ensures
        marking(h, roots, marks.update(work.last().0 as int, true), grown),
{
    reveal(marking);
    let at = work.last().0 as int;
    let after = marks.update(at, true);
    assert(work[work.len() - 1].0 == at);
    assert(reachable(h, roots, at));
    assert forall|w: int|
        0 <= w < grown.len() && occupied(h, (#[trigger] grown[w]).0 as int) implies reachable(
        h,
        roots,
        grown[w].0 as int,
    ) by {
        if w < work.len() - 1 {
            assert(grown[w] == work[w]);
        } else {
            references_are_reachable(h, roots, at, grown[w].0 as int);
        }
    }
    assert forall|j: int| settled(h, marks, work, j) implies settled(h, after, grown, j) by {
        if is_root(work, j) && j != at {
            let w = choose|w: int| 0 <= w < work.len() && (#[trigger] work[w]).0 == j;
            assert(grown[w] == work[w]);
            assert(is_root(grown, j));
        }
    }
    assert forall|i: int, j: int|
        0 <= i < h.len() && after[i] && #[trigger] points_to(h[i].unwrap(), j) implies settled(
        h,
        after,
        grown,
        j,
    ) by {
        if i != at {
            assert(marks[i]);
            assert(settled(h, marks, work, j));
        } else {
            let w = choose|w: int| 0 <= w < grown.len() && (#[trigger] grown[w]).0 == j;
            assert(is_root(grown, j));
        }
    }
}

proof fn lemma_marking_ends(
    h: Seq<Option<ObjectView>>,
    roots: Seq<HeapRef>,
    marks: Seq<bool>,
    work: Seq<HeapRef>,
)
    requires
        marking(h, roots, marks, work),
        work.len() == 0,
    ensures
        forall|i: int| 0 <= i < marks.len() ==> #[trigger] marks[i] == reachable(h, roots, i),
{
    reveal(marking);
    assert forall|i: int| 0 <= i < marks.len() implies #[trigger] marks[i] == reachable(
        h,
        roots,
        i,
    ) by {
        if reachable(h, roots, i) {
            let path = choose|path: Seq<int>| #[trigger]
                is_path(h, roots, path) && path.last() == i;
            assert forall|r: int| is_root(roots, r) && occupied(h, r) implies #[trigger] marks[r] by {
                assert(settled(h, marks, work, r));
            }
            assert forall|a: int, b: int|
                0 <= a < h.len() && marks[a] && #[trigger] points_to(h[a].unwrap(), b) && occupied(
                    h,
                    b,
                ) implies marks[b] by {
                assert(settled(h, marks, work, b));
            }
            lemma_closed_marks_reachable(h, roots, marks, path, path.len() - 1);
        }
    }
}

impl Heap {
    /// Marks what can be reached from the roots.
    fn mark(&self, roots: &Vec<HeapRef>) -> (marks: Vec<bool>)
        ensures
            marks@.len() == self@.len(),
            forall|i: int|
                0 <= i < marks@.len() ==> #[trigger] marks@[i] == reachable(self@, roots@, i),
    {
        let ghost h = self@;
        let mut marks: Vec<bool> = vec![false; self.slots.len()];
        let mut work: Vec<HeapRef> = Vec::new();
        let mut k: usize = 0;
        while k < roots.len()
            invariant
                k <= roots@.len(),
                work@ == roots@.take(k as int),
            decreases roots@.len() - k,
        {
            work.push(roots[k]);
            assert(roots@.take(k + 1) =~= roots@.take(k as int).push(roots@[k as int]));
            k += 1;
        }
        assert(work@ =~= roots@);
        proof {
            lemma_marking_starts(h, roots@, marks@);
        }
        while work.len() > 0
            invariant
                h == self@,
                marks@.len() == h.len() == self.slots@.len(),
                marking(h, roots@, marks@, work@),
            decreases unmarked(marks@), work@.len(),
        {
            let ghost work0 = work@;
            let reference = work.pop().unwrap();
            let at: usize = reference.0;
            if at < self.slots.len() && !marks[at] {
                assert(h[at as int] == self.slots@[at as int]@);
                match &self.slots[at] {
                    HeapSlot::Occupied { object } => {
                        proof {
                            lemma_mark_one(marks@, at as int);
                        }
                        push_children(object, &mut work);
                        proof {
                            lemma_visit(h, roots@, marks@, work0, work@);
                        }
                        marks[at] = true;
                    },
                    HeapSlot::Free { .. } => {
                        proof {
                            lemma_skip(h, roots@, marks@, work0);
                        }
                    },
                }
            } else {
                proof {
                    lemma_skip(h, roots@, marks@, work0);
                }
            }
        }
        proof {
            lemma_marking_ends(h, roots@, marks@, work@);
        }
        marks
    }
}

proof fn lemma_count_split(h: Seq<Option<ObjectView>>, t: Seq<Option<ObjectView>>, n: int)
    requires
        0 <= n < h.len(),
        h.len() == t.len(),
        h[n] is Some,
        t == h.update(n, None),
    ensures
        object_count(t) + 1 == object_count(h),
    decreases h.len(),
{
    if n == h.len() - 1 {
        assert(t.drop_last() =~= h.drop_last());
    } else {
        assert(t.drop_last() =~= h.drop_last().update(n, None));
        lemma_count_split(h.drop_last(), t.drop_last(), n);
    }
}

proof fn lemma_count_tail(h: Seq<Option<ObjectView>>)
    ensures
        object_count(without_free_tail(h)) == object_count(h),
    decreases h.len(),
{
    if h.len() > 0 && h.last() is None {
        lemma_count_tail(h.drop_last());
    }
}

/// Where no object is left, no slot is.
proof fn lemma_tail_count(h: Seq<Option<ObjectView>>)
    requires
        object_count(without_free_tail(h)) == 0,
    ensures
        without_free_tail(h).len() == 0,
    decreases h.len(),
{
    if h.len() > 0 && h.last() is None {
        lemma_tail_count(h.drop_last());
    }
}

/// The slots below `n` swept, the others as they were.
spec fn swept_below(
    h: Seq<Option<ObjectView>>,
    roots: Seq<HeapRef>,
    n: int,
) -> Seq<Option<ObjectView>> {
    Seq::new(
        h.len(),
        |i: int|
            if i >= n || reachable(h, roots, i) {
                h[i]
            } else {
                None
            },
    )
}

impl Heap {
    /// Frees every object that the roots do not reach, and drops the free slots
    /// at the end. Returns how many objects were freed.
    pub fn collect(&mut self, roots: Vec<HeapRef>) -> (reclaimed: usize)
        requires
            old(self).wf(),
        ensures
            final(self).wf(),
            final(self)@ == collected(old(self)@, roots@),
            reclaimed == object_count(old(self)@) - object_count(final(self)@),
            final(self).allocated_bytes <= old(self).allocated_bytes,
            recounted(*old(self), *final(self)),
    {
        let ghost h = self@;
        let ghost slot: int = vstd::layout::size_of::<HeapSlot>() as int;
        let marks = self.mark(&roots);
        let mut reclaimed: usize = 0;
        let mut i: usize = 0;
        assert(swept_below(h, roots@, 0) =~= h);
        while i < self.slots.len()
            invariant
                i <= self.slots@.len() == h.len(),
                marks@.len() == h.len(),
                forall|k: int| 0 <= k < h.len() ==> #[trigger] marks@[k] == reachable(h, roots@, k),
                self@ == swept_below(h, roots@, i as int),
                reclaimed <= i,
                reclaimed == object_count(h) - object_count(self@),
                self.allocated_bytes <= old(self).allocated_bytes,
                slot == vstd::layout::size_of::<HeapSlot>(),
                self.allocated_bytes + reclaimed * slot <= old(self).allocated_bytes
                    || self.allocated_bytes == 0,
            decreases h.len() - i,
        {
            assert(self@[i as int] == h[i as int]);
            let ghost before = self@;
            let freed: Option<usize> = match &self.slots[i] {
                HeapSlot::Occupied { object } => if marks[i] {
                    None
                } else {
                    let size: usize = Self::object_size(object);
                    assert(size >= slot || size == usize::MAX);
                    Some(size)
                },
                HeapSlot::Free { .. } => None,
            };
            if let Some(size) = freed {
                self.allocated_bytes = self.allocated_bytes.saturating_sub(size);
                self.slots[i] = HeapSlot::Free { next_free: None };
                reclaimed += 1;
                proof {
                    lemma_count_split(before, self@, i as int);
                    assert((reclaimed - 1) * slot + slot == reclaimed * slot) by (nonlinear_arith);
                }
            }
            assert(self@ =~= swept_below(h, roots@, i + 1));
            i += 1;
        }
        assert(self@ =~= swept(h, roots@));
        let ghost full = self@;
        let ghost left = self.allocated_bytes;
        let mut tail: bool = true;
        while tail
            invariant
                without_free_tail(self@) == without_free_tail(full),
                !tail ==> without_free_tail(self@) == self@,
                self.allocated_bytes == left,
            decreases self.slots@.len(), (if tail { 1int } else { 0int }),
        {
            let count: usize = self.slots.len();
            if count == 0 {
                tail = false;
            } else {
                assert(self@.last() == self.slots@.last()@);
                match &self.slots[count - 1] {
                    HeapSlot::Free { .. } => {
                        let _slot = self.slots.pop();
                    },
                    HeapSlot::Occupied { .. } => {
                        tail = false;
                    },
                }
            }
        }
        proof {
            lemma_count_tail(full);
        }
        shrink(&mut self.slots);
        let ghost kept = self@;
        self.free_head = None;
        let mut n: usize = self.slots.len();
        while n > 0
            invariant
                n <= self.slots@.len() == kept.len(),
                self@ == kept,
                self.free_head == first_free(self.slots@, n as int),
                forall|k: int|
                    n <= k < self.slots@.len() && (#[trigger] self.slots@[k] is Free)
                        ==> self.slots@[k]->next_free == first_free(self.slots@, k + 1),
                self.allocated_bytes == left,
            decreases n,
        {
            n -= 1;
            let ghost before = self.slots@;
            let free: bool = match &self.slots[n] {
                HeapSlot::Free { .. } => true,
                HeapSlot::Occupied { .. } => false,
            };
            if free {
                self.slots[n] = HeapSlot::Free { next_free: self.free_head };
                self.free_head = Some(n);
                proof {
                    lemma_first_free_same(before, self.slots@, n + 1);
                    assert(self@ =~= kept);
                    assert forall|k: int|
                        n <= k < self.slots@.len() && (#[trigger] self.slots@[k] is Free) implies self.slots@[k]->next_free
                        == first_free(self.slots@, k + 1) by {
                        lemma_first_free_same(before, self.slots@, k + 1);
                        if k > n {
                            assert(before[k] is Free);
                        }
                    }
                }
            }
        }
        if self.slots.len() == 0 {
            self.allocated_bytes = 0;
        }
        proof {
            assert(self@.len() == self.slots@.len());
            if object_count(self@) == 0 {
                lemma_tail_count(full);
            }
        }
        let doubled: usize = match self.allocated_bytes.checked_mul(2) {
            Some(total) => total,
            None => usize::MAX,
        };
        self.threshold_bytes = if doubled < MINIMUM_THRESHOLD {
            MINIMUM_THRESHOLD
        } else {
            doubled
        };
        reclaimed
    }
}

proof fn lemma_tail_keeps(h: Seq<Option<ObjectView>>, i: int)
    requires
        0 <= i < h.len(),
        h[i] is Some,
    ensures
        i < without_free_tail(h).len(),
        without_free_tail(h)[i] == h[i],
    decreases h.len(),
{
    if h.last() is None {
        lemma_tail_keeps(h.drop_last(), i);
    }
}

pub(crate) proof fn lemma_tail_prefix(h: Seq<Option<ObjectView>>)
    ensures
        without_free_tail(h).len() <= h.len(),
        forall|i: int|
            0 <= i < without_free_tail(h).len() ==> #[trigger] without_free_tail(h)[i] == h[i],
        without_free_tail(without_free_tail(h)) == without_free_tail(h),
    decreases h.len(),
{
    if h.len() > 0 && h.last() is None {
        lemma_tail_prefix(h.drop_last());
    }
}

/// A collection keeps every reachable object in its place, unchanged.
pub proof fn reachable_objects_survive(h: Seq<Option<ObjectView>>, roots: Seq<HeapRef>, i: int)
    requires
        reachable(h, roots, i),
    ensures
        0 <= i < h.len(),
        i < collected(h, roots).len(),
        collected(h, roots)[i] == h[i],
        h[i] is Some,
{
    let path = choose|path: Seq<int>| #[trigger] is_path(h, roots, path) && path.last() == i;
    assert(occupied(h, path[path.len() - 1]));
    lemma_tail_keeps(swept(h, roots), i);
}

/// A collection keeps nothing but reachable objects.
pub proof fn only_reachable_objects_survive(h: Seq<Option<ObjectView>>, roots: Seq<HeapRef>, i: int)
    requires
        0 <= i < collected(h, roots).len(),
        collected(h, roots)[i] is Some,
    ensures
        reachable(h, roots, i),
{
    lemma_tail_prefix(swept(h, roots));
}

/// A collection leaves no dangling reference behind: what a surviving object
/// refers to survives with it.
pub proof fn survivors_keep_their_references(
    h: Seq<Option<ObjectView>>,
    roots: Seq<HeapRef>,
    i: int,
    j: int,
)
    requires
        0 <= i < collected(h, roots).len(),
        collected(h, roots)[i] is Some,
        points_to(collected(h, roots)[i].unwrap(), j),
        occupied(h, j),
    ensures
        j < collected(h, roots).len(),
        collected(h, roots)[j] == h[j],
{
    only_reachable_objects_survive(h, roots, i);
    reachable_objects_survive(h, roots, i);
    references_are_reachable(h, roots, i, j);
    reachable_objects_survive(h, roots, j);
}

proof fn lemma_path_survives(
    h: Seq<Option<ObjectView>>,
    roots: Seq<HeapRef>,
    path: Seq<int>,
    n: int,
)
    requires
        is_path(h, roots, path),
        0 <= n < path.len(),
    ensures
        reachable(h, roots, path[n]),
    decreases n,
{
    if n == 0 {
        assert(occupied(h, path[0]));
        roots_are_reachable(h, roots, path[0]);
    } else {
        lemma_path_survives(h, roots, path, n - 1);
        assert(link(h, path, n - 1));
        assert(occupied(h, path[n]));
        references_are_reachable(h, roots, path[n - 1], path[n]);
    }
}

/// Collecting again with the same roots changes nothing.
pub proof fn collecting_twice_is_collecting_once(h: Seq<Option<ObjectView>>, roots: Seq<HeapRef>)
    ensures
        collected(collected(h, roots), roots) == collected(h, roots),
{
    let once = collected(h, roots);
    lemma_tail_prefix(swept(h, roots));
    assert forall|i: int| 0 <= i < once.len() implies #[trigger] swept(once, roots)[i] == once[i] by {
        if once[i] is Some {
            only_reachable_objects_survive(h, roots, i);
            let path = choose|path: Seq<int>| #[trigger] is_path(h, roots, path) && path.last() == i;
            assert forall|k: int| 0 <= k < path.len() implies occupied(once, #[trigger] path[k]) by {
                lemma_path_survives(h, roots, path, k);
                reachable_objects_survive(h, roots, path[k]);
            }
            assert forall|k: int| 0 <= k < path.len() - 1 implies #[trigger] link(once, path, k) by {
                assert(link(h, path, k));
                lemma_path_survives(h, roots, path, k);
                reachable_objects_survive(h, roots, path[k]);
            }
            assert(is_path(once, roots, path));
            assert(reachable(once, roots, i));
        }
    }
    assert(swept(once, roots) =~= once);
}

proof fn lemma_lowest_free(h: Seq<Option<ObjectView>>, i: int)
    requires
        0 <= i <= h.len(),
    ensures
        i <= lowest_free(h, i) <= h.len(),
        lowest_free(h, i) < h.len() ==> h[lowest_free(h, i)] is None,
    decreases h.len() - i,
{
    if i < h.len() && h[i] is Some {
        lemma_lowest_free(h, i + 1);
    }
}

/// An allocation takes a free slot, reads back as what was put there, and
/// leaves every other slot as it was.
pub proof fn allocation_is_fresh(h: Seq<Option<ObjectView>>, object: ObjectView)
    ensures
        ({
            let i = lowest_free(h, 0);
            &&& 0 <= i <= h.len()
            &&& i < with_object(h, object).len()
            &&& !occupied(h, i)
            &&& with_object(h, object)[i] == Some(object)
            &&& forall|j: int|
                0 <= j < h.len() && j != i ==> #[trigger] with_object(h, object)[j] == h[j]
        }),
{
    lemma_lowest_free(h, 0);
}

} // verus!
