//! Host-side values and their conversion to and from engine slots.
use vstd::prelude::*;
use crate::keys::{
    insert_sorted, key_less, lemma_text_less_strict, lemma_text_less_total, lemma_text_less_trans,
    sorted_keys, text_less,
};
use crate::stack::{
    items_view, lemma_items_view, lemma_props_view, props_view, ObjectClass, Slot, SlotV,
};

verus! {

/// A script value that exists on the host side.
///
/// Values the engine holds but the host cannot represent come back as [`Value::Foreign`], and
/// pushing one of those pushes `undefined`.
#[derive(Debug, PartialEq)]
pub enum Value {
    Undefined,
    Null,
    Boolean(bool),
    /// Any number, held as the IEEE-754 bit pattern of the double the engine stores.
    Number(u64),
    String(String),
    Array(Vec<Value>),
    /// A mapping from keys to values, ordered by key, each key once: see [`well_formed`].
    /// Conversion from the engine builds it so (see [`Value::from_slot`]); a value built by hand
    /// should keep to it.
    Object(Vec<(String, Value)>),
    Bytes(Vec<u8>),
    /// A value the host cannot represent, named by its engine type.
    Foreign(&'static str),
}

/// Mathematical model of a [`Value`].
pub enum ValueV {
    Undefined,
    Null,
    Boolean(bool),
    Number(u64),
    String(Seq<char>),
    Array(Seq<ValueV>),
    Object(Seq<(Seq<char>, ValueV)>),
    Bytes(Seq<u8>),
    Foreign(Seq<char>),
}

impl View for Value {
    type V = ValueV;

    open spec fn view(&self) -> ValueV {
        value_view(*self)
    }
}

/// The model of a value.
pub open spec fn value_view(v: Value) -> ValueV
    decreases v,
{
    match v {
        Value::Undefined => ValueV::Undefined,
        Value::Null => ValueV::Null,
        Value::Boolean(b) => ValueV::Boolean(b),
        Value::Number(n) => ValueV::Number(n),
        Value::String(s) => ValueV::String(s@),
        Value::Array(items) => ValueV::Array(values_view(items@)),
        Value::Object(entries) => ValueV::Object(entries_view(entries@)),
        Value::Bytes(b) => ValueV::Bytes(b@),
        Value::Foreign(t) => ValueV::Foreign(t@),
    }
}

/// The models of a sequence of values.
pub open spec fn values_view(items: Seq<Value>) -> Seq<ValueV>
    decreases items,
{
    if items.len() == 0 {
        Seq::empty()
    } else {
        values_view(items.subrange(0, items.len() - 1)).push(value_view(items[items.len() - 1]))
    }
}

/// The models of a sequence of keyed values.
pub open spec fn entries_view(entries: Seq<(String, Value)>) -> Seq<(Seq<char>, ValueV)>
    decreases entries,
{
    if entries.len() == 0 {
        Seq::empty()
    } else {
        entries_view(entries.subrange(0, entries.len() - 1)).push(
            (entries[entries.len() - 1].0@, value_view(entries[entries.len() - 1].1)),
        )
    }
}

/// [`values_view`] maps element by element.
pub proof fn lemma_values_view(items: Seq<Value>)
    ensures
        values_view(items).len() == items.len(),
        forall|i: int| 0 <= i < items.len() ==> #[trigger] values_view(items)[i] == items[i]@,
    decreases items.len(),
{
    if items.len() > 0 {
        lemma_values_view(items.subrange(0, items.len() - 1));
    }
}

/// [`entries_view`] maps entry by entry.
pub proof fn lemma_entries_view(entries: Seq<(String, Value)>)
    ensures
        entries_view(entries).len() == entries.len(),
        forall|i: int|
            0 <= i < entries.len() ==> #[trigger] entries_view(entries)[i] == (
                entries[i].0@,
                entries[i].1@,
            ),
    decreases entries.len(),
{
    if entries.len() > 0 {
        lemma_entries_view(entries.subrange(0, entries.len() - 1));
    }
}

/// The host value of an engine slot. Total: arrays map element by element, objects property by
/// property into a key-ordered mapping, and the engine types without a host form become foreign.
pub open spec fn value_of(s: SlotV) -> ValueV
    decreases s,
{
    match s {
        SlotV::Undefined => ValueV::Undefined,
        SlotV::Null => ValueV::Null,
        SlotV::Boolean(b) => ValueV::Boolean(b),
        SlotV::Number(n) => ValueV::Number(n),
        SlotV::Str(t) => ValueV::String(t),
        SlotV::Array(items) => ValueV::Array(values_of(items)),
        SlotV::Object(_, props) => ValueV::Object(object_of(entries_of(props))),
        SlotV::Buffer(b) => ValueV::Bytes(b),
        SlotV::Pointer => ValueV::Foreign(seq!['p', 'o', 'i', 'n', 't', 'e', 'r']),
        SlotV::LightFunc => ValueV::Foreign(seq!['l', 'i', 'g', 'h', 't', 'f', 'u', 'n', 'c']),
    }
}

/// The host values of a sequence of slots.
pub open spec fn values_of(items: Seq<SlotV>) -> Seq<ValueV>
    decreases items,
{
    if items.len() == 0 {
        Seq::empty()
    } else {
        values_of(items.subrange(0, items.len() - 1)).push(value_of(items[items.len() - 1]))
    }
}

/// The host entries of a sequence of properties.
pub open spec fn entries_of(props: Seq<(Seq<char>, SlotV)>) -> Seq<(Seq<char>, ValueV)>
    decreases props,
{
    if props.len() == 0 {
        Seq::empty()
    } else {
        entries_of(props.subrange(0, props.len() - 1)).push(
            (props[props.len() - 1].0, value_of(props[props.len() - 1].1)),
        )
    }
}

/// The key-ordered mapping that binding the entries one after the other builds.
pub open spec fn object_of(entries: Seq<(Seq<char>, ValueV)>) -> Seq<(Seq<char>, ValueV)>
    decreases entries.len(),
{
    if entries.len() == 0 {
        Seq::empty()
    } else {
        insert_sorted(object_of(entries.drop_last()), entries.last().0, entries.last().1)
    }
}

/// Binding entries whose keys already increase keeps them as they are.
pub proof fn lemma_object_of_sorted(entries: Seq<(Seq<char>, ValueV)>)
    requires
        sorted_keys(entries),
    ensures
        object_of(entries) == entries,
    decreases entries.len(),
{
    if entries.len() > 0 {
        let init = entries.drop_last();
        assert(sorted_keys(init)) by {
            assert forall|i: int, j: int| 0 <= i < j < init.len() implies text_less(
                (#[trigger] init[i]).0,
                (#[trigger] init[j]).0,
            ) by {
                assert(init[i] == entries[i] && init[j] == entries[j]);
            }
        }
        lemma_object_of_sorted(init);
        if init.len() > 0 {
            let n = entries.len() - 1;
            assert(init.last() == entries[n - 1]);
            assert(text_less(entries[n - 1].0, entries[n].0));
            lemma_text_less_strict(entries[n].0, entries[n].0);
        }
        assert(init.push(entries.last()) =~= entries);
    }
}

proof fn lemma_insert_sorted_keeps(
    es: Seq<(Seq<char>, ValueV)>,
    k: Seq<char>,
    v: ValueV,
)
    requires
        sorted_keys(es),
        well_formed(v),
        forall|i: int| 0 <= i < es.len() ==> well_formed(#[trigger] es[i].1),
    ensures
        sorted_keys(insert_sorted(es, k, v)),
        forall|i: int|
            0 <= i < insert_sorted(es, k, v).len() ==> well_formed(
                #[trigger] insert_sorted(es, k, v)[i].1,
            ),
        forall|x: Seq<char>|
            (forall|j: int| 0 <= j < es.len() ==> text_less(#[trigger] es[j].0, x)) && text_less(k, x)
                ==> forall|i: int|
                0 <= i < insert_sorted(es, k, v).len() ==> text_less(
                    (#[trigger] insert_sorted(es, k, v)[i]).0,
                    x,
                ),
    decreases es.len(),
{
    let r = insert_sorted(es, k, v);
    if es.len() == 0 {
    } else if es.last().0 == k {
        assert forall|i: int, j: int| 0 <= i < j < r.len() implies text_less(
            (#[trigger] r[i]).0,
            (#[trigger] r[j]).0,
        ) by {
            assert(r[i].0 == es[i].0 && r[j].0 == es[j].0);
        }
        assert forall|x: Seq<char>|
            (forall|j: int| 0 <= j < es.len() ==> text_less(#[trigger] es[j].0, x)) && text_less(
                k,
                x,
            ) implies forall|i: int| 0 <= i < r.len() ==> text_less((#[trigger] r[i]).0, x) by {
            assert forall|i: int| 0 <= i < r.len() implies text_less((#[trigger] r[i]).0, x) by {
                assert(r[i].0 == es[i].0);
            }
        }
    } else if text_less(es.last().0, k) {
        assert forall|i: int, j: int| 0 <= i < j < r.len() implies text_less(
            (#[trigger] r[i]).0,
            (#[trigger] r[j]).0,
        ) by {
            if j == es.len() {
                if i < es.len() - 1 {
                    lemma_text_less_trans(es[i].0, es.last().0, k);
                }
            }
        }
    } else {
        let init = es.drop_last();
        let last = es.last();
        lemma_text_less_total(k, last.0);
        assert(sorted_keys(init)) by {
            assert forall|i: int, j: int| 0 <= i < j < init.len() implies text_less(
                (#[trigger] init[i]).0,
                (#[trigger] init[j]).0,
            ) by {
                assert(init[i] == es[i] && init[j] == es[j]);
            }
        }
        lemma_insert_sorted_keeps(init, k, v);
        let ri = insert_sorted(init, k, v);
        assert forall|j: int| 0 <= j < init.len() implies text_less(#[trigger] init[j].0, last.0) by {
            assert(init[j] == es[j]);
        }
        assert(forall|i: int| 0 <= i < ri.len() ==> text_less((#[trigger] ri[i]).0, last.0));
        assert(r == ri.push(last));
        assert forall|i: int, j: int| 0 <= i < j < r.len() implies text_less(
            (#[trigger] r[i]).0,
            (#[trigger] r[j]).0,
        ) by {
            if j < ri.len() {
                assert(r[i] == ri[i] && r[j] == ri[j]);
            } else {
                assert(r[i] == ri[i]);
            }
        }
        assert forall|x: Seq<char>|
            (forall|j: int| 0 <= j < es.len() ==> text_less(#[trigger] es[j].0, x)) && text_less(
                k,
                x,
            ) implies forall|i: int| 0 <= i < r.len() ==> text_less((#[trigger] r[i]).0, x) by {
            assert forall|j: int| 0 <= j < init.len() implies text_less(#[trigger] init[j].0, x) by {
                assert(init[j] == es[j]);
            }
            assert(text_less(last.0, x));
            assert forall|i: int| 0 <= i < r.len() implies text_less((#[trigger] r[i]).0, x) by {
                if i < ri.len() {
                    assert(r[i] == ri[i]);
                }
            }
        }
        assert forall|i: int| 0 <= i < r.len() implies well_formed(#[trigger] r[i].1) by {
            if i < ri.len() {
                assert(r[i] == ri[i]);
            }
        }
    }
}

proof fn lemma_object_of_well_formed(entries: Seq<(Seq<char>, ValueV)>)
    requires
        forall|i: int| 0 <= i < entries.len() ==> well_formed(#[trigger] entries[i].1),
    ensures
        sorted_keys(object_of(entries)),
        forall|i: int|
            0 <= i < object_of(entries).len() ==> well_formed(#[trigger] object_of(entries)[i].1),
    decreases entries.len(),
{
    if entries.len() > 0 {
        let init = entries.drop_last();
        assert forall|i: int| 0 <= i < init.len() implies well_formed(#[trigger] init[i].1) by {
            assert(init[i] == entries[i]);
        }
        lemma_object_of_well_formed(init);
        lemma_insert_sorted_keeps(object_of(init), entries.last().0, entries.last().1);
    }
}

/// The host value of any slot is well-formed: conversion builds key-ordered objects.
pub proof fn lemma_value_of_well_formed(s: SlotV)
    ensures
        well_formed(value_of(s)),
    decreases s,
{
    match s {
        SlotV::Array(items) => {
            lemma_values_of(items);
            assert forall|i: int| 0 <= i < values_of(items).len() implies well_formed(
                #[trigger] values_of(items)[i],
            ) by {
                lemma_value_of_well_formed(items[i]);
            }
        },
        SlotV::Object(_, props) => {
            lemma_entries_of(props);
            assert forall|i: int| 0 <= i < entries_of(props).len() implies well_formed(
                #[trigger] entries_of(props)[i].1,
            ) by {
                lemma_value_of_well_formed(props[i].1);
            }
            lemma_object_of_well_formed(entries_of(props));
        },
        _ => {},
    }
}

/// The slot that pushing a host value creates. Objects become plain objects; a foreign value
/// becomes `undefined`.
pub open spec fn slot_of(v: ValueV) -> SlotV
    decreases v,
{
    match v {
        ValueV::Undefined => SlotV::Undefined,
        ValueV::Null => SlotV::Null,
        ValueV::Boolean(b) => SlotV::Boolean(b),
        ValueV::Number(n) => SlotV::Number(n),
        ValueV::String(t) => SlotV::Str(t),
        ValueV::Array(items) => SlotV::Array(slots_of(items)),
        ValueV::Object(entries) => SlotV::Object(ObjectClass::Plain, props_of(entries)),
        ValueV::Bytes(b) => SlotV::Buffer(b),
        ValueV::Foreign(_) => SlotV::Undefined,
    }
}

/// The slots that pushing each value creates.
pub open spec fn slots_of(items: Seq<ValueV>) -> Seq<SlotV>
    decreases items,
{
    if items.len() == 0 {
        Seq::empty()
    } else {
        slots_of(items.subrange(0, items.len() - 1)).push(slot_of(items[items.len() - 1]))
    }
}

/// The properties that pushing each entry creates.
pub open spec fn props_of(entries: Seq<(Seq<char>, ValueV)>) -> Seq<(Seq<char>, SlotV)>
    decreases entries,
{
    if entries.len() == 0 {
        Seq::empty()
    } else {
        props_of(entries.subrange(0, entries.len() - 1)).push(
            (entries[entries.len() - 1].0, slot_of(entries[entries.len() - 1].1)),
        )
    }
}

/// [`values_of`] maps element by element.
pub proof fn lemma_values_of(items: Seq<SlotV>)
    ensures
        values_of(items).len() == items.len(),
        forall|i: int| 0 <= i < items.len() ==> #[trigger] values_of(items)[i] == value_of(items[i]),
    decreases items.len(),
{
    if items.len() > 0 {
        lemma_values_of(items.subrange(0, items.len() - 1));
    }
}

/// [`entries_of`] maps entry by entry.
pub proof fn lemma_entries_of(props: Seq<(Seq<char>, SlotV)>)
    ensures
        entries_of(props).len() == props.len(),
        forall|i: int|
            0 <= i < props.len() ==> #[trigger] entries_of(props)[i] == (
                props[i].0,
                value_of(props[i].1),
            ),
    decreases props.len(),
{
    if props.len() > 0 {
        lemma_entries_of(props.subrange(0, props.len() - 1));
    }
}

/// [`slots_of`] maps element by element.
pub proof fn lemma_slots_of(items: Seq<ValueV>)
    ensures
        slots_of(items).len() == items.len(),
        forall|i: int| 0 <= i < items.len() ==> #[trigger] slots_of(items)[i] == slot_of(items[i]),
    decreases items.len(),
{
    if items.len() > 0 {
        lemma_slots_of(items.subrange(0, items.len() - 1));
    }
}

/// [`props_of`] maps entry by entry.
pub proof fn lemma_props_of(entries: Seq<(Seq<char>, ValueV)>)
    ensures
        props_of(entries).len() == entries.len(),
        forall|i: int|
            0 <= i < entries.len() ==> #[trigger] props_of(entries)[i] == (
                entries[i].0,
                slot_of(entries[i].1),
            ),
    decreases entries.len(),
{
    if entries.len() > 0 {
        lemma_props_of(entries.subrange(0, entries.len() - 1));
    }
}


/// A well-formed value: the keys of each of its objects, at any depth, increase strictly, so
/// that each object is a key-ordered mapping with each key once.
pub open spec fn well_formed(v: ValueV) -> bool
    decreases v,
{
    match v {
        ValueV::Array(items) => forall|i: int| 0 <= i < items.len() ==> well_formed(#[trigger] items[i]),
        ValueV::Object(entries) => sorted_keys(entries) && forall|i: int|
            0 <= i < entries.len() ==> well_formed(#[trigger] entries[i].1),
        _ => true,
    }
}

/// Whether a value holds no foreign value at any depth.
pub open spec fn no_foreign(v: ValueV) -> bool
    decreases v,
{
    match v {
        ValueV::Array(items) => forall|i: int| 0 <= i < items.len() ==> no_foreign(#[trigger] items[i]),
        ValueV::Object(entries) => forall|i: int|
            0 <= i < entries.len() ==> no_foreign(#[trigger] entries[i].1),
        ValueV::Foreign(_) => false,
        _ => true,
    }
}

/// Whether a value converts to a slot and back unchanged: it is well-formed and holds no
/// foreign value.
pub open spec fn representable(v: ValueV) -> bool {
    well_formed(v) && no_foreign(v)
}

/// Reading back what pushing a well-formed value without foreign parts created gives that value
/// again.
pub proof fn lemma_value_round_trip(v: ValueV)
    requires
        representable(v),
    ensures
        value_of(slot_of(v)) == v,
    decreases v,
{
    match v {
        ValueV::Array(items) => {
            lemma_slots_of(items);
            lemma_values_of(slots_of(items));
            assert forall|i: int| 0 <= i < items.len() implies values_of(slots_of(items))[i]
                == items[i] by {
                assert(well_formed(items[i]) && no_foreign(items[i]));
                lemma_value_round_trip(items[i]);
            }
            assert(values_of(slots_of(items)) =~= items);
        },
        ValueV::Object(entries) => {
            lemma_props_of(entries);
            lemma_entries_of(props_of(entries));
            assert forall|i: int| 0 <= i < entries.len() implies entries_of(props_of(entries))[i]
                == entries[i] by {
                assert(well_formed(entries[i].1) && no_foreign(entries[i].1));
                lemma_value_round_trip(entries[i].1);
            }
            assert(entries_of(props_of(entries)) =~= entries);
            lemma_object_of_sorted(entries);
        },
        _ => {},
    }
}

/// Binds `v` under `k` in key-ordered entries, as [`insert_sorted`] describes.
fn insert_entry(entries: &mut Vec<(String, Value)>, k: String, v: Value)
    ensures
        entries_view(final(entries)@) == insert_sorted(entries_view(old(entries)@), k@, v@),
{
    let ghost es = entries_view(entries@);
    proof {
        lemma_entries_view(entries@);
        assert(es.subrange(0, es.len() as int) =~= es);
        assert(insert_sorted(es, k@, v@) =~= insert_sorted(es.subrange(0, es.len() as int), k@, v@)
            + es.subrange(es.len() as int, es.len() as int));
    }
    let mut j: usize = entries.len();
    while j > 0 && key_less(&k, &entries[j - 1].0)
        invariant
            entries@ == old(entries)@,
            es == entries_view(entries@),
            es.len() == entries.len(),
            forall|t: int| 0 <= t < entries.len() ==> #[trigger] es[t] == (entries[t].0@, entries[t].1@),
            j <= entries.len(),
            insert_sorted(es, k@, v@) == insert_sorted(es.subrange(0, j as int), k@, v@)
                + es.subrange(j as int, es.len() as int),
        decreases j,
    {
        proof {
            let x = es[j - 1].0;
            lemma_text_less_strict(k@, x);
            lemma_text_less_strict(x, x);
            let pre = es.subrange(0, j as int);
            assert(pre.last() == es[j - 1]);
            assert(pre.drop_last() =~= es.subrange(0, j - 1));
            assert(insert_sorted(pre, k@, v@) == insert_sorted(es.subrange(0, j - 1), k@, v@).push(
                es[j - 1],
            ));
            assert(insert_sorted(es.subrange(0, j - 1), k@, v@).push(es[j - 1]) + es.subrange(
                j as int,
                es.len() as int,
            ) =~= insert_sorted(es.subrange(0, j - 1), k@, v@) + es.subrange(j - 1, es.len() as int));
        }
        j -= 1;
    }
    let ghost kv = v@;
    if j > 0 && entries[j - 1].0 == k {
        let ghost pre = es.subrange(0, j as int);
        proof {
            assert(pre.last() == es[j - 1]);
            assert(pre.drop_last() =~= es.subrange(0, j - 1));
        }
        entries.set(j - 1, (k, v));
        proof {
            lemma_entries_view(entries@);
            assert(entries_view(entries@) =~= es.subrange(0, j - 1).push((k@, kv)) + es.subrange(
                j as int,
                es.len() as int,
            ));
        }
    } else {
        proof {
            if j > 0 {
                let x = es[j - 1].0;
                let pre = es.subrange(0, j as int);
                assert(pre.last() == es[j - 1]);
                assert(x != k@);
                lemma_text_less_total(x, k@);
            } else {
                assert(es.subrange(0, 0) =~= Seq::<(Seq<char>, ValueV)>::empty());
            }
        }
        let ghost kk = k@;
        entries.insert(j, (k, v));
        proof {
            lemma_entries_view(entries@);
            assert(entries_view(entries@) =~= es.subrange(0, j as int).push((kk, kv)) + es.subrange(
                j as int,
                es.len() as int,
            ));
        }
    }
}

impl Value {
    /// Converts an engine slot into a host value, as [`value_of`] describes.
    pub fn from_slot(s: &Slot) -> (r: Value)
        ensures
            r@ == value_of(s@),
            well_formed(r@),
        decreases s,
    {
        proof {
            lemma_value_of_well_formed(s@);
        }
        match s {
            Slot::Undefined => Value::Undefined,
            Slot::Null => Value::Null,
            Slot::Boolean(b) => Value::Boolean(*b),
            Slot::Number(n) => Value::Number(*n),
            Slot::Str(t) => Value::String(t.clone()),
            Slot::Array(items) => {
                let mut out: Vec<Value> = Vec::new();
                let mut i: usize = 0;
                while i < items.len()
                    invariant
                        *s == Slot::Array(*items),
                        i <= items.len(),
                        out.len() == i,
                        forall|j: int| 0 <= j < i ==> (#[trigger] out[j])@ == value_of(items[j]@),
                    decreases items.len() - i,
                {
                    proof {
                        assert(decreases_to!(*s => (*s)->Array_0@[i as int]));
                    }
                    out.push(Value::from_slot(&items[i]));
                    i += 1;
                }
                let ghost og = out;
                let r = Value::Array(out);
                proof {
                    lemma_values_view(og@);
                    lemma_items_view(items@);
                    lemma_values_of(items_view(items@));
                    assert(values_view(og@) =~= values_of(items_view(items@)));
                }
                r
            },
            Slot::Object(_, props) => {
                let mut out: Vec<(String, Value)> = Vec::new();
                let mut i: usize = 0;
                proof {
                    lemma_props_view(props@);
                    lemma_entries_of(props_view(props@));
                    lemma_entries_view(out@);
                    assert(entries_of(props_view(props@)).subrange(0, 0) =~= Seq::<
                        (Seq<char>, ValueV),
                    >::empty());
                    assert(entries_view(out@) =~= Seq::<(Seq<char>, ValueV)>::empty());
                }
                while i < props.len()
                    invariant
                        *s == Slot::Object(s->Object_0, *props),
                        i <= props.len(),
                        props_view(props@).len() == props.len(),
                        forall|j: int|
                            0 <= j < props.len() ==> #[trigger] props_view(props@)[j] == (
                                props[j].0@,
                                props[j].1@,
                            ),
                        entries_of(props_view(props@)).len() == props.len(),
                        forall|j: int|
                            0 <= j < props.len() ==> #[trigger] entries_of(props_view(props@))[j]
                                == (props_view(props@)[j].0, value_of(props_view(props@)[j].1)),
                        entries_view(out@) == object_of(
                            entries_of(props_view(props@)).subrange(0, i as int),
                        ),
                    decreases props.len() - i,
                {
                    proof {
                        assert(decreases_to!(*s => (*s)->Object_1@[i as int].1));
                        let e = entries_of(props_view(props@));
                        assert(e.subrange(0, i + 1).drop_last() =~= e.subrange(0, i as int));
                    }
                    let k = props[i].0.clone();
                    let v = Value::from_slot(&props[i].1);
                    insert_entry(&mut out, k, v);
                    i += 1;
                }
                let ghost og = out;
                let r = Value::Object(out);
                proof {
                    assert(entries_of(props_view(props@)).subrange(0, i as int) =~= entries_of(
                        props_view(props@),
                    ));
                }
                r
            },
            Slot::Buffer(b) => {
                let c = b.clone();
                assert(c@ =~= b@);
                Value::Bytes(c)
            },
            Slot::Pointer => {
                proof {
                    reveal_strlit("pointer");
                    assert("pointer"@ =~= seq!['p', 'o', 'i', 'n', 't', 'e', 'r']);
                }
                Value::Foreign("pointer")
            },
            Slot::LightFunc => {
                proof {
                    reveal_strlit("lightfunc");
                    assert("lightfunc"@ =~= seq!['l', 'i', 'g', 'h', 't', 'f', 'u', 'n', 'c']);
                }
                Value::Foreign("lightfunc")
            },
        }
    }

    /// The slot that pushing this value creates, as [`slot_of`] describes.
    pub fn to_slot(&self) -> (r: Slot)
        ensures
            r@ == slot_of(self@),
        decreases self,
    {
        match self {
            Value::Undefined => Slot::Undefined,
            Value::Null => Slot::Null,
            Value::Boolean(b) => Slot::Boolean(*b),
            Value::Number(n) => Slot::Number(*n),
            Value::String(t) => Slot::Str(t.clone()),
            Value::Array(items) => {
                let mut out: Vec<Slot> = Vec::new();
                let mut i: usize = 0;
                while i < items.len()
                    invariant
                        *self == Value::Array(*items),
                        i <= items.len(),
                        out.len() == i,
                        forall|j: int| 0 <= j < i ==> (#[trigger] out[j])@ == slot_of(items[j]@),
                    decreases items.len() - i,
                {
                    proof {
                        assert(decreases_to!(*self => (*self)->Array_0@[i as int]));
                    }
                    out.push(items[i].to_slot());
                    i += 1;
                }
                let ghost og = out;
                let r = Slot::Array(out);
                proof {
                    lemma_items_view(og@);
                    lemma_values_view(items@);
                    lemma_slots_of(values_view(items@));
                    assert(items_view(og@) =~= slots_of(values_view(items@)));
                }
                r
            },
            Value::Object(entries) => {
                let mut out: Vec<(String, Slot)> = Vec::new();
                let mut i: usize = 0;
                while i < entries.len()
                    invariant
                        *self == Value::Object(*entries),
                        i <= entries.len(),
                        out.len() == i,
                        forall|j: int|
                            0 <= j < i ==> (#[trigger] out[j]).0@ == entries[j].0@ && out[j].1@
                                == slot_of(entries[j].1@),
                    decreases entries.len() - i,
                {
                    proof {
                        assert(decreases_to!(*self => (*self)->Object_0@[i as int].1));
                    }
                    let k = entries[i].0.clone();
                    let v = entries[i].1.to_slot();
                    out.push((k, v));
                    i += 1;
                }
                let ghost og = out;
                let r = Slot::Object(ObjectClass::Plain, out);
                proof {
                    lemma_props_view(og@);
                    lemma_entries_view(entries@);
                    lemma_props_of(entries_view(entries@));
                    assert(props_view(og@) =~= props_of(entries_view(entries@)));
                }
                r
            },
            Value::Bytes(b) => {
                let c = b.clone();
                assert(c@ =~= b@);
                Slot::Buffer(c)
            },
            Value::Foreign(_) => Slot::Undefined,
        }
    }
}

} // verus!
