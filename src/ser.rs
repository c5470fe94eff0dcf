//! The structured writer: pushes host data onto the value stack in the shape of its type.
use vstd::prelude::*;
use crate::context::{same_heap, Context};
use crate::data::{
    data_entries_view, data_items_view, lemma_data_entries_view, lemma_data_items_view, Data,
    DataV,
};
use crate::stack::{
    items_view, lemma_items_view, lemma_props_view, props_view, ObjectClass, Slot, SlotV,
};

verus! {

/// An error of the writer, with its message.
#[derive(Debug)]
pub struct Error(String);

impl Error {
    /// An error with the given message.
    pub fn custom(message: String) -> (e: Error)
        ensures
            e.message() == message@,
    {
        Error(message)
    }

    /// The message.
    pub closed spec fn message(&self) -> Seq<char> {
        self.0@
    }

    /// The message, as text.
    pub fn to_text(&self) -> (r: String)
        ensures
            r@ == self.message(),
    {
        self.0.clone()
    }
}

/// The slot that writing structured data creates. Scalars map one to one, `()` to `null`;
/// sequences become arrays and maps or records objects; a variant without payload becomes its
/// name, and one with a payload an object whose single property, named after the variant,
/// holds the payload (an array of the payloads, or an object of the fields, where there are
/// several).
pub open spec fn slot_of_data(d: DataV) -> SlotV
    decreases d,
{
    match d {
        DataV::Unit => SlotV::Null,
        DataV::Bool(b) => SlotV::Boolean(b),
        DataV::Number(n) => SlotV::Number(n),
        DataV::Str(t) => SlotV::Str(t),
        DataV::Bytes(b) => SlotV::Buffer(b),
        DataV::List(items) => SlotV::Array(slots_of_data(items)),
        DataV::Dict(entries) => SlotV::Object(ObjectClass::Plain, props_of_data(entries)),
        DataV::UnitVariant(n) => SlotV::Str(n),
        DataV::NewtypeVariant(n, p) => SlotV::Object(
            ObjectClass::Plain,
            seq![(n, slot_of_data(*p))],
        ),
        DataV::TupleVariant(n, items) => SlotV::Object(
            ObjectClass::Plain,
            seq![(n, SlotV::Array(slots_of_data(items)))],
        ),
        DataV::StructVariant(n, entries) => SlotV::Object(
            ObjectClass::Plain,
            seq![(n, SlotV::Object(ObjectClass::Plain, props_of_data(entries)))],
        ),
    }
}

/// The slots that writing each element creates.
pub open spec fn slots_of_data(items: Seq<DataV>) -> Seq<SlotV>
    decreases items,
{
    if items.len() == 0 {
        Seq::empty()
    } else {
        slots_of_data(items.subrange(0, items.len() - 1)).push(slot_of_data(items[items.len() - 1]))
    }
}

/// The properties that writing each entry creates, keys kept.
pub open spec fn props_of_data(entries: Seq<(Seq<char>, DataV)>) -> Seq<(Seq<char>, SlotV)>
    decreases entries,
{
    if entries.len() == 0 {
        Seq::empty()
    } else {
        props_of_data(entries.subrange(0, entries.len() - 1)).push(
            (entries[entries.len() - 1].0, slot_of_data(entries[entries.len() - 1].1)),
        )
    }
}

/// [`slots_of_data`] maps element by element.
pub proof fn lemma_slots_of_data(items: Seq<DataV>)
    ensures
        slots_of_data(items).len() == items.len(),
        forall|i: int|
            0 <= i < items.len() ==> #[trigger] slots_of_data(items)[i] == slot_of_data(items[i]),
    decreases items.len(),
{
    if items.len() > 0 {
        lemma_slots_of_data(items.subrange(0, items.len() - 1));
    }
}

/// [`props_of_data`] maps entry by entry.
pub proof fn lemma_props_of_data(entries: Seq<(Seq<char>, DataV)>)
    ensures
        props_of_data(entries).len() == entries.len(),
        forall|i: int|
            0 <= i < entries.len() ==> #[trigger] props_of_data(entries)[i] == (
                entries[i].0,
                slot_of_data(entries[i].1),
            ),
    decreases entries.len(),
{
    if entries.len() > 0 {
        lemma_props_of_data(entries.subrange(0, entries.len() - 1));
    }
}

fn write_items(items: &Vec<Data>) -> (r: Vec<Slot>)
    ensures
        items_view(r@) == slots_of_data(data_items_view(items@)),
    decreases items, 0nat,
{
    let mut out: Vec<Slot> = Vec::new();
    let mut i: usize = 0;
    while i < items.len()
        invariant
            i <= items.len(),
            out.len() == i,
            forall|j: int| 0 <= j < i ==> (#[trigger] out[j])@ == slot_of_data(items[j]@),
        decreases items.len() - i,
    {
        proof {
            assert(decreases_to!(*items => items@[i as int]));
        }
        out.push(write_data(&items[i]));
        i += 1;
    }
    proof {
        lemma_items_view(out@);
        lemma_data_items_view(items@);
        lemma_slots_of_data(data_items_view(items@));
        assert(items_view(out@) =~= slots_of_data(data_items_view(items@)));
    }
    out
}

fn write_entries(entries: &Vec<(String, Data)>) -> (r: Vec<(String, Slot)>)
    ensures
        props_view(r@) == props_of_data(data_entries_view(entries@)),
    decreases entries, 0nat,
{
    let mut out: Vec<(String, Slot)> = Vec::new();
    let mut i: usize = 0;
    while i < entries.len()
        invariant
            i <= entries.len(),
            out.len() == i,
            forall|j: int|
                0 <= j < i ==> (#[trigger] out[j]).0@ == entries[j].0@ && out[j].1@ == slot_of_data(
                    entries[j].1@,
                ),
        decreases entries.len() - i,
    {
        proof {
            assert(decreases_to!(*entries => entries@[i as int].1));
        }
        let k = entries[i].0.clone();
        let v = write_data(&entries[i].1);
        out.push((k, v));
        i += 1;
    }
    proof {
        lemma_props_view(out@);
        lemma_data_entries_view(entries@);
        lemma_props_of_data(data_entries_view(entries@));
        assert(props_view(out@) =~= props_of_data(data_entries_view(entries@)));
    }
    out
}

fn single(name: &String, v: Slot) -> (r: Slot)
    ensures
        r@ == SlotV::Object(ObjectClass::Plain, seq![(name@, v@)]),
{
    let props = vec![(name.clone(), v)];
    proof {
        lemma_props_view(props@);
        assert(props_view(props@) =~= seq![(name@, v@)]);
    }
    Slot::Object(ObjectClass::Plain, props)
}

/// Writes structured data into the slot [`slot_of_data`] describes.
pub fn write_data(d: &Data) -> (r: Slot)
    ensures
        r@ == slot_of_data(d@),
    decreases d, 1nat,
{
    match d {
        Data::Unit => Slot::Null,
        Data::Bool(b) => Slot::Boolean(*b),
        Data::Number(n) => Slot::Number(*n),
        Data::Str(t) => Slot::Str(t.clone()),
        Data::Bytes(b) => {
            let c = b.clone();
            assert(c@ =~= b@);
            Slot::Buffer(c)
        },
        Data::List(items) => Slot::Array(write_items(items)),
        Data::Dict(entries) => Slot::Object(ObjectClass::Plain, write_entries(entries)),
        Data::UnitVariant(n) => Slot::Str(n.clone()),
        Data::NewtypeVariant(n, p) => single(n, write_data(p)),
        Data::TupleVariant(n, items) => single(n, Slot::Array(write_items(items))),
        Data::StructVariant(n, entries) => single(
            n,
            Slot::Object(ObjectClass::Plain, write_entries(entries)),
        ),
    }
}

/// Writes structured data onto the stack of `ctx` and returns the position of the new value.
pub fn serialize_to_stack<R, L>(ctx: &mut Context<R, L>, value: &Data) -> (r: Result<
    usize,
    Error,
>)
    ensures
        r matches Ok(i) && i == old(ctx).stack().len(),
        final(ctx).stack() == old(ctx).stack().push(slot_of_data(value@)),
        same_heap(final(ctx), old(ctx)),
{
    let slot = write_data(value);
    let idx = ctx.stack_height();
    ctx.push_slot(slot);
    Ok(idx)
}

} // verus!
