//! Structured host data as the writer and reader see it, and the shapes a reader targets.
use vstd::prelude::*;

verus! {

/// A self-describing host value, as a structured type presents itself to the writer.
#[derive(Debug, PartialEq)]
pub enum Data {
    /// The unit value, a unit struct, or an absent optional value: written as `null`.
    Unit,
    Bool(bool),
    /// Any integer or floating-point width, as the bit pattern of the double it becomes.
    Number(u64),
    /// A string or a character.
    Str(String),
    Bytes(Vec<u8>),
    /// A sequence, tuple or tuple struct.
    List(Vec<Data>),
    /// A map with string keys, or a record with its fields in declared order.
    Dict(Vec<(String, Data)>),
    /// A variant without payload.
    UnitVariant(String),
    /// A variant with one unnamed payload.
    NewtypeVariant(String, Box<Data>),
    /// A variant with several unnamed payloads.
    TupleVariant(String, Vec<Data>),
    /// A variant with named fields.
    StructVariant(String, Vec<(String, Data)>),
}

/// Mathematical model of [`Data`].
pub enum DataV {
    Unit,
    Bool(bool),
    Number(u64),
    Str(Seq<char>),
    Bytes(Seq<u8>),
    List(Seq<DataV>),
    Dict(Seq<(Seq<char>, DataV)>),
    UnitVariant(Seq<char>),
    NewtypeVariant(Seq<char>, Box<DataV>),
    TupleVariant(Seq<char>, Seq<DataV>),
    StructVariant(Seq<char>, Seq<(Seq<char>, DataV)>),
}

impl View for Data {
    type V = DataV;

    open spec fn view(&self) -> DataV {
        data_view(*self)
    }
}

/// The model of structured data.
pub open spec fn data_view(d: Data) -> DataV
    decreases d,
{
    match d {
        Data::Unit => DataV::Unit,
        Data::Bool(b) => DataV::Bool(b),
        Data::Number(n) => DataV::Number(n),
        Data::Str(s) => DataV::Str(s@),
        Data::Bytes(b) => DataV::Bytes(b@),
        Data::List(items) => DataV::List(data_items_view(items@)),
        Data::Dict(entries) => DataV::Dict(data_entries_view(entries@)),
        Data::UnitVariant(n) => DataV::UnitVariant(n@),
        Data::NewtypeVariant(n, p) => DataV::NewtypeVariant(n@, Box::new(data_view(*p))),
        Data::TupleVariant(n, items) => DataV::TupleVariant(n@, data_items_view(items@)),
        Data::StructVariant(n, entries) => DataV::StructVariant(n@, data_entries_view(entries@)),
    }
}

/// The models of a sequence of data.
pub open spec fn data_items_view(items: Seq<Data>) -> Seq<DataV>
    decreases items,
{
    if items.len() == 0 {
        Seq::empty()
    } else {
        data_items_view(items.subrange(0, items.len() - 1)).push(data_view(items[items.len() - 1]))
    }
}

/// The models of a sequence of keyed data.
pub open spec fn data_entries_view(entries: Seq<(String, Data)>) -> Seq<(Seq<char>, DataV)>
    decreases entries,
{
    if entries.len() == 0 {
        Seq::empty()
    } else {
        data_entries_view(entries.subrange(0, entries.len() - 1)).push(
            (entries[entries.len() - 1].0@, data_view(entries[entries.len() - 1].1)),
        )
    }
}

/// [`data_items_view`] maps element by element.
pub proof fn lemma_data_items_view(items: Seq<Data>)
    ensures
        data_items_view(items).len() == items.len(),
        forall|i: int| 0 <= i < items.len() ==> #[trigger] data_items_view(items)[i] == items[i]@,
    decreases items.len(),
{
    if items.len() > 0 {
        lemma_data_items_view(items.subrange(0, items.len() - 1));
    }
}

/// [`data_entries_view`] maps entry by entry.
pub proof fn lemma_data_entries_view(entries: Seq<(String, Data)>)
    ensures
        data_entries_view(entries).len() == entries.len(),
        forall|i: int|
            0 <= i < entries.len() ==> #[trigger] data_entries_view(entries)[i] == (
                entries[i].0@,
                entries[i].1@,
            ),
    decreases entries.len(),
{
    if entries.len() > 0 {
        lemma_data_entries_view(entries.subrange(0, entries.len() - 1));
    }
}

/// The declared shape of a structured type, which the reader walks.
pub enum Shape {
    /// Whatever the value is, read by its type tag.
    Any,
    Unit,
    Bool,
    Number,
    Str,
    Bytes,
    /// `null` or `undefined` for an absent value, else the inner shape.
    Option(Box<Shape>),
    /// A sequence of any length.
    List(Box<Shape>),
    /// A fixed-length tuple.
    Tuple(Vec<Shape>),
    /// A map from string keys.
    Dict(Box<Shape>),
    /// A record with its declared fields.
    Struct(Vec<(String, Shape)>),
    /// A sum type with its declared variants.
    Enum(Vec<(String, Payload)>),
}

/// The payload a variant declares.
pub enum Payload {
    Unit,
    Newtype(Shape),
    Tuple(Vec<Shape>),
    Struct(Vec<(String, Shape)>),
}

/// Whether the keys of a sequence of entries are pairwise distinct.
pub open spec fn unique_keys<V>(entries: Seq<(Seq<char>, V)>) -> bool {
    forall|i: int, j: int|
        0 <= i < j < entries.len() ==> (#[trigger] entries[i]).0 != (#[trigger] entries[j]).0
}

} // verus!
