//! Laws relating the writer and the reader.
use vstd::prelude::*;
use crate::data::{unique_keys, DataV, Payload, Shape};
use crate::de::{
    decode, decode_all, decode_enum, decode_fields, decode_payload, decode_tuple, decode_values,
    find_variant,
};
use crate::error::{lookup, property};
use crate::ser::{lemma_props_of_data, lemma_slots_of_data, props_of_data, slot_of_data, slots_of_data};
use crate::stack::{ObjectClass, SlotV};

verus! {

/// Whether `d` is a value of the declared `shape`, as writing a value of that type produces
/// it: every element, entry, field and payload has its declared shape, a record holds its
/// declared fields in order, keys are distinct, and an optional value is absent or present.
pub open spec fn fits(d: DataV, shape: Shape) -> bool
    decreases shape, d,
{
    match shape {
        Shape::Any => match d {
            DataV::List(items) => forall|i: int|
                0 <= i < items.len() ==> fits(#[trigger] items[i], Shape::Any),
            DataV::Dict(entries) => unique_keys(entries) && forall|i: int|
                0 <= i < entries.len() ==> fits(#[trigger] entries[i].1, Shape::Any),
            DataV::UnitVariant(_) => false,
            DataV::NewtypeVariant(_, _) => false,
            DataV::TupleVariant(_, _) => false,
            DataV::StructVariant(_, _) => false,
            _ => true,
        },
        Shape::Unit => d is Unit,
        Shape::Bool => d is Bool,
        Shape::Number => d is Number,
        Shape::Str => d is Str,
        Shape::Bytes => d is Bytes,
        Shape::Option(inner) => d is Unit || fits(d, *inner),
        Shape::List(elem) => match d {
            DataV::List(items) => forall|i: int|
                0 <= i < items.len() ==> fits(#[trigger] items[i], *elem),
            _ => false,
        },
        Shape::Tuple(shapes) => match d {
            DataV::List(items) => items.len() == shapes.len() && forall|i: int|
                0 <= i < items.len() ==> fits(#[trigger] items[i], shapes[i]),
            _ => false,
        },
        Shape::Dict(vshape) => match d {
            DataV::Dict(entries) => unique_keys(entries) && forall|i: int|
                0 <= i < entries.len() ==> fits(#[trigger] entries[i].1, *vshape),
            _ => false,
        },
        Shape::Struct(fields) => match d {
            DataV::Dict(entries) => entries.len() == fields.len() && unique_keys(entries)
                && forall|i: int|
                0 <= i < entries.len() ==> (#[trigger] entries[i]).0 == fields[i].0@ && fits(
                    entries[i].1,
                    fields[i].1,
                ),
            _ => false,
        },
        Shape::Enum(variants) => match d {
            DataV::UnitVariant(n) => match find_variant(variants@, n) {
                Some(i) => 0 <= i < variants.len() && variants[i].1 is Unit,
                None => false,
            },
            DataV::NewtypeVariant(n, p) => match find_variant(variants@, n) {
                Some(i) => 0 <= i < variants.len() && match variants[i].1 {
                    Payload::Newtype(sh) => fits(*p, sh),
                    _ => false,
                },
                None => false,
            },
            DataV::TupleVariant(n, items) => match find_variant(variants@, n) {
                Some(i) => 0 <= i < variants.len() && match variants[i].1 {
                    Payload::Tuple(shapes) => items.len() == shapes.len() && forall|j: int|
                        0 <= j < items.len() ==> fits(#[trigger] items[j], shapes[j]),
                    _ => false,
                },
                None => false,
            },
            DataV::StructVariant(n, entries) => match find_variant(variants@, n) {
                Some(i) => 0 <= i < variants.len() && match variants[i].1 {
                    Payload::Struct(fields) => entries.len() == fields.len() && unique_keys(entries)
                        && forall|j: int|
                        0 <= j < entries.len() ==> (#[trigger] entries[j]).0 == fields[j].0@
                            && fits(entries[j].1, fields[j].1),
                    _ => false,
                },
                None => false,
            },
            _ => false,
        },
    }
}

proof fn lemma_decode_all_pointwise(items: Seq<SlotV>, elem: Shape, ds: Seq<DataV>)
    requires
        items.len() == ds.len(),
        forall|i: int| 0 <= i < items.len() ==> decode(#[trigger] items[i], elem) == Some(ds[i]),
    ensures
        decode_all(items, elem) == Some(ds),
    decreases items.len(),
{
    if items.len() > 0 {
        let n = items.len() - 1;
        lemma_decode_all_pointwise(items.subrange(0, n), elem, ds.subrange(0, n));
        assert(ds.subrange(0, n).push(ds[n]) =~= ds);
    }
}

proof fn lemma_decode_tuple_pointwise(items: Seq<SlotV>, shapes: Seq<Shape>, ds: Seq<DataV>)
    requires
        items.len() == ds.len(),
        items.len() == shapes.len(),
        forall|i: int|
            0 <= i < items.len() ==> decode(#[trigger] items[i], shapes[i]) == Some(ds[i]),
    ensures
        decode_tuple(items, shapes) == Some(ds),
    decreases items.len(),
{
    if items.len() > 0 {
        let n = items.len() - 1;
        lemma_decode_tuple_pointwise(items.subrange(0, n), shapes.subrange(0, n), ds.subrange(0, n));
        assert(ds.subrange(0, n).push(ds[n]) =~= ds);
    }
}

proof fn lemma_decode_values_pointwise(
    props: Seq<(Seq<char>, SlotV)>,
    vshape: Shape,
    es: Seq<(Seq<char>, DataV)>,
)
    requires
        props.len() == es.len(),
        forall|i: int|
            0 <= i < props.len() ==> (#[trigger] props[i]).0 == es[i].0 && decode(props[i].1, vshape)
                == Some(es[i].1),
    ensures
        decode_values(props, vshape) == Some(es),
    decreases props.len(),
{
    if props.len() > 0 {
        let n = props.len() - 1;
        lemma_decode_values_pointwise(props.subrange(0, n), vshape, es.subrange(0, n));
        assert(es.subrange(0, n).push(es[n]) =~= es);
    }
}

proof fn lemma_decode_fields_pointwise(
    fields: Seq<(String, Shape)>,
    s: SlotV,
    es: Seq<(Seq<char>, DataV)>,
    vs: Seq<SlotV>,
)
    requires
        fields.len() == es.len(),
        fields.len() == vs.len(),
        forall|i: int|
            0 <= i < fields.len() ==> (#[trigger] es[i]).0 == fields[i].0@ && property(
                s,
                fields[i].0@,
            ) == Some(vs[i]) && decode(vs[i], fields[i].1) == Some(es[i].1),
    ensures
        decode_fields(fields, s) == Some(es),
    decreases fields.len(),
{
    if fields.len() > 0 {
        let n = fields.len() - 1;
        lemma_decode_fields_pointwise(
            fields.subrange(0, n),
            s,
            es.subrange(0, n),
            vs.subrange(0, n),
        );
        assert(es.subrange(0, n).push(es[n]) =~= es);
    }
}

proof fn lemma_lookup_unique(props: Seq<(Seq<char>, SlotV)>, j: int)
    requires
        unique_keys(props),
        0 <= j < props.len(),
    ensures
        lookup(props, props[j].0) == Some(props[j].1),
    decreases props.len(),
{
    if j < props.len() - 1 {
        assert(props.last().0 != props[j].0);
        assert(props.drop_last()[j] == props[j]);
        assert(unique_keys(props.drop_last())) by {
            assert forall|a: int, b: int|
                0 <= a < b < props.drop_last().len() implies (#[trigger] props.drop_last()[a]).0
                != (#[trigger] props.drop_last()[b]).0 by {
                assert(props.drop_last()[a] == props[a]);
                assert(props.drop_last()[b] == props[b]);
            }
        }
        lemma_lookup_unique(props.drop_last(), j);
    }
}

proof fn lemma_props_unique(entries: Seq<(Seq<char>, DataV)>)
    requires
        unique_keys(entries),
    ensures
        unique_keys(props_of_data(entries)),
{
    lemma_props_of_data(entries);
    let p = props_of_data(entries);
    assert forall|a: int, b: int| 0 <= a < b < p.len() implies (#[trigger] p[a]).0 != (#[trigger] p[b]).0 by {
        assert(p[a].0 == entries[a].0);
        assert(p[b].0 == entries[b].0);
    }
}

/// Reading back, with its declared shape, what writing a value of that shape pushed gives the
/// value again.
pub proof fn lemma_round_trip(d: DataV, shape: Shape)
    requires
        fits(d, shape),
    ensures
        decode(slot_of_data(d), shape) == Some(d),
    decreases shape, d,
{
    match shape {
        Shape::Any => match d {
            DataV::List(items) => {
                lemma_slots_of_data(items);
                assert forall|i: int| 0 <= i < items.len() implies decode(
                    #[trigger] slots_of_data(items)[i],
                    Shape::Any,
                ) == Some(items[i]) by {
                    lemma_round_trip(items[i], Shape::Any);
                }
                lemma_decode_all_pointwise(slots_of_data(items), Shape::Any, items);
            },
            DataV::Dict(entries) => {
                lemma_props_of_data(entries);
                assert forall|i: int| 0 <= i < entries.len() implies (#[trigger] props_of_data(
                    entries,
                )[i]).0 == entries[i].0 && decode(props_of_data(entries)[i].1, Shape::Any) == Some(
                    entries[i].1,
                ) by {
                    lemma_round_trip(entries[i].1, Shape::Any);
                }
                lemma_decode_values_pointwise(props_of_data(entries), Shape::Any, entries);
            },
            _ => {},
        },
        Shape::Option(inner) => {
            if !(d is Unit) {
                lemma_round_trip(d, *inner);
            }
        },
        Shape::List(elem) => {
            let items = d->List_0;
            lemma_slots_of_data(items);
            assert forall|i: int| 0 <= i < items.len() implies decode(
                #[trigger] slots_of_data(items)[i],
                *elem,
            ) == Some(items[i]) by {
                lemma_round_trip(items[i], *elem);
            }
            lemma_decode_all_pointwise(slots_of_data(items), *elem, items);
        },
        Shape::Tuple(shapes) => {
            let items = d->List_0;
            lemma_slots_of_data(items);
            assert forall|i: int| 0 <= i < items.len() implies decode(
                #[trigger] slots_of_data(items)[i],
                shapes@[i],
            ) == Some(items[i]) by {
                lemma_round_trip(items[i], shapes@[i]);
            }
            lemma_decode_tuple_pointwise(slots_of_data(items), shapes@, items);
        },
        Shape::Dict(vshape) => {
            let entries = d->Dict_0;
            lemma_props_of_data(entries);
            assert forall|i: int| 0 <= i < entries.len() implies (#[trigger] props_of_data(
                entries,
            )[i]).0 == entries[i].0 && decode(props_of_data(entries)[i].1, *vshape) == Some(
                entries[i].1,
            ) by {
                lemma_round_trip(entries[i].1, *vshape);
            }
            lemma_decode_values_pointwise(props_of_data(entries), *vshape, entries);
        },
        Shape::Struct(fields) => {
            let entries = d->Dict_0;
            lemma_struct_round_trip(entries, fields@);
        },
        Shape::Enum(variants) => {
            lemma_enum_round_trip(d, variants);
        },
        _ => {},
    }
}

proof fn lemma_struct_round_trip(entries: Seq<(Seq<char>, DataV)>, fields: Seq<(String, Shape)>)
    requires
        entries.len() == fields.len(),
        unique_keys(entries),
        forall|i: int|
            0 <= i < entries.len() ==> (#[trigger] entries[i]).0 == fields[i].0@ && fits(
                entries[i].1,
                fields[i].1,
            ),
    ensures
        decode_fields(fields, SlotV::Object(ObjectClass::Plain, props_of_data(entries))) == Some(
            entries,
        ),
    decreases fields, DataV::Dict(entries),
{
    let props = props_of_data(entries);
    let s = SlotV::Object(ObjectClass::Plain, props);
    lemma_props_of_data(entries);
    lemma_props_unique(entries);
    let vs = Seq::new(entries.len(), |i: int| props[i].1);
    assert forall|i: int| 0 <= i < fields.len() implies (#[trigger] entries[i]).0 == fields[i].0@
        && property(s, fields[i].0@) == Some(vs[i]) && decode(vs[i], fields[i].1) == Some(
        entries[i].1,
    ) by {
        lemma_lookup_unique(props, i);
        lemma_round_trip(entries[i].1, fields[i].1);
    }
    lemma_decode_fields_pointwise(fields, s, entries, vs);
}

proof fn lemma_enum_round_trip(d: DataV, variants: Vec<(String, Payload)>)
    requires
        fits(d, Shape::Enum(variants)),
    ensures
        decode_enum(variants@, slot_of_data(d)) == Some(d),
    decreases variants, d,
{
    match d {
        DataV::NewtypeVariant(n, p) => {
            let i = find_variant(variants@, n)->Some_0;
            let sh = variants@[i].1->Newtype_0;
            lemma_round_trip(*p, sh);
            assert(decode_payload(variants@[i].1, n, slot_of_data(*p)) == Some(d));
        },
        DataV::TupleVariant(n, items) => {
            let i = find_variant(variants@, n)->Some_0;
            let shapes = variants@[i].1->Tuple_0;
            lemma_slots_of_data(items);
            assert forall|j: int| 0 <= j < items.len() implies decode(
                #[trigger] slots_of_data(items)[j],
                shapes@[j],
            ) == Some(items[j]) by {
                lemma_round_trip(items[j], shapes@[j]);
            }
            lemma_decode_tuple_pointwise(slots_of_data(items), shapes@, items);
        },
        DataV::StructVariant(n, entries) => {
            let i = find_variant(variants@, n)->Some_0;
            let fields = variants@[i].1->Struct_0;
            lemma_struct_round_trip(entries, fields@);
        },
        _ => {},
    }
}

} // verus!
