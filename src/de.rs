//! The structured reader: rebuilds host data from a stack value, guided by the declared shape.
use vstd::prelude::*;
use vstd::string::StringExecFns;
use crate::context::Context;
use crate::data::{
    data_entries_view, data_items_view, lemma_data_entries_view, lemma_data_items_view, Data,
    DataV, Payload, Shape,
};
use crate::error::{get_property, property};
use crate::stack::{
    items_view, lemma_items_view, lemma_props_view, props_view, resolve_index, Slot, SlotV,
};

verus! {

/// An error of the reader, with its message. Any failure aborts the whole read.
#[derive(Debug)]
pub struct Error(String);

impl Error {
    /// An error with the given message.
    pub fn custom(message: String) -> (e: Error)
        ensures
            e.message() == message@,
    {
        Error(message)
    }

    /// The message.
    pub closed spec fn message(&self) -> Seq<char> {
        self.0@
    }

    /// The message, as text.
    pub fn to_text(&self) -> (r: String)
        ensures
            r@ == self.message(),
    {
        self.0.clone()
    }
}

fn fail(message: &str) -> (e: Error)
    ensures
        e.message() == message@,
{
    Error(message.to_owned())
}

/// The decimal numeral of `n`.
pub open spec fn decimal_text(n: nat) -> Seq<char>
    decreases n,
{
    if n < 10 {
        seq![digit_char(n)]
    } else {
        decimal_text(n / 10) + seq![digit_char(n % 10)]
    }
}

/// The character of a decimal digit.
pub open spec fn digit_char(d: nat) -> char {
    if d == 0 { '0' } else if d == 1 { '1' } else if d == 2 { '2' } else if d == 3 { '3' }
    else if d == 4 { '4' } else if d == 5 { '5' } else if d == 6 { '6' } else if d == 7 { '7' }
    else if d == 8 { '8' } else { '9' }
}

fn digit_str(d: usize) -> (r: &'static str)
    requires
        d < 10,
    ensures
        r@ == seq![digit_char(d as nat)],
{
    proof {
        reveal_strlit("0");
        reveal_strlit("1");
        reveal_strlit("2");
        reveal_strlit("3");
        reveal_strlit("4");
        reveal_strlit("5");
        reveal_strlit("6");
        reveal_strlit("7");
        reveal_strlit("8");
        reveal_strlit("9");
    }
    let r = if d == 0 { "0" } else if d == 1 { "1" } else if d == 2 { "2" } else if d == 3 { "3" }
    else if d == 4 { "4" } else if d == 5 { "5" } else if d == 6 { "6" } else if d == 7 { "7" }
    else if d == 8 { "8" } else { "9" };
    assert(r@ =~= seq![digit_char(d as nat)]);
    r
}

/// Writes `n` in decimal, as [`decimal_text`] describes.
pub fn decimal(n: usize) -> (r: String)
    ensures
        r@ == decimal_text(n as nat),
    decreases n,
{
    if n < 10 {
        digit_str(n).to_owned()
    } else {
        let mut s = decimal(n / 10);
        s.append(digit_str(n % 10));
        s
    }
}

/// Message of a read whose array and tuple differ in length.
pub open spec fn length_message(actual: nat, expected: nat) -> Seq<char> {
    "invalid length "@ + decimal_text(actual) + ", expected a tuple of length "@ + decimal_text(
        expected,
    )
}

fn length_error(actual: usize, expected: usize) -> (e: Error)
    ensures
        e.message() == length_message(actual as nat, expected as nat),
{
    let mut m = "invalid length ".to_owned();
    m.append(decimal(actual).as_str());
    m.append(", expected a tuple of length ");
    m.append(decimal(expected).as_str());
    proof {
        reveal_strlit("invalid length ");
        reveal_strlit(", expected a tuple of length ");
    }
    Error(m)
}

/// What reading the value `s` as `shape` gives; `None` where the read fails. A value of the
/// wrong type fails: a unit shape takes `null` or `undefined`, and an optional one reads those
/// two as absent.
pub open spec fn decode(s: SlotV, shape: Shape) -> Option<DataV>
    decreases shape, s,
{
    match shape {
        Shape::Any => match s {
            SlotV::Undefined => Some(DataV::Unit),
            SlotV::Null => Some(DataV::Unit),
            SlotV::Boolean(b) => Some(DataV::Bool(b)),
            SlotV::Number(n) => Some(DataV::Number(n)),
            SlotV::Str(t) => Some(DataV::Str(t)),
            SlotV::Array(items) => match decode_all(items, Shape::Any) {
                Some(ds) => Some(DataV::List(ds)),
                None => None,
            },
            SlotV::Object(_, props) => match decode_values(props, Shape::Any) {
                Some(es) => Some(DataV::Dict(es)),
                None => None,
            },
            SlotV::Buffer(b) => Some(DataV::Bytes(b)),
            _ => None,
        },
        Shape::Unit => match s {
            SlotV::Undefined => Some(DataV::Unit),
            SlotV::Null => Some(DataV::Unit),
            _ => None,
        },
        Shape::Bool => match s {
            SlotV::Boolean(b) => Some(DataV::Bool(b)),
            _ => None,
        },
        Shape::Number => match s {
            SlotV::Number(n) => Some(DataV::Number(n)),
            _ => None,
        },
        Shape::Str => match s {
            SlotV::Str(t) => Some(DataV::Str(t)),
            _ => None,
        },
        Shape::Bytes => match s {
            SlotV::Buffer(b) => Some(DataV::Bytes(b)),
            _ => None,
        },
        Shape::Option(inner) => if s is Undefined || s is Null {
            Some(DataV::Unit)
        } else {
            decode(s, *inner)
        },
        Shape::List(elem) => match s {
            SlotV::Array(items) => match decode_all(items, *elem) {
                Some(ds) => Some(DataV::List(ds)),
                None => None,
            },
            _ => None,
        },
        Shape::Tuple(shapes) => match s {
            SlotV::Array(items) => if items.len() == shapes.len() {
                match decode_tuple(items, shapes@) {
                    Some(ds) => Some(DataV::List(ds)),
                    None => None,
                }
            } else {
                None
            },
            _ => None,
        },
        Shape::Dict(vshape) => match s {
            SlotV::Object(_, props) => match decode_values(props, *vshape) {
                Some(es) => Some(DataV::Dict(es)),
                None => None,
            },
            _ => None,
        },
        Shape::Struct(fields) => match s {
            SlotV::Object(_, _) => match decode_fields(fields@, s) {
                Some(es) => Some(DataV::Dict(es)),
                None => None,
            },
            _ => None,
        },
        Shape::Enum(variants) => decode_enum(variants@, s),
    }
}

/// Reads every element with the same shape.
pub open spec fn decode_all(items: Seq<SlotV>, elem: Shape) -> Option<Seq<DataV>>
    decreases elem, items,
{
    if items.len() == 0 {
        Some(Seq::empty())
    } else {
        match decode_all(items.subrange(0, items.len() - 1), elem) {
            Some(ds) => match decode(items[items.len() - 1], elem) {
                Some(d) => Some(ds.push(d)),
                None => None,
            },
            None => None,
        }
    }
}

/// Reads each element with its own shape; the lengths agree.
pub open spec fn decode_tuple(items: Seq<SlotV>, shapes: Seq<Shape>) -> Option<Seq<DataV>>
    decreases shapes, items,
{
    if items.len() == 0 || shapes.len() == 0 {
        Some(Seq::empty())
    } else {
        match decode_tuple(items.subrange(0, items.len() - 1), shapes.subrange(0, shapes.len() - 1)) {
            Some(ds) => match decode(items[items.len() - 1], shapes[shapes.len() - 1]) {
                Some(d) => Some(ds.push(d)),
                None => None,
            },
            None => None,
        }
    }
}

/// Reads every property value with the same shape, keeping the keys.
pub open spec fn decode_values(props: Seq<(Seq<char>, SlotV)>, vshape: Shape) -> Option<
    Seq<(Seq<char>, DataV)>,
>
    decreases vshape, props,
{
    if props.len() == 0 {
        Some(Seq::empty())
    } else {
        match decode_values(props.subrange(0, props.len() - 1), vshape) {
            Some(es) => match decode(props[props.len() - 1].1, vshape) {
                Some(d) => Some(es.push((props[props.len() - 1].0, d))),
                None => None,
            },
            None => None,
        }
    }
}

/// Probes the object `s` for each declared field by name, in declared order, and reads the
/// fields that are present; absent fields are skipped.
pub open spec fn decode_fields(fields: Seq<(String, Shape)>, s: SlotV) -> Option<
    Seq<(Seq<char>, DataV)>,
>
    decreases fields, s,
{
    if fields.len() == 0 {
        Some(Seq::empty())
    } else {
        match decode_fields(fields.subrange(0, fields.len() - 1), s) {
            Some(es) => {
                let f = fields[fields.len() - 1];
                match property(s, f.0@) {
                    Some(v) => match decode(v, f.1) {
                        Some(d) => Some(es.push((f.0@, d))),
                        None => None,
                    },
                    None => Some(es),
                }
            },
            None => None,
        }
    }
}

/// The position of the last declared variant named `name`.
pub open spec fn find_variant(variants: Seq<(String, Payload)>, name: Seq<char>) -> Option<int>
    decreases variants.len(),
{
    if variants.len() == 0 {
        None
    } else if variants.last().0@ == name {
        Some(variants.len() - 1)
    } else {
        find_variant(variants.drop_last(), name)
    }
}

/// Reads a sum type: a bare string names a variant without payload; an object must have
/// exactly one property, whose key names the variant and whose value holds the payload.
pub open spec fn decode_enum(variants: Seq<(String, Payload)>, s: SlotV) -> Option<DataV>
    decreases variants, s,
{
    match s {
        SlotV::Str(name) => match find_variant(variants, name) {
            Some(i) => match variants[i].1 {
                Payload::Unit => Some(DataV::UnitVariant(name)),
                _ => None,
            },
            None => None,
        },
        SlotV::Object(_, props) => if props.len() != 1 {
            None
        } else {
            match find_variant(variants, props[0].0) {
                Some(i) => if 0 <= i < variants.len() {
                    decode_payload(variants[i].1, props[0].0, props[0].1)
                } else {
                    None
                },
                None => None,
            }
        },
        _ => None,
    }
}

/// Reads the payload `v` of the variant `name`.
pub open spec fn decode_payload(payload: Payload, name: Seq<char>, v: SlotV) -> Option<DataV>
    decreases payload, v,
{
    match payload {
        Payload::Unit => Some(DataV::UnitVariant(name)),
        Payload::Newtype(sh) => match decode(v, sh) {
            Some(d) => Some(DataV::NewtypeVariant(name, Box::new(d))),
            None => None,
        },
        Payload::Tuple(shapes) => match v {
            SlotV::Array(items) => if items.len() == shapes.len() {
                match decode_tuple(items, shapes@) {
                    Some(ds) => Some(DataV::TupleVariant(name, ds)),
                    None => None,
                }
            } else {
                None
            },
            _ => None,
        },
        Payload::Struct(fields) => match v {
            SlotV::Object(_, _) => match decode_fields(fields@, v) {
                Some(es) => Some(DataV::StructVariant(name, es)),
                None => None,
            },
            _ => None,
        },
    }
}


proof fn lemma_decode_all_prefix(items: Seq<SlotV>, elem: Shape, k: int)
    requires
        0 <= k <= items.len(),
        decode_all(items.subrange(0, k), elem) is None,
    ensures
        decode_all(items, elem) is None,
    decreases items.len() - k,
{
    if k == items.len() {
        assert(items.subrange(0, k) =~= items);
    } else {
        assert(items.subrange(0, k + 1).subrange(0, k) =~= items.subrange(0, k));
        lemma_decode_all_prefix(items, elem, k + 1);
    }
}

proof fn lemma_decode_tuple_prefix(items: Seq<SlotV>, shapes: Seq<Shape>, k: int)
    requires
        items.len() == shapes.len(),
        0 <= k <= items.len(),
        decode_tuple(items.subrange(0, k), shapes.subrange(0, k)) is None,
    ensures
        decode_tuple(items, shapes) is None,
    decreases items.len() - k,
{
    if k == items.len() {
        assert(items.subrange(0, k) =~= items);
        assert(shapes.subrange(0, k) =~= shapes);
    } else {
        assert(items.subrange(0, k + 1).subrange(0, k) =~= items.subrange(0, k));
        assert(shapes.subrange(0, k + 1).subrange(0, k) =~= shapes.subrange(0, k));
        lemma_decode_tuple_prefix(items, shapes, k + 1);
    }
}

proof fn lemma_decode_values_prefix(props: Seq<(Seq<char>, SlotV)>, vshape: Shape, k: int)
    requires
        0 <= k <= props.len(),
        decode_values(props.subrange(0, k), vshape) is None,
    ensures
        decode_values(props, vshape) is None,
    decreases props.len() - k,
{
    if k == props.len() {
        assert(props.subrange(0, k) =~= props);
    } else {
        assert(props.subrange(0, k + 1).subrange(0, k) =~= props.subrange(0, k));
        lemma_decode_values_prefix(props, vshape, k + 1);
    }
}

proof fn lemma_decode_fields_prefix(fields: Seq<(String, Shape)>, s: SlotV, k: int)
    requires
        0 <= k <= fields.len(),
        decode_fields(fields.subrange(0, k), s) is None,
    ensures
        decode_fields(fields, s) is None,
    decreases fields.len() - k,
{
    if k == fields.len() {
        assert(fields.subrange(0, k) =~= fields);
    } else {
        assert(fields.subrange(0, k + 1).subrange(0, k) =~= fields.subrange(0, k));
        lemma_decode_fields_prefix(fields, s, k + 1);
    }
}

fn read_all(items: &Vec<Slot>, elem: &Shape) -> (r: Result<Vec<Data>, Error>)
    ensures
        match r {
            Ok(ds) => decode_all(items_view(items@), *elem) == Some(data_items_view(ds@)),
            Err(_) => decode_all(items_view(items@), *elem) is None,
        },
    decreases elem, items, 0nat,
{
    let ghost iv = items_view(items@);
    proof {
        lemma_items_view(items@);
        assert(iv.subrange(0, 0) =~= Seq::<SlotV>::empty());
        lemma_data_items_view(Seq::<Data>::empty());
    }
    let mut out: Vec<Data> = Vec::new();
    let mut i: usize = 0;
    while i < items.len()
        invariant
            iv == items_view(items@),
            iv.len() == items.len(),
            forall|j: int| 0 <= j < items.len() ==> #[trigger] iv[j] == items[j]@,
            i <= items.len(),
            decode_all(iv.subrange(0, i as int), *elem) == Some(data_items_view(out@)),
        decreases items.len() - i,
    {
        proof {
            assert(decreases_to!(*items => items@[i as int]));
            assert(iv.subrange(0, i + 1).subrange(0, i as int) =~= iv.subrange(0, i as int));
        }
        match read(&items[i], elem) {
            Ok(d) => {
                let ghost before = out@;
                out.push(d);
                proof {
                    lemma_data_items_view(before);
                    lemma_data_items_view(out@);
                    assert(data_items_view(out@) =~= data_items_view(before).push(d@));
                }
            },
            Err(e) => {
                proof {
                    lemma_decode_all_prefix(iv, *elem, i + 1);
                }
                return Err(e);
            },
        }
        i += 1;
    }
    proof {
        assert(iv.subrange(0, i as int) =~= iv);
    }
    Ok(out)
}

fn read_tuple(items: &Vec<Slot>, shapes: &Vec<Shape>) -> (r: Result<Vec<Data>, Error>)
    requires
        items.len() == shapes.len(),
    ensures
        match r {
            Ok(ds) => decode_tuple(items_view(items@), shapes@) == Some(data_items_view(ds@)),
            Err(_) => decode_tuple(items_view(items@), shapes@) is None,
        },
    decreases shapes, items, 0nat,
{
    let ghost iv = items_view(items@);
    proof {
        lemma_items_view(items@);
        assert(iv.subrange(0, 0) =~= Seq::<SlotV>::empty());
        lemma_data_items_view(Seq::<Data>::empty());
    }
    let mut out: Vec<Data> = Vec::new();
    let mut i: usize = 0;
    while i < items.len()
        invariant
            iv == items_view(items@),
            iv.len() == items.len(),
            items.len() == shapes.len(),
            forall|j: int| 0 <= j < items.len() ==> #[trigger] iv[j] == items[j]@,
            i <= items.len(),
            decode_tuple(iv.subrange(0, i as int), shapes@.subrange(0, i as int)) == Some(
                data_items_view(out@),
            ),
        decreases items.len() - i,
    {
        proof {
            assert(decreases_to!(*shapes => shapes@[i as int]));
            assert(iv.subrange(0, i + 1).subrange(0, i as int) =~= iv.subrange(0, i as int));
            assert(shapes@.subrange(0, i + 1).subrange(0, i as int) =~= shapes@.subrange(
                0,
                i as int,
            ));
        }
        match read(&items[i], &shapes[i]) {
            Ok(d) => {
                let ghost before = out@;
                out.push(d);
                proof {
                    lemma_data_items_view(before);
                    lemma_data_items_view(out@);
                    assert(data_items_view(out@) =~= data_items_view(before).push(d@));
                }
            },
            Err(e) => {
                proof {
                    lemma_decode_tuple_prefix(iv, shapes@, i + 1);
                }
                return Err(e);
            },
        }
        i += 1;
    }
    proof {
        assert(iv.subrange(0, i as int) =~= iv);
        assert(shapes@.subrange(0, i as int) =~= shapes@);
    }
    Ok(out)
}

fn read_values(props: &Vec<(String, Slot)>, vshape: &Shape) -> (r: Result<
    Vec<(String, Data)>,
    Error,
>)
    ensures
        match r {
            Ok(es) => decode_values(props_view(props@), *vshape) == Some(data_entries_view(es@)),
            Err(_) => decode_values(props_view(props@), *vshape) is None,
        },
    decreases vshape, props, 0nat,
{
    let ghost pv = props_view(props@);
    proof {
        lemma_props_view(props@);
        assert(pv.subrange(0, 0) =~= Seq::<(Seq<char>, SlotV)>::empty());
        lemma_data_entries_view(Seq::<(String, Data)>::empty());
    }
    let mut out: Vec<(String, Data)> = Vec::new();
    let mut i: usize = 0;
    while i < props.len()
        invariant
            pv == props_view(props@),
            pv.len() == props.len(),
            forall|j: int|
                0 <= j < props.len() ==> #[trigger] pv[j] == (props[j].0@, props[j].1@),
            i <= props.len(),
            decode_values(pv.subrange(0, i as int), *vshape) == Some(data_entries_view(out@)),
        decreases props.len() - i,
    {
        proof {
            assert(decreases_to!(*props => props@[i as int].1));
            assert(pv.subrange(0, i + 1).subrange(0, i as int) =~= pv.subrange(0, i as int));
        }
        match read(&props[i].1, vshape) {
            Ok(d) => {
                let ghost before = out@;
                out.push((props[i].0.clone(), d));
                proof {
                    lemma_data_entries_view(before);
                    lemma_data_entries_view(out@);
                    assert(data_entries_view(out@) =~= data_entries_view(before).push(
                        (props[i as int].0@, d@),
                    ));
                }
            },
            Err(e) => {
                proof {
                    lemma_decode_values_prefix(pv, *vshape, i + 1);
                }
                return Err(e);
            },
        }
        i += 1;
    }
    proof {
        assert(pv.subrange(0, i as int) =~= pv);
    }
    Ok(out)
}

fn read_fields(fields: &Vec<(String, Shape)>, s: &Slot) -> (r: Result<Vec<(String, Data)>, Error>)
    ensures
        match r {
            Ok(es) => decode_fields(fields@, s@) == Some(data_entries_view(es@)),
            Err(_) => decode_fields(fields@, s@) is None,
        },
    decreases fields, s, 0nat,
{
    proof {
        assert(fields@.subrange(0, 0) =~= Seq::<(String, Shape)>::empty());
        lemma_data_entries_view(Seq::<(String, Data)>::empty());
    }
    let mut out: Vec<(String, Data)> = Vec::new();
    let mut i: usize = 0;
    while i < fields.len()
        invariant
            i <= fields.len(),
            decode_fields(fields@.subrange(0, i as int), s@) == Some(data_entries_view(out@)),
        decreases fields.len() - i,
    {
        proof {
            assert(decreases_to!(*fields => fields@[i as int].1));
            assert(fields@.subrange(0, i + 1).subrange(0, i as int) =~= fields@.subrange(
                0,
                i as int,
            ));
        }
        match get_property(s, &fields[i].0) {
            Some(v) => match read(v, &fields[i].1) {
                Ok(d) => {
                    let ghost before = out@;
                    out.push((fields[i].0.clone(), d));
                    proof {
                        lemma_data_entries_view(before);
                        lemma_data_entries_view(out@);
                        assert(data_entries_view(out@) =~= data_entries_view(before).push(
                            (fields[i as int].0@, d@),
                        ));
                    }
                },
                Err(e) => {
                    proof {
                        lemma_decode_fields_prefix(fields@, s@, i + 1);
                    }
                    return Err(e);
                },
            },
            None => {},
        }
        i += 1;
    }
    proof {
        assert(fields@.subrange(0, i as int) =~= fields@);
    }
    Ok(out)
}

fn find_variant_index(variants: &Vec<(String, Payload)>, name: &String) -> (r: Option<usize>)
    ensures
        match r {
            Some(i) => find_variant(variants@, name@) == Some(i as int) && i < variants.len(),
            None => find_variant(variants@, name@) is None,
        },
{
    let mut i: usize = variants.len();
    proof {
        assert(variants@.subrange(0, i as int) =~= variants@);
    }
    while i > 0
        invariant
            i <= variants.len(),
            find_variant(variants@, name@) == find_variant(variants@.subrange(0, i as int), name@),
        decreases i,
    {
        proof {
            assert(variants@.subrange(0, i as int).drop_last() =~= variants@.subrange(0, i - 1));
        }
        if variants[i - 1].0 == *name {
            return Some(i - 1);
        }
        i -= 1;
    }
    None
}

fn read_payload(payload: &Payload, name: &String, v: &Slot) -> (r: Result<Data, Error>)
    ensures
        match r {
            Ok(d) => decode_payload(*payload, name@, v@) == Some(d@),
            Err(_) => decode_payload(*payload, name@, v@) is None,
        },
        payload matches Payload::Tuple(shapes) ==> (v@ matches SlotV::Array(items) ==> (items.len()
            != shapes.len() ==> (r matches Err(e) && e.message() == length_message(
            items.len(),
            shapes.len() as nat,
        )))),
    decreases payload, v, 0nat,
{
    match payload {
        Payload::Unit => Ok(Data::UnitVariant(name.clone())),
        Payload::Newtype(sh) => match read(v, sh) {
            Ok(d) => Ok(Data::NewtypeVariant(name.clone(), Box::new(d))),
            Err(e) => Err(e),
        },
        Payload::Tuple(shapes) => match v {
            Slot::Array(items) => {
                proof {
                    lemma_items_view(items@);
                }
                if items.len() == shapes.len() {
                    match read_tuple(items, shapes) {
                        Ok(ds) => Ok(Data::TupleVariant(name.clone(), ds)),
                        Err(e) => Err(e),
                    }
                } else {
                    Err(length_error(items.len(), shapes.len()))
                }
            },
            _ => Err(fail("invalid type: expected an array for a tuple variant")),
        },
        Payload::Struct(fields) => match v {
            Slot::Object(_, _) => match read_fields(fields, v) {
                Ok(es) => Ok(Data::StructVariant(name.clone(), es)),
                Err(e) => Err(e),
            },
            _ => Err(fail("invalid type: expected an object for a struct variant")),
        },
    }
}

fn read_enum(variants: &Vec<(String, Payload)>, s: &Slot) -> (r: Result<Data, Error>)
    ensures
        match r {
            Ok(d) => decode_enum(variants@, s@) == Some(d@),
            Err(_) => decode_enum(variants@, s@) is None,
        },
    decreases variants, s, 0nat,
{
    match s {
        Slot::Str(name) => match find_variant_index(variants, name) {
            Some(i) => match &variants[i].1 {
                Payload::Unit => Ok(Data::UnitVariant(name.clone())),
                _ => Err(fail("invalid type: unit variant, expected a variant with payload")),
            },
            None => Err(fail("unknown variant")),
        },
        Slot::Object(_, props) => {
            proof {
                lemma_props_view(props@);
            }
            if props.len() != 1 {
                Err(fail("invalid value: expected an object with a single property"))
            } else {
                match find_variant_index(variants, &props[0].0) {
                    Some(i) => {
                        proof {
                            assert(decreases_to!(*variants => variants@[i as int].1));
                        }
                        read_payload(&variants[i].1, &props[0].0, &props[0].1)
                    },
                    None => Err(fail("unknown variant")),
                }
            }
        },
        _ => Err(fail("invalid type: expected a string or an object for a sum type")),
    }
}

/// Reads the slot `s` as `shape`, as [`decode`] describes.
pub fn read(s: &Slot, shape: &Shape) -> (r: Result<Data, Error>)
    ensures
        match r {
            Ok(d) => decode(s@, *shape) == Some(d@),
            Err(_) => decode(s@, *shape) is None,
        },
        shape matches Shape::Tuple(shapes) ==> (s@ matches SlotV::Array(items) ==> (items.len()
            != shapes.len() ==> (r matches Err(e) && e.message() == length_message(
            items.len(),
            shapes.len() as nat,
        )))),
    decreases shape, s, 1nat,
{
    match shape {
        Shape::Any => match s {
            Slot::Undefined => Ok(Data::Unit),
            Slot::Null => Ok(Data::Unit),
            Slot::Boolean(b) => Ok(Data::Bool(*b)),
            Slot::Number(n) => Ok(Data::Number(*n)),
            Slot::Str(t) => Ok(Data::Str(t.clone())),
            Slot::Array(items) => match read_all(items, &Shape::Any) {
                Ok(ds) => Ok(Data::List(ds)),
                Err(e) => Err(e),
            },
            Slot::Object(_, props) => match read_values(props, &Shape::Any) {
                Ok(es) => Ok(Data::Dict(es)),
                Err(e) => Err(e),
            },
            Slot::Buffer(b) => {
                let c = b.clone();
                assert(c@ =~= b@);
                Ok(Data::Bytes(c))
            },
            _ => Err(fail("invalid type: engine value without a host form")),
        },
        Shape::Unit => match s {
            Slot::Undefined => Ok(Data::Unit),
            Slot::Null => Ok(Data::Unit),
            _ => Err(fail("invalid type: expected null or undefined")),
        },
        Shape::Bool => match s {
            Slot::Boolean(b) => Ok(Data::Bool(*b)),
            _ => Err(fail("invalid type: expected a boolean")),
        },
        Shape::Number => match s {
            Slot::Number(n) => Ok(Data::Number(*n)),
            _ => Err(fail("invalid type: expected a number")),
        },
        Shape::Str => match s {
            Slot::Str(t) => Ok(Data::Str(t.clone())),
            _ => Err(fail("invalid type: expected a string")),
        },
        Shape::Bytes => match s {
            Slot::Buffer(b) => {
                let c = b.clone();
                assert(c@ =~= b@);
                Ok(Data::Bytes(c))
            },
            _ => Err(fail("invalid type: expected a buffer")),
        },
        Shape::Option(inner) => match s {
            Slot::Undefined => Ok(Data::Unit),
            Slot::Null => Ok(Data::Unit),
            _ => read(s, inner),
        },
        Shape::List(elem) => match s {
            Slot::Array(items) => match read_all(items, elem) {
                Ok(ds) => Ok(Data::List(ds)),
                Err(e) => Err(e),
            },
            _ => Err(fail("invalid type: expected an array")),
        },
        Shape::Tuple(shapes) => match s {
            Slot::Array(items) => {
                proof {
                    lemma_items_view(items@);
                }
                if items.len() == shapes.len() {
                    match read_tuple(items, shapes) {
                        Ok(ds) => Ok(Data::List(ds)),
                        Err(e) => Err(e),
                    }
                } else {
                    Err(length_error(items.len(), shapes.len()))
                }
            },
            _ => Err(fail("invalid type: expected an array")),
        },
        Shape::Dict(vshape) => match s {
            Slot::Object(_, props) => match read_values(props, vshape) {
                Ok(es) => Ok(Data::Dict(es)),
                Err(e) => Err(e),
            },
            _ => Err(fail("invalid type: expected an object")),
        },
        Shape::Struct(fields) => match s {
            Slot::Object(_, _) => match read_fields(fields, s) {
                Ok(es) => Ok(Data::Dict(es)),
                Err(e) => Err(e),
            },
            _ => Err(fail("invalid type: expected an object")),
        },
        Shape::Enum(variants) => read_enum(variants, s),
    }
}

/// Reads the value at a signed stack index of `ctx` as `shape`. An index outside the stack
/// fails; the stack is left as it is.
pub fn deserialize_from_stack<R, L>(ctx: &Context<R, L>, index: i32, shape: &Shape) -> (r: Result<
    Data,
    Error,
>)
    ensures
        match resolve_index(ctx.stack().len() as int, index as int) {
            None => r matches Err(e) && e.message() == "index out of bounds"@,
            Some(p) => match r {
                Ok(d) => decode(ctx.stack()[p], *shape) == Some(d@),
                Err(_) => decode(ctx.stack()[p], *shape) is None,
            },
        },
        resolve_index(ctx.stack().len() as int, index as int) matches Some(p) ==> (
        shape matches Shape::Tuple(shapes) ==> (ctx.stack()[p] matches SlotV::Array(items) ==> (
        items.len() != shapes.len() ==> (r matches Err(e) && e.message() == length_message(
            items.len(),
            shapes.len() as nat,
        ))))),
{
    match ctx.peek(index) {
        Some(s) => read(s, shape),
        None => {
            proof {
                reveal_strlit("index out of bounds");
            }
            Err(fail("index out of bounds"))
        },
    }
}

} // verus!
