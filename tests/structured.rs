use duk::{deserialize_from_stack, serialize_to_stack, Context, Data, Payload, Shape};

fn s(t: &str) -> String {
    t.to_owned()
}

fn num(x: f64) -> Data {
    Data::Number(x.to_bits())
}

fn round_trip(d: Data, shape: &Shape) -> Data {
    let mut ctx = Context::new();
    let idx = serialize_to_stack(&mut ctx, &d).unwrap();
    assert_eq!(idx, 0);
    assert_eq!(ctx.stack_height(), 1);
    let back = deserialize_from_stack(&ctx, -1, shape).unwrap();
    assert_eq!(ctx.stack_height(), 1);
    back
}

fn shape_enum() -> Shape {
    Shape::Enum(vec![
        (s("Empty"), Payload::Unit),
        (s("Wrap"), Payload::Newtype(Shape::Str)),
        (s("Pair"), Payload::Tuple(vec![Shape::Number, Shape::Bool])),
        (s("Point"), Payload::Struct(vec![(s("x"), Shape::Number), (s("y"), Shape::Number)])),
    ])
}

#[test]
fn nested_record_round_trips() {
    let shape = Shape::Struct(vec![
        (s("name"), Shape::Str),
        (s("inner"), Shape::Struct(vec![(s("flag"), Shape::Bool), (s("n"), Shape::Option(Box::new(Shape::Number)))])),
        (s("tags"), Shape::List(Box::new(Shape::Str))),
    ]);
    let d = Data::Dict(vec![
        (s("name"), Data::Str(s("n"))),
        (s("inner"), Data::Dict(vec![(s("flag"), Data::Bool(true)), (s("n"), num(3.0))])),
        (s("tags"), Data::List(vec![Data::Str(s("a")), Data::Str(s("b"))])),
    ]);
    let same = Data::Dict(vec![
        (s("name"), Data::Str(s("n"))),
        (s("inner"), Data::Dict(vec![(s("flag"), Data::Bool(true)), (s("n"), num(3.0))])),
        (s("tags"), Data::List(vec![Data::Str(s("a")), Data::Str(s("b"))])),
    ]);
    assert_eq!(round_trip(d, &shape), same);
}

#[test]
fn variants_round_trip() {
    let shape = shape_enum();
    assert_eq!(round_trip(Data::UnitVariant(s("Empty")), &shape), Data::UnitVariant(s("Empty")));
    assert_eq!(
        round_trip(Data::NewtypeVariant(s("Wrap"), Box::new(Data::Str(s("w")))), &shape),
        Data::NewtypeVariant(s("Wrap"), Box::new(Data::Str(s("w"))))
    );
    assert_eq!(
        round_trip(Data::TupleVariant(s("Pair"), vec![num(1.0), Data::Bool(false)]), &shape),
        Data::TupleVariant(s("Pair"), vec![num(1.0), Data::Bool(false)])
    );
    assert_eq!(
        round_trip(
            Data::StructVariant(s("Point"), vec![(s("x"), num(1.5)), (s("y"), num(-2.0))]),
            &shape
        ),
        Data::StructVariant(s("Point"), vec![(s("x"), num(1.5)), (s("y"), num(-2.0))])
    );
}

#[test]
fn map_with_non_ascii_keys_round_trips() {
    let shape = Shape::Dict(Box::new(Shape::Number));
    let d = Data::Dict(vec![(s("größe"), num(1.0)), (s("日本"), num(2.0)), (s("ключ"), num(3.0))]);
    let same = Data::Dict(vec![(s("größe"), num(1.0)), (s("日本"), num(2.0)), (s("ключ"), num(3.0))]);
    assert_eq!(round_trip(d, &shape), same);
}

#[test]
fn any_shape_reads_by_type() {
    let d = Data::List(vec![Data::Unit, Data::Bytes(vec![7]), Data::Dict(vec![(s("k"), Data::Bool(true))])]);
    let same = Data::List(vec![Data::Unit, Data::Bytes(vec![7]), Data::Dict(vec![(s("k"), Data::Bool(true))])]);
    assert_eq!(round_trip(d, &Shape::Any), same);
}

#[test]
fn unit_variant_is_written_as_its_name() {
    let mut ctx = Context::new();
    serialize_to_stack(&mut ctx, &Data::UnitVariant(s("Empty"))).unwrap();
    assert_eq!(deserialize_from_stack(&ctx, 0, &Shape::Str).unwrap(), Data::Str(s("Empty")));
}

#[test]
fn record_fields_are_probed_by_name() {
    let mut ctx = Context::new();
    let written = Data::Dict(vec![(s("b"), num(2.0)), (s("extra"), Data::Unit), (s("a"), num(1.0))]);
    serialize_to_stack(&mut ctx, &written).unwrap();
    let shape = Shape::Struct(vec![
        (s("a"), Shape::Number),
        (s("b"), Shape::Number),
        (s("c"), Shape::Option(Box::new(Shape::Number))),
    ]);
    assert_eq!(
        deserialize_from_stack(&ctx, -1, &shape).unwrap(),
        Data::Dict(vec![(s("a"), num(1.0)), (s("b"), num(2.0))])
    );
}

#[test]
fn object_with_two_properties_is_no_variant() {
    let mut ctx = Context::new();
    serialize_to_stack(&mut ctx, &Data::Dict(vec![(s("Wrap"), Data::Str(s("a"))), (s("Empty"), Data::Unit)])).unwrap();
    assert!(deserialize_from_stack(&ctx, -1, &shape_enum()).is_err());
}

#[test]
fn bare_name_of_a_payload_variant_fails() {
    let mut ctx = Context::new();
    serialize_to_stack(&mut ctx, &Data::Str(s("Wrap"))).unwrap();
    assert!(deserialize_from_stack(&ctx, -1, &shape_enum()).is_err());
    serialize_to_stack(&mut ctx, &Data::Str(s("Nope"))).unwrap();
    assert!(deserialize_from_stack(&ctx, -1, &shape_enum()).is_err());
}

#[test]
fn tuple_length_must_agree() {
    let mut ctx = Context::new();
    serialize_to_stack(&mut ctx, &Data::List(vec![num(1.0), num(2.0), num(3.0)])).unwrap();
    let shape = Shape::Tuple(vec![Shape::Number, Shape::Number]);
    assert!(deserialize_from_stack(&ctx, -1, &shape).is_err());
    let shape3 = Shape::Tuple(vec![Shape::Number, Shape::Number, Shape::Number]);
    assert_eq!(
        deserialize_from_stack(&ctx, -1, &shape3).unwrap(),
        Data::List(vec![num(1.0), num(2.0), num(3.0)])
    );
}

#[test]
fn type_mismatch_fails() {
    let mut ctx = Context::new();
    serialize_to_stack(&mut ctx, &Data::Str(s("x"))).unwrap();
    assert!(deserialize_from_stack(&ctx, 0, &Shape::Number).is_err());
    assert!(deserialize_from_stack(&ctx, 0, &Shape::List(Box::new(Shape::Any))).is_err());
}

#[test]
fn index_outside_the_stack_fails() {
    let mut ctx = Context::new();
    assert!(deserialize_from_stack(&ctx, 0, &Shape::Any).is_err());
    serialize_to_stack(&mut ctx, &Data::Unit).unwrap();
    assert!(deserialize_from_stack(&ctx, 1, &Shape::Any).is_err());
    assert!(deserialize_from_stack(&ctx, -2, &Shape::Any).is_err());
    assert_eq!(deserialize_from_stack(&ctx, -1, &Shape::Any).unwrap(), Data::Unit);
}

#[test]
fn absent_optional_reads_as_unit() {
    let mut ctx = Context::new();
    serialize_to_stack(&mut ctx, &Data::Unit).unwrap();
    let shape = Shape::Option(Box::new(Shape::Str));
    assert_eq!(deserialize_from_stack(&ctx, 0, &shape).unwrap(), Data::Unit);
}

#[test]
fn error_types_carry_their_message() {
    assert_eq!(duk::ser::Error::custom(s("bad key")).to_text(), "bad key");
    assert_eq!(duk::de::Error::custom(s("bad value")).to_text(), "bad value");
    let mut ctx = Context::new();
    serialize_to_stack(&mut ctx, &Data::Bool(true)).unwrap();
    let e = deserialize_from_stack(&ctx, 0, &Shape::Str).unwrap_err();
    assert!(!e.to_text().is_empty());
}

#[test]
fn error_messages_name_the_problem() {
    let mut ctx = Context::new();
    let e = deserialize_from_stack(&ctx, 0, &Shape::Any).unwrap_err();
    assert_eq!(e.to_text(), "index out of bounds");
    serialize_to_stack(&mut ctx, &Data::List(vec![num(1.0), num(2.0), num(3.0)])).unwrap();
    let e = deserialize_from_stack(&ctx, 0, &Shape::Tuple(vec![Shape::Number, Shape::Number])).unwrap_err();
    assert_eq!(e.to_text(), "invalid length 3, expected a tuple of length 2");
    assert_eq!(duk::de::decimal(0), "0");
    assert_eq!(duk::de::decimal(1234567890), "1234567890");
}

#[test]
fn unit_shape_takes_only_null_and_undefined() {
    let mut ctx = Context::new();
    serialize_to_stack(&mut ctx, &Data::Unit).unwrap();
    assert_eq!(deserialize_from_stack(&ctx, 0, &Shape::Unit).unwrap(), Data::Unit);
    serialize_to_stack(&mut ctx, &Data::Bool(false)).unwrap();
    assert!(deserialize_from_stack(&ctx, 1, &Shape::Unit).is_err());
}
