use duk::{Context, ObjectClass, Outcome, Slot, Value};

fn num(x: f64) -> u64 {
    x.to_bits()
}

fn s(t: &str) -> String {
    t.to_owned()
}

fn value_of_returned(slot: Slot) -> Value {
    let mut ctx = Context::new();
    let r = ctx.complete_eval(Outcome::Returned(slot)).unwrap();
    let v = r.to_value(&mut ctx);
    assert_eq!(ctx.stack_height(), 0);
    v
}

#[test]
fn scalar_literals_convert() {
    assert_eq!(value_of_returned(Slot::Undefined), Value::Undefined);
    assert_eq!(value_of_returned(Slot::Null), Value::Null);
    assert_eq!(value_of_returned(Slot::Boolean(true)), Value::Boolean(true));
    assert_eq!(value_of_returned(Slot::Boolean(false)), Value::Boolean(false));
    assert_eq!(value_of_returned(Slot::Number(num(4.0))), Value::Number(num(4.0)));
    assert_eq!(value_of_returned(Slot::Number(num(0.5))), Value::Number(num(0.5)));
    assert_eq!(value_of_returned(Slot::Str(s("ab"))), Value::String(s("ab")));
}

#[test]
fn array_literal_converts() {
    let slot = Slot::Array(vec![Slot::Str(s("a")), Slot::Number(num(3.0)), Slot::Boolean(false)]);
    assert_eq!(
        value_of_returned(slot),
        Value::Array(vec![
            Value::String(s("a")),
            Value::Number(num(3.0)),
            Value::Boolean(false)
        ])
    );
}

#[test]
fn object_literal_converts_in_enumeration_order() {
    let slot = Slot::Object(
        ObjectClass::Plain,
        vec![
            (s("a"), Slot::Str(s("a"))),
            (s("b"), Slot::Number(num(3.0))),
            (s("c"), Slot::Boolean(false)),
        ],
    );
    assert_eq!(
        value_of_returned(slot),
        Value::Object(vec![
            (s("a"), Value::String(s("a"))),
            (s("b"), Value::Number(num(3.0))),
            (s("c"), Value::Boolean(false)),
        ])
    );
}

#[test]
fn buffer_converts_to_bytes() {
    let slot = Slot::Buffer("abc".as_bytes().to_vec());
    assert_eq!(value_of_returned(slot), Value::Bytes("abc".as_bytes().to_vec()));
}

#[test]
fn unrepresentable_types_become_foreign() {
    assert_eq!(value_of_returned(Slot::Pointer), Value::Foreign("pointer"));
    assert_eq!(value_of_returned(Slot::LightFunc), Value::Foreign("lightfunc"));
}

#[test]
fn value_survives_a_trip_through_the_stash() {
    let mut ctx = Context::new();
    let v = Value::Object(vec![
        (s("n"), Value::Number(num(-2.25))),
        (s("ключ"), Value::Array(vec![Value::Null, Value::Bytes(vec![1, 2])])),
    ]);
    let r = v.to_reference(&mut ctx);
    assert_eq!(r.to_value(&mut ctx), v);
    assert_eq!(ctx.stack_height(), 0);
}

#[test]
fn foreign_value_pushes_undefined() {
    let mut ctx = Context::new();
    let r = Value::Foreign("pointer").to_reference(&mut ctx);
    assert_eq!(r.to_value(&mut ctx), Value::Undefined);
}

#[test]
fn value_at_reads_by_signed_index() {
    let mut ctx = Context::new();
    ctx.push_slot(Slot::Str(s("bottom")));
    ctx.push_slot(Slot::Array(vec![Slot::Null]));
    assert_eq!(ctx.to_value_at(-1), Some(Value::Array(vec![Value::Null])));
    assert_eq!(ctx.to_value_at(0), Some(Value::String(s("bottom"))));
    assert_eq!(ctx.to_value_at(2), None);
    assert_eq!(ctx.to_value_at(-3), None);
    assert_eq!(ctx.stack_height(), 2);
}

#[test]
fn object_keys_come_back_ordered_and_once() {
    let slot = Slot::Object(
        ObjectClass::Plain,
        vec![
            (s("b"), Slot::Number(num(2.0))),
            (s("ab"), Slot::Null),
            (s("a"), Slot::Boolean(true)),
            (s("b"), Slot::Str(s("again"))),
            (s("B"), Slot::Undefined),
        ],
    );
    assert_eq!(
        value_of_returned(slot),
        Value::Object(vec![
            (s("B"), Value::Undefined),
            (s("a"), Value::Boolean(true)),
            (s("ab"), Value::Null),
            (s("b"), Value::String(s("again"))),
        ])
    );
}
