use duk::{Context, Error, JsErrorKind, ObjectClass, Outcome, Reference, Slot, Value};

fn s(t: &str) -> String {
    t.to_owned()
}

fn num(x: f64) -> Value {
    Value::Number(x.to_bits())
}

fn read(slot: Slot, name: &str, inherited: Slot) -> Value {
    let mut ctx = Context::new();
    let r = ctx.complete_eval(Outcome::Returned(slot)).unwrap();
    let p = r.get(&mut ctx, &s(name), inherited).unwrap();
    assert_eq!(ctx.stack_height(), 0);
    p.to_value(&mut ctx)
}

fn function() -> Slot {
    Slot::Object(ObjectClass::Function, vec![])
}

#[test]
fn array_elements_and_length_are_properties() {
    let arr = || Slot::Array(vec![Slot::Null, Slot::Str(s("b"))]);
    assert_eq!(read(arr(), "0", Slot::Undefined), Value::Null);
    assert_eq!(read(arr(), "1", Slot::Undefined), Value::String(s("b")));
    assert_eq!(read(arr(), "length", Slot::Undefined), num(2.0));
    assert_eq!(read(arr(), "2", Slot::Undefined), Value::Undefined);
    assert_eq!(read(arr(), "01", Slot::Undefined), Value::Undefined);
    assert_eq!(read(Slot::Array(vec![]), "length", Slot::Undefined), num(0.0));
}

#[test]
fn string_length_counts_code_units() {
    assert_eq!(read(Slot::Str(s("abc")), "length", Slot::Undefined), num(3.0));
    assert_eq!(read(Slot::Str(s("a😀b")), "length", Slot::Undefined), num(4.0));
    assert_eq!(read(Slot::Str(s("a😀b")), "0", Slot::Undefined), Value::String(s("a")));
    assert_eq!(read(Slot::Str(s("a😀b")), "3", Slot::Undefined), Value::String(s("b")));
    assert_eq!(read(Slot::Str(s("héllo")), "1", Slot::Undefined), Value::String(s("é")));
}

#[test]
fn buffer_bytes_and_length_are_properties() {
    let buf = || Slot::Buffer(vec![7, 255]);
    assert_eq!(read(buf(), "1", Slot::Undefined), num(255.0));
    assert_eq!(read(buf(), "length", Slot::Undefined), num(2.0));
}

#[test]
fn inherited_properties_come_from_the_engine() {
    let to_string = Slot::LightFunc;
    assert_eq!(read(Slot::Number(1.0f64.to_bits()), "toString", to_string), Value::Foreign("lightfunc"));
    let obj = Slot::Object(ObjectClass::Plain, vec![(s("a"), Slot::Boolean(true))]);
    assert_eq!(read(obj, "a", Slot::Null), Value::Boolean(true));
    assert_eq!(read(Slot::Array(vec![]), "map", Slot::Boolean(false)), Value::Boolean(false));
}

#[test]
fn large_lengths_encode_exactly() {
    let items: Vec<Slot> = (0..1000).map(|_| Slot::Null).collect();
    assert_eq!(read(Slot::Array(items), "length", Slot::Undefined), num(1000.0));
    assert_eq!(duk::number::double_bits(9007199254740991), 9007199254740991.0f64.to_bits());
    assert_eq!(duk::number::double_bits(1), 1.0f64.to_bits());
    assert_eq!(duk::number::double_bits(12345678), 12345678.0f64.to_bits());
}

fn global_function(ctx: &mut Context<duk::NoModule, duk::NoModule>, name: &str) {
    ctx.define_global(s(name), function());
}

/// Stands in for a script function that returns its arguments: it reads them off the frame.
fn echo(ctx: &Context<duk::NoModule, duk::NoModule>, frame: &duk::CallFrame, with_this: bool) -> Outcome {
    let first = frame.callee_index() + 1 + if with_this { 1 } else { 0 };
    let items: Vec<Slot> = (first..first + frame.arg_count())
        .map(|i| ctx.to_value_at(i as i32).unwrap().to_slot())
        .collect();
    Outcome::Returned(Slot::Array(items))
}

fn sample_values() -> Vec<Value> {
    vec![
        Value::Undefined,
        Value::Null,
        Value::Boolean(true),
        num(1.0),
        Value::String(s("foo")),
        Value::Array(vec![Value::String(s("a")), num(3.0), Value::Boolean(false)]),
        Value::Object(vec![(s("a"), Value::String(s("a"))), (s("b"), num(3.0)), (s("c"), Value::Boolean(false))]),
        Value::Bytes(vec![0, 1, 2, 3]),
    ]
}

#[test]
fn global_function_echoes_its_arguments() {
    let mut ctx = Context::new();
    global_function(&mut ctx, "foo");
    let values = sample_values();
    let frame = ctx.call_global(&s("foo"), &values, Slot::Undefined);
    assert_eq!(ctx.to_value_at(frame.callee_index() as i32 + 1), Some(Value::Object(vec![(s("foo"), Value::Object(vec![]))])));
    let outcome = echo(&ctx, &frame, true);
    let r = ctx.finish_call(frame, outcome).unwrap();
    assert_eq!(r.to_value(&mut ctx), Value::Array(sample_values()));
    assert_eq!(ctx.stack_height(), 0);
}

#[test]
fn global_function_that_throws() {
    let mut ctx = Context::new();
    global_function(&mut ctx, "foo");
    let no_args: [Value; 0] = [];
    let frame = ctx.call_global(&s("foo"), &no_args, Slot::Undefined);
    match ctx.finish_call(frame, Outcome::Threw(Slot::Str(s("a")), s("a"))) {
        Err(Error::Js { raw }) => {
            assert_eq!(raw.kind, JsErrorKind::Generic);
            assert_eq!(raw.message, "a");
        }
        Ok(_) => panic!("not an error"),
    }
    assert_eq!(ctx.stack_height(), 0);
}

#[test]
fn method_of_the_global_object() {
    let mut ctx = Context::new();
    global_function(&mut ctx, "foo");
    ctx.define_global(s("bar"), Slot::Number(2.0f64.to_bits()));
    let global: Reference = ctx.global_object();
    let bar = global.get(&mut ctx, &s("bar"), Slot::Undefined).unwrap();
    assert_eq!(bar.to_value(&mut ctx), num(2.0));
    let frame = global.call_method(&mut ctx, &s("foo"), &[num(4.25)], Slot::Undefined);
    let this = ctx.to_value_at(frame.callee_index() as i32 + 1).unwrap();
    assert_eq!(this, global.to_value(&mut ctx));
    let outcome = echo(&ctx, &frame, true);
    let r = ctx.finish_call(frame, outcome).unwrap();
    assert_eq!(r.to_value(&mut ctx), Value::Array(vec![num(4.25)]));
    assert_eq!(ctx.stack_height(), 0);
}

#[test]
fn call_with_this_hands_this_and_arguments() {
    let mut ctx = Context::new();
    global_function(&mut ctx, "foo");
    ctx.define_global(s("bar"), Slot::Number(2.0f64.to_bits()));
    let global = ctx.global_object();
    let foo = global.get(&mut ctx, &s("foo"), Slot::Undefined).unwrap();
    let frame = foo.call_with_this(&mut ctx, &global, &[num(4.25)]);
    assert_eq!(ctx.to_value_at(frame.callee_index() as i32 + 1), Some(global.to_value(&mut ctx)));
    let outcome = echo(&ctx, &frame, true);
    let r = ctx.finish_call(frame, outcome).unwrap();
    assert_eq!(r.to_value(&mut ctx), Value::Array(vec![num(4.25)]));
    assert_eq!(ctx.stack_height(), 0);
}

#[test]
fn constructor_receives_its_arguments() {
    let mut ctx = Context::new();
    global_function(&mut ctx, "foo");
    let global = ctx.global_object();
    let foo = global.get(&mut ctx, &s("foo"), Slot::Undefined).unwrap();
    let frame = foo.new(&mut ctx, &[num(4.25)]);
    let outcome = echo(&ctx, &frame, false);
    let r = ctx.finish_call(frame, outcome).unwrap();
    assert_eq!(r.to_value(&mut ctx), Value::Array(vec![num(4.25)]));
    assert_eq!(ctx.stack_height(), 0);
}

#[test]
fn defining_a_global_twice_replaces_it() {
    let mut ctx = Context::new();
    ctx.define_global(s("x"), Slot::Null);
    ctx.define_global(s("y"), Slot::Null);
    ctx.define_global(s("x"), Slot::Boolean(true));
    let g = ctx.global_object();
    assert_eq!(
        g.to_value(&mut ctx),
        Value::Object(vec![(s("x"), Value::Boolean(true)), (s("y"), Value::Null)])
    );
}
