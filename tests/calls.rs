use duk::{Context, Error, JsErrorKind, ObjectClass, Outcome, Reference, Slot, Value};

fn s(t: &str) -> String {
    t.to_owned()
}

fn function() -> Slot {
    Slot::Object(ObjectClass::Function, vec![])
}

fn handle(ctx: &mut Context<duk::NoModule, duk::NoModule>, slot: Slot) -> Reference {
    ctx.complete_eval(Outcome::Returned(slot)).unwrap()
}

#[test]
fn call_returns_a_handle_to_the_result() {
    let mut ctx = Context::new();
    let f = handle(&mut ctx, function());
    let frame = f.call(&mut ctx, &[Value::Number(1.0f64.to_bits())]);
    assert_eq!(frame.arg_count(), 1);
    assert_eq!(ctx.to_value_at(frame.callee_index() as i32 + 1), Some(Value::Number(1.0f64.to_bits())));
    let r = ctx.finish_call(frame, Outcome::Returned(Slot::Str(s("a")))).unwrap();
    assert_eq!(r.to_value(&mut ctx), Value::String(s("a")));
    assert_eq!(ctx.stack_height(), 0);
}

#[test]
fn call_with_this_takes_a_handle_as_this() {
    let mut ctx = Context::new();
    let f = handle(&mut ctx, Slot::LightFunc);
    let global = ctx.global_object();
    let no_args: [Value; 0] = [];
    let frame = f.call_with_this(&mut ctx, &global, &no_args);
    assert_eq!(ctx.to_value_at(frame.callee_index() as i32 + 1), Some(Value::Object(vec![])));
    let r = ctx.finish_call(frame, Outcome::Returned(Slot::Boolean(true))).unwrap();
    assert_eq!(r.to_value(&mut ctx), Value::Boolean(true));
    assert_eq!(ctx.stack_height(), 0);
}

#[test]
fn call_method_finds_the_property() {
    let mut ctx = Context::new();
    let obj = handle(
        &mut ctx,
        Slot::Object(ObjectClass::Plain, vec![(s("foo"), function())]),
    );
    let args = [Value::String(s("x")), Value::Null];
    let frame = obj.call_method(&mut ctx, &s("foo"), &args, Slot::Undefined);
    let r = ctx.finish_call(frame, Outcome::Returned(Slot::Number(2.0f64.to_bits()))).unwrap();
    assert_eq!(r.to_value(&mut ctx), Value::Number(2.0f64.to_bits()));
    let frame = obj.call_method(&mut ctx, &s("bar"), &args, Slot::Undefined);
    let missing = ctx.finish_call(frame, Outcome::Returned(Slot::Null));
    match missing {
        Err(Error::Js { raw }) => {
            assert_eq!(raw.kind, JsErrorKind::Type);
            assert_eq!(raw.message, "undefined not callable");
        }
        Ok(_) => panic!("not an error"),
    }
    assert_eq!(ctx.stack_height(), 0);
}

#[test]
fn constructing_a_number_fails() {
    let mut ctx = Context::new();
    let n = handle(&mut ctx, Slot::Number(3.0f64.to_bits()));
    let no_args: [Value; 0] = [];
    let frame = n.new(&mut ctx, &no_args);
    match ctx.finish_call(frame, Outcome::Returned(Slot::Null)) {
        Err(Error::Js { raw }) => {
            assert_eq!(raw.kind, JsErrorKind::Type);
            assert_eq!(raw.message, "number not constructable");
        }
        Ok(_) => panic!("not an error"),
    }
}

#[test]
fn constructor_returns_the_new_object() {
    let mut ctx = Context::new();
    let f = handle(&mut ctx, function());
    let no_args: [Value; 0] = [];
    let made = Slot::Object(ObjectClass::Plain, vec![(s("k"), Slot::Null)]);
    let frame = f.new(&mut ctx, &no_args);
    assert!(frame.is_construct());
    let r = ctx.finish_call(frame, Outcome::Returned(made)).unwrap();
    assert_eq!(r.to_value(&mut ctx), Value::Object(vec![(s("k"), Value::Null)]));
}

#[test]
fn thrown_value_of_a_call_becomes_the_error() {
    let mut ctx = Context::new();
    let f = handle(&mut ctx, function());
    let no_args: [Value; 0] = [];
    let frame = f.call(&mut ctx, &no_args);
    match ctx.finish_call(frame, Outcome::Threw(Slot::Str(s("a")), s("a"))) {
        Err(Error::Js { raw }) => {
            assert_eq!(raw.kind, JsErrorKind::Generic);
            assert_eq!(raw.message, "a");
        }
        Ok(_) => panic!("not an error"),
    }
    assert_eq!(ctx.stack_height(), 0);
}

#[test]
fn get_reads_a_property_or_undefined() {
    let mut ctx = Context::new();
    let obj = handle(
        &mut ctx,
        Slot::Object(ObjectClass::Plain, vec![(s("a"), Slot::Str(s("x")))]),
    );
    let a = obj.get(&mut ctx, &s("a"), Slot::Undefined).unwrap();
    assert_eq!(a.to_value(&mut ctx), Value::String(s("x")));
    let b = obj.get(&mut ctx, &s("b"), Slot::Undefined).unwrap();
    assert_eq!(b.to_value(&mut ctx), Value::Undefined);
}

#[test]
fn handles_do_not_cross_contexts() {
    let mut a = Context::new();
    let b = Context::new();
    let r = Value::Null.to_reference(&mut a);
    assert!(a.owns(&r));
    assert!(a.is_live(&r));
    assert!(!b.owns(&r));
    assert!(!b.is_live(&r));
}

#[test]
fn release_deletes_the_stash_slot() {
    let mut ctx = Context::new();
    let r = Value::Null.to_reference(&mut ctx);
    let keep = Value::Boolean(true).to_reference(&mut ctx);
    let probe = Value::Null.to_reference(&mut ctx);
    ctx.release(r);
    assert!(ctx.is_live(&keep));
    assert!(ctx.is_live(&probe));
    ctx.release(probe);
    assert_eq!(keep.to_value(&mut ctx), Value::Boolean(true));
}

#[test]
fn stack_height_is_kept_over_many_mixed_operations() {
    let mut ctx = Context::new();
    let f = handle(&mut ctx, function());
    let not_f = handle(&mut ctx, Slot::Null);
    let no_args: [Value; 0] = [];
    for i in 0..60u32 {
        let before = ctx.stack_height();
        match i % 6 {
            0 => {
                let frame = f.call(&mut ctx, &no_args);
                let _ = ctx.finish_call(frame, Outcome::Returned(Slot::Null));
            }
            1 => {
                let frame = not_f.call(&mut ctx, &no_args);
                let _ = ctx.finish_call(frame, Outcome::Returned(Slot::Null));
            }
            2 => {
                let _ = not_f.get(&mut ctx, &s("x"), Slot::Undefined);
            }
            3 => {
                let _ = ctx.complete_eval(Outcome::Threw(Slot::Str(s("e")), s("e")));
            }
            4 => {
                let frame = ctx.call_global(&s("missing"), &no_args, Slot::Undefined);
                let _ = ctx.finish_call(frame, Outcome::Returned(Slot::Null));
            }
            _ => {
                let _ = f.to_value(&mut ctx);
            }
        }
        assert_eq!(ctx.stack_height(), before);
        assert_eq!(ctx.stack_height(), 0);
    }
}

#[test]
fn builder_installs_module_callbacks_as_a_pair() {
    let both = Context::builder()
        .with_module_resolver(|a: String, _p: String| a)
        .with_module_loader(|_m: String| Some(String::from("exports.num = 3")))
        .build();
    assert!(both.module_callbacks().is_some());
    let one = Context::builder().with_module_resolver(|a: String, _p: String| a).build();
    assert!(one.module_callbacks().is_none());
    let none = Context::new();
    assert!(none.module_callbacks().is_none());
}

#[test]
fn handles_pass_as_arguments() {
    let mut ctx = Context::new();
    let f = handle(&mut ctx, function());
    let a = Value::String(s("x")).to_reference(&mut ctx);
    let b = Value::Null.to_reference(&mut ctx);
    let frame = f.call(&mut ctx, &[a, b]);
    let base = frame.callee_index() as i32;
    assert_eq!(ctx.to_value_at(base + 1), Some(Value::String(s("x"))));
    assert_eq!(ctx.to_value_at(base + 2), Some(Value::Null));
    let r = ctx.finish_call(frame, Outcome::Returned(Slot::Str(s("ok")))).unwrap();
    assert_eq!(r.to_value(&mut ctx), Value::String(s("ok")));
    assert_eq!(ctx.stack_height(), 0);
}

#[test]
fn stash_indices_count_up() {
    let mut ctx = Context::new();
    assert_eq!(ctx.gen_stash_idx(), 0);
    assert_eq!(ctx.gen_stash_idx(), 1);
    let r = Value::Null.to_reference(&mut ctx);
    assert!(ctx.is_live(&r));
    assert_eq!(ctx.gen_stash_idx(), 3);
}

#[test]
fn global_object_starts_empty() {
    let mut ctx = Context::new();
    let g = ctx.global_object();
    assert_eq!(g.to_value(&mut ctx), Value::Object(vec![]));
    ctx.release(g);
    assert_eq!(ctx.stack_height(), 0);
}

#[test]
fn module_callbacks_answer_the_engine() {
    let mut ctx = Context::builder()
        .with_module_resolver(|a: String, _p: String| a[..a.len() - 3].to_owned())
        .with_module_loader(|m: String| {
            if m == "foo" {
                Some("exports.num = 3".to_owned())
            } else {
                None
            }
        })
        .build();
    assert!(ctx.module_resolve_handler(s("foo.js"), s("main")));
    assert_eq!(ctx.to_value_at(-1), Some(Value::String(s("foo"))));
    assert!(ctx.module_load_handler(s("foo")));
    assert_eq!(ctx.to_value_at(-1), Some(Value::String(s("exports.num = 3"))));
    assert_eq!(ctx.stack_height(), 2);
    assert!(!ctx.module_load_handler(s("bar")));
    assert_eq!(ctx.stack_height(), 2);
}
