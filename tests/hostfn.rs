use duk::hostfn::{host_outcome, read_arguments, HostResult};
use duk::number::truncate_signed;
use duk::{Context, Data, Error, JsErrorKind, ObjectClass, Outcome, Shape, Slot, Value};

fn s(t: &str) -> String {
    t.to_owned()
}

fn int_argument(x: f64) -> i64 {
    let args = vec![Slot::Number(x.to_bits())];
    match read_arguments(&args, &vec![Shape::Number]) {
        Ok(ds) => match &ds[0] {
            Data::Number(bits) => truncate_signed(*bits, i32::MIN as i64, i32::MAX as i64),
            _ => panic!("not a number"),
        },
        Err(_) => panic!("argument did not read"),
    }
}

#[test]
fn fractional_integer_argument_truncates() {
    assert_eq!(int_argument(5.5), 5);
    assert_eq!(int_argument(5.5), int_argument(5.0));
}

#[test]
fn host_function_result_reaches_the_script() {
    let mut ctx = Context::new();
    let f = ctx.complete_eval(Outcome::Returned(Slot::Object(ObjectClass::Function, vec![]))).unwrap();
    let outcome = host_outcome(HostResult::Value(Data::Str(s("five"))));
    let frame = f.call(&mut ctx, &[Value::Number(5.5f64.to_bits())]);
    let r = ctx.finish_call(frame, outcome).unwrap();
    assert_eq!(r.to_value(&mut ctx), Value::String(s("five")));
}

#[test]
fn host_panic_is_a_catchable_error() {
    let mut ctx = Context::new();
    let f = ctx.complete_eval(Outcome::Returned(Slot::Object(ObjectClass::Function, vec![]))).unwrap();
    let outcome = host_outcome(HostResult::Panic(Some(s("boom"))));
    let frame = f.call(&mut ctx, &[Value::Null]);
    match ctx.finish_call(frame, outcome) {
        Err(Error::Js { raw }) => {
            assert_eq!(raw.kind, JsErrorKind::Error);
            assert_eq!(raw.message, "panic: boom");
        }
        Ok(_) => panic!("not an error"),
    }
    assert_eq!(ctx.stack_height(), 0);
}

#[test]
fn unreadable_argument_throws_a_type_error() {
    let args = vec![Slot::Str(s("x"))];
    match read_arguments(&args, &vec![Shape::Number]) {
        Err(ae) => {
            assert_eq!(ae.position, 0);
            let msg = ae.error.to_text();
            match ae.thrown {
                Outcome::Threw(Slot::Object(ObjectClass::Error(code), _), text) => {
                    assert_eq!(code, 6);
                    assert_eq!(text, msg);
                }
                _ => panic!("expected a thrown type error"),
            }
        }
        Ok(_) => panic!("expected a failed read"),
    }
    assert!(read_arguments(&vec![], &vec![Shape::Option(Box::new(Shape::Number))]).is_ok());
}

#[test]
fn no_value_and_unwritable_results() {
    assert!(matches!(host_outcome(HostResult::NoValue), Outcome::Returned(Slot::Undefined)));
    match host_outcome(HostResult::Unwritable(s("bad"))) {
        Outcome::Threw(Slot::Object(ObjectClass::Error(6), _), text) => assert_eq!(text, "bad"),
        _ => panic!("expected a thrown type error"),
    }
    match host_outcome(HostResult::Panic(None)) {
        Outcome::Threw(_, text) => assert_eq!(text, "panic: unknown error"),
        _ => panic!("expected a thrown error"),
    }
}
