use duk::{Context, Error, JsError, JsErrorKind, ObjectClass, Outcome, Slot, Value};

fn s(t: &str) -> String {
    t.to_owned()
}

fn error_object(code: u32, props: Vec<(String, Slot)>) -> Slot {
    Slot::Object(ObjectClass::Error(code), props)
}

fn thrown(slot: Slot, text: &str) -> JsError {
    let mut ctx = Context::new();
    let r = ctx.complete_eval(Outcome::Threw(slot, s(text)));
    assert_eq!(ctx.stack_height(), 0);
    match r {
        Err(Error::Js { raw }) => raw,
        Ok(_) => panic!("not an error"),
    }
}

#[test]
fn type_error_is_classified() {
    let e = thrown(error_object(6, vec![(s("message"), Slot::Str(s("xyz")))]), "TypeError: xyz");
    assert_eq!(e.kind, JsErrorKind::Type);
    assert_eq!(e.message, "xyz");
}

#[test]
fn every_error_code_has_its_kind() {
    let kinds = [
        JsErrorKind::Generic,
        JsErrorKind::Error,
        JsErrorKind::Eval,
        JsErrorKind::Range,
        JsErrorKind::Reference,
        JsErrorKind::Syntax,
        JsErrorKind::Type,
        JsErrorKind::Uri,
    ];
    for (code, kind) in kinds.iter().enumerate() {
        assert_eq!(JsErrorKind::from_raw(code as u32), *kind);
        let e = thrown(error_object(code as u32, vec![(s("message"), Slot::Str(s("xyz")))]), "");
        assert_eq!(e.kind, *kind);
        assert_eq!(e.message, "xyz");
    }
}

#[test]
fn thrown_string_is_generic_with_its_text() {
    let e = thrown(Slot::Str(s("foobar")), "foobar");
    assert_eq!(e.kind, JsErrorKind::Generic);
    assert_eq!(e.message, "foobar");
    assert_eq!(e.file_name, None);
    assert_eq!(e.line_number, None);
    assert_eq!(e.stack, None);
}

#[test]
fn optional_error_properties_are_read() {
    let e = thrown(
        error_object(
            1,
            vec![
                (s("message"), Slot::Str(s("boom"))),
                (s("fileName"), Slot::Str(s("input.js"))),
                (s("lineNumber"), Slot::Number(12.0f64.to_bits())),
                (s("stack"), Slot::Str(s("at input.js:12"))),
            ],
        ),
        "Error: boom",
    );
    assert_eq!(e.kind, JsErrorKind::Error);
    assert_eq!(e.file_name, Some(s("input.js")));
    assert_eq!(e.line_number, Some(12));
    assert_eq!(e.stack, Some(s("at input.js:12")));
}

#[test]
fn empty_file_name_and_nan_line_count_as_absent() {
    let e = thrown(
        error_object(
            3,
            vec![
                (s("message"), Slot::Str(s("range"))),
                (s("fileName"), Slot::Str(s(""))),
                (s("lineNumber"), Slot::Number(f64::NAN.to_bits())),
            ],
        ),
        "RangeError: range",
    );
    assert_eq!(e.kind, JsErrorKind::Range);
    assert_eq!(e.file_name, None);
    assert_eq!(e.line_number, None);
}

#[test]
fn fractional_line_number_truncates() {
    let e = thrown(
        error_object(
            5,
            vec![(s("message"), Slot::Str(s("m"))), (s("lineNumber"), Slot::Number(7.9f64.to_bits()))],
        ),
        "",
    );
    assert_eq!(e.line_number, Some(7));
}

#[test]
fn calling_a_missing_global_is_a_type_error() {
    let mut ctx = Context::new();
    let no_args: [Value; 0] = [];
    let frame = ctx.call_global(&s("foo"), &no_args, Slot::Undefined);
    let r = ctx.finish_call(frame, Outcome::Returned(Slot::Undefined));
    match r {
        Err(Error::Js { raw }) => {
            assert_eq!(raw.kind, JsErrorKind::Type);
            assert_eq!(raw.message, "undefined not callable");
        }
        Ok(_) => panic!("not an error"),
    }
    assert_eq!(ctx.stack_height(), 0);
}

#[test]
fn property_of_undefined_is_a_type_error() {
    let mut ctx = Context::new();
    let r = Value::Undefined.to_reference(&mut ctx);
    match r.get(&mut ctx, &s("x"), Slot::Undefined) {
        Err(Error::Js { raw }) => {
            assert_eq!(raw.kind, JsErrorKind::Type);
            assert_eq!(raw.message, "value is not object coercible");
        }
        Ok(_) => panic!("not an error"),
    }
    assert_eq!(ctx.stack_height(), 0);
}
