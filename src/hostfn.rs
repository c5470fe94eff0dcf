//! The decisions of a host function that script calls: its arguments are read with their
//! declared shapes, a failed read throws a `TypeError`, and what the function ends with (a
//! value, no value, a panic, or a result that cannot be written) becomes the call's outcome.
use vstd::prelude::*;
use vstd::string::StringExecFns;
use crate::context::Outcome;
use crate::data::{Data, Shape};
use crate::de::{decode, read, Error};
use crate::error::{ERR_ERROR, ERR_TYPE_ERROR};
use crate::ser::{slot_of_data, write_data};
use crate::stack::{
    items_view, lemma_items_view, lemma_props_view, props_view, ObjectClass, Slot, SlotV,
};

verus! {

/// The argument at position `i`; a missing argument is `undefined`.
pub open spec fn argument(args: Seq<SlotV>, i: int) -> SlotV {
    if 0 <= i < args.len() {
        args[i]
    } else {
        SlotV::Undefined
    }
}

/// The error instance with code `code` and message `message`.
pub open spec fn error_instance(code: u32, message: Seq<char>) -> SlotV {
    SlotV::Object(ObjectClass::Error(code), seq![("message"@, SlotV::Str(message))])
}

/// How a host function ended, as the host saw it.
pub enum HostResult {
    /// It returned a value.
    Value(Data),
    /// It returns nothing.
    NoValue,
    /// It panicked, with the panic's text where the payload is text.
    Panic(Option<String>),
    /// Its result could not be turned into structured data, with the reason.
    Unwritable(String),
}

/// The message of the error a panic throws.
pub open spec fn panic_message(text: Option<String>) -> Seq<char> {
    match text {
        Some(t) => "panic: "@ + t@,
        None => "panic: unknown error"@,
    }
}

fn error_slot(code: u32, message: &String) -> (r: Slot)
    ensures
        r@ == error_instance(code, message@),
{
    let props = vec![("message".to_owned(), Slot::Str(message.clone()))];
    proof {
        reveal_strlit("message");
        lemma_props_view(props@);
        assert(props_view(props@) =~= seq![("message"@, SlotV::Str(message@))]);
    }
    Slot::Object(ObjectClass::Error(code), props)
}

/// The outcome of throwing a `TypeError` with `message`.
pub fn thrown_type_error(message: String) -> (o: Outcome)
    ensures
        o matches Outcome::Threw(t, text) && t@ == error_instance(ERR_TYPE_ERROR, message@)
            && text@ == message@,
{
    let t = error_slot(ERR_TYPE_ERROR, &message);
    Outcome::Threw(t, message)
}

/// An argument that did not read: its position, the reader's error, and the `TypeError` that
/// the call throws for it, carrying the error's message.
pub struct ArgumentError {
    pub position: usize,
    pub error: Error,
    pub thrown: Outcome,
}

/// The outcome of throwing a `TypeError` with the message of a reader's error.
pub fn thrown_read_error(e: &Error) -> (o: Outcome)
    ensures
        o matches Outcome::Threw(t, text) && t@ == error_instance(ERR_TYPE_ERROR, e.message())
            && text@ == e.message(),
{
    thrown_type_error(e.to_text())
}

/// Reads the arguments of a host function with their declared shapes. It succeeds exactly
/// when every argument reads; otherwise it stops at the first argument that does not, and the
/// call throws a `TypeError` with the reader's message for it.
pub fn read_arguments(args: &Vec<Slot>, shapes: &Vec<Shape>) -> (r: Result<Vec<Data>, ArgumentError>)
    ensures
        r is Ok <==> forall|i: int|
            0 <= i < shapes.len() ==> decode(argument(items_view(args@), i), #[trigger] shapes@[i])
                is Some,
        r matches Ok(ds) ==> ds.len() == shapes.len() && forall|i: int|
            0 <= i < shapes.len() ==> decode(argument(items_view(args@), i), #[trigger] shapes@[i])
                == Some(ds[i]@),
        r matches Err(ae) ==> ae.position < shapes.len() && decode(
            argument(items_view(args@), ae.position as int),
            shapes@[ae.position as int],
        ) is None && (forall|j: int|
            0 <= j < ae.position ==> decode(argument(items_view(args@), j), #[trigger] shapes@[j])
                is Some) && (ae.thrown matches Outcome::Threw(t, text) && t@ == error_instance(
            ERR_TYPE_ERROR,
            ae.error.message(),
        ) && text@ == ae.error.message()),
{
    proof {
        lemma_items_view(args@);
    }
    let mut out: Vec<Data> = Vec::new();
    let mut i: usize = 0;
    while i < shapes.len()
        invariant
            i <= shapes.len(),
            out.len() == i,
            items_view(args@).len() == args.len(),
            forall|j: int| 0 <= j < args.len() ==> #[trigger] items_view(args@)[j] == args[j]@,
            forall|j: int|
                0 <= j < i ==> decode(argument(items_view(args@), j), #[trigger] shapes@[j]) == Some(
                    out[j]@,
                ),
        decreases shapes.len() - i,
    {
        let undefined = Slot::Undefined;
        let slot = if i < args.len() {
            &args[i]
        } else {
            &undefined
        };
        match read(slot, &shapes[i]) {
            Ok(d) => out.push(d),
            Err(e) => {
                let thrown = thrown_read_error(&e);
                return Err(ArgumentError { position: i, error: e, thrown });
            },
        }
        i += 1;
    }
    Ok(out)
}

/// The outcome of a host function call: a returned value is written as the result, no value
/// gives `undefined`, a panic throws an `Error` naming it, and an unwritable result throws a
/// `TypeError`.
pub fn host_outcome(result: HostResult) -> (o: Outcome)
    ensures
        match result {
            HostResult::Value(d) => o matches Outcome::Returned(s) && s@ == slot_of_data(d@),
            HostResult::NoValue => o matches Outcome::Returned(s) && s@ == SlotV::Undefined,
            HostResult::Panic(text) => o matches Outcome::Threw(t, m) && t@ == error_instance(
                ERR_ERROR,
                panic_message(text),
            ) && m@ == panic_message(text),
            HostResult::Unwritable(reason) => o matches Outcome::Threw(t, m) && t@
                == error_instance(ERR_TYPE_ERROR, reason@) && m@ == reason@,
        },
{
    match result {
        HostResult::Value(d) => Outcome::Returned(write_data(&d)),
        HostResult::NoValue => Outcome::Returned(Slot::Undefined),
        HostResult::Panic(text) => {
            let message = match text {
                Some(t) => {
                    let mut m = "panic: ".to_owned();
                    m.append(t.as_str());
                    m
                },
                None => "panic: unknown error".to_owned(),
            };
            proof {
                reveal_strlit("panic: ");
                reveal_strlit("panic: unknown error");
            }
            let t = error_slot(ERR_ERROR, &message);
            Outcome::Threw(t, message)
        },
        HostResult::Unwritable(reason) => thrown_type_error(reason),
    }
}

} // verus!
