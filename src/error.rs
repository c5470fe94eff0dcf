//! Script errors: classification of the engine's error codes and extraction of a structured
//! error from a thrown value.
use vstd::prelude::*;
use crate::number::{bits_are_nan, is_nan, truncate_to_usize, truncated};
use crate::stack::{lemma_props_view, props_view, ObjectClass, Slot, SlotV};

verus! {

/// Error code of a value that is no error instance.
pub const ERR_NONE: u32 = 0;
/// Error code of an `Error` instance.
pub const ERR_ERROR: u32 = 1;
/// Error code of an `EvalError` instance.
pub const ERR_EVAL_ERROR: u32 = 2;
/// Error code of a `RangeError` instance.
pub const ERR_RANGE_ERROR: u32 = 3;
/// Error code of a `ReferenceError` instance.
pub const ERR_REFERENCE_ERROR: u32 = 4;
/// Error code of a `SyntaxError` instance.
pub const ERR_SYNTAX_ERROR: u32 = 5;
/// Error code of a `TypeError` instance.
pub const ERR_TYPE_ERROR: u32 = 6;
/// Error code of a `URIError` instance.
pub const ERR_URI_ERROR: u32 = 7;

/// Bits of the quiet NaN the engine reads from a value that is no number.
pub const NAN_BITS: u64 = 0x7ff8_0000_0000_0000;

/// Kinds of script errors.
#[derive(Clone, Copy, Debug, PartialEq, Eq)]
pub enum JsErrorKind {
    /// A thrown value that is no `Error` instance, as in `throw 3.14;`.
    Generic,
    /// An instance of `Error`.
    Error,
    /// An instance of `EvalError`.
    Eval,
    /// An instance of `RangeError`.
    Range,
    /// An instance of `ReferenceError`.
    Reference,
    /// An instance of `SyntaxError`.
    Syntax,
    /// An instance of `TypeError`.
    Type,
    /// An instance of `URIError`.
    Uri,
}

/// The kind that an engine error code stands for.
pub open spec fn kind_of_code(code: u32) -> JsErrorKind {
    if code == ERR_NONE {
        JsErrorKind::Generic
    } else if code == ERR_ERROR {
        JsErrorKind::Error
    } else if code == ERR_EVAL_ERROR {
        JsErrorKind::Eval
    } else if code == ERR_RANGE_ERROR {
        JsErrorKind::Range
    } else if code == ERR_REFERENCE_ERROR {
        JsErrorKind::Reference
    } else if code == ERR_SYNTAX_ERROR {
        JsErrorKind::Syntax
    } else if code == ERR_TYPE_ERROR {
        JsErrorKind::Type
    } else {
        JsErrorKind::Uri
    }
}

/// Whether the engine reports this code; any other code means the engine and this layer
/// disagree on the table.
pub open spec fn known_code(code: u32) -> bool {
    code <= ERR_URI_ERROR
}

impl JsErrorKind {
    /// Classifies an engine error code.
    pub fn from_raw(code: u32) -> (k: JsErrorKind)
        requires
            known_code(code),
        ensures
            k == kind_of_code(code),
    {
        if code == ERR_NONE {
            JsErrorKind::Generic
        } else if code == ERR_ERROR {
            JsErrorKind::Error
        } else if code == ERR_EVAL_ERROR {
            JsErrorKind::Eval
        } else if code == ERR_RANGE_ERROR {
            JsErrorKind::Range
        } else if code == ERR_REFERENCE_ERROR {
            JsErrorKind::Reference
        } else if code == ERR_SYNTAX_ERROR {
            JsErrorKind::Syntax
        } else if code == ERR_TYPE_ERROR {
            JsErrorKind::Type
        } else {
            JsErrorKind::Uri
        }
    }
}

/// An error that originates from executing script code.
#[derive(Clone, Debug, PartialEq, Eq)]
pub struct JsError {
    /// The kind of error.
    pub kind: JsErrorKind,
    /// A descriptive, script-controlled message.
    pub message: String,
    pub file_name: Option<String>,
    /// One-based line number.
    pub line_number: Option<usize>,
    pub stack: Option<String>,
}

/// The type of errors that script execution produces.
#[derive(Debug, PartialEq, Eq)]
pub enum Error {
    Js { raw: JsError },
}

/// The value of the last own property named `key`.
pub open spec fn lookup(props: Seq<(Seq<char>, SlotV)>, key: Seq<char>) -> Option<SlotV>
    decreases props.len(),
{
    if props.len() == 0 {
        None
    } else if props.last().0 == key {
        Some(props.last().1)
    } else {
        lookup(props.drop_last(), key)
    }
}

/// The position of the last property named `key`.
pub open spec fn last_index(props: Seq<(Seq<char>, SlotV)>, key: Seq<char>) -> Option<int>
    decreases props.len(),
{
    if props.len() == 0 {
        None
    } else if props.last().0 == key {
        Some(props.len() - 1)
    } else {
        last_index(props.drop_last(), key)
    }
}

/// The properties with `v` bound under `key`: the last property of that name gets the new
/// value, or a new property is added at the end.
pub open spec fn bind(props: Seq<(Seq<char>, SlotV)>, key: Seq<char>, v: SlotV) -> Seq<
    (Seq<char>, SlotV),
> {
    match last_index(props, key) {
        Some(j) => props.update(j, (key, v)),
        None => props.push((key, v)),
    }
}

proof fn lemma_last_index_range(props: Seq<(Seq<char>, SlotV)>, key: Seq<char>)
    ensures
        last_index(props, key) matches Some(j) ==> 0 <= j < props.len() && props[j].0 == key,
    decreases props.len(),
{
    if props.len() > 0 && props.last().0 != key {
        lemma_last_index_range(props.drop_last(), key);
    }
}

/// After binding, `key` reads back the bound value and every other key reads as before.
pub proof fn lemma_lookup_bind(props: Seq<(Seq<char>, SlotV)>, key: Seq<char>, v: SlotV)
    ensures
        lookup(bind(props, key, v), key) == Some(v),
        forall|other: Seq<char>|
            other != key ==> lookup(#[trigger] bind(props, key, v), other) == lookup(props, other),
    decreases props.len(),
{
    let b = bind(props, key, v);
    if props.len() == 0 {
        assert(b.drop_last() =~= props);
    } else if props.last().0 == key {
        assert(b.drop_last() =~= props.drop_last());
        assert(b.last() == (key, v));
    } else {
        lemma_last_index_range(props.drop_last(), key);
        lemma_lookup_bind(props.drop_last(), key, v);
        match last_index(props.drop_last(), key) {
            Some(j) => {
                assert(b.drop_last() =~= bind(props.drop_last(), key, v));
                assert(b.last() == props.last());
            },
            None => {
                assert(b.drop_last() =~= props);
                assert(b.last() == (key, v));
            },
        }
        assert forall|other: Seq<char>| other != key implies lookup(
            #[trigger] bind(props, key, v),
            other,
        ) == lookup(props, other) by {
            if props.last().0 != other {
                assert(lookup(bind(props.drop_last(), key, v), other) == lookup(props.drop_last(), other));
            }
        }
    }
}

/// Binds `v` under `key` in a property list, as [`bind`] describes.
pub fn bind_property(props: &mut Vec<(String, Slot)>, key: String, v: Slot)
    ensures
        props_view(final(props)@) == bind(props_view(old(props)@), key@, v@),
{
    let ghost pv = props_view(props@);
    proof {
        lemma_props_view(props@);
        assert(pv.subrange(0, pv.len() as int) =~= pv);
    }
    let mut i: usize = props.len();
    while i > 0
        invariant
            i <= props.len(),
            props@ == old(props)@,
            pv == props_view(props@),
            pv.len() == props.len(),
            forall|t: int| 0 <= t < props.len() ==> #[trigger] pv[t] == (props[t].0@, props[t].1@),
            last_index(pv, key@) == last_index(pv.subrange(0, i as int), key@),
        decreases i,
    {
        proof {
            assert(pv.subrange(0, i as int).drop_last() =~= pv.subrange(0, i - 1));
        }
        if props[i - 1].0 == key {
            let ghost kk = key@;
            let ghost vv = v@;
            props.set(i - 1, (key, v));
            proof {
                lemma_props_view(props@);
                assert(props_view(props@) =~= pv.update(i - 1, (kk, vv)));
            }
            return;
        }
        i -= 1;
    }
    let ghost kk = key@;
    let ghost vv = v@;
    props.push((key, v));
    proof {
        lemma_props_view(props@);
        assert(props_view(props@) =~= pv.push((kk, vv)));
    }
}

/// The own property `key` of a value; only objects have properties here.
pub open spec fn property(s: SlotV, key: Seq<char>) -> Option<SlotV> {
    match s {
        SlotV::Object(_, props) => lookup(props, key),
        _ => None,
    }
}

/// The text the engine reads from a value: a string's characters, nothing for any other value.
pub open spec fn text_of(s: SlotV) -> Seq<char> {
    match s {
        SlotV::Str(t) => t,
        _ => Seq::empty(),
    }
}

/// The number the engine reads from a value: NaN for anything that is not a number.
pub open spec fn number_of(s: SlotV) -> u64 {
    match s {
        SlotV::Number(n) => n,
        _ => NAN_BITS,
    }
}

/// The engine's error code of a value.
pub open spec fn error_code_of(s: SlotV) -> u32 {
    match s {
        SlotV::Object(ObjectClass::Error(c), _) => c,
        _ => ERR_NONE,
    }
}

/// The text of the own property `key`, where there is one.
pub open spec fn string_property(s: SlotV, key: Seq<char>) -> Option<Seq<char>> {
    match property(s, key) {
        Some(v) => Some(text_of(v)),
        None => None,
    }
}

/// The message of a thrown value: its `message` property, or else the engine's safe string
/// conversion of the value (`text`), which covers a thrown primitive.
pub open spec fn message_of(s: SlotV, text: Seq<char>) -> Seq<char> {
    match string_property(s, "message"@) {
        Some(m) => m,
        None => text,
    }
}

/// The `fileName` property; an empty name counts as absent.
pub open spec fn file_name_of(s: SlotV) -> Option<Seq<char>> {
    match string_property(s, "fileName"@) {
        Some(n) => if n.len() == 0 {
            None
        } else {
            Some(n)
        },
        None => None,
    }
}

/// The `lineNumber` property, truncated toward zero; NaN counts as absent.
pub open spec fn line_number_of(s: SlotV) -> Option<int> {
    match property(s, "lineNumber"@) {
        Some(v) => if is_nan(number_of(v)) {
            None
        } else if truncated(number_of(v)) > usize::MAX {
            Some(usize::MAX as int)
        } else {
            Some(truncated(number_of(v)) as int)
        },
        None => None,
    }
}

/// The characters of an optional string.
pub open spec fn opt_text(o: Option<String>) -> Option<Seq<char>> {
    match o {
        Some(s) => Some(s@),
        None => None,
    }
}

/// An optional `usize` as an optional integer.
pub open spec fn opt_int(o: Option<usize>) -> Option<int> {
    match o {
        Some(n) => Some(n as int),
        None => None,
    }
}

/// Whether `e` is the structured error extracted from the thrown value `s`, whose safe string
/// conversion is `text`.
pub open spec fn is_error_of(e: JsError, s: SlotV, text: Seq<char>) -> bool {
    &&& e.kind == kind_of_code(error_code_of(s))
    &&& e.message@ == message_of(s, text)
    &&& opt_text(e.file_name) == file_name_of(s)
    &&& opt_int(e.line_number) == line_number_of(s)
    &&& opt_text(e.stack) == string_property(s, "stack"@)
}

/// Finds the own property `key` of a slot.
pub fn get_property<'a>(s: &'a Slot, key: &String) -> (r: Option<&'a Slot>)
    ensures
        match r {
            Some(v) => property(s@, key@) == Some(v@),
            None => property(s@, key@) is None,
        },
{
    match s {
        Slot::Object(_, props) => {
            let mut i: usize = props.len();
            proof {
                lemma_props_view(props@);
                assert(props_view(props@).subrange(0, i as int) =~= props_view(props@));
            }
            while i > 0
                invariant
                    i <= props.len(),
                    s@ == SlotV::Object(s->Object_0, props_view(props@)),
                    lookup(props_view(props@), key@) == lookup(
                        props_view(props@).subrange(0, i as int),
                        key@,
                    ),
                decreases i,
            {
                let ghost pv = props_view(props@);
                proof {
                    lemma_props_view(props@);
                    assert(pv.subrange(0, i as int).drop_last() =~= pv.subrange(0, i - 1));
                }
                if props[i - 1].0 == *key {
                    return Some(&props[i - 1].1);
                }
                i -= 1;
            }
            proof {
                assert(props_view(props@).subrange(0, 0) =~= Seq::<(Seq<char>, SlotV)>::empty());
            }
            None
        },
        _ => None,
    }
}

/// The text the engine reads from a slot, as [`text_of`] describes.
pub fn read_text(s: &Slot) -> (r: String)
    ensures
        r@ == text_of(s@),
{
    match s {
        Slot::Str(t) => t.clone(),
        _ => String::new(),
    }
}

/// The number the engine reads from a slot, as [`number_of`] describes.
pub fn read_number(s: &Slot) -> (r: u64)
    ensures
        r == number_of(s@),
{
    match s {
        Slot::Number(n) => *n,
        _ => NAN_BITS,
    }
}

/// The engine's error code of a slot.
pub fn read_error_code(s: &Slot) -> (r: u32)
    ensures
        r == error_code_of(s@),
{
    match s {
        Slot::Object(ObjectClass::Error(c), _) => *c,
        _ => ERR_NONE,
    }
}

fn get_string_property(s: &Slot, key: &String) -> (r: Option<String>)
    ensures
        opt_text(r) == string_property(s@, key@),
{
    match get_property(s, key) {
        Some(v) => Some(read_text(v)),
        None => None,
    }
}

impl JsError {
    /// Extracts the structured error from a thrown value whose safe string conversion is `text`.
    /// It reads the error code, then the `message`, `fileName`, `lineNumber` and `stack`
    /// properties.
    pub fn from_thrown(s: &Slot, text: &String) -> (e: JsError)
        requires
            known_code(error_code_of(s@)),
        ensures
            is_error_of(e, s@, text@),
    {
        let kind = JsErrorKind::from_raw(read_error_code(s));
        let message = match get_string_property(s, &"message".to_owned()) {
            Some(m) => m,
            None => text.clone(),
        };
        let file_name = match get_string_property(s, &"fileName".to_owned()) {
            Some(n) => if n.as_str().is_empty() {
                None
            } else {
                Some(n)
            },
            None => None,
        };
        let line_number = match get_property(s, &"lineNumber".to_owned()) {
            Some(v) => {
                let bits = read_number(v);
                if bits_are_nan(bits) {
                    None
                } else {
                    Some(truncate_to_usize(bits))
                }
            },
            None => None,
        };
        let stack = get_string_property(s, &"stack".to_owned());
        JsError { kind, message, file_name, line_number, stack }
    }
}

} // verus!
