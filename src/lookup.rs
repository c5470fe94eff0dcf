//! Property lookup as the engine performs it on each kind of value: object properties, array
//! elements, string code units, buffer bytes, and the `length` of each indexed kind.
use vstd::prelude::*;
use vstd::string::StrSliceExecFns;
use crate::error::{get_property, lookup};
use crate::number::{double_bits, double_of};
use crate::stack::{lemma_items_view, Slot, SlotV};

verus! {

/// Largest count whose double is exact.
pub const EXACT_LIMIT: u64 = 0x20_0000_0000_0000;

pub open spec fn is_digit(c: char) -> bool {
    48 <= (c as int) <= 57
}

/// The number that a sequence of decimal digits spells.
pub open spec fn decimal_value(t: Seq<char>) -> int
    decreases t.len(),
{
    if t.len() == 0 {
        0
    } else {
        decimal_value(t.drop_last()) * 10 + ((t.last() as int) - 48)
    }
}

/// The array index that a property name denotes: a canonical decimal numeral (no sign, no
/// leading zero) below 2^32 - 1.
pub open spec fn array_index_of(name: Seq<char>) -> Option<int> {
    if name.len() > 0 && (forall|i: int| 0 <= i < name.len() ==> is_digit(#[trigger] name[i])) && (
    name.len() == 1 || name[0] != '0') && decimal_value(name) < 0xffff_ffff {
        Some(decimal_value(name))
    } else {
        None
    }
}

/// How many UTF-16 code units a character takes.
pub open spec fn units(c: char) -> int {
    if (c as int) >= 0x10000 {
        2
    } else {
        1
    }
}

/// The length of a string in UTF-16 code units, which is what the engine counts.
pub open spec fn utf16_len(t: Seq<char>) -> int
    decreases t.len(),
{
    if t.len() == 0 {
        0
    } else {
        units(t[0]) + utf16_len(t.drop_first())
    }
}

/// The character that the code unit at position `i` is, where it is a whole character; a
/// unit that is half of a surrogate pair has none.
pub open spec fn unit_char(t: Seq<char>, i: int) -> Option<char>
    decreases t.len(),
{
    if t.len() == 0 || i < 0 {
        None
    } else if i == 0 {
        if units(t[0]) == 1 {
            Some(t[0])
        } else {
            None
        }
    } else if i < units(t[0]) {
        None
    } else {
        unit_char(t.drop_first(), i - units(t[0]))
    }
}

/// The `length` property of an indexed value with `n` entries, where its double is exact.
pub open spec fn length_slot(n: int) -> Option<SlotV> {
    if 0 <= n < EXACT_LIMIT {
        Some(SlotV::Number(double_of(n as u64)))
    } else {
        None
    }
}

/// The own property `name` of a value: a property of an object; an element of an array; a
/// one-unit string of a string; a byte of a buffer; or the `length` of the last three. Other
/// values have no own properties.
pub open spec fn own_property(s: SlotV, name: Seq<char>) -> Option<SlotV> {
    match s {
        SlotV::Object(_, props) => lookup(props, name),
        SlotV::Array(items) => if name == "length"@ {
            length_slot(items.len() as int)
        } else {
            match array_index_of(name) {
                Some(i) => if i < items.len() {
                    Some(items[i])
                } else {
                    None
                },
                None => None,
            }
        },
        SlotV::Str(t) => if name == "length"@ {
            length_slot(utf16_len(t))
        } else {
            match array_index_of(name) {
                Some(i) => match unit_char(t, i) {
                    Some(c) => Some(SlotV::Str(seq![c])),
                    None => None,
                },
                None => None,
            }
        },
        SlotV::Buffer(b) => if name == "length"@ {
            length_slot(b.len() as int)
        } else {
            match array_index_of(name) {
                Some(i) => if i < b.len() {
                    Some(SlotV::Number(double_of(b[i] as u64)))
                } else {
                    None
                },
                None => None,
            }
        },
        _ => None,
    }
}

/// What reading property `name` of `s` gives: its own property, or else `inherited`, the
/// engine's answer from the prototype chain (`undefined` where nothing is found there).
pub open spec fn property_value(s: SlotV, name: Seq<char>, inherited: SlotV) -> SlotV {
    match own_property(s, name) {
        Some(v) => v,
        None => inherited,
    }
}

/// Parses a property name as an array index, as [`array_index_of`] describes.
pub fn parse_index(name: &String) -> (r: Option<u64>)
    ensures
        match r {
            Some(i) => array_index_of(name@) == Some(i as int),
            None => array_index_of(name@) is None,
        },
{
    let t = name.as_str();
    let n = t.unicode_len();
    if n == 0 {
        return None;
    }
    let cap: u64 = 0x1_0000_0000;
    let mut acc: u64 = 0;
    let mut i: usize = 0;
    proof {
        assert(name@.subrange(0, 0).len() == 0);
    }
    while i < n
        invariant
            cap == 0x1_0000_0000,
            n == name@.len(),
            t@ == name@,
            i <= n,
            forall|j: int| 0 <= j < i ==> is_digit(#[trigger] name@[j]),
            decimal_value(name@.subrange(0, i as int)) >= 0,
            acc == if decimal_value(name@.subrange(0, i as int)) >= cap {
                cap as int
            } else {
                decimal_value(name@.subrange(0, i as int))
            },
        decreases n - i,
    {
        let c = t.get_char(i);
        if (c as u32) < 48 || (c as u32) > 57 {
            return None;
        }
        let d = (c as u32 - 48) as u64;
        proof {
            let p = name@.subrange(0, i + 1);
            assert(p.drop_last() =~= name@.subrange(0, i as int));
            assert(p.last() == c);
        }
        if acc < cap {
            assert(acc * 10 + d <= 0x1_0000_0000 * 10 + 9) by (nonlinear_arith)
                requires
                    acc < 0x1_0000_0000,
                    d <= 9,
            ;
        }
        acc = if acc >= cap {
            cap
        } else if acc * 10 + d > cap {
            cap
        } else {
            acc * 10 + d
        };
        i += 1;
    }
    proof {
        assert(name@.subrange(0, n as int) =~= name@);
    }
    if n > 1 && t.get_char(0) == '0' {
        return None;
    }
    if acc >= 0xffff_ffff {
        return None;
    }
    Some(acc)
}

proof fn lemma_utf16_len_nonneg(t: Seq<char>)
    ensures
        utf16_len(t) >= 0,
    decreases t.len(),
{
    if t.len() > 0 {
        lemma_utf16_len_nonneg(t.drop_first());
    }
}

/// The UTF-16 length of a string, where it is below [`EXACT_LIMIT`].
pub fn utf16_length(s: &String) -> (r: Option<u64>)
    ensures
        match r {
            Some(n) => utf16_len(s@) == n as int && n < EXACT_LIMIT,
            None => utf16_len(s@) >= EXACT_LIMIT,
        },
{
    let t = s.as_str();
    let n = t.unicode_len();
    let mut pos: u64 = 0;
    let mut j: usize = 0;
    proof {
        assert(s@.subrange(0, n as int) =~= s@);
    }
    while j < n
        invariant
            n == s@.len(),
            t@ == s@,
            j <= n,
            pos < EXACT_LIMIT,
            utf16_len(s@) == pos + utf16_len(s@.subrange(j as int, n as int)),
        decreases n - j,
    {
        let c = t.get_char(j);
        let u: u64 = if (c as u32) >= 0x10000 {
            2
        } else {
            1
        };
        proof {
            let rest = s@.subrange(j as int, n as int);
            assert(rest[0] == c);
            assert(rest.drop_first() =~= s@.subrange(j + 1, n as int));
            lemma_utf16_len_nonneg(s@.subrange(j + 1, n as int));
        }
        if pos + u >= EXACT_LIMIT {
            return None;
        }
        pos = pos + u;
        j += 1;
    }
    proof {
        assert(s@.subrange(n as int, n as int).len() == 0);
    }
    Some(pos)
}

/// The character at code unit `i` of a string, as [`unit_char`] describes, as a string.
fn unit_at(s: &String, i: u64) -> (r: Option<String>)
    ensures
        match r {
            Some(c) => unit_char(s@, i as int) matches Some(ch) && c@ == seq![ch],
            None => unit_char(s@, i as int) is None,
        },
{
    let t = s.as_str();
    let n = t.unicode_len();
    let mut pos: u64 = 0;
    let mut j: usize = 0;
    proof {
        assert(s@.subrange(0, n as int) =~= s@);
    }
    while j < n
        invariant
            n == s@.len(),
            t@ == s@,
            j <= n,
            pos <= i,
            unit_char(s@, i as int) == unit_char(s@.subrange(j as int, n as int), i - pos),
        decreases n - j,
    {
        let c = t.get_char(j);
        let u: u64 = if (c as u32) >= 0x10000 {
            2
        } else {
            1
        };
        proof {
            let rest = s@.subrange(j as int, n as int);
            assert(rest[0] == c);
            assert(rest.drop_first() =~= s@.subrange(j + 1, n as int));
        }
        if pos == i {
            if u == 1 {
                let one = t.substring_char(j, j + 1);
                proof {
                    assert(one@ =~= seq![c]);
                }
                return Some(one.to_owned());
            }
            return None;
        }
        if i - pos < u {
            return None;
        }
        pos = pos + u;
        j += 1;
    }
    None
}

/// Reads property `name` of a slot, as [`property_value`] describes.
pub fn read_property(s: &Slot, name: &String, inherited: Slot) -> (r: Slot)
    ensures
        r@ == property_value(s@, name@, inherited@),
{
    proof {
        reveal_strlit("length");
    }
    let is_length = *name == "length".to_owned();
    let own: Option<Slot> = match s {
        Slot::Object(_, _) => match get_property(s, name) {
            Some(v) => Some(v.duplicate()),
            None => None,
        },
        Slot::Array(items) => {
            proof {
                lemma_items_view(items@);
            }
            if is_length {
                if (items.len() as u64) < EXACT_LIMIT {
                    Some(Slot::Number(double_bits(items.len() as u64)))
                } else {
                    None
                }
            } else {
                match parse_index(name) {
                    Some(i) => if i < items.len() as u64 {
                        Some(items[i as usize].duplicate())
                    } else {
                        None
                    },
                    None => None,
                }
            }
        },
        Slot::Str(t) => {
            if is_length {
                match utf16_length(t) {
                    Some(n) => Some(Slot::Number(double_bits(n))),
                    None => None,
                }
            } else {
                match parse_index(name) {
                    Some(i) => match unit_at(t, i) {
                        Some(c) => Some(Slot::Str(c)),
                        None => None,
                    },
                    None => None,
                }
            }
        },
        Slot::Buffer(b) => {
            if is_length {
                if (b.len() as u64) < EXACT_LIMIT {
                    Some(Slot::Number(double_bits(b.len() as u64)))
                } else {
                    None
                }
            } else {
                match parse_index(name) {
                    Some(i) => if i < b.len() as u64 {
                        Some(Slot::Number(double_bits(b[i as usize] as u64)))
                    } else {
                        None
                    },
                    None => None,
                }
            }
        },
        _ => None,
    };
    match own {
        Some(v) => v,
        None => inherited,
    }
}

} // verus!
