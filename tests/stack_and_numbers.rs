use duk::keys::key_less;
use duk::number::{truncate_bits, truncate_to_usize};
use duk::{Slot, StackGuard, TypeTag, ValueStack};

#[test]
fn negative_indices_count_from_the_top() {
    let mut st = ValueStack::new();
    st.push(Slot::Null);
    st.push(Slot::Boolean(true));
    st.push(Slot::Pointer);
    assert_eq!(st.normalize(-1), Some(2));
    assert_eq!(st.normalize(-3), Some(0));
    assert_eq!(st.normalize(-4), None);
    assert_eq!(st.normalize(2), Some(2));
    assert_eq!(st.normalize(3), None);
    assert_eq!(st.type_at(-2), TypeTag::Boolean);
    assert_eq!(st.type_at(7), TypeTag::Absent);
}

#[test]
fn guard_pops_back_to_the_recorded_height() {
    let mut st = ValueStack::new();
    st.push(Slot::Null);
    let mut g = StackGuard::new(&st);
    st.push(Slot::Undefined);
    st.push(Slot::Undefined);
    st.push(Slot::Boolean(false));
    g.keep();
    assert_eq!(g.index(), 1);
    g.release(&mut st);
    assert_eq!(st.top(), 2);
}

#[test]
fn guard_never_pops_below_its_height() {
    let mut st = ValueStack::new();
    st.push(Slot::Null);
    st.push(Slot::Null);
    let g = StackGuard::new(&st);
    st.pop();
    g.release(&mut st);
    assert_eq!(st.top(), 1);
}

#[test]
fn truncation_goes_toward_zero() {
    assert_eq!(truncate_bits(5.5f64.to_bits()), 5);
    assert_eq!(truncate_bits(5.5f64.to_bits()), truncate_bits(5.0f64.to_bits()));
    assert_eq!(truncate_bits(0.99f64.to_bits()), 0);
    assert_eq!(truncate_bits((-3.7f64).to_bits()), 0);
    assert_eq!(truncate_bits(f64::NAN.to_bits()), 0);
    assert_eq!(truncate_bits(f64::INFINITY.to_bits()), u64::MAX);
    assert_eq!(truncate_bits(1e30f64.to_bits()), u64::MAX);
    assert_eq!(truncate_bits(9007199254740993.0f64.to_bits()), 9007199254740992);
    assert_eq!(truncate_bits(2251799813685248.5f64.to_bits()), 2251799813685248);
    assert_eq!(truncate_to_usize(123.0f64.to_bits()), 123);
}

#[test]
fn keys_order_by_code_point() {
    let k = |t: &str| t.to_owned();
    assert!(key_less(&k("a"), &k("b")));
    assert!(key_less(&k("a"), &k("ab")));
    assert!(!key_less(&k("ab"), &k("a")));
    assert!(!key_less(&k("a"), &k("a")));
    assert!(key_less(&k("Z"), &k("a")));
    assert!(key_less(&k("n"), &k("ключ")));
    assert!(key_less(&k(""), &k("x")));
}

#[test]
fn signed_truncation_saturates() {
    use_signed();
}

fn use_signed() {
    let t = |x: f64| duk::number::truncate_signed(x.to_bits(), i32::MIN as i64, i32::MAX as i64);
    assert_eq!(t(5.5), 5);
    assert_eq!(t(5.5), t(5.0));
    assert_eq!(t(-5.9), -5);
    assert_eq!(t(-0.5), 0);
    assert_eq!(t(1e12), i32::MAX as i64);
    assert_eq!(t(-1e12), i32::MIN as i64);
    assert_eq!(t(f64::NAN), 0);
    assert_eq!(duk::number::truncate_signed((-9.3e18f64).to_bits(), i64::MIN, i64::MAX), i64::MIN);
    assert_eq!(duk::number::truncate_signed((-9.0e18f64).to_bits(), i64::MIN, i64::MAX), -9000000000000000000);
    assert_eq!(duk::number::truncate_unsigned(300.7f64.to_bits(), 255), 255);
    assert_eq!(duk::number::truncate_unsigned((-3.0f64).to_bits(), 255), 0);
}
