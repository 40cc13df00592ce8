use rogic_memory::ErrorType;
use rogic_memory::PrimitiveType;
use rogic_memory::Symbol;
use rogic_memory::Value;

fn float(f: f64) -> Value {
    Value::make_float_bits(f.to_bits())
}

#[test]
fn value_nil_classification() {
    let null = Value::make_null();
    assert!(null.is_null());
    assert!(!null.is_undefined());
    assert!(null.is_nil());
    assert!(!null.is_number());
    assert!(!null.is_slotted());
    assert!(!null.as_boolean());
    assert!(null.is_nan());
    assert!(!null.is_finite());
    assert!(!null.is_sign_positive());
    assert!(!null.is_sign_negative());
    assert_eq!(null.extract_integer(10), 10);
    assert_eq!(null.extract_cardinal(10), 10);

    let undefined = Value::make_undefined();
    assert!(undefined.is_undefined());
    assert!(undefined.is_nil());
    assert_eq!(undefined.get_primitive_type(), PrimitiveType::Undefined);
    assert_eq!(undefined.extract_integer(7), 7);
}

#[test]
fn value_booleans() {
    let yes = Value::make_boolean(true);
    let no = Value::make_boolean(false);
    assert!(yes.is_boolean() && no.is_boolean());
    assert!(!yes.is_list());
    assert!(yes.as_boolean());
    assert!(!no.as_boolean());
    assert_eq!(yes.extract_integer(5), 1);
    assert_eq!(no.extract_integer(5), 0);
    assert_eq!(yes.extract_cardinal(5), 1);
    assert!(yes.get_boolean_data().unwrap());
    assert!(!no.get_boolean_data().unwrap());
    assert_eq!(Value::make_null().get_boolean_data().unwrap_err().get_type(), ErrorType::TypeNotMatch);
}

#[test]
fn value_cardinal_max() {
    let value = Value::make_cardinal(0xffff_ffff);
    assert!(value.is_integer());
    assert!(value.is_cardinal());
    assert!(value.is_number());
    assert!(!value.is_nan());
    assert!(value.is_finite());
    assert!(value.is_sign_positive());
    assert!(!value.is_sign_negative());
    assert!(value.as_boolean());
    assert_eq!(value.extract_integer(1), 1);
    assert_eq!(value.extract_cardinal(1), 0xffff_ffff);
    assert_eq!(value.get_cardinal_data().unwrap(), 0xffff_ffff);
    assert_eq!(value.get_integer_data().unwrap_err().get_type(), ErrorType::IntegerOutOfRange);
}

#[test]
fn value_integer_negative() {
    let value = Value::make_integer(-1);
    assert!(value.is_integer());
    assert!(!value.is_cardinal());
    assert!(!value.is_sign_positive());
    assert!(value.is_sign_negative());
    assert!(value.as_boolean());
    assert_eq!(value.extract_integer(1), -1);
    assert_eq!(value.extract_cardinal(1), 1);
    assert_eq!(value.get_integer_data().unwrap(), -1);
    assert_eq!(value.get_cardinal_data().unwrap_err().get_type(), ErrorType::IntegerOutOfRange);
}

#[test]
fn value_integer_zero() {
    let value = Value::make_integer(0);
    assert!(!value.as_boolean());
    assert_eq!(value.get_integer_data().unwrap(), 0);
    assert_eq!(value.get_cardinal_data().unwrap(), 0);
    assert_eq!(value, Value::make_cardinal(0));
    assert_eq!(Value::make_integer(i32::MIN).get_integer_data().unwrap(), i32::MIN);
    assert_eq!(Value::make_integer(i32::MAX).get_integer_data().unwrap(), i32::MAX);
}

#[test]
fn value_floats() {
    let value = float(1.5);
    assert!(value.is_float());
    assert!(value.is_number());
    assert!(value.is_finite());
    assert!(!value.is_nan());
    assert_eq!(value.extract_integer(9), 1);
    assert_eq!(value.extract_cardinal(9), 1);
    assert_eq!(value.get_float_bits().unwrap(), 1.5f64.to_bits());

    assert_eq!(float(-2.7).extract_integer(9), -2);
    assert_eq!(float(-2.7).extract_cardinal(9), 9);
    assert_eq!(float(-0.0).extract_cardinal(9), 0);
    assert!(!float(-0.0).as_boolean());
    assert!(!float(0.0).as_boolean());
    assert!(float(0.1).as_boolean());
    assert!(float(-0.0).is_sign_negative());
    assert_ne!(float(-0.0), float(0.0));
    assert_eq!(float(2147483647.5).extract_integer(9), 2147483647);
    assert_eq!(float(2147483648.0).extract_integer(9), 9);
    assert_eq!(float(-2147483648.0).extract_integer(9), i32::MIN);
    assert_eq!(float(-2147483648.5).extract_integer(9), 9);
    assert_eq!(float(4294967295.9).extract_cardinal(9), 4294967295);
    assert_eq!(float(4294967296.0).extract_cardinal(9), 9);
    assert_eq!(float(1e-300).extract_integer(9), 0);
    assert_eq!(float(1e300).extract_integer(9), 9);
    assert_eq!(Value::make_integer(3).get_float_bits().unwrap_err().get_type(), ErrorType::TypeNotMatch);
}

#[test]
fn value_float_specials() {
    let infinity = float(f64::INFINITY);
    assert!(infinity.is_float());
    assert!(infinity.is_infinite());
    assert!(!infinity.is_finite());
    assert!(infinity.is_sign_positive());
    assert_eq!(infinity.extract_integer(9), 9);
    assert!(float(f64::NEG_INFINITY).is_sign_negative());

    let nan = float(f64::NAN);
    assert!(nan.is_float());
    assert!(nan.is_nan());
    assert!(!nan.is_sign_positive());
    assert!(!nan.is_sign_negative());
    assert_eq!(nan.extract_integer(9), 9);
    assert!(nan.as_boolean());
    let other_nan = Value::make_float_bits(0x7ffc_0000_0000_0001);
    assert!(other_nan.is_float());
    assert_eq!(other_nan, nan);
    assert_eq!(nan.get_data(), 0x7ff8_0000_0000_0000);
}

#[test]
fn value_nan_box_round_trip() {
    let cases = [
        (Value::make_undefined(), PrimitiveType::Undefined),
        (Value::make_null(), PrimitiveType::Null),
        (Value::make_boolean(true), PrimitiveType::Boolean),
        (Value::make_boolean(false), PrimitiveType::Boolean),
        (Value::make_integer(-1), PrimitiveType::Integer),
        (Value::make_cardinal(0xffff_ffff), PrimitiveType::Integer),
        (float(-0.0), PrimitiveType::Float),
        (float(f64::INFINITY), PrimitiveType::Float),
        (float(f64::NAN), PrimitiveType::Float),
        (Value::make_symbol(Symbol::new(42)), PrimitiveType::Symbol),
    ];
    for (value, expected) in cases.iter() {
        assert_eq!(value.get_primitive_type(), *expected);
    }
    assert_eq!(Value::make_symbol(Symbol::new(42)).extract_symbol(Symbol::new(0)), Symbol::new(42));
    assert_eq!(Value::make_null().extract_symbol(Symbol::new(3)), Symbol::new(3));
    assert!(Value::make_symbol(Symbol::new(42)).is_symbol());
    assert!(Value::make_symbol(Symbol::new(42)).is_nan());
}

#[test]
fn value_slots() {
    let list = Value::make_list(1, 2);
    assert!(list.is_list());
    assert!(list.is_slotted());
    assert!(!list.is_boolean());
    assert_eq!(list.get_region_id().unwrap(), 1);
    assert_eq!(list.get_region_slot().unwrap(), 2);
    let object = Value::make_object(0xffff_ffff, 577);
    assert!(object.is_object());
    assert_eq!(object.get_region_id().unwrap(), 0xffff_ffff);
    assert_eq!(object.get_region_slot().unwrap(), 577);
    assert!(Value::make_text(3, 4).is_text());
    assert!(Value::make_tuple(3, 4).is_tuple());
    assert!(Value::make_text(3, 4).as_boolean());
    assert_eq!(Value::make_integer(1).get_region_id().unwrap_err().get_type(), ErrorType::TypeNotMatch);
    assert_eq!(Value::make_integer(1).get_region_slot().unwrap_err().get_type(), ErrorType::TypeNotMatch);
}

#[test]
fn value_equality_is_bitwise() {
    assert_eq!(Value::make_integer(1), Value::make_integer(1));
    assert_ne!(Value::make_integer(1), Value::make_cardinal(2));
    assert_ne!(Value::make_integer(-1), Value::make_cardinal(0xffff_ffff));
    assert_ne!(Value::make_list(1, 2), Value::make_tuple(1, 2));
    assert_eq!(float(1.0), float(1.0));
}

#[test]
fn value_extract_float_bits() {
    let default = 7.5f64.to_bits();
    assert_eq!(Value::make_integer(-1).extract_float_bits(default), (-1.0f64).to_bits());
    assert_eq!(Value::make_integer(i32::MIN).extract_float_bits(default), (i32::MIN as f64).to_bits());
    assert_eq!(Value::make_integer(0).extract_float_bits(default), 0.0f64.to_bits());
    assert_eq!(Value::make_integer(12345).extract_float_bits(default), 12345.0f64.to_bits());
    assert_eq!(Value::make_cardinal(0xffff_ffff).extract_float_bits(default), 4294967295.0f64.to_bits());
    assert_eq!(Value::make_cardinal(1).extract_float_bits(default), 1.0f64.to_bits());
    assert_eq!(Value::make_boolean(true).extract_float_bits(default), 1.0f64.to_bits());
    assert_eq!(Value::make_boolean(false).extract_float_bits(default), 0.0f64.to_bits());
    assert_eq!(float(-3.25).extract_float_bits(default), (-3.25f64).to_bits());
    assert_eq!(Value::make_null().extract_float_bits(default), default);
    assert_eq!(Value::make_list(1, 1).extract_float_bits(default), default);
}
