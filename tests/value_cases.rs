use rogic_memory::Error;
use rogic_memory::Value;

fn float(f: f64) -> Value {
    Value::make_float_bits(f.to_bits())
}

fn extract_float(value: &Value, default: f64) -> f64 {
    f64::from_bits(value.extract_float_bits(default.to_bits()))
}

fn get_float_data(value: &Value) -> Result<f64, Error> {
    value.get_float_bits().map(f64::from_bits)
}

#[test]
fn test_null() {
    let value = Value::make_null();
    assert!(value.is_null());
    assert!(!value.is_undefined());
    assert!(value.is_nil());
    assert!(!value.is_boolean());
    assert!(!value.is_integer());
    assert!(!value.is_float());
    assert!(!value.is_number());
    assert!(!value.is_slotted());
    assert!(!value.is_symbol());
    assert!(!value.is_tuple());
    assert!(!value.is_object());
    assert!(!value.is_text());
    assert!(!value.is_list());
    assert!(!value.as_boolean());
    assert!(value.is_nan());
    assert!(!value.is_finite());
    assert!(!value.is_infinite());
    assert!(!value.is_sign_positive());
    assert!(!value.is_sign_negative());
    assert_eq!(value.extract_integer(0), 0);
    assert_eq!(value.extract_integer(10), 10);
    assert_eq!(value.extract_cardinal(0), 0);
    assert_eq!(value.extract_cardinal(10), 10);
    assert_eq!(extract_float(&value, 0.0), 0.0);
    assert_eq!(extract_float(&value, 10.0), 10.0);
}

#[test]
fn test_undefined() {
    let value = Value::make_undefined();
    assert!(!value.is_null());
    assert!(value.is_undefined());
    assert!(value.is_nil());
    assert!(!value.is_boolean());
    assert!(!value.is_integer());
    assert!(!value.is_float());
    assert!(!value.is_number());
    assert!(!value.is_slotted());
    assert!(!value.is_tuple());
    assert!(!value.is_object());
    assert!(!value.is_text());
    assert!(!value.is_list());
    assert!(!value.as_boolean());
    assert!(value.is_nan());
    assert!(!value.is_finite());
    assert!(!value.is_infinite());
    assert!(!value.is_sign_positive());
    assert!(!value.is_sign_negative());
    assert_eq!(value.extract_integer(0), 0);
    assert_eq!(value.extract_integer(10), 10);
    assert_eq!(value.extract_cardinal(0), 0);
    assert_eq!(value.extract_cardinal(10), 10);
    assert_eq!(extract_float(&value, 0.0), 0.0);
    assert_eq!(extract_float(&value, 10.0), 10.0);
}

#[test] 
fn test_boolean_true() {
    let value = Value::make_boolean(true);
    assert!(!value.is_null());
    assert!(!value.is_undefined());
    assert!(!value.is_nil());
    assert!(value.is_boolean());
    assert!(!value.is_integer());
    assert!(!value.is_float());
    assert!(!value.is_number());
    assert!(!value.is_slotted());
    assert!(!value.is_tuple());
    assert!(!value.is_list());
    assert!(!value.is_object());
    assert!(!value.is_text());
    assert!(value.is_nan());
    assert!(!value.is_finite());
    assert!(!value.is_infinite());
    assert!(!value.is_sign_positive());
    assert!(!value.is_sign_negative());
    assert!(value.as_boolean());
    assert_eq!(value.extract_integer(0), 1);
    assert_eq!(value.extract_cardinal(0), 1);
    assert_eq!(extract_float(&value, 0.0), 1.0);
    match value.get_boolean_data() {
        Ok(value) => assert!(value),
        _ => panic!("Failed to get boolean data")
    }
}

#[test] 
fn test_boolean_false() {
    let value = Value::make_boolean(false);
    assert!(!value.is_null());
    assert!(!value.is_undefined());
    assert!(!value.is_nil());
    assert!(value.is_boolean());
    assert!(!value.is_integer());
    assert!(!value.is_float());
    assert!(!value.is_number());
    assert!(!value.is_slotted());
    assert!(!value.is_tuple());
    assert!(!value.is_object());
    assert!(!value.is_text());
    assert!(!value.is_list());
    assert!(value.is_nan());
    assert!(!value.is_finite());
    assert!(!value.is_infinite());
    assert!(!value.is_sign_positive());
    assert!(!value.is_sign_negative());
    assert!(!value.as_boolean());
    assert_eq!(value.extract_integer(1), 0);
    assert_eq!(value.extract_cardinal(1), 0);
    assert_eq!(extract_float(&value, 1.0), 0.0);
    match value.get_boolean_data() {
        Ok(value) => assert!(!value),
        _ => panic!("Failed to get boolean data")
    }
}

#[test]
fn test_cardinal() {
    let value = Value::make_cardinal(0xffff_ffff);
    assert!(!value.is_null());
    assert!(!value.is_undefined());
    assert!(!value.is_nil());
    assert!(!value.is_boolean());
    assert!(value.is_integer());
    assert!(value.is_cardinal());
    assert!(!value.is_float());
    assert!(value.is_number());
    assert!(!value.is_slotted());
    assert!(!value.is_tuple());
    assert!(!value.is_object());
    assert!(!value.is_text());
    assert!(!value.is_list());
    assert!(!value.is_nan());
    assert!(value.is_finite());
    assert!(!value.is_infinite());
    assert!(value.is_sign_positive());
    assert!(!value.is_sign_negative());
    assert!(value.as_boolean());
    assert_eq!(value.extract_integer(1), 1);
    assert_eq!(value.extract_cardinal(1), 0xffff_ffff);
    assert_eq!(extract_float(&value, 1.0), (0xffff_ffff as u32) as f64);
    match value.get_cardinal_data() {
        Ok(value) => assert_eq!(value, 0xffff_ffff),
        _ => panic!("Failed to get cardinal data")
    }
    if let Ok(_) = value.get_integer_data() {
        panic!("Cardinal value should be overflow");
    }
}

#[test]
fn test_cardinal_zero() {
    let value = Value::make_cardinal(0);
    assert!(!value.is_null());
    assert!(!value.is_undefined());
    assert!(!value.is_nil());
    assert!(!value.is_boolean());
    assert!(value.is_integer());
    assert!(value.is_cardinal());
    assert!(!value.is_float());
    assert!(value.is_number());
    assert!(!value.is_slotted());
    assert!(!value.is_tuple());
    assert!(!value.is_object());
    assert!(!value.is_text());
    assert!(!value.is_list());
    assert!(!value.is_nan());
    assert!(value.is_finite());
    assert!(!value.is_infinite());
    assert!(value.is_sign_positive());
    assert!(!value.is_sign_negative());
    assert!(!value.as_boolean());
    assert_eq!(value.extract_integer(1), 0);
    assert_eq!(value.extract_cardinal(1), 0);
    assert_eq!(extract_float(&value, 1.0), 0.0);
    match value.get_cardinal_data() {
        Ok(value) => assert_eq!(value, 0),
        _ => panic!("Failed to get cardinal data")
    }
    match value.get_integer_data() {
        Ok(value) => assert_eq!(value, 0),
        _ => panic!("Failed to get integer data")
    }
}

#[test]
fn test_integer() {
    let value = Value::make_integer(0x7fff_ffff);
    assert!(!value.is_null());
    assert!(!value.is_undefined());
    assert!(!value.is_nil());
    assert!(!value.is_boolean());
    assert!(value.is_integer());
    assert!(value.is_cardinal());
    assert!(!value.is_float());
    assert!(value.is_number());
    assert!(!value.is_slotted());
    assert!(!value.is_tuple());
    assert!(!value.is_object());
    assert!(!value.is_text());
    assert!(!value.is_list());
    assert!(!value.is_nan());
    assert!(value.is_finite());
    assert!(!value.is_infinite());
    assert!(value.is_sign_positive());
    assert!(!value.is_sign_negative());
    assert!(value.as_boolean());
    assert_eq!(value.extract_integer(1), 0x7fff_ffff);
    assert_eq!(value.extract_cardinal(1), 0x7fff_ffff);
    assert_eq!(extract_float(&value, 1.0), 0x7fff_ffff as f64);
    match value.get_cardinal_data() {
        Ok(value) => assert_eq!(value, 0x7fff_ffff),
        _ => panic!("Failed to get cardinal data")
    }
    match value.get_integer_data() {
        Ok(value) => assert_eq!(value, 0x7fff_ffff),
        _ => panic!("Failed to get integer data")
    }
}

#[test]
fn test_integer_zero() {
    let value = Value::make_integer(0);
    assert!(!value.is_null());
    assert!(!value.is_undefined());
    assert!(!value.is_nil());
    assert!(!value.is_boolean());
    assert!(value.is_integer());
    assert!(value.is_cardinal());
    assert!(!value.is_float());
    assert!(value.is_number());
    assert!(!value.is_slotted());
    assert!(!value.is_tuple());
    assert!(!value.is_object());
    assert!(!value.is_text());
    assert!(!value.is_list());
    assert!(!value.is_nan());
    assert!(value.is_finite());
    assert!(!value.is_infinite());
    assert!(value.is_sign_positive());
    assert!(!value.is_sign_negative());
    assert!(!value.as_boolean());
    assert_eq!(value.extract_integer(1), 0);
    assert_eq!(value.extract_cardinal(1), 0);
    assert_eq!(extract_float(&value, 1.0), 0.0);
    match value.get_cardinal_data() {
        Ok(value) => assert_eq!(value, 0),
        _ => panic!("Failed to get cardinal data")
    }
    match value.get_integer_data() {
        Ok(value) => assert_eq!(value, 0),
        _ => panic!("Failed to get integer data")
    }
}

#[test]
fn test_integer_negative() {
    let value = Value::make_integer(-1);
    assert!(!value.is_null());
    assert!(!value.is_undefined());
    assert!(!value.is_nil());
    assert!(!value.is_boolean());
    assert!(value.is_integer());
    assert!(!value.is_cardinal());
    assert!(!value.is_float());
    assert!(value.is_number());
    assert!(!value.is_slotted());
    assert!(!value.is_tuple());
    assert!(!value.is_object());
    assert!(!value.is_text());
    assert!(!value.is_list());
    assert!(!value.is_nan());
    assert!(value.is_finite());
    assert!(!value.is_infinite());
    assert!(!value.is_sign_positive());
    assert!(value.is_sign_negative());
    assert!(value.as_boolean());
    assert_eq!(value.extract_integer(1), -1);
    assert_eq!(value.extract_cardinal(1), 1);
    assert_eq!(extract_float(&value, 1.0), -1.0);
    if let Ok(_) = value.get_cardinal_data() {
        panic!("Cardinal value should be overflow");
    }
    match value.get_integer_data() {
        Ok(value) => assert_eq!(value, -1),
        _ => panic!("Failed to get integer data")
    }
}

#[test]
fn test_float() {
    let value = float(1.0);
    assert!(!value.is_null());
    assert!(!value.is_undefined());
    assert!(!value.is_nil());
    assert!(!value.is_boolean());
    assert!(!value.is_integer());
    assert!(!value.is_cardinal());
    assert!(value.is_float());
    assert!(value.is_number());
    assert!(!value.is_slotted());
    assert!(!value.is_tuple());
    assert!(!value.is_object());
    assert!(!value.is_text());
    assert!(!value.is_list());
    assert!(!value.is_nan());
    assert!(value.is_finite());
    assert!(!value.is_infinite());
    assert!(value.is_sign_positive());
    assert!(!value.is_sign_negative());
    assert!(value.as_boolean());
    assert_eq!(value.extract_integer(1), 1);
    assert_eq!(value.extract_cardinal(1), 1);
    assert_eq!(extract_float(&value, 0.0), 1.0);
    match get_float_data(&value) {
        Ok(value) => assert_eq!(value, 1.0),
        _ => panic!("Failed to get float data")
    }
}

#[test]
fn test_float_zero() {
    let value = float(0.0);
    assert!(!value.is_null());
    assert!(!value.is_undefined());
    assert!(!value.is_nil());
    assert!(!value.is_boolean());
    assert!(!value.is_integer());
    assert!(!value.is_cardinal());
    assert!(value.is_float());
    assert!(value.is_number());
    assert!(!value.is_slotted());
    assert!(!value.is_tuple());
    assert!(!value.is_object());
    assert!(!value.is_text());
    assert!(!value.is_list());
    assert!(!value.is_nan());
    assert!(value.is_finite());
    assert!(!value.is_infinite());
    assert!(value.is_sign_positive());
    assert!(!value.is_sign_negative());
    assert!(!value.as_boolean());
    assert_eq!(value.extract_integer(1), 0);
    assert_eq!(value.extract_cardinal(1), 0);
    assert_eq!(extract_float(&value, 1.0), 0.0);
    match get_float_data(&value) {
        Ok(value) => assert_eq!(value, 0.0),
        _ => panic!("Failed to get float data")
    }
}

#[test]
fn test_float_negative() {
    let value = float(-1.0);
    assert!(!value.is_null());
    assert!(!value.is_undefined());
    assert!(!value.is_nil());
    assert!(!value.is_boolean());
    assert!(!value.is_integer());
    assert!(!value.is_cardinal());
    assert!(value.is_float());
    assert!(value.is_number());
    assert!(!value.is_slotted());
    assert!(!value.is_tuple());
    assert!(!value.is_object());
    assert!(!value.is_text());
    assert!(!value.is_list());
    assert!(!value.is_nan());
    assert!(value.is_finite());
    assert!(!value.is_infinite());
    assert!(!value.is_sign_positive());
    assert!(value.is_sign_negative());
    assert!(value.as_boolean());
    assert_eq!(value.extract_integer(1), -1);
    assert_eq!(value.extract_cardinal(1), 1);
    assert_eq!(extract_float(&value, 0.0), -1.0);
    match get_float_data(&value) {
        Ok(value) => assert_eq!(value, -1.0),
        _ => panic!("Failed to get float data")
    }
}

#[test]
fn test_float_nan() {
    let value = float(f64::NAN);
    assert!(!value.is_null());
    assert!(!value.is_undefined());
    assert!(!value.is_nil());
    assert!(!value.is_boolean());
    assert!(!value.is_integer());
    assert!(!value.is_cardinal());
    assert!(value.is_float());
    assert!(value.is_number());
    assert!(!value.is_slotted());
    assert!(!value.is_tuple());
    assert!(!value.is_object());
    assert!(!value.is_text());
    assert!(!value.is_list());
    assert!(value.is_nan());
    assert!(!value.is_finite());
    assert!(!value.is_infinite());
    assert!(!value.is_sign_positive());
    assert!(!value.is_sign_negative());
    assert!(value.as_boolean());
    assert_eq!(value.extract_integer(1), 1);
    assert_eq!(value.extract_cardinal(1), 1);
    assert!(extract_float(&value, 0.0).is_nan());
    match get_float_data(&value) {
        Ok(value) => assert!(value.is_nan()),
        _ => panic!("Failed to get float data")
    }
}

#[test]
fn test_float_infinity() {
    let value = float(f64::INFINITY);
    assert!(!value.is_null());
    assert!(!value.is_undefined());
    assert!(!value.is_nil());
    assert!(!value.is_boolean());
    assert!(!value.is_integer());
    assert!(!value.is_cardinal());
    assert!(value.is_float());
    assert!(value.is_number());
    assert!(!value.is_slotted());
    assert!(!value.is_tuple());
    assert!(!value.is_object());
    assert!(!value.is_text());
    assert!(!value.is_list());
    assert!(!value.is_nan());
    assert!(!value.is_finite());
    assert!(value.is_infinite());
    assert!(value.is_sign_positive());
    assert!(!value.is_sign_negative());
    assert!(value.as_boolean());
    assert_eq!(value.extract_integer(1), 1);
    assert_eq!(value.extract_cardinal(1), 1);
    assert!(extract_float(&value, 0.0).is_infinite());
    match get_float_data(&value) {
        Ok(value) => assert!(value.is_infinite()),
        _ => panic!("Failed to get float data")
    }
}

#[test]
fn test_float_negative_infinity() {
    let value = float(-f64::INFINITY);
    assert!(!value.is_null());
    assert!(!value.is_undefined());
    assert!(!value.is_nil());
    assert!(!value.is_boolean());
    assert!(!value.is_integer());
    assert!(!value.is_cardinal());
    assert!(value.is_float());
    assert!(value.is_number());
    assert!(!value.is_slotted());
    assert!(!value.is_tuple());
    assert!(!value.is_object());
    assert!(!value.is_text());
    assert!(!value.is_list());
    assert!(!value.is_nan());
    assert!(!value.is_finite());
    assert!(value.is_infinite());
    assert!(!value.is_sign_positive());
    assert!(value.is_sign_negative());
    assert!(value.as_boolean());
    assert_eq!(value.extract_integer(1), 1);
    assert_eq!(value.extract_cardinal(1), 1);
    assert!(extract_float(&value, 0.0).is_infinite());
    match get_float_data(&value) {
        Ok(value) => assert!(value.is_infinite()),
        _ => panic!("Failed to get float data")
    }
}

#[test]
fn value_test_equal() {
    let null_value = Value::make_null();
    let undefined_value = Value::make_undefined();
    let true_value = Value::make_boolean(true);
    let false_value = Value::make_boolean(false);
    let zero_value = Value::make_integer(0);
    let zero_value_2 = Value::make_integer(0);
    let zero_value_3 = Value::make_cardinal(0);
    let zero_float_value = float(0.0);
    let one_value = Value::make_integer(1);
    let one_value_2 = Value::make_integer(1);
    let one_value_3 = Value::make_cardinal(1);
    let negative_value = Value::make_integer(-1);
    let negative_float_value = float(-1.0);
    let negative_float_value_2 = float(-1.0);
    assert_ne!(null_value, undefined_value);
    assert_ne!(null_value, true_value);
    assert_ne!(null_value, false_value);
    assert_ne!(null_value, zero_value);
    assert_ne!(null_value, zero_value_2);
    assert_ne!(null_value, zero_value_3);
    assert_ne!(null_value, zero_float_value);
    assert_ne!(null_value, one_value);
    assert_ne!(null_value, one_value_2);
    assert_ne!(null_value, one_value_3);
    assert_ne!(null_value, negative_value);
    assert_ne!(null_value, negative_float_value);
    assert_ne!(true_value, false_value);
    assert_ne!(true_value, zero_value);
    assert_ne!(zero_value, one_value);
    assert_ne!(zero_value, negative_value);
    assert_ne!(zero_value, negative_float_value);
    assert_ne!(zero_value, zero_float_value);
    assert_ne!(zero_float_value, negative_float_value);
    assert_ne!(one_value, negative_value);
    assert_ne!(one_value, negative_float_value);
    assert_ne!(one_value, zero_float_value);
    assert_ne!(negative_value, negative_float_value);
    assert_eq!(zero_value, zero_value_2);
    assert_eq!(one_value, one_value_2);
    assert_eq!(negative_float_value, negative_float_value_2);
    assert!(zero_value.number_eq(&zero_float_value));
    assert!(negative_value.number_eq(&negative_float_value));
}
