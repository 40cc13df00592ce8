use rogic_memory::List;
use rogic_memory::Tuple;
use rogic_memory::Value;

fn float(f: f64) -> Value {
    Value::make_float_bits(f.to_bits())
}

#[test]
fn list_test_creation() {
    let _list = List::new(Value::make_null(), [Value::make_cardinal(23), Value::make_cardinal(34)].to_vec());
}

#[test]
fn test_list_references() {
    let list = List::new(Value::make_null(), [Value::make_cardinal(23), Value::make_cardinal(34)].to_vec());

    assert_eq!(list.list_referenced_values().len(), 2);
    assert_eq!(list.list_referenced_values()[0], Value::make_cardinal(23));
    assert_eq!(list.list_referenced_values()[1], Value::make_cardinal(34));
}

#[test]
fn list_test_refresh_reference() {
    let mut list = List::new(Value::make_null(), [Value::make_cardinal(23), Value::make_cardinal(34)].to_vec());

    list.refresh_referenced_value(Value::make_cardinal(34), float(3.14));

    assert_eq!(list.get_length(), 2);
    assert_eq!(list.get_element(0), Value::make_cardinal(23));
    assert_eq!(list.get_element(1), float(3.14));
}

#[test]
fn list_test_length() {
    let list = List::new(Value::make_null(), [Value::make_cardinal(23), Value::make_cardinal(34)].to_vec());

    assert_eq!(list.get_length(), 2);
}

#[test]
fn test_elements() {
    let mut list = List::new(Value::make_null(), [Value::make_cardinal(23), Value::make_cardinal(34)].to_vec());

    assert_eq!(list.get_element(0), Value::make_cardinal(23));
    assert_eq!(list.get_element(1), Value::make_cardinal(34));
    assert_eq!(list.get_element(2), Value::make_undefined());

    let (removes, adds) = list.set_element(0, float(3.14));
    assert_eq!(list.get_element(0), float(3.14));
    assert_eq!(removes.len(), 1);
    assert_eq!(removes[0], Value::make_cardinal(23));
    assert_eq!(adds.len(), 1);
    assert_eq!(adds[0], float(3.14));

    let (removes, adds) = list.set_element(4, float(6.14));
    assert_eq!(list.get_element(4), float(6.14));
    assert_eq!(removes.len(), 1);
    assert_eq!(removes[0], Value::make_undefined());
    assert_eq!(adds.len(), 1);
    assert_eq!(adds[0], float(6.14));

    assert_eq!(list.get_element(3), Value::make_undefined());
    assert_eq!(list.get_element(5), Value::make_undefined());
}

#[test]
fn list_keeps_order_of_values() {
    let values = vec![Value::make_integer(3), Value::make_null(), Value::make_integer(-8), Value::make_boolean(true)];
    let list = List::new(Value::make_list(1, 2), values.clone());
    assert_eq!(list.get_value_list(), values);
}

#[test]
fn tuple_test_creation() {
    let _tuple = Tuple::new(Value::make_null(), 0, [Value::make_cardinal(23), Value::make_cardinal(34)].to_vec());
}

#[test]
fn test_tuple_references() {
    let tuple = Tuple::new(Value::make_null(), 0, [Value::make_cardinal(23), Value::make_cardinal(34)].to_vec());

    assert_eq!(tuple.list_referenced_values().len(), 2);
    assert_eq!(tuple.list_referenced_values()[0], Value::make_cardinal(23));
    assert_eq!(tuple.list_referenced_values()[1], Value::make_cardinal(34));
}

#[test]
fn tuple_test_refresh_reference() {
    let mut tuple = Tuple::new(Value::make_null(), 0, [Value::make_cardinal(23), Value::make_cardinal(34)].to_vec());

    tuple.refresh_referenced_value(Value::make_cardinal(34), float(3.14));

    assert_eq!(tuple.get_length(), 2);
    assert_eq!(tuple.get_element(0), Value::make_cardinal(23));
    assert_eq!(tuple.get_element(1), float(3.14));
}

#[test]
fn tuple_test_length() {
    let tuple = Tuple::new(Value::make_null(), 0, [Value::make_cardinal(23), Value::make_cardinal(34)].to_vec());

    assert_eq!(tuple.get_length(), 2);
}

#[test]
fn test_get_element() {
    let tuple = Tuple::new(Value::make_null(), 0, [Value::make_cardinal(23), Value::make_cardinal(34)].to_vec());

    assert_eq!(tuple.get_element(0), Value::make_cardinal(23));
    assert_eq!(tuple.get_element(1), Value::make_cardinal(34));
    assert_eq!(tuple.get_element(2), Value::make_undefined());
    assert_eq!(tuple.get_id(), 0);
}
