use rogic_memory::Error;
use rogic_memory::ErrorType;
use rogic_memory::ReferenceMap;
use rogic_memory::Value;

#[test]
fn test_add_reference() -> Result<(), Error> {
    let mut reference_map = ReferenceMap::new();

    assert!(reference_map.is_empty());
    reference_map.add_reference(Value::make_undefined())?;

    assert!(!reference_map.is_empty());

    Ok(())
}

#[test]
fn test_multiple_references() -> Result<(), Error> {
    let mut reference_map = ReferenceMap::new();

    assert!(reference_map.is_empty());
    reference_map.add_reference(Value::make_undefined())?;

    assert!(!reference_map.is_empty());
    reference_map.add_reference(Value::make_boolean(true))?;

    assert!(!reference_map.is_empty());
    reference_map.remove_reference(Value::make_undefined())?;

    assert!(!reference_map.is_empty());
    reference_map.remove_reference(Value::make_boolean(true))?;

    assert!(reference_map.is_empty());

    Ok(())
}

#[test]
fn test_remove_reference_not_found() -> Result<(), Error> {
    let mut reference_map = ReferenceMap::new();

    assert!(reference_map.is_empty());
    reference_map.add_reference(Value::make_undefined())?;

    assert!(!reference_map.is_empty());
    assert!(reference_map.remove_reference(Value::make_boolean(true)).is_err());

    assert!(!reference_map.is_empty());
    reference_map.remove_reference(Value::make_undefined())?;

    assert!(reference_map.is_empty());

    Ok(())
}

#[test]
fn test_remove_reference() -> Result<(), Error> {
    let mut reference_map = ReferenceMap::new();

    assert!(reference_map.is_empty());

    reference_map.add_reference(Value::make_undefined())?;
    reference_map.add_reference(Value::make_undefined())?;

    assert!(!reference_map.is_empty());
    reference_map.remove_reference(Value::make_undefined())?;

    assert!(!reference_map.is_empty());
    reference_map.remove_reference(Value::make_undefined())?;

    assert!(reference_map.is_empty());

    Ok(())
}

#[test]
fn reference_map_fails_on_exhausted_value() -> Result<(), Error> {
    let mut reference_map = ReferenceMap::new();
    reference_map.add_reference(Value::make_integer(1))?;
    reference_map.remove_reference(Value::make_integer(1))?;
    let error = reference_map.remove_reference(Value::make_integer(1)).unwrap_err();
    assert_eq!(error.get_type(), ErrorType::FatalError);
    assert!(reference_map.is_empty());
    Ok(())
}
