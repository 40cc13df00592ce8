use rogic_memory::Error;
use rogic_memory::ErrorType;
use rogic_memory::OwnProperties;
use rogic_memory::SymbolIdGenerator;
use rogic_memory::SymbolScope;
use rogic_memory::Value;

#[test]
fn own_properties_balance_symbol_references() -> Result<(), Error> {
    let mut generator = SymbolIdGenerator::new();
    let mut scope = SymbolScope::new("properties");
    let k = scope.get_text_symbol(&mut generator, "k");
    let j = scope.get_text_symbol(&mut generator, "j");
    let mut properties = OwnProperties::new();

    properties.set_own_property(&mut scope, k, Value::make_integer(1))?;
    properties.set_own_property(&mut scope, k, Value::make_integer(2))?;
    properties.define_own_property(&mut scope, j, Value::make_null())?;
    assert_eq!(properties.get_own_property(k), Some(Value::make_integer(2)));
    assert_eq!(properties.get_own_property(j), Some(Value::make_null()));
    assert_eq!(properties.list_own_property_symbols(), vec![k, j]);

    assert!(scope.recycle_symbol(k).is_err());
    properties.delete_own_property(&mut scope, k)?;
    assert!(!properties.has_own_property(k));
    assert!(scope.recycle_symbol(k).is_ok());
    assert_eq!(
        properties.delete_own_property(&mut scope, k).unwrap_err().get_type(),
        ErrorType::PropertyNotFound
    );
    assert!(properties.has_own_property(j));
    Ok(())
}

#[test]
fn own_properties_sealed_reject_changes() -> Result<(), Error> {
    let mut generator = SymbolIdGenerator::new();
    let mut scope = SymbolScope::new("properties");
    let k = scope.get_text_symbol(&mut generator, "k");
    let mut properties = OwnProperties::new();
    properties.set_own_property(&mut scope, k, Value::make_integer(1))?;
    properties.seal();
    assert!(properties.is_sealed());
    assert_eq!(
        properties.set_own_property(&mut scope, k, Value::make_integer(2)).unwrap_err().get_type(),
        ErrorType::MutatingSealedProperty
    );
    assert_eq!(
        properties.delete_own_property(&mut scope, k).unwrap_err().get_type(),
        ErrorType::MutatingSealedProperty
    );
    assert_eq!(properties.get_own_property(k), Some(Value::make_integer(1)));
    Ok(())
}

#[test]
fn own_properties_replacement_reports_reference_changes() -> Result<(), Error> {
    let mut generator = SymbolIdGenerator::new();
    let mut scope = SymbolScope::new("properties");
    let k = scope.get_text_symbol(&mut generator, "k");
    let a = Value::make_object(0, 1);
    let b = Value::make_object(0, 2);
    let mut properties = OwnProperties::new();
    let (added, removed) = properties.define_own_property(&mut scope, k, a)?;
    assert_eq!(added, vec![a]);
    assert!(removed.is_empty());
    let (added, removed) = properties.define_own_property(&mut scope, k, b)?;
    assert_eq!(added, vec![b]);
    assert_eq!(removed, vec![a]);
    assert_eq!(properties.delete_own_property(&mut scope, k)?, vec![b]);
    Ok(())
}
