use std::cell::Cell;
use std::rc::Rc;

use rogic_memory::DropListener;
use rogic_memory::Error;
use rogic_memory::Symbol;
use rogic_memory::SymbolIdGenerator;
use rogic_memory::SymbolRecord;
use rogic_memory::SymbolScope;
use rogic_memory::Value;
use rogic_memory::WeakIdGenerator;
use rogic_memory::WeakRoot;

#[test]
fn test_symbol_id_generator() {
    let mut generator = SymbolIdGenerator::new();

    assert_eq!(generator.generate(), 1);
    assert_eq!(generator.generate(), 2);
    assert_eq!(generator.generate(), 3);
    assert_eq!(generator.generate(), 4);
}

#[test]
fn test_weak_id_generator() {
    let mut weak_id_generator = WeakIdGenerator::new();

    assert_eq!(weak_id_generator.generate(), 1);
    assert_eq!(weak_id_generator.generate(), 2);
}

#[test]
fn symbol_keeps_its_id() {
    let symbol = Symbol::new(42);
    assert_eq!(symbol.get_id(), 42);
    assert_eq!(symbol, Symbol::new(42));
    assert_ne!(symbol, Symbol::new(43));
}


#[test]
fn test_text_symbol() {
    let mut generator = SymbolIdGenerator::new();
    let mut scope = SymbolScope::new("test");

    let test = scope.get_text_symbol(&mut generator, "test");
    let test_2 = scope.get_text_symbol(&mut generator, "test2");
    let test_3 = scope.get_text_symbol(&mut generator, "test2");

    assert_ne!(test, test_2);
    assert_eq!(test_2, test_3);

    let mut scope_2 = SymbolScope::new("test2");
    let test_2_2 = scope_2.get_text_symbol(&mut generator, "test");
    assert_ne!(test, test_2_2);
    assert_ne!(test_2, test_2_2);
}

#[test]
fn test_value_symbol() {
    let mut generator = SymbolIdGenerator::new();
    let mut scope = SymbolScope::new("test");

    let test = scope.get_value_symbol(&mut generator, Value::make_null());
    let test_2 = scope.get_value_symbol(&mut generator, Value::make_integer(1));
    let test_3 = scope.get_value_symbol(&mut generator, Value::make_integer(1));

    assert_ne!(test, test_2);
    assert_eq!(test_2, test_3);

    let mut scope_2 = SymbolScope::new("test2");
    let test_2_2 = scope_2.get_value_symbol(&mut generator, Value::make_null());
    assert_ne!(test, test_2_2);
    assert_ne!(test_2, test_2_2);
}

#[test]
fn test_symbol_recycle() -> Result<(), Error> {
    let mut generator = SymbolIdGenerator::new();
    let mut scope = SymbolScope::new("test");

    assert!(scope.recycle_symbol(Symbol::new(1)).is_err());

    let test = scope.get_value_symbol(&mut generator, Value::make_null());
    let test_2 = scope.get_text_symbol(&mut generator, "test");

    assert!(scope.get_symbol_record(test).is_some());
    assert!(scope.recycle_symbol(test).is_err());
    scope.add_symbol_reference(test)?;
    assert!(scope.recycle_symbol(test).is_err());
    scope.remove_symbol_reference(test)?;
    assert!(scope.recycle_symbol(test).is_ok());
    assert!(scope.get_symbol_record(test).is_none());

    assert!(scope.get_symbol_record(test_2).is_some());
    assert!(scope.recycle_symbol(test_2).is_err());
    scope.add_symbol_reference(test_2)?;
    assert!(scope.recycle_symbol(test_2).is_err());
    scope.remove_symbol_reference(test_2)?;
    assert!(scope.recycle_symbol(test_2).is_ok());
    assert!(scope.get_symbol_record(test_2).is_none());

    Ok(())
}

#[test]
fn symbol_interning_across_scopes() -> Result<(), Error> {
    let mut generator = SymbolIdGenerator::new();
    let mut scope = SymbolScope::new("scope");
    let mut other = SymbolScope::new("other");
    let a = scope.get_text_symbol(&mut generator, "name");
    let b = scope.get_text_symbol(&mut generator, "name");
    let c = other.get_text_symbol(&mut generator, "name");
    assert_eq!(a, b);
    assert_ne!(a, c);
    assert!(scope.recycle_symbol(a).is_err());
    scope.add_symbol_reference(a)?;
    scope.remove_symbol_reference(a)?;
    assert!(scope.recycle_symbol(a).is_ok());
    assert!(scope.remove_symbol_reference(a).is_err());
    match other.get_symbol_record(c) {
        Some(SymbolRecord::TextSymbol(text)) => assert_eq!(text, "name"),
        _ => panic!("text symbol expected"),
    }
    assert_eq!(scope.get_id(), "scope");
    Ok(())
}

struct TestDropListener {
    value: Rc<Cell<Value>>,
}

impl DropListener for TestDropListener {
    fn notify_drop(&self) {
        self.value.set(Value::make_null());
    }
}

fn float(f: f64) -> Value {
    Value::make_float_bits(f.to_bits())
}

#[test]
fn test_weak_root() -> Result<(), Error> {
    let mut weak_id_generator = WeakIdGenerator::new();

    let mut weak_root: WeakRoot<TestDropListener> = WeakRoot::new(&mut weak_id_generator, float(44.0), None);

    assert!(!weak_root.is_dropped());
    assert_eq!(weak_root.get_value().unwrap(), float(44.0));

    weak_root.refresh_value(float(4.0), float(42.0));
    assert_eq!(weak_root.get_value().unwrap(), float(44.0));

    weak_root.refresh_value(float(44.0), float(42.0));
    assert_eq!(weak_root.get_value().unwrap(), float(42.0));

    weak_root.notify_drop()?;

    assert!(weak_root.is_dropped());
    assert!(weak_root.get_value().is_none());

    let drop_value = Rc::new(Cell::new(float(22.0)));

    let drop_listener = TestDropListener { value: drop_value.clone() };

    let mut weak_root = WeakRoot::new(&mut weak_id_generator, float(44.0), Some(drop_listener));

    assert_eq!(drop_value.get(), float(22.0));

    weak_root.notify_drop()?;

    assert_eq!(drop_value.get(), Value::make_null());

    assert!(weak_root.notify_drop().is_err());

    Ok(())
}
