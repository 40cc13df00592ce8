use rogic_memory::Error;
use rogic_memory::Root;
use rogic_memory::Roots;
use rogic_memory::Value;

fn float(f: f64) -> Value {
    Value::make_float_bits(f.to_bits())
}

#[test]
fn test_root_creation() {
    Root::new(Value::make_null());
}

#[test]
fn test_root_get() {
    let root = Root::new(float(4.3));

    assert_eq!(root.get_value(), float(4.3));
}

#[test]
fn test_root_refresh() {
    let mut root = Root::new(float(4.3));

    assert_eq!(root.get_value(), float(4.3));

    root.refresh_value(float(5.3), float(8.4));

    assert_eq!(root.get_value(), float(4.3));

    root.refresh_value(float(4.3), float(8.4));

    assert_eq!(root.get_value(), float(8.4));
}

#[test]
fn test_root_references() -> Result<(), Error> {
    let mut root = Root::new(float(4.3));

    assert!(root.is_alone());

    assert_eq!(root.increase_reference()?, 1);
    assert_eq!(root.increase_reference()?, 2);
    assert!(!root.is_alone());
    assert_eq!(root.decrease_reference()?, 1);
    assert_eq!(root.decrease_reference()?, 0);
    assert!(root.is_alone());

    assert!(root.decrease_reference().is_err());

    Ok(())
}

#[test]
fn test_roots_creation() {
    let roots = Roots::new(float(4.3));

    assert_eq!(roots.get_value(), float(4.3));
}

#[test]
fn test_roots_refresh_value() {
    let mut roots = Roots::new(float(4.3));

    let root = roots.get_any_root();

    assert_eq!(roots.get_root_value(root), float(4.3));
    assert_eq!(roots.get_value(), float(4.3));

    roots.refresh_value(float(5.3), float(5.4));

    assert_eq!(roots.get_value(), float(4.3));
    assert_eq!(roots.get_root_value(root), float(4.3));

    roots.refresh_value(float(4.3), float(5.4));

    assert_eq!(roots.get_value(), float(5.4));
    assert_eq!(roots.get_root_value(root), float(5.4));
}

#[test]
fn test_roots_references() -> Result<(), Error> {
    let mut roots = Roots::new(float(4.3));

    assert!(roots.is_alone());

    let root = roots.get_any_root();

    assert!(roots.is_alone());
    assert_eq!(roots.increase_reference(root)?, 1);

    assert!(!roots.is_alone());

    assert_eq!(roots.decrease_reference(root)?, 0);

    assert!(roots.is_alone());

    Ok(())
}

#[test]
fn test_roots_merge() -> Result<(), Error> {
    let mut roots = Roots::new(float(4.3));

    let root = roots.get_any_root();

    let mut roots_2 = Roots::new(float(5.3));
    let mismatched = Roots::new(float(5.3));
    assert!(roots.merge_roots(mismatched).is_err());

    roots.increase_reference(root)?;

    let root_2 = roots_2.get_any_root();
    roots_2.increase_reference(root_2)?;

    roots_2.refresh_value(float(5.3), float(4.3));

    roots.merge_roots(roots_2)?;
    let root_2 = 1;

    assert_eq!(roots.get_root_count(), 2);
    assert!(!roots.is_alone());
    roots.decrease_reference(root)?;
    assert!(!roots.is_alone());
    assert!(roots.decrease_reference(root).is_err());

    roots.decrease_reference(root_2)?;
    assert!(roots.is_alone());

    Ok(())
}
