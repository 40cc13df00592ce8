use rogic_memory::Error;
use rogic_memory::ErrorType;
use rogic_memory::Isolate;
use rogic_memory::PrimitiveType;
use rogic_memory::Value;

#[test]
fn isolate_forwarding_survives_move() -> Result<(), Error> {
    let mut isolate = Isolate::new(3);
    let holder = isolate.gain_slot(1, PrimitiveType::Object)?;
    let v = isolate.gain_slot(1, PrimitiveType::Object)?;
    let (group, handle) = isolate.add_root(v);
    assert_eq!(isolate.get_root_value(group, handle), v);
    isolate.add_value_reference(holder, v)?;

    let moved = isolate.move_slot(v, 2)?;
    assert_ne!(moved, v);
    assert_eq!(moved.get_region_id()?, 2);
    assert!(moved.is_object());
    assert_eq!(isolate.get_root_value(group, handle), moved);
    assert_eq!(isolate.resolve_real_value(v)?, moved);
    assert_eq!(isolate.resolve_real_value(moved)?, moved);
    assert!(!isolate.is_direct_value_alive(v)?);
    assert!(isolate.is_direct_value_occupied(v)?);
    assert!(isolate.is_direct_value_alive(moved)?);

    isolate.add_value_reference(holder, moved)?;
    let moved_again = isolate.move_slot(moved, 0)?;
    assert_eq!(isolate.resolve_real_value(v)?, moved_again);
    assert_eq!(isolate.get_root_value(group, handle), moved_again);
    Ok(())
}

#[test]
fn isolate_move_without_references_frees_nothing_forwarding() -> Result<(), Error> {
    let mut isolate = Isolate::new(2);
    let v = isolate.gain_slot(0, PrimitiveType::List)?;
    let moved = isolate.move_slot(v, 1)?;
    assert!(moved.is_list());
    assert!(!isolate.is_direct_value_alive(v)?);
    assert!(isolate.resolve_real_value(v).is_err());
    assert_eq!(isolate.resolve_real_value(moved)?, moved);
    Ok(())
}

#[test]
fn isolate_refuses_bad_moves() -> Result<(), Error> {
    let mut isolate = Isolate::new(2);
    let v = isolate.gain_slot(0, PrimitiveType::Object)?;
    assert_eq!(isolate.move_slot(v, 5).unwrap_err().get_type(), ErrorType::FatalError);
    assert_eq!(isolate.move_slot(Value::make_integer(3), 1).unwrap_err().get_type(), ErrorType::TypeNotMatch);
    assert_eq!(isolate.move_slot(Value::make_object(9, 0), 1).unwrap_err().get_type(), ErrorType::FatalError);
    assert_eq!(isolate.resolve_real_value(Value::make_integer(3))?, Value::make_integer(3));
    assert_eq!(isolate.resolve_real_value(Value::make_object(9, 0))?, Value::make_object(9, 0));
    assert_eq!(isolate.gain_slot(4, PrimitiveType::Object).unwrap_err().get_type(), ErrorType::FatalError);
    Ok(())
}

#[test]
fn isolate_value_references_follow_forwarding() -> Result<(), Error> {
    let mut isolate = Isolate::new(2);
    let holder = isolate.gain_slot(0, PrimitiveType::Object)?;
    let v = isolate.gain_slot(0, PrimitiveType::Object)?;
    isolate.add_value_reference(holder, v)?;
    isolate.add_value_reference(holder, Value::make_integer(4))?;
    isolate.add_value_reference(v, v)?;
    let moved = isolate.move_slot(v, 1)?;
    assert!(isolate.is_direct_value_occupied(v)?);
    isolate.remove_value_reference(holder, v)?;
    assert!(!isolate.is_direct_value_occupied(v)?);
    assert!(isolate.is_direct_value_alive(moved)?);
    assert!(isolate.remove_value_reference(holder, v).is_err());
    assert!(isolate.remove_value_reference(holder, moved).is_err());
    isolate.add_value_reference(holder, moved)?;
    isolate.remove_value_reference(holder, moved)?;
    assert_eq!(isolate.add_value_reference(holder, Value::make_object(5, 0)).unwrap_err().get_type(), ErrorType::FatalError);
    Ok(())
}

#[test]
fn isolate_refragment_region_moves_live_values() -> Result<(), Error> {
    let mut isolate = Isolate::new(3);
    let a = isolate.gain_slot(2, PrimitiveType::Object)?;
    let b = isolate.gain_slot(2, PrimitiveType::Text)?;
    let keeper = isolate.gain_slot(0, PrimitiveType::Object)?;
    isolate.add_value_reference(keeper, b)?;
    let (group, handle) = isolate.add_root(a);
    assert_eq!(isolate.refragment_region(2, 1)?, true);
    assert!(!isolate.is_direct_value_alive(a)?);
    assert!(!isolate.is_direct_value_alive(b)?);
    let a_moved = isolate.get_root_value(group, handle);
    assert_eq!(a_moved.get_region_id()?, 1);
    assert!(isolate.is_direct_value_alive(a_moved)?);
    let b_moved = isolate.resolve_real_value(b)?;
    assert_eq!(b_moved.get_region_id()?, 1);
    assert!(b_moved.is_text());
    assert_eq!(isolate.refragment_region(2, 2).unwrap_err().get_type(), ErrorType::FatalError);
    Ok(())
}

#[test]
fn isolate_refragment_region_stops_when_target_full() -> Result<(), Error> {
    let mut isolate = Isolate::new(2);
    for _ in 0..578 {
        isolate.gain_slot(0, PrimitiveType::Object)?;
    }
    let v = isolate.gain_slot(1, PrimitiveType::Object)?;
    assert_eq!(isolate.refragment_region(1, 0)?, false);
    assert!(isolate.is_direct_value_alive(v)?);
    Ok(())
}

#[test]
fn isolate_create_allocates_builtin_prototypes() -> Result<(), Error> {
    let isolate = Isolate::create()?;
    let object_prototype = isolate.get_prototype(Value::make_boolean(true))?;
    assert!(object_prototype.is_object());
    assert_eq!(object_prototype.get_region_id()?, 1);
    assert_eq!(isolate.get_prototype(Value::make_integer(3))?.get_region_slot()?, 2);
    assert_eq!(isolate.get_prototype(Value::make_list(0, 0))?.get_region_slot()?, 6);
    assert_eq!(isolate.get_prototype(Value::make_undefined()).unwrap_err().get_type(), ErrorType::VisitingUndefinedPrototype);
    assert_eq!(isolate.get_prototype(Value::make_null()).unwrap_err().get_type(), ErrorType::VisitingNullPrototype);
    assert!(!isolate.is_region_protected(1)?);
    assert!(isolate.is_region_protected(5).is_err());
    for slot in 0..8 {
        assert!(isolate.is_direct_value_alive(Value::make_object(1, slot))?);
    }
    Ok(())
}

#[test]
fn isolate_object_prototypes_follow_moves() -> Result<(), Error> {
    let mut isolate = Isolate::create()?;
    let object = isolate.gain_slot(0, PrimitiveType::Object)?;
    assert_eq!(isolate.get_prototype(object)?, Value::make_null());
    let prototype = Value::make_object(1, 0);
    isolate.set_prototype(object, prototype)?;
    let holder = isolate.gain_slot(0, PrimitiveType::Object)?;
    isolate.add_value_reference(holder, object)?;
    isolate.move_slot(object, 1)?;
    assert_eq!(isolate.get_prototype(object)?, prototype);
    assert_eq!(isolate.set_prototype(Value::make_integer(1), prototype).unwrap_err().get_type(), ErrorType::MutatingSealedPrototype);
    assert_eq!(isolate.set_prototype(Value::make_null(), prototype).unwrap_err().get_type(), ErrorType::MutatingNullPrototype);
    Ok(())
}

#[test]
fn isolate_extract_text() -> Result<(), Error> {
    let mut isolate = Isolate::create()?;
    let text = isolate.make_text(0, "héllo")?;
    assert_eq!(isolate.extract_text(text, ""), "héllo");
    let holder = isolate.gain_slot(0, PrimitiveType::Object)?;
    isolate.add_value_reference(holder, text)?;
    isolate.move_slot(text, 1)?;
    assert_eq!(isolate.extract_text(text, ""), "héllo");
    assert_eq!(isolate.extract_text(Value::make_undefined(), ""), "<undefined>");
    assert_eq!(isolate.extract_text(Value::make_null(), ""), "<null>");
    assert_eq!(isolate.extract_text(Value::make_boolean(true), ""), "<yes>");
    assert_eq!(isolate.extract_text(Value::make_boolean(false), ""), "<no>");
    assert_eq!(isolate.extract_text(Value::make_integer(-1205), ""), "-1205");
    assert_eq!(isolate.extract_text(Value::make_integer(i32::MIN), ""), "-2147483648");
    assert_eq!(isolate.extract_text(Value::make_integer(0), ""), "0");
    assert_eq!(isolate.extract_text(Value::make_cardinal(0xffff_ffff), ""), "4294967295");
    assert_eq!(isolate.extract_text(Value::make_float_bits(1.5f64.to_bits()), "1.5"), "1.5");
    assert_eq!(isolate.extract_text(Value::make_list(0, 0), ""), "<list>");
    assert_eq!(isolate.extract_text(Value::make_tuple(0, 0), ""), "<tuple>");
    assert_eq!(isolate.extract_text(holder, ""), "<object>");
    assert_eq!(isolate.extract_text(Value::make_text(0, 300), ""), "<text>");
    Ok(())
}

#[test]
fn isolate_refragment_releases_empty_regions() -> Result<(), Error> {
    let mut isolate = Isolate::new(5);
    let a = isolate.gain_slot(3, PrimitiveType::Object)?;
    let b = isolate.gain_slot(3, PrimitiveType::Object)?;
    let (group, handle) = isolate.add_root(b);
    let a_moved = isolate.move_slot(a, 2)?;
    isolate.refragment(2, 5)?;
    let b_moved = isolate.get_root_value(group, handle);
    assert_eq!(b_moved.get_region_id()?, 0);
    assert!(isolate.is_direct_value_alive(b_moved)?);
    assert!(isolate.is_direct_value_alive(a_moved)?);
    assert_eq!(isolate.get_region_count(), 3);
    Ok(())
}

#[test]
fn isolate_weak_roots_follow_moves_and_drops() -> Result<(), Error> {
    let mut isolate = Isolate::new(2);
    let v = isolate.gain_slot(0, PrimitiveType::Object)?;
    let holder = isolate.gain_slot(0, PrimitiveType::Object)?;
    isolate.add_value_reference(holder, v)?;
    let weak = isolate.add_weak_root(v);
    assert_eq!(isolate.get_weak_root_value(weak)?, Some(v));
    let moved = isolate.move_slot(v, 1)?;
    assert_eq!(isolate.get_weak_root_value(weak)?, Some(moved));
    assert_eq!(isolate.notify_slot_drop(moved), vec![weak]);
    assert_eq!(isolate.get_weak_root_value(weak)?, None);
    assert!(isolate.notify_slot_drop(moved).is_empty());
    assert!(isolate.get_weak_root_value(weak + 1).is_err());
    Ok(())
}

#[test]
fn isolate_new_object_has_null_prototype() -> Result<(), Error> {
    let mut isolate = Isolate::create()?;
    let object = isolate.gain_slot(0, PrimitiveType::Object)?;
    assert_eq!(isolate.get_prototype(object)?, Value::make_null());
    Ok(())
}
