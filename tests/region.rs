use rogic_memory::Error;
use rogic_memory::ErrorType;
use rogic_memory::PrimitiveType;
use rogic_memory::Region;
use rogic_memory::Value;

const REGION_SLOT_SIZE: usize = 578;

#[test]
fn test_region_creation() {
    let _region = Region::new(0);
}

#[test]
fn test_region_basic_states() {
    let region = Region::new(0);

    assert!(!region.is_full());
    assert!(region.is_empty());
    assert!(!region.fragmentation_exceeds(0, 1));
    assert!(region.could_gain_slot_quickly());
}

#[test]
fn test_region_basic_slot_management() -> Result<(), Error> {
    let mut region = Region::new(0);

    let mut slots = Vec::new();
    let mut i = 0;
    while i < REGION_SLOT_SIZE {
        let slot = region.gain_slot(PrimitiveType::Object)?;
        assert_eq!(region.get_occupied(), (i + 1) as u16);
        assert_eq!(region.is_full(), i == REGION_SLOT_SIZE - 1);
        assert!(!region.is_empty());
        assert!(!region.fragmentation_exceeds(0, 1));
        assert_eq!(region.could_gain_slot_quickly(), i != REGION_SLOT_SIZE - 1);
        slots.push(slot);
        i += 1;
    }

    let mut i = 1;
    while i < REGION_SLOT_SIZE {
        assert!(region.recycle_slot(slots[i], true).is_err());
        region.move_out_from_nursery(slots[i])?;
        region.recycle_slot(slots[i], true)?;
        assert!(!region.is_full());
        assert!(!region.is_empty());
        assert_eq!(region.get_occupied(), (REGION_SLOT_SIZE - i) as u16);
        assert!(!region.could_gain_slot_quickly());
        assert!(region.fragmentation_exceeds(0, 1));
        i += 1;
    }

    assert!(region.fragmentation_exceeds(0, 1));

    region.recalculate_next_empty_slot_index()?;

    assert_eq!(region.get_next_empty_slot_index(), 1);

    assert!(region.recycle_slot(slots[0], true).is_err());
    region.move_out_from_nursery(slots[0])?;
    region.recycle_slot(slots[0], true)?;

    assert!(region.fragmentation_exceeds(99, 100));
    assert!(region.is_empty());

    region.recalculate_next_empty_slot_index()?;

    assert!(!region.fragmentation_exceeds(0, 1));
    assert!(region.is_empty());

    Ok(())
}

#[test]
fn test_region_snapshot() -> Result<(), Error> {
    let mut region = Region::new(0);

    let slot = region.gain_slot(PrimitiveType::Object)?;

    let (snapshot, in_nursery, reference_map) = region.freeze_slot(slot)?;

    let _slot_2 = region.restore_slot(slot, snapshot, in_nursery, &reference_map)?;

    assert_eq!(region.get_occupied(), 2);
    assert_eq!(region.get_next_empty_slot_index(), 2);

    Ok(())
}

#[test]
fn test_region_references() -> Result<(), Error> {
    let mut region = Region::new(0);

    let slot = region.gain_slot(PrimitiveType::Object)?;

    {
        let slot_2 = region.gain_slot(PrimitiveType::Object)?;
        region.add_reference(slot_2, slot)?;
        assert!(region.recycle_slot(slot_2, false).is_err());
    }

    {
        let slot_2 = region.gain_slot(PrimitiveType::Object)?;
        region.add_reference(slot_2, slot)?;
        let (snapshot, in_nursery, reference_map) = region.freeze_slot(slot_2)?;
        let slot_3 = region.restore_slot(slot_2, snapshot, in_nursery, &reference_map)?;
        assert!(region.add_reference(slot_2, slot).is_err());
        region.redirect_slot(slot_2, slot_3, reference_map)?;
        region.add_reference(slot_2, slot)?;
        assert!(region.recycle_slot(slot_3, false).is_err());
    }

    {
        let slot_2 = region.gain_slot(PrimitiveType::Object)?;
        region.add_reference(slot_2, slot)?;
        let (snapshot, in_nursery, reference_map) = region.freeze_slot(slot_2)?;
        let slot_3 = region.restore_slot(slot_2, snapshot, in_nursery, &reference_map)?;
        assert!(region.add_reference(slot_2, slot).is_err());
        region.redirect_slot(slot_2, slot_3, reference_map)?;
        region.recycle_slot(slot_2, false)?;
        assert!(region.remove_reference(slot_2, slot)?.0);
        assert!(region.add_reference(slot_2, slot).is_err());
        region.remove_redirection_from(slot_2, slot_3)?;
        region.recycle_slot(slot_3, false)?;
    }

    Ok(())
}

#[test]
fn test_region_seal() -> Result<(), Error> {
    let mut region = Region::new(0);

    let slot = region.gain_slot(PrimitiveType::Object)?;

    assert!(!region.is_sealed(slot)?);
    region.seal_slot(slot)?;

    assert!(region.is_sealed(slot)?);
    Ok(())
}

#[test]
fn region_refuses_values_of_other_types_and_regions() {
    let mut region = Region::new(3);
    assert_eq!(region.gain_slot(PrimitiveType::Integer).unwrap_err().get_type(), ErrorType::FatalError);
    assert_eq!(region.resolve_redirection(Value::make_integer(1)).unwrap_err().get_type(), ErrorType::TypeNotMatch);
    assert_eq!(region.resolve_redirection(Value::make_object(4, 0)).unwrap_err().get_type(), ErrorType::FatalError);
    assert_eq!(region.resolve_redirection(Value::make_object(3, 600)).unwrap_err().get_type(), ErrorType::FatalError);
    assert_eq!(region.resolve_redirection(Value::make_object(3, 0)).unwrap_err().get_type(), ErrorType::FatalError);
}

#[test]
fn region_gain_gives_values_of_the_region() -> Result<(), Error> {
    let mut region = Region::new(7);
    let text = region.gain_slot(PrimitiveType::Text)?;
    let list = region.gain_slot(PrimitiveType::List)?;
    assert!(text.is_text());
    assert!(list.is_list());
    assert_eq!(text.get_region_id()?, 7);
    assert_eq!(text.get_region_slot()?, 0);
    assert_eq!(list.get_region_slot()?, 1);
    assert!(region.is_value_alive(text)?);
    assert!(region.is_value_occupied(list)?);
    assert_eq!(region.resolve_redirection(list)?, list);
    assert_eq!(region.list_values_in_nursery(), vec![text, list]);
    assert_eq!(region.list_alive_values(), vec![text, list]);
    Ok(())
}

#[test]
fn region_forwarding_survives_move() -> Result<(), Error> {
    let mut region = Region::new(1);
    let holder = region.gain_slot(PrimitiveType::Object)?;
    let v = region.gain_slot(PrimitiveType::Object)?;
    region.add_reference(v, holder)?;
    let (snapshot, in_nursery, references) = region.freeze_slot(v)?;
    let moved = region.restore_slot(v, snapshot, in_nursery, &references)?;
    region.redirect_slot(v, moved, references)?;
    region.recycle_slot(v, false)?;
    assert_eq!(region.resolve_redirection(v)?, moved);
    assert!(!region.is_value_alive(v)?);
    assert!(region.is_value_occupied(v)?);
    assert!(region.is_value_alive(moved)?);
    let (freed, target) = region.remove_reference(v, holder)?;
    assert!(freed);
    assert_eq!(target, moved);
    assert!(!region.is_value_occupied(v)?);
    assert!(region.remove_redirection_from(v, moved)?);
    Ok(())
}

#[test]
fn region_colors_and_sweep() -> Result<(), Error> {
    let mut region = Region::new(2);
    let kept = region.gain_slot(PrimitiveType::Object)?;
    let referenced = region.gain_slot(PrimitiveType::Object)?;
    let garbage = region.gain_slot(PrimitiveType::Tuple)?;
    for v in [kept, referenced, garbage] {
        region.move_out_from_nursery(v)?;
        region.mark_as_white(v, 0)?;
        assert!(region.is_white(v, 0)?);
    }
    region.add_reference(referenced, kept)?;
    assert!(region.mark_as_gray(kept, 0)?);
    assert!(region.is_gray(kept, 0)?);
    assert!(!region.mark_as_gray(kept, 0)?);
    region.mark_as_black(kept, 0)?;
    assert!(region.is_black(kept, 0)?);
    let dropped = region.sweep_values(0);
    assert_eq!(dropped, vec![garbage]);
    assert!(region.is_value_alive(kept)?);
    assert!(!region.is_value_alive(referenced)?);
    assert!(region.is_value_occupied(referenced)?);
    assert_eq!(region.resolve_redirection(referenced)?, Value::make_undefined());
    assert!(!region.is_value_occupied(garbage)?);
    assert_eq!(region.get_occupied(), 2);
    Ok(())
}

struct CountingListener {
    fired: std::rc::Rc<std::cell::Cell<u32>>,
}

impl rogic_memory::DropListener for CountingListener {
    fn notify_drop(&self) {
        self.fired.set(self.fired.get() + 1);
    }
}

#[test]
fn gc_reclaims_unreachable() -> Result<(), Error> {
    let mut generator = rogic_memory::WeakIdGenerator::new();
    let mut region = Region::new(4);
    let v = region.gain_slot(PrimitiveType::Object)?;
    region.move_out_from_nursery(v)?;
    let fired = std::rc::Rc::new(std::cell::Cell::new(0));
    let mut weak = rogic_memory::WeakRoot::new(&mut generator, v, Some(CountingListener { fired: fired.clone() }));

    region.mark_as_white(v, 0)?;
    let dropped = region.sweep_values(0);
    assert_eq!(dropped, vec![v]);
    for value in dropped {
        if weak.get_value() == Some(value) {
            weak.notify_drop()?;
        }
    }
    assert!(region.is_empty());
    assert!(weak.is_dropped());
    assert_eq!(fired.get(), 1);
    assert!(weak.notify_drop().is_err());
    assert_eq!(fired.get(), 1);
    Ok(())
}

#[test]
fn region_recycle_refusals_are_fatal() -> Result<(), Error> {
    let mut region = Region::new(0);
    let v = region.gain_slot(PrimitiveType::Object)?;
    assert_eq!(region.recycle_slot(v, true).unwrap_err().get_type(), ErrorType::FatalError);
    assert_eq!(region.recycle_slot(Value::make_integer(1), true).unwrap_err().get_type(), ErrorType::TypeNotMatch);
    region.move_out_from_nursery(v)?;
    region.recycle_slot(v, false)?;
    assert!(region.is_value_occupied(v)?);
    assert!(!region.is_value_alive(v)?);
    Ok(())
}
