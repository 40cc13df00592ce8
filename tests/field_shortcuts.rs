use rogic_memory::Error;
use rogic_memory::ErrorType;
use rogic_memory::FieldShortcuts;
use rogic_memory::FieldTemplate;
use rogic_memory::Symbol;
use rogic_memory::Value;

#[test]
fn test_field_template_creation() {
    let _template = FieldTemplate::new(1);
}

#[test]
fn test_field_template_symbol() -> Result<(), Error> {
    let mut template = FieldTemplate::new(1);

    assert_eq!(template.get_id(), 1);

    assert!(template.get_symbol_index(Symbol::new(0)).is_none());

    let index = template.add_symbol(Symbol::new(0))?;

    assert!(template.has_symbol(Symbol::new(0)));

    assert!(template.add_symbol(Symbol::new(0)).is_err());

    assert_eq!(template.get_symbol_count(), 1);

    let index_2 = template.add_symbol(Symbol::new(1))?;

    assert_eq!(template.get_symbol_count(), 2);
    assert_eq!(template.get_symbol_index(Symbol::new(0)).unwrap(), index);
    assert_eq!(template.get_symbol_index(Symbol::new(1)).unwrap(), index_2);

    template.remove_symbol(Symbol::new(0))?;
    assert_eq!(template.get_symbol_count(), 1);
    assert!(!template.has_symbol(Symbol::new(0)));

    assert_eq!(template.get_symbol_count(), 1);

    Ok(())
}

#[test]
fn test_field_shortcuts() -> Result<(), Error> {
    let mut template = FieldTemplate::new(1);
    let template_2 = FieldTemplate::new(2);

    let index = template.add_symbol(Symbol::new(1))?;

    let mut fields = FieldShortcuts::new(&template);

    assert_eq!(fields.get_field_template_id(), template.get_id());

    assert_eq!(template.get_symbol_index(Symbol::new(1)).unwrap(), index);
    fields.set_field(&template, template.get_id(), template.get_version(), index, Value::make_float_bits(32.0f64.to_bits()));
    fields.clear_field(&template, Symbol::new(1));
    assert!(fields.get_field(&template, template.get_id(), template.get_version(), index).0.is_none());

    fields.set_field(&template, template.get_id(), template.get_version(), index, Value::make_float_bits(32.0f64.to_bits()));
    assert_eq!(fields.get_field(&template, template.get_id(), template.get_version(), index).0.unwrap(), Value::make_float_bits(32.0f64.to_bits()));
    assert!(fields.get_field(&template, template.get_id(), template.get_version(), 32).0.is_none());

    fields.update_field_template(&template_2);
    assert!(fields.get_field(&template_2, template_2.get_id(), template_2.get_version(), index).0.is_none());

    assert_eq!(fields.get_field_template_id(), template_2.get_id());

    Ok(())
}

#[test]
fn test_field_template_version() -> Result<(), Error> {
    let mut template = FieldTemplate::new(1);

    let version = template.get_version();

    assert!(!template.has_symbol(Symbol::new(1)));

    template.add_symbol(Symbol::new(1))?;
    assert_eq!(template.get_version(), version);
    assert!(template.has_symbol(Symbol::new(1)));

    template.add_symbol(Symbol::new(2))?;
    assert_eq!(template.get_version(), version);

    template.remove_symbol(Symbol::new(1))?;
    assert_ne!(template.get_version(), version);
    assert!(!template.has_symbol(Symbol::new(1)));

    Ok(())
}

#[test]
fn test_field_token() -> Result<(), Error> {
    let mut template = FieldTemplate::new(1);

    let mut field_shortcuts = FieldShortcuts::new(&template);

    assert!(template.get_field_token(Symbol::new(1)).is_none());

    template.add_symbol(Symbol::new(1))?;

    let mut field_token = template.get_field_token(Symbol::new(1)).unwrap();
    let mut field_token_2 = template.get_field_token(Symbol::new(1)).unwrap();

    assert_eq!(field_token.get_template(), field_token_2.get_template());
    assert_eq!(field_token.get_version(), field_token_2.get_version());
    assert_eq!(field_token.get_index(), field_token_2.get_index());

    assert!(field_token.get_field(&mut field_shortcuts, &template).is_none());

    field_token.set_field(&mut field_shortcuts, &template, Value::make_float_bits(23.4f64.to_bits()));

    assert_eq!(field_token.get_field(&mut field_shortcuts, &template).unwrap(), Value::make_float_bits(23.4f64.to_bits()));
    assert_eq!(field_token_2.get_field(&mut field_shortcuts, &template).unwrap(), Value::make_float_bits(23.4f64.to_bits()));

    template.add_symbol(Symbol::new(2))?;

    assert_eq!(field_token.get_field(&mut field_shortcuts, &template).unwrap(), Value::make_float_bits(23.4f64.to_bits()));

    template.remove_symbol(Symbol::new(2))?;

    assert!(field_token.get_field(&mut field_shortcuts, &template).is_none());

    Ok(())
}

#[test]
fn field_shortcut_staleness() -> Result<(), Error> {
    let x = Symbol::new(10);
    let y = Symbol::new(11);
    let mut template = FieldTemplate::new(7);
    let x_index = template.add_symbol(x)?;
    template.add_symbol(y)?;
    let mut shortcuts = FieldShortcuts::new(&template);
    let mut token = template.get_field_token(x).unwrap();
    assert_eq!(token.get_index(), x_index);

    token.set_field(&mut shortcuts, &template, Value::make_integer(5));
    assert_eq!(token.get_field(&mut shortcuts, &template), Some(Value::make_integer(5)));

    let version = template.get_version();
    template.remove_symbol(y)?;
    assert_eq!(template.get_version(), version + 1);

    let (value, need_refresh) = shortcuts.get_field(&template, token.get_template(), token.get_version(), token.get_index());
    assert!(value.is_none());
    assert!(need_refresh);

    template.refresh_field_token(&mut token);
    assert_eq!(token.get_version(), template.get_version());
    assert_eq!(token.get_index(), x_index);

    token.set_field(&mut shortcuts, &template, Value::make_integer(6));
    assert_eq!(token.get_field(&mut shortcuts, &template), Some(Value::make_integer(6)));
    Ok(())
}

#[test]
fn field_template_takes_lowest_free_index() -> Result<(), Error> {
    let mut template = FieldTemplate::new(1);
    assert_eq!(template.add_symbol(Symbol::new(1))?, 0);
    assert_eq!(template.add_symbol(Symbol::new(2))?, 1);
    assert_eq!(template.add_symbol(Symbol::new(3))?, 2);
    template.remove_symbol(Symbol::new(2))?;
    assert_eq!(template.add_symbol(Symbol::new(4))?, 1);
    Ok(())
}

#[test]
fn field_template_overflows_after_capacity() {
    let mut template = FieldTemplate::new(1);
    for i in 0..26u32 {
        assert_eq!(template.add_symbol(Symbol::new(i)).unwrap(), i as u8);
    }
    let error = template.add_symbol(Symbol::new(100)).unwrap_err();
    assert_eq!(error.get_type(), ErrorType::FatalError);
    assert_eq!(template.get_symbol_count(), 26);
}

#[test]
fn field_template_remove_missing_symbol_fails() {
    let mut template = FieldTemplate::new(1);
    let error = template.remove_symbol(Symbol::new(3)).unwrap_err();
    assert_eq!(error.get_type(), ErrorType::FatalError);
    assert_eq!(template.get_version(), 1);
}

#[test]
fn field_shortcuts_ignore_other_template() -> Result<(), Error> {
    let mut template = FieldTemplate::new(1);
    let index = template.add_symbol(Symbol::new(1))?;
    let mut shortcuts = FieldShortcuts::new(&template);
    assert!(!shortcuts.set_field(&template, 2, template.get_version(), index, Value::make_null()));
    assert_eq!(shortcuts.get_field(&template, 2, template.get_version(), index), (None, false));
    assert_eq!(shortcuts.get_field(&template, 1, template.get_version(), index), (None, false));
    Ok(())
}
