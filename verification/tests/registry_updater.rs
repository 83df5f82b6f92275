use hawktracer_parser::event::{DataType, Event, Record, Value};
use hawktracer_parser::registry::{CoreEventKlassId, EventKlassRegistry};
use hawktracer_parser::registry_updater::{RegistryUpdater, UpdateFailure};

fn make_klass_info_event(id: Option<u32>, name: Option<&str>, field_count: Option<u8>) -> Event {
    let mut values = Record::new();

    if id.is_some() {
        values.insert("info_klass_id".to_string(), Value::U32(id.unwrap()));
    }
    if name.is_some() {
        values.insert(
            "event_klass_name".to_string(),
            Value::Str(name.unwrap().to_string()),
        );
    }
    if field_count.is_some() {
        values.insert("field_count".to_string(), Value::U8(field_count.unwrap()));
    }

    Event::new(CoreEventKlassId::KlassInfo as u32, values)
}

fn make_field_info_event(
    klass_id: Option<u32>,
    field_type: Option<&str>,
    field_name: Option<&str>,
    size: Option<u64>,
    data_type: Option<u8>,
) -> Event {
    let mut values = Record::new();

    if klass_id.is_some() {
        values.insert("info_klass_id".to_string(), Value::U32(klass_id.unwrap()));
    }
    if field_type.is_some() {
        values.insert(
            "field_type".to_string(),
            Value::Str(field_type.unwrap().to_string()),
        );
    }
    if field_name.is_some() {
        values.insert(
            "field_name".to_string(),
            Value::Str(field_name.unwrap().to_string()),
        );
    }
    if size.is_some() {
        values.insert("size".to_string(), Value::U64(size.unwrap()));
    }
    if data_type.is_some() {
        values.insert("data_type".to_string(), Value::U8(data_type.unwrap()));
    }

    Event::new(CoreEventKlassId::FieldInfo as u32, values)
}

#[test]
fn should_fail_if_event_is_not_field_or_klass_info_event() {
    let mut registry = EventKlassRegistry::new();
    let mut updater = RegistryUpdater::new(&mut registry);
    let event = Event::new(99, Record::new());

    assert!(updater.update_registry_from_event(&event).is_err());
}

#[test]
fn should_add_new_klass_to_registry_if_all_fields_are_in_event() {
    let mut registry = EventKlassRegistry::new();

    {
        let mut updater = RegistryUpdater::new(&mut registry);
        assert!(updater
            .update_registry_from_event(&make_klass_info_event(Some(99), Some("name"), Some(0)))
            .is_ok());
    }

    assert!(registry.get_klass_by_id(99).is_some());
    assert!(registry.get_klass_by_name("name").is_some());
}

#[test]
fn add_new_klass_to_registry_if_some_fields_are_missing_should_fail() {
    let mut registry = EventKlassRegistry::new();

    {
        let mut updater = RegistryUpdater::new(&mut registry);
        assert!(updater
            .update_registry_from_event(&make_klass_info_event(None, Some("name"), Some(0)))
            .is_err());
        assert!(updater
            .update_registry_from_event(&make_klass_info_event(Some(99), None, Some(0)))
            .is_err());
    }
}

#[test]
fn add_core_klass_to_registry_should_not_fail() {
    let mut registry = EventKlassRegistry::new();

    {
        let mut updater = RegistryUpdater::new(&mut registry);
        assert!(updater
            .update_registry_from_event(&make_klass_info_event(
                Some(CoreEventKlassId::Base as u32),
                Some("new_name"),
                Some(0)
            ))
            .is_ok());
    }

    assert_eq!(
        *registry
            .get_klass_by_id(CoreEventKlassId::Base as u32)
            .unwrap()
            .get_name(),
        "HT_Event".to_string()
    );
}

#[test]
fn add_field_to_non_existing_klass_should_fail() {
    let mut registry = EventKlassRegistry::new();

    {
        let mut updater = RegistryUpdater::new(&mut registry);
        let event = make_field_info_event(Some(99), Some("t"), Some("n"), Some(4), Some(99));
        assert!(updater.update_registry_from_event(&event).is_err());
    }
}

#[test]
fn add_field_if_some_values_are_missing_should_fail() {
    let mut registry = EventKlassRegistry::new();
    let mut updater = RegistryUpdater::new(&mut registry);
    assert!(updater
        .update_registry_from_event(&make_klass_info_event(Some(99), Some("name"), Some(10)))
        .is_ok());

    assert!(updater
        .update_registry_from_event(&make_field_info_event(
            None,
            Some("t"),
            Some("n"),
            Some(4),
            Some(1)
        ))
        .is_err());
    assert!(updater
        .update_registry_from_event(&make_field_info_event(
            Some(99),
            None,
            Some("n"),
            Some(4),
            Some(2)
        ))
        .is_err());
    assert!(updater
        .update_registry_from_event(&make_field_info_event(
            Some(99),
            Some("u"),
            None,
            Some(4),
            Some(6)
        ))
        .is_err());
    assert!(updater
        .update_registry_from_event(&make_field_info_event(
            Some(99),
            Some("v"),
            Some("n"),
            None,
            Some(99)
        ))
        .is_err());
    assert!(updater
        .update_registry_from_event(&make_field_info_event(
            Some(99),
            Some("w"),
            Some("n"),
            Some(99),
            None
        ))
        .is_err());
}

#[test]
fn add_field_to_core_klass_should_not_update_klass() {
    let mut registry = EventKlassRegistry::new();

    {
        let mut updater = RegistryUpdater::new(&mut registry);
        let event = make_field_info_event(
            Some(CoreEventKlassId::Base as u32),
            Some("t"),
            Some("n"),
            Some(4),
            Some(99),
        );
        assert!(updater.update_registry_from_event(&event).is_ok());
    }

    assert_eq!(
        registry
            .get_klass_by_id(CoreEventKlassId::Base as u32)
            .unwrap()
            .get_fields()
            .len(),
        3
    );
}

#[test]
fn add_uint_field_with_invalid_size_should_fail() {
    let mut registry = EventKlassRegistry::new();
    let mut updater = RegistryUpdater::new(&mut registry);
    assert!(updater
        .update_registry_from_event(&make_klass_info_event(Some(99), Some("name"), Some(10)))
        .is_ok());

    assert!(updater
        .update_registry_from_event(&make_field_info_event(
            Some(99),
            Some("t"),
            Some("n"),
            Some(99),
            Some(10)
        ))
        .is_err());
}

fn registry_with_klass_99() -> EventKlassRegistry {
    let mut registry = EventKlassRegistry::new();
    let result = RegistryUpdater::new(&mut registry)
        .update_registry_from_event(&make_klass_info_event(Some(99), Some("name"), Some(0)));
    assert_eq!(result, Ok(()));
    registry
}

fn kind_of_new_field(size: Option<u64>, data_type: u8) -> Result<DataType, &'static str> {
    let mut registry = registry_with_klass_99();
    let event = make_field_info_event(Some(99), Some("t"), Some("n"), size, Some(data_type));
    RegistryUpdater::new(&mut registry).update_registry_from_event(&event)?;
    let klass = registry.get_klass_by_id(99).unwrap();
    assert_eq!(klass.get_fields().len(), 1);
    assert_eq!(klass.get_fields()[0].get_name(), "n");
    assert_eq!(klass.get_fields()[0].get_type_name(), "t");
    Ok(*klass.get_fields()[0].get_data_type())
}

#[test]
fn new_klass_has_no_fields_and_is_found_by_id_and_by_name() {
    let registry = registry_with_klass_99();

    let by_id = registry.get_klass_by_id(99).unwrap();
    assert_eq!(by_id.get_id(), 99);
    assert_eq!(by_id.get_name(), "name");
    assert_eq!(by_id.get_fields().len(), 0);
    let by_name = registry.get_klass_by_name("name").unwrap();
    assert_eq!(by_name.get_id(), 99);
    assert_eq!(by_name.get_fields().len(), 0);
}

#[test]
fn integer_field_takes_its_kind_from_its_size() {
    assert_eq!(kind_of_new_field(Some(1), 99), Ok(DataType::U8));
    assert_eq!(kind_of_new_field(Some(4), 99), Ok(DataType::U32));
    assert_eq!(kind_of_new_field(Some(8), 99), Ok(DataType::U64));
    assert_eq!(kind_of_new_field(Some(99), 99), Err("Invalid size of integer type"));
    assert_eq!(kind_of_new_field(Some(2), 99), Err("Invalid size of integer type"));
    assert_eq!(kind_of_new_field(Some(0), 99), Err("Invalid size of integer type"));
    assert_eq!(kind_of_new_field(None, 99), Err("Cannot read field size"));
}

#[test]
fn pointer_field_is_of_64_bits_whatever_its_size() {
    assert_eq!(kind_of_new_field(Some(4), 6), Ok(DataType::U64));
    assert_eq!(kind_of_new_field(Some(99), 6), Ok(DataType::U64));
    assert_eq!(kind_of_new_field(None, 6), Ok(DataType::U64));
}

#[test]
fn struct_and_string_fields_take_their_kind_from_the_code() {
    assert_eq!(kind_of_new_field(Some(8), 1), Ok(DataType::Struct));
    assert_eq!(kind_of_new_field(None, 1), Ok(DataType::Struct));
    assert_eq!(kind_of_new_field(Some(8), 2), Ok(DataType::Str));
    assert_eq!(kind_of_new_field(None, 2), Ok(DataType::Str));
}

#[test]
fn unknown_data_type_code_fails() {
    assert_eq!(kind_of_new_field(Some(4), 10), Err("Invalid data type"));
    assert_eq!(kind_of_new_field(Some(4), 0), Err("Invalid data type"));
    assert_eq!(kind_of_new_field(None, 3), Err("Invalid data type"));
    assert_eq!(kind_of_new_field(Some(4), 255), Err("Invalid data type"));
}

#[test]
fn each_failure_has_its_message() {
    let mut registry = registry_with_klass_99();
    let mut updater = RegistryUpdater::new(&mut registry);

    assert_eq!(
        updater.update_registry_from_event(&Event::new(99, Record::new())),
        Err("Klass id is neither KlassInfo nor FieldInfo")
    );
    assert_eq!(
        updater.update_registry_from_event(&Event::new(1, Record::new())),
        Err("Klass id is neither KlassInfo nor FieldInfo")
    );
    assert_eq!(
        updater.update_registry_from_event(&make_klass_info_event(None, Some("n"), Some(0))),
        Err("Cannot read klass id")
    );
    assert_eq!(
        updater.update_registry_from_event(&make_klass_info_event(Some(5), None, Some(0))),
        Err("Cannot read klass name")
    );
    assert_eq!(
        updater.update_registry_from_event(&make_field_info_event(
            None,
            Some("t"),
            Some("n"),
            Some(4),
            Some(99)
        )),
        Err("Cannot read klass id")
    );
    assert_eq!(
        updater.update_registry_from_event(&make_field_info_event(
            Some(99),
            Some("t"),
            None,
            Some(4),
            Some(99)
        )),
        Err("Cannot read field name")
    );
    assert_eq!(
        updater.update_registry_from_event(&make_field_info_event(
            Some(99),
            None,
            Some("n"),
            Some(4),
            Some(99)
        )),
        Err("Cannot read field type")
    );
    assert_eq!(
        updater.update_registry_from_event(&make_field_info_event(
            Some(99),
            Some("t"),
            Some("n"),
            Some(4),
            None
        )),
        Err("Cannot read field data type")
    );
    assert_eq!(
        updater.update_registry_from_event(&make_field_info_event(
            Some(98),
            Some("t"),
            Some("n"),
            Some(4),
            Some(99)
        )),
        Err("Cannot find klass")
    );
    assert_eq!(UpdateFailure::MissingKlass.message(), "Cannot find klass");
    assert_eq!(UpdateFailure::NotAnUpdate.message(), "Klass id is neither KlassInfo nor FieldInfo");
    assert_eq!(UpdateFailure::KlassId.message(), "Cannot read klass id");
    assert_eq!(UpdateFailure::KlassName.message(), "Cannot read klass name");
    assert_eq!(UpdateFailure::FieldName.message(), "Cannot read field name");
    assert_eq!(UpdateFailure::FieldType.message(), "Cannot read field type");
    assert_eq!(UpdateFailure::FieldDataType.message(), "Cannot read field data type");
    assert_eq!(UpdateFailure::FieldSize.message(), "Cannot read field size");
    assert_eq!(UpdateFailure::IntegerSize.message(), "Invalid size of integer type");
    assert_eq!(UpdateFailure::DataTypeCode.message(), "Invalid data type");
}

#[test]
fn mistyped_fields_fail_like_missing_ones() {
    let mut registry = registry_with_klass_99();
    let mut updater = RegistryUpdater::new(&mut registry);

    let mut values = Record::new();
    values.insert("info_klass_id".to_string(), Value::U64(5));
    values.insert("event_klass_name".to_string(), Value::Str("n".to_string()));
    assert_eq!(
        updater.update_registry_from_event(&Event::new(2, values)),
        Err("Cannot read klass id")
    );

    let mut values = Record::new();
    values.insert("info_klass_id".to_string(), Value::U32(5));
    values.insert("event_klass_name".to_string(), Value::U8(1));
    assert_eq!(
        updater.update_registry_from_event(&Event::new(2, values)),
        Err("Cannot read klass name")
    );

    let mut values = Record::new();
    values.insert("info_klass_id".to_string(), Value::U32(99));
    values.insert("field_name".to_string(), Value::Str("n".to_string()));
    values.insert("field_type".to_string(), Value::Str("t".to_string()));
    values.insert("data_type".to_string(), Value::U8(99));
    values.insert("size".to_string(), Value::U32(4));
    assert_eq!(
        updater.update_registry_from_event(&Event::new(3, values)),
        Err("Cannot read field size")
    );
}

#[test]
fn redefining_a_reserved_klass_changes_nothing() {
    let mut registry = EventKlassRegistry::new();
    for id in 0..4 {
        let mut updater = RegistryUpdater::new(&mut registry);
        assert_eq!(
            updater.update_registry_from_event(&make_klass_info_event(
                Some(id),
                Some("new_name"),
                Some(0)
            )),
            Ok(())
        );
        assert_eq!(
            updater.update_registry_from_event(&make_field_info_event(
                Some(id),
                Some("t"),
                Some("n"),
                Some(3),
                Some(42)
            )),
            Ok(())
        );
    }

    assert!(registry.get_klass_by_name("new_name").is_none());
    assert_eq!(registry.get_klass_by_id(0).unwrap().get_fields().len(), 1);
    assert_eq!(registry.get_klass_by_id(1).unwrap().get_fields().len(), 3);
    assert_eq!(registry.get_klass_by_id(2).unwrap().get_fields().len(), 3);
    assert_eq!(registry.get_klass_by_id(3).unwrap().get_fields().len(), 5);
}

#[test]
fn redefining_a_klass_or_a_field_keeps_the_first_definition() {
    let mut registry = registry_with_klass_99();
    let mut updater = RegistryUpdater::new(&mut registry);
    assert_eq!(
        updater.update_registry_from_event(&make_klass_info_event(Some(99), Some("again"), Some(0))),
        Ok(())
    );
    assert_eq!(
        updater.update_registry_from_event(&make_field_info_event(
            Some(99),
            Some("uint32_t"),
            Some("n"),
            Some(4),
            Some(99)
        )),
        Ok(())
    );
    assert_eq!(
        updater.update_registry_from_event(&make_field_info_event(
            Some(99),
            Some("char*"),
            Some("n"),
            None,
            Some(2)
        )),
        Ok(())
    );

    let klass = registry.get_klass_by_id(99).unwrap();
    assert_eq!(klass.get_name(), "name");
    assert_eq!(klass.get_fields().len(), 1);
    assert_eq!(klass.get_fields()[0].get_type_name(), "uint32_t");
    assert_eq!(*klass.get_fields()[0].get_data_type(), DataType::U32);
    assert!(registry.get_klass_by_name("again").is_none());
}

#[test]
fn a_failed_update_leaves_the_registry_as_it_was() {
    let mut registry = registry_with_klass_99();
    let result = RegistryUpdater::new(&mut registry).update_registry_from_event(
        &make_field_info_event(Some(99), Some("t"), Some("n"), Some(3), Some(99)),
    );
    assert_eq!(result, Err("Invalid size of integer type"));
    assert_eq!(registry.get_klass_by_id(99).unwrap().get_fields().len(), 0);
}
