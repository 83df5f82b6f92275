use hawktracer_parser::data_provider::{DataError, DataProvider};
use hawktracer_parser::data_struct_reader::ReadEventError;
use hawktracer_parser::event::DataType;
use hawktracer_parser::event_klass::EventKlass;
use hawktracer_parser::event_reader::{can_decode, EventReader};
use hawktracer_parser::registry::EventKlassRegistry;
use hawktracer_parser::test_utilities::FakeDataReader;

#[test]
fn read_header_should_return_valid_base_event() {
    let data = vec![
        1, 0, 0, 0, // type
        1, 2, 0, 0, 0, 0, 0, 0, // timestamp
        2, 0, 0, 0, 0, 0, 0, 0, // id
    ];
    let mut reg = EventKlassRegistry::new();
    let data_provider = DataProvider::new(Box::new(FakeDataReader::new(data, false)));

    let event = EventReader::new(data_provider)
        .read_header(&mut reg)
        .unwrap();

    assert_eq!(event.get_value_u32(&"type").unwrap(), 1);
    assert_eq!(event.get_value_u64(&"timestamp").unwrap(), 513);
    assert_eq!(event.get_value_u64(&"id").unwrap(), 2);
}

#[test]
fn read_event_should_return_full_event() {
    let data = vec![
        100, 0, 0, 0, // type
        1, 2, 0, 0, 0, 0, 0, 0, // timestamp
        2, 0, 0, 0, 0, 0, 0, 0, // id
        65, 66, 67, 0, // ABC
        45, 1, 0, 0, // 301
    ];
    let mut reg = EventKlassRegistry::new();
    let data_provider = DataProvider::new(Box::new(FakeDataReader::new(data, false)));

    let mut klass = EventKlass::new(100, "foo".to_owned());
    klass.add_field("base".to_owned(), "HT_Event".to_owned(), DataType::Struct);
    klass.add_field("str_field".to_owned(), "char*".to_owned(), DataType::Str);
    klass.add_field("u32_field".to_owned(), "uint32_t".to_owned(), DataType::U32);

    reg.add_klass(klass);

    let event = EventReader::new(data_provider)
        .read_event(&mut reg)
        .unwrap();

    assert_eq!(event.get_klass_id(), 100);

    let base_event = event.get_value_struct(&"base").unwrap();
    assert_eq!(base_event.get_value_u32(&"type").unwrap(), 100);
    assert_eq!(base_event.get_value_u64(&"timestamp").unwrap(), 513);
    assert_eq!(base_event.get_value_u64(&"id").unwrap(), 2);

    assert_eq!(event.get_value_string(&"str_field").unwrap(), "ABC");
    assert_eq!(event.get_value_u32(&"u32_field").unwrap(), 301);
}

fn header(kind: u32, timestamp: u64, id: u64) -> Vec<u8> {
    let mut bytes = vec![];
    bytes.extend_from_slice(&kind.to_le_bytes());
    bytes.extend_from_slice(&timestamp.to_le_bytes());
    bytes.extend_from_slice(&id.to_le_bytes());
    bytes
}

fn klass_info(id: u32, name: &str, field_count: u8) -> Vec<u8> {
    let mut bytes = header(2, 0, 0);
    bytes.extend_from_slice(&id.to_le_bytes());
    bytes.extend_from_slice(name.as_bytes());
    bytes.push(0);
    bytes.push(field_count);
    bytes
}

fn field_info(id: u32, field_type: &str, field_name: &str, size: u64, data_type: u8) -> Vec<u8> {
    let mut bytes = header(3, 0, 0);
    bytes.extend_from_slice(&id.to_le_bytes());
    bytes.extend_from_slice(field_type.as_bytes());
    bytes.push(0);
    bytes.extend_from_slice(field_name.as_bytes());
    bytes.push(0);
    bytes.extend_from_slice(&size.to_le_bytes());
    bytes.push(data_type);
    bytes
}

#[test]
fn a_header_of_the_class_of_headers_is_the_whole_event() {
    let mut data = header(1, 77, 5);
    data.extend_from_slice(&header(1, 78, 6));
    let mut reg = EventKlassRegistry::new();
    let mut reader =
        EventReader::new(DataProvider::new(Box::new(FakeDataReader::new(data, false))));

    let first = reader.read_event(&mut reg).unwrap();
    assert_eq!(first.get_klass_id(), 1);
    assert_eq!(first.get_all_values().len(), 3);
    assert_eq!(first.get_value_u32("type").unwrap(), 1);
    assert_eq!(first.get_value_u64("timestamp").unwrap(), 77);
    assert_eq!(first.get_value_u64("id").unwrap(), 5);
    let second = reader.read_event(&mut reg).unwrap();
    assert_eq!(second.get_value_u64("timestamp").unwrap(), 78);
    assert_eq!(
        reader.read_event(&mut reg).unwrap_err(),
        ReadEventError::DataError(DataError::EndOfStream)
    );
}

#[test]
fn an_unknown_klass_id_is_reported() {
    let data = header(1234, 0, 0);
    let mut reg = EventKlassRegistry::new();
    let mut reader =
        EventReader::new(DataProvider::new(Box::new(FakeDataReader::new(data, false))));

    assert_eq!(
        reader.read_event(&mut reg).unwrap_err(),
        ReadEventError::UnknownKlassId(1234)
    );
}

#[test]
fn a_header_that_is_cut_short_is_reported() {
    let mut data = header(100, 0, 0);
    data.pop();
    let mut reg = EventKlassRegistry::new();
    let mut reader =
        EventReader::new(DataProvider::new(Box::new(FakeDataReader::new(data, false))));

    assert_eq!(
        reader.read_event(&mut reg).unwrap_err(),
        ReadEventError::DataError(DataError::EndOfStream)
    );
}

#[test]
fn a_failing_source_is_reported() {
    let mut reg = EventKlassRegistry::new();
    let mut reader =
        EventReader::new(DataProvider::new(Box::new(FakeDataReader::new(vec![1, 2], true))));

    match reader.read_event(&mut reg).unwrap_err() {
        ReadEventError::DataError(DataError::IOError(error)) => assert_eq!(error.message, "Fail"),
        other => panic!("unexpected error {:?}", other),
    }
}

#[test]
fn klasses_and_fields_from_the_stream_are_used_for_later_events() {
    let mut data = klass_info(100, "foo", 3);
    data.extend_from_slice(&field_info(100, "HT_Event", "base", 20, 1));
    data.extend_from_slice(&field_info(100, "char*", "str_field", 8, 2));
    data.extend_from_slice(&field_info(100, "uint32_t", "u32_field", 4, 99));
    data.extend_from_slice(&field_info(100, "void*", "ptr_field", 4, 6));
    data.extend_from_slice(&field_info(100, "uint8_t", "u8_field", 1, 99));
    data.extend_from_slice(&header(100, 513, 2));
    data.extend_from_slice(&[65, 66, 67, 0]);
    data.extend_from_slice(&[45, 1, 0, 0]);
    data.extend_from_slice(&[1, 0, 0, 0, 0, 0, 0, 1]);
    data.push(200);

    let mut reg = EventKlassRegistry::new();
    let mut reader =
        EventReader::new(DataProvider::new(Box::new(FakeDataReader::new(data, false))));

    let defined = reader.read_event(&mut reg).unwrap();
    assert_eq!(defined.get_klass_id(), 2);
    assert_eq!(defined.get_value_u32("info_klass_id").unwrap(), 100);
    assert_eq!(defined.get_value_string("event_klass_name").unwrap(), "foo");
    assert_eq!(defined.get_value_u8("field_count").unwrap(), 3);
    assert_eq!(reg.get_klass_by_id(100).unwrap().get_fields().len(), 0);
    assert_eq!(reg.get_klass_by_name("foo").unwrap().get_id(), 100);

    for _ in 0..5 {
        assert_eq!(reader.read_event(&mut reg).unwrap().get_klass_id(), 3);
    }
    let fields = reg.get_klass_by_id(100).unwrap().get_fields();
    assert_eq!(fields.len(), 5);
    assert_eq!(*fields[0].get_data_type(), DataType::Struct);
    assert_eq!(*fields[1].get_data_type(), DataType::Str);
    assert_eq!(*fields[2].get_data_type(), DataType::U32);
    assert_eq!(*fields[3].get_data_type(), DataType::U64);
    assert_eq!(*fields[4].get_data_type(), DataType::U8);

    let event = reader.read_event(&mut reg).unwrap();
    assert_eq!(event.get_klass_id(), 100);
    let base = event.get_value_struct("base").unwrap();
    assert_eq!(base.get_value_u32("type").unwrap(), 100);
    assert_eq!(base.get_value_u64("timestamp").unwrap(), 513);
    assert_eq!(base.get_value_u64("id").unwrap(), 2);
    assert_eq!(event.get_value_string("str_field").unwrap(), "ABC");
    assert_eq!(event.get_value_u32("u32_field").unwrap(), 301);
    assert_eq!(event.get_value_u64("ptr_field").unwrap(), 72057594037927937);
    assert_eq!(event.get_value_u8("u8_field").unwrap(), 200);

    assert_eq!(
        reader.read_event(&mut reg).unwrap_err(),
        ReadEventError::DataError(DataError::EndOfStream)
    );
}

#[test]
fn an_update_that_fails_is_reported_and_the_event_is_lost() {
    let mut data = field_info(100, "uint32_t", "n", 4, 99);
    data.extend_from_slice(&klass_info(100, "foo", 1));
    data.extend_from_slice(&field_info(100, "uint32_t", "n", 3, 99));
    data.extend_from_slice(&field_info(100, "uint32_t", "n", 4, 7));
    data.extend_from_slice(&header(1, 9, 9));

    let mut reg = EventKlassRegistry::new();
    let mut reader =
        EventReader::new(DataProvider::new(Box::new(FakeDataReader::new(data, false))));

    assert_eq!(
        reader.read_event(&mut reg).unwrap_err(),
        ReadEventError::RegistryUpdateFailed("Cannot find klass".to_owned())
    );
    assert!(reader.read_event(&mut reg).is_ok());
    assert_eq!(
        reader.read_event(&mut reg).unwrap_err(),
        ReadEventError::RegistryUpdateFailed("Invalid size of integer type".to_owned())
    );
    assert_eq!(
        reader.read_event(&mut reg).unwrap_err(),
        ReadEventError::RegistryUpdateFailed("Invalid data type".to_owned())
    );
    assert_eq!(reg.get_klass_by_id(100).unwrap().get_fields().len(), 0);
    assert_eq!(reader.read_event(&mut reg).unwrap().get_value_u64("id").unwrap(), 9);
}

#[test]
fn reserved_klasses_are_not_redefined_from_the_stream() {
    let mut data = klass_info(1, "other", 0);
    data.extend_from_slice(&field_info(1, "uint8_t", "more", 1, 99));
    data.extend_from_slice(&header(1, 3, 4));

    let mut reg = EventKlassRegistry::new();
    let mut reader =
        EventReader::new(DataProvider::new(Box::new(FakeDataReader::new(data, false))));

    assert_eq!(reader.read_event(&mut reg).unwrap().get_klass_id(), 2);
    assert_eq!(reader.read_event(&mut reg).unwrap().get_klass_id(), 3);
    assert_eq!(reg.get_klass_by_id(1).unwrap().get_name(), "HT_Event");
    assert_eq!(reg.get_klass_by_id(1).unwrap().get_fields().len(), 3);
    let event = reader.read_event(&mut reg).unwrap();
    assert_eq!(event.get_all_values().len(), 3);
    assert_eq!(event.get_value_u64("timestamp").unwrap(), 3);
}

#[test]
fn an_event_that_is_cut_short_is_reported() {
    let mut klass = EventKlass::new(100, "foo".to_owned());
    klass.add_field("base".to_owned(), "HT_Event".to_owned(), DataType::Struct);
    klass.add_field("u32_field".to_owned(), "uint32_t".to_owned(), DataType::U32);
    let mut reg = EventKlassRegistry::new();
    reg.add_klass(klass);

    let mut data = header(100, 0, 0);
    data.extend_from_slice(&[1, 2, 3]);
    let mut reader =
        EventReader::new(DataProvider::new(Box::new(FakeDataReader::new(data, false))));

    assert_eq!(
        reader.read_event(&mut reg).unwrap_err(),
        ReadEventError::DataError(DataError::EndOfStream)
    );
}

#[test]
fn events_can_be_read_with_a_new_registry() {
    assert!(can_decode(&EventKlassRegistry::new()));
}

#[test]
fn events_cannot_be_read_where_a_klass_asks_for_two_headers() {
    let mut reg = EventKlassRegistry::new();
    let mut child = EventKlass::new(99, "Child".to_owned());
    child.add_field("base".to_owned(), "HT_Event".to_owned(), DataType::Struct);
    reg.add_klass(child);
    assert!(can_decode(&reg));

    let mut twice = EventKlass::new(100, "twice".to_owned());
    twice.add_field("base".to_owned(), "HT_Event".to_owned(), DataType::Struct);
    twice.add_field("child".to_owned(), "Child".to_owned(), DataType::Struct);
    reg.add_klass(twice);
    assert!(!can_decode(&reg));
}

#[test]
fn events_cannot_be_read_where_the_header_asks_for_a_header() {
    let mut reg = EventKlassRegistry::new();
    reg.get_klass_by_id_mut(1).unwrap().add_field(
        "base".to_owned(),
        "HT_Event".to_owned(),
        DataType::Struct,
    );
    assert!(!can_decode(&reg));
}

#[test]
fn events_cannot_be_read_where_a_klass_holds_itself() {
    let mut data = klass_info(100, "foo", 1);
    data.extend_from_slice(&field_info(100, "foo", "again", 0, 1));
    let mut reg = EventKlassRegistry::new();
    let mut reader =
        EventReader::new(DataProvider::new(Box::new(FakeDataReader::new(data, false))));

    assert!(reader.read_event(&mut reg).is_ok());
    assert!(can_decode(&reg));
    assert!(reader.read_event(&mut reg).is_ok());
    assert!(!can_decode(&reg));
}
