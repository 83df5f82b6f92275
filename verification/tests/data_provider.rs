use hawktracer_parser::data_provider::{ByteSource, DataError, DataProvider};
use hawktracer_parser::test_utilities::FakeDataReader;

fn buffers_equal(b1: &[u8], b2: &[u8]) -> usize {
    return b1.iter().zip(b2).map(|(a, b)| assert_eq!(a, b)).count();
}

#[test]
fn should_not_set_eos_if_still_have_data() {
    let mut provider = DataProvider::new(Box::new(FakeDataReader::new(vec![1, 2, 3, 4], false)));
    let mut buf = [0u8; 2];
    assert!(provider.read_bytes(&mut buf).is_ok());

    buffers_equal(&buf, &[1, 2]);
}

#[test]
fn should_set_eos_if_try_to_read_too_much_data() {
    let mut provider = DataProvider::new(Box::new(FakeDataReader::new(vec![1, 2, 3, 4], false)));
    let mut buf = [0u8; 5];
    assert!(provider.read_bytes(&mut buf).is_err());

    buffers_equal(&buf[0..4], &[1, 2, 3, 4]);
}

#[test]
fn should_fail_if_data_reader_fails() {
    let mut provider = DataProvider::new(Box::new(FakeDataReader::new(vec![1, 2, 3, 4], true)));
    let mut buf = [0u8; 2];

    assert!(provider.read_bytes(&mut buf).is_err());
}

#[test]
fn read_string_should_not_fail_if_valid_string() {
    let mut provider =
        DataProvider::new(Box::new(FakeDataReader::new(vec![65, 66, 0, 3], false)));

    let message = provider.read_string();
    assert!(message.is_ok());
    assert_eq!("AB", message.unwrap());
}

#[test]
fn read_string_should_fail_if_no_zero_at_the_end() {
    let mut provider =
        DataProvider::new(Box::new(FakeDataReader::new(vec![65, 66, 67, 68], false)));

    let message = provider.read_string();
    assert!(message.is_err());
}

#[test]
fn read_string_should_fail_if_non_utf8_string() {
    let mut provider =
        DataProvider::new(Box::new(FakeDataReader::new(vec![65, 220, 0, 5], false)));

    let message = provider.read_string();
    assert!(message.is_err());
}

#[test]
fn read_bytes_of_exactly_what_is_there_succeeds() {
    let mut provider = DataProvider::new(Box::new(FakeDataReader::new(vec![9, 8, 7], false)));
    let mut buf = [0u8; 3];
    assert_eq!(provider.read_bytes(&mut buf), Ok(()));
    assert_eq!(buf, [9, 8, 7]);

    let mut one = [0u8; 1];
    assert_eq!(provider.read_bytes(&mut one), Err(DataError::EndOfStream));
}

#[test]
fn read_bytes_of_too_many_reports_the_end_of_the_stream() {
    let mut provider = DataProvider::new(Box::new(FakeDataReader::new(vec![1, 2, 3, 4], false)));
    let mut buf = [7u8; 6];
    assert_eq!(provider.read_bytes(&mut buf), Err(DataError::EndOfStream));
    assert_eq!(buf, [1, 2, 3, 4, 7, 7]);

    let mut one = [0u8; 1];
    assert_eq!(provider.read_bytes(&mut one), Err(DataError::EndOfStream));
}

#[test]
fn read_bytes_of_nothing_succeeds_on_an_empty_stream() {
    let mut provider = DataProvider::new(Box::new(FakeDataReader::new(vec![], false)));
    let mut buf = [0u8; 0];
    assert_eq!(provider.read_bytes(&mut buf), Ok(()));
}

#[test]
fn read_bytes_from_a_failing_source_reports_the_failure() {
    let mut provider = DataProvider::new(Box::new(FakeDataReader::new(vec![1, 2, 3, 4], true)));
    let mut buf = [0u8; 2];
    match provider.read_bytes(&mut buf) {
        Err(DataError::IOError(error)) => assert_eq!(error.message, "Fail"),
        other => panic!("unexpected result {:?}", other),
    }
    assert_eq!(buf, [0, 0]);
}

#[test]
fn read_bytes_goes_on_over_several_refills() {
    let mut data = vec![];
    for i in 0..1300u32 {
        data.push((i % 251) as u8);
    }
    let mut provider = DataProvider::new(Box::new(FakeDataReader::new(data.clone(), false)));
    let mut first = [0u8; 700];
    assert_eq!(provider.read_bytes(&mut first), Ok(()));
    assert_eq!(&first[..], &data[0..700]);
    let mut second = [0u8; 600];
    assert_eq!(provider.read_bytes(&mut second), Ok(()));
    assert_eq!(&second[..], &data[700..1300]);
    let mut third = [0u8; 1];
    assert_eq!(provider.read_bytes(&mut third), Err(DataError::EndOfStream));
}

#[test]
fn read_string_decodes_abc() {
    let mut provider =
        DataProvider::new(Box::new(FakeDataReader::new(vec![65, 66, 67, 0], false)));
    assert_eq!(provider.read_string(), Ok("ABC".to_string()));
}

#[test]
fn read_string_without_terminator_reports_the_end_of_the_stream() {
    let mut provider = DataProvider::new(Box::new(FakeDataReader::new(vec![65, 66, 67], false)));
    assert_eq!(provider.read_string(), Err(DataError::EndOfStream));
}

#[test]
fn read_string_of_invalid_utf8_reports_it_and_goes_on_behind_the_terminator() {
    let mut provider =
        DataProvider::new(Box::new(FakeDataReader::new(vec![220, 0, 72, 105, 0], false)));
    assert_eq!(provider.read_string(), Err(DataError::Utf8Error));
    assert_eq!(provider.read_string(), Ok("Hi".to_string()));
}

#[test]
fn read_string_takes_only_the_terminator_off_the_stream() {
    let mut provider =
        DataProvider::new(Box::new(FakeDataReader::new(vec![0, 195, 169, 0, 5], false)));
    assert_eq!(provider.read_string(), Ok("".to_string()));
    assert_eq!(provider.read_string(), Ok("\u{e9}".to_string()));
    let mut buf = [0u8; 1];
    assert_eq!(provider.read_bytes(&mut buf), Ok(()));
    assert_eq!(buf, [5]);
}

#[test]
fn fake_data_reader_hands_out_its_bytes_in_order() {
    let mut reader = FakeDataReader::new(vec![1, 2, 3, 4, 5], false);
    let mut buf = [0u8; 3];
    assert_eq!(reader.read(&mut buf).unwrap(), 3);
    assert_eq!(buf, [1, 2, 3]);
    assert_eq!(reader.read(&mut buf).unwrap(), 2);
    assert_eq!(buf, [4, 5, 3]);
    assert_eq!(reader.read(&mut buf).unwrap(), 0);
    assert_eq!(reader.read(&mut buf).unwrap(), 0);
}

#[test]
fn fake_data_reader_that_fails_keeps_failing() {
    let mut reader = FakeDataReader::new(vec![1, 2, 3], true);
    let mut buf = [0u8; 3];
    assert_eq!(reader.read(&mut buf).unwrap_err().message, "Fail");
    assert_eq!(reader.read(&mut buf).unwrap_err().message, "Fail");
    assert_eq!(buf, [0, 0, 0]);
}
