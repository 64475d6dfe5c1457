use bencode2json::rw::byte_reader::ByteReader;

#[test]
fn it_should_read_one_byte_from_the_input_consuming_it() {
    let input = vec![b'l', b'e'];

    let mut byte_reader = ByteReader::new(input.as_slice());

    assert_eq!(byte_reader.read_byte().unwrap(), b'l');
    assert_eq!(byte_reader.read_byte().unwrap(), b'e');
}

#[test]
fn it_should_fail_when_there_are_no_more_bytes_to_read() {
    let input = vec![b'l', b'e'];

    let mut byte_reader = ByteReader::new(input.as_slice());

    assert_eq!(byte_reader.read_byte().unwrap(), b'l');
    assert_eq!(byte_reader.read_byte().unwrap(), b'e');
    assert!(byte_reader.read_byte().is_err());
}

#[test]
fn it_should_increase_the_input_byte_counter_by_one_when_reading_a_new_byte() {
    let input = vec![b'l'];

    let mut byte_reader = ByteReader::new(input.as_slice());

    assert_eq!(byte_reader.read_byte().unwrap(), b'l');
    assert_eq!(byte_reader.input_byte_counter(), 1);
}

#[test]
fn it_should_return_the_last_read_byte() {
    let input = vec![b'l', b'e'];

    let mut byte_reader = ByteReader::new(input.as_slice());

    byte_reader.read_byte().unwrap();
    byte_reader.read_byte().unwrap();

    assert_eq!(byte_reader.last_byte(), Some(b'e'));
}

#[test]
fn it_should_allow_peeking_one_byte_from_the_input_without_consuming_it() {
    let input = vec![b'l'];

    let mut byte_reader = ByteReader::new(input.as_slice());

    assert_eq!(byte_reader.peek_byte().unwrap(), b'l');
    assert_eq!(byte_reader.peek_byte().unwrap(), b'l');
}

#[test]
fn when_reading_a_byte_it_should_use_a_peeked_one_if_there_is() {
    let input = vec![b'l'];

    let mut byte_reader = ByteReader::new(input.as_slice());

    assert_eq!(byte_reader.peek_byte().unwrap(), b'l');
    assert_eq!(byte_reader.read_byte().unwrap(), b'l');
}

#[test]
fn when_reading_a_byte_it_should_use_a_peeked_one_and_discard_it_after_using_it() {
    let input = vec![b'l'];

    let mut byte_reader = ByteReader::new(input.as_slice());

    assert_eq!(byte_reader.peek_byte().unwrap(), b'l'); // It peeks
    assert_eq!(byte_reader.read_byte().unwrap(), b'l'); // It uses the previously peeked byte
    assert!(byte_reader.peek_byte().is_err()); // There are no more bytes to peek
}

#[test]
fn it_should_not_increase_the_input_byte_counter_when_it_peeks_a_new_byte() {
    let input = vec![b'l'];

    let mut byte_reader = ByteReader::new(input.as_slice());

    assert_eq!(byte_reader.peek_byte().unwrap(), b'l');
    assert_eq!(byte_reader.input_byte_counter(), 0);
}

#[test]
fn it_should_increase_the_input_byte_counter_when_it_reads_the_peeked_byte() {
    let input = vec![b'l'];

    let mut byte_reader = ByteReader::new(input.as_slice());

    assert_eq!(byte_reader.peek_byte().unwrap(), b'l');
    assert_eq!(byte_reader.read_byte().unwrap(), b'l');
    assert_eq!(byte_reader.input_byte_counter(), 1);
}

#[test]
fn it_should_not_increase_the_input_byte_counter_when_peeking_a_cached_peeked_byte() {
    let input = vec![b'l'];

    let mut byte_reader = ByteReader::new(input.as_slice());

    // It peeks the first time
    assert_eq!(byte_reader.peek_byte().unwrap(), b'l');
    assert_eq!(byte_reader.input_byte_counter(), 0);

    // It peeks the second time
    assert_eq!(byte_reader.peek_byte().unwrap(), b'l');
    assert_eq!(byte_reader.input_byte_counter(), 0);
}

#[test]
fn it_should_capture_the_latest_read_byte() {
    let input = vec![b'a'];

    let mut byte_reader = ByteReader::new(input.as_slice());

    byte_reader.read_byte().unwrap();

    assert_eq!(byte_reader.captured_bytes(), input);
}

#[test]
fn byte_reader_it_should_capture_1024_bytes_at_the_most() {
    let mut part1 = vec![b'a'; 1024];
    let part2 = vec![b'b'; 1024];
    part1.extend_from_slice(&part2);

    let mut byte_reader = ByteReader::new(part1.as_slice());

    for _i in 1..=1024 * 2 {
        byte_reader.read_byte().unwrap();
    }

    assert_eq!(byte_reader.captured_bytes(), part2);
}
