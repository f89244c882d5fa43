use netcode::serialization::bit_reader::BitReader;
use netcode::serialization::bit_writer::BitWriter;

#[test]
fn mixed_widths_read_back_and_add_up() {
    let mut buf = [0u8; 12];
    let mut writer = BitWriter::new(&mut buf);
    assert_eq!(writer.uint(0x123, 12), 0x123);
    assert_eq!(writer.bool(true), true);
    assert_eq!(writer.uint(0x4D, 7), 0x4D);
    assert_eq!(writer.sint(-12345678, 28), -12345678);
    assert_eq!(writer.sint(134217727, 28), 134217727);
    writer.flush_partials();
    assert_eq!(writer.bits_written(), 12 + 1 + 7 + 28 + 28);

    let mut reader = BitReader::new(&buf);
    assert_eq!(reader.uint(12), 0x123);
    assert_eq!(reader.bool(), true);
    assert_eq!(reader.uint(7), 0x4D);
    assert_eq!(reader.sint(28), -12345678);
    assert_eq!(reader.sint(28), 134217727);
}

#[test]
fn bits_are_packed_lowest_first_into_little_endian_words() {
    let mut buf = [0u8; 8];
    let mut writer = BitWriter::new(&mut buf);
    writer.uint(0b101, 3);
    writer.uint(0xFF, 8);
    writer.uint(1, 1);
    writer.flush_partials();
    assert_eq!(writer.bits_written(), 12);
    assert_eq!(writer.compute_bytes_written(), 2);
    assert_eq!(buf, [0xFD, 0x0F, 0, 0, 0, 0, 0, 0]);
}

#[test]
fn room_can_be_asked_for_before_a_write() {
    let mut buf = [0u8; 4];
    let mut writer = BitWriter::new(&mut buf);
    assert_eq!(writer.bit_len(), 0);
    assert!(writer.has_room(32));
    assert!(writer.can_flush());
    writer.uint(0x1FF, 9);
    assert_eq!(writer.bit_len(), 9);
    assert!(writer.has_room(23));
    assert!(writer.can_flush());
    writer.uint(0x7F_FFFF, 23);
    assert_eq!(writer.bit_len(), 32);
    // The buffer is full: a bit more has room only while it fills no word.
    assert!(writer.has_room(0));
    assert!(writer.has_room(31));
    assert!(!writer.has_room(32));
    assert!(writer.can_flush());
    writer.uint(1, 1);
    assert_eq!(writer.bit_len(), 33);
    assert!(!writer.can_flush());
    assert!(writer.has_room(30));
    assert!(!writer.has_room(31));
    assert_eq!(buf, [0xFF; 4]);

    let mut none: [u8; 0] = [];
    let writer = BitWriter::new(&mut none);
    assert!(writer.can_flush());
    assert!(writer.has_room(31));
    assert!(!writer.has_room(32));
}

#[test]
fn a_run_of_fields_reads_back_for_every_width() {
    let mut buf = [0u8; 4 * 33];
    let mut writer = BitWriter::new(&mut buf);
    let mut total = 0usize;
    for width in 0..=32u32 {
        let value = if width == 32 { 0x9E37_79B9 } else { 0x9E37_79B9u32 & ((1 << width) - 1) };
        assert!(writer.has_room(width));
        writer.uint(value, width);
        total += width as usize;
        assert_eq!(writer.bit_len(), total);
    }
    assert!(writer.can_flush());
    writer.flush_partials();
    assert_eq!(writer.bits_written(), total);
    let mut reader = BitReader::new(&buf);
    for width in 0..=32u32 {
        let value = if width == 32 { 0x9E37_79B9 } else { 0x9E37_79B9u32 & ((1 << width) - 1) };
        assert_eq!(reader.uint(width), value);
    }
}

#[test]
fn bits_written_counts_whole_words_until_the_flush() {
    let mut buf = [0u8; 8];
    let mut writer = BitWriter::new(&mut buf);
    writer.uint(0x3FF, 10);
    assert_eq!(writer.bits_written(), 0);
    writer.uint(0xABCDEF, 24);
    assert_eq!(writer.bits_written(), 32);
    assert_eq!(writer.compute_bytes_written(), 4);
    writer.flush_partials();
    assert_eq!(writer.bits_written(), 34);
    assert_eq!(writer.compute_bytes_written(), 5);
}

#[test]
fn without_a_flush_the_last_bits_never_reach_the_buffer() {
    let mut buf = [0u8; 4];
    let mut writer = BitWriter::new(&mut buf);
    writer.uint(0x7FFF_FFFF, 31);
    assert_eq!(writer.bits_written(), 0);
    assert_eq!(buf, [0, 0, 0, 0]);
}

#[test]
fn a_flush_of_whole_words_writes_nothing_more() {
    let mut buf = [0u8; 8];
    let mut writer = BitWriter::new(&mut buf);
    writer.uint(0xDEAD_BEEF, 32);
    writer.flush_partials();
    assert_eq!(writer.bits_written(), 32);
    assert_eq!(buf, [0xEF, 0xBE, 0xAD, 0xDE, 0, 0, 0, 0]);
}

#[test]
fn a_value_wider_than_its_field_reaches_the_next_field() {
    let mut buf = [0u8; 4];
    let mut writer = BitWriter::new(&mut buf);
    writer.uint(0b1111, 2);
    writer.uint(0b00, 2);
    writer.flush_partials();
    let mut reader = BitReader::new(&buf);
    assert_eq!(reader.uint(2), 0b11);
    assert_eq!(reader.uint(2), 0b11);
}

#[test]
fn signed_values_use_offset_binary() {
    let mut buf = [0u8; 4];
    let mut writer = BitWriter::new(&mut buf);
    writer.sint(-4, 3);
    writer.sint(0, 3);
    writer.sint(3, 3);
    writer.flush_partials();
    let mut reader = BitReader::new(&buf);
    assert_eq!(reader.uint(3), 0);
    assert_eq!(reader.uint(3), 4);
    assert_eq!(reader.uint(3), 7);
}

#[test]
fn signed_values_of_full_width_round_trip() {
    let mut buf = [0u8; 16];
    let mut writer = BitWriter::new(&mut buf);
    writer.sint(i32::MIN, 32);
    writer.sint(i32::MAX, 32);
    writer.sint(-1, 32);
    writer.sint(0, 1);
    writer.sint(-1, 1);
    writer.flush_partials();
    assert_eq!(writer.bits_written(), 98);
    let mut reader = BitReader::new(&buf);
    assert_eq!(reader.sint(32), i32::MIN);
    assert_eq!(reader.sint(32), i32::MAX);
    assert_eq!(reader.sint(32), -1);
    assert_eq!(reader.sint(1), 0);
    assert_eq!(reader.sint(1), -1);
}

#[test]
fn a_width_of_zero_writes_and_reads_nothing() {
    let mut buf = [0u8; 4];
    let mut writer = BitWriter::new(&mut buf);
    writer.uint(0, 0);
    writer.uint(5, 3);
    writer.flush_partials();
    assert_eq!(writer.bits_written(), 3);
    let mut reader = BitReader::new(&buf);
    assert_eq!(reader.uint(0), 0);
    assert_eq!(reader.uint(3), 5);
}

#[test]
fn reads_past_the_end_give_zero_for_ever() {
    let buf = [0xFFu8; 3];
    let mut reader = BitReader::new(&buf);
    assert_eq!(reader.uint(24), 0xFF_FFFF);
    for _ in 0..100 {
        assert_eq!(reader.uint(32), 0);
        assert_eq!(reader.uint(7), 0);
        assert_eq!(reader.bool(), false);
        assert_eq!(reader.sint(8), 0);
        assert_eq!(reader.sint(1), 0);
        assert_eq!(reader.sint(32), 0);
        assert!(reader.exhausted());
    }
}

#[test]
fn a_signed_read_of_an_exhausted_source_gives_zero() {
    for width in 1..=32u32 {
        let mut reader = BitReader::new(&[]);
        assert!(reader.exhausted());
        assert_eq!(reader.sint(width), 0);
        assert_eq!(reader.sint(width), 0);
    }
    let buf = [0xFFu8; 5];
    let mut reader = BitReader::new(&buf);
    assert!(!reader.exhausted());
    assert_eq!(reader.uint(32), 0xFFFF_FFFF);
    assert_eq!(reader.uint(7), 0x7F);
    // One bit of the source is left: the read runs over the end.
    assert!(!reader.exhausted());
    assert_eq!(reader.sint(4), 1 - 8);
    assert!(reader.exhausted());
    assert_eq!(reader.sint(4), 0);
    assert_eq!(reader.uint(4), 0);
    assert_eq!(reader.bool(), false);
}

#[test]
fn an_empty_source_reads_as_zeros() {
    let mut reader = BitReader::new(&[]);
    assert!(reader.exhausted());
    assert_eq!(reader.uint(32), 0);
    assert_eq!(reader.uint(1), 0);
    assert_eq!(reader.bool(), false);
}

#[test]
fn a_read_that_straddles_the_end_is_padded_with_zeros() {
    let buf = [0xABu8, 0xCD];
    let mut reader = BitReader::new(&buf);
    assert_eq!(reader.uint(12), 0xDAB);
    assert_eq!(reader.uint(12), 0x00C);
}

#[test]
fn many_words_read_back_in_order() {
    let mut buf = [0u8; 400];
    let mut writer = BitWriter::new(&mut buf);
    for i in 0..100u32 {
        writer.uint(i * 2654435761u32 >> 7, 25);
        writer.bool(i % 3 == 0);
    }
    writer.flush_partials();
    assert_eq!(writer.bits_written(), 2600);
    let used = writer.compute_bytes_written();
    assert_eq!(used, 325);
    let mut reader = BitReader::new(&buf[..used]);
    for i in 0..100u32 {
        assert_eq!(reader.uint(25), i * 2654435761u32 >> 7);
        assert_eq!(reader.bool(), i % 3 == 0);
    }
    assert_eq!(reader.uint(32), 0);
}
