use netcode::error::{DecodeError, FramingError};
use netcode::framing::{frame_message, payload_len, receive_message};
use netcode::serialization::byte_reader::ByteReader;
use netcode::serialization::byte_writer::ByteWriter;

#[test]
fn scalars_are_little_endian() {
    let mut buf = [0u8; 15];
    let mut writer = ByteWriter::new(&mut buf);
    writer.write_u8(0x01).write_u16(0x0302).write_u32(0x0706_0504).write_u64(0x0F0E_0D0C_0B0A_0908);
    assert_eq!(writer.bytes_written(), 15);
    assert_eq!(writer.space_remaining(), 0);
    assert_eq!(buf, [1, 2, 3, 4, 5, 6, 7, 8, 9, 10, 11, 12, 13, 14, 15]);
}

#[test]
fn signed_scalars_keep_their_bit_pattern() {
    let mut buf = [0u8; 15];
    let mut writer = ByteWriter::new(&mut buf);
    writer.write_i8(-1).write_i16(-2).write_i32(i32::MIN).write_i64(i64::MIN + 1);
    assert_eq!(
        buf,
        [0xFF, 0xFE, 0xFF, 0, 0, 0, 0x80, 1, 0, 0, 0, 0, 0, 0, 0x80]
    );
    let mut reader = ByteReader::new(&buf);
    assert_eq!(reader.read_i8(), Ok(-1));
    assert_eq!(reader.read_i16(), Ok(-2));
    assert_eq!(reader.read_i32(), Ok(i32::MIN));
    assert_eq!(reader.read_i64(), Ok(i64::MIN + 1));
    assert_eq!(reader.bytes_remaining(), 0);
}

#[test]
fn every_u16_pattern_round_trips() {
    let mut buf = [0u8; 2];
    for value in [0u16, 1, 0x7F, 0x80, 0xFF, 0x100, 0x7FFF, 0x8000, 0xB7C1, 0xFFFF] {
        ByteWriter::new(&mut buf).write_u16(value);
        assert_eq!(buf, value.to_le_bytes());
        assert_eq!(ByteReader::new(&buf).read_u16(), Ok(value));
    }
}

#[test]
fn wide_scalars_match_the_standard_encoding() {
    let mut buf = [0u8; 8];
    for value in [0u64, 1, 0xFF, 0x1234_5678_9876_5432, u64::MAX, 1 << 63] {
        ByteWriter::new(&mut buf).write_u64(value);
        assert_eq!(buf, value.to_le_bytes());
        assert_eq!(ByteReader::new(&buf).read_u64(), Ok(value));
    }
    let mut buf = [0u8; 4];
    for value in [0u32, 0xDEAD_BEEF, u32::MAX, 1 << 31] {
        ByteWriter::new(&mut buf).write_u32(value);
        assert_eq!(buf, value.to_le_bytes());
        assert_eq!(ByteReader::new(&buf).read_u32(), Ok(value));
    }
}

#[test]
fn reads_past_the_end_fail_and_move_nothing() {
    let buf = [1u8, 2, 3];
    let mut reader = ByteReader::new(&buf);
    assert_eq!(reader.read_u32(), Err(DecodeError::OutOfBounds));
    assert_eq!(reader.read_u64(), Err(DecodeError::OutOfBounds));
    assert_eq!(reader.bytes_read(), 0);
    assert_eq!(reader.read_u16(), Ok(0x0201));
    assert_eq!(reader.read_u16(), Err(DecodeError::OutOfBounds));
    assert_eq!(reader.read_i16(), Err(DecodeError::OutOfBounds));
    assert_eq!(reader.read_u8(), Ok(3));
    assert_eq!(reader.read_u8(), Err(DecodeError::OutOfBounds));
    assert_eq!(reader.read_bool(), Err(DecodeError::OutOfBounds));
    assert_eq!(reader.read_i8(), Err(DecodeError::OutOfBounds));
    assert_eq!(reader.read_str(), Err(DecodeError::OutOfBounds));
    assert_eq!(reader.read_varint15(), Err(DecodeError::OutOfBounds));
    assert_eq!(reader.bytes_read(), 3);
}

#[test]
fn the_last_byte_of_a_buffer_can_be_read() {
    let buf = [0x2Au8];
    let mut reader = ByteReader::new(&buf);
    assert!(reader.has_n_more(1));
    assert!(!reader.has_n_more(2));
    assert_eq!(reader.read_u8(), Ok(0x2A));
    assert!(reader.has_n_more(0));
}

#[test]
fn bool_reads_any_nonzero_byte_as_true() {
    let buf = [0u8, 1, 2, 0xFF];
    let mut reader = ByteReader::new(&buf);
    assert_eq!(reader.read_bool(), Ok(false));
    assert_eq!(reader.read_bool(), Ok(true));
    assert_eq!(reader.read_bool(), Ok(true));
    assert_eq!(reader.read_bool(), Ok(true));
}

#[test]
fn strings_carry_their_byte_length() {
    let mut buf = [0u8; 16];
    let mut writer = ByteWriter::new(&mut buf);
    writer.write_str("héllo");
    assert_eq!(writer.bytes_written(), 8);
    assert_eq!(writer.bytes(), &[6, 0, b'h', 0xC3, 0xA9, b'l', b'l', b'o']);

    let mut reader = ByteReader::new(&buf[..8]);
    assert_eq!(reader.read_str(), Ok("héllo"));
    assert_eq!(reader.bytes_remaining(), 0);
}

#[test]
fn the_empty_string_is_two_zero_bytes() {
    let mut buf = [0xAAu8; 4];
    let mut writer = ByteWriter::new(&mut buf);
    writer.write_str("");
    assert_eq!(writer.bytes(), &[0, 0]);
    let mut reader = ByteReader::new(&buf);
    assert_eq!(reader.read_str(), Ok(""));
    assert_eq!(reader.bytes_read(), 2);
}

#[test]
fn the_longest_string_round_trips() {
    let text = "x".repeat(65535);
    let mut buf = vec![0u8; 65537];
    let mut writer = ByteWriter::new(&mut buf);
    writer.write_str(&text);
    assert_eq!(writer.bytes_written(), 65537);
    let mut reader = ByteReader::new(&buf);
    assert_eq!(reader.read_str(), Ok(text.as_str()));
}

#[test]
fn a_string_that_is_not_utf8_is_refused() {
    let buf = [2u8, 0, 0xC3, 0x28, 7];
    let mut reader = ByteReader::new(&buf);
    assert_eq!(reader.read_str(), Err(DecodeError::InvalidUtf8));
    assert_eq!(reader.bytes_read(), 0);
    let buf = [3u8, 0, 0xED, 0xA0, 0x80];
    assert_eq!(ByteReader::new(&buf).read_str(), Err(DecodeError::InvalidUtf8));
}

#[test]
fn utf8_is_checked_at_its_edges() {
    // An overlong form of NUL, and a scalar beyond U+10FFFF.
    assert_eq!(ByteReader::new(&[2, 0, 0xC0, 0x80]).read_str(), Err(DecodeError::InvalidUtf8));
    assert_eq!(
        ByteReader::new(&[4, 0, 0xF4, 0x90, 0x80, 0x80]).read_str(),
        Err(DecodeError::InvalidUtf8)
    );
    // A lone continuation byte, and a sequence that ends too early.
    assert_eq!(ByteReader::new(&[1, 0, 0x80]).read_str(), Err(DecodeError::InvalidUtf8));
    assert_eq!(ByteReader::new(&[2, 0, 0xE2, 0x82]).read_str(), Err(DecodeError::InvalidUtf8));
    // The last scalar, and one of each width.
    assert_eq!(
        ByteReader::new(&[4, 0, 0xF4, 0x8F, 0xBF, 0xBF]).read_str(),
        Ok("\u{10FFFF}")
    );
    let text = "a\u{E9}\u{20AC}\u{1F600}";
    let mut buf = [0u8; 12];
    ByteWriter::new(&mut buf).write_str(text);
    assert_eq!(buf, [10, 0, 0x61, 0xC3, 0xA9, 0xE2, 0x82, 0xAC, 0xF0, 0x9F, 0x98, 0x80]);
    assert_eq!(ByteReader::new(&buf).read_str(), Ok(text));
}

#[test]
fn a_string_that_is_cut_off_is_refused() {
    let buf = [5u8, 0, b'a', b'b'];
    let mut reader = ByteReader::new(&buf);
    assert_eq!(reader.read_str(), Err(DecodeError::OutOfBounds));
    assert_eq!(reader.bytes_read(), 0);
}

#[test]
fn cursor_moves_are_exact() {
    let buf = [10u8, 11, 12, 13, 14, 15];
    let mut reader = ByteReader::new(&buf);
    assert_eq!(reader.total_src_size(), 6);
    reader.skip(2);
    assert_eq!(reader.bytes(), &[12, 13, 14, 15]);
    reader.back(1);
    assert_eq!(reader.read_u8(), Ok(11));
    reader.mark_start();
    assert_eq!(reader.total_src_size(), 4);
    assert_eq!(reader.bytes_read(), 0);
    reader.skip(3);
    reader.reset();
    assert_eq!(reader.read_u8(), Ok(12));
    let mut out = [0u8; 3];
    assert_eq!(reader.read(&mut out), Ok(()));
    assert_eq!(out, [13, 14, 15]);
    assert_eq!(reader.read(&mut out), Err(DecodeError::OutOfBounds));
    assert_eq!(out, [13, 14, 15]);
}

#[test]
fn writer_skip_and_raw_write() {
    let mut buf = [0u8; 6];
    let mut writer = ByteWriter::new(&mut buf);
    writer.skip(2).write(&[7, 8, 9]);
    assert_eq!(writer.bytes_written(), 5);
    assert_eq!(writer.space_remaining(), 1);
    assert_eq!(writer.into_bytes(), &[0, 0, 7, 8, 9]);
}

#[test]
fn varint15_takes_one_byte_below_128() {
    for value in [0u16, 1, 64, 127] {
        let mut buf = [0xEEu8; 2];
        let mut writer = ByteWriter::new(&mut buf);
        writer.write_varint15(value);
        assert_eq!(writer.bytes_written(), 1);
        assert_eq!(buf[0], value as u8);
        assert_eq!(ByteReader::new(&buf[..1]).read_varint15(), Ok(value));
    }
}

#[test]
fn varint15_takes_two_bytes_from_128() {
    let mut buf = [0u8; 2];
    ByteWriter::new(&mut buf).write_varint15(128);
    assert_eq!(buf, [0x80, 0x01]);
    ByteWriter::new(&mut buf).write_varint15(300);
    assert_eq!(buf, [0xAC, 0x02]);
    ByteWriter::new(&mut buf).write_varint15(32767);
    assert_eq!(buf, [0xFF, 0xFF]);
}

#[test]
fn varint15_round_trips_over_its_whole_range() {
    let mut buf = [0u8; 2];
    for value in 0u16..32768 {
        let mut writer = ByteWriter::new(&mut buf);
        writer.write_varint15(value);
        let used = writer.bytes_written();
        assert_eq!(used == 1, value < 128);
        let mut reader = ByteReader::new(&buf[..used]);
        assert_eq!(reader.read_varint15(), Ok(value));
        assert_eq!(reader.bytes_read(), used);
    }
}

#[test]
fn varint15_cut_after_its_first_byte_is_refused() {
    let buf = [0x80u8];
    let mut reader = ByteReader::new(&buf);
    assert_eq!(reader.read_varint15(), Err(DecodeError::OutOfBounds));
    assert_eq!(reader.bytes_read(), 0);
}

#[test]
fn right_aligned_varint15_ends_where_the_field_ends() {
    let mut buf = [0u8; 2];
    let mut writer = ByteWriter::new(&mut buf);
    assert_eq!(writer.write_varint15_r(5), 1);
    assert_eq!(writer.bytes_written(), 2);
    assert_eq!(buf, [7, 5]);
    assert_eq!(ByteReader::new(&buf[1..]).read_varint15(), Ok(5));

    let mut writer = ByteWriter::new(&mut buf);
    assert_eq!(writer.write_varint15_r(1000), 0);
    assert_eq!(writer.bytes_written(), 2);
    assert_eq!(ByteReader::new(&buf).read_varint15(), Ok(1000));
}

#[test]
fn message_length_is_patched_into_the_first_two_bytes() {
    let mut buf = [0xFFu8; 8];
    let mut writer = ByteWriter::new_for_message(&mut buf);
    assert_eq!(writer.bytes_written(), 2);
    writer.write_u32(0xAABB_CCDD);
    assert!(writer.write_message_len().is_ok());
    assert_eq!(writer.bytes(), &[4, 0, 0xDD, 0xCC, 0xBB, 0xAA]);
}

#[test]
fn message_length_saturates_at_zero() {
    let mut buf = [0xFFu8; 4];
    let mut writer = ByteWriter::new(&mut buf);
    writer.write_u8(9);
    assert!(writer.write_message_len().is_ok());
    assert_eq!(writer.bytes_written(), 1);
    assert_eq!(buf, [0, 0, 0xFF, 0xFF]);
}

#[test]
fn a_payload_too_long_for_the_prefix_is_refused() {
    let mut buf = vec![0x11u8; 65538];
    let mut writer = ByteWriter::new_for_message(&mut buf);
    writer.skip(65536);
    assert_eq!(writer.write_message_len().err(), Some(FramingError::Oversized));
    assert_eq!(&buf[..2], &[0x11, 0x11]);

    let mut writer = ByteWriter::new_for_message(&mut buf);
    writer.skip(65535);
    assert!(writer.write_message_len().is_ok());
    assert_eq!(&buf[..2], &[0xFF, 0xFF]);
}

#[test]
fn framing_round_trips_payloads_of_every_size_class() {
    for len in [0usize, 1, 2, 255, 256, 4096, 65535] {
        let payload: Vec<u8> = (0..len).map(|i| (i * 7 + 3) as u8).collect();
        let mut wire = vec![0u8; len + 2];
        let framed = frame_message(&mut wire, &payload).unwrap();
        assert_eq!(framed.len(), len + 2);
        assert_eq!(&framed[..2], &(len as u16).to_le_bytes());

        let mut stream = ByteReader::new(&wire);
        let mut buf = vec![0xEE; 5];
        let reader = receive_message(&mut stream, &mut buf).unwrap();
        assert_eq!(reader.bytes_read(), 0);
        assert_eq!(reader.bytes(), payload.as_slice());
        assert_eq!(reader.bytes_remaining(), len);
        assert_eq!(stream.bytes_remaining(), 0);
    }
}

#[test]
fn an_oversized_payload_is_not_framed() {
    let payload = vec![1u8; 65536];
    let mut wire = vec![9u8; 65538];
    assert_eq!(frame_message(&mut wire, &payload).err(), Some(FramingError::Oversized));
    assert!(wire.iter().all(|b| *b == 9));
}

#[test]
fn two_messages_come_out_in_the_order_they_went_in() {
    let mut wire = [0u8; 9];
    frame_message(&mut wire[..5], b"abc").unwrap();
    frame_message(&mut wire[5..], b"de").unwrap();
    let mut stream = ByteReader::new(&wire);
    let mut buf = Vec::new();
    assert_eq!(receive_message(&mut stream, &mut buf).unwrap().bytes(), b"abc");
    assert_eq!(receive_message(&mut stream, &mut buf).unwrap().bytes(), b"de");
    assert_eq!(receive_message(&mut stream, &mut buf).err(), Some(FramingError::Truncated));
}

#[test]
fn a_truncated_header_or_payload_is_reported() {
    let mut buf = vec![1, 2, 3];
    let wire = [5u8];
    let mut stream = ByteReader::new(&wire);
    assert_eq!(receive_message(&mut stream, &mut buf).err(), Some(FramingError::Truncated));
    assert_eq!(stream.bytes_read(), 0);
    assert_eq!(buf, [1, 2, 3]);

    let wire = [4u8, 0, 9, 9, 9];
    let mut stream = ByteReader::new(&wire);
    assert_eq!(receive_message(&mut stream, &mut buf).err(), Some(FramingError::Truncated));
    assert_eq!(stream.bytes_read(), 0);
    assert_eq!(buf, [1, 2, 3]);
}

#[test]
fn the_length_prefix_is_read_least_significant_byte_first() {
    assert_eq!(payload_len(&[0x34, 0x12]), 0x1234);
    assert_eq!(payload_len(&[0xFF, 0xFF]), 65535);
    assert_eq!(payload_len(&[0, 0]), 0);
}
