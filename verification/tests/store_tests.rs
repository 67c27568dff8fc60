use loomz::store::{SaveError, SaveFileHeader, SaveFileReader, SaveFileWriter, MAGIC, ALIGN, HEADER_WORDS};

fn finished(writer: SaveFileWriter) -> Vec<u8> {
    writer.finalize()
}

#[test]
fn header_new() {
    let header = SaveFileHeader::new();
    assert_eq!(header.magic, 0x6FAA7601);
    assert_eq!(header.magic, MAGIC);
    assert_eq!(header.size, 0);
    assert_eq!(ALIGN, 4);
    assert_eq!(HEADER_WORDS, 2);
}

#[test]
fn empty_file_round_trip() {
    let bytes = finished(SaveFileWriter::new());
    assert_eq!(bytes.len(), 8);
    assert_eq!(&bytes[0..4], &MAGIC.to_le_bytes());
    assert_eq!(&bytes[4..8], &2u32.to_le_bytes());
    let reader = SaveFileReader::new(&bytes).ok().unwrap();
    assert_eq!(reader.current_offset(), 2);
}

#[test]
fn values_round_trip() {
    let mut writer = SaveFileWriter::new();
    writer.write_u32(7);
    writer.write(&[1, 2, 3]);
    writer.write_slice(&[10, 11, 12, 13], 2);
    writer.write_bool_slice(&[true, false, true]);
    writer.write_str("hello");
    writer.write_str("");
    let bytes = writer.finalize();

    let mut reader = SaveFileReader::new(&bytes).ok().unwrap();
    assert_eq!(reader.read_u32(), 7);
    assert_eq!(reader.read(3), vec![1, 2, 3]);
    assert_eq!(reader.read_slice(2), vec![10, 11, 12, 13]);
    assert_eq!(reader.read_bool_vec(), vec![true, false, true]);
    assert_eq!(reader.read_str(), "hello".to_string());
    assert_eq!(reader.read_str(), "".to_string());
    assert_eq!(reader.current_offset() * 4, bytes.len());
}

#[test]
fn string_padding_is_at_least_one_byte() {
    let mut writer = SaveFileWriter::new();
    writer.write_str("abcd");
    let bytes = writer.finalize();
    // header, length, padded length, then 8 bytes of text and padding
    assert_eq!(bytes.len(), 8 + 8 + 8);
    assert_eq!(&bytes[8..12], &4u32.to_le_bytes());
    assert_eq!(&bytes[12..16], &8u32.to_le_bytes());
    assert_eq!(&bytes[16..24], b"abcd\0\0\0\0");
}

#[test]
fn reader_too_small() {
    assert!(matches!(SaveFileReader::new(&[1, 2, 3]), Err(SaveError::TooSmall)));
}

#[test]
fn reader_bad_magic() {
    let mut bytes = finished(SaveFileWriter::new());
    bytes[0] ^= 0xFF;
    assert!(matches!(SaveFileReader::new(&bytes), Err(SaveError::BadMagic)));
}

#[test]
fn reader_size_mismatch() {
    let mut bytes = finished(SaveFileWriter::new());
    bytes.extend_from_slice(&[0, 0, 0, 0]);
    assert!(matches!(SaveFileReader::new(&bytes), Err(SaveError::SizeMismatch)));
}

#[test]
fn invalid_utf8_reads_as_error_text() {
    let mut words: Vec<u8> = Vec::new();
    words.extend_from_slice(&MAGIC.to_le_bytes());
    words.extend_from_slice(&5u32.to_le_bytes());
    words.extend_from_slice(&2u32.to_le_bytes());
    words.extend_from_slice(&4u32.to_le_bytes());
    words.extend_from_slice(&[0xFF, 0xFE, 0x41, 0x42]);
    let mut reader = SaveFileReader::new(&words).ok().unwrap();
    assert_eq!(reader.read_str(), "UTF8 DECODING ERROR".to_string());
}

#[test]
fn valid_utf8_multibyte_round_trip() {
    let mut writer = SaveFileWriter::new();
    writer.write_str("héllo ✓");
    let bytes = writer.finalize();
    let mut reader = SaveFileReader::new(&bytes).ok().unwrap();
    assert_eq!(reader.read_str(), "héllo ✓".to_string());
}

#[test]
fn word_after_string_reads_back() {
    for text in ["", "abc", "abcd", "abcdefg"] {
        let mut writer = SaveFileWriter::new();
        writer.write_str(text);
        writer.write_u32(0xDEAD);
        let bytes = writer.finalize();
        let mut reader = SaveFileReader::new(&bytes).ok().unwrap();
        let start = reader.current_offset();
        assert_eq!(reader.read_str(), text.to_string());
        let len = text.len();
        assert_eq!(reader.current_offset(), start + 2 + (len + 4 - len % 4) / 4);
        assert_eq!(reader.read_u32(), 0xDEAD);
    }
}

#[test]
fn values_read_back_in_write_order() {
    let mut writer = SaveFileWriter::new();
    writer.write_u32(11);
    writer.write(&[2.5f32.to_bits()]);
    writer.write_bool_slice(&[false, true]);
    writer.write_slice(&[1, 2, 3, 4, 5, 6], 3);
    writer.write_u32(99);
    let bytes = writer.finalize();
    let mut reader = SaveFileReader::new(&bytes).ok().unwrap();
    assert_eq!(reader.read_u32(), 11);
    assert_eq!(f32::from_bits(reader.read(1)[0]), 2.5);
    assert_eq!(reader.read_bool_vec(), vec![false, true]);
    assert_eq!(reader.read_slice(3), vec![1, 2, 3, 4, 5, 6]);
    assert_eq!(reader.read_u32(), 99);
}
