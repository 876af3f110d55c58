use std::io::Write;

use flate2::write::GzEncoder;
use flate2::Compression;
use nba_data::decoder::{decode_unpacked, decompress_or_convert};
use nba_data::error::FetchError;

fn gzip(data: &[u8]) -> Vec<u8> {
    let mut encoder = GzEncoder::new(Vec::new(), Compression::default());
    encoder.write_all(data).unwrap();
    encoder.finish().unwrap()
}

#[test]
fn gzip_payload_is_unpacked() {
    let packed = gzip("{\"resultSets\": []}".as_bytes());
    assert_ne!(packed, "{\"resultSets\": []}".as_bytes());
    assert_eq!(decompress_or_convert(&packed), Ok("{\"resultSets\": []}".to_string()));
}

#[test]
fn gzip_payload_keeps_text_outside_ascii() {
    let packed = gzip("Luka Dončić, 32.4".as_bytes());
    assert_eq!(decompress_or_convert(&packed), Ok("Luka Dončić, 32.4".to_string()));
}

#[test]
fn plain_text_payload_is_read_as_it_is() {
    let bytes = "[{\"player\": \"Nikola Jokić\"}]".as_bytes();
    assert_eq!(decompress_or_convert(bytes), Ok("[{\"player\": \"Nikola Jokić\"}]".to_string()));
}

#[test]
fn empty_payload_is_empty_text() {
    assert_eq!(decompress_or_convert(&[]), Ok(String::new()));
}

#[test]
fn payload_that_is_neither_is_an_encoding_error() {
    assert_eq!(decompress_or_convert(&[0xff, 0xfe, 0x00, 0x80]), Err(FetchError::Encoding));
}

#[test]
fn truncated_gzip_falls_back_and_fails_as_text() {
    let mut packed = gzip("a long enough text to be cut in the middle of the stream".as_bytes());
    packed.truncate(packed.len() / 2);
    assert_eq!(decompress_or_convert(&packed), Err(FetchError::Encoding));
}

#[test]
fn gzip_of_bytes_that_are_no_text_is_an_encoding_error() {
    let packed = gzip(&[0xff, 0xff, 0xff]);
    assert_eq!(decompress_or_convert(&packed), Err(FetchError::Encoding));
}

#[test]
fn unpacked_text_wins_over_the_payload() {
    assert_eq!(decode_unpacked(Some("unpacked".to_string()), "raw".as_bytes()), Ok("unpacked".to_string()));
    assert_eq!(decode_unpacked(Some("unpacked".to_string()), &[0xff]), Ok("unpacked".to_string()));
}

#[test]
fn failed_unpacking_reads_the_payload() {
    assert_eq!(decode_unpacked(None, "raw é".as_bytes()), Ok("raw é".to_string()));
    assert_eq!(decode_unpacked(None, &[0xc3]), Err(FetchError::Encoding));
    assert_eq!(decode_unpacked(None, &[0xed, 0xa0, 0x80]), Err(FetchError::Encoding));
}

#[test]
fn bytes_that_are_no_utf8_are_refused() {
    let refused: [&[u8]; 7] = [
        &[0x80],
        &[0xc0, 0x80],
        &[0xe0, 0x80, 0x80],
        &[0xed, 0xa0, 0x80],
        &[0xf4, 0x90, 0x80, 0x80],
        &[0xf8, 0x88, 0x80, 0x80, 0x80],
        &[0x41, 0xe2, 0x82],
    ];
    for bytes in refused {
        assert_eq!(decode_unpacked(None, bytes), Err(FetchError::Encoding));
    }
}

#[test]
fn utf8_of_every_width_is_read() {
    assert_eq!(decode_unpacked(None, &[0x41]), Ok("A".to_string()));
    assert_eq!(decode_unpacked(None, &[0xc4, 0x87]), Ok("ć".to_string()));
    assert_eq!(decode_unpacked(None, &[0xe2, 0x82, 0xac]), Ok("€".to_string()));
    assert_eq!(decode_unpacked(None, &[0xf0, 0x9f, 0x8f, 0x80]), Ok("🏀".to_string()));
    assert_eq!(decode_unpacked(None, &[0xf4, 0x8f, 0xbf, 0xbf]), Ok("\u{10ffff}".to_string()));
}
