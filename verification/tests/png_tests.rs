use pngme::chunk::Chunk;
use pngme::chunk_type::ChunkType;
use pngme::crc32::crc;
use pngme::error::PngError;
use pngme::png::{signature, Png};
use std::str::FromStr;

fn make_chunk(ty: &str, data: &[u8]) -> Chunk {
    Chunk::new(ChunkType::from_str(ty).unwrap(), data.to_vec())
}

fn make_png_bytes(chunks: Vec<Chunk>) -> Vec<u8> {
    let png = Png::from_chunks(chunks);
    png.as_bytes()
}

fn standard_chunks() -> Vec<Chunk> {
    vec![
        make_chunk("IHDR", &[0; 13]),
        make_chunk("IDAT", &[1, 2, 3]),
        make_chunk("IEND", &[]),
    ]
}

#[test]
fn test_crc_spec_vector() {
    let bytes: Vec<u8> = "RuSt"
        .as_bytes()
        .iter()
        .chain("This is where your secret message will be!".as_bytes().iter())
        .copied()
        .collect();
    assert_eq!(crc(bytes.as_slice()), 2882656334);
}

#[test]
fn test_chunk_type_property_bits() {
    let t = ChunkType::from_str("RuSt").unwrap();
    assert!(t.is_valid());
    assert!(t.is_critical());
    assert!(!t.is_public());
    assert!(t.is_reserved_bit_valid());
    assert!(t.is_safe_to_copy());
}

#[test]
fn test_chunk_round_trip_wire() {
    let chunk = make_chunk("RuSt", "This is where your secret message will be!".as_bytes());
    let bytes = chunk.as_bytes();
    assert_eq!(&bytes[0..8], &[0x00, 0x00, 0x00, 0x2A, 0x52, 0x75, 0x53, 0x74]);
    // 2882656334 written big-endian
    assert_eq!(&bytes[bytes.len() - 4..], &[0xAB, 0xD1, 0xD8, 0x4E]);
    let parsed = Chunk::parse(bytes.as_slice()).unwrap();
    assert!(parsed == chunk);
}

#[test]
fn test_parse_crc_mismatch_error() {
    let chunk = make_chunk("RuSt", "This is where your secret message will be!".as_bytes());
    let mut bytes = chunk.as_bytes();
    let n = bytes.len();
    assert_eq!(&bytes[n - 4..], &[0xAB, 0xD1, 0xD8, 0x4E]);
    bytes[n - 1] = 0x4D;
    assert_eq!(Chunk::parse(bytes.as_slice()).unwrap_err(), PngError::CrcMismatch);
}

#[test]
fn test_empty_data_chunk_round_trip() {
    let chunk = make_chunk("teXt", &[]);
    assert_eq!(chunk.length(), 0);
    assert_eq!(chunk.crc(), crc("teXt".as_bytes()));
    let bytes = chunk.as_bytes();
    assert_eq!(bytes.len(), 12);
    let parsed = Chunk::parse(bytes.as_slice()).unwrap();
    assert!(parsed == chunk);
}

#[test]
fn test_overlong_length_rejected() {
    // A declared length past the PNG limit of 2^31 - 1 cannot be honored.
    let mut bytes: Vec<u8> = vec![0x80, 0x00, 0x00, 0x00];
    bytes.extend_from_slice("RuSt".as_bytes());
    bytes.extend_from_slice(&[0, 0, 0, 0]);
    assert_eq!(Chunk::parse(bytes.as_slice()).unwrap_err(), PngError::Truncated);
}

#[test]
fn test_truncated_chunk_rejected() {
    let chunk = make_chunk("RuSt", &[1, 2, 3, 4]);
    let bytes = chunk.as_bytes();
    // fewer than twelve bytes
    assert_eq!(Chunk::parse(&bytes[0..11]).unwrap_err(), PngError::Truncated);
    // fewer bytes than the declared length needs
    assert_eq!(Chunk::parse(&bytes[0..bytes.len() - 1]).unwrap_err(), PngError::Truncated);
}

#[test]
fn test_nonalphabetic_type_rejected() {
    // at construction time
    assert_eq!(ChunkType::from_str("Ru1t").unwrap_err(), PngError::InvalidTypeByte);
    assert_eq!(
        ChunkType::from_bytes([82, 117, 49, 116]).unwrap_err(),
        PngError::InvalidTypeByte
    );
    // at parse time, with a checksum that would otherwise be right
    let mut body: Vec<u8> = "Ru1t".as_bytes().to_vec();
    body.extend_from_slice("hi".as_bytes());
    let checksum = crc(body.as_slice());
    let mut bytes: Vec<u8> = vec![0, 0, 0, 2];
    bytes.extend_from_slice(body.as_slice());
    bytes.extend_from_slice(&checksum.to_be_bytes());
    assert_eq!(Chunk::parse(bytes.as_slice()).unwrap_err(), PngError::InvalidTypeByte);
}

#[test]
fn test_invalid_type_length_error() {
    assert_eq!(ChunkType::from_str("RuSta").unwrap_err(), PngError::InvalidTypeLength);
    assert_eq!(ChunkType::from_str("RuS").unwrap_err(), PngError::InvalidTypeLength);
}

#[test]
fn test_png_file_round_trip() {
    let bytes = make_png_bytes(standard_chunks());
    let png = Png::from_bytes(bytes.as_slice()).unwrap();
    assert_eq!(png.as_bytes(), bytes);
}

#[test]
fn test_png_signature() {
    let sig = signature();
    assert_eq!(sig, [137, 80, 78, 71, 13, 10, 26, 10]);
    assert_eq!(sig, Png::SIGNATURE);
    let bytes = make_png_bytes(standard_chunks());
    assert_eq!(&bytes[0..8], &sig);
}

#[test]
fn test_bad_signature_error() {
    let mut bytes = make_png_bytes(standard_chunks());
    bytes[0] = 0;
    assert_eq!(Png::from_bytes(bytes.as_slice()).unwrap_err(), PngError::BadSignature);
    assert_eq!(Png::from_bytes(&bytes[0..4]).unwrap_err(), PngError::BadSignature);
}

#[test]
fn test_no_iend_error() {
    let bytes = make_png_bytes(vec![
        make_chunk("IHDR", &[0; 13]),
        make_chunk("IDAT", &[1, 2, 3]),
    ]);
    assert_eq!(Png::from_bytes(bytes.as_slice()).unwrap_err(), PngError::NoIend);
    // a bare signature has no chunks at all
    let sig = signature();
    assert_eq!(Png::from_bytes(&sig).unwrap_err(), PngError::NoIend);
}

#[test]
fn test_trailing_garbage_error() {
    let mut bytes = make_png_bytes(standard_chunks());
    bytes.extend_from_slice(make_chunk("ruSt", &[7]).as_bytes().as_slice());
    assert_eq!(Png::from_bytes(bytes.as_slice()).unwrap_err(), PngError::TrailingGarbage);
}

#[test]
fn test_not_utf8_error() {
    let chunk = make_chunk("ruSt", &[0xff, 0xfe]);
    assert_eq!(chunk.data_as_string().unwrap_err(), PngError::NotUtf8);
}

#[test]
fn test_data_as_string_decodes_multibyte_text() {
    let text = "gr\u{fc}\u{df}e \u{2764}";
    let chunk = make_chunk("ruSt", text.as_bytes());
    assert_eq!(chunk.data_as_string().unwrap(), text);
}

#[test]
fn test_chunk_by_type_returns_first_match() {
    let chunks = vec![
        make_chunk("IHDR", &[0; 13]),
        make_chunk("ruSt", "first".as_bytes()),
        make_chunk("ruSt", "second".as_bytes()),
        make_chunk("IEND", &[]),
    ];
    let bytes = make_png_bytes(chunks);
    let png = Png::from_bytes(bytes.as_slice()).unwrap();
    let found = png.chunk_by_type("ruSt").unwrap();
    assert_eq!(found.data_as_string().unwrap(), "first");
    assert!(png.chunk_by_type("none").is_none());
    assert!(png.chunk_by_type("ruST").is_none());
}

#[test]
fn test_append_chunk_stays_before_iend() {
    let bytes = make_png_bytes(standard_chunks());
    let mut png = Png::from_bytes(bytes.as_slice()).unwrap();
    let chunk = make_chunk("ruSt", "hello".as_bytes());
    png.append_chunk(make_chunk("ruSt", "hello".as_bytes()));
    let names: Vec<String> = png.chunks().iter().map(|c| c.chunk_type().to_string()).collect();
    assert_eq!(names, vec!["IHDR", "IDAT", "ruSt", "IEND"]);
    let found = png.chunk_by_type(&chunk.chunk_type().to_string()).unwrap();
    assert!(*found == chunk);
}

#[test]
fn test_append_chunk_without_iend_goes_last() {
    let mut png = Png::from_chunks(vec![make_chunk("IHDR", &[0; 13])]);
    png.append_chunk(make_chunk("ruSt", "hello".as_bytes()));
    let names: Vec<String> = png.chunks().iter().map(|c| c.chunk_type().to_string()).collect();
    assert_eq!(names, vec!["IHDR", "ruSt"]);
}

#[test]
fn test_remove_first_chunk_keeps_order() {
    let chunks = vec![
        make_chunk("IHDR", &[0; 13]),
        make_chunk("ruSt", "first".as_bytes()),
        make_chunk("IDAT", &[1, 2, 3]),
        make_chunk("ruSt", "second".as_bytes()),
        make_chunk("IEND", &[]),
    ];
    let bytes = make_png_bytes(chunks);
    let mut png = Png::from_bytes(bytes.as_slice()).unwrap();
    let removed = png.remove_first_chunk("ruSt").unwrap();
    assert_eq!(removed.data_as_string().unwrap(), "first");
    let names: Vec<String> = png.chunks().iter().map(|c| c.chunk_type().to_string()).collect();
    assert_eq!(names, vec!["IHDR", "IDAT", "ruSt", "IEND"]);
    assert_eq!(
        png.chunks()[2].data_as_string().unwrap(),
        "second"
    );
    assert_eq!(png.remove_first_chunk("none").unwrap_err(), PngError::ChunkNotFound);
}
