use pngme::Chunk;
use pngme::ChunkType;
use pngme::Png;
use pngme::PngDecodeError;

const SIGNATURE: [u8; 8] = [137, 80, 78, 71, 13, 10, 26, 10];

fn chunk_from(chunk_type: &str, data: &str) -> Chunk {
    Chunk::new(
        ChunkType::from_str(chunk_type).unwrap(),
        data.as_bytes().to_vec(),
    )
}

fn testing_png() -> Png {
    let mut png = Png::new();
    png.append_chunk(chunk_from("IHDR", "header"));
    png.append_chunk(chunk_from("ruSt", "secret"));
    png.append_chunk(chunk_from("IEND", "end"));
    png
}

#[test]
fn test_empty_container_is_signature_only() {
    let png = Png::new();
    assert_eq!(png.as_bytes(), SIGNATURE.to_vec());
    assert_eq!(png.chunks().len(), 0);
}

#[test]
fn test_parse_signature_only() {
    let png = Png::parse(&SIGNATURE).unwrap();
    assert_eq!(png.chunks().len(), 0);
}

#[test]
fn test_container_round_trip() {
    let original = testing_png();
    let bytes = original.as_bytes();

    let parsed = Png::parse(bytes.as_ref()).unwrap();
    assert_eq!(parsed.chunks().len(), original.chunks().len());
    for (a, b) in parsed.chunks().iter().zip(original.chunks().iter()) {
        assert_eq!(a.length(), b.length());
        assert_eq!(a.chunk_type().bytes(), b.chunk_type().bytes());
        assert_eq!(a.data(), b.data());
        assert_eq!(a.crc(), b.crc());
    }
    assert_eq!(parsed.as_bytes(), bytes);
}

#[test]
fn test_bad_signature_is_rejected_first() {
    // Even a buffer whose tail is a corrupt chunk record must fail on
    // the signature alone.
    let mut bytes = testing_png().as_bytes();
    bytes[0] = 0;
    bytes[20] ^= 0xff;
    assert_eq!(
        Png::parse(bytes.as_ref()).unwrap_err(),
        PngDecodeError::BadSignature
    );
    assert_eq!(
        Png::parse(&[1, 2, 3]).unwrap_err(),
        PngDecodeError::BadSignature
    );
}

#[test]
fn test_parse_truncated_record() {
    let mut bytes = testing_png().as_bytes();
    bytes.pop();
    assert_eq!(
        Png::parse(bytes.as_ref()).unwrap_err(),
        PngDecodeError::TruncatedChunk
    );

    let mut short: Vec<u8> = SIGNATURE.to_vec();
    short.extend_from_slice(&[0, 0, 0, 5, b'R', b'u']);
    assert_eq!(
        Png::parse(short.as_ref()).unwrap_err(),
        PngDecodeError::TruncatedChunk
    );
}

#[test]
fn test_parse_propagates_bad_checksum() {
    let mut bytes = testing_png().as_bytes();
    let last = bytes.len() - 1;
    bytes[last] ^= 1;
    assert!(matches!(
        Png::parse(bytes.as_ref()).unwrap_err(),
        PngDecodeError::BadChecksum { .. }
    ));
}

#[test]
fn test_parse_propagates_invalid_identifier() {
    let mut png = Png::new();
    png.append_chunk(chunk_from("IHDR", "header"));
    // An identifier with the reserved bit set encodes, but will not
    // decode again.
    png.append_chunk(chunk_from("Rust", "oops"));
    let bytes = png.as_bytes();
    assert_eq!(
        Png::parse(bytes.as_ref()).unwrap_err(),
        PngDecodeError::InvalidIdentifier {
            bytes: [b'R', b'u', b's', b't']
        }
    );
}

#[test]
fn test_lookup_finds_first_match() {
    let png = testing_png();
    let found = png.chunk_by_type("ruSt").unwrap();
    assert_eq!(found.data_as_string().unwrap(), "secret");

    assert_eq!(
        png.chunk_by_type("zzZz").unwrap_err(),
        PngDecodeError::NotFound
    );
}

#[test]
fn test_lookup_prefers_earlier_chunk() {
    let mut png = testing_png();
    png.append_chunk(chunk_from("ruSt", "later"));
    let found = png.chunk_by_type("ruSt").unwrap();
    assert_eq!(found.data_as_string().unwrap(), "secret");
}

#[test]
fn test_append_chunk_extends_in_order() {
    let mut png = Png::new();
    png.append_chunk(chunk_from("IHDR", "header"));
    png.append_chunk(chunk_from("ruSt", "secret"));
    assert_eq!(png.chunks().len(), 2);
    assert_eq!(
        png.chunks()[1].data_as_string().unwrap(),
        "secret"
    );
}

#[test]
fn test_removal_preserves_order() {
    let mut png = testing_png();
    let removed = png.remove_first_chunk("ruSt").unwrap();
    assert_eq!(removed.data_as_string().unwrap(), "secret");
    assert_eq!(removed.chunk_type().to_string(), "ruSt");

    let names: Vec<String> = png
        .chunks()
        .iter()
        .map(|c| c.chunk_type().to_string())
        .collect();
    assert_eq!(names, vec![String::from("IHDR"), String::from("IEND")]);
}

#[test]
fn test_removal_takes_only_first_match() {
    let mut png = testing_png();
    png.append_chunk(chunk_from("ruSt", "later"));
    let removed = png.remove_first_chunk("ruSt").unwrap();
    assert_eq!(removed.data_as_string().unwrap(), "secret");
    assert_eq!(png.chunks().len(), 3);
    let again = png.remove_first_chunk("ruSt").unwrap();
    assert_eq!(again.data_as_string().unwrap(), "later");
    assert_eq!(
        png.remove_first_chunk("ruSt").unwrap_err(),
        PngDecodeError::NotFound
    );
}

#[test]
fn test_container_serialization_layout() {
    let mut png = Png::new();
    png.append_chunk(chunk_from("ruSt", "hi"));
    let bytes = png.as_bytes();
    assert_eq!(&bytes[0..8], &SIGNATURE);
    assert_eq!(&bytes[8..12], &[0, 0, 0, 2]);
    assert_eq!(&bytes[12..16], "ruSt".as_bytes());
    assert_eq!(&bytes[16..18], "hi".as_bytes());
    assert_eq!(bytes.len(), 8 + 12 + 2);
}
