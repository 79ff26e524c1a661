use pngme::chunk::Chunk;
use pngme::chunk::ChunkError;
use pngme::chunk_type::ChunkType;
use pngme::png::signature;
use pngme::png::Png;
use pngme::png::PngError;

const SIGNATURE: [u8; 8] = [137, 80, 78, 71, 13, 10, 26, 10];

fn chunk_from(ty: &str, data: &str) -> Chunk {
    let chunk_type = ChunkType::from_str(ty).unwrap();
    Chunk::new(chunk_type, data.as_bytes().to_vec())
}

fn testing_chunks() -> Vec<Chunk> {
    vec![
        chunk_from("FrSt", "I am the first chunk"),
        chunk_from("miDl", "I am another chunk"),
        chunk_from("LASt", "I am the last chunk"),
    ]
}

fn testing_png() -> Png {
    Png::from_chunks(testing_chunks())
}

#[test]
fn test_signature_constant() {
    assert_eq!(signature(), SIGNATURE.to_vec());
}

#[test]
fn test_from_chunks() {
    let png = testing_png();
    assert_eq!(png.chunks().len(), 3);
}

#[test]
fn test_png_round_trip() {
    let png = testing_png();
    let bytes = png.as_bytes();
    let reparsed = Png::try_from(bytes.as_ref()).unwrap();
    assert_eq!(png, reparsed);
}

#[test]
fn test_empty_png_round_trip() {
    let bytes = SIGNATURE.to_vec();
    let png = Png::try_from(bytes.as_ref()).unwrap();
    assert_eq!(png.chunks().len(), 0);
    assert_eq!(png.as_bytes(), SIGNATURE.to_vec());
}

#[test]
fn test_invalid_signature() {
    let mut bytes = SIGNATURE.to_vec();
    bytes[0] = 13;
    let result = Png::try_from(bytes.as_ref());
    assert_eq!(result, Err(PngError::InvalidSignature));
}

#[test]
fn test_short_input_is_invalid_signature() {
    let bytes: Vec<u8> = vec![137, 80, 78];
    let result = Png::try_from(bytes.as_ref());
    assert_eq!(result, Err(PngError::InvalidSignature));
}

#[test]
fn test_corrupt_chunk_fails_png_parse() {
    let png = testing_png();
    let mut bytes = png.as_bytes();
    // corrupt a payload byte of the first chunk
    bytes[8 + 8] ^= 1;
    let result = Png::try_from(bytes.as_ref());
    match result {
        Err(PngError::Chunk(ChunkError::InvalidCrc(expected, actual))) => {
            assert_ne!(expected, actual)
        },
        other => panic!("expected a CRC mismatch, got {:?}", other),
    }
}

#[test]
fn test_trailing_garbage_fails_png_parse() {
    let png = testing_png();
    let mut bytes = png.as_bytes();
    bytes.extend_from_slice(&[1, 2, 3]);
    let result = Png::try_from(bytes.as_ref());
    assert_eq!(result, Err(PngError::Chunk(ChunkError::InputTooSmall)));
}

#[test]
fn test_chunk_by_type_finds_first() {
    let mut png = testing_png();
    png.append_chunk(chunk_from("miDl", "a second chunk of the same type"));

    let found = png.chunk_by_type("miDl").unwrap();
    assert_eq!(found.data_as_string().unwrap(), "I am another chunk");
}

#[test]
fn test_chunk_by_type_missing() {
    let png = testing_png();
    assert!(png.chunk_by_type("noNe").is_none());
}

#[test]
fn test_append_then_remove_restores_sequence() {
    let mut png = testing_png();
    let before = png.as_bytes();
    let appended = chunk_from("TeSt", "Message");

    png.append_chunk(chunk_from("TeSt", "Message"));
    let removed = png.remove_chunk("TeSt").unwrap();

    assert_eq!(removed, appended);
    assert_eq!(png.as_bytes(), before);
}

#[test]
fn test_remove_missing_chunk_reports_not_found() {
    let mut png = testing_png();
    let before = png.as_bytes();

    let result = png.remove_chunk("noNe");

    assert_eq!(result, Err(PngError::ChunkNotFound));
    assert_eq!(png.as_bytes(), before);
}

#[test]
fn test_remove_keeps_order_of_rest() {
    let mut png = testing_png();
    let removed = png.remove_chunk("miDl").unwrap();

    assert_eq!(removed.data_as_string().unwrap(), "I am another chunk");
    assert_eq!(png.chunks().len(), 2);
    assert_eq!(
        png.chunks()[0].data_as_string().unwrap(),
        "I am the first chunk"
    );
    assert_eq!(
        png.chunks()[1].data_as_string().unwrap(),
        "I am the last chunk"
    );
}

#[test]
fn test_png_parse_chunks_in_order() {
    let png = testing_png();
    let bytes = png.as_bytes();
    let reparsed = Png::try_from(bytes.as_ref()).unwrap();
    let names: Vec<String> = reparsed
        .chunks()
        .iter()
        .map(|c| c.chunk_type().to_string().unwrap())
        .collect();
    assert_eq!(names, vec!["FrSt", "miDl", "LASt"]);
}
