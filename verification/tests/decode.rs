use png_reader::chunks::{ColorType, FilterType, InterlaceMethod, IHDR};
use png_reader::error::{FormatError, PngError};
use png_reader::png::PNG;

const SIGNATURE: [u8; 8] = [137, 80, 78, 71, 13, 10, 26, 10];

fn adler32(data: &[u8]) -> u32 {
    let mut a: u32 = 1;
    let mut b: u32 = 0;
    for &x in data {
        a = (a + x as u32) % 65521;
        b = (b + a) % 65521;
    }
    (b << 16) | a
}

/// A zlib stream holding `data` in a single stored (uncompressed) block.
fn zlib_stored(data: &[u8]) -> Vec<u8> {
    assert!(data.len() < 65535);
    let mut v = vec![0x78u8, 0x01];
    v.push(0x01);
    let len = data.len() as u16;
    v.extend_from_slice(&len.to_le_bytes());
    v.extend_from_slice(&(!len).to_le_bytes());
    v.extend_from_slice(data);
    v.extend_from_slice(&adler32(data).to_be_bytes());
    v
}

fn chunk(tag: &[u8; 4], payload: &[u8]) -> Vec<u8> {
    let mut v = Vec::new();
    v.extend_from_slice(&(payload.len() as u32).to_be_bytes());
    v.extend_from_slice(tag);
    v.extend_from_slice(payload);
    v.extend_from_slice(&[0, 0, 0, 0]);
    v
}

fn ihdr_payload(width: u32, height: u32, color_type: u8, interlace: u8) -> Vec<u8> {
    let mut v = Vec::new();
    v.extend_from_slice(&width.to_be_bytes());
    v.extend_from_slice(&height.to_be_bytes());
    v.push(8);
    v.push(color_type);
    v.push(0);
    v.push(0);
    v.push(interlace);
    v
}

fn greyscale_image(width: u32, height: u32, raw: &[u8]) -> Vec<u8> {
    let mut file = SIGNATURE.to_vec();
    file.extend_from_slice(&chunk(b"IHDR", &ihdr_payload(width, height, 0, 0)));
    file.extend_from_slice(&chunk(b"IDAT", &zlib_stored(raw)));
    file.extend_from_slice(&chunk(b"IEND", &[]));
    file
}

#[test]
fn frames_chunks_in_order() {
    let file = greyscale_image(2, 2, &[0, 7, 8, 0, 9, 10]);
    let png = PNG::from_bytes(&file).unwrap();
    assert_eq!(png.chunks.len(), 3);
    assert_eq!(png.chunks[0].chunk_type, "IHDR");
    assert_eq!(png.chunks[1].chunk_type, "IDAT");
    assert_eq!(png.chunks[2].chunk_type, "IEND");
    assert_eq!(png.chunks[0].length, 13);
    assert_eq!(png.chunks[0].data.len(), 13);
}

#[test]
fn decodes_greyscale_pixels() {
    let file = greyscale_image(2, 2, &[0, 7, 8, 0, 9, 10]);
    let png = PNG::from_bytes(&file).unwrap();
    let pixels = png.get_image_data().unwrap();
    assert_eq!(pixels, vec![7, 8, 9, 10]);
    assert_eq!(pixels.len(), 2 * 2 * 1);
}

#[test]
fn pixel_stream_spans_multiple_idat_chunks() {
    let raw = [0u8, 7, 8, 0, 9, 10];
    let compressed = zlib_stored(&raw);
    let (first, second) = compressed.split_at(5);
    let mut file = SIGNATURE.to_vec();
    file.extend_from_slice(&chunk(b"IHDR", &ihdr_payload(2, 2, 0, 0)));
    file.extend_from_slice(&chunk(b"IDAT", first));
    file.extend_from_slice(&chunk(b"IDAT", second));
    file.extend_from_slice(&chunk(b"IEND", &[]));
    let png = PNG::from_bytes(&file).unwrap();
    assert_eq!(png.get_image_data().unwrap(), vec![7, 8, 9, 10]);
}

#[test]
fn malformed_signature_rejected() {
    let file = greyscale_image(1, 1, &[0, 42]);
    for i in 0..8 {
        let mut bad = file.clone();
        bad[i] ^= 0x20;
        match PNG::from_bytes(&bad) {
            Err(PngError::Format(FormatError::BadSignature)) => {}
            other => panic!("byte {} altered: expected a signature error, got {:?}", i, other),
        }
    }
    let short: &[u8] = &file[..5];
    assert!(matches!(
        PNG::from_bytes(short),
        Err(PngError::Format(FormatError::BadSignature))
    ));
}

#[test]
fn truncated_chunk_rejected() {
    let mut file = SIGNATURE.to_vec();
    file.extend_from_slice(&[0, 0, 0, 5]);
    file.extend_from_slice(b"IDAT");
    file.extend_from_slice(&[1, 2]);
    assert!(matches!(
        PNG::from_bytes(&file),
        Err(PngError::Format(FormatError::TruncatedChunk))
    ));
}

#[test]
fn non_text_tag_rejected() {
    let mut file = SIGNATURE.to_vec();
    file.extend_from_slice(&[0, 0, 0, 0]);
    file.extend_from_slice(&[0xFF, 0xFE, 0xFD, 0xFC]);
    file.extend_from_slice(&[0, 0, 0, 0]);
    assert!(matches!(
        PNG::from_bytes(&file),
        Err(PngError::Format(FormatError::BadTag))
    ));
}

#[test]
fn ancillary_chunk_does_not_disturb_decode() {
    let mut file = SIGNATURE.to_vec();
    file.extend_from_slice(&chunk(b"IHDR", &ihdr_payload(2, 2, 0, 0)));
    file.extend_from_slice(&chunk(b"juNk", &[1, 2, 3, 4, 5]));
    file.extend_from_slice(&chunk(b"IDAT", &zlib_stored(&[0, 7, 8, 0, 9, 10])));
    file.extend_from_slice(&chunk(b"IEND", &[]));
    let png = PNG::from_bytes(&file).unwrap();
    assert_eq!(png.chunks.len(), 4);
    assert_eq!(png.chunks[1].chunk_type, "juNk");
    assert_eq!(png.get_image_data().unwrap(), vec![7, 8, 9, 10]);
}

#[test]
fn missing_header_rejected() {
    let file = SIGNATURE.to_vec();
    let png = PNG::from_bytes(&file).unwrap();
    assert!(matches!(
        png.get_image_data(),
        Err(PngError::Format(FormatError::MissingHeader))
    ));

    let mut no_ihdr = SIGNATURE.to_vec();
    no_ihdr.extend_from_slice(&chunk(b"IDAT", &zlib_stored(&[0, 1])));
    let png = PNG::from_bytes(&no_ihdr).unwrap();
    assert!(matches!(
        png.get_image_data(),
        Err(PngError::Format(FormatError::MissingHeader))
    ));
}

#[test]
fn interlaced_image_rejected() {
    let mut file = SIGNATURE.to_vec();
    file.extend_from_slice(&chunk(b"IHDR", &ihdr_payload(2, 2, 0, 1)));
    file.extend_from_slice(&chunk(b"IDAT", &zlib_stored(&[0, 7, 8, 0, 9, 10])));
    let png = PNG::from_bytes(&file).unwrap();
    assert!(matches!(
        png.get_image_data(),
        Err(PngError::Format(FormatError::Interlaced))
    ));
}

#[test]
fn corrupt_pixel_stream_rejected() {
    let mut compressed = zlib_stored(&[0, 7, 8, 0, 9, 10]);
    // Break the stored block's length complement so the stream is corrupt.
    compressed[5] ^= 0xFF;
    let mut file = SIGNATURE.to_vec();
    file.extend_from_slice(&chunk(b"IHDR", &ihdr_payload(2, 2, 0, 0)));
    file.extend_from_slice(&chunk(b"IDAT", &compressed));
    let png = PNG::from_bytes(&file).unwrap();
    assert!(matches!(png.get_image_data(), Err(PngError::Decompress)));
}

#[test]
fn truncated_pixel_stream_rejected() {
    let file = greyscale_image(2, 2, &[0, 7, 8, 0, 9]);
    let png = PNG::from_bytes(&file).unwrap();
    assert!(matches!(
        png.get_image_data(),
        Err(PngError::Format(FormatError::BadLength))
    ));
}

#[test]
fn unknown_filter_tag_rejected() {
    let file = greyscale_image(2, 2, &[9, 7, 8, 0, 9, 10]);
    let png = PNG::from_bytes(&file).unwrap();
    assert!(matches!(
        png.get_image_data(),
        Err(PngError::Format(FormatError::UnknownFilterType))
    ));
}

#[test]
fn paeth_tiebreak_prefers_left_then_up() {
    assert_eq!(PNG::paeth(10, 10, 10), 10);
    assert_eq!(PNG::paeth(5, 5, 0), 5);
    assert_eq!(PNG::paeth(0, 7, 0), 7);
}

#[test]
fn none_scanline_round_trips() {
    let out = PNG::unfilter_scanline(&[0, 1, 2, 3], &[9, 9, 9]).unwrap();
    assert_eq!(out, vec![1, 2, 3]);
}

#[test]
fn sub_scanline_example() {
    let ihdr = IHDR {
        width: 2,
        height: 1,
        bit_depth: 8,
        color_type: ColorType::Greyscale,
        compression_method: 0,
        filter_method: 0,
        interlace_method: InterlaceMethod::NoInterlace,
    };
    assert_eq!(PNG::unfilter(&[1, 5, 10], &ihdr).unwrap(), vec![5, 15]);
}

#[test]
fn each_filter_reconstructs() {
    assert_eq!(
        PNG::unfilter_scanline(&[1, 10, 20, 30], &[0, 0, 0]).unwrap(),
        vec![10, 30, 60]
    );
    assert_eq!(
        PNG::unfilter_scanline(&[2, 1, 2, 3], &[5, 6, 7]).unwrap(),
        vec![6, 8, 10]
    );
    assert_eq!(
        PNG::unfilter_scanline(&[3, 10, 10, 10], &[4, 8, 12]).unwrap(),
        vec![12, 20, 26]
    );
    assert_eq!(
        PNG::unfilter_scanline(&[4, 1, 2, 3], &[10, 20, 30]).unwrap(),
        vec![11, 22, 33]
    );
    assert!(matches!(
        PNG::unfilter_scanline(&[5, 1, 2, 3], &[0, 0, 0]),
        Err(PngError::Format(FormatError::UnknownFilterType))
    ));
}

#[test]
fn filtered_bytes_wrap_modulo_256() {
    assert_eq!(
        PNG::unfilter_scanline(&[1, 200, 200], &[0, 0]).unwrap(),
        vec![200, 144]
    );
    assert_eq!(
        PNG::unfilter_scanline(&[2, 250, 250], &[10, 20]).unwrap(),
        vec![4, 14]
    );
}

#[test]
fn rows_depend_on_reconstructed_rows_above() {
    let ihdr = IHDR {
        width: 2,
        height: 2,
        bit_depth: 8,
        color_type: ColorType::TrueColor,
        compression_method: 0,
        filter_method: 0,
        interlace_method: InterlaceMethod::NoInterlace,
    };
    let data = [
        1, 10, 20, 30, 5, 5, 5, // Sub row
        2, 1, 1, 1, 1, 1, 1, // Up row, added to the reconstructed row above
    ];
    let pixels = PNG::unfilter(&data, &ihdr).unwrap();
    assert_eq!(pixels, vec![10, 30, 60, 65, 70, 75, 11, 31, 61, 66, 71, 76]);
    assert_eq!(pixels.len(), 2 * 2 * 3);
}

#[test]
fn all_five_filters_through_the_pipeline() {
    let raw = [
        0, 10, 20, // identity
        1, 5, 5, // Sub
        2, 1, 1, // Up
        3, 4, 4, // Average
        4, 2, 2, // Paeth
    ];
    let file = greyscale_image(2, 5, &raw);
    let png = PNG::from_bytes(&file).unwrap();
    let pixels = png.get_image_data().unwrap();
    assert_eq!(pixels, vec![10, 20, 5, 10, 6, 11, 7, 13, 9, 15]);
    assert_eq!(pixels.len(), 2 * 5 * 1);
}

#[test]
fn is_critical_follows_tag_case() {
    let file = greyscale_image(1, 1, &[0, 42]);
    let png = PNG::from_bytes(&file).unwrap();
    assert!(png.chunks[0].is_critical());

    let mut with_text = SIGNATURE.to_vec();
    with_text.extend_from_slice(&chunk(b"IHDR", &ihdr_payload(1, 1, 0, 0)));
    with_text.extend_from_slice(&chunk(b"tEXt", b"k\0v"));
    let png = PNG::from_bytes(&with_text).unwrap();
    assert!(!png.chunks[1].is_critical());
}

#[test]
fn filter_type_codes_map_to_variants() {
    assert_eq!(FilterType::from_raw(0).unwrap(), FilterType::NoFilter);
    assert_eq!(FilterType::from_raw(1).unwrap(), FilterType::Sub);
    assert_eq!(FilterType::from_raw(2).unwrap(), FilterType::Up);
    assert_eq!(FilterType::from_raw(3).unwrap(), FilterType::Average);
    assert_eq!(FilterType::from_raw(4).unwrap(), FilterType::Paeth);
    assert!(matches!(
        FilterType::from_raw(5),
        Err(PngError::Format(FormatError::UnknownFilterType))
    ));
}
