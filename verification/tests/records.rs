use png_reader::chunks::{
    bKGD_Greyscale, bKGD_Indexed, bKGD_TrueColor, cHRM, eXIf, gAMA, iCCP, iTXt, pHYs, sRGB,
    tEXt, tIME, tRNS_Greyscale, tRNS_Indexed, tRNS_TrueColor, zTXt, Background, ByteAlign,
    ColorType, CompressionMethod, InterlaceMethod, PixelUnit, RenderingIntent, Transparency,
    IDF, IHDR, PLTE,
};
use png_reader::error::{FormatError, PngError};
use png_reader::png::Chunk;
use png_reader::utils::{
    read_be_u16, read_be_u32, read_be_u32_mut, read_str_mut, read_until_null,
};

fn raw_chunk(tag: &str, data: &[u8]) -> Chunk {
    Chunk {
        length: data.len() as u32,
        chunk_type: String::from(tag),
        data: data.to_vec(),
        crc: vec![0, 0, 0, 0],
    }
}

fn test_ihdr(color_type: ColorType) -> IHDR {
    IHDR {
        width: 4,
        height: 4,
        bit_depth: 8,
        color_type,
        compression_method: 0,
        filter_method: 0,
        interlace_method: InterlaceMethod::NoInterlace,
    }
}

fn adler32(data: &[u8]) -> u32 {
    let mut a: u32 = 1;
    let mut b: u32 = 0;
    for &x in data {
        a = (a + x as u32) % 65521;
        b = (b + a) % 65521;
    }
    (b << 16) | a
}

fn zlib_stored(data: &[u8]) -> Vec<u8> {
    let mut v = vec![0x78u8, 0x01, 0x01];
    let len = data.len() as u16;
    v.extend_from_slice(&len.to_le_bytes());
    v.extend_from_slice(&(!len).to_le_bytes());
    v.extend_from_slice(data);
    v.extend_from_slice(&adler32(data).to_be_bytes());
    v
}

#[test]
fn ihdr_fields_decode() {
    let payload = [0, 0, 1, 0, 0, 0, 0, 200, 8, 2, 0, 0, 0];
    let h = IHDR::from_chunk(&raw_chunk("IHDR", &payload)).unwrap();
    assert_eq!(h.width, 256);
    assert_eq!(h.height, 200);
    assert_eq!(h.bit_depth, 8);
    assert_eq!(h.color_type, ColorType::TrueColor);
    assert_eq!(h.compression_method, 0);
    assert_eq!(h.filter_method, 0);
    assert_eq!(h.interlace_method, InterlaceMethod::NoInterlace);
}

#[test]
fn ihdr_bad_codes_rejected() {
    assert!(matches!(
        IHDR::from_chunk(&raw_chunk("IHDR", &[0, 0, 0, 1, 0, 0, 0, 1, 8, 5, 0, 0, 0])),
        Err(PngError::Format(FormatError::UnknownColorType))
    ));
    assert!(matches!(
        IHDR::from_chunk(&raw_chunk("IHDR", &[0, 0, 0, 1, 0, 0, 0, 1, 8, 0, 0, 0, 2])),
        Err(PngError::Format(FormatError::UnknownInterlaceMethod))
    ));
    assert!(matches!(
        IHDR::from_chunk(&raw_chunk("IHDR", &[0, 0, 0, 1])),
        Err(PngError::Format(FormatError::ShortPayload))
    ));
}

#[test]
fn bytes_per_pixel_by_color_type() {
    assert_eq!(ColorType::Greyscale.bytes_per_pixel(), 1);
    assert_eq!(ColorType::TrueColor.bytes_per_pixel(), 3);
    assert_eq!(ColorType::IndexedColor.bytes_per_pixel(), 1);
    assert_eq!(ColorType::GreyscaleAlpha.bytes_per_pixel(), 2);
    assert_eq!(ColorType::TrueColorAlpha.bytes_per_pixel(), 4);
}

#[test]
fn srgb_decodes_intent() {
    let s = sRGB::from_chunk(&raw_chunk("sRGB", &[3])).unwrap();
    assert_eq!(s.intent, RenderingIntent::AbsoluteColorimetric);
    assert!(matches!(
        sRGB::from_chunk(&raw_chunk("sRGB", &[7])),
        Err(PngError::Format(FormatError::UnknownRenderingIntent))
    ));
}

#[test]
fn gama_keeps_scaled_value() {
    let g = gAMA::from_chunk(&raw_chunk("gAMA", &[0, 0, 177, 143])).unwrap();
    assert_eq!(g.gamma_scaled, 45455);
}

#[test]
fn phys_decodes_density() {
    let mut payload = Vec::new();
    payload.extend_from_slice(&2835u32.to_be_bytes());
    payload.extend_from_slice(&2835u32.to_be_bytes());
    payload.push(1);
    let p = pHYs::from_chunk(&raw_chunk("pHYs", &payload)).unwrap();
    assert_eq!(p.pixels_per_unit_x, 2835);
    assert_eq!(p.pixels_per_unit_y, 2835);
    assert_eq!(p.unit_specifier, PixelUnit::Meter);
    payload[8] = 3;
    assert!(matches!(
        pHYs::from_chunk(&raw_chunk("pHYs", &payload)),
        Err(PngError::Format(FormatError::UnknownPixelUnit))
    ));
}

#[test]
fn chrm_decodes_eight_coordinates() {
    let mut payload = Vec::new();
    for v in [31270u32, 32900, 64000, 33000, 30000, 60000, 15000, 6000] {
        payload.extend_from_slice(&v.to_be_bytes());
    }
    let c = cHRM::from_chunk(&raw_chunk("cHRM", &payload)).unwrap();
    assert_eq!(c.white_x, 31270);
    assert_eq!(c.white_y, 32900);
    assert_eq!(c.red_x, 64000);
    assert_eq!(c.red_y, 33000);
    assert_eq!(c.green_x, 30000);
    assert_eq!(c.green_y, 60000);
    assert_eq!(c.blue_x, 15000);
    assert_eq!(c.blue_y, 6000);
}

#[test]
fn time_decodes_fields() {
    let t = tIME::from_chunk(&raw_chunk("tIME", &[7, 208, 12, 31, 23, 59, 58])).unwrap();
    assert_eq!(t.year, 2000);
    assert_eq!(t.month, 12);
    assert_eq!(t.day, 31);
    assert_eq!(t.hour, 23);
    assert_eq!(t.minute, 59);
    assert_eq!(t.second, 58);
}

#[test]
fn plte_partitions_into_triplets() {
    let p = PLTE::from_chunk(&raw_chunk("PLTE", &[1, 2, 3, 4, 5, 6])).unwrap();
    assert_eq!(p.palette, vec![vec![1, 2, 3], vec![4, 5, 6]]);
    assert!(matches!(
        PLTE::from_chunk(&raw_chunk("PLTE", &[1, 2, 3, 4])),
        Err(PngError::Format(FormatError::BadLength))
    ));
}

#[test]
fn background_records_decode() {
    let g = bKGD_Greyscale::from_chunk(&raw_chunk("bKGD", &[1, 44])).unwrap();
    assert_eq!(g.value, 300);
    let t = bKGD_TrueColor::from_chunk(&raw_chunk("bKGD", &[0, 1, 0, 2, 0, 3])).unwrap();
    assert_eq!((t.red, t.green, t.blue), (1, 2, 3));
    let x = bKGD_Indexed::from_chunk(&raw_chunk("bKGD", &[9])).unwrap();
    assert_eq!(x.index, 9);
}

#[test]
fn background_dispatch_follows_color_type() {
    let payload = [0, 1, 0, 2, 0, 3];
    let b = Background::from_chunk(&raw_chunk("bKGD", &payload), &test_ihdr(ColorType::TrueColor))
        .unwrap();
    assert!(matches!(b, Background::TrueColor(_)));
    let b = Background::from_chunk(&raw_chunk("bKGD", &payload), &test_ihdr(ColorType::Greyscale))
        .unwrap();
    assert!(matches!(b, Background::Greyscale(v) if v.value == 1));
    let b =
        Background::from_chunk(&raw_chunk("bKGD", &payload), &test_ihdr(ColorType::IndexedColor))
            .unwrap();
    assert!(matches!(b, Background::Indexed(v) if v.index == 0));
}

#[test]
fn transparency_records_decode() {
    let g = tRNS_Greyscale::from_chunk(&raw_chunk("tRNS", &[0, 5])).unwrap();
    assert_eq!(g.value, 5);
    let t = tRNS_TrueColor::from_chunk(&raw_chunk("tRNS", &[0, 1, 0, 2, 0, 3])).unwrap();
    assert_eq!((t.red, t.green, t.blue), (1, 2, 3));
    let x = tRNS_Indexed::from_chunk(&raw_chunk("tRNS", &[7, 8, 9])).unwrap();
    assert_eq!(x.values, vec![7, 8, 9]);
}

#[test]
fn transparency_dispatch_follows_color_type() {
    let t = Transparency::from_chunk(&raw_chunk("tRNS", &[0, 5]), &test_ihdr(ColorType::Greyscale))
        .unwrap();
    assert!(matches!(t, Transparency::Greyscale(v) if v.value == 5));
    assert!(matches!(
        Transparency::from_chunk(&raw_chunk("tRNS", &[0, 5]), &test_ihdr(ColorType::GreyscaleAlpha)),
        Err(PngError::Format(FormatError::WrongColorType))
    ));
    assert!(matches!(
        Transparency::from_chunk(&raw_chunk("tRNS", &[0, 5]), &test_ihdr(ColorType::TrueColorAlpha)),
        Err(PngError::Format(FormatError::WrongColorType))
    ));
}

#[test]
fn text_record_splits_on_first_null() {
    let t = tEXt::from_chunk(&raw_chunk("tEXt", b"Title\0Hello world")).unwrap();
    assert_eq!(t.keyword, "Title");
    assert_eq!(t.text, "Hello world");
    assert!(matches!(
        tEXt::from_chunk(&raw_chunk("tEXt", b"no terminator")),
        Err(PngError::Format(FormatError::MissingNull))
    ));
    assert!(matches!(
        tEXt::from_chunk(&raw_chunk("tEXt", &[0xFF, 0, 65])),
        Err(PngError::Format(FormatError::BadText))
    ));
}

#[test]
fn text_record_decodes_multibyte_utf8() {
    let t = tEXt::from_chunk(&raw_chunk("tEXt", &[b'k', 0, 0xC3, 0xA9])).unwrap();
    assert_eq!(t.text, "\u{e9}");
    assert_eq!(t.text.chars().count(), 1);
}

#[test]
fn iccp_keeps_compressed_profile() {
    let mut payload = b"icc name\0".to_vec();
    payload.push(0);
    payload.extend_from_slice(&[1, 2, 3, 4]);
    let p = iCCP::from_chunk(&raw_chunk("iCCP", &payload)).unwrap();
    assert_eq!(p.profile_name, "icc name");
    assert_eq!(p.compression_method, CompressionMethod::Zlib);
    assert_eq!(p.profile, vec![1, 2, 3, 4]);
}

#[test]
fn ztxt_inflates_its_text() {
    let mut payload = b"Comment\0".to_vec();
    payload.push(0);
    payload.extend_from_slice(&zlib_stored(b"squeezed"));
    let z = zTXt::from_chunk(&raw_chunk("zTXt", &payload)).unwrap();
    assert_eq!(z.keyword, "Comment");
    assert_eq!(z.compression_method, CompressionMethod::Zlib);
    assert_eq!(z.text, "squeezed");
}

#[test]
fn ztxt_rejects_bad_method_and_stream() {
    let mut payload = b"Comment\0".to_vec();
    payload.push(1);
    payload.extend_from_slice(&zlib_stored(b"x"));
    assert!(matches!(
        zTXt::from_chunk(&raw_chunk("zTXt", &payload)),
        Err(PngError::Format(FormatError::UnknownCompressionMethod))
    ));
    let mut corrupt = b"Comment\0".to_vec();
    corrupt.push(0);
    corrupt.extend_from_slice(&[0x78, 0x01, 0xAA, 0xBB]);
    assert!(matches!(
        zTXt::from_chunk(&raw_chunk("zTXt", &corrupt)),
        Err(PngError::Decompress)
    ));
}

#[test]
fn itxt_with_language_and_translation() {
    let mut payload = b"Author\0".to_vec();
    payload.push(0);
    payload.push(0);
    payload.extend_from_slice(b"en\0");
    payload.extend_from_slice(b"Auteur\0");
    payload.extend_from_slice(b"Someone");
    let t = iTXt::from_chunk(&raw_chunk("iTXt", &payload)).unwrap();
    assert_eq!(t.keyword, "Author");
    assert!(!t.is_compressed);
    assert_eq!(t.compression_method, CompressionMethod::Zlib);
    assert_eq!(t.lang_tag.as_deref(), Some("en"));
    assert_eq!(t.translated_keyword.as_deref(), Some("Auteur"));
    assert_eq!(t.text, "Someone");
}

#[test]
fn itxt_with_empty_language_block() {
    let mut payload = b"Note\0".to_vec();
    payload.push(0);
    payload.push(0);
    payload.push(0);
    payload.push(0);
    payload.extend_from_slice(b"plain");
    let t = iTXt::from_chunk(&raw_chunk("iTXt", &payload)).unwrap();
    assert_eq!(t.keyword, "Note");
    assert!(!t.is_compressed);
    assert_eq!(t.lang_tag, None);
    assert_eq!(t.translated_keyword, None);
    assert_eq!(t.text, "plain");
}

#[test]
fn itxt_text_is_terminal_and_keeps_embedded_nulls() {
    let mut payload = b"Note\0".to_vec();
    payload.push(0);
    payload.push(0);
    payload.push(0);
    payload.push(0);
    payload.extend_from_slice(b"before\0after");
    let t = iTXt::from_chunk(&raw_chunk("iTXt", &payload)).unwrap();
    assert_eq!(t.text, "before\u{0}after");
}

#[test]
fn itxt_inflates_text_when_flagged() {
    let mut payload = b"Note\0".to_vec();
    payload.push(1);
    payload.push(0);
    payload.extend_from_slice(b"en\0");
    payload.extend_from_slice(b"Notiz\0");
    payload.extend_from_slice(&zlib_stored(b"squeezed note"));
    let t = iTXt::from_chunk(&raw_chunk("iTXt", &payload)).unwrap();
    assert!(t.is_compressed);
    assert_eq!(t.lang_tag.as_deref(), Some("en"));
    assert_eq!(t.translated_keyword.as_deref(), Some("Notiz"));
    assert_eq!(t.text, "squeezed note");
}

#[test]
fn itxt_rejects_corrupt_compressed_text() {
    let mut payload = b"Note\0".to_vec();
    payload.push(1);
    payload.push(0);
    payload.push(0);
    payload.push(0);
    payload.extend_from_slice(&[0x78, 0x01, 0xAA, 0xBB]);
    assert!(matches!(
        iTXt::from_chunk(&raw_chunk("iTXt", &payload)),
        Err(PngError::Decompress)
    ));
}

#[test]
fn exif_empty_chain_decodes_to_one_empty_directory() {
    let payload = [77, 77, 0, 42, 0, 0, 0, 8, 0, 0, 0, 0, 0, 0];
    let e = eXIf::from_chunk(&raw_chunk("eXIf", &payload)).unwrap();
    assert_eq!(e.byte_align, ByteAlign::Motorola);
    assert_eq!(e.idfs.len(), 1);
    assert!(e.idfs[0].entries.is_empty());
}

#[test]
fn exif_reads_entries_and_follows_chain() {
    let mut payload = vec![73, 73, 0, 42, 0, 0, 0, 8];
    payload.extend_from_slice(&[0, 1]);
    payload.extend_from_slice(&[1, 2, 3, 4, 5, 6, 7, 8, 9, 10, 11, 12]);
    payload.extend_from_slice(&[0, 0, 0, 26]);
    payload.extend_from_slice(&[0, 0]);
    payload.extend_from_slice(&[0, 0, 0, 0]);
    let e = eXIf::from_chunk(&raw_chunk("eXIf", &payload)).unwrap();
    assert_eq!(e.byte_align, ByteAlign::Intel);
    assert_eq!(e.idfs.len(), 2);
    assert_eq!(e.idfs[0].entries, vec![vec![1, 2, 3, 4, 5, 6, 7, 8, 9, 10, 11, 12]]);
    assert!(e.idfs[1].entries.is_empty());
}

#[test]
fn exif_rejects_bad_markers_and_offsets() {
    assert!(matches!(
        eXIf::from_chunk(&raw_chunk("eXIf", &[1, 2, 0, 42, 0, 0, 0, 8, 0, 0, 0, 0, 0, 0])),
        Err(PngError::Format(FormatError::UnknownByteOrder))
    ));
    assert!(matches!(
        eXIf::from_chunk(&raw_chunk("eXIf", &[77, 77, 0, 42, 0, 0, 0, 99, 0, 0, 0, 0, 0, 0])),
        Err(PngError::Format(FormatError::BadOffset))
    ));
    assert!(matches!(
        eXIf::from_chunk(&raw_chunk("eXIf", &[77, 77, 0, 42])),
        Err(PngError::Format(FormatError::ShortPayload))
    ));
    // An offset pointing back at itself cycles and must be rejected.
    assert!(matches!(
        eXIf::from_chunk(&raw_chunk("eXIf", &[77, 77, 0, 42, 0, 0, 0, 8, 0, 0, 0, 0, 0, 8])),
        Err(PngError::Format(FormatError::BadOffset))
    ));
}

#[test]
fn parse_idf_reads_count_and_entries() {
    let mut bytes = vec![0, 2];
    bytes.extend_from_slice(&[0; 24]);
    let idf = IDF::parse_idf(&bytes).unwrap();
    assert_eq!(idf.entries.len(), 2);
    assert_eq!(idf.entries[0].len(), 12);
    assert!(matches!(
        IDF::parse_idf(&[0, 2, 1, 2, 3]),
        Err(PngError::Format(FormatError::ShortPayload))
    ));
}

#[test]
fn primitive_readers_consume_big_endian_values() {
    assert_eq!(read_be_u32(&[0, 0, 1, 0, 99]), 256);
    assert_eq!(read_be_u16(&[1, 44]), 300);
    assert_eq!(read_until_null(&[1, 2, 0, 3]), vec![1, 2]);
    assert_eq!(read_until_null(&[1, 2, 3]), vec![1, 2, 3]);

    let mut cursor: &[u8] = &[0, 0, 0, 7, b'I', b'D', b'A', b'T', 42];
    assert_eq!(read_be_u32_mut(&mut cursor), 7);
    assert_eq!(read_str_mut(&mut cursor, 4), "IDAT");
    assert_eq!(cursor, &[42]);
}

#[test]
fn chunk_from_byte_stream_advances_cursor() {
    let mut bytes = Vec::new();
    bytes.extend_from_slice(&[0, 0, 0, 2]);
    bytes.extend_from_slice(b"teST");
    bytes.extend_from_slice(&[7, 8]);
    bytes.extend_from_slice(&[1, 2, 3, 4]);
    bytes.push(99);
    let mut stream: &[u8] = &bytes;
    let c = Chunk::from_byte_stream(&mut stream).unwrap();
    assert_eq!(c.length, 2);
    assert_eq!(c.chunk_type, "teST");
    assert_eq!(c.data, vec![7, 8]);
    assert_eq!(c.crc, vec![1, 2, 3, 4]);
    assert_eq!(stream, &[99]);

    let mut short: &[u8] = &[0, 0, 0, 9, b'I', b'D', b'A', b'T'];
    assert!(matches!(
        Chunk::from_byte_stream(&mut short),
        Err(PngError::Format(FormatError::TruncatedChunk))
    ));
}
