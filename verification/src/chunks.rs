use vstd::prelude::*;
use vstd::slice::{slice_subrange, slice_to_vec};

use vstd::utf8::{decode_utf8, valid_utf8};

use crate::error::{FormatError, PngError};
use crate::inflate::{spec_inflate, zlib_inflate};
use crate::png::Chunk;
use crate::utils::{
    be_value, lemma_null_prefix_len_bounds, null_prefix_len, read_be_u16, read_be_u32,
    read_until_null, utf8_to_string,
};

verus! {

/// How the pixel samples of the image are organised, from the header's
/// color-type code.
#[derive(Clone, Copy, Debug, PartialEq, Eq, Structural)]
pub enum ColorType {
    Greyscale,
    TrueColor,
    IndexedColor,
    GreyscaleAlpha,
    TrueColorAlpha,
}

impl ColorType {
    /// The color type a code byte denotes, if any.
    pub open spec fn spec_from_raw(b: u8) -> Option<ColorType> {
        if b == 0 {
            Some(ColorType::Greyscale)
        } else if b == 2 {
            Some(ColorType::TrueColor)
        } else if b == 3 {
            Some(ColorType::IndexedColor)
        } else if b == 4 {
            Some(ColorType::GreyscaleAlpha)
        } else if b == 6 {
            Some(ColorType::TrueColorAlpha)
        } else {
            None
        }
    }

    pub fn from_raw(b: u8) -> (r: Result<ColorType, PngError>)
        ensures
            r is Ok <==> ColorType::spec_from_raw(b) is Some,
            r is Ok ==> r->Ok_0 == ColorType::spec_from_raw(b)->Some_0,
            r is Err ==> r->Err_0 == PngError::Format(FormatError::UnknownColorType),
    {
        match b {
            0 => Ok(ColorType::Greyscale),
            2 => Ok(ColorType::TrueColor),
            3 => Ok(ColorType::IndexedColor),
            4 => Ok(ColorType::GreyscaleAlpha),
            6 => Ok(ColorType::TrueColorAlpha),
            _ => Err(PngError::Format(FormatError::UnknownColorType)),
        }
    }

    /// How many bytes one pixel occupies for this color type; an indexed
    /// pixel is the one index byte itself.
    pub open spec fn spec_bytes_per_pixel(&self) -> u32 {
        match self {
            ColorType::Greyscale => 1,
            ColorType::TrueColor => 3,
            ColorType::IndexedColor => 1,
            ColorType::GreyscaleAlpha => 2,
            ColorType::TrueColorAlpha => 4,
        }
    }

    #[verifier::when_used_as_spec(spec_bytes_per_pixel)]
    pub fn bytes_per_pixel(&self) -> (r: u32)
        ensures
            r == self.spec_bytes_per_pixel(),
    {
        match self {
            ColorType::Greyscale => 1,
            ColorType::TrueColor => 3,
            ColorType::IndexedColor => 1,
            ColorType::GreyscaleAlpha => 2,
            ColorType::TrueColorAlpha => 4,
        }
    }
}

/// Whether the scanlines are stored top-to-bottom or interleaved in the
/// seven-pass scheme.
#[derive(Clone, Copy, Debug, PartialEq, Eq, Structural)]
pub enum InterlaceMethod {
    NoInterlace,
    Adam7,
}

impl InterlaceMethod {
    pub open spec fn spec_from_raw(b: u8) -> Option<InterlaceMethod> {
        if b == 0 {
            Some(InterlaceMethod::NoInterlace)
        } else if b == 1 {
            Some(InterlaceMethod::Adam7)
        } else {
            None
        }
    }

    pub fn from_raw(b: u8) -> (r: Result<InterlaceMethod, PngError>)
        ensures
            r is Ok <==> InterlaceMethod::spec_from_raw(b) is Some,
            r is Ok ==> r->Ok_0 == InterlaceMethod::spec_from_raw(b)->Some_0,
            r is Err ==> r->Err_0 == PngError::Format(FormatError::UnknownInterlaceMethod),
    {
        match b {
            0 => Ok(InterlaceMethod::NoInterlace),
            1 => Ok(InterlaceMethod::Adam7),
            _ => Err(PngError::Format(FormatError::UnknownInterlaceMethod)),
        }
    }
}

/// The predictive transform a scanline's leading byte selects.
#[derive(Clone, Copy, Debug, PartialEq, Eq, Structural)]
pub enum FilterType {
    NoFilter,
    Sub,
    Up,
    Average,
    Paeth,
}

impl FilterType {
    pub open spec fn spec_from_raw(b: u8) -> Option<FilterType> {
        if b == 0 {
            Some(FilterType::NoFilter)
        } else if b == 1 {
            Some(FilterType::Sub)
        } else if b == 2 {
            Some(FilterType::Up)
        } else if b == 3 {
            Some(FilterType::Average)
        } else if b == 4 {
            Some(FilterType::Paeth)
        } else {
            None
        }
    }

    pub fn from_raw(b: u8) -> (r: Result<FilterType, PngError>)
        ensures
            r is Ok <==> FilterType::spec_from_raw(b) is Some,
            r is Ok ==> r->Ok_0 == FilterType::spec_from_raw(b)->Some_0,
            r is Err ==> r->Err_0 == PngError::Format(FormatError::UnknownFilterType),
    {
        match b {
            0 => Ok(FilterType::NoFilter),
            1 => Ok(FilterType::Sub),
            2 => Ok(FilterType::Up),
            3 => Ok(FilterType::Average),
            4 => Ok(FilterType::Paeth),
            _ => Err(PngError::Format(FormatError::UnknownFilterType)),
        }
    }
}

/// The rendering intent named by the standard-color-space chunk.
#[derive(Clone, Copy, Debug, PartialEq, Eq, Structural)]
pub enum RenderingIntent {
    Perceptual,
    RelativeColorimetric,
    Saturation,
    AbsoluteColorimetric,
}

impl RenderingIntent {
    pub open spec fn spec_from_raw(b: u8) -> Option<RenderingIntent> {
        if b == 0 {
            Some(RenderingIntent::Perceptual)
        } else if b == 1 {
            Some(RenderingIntent::RelativeColorimetric)
        } else if b == 2 {
            Some(RenderingIntent::Saturation)
        } else if b == 3 {
            Some(RenderingIntent::AbsoluteColorimetric)
        } else {
            None
        }
    }

    pub fn from_raw(b: u8) -> (r: Result<RenderingIntent, PngError>)
        ensures
            r is Ok <==> RenderingIntent::spec_from_raw(b) is Some,
            r is Ok ==> r->Ok_0 == RenderingIntent::spec_from_raw(b)->Some_0,
            r is Err ==> r->Err_0 == PngError::Format(FormatError::UnknownRenderingIntent),
    {
        match b {
            0 => Ok(RenderingIntent::Perceptual),
            1 => Ok(RenderingIntent::RelativeColorimetric),
            2 => Ok(RenderingIntent::Saturation),
            3 => Ok(RenderingIntent::AbsoluteColorimetric),
            _ => Err(PngError::Format(FormatError::UnknownRenderingIntent)),
        }
    }
}

/// The unit the physical-pixel-density chunk counts pixels against.
#[derive(Clone, Copy, Debug, PartialEq, Eq, Structural)]
pub enum PixelUnit {
    Unknown,
    Meter,
}

impl PixelUnit {
    pub open spec fn spec_from_raw(b: u8) -> Option<PixelUnit> {
        if b == 0 {
            Some(PixelUnit::Unknown)
        } else if b == 1 {
            Some(PixelUnit::Meter)
        } else {
            None
        }
    }

    pub fn from_raw(b: u8) -> (r: Result<PixelUnit, PngError>)
        ensures
            r is Ok <==> PixelUnit::spec_from_raw(b) is Some,
            r is Ok ==> r->Ok_0 == PixelUnit::spec_from_raw(b)->Some_0,
            r is Err ==> r->Err_0 == PngError::Format(FormatError::UnknownPixelUnit),
    {
        match b {
            0 => Ok(PixelUnit::Unknown),
            1 => Ok(PixelUnit::Meter),
            _ => Err(PngError::Format(FormatError::UnknownPixelUnit)),
        }
    }
}

/// The compression scheme named in text and profile chunks; only the zlib
/// scheme is defined.
#[derive(Clone, Copy, Debug, PartialEq, Eq, Structural)]
pub enum CompressionMethod {
    Zlib,
}

impl CompressionMethod {
    pub open spec fn spec_from_raw(b: u8) -> Option<CompressionMethod> {
        if b == 0 {
            Some(CompressionMethod::Zlib)
        } else {
            None
        }
    }

    pub fn from_raw(b: u8) -> (r: Result<CompressionMethod, PngError>)
        ensures
            r is Ok <==> CompressionMethod::spec_from_raw(b) is Some,
            r is Ok ==> r->Ok_0 == CompressionMethod::spec_from_raw(b)->Some_0,
            r is Err ==> r->Err_0 == PngError::Format(FormatError::UnknownCompressionMethod),
    {
        match b {
            0 => Ok(CompressionMethod::Zlib),
            _ => Err(PngError::Format(FormatError::UnknownCompressionMethod)),
        }
    }
}

/// The byte order of an embedded metadata directory, from its two marker
/// bytes.
#[derive(Clone, Copy, Debug, PartialEq, Eq, Structural)]
pub enum ByteAlign {
    Intel,
    Motorola,
}

impl ByteAlign {
    pub open spec fn spec_from_raw(b0: u8, b1: u8) -> Option<ByteAlign> {
        if b0 == 77 && b1 == 77 {
            Some(ByteAlign::Motorola)
        } else if b0 == 73 && b1 == 73 {
            Some(ByteAlign::Intel)
        } else {
            None
        }
    }

    pub fn from_raw(b0: u8, b1: u8) -> (r: Result<ByteAlign, PngError>)
        ensures
            r is Ok <==> ByteAlign::spec_from_raw(b0, b1) is Some,
            r is Ok ==> r->Ok_0 == ByteAlign::spec_from_raw(b0, b1)->Some_0,
            r is Err ==> r->Err_0 == PngError::Format(FormatError::UnknownByteOrder),
    {
        if b0 == 77 && b1 == 77 {
            Ok(ByteAlign::Motorola)
        } else if b0 == 73 && b1 == 73 {
            Ok(ByteAlign::Intel)
        } else {
            Err(PngError::Format(FormatError::UnknownByteOrder))
        }
    }
}

/// The header record: image geometry and the codes that fix how the pixel
/// stream is laid out.
#[derive(Clone, Copy, Debug, PartialEq, Eq, Structural)]
#[allow(non_camel_case_types)]
pub struct IHDR {
    pub width: u32,
    pub height: u32,
    pub bit_depth: u8,
    pub color_type: ColorType,
    pub compression_method: u8,
    pub filter_method: u8,
    pub interlace_method: InterlaceMethod,
}

/// The header's fixed 13-byte layout: width, height, bit depth, color type,
/// compression method, filter method, interlace method.
pub open spec fn spec_ihdr(data: Seq<u8>) -> Result<IHDR, PngError> {
    if data.len() < 13 {
        Err(PngError::Format(FormatError::ShortPayload))
    } else {
        match ColorType::spec_from_raw(data[9]) {
            None => Err(PngError::Format(FormatError::UnknownColorType)),
            Some(color_type) => match InterlaceMethod::spec_from_raw(data[12]) {
                None => Err(PngError::Format(FormatError::UnknownInterlaceMethod)),
                Some(interlace_method) => Ok(
                    IHDR {
                        width: be_value(data.subrange(0, 4)) as u32,
                        height: be_value(data.subrange(4, 8)) as u32,
                        bit_depth: data[8],
                        color_type,
                        compression_method: data[10],
                        filter_method: data[11],
                        interlace_method,
                    },
                ),
            },
        }
    }
}

impl IHDR {
    pub fn from_chunk(chunk: &Chunk) -> (r: Result<IHDR, PngError>)
        ensures
            r == spec_ihdr(chunk.data@),
    {
        let data: &[u8] = chunk.data.as_slice();
        if data.len() < 13 {
            return Err(PngError::Format(FormatError::ShortPayload));
        }
        let color_type = match ColorType::from_raw(data[9]) {
            Ok(c) => c,
            Err(e) => {
                return Err(e);
            },
        };
        let interlace_method = match InterlaceMethod::from_raw(data[12]) {
            Ok(i) => i,
            Err(e) => {
                return Err(e);
            },
        };
        let width = read_be_u32(data);
        let height = read_be_u32(slice_subrange(data, 4, 8));
        proof {
            assert(data@.take(4) =~= data@.subrange(0, 4));
            assert(data@.subrange(4, 8).take(4) =~= data@.subrange(4, 8));
        }
        Ok(
            IHDR {
                width,
                height,
                bit_depth: data[8],
                color_type,
                compression_method: data[10],
                filter_method: data[11],
                interlace_method,
            },
        )
    }
}


/// The standard-color-space record: a single rendering-intent code byte.
#[derive(Clone, Copy, Debug, PartialEq, Eq, Structural)]
#[allow(non_camel_case_types)]
pub struct sRGB {
    pub intent: RenderingIntent,
}

pub open spec fn spec_srgb(data: Seq<u8>) -> Result<sRGB, PngError> {
    if data.len() < 1 {
        Err(PngError::Format(FormatError::ShortPayload))
    } else {
        match RenderingIntent::spec_from_raw(data[0]) {
            None => Err(PngError::Format(FormatError::UnknownRenderingIntent)),
            Some(intent) => Ok(sRGB { intent }),
        }
    }
}

impl sRGB {
    pub fn from_chunk(chunk: &Chunk) -> (r: Result<sRGB, PngError>)
        ensures
            r == spec_srgb(chunk.data@),
    {
        if chunk.data.len() < 1 {
            return Err(PngError::Format(FormatError::ShortPayload));
        }
        match RenderingIntent::from_raw(chunk.data[0]) {
            Ok(intent) => Ok(sRGB { intent }),
            Err(e) => Err(e),
        }
    }
}

/// The gamma record. The payload's big-endian value scaled by 1/100000 is
/// the image gamma; the raw value is kept so that the record stays in
/// integers, and callers divide where they need the ratio.
#[derive(Clone, Copy, Debug, PartialEq, Eq, Structural)]
#[allow(non_camel_case_types)]
pub struct gAMA {
    pub gamma_scaled: u32,
}

pub open spec fn spec_gama(data: Seq<u8>) -> Result<gAMA, PngError> {
    if data.len() < 4 {
        Err(PngError::Format(FormatError::ShortPayload))
    } else {
        Ok(gAMA { gamma_scaled: be_value(data.subrange(0, 4)) as u32 })
    }
}

impl gAMA {
    pub fn from_chunk(chunk: &Chunk) -> (r: Result<gAMA, PngError>)
        ensures
            r == spec_gama(chunk.data@),
    {
        let data: &[u8] = chunk.data.as_slice();
        if data.len() < 4 {
            return Err(PngError::Format(FormatError::ShortPayload));
        }
        proof {
            assert(data@.take(4) =~= data@.subrange(0, 4));
        }
        Ok(gAMA { gamma_scaled: read_be_u32(data) })
    }
}

/// The physical-pixel-density record: pixels per unit on each axis and the
/// unit code.
#[derive(Clone, Copy, Debug, PartialEq, Eq, Structural)]
#[allow(non_camel_case_types)]
pub struct pHYs {
    pub pixels_per_unit_x: u32,
    pub pixels_per_unit_y: u32,
    pub unit_specifier: PixelUnit,
}

pub open spec fn spec_phys(data: Seq<u8>) -> Result<pHYs, PngError> {
    if data.len() < 9 {
        Err(PngError::Format(FormatError::ShortPayload))
    } else {
        match PixelUnit::spec_from_raw(data[8]) {
            None => Err(PngError::Format(FormatError::UnknownPixelUnit)),
            Some(unit_specifier) => Ok(
                pHYs {
                    pixels_per_unit_x: be_value(data.subrange(0, 4)) as u32,
                    pixels_per_unit_y: be_value(data.subrange(4, 8)) as u32,
                    unit_specifier,
                },
            ),
        }
    }
}

impl pHYs {
    pub fn from_chunk(chunk: &Chunk) -> (r: Result<pHYs, PngError>)
        ensures
            r == spec_phys(chunk.data@),
    {
        let data: &[u8] = chunk.data.as_slice();
        if data.len() < 9 {
            return Err(PngError::Format(FormatError::ShortPayload));
        }
        let unit_specifier = match PixelUnit::from_raw(data[8]) {
            Ok(u) => u,
            Err(e) => {
                return Err(e);
            },
        };
        proof {
            assert(data@.take(4) =~= data@.subrange(0, 4));
            assert(data@.subrange(4, 8).take(4) =~= data@.subrange(4, 8));
        }
        Ok(
            pHYs {
                pixels_per_unit_x: read_be_u32(data),
                pixels_per_unit_y: read_be_u32(slice_subrange(data, 4, 8)),
                unit_specifier,
            },
        )
    }
}

/// The chromaticity record: eight scaled big-endian coordinates.
#[derive(Clone, Copy, Debug, PartialEq, Eq, Structural)]
#[allow(non_camel_case_types)]
pub struct cHRM {
    pub white_x: u32,
    pub white_y: u32,
    pub red_x: u32,
    pub red_y: u32,
    pub green_x: u32,
    pub green_y: u32,
    pub blue_x: u32,
    pub blue_y: u32,
}

pub open spec fn spec_chrm(data: Seq<u8>) -> Result<cHRM, PngError> {
    if data.len() < 32 {
        Err(PngError::Format(FormatError::ShortPayload))
    } else {
        Ok(
            cHRM {
                white_x: be_value(data.subrange(0, 4)) as u32,
                white_y: be_value(data.subrange(4, 8)) as u32,
                red_x: be_value(data.subrange(8, 12)) as u32,
                red_y: be_value(data.subrange(12, 16)) as u32,
                green_x: be_value(data.subrange(16, 20)) as u32,
                green_y: be_value(data.subrange(20, 24)) as u32,
                blue_x: be_value(data.subrange(24, 28)) as u32,
                blue_y: be_value(data.subrange(28, 32)) as u32,
            },
        )
    }
}

impl cHRM {
    pub fn from_chunk(chunk: &Chunk) -> (r: Result<cHRM, PngError>)
        ensures
            r == spec_chrm(chunk.data@),
    {
        let data: &[u8] = chunk.data.as_slice();
        if data.len() < 32 {
            return Err(PngError::Format(FormatError::ShortPayload));
        }
        proof {
            assert(data@.take(4) =~= data@.subrange(0, 4));
            assert(data@.subrange(4, 8).take(4) =~= data@.subrange(4, 8));
            assert(data@.subrange(8, 12).take(4) =~= data@.subrange(8, 12));
            assert(data@.subrange(12, 16).take(4) =~= data@.subrange(12, 16));
            assert(data@.subrange(16, 20).take(4) =~= data@.subrange(16, 20));
            assert(data@.subrange(20, 24).take(4) =~= data@.subrange(20, 24));
            assert(data@.subrange(24, 28).take(4) =~= data@.subrange(24, 28));
            assert(data@.subrange(28, 32).take(4) =~= data@.subrange(28, 32));
        }
        Ok(
            cHRM {
                white_x: read_be_u32(data),
                white_y: read_be_u32(slice_subrange(data, 4, 8)),
                red_x: read_be_u32(slice_subrange(data, 8, 12)),
                red_y: read_be_u32(slice_subrange(data, 12, 16)),
                green_x: read_be_u32(slice_subrange(data, 16, 20)),
                green_y: read_be_u32(slice_subrange(data, 20, 24)),
                blue_x: read_be_u32(slice_subrange(data, 24, 28)),
                blue_y: read_be_u32(slice_subrange(data, 28, 32)),
            },
        )
    }
}

/// The timestamp record: year and five calendar bytes at fixed offsets.
#[derive(Clone, Copy, Debug, PartialEq, Eq, Structural)]
#[allow(non_camel_case_types)]
pub struct tIME {
    pub year: u16,
    pub month: u8,
    pub day: u8,
    pub hour: u8,
    pub minute: u8,
    pub second: u8,
}

pub open spec fn spec_time(data: Seq<u8>) -> Result<tIME, PngError> {
    if data.len() < 7 {
        Err(PngError::Format(FormatError::ShortPayload))
    } else {
        Ok(
            tIME {
                year: be_value(data.subrange(0, 2)) as u16,
                month: data[2],
                day: data[3],
                hour: data[4],
                minute: data[5],
                second: data[6],
            },
        )
    }
}

impl tIME {
    pub fn from_chunk(chunk: &Chunk) -> (r: Result<tIME, PngError>)
        ensures
            r == spec_time(chunk.data@),
    {
        let data: &[u8] = chunk.data.as_slice();
        if data.len() < 7 {
            return Err(PngError::Format(FormatError::ShortPayload));
        }
        proof {
            assert(data@.take(2) =~= data@.subrange(0, 2));
        }
        Ok(
            tIME {
                year: read_be_u16(data),
                month: data[2],
                day: data[3],
                hour: data[4],
                minute: data[5],
                second: data[6],
            },
        )
    }
}

/// The background-color record for a greyscale image: one 16-bit level.
#[derive(Clone, Copy, Debug, PartialEq, Eq, Structural)]
#[allow(non_camel_case_types)]
pub struct bKGD_Greyscale {
    pub value: u16,
}

pub open spec fn spec_bkgd_greyscale(data: Seq<u8>) -> Result<bKGD_Greyscale, PngError> {
    if data.len() < 2 {
        Err(PngError::Format(FormatError::ShortPayload))
    } else {
        Ok(bKGD_Greyscale { value: be_value(data.subrange(0, 2)) as u16 })
    }
}

impl bKGD_Greyscale {
    pub fn from_chunk(chunk: &Chunk) -> (r: Result<bKGD_Greyscale, PngError>)
        ensures
            r == spec_bkgd_greyscale(chunk.data@),
    {
        let data: &[u8] = chunk.data.as_slice();
        if data.len() < 2 {
            return Err(PngError::Format(FormatError::ShortPayload));
        }
        proof {
            assert(data@.take(2) =~= data@.subrange(0, 2));
        }
        Ok(bKGD_Greyscale { value: read_be_u16(data) })
    }
}

/// The background-color record for a true-color image: three 16-bit levels.
#[derive(Clone, Copy, Debug, PartialEq, Eq, Structural)]
#[allow(non_camel_case_types)]
pub struct bKGD_TrueColor {
    pub red: u16,
    pub green: u16,
    pub blue: u16,
}

pub open spec fn spec_bkgd_truecolor(data: Seq<u8>) -> Result<bKGD_TrueColor, PngError> {
    if data.len() < 6 {
        Err(PngError::Format(FormatError::ShortPayload))
    } else {
        Ok(
            bKGD_TrueColor {
                red: be_value(data.subrange(0, 2)) as u16,
                green: be_value(data.subrange(2, 4)) as u16,
                blue: be_value(data.subrange(4, 6)) as u16,
            },
        )
    }
}

impl bKGD_TrueColor {
    pub fn from_chunk(chunk: &Chunk) -> (r: Result<bKGD_TrueColor, PngError>)
        ensures
            r == spec_bkgd_truecolor(chunk.data@),
    {
        let data: &[u8] = chunk.data.as_slice();
        if data.len() < 6 {
            return Err(PngError::Format(FormatError::ShortPayload));
        }
        proof {
            assert(data@.take(2) =~= data@.subrange(0, 2));
            assert(data@.subrange(2, 4).take(2) =~= data@.subrange(2, 4));
            assert(data@.subrange(4, 6).take(2) =~= data@.subrange(4, 6));
        }
        Ok(
            bKGD_TrueColor {
                red: read_be_u16(data),
                green: read_be_u16(slice_subrange(data, 2, 4)),
                blue: read_be_u16(slice_subrange(data, 4, 6)),
            },
        )
    }
}

/// The background-color record for an indexed image: one palette index.
#[derive(Clone, Copy, Debug, PartialEq, Eq, Structural)]
#[allow(non_camel_case_types)]
pub struct bKGD_Indexed {
    pub index: u8,
}

pub open spec fn spec_bkgd_indexed(data: Seq<u8>) -> Result<bKGD_Indexed, PngError> {
    if data.len() < 1 {
        Err(PngError::Format(FormatError::ShortPayload))
    } else {
        Ok(bKGD_Indexed { index: data[0] })
    }
}

impl bKGD_Indexed {
    pub fn from_chunk(chunk: &Chunk) -> (r: Result<bKGD_Indexed, PngError>)
        ensures
            r == spec_bkgd_indexed(chunk.data@),
    {
        if chunk.data.len() < 1 {
            return Err(PngError::Format(FormatError::ShortPayload));
        }
        Ok(bKGD_Indexed { index: chunk.data[0] })
    }
}

/// The transparency record for a greyscale image: one 16-bit level.
#[derive(Clone, Copy, Debug, PartialEq, Eq, Structural)]
#[allow(non_camel_case_types)]
pub struct tRNS_Greyscale {
    pub value: u16,
}

pub open spec fn spec_trns_greyscale(data: Seq<u8>) -> Result<tRNS_Greyscale, PngError> {
    if data.len() < 2 {
        Err(PngError::Format(FormatError::ShortPayload))
    } else {
        Ok(tRNS_Greyscale { value: be_value(data.subrange(0, 2)) as u16 })
    }
}

impl tRNS_Greyscale {
    pub fn from_chunk(chunk: &Chunk) -> (r: Result<tRNS_Greyscale, PngError>)
        ensures
            r == spec_trns_greyscale(chunk.data@),
    {
        let data: &[u8] = chunk.data.as_slice();
        if data.len() < 2 {
            return Err(PngError::Format(FormatError::ShortPayload));
        }
        proof {
            assert(data@.take(2) =~= data@.subrange(0, 2));
        }
        Ok(tRNS_Greyscale { value: read_be_u16(data) })
    }
}

/// The transparency record for a true-color image: three 16-bit levels in
/// red, green, blue order.
#[derive(Clone, Copy, Debug, PartialEq, Eq, Structural)]
#[allow(non_camel_case_types)]
pub struct tRNS_TrueColor {
    pub red: u16,
    pub green: u16,
    pub blue: u16,
}

pub open spec fn spec_trns_truecolor(data: Seq<u8>) -> Result<tRNS_TrueColor, PngError> {
    if data.len() < 6 {
        Err(PngError::Format(FormatError::ShortPayload))
    } else {
        Ok(
            tRNS_TrueColor {
                red: be_value(data.subrange(0, 2)) as u16,
                green: be_value(data.subrange(2, 4)) as u16,
                blue: be_value(data.subrange(4, 6)) as u16,
            },
        )
    }
}

impl tRNS_TrueColor {
    pub fn from_chunk(chunk: &Chunk) -> (r: Result<tRNS_TrueColor, PngError>)
        ensures
            r == spec_trns_truecolor(chunk.data@),
    {
        let data: &[u8] = chunk.data.as_slice();
        if data.len() < 6 {
            return Err(PngError::Format(FormatError::ShortPayload));
        }
        proof {
            assert(data@.take(2) =~= data@.subrange(0, 2));
            assert(data@.subrange(2, 4).take(2) =~= data@.subrange(2, 4));
            assert(data@.subrange(4, 6).take(2) =~= data@.subrange(4, 6));
        }
        Ok(
            tRNS_TrueColor {
                red: read_be_u16(data),
                green: read_be_u16(slice_subrange(data, 2, 4)),
                blue: read_be_u16(slice_subrange(data, 4, 6)),
            },
        )
    }
}

/// The transparency record for an indexed image: one alpha byte per
/// palette entry, the payload taken whole.
#[derive(Debug)]
#[allow(non_camel_case_types)]
pub struct tRNS_Indexed {
    pub values: Vec<u8>,
}

impl tRNS_Indexed {
    pub fn from_chunk(chunk: &Chunk) -> (r: Result<tRNS_Indexed, PngError>)
        ensures
            r is Ok,
            r->Ok_0.values@ == chunk.data@,
    {
        Ok(tRNS_Indexed { values: slice_to_vec(chunk.data.as_slice()) })
    }
}

/// The palette record: the payload partitioned into 3-byte entries.
#[derive(Debug)]
#[allow(non_camel_case_types)]
pub struct PLTE {
    pub palette: Vec<Vec<u8>>,
}

impl PLTE {
    pub fn from_chunk(chunk: &Chunk) -> (r: Result<PLTE, PngError>)
        ensures
            r is Ok <==> chunk.data@.len() % 3 == 0,
            r is Ok ==> r->Ok_0.palette@.len() == chunk.data@.len() / 3,
            r is Ok ==> forall|k: int|
                0 <= k < chunk.data@.len() / 3 ==> (#[trigger] r->Ok_0.palette@[k])@
                    == chunk.data@.subrange(3 * k, 3 * k + 3),
            r is Err ==> r->Err_0 == PngError::Format(FormatError::BadLength),
    {
        let data: &[u8] = chunk.data.as_slice();
        if data.len() % 3 != 0 {
            return Err(PngError::Format(FormatError::BadLength));
        }
        let count = data.len() / 3;
        let mut palette: Vec<Vec<u8>> = Vec::new();
        let mut k: usize = 0;
        while k < count
            invariant
                0 <= k <= count,
                count == data@.len() / 3,
                data@.len() % 3 == 0,
                data@.len() <= usize::MAX,
                palette@.len() == k,
                forall|j: int|
                    0 <= j < k ==> (#[trigger] palette@[j])@ == data@.subrange(3 * j, 3 * j + 3),
            decreases count - k,
        {
            proof {
                vstd::arithmetic::div_mod::lemma_fundamental_div_mod(data@.len() as int, 3);
            }
            let entry = slice_to_vec(slice_subrange(data, 3 * k, 3 * k + 3));
            palette.push(entry);
            k += 1;
        }
        Ok(PLTE { palette })
    }
}


/// The plain-text record: a null-terminated keyword, then the text.
#[derive(Debug)]
#[allow(non_camel_case_types)]
pub struct tEXt {
    pub keyword: String,
    pub text: String,
}

pub open spec fn spec_text_record(data: Seq<u8>) -> Result<(Seq<char>, Seq<char>), PngError> {
    let k = null_prefix_len(data);
    if k == data.len() {
        Err(PngError::Format(FormatError::MissingNull))
    } else if !valid_utf8(data.take(k)) {
        Err(PngError::Format(FormatError::BadText))
    } else if !valid_utf8(data.skip(k + 1)) {
        Err(PngError::Format(FormatError::BadText))
    } else {
        Ok((decode_utf8(data.take(k)), decode_utf8(data.skip(k + 1))))
    }
}

impl tEXt {
    pub fn from_chunk(chunk: &Chunk) -> (r: Result<tEXt, PngError>)
        ensures
            r is Ok <==> spec_text_record(chunk.data@) is Ok,
            r is Ok ==> r->Ok_0.keyword@ == spec_text_record(chunk.data@)->Ok_0.0
                && r->Ok_0.text@ == spec_text_record(chunk.data@)->Ok_0.1,
            r is Err ==> r->Err_0 == spec_text_record(chunk.data@)->Err_0,
    {
        let data: &[u8] = chunk.data.as_slice();
        proof {
            lemma_null_prefix_len_bounds(data@);
        }
        let kw_bytes = read_until_null(data);
        let k = kw_bytes.len();
        if k == data.len() {
            return Err(PngError::Format(FormatError::MissingNull));
        }
        let keyword = match utf8_to_string(kw_bytes) {
            Some(s) => s,
            None => {
                return Err(PngError::Format(FormatError::BadText));
            },
        };
        let text_bytes = slice_to_vec(slice_subrange(data, k + 1, data.len()));
        proof {
            assert(text_bytes@ =~= data@.skip(k + 1));
        }
        let text = match utf8_to_string(text_bytes) {
            Some(s) => s,
            None => {
                return Err(PngError::Format(FormatError::BadText));
            },
        };
        Ok(tEXt { keyword, text })
    }
}

/// The color-profile record: a null-terminated profile name, a
/// compression-method byte, then the profile bytes, kept compressed as
/// they stand in the payload.
#[derive(Debug)]
#[allow(non_camel_case_types)]
pub struct iCCP {
    pub profile_name: String,
    pub compression_method: CompressionMethod,
    pub profile: Vec<u8>,
}

pub open spec fn spec_iccp(data: Seq<u8>) -> Result<
    (Seq<char>, CompressionMethod, Seq<u8>),
    PngError,
> {
    let k = null_prefix_len(data);
    if data.len() < k + 2 {
        Err(PngError::Format(FormatError::ShortPayload))
    } else if !valid_utf8(data.take(k)) {
        Err(PngError::Format(FormatError::BadText))
    } else {
        match CompressionMethod::spec_from_raw(data[k + 1]) {
            None => Err(PngError::Format(FormatError::UnknownCompressionMethod)),
            Some(cm) => Ok((decode_utf8(data.take(k)), cm, data.skip(k + 2))),
        }
    }
}

impl iCCP {
    pub fn from_chunk(chunk: &Chunk) -> (r: Result<iCCP, PngError>)
        ensures
            r is Ok <==> spec_iccp(chunk.data@) is Ok,
            r is Ok ==> r->Ok_0.profile_name@ == spec_iccp(chunk.data@)->Ok_0.0
                && r->Ok_0.compression_method == spec_iccp(chunk.data@)->Ok_0.1
                && r->Ok_0.profile@ == spec_iccp(chunk.data@)->Ok_0.2,
            r is Err ==> r->Err_0 == spec_iccp(chunk.data@)->Err_0,
    {
        let data: &[u8] = chunk.data.as_slice();
        proof {
            lemma_null_prefix_len_bounds(data@);
        }
        let name_bytes = read_until_null(data);
        let k = name_bytes.len();
        if data.len() < 2 || data.len() - 2 < k {
            return Err(PngError::Format(FormatError::ShortPayload));
        }
        let profile_name = match utf8_to_string(name_bytes) {
            Some(s) => s,
            None => {
                return Err(PngError::Format(FormatError::BadText));
            },
        };
        let compression_method = match CompressionMethod::from_raw(data[k + 1]) {
            Ok(c) => c,
            Err(e) => {
                return Err(e);
            },
        };
        let profile = slice_to_vec(slice_subrange(data, k + 2, data.len()));
        proof {
            assert(profile@ =~= data@.skip(k + 2));
        }
        Ok(iCCP { profile_name, compression_method, profile })
    }
}

/// The compressed-text record: a null-terminated keyword, a
/// compression-method byte, then a zlib stream holding the text.
#[derive(Debug)]
#[allow(non_camel_case_types)]
pub struct zTXt {
    pub keyword: String,
    pub compression_method: CompressionMethod,
    pub text: String,
}

pub open spec fn spec_ztxt(data: Seq<u8>) -> Result<
    (Seq<char>, CompressionMethod, Seq<char>),
    PngError,
> {
    let k = null_prefix_len(data);
    if data.len() < k + 2 {
        Err(PngError::Format(FormatError::ShortPayload))
    } else if !valid_utf8(data.take(k)) {
        Err(PngError::Format(FormatError::BadText))
    } else {
        match CompressionMethod::spec_from_raw(data[k + 1]) {
            None => Err(PngError::Format(FormatError::UnknownCompressionMethod)),
            Some(cm) => match spec_inflate(data.skip(k + 2)) {
                None => Err(PngError::Decompress),
                Some(t) => if !valid_utf8(t) {
                    Err(PngError::Format(FormatError::BadText))
                } else {
                    Ok((decode_utf8(data.take(k)), cm, decode_utf8(t)))
                },
            },
        }
    }
}

impl zTXt {
    pub fn from_chunk(chunk: &Chunk) -> (r: Result<zTXt, PngError>)
        ensures
            r is Ok <==> spec_ztxt(chunk.data@) is Ok,
            r is Ok ==> r->Ok_0.keyword@ == spec_ztxt(chunk.data@)->Ok_0.0
                && r->Ok_0.compression_method == spec_ztxt(chunk.data@)->Ok_0.1
                && r->Ok_0.text@ == spec_ztxt(chunk.data@)->Ok_0.2,
            r is Err ==> r->Err_0 == spec_ztxt(chunk.data@)->Err_0,
    {
        let data: &[u8] = chunk.data.as_slice();
        proof {
            lemma_null_prefix_len_bounds(data@);
        }
        let name_bytes = read_until_null(data);
        let k = name_bytes.len();
        if data.len() < 2 || data.len() - 2 < k {
            return Err(PngError::Format(FormatError::ShortPayload));
        }
        let keyword = match utf8_to_string(name_bytes) {
            Some(s) => s,
            None => {
                return Err(PngError::Format(FormatError::BadText));
            },
        };
        let compression_method = match CompressionMethod::from_raw(data[k + 1]) {
            Ok(c) => c,
            Err(e) => {
                return Err(e);
            },
        };
        let compressed = slice_subrange(data, k + 2, data.len());
        proof {
            assert(compressed@ =~= data@.skip(k + 2));
        }
        let text_bytes = match zlib_inflate(compressed) {
            Some(t) => t,
            None => {
                return Err(PngError::Decompress);
            },
        };
        let text = match utf8_to_string(text_bytes) {
            Some(s) => s,
            None => {
                return Err(PngError::Format(FormatError::BadText));
            },
        };
        Ok(zTXt { keyword, compression_method, text })
    }
}


/// The mathematical content of an international-text record.
pub ghost struct ItxtModel {
    pub keyword: Seq<char>,
    pub is_compressed: bool,
    pub compression_method: CompressionMethod,
    pub lang_tag: Option<Seq<char>>,
    pub translated_keyword: Option<Seq<char>>,
    pub text: Seq<char>,
}

/// The international-text record: a null-terminated keyword, a compression
/// flag and method byte, an optional null-terminated language tag, an
/// optional null-terminated translated keyword (read only when a language
/// tag is present), then the terminal text: the remaining bytes taken
/// whole, passed through the inflate collaborator first when the
/// compression flag is set.
#[derive(Debug)]
#[allow(non_camel_case_types)]
pub struct iTXt {
    pub keyword: String,
    pub is_compressed: bool,
    pub compression_method: CompressionMethod,
    pub lang_tag: Option<String>,
    pub translated_keyword: Option<String>,
    pub text: String,
}

/// The terminal text of an international-text record: the remaining bytes
/// taken whole, passed through the inflate collaborator first when the
/// compression flag is set.
pub open spec fn spec_itxt_text(text_bytes: Seq<u8>, is_compressed: bool) -> Result<
    Seq<char>,
    PngError,
> {
    if is_compressed {
        match spec_inflate(text_bytes) {
            None => Err(PngError::Decompress),
            Some(t) => if !valid_utf8(t) {
                Err(PngError::Format(FormatError::BadText))
            } else {
                Ok(decode_utf8(t))
            },
        }
    } else {
        if !valid_utf8(text_bytes) {
            Err(PngError::Format(FormatError::BadText))
        } else {
            Ok(decode_utf8(text_bytes))
        }
    }
}

pub open spec fn spec_itxt(data: Seq<u8>) -> Result<ItxtModel, PngError> {
    let k = null_prefix_len(data);
    if data.len() < k + 3 {
        Err(PngError::Format(FormatError::ShortPayload))
    } else if !valid_utf8(data.take(k)) {
        Err(PngError::Format(FormatError::BadText))
    } else {
        let is_compressed = data[k + 1] == 1;
        match CompressionMethod::spec_from_raw(data[k + 2]) {
            None => Err(PngError::Format(FormatError::UnknownCompressionMethod)),
            Some(cm) => {
                let rest = data.skip(k + 3);
                let lang_len = null_prefix_len(rest);
                if lang_len == 0 {
                    if data.len() < k + 5 {
                        Err(PngError::Format(FormatError::ShortPayload))
                    } else {
                        match spec_itxt_text(data.skip(k + 5), is_compressed) {
                            Err(e) => Err(e),
                            Ok(text) => Ok(
                                ItxtModel {
                                    keyword: decode_utf8(data.take(k)),
                                    is_compressed,
                                    compression_method: cm,
                                    lang_tag: None,
                                    translated_keyword: None,
                                    text,
                                },
                            ),
                        }
                    }
                } else if lang_len == rest.len() {
                    Err(PngError::Format(FormatError::MissingNull))
                } else if !valid_utf8(rest.take(lang_len)) {
                    Err(PngError::Format(FormatError::BadText))
                } else {
                    let off2 = k + 3 + lang_len + 1;
                    let rest2 = data.skip(off2);
                    let t_len = null_prefix_len(rest2);
                    if t_len == rest2.len() {
                        Err(PngError::Format(FormatError::MissingNull))
                    } else if !valid_utf8(rest2.take(t_len)) {
                        Err(PngError::Format(FormatError::BadText))
                    } else {
                        match spec_itxt_text(data.skip(off2 + t_len + 1), is_compressed) {
                            Err(e) => Err(e),
                            Ok(text) => Ok(
                                ItxtModel {
                                    keyword: decode_utf8(data.take(k)),
                                    is_compressed,
                                    compression_method: cm,
                                    lang_tag: Some(decode_utf8(rest.take(lang_len))),
                                    translated_keyword: Some(decode_utf8(rest2.take(t_len))),
                                    text,
                                },
                            ),
                        }
                    }
                }
            },
        }
    }
}

fn itxt_text(text_bytes: &[u8], is_compressed: bool) -> (r: Result<String, PngError>)
    ensures
        r is Ok <==> spec_itxt_text(text_bytes@, is_compressed) is Ok,
        r is Ok ==> r->Ok_0@ == spec_itxt_text(text_bytes@, is_compressed)->Ok_0,
        r is Err ==> r->Err_0 == spec_itxt_text(text_bytes@, is_compressed)->Err_0,
{
    if is_compressed {
        match zlib_inflate(text_bytes) {
            None => Err(PngError::Decompress),
            Some(t) => match utf8_to_string(t) {
                None => Err(PngError::Format(FormatError::BadText)),
                Some(text) => Ok(text),
            },
        }
    } else {
        match utf8_to_string(slice_to_vec(text_bytes)) {
            None => Err(PngError::Format(FormatError::BadText)),
            Some(text) => Ok(text),
        }
    }
}

impl iTXt {
    pub fn from_chunk(chunk: &Chunk) -> (r: Result<iTXt, PngError>)
        ensures
            r is Ok <==> spec_itxt(chunk.data@) is Ok,
            r is Ok ==> ({
                let m = spec_itxt(chunk.data@)->Ok_0;
                let v = r->Ok_0;
                v.keyword@ == m.keyword && v.is_compressed == m.is_compressed
                    && v.compression_method == m.compression_method && (v.lang_tag is Some
                    <==> m.lang_tag is Some) && (v.lang_tag is Some
                    ==> v.lang_tag.unwrap()@ == m.lang_tag.unwrap()) && (
                v.translated_keyword is Some <==> m.translated_keyword is Some) && (
                v.translated_keyword is Some ==> v.translated_keyword.unwrap()@
                    == m.translated_keyword.unwrap()) && v.text@ == m.text
            }),
            r is Err ==> r->Err_0 == spec_itxt(chunk.data@)->Err_0,
    {
        let data: &[u8] = chunk.data.as_slice();
        proof {
            lemma_null_prefix_len_bounds(data@);
        }
        let kw_bytes = read_until_null(data);
        let k = kw_bytes.len();
        if data.len() < 3 || data.len() - 3 < k {
            return Err(PngError::Format(FormatError::ShortPayload));
        }
        let keyword = match utf8_to_string(kw_bytes) {
            Some(s) => s,
            None => {
                return Err(PngError::Format(FormatError::BadText));
            },
        };
        let is_compressed = data[k + 1] == 1;
        let compression_method = match CompressionMethod::from_raw(data[k + 2]) {
            Ok(c) => c,
            Err(e) => {
                return Err(e);
            },
        };
        let rest = slice_subrange(data, k + 3, data.len());
        proof {
            assert(rest@ =~= data@.skip(k + 3));
            lemma_null_prefix_len_bounds(rest@);
        }
        let lang_bytes = read_until_null(rest);
        let lang_len = lang_bytes.len();
        if lang_len == 0 {
            if data.len() < 5 || data.len() - 5 < k {
                return Err(PngError::Format(FormatError::ShortPayload));
            }
            let tail = slice_subrange(data, k + 5, data.len());
            proof {
                assert(tail@ =~= data@.skip(k + 5));
            }
            let text = match itxt_text(tail, is_compressed) {
                Ok(t) => t,
                Err(e) => {
                    return Err(e);
                },
            };
            Ok(
                iTXt {
                    keyword,
                    is_compressed,
                    compression_method,
                    lang_tag: None,
                    translated_keyword: None,
                    text,
                },
            )
        } else {
            if lang_len == rest.len() {
                return Err(PngError::Format(FormatError::MissingNull));
            }
            let lang = match utf8_to_string(lang_bytes) {
                Some(s) => s,
                None => {
                    return Err(PngError::Format(FormatError::BadText));
                },
            };
            let off2 = k + 3 + lang_len + 1;
            let rest2 = slice_subrange(data, off2, data.len());
            proof {
                assert(rest2@ =~= data@.skip(off2 as int));
                lemma_null_prefix_len_bounds(rest2@);
            }
            let trans_bytes = read_until_null(rest2);
            let t_len = trans_bytes.len();
            if t_len == rest2.len() {
                return Err(PngError::Format(FormatError::MissingNull));
            }
            let translated = match utf8_to_string(trans_bytes) {
                Some(s) => s,
                None => {
                    return Err(PngError::Format(FormatError::BadText));
                },
            };
            let tail = slice_subrange(data, off2 + t_len + 1, data.len());
            proof {
                assert(tail@ =~= data@.skip(off2 + t_len + 1));
            }
            let text = match itxt_text(tail, is_compressed) {
                Ok(t) => t,
                Err(e) => {
                    return Err(e);
                },
            };
            Ok(
                iTXt {
                    keyword,
                    is_compressed,
                    compression_method,
                    lang_tag: Some(lang),
                    translated_keyword: Some(translated),
                    text,
                },
            )
        }
    }
}


/// One metadata directory: its fixed 12-byte entries, kept raw.
#[derive(Debug)]
#[allow(non_camel_case_types)]
pub struct IDF {
    pub entries: Vec<Vec<u8>>,
}

impl View for IDF {
    type V = Seq<Seq<u8>>;

    open spec fn view(&self) -> Seq<Seq<u8>> {
        self.entries@.map_values(|e: Vec<u8>| e@)
    }
}

/// One directory at the front of a buffer: a 2-byte big-endian entry
/// count, then that many fixed 12-byte entries.
pub open spec fn spec_parse_idf(s: Seq<u8>) -> Result<Seq<Seq<u8>>, PngError> {
    if s.len() < 2 {
        Err(PngError::Format(FormatError::ShortPayload))
    } else {
        let n = be_value(s.subrange(0, 2));
        if s.len() < 2 + n * 12 {
            Err(PngError::Format(FormatError::ShortPayload))
        } else {
            Ok(Seq::new(n as nat, |e: int| s.subrange(2 + e * 12, 2 + e * 12 + 12)))
        }
    }
}

impl IDF {
    /// Reads one directory off the front of a buffer, checking that every
    /// entry lies inside it.
    pub fn parse_idf(bytes: &[u8]) -> (r: Result<IDF, PngError>)
        ensures
            r is Ok <==> spec_parse_idf(bytes@) is Ok,
            r is Ok ==> r->Ok_0@ == spec_parse_idf(bytes@)->Ok_0,
            r is Err ==> r->Err_0 == spec_parse_idf(bytes@)->Err_0,
    {
        if bytes.len() < 2 {
            return Err(PngError::Format(FormatError::ShortPayload));
        }
        let n16 = read_be_u16(bytes);
        proof {
            assert(bytes@.take(2) =~= bytes@.subrange(0, 2));
        }
        let n = n16 as usize;
        if bytes.len() - 2 < n * 12 {
            return Err(PngError::Format(FormatError::ShortPayload));
        }
        let mut entries: Vec<Vec<u8>> = Vec::new();
        let mut e: usize = 0;
        while e < n
            invariant
                0 <= e <= n,
                bytes@.len() >= 2 + n * 12,
                bytes@.len() <= usize::MAX,
                entries@.len() == e,
                forall|j: int|
                    0 <= j < e ==> (#[trigger] entries@[j])@ == bytes@.subrange(
                        2 + j * 12,
                        2 + j * 12 + 12,
                    ),
            decreases n - e,
        {
            let entry = slice_to_vec(slice_subrange(bytes, 2 + e * 12, 2 + e * 12 + 12));
            entries.push(entry);
            e += 1;
        }
        proof {
            assert(entries@.map_values(|v: Vec<u8>| v@) =~= spec_parse_idf(bytes@)->Ok_0);
        }
        Ok(IDF { entries })
    }
}

/// The directory chain from a given starting offset: each directory is
/// read where its offset points, and the trailing 4-byte offset names the
/// next one, zero ending the chain. The fuel bounds the walk so that a
/// cycle of offsets is rejected rather than followed forever.
pub open spec fn spec_exif_walk(data: Seq<u8>, offset: int, fuel: nat) -> Result<
    Seq<Seq<Seq<u8>>>,
    PngError,
>
    decreases fuel,
{
    if offset == 0 {
        Ok(Seq::empty())
    } else if fuel == 0 {
        Err(PngError::Format(FormatError::BadOffset))
    } else if offset < 0 || data.len() < offset + 2 {
        Err(PngError::Format(FormatError::BadOffset))
    } else {
        match spec_parse_idf(data.skip(offset)) {
            Err(e) => Err(e),
            Ok(entries) => {
                let n = entries.len() as int;
                if data.len() < offset + 2 + n * 12 + 4 {
                    Err(PngError::Format(FormatError::BadOffset))
                } else {
                    let next = be_value(
                        data.subrange(offset + 2 + n * 12, offset + 2 + n * 12 + 4),
                    );
                    match spec_exif_walk(data, next, (fuel - 1) as nat) {
                        Err(e) => Err(e),
                        Ok(rest) => Ok(seq![entries] + rest),
                    }
                }
            },
        }
    }
}

/// What the embedded-metadata decoder owes: two byte-order marker bytes,
/// a 4-byte offset to the first directory, then the chain, every offset
/// checked against the payload before it is followed.
pub open spec fn spec_exif(data: Seq<u8>) -> Result<(ByteAlign, Seq<Seq<Seq<u8>>>), PngError> {
    if data.len() < 8 {
        Err(PngError::Format(FormatError::ShortPayload))
    } else {
        match ByteAlign::spec_from_raw(data[0], data[1]) {
            None => Err(PngError::Format(FormatError::UnknownByteOrder)),
            Some(ba) => match spec_exif_walk(data, be_value(data.subrange(4, 8)), data.len()) {
                Err(e) => Err(e),
                Ok(idfs) => Ok((ba, idfs)),
            },
        }
    }
}

spec fn spec_idfs_with_prefix(
    pre: Seq<Seq<Seq<u8>>>,
    r: Result<Seq<Seq<Seq<u8>>>, PngError>,
) -> Result<Seq<Seq<Seq<u8>>>, PngError> {
    match r {
        Ok(t) => Ok(pre + t),
        Err(e) => Err(e),
    }
}

proof fn lemma_idfs_with_prefix_assoc(
    p1: Seq<Seq<Seq<u8>>>,
    p2: Seq<Seq<Seq<u8>>>,
    r: Result<Seq<Seq<Seq<u8>>>, PngError>,
)
    ensures
        spec_idfs_with_prefix(p1, spec_idfs_with_prefix(p2, r)) == spec_idfs_with_prefix(
            p1 + p2,
            r,
        ),
{
    if r is Ok {
        assert(p1 + (p2 + r->Ok_0) =~= (p1 + p2) + r->Ok_0);
    }
}

/// The embedded-metadata record: the byte order and the directory chain.
#[derive(Debug)]
#[allow(non_camel_case_types)]
pub struct eXIf {
    pub byte_align: ByteAlign,
    pub idfs: Vec<IDF>,
}

impl eXIf {
    /// Walks the whole directory chain; a chain longer than the payload
    /// could hold distinct directories is taken for a cycle and rejected.
    pub fn from_chunk(chunk: &Chunk) -> (r: Result<eXIf, PngError>)
        ensures
            r is Ok <==> spec_exif(chunk.data@) is Ok,
            r is Ok ==> r->Ok_0.byte_align == spec_exif(chunk.data@)->Ok_0.0
                && r->Ok_0.idfs@.map_values(|idf: IDF| idf@) == spec_exif(chunk.data@)->Ok_0.1,
            r is Err ==> r->Err_0 == spec_exif(chunk.data@)->Err_0,
    {
        let data: &[u8] = chunk.data.as_slice();
        if data.len() < 8 {
            return Err(PngError::Format(FormatError::ShortPayload));
        }
        let byte_align = match ByteAlign::from_raw(data[0], data[1]) {
            Ok(b) => b,
            Err(e) => {
                return Err(e);
            },
        };
        let first32 = read_be_u32(slice_subrange(data, 4, 8));
        proof {
            assert(data@.subrange(4, 8).take(4) =~= data@.subrange(4, 8));
        }
        let ghost first: int = be_value(data@.subrange(4, 8));
        let ghost fuel0: nat = data@.len();
        let budget = data.len();
        let mut offset: usize = first32 as usize;
        let mut steps: usize = 0;
        let mut idfs: Vec<IDF> = Vec::new();
        proof {
            assert(idfs@.map_values(|idf: IDF| idf@) =~= Seq::<Seq<Seq<u8>>>::empty());
            if spec_exif_walk(data@, first, fuel0) is Ok {
                assert(Seq::<Seq<Seq<u8>>>::empty() + spec_exif_walk(data@, first, fuel0)->Ok_0
                    =~= spec_exif_walk(data@, first, fuel0)->Ok_0);
            }
        }
        while offset != 0
            invariant
                data@ == chunk.data@,
                data@.len() >= 8,
                budget == data@.len(),
                data@.len() <= usize::MAX,
                fuel0 == budget,
                steps <= budget,
                ByteAlign::spec_from_raw(data@[0], data@[1]) == Some(byte_align),
                first == be_value(data@.subrange(4, 8)),
                spec_exif_walk(data@, first, fuel0) == spec_idfs_with_prefix(
                    idfs@.map_values(|idf: IDF| idf@),
                    spec_exif_walk(data@, offset as int, (fuel0 - steps) as nat),
                ),
            decreases budget - steps,
        {
            let ghost prev_views = idfs@.map_values(|idf: IDF| idf@);
            let ghost fuel_left: nat = (fuel0 - steps) as nat;
            if steps >= budget {
                proof {
                    assert((fuel0 - steps) as nat == 0);
                    assert(spec_exif_walk(data@, offset as int, 0) == Err::<
                        Seq<Seq<Seq<u8>>>,
                        PngError,
                    >(PngError::Format(FormatError::BadOffset)));
                }
                return Err(PngError::Format(FormatError::BadOffset));
            }
            proof {
                assert(fuel_left >= 1);
            }
            if data.len() - 2 < offset {
                proof {
                    assert(spec_exif_walk(data@, offset as int, fuel_left) == Err::<
                        Seq<Seq<Seq<u8>>>,
                        PngError,
                    >(PngError::Format(FormatError::BadOffset)));
                }
                return Err(PngError::Format(FormatError::BadOffset));
            }
            let sub = slice_subrange(data, offset, data.len());
            proof {
                assert(sub@ =~= data@.skip(offset as int));
            }
            let idf = match IDF::parse_idf(sub) {
                Ok(i) => i,
                Err(e) => {
                    return Err(e);
                },
            };
            let n = idf.entries.len();
            proof {
                crate::utils::lemma_be_value_2(sub@.subrange(0, 2));
                assert(n == spec_parse_idf(sub@)->Ok_0.len());
                assert(n <= 65535);
            }
            let avail = data.len() - 2 - offset;
            if (n as u64) * 12 + 4 > avail as u64 {
                return Err(PngError::Format(FormatError::BadOffset));
            }
            let next_pos = offset + 2 + n * 12;
            let next32 = read_be_u32(slice_subrange(data, next_pos, next_pos + 4));
            proof {
                assert(data@.subrange(next_pos as int, next_pos + 4).take(4) =~= data@.subrange(
                    next_pos as int,
                    next_pos + 4,
                ));
            }
            idfs.push(idf);
            proof {
                let entries = spec_parse_idf(data@.skip(offset as int))->Ok_0;
                assert(idf@ == entries);
                assert(spec_exif_walk(data@, offset as int, fuel_left) == spec_idfs_with_prefix(
                    seq![entries],
                    spec_exif_walk(data@, next32 as int, (fuel_left - 1) as nat),
                ));
                lemma_idfs_with_prefix_assoc(
                    prev_views,
                    seq![entries],
                    spec_exif_walk(data@, next32 as int, (fuel_left - 1) as nat),
                );
                assert(idfs@.map_values(|idf: IDF| idf@) =~= prev_views + seq![entries]);
            }
            offset = next32 as usize;
            steps += 1;
        }
        proof {
            assert(spec_exif_walk(data@, 0, (fuel0 - steps) as nat) == Ok::<
                Seq<Seq<Seq<u8>>>,
                PngError,
            >(Seq::empty()));
            assert(idfs@.map_values(|idf: IDF| idf@) + Seq::<Seq<Seq<u8>>>::empty()
                =~= idfs@.map_values(|idf: IDF| idf@));
        }
        Ok(eXIf { byte_align, idfs })
    }
}


/// The background-color record, its payload shape selected by the
/// header's color type rather than by the caller: the grey form for the
/// greyscale types, the three-sample form for the true-color types, the
/// palette-index form for indexed color.
#[derive(Clone, Copy, Debug, PartialEq, Eq, Structural)]
pub enum Background {
    Greyscale(bKGD_Greyscale),
    TrueColor(bKGD_TrueColor),
    Indexed(bKGD_Indexed),
}

pub open spec fn spec_background(data: Seq<u8>, ct: ColorType) -> Result<Background, PngError> {
    match ct {
        ColorType::Greyscale | ColorType::GreyscaleAlpha => match spec_bkgd_greyscale(data) {
            Ok(g) => Ok(Background::Greyscale(g)),
            Err(e) => Err(e),
        },
        ColorType::TrueColor | ColorType::TrueColorAlpha => match spec_bkgd_truecolor(data) {
            Ok(t) => Ok(Background::TrueColor(t)),
            Err(e) => Err(e),
        },
        ColorType::IndexedColor => match spec_bkgd_indexed(data) {
            Ok(x) => Ok(Background::Indexed(x)),
            Err(e) => Err(e),
        },
    }
}

impl Background {
    pub fn from_chunk(chunk: &Chunk, ihdr: &IHDR) -> (r: Result<Background, PngError>)
        ensures
            r == spec_background(chunk.data@, ihdr.color_type),
    {
        match ihdr.color_type {
            ColorType::Greyscale | ColorType::GreyscaleAlpha => match bKGD_Greyscale::from_chunk(
                chunk,
            ) {
                Ok(g) => Ok(Background::Greyscale(g)),
                Err(e) => Err(e),
            },
            ColorType::TrueColor | ColorType::TrueColorAlpha => match bKGD_TrueColor::from_chunk(
                chunk,
            ) {
                Ok(t) => Ok(Background::TrueColor(t)),
                Err(e) => Err(e),
            },
            ColorType::IndexedColor => match bKGD_Indexed::from_chunk(chunk) {
                Ok(x) => Ok(Background::Indexed(x)),
                Err(e) => Err(e),
            },
        }
    }
}

/// The transparency record, its payload shape selected by the header's
/// color type: the grey form for greyscale, the three-sample form for
/// true color, the per-entry alpha bytes for indexed color. The format
/// defines no transparency payload for the alpha-carrying color types.
#[derive(Debug)]
pub enum Transparency {
    Greyscale(tRNS_Greyscale),
    TrueColor(tRNS_TrueColor),
    Indexed(tRNS_Indexed),
}

impl Transparency {
    pub fn from_chunk(chunk: &Chunk, ihdr: &IHDR) -> (r: Result<Transparency, PngError>)
        ensures
            ihdr.color_type is Greyscale ==> match spec_trns_greyscale(chunk.data@) {
                Ok(g) => r is Ok && (r->Ok_0 matches Transparency::Greyscale(v) && v == g),
                Err(e) => r is Err && r->Err_0 == e,
            },
            ihdr.color_type is TrueColor ==> match spec_trns_truecolor(chunk.data@) {
                Ok(t) => r is Ok && (r->Ok_0 matches Transparency::TrueColor(v) && v == t),
                Err(e) => r is Err && r->Err_0 == e,
            },
            ihdr.color_type is IndexedColor ==> r is Ok && (r->Ok_0 matches Transparency::Indexed(
                v,
            ) && v.values@ == chunk.data@),
            ihdr.color_type is GreyscaleAlpha || ihdr.color_type is TrueColorAlpha ==> r is Err
                && r->Err_0 == PngError::Format(FormatError::WrongColorType),
    {
        match ihdr.color_type {
            ColorType::Greyscale => match tRNS_Greyscale::from_chunk(chunk) {
                Ok(g) => Ok(Transparency::Greyscale(g)),
                Err(e) => Err(e),
            },
            ColorType::TrueColor => match tRNS_TrueColor::from_chunk(chunk) {
                Ok(t) => Ok(Transparency::TrueColor(t)),
                Err(e) => Err(e),
            },
            ColorType::IndexedColor => match tRNS_Indexed::from_chunk(chunk) {
                Ok(x) => Ok(Transparency::Indexed(x)),
                Err(e) => Err(e),
            },
            ColorType::GreyscaleAlpha | ColorType::TrueColorAlpha => Err(
                PngError::Format(FormatError::WrongColorType),
            ),
        }
    }
}

} // verus!
