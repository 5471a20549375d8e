use vstd::prelude::*;
use vstd::slice::{slice_subrange, slice_to_vec};
use vstd::string::{StrSliceExecFns, StringExecFns};
use vstd::utf8::{decode_utf8, valid_utf8};

use crate::chunks::{spec_ihdr, FilterType, InterlaceMethod, IHDR};
use crate::inflate::{spec_inflate, zlib_inflate};
use crate::error::{FormatError, PngError};
use crate::utils::{be_value, lemma_be_value_4, read_be_u32, utf8_to_string};

verus! {

/// The mathematical content of one chunk record: its declared length, its
/// decoded tag, its payload bytes and its trailing checksum bytes.
#[verifier::ext_equal]
pub ghost struct ChunkModel {
    pub length: u32,
    pub tag: Seq<char>,
    pub data: Seq<u8>,
    pub crc: Seq<u8>,
}

/// One length-tag-payload-checksum unit of the container stream.
#[derive(Debug)]
pub struct Chunk {
    pub length: u32,
    pub chunk_type: String,
    pub data: Vec<u8>,
    pub crc: Vec<u8>,
}

impl View for Chunk {
    type V = ChunkModel;

    open spec fn view(&self) -> ChunkModel {
        ChunkModel {
            length: self.length,
            tag: self.chunk_type@,
            data: self.data@,
            crc: self.crc@,
        }
    }
}

/// How one chunk record is laid out at the front of a byte stream: a 4-byte
/// big-endian length, a 4-byte tag, the payload, a 4-byte checksum. Yields
/// the record and the number of bytes it occupies.
pub open spec fn spec_parse_chunk(s: Seq<u8>) -> Result<(ChunkModel, int), FormatError> {
    if s.len() < 12 {
        Err(FormatError::TruncatedChunk)
    } else {
        let l = be_value(s.subrange(0, 4));
        if s.len() < 12 + l {
            Err(FormatError::TruncatedChunk)
        } else if !valid_utf8(s.subrange(4, 8)) {
            Err(FormatError::BadTag)
        } else {
            Ok(
                (
                    ChunkModel {
                        length: l as u32,
                        tag: decode_utf8(s.subrange(4, 8)),
                        data: s.subrange(8, 8 + l),
                        crc: s.subrange(8 + l, 12 + l),
                    },
                    12 + l,
                ),
            )
        }
    }
}

/// A tag is critical when its first character is an uppercase ASCII letter.
pub open spec fn spec_is_critical(tag: Seq<char>) -> bool {
    65 <= tag[0] as u32 <= 90
}

impl Chunk {
    /// Reads one chunk record off the front of the stream, leaving the
    /// stream at the record's end; on a malformed record the stream is
    /// left unchanged.
    pub fn from_byte_stream(stream: &mut &[u8]) -> (r: Result<Chunk, PngError>)
        ensures
            match spec_parse_chunk(old(stream)@) {
                Ok((c, n)) => r is Ok && r->Ok_0@ == c && final(stream)@ == old(stream)@.skip(n),
                Err(e) => r is Err && r->Err_0 == PngError::Format(e) && final(stream)@ == old(
                    stream,
                )@,
            },
    {
        let s: &[u8] = *stream;
        if s.len() < 12 {
            return Err(PngError::Format(FormatError::TruncatedChunk));
        }
        let chunk_length = read_be_u32(s);
        proof {
            assert(s@.take(4) =~= s@.subrange(0, 4));
            lemma_be_value_4(s@.subrange(0, 4));
        }
        let l = chunk_length as usize;
        if s.len() - 12 < l {
            return Err(PngError::Format(FormatError::TruncatedChunk));
        }
        let tag_bytes = slice_to_vec(slice_subrange(s, 4, 8));
        let chunk_type = match utf8_to_string(tag_bytes) {
            Some(t) => t,
            None => {
                return Err(PngError::Format(FormatError::BadTag));
            },
        };
        let data = slice_to_vec(slice_subrange(s, 8, 8 + l));
        let crc = slice_to_vec(slice_subrange(s, 8 + l, 12 + l));
        *stream = slice_subrange(s, 12 + l, s.len());
        proof {
            assert(stream@ =~= old(stream)@.skip(12 + l as int));
        }
        Ok(Chunk { length: chunk_length, chunk_type, data, crc })
    }

    /// Whether this chunk is required to reconstruct the pixels, per the
    /// case of its tag's first character.
    pub fn is_critical(&self) -> (r: bool)
        requires
            self.chunk_type@.len() > 0,
        ensures
            r == spec_is_critical(self.chunk_type@),
    {
        let c = self.chunk_type.as_str().get_char(0);
        (c as u32) >= 65 && (c as u32) <= 90
    }
}

/// The fixed 8-byte magic prefix every well-formed stream opens with.
pub open spec fn spec_signature() -> Seq<u8> {
    seq![137u8, 80u8, 78u8, 71u8, 13u8, 10u8, 26u8, 10u8]
}

/// The whole remainder of a stream as an ordered run of chunk records; a
/// record that does not parse fails the framing as a whole.
pub open spec fn spec_parse_chunks(s: Seq<u8>) -> Result<Seq<ChunkModel>, FormatError>
    decreases s.len(),
    via spec_parse_chunks_decreases
{
    if s.len() == 0 {
        Ok(Seq::empty())
    } else {
        match spec_parse_chunk(s) {
            Err(e) => Err(e),
            Ok((c, n)) => match spec_parse_chunks(s.skip(n)) {
                Err(e) => Err(e),
                Ok(rest) => Ok(seq![c] + rest),
            },
        }
    }
}

#[via_fn]
proof fn spec_parse_chunks_decreases(s: Seq<u8>) {
    if s.len() >= 12 {
        crate::utils::lemma_be_value_nonneg(s.subrange(0, 4));
    }
}

spec fn spec_with_prefix(
    pre: Seq<ChunkModel>,
    r: Result<Seq<ChunkModel>, FormatError>,
) -> Result<Seq<ChunkModel>, FormatError> {
    match r {
        Ok(t) => Ok(pre + t),
        Err(e) => Err(e),
    }
}

proof fn lemma_with_prefix_assoc(
    p1: Seq<ChunkModel>,
    p2: Seq<ChunkModel>,
    r: Result<Seq<ChunkModel>, FormatError>,
)
    ensures
        spec_with_prefix(p1, spec_with_prefix(p2, r)) == spec_with_prefix(p1 + p2, r),
{
    if r is Ok {
        assert(p1 + (p2 + r->Ok_0) =~= (p1 + p2) + r->Ok_0);
    }
}

/// An opened image: the ordered chunk records of one source, which it owns
/// for its lifetime.
#[derive(Debug)]
pub struct PNG {
    pub chunks: Vec<Chunk>,
}

impl View for PNG {
    type V = Seq<ChunkModel>;

    open spec fn view(&self) -> Seq<ChunkModel> {
        self.chunks@.map_values(|c: Chunk| c@)
    }
}

impl PNG {
    /// Frames a whole in-memory source: checks the magic prefix, then reads
    /// chunk records in file order until the buffer is exhausted.
    pub fn from_bytes(contents: &[u8]) -> (r: Result<PNG, PngError>)
        ensures
            match r {
                Ok(png) => contents@.len() >= 8 && contents@.take(8) == spec_signature()
                    && spec_parse_chunks(contents@.skip(8)) == Ok::<_, FormatError>(png@),
                Err(e) => if contents@.len() < 8 || contents@.take(8) != spec_signature() {
                    e == PngError::Format(FormatError::BadSignature)
                } else {
                    spec_parse_chunks(contents@.skip(8)) is Err && e == PngError::Format(
                        spec_parse_chunks(contents@.skip(8))->Err_0,
                    )
                },
            },
    {
        if contents.len() < 8 {
            return Err(PngError::Format(FormatError::BadSignature));
        }
        let sig_ok = contents[0] == 137 && contents[1] == 80 && contents[2] == 78 && contents[3]
            == 71 && contents[4] == 13 && contents[5] == 10 && contents[6] == 26 && contents[7]
            == 10;
        if !sig_ok {
            proof {
                if contents@.take(8) == spec_signature() {
                    assert forall|i: int| 0 <= i < 8 implies contents@[i] == spec_signature()[i] by {
                        assert(contents@.take(8)[i] == contents@[i]);
                    }
                    assert(contents@[0] == 137 && contents@[1] == 80 && contents@[2] == 78
                        && contents@[3] == 71 && contents@[4] == 13 && contents@[5] == 10
                        && contents@[6] == 26 && contents@[7] == 10);
                }
            }
            return Err(PngError::Format(FormatError::BadSignature));
        }
        proof {
            assert(contents@.take(8) =~= spec_signature());
        }
        let mut body: &[u8] = slice_subrange(contents, 8, contents.len());
        let ghost all: Seq<u8> = contents@.skip(8);
        let mut chunks: Vec<Chunk> = Vec::new();
        proof {
            assert(body@ =~= all);
            assert(chunks@.map_values(|c: Chunk| c@) =~= Seq::<ChunkModel>::empty());
            if spec_parse_chunks(all) is Ok {
                assert(Seq::<ChunkModel>::empty() + spec_parse_chunks(all)->Ok_0 =~= spec_parse_chunks(
                    all,
                )->Ok_0);
            }
        }
        while body.len() > 0
            invariant
                all == contents@.skip(8),
                contents@.len() >= 8,
                contents@.take(8) == spec_signature(),
                spec_parse_chunks(all) == spec_with_prefix(
                    chunks@.map_values(|c: Chunk| c@),
                    spec_parse_chunks(body@),
                ),
            decreases body@.len(),
        {
            let ghost prev_views = chunks@.map_values(|c: Chunk| c@);
            let ghost prev_body = body@;
            match Chunk::from_byte_stream(&mut body) {
                Ok(c) => {
                    proof {
                        crate::utils::lemma_be_value_nonneg(prev_body.subrange(0, 4));
                        let cm = spec_parse_chunk(prev_body)->Ok_0.0;
                        assert(spec_parse_chunks(prev_body) == spec_with_prefix(
                            seq![cm],
                            spec_parse_chunks(body@),
                        ));
                        lemma_with_prefix_assoc(prev_views, seq![cm], spec_parse_chunks(body@));
                        assert(chunks@.push(c).map_values(|ch: Chunk| ch@) =~= prev_views
                            + seq![cm]);
                    }
                    chunks.push(c);
                },
                Err(e) => {
                    proof {
                        assert(spec_parse_chunks(prev_body) is Err);
                    }
                    return Err(e);
                },
            }
        }
        proof {
            assert(spec_parse_chunks(body@) == Ok::<Seq<ChunkModel>, FormatError>(Seq::empty()));
            assert(chunks@.map_values(|c: Chunk| c@) + Seq::<ChunkModel>::empty() =~= chunks@.map_values(
                |c: Chunk| c@,
            ));
        }
        Ok(PNG { chunks })
    }
}

/// The Paeth predictor: whichever of the left, up and up-left neighbours
/// lies closest to l + u - ul, ties favouring left, then up.
pub open spec fn spec_paeth(l: u8, u: u8, ul: u8) -> u8 {
    let p = l + u - ul;
    let pa = if p >= l {
        p - l
    } else {
        l - p
    };
    let pb = if p >= u {
        p - u
    } else {
        u - p
    };
    let pc = if p >= ul {
        p - ul
    } else {
        ul - p
    };
    if pa <= pb && pa <= pc {
        l
    } else if pb <= pc {
        u
    } else {
        ul
    }
}

/// How one filtered byte is reconstructed from its neighbours, all
/// arithmetic modulo 256.
pub open spec fn spec_unfilter_byte(ft: FilterType, x: u8, l: u8, u: u8, ul: u8) -> u8 {
    match ft {
        FilterType::NoFilter => x,
        FilterType::Sub => (((x + l) % 256) as u8),
        FilterType::Up => (((x + u) % 256) as u8),
        FilterType::Average => (((x + (l + u) / 2) % 256) as u8),
        FilterType::Paeth => (((x + spec_paeth(l, u, ul)) % 256) as u8),
    }
}

/// Byte j of a reconstructed row: its left neighbour is the already
/// reconstructed byte j - 1 of the same row, its up neighbours come from
/// the previous reconstructed row.
pub open spec fn spec_unfilter_byte_at(ft: FilterType, f: Seq<u8>, prev: Seq<u8>, j: int) -> u8
    decreases j,
{
    let l = if j <= 0 {
        0u8
    } else {
        spec_unfilter_byte_at(ft, f, prev, j - 1)
    };
    let ul = if j <= 0 {
        0u8
    } else {
        prev[j - 1]
    };
    spec_unfilter_byte(ft, f[j], l, prev[j], ul)
}

/// A whole reconstructed row from its filtered bytes (tag byte stripped)
/// and the previous reconstructed row.
pub open spec fn spec_unfilter_row(ft: FilterType, f: Seq<u8>, prev: Seq<u8>) -> Seq<u8> {
    Seq::new(f.len(), |j: int| spec_unfilter_byte_at(ft, f, prev, j))
}

/// The all-zero row that stands above the top row.
pub open spec fn spec_zero_row(n: int) -> Seq<u8> {
    Seq::new(n as nat, |j: int| 0u8)
}

/// Row i of the reconstructed image, depending on every row above it.
/// sl is the scanline length including the leading filter-tag byte.
pub open spec fn spec_row_out(data: Seq<u8>, sl: int, i: int) -> Seq<u8>
    decreases i,
{
    let row = data.subrange(i * sl, (i + 1) * sl);
    let ft = FilterType::spec_from_raw(row[0])->Some_0;
    let prev = if i <= 0 {
        spec_zero_row(sl - 1)
    } else {
        spec_row_out(data, sl, i - 1)
    };
    spec_unfilter_row(ft, row.skip(1), prev)
}

/// The first h reconstructed rows, concatenated, tag bytes dropped.
pub open spec fn spec_unfiltered(data: Seq<u8>, sl: int, h: int) -> Seq<u8>
    decreases h,
{
    if h <= 0 {
        Seq::empty()
    } else {
        spec_unfiltered(data, sl, h - 1) + spec_row_out(data, sl, h - 1)
    }
}

/// Scanline i's leading byte names one of the five filters.
pub open spec fn spec_tag_ok(data: Seq<u8>, sl: int, i: int) -> bool {
    FilterType::spec_from_raw(data[i * sl]) is Some
}

/// Every scanline's leading byte names one of the five filters.
pub open spec fn spec_filter_tags_valid(data: Seq<u8>, sl: int, h: int) -> bool {
    forall|i: int| 0 <= i < h ==> #[trigger] spec_tag_ok(data, sl, i)
}

/// One scanline's length: the pixel bytes of a row plus the filter tag.
pub open spec fn spec_scanline_len(ihdr: IHDR) -> int {
    ihdr.width * ihdr.color_type.spec_bytes_per_pixel() + 1
}

/// What the unfilter engine owes for an inflated buffer and a header: the
/// buffer must hold exactly height scanlines, each tagged with a known
/// filter, and the rows are then reconstructed in order.
pub open spec fn spec_unfilter_result(data: Seq<u8>, ihdr: IHDR) -> Result<Seq<u8>, PngError> {
    let sl = spec_scanline_len(ihdr);
    if data.len() != ihdr.height * sl {
        Err(PngError::Format(FormatError::BadLength))
    } else if !spec_filter_tags_valid(data, sl, ihdr.height as int) {
        Err(PngError::Format(FormatError::UnknownFilterType))
    } else {
        Ok(spec_unfiltered(data, sl, ihdr.height as int))
    }
}

pub proof fn lemma_spec_unfiltered_len(data: Seq<u8>, sl: int, h: int)
    requires
        sl >= 1,
        h >= 0,
        data.len() >= h * sl,
    ensures
        spec_unfiltered(data, sl, h).len() == h * (sl - 1),
    decreases h,
{
    if h > 0 {
        assert((h - 1) * sl >= 0 && (h - 1) * sl + sl == h * sl) by (nonlinear_arith)
            requires
                h >= 1,
                sl >= 1,
        ;
        lemma_spec_unfiltered_len(data, sl, h - 1);
        let row = data.subrange((h - 1) * sl, h * sl);
        assert(row.len() == sl);
        assert(spec_row_out(data, sl, h - 1).len() == sl - 1);
        assert(spec_unfiltered(data, sl, h).len() == (h - 1) * (sl - 1) + (sl - 1));
        assert(h * (sl - 1) == (h - 1) * (sl - 1) + (sl - 1)) by (nonlinear_arith);
    } else {
        assert(h * (sl - 1) == 0) by (nonlinear_arith)
            requires
                h == 0,
        ;
    }
}

impl PNG {
    pub fn paeth(a: u8, b: u8, c: u8) -> (r: u8)
        ensures
            r == spec_paeth(a, b, c),
    {
        let aa = a as i32;
        let bb = b as i32;
        let cc = c as i32;
        let p = aa + bb - cc;
        let pa = if p >= aa {
            p - aa
        } else {
            aa - p
        };
        let pb = if p >= bb {
            p - bb
        } else {
            bb - p
        };
        let pc = if p >= cc {
            p - cc
        } else {
            cc - p
        };
        if pa <= pb && pa <= pc {
            a
        } else if pb <= pc {
            b
        } else {
            c
        }
    }

    pub fn unfilter_byte(ft: FilterType, x: u8, l: u8, u: u8, ul: u8) -> (r: u8)
        ensures
            r == spec_unfilter_byte(ft, x, l, u, ul),
    {
        match ft {
            FilterType::NoFilter => x,
            FilterType::Sub => (((x as u16 + l as u16) % 256) as u8),
            FilterType::Up => (((x as u16 + u as u16) % 256) as u8),
            FilterType::Average => (((x as u16 + (l as u16 + u as u16) / 2) % 256) as u8),
            FilterType::Paeth => (((x as u16 + PNG::paeth(l, u, ul) as u16) % 256) as u8),
        }
    }

    /// Reconstructs one scanline from its tagged filtered bytes and the
    /// previous reconstructed row (all zeros above the top row).
    pub fn unfilter_scanline(current_scanline: &[u8], prior_row: &[u8]) -> (r: Result<
        Vec<u8>,
        PngError,
    >)
        requires
            current_scanline@.len() >= 1,
            prior_row@.len() == current_scanline@.len() - 1,
        ensures
            r is Ok <==> FilterType::spec_from_raw(current_scanline@[0]) is Some,
            r is Ok ==> r->Ok_0@ == spec_unfilter_row(
                FilterType::spec_from_raw(current_scanline@[0])->Some_0,
                current_scanline@.skip(1),
                prior_row@,
            ),
            r is Err ==> r->Err_0 == PngError::Format(FormatError::UnknownFilterType),
    {
        let ft = match FilterType::from_raw(current_scanline[0]) {
            Ok(f) => f,
            Err(e) => {
                return Err(e);
            },
        };
        let n = current_scanline.len() - 1;
        let mut out: Vec<u8> = Vec::with_capacity(n);
        let mut j: usize = 0;
        while j < n
            invariant
                0 <= j <= n,
                n == current_scanline@.len() - 1,
                prior_row@.len() == n,
                FilterType::spec_from_raw(current_scanline@[0]) == Some(ft),
                out@.len() == j,
                forall|k: int|
                    0 <= k < j ==> out@[k] == spec_unfilter_byte_at(
                        ft,
                        current_scanline@.skip(1),
                        prior_row@,
                        k,
                    ),
            decreases n - j,
        {
            let x = current_scanline[j + 1];
            let l = if j == 0 {
                0
            } else {
                out[j - 1]
            };
            let u = prior_row[j];
            let ul = if j == 0 {
                0
            } else {
                prior_row[j - 1]
            };
            let v = PNG::unfilter_byte(ft, x, l, u, ul);
            proof {
                let f = current_scanline@.skip(1);
                assert(f[j as int] == current_scanline@[j + 1]);
                assert(v == spec_unfilter_byte_at(ft, f, prior_row@, j as int));
            }
            out.push(v);
            j += 1;
        }
        proof {
            assert(out@ =~= spec_unfilter_row(ft, current_scanline@.skip(1), prior_row@));
        }
        Ok(out)
    }

    /// Reverses the per-scanline filtering of a whole inflated buffer,
    /// yielding the raw pixel bytes row by row, top to bottom.
    pub fn unfilter(bytes: &[u8], ihdr: &IHDR) -> (r: Result<Vec<u8>, PngError>)
        ensures
            match r {
                Ok(v) => spec_unfilter_result(bytes@, *ihdr) == Ok::<Seq<u8>, PngError>(v@)
                    && v@.len() == ihdr.width * ihdr.height
                    * ihdr.color_type.spec_bytes_per_pixel(),
                Err(e) => spec_unfilter_result(bytes@, *ihdr) == Err::<Seq<u8>, PngError>(e),
            },
    {
        let bpp32 = ihdr.color_type.bytes_per_pixel();
        proof {
            assert(1 <= bpp32 <= 4);
            assert((ihdr.width as u64) * (bpp32 as u64) <= 0xffffffffu64 * 4) by (nonlinear_arith)
                requires
                    0 <= ihdr.width as u64 <= 0xffffffffu64,
                    0 <= bpp32 as u64 <= 4,
            ;
        }
        let sl64: u64 = (ihdr.width as u64) * (bpp32 as u64) + 1;
        proof {
            assert(sl64 == spec_scanline_len(*ihdr));
        }
        let n = bytes.len();
        if (n as u64) % sl64 != 0 || (n as u64) / sl64 != ihdr.height as u64 {
            proof {
                vstd::arithmetic::div_mod::lemma_fundamental_div_mod(n as int, sl64 as int);
                if bytes@.len() == ihdr.height * spec_scanline_len(*ihdr) {
                    vstd::arithmetic::div_mod::lemma_div_by_multiple(
                        ihdr.height as int,
                        sl64 as int,
                    );
                    vstd::arithmetic::div_mod::lemma_mod_multiples_basic(
                        ihdr.height as int,
                        sl64 as int,
                    );
                    assert((ihdr.height as int) * (sl64 as int) == (sl64 as int) * (
                    ihdr.height as int)) by (nonlinear_arith);
                }
            }
            return Err(PngError::Format(FormatError::BadLength));
        }
        proof {
            vstd::arithmetic::div_mod::lemma_fundamental_div_mod(n as int, sl64 as int);
            assert((sl64 as int) * (ihdr.height as int) == (ihdr.height as int) * (
            sl64 as int)) by (nonlinear_arith);
            assert(bytes@.len() == ihdr.height * spec_scanline_len(*ihdr));
        }
        if ihdr.height == 0 {
            let v: Vec<u8> = Vec::new();
            proof {
                assert(v@ =~= spec_unfiltered(bytes@, spec_scanline_len(*ihdr), 0));
                assert(ihdr.width * ihdr.height * ihdr.color_type.spec_bytes_per_pixel()
                    == 0) by (nonlinear_arith)
                    requires
                        ihdr.height == 0,
                ;
            }
            return Ok(v);
        }
        proof {
            assert(sl64 <= (ihdr.height as int) * (sl64 as int)) by (nonlinear_arith)
                requires
                    1 <= ihdr.height as int,
                    1 <= sl64,
            ;
        }
        let sl = sl64 as usize;
        let h = ihdr.height as usize;
        proof {
            assert(sl == sl64);
        }
        let row_len = sl - 1;
        let zero_row = vec![0u8; row_len];
        let mut out: Vec<u8> = Vec::new();
        let mut i: usize = 0;
        while i < h
            invariant
                0 <= i <= h,
                sl == spec_scanline_len(*ihdr),
                sl >= 1,
                row_len == sl - 1,
                h == ihdr.height,
                bytes@.len() == h * sl,
                bytes@.len() <= usize::MAX,
                zero_row@ =~= spec_zero_row(row_len as int),
                zero_row@.len() == row_len,
                out@ == spec_unfiltered(bytes@, sl as int, i as int),
                out@.len() == i * row_len,
                forall|k: int| 0 <= k < i ==> #[trigger] spec_tag_ok(bytes@, sl as int, k),
            decreases h - i,
        {
            proof {
                assert(i * sl >= 0 && i * sl + sl <= h * sl && (i + 1) * sl == i * sl + sl
                    && i * row_len + row_len <= i * sl + sl && (i + 1) * row_len == i * row_len
                    + row_len && (i >= 1 ==> (i - 1) * row_len + row_len == i * row_len && (i
                    - 1) * row_len >= 0 && (i - 1) * sl >= 0 && (i - 1) * sl <= h * sl)) by (nonlinear_arith)
                    requires
                        0 <= i < h,
                        1 <= sl,
                        row_len == sl - 1,
                ;
            }
            let base = i * sl;
            let row = slice_subrange(bytes, base, base + sl);
            let prior: &[u8] = if i == 0 {
                zero_row.as_slice()
            } else {
                slice_subrange(out.as_slice(), (i - 1) * row_len, i * row_len)
            };
            proof {
                if i > 0 {
                    assert((i - 1) * row_len + row_len == i * row_len) by (nonlinear_arith);
                    lemma_spec_unfiltered_len(bytes@, sl as int, i as int - 1);
                    assert(spec_unfiltered(bytes@, sl as int, i as int) == spec_unfiltered(
                        bytes@,
                        sl as int,
                        i as int - 1,
                    ) + spec_row_out(bytes@, sl as int, i as int - 1));
                    assert(prior@ =~= spec_row_out(bytes@, sl as int, i as int - 1));
                }
            }
            match PNG::unfilter_scanline(row, prior) {
                Ok(mut cur) => {
                    proof {
                        let ghost sli = sl as int;
                        let ghost ii = i as int;
                        assert(row@ =~= bytes@.subrange(ii * sli, (ii + 1) * sli));
                        assert(row@[0] == bytes@[ii * sli]);
                        assert(row@.skip(1) =~= bytes@.subrange(ii * sli, (ii + 1) * sli).skip(1));
                        assert(cur@ == spec_row_out(bytes@, sli, ii));
                        assert(spec_unfiltered(bytes@, sli, ii + 1) == spec_unfiltered(bytes@, sli, ii)
                            + spec_row_out(bytes@, sli, ii));
                        assert((i + 1) * row_len == i * row_len + row_len) by (nonlinear_arith);
                    }
                    out.append(&mut cur);
                },
                Err(e) => {
                    proof {
                        assert(!spec_tag_ok(bytes@, sl as int, i as int));
                        assert(!spec_filter_tags_valid(bytes@, sl as int, ihdr.height as int));
                    }
                    return Err(e);
                },
            }
            i += 1;
        }
        proof {
            assert(spec_filter_tags_valid(bytes@, sl as int, ihdr.height as int));
            lemma_spec_unfiltered_len(bytes@, sl as int, h as int);
            assert(h * (sl - 1) == h * sl - h) by (nonlinear_arith);
            assert(out@.len() == ihdr.width * ihdr.height * ihdr.color_type.spec_bytes_per_pixel())
                by (nonlinear_arith)
                requires
                    out@.len() == h * (sl - 1),
                    sl == ihdr.width * ihdr.color_type.spec_bytes_per_pixel() + 1,
                    h == ihdr.height,
            ;
        }
        Ok(out)
    }
}


/// The pixel-data payloads of a record run, in file order, concatenated.
pub open spec fn spec_idat_concat(cs: Seq<ChunkModel>) -> Seq<u8>
    decreases cs.len(),
{
    if cs.len() == 0 {
        Seq::empty()
    } else {
        spec_idat_concat(cs.drop_last()) + (if cs.last().tag == "IDAT"@ {
            cs.last().data
        } else {
            Seq::empty()
        })
    }
}

/// What a handle's pixel decode owes: the header is decoded from the first
/// record, which must carry the header tag; interlaced images are rejected
/// rather than reconstructed incorrectly; the pixel-data payloads are
/// concatenated in file order, inflated by the external codec, and
/// unfiltered.
pub open spec fn spec_image_data(cs: Seq<ChunkModel>) -> Result<Seq<u8>, PngError> {
    if cs.len() == 0 || cs[0].tag != "IHDR"@ {
        Err(PngError::Format(FormatError::MissingHeader))
    } else {
        match spec_ihdr(cs[0].data) {
            Err(e) => Err(e),
            Ok(h) => if h.interlace_method is Adam7 {
                Err(PngError::Format(FormatError::Interlaced))
            } else {
                match spec_inflate(spec_idat_concat(cs)) {
                    None => Err(PngError::Decompress),
                    Some(d) => spec_unfilter_result(d, h),
                }
            },
        }
    }
}

impl PNG {
    /// Decodes the raw pixel bytes: the header from the first record, the
    /// pixel-data chunks located and concatenated in file order, the
    /// external codec's output handed to the unfilter engine. Nothing is
    /// cached: each call re-runs the whole pipeline.
    pub fn get_image_data(&self) -> (r: Result<Vec<u8>, PngError>)
        ensures
            match r {
                Ok(v) => spec_image_data(self@) == Ok::<Seq<u8>, PngError>(v@),
                Err(e) => spec_image_data(self@) == Err::<Seq<u8>, PngError>(e),
            },
            r is Ok ==> ({
                let h = spec_ihdr(self@[0].data)->Ok_0;
                r->Ok_0@.len() == h.width * h.height * h.color_type.spec_bytes_per_pixel()
            }),
    {
        if self.chunks.len() == 0 {
            return Err(PngError::Format(FormatError::MissingHeader));
        }
        let ihdr_tag = String::from_str("IHDR");
        if !(ihdr_tag == self.chunks[0].chunk_type) {
            proof {
                assert(self@[0].tag != "IHDR"@);
            }
            return Err(PngError::Format(FormatError::MissingHeader));
        }
        proof {
            assert(self@[0].tag == "IHDR"@);
            assert(self@[0].data == self.chunks@[0].data@);
        }
        let ihdr = match IHDR::from_chunk(&self.chunks[0]) {
            Ok(h) => h,
            Err(e) => {
                return Err(e);
            },
        };
        if ihdr.interlace_method == InterlaceMethod::Adam7 {
            return Err(PngError::Format(FormatError::Interlaced));
        }
        let idat_tag = String::from_str("IDAT");
        let mut all: Vec<u8> = Vec::new();
        let mut i: usize = 0;
        proof {
            assert(self@.take(0) =~= Seq::<ChunkModel>::empty());
        }
        while i < self.chunks.len()
            invariant
                0 <= i <= self.chunks@.len(),
                idat_tag@ == "IDAT"@,
                all@ == spec_idat_concat(self@.take(i as int)),
            decreases self.chunks@.len() - i,
        {
            let ghost prev = all@;
            if idat_tag == self.chunks[i].chunk_type {
                let mut piece = slice_to_vec(self.chunks[i].data.as_slice());
                all.append(&mut piece);
            }
            proof {
                let t = self@.take(i + 1);
                assert(t.drop_last() =~= self@.take(i as int));
                assert(t.last() == self@[i as int]);
                if self@[i as int].tag == "IDAT"@ {
                    assert(all@ == prev + self@[i as int].data);
                } else {
                    assert(all@ =~= prev + Seq::<u8>::empty());
                }
            }
            i += 1;
        }
        proof {
            assert(self@.take(self.chunks@.len() as int) =~= self@);
        }
        let inflated = match zlib_inflate(all.as_slice()) {
            Some(d) => d,
            None => {
                return Err(PngError::Decompress);
            },
        };
        PNG::unfilter(inflated.as_slice(), &ihdr)
    }
}


/// A scanline carrying the identity filter reconstructs to exactly its own
/// pixel bytes, whatever reconstructed row stands above it.
pub proof fn lemma_unfilter_none_roundtrip(f: Seq<u8>, prev: Seq<u8>)
    ensures
        spec_unfilter_row(FilterType::NoFilter, f, prev) == f,
{
    let r = spec_unfilter_row(FilterType::NoFilter, f, prev);
    assert forall|j: int| 0 <= j < f.len() implies r[j] == f[j] by {
        assert(spec_unfilter_byte_at(FilterType::NoFilter, f, prev, j) == f[j]);
    }
    assert(r =~= f);
}

/// Framing is tag-agnostic: two well-framed byte runs concatenate to a
/// well-framed run holding the two runs' records in order. So a chunk of
/// any tag, recognized or not, leaves the framing of the chunks after it
/// intact.
pub proof fn lemma_parse_chunks_append(s1: Seq<u8>, s2: Seq<u8>)
    requires
        spec_parse_chunks(s1) is Ok,
        spec_parse_chunks(s2) is Ok,
    ensures
        spec_parse_chunks(s1 + s2) == Ok::<Seq<ChunkModel>, FormatError>(
            spec_parse_chunks(s1)->Ok_0 + spec_parse_chunks(s2)->Ok_0,
        ),
    decreases s1.len(),
{
    if s1.len() == 0 {
        assert(s1 + s2 =~= s2);
        assert(Seq::<ChunkModel>::empty() + spec_parse_chunks(s2)->Ok_0 =~= spec_parse_chunks(
            s2,
        )->Ok_0);
    } else {
        let c = spec_parse_chunk(s1)->Ok_0.0;
        let n = spec_parse_chunk(s1)->Ok_0.1;
        crate::utils::lemma_be_value_nonneg(s1.subrange(0, 4));
        let t = s1 + s2;
        let l = be_value(s1.subrange(0, 4));
        assert(t.subrange(0, 4) =~= s1.subrange(0, 4));
        assert(t.subrange(4, 8) =~= s1.subrange(4, 8));
        assert(t.subrange(8, 8 + l) =~= s1.subrange(8, 8 + l));
        assert(t.subrange(8 + l, 12 + l) =~= s1.subrange(8 + l, 12 + l));
        assert(spec_parse_chunk(t) == Ok::<(ChunkModel, int), FormatError>((c, n)));
        assert(t.skip(n) =~= s1.skip(n) + s2);
        lemma_parse_chunks_append(s1.skip(n), s2);
        assert(seq![c] + (spec_parse_chunks(s1.skip(n))->Ok_0 + spec_parse_chunks(s2)->Ok_0)
            =~= (seq![c] + spec_parse_chunks(s1.skip(n))->Ok_0) + spec_parse_chunks(s2)->Ok_0);
    }
}

proof fn lemma_idat_concat_insert(cs: Seq<ChunkModel>, c: ChunkModel, i: int)
    requires
        0 <= i <= cs.len(),
        c.tag != "IDAT"@,
    ensures
        spec_idat_concat(cs.insert(i, c)) == spec_idat_concat(cs),
    decreases cs.len(),
{
    let cs2 = cs.insert(i, c);
    if i == cs.len() {
        assert(cs2.drop_last() =~= cs);
        assert(cs2.last() == c);
        assert(spec_idat_concat(cs) + Seq::<u8>::empty() =~= spec_idat_concat(cs));
    } else {
        assert(cs2.last() == cs[cs.len() - 1]);
        assert(cs2.drop_last() =~= cs.drop_last().insert(i, c));
        lemma_idat_concat_insert(cs.drop_last(), c, i);
        assert(cs2.last() == cs.last());
    }
}

/// A record whose tag is not the pixel-data tag, inserted anywhere after
/// the header record, changes neither the header nor the concatenated
/// pixel-data stream, so the image data decoded from the handle is
/// unchanged: pixel extraction depends on the header and the pixel-data
/// records alone.
pub proof fn lemma_ancillary_chunk_ignored(cs: Seq<ChunkModel>, c: ChunkModel, i: int)
    requires
        1 <= i <= cs.len(),
        c.tag != "IDAT"@,
    ensures
        spec_image_data(cs.insert(i, c)) == spec_image_data(cs),
{
    let cs2 = cs.insert(i, c);
    assert(cs2[0] == cs[0]);
    lemma_idat_concat_insert(cs, c, i);
}

} // verus!
