//! The Scaleform GFX / SWF container: the file header, the (possibly zlib-compressed) body, the
//! frame header that precedes the tag stream, and the tag stream itself.
use std::io::Read;
use vstd::prelude::*;
use vstd::slice::slice_to_vec;

verus! {

/// One tag of a SWF/GFX tag stream: its code and its payload bytes.
pub struct Tag {
    pub code: u16,
    pub data: Vec<u8>,
}

/// A parsed GFX/SWF file.
pub struct GfxFile {
    pub magic: String,
    pub version: u8,
    pub file_length: u32,
    pub body: Vec<u8>,
    pub tags: Vec<Tag>,
}

/// Why a file could not be parsed.
#[derive(Debug, Clone, Copy, PartialEq, Eq, Structural)]
pub enum GfxError {
    /// Fewer than the eight header bytes; carries the length that was given.
    TooShort(usize),
    /// An LZMA-compressed (`ZWS`) file, which this reader does not decode.
    LzmaUnsupported,
    /// The first three bytes are none of the known signatures.
    UnknownMagic(u8, u8, u8),
    /// A zlib-compressed body that did not inflate.
    Decompress,
    /// The body has no byte at all to start the frame header with.
    EmptyBody,
    /// The frame header claims more bytes than the body holds.
    FrameHeaderPastBody,
}

/// A tag as a plain value: its code and payload.
pub type TagView = (u16, Seq<u8>);

/// A parsed file as plain values.
pub struct GfxFileView {
    pub magic: Seq<char>,
    pub version: u8,
    pub file_length: u32,
    pub body: Seq<u8>,
    pub tags: Seq<TagView>,
}

impl View for Tag {
    type V = TagView;

    open spec fn view(&self) -> TagView {
        (self.code, self.data@)
    }
}

/// The tags of a vector, each as a plain value.
pub open spec fn tags_view(tags: Seq<Tag>) -> Seq<TagView> {
    tags.map_values(|t: Tag| t@)
}

impl View for GfxFile {
    type V = GfxFileView;

    open spec fn view(&self) -> GfxFileView {
        GfxFileView {
            magic: self.magic@,
            version: self.version,
            file_length: self.file_length,
            body: self.body@,
            tags: tags_view(self.tags@),
        }
    }
}

/// The little-endian 16-bit value of the two bytes at `i`.
pub open spec fn le16(b: Seq<u8>, i: int) -> int {
    b[i] + 256 * b[i + 1]
}

/// The little-endian 32-bit value of the four bytes at `i`.
pub open spec fn le32(b: Seq<u8>, i: int) -> int {
    b[i] + 256 * b[i + 1] + 65536 * b[i + 2] + 16777216 * b[i + 3]
}

/// The smaller of two integers.
pub open spec fn min_int(a: int, b: int) -> int {
    if a <= b {
        a
    } else {
        b
    }
}

/// The tag whose header starts at `pos`: its code, its payload and where the next header starts.
/// `None` when no complete header is there. The header is a little-endian 16-bit word whose top ten
/// bits are the code and whose low six bits are the payload length; the length 63 means that a
/// 32-bit length follows. A payload that runs past the end is cut to what is left.
pub open spec fn tag_at(body: Seq<u8>, pos: int) -> Option<(TagView, int)> {
    if pos < 0 || pos + 2 > body.len() {
        None
    } else {
        let h = le16(body, pos);
        let code = (h / 64) as u16;
        let short = h % 64;
        if short == 63 && pos + 6 > body.len() {
            None
        } else {
            let start = if short == 63 {
                pos + 6
            } else {
                pos + 2
            };
            let want = if short == 63 {
                le32(body, pos + 2)
            } else {
                short
            };
            let take = min_int(want, body.len() - start);
            Some(((code, body.subrange(start, start + take)), start + take))
        }
    }
}

/// The tags from the header at `pos` on: one after another until no complete header is left, the
/// end tag (code 0) included and nothing after it.
pub open spec fn tags_from(body: Seq<u8>, pos: int) -> Seq<TagView>
    decreases body.len() - pos,
{
    match tag_at(body, pos) {
        None => Seq::empty(),
        Some((tag, next)) => {
            if tag.0 == 0 {
                seq![tag]
            } else {
                seq![tag] + tags_from(body, next)
            }
        },
    }
}

/// The tag stream of `body`.
pub open spec fn tag_list(body: Seq<u8>) -> Seq<TagView> {
    tags_from(body, 0)
}

/// Where the tag stream starts in `body`: after the bit-packed RECT (five bits of field width, then
/// four fields of that width, rounded up to whole bytes) and the frame rate and frame count words.
pub open spec fn frame_header_end(body: Seq<u8>) -> Result<int, GfxError> {
    if body.len() == 0 {
        Err(GfxError::EmptyBody)
    } else {
        let nbits = body[0] / 8;
        let end = (5 + 4 * nbits + 7) / 8 + 4;
        if end > body.len() {
            Err(GfxError::FrameHeaderPastBody)
        } else {
            Ok(end)
        }
    }
}

/// The file made of a header's fields and a decoded body.
pub open spec fn gfx_from_body(magic: Seq<char>, version: u8, file_length: u32, body: Seq<u8>) -> Result<
    GfxFileView,
    GfxError,
> {
    match frame_header_end(body) {
        Err(e) => Err(e),
        Ok(end) => Ok(
            GfxFileView {
                magic,
                version,
                file_length,
                body,
                tags: tag_list(body.subrange(end, body.len() as int)),
            },
        ),
    }
}

/// The text of some bytes decoded as UTF-8, each invalid sequence replaced by U+FFFD.
pub uninterp spec fn utf8_lossy(bytes: Seq<u8>) -> Seq<char>;

/// What a zlib stream inflates to, `None` when it does not inflate.
pub uninterp spec fn zlib_inflate(data: Seq<u8>) -> Option<Seq<u8>>;

/// The characters of bytes that are all ASCII.
pub open spec fn ascii_chars(bytes: Seq<u8>) -> Seq<char> {
    bytes.map_values(|b: u8| b as char)
}

/// Whether every byte is ASCII.
pub open spec fn all_ascii(bytes: Seq<u8>) -> bool {
    forall|i: int| 0 <= i < bytes.len() ==> bytes[i] < 128
}

/// `String::from_utf8_lossy` on `bytes`, as an owned string. Claimed: the result is the lossy
/// decoding of the bytes, and bytes that are all ASCII (valid UTF-8) come back as those characters.
#[verifier::external_body]
pub(crate) fn lossy_string(bytes: &[u8]) -> (s: String)
    ensures
        s@ == utf8_lossy(bytes@),
        all_ascii(bytes@) ==> s@ == ascii_chars(bytes@),
{
    String::from_utf8_lossy(bytes).into_owned()
}

/// `flate2::read::ZlibDecoder::new(data).read_to_end(..)`: the bytes the zlib stream in `data`
/// inflates to, `None` where the decoder reports an error. Claimed: the result is the one named by
/// `zlib_inflate` for these bytes.
#[verifier::external_body]
fn inflate_zlib(data: &[u8]) -> (r: Option<Vec<u8>>)
    ensures
        match r {
            Some(v) => zlib_inflate(data@) == Some(v@),
            None => zlib_inflate(data@) is None,
        },
{
    let mut out: Vec<u8> = Vec::new();
    match flate2::read::ZlibDecoder::new(data).read_to_end(&mut out) {
        Ok(_) => Some(out),
        Err(_) => None,
    }
}

/// The file that `data` holds: the eight-byte header (three signature bytes, the version, the
/// little-endian uncompressed length), then the body, stored as is after `FWS`/`GFX` and
/// zlib-compressed after `CWS`/`CFX`.
pub open spec fn gfx_parse(data: Seq<u8>) -> Result<GfxFileView, GfxError> {
    if data.len() < 8 {
        Err(GfxError::TooShort(data.len() as usize))
    } else {
        let magic = utf8_lossy(data.subrange(0, 3));
        let version = data[3];
        let file_length = le32(data, 4) as u32;
        let rest = data.subrange(8, data.len() as int);
        let (b0, b1, b2) = (data[0], data[1], data[2]);
        if (b0 == 0x46 && b1 == 0x57 && b2 == 0x53) || (b0 == 0x47 && b1 == 0x46 && b2 == 0x58) {
            gfx_from_body(magic, version, file_length, rest)
        } else if (b0 == 0x43 && b1 == 0x57 && b2 == 0x53) || (b0 == 0x43 && b1 == 0x46 && b2
            == 0x58) {
            match zlib_inflate(rest) {
                None => Err(GfxError::Decompress),
                Some(body) => gfx_from_body(magic, version, file_length, body),
            }
        } else if b0 == 0x5A && b1 == 0x57 && b2 == 0x53 {
            Err(GfxError::LzmaUnsupported)
        } else {
            Err(GfxError::UnknownMagic(b0, b1, b2))
        }
    }
}

/// Read a little-endian `u16` at `*pos` and advance past it.
pub fn read_u16_le(data: &[u8], pos: &mut usize) -> (v: u16)
    requires
        *old(pos) + 2 <= data@.len(),
    ensures
        v == le16(data@, *old(pos) as int),
        *final(pos) == *old(pos) + 2,
{
    let p = *pos;
    let v = data[p] as u16 + (data[p + 1] as u16) * 256;
    *pos = p + 2;
    v
}

/// Read a little-endian `u32` at `*pos` and advance past it.
pub fn read_u32_le(data: &[u8], pos: &mut usize) -> (v: u32)
    requires
        *old(pos) + 4 <= data@.len(),
    ensures
        v == le32(data@, *old(pos) as int),
        *final(pos) == *old(pos) + 4,
{
    let p = *pos;
    let v = data[p] as u32 + (data[p + 1] as u32) * 256 + (data[p + 2] as u32) * 65536 + (data[p
        + 3] as u32) * 16777216;
    *pos = p + 4;
    v
}

/// The variable-length unsigned integer (SWF `u30`) at `pos`, read from its `i`-th byte on: each
/// byte gives seven bits, least significant group first, and a clear top bit ends it; at most five
/// bytes are read, and the end of the data ends it too. The exact value, and where reading stopped.
pub open spec fn u30_from(data: Seq<u8>, pos: int, i: int) -> (int, int)
    decreases 5 - i,
{
    if i >= 5 || pos < 0 || pos >= data.len() {
        (0, pos)
    } else {
        let b = data[pos];
        if b < 128 {
            (b as int, pos + 1)
        } else {
            let (rest, end) = u30_from(data, pos + 1, i + 1);
            (b - 128 + 128 * rest, end)
        }
    }
}

/// The `u32` a variable-length integer at `pos` reads as: its value modulo 2^32.
pub open spec fn u30_value(data: Seq<u8>, pos: int) -> u32 {
    (u30_from(data, pos, 0).0 % 0x1_0000_0000) as u32
}

/// Where reading a variable-length integer at `pos` stops.
pub open spec fn u30_end(data: Seq<u8>, pos: int) -> int {
    u30_from(data, pos, 0).1
}

/// Powers of 128.
pub open spec fn pow128(i: nat) -> int
    decreases i,
{
    if i == 0 {
        1
    } else {
        128 * pow128((i - 1) as nat)
    }
}

pub(crate) proof fn lemma_u30_bounds(data: Seq<u8>, pos: int, i: int)
    requires
        0 <= i <= 5,
    ensures
        0 <= u30_from(data, pos, i).0 < pow128((5 - i) as nat),
        pos <= u30_from(data, pos, i).1 <= pos + (5 - i),
        pos >= 0 ==> u30_from(data, pos, i).1 <= data.len() || u30_from(data, pos, i).1 == pos,
    decreases 5 - i,
{
    reveal_with_fuel(pow128, 6);
    if i >= 5 || pos < 0 || pos >= data.len() {
    } else if data[pos] < 128 {
    } else {
        lemma_u30_bounds(data, pos + 1, i + 1);
    }
}

/// Read a variable-length unsigned integer (SWF `u30`) at `*pos` and advance past it: seven bits per
/// byte, a clear top bit ends it, five bytes at most. At the end of the data nothing is read and
/// the value is 0.
pub fn read_u30(data: &[u8], pos: &mut usize) -> (v: u32)
    ensures
        v == u30_value(data@, *old(pos) as int),
        *final(pos) == u30_end(data@, *old(pos) as int),
        *old(pos) <= *final(pos) <= *old(pos) + 5,
        *old(pos) < data@.len() ==> *final(pos) <= data@.len(),
        *old(pos) >= data@.len() ==> *final(pos) == *old(pos),
{
    let ghost p0 = *pos as int;
    let ghost total = u30_from(data@, p0, 0).0;
    let ghost end = u30_from(data@, p0, 0).1;
    let mut acc: u64 = 0;
    let mut mult: u64 = 1;
    let mut i: usize = 0;
    let mut done = false;
    proof {
        lemma_u30_bounds(data@, p0, 0);
        reveal_with_fuel(pow128, 6);
    }
    while !done && i < 5
        invariant
            i <= 5,
            mult == pow128(i as nat),
            acc < 128 * mult,
            !done ==> acc < mult,
            p0 <= *pos,
            !done ==> total == acc + mult * u30_from(data@, *pos as int, i as int).0,
            !done ==> end == u30_from(data@, *pos as int, i as int).1,
            done ==> total == acc && end == *pos,
            total == u30_from(data@, p0, 0).0,
            end == u30_from(data@, p0, 0).1,
        decreases 2 * (5 - i) + (if done { 0int } else { 1int }),
    {
        proof {
            reveal_with_fuel(pow128, 6);
        }
        if *pos >= data.len() {
            proof {
                assert(u30_from(data@, *pos as int, i as int).0 == 0);
                assert(mult * 0 == 0);
            }
            done = true;
        } else {
            let b = data[*pos];
            let low: u64 = (b % 128) as u64;
            proof {
                assert(mult <= 0x1000_0000);
                assert(low * mult <= 127 * mult) by (nonlinear_arith)
                    requires
                        low <= 127,
                ;
                let (rest, _e) = u30_from(data@, *pos + 1, i + 1);
                if b < 128 {
                    assert(u30_from(data@, *pos as int, i as int).0 == b);
                    assert(mult * b == low * mult) by (nonlinear_arith)
                        requires
                            low == b,
                    ;
                } else {
                    assert(mult * (b - 128 + 128 * rest) == low * mult + (mult * 128) * rest)
                        by (nonlinear_arith)
                        requires
                            low == b - 128,
                    ;
                }
            }
            acc = acc + low * mult;
            *pos = *pos + 1;
            if b < 128 {
                done = true;
            } else {
                mult = mult * 128;
                i = i + 1;
            }
        }
    }
    proof {
        if !done {
            assert(u30_from(data@, *pos as int, i as int).0 == 0);
            assert(mult * 0 == 0);
        }
        assert(total == acc);
    }
    (acc % 0x1_0000_0000) as u32
}

/// Every payload of a tag stream is a piece of the body, no longer than the body.
pub proof fn lemma_tag_payloads_fit(body: Seq<u8>, pos: int)
    ensures
        forall|i: int|
            0 <= i < tags_from(body, pos).len() ==> #[trigger] tags_from(body, pos)[i].1.len()
                <= body.len(),
    decreases body.len() - pos,
{
    match tag_at(body, pos) {
        None => {},
        Some((tag, next)) => {
            if tag.0 != 0 {
                lemma_tag_payloads_fit(body, next);
                let rest = tags_from(body, next);
                assert forall|i: int| 0 <= i < tags_from(body, pos).len() implies #[trigger] tags_from(
                    body,
                    pos,
                )[i].1.len() <= body.len() by {
                    if i > 0 {
                        assert(tags_from(body, pos)[i] == rest[i - 1]);
                    }
                }
            }
        },
    }
}

/// The payload bytes of some tags, added up.
pub open spec fn payload_total(tags: Seq<TagView>) -> int
    decreases tags.len(),
{
    if tags.len() == 0 {
        0
    } else {
        tags[0].1.len() + payload_total(tags.drop_first())
    }
}

/// The tags of a stream never claim more than the stream holds: their payloads plus a two-byte
/// header each fit in the bytes from `pos` on.
pub proof fn lemma_tags_within(body: Seq<u8>, pos: int)
    requires
        0 <= pos <= body.len(),
    ensures
        payload_total(tags_from(body, pos)) + 2 * tags_from(body, pos).len() <= body.len() - pos,
    decreases body.len() - pos,
{
    match tag_at(body, pos) {
        None => {},
        Some((tag, next)) => {
            let t = tags_from(body, pos);
            assert(tag.1.len() + 2 <= next - pos);
            assert(next <= body.len());
            assert(t[0] == tag);
            if tag.0 == 0 {
                assert(t.drop_first() =~= Seq::<TagView>::empty());
                assert(payload_total(t.drop_first()) == 0);
            } else {
                lemma_tags_within(body, next);
                assert(t.drop_first() =~= tags_from(body, next));
            }
        },
    }
}

/// A stream's payloads fit in its bytes (see `lemma_tags_within`).
pub proof fn law_tag_payloads_fit_in_body(body: Seq<u8>)
    ensures
        payload_total(tag_list(body)) + 2 * tag_list(body).len() <= body.len(),
{
    lemma_tags_within(body, 0);
}

/// The end tag closes a stream: no tag but the last one has code 0.
pub proof fn law_end_tag_is_last(body: Seq<u8>)
    ensures
        forall|i: int| 0 <= i < tag_list(body).len() - 1 ==> #[trigger] tag_list(body)[i].0 != 0,
{
    lemma_end_tag_is_last(body, 0);
}

proof fn lemma_end_tag_is_last(body: Seq<u8>, pos: int)
    ensures
        forall|i: int|
            0 <= i < tags_from(body, pos).len() - 1 ==> #[trigger] tags_from(body, pos)[i].0 != 0,
    decreases body.len() - pos,
{
    match tag_at(body, pos) {
        None => {},
        Some((tag, next)) => {
            if tag.0 != 0 {
                lemma_end_tag_is_last(body, next);
                let t = tags_from(body, pos);
                assert forall|i: int| 0 <= i < t.len() - 1 implies #[trigger] t[i].0 != 0 by {
                    if i > 0 {
                        assert(t[i] == tags_from(body, next)[i - 1]);
                    }
                }
            }
        },
    }
}

/// Where a NUL-terminated string starting at `pos` ends: the first NUL at or after `pos`, or the
/// end of the data when there is none.
pub open spec fn string_end(data: Seq<u8>, pos: int) -> int
    decreases data.len() - pos,
{
    if pos >= data.len() {
        data.len() as int
    } else if data[pos] == 0 {
        pos
    } else {
        string_end(data, pos + 1)
    }
}

/// The text of the NUL-terminated string at `pos`.
pub open spec fn string_at(data: Seq<u8>, pos: int) -> Seq<char> {
    utf8_lossy(data.subrange(pos, string_end(data, pos)))
}

/// A string's end lies between its start and the end of the data, and holds the first NUL.
pub proof fn lemma_string_end(data: Seq<u8>, pos: int)
    requires
        0 <= pos <= data.len(),
    ensures
        pos <= string_end(data, pos) <= data.len(),
        string_end(data, pos) < data.len() ==> data[string_end(data, pos)] == 0,
        forall|k: int| pos <= k < string_end(data, pos) ==> data[k] != 0,
    decreases data.len() - pos,
{
    if pos < data.len() && data[pos] != 0 {
        lemma_string_end(data, pos + 1);
    }
}

/// Read the NUL-terminated string at `*pos` (decoded as UTF-8, invalid sequences replaced) and move
/// past its terminator. A string that runs to the end of the data is taken whole, and the position
/// then lands one past the end.
pub fn read_string(data: &[u8], pos: &mut usize) -> (s: String)
    requires
        *old(pos) <= data@.len(),
        data@.len() <= isize::MAX,
    ensures
        s@ == string_at(data@, *old(pos) as int),
        *final(pos) == string_end(data@, *old(pos) as int) + 1,
{
    let start = *pos;
    let mut e = start;
    proof {
        lemma_string_end(data@, start as int);
    }
    while e < data.len() && data[e] != 0
        invariant
            start <= e <= data@.len(),
            string_end(data@, e as int) == string_end(data@, start as int),
        decreases data@.len() - e,
    {
        e = e + 1;
    }
    let s = lossy_string(&data[start..e]);
    *pos = e + 1;
    s
}

/// The offset at which the tag stream begins, past the frame header (see `frame_header_end`).
pub fn skip_frame_header(body: &[u8]) -> (r: Result<usize, GfxError>)
    ensures
        match r {
            Ok(end) => frame_header_end(body@) == Ok::<int, GfxError>(end as int),
            Err(e) => frame_header_end(body@) == Err::<int, GfxError>(e),
        },
{
    if body.len() == 0 {
        return Err(GfxError::EmptyBody);
    }
    let nbits: usize = (body[0] / 8) as usize;
    let header_end = (5 + 4 * nbits + 7) / 8 + 4;
    if header_end > body.len() {
        return Err(GfxError::FrameHeaderPastBody);
    }
    Ok(header_end)
}

impl GfxFile {
    /// The tag stream of `body` (see `tags_from`): tags one after another until the data runs out
    /// or the end tag has been read.
    pub fn parse_tags(body: &[u8]) -> (tags: Vec<Tag>)
        ensures
            tags_view(tags@) == tag_list(body@),
    {
        let mut tags: Vec<Tag> = Vec::new();
        let mut pos: usize = 0;
        loop
            invariant_except_break
                pos <= body@.len(),
                tags_view(tags@) + tags_from(body@, pos as int) == tag_list(body@),
            ensures
                tags_view(tags@) == tag_list(body@),
            decreases body@.len() - pos,
        {
            if body.len() - pos < 2 {
                proof {
                    assert(tags_from(body@, pos as int) =~= Seq::<TagView>::empty());
                    assert(tags_view(tags@) + Seq::<TagView>::empty() =~= tags_view(tags@));
                }
                break;
            }
            let h = body[pos] as u16 + (body[pos + 1] as u16) * 256;
            let code: u16 = h >> 6;
            let short: u16 = h & 0x3F;
            assert(h >> 6 == h / 64 && h & 0x3F == h % 64) by (bit_vector);
            let mut start: usize = pos + 2;
            let mut want: usize = short as usize;
            if short == 0x3F {
                if body.len() - start < 4 {
                    proof {
                        assert(tags_from(body@, pos as int) =~= Seq::<TagView>::empty());
                        assert(tags_view(tags@) + Seq::<TagView>::empty() =~= tags_view(tags@));
                    }
                    break;
                }
                let mut p = start;
                want = read_u32_le(body, &mut p) as usize;
                start = p;
            }
            let avail = body.len() - start;
            let take = if want > avail {
                avail
            } else {
                want
            };
            let data = slice_to_vec(&body[start..start + take]);
            let ghost old_tags = tags@;
            let tag = Tag { code, data };
            proof {
                let t = tag_at(body@, pos as int);
                assert(t == Some(((code, data@), (start + take) as int)));
            }
            tags.push(tag);
            let ghost next = (start + take) as int;
            proof {
                assert(tags_view(tags@) =~= tags_view(old_tags).push((code, data@)));
            }
            pos = start + take;
            if code == 0 {
                break;
            }
            proof {
                assert(tags_view(old_tags) + (seq![(code, data@)] + tags_from(body@, next))
                    =~= tags_view(tags@) + tags_from(body@, next));
            }
        }
        tags
    }
}

impl GfxFile {
    /// The file made of a header's fields and its decoded body: the frame header is skipped and the
    /// tags after it are parsed.
    pub fn from_body(magic: String, version: u8, file_length: u32, body: Vec<u8>) -> (r: Result<
        GfxFile,
        GfxError,
    >)
        ensures
            match r {
                Ok(g) => gfx_from_body(magic@, version, file_length, body@) == Ok::<
                    GfxFileView,
                    GfxError,
                >(g@),
                Err(e) => gfx_from_body(magic@, version, file_length, body@) == Err::<
                    GfxFileView,
                    GfxError,
                >(e),
            },
    {
        let end = match skip_frame_header(&body) {
            Ok(end) => end,
            Err(e) => return Err(e),
        };
        let tags = GfxFile::parse_tags(&body[end..body.len()]);
        let g = GfxFile { magic, version, file_length, body, tags };
        proof {
            assert(g@ == GfxFileView {
                magic: magic@,
                version,
                file_length,
                body: body@,
                tags: tag_list(body@.subrange(end as int, body@.len() as int)),
            });
        }
        Ok(g)
    }

    /// Parse a whole file (see `gfx_parse`): check the header, inflate a compressed body, skip the
    /// frame header and read the tags.
    pub fn parse(data: &[u8]) -> (r: Result<GfxFile, GfxError>)
        ensures
            match r {
                Ok(g) => gfx_parse(data@) == Ok::<GfxFileView, GfxError>(g@),
                Err(e) => gfx_parse(data@) == Err::<GfxFileView, GfxError>(e),
            },
    {
        if data.len() < 8 {
            return Err(GfxError::TooShort(data.len()));
        }
        let magic = lossy_string(&data[0..3]);
        let version = data[3];
        let mut p: usize = 4;
        let file_length = read_u32_le(data, &mut p);
        let (b0, b1, b2) = (data[0], data[1], data[2]);
        let rest = &data[8..data.len()];
        if (b0 == 0x46 && b1 == 0x57 && b2 == 0x53) || (b0 == 0x47 && b1 == 0x46 && b2 == 0x58) {
            GfxFile::from_body(magic, version, file_length, slice_to_vec(rest))
        } else if (b0 == 0x43 && b1 == 0x57 && b2 == 0x53) || (b0 == 0x43 && b1 == 0x46 && b2
            == 0x58) {
            match inflate_zlib(rest) {
                None => Err(GfxError::Decompress),
                Some(body) => GfxFile::from_body(magic, version, file_length, body),
            }
        } else if b0 == 0x5A && b1 == 0x57 && b2 == 0x53 {
            Err(GfxError::LzmaUnsupported)
        } else {
            Err(GfxError::UnknownMagic(b0, b1, b2))
        }
    }
}

/// The frame header is a RECT of four fields whose width is the top five bits of its first byte,
/// after a five-bit width field, padded to a byte, then a two-byte frame rate and a two-byte frame
/// count: the tag stream starts at ceil((5 + 4n) / 8) + 4, or the body is too short for it.
pub proof fn law_tags_start_after_the_frame_header(body: Seq<u8>)
    requires
        body.len() > 0,
    ensures
        ({
            let n = (body[0] >> 3u8) as int;
            let start = (5 + 4 * n + 7) / 8 + 4;
            frame_header_end(body) == if start <= body.len() {
                Ok::<int, GfxError>(start)
            } else {
                Err::<int, GfxError>(GfxError::FrameHeaderPastBody)
            }
        }),
{
    let b = body[0];
    assert(b >> 3u8 == b / 8) by (bit_vector);
}

/// An uncompressed (`FWS`) file's tags are read from the body right after its frame header.
pub proof fn law_fws_tags_follow_the_frame_header(data: Seq<u8>)
    requires
        data.len() > 8,
        data[0] == 0x46,
        data[1] == 0x57,
        data[2] == 0x53,
    ensures
        ({
            let body = data.subrange(8, data.len() as int);
            let start = (5 + 4 * ((body[0] >> 3u8) as int) + 7) / 8 + 4;
            &&& start <= body.len() ==> (gfx_parse(data) matches Ok(g) && g.body == body && g.version
                == data[3] && g.tags == tag_list(body.subrange(start, body.len() as int)))
            &&& start > body.len() ==> gfx_parse(data) == Err::<GfxFileView, GfxError>(
                GfxError::FrameHeaderPastBody,
            )
        }),
{
    let body = data.subrange(8, data.len() as int);
    law_tags_start_after_the_frame_header(body);
}

} // verus!
