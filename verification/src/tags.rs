//! What the examiner reads out of the individual tags: names for tag codes, the symbol and export
//! tables, scene and frame labels, file attributes, object placements, sprite depth tables and the
//! embedded ActionScript 3 (ABC) blocks.
use crate::gfx::{
    le16, le32, read_string, read_u16_le, read_u30, read_u32_le, string_at, string_end,
    lemma_string_end, u30_end, u30_value, utf8_lossy, GfxFile, Tag, TagView,
};
use vstd::prelude::*;

verus! {

/// The human-readable name of a tag code.
pub open spec fn tag_name_of(code: u16) -> Seq<char> {
    match code {
        0 => "End"@,
        1 => "ShowFrame"@,
        2 => "DefineShape"@,
        4 => "PlaceObject"@,
        5 => "RemoveObject"@,
        6 => "DefineBits"@,
        9 => "SetBackgroundColor"@,
        12 => "DoAction"@,
        18 => "SoundStreamBlock"@,
        21 => "DefineBitsJPEG2"@,
        22 => "DefineShape2"@,
        24 => "Protect"@,
        26 => "PlaceObject2"@,
        28 => "RemoveObject2"@,
        32 => "DefineShape3"@,
        34 => "DefineButton2"@,
        35 => "DefineBitsJPEG3"@,
        37 => "DefineEditText"@,
        39 => "DefineSprite"@,
        43 => "FrameLabel"@,
        45 => "SoundStreamHead2"@,
        46 => "DefineMorphShape"@,
        48 => "DefineFont2"@,
        56 => "ExportAssets"@,
        57 => "ImportAssets"@,
        69 => "FileAttributes"@,
        70 => "PlaceObject3"@,
        73 => "DefineFontAlignZones"@,
        74 => "CSMTextSettings"@,
        75 => "DefineFont3"@,
        76 => "SymbolClass"@,
        77 => "StackTrace"@,
        78 => "DoABC"@,
        82 => "DoABC"@,
        83 => "DefineFont4"@,
        84 => "DefineMorphShape2"@,
        86 => "DefineSceneAndFrameLabelData"@,
        87 => "DefineBinaryData"@,
        88 => "DefineFontName"@,
        89 => "StartSound2"@,
        _ => "Unknown"@,
    }
}

/// The human-readable name of a tag code, `Unknown` for codes this examiner does not name.
pub fn tag_name(code: u16) -> (name: &'static str)
    ensures
        name@ == tag_name_of(code),
{
    match code {
        0 => "End",
        1 => "ShowFrame",
        2 => "DefineShape",
        4 => "PlaceObject",
        5 => "RemoveObject",
        6 => "DefineBits",
        9 => "SetBackgroundColor",
        12 => "DoAction",
        18 => "SoundStreamBlock",
        21 => "DefineBitsJPEG2",
        22 => "DefineShape2",
        24 => "Protect",
        26 => "PlaceObject2",
        28 => "RemoveObject2",
        32 => "DefineShape3",
        34 => "DefineButton2",
        35 => "DefineBitsJPEG3",
        37 => "DefineEditText",
        39 => "DefineSprite",
        43 => "FrameLabel",
        45 => "SoundStreamHead2",
        46 => "DefineMorphShape",
        48 => "DefineFont2",
        56 => "ExportAssets",
        57 => "ImportAssets",
        69 => "FileAttributes",
        70 => "PlaceObject3",
        73 => "DefineFontAlignZones",
        74 => "CSMTextSettings",
        75 => "DefineFont3",
        76 => "SymbolClass",
        77 => "StackTrace",
        78 => "DoABC",
        82 => "DoABC",
        83 => "DefineFont4",
        84 => "DefineMorphShape2",
        86 => "DefineSceneAndFrameLabelData",
        87 => "DefineBinaryData",
        88 => "DefineFontName",
        89 => "StartSound2",
        _ => "Unknown",
    }
}

/// The three flags of a FileAttributes tag that the examiner reports.
#[derive(Debug, Clone, Copy, PartialEq, Eq, Structural)]
pub struct FileAttributes {
    pub use_network: bool,
    pub actionscript3: bool,
    pub has_metadata: bool,
}

/// The flags of a FileAttributes payload, read from its first byte; `None` for an empty payload.
pub open spec fn file_attributes_of(data: Seq<u8>) -> Option<FileAttributes> {
    if data.len() == 0 {
        None
    } else {
        let flags = data[0];
        Some(
            FileAttributes {
                use_network: flags & 0x01 != 0,
                actionscript3: flags & 0x08 != 0,
                has_metadata: flags & 0x10 != 0,
            },
        )
    }
}

/// Decode a FileAttributes payload (see `file_attributes_of`).
pub fn decode_file_attributes(data: &[u8]) -> (r: Option<FileAttributes>)
    ensures
        r == file_attributes_of(data@),
{
    if data.len() == 0 {
        return None;
    }
    let flags = data[0];
    Some(
        FileAttributes {
            use_network: flags & 0x01 != 0,
            actionscript3: flags & 0x08 != 0,
            has_metadata: flags & 0x10 != 0,
        },
    )
}

/// One row of a SymbolClass or ExportAssets table: a character id and a name.
pub struct SymbolEntry {
    pub id: u16,
    pub name: String,
}

impl View for SymbolEntry {
    type V = (u16, Seq<char>);

    open spec fn view(&self) -> (u16, Seq<char>) {
        (self.id, self.name@)
    }
}

/// A SymbolClass or ExportAssets table: the row count the tag declares, and the rows it holds.
pub struct SymbolTable {
    pub count: u16,
    pub entries: Vec<SymbolEntry>,
}

/// The rows from `pos` on, at most `n` of them: a little-endian id then a NUL-terminated name each,
/// until the declared count is reached or fewer than two bytes are left for an id.
pub open spec fn symbol_entries_from(data: Seq<u8>, pos: int, n: nat) -> Seq<(u16, Seq<char>)>
    decreases n,
{
    if n == 0 || pos < 0 || pos + 2 > data.len() {
        Seq::empty()
    } else {
        seq![(le16(data, pos) as u16, string_at(data, pos + 2))] + symbol_entries_from(
            data,
            string_end(data, pos + 2) + 1,
            (n - 1) as nat,
        )
    }
}

/// The rows of a table as plain values.
pub open spec fn entries_view(entries: Seq<SymbolEntry>) -> Seq<(u16, Seq<char>)> {
    entries.map_values(|e: SymbolEntry| e@)
}

/// Decode a SymbolClass or ExportAssets payload: a little-endian row count, then the rows (see
/// `symbol_entries_from`). The payload must hold the count.
pub fn decode_symbol_table(data: &[u8]) -> (t: SymbolTable)
    requires
        2 <= data@.len() <= isize::MAX,
    ensures
        t.count == le16(data@, 0),
        entries_view(t.entries@) == symbol_entries_from(data@, 2, t.count as nat),
{
    let mut pos: usize = 0;
    let count = read_u16_le(data, &mut pos);
    let mut entries: Vec<SymbolEntry> = Vec::new();
    let mut left: u16 = count;
    while left > 0 && pos <= data.len() && data.len() - pos >= 2
        invariant
            2 <= pos <= data@.len() + 1,
            data@.len() <= isize::MAX,
            left <= count,
            entries_view(entries@) + symbol_entries_from(data@, pos as int, left as nat)
                == symbol_entries_from(data@, 2, count as nat),
        decreases left,
    {
        let id = read_u16_le(data, &mut pos);
        proof {
            lemma_string_end(data@, pos as int);
        }
        let name = read_string(data, &mut pos);
        let ghost old_entries = entries@;
        let e = SymbolEntry { id, name };
        entries.push(e);
        proof {
            assert(entries_view(entries@) =~= entries_view(old_entries).push(e@));
            assert(entries_view(old_entries) + (seq![e@] + symbol_entries_from(
                data@,
                pos as int,
                (left - 1) as nat,
            )) =~= entries_view(entries@) + symbol_entries_from(
                data@,
                pos as int,
                (left - 1) as nat,
            ));
        }
        left = left - 1;
    }
    proof {
        assert(symbol_entries_from(data@, pos as int, left as nat) =~= Seq::empty());
        assert(entries_view(entries@) + Seq::<(u16, Seq<char>)>::empty() =~= entries_view(
            entries@,
        ));
    }
    SymbolTable { count, entries }
}

/// One scene or frame label: a number (a scene's frame offset, or a label's frame) and a name.
pub struct FrameLabel {
    pub number: u32,
    pub name: String,
}

impl View for FrameLabel {
    type V = (u32, Seq<char>);

    open spec fn view(&self) -> (u32, Seq<char>) {
        (self.number, self.name@)
    }
}

/// The labels as plain values.
pub open spec fn labels_view(labels: Seq<FrameLabel>) -> Seq<(u32, Seq<char>)> {
    labels.map_values(|l: FrameLabel| l@)
}

/// `n` labels from `pos` on, each a variable-length number and a NUL-terminated name, and where
/// they end; `None` when a name would have to be read from past the end of the data.
pub open spec fn labels_from(data: Seq<u8>, pos: int, n: nat) -> Option<
    (Seq<(u32, Seq<char>)>, int),
>
    decreases n,
{
    if n == 0 {
        Some((Seq::empty(), pos))
    } else {
        let v = u30_value(data, pos);
        let p1 = u30_end(data, pos);
        if p1 > data.len() {
            None
        } else {
            match labels_from(data, string_end(data, p1) + 1, (n - 1) as nat) {
                None => None,
                Some((rest, e)) => Some((seq![(v, string_at(data, p1))] + rest, e)),
            }
        }
    }
}

/// The scenes and frame labels of a DefineSceneAndFrameLabelData tag.
pub struct SceneLabels {
    pub scene_count: u32,
    pub scenes: Vec<FrameLabel>,
    pub label_count: u32,
    pub labels: Vec<FrameLabel>,
}

/// The scenes and labels as plain values.
pub struct SceneLabelsView {
    pub scene_count: u32,
    pub scenes: Seq<(u32, Seq<char>)>,
    pub label_count: u32,
    pub labels: Seq<(u32, Seq<char>)>,
}

impl View for SceneLabels {
    type V = SceneLabelsView;

    open spec fn view(&self) -> SceneLabelsView {
        SceneLabelsView {
            scene_count: self.scene_count,
            scenes: labels_view(self.scenes@),
            label_count: self.label_count,
            labels: labels_view(self.labels@),
        }
    }
}

/// A DefineSceneAndFrameLabelData payload: a scene count and that many scenes, then a frame-label
/// count and that many labels (see `labels_from`). `None` when a name would lie past the end of the
/// data, which the examiner cannot read.
pub open spec fn scene_labels_of(data: Seq<u8>) -> Option<SceneLabelsView> {
    let sc = u30_value(data, 0);
    match labels_from(data, u30_end(data, 0), sc as nat) {
        None => None,
        Some((scenes, p2)) => {
            let lc = u30_value(data, p2);
            match labels_from(data, u30_end(data, p2), lc as nat) {
                None => None,
                Some((labels, _e)) => Some(
                    SceneLabelsView { scene_count: sc, scenes, label_count: lc, labels },
                ),
            }
        },
    }
}

/// Read `n` labels from `*pos` on (see `labels_from`).
fn read_labels(data: &[u8], pos: &mut usize, n: u32) -> (r: Option<Vec<FrameLabel>>)
    requires
        *old(pos) <= data@.len() + 1,
        data@.len() <= isize::MAX,
    ensures
        match labels_from(data@, *old(pos) as int, n as nat) {
            None => r is None,
            Some((labels, e)) => r matches Some(v) && labels_view(v@) == labels && *final(pos)
                == e,
        },
        r is Some ==> *final(pos) <= data@.len() + 1,
{
    let mut out: Vec<FrameLabel> = Vec::new();
    let mut left: u32 = n;
    let ghost p0 = *pos as int;
    while left > 0
        invariant
            *pos <= data@.len() + 1,
            data@.len() <= isize::MAX,
            left <= n,
            p0 == *old(pos) as int,
            labels_from(data@, p0, n as nat) == match labels_from(
                data@,
                *pos as int,
                left as nat,
            ) {
                None => None,
                Some((rest, e)) => Some((labels_view(out@) + rest, e)),
            },
        decreases left,
    {
        let ghost before = *pos as int;
        let number = read_u30(data, pos);
        if *pos > data.len() {
            proof {
                assert(labels_from(data@, before, left as nat) is None);
                assert(labels_from(data@, p0, n as nat) is None);
            }
            return None;
        }
        proof {
            lemma_string_end(data@, *pos as int);
        }
        let name = read_string(data, pos);
        let ghost old_out = out@;
        let l = FrameLabel { number, name };
        out.push(l);
        proof {
            assert(labels_view(out@) =~= labels_view(old_out).push(l@));
            match labels_from(data@, *pos as int, (left - 1) as nat) {
                None => {},
                Some((rest, e)) => {
                    assert(labels_view(old_out) + (seq![l@] + rest) =~= labels_view(out@)
                        + rest);
                },
            }
        }
        left = left - 1;
    }
    proof {
        assert(labels_view(out@) + Seq::<(u32, Seq<char>)>::empty() =~= labels_view(out@));
    }
    Some(out)
}

/// Decode a DefineSceneAndFrameLabelData payload (see `scene_labels_of`); `None` exactly where a
/// name would lie past the end of the data.
pub fn decode_scene_labels(data: &[u8]) -> (r: Option<SceneLabels>)
    requires
        data@.len() <= isize::MAX,
    ensures
        match r {
            Some(s) => scene_labels_of(data@) == Some(s@),
            None => scene_labels_of(data@) is None,
        },
{
    let mut pos: usize = 0;
    let scene_count = read_u30(data, &mut pos);
    let scenes = match read_labels(data, &mut pos, scene_count) {
        Some(v) => v,
        None => return None,
    };
    let label_count = read_u30(data, &mut pos);
    let labels = match read_labels(data, &mut pos, label_count) {
        Some(v) => v,
        None => return None,
    };
    Some(SceneLabels { scene_count, scenes, label_count, labels })
}

/// The value of `count` bits read most significant first from bit `bit` of the bytes at `pos`, the
/// `i`-th bit on, given the value `acc` of the bits before it; reading stops early at the end of the
/// data. The value is kept to 32 bits.
pub open spec fn ubits_from(data: Seq<u8>, pos: int, bit: int, count: int, i: int, acc: u32) -> u32
    decreases count - i,
{
    if i >= count || i < 0 || bit < 0 || pos + (bit + i) / 8 >= data.len() {
        acc
    } else {
        let byte = data[pos + (bit + i) / 8];
        let b = (byte >> ((7 - (bit + i) % 8) as u8)) & 1u8;
        ubits_from(data, pos, bit, count, i + 1, ((acc as int * 2 + b as int) % 0x1_0000_0000) as u32)
    }
}

/// The value of `count` bits from bit `bit` of the bytes at `pos` (see `ubits_from`).
pub open spec fn ubits(data: Seq<u8>, pos: int, bit: int, count: int) -> u32 {
    ubits_from(data, pos, bit, count, 0, 0)
}

/// Powers of two.
pub open spec fn two_to(i: nat) -> nat
    decreases i,
{
    if i == 0 {
        1
    } else {
        2 * two_to((i - 1) as nat)
    }
}

/// A field of at most five bits is below 32.
proof fn lemma_ubits_small(data: Seq<u8>, pos: int, bit: int, count: int, i: int, acc: u32)
    requires
        0 <= i <= count <= 5,
        acc < two_to(i as nat),
    ensures
        ubits_from(data, pos, bit, count, i, acc) < two_to(count as nat),
        ubits_from(data, pos, bit, count, i, acc) < 32,
    decreases count - i,
{
    reveal_with_fuel(two_to, 6);
    if i >= count || bit < 0 || pos + (bit + i) / 8 >= data.len() {
        if i < count {
            assert(two_to(i as nat) <= two_to(count as nat));
        }
    } else {
        let byte: u8 = data[pos + (bit + i) / 8];
        let sh: u8 = (7 - (bit + i) % 8) as u8;
        let b: u8 = (byte >> sh) & 1u8;
        assert(b <= 1) by (bit_vector)
            requires
                b == (byte >> sh) & 1u8,
        ;
        lemma_ubits_small(
            data,
            pos,
            bit,
            count,
            i + 1,
            ((acc as int * 2 + b as int) % 0x1_0000_0000) as u32,
        );
    }
}

/// Read `count` bits, most significant first, from bit `*bit_pos` of the bytes at `*pos`, and move
/// `*bit_pos` past them; bits past the end of the data are not read. `*pos` is left alone.
fn read_ubits(data: &[u8], pos: &usize, bit_pos: &mut usize, count: usize) -> (v: u32)
    requires
        *pos <= data@.len(),
        *old(bit_pos) + count <= usize::MAX,
    ensures
        v == ubits(data@, *pos as int, *old(bit_pos) as int, count as int),
        *final(bit_pos) == *old(bit_pos) + count,
{
    let mut result: u32 = 0;
    let mut i: usize = 0;
    let bp = *bit_pos;
    while i < count
        invariant
            i <= count,
            *pos <= data@.len(),
            bp + count <= usize::MAX,
            ubits(data@, *pos as int, bp as int, count as int) == ubits_from(
                data@,
                *pos as int,
                bp as int,
                count as int,
                i as int,
                result,
            ),
        ensures
            ubits(data@, *pos as int, bp as int, count as int) == result,
        decreases count - i,
    {
        let off = (bp + i) / 8;
        if off >= data.len() - *pos {
            break;
        }
        let byte = data[*pos + off];
        let sh: u8 = (7 - (bp + i) % 8) as u8;
        let bit = (byte >> sh) & 1u8;
        assert(bit <= 1) by (bit_vector)
            requires
                bit == (byte >> sh) & 1u8,
        ;
        let next = (result << 1u32) | (bit as u32);
        assert(next == ((result as int * 2 + bit as int) % 0x1_0000_0000) as u32) by (bit_vector)
            requires
                next == (result << 1u32) | (bit as u32),
                bit <= 1,
        ;
        result = next;
        i = i + 1;
    }
    *bit_pos = bp + count;
    result
}

/// How many bytes the MATRIX record at `pos` spans: a scale flag and, if set, a five-bit width and
/// two fields of it; a rotate flag and, if set, the same; then a five-bit width and two translate
/// fields; rounded up to whole bytes. Nothing when `pos` is at or past the end of the data.
pub open spec fn matrix_bytes(data: Seq<u8>, pos: int) -> int {
    if pos < 0 || pos >= data.len() {
        0
    } else {
        let has_scale = (data[pos] >> 7u8) & 1u8;
        let b2 = if has_scale == 1 {
            1 + 5 + 2 * ubits(data, pos, 1, 5)
        } else {
            1
        };
        let has_rotate = ubits(data, pos, b2, 1);
        let b3 = b2 + 1;
        let b4 = if has_rotate == 1 {
            b3 + 5 + 2 * ubits(data, pos, b3, 5)
        } else {
            b3
        };
        let b5 = b4 + 5 + 2 * ubits(data, pos, b4, 5);
        (b5 + 7) / 8
    }
}

/// Skip the MATRIX record at `*pos` (see `matrix_bytes`).
fn skip_matrix(data: &[u8], pos: &mut usize)
    requires
        data@.len() <= isize::MAX,
        *old(pos) <= data@.len() + 64,
    ensures
        *final(pos) == *old(pos) + matrix_bytes(data@, *old(pos) as int),
        matrix_bytes(data@, *old(pos) as int) <= 26,
{
    if *pos >= data.len() {
        return;
    }
    let has_scale = (data[*pos] >> 7u8) & 1u8;
    let mut bit_pos: usize = 1;
    if has_scale == 1 {
        proof {
            lemma_ubits_small(data@, *pos as int, 1, 5, 0, 0);
        }
        let nbits = read_ubits(data, pos, &mut bit_pos, 5) as usize;
        bit_pos = bit_pos + nbits * 2;
    }
    let has_rotate = read_ubits(data, pos, &mut bit_pos, 1);
    if has_rotate == 1 {
        proof {
            lemma_ubits_small(data@, *pos as int, bit_pos as int, 5, 0, 0);
        }
        let nbits = read_ubits(data, pos, &mut bit_pos, 5) as usize;
        bit_pos = bit_pos + nbits * 2;
    }
    proof {
        lemma_ubits_small(data@, *pos as int, bit_pos as int, 5, 0, 0);
    }
    let nbits = read_ubits(data, pos, &mut bit_pos, 5) as usize;
    bit_pos = bit_pos + nbits * 2;
    *pos = *pos + (bit_pos + 7) / 8;
}

/// How many bytes the CXFORM record at `pos` spans: an add-terms flag, a mult-terms flag and a
/// four-bit width, then three fields of that width per flag set, rounded up to whole bytes. Nothing
/// when `pos` is at or past the end of the data.
pub open spec fn cxform_bytes(data: Seq<u8>, pos: int) -> int {
    if pos < 0 || pos >= data.len() {
        0
    } else {
        let b = data[pos];
        let has_add = (b >> 7u8) & 1u8;
        let has_mult = (b >> 6u8) & 1u8;
        let nbits = (b >> 2u8) & 0x0Fu8;
        let total_bits = 6 + nbits * ((has_add + has_mult) * 3);
        (total_bits + 7) / 8
    }
}

/// Skip the CXFORM record at `*pos` (see `cxform_bytes`).
fn skip_cxform(data: &[u8], pos: &mut usize)
    requires
        data@.len() <= isize::MAX,
        *old(pos) <= data@.len() + 64,
    ensures
        *final(pos) == *old(pos) + cxform_bytes(data@, *old(pos) as int),
        cxform_bytes(data@, *old(pos) as int) <= 12,
{
    if *pos >= data.len() {
        return;
    }
    let b = data[*pos];
    let has_add = (b >> 7u8) & 1u8;
    let has_mult = (b >> 6u8) & 1u8;
    let nbits = (b >> 2u8) & 0x0Fu8;
    assert(has_add <= 1 && has_mult <= 1 && nbits <= 15) by (bit_vector)
        requires
            has_add == (b >> 7u8) & 1u8,
            has_mult == (b >> 6u8) & 1u8,
            nbits == (b >> 2u8) & 0x0Fu8,
    ;
    let terms: usize = (has_add as usize + has_mult as usize) * 3;
    assert(terms <= 6);
    let n: usize = nbits as usize;
    assert(n * terms <= 15 * 6) by (nonlinear_arith)
        requires
            n <= 15,
            terms <= 6,
    ;
    let total_bits = 6 + n * terms;
    *pos = *pos + (total_bits + 7) / 8;
}

/// A PlaceObject2/PlaceObject3 record as the examiner reports it.
pub struct PlaceObject {
    pub depth: u16,
    pub char_id: Option<u16>,
    pub name: Option<String>,
    pub moved: bool,
}

/// A placement as plain values.
pub struct PlaceObjectView {
    pub depth: u16,
    pub char_id: Option<u16>,
    pub name: Option<Seq<char>>,
    pub moved: bool,
}

/// An optional string as an optional text.
pub open spec fn opt_text(s: Option<String>) -> Option<Seq<char>> {
    match s {
        Some(t) => Some(t@),
        None => None,
    }
}

impl View for PlaceObject {
    type V = PlaceObjectView;

    open spec fn view(&self) -> PlaceObjectView {
        PlaceObjectView {
            depth: self.depth,
            char_id: self.char_id,
            name: opt_text(self.name),
            moved: self.moved,
        }
    }
}

/// A top-level PlaceObject2 (code 26) or PlaceObject3 (code 70) payload: a flag byte (two for
/// PlaceObject3), the depth, then as the flags say a character id, a MATRIX, a CXFORM, a name and a
/// ratio. `None` where the examiner cannot read it: an empty payload, or a depth, character id,
/// name or ratio that lies past the end.
pub open spec fn place_object_of(data: Seq<u8>, code: u16) -> Option<PlaceObjectView> {
    if data.len() == 0 {
        None
    } else {
        let flags = data[0];
        let p0: int = if code == 70 {
            2
        } else {
            1
        };
        let has_char = flags & 0x02 != 0;
        let has_name = flags & 0x20 != 0;
        let p1 = p0 + 2;
        let p2 = if has_char {
            p1 + 2
        } else {
            p1
        };
        let p3 = if flags & 0x04 != 0 {
            p2 + matrix_bytes(data, p2)
        } else {
            p2
        };
        let p4 = if flags & 0x08 != 0 {
            p3 + cxform_bytes(data, p3)
        } else {
            p3
        };
        let p5 = if has_name {
            string_end(data, p4) + 1
        } else {
            p4
        };
        if p1 > data.len() || p2 > data.len() || (has_name && p4 > data.len()) || (flags & 0x10
            != 0 && p5 + 2 > data.len()) {
            None
        } else {
            Some(
                PlaceObjectView {
                    depth: le16(data, p0) as u16,
                    char_id: if has_char {
                        Some(le16(data, p1) as u16)
                    } else {
                        None
                    },
                    name: if has_name {
                        Some(string_at(data, p4))
                    } else {
                        None
                    },
                    moved: flags & 0x01 != 0,
                },
            )
        }
    }
}

/// Decode a top-level placement payload (see `place_object_of`); `None` exactly where the examiner
/// cannot read it.
pub fn decode_place_object(data: &[u8], code: u16) -> (r: Option<PlaceObject>)
    requires
        data@.len() <= isize::MAX,
    ensures
        match r {
            Some(p) => place_object_of(data@, code) == Some(p@),
            None => place_object_of(data@, code) is None,
        },
{
    if data.len() == 0 {
        return None;
    }
    let flags = data[0];
    let mut pos: usize = if code == 70 {
        2
    } else {
        1
    };
    if pos + 2 > data.len() {
        return None;
    }
    let depth = read_u16_le(data, &mut pos);
    let has_char = flags & 0x02 != 0;
    let mut char_id: Option<u16> = None;
    if has_char {
        if pos + 2 > data.len() {
            return None;
        }
        char_id = Some(read_u16_le(data, &mut pos));
    }
    if flags & 0x04 != 0 {
        skip_matrix(data, &mut pos);
    }
    if flags & 0x08 != 0 {
        skip_cxform(data, &mut pos);
    }
    let mut name: Option<String> = None;
    if flags & 0x20 != 0 {
        if pos > data.len() {
            return None;
        }
        proof {
            lemma_string_end(data@, pos as int);
        }
        name = Some(read_string(data, &mut pos));
    }
    if flags & 0x10 != 0 {
        if pos > data.len() || data.len() - pos < 2 {
            return None;
        }
        let _ratio = read_u16_le(data, &mut pos);
    }
    Some(PlaceObject { depth, char_id, name, moved: flags & 0x01 != 0 })
}

/// One row of a sprite's depth table: a depth, a character id (0 when the placement names none or
/// it does not fit) and a name when one is present and starts inside the payload.
pub struct Placement {
    pub depth: u16,
    pub char_id: u16,
    pub name: Option<String>,
}

impl View for Placement {
    type V = (u16, u16, Option<Seq<char>>);

    open spec fn view(&self) -> (u16, u16, Option<Seq<char>>) {
        (self.depth, self.char_id, opt_text(self.name))
    }
}

/// The rows as plain values.
pub open spec fn placements_view(p: Seq<Placement>) -> Seq<(u16, u16, Option<Seq<char>>)> {
    p.map_values(|x: Placement| x@)
}

/// The depth-table row of a non-empty PlaceObject2/PlaceObject3 sub-tag payload; `None` when the
/// depth does not fit, and then the sub-tag is passed over.
pub open spec fn placement_of(data: Seq<u8>, code: u16) -> Option<(u16, u16, Option<Seq<char>>)> {
    let flags = data[0];
    let sp: int = if code == 70 {
        2
    } else {
        1
    };
    if sp + 2 > data.len() {
        None
    } else {
        let s1 = sp + 2;
        let has_char = flags & 0x02 != 0 && s1 + 2 <= data.len();
        let char_id: u16 = if has_char {
            le16(data, s1) as u16
        } else {
            0
        };
        let s2 = if has_char {
            s1 + 2
        } else {
            s1
        };
        let s3 = if flags & 0x04 != 0 {
            s2 + matrix_bytes(data, s2)
        } else {
            s2
        };
        let s4 = if flags & 0x08 != 0 {
            s3 + cxform_bytes(data, s3)
        } else {
            s3
        };
        let name = if flags & 0x20 != 0 && s4 < data.len() {
            Some(string_at(data, s4))
        } else {
            None
        };
        Some((le16(data, sp) as u16, char_id, name))
    }
}

/// Whether a sub-tag is a placement.
pub open spec fn is_placement(code: u16) -> bool {
    code == 26 || code == 70
}

/// The depth table of a sprite's sub-tags: a row for each placement, in order; `None` when a
/// placement sub-tag has an empty payload, which the examiner cannot read.
pub open spec fn placements_from(subs: Seq<TagView>) -> Option<Seq<(u16, u16, Option<Seq<char>>)>>
    decreases subs.len(),
{
    if subs.len() == 0 {
        Some(Seq::empty())
    } else {
        let t = subs[0];
        match placements_from(subs.drop_first()) {
            None => None,
            Some(rest) => {
                if !is_placement(t.0) {
                    Some(rest)
                } else if t.1.len() == 0 {
                    None
                } else {
                    match placement_of(t.1, t.0) {
                        None => Some(rest),
                        Some(row) => Some(seq![row] + rest),
                    }
                }
            },
        }
    }
}

/// A DefineSprite tag's id, frame count and depth table.
pub struct Sprite {
    pub sprite_id: u16,
    pub frame_count: u16,
    pub placements: Vec<Placement>,
}

/// A sprite as plain values.
pub struct SpriteView {
    pub sprite_id: u16,
    pub frame_count: u16,
    pub placements: Seq<(u16, u16, Option<Seq<char>>)>,
}

impl View for Sprite {
    type V = SpriteView;

    open spec fn view(&self) -> SpriteView {
        SpriteView {
            sprite_id: self.sprite_id,
            frame_count: self.frame_count,
            placements: placements_view(self.placements@),
        }
    }
}

/// A DefineSprite payload: the sprite id, the frame count, then a tag stream of its own whose
/// placements make up the depth table. `None` when the payload cannot hold the two words, or a
/// placement sub-tag is empty.
pub open spec fn sprite_of(data: Seq<u8>) -> Option<SpriteView> {
    if data.len() < 4 {
        None
    } else {
        match placements_from(crate::gfx::tag_list(data.subrange(4, data.len() as int))) {
            None => None,
            Some(rows) => Some(
                SpriteView {
                    sprite_id: le16(data, 0) as u16,
                    frame_count: le16(data, 2) as u16,
                    placements: rows,
                },
            ),
        }
    }
}

/// The tag stream inside a sprite, read exactly as the file's own tag stream is.
pub fn parse_sub_tags(data: &[u8]) -> (tags: Vec<Tag>)
    ensures
        crate::gfx::tags_view(tags@) == crate::gfx::tag_list(data@),
{
    GfxFile::parse_tags(data)
}

/// The depth-table row of a placement sub-tag (see `placement_of`).
fn decode_placement(data: &[u8], code: u16) -> (r: Option<Placement>)
    requires
        0 < data@.len() <= isize::MAX,
    ensures
        match r {
            Some(p) => placement_of(data@, code) == Some(p@),
            None => placement_of(data@, code) is None,
        },
{
    let flags = data[0];
    let mut sp: usize = if code == 70 {
        2
    } else {
        1
    };
    if sp + 2 > data.len() {
        return None;
    }
    let depth = read_u16_le(data, &mut sp);
    let mut char_id: u16 = 0;
    if flags & 0x02 != 0 && sp + 2 <= data.len() {
        char_id = read_u16_le(data, &mut sp);
    }
    if flags & 0x04 != 0 {
        skip_matrix(data, &mut sp);
    }
    if flags & 0x08 != 0 {
        skip_cxform(data, &mut sp);
    }
    let mut name: Option<String> = None;
    if flags & 0x20 != 0 && sp < data.len() {
        name = Some(read_string(data, &mut sp));
    }
    Some(Placement { depth, char_id, name })
}

/// Decode a DefineSprite payload (see `sprite_of`); `None` exactly where the examiner cannot read
/// it.
pub fn decode_define_sprite(data: &[u8]) -> (r: Option<Sprite>)
    requires
        data@.len() <= isize::MAX,
    ensures
        match r {
            Some(sp) => sprite_of(data@) == Some(sp@),
            None => sprite_of(data@) is None,
        },
{
    if data.len() < 4 {
        return None;
    }
    let mut pos: usize = 0;
    let sprite_id = read_u16_le(data, &mut pos);
    let frame_count = read_u16_le(data, &mut pos);
    let subs = parse_sub_tags(&data[4..data.len()]);
    let ghost all = crate::gfx::tags_view(subs@);
    proof {
        crate::gfx::lemma_tag_payloads_fit(data@.subrange(4, data@.len() as int), 0);
        let sub = data@.subrange(4, data@.len() as int);
        assert(all == crate::gfx::tags_from(sub, 0));
        assert forall|m: int| 0 <= m < subs@.len() implies #[trigger] subs@[m].data@.len()
            <= data@.len() by {
            assert(all[m] == subs@[m]@);
            assert(crate::gfx::tags_from(sub, 0)[m].1.len() <= sub.len());
        }
    }
    let mut rows: Vec<Placement> = Vec::new();
    let mut k: usize = subs.len();
    // The table is assembled back to front, so that each step matches `placements_from`.
    while k > 0
        invariant
            k <= subs@.len(),
            all == crate::gfx::tags_view(subs@),
            data@.len() >= 4,
            all == crate::gfx::tag_list(data@.subrange(4, data@.len() as int)),
            data@.len() <= isize::MAX,
            placements_from(all.subrange(k as int, all.len() as int)) == Some(
                placements_view(rows@),
            ),
            forall|m: int| 0 <= m < subs@.len() ==> #[trigger] subs@[m].data@.len() <= data@.len(),
        decreases k,
    {
        let ghost tail = all.subrange(k as int, all.len() as int);
        k = k - 1;
        let t = &subs[k];
        let ghost here = all.subrange(k as int, all.len() as int);
        proof {
            assert(here.drop_first() =~= tail);
            assert(here[0] == t@);
            assert(all[k as int] == t@);
        }
        if t.code == 26 || t.code == 70 {
            if t.data.len() == 0 {
                proof {
                    lemma_placements_none_extends(all, k as int);
                    assert(all == crate::gfx::tag_list(data@.subrange(4, data@.len() as int)));
                    assert(sprite_of(data@) is None);
                }
                return None;
            }
            match decode_placement(&t.data, t.code) {
                None => {},
                Some(p) => {
                    let ghost old_rows = rows@;
                    rows.insert(0, p);
                    proof {
                        assert(placements_view(rows@) =~= seq![p@] + placements_view(old_rows));
                    }
                },
            }
        }
    }
    proof {
        assert(all.subrange(0, all.len() as int) =~= all);
    }
    Some(Sprite { sprite_id, frame_count, placements: rows })
}

/// Once a suffix of the sub-tags has no depth table, neither has any longer suffix.
proof fn lemma_placements_none_extends(all: Seq<TagView>, k: int)
    requires
        0 <= k < all.len(),
        is_placement(all[k].0),
        all[k].1.len() == 0,
    ensures
        placements_from(all) is None,
    decreases k,
{
    if k == 0 {
        assert(placements_from(all) is None);
    } else {
        lemma_placements_none_extends(all.drop_first(), k - 1);
    }
}

/// Where reading `n` variable-length integers from `pos` on ends.
pub open spec fn skip_u30s(data: Seq<u8>, pos: int, n: nat) -> int
    decreases n,
{
    if n == 0 {
        pos
    } else {
        skip_u30s(data, u30_end(data, pos), (n - 1) as nat)
    }
}

/// How many entries a constant pool of `count` holds after its implicit entry 0.
pub open spec fn pool_entries(count: u32) -> nat {
    if count == 0 {
        0
    } else {
        (count - 1) as nat
    }
}

/// Where skipping `n` eight-byte doubles from `pos` ends: as many whole doubles as fit.
pub open spec fn doubles_end(data: Seq<u8>, pos: int, n: nat) -> int {
    if pos > data.len() {
        pos
    } else if n <= (data.len() - pos) / 8 {
        pos + 8 * n
    } else {
        pos + 8 * ((data.len() - pos) / 8)
    }
}

/// `n` length-prefixed strings from `pos` on, and where they end; reading stops at a string that
/// would run past the end of the data (its length already read).
pub open spec fn abc_strings_from(data: Seq<u8>, pos: int, n: nat) -> (Seq<Seq<char>>, int)
    decreases n,
{
    if n == 0 {
        (Seq::empty(), pos)
    } else {
        let l = u30_value(data, pos);
        let p1 = u30_end(data, pos);
        if p1 + l > data.len() {
            (Seq::empty(), p1)
        } else {
            let (rest, e) = abc_strings_from(data, p1 + l, (n - 1) as nat);
            (seq![utf8_lossy(data.subrange(p1, p1 + l))] + rest, e)
        }
    }
}

/// The string at `idx` of the pool, or the empty string for an index outside it.
pub open spec fn pool_lookup(strings: Seq<Seq<char>>, idx: int) -> Seq<char> {
    if 0 <= idx < strings.len() {
        strings[idx]
    } else {
        Seq::empty()
    }
}

/// `n` namespaces from `pos` on (a kind byte and a string index each), as the names they refer to,
/// and where they end; reading stops at the end of the data.
pub open spec fn abc_namespaces_from(data: Seq<u8>, strings: Seq<Seq<char>>, pos: int, n: nat) -> (
    Seq<Seq<char>>,
    int,
)
    decreases n,
{
    if n == 0 || pos < 0 || pos >= data.len() {
        (Seq::empty(), pos)
    } else {
        let idx = u30_value(data, pos + 1);
        let p2 = u30_end(data, pos + 1);
        let (rest, e) = abc_namespaces_from(data, strings, p2, (n - 1) as nat);
        (seq![pool_lookup(strings, idx as int)] + rest, e)
    }
}

/// Where `n` namespace sets from `pos` on end: a count each, then that many indices.
pub open spec fn ns_sets_end(data: Seq<u8>, pos: int, n: nat) -> int
    decreases n,
{
    if n == 0 {
        pos
    } else {
        let c = u30_value(data, pos);
        ns_sets_end(data, skip_u30s(data, u30_end(data, pos), c as nat), (n - 1) as nat)
    }
}

/// The multiname whose kind byte is at `pos`, as the name it carries (empty for the kinds that
/// carry none), and where it ends.
pub open spec fn multiname_at(data: Seq<u8>, strings: Seq<Seq<char>>, pos: int) -> (Seq<char>, int) {
    let kind = data[pos];
    let p = pos + 1;
    if kind == 0x07 || kind == 0x0D {
        let p1 = u30_end(data, p);
        (pool_lookup(strings, u30_value(data, p1) as int), u30_end(data, p1))
    } else if kind == 0x0F || kind == 0x10 {
        (pool_lookup(strings, u30_value(data, p) as int), u30_end(data, p))
    } else if kind == 0x09 || kind == 0x0E {
        (pool_lookup(strings, u30_value(data, p) as int), u30_end(data, u30_end(data, p)))
    } else if kind == 0x1B {
        let p1 = u30_end(data, p);
        (Seq::empty(), skip_u30s(data, u30_end(data, p1), u30_value(data, p1) as nat))
    } else if kind == 0x1C || kind == 0x1D {
        (Seq::empty(), u30_end(data, p))
    } else {
        (Seq::empty(), p)
    }
}

/// `n` multinames from `pos` on, and where they end; reading stops at the end of the data.
pub open spec fn abc_multinames_from(data: Seq<u8>, strings: Seq<Seq<char>>, pos: int, n: nat) -> (
    Seq<Seq<char>>,
    int,
)
    decreases n,
{
    if n == 0 || pos < 0 || pos >= data.len() {
        (Seq::empty(), pos)
    } else {
        let (name, p) = multiname_at(data, strings, pos);
        let (rest, e) = abc_multinames_from(data, strings, p, (n - 1) as nat);
        (seq![name] + rest, e)
    }
}

/// The constant pools of an ABC block as the examiner keeps them.
pub struct AbcFile {
    pub strings: Vec<String>,
    pub namespace_strings: Vec<String>,
    pub multinames: Vec<String>,
    pub method_names: Vec<String>,
}

/// The pools of an ABC block read from its data: after the two version words come the integer,
/// unsigned-integer and double pools (skipped), the string pool, the namespaces (as the names they
/// refer to), the namespace sets (skipped) and the multinames (as the names they carry). Each pool
/// declares a count one larger than the entries it stores; entry 0 is the empty string.
pub open spec fn abc_pools(data: Seq<u8>) -> (Seq<Seq<char>>, Seq<Seq<char>>, Seq<Seq<char>>) {
    let p1 = skip_u30s(data, u30_end(data, 4), pool_entries(u30_value(data, 4)));
    let p2 = skip_u30s(data, u30_end(data, p1), pool_entries(u30_value(data, p1)));
    let p3 = doubles_end(data, u30_end(data, p2), pool_entries(u30_value(data, p2)));
    let (ss, p4) = abc_strings_from(data, u30_end(data, p3), pool_entries(u30_value(data, p3)));
    let strings = seq![Seq::<char>::empty()] + ss;
    let (ns, p5) = abc_namespaces_from(
        data,
        strings,
        u30_end(data, p4),
        pool_entries(u30_value(data, p4)),
    );
    let p6 = ns_sets_end(data, u30_end(data, p5), pool_entries(u30_value(data, p5)));
    let (mn, _p7) = abc_multinames_from(
        data,
        strings,
        u30_end(data, p6),
        pool_entries(u30_value(data, p6)),
    );
    (strings, seq![Seq::<char>::empty()] + ns, seq![Seq::<char>::empty()] + mn)
}

/// Reading past the end of the data reads nothing.
proof fn lemma_skip_u30s_at_end(data: Seq<u8>, pos: int, n: nat)
    requires
        pos >= data.len(),
    ensures
        skip_u30s(data, pos, n) == pos,
    decreases n,
{
    if n > 0 {
        assert(u30_end(data, pos) == pos);
        lemma_skip_u30s_at_end(data, pos, (n - 1) as nat);
    }
}

/// Skip `n` variable-length integers (see `skip_u30s`).
fn skip_u30s_exec(data: &[u8], pos: &mut usize, n: u32)
    requires
        *old(pos) <= data@.len(),
    ensures
        *final(pos) == skip_u30s(data@, *old(pos) as int, n as nat),
        *final(pos) <= data@.len(),
{
    let mut left = n;
    let ghost p0 = *pos as int;
    while left > 0 && *pos < data.len()
        invariant
            *pos <= data@.len(),
            left <= n,
            skip_u30s(data@, p0, n as nat) == skip_u30s(data@, *pos as int, left as nat),
        decreases left,
    {
        read_u30(data, pos);
        left = left - 1;
    }
    proof {
        if left > 0 {
            lemma_skip_u30s_at_end(data@, *pos as int, left as nat);
        }
    }
}

/// The number of entries a pool stores, from the count it declares.
fn entries_of(count: u32) -> (n: u32)
    ensures
        n == pool_entries(count),
{
    if count == 0 {
        0
    } else {
        count - 1
    }
}

/// The text of some bytes decoded as UTF-8 (see `crate::gfx::lossy_string`).
fn lossy_range(data: &[u8], start: usize, end: usize) -> (s: String)
    requires
        start <= end <= data@.len(),
    ensures
        s@ == utf8_lossy(data@.subrange(start as int, end as int)),
{
    crate::gfx::lossy_string(&data[start..end])
}

/// Read the string pool's entries (see `abc_strings_from`).
fn read_abc_strings(data: &[u8], pos: &mut usize, n: u32) -> (out: Vec<String>)
    requires
        *old(pos) <= data@.len(),
    ensures
        crate::text::texts(out@) == abc_strings_from(data@, *old(pos) as int, n as nat).0,
        *final(pos) == abc_strings_from(data@, *old(pos) as int, n as nat).1,
        *final(pos) <= data@.len(),
{
    let mut out: Vec<String> = Vec::new();
    let mut left = n;
    let ghost p0 = *pos as int;
    loop
        invariant_except_break
            *pos <= data@.len(),
            left <= n,
            abc_strings_from(data@, p0, n as nat).0 =~= crate::text::texts(out@)
                + abc_strings_from(data@, *pos as int, left as nat).0,
            abc_strings_from(data@, p0, n as nat).1 == abc_strings_from(
                data@,
                *pos as int,
                left as nat,
            ).1,
        ensures
            *pos <= data@.len(),
            abc_strings_from(data@, p0, n as nat).0 =~= crate::text::texts(out@),
            abc_strings_from(data@, p0, n as nat).1 == *pos,
        decreases left,
    {
        if left == 0 {
            break;
        }
        let l = read_u30(data, pos) as usize;
        if l > data.len() - *pos {
            break;
        }
        let s = lossy_range(data, *pos, *pos + l);
        let ghost before = crate::text::texts(out@);
        out.push(s);
        proof {
            assert(crate::text::texts(out@) =~= before.push(s@));
        }
        *pos = *pos + l;
        left = left - 1;
    }
    out
}

/// The pool string at `idx`, or the empty string outside the pool.
fn lookup_string(strings: &Vec<String>, idx: u32) -> (s: String)
    ensures
        s@ == pool_lookup(crate::text::texts(strings@), idx as int),
{
    if (idx as usize) < strings.len() {
        strings[idx as usize].clone()
    } else {
        String::new()
    }
}

/// Read the namespaces (see `abc_namespaces_from`).
fn read_namespaces(data: &[u8], strings: &Vec<String>, pos: &mut usize, n: u32) -> (out: Vec<
    String,
>)
    requires
        *old(pos) <= data@.len(),
    ensures
        crate::text::texts(out@) == abc_namespaces_from(
            data@,
            crate::text::texts(strings@),
            *old(pos) as int,
            n as nat,
        ).0,
        *final(pos) == abc_namespaces_from(
            data@,
            crate::text::texts(strings@),
            *old(pos) as int,
            n as nat,
        ).1,
        *final(pos) <= data@.len(),
{
    let ghost pool = crate::text::texts(strings@);
    let mut out: Vec<String> = Vec::new();
    let mut left = n;
    let ghost p0 = *pos as int;
    while left > 0 && *pos < data.len()
        invariant
            *pos <= data@.len(),
            left <= n,
            pool == crate::text::texts(strings@),
            abc_namespaces_from(data@, pool, p0, n as nat).0 =~= crate::text::texts(out@)
                + abc_namespaces_from(data@, pool, *pos as int, left as nat).0,
            abc_namespaces_from(data@, pool, p0, n as nat).1 == abc_namespaces_from(
                data@,
                pool,
                *pos as int,
                left as nat,
            ).1,
        decreases left,
    {
        *pos = *pos + 1;
        let idx = read_u30(data, pos);
        let name = lookup_string(strings, idx);
        let ghost before = crate::text::texts(out@);
        out.push(name);
        proof {
            assert(crate::text::texts(out@) =~= before.push(name@));
        }
        left = left - 1;
    }
    out
}

/// Skip the namespace sets (see `ns_sets_end`).
fn skip_ns_sets(data: &[u8], pos: &mut usize, n: u32)
    requires
        *old(pos) <= data@.len(),
    ensures
        *final(pos) == ns_sets_end(data@, *old(pos) as int, n as nat),
        *final(pos) <= data@.len(),
{
    let mut left = n;
    let ghost p0 = *pos as int;
    while left > 0 && *pos < data.len()
        invariant
            *pos <= data@.len(),
            left <= n,
            ns_sets_end(data@, p0, n as nat) == ns_sets_end(data@, *pos as int, left as nat),
        decreases left,
    {
        let c = read_u30(data, pos);
        skip_u30s_exec(data, pos, c);
        left = left - 1;
    }
    proof {
        if left > 0 {
            lemma_ns_sets_at_end(data@, *pos as int, left as nat);
        }
    }
}

/// Skipping namespace sets past the end of the data reads nothing.
proof fn lemma_ns_sets_at_end(data: Seq<u8>, pos: int, n: nat)
    requires
        pos >= data.len(),
    ensures
        ns_sets_end(data, pos, n) == pos,
    decreases n,
{
    if n > 0 {
        assert(u30_end(data, pos) == pos);
        lemma_skip_u30s_at_end(data, pos, u30_value(data, pos) as nat);
        lemma_ns_sets_at_end(data, pos, (n - 1) as nat);
    }
}

/// Read the multiname whose kind byte is at `*pos` (see `multiname_at`).
fn read_multiname(data: &[u8], strings: &Vec<String>, pos: &mut usize) -> (name: String)
    requires
        *old(pos) < data@.len(),
    ensures
        name@ == multiname_at(data@, crate::text::texts(strings@), *old(pos) as int).0,
        *final(pos) == multiname_at(data@, crate::text::texts(strings@), *old(pos) as int).1,
        *final(pos) <= data@.len(),
{
    let kind = data[*pos];
    *pos = *pos + 1;
    if kind == 0x07 || kind == 0x0D {
        let _ns = read_u30(data, pos);
        let idx = read_u30(data, pos);
        lookup_string(strings, idx)
    } else if kind == 0x0F || kind == 0x10 {
        let idx = read_u30(data, pos);
        lookup_string(strings, idx)
    } else if kind == 0x11 || kind == 0x12 {
        String::new()
    } else if kind == 0x09 || kind == 0x0E {
        let idx = read_u30(data, pos);
        let _set = read_u30(data, pos);
        lookup_string(strings, idx)
    } else if kind == 0x1B {
        let _name = read_u30(data, pos);
        let params = read_u30(data, pos);
        skip_u30s_exec(data, pos, params);
        String::new()
    } else if kind == 0x1C || kind == 0x1D {
        let _set = read_u30(data, pos);
        String::new()
    } else {
        String::new()
    }
}

/// Read the multinames (see `abc_multinames_from`).
fn read_multinames(data: &[u8], strings: &Vec<String>, pos: &mut usize, n: u32) -> (out: Vec<
    String,
>)
    requires
        *old(pos) <= data@.len(),
    ensures
        crate::text::texts(out@) == abc_multinames_from(
            data@,
            crate::text::texts(strings@),
            *old(pos) as int,
            n as nat,
        ).0,
        *final(pos) <= data@.len(),
{
    let ghost pool = crate::text::texts(strings@);
    let mut out: Vec<String> = Vec::new();
    let mut left = n;
    let ghost p0 = *pos as int;
    while left > 0 && *pos < data.len()
        invariant
            *pos <= data@.len(),
            left <= n,
            pool == crate::text::texts(strings@),
            abc_multinames_from(data@, pool, p0, n as nat).0 =~= crate::text::texts(out@)
                + abc_multinames_from(data@, pool, *pos as int, left as nat).0,
        decreases left,
    {
        let name = read_multiname(data, strings, pos);
        let ghost before = crate::text::texts(out@);
        out.push(name);
        proof {
            assert(crate::text::texts(out@) =~= before.push(name@));
        }
        left = left - 1;
    }
    proof {
        assert(crate::text::texts(out@) + Seq::<Seq<char>>::empty() =~= crate::text::texts(
            out@,
        ));
    }
    out
}

/// The pools with entry 0 in front.
fn with_empty_first(entries: Vec<String>) -> (v: Vec<String>)
    ensures
        crate::text::texts(v@) == seq![Seq::<char>::empty()] + crate::text::texts(entries@),
{
    let mut v: Vec<String> = Vec::new();
    v.push(String::new());
    let mut rest = entries;
    let ghost r = rest@;
    v.append(&mut rest);
    proof {
        assert(crate::text::texts(v@) =~= seq![Seq::<char>::empty()] + crate::text::texts(r));
    }
    v
}

/// Whether `abc` holds the pools of the ABC block `data` (see `abc_pools`), and as its class and
/// method names the distinct non-empty multiname names in increasing `text_lt` order.
pub open spec fn abc_matches(abc: AbcFile, data: Seq<u8>) -> bool {
    let (strings, namespaces, multinames) = abc_pools(data);
    &&& crate::text::texts(abc.strings@) == strings
    &&& crate::text::texts(abc.namespace_strings@) == namespaces
    &&& crate::text::texts(abc.multinames@) == multinames
    &&& crate::text::strictly_sorted(crate::text::texts(abc.method_names@))
    &&& forall|x: Seq<char>|
        crate::text::texts(abc.method_names@).contains(x) <==> (x.len() > 0
            && crate::text::texts(abc.multinames@).contains(x))
}

/// Parse the constant pools of an ABC block (see `abc_pools`), and collect the distinct non-empty
/// multiname names in sorted order as its class and method names. The block must hold the two
/// version words.
pub fn parse_abc(data: &[u8]) -> (abc: AbcFile)
    requires
        4 <= data@.len(),
    ensures
        abc_matches(abc, data@),
{
    let mut pos: usize = 0;
    let _minor = read_u16_le(data, &mut pos);
    let _major = read_u16_le(data, &mut pos);

    let int_count = read_u30(data, &mut pos);
    skip_u30s_exec(data, &mut pos, entries_of(int_count));

    let uint_count = read_u30(data, &mut pos);
    skip_u30s_exec(data, &mut pos, entries_of(uint_count));

    let double_count = read_u30(data, &mut pos);
    let doubles = entries_of(double_count) as usize;
    let room = (data.len() - pos) / 8;
    if doubles <= room {
        pos = pos + 8 * doubles;
    } else {
        pos = pos + 8 * room;
    }

    let string_count = read_u30(data, &mut pos);
    let entries = read_abc_strings(data, &mut pos, entries_of(string_count));
    let strings = with_empty_first(entries);

    let ns_count = read_u30(data, &mut pos);
    let namespaces = read_namespaces(data, &strings, &mut pos, entries_of(ns_count));
    let namespace_strings = with_empty_first(namespaces);

    let ns_set_count = read_u30(data, &mut pos);
    skip_ns_sets(data, &mut pos, entries_of(ns_set_count));

    let multiname_count = read_u30(data, &mut pos);
    let names = read_multinames(data, &strings, &mut pos, entries_of(multiname_count));
    let multinames = with_empty_first(names);

    let _method_count = read_u30(data, &mut pos);

    let method_names = crate::text::sorted_unique_nonempty(&multinames);
    AbcFile { strings, namespace_strings, multinames, method_names }
}

/// A DoABC tag's header and its parsed ABC block, which runs from `abc_start` to the end of the
/// payload.
pub struct DoAbc {
    pub flags: u32,
    pub name: String,
    pub abc_start: usize,
    pub abc: AbcFile,
}

/// Where the ABC block of a DoABC payload starts, past the flags word and the NUL-terminated name;
/// `None` where the examiner cannot read the tag: no room for the flags, a name with no terminator,
/// or a block too short for its version words.
pub open spec fn abc_start_of(data: Seq<u8>) -> Option<int> {
    if data.len() < 4 || string_end(data, 4) >= data.len() || data.len() - (string_end(data, 4)
        + 1) < 4 {
        None
    } else {
        Some(string_end(data, 4) + 1)
    }
}

/// Whether `d` is what a DoABC payload holds (see `abc_start_of`).
pub open spec fn do_abc_matches(d: DoAbc, data: Seq<u8>) -> bool {
    &&& abc_start_of(data) == Some(d.abc_start as int)
    &&& d.flags == le32(data, 0)
    &&& d.name@ == string_at(data, 4)
    &&& abc_matches(d.abc, data.subrange(d.abc_start as int, data.len() as int))
}

/// Decode a DoABC payload; `None` exactly where the examiner cannot read it (see `abc_start_of`).
pub fn decode_do_abc(data: &[u8]) -> (r: Option<DoAbc>)
    requires
        data@.len() <= isize::MAX,
    ensures
        match r {
            Some(d) => do_abc_matches(d, data@),
            None => abc_start_of(data@) is None,
        },
{
    if data.len() < 4 {
        return None;
    }
    let mut pos: usize = 0;
    let flags = read_u32_le(data, &mut pos);
    proof {
        lemma_string_end(data@, 4);
    }
    let name = read_string(data, &mut pos);
    if pos > data.len() || data.len() - pos < 4 {
        return None;
    }
    let abc = parse_abc(&data[pos..data.len()]);
    Some(DoAbc { flags, name, abc_start: pos, abc })
}

/// The number of bytes a character takes in UTF-8.
pub open spec fn utf8_width(c: char) -> int {
    if (c as u32) < 0x80 {
        1
    } else if (c as u32) < 0x800 {
        2
    } else if (c as u32) < 0x10000 {
        3
    } else {
        4
    }
}

/// The number of bytes a text takes in UTF-8.
pub open spec fn utf8_len(s: Seq<char>) -> int
    decreases s.len(),
{
    if s.len() == 0 {
        0
    } else {
        utf8_len(s.drop_last()) + utf8_width(s.last())
    }
}

/// Whether a character is alphabetic (the Unicode `Alphabetic` property).
pub uninterp spec fn char_alphabetic(c: char) -> bool;

/// `char::is_alphabetic`. Claimed: the result is the one named by `char_alphabetic`.
#[verifier::external_body]
fn is_alphabetic(c: char) -> (r: bool)
    ensures
        r == char_alphabetic(c),
{
    c.is_alphabetic()
}

/// How many characters of a text are alphabetic.
pub open spec fn alphabetic_count(s: Seq<char>) -> int
    decreases s.len(),
{
    if s.len() == 0 {
        0
    } else {
        alphabetic_count(s.drop_last()) + if char_alphabetic(s.last()) {
            1int
        } else {
            0int
        }
    }
}

/// Whether a pool string is worth showing, from its UTF-8 length and its count of alphabetic
/// characters: at least four bytes, at least three letters.
pub fn is_interesting(byte_len: usize, alphabetic: usize) -> (r: bool)
    ensures
        r == (byte_len >= 4 && alphabetic >= 3),
{
    byte_len >= 4 && alphabetic >= 3
}

/// Whether a pool text is worth showing (see `is_interesting`).
pub open spec fn interesting_text(s: Seq<char>) -> bool {
    utf8_len(s) >= 4 && alphabetic_count(s) >= 3
}

/// The UTF-8 length and the alphabetic count of a string.
fn measure(s: &String) -> (r: (usize, usize))
    ensures
        r.0 as int == utf8_len(s@) || (r.0 as int >= 4 && utf8_len(s@) >= 4),
        r.1 as int == alphabetic_count(s@) || (r.1 as int >= 3 && alphabetic_count(s@) >= 3),
{
    let cs = crate::text::chars_of(s.as_str());
    let mut bytes: usize = 0;
    let mut letters: usize = 0;
    let mut i: usize = 0;
    while i < cs.len()
        invariant
            i <= cs@.len(),
            cs@ == s@,
            bytes <= 4,
            letters <= 3,
            bytes as int == utf8_len(cs@.take(i as int)) || (bytes == 4 && utf8_len(
                cs@.take(i as int),
            ) >= 4),
            letters as int == alphabetic_count(cs@.take(i as int)) || (letters == 3
                && alphabetic_count(cs@.take(i as int)) >= 3),
        decreases cs@.len() - i,
    {
        let c = cs[i];
        proof {
            assert(cs@.take(i + 1).drop_last() =~= cs@.take(i as int));
            assert(cs@.take(i + 1).last() == c);
        }
        let code = c as u32;
        let w: usize = if code < 0x80 {
            1
        } else if code < 0x800 {
            2
        } else if code < 0x10000 {
            3
        } else {
            4
        };
        proof {
            assert(w == utf8_width(c));
            assert(utf8_len(cs@.take(i + 1)) == utf8_len(cs@.take(i as int)) + w);
        }
        bytes = if bytes + w >= 4 {
            4
        } else {
            bytes + w
        };
        if is_alphabetic(c) && letters < 3 {
            letters = letters + 1;
        }
        i = i + 1;
    }
    proof {
        assert(cs@.take(cs@.len() as int) =~= cs@);
    }
    (bytes, letters)
}

/// The pool strings worth showing, in pool order (see `interesting_text`).
pub fn interesting_strings(strings: &Vec<String>) -> (r: Vec<String>)
    ensures
        crate::text::texts(r@) == crate::text::texts(strings@).filter(
            |s: Seq<char>| interesting_text(s),
        ),
{
    let mut r: Vec<String> = Vec::new();
    let mut k: usize = 0;
    while k < strings.len()
        invariant
            k <= strings@.len(),
            crate::text::texts(r@) == crate::text::texts(strings@).take(k as int).filter(
                |s: Seq<char>| interesting_text(s),
            ),
        decreases strings@.len() - k,
    {
        let s = &strings[k];
        let (b, l) = measure(s);
        let ghost all = crate::text::texts(strings@);
        proof {
            assert(all.take(k + 1).drop_last() =~= all.take(k as int));
            assert(all.take(k + 1).last() == s@);
            reveal(Seq::filter);
            assert(all.take(k + 1) =~= all.take(k as int).push(s@));
        }
        if is_interesting(b, l) {
            let ghost before = crate::text::texts(r@);
            r.push(s.clone());
            proof {
                assert(crate::text::texts(r@) =~= before.push(s@));
            }
        }
        k = k + 1;
    }
    proof {
        assert(crate::text::texts(strings@).take(strings@.len() as int) =~= crate::text::texts(
            strings@,
        ));
    }
    r
}

/// What the examiner reports for one tag.
pub enum TagDump {
    /// A tag the examiner reports nothing for.
    Nothing,
    FileAttributes(FileAttributes),
    SymbolClass(SymbolTable),
    ExportAssets(SymbolTable),
    DoAbc(DoAbc),
    DefineSprite(Sprite),
    SceneLabels(SceneLabels),
    PlaceObject(PlaceObject),
}

/// Whether the examiner can read a tag: the tables need their count, the others what their
/// decoders above need; tags it does not look into are always readable.
pub open spec fn dump_readable(tag: TagView) -> bool {
    let code = tag.0;
    let data = tag.1;
    if code == 76 || code == 56 {
        data.len() >= 2
    } else if code == 78 || code == 82 {
        abc_start_of(data) is Some
    } else if code == 39 {
        sprite_of(data) is Some
    } else if code == 86 {
        scene_labels_of(data) is Some
    } else if code == 26 || code == 70 {
        place_object_of(data, code) is Some
    } else {
        true
    }
}

/// Whether `d` is the report for `tag`: the decoding its code calls for (SymbolClass 76,
/// ExportAssets 56, DoABC 78 and 82, DefineSprite 39, DefineSceneAndFrameLabelData 86,
/// PlaceObject2/3 26 and 70, FileAttributes 69), nothing for other codes.
pub open spec fn dump_matches(tag: TagView, d: TagDump) -> bool {
    let code = tag.0;
    let data = tag.1;
    if code == 76 {
        d matches TagDump::SymbolClass(t) && t.count == le16(data, 0) && entries_view(t.entries@)
            == symbol_entries_from(data, 2, t.count as nat)
    } else if code == 56 {
        d matches TagDump::ExportAssets(t) && t.count == le16(data, 0) && entries_view(t.entries@)
            == symbol_entries_from(data, 2, t.count as nat)
    } else if code == 78 || code == 82 {
        d matches TagDump::DoAbc(a) && do_abc_matches(a, data)
    } else if code == 39 {
        d matches TagDump::DefineSprite(sp) && sprite_of(data) == Some(sp@)
    } else if code == 86 {
        d matches TagDump::SceneLabels(sl) && scene_labels_of(data) == Some(sl@)
    } else if code == 26 || code == 70 {
        d matches TagDump::PlaceObject(p) && place_object_of(data, code) == Some(p@)
    } else if code == 69 {
        match file_attributes_of(data) {
            Some(f) => d matches TagDump::FileAttributes(g) && g == f,
            None => d is Nothing,
        }
    } else {
        d is Nothing
    }
}

/// The report for one tag (see `dump_matches`); `None` exactly where the examiner cannot read it.
pub fn dump_tag(tag: &Tag) -> (r: Option<TagDump>)
    requires
        tag.data@.len() <= isize::MAX,
    ensures
        match r {
            Some(d) => dump_readable(tag@) && dump_matches(tag@, d),
            None => !dump_readable(tag@),
        },
{
    let data = tag.data.as_slice();
    let code = tag.code;
    if code == 76 || code == 56 {
        if data.len() < 2 {
            return None;
        }
        let t = decode_symbol_table(data);
        if code == 76 {
            Some(TagDump::SymbolClass(t))
        } else {
            Some(TagDump::ExportAssets(t))
        }
    } else if code == 78 || code == 82 {
        match decode_do_abc(data) {
            Some(a) => Some(TagDump::DoAbc(a)),
            None => None,
        }
    } else if code == 39 {
        match decode_define_sprite(data) {
            Some(sp) => Some(TagDump::DefineSprite(sp)),
            None => None,
        }
    } else if code == 86 {
        match decode_scene_labels(data) {
            Some(sl) => Some(TagDump::SceneLabels(sl)),
            None => None,
        }
    } else if code == 26 || code == 70 {
        match decode_place_object(data, code) {
            Some(p) => Some(TagDump::PlaceObject(p)),
            None => None,
        }
    } else if code == 69 {
        match decode_file_attributes(data) {
            Some(f) => Some(TagDump::FileAttributes(f)),
            None => Some(TagDump::Nothing),
        }
    } else {
        Some(TagDump::Nothing)
    }
}

/// The report for every tag of a file, in order. Every tag must be readable (see
/// `dump_readable`).
pub fn dump(gfx: &GfxFile) -> (r: Vec<TagDump>)
    requires
        forall|i: int| 0 <= i < gfx.tags@.len() ==> dump_readable(#[trigger] gfx.tags@[i]@),
        forall|i: int| 0 <= i < gfx.tags@.len() ==> #[trigger] gfx.tags@[i].data@.len() <= isize::MAX,
    ensures
        r@.len() == gfx.tags@.len(),
        forall|i: int| 0 <= i < r@.len() ==> dump_matches(gfx.tags@[i]@, #[trigger] r@[i]),
{
    let mut r: Vec<TagDump> = Vec::new();
    let mut i: usize = 0;
    while i < gfx.tags.len()
        invariant
            i <= gfx.tags@.len(),
            r@.len() == i,
            forall|k: int| 0 <= k < gfx.tags@.len() ==> dump_readable(#[trigger] gfx.tags@[k]@),
            forall|k: int|
                0 <= k < gfx.tags@.len() ==> #[trigger] gfx.tags@[k].data@.len() <= isize::MAX,
            forall|k: int| 0 <= k < i ==> dump_matches(gfx.tags@[k]@, #[trigger] r@[k]),
        decreases gfx.tags@.len() - i,
    {
        let tag = &gfx.tags[i];
        proof {
            assert(dump_readable(gfx.tags@[i as int]@));
        }
        match dump_tag(tag) {
            Some(d) => {
                r.push(d);
            },
            None => {
                proof {
                    assert(false);
                }
            },
        }
        i = i + 1;
    }
    r
}

/// One row of the tag inventory: a code, how many tags carry it, and their payload bytes.
#[derive(Debug, Clone, Copy, PartialEq, Eq, Structural)]
pub struct InventoryRow {
    pub code: u16,
    pub count: usize,
    pub total_size: usize,
}

/// The tags that carry `code`.
pub open spec fn tags_with_code(tags: Seq<TagView>, code: u16) -> Seq<TagView> {
    tags.filter(|t: TagView| t.0 == code)
}

/// Whether some row is for `c`.
pub open spec fn has_code_row(rows: Seq<InventoryRow>, c: u16) -> bool {
    exists|i: int| 0 <= i < rows.len() && #[trigger] rows[i].code == c
}

/// Whether some tag carries `c`.
pub open spec fn code_occurs(tags: Seq<TagView>, c: u16) -> bool {
    exists|k: int| 0 <= k < tags.len() && #[trigger] tags[k].0 == c
}

/// Whether `rows` is the inventory of `tags`: one row per code that occurs, in increasing code
/// order, each with the number of tags of that code and their payload bytes added up.
pub open spec fn is_inventory(rows: Seq<InventoryRow>, tags: Seq<TagView>) -> bool {
    &&& forall|i: int, j: int| 0 <= i < j < rows.len() ==> #[trigger] rows[i].code < #[trigger] rows[j].code
    &&& forall|c: u16| #[trigger] has_code_row(rows, c) <==> code_occurs(tags, c)
    &&& forall|i: int|
        0 <= i < rows.len() ==> #[trigger] rows[i].count == tags_with_code(tags, rows[i].code).len()
            && rows[i].total_size == crate::gfx::payload_total(tags_with_code(tags, rows[i].code))
}

proof fn lemma_payload_total_push(s: Seq<TagView>, t: TagView)
    ensures
        crate::gfx::payload_total(s.push(t)) == crate::gfx::payload_total(s) + t.1.len(),
    decreases s.len(),
{
    let p = s.push(t);
    if s.len() > 0 {
        lemma_payload_total_push(s.drop_first(), t);
        assert(p.drop_first() =~= s.drop_first().push(t));
        assert(p[0] == s[0]);
        assert(crate::gfx::payload_total(p) == p[0].1.len() + crate::gfx::payload_total(
            p.drop_first(),
        ));
        assert(crate::gfx::payload_total(s) == s[0].1.len() + crate::gfx::payload_total(
            s.drop_first(),
        ));
    } else {
        assert(p.drop_first() =~= Seq::<TagView>::empty());
        assert(p[0] == t);
        assert(crate::gfx::payload_total(p) == p[0].1.len() + crate::gfx::payload_total(
            p.drop_first(),
        ));
        assert(crate::gfx::payload_total(Seq::<TagView>::empty()) == 0);
        assert(s =~= Seq::<TagView>::empty());
    }
}

proof fn lemma_filter_total_le(s: Seq<TagView>, code: u16)
    ensures
        crate::gfx::payload_total(tags_with_code(s, code)) <= crate::gfx::payload_total(s),
        tags_with_code(s, code).len() <= s.len(),
    decreases s.len(),
{
    reveal(Seq::filter);
    if s.len() > 0 {
        lemma_filter_total_le(s.drop_last(), code);
        lemma_payload_total_push(s.drop_last(), s.last());
        assert(s.drop_last().push(s.last()) =~= s);
        if s.last().0 == code {
            lemma_payload_total_push(tags_with_code(s.drop_last(), code), s.last());
        }
    }
}

proof fn lemma_payload_total_nonneg(s: Seq<TagView>)
    ensures
        crate::gfx::payload_total(s) >= 0,
    decreases s.len(),
{
    if s.len() > 0 {
        lemma_payload_total_nonneg(s.drop_first());
    }
}

/// The tag inventory of a file's tags (see `is_inventory`).
#[verifier::spinoff_prover]
pub fn tag_inventory(tags: &Vec<Tag>) -> (rows: Vec<InventoryRow>)
    requires
        crate::gfx::payload_total(crate::gfx::tags_view(tags@)) <= usize::MAX,
    ensures
        is_inventory(rows@, crate::gfx::tags_view(tags@)),
{
    let ghost all = crate::gfx::tags_view(tags@);
    let mut rows: Vec<InventoryRow> = Vec::new();
    let mut k: usize = 0;
    while k < tags.len()
        invariant
            k <= tags@.len(),
            all == crate::gfx::tags_view(tags@),
            crate::gfx::payload_total(all) <= usize::MAX,
            is_inventory(rows@, all.take(k as int)),
        decreases tags@.len() - k,
    {
        let t = &tags[k];
        let ghost pre = all.take(k as int);
        let ghost next = all.take(k + 1);
        proof {
            reveal(Seq::filter);
            assert(next.drop_last() =~= pre);
            assert(next.last() == t@);
            assert(next =~= pre.push(t@));
            assert forall|c: u16| #[trigger] tags_with_code(next, c) == if c == t.code {
                tags_with_code(pre, c).push(t@)
            } else {
                tags_with_code(pre, c)
            } by {
                assert(next.drop_last() =~= pre);
            }
            lemma_filter_total_le(next, t.code);
            lemma_payload_total_push(tags_with_code(pre, t.code), t@);
            assert(all =~= next + all.skip(k + 1));
            lemma_prefix_total_le(next, all.skip(k + 1));
        }
        let mut i: usize = 0;
        while i < rows.len() && rows[i].code < t.code
            invariant
                i <= rows@.len(),
                forall|m: int| 0 <= m < i ==> #[trigger] rows@[m].code < t.code,
            decreases rows@.len() - i,
        {
            i = i + 1;
        }
        let ghost before = rows@;
        if i < rows.len() && rows[i].code == t.code {
            let row = rows[i];
            proof {
                assert(row.count == tags_with_code(pre, t.code).len());
                assert(tags_with_code(next, t.code).len() <= next.len());
            }
            let updated = InventoryRow {
                code: row.code,
                count: row.count + 1,
                total_size: row.total_size + t.data.len(),
            };
            rows.set(i, updated);
            proof {
                assert forall|c: u16| #[trigger] has_code_row(rows@, c) <==> code_occurs(next, c) by {
                    if code_occurs(next, c) {
                        let q = choose|q: int| 0 <= q < next.len() && #[trigger] next[q].0 == c;
                        if q < pre.len() {
                            assert(pre[q].0 == c);
                            assert(code_occurs(pre, c));
                            assert(has_code_row(before, c));
                            let m = choose|m: int| 0 <= m < before.len() && #[trigger] before[m].code == c;
                            assert(rows@[m].code == c);
                        } else {
                            assert(rows@[i as int].code == c);
                        }
                    }
                    if has_code_row(rows@, c) {
                        let m = choose|m: int| 0 <= m < rows@.len() && #[trigger] rows@[m].code == c;
                        assert(before[m].code == c);
                        assert(has_code_row(before, c));
                        let q = choose|q: int| 0 <= q < pre.len() && #[trigger] pre[q].0 == c;
                        assert(next[q].0 == c);
                    }
                }
            }
        } else {
            proof {
                assert(tags_with_code(pre, t.code).len() == 0) by {
                    if tags_with_code(pre, t.code).len() > 0 {
                        lemma_filter_nonempty_occurs(pre, t.code);
                        assert(code_occurs(pre, t.code));
                        assert(has_code_row(before, t.code));
                        let m = choose|m: int| 0 <= m < before.len() && #[trigger] before[m].code == t.code;
                        if m < i {
                        } else if m > i {
                            assert(before[i as int].code < before[m].code);
                        }
                    }
                }
                assert(tags_with_code(pre, t.code) =~= Seq::<TagView>::empty());
                assert(crate::gfx::payload_total(Seq::<TagView>::empty().push(t@)) == t.data@.len())
                    by {
                    lemma_payload_total_push(Seq::<TagView>::empty(), t@);
                }
            }
            rows.insert(i, InventoryRow { code: t.code, count: 1, total_size: t.data.len() });
            proof {
                let now = rows@;
                assert forall|a: int, b: int| 0 <= a < b < now.len() implies #[trigger] now[a].code
                    < #[trigger] now[b].code by {
                    if a < i && b == i {
                    } else if a == i && b > i {
                        assert(now[b] == before[b - 1]);
                    } else if a < i && b > i {
                        assert(now[b] == before[b - 1]);
                    } else if a > i {
                        assert(now[a] == before[a - 1]);
                        assert(now[b] == before[b - 1]);
                    }
                }
                assert forall|c: u16| #[trigger] has_code_row(now, c) <==> code_occurs(next, c) by {
                    if code_occurs(next, c) {
                        let q = choose|q: int| 0 <= q < next.len() && #[trigger] next[q].0 == c;
                        if q < pre.len() {
                            assert(pre[q].0 == c);
                            assert(code_occurs(pre, c));
                            assert(has_code_row(before, c));
                            let m = choose|m: int| 0 <= m < before.len() && #[trigger] before[m].code == c;
                            if m < i {
                                assert(now[m].code == c);
                            } else {
                                assert(now[m + 1].code == c);
                            }
                        } else {
                            assert(now[i as int].code == c);
                        }
                    }
                    if has_code_row(now, c) {
                        let m = choose|m: int| 0 <= m < now.len() && #[trigger] now[m].code == c;
                        if m == i {
                            assert(next[k as int].0 == c);
                        } else {
                            let mm = if m < i {
                                m
                            } else {
                                m - 1
                            };
                            assert(before[mm].code == c);
                            assert(has_code_row(before, c));
                            let q = choose|q: int| 0 <= q < pre.len() && #[trigger] pre[q].0 == c;
                            assert(next[q].0 == c);
                        }
                    }
                }
                assert forall|a: int| 0 <= a < now.len() implies #[trigger] now[a].count
                    == tags_with_code(next, now[a].code).len() && now[a].total_size
                    == crate::gfx::payload_total(tags_with_code(next, now[a].code)) by {
                    if a < i {
                        assert(now[a] == before[a]);
                        assert(before[a].code < t.code);
                        assert(tags_with_code(next, before[a].code) == tags_with_code(pre, before[a].code));
                        assert(before[a].count == tags_with_code(pre, before[a].code).len());
                    } else if a > i {
                        assert(now[a] == before[a - 1]);
                        assert(before[i as int].code > t.code);
                        if a - 1 > i {
                            assert(before[i as int].code < before[a - 1].code);
                        }
                        assert(tags_with_code(next, before[a - 1].code) == tags_with_code(
                            pre,
                            before[a - 1].code,
                        ));
                        assert(before[a - 1].count == tags_with_code(pre, before[a - 1].code).len());
                    } else {
                        assert(tags_with_code(next, t.code) == tags_with_code(pre, t.code).push(t@));
                        assert(tags_with_code(next, t.code) =~= Seq::<TagView>::empty().push(t@));
                    }
                }
            }
        }
        k = k + 1;
    }
    proof {
        assert(all.take(tags@.len() as int) =~= all);
    }
    rows
}

proof fn lemma_filter_nonempty_occurs(s: Seq<TagView>, code: u16)
    ensures
        tags_with_code(s, code).len() > 0 ==> code_occurs(s, code),
    decreases s.len(),
{
    reveal(Seq::filter);
    if s.len() > 0 {
        lemma_filter_nonempty_occurs(s.drop_last(), code);
        if s.last().0 == code {
            assert(s[s.len() - 1].0 == code);
        } else if code_occurs(s.drop_last(), code) {
            let q = choose|q: int| 0 <= q < s.drop_last().len() && #[trigger] s.drop_last()[q].0 == code;
            assert(s[q].0 == code);
        }
    }
}

proof fn lemma_prefix_total_le(a: Seq<TagView>, b: Seq<TagView>)
    ensures
        crate::gfx::payload_total(a) <= crate::gfx::payload_total(a + b),
    decreases a.len(),
{
    if a.len() > 0 {
        lemma_prefix_total_le(a.drop_first(), b);
        assert((a + b).drop_first() =~= a.drop_first() + b);
    } else {
        assert(a + b =~= b);
        lemma_payload_total_nonneg(b);
    }
}

} // verus!
