//! Parsing of the map-head / map-data file pair: the map-head file holds a
//! 2-byte RLEW sentinel and up to 100 little-endian level pointers; the
//! map-data file holds, per level, a 38-byte header (three plane offsets and
//! lengths, the tile dimensions and a zero-padded name) followed by
//! Carmack-then-RLEW coded plane bytes.

use vstd::prelude::*;
use vstd::slice::{slice_subrange, slice_to_vec};

use crate::codec::{
    carmack_decode, carmack_decompress, rlew_decode, rlew_decompress, word_at, AssetError,
};

verus! {

/// The 32-bit value stored little-endian at byte offset `i`.
pub open spec fn u32_at(data: Seq<u8>, i: int) -> int {
    data[i] + 256 * data[i + 1] + 65536 * data[i + 2] + 16777216 * data[i + 3]
}

/// Reads the little-endian 16-bit word at byte offset `i`.
pub fn read_u16(data: &[u8], i: usize) -> (r: u16)
    requires
        i + 2 <= data@.len(),
    ensures
        r == word_at(data@, i as int),
{
    data[i] as u16 + 256 * (data[i + 1] as u16)
}

/// Reads the little-endian 32-bit value at byte offset `i`.
pub fn read_u32(data: &[u8], i: usize) -> (r: u32)
    requires
        i + 4 <= data@.len(),
    ensures
        r == u32_at(data@, i as int),
{
    data[i] as u32 + 256 * (data[i + 1] as u32) + 65536 * (data[i + 2] as u32) + 16777216 * (data[i
        + 3] as u32)
}

/// `s` with its trailing zero bytes removed.
pub open spec fn trim_zeros(s: Seq<u8>) -> Seq<u8>
    decreases s.len(),
{
    if s.len() == 0 {
        s
    } else if s[s.len() - 1] == 0 {
        trim_zeros(s.drop_last())
    } else {
        s
    }
}

fn trim_trailing_zeros(v: &[u8]) -> (r: Vec<u8>)
    ensures
        r@ == trim_zeros(v@),
{
    let mut end: usize = v.len();
    proof {
        assert(v@.take(v@.len() as int) =~= v@);
    }
    while end > 0 && v[end - 1] == 0
        invariant
            end <= v@.len(),
            trim_zeros(v@) == trim_zeros(v@.take(end as int)),
        decreases end,
    {
        proof {
            assert(v@.take(end as int).drop_last() =~= v@.take(end as int - 1));
        }
        end = end - 1;
    }
    proof {
        if end > 0 {
            assert(trim_zeros(v@.take(end as int)) == v@.take(end as int));
        } else {
            assert(v@.take(0) =~= Seq::<u8>::empty());
        }
    }
    slice_to_vec(slice_subrange(v, 0, end))
}

/// The header of the map-head file: the RLEW sentinel, the level pointers
/// that are present (positive in the file's signed 32-bit encoding), and the
/// trailing title bytes.
#[derive(Debug, Clone)]
pub struct MapHead {
    pub magic: [u8; 2],
    pub pointers: Vec<u32>,
    pub title: Vec<u8>,
}

/// The level pointers read from the map-head file, 4 bytes each starting at
/// offset 2, scanning record `k` up to (excluding) `keep`: a pointer is kept
/// exactly when its signed 32-bit value is positive, that is when the stored
/// value lies strictly between 0 and 0x8000_0000.
pub open spec fn head_pointers(data: Seq<u8>, k: int, keep: int) -> Seq<u32>
    decreases keep - k,
{
    if k < 0 || k >= keep {
        Seq::empty()
    } else {
        let v = u32_at(data, 2 + 4 * k);
        if 0 < v < 0x8000_0000 {
            seq![v as u32] + head_pointers(data, k + 1, keep)
        } else {
            head_pointers(data, k + 1, keep)
        }
    }
}

/// How many pointer records are scanned: the caller's limit (100 when none
/// is given), capped at the 99 full records the 400-byte pointer area holds.
pub open spec fn keep_count(keep_n_first: Option<usize>) -> int {
    let keep: int = match keep_n_first {
        Some(k) => k as int,
        None => 100,
    };
    if keep > 99 {
        99
    } else {
        keep
    }
}

/// Parses the map-head file: the 2-byte sentinel, then up to `keep_n_first`
/// (at most 99) pointer records of which the positive ones are kept, then
/// the title bytes. A file shorter than its fixed 402-byte prefix is
/// rejected.
pub fn parse_map_head(data: &[u8], keep_n_first: Option<usize>) -> (r: Result<MapHead, AssetError>)
    ensures
        match r {
            Ok(h) => data@.len() >= 402 && h.magic@ == data@.subrange(0, 2) && h.pointers@
                == head_pointers(data@, 0, keep_count(keep_n_first)) && h.title@ == data@.skip(402),
            Err(e) => data@.len() < 402 && e == AssetError::OutOfBounds,
        },
{
    if data.len() < 402 {
        return Err(AssetError::OutOfBounds);
    }
    let magic: [u8; 2] = [data[0], data[1]];
    let keep: usize = match keep_n_first {
        Some(k) => k,
        None => 100,
    };
    let keep_eff: usize = if keep > 99 {
        99
    } else {
        keep
    };
    let mut pointers: Vec<u32> = Vec::new();
    let mut k: usize = 0;
    while k < keep_eff
        invariant
            keep_eff <= 99,
            k <= keep_eff,
            data@.len() >= 402,
            head_pointers(data@, 0, keep_eff as int) == pointers@ + head_pointers(
                data@,
                k as int,
                keep_eff as int,
            ),
        decreases keep_eff - k,
    {
        let v = read_u32(data, 2 + 4 * k);
        let ghost prev = pointers@;
        if 0 < v && v < 0x8000_0000 {
            pointers.push(v);
            proof {
                assert(pointers@ + head_pointers(data@, k as int + 1, keep_eff as int) =~= prev + (
                seq![v] + head_pointers(data@, k as int + 1, keep_eff as int)));
            }
        }
        k = k + 1;
    }
    proof {
        assert(head_pointers(data@, keep_eff as int, keep_eff as int) =~= Seq::<u32>::empty());
        assert(pointers@ + Seq::<u32>::empty() =~= pointers@);
        assert(magic@ =~= data@.subrange(0, 2));
    }
    let title = slice_to_vec(slice_subrange(data, 402, data.len()));
    Ok(MapHead { magic, pointers, title })
}

/// What decoding one plane yields: `None` for an absent plane (offset zero,
/// or negative in the file's signed encoding), the Carmack-then-RLEW decoded
/// bytes otherwise. The plane's declared byte range must lie inside the
/// file, the Carmack stream must be well formed, and the Carmack output must
/// hold the 4-byte expanded-length prefix that is skipped before the RLEW
/// pass.
pub open spec fn plane_spec(data: Seq<u8>, offset: int, length: int, m0: u8, m1: u8) -> Result<
    Option<Seq<u8>>,
    AssetError,
> {
    if offset == 0 || offset >= 0x8000_0000 {
        Ok(None)
    } else if offset + length > data.len() {
        Err(AssetError::OutOfBounds)
    } else {
        match carmack_decode(data.subrange(offset, offset + length), 0, Seq::empty()) {
            Err(e) => Err(e),
            Ok(dec) => if dec.len() < 4 {
                Err(AssetError::ShortPlane)
            } else {
                Ok(Some(rlew_decode(dec.skip(4), m0, m1, 0)))
            },
        }
    }
}

/// Decodes one compressed plane of a level: Carmack expansion of the
/// declared byte range, then RLEW expansion of everything after the 4-byte
/// expanded-length prefix. An absent plane (offset zero or negative in the
/// file's signed encoding) yields `None`.
pub fn get_plane(data: &[u8], offset: u32, length: u16, magic: &[u8; 2]) -> (r: Result<
    Option<Vec<u8>>,
    AssetError,
>)
    ensures
        match r {
            Ok(Some(v)) => plane_spec(data@, offset as int, length as int, magic@[0], magic@[1])
                == Ok::<Option<Seq<u8>>, AssetError>(Some(v@)),
            Ok(None) => plane_spec(data@, offset as int, length as int, magic@[0], magic@[1])
                == Ok::<Option<Seq<u8>>, AssetError>(None),
            Err(e) => plane_spec(data@, offset as int, length as int, magic@[0], magic@[1])
                == Err::<Option<Seq<u8>>, AssetError>(e),
        },
{
    if offset == 0 || offset >= 0x8000_0000 {
        return Ok(None);
    }
    let start = offset as usize;
    if length as usize > data.len() || start > data.len() - (length as usize) {
        return Err(AssetError::OutOfBounds);
    }
    let compressed = slice_subrange(data, start, start + length as usize);
    let dec = match carmack_decompress(compressed) {
        Ok(d) => d,
        Err(e) => {
            return Err(e);
        },
    };
    if dec.len() < 4 {
        return Err(AssetError::ShortPlane);
    }
    let body = slice_subrange(dec.as_slice(), 4, dec.len());
    Ok(Some(rlew_decompress(body, magic)))
}

/// One parsed level: the decoded planes that are present, the declared tile
/// dimensions and the level name with its zero padding removed.
#[derive(Debug, Clone)]
pub struct LevelMap {
    pub plane0: Option<Vec<u8>>,
    pub plane1: Option<Vec<u8>>,
    pub plane2: Option<Vec<u8>>,
    pub width_n_tiles: u16,
    pub height_n_tiles: u16,
    pub name: Vec<u8>,
}

/// The mathematical image of a parsed level.
pub struct LevelRec {
    pub plane0: Option<Seq<u8>>,
    pub plane1: Option<Seq<u8>>,
    pub plane2: Option<Seq<u8>>,
    pub width_n_tiles: u16,
    pub height_n_tiles: u16,
    pub name: Seq<u8>,
}

impl LevelMap {
    /// The level as its mathematical image.
    pub open spec fn rec(&self) -> LevelRec {
        LevelRec {
            plane0: match self.plane0 {
                Some(v) => Some(v@),
                None => None,
            },
            plane1: match self.plane1 {
                Some(v) => Some(v@),
                None => None,
            },
            plane2: match self.plane2 {
                Some(v) => Some(v@),
                None => None,
            },
            width_n_tiles: self.width_n_tiles,
            height_n_tiles: self.height_n_tiles,
            name: self.name@,
        }
    }
}

/// A 38-byte level header: three plane offsets (read as the unsigned image
/// of the file's signed 32-bit values), three plane lengths, the tile
/// dimensions, and the zero-padded name.
#[derive(Debug, Clone)]
pub struct MapLevelHeader {
    pub offset_plane0: u32,
    pub offset_plane1: u32,
    pub offset_plane2: u32,
    pub length_plane0: u16,
    pub length_plane1: u16,
    pub length_plane2: u16,
    pub width_n_tiles: u16,
    pub height_n_tiles: u16,
    pub name: Vec<u8>,
}

impl MapLevelHeader {
    /// Reads the fixed 38-byte level header.
    pub fn new(header_data: &[u8]) -> (h: Self)
        requires
            header_data@.len() == 38,
        ensures
            h.offset_plane0 == u32_at(header_data@, 0),
            h.offset_plane1 == u32_at(header_data@, 4),
            h.offset_plane2 == u32_at(header_data@, 8),
            h.length_plane0 == word_at(header_data@, 12),
            h.length_plane1 == word_at(header_data@, 14),
            h.length_plane2 == word_at(header_data@, 16),
            h.width_n_tiles == word_at(header_data@, 18),
            h.height_n_tiles == word_at(header_data@, 20),
            h.name@ == trim_zeros(header_data@.skip(22)),
    {
        MapLevelHeader {
            offset_plane0: read_u32(header_data, 0),
            offset_plane1: read_u32(header_data, 4),
            offset_plane2: read_u32(header_data, 8),
            length_plane0: read_u16(header_data, 12),
            length_plane1: read_u16(header_data, 14),
            length_plane2: read_u16(header_data, 16),
            width_n_tiles: read_u16(header_data, 18),
            height_n_tiles: read_u16(header_data, 20),
            name: trim_trailing_zeros(slice_subrange(header_data, 22, 38)),
        }
    }
}

/// The level stored at pointer `ptr` of the map-data file: its header read
/// from the 38 bytes there, and its three planes decoded per [`plane_spec`].
pub open spec fn level_spec(data: Seq<u8>, ptr: u32, m0: u8, m1: u8) -> Result<
    LevelRec,
    AssetError,
> {
    if ptr + 38 > data.len() {
        Err(AssetError::OutOfBounds)
    } else {
        let p = ptr as int;
        match plane_spec(data, u32_at(data, p), word_at(data, p + 12), m0, m1) {
            Err(e) => Err(e),
            Ok(plane0) => match plane_spec(data, u32_at(data, p + 4), word_at(data, p + 14), m0, m1) {
                Err(e) => Err(e),
                Ok(plane1) => match plane_spec(
                    data,
                    u32_at(data, p + 8),
                    word_at(data, p + 16),
                    m0,
                    m1,
                ) {
                    Err(e) => Err(e),
                    Ok(plane2) => Ok(
                        LevelRec {
                            plane0,
                            plane1,
                            plane2,
                            width_n_tiles: word_at(data, p + 18) as u16,
                            height_n_tiles: word_at(data, p + 20) as u16,
                            name: trim_zeros(data.subrange(p + 22, p + 38)),
                        },
                    ),
                },
            },
        }
    }
}

/// Prefixes `prefix` onto the payload of a successful level parse.
pub open spec fn prepend_levels(prefix: Seq<LevelRec>, r: Result<Seq<LevelRec>, AssetError>) -> Result<
    Seq<LevelRec>,
    AssetError,
> {
    match r {
        Ok(rest) => Ok(prefix + rest),
        Err(e) => Err(e),
    }
}

/// The levels of the map-data file at the given pointers, in order; the
/// first malformed level aborts the parse.
pub open spec fn parse_levels_spec(data: Seq<u8>, ptrs: Seq<u32>, m0: u8, m1: u8) -> Result<
    Seq<LevelRec>,
    AssetError,
>
    decreases ptrs.len(),
{
    if ptrs.len() == 0 {
        Ok(Seq::empty())
    } else {
        match level_spec(data, ptrs[0], m0, m1) {
            Err(e) => Err(e),
            Ok(l) => prepend_levels(seq![l], parse_levels_spec(data, ptrs.skip(1), m0, m1)),
        }
    }
}

/// Parses every level the map-head points at from the map-data bytes.
pub fn parse_map_data(data: &[u8], meta: &MapHead) -> (r: Result<Vec<LevelMap>, AssetError>)
    ensures
        match r {
            Ok(v) => parse_levels_spec(data@, meta.pointers@, meta.magic@[0], meta.magic@[1]) == Ok::<
                Seq<LevelRec>,
                AssetError,
            >(Seq::new(v@.len(), |i: int| v@[i].rec())),
            Err(e) => parse_levels_spec(data@, meta.pointers@, meta.magic@[0], meta.magic@[1])
                == Err::<Seq<LevelRec>, AssetError>(e),
        },
{
    let ghost m0 = meta.magic@[0];
    let ghost m1 = meta.magic@[1];
    let mut maps: Vec<LevelMap> = Vec::new();
    let n = meta.pointers.len();
    let mut k: usize = 0;
    proof {
        assert(meta.pointers@.skip(0) =~= meta.pointers@);
        match parse_levels_spec(data@, meta.pointers@, m0, m1) {
            Ok(rest) => {
                assert(Seq::new(maps@.len(), |i: int| maps@[i].rec()) + rest =~= rest);
            },
            Err(_) => {},
        }
    }
    while k < n
        invariant
            n == meta.pointers@.len(),
            k <= n,
            m0 == meta.magic@[0],
            m1 == meta.magic@[1],
            parse_levels_spec(data@, meta.pointers@, m0, m1) == prepend_levels(
                Seq::new(maps@.len(), |i: int| maps@[i].rec()),
                parse_levels_spec(data@, meta.pointers@.skip(k as int), m0, m1),
            ),
        decreases n - k,
    {
        let ghost ptrs_rest = meta.pointers@.skip(k as int);
        proof {
            assert(ptrs_rest[0] == meta.pointers@[k as int]);
            assert(ptrs_rest.skip(1) =~= meta.pointers@.skip(k as int + 1));
        }
        let ptr = meta.pointers[k];
        let level = match parse_one_level(data, ptr, &meta.magic) {
            Ok(l) => l,
            Err(e) => {
                return Err(e);
            },
        };
        let ghost prev = Seq::new(maps@.len(), |i: int| maps@[i].rec());
        maps.push(level);
        proof {
            let cur = Seq::new(maps@.len(), |i: int| maps@[i].rec());
            assert(cur =~= prev + seq![maps@[maps@.len() - 1].rec()]);
            match parse_levels_spec(data@, meta.pointers@.skip(k as int + 1), m0, m1) {
                Ok(rest) => {
                    assert(cur + rest =~= prev + (seq![maps@[maps@.len() - 1].rec()] + rest));
                },
                Err(_) => {},
            }
        }
        k = k + 1;
    }
    proof {
        assert(meta.pointers@.skip(n as int) =~= Seq::<u32>::empty());
        let cur = Seq::new(maps@.len(), |i: int| maps@[i].rec());
        assert(cur + Seq::<LevelRec>::empty() =~= cur);
    }
    Ok(maps)
}

/// Reads the header at `ptr` and decodes the level's three planes.
#[verifier::rlimit(100)]
fn parse_one_level(data: &[u8], ptr: u32, magic: &[u8; 2]) -> (r: Result<LevelMap, AssetError>)
    ensures
        match r {
            Ok(l) => level_spec(data@, ptr, magic@[0], magic@[1]) == Ok::<LevelRec, AssetError>(
                l.rec(),
            ),
            Err(e) => level_spec(data@, ptr, magic@[0], magic@[1]) == Err::<LevelRec, AssetError>(
                e,
            ),
        },
{
    if data.len() < 38 || ptr as usize > data.len() - 38 {
        return Err(AssetError::OutOfBounds);
    }
    let p = ptr as usize;
    let header = MapLevelHeader::new(slice_subrange(data, p, p + 38));
    proof {
        let sub = data@.subrange(p as int, p as int + 38);
        assert(u32_at(sub, 0) == u32_at(data@, p as int));
        assert(u32_at(sub, 4) == u32_at(data@, p as int + 4));
        assert(u32_at(sub, 8) == u32_at(data@, p as int + 8));
        assert(word_at(sub, 12) == word_at(data@, p as int + 12));
        assert(word_at(sub, 14) == word_at(data@, p as int + 14));
        assert(word_at(sub, 16) == word_at(data@, p as int + 16));
        assert(word_at(sub, 18) == word_at(data@, p as int + 18));
        assert(word_at(sub, 20) == word_at(data@, p as int + 20));
        assert(sub.skip(22) =~= data@.subrange(p as int + 22, p as int + 38));
    }
    let plane0 = match get_plane(data, header.offset_plane0, header.length_plane0, magic) {
        Ok(p0) => p0,
        Err(e) => {
            return Err(e);
        },
    };
    let plane1 = match get_plane(data, header.offset_plane1, header.length_plane1, magic) {
        Ok(p1) => p1,
        Err(e) => {
            return Err(e);
        },
    };
    let plane2 = match get_plane(data, header.offset_plane2, header.length_plane2, magic) {
        Ok(p2) => p2,
        Err(e) => {
            return Err(e);
        },
    };
    Ok(
        LevelMap {
            plane0,
            plane1,
            plane2,
            width_n_tiles: header.width_n_tiles,
            height_n_tiles: header.height_n_tiles,
            name: header.name,
        },
    )
}

/// The whole map-loading pipeline over the two files' bytes: the sentinel
/// and pointers from the map-head file, then every pointed-at level parsed
/// from the map-data file.
pub open spec fn load_maps_spec(maphead: Seq<u8>, gamemaps: Seq<u8>, keep: int) -> Result<
    Seq<LevelRec>,
    AssetError,
> {
    if maphead.len() < 402 {
        Err(AssetError::OutOfBounds)
    } else {
        parse_levels_spec(gamemaps, head_pointers(maphead, 0, keep), maphead[0], maphead[1])
    }
}

/// Loads every level from the bytes of a map-head / map-data file pair,
/// keeping at most the first `keep_n_first` pointer records (all 99 full
/// records when none is given).
pub fn load_maps(maphead: &[u8], gamemaps: &[u8], keep_n_first: Option<usize>) -> (r: Result<
    Vec<LevelMap>,
    AssetError,
>)
    ensures
        match r {
            Ok(v) => load_maps_spec(maphead@, gamemaps@, keep_count(keep_n_first)) == Ok::<
                Seq<LevelRec>,
                AssetError,
            >(Seq::new(v@.len(), |i: int| v@[i].rec())),
            Err(e) => load_maps_spec(maphead@, gamemaps@, keep_count(keep_n_first)) == Err::<
                Seq<LevelRec>,
                AssetError,
            >(e),
        },
{
    let meta = match parse_map_head(maphead, keep_n_first) {
        Ok(h) => h,
        Err(e) => {
            return Err(e);
        },
    };
    proof {
        assert(meta.magic@[0] == maphead@[0]);
        assert(meta.magic@[1] == maphead@[1]);
    }
    parse_map_data(gamemaps, &meta)
}

} // verus!
