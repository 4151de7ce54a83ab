//! The asset cache: decodes the Huffman dictionary, the chunk-offset
//! headers and the graphics archive into pictures, splits the page archive
//! into wall textures, compiled sprites and sounds, and loads the tile maps
//! from the map-file pair. Loading is all or nothing: the first malformed
//! asset aborts with an error.

use vstd::prelude::*;
use vstd::slice::{slice_subrange, slice_to_vec};

use crate::codec::{carmack_decode, carmack_decompress, huff_decode, huff_expand, rlew_decode,
    rlew_decompress, stream_bits, word_at, AssetError};
use crate::levels::{head_pointers, parse_map_head, read_u16, read_u32, trim_zeros, u32_at,
    MapLevelHeader};
use crate::tilemap::{TileMap, TileRec};

verus! {

/// Number of pictures in the graphics archive.
pub const NUMPICS: usize = 144;

/// Index of the first picture chunk in the graphics archive.
pub const STARTPICS: usize = 3;

/// How many level pointers the map-head file is scanned for.
pub const NUM_MAPS: usize = 60;

/// A decoded picture: dimensions in pixels and the color-index bytes in the
/// archive's 4-column interleaved planar layout.
#[derive(Debug, Clone)]
pub struct Picture {
    pub width: u32,
    pub height: u32,
    pub data: Vec<u8>,
}

/// The mathematical image of a decoded picture.
pub struct PicRec {
    pub width: int,
    pub height: int,
    pub data: Seq<u8>,
}

impl Picture {
    /// The picture as its mathematical image.
    pub open spec fn rec(&self) -> PicRec {
        PicRec { width: self.width as int, height: self.height as int, data: self.data@ }
    }
}

/// The Huffman dictionary file as (left, right) node-value pairs: one pair
/// per full 4-byte record, each value little-endian.
pub open spec fn dict_spec(data: Seq<u8>) -> Seq<(u16, u16)> {
    Seq::new(
        data.len() / 4,
        |k: int| (word_at(data, 4 * k) as u16, word_at(data, 4 * k + 2) as u16),
    )
}

/// Parses the Huffman dictionary file into node-value pairs.
pub fn parse_dict(data: &[u8]) -> (r: Vec<(u16, u16)>)
    ensures
        r@ == dict_spec(data@),
{
    let n = data.len() / 4;
    let mut huff: Vec<(u16, u16)> = Vec::new();
    let mut k: usize = 0;
    while k < n
        invariant
            n == data@.len() / 4,
            data@.len() <= usize::MAX,
            k <= n,
            huff@.len() == k,
            forall|j: int| 0 <= j < k ==> huff@[j] == dict_spec(data@)[j],
        decreases n - k,
    {
        let b0 = data[4 * k] as u16 + 256 * (data[4 * k + 1] as u16);
        let b1 = data[4 * k + 2] as u16 + 256 * (data[4 * k + 3] as u16);
        huff.push((b0, b1));
        k = k + 1;
    }
    proof {
        assert(huff@ =~= dict_spec(data@));
    }
    huff
}

/// The chunk-offset header file as 32-bit offsets: one offset per full
/// 3-byte little-endian record, widened with a zero high byte.
pub open spec fn headers_spec(data: Seq<u8>) -> Seq<u32> {
    Seq::new(
        data.len() / 3,
        |k: int| (data[3 * k] + 256 * data[3 * k + 1] + 65536 * data[3 * k + 2]) as u32,
    )
}

/// Parses the chunk-offset header file into 32-bit chunk offsets.
pub fn parse_headers(data: &[u8]) -> (r: Vec<u32>)
    ensures
        r@ == headers_spec(data@),
{
    let n = data.len() / 3;
    let mut headers: Vec<u32> = Vec::new();
    let mut k: usize = 0;
    while k < n
        invariant
            n == data@.len() / 3,
            data@.len() <= usize::MAX,
            k <= n,
            headers@.len() == k,
            forall|j: int| 0 <= j < k ==> headers@[j] == headers_spec(data@)[j],
        decreases n - k,
    {
        let v = data[3 * k] as u32 + 256 * (data[3 * k + 1] as u32) + 65536 * (data[3 * k + 2]
            as u32);
        headers.push(v);
        k = k + 1;
    }
    proof {
        assert(headers@ =~= headers_spec(data@));
    }
    headers
}

/// The Huffman expansion of graphics chunk `chunk`: its byte range runs from
/// its header offset to the next chunk's, the first 4 bytes of the range
/// declare the expanded length, and the rest is the Huffman-coded payload.
pub open spec fn graphic_spec(source: Seq<u8>, headers: Seq<u32>, huff: Seq<(u16, u16)>, chunk: int) -> Result<
    Seq<u8>,
    AssetError,
> {
    if chunk < 0 || chunk + 1 >= headers.len() {
        Err(AssetError::OutOfBounds)
    } else {
        let pos = headers[chunk] as int;
        let end = headers[chunk + 1] as int;
        if !(pos + 4 <= end && end <= source.len()) {
            Err(AssetError::OutOfBounds)
        } else {
            huff_decode(
                huff,
                stream_bits(source.subrange(pos + 4, end)),
                254,
                u32_at(source, pos) as nat,
            )
        }
    }
}

/// Decodes graphics chunk `chunk`: reads its range from the chunk-offset
/// headers, the expanded length from the 4-byte prefix of that range, and
/// Huffman-expands the rest.
pub fn load_graphic(source: &[u8], headers: &Vec<u32>, huff: &Vec<(u16, u16)>, chunk: usize) -> (r:
    Result<Vec<u8>, AssetError>)
    ensures
        match r {
            Ok(v) => graphic_spec(source@, headers@, huff@, chunk as int) == Ok::<
                Seq<u8>,
                AssetError,
            >(v@),
            Err(e) => graphic_spec(source@, headers@, huff@, chunk as int) == Err::<
                Seq<u8>,
                AssetError,
            >(e),
        },
{
    if headers.len() == 0 || chunk >= headers.len() - 1 {
        return Err(AssetError::OutOfBounds);
    }
    let pos64 = headers[chunk] as u64;
    let end64 = headers[chunk + 1] as u64;
    if !(pos64 + 4 <= end64 && end64 <= source.len() as u64) {
        return Err(AssetError::OutOfBounds);
    }
    let pos = pos64 as usize;
    let end = end64 as usize;
    let length = u32_at_exec(source, pos);
    huff_expand(huff, slice_subrange(source, pos + 4, end), length as usize)
}

fn u32_at_exec(data: &[u8], i: usize) -> (r: u32)
    requires
        i + 4 <= data@.len(),
    ensures
        r == u32_at(data@, i as int),
{
    data[i] as u32 + 256 * (data[i + 1] as u32) + 65536 * (data[i + 2] as u32) + 16777216 * (data[i
        + 3] as u32)
}

/// The Huffman-decoded picture directory: 4 bytes per picture record —
/// width and height, little-endian — decoded from the sub-chunk between
/// byte 4 and the second header offset.
pub open spec fn pictable_spec(graph: Seq<u8>, headers: Seq<u32>, huff: Seq<(u16, u16)>) -> Result<
    Seq<u8>,
    AssetError,
> {
    if headers.len() < 2 {
        Err(AssetError::OutOfBounds)
    } else if headers[1] < 4 || headers[1] > graph.len() {
        Err(AssetError::OutOfBounds)
    } else {
        huff_decode(huff, stream_bits(graph.subrange(4, headers[1] as int)), 254, 588)
    }
}

/// The pictures of the graphics archive, chunks 3 through 146: each takes
/// its width and height from the picture directory and its pixel bytes from
/// its own Huffman-decoded chunk.
pub open spec fn pics_from(
    graph: Seq<u8>,
    headers: Seq<u32>,
    huff: Seq<(u16, u16)>,
    pictable: Seq<u8>,
    chunk: int,
) -> Result<Seq<PicRec>, AssetError>
    decreases 147 - chunk,
{
    if chunk < 3 || chunk >= 147 {
        Ok(Seq::empty())
    } else {
        match graphic_spec(graph, headers, huff, chunk) {
            Err(e) => Err(e),
            Ok(data) => match pics_from(graph, headers, huff, pictable, chunk + 1) {
                Err(e) => Err(e),
                Ok(rest) => Ok(
                    seq![
                        PicRec {
                            width: word_at(pictable, (chunk - 3) * 4),
                            height: word_at(pictable, (chunk - 3) * 4 + 2),
                            data: data,
                        },
                    ] + rest,
                ),
            },
        }
    }
}

/// The whole picture-loading stage: the picture directory, then one picture
/// per chunk.
pub open spec fn pics_spec(graph: Seq<u8>, headers: Seq<u32>, huff: Seq<(u16, u16)>) -> Result<
    Seq<PicRec>,
    AssetError,
> {
    match pictable_spec(graph, headers, huff) {
        Err(e) => Err(e),
        Ok(pictable) => pics_from(graph, headers, huff, pictable, 3),
    }
}

/// Decodes the picture directory and all 144 pictures of the graphics
/// archive.
pub fn load_pictures(graph: &[u8], headers: &Vec<u32>, huff: &Vec<(u16, u16)>) -> (r: Result<
    Vec<Picture>,
    AssetError,
>)
    ensures
        match r {
            Ok(v) => pics_spec(graph@, headers@, huff@) == Ok::<Seq<PicRec>, AssetError>(
                Seq::new(v@.len(), |i: int| v@[i].rec()),
            ),
            Err(e) => pics_spec(graph@, headers@, huff@) == Err::<Seq<PicRec>, AssetError>(e),
        },
{
    if headers.len() < 2 {
        return Err(AssetError::OutOfBounds);
    }
    let a64 = headers[1] as u64;
    if a64 < 4 || a64 > graph.len() as u64 {
        return Err(AssetError::OutOfBounds);
    }
    let a = a64 as usize;
    let pictable = match huff_expand(huff, slice_subrange(graph, 4, a), 588) {
        Ok(p) => p,
        Err(e) => {
            return Err(e);
        },
    };
    let mut pics: Vec<Picture> = Vec::new();
    let mut chunk: usize = 3;
    proof {
        match pics_from(graph@, headers@, huff@, pictable@, 3) {
            Ok(rest) => {
                assert(Seq::new(pics@.len(), |i: int| pics@[i].rec()) + rest =~= rest);
            },
            Err(_) => {},
        }
    }
    while chunk < 147
        invariant
            3 <= chunk <= 147,
            pictable@.len() == 588,
            pictable_spec(graph@, headers@, huff@) == Ok::<Seq<u8>, AssetError>(pictable@),
            pics_from(graph@, headers@, huff@, pictable@, 3) == (match pics_from(
                graph@,
                headers@,
                huff@,
                pictable@,
                chunk as int,
            ) {
                Ok(rest) => Ok::<Seq<PicRec>, AssetError>(
                    Seq::new(pics@.len(), |i: int| pics@[i].rec()) + rest,
                ),
                Err(e) => Err::<Seq<PicRec>, AssetError>(e),
            }),
        decreases 147 - chunk,
    {
        let i = (chunk - 3) * 4;
        let width = pictable[i] as u16 + 256 * (pictable[i + 1] as u16);
        let height = pictable[i + 2] as u16 + 256 * (pictable[i + 3] as u16);
        let data = match load_graphic(graph, headers, huff, chunk) {
            Ok(d) => d,
            Err(e) => {
                return Err(e);
            },
        };
        let ghost prev = Seq::new(pics@.len(), |i: int| pics@[i].rec());
        pics.push(Picture { width: width as u32, height: height as u32, data });
        proof {
            let cur = Seq::new(pics@.len(), |i: int| pics@[i].rec());
            assert(cur =~= prev + seq![pics@[pics@.len() - 1].rec()]);
            match pics_from(graph@, headers@, huff@, pictable@, chunk as int + 1) {
                Ok(rest) => {
                    assert(cur + rest =~= prev + (seq![pics@[pics@.len() - 1].rec()] + rest));
                },
                Err(_) => {},
            }
        }
        chunk = chunk + 1;
    }
    proof {
        let cur = Seq::new(pics@.len(), |i: int| pics@[i].rec());
        assert(cur + Seq::<PicRec>::empty() =~= cur);
    }
    Ok(pics)
}

/// The fixed 132-byte header of a compiled sprite page: the visible column
/// bounds and 64 per-column data offsets into the page's own bytes.
#[derive(Debug, Clone)]
pub struct CompShape {
    pub left_pix: u16,
    pub right_pix: u16,
    pub dataofs: Vec<u16>,
}

/// The mathematical image of a compiled sprite page: its parsed header and
/// its raw bytes.
pub struct ShapeRec {
    pub left_pix: u16,
    pub right_pix: u16,
    pub dataofs: Seq<u16>,
    pub data: Seq<u8>,
}

/// The mathematical image of the split page archive.
pub struct PagesRec {
    pub textures: Seq<Seq<u8>>,
    pub sprites: Seq<ShapeRec>,
    pub sounds: Seq<Seq<u8>>,
}

/// A sprite pair as its mathematical image.
pub open spec fn sprite_rec(p: (CompShape, Vec<u8>)) -> ShapeRec {
    ShapeRec {
        left_pix: p.0.left_pix,
        right_pix: p.0.right_pix,
        dataofs: p.0.dataofs@,
        data: p.1@,
    }
}

/// The sprite header parsed from a page's bytes: column bounds at offsets 0
/// and 2, then 64 data offsets.
pub open spec fn shape_of(value: Seq<u8>) -> ShapeRec {
    ShapeRec {
        left_pix: word_at(value, 0) as u16,
        right_pix: word_at(value, 2) as u16,
        dataofs: Seq::new(64, |t: int| word_at(value, 4 + 2 * t) as u16),
        data: value,
    }
}

/// Offset of page `i` in the archive's offset table.
pub open spec fn page_offset(vswap: Seq<u8>, i: int) -> int {
    u32_at(vswap, 6 + 4 * i)
}

/// Declared length of page `i` in the archive's length table.
pub open spec fn page_length(vswap: Seq<u8>, nchunks: int, i: int) -> int {
    word_at(vswap, 6 + 4 * (nchunks + 1) + 2 * i)
}

/// The pages of the archive from index `i` up to the last one before the
/// final page, split into the three categories: pages below `sprite_start`
/// are wall textures, pages below `sound_start` compiled sprites (empty
/// sprite pages are dropped, and one shorter than its fixed 132-byte header
/// is malformed), the rest sound clips. A page with offset zero is sparse
/// and skipped; a page's end is the next page's offset, or its own offset
/// plus its declared length when that is zero. A page whose range leaves
/// the file is malformed.
pub open spec fn pages_from(
    vswap: Seq<u8>,
    nchunks: int,
    sprite_start: int,
    sound_start: int,
    i: int,
) -> Result<PagesRec, AssetError>
    decreases nchunks - 1 - i,
{
    if i < 0 || i >= nchunks - 1 {
        Ok(PagesRec { textures: Seq::empty(), sprites: Seq::empty(), sounds: Seq::empty() })
    } else {
        let off = page_offset(vswap, i);
        if off == 0 {
            pages_from(vswap, nchunks, sprite_start, sound_start, i + 1)
        } else {
            let next_off = page_offset(vswap, i + 1);
            let vend = if next_off == 0 {
                off + page_length(vswap, nchunks, i)
            } else {
                next_off
            };
            if !(off <= vend && vend <= vswap.len()) {
                Err(AssetError::OutOfBounds)
            } else {
                let value = vswap.subrange(off, vend);
                if i < sprite_start {
                    match pages_from(vswap, nchunks, sprite_start, sound_start, i + 1) {
                        Err(e) => Err(e),
                        Ok(rest) => Ok(
                            PagesRec {
                                textures: seq![value] + rest.textures,
                                sprites: rest.sprites,
                                sounds: rest.sounds,
                            },
                        ),
                    }
                } else if i < sound_start {
                    if value.len() == 0 {
                        pages_from(vswap, nchunks, sprite_start, sound_start, i + 1)
                    } else if value.len() < 132 {
                        Err(AssetError::ShortSprite)
                    } else {
                        match pages_from(vswap, nchunks, sprite_start, sound_start, i + 1) {
                            Err(e) => Err(e),
                            Ok(rest) => Ok(
                                PagesRec {
                                    textures: rest.textures,
                                    sprites: seq![shape_of(value)] + rest.sprites,
                                    sounds: rest.sounds,
                                },
                            ),
                        }
                    }
                } else {
                    match pages_from(vswap, nchunks, sprite_start, sound_start, i + 1) {
                        Err(e) => Err(e),
                        Ok(rest) => Ok(
                            PagesRec {
                                textures: rest.textures,
                                sprites: rest.sprites,
                                sounds: seq![value] + rest.sounds,
                            },
                        ),
                    }
                }
            }
        }
    }
}

/// The whole page-archive stage: the 6-byte header (page count and the two
/// category boundaries), the offset and length tables, then every page
/// split per [`pages_from`]. An archive too short for its tables, or with
/// no pages at all, is malformed.
pub open spec fn pages_spec(vswap: Seq<u8>) -> Result<PagesRec, AssetError> {
    if vswap.len() < 6 {
        Err(AssetError::OutOfBounds)
    } else {
        let nchunks = word_at(vswap, 0);
        if nchunks < 1 || 6 + 4 * (nchunks + 1) + 2 * nchunks > vswap.len() {
            Err(AssetError::OutOfBounds)
        } else {
            pages_from(vswap, nchunks, word_at(vswap, 2), word_at(vswap, 4), 0)
        }
    }
}

/// Parses the 132-byte sprite header at the start of `value`.
fn parse_shape(value: &[u8]) -> (s: CompShape)
    requires
        value@.len() >= 132,
    ensures
        s.left_pix == word_at(value@, 0),
        s.right_pix == word_at(value@, 2),
        s.dataofs@ == shape_of(value@).dataofs,
{
    let left_pix = read_u16(value, 0);
    let right_pix = read_u16(value, 2);
    let mut dataofs: Vec<u16> = Vec::new();
    let mut t: usize = 0;
    while t < 64
        invariant
            value@.len() >= 132,
            t <= 64,
            dataofs@.len() == t,
            forall|j: int| 0 <= j < t ==> dataofs@[j] == word_at(value@, 4 + 2 * j),
        decreases 64 - t,
    {
        let w = read_u16(value, 4 + 2 * t);
        dataofs.push(w);
        t = t + 1;
    }
    proof {
        assert(dataofs@ =~= shape_of(value@).dataofs);
    }
    CompShape { left_pix, right_pix, dataofs }
}

/// Splits the page archive into wall textures, compiled sprites and sound
/// clips, per the two category boundaries of its header. Sparse pages are
/// skipped; a page whose declared range leaves the file, or a sprite page
/// shorter than its header, aborts with an error.
#[verifier::rlimit(100)]
pub fn split_pages(vswap: &[u8]) -> (r: Result<
    (Vec<Vec<u8>>, Vec<(CompShape, Vec<u8>)>, Vec<Vec<u8>>),
    AssetError,
>)
    ensures
        match r {
            Ok(t) => pages_spec(vswap@) == Ok::<PagesRec, AssetError>(
                PagesRec {
                    textures: Seq::new(t.0@.len(), |i: int| t.0@[i]@),
                    sprites: Seq::new(t.1@.len(), |i: int| sprite_rec(t.1@[i])),
                    sounds: Seq::new(t.2@.len(), |i: int| t.2@[i]@),
                },
            ),
            Err(e) => pages_spec(vswap@) == Err::<PagesRec, AssetError>(e),
        },
{
    if vswap.len() < 6 {
        return Err(AssetError::OutOfBounds);
    }
    let nchunks = read_u16(vswap, 0) as usize;
    let sprite_start = read_u16(vswap, 2) as usize;
    let sound_start = read_u16(vswap, 4) as usize;
    if nchunks < 1 || vswap.len() < 6 + 4 * (nchunks + 1) + 2 * nchunks {
        return Err(AssetError::OutOfBounds);
    }
    let ghost n_int = nchunks as int;
    let mut textures: Vec<Vec<u8>> = Vec::new();
    let mut sprites: Vec<(CompShape, Vec<u8>)> = Vec::new();
    let mut sounds: Vec<Vec<u8>> = Vec::new();
    let mut i: usize = 0;
    proof {
        match pages_from(vswap@, n_int, sprite_start as int, sound_start as int, 0) {
            Ok(rest) => {
                assert(Seq::new(textures@.len(), |j: int| textures@[j]@) + rest.textures
                    =~= rest.textures);
                assert(Seq::new(sprites@.len(), |j: int| sprite_rec(sprites@[j])) + rest.sprites
                    =~= rest.sprites);
                assert(Seq::new(sounds@.len(), |j: int| sounds@[j]@) + rest.sounds =~= rest.sounds);
            },
            Err(_) => {},
        }
    }
    while i < nchunks - 1
        invariant
            n_int == nchunks,
            1 <= nchunks <= 65535,
            i <= nchunks - 1,
            vswap@.len() >= 6 + 4 * (n_int + 1) + 2 * n_int,
            word_at(vswap@, 0) == n_int,
            sprite_start as int == word_at(vswap@, 2),
            sound_start as int == word_at(vswap@, 4),
            match pages_from(vswap@, n_int, sprite_start as int, sound_start as int, i as int) {
                Ok(rest) => pages_from(vswap@, n_int, sprite_start as int, sound_start as int, 0)
                    == Ok::<PagesRec, AssetError>(
                    PagesRec {
                        textures: Seq::new(textures@.len(), |j: int| textures@[j]@) + rest.textures,
                        sprites: Seq::new(sprites@.len(), |j: int| sprite_rec(sprites@[j]))
                            + rest.sprites,
                        sounds: Seq::new(sounds@.len(), |j: int| sounds@[j]@) + rest.sounds,
                    },
                ),
                Err(e) => pages_from(vswap@, n_int, sprite_start as int, sound_start as int, 0)
                    == Err::<PagesRec, AssetError>(e),
            },
        decreases nchunks - 1 - i,
    {
        let off64 = read_u32(vswap, 6 + 4 * i) as u64;
        if off64 != 0 {
            let next64 = read_u32(vswap, 6 + 4 * (i + 1)) as u64;
            let vend64: u64 = if next64 == 0 {
                off64 + read_u16(vswap, 6 + 4 * (nchunks + 1) + 2 * i) as u64
            } else {
                next64
            };
            if !(off64 <= vend64 && vend64 <= vswap.len() as u64) {
                return Err(AssetError::OutOfBounds);
            }
            let off = off64 as usize;
            let vend = vend64 as usize;
            let value = slice_subrange(vswap, off, vend);
            let ghost value_s = vswap@.subrange(off as int, vend as int);
            let ghost tex_prev = Seq::new(textures@.len(), |j: int| textures@[j]@);
            let ghost spr_prev = Seq::new(sprites@.len(), |j: int| sprite_rec(sprites@[j]));
            let ghost snd_prev = Seq::new(sounds@.len(), |j: int| sounds@[j]@);
            if i < sprite_start {
                textures.push(slice_to_vec(value));
                proof {
                    let cur = Seq::new(textures@.len(), |j: int| textures@[j]@);
                    assert(cur =~= tex_prev + seq![value_s]);
                    match pages_from(
                        vswap@,
                        n_int,
                        sprite_start as int,
                        sound_start as int,
                        i as int + 1,
                    ) {
                        Ok(rest) => {
                            assert(cur + rest.textures =~= tex_prev + (seq![value_s]
                                + rest.textures));
                        },
                        Err(_) => {},
                    }
                }
            } else if i < sound_start {
                if value.len() > 0 {
                    if value.len() < 132 {
                        return Err(AssetError::ShortSprite);
                    }
                    let shape = parse_shape(value);
                    sprites.push((shape, slice_to_vec(value)));
                    proof {
                        let cur = Seq::new(sprites@.len(), |j: int| sprite_rec(sprites@[j]));
                        assert(sprite_rec(sprites@[sprites@.len() - 1]) == shape_of(value_s));
                        assert(cur =~= spr_prev + seq![shape_of(value_s)]);
                        match pages_from(
                            vswap@,
                            n_int,
                            sprite_start as int,
                            sound_start as int,
                            i as int + 1,
                        ) {
                            Ok(rest) => {
                                assert(cur + rest.sprites =~= spr_prev + (seq![shape_of(value_s)]
                                    + rest.sprites));
                            },
                            Err(_) => {},
                        }
                    }
                }
            } else {
                sounds.push(slice_to_vec(value));
                proof {
                    let cur = Seq::new(sounds@.len(), |j: int| sounds@[j]@);
                    assert(cur =~= snd_prev + seq![value_s]);
                    match pages_from(
                        vswap@,
                        n_int,
                        sprite_start as int,
                        sound_start as int,
                        i as int + 1,
                    ) {
                        Ok(rest) => {
                            assert(cur + rest.sounds =~= snd_prev + (seq![value_s] + rest.sounds));
                        },
                        Err(_) => {},
                    }
                }
            }
        }
        i = i + 1;
    }
    proof {
        let tex = Seq::new(textures@.len(), |j: int| textures@[j]@);
        let spr = Seq::new(sprites@.len(), |j: int| sprite_rec(sprites@[j]));
        let snd = Seq::new(sounds@.len(), |j: int| sounds@[j]@);
        assert(tex + Seq::<Seq<u8>>::empty() =~= tex);
        assert(spr + Seq::<ShapeRec>::empty() =~= spr);
        assert(snd + Seq::<Seq<u8>>::empty() =~= snd);
    }
    Ok((textures, sprites, sounds))
}


/// The 16-bit word of grid cell (x, y) within a decoded plane's bytes: the
/// plane stores its words row by row of constant y, so cell (x, y) is word
/// number y * 64 + x.
pub open spec fn grid_word(bytes: Seq<u8>, x: int, y: int) -> u16 {
    word_at(bytes, 2 * (y * 64 + x)) as u16
}

/// A decoded plane reshaped into the flat 64-by-64 grid with cell (x, y) at
/// index x * 64 + y.
pub open spec fn grid_of(bytes: Seq<u8>) -> Seq<u16> {
    Seq::new(4096, |j: int| grid_word(bytes, j / 64, j % 64))
}

/// The decoded words of one plane of a level: the declared byte range
/// Carmack-expanded, the 4-byte expanded-length prefix dropped, the rest
/// RLEW-expanded against the map-head sentinel. An offset that is negative
/// in the file's signed encoding, or a range that leaves the file, is
/// malformed; the offset is not tested against zero here — the caller skips
/// a level whose first plane offset is zero.
pub open spec fn cache_plane_spec(data: Seq<u8>, offset: int, length: int, m0: u8, m1: u8) -> Result<
    Seq<u8>,
    AssetError,
> {
    if offset >= 0x8000_0000 {
        Err(AssetError::OutOfBounds)
    } else if offset + length > data.len() {
        Err(AssetError::OutOfBounds)
    } else {
        match carmack_decode(data.subrange(offset, offset + length), 0, Seq::empty()) {
            Err(e) => Err(e),
            Ok(dec) => if dec.len() < 4 {
                Err(AssetError::ShortPlane)
            } else {
                Ok(rlew_decode(dec.skip(4), m0, m1, 0))
            },
        }
    }
}

/// One plane decoded and reshaped into the grid; a plane with fewer than
/// the grid's 4096 words is malformed.
pub open spec fn grid_spec(data: Seq<u8>, offset: int, length: int, m0: u8, m1: u8) -> Result<
    Seq<u16>,
    AssetError,
> {
    match cache_plane_spec(data, offset, length, m0, m1) {
        Err(e) => Err(e),
        Ok(words) => if words.len() < 8192 {
            Err(AssetError::ShortPlane)
        } else {
            Ok(grid_of(words))
        },
    }
}

/// The level at pointer `ptr` as a tile map: `None` for a sparse level
/// (plane-0 offset zero); an error for declared dimensions other than 64 by
/// 64; otherwise the first two planes decoded into grids and the name with
/// its zero padding removed. The third plane is unused and left undecoded.
pub open spec fn tilemap_spec(data: Seq<u8>, ptr: u32, m0: u8, m1: u8) -> Result<
    Option<TileRec>,
    AssetError,
> {
    if ptr + 38 > data.len() {
        Err(AssetError::OutOfBounds)
    } else {
        let p = ptr as int;
        if u32_at(data, p) == 0 {
            Ok(None)
        } else if word_at(data, p + 18) != 64 || word_at(data, p + 20) != 64 {
            Err(AssetError::BadDimensions)
        } else {
            match grid_spec(data, u32_at(data, p), word_at(data, p + 12), m0, m1) {
                Err(e) => Err(e),
                Ok(g0) => match grid_spec(data, u32_at(data, p + 4), word_at(data, p + 14), m0, m1) {
                    Err(e) => Err(e),
                    Ok(g1) => Ok(
                        Some(
                            TileRec {
                                plane0: g0,
                                plane1: g1,
                                name: trim_zeros(data.subrange(p + 22, p + 38)),
                            },
                        ),
                    ),
                },
            }
        }
    }
}

/// The tile maps of the levels at the given pointers, in order, sparse
/// levels skipped; the first malformed level aborts.
pub open spec fn tilemaps_from(data: Seq<u8>, ptrs: Seq<u32>, m0: u8, m1: u8) -> Result<
    Seq<TileRec>,
    AssetError,
>
    decreases ptrs.len(),
{
    if ptrs.len() == 0 {
        Ok(Seq::empty())
    } else {
        match tilemap_spec(data, ptrs[0], m0, m1) {
            Err(e) => Err(e),
            Ok(opt) => match tilemaps_from(data, ptrs.skip(1), m0, m1) {
                Err(e) => Err(e),
                Ok(rest) => match opt {
                    Some(t) => Ok(seq![t] + rest),
                    None => Ok(rest),
                },
            },
        }
    }
}

/// The whole map stage over the bytes of the map-head / map-data file pair,
/// scanning the first 60 pointer records.
pub open spec fn tilemaps_spec(maphead: Seq<u8>, gamemaps: Seq<u8>) -> Result<
    Seq<TileRec>,
    AssetError,
> {
    if maphead.len() < 402 {
        Err(AssetError::OutOfBounds)
    } else {
        tilemaps_from(gamemaps, head_pointers(maphead, 0, 60), maphead[0], maphead[1])
    }
}

/// Decodes one plane's words: Carmack expansion of the declared range, the
/// 4-byte prefix dropped, then RLEW expansion.
fn decode_plane_words(data: &[u8], offset: u32, length: u16, magic: &[u8; 2]) -> (r: Result<
    Vec<u8>,
    AssetError,
>)
    ensures
        match r {
            Ok(v) => cache_plane_spec(data@, offset as int, length as int, magic@[0], magic@[1])
                == Ok::<Seq<u8>, AssetError>(v@),
            Err(e) => cache_plane_spec(data@, offset as int, length as int, magic@[0], magic@[1])
                == Err::<Seq<u8>, AssetError>(e),
        },
{
    if offset >= 0x8000_0000 {
        return Err(AssetError::OutOfBounds);
    }
    if length as usize > data.len() || offset as usize > data.len() - length as usize {
        return Err(AssetError::OutOfBounds);
    }
    let start = offset as usize;
    let compressed = slice_subrange(data, start, start + length as usize);
    let dec = match carmack_decompress(compressed) {
        Ok(d) => d,
        Err(e) => {
            return Err(e);
        },
    };
    if dec.len() < 4 {
        return Err(AssetError::ShortPlane);
    }
    Ok(rlew_decompress(slice_subrange(dec.as_slice(), 4, dec.len()), magic))
}

/// Reshapes a decoded plane into the flat 64-by-64 grid.
fn plane_to_grid(words: &Vec<u8>) -> (r: Result<Vec<u16>, AssetError>)
    ensures
        match r {
            Ok(g) => words@.len() >= 8192 && g@ == grid_of(words@),
            Err(e) => words@.len() < 8192 && e == AssetError::ShortPlane,
        },
{
    if words.len() < 8192 {
        return Err(AssetError::ShortPlane);
    }
    let mut g: Vec<u16> = Vec::new();
    let mut j: usize = 0;
    while j < 4096
        invariant
            words@.len() >= 8192,
            j <= 4096,
            g@.len() == j,
            forall|t: int| 0 <= t < j ==> g@[t] == grid_word(words@, t / 64, t % 64),
        decreases 4096 - j,
    {
        let x = j / 64;
        let y = j % 64;
        let w = read_u16(words.as_slice(), 2 * (y * 64 + x));
        g.push(w);
        j = j + 1;
    }
    proof {
        assert(g@ =~= grid_of(words@));
    }
    Ok(g)
}

/// Loads the level at `ptr` into a tile map, or skips it when sparse.
#[verifier::rlimit(100)]
fn load_one_tilemap(data: &[u8], ptr: u32, magic: &[u8; 2]) -> (r: Result<
    Option<TileMap>,
    AssetError,
>)
    ensures
        match r {
            Ok(Some(t)) => tilemap_spec(data@, ptr, magic@[0], magic@[1]) == Ok::<
                Option<TileRec>,
                AssetError,
            >(Some(t.rec())) && t.wf(),
            Ok(None) => tilemap_spec(data@, ptr, magic@[0], magic@[1]) == Ok::<
                Option<TileRec>,
                AssetError,
            >(None),
            Err(e) => tilemap_spec(data@, ptr, magic@[0], magic@[1]) == Err::<
                Option<TileRec>,
                AssetError,
            >(e),
        },
{
    if data.len() < 38 || ptr as usize > data.len() - 38 {
        return Err(AssetError::OutOfBounds);
    }
    let p = ptr as usize;
    let header = MapLevelHeader::new(slice_subrange(data, p, p + 38));
    proof {
        let sub = data@.subrange(p as int, p as int + 38);
        assert(u32_at(sub, 0) == u32_at(data@, p as int));
        assert(u32_at(sub, 4) == u32_at(data@, p as int + 4));
        assert(word_at(sub, 12) == word_at(data@, p as int + 12));
        assert(word_at(sub, 14) == word_at(data@, p as int + 14));
        assert(word_at(sub, 18) == word_at(data@, p as int + 18));
        assert(word_at(sub, 20) == word_at(data@, p as int + 20));
        assert(sub.skip(22) =~= data@.subrange(p as int + 22, p as int + 38));
    }
    if header.offset_plane0 == 0 {
        return Ok(None);
    }
    if header.width_n_tiles != 64 || header.height_n_tiles != 64 {
        return Err(AssetError::BadDimensions);
    }
    let w0 = match decode_plane_words(data, header.offset_plane0, header.length_plane0, magic) {
        Ok(w) => w,
        Err(e) => {
            return Err(e);
        },
    };
    let g0 = match plane_to_grid(&w0) {
        Ok(g) => g,
        Err(e) => {
            return Err(e);
        },
    };
    let w1 = match decode_plane_words(data, header.offset_plane1, header.length_plane1, magic) {
        Ok(w) => w,
        Err(e) => {
            return Err(e);
        },
    };
    let g1 = match plane_to_grid(&w1) {
        Ok(g) => g,
        Err(e) => {
            return Err(e);
        },
    };
    Ok(Some(TileMap::new(g0, g1, header.name)))
}

/// Loads every non-sparse level of the map-file pair into a tile map,
/// scanning the first 60 pointer records of the map-head file.
pub fn load_tilemaps(maphead: &[u8], gamemaps: &[u8]) -> (r: Result<Vec<TileMap>, AssetError>)
    ensures
        match r {
            Ok(v) => tilemaps_spec(maphead@, gamemaps@) == Ok::<Seq<TileRec>, AssetError>(
                Seq::new(v@.len(), |i: int| v@[i].rec()),
            ) && (forall|i: int| 0 <= i < v@.len() ==> (#[trigger] v@[i]).wf()),
            Err(e) => tilemaps_spec(maphead@, gamemaps@) == Err::<Seq<TileRec>, AssetError>(e),
        },
{
    let meta = match parse_map_head(maphead, Some(NUM_MAPS)) {
        Ok(h) => h,
        Err(e) => {
            return Err(e);
        },
    };
    let ghost m0 = maphead@[0];
    let ghost m1 = maphead@[1];
    proof {
        assert(meta.magic@[0] == m0);
        assert(meta.magic@[1] == m1);
        assert(meta.pointers@ == head_pointers(maphead@, 0, 60));
    }
    let mut maps: Vec<TileMap> = Vec::new();
    let n = meta.pointers.len();
    let mut k: usize = 0;
    proof {
        assert(meta.pointers@.skip(0) =~= meta.pointers@);
        match tilemaps_from(gamemaps@, meta.pointers@, m0, m1) {
            Ok(rest) => {
                assert(Seq::new(maps@.len(), |i: int| maps@[i].rec()) + rest =~= rest);
            },
            Err(_) => {},
        }
    }
    while k < n
        invariant
            n == meta.pointers@.len(),
            k <= n,
            m0 == meta.magic@[0],
            m1 == meta.magic@[1],
            maphead@.len() >= 402,
            m0 == maphead@[0],
            m1 == maphead@[1],
            meta.pointers@ == head_pointers(maphead@, 0, 60),
            forall|i: int| 0 <= i < maps@.len() ==> (#[trigger] maps@[i]).wf(),
            match tilemaps_from(gamemaps@, meta.pointers@.skip(k as int), m0, m1) {
                Ok(rest) => tilemaps_from(gamemaps@, meta.pointers@, m0, m1) == Ok::<
                    Seq<TileRec>,
                    AssetError,
                >(Seq::new(maps@.len(), |i: int| maps@[i].rec()) + rest),
                Err(e) => tilemaps_from(gamemaps@, meta.pointers@, m0, m1) == Err::<
                    Seq<TileRec>,
                    AssetError,
                >(e),
            },
        decreases n - k,
    {
        let ghost ptrs_rest = meta.pointers@.skip(k as int);
        proof {
            assert(ptrs_rest[0] == meta.pointers@[k as int]);
            assert(ptrs_rest.skip(1) =~= meta.pointers@.skip(k as int + 1));
        }
        let ptr = meta.pointers[k];
        match load_one_tilemap(gamemaps, ptr, &meta.magic) {
            Ok(Some(t)) => {
                let ghost prev = Seq::new(maps@.len(), |i: int| maps@[i].rec());
                maps.push(t);
                proof {
                    let cur = Seq::new(maps@.len(), |i: int| maps@[i].rec());
                    assert(cur =~= prev + seq![maps@[maps@.len() - 1].rec()]);
                    match tilemaps_from(gamemaps@, meta.pointers@.skip(k as int + 1), m0, m1) {
                        Ok(rest) => {
                            assert(cur + rest =~= prev + (seq![maps@[maps@.len() - 1].rec()]
                                + rest));
                        },
                        Err(_) => {},
                    }
                }
            },
            Ok(None) => {},
            Err(e) => {
                return Err(e);
            },
        }
        k = k + 1;
    }
    proof {
        assert(meta.pointers@.skip(n as int) =~= Seq::<u32>::empty());
        let cur = Seq::new(maps@.len(), |i: int| maps@[i].rec());
        assert(cur + Seq::<TileRec>::empty() =~= cur);
    }
    Ok(maps)
}

/// The loaded assets: pictures, wall textures, compiled sprites, sound
/// clips and tile maps. Built once at load time; read-only afterwards.
pub struct Cache {
    pics: Vec<Picture>,
    textures: Vec<Vec<u8>>,
    sprites: Vec<(CompShape, Vec<u8>)>,
    sounds: Vec<Vec<u8>>,
    maps: Vec<TileMap>,
}

/// The mathematical image of the loaded cache.
pub struct CacheRec {
    pub pics: Seq<PicRec>,
    pub textures: Seq<Seq<u8>>,
    pub sprites: Seq<ShapeRec>,
    pub sounds: Seq<Seq<u8>>,
    pub maps: Seq<TileRec>,
}

impl Cache {
    /// The decoded pictures.
    pub closed spec fn pics_seq(&self) -> Seq<Picture> {
        self.pics@
    }

    /// The wall-texture pages.
    pub closed spec fn textures_seq(&self) -> Seq<Vec<u8>> {
        self.textures@
    }

    /// The compiled sprite pages with their parsed headers.
    pub closed spec fn sprites_seq(&self) -> Seq<(CompShape, Vec<u8>)> {
        self.sprites@
    }

    /// The sound-clip pages.
    pub closed spec fn sounds_seq(&self) -> Seq<Vec<u8>> {
        self.sounds@
    }

    /// The loaded tile maps.
    pub closed spec fn maps_seq(&self) -> Seq<TileMap> {
        self.maps@
    }

    /// The cache as its mathematical image.
    pub open spec fn rec(&self) -> CacheRec {
        CacheRec {
            pics: Seq::new(self.pics_seq().len(), |i: int| self.pics_seq()[i].rec()),
            textures: Seq::new(self.textures_seq().len(), |i: int| self.textures_seq()[i]@),
            sprites: Seq::new(self.sprites_seq().len(), |i: int| sprite_rec(self.sprites_seq()[i])),
            sounds: Seq::new(self.sounds_seq().len(), |i: int| self.sounds_seq()[i]@),
            maps: Seq::new(self.maps_seq().len(), |i: int| self.maps_seq()[i].rec()),
        }
    }

    /// Every loaded tile map holds a full 64-by-64 pair of planes.
    pub open spec fn wf(&self) -> bool {
        forall|i: int| 0 <= i < self.maps_seq().len() ==> (#[trigger] self.maps_seq()[i]).wf()
    }

    /// Bundles already-loaded assets into a cache.
    pub fn new(
        pics: Vec<Picture>,
        textures: Vec<Vec<u8>>,
        sprites: Vec<(CompShape, Vec<u8>)>,
        sounds: Vec<Vec<u8>>,
        maps: Vec<TileMap>,
    ) -> (c: Cache)
        ensures
            c.pics_seq() == pics@,
            c.textures_seq() == textures@,
            c.sprites_seq() == sprites@,
            c.sounds_seq() == sounds@,
            c.maps_seq() == maps@,
    {
        Cache { pics, textures, sprites, sounds, maps }
    }

    /// How many pictures are loaded.
    pub fn pic_count(&self) -> (n: usize)
        ensures
            n == self.pics_seq().len(),
    {
        self.pics.len()
    }

    /// How many wall-texture pages are loaded.
    pub fn texture_count(&self) -> (n: usize)
        ensures
            n == self.textures_seq().len(),
    {
        self.textures.len()
    }

    /// How many compiled sprites are loaded.
    pub fn sprite_count(&self) -> (n: usize)
        ensures
            n == self.sprites_seq().len(),
    {
        self.sprites.len()
    }

    /// How many sound clips are loaded.
    pub fn sound_count(&self) -> (n: usize)
        ensures
            n == self.sounds_seq().len(),
    {
        self.sounds.len()
    }

    /// How many tile maps are loaded.
    pub fn map_count(&self) -> (n: usize)
        ensures
            n == self.maps_seq().len(),
    {
        self.maps.len()
    }

    /// The picture of graphics chunk `index`; pictures start at chunk 3.
    pub fn get_pic(&self, index: usize) -> (r: &Picture)
        requires
            3 <= index,
            index - 3 < self.pics_seq().len(),
        ensures
            *r == self.pics_seq()[index - 3],
    {
        &self.pics[index - 3]
    }

    /// The wall-texture page at `index`.
    pub fn get_texture(&self, index: usize) -> (r: &Vec<u8>)
        requires
            index < self.textures_seq().len(),
        ensures
            *r == self.textures_seq()[index as int],
    {
        &self.textures[index]
    }

    /// The compiled sprite at `index`: its parsed header and its raw bytes.
    pub fn get_sprite(&self, index: usize) -> (r: &(CompShape, Vec<u8>))
        requires
            index < self.sprites_seq().len(),
        ensures
            *r == self.sprites_seq()[index as int],
    {
        &self.sprites[index]
    }

    /// The sound clip at `index`.
    pub fn get_sound(&self, index: usize) -> (r: &Vec<u8>)
        requires
            index < self.sounds_seq().len(),
        ensures
            *r == self.sounds_seq()[index as int],
    {
        &self.sounds[index]
    }

    /// The tile map of `level` within `episode`, ten levels per episode.
    pub fn get_map(&self, episode: usize, level: usize) -> (r: &TileMap)
        requires
            level + 10 * episode < self.maps_seq().len(),
        ensures
            *r == self.maps_seq()[level + 10 * episode],
    {
        let _n: usize = self.maps.len();
        &self.maps[level + 10 * episode]
    }
}

/// The whole load pipeline over the six asset files' bytes: the Huffman
/// dictionary and the chunk-offset headers, the pictures of the graphics
/// archive, the split page archive, and the tile maps of the map-file pair.
/// The first malformed asset aborts the load: there is no partial cache.
pub open spec fn init_spec(
    vgadict: Seq<u8>,
    vgahead: Seq<u8>,
    vgagraph: Seq<u8>,
    vswap: Seq<u8>,
    maphead: Seq<u8>,
    gamemaps: Seq<u8>,
) -> Result<CacheRec, AssetError> {
    let huff = dict_spec(vgadict);
    let headers = headers_spec(vgahead);
    match pics_spec(vgagraph, headers, huff) {
        Err(e) => Err(e),
        Ok(pics) => match pages_spec(vswap) {
            Err(e) => Err(e),
            Ok(pages) => match tilemaps_spec(maphead, gamemaps) {
                Err(e) => Err(e),
                Ok(maps) => Ok(
                    CacheRec {
                        pics,
                        textures: pages.textures,
                        sprites: pages.sprites,
                        sounds: pages.sounds,
                        maps,
                    },
                ),
            },
        },
    }
}

/// Loads the cache from the six asset files' bytes: the Huffman dictionary,
/// the chunk-offset headers, the graphics archive, the page archive, and
/// the map-head / map-data pair. Loading is all or nothing: the first
/// malformed asset aborts with its error.
pub fn init(
    vgadict: &[u8],
    vgahead: &[u8],
    vgagraph: &[u8],
    vswap: &[u8],
    maphead: &[u8],
    gamemaps: &[u8],
) -> (r: Result<Cache, AssetError>)
    ensures
        match r {
            Ok(c) => init_spec(vgadict@, vgahead@, vgagraph@, vswap@, maphead@, gamemaps@) == Ok::<
                CacheRec,
                AssetError,
            >(c.rec()) && c.wf(),
            Err(e) => init_spec(vgadict@, vgahead@, vgagraph@, vswap@, maphead@, gamemaps@)
                == Err::<CacheRec, AssetError>(e),
        },
{
    let huff = parse_dict(vgadict);
    let headers = parse_headers(vgahead);
    let pics = match load_pictures(vgagraph, &headers, &huff) {
        Ok(p) => p,
        Err(e) => {
            return Err(e);
        },
    };
    let (textures, sprites, sounds) = match split_pages(vswap) {
        Ok(t) => t,
        Err(e) => {
            return Err(e);
        },
    };
    let maps = match load_tilemaps(maphead, gamemaps) {
        Ok(m) => m,
        Err(e) => {
            return Err(e);
        },
    };
    let cache = Cache::new(pics, textures, sprites, sounds, maps);
    proof {
        assert(cache.rec().pics =~= Seq::new(cache.pics_seq().len(), |i: int| cache.pics_seq()[i].rec()));
    }
    Ok(cache)
}

} // verus!
