//! Decompressors for the compressed binary asset formats: a bit-level
//! Huffman decoder, the word-oriented Carmack back-reference scheme, and the
//! sentinel-keyed RLEW run-length encoding.

use vstd::prelude::*;

verus! {

/// A malformed compressed stream or a declared range that leaves the file.
#[derive(Debug, Clone, Copy, PartialEq, Eq, Structural)]
pub enum AssetError {
    /// The Huffman source ran out of bits before the requested length was produced.
    SourceExhausted,
    /// A Huffman node value led outside the table.
    BadNode,
    /// A Carmack back-reference into output that has not been produced yet.
    BadBackReference,
    /// A Carmack far pointer cut off by the end of the input.
    TruncatedWord,
    /// A declared offset or length that does not fit in the data it indexes.
    OutOfBounds,
    /// A decompressed map plane with fewer words than the grid needs.
    ShortPlane,
    /// A level header whose tile dimensions are not 64 by 64.
    BadDimensions,
    /// A sprite page shorter than its fixed 132-byte header.
    ShortSprite,
}

/// The 16-bit word stored little-endian at byte offset `i`.
pub open spec fn word_at(data: Seq<u8>, i: int) -> int {
    data[i] + 256 * data[i + 1]
}

/// Bit `k` of `byte`, least significant bit first.
pub open spec fn bit_at(byte: u8, k: u8) -> bool {
    (byte >> k) & 1 == 1
}

/// The bits of `source` in decoding order: each byte read least significant
/// bit first.
pub open spec fn stream_bits(source: Seq<u8>) -> Seq<bool> {
    Seq::new(source.len() * 8, |p: int| bit_at(source[p / 8], (p % 8) as u8))
}

/// Prefixes `prefix` onto the payload of a successful decode.
pub open spec fn prepend_dec(prefix: Seq<u8>, r: Result<Seq<u8>, AssetError>) -> Result<
    Seq<u8>,
    AssetError,
> {
    match r {
        Ok(rest) => Ok(prefix + rest),
        Err(e) => Err(e),
    }
}

/// The Huffman expansion of `bits` against `table`, starting at `node` and
/// still owing `length` output bytes. Each bit selects the left (0) or right
/// (1) value of the current node; a value below 256 is emitted as a literal
/// byte and the walk restarts at the root (node 254), any other value is the
/// next node index plus 256. Running out of bits before `length` bytes were
/// produced, or stepping outside the table, is an error.
pub open spec fn huff_decode(table: Seq<(u16, u16)>, bits: Seq<bool>, node: int, length: nat) -> Result<
    Seq<u8>,
    AssetError,
>
    decreases bits.len(),
{
    if length == 0 {
        Ok(Seq::empty())
    } else if bits.len() == 0 {
        Err(AssetError::SourceExhausted)
    } else if !(0 <= node < table.len()) {
        Err(AssetError::BadNode)
    } else {
        let val = if bits[0] {
            table[node].1
        } else {
            table[node].0
        };
        if val < 256 {
            prepend_dec(seq![val as u8], huff_decode(table, bits.skip(1), 254, (length - 1) as nat))
        } else {
            huff_decode(table, bits.skip(1), val - 256, length)
        }
    }
}

proof fn lemma_prepend_dec_assoc(a: Seq<u8>, b: Seq<u8>, r: Result<Seq<u8>, AssetError>)
    ensures
        prepend_dec(a, prepend_dec(b, r)) == prepend_dec(a + b, r),
{
    match r {
        Ok(rest) => {
            assert(a + (b + rest) =~= (a + b) + rest);
        },
        Err(_) => {},
    }
}

/// Expands a Huffman-coded stream into exactly `length` bytes, walking the
/// 256-entry node table from the root at node 254 and consuming the source
/// bits least significant first. A source that runs out before `length`
/// bytes were produced, or a node value leading outside the table, is
/// reported as an error instead of reading out of bounds.
pub fn huff_expand(table: &Vec<(u16, u16)>, source: &[u8], length: usize) -> (r: Result<
    Vec<u8>,
    AssetError,
>)
    ensures
        match r {
            Ok(v) => huff_decode(table@, stream_bits(source@), 254, length as nat)
                == Ok::<Seq<u8>, AssetError>(v@) && v@.len() == length,
            Err(e) => huff_decode(table@, stream_bits(source@), 254, length as nat)
                == Err::<Seq<u8>, AssetError>(e),
        },
{
    let mut dest: Vec<u8> = Vec::new();
    if length == 0 {
        return Ok(dest);
    }
    let n = source.len();
    let mut i: usize = 0;
    let mut k: u8 = 0;
    let mut node: usize = 254;
    proof {
        assert(stream_bits(source@).skip(0) =~= stream_bits(source@));
        match huff_decode(table@, stream_bits(source@), 254, length as nat) {
            Ok(v) => {
                assert(Seq::<u8>::empty() + v =~= v);
            },
            Err(_) => {},
        }
    }
    loop
        invariant
            n == source@.len(),
            k < 8,
            i <= n,
            8 * (i as int) + (k as int) <= 8 * (n as int),
            dest@.len() < length,
            huff_decode(table@, stream_bits(source@), 254, length as nat) == prepend_dec(
                dest@,
                huff_decode(
                    table@,
                    stream_bits(source@).skip(8 * (i as int) + (k as int)),
                    node as int,
                    (length - dest@.len()) as nat,
                ),
            ),
        decreases 8 * (n as int) - 8 * (i as int) - (k as int),
    {
        let ghost bits = stream_bits(source@);
        let ghost pos = 8 * (i as int) + (k as int);
        let ghost rem = (length - dest@.len()) as nat;
        if i >= n {
            proof {
                assert(pos == 8 * (n as int));
                assert(bits.skip(pos).len() == 0);
            }
            return Err(AssetError::SourceExhausted);
        }
        if node >= table.len() {
            proof {
                assert(bits.skip(pos).len() > 0);
            }
            return Err(AssetError::BadNode);
        }
        let byte = source[i];
        let bit = ((byte >> k) & 1) == 1;
        proof {
            assert(pos / 8 == i as int && pos % 8 == k as int) by (nonlinear_arith)
                requires
                    pos == 8 * (i as int) + (k as int),
                    0 <= k < 8,
                    0 <= i,
            ;
            assert(bits.skip(pos)[0] == bits[pos]);
            assert(bits[pos] == bit_at(source@[pos / 8], (pos % 8) as u8));
            assert(bits.skip(pos).skip(1) =~= bits.skip(pos + 1));
        }
        let pair = table[node];
        let val: u16 = if bit {
            pair.1
        } else {
            pair.0
        };
        if val < 256 {
            let ghost prev = dest@;
            dest.push(val as u8);
            proof {
                lemma_prepend_dec_assoc(
                    prev,
                    seq![val as u8],
                    huff_decode(table@, bits.skip(pos + 1), 254, (rem - 1) as nat),
                );
                assert(prev + seq![val as u8] =~= dest@);
            }
            if dest.len() == length {
                proof {
                    assert(huff_decode(table@, bits.skip(pos + 1), 254, 0)
                        == Ok::<Seq<u8>, AssetError>(Seq::empty()));
                    assert(dest@ + Seq::<u8>::empty() =~= dest@);
                }
                return Ok(dest);
            }
            node = 254;
        } else {
            node = (val - 256) as usize;
        }
        if k == 7 {
            k = 0;
            i = i + 1;
        } else {
            k = k + 1;
        }
    }
}

/// Holds when following `path` bit by bit from `node` descends the table and
/// ends exactly at the literal byte `b`.
pub open spec fn code_leads_to(table: Seq<(u16, u16)>, node: int, path: Seq<bool>, b: u8) -> bool
    decreases path.len(),
{
    if path.len() == 0 {
        false
    } else if !(0 <= node < table.len()) {
        false
    } else {
        let val = if path[0] {
            table[node].1
        } else {
            table[node].0
        };
        if val < 256 {
            path.len() == 1 && val == b
        } else {
            code_leads_to(table, val - 256, path.skip(1), b)
        }
    }
}

proof fn lemma_code_decodes(
    table: Seq<(u16, u16)>,
    path: Seq<bool>,
    b: u8,
    rest: Seq<bool>,
    node: int,
    length: nat,
)
    requires
        code_leads_to(table, node, path, b),
        length >= 1,
    ensures
        huff_decode(table, path + rest, node, length) == prepend_dec(
            seq![b],
            huff_decode(table, rest, 254, (length - 1) as nat),
        ),
    decreases path.len(),
{
    let bits = path + rest;
    assert(bits[0] == path[0]);
    let val = if path[0] {
        table[node].1
    } else {
        table[node].0
    };
    if val < 256 {
        assert(bits.skip(1) =~= rest);
        assert(seq![val as u8] =~= seq![b]);
    } else {
        assert(bits.skip(1) =~= path.skip(1) + rest);
        lemma_code_decodes(table, path.skip(1), b, rest, val - 256, length);
    }
}

/// A byte sequence encoded symbol by symbol with codes compatible with the
/// table — each code a path that leads from the root to that literal —
/// decodes back to exactly those bytes, whatever padding bits follow the
/// last code.
pub proof fn lemma_huffman_round_trip(
    table: Seq<(u16, u16)>,
    input: Seq<u8>,
    codes: Seq<Seq<bool>>,
    pad: Seq<bool>,
)
    requires
        codes.len() == input.len(),
        forall|j: int|
            0 <= j < input.len() ==> code_leads_to(table, 254, #[trigger] codes[j], input[j]),
    ensures
        huff_decode(table, codes.flatten() + pad, 254, input.len()) == Ok::<Seq<u8>, AssetError>(
            input,
        ),
    decreases input.len(),
{
    if input.len() == 0 {
        assert(codes.flatten() + pad =~= pad);
        assert(input =~= Seq::<u8>::empty());
    } else {
        let tail_bits = codes.drop_first().flatten() + pad;
        assert(codes.flatten() + pad =~= codes[0] + tail_bits);
        lemma_code_decodes(table, codes[0], input[0], tail_bits, 254, input.len());
        assert(forall|j: int|
            0 <= j < input.drop_first().len() ==> code_leads_to(
                table,
                254,
                #[trigger] codes.drop_first()[j],
                input.drop_first()[j],
            ));
        lemma_huffman_round_trip(table, input.drop_first(), codes.drop_first(), pad);
        assert(seq![input[0]] + input.drop_first() =~= input);
    }
}

proof fn lemma_flatten_split(a: Seq<Seq<bool>>, b: Seq<Seq<bool>>)
    ensures
        (a + b).flatten() == a.flatten() + b.flatten(),
    decreases a.len(),
{
    if a.len() == 0 {
        assert(a + b =~= b);
        assert(a.flatten() + b.flatten() =~= b.flatten());
    } else {
        lemma_flatten_split(a.drop_first(), b);
        assert((a + b).drop_first() =~= a.drop_first() + b);
        assert((a + b).first() == a.first());
        assert(a.first() + (a.drop_first().flatten() + b.flatten()) =~= (a.first()
            + a.drop_first().flatten()) + b.flatten());
    }
}

/// Decoding with any requested length up to the number of encoded symbols
/// reproduces exactly that prefix of the bytes.
pub proof fn lemma_huffman_round_trip_prefix(
    table: Seq<(u16, u16)>,
    input: Seq<u8>,
    codes: Seq<Seq<bool>>,
    pad: Seq<bool>,
    k: int,
)
    requires
        0 <= k <= input.len(),
        codes.len() == input.len(),
        forall|j: int|
            0 <= j < input.len() ==> code_leads_to(table, 254, #[trigger] codes[j], input[j]),
    ensures
        huff_decode(table, codes.flatten() + pad, 254, k as nat) == Ok::<Seq<u8>, AssetError>(
            input.take(k),
        ),
{
    lemma_flatten_split(codes.take(k), codes.skip(k));
    assert(codes.take(k) + codes.skip(k) =~= codes);
    assert(codes.flatten() + pad =~= codes.take(k).flatten() + (codes.skip(k).flatten() + pad));
    assert forall|j: int| 0 <= j < k implies code_leads_to(
        table,
        254,
        #[trigger] codes.take(k)[j],
        input.take(k)[j],
    ) by {
        assert(codes.take(k)[j] == codes[j]);
        assert(input.take(k)[j] == input[j]);
    }
    lemma_huffman_round_trip(table, input.take(k), codes.take(k), codes.skip(k).flatten() + pad);
}

/// One step of the Carmack expansion, at byte offset `i`, with `out` the
/// output produced so far. Most 16-bit words pass through unchanged; a word
/// `(count, 0xA7)` with `count != 0` copies `count` words starting `distance`
/// words (the following byte) back from the end of the output; a word
/// `(count, 0xA8)` with `count != 0` copies `count` words starting at
/// absolute output word offset `distance + 1` (the following little-endian
/// word); `(0x00, 0xA7)` and `(0x00, 0xA8)` are escapes that emit the next
/// two bytes swapped. A back-reference into output that does not exist yet is
/// an input-format violation, as is a far pointer cut off by the end of the
/// input. Trailing bytes that do not form a full control word pass through
/// verbatim.
pub open spec fn carmack_decode(data: Seq<u8>, i: int, out: Seq<u8>) -> Result<Seq<u8>, AssetError>
    decreases data.len() - i,
{
    if i < 0 || i > data.len() {
        Err(AssetError::OutOfBounds)
    } else if i + 2 >= data.len() {
        Ok(out + data.skip(i))
    } else {
        let b0 = data[i];
        let b1 = data[i + 1];
        if b0 == 0x00 && (b1 == 0xA7 || b1 == 0xA8) {
            carmack_decode(data, i + 3, out + seq![data[i + 2], b1])
        } else if b1 == 0xA7 {
            let count = b0 as int;
            let distance = data[i + 2] as int;
            if 2 * count > 2 * distance || 2 * distance > out.len() {
                Err(AssetError::BadBackReference)
            } else {
                let start = out.len() - 2 * distance;
                carmack_decode(data, i + 3, out + out.subrange(start, start + 2 * count))
            }
        } else if b1 == 0xA8 {
            if i + 4 > data.len() {
                Err(AssetError::TruncatedWord)
            } else {
                let count = b0 as int;
                let start = 2 * (word_at(data, i + 2) + 1);
                if start + 2 * count > out.len() {
                    Err(AssetError::BadBackReference)
                } else {
                    carmack_decode(data, i + 4, out + out.subrange(start, start + 2 * count))
                }
            }
        } else {
            carmack_decode(data, i + 2, out + seq![b0, b1])
        }
    }
}

/// Appends to `out` a copy of its own bytes in `[start, start + count2)`.
fn copy_within(out: &mut Vec<u8>, start: usize, count2: usize)
    requires
        start + count2 <= old(out)@.len(),
    ensures
        final(out)@ == old(out)@ + old(out)@.subrange(start as int, start as int + count2 as int),
{
    let ghost prev = out@;
    let old_len = out.len();
    let mut k: usize = 0;
    while k < count2
        invariant
            k <= count2,
            prev.len() == old_len,
            start + count2 <= prev.len(),
            out@ == prev + prev.subrange(start as int, start as int + k as int),
        decreases count2 - k,
    {
        let b = out[start + k];
        out.push(b);
        proof {
            assert(out@ =~= prev + prev.subrange(start as int, start as int + k as int + 1));
        }
        k = k + 1;
    }
}

/// Expands a Carmack-compressed stream. Near and far back-references are
/// resolved against the output produced so far; a reference into output that
/// has not been produced, or a far pointer with its distance word cut off,
/// is reported as an error instead of reading out of bounds.
pub fn carmack_decompress(data: &[u8]) -> (r: Result<Vec<u8>, AssetError>)
    ensures
        match r {
            Ok(v) => carmack_decode(data@, 0, Seq::empty()) == Ok::<Seq<u8>, AssetError>(v@),
            Err(e) => carmack_decode(data@, 0, Seq::empty()) == Err::<Seq<u8>, AssetError>(e),
        },
{
    let mut out: Vec<u8> = Vec::new();
    let n = data.len();
    let mut i: usize = 0;
    while 2 < n && i < n - 2
        invariant
            n == data@.len(),
            i <= data@.len(),
            carmack_decode(data@, 0, Seq::empty()) == carmack_decode(data@, i as int, out@),
        decreases data@.len() - i,
    {
        let b0 = data[i];
        let b1 = data[i + 1];
        if b0 == 0x00 && (b1 == 0xA7 || b1 == 0xA8) {
            let ghost prev = out@;
            let x = data[i + 2];
            out.push(x);
            out.push(b1);
            proof {
                assert(out@ =~= prev + seq![x, b1]);
            }
            i = i + 3;
        } else if b1 == 0xA7 {
            let count = b0 as usize;
            let distance = data[i + 2] as usize;
            if 2 * count > 2 * distance || 2 * distance > out.len() {
                return Err(AssetError::BadBackReference);
            }
            let start = out.len() - 2 * distance;
            copy_within(&mut out, start, 2 * count);
            i = i + 3;
        } else if b1 == 0xA8 {
            if n - i < 4 {
                return Err(AssetError::TruncatedWord);
            }
            let count = b0 as usize;
            let distance = data[i + 2] as usize + 256 * (data[i + 3] as usize);
            let start = 2 * (distance + 1);
            if start > out.len() || 2 * count > out.len() - start {
                return Err(AssetError::BadBackReference);
            }
            copy_within(&mut out, start, 2 * count);
            i = i + 4;
        } else {
            let ghost prev = out@;
            out.push(b0);
            out.push(b1);
            proof {
                assert(out@ =~= prev + seq![b0, b1]);
            }
            i = i + 2;
        }
    }
    let ghost tail_start = i as int;
    let ghost prev = out@;
    while i < data.len()
        invariant
            0 <= tail_start <= i <= data@.len(),
            out@ == prev + data@.subrange(tail_start, i as int),
        decreases data@.len() - i,
    {
        let b = data[i];
        out.push(b);
        proof {
            assert(out@ =~= prev + data@.subrange(tail_start, i as int + 1));
        }
        i = i + 1;
    }
    proof {
        assert(out@ =~= prev + data@.skip(tail_start));
    }
    Ok(out)
}

/// One step of the RLEW expansion, starting at word index `w`: a word equal
/// to the sentinel announces a (count, value) pair and `value` is emitted
/// `count` times; any other word is emitted unchanged. A sentinel with fewer
/// than two following words ends the expansion, as does a trailing odd byte.
pub open spec fn rlew_decode(data: Seq<u8>, m0: u8, m1: u8, w: int) -> Seq<u8>
    decreases data.len() / 2 - w,
{
    let n = data.len() / 2;
    if w < 0 || w >= n {
        Seq::empty()
    } else if data[2 * w] == m0 && data[2 * w + 1] == m1 {
        if w + 3 > n {
            Seq::empty()
        } else {
            repeat_word(data[2 * w + 4], data[2 * w + 5], word_at(data, 2 * w + 2) as nat)
                + rlew_decode(data, m0, m1, w + 3)
        }
    } else {
        seq![data[2 * w], data[2 * w + 1]] + rlew_decode(data, m0, m1, w + 1)
    }
}

/// The two bytes `b0, b1` repeated `count` times.
pub open spec fn repeat_word(b0: u8, b1: u8, count: nat) -> Seq<u8>
    decreases count
{
    if count == 0 {
        Seq::empty()
    } else {
        seq![b0, b1] + repeat_word(b0, b1, (count - 1) as nat)
    }
}

proof fn lemma_repeat_word_snoc(b0: u8, b1: u8, count: nat)
    ensures
        repeat_word(b0, b1, count) + seq![b0, b1] == repeat_word(b0, b1, count + 1),
    decreases count
{
    if count == 0 {
        assert(repeat_word(b0, b1, 0) + seq![b0, b1] =~= repeat_word(b0, b1, 1));
    } else {
        lemma_repeat_word_snoc(b0, b1, (count - 1) as nat);
        assert(repeat_word(b0, b1, count) + seq![b0, b1] =~= seq![b0, b1] + (repeat_word(
            b0,
            b1,
            (count - 1) as nat,
        ) + seq![b0, b1]));
    }
}

/// Expands an RLEW-compressed word stream keyed by the 2-byte sentinel
/// `magic`. A sentinel followed by fewer than two words stops the expansion
/// gracefully, returning what was decoded so far.
pub fn rlew_decompress(data: &[u8], magic: &[u8; 2]) -> (r: Vec<u8>)
    ensures
        r@ == rlew_decode(data@, magic@[0], magic@[1], 0),
{
    let mut out: Vec<u8> = Vec::new();
    let n_words: usize = data.len() / 2;
    let mut w: usize = 0;
    while w < n_words
        invariant
            data@.len() <= usize::MAX,
            n_words == data@.len() / 2,
            w <= n_words,
            rlew_decode(data@, magic@[0], magic@[1], 0) == out@ + rlew_decode(
                data@,
                magic@[0],
                magic@[1],
                w as int,
            ),
        decreases n_words - w,
    {
        let off: usize = w * 2;
        if data[off] == magic[0] && data[off + 1] == magic[1] {
            if w + 3 > n_words {
                proof {
                    assert(rlew_decode(data@, magic@[0], magic@[1], w as int) =~= Seq::empty());
                    assert(out@ + Seq::<u8>::empty() =~= out@);
                }
                return out;
            }
            let count: usize = data[off + 2] as usize + 256 * (data[off + 3] as usize);
            let b0 = data[off + 4];
            let b1 = data[off + 5];
            let ghost prev = out@;
            let mut j: usize = 0;
            while j < count
                invariant
                    j <= count,
                    out@ == prev + repeat_word(b0, b1, j as nat),
                decreases count - j,
            {
                out.push(b0);
                out.push(b1);
                proof {
                    lemma_repeat_word_snoc(b0, b1, j as nat);
                    assert(prev + repeat_word(b0, b1, j as nat) + seq![b0, b1] =~= prev
                        + (repeat_word(b0, b1, j as nat) + seq![b0, b1]));
                }
                j = j + 1;
            }
            proof {
                assert(rlew_decode(data@, magic@[0], magic@[1], w as int) == repeat_word(
                    b0,
                    b1,
                    word_at(data@, 2 * (w as int) + 2) as nat,
                ) + rlew_decode(data@, magic@[0], magic@[1], w as int + 3));
                assert(word_at(data@, 2 * (w as int) + 2) == count);
                assert(out@ + rlew_decode(data@, magic@[0], magic@[1], w as int + 3) =~= prev
                    + (repeat_word(b0, b1, count as nat) + rlew_decode(
                    data@,
                    magic@[0],
                    magic@[1],
                    w as int + 3,
                )));
            }
            w = w + 3;
        } else {
            let b0 = data[off];
            let b1 = data[off + 1];
            let ghost prev = out@;
            out.push(b0);
            out.push(b1);
            proof {
                assert(rlew_decode(data@, magic@[0], magic@[1], w as int) == seq![b0, b1]
                    + rlew_decode(data@, magic@[0], magic@[1], w as int + 1));
                assert(out@ + rlew_decode(data@, magic@[0], magic@[1], w as int + 1) =~= prev
                    + (seq![b0, b1] + rlew_decode(data@, magic@[0], magic@[1], w as int + 1)));
            }
            w = w + 1;
        }
    }
    proof {
        assert(rlew_decode(data@, magic@[0], magic@[1], w as int) =~= Seq::empty());
        assert(out@ + Seq::<u8>::empty() =~= out@);
    }
    out
}

} // verus!
