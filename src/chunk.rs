//! Bulk chunk data: one zlib-compressed region holding several chunk
//! columns, whose lengths follow from each column's section bitmasks.
use vstd::prelude::*;
use std::io::Read;
use flate2::read::ZlibDecoder;
use crate::codec::{Parsed, parsed_as, parse_i16, parse_i32, parse_bool, parse_u16, read_i16_be, read_i32_be, read_bool, read_u16_be};
use crate::fields::{parse_repeated, lemma_repeated_err};
use crate::error::ProtocolError;

verus! {

/// Where a column lies and which of its sixteen sections are present.
#[derive(Clone, Copy, Debug, PartialEq, Eq, Structural)]
pub struct ChunkMeta {
    pub x: i32,
    pub z: i32,
    pub primary: u16,
    pub secondary: u16,
}

/// One column's slice of the decompressed data.
#[derive(Clone, Debug)]
pub struct ChunkColumn {
    pub meta: ChunkMeta,
    pub data: Vec<u8>,
}

/// A decoded bulk chunk payload.
#[derive(Clone, Debug)]
pub struct MapChunkBulk {
    pub has_sky: bool,
    pub columns: Vec<ChunkColumn>,
}

/// The most bytes one column can take: sixteen full sections with sky light
/// and secondary data, plus the biome array.
pub const MAX_COLUMN_BYTES: u64 = 196864;

/// The number of set bits among the low `n` bits of `x`.
pub open spec fn popcount(x: nat, n: nat) -> nat
    decreases n,
{
    if n == 0 { 0 } else { x % 2 + popcount(x / 2, (n - 1) as nat) }
}

/// The bytes of one column: 8192 per primary section, the 256-byte biome
/// array, 2048 per secondary section, and 2048 more per primary section when
/// sky light is sent.
pub open spec fn column_len(primary: u16, secondary: u16, has_sky: bool) -> nat {
    2048 * 4 * popcount(primary as nat, 16) + 256 + 2048 * popcount(secondary as nat, 16) + if has_sky {
        2048 * popcount(primary as nat, 16)
    } else {
        0
    }
}

proof fn lemma_popcount_bound(x: nat, n: nat)
    ensures
        popcount(x, n) <= n,
    decreases n,
{
    if n > 0 {
        lemma_popcount_bound(x / 2, (n - 1) as nat);
    }
}

/// Counts the set bits of a 16-bit mask.
pub fn popcount16(mask: u16) -> (r: u32)
    ensures
        r == popcount(mask as nat, 16),
        r <= 16,
{
    let mut x: u16 = mask;
    let mut count: u32 = 0;
    let mut i: u32 = 0;
    while i < 16
        invariant
            i <= 16,
            count <= i,
            count + popcount(x as nat, (16 - i) as nat) == popcount(mask as nat, 16),
        decreases 16 - i,
    {
        proof {
            lemma_popcount_bound((x / 2) as nat, (16 - i - 1) as nat);
        }
        count = count + (x % 2) as u32;
        x = x / 2;
        i = i + 1;
    }
    count
}

/// The byte length of one column.
pub fn chunk_column_len(primary: u16, secondary: u16, has_sky: bool) -> (r: usize)
    ensures
        r == column_len(primary, secondary, has_sky),
        r <= MAX_COLUMN_BYTES,
{
    let p = popcount16(primary) as usize;
    let s = popcount16(secondary) as usize;
    assert(p <= 16 && s <= 16);
    let sky: usize = if has_sky { 2048 * p } else { 0 };
    8192 * p + 256 + 2048 * s + sky
}

/// The columns' slices, cut one after another from the start of `data`,
/// with the offset after them; `None` when a slice runs past the end.
pub open spec fn split_columns(data: Seq<u8>, metas: Seq<ChunkMeta>, has_sky: bool) -> Option<(Seq<Seq<u8>>, int)>
    decreases metas.len(),
{
    if metas.len() == 0 {
        Some((Seq::empty(), 0))
    } else {
        match split_columns(data, metas.drop_last(), has_sky) {
            None => None,
            Some((slices, off)) => {
                let n = column_len(metas.last().primary, metas.last().secondary, has_sky);
                if off + n > data.len() {
                    None
                } else {
                    Some((slices.push(data.subrange(off, off + n)), off + n))
                }
            },
        }
    }
}

proof fn lemma_split_none(data: Seq<u8>, metas: Seq<ChunkMeta>, has_sky: bool, i: int)
    requires
        0 <= i <= metas.len(),
        split_columns(data, metas.subrange(0, i), has_sky) is None,
    ensures
        split_columns(data, metas, has_sky) is None,
    decreases metas.len(),
{
    if i == metas.len() {
        assert(metas.subrange(0, i) =~= metas);
    } else {
        assert(metas.drop_last().subrange(0, i) =~= metas.subrange(0, i));
        lemma_split_none(data, metas.drop_last(), has_sky, i);
    }
}

/// Cuts the decompressed data into columns, in order, each as long as its
/// bitmasks say; a slice that would run past the data is
/// `TruncatedChunkData`. Bytes after the last column are ignored.
pub fn split_chunk_columns(data: &[u8], metas: &Vec<ChunkMeta>, has_sky: bool) -> (r: Result<Vec<ChunkColumn>, ProtocolError>)
    ensures
        match split_columns(data@, metas@, has_sky) {
            Some((slices, _)) => r matches Ok(cols) && cols@.len() == metas@.len() && forall|i: int|
                0 <= i < cols@.len() ==> (#[trigger] cols@[i]).meta == metas@[i] && cols@[i].data@ == slices[i],
            None => r == Err::<Vec<ChunkColumn>, ProtocolError>(ProtocolError::TruncatedChunkData),
        },
{
    let mut cols: Vec<ChunkColumn> = Vec::new();
    let mut off: usize = 0;
    let mut i: usize = 0;
    let ghost mut slices: Seq<Seq<u8>> = Seq::empty();
    assert(metas@.subrange(0, 0) =~= Seq::<ChunkMeta>::empty());
    while i < metas.len()
        invariant
            i <= metas@.len(),
            off <= data@.len(),
            split_columns(data@, metas@.subrange(0, i as int), has_sky) == Some((slices, off as int)),
            cols@.len() == i,
            slices.len() == i,
            forall|k: int| 0 <= k < i ==> (#[trigger] cols@[k]).meta == metas@[k] && cols@[k].data@ == slices[k],
        decreases metas@.len() - i,
    {
        let ghost sub = metas@.subrange(0, i as int + 1);
        assert(sub.drop_last() =~= metas@.subrange(0, i as int));
        let m = metas[i];
        let n = chunk_column_len(m.primary, m.secondary, has_sky);
        if n > data.len() - off {
            proof {
                lemma_split_none(data@, metas@, has_sky, i as int + 1);
            }
            return Err(ProtocolError::TruncatedChunkData);
        }
        let slice = vstd::slice::slice_to_vec(vstd::slice::slice_subrange(data, off, off + n));
        proof {
            slices = slices.push(slice@);
        }
        cols.push(ChunkColumn { meta: m, data: slice });
        off = off + n;
        i = i + 1;
    }
    assert(metas@.subrange(0, metas@.len() as int) =~= metas@);
    Ok(cols)
}

/// The bytes that zlib decompression of a byte string yields, up to the end
/// of the stream or the point where it is found corrupt.
pub uninterp spec fn zlib_inflated(data: Seq<u8>) -> Seq<u8>;

/// Whether a byte string is not one complete, well-formed zlib stream
/// (possibly followed by other bytes).
pub uninterp spec fn zlib_corrupt(data: Seq<u8>) -> bool;

/// The first `limit` bytes of the decompression, or all of it when shorter.
pub open spec fn inflated_prefix(data: Seq<u8>, limit: nat) -> Seq<u8> {
    let all = zlib_inflated(data);
    if limit < all.len() { all.take(limit as int) } else { all }
}

/// Relies on flate2's `ZlibDecoder` (through `Read::take` and `read_to_end`):
/// the decompressed bytes up to `limit` of them. A complete, well-formed
/// stream always decompresses; a corrupt or truncated one fails when the
/// decoder reaches the fault before `limit` bytes.
#[verifier::external_body]
fn inflate_zlib(data: &[u8], limit: u64) -> (r: Result<Vec<u8>, ProtocolError>)
    ensures
        !zlib_corrupt(data@) ==> r is Ok,
        r matches Ok(v) ==> v@ == inflated_prefix(data@, limit as nat),
        r matches Ok(v) ==> (v@.len() < limit ==> v@ == zlib_inflated(data@)),
        r matches Err(e) ==> e == ProtocolError::TruncatedChunkData && zlib_corrupt(data@),
{
    let mut out = Vec::new();
    match ZlibDecoder::new(data).take(limit).read_to_end(&mut out) {
        Ok(_) => Ok(out),
        Err(_) => Err(ProtocolError::TruncatedChunkData),
    }
}

/// One column's metadata: x, z, primary mask, secondary mask.
pub open spec fn parse_meta(s: Seq<u8>, p: int) -> Parsed<ChunkMeta> {
    match parse_i32(s, p) {
        Err(e) => Err(e),
        Ok((x, q)) => match parse_i32(s, q) {
            Err(e) => Err(e),
            Ok((z, q2)) => match parse_u16(s, q2) {
                Err(e) => Err(e),
                Ok((primary, q3)) => match parse_u16(s, q3) {
                    Err(e) => Err(e),
                    Ok((secondary, q4)) => Ok((ChunkMeta { x, z, primary, secondary }, q4)),
                },
            },
        },
    }
}

pub open spec fn meta_parser() -> spec_fn(Seq<u8>, int) -> Parsed<ChunkMeta> {
    |s: Seq<u8>, p: int| parse_meta(s, p)
}

/// The header of a bulk payload: column count (16 bits), compressed length
/// (32 bits), sky-light flag, the compressed bytes, then each column's
/// metadata. Negative counts or lengths are malformed.
pub open spec fn parse_bulk(s: Seq<u8>) -> Parsed<(bool, Seq<u8>, Seq<ChunkMeta>)> {
    match parse_i16(s, 0) {
        Err(e) => Err(e),
        Ok((count, q)) => match parse_i32(s, q) {
            Err(e) => Err(e),
            Ok((len, q2)) => match parse_bool(s, q2) {
                Err(e) => Err(e),
                Ok((has_sky, q3)) => if count < 0 || len < 0 {
                    Err(ProtocolError::InvalidEncoding)
                } else if q3 + len > s.len() {
                    Err(ProtocolError::UnexpectedEnd)
                } else {
                    match parse_repeated(meta_parser(), s, q3 + len, count as nat) {
                        Err(e) => Err(e),
                        Ok((metas, q4)) => Ok(((has_sky, s.subrange(q3, q3 + len), metas), q4)),
                    }
                },
            },
        },
    }
}

fn read_meta(buf: &[u8], pos: usize) -> (r: Result<(ChunkMeta, usize), ProtocolError>)
    ensures
        parsed_as(r, parse_meta(buf@, pos as int)),
{
    let (x, q) = read_i32_be(buf, pos)?;
    let (z, q2) = read_i32_be(buf, q)?;
    let (primary, q3) = read_u16_be(buf, q2)?;
    let (secondary, q4) = read_u16_be(buf, q3)?;
    Ok((ChunkMeta { x, z, primary, secondary }, q4))
}

/// Decodes a bulk chunk payload (the bytes after the packet id): reads the
/// header and the column metadata as `parse_bulk` says, decompresses the
/// region against a bound of `MAX_COLUMN_BYTES` per column, and cuts what
/// came out into columns as `split_columns` says. It succeeds exactly when
/// the region is a well-formed zlib stream (or faulty only past the bound)
/// and the columns fit what it decompresses to.
pub fn decode_map_chunk_bulk(raw: &[u8]) -> (r: Result<MapChunkBulk, ProtocolError>)
    ensures
        match parse_bulk(raw@) {
            Err(e) => r == Err::<MapChunkBulk, ProtocolError>(e),
            Ok(((has_sky, compressed, metas), _)) => {
                let data = inflated_prefix(compressed, (metas.len() * MAX_COLUMN_BYTES) as nat);
                match r {
                    Ok(b) => b.has_sky == has_sky && (split_columns(data, metas, has_sky) matches Some((slices, _))
                        && b.columns@.len() == metas.len() && forall|i: int|
                        0 <= i < metas.len() ==> (#[trigger] b.columns@[i]).meta == metas[i]
                            && b.columns@[i].data@ == slices[i]),
                    Err(e) => e == ProtocolError::TruncatedChunkData && (zlib_corrupt(compressed) || split_columns(
                        data,
                        metas,
                        has_sky,
                    ) is None),
                }
            },
        },
{
    let (count, q) = read_i16_be(raw, 0)?;
    let (len, q2) = read_i32_be(raw, q)?;
    let (has_sky, q3) = read_bool(raw, q2)?;
    if count < 0 || len < 0 {
        return Err(ProtocolError::InvalidEncoding);
    }
    if len as usize > raw.len() - q3 {
        return Err(ProtocolError::UnexpectedEnd);
    }
    let compressed = vstd::slice::slice_subrange(raw, q3, q3 + len as usize);
    let start = q3 + len as usize;
    let mut metas: Vec<ChunkMeta> = Vec::new();
    let mut p = start;
    let mut i: i16 = 0;
    while i < count
        invariant
            0 <= i <= count,
            0 <= len,
            parse_i16(raw@, 0) == Ok::<(i16, int), ProtocolError>((count, q as int)),
            parse_i32(raw@, q as int) == Ok::<(i32, int), ProtocolError>((len, q2 as int)),
            parse_bool(raw@, q2 as int) == Ok::<(bool, int), ProtocolError>((has_sky, q3 as int)),
            start == q3 + len,
            start <= raw@.len(),
            compressed@ == raw@.subrange(q3 as int, start as int),
            metas@.len() == i,
            parse_repeated(meta_parser(), raw@, start as int, i as nat) == Ok::<(Seq<ChunkMeta>, int), ProtocolError>(
                (metas@, p as int),
            ),
        decreases count - i,
    {
        match read_meta(raw, p) {
            Ok((m, p2)) => {
                metas.push(m);
                p = p2;
            },
            Err(e) => {
                proof {
                    assert(meta_parser()(raw@, p as int) == parse_meta(raw@, p as int));
                    assert(parse_repeated(meta_parser(), raw@, start as int, (i + 1) as nat) is Err);
                    lemma_repeated_err(meta_parser(), raw@, start as int, (i + 1) as nat, count as nat);
                }
                return Err(e);
            },
        }
        i = i + 1;
    }
    let limit: u64 = count as u64 * MAX_COLUMN_BYTES;
    assert(limit as nat == (metas@.len() * MAX_COLUMN_BYTES) as nat);
    let data = inflate_zlib(compressed, limit)?;
    let columns = split_chunk_columns(data.as_slice(), &metas, has_sky)?;
    assert(limit as nat == (metas@.len() * MAX_COLUMN_BYTES) as nat);
    Ok(MapChunkBulk { has_sky, columns })
}

} // verus!
