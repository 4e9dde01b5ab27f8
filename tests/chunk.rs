use flate2::write::ZlibEncoder;
use flate2::Compression;
use mcproto::chunk::{chunk_column_len, decode_map_chunk_bulk, popcount16, split_chunk_columns, ChunkMeta};
use mcproto::error::ProtocolError;
use std::io::Write;

#[test]
fn column_length_formula() {
    assert_eq!(chunk_column_len(0x0001, 0x0000, true), 10496);
    assert_eq!(chunk_column_len(0x0000, 0x0000, true), 256);
    assert_eq!(chunk_column_len(0x0000, 0x0000, false), 256);
    assert_eq!(chunk_column_len(0x0001, 0x0000, false), 8448);
    assert_eq!(chunk_column_len(0x0003, 0x0001, true), 2048 * 4 * 2 + 256 + 2048 + 2048 * 2);
    assert_eq!(chunk_column_len(0xffff, 0xffff, true), 196864);
}

#[test]
fn popcount_of_masks() {
    assert_eq!(popcount16(0), 0);
    assert_eq!(popcount16(0xffff), 16);
    assert_eq!(popcount16(0b1010_0000_0000_0101), 4);
}

#[test]
fn split_in_order() {
    let data: Vec<u8> = (0..600u32).map(|i| i as u8).collect();
    let metas = vec![
        ChunkMeta { x: 0, z: 0, primary: 0, secondary: 0 },
        ChunkMeta { x: 1, z: -1, primary: 0, secondary: 0 },
    ];
    let cols = split_chunk_columns(&data, &metas, false).unwrap();
    assert_eq!(cols.len(), 2);
    assert_eq!(cols[0].data, data[0..256].to_vec());
    assert_eq!(cols[1].data, data[256..512].to_vec());
    assert_eq!(cols[1].meta, metas[1]);
}

#[test]
fn split_past_end_is_truncated() {
    let data = vec![0u8; 300];
    let metas = vec![
        ChunkMeta { x: 0, z: 0, primary: 0, secondary: 0 },
        ChunkMeta { x: 0, z: 1, primary: 0, secondary: 0 },
    ];
    assert!(matches!(split_chunk_columns(&data, &metas, true), Err(ProtocolError::TruncatedChunkData)));
}

fn bulk_payload(plain: &[u8], metas: &[(i32, i32, u16, u16)], sky: bool) -> Vec<u8> {
    let mut enc = ZlibEncoder::new(Vec::new(), Compression::default());
    enc.write_all(plain).unwrap();
    let compressed = enc.finish().unwrap();
    let mut raw = Vec::new();
    raw.extend_from_slice(&(metas.len() as i16).to_be_bytes());
    raw.extend_from_slice(&(compressed.len() as i32).to_be_bytes());
    raw.push(if sky { 1 } else { 0 });
    raw.extend_from_slice(&compressed);
    for (x, z, p, s) in metas {
        raw.extend_from_slice(&x.to_be_bytes());
        raw.extend_from_slice(&z.to_be_bytes());
        raw.extend_from_slice(&p.to_be_bytes());
        raw.extend_from_slice(&s.to_be_bytes());
    }
    raw
}

#[test]
fn bulk_payload_decodes() {
    let plain: Vec<u8> = (0..(10496 + 256)).map(|i: u32| (i % 253) as u8).collect();
    let raw = bulk_payload(&plain, &[(3, 4, 1, 0), (5, 6, 0, 0)], true);
    let bulk = decode_map_chunk_bulk(&raw).unwrap();
    assert!(bulk.has_sky);
    assert_eq!(bulk.columns.len(), 2);
    assert_eq!(bulk.columns[0].meta, ChunkMeta { x: 3, z: 4, primary: 1, secondary: 0 });
    assert_eq!(bulk.columns[0].data, plain[..10496].to_vec());
    assert_eq!(bulk.columns[1].data, plain[10496..].to_vec());
}

#[test]
fn bulk_payload_too_short_is_truncated() {
    let plain = vec![1u8; 300];
    let raw = bulk_payload(&plain, &[(0, 0, 1, 0)], true);
    assert!(matches!(decode_map_chunk_bulk(&raw), Err(ProtocolError::TruncatedChunkData)));
}

#[test]
fn bulk_payload_corrupt_is_rejected() {
    let mut raw = bulk_payload(&[1u8; 300], &[(0, 0, 0, 0)], false);
    raw[7] ^= 0xff;
    raw[8] ^= 0xff;
    assert!(decode_map_chunk_bulk(&raw).is_err());
}
