use aes::Aes128;
use cfb8::cipher::{AsyncStreamCipher, NewCipher};
use cfb8::Cfb8;
use mcproto::cipher::EncryptedStream;
use mcproto::error::ProtocolError;

const KEY: [u8; 16] = [7, 1, 2, 3, 4, 5, 6, 8, 9, 10, 11, 12, 13, 14, 15, 16];

fn plaintext() -> Vec<u8> {
    (0..200u32).map(|i| (i * 37 % 251) as u8).collect()
}

fn encrypt_in_chunks(sizes: &[usize], data: &[u8]) -> Vec<u8> {
    let mut s = EncryptedStream::new((), &KEY).unwrap();
    let mut out = Vec::new();
    let mut pos = 0;
    let mut k = 0;
    while pos < data.len() {
        let n = sizes[k % sizes.len()].min(data.len() - pos);
        out.extend(s.encrypt(&data[pos..pos + n]));
        pos += n;
        k += 1;
    }
    out
}

fn decrypt_in_chunks(sizes: &[usize], data: &[u8]) -> Vec<u8> {
    let mut s = EncryptedStream::new((), &KEY).unwrap();
    let mut out = Vec::new();
    let mut pos = 0;
    let mut k = 0;
    while pos < data.len() {
        let n = sizes[k % sizes.len()].min(data.len() - pos);
        let mut chunk = data[pos..pos + n].to_vec();
        s.decrypt(&mut chunk);
        out.extend(chunk);
        pos += n;
        k += 1;
    }
    out
}

#[test]
fn cipher_matches_cfb8_reference() {
    let p = plaintext();
    let mut reference = p.clone();
    Cfb8::<Aes128>::new_from_slices(&KEY, &KEY).unwrap().encrypt(&mut reference);
    let ours = encrypt_in_chunks(&[200], &p);
    assert_eq!(ours, reference);
    assert_ne!(ours, p);
}

#[test]
fn cipher_round_trip_any_split() {
    let p = plaintext();
    let whole = encrypt_in_chunks(&[200], &p);
    for enc_sizes in [&[1usize][..], &[3, 7, 1], &[16], &[50, 1, 149]] {
        let c = encrypt_in_chunks(enc_sizes, &p);
        assert_eq!(c, whole);
        for dec_sizes in [&[1usize][..], &[5, 2], &[200], &[17, 33]] {
            assert_eq!(decrypt_in_chunks(dec_sizes, &c), p);
        }
    }
}

#[test]
fn empty_writes_leave_the_keystream() {
    let p = plaintext();
    let mut s = EncryptedStream::new((), &KEY).unwrap();
    let mut out = s.encrypt(&[]);
    assert!(out.is_empty());
    out.extend(s.encrypt(&p));
    assert_eq!(out, encrypt_in_chunks(&[200], &p));
}

#[test]
fn wrong_key_length_is_crypto_failure() {
    assert!(matches!(EncryptedStream::new((), &[1, 2, 3]), Err(ProtocolError::CryptoFailure)));
    assert!(EncryptedStream::new(5u8, &KEY).unwrap().into_inner() == 5);
}
