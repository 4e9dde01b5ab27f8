//! The stream cipher spliced into a connection once encryption is enabled:
//! AES-128 in 8-bit cipher feedback mode, key and IV both the shared secret,
//! one independent cipher state per direction.
//!
//! CFB8 keeps a 16-byte register, initially the IV. For each byte, the first
//! byte of the AES encryption of the register is XORed into the data, and the
//! ciphertext byte is shifted into the register.
use vstd::prelude::*;
use aes::Aes128;
use cfb8::Cfb8;
use cfb8::cipher::{AsyncStreamCipher, NewCipher};
use crate::error::ProtocolError;

verus! {

/// One direction's CFB8 state over AES-128. Verus cannot declare `Cfb8`
/// (its bounds are outside traits), so the state is held here, opaque.
#[verifier::external_body]
pub struct CipherState {
    inner: Cfb8<Aes128>,
}

/// The key a CFB8 cipher state was made with.
pub uninterp spec fn cfb8_key(c: CipherState) -> Seq<u8>;

/// The feedback register of a CFB8 cipher state.
pub uninterp spec fn cfb8_register(c: CipherState) -> Seq<u8>;

/// The first byte of the AES-128 encryption of `block` under `key`.
pub uninterp spec fn aes128_first_byte(key: Seq<u8>, block: Seq<u8>) -> u8;

/// The register after the ciphertext bytes `c` were shifted in.
pub open spec fn shift_in(reg: Seq<u8>, c: Seq<u8>) -> Seq<u8> {
    (reg + c).subrange(c.len() as int, reg.len() + c.len() as int)
}

/// CFB8 encryption of `p` from register `reg`.
pub open spec fn cfb8_encrypt(key: Seq<u8>, reg: Seq<u8>, p: Seq<u8>) -> Seq<u8>
    decreases p.len(),
{
    if p.len() == 0 {
        Seq::empty()
    } else {
        let c0 = p[0] ^ aes128_first_byte(key, reg);
        seq![c0] + cfb8_encrypt(key, shift_in(reg, seq![c0]), p.drop_first())
    }
}

/// CFB8 decryption of `c` from register `reg`.
pub open spec fn cfb8_decrypt(key: Seq<u8>, reg: Seq<u8>, c: Seq<u8>) -> Seq<u8>
    decreases c.len(),
{
    if c.len() == 0 {
        Seq::empty()
    } else {
        seq![c[0] ^ aes128_first_byte(key, reg)] + cfb8_decrypt(key, shift_in(reg, seq![c[0]]), c.drop_first())
    }
}

/// Relies on `Cfb8::new_from_slices` (cipher 0.3, through cfb8 0.7): it
/// accepts a 16-byte AES-128 key and a 16-byte IV, which becomes the register.
#[verifier::external_body]
fn cfb8_new(key: &[u8], iv: &[u8]) -> (r: Result<CipherState, ProtocolError>)
    ensures
        (key@.len() == 16 && iv@.len() == 16) <==> r is Ok,
        r matches Ok(c) ==> cfb8_key(c) == key@ && cfb8_register(c) == iv@,
        r matches Err(e) ==> e == ProtocolError::CryptoFailure,
{
    match Cfb8::<Aes128>::new_from_slices(key, iv) {
        Ok(inner) => Ok(CipherState { inner }),
        Err(_) => Err(ProtocolError::CryptoFailure),
    }
}

/// Relies on `AsyncStreamCipher::encrypt` of cfb8 0.7: byte by byte, XOR with
/// the first byte of the encrypted register, then shift the ciphertext byte in.
#[verifier::external_body]
fn cfb8_encrypt_in_place(c: &mut CipherState, data: &mut Vec<u8>)
    ensures
        cfb8_key(*final(c)) == cfb8_key(*old(c)),
        final(data)@ == cfb8_encrypt(cfb8_key(*old(c)), cfb8_register(*old(c)), old(data)@),
        old(data)@.len() > 0 ==> final(data)@[0] == old(data)@[0] ^ aes128_first_byte(
            cfb8_key(*old(c)),
            cfb8_register(*old(c)),
        ),
        cfb8_register(*final(c)) == shift_in(cfb8_register(*old(c)), final(data)@),
{
    c.inner.encrypt(data.as_mut_slice());
}

/// Relies on `AsyncStreamCipher::decrypt` of cfb8 0.7: byte by byte, XOR with
/// the first byte of the encrypted register, then shift the ciphertext byte in.
#[verifier::external_body]
fn cfb8_decrypt_in_place(c: &mut CipherState, data: &mut Vec<u8>)
    ensures
        cfb8_key(*final(c)) == cfb8_key(*old(c)),
        final(data)@ == cfb8_decrypt(cfb8_key(*old(c)), cfb8_register(*old(c)), old(data)@),
        old(data)@.len() > 0 ==> final(data)@[0] == old(data)@[0] ^ aes128_first_byte(
            cfb8_key(*old(c)),
            cfb8_register(*old(c)),
        ),
        cfb8_register(*final(c)) == shift_in(cfb8_register(*old(c)), old(data)@),
{
    c.inner.decrypt(data.as_mut_slice());
}

proof fn lemma_xor_twice(a: u8, k: u8)
    ensures
        (a ^ k) ^ k == a,
{
    assert((a ^ k) ^ k == a) by (bit_vector);
}

proof fn lemma_shift_in_twice(reg: Seq<u8>, a: Seq<u8>, b: Seq<u8>)
    ensures
        shift_in(shift_in(reg, a), b) == shift_in(reg, a + b),
{
    assert(shift_in(shift_in(reg, a), b) =~= shift_in(reg, a + b));
}

/// Encrypting two pieces one after the other, the second from the register
/// the first left, gives the encryption of the whole.
pub proof fn lemma_encrypt_chunks(key: Seq<u8>, reg: Seq<u8>, a: Seq<u8>, b: Seq<u8>)
    ensures
        cfb8_encrypt(key, reg, a + b) == cfb8_encrypt(key, reg, a) + cfb8_encrypt(
            key,
            shift_in(reg, cfb8_encrypt(key, reg, a)),
            b,
        ),
        cfb8_encrypt(key, reg, a).len() == a.len(),
    decreases a.len(),
{
    if a.len() == 0 {
        assert(a + b =~= b);
        assert(shift_in(reg, Seq::<u8>::empty()) =~= reg);
        assert(cfb8_encrypt(key, reg, a) + cfb8_encrypt(key, reg, b) =~= cfb8_encrypt(key, reg, b));
    } else {
        let c0 = a[0] ^ aes128_first_byte(key, reg);
        let reg1 = shift_in(reg, seq![c0]);
        assert((a + b).drop_first() =~= a.drop_first() + b);
        assert((a + b)[0] == a[0]);
        lemma_encrypt_chunks(key, reg1, a.drop_first(), b);
        let rest = cfb8_encrypt(key, reg1, a.drop_first());
        lemma_shift_in_twice(reg, seq![c0], rest);
        assert(seq![c0] + rest == cfb8_encrypt(key, reg, a));
        assert(cfb8_encrypt(key, reg, a + b) =~= seq![c0] + (rest + cfb8_encrypt(key, shift_in(reg1, rest), b)));
    }
}

/// Decrypting two pieces one after the other, the second from the register
/// the first left, gives the decryption of the whole.
pub proof fn lemma_decrypt_chunks(key: Seq<u8>, reg: Seq<u8>, a: Seq<u8>, b: Seq<u8>)
    ensures
        cfb8_decrypt(key, reg, a + b) == cfb8_decrypt(key, reg, a) + cfb8_decrypt(key, shift_in(reg, a), b),
        cfb8_decrypt(key, reg, a).len() == a.len(),
    decreases a.len(),
{
    if a.len() == 0 {
        assert(a + b =~= b);
        assert(shift_in(reg, a) =~= reg);
        assert(cfb8_decrypt(key, reg, a) + cfb8_decrypt(key, reg, b) =~= cfb8_decrypt(key, reg, b));
    } else {
        let reg1 = shift_in(reg, seq![a[0]]);
        assert((a + b).drop_first() =~= a.drop_first() + b);
        assert((a + b)[0] == a[0]);
        lemma_decrypt_chunks(key, reg1, a.drop_first(), b);
        lemma_shift_in_twice(reg, seq![a[0]], a.drop_first());
        assert(seq![a[0]] + a.drop_first() =~= a);
        assert(cfb8_decrypt(key, reg, a + b) =~= cfb8_decrypt(key, reg, a) + cfb8_decrypt(key, shift_in(reg, a), b));
    }
}

/// Decrypting from the same register what was encrypted gives back the
/// plaintext.
pub proof fn lemma_cipher_round_trip(key: Seq<u8>, reg: Seq<u8>, p: Seq<u8>)
    ensures
        cfb8_decrypt(key, reg, cfb8_encrypt(key, reg, p)) == p,
    decreases p.len(),
{
    if p.len() > 0 {
        let k = aes128_first_byte(key, reg);
        let c0 = p[0] ^ k;
        let c = cfb8_encrypt(key, reg, p);
        let reg1 = shift_in(reg, seq![c0]);
        assert(c[0] == c0);
        assert(c.drop_first() =~= cfb8_encrypt(key, reg1, p.drop_first()));
        lemma_cipher_round_trip(key, reg1, p.drop_first());
        lemma_xor_twice(p[0], k);
        assert(cfb8_decrypt(key, reg, c) =~= p);
    }
}

/// A byte stream with a cipher state for each direction, both made from the
/// same 16-byte secret used as key and IV.
pub struct EncryptedStream<S> {
    /// The transport underneath.
    pub stream: S,
    encryptor: CipherState,
    decryptor: CipherState,
    key: Ghost<Seq<u8>>,
    sent: Ghost<Seq<u8>>,
    received: Ghost<Seq<u8>>,
}

impl<S> EncryptedStream<S> {
    /// The transport underneath.
    pub closed spec fn transport(&self) -> S {
        self.stream
    }

    /// The shared secret.
    pub closed spec fn secret(&self) -> Seq<u8> {
        self.key@
    }

    /// All plaintext encrypted so far, in order.
    pub closed spec fn sent(&self) -> Seq<u8> {
        self.sent@
    }

    /// All ciphertext decrypted so far, in order.
    pub closed spec fn received(&self) -> Seq<u8> {
        self.received@
    }

    /// Each cipher state is where the whole of its direction's bytes left it.
    pub closed spec fn inv(&self) -> bool {
        &&& self.key@.len() == 16
        &&& cfb8_key(self.encryptor) == self.key@
        &&& cfb8_key(self.decryptor) == self.key@
        &&& cfb8_register(self.encryptor) == shift_in(self.key@, cfb8_encrypt(self.key@, self.key@, self.sent@))
        &&& cfb8_register(self.decryptor) == shift_in(self.key@, self.received@)
    }

    /// Wraps `stream`; the secret must be 16 bytes.
    pub fn new(stream: S, key: &[u8]) -> (r: Result<Self, ProtocolError>)
        ensures
            key@.len() == 16 <==> r is Ok,
            r matches Ok(s) ==> s.inv() && s.secret() == key@ && s.sent() == Seq::<u8>::empty()
                && s.received() == Seq::<u8>::empty() && s.transport() == stream,
            r matches Err(e) ==> e == ProtocolError::CryptoFailure,
    {
        if key.len() != 16 {
            return Err(ProtocolError::CryptoFailure);
        }
        let encryptor = cfb8_new(key, key)?;
        let decryptor = cfb8_new(key, key)?;
        let r = EncryptedStream {
            stream,
            encryptor,
            decryptor,
            key: Ghost(key@),
            sent: Ghost(Seq::empty()),
            received: Ghost(Seq::empty()),
        };
        assert(shift_in(key@, Seq::<u8>::empty()) =~= key@);
        assert(cfb8_encrypt(key@, key@, Seq::<u8>::empty()) =~= Seq::<u8>::empty());
        Ok(r)
    }

    /// Encrypts the whole of `data` as one run, continuing the outgoing
    /// keystream: the result is the part of the encryption of everything sent
    /// that `data` adds.
    pub fn encrypt(&mut self, data: &[u8]) -> (r: Vec<u8>)
        requires
            old(self).inv(),
        ensures
            final(self).inv(),
            final(self).secret() == old(self).secret(),
            final(self).received() == old(self).received(),
            final(self).sent() == old(self).sent() + data@,
            cfb8_encrypt(final(self).secret(), final(self).secret(), final(self).sent()) == cfb8_encrypt(
                old(self).secret(),
                old(self).secret(),
                old(self).sent(),
            ) + r@,
    {
        let ghost k = self.key@;
        let ghost before = self.sent@;
        let mut buf = vstd::slice::slice_to_vec(data);
        cfb8_encrypt_in_place(&mut self.encryptor, &mut buf);
        proof {
            lemma_encrypt_chunks(k, k, before, data@);
            lemma_shift_in_twice(k, cfb8_encrypt(k, k, before), buf@);
            self.sent = Ghost(before + data@);
        }
        buf
    }

    /// Decrypts `data` in place, continuing the incoming keystream: the
    /// result is the part of the decryption of everything received that
    /// `data` adds.
    pub fn decrypt(&mut self, data: &mut Vec<u8>)
        requires
            old(self).inv(),
        ensures
            final(self).inv(),
            final(self).secret() == old(self).secret(),
            final(self).sent() == old(self).sent(),
            final(self).received() == old(self).received() + old(data)@,
            cfb8_decrypt(final(self).secret(), final(self).secret(), final(self).received()) == cfb8_decrypt(
                old(self).secret(),
                old(self).secret(),
                old(self).received(),
            ) + final(data)@,
    {
        let ghost k = self.key@;
        let ghost before = self.received@;
        let ghost input = data@;
        cfb8_decrypt_in_place(&mut self.decryptor, data);
        proof {
            lemma_decrypt_chunks(k, k, before, input);
            lemma_shift_in_twice(k, before, input);
            self.received = Ghost(before + input);
        }
    }

    /// Gives the transport back.
    pub fn into_inner(self) -> (r: S)
        ensures
            r == self.transport(),
    {
        self.stream
    }
}

/// Two streams made from one secret, one writing and one reading: however
/// the writer split the plaintext into writes and the reader split the
/// ciphertext into reads, once the reader has taken all the ciphertext the
/// writer produced, it has decrypted exactly the plaintext written.
pub proof fn lemma_stream_round_trip(key: Seq<u8>, plain: Seq<u8>)
    ensures
        cfb8_decrypt(key, key, cfb8_encrypt(key, key, plain)) == plain,
{
    lemma_cipher_round_trip(key, key, plain);
}


/// The pieces one after another.
pub open spec fn concat_all(pieces: Seq<Seq<u8>>) -> Seq<u8>
    decreases pieces.len(),
{
    if pieces.len() == 0 {
        Seq::empty()
    } else {
        concat_all(pieces.drop_last()) + pieces.last()
    }
}

/// What a writer sends when it encrypts the pieces one write at a time, each
/// from the register the earlier writes left.
pub open spec fn encrypt_writes(key: Seq<u8>, reg: Seq<u8>, pieces: Seq<Seq<u8>>) -> Seq<u8>
    decreases pieces.len(),
{
    if pieces.len() == 0 {
        Seq::empty()
    } else {
        let sent = encrypt_writes(key, reg, pieces.drop_last());
        sent + cfb8_encrypt(key, shift_in(reg, sent), pieces.last())
    }
}

/// What a reader recovers when it decrypts the received bytes one read at a
/// time, each from the register the earlier reads left.
pub open spec fn decrypt_reads(key: Seq<u8>, reg: Seq<u8>, pieces: Seq<Seq<u8>>) -> Seq<u8>
    decreases pieces.len(),
{
    if pieces.len() == 0 {
        Seq::empty()
    } else {
        decrypt_reads(key, reg, pieces.drop_last()) + cfb8_decrypt(
            key,
            shift_in(reg, concat_all(pieces.drop_last())),
            pieces.last(),
        )
    }
}

proof fn lemma_encrypt_writes(key: Seq<u8>, reg: Seq<u8>, pieces: Seq<Seq<u8>>)
    ensures
        encrypt_writes(key, reg, pieces) == cfb8_encrypt(key, reg, concat_all(pieces)),
    decreases pieces.len(),
{
    if pieces.len() == 0 {
        assert(cfb8_encrypt(key, reg, Seq::<u8>::empty()) =~= Seq::<u8>::empty());
    } else {
        lemma_encrypt_writes(key, reg, pieces.drop_last());
        lemma_encrypt_chunks(key, reg, concat_all(pieces.drop_last()), pieces.last());
    }
}

proof fn lemma_decrypt_reads(key: Seq<u8>, reg: Seq<u8>, pieces: Seq<Seq<u8>>)
    ensures
        decrypt_reads(key, reg, pieces) == cfb8_decrypt(key, reg, concat_all(pieces)),
    decreases pieces.len(),
{
    if pieces.len() == 0 {
        assert(cfb8_decrypt(key, reg, Seq::<u8>::empty()) =~= Seq::<u8>::empty());
    } else {
        lemma_decrypt_reads(key, reg, pieces.drop_last());
        lemma_decrypt_chunks(key, reg, concat_all(pieces.drop_last()), pieces.last());
    }
}

/// A whole session: a writer encrypts frames in any number of writes, the
/// bytes travel in order, and a reader decrypts them in any number of reads,
/// split anywhere. Both sides start from the shared secret as key and
/// register. What the reader recovers is exactly what the writer wrote.
pub proof fn lemma_session_round_trip(key: Seq<u8>, writes: Seq<Seq<u8>>, reads: Seq<Seq<u8>>)
    requires
        concat_all(reads) == encrypt_writes(key, key, writes),
    ensures
        decrypt_reads(key, key, reads) == concat_all(writes),
{
    lemma_encrypt_writes(key, key, writes);
    lemma_decrypt_reads(key, key, reads);
    lemma_cipher_round_trip(key, key, concat_all(writes));
}

} // verus!
