//! The session-join hash: SHA-1 over the server id, the shared secret and the
//! server's public key, read as a big-endian two's-complement number and
//! written in lowercase hexadecimal without leading zeros, with a leading
//! `-` when negative.
use vstd::prelude::*;
use vstd::utf8::{encode_utf8, is_ascii_chars};
use vstd::string::StringSliceAdditionalSpecFns;
use sha1::{Digest, Sha1};
use crate::codec::{append_bytes, utf8_to_string, be_value, pow256};

verus! {

/// The SHA-1 digest of a byte string.
pub uninterp spec fn sha1_of(data: Seq<u8>) -> Seq<u8>;

/// Relies on `sha1::Sha1::digest` (sha1 0.10): the 20-byte SHA-1 digest of
/// the input.
#[verifier::external_body]
fn sha1_digest(data: &[u8]) -> (r: Vec<u8>)
    ensures
        r@ == sha1_of(data@),
        r@.len() == 20,
{
    Sha1::digest(data).to_vec()
}

/// The lowercase hexadecimal digit for `n < 16`.
pub open spec fn hex_digit(n: nat) -> char {
    if n < 10 { (n + 48) as char } else { (n + 87) as char }
}

/// Two lowercase hexadecimal digits per byte, most significant first.
pub open spec fn hex_chars(b: Seq<u8>) -> Seq<char>
    decreases b.len(),
{
    if b.len() == 0 {
        Seq::empty()
    } else {
        hex_chars(b.drop_last()) + seq![hex_digit(b.last() as nat / 16), hex_digit(b.last() as nat % 16)]
    }
}

/// `cs` without its leading `'0'` characters.
pub open spec fn strip_zeros(cs: Seq<char>) -> Seq<char>
    decreases cs.len(),
{
    if cs.len() > 0 && cs[0] == '0' {
        strip_zeros(cs.drop_first())
    } else {
        cs
    }
}

/// Two's-complement negation of a big-endian byte string, `carry` being the
/// one still to add at its last byte: invert every byte and add one.
pub open spec fn negate_with_carry(d: Seq<u8>, carry: bool) -> Seq<u8>
    decreases d.len(),
{
    if d.len() == 0 {
        Seq::empty()
    } else {
        let b = (255 - d.last()) as u8;
        if carry && b == 255 {
            negate_with_carry(d.drop_last(), true).push(0u8)
        } else if carry {
            negate_with_carry(d.drop_last(), false).push((b + 1) as u8)
        } else {
            negate_with_carry(d.drop_last(), false).push(b)
        }
    }
}

/// The text of a digest read as a signed big-endian number.
pub open spec fn session_hash_text(d: Seq<u8>) -> Seq<char> {
    let negative = d.len() > 0 && d[0] >= 128;
    let magnitude = if negative { negate_with_carry(d, true) } else { d };
    let digits = strip_zeros(hex_chars(magnitude));
    let body = if digits.len() == 0 { seq!['0'] } else { digits };
    if negative { seq!['-'] + body } else { body }
}

pub open spec fn ascii_bytes(cs: Seq<char>) -> Seq<u8> {
    cs.map_values(|c: char| c as u8)
}

proof fn lemma_hex_chars_shape(b: Seq<u8>)
    ensures
        hex_chars(b).len() == 2 * b.len(),
        is_ascii_chars(hex_chars(b)),
    decreases b.len(),
{
    if b.len() > 0 {
        lemma_hex_chars_shape(b.drop_last());
    }
}

proof fn lemma_strip_zeros_at(cs: Seq<char>, j: int)
    requires
        0 <= j <= cs.len(),
        forall|i: int| 0 <= i < j ==> cs[i] == '0',
        j == cs.len() || cs[j] != '0',
    ensures
        strip_zeros(cs) == cs.subrange(j, cs.len() as int),
    decreases j,
{
    if j == 0 {
        assert(cs.subrange(0, cs.len() as int) =~= cs);
    } else {
        lemma_strip_zeros_at(cs.drop_first(), j - 1);
        assert(cs.drop_first().subrange(j - 1, cs.len() - 1) =~= cs.subrange(j, cs.len() as int));
    }
}

proof fn lemma_ascii_utf8(cs: Seq<char>)
    requires
        is_ascii_chars(cs),
    ensures
        encode_utf8(cs) == ascii_bytes(cs),
{
    vstd::utf8::is_ascii_chars_encode_utf8(cs);
    assert(encode_utf8(cs) =~= ascii_bytes(cs));
}

/// Renders a digest as the session hash text.
pub fn digest_to_mc_hex(digest: &[u8]) -> (r: String)
    ensures
        r@ == session_hash_text(digest@),
{
    let ghost d = digest@;
    let n = digest.len();
    let negative = n > 0 && digest[0] >= 128;
    let mut mag = vstd::slice::slice_to_vec(digest);
    if negative {
        let mut carry = true;
        let mut i: usize = n;
        assert(mag@.subrange(0, n as int) =~= d);
        assert(mag@.subrange(n as int, n as int) =~= Seq::<u8>::empty());
        while i > 0
            invariant
                i <= n == d.len() == mag@.len(),
                mag@.subrange(0, i as int) == d.subrange(0, i as int),
                negate_with_carry(d, true) == negate_with_carry(d.subrange(0, i as int), carry) + mag@.subrange(
                    i as int,
                    n as int,
                ),
            decreases i,
        {
            let ghost pre = d.subrange(0, i as int);
            let ghost tail = mag@.subrange(i as int, n as int);
            assert(pre.drop_last() =~= d.subrange(0, i - 1));
            assert(pre.last() == mag@[i - 1]);
            let b: u8 = 255 - mag[i - 1];
            let nb: u8 = if carry && b == 255 {
                0
            } else if carry {
                b + 1
            } else {
                b
            };
            let ghost old_carry = carry;
            let ghost next_carry = carry && b == 255;
            assert(negate_with_carry(pre, old_carry) == negate_with_carry(d.subrange(0, i - 1), next_carry).push(nb));
            mag.set(i - 1, nb);
            carry = carry && b == 255;
            i = i - 1;
            assert(mag@.subrange(i as int, n as int) =~= seq![nb] + tail);
            assert(mag@.subrange(0, i as int) =~= d.subrange(0, i as int));
        }
        assert(d.subrange(0, 0) =~= Seq::<u8>::empty());
        assert(mag@.subrange(0, n as int) =~= mag@);
    }
    assert(mag@ == if negative { negate_with_carry(d, true) } else { d });
    let ghost hex = hex_chars(mag@);
    // hexadecimal digits of the magnitude, as ASCII bytes
    let mut out: Vec<u8> = Vec::new();
    let mut i: usize = 0;
    assert(mag@.subrange(0, 0) =~= Seq::<u8>::empty());
    assert(ascii_bytes(hex_chars(Seq::<u8>::empty())) =~= out@);
    while i < mag.len()
        invariant
            i <= mag@.len(),
            out@ == ascii_bytes(hex_chars(mag@.subrange(0, i as int))),
        decreases mag@.len() - i,
    {
        let ghost sub = mag@.subrange(0, i as int + 1);
        assert(sub.drop_last() =~= mag@.subrange(0, i as int));
        let b = mag[i];
        let hi = b / 16;
        let lo = b % 16;
        let ch: u8 = if hi < 10 { hi + 48 } else { hi + 87 };
        let cl: u8 = if lo < 10 { lo + 48 } else { lo + 87 };
        out.push(ch);
        out.push(cl);
        i = i + 1;
        assert(out@ =~= ascii_bytes(hex_chars(mag@.subrange(0, i as int))));
    }
    assert(mag@.subrange(0, mag@.len() as int) =~= mag@);
    proof {
        lemma_hex_chars_shape(mag@);
    }
    // skip the leading zeros
    let mut j: usize = 0;
    while j < out.len() && out[j] == 48
        invariant
            j <= out@.len(),
            out@ == ascii_bytes(hex),
            hex.len() == out@.len(),
            forall|k: int| 0 <= k < j ==> hex[k] == '0',
            is_ascii_chars(hex),
        decreases out@.len() - j,
    {
        proof {
            vstd::utf8::is_ascii_chars_nat_bound(hex);
            assert((hex[j as int] as nat) < 128);
            assert(out@[j as int] == hex[j as int] as u8);
        }
        j = j + 1;
    }
    proof {
        if j < out@.len() {
            vstd::utf8::is_ascii_chars_nat_bound(hex);
            assert((hex[j as int] as nat) < 128);
            assert(out@[j as int] == hex[j as int] as u8);
        }
        lemma_strip_zeros_at(hex, j as int);
    }
    let ghost digits = hex.subrange(j as int, hex.len() as int);
    let ghost body = if digits.len() == 0 { seq!['0'] } else { digits };
    let ghost text = if negative { seq!['-'] + body } else { body };
    let mut res: Vec<u8> = Vec::new();
    if negative {
        res.push(45u8);
    }
    if j == out.len() {
        res.push(48u8);
    } else {
        append_bytes(&mut res, vstd::slice::slice_subrange(out.as_slice(), j, out.len()));
    }
    assert(text == session_hash_text(d));
    assert(res@ =~= ascii_bytes(text));
    proof {
        assert(is_ascii_chars(text));
        lemma_ascii_utf8(text);
        vstd::utf8::encode_utf8_valid_utf8(text);
        vstd::utf8::encode_utf8_decode_utf8(text);
    }
    utf8_to_string(res.as_slice()).unwrap()
}

/// The bytes that the session hash is taken over: the server id's UTF-8
/// bytes, the shared secret, the public key.
pub open spec fn session_input(server_id: Seq<char>, secret: Seq<u8>, public_key: Seq<u8>) -> Seq<u8> {
    encode_utf8(server_id) + secret + public_key
}

/// The session-join hash of a server id, shared secret and public key.
pub fn session_hash(server_id: &str, secret: &[u8], public_key: &[u8]) -> (r: String)
    ensures
        r@ == session_hash_text(sha1_of(session_input(server_id@, secret@, public_key@))),
{
    let mut data: Vec<u8> = Vec::new();
    append_bytes(&mut data, server_id.as_bytes());
    append_bytes(&mut data, secret);
    append_bytes(&mut data, public_key);
    assert(data@ =~= session_input(server_id@, secret@, public_key@));
    let digest = sha1_digest(data.as_slice());
    digest_to_mc_hex(digest.as_slice())
}


pub open spec fn is_hex_digit(c: char) -> bool {
    ('0' <= c <= '9') || ('a' <= c <= 'f')
}

proof fn lemma_hex_chars_digits(b: Seq<u8>)
    ensures
        hex_chars(b).len() == 2 * b.len(),
        forall|i: int| 0 <= i < hex_chars(b).len() ==> is_hex_digit(#[trigger] hex_chars(b)[i]),
    decreases b.len(),
{
    if b.len() > 0 {
        lemma_hex_chars_digits(b.drop_last());
        let hi = b.last() as nat / 16;
        let lo = b.last() as nat % 16;
        assert(is_hex_digit(hex_digit(hi)));
        assert(is_hex_digit(hex_digit(lo)));
        let prev = hex_chars(b.drop_last());
        assert forall|i: int| 0 <= i < hex_chars(b).len() implies is_hex_digit(#[trigger] hex_chars(b)[i]) by {
            if i < prev.len() {
                assert(hex_chars(b)[i] == prev[i]);
            }
        }
    }
}

proof fn lemma_negate_len(d: Seq<u8>, carry: bool)
    ensures
        negate_with_carry(d, carry).len() == d.len(),
    decreases d.len(),
{
    if d.len() > 0 {
        lemma_negate_len(d.drop_last(), carry && (255 - d.last()) as u8 == 255);
        lemma_negate_len(d.drop_last(), false);
        lemma_negate_len(d.drop_last(), true);
    }
}

proof fn lemma_strip_zeros_suffix(cs: Seq<char>)
    ensures
        strip_zeros(cs).len() <= cs.len(),
        forall|i: int| 0 <= i < strip_zeros(cs).len() ==> #[trigger] strip_zeros(cs)[i] == cs[cs.len() - strip_zeros(cs).len() + i],
        strip_zeros(cs).len() > 0 ==> strip_zeros(cs)[0] != '0',
    decreases cs.len(),
{
    if cs.len() > 0 && cs[0] == '0' {
        lemma_strip_zeros_suffix(cs.drop_first());
    }
}

/// The session hash text is never empty; it is lowercase hexadecimal digits,
/// after a `-` when the digest is negative; it has at most two digits per
/// digest byte (at least one); and it starts with `0` only when it is "0".
pub proof fn lemma_session_hash_shape(d: Seq<u8>)
    ensures
        ({
            let t = session_hash_text(d);
            let negative = d.len() > 0 && d[0] >= 128;
            let body = if negative { t.drop_first() } else { t };
            &&& negative ==> t.len() > 0 && t[0] == '-'
            &&& 1 <= body.len() <= if d.len() == 0 { 1 } else { 2 * d.len() }
            &&& forall|i: int| 0 <= i < body.len() ==> is_hex_digit(#[trigger] body[i])
            &&& body[0] == '0' ==> body.len() == 1
        }),
{
    let negative = d.len() > 0 && d[0] >= 128;
    let magnitude = if negative { negate_with_carry(d, true) } else { d };
    lemma_negate_len(d, true);
    let hex = hex_chars(magnitude);
    lemma_hex_chars_digits(magnitude);
    lemma_strip_zeros_suffix(hex);
    let digits = strip_zeros(hex);
    let body = if digits.len() == 0 { seq!['0'] } else { digits };
    let t = session_hash_text(d);
    assert forall|i: int| 0 <= i < body.len() implies is_hex_digit(#[trigger] body[i]) by {
        if digits.len() > 0 {
            assert(digits[i] == hex[hex.len() - digits.len() + i]);
        }
    }
    if negative {
        assert(t.drop_first() =~= body);
    }
}


/// The value of a digit of `is_hex_digit`.
pub open spec fn hex_digit_value(c: char) -> nat {
    if c <= '9' { (c as nat - 48) as nat } else { (c as nat - 87) as nat }
}

/// The number that hexadecimal digits stand for.
pub open spec fn hex_value(cs: Seq<char>) -> nat
    decreases cs.len(),
{
    if cs.len() == 0 {
        0
    } else {
        hex_value(cs.drop_last()) * 16 + hex_digit_value(cs.last())
    }
}

/// A digest read as a big-endian two's-complement number.
pub open spec fn signed_digest(d: Seq<u8>) -> int {
    if d.len() > 0 && d[0] >= 128 { be_value(d) - pow256(d.len()) } else { be_value(d) as int }
}

proof fn lemma_hex_chars_value(b: Seq<u8>)
    ensures
        hex_value(hex_chars(b)) == be_value(b),
    decreases b.len(),
{
    if b.len() > 0 {
        lemma_hex_chars_value(b.drop_last());
        let x = b.last() as nat;
        let hi = x / 16;
        let lo = x % 16;
        assert(hex_digit_value(hex_digit(hi)) == hi);
        assert(hex_digit_value(hex_digit(lo)) == lo);
        let h = hex_chars(b);
        let h1 = h.drop_last();
        assert(h1 =~= hex_chars(b.drop_last()) + seq![hex_digit(hi)]);
        assert(h1.drop_last() =~= hex_chars(b.drop_last()));
        assert(h.last() == hex_digit(lo));
        assert(h1.last() == hex_digit(hi));
        assert(x == hi * 16 + lo);
        let w = hex_value(hex_chars(b.drop_last()));
        assert(hex_value(h1) == w * 16 + hi);
        assert(hex_value(h) == hex_value(h1) * 16 + lo);
        assert((w * 16 + hi) * 16 + lo == w * 256 + (hi * 16 + lo)) by (nonlinear_arith);
    }
}

proof fn lemma_hex_value_leading_zero(rest: Seq<char>)
    ensures
        hex_value(seq!['0'] + rest) == hex_value(rest),
    decreases rest.len(),
{
    let z = seq!['0'] + rest;
    assert(hex_digit_value('0') == 0) by {
        assert('0' as nat == 48);
    }
    if rest.len() == 0 {
        assert(z.drop_last() =~= Seq::<char>::empty());
        assert(z.last() == '0');
        assert(hex_value(z) == hex_value(z.drop_last()) * 16 + hex_digit_value(z.last()));
        assert(hex_value(Seq::<char>::empty()) == 0);
    } else {
        lemma_hex_value_leading_zero(rest.drop_last());
        assert(z.drop_last() =~= seq!['0'] + rest.drop_last());
        assert(z.last() == rest.last());
        assert(hex_value(z) == hex_value(z.drop_last()) * 16 + hex_digit_value(z.last()));
        assert(hex_value(rest) == hex_value(rest.drop_last()) * 16 + hex_digit_value(rest.last()));
    }
}

proof fn lemma_strip_zeros_value(cs: Seq<char>)
    ensures
        hex_value(strip_zeros(cs)) == hex_value(cs),
    decreases cs.len(),
{
    if cs.len() > 0 && cs[0] == '0' {
        lemma_strip_zeros_value(cs.drop_first());
        lemma_hex_value_leading_zero(cs.drop_first());
        assert(seq!['0'] + cs.drop_first() =~= cs);
    }
}

proof fn lemma_negate_value(d: Seq<u8>, carry: bool)
    ensures
        be_value(negate_with_carry(d, carry)) == if carry {
            if be_value(d) == 0 { 0 } else { pow256(d.len()) - be_value(d) }
        } else {
            pow256(d.len()) - 1 - be_value(d)
        },
    decreases d.len(),
{
    if d.len() > 0 {
        let d1 = d.drop_last();
        let b = d.last();
        let v1 = be_value(d1);
        let p1 = pow256(d1.len());
        crate::codec::lemma_be_value_bound_pub(d1);
        assert(pow256(d.len()) == 256 * p1);
        assert(be_value(d) == v1 * 256 + b);
        let inv = (255 - b) as u8;
        if carry && inv == 255 {
            lemma_negate_value(d1, true);
            let r = negate_with_carry(d1, true).push(0u8);
            assert(r.drop_last() =~= negate_with_carry(d1, true));
            assert(b == 0);
            if v1 != 0 {
                assert((p1 - v1) * 256 == 256 * p1 - v1 * 256) by (nonlinear_arith);
            }
        } else if carry {
            lemma_negate_value(d1, false);
            let r = negate_with_carry(d1, false).push((inv + 1) as u8);
            assert(r.drop_last() =~= negate_with_carry(d1, false));
            assert((p1 - 1 - v1) * 256 == 256 * p1 - 256 - v1 * 256) by (nonlinear_arith);
            assert(v1 * 256 + b > 0);
        } else {
            lemma_negate_value(d1, false);
            let r = negate_with_carry(d1, false).push(inv);
            assert(r.drop_last() =~= negate_with_carry(d1, false));
            assert((p1 - 1 - v1) * 256 == 256 * p1 - 256 - v1 * 256) by (nonlinear_arith);
        }
    }
}

/// The session hash text is the digest's two's-complement value written
/// out: a `-` exactly when it is negative, then hexadecimal digits standing
/// for its magnitude.
pub proof fn lemma_session_hash_value(d: Seq<u8>)
    ensures
        ({
            let t = session_hash_text(d);
            let v = signed_digest(d);
            let body = if v < 0 { t.drop_first() } else { t };
            &&& (v < 0 <==> t[0] == '-')
            &&& hex_value(body) == if v < 0 { -v } else { v }
        }),
{
    let negative = d.len() > 0 && d[0] >= 128;
    let v = be_value(d);
    let n = d.len();
    crate::codec::lemma_be_value_bound_pub(d);
    lemma_session_hash_shape(d);
    if negative {
        lemma_be_value_first_byte(d);
        lemma_negate_value(d, true);
    }
    let magnitude = if negative { negate_with_carry(d, true) } else { d };
    lemma_hex_chars_value(magnitude);
    lemma_strip_zeros_value(hex_chars(magnitude));
    let digits = strip_zeros(hex_chars(magnitude));
    if digits.len() == 0 {
        assert(hex_value(seq!['0']) == 0) by {
            lemma_hex_value_leading_zero(Seq::empty());
            assert(seq!['0'] + Seq::<char>::empty() =~= seq!['0']);
        }
    }
    let t = session_hash_text(d);
    if negative {
        assert(t.drop_first() =~= (if digits.len() == 0 { seq!['0'] } else { digits }));
    } else {
        assert(digits.len() > 0 ==> digits[0] != '-') by {
            lemma_strip_zeros_suffix(hex_chars(magnitude));
            lemma_hex_chars_digits(magnitude);
            if digits.len() > 0 {
                assert(digits[0] == hex_chars(magnitude)[hex_chars(magnitude).len() - digits.len()]);
            }
        }
    }
}

/// A digest whose first byte has its high bit set stands for at least half
/// of the range, and so is not zero.
proof fn lemma_be_value_first_byte(d: Seq<u8>)
    requires
        d.len() > 0,
        d[0] >= 128,
    ensures
        be_value(d) * 2 >= pow256(d.len()),
    decreases d.len(),
{
    if d.len() == 1 {
        assert(d.drop_last() =~= Seq::<u8>::empty());
        reveal_with_fuel(pow256, 2);
    } else {
        let d1 = d.drop_last();
        assert(d1[0] == d[0]);
        lemma_be_value_first_byte(d1);
        assert(pow256(d.len()) == 256 * pow256(d1.len()));
        assert(be_value(d) == be_value(d1) * 256 + d.last());
    }
}

} // verus!
