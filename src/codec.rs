//! Wire primitives: variable-length integers, big-endian fixed-width
//! integers, length-prefixed strings and byte arrays, and UUIDs.
//!
//! Every reader takes a buffer and a position and returns the value with the
//! position just past it; every writer appends to a `Vec<u8>`. The spec
//! functions `parse_*` and `*_bytes` are the wire format itself.
use vstd::prelude::*;
use crate::error::ProtocolError;
use vstd::utf8::{valid_utf8, decode_utf8, encode_utf8};
use vstd::string::StringSliceAdditionalSpecFns;

verus! {

/// A value read at some position, with the position just past it.
pub type Parsed<T> = Result<(T, int), ProtocolError>;

/// Relates what an executable reader returned to what the spec parser says.
pub open spec fn parsed_as<T>(r: Result<(T, usize), ProtocolError>, p: Parsed<T>) -> bool {
    match p {
        Ok((v, q)) => r matches Ok((v2, q2)) && v2 == v && q2 == q,
        Err(e) => r == Err::<(T, usize), ProtocolError>(e),
    }
}

pub open spec fn pow128(k: nat) -> nat
    decreases k,
{
    if k == 0 { 1 } else { 128 * pow128((k - 1) as nat) }
}

/// The two's-complement bit pattern of an `i32`, as a number below 2^32.
pub open spec fn u32_of_i32(v: i32) -> nat {
    if v >= 0 { v as nat } else { (v + 0x1_0000_0000) as nat }
}

/// The `i32` whose bit pattern is `u` (`u < 2^32`).
pub open spec fn i32_of_u32(u: nat) -> i32 {
    if u < 0x8000_0000 { u as i32 } else { (u - 0x1_0000_0000) as i32 }
}

/// Little-endian groups of seven bits, the high bit of each byte set when
/// another group follows.
pub open spec fn varint_groups(x: nat) -> Seq<u8>
    decreases x,
{
    if x < 128 {
        seq![x as u8]
    } else {
        seq![(x % 128 + 128) as u8] + varint_groups(x / 128)
    }
}

/// The wire form of a variable-length integer.
pub open spec fn varint_bytes(v: i32) -> Seq<u8> {
    varint_groups(u32_of_i32(v))
}

/// Reads the groups of a variable-length integer starting at `start`, `k`
/// groups having been read with accumulated value `acc`. More than five
/// groups is malformed; the value keeps the low 32 bits.
pub open spec fn parse_varint_from(s: Seq<u8>, start: int, k: nat, acc: nat) -> Parsed<i32>
    decreases 5 - k,
{
    if k >= 5 {
        Err(ProtocolError::MalformedVarInt)
    } else if start < 0 || start + k >= s.len() {
        Err(ProtocolError::UnexpectedEnd)
    } else {
        let b = s[start + k];
        let acc2 = acc + (b % 128) as nat * pow128(k);
        if b < 128 {
            Ok((i32_of_u32(acc2 % 0x1_0000_0000), start + k + 1))
        } else {
            parse_varint_from(s, start, k + 1, acc2)
        }
    }
}

pub open spec fn parse_varint(s: Seq<u8>, p: int) -> Parsed<i32> {
    parse_varint_from(s, p, 0, 0)
}

proof fn lemma_pow128_facts(k: nat)
    ensures
        pow128(k) >= 1,
        k <= 4 ==> pow128(k) <= 0x1000_0000,
        pow128(5) == 0x8_0000_0000,
    decreases k,
{
    reveal_with_fuel(pow128, 6);
    if k > 0 {
        lemma_pow128_facts((k - 1) as nat);
    }
}

proof fn lemma_varint_groups_len(x: nat, n: nat)
    requires
        x < pow128(n),
        n >= 1,
    ensures
        varint_groups(x).len() <= n,
    decreases x,
{
    if x >= 128 {
        assert(n >= 2) by {
            if n == 1 {
                reveal_with_fuel(pow128, 2);
            }
        }
        assert(x / 128 < pow128((n - 1) as nat)) by {
            assert(pow128(n) == 128 * pow128((n - 1) as nat));
        }
        lemma_varint_groups_len(x / 128, (n - 1) as nat);
    }
}

proof fn lemma_varint_groups_shape(x: nat)
    ensures
        varint_groups(x).len() >= 1,
        varint_groups(x).last() < 128,
        forall|i: int| 0 <= i < varint_groups(x).len() - 1 ==> varint_groups(x)[i] >= 128,
    decreases x,
{
    if x >= 128 {
        lemma_varint_groups_shape(x / 128);
    }
}

proof fn lemma_parse_varint_groups(s: Seq<u8>, start: int, k: nat, acc: nat, x: nat)
    requires
        0 <= start,
        acc < pow128(k),
        k + varint_groups(x).len() <= 5,
        start + k + varint_groups(x).len() <= s.len(),
        s.subrange(start + k, start + k + varint_groups(x).len()) == varint_groups(x),
    ensures
        parse_varint_from(s, start, k, acc) == Ok::<(i32, int), ProtocolError>(
            (i32_of_u32((acc + x * pow128(k)) % 0x1_0000_0000), start + k + varint_groups(x).len() as int),
        ),
    decreases x,
{
    let g = varint_groups(x);
    assert(s[start + k] == g[0]);
    if x < 128 {
        assert(g[0] == x as u8);
    } else {
        let rest = varint_groups(x / 128);
        assert(g[0] == (x % 128 + 128) as u8);
        assert(g =~= seq![(x % 128 + 128) as u8] + rest);
        let b = s[start + k];
        assert(b % 128 == x % 128);
        let acc2 = acc + (x % 128) * pow128(k);
        assert(acc2 < pow128(k + 1)) by {
            assert(pow128(k + 1) == 128 * pow128(k));
            assert((x % 128) * pow128(k) <= 127 * pow128(k)) by (nonlinear_arith)
                requires x % 128 <= 127;
        }
        assert(s.subrange(start + k + 1, start + k + 1 + rest.len()) =~= rest) by {
            assert forall|i: int| 0 <= i < rest.len() implies s[start + k + 1 + i] == rest[i] by {
                assert(s.subrange(start + k, start + k + g.len())[i + 1] == g[i + 1]);
            }
        }
        lemma_parse_varint_groups(s, start, k + 1, acc2, x / 128);
        assert(acc2 + (x / 128) * pow128(k + 1) == acc + x * pow128(k)) by {
            assert(pow128(k + 1) == 128 * pow128(k));
            assert(x == 128 * (x / 128) + x % 128);
            assert((x / 128) * (128 * pow128(k)) + (x % 128) * pow128(k) == (128 * (x / 128) + x % 128) * pow128(k)) by (nonlinear_arith);
        }
    }
}

/// A variable-length integer takes one to five bytes, the continuation bit
/// is set on every byte but the last, and reading it back, whatever precedes
/// or follows it, gives the value and the position just past it.
pub proof fn lemma_varint_round_trip(v: i32, prefix: Seq<u8>, suffix: Seq<u8>)
    ensures
        1 <= varint_bytes(v).len() <= 5,
        varint_bytes(v).last() < 128,
        forall|i: int| 0 <= i < varint_bytes(v).len() - 1 ==> varint_bytes(v)[i] >= 128,
        parse_varint(prefix + varint_bytes(v) + suffix, prefix.len() as int) == Ok::<(i32, int), ProtocolError>(
            (v, prefix.len() + varint_bytes(v).len() as int),
        ),
{
    let x = u32_of_i32(v);
    lemma_pow128_facts(0);
    lemma_varint_groups_len(x, 5);
    lemma_varint_groups_shape(x);
    let s = prefix + varint_bytes(v) + suffix;
    assert(s.subrange(prefix.len() as int, prefix.len() + varint_bytes(v).len() as int) =~= varint_bytes(v));
    lemma_parse_varint_groups(s, prefix.len() as int, 0, 0, x);
    assert(x * pow128(0) == x);
}

proof fn lemma_parse_varint_from_pos(s: Seq<u8>, start: int, k: nat, acc: nat)
    ensures
        parse_varint_from(s, start, k, acc) matches Ok((_, q)) ==> start < q <= s.len() && q <= start + 5,
    decreases 5 - k,
{
    if k < 5 && 0 <= start && start + k < s.len() && s[start + k] >= 128 {
        lemma_parse_varint_from_pos(s, start, k + 1, acc + (s[start + k] % 128) as nat * pow128(k));
    }
}

/// A variable-length integer that reads ends within the input, one to five
/// bytes after its start.
pub proof fn lemma_parse_varint_pos(s: Seq<u8>, p: int)
    ensures
        parse_varint(s, p) matches Ok((_, q)) ==> p < q <= s.len() && q <= p + 5,
{
    lemma_parse_varint_from_pos(s, p, 0, 0);
}

/// Reads a variable-length integer at `pos`.
pub fn read_varint(buf: &[u8], pos: usize) -> (r: Result<(i32, usize), ProtocolError>)
    ensures
        parsed_as(r, parse_varint(buf@, pos as int)),
        r matches Ok((_, q)) ==> pos < q <= buf@.len(),
{
    proof {
        lemma_parse_varint_pos(buf@, pos as int);
    }
    let mut k: usize = 0;
    let mut acc: u64 = 0;
    let mut mult: u64 = 1;
    proof {
        lemma_pow128_facts(0);
    }
    while k < 5
        invariant
            k <= 5,
            mult == pow128(k as nat),
            acc < pow128(k as nat),
            pow128(k as nat) <= 0x8_0000_0000,
            parse_varint(buf@, pos as int) == parse_varint_from(buf@, pos as int, k as nat, acc as nat),
        decreases 5 - k,
    {
        proof {
            lemma_pow128_facts(k as nat);
            lemma_pow128_facts((k + 1) as nat);
        }
        if pos >= buf.len() || k >= buf.len() - pos {
            return Err(ProtocolError::UnexpectedEnd);
        }
        let b = buf[pos + k];
        assert((b % 128) as nat * pow128(k as nat) <= 127 * pow128(k as nat)) by (nonlinear_arith)
            requires b % 128 <= 127;
        assert(pow128((k + 1) as nat) == 128 * pow128(k as nat));
        acc = acc + (b % 128) as u64 * mult;
        if b < 128 {
            let low = (acc % 0x1_0000_0000) as u32;
            let v: i32 = if low < 0x8000_0000 { low as i32 } else { (low as i64 - 0x1_0000_0000) as i32 };
            return Ok((v, pos + k + 1));
        }
        mult = mult * 128;
        k = k + 1;
    }
    Err(ProtocolError::MalformedVarInt)
}

/// Appends the wire form of `v`.
pub fn write_varint(out: &mut Vec<u8>, v: i32)
    ensures
        final(out)@ == old(out)@ + varint_bytes(v),
{
    let mut x: u32 = if v >= 0 { v as u32 } else { (v as i64 + 0x1_0000_0000) as u32 };
    assert(old(out)@ + varint_bytes(v) =~= out@ + varint_groups(x as nat));
    loop
        invariant
            old(out)@ + varint_bytes(v) == out@ + varint_groups(x as nat),
        decreases x,
    {
        if x < 128 {
            out.push(x as u8);
            assert(old(out)@ + varint_bytes(v) =~= out@);
            return;
        }
        let b = (x % 128 + 128) as u8;
        out.push(b);
        x = x / 128;
        assert(old(out)@ + varint_bytes(v) =~= out@ + varint_groups(x as nat));
    }
}

/// The wire form of a variable-length integer, on its own.
pub fn encode_varint(v: i32) -> (r: Vec<u8>)
    ensures
        r@ == varint_bytes(v),
{
    let mut out: Vec<u8> = Vec::new();
    write_varint(&mut out, v);
    assert(out@ =~= varint_bytes(v));
    out
}


pub open spec fn pow256(n: nat) -> nat
    decreases n,
{
    if n == 0 { 1 } else { 256 * pow256((n - 1) as nat) }
}

/// `x` as `n` big-endian bytes (the low `8 * n` bits).
pub open spec fn be_bytes(x: nat, n: nat) -> Seq<u8>
    decreases n,
{
    if n == 0 {
        Seq::empty()
    } else {
        be_bytes(x / 256, (n - 1) as nat).push((x % 256) as u8)
    }
}

/// The number that a big-endian byte string stands for.
pub open spec fn be_value(s: Seq<u8>) -> nat
    decreases s.len(),
{
    if s.len() == 0 {
        0
    } else {
        (be_value(s.drop_last()) * 256 + s.last()) as nat
    }
}

/// Reads `n` bytes at `p` as a big-endian unsigned number.
pub open spec fn parse_be(s: Seq<u8>, p: int, n: nat) -> Parsed<nat> {
    if 0 <= p && p + n <= s.len() {
        Ok((be_value(s.subrange(p, p + n)), p + n))
    } else {
        Err(ProtocolError::UnexpectedEnd)
    }
}

/// The two's-complement pattern of `v` modulo `m`.
pub open spec fn unsigned_of(v: int, m: nat) -> nat {
    if v >= 0 { v as nat } else { (v + m) as nat }
}

/// The signed number whose two's-complement pattern modulo `m` is `u`.
pub open spec fn signed_of(u: nat, m: nat) -> int {
    if u >= m / 2 { u - m } else { u as int }
}

pub proof fn lemma_pow256_facts()
    ensures
        pow256(1) == 0x100,
        pow256(2) == 0x1_0000,
        pow256(4) == 0x1_0000_0000,
        pow256(8) == 0x1_0000_0000_0000_0000,
{
    reveal_with_fuel(pow256, 9);
}

proof fn lemma_pow256_mono(a: nat, b: nat)
    requires
        a <= b,
    ensures
        1 <= pow256(a) <= pow256(b),
    decreases b,
{
    if b > 0 {
        if a < b {
            lemma_pow256_mono(a, (b - 1) as nat);
        } else {
            lemma_pow256_mono((a - 1) as nat, (b - 1) as nat);
        }
    }
}

/// Reading `n` big-endian bytes back gives the number that was written.
pub proof fn lemma_be_round_trip(x: nat, n: nat)
    requires
        x < pow256(n),
    ensures
        be_bytes(x, n).len() == n,
        be_value(be_bytes(x, n)) == x,
    decreases n,
{
    if n > 0 {
        assert(x / 256 < pow256((n - 1) as nat)) by {
            assert(pow256(n) == 256 * pow256((n - 1) as nat));
        }
        lemma_be_round_trip(x / 256, (n - 1) as nat);
        assert(be_bytes(x, n).drop_last() =~= be_bytes(x / 256, (n - 1) as nat));
    }
}

proof fn lemma_be_value_bound(s: Seq<u8>)
    ensures
        be_value(s) < pow256(s.len()),
    decreases s.len(),
{
    if s.len() > 0 {
        lemma_be_value_bound(s.drop_last());
        let v = be_value(s.drop_last());
        let p = pow256((s.len() - 1) as nat);
        assert(v * 256 + s.last() < 256 * p) by (nonlinear_arith)
            requires v < p, s.last() < 256;
    }
}

/// A big-endian number of `n` bytes is below `256^n`.
pub proof fn lemma_be_value_bound_pub(s: Seq<u8>)
    ensures
        be_value(s) < pow256(s.len()),
{
    lemma_be_value_bound(s);
}

/// Appends the bytes of `b`.
pub fn append_bytes(out: &mut Vec<u8>, b: &[u8])
    ensures
        final(out)@ == old(out)@ + b@,
{
    let mut i: usize = 0;
    while i < b.len()
        invariant
            i <= b@.len(),
            out@ == old(out)@ + b@.subrange(0, i as int),
        decreases b@.len() - i,
    {
        out.push(b[i]);
        i = i + 1;
        assert(out@ =~= old(out)@ + b@.subrange(0, i as int));
    }
    assert(b@.subrange(0, b@.len() as int) =~= b@);
}

/// Reads `n` big-endian bytes at `pos` (`n <= 8`).
pub fn read_be(buf: &[u8], pos: usize, n: usize) -> (r: Result<(u64, usize), ProtocolError>)
    requires
        n <= 8,
    ensures
        match parse_be(buf@, pos as int, n as nat) {
            Ok((v, q)) => r matches Ok((v2, q2)) && v2 as nat == v && q2 == q,
            Err(e) => r == Err::<(u64, usize), ProtocolError>(e),
        },
{
    if pos > buf.len() || n > buf.len() - pos {
        return Err(ProtocolError::UnexpectedEnd);
    }
    let mut acc: u64 = 0;
    let mut i: usize = 0;
    proof {
        lemma_pow256_facts();
        lemma_pow256_mono(0, 8);
    }
    while i < n
        invariant
            i <= n <= 8,
            pos as int + n as int <= buf@.len() as int,
            acc as nat == be_value(buf@.subrange(pos as int, pos + i)),
            pow256(8) == 0x1_0000_0000_0000_0000,
        decreases n - i,
    {
        let ghost prev = buf@.subrange(pos as int, pos + i);
        let ghost next = buf@.subrange(pos as int, pos + i + 1);
        proof {
            assert(next.drop_last() =~= prev);
            lemma_be_value_bound(next);
            lemma_pow256_mono((i + 1) as nat, 8);
            assert(next.last() == buf@[pos + i]);
            assert(be_value(next) == be_value(prev) * 256 + next.last());
            assert(next.len() == i + 1);
            assert(be_value(next) < pow256(8));
            assert(acc * 256 + buf@[pos + i] < 0x1_0000_0000_0000_0000);
        }
        assert(pos + i < buf.len());
        let idx: usize = pos + i;
        let b: u64 = buf[idx] as u64;
        acc = acc * 256 + b;
        i = i + 1;
    }
    Ok((acc, pos + n))
}

/// Appends `x` as `n` big-endian bytes (`n <= 8`, `x < 256^n`).
pub fn write_be(out: &mut Vec<u8>, x: u64, n: usize)
    requires
        n <= 8,
        x < pow256(n as nat),
    ensures
        final(out)@ == old(out)@ + be_bytes(x as nat, n as nat),
{
    let mut tmp: Vec<u8> = vec![0u8; n];
    let mut y: u64 = x;
    let mut i: usize = n;
    while i > 0
        invariant
            i <= n,
            tmp@.len() == n,
            be_bytes(x as nat, n as nat) == be_bytes(y as nat, i as nat) + tmp@.subrange(i as int, n as int),
        decreases i,
    {
        let ghost before = tmp@.subrange(i as int, n as int);
        tmp.set(i - 1, (y % 256) as u8);
        assert(tmp@.subrange(i - 1, n as int) =~= seq![(y % 256) as u8] + before);
        assert(be_bytes(y as nat, i as nat) == be_bytes((y / 256) as nat, (i - 1) as nat).push((y % 256) as u8));
        y = y / 256;
        i = i - 1;
        assert(be_bytes(x as nat, n as nat) =~= be_bytes(y as nat, i as nat) + tmp@.subrange(i as int, n as int));
    }
    assert(tmp@.subrange(0, n as int) =~= tmp@);
    append_bytes(out, tmp.as_slice());
}

// ----- fixed-width values -----

pub open spec fn parse_u8(s: Seq<u8>, p: int) -> Parsed<u8> {
    if 0 <= p < s.len() { Ok((s[p], p + 1)) } else { Err(ProtocolError::UnexpectedEnd) }
}

/// A boolean is one byte; any byte but zero reads as true.
pub open spec fn parse_bool(s: Seq<u8>, p: int) -> Parsed<bool> {
    match parse_u8(s, p) {
        Ok((b, q)) => Ok((b != 0, q)),
        Err(e) => Err(e),
    }
}

pub open spec fn bool_bytes(b: bool) -> Seq<u8> {
    if b { seq![1u8] } else { seq![0u8] }
}

pub open spec fn parse_u16(s: Seq<u8>, p: int) -> Parsed<u16> {
    match parse_be(s, p, 2) {
        Ok((v, q)) => Ok((v as u16, q)),
        Err(e) => Err(e),
    }
}

pub open spec fn parse_i16(s: Seq<u8>, p: int) -> Parsed<i16> {
    match parse_be(s, p, 2) {
        Ok((v, q)) => Ok((signed_of(v, 0x1_0000) as i16, q)),
        Err(e) => Err(e),
    }
}

pub open spec fn parse_i32(s: Seq<u8>, p: int) -> Parsed<i32> {
    match parse_be(s, p, 4) {
        Ok((v, q)) => Ok((signed_of(v, 0x1_0000_0000) as i32, q)),
        Err(e) => Err(e),
    }
}

pub open spec fn parse_u32(s: Seq<u8>, p: int) -> Parsed<u32> {
    match parse_be(s, p, 4) {
        Ok((v, q)) => Ok((v as u32, q)),
        Err(e) => Err(e),
    }
}

pub open spec fn parse_i64(s: Seq<u8>, p: int) -> Parsed<i64> {
    match parse_be(s, p, 8) {
        Ok((v, q)) => Ok((signed_of(v, 0x1_0000_0000_0000_0000) as i64, q)),
        Err(e) => Err(e),
    }
}

pub open spec fn parse_u64(s: Seq<u8>, p: int) -> Parsed<u64> {
    match parse_be(s, p, 8) {
        Ok((v, q)) => Ok((v as u64, q)),
        Err(e) => Err(e),
    }
}

pub open spec fn u16_bytes(v: u16) -> Seq<u8> {
    be_bytes(v as nat, 2)
}

pub open spec fn i16_bytes(v: i16) -> Seq<u8> {
    be_bytes(unsigned_of(v as int, 0x1_0000), 2)
}

pub open spec fn i32_bytes(v: i32) -> Seq<u8> {
    be_bytes(unsigned_of(v as int, 0x1_0000_0000), 4)
}

pub open spec fn u32_bytes(v: u32) -> Seq<u8> {
    be_bytes(v as nat, 4)
}

pub open spec fn i64_bytes(v: i64) -> Seq<u8> {
    be_bytes(unsigned_of(v as int, 0x1_0000_0000_0000_0000), 8)
}

pub open spec fn u64_bytes(v: u64) -> Seq<u8> {
    be_bytes(v as nat, 8)
}

/// Reads one byte.
pub fn read_u8_async(buf: &[u8], pos: usize) -> (r: Result<(u8, usize), ProtocolError>)
    ensures
        parsed_as(r, parse_u8(buf@, pos as int)),
{
    if pos < buf.len() {
        Ok((buf[pos], pos + 1))
    } else {
        Err(ProtocolError::UnexpectedEnd)
    }
}

pub open spec fn parse_i8(s: Seq<u8>, p: int) -> Parsed<i8> {
    match parse_u8(s, p) {
        Ok((b, q)) => Ok((signed_of(b as nat, 0x100) as i8, q)),
        Err(e) => Err(e),
    }
}

pub open spec fn i8_bytes(v: i8) -> Seq<u8> {
    seq![unsigned_of(v as int, 0x100) as u8]
}

pub fn read_i8(buf: &[u8], pos: usize) -> (r: Result<(i8, usize), ProtocolError>)
    ensures
        parsed_as(r, parse_i8(buf@, pos as int)),
{
    let (b, q) = read_u8_async(buf, pos)?;
    let v: i8 = if b >= 0x80 { (b as i16 - 0x100) as i8 } else { b as i8 };
    Ok((v, q))
}

pub fn write_i8(out: &mut Vec<u8>, v: i8)
    ensures
        final(out)@ == old(out)@ + i8_bytes(v),
{
    let b: u8 = if v >= 0 { v as u8 } else { (v as i16 + 0x100) as u8 };
    out.push(b);
    assert(final(out)@ =~= old(out)@ + i8_bytes(v));
}

pub fn read_bool(buf: &[u8], pos: usize) -> (r: Result<(bool, usize), ProtocolError>)
    ensures
        parsed_as(r, parse_bool(buf@, pos as int)),
{
    match read_u8_async(buf, pos) {
        Ok((b, q)) => Ok((b != 0, q)),
        Err(e) => Err(e),
    }
}

pub fn write_bool(out: &mut Vec<u8>, v: bool)
    ensures
        final(out)@ == old(out)@ + bool_bytes(v),
{
    out.push(if v { 1u8 } else { 0u8 });
    assert(out@ =~= old(out)@ + bool_bytes(v));
}

/// Appends one byte.
pub fn write_u8_async(out: &mut Vec<u8>, v: u8)
    ensures
        final(out)@ == old(out)@ + seq![v],
{
    out.push(v);
    assert(out@ =~= old(out)@ + seq![v]);
}

pub fn read_u16_be(buf: &[u8], pos: usize) -> (r: Result<(u16, usize), ProtocolError>)
    ensures
        parsed_as(r, parse_u16(buf@, pos as int)),
{
    match read_be(buf, pos, 2) {
        Ok((v, q)) => {
            proof {
                lemma_pow256_facts();
                lemma_be_value_bound(buf@.subrange(pos as int, pos + 2));
            }
            Ok((v as u16, q))
        },
        Err(e) => Err(e),
    }
}

pub fn write_u16_be(out: &mut Vec<u8>, v: u16)
    ensures
        final(out)@ == old(out)@ + u16_bytes(v),
{
    proof {
        lemma_pow256_facts();
    }
    write_be(out, v as u64, 2);
}

pub fn read_i16_be(buf: &[u8], pos: usize) -> (r: Result<(i16, usize), ProtocolError>)
    ensures
        parsed_as(r, parse_i16(buf@, pos as int)),
{
    match read_be(buf, pos, 2) {
        Ok((v, q)) => {
            proof {
                lemma_pow256_facts();
                lemma_be_value_bound(buf@.subrange(pos as int, pos + 2));
            }
            let x: i16 = if v >= 0x8000 { (v as i64 - 0x1_0000) as i16 } else { v as i16 };
            Ok((x, q))
        },
        Err(e) => Err(e),
    }
}

pub fn write_i16_be(out: &mut Vec<u8>, v: i16)
    ensures
        final(out)@ == old(out)@ + i16_bytes(v),
{
    proof {
        lemma_pow256_facts();
    }
    let u: u64 = if v >= 0 { v as u64 } else { (v as i64 + 0x1_0000) as u64 };
    write_be(out, u, 2);
}

pub fn read_i32_be(buf: &[u8], pos: usize) -> (r: Result<(i32, usize), ProtocolError>)
    ensures
        parsed_as(r, parse_i32(buf@, pos as int)),
{
    match read_be(buf, pos, 4) {
        Ok((v, q)) => {
            proof {
                lemma_pow256_facts();
                lemma_be_value_bound(buf@.subrange(pos as int, pos + 4));
            }
            let x: i32 = if v >= 0x8000_0000 { (v as i64 - 0x1_0000_0000) as i32 } else { v as i32 };
            Ok((x, q))
        },
        Err(e) => Err(e),
    }
}

pub fn write_i32_be(out: &mut Vec<u8>, v: i32)
    ensures
        final(out)@ == old(out)@ + i32_bytes(v),
{
    proof {
        lemma_pow256_facts();
    }
    let u: u64 = if v >= 0 { v as u64 } else { (v as i64 + 0x1_0000_0000) as u64 };
    write_be(out, u, 4);
}

pub fn read_u32(buf: &[u8], pos: usize) -> (r: Result<(u32, usize), ProtocolError>)
    ensures
        parsed_as(r, parse_u32(buf@, pos as int)),
{
    match read_be(buf, pos, 4) {
        Ok((v, q)) => {
            proof {
                lemma_pow256_facts();
                lemma_be_value_bound(buf@.subrange(pos as int, pos + 4));
            }
            Ok((v as u32, q))
        },
        Err(e) => Err(e),
    }
}

pub fn write_u32(out: &mut Vec<u8>, v: u32)
    ensures
        final(out)@ == old(out)@ + u32_bytes(v),
{
    proof {
        lemma_pow256_facts();
    }
    write_be(out, v as u64, 4);
}

pub fn read_i64_be(buf: &[u8], pos: usize) -> (r: Result<(i64, usize), ProtocolError>)
    ensures
        parsed_as(r, parse_i64(buf@, pos as int)),
{
    match read_be(buf, pos, 8) {
        Ok((v, q)) => {
            proof {
                lemma_pow256_facts();
            }
            let x: i64 = if v >= 0x8000_0000_0000_0000 {
                (v as i128 - 0x1_0000_0000_0000_0000) as i64
            } else {
                v as i64
            };
            Ok((x, q))
        },
        Err(e) => Err(e),
    }
}

pub fn write_i64_be(out: &mut Vec<u8>, v: i64)
    ensures
        final(out)@ == old(out)@ + i64_bytes(v),
{
    proof {
        lemma_pow256_facts();
    }
    let u: u64 = if v >= 0 { v as u64 } else { (v as i128 + 0x1_0000_0000_0000_0000) as u64 };
    write_be(out, u, 8);
}

pub fn read_u64(buf: &[u8], pos: usize) -> (r: Result<(u64, usize), ProtocolError>)
    ensures
        parsed_as(r, parse_u64(buf@, pos as int)),
{
    read_be(buf, pos, 8)
}

pub fn write_u64(out: &mut Vec<u8>, v: u64)
    ensures
        final(out)@ == old(out)@ + u64_bytes(v),
{
    proof {
        lemma_pow256_facts();
    }
    write_be(out, v, 8);
}


/// Relates what an executable reader returned to what the spec parser says,
/// through the view of the value.
pub open spec fn parsed_view<T: View>(r: Result<(T, usize), ProtocolError>, p: Parsed<T::V>) -> bool {
    match p {
        Ok((v, q)) => r matches Ok((v2, q2)) && v2@ == v && q2 == q,
        Err(e) => r == Err::<(T, usize), ProtocolError>(e),
    }
}

// ----- strings and byte arrays -----

/// `n` bytes at `q`, after a length prefix that said `n`.
pub open spec fn take_bytes(s: Seq<u8>, q: int, n: int) -> Parsed<Seq<u8>> {
    if n < 0 {
        Err(ProtocolError::InvalidEncoding)
    } else if q < 0 || q + n > s.len() {
        Err(ProtocolError::UnexpectedEnd)
    } else {
        Ok((s.subrange(q, q + n), q + n))
    }
}

/// A string: its UTF-8 byte length as a variable-length integer, then the bytes.
pub open spec fn parse_string(s: Seq<u8>, p: int) -> Parsed<Seq<char>> {
    match parse_varint(s, p) {
        Err(e) => Err(e),
        Ok((n, q)) => match take_bytes(s, q, n as int) {
            Err(e) => Err(e),
            Ok((b, q2)) => if valid_utf8(b) {
                Ok((decode_utf8(b), q2))
            } else {
                Err(ProtocolError::InvalidEncoding)
            },
        },
    }
}

pub open spec fn string_bytes(cs: Seq<char>) -> Seq<u8> {
    varint_bytes(encode_utf8(cs).len() as i32) + encode_utf8(cs)
}

/// A string fits the protocol when its UTF-8 length fits the length prefix.
pub open spec fn string_fits(cs: Seq<char>) -> bool {
    encode_utf8(cs).len() <= i32::MAX
}

/// A byte array with a variable-length integer length prefix.
pub open spec fn parse_bytes_varint(s: Seq<u8>, p: int) -> Parsed<Seq<u8>> {
    match parse_varint(s, p) {
        Err(e) => Err(e),
        Ok((n, q)) => take_bytes(s, q, n as int),
    }
}

/// A byte array with a 16-bit length prefix.
pub open spec fn parse_bytes_short(s: Seq<u8>, p: int) -> Parsed<Seq<u8>> {
    match parse_i16(s, p) {
        Err(e) => Err(e),
        Ok((n, q)) => take_bytes(s, q, n as int),
    }
}

/// A byte array with a 32-bit length prefix.
pub open spec fn parse_bytes_int(s: Seq<u8>, p: int) -> Parsed<Seq<u8>> {
    match parse_i32(s, p) {
        Err(e) => Err(e),
        Ok((n, q)) => take_bytes(s, q, n as int),
    }
}

pub open spec fn bytes_varint_bytes(b: Seq<u8>) -> Seq<u8> {
    varint_bytes(b.len() as i32) + b
}

pub open spec fn bytes_short_bytes(b: Seq<u8>) -> Seq<u8> {
    i16_bytes(b.len() as i16) + b
}

pub open spec fn bytes_int_bytes(b: Seq<u8>) -> Seq<u8> {
    i32_bytes(b.len() as i32) + b
}

/// Relies on `std::str::from_utf8`: it accepts exactly the valid UTF-8 byte
/// strings, and the string it returns holds the characters they encode.
#[verifier::external_body]
pub(crate) fn utf8_to_string(b: &[u8]) -> (r: Option<String>)
    ensures
        r is Some <==> valid_utf8(b@),
        r matches Some(s) ==> s@ == decode_utf8(b@),
{
    match std::str::from_utf8(b) {
        Ok(s) => Some(s.to_string()),
        Err(_) => None,
    }
}

/// The bytes `n` at `q`, copied out (see `take_bytes`).
fn read_bytes_at(buf: &[u8], q: usize, n: i64) -> (r: Result<(Vec<u8>, usize), ProtocolError>)
    ensures
        parsed_view(r, take_bytes(buf@, q as int, n as int)),
{
    if n < 0 {
        return Err(ProtocolError::InvalidEncoding);
    }
    if q > buf.len() || n as u64 > (buf.len() - q) as u64 {
        return Err(ProtocolError::UnexpectedEnd);
    }
    let end: usize = q + n as usize;
    let v = vstd::slice::slice_to_vec(vstd::slice::slice_subrange(buf, q, end));
    Ok((v, end))
}

pub fn read_varstring(buf: &[u8], pos: usize) -> (r: Result<(String, usize), ProtocolError>)
    ensures
        parsed_view(r, parse_string(buf@, pos as int)),
{
    let (n, q) = read_varint(buf, pos)?;
    let (b, q2) = read_bytes_at(buf, q, n as i64)?;
    match utf8_to_string(b.as_slice()) {
        Some(s) => Ok((s, q2)),
        None => Err(ProtocolError::InvalidEncoding),
    }
}

pub fn write_varstring(out: &mut Vec<u8>, s: &str)
    requires
        string_fits(s@),
    ensures
        final(out)@ == old(out)@ + string_bytes(s@),
{
    let b = s.as_bytes();
    assert(b@ == encode_utf8(s@));
    write_varint(out, b.len() as i32);
    append_bytes(out, b);
    assert(final(out)@ =~= old(out)@ + string_bytes(s@));
}

pub fn read_bytearray(buf: &[u8], pos: usize) -> (r: Result<(Vec<u8>, usize), ProtocolError>)
    ensures
        parsed_view(r, parse_bytes_varint(buf@, pos as int)),
{
    let (n, q) = read_varint(buf, pos)?;
    read_bytes_at(buf, q, n as i64)
}

pub fn read_bytes_short(buf: &[u8], pos: usize) -> (r: Result<(Vec<u8>, usize), ProtocolError>)
    ensures
        parsed_view(r, parse_bytes_short(buf@, pos as int)),
{
    let (n, q) = read_i16_be(buf, pos)?;
    read_bytes_at(buf, q, n as i64)
}

pub fn read_bytes_int(buf: &[u8], pos: usize) -> (r: Result<(Vec<u8>, usize), ProtocolError>)
    ensures
        parsed_view(r, parse_bytes_int(buf@, pos as int)),
{
    let (n, q) = read_i32_be(buf, pos)?;
    read_bytes_at(buf, q, n as i64)
}

pub fn write_bytearray(out: &mut Vec<u8>, b: &[u8])
    requires
        b@.len() <= i32::MAX,
    ensures
        final(out)@ == old(out)@ + bytes_varint_bytes(b@),
{
    write_varint(out, b.len() as i32);
    append_bytes(out, b);
    assert(final(out)@ =~= old(out)@ + bytes_varint_bytes(b@));
}

pub fn write_bytes_short(out: &mut Vec<u8>, b: &[u8])
    requires
        b@.len() <= i16::MAX,
    ensures
        final(out)@ == old(out)@ + bytes_short_bytes(b@),
{
    write_i16_be(out, b.len() as i16);
    append_bytes(out, b);
    assert(final(out)@ =~= old(out)@ + bytes_short_bytes(b@));
}

pub fn write_bytes_int(out: &mut Vec<u8>, b: &[u8])
    requires
        b@.len() <= i32::MAX,
    ensures
        final(out)@ == old(out)@ + bytes_int_bytes(b@),
{
    write_i32_be(out, b.len() as i32);
    append_bytes(out, b);
    assert(final(out)@ =~= old(out)@ + bytes_int_bytes(b@));
}

// ----- UUIDs -----

pub open spec fn sign_bit() -> u64 {
    0x8000_0000_0000_0000u64
}

/// A UUID is two big-endian 64-bit halves, most significant first, each
/// XORed with the sign bit on the wire.
pub open spec fn uuid_bytes(v: u128) -> Seq<u8> {
    u64_bytes((v / 0x1_0000_0000_0000_0000) as u64 ^ sign_bit())
        + u64_bytes((v % 0x1_0000_0000_0000_0000) as u64 ^ sign_bit())
}

pub open spec fn parse_uuid(s: Seq<u8>, p: int) -> Parsed<u128> {
    match parse_u64(s, p) {
        Err(e) => Err(e),
        Ok((hi, q)) => match parse_u64(s, q) {
            Err(e) => Err(e),
            Ok((lo, q2)) => Ok(
                (((hi ^ sign_bit()) as nat * 0x1_0000_0000_0000_0000 + (lo ^ sign_bit()) as nat) as u128, q2),
            ),
        },
    }
}

pub fn read_uuid(buf: &[u8], pos: usize) -> (r: Result<(u128, usize), ProtocolError>)
    ensures
        parsed_as(r, parse_uuid(buf@, pos as int)),
{
    let (hi, q) = read_u64(buf, pos)?;
    let (lo, q2) = read_u64(buf, q)?;
    let h = hi ^ 0x8000_0000_0000_0000u64;
    let l = lo ^ 0x8000_0000_0000_0000u64;
    assert(h as nat * 0x1_0000_0000_0000_0000 + l as nat <= u128::MAX) by (nonlinear_arith)
        requires h <= u64::MAX, l <= u64::MAX;
    Ok(((h as u128) * 0x1_0000_0000_0000_0000u128 + l as u128, q2))
}

pub fn write_uuid(out: &mut Vec<u8>, v: u128)
    ensures
        final(out)@ == old(out)@ + uuid_bytes(v),
{
    let hi = (v / 0x1_0000_0000_0000_0000u128) as u64;
    let lo = (v % 0x1_0000_0000_0000_0000u128) as u64;
    write_u64(out, hi ^ 0x8000_0000_0000_0000u64);
    write_u64(out, lo ^ 0x8000_0000_0000_0000u64);
    assert(final(out)@ =~= old(out)@ + uuid_bytes(v));
}


// ----- round trips -----

pub(crate) proof fn lemma_parse_be_at(x: nat, n: nat, prefix: Seq<u8>, mid: Seq<u8>, suffix: Seq<u8>)
    requires
        x < pow256(n),
        mid == be_bytes(x, n),
    ensures
        parse_be(prefix + mid + suffix, prefix.len() as int, n) == Ok::<(nat, int), ProtocolError>(
            (x, prefix.len() as int + n as int),
        ),
{
    lemma_be_round_trip(x, n);
    let s = prefix + mid + suffix;
    assert(s.subrange(prefix.len() as int, prefix.len() as int + n as int) =~= mid);
}

proof fn lemma_u64_at(v: u64, prefix: Seq<u8>, suffix: Seq<u8>)
    ensures
        parse_u64(prefix + u64_bytes(v) + suffix, prefix.len() as int) == Ok::<(u64, int), ProtocolError>(
            (v, prefix.len() as int + 8),
        ),
{
    lemma_pow256_facts();
    lemma_parse_be_at(v as nat, 8, prefix, u64_bytes(v), suffix);
}

/// A string whose UTF-8 form fits the length prefix reads back as itself,
/// whatever precedes or follows it.
pub proof fn lemma_string_round_trip(cs: Seq<char>, prefix: Seq<u8>, suffix: Seq<u8>)
    requires
        string_fits(cs),
    ensures
        parse_string(prefix + string_bytes(cs) + suffix, prefix.len() as int) == Ok::<(Seq<char>, int), ProtocolError>(
            (cs, prefix.len() as int + string_bytes(cs).len() as int),
        ),
{
    let e = encode_utf8(cs);
    let n = e.len() as i32;
    let s = prefix + string_bytes(cs) + suffix;
    lemma_varint_round_trip(n, prefix, e + suffix);
    assert(s =~= prefix + varint_bytes(n) + (e + suffix));
    let q = prefix.len() as int + varint_bytes(n).len() as int;
    assert(s.subrange(q, q + e.len() as int) =~= e);
    vstd::utf8::encode_utf8_valid_utf8(cs);
    vstd::utf8::encode_utf8_decode_utf8(cs);
}

/// A UUID reads back as itself, whatever precedes or follows it, for every
/// value of either half's sign bit.
pub proof fn lemma_uuid_round_trip(v: u128, prefix: Seq<u8>, suffix: Seq<u8>)
    ensures
        uuid_bytes(v).len() == 16,
        parse_uuid(prefix + uuid_bytes(v) + suffix, prefix.len() as int) == Ok::<(u128, int), ProtocolError>(
            (v, prefix.len() as int + 16),
        ),
{
    let hi = (v / 0x1_0000_0000_0000_0000) as u64;
    let lo = (v % 0x1_0000_0000_0000_0000) as u64;
    let a = hi ^ sign_bit();
    let b = lo ^ sign_bit();
    lemma_pow256_facts();
    lemma_be_round_trip(a as nat, 8);
    lemma_be_round_trip(b as nat, 8);
    let s = prefix + uuid_bytes(v) + suffix;
    lemma_u64_at(a, prefix, u64_bytes(b) + suffix);
    assert(s =~= prefix + u64_bytes(a) + (u64_bytes(b) + suffix));
    lemma_u64_at(b, prefix + u64_bytes(a), suffix);
    assert(s =~= (prefix + u64_bytes(a)) + u64_bytes(b) + suffix);
    assert(a ^ sign_bit() == hi) by (bit_vector)
        requires a == hi ^ 0x8000_0000_0000_0000u64;
    assert(b ^ sign_bit() == lo) by (bit_vector)
        requires b == lo ^ 0x8000_0000_0000_0000u64;
    assert(hi as nat * 0x1_0000_0000_0000_0000 + lo as nat == v);
}

/// A byte array with a variable-length prefix reads back as itself.
pub proof fn lemma_bytes_varint_round_trip(b: Seq<u8>, prefix: Seq<u8>, suffix: Seq<u8>)
    requires
        b.len() <= i32::MAX,
    ensures
        parse_bytes_varint(prefix + bytes_varint_bytes(b) + suffix, prefix.len() as int) == Ok::<(Seq<u8>, int), ProtocolError>(
            (b, prefix.len() as int + bytes_varint_bytes(b).len() as int),
        ),
{
    let s = prefix + bytes_varint_bytes(b) + suffix;
    lemma_varint_round_trip(b.len() as i32, prefix, b + suffix);
    assert(s =~= prefix + varint_bytes(b.len() as i32) + (b + suffix));
    let q = prefix.len() as int + varint_bytes(b.len() as i32).len() as int;
    assert(s.subrange(q, q + b.len() as int) =~= b);
}


/// Fixed-width numbers read back as themselves, whatever precedes or
/// follows them.
pub proof fn lemma_fixed_width_round_trip(prefix: Seq<u8>, suffix: Seq<u8>, a: u16, b: i16, c: i32, d: u32, e: i64, f: u64)
    ensures
        parse_u16(prefix + u16_bytes(a) + suffix, prefix.len() as int) == Ok::<(u16, int), ProtocolError>(
            (a, prefix.len() as int + 2),
        ),
        parse_i16(prefix + i16_bytes(b) + suffix, prefix.len() as int) == Ok::<(i16, int), ProtocolError>(
            (b, prefix.len() as int + 2),
        ),
        parse_i32(prefix + i32_bytes(c) + suffix, prefix.len() as int) == Ok::<(i32, int), ProtocolError>(
            (c, prefix.len() as int + 4),
        ),
        parse_u32(prefix + u32_bytes(d) + suffix, prefix.len() as int) == Ok::<(u32, int), ProtocolError>(
            (d, prefix.len() as int + 4),
        ),
        parse_i64(prefix + i64_bytes(e) + suffix, prefix.len() as int) == Ok::<(i64, int), ProtocolError>(
            (e, prefix.len() as int + 8),
        ),
        parse_u64(prefix + u64_bytes(f) + suffix, prefix.len() as int) == Ok::<(u64, int), ProtocolError>(
            (f, prefix.len() as int + 8),
        ),
        u16_bytes(a).len() == 2 && i16_bytes(b).len() == 2 && i32_bytes(c).len() == 4 && u32_bytes(d).len() == 4
            && i64_bytes(e).len() == 8 && u64_bytes(f).len() == 8,
{
    lemma_pow256_facts();
    lemma_parse_be_at(a as nat, 2, prefix, u16_bytes(a), suffix);
    lemma_parse_be_at(unsigned_of(b as int, 0x1_0000), 2, prefix, i16_bytes(b), suffix);
    lemma_parse_be_at(unsigned_of(c as int, 0x1_0000_0000), 4, prefix, i32_bytes(c), suffix);
    lemma_parse_be_at(d as nat, 4, prefix, u32_bytes(d), suffix);
    lemma_parse_be_at(unsigned_of(e as int, 0x1_0000_0000_0000_0000), 8, prefix, i64_bytes(e), suffix);
    lemma_parse_be_at(f as nat, 8, prefix, u64_bytes(f), suffix);
    lemma_be_round_trip(a as nat, 2);
    lemma_be_round_trip(unsigned_of(b as int, 0x1_0000), 2);
    lemma_be_round_trip(unsigned_of(c as int, 0x1_0000_0000), 4);
    lemma_be_round_trip(d as nat, 4);
    lemma_be_round_trip(unsigned_of(e as int, 0x1_0000_0000_0000_0000), 8);
    lemma_be_round_trip(f as nat, 8);
}

} // verus!
