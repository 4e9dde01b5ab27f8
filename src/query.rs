//! The UDP query side protocol: the challenge exchange and the parsing of
//! the full statistics answer.
//!
//! The answer is sixteen bytes of header, then zero-separated key/value
//! pairs, then a marker, then zero-separated player names ending in two
//! bytes of padding.
use vstd::prelude::*;
use vstd::utf8::{valid_utf8, decode_utf8};
use crate::codec::utf8_to_string;
use crate::error::ProtocolError;

verus! {

/// What a full query says of a server.
#[derive(Clone, Debug)]
pub struct QueryResponse {
    pub motd: String,
    pub game_type: String,
    pub map: String,
    pub online_players: u32,
    pub max_players: u32,
    pub host_ip: String,
    pub host_port: u16,
    pub plugins: Option<String>,
    pub plugin_list: Option<Vec<String>>,
    pub players: Vec<String>,
}

/// What `str::to_lowercase` gives.
pub uninterp spec fn lower_of(s: Seq<char>) -> Seq<char>;

/// What `str::trim` gives.
pub uninterp spec fn trim_of(s: Seq<char>) -> Seq<char>;

/// Relies on `str::to_lowercase`: the result depends on the characters alone.
#[verifier::external_body]
fn lowercase(s: &str) -> (r: String)
    ensures
        r@ == lower_of(s@),
{
    s.to_lowercase()
}

/// Relies on `str::trim`: the result depends on the characters alone.
#[verifier::external_body]
fn trimmed(s: &str) -> (r: String)
    ensures
        r@ == trim_of(s@),
{
    s.trim().to_string()
}

/// The handshake request: magic, type 9, session id 2.
pub fn handshake_request() -> (r: Vec<u8>)
    ensures
        r@ == seq![0xFEu8, 0xFD, 0x09, 0, 0, 0, 2],
{
    let mut r: Vec<u8> = Vec::new();
    r.push(0xFE);
    r.push(0xFD);
    r.push(0x09);
    r.push(0);
    r.push(0);
    r.push(0);
    r.push(2);
    assert(r@ =~= seq![0xFEu8, 0xFD, 0x09, 0, 0, 0, 2]);
    r
}

/// The full statistics request for a challenge token: magic, type 0,
/// session id 2, the token big-endian, four bytes of padding.
pub open spec fn stat_request_bytes(token: i32) -> Seq<u8> {
    seq![0xFEu8, 0xFD, 0x00, 0, 0, 0, 2] + crate::codec::i32_bytes(token) + seq![0u8, 0, 0, 0]
}

pub fn stat_request(token: i32) -> (r: Vec<u8>)
    ensures
        r@ == stat_request_bytes(token),
{
    let mut r: Vec<u8> = Vec::new();
    r.push(0xFE);
    r.push(0xFD);
    r.push(0x00);
    r.push(0);
    r.push(0);
    r.push(0);
    r.push(2);
    crate::codec::write_i32_be(&mut r, token);
    r.push(0);
    r.push(0);
    r.push(0);
    r.push(0);
    assert(r@ =~= stat_request_bytes(token));
    r
}

pub open spec fn is_digit(b: u8) -> bool {
    48 <= b <= 57
}

/// The decimal value of ASCII digits.
pub open spec fn decimal_value(d: Seq<u8>) -> nat
    decreases d.len(),
{
    if d.len() == 0 {
        0
    } else {
        decimal_value(d.drop_last()) * 10 + (d.last() - 48) as nat
    }
}

pub open spec fn all_digits(d: Seq<u8>) -> bool {
    forall|i: int| 0 <= i < d.len() ==> is_digit(#[trigger] d[i])
}

/// An unsigned number at most `max`, as `str::parse` reads it: an optional
/// `+`, then one or more ASCII digits.
pub open spec fn parse_unsigned(b: Seq<u8>, max: nat) -> Option<nat> {
    let d = if b.len() > 0 && b[0] == 43 { b.subrange(1, b.len() as int) } else { b };
    if d.len() == 0 || !all_digits(d) || decimal_value(d) > max {
        None
    } else {
        Some(decimal_value(d))
    }
}

/// A signed 32-bit number as `str::parse` reads it from text holding only
/// digits and `-`: an optional `-`, then one or more digits.
pub open spec fn parse_signed(b: Seq<u8>) -> Option<i32> {
    if b.len() > 0 && b[0] == 45 {
        let d = b.subrange(1, b.len() as int);
        if d.len() == 0 || !all_digits(d) || decimal_value(d) > 0x8000_0000 {
            None
        } else {
            Some((-(decimal_value(d) as int)) as i32)
        }
    } else {
        if b.len() == 0 || !all_digits(b) || decimal_value(b) > 0x7fff_ffff {
            None
        } else {
            Some(decimal_value(b) as i32)
        }
    }
}

/// Reads ASCII digits, giving `None` past `max` (which is below 2^32).
fn digits_value(d: &[u8], start: usize, max: u64) -> (r: Option<u64>)
    requires
        start <= d@.len(),
        max < 0x1_0000_0000,
    ensures
        ({
            let t = d@.subrange(start as int, d@.len() as int);
            match r {
                Some(v) => all_digits(t) && decimal_value(t) <= max && v == decimal_value(t),
                None => !all_digits(t) || decimal_value(t) > max,
            }
        }),
{
    let mut acc: u64 = 0;
    let mut i: usize = start;
    assert(d@.subrange(start as int, start as int) =~= Seq::<u8>::empty());
    while i < d.len()
        invariant
            start <= i <= d@.len(),
            max < 0x1_0000_0000,
            all_digits(d@.subrange(start as int, i as int)),
            acc == decimal_value(d@.subrange(start as int, i as int)),
            acc <= max,
        decreases d@.len() - i,
    {
        let ghost pre = d@.subrange(start as int, i as int);
        let ghost next = d@.subrange(start as int, i as int + 1);
        assert(next.drop_last() =~= pre);
        let b = d[i];
        if b < 48 || b > 57 {
            proof {
                lemma_not_all_digits(d@.subrange(start as int, d@.len() as int), i - start);
            }
            return None;
        }
        let v = acc * 10 + (b - 48) as u64;
        if v > max {
            proof {
                lemma_decimal_prefix_bound(d@.subrange(start as int, d@.len() as int), (i + 1 - start) as nat);
                assert(d@.subrange(start as int, d@.len() as int).subrange(0, i + 1 - start) =~= next);
            }
            return None;
        }
        acc = v;
        i = i + 1;
    }
    Some(acc)
}

proof fn lemma_not_all_digits(t: Seq<u8>, k: int)
    requires
        0 <= k < t.len(),
        !is_digit(t[k]),
    ensures
        !all_digits(t),
{
}

/// A prefix of digits never has a larger value than the whole.
proof fn lemma_decimal_prefix_bound(t: Seq<u8>, k: nat)
    requires
        k <= t.len(),
    ensures
        all_digits(t) ==> decimal_value(t.subrange(0, k as int)) <= decimal_value(t),
    decreases t.len() - k,
{
    if k < t.len() && all_digits(t) {
        lemma_decimal_prefix_bound(t, k + 1);
        let a = t.subrange(0, k as int + 1);
        assert(a.drop_last() =~= t.subrange(0, k as int));
        assert(is_digit(a.last()));
    } else if k == t.len() {
        assert(t.subrange(0, k as int) =~= t);
    }
}

/// Parses an unsigned number at most `max`; `None` where `parse_unsigned`
/// says so.
pub fn read_unsigned(b: &[u8], max: u64) -> (r: Option<u64>)
    requires
        max < 0x1_0000_0000,
    ensures
        match parse_unsigned(b@, max as nat) {
            Some(v) => r == Some(v as u64),
            None => r is None,
        },
{
    let start: usize = if b.len() > 0 && b[0] == 43 { 1 } else { 0 };
    if start == b.len() {
        return None;
    }
    assert(b@.subrange(0, b@.len() as int) =~= b@);
    digits_value(b, start, max)
}

/// Parses the challenge token from text holding only digits and `-`.
pub fn read_signed(b: &[u8]) -> (r: Option<i32>)
    ensures
        r == parse_signed(b@),
{
    if b.len() > 0 && b[0] == 45 {
        if b.len() == 1 {
            return None;
        }
        match digits_value(b, 1, 0x8000_0000) {
            Some(v) => Some((0 - v as i64) as i32),
            None => None,
        }
    } else {
        if b.len() == 0 {
            return None;
        }
        assert(b@.subrange(0, b@.len() as int) =~= b@);
        match digits_value(b, 0, 0x7fff_ffff) {
            Some(v) => Some(v as i32),
            None => None,
        }
    }
}

/// The digits and `-` signs of `b`, in order.
pub open spec fn token_chars(b: Seq<u8>) -> Seq<u8>
    decreases b.len(),
{
    if b.len() == 0 {
        b
    } else if is_digit(b.last()) || b.last() == 45 {
        token_chars(b.drop_last()).push(b.last())
    } else {
        token_chars(b.drop_last())
    }
}

/// The bytes of `b` up to its first zero byte (all of it if none).
pub open spec fn until_zero(b: Seq<u8>) -> Seq<u8>
    decreases b.len(),
{
    if b.len() == 0 {
        b
    } else if b[0] == 0 {
        Seq::empty()
    } else {
        seq![b[0]] + until_zero(b.drop_first())
    }
}

/// The challenge token of a handshake answer: type 9, four bytes of session
/// id, then the token as text up to a zero byte. Only digits and `-` of the
/// text count; text that is not UTF-8 counts as empty.
pub open spec fn challenge_token(resp: Seq<u8>) -> Option<i32> {
    if resp.len() < 5 || resp[0] != 9 {
        None
    } else {
        let t = until_zero(resp.subrange(5, resp.len() as int));
        if !valid_utf8(t) {
            None
        } else {
            parse_signed(token_chars(t))
        }
    }
}

pub fn parse_challenge(resp: &[u8]) -> (r: Result<i32, ProtocolError>)
    ensures
        match challenge_token(resp@) {
            Some(t) => r == Ok::<i32, ProtocolError>(t),
            None => r == Err::<i32, ProtocolError>(ProtocolError::InvalidEncoding),
        },
{
    if resp.len() < 5 || resp[0] != 9 {
        return Err(ProtocolError::InvalidEncoding);
    }
    let ghost rest = resp@.subrange(5, resp@.len() as int);
    let mut token: Vec<u8> = Vec::new();
    let mut i: usize = 5;
    while i < resp.len() && resp[i] != 0
        invariant
            5 <= i <= resp@.len(),
            rest == resp@.subrange(5, resp@.len() as int),
            until_zero(rest) == token@ + until_zero(resp@.subrange(i as int, resp@.len() as int)),
        decreases resp@.len() - i,
    {
        let ghost tail = resp@.subrange(i as int, resp@.len() as int);
        assert(tail.drop_first() =~= resp@.subrange(i as int + 1, resp@.len() as int));
        token.push(resp[i]);
        i = i + 1;
        assert(until_zero(rest) =~= token@ + until_zero(resp@.subrange(i as int, resp@.len() as int)));
    }
    proof {
        let tail = resp@.subrange(i as int, resp@.len() as int);
        assert(until_zero(tail) =~= Seq::<u8>::empty());
        assert(until_zero(rest) =~= token@);
    }
    if utf8_to_string(token.as_slice()).is_none() {
        return Err(ProtocolError::InvalidEncoding);
    }
    let mut kept: Vec<u8> = Vec::new();
    let mut j: usize = 0;
    assert(token_chars(token@.subrange(0, 0)) =~= kept@);
    while j < token.len()
        invariant
            j <= token@.len(),
            kept@ == token_chars(token@.subrange(0, j as int)),
        decreases token@.len() - j,
    {
        let ghost pre = token@.subrange(0, j as int);
        let ghost next = token@.subrange(0, j as int + 1);
        assert(next.drop_last() =~= pre);
        let b = token[j];
        if (b >= 48 && b <= 57) || b == 45 {
            kept.push(b);
        }
        j = j + 1;
    }
    assert(token@.subrange(0, token@.len() as int) =~= token@);
    match read_signed(kept.as_slice()) {
        Some(t) => Ok(t),
        None => Err(ProtocolError::InvalidEncoding),
    }
}


/// The pieces of `b` between the separator bytes; `n` separators give
/// `n + 1` pieces, empty ones included.
pub open spec fn split_on(b: Seq<u8>, sep: u8) -> Seq<Seq<u8>>
    decreases b.len(),
{
    if b.len() == 0 {
        seq![Seq::empty()]
    } else {
        let parts = split_on(b.drop_last(), sep);
        if b.last() == sep {
            parts.push(Seq::empty())
        } else {
            parts.update(parts.len() - 1, parts.last().push(b.last()))
        }
    }
}

proof fn lemma_split_on_nonempty(b: Seq<u8>, sep: u8)
    ensures
        split_on(b, sep).len() >= 1,
    decreases b.len(),
{
    if b.len() > 0 {
        lemma_split_on_nonempty(b.drop_last(), sep);
    }
}

/// Splits `b` at every separator byte.
pub fn split_bytes(b: &[u8], sep: u8) -> (r: Vec<Vec<u8>>)
    ensures
        r@.map_values(|v: Vec<u8>| v@) == split_on(b@, sep),
{
    let mut done: Vec<Vec<u8>> = Vec::new();
    let mut current: Vec<u8> = Vec::new();
    let mut i: usize = 0;
    assert(b@.subrange(0, 0) =~= Seq::<u8>::empty());
    assert(done@.map_values(|v: Vec<u8>| v@).push(current@) =~= split_on(Seq::<u8>::empty(), sep));
    while i < b.len()
        invariant
            i <= b@.len(),
            done@.map_values(|v: Vec<u8>| v@).push(current@) == split_on(b@.subrange(0, i as int), sep),
        decreases b@.len() - i,
    {
        let ghost pre = b@.subrange(0, i as int);
        let ghost next = b@.subrange(0, i as int + 1);
        assert(next.drop_last() =~= pre);
        let ghost before = done@.map_values(|v: Vec<u8>| v@);
        let ghost cur = current@;
        if b[i] == sep {
            let mut finished: Vec<u8> = Vec::new();
            std::mem::swap(&mut finished, &mut current);
            done.push(finished);
            assert(done@.map_values(|v: Vec<u8>| v@) =~= before.push(cur));
        } else {
            current.push(b[i]);
        }
        i = i + 1;
        assert(done@.map_values(|v: Vec<u8>| v@).push(current@) =~= split_on(next, sep));
    }
    assert(b@.subrange(0, b@.len() as int) =~= b@);
    done.push(current);
    assert(done@.map_values(|v: Vec<u8>| v@) =~= split_on(b@, sep));
    done
}

/// The bytes that end the key/value section.
pub open spec fn players_marker() -> Seq<u8> {
    seq![0u8, 0, 1, 112, 108, 97, 121, 101, 114, 95, 0, 0]
}

/// The first place at or after `i` where `pat` occurs in `b`.
pub open spec fn find_from(b: Seq<u8>, pat: Seq<u8>, i: int) -> Option<int>
    decreases b.len() + 1 - i,
{
    if i < 0 || i + pat.len() > b.len() {
        None
    } else if b.subrange(i, i + pat.len()) == pat {
        Some(i)
    } else {
        find_from(b, pat, i + 1)
    }
}

/// Finds the first occurrence of a non-empty `pat` in `b`.
pub fn find_bytes(b: &[u8], pat: &[u8]) -> (r: Option<usize>)
    requires
        pat@.len() > 0,
    ensures
        match find_from(b@, pat@, 0) {
            Some(i) => r == Some(i as usize),
            None => r is None,
        },
{
    let mut i: usize = 0;
    assert(b@.len() == b.len());
    while i <= b.len() && pat.len() <= b.len() - i
        invariant
            pat@.len() > 0,
            i <= b@.len(),
            b@.len() <= usize::MAX,
            find_from(b@, pat@, 0) == find_from(b@, pat@, i as int),
        decreases b@.len() - i,
    {
        let mut j: usize = 0;
        let mut same = true;
        while j < pat.len()
            invariant
                i + pat@.len() <= b@.len(),
                b@.len() <= usize::MAX,
                j <= pat@.len(),
                same <==> forall|k: int| 0 <= k < j ==> b@[i + k] == pat@[k],
            decreases pat@.len() - j,
        {
            assert(i + j < b@.len());
            let idx: usize = i + j;
            if b[idx] != pat[j] {
                same = false;
            }
            j = j + 1;
        }
        if same {
            assert(b@.subrange(i as int, i + pat@.len()) =~= pat@);
            return Some(i);
        }
        proof {
            if b@.subrange(i as int, i + pat@.len()) == pat@ {
                assert(forall|k: int| 0 <= k < pat@.len() ==> b@[i + k] == #[trigger] b@.subrange(i as int, i + pat@.len())[k]);
            }
        }
        i = i + 1;
    }
    None
}

/// The characters of UTF-8 bytes; other bytes read as empty text.
pub open spec fn text(b: Seq<u8>) -> Seq<char> {
    if valid_utf8(b) { decode_utf8(b) } else { Seq::empty() }
}

fn to_text(b: &[u8]) -> (r: String)
    ensures
        r@ == text(b@),
{
    match utf8_to_string(b) {
        Some(s) => s,
        None => String::new(),
    }
}

/// The value of the last pair among the first `n` whose lowercased key is
/// `key`.
pub open spec fn lookup(parts: Seq<Seq<u8>>, key: Seq<char>, n: nat) -> Option<Seq<u8>>
    decreases n,
{
    if n == 0 {
        None
    } else if lower_of(text(parts[2 * (n - 1)])) == key {
        Some(parts[2 * (n - 1) + 1])
    } else {
        lookup(parts, key, (n - 1) as nat)
    }
}


/// The trimmed, non-empty texts of the pieces.
pub open spec fn plugin_items(pieces: Seq<Seq<u8>>) -> Seq<Seq<char>>
    decreases pieces.len(),
{
    if pieces.len() == 0 {
        Seq::empty()
    } else {
        let rest = plugin_items(pieces.drop_last());
        let t = trim_of(text(pieces.last()));
        if t.len() > 0 { rest.push(t) } else { rest }
    }
}

/// The non-empty UTF-8 pieces, as text.
pub open spec fn player_names(pieces: Seq<Seq<u8>>) -> Seq<Seq<char>>
    decreases pieces.len(),
{
    if pieces.len() == 0 {
        Seq::empty()
    } else {
        let rest = player_names(pieces.drop_last());
        let p = pieces.last();
        if p.len() > 0 && valid_utf8(p) { rest.push(decode_utf8(p)) } else { rest }
    }
}

/// Where the key/value section of a full statistics answer ends: `None`
/// when the answer is shorter than its header or has no marker.
pub open spec fn stat_marker(full: Seq<u8>) -> Option<int> {
    if full.len() < 16 {
        None
    } else {
        find_from(full.subrange(16, full.len() as int), players_marker(), 0)
    }
}

pub open spec fn stat_pairs(full: Seq<u8>, m: int) -> Seq<Seq<u8>> {
    split_on(full.subrange(16, 16 + m), 0)
}

pub open spec fn stat_value(full: Seq<u8>, m: int, key: Seq<char>) -> Option<Seq<u8>> {
    lookup(stat_pairs(full, m), key, stat_pairs(full, m).len() / 2)
}

pub open spec fn stat_text(full: Seq<u8>, m: int, key: Seq<char>) -> Seq<char> {
    match stat_value(full, m, key) {
        Some(v) => text(v),
        None => Seq::empty(),
    }
}

pub open spec fn stat_number(full: Seq<u8>, m: int, key: Seq<char>, max: nat) -> nat {
    match stat_value(full, m, key) {
        Some(v) => match parse_unsigned(v, max) {
            Some(n) => n,
            None => 0,
        },
        None => 0,
    }
}

pub open spec fn stat_plugin_list(full: Seq<u8>, m: int) -> Option<Seq<Seq<char>>> {
    match stat_value(full, m, key_plugins()) {
        Some(v) => if text(v).len() == 0 {
            None
        } else {
            match find_from(v, seq![58u8, 32], 0) {
                None => None,
                Some(k) => {
                    let items = plugin_items(split_on(v.subrange(k + 2, v.len() as int), 59));
                    if items.len() == 0 { None } else { Some(items) }
                },
            }
        },
        None => None,
    }
}

pub open spec fn stat_players(full: Seq<u8>, m: int) -> Seq<Seq<char>> {
    let pb = full.subrange(16 + m + 12, full.len() as int);
    if pb.len() == 0 {
        Seq::empty()
    } else {
        let end = if pb.len() >= 2 { pb.len() - 2 } else { 0 };
        player_names(split_on(pb.subrange(0, end), 0))
    }
}

pub open spec fn key_hostname() -> Seq<char> { seq!['h', 'o', 's', 't', 'n', 'a', 'm', 'e'] }
pub open spec fn key_gametype() -> Seq<char> { seq!['g', 'a', 'm', 'e', 't', 'y', 'p', 'e'] }
pub open spec fn key_map() -> Seq<char> { seq!['m', 'a', 'p'] }
pub open spec fn key_numplayers() -> Seq<char> { seq!['n', 'u', 'm', 'p', 'l', 'a', 'y', 'e', 'r', 's'] }
pub open spec fn key_maxplayers() -> Seq<char> { seq!['m', 'a', 'x', 'p', 'l', 'a', 'y', 'e', 'r', 's'] }
pub open spec fn key_hostip() -> Seq<char> { seq!['h', 'o', 's', 't', 'i', 'p'] }
pub open spec fn key_hostport() -> Seq<char> { seq!['h', 'o', 's', 't', 'p', 'o', 'r', 't'] }
pub open spec fn key_plugins() -> Seq<char> { seq!['p', 'l', 'u', 'g', 'i', 'n', 's'] }

pub open spec fn opt_text(o: Option<String>) -> Option<Seq<char>> {
    match o {
        Some(s) => Some(s@),
        None => None,
    }
}

pub open spec fn opt_texts(o: Option<Vec<String>>) -> Option<Seq<Seq<char>>> {
    match o {
        Some(v) => Some(v@.map_values(|s: String| s@)),
        None => None,
    }
}

pub open spec fn parts_view(v: Seq<Vec<u8>>) -> Seq<Seq<u8>> {
    v.map_values(|b: Vec<u8>| b@)
}

/// The index of the value part of the last pair whose lowercased key is
/// `key`.
fn find_value(parts: &Vec<Vec<u8>>, lowered: &Vec<String>, key: &String) -> (r: Option<usize>)
    requires
        lowered@.len() == parts@.len() / 2,
        forall|k: int| 0 <= k < lowered@.len() ==> (#[trigger] lowered@[k])@ == lower_of(text(parts@[2 * k]@)),
    ensures
        match lookup(parts_view(parts@), key@, (parts@.len() / 2) as nat) {
            Some(v) => r matches Some(j) && j < parts@.len() && parts@[j as int]@ == v,
            None => r is None,
        },
{
    let mut found: Option<usize> = None;
    let mut k: usize = 0;
    let n = lowered.len();
    let total = parts.len();
    while k < n
        invariant
            n == lowered@.len() == parts@.len() / 2,
            total == parts@.len(),
            k <= n,
            forall|k: int| 0 <= k < lowered@.len() ==> (#[trigger] lowered@[k])@ == lower_of(text(parts@[2 * k]@)),
            match lookup(parts_view(parts@), key@, k as nat) {
                Some(v) => found matches Some(j) && j < parts@.len() && parts@[j as int]@ == v,
                None => found is None,
            },
        decreases n - k,
    {
        assert(parts_view(parts@)[2 * k as int] == parts@[2 * k as int]@);
        assert(parts_view(parts@)[2 * k as int + 1] == parts@[2 * k as int + 1]@);
        if lowered[k] == *key {
            found = Some(2 * k + 1);
        }
        k = k + 1;
    }
    found
}


fn lowered_keys(parts: &Vec<Vec<u8>>) -> (r: Vec<String>)
    ensures
        r@.len() == parts@.len() / 2,
        forall|k: int| 0 <= k < r@.len() ==> (#[trigger] r@[k])@ == lower_of(text(parts@[2 * k]@)),
{
    let mut r: Vec<String> = Vec::new();
    let total = parts.len();
    let n = total / 2;
    let mut k: usize = 0;
    while k < n
        invariant
            total == parts@.len(),
            n == parts@.len() / 2,
            k <= n,
            r@.len() == k,
            forall|j: int| 0 <= j < k ==> (#[trigger] r@[j])@ == lower_of(text(parts@[2 * j]@)),
        decreases n - k,
    {
        let key = to_text(parts[2 * k].as_slice());
        r.push(lowercase(key.as_str()));
        k = k + 1;
    }
    r
}

/// The plugin names after `": "` in a plugins value, split at `;`, trimmed,
/// the empty ones dropped; `None` when there are none.
fn plugin_list(v: &[u8]) -> (r: Option<Vec<String>>)
    ensures
        opt_texts(r) == match find_from(v@, seq![58u8, 32], 0) {
            None => None,
            Some(k) => {
                let items = plugin_items(split_on(v@.subrange(k + 2, v@.len() as int), 59));
                if items.len() == 0 { None } else { Some(items) }
            },
        },
{
    let mut sep: Vec<u8> = Vec::new();
    sep.push(58);
    sep.push(32);
    assert(sep@ =~= seq![58u8, 32]);
    let k = match find_bytes(v, sep.as_slice()) {
        Some(k) => k,
        None => return None,
    };
    proof {
        lemma_find_from_in_range(v@, sep@, 0);
    }
    assert(v@.len() == v.len());
    let rest = vstd::slice::slice_subrange(v, k + 2, v.len());
    let pieces = split_bytes(rest, 59);
    let ghost pv = pieces@.map_values(|b: Vec<u8>| b@);
    let mut items: Vec<String> = Vec::new();
    let mut i: usize = 0;
    assert(pv.subrange(0, 0) =~= Seq::<Seq<u8>>::empty());
    assert(items@.map_values(|s: String| s@) =~= plugin_items(pv.subrange(0, 0)));
    while i < pieces.len()
        invariant
            i <= pieces@.len(),
            pv == pieces@.map_values(|b: Vec<u8>| b@),
            items@.map_values(|s: String| s@) == plugin_items(pv.subrange(0, i as int)),
        decreases pieces@.len() - i,
    {
        let ghost sub = pv.subrange(0, i as int + 1);
        assert(sub.drop_last() =~= pv.subrange(0, i as int));
        assert(sub.last() == pieces@[i as int]@);
        let ghost before = items@.map_values(|s: String| s@);
        let t = trimmed(to_text(pieces[i].as_slice()).as_str());
        if !t.as_str().is_empty() {
            let ghost tv = t@;
            items.push(t);
            assert(items@.map_values(|s: String| s@) =~= before.push(tv));
        }
        i = i + 1;
    }
    assert(pv.subrange(0, pv.len() as int) =~= pv);
    if items.len() == 0 {
        None
    } else {
        Some(items)
    }
}

proof fn lemma_find_from_in_range(b: Seq<u8>, pat: Seq<u8>, i: int)
    ensures
        find_from(b, pat, i) matches Some(k) ==> i <= k && k + pat.len() <= b.len(),
    decreases b.len() + 1 - i,
{
    if !(i < 0 || i + pat.len() > b.len()) && b.subrange(i, i + pat.len()) != pat {
        lemma_find_from_in_range(b, pat, i + 1);
    }
}

/// The player names of the section after the marker: the last two bytes
/// are padding, the names are separated by zero bytes.
fn player_list(pb: &[u8]) -> (r: Vec<String>)
    ensures
        r@.map_values(|s: String| s@) == (if pb@.len() == 0 {
            Seq::<Seq<char>>::empty()
        } else {
            let end = if pb@.len() >= 2 { pb@.len() - 2 } else { 0 };
            player_names(split_on(pb@.subrange(0, end), 0))
        }),
{
    let mut names: Vec<String> = Vec::new();
    if pb.len() == 0 {
        assert(names@.map_values(|s: String| s@) =~= Seq::<Seq<char>>::empty());
        return names;
    }
    let end: usize = if pb.len() >= 2 { pb.len() - 2 } else { 0 };
    let pieces = split_bytes(vstd::slice::slice_subrange(pb, 0, end), 0);
    let ghost pv = pieces@.map_values(|b: Vec<u8>| b@);
    let mut i: usize = 0;
    assert(pv.subrange(0, 0) =~= Seq::<Seq<u8>>::empty());
    assert(names@.map_values(|s: String| s@) =~= player_names(pv.subrange(0, 0)));
    while i < pieces.len()
        invariant
            i <= pieces@.len(),
            pv == pieces@.map_values(|b: Vec<u8>| b@),
            names@.map_values(|s: String| s@) == player_names(pv.subrange(0, i as int)),
        decreases pieces@.len() - i,
    {
        let ghost sub = pv.subrange(0, i as int + 1);
        assert(sub.drop_last() =~= pv.subrange(0, i as int));
        assert(sub.last() == pieces@[i as int]@);
        let ghost before = names@.map_values(|s: String| s@);
        if pieces[i].len() > 0 {
            match utf8_to_string(pieces[i].as_slice()) {
                Some(name) => {
                    let ghost nv = name@;
                    names.push(name);
                    assert(names@.map_values(|s: String| s@) =~= before.push(nv));
                },
                None => {},
            }
        }
        i = i + 1;
    }
    assert(pv.subrange(0, pv.len() as int) =~= pv);
    names
}

fn value_text(parts: &Vec<Vec<u8>>, at: Option<usize>) -> (r: String)
    requires
        at matches Some(j) ==> j < parts@.len(),
    ensures
        r@ == match at {
            Some(j) => text(parts@[j as int]@),
            None => Seq::<char>::empty(),
        },
{
    match at {
        Some(j) => to_text(parts[j].as_slice()),
        None => String::new(),
    }
}

fn value_number(parts: &Vec<Vec<u8>>, at: Option<usize>, max: u64) -> (r: u64)
    requires
        at matches Some(j) ==> j < parts@.len(),
        max < 0x1_0000_0000,
    ensures
        r == match at {
            Some(j) => match parse_unsigned(parts@[j as int]@, max as nat) {
                Some(n) => n,
                None => 0,
            },
            None => 0,
        },
{
    match at {
        Some(j) => match read_unsigned(parts[j].as_slice(), max) {
            Some(n) => n,
            None => 0,
        },
        None => 0,
    }
}


fn key_string(k: &str) -> (r: String)
    ensures
        r@ == k@,
{
    k.to_owned()
}

/// Parses a full statistics answer. It must hold the sixteen header bytes
/// (else `UnexpectedEnd`) and the players marker (else `InvalidEncoding`).
/// Each field is the value of the last pair whose lowercased key names it,
/// empty or zero when absent or unreadable.
pub fn parse_full_stat(full: &[u8]) -> (r: Result<QueryResponse, ProtocolError>)
    ensures
        match stat_marker(full@) {
            None => r == Err::<QueryResponse, ProtocolError>(
                if full@.len() < 16 { ProtocolError::UnexpectedEnd } else { ProtocolError::InvalidEncoding },
            ),
            Some(m) => r matches Ok(q) && q.motd@ == stat_text(full@, m, key_hostname()) && q.game_type@
                == stat_text(full@, m, key_gametype()) && q.map@ == stat_text(full@, m, key_map())
                && q.online_players == stat_number(full@, m, key_numplayers(), u32::MAX as nat)
                && q.max_players == stat_number(full@, m, key_maxplayers(), u32::MAX as nat) && q.host_ip@
                == stat_text(full@, m, key_hostip()) && q.host_port == stat_number(
                full@,
                m,
                key_hostport(),
                u16::MAX as nat,
            ) && opt_text(q.plugins) == (if stat_text(full@, m, key_plugins()).len() > 0 {
                Some(stat_text(full@, m, key_plugins()))
            } else {
                None
            }) && opt_texts(q.plugin_list) == stat_plugin_list(full@, m) && q.players@.map_values(
                |s: String| s@,
            ) == stat_players(full@, m),
        },
{
    if full.len() < 16 {
        return Err(ProtocolError::UnexpectedEnd);
    }
    let data = vstd::slice::slice_subrange(full, 16, full.len());
    let mut marker: Vec<u8> = Vec::new();
    marker.push(0);
    marker.push(0);
    marker.push(1);
    marker.push(112);
    marker.push(108);
    marker.push(97);
    marker.push(121);
    marker.push(101);
    marker.push(114);
    marker.push(95);
    marker.push(0);
    marker.push(0);
    assert(marker@ =~= players_marker());
    let m = match find_bytes(data, marker.as_slice()) {
        Some(m) => m,
        None => return Err(ProtocolError::InvalidEncoding),
    };
    proof {
        lemma_find_from_in_range(data@, marker@, 0);
    }
    let info = vstd::slice::slice_subrange(data, 0, m);
    assert(info@ =~= full@.subrange(16, 16 + m));
    let players_part = vstd::slice::slice_subrange(data, m + 12, data.len());
    assert(players_part@ =~= full@.subrange(16 + m + 12, full@.len() as int));
    let parts = split_bytes(info, 0);
    let ghost pv = parts@.map_values(|b: Vec<u8>| b@);
    assert(parts_view(parts@) == pv);
    assert(pv == stat_pairs(full@, m as int));
    let lowered = lowered_keys(&parts);

    proof {
        reveal_strlit("hostname");
        reveal_strlit("gametype");
        reveal_strlit("map");
        reveal_strlit("numplayers");
        reveal_strlit("maxplayers");
        reveal_strlit("hostip");
        reveal_strlit("hostport");
        reveal_strlit("plugins");
    }
    let at_host = find_value(&parts, &lowered, &key_string("hostname"));
    assert("hostname"@ =~= key_hostname());
    let at_type = find_value(&parts, &lowered, &key_string("gametype"));
    assert("gametype"@ =~= key_gametype());
    let at_map = find_value(&parts, &lowered, &key_string("map"));
    assert("map"@ =~= key_map());
    let at_num = find_value(&parts, &lowered, &key_string("numplayers"));
    assert("numplayers"@ =~= key_numplayers());
    let at_max = find_value(&parts, &lowered, &key_string("maxplayers"));
    assert("maxplayers"@ =~= key_maxplayers());
    let at_ip = find_value(&parts, &lowered, &key_string("hostip"));
    assert("hostip"@ =~= key_hostip());
    let at_port = find_value(&parts, &lowered, &key_string("hostport"));
    assert("hostport"@ =~= key_hostport());
    let at_plugins = find_value(&parts, &lowered, &key_string("plugins"));
    assert("plugins"@ =~= key_plugins());

    let plugins_text = value_text(&parts, at_plugins);
    let (plugins, plugin_names) = if plugins_text.as_str().is_empty() {
        (None, None)
    } else {
        let list = match at_plugins {
            Some(j) => plugin_list(parts[j].as_slice()),
            None => None,
        };
        (Some(plugins_text), list)
    };
    let q = QueryResponse {
        motd: value_text(&parts, at_host),
        game_type: value_text(&parts, at_type),
        map: value_text(&parts, at_map),
        online_players: value_number(&parts, at_num, 0xffff_ffff) as u32,
        max_players: value_number(&parts, at_max, 0xffff_ffff) as u32,
        host_ip: value_text(&parts, at_ip),
        host_port: value_number(&parts, at_port, 0xffff) as u16,
        plugins,
        plugin_list: plugin_names,
        players: player_list(players_part),
    };
    Ok(q)
}

} // verus!
