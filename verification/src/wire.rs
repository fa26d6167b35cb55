//! Primitives of the binary wire schema.
//!
//! Every value crossing the boundary is laid out from these pieces:
//! - unsigned integers as fixed-width little-endian bytes,
//! - timestamps as signed 64-bit epoch milliseconds (two's complement),
//! - booleans as a single strict 0/1 byte,
//! - strings as a 64-bit byte length followed by UTF-8 bytes,
//! - absent optional strings as a 0 tag, distinct from an empty string.
//!
//! Each encoder has a spec-level mirror (`se_*`), each decoder a spec-level
//! mirror (`sd_*`) returning the decoded value and the position after it; the
//! executable functions are proved to agree with them exactly, and round-trip
//! lemmas show that decoding an encoding yields the value back.

use vstd::prelude::*;
use vstd::utf8::{decode_utf8, encode_utf8, valid_utf8};

verus! {

// ---------------------------------------------------------------------------
// Unsigned 64-bit, little endian
// ---------------------------------------------------------------------------
/// The 8 little-endian bytes of `v`.
pub open spec fn se_u64(v: u64) -> Seq<u8> {
    seq![
        v as u8,
        (v >> 8) as u8,
        (v >> 16) as u8,
        (v >> 24) as u8,
        (v >> 32) as u8,
        (v >> 40) as u8,
        (v >> 48) as u8,
        (v >> 56) as u8,
    ]
}

/// The value of the 8 little-endian bytes at `i`.
pub open spec fn sd_u64_val(b: Seq<u8>, i: int) -> u64 {
    (b[i] as u64) | ((b[i + 1] as u64) << 8) | ((b[i + 2] as u64) << 16) | ((b[i + 3] as u64)
        << 24) | ((b[i + 4] as u64) << 32) | ((b[i + 5] as u64) << 40) | ((b[i + 6] as u64) << 48)
        | ((b[i + 7] as u64) << 56)
}

/// Decoding a 64-bit value at `i`: the value and the position after it.
pub open spec fn sd_u64(b: Seq<u8>, i: int) -> Option<(u64, int)> {
    if 0 <= i && i + 8 <= b.len() {
        Some((sd_u64_val(b, i), i + 8))
    } else {
        None
    }
}

/// Decoding the 8 bytes of an encoded 64-bit value yields the value back.
pub proof fn lemma_sd_se_u64(b: Seq<u8>, i: int, v: u64)
    requires
        0 <= i,
        i + 8 <= b.len(),
        b.subrange(i, i + 8) == se_u64(v),
    ensures
        sd_u64(b, i) == Some((v, i + 8)),
{
    let s = b.subrange(i, i + 8);
    assert(b[i] == s[0] && b[i + 1] == s[1] && b[i + 2] == s[2] && b[i + 3] == s[3] && b[i + 4]
        == s[4] && b[i + 5] == s[5] && b[i + 6] == s[6] && b[i + 7] == s[7]);
    assert((v as u8) as u64 | (((v >> 8) as u8) as u64) << 8 | (((v >> 16) as u8) as u64) << 16 | ((
    (v >> 24) as u8) as u64) << 24 | (((v >> 32) as u8) as u64) << 32 | (((v >> 40) as u8) as u64)
        << 40 | (((v >> 48) as u8) as u64) << 48 | (((v >> 56) as u8) as u64) << 56 == v)
        by (bit_vector);
}

/// Appends the 8 little-endian bytes of `v`.
pub fn wr_u64(out: &mut Vec<u8>, v: u64)
    ensures
        final(out)@ == old(out)@ + se_u64(v),
{
    out.push(#[verifier::truncate] (v as u8));
    out.push(#[verifier::truncate] ((v >> 8) as u8));
    out.push(#[verifier::truncate] ((v >> 16) as u8));
    out.push(#[verifier::truncate] ((v >> 24) as u8));
    out.push(#[verifier::truncate] ((v >> 32) as u8));
    out.push(#[verifier::truncate] ((v >> 40) as u8));
    out.push(#[verifier::truncate] ((v >> 48) as u8));
    out.push(#[verifier::truncate] ((v >> 56) as u8));
    proof {
        assert(out@ =~= old(out)@ + se_u64(v));
    }
}

/// Reads a 64-bit value, exactly as `sd_u64` describes.
pub fn rd_u64(b: &[u8], pos: usize) -> (r: Option<(u64, usize)>)
    ensures
        match r {
            Some(vp) => sd_u64(b@, pos as int) == Some((vp.0, vp.1 as int)) && vp.1 <= b@.len(),
            None => sd_u64(b@, pos as int) is None,
        },
{
    if pos > b.len() || b.len() - pos < 8 {
        return None;
    }
    let v = (b[pos] as u64) | ((b[pos + 1] as u64) << 8) | ((b[pos + 2] as u64) << 16) | ((b[pos
        + 3] as u64) << 24) | ((b[pos + 4] as u64) << 32) | ((b[pos + 5] as u64) << 40) | ((b[pos
        + 6] as u64) << 48) | ((b[pos + 7] as u64) << 56);
    Some((v, pos + 8))
}

// ---------------------------------------------------------------------------
// Unsigned 32-bit, little endian
// ---------------------------------------------------------------------------
/// The 4 little-endian bytes of `v`.
pub open spec fn se_u32(v: u32) -> Seq<u8> {
    seq![v as u8, (v >> 8) as u8, (v >> 16) as u8, (v >> 24) as u8]
}

/// The value of the 4 little-endian bytes at `i`.
pub open spec fn sd_u32_val(b: Seq<u8>, i: int) -> u32 {
    (b[i] as u32) | ((b[i + 1] as u32) << 8) | ((b[i + 2] as u32) << 16) | ((b[i + 3] as u32)
        << 24)
}

/// Decoding a 32-bit value at `i`.
pub open spec fn sd_u32(b: Seq<u8>, i: int) -> Option<(u32, int)> {
    if 0 <= i && i + 4 <= b.len() {
        Some((sd_u32_val(b, i), i + 4))
    } else {
        None
    }
}

/// Decoding the 4 bytes of an encoded 32-bit value yields the value back.
pub proof fn lemma_sd_se_u32(b: Seq<u8>, i: int, v: u32)
    requires
        0 <= i,
        i + 4 <= b.len(),
        b.subrange(i, i + 4) == se_u32(v),
    ensures
        sd_u32(b, i) == Some((v, i + 4)),
{
    let s = b.subrange(i, i + 4);
    assert(b[i] == s[0] && b[i + 1] == s[1] && b[i + 2] == s[2] && b[i + 3] == s[3]);
    assert((v as u8) as u32 | (((v >> 8) as u8) as u32) << 8 | (((v >> 16) as u8) as u32) << 16 | ((
    (v >> 24) as u8) as u32) << 24 == v) by (bit_vector);
}

/// Appends the 4 little-endian bytes of `v`.
pub fn wr_u32(out: &mut Vec<u8>, v: u32)
    ensures
        final(out)@ == old(out)@ + se_u32(v),
{
    out.push(#[verifier::truncate] (v as u8));
    out.push(#[verifier::truncate] ((v >> 8) as u8));
    out.push(#[verifier::truncate] ((v >> 16) as u8));
    out.push(#[verifier::truncate] ((v >> 24) as u8));
    proof {
        assert(out@ =~= old(out)@ + se_u32(v));
    }
}

/// Reads a 32-bit value, exactly as `sd_u32` describes.
pub fn rd_u32(b: &[u8], pos: usize) -> (r: Option<(u32, usize)>)
    ensures
        match r {
            Some(vp) => sd_u32(b@, pos as int) == Some((vp.0, vp.1 as int)) && vp.1 <= b@.len(),
            None => sd_u32(b@, pos as int) is None,
        },
{
    if pos > b.len() || b.len() - pos < 4 {
        return None;
    }
    let v = (b[pos] as u32) | ((b[pos + 1] as u32) << 8) | ((b[pos + 2] as u32) << 16) | ((b[pos
        + 3] as u32) << 24);
    Some((v, pos + 4))
}

// ---------------------------------------------------------------------------
// Signed 64-bit (epoch milliseconds), two's complement little endian
// ---------------------------------------------------------------------------
/// The 8 little-endian bytes of `v` in two's complement.
pub open spec fn se_i64(v: i64) -> Seq<u8> {
    se_u64(v as u64)
}

/// Decoding a signed 64-bit value at `i`.
pub open spec fn sd_i64(b: Seq<u8>, i: int) -> Option<(i64, int)> {
    match sd_u64(b, i) {
        Some((v, p)) => Some((v as i64, p)),
        None => None,
    }
}

/// Decoding the 8 bytes of an encoded signed value yields the value back.
pub proof fn lemma_sd_se_i64(b: Seq<u8>, i: int, v: i64)
    requires
        0 <= i,
        i + 8 <= b.len(),
        b.subrange(i, i + 8) == se_i64(v),
    ensures
        sd_i64(b, i) == Some((v, i + 8)),
{
    lemma_sd_se_u64(b, i, v as u64);
    assert((v as u64) as i64 == v) by (bit_vector);
}

/// Appends the 8 little-endian two's-complement bytes of `v`.
pub fn wr_i64(out: &mut Vec<u8>, v: i64)
    ensures
        final(out)@ == old(out)@ + se_i64(v),
{
    wr_u64(out, #[verifier::truncate] (v as u64));
}

/// Reads a signed 64-bit value, exactly as `sd_i64` describes.
pub fn rd_i64(b: &[u8], pos: usize) -> (r: Option<(i64, usize)>)
    ensures
        match r {
            Some(vp) => sd_i64(b@, pos as int) == Some((vp.0, vp.1 as int)) && vp.1 <= b@.len(),
            None => sd_i64(b@, pos as int) is None,
        },
{
    match rd_u64(b, pos) {
        Some((v, p)) => Some((#[verifier::truncate] (v as i64), p)),
        None => None,
    }
}

// ---------------------------------------------------------------------------
// Booleans: one strict 0/1 byte
// ---------------------------------------------------------------------------
/// The single byte of a boolean.
pub open spec fn se_bool(v: bool) -> Seq<u8> {
    seq![if v { 1u8 } else { 0u8 }]
}

/// Decoding a boolean at `i`; any byte other than 0 or 1 is malformed.
pub open spec fn sd_bool(b: Seq<u8>, i: int) -> Option<(bool, int)> {
    if 0 <= i && i + 1 <= b.len() {
        if b[i] == 1u8 {
            Some((true, i + 1))
        } else if b[i] == 0u8 {
            Some((false, i + 1))
        } else {
            None
        }
    } else {
        None
    }
}

/// Decoding the byte of an encoded boolean yields the value back.
pub proof fn lemma_sd_se_bool(b: Seq<u8>, i: int, v: bool)
    requires
        0 <= i,
        i + 1 <= b.len(),
        b.subrange(i, i + 1) == se_bool(v),
    ensures
        sd_bool(b, i) == Some((v, i + 1)),
{
    assert(b[i] == b.subrange(i, i + 1)[0]);
}

/// Appends the byte of a boolean.
pub fn wr_bool(out: &mut Vec<u8>, v: bool)
    ensures
        final(out)@ == old(out)@ + se_bool(v),
{
    out.push(if v { 1u8 } else { 0u8 });
    proof {
        assert(out@ =~= old(out)@ + se_bool(v));
    }
}

/// Reads a boolean, exactly as `sd_bool` describes.
pub fn rd_bool(b: &[u8], pos: usize) -> (r: Option<(bool, usize)>)
    ensures
        match r {
            Some(vp) => sd_bool(b@, pos as int) == Some((vp.0, vp.1 as int)) && vp.1 <= b@.len(),
            None => sd_bool(b@, pos as int) is None,
        },
{
    if pos >= b.len() {
        return None;
    }
    let c = b[pos];
    if c == 1 {
        Some((true, pos + 1))
    } else if c == 0 {
        Some((false, pos + 1))
    } else {
        None
    }
}

} // verus!

verus! {

// ---------------------------------------------------------------------------
// Byte blocks: a 64-bit length followed by the bytes themselves
// ---------------------------------------------------------------------------
/// A block fits the schema when its length fits the 64-bit prefix.
pub open spec fn wf_bytes(p: Seq<u8>) -> bool {
    p.len() <= u64::MAX
}

/// The length prefix followed by the bytes.
pub open spec fn se_bytes(p: Seq<u8>) -> Seq<u8> {
    se_u64(p.len() as u64) + p
}

/// Decoding a block at `i`: the bytes and the position after them.
pub open spec fn sd_bytes(b: Seq<u8>, i: int) -> Option<(Seq<u8>, int)> {
    match sd_u64(b, i) {
        Some((n, p)) => {
            if p + n <= b.len() {
                Some((b.subrange(p, p + n), p + n))
            } else {
                None
            }
        },
        None => None,
    }
}

/// Decoding an encoded block yields the bytes back.
pub proof fn lemma_sd_se_bytes(b: Seq<u8>, i: int, p: Seq<u8>)
    requires
        0 <= i,
        wf_bytes(p),
        i + se_bytes(p).len() <= b.len(),
        b.subrange(i, i + se_bytes(p).len()) == se_bytes(p),
    ensures
        sd_bytes(b, i) == Some((p, i + se_bytes(p).len())),
{
    lemma_split_at(b, i, se_u64(p.len() as u64), p);
    lemma_sd_se_u64(b, i, p.len() as u64);
}

/// Splitting a matched concatenation into its two matched halves.
pub proof fn lemma_split_at(b: Seq<u8>, i: int, s1: Seq<u8>, s2: Seq<u8>)
    requires
        0 <= i,
        i + s1.len() + s2.len() <= b.len(),
        b.subrange(i, i + s1.len() + s2.len()) == s1 + s2,
    ensures
        b.subrange(i, i + s1.len()) == s1,
        b.subrange(i + s1.len(), i + s1.len() + s2.len()) == s2,
{
    let whole = b.subrange(i, i + s1.len() + s2.len());
    assert forall|k: int| 0 <= k < s1.len() implies b.subrange(i, i + s1.len())[k] == s1[k] by {
        assert(whole[k] == (s1 + s2)[k]);
    }
    assert(b.subrange(i, i + s1.len()) =~= s1);
    assert forall|k: int| 0 <= k < s2.len() implies b.subrange(
        i + s1.len(),
        i + s1.len() + s2.len(),
    )[k] == s2[k] by {
        assert(whole[s1.len() + k] == (s1 + s2)[s1.len() + k]);
    }
    assert(b.subrange(i + s1.len(), i + s1.len() + s2.len()) =~= s2);
}

/// Appends the bytes of a slice.
pub fn push_bytes(out: &mut Vec<u8>, s: &[u8])
    ensures
        final(out)@ == old(out)@ + s@,
{
    let mut i: usize = 0;
    while i < s.len()
        invariant
            0 <= i <= s@.len(),
            out@ == old(out)@ + s@.subrange(0, i as int),
        decreases s@.len() - i,
    {
        out.push(s[i]);
        proof {
            assert(out@ =~= old(out)@ + s@.subrange(0, i + 1 as int));
        }
        i = i + 1;
    }
    proof {
        assert(s@.subrange(0, s@.len() as int) =~= s@);
    }
}

/// Appends a length-prefixed byte block.
pub fn wr_bytes(out: &mut Vec<u8>, s: &[u8])
    ensures
        final(out)@ == old(out)@ + se_bytes(s@),
{
    wr_u64(out, s.len() as u64);
    push_bytes(out, s);
    proof {
        assert(out@ =~= old(out)@ + se_bytes(s@));
    }
}

/// Reads a length-prefixed byte block, exactly as `sd_bytes` describes.
pub fn rd_bytes(b: &[u8], pos: usize) -> (r: Option<(Vec<u8>, usize)>)
    ensures
        match r {
            Some(vp) => sd_bytes(b@, pos as int) == Some((vp.0@, vp.1 as int)) && vp.1 <= b@.len(),
            None => sd_bytes(b@, pos as int) is None,
        },
{
    match rd_u64(b, pos) {
        Some((n, p)) => {
            let rem = b.len() - p;
            if n > rem as u64 {
                return None;
            }
            let len = n as usize;
            let blen = b.len();
            let mut out: Vec<u8> = Vec::new();
            let mut j: usize = 0;
            while j < len
                invariant
                    0 <= j <= len,
                    p + len <= blen,
                    blen == b@.len(),
                    out@ == b@.subrange(p as int, p + j),
                decreases len - j,
            {
                out.push(b[p + j]);
                proof {
                    assert(out@ =~= b@.subrange(p as int, p + j + 1));
                }
                j = j + 1;
            }
            Some((out, p + len))
        },
        None => None,
    }
}

// ---------------------------------------------------------------------------
// Strings: a length-prefixed UTF-8 byte block
// ---------------------------------------------------------------------------
/// A string fits the schema when its UTF-8 encoding fits the length prefix.
pub open spec fn wf_str(s: Seq<char>) -> bool {
    wf_bytes(encode_utf8(s))
}

/// The UTF-8 bytes of the string, length-prefixed.
pub open spec fn se_str(s: Seq<char>) -> Seq<u8> {
    se_bytes(encode_utf8(s))
}

/// Decoding a string at `i`: its characters and the position after them.
/// Bytes that are not valid UTF-8 are malformed.
pub open spec fn sd_str(b: Seq<u8>, i: int) -> Option<(Seq<char>, int)> {
    match sd_bytes(b, i) {
        Some((p, q)) => {
            if valid_utf8(p) {
                Some((decode_utf8(p), q))
            } else {
                None
            }
        },
        None => None,
    }
}

/// Decoding an encoded string yields the characters back.
pub proof fn lemma_sd_se_str(b: Seq<u8>, i: int, s: Seq<char>)
    requires
        0 <= i,
        wf_str(s),
        i + se_str(s).len() <= b.len(),
        b.subrange(i, i + se_str(s).len()) == se_str(s),
    ensures
        sd_str(b, i) == Some((s, i + se_str(s).len())),
{
    lemma_sd_se_bytes(b, i, encode_utf8(s));
    vstd::utf8::encode_utf8_valid_utf8(s);
    vstd::utf8::encode_utf8_decode_utf8(s);
}

/// Relies on `String::from_utf8`: yields the characters whose UTF-8 encoding
/// is exactly the given bytes, and nothing when the bytes are not valid UTF-8.
#[verifier::external_body]
fn string_from_utf8(v: Vec<u8>) -> (r: Option<String>)
    ensures
        r is Some <==> valid_utf8(v@),
        r matches Some(s) ==> s@ == decode_utf8(v@),
{
    String::from_utf8(v).ok()
}

/// Appends a length-prefixed UTF-8 string.
pub fn wr_str(out: &mut Vec<u8>, s: &str)
    ensures
        final(out)@ == old(out)@ + se_str(s@),
{
    let bytes = s.as_bytes();
    wr_bytes(out, bytes);
}

/// Reads a length-prefixed UTF-8 string, exactly as `sd_str` describes.
pub fn rd_str(b: &[u8], pos: usize) -> (r: Option<(String, usize)>)
    ensures
        match r {
            Some(vp) => sd_str(b@, pos as int) == Some((vp.0@, vp.1 as int)) && vp.1 <= b@.len(),
            None => sd_str(b@, pos as int) is None,
        },
{
    match rd_bytes(b, pos) {
        Some((payload, p)) => {
            match string_from_utf8(payload) {
                Some(s) => Some((s, p)),
                None => None,
            }
        },
        None => None,
    }
}

// ---------------------------------------------------------------------------
// Optional strings: a 0 tag for absent, a 1 tag followed by the string
// ---------------------------------------------------------------------------
/// An optional string fits the schema when its string, if present, does.
pub open spec fn wf_opt_str(o: Option<Seq<char>>) -> bool {
    o matches Some(s) ==> wf_str(s)
}

/// The tagged encoding of an optional string; absent is distinct from empty.
pub open spec fn se_opt_str(o: Option<Seq<char>>) -> Seq<u8> {
    match o {
        None => seq![0u8],
        Some(s) => seq![1u8] + se_str(s),
    }
}

/// Decoding an optional string at `i`; any tag other than 0 or 1 is malformed.
pub open spec fn sd_opt_str(b: Seq<u8>, i: int) -> Option<(Option<Seq<char>>, int)> {
    if 0 <= i && i + 1 <= b.len() {
        if b[i] == 0u8 {
            Some((None, i + 1))
        } else if b[i] == 1u8 {
            match sd_str(b, i + 1) {
                Some((s, p)) => Some((Some(s), p)),
                None => None,
            }
        } else {
            None
        }
    } else {
        None
    }
}

/// Decoding an encoded optional string yields the value back.
pub proof fn lemma_sd_se_opt_str(b: Seq<u8>, i: int, o: Option<Seq<char>>)
    requires
        0 <= i,
        wf_opt_str(o),
        i + se_opt_str(o).len() <= b.len(),
        b.subrange(i, i + se_opt_str(o).len()) == se_opt_str(o),
    ensures
        sd_opt_str(b, i) == Some((o, i + se_opt_str(o).len())),
{
    match o {
        None => {
            assert(b[i] == b.subrange(i, i + 1)[0]);
        },
        Some(s) => {
            lemma_split_at(b, i, seq![1u8], se_str(s));
            assert(b[i] == b.subrange(i, i + 1)[0]);
            lemma_sd_se_str(b, i + 1, s);
        },
    }
}

/// Appends a tagged optional string.
pub fn wr_opt_str(out: &mut Vec<u8>, o: &Option<String>)
    ensures
        final(out)@ == old(out)@ + se_opt_str(o.deep_view()),
{
    match o {
        None => {
            out.push(0u8);
            proof {
                assert(out@ =~= old(out)@ + se_opt_str(None));
            }
        },
        Some(s) => {
            out.push(1u8);
            wr_str(out, s.as_str());
            proof {
                assert(out@ =~= old(out)@ + se_opt_str(Some(s@)));
            }
        },
    }
}

/// Reads a tagged optional string, exactly as `sd_opt_str` describes.
pub fn rd_opt_str(b: &[u8], pos: usize) -> (r: Option<(Option<String>, usize)>)
    ensures
        match r {
            Some(vp) => sd_opt_str(b@, pos as int) == Some((vp.0.deep_view(), vp.1 as int))
                && vp.1 <= b@.len(),
            None => sd_opt_str(b@, pos as int) is None,
        },
{
    if pos >= b.len() {
        return None;
    }
    let tag = b[pos];
    if tag == 0 {
        Some((None, pos + 1))
    } else if tag == 1 {
        match rd_str(b, pos + 1) {
            Some((s, p)) => Some((Some(s), p)),
            None => None,
        }
    } else {
        None
    }
}

} // verus!

verus! {

// ---------------------------------------------------------------------------
// Key/value entry lists: maps travel as count-prefixed vectors of entries.
// The codec itself does not enforce key uniqueness or any order: duplicate
// entries are carried through faithfully, and a consumer building a map
// resolves them last-write-wins, as standard map construction does.
// ---------------------------------------------------------------------------
/// A string key/value entry: two strings back to back.
pub open spec fn se_str_pair(p: (Seq<char>, Seq<char>)) -> Seq<u8> {
    se_str(p.0) + se_str(p.1)
}

pub open spec fn wf_str_pair(p: (Seq<char>, Seq<char>)) -> bool {
    wf_str(p.0) && wf_str(p.1)
}

pub open spec fn sd_str_pair(b: Seq<u8>, i: int) -> Option<((Seq<char>, Seq<char>), int)> {
    match sd_str(b, i) {
        Some((k, p)) => match sd_str(b, p) {
            Some((v, q)) => Some(((k, v), q)),
            None => None,
        },
        None => None,
    }
}

pub proof fn lemma_sd_se_str_pair(b: Seq<u8>, i: int, p: (Seq<char>, Seq<char>))
    requires
        0 <= i,
        wf_str_pair(p),
        i + se_str_pair(p).len() <= b.len(),
        b.subrange(i, i + se_str_pair(p).len()) == se_str_pair(p),
    ensures
        sd_str_pair(b, i) == Some((p, i + se_str_pair(p).len())),
{
    lemma_split_at(b, i, se_str(p.0), se_str(p.1));
    lemma_sd_se_str(b, i, p.0);
    lemma_sd_se_str(b, i + se_str(p.0).len(), p.1);
}

/// The entries of a key/value list, back to back.
pub open spec fn se_str_pairs_items(vs: Seq<(Seq<char>, Seq<char>)>) -> Seq<u8>
    decreases vs.len(),
{
    if vs.len() == 0 {
        Seq::empty()
    } else {
        se_str_pair(vs[0]) + se_str_pairs_items(vs.drop_first())
    }
}

/// A key/value list: an entry count followed by the entries.
pub open spec fn se_str_pairs(vs: Seq<(Seq<char>, Seq<char>)>) -> Seq<u8> {
    se_u64(vs.len() as u64) + se_str_pairs_items(vs)
}

pub open spec fn wf_str_pairs(vs: Seq<(Seq<char>, Seq<char>)>) -> bool {
    vs.len() <= u64::MAX && forall|k: int| 0 <= k < vs.len() ==> wf_str_pair(#[trigger] vs[k])
}

pub open spec fn sd_str_pairs_items(b: Seq<u8>, i: int, n: nat) -> Option<(Seq<
    (Seq<char>, Seq<char>),
>, int)>
    decreases n,
{
    if n == 0 {
        Some((Seq::empty(), i))
    } else {
        match sd_str_pair(b, i) {
            Some((e, p)) => match sd_str_pairs_items(b, p, (n - 1) as nat) {
                Some((vs, q)) => Some((seq![e] + vs, q)),
                None => None,
            },
            None => None,
        }
    }
}

pub open spec fn sd_str_pairs(b: Seq<u8>, i: int) -> Option<(Seq<(Seq<char>, Seq<char>)>, int)> {
    match sd_u64(b, i) {
        Some((n, p)) => sd_str_pairs_items(b, p, n as nat),
        None => None,
    }
}

proof fn lemma_sd_se_str_pairs_items(b: Seq<u8>, i: int, vs: Seq<(Seq<char>, Seq<char>)>)
    requires
        0 <= i,
        forall|k: int| 0 <= k < vs.len() ==> wf_str_pair(#[trigger] vs[k]),
        i + se_str_pairs_items(vs).len() <= b.len(),
        b.subrange(i, i + se_str_pairs_items(vs).len()) == se_str_pairs_items(vs),
    ensures
        sd_str_pairs_items(b, i, vs.len()) == Some((vs, i + se_str_pairs_items(vs).len())),
    decreases vs.len(),
{
    if vs.len() == 0 {
        assert(vs =~= Seq::<(Seq<char>, Seq<char>)>::empty());
    } else {
        let rest = vs.drop_first();
        lemma_split_at(b, i, se_str_pair(vs[0]), se_str_pairs_items(rest));
        lemma_sd_se_str_pair(b, i, vs[0]);
        let p = i + se_str_pair(vs[0]).len();
        lemma_sd_se_str_pairs_items(b, p, rest);
        assert(seq![vs[0]] + rest =~= vs);
    }
}

/// Decoding an encoded key/value list yields the entries back.
pub proof fn lemma_sd_se_str_pairs(b: Seq<u8>, i: int, vs: Seq<(Seq<char>, Seq<char>)>)
    requires
        0 <= i,
        wf_str_pairs(vs),
        i + se_str_pairs(vs).len() <= b.len(),
        b.subrange(i, i + se_str_pairs(vs).len()) == se_str_pairs(vs),
    ensures
        sd_str_pairs(b, i) == Some((vs, i + se_str_pairs(vs).len())),
{
    lemma_split_at(b, i, se_u64(vs.len() as u64), se_str_pairs_items(vs));
    lemma_sd_se_u64(b, i, vs.len() as u64);
    lemma_sd_se_str_pairs_items(b, i + 8, vs);
}

/// Appending one entry extends the entry bytes by that entry.
proof fn lemma_str_pairs_items_snoc(vs: Seq<(Seq<char>, Seq<char>)>, k: int)
    requires
        0 <= k < vs.len(),
    ensures
        se_str_pairs_items(vs.subrange(0, k + 1)) == se_str_pairs_items(vs.subrange(0, k))
            + se_str_pair(vs[k]),
    decreases k,
{
    if k == 0 {
        let s1 = vs.subrange(0, 1);
        let s0 = vs.subrange(0, 0);
        assert(s1.len() == 1 && s1[0] == vs[0]);
        assert(s1.drop_first() =~= Seq::<(Seq<char>, Seq<char>)>::empty());
        assert(se_str_pairs_items(s1.drop_first()) =~= Seq::<u8>::empty());
        assert(se_str_pairs_items(s1) =~= se_str_pair(vs[0]) + se_str_pairs_items(
            s1.drop_first(),
        ));
        assert(se_str_pairs_items(s0) =~= Seq::<u8>::empty());
        assert(se_str_pairs_items(s1) =~= se_str_pairs_items(s0) + se_str_pair(vs[0]));
    } else {
        let a = vs.subrange(0, k + 1);
        let c = vs.subrange(0, k);
        assert(a.drop_first() =~= vs.drop_first().subrange(0, k));
        assert(c.drop_first() =~= vs.drop_first().subrange(0, k - 1));
        lemma_str_pairs_items_snoc(vs.drop_first(), k - 1);
        assert(vs.drop_first()[k - 1] == vs[k]);
        assert(se_str_pairs_items(a) == se_str_pair(a[0]) + se_str_pairs_items(a.drop_first()));
        assert(se_str_pairs_items(c) == se_str_pair(c[0]) + se_str_pairs_items(c.drop_first()));
        assert(se_str_pair(vs[0]) + (se_str_pairs_items(vs.drop_first().subrange(0, k - 1))
            + se_str_pair(vs[k])) =~= (se_str_pair(vs[0]) + se_str_pairs_items(
            vs.drop_first().subrange(0, k - 1),
        )) + se_str_pair(vs[k]));
    }
}

/// Appends a count-prefixed key/value list.
pub fn wr_str_pairs(out: &mut Vec<u8>, vs: &Vec<(String, String)>)
    ensures
        final(out)@ == old(out)@ + se_str_pairs(vs.deep_view()),
{
    wr_u64(out, vs.len() as u64);
    let ghost base = out@;
    let mut k: usize = 0;
    while k < vs.len()
        invariant
            0 <= k <= vs@.len(),
            vs.deep_view().len() == vs@.len(),
            out@ == base + se_str_pairs_items(vs.deep_view().subrange(0, k as int)),
        decreases vs@.len() - k,
    {
        let ghost before = out@;
        wr_str(out, vs[k].0.as_str());
        wr_str(out, vs[k].1.as_str());
        proof {
            lemma_str_pairs_items_snoc(vs.deep_view(), k as int);
            assert(vs.deep_view()[k as int] == (vs@[k as int].0@, vs@[k as int].1@));
            assert(out@ =~= before + se_str_pair(vs.deep_view()[k as int]));
            assert(out@ =~= base + se_str_pairs_items(vs.deep_view().subrange(0, k + 1)));
        }
        k = k + 1;
    }
    proof {
        assert(vs.deep_view().subrange(0, vs.deep_view().len() as int) =~= vs.deep_view());
        assert(out@ =~= old(out)@ + se_str_pairs(vs.deep_view()));
    }
}

/// Reads a count-prefixed key/value list, exactly as `sd_str_pairs` describes.
pub fn rd_str_pairs(b: &[u8], pos: usize) -> (r: Option<(Vec<(String, String)>, usize)>)
    ensures
        match r {
            Some(vp) => sd_str_pairs(b@, pos as int) == Some((vp.0.deep_view(), vp.1 as int))
                && vp.1 <= b@.len(),
            None => sd_str_pairs(b@, pos as int) is None,
        },
{
    let (n, start) = match rd_u64(b, pos) {
        Some(x) => x,
        None => { return None },
    };
    let mut acc: Vec<(String, String)> = Vec::new();
    let mut cur: usize = start;
    let mut k: u64 = 0;
    while k < n
        invariant
            0 <= k <= n,
            cur <= b@.len(),
            acc.deep_view().len() == k,
            sd_u64(b@, pos as int) == Some((n, start as int)),
            sd_str_pairs_items(b@, start as int, n as nat) == match sd_str_pairs_items(
                b@,
                cur as int,
                (n - k) as nat,
            ) {
                Some((rest, q)) => Some((acc.deep_view() + rest, q)),
                None => None::<(Seq<(Seq<char>, Seq<char>)>, int)>,
            },
        decreases n - k,
    {
        let (key, p1) = match rd_str(b, cur) {
            Some(x) => x,
            None => {
                proof {
                    assert(sd_str_pair(b@, cur as int) is None);
                    assert(sd_str_pairs_items(b@, cur as int, (n - k) as nat) is None);
                }
                return None
            },
        };
        let (val, p2) = match rd_str(b, p1) {
            Some(x) => x,
            None => {
                proof {
                    assert(sd_str_pair(b@, cur as int) is None);
                    assert(sd_str_pairs_items(b@, cur as int, (n - k) as nat) is None);
                }
                return None
            },
        };
        proof {
            assert(sd_str_pair(b@, cur as int) == Some(((key@, val@), p2 as int)));
        }
        let ghost old_acc = acc.deep_view();
        acc.push((key, val));
        proof {
            assert(acc.deep_view() =~= old_acc.push((key@, val@)));
            assert forall|rest: Seq<(Seq<char>, Seq<char>)>|
                true implies old_acc + (seq![(key@, val@)] + rest) =~= acc.deep_view() + rest by {}
        }
        cur = p2;
        k = k + 1;
    }
    proof {
        assert(acc.deep_view() + Seq::<(Seq<char>, Seq<char>)>::empty() =~= acc.deep_view());
    }
    Some((acc, cur))
}

} // verus!

verus! {

// ---------------------------------------------------------------------------
// Key/boolean entry lists (externally computed strategy results)
// ---------------------------------------------------------------------------
/// A key/boolean entry: a string key and one strict boolean byte.
pub open spec fn se_bool_pair(p: (Seq<char>, bool)) -> Seq<u8> {
    se_str(p.0) + se_bool(p.1)
}

pub open spec fn wf_bool_pair(p: (Seq<char>, bool)) -> bool {
    wf_str(p.0)
}

pub open spec fn sd_bool_pair(b: Seq<u8>, i: int) -> Option<((Seq<char>, bool), int)> {
    match sd_str(b, i) {
        Some((k, p)) => match sd_bool(b, p) {
            Some((v, q)) => Some(((k, v), q)),
            None => None,
        },
        None => None,
    }
}

pub proof fn lemma_sd_se_bool_pair(b: Seq<u8>, i: int, p: (Seq<char>, bool))
    requires
        0 <= i,
        wf_bool_pair(p),
        i + se_bool_pair(p).len() <= b.len(),
        b.subrange(i, i + se_bool_pair(p).len()) == se_bool_pair(p),
    ensures
        sd_bool_pair(b, i) == Some((p, i + se_bool_pair(p).len())),
{
    lemma_split_at(b, i, se_str(p.0), se_bool(p.1));
    lemma_sd_se_str(b, i, p.0);
    lemma_sd_se_bool(b, i + se_str(p.0).len(), p.1);
}

pub open spec fn se_bool_pairs_items(vs: Seq<(Seq<char>, bool)>) -> Seq<u8>
    decreases vs.len(),
{
    if vs.len() == 0 {
        Seq::empty()
    } else {
        se_bool_pair(vs[0]) + se_bool_pairs_items(vs.drop_first())
    }
}

pub open spec fn se_bool_pairs(vs: Seq<(Seq<char>, bool)>) -> Seq<u8> {
    se_u64(vs.len() as u64) + se_bool_pairs_items(vs)
}

pub open spec fn wf_bool_pairs(vs: Seq<(Seq<char>, bool)>) -> bool {
    vs.len() <= u64::MAX && forall|k: int| 0 <= k < vs.len() ==> wf_bool_pair(#[trigger] vs[k])
}

pub open spec fn sd_bool_pairs_items(b: Seq<u8>, i: int, n: nat) -> Option<(Seq<(Seq<char>, bool)>, int)>
    decreases n,
{
    if n == 0 {
        Some((Seq::empty(), i))
    } else {
        match sd_bool_pair(b, i) {
            Some((e, p)) => match sd_bool_pairs_items(b, p, (n - 1) as nat) {
                Some((vs, q)) => Some((seq![e] + vs, q)),
                None => None,
            },
            None => None,
        }
    }
}

pub open spec fn sd_bool_pairs(b: Seq<u8>, i: int) -> Option<(Seq<(Seq<char>, bool)>, int)> {
    match sd_u64(b, i) {
        Some((n, p)) => sd_bool_pairs_items(b, p, n as nat),
        None => None,
    }
}

proof fn lemma_sd_se_bool_pairs_items(b: Seq<u8>, i: int, vs: Seq<(Seq<char>, bool)>)
    requires
        0 <= i,
        forall|k: int| 0 <= k < vs.len() ==> wf_bool_pair(#[trigger] vs[k]),
        i + se_bool_pairs_items(vs).len() <= b.len(),
        b.subrange(i, i + se_bool_pairs_items(vs).len()) == se_bool_pairs_items(vs),
    ensures
        sd_bool_pairs_items(b, i, vs.len()) == Some((vs, i + se_bool_pairs_items(vs).len())),
    decreases vs.len(),
{
    if vs.len() == 0 {
        assert(vs =~= Seq::<(Seq<char>, bool)>::empty());
    } else {
        let rest = vs.drop_first();
        lemma_split_at(b, i, se_bool_pair(vs[0]), se_bool_pairs_items(rest));
        lemma_sd_se_bool_pair(b, i, vs[0]);
        let p = i + se_bool_pair(vs[0]).len();
        lemma_sd_se_bool_pairs_items(b, p, rest);
        assert(seq![vs[0]] + rest =~= vs);
    }
}

/// Decoding an encoded key/boolean list yields the entries back.
pub proof fn lemma_sd_se_bool_pairs(b: Seq<u8>, i: int, vs: Seq<(Seq<char>, bool)>)
    requires
        0 <= i,
        wf_bool_pairs(vs),
        i + se_bool_pairs(vs).len() <= b.len(),
        b.subrange(i, i + se_bool_pairs(vs).len()) == se_bool_pairs(vs),
    ensures
        sd_bool_pairs(b, i) == Some((vs, i + se_bool_pairs(vs).len())),
{
    lemma_split_at(b, i, se_u64(vs.len() as u64), se_bool_pairs_items(vs));
    lemma_sd_se_u64(b, i, vs.len() as u64);
    lemma_sd_se_bool_pairs_items(b, i + 8, vs);
}

proof fn lemma_bool_pairs_items_snoc(vs: Seq<(Seq<char>, bool)>, k: int)
    requires
        0 <= k < vs.len(),
    ensures
        se_bool_pairs_items(vs.subrange(0, k + 1)) == se_bool_pairs_items(vs.subrange(0, k))
            + se_bool_pair(vs[k]),
    decreases k,
{
    if k == 0 {
        let s1 = vs.subrange(0, 1);
        let s0 = vs.subrange(0, 0);
        assert(s1.len() == 1 && s1[0] == vs[0]);
        assert(s1.drop_first() =~= Seq::<(Seq<char>, bool)>::empty());
        assert(se_bool_pairs_items(s1.drop_first()) =~= Seq::<u8>::empty());
        assert(se_bool_pairs_items(s1) =~= se_bool_pair(vs[0]) + se_bool_pairs_items(
            s1.drop_first(),
        ));
        assert(se_bool_pairs_items(s0) =~= Seq::<u8>::empty());
        assert(se_bool_pairs_items(s1) =~= se_bool_pairs_items(s0) + se_bool_pair(vs[0]));
    } else {
        let a = vs.subrange(0, k + 1);
        let c = vs.subrange(0, k);
        assert(a.drop_first() =~= vs.drop_first().subrange(0, k));
        assert(c.drop_first() =~= vs.drop_first().subrange(0, k - 1));
        lemma_bool_pairs_items_snoc(vs.drop_first(), k - 1);
        assert(vs.drop_first()[k - 1] == vs[k]);
        assert(se_bool_pairs_items(a) == se_bool_pair(a[0]) + se_bool_pairs_items(a.drop_first()));
        assert(se_bool_pairs_items(c) == se_bool_pair(c[0]) + se_bool_pairs_items(c.drop_first()));
        assert(se_bool_pair(vs[0]) + (se_bool_pairs_items(vs.drop_first().subrange(0, k - 1))
            + se_bool_pair(vs[k])) =~= (se_bool_pair(vs[0]) + se_bool_pairs_items(
            vs.drop_first().subrange(0, k - 1),
        )) + se_bool_pair(vs[k]));
    }
}

/// Appends a count-prefixed key/boolean list.
pub fn wr_bool_pairs(out: &mut Vec<u8>, vs: &Vec<(String, bool)>)
    ensures
        final(out)@ == old(out)@ + se_bool_pairs(vs.deep_view()),
{
    wr_u64(out, vs.len() as u64);
    let ghost base = out@;
    let mut k: usize = 0;
    while k < vs.len()
        invariant
            0 <= k <= vs@.len(),
            vs.deep_view().len() == vs@.len(),
            out@ == base + se_bool_pairs_items(vs.deep_view().subrange(0, k as int)),
        decreases vs@.len() - k,
    {
        let ghost before = out@;
        wr_str(out, vs[k].0.as_str());
        wr_bool(out, vs[k].1);
        proof {
            lemma_bool_pairs_items_snoc(vs.deep_view(), k as int);
            assert(vs.deep_view()[k as int] == (vs@[k as int].0@, vs@[k as int].1));
            assert(out@ =~= before + se_bool_pair(vs.deep_view()[k as int]));
            assert(out@ =~= base + se_bool_pairs_items(vs.deep_view().subrange(0, k + 1)));
        }
        k = k + 1;
    }
    proof {
        assert(vs.deep_view().subrange(0, vs.deep_view().len() as int) =~= vs.deep_view());
        assert(out@ =~= old(out)@ + se_bool_pairs(vs.deep_view()));
    }
}

/// Reads a count-prefixed key/boolean list, exactly as `sd_bool_pairs` describes.
pub fn rd_bool_pairs(b: &[u8], pos: usize) -> (r: Option<(Vec<(String, bool)>, usize)>)
    ensures
        match r {
            Some(vp) => sd_bool_pairs(b@, pos as int) == Some((vp.0.deep_view(), vp.1 as int))
                && vp.1 <= b@.len(),
            None => sd_bool_pairs(b@, pos as int) is None,
        },
{
    let (n, start) = match rd_u64(b, pos) {
        Some(x) => x,
        None => { return None },
    };
    let mut acc: Vec<(String, bool)> = Vec::new();
    let mut cur: usize = start;
    let mut k: u64 = 0;
    while k < n
        invariant
            0 <= k <= n,
            cur <= b@.len(),
            acc.deep_view().len() == k,
            sd_u64(b@, pos as int) == Some((n, start as int)),
            sd_bool_pairs_items(b@, start as int, n as nat) == match sd_bool_pairs_items(
                b@,
                cur as int,
                (n - k) as nat,
            ) {
                Some((rest, q)) => Some((acc.deep_view() + rest, q)),
                None => None::<(Seq<(Seq<char>, bool)>, int)>,
            },
        decreases n - k,
    {
        let (key, p1) = match rd_str(b, cur) {
            Some(x) => x,
            None => {
                proof {
                    assert(sd_bool_pair(b@, cur as int) is None);
                    assert(sd_bool_pairs_items(b@, cur as int, (n - k) as nat) is None);
                }
                return None
            },
        };
        let (val, p2) = match rd_bool(b, p1) {
            Some(x) => x,
            None => {
                proof {
                    assert(sd_bool_pair(b@, cur as int) is None);
                    assert(sd_bool_pairs_items(b@, cur as int, (n - k) as nat) is None);
                }
                return None
            },
        };
        proof {
            assert(sd_bool_pair(b@, cur as int) == Some(((key@, val), p2 as int)));
        }
        let ghost old_acc = acc.deep_view();
        acc.push((key, val));
        proof {
            assert(acc.deep_view() =~= old_acc.push((key@, val)));
            assert forall|rest: Seq<(Seq<char>, bool)>|
                true implies old_acc + (seq![(key@, val)] + rest) =~= acc.deep_view() + rest by {}
        }
        cur = p2;
        k = k + 1;
    }
    proof {
        assert(acc.deep_view() + Seq::<(Seq<char>, bool)>::empty() =~= acc.deep_view());
    }
    Some((acc, cur))
}

} // verus!

verus! {

// ---------------------------------------------------------------------------
// Key/count entry lists (per-variant counters)
// ---------------------------------------------------------------------------
/// A key/count entry: a string key and a 32-bit counter.
pub open spec fn se_u32_pair(p: (Seq<char>, u32)) -> Seq<u8> {
    se_str(p.0) + se_u32(p.1)
}

pub open spec fn wf_u32_pair(p: (Seq<char>, u32)) -> bool {
    wf_str(p.0)
}

pub open spec fn sd_u32_pair(b: Seq<u8>, i: int) -> Option<((Seq<char>, u32), int)> {
    match sd_str(b, i) {
        Some((k, p)) => match sd_u32(b, p) {
            Some((v, q)) => Some(((k, v), q)),
            None => None,
        },
        None => None,
    }
}

pub proof fn lemma_sd_se_u32_pair(b: Seq<u8>, i: int, p: (Seq<char>, u32))
    requires
        0 <= i,
        wf_u32_pair(p),
        i + se_u32_pair(p).len() <= b.len(),
        b.subrange(i, i + se_u32_pair(p).len()) == se_u32_pair(p),
    ensures
        sd_u32_pair(b, i) == Some((p, i + se_u32_pair(p).len())),
{
    lemma_split_at(b, i, se_str(p.0), se_u32(p.1));
    lemma_sd_se_str(b, i, p.0);
    lemma_sd_se_u32(b, i + se_str(p.0).len(), p.1);
}

pub open spec fn se_u32_pairs_items(vs: Seq<(Seq<char>, u32)>) -> Seq<u8>
    decreases vs.len(),
{
    if vs.len() == 0 {
        Seq::empty()
    } else {
        se_u32_pair(vs[0]) + se_u32_pairs_items(vs.drop_first())
    }
}

pub open spec fn se_u32_pairs(vs: Seq<(Seq<char>, u32)>) -> Seq<u8> {
    se_u64(vs.len() as u64) + se_u32_pairs_items(vs)
}

pub open spec fn wf_u32_pairs(vs: Seq<(Seq<char>, u32)>) -> bool {
    vs.len() <= u64::MAX && forall|k: int| 0 <= k < vs.len() ==> wf_u32_pair(#[trigger] vs[k])
}

pub open spec fn sd_u32_pairs_items(b: Seq<u8>, i: int, n: nat) -> Option<(Seq<(Seq<char>, u32)>, int)>
    decreases n,
{
    if n == 0 {
        Some((Seq::empty(), i))
    } else {
        match sd_u32_pair(b, i) {
            Some((e, p)) => match sd_u32_pairs_items(b, p, (n - 1) as nat) {
                Some((vs, q)) => Some((seq![e] + vs, q)),
                None => None,
            },
            None => None,
        }
    }
}

pub open spec fn sd_u32_pairs(b: Seq<u8>, i: int) -> Option<(Seq<(Seq<char>, u32)>, int)> {
    match sd_u64(b, i) {
        Some((n, p)) => sd_u32_pairs_items(b, p, n as nat),
        None => None,
    }
}

proof fn lemma_sd_se_u32_pairs_items(b: Seq<u8>, i: int, vs: Seq<(Seq<char>, u32)>)
    requires
        0 <= i,
        forall|k: int| 0 <= k < vs.len() ==> wf_u32_pair(#[trigger] vs[k]),
        i + se_u32_pairs_items(vs).len() <= b.len(),
        b.subrange(i, i + se_u32_pairs_items(vs).len()) == se_u32_pairs_items(vs),
    ensures
        sd_u32_pairs_items(b, i, vs.len()) == Some((vs, i + se_u32_pairs_items(vs).len())),
    decreases vs.len(),
{
    if vs.len() == 0 {
        assert(vs =~= Seq::<(Seq<char>, u32)>::empty());
    } else {
        let rest = vs.drop_first();
        lemma_split_at(b, i, se_u32_pair(vs[0]), se_u32_pairs_items(rest));
        lemma_sd_se_u32_pair(b, i, vs[0]);
        let p = i + se_u32_pair(vs[0]).len();
        lemma_sd_se_u32_pairs_items(b, p, rest);
        assert(seq![vs[0]] + rest =~= vs);
    }
}

/// Decoding an encoded key/count list yields the entries back.
pub proof fn lemma_sd_se_u32_pairs(b: Seq<u8>, i: int, vs: Seq<(Seq<char>, u32)>)
    requires
        0 <= i,
        wf_u32_pairs(vs),
        i + se_u32_pairs(vs).len() <= b.len(),
        b.subrange(i, i + se_u32_pairs(vs).len()) == se_u32_pairs(vs),
    ensures
        sd_u32_pairs(b, i) == Some((vs, i + se_u32_pairs(vs).len())),
{
    lemma_split_at(b, i, se_u64(vs.len() as u64), se_u32_pairs_items(vs));
    lemma_sd_se_u64(b, i, vs.len() as u64);
    lemma_sd_se_u32_pairs_items(b, i + 8, vs);
}

proof fn lemma_u32_pairs_items_snoc(vs: Seq<(Seq<char>, u32)>, k: int)
    requires
        0 <= k < vs.len(),
    ensures
        se_u32_pairs_items(vs.subrange(0, k + 1)) == se_u32_pairs_items(vs.subrange(0, k))
            + se_u32_pair(vs[k]),
    decreases k,
{
    if k == 0 {
        let s1 = vs.subrange(0, 1);
        let s0 = vs.subrange(0, 0);
        assert(s1.len() == 1 && s1[0] == vs[0]);
        assert(s1.drop_first() =~= Seq::<(Seq<char>, u32)>::empty());
        assert(se_u32_pairs_items(s1.drop_first()) =~= Seq::<u8>::empty());
        assert(se_u32_pairs_items(s1) =~= se_u32_pair(vs[0]) + se_u32_pairs_items(
            s1.drop_first(),
        ));
        assert(se_u32_pairs_items(s0) =~= Seq::<u8>::empty());
        assert(se_u32_pairs_items(s1) =~= se_u32_pairs_items(s0) + se_u32_pair(vs[0]));
    } else {
        let a = vs.subrange(0, k + 1);
        let c = vs.subrange(0, k);
        assert(a.drop_first() =~= vs.drop_first().subrange(0, k));
        assert(c.drop_first() =~= vs.drop_first().subrange(0, k - 1));
        lemma_u32_pairs_items_snoc(vs.drop_first(), k - 1);
        assert(vs.drop_first()[k - 1] == vs[k]);
        assert(se_u32_pairs_items(a) == se_u32_pair(a[0]) + se_u32_pairs_items(a.drop_first()));
        assert(se_u32_pairs_items(c) == se_u32_pair(c[0]) + se_u32_pairs_items(c.drop_first()));
        assert(se_u32_pair(vs[0]) + (se_u32_pairs_items(vs.drop_first().subrange(0, k - 1))
            + se_u32_pair(vs[k])) =~= (se_u32_pair(vs[0]) + se_u32_pairs_items(
            vs.drop_first().subrange(0, k - 1),
        )) + se_u32_pair(vs[k]));
    }
}

/// Appends a count-prefixed key/count list.
pub fn wr_u32_pairs(out: &mut Vec<u8>, vs: &Vec<(String, u32)>)
    ensures
        final(out)@ == old(out)@ + se_u32_pairs(vs.deep_view()),
{
    wr_u64(out, vs.len() as u64);
    let ghost base = out@;
    let mut k: usize = 0;
    while k < vs.len()
        invariant
            0 <= k <= vs@.len(),
            vs.deep_view().len() == vs@.len(),
            out@ == base + se_u32_pairs_items(vs.deep_view().subrange(0, k as int)),
        decreases vs@.len() - k,
    {
        let ghost before = out@;
        wr_str(out, vs[k].0.as_str());
        wr_u32(out, vs[k].1);
        proof {
            lemma_u32_pairs_items_snoc(vs.deep_view(), k as int);
            assert(vs.deep_view()[k as int] == (vs@[k as int].0@, vs@[k as int].1));
            assert(out@ =~= before + se_u32_pair(vs.deep_view()[k as int]));
            assert(out@ =~= base + se_u32_pairs_items(vs.deep_view().subrange(0, k + 1)));
        }
        k = k + 1;
    }
    proof {
        assert(vs.deep_view().subrange(0, vs.deep_view().len() as int) =~= vs.deep_view());
        assert(out@ =~= old(out)@ + se_u32_pairs(vs.deep_view()));
    }
}

/// Reads a count-prefixed key/count list, exactly as `sd_u32_pairs` describes.
pub fn rd_u32_pairs(b: &[u8], pos: usize) -> (r: Option<(Vec<(String, u32)>, usize)>)
    ensures
        match r {
            Some(vp) => sd_u32_pairs(b@, pos as int) == Some((vp.0.deep_view(), vp.1 as int))
                && vp.1 <= b@.len(),
            None => sd_u32_pairs(b@, pos as int) is None,
        },
{
    let (n, start) = match rd_u64(b, pos) {
        Some(x) => x,
        None => { return None },
    };
    let mut acc: Vec<(String, u32)> = Vec::new();
    let mut cur: usize = start;
    let mut k: u64 = 0;
    while k < n
        invariant
            0 <= k <= n,
            cur <= b@.len(),
            acc.deep_view().len() == k,
            sd_u64(b@, pos as int) == Some((n, start as int)),
            sd_u32_pairs_items(b@, start as int, n as nat) == match sd_u32_pairs_items(
                b@,
                cur as int,
                (n - k) as nat,
            ) {
                Some((rest, q)) => Some((acc.deep_view() + rest, q)),
                None => None::<(Seq<(Seq<char>, u32)>, int)>,
            },
        decreases n - k,
    {
        let (key, p1) = match rd_str(b, cur) {
            Some(x) => x,
            None => {
                proof {
                    assert(sd_u32_pair(b@, cur as int) is None);
                    assert(sd_u32_pairs_items(b@, cur as int, (n - k) as nat) is None);
                }
                return None
            },
        };
        let (val, p2) = match rd_u32(b, p1) {
            Some(x) => x,
            None => {
                proof {
                    assert(sd_u32_pair(b@, cur as int) is None);
                    assert(sd_u32_pairs_items(b@, cur as int, (n - k) as nat) is None);
                }
                return None
            },
        };
        proof {
            assert(sd_u32_pair(b@, cur as int) == Some(((key@, val), p2 as int)));
        }
        let ghost old_acc = acc.deep_view();
        acc.push((key, val));
        proof {
            assert(acc.deep_view() =~= old_acc.push((key@, val)));
            assert forall|rest: Seq<(Seq<char>, u32)>|
                true implies old_acc + (seq![(key@, val)] + rest) =~= acc.deep_view() + rest by {}
        }
        cur = p2;
        k = k + 1;
    }
    proof {
        assert(acc.deep_view() + Seq::<(Seq<char>, u32)>::empty() =~= acc.deep_view());
    }
    Some((acc, cur))
}

// ---------------------------------------------------------------------------
// String lists (warnings, built-in strategy names)
// ---------------------------------------------------------------------------
pub open spec fn se_str_list_items(vs: Seq<Seq<char>>) -> Seq<u8>
    decreases vs.len(),
{
    if vs.len() == 0 {
        Seq::empty()
    } else {
        se_str(vs[0]) + se_str_list_items(vs.drop_first())
    }
}

/// A string list: an entry count followed by the strings.
pub open spec fn se_str_list(vs: Seq<Seq<char>>) -> Seq<u8> {
    se_u64(vs.len() as u64) + se_str_list_items(vs)
}

pub open spec fn wf_str_list(vs: Seq<Seq<char>>) -> bool {
    vs.len() <= u64::MAX && forall|k: int| 0 <= k < vs.len() ==> wf_str(#[trigger] vs[k])
}

pub open spec fn sd_str_list_items(b: Seq<u8>, i: int, n: nat) -> Option<(Seq<Seq<char>>, int)>
    decreases n,
{
    if n == 0 {
        Some((Seq::empty(), i))
    } else {
        match sd_str(b, i) {
            Some((e, p)) => match sd_str_list_items(b, p, (n - 1) as nat) {
                Some((vs, q)) => Some((seq![e] + vs, q)),
                None => None,
            },
            None => None,
        }
    }
}

pub open spec fn sd_str_list(b: Seq<u8>, i: int) -> Option<(Seq<Seq<char>>, int)> {
    match sd_u64(b, i) {
        Some((n, p)) => sd_str_list_items(b, p, n as nat),
        None => None,
    }
}

proof fn lemma_sd_se_str_list_items(b: Seq<u8>, i: int, vs: Seq<Seq<char>>)
    requires
        0 <= i,
        forall|k: int| 0 <= k < vs.len() ==> wf_str(#[trigger] vs[k]),
        i + se_str_list_items(vs).len() <= b.len(),
        b.subrange(i, i + se_str_list_items(vs).len()) == se_str_list_items(vs),
    ensures
        sd_str_list_items(b, i, vs.len()) == Some((vs, i + se_str_list_items(vs).len())),
    decreases vs.len(),
{
    if vs.len() == 0 {
        assert(vs =~= Seq::<Seq<char>>::empty());
    } else {
        let rest = vs.drop_first();
        lemma_split_at(b, i, se_str(vs[0]), se_str_list_items(rest));
        lemma_sd_se_str(b, i, vs[0]);
        let p = i + se_str(vs[0]).len();
        lemma_sd_se_str_list_items(b, p, rest);
        assert(seq![vs[0]] + rest =~= vs);
    }
}

/// Decoding an encoded string list yields the strings back.
pub proof fn lemma_sd_se_str_list(b: Seq<u8>, i: int, vs: Seq<Seq<char>>)
    requires
        0 <= i,
        wf_str_list(vs),
        i + se_str_list(vs).len() <= b.len(),
        b.subrange(i, i + se_str_list(vs).len()) == se_str_list(vs),
    ensures
        sd_str_list(b, i) == Some((vs, i + se_str_list(vs).len())),
{
    lemma_split_at(b, i, se_u64(vs.len() as u64), se_str_list_items(vs));
    lemma_sd_se_u64(b, i, vs.len() as u64);
    lemma_sd_se_str_list_items(b, i + 8, vs);
}

proof fn lemma_str_list_items_snoc(vs: Seq<Seq<char>>, k: int)
    requires
        0 <= k < vs.len(),
    ensures
        se_str_list_items(vs.subrange(0, k + 1)) == se_str_list_items(vs.subrange(0, k)) + se_str(
            vs[k],
        ),
    decreases k,
{
    if k == 0 {
        let s1 = vs.subrange(0, 1);
        let s0 = vs.subrange(0, 0);
        assert(s1.len() == 1 && s1[0] == vs[0]);
        assert(s1.drop_first() =~= Seq::<Seq<char>>::empty());
        assert(se_str_list_items(s1.drop_first()) =~= Seq::<u8>::empty());
        assert(se_str_list_items(s1) =~= se_str(vs[0]) + se_str_list_items(s1.drop_first()));
        assert(se_str_list_items(s0) =~= Seq::<u8>::empty());
        assert(se_str_list_items(s1) =~= se_str_list_items(s0) + se_str(vs[0]));
    } else {
        let a = vs.subrange(0, k + 1);
        let c = vs.subrange(0, k);
        assert(a.drop_first() =~= vs.drop_first().subrange(0, k));
        assert(c.drop_first() =~= vs.drop_first().subrange(0, k - 1));
        lemma_str_list_items_snoc(vs.drop_first(), k - 1);
        assert(vs.drop_first()[k - 1] == vs[k]);
        assert(se_str_list_items(a) == se_str(a[0]) + se_str_list_items(a.drop_first()));
        assert(se_str_list_items(c) == se_str(c[0]) + se_str_list_items(c.drop_first()));
        assert(se_str(vs[0]) + (se_str_list_items(vs.drop_first().subrange(0, k - 1)) + se_str(
            vs[k],
        )) =~= (se_str(vs[0]) + se_str_list_items(vs.drop_first().subrange(0, k - 1))) + se_str(
            vs[k],
        ));
    }
}

/// Appends a count-prefixed string list.
pub fn wr_str_list(out: &mut Vec<u8>, vs: &Vec<String>)
    ensures
        final(out)@ == old(out)@ + se_str_list(vs.deep_view()),
{
    wr_u64(out, vs.len() as u64);
    let ghost base = out@;
    let mut k: usize = 0;
    while k < vs.len()
        invariant
            0 <= k <= vs@.len(),
            vs.deep_view().len() == vs@.len(),
            out@ == base + se_str_list_items(vs.deep_view().subrange(0, k as int)),
        decreases vs@.len() - k,
    {
        let ghost before = out@;
        wr_str(out, vs[k].as_str());
        proof {
            lemma_str_list_items_snoc(vs.deep_view(), k as int);
            assert(vs.deep_view()[k as int] == vs@[k as int]@);
            assert(out@ =~= before + se_str(vs.deep_view()[k as int]));
            assert(out@ =~= base + se_str_list_items(vs.deep_view().subrange(0, k + 1)));
        }
        k = k + 1;
    }
    proof {
        assert(vs.deep_view().subrange(0, vs.deep_view().len() as int) =~= vs.deep_view());
        assert(out@ =~= old(out)@ + se_str_list(vs.deep_view()));
    }
}

/// Reads a count-prefixed string list, exactly as `sd_str_list` describes.
pub fn rd_str_list(b: &[u8], pos: usize) -> (r: Option<(Vec<String>, usize)>)
    ensures
        match r {
            Some(vp) => sd_str_list(b@, pos as int) == Some((vp.0.deep_view(), vp.1 as int))
                && vp.1 <= b@.len(),
            None => sd_str_list(b@, pos as int) is None,
        },
{
    let (n, start) = match rd_u64(b, pos) {
        Some(x) => x,
        None => { return None },
    };
    let mut acc: Vec<String> = Vec::new();
    let mut cur: usize = start;
    let mut k: u64 = 0;
    while k < n
        invariant
            0 <= k <= n,
            cur <= b@.len(),
            acc.deep_view().len() == k,
            sd_u64(b@, pos as int) == Some((n, start as int)),
            sd_str_list_items(b@, start as int, n as nat) == match sd_str_list_items(
                b@,
                cur as int,
                (n - k) as nat,
            ) {
                Some((rest, q)) => Some((acc.deep_view() + rest, q)),
                None => None::<(Seq<Seq<char>>, int)>,
            },
        decreases n - k,
    {
        let (e, p1) = match rd_str(b, cur) {
            Some(x) => x,
            None => {
                proof {
                    assert(sd_str_list_items(b@, cur as int, (n - k) as nat) is None);
                }
                return None
            },
        };
        let ghost old_acc = acc.deep_view();
        acc.push(e);
        proof {
            assert(acc.deep_view() =~= old_acc.push(acc@[k as int]@));
            assert forall|rest: Seq<Seq<char>>|
                true implies old_acc + (seq![acc@[k as int]@] + rest) =~= acc.deep_view()
                + rest by {}
        }
        cur = p1;
        k = k + 1;
    }
    proof {
        assert(acc.deep_view() + Seq::<Seq<char>>::empty() =~= acc.deep_view());
    }
    Some((acc, cur))
}

} // verus!

verus! {

// ---------------------------------------------------------------------------
// Optional lists and optional entries: a 0/1 tag, then the payload
// ---------------------------------------------------------------------------
pub open spec fn se_opt_str_pairs(o: Option<Seq<(Seq<char>, Seq<char>)>>) -> Seq<u8> {
    match o {
        None => seq![0u8],
        Some(vs) => seq![1u8] + se_str_pairs(vs),
    }
}

pub open spec fn wf_opt_str_pairs(o: Option<Seq<(Seq<char>, Seq<char>)>>) -> bool {
    o matches Some(vs) ==> wf_str_pairs(vs)
}

pub open spec fn sd_opt_str_pairs(b: Seq<u8>, i: int) -> Option<(Option<
    Seq<(Seq<char>, Seq<char>)>,
>, int)> {
    if 0 <= i && i + 1 <= b.len() {
        if b[i] == 0u8 {
            Some((None, i + 1))
        } else if b[i] == 1u8 {
            match sd_str_pairs(b, i + 1) {
                Some((vs, p)) => Some((Some(vs), p)),
                None => None,
            }
        } else {
            None
        }
    } else {
        None
    }
}

pub proof fn lemma_sd_se_opt_str_pairs(b: Seq<u8>, i: int, o: Option<Seq<(Seq<char>, Seq<char>)>>)
    requires
        0 <= i,
        wf_opt_str_pairs(o),
        i + se_opt_str_pairs(o).len() <= b.len(),
        b.subrange(i, i + se_opt_str_pairs(o).len()) == se_opt_str_pairs(o),
    ensures
        sd_opt_str_pairs(b, i) == Some((o, i + se_opt_str_pairs(o).len())),
{
    match o {
        None => {
            assert(b[i] == b.subrange(i, i + 1)[0]);
        },
        Some(vs) => {
            lemma_split_at(b, i, seq![1u8], se_str_pairs(vs));
            assert(b[i] == b.subrange(i, i + 1)[0]);
            lemma_sd_se_str_pairs(b, i + 1, vs);
        },
    }
}

pub fn wr_opt_str_pairs(out: &mut Vec<u8>, o: &Option<Vec<(String, String)>>)
    ensures
        final(out)@ == old(out)@ + se_opt_str_pairs(o.deep_view()),
{
    match o {
        None => {
            out.push(0u8);
            proof {
                assert(out@ =~= old(out)@ + se_opt_str_pairs(None));
            }
        },
        Some(vs) => {
            out.push(1u8);
            wr_str_pairs(out, vs);
            proof {
                assert(out@ =~= old(out)@ + se_opt_str_pairs(Some(vs.deep_view())));
            }
        },
    }
}

pub fn rd_opt_str_pairs(b: &[u8], pos: usize) -> (r: Option<(Option<Vec<(String, String)>>, usize)>)
    ensures
        match r {
            Some(vp) => sd_opt_str_pairs(b@, pos as int) == Some((vp.0.deep_view(), vp.1 as int))
                && vp.1 <= b@.len(),
            None => sd_opt_str_pairs(b@, pos as int) is None,
        },
{
    if pos >= b.len() {
        return None;
    }
    let tag = b[pos];
    if tag == 0 {
        Some((None, pos + 1))
    } else if tag == 1 {
        match rd_str_pairs(b, pos + 1) {
            Some((vs, p)) => Some((Some(vs), p)),
            None => None,
        }
    } else {
        None
    }
}

pub open spec fn se_opt_bool_pairs(o: Option<Seq<(Seq<char>, bool)>>) -> Seq<u8> {
    match o {
        None => seq![0u8],
        Some(vs) => seq![1u8] + se_bool_pairs(vs),
    }
}

pub open spec fn wf_opt_bool_pairs(o: Option<Seq<(Seq<char>, bool)>>) -> bool {
    o matches Some(vs) ==> wf_bool_pairs(vs)
}

pub open spec fn sd_opt_bool_pairs(b: Seq<u8>, i: int) -> Option<(Option<Seq<(Seq<char>, bool)>>, int)> {
    if 0 <= i && i + 1 <= b.len() {
        if b[i] == 0u8 {
            Some((None, i + 1))
        } else if b[i] == 1u8 {
            match sd_bool_pairs(b, i + 1) {
                Some((vs, p)) => Some((Some(vs), p)),
                None => None,
            }
        } else {
            None
        }
    } else {
        None
    }
}

pub proof fn lemma_sd_se_opt_bool_pairs(b: Seq<u8>, i: int, o: Option<Seq<(Seq<char>, bool)>>)
    requires
        0 <= i,
        wf_opt_bool_pairs(o),
        i + se_opt_bool_pairs(o).len() <= b.len(),
        b.subrange(i, i + se_opt_bool_pairs(o).len()) == se_opt_bool_pairs(o),
    ensures
        sd_opt_bool_pairs(b, i) == Some((o, i + se_opt_bool_pairs(o).len())),
{
    match o {
        None => {
            assert(b[i] == b.subrange(i, i + 1)[0]);
        },
        Some(vs) => {
            lemma_split_at(b, i, seq![1u8], se_bool_pairs(vs));
            assert(b[i] == b.subrange(i, i + 1)[0]);
            lemma_sd_se_bool_pairs(b, i + 1, vs);
        },
    }
}

pub fn wr_opt_bool_pairs(out: &mut Vec<u8>, o: &Option<Vec<(String, bool)>>)
    ensures
        final(out)@ == old(out)@ + se_opt_bool_pairs(o.deep_view()),
{
    match o {
        None => {
            out.push(0u8);
            proof {
                assert(out@ =~= old(out)@ + se_opt_bool_pairs(None));
            }
        },
        Some(vs) => {
            out.push(1u8);
            wr_bool_pairs(out, vs);
            proof {
                assert(out@ =~= old(out)@ + se_opt_bool_pairs(Some(vs.deep_view())));
            }
        },
    }
}

pub fn rd_opt_bool_pairs(b: &[u8], pos: usize) -> (r: Option<(Option<Vec<(String, bool)>>, usize)>)
    ensures
        match r {
            Some(vp) => sd_opt_bool_pairs(b@, pos as int) == Some((vp.0.deep_view(), vp.1 as int))
                && vp.1 <= b@.len(),
            None => sd_opt_bool_pairs(b@, pos as int) is None,
        },
{
    if pos >= b.len() {
        return None;
    }
    let tag = b[pos];
    if tag == 0 {
        Some((None, pos + 1))
    } else if tag == 1 {
        match rd_bool_pairs(b, pos + 1) {
            Some((vs, p)) => Some((Some(vs), p)),
            None => None,
        }
    } else {
        None
    }
}

/// An optional payload: a 0/1 tag, then a key/value entry.
pub open spec fn se_opt_str_pair(o: Option<(Seq<char>, Seq<char>)>) -> Seq<u8> {
    match o {
        None => seq![0u8],
        Some(p) => seq![1u8] + se_str_pair(p),
    }
}

pub open spec fn wf_opt_str_pair(o: Option<(Seq<char>, Seq<char>)>) -> bool {
    o matches Some(p) ==> wf_str_pair(p)
}

pub open spec fn sd_opt_str_pair(b: Seq<u8>, i: int) -> Option<(Option<(Seq<char>, Seq<char>)>, int)> {
    if 0 <= i && i + 1 <= b.len() {
        if b[i] == 0u8 {
            Some((None, i + 1))
        } else if b[i] == 1u8 {
            match sd_str_pair(b, i + 1) {
                Some((p, q)) => Some((Some(p), q)),
                None => None,
            }
        } else {
            None
        }
    } else {
        None
    }
}

pub proof fn lemma_sd_se_opt_str_pair(b: Seq<u8>, i: int, o: Option<(Seq<char>, Seq<char>)>)
    requires
        0 <= i,
        wf_opt_str_pair(o),
        i + se_opt_str_pair(o).len() <= b.len(),
        b.subrange(i, i + se_opt_str_pair(o).len()) == se_opt_str_pair(o),
    ensures
        sd_opt_str_pair(b, i) == Some((o, i + se_opt_str_pair(o).len())),
{
    match o {
        None => {
            assert(b[i] == b.subrange(i, i + 1)[0]);
        },
        Some(p) => {
            lemma_split_at(b, i, seq![1u8], se_str_pair(p));
            assert(b[i] == b.subrange(i, i + 1)[0]);
            lemma_sd_se_str_pair(b, i + 1, p);
        },
    }
}

pub fn wr_opt_str_pair(out: &mut Vec<u8>, o: &Option<(String, String)>)
    ensures
        final(out)@ == old(out)@ + se_opt_str_pair(o.deep_view()),
{
    match o {
        None => {
            out.push(0u8);
            proof {
                assert(out@ =~= old(out)@ + se_opt_str_pair(None));
            }
        },
        Some(p) => {
            out.push(1u8);
            let ghost mid = out@;
            wr_str(out, p.0.as_str());
            wr_str(out, p.1.as_str());
            proof {
                assert(out@ =~= mid + se_str_pair((p.0@, p.1@)));
                assert(out@ =~= old(out)@ + se_opt_str_pair(Some((p.0@, p.1@))));
            }
        },
    }
}

pub fn rd_opt_str_pair(b: &[u8], pos: usize) -> (r: Option<(Option<(String, String)>, usize)>)
    ensures
        match r {
            Some(vp) => sd_opt_str_pair(b@, pos as int) == Some((vp.0.deep_view(), vp.1 as int))
                && vp.1 <= b@.len(),
            None => sd_opt_str_pair(b@, pos as int) is None,
        },
{
    if pos >= b.len() {
        return None;
    }
    let tag = b[pos];
    if tag == 0 {
        Some((None, pos + 1))
    } else if tag == 1 {
        let (k, p1) = match rd_str(b, pos + 1) {
            Some(x) => x,
            None => {
                proof {
                    assert(sd_str_pair(b@, pos + 1) is None);
                }
                return None
            },
        };
        let (v, p2) = match rd_str(b, p1) {
            Some(x) => x,
            None => {
                proof {
                    assert(sd_str_pair(b@, pos + 1) is None);
                }
                return None
            },
        };
        Some((Some((k, v)), p2))
    } else {
        None
    }
}

} // verus!
