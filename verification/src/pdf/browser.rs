//! The located browser and its renderer fingerprint: the SHA-256 of its
//! path, file size and modification time, in lower-case hex.

use vstd::prelude::*;
use sha2::Digest;
use vstd::string::StringSliceAdditionalSpecFns;
use crate::text::{push_all, string_of};

verus! {

/// A located Chromium-family browser.
#[derive(Debug, Clone)]
pub struct Browser {
    /// Path of the executable, as text.
    pub path: String,
    /// Renderer fingerprint: SHA-256 of path, size and modification time.
    pub fingerprint: String,
}

/// The SHA-256 digest of `data`.
pub uninterp spec fn sha256_of(data: Seq<u8>) -> Seq<u8>;

/// `sha2::Sha256::digest`: the 32-byte SHA-256 digest of the input.
#[verifier::external_body]
fn sha256(data: &[u8]) -> (r: Vec<u8>)
    ensures
        r@ == sha256_of(data@),
        r@.len() == 32,
{
    sha2::Sha256::digest(data).to_vec()
}

/// The eight little-endian bytes of a 64-bit number.
pub open spec fn le_bytes(x: u64) -> Seq<u8> {
    seq![
        (x & 0xff) as u8,
        ((x >> 8u64) & 0xff) as u8,
        ((x >> 16u64) & 0xff) as u8,
        ((x >> 24u64) & 0xff) as u8,
        ((x >> 32u64) & 0xff) as u8,
        ((x >> 40u64) & 0xff) as u8,
        ((x >> 48u64) & 0xff) as u8,
        ((x >> 56u64) & 0xff) as u8,
    ]
}

/// A lower-case hex digit.
pub open spec fn hex_digit(d: u8) -> char {
    if d < 10 {
        ((48 + d) as u8) as char
    } else {
        ((87 + d) as u8) as char
    }
}

/// Two lower-case hex digits per byte.
pub open spec fn hex_of(s: Seq<u8>) -> Seq<char>
    decreases s.len(),
{
    if s.len() == 0 {
        Seq::empty()
    } else {
        hex_of(s.drop_last()) + seq![hex_digit(s.last() >> 4u8), hex_digit(s.last() & 15u8)]
    }
}

/// What the fingerprint hashes: the path's UTF-8 bytes, then size and
/// modification time in little-endian order.
pub open spec fn fingerprint_input(path: &str, len: u64, mtime: u64) -> Seq<u8> {
    path.spec_bytes() + le_bytes(len) + le_bytes(mtime)
}

fn push_le(out: &mut Vec<u8>, x: u64)
    ensures
        final(out)@ == old(out)@ + le_bytes(x),
{
    let ghost start = out@;
    out.push((x & 0xff) as u8);
    out.push(((x >> 8u64) & 0xff) as u8);
    out.push(((x >> 16u64) & 0xff) as u8);
    out.push(((x >> 24u64) & 0xff) as u8);
    out.push(((x >> 32u64) & 0xff) as u8);
    out.push(((x >> 40u64) & 0xff) as u8);
    out.push(((x >> 48u64) & 0xff) as u8);
    out.push(((x >> 56u64) & 0xff) as u8);
    assert(out@ =~= start + le_bytes(x));
}

fn hex_char(d: u8) -> (r: char)
    requires
        d < 16,
    ensures
        r == hex_digit(d),
{
    if d < 10 {
        (48 + d) as char
    } else {
        (87 + d) as char
    }
}

/// Lower-case hex of a byte string.
pub fn to_hex(bytes: &[u8]) -> (r: String)
    ensures
        r@ == hex_of(bytes@),
{
    let mut out: Vec<char> = Vec::new();
    let mut i: usize = 0;
    while i < bytes.len()
        invariant
            i <= bytes.len(),
            out@ == hex_of(bytes@.take(i as int)),
        decreases bytes.len() - i,
    {
        let b = bytes[i];
        assert(b >> 4u8 < 16) by (bit_vector);
        assert(b & 15u8 < 16) by (bit_vector);
        out.push(hex_char(b >> 4u8));
        out.push(hex_char(b & 15u8));
        assert(bytes@.take(i + 1).drop_last() =~= bytes@.take(i as int));
        i = i + 1;
        assert(out@ =~= hex_of(bytes@.take(i as int)));
    }
    assert(bytes@.take(bytes.len() as int) =~= bytes@);
    string_of(out.as_slice())
}

/// The renderer fingerprint of a browser executable.
pub fn fingerprint(path: &str, len: u64, mtime: u64) -> (r: String)
    ensures
        r@ == hex_of(sha256_of(fingerprint_input(path, len, mtime))),
{
    let mut data: Vec<u8> = Vec::new();
    let pb = path.as_bytes();
    let mut i: usize = 0;
    while i < pb.len()
        invariant
            i <= pb.len(),
            data@ == pb@.take(i as int),
        decreases pb.len() - i,
    {
        data.push(pb[i]);
        i = i + 1;
        assert(data@ =~= pb@.take(i as int));
    }
    assert(pb@.take(pb.len() as int) =~= pb@);
    push_le(&mut data, len);
    push_le(&mut data, mtime);
    let digest = sha256(data.as_slice());
    to_hex(digest.as_slice())
}

} // verus!
