//! Hashing and hex rendering: the project fingerprint and short digests.

use vstd::prelude::*;
use sha3::Digest;
use crate::text::{chars_of, slice_chars, string_of};

verus! {

/// The SHA3-256 digest of a byte string (`sha3::Sha3_256`).
pub uninterp spec fn sha3_256(data: Seq<u8>) -> Seq<u8>;

/// `sha3::Sha3_256::digest`: the 32-byte SHA3-256 digest of `data`.
#[verifier::external_body]
fn sha3_256_digest(data: &[u8]) -> (r: Vec<u8>)
    ensures
        r@ == sha3_256(data@),
        r@.len() == 32,
{
    sha3::Sha3_256::digest(data).to_vec()
}

/// Lower-case hexadecimal digits.
pub open spec fn hex_digits_lower() -> Seq<char> {
    seq!['0', '1', '2', '3', '4', '5', '6', '7', '8', '9', 'a', 'b', 'c', 'd', 'e', 'f']
}

/// Lower-case hex of a byte string, two digits per byte, high nibble first.
pub open spec fn hex_lower(bs: Seq<u8>) -> Seq<char>
    decreases bs.len(),
{
    if bs.len() == 0 {
        seq![]
    } else {
        seq![hex_digits_lower()[bs[0] as int / 16], hex_digits_lower()[bs[0] as int % 16]]
            + hex_lower(bs.drop_first())
    }
}

/// `hex::encode`: two lower-case hex digits per byte.
#[verifier::external_body]
fn hex_encode(data: &[u8]) -> (s: String)
    ensures
        s@ == hex_lower(data@),
{
    hex::encode(data)
}

proof fn lemma_hex_lower_len(bs: Seq<u8>)
    ensures
        hex_lower(bs).len() == 2 * bs.len(),
    decreases bs.len(),
{
    if bs.len() > 0 {
        lemma_hex_lower_len(bs.drop_first());
    }
}

/// A source file that goes into the fingerprint: its path relative to
/// the project root, and its bytes.
pub struct SourceFile {
    /// Path relative to the project root.
    pub rel_path: String,
    /// File contents.
    pub content: Vec<u8>,
}

/// The bytes hashed for a project: for each file in order, the UTF-8 of
/// its relative path followed by its contents.
pub open spec fn fingerprint_input(files: Seq<SourceFile>) -> Seq<u8>
    decreases files.len(),
{
    if files.len() == 0 {
        seq![]
    } else {
        fingerprint_input(files.drop_last()) + vstd::utf8::encode_utf8(files.last().rel_path@)
            + files.last().content@
    }
}

fn append_bytes(out: &mut Vec<u8>, bs: &[u8])
    ensures
        final(out)@ == old(out)@ + bs@,
{
    let ghost start = out@;
    let mut i: usize = 0;
    while i < bs.len()
        invariant
            i <= bs@.len(),
            out@ == start + bs@.take(i as int),
        decreases bs@.len() - i,
    {
        out.push(bs[i]);
        assert(bs@.take(i + 1) == bs@.take(i as int).push(bs@[i as int]));
        i = i + 1;
    }
    assert(bs@.take(bs@.len() as int) == bs@);
}

/// The project fingerprint: hex SHA3-256 over the files (in the order
/// given, which the caller sorts by path) and the number of files.
pub fn compute_fingerprint(files: &Vec<SourceFile>) -> (r: (String, usize))
    ensures
        r.0@ == hex_lower(sha3_256(fingerprint_input(files@))),
        r.0@.len() == 64,
        r.1 == files@.len(),
{
    let mut data: Vec<u8> = Vec::new();
    let mut i: usize = 0;
    assert(files@.take(0) =~= Seq::<SourceFile>::empty());
    while i < files.len()
        invariant
            i <= files@.len(),
            data@ == fingerprint_input(files@.take(i as int)),
        decreases files@.len() - i,
    {
        assert(files@.take(i + 1).drop_last() == files@.take(i as int));
        assert(files@.take(i + 1).last() == files@[i as int]);
        append_bytes(&mut data, files[i].rel_path.as_str().as_bytes());
        append_bytes(&mut data, files[i].content.as_slice());
        i = i + 1;
    }
    assert(files@.take(files@.len() as int) == files@);
    let digest = sha3_256_digest(data.as_slice());
    proof {
        lemma_hex_lower_len(digest@);
    }
    (hex_encode(digest.as_slice()), files.len())
}

/// A digest shortened for display: up to 16 hex digits in full, else
/// the first 8 and the last 8 around an ellipsis.
pub open spec fn spec_hex_short(bs: Seq<u8>) -> Seq<char> {
    let full = hex_lower(bs);
    if full.len() <= 16 {
        full
    } else {
        full.take(8) + seq!['…'] + full.skip(full.len() - 8)
    }
}

/// Shorten a digest for display.
pub fn hex_short(bytes: &[u8]) -> (s: String)
    ensures
        s@ == spec_hex_short(bytes@),
{
    let full = chars_of(hex_encode(bytes).as_str());
    let n = full.len();
    if n <= 16 {
        string_of(&full)
    } else {
        let mut out = slice_chars(&full, 0, 8);
        out.push('…');
        let tail = slice_chars(&full, n - 8, n);
        let mut i: usize = 0;
        let ghost start = out@;
        while i < tail.len()
            invariant
                i <= tail@.len(),
                out@ == start + tail@.take(i as int),
            decreases tail@.len() - i,
        {
            out.push(tail[i]);
            assert(tail@.take(i + 1) == tail@.take(i as int).push(tail@[i as int]));
            i = i + 1;
        }
        assert(tail@.take(tail@.len() as int) == tail@);
        assert(full@.subrange(0, 8) == full@.take(8));
        assert(full@.subrange(n - 8, n as int) == full@.skip(n - 8));
        string_of(&out)
    }
}

} // verus!
