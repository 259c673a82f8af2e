//! Content hashes: BLAKE3 digests rendered in lowercase hexadecimal.
use vstd::prelude::*;
use vstd::utf8::encode_utf8;

use crate::text::{chars_of, string_from_chars};

verus! {

/// The lowercase hexadecimal rendering of the BLAKE3 hash of `data`.
pub uninterp spec fn blake3_hex(data: Seq<u8>) -> Seq<char>;

/// `blake3::hash(data).to_hex()`: the 32-byte digest as 64 lowercase hexadecimal digits.
/// The contract names the digest `blake3_hex(data@)` and states, as the crate's `to_hex`
/// shows, that it is 64 characters long (two digits for each of the 32 bytes).
#[verifier::external_body]
pub(crate) fn blake3_hex_of(data: &[u8]) -> (r: String)
    ensures
        r@ == blake3_hex(data@),
        r@.len() == 64,
{
    blake3::hash(data).to_hex().to_string()
}

/// The content key of a file: the full hexadecimal BLAKE3 digest of its bytes.
pub fn content_key(bytes: &[u8]) -> (r: String)
    ensures
        r@ == blake3_hex(bytes@),
        r@.len() == 64,
{
    blake3_hex_of(bytes)
}

/// The bytes of several texts, one after the other, each encoded in UTF-8.
pub open spec fn utf8_concat(parts: Seq<Seq<char>>) -> Seq<u8>
    decreases parts.len(),
{
    if parts.len() == 0 {
        Seq::empty()
    } else {
        utf8_concat(parts.drop_last()) + encode_utf8(parts.last())
    }
}

/// The short hash of texts hashed one after the other: the first 16 hexadecimal digits.
pub open spec fn short_hash_of(parts: Seq<Seq<char>>) -> Seq<char> {
    blake3_hex(utf8_concat(parts)).take(16)
}

/// The short hash of one text.
pub open spec fn source_hash(text: Seq<char>) -> Seq<char> {
    short_hash_of(seq![text])
}

/// The first 16 characters of a 64-character digest.
fn first16(full: &String) -> (r: String)
    requires
        full@.len() == 64,
    ensures
        r@ == full@.take(16),
{
    let cs = chars_of(full.as_str());
    let mut head: Vec<char> = Vec::new();
    let mut i: usize = 0;
    while i < 16
        invariant
            cs@ == full@,
            cs@.len() == 64,
            i <= 16,
            head@ == cs@.take(i as int),
        decreases 16 - i,
    {
        head.push(cs[i]);
        i += 1;
        proof {
            assert(head@ =~= cs@.take(i as int));
        }
    }
    string_from_chars(head.as_slice())
}

/// The short hash of texts hashed one after the other (16 hexadecimal digits).
pub fn short_hash_parts(parts: &Vec<&str>) -> (r: String)
    ensures
        r@ == short_hash_of(parts@.map_values(|p: &str| p@)),
        r@.len() == 16,
{
    let ghost pv = parts@.map_values(|p: &str| p@);
    let mut bytes: Vec<u8> = Vec::new();
    let mut i: usize = 0;
    while i < parts.len()
        invariant
            i <= parts@.len(),
            pv == parts@.map_values(|p: &str| p@),
            bytes@ == utf8_concat(pv.take(i as int)),
        decreases parts@.len() - i,
    {
        let b = parts[i].as_bytes();
        let mut j: usize = 0;
        let ghost start = bytes@;
        while j < b.len()
            invariant
                j <= b@.len(),
                bytes@ == start + b@.take(j as int),
            decreases b@.len() - j,
        {
            bytes.push(b[j]);
            j += 1;
            proof {
                assert(bytes@ =~= start + b@.take(j as int));
            }
        }
        proof {
            assert(b@.take(b@.len() as int) =~= b@);
            assert(pv.take(i + 1).drop_last() =~= pv.take(i as int));
            assert(pv.take(i + 1).last() == parts@[i as int]@);
        }
        i += 1;
    }
    proof {
        assert(pv.take(pv.len() as int) =~= pv);
    }
    let full = blake3_hex_of(bytes.as_slice());
    first16(&full)
}

/// The short hash of one text (16 hexadecimal digits).
pub fn short_hash(text: &str) -> (r: String)
    ensures
        r@ == source_hash(text@),
        r@.len() == 16,
{
    let mut parts: Vec<&str> = Vec::new();
    parts.push(text);
    let r = short_hash_parts(&parts);
    proof {
        assert(parts@.map_values(|p: &str| p@) =~= seq![text@]);
    }
    r
}

} // verus!
