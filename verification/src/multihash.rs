//! The multihash form of a file hash: the code of the hash function, one
//! byte for the digest length, then the digest. The library carries hashes;
//! it computes none.

use vstd::prelude::*;
use crate::buffer::clone_bytes;
use crate::buffer::copy_range_to_vec;

verus! {

/// The hash functions that a stored hash can name.
#[allow(non_camel_case_types)]
#[derive(Clone, Copy, Debug, PartialEq, Eq, Structural)]
pub enum HashType {
    SHA1,
    SHA256,
    SHA512,
    BLAKE2B_256,
    BLAKE2B_512,
}

/// A hash function and a digest computed with it.
pub type HashBytes = (HashType, Vec<u8>);

/// The code that names a hash function in a multihash.
pub open spec fn hash_code(hash_type: HashType) -> Seq<u8> {
    match hash_type {
        HashType::SHA1 => seq![0x11u8],
        HashType::SHA256 => seq![0x12u8],
        HashType::SHA512 => seq![0x13u8],
        HashType::BLAKE2B_256 => seq![0xb2u8, 0x20u8],
        HashType::BLAKE2B_512 => seq![0xb2u8, 0x40u8],
    }
}

/// The number of bytes in a digest of a hash function.
pub open spec fn digest_len(hash_type: HashType) -> nat {
    match hash_type {
        HashType::SHA1 => 20,
        HashType::SHA256 => 32,
        HashType::SHA512 => 64,
        HashType::BLAKE2B_256 => 32,
        HashType::BLAKE2B_512 => 64,
    }
}

/// The bytes of a multihash.
pub open spec fn multihash_bytes(hash_type: HashType, digest: Seq<u8>) -> Seq<u8> {
    hash_code(hash_type) + seq![digest.len() as u8] + digest
}

/// Whether `b` is the multihash of a digest of `hash_type`, of the length that
/// the hash function gives.
pub open spec fn is_multihash_of(b: Seq<u8>, hash_type: HashType) -> bool {
    let code = hash_code(hash_type);
    &&& b.len() == code.len() + 1 + digest_len(hash_type)
    &&& b.subrange(0, code.len() as int) == code
    &&& b[code.len() as int] == digest_len(hash_type)
}

/// The hash function and digest that a multihash spells out, if any.
pub open spec fn parse_multihash(b: Seq<u8>) -> Option<(HashType, Seq<u8>)> {
    if is_multihash_of(b, HashType::SHA1) {
        Some((HashType::SHA1, b.skip(2)))
    } else if is_multihash_of(b, HashType::SHA256) {
        Some((HashType::SHA256, b.skip(2)))
    } else if is_multihash_of(b, HashType::SHA512) {
        Some((HashType::SHA512, b.skip(2)))
    } else if is_multihash_of(b, HashType::BLAKE2B_256) {
        Some((HashType::BLAKE2B_256, b.skip(3)))
    } else if is_multihash_of(b, HashType::BLAKE2B_512) {
        Some((HashType::BLAKE2B_512, b.skip(3)))
    } else {
        None
    }
}

/// A multihash of a digest of the right length reads back as that digest.
pub proof fn lemma_multihash_round_trip(hash_type: HashType, digest: Seq<u8>)
    requires
        digest.len() == digest_len(hash_type),
    ensures
        parse_multihash(multihash_bytes(hash_type, digest)) == Some((hash_type, digest)),
{
    let b = multihash_bytes(hash_type, digest);
    let code = hash_code(hash_type);
    assert(b.subrange(0, code.len() as int) =~= code);
    assert(b.skip((code.len() + 1) as int) =~= digest);
    assert(b[0] == code[0]);
    if code.len() == 2 {
        assert(b[1] == code[1]);
    }
    assert forall|other: HashType| other != hash_type implies !is_multihash_of(b, other) by {
        let c = hash_code(other);
        if is_multihash_of(b, other) {
            assert(b.subrange(0, c.len() as int)[0] == c[0]);
            if c.len() == 2 {
                assert(b.subrange(0, c.len() as int)[1] == c[1]);
            }
        }
    }
}

/// Bytes that read as a multihash are the multihash of what was read.
pub proof fn lemma_multihash_parse_inverse(b: Seq<u8>)
    requires
        parse_multihash(b) is Some,
    ensures
        (parse_multihash(b)->0).1.len() == digest_len((parse_multihash(b)->0).0),
        multihash_bytes((parse_multihash(b)->0).0, (parse_multihash(b)->0).1) == b,
{
    let (hash_type, digest) = parse_multihash(b)->0;
    let code = hash_code(hash_type);
    assert(is_multihash_of(b, hash_type));
    assert(digest == b.skip((code.len() + 1) as int));
    assert(multihash_bytes(hash_type, digest) =~= b) by {
        let m = multihash_bytes(hash_type, digest);
        assert(m.len() == b.len());
        assert forall|i: int| 0 <= i < b.len() implies m[i] == b[i] by {
            if i < code.len() {
                assert(b.subrange(0, code.len() as int)[i] == b[i]);
            }
        }
    }
}

/// The bytes that name `hash_type` in a stored hash.
pub fn hash_type_to_code(hash_type: HashType) -> (r: Vec<u8>)
    ensures
        r@ == hash_code(hash_type),
{
    let mut r: Vec<u8> = Vec::new();
    match hash_type {
        HashType::SHA1 => {
            r.push(0x11);
        },
        HashType::SHA256 => {
            r.push(0x12);
        },
        HashType::SHA512 => {
            r.push(0x13);
        },
        HashType::BLAKE2B_256 => {
            r.push(0xb2);
            r.push(0x20);
        },
        HashType::BLAKE2B_512 => {
            r.push(0xb2);
            r.push(0x40);
        },
    }
    assert(r@ =~= hash_code(hash_type));
    r
}

/// Number of bytes in a digest of `hash_type`.
pub fn hash_type_to_digest_len(hash_type: HashType) -> (r: usize)
    ensures
        r == digest_len(hash_type),
{
    match hash_type {
        HashType::SHA1 => 20,
        HashType::SHA256 | HashType::BLAKE2B_256 => 32,
        HashType::SHA512 | HashType::BLAKE2B_512 => 64,
    }
}

/// The multihash of a digest; `None` where the digest is longer than one
/// length byte can say.
pub fn hash_bytes_to_bytes(hash_type: HashType, digest: &[u8]) -> (r: Option<Vec<u8>>)
    ensures
        r is Some <==> digest@.len() <= 255,
        r is Some ==> r->0@ == multihash_bytes(hash_type, digest@),
{
    if digest.len() > 255 {
        return None;
    }
    let mut r: Vec<u8> = hash_type_to_code(hash_type);
    r.push(digest.len() as u8);
    let n: usize = digest.len();
    let mut i: usize = 0;
    while i < n
        invariant
            i <= n,
            n == digest@.len(),
            n <= 255,
            r@ == hash_code(hash_type) + seq![n as u8] + digest@.subrange(0, i as int),
        decreases n - i,
    {
        r.push(digest[i]);
        assert(r@ =~= hash_code(hash_type) + seq![n as u8] + digest@.subrange(0, i + 1));
        i += 1;
    }
    assert(digest@.subrange(0, n as int) =~= digest@);
    Some(r)
}

fn is_multihash_of_type(bytes: &[u8], hash_type: HashType) -> (r: bool)
    ensures
        r == is_multihash_of(bytes@, hash_type),
{
    let code: Vec<u8> = hash_type_to_code(hash_type);
    let len: usize = hash_type_to_digest_len(hash_type);
    if bytes.len() != code.len() + 1 + len {
        return false;
    }
    let ghost prefix = bytes@.subrange(0, code@.len() as int);
    if bytes[0] != code[0] {
        assert(prefix[0] != code@[0]);
        return false;
    }
    if code.len() == 2 && bytes[1] != code[1] {
        assert(prefix[1] != code@[1]);
        return false;
    }
    assert(prefix =~= code@);
    bytes[code.len()] as usize == len
}

/// Reads a multihash.
pub fn hash_bytes_from_bytes(bytes: &[u8]) -> (r: Option<HashBytes>)
    ensures
        match r {
            Some((hash_type, digest)) => parse_multihash(bytes@) == Some((hash_type, digest@)),
            None => parse_multihash(bytes@) is None,
        },
{
    let hash_type: HashType = if is_multihash_of_type(bytes, HashType::SHA1) {
        HashType::SHA1
    } else if is_multihash_of_type(bytes, HashType::SHA256) {
        HashType::SHA256
    } else if is_multihash_of_type(bytes, HashType::SHA512) {
        HashType::SHA512
    } else if is_multihash_of_type(bytes, HashType::BLAKE2B_256) {
        HashType::BLAKE2B_256
    } else if is_multihash_of_type(bytes, HashType::BLAKE2B_512) {
        HashType::BLAKE2B_512
    } else {
        return None;
    };
    let skip: usize = match hash_type {
        HashType::SHA1 | HashType::SHA256 | HashType::SHA512 => 2,
        HashType::BLAKE2B_256 | HashType::BLAKE2B_512 => 3,
    };
    let digest: Vec<u8> = copy_range_to_vec(bytes, skip, bytes.len());
    assert(digest@ =~= bytes@.skip(skip as int));
    Some((hash_type, digest))
}

/// A copy of a hash.
pub fn clone_hash_bytes(hash: &HashBytes) -> (r: HashBytes)
    ensures
        r.0 == hash.0,
        r.1@ == hash.1@,
{
    (hash.0, clone_bytes(&hash.1))
}

} // verus!
