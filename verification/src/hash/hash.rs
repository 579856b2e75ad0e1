//! Hash algorithms: their names, their digests of in-memory data, and the
//! reading plan for hashing files.
use vstd::prelude::*;
use crate::hash::error::HashUtilityError;
use crate::text::{ascii_lower, is_ascii_text, hex_digit, hex_fixed, hex_str, lowercase, lowercase_of, starts_with, has_prefix, str_eq, to_string};
use vstd::utf8::encode_utf8;

verus! {

/// Information about a hash algorithm
#[derive(Debug, Clone)]
pub struct AlgorithmInfo {
    pub name: String,
    pub output_bits: usize,
    pub post_quantum: bool,
    pub cryptographic: bool,
}

/// A supported hash algorithm.
#[derive(Debug, Clone, Copy, PartialEq, Eq, Structural)]
pub enum HashAlgorithm {
    Md5,
    Sha1,
    Sha224,
    Sha256,
    Sha384,
    Sha512,
    Sha3_224,
    Sha3_256,
    Sha3_384,
    Sha3_512,
    Blake2b512,
    Blake2s256,
    Blake3,
    Xxh3,
    Xxh128,
}

/// The MD5 (`md5::Md5`) digest of `data`.
pub uninterp spec fn md5_digest(data: Seq<u8>) -> Seq<u8>;

/// The MD5 (`md5::Md5`) digest of `data`: the crate computes it from the data alone,
/// and its output is 16 bytes long.
#[verifier::external_body]
fn md5_digest_of(data: &[u8]) -> (r: Vec<u8>)
    ensures
        r@ == md5_digest(data@),
        r@.len() == 16,
{
    <md5::Md5 as md5::Digest>::digest(data).to_vec()
}

/// The SHA-1 (`sha1::Sha1`) digest of `data`.
pub uninterp spec fn sha1_digest(data: Seq<u8>) -> Seq<u8>;

/// The SHA-1 (`sha1::Sha1`) digest of `data`: the crate computes it from the data alone,
/// and its output is 20 bytes long.
#[verifier::external_body]
fn sha1_digest_of(data: &[u8]) -> (r: Vec<u8>)
    ensures
        r@ == sha1_digest(data@),
        r@.len() == 20,
{
    <sha1::Sha1 as sha1::Digest>::digest(data).to_vec()
}

/// The SHA-224 (`sha2::Sha224`) digest of `data`.
pub uninterp spec fn sha224_digest(data: Seq<u8>) -> Seq<u8>;

/// The SHA-224 (`sha2::Sha224`) digest of `data`: the crate computes it from the data alone,
/// and its output is 28 bytes long.
#[verifier::external_body]
fn sha224_digest_of(data: &[u8]) -> (r: Vec<u8>)
    ensures
        r@ == sha224_digest(data@),
        r@.len() == 28,
{
    <sha2::Sha224 as sha2::Digest>::digest(data).to_vec()
}

/// The SHA-256 (`sha2::Sha256`) digest of `data`.
pub uninterp spec fn sha256_digest(data: Seq<u8>) -> Seq<u8>;

/// The SHA-256 (`sha2::Sha256`) digest of `data`: the crate computes it from the data alone,
/// and its output is 32 bytes long.
#[verifier::external_body]
fn sha256_digest_of(data: &[u8]) -> (r: Vec<u8>)
    ensures
        r@ == sha256_digest(data@),
        r@.len() == 32,
{
    <sha2::Sha256 as sha2::Digest>::digest(data).to_vec()
}

/// The SHA-384 (`sha2::Sha384`) digest of `data`.
pub uninterp spec fn sha384_digest(data: Seq<u8>) -> Seq<u8>;

/// The SHA-384 (`sha2::Sha384`) digest of `data`: the crate computes it from the data alone,
/// and its output is 48 bytes long.
#[verifier::external_body]
fn sha384_digest_of(data: &[u8]) -> (r: Vec<u8>)
    ensures
        r@ == sha384_digest(data@),
        r@.len() == 48,
{
    <sha2::Sha384 as sha2::Digest>::digest(data).to_vec()
}

/// The SHA-512 (`sha2::Sha512`) digest of `data`.
pub uninterp spec fn sha512_digest(data: Seq<u8>) -> Seq<u8>;

/// The SHA-512 (`sha2::Sha512`) digest of `data`: the crate computes it from the data alone,
/// and its output is 64 bytes long.
#[verifier::external_body]
fn sha512_digest_of(data: &[u8]) -> (r: Vec<u8>)
    ensures
        r@ == sha512_digest(data@),
        r@.len() == 64,
{
    <sha2::Sha512 as sha2::Digest>::digest(data).to_vec()
}

/// The SHA3-224 (`sha3::Sha3_224`) digest of `data`.
pub uninterp spec fn sha3_224_digest(data: Seq<u8>) -> Seq<u8>;

/// The SHA3-224 (`sha3::Sha3_224`) digest of `data`: the crate computes it from the data alone,
/// and its output is 28 bytes long.
#[verifier::external_body]
fn sha3_224_digest_of(data: &[u8]) -> (r: Vec<u8>)
    ensures
        r@ == sha3_224_digest(data@),
        r@.len() == 28,
{
    <sha3::Sha3_224 as sha3::Digest>::digest(data).to_vec()
}

/// The SHA3-256 (`sha3::Sha3_256`) digest of `data`.
pub uninterp spec fn sha3_256_digest(data: Seq<u8>) -> Seq<u8>;

/// The SHA3-256 (`sha3::Sha3_256`) digest of `data`: the crate computes it from the data alone,
/// and its output is 32 bytes long.
#[verifier::external_body]
fn sha3_256_digest_of(data: &[u8]) -> (r: Vec<u8>)
    ensures
        r@ == sha3_256_digest(data@),
        r@.len() == 32,
{
    <sha3::Sha3_256 as sha3::Digest>::digest(data).to_vec()
}

/// The SHA3-384 (`sha3::Sha3_384`) digest of `data`.
pub uninterp spec fn sha3_384_digest(data: Seq<u8>) -> Seq<u8>;

/// The SHA3-384 (`sha3::Sha3_384`) digest of `data`: the crate computes it from the data alone,
/// and its output is 48 bytes long.
#[verifier::external_body]
fn sha3_384_digest_of(data: &[u8]) -> (r: Vec<u8>)
    ensures
        r@ == sha3_384_digest(data@),
        r@.len() == 48,
{
    <sha3::Sha3_384 as sha3::Digest>::digest(data).to_vec()
}

/// The SHA3-512 (`sha3::Sha3_512`) digest of `data`.
pub uninterp spec fn sha3_512_digest(data: Seq<u8>) -> Seq<u8>;

/// The SHA3-512 (`sha3::Sha3_512`) digest of `data`: the crate computes it from the data alone,
/// and its output is 64 bytes long.
#[verifier::external_body]
fn sha3_512_digest_of(data: &[u8]) -> (r: Vec<u8>)
    ensures
        r@ == sha3_512_digest(data@),
        r@.len() == 64,
{
    <sha3::Sha3_512 as sha3::Digest>::digest(data).to_vec()
}

/// The BLAKE2b-512 (`blake2::Blake2b512`) digest of `data`.
pub uninterp spec fn blake2b512_digest(data: Seq<u8>) -> Seq<u8>;

/// The BLAKE2b-512 (`blake2::Blake2b512`) digest of `data`: the crate computes it from the data alone,
/// and its output is 64 bytes long.
#[verifier::external_body]
fn blake2b512_digest_of(data: &[u8]) -> (r: Vec<u8>)
    ensures
        r@ == blake2b512_digest(data@),
        r@.len() == 64,
{
    <blake2::Blake2b512 as blake2::Digest>::digest(data).to_vec()
}

/// The BLAKE2s-256 (`blake2::Blake2s256`) digest of `data`.
pub uninterp spec fn blake2s256_digest(data: Seq<u8>) -> Seq<u8>;

/// The BLAKE2s-256 (`blake2::Blake2s256`) digest of `data`: the crate computes it from the data alone,
/// and its output is 32 bytes long.
#[verifier::external_body]
fn blake2s256_digest_of(data: &[u8]) -> (r: Vec<u8>)
    ensures
        r@ == blake2s256_digest(data@),
        r@.len() == 32,
{
    <blake2::Blake2s256 as blake2::Digest>::digest(data).to_vec()
}

/// The BLAKE3 (`blake3::hash`) digest of `data`.
pub uninterp spec fn blake3_digest(data: Seq<u8>) -> Seq<u8>;

/// The BLAKE3 (`blake3::hash`) digest of `data`: the crate computes it from the data alone,
/// and its output is 32 bytes long.
#[verifier::external_body]
fn blake3_digest_of(data: &[u8]) -> (r: Vec<u8>)
    ensures
        r@ == blake3_digest(data@),
        r@.len() == 32,
{
    blake3::hash(data).as_bytes().to_vec()
}

/// The XXH3-64 (`xxhash_rust::xxh3::Xxh3::digest`), little-endian digest of `data`.
pub uninterp spec fn xxh3_64_digest(data: Seq<u8>) -> Seq<u8>;

/// The XXH3-64 (`xxhash_rust::xxh3::Xxh3::digest`), little-endian digest of `data`: the crate computes it from the data alone,
/// and its output is 8 bytes long.
#[verifier::external_body]
fn xxh3_64_digest_of(data: &[u8]) -> (r: Vec<u8>)
    ensures
        r@ == xxh3_64_digest(data@),
        r@.len() == 8,
{
    { let mut h = xxhash_rust::xxh3::Xxh3::new(); h.update(data); h.digest().to_le_bytes().to_vec() }
}

/// The XXH3-128 (`xxhash_rust::xxh3::Xxh3::digest128`), little-endian digest of `data`.
pub uninterp spec fn xxh3_128_digest(data: Seq<u8>) -> Seq<u8>;

/// The XXH3-128 (`xxhash_rust::xxh3::Xxh3::digest128`), little-endian digest of `data`: the crate computes it from the data alone,
/// and its output is 16 bytes long.
#[verifier::external_body]
fn xxh3_128_digest_of(data: &[u8]) -> (r: Vec<u8>)
    ensures
        r@ == xxh3_128_digest(data@),
        r@.len() == 16,
{
    { let mut h = xxhash_rust::xxh3::Xxh3::new(); h.update(data); h.digest128().to_le_bytes().to_vec() }
}

/// The digest of `data` under `a`.
pub open spec fn digest_spec(a: HashAlgorithm, data: Seq<u8>) -> Seq<u8> {
    match a {
        HashAlgorithm::Md5 => md5_digest(data),
        HashAlgorithm::Sha1 => sha1_digest(data),
        HashAlgorithm::Sha224 => sha224_digest(data),
        HashAlgorithm::Sha256 => sha256_digest(data),
        HashAlgorithm::Sha384 => sha384_digest(data),
        HashAlgorithm::Sha512 => sha512_digest(data),
        HashAlgorithm::Sha3_224 => sha3_224_digest(data),
        HashAlgorithm::Sha3_256 => sha3_256_digest(data),
        HashAlgorithm::Sha3_384 => sha3_384_digest(data),
        HashAlgorithm::Sha3_512 => sha3_512_digest(data),
        HashAlgorithm::Blake2b512 => blake2b512_digest(data),
        HashAlgorithm::Blake2s256 => blake2s256_digest(data),
        HashAlgorithm::Blake3 => blake3_digest(data),
        HashAlgorithm::Xxh3 => xxh3_64_digest(data),
        HashAlgorithm::Xxh128 => xxh3_128_digest(data),
    }
}

/// Each algorithm computes its own digest: MD5 the MD5 digest, SHA3-256
/// the SHA3-256 digest (not SHA-256's), and so on for every algorithm.
pub proof fn lemma_digest_is_the_algorithms_own(data: Seq<u8>)
    ensures
        digest_spec(HashAlgorithm::Md5, data) == md5_digest(data),
        digest_spec(HashAlgorithm::Sha1, data) == sha1_digest(data),
        digest_spec(HashAlgorithm::Sha224, data) == sha224_digest(data),
        digest_spec(HashAlgorithm::Sha256, data) == sha256_digest(data),
        digest_spec(HashAlgorithm::Sha384, data) == sha384_digest(data),
        digest_spec(HashAlgorithm::Sha512, data) == sha512_digest(data),
        digest_spec(HashAlgorithm::Sha3_224, data) == sha3_224_digest(data),
        digest_spec(HashAlgorithm::Sha3_256, data) == sha3_256_digest(data),
        digest_spec(HashAlgorithm::Sha3_384, data) == sha3_384_digest(data),
        digest_spec(HashAlgorithm::Sha3_512, data) == sha3_512_digest(data),
        digest_spec(HashAlgorithm::Blake2b512, data) == blake2b512_digest(data),
        digest_spec(HashAlgorithm::Blake2s256, data) == blake2s256_digest(data),
        digest_spec(HashAlgorithm::Blake3, data) == blake3_digest(data),
        digest_spec(HashAlgorithm::Xxh3, data) == xxh3_64_digest(data),
        digest_spec(HashAlgorithm::Xxh128, data) == xxh3_128_digest(data),
{
}

/// Each supported name denotes its own algorithm: `md5` MD5, `sha3-256`
/// SHA3-256, `sha256` and `sha-256` SHA-256, and so on; other names none.
pub proof fn lemma_algorithm_names()
    ensures
        algorithm_named("md5"@) == Some(HashAlgorithm::Md5),
        algorithm_named("sha1"@) == Some(HashAlgorithm::Sha1),
        algorithm_named("sha224"@) == Some(HashAlgorithm::Sha224),
        algorithm_named("sha-224"@) == Some(HashAlgorithm::Sha224),
        algorithm_named("sha256"@) == Some(HashAlgorithm::Sha256),
        algorithm_named("sha-256"@) == Some(HashAlgorithm::Sha256),
        algorithm_named("sha384"@) == Some(HashAlgorithm::Sha384),
        algorithm_named("sha-384"@) == Some(HashAlgorithm::Sha384),
        algorithm_named("sha512"@) == Some(HashAlgorithm::Sha512),
        algorithm_named("sha-512"@) == Some(HashAlgorithm::Sha512),
        algorithm_named("sha3-224"@) == Some(HashAlgorithm::Sha3_224),
        algorithm_named("sha3-256"@) == Some(HashAlgorithm::Sha3_256),
        algorithm_named("sha3-384"@) == Some(HashAlgorithm::Sha3_384),
        algorithm_named("sha3-512"@) == Some(HashAlgorithm::Sha3_512),
        algorithm_named("blake2b"@) == Some(HashAlgorithm::Blake2b512),
        algorithm_named("blake2b-512"@) == Some(HashAlgorithm::Blake2b512),
        algorithm_named("blake2s"@) == Some(HashAlgorithm::Blake2s256),
        algorithm_named("blake2s-256"@) == Some(HashAlgorithm::Blake2s256),
        algorithm_named("blake3"@) == Some(HashAlgorithm::Blake3),
        algorithm_named("xxh3"@) == Some(HashAlgorithm::Xxh3),
        algorithm_named("xxh128"@) == Some(HashAlgorithm::Xxh128),
        algorithm_named("crc32"@) is None,
{
    reveal_strlit("md5");
    reveal_strlit("sha1");
    reveal_strlit("sha224");
    reveal_strlit("sha-224");
    reveal_strlit("sha256");
    reveal_strlit("sha-256");
    reveal_strlit("sha384");
    reveal_strlit("sha-384");
    reveal_strlit("sha512");
    reveal_strlit("sha-512");
    reveal_strlit("sha3-224");
    reveal_strlit("sha3-256");
    reveal_strlit("sha3-384");
    reveal_strlit("sha3-512");
    reveal_strlit("blake2b");
    reveal_strlit("blake2b-512");
    reveal_strlit("blake2s");
    reveal_strlit("blake2s-256");
    reveal_strlit("blake3");
    reveal_strlit("xxh3");
    reveal_strlit("xxh128");
    reveal_strlit("crc32");
    assert("sha1"@.len() != "md5"@.len());
    assert("sha224"@.len() != "md5"@.len());
    assert("sha224"@.len() != "sha1"@.len());
    assert("sha-224"@.len() != "md5"@.len());
    assert("sha-224"@.len() != "sha1"@.len());
    assert("sha-224"@.len() != "sha224"@.len());
    assert("sha256"@.len() != "md5"@.len());
    assert("sha256"@.len() != "sha1"@.len());
    assert("sha256"@[4] != "sha224"@[4]);
    assert("sha256"@.len() != "sha-224"@.len());
    assert("sha-256"@.len() != "md5"@.len());
    assert("sha-256"@.len() != "sha1"@.len());
    assert("sha-256"@.len() != "sha224"@.len());
    assert("sha-256"@[5] != "sha-224"@[5]);
    assert("sha-256"@.len() != "sha256"@.len());
    assert("sha384"@.len() != "md5"@.len());
    assert("sha384"@.len() != "sha1"@.len());
    assert("sha384"@[3] != "sha224"@[3]);
    assert("sha384"@.len() != "sha-224"@.len());
    assert("sha384"@[3] != "sha256"@[3]);
    assert("sha384"@.len() != "sha-256"@.len());
    assert("sha-384"@.len() != "md5"@.len());
    assert("sha-384"@.len() != "sha1"@.len());
    assert("sha-384"@.len() != "sha224"@.len());
    assert("sha-384"@[4] != "sha-224"@[4]);
    assert("sha-384"@.len() != "sha256"@.len());
    assert("sha-384"@[4] != "sha-256"@[4]);
    assert("sha-384"@.len() != "sha384"@.len());
    assert("sha512"@.len() != "md5"@.len());
    assert("sha512"@.len() != "sha1"@.len());
    assert("sha512"@[3] != "sha224"@[3]);
    assert("sha512"@.len() != "sha-224"@.len());
    assert("sha512"@[3] != "sha256"@[3]);
    assert("sha512"@.len() != "sha-256"@.len());
    assert("sha512"@[3] != "sha384"@[3]);
    assert("sha512"@.len() != "sha-384"@.len());
    assert("sha-512"@.len() != "md5"@.len());
    assert("sha-512"@.len() != "sha1"@.len());
    assert("sha-512"@.len() != "sha224"@.len());
    assert("sha-512"@[4] != "sha-224"@[4]);
    assert("sha-512"@.len() != "sha256"@.len());
    assert("sha-512"@[4] != "sha-256"@[4]);
    assert("sha-512"@.len() != "sha384"@.len());
    assert("sha-512"@[4] != "sha-384"@[4]);
    assert("sha-512"@.len() != "sha512"@.len());
    assert("sha3-224"@.len() != "md5"@.len());
    assert("sha3-224"@.len() != "sha1"@.len());
    assert("sha3-224"@.len() != "sha224"@.len());
    assert("sha3-224"@.len() != "sha-224"@.len());
    assert("sha3-224"@.len() != "sha256"@.len());
    assert("sha3-224"@.len() != "sha-256"@.len());
    assert("sha3-224"@.len() != "sha384"@.len());
    assert("sha3-224"@.len() != "sha-384"@.len());
    assert("sha3-224"@.len() != "sha512"@.len());
    assert("sha3-224"@.len() != "sha-512"@.len());
    assert("sha3-256"@.len() != "md5"@.len());
    assert("sha3-256"@.len() != "sha1"@.len());
    assert("sha3-256"@.len() != "sha224"@.len());
    assert("sha3-256"@.len() != "sha-224"@.len());
    assert("sha3-256"@.len() != "sha256"@.len());
    assert("sha3-256"@.len() != "sha-256"@.len());
    assert("sha3-256"@.len() != "sha384"@.len());
    assert("sha3-256"@.len() != "sha-384"@.len());
    assert("sha3-256"@.len() != "sha512"@.len());
    assert("sha3-256"@.len() != "sha-512"@.len());
    assert("sha3-256"@[6] != "sha3-224"@[6]);
    assert("sha3-384"@.len() != "md5"@.len());
    assert("sha3-384"@.len() != "sha1"@.len());
    assert("sha3-384"@.len() != "sha224"@.len());
    assert("sha3-384"@.len() != "sha-224"@.len());
    assert("sha3-384"@.len() != "sha256"@.len());
    assert("sha3-384"@.len() != "sha-256"@.len());
    assert("sha3-384"@.len() != "sha384"@.len());
    assert("sha3-384"@.len() != "sha-384"@.len());
    assert("sha3-384"@.len() != "sha512"@.len());
    assert("sha3-384"@.len() != "sha-512"@.len());
    assert("sha3-384"@[5] != "sha3-224"@[5]);
    assert("sha3-384"@[5] != "sha3-256"@[5]);
    assert("sha3-512"@.len() != "md5"@.len());
    assert("sha3-512"@.len() != "sha1"@.len());
    assert("sha3-512"@.len() != "sha224"@.len());
    assert("sha3-512"@.len() != "sha-224"@.len());
    assert("sha3-512"@.len() != "sha256"@.len());
    assert("sha3-512"@.len() != "sha-256"@.len());
    assert("sha3-512"@.len() != "sha384"@.len());
    assert("sha3-512"@.len() != "sha-384"@.len());
    assert("sha3-512"@.len() != "sha512"@.len());
    assert("sha3-512"@.len() != "sha-512"@.len());
    assert("sha3-512"@[5] != "sha3-224"@[5]);
    assert("sha3-512"@[5] != "sha3-256"@[5]);
    assert("sha3-512"@[5] != "sha3-384"@[5]);
    assert("blake2b"@.len() != "md5"@.len());
    assert("blake2b"@.len() != "sha1"@.len());
    assert("blake2b"@.len() != "sha224"@.len());
    assert("blake2b"@[0] != "sha-224"@[0]);
    assert("blake2b"@.len() != "sha256"@.len());
    assert("blake2b"@[0] != "sha-256"@[0]);
    assert("blake2b"@.len() != "sha384"@.len());
    assert("blake2b"@[0] != "sha-384"@[0]);
    assert("blake2b"@.len() != "sha512"@.len());
    assert("blake2b"@[0] != "sha-512"@[0]);
    assert("blake2b"@.len() != "sha3-224"@.len());
    assert("blake2b"@.len() != "sha3-256"@.len());
    assert("blake2b"@.len() != "sha3-384"@.len());
    assert("blake2b"@.len() != "sha3-512"@.len());
    assert("blake2b-512"@.len() != "md5"@.len());
    assert("blake2b-512"@.len() != "sha1"@.len());
    assert("blake2b-512"@.len() != "sha224"@.len());
    assert("blake2b-512"@.len() != "sha-224"@.len());
    assert("blake2b-512"@.len() != "sha256"@.len());
    assert("blake2b-512"@.len() != "sha-256"@.len());
    assert("blake2b-512"@.len() != "sha384"@.len());
    assert("blake2b-512"@.len() != "sha-384"@.len());
    assert("blake2b-512"@.len() != "sha512"@.len());
    assert("blake2b-512"@.len() != "sha-512"@.len());
    assert("blake2b-512"@.len() != "sha3-224"@.len());
    assert("blake2b-512"@.len() != "sha3-256"@.len());
    assert("blake2b-512"@.len() != "sha3-384"@.len());
    assert("blake2b-512"@.len() != "sha3-512"@.len());
    assert("blake2b-512"@.len() != "blake2b"@.len());
    assert("blake2s"@.len() != "md5"@.len());
    assert("blake2s"@.len() != "sha1"@.len());
    assert("blake2s"@.len() != "sha224"@.len());
    assert("blake2s"@[0] != "sha-224"@[0]);
    assert("blake2s"@.len() != "sha256"@.len());
    assert("blake2s"@[0] != "sha-256"@[0]);
    assert("blake2s"@.len() != "sha384"@.len());
    assert("blake2s"@[0] != "sha-384"@[0]);
    assert("blake2s"@.len() != "sha512"@.len());
    assert("blake2s"@[0] != "sha-512"@[0]);
    assert("blake2s"@.len() != "sha3-224"@.len());
    assert("blake2s"@.len() != "sha3-256"@.len());
    assert("blake2s"@.len() != "sha3-384"@.len());
    assert("blake2s"@.len() != "sha3-512"@.len());
    assert("blake2s"@[6] != "blake2b"@[6]);
    assert("blake2s"@.len() != "blake2b-512"@.len());
    assert("blake2s-256"@.len() != "md5"@.len());
    assert("blake2s-256"@.len() != "sha1"@.len());
    assert("blake2s-256"@.len() != "sha224"@.len());
    assert("blake2s-256"@.len() != "sha-224"@.len());
    assert("blake2s-256"@.len() != "sha256"@.len());
    assert("blake2s-256"@.len() != "sha-256"@.len());
    assert("blake2s-256"@.len() != "sha384"@.len());
    assert("blake2s-256"@.len() != "sha-384"@.len());
    assert("blake2s-256"@.len() != "sha512"@.len());
    assert("blake2s-256"@.len() != "sha-512"@.len());
    assert("blake2s-256"@.len() != "sha3-224"@.len());
    assert("blake2s-256"@.len() != "sha3-256"@.len());
    assert("blake2s-256"@.len() != "sha3-384"@.len());
    assert("blake2s-256"@.len() != "sha3-512"@.len());
    assert("blake2s-256"@.len() != "blake2b"@.len());
    assert("blake2s-256"@[6] != "blake2b-512"@[6]);
    assert("blake2s-256"@.len() != "blake2s"@.len());
    assert("blake3"@.len() != "md5"@.len());
    assert("blake3"@.len() != "sha1"@.len());
    assert("blake3"@[0] != "sha224"@[0]);
    assert("blake3"@.len() != "sha-224"@.len());
    assert("blake3"@[0] != "sha256"@[0]);
    assert("blake3"@.len() != "sha-256"@.len());
    assert("blake3"@[0] != "sha384"@[0]);
    assert("blake3"@.len() != "sha-384"@.len());
    assert("blake3"@[0] != "sha512"@[0]);
    assert("blake3"@.len() != "sha-512"@.len());
    assert("blake3"@.len() != "sha3-224"@.len());
    assert("blake3"@.len() != "sha3-256"@.len());
    assert("blake3"@.len() != "sha3-384"@.len());
    assert("blake3"@.len() != "sha3-512"@.len());
    assert("blake3"@.len() != "blake2b"@.len());
    assert("blake3"@.len() != "blake2b-512"@.len());
    assert("blake3"@.len() != "blake2s"@.len());
    assert("blake3"@.len() != "blake2s-256"@.len());
    assert("xxh3"@.len() != "md5"@.len());
    assert("xxh3"@[0] != "sha1"@[0]);
    assert("xxh3"@.len() != "sha224"@.len());
    assert("xxh3"@.len() != "sha-224"@.len());
    assert("xxh3"@.len() != "sha256"@.len());
    assert("xxh3"@.len() != "sha-256"@.len());
    assert("xxh3"@.len() != "sha384"@.len());
    assert("xxh3"@.len() != "sha-384"@.len());
    assert("xxh3"@.len() != "sha512"@.len());
    assert("xxh3"@.len() != "sha-512"@.len());
    assert("xxh3"@.len() != "sha3-224"@.len());
    assert("xxh3"@.len() != "sha3-256"@.len());
    assert("xxh3"@.len() != "sha3-384"@.len());
    assert("xxh3"@.len() != "sha3-512"@.len());
    assert("xxh3"@.len() != "blake2b"@.len());
    assert("xxh3"@.len() != "blake2b-512"@.len());
    assert("xxh3"@.len() != "blake2s"@.len());
    assert("xxh3"@.len() != "blake2s-256"@.len());
    assert("xxh3"@.len() != "blake3"@.len());
    assert("xxh128"@.len() != "md5"@.len());
    assert("xxh128"@.len() != "sha1"@.len());
    assert("xxh128"@[0] != "sha224"@[0]);
    assert("xxh128"@.len() != "sha-224"@.len());
    assert("xxh128"@[0] != "sha256"@[0]);
    assert("xxh128"@.len() != "sha-256"@.len());
    assert("xxh128"@[0] != "sha384"@[0]);
    assert("xxh128"@.len() != "sha-384"@.len());
    assert("xxh128"@[0] != "sha512"@[0]);
    assert("xxh128"@.len() != "sha-512"@.len());
    assert("xxh128"@.len() != "sha3-224"@.len());
    assert("xxh128"@.len() != "sha3-256"@.len());
    assert("xxh128"@.len() != "sha3-384"@.len());
    assert("xxh128"@.len() != "sha3-512"@.len());
    assert("xxh128"@.len() != "blake2b"@.len());
    assert("xxh128"@.len() != "blake2b-512"@.len());
    assert("xxh128"@.len() != "blake2s"@.len());
    assert("xxh128"@.len() != "blake2s-256"@.len());
    assert("xxh128"@[0] != "blake3"@[0]);
    assert("xxh128"@.len() != "xxh3"@.len());
    assert("crc32"@.len() != "md5"@.len());
    assert("crc32"@.len() != "sha1"@.len());
    assert("crc32"@.len() != "sha224"@.len());
    assert("crc32"@.len() != "sha-224"@.len());
    assert("crc32"@.len() != "sha256"@.len());
    assert("crc32"@.len() != "sha-256"@.len());
    assert("crc32"@.len() != "sha384"@.len());
    assert("crc32"@.len() != "sha-384"@.len());
    assert("crc32"@.len() != "sha512"@.len());
    assert("crc32"@.len() != "sha-512"@.len());
    assert("crc32"@.len() != "sha3-224"@.len());
    assert("crc32"@.len() != "sha3-256"@.len());
    assert("crc32"@.len() != "sha3-384"@.len());
    assert("crc32"@.len() != "sha3-512"@.len());
    assert("crc32"@.len() != "blake2b"@.len());
    assert("crc32"@.len() != "blake2b-512"@.len());
    assert("crc32"@.len() != "blake2s"@.len());
    assert("crc32"@.len() != "blake2s-256"@.len());
    assert("crc32"@.len() != "blake3"@.len());
    assert("crc32"@.len() != "xxh3"@.len());
    assert("crc32"@.len() != "xxh128"@.len());
}

/// The digest length of `a` in bytes.
pub open spec fn output_size_spec(a: HashAlgorithm) -> nat {
    match a {
        HashAlgorithm::Md5 => 16,
        HashAlgorithm::Sha1 => 20,
        HashAlgorithm::Sha224 => 28,
        HashAlgorithm::Sha256 => 32,
        HashAlgorithm::Sha384 => 48,
        HashAlgorithm::Sha512 => 64,
        HashAlgorithm::Sha3_224 => 28,
        HashAlgorithm::Sha3_256 => 32,
        HashAlgorithm::Sha3_384 => 48,
        HashAlgorithm::Sha3_512 => 64,
        HashAlgorithm::Blake2b512 => 64,
        HashAlgorithm::Blake2s256 => 32,
        HashAlgorithm::Blake3 => 32,
        HashAlgorithm::Xxh3 => 8,
        HashAlgorithm::Xxh128 => 16,
    }
}

/// Compute the digest of `data` under `a`.
pub fn digest(a: HashAlgorithm, data: &[u8]) -> (r: Vec<u8>)
    ensures
        r@ == digest_spec(a, data@),
        r@.len() == output_size_spec(a),
        a == HashAlgorithm::Md5 ==> r@ == md5_digest(data@),
        a == HashAlgorithm::Sha1 ==> r@ == sha1_digest(data@),
        a == HashAlgorithm::Sha224 ==> r@ == sha224_digest(data@),
        a == HashAlgorithm::Sha256 ==> r@ == sha256_digest(data@),
        a == HashAlgorithm::Sha384 ==> r@ == sha384_digest(data@),
        a == HashAlgorithm::Sha512 ==> r@ == sha512_digest(data@),
        a == HashAlgorithm::Sha3_224 ==> r@ == sha3_224_digest(data@),
        a == HashAlgorithm::Sha3_256 ==> r@ == sha3_256_digest(data@),
        a == HashAlgorithm::Sha3_384 ==> r@ == sha3_384_digest(data@),
        a == HashAlgorithm::Sha3_512 ==> r@ == sha3_512_digest(data@),
        a == HashAlgorithm::Blake2b512 ==> r@ == blake2b512_digest(data@),
        a == HashAlgorithm::Blake2s256 ==> r@ == blake2s256_digest(data@),
        a == HashAlgorithm::Blake3 ==> r@ == blake3_digest(data@),
        a == HashAlgorithm::Xxh3 ==> r@ == xxh3_64_digest(data@),
        a == HashAlgorithm::Xxh128 ==> r@ == xxh3_128_digest(data@),
{
    match a {
        HashAlgorithm::Md5 => md5_digest_of(data),
        HashAlgorithm::Sha1 => sha1_digest_of(data),
        HashAlgorithm::Sha224 => sha224_digest_of(data),
        HashAlgorithm::Sha256 => sha256_digest_of(data),
        HashAlgorithm::Sha384 => sha384_digest_of(data),
        HashAlgorithm::Sha512 => sha512_digest_of(data),
        HashAlgorithm::Sha3_224 => sha3_224_digest_of(data),
        HashAlgorithm::Sha3_256 => sha3_256_digest_of(data),
        HashAlgorithm::Sha3_384 => sha3_384_digest_of(data),
        HashAlgorithm::Sha3_512 => sha3_512_digest_of(data),
        HashAlgorithm::Blake2b512 => blake2b512_digest_of(data),
        HashAlgorithm::Blake2s256 => blake2s256_digest_of(data),
        HashAlgorithm::Blake3 => blake3_digest_of(data),
        HashAlgorithm::Xxh3 => xxh3_64_digest_of(data),
        HashAlgorithm::Xxh128 => xxh3_128_digest_of(data),
    }
}

/// The algorithm that a lowercase name denotes.
pub open spec fn algorithm_named(l: Seq<char>) -> Option<HashAlgorithm> {
    if l == "md5"@ {
        Some(HashAlgorithm::Md5)
    } else if l == "sha1"@ {
        Some(HashAlgorithm::Sha1)
    } else if l == "sha224"@ || l == "sha-224"@ {
        Some(HashAlgorithm::Sha224)
    } else if l == "sha256"@ || l == "sha-256"@ {
        Some(HashAlgorithm::Sha256)
    } else if l == "sha384"@ || l == "sha-384"@ {
        Some(HashAlgorithm::Sha384)
    } else if l == "sha512"@ || l == "sha-512"@ {
        Some(HashAlgorithm::Sha512)
    } else if l == "sha3-224"@ {
        Some(HashAlgorithm::Sha3_224)
    } else if l == "sha3-256"@ {
        Some(HashAlgorithm::Sha3_256)
    } else if l == "sha3-384"@ {
        Some(HashAlgorithm::Sha3_384)
    } else if l == "sha3-512"@ {
        Some(HashAlgorithm::Sha3_512)
    } else if l == "blake2b"@ || l == "blake2b-512"@ {
        Some(HashAlgorithm::Blake2b512)
    } else if l == "blake2s"@ || l == "blake2s-256"@ {
        Some(HashAlgorithm::Blake2s256)
    } else if l == "blake3"@ {
        Some(HashAlgorithm::Blake3)
    } else if l == "xxh3"@ {
        Some(HashAlgorithm::Xxh3)
    } else if l == "xxh128"@ {
        Some(HashAlgorithm::Xxh128)
    } else {
        None
    }
}

/// The lowercase hexadecimal rendering of `b`, two digits per byte.
pub open spec fn hex_of_bytes(b: Seq<u8>) -> Seq<char>
    decreases b.len(),
{
    if b.len() == 0 {
        Seq::empty()
    } else {
        hex_of_bytes(b.drop_last()) + hex_str(b.last() as nat, 2)
    }
}

/// The value of a lowercase hexadecimal digit.
pub open spec fn hex_value(c: char) -> int {
    if '0' <= c && c <= '9' {
        (c as int) - ('0' as int)
    } else {
        (c as int) - ('a' as int) + 10
    }
}

proof fn lemma_hex_digit_value(n: int)
    requires
        0 <= n < 16,
    ensures
        hex_value(hex_digit(n)) == n,
{
    if n < 10 {
        let v: u32 = (48 + n) as u32;
        assert(vstd::utf8::has_width_1_encoding(v));
    } else {
        let v: u32 = (87 + n) as u32;
        assert(vstd::utf8::has_width_1_encoding(v));
    }
}

/// The hexadecimal rendering of bytes reads back as those bytes: the two
/// digits at positions `2i` and `2i + 1` give byte `i`, high half first. So
/// different digests never render alike.
pub proof fn lemma_hex_of_bytes_reads_back(b: Seq<u8>)
    ensures
        hex_of_bytes(b).len() == 2 * b.len(),
        forall|i: int|
            0 <= i < b.len() ==> 16 * hex_value(hex_of_bytes(b)[2 * i]) + hex_value(
                hex_of_bytes(b)[2 * i + 1],
            ) == #[trigger] b[i],
    decreases b.len(),
{
    lemma_hex_of_bytes_len(b);
    if b.len() > 0 {
        let init = b.drop_last();
        lemma_hex_of_bytes_reads_back(init);
        let v = b.last() as nat;
        let pair = hex_str(v, 2);
        assert(hex_str(v / 16, 1) == hex_str(v / 16 / 16, 0).push(hex_digit(((v / 16) % 16) as int)));
        assert(pair =~= seq![hex_digit(((v / 16) % 16) as int), hex_digit((v % 16) as int)]);
        lemma_hex_digit_value(((v / 16) % 16) as int);
        lemma_hex_digit_value((v % 16) as int);
        let h = hex_of_bytes(b);
        let hp = hex_of_bytes(init);
        assert(h == hp + pair);
        assert forall|i: int| 0 <= i < b.len() implies 16 * hex_value(h[2 * i]) + hex_value(
            h[2 * i + 1],
        ) == #[trigger] b[i] by {
            if i < b.len() - 1 {
                assert(h[2 * i] == hp[2 * i]);
                assert(h[2 * i + 1] == hp[2 * i + 1]);
                assert(init[i] == b[i]);
            } else {
                assert(h[2 * i] == pair[0]);
                assert(h[2 * i + 1] == pair[1]);
                assert(v < 256);
                assert((v / 16) % 16 == v / 16);
                assert(16 * (v / 16) + v % 16 == v);
            }
        }
    }
}

/// A hexadecimal rendering with `k` digits has `k` characters.
pub proof fn lemma_hex_str_len(v: nat, k: nat)
    ensures
        hex_str(v, k).len() == k,
    decreases k,
{
    if k > 0 {
        lemma_hex_str_len(v / 16, (k - 1) as nat);
    }
}

/// The hexadecimal rendering of bytes has two characters per byte.
pub proof fn lemma_hex_of_bytes_len(b: Seq<u8>)
    ensures
        hex_of_bytes(b).len() == 2 * b.len(),
    decreases b.len(),
{
    if b.len() > 0 {
        lemma_hex_of_bytes_len(b.drop_last());
        lemma_hex_str_len(b.last() as nat, 2);
    }
}

/// `c` is a lowercase hexadecimal digit.
pub open spec fn is_lower_hex(c: char) -> bool {
    ('0' <= c && c <= '9') || ('a' <= c && c <= 'f')
}

/// A hexadecimal rendering is made of lowercase hexadecimal digits.
pub proof fn lemma_hex_str_digits(v: nat, k: nat)
    ensures
        forall|i: int| 0 <= i < hex_str(v, k).len() ==> is_lower_hex(#[trigger] hex_str(v, k)[i]),
    decreases k,
{
    if k > 0 {
        lemma_hex_str_digits(v / 16, (k - 1) as nat);
        let p = hex_str(v / 16, (k - 1) as nat);
        let n = (v % 16) as int;
        assert(is_lower_hex(hex_digit(n)));
        assert forall|i: int| 0 <= i < hex_str(v, k).len() implies is_lower_hex(
            #[trigger] hex_str(v, k)[i],
        ) by {
            if i < p.len() {
                assert(hex_str(v, k)[i] == p[i]);
            }
        }
    }
}

/// The hexadecimal rendering of bytes is made of lowercase hexadecimal
/// digits.
pub proof fn lemma_hex_of_bytes_digits(b: Seq<u8>)
    ensures
        forall|i: int| 0 <= i < hex_of_bytes(b).len() ==> is_lower_hex(#[trigger] hex_of_bytes(b)[i]),
    decreases b.len(),
{
    if b.len() > 0 {
        lemma_hex_of_bytes_digits(b.drop_last());
        lemma_hex_str_digits(b.last() as nat, 2);
        let p = hex_of_bytes(b.drop_last());
        let q = hex_str(b.last() as nat, 2);
        assert forall|i: int| 0 <= i < hex_of_bytes(b).len() implies is_lower_hex(
            #[trigger] hex_of_bytes(b)[i],
        ) by {
            if i < p.len() {
                assert(hex_of_bytes(b)[i] == p[i]);
            } else {
                assert(hex_of_bytes(b)[i] == q[i - p.len()]);
            }
        }
    }
}

/// Convert bytes to hexadecimal string
pub fn bytes_to_hex(bytes: &[u8]) -> (r: String)
    ensures
        r@ == hex_of_bytes(bytes@),
{
    let mut s = String::new();
    let mut i: usize = 0;
    while i < bytes.len()
        invariant
            i <= bytes@.len(),
            s@ == hex_of_bytes(bytes@.take(i as int)),
        decreases bytes@.len() - i,
    {
        let h = hex_fixed(bytes[i] as u64, 2);
        proof {
            assert(bytes@.take(i + 1).drop_last() =~= bytes@.take(i as int));
            assert(bytes@.take(i + 1).last() == bytes@[i as int]);
        }
        crate::text::push_str(&mut s, h.as_str());
        i = i + 1;
    }
    proof {
        assert(bytes@.take(bytes@.len() as int) =~= bytes@);
    }
    s
}

/// The table of algorithms that `list_algorithms` reports: name, output
/// bits, post-quantum resistance, cryptographic strength.
pub open spec fn algorithm_table() -> Seq<(Seq<char>, usize, bool, bool)> {
    seq![
        ("MD5"@, 128usize, false, true),
        ("SHA1"@, 160usize, false, true),
        ("SHA-224"@, 224usize, false, true),
        ("SHA-256"@, 256usize, false, true),
        ("SHA-384"@, 384usize, false, true),
        ("SHA-512"@, 512usize, false, true),
        ("SHA3-224"@, 224usize, true, true),
        ("SHA3-256"@, 256usize, true, true),
        ("SHA3-384"@, 384usize, true, true),
        ("SHA3-512"@, 512usize, true, true),
        ("BLAKE2b-512"@, 512usize, false, true),
        ("BLAKE2s-256"@, 256usize, false, true),
        ("BLAKE3"@, 256usize, false, true),
        ("XXH3"@, 64usize, false, false),
        ("XXH128"@, 128usize, false, false)
    ]
}

/// A hash computation fed in pieces: the digest it finishes with is that of
/// everything fed to it, in order.
pub trait Hasher {
    /// The algorithm this hasher computes.
    spec fn algorithm_of(&self) -> HashAlgorithm;

    /// The bytes fed so far.
    spec fn fed(&self) -> Seq<u8>;

    /// Update the hasher with new data
    fn update(&mut self, data: &[u8])
        ensures
            final(self).fed() == old(self).fed() + data@,
            final(self).algorithm_of() == old(self).algorithm_of(),
    ;

    /// Finalize the hash and return the result
    fn finalize(self) -> (r: Vec<u8>)
        ensures
            r@ == digest_spec(self.algorithm_of(), self.fed()),
    ;

    /// Get the output size in bytes
    fn output_size(&self) -> (r: usize)
        ensures
            r == output_size_spec(self.algorithm_of()),
    ;
}

/// A hasher that keeps what it is fed and digests it when finished.
pub struct BufferedHasher {
    algorithm: HashAlgorithm,
    pending: Vec<u8>,
}

impl BufferedHasher {
    /// A hasher for `algorithm` that has been fed nothing.
    pub fn new(algorithm: HashAlgorithm) -> (r: Self)
        ensures
            r.algorithm_of() == algorithm,
            r.fed() == Seq::<u8>::empty(),
    {
        BufferedHasher { algorithm, pending: Vec::new() }
    }
}

impl Hasher for BufferedHasher {
    closed spec fn algorithm_of(&self) -> HashAlgorithm {
        self.algorithm
    }

    closed spec fn fed(&self) -> Seq<u8> {
        self.pending@
    }

    fn update(&mut self, data: &[u8]) {
        self.pending.extend_from_slice(data);
    }

    fn finalize(self) -> (r: Vec<u8>) {
        digest(self.algorithm, self.pending.as_slice())
    }

    fn output_size(&self) -> (r: usize) {
        output_size(self.algorithm)
    }
}

/// The digest length of `a` in bytes.
pub fn output_size(a: HashAlgorithm) -> (r: usize)
    ensures
        r == output_size_spec(a),
{
    match a {
        HashAlgorithm::Md5 => 16,
        HashAlgorithm::Sha1 => 20,
        HashAlgorithm::Sha224 => 28,
        HashAlgorithm::Sha256 => 32,
        HashAlgorithm::Sha384 => 48,
        HashAlgorithm::Sha512 => 64,
        HashAlgorithm::Sha3_224 => 28,
        HashAlgorithm::Sha3_256 => 32,
        HashAlgorithm::Sha3_384 => 48,
        HashAlgorithm::Sha3_512 => 64,
        HashAlgorithm::Blake2b512 => 64,
        HashAlgorithm::Blake2s256 => 32,
        HashAlgorithm::Blake3 => 32,
        HashAlgorithm::Xxh3 => 8,
        HashAlgorithm::Xxh128 => 16,
    }
}

/// The fields of an algorithm description.
pub open spec fn info_fields(i: AlgorithmInfo) -> (Seq<char>, usize, bool, bool) {
    (i.name@, i.output_bits, i.post_quantum, i.cryptographic)
}

/// Registry for hash algorithms
pub struct HashRegistry;

impl HashRegistry {
    /// The algorithm named `algorithm` (case-insensitively, with the
    /// hyphenated and the short names of the SHA-2 and BLAKE2 families);
    /// unsupported names are an error that carries the name given.
    pub fn parse_algorithm(algorithm: &str) -> (r: Result<HashAlgorithm, HashUtilityError>)
        ensures
            is_ascii_text(algorithm@) ==> lowercase_of(algorithm@) == algorithm@.map_values(
                |c: char| ascii_lower(c),
            ),
            match algorithm_named(lowercase_of(algorithm@)) {
                Some(a) => r matches Ok(x) && x == a,
                None => r matches Err(HashUtilityError::UnsupportedAlgorithm { algorithm: n })
                    && n@ == algorithm@,
            },
    {
        let lower = lowercase(algorithm);
        let l = lower.as_str();
        if str_eq(l, "md5") {
            Ok(HashAlgorithm::Md5)
        } else if str_eq(l, "sha1") {
            Ok(HashAlgorithm::Sha1)
        } else if str_eq(l, "sha224") || str_eq(l, "sha-224") {
            Ok(HashAlgorithm::Sha224)
        } else if str_eq(l, "sha256") || str_eq(l, "sha-256") {
            Ok(HashAlgorithm::Sha256)
        } else if str_eq(l, "sha384") || str_eq(l, "sha-384") {
            Ok(HashAlgorithm::Sha384)
        } else if str_eq(l, "sha512") || str_eq(l, "sha-512") {
            Ok(HashAlgorithm::Sha512)
        } else if str_eq(l, "sha3-224") {
            Ok(HashAlgorithm::Sha3_224)
        } else if str_eq(l, "sha3-256") {
            Ok(HashAlgorithm::Sha3_256)
        } else if str_eq(l, "sha3-384") {
            Ok(HashAlgorithm::Sha3_384)
        } else if str_eq(l, "sha3-512") {
            Ok(HashAlgorithm::Sha3_512)
        } else if str_eq(l, "blake2b") || str_eq(l, "blake2b-512") {
            Ok(HashAlgorithm::Blake2b512)
        } else if str_eq(l, "blake2s") || str_eq(l, "blake2s-256") {
            Ok(HashAlgorithm::Blake2s256)
        } else if str_eq(l, "blake3") {
            Ok(HashAlgorithm::Blake3)
        } else if str_eq(l, "xxh3") {
            Ok(HashAlgorithm::Xxh3)
        } else if str_eq(l, "xxh128") {
            Ok(HashAlgorithm::Xxh128)
        } else {
            Err(HashUtilityError::UnsupportedAlgorithm { algorithm: to_string(algorithm) })
        }
    }

    /// A fresh hasher for the algorithm named `algorithm`, named as
    /// `parse_algorithm` reads names; unsupported names are an error that
    /// carries the name given.
    pub fn get_hasher(algorithm: &str) -> (r: Result<BufferedHasher, HashUtilityError>)
        ensures
            match algorithm_named(lowercase_of(algorithm@)) {
                Some(a) => r matches Ok(h) && h.algorithm_of() == a && h.fed() == Seq::<u8>::empty(),
                None => r matches Err(HashUtilityError::UnsupportedAlgorithm { algorithm: n })
                    && n@ == algorithm@,
            },
    {
        match HashRegistry::parse_algorithm(algorithm) {
            Ok(a) => Ok(BufferedHasher::new(a)),
            Err(e) => Err(e),
        }
    }

    /// List all available hash algorithms
    pub fn list_algorithms() -> (r: Vec<AlgorithmInfo>)
        ensures
            r@.map_values(|i: AlgorithmInfo| info_fields(i)) == algorithm_table(),
    {
            let mut v: Vec<AlgorithmInfo> = Vec::new();
        v.push(AlgorithmInfo { name: to_string("MD5"), output_bits: 128, post_quantum: false, cryptographic: true });
        v.push(AlgorithmInfo { name: to_string("SHA1"), output_bits: 160, post_quantum: false, cryptographic: true });
        v.push(AlgorithmInfo { name: to_string("SHA-224"), output_bits: 224, post_quantum: false, cryptographic: true });
        v.push(AlgorithmInfo { name: to_string("SHA-256"), output_bits: 256, post_quantum: false, cryptographic: true });
        v.push(AlgorithmInfo { name: to_string("SHA-384"), output_bits: 384, post_quantum: false, cryptographic: true });
        v.push(AlgorithmInfo { name: to_string("SHA-512"), output_bits: 512, post_quantum: false, cryptographic: true });
        v.push(AlgorithmInfo { name: to_string("SHA3-224"), output_bits: 224, post_quantum: true, cryptographic: true });
        v.push(AlgorithmInfo { name: to_string("SHA3-256"), output_bits: 256, post_quantum: true, cryptographic: true });
        v.push(AlgorithmInfo { name: to_string("SHA3-384"), output_bits: 384, post_quantum: true, cryptographic: true });
        v.push(AlgorithmInfo { name: to_string("SHA3-512"), output_bits: 512, post_quantum: true, cryptographic: true });
        v.push(AlgorithmInfo { name: to_string("BLAKE2b-512"), output_bits: 512, post_quantum: false, cryptographic: true });
        v.push(AlgorithmInfo { name: to_string("BLAKE2s-256"), output_bits: 256, post_quantum: false, cryptographic: true });
        v.push(AlgorithmInfo { name: to_string("BLAKE3"), output_bits: 256, post_quantum: false, cryptographic: true });
        v.push(AlgorithmInfo { name: to_string("XXH3"), output_bits: 64, post_quantum: false, cryptographic: false });
        v.push(AlgorithmInfo { name: to_string("XXH128"), output_bits: 128, post_quantum: false, cryptographic: false });
        assert(v@.map_values(|i: AlgorithmInfo| info_fields(i)) =~= algorithm_table());
        v
    }

    /// Check if an algorithm is post-quantum resistant: the SHA-3 family
    /// and the SHAKE functions, by case-insensitive name.
    pub fn is_post_quantum(algorithm: &str) -> (r: bool)
        ensures
            r == ({
                let l = lowercase_of(algorithm@);
                has_prefix(l, "sha3-"@) || l == "shake128"@ || l == "shake256"@
            }),
    {
        let lower = lowercase(algorithm);
        let l = lower.as_str();
        starts_with(l, "sha3-") || str_eq(l, "shake128") || str_eq(l, "shake256")
    }
}

/// Result of a hash computation
#[derive(Debug, Clone)]
pub struct HashResult {
    pub algorithm: String,
    /// hex-encoded
    pub hash: String,
    pub file_path: String,
}

/// `h` reports the digest of `data` under the algorithm named `name`, for
/// the file `path`.
pub open spec fn reports(h: HashResult, name: Seq<char>, data: Seq<u8>, path: Seq<char>) -> bool {
    &&& algorithm_named(lowercase_of(name)) matches Some(a)
    &&& h.algorithm@ == name
    &&& h.hash@ == hex_of_bytes(digest_spec(a, data))
    &&& h.file_path@ == path
}

/// `hex` is a digest of `a` written out: two lowercase hexadecimal digits
/// per byte of the digest.
pub open spec fn is_hex_digest(hex: Seq<char>, a: HashAlgorithm) -> bool {
    &&& hex.len() == 2 * output_size_spec(a)
    &&& forall|i: int| 0 <= i < hex.len() ==> is_lower_hex(#[trigger] hex[i])
}

/// The algorithm names are all supported.
pub open spec fn all_supported(names: Seq<String>) -> bool {
    forall|i: int| 0 <= i < names.len() ==> (#[trigger] algorithm_named(lowercase_of(names[i]@))) is Some
}

/// `e` is the error for the first unsupported name of `names`.
pub open spec fn first_unsupported(names: Seq<String>, e: HashUtilityError) -> bool {
    exists|j: int|
        {
            &&& 0 <= j < names.len()
            &&& (#[trigger] algorithm_named(lowercase_of(names[j]@))) is None
            &&& forall|k: int|
                0 <= k < j ==> (#[trigger] algorithm_named(lowercase_of(names[k]@))) is Some
            &&& e matches HashUtilityError::UnsupportedAlgorithm { algorithm }
            &&& algorithm@ == names[j]@
        }
}

/// Sample size of fast mode: 100 MiB.
pub const FAST_MODE_SAMPLE_SIZE: u64 = 100 * 1024 * 1024;

/// Files from this size on are sampled in fast mode: 300 MiB.
pub const FAST_MODE_THRESHOLD: u64 = 3 * 100 * 1024 * 1024;

/// Files below this size are memory-mapped: 2 GiB.
pub const MMAP_THRESHOLD: u64 = 2 * 1024 * 1024 * 1024;

/// Files above this size get a progress bar: 1 GiB.
pub const PROGRESS_BAR_THRESHOLD: u64 = 1024 * 1024 * 1024;

/// Interval between progress bar updates, in milliseconds.
pub const PROGRESS_UPDATE_INTERVAL_MS: u64 = 100;

/// Hash computer with streaming I/O
pub struct HashComputer {
    buffer_size: usize,
}

impl Default for HashComputer {
    fn default() -> (r: Self)
        ensures
            r.buffer_size() == 1024 * 1024,
    {
        HashComputer::new()
    }
}

/// Build the result that reports `digest_bytes` for `path`.
pub fn hash_result(algorithm: &str, digest_bytes: &[u8], path: &str) -> (r: HashResult)
    ensures
        r.algorithm@ == algorithm@,
        r.hash@ == hex_of_bytes(digest_bytes@),
        r.file_path@ == path@,
{
    HashResult {
        algorithm: to_string(algorithm),
        hash: bytes_to_hex(digest_bytes),
        file_path: to_string(path),
    }
}

impl HashComputer {
    /// The size of the read buffer.
    pub closed spec fn buffer_size(&self) -> usize {
        self.buffer_size
    }

    /// Create a new HashComputer with default buffer size (1MB)
    pub fn new() -> (r: Self)
        ensures
            r.buffer_size() == 1024 * 1024,
    {
        HashComputer { buffer_size: 1024 * 1024 }
    }

    /// Create a new HashComputer with custom buffer size
    pub fn with_buffer_size(buffer_size: usize) -> (r: Self)
        ensures
            r.buffer_size() == buffer_size,
    {
        HashComputer { buffer_size }
    }

    /// The size of the read buffer.
    pub fn get_buffer_size(&self) -> (r: usize)
        ensures
            r == self.buffer_size(),
    {
        self.buffer_size
    }

    /// Compute the hash of in-memory data, reported for `path`.
    pub fn compute_hash(&self, data: &[u8], path: &str, algorithm: &str) -> (r: Result<
        HashResult,
        HashUtilityError,
    >)
        ensures
            algorithm_named(lowercase_of(algorithm@)) is Some ==> (r matches Ok(h) && reports(
                h,
                algorithm@,
                data@,
                path@,
            )),
            algorithm_named(lowercase_of(algorithm@)) is None ==> (r matches Err(
                HashUtilityError::UnsupportedAlgorithm { algorithm: n },
            ) && n@ == algorithm@),
            r matches Ok(h) ==> is_hex_digest(h.hash@, algorithm_named(lowercase_of(algorithm@))->0),
    {
        let a = match HashRegistry::parse_algorithm(algorithm) {
            Ok(a) => a,
            Err(e) => {
                return Err(e);
            },
        };
        let d = digest(a, data);
        proof {
            lemma_hex_of_bytes_len(d@);
            lemma_hex_of_bytes_digits(d@);
        }
        Ok(hash_result(algorithm, d.as_slice(), path))
    }

    /// Compute hash from text string: the digest of its UTF-8 bytes,
    /// reported for `<text>`.
    pub fn compute_hash_text(&self, text: &str, algorithm: &str) -> (r: Result<
        HashResult,
        HashUtilityError,
    >)
        ensures
            algorithm_named(lowercase_of(algorithm@)) is Some ==> (r matches Ok(h) && reports(
                h,
                algorithm@,
                encode_utf8(text@),
                "<text>"@,
            )),
            algorithm_named(lowercase_of(algorithm@)) is None ==> (r matches Err(
                HashUtilityError::UnsupportedAlgorithm { algorithm: n },
            ) && n@ == algorithm@),
            r matches Ok(h) ==> is_hex_digest(h.hash@, algorithm_named(lowercase_of(algorithm@))->0),
    {
        self.compute_hash(text.as_bytes(), "<text>", algorithm)
    }

    /// Compute several hashes of in-memory data in a single pass, reported
    /// for `path`. Fails on the first unsupported algorithm name.
    pub fn compute_multiple_hashes(&self, data: &[u8], path: &str, algorithms: &[String]) -> (r:
        Result<Vec<HashResult>, HashUtilityError>)
        ensures
            all_supported(algorithms@) ==> (r matches Ok(v) && v@.len() == algorithms@.len() && (
            forall|i: int|
                0 <= i < v@.len() ==> reports(
                    #[trigger] v@[i],
                    algorithms@[i]@,
                    data@,
                    path@,
                ))),
            !all_supported(algorithms@) ==> (r matches Err(e) && first_unsupported(
                algorithms@,
                e,
            )),
    {
        let mut found: Vec<HashAlgorithm> = Vec::new();
        let mut i: usize = 0;
        while i < algorithms.len()
            invariant
                i <= algorithms@.len(),
                found@.len() == i,
                forall|k: int|
                    0 <= k < i ==> algorithm_named(lowercase_of(algorithms@[k]@)) == Some(
                        #[trigger] found@[k],
                    ),
            decreases algorithms@.len() - i,
        {
            match HashRegistry::parse_algorithm(algorithms[i].as_str()) {
                Ok(a) => {
                    found.push(a);
                },
                Err(e) => {
                    proof {
                        assert forall|k: int| 0 <= k < i implies (#[trigger] algorithm_named(
                            lowercase_of(algorithms@[k]@),
                        )) is Some by {
                            assert(algorithm_named(lowercase_of(algorithms@[k]@)) == Some(
                                found@[k],
                            ));
                        }
                        assert(first_unsupported(algorithms@, e));
                    }
                    return Err(e);
                },
            }
            i = i + 1;
        }
        let mut results: Vec<HashResult> = Vec::new();
        let mut j: usize = 0;
        while j < found.len()
            invariant
                j <= found@.len(),
                found@.len() == algorithms@.len(),
                forall|k: int|
                    0 <= k < found@.len() ==> algorithm_named(lowercase_of(algorithms@[k]@))
                        == Some(#[trigger] found@[k]),
                results@.len() == j,
                forall|k: int|
                    0 <= k < j ==> reports(#[trigger] results@[k], algorithms@[k]@, data@, path@),
            decreases found@.len() - j,
        {
            let d = digest(found[j], data);
            results.push(hash_result(algorithms[j].as_str(), d.as_slice(), path));
            proof {
                assert(algorithm_named(lowercase_of(algorithms@[j as int]@)) == Some(
                    found@[j as int],
                ));
            }
            j = j + 1;
        }
        proof {
            assert forall|k: int| 0 <= k < algorithms@.len() implies (#[trigger] algorithm_named(
                lowercase_of(algorithms@[k]@),
            )) is Some by {
                assert(algorithm_named(lowercase_of(algorithms@[k]@)) == Some(found@[k]));
            }
        }
        Ok(results)
    }

    /// Compute multiple hashes from text string in a single pass
    pub fn compute_multiple_hashes_text(&self, text: &str, algorithms: &[String]) -> (r: Result<
        Vec<HashResult>,
        HashUtilityError,
    >)
        ensures
            all_supported(algorithms@) ==> (r matches Ok(v) && v@.len() == algorithms@.len() && (
            forall|i: int|
                0 <= i < v@.len() ==> reports(
                    #[trigger] v@[i],
                    algorithms@[i]@,
                    encode_utf8(text@),
                    "<text>"@,
                ))),
            !all_supported(algorithms@) ==> (r matches Err(e) && first_unsupported(
                algorithms@,
                e,
            )),
    {
        self.compute_multiple_hashes(text.as_bytes(), "<text>", algorithms)
    }
}

/// The regions `(start, length)` that fast mode hashes of a file of
/// `file_size` bytes: none (the whole file is hashed) below 300 MiB, else
/// the first, the middle (centered on half the size) and the last 100 MiB.
pub fn fast_mode_regions(file_size: u64) -> (r: Option<Vec<(u64, u64)>>)
    ensures
        file_size < FAST_MODE_THRESHOLD ==> r is None,
        file_size >= FAST_MODE_THRESHOLD ==> (r matches Some(v) && v@ == seq![
            (0u64, FAST_MODE_SAMPLE_SIZE),
            ((file_size / 2 - FAST_MODE_SAMPLE_SIZE / 2) as u64, FAST_MODE_SAMPLE_SIZE),
            ((file_size - FAST_MODE_SAMPLE_SIZE) as u64, FAST_MODE_SAMPLE_SIZE),
        ]),
{
    if file_size < FAST_MODE_THRESHOLD {
        return None;
    }
    let mut v: Vec<(u64, u64)> = Vec::new();
    v.push((0, FAST_MODE_SAMPLE_SIZE));
    v.push((file_size / 2 - FAST_MODE_SAMPLE_SIZE / 2, FAST_MODE_SAMPLE_SIZE));
    v.push((file_size - FAST_MODE_SAMPLE_SIZE, FAST_MODE_SAMPLE_SIZE));
    Some(v)
}

/// The number of bytes to read next from a region with `remaining` bytes
/// left, through a buffer of `buffer_len` bytes.
pub fn read_chunk_len(remaining: u64, buffer_len: usize) -> (r: usize)
    ensures
        r as int == if remaining < buffer_len as u64 {
            remaining as int
        } else {
            buffer_len as int
        },
{
    if remaining < buffer_len as u64 {
        remaining as usize
    } else {
        buffer_len
    }
}

/// A file is memory-mapped for hashing when it is neither empty nor 2 GiB
/// or larger.
pub fn uses_memory_map(file_size: u64) -> (r: bool)
    ensures
        r == (0 < file_size && file_size < MMAP_THRESHOLD),
{
    file_size > 0 && file_size < MMAP_THRESHOLD
}

/// A progress bar is shown when asked for, for files over 1 GiB, on a
/// terminal.
pub fn shows_progress(show_progress: bool, file_size: u64, is_terminal: bool) -> (r: bool)
    ensures
        r == (show_progress && file_size > PROGRESS_BAR_THRESHOLD && is_terminal),
{
    show_progress && file_size > PROGRESS_BAR_THRESHOLD && is_terminal
}

} // verus!
