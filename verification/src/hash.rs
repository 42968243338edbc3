//! Digests of bytes.

use hmac::Mac;
use sha2::Digest;
use vstd::prelude::*;

verus! {

/// The MD5 digest of bytes.
pub uninterp spec fn md5_digest(b: Seq<u8>) -> Seq<u8>;

/// `Md5::digest`: 16 bytes that depend on the input alone; they are named, not
/// described.
#[verifier::external_body]
pub(crate) fn md5(b: &[u8]) -> (r: Vec<u8>)
    ensures
        r@ == md5_digest(b@),
        r@.len() == 16,
{
    md5::Md5::digest(b).to_vec()
}

/// The SHA-1 digest of bytes.
pub uninterp spec fn sha1_digest(b: Seq<u8>) -> Seq<u8>;

/// `Sha1::digest`: 20 bytes that depend on the input alone; they are named, not
/// described.
#[verifier::external_body]
pub(crate) fn sha1(b: &[u8]) -> (r: Vec<u8>)
    ensures
        r@ == sha1_digest(b@),
        r@.len() == 20,
{
    sha1::Sha1::digest(b).to_vec()
}

/// The SHA-224 digest of bytes.
pub uninterp spec fn sha224_digest(b: Seq<u8>) -> Seq<u8>;

/// `Sha224::digest`: 28 bytes that depend on the input alone; they are named,
/// not described.
#[verifier::external_body]
pub(crate) fn sha224(b: &[u8]) -> (r: Vec<u8>)
    ensures
        r@ == sha224_digest(b@),
        r@.len() == 28,
{
    sha2::Sha224::digest(b).to_vec()
}

/// The SHA-256 digest of bytes.
pub uninterp spec fn sha256_digest(b: Seq<u8>) -> Seq<u8>;

/// `Sha256::digest`: 32 bytes that depend on the input alone; they are named,
/// not described.
#[verifier::external_body]
pub(crate) fn sha256(b: &[u8]) -> (r: Vec<u8>)
    ensures
        r@ == sha256_digest(b@),
        r@.len() == 32,
{
    sha2::Sha256::digest(b).to_vec()
}

/// The SHA-384 digest of bytes.
pub uninterp spec fn sha384_digest(b: Seq<u8>) -> Seq<u8>;

/// `Sha384::digest`: 48 bytes that depend on the input alone; they are named,
/// not described.
#[verifier::external_body]
pub(crate) fn sha384(b: &[u8]) -> (r: Vec<u8>)
    ensures
        r@ == sha384_digest(b@),
        r@.len() == 48,
{
    sha2::Sha384::digest(b).to_vec()
}

/// The HMAC under SHA-256 of data.
pub uninterp spec fn hmac_sha256_of(key: Seq<u8>, data: Seq<u8>) -> Seq<u8>;

/// `Hmac::<Sha256>`: 32 bytes that depend on key and data alone; they are named,
/// not described.
#[verifier::external_body]
pub(crate) fn hmac_sha256(key: &[u8], data: &[u8]) -> (r: Vec<u8>)
    ensures
        r@ == hmac_sha256_of(key@, data@),
        r@.len() == 32,
{
    let mut m = <hmac::Hmac<sha2::Sha256> as Mac>::new_from_slice(key).unwrap();
    m.update(data);
    m.finalize().into_bytes().to_vec()
}

/// The HMAC under SHA-384 of data.
pub uninterp spec fn hmac_sha384_of(key: Seq<u8>, data: Seq<u8>) -> Seq<u8>;

/// `Hmac::<Sha384>`: 48 bytes that depend on key and data alone; they are named,
/// not described.
#[verifier::external_body]
pub(crate) fn hmac_sha384(key: &[u8], data: &[u8]) -> (r: Vec<u8>)
    ensures
        r@ == hmac_sha384_of(key@, data@),
        r@.len() == 48,
{
    let mut m = <hmac::Hmac<sha2::Sha384> as Mac>::new_from_slice(key).unwrap();
    m.update(data);
    m.finalize().into_bytes().to_vec()
}

/// The HMAC under SHA-512 of data.
pub uninterp spec fn hmac_sha512_of(key: Seq<u8>, data: Seq<u8>) -> Seq<u8>;

/// `Hmac::<Sha512>::verify_slice`: whether a tag is the HMAC of data, which
/// depends on key and data alone and is named.
#[verifier::external_body]
pub(crate) fn hmac_sha512_verify(key: &[u8], data: &[u8], tag: &[u8]) -> (r: bool)
    ensures
        r == (hmac_sha512_of(key@, data@) == tag@),
{
    let mut m = <hmac::Hmac<sha2::Sha512> as Mac>::new_from_slice(key).unwrap();
    m.update(data);
    m.verify_slice(tag).is_ok()
}

/// What HKDF with SHA-256 derives from a secret, a salt and a label.
pub uninterp spec fn hkdf_sha256_derived(
    secret: Seq<u8>,
    salt: Seq<u8>,
    label: Seq<u8>,
    n: nat,
) -> Seq<u8>;

/// `Hkdf::<Sha256>::new` with a salt, then `expand` with a label to `n` bytes,
/// which succeeds up to 255 digests. The result depends on the arguments alone;
/// it is named, not described.
#[verifier::external_body]
pub(crate) fn hkdf_sha256(secret: &[u8], salt: &[u8], label: &[u8], n: usize) -> (r: Vec<u8>)
    requires
        n <= 8160,
    ensures
        r@ == hkdf_sha256_derived(secret@, salt@, label@, n as nat),
        r@.len() == n,
{
    let mut out = vec![0u8; n];
    hkdf::Hkdf::<sha2::Sha256>::new(Some(salt), secret).expand(label, &mut out).unwrap();
    out
}

/// What HKDF with SHA-256 expands a key to.
pub uninterp spec fn hkdf_sha256_expanded(prk: Seq<u8>, info: Seq<u8>, n: nat) -> Seq<u8>;

/// `Hkdf::<Sha256>::from_prk`, which takes a key of at least 32 bytes, then
/// `expand` to `n` bytes, which succeeds up to 255 digests. The result depends
/// on the arguments alone; it is named, not described.
#[verifier::external_body]
pub(crate) fn hkdf_sha256_expand(prk: &[u8], info: &[u8], n: usize) -> (r: Vec<u8>)
    requires
        prk@.len() >= 32,
        n <= 8160,
    ensures
        r@ == hkdf_sha256_expanded(prk@, info@, n as nat),
        r@.len() == n,
{
    let mut out = vec![0u8; n];
    hkdf::Hkdf::<sha2::Sha256>::from_prk(prk).unwrap().expand(info, &mut out).unwrap();
    out
}

/// What HKDF with SHA-384 expands a key to.
pub uninterp spec fn hkdf_sha384_expanded(prk: Seq<u8>, info: Seq<u8>, n: nat) -> Seq<u8>;

/// `Hkdf::<Sha384>::from_prk`, which takes a key of at least 48 bytes, then
/// `expand` to `n` bytes, which succeeds up to 255 digests. The result depends
/// on the arguments alone; it is named, not described.
#[verifier::external_body]
pub(crate) fn hkdf_sha384_expand(prk: &[u8], info: &[u8], n: usize) -> (r: Vec<u8>)
    requires
        prk@.len() >= 48,
        n <= 12240,
    ensures
        r@ == hkdf_sha384_expanded(prk@, info@, n as nat),
        r@.len() == n,
{
    let mut out = vec![0u8; n];
    hkdf::Hkdf::<sha2::Sha384>::from_prk(prk).unwrap().expand(info, &mut out).unwrap();
    out
}

} // verus!
