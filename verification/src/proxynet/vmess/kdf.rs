//! Key derivation: nested HMACs over SHA-256.

use vstd::prelude::*;

use crate::codec;
use crate::hash;

verus! {

pub const KDF_SALT_CONST_VMESS_AEAD_KDF: &'static str = "VMess AEAD KDF";

pub const KDF_SALT_CONST_AUTH_ID_ENCRYPTION_KEY: &'static str = "AES Auth ID Encryption";

pub const KDF_SALT_CONST_AEAD_RESP_HEADER_LEN_KEY: &'static str = "AEAD Resp Header Len Key";

pub const KDF_SALT_CONST_AEAD_RESP_HEADER_LEN_IV: &'static str = "AEAD Resp Header Len IV";

pub const KDF_SALT_CONST_AEAD_RESP_HEADER_PAYLOAD_KEY: &'static str = "AEAD Resp Header Key";

pub const KDF_SALT_CONST_AEAD_RESP_HEADER_PAYLOAD_IV: &'static str = "AEAD Resp Header IV";

pub const KDF_SALT_CONST_VMESS_HEADER_PAYLOAD_AEAD_KEY: &'static str = "VMess Header AEAD Key";

pub const KDF_SALT_CONST_VMESS_HEADER_PAYLOAD_AEAD_IV: &'static str = "VMess Header AEAD Nonce";

pub const KDF_SALT_CONST_VMESS_HEADER_PAYLOAD_LENGTH_AEAD_KEY: &'static str =
    "VMess Header AEAD Key_Length";

pub const KDF_SALT_CONST_VMESS_HEADER_PAYLOAD_LENGTH_AEAD_IV: &'static str =
    "VMess Header AEAD Nonce_Length";

/// A key as a block of 64 bytes, under a pad.
pub open spec fn padded_key(k: Seq<u8>, pad: u8) -> Seq<u8> {
    Seq::new(
        64,
        |i: int|
            (if i < k.len() {
                k[i]
            } else {
                0u8
            }) ^ pad,
    )
}

/// The hash of a path of keys: that of no key is SHA-256, and a further key
/// makes the HMAC under it of the hash before.
pub open spec fn kdf_hash(path: Seq<Seq<u8>>, m: Seq<u8>) -> Seq<u8>
    decreases path.len(),
{
    if path.len() == 0 {
        hash::sha256_digest(m)
    } else {
        let below = path.drop_last();
        let k = if path.last().len() > 64 {
            kdf_hash(below, path.last())
        } else {
            path.last()
        };
        kdf_hash(below, padded_key(k, 0x5c) + kdf_hash(below, padded_key(k, 0x36) + m))
    }
}

pub open spec fn key_views(path: Seq<Vec<u8>>) -> Seq<Seq<u8>> {
    Seq::new(path.len(), |i: int| path[i]@)
}

fn pad_key(k: &[u8], pad: u8) -> (r: Vec<u8>)
    ensures
        r@ == padded_key(k@, pad),
{
    let mut r: Vec<u8> = Vec::new();
    let mut i: usize = 0;
    while i < 64
        invariant
            i <= 64,
            r@.len() == i,
            forall|j: int| 0 <= j < i ==> r@[j] == #[trigger] padded_key(k@, pad)[j],
        decreases 64 - i,
    {
        let b: u8 = if i < k.len() {
            k[i]
        } else {
            0
        };
        r.push(b ^ pad);
        i += 1;
    }
    assert(r@ =~= padded_key(k@, pad));
    r
}

fn hash_path(path: &Vec<Vec<u8>>, n: usize, m: &[u8]) -> (r: Vec<u8>)
    requires
        n <= path@.len(),
    ensures
        r@ == kdf_hash(key_views(path@).take(n as int), m@),
        r@.len() == 32,
    decreases n,
{
    let ghost ks = key_views(path@);
    if n == 0 {
        return hash::sha256(m);
    }
    assert(ks.take(n as int).drop_last() =~= ks.take(n - 1));
    assert(ks.take(n as int).last() == path@[n - 1]@);
    let key: Vec<u8> = if path[n - 1].len() > 64 {
        hash_path(path, n - 1, path[n - 1].as_slice())
    } else {
        codec::copy(path[n - 1].as_slice())
    };
    let mut inner = pad_key(key.as_slice(), 0x36);
    codec::append(&mut inner, m);
    let h = hash_path(path, n - 1, inner.as_slice());
    let mut outer = pad_key(key.as_slice(), 0x5c);
    codec::append(&mut outer, h.as_slice());
    hash_path(path, n - 1, outer.as_slice())
}

pub open spec fn ascii(s: Seq<char>) -> Seq<u8> {
    vstd::utf8::encode_utf8(s)
}

/// What is derived from a key with one salt.
pub open spec fn derived1(key: Seq<u8>, salt: Seq<char>) -> Seq<u8> {
    kdf_hash(seq![ascii(KDF_SALT_CONST_VMESS_AEAD_KDF@), ascii(salt)], key)
}

/// What is derived from a key with a salt and two further parts.
pub open spec fn derived3(key: Seq<u8>, salt: Seq<char>, a: Seq<u8>, b: Seq<u8>) -> Seq<u8> {
    kdf_hash(seq![ascii(KDF_SALT_CONST_VMESS_AEAD_KDF@), ascii(salt), a, b], key)
}

pub fn vmess_kdf_1_one_shot(key: &[u8], salt: &str) -> (r: Vec<u8>)
    ensures
        r@ == derived1(key@, salt@),
        r@.len() == 32,
{
    let mut path: Vec<Vec<u8>> = Vec::new();
    path.push(codec::bytes_of(KDF_SALT_CONST_VMESS_AEAD_KDF));
    path.push(codec::bytes_of(salt));
    assert(key_views(path@).take(2) =~= seq![ascii(KDF_SALT_CONST_VMESS_AEAD_KDF@), ascii(salt@)]);
    hash_path(&path, 2, key)
}

pub fn vmess_kdf_3_one_shot(key: &[u8], salt: &str, a: &[u8], b: &[u8]) -> (r: Vec<u8>)
    ensures
        r@ == derived3(key@, salt@, a@, b@),
        r@.len() == 32,
{
    let mut path: Vec<Vec<u8>> = Vec::new();
    path.push(codec::bytes_of(KDF_SALT_CONST_VMESS_AEAD_KDF));
    path.push(codec::bytes_of(salt));
    path.push(codec::copy(a));
    path.push(codec::copy(b));
    assert(key_views(path@).take(4) =~= seq![
        ascii(KDF_SALT_CONST_VMESS_AEAD_KDF@),
        ascii(salt@),
        a@,
        b@,
    ]);
    hash_path(&path, 4, key)
}

// ---- laws ----
/// Without a key the hash is SHA-256; a further key of up to 64 bytes makes the HMAC of
/// the hash before: the key with zeros up to a block, under 0x36 before the
/// message and under 0x5c before the hash of that.
pub proof fn law_hash_is_nested(
    path: Seq<Seq<u8>>,
    k: Seq<u8>,
    m: Seq<u8>,
    inner: Seq<u8>,
    outer: Seq<u8>,
)
    requires
        k.len() <= 64,
        inner.len() == 64,
        outer.len() == 64,
        forall|i: int|
            0 <= i < 64 ==> #[trigger] inner[i] == (if i < k.len() {
                k[i]
            } else {
                0u8
            }) ^ 0x36,
        forall|i: int|
            0 <= i < 64 ==> #[trigger] outer[i] == (if i < k.len() {
                k[i]
            } else {
                0u8
            }) ^ 0x5c,
    ensures
        kdf_hash(Seq::empty(), m) == hash::sha256_digest(m),
        kdf_hash(path.push(k), m) == kdf_hash(path, outer + kdf_hash(path, inner + m)),
{
    assert(path.push(k).drop_last() =~= path);
    assert(path.push(k).last() == k);
    assert(padded_key(k, 0x36) =~= inner);
    assert(padded_key(k, 0x5c) =~= outer);
}

/// A key of more than 64 bytes stands for its hash under the keys before it.
pub proof fn law_long_key_is_hashed(path: Seq<Seq<u8>>, k: Seq<u8>, m: Seq<u8>)
    requires
        k.len() > 64,
        kdf_hash(path, k).len() <= 64,
    ensures
        kdf_hash(path.push(k), m) == kdf_hash(path.push(kdf_hash(path, k)), m),
{
    let h = kdf_hash(path, k);
    assert(path.push(k).drop_last() =~= path);
    assert(path.push(h).drop_last() =~= path);
}

/// What is derived begins with the key of the protocol, and goes on with the salt and
/// the further parts in their order; the key is the message.
pub proof fn law_derivation_path(key: Seq<u8>, salt: Seq<char>, a: Seq<u8>, b: Seq<u8>)
    ensures
        ({
            let first = Seq::<Seq<u8>>::empty().push(
                vstd::utf8::encode_utf8("VMess AEAD KDF"@),
            ).push(vstd::utf8::encode_utf8(salt));
            &&& derived1(key, salt) == kdf_hash(first, key)
            &&& derived3(key, salt, a, b) == kdf_hash(first.push(a).push(b), key)
        }),
{
    let first = Seq::<Seq<u8>>::empty().push(vstd::utf8::encode_utf8("VMess AEAD KDF"@)).push(
        vstd::utf8::encode_utf8(salt),
    );
    assert(first =~= seq![ascii(KDF_SALT_CONST_VMESS_AEAD_KDF@), ascii(salt)]);
    assert(first.push(a).push(b) =~= seq![
        ascii(KDF_SALT_CONST_VMESS_AEAD_KDF@),
        ascii(salt),
        a,
        b,
    ]);
}

} // verus!
