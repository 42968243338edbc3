//! Authenticated encryption, key derivation and the counters that nonces are.

use aes_gcm::aead::{AeadInPlace, KeyInit};
use vstd::prelude::*;

use crate::codec;

verus! {

/// The length of an authentication tag.
pub const TAG_LEN: usize = 16;

pub const NONCE_LEN: usize = 12;

/// The longest input that is encrypted at a time.
pub const MAX_INPUT: usize = 0xffff_ffff;

#[derive(Clone, Copy, Debug, PartialEq, Eq, Structural)]
pub enum AeadKind {
    Aes128Gcm,
    Aes256Gcm,
    ChaCha20Poly1305,
}

// ---- AES-128-GCM ----
/// What AES-128-GCM makes of a key, a nonce, associated data and a plain text:
/// the cipher text with its tag behind it.
pub uninterp spec fn aes128_gcm_sealed(
    key: Seq<u8>,
    nonce: Seq<u8>,
    aad: Seq<u8>,
    plain: Seq<u8>,
) -> Seq<u8>;

/// The plain text of a cipher text with its tag, where AES-128-GCM accepts the
/// tag.
pub uninterp spec fn aes128_gcm_opened(
    key: Seq<u8>,
    nonce: Seq<u8>,
    aad: Seq<u8>,
    sealed: Seq<u8>,
) -> Option<Seq<u8>>;

/// `Aes128Gcm::encrypt_in_place_detached`, the tag appended. The result depends
/// on the arguments alone and is named; it is 16 bytes longer than the plain
/// text, and decrypting it with the same arguments gives the plain text back.
#[verifier::external_body]
fn aes128_gcm_seal(key: &[u8], nonce: &[u8], aad: &[u8], plain: &[u8]) -> (r: Vec<u8>)
    requires
        key@.len() == 16,
        nonce@.len() == 12,
        aad@.len() <= MAX_INPUT,
        plain@.len() <= MAX_INPUT,
    ensures
        r@ == aes128_gcm_sealed(key@, nonce@, aad@, plain@),
        r@.len() == plain@.len() + 16,
        aes128_gcm_opened(key@, nonce@, aad@, r@) == Some(plain@),
{
    let mut b = plain.to_vec();
    let c = aes_gcm::Aes128Gcm::new_from_slice(key).unwrap();
    let tag = c.encrypt_in_place_detached(aes_gcm::Nonce::from_slice(nonce), aad, &mut b).unwrap();
    b.extend_from_slice(&tag);
    b
}

/// `Aes128Gcm::decrypt_in_place_detached` on a cipher text and the tag behind
/// it. The result depends on the arguments alone and is named; a plain text is
/// 16 bytes shorter.
#[verifier::external_body]
fn aes128_gcm_open(key: &[u8], nonce: &[u8], aad: &[u8], sealed: &[u8]) -> (r: Option<Vec<u8>>)
    requires
        key@.len() == 16,
        nonce@.len() == 12,
        aad@.len() <= MAX_INPUT,
        16 <= sealed@.len() <= MAX_INPUT,
    ensures
        codec::opt_bytes(r) == aes128_gcm_opened(key@, nonce@, aad@, sealed@),
        r is Some ==> r->0@.len() + 16 == sealed@.len(),
{
    let (c, tag) = sealed.split_at(sealed.len() - 16);
    let mut b = c.to_vec();
    let k = aes_gcm::Aes128Gcm::new_from_slice(key).unwrap();
    let n = aes_gcm::Nonce::from_slice(nonce);
    k.decrypt_in_place_detached(n, aad, &mut b, tag.into()).ok().map(|_| b)
}

// ---- AES-256-GCM ----
/// What AES-256-GCM makes of a key, a nonce, associated data and a plain text:
/// the cipher text with its tag behind it.
pub uninterp spec fn aes256_gcm_sealed(
    key: Seq<u8>,
    nonce: Seq<u8>,
    aad: Seq<u8>,
    plain: Seq<u8>,
) -> Seq<u8>;

/// The plain text of a cipher text with its tag, where AES-256-GCM accepts the
/// tag.
pub uninterp spec fn aes256_gcm_opened(
    key: Seq<u8>,
    nonce: Seq<u8>,
    aad: Seq<u8>,
    sealed: Seq<u8>,
) -> Option<Seq<u8>>;

/// `Aes256Gcm::encrypt_in_place_detached`, the tag appended. The result depends
/// on the arguments alone and is named; it is 16 bytes longer than the plain
/// text, and decrypting it with the same arguments gives the plain text back.
#[verifier::external_body]
fn aes256_gcm_seal(key: &[u8], nonce: &[u8], aad: &[u8], plain: &[u8]) -> (r: Vec<u8>)
    requires
        key@.len() == 32,
        nonce@.len() == 12,
        aad@.len() <= MAX_INPUT,
        plain@.len() <= MAX_INPUT,
    ensures
        r@ == aes256_gcm_sealed(key@, nonce@, aad@, plain@),
        r@.len() == plain@.len() + 16,
        aes256_gcm_opened(key@, nonce@, aad@, r@) == Some(plain@),
{
    let mut b = plain.to_vec();
    let c = aes_gcm::Aes256Gcm::new_from_slice(key).unwrap();
    let tag = c.encrypt_in_place_detached(aes_gcm::Nonce::from_slice(nonce), aad, &mut b).unwrap();
    b.extend_from_slice(&tag);
    b
}

/// `Aes256Gcm::decrypt_in_place_detached` on a cipher text and the tag behind
/// it. The result depends on the arguments alone and is named; a plain text is
/// 16 bytes shorter.
#[verifier::external_body]
fn aes256_gcm_open(key: &[u8], nonce: &[u8], aad: &[u8], sealed: &[u8]) -> (r: Option<Vec<u8>>)
    requires
        key@.len() == 32,
        nonce@.len() == 12,
        aad@.len() <= MAX_INPUT,
        16 <= sealed@.len() <= MAX_INPUT,
    ensures
        codec::opt_bytes(r) == aes256_gcm_opened(key@, nonce@, aad@, sealed@),
        r is Some ==> r->0@.len() + 16 == sealed@.len(),
{
    let (c, tag) = sealed.split_at(sealed.len() - 16);
    let mut b = c.to_vec();
    let k = aes_gcm::Aes256Gcm::new_from_slice(key).unwrap();
    let n = aes_gcm::Nonce::from_slice(nonce);
    k.decrypt_in_place_detached(n, aad, &mut b, tag.into()).ok().map(|_| b)
}

// ---- ChaCha20-Poly1305 ----
/// What ChaCha20-Poly1305 makes of a key, a nonce, associated data and a plain
/// text: the cipher text with its tag behind it.
pub uninterp spec fn chacha_sealed(
    key: Seq<u8>,
    nonce: Seq<u8>,
    aad: Seq<u8>,
    plain: Seq<u8>,
) -> Seq<u8>;

/// The plain text of a cipher text with its tag, where ChaCha20-Poly1305 accepts
/// the tag.
pub uninterp spec fn chacha_opened(
    key: Seq<u8>,
    nonce: Seq<u8>,
    aad: Seq<u8>,
    sealed: Seq<u8>,
) -> Option<Seq<u8>>;

/// `ChaCha20Poly1305::encrypt_in_place_detached`, the tag appended. The result
/// depends on the arguments alone and is named; it is 16 bytes longer than the
/// plain text, and decrypting it with the same arguments gives the plain text
/// back.
#[verifier::external_body]
fn chacha_seal(key: &[u8], nonce: &[u8], aad: &[u8], plain: &[u8]) -> (r: Vec<u8>)
    requires
        key@.len() == 32,
        nonce@.len() == 12,
        aad@.len() <= MAX_INPUT,
        plain@.len() <= MAX_INPUT,
    ensures
        r@ == chacha_sealed(key@, nonce@, aad@, plain@),
        r@.len() == plain@.len() + 16,
        chacha_opened(key@, nonce@, aad@, r@) == Some(plain@),
{
    let mut b = plain.to_vec();
    let c = chacha20poly1305::ChaCha20Poly1305::new_from_slice(key).unwrap();
    let n = chacha20poly1305::Nonce::from_slice(nonce);
    let tag = c.encrypt_in_place_detached(n, aad, &mut b).unwrap();
    b.extend_from_slice(&tag);
    b
}

/// `ChaCha20Poly1305::decrypt_in_place_detached` on a cipher text and the tag
/// behind it. The result depends on the arguments alone and is named; a plain
/// text is 16 bytes shorter.
#[verifier::external_body]
fn chacha_open(key: &[u8], nonce: &[u8], aad: &[u8], sealed: &[u8]) -> (r: Option<Vec<u8>>)
    requires
        key@.len() == 32,
        nonce@.len() == 12,
        aad@.len() <= MAX_INPUT,
        16 <= sealed@.len() <= MAX_INPUT,
    ensures
        codec::opt_bytes(r) == chacha_opened(key@, nonce@, aad@, sealed@),
        r is Some ==> r->0@.len() + 16 == sealed@.len(),
{
    let (c, tag) = sealed.split_at(sealed.len() - 16);
    let mut b = c.to_vec();
    let k = chacha20poly1305::ChaCha20Poly1305::new_from_slice(key).unwrap();
    let n = chacha20poly1305::Nonce::from_slice(nonce);
    k.decrypt_in_place_detached(n, aad, &mut b, tag.into()).ok().map(|_| b)
}

// ---- any of them ----
impl AeadKind {
    pub open spec fn key_size(self) -> nat {
        match self {
            AeadKind::Aes128Gcm => 16,
            AeadKind::Aes256Gcm => 32,
            AeadKind::ChaCha20Poly1305 => 32,
        }
    }
}

/// What a cipher makes of a plain text.
pub open spec fn sealed(
    kind: AeadKind,
    key: Seq<u8>,
    nonce: Seq<u8>,
    aad: Seq<u8>,
    plain: Seq<u8>,
) -> Seq<u8> {
    match kind {
        AeadKind::Aes128Gcm => aes128_gcm_sealed(key, nonce, aad, plain),
        AeadKind::Aes256Gcm => aes256_gcm_sealed(key, nonce, aad, plain),
        AeadKind::ChaCha20Poly1305 => chacha_sealed(key, nonce, aad, plain),
    }
}

/// The plain text of what a cipher made, where the tag is accepted.
pub open spec fn opened(
    kind: AeadKind,
    key: Seq<u8>,
    nonce: Seq<u8>,
    aad: Seq<u8>,
    c: Seq<u8>,
) -> Option<Seq<u8>> {
    match kind {
        AeadKind::Aes128Gcm => aes128_gcm_opened(key, nonce, aad, c),
        AeadKind::Aes256Gcm => aes256_gcm_opened(key, nonce, aad, c),
        AeadKind::ChaCha20Poly1305 => chacha_opened(key, nonce, aad, c),
    }
}

/// Encrypts a plain text; decrypting gives it back.
pub fn seal(kind: AeadKind, key: &[u8], nonce: &[u8], aad: &[u8], plain: &[u8]) -> (r: Vec<u8>)
    requires
        key@.len() == kind.key_size(),
        nonce@.len() == NONCE_LEN,
        aad@.len() <= MAX_INPUT,
        plain@.len() <= MAX_INPUT,
    ensures
        r@ == sealed(kind, key@, nonce@, aad@, plain@),
        r@.len() == plain@.len() + TAG_LEN,
        opened(kind, key@, nonce@, aad@, r@) == Some(plain@),
{
    match kind {
        AeadKind::Aes128Gcm => aes128_gcm_seal(key, nonce, aad, plain),
        AeadKind::Aes256Gcm => aes256_gcm_seal(key, nonce, aad, plain),
        AeadKind::ChaCha20Poly1305 => chacha_seal(key, nonce, aad, plain),
    }
}

/// Decrypts a cipher text with its tag.
pub fn open(kind: AeadKind, key: &[u8], nonce: &[u8], aad: &[u8], c: &[u8]) -> (r: Option<Vec<u8>>)
    requires
        key@.len() == kind.key_size(),
        nonce@.len() == NONCE_LEN,
        aad@.len() <= MAX_INPUT,
        TAG_LEN <= c@.len() <= MAX_INPUT,
    ensures
        codec::opt_bytes(r) == opened(kind, key@, nonce@, aad@, c@),
        r is Some ==> r->0@.len() + TAG_LEN == c@.len(),
{
    match kind {
        AeadKind::Aes128Gcm => aes128_gcm_open(key, nonce, aad, c),
        AeadKind::Aes256Gcm => aes256_gcm_open(key, nonce, aad, c),
        AeadKind::ChaCha20Poly1305 => chacha_open(key, nonce, aad, c),
    }
}

// ---- keys ----
/// What HKDF with SHA-1 derives from a secret, a salt and a label.
pub uninterp spec fn hkdf_sha1_derived(
    secret: Seq<u8>,
    salt: Seq<u8>,
    label: Seq<u8>,
    n: nat,
) -> Seq<u8>;

/// `Hkdf::<Sha1>::new` with a salt, then `expand` with a label to `n` bytes,
/// which succeeds up to 255 digests. The result depends on the arguments alone;
/// it is named, not described.
#[verifier::external_body]
pub(crate) fn hkdf_sha1(secret: &[u8], salt: &[u8], label: &[u8], n: usize) -> (r: Vec<u8>)
    requires
        n <= 5100,
    ensures
        r@ == hkdf_sha1_derived(secret@, salt@, label@, n as nat),
        r@.len() == n,
{
    let mut out = vec![0u8; n];
    hkdf::Hkdf::<sha1::Sha1>::new(Some(salt), secret).expand(label, &mut out).unwrap();
    out
}

// ---- counters ----
/// A number as bytes, the least significant first, one higher; the highest
/// number becomes zero.
pub open spec fn incremented(b: Seq<u8>) -> Seq<u8>
    decreases b.len(),
{
    if b.len() == 0 {
        b
    } else if b[0] == 255 {
        seq![0u8] + incremented(b.skip(1))
    } else {
        b.update(0, (b[0] + 1) as u8)
    }
}

/// The number that bytes write, the least significant first.
pub open spec fn le_value(b: Seq<u8>) -> int
    decreases b.len(),
{
    if b.len() == 0 {
        0
    } else {
        b[0] + 256 * le_value(b.skip(1))
    }
}

/// 256 to the power of `n`.
pub open spec fn byte_range(n: nat) -> int
    decreases n,
{
    if n == 0 {
        1
    } else {
        256 * byte_range((n - 1) as nat)
    }
}

/// A nonce that counts.
#[derive(Clone, Copy, Debug)]
pub struct NonceSeq {
    pub buf: [u8; 12],
}

impl NonceSeq {
    pub fn new() -> (r: Self)
        ensures
            r.buf@ == Seq::new(12, |i: int| 0u8),
    {
        let r = NonceSeq { buf: [0u8; 12] };
        assert(r.buf@ =~= Seq::new(12, |i: int| 0u8));
        r
    }

    /// The nonce, which then is one higher.
    pub fn next(&mut self) -> (r: [u8; 12])
        ensures
            r == old(self).buf,
            final(self).buf@ == incremented(old(self).buf@),
    {
        let r: [u8; 12] = self.buf;
        let ghost start = self.buf@;
        let mut i: usize = 0;
        assert(start.skip(0) =~= start);
        assert(start.take(0) =~= Seq::empty());
        while i < 12
            invariant
                i <= 12,
                r == old(self).buf,
                start == old(self).buf@,
                start.len() == 12,
                self.buf@ == zeros(i as nat) + start.skip(i as int),
                incremented(start) == zeros(i as nat) + incremented(start.skip(i as int)),
            decreases 12 - i,
        {
            let b: u8 = self.buf[i];
            let ghost before = self.buf@;
            assert(b == start[i as int]);
            assert(start.skip(i as int).skip(1) =~= start.skip(i + 1));
            if b != 255 {
                self.buf[i] = b + 1;
                proof {
                    assert(self.buf@ =~= zeros(i as nat) + start.skip(i as int).update(
                        0,
                        (b + 1) as u8,
                    ));
                }
                return r;
            }
            self.buf[i] = 0;
            proof {
                assert(self.buf@ =~= zeros((i + 1) as nat) + start.skip(i + 1));
                assert(zeros(i as nat) + (seq![0u8] + incremented(start.skip(i + 1))) =~= zeros(
                    (i + 1) as nat,
                ) + incremented(start.skip(i + 1)));
            }
            i += 1;
        }
        assert(incremented(start.skip(12)) =~= start.skip(12));
        r
    }
}

pub open spec fn zeros(n: nat) -> Seq<u8> {
    Seq::new(n, |i: int| 0u8)
}

// ---- laws ----
/// A counter of `n` bytes counts: its number is one higher, and starts again
/// behind the highest.
pub proof fn law_counter_counts(b: Seq<u8>)
    ensures
        incremented(b).len() == b.len(),
        0 <= le_value(b) < byte_range(b.len()),
        le_value(incremented(b)) == (if le_value(b) + 1 == byte_range(b.len()) {
            0
        } else {
            le_value(b) + 1
        }),
    decreases b.len(),
{
    if b.len() > 0 {
        let t = b.skip(1);
        law_counter_counts(t);
        let i = incremented(b);
        if b[0] == 255 {
            assert(i.skip(1) =~= incremented(t));
        } else {
            assert(i.skip(1) =~= t);
        }
    }
}

/// Two counters with the same number are the same.
pub proof fn law_numbers_differ(a: Seq<u8>, b: Seq<u8>)
    requires
        a.len() == b.len(),
        le_value(a) == le_value(b),
    ensures
        a == b,
    decreases a.len(),
{
    if a.len() > 0 {
        law_counter_counts(a.skip(1));
        law_counter_counts(b.skip(1));
        law_numbers_differ(a.skip(1), b.skip(1));
        assert(a =~= seq![a[0]] + a.skip(1));
        assert(b =~= seq![b[0]] + b.skip(1));
    }
    assert(a =~= b);
}

/// The lengths of keys, and which cipher seals and opens.
pub proof fn law_ciphers(key: Seq<u8>, nonce: Seq<u8>, aad: Seq<u8>, p: Seq<u8>)
    ensures
        AeadKind::Aes128Gcm.key_size() == 16,
        AeadKind::Aes256Gcm.key_size() == 32,
        AeadKind::ChaCha20Poly1305.key_size() == 32,
        sealed(AeadKind::Aes128Gcm, key, nonce, aad, p) == aes128_gcm_sealed(key, nonce, aad, p),
        sealed(AeadKind::Aes256Gcm, key, nonce, aad, p) == aes256_gcm_sealed(key, nonce, aad, p),
        sealed(AeadKind::ChaCha20Poly1305, key, nonce, aad, p) == chacha_sealed(key, nonce, aad, p),
        opened(AeadKind::Aes128Gcm, key, nonce, aad, p) == aes128_gcm_opened(key, nonce, aad, p),
        opened(AeadKind::Aes256Gcm, key, nonce, aad, p) == aes256_gcm_opened(key, nonce, aad, p),
        opened(AeadKind::ChaCha20Poly1305, key, nonce, aad, p) == chacha_opened(key, nonce, aad, p),
{
}

} // verus!
