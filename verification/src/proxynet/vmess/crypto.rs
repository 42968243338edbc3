//! Ciphers, nonces and masked lengths of the body.

use sha3::digest::{ExtendableOutput, Update, XofReader};
use vstd::prelude::*;

use crate::codec;
use crate::hash;
use crate::proxynet::aead;
use crate::proxynet::aead::AeadKind;
use crate::proxynet::error;
use crate::proxynet::error::{ProxyError, ProxyErrorCode};
use crate::text;

verus! {

// ---- ciphers ----
/// The cipher of a body, with its key.
#[derive(Debug)]
pub struct BodyAead {
    pub kind: AeadKind,
    pub key: Vec<u8>,
}

/// The key of ChaCha20: a digest of the key, and a digest of that.
pub open spec fn chacha_key_of(key: Seq<u8>) -> Seq<u8> {
    hash::md5_digest(key) + hash::md5_digest(hash::md5_digest(key))
}

/// The cipher that a name stands for; the case of its letters does not count.
pub open spec fn body_kind(name: Seq<char>) -> Option<AeadKind> {
    let n = text::lowered(name);
    if n == "aes-128-gcm"@ {
        Some(AeadKind::Aes128Gcm)
    } else if n == "chacha20-poly1305"@ || n == "chacha20-ietf-poly1305"@ {
        Some(AeadKind::ChaCha20Poly1305)
    } else {
        None
    }
}

fn chacha_key(key: &[u8]) -> (r: Vec<u8>)
    ensures
        r@ == chacha_key_of(key@),
        r@.len() == 32,
{
    let mut a = hash::md5(key);
    let b = hash::md5(a.as_slice());
    codec::append(&mut a, b.as_slice());
    a
}

impl BodyAead {
    pub open spec fn wf(self) -> bool {
        self.key@.len() == self.kind.key_size()
    }

    /// The cipher with a name and a key; AES takes the key as it is, and has to
    /// have 16 bytes.
    pub fn new(name: &str, key: &[u8]) -> (r: Result<Self, ProxyError>)
        ensures
            match body_kind(name@) {
                Some(AeadKind::Aes128Gcm) => if key@.len() == 16 {
                    r is Ok && r->Ok_0.wf() && r->Ok_0.kind == AeadKind::Aes128Gcm && r->Ok_0.key@
                        == key@
                } else {
                    r is Err && r->Err_0.says(ProxyErrorCode::AuthRequired, "vmess aes key"@)
                },
                Some(k) => r is Ok && r->Ok_0.wf() && r->Ok_0.kind == k && r->Ok_0.key@
                    == chacha_key_of(key@),
                None => r is Err && r->Err_0.says(
                    ProxyErrorCode::AuthRequired,
                    "unsupported vmess cipher "@ + text::lowered(name@),
                ),
            },
    {
        let c = text::chars_of(name);
        let n = text::lower(c.as_slice());
        if text::is(n.as_slice(), "aes-128-gcm") {
            if key.len() != 16 {
                return Err(ProxyError::new(ProxyErrorCode::AuthRequired, "vmess aes key"));
            }
            Ok(BodyAead { kind: AeadKind::Aes128Gcm, key: codec::copy(key) })
        } else if text::is(n.as_slice(), "chacha20-poly1305") || text::is(
            n.as_slice(),
            "chacha20-ietf-poly1305",
        ) {
            Ok(BodyAead { kind: AeadKind::ChaCha20Poly1305, key: chacha_key(key) })
        } else {
            let mut m = text::chars_of("unsupported vmess cipher ");
            text::append(&mut m, n.as_slice());
            Err(error::error_of(ProxyErrorCode::AuthRequired, &m))
        }
    }

    pub fn tag_len(&self) -> (r: usize)
        ensures
            r == 16,
    {
        16
    }

    /// Encrypts a buffer; the tag is appended, and opening it gives the data
    /// back.
    pub fn seal(&self, nonce: &[u8], buf: &mut Vec<u8>)
        requires
            self.wf(),
            nonce@.len() == 12,
            old(buf)@.len() <= aead::MAX_INPUT,
        ensures
            final(buf)@ == aead::sealed(
                self.kind,
                self.key@,
                nonce@,
                Seq::empty(),
                old(buf)@,
            ),
            final(buf)@.len() == old(buf)@.len() + 16,
            aead::opened(self.kind, self.key@, nonce@, Seq::empty(), final(buf)@) == Some(
                old(buf)@,
            ),
    {
        let none: Vec<u8> = Vec::new();
        assert(none@ =~= Seq::empty());
        let r = aead::seal(
            self.kind,
            self.key.as_slice(),
            nonce,
            none.as_slice(),
            buf.as_slice(),
        );
        *buf = r;
    }

    /// Decrypts a buffer with its tag; it is unchanged where that fails.
    pub fn open(&self, nonce: &[u8], buf: &mut Vec<u8>) -> (r: Result<(), ProxyError>)
        requires
            self.wf(),
            nonce@.len() == 12,
            old(buf)@.len() <= aead::MAX_INPUT,
        ensures
            if old(buf)@.len() < 16 {
                r is Err && r->Err_0.says(ProxyErrorCode::InvalidResponse, "vmess short chunk"@)
                    && final(buf)@ == old(buf)@
            } else {
                match aead::opened(self.kind, self.key@, nonce@, Seq::empty(), old(buf)@) {
                    Some(d) => r is Ok && final(buf)@ == d && d.len() + 16 == old(buf)@.len(),
                    None => r is Err && r->Err_0.says(
                        ProxyErrorCode::InvalidResponse,
                        "vmess decrypt"@,
                    ) && final(buf)@ == old(buf)@,
                }
            },
    {
        if buf.len() < 16 {
            return Err(ProxyError::new(ProxyErrorCode::InvalidResponse, "vmess short chunk"));
        }
        let none: Vec<u8> = Vec::new();
        assert(none@ =~= Seq::empty());
        match aead::open(
            self.kind,
            self.key.as_slice(),
            nonce,
            none.as_slice(),
            buf.as_slice(),
        ) {
            Some(d) => {
                *buf = d;
                Ok(())
            },
            None => Err(ProxyError::new(ProxyErrorCode::InvalidResponse, "vmess decrypt")),
        }
    }
}

// ---- nonces ----
/// The nonce of a count: the count in its first two bytes.
pub open spec fn nonce_of(iv: Seq<u8>, size: nat, count: u16) -> Seq<u8> {
    codec::put_at(iv, 0, codec::be16_bytes(count as int)).take(size as int)
}

/// An initialisation vector with zeros up to a size.
pub open spec fn sized_iv(iv: Seq<u8>, size: nat) -> Seq<u8> {
    if iv.len() < size {
        iv + Seq::new((size - iv.len()) as nat, |i: int| 0u8)
    } else {
        iv
    }
}

/// One more, and zero behind the highest.
pub open spec fn next_count(c: u16) -> u16 {
    if c == 0xffff {
        0
    } else {
        (c + 1) as u16
    }
}

/// A nonce that counts.
#[derive(Debug)]
pub struct VmessNonce {
    pub nonce: Vec<u8>,
    pub size: usize,
    pub count: u16,
}

impl VmessNonce {
    pub open spec fn wf(self) -> bool {
        2 <= self.size <= self.nonce@.len()
    }

    /// The nonce that comes next.
    pub open spec fn upcoming(self) -> Seq<u8> {
        nonce_of(self.nonce@, self.size as nat, next_count(self.count))
    }

    pub fn new(iv: &[u8], size: usize) -> (r: Self)
        requires
            size >= 2,
        ensures
            r.wf(),
            r.nonce@ == sized_iv(iv@, size as nat),
            r.size == size,
            r.count == 0xffff,
    {
        let mut nonce = codec::copy(iv);
        if nonce.len() < size {
            let missing: usize = size - nonce.len();
            codec::append_zeros(&mut nonce, missing);
        }
        VmessNonce { nonce, size, count: 0xffff }
    }

    pub fn next(&mut self) -> (r: Vec<u8>)
        requires
            old(self).wf(),
        ensures
            final(self).wf(),
            r@ == old(self).upcoming(),
            r@.len() == old(self).size,
            final(self).size == old(self).size,
            final(self).count == next_count(old(self).count),
            forall|c: u16| #[trigger]
                nonce_of(final(self).nonce@, final(self).size as nat, c) == nonce_of(
                    old(self).nonce@,
                    old(self).size as nat,
                    c,
                ),
    {
        let ghost before = self.nonce@;
        self.count = if self.count == 0xffff {
            0
        } else {
            self.count + 1
        };
        self.nonce.set(0, (self.count / 256) as u8);
        self.nonce.set(1, (self.count % 256) as u8);
        let r = codec::copy(&self.nonce.as_slice()[0..self.size]);
        proof {
            assert(r@ =~= nonce_of(before, self.size as nat, self.count));
            assert forall|c: u16| #[trigger]
                nonce_of(self.nonce@, self.size as nat, c) == nonce_of(
                    before,
                    self.size as nat,
                    c,
                ) by {
                assert(codec::put_at(self.nonce@, 0, codec::be16_bytes(c as int))
                    =~= codec::put_at(before, 0, codec::be16_bytes(c as int)));
            }
        }
        r
    }
}

// ---- lengths ----
/// The first `n` bytes that SHAKE128 gives out for a seed.
pub uninterp spec fn shake128_output(seed: Seq<u8>, n: nat) -> Seq<u8>;

/// `Shake128` updated with a seed, then `n` bytes read from its output, which
/// depend on the seed alone: they are named, not described. Fewer bytes are the
/// beginning of more.
#[verifier::external_body]
fn shake128(seed: &[u8], n: usize) -> (r: Vec<u8>)
    ensures
        r@ == shake128_output(seed@, n as nat),
        r@.len() == n,
        forall|m: nat| m <= n ==> r@.take(m as int) == #[trigger] shake128_output(seed@, m),
{
    let mut h = sha3::Shake128::default();
    h.update(seed);
    let mut out = vec![0u8; n];
    h.finalize_xof().read(&mut out);
    out
}

/// The mask at a position of the output.
pub open spec fn mask_at(seed: Seq<u8>, pos: nat) -> u16 {
    let b = shake128_output(seed, pos + 2);
    codec::be16(b[pos as int], b[pos as int + 1]) as u16
}

/// Lengths under a mask that follows from a seed; the masks are drawn from the
/// output, which is read ahead.
#[derive(Debug)]
pub struct ShakeSizeParser {
    pub seed: Vec<u8>,
    pub ahead: Vec<u8>,
    pub pos: usize,
}

impl ShakeSizeParser {
    pub open spec fn wf(self) -> bool {
        &&& self.pos <= self.ahead@.len()
        &&& forall|m: nat|
            m <= self.ahead@.len() ==> self.ahead@.take(m as int) == #[trigger] shake128_output(
                self.seed@,
                m,
            )
    }

    /// Whether so many bytes of the output can still be counted and held.
    pub open spec fn has_masks(self, n: nat) -> bool {
        2 * (self.pos + n) + 256 <= usize::MAX
    }

    /// Whether the masks of one chunk can be drawn.
    pub fn can_draw(&self) -> (r: bool)
        ensures
            r == self.has_masks(4),
    {
        self.pos <= (usize::MAX - 264) / 2
    }

    pub fn new(nonce: &[u8]) -> (r: Self)
        ensures
            r.wf(),
            r.seed@ == nonce@,
            r.pos == 0,
    {
        let ahead = shake128(nonce, 256);
        ShakeSizeParser { seed: codec::copy(nonce), ahead, pos: 0 }
    }

    pub fn size_bytes(&self) -> (r: usize)
        ensures
            r == 2,
    {
        2
    }

    fn next_u16(&mut self) -> (r: u16)
        requires
            old(self).wf(),
            old(self).has_masks(2),
        ensures
            final(self).wf(),
            final(self).seed == old(self).seed,
            final(self).pos == old(self).pos + 2,
            r == mask_at(old(self).seed@, old(self).pos as nat),
    {
        if self.pos + 2 > self.ahead.len() {
            let n: usize = 2 * self.pos + 256;
            self.ahead = shake128(self.seed.as_slice(), n);
        }
        proof {
            let m = (self.pos + 2) as nat;
            assert(self.ahead@.take(m as int) == shake128_output(self.seed@, m));
            assert(self.ahead@.take(m as int)[self.pos as int] == self.ahead@[self.pos as int]);
            assert(self.ahead@.take(m as int)[self.pos + 1] == self.ahead@[self.pos + 1]);
        }
        let r: u16 = codec::read_be16(self.ahead[self.pos], self.ahead[self.pos + 1]);
        self.pos = self.pos + 2;
        r
    }

    /// The length that two bytes hide.
    pub fn decode(&mut self, b: &[u8]) -> (r: u16)
        requires
            old(self).wf(),
            old(self).has_masks(2),
            b@.len() >= 2,
        ensures
            final(self).wf(),
            final(self).seed == old(self).seed,
            final(self).pos == old(self).pos + 2,
            r == mask_at(old(self).seed@, old(self).pos as nat) ^ (codec::be16(
                b@[0],
                b@[1],
            ) as u16),
    {
        let m: u16 = self.next_u16();
        m ^ codec::read_be16(b[0], b[1])
    }

    /// The two bytes that hide a length.
    pub fn encode(&mut self, size: u16) -> (r: Vec<u8>)
        requires
            old(self).wf(),
            old(self).has_masks(2),
        ensures
            final(self).wf(),
            final(self).seed == old(self).seed,
            final(self).pos == old(self).pos + 2,
            r@ == codec::be16_bytes(
                (mask_at(old(self).seed@, old(self).pos as nat) ^ size) as int,
            ),
    {
        let m: u16 = self.next_u16();
        let mut r: Vec<u8> = Vec::new();
        codec::push_be16(&mut r, m ^ size);
        assert(r@ =~= codec::be16_bytes((m ^ size) as int));
        r
    }

    /// How long the next padding is.
    pub fn next_padding_len(&mut self) -> (r: u16)
        requires
            old(self).wf(),
            old(self).has_masks(2),
        ensures
            final(self).wf(),
            final(self).seed == old(self).seed,
            final(self).pos == old(self).pos + 2,
            r == mask_at(old(self).seed@, old(self).pos as nat) % 64,
    {
        self.next_u16() % 64
    }
}

// ---- laws ----
/// A hidden length is read back with the same mask.
pub proof fn law_length_reads_back(mask: u16, size: u16)
    ensures
        ({
            let b = codec::be16_bytes((mask ^ size) as int);
            mask ^ (codec::be16(b[0], b[1]) as u16) == size
        }),
{
    codec::law_be16_reads_back((mask ^ size) as int);
    assert(mask ^ (mask ^ size) == size) by (bit_vector);
}

/// Nonces of one stream differ until their count comes round.
pub proof fn law_nonces_differ(iv: Seq<u8>, size: nat, a: u16, b: u16)
    requires
        2 <= size <= iv.len(),
        nonce_of(iv, size, a) == nonce_of(iv, size, b),
    ensures
        a == b,
{
    codec::law_be16_reads_back(a as int);
    codec::law_be16_reads_back(b as int);
    let x = nonce_of(iv, size, a);
    let y = nonce_of(iv, size, b);
    assert(x[0] == codec::be16_bytes(a as int)[0] && x[1] == codec::be16_bytes(a as int)[1]);
    assert(y[0] == codec::be16_bytes(b as int)[0] && y[1] == codec::be16_bytes(b as int)[1]);
}

/// A nonce of 12 bytes is the count, the high byte first, and the bytes of the vector from
/// the third on.
pub proof fn law_nonce_layout(iv: Seq<u8>, count: u16)
    requires
        iv.len() >= 12,
    ensures
        ({
            let n = nonce_of(iv, 12, count);
            &&& n.len() == 12
            &&& n[0] * 256 + n[1] == count
            &&& n.subrange(2, 12) == iv.subrange(2, 12)
        }),
{
    codec::law_high_byte_first(count as int);
    let n = nonce_of(iv, 12, count);
    assert(n.subrange(2, 12) =~= iv.subrange(2, 12));
}

/// The first nonce of a stream has the count zero, and each further one counts on.
pub proof fn law_count_begins_at_zero(c: u16)
    ensures
        next_count(0xffff) == 0,
        c < 0xffff ==> next_count(c) == c + 1,
{
}

/// ChaCha20 takes 32 bytes: the MD5 of the key and the MD5 of that. AES takes the key as
/// it is.
pub proof fn law_cipher_keys(key: Seq<u8>)
    ensures
        chacha_key_of(key) == hash::md5_digest(key) + hash::md5_digest(hash::md5_digest(key)),
{
}

/// A cipher is named without regard to letter case.
pub proof fn law_cipher_names(name: Seq<char>)
    ensures
        text::lowered(name) == "aes-128-gcm"@ ==> body_kind(name) == Some(AeadKind::Aes128Gcm),
        text::lowered(name) == "chacha20-poly1305"@ || text::lowered(name)
            == "chacha20-ietf-poly1305"@ ==> body_kind(name) == Some(AeadKind::ChaCha20Poly1305),
{
    reveal_strlit("aes-128-gcm");
    reveal_strlit("chacha20-poly1305");
    reveal_strlit("chacha20-ietf-poly1305");
    assert("aes-128-gcm"@.len() == 11 && "chacha20-poly1305"@.len() == 17);
    assert("chacha20-ietf-poly1305"@.len() == 22);
}

/// The mask at a position is the two bytes of SHAKE128's output there, the high one
/// first.
pub proof fn law_mask_layout(seed: Seq<u8>, pos: nat)
    requires
        shake128_output(seed, pos + 2).len() == pos + 2,
    ensures
        ({
            let b = shake128_output(seed, pos + 2);
            mask_at(seed, pos) == b[pos as int] * 256 + b[pos as int + 1]
        }),
{
}

/// A vector that is too short gets zeros behind it; a longer one stays as it is.
pub proof fn law_vector_is_filled(iv: Seq<u8>, n: nat, i: int)
    requires
        iv.len() <= n,
        0 <= i < n,
    ensures
        sized_iv(iv, n).len() == n,
        i < iv.len() ==> sized_iv(iv, n)[i] == iv[i],
        i >= iv.len() ==> sized_iv(iv, n)[i] == 0,
        sized_iv(iv, iv.len()) == iv,
{
}

} // verus!
