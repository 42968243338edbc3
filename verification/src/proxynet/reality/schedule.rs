//! The key schedule of TLS 1.3.

use vstd::prelude::*;

use crate::codec;
use crate::hash;

verus! {

#[derive(Clone, Copy, Debug, PartialEq, Eq, Structural)]
pub enum HashKind {
    Sha256,
    Sha384,
}

impl HashKind {
    pub open spec fn size(self) -> nat {
        match self {
            HashKind::Sha256 => 32,
            HashKind::Sha384 => 48,
        }
    }

    pub open spec fn digest_of(self, data: Seq<u8>) -> Seq<u8> {
        match self {
            HashKind::Sha256 => hash::sha256_digest(data),
            HashKind::Sha384 => hash::sha384_digest(data),
        }
    }

    pub open spec fn hmac_of(self, key: Seq<u8>, data: Seq<u8>) -> Seq<u8> {
        match self {
            HashKind::Sha256 => hash::hmac_sha256_of(key, data),
            HashKind::Sha384 => hash::hmac_sha384_of(key, data),
        }
    }

    pub open spec fn expanded(self, prk: Seq<u8>, info: Seq<u8>, n: nat) -> Seq<u8> {
        match self {
            HashKind::Sha256 => hash::hkdf_sha256_expanded(prk, info, n),
            HashKind::Sha384 => hash::hkdf_sha384_expanded(prk, info, n),
        }
    }

    pub fn len(self) -> (r: usize)
        ensures
            r == self.size(),
    {
        match self {
            HashKind::Sha256 => 32,
            HashKind::Sha384 => 48,
        }
    }

    pub fn digest(self, data: &[u8]) -> (r: Vec<u8>)
        ensures
            r@ == self.digest_of(data@),
            r@.len() == self.size(),
    {
        match self {
            HashKind::Sha256 => hash::sha256(data),
            HashKind::Sha384 => hash::sha384(data),
        }
    }

    /// The digest of nothing.
    pub fn empty(self) -> (r: Vec<u8>)
        ensures
            r@ == self.digest_of(Seq::empty()),
            r@.len() == self.size(),
    {
        let none: Vec<u8> = Vec::new();
        assert(none@ =~= Seq::empty());
        self.digest(none.as_slice())
    }

    fn hmac(self, key: &[u8], data: &[u8]) -> (r: Vec<u8>)
        ensures
            r@ == self.hmac_of(key@, data@),
            r@.len() == self.size(),
    {
        match self {
            HashKind::Sha256 => hash::hmac_sha256(key, data),
            HashKind::Sha384 => hash::hmac_sha384(key, data),
        }
    }

    fn expand(self, prk: &[u8], info: &[u8], n: usize) -> (r: Vec<u8>)
        requires
            prk@.len() >= self.size(),
            n <= 255 * self.size(),
        ensures
            r@ == self.expanded(prk@, info@, n as nat),
            r@.len() == n,
    {
        match self {
            HashKind::Sha256 => hash::hkdf_sha256_expand(prk, info, n),
            HashKind::Sha384 => hash::hkdf_sha384_expand(prk, info, n),
        }
    }
}

pub open spec fn zeros(n: nat) -> Seq<u8> {
    Seq::new(n, |i: int| 0u8)
}

/// The secret that is extracted with a salt; no salt is one of zeros.
pub open spec fn extracted(hash: HashKind, salt: Seq<u8>, ikm: Seq<u8>) -> Seq<u8> {
    hash.hmac_of(
        if salt.len() == 0 {
            zeros(hash.size())
        } else {
            salt
        },
        ikm,
    )
}

pub fn extract(hash: HashKind, salt: &[u8], ikm: &[u8]) -> (r: Vec<u8>)
    ensures
        r@ == extracted(hash, salt@, ikm@),
        r@.len() == hash.size(),
{
    if salt.len() == 0 {
        let mut z: Vec<u8> = Vec::new();
        codec::append_zeros(&mut z, hash.len());
        assert(z@ =~= zeros(hash.size()));
        hash.hmac(z.as_slice(), ikm)
    } else {
        hash.hmac(salt, ikm)
    }
}

/// The label prefix of TLS 1.3, in ASCII.
pub open spec fn label_prefix() -> Seq<u8> {
    seq![0x74u8, 0x6cu8, 0x73u8, 0x31u8, 0x33u8, 0x20u8]
}

/// What a secret is expanded with: the length, a label and a context.
pub open spec fn label_info(n: nat, label: Seq<u8>, context: Seq<u8>) -> Seq<u8> {
    codec::be16_bytes(n as int % 65536) + seq![((label.len() + 6) % 256) as u8] + label_prefix()
        + label + seq![(context.len() % 256) as u8] + context
}

/// What a secret is expanded to under a label.
pub open spec fn labelled(
    hash: HashKind,
    secret: Seq<u8>,
    label: Seq<u8>,
    context: Seq<u8>,
    n: nat,
) -> Seq<u8> {
    hash.expanded(secret, label_info(n, label, context), n)
}

fn build_label_info(n: usize, label: &[u8], context: &[u8]) -> (r: Vec<u8>)
    ensures
        r@ == label_info(n as nat, label@, context@),
{
    let mut info: Vec<u8> = Vec::new();
    codec::push_be16(&mut info, (n % 65536) as u16);
    assert(info@ =~= codec::be16_bytes(n as int % 65536));
    let ghost a = info@;
    info.push(((label.len() % 256 + 6) % 256) as u8);
    assert(info@ =~= a + seq![((label@.len() + 6) % 256) as u8]);
    let p: [u8; 6] = [0x74, 0x6c, 0x73, 0x31, 0x33, 0x20];
    assert(p@ =~= label_prefix());
    codec::append(&mut info, p.as_slice());
    codec::append(&mut info, label);
    let ghost b = info@;
    info.push((context.len() % 256) as u8);
    assert(info@ =~= b + seq![(context@.len() % 256) as u8]);
    codec::append(&mut info, context);
    info
}

/// Expands a secret under a label into a buffer.
pub fn expand_label(
    hash: HashKind,
    secret: &[u8],
    label: &[u8],
    context: &[u8],
    out: &mut [u8],
)
    requires
        secret@.len() >= hash.size(),
        old(out)@.len() <= 255 * hash.size(),
    ensures
        final(out)@ == labelled(hash, secret@, label@, context@, old(out)@.len()),
        final(out)@.len() == old(out)@.len(),
{
    let n: usize = out.len();
    let info = build_label_info(n, label, context);
    let r = hash.expand(secret, info.as_slice(), n);
    codec::put(out, 0, r.as_slice());
    assert(out@ =~= r@);
}

/// The secret under a label for a transcript.
pub fn derive_secret(
    hash: HashKind,
    secret: &[u8],
    label: &[u8],
    transcript: &[u8],
    out: &mut [u8],
)
    requires
        secret@.len() >= hash.size(),
        old(out)@.len() <= 255 * hash.size(),
    ensures
        final(out)@ == labelled(hash, secret@, label@, transcript@, old(out)@.len()),
        final(out)@.len() == old(out)@.len(),
{
    expand_label(hash, secret, label, transcript, out);
}

/// The secret under a label for a transcript, as long as a digest.
pub fn secret_for(hash: HashKind, secret: &[u8], label: &[u8], transcript: &[u8]) -> (r: Vec<u8>)
    requires
        secret@.len() >= hash.size(),
    ensures
        r@ == labelled(hash, secret@, label@, transcript@, hash.size()),
        r@.len() == hash.size(),
{
    let n: usize = hash.len();
    let info = build_label_info(n, label, transcript);
    hash.expand(secret, info.as_slice(), n)
}

pub open spec fn key_label() -> Seq<u8> {
    seq![0x6bu8, 0x65u8, 0x79u8]
}

pub open spec fn iv_label() -> Seq<u8> {
    seq![0x69u8, 0x76u8]
}

/// The key of a traffic secret.
pub open spec fn traffic_key(hash: HashKind, traffic: Seq<u8>, n: nat) -> Seq<u8> {
    labelled(hash, traffic, key_label(), Seq::empty(), n)
}

/// The vector of a traffic secret.
pub open spec fn traffic_iv(hash: HashKind, traffic: Seq<u8>, n: nat) -> Seq<u8> {
    labelled(hash, traffic, iv_label(), Seq::empty(), n)
}

pub fn traffic_keys(hash: HashKind, traffic: &[u8], key: &mut [u8], iv: &mut [u8])
    requires
        traffic@.len() >= hash.size(),
        old(key)@.len() <= 255 * hash.size(),
        old(iv)@.len() <= 255 * hash.size(),
    ensures
        final(key)@ == traffic_key(hash, traffic@, old(key)@.len()),
        final(iv)@ == traffic_iv(hash, traffic@, old(iv)@.len()),
        final(key)@.len() == old(key)@.len(),
        final(iv)@.len() == old(iv)@.len(),
{
    let none: Vec<u8> = Vec::new();
    assert(none@ =~= Seq::empty());
    let k: [u8; 3] = [0x6b, 0x65, 0x79];
    let v: [u8; 2] = [0x69, 0x76];
    assert(k@ =~= key_label());
    assert(v@ =~= iv_label());
    expand_label(hash, traffic, k.as_slice(), none.as_slice(), key);
    expand_label(hash, traffic, v.as_slice(), none.as_slice(), iv);
}

pub open spec fn finished_label() -> Seq<u8> {
    seq![0x66u8, 0x69u8, 0x6eu8, 0x69u8, 0x73u8, 0x68u8, 0x65u8, 0x64u8]
}

/// What proves that a side holds a secret at a transcript.
pub open spec fn finished_of(hash: HashKind, base_key: Seq<u8>, transcript: Seq<u8>) -> Seq<u8> {
    hash.hmac_of(
        labelled(hash, base_key, finished_label(), Seq::empty(), hash.size()),
        transcript,
    )
}

/// The proof of a secret at a transcript.
pub fn finished_data(hash: HashKind, base_key: &[u8], transcript: &[u8]) -> (r: Vec<u8>)
    requires
        base_key@.len() >= hash.size(),
    ensures
        r@ == finished_of(hash, base_key@, transcript@),
        r@.len() == hash.size(),
{
    let none: Vec<u8> = Vec::new();
    assert(none@ =~= Seq::empty());
    let l: [u8; 8] = [0x66, 0x69, 0x6e, 0x69, 0x73, 0x68, 0x65, 0x64];
    assert(l@ =~= finished_label());
    let k = secret_for(hash, base_key, l.as_slice(), none.as_slice());
    hash.hmac(k.as_slice(), transcript)
}

/// Writes the proof of a secret at a transcript into a buffer of its length.
pub fn finished_verify(hash: HashKind, base_key: &[u8], transcript: &[u8], out: &mut [u8])
    requires
        base_key@.len() >= hash.size(),
        old(out)@.len() == hash.size(),
    ensures
        final(out)@ == finished_of(hash, base_key@, transcript@),
        final(out)@.len() == old(out)@.len(),
{
    let d = finished_data(hash, base_key, transcript);
    codec::put(out, 0, d.as_slice());
    assert(out@ =~= d@);
}

/// The nonce of a record: the vector, its bytes from the fifth on under the
/// number of the record.
pub open spec fn record_nonce(iv: Seq<u8>, seq: u64) -> Seq<u8> {
    Seq::new(
        iv.len(),
        |i: int|
            if 4 <= i < 12 {
                iv[i] ^ codec::be64_bytes(seq as int)[i - 4]
            } else {
                iv[i]
            },
    )
}

pub fn build_nonce(nonce: &mut [u8], iv: &[u8], seq: u64)
    requires
        old(nonce)@.len() == iv@.len(),
        iv@.len() >= 12,
    ensures
        final(nonce)@ == record_nonce(iv@, seq),
{
    codec::put(nonce, 0, iv);
    assert(nonce@ =~= iv@);
    let mut s: Vec<u8> = Vec::new();
    codec::push_be64(&mut s, seq);
    assert(s@ =~= codec::be64_bytes(seq as int));
    let mut i: usize = 0;
    while i < 8
        invariant
            i <= 8,
            s@ == codec::be64_bytes(seq as int),
            s@.len() == 8,
            iv@.len() >= 12,
            nonce@.len() == iv@.len(),
            forall|j: int|
                0 <= j < iv@.len() ==> #[trigger] nonce@[j] == (if 4 <= j < 4 + i {
                    iv@[j] ^ s@[j - 4]
                } else {
                    iv@[j]
                }),
        decreases 8 - i,
    {
        let b: u8 = nonce[4 + i];
        nonce[4 + i] = b ^ s[i];
        i += 1;
    }
    assert(nonce@ =~= record_nonce(iv@, seq));
}

// ---- laws ----
/// The numbers of records give them different nonces.
pub proof fn law_nonces_differ(iv: Seq<u8>, a: u64, b: u64)
    requires
        iv.len() >= 12,
        record_nonce(iv, a) == record_nonce(iv, b),
    ensures
        a == b,
{
    let x = codec::be64_bytes(a as int);
    let y = codec::be64_bytes(b as int);
    assert forall|i: int| 0 <= i < 8 implies x[i] == y[i] by {
        let v = iv[4 + i];
        let p = x[i];
        let q = y[i];
        assert(record_nonce(iv, a)[4 + i] == v ^ p);
        assert(record_nonce(iv, b)[4 + i] == v ^ q);
        assert(v ^ p == v ^ q ==> p == q) by (bit_vector);
    }
    let hi = codec::be32_bytes(a as int / 0x1_0000_0000);
    let lo = codec::be32_bytes(a as int % 0x1_0000_0000);
    let hj = codec::be32_bytes(b as int / 0x1_0000_0000);
    let lj = codec::be32_bytes(b as int % 0x1_0000_0000);
    codec::law_be32_reads_back(a as int / 0x1_0000_0000);
    codec::law_be32_reads_back(a as int % 0x1_0000_0000);
    codec::law_be32_reads_back(b as int / 0x1_0000_0000);
    codec::law_be32_reads_back(b as int % 0x1_0000_0000);
    assert(x[0] == hi[0] && x[1] == hi[1] && x[2] == hi[2] && x[3] == hi[3]);
    assert(x[4] == lo[0] && x[5] == lo[1] && x[6] == lo[2] && x[7] == lo[3]);
    assert(y[0] == hj[0] && y[1] == hj[1] && y[2] == hj[2] && y[3] == hj[3]);
    assert(y[4] == lj[0] && y[5] == lj[1] && y[6] == lj[2] && y[7] == lj[3]);
}

/// What a secret is expanded with: the length in two bytes, the length of the label with
/// its prefix, the text "tls13 ", the label, the length of the context and the
/// context.
pub proof fn law_label_layout(n: nat, label: Seq<u8>, context: Seq<u8>)
    requires
        n < 0x1_0000,
        label.len() < 250,
        context.len() < 256,
    ensures
        ({
            let i = label_info(n, label, context);
            let k = label.len() as int;
            &&& i.len() == 10 + k + context.len()
            &&& i[0] * 256 + i[1] == n
            &&& i[2] == 6 + k
            &&& i.subrange(3, 9) == seq![0x74u8, 0x6cu8, 0x73u8, 0x31u8, 0x33u8, 0x20u8]
            &&& i.subrange(9, 9 + k) == label
            &&& i[9 + k] == context.len()
            &&& i.skip(10 + k) == context
        }),
{
    let i = label_info(n, label, context);
    let k = label.len() as int;
    codec::law_high_byte_first(n as int);
    assert(i.subrange(3, 9) =~= seq![0x74u8, 0x6cu8, 0x73u8, 0x31u8, 0x33u8, 0x20u8]);
    assert(i.subrange(9, 9 + k) =~= label);
    assert(i.skip(10 + k) =~= context);
}

/// The keys of a traffic secret are expanded under the labels "key" and "iv", and the
/// proof of a secret is the HMAC of the transcript under what "finished" gives; none
/// of them has a context.
pub proof fn law_secret_labels(hash: HashKind, secret: Seq<u8>, n: nat, transcript: Seq<u8>)
    ensures
        traffic_key(hash, secret, n) == labelled(
            hash,
            secret,
            vstd::utf8::encode_utf8("key"@),
            Seq::empty(),
            n,
        ),
        traffic_iv(hash, secret, n) == labelled(
            hash,
            secret,
            vstd::utf8::encode_utf8("iv"@),
            Seq::empty(),
            n,
        ),
        finished_of(hash, secret, transcript) == hash.hmac_of(
            labelled(
                hash,
                secret,
                vstd::utf8::encode_utf8("finished"@),
                Seq::empty(),
                hash.size(),
            ),
            transcript,
        ),
{
    reveal_strlit("key");
    reveal_strlit("iv");
    reveal_strlit("finished");
    vstd::utf8::is_ascii_chars_encode_utf8("key"@);
    vstd::utf8::is_ascii_chars_encode_utf8("iv"@);
    vstd::utf8::is_ascii_chars_encode_utf8("finished"@);
    assert(vstd::utf8::encode_utf8("key"@) =~= key_label());
    assert(vstd::utf8::encode_utf8("iv"@) =~= iv_label());
    assert(vstd::utf8::encode_utf8("finished"@) =~= finished_label());
}

/// Extraction is the HMAC of the secret under the salt; expansion is that of the same
/// hash, and the two hashes have 32 and 48 bytes.
pub proof fn law_hash_kinds(salt: Seq<u8>, ikm: Seq<u8>, info: Seq<u8>, n: nat)
    requires
        salt.len() > 0,
    ensures
        extracted(HashKind::Sha256, salt, ikm) == hash::hmac_sha256_of(salt, ikm),
        extracted(HashKind::Sha384, salt, ikm) == hash::hmac_sha384_of(salt, ikm),
        HashKind::Sha256.expanded(salt, info, n) == hash::hkdf_sha256_expanded(salt, info, n),
        HashKind::Sha384.expanded(salt, info, n) == hash::hkdf_sha384_expanded(salt, info, n),
        HashKind::Sha256.digest_of(ikm) == hash::sha256_digest(ikm),
        HashKind::Sha384.digest_of(ikm) == hash::sha384_digest(ikm),
        HashKind::Sha256.size() == 32,
        HashKind::Sha384.size() == 48,
{
}

/// The nonce of a record is the vector with the record's number, in eight bytes with the
/// highest first, mixed into its last eight.
pub proof fn law_nonce_layout(iv: Seq<u8>, seq: u64, i: int)
    requires
        iv.len() == 12,
        0 <= i < 8,
    ensures
        record_nonce(iv, seq).len() == 12,
        record_nonce(iv, seq).take(4) == iv.take(4),
        record_nonce(iv, seq)[4 + i] == iv[4 + i] ^ codec::be64_bytes(seq as int)[i],
{
    assert(record_nonce(iv, seq).take(4) =~= iv.take(4));
}

} // verus!
