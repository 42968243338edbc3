//! The head of a request and of its answer.

use aes::cipher::{BlockEncrypt, KeyInit};
use cfb_mode::cipher::{AsyncStreamCipher, KeyIvInit};
use hmac::Mac;
use vstd::prelude::*;

use crate::codec;
use crate::hash;
use crate::ip;
use crate::ip::Ip;
use crate::proxynet::address;
use crate::proxynet::aead;
use crate::proxynet::aead::AeadKind;
use crate::proxynet::crypto;
use crate::proxynet::error::{ProxyError, ProxyErrorCode};
use crate::proxynet::vmess::kdf;
use crate::random;

verus! {

pub const CMD_TCP: u8 = 0x01;

pub const SECURITY_AES128_GCM: u8 = 0x03;

pub const SECURITY_CHACHA20: u8 = 0x04;

/// A stream in chunks with masked lengths and padding.
pub const OPTIONS: u8 = 0x0D;

/// What stands before the head itself: its id, its length and a nonce.
pub const AEAD_HEADER_PREFIX: usize = 42;

// ---- outside functions ----
/// What AES-128 makes of a block.
pub uninterp spec fn aes128_block(key: Seq<u8>, block: Seq<u8>) -> Seq<u8>;

/// `Aes128::encrypt_block` with a key of 16 bytes: a block of 16 bytes that
/// depends on the arguments alone; it is named, not described.
#[verifier::external_body]
fn aes128_encrypt_block(key: &[u8], block: &[u8]) -> (r: Vec<u8>)
    requires
        key@.len() == 16,
        block@.len() == 16,
    ensures
        r@ == aes128_block(key@, block@),
        r@.len() == 16,
{
    let mut b = aes::Block::clone_from_slice(block);
    aes::Aes128::new_from_slice(key).unwrap().encrypt_block(&mut b);
    b.to_vec()
}

/// What AES-128 in CFB mode makes of data.
pub uninterp spec fn aes128_cfb_encrypted(key: Seq<u8>, iv: Seq<u8>, data: Seq<u8>) -> Seq<u8>;

/// The data of what AES-128 in CFB mode made.
pub uninterp spec fn aes128_cfb_decrypted(key: Seq<u8>, iv: Seq<u8>, data: Seq<u8>) -> Seq<u8>;

/// `cfb_mode::Encryptor::<Aes128>::encrypt`: as many bytes, which depend on the
/// arguments alone and are named; decrypting them gives the data back.
#[verifier::external_body]
fn cfb_encrypt(key: &[u8], iv: &[u8], data: &[u8]) -> (r: Vec<u8>)
    requires
        key@.len() == 16,
        iv@.len() == 16,
    ensures
        r@ == aes128_cfb_encrypted(key@, iv@, data@),
        r@.len() == data@.len(),
        aes128_cfb_decrypted(key@, iv@, r@) == data@,
{
    let mut b = data.to_vec();
    cfb_mode::Encryptor::<aes::Aes128>::new(key.into(), iv.into()).encrypt(&mut b);
    b
}

/// `cfb_mode::Decryptor::<Aes128>::decrypt`: as many bytes, which depend on the
/// arguments alone and are named.
#[verifier::external_body]
pub(crate) fn cfb_decrypt(key: &[u8], iv: &[u8], data: &[u8]) -> (r: Vec<u8>)
    requires
        key@.len() == 16,
        iv@.len() == 16,
    ensures
        r@ == aes128_cfb_decrypted(key@, iv@, data@),
        r@.len() == data@.len(),
{
    let mut b = data.to_vec();
    cfb_mode::Decryptor::<aes::Aes128>::new(key.into(), iv.into()).decrypt(&mut b);
    b
}

/// A remainder after some bits: each is shifted out, and one that is set takes the
/// polynomial of IEEE 802.3, the low bit first, off the rest.
pub open spec fn crc32_shifted(c: u32, bits: nat) -> u32
    decreases bits,
{
    if bits == 0 {
        c
    } else {
        let d = crc32_shifted(c, (bits - 1) as nat);
        if d % 2 == 1 {
            (d / 2) ^ 0xEDB8_8320
        } else {
            d / 2
        }
    }
}

/// The remainder after bytes, from all ones on.
pub open spec fn crc32_rest(b: Seq<u8>) -> u32
    decreases b.len(),
{
    if b.len() == 0 {
        0xFFFF_FFFF
    } else {
        crc32_shifted(crc32_rest(b.drop_last()) ^ (b.last() as u32), 8)
    }
}

/// The CRC-32 of bytes.
pub open spec fn crc32_of(b: Seq<u8>) -> u32 {
    crc32_rest(b) ^ 0xFFFF_FFFF
}

/// `crc32fast::hash`: the CRC-32 of IEEE 802.3.
#[verifier::external_body]
fn crc32(b: &[u8]) -> (r: u32)
    ensures
        r == crc32_of(b@),
{
    crc32fast::hash(b)
}

/// The HMAC under MD5 of data.
pub uninterp spec fn hmac_md5_of(key: Seq<u8>, data: Seq<u8>) -> Seq<u8>;

/// `Hmac::<Md5>`: 16 bytes that depend on key and data alone; they are named,
/// not described.
#[verifier::external_body]
fn hmac_md5(key: &[u8], data: &[u8]) -> (r: Vec<u8>)
    ensures
        r@ == hmac_md5_of(key@, data@),
        r@.len() == 16,
{
    let mut m = <hmac::Hmac<md5::Md5> as Mac>::new_from_slice(key).unwrap();
    m.update(data);
    m.finalize().into_bytes().to_vec()
}

// ---- sessions ----
/// The keys of a session.
#[derive(Debug, Clone, Copy)]
pub struct ClientSession {
    pub request_body_key: [u8; 16],
    pub request_body_iv: [u8; 16],
    pub response_body_key: [u8; 16],
    pub response_body_iv: [u8; 16],
    pub response_header: u8,
    pub aead: bool,
}

/// What the answer's keys are derived from those of the request by.
pub open spec fn answer_key(key: Seq<u8>, aead: bool) -> Seq<u8> {
    if aead {
        hash::sha256_digest(key).take(16)
    } else {
        hash::md5_digest(key)
    }
}

/// Whether a session has the given key, vector and mark.
pub open spec fn session_with(
    s: ClientSession,
    key: Seq<u8>,
    iv: Seq<u8>,
    mark: u8,
    aead: bool,
) -> bool {
    &&& s.request_body_key@ == key
    &&& s.request_body_iv@ == iv
    &&& s.response_body_key@ == answer_key(key, aead)
    &&& s.response_body_iv@ == answer_key(iv, aead)
    &&& s.response_header == mark
    &&& s.aead == aead
}

fn sixteen(b: &[u8], at: usize) -> (r: [u8; 16])
    requires
        at + 16 <= b@.len(),
    ensures
        r@ == b@.subrange(at as int, at + 16),
{
    let total: usize = b.len();
    let mut r: [u8; 16] = [0u8; 16];
    let mut i: usize = 0;
    while i < 16
        invariant
            i <= 16,
            at + 16 <= b@.len() == total,
            r@.len() == 16,
            forall|j: int| 0 <= j < i ==> r@[j] == #[trigger] b@[at + j],
        decreases 16 - i,
    {
        r[i] = b[at + i];
        i += 1;
    }
    assert forall|j: int| 0 <= j < 16 implies r@[j] == b@.subrange(at as int, at + 16)[j] by {
        assert(b@[at + j] == r@[j]);
    }
    assert(r@ =~= b@.subrange(at as int, at + 16));
    r
}

fn derive_answer_key(key: &[u8], aead: bool) -> (r: [u8; 16])
    ensures
        r@ == answer_key(key@, aead),
{
    if aead {
        let d = hash::sha256(key);
        let r: [u8; 16] = sixteen(d.as_slice(), 0);
        assert(r@ =~= d@.take(16));
        r
    } else {
        let d = hash::md5(key);
        let r: [u8; 16] = sixteen(d.as_slice(), 0);
        assert(r@ =~= d@);
        r
    }
}

impl ClientSession {
    /// The session that 33 random bytes make.
    pub fn from_random(rnd: &[u8], aead: bool) -> (r: Self)
        requires
            rnd@.len() == 33,
        ensures
            session_with(r, rnd@.subrange(0, 16), rnd@.subrange(16, 32), rnd@[32], aead),
    {
        let key: [u8; 16] = sixteen(rnd, 0);
        let iv: [u8; 16] = sixteen(rnd, 16);
        ClientSession {
            request_body_key: key,
            request_body_iv: iv,
            response_body_key: derive_answer_key(key.as_slice(), aead),
            response_body_iv: derive_answer_key(iv.as_slice(), aead),
            response_header: rnd[32],
            aead,
        }
    }

    pub fn new(aead: bool) -> (r: Self)
        ensures
            session_with(
                r,
                r.request_body_key@,
                r.request_body_iv@,
                r.response_header,
                aead,
            ),
    {
        let rnd = random::random_bytes(33);
        Self::from_random(rnd.as_slice(), aead)
    }
}

// ---- the request ----
/// The FNV-1a hash of bytes.
pub open spec fn fnv(b: Seq<u8>) -> u32
    decreases b.len(),
{
    if b.len() == 0 {
        0x811c9dc5u32
    } else {
        (((fnv(b.drop_last()) ^ (b.last() as u32)) as int * 0x01000193) % 0x1_0000_0000) as u32
    }
}

pub fn fnv1a32(data: &[u8]) -> (r: u32)
    ensures
        r == fnv(data@),
{
    let mut h: u32 = 0x811c9dc5;
    let n: usize = data.len();
    let mut i: usize = 0;
    assert(data@.take(0).len() == 0);
    while i < n
        invariant
            i <= n == data@.len(),
            h == fnv(data@.take(i as int)),
        decreases n - i,
    {
        assert(data@.take(i + 1).drop_last() =~= data@.take(i as int));
        let x: u32 = h ^ (data[i] as u32);
        h = ((x as u64 * 0x01000193) % 0x1_0000_0000) as u32;
        i += 1;
    }
    assert(data@.take(n as int) =~= data@);
    h
}

/// What the key of commands is made with.
pub const COMMAND_SALT: &'static str = "c48619fe-8f02-49e0-b9e9-edf763e17e21";

/// The key of commands of a user.
pub open spec fn command_key(id: Seq<u8>) -> Seq<u8> {
    hash::md5_digest(id + vstd::utf8::encode_utf8(COMMAND_SALT@))
}

fn cmd_key(id: &[u8]) -> (r: Vec<u8>)
    ensures
        r@ == command_key(id@),
        r@.len() == 16,
{
    let mut b = codec::copy(id);
    let s = codec::bytes_of(COMMAND_SALT);
    codec::append(&mut b, s.as_slice());
    hash::md5(b.as_slice())
}

/// What is drawn at random for a request.
#[derive(Debug)]
pub struct Draw {
    /// Shifts the time of a request without authenticated head.
    pub shift: u32,
    /// Up to 15 bytes of padding.
    pub padding: Vec<u8>,
    /// The random part of the id of a head.
    pub id: Vec<u8>,
    pub nonce: Vec<u8>,
}

impl Draw {
    pub open spec fn wf(self) -> bool {
        self.padding@.len() < 16 && self.id@.len() == 4 && self.nonce@.len() == 8
    }

    fn new() -> (r: Self)
        ensures
            r.wf(),
    {
        let n = random::random_bytes(1);
        let k: usize = (n[0] % 16) as usize;
        Draw {
            shift: random::random_u32(),
            padding: random::random_bytes(k),
            id: random::random_bytes(4),
            nonce: random::random_bytes(8),
        }
    }
}

/// The request before its hash.
pub open spec fn request_head(
    s: ClientSession,
    security: u8,
    port: u16,
    addr: Seq<u8>,
    padding: Seq<u8>,
) -> Seq<u8> {
    seq![1u8] + s.request_body_iv@ + s.request_body_key@ + seq![
        s.response_header,
        OPTIONS,
        ((padding.len() * 16) as u8) | security,
        0u8,
        CMD_TCP,
    ] + codec::be16_bytes(port as int) + addr + padding
}

/// The request: session, options, command, address and padding, and a hash of
/// them.
pub open spec fn request_plain(
    s: ClientSession,
    security: u8,
    port: u16,
    addr: Seq<u8>,
    padding: Seq<u8>,
) -> Seq<u8> {
    let h = request_head(s, security, port, addr, padding);
    h + codec::be32_bytes(fnv(h) as int)
}

/// The id of a head: the time, random bytes and their checksum, encrypted.
pub open spec fn auth_id(key: Seq<u8>, now: u64, id: Seq<u8>) -> Seq<u8> {
    let b = codec::be64_bytes(now as int) + id;
    aes128_block(
        kdf::derived1(key, kdf::KDF_SALT_CONST_AUTH_ID_ENCRYPTION_KEY@).take(16),
        b + codec::be32_bytes(crc32_of(b) as int),
    )
}

fn create_auth_id(key: &[u8], now: u64, id: &[u8]) -> (r: Vec<u8>)
    requires
        id@.len() == 4,
    ensures
        r@ == auth_id(key@, now, id@),
        r@.len() == 16,
{
    let mut b: Vec<u8> = Vec::new();
    codec::push_be64(&mut b, now);
    assert(b@ =~= codec::be64_bytes(now as int));
    codec::append(&mut b, id);
    let crc: u32 = crc32(b.as_slice());
    codec::push_be32(&mut b, crc);
    let k = kdf::vmess_kdf_1_one_shot(key, kdf::KDF_SALT_CONST_AUTH_ID_ENCRYPTION_KEY);
    let kk = codec::copy(&k.as_slice()[0..16]);
    assert(kk@ =~= k@.take(16));
    aes128_encrypt_block(kk.as_slice(), b.as_slice())
}

/// A part of a head, encrypted with keys that follow from its id and nonce.
pub open spec fn head_sealed(
    key: Seq<u8>,
    key_salt: Seq<char>,
    iv_salt: Seq<char>,
    id: Seq<u8>,
    nonce: Seq<u8>,
    data: Seq<u8>,
) -> Seq<u8> {
    aead::sealed(
        AeadKind::Aes128Gcm,
        kdf::derived3(key, key_salt, id, nonce).take(16),
        kdf::derived3(key, iv_salt, id, nonce).take(12),
        id,
        data,
    )
}

pub open spec fn head_opened(
    key: Seq<u8>,
    key_salt: Seq<char>,
    iv_salt: Seq<char>,
    id: Seq<u8>,
    nonce: Seq<u8>,
    data: Seq<u8>,
) -> Option<Seq<u8>> {
    aead::opened(
        AeadKind::Aes128Gcm,
        kdf::derived3(key, key_salt, id, nonce).take(16),
        kdf::derived3(key, iv_salt, id, nonce).take(12),
        id,
        data,
    )
}

fn seal_part(
    key: &[u8],
    key_salt: &str,
    iv_salt: &str,
    id: &[u8],
    nonce: &[u8],
    data: &[u8],
) -> (r: Vec<u8>)
    requires
        id@.len() == 16,
        data@.len() <= aead::MAX_INPUT,
    ensures
        r@ == head_sealed(key@, key_salt@, iv_salt@, id@, nonce@, data@),
        r@.len() == data@.len() + 16,
        head_opened(key@, key_salt@, iv_salt@, id@, nonce@, r@) == Some(data@),
{
    let k = kdf::vmess_kdf_3_one_shot(key, key_salt, id, nonce);
    let v = kdf::vmess_kdf_3_one_shot(key, iv_salt, id, nonce);
    let kk = codec::copy(&k.as_slice()[0..16]);
    let vv = codec::copy(&v.as_slice()[0..12]);
    assert(kk@ =~= k@.take(16));
    assert(vv@ =~= v@.take(12));
    aead::seal(AeadKind::Aes128Gcm, kk.as_slice(), vv.as_slice(), id, data)
}

fn open_part(
    key: &[u8],
    key_salt: &str,
    iv_salt: &str,
    id: &[u8],
    nonce: &[u8],
    data: &[u8],
) -> (r: Option<Vec<u8>>)
    requires
        id@.len() == 16,
        16 <= data@.len() <= aead::MAX_INPUT,
    ensures
        codec::opt_bytes(r) == head_opened(key@, key_salt@, iv_salt@, id@, nonce@, data@),
        r is Some ==> r->0@.len() + 16 == data@.len(),
{
    let k = kdf::vmess_kdf_3_one_shot(key, key_salt, id, nonce);
    let v = kdf::vmess_kdf_3_one_shot(key, iv_salt, id, nonce);
    let kk = codec::copy(&k.as_slice()[0..16]);
    let vv = codec::copy(&v.as_slice()[0..12]);
    assert(kk@ =~= k@.take(16));
    assert(vv@ =~= v@.take(12));
    aead::open(AeadKind::Aes128Gcm, kk.as_slice(), vv.as_slice(), id, data)
}

/// An authenticated head: its id, its length, a nonce and the request.
pub open spec fn aead_head(key: Seq<u8>, id: Seq<u8>, nonce: Seq<u8>, data: Seq<u8>) -> Seq<u8> {
    id + head_sealed(
        key,
        kdf::KDF_SALT_CONST_VMESS_HEADER_PAYLOAD_LENGTH_AEAD_KEY@,
        kdf::KDF_SALT_CONST_VMESS_HEADER_PAYLOAD_LENGTH_AEAD_IV@,
        id,
        nonce,
        codec::be16_bytes(data.len() as int),
    ) + nonce + head_sealed(
        key,
        kdf::KDF_SALT_CONST_VMESS_HEADER_PAYLOAD_AEAD_KEY@,
        kdf::KDF_SALT_CONST_VMESS_HEADER_PAYLOAD_AEAD_IV@,
        id,
        nonce,
        data,
    )
}

/// The length that the prefix of a head names, where it was made with the key.
pub open spec fn named_length(key: Seq<u8>, b: Seq<u8>) -> Option<int> {
    match head_opened(
        key,
        kdf::KDF_SALT_CONST_VMESS_HEADER_PAYLOAD_LENGTH_AEAD_KEY@,
        kdf::KDF_SALT_CONST_VMESS_HEADER_PAYLOAD_LENGTH_AEAD_IV@,
        b.take(16),
        b.subrange(34, 42),
        b.subrange(16, 34),
    ) {
        Some(l) => Some(codec::be16(l[0], l[1])),
        None => None,
    }
}

/// The request of a head, where it was made with the key.
pub open spec fn head_content(key: Seq<u8>, b: Seq<u8>, n: int) -> Option<Seq<u8>> {
    head_opened(
        key,
        kdf::KDF_SALT_CONST_VMESS_HEADER_PAYLOAD_AEAD_KEY@,
        kdf::KDF_SALT_CONST_VMESS_HEADER_PAYLOAD_AEAD_IV@,
        b.take(16),
        b.subrange(34, 42),
        b.subrange(42, 42 + n + 16),
    )
}

/// Whether bytes are a head whose request a server with the key gets back.
pub open spec fn head_opens(key: Seq<u8>, b: Seq<u8>, data: Seq<u8>) -> bool {
    &&& b.len() == 42 + data.len() + 16
    &&& named_length(key, b) == Some(data.len() as int)
    &&& head_content(key, b, data.len() as int) == Some(data)
}

fn seal_aead_header(key: &[u8], data: &[u8], now: u64, draw: &Draw) -> (r: Vec<u8>)
    requires
        draw.wf(),
        data@.len() <= 0xffff,
    ensures
        r@ == aead_head(key@, auth_id(key@, now, draw.id@), draw.nonce@, data@),
        head_opens(key@, r@, data@),
{
    let id = create_auth_id(key, now, draw.id.as_slice());
    let mut len: Vec<u8> = Vec::new();
    codec::push_be16(&mut len, data.len() as u16);
    assert(len@ =~= codec::be16_bytes(data@.len() as int));
    let a = seal_part(
        key,
        kdf::KDF_SALT_CONST_VMESS_HEADER_PAYLOAD_LENGTH_AEAD_KEY,
        kdf::KDF_SALT_CONST_VMESS_HEADER_PAYLOAD_LENGTH_AEAD_IV,
        id.as_slice(),
        draw.nonce.as_slice(),
        len.as_slice(),
    );
    let b = seal_part(
        key,
        kdf::KDF_SALT_CONST_VMESS_HEADER_PAYLOAD_AEAD_KEY,
        kdf::KDF_SALT_CONST_VMESS_HEADER_PAYLOAD_AEAD_IV,
        id.as_slice(),
        draw.nonce.as_slice(),
        data,
    );
    let ghost gid = id@;
    let mut out = id;
    codec::append(&mut out, a.as_slice());
    codec::append(&mut out, draw.nonce.as_slice());
    codec::append(&mut out, b.as_slice());
    proof {
        codec::law_be16_reads_back(data@.len() as int);
        assert(out@.take(16) =~= gid);
        assert(out@.subrange(16, 34) =~= a@);
        assert(out@.subrange(34, 42) =~= draw.nonce@);
        assert(out@.subrange(42, 42 + data@.len() as int + 16) =~= b@);
    }
    out
}

/// The time of a request without authenticated head, shifted by up to half a
/// minute.
pub open spec fn shifted(now: u64, shift: u32) -> u64 {
    ((now + shift % 60 - 30) % 0x1_0000_0000_0000_0000) as u64
}

fn shift_time(now: u64, shift: u32) -> (r: u64)
    ensures
        r == shifted(now, shift),
{
    let d: u64 = (shift % 60) as u64;
    let r: u128 = (now as u128 + d as u128 + 0x1_0000_0000_0000_0000 - 30)
        % 0x1_0000_0000_0000_0000;
    r as u64
}

/// The vector of a request without authenticated head.
pub open spec fn time_iv(t: u64) -> Seq<u8> {
    let b = codec::be64_bytes(t as int);
    hash::md5_digest(b + b + b + b)
}

/// The bytes of a request with what was drawn for it; its user and address are
/// given.
pub open spec fn request_bytes(
    id: Seq<u8>,
    addr: Seq<u8>,
    port: u16,
    security: u8,
    s: ClientSession,
    now: u64,
    draw: Draw,
) -> Seq<u8> {
    let plain = request_plain(s, security, port, addr, draw.padding@);
    let key = command_key(id);
    if s.aead {
        aead_head(key, auth_id(key, now, draw.id@), draw.nonce@, plain)
    } else {
        let t = shifted(now, draw.shift);
        hmac_md5_of(id, codec::be64_bytes(t as int)) + aes128_cfb_encrypted(key, time_iv(t), plain)
    }
}

fn build_plain(
    s: &ClientSession,
    security: u8,
    port: u16,
    addr: &[u8],
    padding: &[u8],
) -> (r: Vec<u8>)
    requires
        padding@.len() < 16,
    ensures
        r@ == request_plain(*s, security, port, addr@, padding@),
        r@.len() == 44 + addr@.len() + padding@.len(),
        r@[0] == 1 && r@[34] == 0x0D && r@[36] == 0 && r@[37] == 1,
{
    let mut b: Vec<u8> = Vec::new();
    b.push(1);
    assert(b@ =~= seq![1u8]);
    codec::append(&mut b, s.request_body_iv.as_slice());
    codec::append(&mut b, s.request_body_key.as_slice());
    let ghost g = b@;
    b.push(s.response_header);
    b.push(OPTIONS);
    b.push((padding.len() as u8 * 16) | security);
    b.push(0);
    b.push(CMD_TCP);
    assert(b@ =~= g + seq![
        s.response_header,
        OPTIONS,
        ((padding@.len() * 16) as u8) | security,
        0u8,
        CMD_TCP,
    ]);
    codec::push_be16(&mut b, port);
    codec::append(&mut b, addr);
    codec::append(&mut b, padding);
    let sum: u32 = fnv1a32(b.as_slice());
    codec::push_be32(&mut b, sum);
    b
}

/// Builds a request with what was drawn for it.
pub fn encode_request_with(
    uuid: &str,
    dest_host: &str,
    dest_port: u16,
    security: u8,
    sess: &ClientSession,
    now: u64,
    draw: &Draw,
) -> (r: Result<Vec<u8>, ProxyError>)
    requires
        draw.wf(),
    ensures
        request_result(r, uuid@, dest_host@, dest_port, security, *sess, now, *draw),
{
    let id = match crypto::uuid_of(uuid) {
        Some(u) => u,
        None => {
            return Err(ProxyError::new(ProxyErrorCode::AuthRequired, "VMess uuid is unusable"));
        },
    };
    proof {
        address::lemma_address_room(dest_host@, 1, 3, 4);
    }
    let addr = match address::encode_address(dest_host, 1, 3, 4) {
        Some(a) => a,
        None => {
            return Err(
                ProxyError::new(
                    ProxyErrorCode::StringTooLong,
                    "Target host name exceeds the maximum of 255 bytes.",
                ),
            );
        },
    };
    let plain = build_plain(sess, security, dest_port, addr.as_slice(), draw.padding.as_slice());
    let key = cmd_key(id.as_slice());
    if sess.aead {
        return Ok(seal_aead_header(key.as_slice(), plain.as_slice(), now, draw));
    }
    let t: u64 = shift_time(now, draw.shift);
    let mut tb: Vec<u8> = Vec::new();
    codec::push_be64(&mut tb, t);
    let ghost one = codec::be64_bytes(t as int);
    assert(tb@ =~= one);
    let mut out = hmac_md5(id.as_slice(), tb.as_slice());
    codec::push_be64(&mut tb, t);
    codec::push_be64(&mut tb, t);
    codec::push_be64(&mut tb, t);
    assert(tb@ =~= one + one + one + one);
    let iv = hash::md5(tb.as_slice());
    let c = cfb_encrypt(key.as_slice(), iv.as_slice(), plain.as_slice());
    let ghost auth = out@;
    codec::append(&mut out, c.as_slice());
    proof {
        assert(out@.skip(16) =~= c@);
    }
    Ok(out)
}

/// What building a request gives: a server with the user's key gets the request
/// back, whatever was drawn.
pub open spec fn request_result(
    r: Result<Vec<u8>, ProxyError>,
    uuid: Seq<char>,
    host: Seq<char>,
    port: u16,
    security: u8,
    s: ClientSession,
    now: u64,
    draw: Draw,
) -> bool {
    match (crypto::uuid_bytes(uuid), address::address_bytes(host, 1, 3, 4)) {
        (None, _) => r is Err && r->Err_0.says(
            ProxyErrorCode::AuthRequired,
            "VMess uuid is unusable"@,
        ),
        (Some(_), None) => r is Err && r->Err_0.says(
            ProxyErrorCode::StringTooLong,
            "Target host name exceeds the maximum of 255 bytes."@,
        ),
        (Some(id), Some(addr)) => {
            let plain = request_plain(s, security, port, addr, draw.padding@);
            &&& r is Ok
            &&& r->Ok_0@ == request_bytes(id, addr, port, security, s, now, draw)
            &&& (s.aead ==> head_opens(command_key(id), r->Ok_0@, plain))
            &&& (!s.aead ==> aes128_cfb_decrypted(
                command_key(id),
                time_iv(shifted(now, draw.shift)),
                r->Ok_0@.skip(16),
            ) == plain)
        },
    }
}

/// Builds a request at a time, in seconds.
pub fn encode_request(
    uuid: &str,
    dest_host: &str,
    dest_port: u16,
    security: u8,
    sess: &ClientSession,
    now: u64,
) -> (r: Result<Vec<u8>, ProxyError>)
    ensures
        exists|draw: Draw|
            draw.wf() && #[trigger] request_result(
                r,
                uuid@,
                dest_host@,
                dest_port,
                security,
                *sess,
                now,
                draw,
            ),
{
    let draw = Draw::new();
    let r = encode_request_with(uuid, dest_host, dest_port, security, sess, now, &draw);
    assert(request_result(r, uuid@, dest_host@, dest_port, security, *sess, now, draw));
    r
}

// ---- the other side ----
/// The key of commands of a user.
pub fn cmd_key_from_uuid(uuid: &str) -> (r: Result<Vec<u8>, ProxyError>)
    ensures
        match crypto::uuid_bytes(uuid@) {
            Some(id) => r is Ok && r->Ok_0@ == command_key(id),
            None => r is Err && r->Err_0.says(
                ProxyErrorCode::AuthRequired,
                "VMess uuid is unusable"@,
            ),
        },
{
    match crypto::uuid_of(uuid) {
        Some(id) => Ok(cmd_key(id.as_slice())),
        None => Err(ProxyError::new(ProxyErrorCode::AuthRequired, "VMess uuid is unusable")),
    }
}

/// How long the request of a head is.
pub fn aead_header_payload_len(key: &[u8], prefix: &[u8]) -> (r: Result<usize, ProxyError>)
    ensures
        if prefix@.len() < AEAD_HEADER_PREFIX {
            r is Err && r->Err_0.says(ProxyErrorCode::InvalidResponse, "vmess header too short"@)
        } else {
            match named_length(key@, prefix@) {
                Some(n) => r == Ok::<usize, ProxyError>(n as usize) && 0 <= n <= 0xffff,
                None => r is Err && r->Err_0.says(
                    ProxyErrorCode::InvalidResponse,
                    "vmess header len"@,
                ),
            }
        },
{
    if prefix.len() < AEAD_HEADER_PREFIX {
        return Err(ProxyError::new(ProxyErrorCode::InvalidResponse, "vmess header too short"));
    }
    let id = &prefix[0..16];
    let c = &prefix[16..34];
    let nonce = &prefix[34..42];
    assert(id@ =~= prefix@.take(16));
    assert(c@ =~= prefix@.subrange(16, 34));
    assert(nonce@ =~= prefix@.subrange(34, 42));
    match open_part(
        key,
        kdf::KDF_SALT_CONST_VMESS_HEADER_PAYLOAD_LENGTH_AEAD_KEY,
        kdf::KDF_SALT_CONST_VMESS_HEADER_PAYLOAD_LENGTH_AEAD_IV,
        id,
        nonce,
        c,
    ) {
        Some(l) => Ok(codec::read_be16(l[0], l[1]) as usize),
        None => Err(ProxyError::new(ProxyErrorCode::InvalidResponse, "vmess header len")),
    }
}

/// The host of a target.
#[derive(Debug)]
pub enum TargetHost {
    Address(Ip),
    Name(String),
}

/// What a host is on the wire.
pub enum HostView {
    Address(ip::IpView),
    Name(Seq<char>),
}

impl View for TargetHost {
    type V = HostView;

    open spec fn view(&self) -> HostView {
        match self {
            TargetHost::Address(a) => HostView::Address(a@),
            TargetHost::Name(n) => HostView::Name(n@),
        }
    }
}

/// The host at the beginning of bytes and how long it is, or why there is none.
pub open spec fn host_of(b: Seq<u8>) -> Result<(HostView, int), Seq<char>> {
    if b.len() == 0 {
        Err("vmess address empty"@)
    } else if b[0] == 1 && b.len() >= 5 {
        Ok((HostView::Address(ip::IpView::V4(b.subrange(1, 5))), 5))
    } else if b[0] == 3 && b.len() >= 2 {
        if b.len() < 2 + b[1] {
            Err("vmess domain truncated"@)
        } else {
            Ok((HostView::Name(codec::utf8_text(b.subrange(2, 2 + b[1]))), 2 + b[1]))
        }
    } else if b[0] == 4 && b.len() >= 17 {
        Ok((HostView::Address(ip::IpView::V6(b.subrange(1, 17))), 17))
    } else {
        Err("vmess address type"@)
    }
}

fn refuse(m: &str) -> (r: ProxyError)
    ensures
        r.says(ProxyErrorCode::InvalidResponse, m@),
{
    ProxyError::new(ProxyErrorCode::InvalidResponse, m)
}

pub fn parse_socks_host(b: &[u8]) -> (r: Result<(TargetHost, usize), ProxyError>)
    ensures
        match host_of(b@) {
            Ok((h, n)) => r is Ok && (r->Ok_0).0@ == h && (r->Ok_0).1 == n,
            Err(m) => r is Err && r->Err_0.says(ProxyErrorCode::InvalidResponse, m),
        },
{
    let total: usize = b.len();
    if total == 0 {
        return Err(refuse("vmess address empty"));
    }
    if b[0] == 1 && total >= 5 {
        let a: [u8; 4] = [b[1], b[2], b[3], b[4]];
        assert(a@ =~= b@.subrange(1, 5));
        return Ok((TargetHost::Address(Ip::V4(a)), 5));
    }
    if b[0] == 3 && total >= 2 {
        let n: usize = b[1] as usize;
        if total < 2 + n {
            return Err(refuse("vmess domain truncated"));
        }
        let name = &b[2..2 + n];
        assert(name@ =~= b@.subrange(2, 2 + n));
        return Ok((TargetHost::Name(codec::utf8_lossy(name)), 2 + n));
    }
    if b[0] == 4 && total >= 17 {
        let a: [u8; 16] = sixteen(b, 1);
        return Ok((TargetHost::Address(Ip::V6(a)), 17));
    }
    Err(refuse("vmess address type"))
}

/// What reading the request of an authenticated head gives: session, host, port
/// and cipher.
pub open spec fn read_result(
    r: Result<(ClientSession, TargetHost, u16, u8), ProxyError>,
    p: Seq<u8>,
) -> bool {
    if p.len() < 42 || p[0] != 1 {
        r is Err && r->Err_0.says(ProxyErrorCode::InvalidResponse, "vmess header version"@)
    } else {
        match host_of(p.skip(40)) {
            Err(m) => r is Err && r->Err_0.says(ProxyErrorCode::InvalidResponse, m),
            Ok((h, _)) => r is Ok && session_with(
                (r->Ok_0).0,
                p.subrange(17, 33),
                p.subrange(1, 17),
                p[33],
                true,
            ) && (r->Ok_0).1@ == h && (r->Ok_0).2 == codec::be16(p[38], p[39]) && (r->Ok_0).3
                == p[35] & 0x0f,
        }
    }
}

/// Reads the request of an authenticated head.
pub fn read_request(p: &[u8]) -> (r: Result<(ClientSession, TargetHost, u16, u8), ProxyError>)
    ensures
        read_result(r, p@),
{
    if p.len() < 42 || p[0] != 1 {
        return Err(refuse("vmess header version"));
    }
    let total: usize = p.len();
    let iv: [u8; 16] = sixteen(p, 1);
    let key: [u8; 16] = sixteen(p, 17);
    let tail = &p[40..total];
    assert(tail@ =~= p@.skip(40));
    match parse_socks_host(tail) {
        Err(e) => Err(e),
        Ok((host, _)) => {
            let s = ClientSession {
                request_body_key: key,
                request_body_iv: iv,
                response_body_key: derive_answer_key(key.as_slice(), true),
                response_body_iv: derive_answer_key(iv.as_slice(), true),
                response_header: p[33],
                aead: true,
            };
            Ok((s, host, codec::read_be16(p[38], p[39]), p[35] & 0x0f))
        },
    }
}

/// The request of an authenticated head, or why it cannot be read.
pub open spec fn opened_head(key: Seq<u8>, b: Seq<u8>) -> Result<Seq<u8>, Seq<char>> {
    if b.len() < AEAD_HEADER_PREFIX {
        Err("vmess header too short"@)
    } else {
        match named_length(key, b) {
            None => Err("vmess header len"@),
            Some(n) => if b.len() < 42 + n + 16 {
                Err("vmess header truncated"@)
            } else {
                match head_content(key, b, n) {
                    Some(d) => Ok(d),
                    None => Err("vmess header"@),
                }
            },
        }
    }
}

/// Opens an authenticated head.
pub fn open_aead_header(key: &[u8], packet: &[u8]) -> (r: Result<Vec<u8>, ProxyError>)
    ensures
        match opened_head(key@, packet@) {
            Ok(d) => r is Ok && r->Ok_0@ == d,
            Err(m) => r is Err && r->Err_0.says(ProxyErrorCode::InvalidResponse, m),
        },
{
    let n: usize = match aead_header_payload_len(key, packet) {
        Ok(n) => n,
        Err(e) => {
            return Err(e);
        },
    };
    if packet.len() < AEAD_HEADER_PREFIX + n + 16 {
        return Err(refuse("vmess header truncated"));
    }
    let id = &packet[0..16];
    let nonce = &packet[34..42];
    let c = &packet[42..42 + n + 16];
    assert(id@ =~= packet@.take(16));
    assert(nonce@ =~= packet@.subrange(34, 42));
    assert(c@ =~= packet@.subrange(42, 42 + n + 16));
    match open_part(
        key,
        kdf::KDF_SALT_CONST_VMESS_HEADER_PAYLOAD_AEAD_KEY,
        kdf::KDF_SALT_CONST_VMESS_HEADER_PAYLOAD_AEAD_IV,
        id,
        nonce,
        c,
    ) {
        Some(d) => Ok(d),
        None => Err(refuse("vmess header")),
    }
}

/// Reads an authenticated head of a user.
pub fn decode_aead_header(uuid: &str, packet: &[u8]) -> (r: Result<
    (ClientSession, TargetHost, u16, u8),
    ProxyError,
>)
    ensures
        match crypto::uuid_bytes(uuid@) {
            None => r is Err && r->Err_0.says(
                ProxyErrorCode::AuthRequired,
                "VMess uuid is unusable"@,
            ),
            Some(id) => match opened_head(command_key(id), packet@) {
                Err(m) => r is Err && r->Err_0.says(ProxyErrorCode::InvalidResponse, m),
                Ok(p) => read_result(r, p),
            },
        },
{
    let key = match cmd_key_from_uuid(uuid) {
        Ok(k) => k,
        Err(e) => {
            return Err(e);
        },
    };
    match open_aead_header(key.as_slice(), packet) {
        Ok(p) => read_request(p.as_slice()),
        Err(e) => Err(e),
    }
}

// ---- the answer ----
/// A part of the answer's head, encrypted with keys of the session.
pub open spec fn answer_opened(
    s: ClientSession,
    key_salt: Seq<char>,
    iv_salt: Seq<char>,
    c: Seq<u8>,
) -> Option<Seq<u8>> {
    aead::opened(
        AeadKind::Aes128Gcm,
        kdf::derived1(s.response_body_key@, key_salt).take(16),
        kdf::derived1(s.response_body_iv@, iv_salt).take(12),
        Seq::empty(),
        c,
    )
}

pub open spec fn answer_sealed(
    s: ClientSession,
    key_salt: Seq<char>,
    iv_salt: Seq<char>,
    d: Seq<u8>,
) -> Seq<u8> {
    aead::sealed(
        AeadKind::Aes128Gcm,
        kdf::derived1(s.response_body_key@, key_salt).take(16),
        kdf::derived1(s.response_body_iv@, iv_salt).take(12),
        Seq::empty(),
        d,
    )
}

pub fn open_answer_part(s: &ClientSession, key_salt: &str, iv_salt: &str, c: &[u8]) -> (r: Option<
    Vec<u8>,
>)
    requires
        16 <= c@.len() <= aead::MAX_INPUT,
    ensures
        codec::opt_bytes(r) == answer_opened(*s, key_salt@, iv_salt@, c@),
        r is Some ==> r->0@.len() + 16 == c@.len(),
{
    let k = kdf::vmess_kdf_1_one_shot(s.response_body_key.as_slice(), key_salt);
    let v = kdf::vmess_kdf_1_one_shot(s.response_body_iv.as_slice(), iv_salt);
    let kk = codec::copy(&k.as_slice()[0..16]);
    let vv = codec::copy(&v.as_slice()[0..12]);
    assert(kk@ =~= k@.take(16));
    assert(vv@ =~= v@.take(12));
    let none: Vec<u8> = Vec::new();
    assert(none@ =~= Seq::empty());
    aead::open(AeadKind::Aes128Gcm, kk.as_slice(), vv.as_slice(), none.as_slice(), c)
}

fn seal_answer_part(s: &ClientSession, key_salt: &str, iv_salt: &str, d: &[u8]) -> (r: Vec<u8>)
    requires
        d@.len() <= aead::MAX_INPUT,
    ensures
        r@ == answer_sealed(*s, key_salt@, iv_salt@, d@),
        r@.len() == d@.len() + 16,
        answer_opened(*s, key_salt@, iv_salt@, r@) == Some(d@),
{
    let k = kdf::vmess_kdf_1_one_shot(s.response_body_key.as_slice(), key_salt);
    let v = kdf::vmess_kdf_1_one_shot(s.response_body_iv.as_slice(), iv_salt);
    let kk = codec::copy(&k.as_slice()[0..16]);
    let vv = codec::copy(&v.as_slice()[0..12]);
    assert(kk@ =~= k@.take(16));
    assert(vv@ =~= v@.take(12));
    let none: Vec<u8> = Vec::new();
    assert(none@ =~= Seq::empty());
    aead::seal(AeadKind::Aes128Gcm, kk.as_slice(), vv.as_slice(), none.as_slice(), d)
}

/// The head of a server's answer: the mark of the session.
pub open spec fn answer_head(s: ClientSession) -> Seq<u8> {
    answer_sealed(
        s,
        kdf::KDF_SALT_CONST_AEAD_RESP_HEADER_LEN_KEY@,
        kdf::KDF_SALT_CONST_AEAD_RESP_HEADER_LEN_IV@,
        seq![0u8, 4u8],
    ) + answer_sealed(
        s,
        kdf::KDF_SALT_CONST_AEAD_RESP_HEADER_PAYLOAD_KEY@,
        kdf::KDF_SALT_CONST_AEAD_RESP_HEADER_PAYLOAD_IV@,
        seq![s.response_header, 0u8, 0u8, 0u8],
    )
}

pub fn encode_aead_response(s: &ClientSession) -> (r: Vec<u8>)
    ensures
        r@ == answer_head(*s),
        r@.len() == 38,
        answer_opened(
            *s,
            kdf::KDF_SALT_CONST_AEAD_RESP_HEADER_LEN_KEY@,
            kdf::KDF_SALT_CONST_AEAD_RESP_HEADER_LEN_IV@,
            r@.take(18),
        ) == Some(seq![0u8, 4u8]),
        answer_opened(
            *s,
            kdf::KDF_SALT_CONST_AEAD_RESP_HEADER_PAYLOAD_KEY@,
            kdf::KDF_SALT_CONST_AEAD_RESP_HEADER_PAYLOAD_IV@,
            r@.skip(18),
        ) == Some(seq![s.response_header, 0u8, 0u8, 0u8]),
{
    let len: [u8; 2] = [0, 4];
    let data: [u8; 4] = [s.response_header, 0, 0, 0];
    assert(len@ =~= seq![0u8, 4u8]);
    assert(data@ =~= seq![s.response_header, 0u8, 0u8, 0u8]);
    let a = seal_answer_part(
        s,
        kdf::KDF_SALT_CONST_AEAD_RESP_HEADER_LEN_KEY,
        kdf::KDF_SALT_CONST_AEAD_RESP_HEADER_LEN_IV,
        len.as_slice(),
    );
    let b = seal_answer_part(
        s,
        kdf::KDF_SALT_CONST_AEAD_RESP_HEADER_PAYLOAD_KEY,
        kdf::KDF_SALT_CONST_AEAD_RESP_HEADER_PAYLOAD_IV,
        data.as_slice(),
    );
    let ghost ga = a@;
    let mut out = a;
    codec::append(&mut out, b.as_slice());
    proof {
        assert(out@.take(18) =~= ga);
        assert(out@.skip(18) =~= b@);
    }
    out
}

// ---- laws ----
/// The request that is written is the one that is read: session, port, cipher
/// and host come back.
pub proof fn law_request_reads_back(
    s: ClientSession,
    security: u8,
    port: u16,
    addr: Seq<u8>,
    padding: Seq<u8>,
)
    requires
        security < 16,
        padding.len() < 16,
        addr.len() >= 2,
    ensures
        ({
            let p = request_plain(s, security, port, addr, padding);
            &&& p.len() >= 42
            &&& p[0] == 1
            &&& p.subrange(1, 17) == s.request_body_iv@
            &&& p.subrange(17, 33) == s.request_body_key@
            &&& p[33] == s.response_header
            &&& p[35] & 0x0f == security
            &&& codec::be16(p[38], p[39]) == port
            &&& p.skip(40).take(addr.len() as int) == addr
        }),
{
    let h = request_head(s, security, port, addr, padding);
    let p = request_plain(s, security, port, addr, padding);
    codec::law_be16_reads_back(port as int);
    let b = codec::be16_bytes(port as int);
    assert(p[38] == b[0] && p[39] == b[1]);
    assert(p.subrange(1, 17) =~= s.request_body_iv@);
    assert(p.subrange(17, 33) =~= s.request_body_key@);
    let n = (padding.len() * 16) as u8;
    assert(n % 16 == 0);
    assert((n | security) & 0x0f == security) by (bit_vector)
        requires
            n % 16 == 0,
            security < 16,
    ;
    assert(p.skip(40).take(addr.len() as int) =~= addr);
}

/// The FNV-1a hash begins with its offset; each byte is mixed in by exclusive or, and
/// the prime 16777619 multiplies, in 32 bits.
pub proof fn law_fnv_steps(b: Seq<u8>, x: u8)
    ensures
        fnv(Seq::empty()) == 2166136261,
        fnv(b.push(x)) == ((fnv(b) ^ (x as u32)) * 16777619) % 0x1_0000_0000,
{
    assert(b.push(x).drop_last() =~= b);
}

/// The layout of a request: version 1, the vector and the key of the body, the mark of the
/// answer, the options 0x0D, the length of the padding and the cipher in one byte, a zero,
/// the command 1 for TCP, the port, the address, the padding, and the FNV-1a hash of all
/// that in the last four bytes; numbers have their high byte first.
pub proof fn law_request_layout(
    s: ClientSession,
    security: u8,
    port: u16,
    addr: Seq<u8>,
    padding: Seq<u8>,
)
    requires
        security < 16,
        padding.len() < 16,
    ensures
        ({
            let p = request_plain(s, security, port, addr, padding);
            let n = p.len() as int;
            let a = 40 + addr.len() as int;
            let sum = p[n - 4] * 0x1000000 + p[n - 3] * 0x10000 + p[n - 2] * 0x100 + p[n - 1];
            &&& n == a + padding.len() + 4
            &&& p[0] == 1
            &&& p.subrange(1, 17) == s.request_body_iv@
            &&& p.subrange(17, 33) == s.request_body_key@
            &&& p[33] == s.response_header
            &&& p[34] == 0x0D
            &&& p[35] == padding.len() * 16 + security
            &&& p[36] == 0
            &&& p[37] == 1
            &&& p[38] * 256 + p[39] == port
            &&& p.subrange(40, a) == addr
            &&& p.subrange(a, n - 4) == padding
            &&& sum == fnv(p.take(n - 4))
        }),
{
    let h = request_head(s, security, port, addr, padding);
    let p = request_plain(s, security, port, addr, padding);
    let n = p.len() as int;
    let a = 40 + addr.len() as int;
    codec::law_high_byte_first(port as int);
    codec::law_high_byte_first(fnv(h) as int);
    let b = codec::be16_bytes(port as int);
    let c = codec::be32_bytes(fnv(h) as int);
    assert(h.len() == a + padding.len());
    assert(p[38] == b[0] && p[39] == b[1]);
    assert(p[n - 4] == c[0] && p[n - 3] == c[1] && p[n - 2] == c[2] && p[n - 1] == c[3]);
    assert(p.subrange(1, 17) =~= s.request_body_iv@);
    assert(p.subrange(17, 33) =~= s.request_body_key@);
    assert(p.subrange(40, a) =~= addr);
    assert(p.subrange(a, n - 4) =~= padding);
    assert(p.take(n - 4) =~= h);
    let k = (padding.len() * 16) as u8;
    assert(k | security == k + security) by (bit_vector)
        requires
            k % 16 == 0,
            security < 16,
    ;
}

/// The key of commands is the MD5 of the user's id and the text
/// c48619fe-8f02-49e0-b9e9-edf763e17e21 behind it.
pub proof fn law_command_key(id: Seq<u8>)
    ensures
        command_key(id) == hash::md5_digest(
            id + vstd::utf8::encode_utf8("c48619fe-8f02-49e0-b9e9-edf763e17e21"@),
        ),
{
}

/// The id of a head is one block under AES-128: the time in eight bytes, four random
/// bytes, and the CRC-32 of these twelve.
pub proof fn law_auth_id_layout(key: Seq<u8>, now: u64, id: Seq<u8>, block: Seq<u8>)
    requires
        id.len() == 4,
        block.len() == 16,
        block.subrange(0, 8) == codec::be64_bytes(now as int),
        block.subrange(8, 12) == id,
        block[12] * 0x1000000 + block[13] * 0x10000 + block[14] * 0x100 + block[15] == crc32_of(
            block.take(12),
        ),
    ensures
        auth_id(key, now, id) == aes128_block(
            kdf::derived1(key, "AES Auth ID Encryption"@).take(16),
            block,
        ),
{
    let b = codec::be64_bytes(now as int) + id;
    assert(b =~= block.take(12)) by {
        assert forall|i: int| 0 <= i < 12 implies b[i] == block[i] by {
            if i < 8 {
                assert(block.subrange(0, 8)[i] == block[i]);
            } else {
                assert(block.subrange(8, 12)[i - 8] == block[i]);
            }
        }
    }
    codec::law_written_as_read(block[12], block[13], block[14], block[15]);
    assert(block =~= b + seq![block[12], block[13], block[14], block[15]]);
}

/// The layout of an authenticated head: its id, its length, a nonce and the request.
/// Length and request are sealed by AES-128-GCM and bound to the id; their keys
/// have 16 and their vectors 12 bytes of what is derived under salts of their own.
pub proof fn law_head_layout(
    key: Seq<u8>,
    id: Seq<u8>,
    nonce: Seq<u8>,
    data: Seq<u8>,
    length: Seq<u8>,
)
    requires
        data.len() < 0x1_0000,
        length.len() == 2,
        length[0] * 256 + length[1] == data.len(),
    ensures
        aead_head(key, id, nonce, data) == id + aead::aes128_gcm_sealed(
            kdf::derived3(key, "VMess Header AEAD Key_Length"@, id, nonce).take(16),
            kdf::derived3(key, "VMess Header AEAD Nonce_Length"@, id, nonce).take(12),
            id,
            length,
        ) + nonce + aead::aes128_gcm_sealed(
            kdf::derived3(key, "VMess Header AEAD Key"@, id, nonce).take(16),
            kdf::derived3(key, "VMess Header AEAD Nonce"@, id, nonce).take(12),
            id,
            data,
        ),
{
    codec::law_high_byte_first(data.len() as int);
    assert(codec::be16_bytes(data.len() as int) =~= length);
}

/// The head of an answer: its length, four, and the mark of the session with three
/// zeros; keys come of the answer's key and vectors of its vector.
pub proof fn law_answer_layout(s: ClientSession)
    ensures
        answer_head(s) == aead::aes128_gcm_sealed(
            kdf::derived1(s.response_body_key@, "AEAD Resp Header Len Key"@).take(16),
            kdf::derived1(s.response_body_iv@, "AEAD Resp Header Len IV"@).take(12),
            Seq::empty(),
            seq![0u8, 4u8],
        ) + aead::aes128_gcm_sealed(
            kdf::derived1(s.response_body_key@, "AEAD Resp Header Key"@).take(16),
            kdf::derived1(s.response_body_iv@, "AEAD Resp Header IV"@).take(12),
            Seq::empty(),
            seq![s.response_header, 0u8, 0u8, 0u8],
        ),
{
}

/// The keys of an answer are the first half of the SHA-256 of those of the request, or
/// their MD5 where the head is not authenticated.
pub proof fn law_answer_keys(s: ClientSession, key: Seq<u8>, iv: Seq<u8>, mark: u8, aead: bool)
    requires
        session_with(s, key, iv, mark, aead),
    ensures
        s.request_body_key@ == key,
        s.request_body_iv@ == iv,
        s.response_header == mark,
        aead ==> s.response_body_key@ == hash::sha256_digest(key).subrange(0, 16)
            && s.response_body_iv@ == hash::sha256_digest(iv).subrange(0, 16),
        !aead ==> s.response_body_key@ == hash::md5_digest(key) && s.response_body_iv@
            == hash::md5_digest(iv),
{
}

/// A request without authenticated head begins with the HMAC of its time under the user's
/// id, and goes on with the request under AES-128-CFB; its time is at most half a minute
/// off, and the vector is the MD5 of four copies of it.
pub proof fn law_legacy_request_layout(
    id: Seq<u8>,
    addr: Seq<u8>,
    port: u16,
    security: u8,
    s: ClientSession,
    now: u64,
    draw: Draw,
)
    requires
        !s.aead,
        30 <= now < 0x1_0000_0000,
    ensures
        ({
            let t = shifted(now, draw.shift);
            let b = codec::be64_bytes(t as int);
            &&& now - 30 <= t < now + 30
            &&& request_bytes(id, addr, port, security, s, now, draw) == hmac_md5_of(id, b)
                + aes128_cfb_encrypted(
                hash::md5_digest(
                    id + vstd::utf8::encode_utf8("c48619fe-8f02-49e0-b9e9-edf763e17e21"@),
                ),
                hash::md5_digest(b + b + b + b),
                request_plain(s, security, port, addr, draw.padding@),
            )
        }),
{
}

/// A request with authenticated head is sealed under the key of commands of its user, with
/// an id of its time.
pub proof fn law_sealed_request_layout(
    id: Seq<u8>,
    addr: Seq<u8>,
    port: u16,
    security: u8,
    s: ClientSession,
    now: u64,
    draw: Draw,
)
    requires
        s.aead,
    ensures
        request_bytes(id, addr, port, security, s, now, draw) == aead_head(
            command_key(id),
            auth_id(command_key(id), now, draw.id@),
            draw.nonce@,
            request_plain(s, security, port, addr, draw.padding@),
        ),
{
}

/// What a server reads of an address: four octets behind a one, a name behind a three and
/// its length, sixteen octets behind a four.
pub proof fn law_host_is_read(o: Seq<u8>, s: Seq<u8>, n: Seq<u8>, rest: Seq<u8>)
    requires
        o.len() == 4,
        s.len() == 16,
        n.len() < 256,
    ensures
        host_of(seq![1u8] + o + rest) == Ok::<(HostView, int), Seq<char>>(
            (HostView::Address(ip::IpView::V4(o)), 5),
        ),
        host_of(seq![4u8] + s + rest) == Ok::<(HostView, int), Seq<char>>(
            (HostView::Address(ip::IpView::V6(s)), 17),
        ),
        host_of(seq![3u8, n.len() as u8] + n + rest) == Ok::<(HostView, int), Seq<char>>(
            (HostView::Name(codec::utf8_text(n)), 2 + n.len() as int),
        ),
{
    let a = seq![1u8] + o + rest;
    let b = seq![4u8] + s + rest;
    let c = seq![3u8, n.len() as u8] + n + rest;
    assert(a[0] == 1 && b[0] == 4 && c[0] == 3 && c[1] == n.len());
    assert(a.subrange(1, 5) =~= o);
    assert(b.subrange(1, 17) =~= s);
    assert(c.subrange(2, 2 + n.len() as int) =~= n);
}

/// What a server reads of a request is what the client put into it: the keys, the mark of
/// the answer, the cipher, the port and the host.
pub proof fn law_request_is_read(
    s: ClientSession,
    security: u8,
    port: u16,
    o: Seq<u8>,
    padding: Seq<u8>,
    r: Result<(ClientSession, TargetHost, u16, u8), ProxyError>,
)
    requires
        security < 16,
        padding.len() < 16,
        o.len() == 4,
        read_result(r, request_plain(s, security, port, seq![1u8] + o, padding)),
    ensures
        r is Ok,
        (r->Ok_0).0.request_body_key@ == s.request_body_key@,
        (r->Ok_0).0.request_body_iv@ == s.request_body_iv@,
        (r->Ok_0).0.response_header == s.response_header,
        (r->Ok_0).1@ == HostView::Address(ip::IpView::V4(o)),
        (r->Ok_0).2 == port,
        (r->Ok_0).3 == security,
{
    let addr = seq![1u8] + o;
    let p = request_plain(s, security, port, addr, padding);
    law_request_layout(s, security, port, addr, padding);
    let tail = p.skip(40);
    assert(tail.take(5) =~= p.subrange(40, 45));
    let rest = tail.skip(5);
    assert(tail =~= addr + rest);
    assert(addr + rest =~= seq![1u8] + o + rest);
    law_host_is_read(o, Seq::new(16, |i: int| 0u8), Seq::empty(), rest);
    let x = p[35];
    let k = padding.len() as u8;
    assert(x == k * 16 + security);
    lemma_low_bits(k, security, x);
}

proof fn lemma_low_bits(k: u8, security: u8, x: u8)
    requires
        k < 16,
        security < 16,
        x == k * 16 + security,
    ensures
        x & 0x0f == security,
{
    assert(x & 0x0f == security) by (bit_vector)
        requires
            k < 16,
            security < 16,
            x == k * 16 + security,
    ;
}

/// A part of an authenticated head is opened with the key and the vector that sealed it.
pub proof fn law_head_is_opened(
    key: Seq<u8>,
    k: Seq<char>,
    v: Seq<char>,
    id: Seq<u8>,
    nonce: Seq<u8>,
    data: Seq<u8>,
)
    ensures
        head_opened(key, k, v, id, nonce, data) == aead::aes128_gcm_opened(
            kdf::derived3(key, k, id, nonce).take(16),
            kdf::derived3(key, v, id, nonce).take(12),
            id,
            data,
        ),
{
}

} // verus!
