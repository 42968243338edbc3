//! TLS records: their protection, reading and writing.

use vstd::prelude::*;

use crate::codec;
use crate::proxynet::aead;
use crate::proxynet::aead::AeadKind;
use crate::proxynet::error::{ProxyError, ProxyErrorCode};
use crate::proxynet::outgoing;
use crate::proxynet::outgoing::Outgoing;
use crate::proxynet::reality::auth;
use crate::proxynet::reality::schedule;
use crate::proxynet::reality::schedule::HashKind;
use crate::text;

verus! {

pub const MAX_PLAINTEXT: usize = 16384;

pub const MAX_CIPHERTEXT: usize = 16640;

pub const TAG_LEN: usize = 16;

pub const NONCE_LEN: usize = 12;

pub const HEADER_LEN: usize = 5;

#[derive(Clone, Copy, Debug, PartialEq, Eq, Structural)]
pub enum ContentType {
    ChangeCipherSpec,
    Alert,
    Handshake,
    ApplicationData,
}

impl ContentType {
    /// The number of a type.
    pub open spec fn code(self) -> u8 {
        match self {
            ContentType::ChangeCipherSpec => 20,
            ContentType::Alert => 21,
            ContentType::Handshake => 22,
            ContentType::ApplicationData => 23,
        }
    }

    pub fn to_u8(self) -> (r: u8)
        ensures
            r == self.code(),
    {
        match self {
            ContentType::ChangeCipherSpec => 20,
            ContentType::Alert => 21,
            ContentType::Handshake => 22,
            ContentType::ApplicationData => 23,
        }
    }

    pub fn from_u8(v: u8) -> (r: Option<Self>)
        ensures
            r == type_of(v),
    {
        if v == 20 {
            Some(ContentType::ChangeCipherSpec)
        } else if v == 21 {
            Some(ContentType::Alert)
        } else if v == 22 {
            Some(ContentType::Handshake)
        } else if v == 23 {
            Some(ContentType::ApplicationData)
        } else {
            None
        }
    }
}

/// The type with a number.
pub open spec fn type_of(v: u8) -> Option<ContentType> {
    if v == 20 {
        Some(ContentType::ChangeCipherSpec)
    } else if v == 21 {
        Some(ContentType::Alert)
    } else if v == 22 {
        Some(ContentType::Handshake)
    } else if v == 23 {
        Some(ContentType::ApplicationData)
    } else {
        None
    }
}

#[derive(Clone, Copy, Debug, PartialEq, Eq, Structural)]
pub struct CipherSuite {
    pub hash: HashKind,
    pub key_len: usize,
    pub chacha: bool,
}

/// The suite with a number.
pub open spec fn suite_of(id: int) -> Option<CipherSuite> {
    if id == 0x1301 {
        Some(CipherSuite { hash: HashKind::Sha256, key_len: 16, chacha: false })
    } else if id == 0x1302 {
        Some(CipherSuite { hash: HashKind::Sha384, key_len: 32, chacha: false })
    } else if id == 0x1303 {
        Some(CipherSuite { hash: HashKind::Sha256, key_len: 32, chacha: true })
    } else {
        None
    }
}

impl CipherSuite {
    pub open spec fn wf(self) -> bool {
        self.key_len == 32 || self.key_len == 16 && !self.chacha
    }

    pub open spec fn kind(self) -> AeadKind {
        if self.chacha {
            AeadKind::ChaCha20Poly1305
        } else if self.key_len == 16 {
            AeadKind::Aes128Gcm
        } else {
            AeadKind::Aes256Gcm
        }
    }

    pub fn from_id(id: u16) -> (r: Option<Self>)
        ensures
            r == suite_of(id as int),
            r is Some ==> r->0.wf(),
    {
        if id == 0x1301 {
            Some(CipherSuite { hash: HashKind::Sha256, key_len: 16, chacha: false })
        } else if id == 0x1302 {
            Some(CipherSuite { hash: HashKind::Sha384, key_len: 32, chacha: false })
        } else if id == 0x1303 {
            Some(CipherSuite { hash: HashKind::Sha256, key_len: 32, chacha: true })
        } else {
            None
        }
    }
}

// ---- protection ----
/// The keys of one direction, and the number of its next record.
#[derive(Debug)]
pub struct RecordProtection {
    pub iv: [u8; 12],
    pub kind: AeadKind,
    pub key: Vec<u8>,
    pub seq: u64,
}

#[verifier::ext_equal]
pub struct ProtView {
    pub iv: Seq<u8>,
    pub kind: AeadKind,
    pub key: Seq<u8>,
    pub seq: u64,
}

impl View for RecordProtection {
    type V = ProtView;

    open spec fn view(&self) -> ProtView {
        ProtView { iv: self.iv@, kind: self.kind, key: self.key@, seq: self.seq }
    }
}

/// The protection of a traffic secret.
pub open spec fn protection_of(suite: CipherSuite, traffic: Seq<u8>) -> ProtView {
    ProtView {
        iv: schedule::traffic_iv(suite.hash, traffic, 12),
        kind: suite.kind(),
        key: schedule::traffic_key(suite.hash, traffic, suite.key_len as nat),
        seq: 0,
    }
}

/// The number behind one; the highest is followed by zero.
pub open spec fn next_seq(s: u64) -> u64 {
    if s == u64::MAX {
        0
    } else {
        (s + 1) as u64
    }
}

pub open spec fn advanced(p: ProtView) -> ProtView {
    ProtView { seq: next_seq(p.seq), ..p }
}

/// What a record's content becomes.
pub open spec fn protected(p: ProtView, header: Seq<u8>, plain: Seq<u8>) -> Seq<u8> {
    aead::sealed(p.kind, p.key, schedule::record_nonce(p.iv, p.seq), header, plain)
}

/// The content of a record, where it was made with the keys and the number.
pub open spec fn unprotected(p: ProtView, header: Seq<u8>, c: Seq<u8>) -> Option<Seq<u8>> {
    if c.len() < 16 {
        None
    } else {
        aead::opened(p.kind, p.key, schedule::record_nonce(p.iv, p.seq), header, c)
    }
}

impl RecordProtection {
    pub open spec fn wf(self) -> bool {
        self.key@.len() == self.kind.key_size()
    }

    pub fn new(suite: CipherSuite, traffic: &[u8]) -> (r: Self)
        requires
            suite.wf(),
            traffic@.len() >= suite.hash.size(),
        ensures
            r.wf(),
            r@ == protection_of(suite, traffic@),
    {
        let mut key: Vec<u8> = Vec::new();
        let mut key32: [u8; 32] = [0u8; 32];
        let mut key16: [u8; 16] = [0u8; 16];
        let mut iv: [u8; 12] = [0u8; 12];
        let kind = if suite.chacha {
            AeadKind::ChaCha20Poly1305
        } else if suite.key_len == 16 {
            AeadKind::Aes128Gcm
        } else {
            AeadKind::Aes256Gcm
        };
        if suite.key_len == 16 {
            schedule::traffic_keys(suite.hash, traffic, &mut key16, &mut iv);
            codec::append(&mut key, key16.as_slice());
            assert(key@ =~= key16@);
        } else {
            schedule::traffic_keys(suite.hash, traffic, &mut key32, &mut iv);
            codec::append(&mut key, key32.as_slice());
            assert(key@ =~= key32@);
        }
        RecordProtection { iv, kind, key, seq: 0 }
    }

    fn nonce(&self) -> (r: [u8; 12])
        ensures
            r@ == schedule::record_nonce(self.iv@, self.seq),
    {
        let mut n: [u8; 12] = [0u8; 12];
        schedule::build_nonce(&mut n, self.iv.as_slice(), self.seq);
        n
    }

    fn count(&mut self)
        ensures
            final(self)@ == advanced(old(self)@),
            final(self).wf() == old(self).wf(),
    {
        self.seq = if self.seq == u64::MAX {
            0
        } else {
            self.seq + 1
        };
    }

    /// Protects the content of the next record; the other side gets it back.
    pub fn protect(&mut self, plaintext: &[u8], header: &[u8]) -> (r: Vec<u8>)
        requires
            old(self).wf(),
            plaintext@.len() <= aead::MAX_INPUT,
            header@.len() <= aead::MAX_INPUT,
        ensures
            final(self).wf(),
            final(self)@ == advanced(old(self)@),
            r@ == protected(old(self)@, header@, plaintext@),
            r@.len() == plaintext@.len() + 16,
            unprotected(old(self)@, header@, r@) == Some(plaintext@),
    {
        let n: [u8; 12] = self.nonce();
        let r = aead::seal(self.kind, self.key.as_slice(), n.as_slice(), header, plaintext);
        self.count();
        r
    }

    /// The content of the next record.
    pub fn unprotect(&mut self, c: &[u8], header: &[u8]) -> (r: Result<Vec<u8>, ProxyError>)
        requires
            old(self).wf(),
            c@.len() <= aead::MAX_INPUT,
            header@.len() <= aead::MAX_INPUT,
        ensures
            final(self).wf(),
            final(self)@ == advanced(old(self)@),
            match unprotected(old(self)@, header@, c@) {
                Some(p) => r is Ok && r->Ok_0@ == p && p.len() + 16 == c@.len(),
                None => r is Err && r->Err_0.says(
                    ProxyErrorCode::AuthFailed,
                    "A TLS record from the peer failed authentication, so it was not produced under this session's keys."@,
                ),
            },
    {
        let n: [u8; 12] = self.nonce();
        let mut p: Option<Vec<u8>> = None;
        if c.len() >= TAG_LEN {
            p = aead::open(self.kind, self.key.as_slice(), n.as_slice(), header, c);
        }
        self.count();
        match p {
            Some(b) => Ok(b),
            None => Err(
                auth::auth_err(
                    "A TLS record from the peer failed authentication, so it was not produced under this session's keys.",
                ),
            ),
        }
    }
}

// ---- reading ----
#[derive(Debug)]
pub struct Record {
    pub ty: ContentType,
    pub payload: Vec<u8>,
}

/// What was read, and the keys to read with.
#[verifier::ext_equal]
pub struct RecView {
    pub inbound: Seq<u8>,
    pub read: Option<ProtView>,
}

pub enum RecStep {
    More,
    Record(ContentType, Seq<u8>),
    Fail(ProxyErrorCode, Seq<char>),
}

/// The position of the last byte that is not zero.
pub open spec fn last_nonzero(s: Seq<u8>) -> Option<int>
    decreases s.len(),
{
    if s.len() == 0 {
        None
    } else if s.last() != 0 {
        Some(s.len() - 1)
    } else {
        last_nonzero(s.drop_last())
    }
}

pub open spec fn hs_fail(m: Seq<char>) -> RecStep {
    RecStep::Fail(ProxyErrorCode::InvalidResponse, m)
}

/// The type and the content of what a protected record holds: the type stands
/// behind the content, and zeros behind the type.
pub open spec fn inner_record(inner: Seq<u8>) -> RecStep {
    match last_nonzero(inner) {
        None => hs_fail("The peer sent a TLS record with no content type."@),
        Some(i) => match type_of(inner[i]) {
            None => hs_fail("bad inner type"@),
            Some(t) => RecStep::Record(t, inner.take(i)),
        },
    }
}

/// What is told of a record that is too long.
pub open spec fn too_long_text(n: nat) -> Seq<char> {
    "The peer sent a "@ + text::dec(n)
        + "-byte TLS record, over the 16640-byte limit of RFC 8446."@
}

/// The next record of what was read.
pub open spec fn record_step(v: RecView) -> (RecView, RecStep) {
    let b = v.inbound;
    if b.len() < 5 {
        (v, RecStep::More)
    } else {
        let n = codec::be16(b[3], b[4]);
        if n > MAX_CIPHERTEXT {
            (v, hs_fail(too_long_text(n as nat)))
        } else if b.len() < 5 + n {
            (v, RecStep::More)
        } else {
            match type_of(b[0]) {
                None => (v, hs_fail("bad content type"@)),
                Some(t) => {
                    let body = b.subrange(5, 5 + n);
                    let rest = RecView { inbound: b.skip(5 + n), read: v.read };
                    if v.read is None || t == ContentType::ChangeCipherSpec {
                        (rest, RecStep::Record(t, body))
                    } else if n < 16 {
                        (
                            rest,
                            hs_fail(
                                "The peer sent an encrypted TLS record shorter than its own tag."@,
                            ),
                        )
                    } else {
                        let next = RecView { read: Some(advanced(v.read->0)), ..rest };
                        match unprotected(v.read->0, b.take(5), body) {
                            None => (
                                next,
                                RecStep::Fail(
                                    ProxyErrorCode::AuthFailed,
                                    "A TLS record from the peer failed authentication, so it was not produced under this session's keys."@,
                                ),
                            ),
                            Some(inner) => (next, inner_record(inner)),
                        }
                    }
                },
            }
        }
    }
}

pub proof fn lemma_record_taken(v: RecView)
    ensures
        record_step(v).1 is Record ==> record_step(v).0.inbound.len() + 5 <= v.inbound.len(),
{
}

// ---- writing ----
/// The head of a record.
pub open spec fn record_head(ty: u8, minor: u8, n: int) -> Seq<u8> {
    seq![ty, 3u8, minor] + codec::be16_bytes(n)
}

/// A record with a payload: as it is, or protected.
pub open spec fn record_bytes(write: Option<ProtView>, ty: ContentType, p: Seq<u8>) -> Seq<u8> {
    match write {
        None => record_head(
            ty.code(),
            if p.len() > 0 && ty == ContentType::Handshake {
                1
            } else {
                3
            },
            p.len() as int,
        ) + p,
        Some(k) => {
            let h = record_head(23, 3, p.len() as int + 17);
            h + protected(k, h, p.push(ty.code()))
        },
    }
}

pub open spec fn written(write: Option<ProtView>) -> Option<ProtView> {
    match write {
        None => None,
        Some(k) => Some(advanced(k)),
    }
}

pub open spec fn prot_view(o: Option<RecordProtection>) -> Option<ProtView> {
    match o {
        None => None,
        Some(p) => Some(p@),
    }
}

fn build_head(ty: u8, minor: u8, n: usize) -> (r: Vec<u8>)
    requires
        n <= 0xffff,
    ensures
        r@ == record_head(ty, minor, n as int),
        r@.len() == 5,
{
    let mut h: Vec<u8> = Vec::new();
    h.push(ty);
    h.push(3);
    h.push(minor);
    assert(h@ =~= seq![ty, 3u8, minor]);
    codec::push_be16(&mut h, n as u16);
    h
}

/// A stream of records.
#[derive(Debug)]
pub struct TlsRecordStream {
    pub inbound: Vec<u8>,
    pub out: Outgoing,
    pub write: Option<RecordProtection>,
    pub read: Option<RecordProtection>,
}

impl View for TlsRecordStream {
    type V = RecView;

    /// What was read.
    open spec fn view(&self) -> RecView {
        RecView { inbound: self.inbound@, read: prot_view(self.read) }
    }
}

impl TlsRecordStream {
    pub open spec fn wf(self) -> bool {
        &&& self.out.wf()
        &&& (self.write is Some ==> self.write->0.wf())
        &&& (self.read is Some ==> self.read->0.wf())
    }

    pub open spec fn same_uplink(self, o: TlsRecordStream) -> bool {
        self.write == o.write && self.out == o.out
    }

    pub fn new() -> (r: Self)
        ensures
            r.wf(),
            r@ == (RecView { inbound: Seq::empty(), read: None }),
            r.write is None,
            r.out.frame@.len() == 0,
    {
        let r = TlsRecordStream {
            inbound: Vec::new(),
            out: Outgoing::new(),
            write: None,
            read: None,
        };
        assert(r@.inbound =~= Seq::empty());
        r
    }

    /// The next record of what was read, if it is whole.
    pub fn try_read_buffered(&mut self) -> (r: Result<Option<Record>, ProxyError>)
        requires
            old(self).wf(),
        ensures
            final(self).wf(),
            final(self).same_uplink(*old(self)),
            final(self)@ == record_step(old(self)@).0,
            match record_step(old(self)@).1 {
                RecStep::More => r is Ok && r->Ok_0 is None,
                RecStep::Record(t, p) => r is Ok && r->Ok_0 is Some && r->Ok_0->0.ty == t
                    && r->Ok_0->0.payload@ == p,
                RecStep::Fail(c, m) => r is Err && r->Err_0.says(c, m),
            },
    {
        let ghost v = self@;
        if self.inbound.len() < HEADER_LEN {
            return Ok(None);
        }
        let n: usize = codec::read_be16(self.inbound[3], self.inbound[4]) as usize;
        if n > MAX_CIPHERTEXT {
            let mut m = text::chars_of("The peer sent a ");
            let d = text::format_dec(n as u64);
            text::append(&mut m, d.as_slice());
            text::append_str(
                &mut m,
                "-byte TLS record, over the 16640-byte limit of RFC 8446.",
            );
            return Err(auth::hs_error(&m));
        }
        if self.inbound.len() < HEADER_LEN + n {
            return Ok(None);
        }
        let ty = match ContentType::from_u8(self.inbound[0]) {
            Some(t) => t,
            None => {
                return Err(auth::hs_err("bad content type"));
            },
        };
        let head = codec::copy(&self.inbound.as_slice()[0..5]);
        let body = codec::copy(&self.inbound.as_slice()[5..5 + n]);
        assert(head@ =~= v.inbound.take(5));
        assert(body@ =~= v.inbound.subrange(5, 5 + n));
        let _gone = codec::take_front(&mut self.inbound, 5 + n);
        let is_spec = match ty {
            ContentType::ChangeCipherSpec => true,
            _ => false,
        };
        if self.read.is_none() || is_spec {
            return Ok(Some(Record { ty, payload: body }));
        }
        if n < TAG_LEN {
            return Err(
                auth::hs_err("The peer sent an encrypted TLS record shorter than its own tag."),
            );
        }
        let mut keys = match self.read.take() {
            Some(k) => k,
            None => {
                return Ok(None);
            },
        };
        let opened = keys.unprotect(body.as_slice(), head.as_slice());
        self.read = Some(keys);
        match opened {
            Err(e) => Err(e),
            Ok(inner) => match find_last_nonzero(inner.as_slice()) {
                None => Err(auth::hs_err("The peer sent a TLS record with no content type.")),
                Some(i) => match ContentType::from_u8(inner[i]) {
                    None => Err(auth::hs_err("bad inner type")),
                    Some(t) => {
                        let payload = codec::copy(&inner.as_slice()[0..i]);
                        assert(payload@ =~= inner@.take(i as int));
                        Ok(Some(Record { ty: t, payload }))
                    },
                },
            },
        }
    }

    /// Takes bytes of the stream below.
    pub fn push_inbound(&mut self, data: &[u8])
        ensures
            final(self)@ == (RecView { inbound: old(self).inbound@ + data@, ..old(self)@ }),
            final(self).same_uplink(*old(self)),
            final(self).read == old(self).read,
    {
        codec::append(&mut self.inbound, data);
    }

    /// Takes what is no whole record yet.
    pub fn steal_inbound_leftover(&mut self) -> (r: Vec<u8>)
        ensures
            r@ == old(self).inbound@,
            final(self)@ == (RecView { inbound: Seq::empty(), ..old(self)@ }),
            final(self).same_uplink(*old(self)),
            final(self).read == old(self).read,
    {
        let r = codec::copy(self.inbound.as_slice());
        self.inbound = Vec::new();
        assert(self@.inbound =~= Seq::empty());
        r
    }

    /// A record with a payload; the other side, with the same keys, reads it.
    pub fn stage(&mut self, ty: ContentType, payload: &[u8]) -> (r: Vec<u8>)
        requires
            old(self).wf(),
            payload@.len() <= MAX_PLAINTEXT,
        ensures
            final(self).wf(),
            final(self)@ == old(self)@,
            final(self).read == old(self).read,
            final(self).out == old(self).out,
            prot_view(final(self).write) == written(prot_view(old(self).write)),
            r@ == record_bytes(prot_view(old(self).write), ty, payload@),
            (old(self).write is None || ty != ContentType::ChangeCipherSpec) ==> record_step(
                RecView { inbound: r@, read: prot_view(old(self).write) },
            ) == (
                RecView {
                    inbound: Seq::empty(),
                    read: written(prot_view(old(self).write)),
                },
                RecStep::Record(ty, payload@),
            ),
    {
        let n: usize = payload.len();
        let ghost w = prot_view(self.write);
        let code: u8 = ty.to_u8();
        let mut keys = match self.write.take() {
            None => {
                let minor: u8 = match ty {
                    ContentType::Handshake => if n > 0 {
                        1
                    } else {
                        3
                    },
                    _ => 3,
                };
                let mut out = build_head(code, minor, n);
                let ghost h = out@;
                codec::append(&mut out, payload);
                proof {
                    lemma_head_reads(code, minor, n as int, out@, payload@);
                }
                return out;
            },
            Some(k) => k,
        };
        let mut plain = codec::copy(payload);
        plain.push(code);
        let head = build_head(23, 3, n + 17);
        let c = keys.protect(plain.as_slice(), head.as_slice());
        self.write = Some(keys);
        let ghost h = head@;
        let mut out = head;
        codec::append(&mut out, c.as_slice());
        proof {
            lemma_head_reads(23, 3, n + 17, out@, c@);
            assert(out@.take(5) =~= h);
            assert(plain@ =~= payload@.push(code));
            assert(plain@.take(n as int) =~= payload@);
        }
        out
    }

    /// A record to send, unless its payload is too long.
    pub fn write_record(&mut self, ty: ContentType, payload: &[u8]) -> (r: Result<
        Vec<u8>,
        ProxyError,
    >)
        requires
            old(self).wf(),
        ensures
            final(self).wf(),
            final(self)@ == old(self)@,
            final(self).read == old(self).read,
            final(self).out == old(self).out,
            if payload@.len() > MAX_PLAINTEXT {
                r is Err && r->Err_0.says(ProxyErrorCode::InvalidResponse, "record too large"@)
                    && final(self).write == old(self).write
            } else {
                r is Ok && r->Ok_0@ == record_bytes(prot_view(old(self).write), ty, payload@)
                    && prot_view(final(self).write) == written(prot_view(old(self).write))
            },
    {
        if payload.len() > MAX_PLAINTEXT {
            return Err(auth::hs_err("record too large"));
        }
        Ok(self.stage(ty, payload))
    }

    /// Begins to write application data: a record of its beginning. One that is
    /// being written goes first.
    pub fn begin_write(&mut self, data: &[u8])
        requires
            old(self).wf(),
        ensures
            final(self).wf(),
            final(self)@ == old(self)@,
            final(self).read == old(self).read,
            if old(self).out.frame@.len() > 0 || data@.len() == 0 {
                *final(self) == *old(self)
            } else {
                let chunk = outgoing::at_most(data@, MAX_PLAINTEXT as int);
                &&& final(self).out.left() == record_bytes(
                    prot_view(old(self).write),
                    ContentType::ApplicationData,
                    chunk,
                )
                &&& final(self).out.carries == chunk.len()
                &&& prot_view(final(self).write) == written(prot_view(old(self).write))
                &&& record_step(
                    RecView {
                        inbound: final(self).out.left(),
                        read: prot_view(old(self).write),
                    },
                ).1 == RecStep::Record(ContentType::ApplicationData, chunk)
            },
    {
        if !self.out.is_idle() || data.len() == 0 {
            return ;
        }
        let n: usize = if data.len() <= MAX_PLAINTEXT {
            data.len()
        } else {
            MAX_PLAINTEXT
        };
        let chunk = &data[0..n];
        assert(chunk@ =~= outgoing::at_most(data@, MAX_PLAINTEXT as int));
        let r = self.stage(ContentType::ApplicationData, chunk);
        self.out.begin(r, n);
    }
}

proof fn lemma_head_reads(ty: u8, minor: u8, n: int, b: Seq<u8>, body: Seq<u8>)
    requires
        0 <= n <= MAX_CIPHERTEXT,
        body.len() == n,
        b == record_head(ty, minor, n) + body,
    ensures
        b.len() == 5 + n,
        b[0] == ty,
        codec::be16(b[3], b[4]) == n,
        b.subrange(5, 5 + n) == body,
        b.skip(5 + n) == Seq::<u8>::empty(),
{
    codec::law_be16_reads_back(n);
    let l = codec::be16_bytes(n);
    assert(b[3] == l[0] && b[4] == l[1]);
    assert(b.subrange(5, 5 + n) =~= body);
    assert(b.skip(5 + n) =~= Seq::empty());
}

fn find_last_nonzero(s: &[u8]) -> (r: Option<usize>)
    ensures
        match r {
            Some(i) => last_nonzero(s@) == Some(i as int) && i < s@.len(),
            None => last_nonzero(s@) is None,
        },
{
    let mut n: usize = s.len();
    assert(s@.take(n as int) =~= s@);
    while n > 0
        invariant
            n <= s@.len(),
            last_nonzero(s@) == last_nonzero(s@.take(n as int)),
        decreases n,
    {
        assert(s@.take(n as int).drop_last() =~= s@.take(n - 1));
        if s[n - 1] != 0 {
            return Some(n - 1);
        }
        n -= 1;
    }
    None
}

// ---- laws ----
/// Zeros behind the type of a protected record do not change what it holds.
pub proof fn law_padding_is_ignored(p: Seq<u8>, ty: ContentType, pad: nat)
    ensures
        inner_record(p.push(ty.code()) + Seq::new(pad, |i: int| 0u8)) == RecStep::Record(ty, p),
    decreases pad,
{
    let inner = p.push(ty.code()) + Seq::new(pad, |i: int| 0u8);
    if pad == 0 {
        assert(inner =~= p.push(ty.code()));
        assert(inner.take(p.len() as int) =~= p);
    } else {
        let less = p.push(ty.code()) + Seq::new((pad - 1) as nat, |i: int| 0u8);
        law_padding_is_ignored(p, ty, (pad - 1) as nat);
        assert(inner.drop_last() =~= less);
        let i = last_nonzero(less)->0;
        lemma_last_in_range(less);
        assert(inner.take(i) =~= less.take(i));
        assert(inner[i] == less[i]);
    }
}

proof fn lemma_last_in_range(s: Seq<u8>)
    ensures
        match last_nonzero(s) {
            Some(i) => 0 <= i < s.len(),
            None => true,
        },
    decreases s.len(),
{
    if s.len() > 0 && s.last() == 0 {
        lemma_last_in_range(s.drop_last());
    }
}

/// The suites of TLS 1.3: 0x1301 is AES-128-GCM with SHA-256, 0x1302 is AES-256-GCM with
/// SHA-384 and 0x1303 is ChaCha20-Poly1305 with SHA-256; no other is known.
pub proof fn law_suites(id: int)
    ensures
        id == 0x1301 ==> suite_of(id) is Some && suite_of(id)->0.kind() == AeadKind::Aes128Gcm
            && suite_of(id)->0.key_len == 16 && suite_of(id)->0.hash == HashKind::Sha256,
        id == 0x1302 ==> suite_of(id) is Some && suite_of(id)->0.kind() == AeadKind::Aes256Gcm
            && suite_of(id)->0.key_len == 32 && suite_of(id)->0.hash == HashKind::Sha384,
        id == 0x1303 ==> suite_of(id) is Some && suite_of(id)->0.kind()
            == AeadKind::ChaCha20Poly1305 && suite_of(id)->0.key_len == 32 && suite_of(id)->0.hash
            == HashKind::Sha256,
        suite_of(id) is Some ==> 0x1301 <= id <= 0x1303,
{
}

/// The numbers of record types, and that they read back.
pub proof fn law_record_types(t: ContentType)
    ensures
        type_of(t.code()) == Some(t),
        ContentType::ChangeCipherSpec.code() == 20,
        ContentType::Alert.code() == 21,
        ContentType::Handshake.code() == 22,
        ContentType::ApplicationData.code() == 23,
{
}

/// The keys of a direction come of its traffic secret: the vector has 12 bytes, the key as
/// many as the suite asks for, and records are numbered from zero.
pub proof fn law_protection_of_secret(suite: CipherSuite, traffic: Seq<u8>)
    ensures
        ({
            let p = protection_of(suite, traffic);
            &&& p.iv == schedule::traffic_iv(suite.hash, traffic, 12)
            &&& p.key == schedule::traffic_key(suite.hash, traffic, suite.key_len as nat)
            &&& p.kind == suite.kind()
            &&& p.seq == 0
            &&& (p.seq < u64::MAX ==> advanced(p).seq == p.seq + 1)
            &&& advanced(p).key == p.key && advanced(p).iv == p.iv
        }),
{
}

/// A record that is not protected: its type, version 3.3, or 3.1 for a handshake message,
/// the length of the payload and the payload.
pub proof fn law_plain_record_layout(ty: ContentType, p: Seq<u8>)
    requires
        0 < p.len() < 0x1_0000,
    ensures
        ({
            let r = record_bytes(None, ty, p);
            &&& r.len() == 5 + p.len()
            &&& r[0] == ty.code()
            &&& r[1] == 3
            &&& r[2] == (if ty == ContentType::Handshake {
                1
            } else {
                3int
            })
            &&& r[3] * 256 + r[4] == p.len()
            &&& r.skip(5) == p
        }),
{
    let r = record_bytes(None, ty, p);
    codec::law_high_byte_first(p.len() as int);
    assert(r.skip(5) =~= p);
}

/// A protected record looks like data: type 23 and version 3.3, and the length of the
/// payload with its type and the tag. Payload and type are sealed under the number of
/// the record and bound to these five bytes.
pub proof fn law_protected_record_layout(k: ProtView, ty: ContentType, p: Seq<u8>, head: Seq<u8>)
    requires
        p.len() + 17 < 0x1_0000,
        head.len() == 5,
        head[0] == 23 && head[1] == 3 && head[2] == 3,
        head[3] * 256 + head[4] == p.len() + 17,
    ensures
        record_bytes(Some(k), ty, p) == head + aead::sealed(
            k.kind,
            k.key,
            schedule::record_nonce(k.iv, k.seq),
            head,
            p + seq![ty.code()],
        ),
{
    codec::law_high_byte_first(p.len() as int + 17);
    codec::law_written_as_read(head[3], head[4], 0, 0);
    assert(record_head(23, 3, p.len() as int + 17) =~= head);
    assert(p + seq![ty.code()] =~= p.push(ty.code()));
}

/// A protected record is read by the other side: it gets the type and the payload, and
/// what stands behind the record stays.
pub proof fn law_protected_record_is_read(
    k: ProtView,
    ty: ContentType,
    p: Seq<u8>,
    c: Seq<u8>,
    head: Seq<u8>,
    rest: Seq<u8>,
)
    requires
        p.len() + 17 <= MAX_CIPHERTEXT,
        head.len() == 5,
        head[0] == 23 && head[1] == 3 && head[2] == 3,
        head[3] * 256 + head[4] == p.len() + 17,
        c.len() == p.len() + 17,
        aead::opened(k.kind, k.key, schedule::record_nonce(k.iv, k.seq), head, c) == Some(
            p + seq![ty.code()],
        ),
    ensures
        record_step(RecView { inbound: head + c + rest, read: Some(k) }) == (
            RecView { inbound: rest, read: Some(advanced(k)) },
            RecStep::Record(ty, p),
        ),
{
    let b = head + c + rest;
    let n = p.len() as int + 17;
    assert(b[0] == 23 && b[3] == head[3] && b[4] == head[4]);
    assert(b.subrange(5, 5 + n) =~= c);
    assert(b.skip(5 + n) =~= rest);
    assert(b.take(5) =~= head);
    assert(p + seq![ty.code()] =~= p.push(ty.code()));
    law_padding_is_ignored(p, ty, 0);
    assert(p.push(ty.code()) + Seq::new(0, |i: int| 0u8) =~= p.push(ty.code()));
}

} // verus!
