//! Shadowsocks with AEAD ciphers.

use vstd::prelude::*;

use crate::codec;
use crate::hash;
use crate::ip;
use crate::proxynet::address;
use crate::proxynet::aead;
use crate::proxynet::aead::{AeadKind, NonceSeq};
use crate::proxynet::error;
use crate::proxynet::error::{ProxyError, ProxyErrorCode};
use crate::proxynet::obfs;
use crate::proxynet::obfs::{Plugin, PluginView};
use crate::proxynet::options::SsOptions;
use crate::proxynet::outgoing;
use crate::proxynet::outgoing::Outgoing;
use crate::random;
use crate::text;

verus! {

/// The most data that a chunk carries.
pub const MAX_PAYLOAD: usize = 0x3FFF;

/// The AEAD ciphers that Shadowsocks streams use here.
#[derive(Clone, Copy, Debug, PartialEq, Eq, Structural)]
pub enum SsCipher {
    Aes128Gcm,
    Aes256Gcm,
    ChaCha20Poly1305,
}

/// The cipher that a method name stands for.
pub open spec fn cipher_of(name: Seq<char>) -> Option<SsCipher> {
    let n = text::lowered(text::trimmed(name));
    if n == "aes-128-gcm"@ || n == "aead_aes_128_gcm"@ {
        Some(SsCipher::Aes128Gcm)
    } else if n == "aes-256-gcm"@ || n == "aead_aes_256_gcm"@ {
        Some(SsCipher::Aes256Gcm)
    } else if n == "chacha20-ietf-poly1305"@ || n == "chacha20-poly1305"@ || n
        == "aead_chacha20_ietf_poly1305"@ {
        Some(SsCipher::ChaCha20Poly1305)
    } else {
        None
    }
}

impl SsCipher {
    /// The length of a cipher's key, which is the length of its salt too.
    pub open spec fn key_size(self) -> nat {
        match self {
            SsCipher::Aes128Gcm => 16,
            SsCipher::Aes256Gcm => 32,
            SsCipher::ChaCha20Poly1305 => 32,
        }
    }

    pub open spec fn aead(self) -> AeadKind {
        match self {
            SsCipher::Aes128Gcm => AeadKind::Aes128Gcm,
            SsCipher::Aes256Gcm => AeadKind::Aes256Gcm,
            SsCipher::ChaCha20Poly1305 => AeadKind::ChaCha20Poly1305,
        }
    }

    fn kind(self) -> (r: AeadKind)
        ensures
            r == self.aead(),
            r.key_size() == self.key_size(),
    {
        match self {
            SsCipher::Aes128Gcm => AeadKind::Aes128Gcm,
            SsCipher::Aes256Gcm => AeadKind::Aes256Gcm,
            SsCipher::ChaCha20Poly1305 => AeadKind::ChaCha20Poly1305,
        }
    }

    pub fn parse(name: &str) -> (r: Option<Self>)
        ensures
            r == cipher_of(name@),
    {
        let c = text::chars_of(name);
        let n = text::lower(text::trim(c.as_slice()));
        let n = n.as_slice();
        if text::is(n, "aes-128-gcm") || text::is(n, "aead_aes_128_gcm") {
            Some(SsCipher::Aes128Gcm)
        } else if text::is(n, "aes-256-gcm") || text::is(n, "aead_aes_256_gcm") {
            Some(SsCipher::Aes256Gcm)
        } else if text::is(n, "chacha20-ietf-poly1305") || text::is(n, "chacha20-poly1305")
            || text::is(n, "aead_chacha20_ietf_poly1305") {
            Some(SsCipher::ChaCha20Poly1305)
        } else {
            None
        }
    }

    pub fn key_len(self) -> (r: usize)
        ensures
            r == self.key_size(),
    {
        match self {
            SsCipher::Aes128Gcm => 16,
            SsCipher::Aes256Gcm => 32,
            SsCipher::ChaCha20Poly1305 => 32,
        }
    }
}

/// Whether a method name stands for a cipher that can be used.
pub fn supported_cipher(name: &str) -> (r: bool)
    ensures
        r == (cipher_of(name@) is Some),
{
    SsCipher::parse(name).is_some()
}

// ---- keys ----
/// The key that a password stands for: digests, each of the one before it and
/// the password, until there are enough bytes.
pub open spec fn key_digests(pass: Seq<u8>, key: Seq<u8>, last: Seq<u8>, size: nat) -> Seq<u8>
    decreases
            (if key.len() >= size {
                0int
            } else {
                size - key.len()
            }),
{
    let d = hash::md5_digest(last + pass);
    if key.len() >= size || d.len() != 16 {
        key
    } else {
        key_digests(pass, key + d, d, size)
    }
}

pub open spec fn password_key(pass: Seq<u8>, size: nat) -> Seq<u8> {
    key_digests(pass, Seq::empty(), Seq::empty(), size).take(size as int)
}

/// The key of a password.
pub fn evp_bytes_to_key(pass: &[u8], size: usize) -> (r: Vec<u8>)
    requires
        size <= 0xffff,
    ensures
        r@ == password_key(pass@, size as nat),
        r@.len() == size,
        forall|i: int| 0 <= i < size ==> r@[i] == #[trigger] key_byte(pass@, r@, i),
        size == 16 ==> r@ == hash::md5_digest(pass@),
        size == 32 ==> r@ == hash::md5_digest(pass@) + hash::md5_digest(
            hash::md5_digest(pass@) + pass@,
        ),
{
    let mut key: Vec<u8> = Vec::new();
    let mut last: Vec<u8> = Vec::new();
    let ghost want = key_digests(pass@, Seq::empty(), Seq::empty(), size as nat);
    assert(key@ =~= Seq::empty());
    assert(last@ =~= Seq::empty());
    while key.len() < size
        invariant
            want == key_digests(pass@, key@, last@, size as nat),
            size <= 0xffff,
            key@.len() <= size + 15,
        decreases size + 16 - key@.len(),
    {
        let ghost before = last@;
        codec::append(&mut last, pass);
        let d = hash::md5(last.as_slice());
        codec::append(&mut key, d.as_slice());
        last = d;
    }
    let ghost all = key@;
    let r = codec::take_front(&mut key, size);
    proof {
        lemma_digests_blocks(pass@, Seq::empty(), Seq::empty(), size as nat);
        lemma_cut_key(pass@, all, size as nat);
        lemma_two_blocks(pass@, r@);
        if size >= 16 {
            lemma_first_digests(pass@, size as nat);
        }
    }
    r
}

/// The label of session keys, in ASCII.
pub open spec fn subkey_label() -> Seq<u8> {
    seq![0x73u8, 0x73u8, 0x2du8, 0x73u8, 0x75u8, 0x62u8, 0x6bu8, 0x65u8, 0x79u8]
}

/// The key of a session: derived from the key of the password and a salt.
pub open spec fn session_key(psk: Seq<u8>, salt: Seq<u8>, size: nat) -> Seq<u8> {
    aead::hkdf_sha1_derived(psk, salt, subkey_label(), size)
}

fn derive_session_key(psk: &[u8], salt: &[u8], size: usize) -> (r: Vec<u8>)
    requires
        size <= 5100,
    ensures
        r@ == session_key(psk@, salt@, size as nat),
        r@.len() == size,
{
    let label: [u8; 9] = [0x73, 0x73, 0x2d, 0x73, 0x75, 0x62, 0x6b, 0x65, 0x79];
    assert(label@ =~= subkey_label());
    aead::hkdf_sha1(psk, salt, label.as_slice(), size)
}

// ---- chunks ----
/// A chunk: its length and its data, each encrypted with the next nonce.
pub open spec fn chunk_bytes(
    kind: AeadKind,
    key: Seq<u8>,
    nonce: Seq<u8>,
    data: Seq<u8>,
) -> Seq<u8> {
    aead::sealed(kind, key, nonce, Seq::empty(), codec::be16_bytes(data.len() as int))
        + aead::sealed(kind, key, aead::incremented(nonce), Seq::empty(), data)
}

/// What a chunk at the beginning of bytes holds: its data and what follows it;
/// none where the chunk is not whole or was not made with the key and the nonce.
pub open spec fn chunk_of(
    kind: AeadKind,
    key: Seq<u8>,
    nonce: Seq<u8>,
    b: Seq<u8>,
) -> Option<(Seq<u8>, Seq<u8>)> {
    if b.len() < 18 {
        None
    } else {
        match aead::opened(kind, key, nonce, Seq::empty(), b.take(18)) {
            None => None,
            Some(h) => {
                let n = codec::be16(h[0], h[1]);
                if b.len() < 18 + n + 16 {
                    None
                } else {
                    match aead::opened(
                        kind,
                        key,
                        aead::incremented(nonce),
                        Seq::empty(),
                        b.subrange(18, 18 + n + 16),
                    ) {
                        None => None,
                        Some(d) => Some((d, b.skip(18 + n + 16))),
                    }
                }
            },
        }
    }
}

// ---- the stream ----
#[derive(Clone, Copy, Debug, PartialEq, Eq, Structural)]
pub enum ReadState {
    Salt,
    Length,
    Data(usize),
    Pending(usize),
}

/// What reading comes to.
#[derive(Debug)]
pub enum SsRead {
    Data(Vec<u8>),
    /// So many more bytes are read.
    More(usize),
    /// The stream ended.
    End,
    Fail(String),
}

/// What was read of a stream.
#[verifier::ext_equal]
pub struct SsView {
    pub state: ReadState,
    pub key: Option<Seq<u8>>,
    pub nonce: Seq<u8>,
    pub buffer: Seq<u8>,
}

/// How many bytes the next step needs.
pub open spec fn step_size(kind: SsCipher, state: ReadState) -> nat {
    match state {
        ReadState::Salt => kind.key_size(),
        ReadState::Length => 18,
        ReadState::Data(n) => n as nat + 16,
        ReadState::Pending(_) => 0,
    }
}

/// A step with the bytes that it needs; none where they were not made with the
/// key and the nonce.
pub open spec fn stepped(kind: SsCipher, psk: Seq<u8>, s: SsView) -> Option<SsView> {
    let next = aead::incremented(s.nonce);
    match s.state {
        ReadState::Salt => Some(
            SsView {
                state: ReadState::Length,
                key: Some(session_key(psk, s.buffer, kind.key_size())),
                nonce: s.nonce,
                buffer: Seq::empty(),
            },
        ),
        ReadState::Length => match aead::opened(
            kind.aead(),
            s.key->0,
            s.nonce,
            Seq::empty(),
            s.buffer,
        ) {
            Some(h) => Some(
                SsView {
                    state: ReadState::Data(codec::be16(h[0], h[1]) as usize),
                    key: s.key,
                    nonce: next,
                    buffer: Seq::empty(),
                },
            ),
            None => None,
        },
        ReadState::Data(n) => match aead::opened(
            kind.aead(),
            s.key->0,
            s.nonce,
            Seq::empty(),
            s.buffer,
        ) {
            Some(d) => Some(
                SsView { state: ReadState::Pending(n), key: s.key, nonce: next, buffer: d },
            ),
            None => None,
        },
        ReadState::Pending(_) => Some(s),
    }
}

/// A Shadowsocks stream.
#[derive(Debug)]
pub struct ShadowedStream {
    pub kind: SsCipher,
    pub psk: Vec<u8>,
    pub enc_key: Option<Vec<u8>>,
    pub dec_key: Option<Vec<u8>>,
    pub enc_nonce: NonceSeq,
    pub dec_nonce: NonceSeq,
    pub read_state: ReadState,
    pub read_buf: Vec<u8>,
    pub out: Outgoing,
}

impl View for ShadowedStream {
    type V = SsView;

    /// What was read.
    open spec fn view(&self) -> SsView {
        SsView {
            state: self.read_state,
            key: codec::opt_bytes(self.dec_key),
            nonce: self.dec_nonce.buf@,
            buffer: self.read_buf@,
        }
    }
}

/// Why a method is refused.
pub open spec fn unsupported_text(method: Seq<char>) -> Seq<char> {
    "unsupported shadowsocks cipher "@ + method
}

impl ShadowedStream {
    /// Keys have their lengths, and what was read belongs to the step that is
    /// being taken.
    pub open spec fn wf(self) -> bool {
        &&& self.out.wf()
        &&& (self.enc_key is Some ==> self.enc_key->0@.len() == self.kind.key_size())
        &&& (self.dec_key is Some ==> self.dec_key->0@.len() == self.kind.key_size())
        &&& match self.read_state {
            ReadState::Salt => self.read_buf@.len() < self.kind.key_size(),
            ReadState::Length => self.dec_key is Some && self.read_buf@.len() < 18,
            ReadState::Data(n) => self.dec_key is Some && self.read_buf@.len() < n + 16 && n
                <= 0xffff,
            ReadState::Pending(n) => self.dec_key is Some && self.read_buf@.len() == n,
        }
    }

    pub open spec fn same_uplink(self, o: ShadowedStream) -> bool {
        self.kind == o.kind && self.psk == o.psk && self.enc_key == o.enc_key && self.enc_nonce
            == o.enc_nonce && self.out == o.out
    }

    /// Whether nothing was read or written yet, under the key of a password.
    pub open spec fn is_new(self, kind: SsCipher, password: Seq<u8>) -> bool {
        let zero = Seq::new(12, |i: int| 0u8);
        &&& self.wf()
        &&& self.kind == kind
        &&& self.psk@ == password_key(password, kind.key_size())
        &&& self.enc_key is None
        &&& self.enc_nonce.buf@ == zero
        &&& self.out.frame@.len() == 0
        &&& self@ == (SsView {
            state: ReadState::Salt,
            key: None,
            nonce: zero,
            buffer: Seq::empty(),
        })
    }

    pub fn new(method: &str, password: &str) -> (r: Result<Self, String>)
        ensures
            match cipher_of(method@) {
                Some(kind) => r is Ok && r->Ok_0.is_new(
                    kind,
                    vstd::utf8::encode_utf8(password@),
                ),
                None => r is Err && r->Err_0@ == unsupported_text(method@),
            },
    {
        let kind = match SsCipher::parse(method) {
            Some(k) => k,
            None => {
                let mut m = text::chars_of("unsupported shadowsocks cipher ");
                text::append_str(&mut m, method);
                return Err(text::string_of(m.as_slice()));
            },
        };
        let p = codec::bytes_of(password);
        let psk = evp_bytes_to_key(p.as_slice(), kind.key_len());
        let r = ShadowedStream {
            kind,
            psk,
            enc_key: None,
            dec_key: None,
            enc_nonce: NonceSeq::new(),
            dec_nonce: NonceSeq::new(),
            read_state: ReadState::Salt,
            read_buf: Vec::new(),
            out: Outgoing::new(),
        };
        assert(r@.buffer =~= Seq::empty());
        Ok(r)
    }

    fn open_buffer(&mut self) -> (r: Option<Vec<u8>>)
        requires
            old(self).dec_key is Some,
            old(self).dec_key->0@.len() == old(self).kind.key_size(),
            16 <= old(self).read_buf@.len() <= aead::MAX_INPUT,
        ensures
            final(self).same_uplink(*old(self)),
            final(self).dec_key == old(self).dec_key,
            final(self).read_state == old(self).read_state,
            final(self).dec_nonce.buf@ == aead::incremented(old(self).dec_nonce.buf@),
            final(self).read_buf@ == Seq::<u8>::empty(),
            codec::opt_bytes(r) == aead::opened(
                old(self).kind.aead(),
                old(self).dec_key->0@,
                old(self).dec_nonce.buf@,
                Seq::empty(),
                old(self).read_buf@,
            ),
            r is Some ==> r->0@.len() + 16 == old(self).read_buf@.len(),
    {
        let nonce: [u8; 12] = self.dec_nonce.next();
        let none: Vec<u8> = Vec::new();
        let kind = self.kind.kind();
        assert(none@ =~= Seq::empty());
        let mut r: Option<Vec<u8>> = None;
        if let Some(key) = &self.dec_key {
            r = aead::open(
                kind,
                key.as_slice(),
                nonce.as_slice(),
                none.as_slice(),
                self.read_buf.as_slice(),
            );
        }
        self.read_buf = Vec::new();
        assert(self.read_buf@ =~= Seq::empty());
        r
    }

    /// Takes a step whose bytes are all there; says whether they were made with
    /// the key and the nonce.
    fn step(&mut self) -> (r: bool)
        requires
            old(self).out.wf(),
            old(self).enc_key is Some ==> old(self).enc_key->0@.len() == old(self).kind.key_size(),
            old(self).dec_key is Some ==> old(self).dec_key->0@.len() == old(self).kind.key_size(),
            !(old(self).read_state is Pending),
            !(old(self).read_state is Salt) ==> old(self).dec_key is Some,
            old(self).read_state is Data ==> old(self).read_state->Data_0 <= 0xffff,
            old(self).read_buf@.len() == step_size(old(self).kind, old(self).read_state),
        ensures
            final(self).wf(),
            final(self).same_uplink(*old(self)),
            match stepped(old(self).kind, old(self).psk@, old(self)@) {
                Some(s) => r && final(self)@ == s,
                None => !r && final(self)@ == (SsView {
                    nonce: aead::incremented(old(self).dec_nonce.buf@),
                    buffer: Seq::empty(),
                    ..old(self)@
                }),
            },
    {
        match self.read_state {
            ReadState::Salt => {
                let n: usize = self.kind.key_len();
                let key = derive_session_key(self.psk.as_slice(), self.read_buf.as_slice(), n);
                self.dec_key = Some(key);
                self.read_buf = Vec::new();
                assert(self.read_buf@ =~= Seq::empty());
                self.read_state = ReadState::Length;
                true
            },
            ReadState::Length => {
                match self.open_buffer() {
                    Some(h) => {
                        let n: usize = codec::read_be16(h[0], h[1]) as usize;
                        self.read_state = ReadState::Data(n);
                        true
                    },
                    None => false,
                }
            },
            ReadState::Data(n) => {
                match self.open_buffer() {
                    Some(d) => {
                        self.read_buf = d;
                        self.read_state = ReadState::Pending(n);
                        true
                    },
                    None => false,
                }
            },
            ReadState::Pending(_) => true,
        }
    }

    /// Reads at most `max` bytes of a chunk; how many bytes have to be read
    /// below where there is none.
    pub fn read(&mut self, max: usize) -> (r: SsRead)
        requires
            old(self).wf(),
        ensures
            final(self).wf(),
            final(self).same_uplink(*old(self)),
            match old(self).read_state {
                ReadState::Pending(n) => {
                    let d = outgoing::at_most(old(self).read_buf@, max as int);
                    &&& r is Data
                    &&& r->Data_0@ == d
                    &&& final(self)@ == (SsView {
                        state: if d.len() < n {
                            ReadState::Pending((n - d.len()) as usize)
                        } else {
                            ReadState::Length
                        },
                        buffer: old(self).read_buf@.skip(d.len() as int),
                        ..old(self)@
                    })
                },
                s => r is More && r->More_0 == step_size(old(self).kind, s)
                    - old(self).read_buf@.len() && final(self)@ == old(self)@,
            },
    {
        match self.read_state {
            ReadState::Pending(n) => {
                let d = outgoing::take_some(&mut self.read_buf, max);
                let k: usize = d.len();
                self.read_state = if k < n {
                    ReadState::Pending(n - k)
                } else {
                    ReadState::Length
                };
                SsRead::Data(d)
            },
            ReadState::Salt => SsRead::More(self.kind.key_len() - self.read_buf.len()),
            ReadState::Length => SsRead::More(18 - self.read_buf.len()),
            ReadState::Data(n) => SsRead::More(n + 16 - self.read_buf.len()),
        }
    }

    /// Takes bytes of the stream below, no more than were asked for; an error
    /// where they were not made with the key and the nonce.
    pub fn feed(&mut self, b: &[u8]) -> (r: Result<(), String>)
        requires
            old(self).wf(),
            !(old(self).read_state is Pending),
            old(self).read_buf@.len() + b@.len() <= step_size(
                old(self).kind,
                old(self).read_state,
            ),
        ensures
            final(self).wf(),
            final(self).same_uplink(*old(self)),
            ({
                let got = SsView { buffer: old(self).read_buf@ + b@, ..old(self)@ };
                if got.buffer.len() < step_size(old(self).kind, old(self).read_state) {
                    r is Ok && final(self)@ == got
                } else {
                    match stepped(old(self).kind, old(self).psk@, got) {
                        Some(s) => r is Ok && final(self)@ == s,
                        None => r is Err && r->Err_0@ == "ss decrypt"@ && final(self)@ == (SsView {
                            nonce: aead::incremented(old(self).dec_nonce.buf@),
                            buffer: Seq::empty(),
                            ..got
                        }),
                    }
                }
            }),
    {
        let need: usize = match self.read_state {
            ReadState::Salt => self.kind.key_len(),
            ReadState::Length => 18,
            ReadState::Data(n) => n + 16,
            ReadState::Pending(_) => 0,
        };
        codec::append(&mut self.read_buf, b);
        if self.read_buf.len() < need {
            return Ok(());
        }
        if self.step() {
            Ok(())
        } else {
            Err("ss decrypt".to_owned())
        }
    }

    /// The stream below ended: between chunks that is the end.
    pub fn closed(&self) -> (r: SsRead)
        ensures
            if self.read_state is Length {
                r is End
            } else {
                r is Fail && r->Fail_0@ == "ss eof"@
            },
    {
        match self.read_state {
            ReadState::Length => SsRead::End,
            _ => SsRead::Fail("ss eof".to_owned()),
        }
    }

    /// Begins to write data behind the given salt, where there is no key yet.
    fn stage(&mut self, data: &[u8], salt: Vec<u8>)
        requires
            old(self).wf(),
            salt@.len() == old(self).kind.key_size(),
        ensures
            final(self).wf(),
            final(self).kind == old(self).kind,
            final(self).psk == old(self).psk,
            final(self)@ == old(self)@,
            staged(*old(self), *final(self), data@, salt@),
    {
        let first = self.enc_key.is_none();
        let n: usize = self.kind.key_len();
        let key: Vec<u8> = match &self.enc_key {
            Some(k) => codec::copy(k.as_slice()),
            None => derive_session_key(self.psk.as_slice(), salt.as_slice(), n),
        };
        let len: usize = if data.len() < MAX_PAYLOAD {
            data.len()
        } else {
            MAX_PAYLOAD
        };
        let chunk = &data[0..len];
        assert(chunk@ =~= outgoing::at_most(data@, MAX_PAYLOAD as int));
        let none: Vec<u8> = Vec::new();
        assert(none@ =~= Seq::empty());
        let kind = self.kind.kind();
        let mut head: Vec<u8> = Vec::new();
        codec::push_be16(&mut head, len as u16);
        assert(head@ =~= codec::be16_bytes(len as int));
        let n0: [u8; 12] = self.enc_nonce.next();
        let a = aead::seal(
            kind,
            key.as_slice(),
            n0.as_slice(),
            none.as_slice(),
            head.as_slice(),
        );
        let n1: [u8; 12] = self.enc_nonce.next();
        let b = aead::seal(kind, key.as_slice(), n1.as_slice(), none.as_slice(), chunk);
        let mut frame: Vec<u8> = if first {
            salt
        } else {
            Vec::new()
        };
        let ghost lead = frame@;
        codec::append(&mut frame, a.as_slice());
        codec::append(&mut frame, b.as_slice());
        proof {
            codec::law_be16_reads_back(len as int);
            let f = chunk_bytes(kind, key@, n0@, chunk@);
            assert(frame@ =~= lead + f);
            assert(f.take(18) =~= a@);
            assert(f.subrange(18, 18 + len + 16) =~= b@);
            assert(f.skip(18 + len + 16) =~= Seq::empty());
        }
        self.enc_key = Some(key);
        self.out.begin(frame, len);
    }

    /// Begins to write data: a chunk of its beginning, behind a random salt in
    /// the first one. A chunk that is being written goes first.
    pub fn begin_write(&mut self, data: &[u8])
        requires
            old(self).wf(),
        ensures
            final(self).wf(),
            final(self).kind == old(self).kind,
            final(self).psk == old(self).psk,
            final(self)@ == old(self)@,
            if old(self).out.frame@.len() > 0 {
                *final(self) == *old(self)
            } else {
                exists|salt: Seq<u8>|
                    salt.len() == old(self).kind.key_size() && #[trigger] staged(
                        *old(self),
                        *final(self),
                        data@,
                        salt,
                    )
            },
    {
        if !self.out.is_idle() {
            return ;
        }
        let n: usize = self.kind.key_len();
        let salt = random::random_bytes(n);
        let ghost g = salt@;
        let ghost before = *self;
        self.stage(data, salt);
        assert(staged(before, *self, data@, g));
    }
}

/// Whether a chunk of the beginning of data was begun: behind a salt where there
/// was no key. A reader with the key and the nonce gets the data back.
pub open spec fn staged(a: ShadowedStream, b: ShadowedStream, data: Seq<u8>, salt: Seq<u8>) -> bool {
    let chunk = outgoing::at_most(data, MAX_PAYLOAD as int);
    let key = match a.enc_key {
        Some(k) => k@,
        None => session_key(a.psk@, salt, a.kind.key_size()),
    };
    let lead = if a.enc_key is None {
        salt
    } else {
        Seq::empty()
    };
    let nonce = a.enc_nonce.buf@;
    let f = chunk_bytes(a.kind.aead(), key, nonce, chunk);
    &&& codec::opt_bytes(b.enc_key) == Some(key)
    &&& b.enc_nonce.buf@ == aead::incremented(aead::incremented(nonce))
    &&& b.out.left() == lead + f
    &&& b.out.frame@.len() > 0
    &&& b.out.carries == chunk.len()
    &&& chunk_of(a.kind.aead(), key, nonce, f) == Some((chunk, Seq::<u8>::empty()))
}

/// The address with which a connection begins, if it has a form.
pub fn open_request(host: &str, port: u16) -> (r: Result<Vec<u8>, ProxyError>)
    ensures
        match address::address_bytes(host@, 1, 3, 4) {
            Some(a) => r is Ok && r->Ok_0@ == a + codec::be16_bytes(port as int),
            None => r is Err && r->Err_0.says(
                ProxyErrorCode::StringTooLong,
                "Target host name exceeds the maximum of 255 bytes."@,
            ),
        },
{
    match address::encode_address(host, 1, 3, 4) {
        Some(a) => {
            let mut r = a;
            codec::push_be16(&mut r, port);
            Ok(r)
        },
        None => Err(
            ProxyError::new(
                ProxyErrorCode::StringTooLong,
                "Target host name exceeds the maximum of 255 bytes.",
            ),
        ),
    }
}

/// A connection that begins: the plugin under it, the stream, and what is written
/// to it first.
#[derive(Debug)]
pub struct SsSession {
    pub plugin: Plugin,
    pub stream: ShadowedStream,
    pub request: Vec<u8>,
}

/// The plugin of options; without one there is none.
pub open spec fn options_plugin(o: SsOptions) -> Result<PluginView, Seq<char>> {
    match o.plugin {
        Some(p) => obfs::plugin_of(p@, text::opt_view(o.plugin_opts), o.host@),
        None => Ok(PluginView::Plain),
    }
}

/// Why options are refused, if they are.
pub open spec fn dial_fault(o: SsOptions, host: Seq<char>) -> Option<(ProxyErrorCode, Seq<char>)> {
    match options_plugin(o) {
        Err(m) => Some((ProxyErrorCode::TransportUpgradeFailed, m)),
        Ok(_) => if cipher_of(o.method@) is None {
            Some((ProxyErrorCode::AuthRequired, unsupported_text(o.method@)))
        } else if address::address_bytes(host, 1, 3, 4) is None {
            Some(
                (
                    ProxyErrorCode::StringTooLong,
                    "Target host name exceeds the maximum of 255 bytes."@,
                ),
            )
        } else {
            None
        },
    }
}

/// Whether this is how a connection to a host begins: with the plugin of the options, a
/// new stream and the address as its first data.
pub open spec fn begun(
    o: SsOptions,
    host: Seq<char>,
    port: u16,
    r: Result<SsSession, ProxyError>,
) -> bool {
    match dial_fault(o, host) {
        Some((c, m)) => r is Err && r->Err_0.says(c, m),
        None => {
            let kind = cipher_of(o.method@)->0;
            &&& r is Ok
            &&& r->Ok_0.plugin@ == options_plugin(o)->Ok_0
            &&& r->Ok_0.stream.is_new(kind, vstd::utf8::encode_utf8(o.password@))
            &&& r->Ok_0.request@ == address::address_bytes(host, 1, 3, 4)->0
                + codec::be16_bytes(port as int)
        },
    }
}

/// Begins a connection to a host.
pub fn dial_ss(options: &SsOptions, host: &str, port: u16) -> (r: Result<SsSession, ProxyError>)
    ensures
        begun(*options, host@, port, r),
{
    let plugin = match &options.plugin {
        None => Plugin::Plain,
        Some(p) => {
            let opts = match &options.plugin_opts {
                Some(o) => Some(o.as_str()),
                None => None,
            };
            match obfs::apply_plugin(p.as_str(), opts, options) {
                Ok(x) => x,
                Err(e) => {
                    return Err(e);
                },
            }
        },
    };
    let stream = match ShadowedStream::new(options.method.as_str(), options.password.as_str()) {
        Ok(s) => s,
        Err(m) => {
            return Err(ProxyError::new(ProxyErrorCode::AuthRequired, m.as_str()));
        },
    };
    match open_request(host, port) {
        Ok(request) => Ok(SsSession { plugin, stream, request }),
        Err(e) => Err(e),
    }
}

// ---- laws ----
/// A reader between chunks, with the writer's key and nonce, gets the data of a
/// whole chunk, and then stands behind it with the next nonce.
pub proof fn law_chunk_is_read(kind: SsCipher, psk: Seq<u8>, s: SsView, b: Seq<u8>)
    requires
        s.state == ReadState::Length,
        s.key is Some,
        chunk_of(kind.aead(), s.key->0, s.nonce, b) is Some,
    ensures
        ({
            let n = codec::be16(
                aead::opened(kind.aead(), s.key->0, s.nonce, Seq::empty(), b.take(18))->0[0],
                aead::opened(kind.aead(), s.key->0, s.nonce, Seq::empty(), b.take(18))->0[1],
            );
            let one = stepped(kind, psk, SsView { buffer: b.take(18), ..s });
            let two = stepped(
                kind,
                psk,
                SsView { buffer: b.subrange(18, 18 + n + 16), ..one->0 },
            );
            &&& one is Some
            &&& step_size(kind, one->0.state) == n + 16
            &&& two == Some(
                SsView {
                    state: ReadState::Pending(n as usize),
                    key: s.key,
                    nonce: aead::incremented(aead::incremented(s.nonce)),
                    buffer: (chunk_of(kind.aead(), s.key->0, s.nonce, b)->0).0,
                },
            )
        }),
{
}

/// What a stream writes first is read by one with the same method and password: the
/// salt gives it the key, and the chunk behind it the data.
pub proof fn law_first_write_is_read(
    a: ShadowedStream,
    b: ShadowedStream,
    data: Seq<u8>,
    salt: Seq<u8>,
    reader: SsView,
)
    requires
        staged(a, b, data, salt),
        a.enc_key is None,
        salt.len() == a.kind.key_size(),
        reader.state == ReadState::Salt,
        reader.nonce == a.enc_nonce.buf@,
    ensures
        ({
            let wire = b.out.left();
            let n = a.kind.key_size() as int;
            let one = stepped(a.kind, a.psk@, SsView { buffer: wire.take(n), ..reader });
            &&& one is Some
            &&& one->0.state == ReadState::Length
            &&& one->0.key is Some
            &&& chunk_of(a.kind.aead(), one->0.key->0, one->0.nonce, wire.skip(n)) == Some(
                (outgoing::at_most(data, MAX_PAYLOAD as int), Seq::<u8>::empty()),
            )
        }),
{
    let wire = b.out.left();
    let n = a.kind.key_size() as int;
    let key = session_key(a.psk@, salt, a.kind.key_size());
    let f = chunk_bytes(
        a.kind.aead(),
        key,
        a.enc_nonce.buf@,
        outgoing::at_most(data, MAX_PAYLOAD as int),
    );
    assert(wire.take(n) =~= salt);
    assert(wire.skip(n) =~= f);
}

/// The byte at a place of a key, from the bytes before it: in the first block that of
/// the MD5 of the password, in a further one that of the MD5 of the block before
/// and the password.
pub open spec fn key_byte(pass: Seq<u8>, key: Seq<u8>, i: int) -> u8 {
    if i < 16 {
        hash::md5_digest(pass)[i]
    } else {
        hash::md5_digest(key.subrange(16 * (i / 16) - 16, 16 * (i / 16)) + pass)[i % 16]
    }
}

proof fn lemma_longer_key(pass: Seq<u8>, key: Seq<u8>, more: Seq<u8>, i: int)
    requires
        0 <= i < key.len(),
    ensures
        key_byte(pass, key + more, i) == key_byte(pass, key, i),
{
    if i >= 16 {
        let a = 16 * (i / 16) - 16;
        assert((key + more).subrange(a, a + 16) =~= key.subrange(a, a + 16));
    }
}

proof fn lemma_digests_blocks(pass: Seq<u8>, key: Seq<u8>, last: Seq<u8>, size: nat)
    requires
        key.len() % 16 == 0,
        last == (if key.len() == 0 {
            Seq::<u8>::empty()
        } else {
            key.subrange(key.len() - 16, key.len() as int)
        }),
        forall|i: int| 0 <= i < key.len() ==> key[i] == #[trigger] key_byte(pass, key, i),
        key_digests(pass, key, last, size).len() >= size,
    ensures
        ({
            let k = key_digests(pass, key, last, size);
            forall|i: int| 0 <= i < k.len() ==> k[i] == #[trigger] key_byte(pass, k, i)
        }),
    decreases
            (if key.len() >= size {
                0int
            } else {
                size - key.len()
            }),
{
    let d = hash::md5_digest(last + pass);
    if key.len() < size && d.len() == 16 {
        let n = key + d;
        assert forall|i: int| 0 <= i < n.len() implies n[i] == #[trigger] key_byte(pass, n, i) by {
            if i < key.len() {
                assert(key[i] == key_byte(pass, key, i));
                lemma_longer_key(pass, key, d, i);
            } else if key.len() == 0 {
                assert(last + pass =~= pass);
            } else {
                assert(n.subrange(key.len() - 16, key.len() as int) =~= last);
            }
        }
        assert(n.subrange(n.len() - 16, n.len() as int) =~= d);
        lemma_digests_blocks(pass, n, d, size);
    }
}

proof fn lemma_cut_key(pass: Seq<u8>, k: Seq<u8>, size: nat)
    requires
        size <= k.len(),
        forall|i: int| 0 <= i < k.len() ==> k[i] == #[trigger] key_byte(pass, k, i),
    ensures
        forall|i: int|
            0 <= i < size ==> k.take(size as int)[i] == #[trigger] key_byte(
                pass,
                k.take(size as int),
                i,
            ),
{
    let t = k.take(size as int);
    assert(k =~= t + k.skip(size as int));
    assert forall|i: int| 0 <= i < size implies t[i] == #[trigger] key_byte(pass, t, i) by {
        assert(k[i] == key_byte(pass, k, i));
        lemma_longer_key(pass, t, k.skip(size as int), i);
    }
}

proof fn lemma_enough_digests(pass: Seq<u8>, key: Seq<u8>, last: Seq<u8>, size: nat)
    requires
        forall|b: Seq<u8>| (#[trigger] hash::md5_digest(b)).len() == 16,
    ensures
        key_digests(pass, key, last, size).len() >= size,
    decreases
            (if key.len() >= size {
                0int
            } else {
                size - key.len()
            }),
{
    let d = hash::md5_digest(last + pass);
    if key.len() < size {
        lemma_enough_digests(pass, key + d, d, size);
    }
}

/// The key of a password is made in blocks of 16 bytes: the first is the MD5 of the
/// password, and each further one is the MD5 of the block before it followed by the
/// password.
pub proof fn law_key_is_made_in_blocks(pass: Seq<u8>, size: nat)
    requires
        forall|b: Seq<u8>| (#[trigger] hash::md5_digest(b)).len() == 16,
    ensures
        ({
            let k = password_key(pass, size);
            &&& k.len() == size
            &&& forall|i: int| 0 <= i < size ==> k[i] == #[trigger] key_byte(pass, k, i)
        }),
        size == 16 ==> password_key(pass, size) == hash::md5_digest(pass),
        size == 32 ==> ({
            let d = hash::md5_digest(pass);
            password_key(pass, size) == d + hash::md5_digest(d + pass)
        }),
{
    let none = Seq::<u8>::empty();
    let k = key_digests(pass, none, none, size);
    lemma_enough_digests(pass, none, none, size);
    lemma_digests_blocks(pass, none, none, size);
    lemma_cut_key(pass, k, size);
    lemma_two_blocks(pass, k.take(size as int));
}

proof fn lemma_first_digests(pass: Seq<u8>, size: nat)
    requires
        16 <= size,
        key_digests(pass, Seq::empty(), Seq::empty(), size).len() >= size,
    ensures
        hash::md5_digest(pass).len() == 16,
        size > 16 ==> hash::md5_digest(hash::md5_digest(pass) + pass).len() == 16,
{
    let d = hash::md5_digest(pass);
    let none = Seq::<u8>::empty();
    assert(none + pass =~= pass);
    assert(none + d =~= d);
    let first = key_digests(pass, none, none, size);
    if size > 16 {
        assert(first == key_digests(pass, d, d, size));
    }
}

proof fn lemma_two_blocks(pass: Seq<u8>, k: Seq<u8>)
    requires
        forall|i: int| 0 <= i < k.len() ==> k[i] == #[trigger] key_byte(pass, k, i),
    ensures
        k.len() == 16 && hash::md5_digest(pass).len() == 16 ==> k == hash::md5_digest(pass),
        k.len() == 32 && hash::md5_digest(pass).len() == 16 && hash::md5_digest(
            hash::md5_digest(pass) + pass,
        ).len() == 16 ==> k == hash::md5_digest(pass) + hash::md5_digest(
            hash::md5_digest(pass) + pass,
        ),
{
    let d = hash::md5_digest(pass);
    let e = hash::md5_digest(d + pass);
    if k.len() == 16 && d.len() == 16 {
        assert forall|i: int| 0 <= i < 16 implies k[i] == d[i] by {
            assert(k[i] == key_byte(pass, k, i));
        }
        assert(k =~= d);
    }
    if k.len() == 32 && d.len() == 16 && e.len() == 16 {
        assert forall|i: int| 0 <= i < 16 implies k[i] == d[i] by {
            assert(k[i] == key_byte(pass, k, i));
        }
        assert(k.subrange(0, 16) =~= d);
        assert forall|i: int| 16 <= i < 32 implies k[i] == e[i - 16] by {
            assert(k[i] == key_byte(pass, k, i));
        }
        assert(k =~= d + e);
    }
}

/// The key of a session is derived by HKDF with SHA-1 from the key of the password, with
/// the salt of the session and the ASCII label ss-subkey.
pub proof fn law_session_key_label(psk: Seq<u8>, salt: Seq<u8>, size: nat)
    ensures
        session_key(psk, salt, size) == aead::hkdf_sha1_derived(
            psk,
            salt,
            seq![0x73u8, 0x73u8, 0x2du8, 0x73u8, 0x75u8, 0x62u8, 0x6bu8, 0x65u8, 0x79u8],
            size,
        ),
{
}

/// A cipher is named without regard to letter case and surrounding blanks, and its key
/// and salt have 16 bytes for AES-128 and 32 for the others.
pub proof fn law_cipher_names(name: Seq<char>)
    ensures
        ({
            let n = text::lowered(text::trimmed(name));
            let c = cipher_of(name);
            &&& (n == "aes-128-gcm"@ ==> c == Some(SsCipher::Aes128Gcm))
            &&& (n == "aes-256-gcm"@ ==> c == Some(SsCipher::Aes256Gcm))
            &&& (n == "chacha20-ietf-poly1305"@ || n == "chacha20-poly1305"@ ==> c == Some(
                SsCipher::ChaCha20Poly1305,
            ))
            &&& (c is Some ==> step_size(c->0, ReadState::Salt) == (if c->0 is Aes128Gcm {
                16nat
            } else {
                32nat
            }))
        }),
{
    reveal_strlit("aes-128-gcm");
    reveal_strlit("aead_aes_128_gcm");
    reveal_strlit("aes-256-gcm");
    reveal_strlit("aead_aes_256_gcm");
    reveal_strlit("chacha20-ietf-poly1305");
    reveal_strlit("chacha20-poly1305");
    assert("aes-256-gcm"@[4] == '2' && "aes-128-gcm"@[4] == '1');
    assert("aead_aes_128_gcm"@[1] == 'e' && "aead_aes_128_gcm"@[2] == 'a');
    assert("aes-256-gcm"@.len() == 11 && "aead_aes_128_gcm"@.len() == 16);
    assert("aead_aes_256_gcm"@.len() == 16);
    assert("chacha20-ietf-poly1305"@.len() == 22 && "chacha20-poly1305"@.len() == 17);
}

/// A chunk is the length of its data, two bytes with the high one first, and the data
/// itself; each is sealed, without further bytes to authenticate, and the
/// counter is one higher for the second.
pub proof fn law_chunk_layout(
    kind: SsCipher,
    key: Seq<u8>,
    nonce: Seq<u8>,
    next: Seq<u8>,
    data: Seq<u8>,
    length: Seq<u8>,
)
    requires
        data.len() <= 0x3fff,
        length.len() == 2,
        length[0] * 256 + length[1] == data.len(),
        next.len() == nonce.len(),
        aead::le_value(nonce) + 1 < aead::byte_range(nonce.len()),
        aead::le_value(next) == aead::le_value(nonce) + 1,
    ensures
        ({
            let c = chunk_bytes(kind.aead(), key, nonce, data);
            let none = Seq::<u8>::empty();
            match kind {
                SsCipher::Aes128Gcm => c == aead::aes128_gcm_sealed(key, nonce, none, length)
                    + aead::aes128_gcm_sealed(key, next, none, data),
                SsCipher::Aes256Gcm => c == aead::aes256_gcm_sealed(key, nonce, none, length)
                    + aead::aes256_gcm_sealed(key, next, none, data),
                SsCipher::ChaCha20Poly1305 => c == aead::chacha_sealed(key, nonce, none, length)
                    + aead::chacha_sealed(key, next, none, data),
            }
        }),
{
    aead::law_counter_counts(nonce);
    aead::law_numbers_differ(next, aead::incremented(nonce));
    codec::law_high_byte_first(data.len() as int);
    assert(codec::be16_bytes(data.len() as int) =~= length);
}

/// A connection begins with the target: the type and the bytes of its address,
/// 1 for IPv4, 3 for a name and 4 for IPv6, and the port behind it, the high byte
/// first.
pub proof fn law_target_comes_first(
    o: SsOptions,
    host: Seq<char>,
    port: u16,
    r: Result<SsSession, ProxyError>,
)
    requires
        begun(o, host, port, r),
        r is Ok,
    ensures
        ({
            let q = r->Ok_0.request@;
            let n = q.len() as int;
            &&& n >= 4
            &&& q[n - 2] * 256 + q[n - 1] == port
            &&& match ip::ip_of(host) {
                Some(ip::IpView::V4(b)) => n == 7 && q[0] == 1 && q.subrange(1, 5) == b,
                Some(ip::IpView::V6(b)) => n == 19 && q[0] == 4 && q.subrange(1, 17) == b,
                None => q[0] == 3 && q[1] == n - 4 && q.subrange(2, n - 2)
                    == vstd::utf8::encode_utf8(host),
            }
        }),
{
    address::law_address_reads_back(host, 1, 3, 4);
    codec::law_high_byte_first(port as int);
    let a = address::address_bytes(host, 1, 3, 4)->0;
    let p = codec::be16_bytes(port as int);
    let q = r->Ok_0.request@;
    let n = q.len() as int;
    assert(q == a + p);
    match ip::ip_of(host) {
        Some(ip::IpView::V4(b)) => {
            assert(q.subrange(1, 5) =~= a.subrange(1, 5));
        },
        Some(ip::IpView::V6(b)) => {
            assert(q.subrange(1, 17) =~= a.subrange(1, 17));
        },
        None => {
            assert(q.subrange(2, n - 2) =~= a.skip(2));
        },
    }
}

} // verus!
