//! The stream behind the request: the answer's head, then chunks with masked
//! lengths and padding.

use vstd::prelude::*;

use crate::codec;
use crate::proxynet::aead;
use crate::proxynet::aead::AeadKind;
use crate::proxynet::error;
use crate::proxynet::error::{ProxyError, ProxyErrorCode};
use crate::proxynet::options;
use crate::proxynet::options::VmessOptions;
use crate::proxynet::outgoing;
use crate::proxynet::outgoing::Outgoing;
use crate::proxynet::vmess::crypto;
use crate::proxynet::vmess::crypto::{BodyAead, ShakeSizeParser, VmessNonce};
use crate::proxynet::vmess::kdf;
use crate::proxynet::vmess::protocol;
use crate::proxynet::vmess::protocol::{ClientSession, Draw};
use crate::random;
use crate::text;

verus! {

/// The longest chunk, with its tag and padding.
pub const MAX_CHUNK: usize = 0x4000;

// ---- the cipher of a body ----
/// The number of a cipher in a request.
pub open spec fn security_of(name: Seq<char>) -> Option<u8> {
    if name == "aes-128-gcm"@ {
        Some(protocol::SECURITY_AES128_GCM)
    } else if name == "chacha20-poly1305"@ {
        Some(protocol::SECURITY_CHACHA20)
    } else {
        None
    }
}

/// The cipher that options ask for: its name and its number.
pub fn choose_security(options: &VmessOptions) -> (r: Result<(String, u8), ProxyError>)
    ensures
        ({
            let name = options::vmess_cipher(options.security@);
            match security_of(name) {
                Some(n) => r is Ok && (r->Ok_0).0@ == name && (r->Ok_0).1 == n,
                None => r is Err && r->Err_0.says(
                    ProxyErrorCode::AuthRequired,
                    "unsupported vmess cipher "@ + name,
                ),
            }
        }),
{
    let name = options.body_security();
    let c = text::chars_of(name.as_str());
    if text::is(c.as_slice(), "aes-128-gcm") {
        Ok((name, protocol::SECURITY_AES128_GCM))
    } else if text::is(c.as_slice(), "chacha20-poly1305") {
        Ok((name, protocol::SECURITY_CHACHA20))
    } else {
        let mut m = text::chars_of("unsupported vmess cipher ");
        text::append(&mut m, c.as_slice());
        Err(error::error_of(ProxyErrorCode::AuthRequired, &m))
    }
}

// ---- reading ----
#[derive(Clone, Copy, Debug, PartialEq, Eq, Structural)]
pub enum ReadState {
    /// The length of the answer's head, or a head that is not authenticated.
    Header,
    /// The answer's head with so many bytes.
    HeaderBody(usize),
    Length,
    Data { size: usize, padding: usize },
    Pending(usize),
}

/// What was read of a stream: the step, the bytes of it, the count of the nonce
/// and where in the masks it stands.
#[verifier::ext_equal]
pub struct DownView {
    pub state: ReadState,
    pub buffer: Seq<u8>,
    pub count: u16,
    pub pos: nat,
}

/// What does not change while a stream is read.
pub struct Keys {
    pub session: ClientSession,
    pub kind: AeadKind,
    pub key: Seq<u8>,
    pub iv: Seq<u8>,
    pub seed: Seq<u8>,
}

/// How many bytes a step needs.
pub open spec fn step_size(s: ClientSession, state: ReadState) -> nat {
    match state {
        ReadState::Header => if s.aead {
            18
        } else {
            4
        },
        ReadState::HeaderBody(n) => n as nat + 16,
        ReadState::Length => 2,
        ReadState::Data { size, padding } => size as nat,
        ReadState::Pending(_) => 0,
    }
}

/// Whether the answer's head bears the mark of the session.
pub open spec fn marked(s: ClientSession, head: Seq<u8>) -> bool {
    head.len() > 0 && head[0] == s.response_header
}

pub open spec fn at_length(d: DownView) -> DownView {
    DownView { state: ReadState::Length, buffer: Seq::empty(), ..d }
}

/// A step with the bytes that it needs, or why it fails.
pub open spec fn stepped(k: Keys, d: DownView) -> Result<DownView, Seq<char>> {
    match d.state {
        ReadState::Header => if k.session.aead {
            match protocol::answer_opened(
                k.session,
                kdf::KDF_SALT_CONST_AEAD_RESP_HEADER_LEN_KEY@,
                kdf::KDF_SALT_CONST_AEAD_RESP_HEADER_LEN_IV@,
                d.buffer,
            ) {
                Some(l) => Ok(
                    DownView {
                        state: ReadState::HeaderBody(codec::be16(l[0], l[1]) as usize),
                        buffer: Seq::empty(),
                        ..d
                    },
                ),
                None => Err("vmess resp len"@),
            }
        } else if marked(
            k.session,
            protocol::aes128_cfb_decrypted(
                k.session.response_body_key@,
                k.session.response_body_iv@,
                d.buffer,
            ),
        ) {
            Ok(at_length(d))
        } else {
            Err("vmess response header mismatch"@)
        },
        ReadState::HeaderBody(_) => match protocol::answer_opened(
            k.session,
            kdf::KDF_SALT_CONST_AEAD_RESP_HEADER_PAYLOAD_KEY@,
            kdf::KDF_SALT_CONST_AEAD_RESP_HEADER_PAYLOAD_IV@,
            d.buffer,
        ) {
            Some(h) => if marked(k.session, h) {
                Ok(at_length(d))
            } else {
                Err("vmess response header mismatch"@)
            },
            None => Err("vmess resp header"@),
        },
        ReadState::Length => Ok(
            DownView {
                state: ReadState::Data {
                    size: (crypto::mask_at(k.seed, d.pos + 2) ^ (codec::be16(
                        d.buffer[0],
                        d.buffer[1],
                    ) as u16)) as usize,
                    padding: (crypto::mask_at(k.seed, d.pos) % 64) as usize,
                },
                buffer: Seq::empty(),
                count: d.count,
                pos: d.pos + 4,
            },
        ),
        ReadState::Data { size, padding } => {
            let n = if size < padding {
                0
            } else {
                size - padding
            };
            let count = crypto::next_count(d.count);
            if n < 16 {
                Err("vmess short chunk"@)
            } else {
                match aead::opened(
                    k.kind,
                    k.key,
                    crypto::nonce_of(k.iv, 12, count),
                    Seq::empty(),
                    d.buffer.take(n),
                ) {
                    Some(p) => Ok(
                        DownView {
                            state: ReadState::Pending(p.len() as usize),
                            buffer: p,
                            count,
                            pos: d.pos,
                        },
                    ),
                    None => Err("vmess decrypt"@),
                }
            }
        },
        ReadState::Pending(_) => Ok(d),
    }
}

/// Where a stream stands behind a step that failed: its bytes are dropped, and a nonce
/// that was tried on a chunk is used up.
pub open spec fn dropped(d: DownView) -> DownView {
    DownView {
        buffer: Seq::empty(),
        count: if d.state is Data {
            crypto::next_count(d.count)
        } else {
            d.count
        },
        ..d
    }
}

/// What reading comes to.
#[derive(Debug)]
pub enum VmessRead {
    Data(Vec<u8>),
    /// So many more bytes are read.
    More(usize),
    Fail(String),
}

// ---- writing ----
/// A chunk: its masked length, its data encrypted, and padding.
pub open spec fn chunk_bytes(
    kind: AeadKind,
    key: Seq<u8>,
    nonce: Seq<u8>,
    mask: u16,
    data: Seq<u8>,
    padding: Seq<u8>,
) -> Seq<u8> {
    codec::be16_bytes((mask ^ ((data.len() + 16 + padding.len()) as u16)) as int) + aead::sealed(
        kind,
        key,
        nonce,
        Seq::empty(),
        data,
    ) + padding
}

/// Whether a reader with the same masks, key and nonce gets data from a chunk.
pub open spec fn chunk_opens(
    kind: AeadKind,
    key: Seq<u8>,
    nonce: Seq<u8>,
    mask: u16,
    padding: nat,
    b: Seq<u8>,
    data: Seq<u8>,
) -> bool {
    &&& b.len() >= 2
    &&& mask ^ (codec::be16(b[0], b[1]) as u16) == b.len() - 2
    &&& b.len() - 2 == data.len() + 16 + padding
    &&& aead::opened(
        kind,
        key,
        nonce,
        Seq::empty(),
        b.skip(2).take(data.len() as int + 16),
    ) == Some(data)
}

/// A VMess stream.
#[derive(Debug)]
pub struct VmessAuthStream {
    pub sess: ClientSession,
    pub enc: BodyAead,
    pub dec: BodyAead,
    pub enc_nonce: VmessNonce,
    pub dec_nonce: VmessNonce,
    pub enc_size: ShakeSizeParser,
    pub dec_size: ShakeSizeParser,
    pub read_state: ReadState,
    pub read_buf: Vec<u8>,
    pub out: Outgoing,
}

impl View for VmessAuthStream {
    type V = DownView;

    /// What was read.
    open spec fn view(&self) -> DownView {
        DownView {
            state: self.read_state,
            buffer: self.read_buf@,
            count: self.dec_nonce.count,
            pos: self.dec_size.pos as nat,
        }
    }
}

impl VmessAuthStream {
    pub open spec fn keys(self) -> Keys {
        Keys {
            session: self.sess,
            kind: self.dec.kind,
            key: self.dec.key@,
            iv: self.dec_nonce.nonce@,
            seed: self.dec_size.seed@,
        }
    }

    /// The same keys, whatever stands in the counted part of the vector.
    pub open spec fn same_keys(self, o: VmessAuthStream) -> bool {
        &&& self.sess == o.sess
        &&& self.dec == o.dec
        &&& self.dec_size.seed == o.dec_size.seed
        &&& forall|c: u16| #[trigger]
            crypto::nonce_of(self.dec_nonce.nonce@, 12, c) == crypto::nonce_of(
                o.dec_nonce.nonce@,
                12,
                c,
            )
    }

    pub open spec fn same_uplink(self, o: VmessAuthStream) -> bool {
        self.enc == o.enc && self.enc_nonce == o.enc_nonce && self.enc_size == o.enc_size
            && self.out == o.out
    }

    pub open spec fn parts_wf(self) -> bool {
        &&& self.enc.wf() && self.dec.wf()
        &&& self.enc_nonce.wf() && self.enc_nonce.size == 12
        &&& self.dec_nonce.wf() && self.dec_nonce.size == 12
        &&& self.enc_size.wf() && self.dec_size.wf()
        &&& self.out.wf()
    }

    /// What was read belongs to the step that is being taken.
    pub open spec fn wf(self) -> bool {
        &&& self.parts_wf()
        &&& match self.read_state {
            ReadState::HeaderBody(n) => n <= 0xffff && self.read_buf@.len() < n + 16,
            ReadState::Data { size, padding } => size <= 0xffff && padding < 64
                && self.read_buf@.len() <= size,
            ReadState::Pending(n) => self.read_buf@.len() == n,
            s => self.read_buf@.len() < step_size(self.sess, s),
        }
    }

    /// Whether nothing was read or written yet, under the keys of a session.
    pub open spec fn is_new(self, sess: ClientSession, kind: AeadKind) -> bool {
        &&& self.wf()
        &&& self.sess == sess
        &&& self.enc.kind == kind && self.dec.kind == kind
        &&& self.enc.key@ == (if kind == AeadKind::Aes128Gcm {
            sess.request_body_key@
        } else {
            crypto::chacha_key_of(sess.request_body_key@)
        })
        &&& self.dec.key@ == (if kind == AeadKind::Aes128Gcm {
            sess.response_body_key@
        } else {
            crypto::chacha_key_of(sess.response_body_key@)
        })
        &&& self.enc_nonce.nonce@ == sess.request_body_iv@ && self.enc_nonce.count == 0xffff
        &&& self.dec_nonce.nonce@ == sess.response_body_iv@
        &&& self.enc_size.seed@ == sess.request_body_iv@ && self.enc_size.pos == 0
        &&& self.dec_size.seed@ == sess.response_body_iv@
        &&& self.out.frame@.len() == 0
        &&& self@ == (DownView {
            state: ReadState::Header,
            buffer: Seq::empty(),
            count: 0xffff,
            pos: 0,
        })
    }

    pub fn new(sess: ClientSession, security: &str) -> (r: Result<Self, ProxyError>)
        ensures
            match crypto::body_kind(security@) {
                Some(kind) => r is Ok && r->Ok_0.is_new(sess, kind),
                None => r is Err && r->Err_0.says(
                    ProxyErrorCode::AuthRequired,
                    "unsupported vmess cipher "@ + text::lowered(security@),
                ),
            },
    {
        let enc = match BodyAead::new(security, sess.request_body_key.as_slice()) {
            Ok(c) => c,
            Err(e) => {
                return Err(e);
            },
        };
        let dec = match BodyAead::new(security, sess.response_body_key.as_slice()) {
            Ok(c) => c,
            Err(e) => {
                return Err(e);
            },
        };
        let r = VmessAuthStream {
            sess,
            enc,
            dec,
            enc_nonce: VmessNonce::new(sess.request_body_iv.as_slice(), 12),
            dec_nonce: VmessNonce::new(sess.response_body_iv.as_slice(), 12),
            enc_size: ShakeSizeParser::new(sess.request_body_iv.as_slice()),
            dec_size: ShakeSizeParser::new(sess.response_body_iv.as_slice()),
            read_state: ReadState::Header,
            read_buf: Vec::new(),
            out: Outgoing::new(),
        };
        assert(r@.buffer =~= Seq::empty());
        Ok(r)
    }

    fn clear(&mut self) -> (r: Vec<u8>)
        ensures
            r@ == old(self).read_buf@,
            final(self).read_buf@ == Seq::<u8>::empty(),
            final(self).sess == old(self).sess,
            final(self).dec == old(self).dec,
            final(self).dec_nonce == old(self).dec_nonce,
            final(self).dec_size == old(self).dec_size,
            final(self).read_state == old(self).read_state,
            final(self).same_uplink(*old(self)),
    {
        let b = codec::copy(self.read_buf.as_slice());
        self.read_buf = Vec::new();
        assert(self.read_buf@ =~= Seq::empty());
        b
    }

    /// Takes a step whose bytes are all there. Bytes that fail are dropped.
    fn step(&mut self) -> (r: Result<(), String>)
        requires
            old(self).parts_wf(),
            !(old(self).read_state is Pending),
            old(self).read_state is HeaderBody ==> old(self).read_state->HeaderBody_0 <= 0xffff,
            old(self).read_state is Data ==> old(self).read_state->size <= 0xffff
                && old(self).read_state->padding < 64,
            old(self).read_state is Length ==> old(self).dec_size.has_masks(4),
            old(self).read_buf@.len() == step_size(old(self).sess, old(self).read_state),
        ensures
            final(self).wf(),
            final(self).same_keys(*old(self)),
            final(self).same_uplink(*old(self)),
            match stepped(old(self).keys(), old(self)@) {
                Ok(d) => r is Ok && final(self)@ == d,
                Err(m) => r is Err && r->Err_0@ == m && final(self)@ == dropped(old(self)@),
            },
    {
        let b = self.clear();
        match self.read_state {
            ReadState::Header => {
                if self.sess.aead {
                    match protocol::open_answer_part(
                        &self.sess,
                        kdf::KDF_SALT_CONST_AEAD_RESP_HEADER_LEN_KEY,
                        kdf::KDF_SALT_CONST_AEAD_RESP_HEADER_LEN_IV,
                        b.as_slice(),
                    ) {
                        Some(l) => {
                            let n: usize = codec::read_be16(l[0], l[1]) as usize;
                            self.read_state = ReadState::HeaderBody(n);
                            Ok(())
                        },
                        None => Err("vmess resp len".to_owned()),
                    }
                } else {
                    let h = protocol::cfb_decrypt(
                        self.sess.response_body_key.as_slice(),
                        self.sess.response_body_iv.as_slice(),
                        b.as_slice(),
                    );
                    if h[0] != self.sess.response_header {
                        return Err("vmess response header mismatch".to_owned());
                    }
                    self.read_state = ReadState::Length;
                    Ok(())
                }
            },
            ReadState::HeaderBody(_) => {
                match protocol::open_answer_part(
                    &self.sess,
                    kdf::KDF_SALT_CONST_AEAD_RESP_HEADER_PAYLOAD_KEY,
                    kdf::KDF_SALT_CONST_AEAD_RESP_HEADER_PAYLOAD_IV,
                    b.as_slice(),
                ) {
                    Some(h) => {
                        if h.len() == 0 || h[0] != self.sess.response_header {
                            return Err("vmess response header mismatch".to_owned());
                        }
                        self.read_state = ReadState::Length;
                        Ok(())
                    },
                    None => Err("vmess resp header".to_owned()),
                }
            },
            ReadState::Length => {
                let padding: u16 = self.dec_size.next_padding_len();
                let size: u16 = self.dec_size.decode(b.as_slice());
                self.read_state = ReadState::Data {
                    size: size as usize,
                    padding: padding as usize,
                };
                Ok(())
            },
            ReadState::Data { size, padding } => {
                let n: usize = if size < padding {
                    0
                } else {
                    size - padding
                };
                let mut c = codec::copy(&b.as_slice()[0..n]);
                assert(c@ =~= b@.take(n as int));
                let nonce = self.dec_nonce.next();
                match self.dec.open(nonce.as_slice(), &mut c) {
                    Ok(_) => {
                        self.read_state = ReadState::Pending(c.len());
                        self.read_buf = c;
                        Ok(())
                    },
                    Err(e) => Err(e.message),
                }
            },
            ReadState::Pending(_) => Ok(()),
        }
    }

    /// Reads at most `max` bytes of a chunk; how many bytes have to be read below
    /// where there is none.
    pub fn read(&mut self, max: usize) -> (r: VmessRead)
        requires
            old(self).wf(),
        ensures
            final(self).wf(),
            final(self).same_keys(*old(self)),
            final(self).same_uplink(*old(self)),
            match old(self).read_state {
                ReadState::Pending(n) => {
                    let d = outgoing::at_most(old(self).read_buf@, max as int);
                    &&& r is Data
                    &&& r->Data_0@ == d
                    &&& final(self)@ == (DownView {
                        state: if d.len() < n {
                            ReadState::Pending((n - d.len()) as usize)
                        } else {
                            ReadState::Length
                        },
                        buffer: old(self).read_buf@.skip(d.len() as int),
                        ..old(self)@
                    })
                },
                s => r is More && r->More_0 == step_size(old(self).sess, s)
                    - old(self).read_buf@.len() && final(self)@ == old(self)@,
            },
    {
        let have: usize = self.read_buf.len();
        match self.read_state {
            ReadState::Pending(n) => {
                let d = outgoing::take_some(&mut self.read_buf, max);
                let k: usize = d.len();
                self.read_state = if k < n {
                    ReadState::Pending(n - k)
                } else {
                    ReadState::Length
                };
                VmessRead::Data(d)
            },
            ReadState::Header => if self.sess.aead {
                VmessRead::More(18 - have)
            } else {
                VmessRead::More(4 - have)
            },
            ReadState::HeaderBody(n) => VmessRead::More(n + 16 - have),
            ReadState::Length => VmessRead::More(2 - have),
            ReadState::Data { size, padding } => VmessRead::More(size - have),
        }
    }

    /// Takes bytes of the stream below, no more than were asked for. A chunk of
    /// no bytes is taken with no bytes.
    pub fn feed(&mut self, b: &[u8]) -> (r: Result<(), String>)
        requires
            old(self).wf(),
            !(old(self).read_state is Pending),
            old(self).read_buf@.len() + b@.len() <= step_size(
                old(self).sess,
                old(self).read_state,
            ),
        ensures
            final(self).same_keys(*old(self)),
            final(self).same_uplink(*old(self)),
            final(self).wf(),
            ({
                let got = DownView { buffer: old(self).read_buf@ + b@, ..old(self)@ };
                if got.buffer.len() < step_size(old(self).sess, old(self).read_state) {
                    r is Ok && final(self)@ == got
                } else if old(self).read_state is Length && !old(self).dec_size.has_masks(4) {
                    r is Err && r->Err_0@ == "vmess length masks used up"@ && final(self)@
                        == dropped(got)
                } else {
                    match stepped(old(self).keys(), got) {
                        Ok(d) => r is Ok && final(self)@ == d,
                        Err(m) => r is Err && r->Err_0@ == m && final(self)@ == dropped(got),
                    }
                }
            }),
    {
        let need: usize = match self.read_state {
            ReadState::Header => if self.sess.aead {
                18
            } else {
                4
            },
            ReadState::HeaderBody(n) => n + 16,
            ReadState::Length => 2,
            ReadState::Data { size, padding } => size,
            ReadState::Pending(_) => 0,
        };
        let is_length = match self.read_state {
            ReadState::Length => true,
            _ => false,
        };
        codec::append(&mut self.read_buf, b);
        if self.read_buf.len() < need {
            return Ok(());
        }
        if is_length && !self.dec_size.can_draw() {
            let _gone = self.clear();
            return Err("vmess length masks used up".to_owned());
        }
        self.step()
    }

    /// What is told where the stream below ends.
    pub fn closed(&self) -> (r: String)
        ensures
            r@ == "vmess eof"@,
    {
        "vmess eof".to_owned()
    }

    /// How much padding the next chunk has.
    pub open spec fn next_padding(self) -> nat {
        (crypto::mask_at(self.enc_size.seed@, self.enc_size.pos as nat) % 64) as nat
    }

    /// The data of the next chunk.
    pub open spec fn next_chunk(self, data: Seq<u8>) -> Seq<u8> {
        outgoing::at_most(data, MAX_CHUNK - 16 - self.next_padding())
    }

    /// Whether a chunk of the beginning of data was begun, with the given
    /// padding: a reader with the same masks, key and nonce gets the data back.
    pub open spec fn staged(self, o: VmessAuthStream, data: Seq<u8>, padding: Seq<u8>) -> bool {
        let chunk = self.next_chunk(data);
        let mask = crypto::mask_at(self.enc_size.seed@, self.enc_size.pos as nat + 2);
        let nonce = self.enc_nonce.upcoming();
        &&& padding.len() == self.next_padding()
        &&& o.out.left() == chunk_bytes(self.enc.kind, self.enc.key@, nonce, mask, chunk, padding)
        &&& o.out.carries == chunk.len()
        &&& o.out.frame@.len() > 0
        &&& o.enc_size.pos == self.enc_size.pos + 4
        &&& o.enc_nonce.count == crypto::next_count(self.enc_nonce.count)
        &&& chunk_opens(
            self.enc.kind,
            self.enc.key@,
            nonce,
            mask,
            self.next_padding(),
            o.out.left(),
            chunk,
        )
    }

    /// Begins to write data: a chunk of its beginning, with random padding. A
    /// chunk that is being written goes first.
    pub fn begin_write(&mut self, data: &[u8]) -> (r: Result<(), String>)
        requires
            old(self).wf(),
        ensures
            final(self).wf(),
            final(self)@ == old(self)@,
            final(self).keys() == old(self).keys(),
            final(self).enc == old(self).enc,
            final(self).enc_size.seed == old(self).enc_size.seed,
            forall|c: u16| #[trigger]
                crypto::nonce_of(final(self).enc_nonce.nonce@, 12, c) == crypto::nonce_of(
                    old(self).enc_nonce.nonce@,
                    12,
                    c,
                ),
            if old(self).out.frame@.len() > 0 {
                r is Ok && *final(self) == *old(self)
            } else if !old(self).enc_size.has_masks(4) {
                r is Err && r->Err_0@ == "vmess length masks used up"@ && *final(self) == *old(self)
            } else {
                r is Ok && exists|padding: Seq<u8>| #[trigger]
                    old(self).staged(*final(self), data@, padding)
            },
    {
        if !self.out.is_idle() {
            return Ok(());
        }
        if !self.enc_size.can_draw() {
            return Err("vmess length masks used up".to_owned());
        }
        let ghost start = *self;
        let padding: usize = self.enc_size.next_padding_len() as usize;
        let max: usize = MAX_CHUNK - 16 - padding;
        let n: usize = if data.len() <= max {
            data.len()
        } else {
            max
        };
        let len: u16 = (n + 16 + padding) as u16;
        let mut frame = self.enc_size.encode(len);
        let ghost head = frame@;
        let mut piece = codec::copy(&data[0..n]);
        let ghost chunk = piece@;
        let nonce = self.enc_nonce.next();
        self.enc.seal(nonce.as_slice(), &mut piece);
        codec::append(&mut frame, piece.as_slice());
        let pad = random::random_bytes(padding);
        codec::append(&mut frame, pad.as_slice());
        proof {
            let mask = crypto::mask_at(start.enc_size.seed@, start.enc_size.pos as nat + 2);
            crypto::law_length_reads_back(mask, len);
            assert(chunk =~= start.next_chunk(data@));
            assert(frame@[0] == head[0] && frame@[1] == head[1]);
            assert(frame@.skip(2).take(n + 16) =~= piece@);
        }
        self.out.begin(frame, n);
        assert(start.staged(*self, data@, pad@));
        Ok(())
    }
}

// ---- dialling ----
/// Whether a request is one that some draw makes.
#[verifier::opaque]
pub open spec fn requested(
    r: Result<Vec<u8>, ProxyError>,
    id: Seq<char>,
    host: Seq<char>,
    port: u16,
    security: u8,
    sess: ClientSession,
    now: u64,
) -> bool {
    exists|draw: Draw|
        draw.wf() && #[trigger] protocol::request_result(
            r,
            id,
            host,
            port,
            security,
            sess,
            now,
            draw,
        )
}

fn request(
    options: &VmessOptions,
    host: &str,
    port: u16,
    security: u8,
    sess: &ClientSession,
    now: u64,
) -> (r: Result<Vec<u8>, ProxyError>)
    ensures
        requested(r, options.id@, host@, port, security, *sess, now),
{
    let r = protocol::encode_request(options.id.as_str(), host, port, security, sess, now);
    proof {
        reveal(requested);
    }
    r
}

/// Whether this is how a connection to a host begins at a time in seconds: with a
/// stream of a new session, and a request that some draw makes for it.
pub open spec fn begun(
    o: VmessOptions,
    host: Seq<char>,
    port: u16,
    now: u64,
    r: Result<(VmessAuthStream, Vec<u8>), ProxyError>,
) -> bool {
    let name = options::vmess_cipher(o.security@);
    match security_of(name) {
        None => r is Err && r->Err_0.says(
            ProxyErrorCode::AuthRequired,
            "unsupported vmess cipher "@ + name,
        ),
        Some(n) => match r {
            Ok((s, b)) => {
                &&& crypto::body_kind(name) is Some
                &&& s.is_new(s.sess, crypto::body_kind(name)->0)
                &&& protocol::session_with(
                    s.sess,
                    s.sess.request_body_key@,
                    s.sess.request_body_iv@,
                    s.sess.response_header,
                    o.alter_id == 0,
                )
                &&& requested(Ok(b), o.id@, host, port, n, s.sess, now)
            },
            Err(e) => exists|sess: ClientSession| #[trigger]
                requested(Err(e), o.id@, host, port, n, sess, now),
        },
    }
}

/// Begins a connection to a host at a time in seconds: the stream, and the request
/// that is sent first.
pub fn dial_vmess(options: &VmessOptions, host: &str, port: u16, now: u64) -> (r: Result<
    (VmessAuthStream, Vec<u8>),
    ProxyError,
>)
    ensures
        begun(*options, host@, port, now, r),
{
    let (name, security) = match choose_security(options) {
        Ok(x) => x,
        Err(e) => {
            return Err(e);
        },
    };
    proof {
        lemma_has_cipher(name@);
    }
    let sess = ClientSession::new(options.aead());
    let made = request(options, host, port, security, &sess, now);
    match made {
        Err(e) => Err(e),
        Ok(b) => match VmessAuthStream::new(sess, name.as_str()) {
            Ok(s) => Ok((s, b)),
            Err(e) => Err(e),
        },
    }
}

/// A cipher with a number is one for bodies.
proof fn lemma_has_cipher(name: Seq<char>)
    requires
        security_of(name) is Some,
    ensures
        crypto::body_kind(name) is Some,
{
    reveal_strlit("aes-128-gcm");
    reveal_strlit("chacha20-poly1305");
    assert(text::lowered("aes-128-gcm"@) =~= "aes-128-gcm"@);
    assert(text::lowered("chacha20-poly1305"@) =~= "chacha20-poly1305"@);
}

// ---- laws ----
/// A reader between chunks, with the writer's masks, key and nonce, gets the
/// data of a chunk that was written, and then stands behind it.
pub proof fn law_chunk_is_read(k: Keys, d: DownView, b: Seq<u8>, data: Seq<u8>)
    requires
        d.state == ReadState::Length,
        chunk_opens(
            k.kind,
            k.key,
            crypto::nonce_of(k.iv, 12, crypto::next_count(d.count)),
            crypto::mask_at(k.seed, d.pos + 2),
            (crypto::mask_at(k.seed, d.pos) % 64) as nat,
            b,
            data,
        ),
        b.len() <= 0xffff,
    ensures
        ({
            let one = stepped(k, DownView { buffer: b.take(2), ..d });
            &&& one is Ok
            &&& step_size(k.session, one->Ok_0.state) == b.len() - 2
            &&& stepped(k, DownView { buffer: b.skip(2), ..one->Ok_0 }) == Ok::<
                DownView,
                Seq<char>,
            >(
                DownView {
                    state: ReadState::Pending(data.len() as usize),
                    buffer: data,
                    count: crypto::next_count(d.count),
                    pos: d.pos + 4,
                },
            )
        }),
{
    let t = b.take(2);
    assert(t[0] == b[0] && t[1] == b[1]);
}

/// The number of a cipher in a request: 3 for AES-128-GCM and 4 for ChaCha20-Poly1305.
pub proof fn law_cipher_numbers(name: Seq<char>)
    ensures
        name == "aes-128-gcm"@ ==> security_of(name) == Some(3u8),
        name == "chacha20-poly1305"@ ==> security_of(name) == Some(4u8),
        security_of(name) is Some ==> name == "aes-128-gcm"@ || name == "chacha20-poly1305"@,
{
    reveal_strlit("aes-128-gcm");
    reveal_strlit("chacha20-poly1305");
    assert("aes-128-gcm"@.len() == 11 && "chacha20-poly1305"@.len() == 17);
}

/// The first chunk of a stream: its length stands under the second mask that the vector
/// of the request gives, its data is sealed under the request's key with count zero, and
/// its padding is as long as the first mask says, less than 64 bytes.
pub proof fn law_first_chunk_layout(
    a: VmessAuthStream,
    b: VmessAuthStream,
    sess: ClientSession,
    kind: AeadKind,
    data: Seq<u8>,
    padding: Seq<u8>,
)
    requires
        a.is_new(sess, kind),
        a.staged(b, data, padding),
        kind == AeadKind::Aes128Gcm,
    ensures
        ({
            let iv = sess.request_body_iv@;
            let w = b.out.left();
            let n = b.out.carries as int;
            let nonce = seq![0u8, 0u8] + iv.subrange(2, 12);
            let c = aead::aes128_gcm_sealed(
                sess.request_body_key@,
                nonce,
                Seq::empty(),
                data.take(n),
            );
            &&& n <= data.len()
            &&& padding.len() == crypto::mask_at(iv, 0) % 64
            &&& w.len() == 2 + c.len() + padding.len()
            &&& w.len() == 2 + n + 16 + padding.len()
            &&& crypto::mask_at(iv, 2) ^ ((w[0] * 256 + w[1]) as u16) == w.len() - 2
            &&& w.subrange(2, w.len() - padding.len()) == c
            &&& w.skip(w.len() - padding.len()) == padding
            &&& b.enc_nonce.count == 0
            &&& b.enc_size.pos == 4
        }),
{
    let iv = sess.request_body_iv@;
    let w = b.out.left();
    let chunk = a.next_chunk(data);
    let nonce = a.enc_nonce.upcoming();
    assert(a.enc_size.pos == 0);
    crypto::law_nonce_layout(iv, 0);
    assert(nonce =~= seq![0u8, 0u8] + iv.subrange(2, 12)) by {
        assert forall|i: int| 2 <= i < 12 implies nonce[i] == iv[i] by {
            assert(nonce.subrange(2, 12)[i - 2] == iv.subrange(2, 12)[i - 2]);
        }
    }
    assert(chunk =~= data.take(chunk.len() as int));
    let c = aead::aes128_gcm_sealed(sess.request_body_key@, nonce, Seq::empty(), chunk);
    let head = codec::be16_bytes(
        (crypto::mask_at(iv, 2) ^ ((chunk.len() + 16 + padding.len()) as u16)) as int,
    );
    assert(w == head + c + padding);
    assert(w.subrange(2, w.len() - padding.len()) =~= c);
    assert(w.skip(w.len() - padding.len()) =~= padding);
}

} // verus!
