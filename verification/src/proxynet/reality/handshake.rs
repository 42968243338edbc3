//! The handshake of a client.

use vstd::prelude::*;

use crate::codec;
use crate::proxynet::aead;
use crate::proxynet::aead::AeadKind;
use crate::proxynet::error::{ProxyError, ProxyErrorCode};
use crate::proxynet::reality::auth;
use crate::proxynet::reality::hello;
use crate::proxynet::reality::hello::ClientHello;
use crate::proxynet::reality::messages;
use crate::proxynet::reality::messages::{
    HandshakeReader, HsMsg, HsNext, NextStep, ReaderView, ServerHello,
};
use crate::proxynet::reality::record;
use crate::proxynet::reality::record::{
    CipherSuite, ContentType, ProtView, RecView, RecordProtection, TlsRecordStream,
};
use crate::proxynet::reality::schedule;
use crate::proxynet::reality::schedule::HashKind;
use crate::proxynet::reality::stream::RealityTlsStream;
use crate::text;

verus! {

/// How many messages the server may send behind its hello.
pub const MAX_FLIGHT: usize = 8;

/// The version that the client tells of itself.
pub open spec fn client_version() -> Seq<u8> {
    seq![26u8, 3u8, 27u8]
}

// ---- secrets ----
/// The secrets of a handshake: of the client, of the server, and the one behind
/// both.
#[verifier::ext_equal]
pub struct SecretsView {
    pub client: Seq<u8>,
    pub server: Seq<u8>,
    pub master: Seq<u8>,
}

/// The bytes of a label.
pub open spec fn label(s: Seq<char>) -> Seq<u8> {
    vstd::utf8::encode_utf8(s)
}

/// A secret under the label "derived" for an empty transcript.
pub open spec fn derived(hash: HashKind, secret: Seq<u8>) -> Seq<u8> {
    schedule::labelled(
        hash,
        secret,
        label("derived"@),
        hash.digest_of(Seq::empty()),
        hash.size(),
    )
}

/// The secret of the handshake.
pub open spec fn handshake_secret(hash: HashKind, shared: Seq<u8>) -> Seq<u8> {
    let z = schedule::zeros(hash.size());
    schedule::extracted(hash, derived(hash, schedule::extracted(hash, z, z)), shared)
}

/// The secrets of what two keys share, at the digest of the two hellos.
pub open spec fn secrets_of(hash: HashKind, shared: Seq<u8>, digest: Seq<u8>) -> SecretsView {
    let hs = handshake_secret(hash, shared);
    SecretsView {
        client: schedule::labelled(hash, hs, label("c hs traffic"@), digest, hash.size()),
        server: schedule::labelled(hash, hs, label("s hs traffic"@), digest, hash.size()),
        master: schedule::extracted(hash, derived(hash, hs), schedule::zeros(hash.size())),
    }
}

#[derive(Debug)]
pub struct Secrets {
    pub client: Vec<u8>,
    pub server: Vec<u8>,
    pub master: Vec<u8>,
}

impl View for Secrets {
    type V = SecretsView;

    open spec fn view(&self) -> SecretsView {
        SecretsView { client: self.client@, server: self.server@, master: self.master@ }
    }
}

impl Secrets {
    pub open spec fn wf(self, hash: HashKind) -> bool {
        &&& self.client@.len() == hash.size()
        &&& self.server@.len() == hash.size()
        &&& self.master@.len() == hash.size()
    }
}

fn derive(hash: HashKind, secret: &[u8]) -> (r: Vec<u8>)
    requires
        secret@.len() >= hash.size(),
    ensures
        r@ == derived(hash, secret@),
        r@.len() == hash.size(),
{
    let empty = hash.empty();
    let l = codec::bytes_of("derived");
    schedule::secret_for(hash, secret, l.as_slice(), empty.as_slice())
}

/// The secrets of a handshake.
pub fn derive_handshake_secrets(hash: HashKind, shared: &[u8], transcript: &[u8]) -> (r: Secrets)
    ensures
        r@ == secrets_of(hash, shared@, transcript@),
        r.wf(hash),
{
    let mut z: Vec<u8> = Vec::new();
    codec::append_zeros(&mut z, hash.len());
    assert(z@ =~= schedule::zeros(hash.size()));
    let early = schedule::extract(hash, z.as_slice(), z.as_slice());
    let d = derive(hash, early.as_slice());
    let hs = schedule::extract(hash, d.as_slice(), shared);
    let lc = codec::bytes_of("c hs traffic");
    let ls = codec::bytes_of("s hs traffic");
    let client = schedule::secret_for(hash, hs.as_slice(), lc.as_slice(), transcript);
    let server = schedule::secret_for(hash, hs.as_slice(), ls.as_slice(), transcript);
    let e = derive(hash, hs.as_slice());
    let master = schedule::extract(hash, e.as_slice(), z.as_slice());
    Secrets { client, server, master }
}

/// The client's last message.
pub open spec fn finished_message(hash: HashKind, secret: Seq<u8>, digest: Seq<u8>) -> Seq<u8> {
    seq![20u8, 0u8] + codec::be16_bytes(hash.size() as int) + schedule::finished_of(
        hash,
        secret,
        digest,
    )
}

pub fn build_finished(hash: HashKind, traffic: &[u8], transcript: &[u8]) -> (r: Vec<u8>)
    requires
        traffic@.len() >= hash.size(),
    ensures
        r@ == finished_message(hash, traffic@, transcript@),
        r@.len() == 4 + hash.size(),
{
    let mut m: Vec<u8> = Vec::new();
    m.push(20);
    m.push(0);
    assert(m@ =~= seq![20u8, 0u8]);
    codec::push_be16(&mut m, hash.len() as u16);
    let d = schedule::finished_data(hash, traffic, transcript);
    codec::append(&mut m, d.as_slice());
    m
}

/// Checks the server's last message.
pub fn verify_finished(hash: HashKind, traffic: &[u8], transcript: &[u8], body: &[u8]) -> (r: Result<
    (),
    ProxyError,
>)
    requires
        traffic@.len() >= hash.size(),
    ensures
        if body@ == schedule::finished_of(hash, traffic@, transcript@) {
            r is Ok
        } else {
            r is Err && r->Err_0.says(ProxyErrorCode::AuthFailed, unverified_text())
        },
{
    let expected = schedule::finished_data(hash, traffic, transcript);
    if !codec::same_bytes(body, expected.as_slice()) {
        return Err(
            auth::auth_err(
                "The server's Finished did not verify. The peer does not hold the private key for the key_share it sent.",
            ),
        );
    }
    Ok(())
}

pub open spec fn unverified_text() -> Seq<char> {
    "The server's Finished did not verify. The peer does not hold the private key for the key_share it sent."@
}

// ---- the exchange ----
/// What the server's hello agreed on.
#[verifier::ext_equal]
pub struct AgreedView {
    pub suite: CipherSuite,
    pub secrets: SecretsView,
}

/// Where a handshake stands; nothing is agreed on before the server's hello.
#[verifier::ext_equal]
pub struct HsView {
    pub hello: Seq<u8>,
    pub private_key: Seq<u8>,
    pub auth_key: Seq<u8>,
    pub name: Seq<char>,
    pub agreed: Option<AgreedView>,
    pub transcript: Seq<u8>,
    pub leaf: Option<Seq<u8>>,
    pub flight: nat,
}

/// What a message leads to.
pub enum Outcome {
    Go(HsView),
    Done(HsView),
    Fail(ProxyErrorCode, Seq<char>),
}

pub open spec fn refused(m: Seq<char>) -> Outcome {
    Outcome::Fail(ProxyErrorCode::InvalidResponse, m)
}

/// The server's hello, with whether bytes stand behind it.
pub open spec fn on_hello(h: HsView, raw: Seq<u8>, buffered: bool) -> Outcome {
    if raw[0] != 2 {
        refused("Expected a ServerHello, got "@ + text::dec(raw[0] as nat))
    } else {
        match messages::server_hello_of(raw, h.hello) {
            Err(m) => refused(m),
            Ok((suite, share)) => if buffered {
                refused("The peer sent unencrypted handshake bytes after its ServerHello."@)
            } else {
                let t = h.hello + raw;
                Outcome::Go(
                    HsView {
                        transcript: t,
                        agreed: Some(
                            AgreedView {
                                suite,
                                secrets: secrets_of(
                                    suite.hash,
                                    auth::x25519_shared(h.private_key, share),
                                    suite.hash.digest_of(t),
                                ),
                            },
                        ),
                        ..h
                    },
                )
            },
        }
    }
}

/// The server's last message.
pub open spec fn on_finished(h: HsView, a: AgreedView, raw: Seq<u8>) -> Outcome {
    if raw.skip(4) != schedule::finished_of(
        a.suite.hash,
        a.secrets.server,
        a.suite.hash.digest_of(h.transcript),
    ) {
        Outcome::Fail(ProxyErrorCode::AuthFailed, unverified_text())
    } else {
        match h.leaf {
            None => refused("The server sent no certificate."@),
            Some(c) => match messages::reality_fault(c, h.auth_key, h.name) {
                Some(m) => Outcome::Fail(ProxyErrorCode::AuthFailed, m),
                None => Outcome::Done(
                    HsView { transcript: h.transcript + raw, flight: h.flight + 1, ..h },
                ),
            },
        }
    }
}

/// A message behind the server's hello.
pub open spec fn on_flight(h: HsView, a: AgreedView, raw: Seq<u8>) -> Outcome {
    let n = HsView { transcript: h.transcript + raw, flight: h.flight + 1, ..h };
    if h.flight + 1 > MAX_FLIGHT {
        refused("The server sent more than 8 handshake messages without a Finished."@)
    } else if raw[0] == 8 || raw[0] == 15 {
        Outcome::Go(n)
    } else if raw[0] == 11 {
        match messages::leaf_of(raw.skip(4)) {
            Err(m) => refused(m),
            Ok(c) => Outcome::Go(HsView { leaf: Some(c), ..n }),
        }
    } else if raw[0] == 20 {
        on_finished(h, a, raw)
    } else if raw[0] == 13 {
        refused("The server asked for a client certificate, which this client does not implement."@)
    } else {
        refused(
            "Unexpected "@ + text::dec(raw[0] as nat) + " in the server's handshake flight."@,
        )
    }
}

/// What a message leads to.
pub open spec fn on_message(h: HsView, raw: Seq<u8>, buffered: bool) -> Outcome {
    match h.agreed {
        None => on_hello(h, raw, buffered),
        Some(a) => on_flight(h, a, raw),
    }
}

/// What the client sends last: a change of the cipher, and its own last message.
pub open spec fn closing_bytes(h: HsView) -> Seq<u8> {
    let a = h.agreed->0;
    record::record_bytes(None, ContentType::ChangeCipherSpec, seq![1u8]) + record::record_bytes(
        Some(record::protection_of(a.suite, a.secrets.client)),
        ContentType::Handshake,
        finished_message(a.suite.hash, a.secrets.client, a.suite.hash.digest_of(h.transcript)),
    )
}

/// The keys of a direction's data, by its label.
pub open spec fn data_keys(h: HsView, l: Seq<char>) -> ProtView {
    let a = h.agreed->0;
    record::protection_of(
        a.suite,
        schedule::labelled(
            a.suite.hash,
            a.secrets.master,
            label(l),
            a.suite.hash.digest_of(h.transcript),
            a.suite.hash.size(),
        ),
    )
}

/// A handshake with what was read.
#[verifier::ext_equal]
pub struct ExchangeView {
    pub reader: ReaderView,
    pub records: RecView,
    pub hs: HsView,
}

pub enum Progress {
    /// Another message may be there.
    Again,
    More,
    /// The handshake is done; these bytes are sent.
    Done(Seq<u8>),
    Fail(ProxyErrorCode, Seq<char>),
}

/// Takes one message.
pub open spec fn advanced(e: ExchangeView) -> (ExchangeView, Progress) {
    let (r, v, step) = messages::next_step(e.reader, e.records);
    let n = ExchangeView { reader: r, records: v, ..e };
    match step {
        NextStep::More => (n, Progress::More),
        NextStep::Fail(c, m) => (n, Progress::Fail(c, m)),
        NextStep::Message(raw) => match on_message(e.hs, raw, r.buf.len() > 0) {
            Outcome::Fail(c, m) => (n, Progress::Fail(c, m)),
            Outcome::Go(h) => (
                ExchangeView {
                    hs: h,
                    records: if e.hs.agreed is None {
                        RecView {
                            read: Some(
                                record::protection_of(
                                    h.agreed->0.suite,
                                    h.agreed->0.secrets.server,
                                ),
                            ),
                            ..v
                        }
                    } else {
                        v
                    },
                    ..n
                },
                Progress::Again,
            ),
            Outcome::Done(h) => (
                ExchangeView {
                    hs: h,
                    records: RecView { read: Some(data_keys(h, "s ap traffic"@)), ..v },
                    ..n
                },
                Progress::Done(closing_bytes(h)),
            ),
        },
    }
}

/// Takes messages as long as there are whole ones.
pub open spec fn ran(e: ExchangeView) -> (ExchangeView, Progress)
    decreases (if e.hs.agreed is None { 10 } else { 9 - e.hs.flight }),
{
    let (n, p) = advanced(e);
    match p {
        Progress::Again => if e.hs.flight <= MAX_FLIGHT {
            ran(n)
        } else {
            (n, p)
        },
        _ => (n, p),
    }
}

/// What comes of a step of the handshake.
#[derive(Debug)]
pub enum HsStep {
    Again,
    More,
    Done(Vec<u8>),
    Fail(ProxyError),
}

#[derive(Debug)]
pub struct Agreed {
    pub suite: CipherSuite,
    pub secrets: Secrets,
}

/// A handshake.
#[derive(Debug)]
pub struct RealityHandshake {
    pub records: TlsRecordStream,
    pub reader: HandshakeReader,
    pub hello: Vec<u8>,
    pub private_key: [u8; 32],
    pub auth_key: [u8; 32],
    pub server_name: String,
    pub agreed: Option<Agreed>,
    pub transcript: Vec<u8>,
    pub leaf: Option<Vec<u8>>,
    pub flight: usize,
}

pub open spec fn agreed_view(o: Option<Agreed>) -> Option<AgreedView> {
    match o {
        None => None,
        Some(a) => Some(AgreedView { suite: a.suite, secrets: a.secrets@ }),
    }
}

impl View for RealityHandshake {
    type V = ExchangeView;

    open spec fn view(&self) -> ExchangeView {
        ExchangeView {
            reader: self.reader@,
            records: self.records@,
            hs: HsView {
                hello: self.hello@,
                private_key: self.private_key@,
                auth_key: self.auth_key@,
                name: self.server_name@,
                agreed: agreed_view(self.agreed),
                transcript: self.transcript@,
                leaf: codec::opt_bytes(self.leaf),
                flight: self.flight as nat,
            },
        }
    }
}

/// The hello with its session id.
pub open spec fn sealed_hello(
    plain: Seq<u8>,
    auth_key: Seq<u8>,
    now: u32,
    short_id: Seq<u8>,
) -> Seq<u8> {
    codec::put_at(
        plain,
        39,
        auth::session_id_of(plain, auth_key, client_version(), now, short_id),
    )
}

/// Whether a handshake has just begun with a hello that was given.
pub open spec fn begun(
    h: RealityHandshake,
    first: Seq<u8>,
    name: Seq<char>,
    plain: Seq<u8>,
    private_key: Seq<u8>,
    public: Seq<u8>,
    short_id: Seq<u8>,
    now: u32,
) -> bool {
    let auth_key = auth::auth_key_of(private_key, public, plain.subrange(6, 38));
    let sealed = sealed_hello(plain, auth_key, now, short_id);
    &&& h@ == (ExchangeView {
        reader: ReaderView { buf: Seq::empty(), leftover: Seq::empty() },
        records: RecView { inbound: Seq::empty(), read: None },
        hs: HsView {
            hello: sealed,
            private_key,
            auth_key,
            name,
            agreed: None,
            transcript: Seq::empty(),
            leaf: None,
            flight: 0,
        },
    })
    &&& h.records.write is None
    &&& h.records.out.frame@.len() == 0
    &&& first == record::record_bytes(None, ContentType::Handshake, sealed)
    &&& aead::opened(
        AeadKind::Aes256Gcm,
        auth_key,
        plain.subrange(26, 38),
        auth::blanked(plain),
        sealed.subrange(39, 71),
    ) == Some(auth::session_plain(client_version(), now, short_id))
}

fn number_error(a: &str, n: u8, b: &str) -> (r: ProxyError)
    ensures
        r.says(ProxyErrorCode::InvalidResponse, a@ + text::dec(n as nat) + b@),
{
    let mut m = text::chars_of(a);
    let d = text::format_dec(n as u64);
    text::append(&mut m, d.as_slice());
    text::append_str(&mut m, b);
    auth::hs_error(&m)
}

/// Begins a handshake with a hello: what is sent first. A server that has the key
/// opens the session id.
pub fn begin_with(
    hello: ClientHello,
    server_name: &str,
    public: &[u8; 32],
    short_id: &[u8; 8],
    now: u32,
) -> (r: Result<(RealityHandshake, Vec<u8>), ProxyError>)
    requires
        hello.handshake@.len() >= 71,
        hello.handshake@[38] == 32,
    ensures
        if hello.handshake@.len() > record::MAX_PLAINTEXT {
            r is Err && r->Err_0.says(ProxyErrorCode::InvalidResponse, "record too large"@)
        } else {
            r is Ok && (r->Ok_0).0.wf() && begun(
                (r->Ok_0).0,
                (r->Ok_0).1@,
                server_name@,
                hello.handshake@,
                hello.private_key@,
                public@,
                short_id@,
                now,
            )
        },
{
    let ghost plain = hello.handshake@;
    let mut bytes = hello.handshake;
    let total: usize = bytes.len();
    if total > record::MAX_PLAINTEXT {
        return Err(auth::hs_err("record too large"));
    }
    let mut auth_key: [u8; 32] = [0u8; 32];
    let random = codec::copy(&bytes.as_slice()[6..38]);
    assert(random@ =~= plain.subrange(6, 38));
    match auth::derive_auth_key(&mut auth_key, &hello.private_key, public, random.as_slice()) {
        Err(e) => {
            return Err(e);
        },
        Ok(()) => {},
    }
    let version: [u8; 3] = [26, 3, 27];
    assert(version@ =~= client_version());
    match auth::seal_session_id(&mut bytes, &auth_key, short_id, now, version) {
        Err(e) => {
            return Err(e);
        },
        Ok(()) => {},
    }
    let mut records = TlsRecordStream::new();
    let first = records.stage(ContentType::Handshake, bytes.as_slice());
    let h = RealityHandshake {
        records,
        reader: HandshakeReader::new(),
        hello: bytes,
        private_key: hello.private_key,
        auth_key,
        server_name: server_name.to_owned(),
        agreed: None,
        transcript: Vec::new(),
        leaf: None,
        flight: 0,
    };
    proof {
        let id = auth::session_id_of(plain, auth_key@, client_version(), now, short_id@);
        assert(h@.hs.hello.subrange(39, 71) =~= id);
        assert(h@.hs.transcript =~= Seq::empty());
    }
    Ok((h, first))
}

/// Begins a handshake with a new hello: what is sent first.
pub fn handshake(
    server_name: &str,
    pbk: &str,
    short_id: Option<&str>,
    alpn: &[String],
    now: u32,
) -> (r: Result<(RealityHandshake, Vec<u8>), ProxyError>)
    ensures
        match (auth::public_key_of(pbk@), auth::short_id_of(text::opt_str(short_id))) {
            (Err(m), _) => r is Err && r->Err_0.says(ProxyErrorCode::InvalidResponse, m),
            (_, Err(m)) => r is Err && r->Err_0.says(ProxyErrorCode::InvalidResponse, m),
            (Ok(public), Ok(sid)) => match r {
                Ok((h, first)) => h.wf() && exists|random: Seq<u8>, private: Seq<u8>|
                    #![trigger hello::hello_bytes(server_name@, text::strings(alpn@), random, auth::x25519_public(private))]
                    random.len() == 32 && begun(
                        h,
                        first@,
                        server_name@,
                        hello::hello_bytes(
                            server_name@,
                            text::strings(alpn@),
                            random,
                            auth::x25519_public(private),
                        ),
                        private,
                        public,
                        sid,
                        now,
                    ),
                Err(e) => e.says(ProxyErrorCode::InvalidResponse, "record too large"@)
                    && exists|random: Seq<u8>, public: Seq<u8>|
                    random.len() == 32 && public.len() == 32 && #[trigger] hello::hello_bytes(
                        server_name@,
                        text::strings(alpn@),
                        random,
                        public,
                    ).len() > record::MAX_PLAINTEXT,
            },
        },
{
    let public = match auth::decode_pbk(pbk) {
        Ok(k) => k,
        Err(e) => {
            return Err(e);
        },
    };
    let sid = match auth::parse_short_id(short_id) {
        Ok(s) => s,
        Err(e) => {
            return Err(e);
        },
    };
    let h = hello::build(server_name, alpn);
    proof {
        let random = choose|random: Seq<u8>|
            random.len() == 32 && h.handshake@ == #[trigger] hello::hello_bytes(
                server_name@,
                text::strings(alpn@),
                random,
                auth::x25519_public(h.private_key@),
            );
        hello::law_hello_layout(
            server_name@,
            text::strings(alpn@),
            random,
            auth::x25519_public(h.private_key@),
        );
    }
    begin_with(h, server_name, &public, &sid, now)
}

impl RealityHandshake {
    pub open spec fn wf(self) -> bool {
        &&& self.records.wf()
        &&& self.hello@.len() >= 71
        &&& self.flight <= MAX_FLIGHT
        &&& (self.agreed is Some ==> {
            &&& self.agreed->0.suite.wf()
            &&& self.agreed->0.secrets.wf(self.agreed->0.suite.hash)
        })
        &&& self.records.write is None
        &&& self.records.out.frame@.len() == 0
    }

    /// Takes bytes of the stream below.
    pub fn feed(&mut self, data: &[u8])
        requires
            old(self).wf(),
        ensures
            final(self).wf(),
            final(self).records.out == old(self).records.out,
            final(self)@ == (ExchangeView {
                records: RecView {
                    inbound: old(self).records.inbound@ + data@,
                    ..old(self).records@
                },
                ..old(self)@
            }),
    {
        self.records.push_inbound(data);
    }

    fn take_hello(&mut self, msg: HsMsg) -> (r: Result<(), ProxyError>)
        requires
            old(self).wf(),
            old(self).agreed is None,
            messages::is_message(msg, msg.raw@),
        ensures
            final(self).wf(),
            final(self).records.out == old(self).records.out,
            match on_hello(old(self)@.hs, msg.raw@, old(self).reader.buf@.len() > 0) {
                Outcome::Fail(c, m) => r is Err && r->Err_0.says(c, m) && final(self)@
                    == old(self)@,
                Outcome::Done(_) => false,
                Outcome::Go(h) => r is Ok && final(self)@ == (ExchangeView {
                    hs: h,
                    records: RecView {
                        read: Some(
                            record::protection_of(h.agreed->0.suite, h.agreed->0.secrets.server),
                        ),
                        ..old(self)@.records
                    },
                    ..old(self)@
                }),
            },
    {
        if msg.ty != 2 {
            let e = number_error("Expected a ServerHello, got ", msg.ty, "");
            proof {
                reveal_strlit("");
                assert("Expected a ServerHello, got "@ + text::dec(msg.ty as nat) + ""@
                    =~= "Expected a ServerHello, got "@ + text::dec(msg.ty as nat));
            }
            return Err(e);
        }
        let parsed = match messages::parse_server_hello(msg.raw.as_slice(), self.hello.as_slice()) {
            Ok(p) => p,
            Err(e) => {
                return Err(e);
            },
        };
        if self.reader.has_buffered() {
            return Err(
                auth::hs_err("The peer sent unencrypted handshake bytes after its ServerHello."),
            );
        }
        let mut t = codec::copy(self.hello.as_slice());
        codec::append(&mut t, msg.raw.as_slice());
        let ServerHello { suite, key_share } = parsed;
        let shared: [u8; 32] = auth::x25519_agree(&self.private_key, &key_share);
        let digest = suite.hash.digest(t.as_slice());
        let secrets = derive_handshake_secrets(suite.hash, shared.as_slice(), digest.as_slice());
        self.records.read = Some(RecordProtection::new(suite, secrets.server.as_slice()));
        self.agreed = Some(Agreed { suite, secrets });
        self.transcript = t;
        Ok(())
    }

    fn take_flight(&mut self, msg: HsMsg) -> (r: Result<Option<Vec<u8>>, ProxyError>)
        requires
            old(self).wf(),
            old(self).agreed is Some,
            messages::is_message(msg, msg.raw@),
        ensures
            final(self).reader == old(self).reader,
            final(self).records.out == old(self).records.out,
            match on_flight(old(self)@.hs, old(self)@.hs.agreed->0, msg.raw@) {
                Outcome::Fail(c, m) => r is Err && r->Err_0.says(c, m) && final(self)@
                    == old(self)@ && final(self).wf(),
                Outcome::Go(h) => r is Ok && r->Ok_0 is None && final(self)@ == (ExchangeView {
                    hs: h,
                    ..old(self)@
                }) && final(self).wf(),
                Outcome::Done(h) => {
                    &&& r is Ok && r->Ok_0 is Some && r->Ok_0->0@ == closing_bytes(h)
                    &&& final(self)@ == (ExchangeView {
                        hs: h,
                        records: RecView {
                            read: Some(data_keys(h, "s ap traffic"@)),
                            ..old(self)@.records
                        },
                        ..old(self)@
                    })
                    &&& record::prot_view(final(self).records.write) == Some(
                        data_keys(h, "c ap traffic"@),
                    )
                    &&& final(self).records.wf()
                },
            },
    {
        if self.flight + 1 > MAX_FLIGHT {
            return Err(
                auth::hs_err(
                    "The server sent more than 8 handshake messages without a Finished.",
                ),
            );
        }
        if msg.ty == 8 || msg.ty == 15 {
            self.flight = self.flight + 1;
            codec::append(&mut self.transcript, msg.raw.as_slice());
            return Ok(None);
        }
        if msg.ty == 11 {
            match messages::extract_leaf(msg.body.as_slice()) {
                Err(e) => {
                    return Err(e);
                },
                Ok(c) => {
                    self.leaf = Some(c);
                    self.flight = self.flight + 1;
                    codec::append(&mut self.transcript, msg.raw.as_slice());
                    return Ok(None);
                },
            }
        }
        if msg.ty == 20 {
            return self.take_finished(msg);
        }
        if msg.ty == 13 {
            return Err(
                auth::hs_err(
                    "The server asked for a client certificate, which this client does not implement.",
                ),
            );
        }
        Err(number_error("Unexpected ", msg.ty, " in the server's handshake flight."))
    }

    fn take_finished(&mut self, msg: HsMsg) -> (r: Result<Option<Vec<u8>>, ProxyError>)
        requires
            old(self).wf(),
            old(self).agreed is Some,
            old(self).flight < MAX_FLIGHT,
            messages::is_message(msg, msg.raw@),
        ensures
            final(self).reader == old(self).reader,
            final(self).records.out == old(self).records.out,
            match on_finished(old(self)@.hs, old(self)@.hs.agreed->0, msg.raw@) {
                Outcome::Fail(c, m) => r is Err && r->Err_0.says(c, m) && final(self)@
                    == old(self)@ && final(self).wf(),
                Outcome::Go(h) => false,
                Outcome::Done(h) => {
                    &&& r is Ok && r->Ok_0 is Some && r->Ok_0->0@ == closing_bytes(h)
                    &&& final(self)@ == (ExchangeView {
                        hs: h,
                        records: RecView {
                            read: Some(data_keys(h, "s ap traffic"@)),
                            ..old(self)@.records
                        },
                        ..old(self)@
                    })
                    &&& record::prot_view(final(self).records.write) == Some(
                        data_keys(h, "c ap traffic"@),
                    )
                    &&& final(self).records.wf()
                },
            },
    {
        let a = match &self.agreed {
            Some(a) => a,
            None => {
                return Ok(None);
            },
        };
        let hash: HashKind = a.suite.hash;
        let before = hash.digest(self.transcript.as_slice());
        match verify_finished(
            hash,
            a.secrets.server.as_slice(),
            before.as_slice(),
            msg.body.as_slice(),
        ) {
            Err(e) => {
                return Err(e);
            },
            Ok(()) => {},
        }
        match &self.leaf {
            None => {
                return Err(auth::hs_err("The server sent no certificate."));
            },
            Some(c) => {
                match messages::assert_reality(
                    c.as_slice(),
                    self.auth_key.as_slice(),
                    self.server_name.as_str(),
                ) {
                    Err(e) => {
                        return Err(e);
                    },
                    Ok(()) => {},
                }
            },
        }
        let mut t = codec::copy(self.transcript.as_slice());
        codec::append(&mut t, msg.raw.as_slice());
        let after = hash.digest(t.as_slice());
        let one: [u8; 1] = [1];
        assert(one@ =~= seq![1u8]);
        let mut out = self.records.stage(ContentType::ChangeCipherSpec, one.as_slice());
        self.records.write = Some(RecordProtection::new(a.suite, a.secrets.client.as_slice()));
        let fin = build_finished(hash, a.secrets.client.as_slice(), after.as_slice());
        let last = self.records.stage(ContentType::Handshake, fin.as_slice());
        codec::append(&mut out, last.as_slice());
        let lc = codec::bytes_of("c ap traffic");
        let ls = codec::bytes_of("s ap traffic");
        let c_ap = schedule::secret_for(
            hash,
            a.secrets.master.as_slice(),
            lc.as_slice(),
            after.as_slice(),
        );
        let s_ap = schedule::secret_for(
            hash,
            a.secrets.master.as_slice(),
            ls.as_slice(),
            after.as_slice(),
        );
        self.records.write = Some(RecordProtection::new(a.suite, c_ap.as_slice()));
        self.records.read = Some(RecordProtection::new(a.suite, s_ap.as_slice()));
        self.transcript = t;
        self.flight = self.flight + 1;
        Ok(Some(out))
    }

    /// Takes one message of what was read.
    pub fn advance(&mut self) -> (r: HsStep)
        requires
            old(self).wf(),
        ensures
            final(self).records.wf(),
            final(self)@ == advanced(old(self)@).0,
            match advanced(old(self)@).1 {
                Progress::Again => r is Again && final(self).wf() && final(self).agreed is Some,
                Progress::More => r is More && final(self).wf(),
                Progress::Fail(c, m) => r is Fail && r->Fail_0.says(c, m) && final(self).wf(),
                Progress::Done(b) => r is Done && r->Done_0@ == b && record::prot_view(
                    final(self).records.write,
                ) == Some(data_keys(final(self)@.hs, "c ap traffic"@)),
            },
            final(self).records.out == old(self).records.out,
            final(self).records.out.frame@.len() == 0,
    {
        let msg = match self.reader.next(&mut self.records) {
            HsNext::More => {
                return HsStep::More;
            },
            HsNext::Fail(e) => {
                return HsStep::Fail(e);
            },
            HsNext::Message(m) => m,
        };
        if self.agreed.is_none() {
            match self.take_hello(msg) {
                Err(e) => HsStep::Fail(e),
                Ok(()) => HsStep::Again,
            }
        } else {
            match self.take_flight(msg) {
                Err(e) => HsStep::Fail(e),
                Ok(None) => HsStep::Again,
                Ok(Some(b)) => HsStep::Done(b),
            }
        }
    }

    /// Takes messages as long as there are whole ones.
    pub fn run(&mut self) -> (r: HsStep)
        requires
            old(self).wf(),
        ensures
            final(self).records.wf(),
            final(self)@ == ran(old(self)@).0,
            match ran(old(self)@).1 {
                Progress::Again => false,
                Progress::More => r is More && final(self).wf(),
                Progress::Fail(c, m) => r is Fail && r->Fail_0.says(c, m) && final(self).wf(),
                Progress::Done(b) => r is Done && r->Done_0@ == b && record::prot_view(
                    final(self).records.write,
                ) == Some(data_keys(final(self)@.hs, "c ap traffic"@)),
            },
            final(self).records.out == old(self).records.out,
            final(self).records.out.frame@.len() == 0,
    {
        let ghost want = ran(self@);
        loop
            invariant
                self.wf(),
                self.records.out == old(self).records.out,
                want == ran(old(self)@),
                want == ran(self@),
            decreases
                    (if self.agreed is None {
                        10int
                    } else {
                        9 - self.flight
                    }),
        {
            match self.advance() {
                HsStep::Again => {},
                other => {
                    return other;
                },
            }
        }
    }

    /// The stream of data behind a handshake that is done.
    pub fn into_stream(self) -> (r: RealityTlsStream)
        requires
            self.records.wf(),
        ensures
            r.wf(),
            r.records == self.records,
            r.pending@ == self.reader.leftover@,
            !r.received_close,
            r.empty_records == 0,
    {
        RealityTlsStream::new(self.records, self.reader.leftover)
    }
}

// ---- laws ----
/// A handshake is done only with a server that proved that it holds the secret of
/// the two hellos, and whose certificate is bound to the key that it shares with
/// the client.
pub proof fn law_done_is_authenticated(h: HsView, raw: Seq<u8>, buffered: bool)
    requires
        on_message(h, raw, buffered) is Done,
    ensures
        h.agreed is Some,
        raw[0] == 20,
        raw.skip(4) == schedule::finished_of(
            h.agreed->0.suite.hash,
            h.agreed->0.secrets.server,
            h.agreed->0.suite.hash.digest_of(h.transcript),
        ),
        h.leaf is Some,
        messages::reality_fault(h.leaf->0, h.auth_key, h.name) is None,
{
}

/// A handshake takes no more than nine messages: the server's hello and eight
/// behind it.
pub proof fn law_handshake_ends(e: ExchangeView)
    requires
        e.hs.flight <= MAX_FLIGHT,
    ensures
        ran(e).1 !is Again,
        e.hs.flight == MAX_FLIGHT && e.hs.agreed is Some ==> advanced(e).1 !is Again && advanced(e).1 !is Done,
    decreases (if e.hs.agreed is None { 10 } else { 9 - e.hs.flight }),
{
    let (n, p) = advanced(e);
    if p is Again {
        law_handshake_ends(n);
    }
}

/// The secrets of TLS 1.3: zeros under zeros give the early secret; each further one is
/// extracted under what "derived" gives of the one before, first of what the keys
/// share, then of zeros; the two directions have labels of their own.
pub proof fn law_key_schedule(hash: HashKind, shared: Seq<u8>, digest: Seq<u8>)
    ensures
        ({
            let z = schedule::zeros(hash.size());
            let n = hash.size();
            let none = hash.digest_of(Seq::empty());
            let word = vstd::utf8::encode_utf8("derived"@);
            let early = schedule::extracted(hash, z, z);
            let hs = schedule::extracted(
                hash,
                schedule::labelled(hash, early, word, none, n),
                shared,
            );
            let s = secrets_of(hash, shared, digest);
            &&& s.client == schedule::labelled(
                hash,
                hs,
                vstd::utf8::encode_utf8("c hs traffic"@),
                digest,
                n,
            )
            &&& s.server == schedule::labelled(
                hash,
                hs,
                vstd::utf8::encode_utf8("s hs traffic"@),
                digest,
                n,
            )
            &&& s.master == schedule::extracted(
                hash,
                schedule::labelled(hash, hs, word, none, n),
                z,
            )
        }),
{
}

/// The server's hello fixes the secrets: they come of our private key and the key that it
/// sent, at the digest of the two hellos in their order.
pub proof fn law_hello_fixes_secrets(h: HsView, raw: Seq<u8>, suite: CipherSuite, share: Seq<u8>)
    requires
        h.agreed is None,
        raw.len() > 0,
        raw[0] == 2,
        messages::server_hello_of(raw, h.hello) == Ok::<(CipherSuite, Seq<u8>), Seq<char>>(
            (suite, share),
        ),
    ensures
        ({
            let o = on_message(h, raw, false);
            &&& o is Go
            &&& o->Go_0.transcript == h.hello + raw
            &&& o->Go_0.agreed is Some
            &&& o->Go_0.agreed->0.suite == suite
            &&& o->Go_0.agreed->0.secrets == secrets_of(
                suite.hash,
                auth::x25519_shared(h.private_key, share),
                suite.hash.digest_of(h.hello + raw),
            )
            &&& on_message(h, raw, true) is Fail
        }),
{
}

/// Every message behind the hello counts in the transcript, the certificate too, whose
/// leaf is kept.
pub proof fn law_transcript_grows(h: HsView, raw: Seq<u8>, buffered: bool)
    requires
        h.agreed is Some,
        on_message(h, raw, buffered) is Go,
    ensures
        ({
            let n = on_message(h, raw, buffered)->Go_0;
            &&& raw[0] == 8 || raw[0] == 11 || raw[0] == 15
            &&& n.transcript == h.transcript + raw
            &&& n.agreed == h.agreed
            &&& n.auth_key == h.auth_key
            &&& (raw[0] != 11 ==> n.leaf == h.leaf)
            &&& (raw[0] == 11 ==> messages::leaf_of(raw.skip(4)) == Ok::<Seq<u8>, Seq<char>>(
                n.leaf->0,
            ) && n.leaf is Some)
        }),
{
}

/// The client ends a handshake with a change of the cipher, six bytes, and its own proof
/// under its handshake secret: a message of type 20 over the whole transcript.
pub proof fn law_closing_layout(h: HsView)
    requires
        h.agreed is Some,
    ensures
        ({
            let a = h.agreed->0;
            let c = closing_bytes(h);
            let hash = a.suite.hash;
            let proof_message = seq![20u8, 0u8, 0u8, hash.size() as u8] + schedule::finished_of(
                hash,
                a.secrets.client,
                hash.digest_of(h.transcript),
            );
            &&& c.len() >= 6
            &&& c.take(6) == seq![20u8, 3u8, 3u8, 0u8, 1u8, 1u8]
            &&& c.skip(6) == record::record_bytes(
                Some(record::protection_of(a.suite, a.secrets.client)),
                ContentType::Handshake,
                proof_message,
            )
        }),
{
    let a = h.agreed->0;
    let hash = a.suite.hash;
    let c = closing_bytes(h);
    let f = schedule::finished_of(hash, a.secrets.client, hash.digest_of(h.transcript));
    assert(codec::be16_bytes(hash.size() as int) =~= seq![0u8, hash.size() as u8]);
    assert(seq![20u8, 0u8] + codec::be16_bytes(hash.size() as int) + f =~= seq![
        20u8,
        0u8,
        0u8,
        hash.size() as u8,
    ] + f);
    assert(c.take(6) =~= seq![20u8, 3u8, 3u8, 0u8, 1u8, 1u8]);
    assert(c.skip(6) =~= record::record_bytes(
        Some(record::protection_of(a.suite, a.secrets.client)),
        ContentType::Handshake,
        finished_message(hash, a.secrets.client, hash.digest_of(h.transcript)),
    ));
}

/// The keys of the data that the client writes come of the master secret under
/// "c ap traffic", at the digest of the whole handshake.
pub proof fn law_data_keys(h: HsView)
    requires
        h.agreed is Some,
    ensures
        ({
            let a = h.agreed->0;
            let hash = a.suite.hash;
            forall|l: Seq<char>| #[trigger]
                data_keys(h, l) == record::protection_of(
                    a.suite,
                    schedule::labelled(
                        hash,
                        a.secrets.master,
                        vstd::utf8::encode_utf8(l),
                        hash.digest_of(h.transcript),
                        hash.size(),
                    ),
                )
        }),
{
}

/// The hello that is sent first hides version 26.3.27, the time and the short id in its
/// session id, under the key that the client's and the server's keys give with the
/// first 20 bytes of the hello's random; apart from the session id it is the hello.
pub proof fn law_first_hello(
    h: RealityHandshake,
    first: Seq<u8>,
    name: Seq<char>,
    plain: Seq<u8>,
    private_key: Seq<u8>,
    public: Seq<u8>,
    short_id: Seq<u8>,
    now: u32,
)
    requires
        begun(h, first, name, plain, private_key, public, short_id, now),
        plain.len() >= 71,
        plain.len() < 0x4000,
        short_id.len() == 8,
        auth::session_id_of(
            plain,
            h@.hs.auth_key,
            client_version(),
            now,
            short_id,
        ).len() == 32,
    ensures
        ({
            let hidden = seq![26u8, 3u8, 27u8, 0u8] + codec::be32_bytes(now as int) + short_id;
            let key = crate::hash::hkdf_sha256_derived(
                auth::x25519_shared(private_key, public),
                plain.subrange(6, 26),
                seq![0x52u8, 0x45u8, 0x41u8, 0x4cu8, 0x49u8, 0x54u8, 0x59u8],
                32,
            );
            &&& h@.hs.auth_key == key
            &&& h@.hs.private_key == private_key
            &&& first.len() == 5 + plain.len()
            &&& first.take(3) == seq![22u8, 3u8, 1u8]
            &&& first.subrange(5, 44) == plain.take(39)
            &&& first.subrange(44, 76) == aead::aes256_gcm_sealed(
                key,
                plain.subrange(26, 38),
                auth::blanked(plain),
                hidden,
            )
            &&& first.skip(76) == plain.skip(71)
            &&& h@.hs.hello == first.skip(5)
        }),
{
    let random = plain.subrange(6, 38);
    let salt = plain.subrange(6, 26);
    assert forall|i: int| 0 <= i < 20 implies salt[i] == random[i] by {}
    auth::law_key_is_salted_by_twenty_bytes(private_key, public, random, salt);
    let key = auth::auth_key_of(private_key, public, random);
    let id = auth::session_id_of(plain, key, client_version(), now, short_id);
    let sealed = sealed_hello(plain, key, now, short_id);
    assert(sealed.len() == plain.len());
    record::law_plain_record_layout(ContentType::Handshake, sealed);
    assert(first.skip(5) == sealed);
    assert(first.take(3) =~= seq![22u8, 3u8, 1u8]);
    assert(first.subrange(5, 44) =~= sealed.take(39));
    assert(sealed.take(39) =~= plain.take(39));
    assert(first.subrange(44, 76) =~= sealed.subrange(39, 71));
    assert(sealed.subrange(39, 71) =~= id);
    assert(first.skip(76) =~= sealed.skip(71));
    assert(sealed.skip(71) =~= plain.skip(71));
    assert(auth::session_plain(client_version(), now, short_id) =~= seq![26u8, 3u8, 27u8, 0u8]
        + codec::be32_bytes(now as int) + short_id);
}

/// The first message of a server is a hello; one of another type is refused, and so is one
/// behind which more comes in the clear.
pub proof fn law_hello_comes_first(h: HsView, raw: Seq<u8>, buffered: bool)
    requires
        raw.len() > 0,
    ensures
        raw[0] != 2 ==> on_hello(h, raw, buffered) !is Go,
        buffered ==> on_hello(h, raw, buffered) !is Go,
        raw[0] == 2 && !buffered && messages::server_hello_of(raw, h.hello) is Ok ==> on_hello(
            h,
            raw,
            buffered,
        ) is Go,
{
}

} // verus!
