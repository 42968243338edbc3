//! VLESS: the request that opens a connection, and the head of the answer.

use vstd::prelude::*;

use crate::codec;
use crate::proxynet::address;
use crate::proxynet::crypto;
use crate::proxynet::error;
use crate::proxynet::error::{ProxyError, ProxyErrorCode};
use crate::proxynet::outgoing;
use crate::proxynet::vision::VISION_FLOW;
use crate::text;

verus! {

pub const VERSION: u8 = 0x00;

pub const CMD_TCP: u8 = 0x01;

pub const ATYP_IPV4: u8 = 0x01;

pub const ATYP_DOMAIN: u8 = 0x02;

pub const ATYP_IPV6: u8 = 0x03;

pub const ADDONS_FLOW_TAG: u8 = 0x0A;

/// The longest request.
pub const MAX_REQUEST: usize = 296;

/// The addons of a request: none, or the flow.
pub open spec fn addons(vision: bool) -> Seq<u8> {
    if vision {
        seq![18u8, ADDONS_FLOW_TAG, 16u8] + flow_bytes()
    } else {
        seq![0u8]
    }
}

/// The name of the flow in ASCII.
pub open spec fn flow_bytes() -> Seq<u8> {
    seq![
        0x78u8, 0x74u8, 0x6cu8, 0x73u8, 0x2du8, 0x72u8, 0x70u8, 0x72u8, 0x78u8, 0x2du8, 0x76u8,
        0x69u8, 0x73u8, 0x69u8, 0x6fu8, 0x6eu8,
    ]
}

/// The request behind the user id.
pub open spec fn request_tail(host: Seq<char>, port: u16, vision: bool) -> Option<Seq<u8>> {
    match address::address_bytes(host, ATYP_IPV4, ATYP_DOMAIN, ATYP_IPV6) {
        Some(a) => Some(addons(vision) + seq![CMD_TCP] + codec::be16_bytes(port as int) + a),
        None => None,
    }
}

/// Why a request cannot be built.
pub open spec fn request_fault(id: Seq<char>) -> (ProxyErrorCode, Seq<char>) {
    if crypto::uuid_bytes(id) is None {
        (ProxyErrorCode::AuthRequired, "VLESS user id '"@ + id + "' is unusable"@)
    } else {
        (
            ProxyErrorCode::StringTooLong,
            "Target host name exceeds the maximum of 255 bytes."@,
        )
    }
}

/// The request: version, user id, addons, command, port and address.
pub open spec fn request_bytes(
    id: Seq<char>,
    host: Seq<char>,
    port: u16,
    vision: bool,
) -> Option<Seq<u8>> {
    match (crypto::uuid_bytes(id), request_tail(host, port, vision)) {
        (Some(u), Some(t)) => Some(seq![VERSION] + u + t),
        _ => None,
    }
}

fn unusable_id(id: &str) -> (r: ProxyError)
    ensures
        r.says(ProxyErrorCode::AuthRequired, "VLESS user id '"@ + id@ + "' is unusable"@),
{
    let mut m = text::chars_of("VLESS user id '");
    text::append_str(&mut m, id);
    text::append_str(&mut m, "' is unusable");
    error::error_of(ProxyErrorCode::AuthRequired, &m)
}

fn push_flow(out: &mut Vec<u8>)
    ensures
        final(out)@ == old(out)@ + flow_bytes(),
{
    let f: [u8; 16] = [
        0x78, 0x74, 0x6c, 0x73, 0x2d, 0x72, 0x70, 0x72, 0x78, 0x2d, 0x76, 0x69, 0x73, 0x69, 0x6f,
        0x6e,
    ];
    assert(f@ =~= flow_bytes());
    codec::append(out, f.as_slice());
}

/// What is written of a request that cannot be built: up to the id that is none, or up
/// to the type of the address.
pub open spec fn request_start(id: Seq<char>, port: u16, vision: bool) -> Seq<u8> {
    match crypto::uuid_bytes(id) {
        None => seq![VERSION],
        Some(u) => seq![VERSION] + u + addons(vision) + seq![CMD_TCP] + codec::be16_bytes(
            port as int,
        ) + seq![ATYP_DOMAIN],
    }
}

/// Writes a request into a buffer; returns its length.
pub fn build_request(buffer: &mut [u8], id: &str, host: &str, port: u16, vision: bool) -> (r:
    Result<usize, ProxyError>)
    requires
        old(buffer)@.len() >= 39 + address::address_room(host@),
    ensures
        final(buffer)@.len() == old(buffer)@.len(),
        match request_bytes(id@, host@, port, vision) {
            Some(b) => r == Ok::<usize, ProxyError>(b.len() as usize) && final(buffer)@
                == codec::put_at(old(buffer)@, 0, b),
            None => r is Err && r->Err_0.says(request_fault(id@).0, request_fault(id@).1)
                && final(buffer)@ == codec::put_at(
                old(buffer)@,
                0,
                request_start(id@, port, vision),
            ),
        },
{
    let ghost start = buffer@;
    proof {
        address::lemma_address_room(host@, ATYP_IPV4, ATYP_DOMAIN, ATYP_IPV6);
    }
    buffer[0] = VERSION;
    let uuid = match crypto::uuid_of(id) {
        Some(u) => u,
        None => {
            assert(buffer@ =~= codec::put_at(start, 0, request_start(id@, port, vision)));
            return Err(unusable_id(id));
        },
    };
    codec::put(buffer, 1, uuid.as_slice());
    let ghost head = seq![VERSION] + uuid@;
    assert(buffer@ =~= codec::put_at(start, 0, head));
    let mut t: Vec<u8> = Vec::new();
    if vision {
        t.push(18);
        t.push(ADDONS_FLOW_TAG);
        t.push(16);
        push_flow(&mut t);
    } else {
        t.push(0);
    }
    assert(t@ =~= addons(vision));
    t.push(CMD_TCP);
    codec::push_be16(&mut t, port);
    let ghost mid = addons(vision) + seq![CMD_TCP] + codec::be16_bytes(port as int);
    assert(t@ =~= mid);
    codec::put(buffer, 17, t.as_slice());
    assert(buffer@ =~= codec::put_at(start, 0, head + mid));
    let n: usize = 17 + t.len();
    match address::write_address_at(host, buffer, n, ATYP_IPV4, ATYP_DOMAIN, ATYP_IPV6) {
        Ok(m) => {
            proof {
                let a = address::address_bytes(host@, ATYP_IPV4, ATYP_DOMAIN, ATYP_IPV6)->0;
                let b = request_bytes(id@, host@, port, vision)->0;
                assert(b =~= head + mid + a);
                assert(buffer@ =~= codec::put_at(start, 0, b));
            }
            Ok(n + m)
        },
        Err(e) => {
            assert(buffer@ =~= codec::put_at(start, 0, request_start(id@, port, vision)));
            Err(e)
        },
    }
}

/// The request with which a connection begins.
pub fn open_request(id: &str, host: &str, port: u16, vision: bool) -> (r: Result<
    Vec<u8>,
    ProxyError,
>)
    ensures
        match request_bytes(id@, host@, port, vision) {
            Some(b) => r is Ok && r->Ok_0@ == b,
            None => r is Err && r->Err_0.says(request_fault(id@).0, request_fault(id@).1),
        },
{
    let mut buffer: [u8; 296] = [0u8; 296];
    proof {
        address::lemma_address_room(host@, ATYP_IPV4, ATYP_DOMAIN, ATYP_IPV6);
    }
    match build_request(&mut buffer, id, host, port, vision) {
        Ok(n) => {
            let r = codec::copy(&buffer.as_slice()[0..n]);
            assert(r@ =~= request_bytes(id@, host@, port, vision)->0);
            Ok(r)
        },
        Err(e) => Err(e),
    }
}

/// Whether a flow is the one that pads; the case of its letters does not count.
pub fn is_vision(flow: Option<&str>) -> (r: bool)
    ensures
        r == (flow is Some && text::same_nocase(flow->0@, VISION_FLOW@)),
{
    match flow {
        Some(f) => {
            let c = text::chars_of(f);
            text::is_nocase(c.as_slice(), VISION_FLOW)
        },
        None => false,
    }
}

// ---- the answer ----
/// What has been read of an answer: whether its head is read, how many bytes of
/// addons it still has, where that is known, and what is not used yet.
#[verifier::ext_equal]
pub struct AnswerView {
    pub header_read: bool,
    pub addons_left: Option<nat>,
    pub pending: Seq<u8>,
}

/// An answer with its head read as far as it is there; none where its version
/// is not known.
pub open spec fn settled(s: AnswerView) -> Option<AnswerView> {
    if s.header_read {
        Some(s)
    } else {
        match s.addons_left {
            Some(n) => Some(skip_addons(s.pending, n)),
            None => if s.pending.len() < 2 {
                Some(s)
            } else if s.pending[0] != VERSION {
                None
            } else {
                Some(skip_addons(s.pending.skip(2), s.pending[1] as nat))
            },
        }
    }
}

pub open spec fn skip_addons(pending: Seq<u8>, n: nat) -> AnswerView {
    if pending.len() >= n {
        AnswerView { header_read: true, addons_left: Some(n), pending: pending.skip(n as int) }
    } else {
        AnswerView { header_read: false, addons_left: Some(n), pending }
    }
}

/// An answer with more bytes.
pub open spec fn fed(s: AnswerView, b: Seq<u8>) -> AnswerView {
    AnswerView { header_read: s.header_read, addons_left: s.addons_left, pending: s.pending + b }
}

/// What reading an answer gives.
#[derive(Debug)]
pub enum VlessRead {
    Data(Vec<u8>),
    /// The stream below is read directly.
    Through,
    /// More of the head has to be read.
    More,
    Fail(String),
}

/// An answer that is being read.
#[derive(Debug)]
pub struct VlessResponseStream {
    pub host: String,
    pub port: u16,
    pub header_read: bool,
    pub pending: Vec<u8>,
    pub addons_left: Option<usize>,
}

/// Why an answer with another version is refused.
pub open spec fn version_text(v: u8) -> Seq<char> {
    "Unexpected VLESS response version. Expected 0x00, got 0x"@ + seq![
        codec::upper_hex(v as int / 16),
        codec::upper_hex(v as int % 16),
    ] + "."@
}

/// What is told of an answer that ends within its head.
pub open spec fn eof_text(host: Seq<char>, port: u16) -> Seq<char> {
    "VLESS server closed the connection before completing the handshake for "@ + host + ":"@
        + text::dec(port as nat) + " (wrong UUID or rejected request?)."@
}

impl View for VlessResponseStream {
    type V = AnswerView;

    open spec fn view(&self) -> AnswerView {
        AnswerView {
            header_read: self.header_read,
            addons_left: match self.addons_left {
                Some(n) => Some(n as nat),
                None => None,
            },
            pending: self.pending@,
        }
    }
}

impl VlessResponseStream {
    pub fn new(host: &str, port: u16) -> (r: Self)
        ensures
            r@ == (AnswerView { header_read: false, addons_left: None, pending: Seq::empty() }),
            r.host@ == host@,
            r.port == port,
    {
        let r = VlessResponseStream {
            host: host.to_owned(),
            port,
            header_read: false,
            pending: Vec::new(),
            addons_left: None,
        };
        assert(r@.pending =~= Seq::empty());
        r
    }

    fn skip_addons(&mut self, n: usize)
        requires
            !old(self).header_read,
        ensures
            final(self)@ == skip_addons(old(self).pending@, n as nat),
            final(self).host == old(self).host,
            final(self).port == old(self).port,
    {
        self.addons_left = Some(n);
        if self.pending.len() >= n {
            let _gone = codec::take_front(&mut self.pending, n);
            self.header_read = true;
        }
    }

    /// Reads the head as far as it is there; `false` where its version is not
    /// known.
    fn settle(&mut self) -> (r: bool)
        ensures
            final(self).host == old(self).host,
            final(self).port == old(self).port,
            match settled(old(self)@) {
                Some(s) => r && final(self)@ == s,
                None => !r && final(self)@ == old(self)@ && old(self).pending@.len() > 0,
            },
    {
        if self.header_read {
            return true;
        }
        if let Some(n) = self.addons_left {
            self.skip_addons(n);
            return true;
        }
        if self.pending.len() < 2 {
            return true;
        }
        if self.pending[0] != VERSION {
            return false;
        }
        let n: usize = self.pending[1] as usize;
        let _gone = codec::take_front(&mut self.pending, 2);
        self.skip_addons(n);
        true
    }

    /// Reads at most `max` bytes of data.
    pub fn read(&mut self, max: usize) -> (r: VlessRead)
        ensures
            final(self).host == old(self).host,
            final(self).port == old(self).port,
            match settled(old(self)@) {
                None => r is Fail && r->Fail_0@ == version_text(old(self).pending@[0])
                    && final(self)@ == old(self)@,
                Some(s) => if !s.header_read {
                    r is More && final(self)@ == s
                } else if s.pending.len() == 0 {
                    r is Through && final(self)@ == s
                } else {
                    r is Data && r->Data_0@ == outgoing::at_most(s.pending, max as int)
                        && final(self)@ == (AnswerView {
                        pending: s.pending.skip(r->Data_0@.len() as int),
                        ..s
                    })
                },
            },
    {
        if !self.settle() {
            let v: u8 = self.pending[0];
            let mut m = text::chars_of("Unexpected VLESS response version. Expected 0x00, got 0x");
            let ghost before = m@;
            m.push(codec::to_upper_hex(v / 16));
            m.push(codec::to_upper_hex(v % 16));
            assert(m@ =~= before + seq![codec::upper_hex(v as int / 16), codec::upper_hex(v as int % 16)]);
            text::append_str(&mut m, ".");
            return VlessRead::Fail(text::string_of(m.as_slice()));
        }
        if !self.header_read {
            return VlessRead::More;
        }
        if self.pending.len() == 0 {
            return VlessRead::Through;
        }
        let b = outgoing::take_some(&mut self.pending, max);
        VlessRead::Data(b)
    }

    /// Takes bytes of the stream below.
    pub fn feed(&mut self, b: &[u8])
        ensures
            final(self)@ == fed(old(self)@, b@),
            final(self).host == old(self).host,
            final(self).port == old(self).port,
    {
        codec::append(&mut self.pending, b);
    }

    /// What is told where the stream below ends within the head.
    pub fn handshake_eof(&self) -> (r: String)
        ensures
            r@ == eof_text(self.host@, self.port),
    {
        let mut m = text::chars_of(
            "VLESS server closed the connection before completing the handshake for ",
        );
        text::append_str(&mut m, self.host.as_str());
        text::append_str(&mut m, ":");
        let d = text::format_dec(self.port as u64);
        text::append(&mut m, d.as_slice());
        text::append_str(&mut m, " (wrong UUID or rejected request?).");
        text::string_of(m.as_slice())
    }

    /// Takes what is not used yet.
    pub fn take_pending(&mut self) -> (r: Vec<u8>)
        ensures
            r@ == old(self).pending@,
            final(self)@ == (AnswerView { pending: Seq::empty(), ..old(self)@ }),
            final(self).host == old(self).host,
            final(self).port == old(self).port,
    {
        let r = codec::copy(self.pending.as_slice());
        self.pending = Vec::new();
        assert(self@.pending =~= Seq::empty());
        r
    }
}

// ---- laws ----
/// In which pieces an answer comes does not matter: what was settled before more
/// bytes came settles to the same as if they had come at once.
pub proof fn law_pieces_do_not_matter(s: AnswerView, b: Seq<u8>)
    requires
        settled(s) is Some,
    ensures
        settled(fed(settled(s)->0, b)) == settled(fed(s, b)),
{
    let t = settled(s)->0;
    if !s.header_read {
        match s.addons_left {
            Some(n) => {
                if s.pending.len() >= n {
                    assert(s.pending.skip(n as int) + b =~= (s.pending + b).skip(n as int));
                }
            },
            None => {
                if s.pending.len() >= 2 {
                    let n = s.pending[1] as nat;
                    let rest = s.pending.skip(2);
                    assert((s.pending + b).skip(2) =~= rest + b);
                    if rest.len() >= n {
                        assert(rest.skip(n as int) + b =~= (rest + b).skip(n as int));
                    }
                }
            },
        }
    }
}

/// Behind the head of an answer comes its data, unchanged.
pub proof fn law_data_follows_head(addons: Seq<u8>, data: Seq<u8>)
    requires
        addons.len() <= 255,
    ensures
        settled(
            AnswerView {
                header_read: false,
                addons_left: None,
                pending: seq![VERSION, addons.len() as u8] + addons + data,
            },
        ) == Some(
            AnswerView { header_read: true, addons_left: Some(addons.len()), pending: data },
        ),
{
    let p = seq![VERSION, addons.len() as u8] + addons + data;
    assert(p.skip(2) =~= addons + data);
    assert((addons + data).skip(addons.len() as int) =~= data);
}

/// The layout of a request: version 0, the user id, the addons, the command 1, the port
/// with the high byte first, and the address with types 1, 2 and 3. The addons are
/// empty, or name the flow xtls-rprx-vision as field 1 of a message of 18 bytes.
pub proof fn law_request_layout(id: Seq<char>, host: Seq<char>, port: u16, vision: bool)
    requires
        crypto::uuid_bytes(id) is Some,
        crypto::uuid_bytes(id)->0.len() == 16,
        address::address_bytes(host, 1, 2, 3) is Some,
    ensures
        ({
            let r = request_bytes(id, host, port, vision)->0;
            let a = address::address_bytes(host, 1, 2, 3)->0;
            let k: int = if vision {
                36
            } else {
                18
            };
            &&& request_bytes(id, host, port, vision) is Some
            &&& r.len() == k + 3 + a.len()
            &&& r[0] == 0
            &&& r.subrange(1, 17) == crypto::uuid_bytes(id)->0
            &&& (!vision ==> r[17] == 0)
            &&& (vision ==> r[17] == 18 && r[18] == 10 && r[19] == 16 && r.subrange(20, 36)
                == vstd::utf8::encode_utf8("xtls-rprx-vision"@))
            &&& r[k] == 1
            &&& r[k + 1] * 256 + r[k + 2] == port
            &&& r.skip(k + 3) == a
        }),
{
    let r = request_bytes(id, host, port, vision)->0;
    let u = crypto::uuid_bytes(id)->0;
    let a = address::address_bytes(host, 1, 2, 3)->0;
    codec::law_high_byte_first(port as int);
    let p = codec::be16_bytes(port as int);
    reveal_strlit("xtls-rprx-vision");
    vstd::utf8::is_ascii_chars_encode_utf8("xtls-rprx-vision"@);
    assert(vstd::utf8::encode_utf8("xtls-rprx-vision"@) =~= flow_bytes());
    assert(r.subrange(1, 17) =~= u);
    if vision {
        assert(r.subrange(20, 36) =~= flow_bytes());
        assert(r[37] == p[0] && r[38] == p[1]);
        assert(r.skip(39) =~= a);
    } else {
        assert(r[19] == p[0] && r[20] == p[1]);
        assert(r.skip(21) =~= a);
    }
}

/// An answer is version 0, the length of its addons, the addons, and the data: all that
/// stands behind the addons is read, and nothing else.
pub proof fn law_answer_head_is_skipped(extra: Seq<u8>, data: Seq<u8>)
    requires
        extra.len() < 256,
    ensures
        ({
            let s = AnswerView {
                header_read: false,
                addons_left: None,
                pending: seq![0u8, extra.len() as u8] + extra + data,
            };
            &&& settled(s) is Some
            &&& settled(s)->0.header_read
            &&& settled(s)->0.pending == data
        }),
{
    let p = seq![0u8, extra.len() as u8] + extra + data;
    assert(p.skip(2) =~= extra + data);
    assert((extra + data).skip(extra.len() as int) =~= data);
}

/// An answer of another version is refused.
pub proof fn law_other_version_is_refused(s: AnswerView)
    requires
        !s.header_read,
        s.addons_left is None,
        s.pending.len() >= 2,
        s.pending[0] != 0,
    ensures
        settled(s) is None,
{
}

/// Why a request is refused: an id that is none, or a host that is too long.
pub proof fn law_request_faults(id: Seq<char>)
    ensures
        crypto::uuid_bytes(id) is None ==> request_fault(id).0 == ProxyErrorCode::AuthRequired,
        crypto::uuid_bytes(id) is Some ==> request_fault(id).0 == ProxyErrorCode::StringTooLong,
{
}

} // verus!
