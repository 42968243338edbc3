//! SOCKS5: the exchange that opens a connection.

use vstd::prelude::*;

use crate::codec;
use crate::proxynet::address;
use crate::proxynet::error;
use crate::proxynet::error::{ProxyError, ProxyErrorCode};
use crate::proxynet::options::SocksOptions;
use crate::text;

verus! {

/// Which answer is awaited.
#[derive(Clone, Copy, Debug, PartialEq, Eq, Structural)]
pub enum Await {
    /// The choice of a method.
    Method,
    /// Whether user and password are accepted.
    Auth,
    /// The beginning of the answer to the request.
    Reply,
    /// The length of a name.
    NameLength,
    /// The rest of the answer.
    Rest(usize),
    /// Nothing: the connection is open.
    Open,
}

/// What is done next.
#[derive(Debug)]
pub enum SocksAction {
    /// Send these bytes, then read the awaited answer.
    Send(Vec<u8>),
    /// Read the awaited answer.
    Read,
    /// The connection is open.
    Done,
    Fail(ProxyError),
}

/// An exchange with a SOCKS5 server.
#[derive(Debug)]
pub struct SocksDial {
    pub user: String,
    pub pass: String,
    pub host: String,
    pub port: u16,
    pub awaits: Await,
}

/// How long the awaited answer is.
pub open spec fn answer_len(a: Await) -> nat {
    match a {
        Await::Method => 2,
        Await::Auth => 2,
        Await::Reply => 4,
        Await::NameLength => 1,
        Await::Rest(n) => n as nat,
        Await::Open => 0,
    }
}

/// The methods that are offered: none, and user and password where there is a
/// user.
pub open spec fn greeting(user: Seq<char>) -> Seq<u8> {
    if user.len() == 0 {
        seq![5u8, 1, 0]
    } else {
        seq![5u8, 2, 0, 2]
    }
}

/// User and password, each behind the lowest byte of its length.
pub open spec fn auth_message(user: Seq<u8>, pass: Seq<u8>) -> Seq<u8> {
    seq![1u8, (user.len() % 256) as u8] + user + seq![(pass.len() % 256) as u8] + pass
}

/// The request to connect, if the address has a form.
pub open spec fn connect_message(host: Seq<char>, port: u16) -> Option<Seq<u8>> {
    match address::address_bytes(host, 1, 3, 4) {
        Some(b) => Some(seq![5u8, 1, 0] + b + codec::be16_bytes(port as int)),
        None => None,
    }
}

/// What an answer leads to: what is awaited then, and what is done.
pub enum SocksView {
    Send(Seq<u8>, Await),
    Read(Await),
    Done,
    Fail(ProxyErrorCode, Seq<char>),
}

pub open spec fn request_step(host: Seq<char>, port: u16) -> SocksView {
    match connect_message(host, port) {
        Some(b) => SocksView::Send(b, Await::Reply),
        None => SocksView::Fail(
            ProxyErrorCode::StringTooLong,
            "Target host name exceeds the maximum of 255 bytes."@,
        ),
    }
}

/// The step that an answer leads to.
pub open spec fn answer_step(
    a: Await,
    b: Seq<u8>,
    user: Seq<char>,
    pass: Seq<char>,
    host: Seq<char>,
    port: u16,
) -> SocksView {
    match a {
        Await::Method => if b[0] != 5 {
            SocksView::Fail(ProxyErrorCode::InvalidResponse, "SOCKS5 version mismatch"@)
        } else if b[1] == 0 {
            request_step(host, port)
        } else if b[1] == 2 {
            if user.len() == 0 {
                SocksView::Fail(
                    ProxyErrorCode::AuthRequired,
                    "SOCKS5 server requested username/password"@,
                )
            } else {
                SocksView::Send(
                    auth_message(vstd::utf8::encode_utf8(user), vstd::utf8::encode_utf8(pass)),
                    Await::Auth,
                )
            }
        } else if b[1] == 0xff {
            SocksView::Fail(ProxyErrorCode::AuthFailed, "SOCKS5 no acceptable auth method"@)
        } else {
            SocksView::Fail(
                ProxyErrorCode::InvalidResponse,
                "SOCKS5 auth method "@ + text::dec(b[1] as nat),
            )
        },
        Await::Auth => if b[1] != 0 {
            SocksView::Fail(ProxyErrorCode::AuthFailed, "SOCKS5 authentication failed"@)
        } else {
            request_step(host, port)
        },
        Await::Reply => if b[0] != 5 || b[1] != 0 {
            SocksView::Fail(
                ProxyErrorCode::InvalidResponse,
                "SOCKS5 connect failed status "@ + text::dec(b[1] as nat),
            )
        } else if b[3] == 1 {
            SocksView::Read(Await::Rest(6))
        } else if b[3] == 4 {
            SocksView::Read(Await::Rest(18))
        } else if b[3] == 3 {
            SocksView::Read(Await::NameLength)
        } else {
            SocksView::Fail(
                ProxyErrorCode::InvalidResponse,
                "SOCKS5 bind atyp "@ + text::dec(b[3] as nat),
            )
        },
        Await::NameLength => SocksView::Read(Await::Rest((b[0] + 2) as usize)),
        Await::Rest(_) => SocksView::Done,
        Await::Open => SocksView::Done,
    }
}

fn numbered(lit: &str, n: u8) -> (r: ProxyError)
    ensures
        r.says(ProxyErrorCode::InvalidResponse, lit@ + text::dec(n as nat)),
{
    let mut m = text::chars_of(lit);
    let d = text::format_dec(n as u64);
    text::append(&mut m, d.as_slice());
    error::error_of(ProxyErrorCode::InvalidResponse, &m)
}

impl SocksDial {
    /// What is offered, who asks and for what does not change.
    pub open spec fn same_dial(self, o: SocksDial) -> bool {
        self.user == o.user && self.pass == o.pass && self.host == o.host && self.port == o.port
    }

    /// Whether an action, with what is awaited after it, is a step.
    pub open spec fn takes(self, r: SocksAction, step: SocksView) -> bool {
        match step {
            SocksView::Send(b, a) => r is Send && r->Send_0@ == b && self.awaits == a,
            SocksView::Read(a) => r is Read && self.awaits == a,
            SocksView::Done => r is Done && self.awaits == Await::Open,
            SocksView::Fail(c, m) => r is Fail && r->Fail_0.says(c, m),
        }
    }

    /// Whether this is an exchange at its beginning.
    pub open spec fn is_new(self, options: SocksOptions, host: Seq<char>, port: u16) -> bool {
        &&& self.user@ == (match text::opt_view(options.username) {
            Some(s) => s,
            None => Seq::empty(),
        })
        &&& self.pass@ == (match text::opt_view(options.password) {
            Some(s) => s,
            None => Seq::empty(),
        })
        &&& self.host@ == host
        &&& self.port == port
        &&& self.awaits == Await::Method
    }

    pub fn new(options: &SocksOptions, host: &str, port: u16) -> (r: Self)
        ensures
            r.is_new(*options, host@, port),
    {
        let user = match &options.username {
            Some(s) => s.clone(),
            None => String::new(),
        };
        let pass = match &options.password {
            Some(s) => s.clone(),
            None => String::new(),
        };
        SocksDial { user, pass, host: host.to_owned(), port, awaits: Await::Method }
    }

    /// The first message.
    pub fn greet(&self) -> (r: Vec<u8>)
        ensures
            r@ == greeting(self.user@),
    {
        let mut r: Vec<u8> = Vec::new();
        r.push(5);
        if self.user.as_str().is_empty() {
            r.push(1);
            r.push(0);
        } else {
            r.push(2);
            r.push(0);
            r.push(2);
        }
        assert(r@ =~= greeting(self.user@));
        r
    }

    /// How many bytes are read next.
    pub fn wanted(&self) -> (r: usize)
        ensures
            r == answer_len(self.awaits),
    {
        match self.awaits {
            Await::Method => 2,
            Await::Auth => 2,
            Await::Reply => 4,
            Await::NameLength => 1,
            Await::Rest(n) => n,
            Await::Open => 0,
        }
    }

    fn request(&mut self) -> (r: SocksAction)
        ensures
            final(self).same_dial(*old(self)),
            final(self).takes(r, request_step(old(self).host@, old(self).port)),
    {
        match address::encode_address(self.host.as_str(), 1, 3, 4) {
            Some(b) => {
                let mut m: Vec<u8> = Vec::new();
                m.push(5);
                m.push(1);
                m.push(0);
                codec::append(&mut m, b.as_slice());
                codec::push_be16(&mut m, self.port);
                assert(m@ =~= seq![5u8, 1, 0] + b@ + codec::be16_bytes(self.port as int));
                self.awaits = Await::Reply;
                SocksAction::Send(m)
            },
            None => SocksAction::Fail(
                ProxyError::new(
                    ProxyErrorCode::StringTooLong,
                    "Target host name exceeds the maximum of 255 bytes.",
                ),
            ),
        }
    }

    fn authenticate(&mut self) -> (r: SocksAction)
        ensures
            final(self).same_dial(*old(self)),
            final(self).takes(
                r,
                SocksView::Send(
                    auth_message(
                        vstd::utf8::encode_utf8(old(self).user@),
                        vstd::utf8::encode_utf8(old(self).pass@),
                    ),
                    Await::Auth,
                ),
            ),
    {
        let u = codec::bytes_of(self.user.as_str());
        let p = codec::bytes_of(self.pass.as_str());
        let mut m: Vec<u8> = Vec::new();
        m.push(1);
        m.push((u.len() % 256) as u8);
        codec::append(&mut m, u.as_slice());
        m.push((p.len() % 256) as u8);
        codec::append(&mut m, p.as_slice());
        assert(m@ =~= auth_message(u@, p@));
        self.awaits = Await::Auth;
        SocksAction::Send(m)
    }

    /// Takes the awaited answer.
    pub fn answered(&mut self, b: &[u8]) -> (r: SocksAction)
        requires
            b@.len() == answer_len(old(self).awaits),
        ensures
            final(self).same_dial(*old(self)),
            final(self).takes(
                r,
                answer_step(
                    old(self).awaits,
                    b@,
                    old(self).user@,
                    old(self).pass@,
                    old(self).host@,
                    old(self).port,
                ),
            ),
    {
        match self.awaits {
            Await::Method => {
                if b[0] != 5 {
                    SocksAction::Fail(
                        ProxyError::new(ProxyErrorCode::InvalidResponse, "SOCKS5 version mismatch"),
                    )
                } else if b[1] == 0 {
                    self.request()
                } else if b[1] == 2 {
                    if self.user.as_str().is_empty() {
                        SocksAction::Fail(
                            ProxyError::new(
                                ProxyErrorCode::AuthRequired,
                                "SOCKS5 server requested username/password",
                            ),
                        )
                    } else {
                        self.authenticate()
                    }
                } else if b[1] == 0xff {
                    SocksAction::Fail(
                        ProxyError::new(
                            ProxyErrorCode::AuthFailed,
                            "SOCKS5 no acceptable auth method",
                        ),
                    )
                } else {
                    SocksAction::Fail(numbered("SOCKS5 auth method ", b[1]))
                }
            },
            Await::Auth => {
                if b[1] != 0 {
                    SocksAction::Fail(
                        ProxyError::new(
                            ProxyErrorCode::AuthFailed,
                            "SOCKS5 authentication failed",
                        ),
                    )
                } else {
                    self.request()
                }
            },
            Await::Reply => {
                if b[0] != 5 || b[1] != 0 {
                    SocksAction::Fail(numbered("SOCKS5 connect failed status ", b[1]))
                } else if b[3] == 1 {
                    self.awaits = Await::Rest(6);
                    SocksAction::Read
                } else if b[3] == 4 {
                    self.awaits = Await::Rest(18);
                    SocksAction::Read
                } else if b[3] == 3 {
                    self.awaits = Await::NameLength;
                    SocksAction::Read
                } else {
                    SocksAction::Fail(numbered("SOCKS5 bind atyp ", b[3]))
                }
            },
            Await::NameLength => {
                self.awaits = Await::Rest(b[0] as usize + 2);
                SocksAction::Read
            },
            Await::Rest(_) => {
                self.awaits = Await::Open;
                SocksAction::Done
            },
            Await::Open => SocksAction::Done,
        }
    }
}

// ---- laws ----
/// A connection is open only behind an answer that said so, and every answer
/// leads on or fails: none is awaited again.
pub proof fn law_exchange_goes_on(
    a: Await,
    b: Seq<u8>,
    user: Seq<char>,
    pass: Seq<char>,
    host: Seq<char>,
    port: u16,
)
    requires
        b.len() == answer_len(a),
    ensures
        match answer_step(a, b, user, pass, host, port) {
            SocksView::Send(m, n) => rank(n) < rank(a) && m.len() > 0,
            SocksView::Read(n) => rank(n) < rank(a),
            SocksView::Done => a is Rest || a is Open,
            SocksView::Fail(_, _) => true,
        },
{
}

/// How far an exchange is from its end.
pub open spec fn rank(a: Await) -> nat {
    match a {
        Await::Method => 5,
        Await::Auth => 4,
        Await::Reply => 3,
        Await::NameLength => 2,
        Await::Rest(_) => 1,
        Await::Open => 0,
    }
}

/// The exchange of a client without a user: it offers no authentication, and where that
/// is chosen it asks for the target with version 5, command 1, the address with types
/// 1, 3 and 4, and the port with the high byte first.
pub proof fn law_request_layout(user: Seq<char>, pass: Seq<char>, host: Seq<char>, port: u16)
    requires
        address::address_bytes(host, 1, 3, 4) is Some,
    ensures
        ({
            let a = address::address_bytes(host, 1, 3, 4)->0;
            let step = answer_step(Await::Method, seq![5u8, 0u8], user, pass, host, port);
            let m = step->Send_0;
            let n = m.len() as int;
            &&& (user.len() == 0 ==> greeting(user) == seq![5u8, 1u8, 0u8])
            &&& (user.len() > 0 ==> greeting(user) == seq![5u8, 2u8, 0u8, 2u8])
            &&& step is Send
            &&& step->Send_1 == Await::Reply
            &&& n == 5 + a.len()
            &&& m[0] == 5 && m[1] == 1 && m[2] == 0
            &&& m.subrange(3, n - 2) == a
            &&& m[n - 2] * 256 + m[n - 1] == port
        }),
{
    let a = address::address_bytes(host, 1, 3, 4)->0;
    let m = answer_step(Await::Method, seq![5u8, 0u8], user, pass, host, port)->Send_0;
    let n = m.len() as int;
    codec::law_high_byte_first(port as int);
    assert(m.subrange(3, n - 2) =~= a);
}

/// Where the server asks for user and password they are sent behind version 1, each
/// behind its length; where it accepts them, the request follows, and where it does
/// not, authentication has failed.
pub proof fn law_user_is_sent(
    user: Seq<char>,
    pass: Seq<char>,
    host: Seq<char>,
    port: u16,
    status: u8,
)
    requires
        0 < user.len(),
        vstd::utf8::encode_utf8(user).len() < 256,
        vstd::utf8::encode_utf8(pass).len() < 256,
    ensures
        ({
            let u = vstd::utf8::encode_utf8(user);
            let p = vstd::utf8::encode_utf8(pass);
            let step = answer_step(Await::Method, seq![5u8, 2u8], user, pass, host, port);
            let m = step->Send_0;
            let next = answer_step(Await::Auth, seq![1u8, status], user, pass, host, port);
            let k = u.len() as int;
            &&& step is Send
            &&& step->Send_1 == Await::Auth
            &&& m.len() == 3 + u.len() + p.len()
            &&& m[0] == 1
            &&& m[1] == u.len()
            &&& m.subrange(2, 2 + k) == u
            &&& m[2 + k] == p.len()
            &&& m.skip(3 + k) == p
            &&& (status == 0 ==> next == answer_step(
                Await::Method,
                seq![5u8, 0u8],
                user,
                pass,
                host,
                port,
            ))
            &&& (status != 0 ==> next is Fail && next->Fail_0 == ProxyErrorCode::AuthFailed)
        }),
{
    let u = vstd::utf8::encode_utf8(user);
    let p = vstd::utf8::encode_utf8(pass);
    let m = auth_message(u, p);
    let k = u.len() as int;
    assert(m.subrange(2, 2 + k) =~= u);
    assert(m.skip(3 + k) =~= p);
}

/// The connection is open once the whole answer was read: behind the first four bytes an
/// address of four or sixteen bytes or a name with its length, and a port. A status
/// other than zero fails.
pub proof fn law_answer_is_read_whole(
    status: u8,
    reserved: u8,
    ty: u8,
    len: u8,
    user: Seq<char>,
    pass: Seq<char>,
    host: Seq<char>,
    port: u16,
)
    ensures
        ({
            let r = answer_step(
                Await::Reply,
                seq![5u8, status, reserved, ty],
                user,
                pass,
                host,
                port,
            );
            &&& (status != 0 ==> r is Fail)
            &&& (status == 0 && ty == 1 ==> r == SocksView::Read(Await::Rest(6)))
            &&& (status == 0 && ty == 4 ==> r == SocksView::Read(Await::Rest(18)))
            &&& (status == 0 && ty == 3 ==> r == SocksView::Read(Await::NameLength))
            &&& answer_step(Await::NameLength, seq![len], user, pass, host, port)
                == SocksView::Read(Await::Rest((len + 2) as usize))
            &&& answer_step(Await::Rest(6), seq![0u8], user, pass, host, port) is Done
        }),
{
}

/// How many bytes are waited for at each step.
pub proof fn law_lengths_of_answers(n: usize)
    ensures
        answer_len(Await::Method) == 2,
        answer_len(Await::Auth) == 2,
        answer_len(Await::Reply) == 4,
        answer_len(Await::NameLength) == 1,
        answer_len(Await::Rest(n)) == n,
        answer_len(Await::Open) == 0,
{
}

} // verus!
