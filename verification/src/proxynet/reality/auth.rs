//! How a client proves itself, and how the server's certificate is bound to it.

use vstd::prelude::*;

use crate::codec;
use crate::hash;
use crate::proxynet::aead;
use crate::proxynet::aead::AeadKind;
use crate::proxynet::crypto;
use crate::proxynet::error;
use crate::proxynet::error::{ProxyError, ProxyErrorCode};
use crate::proxynet::reality::schedule;
use crate::text;

verus! {

pub const SESSION_ID_SIZE: usize = 32;

pub const AUTH_KEY_SIZE: usize = 32;

pub const SHORT_ID_SIZE: usize = 8;

/// Where the session id of a hello stands.
pub const SESSION_ID_OFFSET: usize = 39;

// ---- errors ----
/// An error of the handshake.
pub fn hs_err(msg: &str) -> (r: ProxyError)
    ensures
        r.says(ProxyErrorCode::InvalidResponse, msg@),
{
    ProxyError::new(ProxyErrorCode::InvalidResponse, msg)
}

/// An error of authentication.
pub fn auth_err(msg: &str) -> (r: ProxyError)
    ensures
        r.says(ProxyErrorCode::AuthFailed, msg@),
{
    ProxyError::new(ProxyErrorCode::AuthFailed, msg)
}

pub(crate) fn hs_error(m: &Vec<char>) -> (r: ProxyError)
    ensures
        r.says(ProxyErrorCode::InvalidResponse, m@),
{
    error::error_of(ProxyErrorCode::InvalidResponse, m)
}

// ---- X25519 ----
/// The secret that X25519 makes of a private and a public key.
pub uninterp spec fn x25519_shared(private: Seq<u8>, public: Seq<u8>) -> Seq<u8>;

/// `StaticSecret::diffie_hellman`: 32 bytes that depend on the two keys alone;
/// they are named, not described.
#[verifier::external_body]
pub(crate) fn x25519_agree(private: &[u8; 32], public: &[u8; 32]) -> (r: [u8; 32])
    ensures
        r@ == x25519_shared(private@, public@),
{
    let secret = x25519_dalek::StaticSecret::from(*private);
    *secret.diffie_hellman(&x25519_dalek::PublicKey::from(*public)).as_bytes()
}

/// The public key of a private key.
pub uninterp spec fn x25519_public(private: Seq<u8>) -> Seq<u8>;

/// `StaticSecret::random_from_rng` with `rand::thread_rng`, and the public key of
/// it by `PublicKey::from`, which depends on the private key alone and is named;
/// of the private key nothing is known.
#[verifier::external_body]
pub(crate) fn x25519_generate() -> (r: ([u8; 32], [u8; 32]))
    ensures
        r.1@ == x25519_public(r.0@),
{
    let secret = x25519_dalek::StaticSecret::random_from_rng(rand::thread_rng());
    let public = x25519_dalek::PublicKey::from(&secret);
    (secret.to_bytes(), public.to_bytes())
}

// ---- the key ----
/// The label of the key, in ASCII.
pub open spec fn reality_label() -> Seq<u8> {
    seq![0x52u8, 0x45u8, 0x41u8, 0x4cu8, 0x49u8, 0x54u8, 0x59u8]
}

/// The key that client and server share.
pub open spec fn auth_key_of(private: Seq<u8>, public: Seq<u8>, random: Seq<u8>) -> Seq<u8> {
    hash::hkdf_sha256_derived(
        x25519_shared(private, public),
        random.take(20),
        reality_label(),
        32,
    )
}

pub(crate) fn array32(b: &[u8]) -> (r: [u8; 32])
    requires
        b@.len() == 32,
    ensures
        r@ == b@,
{
    let mut r: [u8; 32] = [0u8; 32];
    let mut i: usize = 0;
    while i < 32
        invariant
            i <= 32,
            b@.len() == 32,
            r@.len() == 32,
            forall|j: int| 0 <= j < i ==> r@[j] == #[trigger] b@[j],
        decreases 32 - i,
    {
        r[i] = b[i];
        i += 1;
    }
    assert(r@ =~= b@);
    r
}

pub fn derive_auth_key(
    auth_key: &mut [u8; 32],
    client_private: &[u8; 32],
    server_public: &[u8; 32],
    client_random: &[u8],
) -> (r: Result<(), ProxyError>)
    ensures
        if client_random@.len() != 32 {
            r is Err && r->Err_0.says(
                ProxyErrorCode::InvalidResponse,
                "The client random is 32 bytes."@,
            ) && *final(auth_key) == *old(auth_key)
        } else {
            r is Ok && final(auth_key)@ == auth_key_of(
                client_private@,
                server_public@,
                client_random@,
            )
        },
        client_random@.len() == 32 ==> final(auth_key)@ == hash::hkdf_sha256_derived(
            x25519_shared(client_private@, server_public@),
            client_random@.subrange(0, 20),
            seq![0x52u8, 0x45u8, 0x41u8, 0x4cu8, 0x49u8, 0x54u8, 0x59u8],
            32,
        ),
{
    if client_random.len() != 32 {
        return Err(hs_err("The client random is 32 bytes."));
    }
    let shared: [u8; 32] = x25519_agree(client_private, server_public);
    let salt = &client_random[0..20];
    assert(salt@ =~= client_random@.take(20));
    assert(salt@ =~= client_random@.subrange(0, 20));
    let label: [u8; 7] = [0x52, 0x45, 0x41, 0x4c, 0x49, 0x54, 0x59];
    assert(label@ =~= reality_label());
    let k = hash::hkdf_sha256(shared.as_slice(), salt, label.as_slice(), 32);
    *auth_key = array32(k.as_slice());
    Ok(())
}

// ---- the session id ----
/// What the session id hides: the version, the time and the short id.
pub open spec fn session_plain(version: Seq<u8>, time: u32, short_id: Seq<u8>) -> Seq<u8> {
    version + seq![0u8] + codec::be32_bytes(time as int) + short_id
}

/// A hello with zeros for its session id.
pub open spec fn blanked(hello: Seq<u8>) -> Seq<u8> {
    codec::put_at(hello, 39, schedule::zeros(32))
}

/// The session id of a hello: sealed under its own bytes.
pub open spec fn session_id_of(
    hello: Seq<u8>,
    auth_key: Seq<u8>,
    version: Seq<u8>,
    time: u32,
    short_id: Seq<u8>,
) -> Seq<u8> {
    aead::sealed(
        AeadKind::Aes256Gcm,
        auth_key,
        hello.subrange(26, 38),
        blanked(hello),
        session_plain(version, time, short_id),
    )
}

/// Writes the session id into a hello; a server with the key reads it back.
pub fn seal_session_id(
    client_hello: &mut [u8],
    auth_key: &[u8; 32],
    short_id: &[u8; 8],
    unix_time: u32,
    client_version: [u8; 3],
) -> (r: Result<(), ProxyError>)
    requires
        old(client_hello)@.len() <= aead::MAX_INPUT,
    ensures
        ({
            let h = old(client_hello)@;
            if h.len() < 71 {
                r is Err && r->Err_0.says(
                    ProxyErrorCode::InvalidResponse,
                    "The ClientHello is too short to contain a session id."@,
                ) && final(client_hello)@ == h
            } else if h[38] != 32 {
                r is Err && r->Err_0.says(
                    ProxyErrorCode::InvalidResponse,
                    "REALITY requires a 32-byte session id; this ClientHello declares "@
                        + text::dec(h[38] as nat) + "."@,
                ) && final(client_hello)@ == h
            } else {
                let id = session_id_of(
                    h,
                    auth_key@,
                    client_version@,
                    unix_time,
                    short_id@,
                );
                &&& r is Ok
                &&& id.len() == 32
                &&& final(client_hello)@ == codec::put_at(h, 39, id)
                &&& aead::opened(
                    AeadKind::Aes256Gcm,
                    auth_key@,
                    h.subrange(26, 38),
                    blanked(h),
                    id,
                ) == Some(session_plain(client_version@, unix_time, short_id@))
            }
        }),
{
    let ghost h = client_hello@;
    if client_hello.len() < SESSION_ID_OFFSET + SESSION_ID_SIZE {
        return Err(hs_err("The ClientHello is too short to contain a session id."));
    }
    if client_hello[SESSION_ID_OFFSET - 1] != 32 {
        let mut m = text::chars_of(
            "REALITY requires a 32-byte session id; this ClientHello declares ",
        );
        let d = text::format_dec(client_hello[SESSION_ID_OFFSET - 1] as u64);
        text::append(&mut m, d.as_slice());
        text::append_str(&mut m, ".");
        return Err(hs_error(&m));
    }
    let nonce = codec::copy(&client_hello[26..38]);
    assert(nonce@ =~= h.subrange(26, 38));
    let mut plain: Vec<u8> = Vec::new();
    codec::append(&mut plain, client_version.as_slice());
    plain.push(0);
    assert(plain@ =~= client_version@ + seq![0u8]);
    codec::push_be32(&mut plain, unix_time);
    codec::append(&mut plain, short_id.as_slice());
    let mut blank: Vec<u8> = Vec::new();
    codec::append_zeros(&mut blank, 32);
    assert(blank@ =~= schedule::zeros(32));
    codec::put(client_hello, SESSION_ID_OFFSET, blank.as_slice());
    let id = aead::seal(
        AeadKind::Aes256Gcm,
        auth_key.as_slice(),
        nonce.as_slice(),
        client_hello,
        plain.as_slice(),
    );
    codec::put(client_hello, SESSION_ID_OFFSET, id.as_slice());
    assert(client_hello@ =~= codec::put_at(h, 39, id@));
    Ok(())
}

// ---- the certificate ----
/// Whether a signature is the one that only the holder of the key can make.
pub fn verify_certificate(auth_key: &[u8], ed25519_pk: &[u8], signature: &[u8]) -> (r: bool)
    ensures
        r == (signature@.len() == 64 && hash::hmac_sha512_of(auth_key@, ed25519_pk@)
            == signature@),
{
    if signature.len() != 64 {
        return false;
    }
    hash::hmac_sha512_verify(auth_key, ed25519_pk, signature)
}

// ---- options ----
/// The eight bytes of a short id, or why it is none.
pub open spec fn short_id_of(hex: Option<Seq<char>>) -> Result<Seq<u8>, Seq<char>> {
    if hex is None || hex->0.len() == 0 {
        Ok(schedule::zeros(8))
    } else {
        let h = hex->0;
        let n = vstd::utf8::encode_utf8(h).len();
        if n % 2 != 0 {
            Err("A REALITY short id is an even number of hex digits; '"@ + h + "' is not."@)
        } else if n > 16 {
            Err(
                "A REALITY short id is at most 8 bytes; '"@ + h + "' is "@ + text::dec(
                    (n / 2) as nat,
                ) + "."@,
            )
        } else if !crypto::all_hex(h) {
            Err("'"@ + h + "' is not hex"@)
        } else {
            Ok(crypto::hex_bytes(h) + schedule::zeros((8 - h.len() / 2) as nat))
        }
    }
}

fn is_all_hex(s: &[char]) -> (r: bool)
    ensures
        r == crypto::all_hex(s@),
{
    let n: usize = s.len();
    let mut i: usize = 0;
    while i < n
        invariant
            i <= n == s@.len(),
            forall|j: int| 0 <= j < i ==> codec::hex_digit(#[trigger] s@[j]) is Some,
        decreases n - i,
    {
        if codec::hex_value(s[i]).is_none() {
            assert(codec::hex_digit(s@[i as int]) is None);
            return false;
        }
        i += 1;
    }
    true
}

fn quoted_error(a: &str, what: &str, b: &str) -> (r: ProxyError)
    ensures
        r.says(ProxyErrorCode::InvalidResponse, a@ + what@ + b@),
{
    let mut m = text::chars_of(a);
    text::append_str(&mut m, what);
    text::append_str(&mut m, b);
    hs_error(&m)
}

pub fn parse_short_id(hex: Option<&str>) -> (r: Result<[u8; 8], ProxyError>)
    ensures
        match short_id_of(text::opt_str(hex)) {
            Ok(b) => r is Ok && r->Ok_0@ == b,
            Err(m) => r is Err && r->Err_0.says(ProxyErrorCode::InvalidResponse, m),
        },
{
    let mut out: [u8; 8] = [0u8; 8];
    let h = match hex {
        None => {
            assert(out@ =~= schedule::zeros(8));
            return Ok(out);
        },
        Some(h) => h,
    };
    if h.is_empty() {
        assert(out@ =~= schedule::zeros(8));
        return Ok(out);
    }
    let n: usize = h.as_bytes().len();
    if n % 2 != 0 {
        return Err(
            quoted_error(
                "A REALITY short id is an even number of hex digits; '",
                h,
                "' is not.",
            ),
        );
    }
    if n > 16 {
        let mut m = text::chars_of("A REALITY short id is at most 8 bytes; '");
        text::append_str(&mut m, h);
        text::append_str(&mut m, "' is ");
        let d = text::format_dec((n / 2) as u64);
        text::append(&mut m, d.as_slice());
        text::append_str(&mut m, ".");
        return Err(hs_error(&m));
    }
    let c = text::chars_of(h);
    if !is_all_hex(c.as_slice()) {
        return Err(quoted_error("'", h, "' is not hex"));
    }
    proof {
        assert forall|i: int| 0 <= i < h@.len() implies (#[trigger] h@[i]) <= '\u{7f}' by {
            assert(codec::hex_digit(h@[i]) is Some);
        }
        codec::lemma_ascii_length(h@);
    }
    let b = crypto::hex_decode(h);
    codec::put(&mut out, 0, b.as_slice());
    assert(out@ =~= crypto::hex_bytes(h@) + schedule::zeros((8 - h@.len() / 2) as nat));
    Ok(out)
}

/// A key in the alphabet for links, in the standard one and padded.
pub open spec fn standard_key(value: Seq<char>) -> Seq<char> {
    let p = text::replaced(text::replaced(value, "-"@, "+"@), "_"@, "/"@);
    let m = vstd::utf8::encode_utf8(p).len() % 4;
    if m == 2 {
        p + "=="@
    } else if m == 3 {
        p + "="@
    } else {
        p
    }
}

/// The 32 bytes of a public key, or why it is none.
pub open spec fn public_key_of(value: Seq<char>) -> Result<Seq<u8>, Seq<char>> {
    match codec::base64_decoded(vstd::utf8::encode_utf8(standard_key(value))) {
        None => Err("REALITY public key '"@ + value + "' is not valid base64url."@),
        Some(k) => if k.len() != 32 {
            Err(
                "REALITY public key decodes to "@ + text::dec(k.len()) + " bytes; need 32."@,
            )
        } else {
            Ok(k)
        },
    }
}

pub fn decode_pbk(value: &str) -> (r: Result<[u8; 32], ProxyError>)
    ensures
        match public_key_of(value@) {
            Ok(k) => r is Ok && r->Ok_0@ == k,
            Err(m) => r is Err && r->Err_0.says(ProxyErrorCode::InvalidResponse, m),
        },
{
    let c = text::chars_of(value);
    proof {
        reveal_strlit("-");
        reveal_strlit("_");
    }
    let a = text::replace(c.as_slice(), "-", "+");
    let mut p = text::replace(a.as_slice(), "_", "/");
    let s = text::string_of(p.as_slice());
    let m: usize = s.as_str().as_bytes().len() % 4;
    if m == 2 {
        text::append_str(&mut p, "==");
    } else if m == 3 {
        text::append_str(&mut p, "=");
    }
    let q = text::string_of(p.as_slice());
    match codec::base64_decode(q.as_str()) {
        None => Err(quoted_error("REALITY public key '", value, "' is not valid base64url.")),
        Some(k) => {
            if k.len() != 32 {
                let mut t = text::chars_of("REALITY public key decodes to ");
                let d = text::format_dec(k.len() as u64);
                text::append(&mut t, d.as_slice());
                text::append_str(&mut t, " bytes; need 32.");
                return Err(hs_error(&t));
            }
            Ok(array32(k.as_slice()))
        },
    }
}

// ---- laws ----
/// The key depends on the client random through its first 20 bytes alone: they
/// are the salt, the X25519 secret is the input, and the ASCII text REALITY is
/// the label.
pub proof fn law_key_is_salted_by_twenty_bytes(
    private: Seq<u8>,
    public: Seq<u8>,
    random: Seq<u8>,
    salt: Seq<u8>,
)
    requires
        random.len() == 32,
        salt.len() == 20,
        forall|i: int| 0 <= i < 20 ==> salt[i] == random[i],
    ensures
        auth_key_of(private, public, random) == hash::hkdf_sha256_derived(
            x25519_shared(private, public),
            salt,
            seq![0x52u8, 0x45u8, 0x41u8, 0x4cu8, 0x49u8, 0x54u8, 0x59u8],
            32,
        ),
{
    assert(random.take(20) =~= salt);
    assert(reality_label() =~= seq![0x52u8, 0x45u8, 0x41u8, 0x4cu8, 0x49u8, 0x54u8, 0x59u8]);
}

/// Client randoms that agree in their first 20 bytes give one key.
pub proof fn law_last_bytes_do_not_count(
    private: Seq<u8>,
    public: Seq<u8>,
    a: Seq<u8>,
    b: Seq<u8>,
)
    requires
        a.len() == 32,
        b.len() == 32,
        forall|i: int| 0 <= i < 20 ==> a[i] == b[i],
    ensures
        auth_key_of(private, public, a) == auth_key_of(private, public, b),
{
    assert(a.take(20) =~= b.take(20));
}

/// What the session id hides: three bytes of version, a zero, the time in four
/// bytes with the highest first, and the eight bytes of the short id.
pub proof fn law_session_id_reads_back(version: Seq<u8>, time: u32, short_id: Seq<u8>)
    requires
        version.len() == 3,
        short_id.len() == 8,
    ensures
        ({
            let p = session_plain(version, time, short_id);
            &&& p.len() == 16
            &&& p[0] == version[0] && p[1] == version[1] && p[2] == version[2]
            &&& p[3] == 0
            &&& p[4] * 0x1000000 + p[5] * 0x10000 + p[6] * 0x100 + p[7] == time
            &&& p.subrange(8, 16) == short_id
        }),
{
    let p = session_plain(version, time, short_id);
    codec::law_be32_reads_back(time as int);
    let t = codec::be32_bytes(time as int);
    assert(p[4] == t[0] && p[5] == t[1] && p[6] == t[2] && p[7] == t[3]);
    assert(p.subrange(8, 16) =~= short_id);
}

/// The session id is sealed by AES-256-GCM under the last 12 bytes of the client
/// random, which stands at the sixth byte of a hello, and it is bound to the whole
/// hello with zeros for the 32 bytes of the id.
pub proof fn law_session_id_is_bound_to_the_hello(
    hello: Seq<u8>,
    auth_key: Seq<u8>,
    version: Seq<u8>,
    time: u32,
    short_id: Seq<u8>,
    random: Seq<u8>,
    bound: Seq<u8>,
)
    requires
        hello.len() >= 71,
        random.len() == 32,
        forall|i: int| 0 <= i < 32 ==> random[i] == hello[6 + i],
        bound.len() == hello.len(),
        forall|i: int| 39 <= i < 71 ==> bound[i] == 0,
        forall|i: int| 0 <= i < 39 || 71 <= i < hello.len() ==> bound[i] == hello[i],
    ensures
        session_id_of(hello, auth_key, version, time, short_id) == aead::aes256_gcm_sealed(
            auth_key,
            random.subrange(20, 32),
            bound,
            session_plain(version, time, short_id),
        ),
{
    assert(blanked(hello) =~= bound);
    assert(hello.subrange(26, 38) =~= random.subrange(20, 32)) by {
        assert forall|i: int| 0 <= i < 12 implies hello.subrange(26, 38)[i] == random.subrange(
            20,
            32,
        )[i] by {
            assert(random[20 + i] == hello[6 + (20 + i)]);
        }
    }
}

/// A short id is the bytes that its digits write, with zeros behind them up to eight; none
/// is eight zeros. One with an odd number of digits, with more than sixteen, or with
/// anything but digits is refused.
pub proof fn law_short_id(h: Seq<char>, i: int)
    requires
        h.len() > 0,
        forall|j: int| 0 <= j < h.len() ==> (#[trigger] h[j]) <= '\u{7f}',
    ensures
        short_id_of(None) == Ok::<Seq<u8>, Seq<char>>(
            seq![0u8, 0u8, 0u8, 0u8, 0u8, 0u8, 0u8, 0u8],
        ),
        short_id_of(Some(h)) is Ok <==> h.len() % 2 == 0 && h.len() <= 16 && crypto::all_hex(h),
        short_id_of(Some(h)) is Ok ==> short_id_of(Some(h))->Ok_0.len() == 8,
        short_id_of(Some(h)) is Ok && 0 <= i < h.len() / 2 ==> short_id_of(Some(h))->Ok_0[i]
            == codec::hex_digit(h[2 * i])->0 * 16 + codec::hex_digit(h[2 * i + 1])->0,
        short_id_of(Some(h)) is Ok && h.len() / 2 <= i < 8 ==> short_id_of(Some(h))->Ok_0[i] == 0,
{
    codec::lemma_ascii_length(h);
    assert(short_id_of(None)->Ok_0 =~= seq![0u8, 0u8, 0u8, 0u8, 0u8, 0u8, 0u8, 0u8]);
    if short_id_of(Some(h)) is Ok && 0 <= i < h.len() / 2 {
        assert(codec::hex_digit(h[2 * i]) is Some && codec::hex_digit(h[2 * i + 1]) is Some);
    }
}

/// A public key is the 32 bytes that its text holds in Base64, in the alphabet for
/// addresses and without padding; anything else is refused.
pub proof fn law_public_key(value: Seq<char>, k: Seq<u8>)
    requires
        codec::base64_decoded(vstd::utf8::encode_utf8(standard_key(value))) == Some(k),
    ensures
        k.len() == 32 ==> public_key_of(value) == Ok::<Seq<u8>, Seq<char>>(k),
        k.len() != 32 ==> public_key_of(value) is Err,
{
}

/// The padding of a key and its two letters that the alphabet for addresses writes
/// otherwise.
pub proof fn law_key_text(s: Seq<char>)
    requires
        forall|i: int|
            0 <= i < s.len() ==> (#[trigger] s[i]) <= '\u{7f}' && s[i] != '-' && s[i] != '_',
    ensures
        s.len() % 4 == 0 ==> standard_key(s) == s,
        s.len() % 4 == 2 ==> standard_key(s) == s + seq!['=', '='],
        s.len() % 4 == 3 ==> standard_key(s) == s + seq!['='],
        s.len() % 4 == 2 ==> standard_key(seq!['-', '_'] + s) == seq!['+', '/'] + s,
{
    reveal_strlit("-");
    reveal_strlit("_");
    reveal_strlit("+");
    reveal_strlit("/");
    reveal_strlit("=");
    reveal_strlit("==");
    assert("-"@ =~= seq!['-'] && "_"@ =~= seq!['_']);
    assert("+"@[0] == '+' && "/"@[0] == '/');
    codec::lemma_ascii_length(s);
    lemma_replaced_char(s, s, '-', "-"@, "+"@);
    lemma_replaced_char(s, s, '_', "_"@, "/"@);
    assert(s + "=="@ =~= s + seq!['=', '=']);
    assert(s + "="@ =~= s + seq!['=']);
    let t = seq!['-', '_'] + s;
    let u = seq!['+', '_'] + s;
    let w = seq!['+', '/'] + s;
    lemma_replaced_char(t, u, '-', "-"@, "+"@);
    lemma_replaced_char(u, w, '_', "_"@, "/"@);
    codec::lemma_ascii_length(w);
}

proof fn lemma_replaced_char(s: Seq<char>, r: Seq<char>, c: char, pat: Seq<char>, by: Seq<char>)
    requires
        pat == seq![c],
        by.len() == 1,
        r.len() == s.len(),
        forall|i: int|
            0 <= i < s.len() ==> #[trigger] r[i] == (if s[i] == c {
                by[0]
            } else {
                s[i]
            }),
    ensures
        text::replaced(s, pat, by) == r,
    decreases s.len(),
{
    if s.len() > 0 {
        assert forall|i: int| 0 <= i < s.skip(1).len() implies #[trigger] r.skip(1)[i] == (
        if s.skip(1)[i] == c {
            by[0]
        } else {
            s.skip(1)[i]
        }) by {
            assert(r[i + 1] == r.skip(1)[i]);
        }
        lemma_replaced_char(s.skip(1), r.skip(1), c, pat, by);
        assert(r[0] == if s[0] == c {
            by[0]
        } else {
            s[0]
        });
        assert(s.subrange(0, 1) =~= seq![s[0]]);
        assert(text::starts(s, pat) <==> s[0] == c) by {
            assert(seq![s[0]][0] == s[0] && seq![c][0] == c);
        }
        assert(by + r.skip(1) =~= seq![by[0]] + r.skip(1));
        assert(seq![r[0]] + r.skip(1) =~= r);
    } else {
        assert(r =~= s);
    }
}

} // verus!
