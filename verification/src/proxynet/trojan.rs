//! Trojan: the request that opens a connection.

use vstd::prelude::*;

use crate::codec;
use crate::hash;
use crate::proxynet::address;
use crate::proxynet::crypto;
use crate::proxynet::error::{ProxyError, ProxyErrorCode};

verus! {

pub const CMD_TCP: u8 = 0x01;

pub const ATYP_IPV4: u8 = 0x01;

pub const ATYP_DOMAIN: u8 = 0x03;

pub const ATYP_IPV6: u8 = 0x04;

/// The longest request.
pub const MAX_REQUEST: usize = 320;

/// The request: the digest of the password, the command, the address and the
/// port.
pub open spec fn request_bytes(password: Seq<char>, host: Seq<char>, port: u16) -> Option<Seq<u8>> {
    match address::address_bytes(host, ATYP_IPV4, ATYP_DOMAIN, ATYP_IPV6) {
        Some(a) => Some(
            crypto::hex_line(hash::sha224_digest(vstd::utf8::encode_utf8(password))) + seq![
                13u8,
                10u8,
                CMD_TCP,
            ] + a + codec::be16_bytes(port as int) + seq![13u8, 10u8],
        ),
        None => None,
    }
}

/// What a request begins with: all that stands before the address.
pub open spec fn request_head(password: Seq<char>) -> Seq<u8> {
    crypto::hex_line(hash::sha224_digest(vstd::utf8::encode_utf8(password))) + seq![
        13u8,
        10u8,
        CMD_TCP,
    ]
}

/// Writes a request into a buffer; returns its length. Of one whose host is too long the
/// beginning is written, up to the type of the address.
pub fn build_request(buffer: &mut [u8], password: &str, host: &str, port: u16) -> (r: Result<
    usize,
    ProxyError,
>)
    requires
        old(buffer)@.len() >= 63 + address::address_room(host@),
    ensures
        match request_bytes(password@, host@, port) {
            Some(b) => r == Ok::<usize, ProxyError>(b.len() as usize) && final(buffer)@
                == codec::put_at(old(buffer)@, 0, b),
            None => r is Err && r->Err_0.says(
                ProxyErrorCode::StringTooLong,
                "Target host name exceeds the maximum of 255 bytes."@,
            ) && final(buffer)@ == codec::put_at(
                old(buffer)@,
                0,
                request_head(password@) + seq![ATYP_DOMAIN],
            ),
        },
{
    let ghost start = buffer@;
    proof {
        address::lemma_address_room(host@, ATYP_IPV4, ATYP_DOMAIN, ATYP_IPV6);
    }
    let pw = codec::bytes_of(password);
    crypto::sha224_hex_lower(pw.as_slice(), buffer);
    let ghost hash = crypto::hex_line(hash::sha224_digest(pw@));
    buffer[56] = 13;
    buffer[57] = 10;
    buffer[58] = CMD_TCP;
    let ghost head = hash + seq![13u8, 10u8, CMD_TCP];
    assert(buffer@ =~= codec::put_at(start, 0, head));
    match address::write_address_at(host, buffer, 59, ATYP_IPV4, ATYP_DOMAIN, ATYP_IPV6) {
        Ok(n) => {
            let ghost a = address::address_bytes(host@, ATYP_IPV4, ATYP_DOMAIN, ATYP_IPV6)->0;
            assert(buffer@ =~= codec::put_at(start, 0, head + a));
            let mut p: Vec<u8> = Vec::new();
            codec::push_be16(&mut p, port);
            assert(p@ =~= codec::be16_bytes(port as int));
            p.push(13);
            p.push(10);
            codec::put(buffer, 59 + n, p.as_slice());
            proof {
                let b = request_bytes(password@, host@, port)->0;
                assert(head + a + p@ =~= b);
                assert(buffer@ =~= codec::put_at(start, 0, b));
            }
            Ok(63 + n)
        },
        Err(e) => {
            assert(buffer@ =~= codec::put_at(start, 0, head + seq![ATYP_DOMAIN]));
            Err(e)
        },
    }
}

/// The request with which a connection begins.
pub fn open_request(password: &str, host: &str, port: u16) -> (r: Result<Vec<u8>, ProxyError>)
    ensures
        match request_bytes(password@, host@, port) {
            Some(b) => r is Ok && r->Ok_0@ == b,
            None => r is Err && r->Err_0.says(
                ProxyErrorCode::StringTooLong,
                "Target host name exceeds the maximum of 255 bytes."@,
            ),
        },
{
    let mut buffer: [u8; 320] = [0u8; 320];
    proof {
        address::lemma_address_room(host@, ATYP_IPV4, ATYP_DOMAIN, ATYP_IPV6);
    }
    match build_request(&mut buffer, password, host, port) {
        Ok(n) => {
            let r = codec::copy(&buffer.as_slice()[0..n]);
            assert(r@ =~= request_bytes(password@, host@, port)->0);
            Ok(r)
        },
        Err(e) => Err(e),
    }
}

// ---- laws ----
/// The layout of a request: the SHA-224 of the password in 56 lower case hexadecimal
/// digits, a line end, the command 1, the address with types 1, 3 and 4, the port with
/// the high byte first, and a line end.
pub proof fn law_request_layout(password: Seq<char>, host: Seq<char>, port: u16)
    requires
        hash::sha224_digest(vstd::utf8::encode_utf8(password)).len() == 28,
        address::address_bytes(host, 1, 3, 4) is Some,
    ensures
        ({
            let r = request_bytes(password, host, port)->0;
            let n = r.len() as int;
            let d = hash::sha224_digest(vstd::utf8::encode_utf8(password));
            let a = address::address_bytes(host, 1, 3, 4)->0;
            &&& request_bytes(password, host, port) is Some
            &&& n == 63 + a.len()
            &&& r.take(56) == crypto::hex_line(d)
            &&& r[56] == 13 && r[57] == 10
            &&& r[58] == 1
            &&& r.subrange(59, n - 4) == a
            &&& r[n - 4] * 256 + r[n - 3] == port
            &&& r[n - 2] == 13 && r[n - 1] == 10
        }),
{
    let r = request_bytes(password, host, port)->0;
    let n = r.len() as int;
    let a = address::address_bytes(host, 1, 3, 4)->0;
    codec::law_high_byte_first(port as int);
    assert(r.take(56) =~= crypto::hex_line(
        hash::sha224_digest(vstd::utf8::encode_utf8(password)),
    ));
    assert(r.subrange(59, n - 4) =~= a);
}

} // verus!
