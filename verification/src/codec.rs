//! Bytes, numbers in network order and the text encodings that the protocols use.

use base64::Engine;
use vstd::prelude::*;

verus! {

/// The number that two bytes write, the high byte first.
pub open spec fn be16(a: u8, b: u8) -> int {
    a as int * 256 + b as int
}

/// The number that three bytes write, the high byte first.
pub open spec fn be24(a: u8, b: u8, c: u8) -> int {
    (a as int * 256 + b as int) * 256 + c as int
}

/// The two bytes of a number below 65536, the high byte first.
pub open spec fn be16_bytes(n: int) -> Seq<u8> {
    seq![(n / 256) as u8, (n % 256) as u8]
}

/// The four bytes of a number below 2 to the 32, the high byte first.
pub open spec fn be32_bytes(n: int) -> Seq<u8> {
    seq![
        (n / 0x100_0000) as u8,
        (n / 0x1_0000 % 256) as u8,
        (n / 0x100 % 256) as u8,
        (n % 256) as u8,
    ]
}

/// The number that four bytes write, the high byte first.
pub open spec fn be32(a: u8, b: u8, c: u8, d: u8) -> int {
    ((a as int * 256 + b as int) * 256 + c as int) * 256 + d as int
}

pub fn read_be16(a: u8, b: u8) -> (r: u16)
    ensures
        r == be16(a, b),
{
    a as u16 * 256 + b as u16
}

pub fn read_be24(a: u8, b: u8, c: u8) -> (r: usize)
    ensures
        r == be24(a, b, c),
{
    (a as usize * 256 + b as usize) * 256 + c as usize
}

pub fn read_be32(a: u8, b: u8, c: u8, d: u8) -> (r: u32)
    ensures
        r == be32(a, b, c, d),
{
    ((a as u32 * 256 + b as u32) * 256 + c as u32) * 256 + d as u32
}

/// Appends a number below 65536.
pub fn push_be16(out: &mut Vec<u8>, n: u16)
    ensures
        final(out)@ == old(out)@ + be16_bytes(n as int),
{
    out.push((n / 256) as u8);
    out.push((n % 256) as u8);
    proof {
        assert(out@ =~= old(out)@ + be16_bytes(n as int));
    }
}

pub fn push_be32(out: &mut Vec<u8>, n: u32)
    ensures
        final(out)@ == old(out)@ + be32_bytes(n as int),
{
    out.push((n / 0x100_0000) as u8);
    out.push((n / 0x1_0000 % 256) as u8);
    out.push((n / 0x100 % 256) as u8);
    out.push((n % 256) as u8);
    proof {
        assert(out@ =~= old(out)@ + be32_bytes(n as int));
    }
}

/// Writing a 16 bit number and reading it back gives the number.
pub proof fn law_be16_reads_back(n: int)
    requires
        0 <= n < 0x1_0000,
    ensures
        be16(be16_bytes(n)[0], be16_bytes(n)[1]) == n,
{
}

/// Writing a 32 bit number and reading it back gives the number.
pub proof fn law_be32_reads_back(n: int)
    requires
        0 <= n < 0x1_0000_0000,
    ensures
        ({
            let b = be32_bytes(n);
            be32(b[0], b[1], b[2], b[3]) == n
        }),
{
}

/// The four bytes of a number, the least significant first.
pub open spec fn le32_bytes(n: int) -> Seq<u8> {
    seq![
        (n % 256) as u8,
        (n / 256 % 256) as u8,
        (n / 65536 % 256) as u8,
        (n / 16777216 % 256) as u8,
    ]
}

/// The number that four bytes write, the least significant first.
pub open spec fn le32(a: u8, b: u8, c: u8, d: u8) -> int {
    a + b * 256 + c * 65536 + d * 16777216
}

pub fn read_le32(a: u8, b: u8, c: u8, d: u8) -> (r: u32)
    ensures
        r == le32(a, b, c, d),
{
    a as u32 + b as u32 * 256 + c as u32 * 65536 + d as u32 * 16777216
}

pub fn push_le32(out: &mut Vec<u8>, n: u32)
    ensures
        final(out)@ == old(out)@ + le32_bytes(n as int),
{
    let ghost before = out@;
    out.push((n % 256) as u8);
    out.push((n / 256 % 256) as u8);
    out.push((n / 65536 % 256) as u8);
    out.push((n / 16777216 % 256) as u8);
    proof {
        assert(out@ =~= before + le32_bytes(n as int));
    }
}

/// Reading the bytes of a number gives the number back.
pub proof fn law_le32_reads_back(n: int)
    requires
        0 <= n <= 0xffff_ffff,
    ensures
        ({
            let b = le32_bytes(n);
            le32(b[0], b[1], b[2], b[3]) == n
        }),
{
}

/// The eight bytes of a number below 2 to the 64, the high byte first.
pub open spec fn be64_bytes(n: int) -> Seq<u8> {
    be32_bytes(n / 0x1_0000_0000) + be32_bytes(n % 0x1_0000_0000)
}

pub fn push_be64(out: &mut Vec<u8>, n: u64)
    ensures
        final(out)@ == old(out)@ + be64_bytes(n as int),
{
    let ghost before = out@;
    push_be32(out, (n / 0x1_0000_0000) as u32);
    push_be32(out, (n % 0x1_0000_0000) as u32);
    proof {
        assert(out@ =~= before + be64_bytes(n as int));
    }
}

/// Appends bytes.
pub fn append(out: &mut Vec<u8>, s: &[u8])
    ensures
        final(out)@ == old(out)@ + s@,
{
    let ghost before = out@;
    out.extend_from_slice(s);
    proof {
        assert(out@ =~= before + s@);
    }
}

/// Appends `n` zero bytes.
pub fn append_zeros(out: &mut Vec<u8>, n: usize)
    ensures
        final(out)@ == old(out)@ + Seq::new(n as nat, |i: int| 0u8),
{
    let mut i: usize = 0;
    while i < n
        invariant
            i <= n,
            out@ =~= old(out)@ + Seq::new(i as nat, |j: int| 0u8),
        decreases n - i,
    {
        out.push(0);
        i += 1;
    }
}

/// Bytes with others in the place of some of them, from a position on.
pub open spec fn put_at(s: Seq<u8>, at: int, b: Seq<u8>) -> Seq<u8> {
    s.take(at) + b + s.skip(at + b.len())
}

/// Writes bytes over those of a buffer, from a position on.
pub fn put(dest: &mut [u8], at: usize, b: &[u8])
    requires
        at + b@.len() <= old(dest)@.len(),
    ensures
        final(dest)@ == put_at(old(dest)@, at as int, b@),
{
    let ghost start = dest@;
    let total: usize = dest.len();
    let n: usize = b.len();
    let mut i: usize = 0;
    while i < n
        invariant
            i <= n == b@.len(),
            at + n <= start.len() == total,
            dest@ =~= put_at(start, at as int, b@.take(i as int)),
        decreases n - i,
    {
        dest[at + i] = b[i];
        i += 1;
    }
    assert(b@.take(n as int) =~= b@);
}

/// A copy of a slice.
pub fn copy(s: &[u8]) -> (r: Vec<u8>)
    ensures
        r@ == s@,
{
    let mut r: Vec<u8> = Vec::new();
    append(&mut r, s);
    proof {
        assert(r@ =~= s@);
    }
    r
}

/// Whether two slices hold the same bytes.
pub fn same_bytes(a: &[u8], b: &[u8]) -> (r: bool)
    ensures
        r == (a@ == b@),
{
    if a.len() != b.len() {
        return false;
    }
    let mut i: usize = 0;
    while i < a.len()
        invariant
            i <= a@.len(),
            a@.len() == b@.len(),
            forall|j: int| 0 <= j < i ==> a@[j] == b@[j],
        decreases a@.len() - i,
    {
        if a[i] != b[i] {
            return false;
        }
        i += 1;
    }
    assert(a@ =~= b@);
    true
}

/// ASCII text takes one byte for each character.
pub proof fn lemma_ascii_length(s: Seq<char>)
    requires
        forall|i: int| 0 <= i < s.len() ==> (#[trigger] s[i]) <= '\u{7f}',
    ensures
        vstd::utf8::encode_utf8(s).len() == s.len(),
    decreases s.len(),
{
    if s.len() > 0 {
        let t = s.drop_first();
        assert forall|i: int| 0 <= i < t.len() implies (#[trigger] t[i]) <= '\u{7f}' by {
            assert(t[i] == s[i + 1]);
        }
        lemma_ascii_length(t);
        assert(s[0] <= '\u{7f}');
        let c = s[0];
        vstd::utf8::char_is_scalar(c);
        vstd::utf8::char_u32_cast(c, c as u32);
        assert((c as u32) as char == c);
        assert(vstd::utf8::has_width_1_encoding(c as u32));
    }
}

/// The UTF-8 bytes of a string.
pub fn bytes_of(s: &str) -> (r: Vec<u8>)
    ensures
        r@ == vstd::utf8::encode_utf8(s@),
{
    copy(s.as_bytes())
}

/// Removes the first `n` bytes and returns them.
pub fn take_front(v: &mut Vec<u8>, n: usize) -> (r: Vec<u8>)
    requires
        n <= old(v)@.len(),
    ensures
        r@ == old(v)@.take(n as int),
        final(v)@ == old(v)@.skip(n as int),
{
    let len: usize = v.len();
    let r = copy(&v.as_slice()[0..n]);
    let rest = copy(&v.as_slice()[n..len]);
    proof {
        assert(r@ =~= v@.take(n as int));
        assert(rest@ =~= v@.skip(n as int));
    }
    *v = rest;
    r
}

/// The string that UTF-8 bytes write: `String::from_utf8`, which succeeds on
/// valid UTF-8 only and then holds the characters that the bytes encode.
#[verifier::external_body]
pub(crate) fn utf8_string(b: Vec<u8>) -> (r: Option<String>)
    ensures
        match r {
            Some(s) => vstd::utf8::valid_utf8(b@) && s@ == vstd::utf8::decode_utf8(b@),
            None => !vstd::utf8::valid_utf8(b@),
        },
{
    String::from_utf8(b).ok()
}

/// What `String::from_utf8_lossy` makes of bytes.
pub uninterp spec fn lossy_text(b: Seq<u8>) -> Seq<char>;

/// The text of bytes: what they write in UTF-8, where they do.
pub open spec fn utf8_text(b: Seq<u8>) -> Seq<char> {
    if vstd::utf8::valid_utf8(b) {
        vstd::utf8::decode_utf8(b)
    } else {
        lossy_text(b)
    }
}

/// `String::from_utf8_lossy`: the text of the bytes, where they are valid
/// UTF-8; what stands for invalid bytes is left to the name.
#[verifier::external_body]
pub(crate) fn utf8_lossy(b: &[u8]) -> (r: String)
    ensures
        r@ == lossy_text(b@),
        vstd::utf8::valid_utf8(b@) ==> r@ == vstd::utf8::decode_utf8(b@),
{
    String::from_utf8_lossy(b).into_owned()
}

/// What the standard Base64 alphabet, with required padding, decodes to.
pub uninterp spec fn base64_decoded(s: Seq<u8>) -> Option<Seq<u8>>;

/// The standard Base64 form of bytes.
pub uninterp spec fn base64_encoded(b: Seq<u8>) -> Seq<char>;

pub open spec fn opt_bytes(o: Option<Vec<u8>>) -> Option<Seq<u8>> {
    match o {
        Some(v) => Some(v@),
        None => None,
    }
}

/// `Engine::decode` of `base64::engine::general_purpose::STANDARD`, with its
/// result named.
#[verifier::external_body]
pub(crate) fn base64_decode(s: &str) -> (r: Option<Vec<u8>>)
    ensures
        opt_bytes(r) == base64_decoded(vstd::utf8::encode_utf8(s@)),
{
    base64::engine::general_purpose::STANDARD.decode(s).ok()
}

/// `Engine::encode` of `base64::engine::general_purpose::STANDARD`, with its
/// result named. Decoding it gives the bytes back.
#[verifier::external_body]
pub(crate) fn base64_encode(b: &[u8]) -> (r: String)
    ensures
        r@ == base64_encoded(b@),
        base64_decoded(vstd::utf8::encode_utf8(r@)) == Some(b@),
{
    base64::engine::general_purpose::STANDARD.encode(b)
}

/// The value of a hexadecimal digit.
pub open spec fn hex_digit(c: char) -> Option<int> {
    if '0' <= c && c <= '9' {
        Some(c as int - '0' as int)
    } else if 'a' <= c && c <= 'f' {
        Some(c as int - 'a' as int + 10)
    } else if 'A' <= c && c <= 'F' {
        Some(c as int - 'A' as int + 10)
    } else {
        None
    }
}

pub fn hex_value(c: char) -> (r: Option<u8>)
    ensures
        (match r {
            Some(v) => Some(v as int),
            None => None,
        }) == hex_digit(c),
        r is Some ==> r->0 < 16,
{
    if '0' <= c && c <= '9' {
        Some((c as u32 - '0' as u32) as u8)
    } else if 'a' <= c && c <= 'f' {
        Some((c as u32 - 'a' as u32) as u8 + 10)
    } else if 'A' <= c && c <= 'F' {
        Some((c as u32 - 'A' as u32) as u8 + 10)
    } else {
        None
    }
}

/// The lower case hexadecimal digit of a number below 16.
pub open spec fn hex_char(n: int) -> char {
    if n < 10 {
        (n + 48) as char
    } else {
        (n + 87) as char
    }
}

pub fn to_hex_char(n: u8) -> (r: char)
    requires
        n < 16,
    ensures
        r == hex_char(n as int),
{
    if n < 10 {
        (n + 48) as char
    } else {
        (n + 87) as char
    }
}

/// The upper case hexadecimal digit of a number below 16.
pub open spec fn upper_hex(n: int) -> char {
    if n < 10 {
        (n + 48) as char
    } else {
        (n + 55) as char
    }
}

pub fn to_upper_hex(n: u8) -> (r: char)
    requires
        n < 16,
    ensures
        r == upper_hex(n as int),
{
    if n < 10 {
        (n + 48) as char
    } else {
        (n + 55) as char
    }
}

/// The bytes in lower case hexadecimal.
pub open spec fn hex_text(b: Seq<u8>) -> Seq<char> {
    Seq::new(
        2 * b.len(),
        |i: int| hex_char(if i % 2 == 0 { b[i / 2] as int / 16 } else { b[i / 2] as int % 16 }),
    )
}

/// Reading a hexadecimal digit back gives the number it writes.
pub proof fn law_hex_digit_reads_back(n: int)
    requires
        0 <= n < 16,
    ensures
        hex_digit(hex_char(n)) == Some(n),
{
}

// ---- laws ----
/// Numbers are written with the high byte first, in two or four bytes.
pub proof fn law_high_byte_first(n: int)
    ensures
        0 <= n < 0x1_0000 ==> ({
            let b = be16_bytes(n);
            b.len() == 2 && b[0] * 256 + b[1] == n
        }),
        0 <= n < 0x1_0000_0000 ==> ({
            let b = be32_bytes(n);
            b.len() == 4 && b[0] * 0x1000000 + b[1] * 0x10000 + b[2] * 0x100 + b[3] == n
        }),
{
}

/// Eight bytes are the two halves of a number, the high one first.
pub proof fn law_high_half_first(n: int)
    requires
        0 <= n < 0x1_0000_0000_0000_0000,
    ensures
        be64_bytes(n).len() == 8,
        be64_bytes(n).take(4) == be32_bytes(n / 0x1_0000_0000),
        be64_bytes(n).skip(4) == be32_bytes(n % 0x1_0000_0000),
{
    assert(be64_bytes(n).take(4) =~= be32_bytes(n / 0x1_0000_0000));
    assert(be64_bytes(n).skip(4) =~= be32_bytes(n % 0x1_0000_0000));
}

/// Numbers are read with the high byte first.
pub proof fn law_high_byte_is_read_first(a: u8, b: u8, c: u8, d: u8)
    ensures
        be16(a, b) == a * 256 + b,
        be24(a, b, c) == a * 0x10000 + b * 0x100 + c,
        be32(a, b, c, d) == a * 0x1000000 + b * 0x10000 + c * 0x100 + d,
        le32(a, b, c, d) == d * 0x1000000 + c * 0x10000 + b * 0x100 + a,
{
}

/// Bytes that are put in a place leave the others where they were.
pub proof fn law_put_leaves_the_rest(s: Seq<u8>, at: int, b: Seq<u8>, i: int)
    requires
        0 <= at,
        at + b.len() <= s.len(),
        0 <= i < s.len(),
    ensures
        put_at(s, at, b).len() == s.len(),
        put_at(s, at, b)[i] == (if at <= i < at + b.len() {
            b[i - at]
        } else {
            s[i]
        }),
{
}

/// Reading bytes and writing the number gives the bytes back.
pub proof fn law_written_as_read(a: u8, b: u8, c: u8, d: u8)
    ensures
        be16_bytes(a * 256 + b) == seq![a, b],
        be32_bytes(a * 0x1000000 + b * 0x10000 + c * 0x100 + d) == seq![a, b, c, d],
{
    let n = a * 0x1000000 + b * 0x10000 + c * 0x100 + d;
    assert(n / 0x100_0000 == a);
    assert(n / 0x1_0000 == a * 256 + b);
    assert(n / 0x100 == (a * 256 + b) * 256 + c);
    assert(be16_bytes(a * 256 + b) =~= seq![a, b]);
    assert(be32_bytes(n) =~= seq![a, b, c, d]);
}

/// Each byte is two digits, the high one first, and they read back.
pub proof fn law_hex_text_reads_back(b: Seq<u8>, i: int)
    requires
        0 <= i < b.len(),
    ensures
        hex_text(b).len() == 2 * b.len(),
        hex_digit(hex_text(b)[2 * i]) == Some(b[i] as int / 16),
        hex_digit(hex_text(b)[2 * i + 1]) == Some(b[i] as int % 16),
{
    assert((2 * i) / 2 == i && (2 * i) % 2 == 0);
    assert((2 * i + 1) / 2 == i && (2 * i + 1) % 2 == 1);
}

} // verus!
