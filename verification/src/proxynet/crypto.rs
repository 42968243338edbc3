//! User ids and password hashes.

use vstd::prelude::*;

use crate::codec;
use crate::hash;
use crate::text;

verus! {

pub const UUID_SIZE: usize = 16;

pub const SHA224_HEX_SIZE: usize = 56;

// ---- hexadecimal ----
/// Whether a text holds hexadecimal digits only.
pub open spec fn all_hex(s: Seq<char>) -> bool {
    forall|i: int| 0 <= i < s.len() ==> codec::hex_digit(#[trigger] s[i]) is Some
}

/// The bytes that pairs of hexadecimal digits write.
pub open spec fn hex_bytes(s: Seq<char>) -> Seq<u8> {
    Seq::new(
        s.len() / 2,
        |i: int| (codec::hex_digit(s[2 * i])->0 * 16 + codec::hex_digit(s[2 * i + 1])->0) as u8,
    )
}

/// `hex::decode` on an even number of hexadecimal digits of either case: each
/// pair writes a byte, its first digit the higher half.
#[verifier::external_body]
pub(crate) fn hex_decode(s: &str) -> (r: Vec<u8>)
    requires
        all_hex(s@),
        s@.len() % 2 == 0,
    ensures
        r@ == hex_bytes(s@),
{
    hex::decode(s).unwrap_or_default()
}

/// The lower case hexadecimal digit of a number, in ASCII.
pub open spec fn hex_ascii(n: int) -> u8 {
    if n < 10 {
        (48 + n) as u8
    } else {
        (87 + n) as u8
    }
}

/// Bytes in lower case hexadecimal digits, in ASCII.
pub open spec fn hex_line(b: Seq<u8>) -> Seq<u8> {
    Seq::new(
        2 * b.len(),
        |i: int|
            if i % 2 == 0 {
                hex_ascii(b[i / 2] as int / 16)
            } else {
                hex_ascii(b[i / 2] as int % 16)
            },
    )
}

fn to_hex_ascii(n: u8) -> (r: u8)
    requires
        n < 16,
    ensures
        r == hex_ascii(n as int),
{
    if n < 10 {
        48 + n
    } else {
        87 + n
    }
}

fn format_hex(b: &[u8]) -> (r: Vec<u8>)
    ensures
        r@ == hex_line(b@),
{
    let mut out: Vec<u8> = Vec::new();
    let n: usize = b.len();
    let mut i: usize = 0;
    while i < n
        invariant
            i <= n == b@.len(),
            out@ =~= hex_line(b@.take(i as int)),
        decreases n - i,
    {
        let ghost before = out@;
        out.push(to_hex_ascii(b[i] / 16));
        out.push(to_hex_ascii(b[i] % 16));
        proof {
            let next = hex_line(b@.take(i + 1));
            assert(out@.len() == next.len());
            assert forall|j: int| 0 <= j < next.len() implies out@[j] == next[j] by {
                if j < 2 * i {
                    assert(before[j] == hex_line(b@.take(i as int))[j]);
                    assert(b@.take(i as int)[j / 2] == b@.take(i + 1)[j / 2]);
                } else if j == 2 * i {
                    assert(j / 2 == i && j % 2 == 0);
                } else {
                    assert(j / 2 == i && j % 2 == 1);
                }
            }
            assert(out@ =~= next);
        }
        i += 1;
    }
    assert(b@.take(i as int) =~= b@);
    out
}

/// Writes the SHA-224 digest of data in lower case hexadecimal digits.
pub fn sha224_hex_lower(data: &[u8], dest: &mut [u8])
    requires
        old(dest)@.len() >= SHA224_HEX_SIZE,
    ensures
        final(dest)@ == codec::put_at(old(dest)@, 0, hex_line(hash::sha224_digest(data@))),
        hex_line(hash::sha224_digest(data@)).len() == SHA224_HEX_SIZE,
{
    let d = hash::sha224(data);
    let h = format_hex(d.as_slice());
    codec::put(dest, 0, h.as_slice());
}

// ---- user ids ----
/// The hexadecimal digits of a text.
pub open spec fn hex_only(s: Seq<char>) -> Seq<char> {
    s.filter(|c: char| codec::hex_digit(c) is Some)
}

/// The id that a name stands for: a version 5 UUID in the nil namespace, from
/// the digest of 16 zeros and the name.
pub open spec fn derived_uuid(digest: Seq<u8>) -> Seq<u8> {
    digest.take(16).update(6, (digest[6] & 0x0f) | 0x50).update(8, (digest[8] & 0x3f) | 0x80)
}

pub open spec fn name_input(name: Seq<u8>) -> Seq<u8> {
    Seq::new(16, |i: int| 0u8) + name
}

/// The 16 bytes of a user id: 32 hexadecimal digits among 32 to 36 bytes, or a
/// name of up to 30 bytes; none for other ids.
pub open spec fn uuid_bytes(id: Seq<char>) -> Option<Seq<u8>> {
    let t = text::trimmed(id);
    let name = vstd::utf8::encode_utf8(t);
    if 32 <= name.len() <= 36 {
        if hex_only(t).len() == 32 {
            Some(hex_bytes(hex_only(t)))
        } else {
            None
        }
    } else if 0 < name.len() <= 30 {
        Some(derived_uuid(hash::sha1_digest(name_input(name))))
    } else {
        None
    }
}

fn keep_hex(s: &[char]) -> (r: Vec<char>)
    ensures
        r@ == hex_only(s@),
        all_hex(r@),
{
    let ghost keep = |c: char| codec::hex_digit(c) is Some;
    let mut r: Vec<char> = Vec::new();
    let mut i: usize = 0;
    proof {
        reveal(Seq::filter);
        assert(r@ =~= s@.take(0).filter(keep));
    }
    while i < s.len()
        invariant
            i <= s@.len(),
            keep == (|c: char| codec::hex_digit(c) is Some),
            r@ == s@.take(i as int).filter(keep),
            all_hex(r@),
        decreases s@.len() - i,
    {
        proof {
            reveal(Seq::filter);
            assert(s@.take(i + 1).drop_last() =~= s@.take(i as int));
        }
        if codec::hex_value(s[i]).is_some() {
            r.push(s[i]);
        }
        i += 1;
    }
    assert(s@.take(i as int) =~= s@);
    r
}

fn derive_uuid(name: &[u8]) -> (r: Vec<u8>)
    ensures
        r@ == derived_uuid(hash::sha1_digest(name_input(name@))),
        r@.len() == 16,
{
    let mut input: Vec<u8> = Vec::new();
    codec::append_zeros(&mut input, 16);
    codec::append(&mut input, name);
    assert(input@ =~= name_input(name@));
    let d = hash::sha1(input.as_slice());
    let mut r = codec::copy(&d.as_slice()[0..16]);
    assert(r@ =~= d@.take(16));
    let a: u8 = (d[6] & 0x0f) | 0x50;
    let b: u8 = (d[8] & 0x3f) | 0x80;
    r.set(6, a);
    r.set(8, b);
    r
}

/// The 16 bytes of a user id, if it has them.
pub fn uuid_of(id: &str) -> (r: Option<Vec<u8>>)
    ensures
        codec::opt_bytes(r) == uuid_bytes(id@),
        r is Some ==> r->0@.len() == UUID_SIZE,
{
    let c = text::chars_of(id);
    let t = text::trim(c.as_slice());
    let s = text::string_of(t);
    let name = codec::bytes_of(s.as_str());
    let n: usize = name.len();
    if n >= 32 && n <= 36 {
        let h = keep_hex(t);
        if h.len() != 32 {
            return None;
        }
        let hs = text::string_of(h.as_slice());
        return Some(hex_decode(hs.as_str()));
    }
    if n > 0 && n <= 30 {
        return Some(derive_uuid(name.as_slice()));
    }
    None
}

/// Writes the 16 bytes of a user id; says whether there are any.
pub fn uuid_write_be(id: &str, dest: &mut [u8]) -> (r: bool)
    ensures
        r == (old(dest)@.len() >= UUID_SIZE && uuid_bytes(id@) is Some),
        r ==> final(dest)@ == codec::put_at(old(dest)@, 0, uuid_bytes(id@)->0)
            && uuid_bytes(id@)->0.len() == UUID_SIZE,
        !r ==> final(dest)@ == old(dest)@,
{
    if dest.len() < UUID_SIZE {
        return false;
    }
    match uuid_of(id) {
        Some(b) => {
            codec::put(dest, 0, b.as_slice());
            true
        },
        None => false,
    }
}

// ---- laws ----
/// An id that is derived from a name is marked as a version 5 UUID.
pub proof fn law_derived_uuid_version(digest: Seq<u8>)
    requires
        digest.len() >= 16,
    ensures
        derived_uuid(digest).len() == 16,
        derived_uuid(digest)[6] / 16 == 5,
        derived_uuid(digest)[8] / 64 == 2,
{
    let a = digest[6];
    let b = digest[8];
    assert(((a & 0x0f) | 0x50) / 16 == 5) by (bit_vector);
    assert(((b & 0x3f) | 0x80) / 64 == 2) by (bit_vector);
}

/// A byte is written as two lower case hexadecimal digits, the higher half first.
pub proof fn law_hex_line_reads_back(b: Seq<u8>, i: int)
    requires
        0 <= i < b.len(),
    ensures
        ({
            let l = hex_line(b);
            let hi = codec::hex_digit(l[2 * i] as char);
            let lo = codec::hex_digit(l[2 * i + 1] as char);
            &&& l.len() == 2 * b.len()
            &&& hi is Some && lo is Some
            &&& hi->0 * 16 + lo->0 == b[i]
            &&& !(65 <= l[2 * i] <= 90) && !(65 <= l[2 * i + 1] <= 90)
        }),
{
    assert((2 * i) / 2 == i && (2 * i + 1) / 2 == i);
    assert((2 * i) % 2 == 0 && (2 * i + 1) % 2 == 1);
    lemma_hex_ascii(b[i] as int / 16);
    lemma_hex_ascii(b[i] as int % 16);
}

proof fn lemma_hex_ascii(n: int)
    requires
        0 <= n < 16,
    ensures
        codec::hex_digit(hex_ascii(n) as char) == Some(n),
        48 <= hex_ascii(n) <= 57 || 97 <= hex_ascii(n) <= 102,
{
}

/// Two hexadecimal digits write a byte, the first its higher half.
pub proof fn law_hex_bytes_read(s: Seq<char>, i: int)
    requires
        all_hex(s),
        0 <= i < s.len() / 2,
    ensures
        hex_bytes(s).len() == s.len() / 2,
        hex_bytes(s)[i] == codec::hex_digit(s[2 * i])->0 * 16 + codec::hex_digit(s[2 * i + 1])->0,
{
    assert(codec::hex_digit(s[2 * i]) is Some);
    assert(codec::hex_digit(s[2 * i + 1]) is Some);
}

/// The dashes of a user id do not count.
pub proof fn law_dashes_do_not_count(a: Seq<char>, b: Seq<char>)
    ensures
        hex_only(a + seq!['-'] + b) == hex_only(a + b),
{
    let keep = |c: char| codec::hex_digit(c) is Some;
    Seq::filter_distributes_over_add(a + seq!['-'], b, keep);
    Seq::filter_distributes_over_add(a, seq!['-'], keep);
    Seq::filter_distributes_over_add(a, b, keep);
    let d = seq!['-'];
    reveal(Seq::filter);
    assert(d.drop_last() =~= Seq::<char>::empty());
    assert(d.filter(keep) =~= Seq::<char>::empty()) by {
        assert(d.last() == '-');
        assert(!keep('-'));
        assert(d.drop_last().filter(keep) =~= Seq::<char>::empty());
    }
    assert((a + d).filter(keep) =~= a.filter(keep));
}

/// A user id with 32 hexadecimal digits stands for the 16 bytes that they write, and a
/// name of up to 30 bytes for the version 5 UUID of the name: the SHA-1 of 16 zeros
/// and the name, with the version and the variant in its seventh and ninth byte.
pub proof fn law_user_ids(id: Seq<char>)
    requires
        text::trimmed(id) == id,
    ensures
        ({
            let n = vstd::utf8::encode_utf8(id).len();
            let d = hash::sha1_digest(
                Seq::new(16, |i: int| 0u8) + vstd::utf8::encode_utf8(id),
            );
            &&& (32 <= n <= 36 && hex_only(id).len() == 32 ==> uuid_bytes(id) == Some(
                hex_bytes(hex_only(id)),
            ))
            &&& (32 <= n <= 36 && hex_only(id).len() != 32 ==> uuid_bytes(id) is None)
            &&& (n == 0 || n == 31 || n > 36 ==> uuid_bytes(id) is None)
            &&& (0 < n <= 30 && d.len() == 20 ==> {
                let u = uuid_bytes(id)->0;
                &&& uuid_bytes(id) is Some
                &&& u.len() == 16
                &&& u[6] / 16 == 5 && u[6] % 16 == d[6] % 16
                &&& u[8] / 64 == 2 && u[8] % 64 == d[8] % 64
                &&& forall|i: int|
                    0 <= i < 16 && i != 6 && i != 8 ==> #[trigger] u[i] == d[i]
            })
        }),
{
    let name = vstd::utf8::encode_utf8(id);
    let d = hash::sha1_digest(name_input(name));
    let x = d[6];
    let y = d[8];
    assert(((x & 0x0f) | 0x50) / 16 == 5 && ((x & 0x0f) | 0x50) % 16 == x % 16) by (bit_vector);
    assert(((y & 0x3f) | 0x80) / 64 == 2 && ((y & 0x3f) | 0x80) % 64 == y % 64) by (bit_vector);
}

} // verus!
