//! A writer of TLS messages: vectors with their length before them.

use vstd::prelude::*;

use crate::codec;

verus! {

/// The bytes of a message.
#[derive(Debug)]
pub struct TlsWriter {
    pub buf: Vec<u8>,
}

/// The lowest bytes of a length, the high byte first.
pub open spec fn length_bytes(n: int, prefix: int) -> Seq<u8> {
    if prefix == 1 {
        seq![(n % 256) as u8]
    } else if prefix == 2 {
        seq![(n / 256 % 256) as u8, (n % 256) as u8]
    } else {
        seq![(n / 65536 % 256) as u8, (n / 256 % 256) as u8, (n % 256) as u8]
    }
}

/// A vector: its length in so many bytes, then its content.
pub open spec fn vector(prefix: int, b: Seq<u8>) -> Seq<u8> {
    length_bytes(b.len() as int, prefix) + b
}

impl View for TlsWriter {
    type V = Seq<u8>;

    open spec fn view(&self) -> Seq<u8> {
        self.buf@
    }
}

impl TlsWriter {
    pub fn new(cap: usize) -> (r: Self)
        ensures
            r@ == Seq::<u8>::empty(),
    {
        let r = TlsWriter { buf: Vec::with_capacity(cap) };
        assert(r@ =~= Seq::empty());
        r
    }

    pub fn write_u8(&mut self, v: u8)
        ensures
            final(self)@ == old(self)@.push(v),
    {
        self.buf.push(v);
    }

    pub fn write_u16(&mut self, v: u16)
        ensures
            final(self)@ == old(self)@ + codec::be16_bytes(v as int),
    {
        codec::push_be16(&mut self.buf, v);
    }

    pub fn write_bytes(&mut self, v: &[u8])
        ensures
            final(self)@ == old(self)@ + v@,
    {
        codec::append(&mut self.buf, v);
    }

    pub fn write_zeros(&mut self, n: usize)
        ensures
            final(self)@ == old(self)@ + Seq::new(n as nat, |i: int| 0u8),
    {
        codec::append_zeros(&mut self.buf, n);
    }

    /// Begins a vector whose length takes one byte; returns where its content
    /// begins.
    pub fn begin_vector8(&mut self) -> (r: usize)
        ensures
            r == old(self)@.len() + 1,
            final(self)@ == old(self)@ + seq![0u8],
    {
        self.write_u8(0);
        assert(self@ =~= old(self)@ + seq![0u8]);
        self.buf.len()
    }

    pub fn begin_vector16(&mut self) -> (r: usize)
        ensures
            r == old(self)@.len() + 2,
            final(self)@ == old(self)@ + seq![0u8, 0u8],
    {
        self.write_u16(0);
        assert(self@ =~= old(self)@ + seq![0u8, 0u8]);
        self.buf.len()
    }

    pub fn begin_vector24(&mut self) -> (r: usize)
        ensures
            r == old(self)@.len() + 3,
            final(self)@ == old(self)@ + seq![0u8, 0u8, 0u8],
    {
        self.write_u8(0);
        self.write_u16(0);
        assert(self@ =~= old(self)@ + seq![0u8, 0u8, 0u8]);
        self.buf.len()
    }

    /// Ends a vector: writes its length where it begins.
    pub fn end_vector(&mut self, marker: usize, prefix: usize)
        requires
            1 <= prefix <= 3,
            prefix <= marker <= old(self)@.len(),
        ensures
            final(self)@ == old(self)@.take(marker - prefix) + vector(
                prefix as int,
                old(self)@.skip(marker as int),
            ),
    {
        let ghost before = self@;
        let n: usize = self.buf.len() - marker;
        let start: usize = marker - prefix;
        if prefix == 1 {
            self.buf.set(start, (n % 256) as u8);
        } else if prefix == 2 {
            self.buf.set(start, (n / 256 % 256) as u8);
            self.buf.set(start + 1, (n % 256) as u8);
        } else {
            self.buf.set(start, (n / 65536 % 256) as u8);
            self.buf.set(start + 1, (n / 256 % 256) as u8);
            self.buf.set(start + 2, (n % 256) as u8);
        }
        assert(self@ =~= before.take(marker - prefix) + vector(
            prefix as int,
            before.skip(marker as int),
        ));
    }

    pub fn into_vec(self) -> (r: Vec<u8>)
        ensures
            r@ == self@,
    {
        self.buf
    }
}

// ---- laws ----
/// A vector that is begun, filled and ended is its length and its content behind
/// what was written before.
pub proof fn law_vector_is_framed(before: Seq<u8>, prefix: int, content: Seq<u8>)
    requires
        1 <= prefix <= 3,
    ensures
        ({
            let w = before + Seq::new(prefix as nat, |i: int| 0u8) + content;
            let marker = before.len() + prefix;
            w.take(marker - prefix) + vector(prefix, w.skip(marker)) == before + vector(
                prefix,
                content,
            )
        }),
{
    let w = before + Seq::new(prefix as nat, |i: int| 0u8) + content;
    assert(w.take(before.len() as int) =~= before);
    assert(w.skip(before.len() + prefix) =~= content);
}

} // verus!
