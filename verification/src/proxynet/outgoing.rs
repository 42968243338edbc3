//! Bytes on their way: a frame that is being written, and bytes that come
//! before a stream.

use vstd::prelude::*;

use crate::codec;

verus! {

/// A frame that is being written, and how much data it carries.
#[derive(Debug)]
pub struct Outgoing {
    pub frame: Vec<u8>,
    pub sent: usize,
    pub carries: usize,
}

impl Outgoing {
    pub open spec fn wf(self) -> bool {
        self.sent <= self.frame@.len()
    }

    /// What is left to be written.
    pub open spec fn left(self) -> Seq<u8> {
        self.frame@.skip(self.sent as int)
    }

    pub fn new() -> (r: Self)
        ensures
            r.wf(),
            r.frame@.len() == 0,
            r.carries == 0,
    {
        Outgoing { frame: Vec::new(), sent: 0, carries: 0 }
    }

    /// Whether no frame is being written.
    pub fn is_idle(&self) -> (r: bool)
        ensures
            r == (self.frame@.len() == 0),
    {
        self.frame.len() == 0
    }

    /// Begins with a frame that carries so much data.
    pub fn begin(&mut self, frame: Vec<u8>, carries: usize)
        ensures
            final(self).wf(),
            final(self).frame@ == frame@,
            final(self).left() == frame@,
            final(self).carries == carries,
    {
        self.frame = frame;
        self.sent = 0;
        self.carries = carries;
        assert(self.frame@.skip(0) =~= self.frame@);
    }

    /// What is left to be written.
    pub fn rest<'a>(&'a self) -> (r: &'a [u8])
        requires
            self.wf(),
        ensures
            r@ == self.left(),
    {
        let n: usize = self.frame.len();
        let r = &self.frame.as_slice()[self.sent..n];
        assert(r@ =~= self.left());
        r
    }

    /// Some of it was written; says whether nothing is left.
    pub fn wrote(&mut self, n: usize) -> (r: bool)
        requires
            old(self).wf(),
            n <= old(self).left().len(),
        ensures
            final(self).wf(),
            final(self).frame@ == old(self).frame@,
            final(self).carries == old(self).carries,
            final(self).left() == old(self).left().skip(n as int),
            r == (final(self).left().len() == 0),
    {
        let ghost before = self.left();
        let total: usize = self.frame.len();
        self.sent = self.sent + n;
        assert(self.left() =~= before.skip(n as int));
        self.sent == total
    }

    /// The frame is written: it is forgotten, and how much data it carried is
    /// returned.
    pub fn finish(&mut self) -> (r: usize)
        ensures
            final(self).wf(),
            final(self).frame@.len() == 0,
            final(self).carries == 0,
            r == old(self).carries,
    {
        let n: usize = self.carries;
        self.frame = Vec::new();
        self.sent = 0;
        self.carries = 0;
        n
    }
}

/// The first bytes of some, at most `max` of them.
pub open spec fn at_most(s: Seq<u8>, max: int) -> Seq<u8> {
    if s.len() <= max {
        s
    } else {
        s.take(max)
    }
}

/// Takes the first bytes of a buffer, at most `max` of them.
pub fn take_some(v: &mut Vec<u8>, max: usize) -> (r: Vec<u8>)
    ensures
        r@ == at_most(old(v)@, max as int),
        old(v)@ == r@ + final(v)@,
        final(v)@ == old(v)@.skip(r@.len() as int),
{
    let n: usize = if v.len() <= max {
        v.len()
    } else {
        max
    };
    let ghost before = v@;
    let r = codec::take_front(v, n);
    proof {
        assert(before.take(before.len() as int) =~= before);
        assert(before =~= r@ + v@);
    }
    r
}

/// Bytes that are read before those of a stream.
#[derive(Debug)]
pub struct PrefixedStream {
    pub prefix: Vec<u8>,
    pub pos: usize,
}

impl PrefixedStream {
    pub open spec fn wf(self) -> bool {
        self.pos <= self.prefix@.len()
    }

    /// The bytes that are still to be read.
    pub open spec fn left(self) -> Seq<u8> {
        self.prefix@.skip(self.pos as int)
    }

    /// Bytes before a stream, where there are any.
    pub fn wrap_if_needed(prefix: Vec<u8>) -> (r: Option<PrefixedStream>)
        ensures
            match r {
                Some(p) => p.wf() && prefix@.len() > 0 && p.left() == prefix@,
                None => prefix@.len() == 0,
            },
    {
        if prefix.len() == 0 {
            None
        } else {
            assert(prefix@.skip(0) =~= prefix@);
            Some(PrefixedStream { prefix, pos: 0 })
        }
    }

    /// Reads at most `max` bytes; none are left where it reads from the stream.
    pub fn read(&mut self, max: usize) -> (r: Option<Vec<u8>>)
        requires
            old(self).wf(),
        ensures
            final(self).wf(),
            match r {
                Some(b) => old(self).left().len() > 0 && b@ == at_most(
                    old(self).left(),
                    max as int,
                ) && final(self).left() == old(self).left().skip(b@.len() as int),
                None => old(self).left().len() == 0 && final(self).left() == old(self).left(),
            },
    {
        let total: usize = self.prefix.len();
        if self.pos >= total {
            return None;
        }
        let ghost before = self.left();
        let left: usize = total - self.pos;
        let n: usize = if left <= max {
            left
        } else {
            max
        };
        let r = codec::copy(&self.prefix.as_slice()[self.pos..self.pos + n]);
        self.pos = self.pos + n;
        proof {
            assert(r@ =~= at_most(before, max as int));
            assert(self.left() =~= before.skip(n as int));
        }
        Some(r)
    }
}

// ---- laws ----
/// What reads of some sizes give, first to last, of a stream with bytes before it: a
/// read takes from the bytes before it as long as there are any.
pub open spec fn reads(left: Seq<u8>, inner: Seq<u8>, sizes: Seq<nat>) -> Seq<u8>
    decreases sizes.len(),
{
    if sizes.len() == 0 {
        Seq::empty()
    } else if left.len() > 0 {
        let b = at_most(left, sizes[0] as int);
        b + reads(left.skip(b.len() as int), inner, sizes.skip(1))
    } else {
        let b = at_most(inner, sizes[0] as int);
        b + reads(left, inner.skip(b.len() as int), sizes.skip(1))
    }
}

/// Read to the end in pieces of any size but nothing, a stream with bytes before it
/// gives those bytes and then its own, each once and in order.
pub proof fn law_prefix_then_stream(left: Seq<u8>, inner: Seq<u8>, sizes: Seq<nat>)
    requires
        forall|i: int| 0 <= i < sizes.len() ==> #[trigger] sizes[i] > 0,
        sizes.len() >= left.len() + inner.len(),
    ensures
        reads(left, inner, sizes) == left + inner,
    decreases sizes.len(),
{
    if sizes.len() == 0 {
        assert(left + inner =~= Seq::empty());
    } else {
        let rest = sizes.skip(1);
        assert forall|i: int| 0 <= i < rest.len() implies #[trigger] rest[i] > 0 by {
            assert(rest[i] == sizes[i + 1]);
        }
        if left.len() > 0 {
            let b = at_most(left, sizes[0] as int);
            law_prefix_then_stream(left.skip(b.len() as int), inner, rest);
            assert(reads(left, inner, sizes) =~= left + inner);
        } else {
            let b = at_most(inner, sizes[0] as int);
            law_prefix_then_stream(left, inner.skip(b.len() as int), rest);
            assert(reads(left, inner, sizes) =~= left + inner);
        }
    }
}

} // verus!
