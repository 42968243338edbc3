//! Texts in units of 16 bits, as the system's calls take them.

use vstd::prelude::*;

use crate::text;

verus! {

/// The units of a character: itself, or a pair of surrogates.
pub open spec fn char_units(c: char) -> Seq<u16> {
    let n = c as int;
    if n < 0x10000 {
        seq![n as u16]
    } else {
        seq![
            (0xD800 + (n - 0x10000) / 0x400) as u16,
            (0xDC00 + (n - 0x10000) % 0x400) as u16,
        ]
    }
}

/// The units of a text.
pub open spec fn units(s: Seq<char>) -> Seq<u16>
    decreases s.len(),
{
    if s.len() == 0 {
        Seq::empty()
    } else {
        units(s.drop_last()) + char_units(s.last())
    }
}

fn push_char(out: &mut Vec<u16>, c: char)
    ensures
        final(out)@ == old(out)@ + char_units(c),
{
    let n: u32 = c as u32;
    if n < 0x10000 {
        out.push(n as u16);
    } else {
        let v: u32 = n - 0x10000;
        out.push((0xD800 + v / 0x400) as u16);
        out.push((0xDC00 + v % 0x400) as u16);
    }
    assert(out@ =~= old(out)@ + char_units(c));
}

/// The units of a text and a zero behind them.
pub fn wide(s: &str) -> (r: Vec<u16>)
    ensures
        r@ == units(s@).push(0),
{
    let c = text::chars_of(s);
    let mut out: Vec<u16> = Vec::new();
    let mut i: usize = 0;
    assert(c@.take(0).len() == 0);
    while i < c.len()
        invariant
            i <= c@.len(),
            out@ == units(c@.take(i as int)),
        decreases c@.len() - i,
    {
        push_char(&mut out, c[i]);
        assert(c@.take(i + 1).drop_last() =~= c@.take(i as int));
        assert(c@.take(i + 1).last() == c@[i as int]);
        i += 1;
    }
    assert(c@.take(i as int) =~= c@);
    out.push(0);
    out
}

/// A text in a field of fixed length: what fits of it, with a zero behind it.
/// What lies behind that zero is kept.
pub open spec fn tip(field: Seq<u16>, s: Seq<char>) -> Seq<u16> {
    let u = units(s);
    Seq::new(
        field.len(),
        |i: int|
            if i < u.len() && i < field.len() - 1 {
                u[i]
            } else if i <= u.len() + 1 {
                0
            } else {
                field[i]
            },
    )
}

/// Writes a text into a field of fixed length.
pub fn copy_tip(buf: &mut [u16], text: &str)
    ensures
        final(buf)@ == tip(old(buf)@, text@),
{
    let encoded = wide(text);
    let room: usize = buf.len();
    let n: usize = if encoded.len() < room {
        encoded.len()
    } else {
        room
    };
    let ghost start = buf@;
    let mut i: usize = 0;
    while i < n
        invariant
            i <= n <= encoded@.len(),
            n <= room == start.len() == buf@.len(),
            forall|j: int| 0 <= j < i ==> (#[trigger] buf@[j]) == encoded@[j],
            forall|j: int| i <= j < room ==> (#[trigger] buf@[j]) == start[j],
        decreases n - i,
    {
        buf[i] = encoded[i];
        i += 1;
    }
    if n < room {
        buf[n] = 0;
    } else if room > 0 {
        buf[room - 1] = 0;
    }
    assert(buf@ =~= tip(start, text@));
}

/// A field always ends in a zero, and its length is kept.
pub proof fn law_tip_ends(field: Seq<u16>, s: Seq<char>)
    requires
        field.len() > 0,
    ensures
        tip(field, s).len() == field.len(),
        exists|i: int| 0 <= i < field.len() && #[trigger] tip(field, s)[i] == 0,
{
    let u = units(s);
    let i = if u.len() < field.len() - 1 {
        u.len() as int
    } else {
        field.len() - 1
    };
    assert(tip(field, s)[i] == 0);
}

// ---- laws ----
/// A character up to U+FFFF is one unit of the same number. Any other is a pair: ten bits
/// in a high surrogate, then ten bits in a low one, of its number less 0x10000.
pub proof fn law_units_of_character(c: char)
    ensures
        c as int <= 0xFFFF ==> char_units(c).len() == 1 && char_units(c)[0] as int == c as int,
        c as int > 0xFFFF ==> {
            let u = char_units(c);
            &&& u.len() == 2
            &&& 0xD800 <= u[0] <= 0xDBFF
            &&& 0xDC00 <= u[1] <= 0xDFFF
            &&& (u[0] - 0xD800) * 0x400 + (u[1] - 0xDC00) + 0x10000 == c as int
        },
{
    let n = c as int;
    assert(0 <= n <= 0x10FFFF);
    if n >= 0x10000 {
        let a = 0xD800 + (n - 0x10000) / 0x400;
        let b = 0xDC00 + (n - 0x10000) % 0x400;
        assert(0xD800 <= a <= 0xDBFF);
        assert(0xDC00 <= b <= 0xDFFF);
    }
}

/// Characters follow each other in their order.
pub proof fn law_units_follow(s: Seq<char>, c: char)
    ensures
        units(Seq::empty()).len() == 0,
        units(s.push(c)) == units(s) + char_units(c),
{
    assert(s.push(c).drop_last() =~= s);
    assert(s.push(c).last() == c);
}

/// A text that fits in a field stands at its front with a zero behind it; of a longer one
/// the front stands there.
pub proof fn law_tip_shows_text(field: Seq<u16>, s: Seq<char>, i: int)
    requires
        0 <= i < units(s).len(),
        i + 1 < field.len(),
    ensures
        tip(field, s)[i] == units(s)[i],
        units(s).len() < field.len() ==> tip(field, s)[units(s).len() as int] == 0,
{
}

} // verus!
