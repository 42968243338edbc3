//! The `proxies` section of a YAML configuration.

use vstd::prelude::*;

use crate::bindings;
use crate::bindings::Bindings;
use crate::config::node;
use crate::config::node::{NodeView, ProxyNode};
use crate::text;

verus! {

/// A value without the quotes around it, and with what they escape.
pub open spec fn unquoted(s: Seq<char>) -> Seq<char> {
    if s.len() >= 2 && ((s[0] == '"' && s.last() == '"') || (s[0] == '\'' && s.last() == '\'')) {
        text::replaced(
            text::replaced(s.subrange(1, s.len() - 1), "\\\""@, "\""@),
            "\\\\"@,
            "\\"@,
        )
    } else {
        s
    }
}

pub fn unquote(s: &[char]) -> (r: Vec<char>)
    ensures
        r@ == unquoted(s@),
{
    let n: usize = s.len();
    if n >= 2 && ((s[0] == '"' && s[n - 1] == '"') || (s[0] == '\'' && s[n - 1] == '\'')) {
        let a = text::replace(&s[1..n - 1], "\\\"", "\"");
        text::replace(a.as_slice(), "\\\\", "\\")
    } else {
        let mut r: Vec<char> = Vec::new();
        text::append(&mut r, s);
        assert(r@ =~= s@);
        r
    }
}

// ---- flow maps ----
/// The pieces of a flow map's text from position `i` on, where the piece that
/// is being read began at `start`: commas outside of braces and quotes separate
/// them; a quote ends at its own mark, unless a backslash stands before it.
pub open spec fn flow_parts(
    s: Seq<char>,
    i: int,
    start: int,
    depth: nat,
    quote: Option<char>,
) -> Seq<Seq<char>>
    decreases s.len() - i,
{
    if i >= s.len() {
        nonblank(s.subrange(start, s.len() as int))
    } else {
        let c = s[i];
        match quote {
            Some(q) => flow_parts(s, i + 1, start, depth, quote_after(s, i, q)),
            None => if c == '\'' || c == '"' {
                flow_parts(s, i + 1, start, depth, Some(c))
            } else if c == '{' {
                flow_parts(s, i + 1, start, depth + 1, None)
            } else if c == '}' {
                flow_parts(s, i + 1, start, below(depth), None)
            } else if c == ',' && depth == 0 {
                nonblank(s.subrange(start, i)) + flow_parts(s, i + 1, i + 1, 0, None)
            } else {
                flow_parts(s, i + 1, start, depth, None)
            },
        }
    }
}

/// The trimmed text, unless nothing is left of it.
pub open spec fn nonblank(s: Seq<char>) -> Seq<Seq<char>> {
    let t = text::trimmed(s);
    if t.len() > 0 {
        seq![t]
    } else {
        Seq::empty()
    }
}

pub open spec fn quote_after(s: Seq<char>, i: int, q: char) -> Option<char> {
    if s[i] == q && (i == 0 || s[i - 1] != '\\') {
        None
    } else {
        Some(q)
    }
}

pub open spec fn below(depth: nat) -> nat {
    if depth > 0 {
        (depth - 1) as nat
    } else {
        0
    }
}

/// The first colon outside of braces and quotes, from position `i` on.
pub open spec fn top_colon(s: Seq<char>, i: int, depth: nat, quote: Option<char>) -> Option<int>
    decreases s.len() - i,
{
    if i >= s.len() {
        None
    } else {
        let c = s[i];
        match quote {
            Some(q) => top_colon(s, i + 1, depth, quote_after(s, i, q)),
            None => if c == '\'' || c == '"' {
                top_colon(s, i + 1, depth, Some(c))
            } else if c == '{' {
                top_colon(s, i + 1, depth + 1, None)
            } else if c == '}' {
                top_colon(s, i + 1, below(depth), None)
            } else if c == ':' && depth == 0 {
                Some(i)
            } else {
                top_colon(s, i + 1, depth, None)
            },
        }
    }
}

/// The number of bytes of a character in UTF-8.
pub open spec fn width(c: char) -> int {
    let v = c as int;
    if v < 0x80 {
        1
    } else if v < 0x800 {
        2
    } else if v < 0x10000 {
        3
    } else {
        4
    }
}

/// The character that begins `b` bytes behind position `j`, if one does.
pub open spec fn at_byte(s: Seq<char>, j: int, b: int) -> Option<int>
    decreases s.len() - j,
{
    if b == 0 {
        Some(j)
    } else if j >= s.len() || b < width(s[j]) {
        None
    } else {
        at_byte(s, j + 1, b - width(s[j]))
    }
}

/// A piece of a flow map, cut around its colon. The number of characters before
/// the colon is taken as a number of bytes; a piece that cannot be cut there is
/// passed over.
pub open spec fn flow_pair(part: Seq<char>) -> Option<(Seq<char>, Seq<char>)> {
    match top_colon(part, 0, 0, None) {
        Some(i) => match (at_byte(part, 0, i), at_byte(part, 0, i + 1)) {
            (Some(a), Some(b)) => Some(
                (text::trimmed(part.take(a)), unquoted(text::trimmed(part.skip(b)))),
            ),
            _ => None,
        },
        None => None,
    }
}

/// The text between the braces of a flow map.
pub open spec fn flow_body(flow: Seq<char>) -> Seq<char> {
    let s = text::trimmed(flow);
    let a = if s.len() > 0 && s[0] == '{' {
        s.skip(1)
    } else {
        s
    };
    if a.len() > 0 && a.last() == '}' {
        a.drop_last()
    } else {
        a
    }
}

/// The bindings of a flow map; those of an inner map have the outer key and a
/// dot before their own.
pub open spec fn flow_pairs(flow: Seq<char>) -> Seq<(Seq<char>, Seq<char>)>
    decreases flow.len(), 1nat, 0nat,
    via flow_pairs_decreases
{
    let parts = flow_parts(flow_body(flow), 0, 0, 0, None);
    pairs_of(parts, flow.len())
}

/// The bindings of the pieces of a flow map that is `size` characters long.
pub open spec fn pairs_of(parts: Seq<Seq<char>>, size: nat) -> Seq<(Seq<char>, Seq<char>)>
    decreases size, 0nat, parts.len(),
    when forall|i: int| 0 <= i < parts.len() ==> (#[trigger] parts[i]).len() <= size
    via pairs_of_decreases
{
    if parts.len() == 0 {
        Seq::empty()
    } else {
        let head = pairs_of(parts.drop_last(), size);
        match flow_pair(parts.last()) {
            Some((k, v)) => if k.len() == 0 {
                head
            } else if v.len() > 0 && v[0] == '{' && v.last() == '}' {
                head + prefixed(k, flow_pairs(v))
            } else {
                head.push((k, v))
            },
            None => head,
        }
    }
}

/// Bindings whose keys stand behind another key and a dot.
pub open spec fn prefixed(
    k: Seq<char>,
    p: Seq<(Seq<char>, Seq<char>)>,
) -> Seq<(Seq<char>, Seq<char>)> {
    Seq::new(p.len(), |i: int| (k + seq!['.'] + p[i].0, p[i].1))
}

proof fn lemma_trimmed_len(s: Seq<char>)
    ensures
        text::trimmed_start(s).len() <= s.len(),
        text::trimmed_end(s).len() <= s.len(),
        text::trimmed(s).len() <= s.len(),
    decreases s.len(),
{
    lemma_trim_start_len(s);
    lemma_trim_end_len(s);
    lemma_trim_end_len(text::trimmed_start(s));
}

proof fn lemma_trim_start_len(s: Seq<char>)
    ensures
        text::trimmed_start(s).len() <= s.len(),
    decreases s.len(),
{
    if s.len() > 0 && text::is_white(s[0]) {
        lemma_trim_start_len(s.skip(1));
    }
}

proof fn lemma_trim_end_len(s: Seq<char>)
    ensures
        text::trimmed_end(s).len() <= s.len(),
    decreases s.len(),
{
    if s.len() > 0 && text::is_white(s.last()) {
        lemma_trim_end_len(s.drop_last());
    }
}

proof fn lemma_replaced_len(s: Seq<char>, pat: Seq<char>, by: Seq<char>)
    requires
        by.len() <= pat.len(),
    ensures
        text::replaced(s, pat, by).len() <= s.len(),
    decreases s.len(),
{
    if pat.len() == 0 || s.len() == 0 {
    } else if text::starts(s, pat) {
        lemma_replaced_len(s.skip(pat.len() as int), pat, by);
    } else {
        lemma_replaced_len(s.skip(1), pat, by);
    }
}

proof fn lemma_unquoted_len(s: Seq<char>)
    ensures
        unquoted(s).len() <= s.len(),
{
    reveal_strlit("\\\"");
    reveal_strlit("\"");
    reveal_strlit("\\\\");
    reveal_strlit("\\");
    if s.len() >= 2 {
        let inner = s.subrange(1, s.len() - 1);
        lemma_replaced_len(inner, "\\\""@, "\""@);
        lemma_replaced_len(text::replaced(inner, "\\\""@, "\""@), "\\\\"@, "\\"@);
    }
}

/// Whether no text of a list is longer than `n`.
spec fn all_within(v: Seq<Seq<char>>, n: nat) -> bool {
    forall|k: int| 0 <= k < v.len() ==> (#[trigger] v[k]).len() <= n
}

proof fn lemma_nonblank_within(s: Seq<char>, n: nat)
    requires
        s.len() <= n,
    ensures
        all_within(nonblank(s), n),
{
    lemma_trimmed_len(s);
}

proof fn lemma_flow_parts_len(s: Seq<char>, i: int, start: int, depth: nat, quote: Option<char>)
    requires
        0 <= start <= i <= s.len(),
    ensures
        all_within(flow_parts(s, i, start, depth, quote), s.len()),
    decreases s.len() - i,
{
    if i < s.len() {
        let c = s[i];
        if quote is Some {
            lemma_flow_parts_len(s, i + 1, start, depth, quote_after(s, i, quote->0));
        } else if c == '\'' || c == '"' {
            lemma_flow_parts_len(s, i + 1, start, depth, Some(c));
        } else if c == '{' {
            lemma_flow_parts_len(s, i + 1, start, depth + 1, None);
        } else if c == '}' {
            lemma_flow_parts_len(s, i + 1, start, below(depth), None);
        } else if c == ',' && depth == 0 {
            lemma_nonblank_within(s.subrange(start, i), s.len());
            lemma_flow_parts_len(s, i + 1, i + 1, 0, None);
        } else {
            lemma_flow_parts_len(s, i + 1, start, depth, None);
        }
    } else {
        lemma_nonblank_within(s.subrange(start, s.len() as int), s.len());
    }
}

proof fn lemma_at_byte(s: Seq<char>, j: int, b: int)
    requires
        0 <= j <= s.len(),
        0 <= b,
    ensures
        at_byte(s, j, b) is Some ==> j <= at_byte(s, j, b)->0 <= s.len() && (b > 0 ==> j < at_byte(
            s,
            j,
            b,
        )->0),
    decreases s.len() - j,
{
    if b == 0 {
    } else if j >= s.len() || b < width(s[j]) {
    } else {
        lemma_at_byte(s, j + 1, b - width(s[j]));
    }
}

proof fn lemma_top_colon(s: Seq<char>, i: int, depth: nat, quote: Option<char>)
    requires
        0 <= i,
    ensures
        top_colon(s, i, depth, quote) is Some ==> i <= top_colon(s, i, depth, quote)->0 < s.len(),
    decreases s.len() - i,
{
    if i < s.len() {
        let c = s[i];
        match quote {
            Some(q) => lemma_top_colon(s, i + 1, depth, quote_after(s, i, q)),
            None => if c == '\'' || c == '"' {
                lemma_top_colon(s, i + 1, depth, Some(c))
            } else if c == '{' {
                lemma_top_colon(s, i + 1, depth + 1, None)
            } else if c == '}' {
                lemma_top_colon(s, i + 1, below(depth), None)
            } else if c == ':' && depth == 0 {
            } else {
                lemma_top_colon(s, i + 1, depth, None)
            },
        }
    }
}

/// The value of a piece is shorter than the piece.
proof fn lemma_flow_pair_len(part: Seq<char>)
    ensures
        flow_pair(part) is Some ==> (flow_pair(part)->0).1.len() < part.len(),
{
    lemma_top_colon(part, 0, 0, None);
    if let Some(i) = top_colon(part, 0, 0, None) {
        lemma_at_byte(part, 0, i);
        lemma_at_byte(part, 0, i + 1);
        if let Some(b) = at_byte(part, 0, i + 1) {
            lemma_trimmed_len(part.skip(b));
            lemma_unquoted_len(text::trimmed(part.skip(b)));
        }
    }
}

#[via_fn]
proof fn flow_pairs_decreases(flow: Seq<char>) {
    lemma_flow_body_parts(flow);
}

#[via_fn]
proof fn pairs_of_decreases(parts: Seq<Seq<char>>, size: nat) {
    if parts.len() > 0 {
        assert(parts[parts.len() - 1].len() <= size);
        lemma_flow_pair_len(parts.last());
    }
}

proof fn lemma_flow_body_parts(flow: Seq<char>)
    ensures
        flow_body(flow).len() <= flow.len(),
        forall|k: int|
            0 <= k < flow_parts(flow_body(flow), 0, 0, 0, None).len() ==> (#[trigger] flow_parts(
                flow_body(flow),
                0,
                0,
                0,
                None,
            )[k]).len() <= flow.len(),
{
    lemma_trimmed_len(flow);
    lemma_flow_parts_len(flow_body(flow), 0, 0, 0, None);
}

fn push_piece<'a>(out: &mut Vec<&'a [char]>, piece: &'a [char])
    ensures
        text::texts(final(out)@) == text::texts(old(out)@) + nonblank(piece@),
{
    let ghost before = text::texts(out@);
    let t = text::trim(piece);
    if t.len() > 0 {
        out.push(t);
        assert(text::texts(out@) =~= before + seq![t@]);
    } else {
        assert(text::texts(out@) =~= before + Seq::<Seq<char>>::empty());
    }
}

pub fn split_flow<'a>(s: &'a [char]) -> (r: Vec<&'a [char]>)
    ensures
        text::texts(r@) == flow_parts(s@, 0, 0, 0, None),
{
    let mut out: Vec<&'a [char]> = Vec::new();
    let mut depth: usize = 0;
    let mut quote: Option<char> = None;
    let mut start: usize = 0;
    let mut i: usize = 0;
    assert(text::texts(out@) =~= Seq::<Seq<char>>::empty());
    assert(text::texts(out@) + flow_parts(s@, 0, 0, 0, None) =~= flow_parts(s@, 0, 0, 0, None));
    while i < s.len()
        invariant
            start <= i <= s@.len(),
            depth <= i,
            flow_parts(s@, 0, 0, 0, None) == text::texts(out@) + flow_parts(
                s@,
                i as int,
                start as int,
                depth as nat,
                quote,
            ),
        decreases s@.len() - i,
    {
        let c: char = s[i];
        match quote {
            Some(q) => {
                if c == q && (i == 0 || s[i - 1] != '\\') {
                    quote = None;
                }
            },
            None => {
                if c == '\'' || c == '"' {
                    quote = Some(c);
                } else if c == '{' {
                    depth += 1;
                } else if c == '}' {
                    if depth > 0 {
                        depth -= 1;
                    }
                } else if c == ',' && depth == 0 {
                    let piece = &s[start..i];
                    let ghost before = text::texts(out@);
                    push_piece(&mut out, piece);
                    start = i + 1;
                    assert(before + (nonblank(piece@) + flow_parts(s@, i + 1, i + 1, 0, None))
                        =~= text::texts(out@) + flow_parts(s@, i + 1, i + 1, 0, None));
                }
            },
        }
        i += 1;
    }
    let n: usize = s.len();
    push_piece(&mut out, &s[start..n]);
    out
}

pub fn index_top_colon(s: &[char]) -> (r: Option<usize>)
    ensures
        match r {
            Some(i) => top_colon(s@, 0, 0, None) == Some(i as int) && i < s@.len(),
            None => top_colon(s@, 0, 0, None) is None,
        },
{
    let mut depth: usize = 0;
    let mut quote: Option<char> = None;
    let mut i: usize = 0;
    while i < s.len()
        invariant
            i <= s@.len(),
            depth <= i,
            top_colon(s@, 0, 0, None) == top_colon(s@, i as int, depth as nat, quote),
        decreases s@.len() - i,
    {
        let c: char = s[i];
        match quote {
            Some(q) => {
                if c == q && (i == 0 || s[i - 1] != '\\') {
                    quote = None;
                }
            },
            None => {
                if c == '\'' || c == '"' {
                    quote = Some(c);
                } else if c == '{' {
                    depth += 1;
                } else if c == '}' {
                    if depth > 0 {
                        depth -= 1;
                    }
                } else if c == ':' && depth == 0 {
                    return Some(i);
                }
            },
        }
        i += 1;
    }
    None
}

fn char_width(c: char) -> (r: usize)
    ensures
        r == width(c),
{
    let v: u32 = c as u32;
    if v < 0x80 {
        1
    } else if v < 0x800 {
        2
    } else if v < 0x10000 {
        3
    } else {
        4
    }
}

fn find_byte(s: &[char], b: usize) -> (r: Option<usize>)
    ensures
        match r {
            Some(j) => at_byte(s@, 0, b as int) == Some(j as int) && j <= s@.len(),
            None => at_byte(s@, 0, b as int) is None,
        },
{
    let mut left: usize = b;
    let mut j: usize = 0;
    while left > 0
        invariant
            j <= s@.len(),
            at_byte(s@, 0, b as int) == at_byte(s@, j as int, left as int),
        decreases s@.len() - j,
    {
        if j >= s.len() {
            return None;
        }
        let w: usize = char_width(s[j]);
        if left < w {
            return None;
        }
        left -= w;
        j += 1;
    }
    Some(j)
}

fn read_flow_pair(part: &[char]) -> (r: Option<(Vec<char>, Vec<char>)>)
    ensures
        match r {
            Some((k, v)) => flow_pair(part@) == Some((k@, v@)),
            None => flow_pair(part@) is None,
        },
{
    let i: usize = match index_top_colon(part) {
        Some(i) => i,
        None => return None,
    };
    let n: usize = part.len();
    match (find_byte(part, i), find_byte(part, i + 1)) {
        (Some(a), Some(b)) => {
            let head = &part[0..a];
            let rest = &part[b..n];
            proof {
                assert(head@ =~= part@.take(a as int));
                assert(rest@ =~= part@.skip(b as int));
            }
            let mut k: Vec<char> = Vec::new();
            text::append(&mut k, text::trim(head));
            proof {
                assert(k@ =~= text::trimmed(head@));
            }
            Some((k, unquote(text::trim(rest))))
        },
        _ => None,
    }
}

fn with_dot(k: &[char], inner: &[char]) -> (r: Vec<char>)
    ensures
        r@ == k@ + seq!['.'] + inner@,
{
    let mut r: Vec<char> = Vec::new();
    text::append(&mut r, k);
    r.push('.');
    text::append(&mut r, inner);
    assert(r@ =~= k@ + seq!['.'] + inner@);
    r
}

proof fn lemma_pairs_of_step(parts: Seq<Seq<char>>, i: int, size: nat)
    requires
        0 <= i < parts.len(),
        forall|k: int| 0 <= k < parts.len() ==> (#[trigger] parts[k]).len() <= size,
    ensures
        pairs_of(parts.take(i + 1), size) == ({
            let head = pairs_of(parts.take(i), size);
            match flow_pair(parts[i]) {
                Some((k, v)) => if k.len() == 0 {
                    head
                } else if v.len() > 0 && v[0] == '{' && v.last() == '}' {
                    head + prefixed(k, flow_pairs(v))
                } else {
                    head.push((k, v))
                },
                None => head,
            }
        }),
{
    let t = parts.take(i + 1);
    assert(t.drop_last() =~= parts.take(i));
    assert(t.last() == parts[i]);
    assert forall|k: int| 0 <= k < t.len() implies (#[trigger] t[k]).len() <= size by {
        assert(t[k] == parts[k]);
    }
}

/// Adds the bindings of a flow map.
pub fn apply_flow_map(map: &mut Bindings, flow: &[char])
    ensures
        final(map)@ == old(map)@ + flow_pairs(flow@),
    decreases flow@.len(),
{
    let s = text::trim(flow);
    let n: usize = s.len();
    let a = if n > 0 && s[0] == '{' {
        &s[1..n]
    } else {
        s
    };
    proof {
        assert(n > 0 ==> s@.subrange(1, n as int) =~= s@.skip(1));
    }
    let m: usize = a.len();
    let body = if m > 0 && a[m - 1] == '}' {
        &a[0..m - 1]
    } else {
        a
    };
    proof {
        assert(m > 0 ==> a@.subrange(0, m - 1) =~= a@.drop_last());
        assert(body@ =~= flow_body(flow@));
        lemma_flow_body_parts(flow@);
    }
    let parts = split_flow(body);
    let ghost ps = text::texts(parts@);
    let ghost size = flow@.len();
    let ghost start = map@;
    let mut i: usize = 0;
    proof {
        assert(ps.take(0) =~= Seq::<Seq<char>>::empty());
        assert(pairs_of(ps.take(0), size) =~= Seq::<(Seq<char>, Seq<char>)>::empty());
        assert(map@ =~= start + pairs_of(ps.take(0), size));
    }
    while i < parts.len()
        invariant
            i <= parts@.len(),
            ps == text::texts(parts@),
            size == flow@.len(),
            forall|k: int| 0 <= k < ps.len() ==> (#[trigger] ps[k]).len() <= size,
            map@ == start + pairs_of(ps.take(i as int), size),
        decreases parts@.len() - i,
    {
        let ghost head = pairs_of(ps.take(i as int), size);
        proof {
            lemma_pairs_of_step(ps, i as int, size);
            assert(ps[i as int] == parts@[i as int]@);
            lemma_flow_pair_len(ps[i as int]);
        }
        if let Some((k, v)) = read_flow_pair(parts[i]) {
            if k.len() > 0 {
                if v.len() > 0 && v[0] == '{' && v[v.len() - 1] == '}' {
                    let mut inner = Bindings::new();
                    apply_flow_map(&mut inner, v.as_slice());
                    let ghost ip = flow_pairs(v@);
                    let ghost before = map@;
                    proof {
                        assert(inner@ =~= ip);
                        assert(before =~= before + prefixed(k@, ip.take(0)));
                    }
                    let mut j: usize = 0;
                    while j < inner.items.len()
                        invariant
                            j <= inner.items@.len(),
                            inner@ == ip,
                            map@ == before + prefixed(k@, ip.take(j as int)),
                        decreases inner.items@.len() - j,
                    {
                        let mut val: Vec<char> = Vec::new();
                        text::append(&mut val, inner.items[j].1.as_slice());
                        proof {
                            assert(val@ =~= inner.items@[j as int].1@);
                            assert(ip[j as int] == (inner.items@[j as int].0@, val@));
                        }
                        let key = with_dot(k.as_slice(), inner.items[j].0.as_slice());
                        map.set(key, val);
                        proof {
                            assert(prefixed(k@, ip.take(j + 1)) =~= prefixed(
                                k@,
                                ip.take(j as int),
                            ).push((key@, val@)));
                        }
                        j += 1;
                    }
                    proof {
                        assert(ip.take(j as int) =~= ip);
                        assert(start + head + prefixed(k@, ip) =~= start + (head + prefixed(
                            k@,
                            ip,
                        )));
                    }
                } else {
                    map.set(k, v);
                    proof {
                        assert(map@ =~= start + head.push((k@, v@)));
                    }
                }
            }
        }
        i += 1;
    }
    proof {
        assert(ps.take(i as int) =~= ps);
    }
}

// ---- block maps ----
/// The open keys of a nested block: the indentation and full name of each.
pub open spec fn outer(nest: Seq<(nat, Seq<char>)>, indent: nat) -> Seq<(nat, Seq<char>)>
    decreases nest.len(),
{
    if nest.len() > 0 && indent <= nest.last().0 {
        outer(nest.drop_last(), indent)
    } else {
        nest
    }
}

/// The full name of a key below the open ones.
pub open spec fn full_key(nest: Seq<(nat, Seq<char>)>, key: Seq<char>) -> Seq<char> {
    if nest.len() > 0 {
        nest.last().1 + seq!['.'] + key
    } else {
        key
    }
}

/// What one `key: value` line does: it closes the keys that are indented as
/// much or more, then binds its full key to its value; without a value it opens
/// the key for the lines below it.
pub open spec fn pair_applied(
    map: Seq<(Seq<char>, Seq<char>)>,
    nest: Seq<(nat, Seq<char>)>,
    indent: nat,
    content: Seq<char>,
) -> (Seq<(Seq<char>, Seq<char>)>, Seq<(nat, Seq<char>)>) {
    match text::cut(content, ':') {
        None => (map, nest),
        Some((k, v)) => {
            let val = unquoted(text::trimmed(v));
            let open = outer(nest, indent);
            let full = full_key(open, text::trimmed(k));
            if val.len() == 0 {
                (map, open.push((indent, full)))
            } else {
                (map.push((full, val)), open)
            }
        },
    }
}

pub open spec fn nest_view(v: Seq<(usize, Vec<char>)>) -> Seq<(nat, Seq<char>)> {
    Seq::new(v.len(), |i: int| (v[i].0 as nat, v[i].1@))
}

pub fn apply_pair(
    map: &mut Bindings,
    nest: &mut Vec<(usize, Vec<char>)>,
    indent: usize,
    content: &[char],
)
    ensures
        (final(map)@, nest_view(final(nest)@)) == pair_applied(
            old(map)@,
            nest_view(old(nest)@),
            indent as nat,
            content@,
        ),
{
    let (k, v) = match text::split_once(content, ':') {
        Some((k, v)) => (k, v),
        None => return ,
    };
    let key = text::trim(k);
    let val = unquote(text::trim(v));
    while nest.len() > 0 && indent <= nest[nest.len() - 1].0
        invariant
            outer(nest_view(nest@), indent as nat) == outer(
                nest_view(old(nest)@),
                indent as nat,
            ),
        decreases nest@.len(),
    {
        let ghost before = nest_view(nest@);
        let _ = nest.pop();
        assert(nest_view(nest@) =~= before.drop_last());
    }
    let full: Vec<char> = if nest.len() > 0 {
        with_dot(nest[nest.len() - 1].1.as_slice(), key)
    } else {
        let mut f: Vec<char> = Vec::new();
        text::append(&mut f, key);
        assert(f@ =~= key@);
        f
    };
    let ghost open = nest_view(nest@);
    if val.len() == 0 {
        nest.push((indent, full));
        assert(nest_view(nest@) =~= open.push((indent as nat, full@)));
    } else {
        map.set(full, val);
    }
}

// ---- the section ----
/// Lines that say nothing: blank ones and comments.
pub open spec fn is_void(raw: Seq<char>) -> bool {
    text::trimmed(raw).len() == 0 || text::starts(text::trimmed_start(raw), "#"@)
}

/// A line that begins the next section.
pub open spec fn is_heading(raw: Seq<char>) -> bool {
    raw.len() > 0 && raw[0] != ' ' && raw[0] != '\t' && text::ends(text::trimmed_end(raw), ":"@)
        && !text::starts(text::trimmed_start(raw), "-"@)
}

pub open spec fn leading_spaces(s: Seq<char>) -> nat
    decreases s.len(),
{
    if s.len() > 0 && s[0] == ' ' {
        1 + leading_spaces(s.skip(1))
    } else {
        0
    }
}

/// What has been read of a section: the finished entries, the one that is
/// being read and its open keys.
pub struct Section {
    pub done: Seq<Seq<(Seq<char>, Seq<char>)>>,
    pub current: Option<Seq<(Seq<char>, Seq<char>)>>,
    pub nest: Seq<(nat, Seq<char>)>,
}

impl Section {
    /// All entries, the one that is being read too.
    pub open spec fn all(self) -> Seq<Seq<(Seq<char>, Seq<char>)>> {
        match self.current {
            Some(c) => self.done.push(c),
            None => self.done,
        }
    }

    /// What one line of the section does.
    pub open spec fn step(self, raw: Seq<char>) -> Section {
        let indent = leading_spaces(raw);
        let content = text::trimmed(raw);
        match text::after_prefix(content, "- "@) {
            Some(after) => {
                let rest = text::trimmed(after);
                let fresh = Section { done: self.all(), current: Some(Seq::empty()), nest: Seq::empty() };
                if rest.len() == 0 {
                    fresh
                } else if rest[0] == '{' {
                    Section { current: Some(flow_pairs(rest)), ..fresh }
                } else {
                    let (m, n) = pair_applied(Seq::empty(), Seq::empty(), indent + 2, rest);
                    Section { current: Some(m), nest: n, ..fresh }
                }
            },
            None => match self.current {
                Some(c) => {
                    let (m, n) = pair_applied(c, self.nest, indent, content);
                    Section { current: Some(m), nest: n, ..self }
                },
                None => self,
            },
        }
    }
}

/// The entries of the lines from `i` on, up to the next section.
pub open spec fn section_from(
    lines: Seq<Seq<char>>,
    i: int,
    st: Section,
) -> Seq<Seq<(Seq<char>, Seq<char>)>>
    decreases lines.len() - i,
{
    if i >= lines.len() {
        st.all()
    } else if is_void(lines[i]) {
        section_from(lines, i + 1, st)
    } else if is_heading(lines[i]) {
        st.all()
    } else {
        section_from(lines, i + 1, st.step(lines[i]))
    }
}

/// The entries of the first `proxies:` section at or behind line `i`.
pub open spec fn proxies_from(
    lines: Seq<Seq<char>>,
    i: int,
) -> Seq<Seq<(Seq<char>, Seq<char>)>>
    decreases lines.len() - i,
{
    if i >= lines.len() {
        Seq::empty()
    } else if text::trimmed_end(lines[i]) == "proxies:"@ {
        section_from(
            lines,
            i + 1,
            Section { done: Seq::empty(), current: None, nest: Seq::empty() },
        )
    } else {
        proxies_from(lines, i + 1)
    }
}

pub open spec fn map_views(v: Seq<Bindings>) -> Seq<Seq<(Seq<char>, Seq<char>)>> {
    Seq::new(v.len(), |i: int| v[i]@)
}

fn count_spaces(s: &[char]) -> (r: usize)
    ensures
        r == leading_spaces(s@),
        r <= s@.len(),
{
    let mut i: usize = 0;
    assert(s@.skip(0) =~= s@);
    while i < s.len() && s[i] == ' '
        invariant
            i <= s@.len(),
            leading_spaces(s@) == i + leading_spaces(s@.skip(i as int)),
        decreases s@.len() - i,
    {
        assert(s@.skip(i as int).skip(1) =~= s@.skip(i + 1));
        i += 1;
    }
    i
}

proof fn lemma_spaces(s: Seq<char>)
    ensures
        leading_spaces(s) + text::trimmed(s).len() <= s.len(),
    decreases s.len(),
{
    if s.len() > 0 && s[0] == ' ' {
        lemma_spaces(s.skip(1));
    } else {
        lemma_trimmed_len(s);
    }
}

fn void_line(raw: &[char]) -> (r: bool)
    ensures
        r == is_void(raw@),
{
    text::trim(raw).len() == 0 || text::starts_with(text::trim_start(raw), "#")
}

fn heading_line(raw: &[char]) -> (r: bool)
    ensures
        r == is_heading(raw@),
{
    raw.len() > 0 && raw[0] != ' ' && raw[0] != '\t' && text::ends_with(text::trim_end(raw), ":")
        && !text::starts_with(text::trim_start(raw), "-")
}

fn finish(done: &mut Vec<Bindings>, current: Option<Bindings>)
    ensures
        map_views(final(done)@) == (match current {
            Some(c) => map_views(old(done)@).push(c@),
            None => map_views(old(done)@),
        }),
{
    let ghost before = map_views(done@);
    if let Some(c) = current {
        done.push(c);
        assert(map_views(done@) =~= before.push(c@));
    }
}

pub fn parse_proxies_section(lines: &Vec<&[char]>) -> (r: Vec<Bindings>)
    ensures
        map_views(r@) == proxies_from(text::texts(lines@), 0),
{
    let ghost ls = text::texts(lines@);
    let mut i: usize = 0;
    let mut found: bool = false;
    while i < lines.len() && !found
        invariant
            i <= lines@.len(),
            ls == text::texts(lines@),
            found ==> i > 0,
            proxies_from(ls, 0) == (if found {
                section_from(
                    ls,
                    i as int,
                    Section { done: Seq::empty(), current: None, nest: Seq::empty() },
                )
            } else {
                proxies_from(ls, i as int)
            }),
        decreases lines@.len() - i,
    {
        assert(ls[i as int] == lines@[i as int]@);
        if text::is(text::trim_end(lines[i]), "proxies:") {
            found = true;
        }
        i += 1;
    }
    let mut done: Vec<Bindings> = Vec::new();
    assert(map_views(done@) =~= Seq::<Seq<(Seq<char>, Seq<char>)>>::empty());
    if !found {
        return done;
    }
    let mut current: Option<Bindings> = None;
    let mut nest: Vec<(usize, Vec<char>)> = Vec::new();
    assert(nest_view(nest@) =~= Seq::<(nat, Seq<char>)>::empty());
    let ghost mut st = Section { done: Seq::empty(), current: None, nest: Seq::empty() };
    let mut stop: bool = false;
    while i < lines.len() && !stop
        invariant
            i <= lines@.len(),
            ls == text::texts(lines@),
            st.done == map_views(done@),
            st.current == (match current {
                Some(c) => Some(c@),
                None => None,
            }),
            st.nest == nest_view(nest@),
            proxies_from(ls, 0) == (if stop {
                st.all()
            } else {
                section_from(ls, i as int, st)
            }),
        decreases lines@.len() - i,
    {
        let raw: &[char] = lines[i];
        assert(ls[i as int] == raw@);
        if void_line(raw) {
        } else if heading_line(raw) {
            stop = true;
        } else {
            let ghost next = st.step(raw@);
            let indent: usize = count_spaces(raw);
            let size: usize = raw.len();
            let content = text::trim(raw);
            match text::strip_prefix(content, "- ") {
                Some(after) => {
                    proof {
                        reveal_strlit("- ");
                        lemma_spaces(raw@);
                        assert(indent + 2 <= size);
                    }
                    let rest = text::trim(after);
                    finish(&mut done, current);
                    let mut c = Bindings::new();
                    nest = Vec::new();
                    assert(nest_view(nest@) =~= Seq::<(nat, Seq<char>)>::empty());
                    if rest.len() > 0 {
                        if rest[0] == '{' {
                            apply_flow_map(&mut c, rest);
                            assert(c@ =~= flow_pairs(rest@));
                        } else {
                            apply_pair(&mut c, &mut nest, indent + 2, rest);
                        }
                    }
                    current = Some(c);
                },
                None => {
                    match current {
                        Some(m) => {
                            let mut c = m;
                            apply_pair(&mut c, &mut nest, indent, content);
                            current = Some(c);
                        },
                        None => {
                            current = None;
                        },
                    }
                },
            }
            proof {
                st = next;
            }
        }
        i += 1;
    }
    finish(&mut done, current);
    done
}

// ---- nodes ----
pub open spec fn is_yes(o: Option<Seq<char>>) -> bool {
    o is Some && (text::same_nocase(o->0, "true"@) || o->0 == "1"@ || text::same_nocase(
        o->0,
        "yes"@,
    ))
}

fn parse_bool(o: Option<&[char]>) -> (r: bool)
    ensures
        r == is_yes(text::opt_slice(o)),
{
    match o {
        Some(s) => text::is_nocase(s, "true") || text::is(s, "1") || text::is_nocase(s, "yes"),
        None => false,
    }
}

/// Adds `label=value` to options that a semicolon separates.
pub open spec fn option_added(
    opts: Option<Seq<char>>,
    label: Seq<char>,
    v: Option<Seq<char>>,
) -> Option<Seq<char>> {
    match v {
        None => opts,
        Some(x) => Some(
            match opts {
                None => label + "="@ + x,
                Some(o) => o + ";"@ + label + "="@ + x,
            },
        ),
    }
}

pub fn add_option(opts: Option<Vec<char>>, label: &str, v: Option<&[char]>) -> (r: Option<Vec<char>>)
    ensures
        (match r {
            Some(x) => Some(x@),
            None => None,
        }) == option_added(
            match opts {
                Some(x) => Some(x@),
                None => None,
            },
            label@,
            text::opt_slice(v),
        ),
{
    match v {
        None => opts,
        Some(x) => {
            let mut o: Vec<char> = match opts {
                Some(p) => {
                    let mut p = p;
                    text::append_str(&mut p, ";");
                    p
                },
                None => Vec::new(),
            };
            text::append_str(&mut o, label);
            text::append_str(&mut o, "=");
            text::append(&mut o, x);
            proof {
                if opts is None {
                    assert(o@ =~= label@ + "="@ + x@);
                } else {
                    assert(o@ =~= opts->0@ + ";"@ + label@ + "="@ + x@);
                }
            }
            Some(o)
        },
    }
}

/// The plugin options of an entry: its `plugin-opts` text, unless that is empty
/// or a flow map, else its single options under their plugin names.
pub open spec fn entry_plugin_opts(p: Seq<(Seq<char>, Seq<char>)>) -> Option<Seq<char>> {
    let raw = bindings::value_of(p, "plugin-opts"@);
    if raw is Some && raw->0.len() > 0 && raw->0[0] != '{' {
        raw
    } else {
        let a = option_added(None, "obfs"@, bindings::value_of(p, "plugin-opts.mode"@));
        let b = option_added(a, "obfs"@, bindings::value_of(p, "plugin-opts.obfs"@));
        let c = option_added(b, "obfs-host"@, bindings::value_of(p, "plugin-opts.host"@));
        let d = option_added(c, "obfs-host"@, bindings::value_of(p, "plugin-opts.obfs-host"@));
        let e = option_added(d, "path"@, bindings::value_of(p, "plugin-opts.path"@));
        let f = option_added(e, "tls"@, bindings::value_of(p, "plugin-opts.tls"@));
        option_added(f, "mux"@, bindings::value_of(p, "plugin-opts.mux"@))
    }
}

fn plugin_opts_from_yaml(p: &Bindings) -> (r: Option<String>)
    ensures
        text::opt_view(r) == entry_plugin_opts(p@),
{
    if let Some(raw) = p.get("plugin-opts") {
        if raw.len() > 0 && raw[0] != '{' {
            return Some(text::string_of(raw));
        }
    }
    let a = add_option(None, "obfs", p.get("plugin-opts.mode"));
    let b = add_option(a, "obfs", p.get("plugin-opts.obfs"));
    let c = add_option(b, "obfs-host", p.get("plugin-opts.host"));
    let d = add_option(c, "obfs-host", p.get("plugin-opts.obfs-host"));
    let e = add_option(d, "path", p.get("plugin-opts.path"));
    let f = add_option(e, "tls", p.get("plugin-opts.tls"));
    let g = add_option(f, "mux", p.get("plugin-opts.mux"));
    match g {
        Some(x) => Some(text::string_of(x.as_slice())),
        None => None,
    }
}

/// A port or other number below 65536; zero where there is none.
pub open spec fn small_number(o: Option<Seq<char>>) -> u16 {
    match o {
        Some(s) => match text::unsigned_value(s, 0xffff) {
            Some(n) => n as u16,
            None => 0,
        },
        None => 0,
    }
}

fn read_small(o: Option<&[char]>) -> (r: u16)
    ensures
        r == small_number(text::opt_slice(o)),
{
    match o {
        Some(s) => match text::parse_u16(s) {
            Some(n) => n,
            None => 0,
        },
        None => 0,
    }
}

/// The node of an entry, if it has a known type, a name, a server and a port.
/// A `v2ray-plugin` becomes a WebSocket transport.
pub open spec fn entry_node(p: Seq<(Seq<char>, Seq<char>)>) -> Option<NodeView> {
    let ty = node::normal_type(node::or_empty(bindings::value_of(p, "type"@)));
    let network = node::ws_name(
        text::lowered(
            text::trimmed(
                match bindings::value_of(p, "network"@) {
                    Some(n) => n,
                    None => "tcp"@,
                },
            ),
        ),
    );
    let name = node::or_empty(bindings::value_of(p, "name"@));
    let server = node::or_empty(bindings::value_of(p, "server"@));
    let port = small_number(bindings::value_of(p, "port"@));
    let key = bindings::value_of(p, "reality-opts.public-key"@);
    let reality = node::or_empty(key).len() > 0;
    let tls = is_yes(bindings::value_of(p, "tls"@)) || ty == "trojan"@ || reality;
    let plugin = bindings::value_of(p, "plugin"@);
    let opts = entry_plugin_opts(p);
    let path = bindings::value_either(p, "ws-opts.path"@, "http-opts.path"@);
    let host = bindings::value_either(p, "ws-opts.headers.Host"@, "ws-opts.headers.host"@);
    if !node::known_type(ty) || text::trimmed(name).len() == 0 || text::trimmed(server).len() == 0
        || port == 0 {
        None
    } else {
        let n = NodeView {
            name,
            kind: ty,
            server,
            port,
            uuid: bindings::value_either(p, "uuid"@, "id"@),
            password: bindings::value_of(p, "password"@),
            tls,
            server_name: bindings::value_either(p, "servername"@, "sni"@),
            flow: bindings::value_of(p, "flow"@),
            network,
            client_fingerprint: bindings::value_of(p, "client-fingerprint"@),
            reality_public_key: key,
            reality_short_id: bindings::value_of(p, "reality-opts.short-id"@),
            skip_cert_verify: is_yes(bindings::value_of(p, "skip-cert-verify"@)),
            ws_path: path,
            ws_host: host,
            security: Some(
                if reality {
                    "reality"@
                } else if tls {
                    "tls"@
                } else {
                    "none"@
                },
            ),
            cipher: bindings::value_either(p, "cipher"@, "method"@),
            username: bindings::value_of(p, "username"@),
            plugin,
            plugin_opts: opts,
            alter_id: small_number(bindings::value_either(p, "alterId"@, "alter-id"@)),
        };
        Some(
            if plugin is Some && text::same_nocase(plugin->0, "v2ray-plugin"@) {
                NodeView {
                    network: "ws"@,
                    tls: tls || (opts is Some && (text::has(opts->0, "tls=true"@) || text::has(
                        opts->0,
                        "tls=1"@,
                    ))),
                    ws_path: if path is None {
                        node::option_in(opts, "path"@)
                    } else {
                        path
                    },
                    ws_host: if host is None {
                        node::option_in(opts, "host"@)
                    } else {
                        host
                    },
                    plugin: None,
                    plugin_opts: None,
                    ..n
                }
            } else {
                n
            },
        )
    }
}

fn is_ws_plugin(plugin: &Option<String>) -> (r: bool)
    ensures
        r == (text::opt_view(*plugin) is Some && text::same_nocase(
            text::opt_view(*plugin)->0,
            "v2ray-plugin"@,
        )),
{
    match plugin {
        Some(s) => {
            let c = text::chars_of(s.as_str());
            text::is_nocase(c.as_slice(), "v2ray-plugin")
        },
        None => false,
    }
}

fn value_or_empty<'a>(p: &'a Bindings, k: &str) -> (r: Vec<char>)
    ensures
        r@ == node::or_empty(bindings::value_of(p@, k@)),
{
    let mut r: Vec<char> = Vec::new();
    if let Some(v) = p.get(k) {
        text::append(&mut r, v);
    }
    assert(r@ =~= node::or_empty(bindings::value_of(p@, k@)));
    r
}

pub fn yaml_to_node(p: &Bindings) -> (r: Option<ProxyNode>)
    ensures
        node::opt_node(r) == entry_node(p@),
{
    let t = value_or_empty(p, "type");
    let ty = node::normalize_type(t.as_slice());
    if !node::is_known_type(ty.as_slice()) {
        return None;
    }
    let net = match p.get("network") {
        Some(n) => text::lower(text::trim(n)),
        None => {
            let d = text::chars_of("tcp");
            text::lower(text::trim(d.as_slice()))
        },
    };
    let network = node::to_ws_name(net);
    let name = value_or_empty(p, "name");
    let server = value_or_empty(p, "server");
    let port: u16 = read_small(p.get("port"));
    if text::trim(name.as_slice()).len() == 0 || text::trim(server.as_slice()).len() == 0 || port
        == 0 {
        return None;
    }
    let key = value_or_empty(p, "reality-opts.public-key");
    let reality = key.len() > 0;
    let tls = parse_bool(p.get("tls")) || text::is(ty.as_slice(), "trojan") || reality;
    let security = if reality {
        "reality"
    } else if tls {
        "tls"
    } else {
        "none"
    };
    let mut n = ProxyNode {
        name: text::string_of(name.as_slice()),
        kind: text::string_of(ty.as_slice()),
        server: text::string_of(server.as_slice()),
        port,
        uuid: p.string_either("uuid", "id"),
        password: p.string("password"),
        tls,
        server_name: p.string_either("servername", "sni"),
        flow: p.string("flow"),
        network: text::string_of(network.as_slice()),
        client_fingerprint: p.string("client-fingerprint"),
        reality_public_key: p.string("reality-opts.public-key"),
        reality_short_id: p.string("reality-opts.short-id"),
        skip_cert_verify: parse_bool(p.get("skip-cert-verify")),
        ws_path: p.string_either("ws-opts.path", "http-opts.path"),
        ws_host: p.string_either("ws-opts.headers.Host", "ws-opts.headers.host"),
        security: Some(security.to_owned()),
        cipher: p.string_either("cipher", "method"),
        username: p.string("username"),
        plugin: p.string("plugin"),
        plugin_opts: plugin_opts_from_yaml(p),
        alter_id: read_small(
            match p.get("alterId") {
                Some(v) => Some(v),
                None => p.get("alter-id"),
            },
        ),
    };
    if is_ws_plugin(&n.plugin) {
        n.network = "ws".to_owned();
        if let Some(o) = &n.plugin_opts {
            let c = text::chars_of(o.as_str());
            if text::contains(c.as_slice(), "tls=true") || text::contains(c.as_slice(), "tls=1") {
                n.tls = true;
            }
        }
        if n.ws_path.is_none() {
            n.ws_path = node::opt_from_plugin(&n.plugin_opts, "path");
        }
        if n.ws_host.is_none() {
            n.ws_host = node::opt_from_plugin(&n.plugin_opts, "host");
        }
        n.plugin = None;
        n.plugin_opts = None;
    }
    Some(n)
}

/// The nodes of the entries that have one.
pub open spec fn entry_nodes(v: Seq<Seq<(Seq<char>, Seq<char>)>>) -> Seq<NodeView>
    decreases v.len(),
{
    if v.len() == 0 {
        Seq::empty()
    } else {
        let head = entry_nodes(v.drop_last());
        match entry_node(v.last()) {
            Some(n) => head.push(n),
            None => head,
        }
    }
}

/// Every node of an entry is of a known type.
proof fn lemma_entries_known(v: Seq<Seq<(Seq<char>, Seq<char>)>>)
    ensures
        node::all_known(entry_nodes(v)),
    decreases v.len(),
{
    if v.len() > 0 {
        lemma_entries_known(v.drop_last());
    }
}

/// A text with line feeds alone as line ends.
pub open spec fn unix_lines(s: Seq<char>) -> Seq<char> {
    text::replaced(text::replaced(s, "\r\n"@, "\n"@), "\r"@, "\n"@)
}

/// The nodes of a YAML text.
pub open spec fn yaml_nodes(s: Seq<char>) -> Seq<NodeView> {
    entry_nodes(proxies_from(text::pieces(unix_lines(s), "\n"@), 0))
}

/// Every node of a YAML text is of a known type.
pub proof fn lemma_yaml_known(s: Seq<char>)
    ensures
        node::all_known(yaml_nodes(s)),
{
    lemma_entries_known(proxies_from(text::pieces(unix_lines(s), "\n"@), 0));
}

pub fn load_proxies_yaml(text: &str) -> (r: Vec<ProxyNode>)
    ensures
        node::node_views(r@) == yaml_nodes(text@),
{
    let c = text::chars_of(text);
    let a = text::replace(c.as_slice(), "\r\n", "\n");
    let normalized = text::replace(a.as_slice(), "\r", "\n");
    let lines = text::split(normalized.as_slice(), "\n");
    let entries = parse_proxies_section(&lines);
    let ghost all = map_views(entries@);
    let mut nodes: Vec<ProxyNode> = Vec::new();
    let mut i: usize = 0;
    assert(node::node_views(nodes@) =~= entry_nodes(all.take(0)));
    while i < entries.len()
        invariant
            i <= entries@.len(),
            all == map_views(entries@),
            node::node_views(nodes@) == entry_nodes(all.take(i as int)),
        decreases entries@.len() - i,
    {
        let ghost before = node::node_views(nodes@);
        proof {
            assert(all.take(i + 1).drop_last() =~= all.take(i as int));
            assert(all.take(i + 1).last() == entries@[i as int]@);
        }
        if let Some(n) = yaml_to_node(&entries[i]) {
            nodes.push(n);
            assert(node::node_views(nodes@) =~= before.push(n@));
        }
        i += 1;
    }
    assert(all.take(i as int) =~= all);
    nodes
}

// ---- laws ----
/// The node of an entry, key by key.
pub proof fn law_entry_reads_back(p: Seq<(Seq<char>, Seq<char>)>)
    requires
        entry_node(p) is Some,
        bindings::value_of(p, "plugin"@) is None,
    ensures
        ({
            let n = entry_node(p)->0;
            let ty = node::normal_type(node::or_empty(bindings::value_of(p, "type"@)));
            let net = bindings::value_of(p, "network"@);
            &&& Some(n.name) == bindings::value_of(p, "name"@)
            &&& Some(n.server) == bindings::value_of(p, "server"@)
            &&& n.kind == ty
            &&& n.port == small_number(bindings::value_of(p, "port"@))
            &&& n.password == bindings::value_of(p, "password"@)
            &&& n.username == bindings::value_of(p, "username"@)
            &&& n.flow == bindings::value_of(p, "flow"@)
            &&& n.client_fingerprint == bindings::value_of(p, "client-fingerprint"@)
            &&& n.reality_public_key == bindings::value_of(p, "reality-opts.public-key"@)
            &&& n.reality_short_id == bindings::value_of(p, "reality-opts.short-id"@)
            &&& n.skip_cert_verify == is_yes(bindings::value_of(p, "skip-cert-verify"@))
            &&& (bindings::value_of(p, "uuid"@) is Some ==> n.uuid == bindings::value_of(
                p,
                "uuid"@,
            ))
            &&& (bindings::value_of(p, "servername"@) is Some ==> n.server_name
                == bindings::value_of(p, "servername"@))
            &&& (bindings::value_of(p, "servername"@) is None ==> n.server_name
                == bindings::value_of(p, "sni"@))
            &&& (bindings::value_of(p, "cipher"@) is Some ==> n.cipher == bindings::value_of(
                p,
                "cipher"@,
            ))
            &&& (bindings::value_of(p, "alterId"@) is Some ==> n.alter_id == small_number(
                bindings::value_of(p, "alterId"@),
            ))
            &&& (bindings::value_of(p, "ws-opts.path"@) is Some ==> n.ws_path
                == bindings::value_of(p, "ws-opts.path"@))
            &&& (bindings::value_of(p, "ws-opts.headers.Host"@) is Some ==> n.ws_host
                == bindings::value_of(p, "ws-opts.headers.Host"@))
            &&& (net is None ==> n.network == "tcp"@)
            &&& (net == Some("ws"@) ==> n.network == "ws"@)
            &&& (node::or_empty(n.reality_public_key).len() > 0 ==> n.tls && n.security == Some(
                "reality"@,
            ))
            &&& (ty == "trojan"@ ==> n.tls)
            &&& (is_yes(bindings::value_of(p, "tls"@)) ==> n.tls)
            &&& (n.reality_public_key is None && n.tls ==> n.security == Some("tls"@))
            &&& (!n.tls ==> n.security == Some("none"@))
            &&& (n.tls ==> is_yes(bindings::value_of(p, "tls"@)) || ty == "trojan"@
                || n.reality_public_key is Some)
        }),
{
    reveal_strlit("tcp");
    reveal_strlit("ws");
    reveal_strlit("websocket");
    assert("tcp"@.len() == 3 && "ws"@.len() == 2 && "websocket"@.len() == 9);
    assert(text::trimmed("tcp"@) == "tcp"@);
    assert(text::trimmed("ws"@) == "ws"@);
    assert(text::lowered("tcp"@) =~= "tcp"@);
    assert(text::lowered("ws"@) =~= "ws"@);
    if bindings::value_of(p, "name"@) is None {
        assert(text::trimmed(Seq::<char>::empty()).len() == 0);
    }
    if bindings::value_of(p, "server"@) is None {
        assert(text::trimmed(Seq::<char>::empty()).len() == 0);
    }
}

/// A text that stands in a line as it is: not empty, without white space around it and
/// without quotes.
pub open spec fn plain_value(v: Seq<char>) -> bool {
    &&& v.len() > 0
    &&& !text::is_white(v[0])
    &&& !text::is_white(v.last())
    &&& v[0] != '"' && v[0] != '\''
}

/// A key of a line: one that stands as it is and holds no colon.
pub open spec fn plain_key(k: Seq<char>) -> bool {
    &&& plain_value(k)
    &&& forall|i: int| 0 <= i < k.len() ==> (#[trigger] k[i]) != ':'
}

proof fn lemma_space_before(v: Seq<char>)
    requires
        plain_value(v),
    ensures
        text::trimmed(v) == v,
        text::trimmed(seq![' '] + v) == v,
{
    let s = seq![' '] + v;
    assert(s[0] == ' ');
    assert(s.skip(1) =~= v);
    assert(text::trimmed_start(v) == v);
    assert(text::trimmed_end(v) == v);
    assert(text::trimmed_start(s) == text::trimmed_start(v));
}

/// A line `key: value` binds the key to the value; below an open key its full name has
/// the open key and a dot before it.
pub proof fn law_line_binds(
    map: Seq<(Seq<char>, Seq<char>)>,
    nest: Seq<(nat, Seq<char>)>,
    indent: nat,
    k: Seq<char>,
    v: Seq<char>,
)
    requires
        plain_key(k),
        plain_value(v),
        nest.len() > 0 ==> nest.last().0 < indent,
    ensures
        pair_applied(map, nest, indent, k + seq![':', ' '] + v) == (
            map.push(
                (
                    if nest.len() > 0 {
                        nest.last().1 + seq!['.'] + k
                    } else {
                        k
                    },
                    v,
                ),
            ),
            nest,
        ),
{
    let c = k + seq![':', ' '] + v;
    let n = k.len() as int;
    text::lemma_sep_from(c, seq![':'], 0);
    assert(seq![':'][0] == ':');
    assert(c[n] == ':');
    assert forall|i: int| 0 <= i < n implies !seq![':'].contains(#[trigger] c[i]) by {
        assert(c[i] == k[i]);
    }
    assert(c.take(n) =~= k);
    assert(c.skip(n + 1) =~= seq![' '] + v);
    lemma_space_before(v);
    lemma_space_before(k);
}

/// A line with a key and no value opens the key for the lines that are indented more.
pub proof fn law_line_opens(
    map: Seq<(Seq<char>, Seq<char>)>,
    nest: Seq<(nat, Seq<char>)>,
    indent: nat,
    k: Seq<char>,
)
    requires
        plain_key(k),
        nest.len() > 0 ==> nest.last().0 < indent,
    ensures
        pair_applied(map, nest, indent, k + seq![':']) == (
            map,
            nest.push(
                (
                    indent,
                    if nest.len() > 0 {
                        nest.last().1 + seq!['.'] + k
                    } else {
                        k
                    },
                ),
            ),
        ),
{
    let c = k + seq![':'];
    let n = k.len() as int;
    text::lemma_sep_from(c, seq![':'], 0);
    assert(seq![':'][0] == ':');
    assert(c[n] == ':');
    assert forall|i: int| 0 <= i < n implies !seq![':'].contains(#[trigger] c[i]) by {
        assert(c[i] == k[i]);
    }
    assert(c.take(n) =~= k);
    assert(c.skip(n + 1) =~= Seq::<char>::empty());
    assert(text::trimmed(Seq::<char>::empty()) =~= Seq::<char>::empty());
    assert(unquoted(Seq::<char>::empty()) =~= Seq::<char>::empty());
    lemma_space_before(k);
}

/// The options of a plugin: a text as it stands; else its mode, host, path, TLS and mux,
/// each under the name that the plugin knows, with semicolons between them.
pub proof fn law_plugin_options_read_back(
    p: Seq<(Seq<char>, Seq<char>)>,
    mode: Seq<char>,
    host: Seq<char>,
    path: Seq<char>,
)
    requires
        bindings::value_of(p, "plugin-opts"@) is None,
        bindings::value_of(p, "plugin-opts.mode"@) == Some(mode),
        bindings::value_of(p, "plugin-opts.obfs"@) is None,
        bindings::value_of(p, "plugin-opts.host"@) == Some(host),
        bindings::value_of(p, "plugin-opts.obfs-host"@) is None,
    ensures
        ({
            let base = "obfs"@ + "="@ + mode + ";"@ + "obfs-host"@ + "="@ + host;
            let r = entry_plugin_opts(p);
            let none = bindings::value_of(p, "plugin-opts.path"@) is None;
            let tls = bindings::value_of(p, "plugin-opts.tls"@);
            let mux = bindings::value_of(p, "plugin-opts.mux"@);
            &&& none && tls is None && mux is None ==> r == Some(base)
            &&& bindings::value_of(p, "plugin-opts.path"@) == Some(path) && tls is None && mux
                is None ==> r == Some(base + ";"@ + "path"@ + "="@ + path)
            &&& none && tls is Some && mux is None ==> r == Some(
                base + ";"@ + "tls"@ + "="@ + tls->0,
            )
            &&& none && tls is None && mux is Some ==> r == Some(
                base + ";"@ + "mux"@ + "="@ + mux->0,
            )
        }),
{
}

/// Options that are a text are kept as they stand.
pub proof fn law_plugin_options_text(p: Seq<(Seq<char>, Seq<char>)>, t: Seq<char>)
    requires
        bindings::value_of(p, "plugin-opts"@) == Some(t),
        t.len() > 0,
        t[0] != '{',
    ensures
        entry_plugin_opts(p) == Some(t),
{
}

/// When an entry is a node: its type is known, it has a name and a server, and a port that
/// is a number of 16 bits and not zero.
pub proof fn law_entry_is_taken(p: Seq<(Seq<char>, Seq<char>)>, port: u16)
    requires
        bindings::value_of(p, "port"@) == Some(text::dec(port as nat)),
        bindings::value_of(p, "type"@) is Some,
        bindings::value_of(p, "name"@) is Some,
        bindings::value_of(p, "server"@) is Some,
    ensures
        entry_node(p) is Some <==> {
            &&& node::known_type(node::normal_type(bindings::value_of(p, "type"@)->0))
            &&& text::trimmed(bindings::value_of(p, "name"@)->0).len() > 0
            &&& text::trimmed(bindings::value_of(p, "server"@)->0).len() > 0
            &&& port != 0
        },
        entry_node(p) is Some ==> entry_node(p)->0.port == port,
{
    text::law_number_reads_back(port as nat, 0xffff);
}

/// The keys of an entry that stand in for others.
pub proof fn law_other_keys(p: Seq<(Seq<char>, Seq<char>)>)
    requires
        entry_node(p) is Some,
        bindings::value_of(p, "plugin"@) is None,
    ensures
        ({
            let n = entry_node(p)->0;
            &&& (bindings::value_of(p, "uuid"@) is None ==> n.uuid == bindings::value_of(p, "id"@))
            &&& (bindings::value_of(p, "cipher"@) is None ==> n.cipher == bindings::value_of(
                p,
                "method"@,
            ))
            &&& (bindings::value_of(p, "ws-opts.path"@) is None ==> n.ws_path
                == bindings::value_of(p, "http-opts.path"@))
            &&& (bindings::value_of(p, "ws-opts.headers.Host"@) is None ==> n.ws_host
                == bindings::value_of(p, "ws-opts.headers.host"@))
            &&& (bindings::value_of(p, "alterId"@) is None ==> n.alter_id == small_number(
                bindings::value_of(p, "alter-id"@),
            ))
        }),
{
}

/// The ways to say yes.
pub proof fn law_yes()
    ensures
        is_yes(Some("true"@)) && is_yes(Some("True"@)) && is_yes(Some("yes"@)) && is_yes(
            Some("1"@),
        ),
        !is_yes(None) && !is_yes(Some("false"@)) && !is_yes(Some("0"@)),
{
    reveal_strlit("true");
    reveal_strlit("True");
    reveal_strlit("yes");
    reveal_strlit("1");
    reveal_strlit("false");
    reveal_strlit("0");
    assert(text::lowered("True"@) =~= text::lowered("true"@));
    assert(text::lowered("false"@).len() == 5 && text::lowered("true"@).len() == 4);
    assert(text::lowered("yes"@).len() == 3 && text::lowered("0"@).len() == 1);
    assert("1"@.len() == 1 && "1"@[0] == '1' && "0"@[0] == '0' && "false"@.len() == 5);
}

} // verus!
