//! Text as a sequence of characters.
//!
//! Strings enter and leave the library as `&str` and `String`; in between they
//! are slices of characters, so that every operation on them is stated over
//! `Seq<char>`.

use vstd::prelude::*;

verus! {

/// `String::push`: the character is appended.
pub assume_specification[ String::push ](s: &mut String, c: char)
    ensures
        final(s)@ == old(s)@.push(c),
;

/// The White_Space characters of Unicode.
pub open spec fn is_white(c: char) -> bool {
    let v = c as int;
    ||| 0x09 <= v <= 0x0D
    ||| v == 0x20
    ||| v == 0x85
    ||| v == 0xA0
    ||| v == 0x1680
    ||| 0x2000 <= v <= 0x200A
    ||| v == 0x2028
    ||| v == 0x2029
    ||| v == 0x202F
    ||| v == 0x205F
    ||| v == 0x3000
}

/// Whether `c` is white space.
pub fn white(c: char) -> (r: bool)
    ensures
        r == is_white(c),
{
    let v: u32 = c as u32;
    (0x09 <= v && v <= 0x0D) || v == 0x20 || v == 0x85 || v == 0xA0 || v == 0x1680 || (0x2000 <= v
        && v <= 0x200A) || v == 0x2028 || v == 0x2029 || v == 0x202F || v == 0x205F || v == 0x3000
}

/// The characters of a string.
pub fn chars_of(s: &str) -> (r: Vec<char>)
    ensures
        r@ == s@,
{
    let mut r: Vec<char> = Vec::new();
    for c in it: s.chars()
        invariant
            it.seq() == s@,
            r@ == it.seq().take(it.index()),
    {
        r.push(c);
    }
    r
}

/// The string with the given characters.
pub fn string_of(s: &[char]) -> (r: String)
    ensures
        r@ == s@,
{
    let mut r: String = String::new();
    let mut i: usize = 0;
    while i < s.len()
        invariant
            i <= s@.len(),
            r@ == s@.take(i as int),
        decreases s@.len() - i,
    {
        r.push(s[i]);
        i += 1;
    }
    r
}

/// An optional string as optional text.
pub open spec fn opt_view(o: Option<String>) -> Option<Seq<char>> {
    match o {
        Some(s) => Some(s@),
        None => None,
    }
}

/// An optional string slice as optional text.
pub open spec fn opt_str(o: Option<&str>) -> Option<Seq<char>> {
    match o {
        Some(s) => Some(s@),
        None => None,
    }
}

/// Whether `s` is the text of `lit`.
pub fn is(s: &[char], lit: &str) -> (r: bool)
    ensures
        r == (s@ == lit@),
{
    let l = chars_of(lit);
    same(s, l.as_slice())
}

/// Whether two slices hold the same characters.
pub fn same(a: &[char], b: &[char]) -> (r: bool)
    ensures
        r == (a@ == b@),
{
    if a.len() != b.len() {
        return false;
    }
    let mut i: usize = 0;
    while i < a.len()
        invariant
            i <= a@.len(),
            a@.len() == b@.len(),
            forall|j: int| 0 <= j < i ==> a@[j] == b@[j],
        decreases a@.len() - i,
    {
        if a[i] != b[i] {
            return false;
        }
        i += 1;
    }
    assert(a@ =~= b@);
    true
}

// ---- trimming ----
/// `s` without its leading white space.
pub open spec fn trimmed_start(s: Seq<char>) -> Seq<char>
    decreases s.len(),
{
    if s.len() > 0 && is_white(s[0]) {
        trimmed_start(s.skip(1))
    } else {
        s
    }
}

/// `s` without its trailing white space.
pub open spec fn trimmed_end(s: Seq<char>) -> Seq<char>
    decreases s.len(),
{
    if s.len() > 0 && is_white(s.last()) {
        trimmed_end(s.drop_last())
    } else {
        s
    }
}

/// `s` without its leading and trailing white space.
pub open spec fn trimmed(s: Seq<char>) -> Seq<char> {
    trimmed_end(trimmed_start(s))
}

pub fn trim_start<'a>(s: &'a [char]) -> (r: &'a [char])
    ensures
        r@ == trimmed_start(s@),
{
    let mut i: usize = 0;
    proof {
        assert(s@.skip(0) =~= s@);
    }
    while i < s.len() && white(s[i])
        invariant
            i <= s@.len(),
            trimmed_start(s@) == trimmed_start(s@.skip(i as int)),
        decreases s@.len() - i,
    {
        proof {
            assert(s@.skip(i as int).skip(1) =~= s@.skip(i + 1));
        }
        i += 1;
    }
    &s[i..s.len()]
}

pub fn trim_end<'a>(s: &'a [char]) -> (r: &'a [char])
    ensures
        r@ == trimmed_end(s@),
{
    let mut n: usize = s.len();
    proof {
        assert(s@.take(n as int) =~= s@);
    }
    while n > 0 && white(s[n - 1])
        invariant
            n <= s@.len(),
            trimmed_end(s@) == trimmed_end(s@.take(n as int)),
        decreases n,
    {
        proof {
            assert(s@.take(n as int).drop_last() =~= s@.take(n - 1));
        }
        n -= 1;
    }
    &s[0..n]
}

pub fn trim<'a>(s: &'a [char]) -> (r: &'a [char])
    ensures
        r@ == trimmed(s@),
{
    trim_end(trim_start(s))
}

// ---- letter case ----
/// The ASCII lower case form of a character; other characters are kept.
pub open spec fn lower_char(c: char) -> char {
    if 'A' <= c && c <= 'Z' {
        ((c as u8) + 32) as char
    } else {
        c
    }
}

/// `s` with its ASCII letters in lower case.
pub open spec fn lowered(s: Seq<char>) -> Seq<char> {
    Seq::new(s.len(), |i: int| lower_char(s[i]))
}

/// Equality up to the case of ASCII letters.
pub open spec fn same_nocase(a: Seq<char>, b: Seq<char>) -> bool {
    lowered(a) == lowered(b)
}

pub fn to_lower_char(c: char) -> (r: char)
    ensures
        r == lower_char(c),
{
    if 'A' <= c && c <= 'Z' {
        ((c as u8) + 32) as char
    } else {
        c
    }
}

pub fn lower(s: &[char]) -> (r: Vec<char>)
    ensures
        r@ == lowered(s@),
{
    let mut r: Vec<char> = Vec::new();
    let mut i: usize = 0;
    while i < s.len()
        invariant
            i <= s@.len(),
            r@.len() == i,
            forall|j: int| 0 <= j < i ==> r@[j] == lower_char(s@[j]),
        decreases s@.len() - i,
    {
        r.push(to_lower_char(s[i]));
        i += 1;
    }
    assert(r@ =~= lowered(s@));
    r
}

/// Whether `s` equals `lit` up to the case of ASCII letters.
pub fn is_nocase(s: &[char], lit: &str) -> (r: bool)
    ensures
        r == same_nocase(s@, lit@),
{
    let l = chars_of(lit);
    let a = lower(s);
    let b = lower(l.as_slice());
    same(a.as_slice(), b.as_slice())
}

// ---- searching ----
/// Whether `pat` stands in `s` at position `i`.
pub open spec fn occurs(s: Seq<char>, pat: Seq<char>, i: int) -> bool {
    0 <= i && i + pat.len() <= s.len() && s.subrange(i, i + pat.len()) == pat
}

/// The first position of `pat` in `s` that is not before `i`.
pub open spec fn found_from(s: Seq<char>, pat: Seq<char>, i: int) -> Option<int>
    decreases s.len() - i + 1,
{
    if i + pat.len() > s.len() {
        None
    } else if occurs(s, pat, i) {
        Some(i)
    } else {
        found_from(s, pat, i + 1)
    }
}

/// The first position of `pat` in `s`.
pub open spec fn found(s: Seq<char>, pat: Seq<char>) -> Option<int> {
    found_from(s, pat, 0)
}

/// Whether `pat` stands somewhere in `s`.
pub open spec fn has(s: Seq<char>, pat: Seq<char>) -> bool {
    found(s, pat) is Some
}

pub open spec fn starts(s: Seq<char>, pat: Seq<char>) -> bool {
    occurs(s, pat, 0)
}

pub open spec fn ends(s: Seq<char>, pat: Seq<char>) -> bool {
    occurs(s, pat, s.len() - pat.len())
}

/// A found position is in range, and nothing before it matches.
pub proof fn lemma_found_from(s: Seq<char>, pat: Seq<char>, i: int)
    requires
        0 <= i,
    ensures
        match found_from(s, pat, i) {
            Some(j) => i <= j && occurs(s, pat, j) && forall|k: int| i <= k < j ==> !occurs(
                s,
                pat,
                k,
            ),
            None => forall|k: int| i <= k ==> !occurs(s, pat, k),
        },
    decreases s.len() - i + 1,
{
    if i + pat.len() > s.len() {
    } else if occurs(s, pat, i) {
    } else {
        lemma_found_from(s, pat, i + 1);
    }
}

/// Whether `pat` stands in `s` at position `i`.
pub fn occurs_at(s: &[char], pat: &[char], i: usize) -> (r: bool)
    ensures
        r == occurs(s@, pat@, i as int),
{
    if pat.len() > s.len() || i > s.len() - pat.len() {
        return false;
    }
    same(&s[i..i + pat.len()], pat)
}

pub fn find_from(s: &[char], pat: &[char], from: usize) -> (r: Option<usize>)
    ensures
        match r {
            Some(i) => found_from(s@, pat@, from as int) == Some(i as int) && occurs(
                s@,
                pat@,
                i as int,
            ) && from <= i,
            None => found_from(s@, pat@, from as int) is None,
        },
{
    let mut i: usize = from;
    if pat.len() > s.len() {
        return None;
    }
    let last: usize = s.len() - pat.len();
    while i <= last
        invariant
            from <= i,
            last == s@.len() - pat@.len(),
            found_from(s@, pat@, from as int) == found_from(s@, pat@, i as int),
        decreases last + 1 - i,
    {
        if occurs_at(s, pat, i) {
            return Some(i);
        }
        if i == last {
            assert(found_from(s@, pat@, i + 1) is None);
            return None;
        }
        i += 1;
    }
    None
}

/// The first position of `pat`.
pub fn find(s: &[char], pat: &str) -> (r: Option<usize>)
    ensures
        match r {
            Some(i) => found(s@, pat@) == Some(i as int) && occurs(s@, pat@, i as int),
            None => found(s@, pat@) is None,
        },
{
    let p = chars_of(pat);
    find_from(s, p.as_slice(), 0)
}

pub fn contains(s: &[char], pat: &str) -> (r: bool)
    ensures
        r == has(s@, pat@),
{
    find(s, pat).is_some()
}

pub fn starts_with(s: &[char], pat: &str) -> (r: bool)
    ensures
        r == starts(s@, pat@),
{
    let p = chars_of(pat);
    occurs_at(s, p.as_slice(), 0)
}

pub fn ends_with(s: &[char], pat: &str) -> (r: bool)
    ensures
        r == ends(s@, pat@),
{
    let p = chars_of(pat);
    if p.len() > s.len() {
        return false;
    }
    occurs_at(s, p.as_slice(), s.len() - p.len())
}

/// `s` behind the prefix `pat`, where it has it.
pub open spec fn after_prefix(s: Seq<char>, pat: Seq<char>) -> Option<Seq<char>> {
    if starts(s, pat) {
        Some(s.skip(pat.len() as int))
    } else {
        None
    }
}

pub open spec fn opt_slice(o: Option<&[char]>) -> Option<Seq<char>> {
    match o {
        Some(s) => Some(s@),
        None => None,
    }
}

pub fn strip_prefix<'a>(s: &'a [char], pat: &str) -> (r: Option<&'a [char]>)
    ensures
        opt_slice(r) == after_prefix(s@, pat@),
{
    let p = chars_of(pat);
    if occurs_at(s, p.as_slice(), 0) {
        let r = &s[p.len()..s.len()];
        proof {
            assert(r@ =~= s@.skip(pat@.len() as int));
        }
        Some(r)
    } else {
        None
    }
}

/// `s` without any number of leading copies of `pat`.
pub open spec fn without_prefixes(s: Seq<char>, pat: Seq<char>) -> Seq<char>
    decreases s.len(),
{
    if pat.len() > 0 && starts(s, pat) {
        without_prefixes(s.skip(pat.len() as int), pat)
    } else {
        s
    }
}

pub fn trim_start_matches<'a>(s: &'a [char], pat: &str) -> (r: &'a [char])
    ensures
        r@ == without_prefixes(s@, pat@),
{
    let p = chars_of(pat);
    let mut cur: &'a [char] = s;
    while p.len() > 0 && occurs_at(cur, p.as_slice(), 0)
        invariant
            p@ == pat@,
            without_prefixes(s@, pat@) == without_prefixes(cur@, pat@),
        decreases cur@.len(),
    {
        let next = &cur[p.len()..cur.len()];
        proof {
            assert(next@ =~= cur@.skip(pat@.len() as int));
        }
        cur = next;
    }
    cur
}

/// `s` without any number of leading and trailing copies of the character `c`.
pub open spec fn without_char_end(s: Seq<char>, c: char) -> Seq<char>
    decreases s.len(),
{
    if s.len() > 0 && s.last() == c {
        without_char_end(s.drop_last(), c)
    } else {
        s
    }
}

pub open spec fn without_char(s: Seq<char>, c: char) -> Seq<char> {
    without_char_end(without_prefixes(s, seq![c]), c)
}

pub fn trim_char<'a>(s: &'a [char], c: char) -> (r: &'a [char])
    ensures
        r@ == without_char(s@, c),
{
    let mut i: usize = 0;
    let ghost p = seq![c];
    proof {
        assert(s@.skip(0) =~= s@);
    }
    while i < s.len() && s[i] == c
        invariant
            i <= s@.len(),
            p == seq![c],
            without_prefixes(s@, p) == without_prefixes(s@.skip(i as int), p),
        decreases s@.len() - i,
    {
        proof {
            let t = s@.skip(i as int);
            assert(t.subrange(0, 1) =~= p);
            assert(t.skip(1) =~= s@.skip(i + 1));
        }
        i += 1;
    }
    let t = &s[i..s.len()];
    proof {
        assert(t@ =~= s@.skip(i as int));
        if starts(t@, p) {
            assert(t@.subrange(0, 1)[0] == c);
        }
    }
    let mut n: usize = t.len();
    proof {
        assert(t@.take(n as int) =~= t@);
    }
    while n > 0 && t[n - 1] == c
        invariant
            n <= t@.len(),
            without_char_end(t@, c) == without_char_end(t@.take(n as int), c),
        decreases n,
    {
        proof {
            assert(t@.take(n as int).drop_last() =~= t@.take(n - 1));
        }
        n -= 1;
    }
    &t[0..n]
}

/// `s` without the leading characters that are among `set`.
pub open spec fn without_any_start(s: Seq<char>, set: Seq<char>) -> Seq<char>
    decreases s.len(),
{
    if s.len() > 0 && set.contains(s[0]) {
        without_any_start(s.skip(1), set)
    } else {
        s
    }
}

/// `s` without the trailing characters that are among `set`.
pub open spec fn without_any_end(s: Seq<char>, set: Seq<char>) -> Seq<char>
    decreases s.len(),
{
    if s.len() > 0 && set.contains(s.last()) {
        without_any_end(s.drop_last(), set)
    } else {
        s
    }
}

/// `s` without the leading and trailing characters that are among `set`.
pub open spec fn without_any(s: Seq<char>, set: Seq<char>) -> Seq<char> {
    without_any_end(without_any_start(s, set), set)
}

pub fn trim_any<'a>(s: &'a [char], set: &str) -> (r: &'a [char])
    ensures
        r@ == without_any(s@, set@),
{
    let c = chars_of(set);
    let mut i: usize = 0;
    proof {
        assert(s@.skip(0) =~= s@);
    }
    while i < s.len() && one_of(s[i], c.as_slice())
        invariant
            i <= s@.len(),
            c@ == set@,
            without_any_start(s@, set@) == without_any_start(s@.skip(i as int), set@),
        decreases s@.len() - i,
    {
        proof {
            assert(s@.skip(i as int).skip(1) =~= s@.skip(i + 1));
        }
        i += 1;
    }
    let size: usize = s.len();
    let t = &s[i..size];
    proof {
        assert(t@ =~= s@.skip(i as int));
    }
    let mut n: usize = t.len();
    proof {
        assert(t@.take(n as int) =~= t@);
    }
    while n > 0 && one_of(t[n - 1], c.as_slice())
        invariant
            n <= t@.len(),
            c@ == set@,
            without_any_end(t@, set@) == without_any_end(t@.take(n as int), set@),
        decreases n,
    {
        proof {
            assert(t@.take(n as int).drop_last() =~= t@.take(n - 1));
        }
        n -= 1;
    }
    &t[0..n]
}

// ---- splitting ----
/// The first position in `s`, not before `i`, of a character of `seps`.
pub open spec fn sep_from(s: Seq<char>, seps: Seq<char>, i: int) -> Option<int>
    decreases s.len() - i,
{
    if i >= s.len() {
        None
    } else if seps.contains(s[i]) {
        Some(i)
    } else {
        sep_from(s, seps, i + 1)
    }
}

pub proof fn lemma_sep_from(s: Seq<char>, seps: Seq<char>, i: int)
    requires
        0 <= i,
    ensures
        match sep_from(s, seps, i) {
            Some(j) => i <= j < s.len() && seps.contains(s[j]) && forall|k: int|
                i <= k < j ==> !seps.contains(#[trigger] s[k]),
            None => forall|k: int| i <= k < s.len() ==> !seps.contains(#[trigger] s[k]),
        },
    decreases s.len() - i,
{
    if i >= s.len() {
    } else if seps.contains(s[i]) {
    } else {
        lemma_sep_from(s, seps, i + 1);
    }
}

/// The pieces of `s` between the characters of `seps`.
pub open spec fn pieces(s: Seq<char>, seps: Seq<char>) -> Seq<Seq<char>>
    decreases s.len(),
    via pieces_decreases
{
    match sep_from(s, seps, 0) {
        Some(i) => seq![s.take(i)] + pieces(s.skip(i + 1), seps),
        None => seq![s],
    }
}

#[via_fn]
proof fn pieces_decreases(s: Seq<char>, seps: Seq<char>) {
    lemma_sep_from(s, seps, 0);
}

/// A text that holds no separator is one piece, and a separator behind it
/// begins the next one.
pub proof fn lemma_pieces_cut(a: Seq<char>, c: char, b: Seq<char>, seps: Seq<char>)
    requires
        seps.contains(c),
        forall|i: int| 0 <= i < a.len() ==> !seps.contains(#[trigger] a[i]),
    ensures
        pieces(a, seps) == seq![a],
        pieces(a + seq![c] + b, seps) == seq![a] + pieces(b, seps),
{
    lemma_sep_from(a, seps, 0);
    let s = a + seq![c] + b;
    lemma_sep_from(s, seps, 0);
    assert(s[a.len() as int] == c);
    assert forall|i: int| 0 <= i < a.len() implies !seps.contains(#[trigger] s[i]) by {
        assert(s[i] == a[i]);
    }
    assert(sep_from(s, seps, 0) == Some(a.len() as int));
    assert(s.take(a.len() as int) =~= a);
    assert(s.skip(a.len() as int + 1) =~= b);
}

/// The texts of a sequence of slices.
pub open spec fn texts(v: Seq<&[char]>) -> Seq<Seq<char>> {
    Seq::new(v.len(), |i: int| v[i]@)
}

/// The texts of a sequence of strings.
pub open spec fn strings(v: Seq<String>) -> Seq<Seq<char>> {
    Seq::new(v.len(), |i: int| v[i]@)
}

/// Whether `c` is one of `seps`.
pub fn one_of(c: char, seps: &[char]) -> (r: bool)
    ensures
        r == seps@.contains(c),
{
    let mut i: usize = 0;
    while i < seps.len()
        invariant
            i <= seps@.len(),
            forall|j: int| 0 <= j < i ==> seps@[j] != c,
        decreases seps@.len() - i,
    {
        if seps[i] == c {
            return true;
        }
        i += 1;
    }
    false
}

/// The first position of a character of `seps`.
pub fn find_sep(s: &[char], seps: &[char]) -> (r: Option<usize>)
    ensures
        match r {
            Some(i) => sep_from(s@, seps@, 0) == Some(i as int) && i < s@.len(),
            None => sep_from(s@, seps@, 0) is None,
        },
{
    let mut i: usize = 0;
    while i < s.len()
        invariant
            i <= s@.len(),
            sep_from(s@, seps@, 0) == sep_from(s@, seps@, i as int),
        decreases s@.len() - i,
    {
        if one_of(s[i], seps) {
            return Some(i);
        }
        i += 1;
    }
    None
}

pub fn split<'a>(s: &'a [char], seps: &str) -> (r: Vec<&'a [char]>)
    ensures
        texts(r@) == pieces(s@, seps@),
        r@.len() > 0,
{
    let p = chars_of(seps);
    let mut r: Vec<&'a [char]> = Vec::new();
    let mut cur: &'a [char] = s;
    loop
        invariant
            p@ == seps@,
            pieces(s@, seps@) == texts(r@) + pieces(cur@, seps@),
        decreases cur@.len(),
    {
        match find_sep(cur, p.as_slice()) {
            Some(i) => {
                let n: usize = cur.len();
                let head = &cur[0..i];
                let ghost before = texts(r@);
                r.push(head);
                let tail = &cur[i + 1..n];
                proof {
                    assert(head@ =~= cur@.take(i as int));
                    assert(tail@ =~= cur@.skip(i + 1));
                    assert(texts(r@) =~= before.push(head@));
                    assert(pieces(cur@, seps@) == seq![head@] + pieces(tail@, seps@));
                    assert(texts(r@) + pieces(tail@, seps@) =~= before + (seq![head@] + pieces(
                        tail@,
                        seps@,
                    )));
                }
                cur = tail;
            },
            None => {
                let ghost before = texts(r@);
                r.push(cur);
                proof {
                    assert(texts(r@) =~= before + seq![cur@]);
                }
                return r;
            },
        }
    }
}

/// The text before and behind the first `c`.
pub open spec fn cut(s: Seq<char>, c: char) -> Option<(Seq<char>, Seq<char>)> {
    match sep_from(s, seq![c], 0) {
        Some(i) => Some((s.take(i), s.skip(i + 1))),
        None => None,
    }
}

pub open spec fn opt_pair(o: Option<(&[char], &[char])>) -> Option<(Seq<char>, Seq<char>)> {
    match o {
        Some((a, b)) => Some((a@, b@)),
        None => None,
    }
}

pub fn split_once<'a>(s: &'a [char], c: char) -> (r: Option<(&'a [char], &'a [char])>)
    ensures
        opt_pair(r) == cut(s@, c),
{
    let mut p: Vec<char> = Vec::new();
    p.push(c);
    proof {
        assert(p@ =~= seq![c]);
    }
    match find_sep(s, p.as_slice()) {
        Some(i) => {
            let n: usize = s.len();
            let a = &s[0..i];
            let b = &s[i + 1..n];
            proof {
                assert(a@ =~= s@.take(i as int));
                assert(b@ =~= s@.skip(i + 1));
            }
            Some((a, b))
        },
        None => None,
    }
}

/// The last position in the first `n` characters of `s` that holds `c`.
pub open spec fn last_at(s: Seq<char>, c: char, n: int) -> Option<int>
    decreases n,
{
    if n <= 0 {
        None
    } else if s[n - 1] == c {
        Some(n - 1)
    } else {
        last_at(s, c, n - 1)
    }
}

/// The text before and behind the last `c`.
pub open spec fn cut_last(s: Seq<char>, c: char) -> Option<(Seq<char>, Seq<char>)> {
    match last_at(s, c, s.len() as int) {
        Some(i) => Some((s.take(i), s.skip(i + 1))),
        None => None,
    }
}

pub fn rfind(s: &[char], c: char) -> (r: Option<usize>)
    ensures
        match r {
            Some(i) => last_at(s@, c, s@.len() as int) == Some(i as int) && i < s@.len() && s@[i as int]
                == c,
            None => last_at(s@, c, s@.len() as int) is None,
        },
{
    let mut n: usize = s.len();
    while n > 0
        invariant
            n <= s@.len(),
            last_at(s@, c, s@.len() as int) == last_at(s@, c, n as int),
        decreases n,
    {
        if s[n - 1] == c {
            return Some(n - 1);
        }
        n -= 1;
    }
    None
}

pub fn rsplit_once<'a>(s: &'a [char], c: char) -> (r: Option<(&'a [char], &'a [char])>)
    ensures
        opt_pair(r) == cut_last(s@, c),
{
    match rfind(s, c) {
        Some(i) => {
            let n: usize = s.len();
            let a = &s[0..i];
            let b = &s[i + 1..n];
            proof {
                assert(a@ =~= s@.take(i as int));
                assert(b@ =~= s@.skip(i + 1));
            }
            Some((a, b))
        },
        None => None,
    }
}

/// The pieces of `s` between the copies of `pat`, taken from the left.
pub open spec fn parts(s: Seq<char>, pat: Seq<char>) -> Seq<Seq<char>>
    decreases s.len(),
    via parts_decreases
{
    match found(s, pat) {
        Some(i) => if pat.len() == 0 {
            seq![s]
        } else {
            seq![s.take(i)] + parts(s.skip(i + pat.len()), pat)
        },
        None => seq![s],
    }
}

#[via_fn]
proof fn parts_decreases(s: Seq<char>, pat: Seq<char>) {
    lemma_found_from(s, pat, 0);
}

/// The pieces between copies of a text that is not empty.
pub fn split_str<'a>(s: &'a [char], pat: &str) -> (r: Vec<&'a [char]>)
    requires
        pat@.len() > 0,
    ensures
        texts(r@) == parts(s@, pat@),
        r@.len() > 0,
{
    let p = chars_of(pat);
    let mut r: Vec<&'a [char]> = Vec::new();
    let mut cur: &'a [char] = s;
    assert(texts(r@) + parts(s@, pat@) =~= parts(s@, pat@));
    loop
        invariant
            p@ == pat@,
            pat@.len() > 0,
            parts(s@, pat@) == texts(r@) + parts(cur@, pat@),
        decreases cur@.len(),
    {
        let n: usize = cur.len();
        match find_from(cur, p.as_slice(), 0) {
            Some(i) => {
                let head = &cur[0..i];
                let ghost before = texts(r@);
                r.push(head);
                let tail = &cur[i + p.len()..n];
                proof {
                    assert(head@ =~= cur@.take(i as int));
                    assert(tail@ =~= cur@.skip(i + pat@.len()));
                    assert(texts(r@) =~= before.push(head@));
                    assert(texts(r@) + parts(tail@, pat@) =~= before + (seq![head@] + parts(
                        tail@,
                        pat@,
                    )));
                }
                cur = tail;
            },
            None => {
                let ghost before = texts(r@);
                r.push(cur);
                proof {
                    assert(texts(r@) =~= before + seq![cur@]);
                }
                return r;
            },
        }
    }
}

// ---- replacing ----
/// `s` with every copy of `pat`, taken from the left, replaced by `by`.
pub open spec fn replaced(s: Seq<char>, pat: Seq<char>, by: Seq<char>) -> Seq<char>
    decreases s.len(),
{
    if pat.len() == 0 || s.len() == 0 {
        s
    } else if starts(s, pat) {
        by + replaced(s.skip(pat.len() as int), pat, by)
    } else {
        seq![s[0]] + replaced(s.skip(1), pat, by)
    }
}

pub fn append(out: &mut Vec<char>, s: &[char])
    ensures
        final(out)@ == old(out)@ + s@,
{
    let mut i: usize = 0;
    while i < s.len()
        invariant
            i <= s@.len(),
            out@ == old(out)@ + s@.take(i as int),
        decreases s@.len() - i,
    {
        out.push(s[i]);
        proof {
            assert(s@.take(i + 1) =~= s@.take(i as int).push(s@[i as int]));
        }
        i += 1;
    }
    proof {
        assert(s@.take(i as int) =~= s@);
    }
}

/// Appends the text of a string.
pub fn append_str(out: &mut Vec<char>, s: &str)
    ensures
        final(out)@ == old(out)@ + s@,
{
    let c = chars_of(s);
    append(out, c.as_slice());
}

pub fn replace(s: &[char], pat: &str, by: &str) -> (r: Vec<char>)
    ensures
        r@ == replaced(s@, pat@, by@),
{
    let p = chars_of(pat);
    let b = chars_of(by);
    let mut out: Vec<char> = Vec::new();
    let mut i: usize = 0;
    if p.len() == 0 {
        append(&mut out, s);
        proof {
            assert(out@ =~= s@);
        }
        return out;
    }
    proof {
        assert(s@.skip(0) =~= s@);
        assert(out@ + replaced(s@, pat@, by@) =~= replaced(s@, pat@, by@));
    }
    while i < s.len()
        invariant
            i <= s@.len(),
            p@ == pat@,
            b@ == by@,
            p@.len() > 0,
            replaced(s@, pat@, by@) == out@ + replaced(s@.skip(i as int), pat@, by@),
        decreases s@.len() - i,
    {
        let ghost t = s@.skip(i as int);
        let ghost before = out@;
        proof {
            if occurs(s@, pat@, i as int) {
                assert(t.subrange(0, pat@.len() as int) =~= s@.subrange(i as int, i + pat@.len()));
            }
            if occurs(t, pat@, 0) {
                assert(s@.subrange(i as int, i + pat@.len()) =~= t.subrange(0, pat@.len() as int));
            }
        }
        if occurs_at(s, p.as_slice(), i) {
            append(&mut out, b.as_slice());
            proof {
                assert(t.skip(pat@.len() as int) =~= s@.skip(i + pat@.len()));
                assert(before + (by@ + replaced(s@.skip(i + pat@.len()), pat@, by@)) =~= out@
                    + replaced(s@.skip(i + pat@.len()), pat@, by@));
            }
            i += p.len();
        } else {
            out.push(s[i]);
            proof {
                assert(t.skip(1) =~= s@.skip(i + 1));
                assert(before + (seq![t[0]] + replaced(s@.skip(i + 1), pat@, by@)) =~= out@
                    + replaced(s@.skip(i + 1), pat@, by@));
            }
            i += 1;
        }
    }
    proof {
        assert(s@.skip(i as int) =~= Seq::<char>::empty());
        assert(out@ + Seq::<char>::empty() =~= out@);
    }
    out
}

/// `s` without its white space.
pub open spec fn compacted(s: Seq<char>) -> Seq<char> {
    s.filter(|c: char| !is_white(c))
}

pub fn compact(s: &[char]) -> (r: Vec<char>)
    ensures
        r@ == compacted(s@),
{
    let mut r: Vec<char> = Vec::new();
    let mut i: usize = 0;
    let ghost keep = |c: char| !is_white(c);
    while i < s.len()
        invariant
            i <= s@.len(),
            keep == (|c: char| !is_white(c)),
            r@ == s@.take(i as int).filter(keep),
        decreases s@.len() - i,
    {
        proof {
            assert(s@.take(i + 1).drop_last() =~= s@.take(i as int));
            reveal(Seq::filter);
        }
        if !white(s[i]) {
            r.push(s[i]);
        }
        i += 1;
    }
    proof {
        assert(s@.take(i as int) =~= s@);
    }
    r
}

// ---- lines ----
/// A line without the carriage return before its line feed.
pub open spec fn without_cr(s: Seq<char>) -> Seq<char> {
    if s.len() > 0 && s.last() == '\r' {
        s.drop_last()
    } else {
        s
    }
}

/// The lines of a text: each ends with a line feed, which may follow a
/// carriage return; what stands behind the last line feed is a line too,
/// unless it is empty.
pub open spec fn lines_of(s: Seq<char>) -> Seq<Seq<char>> {
    let p = pieces(s, seq!['\n']);
    let n = p.len() - 1;
    let full = Seq::new(n as nat, |i: int| without_cr(p[i]));
    if p[n].len() == 0 {
        full
    } else {
        full.push(p[n])
    }
}

/// There is always a piece.
pub proof fn lemma_pieces_nonempty(s: Seq<char>, seps: Seq<char>)
    ensures
        pieces(s, seps).len() > 0,
    decreases s.len(),
{
    lemma_sep_from(s, seps, 0);
}

pub fn lines<'a>(s: &'a [char]) -> (r: Vec<&'a [char]>)
    ensures
        texts(r@) == lines_of(s@),
{
    let p = split(s, "\n");
    proof {
        reveal_strlit("\n");
        assert("\n"@ =~= seq!['\n']);
    }
    let ghost ps = texts(p@);
    let n: usize = p.len() - 1;
    let mut r: Vec<&'a [char]> = Vec::new();
    let mut i: usize = 0;
    while i < n
        invariant
            i <= n,
            n == p@.len() - 1,
            ps == texts(p@),
            r@.len() == i,
            forall|j: int| 0 <= j < i ==> (#[trigger] r@[j])@ == without_cr(ps[j]),
        decreases n - i,
    {
        let l: &'a [char] = p[i];
        if l.len() > 0 && l[l.len() - 1] == '\r' {
            let t = &l[0..l.len() - 1];
            proof {
                assert(t@ =~= l@.drop_last());
            }
            r.push(t);
        } else {
            r.push(l);
        }
        i += 1;
    }
    let ghost full = Seq::new(n as nat, |i: int| without_cr(ps[i]));
    proof {
        assert(texts(r@) =~= full);
    }
    let last: &'a [char] = p[n];
    if last.len() > 0 {
        r.push(last);
        proof {
            assert(texts(r@) =~= full.push(last@));
        }
    }
    r
}

// ---- numbers ----
pub open spec fn is_digit(c: char) -> bool {
    '0' <= c && c <= '9'
}

pub open spec fn all_digits(s: Seq<char>) -> bool {
    forall|i: int| 0 <= i < s.len() ==> is_digit(#[trigger] s[i])
}

/// The number that decimal digits write.
pub open spec fn dec_value(s: Seq<char>) -> nat
    decreases s.len(),
{
    if s.len() == 0 {
        0
    } else {
        dec_value(s.drop_last()) * 10 + (s.last() as int - '0' as int) as nat
    }
}

/// The number that `s` writes in decimal, where it holds digits only and the
/// number is at most `max`.
pub open spec fn digits_value(s: Seq<char>, max: int) -> Option<int> {
    if s.len() > 0 && all_digits(s) && dec_value(s) <= max {
        Some(dec_value(s) as int)
    } else {
        None
    }
}

/// An unsigned decimal number with an optional plus sign.
pub open spec fn unsigned_value(s: Seq<char>, max: int) -> Option<int> {
    if s.len() > 0 && s[0] == '+' {
        digits_value(s.skip(1), max)
    } else {
        digits_value(s, max)
    }
}

/// A decimal number with an optional sign.
pub open spec fn signed_value(s: Seq<char>) -> Option<int> {
    if s.len() > 0 && s[0] == '-' {
        match digits_value(s.skip(1), 0x8000_0000_0000_0000) {
            Some(v) => Some(-v),
            None => None,
        }
    } else {
        unsigned_value(s, 0x7fff_ffff_ffff_ffff)
    }
}

pub open spec fn opt_int(o: Option<u64>) -> Option<int> {
    match o {
        Some(v) => Some(v as int),
        None => None,
    }
}

pub open spec fn opt_signed(o: Option<i64>) -> Option<int> {
    match o {
        Some(v) => Some(v as int),
        None => None,
    }
}

proof fn lemma_dec_value_monotone(s: Seq<char>, n: int)
    requires
        0 <= n <= s.len(),
    ensures
        dec_value(s.take(n)) <= dec_value(s),
    decreases s.len() - n,
{
    if n < s.len() {
        lemma_dec_value_monotone(s, n + 1);
        assert(s.take(n + 1).drop_last() =~= s.take(n));
    } else {
        assert(s.take(n) =~= s);
    }
}

fn parse_digits(s: &[char], max: u64) -> (r: Option<u64>)
    ensures
        opt_int(r) == digits_value(s@, max as int),
{
    if s.len() == 0 {
        return None;
    }
    let mut v: u64 = 0;
    let mut i: usize = 0;
    while i < s.len()
        invariant
            i <= s@.len(),
            forall|j: int| 0 <= j < i ==> is_digit(#[trigger] s@[j]),
            v == dec_value(s@.take(i as int)),
            v <= max,
        decreases s@.len() - i,
    {
        let c: char = s[i];
        if !('0' <= c && c <= '9') {
            return None;
        }
        let d: u64 = (c as u32 - '0' as u32) as u64;
        proof {
            assert(s@.take(i + 1).drop_last() =~= s@.take(i as int));
            lemma_dec_value_monotone(s@, i + 1);
        }
        if d > max || v > max / 10 || v * 10 > max - d {
            return None;
        }
        v = v * 10 + d;
        i += 1;
    }
    proof {
        assert(s@.take(i as int) =~= s@);
    }
    Some(v)
}

pub fn parse_unsigned(s: &[char], max: u64) -> (r: Option<u64>)
    ensures
        opt_int(r) == unsigned_value(s@, max as int),
{
    if s.len() > 0 && s[0] == '+' {
        let t = &s[1..s.len()];
        proof {
            assert(t@ =~= s@.skip(1));
        }
        parse_digits(t, max)
    } else {
        parse_digits(s, max)
    }
}

pub fn parse_i64(s: &[char]) -> (r: Option<i64>)
    ensures
        opt_signed(r) == signed_value(s@),
{
    if s.len() > 0 && s[0] == '-' {
        let t = &s[1..s.len()];
        proof {
            assert(t@ =~= s@.skip(1));
        }
        match parse_digits(t, 0x8000_0000_0000_0000) {
            Some(v) => {
                if v == 0x8000_0000_0000_0000 {
                    Some(i64::MIN)
                } else {
                    Some(-(v as i64))
                }
            },
            None => None,
        }
    } else {
        match parse_unsigned(s, 0x7fff_ffff_ffff_ffff) {
            Some(v) => Some(v as i64),
            None => None,
        }
    }
}

pub fn parse_u16(s: &[char]) -> (r: Option<u16>)
    ensures
        (match r {
            Some(v) => Some(v as int),
            None => None,
        }) == unsigned_value(s@, 0xffff),
{
    match parse_unsigned(s, 0xffff) {
        Some(v) => Some(v as u16),
        None => None,
    }
}

/// A decimal number with an optional sign, where it fits in 32 bits.
pub open spec fn short_value(s: Seq<char>) -> Option<int> {
    match signed_value(s) {
        Some(v) => if -0x8000_0000 <= v <= 0x7fff_ffff {
            Some(v)
        } else {
            None
        },
        None => None,
    }
}

pub fn parse_i32(s: &[char]) -> (r: Option<i32>)
    ensures
        (match r {
            Some(v) => Some(v as int),
            None => None,
        }) == short_value(s@),
{
    match parse_i64(s) {
        Some(v) => if -0x8000_0000 <= v && v <= 0x7fff_ffff {
            Some(v as i32)
        } else {
            None
        },
        None => None,
    }
}

/// The character of a decimal digit.
pub open spec fn digit_char(d: int) -> char {
    (d + 48) as char
}

/// The decimal digits of a number.
pub open spec fn dec(n: nat) -> Seq<char>
    decreases n,
{
    if n < 10 {
        seq![digit_char(n as int)]
    } else {
        dec(n / 10).push(digit_char((n % 10) as int))
    }
}

/// The decimal form of an integer.
pub open spec fn dec_int(n: int) -> Seq<char> {
    if n < 0 {
        seq!['-'] + dec((-n) as nat)
    } else {
        dec(n as nat)
    }
}

pub fn format_dec(n: u64) -> (r: Vec<char>)
    ensures
        r@ == dec(n as nat),
    decreases n,
{
    let d: u8 = (n % 10) as u8;
    let c: char = (d + 48) as char;
    if n < 10 {
        let mut r: Vec<char> = Vec::new();
        r.push(c);
        proof {
            assert(r@ =~= dec(n as nat));
        }
        r
    } else {
        let mut r = format_dec(n / 10);
        r.push(c);
        r
    }
}

pub fn format_int(n: i64) -> (r: Vec<char>)
    ensures
        r@ == dec_int(n as int),
{
    if n < 0 {
        let m: u64 = if n == i64::MIN {
            0x8000_0000_0000_0000
        } else {
            (-n) as u64
        };
        let d = format_dec(m);
        let mut r: Vec<char> = Vec::new();
        r.push('-');
        append(&mut r, d.as_slice());
        proof {
            assert(r@ =~= seq!['-'] + dec(m as nat));
        }
        r
    } else {
        format_dec(n as u64)
    }
}

/// Reading the decimal form of a number gives the number back.
pub proof fn law_dec_reads_back(n: nat)
    ensures
        dec(n).len() > 0,
        all_digits(dec(n)),
        dec_value(dec(n)) == n,
    decreases n,
{
    if n < 10 {
        let s = dec(n);
        assert(s.drop_last() =~= Seq::<char>::empty());
        assert(dec_value(s.drop_last()) == 0);
    } else {
        law_dec_reads_back(n / 10);
        let s = dec(n);
        assert(s.drop_last() =~= dec(n / 10));
        assert forall|i: int| 0 <= i < s.len() implies is_digit(#[trigger] s[i]) by {
            if i < s.len() - 1 {
                assert(s[i] == dec(n / 10)[i]);
            }
        }
    }
}

// ---- laws ----
proof fn lemma_trimmed_start(s: Seq<char>) -> (n: int)
    ensures
        0 <= n <= s.len(),
        trimmed_start(s) == s.skip(n),
        forall|i: int| 0 <= i < n ==> is_white(#[trigger] s[i]),
        n < s.len() ==> !is_white(s[n]),
    decreases s.len(),
{
    if s.len() > 0 && is_white(s[0]) {
        let m = lemma_trimmed_start(s.skip(1));
        assert(s.skip(1).skip(m) =~= s.skip(m + 1));
        assert forall|i: int| 0 <= i < m + 1 implies is_white(#[trigger] s[i]) by {
            if i > 0 {
                assert(s.skip(1)[i - 1] == s[i]);
            }
        }
        if m + 1 < s.len() {
            assert(s.skip(1)[m] == s[m + 1]);
        }
        m + 1
    } else {
        assert(s.skip(0) =~= s);
        0
    }
}

proof fn lemma_trimmed_end(s: Seq<char>) -> (n: int)
    ensures
        0 <= n <= s.len(),
        trimmed_end(s) == s.take(n),
        forall|i: int| n <= i < s.len() ==> is_white(#[trigger] s[i]),
        n > 0 ==> !is_white(s[n - 1]),
    decreases s.len(),
{
    if s.len() > 0 && is_white(s.last()) {
        let m = lemma_trimmed_end(s.drop_last());
        assert(s.drop_last().take(m) =~= s.take(m));
        assert forall|i: int| m <= i < s.len() implies is_white(#[trigger] s[i]) by {
            if i < s.len() - 1 {
                assert(s.drop_last()[i] == s[i]);
            }
        }
        m
    } else {
        assert(s.take(s.len() as int) =~= s);
        s.len() as int
    }
}

/// White space around a text is trimmed, and nothing else: a text that neither begins nor
/// ends with white space is what trimming leaves of it and of any white space around it.
pub proof fn law_trim(a: Seq<char>, s: Seq<char>, b: Seq<char>)
    requires
        forall|i: int| 0 <= i < a.len() ==> is_white(#[trigger] a[i]),
        forall|i: int| 0 <= i < b.len() ==> is_white(#[trigger] b[i]),
        s.len() > 0 ==> !is_white(s[0]) && !is_white(s.last()),
    ensures
        trimmed(a + s + b) == s,
        trimmed(s) == s,
{
    lemma_trim_one(a, s, b);
    lemma_trim_one(Seq::empty(), s, Seq::empty());
    assert(Seq::<char>::empty() + s + Seq::<char>::empty() =~= s);
}

proof fn lemma_trim_one(a: Seq<char>, s: Seq<char>, b: Seq<char>)
    requires
        forall|i: int| 0 <= i < a.len() ==> is_white(#[trigger] a[i]),
        forall|i: int| 0 <= i < b.len() ==> is_white(#[trigger] b[i]),
        s.len() > 0 ==> !is_white(s[0]) && !is_white(s.last()),
    ensures
        trimmed(a + s + b) == s,
{
    let t = a + s + b;
    let n = lemma_trimmed_start(t);
    let u = t.skip(n);
    let m = lemma_trimmed_end(u);
    if s.len() > 0 {
        assert(t[a.len() as int] == s[0]);
        if n < a.len() {
            assert(t[n] == a[n]);
        }
        assert(n == a.len());
        assert(u =~= s + b);
        assert(u[s.len() - 1] == s.last());
        if m > s.len() {
            assert(u[m - 1] == b[m - 1 - s.len()]);
        }
        assert(m == s.len());
        assert(u.take(m) =~= s);
    } else {
        if n < t.len() {
            if n < a.len() {
                assert(t[n] == a[n]);
            } else {
                assert(t[n] == b[n - a.len()]);
            }
        }
        assert(u.take(m) =~= s);
    }
}

/// A text is cut at the first or the last copy of a character, which belongs to neither
/// part.
pub proof fn law_cut(a: Seq<char>, c: char, b: Seq<char>)
    ensures
        !a.contains(c) ==> cut(a + seq![c] + b, c) == Some((a, b)),
        !b.contains(c) ==> cut_last(a + seq![c] + b, c) == Some((a, b)),
        !a.contains(c) ==> cut(a, c) is None && cut_last(a, c) is None,
{
    let s = a + seq![c] + b;
    let n = a.len() as int;
    let p = seq![c];
    assert(p[0] == c);
    assert(s[n] == c);
    assert(s.take(n) =~= a);
    assert(s.skip(n + 1) =~= b);
    if !a.contains(c) {
        lemma_sep_from(s, p, 0);
        lemma_sep_from(a, p, 0);
        assert forall|i: int| 0 <= i < n implies !p.contains(#[trigger] s[i]) by {
            assert(s[i] == a[i]);
        }
        lemma_last_at(a, c, n, -1);
    }
    if !b.contains(c) {
        assert forall|i: int| n < i < s.len() implies #[trigger] s[i] != c by {
            assert(s[i] == b[i - n - 1]);
        }
        lemma_last_at(s, c, s.len() as int, n);
    }
}

proof fn lemma_last_at(s: Seq<char>, c: char, n: int, k: int)
    requires
        -1 <= k < n <= s.len() || (k == -1 && n == 0),
        k >= 0 ==> s[k] == c,
        forall|i: int| k < i < n ==> #[trigger] s[i] != c,
    ensures
        last_at(s, c, n) == if k >= 0 {
            Some(k)
        } else {
            None::<int>
        },
    decreases n,
{
    if n > 0 && n - 1 != k {
        lemma_last_at(s, c, n - 1, k);
    }
}

/// The line before a line feed, without a carriage return in front of it, is the first
/// line, and what follows holds the others.
pub proof fn law_lines(a: Seq<char>, b: Seq<char>)
    requires
        !a.contains('\n'),
    ensures
        a.len() > 0 ==> lines_of(a) == seq![a],
        lines_of(a + seq!['\r', '\n'] + b) == seq![a] + lines_of(b),
        a.len() > 0 && a.last() != '\r' ==> lines_of(a + seq!['\n'] + b) == seq![a] + lines_of(b),
{
    let p = seq!['\n'];
    assert(p[0] == '\n');
    lemma_pieces_nonempty(b, p);
    lemma_pieces_cut(a, '\n', b, p);
    let r = a.push('\r');
    assert forall|i: int| 0 <= i < r.len() implies !p.contains(#[trigger] r[i]) by {
        if i < a.len() {
            assert(r[i] == a[i]);
        }
    }
    lemma_pieces_cut(r, '\n', b, p);
    assert(a + seq!['\r', '\n'] + b =~= r + seq!['\n'] + b);
    assert(r.drop_last() =~= a);
    assert(lines_of(r + seq!['\n'] + b) =~= seq![a] + lines_of(b));
    if a.len() > 0 && a.last() != '\r' {
        assert(lines_of(a + seq!['\n'] + b) =~= seq![a] + lines_of(b));
    }
    if a.len() > 0 {
        assert(lines_of(a) =~= seq![a]);
    }
}

/// The decimal form of a number has no leading zero, and every reader of numbers reads it
/// back, a minus sign in front of it included.
pub proof fn law_number_reads_back(n: nat, max: int)
    requires
        n <= max,
    ensures
        dec(n).len() > 1 ==> dec(n)[0] != '0',
        is_digit(dec(n)[0]),
        digits_value(dec(n), max) == Some(n as int),
        unsigned_value(dec(n), max) == Some(n as int),
        n <= 0x7fff_ffff_ffff_ffff ==> signed_value(dec(n)) == Some(n as int),
        n <= 0x8000_0000_0000_0000 ==> signed_value(seq!['-'] + dec(n)) == Some(-(n as int)),
{
    law_dec_reads_back(n);
    lemma_dec_front(n);
    assert(is_digit(dec(n)[0]));
    assert((seq!['-'] + dec(n)).skip(1) =~= dec(n));
}

proof fn lemma_dec_front(n: nat)
    ensures
        dec(n).len() > 0,
        n > 0 ==> dec(n)[0] != '0',
        dec(n).len() > 1 ==> n > 0,
    decreases n,
{
    if n >= 10 {
        lemma_dec_front(n / 10);
        assert(dec(n)[0] == dec(n / 10)[0]);
    } else {
        assert(dec(n)[0] == digit_char(n as int));
    }
}

/// Letters from `A` to `Z` are lowered to those from `a` to `z`, and no other character
/// changes.
pub proof fn law_lower(s: Seq<char>, i: int)
    requires
        0 <= i < s.len(),
    ensures
        lowered(s).len() == s.len(),
        'A' <= s[i] <= 'Z' ==> lowered(s)[i] as int - 'a' as int == s[i] as int - 'A' as int,
        !('A' <= s[i] <= 'Z') ==> lowered(s)[i] == s[i],
{
}

/// A text is searched from its front: the first copy of a pattern is found, and where none
/// stands none is.
pub proof fn law_first_is_found(s: Seq<char>, pat: Seq<char>, i: int)
    requires
        0 <= i,
        i + pat.len() <= s.len(),
        s.subrange(i, i + pat.len()) == pat,
    ensures
        has(s, pat),
        0 <= found(s, pat)->0 <= i,
        s.subrange(found(s, pat)->0, found(s, pat)->0 + pat.len()) == pat,
{
    lemma_found_from(s, pat, 0);
    assert(occurs(s, pat, i));
}

} // verus!
