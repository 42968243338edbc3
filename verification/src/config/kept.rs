//! What is read of the stored form of profiles is what was stored.

use vstd::prelude::*;

use crate::config::profiles;
use crate::config::profiles::{EntryView, ProfileKind, Reading};
use crate::config::yaml;
use crate::text;

verus! {

// ---- escaping ----
/// A text with every backslash doubled.
pub open spec fn doubled(s: Seq<char>) -> Seq<char>
    decreases s.len(),
{
    if s.len() == 0 {
        s
    } else if s[0] == '\\' {
        seq!['\\', '\\'] + doubled(s.skip(1))
    } else {
        seq![s[0]] + doubled(s.skip(1))
    }
}

/// A text with a backslash before every backslash and quotation mark.
pub open spec fn marked(s: Seq<char>) -> Seq<char>
    decreases s.len(),
{
    if s.len() == 0 {
        s
    } else if s[0] == '\\' {
        seq!['\\', '\\'] + marked(s.skip(1))
    } else if s[0] == '"' {
        seq!['\\', '"'] + marked(s.skip(1))
    } else {
        seq![s[0]] + marked(s.skip(1))
    }
}

/// How a pattern of one character is replaced at the beginning of a text.
proof fn lemma_replace_one(c: char, rest: Seq<char>, p: char, by: Seq<char>)
    ensures
        ({
            let s = seq![c] + rest;
            text::replaced(s, seq![p], by) == (if c == p {
                by
            } else {
                seq![c]
            }) + text::replaced(rest, seq![p], by)
        }),
{
    let s = seq![c] + rest;
    assert(s.skip(1) =~= rest);
    assert(s.subrange(0, 1) =~= seq![c]);
    if c == p {
        assert(text::starts(s, seq![p]));
    } else {
        assert(s.subrange(0, 1)[0] == c);
        assert(seq![p][0] == p);
        assert(!text::starts(s, seq![p]));
    }
}

/// How a pattern of two characters is replaced at the beginning of a text.
proof fn lemma_replace_two(a: char, b: char, rest: Seq<char>, p: char, q: char, by: Seq<char>)
    ensures
        ({
            let s = seq![a, b] + rest;
            let pat = seq![p, q];
            if a == p && b == q {
                text::replaced(s, pat, by) == by + text::replaced(rest, pat, by)
            } else {
                text::replaced(s, pat, by) == seq![a] + text::replaced(seq![b] + rest, pat, by)
            }
        }),
{
    let s = seq![a, b] + rest;
    let pat = seq![p, q];
    assert(s.subrange(0, 2) =~= seq![a, b]);
    assert(s.skip(2) =~= rest);
    assert(s.skip(1) =~= seq![b] + rest);
    if a == p && b == q {
        assert(text::starts(s, pat));
    } else {
        assert(s.subrange(0, 2)[0] == a && s.subrange(0, 2)[1] == b);
        assert(pat[0] == p && pat[1] == q);
        assert(!text::starts(s, pat));
    }
}

/// A character that is not the first of a pattern stays.
proof fn lemma_replace_stays(c: char, rest: Seq<char>, p: char, q: char, by: Seq<char>)
    requires
        c != p,
    ensures
        text::replaced(seq![c] + rest, seq![p, q], by) == seq![c] + text::replaced(
            rest,
            seq![p, q],
            by,
        ),
{
    let s = seq![c] + rest;
    assert(s.skip(1) =~= rest);
    if text::starts(s, seq![p, q]) {
        assert(s.subrange(0, 2)[0] == c);
        assert(seq![p, q][0] == p);
    }
}

proof fn lemma_doubled(s: Seq<char>)
    ensures
        text::replaced(s, seq!['\\'], seq!['\\', '\\']) == doubled(s),
    decreases s.len(),
{
    if s.len() > 0 {
        lemma_doubled(s.skip(1));
        assert(s =~= seq![s[0]] + s.skip(1));
        lemma_replace_one(s[0], s.skip(1), '\\', seq!['\\', '\\']);
    }
}

proof fn lemma_marked(s: Seq<char>)
    ensures
        text::replaced(doubled(s), seq!['"'], seq!['\\', '"']) == marked(s),
    decreases s.len(),
{
    let by = seq!['\\', '"'];
    if s.len() > 0 {
        let rest = doubled(s.skip(1));
        lemma_marked(s.skip(1));
        if s[0] == '\\' {
            assert(doubled(s) =~= seq!['\\'] + (seq!['\\'] + rest));
            lemma_replace_one('\\', seq!['\\'] + rest, '"', by);
            lemma_replace_one('\\', rest, '"', by);
            assert(marked(s) =~= seq!['\\'] + (seq!['\\'] + marked(s.skip(1))));
        } else {
            lemma_replace_one(s[0], rest, '"', by);
        }
    }
}

/// A marked text does not begin with a quotation mark.
proof fn lemma_marked_start(s: Seq<char>)
    ensures
        marked(s).len() > 0 ==> marked(s)[0] != '"',
        s.len() > 0 ==> marked(s).len() > 0,
{
}

proof fn lemma_unmarked(s: Seq<char>)
    ensures
        text::replaced(marked(s), seq!['\\', '"'], seq!['"']) == doubled(s),
    decreases s.len(),
{
    let by = seq!['"'];
    if s.len() > 0 {
        let rest = marked(s.skip(1));
        lemma_unmarked(s.skip(1));
        lemma_marked_start(s.skip(1));
        if s[0] == '\\' {
            lemma_replace_two('\\', '\\', rest, '\\', '"', by);
            let t = seq!['\\'] + rest;
            assert(text::replaced(t, seq!['\\', '"'], by) == seq!['\\'] + text::replaced(
                rest,
                seq!['\\', '"'],
                by,
            )) by {
                assert(t.skip(1) =~= rest);
                if text::starts(t, seq!['\\', '"']) {
                    assert(t.subrange(0, 2)[1] == rest[0]);
                    assert(seq!['\\', '"'][1] == '"');
                }
            }
            assert(doubled(s) =~= seq!['\\'] + (seq!['\\'] + doubled(s.skip(1))));
        } else if s[0] == '"' {
            lemma_replace_two('\\', '"', rest, '\\', '"', by);
            assert(doubled(s) =~= seq!['"'] + doubled(s.skip(1)));
        } else {
            lemma_replace_stays(s[0], rest, '\\', '"', by);
        }
    }
}

proof fn lemma_undoubled(s: Seq<char>)
    ensures
        text::replaced(doubled(s), seq!['\\', '\\'], seq!['\\']) == s,
    decreases s.len(),
{
    let by = seq!['\\'];
    if s.len() > 0 {
        let rest = doubled(s.skip(1));
        lemma_undoubled(s.skip(1));
        assert(s =~= seq![s[0]] + s.skip(1));
        if s[0] == '\\' {
            lemma_replace_two('\\', '\\', rest, '\\', '\\', by);
        } else {
            lemma_replace_stays(s[0], rest, '\\', '\\', by);
        }
    }
}

/// Whether a text holds no line ends.
pub open spec fn one_line(s: Seq<char>) -> bool {
    forall|i: int| 0 <= i < s.len() ==> (#[trigger] s[i]) != '\n' && s[i] != '\r'
}

proof fn lemma_replace_absent(s: Seq<char>, p: char, by: Seq<char>)
    requires
        forall|i: int| 0 <= i < s.len() ==> (#[trigger] s[i]) != p,
    ensures
        text::replaced(s, seq![p], by) == s,
    decreases s.len(),
{
    if s.len() > 0 {
        let rest = s.skip(1);
        assert forall|i: int| 0 <= i < rest.len() implies (#[trigger] rest[i]) != p by {
            assert(rest[i] == s[i + 1]);
        }
        lemma_replace_absent(rest, p, by);
        assert(s =~= seq![s[0]] + rest);
        lemma_replace_one(s[0], rest, p, by);
    }
}

proof fn lemma_marked_line(s: Seq<char>)
    requires
        one_line(s),
    ensures
        one_line(marked(s)),
    decreases s.len(),
{
    if s.len() > 0 {
        let rest = s.skip(1);
        assert forall|i: int| 0 <= i < rest.len() implies (#[trigger] rest[i]) != '\n' && rest[i]
            != '\r' by {
            assert(rest[i] == s[i + 1]);
        }
        lemma_marked_line(rest);
        let t = marked(rest);
        let m = marked(s);
        assert forall|i: int| 0 <= i < m.len() implies (#[trigger] m[i]) != '\n' && m[i]
            != '\r' by {
            if s[0] == '\\' || s[0] == '"' {
                if i >= 2 {
                    assert(m[i] == t[i - 2]);
                }
            } else {
                if i >= 1 {
                    assert(m[i] == t[i - 1]);
                }
            }
        }
    }
}

// ---- values ----
/// Whether a value can be kept: it holds no line ends, and no white space around
/// it unless it is written in quotes.
pub open spec fn keepable(s: Seq<char>) -> bool {
    one_line(s) && (profiles::needs_quotes(s) || text::trimmed(s) == s)
}

/// Whether a text is not empty and has no white space around it.
pub open spec fn solid(s: Seq<char>) -> bool {
    s.len() > 0 && !text::is_white(s[0]) && !text::is_white(s.last())
}

proof fn lemma_trimmed_end_shorter(s: Seq<char>)
    ensures
        text::trimmed_end(s).len() <= s.len(),
        text::trimmed_end(s).len() == s.len() ==> s.len() == 0 || !text::is_white(s.last()),
    decreases s.len(),
{
    if s.len() > 0 && text::is_white(s.last()) {
        lemma_trimmed_end_shorter(s.drop_last());
    }
}

proof fn lemma_trimmed_start_shorter(s: Seq<char>)
    ensures
        text::trimmed_start(s).len() <= s.len(),
        text::trimmed_start(s).len() == s.len() ==> s.len() == 0 || !text::is_white(s[0]),
    decreases s.len(),
{
    if s.len() > 0 && text::is_white(s[0]) {
        lemma_trimmed_start_shorter(s.skip(1));
    }
}

/// A text that is its own trimmed form is empty or has no white space around it.
proof fn lemma_solid(s: Seq<char>)
    requires
        text::trimmed(s) == s,
        s.len() > 0,
    ensures
        solid(s),
{
    lemma_trimmed_start_shorter(s);
    lemma_trimmed_end_shorter(text::trimmed_start(s));
}

/// Spaces before a text go.
proof fn lemma_trim_spaces(n: nat, s: Seq<char>)
    requires
        solid(s),
    ensures
        text::trimmed_start(spaces(n) + s) == s,
        text::trimmed(spaces(n) + s) == s,
        text::trimmed_end(spaces(n) + s) == spaces(n) + s,
    decreases n,
{
    let t = spaces(n) + s;
    assert(t.last() == s.last());
    if n > 0 {
        lemma_trim_spaces((n - 1) as nat, s);
        assert(t[0] == ' ');
        assert(t.skip(1) =~= spaces((n - 1) as nat) + s);
    } else {
        assert(t =~= s);
    }
}

pub open spec fn spaces(n: nat) -> Seq<char> {
    Seq::new(n, |i: int| ' ')
}

/// The written form of a value that can be kept, and how it is read.
proof fn lemma_value_kept(s: Seq<char>)
    requires
        keepable(s),
    ensures
        solid(profiles::escaped(s)),
        one_line(profiles::escaped(s)),
        yaml::unquoted(profiles::escaped(s)) == s,
{
    reveal_strlit("\"\"");
    reveal_strlit("\\");
    reveal_strlit("\\\\");
    reveal_strlit("\"");
    reveal_strlit("\\\"");
    reveal_strlit("\r");
    reveal_strlit("\\r");
    reveal_strlit("\n");
    reveal_strlit("\\n");
    assert("\\"@ =~= seq!['\\']);
    assert("\\\\"@ =~= seq!['\\', '\\']);
    assert("\""@ =~= seq!['"']);
    assert("\\\""@ =~= seq!['\\', '"']);
    assert("\r"@ =~= seq!['\r']);
    assert("\n"@ =~= seq!['\n']);
    let e = profiles::escaped(s);
    if s.len() == 0 {
        assert(e[0] == '"' && e.last() == '"');
        assert(e.subrange(1, e.len() - 1) =~= Seq::<char>::empty());
        lemma_undoubled(Seq::<char>::empty());
        assert(yaml::unquoted(e) =~= s);
    } else if profiles::needs_quotes(s) {
        lemma_doubled(s);
        lemma_marked(s);
        lemma_marked_line(s);
        let m = marked(s);
        lemma_replace_absent(m, '\r', "\\r"@);
        lemma_replace_absent(m, '\n', "\\n"@);
        assert(e =~= seq!['"'] + m + seq!['"']);
        assert(e[0] == '"' && e.last() == '"');
        assert(e.subrange(1, e.len() - 1) =~= m);
        lemma_unmarked(s);
        lemma_undoubled(s);
        assert forall|i: int| 0 <= i < e.len() implies (#[trigger] e[i]) != '\n' && e[i]
            != '\r' by {
            if 0 < i < e.len() - 1 {
                assert(e[i] == m[i - 1]);
            }
        }
    } else {
        lemma_solid(s);
        lemma_no_quote(s, '"');
        lemma_no_quote(s, '\'');
    }
}

/// A value that is not written in quotes does not begin with one.
proof fn lemma_no_quote(s: Seq<char>, c: char)
    requires
        s.len() > 0,
        !profiles::needs_quotes(s),
        c == '"' || c == '\'',
    ensures
        s[0] != c,
{
    reveal_strlit("\"");
    reveal_strlit("'");
    if s[0] == c {
        let pat = seq![c];
        assert(s.subrange(0, 1) =~= pat);
        assert("\""@ =~= seq!['"']);
        assert("'"@ =~= seq!['\'']);
        assert(text::occurs(s, pat, 0));
        assert(text::has(s, pat));
    }
}

// ---- lines ----
/// Lines with their ends.
pub open spec fn lined(v: Seq<Seq<char>>) -> Seq<char>
    decreases v.len(),
{
    if v.len() == 0 {
        Seq::empty()
    } else {
        v[0] + seq!['\n'] + lined(v.skip(1))
    }
}

proof fn lemma_lined_add(a: Seq<Seq<char>>, b: Seq<Seq<char>>)
    ensures
        lined(a + b) == lined(a) + lined(b),
    decreases a.len(),
{
    if a.len() == 0 {
        assert(a + b =~= b);
        assert(lined(a) + lined(b) =~= lined(b));
    } else {
        lemma_lined_add(a.skip(1), b);
        assert((a + b).skip(1) =~= a.skip(1) + b);
        assert((a + b)[0] == a[0]);
        assert(lined(a + b) =~= lined(a) + lined(b));
    }
}

/// The lines of lines with their ends are these lines.
proof fn lemma_lines_of_lined(v: Seq<Seq<char>>)
    requires
        forall|i: int| 0 <= i < v.len() ==> one_line(#[trigger] v[i]),
    ensures
        text::pieces(lined(v), seq!['\n']) == v.push(Seq::empty()),
        text::lines_of(lined(v)) == v,
    decreases v.len(),
{
    let seps = seq!['\n'];
    if v.len() == 0 {
        text::lemma_sep_from(lined(v), seps, 0);
        assert(text::pieces(lined(v), seps) =~= v.push(Seq::empty()));
    } else {
        let rest = v.skip(1);
        assert forall|i: int| 0 <= i < rest.len() implies one_line(#[trigger] rest[i]) by {
            assert(rest[i] == v[i + 1]);
        }
        lemma_lines_of_lined(rest);
        let a = v[0];
        assert(one_line(v[0]));
        assert forall|i: int| 0 <= i < a.len() implies !seps.contains(#[trigger] a[i]) by {
            assert(a[i] != '\n');
        }
        assert(seps[0] == '\n');
        assert(seps.contains('\n'));
        text::lemma_pieces_cut(a, '\n', lined(rest), seps);
        assert(seq![a] + rest.push(Seq::empty()) =~= v.push(Seq::empty()));
    }
    let p = text::pieces(lined(v), seps);
    let n = p.len() - 1;
    assert(p[n].len() == 0);
    assert forall|i: int| 0 <= i < n implies text::without_cr(#[trigger] p[i]) == v[i] by {
        assert(p[i] == v[i]);
        assert(one_line(v[i]));
        if v[i].len() > 0 {
            assert(v[i][v[i].len() - 1] != '\r');
        }
    }
    assert(text::lines_of(lined(v)) =~= v);
}

// ---- reading ----
/// What is read of more lines.
pub open spec fn after(r: Reading, v: Seq<Seq<char>>) -> Reading
    decreases v.len(),
{
    if v.len() == 0 {
        r
    } else {
        after(r, v.drop_last()).step(v.last())
    }
}

proof fn lemma_reading_after(v: Seq<Seq<char>>)
    ensures
        profiles::reading_of(v) == after(
            Reading { default: None, done: Seq::empty(), current: None },
            v,
        ),
    decreases v.len(),
{
    if v.len() > 0 {
        lemma_reading_after(v.drop_last());
    }
}

proof fn lemma_after_add(r: Reading, a: Seq<Seq<char>>, b: Seq<Seq<char>>)
    ensures
        after(r, a + b) == after(after(r, a), b),
    decreases b.len(),
{
    if b.len() == 0 {
        assert(a + b =~= a);
    } else {
        lemma_after_add(r, a, b.drop_last());
        assert((a + b).drop_last() =~= a + b.drop_last());
        assert((a + b).last() == b.last());
    }
}

proof fn lemma_after_one(r: Reading, l: Seq<char>)
    ensures
        after(r, seq![l]) == r.step(l),
{
    assert(seq![l].drop_last() =~= Seq::<Seq<char>>::empty());
    assert(after(r, seq![l].drop_last()) == r);
}

/// A `key: value` line of an entry is read as what it says.
proof fn lemma_key_line(r: Reading, key: Seq<char>, v: Seq<char>, shown: Seq<char>)
    requires
        r.current is Some,
        solid(shown),
        yaml::unquoted(shown) == v,
        key.len() > 0,
        forall|i: int| 0 <= i < key.len() ==> 'a' <= #[trigger] key[i] <= 'z',
    ensures
        r.step("    "@ + key + ": "@ + shown) == (Reading {
            current: Some(profiles::entry_set(r.current->0, key, v)),
            ..r
        }),
{
    reveal_strlit("    ");
    reveal_strlit(": ");
    reveal_strlit("default:");
    reveal_strlit("- ");
    reveal_strlit("#");
    let raw = "    "@ + key + ": "@ + shown;
    let body = key + ": "@ + shown;
    assert("    "@ =~= spaces(4));
    assert(raw =~= spaces(4) + body);
    assert(body[0] == key[0]);
    assert(body.last() == shown.last());
    assert(solid(body));
    lemma_trim_spaces(4, body);
    assert(raw[0] == ' ');
    if text::starts(raw, "default:"@) {
        assert(raw.subrange(0, 8)[0] == raw[0]);
    }
    assert(text::after_prefix(raw, "default:"@) is None);
    if text::starts(body, "- "@) {
        assert(body.subrange(0, 2)[0] == body[0]);
    }
    if text::starts(body, "#"@) {
        assert(body.subrange(0, 1)[0] == body[0]);
    }
    assert(text::trimmed_end(raw) == raw);
    let seps = seq![':'];
    text::lemma_sep_from(body, seps, 0);
    assert(body[key.len() as int] == ':');
    assert(seps[0] == ':');
    assert(seps.contains(body[key.len() as int]));
    assert forall|i: int| 0 <= i < key.len() implies !seps.contains(#[trigger] body[i]) by {
        assert(body[i] == key[i]);
        assert('a' <= key[i]);
    }
    assert(text::sep_from(body, seps, 0) == Some(key.len() as int));
    assert(body.take(key.len() as int) =~= key);
    assert(body.skip(key.len() as int + 1) =~= spaces(1) + shown);
    lemma_trim_spaces(1, shown);
    assert(solid(key));
    lemma_trim_spaces(0, key);
    assert(spaces(0) + key =~= key);
}

/// The first line of an entry begins it.
proof fn lemma_name_line(r: Reading, name: Seq<char>)
    requires
        keepable(name),
    ensures
        r.step("  - name: "@ + profiles::escaped(name)) == (Reading {
            default: r.default,
            done: r.all(),
            current: Some(EntryView { name, ..profiles::blank_entry() }),
        }),
{
    reveal_strlit("  - name: ");
    reveal_strlit("default:");
    reveal_strlit("- ");
    reveal_strlit("#");
    reveal_strlit("name:");
    lemma_value_kept(name);
    let shown = profiles::escaped(name);
    let raw = "  - name: "@ + shown;
    let tail = "name:"@ + spaces(1) + shown;
    let body = "- "@ + tail;
    assert(raw =~= spaces(2) + body);
    assert(body[0] == '-');
    assert(body.last() == shown.last());
    assert(solid(body));
    lemma_trim_spaces(2, body);
    if text::starts(raw, "default:"@) {
        assert(raw.subrange(0, 8)[0] == raw[0]);
    }
    if text::starts(body, "#"@) {
        assert(body.subrange(0, 1)[0] == body[0]);
    }
    assert(body.subrange(0, 2) =~= "- "@);
    assert(body.skip(2) =~= tail);
    assert(tail[0] == 'n');
    assert(tail.last() == shown.last());
    assert(solid(tail));
    lemma_trim_spaces(0, tail);
    assert(spaces(0) + tail =~= tail);
    assert(tail.subrange(0, 5) =~= "name:"@);
    assert(tail.skip(5) =~= spaces(1) + shown);
    lemma_trim_spaces(1, shown);
}

/// The line of the default profile.
proof fn lemma_default_line(r: Reading, d: Seq<char>)
    requires
        keepable(d),
    ensures
        r.step("default: "@ + profiles::escaped(d)) == (Reading { default: Some(d), ..r }),
{
    reveal_strlit("default: ");
    reveal_strlit("default:");
    reveal_strlit("#");
    lemma_value_kept(d);
    let shown = profiles::escaped(d);
    let raw = "default: "@ + shown;
    assert(raw[0] == 'd');
    assert(raw.last() == shown.last());
    assert(solid(raw));
    lemma_trim_spaces(0, raw);
    assert(spaces(0) + raw =~= raw);
    if text::starts(raw, "#"@) {
        assert(raw.subrange(0, 1)[0] == raw[0]);
    }
    assert(raw.subrange(0, 8) =~= "default:"@);
    assert(raw.skip(8) =~= spaces(1) + shown);
    lemma_trim_spaces(1, shown);
}

/// The line before the entries says nothing.
proof fn lemma_heading_line(r: Reading)
    requires
        r.current is None,
    ensures
        r.step("profiles:"@) == r,
{
    reveal_strlit("profiles:");
    reveal_strlit("default:");
    reveal_strlit("- ");
    reveal_strlit("#");
    let raw = "profiles:"@;
    assert(solid(raw));
    lemma_trim_spaces(0, raw);
    assert(spaces(0) + raw =~= raw);
    if text::starts(raw, "#"@) {
        assert(raw.subrange(0, 1)[0] == raw[0]);
    }
    if text::starts(raw, "default:"@) {
        assert(raw.subrange(0, 8)[0] == raw[0]);
    }
    if text::starts(raw, "- "@) {
        assert(raw.subrange(0, 2)[0] == raw[0]);
    }
}

/// How a number is written and read.
proof fn lemma_number_kept(n: i64)
    ensures
        solid(text::dec_int(n as int)),
        one_line(text::dec_int(n as int)),
        yaml::unquoted(text::dec_int(n as int)) == text::dec_int(n as int),
        profiles::read_number(text::dec_int(n as int)) == Some(n),
{
    let m: nat = if n < 0 {
        (-n) as nat
    } else {
        n as nat
    };
    text::law_dec_reads_back(m);
    let d = text::dec(m);
    let s = text::dec_int(n as int);
    if n < 0 {
        assert(s.skip(1) =~= d);
        assert(s.last() == d.last());
        assert(text::is_digit(d.last()));
        assert forall|i: int| 0 <= i < s.len() implies (#[trigger] s[i]) != '\n' && s[i]
            != '\r' by {
            if i > 0 {
                assert(s[i] == d[i - 1]);
                assert(text::is_digit(d[i - 1]));
            }
        }
    } else {
        assert(text::is_digit(d[0]));
        assert(text::is_digit(d.last()));
        assert forall|i: int| 0 <= i < s.len() implies (#[trigger] s[i]) != '\n' && s[i]
            != '\r' by {
            assert(text::is_digit(d[i]));
        }
    }
}

// ---- entries ----
/// Whether an entry can be kept: it has a name and a digest, a local one has no
/// address and no quota, and the quota of a subscription is not what is not
/// written.
pub open spec fn entry_keepable(e: EntryView) -> bool {
    &&& e.name.len() > 0
    &&& keepable(e.name)
    &&& profiles::safe_hash(e.hash)
    &&& if e.kind == ProfileKind::Local {
        e.url is None && e.used_bytes is None && e.total_bytes is None && e.expire_unix is None
    } else {
        &&& (e.url is Some ==> keepable(e.url->0))
        &&& (e.total_bytes is Some ==> e.total_bytes->0 > 0)
        &&& (e.expire_unix is Some ==> e.expire_unix->0 > 0)
    }
}

pub open spec fn number_lines(key: Seq<char>, o: Option<i64>) -> Seq<Seq<char>> {
    match o {
        Some(n) => seq!["    "@ + key + ": "@ + text::dec_int(n as int)],
        None => Seq::empty(),
    }
}

pub open spec fn url_lines(o: Option<Seq<char>>) -> Seq<Seq<char>> {
    match o {
        Some(u) => seq!["    "@ + "url"@ + ": "@ + profiles::escaped(u)],
        None => Seq::empty(),
    }
}

pub open spec fn head_lines(e: EntryView) -> Seq<Seq<char>> {
    seq![
        "  - name: "@ + profiles::escaped(e.name),
        "    "@ + "hash"@ + ": "@ + e.hash,
        "    "@ + "type"@ + ": "@ + if e.kind == ProfileKind::Cloud {
            "cloud"@
        } else {
            "local"@
        },
    ]
}

pub open spec fn cloud_lines(e: EntryView) -> Seq<Seq<char>> {
    if e.kind == ProfileKind::Cloud {
        url_lines(e.url) + number_lines("used"@, e.used_bytes) + number_lines(
            "total"@,
            e.total_bytes,
        ) + number_lines("expire"@, e.expire_unix)
    } else {
        Seq::empty()
    }
}

proof fn lemma_hash_solid(h: Seq<char>)
    requires
        profiles::safe_hash(h),
    ensures
        solid(h),
        one_line(h),
        yaml::unquoted(h) == h,
{
    assert(crate::codec::hex_digit(h[0]) is Some);
    assert(crate::codec::hex_digit(h[63]) is Some);
    assert forall|i: int| 0 <= i < h.len() implies (#[trigger] h[i]) != '\n' && h[i] != '\r' by {
        assert(crate::codec::hex_digit(h[i]) is Some);
    }
}

/// The first three lines of an entry.
proof fn lemma_head_read(r: Reading, e: EntryView)
    requires
        entry_keepable(e),
    ensures
        after(r, head_lines(e)) == (Reading {
            default: r.default,
            done: r.all(),
            current: Some(
                EntryView {
                    name: e.name,
                    hash: e.hash,
                    kind: e.kind,
                    ..profiles::blank_entry()
                },
            ),
        }),
{
    reveal_strlit("hash");
    reveal_strlit("type");
    reveal_strlit("name");
    reveal_strlit("cloud");
    reveal_strlit("local");
    let v = head_lines(e);
    let one = v.take(1);
    let two = v.take(2);
    assert(one =~= seq![v[0]]);
    assert(two.drop_last() =~= one);
    assert(v.drop_last() =~= two);
    lemma_after_one(r, v[0]);
    lemma_name_line(r, e.name);
    let r1 = after(r, one);
    lemma_hash_solid(e.hash);
    lemma_key_line(r1, "hash"@, e.hash, e.hash);
    let r2 = after(r, two);
    assert(two.last() == v[1]);
    assert(r2 == r1.step(v[1]));
    let kind = if e.kind == ProfileKind::Cloud {
        "cloud"@
    } else {
        "local"@
    };
    assert(solid(kind));
    lemma_key_line(r2, "type"@, kind, kind);
    assert(v.last() == v[2]);
    assert("name"@[0] == 'n' && "hash"@[0] == 'h' && "type"@[0] == 't');
    if e.kind == ProfileKind::Local {
        assert(text::lowered("local"@)[0] == 'l');
        assert(text::lowered("cloud"@)[0] == 'c');
        assert(!text::same_nocase("local"@, "cloud"@));
    } else {
        assert(text::same_nocase("cloud"@, "cloud"@));
    }
}

/// A line with a number of a subscription.
proof fn lemma_number_read(r: Reading, key: Seq<char>, o: Option<i64>)
    requires
        r.current is Some,
        key.len() > 0,
        forall|i: int| 0 <= i < key.len() ==> 'a' <= #[trigger] key[i] <= 'z',
    ensures
        after(r, number_lines(key, o)) == (match o {
            None => r,
            Some(n) => Reading {
                current: Some(profiles::entry_set(r.current->0, key, text::dec_int(n as int))),
                ..r
            },
        }),
{
    if let Some(n) = o {
        lemma_number_kept(n);
        let s = text::dec_int(n as int);
        lemma_after_one(r, "    "@ + key + ": "@ + s);
        lemma_key_line(r, key, s, s);
    }
}

/// The lines of an entry are read as that entry.
proof fn lemma_entry_read(r: Reading, e: EntryView)
    requires
        entry_keepable(e),
    ensures
        after(r, head_lines(e) + cloud_lines(e)) == (Reading {
            default: r.default,
            done: r.all(),
            current: Some(e),
        }),
{
    lemma_after_add(r, head_lines(e), cloud_lines(e));
    lemma_head_read(r, e);
    let a = after(r, head_lines(e));
    if e.kind == ProfileKind::Cloud {
        reveal_strlit("url");
        reveal_strlit("used");
        reveal_strlit("total");
        reveal_strlit("expire");
        reveal_strlit("name");
        reveal_strlit("hash");
        reveal_strlit("type");
        let u = url_lines(e.url);
        let n1 = number_lines("used"@, e.used_bytes);
        let n2 = number_lines("total"@, e.total_bytes);
        let n3 = number_lines("expire"@, e.expire_unix);
        lemma_after_add(a, u + n1 + n2, n3);
        lemma_after_add(a, u + n1, n2);
        lemma_after_add(a, u, n1);
        let b = after(a, u);
        if e.url is Some {
            lemma_value_kept(e.url->0);
            lemma_after_one(a, u[0]);
            assert(u =~= seq![u[0]]);
            lemma_key_line(a, "url"@, e.url->0, profiles::escaped(e.url->0));
        } else {
            assert(u =~= Seq::<Seq<char>>::empty());
        }
        assert("url"@.len() == 3 && "used"@.len() == 4 && "total"@.len() == 5 && "expire"@.len()
            == 6 && "name"@.len() == 4 && "hash"@.len() == 4 && "type"@.len() == 4);
        assert("used"@[0] == 'u' && "name"@[0] == 'n' && "hash"@[0] == 'h' && "type"@[0] == 't');
        lemma_number_read(b, "used"@, e.used_bytes);
        let c = after(b, n1);
        lemma_number_read(c, "total"@, e.total_bytes);
        let d = after(c, n2);
        lemma_number_read(d, "expire"@, e.expire_unix);
        if e.used_bytes is Some {
            lemma_number_kept(e.used_bytes->0);
        }
        if e.total_bytes is Some {
            lemma_number_kept(e.total_bytes->0);
        }
        if e.expire_unix is Some {
            lemma_number_kept(e.expire_unix->0);
        }
        assert(after(d, n3).current->0 =~= e);
    } else {
        assert(a.current->0 =~= e);
    }
}

/// The text of an entry is that of its lines, and they hold no line ends.
proof fn lemma_entry_text(e: EntryView)
    requires
        entry_keepable(e),
    ensures
        profiles::entry_text(e) == lined(head_lines(e) + cloud_lines(e)),
        forall|i: int|
            0 <= i < (head_lines(e) + cloud_lines(e)).len() ==> one_line(
                #[trigger] (head_lines(e) + cloud_lines(e))[i],
            ),
{
    lemma_texts(e);
    lemma_value_kept(e.name);
    lemma_hash_solid(e.hash);
    let h = head_lines(e);
    let c = cloud_lines(e);
    let all = h + c;
    reveal_strlit("  - name: ");
    reveal_strlit("    ");
    reveal_strlit(": ");
    reveal_strlit("hash");
    reveal_strlit("type");
    reveal_strlit("cloud");
    reveal_strlit("local");
    reveal_strlit("url");
    reveal_strlit("used");
    reveal_strlit("total");
    reveal_strlit("expire");
    if e.url is Some {
        lemma_value_kept_if(e.url->0, e.kind == ProfileKind::Cloud);
    }
    if e.used_bytes is Some {
        lemma_number_kept(e.used_bytes->0);
    }
    if e.total_bytes is Some {
        lemma_number_kept(e.total_bytes->0);
    }
    if e.expire_unix is Some {
        lemma_number_kept(e.expire_unix->0);
    }
    lemma_join_line("  - name: "@, profiles::escaped(e.name));
    lemma_join_line("    "@ + "hash"@ + ": "@, e.hash);
    lemma_join_line(
        "    "@ + "type"@ + ": "@,
        if e.kind == ProfileKind::Cloud {
            "cloud"@
        } else {
            "local"@
        },
    );
    assert forall|i: int| 0 <= i < all.len() implies one_line(#[trigger] all[i]) by {
        if i < 3 {
            assert(all[i] == h[i]);
        } else {
            assert(all[i] == c[i - 3]);
            lemma_cloud_clean(e, i - 3);
        }
    }
}

proof fn lemma_value_kept_if(s: Seq<char>, b: bool)
    requires
        b ==> keepable(s),
    ensures
        b ==> one_line(profiles::escaped(s)),
{
    if b {
        lemma_value_kept(s);
    }
}

proof fn lemma_join_line(a: Seq<char>, b: Seq<char>)
    requires
        one_line(a),
        one_line(b),
    ensures
        one_line(a + b),
{
    let s = a + b;
    assert forall|i: int| 0 <= i < s.len() implies (#[trigger] s[i]) != '\n' && s[i] != '\r' by {
        if i < a.len() {
            assert(s[i] == a[i]);
        } else {
            assert(s[i] == b[i - a.len()]);
        }
    }
}

proof fn lemma_cloud_clean(e: EntryView, i: int)
    requires
        entry_keepable(e),
        0 <= i < cloud_lines(e).len(),
    ensures
        one_line(cloud_lines(e)[i]),
{
    reveal_strlit("    ");
    reveal_strlit(": ");
    reveal_strlit("url");
    reveal_strlit("used");
    reveal_strlit("total");
    reveal_strlit("expire");
    let u = url_lines(e.url);
    let n1 = number_lines("used"@, e.used_bytes);
    let n2 = number_lines("total"@, e.total_bytes);
    let n3 = number_lines("expire"@, e.expire_unix);
    let l = cloud_lines(e)[i];
    if i < u.len() {
        lemma_value_kept(e.url->0);
        lemma_join_line("    "@ + "url"@ + ": "@, profiles::escaped(e.url->0));
        assert(l == u[i]);
    } else if i < u.len() + n1.len() {
        lemma_number_kept(e.used_bytes->0);
        lemma_join_line("    "@ + "used"@ + ": "@, text::dec_int(e.used_bytes->0 as int));
        assert(l == n1[i - u.len()]);
    } else if i < u.len() + n1.len() + n2.len() {
        lemma_number_kept(e.total_bytes->0);
        lemma_join_line("    "@ + "total"@ + ": "@, text::dec_int(e.total_bytes->0 as int));
        assert(l == n2[i - u.len() - n1.len()]);
    } else {
        lemma_number_kept(e.expire_unix->0);
        lemma_join_line("    "@ + "expire"@ + ": "@, text::dec_int(e.expire_unix->0 as int));
        assert(l == n3[i - u.len() - n1.len() - n2.len()]);
    }
}

proof fn lemma_lined_one(l: Seq<char>)
    ensures
        lined(seq![l]) == l + seq!['\n'],
{
    assert(seq![l].skip(1) =~= Seq::<Seq<char>>::empty());
    assert(lined(seq![l].skip(1)) =~= Seq::<char>::empty());
    assert(lined(seq![l]) =~= l + seq!['\n']);
}

proof fn lemma_number_text(label: Seq<char>, key: Seq<char>, o: Option<i64>, positive: bool)
    requires
        label == "    "@ + key + ": "@,
        positive && o is Some ==> o->0 > 0,
    ensures
        profiles::number_line(label, o, positive) == lined(number_lines(key, o)),
{
    reveal_strlit("\n");
    assert("\n"@ =~= seq!['\n']);
    if let Some(n) = o {
        lemma_lined_one("    "@ + key + ": "@ + text::dec_int(n as int));
    }
}

proof fn lemma_texts(e: EntryView)
    requires
        entry_keepable(e),
    ensures
        profiles::entry_text(e) == lined(head_lines(e) + cloud_lines(e)),
{
    reveal_strlit("\n");
    reveal_strlit("    ");
    reveal_strlit(": ");
    reveal_strlit("hash");
    reveal_strlit("type");
    reveal_strlit("url");
    reveal_strlit("used");
    reveal_strlit("total");
    reveal_strlit("expire");
    reveal_strlit("    hash: ");
    reveal_strlit("    type: ");
    reveal_strlit("    url: ");
    reveal_strlit("    used: ");
    reveal_strlit("    total: ");
    reveal_strlit("    expire: ");
    assert("\n"@ =~= seq!['\n']);
    assert("    hash: "@ =~= "    "@ + "hash"@ + ": "@);
    assert("    type: "@ =~= "    "@ + "type"@ + ": "@);
    assert("    url: "@ =~= "    "@ + "url"@ + ": "@);
    assert("    used: "@ =~= "    "@ + "used"@ + ": "@);
    assert("    total: "@ =~= "    "@ + "total"@ + ": "@);
    assert("    expire: "@ =~= "    "@ + "expire"@ + ": "@);
    let h = head_lines(e);
    lemma_lined_add(h, cloud_lines(e));
    lemma_lined_add(seq![h[0], h[1]], seq![h[2]]);
    lemma_lined_add(seq![h[0]], seq![h[1]]);
    assert(seq![h[0], h[1]] + seq![h[2]] =~= h);
    assert(seq![h[0]] + seq![h[1]] =~= seq![h[0], h[1]]);
    lemma_lined_one(h[0]);
    lemma_lined_one(h[1]);
    lemma_lined_one(h[2]);
    if e.kind == ProfileKind::Cloud {
        let u = url_lines(e.url);
        let n1 = number_lines("used"@, e.used_bytes);
        let n2 = number_lines("total"@, e.total_bytes);
        let n3 = number_lines("expire"@, e.expire_unix);
        lemma_lined_add(u + n1 + n2, n3);
        lemma_lined_add(u + n1, n2);
        lemma_lined_add(u, n1);
        if e.url is Some {
            lemma_lined_one("    "@ + "url"@ + ": "@ + profiles::escaped(e.url->0));
        }
        lemma_number_text("    used: "@, "used"@, e.used_bytes, false);
        lemma_number_text("    total: "@, "total"@, e.total_bytes, true);
        lemma_number_text("    expire: "@, "expire"@, e.expire_unix, true);
    }
    assert(profiles::entry_text(e) =~= lined(h) + lined(cloud_lines(e)));
}

// ---- all entries ----
pub open spec fn entry_lines(v: Seq<EntryView>) -> Seq<Seq<char>>
    decreases v.len(),
{
    if v.len() == 0 {
        Seq::empty()
    } else {
        entry_lines(v.drop_last()) + (head_lines(v.last()) + cloud_lines(v.last()))
    }
}

pub open spec fn all_keepable(v: Seq<EntryView>) -> bool {
    forall|i: int| 0 <= i < v.len() ==> entry_keepable(#[trigger] v[i])
}

proof fn lemma_entries(v: Seq<EntryView>, r: Reading)
    requires
        all_keepable(v),
        r.current is None,
        r.done == Seq::<EntryView>::empty(),
    ensures
        profiles::entries_text(v) == lined(entry_lines(v)),
        forall|i: int|
            0 <= i < entry_lines(v).len() ==> one_line(#[trigger] entry_lines(v)[i]),
        after(r, entry_lines(v)).all() == v,
        after(r, entry_lines(v)).default == r.default,
    decreases v.len(),
{
    if v.len() == 0 {
        assert(after(r, entry_lines(v)).all() =~= v);
    } else {
        let p = v.drop_last();
        let e = v.last();
        assert forall|i: int| 0 <= i < p.len() implies entry_keepable(#[trigger] p[i]) by {
            assert(p[i] == v[i]);
        }
        assert(entry_keepable(v[v.len() - 1]));
        lemma_entries(p, r);
        let a = entry_lines(p);
        let b = head_lines(e) + cloud_lines(e);
        lemma_entry_text(e);
        lemma_lined_add(a, b);
        lemma_after_add(r, a, b);
        lemma_entry_read(after(r, a), e);
        assert(p.push(e) =~= v);
        let all = a + b;
        assert forall|i: int| 0 <= i < all.len() implies one_line(#[trigger] all[i]) by {
            if i < a.len() {
                assert(all[i] == a[i]);
            } else {
                assert(all[i] == b[i - a.len()]);
            }
        }
    }
}

/// What is read of the stored form of profiles is what was stored: the profiles in
/// their order with all that is known of them, and the default one.
pub proof fn law_stored_profiles_are_read(v: Seq<EntryView>, default: Option<Seq<char>>)
    requires
        all_keepable(v),
        default is Some ==> keepable(default->0),
    ensures
        profiles::loaded_entries(profiles::store_text(v, default)) == v,
        profiles::loaded_default(profiles::store_text(v, default)) == (match default {
            Some(d) => Some(d),
            None => if v.len() > 0 {
                Some(v[0].name)
            } else {
                None
            },
        }),
{
    reveal_strlit("\n");
    reveal_strlit("profiles:\n");
    reveal_strlit("profiles:");
    reveal_strlit("default: ");
    assert("\n"@ =~= seq!['\n']);
    let start = Reading { default: None, done: Seq::empty(), current: None };
    let first: Seq<Seq<char>> = match default {
        Some(d) => seq!["default: "@ + profiles::escaped(d)],
        None => Seq::empty(),
    };
    let mid = seq!["profiles:"@];
    let lines = first + mid + entry_lines(v);
    let r1 = after(start, first);
    if let Some(d) = default {
        lemma_value_kept(d);
        lemma_after_one(start, first[0]);
        lemma_default_line(start, d);
        lemma_lined_one(first[0]);
        lemma_join_line("default: "@, profiles::escaped(d));
    }
    let r2 = after(r1, mid);
    lemma_after_one(r1, "profiles:"@);
    lemma_heading_line(r1);
    lemma_entries(v, r2);
    lemma_after_add(start, first + mid, entry_lines(v));
    lemma_after_add(start, first, mid);
    lemma_lined_add(first + mid, entry_lines(v));
    lemma_lined_add(first, mid);
    lemma_lined_one("profiles:"@);
    assert("profiles:\n"@ =~= "profiles:"@ + seq!['\n']);
    assert(profiles::store_text(v, default) =~= lined(lines));
    assert forall|i: int| 0 <= i < lines.len() implies one_line(#[trigger] lines[i]) by {
        if i < first.len() {
            assert(lines[i] == first[i]);
        } else if i == first.len() {
            assert(lines[i] == "profiles:"@);
        } else {
            assert(lines[i] == entry_lines(v)[i - first.len() - 1]);
        }
    }
    lemma_lines_of_lined(lines);
    lemma_reading_after(lines);
    let got = profiles::reading_of(lines);
    assert(got.all() == v);
    assert forall|i: int| 0 <= i < v.len() implies profiles::local_cleared(#[trigger] v[i])
        == v[i] by {
        assert(entry_keepable(v[i]));
        assert(profiles::local_cleared(v[i]) =~= v[i]);
    }
    assert(profiles::all_cleared(got.all()) =~= v);
}

} // verus!
