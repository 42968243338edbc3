//! The nodes of a subscription, whatever its format.

use vstd::prelude::*;

use crate::codec;
use crate::config::node;
use crate::config::node::{NodeView, ProxyNode};
use crate::config::outbounds;
use crate::config::share_link;
use crate::config::yaml;
use crate::json;
use crate::text;

verus! {

/// The pieces that are not empty.
pub open spec fn nonempty(v: Seq<Seq<char>>) -> Seq<Seq<char>> {
    v.filter(|s: Seq<char>| s.len() > 0)
}

/// The links of one line: several where white space separates them.
pub open spec fn line_links(line: Seq<char>) -> Seq<Seq<char>> {
    if text::has(line, "://"@) && (text::has(line, " "@) || text::has(line, "\t"@)) {
        nonempty(text::pieces(line, " \t"@))
    } else {
        seq![line]
    }
}

/// The nodes of the links that have one.
pub open spec fn link_nodes(v: Seq<Seq<char>>) -> Seq<NodeView>
    decreases v.len(),
{
    if v.len() == 0 {
        Seq::empty()
    } else {
        let head = link_nodes(v.drop_last());
        match share_link::link_node(v.last()) {
            Some(n) => head.push(n),
            None => head,
        }
    }
}

/// The nodes of the first lines of a list of links; blank lines and comments
/// hold none.
pub open spec fn list_nodes(lines: Seq<Seq<char>>) -> Seq<NodeView>
    decreases lines.len(),
{
    if lines.len() == 0 {
        Seq::empty()
    } else {
        let line = text::trimmed(lines.last());
        let head = list_nodes(lines.drop_last());
        if line.len() == 0 || text::starts(line, "#"@) {
            head
        } else {
            head + link_nodes(line_links(line))
        }
    }
}

fn split_links<'a>(line: &'a [char]) -> (r: Vec<&'a [char]>)
    ensures
        text::texts(r@) == line_links(line@),
{
    let mut r: Vec<&'a [char]> = Vec::new();
    if text::contains(line, "://") && (text::contains(line, " ") || text::contains(line, "\t")) {
        let parts = text::split(line, " \t");
        let ghost ps = text::texts(parts@);
        let ghost keep = |s: Seq<char>| s.len() > 0;
        let mut i: usize = 0;
        proof {
            reveal(Seq::filter);
            assert(text::texts(r@) =~= ps.take(0).filter(keep));
        }
        while i < parts.len()
            invariant
                i <= parts@.len(),
                ps == text::texts(parts@),
                keep == (|s: Seq<char>| s.len() > 0),
                text::texts(r@) == ps.take(i as int).filter(keep),
            decreases parts@.len() - i,
        {
            let ghost before = text::texts(r@);
            proof {
                assert(ps.take(i + 1).drop_last() =~= ps.take(i as int));
                assert(ps.take(i + 1).last() == parts@[i as int]@);
                reveal(Seq::filter);
            }
            if parts[i].len() > 0 {
                r.push(parts[i]);
                proof {
                    assert(text::texts(r@) =~= before.push(parts@[i as int]@));
                }
            }
            i += 1;
        }
        proof {
            assert(ps.take(i as int) =~= ps);
        }
    } else {
        r.push(line);
        proof {
            assert(text::texts(r@) =~= seq![line@]);
        }
    }
    r
}

pub fn parse_uri_list(s: &[char]) -> (r: Vec<ProxyNode>)
    ensures
        node::node_views(r@) == list_nodes(text::pieces(s@, "\r\n"@)),
{
    let lines = text::split(s, "\r\n");
    let ghost ls = text::texts(lines@);
    let mut nodes: Vec<ProxyNode> = Vec::new();
    let mut i: usize = 0;
    assert(node::node_views(nodes@) =~= list_nodes(ls.take(0)));
    while i < lines.len()
        invariant
            i <= lines@.len(),
            ls == text::texts(lines@),
            node::node_views(nodes@) == list_nodes(ls.take(i as int)),
        decreases lines@.len() - i,
    {
        proof {
            assert(ls.take(i + 1).drop_last() =~= ls.take(i as int));
            assert(ls.take(i + 1).last() == lines@[i as int]@);
        }
        let line = text::trim(lines[i]);
        if line.len() > 0 && !text::starts_with(line, "#") {
            let parts = split_links(line);
            let ghost ps = text::texts(parts@);
            let ghost before = node::node_views(nodes@);
            let mut j: usize = 0;
            assert(node::node_views(nodes@) =~= before + link_nodes(ps.take(0)));
            while j < parts.len()
                invariant
                    j <= parts@.len(),
                    ps == text::texts(parts@),
                    node::node_views(nodes@) == before + link_nodes(ps.take(j as int)),
                decreases parts@.len() - j,
            {
                let ghost here = node::node_views(nodes@);
                proof {
                    assert(ps.take(j + 1).drop_last() =~= ps.take(j as int));
                    assert(ps.take(j + 1).last() == parts@[j as int]@);
                }
                let p = text::string_of(parts[j]);
                if let Some(n) = share_link::parse_share_link(p.as_str()) {
                    nodes.push(n);
                    proof {
                        assert(node::node_views(nodes@) =~= here.push(n@));
                        assert(here.push(n@) =~= before + link_nodes(ps.take(j as int)).push(n@));
                    }
                }
                j += 1;
            }
            assert(ps.take(j as int) =~= ps);
        }
        i += 1;
    }
    assert(ls.take(i as int) =~= ls);
    nodes
}

/// A line that may be a share link.
pub open spec fn uri_line(l: Seq<char>) -> bool {
    let t = text::trimmed(l);
    t.len() > 0 && !text::starts(t, "#"@) && text::has(t, "://"@)
}

pub open spec fn is_uri_list(s: Seq<char>) -> bool {
    exists|i: int|
        0 <= i < text::pieces(s, "\r\n"@).len() && uri_line(#[trigger] text::pieces(s, "\r\n"@)[i])
}

pub fn looks_like_uri_list(s: &[char]) -> (r: bool)
    ensures
        r == is_uri_list(s@),
{
    let lines = text::split(s, "\r\n");
    let ghost ls = text::texts(lines@);
    let mut i: usize = 0;
    while i < lines.len()
        invariant
            i <= lines@.len(),
            ls == text::texts(lines@),
            ls == text::pieces(s@, "\r\n"@),
            forall|j: int| 0 <= j < i ==> !uri_line(#[trigger] ls[j]),
        decreases lines@.len() - i,
    {
        let t = text::trim(lines[i]);
        if t.len() > 0 && !text::starts_with(t, "#") && text::contains(t, "://") {
            assert(uri_line(ls[i as int]));
            return true;
        }
        i += 1;
    }
    false
}

/// A decoded text that looks like a subscription.
pub open spec fn plausible(s: Seq<char>) -> bool {
    text::has(s, "://"@) || text::has(s, "proxies:"@) || text::starts(text::trimmed_start(s), "{"@)
}

/// The text inside a Base64 text: in the standard alphabet it has to look like
/// a subscription; in the URL safe one it may be anything but empty.
pub open spec fn base64_content(s: Seq<char>) -> Option<Seq<char>> {
    let c = text::compacted(s);
    if vstd::utf8::encode_utf8(c).len() < 16 {
        None
    } else {
        let a = share_link::utf8_text(share_link::base64_bytes(c));
        if a is Some && plausible(a->0) {
            a
        } else {
            let b = share_link::utf8_text(
                share_link::base64_bytes(share_link::standard_alphabet(c)),
            );
            if b is Some && b->0.len() > 0 {
                b
            } else {
                None
            }
        }
    }
}

fn looks_plausible(s: &[char]) -> (r: bool)
    ensures
        r == plausible(s@),
{
    text::contains(s, "://") || text::contains(s, "proxies:") || text::starts_with(
        text::trim_start(s),
        "{",
    )
}

pub fn try_decode_b64(s: &[char]) -> (r: Option<String>)
    ensures
        text::opt_view(r) == base64_content(s@),
{
    let compact = text::compact(s);
    let t = text::string_of(compact.as_slice());
    if t.as_str().as_bytes().len() < 16 {
        return None;
    }
    if let Some(d) = share_link::string_of_bytes(share_link::decode_padded(compact.as_slice())) {
        let c = text::chars_of(d.as_str());
        if looks_plausible(c.as_slice()) {
            return Some(d);
        }
    }
    let alt = share_link::to_standard_alphabet(compact.as_slice());
    match share_link::string_of_bytes(share_link::decode_padded(alt.as_slice())) {
        Some(d) => if d.as_str().is_empty() {
            None
        } else {
            Some(d)
        },
        None => None,
    }
}

/// The nodes of a text that is not in Base64: YAML where it has a `proxies`
/// section, else JSON, else a list of links. Nothing where none of them fits.
pub open spec fn plain_nodes(text: Seq<char>) -> Option<Seq<NodeView>> {
    let t = text::trimmed_start(text);
    let doc = outbounds::document_nodes(json::json_value(t));
    if text::has(text, "proxies:"@) {
        Some(node::kept(yaml::yaml_nodes(text)))
    } else if (text::starts(t, "{"@) || text::starts(t, "["@)) && doc.len() > 0 {
        Some(doc)
    } else if is_uri_list(text) {
        Some(node::kept(list_nodes(text::pieces(text, "\r\n"@))))
    } else {
        None
    }
}

/// A text without surrounding white space and byte order marks.
pub open spec fn stripped(s: Seq<char>) -> Seq<char> {
    text::without_prefixes(text::trimmed(s), "\u{feff}"@)
}

/// The nodes of a text; one in Base64 is looked into once.
pub open spec fn text_nodes(s: Seq<char>) -> Seq<NodeView> {
    let t = stripped(s);
    if t.len() == 0 {
        Seq::empty()
    } else {
        match plain_nodes(t) {
            Some(n) => n,
            None => match base64_content(t) {
                None => Seq::empty(),
                Some(d) => {
                    let inner = if stripped(d).len() == 0 {
                        None
                    } else {
                        plain_nodes(stripped(d))
                    };
                    if inner is Some && inner->0.len() > 0 {
                        inner->0
                    } else if is_uri_list(d) {
                        node::kept(list_nodes(text::pieces(d, "\r\n"@)))
                    } else if text::has(d, "proxies:"@) {
                        node::kept(yaml::yaml_nodes(d))
                    } else {
                        Seq::empty()
                    }
                },
            },
        }
    }
}

fn read_plain(t: &[char]) -> (r: Option<Vec<ProxyNode>>)
    ensures
        (match r {
            Some(v) => Some(node::node_views(v@)),
            None => None,
        }) == plain_nodes(t@),
{
    if text::contains(t, "proxies:") {
        let s = text::string_of(t);
        return Some(node::filter_all(yaml::load_proxies_yaml(s.as_str())));
    }
    let trimmed = text::trim_start(t);
    if text::starts_with(trimmed, "{") || text::starts_with(trimmed, "[") {
        let s = text::string_of(trimmed);
        let from_json = outbounds::try_parse_json(s.as_str());
        assert(node::node_views(from_json@).len() == from_json@.len());
        if from_json.len() > 0 {
            return Some(from_json);
        }
    }
    if looks_like_uri_list(t) {
        return Some(node::filter_all(parse_uri_list(t)));
    }
    None
}

fn strip<'a>(s: &'a [char]) -> (r: &'a [char])
    ensures
        r@ == stripped(s@),
{
    text::trim_start_matches(text::trim(s), "\u{feff}")
}

fn no_nodes() -> (r: Vec<ProxyNode>)
    ensures
        node::node_views(r@) == Seq::<NodeView>::empty(),
{
    let r: Vec<ProxyNode> = Vec::new();
    assert(node::node_views(r@) =~= Seq::<NodeView>::empty());
    r
}

pub fn parse_text(s: &[char]) -> (r: Vec<ProxyNode>)
    ensures
        node::node_views(r@) == text_nodes(s@),
{
    let t = strip(s);
    if t.len() == 0 {
        return no_nodes();
    }
    if let Some(n) = read_plain(t) {
        return n;
    }
    match try_decode_b64(t) {
        None => no_nodes(),
        Some(d) => {
            let c = text::chars_of(d.as_str());
            let inner = strip(c.as_slice());
            if inner.len() > 0 {
                if let Some(n) = read_plain(inner) {
                    assert(node::node_views(n@).len() == n@.len());
                    if n.len() > 0 {
                        return n;
                    }
                }
            }
            if looks_like_uri_list(c.as_slice()) {
                return node::filter_all(parse_uri_list(c.as_slice()));
            }
            if text::contains(c.as_slice(), "proxies:") {
                return node::filter_all(yaml::load_proxies_yaml(d.as_str()));
            }
            no_nodes()
        },
    }
}

/// Bytes behind a UTF-8 byte order mark.
pub open spec fn without_mark(raw: Seq<u8>) -> Seq<u8> {
    if raw.len() >= 3 && raw[0] == 0xEF && raw[1] == 0xBB && raw[2] == 0xBF {
        raw.skip(3)
    } else {
        raw
    }
}

fn decode_utf8(raw: &[u8]) -> (r: String)
    ensures
        r@ == codec::utf8_text(without_mark(raw@)),
{
    let n: usize = raw.len();
    if n >= 3 && raw[0] == 0xEF && raw[1] == 0xBB && raw[2] == 0xBF {
        let rest = &raw[3..n];
        assert(rest@ =~= raw@.skip(3));
        codec::utf8_lossy(rest)
    } else {
        codec::utf8_lossy(raw)
    }
}

/// Reads the nodes of a subscription.
pub struct NodeCatalog;

impl NodeCatalog {
    pub fn parse(raw: &[u8]) -> (r: Vec<ProxyNode>)
        ensures
            node::node_views(r@) == text_nodes(codec::utf8_text(without_mark(raw@))),
    {
        let s = decode_utf8(raw);
        let c = text::chars_of(s.as_str());
        parse_text(c.as_slice())
    }
}

/// Every node of links is of a known type.
proof fn lemma_links_known(v: Seq<Seq<char>>)
    ensures
        node::all_known(link_nodes(v)),
    decreases v.len(),
{
    if v.len() > 0 {
        lemma_links_known(v.drop_last());
    }
}

proof fn lemma_list_known(lines: Seq<Seq<char>>)
    ensures
        node::all_known(list_nodes(lines)),
    decreases lines.len(),
{
    if lines.len() > 0 {
        lemma_list_known(lines.drop_last());
        lemma_links_known(line_links(text::trimmed(lines.last())));
    }
}

/// Whether a node can be dialled as it stands: it is accepted, of a type that has an
/// outbound, and its transport is in normal form.
pub open spec fn ready(n: NodeView) -> bool {
    &&& node::accepted(n)
    &&& node::known_type(n.kind)
    &&& n.network == "tcp"@ || n.network == "ws"@ || n.network == "httpupgrade"@
}

/// Every node of a subscription, whatever its format, can be dialled as it stands.
pub proof fn law_parsed_nodes(s: Seq<char>, i: int)
    requires
        0 <= i < text_nodes(s).len(),
    ensures
        ready(text_nodes(s)[i]),
{
    let t = stripped(s);
    match plain_nodes(t) {
        Some(n) => {
            lemma_plain_nodes(t, i);
        },
        None => {
            let d = base64_content(t)->0;
            if stripped(d).len() > 0 && plain_nodes(stripped(d)) is Some && plain_nodes(
                stripped(d),
            )->0.len() > 0 {
                lemma_plain_nodes(stripped(d), i);
            } else if is_uri_list(d) {
                lemma_list_known(text::pieces(d, "\r\n"@));
                node::law_kept_nodes(list_nodes(text::pieces(d, "\r\n"@)), i);
            } else {
                yaml::lemma_yaml_known(d);
                node::law_kept_nodes(yaml::yaml_nodes(d), i);
            }
        },
    }
}

proof fn lemma_plain_nodes(t: Seq<char>, i: int)
    requires
        plain_nodes(t) is Some,
        0 <= i < plain_nodes(t)->0.len(),
    ensures
        ready(plain_nodes(t)->0[i]),
{
    let head = text::trimmed_start(t);
    let doc = outbounds::document_nodes(json::json_value(head));
    if text::has(t, "proxies:"@) {
        yaml::lemma_yaml_known(t);
        node::law_kept_nodes(yaml::yaml_nodes(t), i);
    } else if (text::starts(head, "{"@) || text::starts(head, "["@)) && doc.len() > 0 {
        let d = json::json_value(head)->0;
        match json::list_at(d, "outbounds"@) {
            Some(obs) => {
                outbounds::lemma_mapped_known(obs, false);
                node::law_kept_nodes(outbounds::mapped(obs, false), i);
            },
            None => {
                let v = json::list_at(d, "servers"@)->0;
                outbounds::lemma_mapped_known(v, true);
                node::law_kept_nodes(outbounds::mapped(v, true), i);
            },
        }
    } else {
        lemma_list_known(text::pieces(t, "\r\n"@));
        node::law_kept_nodes(list_nodes(text::pieces(t, "\r\n"@)), i);
    }
}

// ---- laws ----
/// A line of a list that is one link adds the node of that link behind those of the lines
/// before it; a comment and a blank line add none.
pub proof fn law_lines_add_nodes(lines: Seq<Seq<char>>, line: Seq<char>, w: Seq<char>)
    requires
        line.len() > 0,
        forall|i: int| 0 <= i < line.len() ==> !text::is_white(#[trigger] line[i]),
        forall|i: int| 0 <= i < w.len() ==> text::is_white(#[trigger] w[i]),
    ensures
        line[0] != '#' && share_link::link_node(line) is Some ==> list_nodes(lines.push(line))
            == list_nodes(lines).push(share_link::link_node(line)->0),
        line[0] != '#' && share_link::link_node(line) is None ==> list_nodes(lines.push(line))
            == list_nodes(lines),
        list_nodes(lines.push(seq!['#'] + line)) == list_nodes(lines),
        list_nodes(lines.push(w)) == list_nodes(lines),
        list_nodes(lines.push(line + w)) == list_nodes(lines.push(line)),
{
    reveal_strlit("#");
    let h = "#"@;
    let e = Seq::<char>::empty();
    assert(lines.push(line).drop_last() =~= lines);
    assert(lines.push(w).drop_last() =~= lines);
    assert(lines.push(seq!['#'] + line).drop_last() =~= lines);
    assert(lines.push(line + w).drop_last() =~= lines);
    assert(!text::is_white(line.last()));
    text::law_trim(e, line, e);
    text::law_trim(e, line, w);
    assert(e + line + w =~= line + w);
    text::law_trim(w, e, e);
    assert(w + e + e =~= w);
    let c = seq!['#'] + line;
    assert(c.last() == line.last() && c[0] == '#');
    text::law_trim(e, c, e);
    assert(c.subrange(0, 1) =~= h);
    assert(text::starts(c, h));
    if line[0] != '#' {
        assert(!text::starts(line, h)) by {
            if text::starts(line, h) {
                assert(line.subrange(0, 1)[0] == line[0]);
                assert(h[0] == '#');
            }
        }
        lemma_one_link(line);
        let one = seq![line];
        assert(one.drop_last() =~= Seq::empty());
        let none = Seq::<Seq<char>>::empty();
        assert(link_nodes(none).len() == 0);
        match share_link::link_node(line) {
            Some(n) => {
                assert(link_nodes(one) =~= seq![n]);
                assert(list_nodes(lines) + seq![n] =~= list_nodes(lines).push(n));
            },
            None => {
                assert(link_nodes(one) =~= Seq::empty());
                assert(list_nodes(lines) + link_nodes(one) =~= list_nodes(lines));
            },
        }
    }
}

proof fn lemma_one_link(line: Seq<char>)
    requires
        forall|i: int| 0 <= i < line.len() ==> !text::is_white(#[trigger] line[i]),
    ensures
        line_links(line) == seq![line],
{
    reveal_strlit(" ");
    reveal_strlit("\t");
    text::lemma_found_from(line, " "@, 0);
    text::lemma_found_from(line, "\t"@, 0);
    assert forall|k: int| 0 <= k implies !text::occurs(line, " "@, k) && !text::occurs(
        line,
        "\t"@,
        k,
    ) by {
        if text::occurs(line, " "@, k) {
            assert(line.subrange(k, k + 1)[0] == line[k]);
            assert(" "@[0] == ' ');
        }
        if text::occurs(line, "\t"@, k) {
            assert(line.subrange(k, k + 1)[0] == line[k]);
            assert("\t"@[0] == '\t');
        }
    }
}

/// A text in Base64 has the nodes of the text inside it.
pub proof fn law_base64_is_looked_into(s: Seq<char>, d: Seq<char>)
    requires
        stripped(s).len() > 0,
        plain_nodes(stripped(s)) is None,
        base64_content(stripped(s)) == Some(d),
        stripped(d).len() > 0,
        plain_nodes(stripped(d)) is Some,
        plain_nodes(stripped(d))->0.len() > 0,
    ensures
        text_nodes(s) == text_nodes(d),
{
}

/// The format of a text is told by what it holds: the word `proxies:` makes it YAML, a
/// brace or a bracket in front of it JSON where a node comes of it, and else a line with a
/// scheme makes it a list of links.
pub proof fn law_formats(t: Seq<char>)
    ensures
        text::has(t, "proxies:"@) ==> plain_nodes(t) == Some(node::kept(yaml::yaml_nodes(t))),
        !text::has(t, "proxies:"@) && t.len() > 0 && (t[0] == '{' || t[0] == '[')
            && outbounds::document_nodes(json::json_value(t)).len() > 0 ==> plain_nodes(t) == Some(
            outbounds::document_nodes(json::json_value(t)),
        ),
        !text::has(t, "proxies:"@) && t.len() > 0 && t[0] != '{' && t[0] != '[' && !text::is_white(
            t[0],
        ) && is_uri_list(t) ==> plain_nodes(t) == Some(
            node::kept(list_nodes(text::pieces(t, "\r\n"@))),
        ),
        !text::has(t, "proxies:"@) && t.len() > 0 && t[0] != '{' && t[0] != '[' && !text::is_white(
            t[0],
        ) && !is_uri_list(t) ==> plain_nodes(t) is None,
{
    reveal_strlit("{");
    reveal_strlit("[");
    if t.len() > 0 {
        assert("{"@[0] == '{' && "["@[0] == '[');
        if t[0] == '{' {
            assert(t.subrange(0, 1) =~= "{"@);
        }
        if t[0] == '[' {
            assert(t.subrange(0, 1) =~= "["@);
        }
        assert(t.subrange(0, 1)[0] == t[0]);
    }
}

/// The mark of the byte order in front of a text does not belong to it.
pub proof fn law_mark_is_dropped(b: Seq<u8>)
    ensures
        without_mark(seq![0xEFu8, 0xBBu8, 0xBFu8] + b) == b,
        b.len() > 0 && b[0] != 0xEF ==> without_mark(b) == b,
{
    assert((seq![0xEFu8, 0xBBu8, 0xBFu8] + b).skip(3) =~= b);
}

/// A line that may be a link has a scheme and is no comment.
pub proof fn law_line_that_may_be_a_link(a: Seq<char>, b: Seq<char>)
    requires
        a.len() > 0,
        b.len() > 0,
        !text::is_white(a[0]),
        !text::is_white(b.last()),
    ensures
        a[0] != '#' ==> uri_line(a + seq![':', '/', '/'] + b),
        !uri_line(seq!['#'] + a + seq![':', '/', '/'] + b),
        !uri_line(Seq::empty()),
{
    reveal_strlit("#");
    reveal_strlit("://");
    let e = Seq::<char>::empty();
    let s = a + seq![':', '/', '/'] + b;
    let c = seq!['#'] + a + seq![':', '/', '/'] + b;
    assert(s[0] == a[0] && s.last() == b.last() && c[0] == '#' && c.last() == b.last());
    text::law_trim(e, s, e);
    text::law_trim(e, c, e);
    text::law_trim(e, e, e);
    let n = a.len() as int;
    assert(s.subrange(n, n + 3) =~= "://"@);
    text::law_first_is_found(s, "://"@, n);
    assert(c.subrange(0, 1) =~= "#"@);
    if a[0] != '#' && text::starts(s, "#"@) {
        assert(s.subrange(0, 1)[0] == s[0]);
        assert("#"@[0] == '#');
    }
}

} // verus!
