//! What a subscription's answer says of itself.

use vstd::prelude::*;

use crate::codec;
use crate::config::link;
use crate::config::link::{Link, LinkView};
use crate::config::profiles::SubscriptionUserInfo;
use crate::text;

verus! {

// ---- quota ----
/// The `key=value` fields of a quota line, without spaces.
pub open spec fn info_fields(raw: Seq<char>) -> Seq<(Seq<char>, Seq<char>)> {
    fields_of(text::pieces(text::replaced(raw, " "@, ""@), ";"@))
}

pub open spec fn fields_of(parts: Seq<Seq<char>>) -> Seq<(Seq<char>, Seq<char>)>
    decreases parts.len(),
{
    if parts.len() == 0 {
        Seq::empty()
    } else {
        let head = fields_of(parts.drop_last());
        match text::cut(parts.last(), '=') {
            Some(p) => head.push(p),
            None => head,
        }
    }
}

pub open spec fn field_views(v: Seq<(String, String)>) -> Seq<(Seq<char>, Seq<char>)> {
    Seq::new(v.len(), |i: int| (v[i].0@, v[i].1@))
}

/// The fields of a quota line, in order.
pub fn userinfo_fields(raw: &str) -> (r: Vec<(String, String)>)
    ensures
        field_views(r@) == info_fields(raw@),
{
    let c = text::chars_of(raw);
    let c = text::replace(c.as_slice(), " ", "");
    let parts = text::split(c.as_slice(), ";");
    let ghost ps = text::texts(parts@);
    let mut r: Vec<(String, String)> = Vec::new();
    let mut i: usize = 0;
    assert(field_views(r@) =~= fields_of(ps.take(0)));
    while i < parts.len()
        invariant
            i <= parts@.len(),
            ps == text::texts(parts@),
            field_views(r@) == fields_of(ps.take(i as int)),
        decreases parts@.len() - i,
    {
        let ghost before = field_views(r@);
        proof {
            assert(ps.take(i + 1).drop_last() =~= ps.take(i as int));
            assert(ps.take(i + 1).last() == parts@[i as int]@);
        }
        if let Some((k, v)) = text::split_once(parts[i], '=') {
            r.push((text::string_of(k), text::string_of(v)));
            assert(field_views(r@) =~= before.push((k@, v@)));
        }
        i += 1;
    }
    assert(ps.take(i as int) =~= ps);
    r
}

/// The number of field `i`: its value as an integer, else its value as a
/// fraction, cut to an integer, which the caller has read.
pub open spec fn field_number(
    f: Seq<(Seq<char>, Seq<char>)>,
    fractions: Seq<Option<i64>>,
    i: int,
) -> Option<i64> {
    match text::signed_value(f[i].1) {
        Some(n) => Some(n as i64),
        None => if i < fractions.len() {
            fractions[i]
        } else {
            None
        },
    }
}

/// The number that the last of the first `n` fields with a key, and with a
/// number, gives it.
pub open spec fn info_value(
    f: Seq<(Seq<char>, Seq<char>)>,
    fractions: Seq<Option<i64>>,
    key: Seq<char>,
    n: int,
) -> Option<i64>
    decreases n,
{
    if n <= 0 {
        None
    } else if text::lowered(text::trimmed(f[n - 1].0)) == key && field_number(
        f,
        fractions,
        n - 1,
    ) is Some {
        field_number(f, fractions, n - 1)
    } else {
        info_value(f, fractions, key, n - 1)
    }
}

/// The quota of a line, if it says anything.
pub open spec fn info_of(
    raw: Seq<char>,
    fractions: Seq<Option<i64>>,
) -> Option<SubscriptionUserInfo> {
    let f = info_fields(raw);
    let n = f.len() as int;
    let i = SubscriptionUserInfo {
        upload: info_value(f, fractions, "upload"@, n),
        download: info_value(f, fractions, "download"@, n),
        total: info_value(f, fractions, "total"@, n),
        expire_unix: info_value(f, fractions, "expire"@, n),
    };
    if text::trimmed(raw).len() == 0 || (i.upload is None && i.download is None && i.total is None
        && i.expire_unix is None) {
        None
    } else {
        Some(i)
    }
}

/// Reads a quota line. `fractions` holds, for each of its fields, the value
/// read as a fraction and cut to an integer, where it can be read so.
pub fn parse_userinfo_string(raw: &str, fractions: &[Option<i64>]) -> (r: Option<
    SubscriptionUserInfo,
>)
    ensures
        r == info_of(raw@, fractions@),
{
    let c = text::chars_of(raw);
    if text::trim(c.as_slice()).len() == 0 {
        return None;
    }
    let fields = userinfo_fields(raw);
    let ghost f = field_views(fields@);
    let mut upload: Option<i64> = None;
    let mut download: Option<i64> = None;
    let mut total: Option<i64> = None;
    let mut expire: Option<i64> = None;
    let mut i: usize = 0;
    proof {
        reveal_strlit("upload");
        reveal_strlit("download");
        reveal_strlit("total");
        reveal_strlit("expire");
        assert("upload"@.len() == 6 && "expire"@.len() == 6 && "download"@.len() == 8
            && "total"@.len() == 5);
        assert("upload"@[0] != "expire"@[0]);
    }
    while i < fields.len()
        invariant
            i <= fields@.len(),
            f == field_views(fields@),
            "upload"@.len() == 6 && "expire"@.len() == 6 && "download"@.len() == 8
                && "total"@.len() == 5,
            "upload"@[0] != "expire"@[0],
            upload == info_value(f, fractions@, "upload"@, i as int),
            download == info_value(f, fractions@, "download"@, i as int),
            total == info_value(f, fractions@, "total"@, i as int),
            expire == info_value(f, fractions@, "expire"@, i as int),
        decreases fields@.len() - i,
    {
        let v = text::chars_of(fields[i].1.as_str());
        let n: Option<i64> = match text::parse_i64(v.as_slice()) {
            Some(n) => Some(n),
            None => if i < fractions.len() {
                fractions[i]
            } else {
                None
            },
        };
        assert(n == field_number(f, fractions@, i as int));
        let k = text::chars_of(fields[i].0.as_str());
        let k = text::lower(text::trim(k.as_slice()));
        if n.is_some() {
            if text::is(k.as_slice(), "upload") {
                upload = n;
            } else if text::is(k.as_slice(), "download") {
                download = n;
            } else if text::is(k.as_slice(), "total") {
                total = n;
            } else if text::is(k.as_slice(), "expire") {
                expire = n;
            }
        }
        i += 1;
    }
    if upload.is_none() && download.is_none() && total.is_none() && expire.is_none() {
        return None;
    }
    Some(SubscriptionUserInfo { upload, download, total, expire_unix: expire })
}

/// The quota line among the first lines of a body, from line `i` on.
pub open spec fn info_line_from(lines: Seq<Seq<char>>, i: int) -> Option<Seq<char>>
    decreases lines.len() - i,
{
    if i >= lines.len() || i >= 12 {
        None
    } else {
        let l = text::trimmed(lines[i]);
        match text::after_prefix(l, "#subscription-userinfo:"@) {
            Some(r) => Some(text::trimmed(r)),
            None => match text::after_prefix(l, "# subscription-userinfo:"@) {
                Some(r) => Some(text::trimmed(r)),
                None => info_line_from(lines, i + 1),
            },
        }
    }
}

/// The quota line that stands as a comment among the first lines of a body.
pub fn parse_userinfo_body(body: &[u8]) -> (r: Option<String>)
    ensures
        text::opt_view(r) == info_line_from(text::lines_of(codec::utf8_text(body@)), 0),
{
    let s = codec::utf8_lossy(body);
    userinfo_line(s.as_str())
}

/// The quota line among the first lines of a text.
pub fn userinfo_line(s: &str) -> (r: Option<String>)
    ensures
        text::opt_view(r) == info_line_from(text::lines_of(s@), 0),
{
    let c = text::chars_of(s);
    let lines = text::lines(c.as_slice());
    let ghost ls = text::texts(lines@);
    let mut i: usize = 0;
    while i < lines.len() && i < 12
        invariant
            i <= lines@.len(),
            ls == text::texts(lines@),
            ls == text::lines_of(s@),
            info_line_from(ls, 0) == info_line_from(ls, i as int),
        decreases lines@.len() - i,
    {
        assert(ls[i as int] == lines@[i as int]@);
        let l = text::trim(lines[i]);
        if let Some(r) = text::strip_prefix(l, "#subscription-userinfo:") {
            return Some(text::string_of(text::trim(r)));
        }
        if let Some(r) = text::strip_prefix(l, "# subscription-userinfo:") {
            return Some(text::string_of(text::trim(r)));
        }
        i += 1;
    }
    None
}

// ---- names ----
/// Characters that file names may not have on some system.
pub open spec fn clean_char(c: char) -> char {
    if "<>:\"/\\|?*"@.contains(c) {
        '_'
    } else {
        c
    }
}

/// A profile name made of the stem of a file name; the name itself where it has
/// no stem; `Proxy` where nothing is left.
pub open spec fn clean_name(stem: Option<Seq<char>>, name: Seq<char>) -> Seq<char> {
    let n = match stem {
        Some(s) => s,
        None => name,
    };
    let t = text::trimmed(Seq::new(n.len(), |i: int| clean_char(n[i])));
    if t.len() == 0 {
        "Proxy"@
    } else {
        t
    }
}

pub fn sanitize_stem(stem: Option<&[char]>, name: &[char]) -> (r: String)
    ensures
        r@ == clean_name(text::opt_slice(stem), name@),
{
    let n: &[char] = match stem {
        Some(s) => s,
        None => name,
    };
    let bad = text::chars_of("<>:\"/\\|?*");
    let mut out: Vec<char> = Vec::new();
    let mut i: usize = 0;
    while i < n.len()
        invariant
            i <= n@.len(),
            bad@ == "<>:\"/\\|?*"@,
            out@.len() == i,
            forall|j: int| 0 <= j < i ==> out@[j] == clean_char(n@[j]),
        decreases n@.len() - i,
    {
        if text::one_of(n[i], bad.as_slice()) {
            out.push('_');
        } else {
            out.push(n[i]);
        }
        i += 1;
    }
    assert(out@ =~= Seq::new(n@.len(), |i: int| clean_char(n@[i])));
    let t = text::trim(out.as_slice());
    if t.len() == 0 {
        "Proxy".to_owned()
    } else {
        text::string_of(t)
    }
}

/// Whether a text is cut into parts in the same way on every system: at its slashes.
pub open spec fn is_plain_path(s: Seq<char>) -> bool {
    !s.contains('\\') && !s.contains(':') && !text::starts(s, "//"@)
}

/// The last of some parts that is neither empty nor a single dot.
pub open spec fn last_part(parts: Seq<Seq<char>>) -> Option<Seq<char>>
    decreases parts.len(),
{
    if parts.len() == 0 {
        None
    } else if parts.last().len() == 0 || parts.last() == "."@ {
        last_part(parts.drop_last())
    } else {
        Some(parts.last())
    }
}

/// The file name of a path: its last part, unless that leads to the directory above.
pub open spec fn file_name_of(s: Seq<char>) -> Option<Seq<char>> {
    match last_part(text::pieces(s, "/"@)) {
        Some(n) => if n == ".."@ {
            None
        } else {
            Some(n)
        },
        None => None,
    }
}

/// The stem of a file name: what stands before its last dot, unless that begins
/// the name.
pub open spec fn name_stem(s: Seq<char>) -> Seq<char> {
    match text::cut_last(s, '.') {
        Some((a, _)) => if a.len() == 0 {
            s
        } else {
            a
        },
        None => s,
    }
}

/// What may be the stem of a path: a part of it, and that of its file name, where
/// every system cuts it alike.
pub open spec fn may_be_stem(s: Seq<char>, stem: Option<Seq<char>>) -> bool {
    &&& stem is Some ==> text::has(s, stem->0)
    &&& is_plain_path(s) ==> stem == match file_name_of(s) {
        Some(n) => Some(name_stem(n)),
        None => None,
    }
}

/// `std::path::Path::file_stem`: what stands before the last dot of the file name,
/// which is the last part of the path that is neither empty nor a single dot. A path
/// with a backslash, a colon or two slashes before it is cut in one way on one system
/// and in another way on another; of its stem only that it is a part of the path is
/// said.
#[verifier::external_body]
fn file_stem(s: &str) -> (r: Option<String>)
    ensures
        may_be_stem(s@, text::opt_view(r)),
{
    std::path::Path::new(s).file_stem().and_then(|p| p.to_str()).map(str::to_owned)
}

/// Whether a profile name is made of a file name.
pub open spec fn is_name_of(r: Seq<char>, name: Seq<char>) -> bool {
    exists|stem: Option<Seq<char>>|
        r == #[trigger] clean_name(stem, name) && may_be_stem(text::trimmed(name), stem)
}

/// A profile name made of a file name.
pub fn sanitize(name: &[char]) -> (r: String)
    ensures
        is_name_of(r@, name@),
        r@.len() > 0,
{
    let t = text::string_of(text::trim(name));
    let stem = file_stem(t.as_str());
    proof {
        reveal_strlit("Proxy");
    }
    match stem {
        Some(s) => {
            let c = text::chars_of(s.as_str());
            let r = sanitize_stem(Some(c.as_slice()), name);
            assert(r@ == clean_name(Some(c@), name@));
            r
        },
        None => {
            let r = sanitize_stem(None, name);
            assert(r@ == clean_name(None, name@));
            r
        },
    }
}

/// The file name in a content disposition: the extended form, percent decoded
/// behind its language, before the plain one.
pub open spec fn disposition_name(raw: Seq<char>) -> Option<Seq<char>> {
    let low = text::lowered(raw);
    match text::found(low, "filename*="@) {
        Some(i) => {
            let part = text::without_char(
                text::trimmed(text::pieces(text::trimmed(raw.skip(i + 10)), ";"@)[0]),
                '"',
            );
            Some(
                match text::found(part, "''"@) {
                    Some(j) => link::url_decoded(part.skip(j + 2)),
                    None => part,
                },
            )
        },
        None => match text::found(low, "filename="@) {
            Some(i) => {
                let part = text::trimmed(raw.skip(i + 9));
                let cut = match text::found(part, ";"@) {
                    Some(j) => part.take(j),
                    None => part,
                };
                Some(text::without_char(text::trimmed(cut), '"'))
            },
            None => None,
        },
    }
}

pub fn parse_cd_file(raw: &str) -> (r: Option<Vec<char>>)
    ensures
        (match r {
            Some(v) => Some(v@),
            None => None,
        }) == disposition_name(raw@),
{
    let c = text::chars_of(raw);
    let n: usize = c.len();
    let low = text::lower(c.as_slice());
    proof {
        reveal_strlit("filename*=");
        reveal_strlit("filename=");
        reveal_strlit("''");
        reveal_strlit(";");
    }
    if let Some(i) = text::find(low.as_slice(), "filename*=") {
        let rest = &c.as_slice()[i + 10..n];
        assert(rest@ =~= raw@.skip(i + 10));
        let pieces = text::split(text::trim(rest), ";");
        assert(text::texts(pieces@)[0] == pieces@[0]@);
        let part = text::trim_char(text::trim(pieces[0]), '"');
        if let Some(j) = text::find(part, "''") {
            let m: usize = part.len();
            let tail = &part[j + 2..m];
            assert(tail@ =~= part@.skip(j + 2));
            return Some(link::url_decode(tail));
        }
        let mut r: Vec<char> = Vec::new();
        text::append(&mut r, part);
        assert(r@ =~= part@);
        return Some(r);
    }
    if let Some(i) = text::find(low.as_slice(), "filename=") {
        let rest = &c.as_slice()[i + 9..n];
        assert(rest@ =~= raw@.skip(i + 9));
        let part = text::trim(rest);
        let cut = match text::find(part, ";") {
            Some(j) => {
                let h = &part[0..j];
                assert(h@ =~= part@.take(j as int));
                h
            },
            None => part,
        };
        let name = text::trim_char(text::trim(cut), '"');
        let mut r: Vec<char> = Vec::new();
        text::append(&mut r, name);
        assert(r@ =~= name@);
        return Some(r);
    }
    None
}

/// The profile name in a content disposition.
pub fn parse_cd_name(raw: &str) -> (r: Option<String>)
    ensures
        r is Some <==> disposition_name(raw@) is Some,
        r is Some ==> is_name_of(r->0@, disposition_name(raw@)->0),
{
    match parse_cd_file(raw) {
        Some(v) => {
            let r = sanitize(v.as_slice());
            Some(r)
        },
        None => None,
    }
}

/// The text of a profile title, which may be in Base64.
pub open spec fn title_text(raw: Seq<char>) -> Option<Seq<char>> {
    let t = text::trimmed(raw);
    match text::after_prefix(t, "base64:"@) {
        Some(r) => match codec::base64_decoded(vstd::utf8::encode_utf8(text::trimmed(r))) {
            Some(b) => Some(codec::utf8_text(b)),
            None => None,
        },
        None => Some(t),
    }
}

/// The profile name in a profile title.
pub fn parse_profile_title(raw: &str) -> (r: Option<String>)
    ensures
        r is Some <==> title_text(raw@) is Some,
        r is Some ==> is_name_of(r->0@, title_text(raw@)->0),
{
    let c = text::chars_of(raw);
    let t = text::trim(c.as_slice());
    match text::strip_prefix(t, "base64:") {
        Some(r) => {
            let s = text::string_of(text::trim(r));
            match codec::base64_decode(s.as_str()) {
                Some(b) => {
                    let d = codec::utf8_lossy(b.as_slice());
                    let d = text::chars_of(d.as_str());
                    let r = sanitize(d.as_slice());
                    Some(r)
                },
                None => None,
            }
        },
        None => {
            let r = sanitize(t);
            Some(r)
        },
    }
}

/// The last segment of a link's path, percent decoded, unless it says nothing.
pub open spec fn segment_name(l: LinkView) -> Option<Seq<char>> {
    match text::after_prefix(l.path, "/"@) {
        None => None,
        Some(rest) => {
            let seg = text::without_char(text::pieces(rest, "/"@).last(), '/');
            if seg.len() == 0 || seg == "."@ {
                None
            } else {
                Some(link::url_decoded(seg))
            }
        },
    }
}

pub fn segment_of_link(l: &Link) -> (r: Option<Vec<char>>)
    ensures
        (match r {
            Some(v) => Some(v@),
            None => None,
        }) == segment_name(l@),
{
    let path = text::chars_of(l.path.as_str());
    match text::strip_prefix(path.as_slice(), "/") {
        None => None,
        Some(rest) => {
            let parts = text::split(rest, "/");
            let n: usize = parts.len();
            assert(text::texts(parts@).last() == parts@[n - 1]@);
            let seg = text::trim_char(parts[n - 1], '/');
            if seg.len() == 0 || text::is(seg, ".") {
                None
            } else {
                Some(link::url_decode(seg))
            }
        },
    }
}

/// The file name at the end of an address, if there is one.
pub open spec fn url_segment(url: Seq<char>) -> Option<Seq<char>> {
    match link::url_parts(url) {
        Some(l) => segment_name(l),
        None => None,
    }
}

/// The profile name that an address suggests.
pub fn suggest_from_url(url: &str) -> (r: Option<String>)
    ensures
        r is Some <==> url_segment(url@) is Some,
        r is Some ==> is_name_of(r->0@, url_segment(url@)->0),
{
    match link::parse_link(url) {
        Some(l) => match segment_of_link(&l) {
            Some(s) => {
                let r = sanitize(s.as_slice());
                Some(r)
            },
            None => None,
        },
        None => None,
    }
}

// ---- the answer ----
pub struct SubscriptionFetchResult {
    pub body: Vec<u8>,
    pub user_info: Option<SubscriptionUserInfo>,
    pub suggested_name: Option<String>,
}

/// Fetches subscriptions.
pub struct SubscriptionClient;

pub const USER_AGENT: &'static str = "clash.meta";

/// The largest body that is accepted, in bytes.
pub const MAX_BODY: usize = 16777216;

/// A header value, unless it is blank.
pub open spec fn present(o: Option<Seq<char>>) -> Option<Seq<char>> {
    if o is Some && text::trimmed(o->0).len() > 0 {
        o
    } else {
        None
    }
}

pub fn header_str<'a>(o: Option<&'a str>) -> (r: Option<&'a str>)
    ensures
        text::opt_str(r) == present(text::opt_str(o)),
{
    match o {
        Some(s) => {
            let c = text::chars_of(s);
            if text::trim(c.as_slice()).len() > 0 {
                Some(s)
            } else {
                None
            }
        },
        None => None,
    }
}

/// The name that an answer suggests: its content disposition, else its title,
/// else the end of its address.
pub open spec fn raw_name(
    url: Seq<char>,
    disposition: Option<Seq<char>>,
    title: Option<Seq<char>>,
) -> Option<Seq<char>> {
    let d = match present(disposition) {
        Some(h) => disposition_name(h),
        None => None,
    };
    let t = match present(title) {
        Some(h) => title_text(h),
        None => None,
    };
    if d is Some {
        d
    } else if t is Some {
        t
    } else {
        url_segment(url)
    }
}

impl SubscriptionClient {
    /// The result of a fetch: the body, unless it is too long, with what was
    /// read of the quota and the name that the answer suggests.
    pub fn result(
        url: &str,
        body: Vec<u8>,
        user_info: Option<SubscriptionUserInfo>,
        disposition: Option<&str>,
        title: Option<&str>,
    ) -> (r: Result<SubscriptionFetchResult, String>)
        ensures
            match r {
                Ok(f) => body@.len() <= MAX_BODY && f.body@ == body@ && f.user_info == user_info
                    && ({
                    let n = raw_name(url@, text::opt_str(disposition), text::opt_str(title));
                    &&& f.suggested_name is Some <==> n is Some
                    &&& n is Some ==> is_name_of(f.suggested_name->0@, n->0)
                }),
                Err(m) => body@.len() > MAX_BODY && m@ == "订阅内容超过 16 MB"@,
            },
    {
        if body.len() > MAX_BODY {
            return Err("订阅内容超过 16 MB".to_owned());
        }
        let mut name: Option<String> = None;
        if let Some(h) = header_str(disposition) {
            name = parse_cd_name(h);
        }
        if name.is_none() {
            if let Some(h) = header_str(title) {
                name = parse_profile_title(h);
            }
        }
        if name.is_none() {
            name = suggest_from_url(url);
        }
        Ok(SubscriptionFetchResult { body, user_info, suggested_name: name })
    }
}

// ---- laws ----
/// The line of quotas: the numbers behind `upload`, `download`, `total` and `expire` are
/// the bytes sent, the bytes received, the allowance and the time of expiry.
pub proof fn law_quotas_read_back(u: nat, d: nat, t: nat, e: nat)
    requires
        u <= i64::MAX,
        d <= i64::MAX,
        t <= i64::MAX,
        e <= i64::MAX,
    ensures
        info_of(
            "upload="@ + text::dec(u) + "; "@ + ("download="@ + text::dec(d) + "; "@ + ("total="@
                + text::dec(t) + "; "@ + ("expire="@ + text::dec(e)))),
            Seq::empty(),
        ) == Some(
            (SubscriptionUserInfo {
                upload: Some(u as i64),
                download: Some(d as i64),
                total: Some(t as i64),
                expire_unix: Some(e as i64),
            }),
        ),
{
    reveal_strlit("upload=");
    reveal_strlit("download=");
    reveal_strlit("total=");
    reveal_strlit("expire=");
    reveal_strlit("; ");
    let a = "upload="@ + text::dec(u);
    let b = "download="@ + text::dec(d);
    let c = "total="@ + text::dec(t);
    let x = "expire="@ + text::dec(e);
    reveal_strlit("upload");
    reveal_strlit("download");
    reveal_strlit("total");
    reveal_strlit("expire");
    assert("upload"@ + seq!['='] =~= "upload="@);
    assert("download"@ + seq!['='] =~= "download="@);
    assert("total"@ + seq!['='] =~= "total="@);
    assert("expire"@ + seq!['='] =~= "expire="@);
    lemma_quota(u, "upload"@, a);
    lemma_quota(d, "download"@, b);
    lemma_quota(t, "total"@, c);
    lemma_quota(e, "expire"@, x);
    let r3 = c + "; "@ + x;
    let r2 = b + "; "@ + r3;
    let raw = a + "; "@ + r2;
    let e0 = Seq::<char>::empty();
    assert(x + e0 =~= x);
    lemma_spaces_go(x, e0);
    let s3 = c + seq![';'] + x;
    let s2 = b + seq![';'] + s3;
    let s1 = a + seq![';'] + s2;
    lemma_field_spaces(c, x, x);
    lemma_field_spaces(b, r3, s3);
    lemma_field_spaces(a, r2, s2);
    assert(text::replaced(raw, " "@, ""@) == s1);
    reveal_strlit(";");
    let p = ";"@;
    assert(p[0] == ';');
    text::lemma_pieces_cut(x, ';', e0, p);
    text::lemma_pieces_cut(c, ';', x, p);
    text::lemma_pieces_cut(b, ';', s3, p);
    text::lemma_pieces_cut(a, ';', s2, p);
    let q = text::pieces(s1, p);
    assert(q =~= seq![a, b, c, x]);
    lemma_four_fields(a, b, c, x);
    let f = info_fields(raw);
    let du = text::dec(u);
    let dd = text::dec(d);
    let dt = text::dec(t);
    let de = text::dec(e);
    assert(f =~= seq![("upload"@, du), ("download"@, dd), ("total"@, dt), ("expire"@, de)]);
    lemma_keys_are_plain();
    reveal_with_fuel(info_value, 5);
    assert(f[0] == ("upload"@, du));
    assert(f[1] == ("download"@, dd));
    assert(f[2] == ("total"@, dt));
    assert(f[3] == ("expire"@, de));
    lemma_raw_shows(raw);
}

proof fn lemma_raw_shows(raw: Seq<char>)
    requires
        raw.len() > 0,
        raw[0] == 'u',
    ensures
        text::trimmed(raw).len() > 0,
{
    assert(text::trimmed_start(raw) == raw);
    lemma_end_keeps(raw);
}

proof fn lemma_end_keeps(s: Seq<char>)
    requires
        s.len() > 0,
        !text::is_white(s[0]),
    ensures
        text::trimmed_end(s).len() > 0,
    decreases s.len(),
{
    if text::is_white(s.last()) {
        assert(s.len() > 1);
        lemma_end_keeps(s.drop_last());
    }
}

proof fn lemma_keys_are_plain()
    ensures
        text::lowered(text::trimmed("upload"@)) == "upload"@,
        text::lowered(text::trimmed("download"@)) == "download"@,
        text::lowered(text::trimmed("total"@)) == "total"@,
        text::lowered(text::trimmed("expire"@)) == "expire"@,
        "upload"@ != "download"@,
        "upload"@ != "total"@,
        "upload"@ != "expire"@,
        "download"@ != "total"@,
        "download"@ != "expire"@,
        "total"@ != "expire"@,
{
    reveal_strlit("upload");
    reveal_strlit("download");
    reveal_strlit("total");
    reveal_strlit("expire");
    let e = Seq::<char>::empty();
    text::law_trim(e, "upload"@, e);
    text::law_trim(e, "download"@, e);
    text::law_trim(e, "total"@, e);
    text::law_trim(e, "expire"@, e);
    assert(text::lowered("upload"@) =~= "upload"@);
    assert(text::lowered("download"@) =~= "download"@);
    assert(text::lowered("total"@) =~= "total"@);
    assert(text::lowered("expire"@) =~= "expire"@);
    assert("upload"@[0] == 'u');
    assert("download"@[0] == 'd');
    assert("total"@[0] == 't');
    assert("expire"@[0] == 'e');
}

/// A field of the line of quotas.
proof fn lemma_quota(n: nat, k: Seq<char>, s: Seq<char>)
    requires
        n <= i64::MAX,
        s == k + seq!['='] + text::dec(n),
        forall|i: int| 0 <= i < k.len() ==> 'a' <= (#[trigger] k[i]) <= 'z',
    ensures
        text::cut(s, '=') == Some((k, text::dec(n))),
        text::signed_value(text::dec(n)) == Some(n as int),
        forall|i: int| 0 <= i < s.len() ==> (#[trigger] s[i]) != ' ' && s[i] != ';',
        forall|i: int| 0 <= i < s.len() ==> !(";"@).contains(#[trigger] s[i]),
{
    reveal_strlit(";");
    text::law_number_reads_back(n, i64::MAX as int);
    text::law_dec_reads_back(n);
    text::law_cut(k, '=', text::dec(n));
    let d = text::dec(n);
    assert forall|i: int| 0 <= i < s.len() implies (#[trigger] s[i]) != ' ' && s[i] != ';' by {
        if i < k.len() {
            assert(s[i] == k[i]);
        } else if i > k.len() {
            assert(s[i] == d[i - k.len() - 1]);
            assert(text::is_digit(d[i - k.len() - 1]));
        }
    }
}

proof fn lemma_spaces_go(a: Seq<char>, s: Seq<char>)
    requires
        forall|i: int| 0 <= i < a.len() ==> (#[trigger] a[i]) != ' ',
    ensures
        text::replaced(a + s, " "@, ""@) == a + text::replaced(s, " "@, ""@),
        text::replaced(seq![' '] + s, " "@, ""@) == text::replaced(s, " "@, ""@),
    decreases a.len(),
{
    reveal_strlit(" ");
    reveal_strlit("");
    let p = " "@;
    let t = seq![' '] + s;
    assert(t.subrange(0, 1) =~= p);
    assert(text::starts(t, p));
    assert(t.skip(1) =~= s);
    assert(""@ + text::replaced(s, p, ""@) =~= text::replaced(s, p, ""@));
    if a.len() == 0 {
        assert(a + s =~= s);
        assert(a + text::replaced(s, p, ""@) =~= text::replaced(s, p, ""@));
    } else {
        lemma_spaces_go(a.skip(1), s);
        let u = a + s;
        assert(u[0] == a[0]);
        assert(!text::starts(u, p)) by {
            if text::starts(u, p) {
                assert(u.subrange(0, 1)[0] == p[0]);
            }
        }
        assert(u.skip(1) =~= a.skip(1) + s);
        assert(seq![u[0]] + (a.skip(1) + text::replaced(s, p, ""@)) =~= a + text::replaced(s, p, ""@));
    }
}

proof fn lemma_field_spaces(a: Seq<char>, r: Seq<char>, s: Seq<char>)
    requires
        forall|i: int| 0 <= i < a.len() ==> (#[trigger] a[i]) != ' ',
        text::replaced(r, " "@, ""@) == s,
    ensures
        text::replaced(a + "; "@ + r, " "@, ""@) == a + seq![';'] + s,
{
    reveal_strlit("; ");
    let b = a + seq![';'];
    assert forall|i: int| 0 <= i < b.len() implies (#[trigger] b[i]) != ' ' by {
        if i < a.len() {
            assert(b[i] == a[i]);
        }
    }
    lemma_spaces_go(b, seq![' '] + r);
    lemma_spaces_go(b, r);
    assert(a + "; "@ + r =~= b + (seq![' '] + r));
}

proof fn lemma_four_fields(a: Seq<char>, b: Seq<char>, c: Seq<char>, d: Seq<char>)
    requires
        text::cut(a, '=') is Some,
        text::cut(b, '=') is Some,
        text::cut(c, '=') is Some,
        text::cut(d, '=') is Some,
    ensures
        fields_of(seq![a, b, c, d]) == seq![
            text::cut(a, '=')->0,
            text::cut(b, '=')->0,
            text::cut(c, '=')->0,
            text::cut(d, '=')->0,
        ],
{
    let e = Seq::<Seq<char>>::empty();
    let q1 = seq![a];
    let q2 = seq![a, b];
    let q3 = seq![a, b, c];
    let q4 = seq![a, b, c, d];
    assert(q1.drop_last() =~= e);
    assert(q2.drop_last() =~= q1);
    assert(q3.drop_last() =~= q2);
    assert(q4.drop_last() =~= q3);
    assert(fields_of(e) =~= Seq::empty());
    assert(fields_of(q1) =~= seq![text::cut(a, '=')->0]);
    assert(fields_of(q2) =~= seq![text::cut(a, '=')->0, text::cut(b, '=')->0]);
    assert(fields_of(q3) =~= seq![
        text::cut(a, '=')->0,
        text::cut(b, '=')->0,
        text::cut(c, '=')->0,
    ]);
    assert(fields_of(q4) =~= seq![
        text::cut(a, '=')->0,
        text::cut(b, '=')->0,
        text::cut(c, '=')->0,
        text::cut(d, '=')->0,
    ]);
}

/// A quoted file name in a content disposition is the name.
pub proof fn law_file_name_is_read(name: Seq<char>)
    requires
        name.len() > 0,
        forall|i: int|
            0 <= i < name.len() ==> (#[trigger] name[i]) != '*' && name[i] != ';' && name[i] != '"',
    ensures
        disposition_name("attachment; filename="@ + seq!['"'] + name + seq!['"']) == Some(name),
        disposition_name("attachment"@) is None,
{
    reveal_strlit("attachment; filename=");
    reveal_strlit("filename*=");
    reveal_strlit("filename=");
    reveal_strlit(";");
    let head = "attachment; filename="@;
    let raw = head + seq!['"'] + name + seq!['"'];
    let low = text::lowered(raw);
    let star = "filename*="@;
    assert(star[8] == '*');
    text::lemma_found_from(low, star, 0);
    assert forall|i: int| 0 <= i < raw.len() implies low[i] != '*' by {
        if 22 <= i < 22 + name.len() {
            assert(raw[i] == name[i - 22]);
        }
    }
    assert forall|k: int| 0 <= k implies !text::occurs(low, star, k) by {
        if text::occurs(low, star, k) {
            assert(low.subrange(k, k + 10)[8] == low[k + 8]);
        }
    }
    let pat = "filename="@;
    text::lemma_found_from(low, pat, 0);
    assert(pat[0] == 'f');
    assert(low.subrange(12, 21) =~= pat);
    assert(text::occurs(low, pat, 12));
    assert forall|k: int| 0 <= k < 12 implies !text::occurs(low, pat, k) by {
        if text::occurs(low, pat, k) {
            assert(low.subrange(k, k + 9)[0] == low[k]);
            assert(low[k] == text::lower_char(head[k]));
        }
    }
    assert(text::found(low, pat) == Some(12int));
    let q = seq!['"'] + name + seq!['"'];
    assert(raw.skip(21) =~= q);
    let e = Seq::<char>::empty();
    assert(q[0] == '"' && q.last() == '"');
    text::law_trim(e, q, e);
    text::lemma_found_from(q, ";"@, 0);
    assert forall|k: int| 0 <= k implies !text::occurs(q, ";"@, k) by {
        if text::occurs(q, ";"@, k) {
            assert(q.subrange(k, k + 1)[0] == q[k]);
            if 1 <= k < 1 + name.len() {
                assert(q[k] == name[k - 1]);
            }
        }
    }
    lemma_quotes_go(name);
    reveal_strlit("attachment");
    let b = text::lowered("attachment"@);
    text::lemma_found_from(b, star, 0);
    text::lemma_found_from(b, pat, 0);
    assert(star[0] == 'f');
    assert forall|k: int| 0 <= k implies !text::occurs(b, star, k) && !text::occurs(b, pat, k) by {
        if text::occurs(b, star, k) {
            assert(b.subrange(k, k + 10)[0] == b[k]);
        }
        if text::occurs(b, pat, k) {
            assert(b.subrange(k, k + 9)[0] == b[k]);
        }
    }
}

proof fn lemma_quotes_go(name: Seq<char>)
    requires
        name.len() > 0,
        forall|i: int| 0 <= i < name.len() ==> (#[trigger] name[i]) != '"',
    ensures
        text::without_char(seq!['"'] + name + seq!['"'], '"') == name,
{
    let q = seq!['"'] + name + seq!['"'];
    let p = seq!['"'];
    let t = name + seq!['"'];
    assert(q.subrange(0, 1) =~= p);
    assert(text::starts(q, p));
    assert(q.skip(1) =~= t);
    assert(!text::starts(t, p)) by {
        if text::starts(t, p) {
            assert(t.subrange(0, 1)[0] == t[0]);
            assert(t[0] == name[0]);
        }
    }
    assert(text::without_prefixes(t, p) == t);
    assert(t.drop_last() =~= name);
    assert(name.last() == name[name.len() - 1]);
    assert(text::without_char_end(name, '"') == name);
}

/// The extended file name of a content disposition comes before the plain one: what stands
/// behind the two apostrophes is the name, percent decoded.
pub proof fn law_extended_name_comes_first(name: Seq<char>)
    requires
        link::plain(name),
        name.len() > 0,
        !text::is_white(name.last()),
        forall|i: int| 0 <= i < name.len() ==> (#[trigger] name[i]) != ';' && name[i] != '"',
    ensures
        disposition_name("filename=x; filename*=UTF-8''"@ + name) == Some(name),
{
    reveal_strlit("filename=x; filename*=UTF-8''");
    reveal_strlit("filename*=");
    reveal_strlit("UTF-8''");
    reveal_strlit("''");
    reveal_strlit(";");
    let head = "filename=x; filename*=UTF-8''"@;
    let raw = head + name;
    let low = text::lowered(raw);
    let star = "filename*="@;
    text::lemma_found_from(low, star, 0);
    assert(low.subrange(12, 22) =~= star);
    assert(text::occurs(low, star, 12));
    assert(star[8] == '*');
    assert forall|k: int| 0 <= k < 12 implies !text::occurs(low, star, k) by {
        if text::occurs(low, star, k) {
            assert(low.subrange(k, k + 10)[8] == low[k + 8]);
            assert(low[k + 8] == text::lower_char(head[k + 8]));
        }
    }
    assert(text::found(low, star) == Some(12int));
    let q = "UTF-8''"@ + name;
    assert(raw.skip(22) =~= q);
    let e = Seq::<char>::empty();
    assert(q[0] == 'U' && q.last() == name.last());
    text::law_trim(e, q, e);
    assert forall|i: int| 0 <= i < q.len() implies !(";"@).contains(#[trigger] q[i]) && q[i] != '"' by {
        if i >= 7 {
            assert(q[i] == name[i - 7]);
        }
    }
    assert((";"@)[0] == ';');
    text::lemma_pieces_cut(q, ';', e, ";"@);
    let p = seq!['"'];
    assert(!text::starts(q, p)) by {
        if text::starts(q, p) {
            assert(q.subrange(0, 1)[0] == q[0]);
        }
    }
    assert(text::without_prefixes(q, p) == q);
    assert(text::without_char_end(q, '"') == q);
    let pp = "''"@;
    text::lemma_found_from(q, pp, 0);
    assert(q.subrange(5, 7) =~= pp);
    assert(text::occurs(q, pp, 5));
    assert(pp[0] == '\'');
    assert forall|k: int| 0 <= k < 5 implies !text::occurs(q, pp, k) by {
        if text::occurs(q, pp, k) {
            assert(q.subrange(k, k + 2)[0] == q[k]);
        }
    }
    assert(q.skip(7) =~= name);
    link::law_plain_text_is_kept(name);
}

/// A profile title is the name as it stands, without the white space around it, unless it
/// says that it is in Base64.
pub proof fn law_title_is_read(s: Seq<char>)
    requires
        s.len() > 0,
        !text::is_white(s[0]),
        !text::is_white(s.last()),
    ensures
        s[0] != 'b' ==> title_text(s) == Some(s),
        title_text("base64:"@ + s) == (match codec::base64_decoded(vstd::utf8::encode_utf8(s)) {
            Some(b) => Some(codec::utf8_text(b)),
            None => None,
        }),
{
    reveal_strlit("base64:");
    let e = Seq::<char>::empty();
    let p = "base64:"@;
    text::law_trim(e, s, e);
    let t = p + s;
    assert(t.last() == s.last() && t[0] == 'b');
    text::law_trim(e, t, e);
    assert(t.subrange(0, 7) =~= p);
    assert(text::starts(t, p));
    assert(t.skip(7) =~= s);
    if s[0] != 'b' {
        assert(p[0] == 'b');
        assert(!text::starts(s, p)) by {
            if text::starts(s, p) {
                assert(s.subrange(0, 7)[0] == s[0]);
            }
        }
    }
}

/// The name of a new profile: that of the content disposition where it has one, else that
/// of the title, else that of the address; a header of white space counts as none.
pub proof fn law_name_precedence(url: Seq<char>, d: Seq<char>, t: Seq<char>, w: Seq<char>)
    requires
        text::trimmed(d).len() > 0,
        text::trimmed(t).len() > 0,
        forall|i: int| 0 <= i < w.len() ==> text::is_white(#[trigger] w[i]),
    ensures
        disposition_name(d) is Some ==> raw_name(url, Some(d), Some(t)) == disposition_name(d)
            && raw_name(url, Some(d), None) == disposition_name(d),
        title_text(t) is Some ==> raw_name(url, None, Some(t)) == title_text(t) && raw_name(
            url,
            Some(w),
            Some(t),
        ) == title_text(t),
        disposition_name(d) is None && title_text(t) is Some ==> raw_name(url, Some(d), Some(t))
            == title_text(t),
        disposition_name(d) is None && title_text(t) is None ==> raw_name(url, Some(d), Some(t))
            == raw_name(url, None, None),
        raw_name(url, Some(w), Some(w)) == raw_name(url, None, None),
{
    let e = Seq::<char>::empty();
    text::law_trim(w, e, e);
    assert(w + e + e =~= w);
}

/// The last part of the path of an address names a profile.
pub proof fn law_address_names_profile(l: LinkView, dir: Seq<char>, last: Seq<char>)
    requires
        l.path == seq!['/'] + dir + seq!['/'] + last || l.path == seq!['/'] + last,
        link::plain(last),
        last.len() > 0,
        last != "."@,
        !last.contains('/'),
        !dir.contains('/'),
    ensures
        segment_name(l) == Some(last),
{
    reveal_strlit("/");
    let p = "/"@;
    assert(p[0] == '/');
    assert(l.path.subrange(0, 1) =~= p);
    assert(text::starts(l.path, p));
    let rest = l.path.skip(1);
    let e = Seq::<char>::empty();
    text::lemma_pieces_cut(last, '/', e, p);
    text::lemma_pieces_cut(dir, '/', last, p);
    if l.path == seq!['/'] + last {
        assert(rest =~= last);
    } else {
        assert(rest =~= dir + seq!['/'] + last);
    }
    assert(text::pieces(rest, p).last() == last);
    let c = seq!['/'];
    assert(last[0] != '/' && last.last() != '/') by {
        assert(last.contains(last[0]) && last.contains(last.last()));
    }
    assert(!text::starts(last, c)) by {
        if text::starts(last, c) {
            assert(last.subrange(0, 1)[0] == last[0]);
        }
    }
    assert(text::without_prefixes(last, c) == last);
    assert(text::without_char_end(last, '/') == last);
    link::law_plain_text_is_kept(last);
}

/// A profile name holds none of the characters that file systems refuse.
pub proof fn law_clean_name(stem: Option<Seq<char>>, name: Seq<char>, i: int)
    requires
        0 <= i < clean_name(stem, name).len(),
    ensures
        clean_name(stem, name).len() > 0,
        clean_name(stem, name)[i] != '<',
        clean_name(stem, name)[i] != '>',
        clean_name(stem, name)[i] != ':',
        clean_name(stem, name)[i] != '"',
        clean_name(stem, name)[i] != '/',
        clean_name(stem, name)[i] != '\\',
        clean_name(stem, name)[i] != '|',
        clean_name(stem, name)[i] != '?',
        clean_name(stem, name)[i] != '*',
{
    reveal_strlit("<>:\"/\\|?*");
    reveal_strlit("Proxy");
    let bad = "<>:\"/\\|?*"@;
    assert(bad[0] == '<' && bad[1] == '>' && bad[2] == ':' && bad[3] == '"' && bad[4] == '/'
        && bad[5] == '\\' && bad[6] == '|' && bad[7] == '?' && bad[8] == '*');
    let n = match stem {
        Some(s) => s,
        None => name,
    };
    let m = Seq::new(n.len(), |j: int| clean_char(n[j]));
    lemma_trimmed_holds(m);
    let t = text::trimmed(m);
    if t.len() > 0 {
        assert(t.contains(t[i]));
        assert(m.contains(t[i]));
        let j = choose|j: int| 0 <= j < m.len() && m[j] == t[i];
        assert(m[j] == clean_char(n[j]));
        assert(bad.contains('<') && bad.contains('>') && bad.contains(':') && bad.contains('"')
            && bad.contains('/') && bad.contains('\\') && bad.contains('|') && bad.contains('?')
            && bad.contains('*'));
    }
}

/// A name without such characters and without white space around it is kept.
pub proof fn law_good_name_is_kept(name: Seq<char>)
    requires
        name.len() > 0,
        !text::is_white(name[0]),
        !text::is_white(name.last()),
        forall|i: int| 0 <= i < name.len() ==> !("<>:\"/\\|?*"@).contains(#[trigger] name[i]),
    ensures
        clean_name(Some(name), Seq::empty()) == name,
        clean_name(None, name) == name,
{
    let e = Seq::<char>::empty();
    assert(Seq::new(name.len(), |j: int| clean_char(name[j])) =~= name);
    text::law_trim(e, name, e);
}

proof fn lemma_trimmed_holds(s: Seq<char>)
    ensures
        forall|c: char| text::trimmed(s).contains(c) ==> s.contains(c),
{
    lemma_start_holds(s);
    lemma_end_holds(text::trimmed_start(s));
}

proof fn lemma_start_holds(s: Seq<char>)
    ensures
        forall|c: char| text::trimmed_start(s).contains(c) ==> s.contains(c),
    decreases s.len(),
{
    if s.len() > 0 && text::is_white(s[0]) {
        lemma_start_holds(s.skip(1));
        assert forall|c: char| s.skip(1).contains(c) implies s.contains(c) by {
            let j = choose|j: int| 0 <= j < s.skip(1).len() && s.skip(1)[j] == c;
            assert(s[j + 1] == c);
        }
    }
}

proof fn lemma_end_holds(s: Seq<char>)
    ensures
        forall|c: char| text::trimmed_end(s).contains(c) ==> s.contains(c),
    decreases s.len(),
{
    if s.len() > 0 && text::is_white(s.last()) {
        lemma_end_holds(s.drop_last());
        assert forall|c: char| s.drop_last().contains(c) implies s.contains(c) by {
            let j = choose|j: int| 0 <= j < s.drop_last().len() && s.drop_last()[j] == c;
            assert(s[j] == c);
        }
    }
}

/// A line of quotas may stand among the first twelve lines of a body, as a comment.
pub proof fn law_quota_line_is_found(lines: Seq<Seq<char>>, i: int, q: Seq<char>)
    requires
        0 <= i < lines.len(),
        q.len() > 0,
        !text::is_white(q[0]),
        !text::is_white(q.last()),
        lines[i] == "#subscription-userinfo:"@ + q || lines[i] == "# subscription-userinfo:"@ + q,
    ensures
        i < 12 ==> info_line_from(lines, i) == Some(q),
        i >= 12 ==> info_line_from(lines, i) is None,
{
    reveal_strlit("#subscription-userinfo:");
    reveal_strlit("# subscription-userinfo:");
    let a = "#subscription-userinfo:"@;
    let b = "# subscription-userinfo:"@;
    let l = lines[i];
    let e = Seq::<char>::empty();
    assert(l[0] == '#' && l.last() == q.last());
    text::law_trim(e, l, e);
    text::law_trim(e, q, e);
    if l == a + q {
        assert(l.subrange(0, 23) =~= a);
        assert(text::starts(l, a));
        assert(l.skip(23) =~= q);
    } else {
        assert(l.subrange(0, 24) =~= b);
        assert(text::starts(l, b));
        assert(l.skip(24) =~= q);
        assert(!text::starts(l, a)) by {
            if text::starts(l, a) {
                assert(l.subrange(0, 23)[1] == l[1]);
                assert(a[1] == 's' && l[1] == ' ');
            }
        }
    }
}

/// The stem of a file name ends before its last dot; a name that begins with its only dot
/// is its own stem.
pub proof fn law_stem_of_name(a: Seq<char>, x: Seq<char>)
    requires
        !x.contains('.'),
        !x.contains('/'),
        !a.contains('/'),
        x.len() > 0,
    ensures
        a.len() > 0 ==> name_stem(a + seq!['.'] + x) == a,
        name_stem(seq!['.'] + x) == seq!['.'] + x,
        name_stem(x) == x,
        file_name_of(seq!['/'] + x) == Some(x),
        file_name_of(a + seq!['/'] + x) == Some(x),
{
    reveal_strlit("/");
    reveal_strlit(".");
    reveal_strlit("..");
    let e = Seq::<char>::empty();
    text::law_cut(a, '.', x);
    text::law_cut(e, '.', x);
    text::law_cut(x, '.', e);
    assert(e + seq!['.'] + x =~= seq!['.'] + x);
    let p = "/"@;
    assert(p[0] == '/');
    text::lemma_pieces_cut(x, '/', e, p);
    text::lemma_pieces_cut(a, '/', x, p);
    text::lemma_pieces_cut(e, '/', x, p);
    assert(e + seq!['/'] + x =~= seq!['/'] + x);
    assert(x != "."@ && x != ".."@) by {
        assert("."@[0] == '.' && ".."@[0] == '.');
        assert(x.contains(x[0]));
    }
    assert((seq![a] + seq![x]).last() == x);
    assert((seq![e] + seq![x]).last() == x);
}

} // verus!
