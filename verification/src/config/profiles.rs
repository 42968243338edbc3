//! The stored profiles: local node lists and subscriptions.

use vstd::prelude::*;

use crate::codec;
use crate::config::yaml;
use crate::hash;
use crate::text;

verus! {

/// Files that are named by the digest of their content.
pub struct ContentStore;

/// A name of 64 hexadecimal digits.
pub open spec fn safe_hash(s: Seq<char>) -> bool {
    s.len() == 64 && forall|i: int|
        0 <= i < s.len() ==> codec::hex_digit(#[trigger] s[i]) is Some
}

impl ContentStore {
    pub fn sha256_hex(data: &[u8]) -> (r: String)
        ensures
            r@ == codec::hex_text(hash::sha256_digest(data@)),
            safe_hash(r@),
    {
        let d = hash::sha256(data);
        let mut out: Vec<char> = Vec::new();
        let mut i: usize = 0;
        while i < d.len()
            invariant
                i <= d@.len(),
                d@.len() == 32,
                out@.len() == 2 * i,
                forall|j: int|
                    0 <= j < 2 * i ==> #[trigger] out@[j] == codec::hex_text(d@)[j],
            decreases d@.len() - i,
        {
            out.push(codec::to_hex_char(d[i] / 16));
            out.push(codec::to_hex_char(d[i] % 16));
            i += 1;
        }
        proof {
            assert(out@ =~= codec::hex_text(d@));
            assert forall|j: int| 0 <= j < out@.len() implies codec::hex_digit(
                #[trigger] out@[j],
            ) is Some by {
                codec::law_hex_digit_reads_back(d@[j / 2] as int / 16);
                codec::law_hex_digit_reads_back(d@[j / 2] as int % 16);
            }
        }
        text::string_of(out.as_slice())
    }

    pub fn is_safe(hash: &str) -> (r: bool)
        ensures
            r == safe_hash(hash@),
    {
        let c = text::chars_of(hash);
        if c.len() != 64 {
            return false;
        }
        let mut i: usize = 0;
        while i < c.len()
            invariant
                i <= c@.len(),
                c@.len() == 64,
                c@ == hash@,
                forall|j: int| 0 <= j < i ==> codec::hex_digit(#[trigger] c@[j]) is Some,
            decreases c@.len() - i,
        {
            if codec::hex_value(c[i]).is_none() {
                return false;
            }
            i += 1;
        }
        true
    }

    /// Whether the file of a digest may be deleted: its name is one, and no
    /// profile refers to it.
    pub fn unreferenced(hash: &str, referenced: &[String]) -> (r: bool)
        ensures
            r == (safe_hash(hash@) && forall|i: int|
                0 <= i < referenced@.len() ==> !text::same_nocase(
                    (#[trigger] referenced@[i])@,
                    hash@,
                )),
    {
        if !Self::is_safe(hash) {
            return false;
        }
        let mut i: usize = 0;
        while i < referenced.len()
            invariant
                i <= referenced@.len(),
                forall|j: int|
                    0 <= j < i ==> !text::same_nocase((#[trigger] referenced@[j])@, hash@),
            decreases referenced@.len() - i,
        {
            let c = text::chars_of(referenced[i].as_str());
            if text::is_nocase(c.as_slice(), hash) {
                assert(text::same_nocase(referenced@[i as int]@, hash@));
                return false;
            }
            i += 1;
        }
        true
    }
}

#[derive(Debug, Clone, Copy, PartialEq, Eq, Structural)]
pub enum ProfileKind {
    Cloud,
    Local,
}

#[derive(Debug, Clone)]
pub struct ProfileEntry {
    pub name: String,
    pub hash: String,
    pub kind: ProfileKind,
    pub url: Option<String>,
    pub used_bytes: Option<i64>,
    pub total_bytes: Option<i64>,
    pub expire_unix: Option<i64>,
}

#[verifier::ext_equal]
pub struct EntryView {
    pub name: Seq<char>,
    pub hash: Seq<char>,
    pub kind: ProfileKind,
    pub url: Option<Seq<char>>,
    pub used_bytes: Option<i64>,
    pub total_bytes: Option<i64>,
    pub expire_unix: Option<i64>,
}

impl View for ProfileEntry {
    type V = EntryView;

    open spec fn view(&self) -> EntryView {
        EntryView {
            name: self.name@,
            hash: self.hash@,
            kind: self.kind,
            url: text::opt_view(self.url),
            used_bytes: self.used_bytes,
            total_bytes: self.total_bytes,
            expire_unix: self.expire_unix,
        }
    }
}

fn copy_entry(e: &ProfileEntry) -> (r: ProfileEntry)
    ensures
        r@ == e@,
{
    ProfileEntry {
        name: e.name.clone(),
        hash: e.hash.clone(),
        kind: e.kind,
        url: match &e.url {
            Some(u) => Some(u.clone()),
            None => None,
        },
        used_bytes: e.used_bytes,
        total_bytes: e.total_bytes,
        expire_unix: e.expire_unix,
    }
}

/// What a subscription says of its quota.
#[derive(Debug, Clone)]
pub struct SubscriptionUserInfo {
    pub upload: Option<i64>,
    pub download: Option<i64>,
    pub total: Option<i64>,
    pub expire_unix: Option<i64>,
}

pub open spec fn amount(o: Option<i64>) -> int {
    match o {
        Some(n) => n as int,
        None => 0,
    }
}

/// Whether upload and download together are a number of 64 bits.
pub open spec fn info_fits(o: Option<SubscriptionUserInfo>) -> bool {
    match o {
        Some(i) => i64::MIN <= amount(i.upload) + amount(i.download) <= i64::MAX,
        None => true,
    }
}

/// An entry with what a subscription says: the bytes used in both directions,
/// the total and the expiry, each where it is given.
pub open spec fn with_user_info(e: EntryView, o: Option<SubscriptionUserInfo>) -> EntryView {
    match o {
        None => e,
        Some(i) => EntryView {
            used_bytes: if i.upload is Some || i.download is Some {
                Some((amount(i.upload) + amount(i.download)) as i64)
            } else {
                e.used_bytes
            },
            total_bytes: if i.total is Some {
                i.total
            } else {
                e.total_bytes
            },
            expire_unix: if i.expire_unix is Some {
                i.expire_unix
            } else {
                e.expire_unix
            },
            ..e
        },
    }
}

pub open spec fn opt_info(o: Option<&SubscriptionUserInfo>) -> Option<SubscriptionUserInfo> {
    match o {
        Some(i) => Some(*i),
        None => None,
    }
}

fn or_zero(o: Option<i64>) -> (r: i64)
    ensures
        r == amount(o),
{
    match o {
        Some(n) => n,
        None => 0,
    }
}

pub fn apply_user_info(entry: &mut ProfileEntry, info: Option<&SubscriptionUserInfo>)
    requires
        info_fits(opt_info(info)),
    ensures
        final(entry)@ == with_user_info(old(entry)@, opt_info(info)),
{
    if let Some(i) = info {
        if i.upload.is_some() || i.download.is_some() {
            entry.used_bytes = Some(or_zero(i.upload) + or_zero(i.download));
        }
        if i.total.is_some() {
            entry.total_bytes = i.total;
        }
        if i.expire_unix.is_some() {
            entry.expire_unix = i.expire_unix;
        }
    }
}

// ---- the stored form ----
/// Whether a value is written in quotes.
pub open spec fn needs_quotes(s: Seq<char>) -> bool {
    text::has(s, ":"@) || text::has(s, "#"@) || text::has(s, "\""@) || text::has(s, "'"@)
        || text::has(s, "\n"@) || text::has(s, "\r"@) || text::starts(s, " "@) || text::ends(
        s,
        " "@,
    )
}

/// The written form of a value.
pub open spec fn escaped(s: Seq<char>) -> Seq<char> {
    if s.len() == 0 {
        "\"\""@
    } else if needs_quotes(s) {
        let a = text::replaced(s, "\\"@, "\\\\"@);
        let b = text::replaced(a, "\""@, "\\\""@);
        let c = text::replaced(b, "\r"@, "\\r"@);
        let d = text::replaced(c, "\n"@, "\\n"@);
        "\""@ + d + "\""@
    } else {
        s
    }
}

pub fn yaml_escape(s: &[char]) -> (r: Vec<char>)
    ensures
        r@ == escaped(s@),
{
    let mut r: Vec<char> = Vec::new();
    if s.len() == 0 {
        return text::chars_of("\"\"");
    }
    if text::contains(s, ":") || text::contains(s, "#") || text::contains(s, "\"")
        || text::contains(s, "'") || text::contains(s, "\n") || text::contains(s, "\r")
        || text::starts_with(s, " ") || text::ends_with(s, " ") {
        let a = text::replace(s, "\\", "\\\\");
        let b = text::replace(a.as_slice(), "\"", "\\\"");
        let c = text::replace(b.as_slice(), "\r", "\\r");
        let d = text::replace(c.as_slice(), "\n", "\\n");
        text::append_str(&mut r, "\"");
        text::append(&mut r, d.as_slice());
        text::append_str(&mut r, "\"");
        proof {
            assert(r@ =~= "\""@ + d@ + "\""@);
        }
    } else {
        text::append(&mut r, s);
        proof {
            assert(r@ =~= s@);
        }
    }
    r
}

/// One line of the stored form, where there is something to store.
pub open spec fn line(label: Seq<char>, v: Seq<char>) -> Seq<char> {
    label + v + "\n"@
}

pub open spec fn number_line(label: Seq<char>, o: Option<i64>, positive: bool) -> Seq<char> {
    match o {
        Some(n) => if positive && n <= 0 {
            Seq::empty()
        } else {
            line(label, text::dec_int(n as int))
        },
        None => Seq::empty(),
    }
}

/// The lines of one entry; only a subscription has more than three.
pub open spec fn entry_text(e: EntryView) -> Seq<char> {
    line("  - name: "@, escaped(e.name)) + line("    hash: "@, e.hash) + line(
        "    type: "@,
        if e.kind == ProfileKind::Cloud {
            "cloud"@
        } else {
            "local"@
        },
    ) + (if e.kind == ProfileKind::Cloud {
        (match e.url {
            Some(u) => line("    url: "@, escaped(u)),
            None => Seq::empty(),
        }) + number_line("    used: "@, e.used_bytes, false) + number_line(
            "    total: "@,
            e.total_bytes,
            true,
        ) + number_line("    expire: "@, e.expire_unix, true)
    } else {
        Seq::empty()
    })
}

pub open spec fn entries_text(v: Seq<EntryView>) -> Seq<char>
    decreases v.len(),
{
    if v.len() == 0 {
        Seq::empty()
    } else {
        entries_text(v.drop_last()) + entry_text(v.last())
    }
}

/// The stored form of all profiles.
pub open spec fn store_text(v: Seq<EntryView>, default: Option<Seq<char>>) -> Seq<char> {
    (match default {
        Some(d) => line("default: "@, escaped(d)),
        None => Seq::empty(),
    }) + "profiles:\n"@ + entries_text(v)
}

fn add_line(out: &mut Vec<char>, label: &str, v: &[char])
    ensures
        final(out)@ == old(out)@ + line(label@, v@),
{
    text::append_str(out, label);
    text::append(out, v);
    text::append_str(out, "\n");
    assert(out@ =~= old(out)@ + line(label@, v@));
}

fn add_number(out: &mut Vec<char>, label: &str, o: Option<i64>, positive: bool)
    ensures
        final(out)@ == old(out)@ + number_line(label@, o, positive),
{
    if let Some(n) = o {
        if !(positive && n <= 0) {
            let d = text::format_int(n);
            add_line(out, label, d.as_slice());
            return;
        }
    }
    assert(out@ =~= old(out)@ + Seq::<char>::empty());
}

fn add_entry(out: &mut Vec<char>, e: &ProfileEntry)
    ensures
        final(out)@ == old(out)@ + entry_text(e@),
{
    let name = text::chars_of(e.name.as_str());
    let name = yaml_escape(name.as_slice());
    add_line(out, "  - name: ", name.as_slice());
    let hash = text::chars_of(e.hash.as_str());
    add_line(out, "    hash: ", hash.as_slice());
    let cloud = e.kind == ProfileKind::Cloud;
    let kind = if cloud {
        text::chars_of("cloud")
    } else {
        text::chars_of("local")
    };
    add_line(out, "    type: ", kind.as_slice());
    let ghost three = out@;
    let ghost url_line: Seq<char> = match e@.url {
        Some(u) => line("    url: "@, escaped(u)),
        None => Seq::empty(),
    };
    if cloud {
        if let Some(u) = &e.url {
            let u = text::chars_of(u.as_str());
            let u = yaml_escape(u.as_slice());
            add_line(out, "    url: ", u.as_slice());
        }
        assert(out@ =~= three + url_line);
        add_number(out, "    used: ", e.used_bytes, false);
        add_number(out, "    total: ", e.total_bytes, true);
        add_number(out, "    expire: ", e.expire_unix, true);
    }
    assert(out@ =~= old(out)@ + entry_text(e@));
}

// ---- reading the stored form ----
/// An entry with nothing set.
pub open spec fn blank_entry() -> EntryView {
    EntryView {
        name: Seq::empty(),
        hash: Seq::empty(),
        kind: ProfileKind::Local,
        url: None,
        used_bytes: None,
        total_bytes: None,
        expire_unix: None,
    }
}

/// What has been read of the stored form.
#[verifier::ext_equal]
pub struct Reading {
    pub default: Option<Seq<char>>,
    pub done: Seq<EntryView>,
    pub current: Option<EntryView>,
}

pub open spec fn read_number(s: Seq<char>) -> Option<i64> {
    match text::signed_value(s) {
        Some(n) => Some(n as i64),
        None => None,
    }
}

/// An entry after one of its `key: value` lines.
pub open spec fn entry_set(e: EntryView, key: Seq<char>, val: Seq<char>) -> EntryView {
    let cloud = e.kind == ProfileKind::Cloud;
    if key == "name"@ {
        EntryView { name: val, ..e }
    } else if key == "hash"@ {
        if safe_hash(val) {
            EntryView { hash: val, ..e }
        } else {
            e
        }
    } else if key == "type"@ {
        EntryView {
            kind: if text::same_nocase(val, "cloud"@) {
                ProfileKind::Cloud
            } else {
                ProfileKind::Local
            },
            ..e
        }
    } else if key == "url"@ {
        if cloud {
            EntryView { url: Some(val), ..e }
        } else {
            e
        }
    } else if key == "used"@ {
        if cloud {
            EntryView { used_bytes: read_number(val), ..e }
        } else {
            e
        }
    } else if key == "total"@ {
        if cloud {
            EntryView { total_bytes: read_number(val), ..e }
        } else {
            e
        }
    } else if key == "expire"@ && cloud {
        EntryView { expire_unix: read_number(val), ..e }
    } else {
        e
    }
}

impl Reading {
    /// The entries so far; the one that is being read counts if it has a name
    /// and a digest.
    pub open spec fn all(self) -> Seq<EntryView> {
        match self.current {
            Some(c) => if c.name.len() > 0 && c.hash.len() > 0 {
                self.done.push(c)
            } else {
                self.done
            },
            None => self.done,
        }
    }

    /// What one line does.
    pub open spec fn step(self, raw: Seq<char>) -> Reading {
        let line = text::trimmed_end(raw);
        if yaml::is_void(raw) {
            self
        } else {
            match text::after_prefix(line, "default:"@) {
                Some(rest) => Reading {
                    default: Some(yaml::unquoted(text::trimmed(rest))),
                    ..self
                },
                None => match text::after_prefix(text::trimmed_start(line), "- "@) {
                    Some(rest) => Reading {
                        done: self.all(),
                        current: Some(
                            match text::after_prefix(text::trimmed(rest), "name:"@) {
                                Some(v) => EntryView {
                                    name: yaml::unquoted(text::trimmed(v)),
                                    ..blank_entry()
                                },
                                None => blank_entry(),
                            },
                        ),
                        ..self
                    },
                    None => match (self.current, text::cut(text::trimmed(line), ':')) {
                        (Some(c), Some((k, v))) => Reading {
                            current: Some(
                                entry_set(c, text::trimmed(k), yaml::unquoted(text::trimmed(v))),
                            ),
                            ..self
                        },
                        _ => self,
                    },
                },
            }
        }
    }
}

pub open spec fn reading_of(lines: Seq<Seq<char>>) -> Reading
    decreases lines.len(),
{
    if lines.len() == 0 {
        Reading { default: None, done: Seq::empty(), current: None }
    } else {
        reading_of(lines.drop_last()).step(lines.last())
    }
}

/// A local profile has no address and no quota.
pub open spec fn local_cleared(e: EntryView) -> EntryView {
    if e.kind == ProfileKind::Local {
        EntryView { url: None, used_bytes: None, total_bytes: None, expire_unix: None, ..e }
    } else {
        e
    }
}

pub open spec fn all_cleared(v: Seq<EntryView>) -> Seq<EntryView> {
    Seq::new(v.len(), |i: int| local_cleared(v[i]))
}

/// The profiles of a stored form.
pub open spec fn loaded_entries(text: Seq<char>) -> Seq<EntryView> {
    all_cleared(reading_of(text::lines_of(text)).all())
}

/// The default profile of a stored form: the one it names, else the first.
pub open spec fn loaded_default(text: Seq<char>) -> Option<Seq<char>> {
    let r = reading_of(text::lines_of(text));
    if r.default is Some {
        r.default
    } else if loaded_entries(text).len() > 0 {
        Some(loaded_entries(text)[0].name)
    } else {
        None
    }
}

fn new_entry() -> (r: ProfileEntry)
    ensures
        r@ == blank_entry(),
{
    let r = ProfileEntry {
        name: String::new(),
        hash: String::new(),
        kind: ProfileKind::Local,
        url: None,
        used_bytes: None,
        total_bytes: None,
        expire_unix: None,
    };
    assert(r@ =~= blank_entry());
    r
}

fn parse_number(s: &[char]) -> (r: Option<i64>)
    ensures
        r == read_number(s@),
{
    text::parse_i64(s)
}

fn set_entry(e: ProfileEntry, key: &[char], val: &[char]) -> (r: ProfileEntry)
    ensures
        r@ == entry_set(e@, key@, val@),
{
    let mut c = e;
    let cloud = c.kind == ProfileKind::Cloud;
    if text::is(key, "name") {
        c.name = text::string_of(val);
    } else if text::is(key, "hash") {
        let h = text::string_of(val);
        if ContentStore::is_safe(h.as_str()) {
            c.hash = h;
        }
    } else if text::is(key, "type") {
        c.kind = if text::is_nocase(val, "cloud") {
            ProfileKind::Cloud
        } else {
            ProfileKind::Local
        };
    } else if text::is(key, "url") {
        if cloud {
            c.url = Some(text::string_of(val));
        }
    } else if text::is(key, "used") {
        if cloud {
            c.used_bytes = parse_number(val);
        }
    } else if text::is(key, "total") {
        if cloud {
            c.total_bytes = parse_number(val);
        }
    } else if text::is(key, "expire") {
        if cloud {
            c.expire_unix = parse_number(val);
        }
    }
    c
}

pub open spec fn entry_views(v: Seq<ProfileEntry>) -> Seq<EntryView> {
    Seq::new(v.len(), |i: int| v[i]@)
}

pub open spec fn opt_entry(o: Option<ProfileEntry>) -> Option<EntryView> {
    match o {
        Some(e) => Some(e@),
        None => None,
    }
}

fn finish(done: &mut Vec<ProfileEntry>, current: Option<ProfileEntry>)
    ensures
        entry_views(final(done)@) == (Reading {
            default: None,
            done: entry_views(old(done)@),
            current: opt_entry(current),
        }).all(),
{
    let ghost before = entry_views(done@);
    if let Some(c) = current {
        if !c.name.as_str().is_empty() && !c.hash.as_str().is_empty() {
            done.push(c);
            assert(entry_views(done@) =~= before.push(c@));
        }
    }
}

/// What the configuration file held when it was read.
#[derive(Debug)]
pub enum ConfigFile {
    Missing,
    Unreadable,
    Text(String),
}

/// The profiles and the one that is used unless another is chosen.
pub struct ProfileStore {
    pub entries: Vec<ProfileEntry>,
    pub default: Option<String>,
    pub load_error: Option<String>,
}

/// The position of the first profile with a name.
pub open spec fn named_from(v: Seq<EntryView>, name: Seq<char>, i: int) -> Option<int>
    decreases v.len() - i,
{
    if i >= v.len() {
        None
    } else if v[i].name == name {
        Some(i)
    } else {
        named_from(v, name, i + 1)
    }
}

/// The profile in use: the default one, or the first where the default names none.
pub open spec fn active_of(v: Seq<EntryView>, default: Option<Seq<char>>) -> Option<EntryView> {
    if v.len() == 0 {
        None
    } else {
        match default {
            Some(d) => match named_from(v, d, 0) {
                Some(i) => Some(v[i]),
                None => Some(v[0]),
            },
            None => Some(v[0]),
        }
    }
}

/// Whether a profile has a name.
pub open spec fn is_named(v: Seq<EntryView>, name: Seq<char>) -> bool {
    named_from(v, name, 0) is Some
}

proof fn lemma_named_from(v: Seq<EntryView>, name: Seq<char>, i: int)
    requires
        0 <= i,
    ensures
        match named_from(v, name, i) {
            Some(j) => i <= j < v.len() && v[j].name == name && forall|k: int|
                i <= k < j ==> (#[trigger] v[k]).name != name,
            None => forall|k: int| i <= k < v.len() ==> (#[trigger] v[k]).name != name,
        },
    decreases v.len() - i,
{
    if i >= v.len() {
    } else if v[i].name == name {
    } else {
        lemma_named_from(v, name, i + 1);
    }
}

/// A name with a number behind it.
pub open spec fn numbered(base: Seq<char>, i: nat) -> Seq<char> {
    base + "#"@ + text::dec(i)
}

/// The first free numbered name from `i` on, below number 10000.
pub open spec fn free_number(v: Seq<EntryView>, base: Seq<char>, i: nat) -> Option<nat>
    decreases 10000 - i,
{
    if i >= 10000 {
        None
    } else if !is_named(v, numbered(base, i)) {
        Some(i)
    } else {
        free_number(v, base, i + 1)
    }
}

/// The name that a profile is asked to have; `Proxy` where none is asked for.
pub open spec fn wanted_name(preferred: Option<Seq<char>>) -> Seq<char> {
    if preferred is Some && text::trimmed(preferred->0).len() > 0 {
        text::trimmed(preferred->0)
    } else {
        "Proxy"@
    }
}

/// The name that a new profile gets: the wanted one where it is free, else the
/// first free number behind it, else a given suffix behind it.
pub open spec fn new_name(
    v: Seq<EntryView>,
    preferred: Option<Seq<char>>,
    suffix: Seq<char>,
) -> Seq<char> {
    let base = wanted_name(preferred);
    if !is_named(v, base) {
        base
    } else {
        match free_number(v, base, 1) {
            Some(i) => numbered(base, i),
            None => base + "#"@ + suffix,
        }
    }
}

/// Whether some name in question is free, so that no suffix is needed.
pub open spec fn name_is_free(v: Seq<EntryView>, preferred: Option<Seq<char>>) -> bool {
    let base = wanted_name(preferred);
    !is_named(v, base) || free_number(v, base, 1) is Some
}

/// A random suffix: the simple form of `uuid::Uuid::new_v4`. Nothing is
/// promised of it.
#[verifier::external_body]
fn random_suffix() -> (r: String) {
    uuid::Uuid::new_v4().simple().to_string()
}

/// The default profile once the entry at `i` is gone: it stays where it still
/// names a profile and was not the removed one; else the next one takes its
/// place, or the first.
pub open spec fn default_after(
    rest: Seq<EntryView>,
    i: int,
    name: Seq<char>,
    default: Option<Seq<char>>,
) -> Option<Seq<char>> {
    if rest.len() == 0 {
        None
    } else if default is Some && default->0 != name && is_named(rest, default->0) {
        default
    } else if i < rest.len() {
        Some(rest[i].name)
    } else {
        Some(rest[0].name)
    }
}

impl ProfileStore {
    pub open spec fn list(self) -> Seq<EntryView> {
        entry_views(self.entries@)
    }

    pub open spec fn default_view(self) -> Option<Seq<char>> {
        text::opt_view(self.default)
    }

    pub fn new() -> (r: Self)
        ensures
            r.list() == Seq::<EntryView>::empty(),
            r.default_view() is None,
            r.load_error is None,
    {
        let r = ProfileStore { entries: Vec::new(), default: None, load_error: None };
        assert(r.list() =~= Seq::<EntryView>::empty());
        r
    }

    pub fn profiles<'a>(&'a self) -> (r: &'a [ProfileEntry])
        ensures
            r@ == self.entries@,
    {
        self.entries.as_slice()
    }

    pub fn default_name<'a>(&'a self) -> (r: Option<&'a str>)
        ensures
            text::opt_str(r) == self.default_view(),
    {
        match &self.default {
            Some(d) => Some(d.as_str()),
            None => None,
        }
    }

    fn position(&self, name: &[char]) -> (r: Option<usize>)
        ensures
            match r {
                Some(i) => named_from(self.list(), name@, 0) == Some(i as int) && i
                    < self.entries@.len(),
                None => named_from(self.list(), name@, 0) is None,
            },
    {
        let mut i: usize = 0;
        while i < self.entries.len()
            invariant
                i <= self.entries@.len(),
                named_from(self.list(), name@, 0) == named_from(self.list(), name@, i as int),
            decreases self.entries@.len() - i,
        {
            let c = text::chars_of(self.entries[i].name.as_str());
            assert(self.list()[i as int].name == c@);
            if text::same(c.as_slice(), name) {
                return Some(i);
            }
            i += 1;
        }
        None
    }

    /// The default profile; the first one where the default names none.
    pub fn active<'a>(&'a self) -> (r: Option<&'a ProfileEntry>)
        ensures
            (match r {
                Some(e) => Some(e@),
                None => None,
            }) == active_of(self.list(), self.default_view()),
    {
        if let Some(d) = &self.default {
            let c = text::chars_of(d.as_str());
            if let Some(i) = self.position(c.as_slice()) {
                return Some(&self.entries[i]);
            }
        }
        if self.entries.len() > 0 {
            Some(&self.entries[0])
        } else {
            None
        }
    }

    /// Replaces everything by what the configuration file holds.
    pub fn load_or_migrate(&mut self, file: &ConfigFile)
        ensures
            match *file {
                ConfigFile::Text(s) => final(self).list() == loaded_entries(s@) && final(self).default_view() == loaded_default(s@) && final(self).load_error is None,
                ConfigFile::Missing => final(self).list().len() == 0 && final(self).default_view() is None && final(self).load_error is None,
                ConfigFile::Unreadable => final(self).list().len() == 0 && final(self).default_view() is None && text::opt_view(final(self).load_error) == Some(
                    "配置读取失败"@,
                ),
            },
    {
        self.entries = Vec::new();
        self.default = None;
        self.load_error = None;
        match file {
            ConfigFile::Missing => {},
            ConfigFile::Unreadable => {
                self.load_error = Some("配置读取失败".to_owned());
            },
            ConfigFile::Text(s) => {
                self.load_from_text(s.as_str());
            },
        }
    }

    fn load_from_text(&mut self, text: &str)
        requires
            old(self).entries@.len() == 0,
            old(self).default is None,
        ensures
            final(self).list() == loaded_entries(text@),
            final(self).default_view() == loaded_default(text@),
            final(self).load_error == old(self).load_error,
    {
        let c = text::chars_of(text);
        let lines = text::lines(c.as_slice());
        let ghost ls = text::texts(lines@);
        let mut default: Option<String> = None;
        let mut done: Vec<ProfileEntry> = Vec::new();
        let mut current: Option<ProfileEntry> = None;
        let ghost mut st = reading_of(ls.take(0));
        let mut i: usize = 0;
        assert(ls.take(0) =~= Seq::<Seq<char>>::empty());
        assert(entry_views(done@) =~= Seq::<EntryView>::empty());
        while i < lines.len()
            invariant
                i <= lines@.len(),
                ls == text::texts(lines@),
                st == reading_of(ls.take(i as int)),
                st.default == text::opt_view(default),
                st.done == entry_views(done@),
                st.current == opt_entry(current),
            decreases lines@.len() - i,
        {
            let raw: &[char] = lines[i];
            proof {
                assert(ls.take(i + 1).drop_last() =~= ls.take(i as int));
                assert(ls.take(i + 1).last() == raw@);
                st = st.step(raw@);
            }
            if !(text::trim(raw).len() == 0 || text::starts_with(text::trim_start(raw), "#")) {
                let line = text::trim_end(raw);
                match text::strip_prefix(line, "default:") {
                    Some(rest) => {
                        let v = yaml::unquote(text::trim(rest));
                        default = Some(text::string_of(v.as_slice()));
                    },
                    None => match text::strip_prefix(text::trim_start(line), "- ") {
                        Some(rest) => {
                            finish(&mut done, current);
                            let mut e = new_entry();
                            if let Some(v) = text::strip_prefix(text::trim(rest), "name:") {
                                let v = yaml::unquote(text::trim(v));
                                e.name = text::string_of(v.as_slice());
                            }
                            current = Some(e);
                        },
                        None => {
                            match current {
                                Some(e) => match text::split_once(text::trim(line), ':') {
                                    Some((k, v)) => {
                                        let v = yaml::unquote(text::trim(v));
                                        current =
                                        Some(set_entry(e, text::trim(k), v.as_slice()));
                                    },
                                    None => {
                                        current = Some(e);
                                    },
                                },
                                None => {
                                    current = None;
                                },
                            }
                        },
                    },
                }
            }
            i += 1;
        }
        assert(ls.take(i as int) =~= ls);
        finish(&mut done, current);
        let ghost all = entry_views(done@);
        let mut k: usize = 0;
        while k < done.len()
            invariant
                k <= done@.len(),
                done@.len() == all.len(),
                forall|j: int| 0 <= j < k ==> (#[trigger] done@[j])@ == local_cleared(all[j]),
                forall|j: int| k <= j < done@.len() ==> (#[trigger] done@[j])@ == all[j],
            decreases done@.len() - k,
        {
            let mut e = copy_entry(&done[k]);
            if e.kind == ProfileKind::Local {
                e.url = None;
                e.used_bytes = None;
                e.total_bytes = None;
                e.expire_unix = None;
            }
            done[k] = e;
            k += 1;
        }
        assert(entry_views(done@) =~= all_cleared(all));
        if default.is_none() && done.len() > 0 {
            default = Some(done[0].name.clone());
        }
        self.entries = done;
        self.default = default;
    }

    /// The text of the configuration file.
    pub fn save(&self) -> (r: String)
        ensures
            r@ == store_text(self.list(), self.default_view()),
    {
        let mut out: Vec<char> = Vec::new();
        if let Some(d) = &self.default {
            let c = text::chars_of(d.as_str());
            let c = yaml_escape(c.as_slice());
            add_line(&mut out, "default: ", c.as_slice());
        }
        let ghost head = match self.default_view() {
            Some(d) => line("default: "@, escaped(d)),
            None => Seq::empty(),
        };
        assert(out@ =~= head);
        text::append_str(&mut out, "profiles:\n");
        let ghost start = out@;
        let mut i: usize = 0;
        assert(out@ =~= start + entries_text(self.list().take(0)));
        while i < self.entries.len()
            invariant
                i <= self.entries@.len(),
                out@ == start + entries_text(self.list().take(i as int)),
            decreases self.entries@.len() - i,
        {
            let ghost before = entries_text(self.list().take(i as int));
            proof {
                assert(self.list().take(i + 1).drop_last() =~= self.list().take(i as int));
                assert(self.list().take(i + 1).last() == self.entries@[i as int]@);
            }
            add_entry(&mut out, &self.entries[i]);
            assert(out@ =~= start + (before + entry_text(self.entries@[i as int]@)));
            i += 1;
        }
        assert(self.list().take(i as int) =~= self.list());
        text::string_of(out.as_slice())
    }

    pub fn set_default(&mut self, name: &str)
        ensures
            final(self).list() == old(self).list(),
            final(self).load_error == old(self).load_error,
            final(self).default_view() == (if is_named(old(self).list(), name@) {
                Some(name@)
            } else {
                old(self).default_view()
            }),
    {
        if self.name_exists(name) {
            self.default = Some(name.to_owned());
        }
    }

    pub fn name_exists(&self, name: &str) -> (r: bool)
        ensures
            r == is_named(self.list(), name@),
    {
        let c = text::chars_of(name);
        self.position(c.as_slice()).is_some()
    }

    /// The name of a new profile, with the suffix that it gets where no number
    /// is free.
    pub fn unique_name(&self, preferred: Option<&str>, suffix: &str) -> (r: String)
        ensures
            r@ == new_name(self.list(), text::opt_str(preferred), suffix@),
    {
        let base = match preferred {
            Some(p) => {
                let c = text::chars_of(p);
                let t = text::trim(c.as_slice());
                if t.len() > 0 {
                    let mut r: Vec<char> = Vec::new();
                    text::append(&mut r, t);
                    assert(r@ =~= t@);
                    r
                } else {
                    text::chars_of("Proxy")
                }
            },
            None => text::chars_of("Proxy"),
        };
        if self.position(base.as_slice()).is_none() {
            return text::string_of(base.as_slice());
        }
        let mut i: u64 = 1;
        while i < 10000
            invariant
                1 <= i <= 10000,
                base@ == wanted_name(text::opt_str(preferred)),
                is_named(self.list(), base@),
                free_number(self.list(), base@, 1) == free_number(self.list(), base@, i as nat),
            decreases 10000 - i,
        {
            let mut c: Vec<char> = Vec::new();
            text::append(&mut c, base.as_slice());
            text::append_str(&mut c, "#");
            let d = text::format_dec(i);
            text::append(&mut c, d.as_slice());
            assert(c@ =~= numbered(base@, i as nat));
            if self.position(c.as_slice()).is_none() {
                return text::string_of(c.as_slice());
            }
            i += 1;
        }
        let mut c: Vec<char> = Vec::new();
        text::append(&mut c, base.as_slice());
        text::append_str(&mut c, "#");
        text::append_str(&mut c, suffix);
        assert(c@ =~= base@ + "#"@ + suffix@);
        text::string_of(c.as_slice())
    }

    /// The name of a new profile; where no number is free, a random suffix
    /// makes it.
    pub fn allocate_unique_name(&self, preferred: Option<&str>) -> (r: String)
        ensures
            exists|s: Seq<char>|
                r@ == #[trigger] new_name(self.list(), text::opt_str(preferred), s),
            name_is_free(self.list(), text::opt_str(preferred)) ==> !is_named(self.list(), r@),
    {
        let suffix = random_suffix();
        let r = self.unique_name(preferred, suffix.as_str());
        proof {
            lemma_free_number(self.list(), wanted_name(text::opt_str(preferred)), 1);
        }
        r
    }

    /// Adds a local profile under the given name and makes it the default.
    pub fn add_local_named(&mut self, name: String, content: &[u8]) -> (r: ProfileEntry)
        ensures
            r@ == (EntryView {
                name: name@,
                hash: codec::hex_text(hash::sha256_digest(content@)),
                ..blank_entry()
            }),
            final(self).list() == old(self).list().push(r@),
            final(self).default_view() == Some(name@),
            final(self).load_error == old(self).load_error,
    {
        let mut e = new_entry();
        e.name = name.clone();
        e.hash = ContentStore::sha256_hex(content);
        self.push_default(e)
    }

    fn push_default(&mut self, e: ProfileEntry) -> (r: ProfileEntry)
        ensures
            r@ == e@,
            final(self).list() == old(self).list().push(e@),
            final(self).default_view() == Some(e@.name),
            final(self).load_error == old(self).load_error,
    {
        let ghost before = self.list();
        let r = copy_entry(&e);
        self.default = Some(e.name.clone());
        self.entries.push(e);
        assert(self.list() =~= before.push(e@));
        r
    }

    /// Adds a local profile under a free name and makes it the default.
    pub fn add_local(&mut self, name: Option<&str>, content: &[u8]) -> (r: ProfileEntry)
        ensures
            exists|s: Seq<char>|
                r@.name == #[trigger] new_name(old(self).list(), text::opt_str(name), s),
            name_is_free(old(self).list(), text::opt_str(name)) ==> !is_named(
                old(self).list(),
                r@.name,
            ),
            r@ == (EntryView {
                name: r@.name,
                hash: codec::hex_text(hash::sha256_digest(content@)),
                ..blank_entry()
            }),
            final(self).list() == old(self).list().push(r@),
            final(self).default_view() == Some(r@.name),
            final(self).load_error == old(self).load_error,
            distinct_names(old(self).list()) && old(self).list().len() < 10000 ==> distinct_names(
                final(self).list(),
            ),
    {
        let ghost before = self.list();
        let n = self.allocate_unique_name(name);
        proof {
            if distinct_names(before) && before.len() < 10000 {
                law_names_are_free(before, text::opt_str(name));
            }
        }
        let r = self.add_local_named(n, content);
        proof {
            if distinct_names(before) && before.len() < 10000 {
                law_added_profile(before, r@);
            }
        }
        r
    }

    /// Adds a subscription under the given name and makes it the default.
    pub fn add_cloud_named(
        &mut self,
        name: String,
        url: &str,
        content: &[u8],
        info: Option<&SubscriptionUserInfo>,
    ) -> (r: Result<ProfileEntry, String>)
        requires
            info_fits(opt_info(info)),
        ensures
            match r {
                Ok(e) => text::trimmed(url@).len() > 0 && e@ == with_user_info(
                    EntryView {
                        name: name@,
                        hash: codec::hex_text(hash::sha256_digest(content@)),
                        kind: ProfileKind::Cloud,
                        url: Some(text::trimmed(url@)),
                        ..blank_entry()
                    },
                    opt_info(info),
                ) && final(self).list() == old(self).list().push(e@) && final(self).default_view() == Some(name@) && final(self).load_error == old(self).load_error,
                Err(m) => text::trimmed(url@).len() == 0 && m@ == "订阅地址不能为空"@ && *final(self) == *old(self),
            },
    {
        let u = text::chars_of(url);
        let u = text::trim(u.as_slice());
        if u.len() == 0 {
            return Err("订阅地址不能为空".to_owned());
        }
        let mut e = new_entry();
        e.name = name;
        e.hash = ContentStore::sha256_hex(content);
        e.kind = ProfileKind::Cloud;
        e.url = Some(text::string_of(u));
        apply_user_info(&mut e, info);
        Ok(self.push_default(e))
    }

    /// Adds a subscription under a free name and makes it the default. An
    /// empty address is refused.
    pub fn add_cloud(
        &mut self,
        name: Option<&str>,
        url: &str,
        content: &[u8],
        info: Option<&SubscriptionUserInfo>,
    ) -> (r: Result<ProfileEntry, String>)
        requires
            info_fits(opt_info(info)),
        ensures
            match r {
                Ok(e) => text::trimmed(url@).len() > 0 && e@ == with_user_info(
                    EntryView {
                        name: e@.name,
                        hash: codec::hex_text(hash::sha256_digest(content@)),
                        kind: ProfileKind::Cloud,
                        url: Some(text::trimmed(url@)),
                        ..blank_entry()
                    },
                    opt_info(info),
                ) && final(self).list() == old(self).list().push(e@) && final(self).default_view() == Some(e@.name) && final(self).load_error == old(self).load_error && (exists|s: Seq<char>|
                    e@.name == #[trigger] new_name(old(self).list(), text::opt_str(name), s)) && (
                name_is_free(old(self).list(), text::opt_str(name)) ==> !is_named(
                    old(self).list(),
                    e@.name,
                )),
                Err(m) => text::trimmed(url@).len() == 0 && m@ == "订阅地址不能为空"@ && *final(self) == *old(self),
            },
            distinct_names(old(self).list()) && old(self).list().len() < 10000 ==> distinct_names(
                final(self).list(),
            ),
    {
        let ghost before = self.list();
        let n = self.allocate_unique_name(name);
        proof {
            if distinct_names(before) && before.len() < 10000 {
                law_names_are_free(before, text::opt_str(name));
            }
        }
        let r = self.add_cloud_named(n, url, content, info);
        proof {
            if r is Ok && distinct_names(before) && before.len() < 10000 {
                law_added_profile(before, r->Ok_0@);
            }
        }
        r
    }

    /// Replaces the content of the first profile with a name, which has to be
    /// a subscription.
    pub fn update_cloud(
        &mut self,
        name: &str,
        content: &[u8],
        info: Option<&SubscriptionUserInfo>,
    ) -> (r: Result<(), String>)
        requires
            info_fits(opt_info(info)),
        ensures
            final(self).default == old(self).default,
            final(self).load_error == old(self).load_error,
            match named_from(old(self).list(), name@, 0) {
                None => r is Err && r->Err_0@ == "not found"@ && *final(self) == *old(self),
                Some(i) => if old(self).list()[i].kind == ProfileKind::Cloud {
                    r is Ok && final(self).list() == old(self).list().update(
                        i,
                        with_user_info(
                            EntryView {
                                hash: codec::hex_text(hash::sha256_digest(content@)),
                                ..old(self).list()[i]
                            },
                            opt_info(info),
                        ),
                    )
                } else {
                    r is Err && r->Err_0@ == "本地订阅不支持更新"@ && *final(self) == *old(self)
                },
            },
            distinct_names(old(self).list()) ==> distinct_names(final(self).list()),
    {
        let c = text::chars_of(name);
        let i: usize = match self.position(c.as_slice()) {
            Some(i) => i,
            None => return Err("not found".to_owned()),
        };
        let ghost before = self.list();
        let mut e = copy_entry(&self.entries[i]);
        assert(e@ == before[i as int]);
        if e.kind != ProfileKind::Cloud {
            return Err("本地订阅不支持更新".to_owned());
        }
        e.hash = ContentStore::sha256_hex(content);
        apply_user_info(&mut e, info);
        self.entries[i] = e;
        assert(self.list() =~= before.update(i as int, e@));
        Ok(())
    }

    /// Removes the first profile with a name.
    pub fn remove(&mut self, name: &str) -> (r: bool)
        ensures
            final(self).load_error == old(self).load_error,
            match named_from(old(self).list(), name@, 0) {
                None => !r && *final(self) == *old(self),
                Some(i) => r && final(self).list() == old(self).list().remove(i) && final(self).default_view() == default_after(
                    old(self).list().remove(i),
                    i,
                    name@,
                    old(self).default_view(),
                ),
            },
            forall|m: Seq<char>|
                m != name@ ==> #[trigger] is_named(final(self).list(), m) == is_named(
                    old(self).list(),
                    m,
                ),
            distinct_names(old(self).list()) ==> distinct_names(final(self).list()) && !is_named(
                final(self).list(),
                name@,
            ),
    {
        let c = text::chars_of(name);
        let i: usize = match self.position(c.as_slice()) {
            Some(i) => i,
            None => return false,
        };
        let ghost before = self.list();
        let _ = self.entries.remove(i);
        assert(self.list() =~= before.remove(i as int));
        proof {
            law_others_stay(before, name@);
            if distinct_names(before) {
                law_removed_profile(before, name@, self.default_view());
            }
        }
        if self.entries.len() == 0 {
            self.default = None;
            return true;
        }
        let keep = match &self.default {
            Some(d) => {
                let d = text::chars_of(d.as_str());
                !text::same(d.as_slice(), c.as_slice()) && self.position(d.as_slice()).is_some()
            },
            None => false,
        };
        if !keep {
            self.default = Some(
                if i < self.entries.len() {
                    self.entries[i].name.clone()
                } else {
                    self.entries[0].name.clone()
                },
            );
        }
        true
    }

    /// The digests that the profiles refer to.
    pub fn references(&self) -> (r: Vec<String>)
        ensures
            r@.len() == self.list().len(),
            forall|i: int| 0 <= i < r@.len() ==> (#[trigger] r@[i])@ == self.list()[i].hash,
    {
        let mut r: Vec<String> = Vec::new();
        let mut i: usize = 0;
        while i < self.entries.len()
            invariant
                i <= self.entries@.len(),
                r@.len() == i,
                forall|j: int| 0 <= j < i ==> (#[trigger] r@[j])@ == self.list()[j].hash,
            decreases self.entries@.len() - i,
        {
            r.push(self.entries[i].hash.clone());
            i += 1;
        }
        r
    }
}

/// Where no number is free, every number is taken.
proof fn lemma_all_taken(v: Seq<EntryView>, base: Seq<char>, i: nat, k: nat)
    requires
        free_number(v, base, i) is None,
        i <= k < 10000,
    ensures
        is_named(v, numbered(base, k)),
    decreases 10000 - i,
{
    if i < k {
        lemma_all_taken(v, base, i + 1, k);
    }
}

/// The names that are tried for a new profile: the wanted one, and the numbered ones.
spec fn candidate(base: Seq<char>, k: nat) -> Seq<char> {
    if k == 0 {
        base
    } else {
        numbered(base, k)
    }
}

proof fn lemma_candidates_differ(base: Seq<char>, a: nat, b: nat)
    requires
        a < b,
    ensures
        candidate(base, a) != candidate(base, b),
{
    reveal_strlit("#");
    text::law_dec_reads_back(a);
    text::law_dec_reads_back(b);
    let y = numbered(base, b);
    assert(y.skip(base.len() as int + 1) =~= text::dec(b));
    if a > 0 {
        assert(numbered(base, a).skip(base.len() as int + 1) =~= text::dec(a));
    } else {
        assert(y.len() > base.len());
    }
}

/// As many names as are all taken, so many profiles there are at least.
proof fn lemma_taken_names(v: Seq<EntryView>, base: Seq<char>, n: nat)
    requires
        forall|k: nat| k < n ==> is_named(v, #[trigger] candidate(base, k)),
    ensures
        v.len() >= n,
    decreases n,
{
    if n > 0 {
        let m = (n - 1) as nat;
        let last = candidate(base, m);
        assert(is_named(v, last));
        lemma_named_from(v, last, 0);
        let i = named_from(v, last, 0)->0;
        let rest = v.remove(i);
        assert forall|k: nat| k < m implies is_named(rest, #[trigger] candidate(base, k)) by {
            let c = candidate(base, k);
            assert(is_named(v, c));
            lemma_candidates_differ(base, k, m);
            lemma_named_from(v, c, 0);
            lemma_named_from(rest, c, 0);
            let j = named_from(v, c, 0)->0;
            assert(rest[if j < i {
                j
            } else {
                j - 1
            }] == v[j]);
        }
        lemma_taken_names(rest, base, m);
    }
}

/// Among fewer than ten thousand profiles there is a free name for every wish.
pub proof fn law_names_are_free(v: Seq<EntryView>, preferred: Option<Seq<char>>)
    requires
        v.len() < 10000,
    ensures
        name_is_free(v, preferred),
{
    let base = wanted_name(preferred);
    if !name_is_free(v, preferred) {
        assert forall|k: nat| k < 10000 implies is_named(v, #[trigger] candidate(base, k)) by {
            if k > 0 {
                lemma_all_taken(v, base, 1, k);
            }
        }
        lemma_taken_names(v, base, 10000);
    }
}

proof fn lemma_free_number(v: Seq<EntryView>, base: Seq<char>, i: nat)
    ensures
        free_number(v, base, i) is Some ==> !is_named(v, numbered(base, free_number(v, base, i)->0)),
    decreases 10000 - i,
{
    if i >= 10000 {
    } else if !is_named(v, numbered(base, i)) {
    } else {
        lemma_free_number(v, base, i + 1);
    }
}

// ---- laws ----
/// Whether no two profiles have the same name.
pub open spec fn distinct_names(v: Seq<EntryView>) -> bool {
    forall|i: int, j: int|
        0 <= i < j < v.len() ==> (#[trigger] v[i]).name != (#[trigger] v[j]).name
}

/// Adding a profile under a free name keeps the names distinct, and the added
/// profile is the one that the new default names.
pub proof fn law_added_profile(v: Seq<EntryView>, e: EntryView)
    requires
        distinct_names(v),
        !is_named(v, e.name),
    ensures
        distinct_names(v.push(e)),
        named_from(v.push(e), e.name, 0) == Some(v.len() as int),
{
    lemma_named_from(v, e.name, 0);
    lemma_named_from(v.push(e), e.name, 0);
    let w = v.push(e);
    assert(w[v.len() as int].name == e.name);
    assert forall|i: int, j: int| 0 <= i < j < w.len() implies (#[trigger] w[i]).name != (
    #[trigger] w[j]).name by {
        assert(w[i] == v[i]);
        if j < v.len() {
            assert(w[j] == v[j]);
        }
    }
}

/// Without a profile, the profiles of other names are there as before.
pub proof fn law_others_stay(v: Seq<EntryView>, name: Seq<char>)
    requires
        is_named(v, name),
    ensures
        forall|m: Seq<char>|
            m != name ==> #[trigger] is_named(v.remove(named_from(v, name, 0)->0), m) == is_named(
                v,
                m,
            ),
{
    lemma_named_from(v, name, 0);
    let i = named_from(v, name, 0)->0;
    let rest = v.remove(i);
    assert forall|m: Seq<char>| m != name implies #[trigger] is_named(rest, m) == is_named(
        v,
        m,
    ) by {
        lemma_named_from(v, m, 0);
        lemma_named_from(rest, m, 0);
        if is_named(v, m) {
            let j = named_from(v, m, 0)->0;
            assert(rest[if j < i {
                j
            } else {
                j - 1
            }] == v[j]);
        }
        if is_named(rest, m) {
            let j = named_from(rest, m, 0)->0;
            assert(v[if j < i {
                j
            } else {
                j + 1
            }] == rest[j]);
        }
    }
}

/// With distinct names, a removed profile's name is free, the other profiles
/// stay in order, and the default names a profile as long as there is one.
pub proof fn law_removed_profile(
    v: Seq<EntryView>,
    name: Seq<char>,
    default: Option<Seq<char>>,
)
    requires
        distinct_names(v),
        is_named(v, name),
    ensures
        ({
            let i = named_from(v, name, 0)->0;
            let rest = v.remove(i);
            let d = default_after(rest, i, name, default);
            &&& distinct_names(rest)
            &&& !is_named(rest, name)
            &&& (d is None <==> rest.len() == 0)
            &&& (d is Some ==> is_named(rest, d->0))
        }),
{
    lemma_named_from(v, name, 0);
    let i = named_from(v, name, 0)->0;
    let rest = v.remove(i);
    let d = default_after(rest, i, name, default);
    assert forall|k: int| 0 <= k < rest.len() implies (#[trigger] rest[k]).name != name by {
        if k < i {
            assert(rest[k] == v[k]);
            assert(v[i].name != v[k].name);
        } else {
            assert(rest[k] == v[k + 1]);
            assert(v[i].name != v[k + 1].name);
        }
    }
    lemma_named_from(rest, name, 0);
    assert forall|a: int, b: int| 0 <= a < b < rest.len() implies (#[trigger] rest[a]).name != (
    #[trigger] rest[b]).name by {
        assert(rest[a] == v[if a < i {
            a
        } else {
            a + 1
        }]);
        assert(rest[b] == v[if b < i {
            b
        } else {
            b + 1
        }]);
    }
    if d is Some {
        lemma_named_from(rest, d->0, 0);
    }
}

/// What a subscription says of its quota: both directions together are the bytes used, and
/// what it does not say stays as it was.
pub proof fn law_quota_of_entry(e: EntryView, u: i64, d: i64, t: i64, x: i64)
    requires
        i64::MIN <= u + d <= i64::MAX,
    ensures
        ({
            let all = with_user_info(
                e,
                Some(
                    (SubscriptionUserInfo {
                        upload: Some(u),
                        download: Some(d),
                        total: Some(t),
                        expire_unix: Some(x),
                    }),
                ),
            );
            &&& all.used_bytes is Some && all.used_bytes->0 == u + d
            &&& all.total_bytes == Some(t)
            &&& all.expire_unix == Some(x)
            &&& all.name == e.name && all.hash == e.hash && all.kind == e.kind && all.url == e.url
        }),
        with_user_info(
            e,
            Some(
                (SubscriptionUserInfo {
                    upload: None,
                    download: None,
                    total: None,
                    expire_unix: None,
                }),
            ),
        ) == e,
        with_user_info(
            e,
            Some(
                (SubscriptionUserInfo {
                    upload: Some(u),
                    download: None,
                    total: None,
                    expire_unix: None,
                }),
            ),
        ).used_bytes == Some(u),
        with_user_info(e, None) == e,
{
}

/// The profile in use is the one that the default names, and the first where it names none.
pub proof fn law_profile_in_use(v: Seq<EntryView>, i: int, name: Seq<char>)
    requires
        distinct_names(v),
        0 <= i < v.len(),
        forall|j: int| 0 <= j < v.len() ==> (#[trigger] v[j]).name != name,
    ensures
        active_of(v, Some(v[i].name)) == Some(v[i]),
        active_of(v, Some(name)) == Some(v[0]),
        active_of(v, None) == Some(v[0]),
        active_of(Seq::empty(), Some(name)) is None,
{
    lemma_named_from(v, v[i].name, 0);
    lemma_named_from(v, name, 0);
}

/// A new profile gets the name that is asked for where it is free, without the white space
/// around it, and else that name with the first free number behind it.
pub proof fn law_new_name(v: Seq<EntryView>, name: Seq<char>, suffix: Seq<char>)
    requires
        name.len() > 0,
        !text::is_white(name[0]),
        !text::is_white(name.last()),
    ensures
        !is_named(v, name) ==> new_name(v, Some(name), suffix) == name,
        !is_named(v, name) ==> new_name(v, Some(seq![' '] + name + seq![' ']), suffix) == name,
        is_named(v, name) && !is_named(v, name + "#1"@) ==> new_name(v, Some(name), suffix) == name
            + "#1"@,
        is_named(v, name) && is_named(v, name + "#1"@) && !is_named(v, name + "#2"@) ==> new_name(
            v,
            Some(name),
            suffix,
        ) == name + "#2"@,
        !is_named(v, "Proxy"@) ==> new_name(v, None, suffix) == "Proxy"@ && new_name(
            v,
            Some(seq![' ']),
            suffix,
        ) == "Proxy"@,
{
    let e = Seq::<char>::empty();
    let w = seq![' '];
    text::law_trim(w, name, w);
    text::law_trim(w, e, e);
    assert(w + e + e =~= w);
    reveal_strlit("#");
    reveal_strlit("#1");
    reveal_strlit("#2");
    assert(text::dec(1) =~= seq!['1']);
    assert(text::dec(2) =~= seq!['2']);
    assert(numbered(name, 1) =~= name + "#1"@);
    assert(numbered(name, 2) =~= name + "#2"@);
    reveal_with_fuel(free_number, 3);
}

/// The default after a profile is removed: it stays where it is another one, and else it is
/// the profile that moved to the place, or the first where the last one was removed.
pub proof fn law_default_after_removal(
    rest: Seq<EntryView>,
    i: int,
    name: Seq<char>,
    other: Seq<char>,
)
    requires
        rest.len() > 0,
        0 <= i <= rest.len(),
        name != other,
        is_named(rest, other),
    ensures
        default_after(rest, i, name, Some(other)) == Some(other),
        i < rest.len() ==> default_after(rest, i, name, Some(name)) == Some(rest[i].name),
        i == rest.len() ==> default_after(rest, i, name, Some(name)) == Some(rest[0].name),
        default_after(Seq::empty(), 0, name, Some(other)) is None,
{
}

/// The lines of an entry of the stored form.
pub proof fn law_entry_layout(
    name: Seq<char>,
    hash: Seq<char>,
    url: Seq<char>,
    used: i64,
    total: i64,
    expire: i64,
)
    requires
        0 <= used,
        0 < total,
        0 < expire,
    ensures
        entry_text(
            EntryView {
                name,
                hash,
                kind: ProfileKind::Cloud,
                url: Some(url),
                used_bytes: Some(used),
                total_bytes: Some(total),
                expire_unix: Some(expire),
            },
        ) == ("  - name: "@ + escaped(name) + "\n"@) + ("    hash: "@ + hash + "\n"@) + (
        "    type: "@ + "cloud"@ + "\n"@) + (("    url: "@ + escaped(url) + "\n"@) + (
        "    used: "@ + text::dec(used as nat) + "\n"@) + ("    total: "@ + text::dec(total as nat)
            + "\n"@) + ("    expire: "@ + text::dec(expire as nat) + "\n"@)),
        entry_text(
            EntryView {
                name,
                hash,
                kind: ProfileKind::Local,
                url: None,
                used_bytes: None,
                total_bytes: None,
                expire_unix: None,
            },
        ) == ("  - name: "@ + escaped(name) + "\n"@) + ("    hash: "@ + hash + "\n"@) + (
        "    type: "@ + "local"@ + "\n"@),
{
    assert(ProfileKind::Local != ProfileKind::Cloud);
    let l = ("  - name: "@ + escaped(name) + "\n"@) + ("    hash: "@ + hash + "\n"@) + (
    "    type: "@ + "local"@ + "\n"@);
    assert(l + Seq::<char>::empty() =~= l);
}

/// The stored form names the default first, and then the profiles in their order.
pub proof fn law_store_layout(v: Seq<EntryView>, e: EntryView, d: Seq<char>)
    ensures
        store_text(Seq::empty(), None) == "profiles:\n"@,
        store_text(v, Some(d)) == "default: "@ + escaped(d) + "\n"@ + store_text(v, None),
        store_text(v.push(e), None) == store_text(v, None) + entry_text(e),
{
    let p = "profiles:\n"@;
    let z = Seq::<char>::empty();
    assert(v.push(e).drop_last() =~= v);
    assert(z + p =~= p);
    assert(p + z =~= p);
    assert(p + (entries_text(v) + entry_text(e)) =~= p + entries_text(v) + entry_text(e));
    let l = "default: "@ + escaped(d) + "\n"@;
    assert(l + p + entries_text(v) =~= l + (p + entries_text(v)));
}

} // verus!
