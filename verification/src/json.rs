//! JSON values as plain data.

use vstd::prelude::*;

use crate::text;

verus! {

/// A JSON value. A number keeps what it is as an unsigned and as a signed
/// integer; a number that is neither keeps nothing.
#[derive(Debug)]
pub enum Json {
    Null,
    Bool(bool),
    Number { unsigned: Option<u64>, signed: Option<i64> },
    Text(String),
    List(Vec<Json>),
    Object(Vec<(String, Json)>),
}

/// What a JSON value is.
pub enum JsonView {
    Null,
    Bool(bool),
    Number { unsigned: Option<u64>, signed: Option<i64> },
    Text(Seq<char>),
    List(Seq<JsonView>),
    Object(Seq<(Seq<char>, JsonView)>),
}

pub open spec fn json_view(j: Json) -> JsonView
    decreases j,
{
    match j {
        Json::Null => JsonView::Null,
        Json::Bool(b) => JsonView::Bool(b),
        Json::Number { unsigned, signed } => JsonView::Number { unsigned, signed },
        Json::Text(s) => JsonView::Text(s@),
        Json::List(v) => JsonView::List(
            Seq::new(
                v@.len(),
                |i: int|
                    if 0 <= i < v@.len() {
                        json_view(v@[i])
                    } else {
                        JsonView::Null
                    },
            ),
        ),
        Json::Object(o) => JsonView::Object(
            Seq::new(
                o@.len(),
                |i: int|
                    if 0 <= i < o@.len() {
                        (o@[i].0@, json_view(o@[i].1))
                    } else {
                        (Seq::empty(), JsonView::Null)
                    },
            ),
        ),
    }
}

impl View for Json {
    type V = JsonView;

    open spec fn view(&self) -> JsonView {
        json_view(*self)
    }
}

/// The views of a sequence of values.
pub open spec fn json_views(v: Seq<Json>) -> Seq<JsonView> {
    Seq::new(v.len(), |i: int| v[i]@)
}

pub open spec fn opt_json(o: Option<Json>) -> Option<JsonView> {
    match o {
        Some(j) => Some(j@),
        None => None,
    }
}

/// The JSON value that a text holds, if it holds one.
pub uninterp spec fn json_value(s: Seq<char>) -> Option<JsonView>;

/// The plain form of a `serde_json::Value`, variant by variant: a number by
/// its `as_u64` and `as_i64`, an object by its entries.
#[verifier::external_body]
fn plain(v: &serde_json::Value) -> (r: Json) {
    match v {
        serde_json::Value::Null => Json::Null,
        serde_json::Value::Bool(b) => Json::Bool(*b),
        serde_json::Value::Number(n) => Json::Number { unsigned: n.as_u64(), signed: n.as_i64() },
        serde_json::Value::String(s) => Json::Text(s.clone()),
        serde_json::Value::Array(a) => Json::List(a.iter().map(plain).collect()),
        serde_json::Value::Object(o) => {
            Json::Object(o.iter().map(|(k, x)| (k.clone(), plain(x))).collect())
        },
    }
}

#[verifier::external_type_specification]
#[verifier::external_body]
pub struct ExValue(serde_json::Value);

/// A value without values inside.
#[verifier::ext_equal]
pub enum Scalar {
    Text(Seq<char>),
    Number(u64),
    Bool(bool),
    Null,
}

/// How a value is written.
pub open spec fn scalar_text(v: Scalar) -> Seq<char> {
    match v {
        Scalar::Text(s) => json_literal(s),
        Scalar::Number(n) => text::dec(n as nat),
        Scalar::Bool(b) => if b {
            "true"@
        } else {
            "false"@
        },
        Scalar::Null => "null"@,
    }
}

/// How an entry of an object is written.
pub open spec fn member_text(m: (Seq<char>, Scalar)) -> Seq<char> {
    "\""@ + m.0 + "\":"@ + scalar_text(m.1)
}

pub open spec fn members_text(m: Seq<(Seq<char>, Scalar)>) -> Seq<char>
    decreases m.len(),
{
    if m.len() == 0 {
        Seq::empty()
    } else if m.len() == 1 {
        member_text(m[0])
    } else {
        members_text(m.drop_last()) + ","@ + member_text(m.last())
    }
}

/// How an object is written, without spaces.
pub open spec fn object_text(m: Seq<(Seq<char>, Scalar)>) -> Seq<char> {
    "{"@ + members_text(m) + "}"@
}

/// How an object is written whose last entry is an object again.
pub open spec fn nested_text(
    m: Seq<(Seq<char>, Scalar)>,
    key: Seq<char>,
    inner: Seq<(Seq<char>, Scalar)>,
) -> Seq<char> {
    "{"@ + members_text(m) + ",\""@ + key + "\":"@ + object_text(inner) + "}"@
}

/// Whether a key is of lower-case letters and digits.
pub open spec fn plain_key(k: Seq<char>) -> bool {
    forall|j: int| 0 <= j < k.len() ==> 'a' <= #[trigger] k[j] <= 'z' || '0' <= k[j] <= '9'
}

/// Whether the keys are plain, and all different.
pub open spec fn plain_keys(m: Seq<(Seq<char>, Scalar)>) -> bool {
    &&& forall|i: int| 0 <= i < m.len() ==> plain_key((#[trigger] m[i]).0)
    &&& forall|i: int, j: int| 0 <= i < j < m.len() ==> #[trigger] m[i].0 != #[trigger] m[j].0
}

/// Whether a value is the one that was written.
pub open spec fn is_scalar(j: JsonView, v: Scalar) -> bool {
    match v {
        Scalar::Text(s) => j.text_value() == Some(s),
        Scalar::Number(n) => j.unsigned_value() == Some(n) && (n <= i64::MAX ==> j.signed_value()
            == Some(n as i64)),
        Scalar::Bool(b) => j.bool_value() == Some(b),
        Scalar::Null => j is Null,
    }
}

/// Whether a value is an object with the entries that were written.
pub open spec fn is_object(j: JsonView, m: Seq<(Seq<char>, Scalar)>) -> bool {
    forall|i: int|
        0 <= i < m.len() ==> j.entry((#[trigger] m[i]).0) is Some && is_scalar(
            j.entry(m[i].0)->0,
            m[i].1,
        )
}

/// `serde_json::from_str` into a `serde_json::Value`, in its plain form. The
/// value depends on the text alone; it is named, not described. An object that is
/// written with plain keys, numbers, truth values and the literals that
/// `serde_json::to_string` makes of strings is read with these entries; so is one with
/// such an object as its last entry.
#[verifier::external_body]
pub(crate) fn parse_json(s: &str) -> (r: Option<Json>)
    ensures
        opt_json(r) == json_value(s@),
        forall|m: Seq<(Seq<char>, Scalar)>|
            s@ == #[trigger] object_text(m) && plain_keys(m) ==> r is Some && is_object(r->0@, m),
        forall|m: Seq<(Seq<char>, Scalar)>, key: Seq<char>, inner: Seq<(Seq<char>, Scalar)>|
            s@ == #[trigger] nested_text(m, key, inner) && m.len() > 0 && plain_keys(
                m.push((key, Scalar::Null)),
            ) && plain_keys(inner) ==> r is Some && is_object(r->0@, m) && r->0@.entry(key) is Some
                && r->0@.entry(key)->0 is Object && is_object(r->0@.entry(key)->0, inner),
{
    serde_json::from_str::<serde_json::Value>(s).ok().map(|v| plain(&v))
}

/// The JSON string literal of a text.
pub uninterp spec fn json_literal(s: Seq<char>) -> Seq<char>;

/// `serde_json::to_string` on a string, which depends on the string alone; the
/// literal is named, not described.
#[verifier::external_body]
pub(crate) fn json_string(s: &str) -> (r: String)
    ensures
        r@ == json_literal(s@),
{
    serde_json::to_string(s).unwrap_or("\"\"".into())
}

/// The entry of an object under a key, searched from position `i`.
pub open spec fn entry_from(
    o: Seq<(Seq<char>, JsonView)>,
    k: Seq<char>,
    i: int,
) -> Option<JsonView>
    decreases o.len() - i,
{
    if i >= o.len() {
        None
    } else if o[i].0 == k {
        Some(o[i].1)
    } else {
        entry_from(o, k, i + 1)
    }
}

impl JsonView {
    /// The entry of an object under a key.
    pub open spec fn entry(self, k: Seq<char>) -> Option<JsonView> {
        match self {
            JsonView::Object(o) => entry_from(o, k, 0),
            _ => None,
        }
    }

    /// The text of a string value.
    pub open spec fn text_value(self) -> Option<Seq<char>> {
        match self {
            JsonView::Text(s) => Some(s),
            _ => None,
        }
    }

    /// The items of a list.
    pub open spec fn items(self) -> Option<Seq<JsonView>> {
        match self {
            JsonView::List(v) => Some(v),
            _ => None,
        }
    }

    pub open spec fn unsigned_value(self) -> Option<u64> {
        match self {
            JsonView::Number { unsigned, .. } => unsigned,
            _ => None,
        }
    }

    pub open spec fn signed_value(self) -> Option<i64> {
        match self {
            JsonView::Number { signed, .. } => signed,
            _ => None,
        }
    }

    pub open spec fn bool_value(self) -> Option<bool> {
        match self {
            JsonView::Bool(b) => Some(b),
            _ => None,
        }
    }
}

impl Json {
    pub fn get<'a>(&'a self, k: &str) -> (r: Option<&'a Json>)
        ensures
            match r {
                Some(j) => self@.entry(k@) == Some(j@),
                None => self@.entry(k@) is None,
            },
    {
        match self {
            Json::Object(o) => {
                let key = text::chars_of(k);
                let ghost v = self@->Object_0;
                let mut i: usize = 0;
                while i < o.len()
                    invariant
                        i <= o@.len(),
                        key@ == k@,
                        *self == Json::Object(*o),
                        self@ == JsonView::Object(v),
                        v.len() == o@.len(),
                        forall|j: int|
                            0 <= j < v.len() ==> #[trigger] v[j] == (o@[j].0@, o@[j].1@),
                        entry_from(v, k@, 0) == entry_from(v, k@, i as int),
                    decreases o@.len() - i,
                {
                    assert(v[i as int] == (o@[i as int].0@, o@[i as int].1@));
                    let c = text::chars_of(o[i].0.as_str());
                    if text::same(c.as_slice(), key.as_slice()) {
                        return Some(&o[i].1);
                    }
                    i += 1;
                }
                None
            },
            _ => None,
        }
    }

    pub fn as_str<'a>(&'a self) -> (r: Option<&'a String>)
        ensures
            match r {
                Some(s) => self@.text_value() == Some(s@),
                None => self@.text_value() is None,
            },
    {
        match self {
            Json::Text(s) => Some(s),
            _ => None,
        }
    }

    pub fn as_array<'a>(&'a self) -> (r: Option<&'a Vec<Json>>)
        ensures
            match r {
                Some(v) => self@.items() == Some(json_views(v@)),
                None => self@.items() is None,
            },
    {
        match self {
            Json::List(v) => {
                assert(self@->List_0 =~= json_views(v@));
                Some(v)
            },
            _ => None,
        }
    }

    pub fn as_u64(&self) -> (r: Option<u64>)
        ensures
            r == self@.unsigned_value(),
    {
        match self {
            Json::Number { unsigned, .. } => *unsigned,
            _ => None,
        }
    }

    pub fn as_i64(&self) -> (r: Option<i64>)
        ensures
            r == self@.signed_value(),
    {
        match self {
            Json::Number { signed, .. } => *signed,
            _ => None,
        }
    }

    pub fn as_bool(&self) -> (r: Option<bool>)
        ensures
            r == self@.bool_value(),
    {
        match self {
            Json::Bool(b) => Some(*b),
            _ => None,
        }
    }
}

/// The text under a key.
pub open spec fn text_at(v: JsonView, k: Seq<char>) -> Option<Seq<char>> {
    match v.entry(k) {
        Some(x) => x.text_value(),
        None => None,
    }
}

/// The integer under a key, zero without one.
pub open spec fn int_at(v: JsonView, k: Seq<char>) -> i64 {
    match v.entry(k) {
        Some(x) => match x.signed_value() {
            Some(n) => n,
            None => 0,
        },
        None => 0,
    }
}

/// The unsigned integer under a key, zero without one.
pub open spec fn unsigned_at(v: JsonView, k: Seq<char>) -> u64 {
    match v.entry(k) {
        Some(x) => match x.unsigned_value() {
            Some(n) => n,
            None => 0,
        },
        None => 0,
    }
}

/// The truth value under a key.
pub open spec fn bool_at(v: JsonView, k: Seq<char>) -> Option<bool> {
    match v.entry(k) {
        Some(x) => x.bool_value(),
        None => None,
    }
}

/// The items of the list under a key.
pub open spec fn list_at(v: JsonView, k: Seq<char>) -> Option<Seq<JsonView>> {
    match v.entry(k) {
        Some(x) => x.items(),
        None => None,
    }
}

/// The first item of the list under a key.
pub open spec fn first_at(v: JsonView, k: Seq<char>) -> Option<JsonView> {
    match list_at(v, k) {
        Some(s) => if s.len() > 0 {
            Some(s[0])
        } else {
            None
        },
        None => None,
    }
}

/// The text under a key of an entry.
pub open spec fn text_in(v: JsonView, k: Seq<char>, inner: Seq<char>) -> Option<Seq<char>> {
    match v.entry(k) {
        Some(x) => text_at(x, inner),
        None => None,
    }
}

pub fn jstr(v: &Json, k: &str) -> (r: Option<String>)
    ensures
        text::opt_view(r) == text_at(v@, k@),
{
    match v.get(k) {
        Some(x) => match x.as_str() {
            Some(s) => Some(s.clone()),
            None => None,
        },
        None => None,
    }
}

pub fn jstr_in(v: &Json, k: &str, inner: &str) -> (r: Option<String>)
    ensures
        text::opt_view(r) == text_in(v@, k@, inner@),
{
    match v.get(k) {
        Some(x) => jstr(x, inner),
        None => None,
    }
}

pub fn jint(v: &Json, k: &str) -> (r: i64)
    ensures
        r == int_at(v@, k@),
{
    match v.get(k) {
        Some(x) => match x.as_i64() {
            Some(n) => n,
            None => 0,
        },
        None => 0,
    }
}

pub fn junsigned(v: &Json, k: &str) -> (r: u64)
    ensures
        r == unsigned_at(v@, k@),
{
    match v.get(k) {
        Some(x) => match x.as_u64() {
            Some(n) => n,
            None => 0,
        },
        None => 0,
    }
}

pub fn jbool(v: &Json, k: &str) -> (r: Option<bool>)
    ensures
        r == bool_at(v@, k@),
{
    match v.get(k) {
        Some(x) => x.as_bool(),
        None => None,
    }
}

pub fn jlist<'a>(v: &'a Json, k: &str) -> (r: Option<&'a Vec<Json>>)
    ensures
        match r {
            Some(s) => list_at(v@, k@) == Some(json_views(s@)),
            None => list_at(v@, k@) is None,
        },
{
    match v.get(k) {
        Some(x) => x.as_array(),
        None => None,
    }
}

pub fn jfirst<'a>(v: &'a Json, k: &str) -> (r: Option<&'a Json>)
    ensures
        match r {
            Some(x) => first_at(v@, k@) == Some(x@),
            None => first_at(v@, k@) is None,
        },
{
    match jlist(v, k) {
        Some(s) => if s.len() > 0 {
            Some(&s[0])
        } else {
            None
        },
        None => None,
    }
}

// ---- laws ----
/// The value of a key in an object is that of the first entry with the key, whatever stands
/// behind it; a value of another kind than the one asked for counts as none.
pub proof fn law_entry_of_key(
    before: Seq<(Seq<char>, JsonView)>,
    k: Seq<char>,
    v: JsonView,
    after: Seq<(Seq<char>, JsonView)>,
)
    requires
        forall|i: int| 0 <= i < before.len() ==> (#[trigger] before[i]).0 != k,
    ensures
        ({
            let o = JsonView::Object(before + seq![(k, v)] + after);
            &&& o.entry(k) == Some(v)
            &&& JsonView::Object(before).entry(k) is None
            &&& (v is Text ==> text_at(o, k) == Some(v->Text_0))
            &&& (v !is Text ==> text_at(o, k) is None)
            &&& (v is Bool ==> bool_at(o, k) == Some(v->Bool_0))
            &&& (v !is Bool ==> bool_at(o, k) is None)
            &&& (v is List ==> list_at(o, k) == Some(v->List_0))
            &&& (v !is Number ==> unsigned_at(o, k) == 0 && int_at(o, k) == 0)
        }),
{
    lemma_entry_from(before, k, v, after, 0);
}

proof fn lemma_entry_from(
    before: Seq<(Seq<char>, JsonView)>,
    k: Seq<char>,
    v: JsonView,
    after: Seq<(Seq<char>, JsonView)>,
    i: int,
)
    requires
        0 <= i <= before.len(),
        forall|i: int| 0 <= i < before.len() ==> (#[trigger] before[i]).0 != k,
    ensures
        entry_from(before + seq![(k, v)] + after, k, i) == Some(v),
        entry_from(before, k, i) is None,
    decreases before.len() - i,
{
    let o = before + seq![(k, v)] + after;
    if i < before.len() {
        assert(o[i] == before[i]);
        lemma_entry_from(before, k, v, after, i + 1);
    } else {
        assert(o[i] == (k, v));
    }
}

} // verus!
