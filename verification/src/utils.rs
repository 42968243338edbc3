//! Host names and a cache with expiry.

use vstd::prelude::*;

use crate::text;

verus! {

/// Whether all characters are ASCII.
pub open spec fn all_ascii(s: Seq<char>) -> bool {
    forall|i: int| 0 <= i < s.len() ==> (#[trigger] s[i]) <= '\u{7f}'
}

/// What IDNA makes of a domain, if it is one.
pub uninterp spec fn idna_ascii(s: Seq<char>) -> Option<Seq<char>>;

/// `idna::domain_to_ascii`. The result depends on the domain alone; it is
/// named, not described.
#[verifier::external_body]
pub(crate) fn idna_to_ascii(s: &str) -> (r: Option<String>)
    ensures
        text::opt_view(r) == idna_ascii(s@),
{
    idna::domain_to_ascii(s).ok()
}

/// A host in lower case, without white space around it and dots behind it.
pub open spec fn plain_host(s: Seq<char>) -> Seq<char> {
    text::lowered(text::without_char_end(text::trimmed(s), '.'))
}

/// The ASCII form of a host; a name that IDNA refuses is kept.
pub open spec fn ascii_host(s: Seq<char>) -> Seq<char> {
    let h = plain_host(s);
    if all_ascii(h) {
        h
    } else {
        match idna_ascii(h) {
            Some(a) => a,
            None => h,
        }
    }
}

pub fn is_all_ascii(s: &[char]) -> (r: bool)
    ensures
        r == all_ascii(s@),
{
    let mut i: usize = 0;
    while i < s.len()
        invariant
            i <= s@.len(),
            forall|j: int| 0 <= j < i ==> (#[trigger] s@[j]) <= '\u{7f}',
        decreases s@.len() - i,
    {
        if s[i] > '\u{7f}' {
            return false;
        }
        i += 1;
    }
    true
}

/// A host without dots behind it and in lower case.
pub fn to_plain_host(host: &str) -> (r: Vec<char>)
    ensures
        r@ == plain_host(host@),
{
    let c = text::chars_of(host);
    let t = text::trim(c.as_slice());
    let mut n: usize = t.len();
    assert(t@.take(n as int) =~= t@);
    while n > 0 && t[n - 1] == '.'
        invariant
            n <= t@.len(),
            text::without_char_end(t@, '.') == text::without_char_end(t@.take(n as int), '.'),
        decreases n,
    {
        assert(t@.take(n as int).drop_last() =~= t@.take(n - 1));
        n -= 1;
    }
    text::lower(&t[0..n])
}

pub fn domain_to_ascii(host: &str) -> (r: String)
    ensures
        r@ == ascii_host(host@),
{
    let h = to_plain_host(host);
    let s = text::string_of(h.as_slice());
    if is_all_ascii(h.as_slice()) {
        return s;
    }
    match idna_to_ascii(s.as_str()) {
        Some(a) => a,
        None => s,
    }
}

// ---- a cache with expiry ----
/// One cached value: its key, the value and the time after which it is stale.
pub struct Cached<T> {
    pub key: String,
    pub value: T,
    pub expire: u64,
}

/// The position of a key among cached values, from position `i` on.
pub open spec fn slot_from<T>(v: Seq<Cached<T>>, key: Seq<char>, i: int) -> Option<int>
    decreases v.len() - i,
{
    if i >= v.len() {
        None
    } else if v[i].key@ == key {
        Some(i)
    } else {
        slot_from(v, key, i + 1)
    }
}

/// The values that are not stale.
pub open spec fn fresh<T>(v: Seq<Cached<T>>, now: u64) -> Seq<Cached<T>> {
    v.filter(|e: Cached<T>| now <= e.expire)
}

/// What is kept of the cached values: all of them where they fit, else the
/// fresh ones, else the fresh ones that were put in last.
pub open spec fn pruned<T>(v: Seq<Cached<T>>, capacity: nat, now: u64) -> Seq<Cached<T>> {
    if v.len() <= capacity {
        v
    } else {
        let f = fresh(v, now);
        if f.len() <= capacity {
            f
        } else {
            f.skip(f.len() - capacity)
        }
    }
}

/// Values by key, each with a time after which it is stale, up to a number of
/// values. Times are in milliseconds.
pub struct TtlLru<T> {
    pub items: Vec<Cached<T>>,
    pub capacity: usize,
}

/// How long a value is fresh unless another time is given.
pub const DEFAULT_TTL: u64 = 600000;

impl<T: Clone> TtlLru<T> {
    /// No key is there twice, and there are not too many.
    pub open spec fn wf(self) -> bool {
        &&& self.items@.len() <= self.capacity
        &&& 16 <= self.capacity
        &&& forall|i: int, j: int|
            0 <= i < j < self.items@.len() ==> (#[trigger] self.items@[i]).key@ != (
            #[trigger] self.items@[j]).key@
    }

    pub fn new(capacity: usize) -> (r: Self)
        ensures
            r.wf(),
            r.items@.len() == 0,
            r.capacity == (if capacity < 16 {
                16
            } else {
                capacity
            }),
    {
        TtlLru {
            items: Vec::new(),
            capacity: if capacity < 16 {
                16
            } else {
                capacity
            },
        }
    }

    fn slot(&self, key: &[char]) -> (r: Option<usize>)
        ensures
            match r {
                Some(i) => slot_from(self.items@, key@, 0) == Some(i as int) && i
                    < self.items@.len(),
                None => slot_from(self.items@, key@, 0) is None,
            },
    {
        let mut i: usize = 0;
        while i < self.items.len()
            invariant
                i <= self.items@.len(),
                slot_from(self.items@, key@, 0) == slot_from(self.items@, key@, i as int),
            decreases self.items@.len() - i,
        {
            let c = text::chars_of(self.items[i].key.as_str());
            if text::same(c.as_slice(), key) {
                return Some(i);
            }
            i += 1;
        }
        None
    }

    /// The value of a key, unless it is stale; a stale one is dropped.
    pub fn get(&mut self, key: &str, now: u64) -> (r: Option<T>)
        requires
            old(self).wf(),
        ensures
            final(self).wf(),
            final(self).capacity == old(self).capacity,
            match slot_from(old(self).items@, key@, 0) {
                None => r is None && final(self).items@ == old(self).items@,
                Some(i) => if now > old(self).items@[i].expire {
                    r is None && final(self).items@ == old(self).items@.remove(i)
                } else {
                    r is Some && cloned::<T>(old(self).items@[i].value, r->0) && final(self).items@
                        == old(self).items@
                },
            },
    {
        let c = text::chars_of(key);
        match self.slot(c.as_slice()) {
            None => None,
            Some(i) => {
                if now > self.items[i].expire {
                    let ghost before = self.items@;
                    let _ = self.items.remove(i);
                    proof {
                        assert forall|a: int, b: int| 0 <= a < b < self.items@.len() implies (
                        #[trigger] self.items@[a]).key@ != (#[trigger] self.items@[b]).key@ by {
                            assert(self.items@[a] == before[if a < i {
                                a
                            } else {
                                a + 1
                            }]);
                            assert(self.items@[b] == before[if b < i {
                                b
                            } else {
                                b + 1
                            }]);
                        }
                    }
                    None
                } else {
                    Some(self.items[i].value.clone())
                }
            },
        }
    }

    /// Binds a key to a value for a time. Where there are too many values then,
    /// the stale ones go, and if that is not enough the oldest.
    pub fn set(&mut self, key: String, value: T, ttl: Option<u64>, now: u64)
        requires
            old(self).wf(),
            now + (match ttl {
                Some(t) => t,
                None => DEFAULT_TTL,
            }) <= u64::MAX,
        ensures
            final(self).wf(),
            final(self).capacity == old(self).capacity,
            ({
                let e = Cached {
                    key,
                    value,
                    expire: (now + (match ttl {
                        Some(t) => t,
                        None => DEFAULT_TTL,
                    })) as u64,
                };
                let rest = match slot_from(old(self).items@, key@, 0) {
                    Some(i) => old(self).items@.remove(i),
                    None => old(self).items@,
                };
                final(self).items@ == pruned(rest.push(e), old(self).capacity as nat, now)
            }),
    {
        let c = text::chars_of(key.as_str());
        let span: u64 = match ttl {
            Some(t) => t,
            None => DEFAULT_TTL,
        };
        let ghost before = self.items@;
        let ghost found = slot_from(before, key@, 0);
        if let Some(i) = self.slot(c.as_slice()) {
            let _ = self.items.remove(i);
        }
        let ghost rest = self.items@;
        proof {
            lemma_slot(before, key@, 0);
            assert forall|a: int| 0 <= a < rest.len() implies (#[trigger] rest[a]).key@
                != key@ by {
                if let Some(i) = found {
                    if a < i {
                        assert(rest[a] == before[a]);
                    } else {
                        assert(rest[a] == before[a + 1]);
                    }
                }
            }
            assert forall|a: int, b: int| 0 <= a < b < rest.len() implies (
            #[trigger] rest[a]).key@ != (#[trigger] rest[b]).key@ by {
                if let Some(i) = found {
                    assert(rest[a] == before[if a < i {
                        a
                    } else {
                        a + 1
                    }]);
                    assert(rest[b] == before[if b < i {
                        b
                    } else {
                        b + 1
                    }]);
                }
            }
        }
        self.items.push(Cached { key, value, expire: now + span });
        let ghost all = self.items@;
        if self.items.len() > self.capacity {
            let mut keep: Vec<Cached<T>> = Vec::new();
            let mut old_items: Vec<Cached<T>> = Vec::new();
            std::mem::swap(&mut old_items, &mut self.items);
            let ghost live = |e: Cached<T>| now <= e.expire;
            proof {
                reveal(Seq::filter);
                assert(all.take(0).filter(live) =~= keep@);
            }
            for e in it: old_items
                invariant
                    it.seq() == all,
                    live == (|e: Cached<T>| now <= e.expire),
                    keep@ == all.take(it.index()).filter(live),
            {
                proof {
                    reveal(Seq::filter);
                    assert(all.take(it.index() + 1).drop_last() =~= all.take(it.index()));
                    assert(all.take(it.index() + 1).last() == e);
                }
                if now <= e.expire {
                    keep.push(e);
                }
            }
            proof {
                assert(all.take(all.len() as int) =~= all);
                lemma_filter_distinct(all, live);
            }
            let ghost f = keep@;
            if keep.len() > self.capacity {
                let extra: usize = keep.len() - self.capacity;
                let tail = keep.split_off(extra);
                assert(tail@ =~= f.skip(f.len() - self.capacity));
                self.items = tail;
            } else {
                self.items = keep;
            }
        }
    }
}

pub proof fn lemma_slot<T>(v: Seq<Cached<T>>, key: Seq<char>, i: int)
    requires
        0 <= i,
    ensures
        match slot_from(v, key, i) {
            Some(j) => i <= j < v.len() && v[j].key@ == key && (forall|k: int|
                i <= k < j ==> (#[trigger] v[k]).key@ != key),
            None => forall|k: int| i <= k < v.len() ==> (#[trigger] v[k]).key@ != key,
        },
    decreases v.len() - i,
{
    if i >= v.len() {
    } else if v[i].key@ == key {
    } else {
        lemma_slot(v, key, i + 1);
    }
}

proof fn lemma_filter_distinct<T>(v: Seq<Cached<T>>, p: spec_fn(Cached<T>) -> bool)
    requires
        forall|i: int, j: int|
            0 <= i < j < v.len() ==> (#[trigger] v[i]).key@ != (#[trigger] v[j]).key@,
    ensures
        forall|i: int, j: int|
            0 <= i < j < v.filter(p).len() ==> (#[trigger] v.filter(p)[i]).key@ != (
            #[trigger] v.filter(p)[j]).key@,
        forall|i: int| #![trigger v.filter(p)[i]] 0 <= i < v.filter(p).len() ==> v.contains(v.filter(p)[i]),
    decreases v.len(),
{
    reveal(Seq::filter);
    if v.len() > 0 {
        let w = v.drop_last();
        lemma_filter_distinct(w, p);
        let f = v.filter(p);
        assert forall|i: int| #![trigger f[i]] 0 <= i < f.len() implies v.contains(f[i]) by {
            if i < w.filter(p).len() {
                assert(f[i] == w.filter(p)[i]);
                let k = choose|k: int| 0 <= k < w.len() && w[k] == f[i];
                assert(v[k] == f[i]);
            } else {
                assert(f[i] == v[v.len() - 1]);
            }
        }
        assert forall|i: int, j: int| 0 <= i < j < f.len() implies (#[trigger] f[i]).key@ != (
        #[trigger] f[j]).key@ by {
            if j < w.filter(p).len() {
                assert(f[i] == w.filter(p)[i] && f[j] == w.filter(p)[j]);
            } else {
                assert(f[j] == v[v.len() - 1]);
                assert(f[i] == w.filter(p)[i]);
                let k = choose|k: int| 0 <= k < w.len() && w[k] == w.filter(p)[i];
                assert(v[k] == f[i]);
            }
        }
    }
}

/// What is kept was there before.
pub proof fn lemma_pruned_members<T>(v: Seq<Cached<T>>, capacity: nat, now: u64)
    ensures
        forall|i: int|
            #![trigger pruned(v, capacity, now)[i]]
            0 <= i < pruned(v, capacity, now).len() ==> v.contains(pruned(v, capacity, now)[i]),
{
    let live = |e: Cached<T>| now <= e.expire;
    lemma_filter_members(v, live);
    let p = pruned(v, capacity, now);
    let f = v.filter(live);
    assert forall|i: int| #![trigger p[i]] 0 <= i < p.len() implies v.contains(p[i]) by {
        if v.len() <= capacity {
            assert(p[i] == v[i]);
        } else if f.len() <= capacity {
            assert(p[i] == f[i]);
        } else {
            assert(p[i] == f[i + (f.len() - capacity)]);
        }
    }
}

/// What was put in last is found again as long as it is fresh.
pub proof fn law_cached_value_is_found<T>(rest: Seq<Cached<T>>, e: Cached<T>, capacity: nat, now: u64)
    requires
        16 <= capacity,
        now <= e.expire,
        rest.len() <= capacity,
        slot_from(rest, e.key@, 0) is None,
    ensures
        ({
            let v = pruned(rest.push(e), capacity, now);
            slot_from(v, e.key@, 0) == Some(v.len() - 1) && v.last() == e
        }),
{
    let all = rest.push(e);
    let live = |x: Cached<T>| now <= x.expire;
    let f = all.filter(live);
    reveal(Seq::filter);
    assert(all.drop_last() =~= rest);
    assert(f == rest.filter(live).push(e));
    lemma_slot(rest, e.key@, 0);
    lemma_filter_members(rest, live);
    let v = pruned(all, capacity, now);
    assert forall|k: int| 0 <= k < v.len() - 1 implies (#[trigger] v[k]).key@ != e.key@ by {
        if all.len() <= capacity {
            assert(v[k] == rest[k]);
        } else if f.len() <= capacity {
            assert(v[k] == rest.filter(live)[k]);
        } else {
            let d = f.len() - capacity;
            assert(v[k] == f[k + d]);
            assert(f[k + d] == rest.filter(live)[k + d]);
        }
    }
    lemma_slot(v, e.key@, 0);
    assert(v[v.len() - 1] == e);
}

proof fn lemma_filter_members<T>(v: Seq<Cached<T>>, p: spec_fn(Cached<T>) -> bool)
    ensures
        forall|i: int| #![trigger v.filter(p)[i]] 0 <= i < v.filter(p).len() ==> exists|k: int| 0 <= k < v.len() && v[k] == v.filter(p)[i],
    decreases v.len(),
{
    reveal(Seq::filter);
    if v.len() > 0 {
        let w = v.drop_last();
        lemma_filter_members(w, p);
        let f = v.filter(p);
        assert forall|i: int| #![trigger f[i]] 0 <= i < f.len() implies exists|k: int| 0 <= k < v.len() && v[k] == f[i] by {
            if i < w.filter(p).len() {
                assert(f[i] == w.filter(p)[i]);
                let k = choose|k: int| 0 <= k < w.len() && w[k] == w.filter(p)[i];
                assert(v[k] == f[i]);
            } else {
                assert(v[v.len() - 1] == f[i]);
            }
        }
    }
}

proof fn lemma_case_keeps_kind(x: char, y: char)
    requires
        text::lower_char(x) == text::lower_char(y),
    ensures
        text::is_white(x) == text::is_white(y),
        (x == '.') == (y == '.'),
{
}

proof fn lemma_case_start(a: Seq<char>, b: Seq<char>)
    requires
        text::same_nocase(a, b),
    ensures
        text::same_nocase(text::trimmed_start(a), text::trimmed_start(b)),
    decreases a.len(),
{
    assert(a.len() == text::lowered(a).len() && b.len() == text::lowered(b).len());
    if a.len() > 0 {
        assert(text::lowered(a)[0] == text::lowered(b)[0]);
        lemma_case_keeps_kind(a[0], b[0]);
        if text::is_white(a[0]) {
            assert(text::lowered(a.skip(1)) =~= text::lowered(a).skip(1));
            assert(text::lowered(b.skip(1)) =~= text::lowered(b).skip(1));
            lemma_case_start(a.skip(1), b.skip(1));
        }
    }
}

proof fn lemma_case_end(a: Seq<char>, b: Seq<char>)
    requires
        text::same_nocase(a, b),
    ensures
        text::same_nocase(text::trimmed_end(a), text::trimmed_end(b)),
        text::same_nocase(text::without_char_end(a, '.'), text::without_char_end(b, '.')),
    decreases a.len(),
{
    assert(a.len() == text::lowered(a).len() && b.len() == text::lowered(b).len());
    if a.len() > 0 {
        assert(text::lowered(a).last() == text::lowered(b).last());
        lemma_case_keeps_kind(a.last(), b.last());
        if text::is_white(a.last()) || a.last() == '.' {
            assert(text::lowered(a.drop_last()) =~= text::lowered(a).drop_last());
            assert(text::lowered(b.drop_last()) =~= text::lowered(b).drop_last());
            lemma_case_end(a.drop_last(), b.drop_last());
        }
    }
}

/// Spellings of a host that differ in the case of ASCII letters have one ASCII form.
pub proof fn law_case_is_dropped(a: Seq<char>, b: Seq<char>)
    requires
        text::same_nocase(a, b),
    ensures
        ascii_host(a) == ascii_host(b),
{
    lemma_case_start(a, b);
    lemma_case_end(text::trimmed_start(a), text::trimmed_start(b));
    lemma_case_end(text::trimmed(a), text::trimmed(b));
}

proof fn lemma_dot_start(a: Seq<char>)
    requires
        a.len() > 0 ==> !text::is_white(a.last()),
    ensures
        text::trimmed_start(a.push('.')) == text::trimmed_start(a).push('.'),
        text::trimmed_end(text::trimmed_start(a)) == text::trimmed_start(a),
    decreases a.len(),
{
    let b = a.push('.');
    if a.len() > 0 {
        assert(b[0] == a[0]);
        if text::is_white(a[0]) {
            assert(a.len() > 1);
            assert(b.skip(1) =~= a.skip(1).push('.'));
            assert(a.skip(1).last() == a.last());
            lemma_dot_start(a.skip(1));
        }
    }
}

/// A dot behind a host is dropped.
pub proof fn law_last_dot_is_dropped(a: Seq<char>)
    requires
        a.len() > 0 ==> !text::is_white(a.last()),
    ensures
        ascii_host(a.push('.')) == ascii_host(a),
{
    lemma_dot_start(a);
    let t = text::trimmed_start(a);
    assert(t.push('.').last() == '.');
    assert(t.push('.').drop_last() =~= t);
    assert(text::trimmed(a.push('.')) == t.push('.'));
}

} // verus!
