//! Keys bound to texts, where a later binding replaces an earlier one.

use vstd::prelude::*;

use crate::text;

verus! {

/// The value that the last binding of a key gives it.
pub open spec fn value_of(p: Seq<(Seq<char>, Seq<char>)>, k: Seq<char>) -> Option<Seq<char>>
    decreases p.len(),
{
    if p.len() == 0 {
        None
    } else if p.last().0 == k {
        Some(p.last().1)
    } else {
        value_of(p.drop_last(), k)
    }
}

/// The value of the first of two keys that has one.
pub open spec fn value_either(
    p: Seq<(Seq<char>, Seq<char>)>,
    a: Seq<char>,
    b: Seq<char>,
) -> Option<Seq<char>> {
    match value_of(p, a) {
        Some(v) => Some(v),
        None => value_of(p, b),
    }
}

/// Bindings in the order in which they were made.
pub struct Bindings {
    pub items: Vec<(Vec<char>, Vec<char>)>,
}

impl View for Bindings {
    type V = Seq<(Seq<char>, Seq<char>)>;

    open spec fn view(&self) -> Seq<(Seq<char>, Seq<char>)> {
        Seq::new(self.items@.len(), |i: int| (self.items@[i].0@, self.items@[i].1@))
    }
}

impl Bindings {
    pub fn new() -> (r: Self)
        ensures
            r@ == Seq::<(Seq<char>, Seq<char>)>::empty(),
    {
        let r = Bindings { items: Vec::new() };
        assert(r@ =~= Seq::<(Seq<char>, Seq<char>)>::empty());
        r
    }

    pub fn set(&mut self, k: Vec<char>, v: Vec<char>)
        ensures
            final(self)@ == old(self)@.push((k@, v@)),
    {
        let ghost before = self@;
        self.items.push((k, v));
        assert(self@ =~= before.push((k@, v@)));
    }

    pub fn find<'a>(&'a self, k: &[char]) -> (r: Option<&'a [char]>)
        ensures
            text::opt_slice(r) == value_of(self@, k@),
    {
        let mut n: usize = self.items.len();
        assert(self@.take(n as int) =~= self@);
        while n > 0
            invariant
                n <= self.items@.len(),
                value_of(self@, k@) == value_of(self@.take(n as int), k@),
            decreases n,
        {
            assert(self@.take(n as int).drop_last() =~= self@.take(n - 1));
            if text::same(self.items[n - 1].0.as_slice(), k) {
                return Some(self.items[n - 1].1.as_slice());
            }
            n -= 1;
        }
        None
    }

    pub fn get<'a>(&'a self, k: &str) -> (r: Option<&'a [char]>)
        ensures
            text::opt_slice(r) == value_of(self@, k@),
    {
        let c = text::chars_of(k);
        self.find(c.as_slice())
    }

    /// The value of a key as a string.
    pub fn string(&self, k: &str) -> (r: Option<String>)
        ensures
            text::opt_view(r) == value_of(self@, k@),
    {
        match self.get(k) {
            Some(v) => Some(text::string_of(v)),
            None => None,
        }
    }

    /// The value of the first of two keys that has one.
    pub fn string_either(&self, a: &str, b: &str) -> (r: Option<String>)
        ensures
            text::opt_view(r) == value_either(self@, a@, b@),
    {
        match self.get(a) {
            Some(v) => Some(text::string_of(v)),
            None => self.string(b),
        }
    }
}

// ---- laws ----
/// The last binding of a key gives its value.
pub proof fn law_last_binding_counts(p: Seq<(Seq<char>, Seq<char>)>, i: int)
    requires
        0 <= i < p.len(),
        forall|j: int| i < j < p.len() ==> (#[trigger] p[j]).0 != p[i].0,
    ensures
        value_of(p, p[i].0) == Some(p[i].1),
    decreases p.len(),
{
    if i < p.len() - 1 {
        assert(p[p.len() - 1].0 != p[i].0);
        law_last_binding_counts(p.drop_last(), i);
    }
}

/// A key that is never bound has no value.
pub proof fn law_unbound_key(p: Seq<(Seq<char>, Seq<char>)>, k: Seq<char>)
    requires
        forall|j: int| 0 <= j < p.len() ==> (#[trigger] p[j]).0 != k,
    ensures
        value_of(p, k) is None,
    decreases p.len(),
{
    if p.len() > 0 {
        assert(p[p.len() - 1].0 != k);
        law_unbound_key(p.drop_last(), k);
    }
}

/// Of two keys the first that has a value gives it.
pub proof fn law_first_key_is_asked_first(
    p: Seq<(Seq<char>, Seq<char>)>,
    a: Seq<char>,
    b: Seq<char>,
)
    ensures
        value_of(p, a) is Some ==> value_either(p, a, b) == value_of(p, a),
        value_of(p, a) is None ==> value_either(p, a, b) == value_of(p, b),
{
}

} // verus!
