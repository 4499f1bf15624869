//! The parameter set of one request: an ordered mapping from parameter
//! name to value, built fresh per call, with pairwise distinct keys.
//! Optional parameters are omitted entirely when absent, never sent as
//! empty entries.

use vstd::prelude::*;
use crate::text::str_eq;

verus! {

/// True when some pair of `s` carries the key `k`.
pub open spec fn ps_contains_key(s: Seq<(Seq<char>, Seq<char>)>, k: Seq<char>) -> bool {
    exists|i: int| 0 <= i < s.len() && s[i].0 == k
}

/// The value under `k`: that of the first pair carrying it.
pub open spec fn ps_get(s: Seq<(Seq<char>, Seq<char>)>, k: Seq<char>) -> Option<Seq<char>>
    decreases s.len(),
{
    if s.len() == 0 {
        None
    } else if s[0].0 == k {
        Some(s[0].1)
    } else {
        ps_get(s.drop_first(), k)
    }
}

/// Pairwise distinct keys.
pub open spec fn ps_keys_unique(s: Seq<(Seq<char>, Seq<char>)>) -> bool {
    forall|i: int, j: int| 0 <= i < j < s.len() ==> s[i].0 != s[j].0
}

/// A key is carried exactly when a value is found under it.
pub proof fn lemma_ps_get_some(s: Seq<(Seq<char>, Seq<char>)>, k: Seq<char>)
    ensures
        ps_contains_key(s, k) == (ps_get(s, k) is Some),
    decreases s.len(),
{
    if s.len() == 0 {
    } else if s[0].0 == k {
        assert(ps_contains_key(s, k));
    } else {
        lemma_ps_get_some(s.drop_first(), k);
        if ps_contains_key(s, k) {
            let i = choose|i: int| 0 <= i < s.len() && s[i].0 == k;
            assert(s.drop_first()[i - 1] == s[i]);
            assert(ps_contains_key(s.drop_first(), k));
        }
        if ps_contains_key(s.drop_first(), k) {
            let i = choose|i: int| 0 <= i < s.drop_first().len() && s.drop_first()[i].0 == k;
            assert(s[i + 1] == s.drop_first()[i]);
            assert(ps_contains_key(s, k));
        }
    }
}

/// Appending a fresh key keeps keys pairwise distinct: this is how
/// every parameter set built here keeps its uniqueness invariant.
pub proof fn lemma_push_keeps_keys_unique(
    s: Seq<(Seq<char>, Seq<char>)>,
    k: Seq<char>,
    v: Seq<char>,
)
    requires
        ps_keys_unique(s),
        !ps_contains_key(s, k),
    ensures
        ps_keys_unique(s.push((k, v))),
{
    let t = s.push((k, v));
    assert forall|i: int, j: int| 0 <= i < j < t.len() implies t[i].0 != t[j].0 by {
        if j == s.len() {
            assert(t[i] == s[i]);
            if s[i].0 == k {
                assert(ps_contains_key(s, k));
            }
        } else {
            assert(t[i] == s[i]);
            assert(t[j] == s[j]);
        }
    }
}

/// An ordered set of request parameters.
pub struct ParamSet {
    entries: Vec<(String, String)>,
}

impl View for ParamSet {
    type V = Seq<(Seq<char>, Seq<char>)>;

    closed spec fn view(&self) -> Seq<(Seq<char>, Seq<char>)> {
        Seq::new(self.entries@.len(), |i: int| (self.entries[i].0@, self.entries[i].1@))
    }
}

impl ParamSet {
    /// A parameter set with no entries.
    pub fn new() -> (r: ParamSet)
        ensures
            r@ == Seq::<(Seq<char>, Seq<char>)>::empty(),
    {
        let r = ParamSet { entries: Vec::new() };
        proof {
            assert(r@ =~= Seq::<(Seq<char>, Seq<char>)>::empty());
        }
        r
    }

    /// Appends one parameter. The key must be fresh, so that keys stay
    /// pairwise distinct.
    pub fn insert(&mut self, key: String, value: String)
        requires
            !ps_contains_key(old(self)@, key@),
        ensures
            final(self)@ == old(self)@.push((key@, value@)),
    {
        let ghost before = self@;
        self.entries.push((key, value));
        proof {
            assert(self@ =~= before.push((key@, value@)));
        }
    }

    /// How many parameters are set.
    pub fn len(&self) -> (r: usize)
        ensures
            r == self@.len(),
    {
        self.entries.len()
    }

    /// The pair at one position, name first.
    pub fn pair_at(&self, i: usize) -> (r: (&String, &String))
        requires
            i < self@.len(),
        ensures
            r.0@ == self@[i as int].0,
            r.1@ == self@[i as int].1,
    {
        let p = &self.entries[i];
        (&p.0, &p.1)
    }

    /// Whether a parameter with this name is present.
    pub fn contains_key(&self, key: &str) -> (r: bool)
        ensures
            r == ps_contains_key(self@, key@),
    {
        let n: usize = self.entries.len();
        let mut i: usize = 0;
        while i < n
            invariant
                0 <= i <= n,
                n == self@.len(),
                forall|j: int| 0 <= j < i ==> self@[j].0 != key@,
            decreases n - i,
        {
            if str_eq(self.entries[i].0.as_str(), key) {
                assert(self@[i as int].0 == key@);
                return true;
            }
            i = i + 1;
        }
        false
    }

    /// The value set under this name, if any.
    pub fn get(&self, key: &str) -> (r: Option<&String>)
        ensures
            match r {
                Some(v) => ps_get(self@, key@) == Some(v@),
                None => ps_get(self@, key@) is None,
            },
    {
        let n: usize = self.entries.len();
        let mut i: usize = 0;
        proof {
            assert(self@.skip(0) =~= self@);
        }
        while i < n
            invariant
                0 <= i <= n,
                n == self@.len(),
                ps_get(self@, key@) == ps_get(self@.skip(i as int), key@),
            decreases n - i,
        {
            proof {
                assert(self@.skip(i as int)[0] == self@[i as int]);
                assert(self@.skip(i as int).drop_first() =~= self@.skip(i as int + 1));
            }
            if str_eq(self.entries[i].0.as_str(), key) {
                return Some(&self.entries[i].1);
            }
            i = i + 1;
        }
        proof {
            assert(self@.skip(n as int).len() == 0);
        }
        None
    }
}

} // verus!
