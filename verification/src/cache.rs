//! Prompt caches: a key-to-text store consulted before generation and
//! filled after it.  The exact tier answers only its own keys; the
//! similarity tier may answer a close enough prompt.

use vstd::prelude::*;
use crate::template::{assoc, inj_view, lemma_inj_view_len, copy_string};

verus! {

/// A cache of generated text.  `contents` is what was stored;
/// `lookup` is what a probe answers, which for a similarity tier may be
/// the value of a different, close enough key.  A stored key is always
/// answered.
pub trait Cache: Sized {
    /// What was stored: key to value.
    spec fn contents(&self) -> Map<Seq<char>, Seq<char>>;

    /// What a probe for `key` answers in this state.
    spec fn lookup(&self, key: Seq<char>) -> Option<Seq<char>>;

    /// Whether probes answer exactly the stored keys, nothing else.
    spec fn lookup_is_exact(&self) -> bool;

    /// Probe the cache.  A probe changes nothing; a stored key is
    /// always answered; any answer is a stored value.
    fn get(&mut self, key: &str) -> (r: Option<String>)
        ensures
            *final(self) == *old(self),
            match old(self).lookup(key@) {
                Option::Some(v) => r is Some && (r->0)@ == v,
                Option::None => r is None,
            },
            old(self).contents().contains_key(key@) ==> r is Some,
            old(self).lookup_is_exact() ==> match old(self).lookup(key@) {
                Option::Some(v) => old(self).contents().contains_key(key@) && old(
                    self,
                ).contents()[key@] == v,
                Option::None => !old(self).contents().contains_key(key@),
            },
    ;

    /// Store a value.
    fn set(&mut self, key: &str, value: &str)
        ensures
            final(self).contents() == old(self).contents().insert(key@, value@),
            old(self).lookup_is_exact() ==> final(self).lookup_is_exact(),
            old(self).lookup_is_exact() ==> forall|q: Seq<char>|
                final(self).lookup(q) == if q == key@ {
                    Option::Some(value@)
                } else {
                    old(self).lookup(q)
                },
    ;
}

/// The map an association list stores, first binding winning.
pub open spec fn assoc_map(l: Seq<(Seq<char>, Seq<char>)>) -> Map<Seq<char>, Seq<char>> {
    Map::new(|k: Seq<char>| assoc(l, k) is Some, |k: Seq<char>| assoc(l, k)->0)
}

/// A simple exact-match cache.
pub struct ExactCache {
    /// Stored entries, keyed by prompt; keys are unique.
    pub entries: Vec<(String, String)>,
}

impl ExactCache {
    /// An empty cache.
    pub fn new() -> (r: ExactCache)
        ensures
            r.contents() == Map::<Seq<char>, Seq<char>>::empty(),
            r.lookup_is_exact(),
    {
        let r = ExactCache { entries: Vec::new() };
        proof {
            assert(inj_view(r.entries@) =~= Seq::<(Seq<char>, Seq<char>)>::empty());
            assert(r.contents() =~= Map::<Seq<char>, Seq<char>>::empty());
        }
        r
    }
}

impl Cache for ExactCache {
    open spec fn contents(&self) -> Map<Seq<char>, Seq<char>> {
        assoc_map(inj_view(self.entries@))
    }

    open spec fn lookup(&self, key: Seq<char>) -> Option<Seq<char>> {
        assoc(inj_view(self.entries@), key)
    }

    open spec fn lookup_is_exact(&self) -> bool {
        true
    }

    fn get(&mut self, key: &str) -> (r: Option<String>) {
        let r = lookup_entry(&self.entries, key);
        proof {
            if self.contents().contains_key(key@) {
                assert(assoc(inj_view(self.entries@), key@) is Some);
            }
        }
        r
    }

    fn set(&mut self, key: &str, value: &str) {
        proof {
            lemma_inj_view_len(self.entries@);
        }
        let ghost lv0 = inj_view(self.entries@);
        let n: usize = self.entries.len();
        let mut i: usize = 0;
        while i < n
            invariant
                i <= n,
                n == self.entries@.len(),
                self.entries@ == old(self).entries@,
                lv0 == inj_view(self.entries@),
                lv0.len() == n,
                forall|t: int| 0 <= t < i ==> (#[trigger] lv0[t]).0 != key@,
            decreases n - i,
        {
            proof {
                lemma_inj_view_index(self.entries@, i as int);
            }
            if crate::text::str_eq(self.entries[i].0.as_str(), key) {
                let k0 = copy_string(self.entries[i].0.as_str());
                let v0 = copy_string(value);
                let ghost pre = self.entries@;
                self.entries[i] = (k0, v0);
                proof {
                    assert(self.entries@ == pre.update(i as int, (k0, v0)));
                    lemma_inj_view_update(pre, i as int, (k0, v0));
                    assert(k0@ == key@ && v0@ == value@);
                    assert(inj_view(self.entries@) =~= lv0.update(i as int, (key@, value@)));
                    assert forall|q: Seq<char>|
                        assoc(inj_view(self.entries@), q) == (if q == key@ {
                            Option::Some(value@)
                        } else {
                            assoc(lv0, q)
                        }) by {
                        lemma_assoc_after_update(lv0, i as int, key@, value@, q);
                    }
                    assert(self.contents() =~= old(self).contents().insert(key@, value@));
                }
                return ;
            }
            i = i + 1;
        }
        let kn = copy_string(key);
        let vn = copy_string(value);
        let ghost pre = self.entries@;
        self.entries.push((kn, vn));
        proof {
            crate::provider::lemma_inj_view_push(pre, (kn, vn));
            assert(inj_view(self.entries@) =~= lv0.push((key@, value@)));
            assert forall|q: Seq<char>|
                assoc(inj_view(self.entries@), q) == (if q == key@ {
                    Option::Some(value@)
                } else {
                    assoc(lv0, q)
                }) by {
                lemma_assoc_after_push(lv0, key@, value@, q);
            }
            assert(self.contents() =~= old(self).contents().insert(key@, value@));
        }
    }
}

pub proof fn lemma_inj_view_index(s: Seq<(String, String)>, i: int)
    requires
        0 <= i < s.len(),
    ensures
        inj_view(s).len() == s.len(),
        inj_view(s)[i] == (s[i].0@, s[i].1@),
    decreases s.len(),
{
    assert(inj_view(s) == seq![(s[0].0@, s[0].1@)] + inj_view(s.drop_first()));
    lemma_inj_view_len(s.drop_first());
    if i > 0 {
        lemma_inj_view_index(s.drop_first(), i - 1);
    }
}

/// Two entry lists with pointwise equal views have equal views.
pub proof fn lemma_inj_view_pointwise(a: Seq<(String, String)>, b: Seq<(String, String)>)
    requires
        a.len() == b.len(),
        forall|t: int| 0 <= t < a.len() ==> (#[trigger] a[t]).0@ == b[t].0@ && a[t].1@ == b[t].1@,
    ensures
        inj_view(a) == inj_view(b),
    decreases a.len(),
{
    if a.len() > 0 {
        assert(forall|t: int|
            0 <= t < a.drop_first().len() ==> #[trigger] a.drop_first()[t] == a[t + 1]);
        assert(forall|t: int|
            0 <= t < b.drop_first().len() ==> #[trigger] b.drop_first()[t] == b[t + 1]);
        lemma_inj_view_pointwise(a.drop_first(), b.drop_first());
        assert(inj_view(a) == seq![(a[0].0@, a[0].1@)] + inj_view(a.drop_first()));
        assert(inj_view(b) == seq![(b[0].0@, b[0].1@)] + inj_view(b.drop_first()));
    }
}

/// Updating an entry updates its position in the view.
pub proof fn lemma_inj_view_update(s: Seq<(String, String)>, i: int, x: (String, String))
    requires
        0 <= i < s.len(),
    ensures
        inj_view(s.update(i, x)) == inj_view(s).update(i, (x.0@, x.1@)),
{
    let u = s.update(i, x);
    lemma_inj_view_len(s);
    lemma_inj_view_len(u);
    assert forall|t: int| 0 <= t < s.len() implies inj_view(u)[t] == inj_view(s).update(
        i,
        (x.0@, x.1@),
    )[t] by {
        lemma_inj_view_index(u, t);
        lemma_inj_view_index(s, t);
    }
    assert(inj_view(u) =~= inj_view(s).update(i, (x.0@, x.1@)));
}

/// Replacing the first binding of `k` rebinds `k` and nothing else.
pub proof fn lemma_assoc_after_update(
    lv: Seq<(Seq<char>, Seq<char>)>,
    idx: int,
    k: Seq<char>,
    v: Seq<char>,
    q: Seq<char>,
)
    requires
        0 <= idx < lv.len(),
        lv[idx].0 == k,
        forall|t: int| 0 <= t < idx ==> (#[trigger] lv[t]).0 != k,
    ensures
        assoc(lv.update(idx, (k, v)), q) == if q == k {
            Option::Some(v)
        } else {
            assoc(lv, q)
        },
    decreases idx,
{
    let u = lv.update(idx, (k, v));
    if idx == 0 {
        assert(u[0] == (k, v));
        if q != k {
            assert(u.drop_first() =~= lv.drop_first());
            assert(assoc(u, q) == assoc(u.drop_first(), q));
            assert(assoc(lv, q) == assoc(lv.drop_first(), q));
        }
    } else {
        assert(forall|t: int|
            0 <= t < lv.drop_first().len() ==> #[trigger] lv.drop_first()[t] == lv[t + 1]);
        lemma_assoc_after_update(lv.drop_first(), idx - 1, k, v, q);
        assert(u[0] == lv[0]);
        assert(lv[0].0 != k);
        assert(u.drop_first() =~= lv.drop_first().update(idx - 1, (k, v)));
        assert(u.len() == lv.len());
        assert(u[0].0 == lv[0].0);
        if q == k {
            assert(u[0].0 != q);
            assert(assoc(u, q) == assoc(u.drop_first(), q));
        } else {
            if u[0].0 == q {
                assert(assoc(u, q) == Option::Some(u[0].1));
                assert(assoc(lv, q) == Option::Some(lv[0].1));
                assert(u[0].1 == lv[0].1);
            } else {
                assert(assoc(u, q) == assoc(u.drop_first(), q));
                assert(assoc(lv, q) == assoc(lv.drop_first(), q));
            }
        }
    }
}

/// Appending a fresh binding of `k` binds `k` and nothing else.
pub proof fn lemma_assoc_after_push(
    lv: Seq<(Seq<char>, Seq<char>)>,
    k: Seq<char>,
    v: Seq<char>,
    q: Seq<char>,
)
    requires
        forall|t: int| 0 <= t < lv.len() ==> (#[trigger] lv[t]).0 != k,
    ensures
        assoc(lv.push((k, v)), q) == if q == k {
            Option::Some(v)
        } else {
            assoc(lv, q)
        },
    decreases lv.len(),
{
    let u = lv.push((k, v));
    if lv.len() == 0 {
        assert(u[0] == (k, v));
        assert(u.drop_first() =~= Seq::<(Seq<char>, Seq<char>)>::empty());
        if q != k {
            assert(assoc(u, q) == assoc(u.drop_first(), q));
        }
    } else {
        assert(forall|t: int|
            0 <= t < lv.drop_first().len() ==> #[trigger] lv.drop_first()[t] == lv[t + 1]);
        lemma_assoc_after_push(lv.drop_first(), k, v, q);
        assert(u[0] == lv[0]);
        assert(lv[0].0 != k);
        assert(u.drop_first() =~= lv.drop_first().push((k, v)));
        if q == lv[0].0 {
        } else {
            assert(assoc(u, q) == assoc(u.drop_first(), q));
            assert(assoc(lv, q) == assoc(lv.drop_first(), q));
        }
    }
}

/// First stored value for `key`, copied out.
fn lookup_entry(entries: &Vec<(String, String)>, key: &str) -> (r: Option<String>)
    ensures
        match assoc(inj_view(entries@), key@) {
            Option::Some(v) => r is Some && (r->0)@ == v,
            Option::None => r is None,
        },
{
    proof {
        lemma_inj_view_len(entries@);
        assert(entries@.subrange(0, entries@.len() as int) =~= entries@);
    }
    let n: usize = entries.len();
    let mut i: usize = 0;
    while i < n
        invariant
            i <= n,
            n == entries@.len(),
            assoc(inj_view(entries@.subrange(i as int, n as int)), key@) == assoc(
                inj_view(entries@),
                key@,
            ),
        decreases n - i,
    {
        proof {
            let suf = entries@.subrange(i as int, n as int);
            assert(suf.drop_first() =~= entries@.subrange(i + 1, n as int));
            assert(suf[0] == entries@[i as int]);
            assert(inj_view(suf) == seq![(suf[0].0@, suf[0].1@)] + inj_view(suf.drop_first()));
            lemma_inj_view_len(suf);
        }
        if crate::text::str_eq(entries[i].0.as_str(), key) {
            proof {
                let suf = entries@.subrange(i as int, n as int);
                assert(inj_view(suf)[0] == (suf[0].0@, suf[0].1@));
                assert(assoc(inj_view(suf), key@) == Option::Some(suf[0].1@));
            }
            return Some(copy_string(entries[i].1.as_str()));
        }
        proof {
            let suf = entries@.subrange(i as int, n as int);
            assert(inj_view(suf)[0] == (suf[0].0@, suf[0].1@));
            assert(inj_view(suf)[0].0 != key@);
            assert(inj_view(suf).drop_first() =~= inj_view(suf.drop_first()));
            assert(assoc(inj_view(suf), key@) == assoc(inj_view(suf.drop_first()), key@));
            assert(inj_view(suf.drop_first()) == inj_view(entries@.subrange(i + 1, n as int)));
        }
        i = i + 1;
    }
    proof {
        assert(entries@.subrange(n as int, n as int) =~= Seq::<(String, String)>::empty());
        assert(inj_view(Seq::<(String, String)>::empty()) == Seq::<(Seq<char>, Seq<char>)>::empty());
    }
    None
}


/// A tiered cache: a fast primary tier consulted first, and a fallback
/// tier; writes go to both, so future primary probes short-circuit even
/// entries first answered by the fallback.  The similarity tier of a
/// deployment stands in the fallback position.
pub struct TieredCache<A: Cache, B: Cache> {
    /// The tier consulted first.
    pub primary: A,
    /// The tier consulted on a primary miss.
    pub fallback: B,
}

impl<A: Cache, B: Cache> TieredCache<A, B> {
    /// A tiered cache over the two tiers.
    pub fn new(primary: A, fallback: B) -> (r: TieredCache<A, B>)
        ensures
            r.primary == primary,
            r.fallback == fallback,
    {
        TieredCache { primary, fallback }
    }
}

impl<A: Cache, B: Cache> Cache for TieredCache<A, B> {
    /// Everything stored in either tier; on a shared key the primary
    /// tier's value stands.
    open spec fn contents(&self) -> Map<Seq<char>, Seq<char>> {
        self.fallback.contents().union_prefer_right(self.primary.contents())
    }

    open spec fn lookup(&self, key: Seq<char>) -> Option<Seq<char>> {
        match self.primary.lookup(key) {
            Option::Some(v) => Option::Some(v),
            Option::None => self.fallback.lookup(key),
        }
    }

    open spec fn lookup_is_exact(&self) -> bool {
        self.primary.lookup_is_exact() && self.fallback.lookup_is_exact()
    }

    fn get(&mut self, key: &str) -> (r: Option<String>) {
        let first = self.primary.get(key);
        match first {
            Some(v) => Some(v),
            None => {
                let second = self.fallback.get(key);
                proof {
                    if self.contents().contains_key(key@) {
                        if self.primary.contents().contains_key(key@) {
                            assert(self.primary.lookup_is_exact() ==> self.primary.lookup(
                                key@,
                            ) is Some);
                            if !self.primary.lookup_is_exact() {
                            }
                        }
                    }

                }
                second
            },
        }
    }

    fn set(&mut self, key: &str, value: &str) {
        self.primary.set(key, value);
        self.fallback.set(key, value);
        proof {
            assert(self.contents() =~= old(self).contents().insert(key@, value@));
        }
    }
}

} // verus!
