//! Delegated tokens: the cache of tokens already read, the checks a token
//! must pass before its claims are trusted, and the reading of the subject
//! and expiry of a token without checking its signature. Token times are
//! seconds since the Unix epoch; other times are milliseconds.

use vstd::prelude::*;
use crate::security::capability::{Claims, same_claims, texts};
use crate::security::jwt::{ClaimsView, claims_view, hs256_validation, validate_hs256, DEFAULT_LEEWAY};
use crate::security::delegation::{DelegatedClaims, DelegationError, TokenCacheStats, same_metadata};
use crate::support::join_text;
use jsonwebtoken::{encode, EncodingKey, Header};
use serde_json::Value;

verus! {

/// Settings of the making of delegated tokens.
#[derive(Debug, Clone)]
pub struct TokenConfig {
    /// Most tokens the cache keeps.
    pub cache_size: usize,
    /// How long a token lasts unless told otherwise.
    pub default_expiry: i64,
    /// Whether read tokens are cached.
    pub enable_caching: bool,
}

impl Default for TokenConfig {
    /// A thousand cached tokens, lasting an hour.
    fn default() -> (c: Self)
        ensures
            c.cache_size == 1000,
            c.default_expiry == 3_600_000,
            c.enable_caching,
    {
        TokenConfig { cache_size: 1000, default_expiry: 3_600_000, enable_caching: true }
    }
}

/// Whether two delegated claims hold the same values.
pub open spec fn same_delegated(a: DelegatedClaims, b: DelegatedClaims) -> bool {
    &&& same_claims(a.base, b.base)
    &&& match (a.delegation, b.delegation) {
        (Some(x), Some(y)) => same_metadata(x, y),
        (None, None) => true,
        _ => false,
    }
}

/// A copy of delegated claims.
pub fn copy_delegated(c: &DelegatedClaims) -> (r: DelegatedClaims)
    ensures
        same_delegated(r, *c),
{
    DelegatedClaims {
        base: c.base.duplicate(),
        delegation: match &c.delegation {
            Some(d) => Some(d.duplicate()),
            None => None,
        },
    }
}

/// `order` without any occurrence of `t`.
pub open spec fn without(order: Seq<Seq<char>>, t: Seq<char>) -> Seq<Seq<char>>
    decreases order.len(),
{
    if order.len() == 0 {
        order
    } else if order.last() == t {
        without(order.drop_last(), t)
    } else {
        without(order.drop_last(), t).push(order.last())
    }
}

/// A cached token: its claims and when it was cached.
#[derive(Debug)]
pub struct CacheEntry {
    pub claims: DelegatedClaims,
    pub cached_at: i64,
}

/// The texts of a list of texts.
pub open spec fn order_texts(v: Seq<String>) -> Seq<Seq<char>> {
    v.map_values(|s: String| s@)
}

/// Whether `i` holds the entry of the token `t`.
pub open spec fn holds_token(s: Seq<(String, CacheEntry)>, t: Seq<char>, i: int) -> bool {
    0 <= i < s.len() && s[i].0@ == t
}

/// Whether the token `t` is cached.
pub open spec fn cached(s: Seq<(String, CacheEntry)>, t: Seq<char>) -> bool {
    exists|i: int| #[trigger] holds_token(s, t, i)
}

/// Whether a cached token has expired at `now`.
pub open spec fn expired_at(e: CacheEntry, now: u64) -> bool {
    e.claims.base.exp < now
}

/// The number of entries not expired at `now`.
pub open spec fn active_count(s: Seq<(String, CacheEntry)>, now: u64) -> nat
    decreases s.len(),
{
    if s.len() == 0 {
        0
    } else {
        active_count(s.drop_last(), now) + if expired_at(s.last().1, now) {
            0nat
        } else {
            1nat
        }
    }
}

proof fn lemma_active_count_le(s: Seq<(String, CacheEntry)>, now: u64)
    ensures
        active_count(s, now) <= s.len(),
    decreases s.len(),
{
    if s.len() > 0 {
        lemma_active_count_le(s.drop_last(), now);
    }
}

/// A cache of tokens already read, dropping the least recently used token
/// when full and expired tokens when they are looked up or cleaned.
#[derive(Debug)]
pub struct TokenCache {
    cache: Vec<(String, CacheEntry)>,
    max_size: usize,
    access_order: Vec<String>,
}

impl TokenCache {
    /// The cached tokens with their entries.
    pub closed spec fn entries(&self) -> Seq<(String, CacheEntry)> {
        self.cache@
    }

    /// The tokens, least recently used first; a token stored twice
    /// appears twice.
    pub closed spec fn order(&self) -> Seq<Seq<char>> {
        order_texts(self.access_order@)
    }

    /// Most tokens kept.
    pub closed spec fn capacity(&self) -> usize {
        self.max_size
    }

    /// Each token is cached once.
    #[verifier::type_invariant]
    closed spec fn tokens_distinct(&self) -> bool {
        forall|i: int, j: int|
            #![trigger self.cache@[i], self.cache@[j]]
            0 <= i < j < self.cache@.len() ==> self.cache@[i].0@ != self.cache@[j].0@
    }

    /// An empty cache keeping at most `max_size` tokens.
    pub fn new(max_size: usize) -> (c: Self)
        ensures
            c.entries().len() == 0,
            c.order().len() == 0,
            c.capacity() == max_size,
    {
        TokenCache { cache: Vec::new(), max_size, access_order: Vec::new() }
    }

    /// The position of the token `t`.
    fn position(&self, t: &str) -> (r: Option<usize>)
        ensures
            r matches Some(i) ==> holds_token(self.entries(), t@, i as int),
            r is None ==> !cached(self.entries(), t@),
    {
        let mut i: usize = 0;
        while i < self.cache.len()
            invariant
                i <= self.cache@.len(),
                forall|j: int| 0 <= j < i ==> !#[trigger] holds_token(self.cache@, t@, j),
            decreases self.cache.len() - i,
        {
            if crate::runtime::text::same_text(self.cache[i].0.as_str(), t) {
                return Some(i);
            }
            i = i + 1;
        }
        None
    }

    /// Removes every occurrence of `t` from the order of use.
    fn forget_order(&mut self, t: &str)
        ensures
            final(self).order() == without(old(self).order(), t@),
            final(self).entries() == old(self).entries(),
            final(self).capacity() == old(self).capacity(),
    {
        proof {
            use_type_invariant(&*self);
        }
        let ghost before = self.order();
        let mut kept: Vec<String> = Vec::new();
        let mut i: usize = 0;
        while i < self.access_order.len()
            invariant
                i <= self.access_order@.len(),
                before == order_texts(self.access_order@),
                order_texts(kept@) == without(before.take(i as int), t@),
            decreases self.access_order.len() - i,
        {
            proof {
                assert(before.take(i + 1).drop_last() =~= before.take(i as int));
                assert(before.take(i + 1).last() == self.access_order@[i as int]@);
            }
            if !crate::runtime::text::same_text(self.access_order[i].as_str(), t) {
                let ghost k0 = kept@;
                kept.push(self.access_order[i].clone());
                proof {
                    assert(order_texts(kept@) =~= order_texts(k0).push(self.access_order@[i as int]@));
                }
            }
            i = i + 1;
        }
        proof {
            assert(before.take(before.len() as int) =~= before);
        }
        self.access_order = kept;
    }

    /// Removes the entry at position `i`, keeping the order of the others.
    fn remove_at(&mut self, i: usize)
        requires
            i < old(self).entries().len(),
        ensures
            final(self).entries() == old(self).entries().remove(i as int),
            final(self).order() == old(self).order(),
            final(self).capacity() == old(self).capacity(),
    {
        proof {
            use_type_invariant(&*self);
        }
        let ghost before = self.cache@;
        let mut c: Vec<(String, CacheEntry)> = Vec::new();
        std::mem::swap(&mut c, &mut self.cache);
        let _ = c.remove(i);
        proof {
            assert forall|a: int, b: int|
                #![trigger c@[a], c@[b]]
                0 <= a < b < c@.len() implies c@[a].0@ != c@[b].0@ by {
                let a2 = if a < i { a } else { a + 1 };
                let b2 = if b < i { b } else { b + 1 };
                assert(c@[a] == before[a2] && c@[b] == before[b2]);
            }
        }
        self.cache = c;
    }

    /// The claims of the token `token` at `now`: none when it is not
    /// cached; none when it has expired, which drops it; otherwise a copy,
    /// and the token becomes the most recently used.
    pub fn get_at(&mut self, token: &str, now: u64) -> (r: Option<DelegatedClaims>)
        ensures
            final(self).capacity() == old(self).capacity(),
            !cached(old(self).entries(), token@) ==> r is None && final(self).entries() == old(self).entries()
                && final(self).order() == old(self).order(),
            forall|i: int|
                #[trigger] holds_token(old(self).entries(), token@, i) ==> if expired_at(
                    old(self).entries()[i].1,
                    now,
                ) {
                    r is None && final(self).entries() == old(self).entries().remove(i) && final(self).order()
                        == without(old(self).order(), token@)
                } else {
                    r matches Some(c) && same_delegated(c, old(self).entries()[i].1.claims)
                        && final(self).entries() == old(self).entries() && final(self).order() == without(
                        old(self).order(),
                        token@,
                    ).push(token@)
                },
    {
        proof {
            use_type_invariant(&*self);
        }
        let pos = self.position(token);
        match pos {
            None => None,
            Some(i) => {
                proof {
                    assert forall|j: int| #[trigger] holds_token(self.cache@, token@, j) implies j == i by {
                        if j != i as int {
                            if j < i {
                                assert(self.cache@[j].0@ != self.cache@[i as int].0@);
                            } else {
                                assert(self.cache@[i as int].0@ != self.cache@[j].0@);
                            }
                        }
                    }
                }
                if self.cache[i].1.claims.base.exp < now {
                    self.remove_at(i);
                    self.forget_order(token);
                    None
                } else {
                    let claims = copy_delegated(&self.cache[i].1.claims);
                    self.forget_order(token);
                    let ghost o = self.order();
                    let mut order: Vec<String> = Vec::new();
                    std::mem::swap(&mut order, &mut self.access_order);
                    order.push(token.to_string());
                    self.access_order = order;
                    proof {
                        assert(self.order() =~= o.push(token@));
                    }
                    Some(claims)
                }
            },
        }
    }

    /// Caches `claims` under `token` at `now`, in place of what it had;
    /// when the cache is full, the least recently used token is dropped
    /// first.
    pub fn insert_at(&mut self, token: String, claims: DelegatedClaims, now: i64)
        ensures
            final(self).capacity() == old(self).capacity(),
            ({
                let (e1, o1) = if old(self).entries().len() >= old(self).capacity() && old(self).order().len()
                    > 0 {
                    (
                        drop_token(old(self).entries(), old(self).order()[0]),
                        old(self).order().skip(1),
                    )
                } else {
                    (old(self).entries(), old(self).order())
                };
                &&& final(self).order() == o1.push(token@)
                &&& cached(final(self).entries(), token@)
                &&& forall|i: int|
                    #[trigger] holds_token(final(self).entries(), token@, i) ==> final(self).entries()[i].1
                        == (CacheEntry { claims, cached_at: now })
                &&& forall|t: Seq<char>|
                    t != token@ ==> (cached(final(self).entries(), t) == cached(e1, t))
                &&& final(self).entries().len() == drop_token(e1, token@).len() + 1
            }),
    {
        proof {
            use_type_invariant(&*self);
        }
        if self.cache.len() >= self.max_size && self.access_order.len() > 0 {
            let oldest = self.access_order[0].clone();
            match self.position(oldest.as_str()) {
                Some(i) => {
                    proof {
                        lemma_drop_token_at(self.cache@, oldest@, i as int);
                    }
                    self.remove_at(i);
                },
                None => {
                    proof {
                        lemma_drop_token_absent(self.cache@, oldest@);
                    }
                },
            }
            let ghost o = self.order();
            let mut order: Vec<String> = Vec::new();
            std::mem::swap(&mut order, &mut self.access_order);
            let _ = order.remove(0);
            self.access_order = order;
            proof {
                assert(self.order() =~= o.skip(1));
            }
        }
        let ghost e1 = self.cache@;
        proof {
            use_type_invariant(&*self);
        }
        match self.position(token.as_str()) {
            Some(i) => {
                proof {
                    lemma_drop_token_at(e1, token@, i as int);
                }
                self.remove_at(i);
            },
            None => {
                proof {
                    lemma_drop_token_absent(e1, token@);
                }
            },
        }
        let ghost e2 = self.cache@;
        proof {
            use_type_invariant(&*self);
            assert(!cached(e2, token@)) by {
                if cached(e2, token@) {
                    let j = choose|j: int| #[trigger] holds_token(e2, token@, j);
                    lemma_drop_token_keeps(e1, token@, j);
                }
            }
        }
        let ghost tv = token@;
        let mut c: Vec<(String, CacheEntry)> = Vec::new();
        std::mem::swap(&mut c, &mut self.cache);
        c.push((token.clone(), CacheEntry { claims, cached_at: now }));
        proof {
            let n = e2.len() as int;
            assert forall|a: int, b: int|
                #![trigger c@[a], c@[b]]
                0 <= a < b < c@.len() implies c@[a].0@ != c@[b].0@ by {
                if b == n {
                    assert(!holds_token(e2, tv, a));
                } else {
                    assert(c@[a] == e2[a] && c@[b] == e2[b]);
                }
            }
        }
        self.cache = c;
        proof {
            let n = e2.len() as int;
            assert forall|a: int, b: int|
                #![trigger self.cache@[a], self.cache@[b]]
                0 <= a < b < self.cache@.len() implies self.cache@[a].0@ != self.cache@[b].0@ by {
                if b == n {
                    assert(!holds_token(e2, tv, a));
                } else {
                    assert(self.cache@[a] == e2[a] && self.cache@[b] == e2[b]);
                }
            }
            assert(holds_token(self.cache@, tv, n));
            assert forall|i: int| #[trigger] holds_token(self.cache@, tv, i) implies i == n by {
                if i < n {
                    assert(self.cache@[i] == e2[i]);
                    assert(holds_token(e2, tv, i));
                }
            }
            assert forall|t: Seq<char>| t != tv implies (cached(self.cache@, t) == cached(e1, t)) by {
                if cached(self.cache@, t) {
                    let j = choose|j: int| #[trigger] holds_token(self.cache@, t, j);
                    assert(j < n);
                    assert(self.cache@[j] == e2[j]);
                    assert(holds_token(e2, t, j));
                    lemma_drop_token_keeps(e1, tv, j);
                }
                if cached(e1, t) {
                    let j = choose|j: int| #[trigger] holds_token(e1, t, j);
                    lemma_drop_token_finds(e1, tv, t, j);
                    let k = choose|k: int| #[trigger] holds_token(e2, t, k);
                    assert(self.cache@[k] == e2[k]);
                    assert(holds_token(self.cache@, t, k));
                }
            }
        }
        let ghost o2 = self.order();
        let mut order: Vec<String> = Vec::new();
        std::mem::swap(&mut order, &mut self.access_order);
        order.push(token);
        self.access_order = order;
        proof {
            assert(self.order() =~= o2.push(tv));
        }
    }

    /// Whether the token `t` is cached and expired at `now`.
    fn expired_token(&self, t: &str, now: u64) -> (r: bool)
        ensures
            r == token_expired(self.entries(), t@, now),
    {
        proof {
            use_type_invariant(self);
        }
        match self.position(t) {
            Some(i) => {
                proof {
                    assert forall|j: int| #[trigger] holds_token(self.cache@, t@, j) implies j == i by {
                        if j != i as int {
                            if j < i {
                                assert(self.cache@[j].0@ != self.cache@[i as int].0@);
                            } else {
                                assert(self.cache@[i as int].0@ != self.cache@[j].0@);
                            }
                        }
                    }
                }
                self.cache[i].1.claims.base.exp < now
            },
            None => false,
        }
    }

    /// Drops the tokens expired at `now`, from the cache and from the order
    /// of use.
    pub fn cleanup_at(&mut self, now: u64)
        ensures
            final(self).capacity() == old(self).capacity(),
            final(self).entries() == unexpired(old(self).entries(), now),
            final(self).order() == order_after_cleanup(old(self).order(), old(self).entries(), now),
    {
        proof {
            use_type_invariant(&*self);
        }
        let ghost start = self.cache@;
        let ghost start_order = self.order();
        let mut order: Vec<String> = Vec::new();
        let mut j: usize = 0;
        while j < self.access_order.len()
            invariant
                j <= self.access_order@.len(),
                self.cache@ == start,
                start_order == order_texts(self.access_order@),
                order_texts(order@) == order_after_cleanup(start_order.take(j as int), start, now),
            decreases self.access_order.len() - j,
        {
            proof {
                assert(start_order.take(j + 1).drop_last() =~= start_order.take(j as int));
                assert(start_order.take(j + 1).last() == self.access_order@[j as int]@);
            }
            if !self.expired_token(self.access_order[j].as_str(), now) {
                let ghost o0 = order@;
                order.push(self.access_order[j].clone());
                proof {
                    assert(order_texts(order@) =~= order_texts(o0).push(self.access_order@[j as int]@));
                }
            }
            j = j + 1;
        }
        proof {
            assert(start_order.take(start_order.len() as int) =~= start_order);
        }
        let mut old_entries: Vec<(String, CacheEntry)> = Vec::new();
        std::mem::swap(&mut old_entries, &mut self.cache);
        let mut kept: Vec<(String, CacheEntry)> = Vec::new();
        let mut k: usize = 0;
        let n = old_entries.len();
        while old_entries.len() > 0
            invariant
                k + old_entries@.len() == n,
                n == start.len(),
                old_entries@ == start.skip(k as int),
                kept@ == unexpired(start.take(k as int), now),
            decreases old_entries.len(),
        {
            let e = old_entries.remove(0);
            proof {
                assert(start.take(k + 1).drop_last() =~= start.take(k as int));
                assert(start.take(k + 1).last() == start[k as int]);
                assert(e == start[k as int]);
                assert(old_entries@ =~= start.skip(k + 1));
            }
            if !(e.1.claims.base.exp < now) {
                kept.push(e);
            }
            k = k + 1;
        }
        proof {
            assert(start.take(n as int) =~= start);
            lemma_unexpired_distinct(start, now);
        }
        self.cache = kept;
        self.access_order = order;
    }

    /// The counts of the cache at `now`.
    pub fn stats_at(&self, now: u64) -> (s: TokenCacheStats)
        ensures
            s.total_entries == self.entries().len(),
            s.active_entries == active_count(self.entries(), now),
            s.expired_entries == self.entries().len() - active_count(self.entries(), now),
            s.max_size == self.capacity(),
    {
        let mut active: usize = 0;
        let mut i: usize = 0;
        while i < self.cache.len()
            invariant
                i <= self.cache@.len(),
                active == active_count(self.cache@.take(i as int), now),
                active <= i,
            decreases self.cache.len() - i,
        {
            proof {
                assert(self.cache@.take(i + 1).drop_last() =~= self.cache@.take(i as int));
                lemma_active_count_le(self.cache@.take(i as int), now);
            }
            if self.cache[i].1.claims.base.exp >= now {
                active = active + 1;
            }
            i = i + 1;
        }
        assert(self.cache@.take(self.cache@.len() as int) =~= self.cache@);
        TokenCacheStats {
            total_entries: self.cache.len(),
            active_entries: active,
            expired_entries: self.cache.len() - active,
            max_size: self.max_size,
        }
    }
}

/// Whether the token `t` is cached and expired at `now`.
pub open spec fn token_expired(s: Seq<(String, CacheEntry)>, t: Seq<char>, now: u64) -> bool {
    exists|i: int| #[trigger] holds_token(s, t, i) && expired_at(s[i].1, now)
}

/// The entries of `s` not expired at `now`, in order.
pub open spec fn unexpired(s: Seq<(String, CacheEntry)>, now: u64) -> Seq<(String, CacheEntry)>
    decreases s.len(),
{
    if s.len() == 0 {
        s
    } else if expired_at(s.last().1, now) {
        unexpired(s.drop_last(), now)
    } else {
        unexpired(s.drop_last(), now).push(s.last())
    }
}

/// The order of use without the tokens of `entries` expired at `now`.
pub open spec fn order_after_cleanup(order: Seq<Seq<char>>, entries: Seq<(String, CacheEntry)>, now: u64) -> Seq<
    Seq<char>,
>
    decreases order.len(),
{
    if order.len() == 0 {
        order
    } else if token_expired(entries, order.last(), now) {
        order_after_cleanup(order.drop_last(), entries, now)
    } else {
        order_after_cleanup(order.drop_last(), entries, now).push(order.last())
    }
}

proof fn lemma_unexpired_from(s: Seq<(String, CacheEntry)>, now: u64, x: int)
    requires
        0 <= x < unexpired(s, now).len(),
    ensures
        exists|i: int| 0 <= i < s.len() && #[trigger] s[i] == unexpired(s, now)[x],
    decreases s.len(),
{
    if s.len() > 0 {
        let u = unexpired(s.drop_last(), now);
        if expired_at(s.last().1, now) || x < u.len() {
            lemma_unexpired_from(s.drop_last(), now, x);
            let i = choose|i: int| 0 <= i < s.drop_last().len() && #[trigger] s.drop_last()[i] == u[x];
            assert(s[i] == s.drop_last()[i]);
        } else {
            assert(s[s.len() - 1] == unexpired(s, now)[x]);
        }
    }
}

proof fn lemma_unexpired_distinct(s: Seq<(String, CacheEntry)>, now: u64)
    requires
        distinct_tokens(s),
    ensures
        distinct_tokens(unexpired(s, now)),
    decreases s.len(),
{
    if s.len() > 0 {
        let d = s.drop_last();
        assert(distinct_tokens(d)) by {
            assert forall|i: int, j: int| #![trigger d[i], d[j]] 0 <= i < j < d.len() implies d[i].0@ != d[j].0@ by {
                assert(d[i] == s[i] && d[j] == s[j]);
            }
        }
        lemma_unexpired_distinct(d, now);
        let u = unexpired(d, now);
        if !expired_at(s.last().1, now) {
            let w = unexpired(s, now);
            assert forall|a: int, b: int| #![trigger w[a], w[b]] 0 <= a < b < w.len() implies w[a].0@ != w[b].0@ by {
                if b == u.len() {
                    lemma_unexpired_from(d, now, a);
                    let i = choose|i: int| 0 <= i < d.len() && #[trigger] d[i] == u[a];
                    assert(s[i] == d[i]);
                    assert(s[i].0@ != s[s.len() - 1].0@);
                } else {
                    assert(w[a] == u[a] && w[b] == u[b]);
                }
            }
        }
    }
}

/// The entries without that of the token `t`.
pub open spec fn drop_token(s: Seq<(String, CacheEntry)>, t: Seq<char>) -> Seq<(String, CacheEntry)> {
    if exists|i: int| #[trigger] holds_token(s, t, i) {
        s.remove(choose|i: int| #[trigger] holds_token(s, t, i))
    } else {
        s
    }
}

/// Whether no token is cached twice.
pub open spec fn distinct_tokens(s: Seq<(String, CacheEntry)>) -> bool {
    forall|i: int, j: int| #![trigger s[i], s[j]] 0 <= i < j < s.len() ==> s[i].0@ != s[j].0@
}

proof fn lemma_drop_token_at(s: Seq<(String, CacheEntry)>, t: Seq<char>, i: int)
    requires
        holds_token(s, t, i),
        distinct_tokens(s),
    ensures
        drop_token(s, t) == s.remove(i),
{
    let c = choose|c: int| #[trigger] holds_token(s, t, c);
    if c != i {
        if c < i {
            assert(s[c].0@ != s[i].0@);
        } else {
            assert(s[i].0@ != s[c].0@);
        }
    }
}

proof fn lemma_drop_token_absent(s: Seq<(String, CacheEntry)>, t: Seq<char>)
    requires
        !cached(s, t),
    ensures
        drop_token(s, t) == s,
{
}

proof fn lemma_drop_token_keeps(s: Seq<(String, CacheEntry)>, t: Seq<char>, j: int)
    requires
        distinct_tokens(s),
        0 <= j < drop_token(s, t).len(),
    ensures
        drop_token(s, t)[j].0@ != t,
        exists|k: int| #[trigger] holds_token(s, drop_token(s, t)[j].0@, k),
{
    if cached(s, t) {
        let c = choose|c: int| #[trigger] holds_token(s, t, c);
        let k = if j < c { j } else { j + 1 };
        assert(drop_token(s, t)[j] == s[k]);
        assert(holds_token(s, s[k].0@, k));
        if s[k].0@ == t {
            if k < c {
                assert(s[k].0@ != s[c].0@);
            } else {
                assert(s[c].0@ != s[k].0@);
            }
        }
    } else {
        assert(holds_token(s, s[j].0@, j));
    }
}

proof fn lemma_drop_token_finds(s: Seq<(String, CacheEntry)>, t: Seq<char>, u: Seq<char>, j: int)
    requires
        holds_token(s, u, j),
        u != t,
    ensures
        exists|k: int| #[trigger] holds_token(drop_token(s, t), u, k),
{
    if cached(s, t) {
        let c = choose|c: int| #[trigger] holds_token(s, t, c);
        assert(c != j);
        let k = if j < c { j } else { j - 1 };
        assert(drop_token(s, t)[k] == s[j]);
        assert(holds_token(drop_token(s, t), u, k));
    } else {
        assert(holds_token(drop_token(s, t), u, j));
    }
}

/// What `DateTime::from_timestamp(secs, 0)` gives, in milliseconds since
/// the Unix epoch: nothing for a time chrono cannot represent.
pub uninterp spec fn timestamp_millis(secs: i64) -> Option<i64>;

/// The time `secs` seconds after the Unix epoch through
/// `chrono::DateTime::from_timestamp(secs, 0)`, in milliseconds; nothing
/// when chrono cannot represent it (beyond about 262,000 years either side
/// of the epoch). The result depends on `secs` alone; when there is one it
/// is `secs * 1000`, and there is one for every `secs` within
/// 8,000,000,000,000 seconds of the epoch.
#[verifier::external_body]
fn time_of_timestamp(secs: i64) -> (r: Option<i64>)
    ensures
        r == timestamp_millis(secs),
        r matches Some(m) ==> m == secs * 1000,
        -8_000_000_000_000 <= secs <= 8_000_000_000_000 ==> r is Some,
{
    chrono::DateTime::from_timestamp(secs, 0).map(|t| t.timestamp_millis())
}

/// What the checks of a token decide.
pub enum TokenVerdict {
    /// The token is accepted.
    Accept,
    /// The claims expired, at the given time.
    ExpiredAt(i64),
    /// The delegation is no longer valid, for the given reason.
    Revoked(Seq<char>),
}

/// What the checks of a token decide at `now_secs` (seconds) and `now_ms`
/// (milliseconds): its claims have expired (the expiry as a time, or now
/// when it cannot be represented); its delegation is revoked or expired
/// (the revocation reason, or a default one).
pub open spec fn token_verdict(c: DelegatedClaims, now_secs: u64, now_ms: i64) -> TokenVerdict {
    if c.base.exp < now_secs {
        TokenVerdict::ExpiredAt(
            match timestamp_millis(c.base.exp as i64) {
                Some(t) => t,
                None => now_ms,
            },
        )
    } else {
        match c.delegation {
            Some(d) => if d.revoked || (d.expires_at matches Some(e) && now_ms > e) {
                TokenVerdict::Revoked(
                    match d.revocation_reason {
                        Some(r) => r@,
                        None => "Delegation is no longer valid"@,
                    },
                )
            } else {
                TokenVerdict::Accept
            },
            None => TokenVerdict::Accept,
        }
    }
}

/// The checks of a token's claims at `now_secs` (seconds) and `now_ms`
/// (milliseconds) before they are trusted: the claims must not have
/// expired, and the delegation, if any, must be neither revoked nor
/// expired.
pub fn check_token_claims(claims: &DelegatedClaims, now_secs: u64, now_ms: i64) -> (r: Result<(), DelegationError>)
    ensures
        match token_verdict(*claims, now_secs, now_ms) {
            TokenVerdict::Accept => r is Ok,
            TokenVerdict::ExpiredAt(t) => r == Err::<(), DelegationError>(
                DelegationError::DelegationExpired { expires_at: t },
            ),
            TokenVerdict::Revoked(m) => r matches Err(e) && e is DelegationRevoked
                && e->DelegationRevoked_reason@ == m,
        },
{
    if claims.base.exp < now_secs {
        let at = match time_of_timestamp(claims.base.exp as i64) {
            Some(t) => t,
            None => now_ms,
        };
        return Err(DelegationError::DelegationExpired { expires_at: at });
    }
    if let Some(d) = &claims.delegation {
        if !d.is_valid_at(now_ms) {
            let reason = match &d.revocation_reason {
                Some(x) => x.clone(),
                None => "Delegation is no longer valid".to_string(),
            };
            return Err(DelegationError::DelegationRevoked { reason });
        }
    }
    Ok(())
}

/// The parts of a text separated by `.`.
pub open spec fn dot_parts(s: Seq<char>) -> Seq<Seq<char>>
    decreases s.len(),
{
    if s.len() == 0 {
        seq![Seq::empty()]
    } else {
        let init = dot_parts(s.drop_last());
        if s.last() == '.' {
            init.push(Seq::empty())
        } else {
            init.update(init.len() - 1, init.last().push(s.last()))
        }
    }
}

proof fn lemma_dot_parts_nonempty(s: Seq<char>)
    ensures
        dot_parts(s).len() >= 1,
    decreases s.len(),
{
    if s.len() > 0 {
        lemma_dot_parts_nonempty(s.drop_last());
    }
}

/// The parts of `token` separated by `.`.
pub fn split_on_dots(token: &str) -> (r: Vec<String>)
    ensures
        r@.map_values(|p: String| p@) == dot_parts(token@),
{
    let n = token.unicode_len();
    let mut parts: Vec<String> = Vec::new();
    let mut start: usize = 0;
    let mut i: usize = 0;
    proof {
        assert(token@.take(0) =~= Seq::<char>::empty());
        assert(parts@.map_values(|p: String| p@).push(token@.subrange(0, 0)) =~= seq![Seq::<char>::empty()]);
    }
    while i < n
        invariant
            n == token@.len(),
            start <= i <= n,
            parts@.map_values(|p: String| p@).push(token@.subrange(start as int, i as int)) == dot_parts(
                token@.take(i as int),
            ),
        decreases n - i,
    {
        let c = token.get_char(i);
        proof {
            assert(token@.take(i + 1).drop_last() =~= token@.take(i as int));
            assert(token@.take(i + 1).last() == c);
            lemma_dot_parts_nonempty(token@.take(i as int));
        }
        let ghost before = parts@.map_values(|p: String| p@);
        let ghost d = dot_parts(token@.take(i as int));
        if c == '.' {
            let piece = token.substring_char(start, i).to_owned();
            parts.push(piece);
            proof {
                assert(parts@.map_values(|p: String| p@) =~= before.push(token@.subrange(start as int, i as int)));
                assert(token@.subrange(i + 1, i + 1) =~= Seq::<char>::empty());
                assert(parts@.map_values(|p: String| p@).push(token@.subrange(i + 1, i + 1)) =~= d.push(
                    Seq::empty(),
                ));
            }
            start = i + 1;
        } else {
            proof {
                assert(token@.subrange(start as int, i + 1) =~= token@.subrange(start as int, i as int).push(c));
                assert(d.last() == token@.subrange(start as int, i as int));
                assert(d.len() - 1 == before.len());
                assert(before.push(token@.subrange(start as int, i + 1)) =~= d.update(
                    d.len() - 1,
                    d.last().push(c),
                ));
            }
        }
        i = i + 1;
    }
    let ghost before = parts@.map_values(|p: String| p@);
    let last = token.substring_char(start, n).to_owned();
    parts.push(last);
    proof {
        assert(token@.take(n as int) =~= token@);
        assert(parts@.map_values(|p: String| p@) =~= before.push(token@.subrange(start as int, n as int)));
    }
    parts
}

/// What `base64`'s `STANDARD_NO_PAD` engine decodes from a text: its
/// bytes, or the text of its error.
pub uninterp spec fn base64_no_pad(s: Seq<char>) -> Result<Seq<u8>, Seq<char>>;

/// Decodes through `base64::engine::general_purpose::STANDARD_NO_PAD`,
/// giving the bytes or the error's text; the result depends on `s` alone.
#[verifier::external_body]
fn decode_base64_no_pad(s: &str) -> (r: Result<Vec<u8>, String>)
    ensures
        match r {
            Ok(b) => base64_no_pad(s@) == Ok::<Seq<u8>, Seq<char>>(b@),
            Err(e) => base64_no_pad(s@) == Err::<Seq<u8>, Seq<char>>(e@),
        },
{
    base64::Engine::decode(&base64::engine::general_purpose::STANDARD_NO_PAD, s).map_err(|e| e.to_string())
}

/// What `serde_json` reads from bytes as a JSON value, then under `key`:
/// the text there, none when it is missing or not a text; or the text of
/// the parse error.
pub uninterp spec fn json_text_at(bytes: Seq<u8>, key: Seq<char>) -> Result<Option<Seq<char>>, Seq<char>>;

/// What `serde_json` reads from bytes as a JSON value, then under `key`:
/// the unsigned number there, none when it is missing or not one; or the
/// text of the parse error.
pub uninterp spec fn json_u64_at(bytes: Seq<u8>, key: Seq<char>) -> Result<Option<u64>, Seq<char>>;

/// Parses `bytes` as a JSON value through `serde_json::from_slice` and
/// reads the text under `key` (`Value::as_str`); the result depends on the
/// bytes and the key alone.
#[verifier::external_body]
pub(crate) fn json_text_field(bytes: &[u8], key: &str) -> (r: Result<Option<String>, String>)
    ensures
        match r {
            Ok(Some(t)) => json_text_at(bytes@, key@) == Ok::<Option<Seq<char>>, Seq<char>>(Some(t@)),
            Ok(None) => json_text_at(bytes@, key@) == Ok::<Option<Seq<char>>, Seq<char>>(None),
            Err(e) => json_text_at(bytes@, key@) == Err::<Option<Seq<char>>, Seq<char>>(e@),
        },
{
    match serde_json::from_slice::<serde_json::Value>(bytes) {
        Ok(v) => Ok(v[key].as_str().map(|t| t.to_string())),
        Err(e) => Err(e.to_string()),
    }
}

/// Parses `bytes` as a JSON value through `serde_json::from_slice` and
/// reads the unsigned number under `key` (`Value::as_u64`); the result
/// depends on the bytes and the key alone.
#[verifier::external_body]
pub(crate) fn json_u64_field(bytes: &[u8], key: &str) -> (r: Result<Option<u64>, String>)
    ensures
        match r {
            Ok(n) => json_u64_at(bytes@, key@) == Ok::<Option<u64>, Seq<char>>(n),
            Err(e) => json_u64_at(bytes@, key@) == Err::<Option<u64>, Seq<char>>(e@),
        },
{
    match serde_json::from_slice::<serde_json::Value>(bytes) {
        Ok(v) => Ok(v[key].as_u64()),
        Err(e) => Err(e.to_string()),
    }
}

/// Whether `e` is a scope error with the message `m`.
pub open spec fn scope_error(e: DelegationError, m: Seq<char>) -> bool {
    e is InvalidScope && e->InvalidScope_0@ == m
}

/// The payload of a token, decoded: refused unless the token has three
/// parts separated by `.` and its middle part decodes as base64.
pub open spec fn payload_of(token: Seq<char>) -> Result<Seq<u8>, Seq<char>> {
    if dot_parts(token).len() != 3 {
        Err("Invalid JWT format"@)
    } else {
        match base64_no_pad(dot_parts(token)[1]) {
            Ok(b) => Ok(b),
            Err(e) => Err("Failed to decode JWT payload: "@ + e),
        }
    }
}

/// The decoded payload of a token, without checking its signature.
fn token_payload(token: &str) -> (r: Result<Vec<u8>, DelegationError>)
    ensures
        match payload_of(token@) {
            Ok(b) => r matches Ok(v) && v@ == b,
            Err(m) => r matches Err(e) && scope_error(e, m),
        },
{
    let parts = split_on_dots(token);
    proof {
        assert(parts@.map_values(|p: String| p@).len() == parts@.len());
    }
    if parts.len() != 3 {
        return Err(DelegationError::InvalidScope("Invalid JWT format".to_string()));
    }
    proof {
        assert(parts@.map_values(|p: String| p@)[1] == parts@[1]@);
    }
    match decode_base64_no_pad(parts[1].as_str()) {
        Ok(b) => Ok(b),
        Err(e) => Err(DelegationError::InvalidScope(join_text("Failed to decode JWT payload: ", e.as_str()))),
    }
}

/// The subject of a token, read without checking its signature: refused
/// for a token that is not three parts, a payload that does not decode or
/// parse, or one without a `sub` text.
pub fn extract_subject_from_token(token: &str) -> (r: Result<String, DelegationError>)
    ensures
        match payload_of(token@) {
            Err(m) => r matches Err(e) && scope_error(e, m),
            Ok(b) => match json_text_at(b, "sub"@) {
                Err(m) => r matches Err(e) && scope_error(e, "Failed to parse JWT claims: "@ + m),
                Ok(None) => r matches Err(e) && scope_error(e, "Missing sub claim"@),
                Ok(Some(t)) => r matches Ok(s) && s@ == t,
            },
        },
{
    let payload = match token_payload(token) {
        Ok(b) => b,
        Err(e) => {
            return Err(e);
        },
    };
    match json_text_field(payload.as_slice(), "sub") {
        Err(m) => Err(DelegationError::InvalidScope(join_text("Failed to parse JWT claims: ", m.as_str()))),
        Ok(None) => Err(DelegationError::InvalidScope("Missing sub claim".to_string())),
        Ok(Some(t)) => Ok(t),
    }
}

/// Whether a token has expired at `now_secs`, read without checking its
/// signature: refused as `extract_subject_from_token` refuses, for `exp`.
pub fn is_token_expired_at(token: &str, now_secs: u64) -> (r: Result<bool, DelegationError>)
    ensures
        match payload_of(token@) {
            Err(m) => r matches Err(e) && scope_error(e, m),
            Ok(b) => match json_u64_at(b, "exp"@) {
                Err(m) => r matches Err(e) && scope_error(e, "Failed to parse JWT claims: "@ + m),
                Ok(None) => r matches Err(e) && scope_error(e, "Missing exp claim"@),
                Ok(Some(exp)) => r == Ok::<bool, DelegationError>(exp < now_secs),
            },
        },
{
    let payload = match token_payload(token) {
        Ok(b) => b,
        Err(e) => {
            return Err(e);
        },
    };
    match json_u64_field(payload.as_slice(), "exp") {
        Err(m) => Err(DelegationError::InvalidScope(join_text("Failed to parse JWT claims: ", m.as_str()))),
        Ok(None) => Err(DelegationError::InvalidScope("Missing exp claim".to_string())),
        Ok(Some(exp)) => Ok(exp < now_secs),
    }
}

/// Whether a token has expired now: refused as `is_token_expired_at`
/// refuses; a token whose `exp` lies beyond every second the clock can
/// show has not expired.
pub fn is_token_expired(token: &str) -> (r: Result<bool, DelegationError>)
    ensures
        match payload_of(token@) {
            Err(m) => r matches Err(e) && scope_error(e, m),
            Ok(b) => match json_u64_at(b, "exp"@) {
                Err(m) => r matches Err(e) && scope_error(e, "Failed to parse JWT claims: "@ + m),
                Ok(None) => r matches Err(e) && scope_error(e, "Missing exp claim"@),
                Ok(Some(exp)) => r is Ok && (exp >= i64::MAX / 1000 ==> r == Ok::<
                    bool,
                    DelegationError,
                >(false)),
            },
        },
{
    let now = crate::support::now_millis();
    let secs: u64 = if now < 0 { 0 } else { (now / 1000) as u64 };
    is_token_expired_at(token, secs)
}

/// What `jsonwebtoken::encode` makes of the claims `c` with the HS256
/// secret `secret` and the default header: the signed token, or the text
/// of the error.
pub uninterp spec fn hs256_token(c: ClaimsView, secret: Seq<u8>) -> Result<Seq<char>, Seq<char>>;

/// Signs `claims` as an HS256 token through `jsonwebtoken::encode` with the
/// default header and `secret`; the claims are handed over as a JSON object
/// of their six fields. The result depends on the claims and the secret
/// alone.
#[verifier::external_body]
fn encode_hs256(claims: &Claims, secret: &[u8]) -> (r: Result<String, String>)
    ensures
        match r {
            Ok(t) => hs256_token(claims_view(*claims), secret@) == Ok::<Seq<char>, Seq<char>>(t@),
            Err(e) => hs256_token(claims_view(*claims), secret@) == Err::<Seq<char>, Seq<char>>(e@),
        },
{
    let mut m = serde_json::Map::new();
    m.insert("sub".to_string(), Value::from(claims.sub.clone()));
    m.insert("vault".to_string(), Value::from(claims.vault.clone()));
    m.insert("permissions".to_string(), Value::from(claims.permissions.clone()));
    m.insert("iat".to_string(), Value::from(claims.iat));
    m.insert("exp".to_string(), Value::from(claims.exp));
    m.insert("jti".to_string(), Value::from(claims.jti.clone()));
    encode(&Header::default(), &Value::Object(m), &EncodingKey::from_secret(secret)).map_err(|e| e.to_string())
}

/// The text of the error `std::str::from_utf8` gives for bytes that are
/// not UTF-8.
pub uninterp spec fn utf8_error_text(b: Seq<u8>) -> Seq<char>;

/// Checks `b` with `std::str::from_utf8`: none when the bytes are UTF-8,
/// else the text of the error.
#[verifier::external_body]
fn utf8_problem(b: &[u8]) -> (r: Option<String>)
    ensures
        r is None <==> vstd::utf8::valid_utf8(b@),
        r matches Some(e) ==> e@ == utf8_error_text(b@),
{
    std::str::from_utf8(b).err().map(|e| e.to_string())
}

/// What reading the token `t` signed with `key` at `now` gives, leaving
/// the cache aside: the key must be UTF-8 text, and the token must
/// validate as an HS256 token with a minute of clock skew; its claims then
/// come without delegation.
pub open spec fn fresh_parse(t: Seq<char>, key: Seq<u8>, now: u64, r: Result<DelegatedClaims, DelegationError>) -> bool {
    if !vstd::utf8::valid_utf8(key) {
        r matches Err(e) && scope_error(e, "Invalid key format: "@ + utf8_error_text(key))
    } else {
        match hs256_validation(t, key, DEFAULT_LEEWAY, now) {
            Ok(c) => r matches Ok(d) && claims_view(d.base) == c && d.delegation is None,
            Err(m) => r matches Err(e) && scope_error(e, "Failed to validate JWT token: "@ + m),
        }
    }
}

/// Makes and reads HS256 tokens of delegated claims, keeping the tokens it
/// made or read in a cache.
pub struct JwtDelegatedTokenGenerator {
    token_cache: TokenCache,
    config: TokenConfig,
}

impl JwtDelegatedTokenGenerator {
    /// The cache.
    pub closed spec fn cache(&self) -> TokenCache {
        self.token_cache
    }

    /// A generator with `config`; its cache holds `config.cache_size`
    /// tokens at most and is empty.
    pub fn new(config: TokenConfig) -> (g: Self)
        ensures
            g.cache().entries().len() == 0,
            g.cache().capacity() == config.cache_size,
    {
        let token_cache = TokenCache::new(config.cache_size);
        JwtDelegatedTokenGenerator { token_cache, config }
    }

    /// A generator with the default settings.
    pub fn with_defaults() -> (g: Self)
        ensures
            g.cache().entries().len() == 0,
            g.cache().capacity() == 1000,
    {
        Self::new(TokenConfig::default())
    }

    /// The token of the base claims of `claims`, signed with `key`; the
    /// token is cached with `claims` at `now_ms`.
    pub fn create_delegated_token_at(&mut self, claims: &DelegatedClaims, key: &[u8], now_ms: i64) -> (r:
        Result<String, DelegationError>)
        ensures
            match hs256_token(claims_view(claims.base), key@) {
                Ok(t) => r matches Ok(s) && s@ == t && cached(final(self).cache().entries(), t),
                Err(m) => r matches Err(e) && scope_error(e, "Failed to create JWT token: "@ + m)
                    && final(self).cache() == old(self).cache(),
            },
    {
        let token = match encode_hs256(&claims.base, key) {
            Ok(t) => t,
            Err(m) => {
                return Err(DelegationError::InvalidScope(join_text("Failed to create JWT token: ", m.as_str())));
            },
        };
        let copy = copy_delegated(claims);
        self.token_cache.insert_at(token.clone(), copy, now_ms);
        Ok(token)
    }

    /// The claims of `token` signed with `key` at `now_secs`: from the
    /// cache while the cached claims have not expired; otherwise read from
    /// the token, which must validate, and cached at `now_ms`.
    pub fn parse_delegated_token_at(&mut self, token: &str, key: &[u8], now_secs: u64, now_ms: i64) -> (r:
        Result<DelegatedClaims, DelegationError>)
        ensures
            forall|i: int|
                #[trigger] holds_token(old(self).cache().entries(), token@, i) && !expired_at(
                    old(self).cache().entries()[i].1,
                    now_secs,
                ) ==> (r matches Ok(c) && same_delegated(c, old(self).cache().entries()[i].1.claims)),
            (forall|i: int|
                #[trigger] holds_token(old(self).cache().entries(), token@, i) ==> expired_at(
                    old(self).cache().entries()[i].1,
                    now_secs,
                )) ==> fresh_parse(token@, key@, now_secs, r),
            r is Ok ==> cached(final(self).cache().entries(), token@),
    {
        match self.token_cache.get_at(token, now_secs) {
            Some(c) => {
                return Ok(c);
            },
            None => {},
        }
        match utf8_problem(key) {
            Some(e) => {
                return Err(DelegationError::InvalidScope(join_text("Invalid key format: ", e.as_str())));
            },
            None => {},
        }
        let claims = match validate_hs256(token, key, DEFAULT_LEEWAY, now_secs) {
            Ok(c) => c,
            Err(e) => {
                let m = e.to_text();
                return Err(DelegationError::InvalidScope(join_text("Failed to validate JWT token: ", m.as_str())));
            },
        };
        let delegated = DelegatedClaims::new(claims);
        let copy = copy_delegated(&delegated);
        self.token_cache.insert_at(token.to_string(), copy, now_ms);
        Ok(delegated)
    }
}

/// A token for `subject` in `vault` with `permissions`, issued at
/// `now_secs` (`now_ms` in milliseconds) and lasting `expires_in_secs`,
/// with the identifier `jti`, signed with `key`; refused when the expiry
/// lies beyond `u64`.
pub fn create_simple_delegated_token_at(
    subject: &str,
    vault: &str,
    permissions: Vec<String>,
    expires_in_secs: u64,
    key: &[u8],
    now_secs: u64,
    now_ms: i64,
    jti: String,
) -> (r: Result<String, DelegationError>)
    ensures
        now_secs + expires_in_secs > u64::MAX ==> (r matches Err(e) && scope_error(
            e,
            "Expiry beyond the representable time"@,
        )),
        now_secs + expires_in_secs <= u64::MAX ==> match hs256_token(
            (subject@, vault@, texts(permissions@), now_secs, (now_secs + expires_in_secs) as u64, jti@),
            key@,
        ) {
            Ok(t) => r matches Ok(s) && s@ == t,
            Err(m) => r matches Err(e) && scope_error(e, "Failed to create JWT token: "@ + m),
        },
{
    let exp = match now_secs.checked_add(expires_in_secs) {
        Some(e) => e,
        None => {
            proof {
                reveal_strlit("Expiry beyond the representable time");
            }
            return Err(DelegationError::InvalidScope("Expiry beyond the representable time".to_string()));
        },
    };
    let claims = DelegatedClaims::new(
        Claims {
            sub: subject.to_string(),
            vault: vault.to_string(),
            permissions,
            iat: now_secs,
            exp,
            jti,
        },
    );
    let mut generator = JwtDelegatedTokenGenerator::with_defaults();
    generator.create_delegated_token_at(&claims, key, now_ms)
}

/// A token for `subject` in `vault` with `permissions`, issued now with a
/// fresh identifier and lasting `expires_in_secs`, signed with `key`.
pub fn create_simple_delegated_token(
    subject: &str,
    vault: &str,
    permissions: Vec<String>,
    expires_in_secs: u64,
    key: &[u8],
) -> (r: Result<String, DelegationError>)
    ensures
        r matches Ok(t) ==> exists|c: ClaimsView|
            c.0 == subject@ && c.1 == vault@ && c.2 == texts(permissions@) && c.4 == c.3 + expires_in_secs
                && #[trigger] hs256_token(c, key@) == Ok::<Seq<char>, Seq<char>>(t@),
{
    let now = crate::support::now_millis();
    let now_secs: u64 = if now < 0 {
        0
    } else {
        (now / 1000) as u64
    };
    let jti = crate::support::uuid_text(crate::support::random_uuid());
    create_simple_delegated_token_at(subject, vault, permissions, expires_in_secs, key, now_secs, now, jti)
}

} // verus!
