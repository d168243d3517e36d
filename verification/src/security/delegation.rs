//! Delegated capabilities: claims that carry a chain of delegations, the
//! restrictions a delegation is made under, and the rules by which a chain
//! grows. Identifiers are 128-bit values; times are milliseconds since the
//! Unix epoch.

use vstd::prelude::*;
use crate::security::capability::{Claims, texts, copy_texts};
use crate::support::{now_millis, random_uuid};
use crate::runtime::text::same_text;

verus! {

/// Why a delegation was refused or is no longer valid.
#[derive(Debug)]
pub enum DelegationError {
    /// The delegator lacks a permission.
    InsufficientPermissions(String),
    /// The chain is malformed.
    InvalidChain(String),
    /// The delegation expired.
    DelegationExpired { expires_at: i64 },
    /// The delegation was revoked.
    DelegationRevoked { reason: String },
    /// A subject would delegate back to one of its delegators.
    CircularDelegation,
    /// A permission is unknown.
    PermissionNotFound { permission: String },
    /// The chain would be longer than allowed.
    DelegationDepthExceeded { current: usize, max: usize },
    /// The delegation's scope does not allow it.
    InvalidScope(String),
}

/// One link of a delegation chain.
#[derive(Debug)]
pub struct DelegationEntry {
    /// Who delegated.
    pub delegator: String,
    /// Who received.
    pub delegatee: String,
    /// When.
    pub delegated_at: i64,
    /// Identifier of this link.
    pub delegation_id: u128,
}

/// A window of the day, as `HH:MM` texts.
#[derive(Debug)]
pub struct TimeWindow {
    /// Start, such as `09:00`.
    pub start_time: String,
    /// End, such as `17:00`.
    pub end_time: String,
}

/// When a delegation may be used.
#[derive(Debug)]
pub struct TimeRestrictions {
    /// Allowed windows of the day.
    pub allowed_time_windows: Vec<TimeWindow>,
    /// Time zone the windows are read in.
    pub timezone: String,
    /// Allowed days of the week, 1 for Monday to 7 for Sunday.
    pub allowed_days: Vec<u32>,
}

/// The restrictions a delegation is made under.
#[derive(Debug)]
pub struct DelegationRestrictions {
    /// Longest chain allowed.
    pub max_delegation_depth: usize,
    /// Whether the delegatee may delegate further.
    pub allow_further_delegation: bool,
    /// Time-based restrictions.
    pub time_restrictions: Option<TimeRestrictions>,
    /// Resource-based restrictions.
    pub resource_restrictions: Vec<String>,
    /// Further restrictions, as key and value.
    pub custom_restrictions: Vec<(String, String)>,
}

impl Default for DelegationRestrictions {
    fn default() -> (r: Self)
        ensures
            r.max_delegation_depth == 5,
            r.allow_further_delegation,
            r.time_restrictions is None,
            r.resource_restrictions@.len() == 0,
            r.custom_restrictions@.len() == 0,
    {
        DelegationRestrictions {
            max_delegation_depth: 5,
            allow_further_delegation: true,
            time_restrictions: None,
            resource_restrictions: Vec::new(),
            custom_restrictions: Vec::new(),
        }
    }
}

/// What a delegated capability carries about its delegation.
#[derive(Debug)]
pub struct DelegationMetadata {
    /// Identifier of the delegation.
    pub delegation_id: u128,
    /// The permissions delegated.
    pub delegated_permissions: Vec<String>,
    /// The chain of delegations, first to last.
    pub chain: Vec<DelegationEntry>,
    /// Restrictions of the delegation.
    pub restrictions: DelegationRestrictions,
    /// When it was made.
    pub created_at: i64,
    /// When it expires, apart from the token's own expiry.
    pub expires_at: Option<i64>,
    /// Whether it was revoked.
    pub revoked: bool,
    /// Why it was revoked.
    pub revocation_reason: Option<String>,
}

/// Claims, with the delegation they come from, if any.
#[derive(Debug)]
pub struct DelegatedClaims {
    /// The claims of the token.
    pub base: Claims,
    /// The delegation, for a delegated capability.
    pub delegation: Option<DelegationMetadata>,
}

/// The kinds of events of a delegation's audit trail.
#[derive(Debug, Clone, Copy, PartialEq, Eq, Structural)]
pub enum DelegationEventType {
    /// A delegation was made.
    DelegationCreated,
    /// A delegation was passed on.
    DelegationExtended,
    /// A delegation was revoked.
    DelegationRevoked,
    /// A delegation was used.
    DelegationUsed,
    /// A delegation expired.
    DelegationExpired,
    /// A delegation failed validation.
    ValidationFailed,
}

/// One event of the audit trail.
#[derive(Debug)]
pub struct DelegationAuditEvent {
    /// Identifier of the event.
    pub event_id: u128,
    /// Its kind.
    pub event_type: DelegationEventType,
    /// When it happened.
    pub timestamp: i64,
    /// Who caused it.
    pub subject: String,
    /// The delegation concerned.
    pub delegation_id: u128,
    /// Further details, as key and value.
    pub metadata: Vec<(String, String)>,
}

/// Counts of a cache of delegated tokens.
#[derive(Debug, Clone)]
pub struct TokenCacheStats {
    /// Tokens cached.
    pub total_entries: usize,
    /// Those not expired.
    pub active_entries: usize,
    /// Those expired.
    pub expired_entries: usize,
    /// Most tokens kept.
    pub max_size: usize,
}

/// Relations between permissions: a parent permission implies its
/// children.
pub trait PermissionHierarchy {
    /// Whether `parent` implies `child`.
    fn implies(&self, parent: &str, child: &str) -> Result<bool, String>;

    /// The permissions `permission` implies.
    fn get_implied_permissions(&self, permission: &str) -> Result<Vec<String>, String>;

    /// Records that `parent` implies `child`.
    fn add_implication(&mut self, parent: &str, child: &str) -> Result<(), String>;

    /// Forgets that `parent` implies `child`.
    fn remove_implication(&mut self, parent: &str, child: &str) -> Result<(), String>;

    /// Every parent with its children.
    fn get_hierarchy(&self) -> Result<Vec<(String, Vec<String>)>, String>;
}

/// Whether `v` holds the text `s`.
pub fn contains_text(v: &Vec<String>, s: &str) -> (r: bool)
    ensures
        r == texts(v@).contains(s@),
{
    let mut i: usize = 0;
    while i < v.len()
        invariant
            i <= v@.len(),
            forall|j: int| 0 <= j < i ==> v@[j]@ != s@,
        decreases v.len() - i,
    {
        if same_text(v[i].as_str(), s) {
            proof {
                assert(texts(v@)[i as int] == s@);
            }
            return true;
        }
        i = i + 1;
    }
    proof {
        if texts(v@).contains(s@) {
            let j = choose|j: int| 0 <= j < texts(v@).len() && texts(v@)[j] == s@;
            assert(v@[j]@ == s@);
        }
    }
    false
}

/// Whether every text of `a` is in `b`.
pub open spec fn subset_of(a: Seq<Seq<char>>, b: Seq<Seq<char>>) -> bool {
    forall|s: Seq<char>| a.contains(s) ==> b.contains(s)
}

/// Whether every text of `a` is in `b`.
pub fn all_held(a: &Vec<String>, b: &Vec<String>) -> (r: bool)
    ensures
        r == subset_of(texts(a@), texts(b@)),
{
    let mut i: usize = 0;
    while i < a.len()
        invariant
            i <= a@.len(),
            forall|j: int| 0 <= j < i ==> texts(b@).contains(#[trigger] a@[j]@),
        decreases a.len() - i,
    {
        if !contains_text(b, a[i].as_str()) {
            proof {
                assert(texts(a@)[i as int] == a@[i as int]@);
                assert(texts(a@).contains(a@[i as int]@));
            }
            return false;
        }
        i = i + 1;
    }
    proof {
        assert forall|s: Seq<char>| texts(a@).contains(s) implies texts(b@).contains(s) by {
            let j = choose|j: int| 0 <= j < texts(a@).len() && texts(a@)[j] == s;
            assert(a@[j]@ == s);
        }
    }
    true
}

/// Whether a delegator in `chain` is `who`.
pub open spec fn delegates_in(chain: Seq<DelegationEntry>, who: Seq<char>) -> bool {
    exists|i: int| 0 <= i < chain.len() && #[trigger] chain[i].delegator@ == who
}

/// Whether two entries hold the same values.
pub open spec fn same_link(a: DelegationEntry, b: DelegationEntry) -> bool {
    a.delegator@ == b.delegator@ && a.delegatee@ == b.delegatee@ && a.delegated_at == b.delegated_at
        && a.delegation_id == b.delegation_id
}

/// Whether two windows hold the same values.
pub open spec fn same_window(a: TimeWindow, b: TimeWindow) -> bool {
    a.start_time@ == b.start_time@ && a.end_time@ == b.end_time@
}

/// Whether two time restrictions hold the same values.
pub open spec fn same_time_restrictions(a: Option<TimeRestrictions>, b: Option<TimeRestrictions>) -> bool {
    match (a, b) {
        (Some(x), Some(y)) => {
            &&& x.allowed_time_windows@.len() == y.allowed_time_windows@.len()
            &&& forall|i: int|
                0 <= i < x.allowed_time_windows@.len() ==> same_window(
                    #[trigger] x.allowed_time_windows@[i],
                    y.allowed_time_windows@[i],
                )
            &&& x.timezone@ == y.timezone@
            &&& x.allowed_days@ == y.allowed_days@
        },
        (None, None) => true,
        _ => false,
    }
}

/// Whether two lists of key and value hold the same texts.
pub open spec fn same_pairs(a: Seq<(String, String)>, b: Seq<(String, String)>) -> bool {
    &&& a.len() == b.len()
    &&& forall|i: int| 0 <= i < a.len() ==> #[trigger] a[i].0@ == b[i].0@ && a[i].1@ == b[i].1@
}

/// Whether two sets of restrictions hold the same values.
pub open spec fn same_restrictions(a: DelegationRestrictions, b: DelegationRestrictions) -> bool {
    &&& a.max_delegation_depth == b.max_delegation_depth
    &&& a.allow_further_delegation == b.allow_further_delegation
    &&& same_time_restrictions(a.time_restrictions, b.time_restrictions)
    &&& texts(a.resource_restrictions@) == texts(b.resource_restrictions@)
    &&& same_pairs(a.custom_restrictions@, b.custom_restrictions@)
}

/// Whether two chains hold the same links.
pub open spec fn same_chain(a: Seq<DelegationEntry>, b: Seq<DelegationEntry>) -> bool {
    &&& a.len() == b.len()
    &&& forall|i: int| 0 <= i < a.len() ==> same_link(#[trigger] a[i], b[i])
}

/// Whether two delegations hold the same values.
pub open spec fn same_metadata(a: DelegationMetadata, b: DelegationMetadata) -> bool {
    &&& a.delegation_id == b.delegation_id
    &&& texts(a.delegated_permissions@) == texts(b.delegated_permissions@)
    &&& same_chain(a.chain@, b.chain@)
    &&& same_restrictions(a.restrictions, b.restrictions)
    &&& a.created_at == b.created_at
    &&& a.expires_at == b.expires_at
    &&& a.revoked == b.revoked
    &&& a.revocation_reason == b.revocation_reason
}

impl DelegationEntry {
    /// A copy of the link.
    pub fn duplicate(&self) -> (e: DelegationEntry)
        ensures
            same_link(e, *self),
    {
        DelegationEntry {
            delegator: self.delegator.clone(),
            delegatee: self.delegatee.clone(),
            delegated_at: self.delegated_at,
            delegation_id: self.delegation_id,
        }
    }
}

/// A copy of a chain.
pub fn copy_chain(v: &Vec<DelegationEntry>) -> (r: Vec<DelegationEntry>)
    ensures
        same_chain(r@, v@),
{
    let mut out: Vec<DelegationEntry> = Vec::new();
    let mut i: usize = 0;
    while i < v.len()
        invariant
            i <= v@.len(),
            out@.len() == i,
            forall|j: int| 0 <= j < i ==> same_link(#[trigger] out@[j], v@[j]),
        decreases v.len() - i,
    {
        out.push(v[i].duplicate());
        i = i + 1;
    }
    out
}

/// A copy of a list of key and value pairs.
pub fn copy_pairs(v: &Vec<(String, String)>) -> (r: Vec<(String, String)>)
    ensures
        same_pairs(r@, v@),
{
    let mut out: Vec<(String, String)> = Vec::new();
    let mut i: usize = 0;
    while i < v.len()
        invariant
            i <= v@.len(),
            out@.len() == i,
            forall|j: int| 0 <= j < i ==> #[trigger] out@[j].0@ == v@[j].0@ && out@[j].1@ == v@[j].1@,
        decreases v.len() - i,
    {
        out.push((v[i].0.clone(), v[i].1.clone()));
        i = i + 1;
    }
    out
}

impl TimeWindow {
    /// A copy of the window.
    pub fn duplicate(&self) -> (w: TimeWindow)
        ensures
            same_window(w, *self),
    {
        TimeWindow { start_time: self.start_time.clone(), end_time: self.end_time.clone() }
    }
}

impl TimeRestrictions {
    /// A copy of the restrictions.
    pub fn duplicate(&self) -> (t: TimeRestrictions)
        ensures
            same_time_restrictions(Some(t), Some(*self)),
    {
        let mut windows: Vec<TimeWindow> = Vec::new();
        let mut i: usize = 0;
        while i < self.allowed_time_windows.len()
            invariant
                i <= self.allowed_time_windows@.len(),
                windows@.len() == i,
                forall|j: int|
                    0 <= j < i ==> same_window(#[trigger] windows@[j], self.allowed_time_windows@[j]),
            decreases self.allowed_time_windows.len() - i,
        {
            windows.push(self.allowed_time_windows[i].duplicate());
            i = i + 1;
        }
        let mut days: Vec<u32> = Vec::new();
        let mut k: usize = 0;
        while k < self.allowed_days.len()
            invariant
                k <= self.allowed_days@.len(),
                days@ == self.allowed_days@.take(k as int),
            decreases self.allowed_days.len() - k,
        {
            days.push(self.allowed_days[k]);
            proof {
                assert(days@ =~= self.allowed_days@.take(k + 1));
            }
            k = k + 1;
        }
        proof {
            assert(days@ =~= self.allowed_days@);
        }
        TimeRestrictions {
            allowed_time_windows: windows,
            timezone: self.timezone.clone(),
            allowed_days: days,
        }
    }
}

impl DelegationRestrictions {
    /// A copy of the restrictions.
    pub fn duplicate(&self) -> (r: DelegationRestrictions)
        ensures
            same_restrictions(r, *self),
    {
        DelegationRestrictions {
            max_delegation_depth: self.max_delegation_depth,
            allow_further_delegation: self.allow_further_delegation,
            time_restrictions: match &self.time_restrictions {
                Some(t) => Some(t.duplicate()),
                None => None,
            },
            resource_restrictions: copy_texts(&self.resource_restrictions),
            custom_restrictions: copy_pairs(&self.custom_restrictions),
        }
    }
}

impl DelegationMetadata {
    /// A delegation of `delegated_permissions` from `delegator` to
    /// `delegatee`: a chain of one link, made now, with fresh identifiers,
    /// no expiry of its own, not revoked.
    pub fn new(
        delegated_permissions: Vec<String>,
        delegator: String,
        delegatee: String,
        restrictions: DelegationRestrictions,
    ) -> (m: DelegationMetadata)
        ensures
            m.delegated_permissions == delegated_permissions,
            m.chain@.len() == 1,
            m.chain@[0].delegator == delegator,
            m.chain@[0].delegatee == delegatee,
            m.chain@[0].delegated_at == m.created_at,
            m.restrictions == restrictions,
            m.expires_at is None,
            !m.revoked,
            m.revocation_reason is None,
    {
        let delegation_id = random_uuid();
        let now = now_millis();
        let link = DelegationEntry {
            delegator,
            delegatee,
            delegated_at: now,
            delegation_id: random_uuid(),
        };
        let mut chain: Vec<DelegationEntry> = Vec::new();
        chain.push(link);
        DelegationMetadata {
            delegation_id,
            delegated_permissions,
            chain,
            restrictions,
            created_at: now,
            expires_at: None,
            revoked: false,
            revocation_reason: None,
        }
    }

    /// A copy of the delegation.
    pub fn duplicate(&self) -> (m: DelegationMetadata)
        ensures
            same_metadata(m, *self),
    {
        DelegationMetadata {
            delegation_id: self.delegation_id,
            delegated_permissions: copy_texts(&self.delegated_permissions),
            chain: copy_chain(&self.chain),
            restrictions: self.restrictions.duplicate(),
            created_at: self.created_at,
            expires_at: self.expires_at,
            revoked: self.revoked,
            revocation_reason: match &self.revocation_reason {
                Some(r) => Some(r.clone()),
                None => None,
            },
        }
    }

    /// Passes the delegation on from `delegator` to `delegatee` with
    /// `new_permissions`. Refused when the chain is as long as the
    /// restrictions allow, when `delegatee` already delegated in the chain,
    /// or when a new permission is not currently delegated. Otherwise a link
    /// is added and the delegated permissions become `new_permissions`.
    pub fn extend_chain(&mut self, delegator: String, delegatee: String, new_permissions: Vec<String>) -> (r:
        Result<(), DelegationError>)
        ensures
            old(self).chain@.len() >= old(self).restrictions.max_delegation_depth ==> {
                &&& r matches Err(DelegationError::DelegationDepthExceeded { current, max })
                &&& current == old(self).chain@.len()
                &&& max == old(self).restrictions.max_delegation_depth
                &&& *final(self) == *old(self)
            },
            old(self).chain@.len() < old(self).restrictions.max_delegation_depth && delegates_in(
                old(self).chain@,
                delegatee@,
            ) ==> (r matches Err(DelegationError::CircularDelegation)) && *final(self) == *old(self),
            old(self).chain@.len() < old(self).restrictions.max_delegation_depth && !delegates_in(
                old(self).chain@,
                delegatee@,
            ) && !subset_of(texts(new_permissions@), texts(old(self).delegated_permissions@)) ==> {
                &&& r matches Err(DelegationError::InsufficientPermissions(m))
                &&& m@ == "Cannot delegate permissions not currently held"@
                &&& *final(self) == *old(self)
            },
            old(self).chain@.len() < old(self).restrictions.max_delegation_depth && !delegates_in(
                old(self).chain@,
                delegatee@,
            ) && subset_of(texts(new_permissions@), texts(old(self).delegated_permissions@)) ==> {
                &&& r is Ok
                &&& final(self).chain@.len() == old(self).chain@.len() + 1
                &&& final(self).chain@.take(old(self).chain@.len() as int) == old(self).chain@
                &&& final(self).chain@.last().delegator == delegator
                &&& final(self).chain@.last().delegatee == delegatee
                &&& final(self).delegated_permissions == new_permissions
                &&& final(self).delegation_id == old(self).delegation_id
                &&& final(self).restrictions == old(self).restrictions
                &&& final(self).created_at == old(self).created_at
                &&& final(self).expires_at == old(self).expires_at
                &&& final(self).revoked == old(self).revoked
                &&& final(self).revocation_reason == old(self).revocation_reason
            },
    {
        if self.chain.len() >= self.restrictions.max_delegation_depth {
            return Err(
                DelegationError::DelegationDepthExceeded {
                    current: self.chain.len(),
                    max: self.restrictions.max_delegation_depth,
                },
            );
        }
        let mut i: usize = 0;
        while i < self.chain.len()
            invariant
                i <= self.chain@.len(),
                *self == *old(self),
                self.chain@.len() < self.restrictions.max_delegation_depth,
                forall|j: int| 0 <= j < i ==> self.chain@[j].delegator@ != delegatee@,
            decreases self.chain.len() - i,
        {
            if same_text(self.chain[i].delegator.as_str(), delegatee.as_str()) {
                proof {
                    assert(self.chain@[i as int].delegator@ == delegatee@);
                }
                return Err(DelegationError::CircularDelegation);
            }
            i = i + 1;
        }
        if !all_held(&new_permissions, &self.delegated_permissions) {
            return Err(
                DelegationError::InsufficientPermissions(
                    "Cannot delegate permissions not currently held".to_owned(),
                ),
            );
        }
        let link = DelegationEntry {
            delegator,
            delegatee,
            delegated_at: now_millis(),
            delegation_id: random_uuid(),
        };
        self.chain.push(link);
        self.delegated_permissions = new_permissions;
        proof {
            assert(self.chain@.take(old(self).chain@.len() as int) =~= old(self).chain@);
        }
        Ok(())
    }

    /// Whether the delegation is valid at `now`: not revoked, and not past
    /// its expiry.
    pub fn is_valid_at(&self, now: i64) -> (r: bool)
        ensures
            r == (!self.revoked && match self.expires_at {
                Some(e) => now <= e,
                None => true,
            }),
    {
        if self.revoked {
            return false;
        }
        match self.expires_at {
            Some(e) => now <= e,
            None => true,
        }
    }

    /// Whether the delegation is valid now.
    pub fn is_valid(&self) -> (r: bool)
        ensures
            self.revoked ==> !r,
            !self.revoked && self.expires_at is None ==> r,
    {
        self.is_valid_at(now_millis())
    }

    /// Revokes the delegation for `reason`.
    pub fn revoke(&mut self, reason: String)
        ensures
            *final(self) == (DelegationMetadata {
                revoked: true,
                revocation_reason: Some(reason),
                ..*old(self)
            }),
    {
        self.revoked = true;
        self.revocation_reason = Some(reason);
    }
}

/// The permissions of `base` that `delegated` also holds, once each, in the
/// order of `base`.
pub open spec fn is_intersection(r: Seq<Seq<char>>, base: Seq<Seq<char>>, delegated: Seq<Seq<char>>) -> bool {
    &&& r.no_duplicates()
    &&& forall|s: Seq<char>| r.contains(s) <==> (base.contains(s) && delegated.contains(s))
}

/// The effective permissions of claims: those of the token, and, for a
/// delegated capability, only those also delegated.
pub open spec fn holds_effective(c: DelegatedClaims, p: Seq<char>) -> bool {
    match c.delegation {
        Some(d) => texts(c.base.permissions@).contains(p) && texts(d.delegated_permissions@).contains(p),
        None => texts(c.base.permissions@).contains(p),
    }
}

impl DelegatedClaims {
    /// Claims that come from no delegation.
    pub fn new(base: Claims) -> (c: DelegatedClaims)
        ensures
            c.base == base,
            c.delegation is None,
    {
        DelegatedClaims { base, delegation: None }
    }

    /// Claims that come from `delegation`.
    pub fn with_delegation(base: Claims, delegation: DelegationMetadata) -> (c: DelegatedClaims)
        ensures
            c.base == base,
            c.delegation == Some(delegation),
    {
        DelegatedClaims { base, delegation: Some(delegation) }
    }

    /// Whether the claims come from a delegation.
    pub fn is_delegated(&self) -> (r: bool)
        ensures
            r == self.delegation is Some,
    {
        self.delegation.is_some()
    }

    /// The length of the delegation chain, 0 when not delegated.
    pub fn delegation_depth(&self) -> (r: usize)
        ensures
            r == match self.delegation {
                Some(d) => d.chain@.len(),
                None => 0,
            },
    {
        match &self.delegation {
            Some(d) => d.chain.len(),
            None => 0,
        }
    }

    /// The effective permissions: those of the token; for a delegated
    /// capability, those also delegated, each once.
    pub fn effective_permissions(&self) -> (r: Vec<String>)
        ensures
            self.delegation is None ==> texts(r@) == texts(self.base.permissions@),
            self.delegation matches Some(d) ==> is_intersection(
                texts(r@),
                texts(self.base.permissions@),
                texts(d.delegated_permissions@),
            ),
    {
        match &self.delegation {
            None => copy_texts(&self.base.permissions),
            Some(d) => {
                let base = &self.base.permissions;
                let mut out: Vec<String> = Vec::new();
                let mut i: usize = 0;
                while i < base.len()
                    invariant
                        i <= base@.len(),
                        texts(out@).no_duplicates(),
                        forall|s: Seq<char>|
                            #![trigger texts(out@).contains(s)]
                            #![trigger texts(d.delegated_permissions@).contains(s)]
                            texts(out@).contains(s) <==> (texts(base@.take(i as int)).contains(s)
                                && texts(d.delegated_permissions@).contains(s)),
                    decreases base.len() - i,
                {
                    let p = base[i].as_str();
                    proof {
                        assert(texts(base@.take(i + 1)) =~= texts(base@.take(i as int)).push(p@));
                    }
                    let ghost before = texts(out@);
                    let ghost prefix = texts(base@.take(i as int));
                    let ghost dp = texts(d.delegated_permissions@);
                    if contains_text(&d.delegated_permissions, p) && !contains_text(&out, p) {
                        out.push(p.to_owned());
                        proof {
                            assert(texts(out@) =~= before.push(p@));
                            assert forall|s: Seq<char>|
                                #![trigger texts(out@).contains(s)]
                                #![trigger dp.contains(s)]
                                texts(out@).contains(s) <==> (prefix.push(p@).contains(s) && dp.contains(s)) by {
                                if before.contains(s) {
                                    let j = choose|j: int| 0 <= j < before.len() && before[j] == s;
                                    assert(texts(out@)[j] == s);
                                }
                                if prefix.contains(s) {
                                    let j = choose|j: int| 0 <= j < prefix.len() && prefix[j] == s;
                                    assert(prefix.push(p@)[j] == s);
                                }
                                if texts(out@).contains(s) {
                                    let j = choose|j: int| 0 <= j < texts(out@).len() && texts(out@)[j] == s;
                                    if j < before.len() {
                                        assert(before[j] == s);
                                    }
                                }
                                if prefix.push(p@).contains(s) {
                                    let j = choose|j: int| 0 <= j < prefix.len() + 1 && prefix.push(p@)[j] == s;
                                    if j < prefix.len() {
                                        assert(prefix[j] == s);
                                    }
                                }
                                assert(texts(out@)[before.len() as int] == p@);
                                assert(prefix.push(p@)[prefix.len() as int] == p@);
                            }
                            assert(forall|s: Seq<char>|
                                #![trigger texts(out@).contains(s)]
                                #![trigger dp.contains(s)]
                                texts(out@).contains(s) <==> (prefix.push(p@).contains(s) && dp.contains(s)));
                            assert forall|a: int, b: int| 0 <= a < b < texts(out@).len() implies texts(out@)[a]
                                != texts(out@)[b] by {
                                if b == before.len() {
                                    assert(before[a] == texts(out@)[a]);
                                }
                            }
                        }
                    } else {
                        proof {
                            assert forall|s: Seq<char>|
                                #![trigger texts(out@).contains(s)]
                                #![trigger dp.contains(s)]
                                texts(out@).contains(s) <==> (prefix.push(p@).contains(s) && dp.contains(s)) by {
                                if prefix.contains(s) {
                                    let j = choose|j: int| 0 <= j < prefix.len() && prefix[j] == s;
                                    assert(prefix.push(p@)[j] == s);
                                }
                                if prefix.push(p@).contains(s) {
                                    let j = choose|j: int| 0 <= j < prefix.len() + 1 && prefix.push(p@)[j] == s;
                                    if j < prefix.len() {
                                        assert(prefix[j] == s);
                                    }
                                }
                            }
                            assert(forall|s: Seq<char>|
                                #![trigger texts(out@).contains(s)]
                                #![trigger dp.contains(s)]
                                texts(out@).contains(s) <==> (prefix.push(p@).contains(s) && dp.contains(s)));
                        }
                    }
                    proof {
                        assert(texts(base@.take(i + 1)) == prefix.push(p@));
                        assert(forall|s: Seq<char>|
                                #![trigger texts(out@).contains(s)]
                                #![trigger dp.contains(s)]
                                texts(out@).contains(s) <==> (prefix.push(p@).contains(s) && dp.contains(s)));
                    }
                    i = i + 1;
                }
                proof {
                    assert(base@.take(base@.len() as int) =~= base@);
                }
                out
            },
        }
    }

    /// Whether `permission` is among the effective permissions.
    pub fn has_permission(&self, permission: &str) -> (r: bool)
        ensures
            r == holds_effective(*self, permission@),
    {
        let effective = self.effective_permissions();
        contains_text(&effective, permission)
    }

    /// The first delegator of the chain.
    pub fn original_delegator(&self) -> (r: Option<&String>)
        ensures
            r == match self.delegation {
                Some(d) => if d.chain@.len() > 0 {
                    Some(&d.chain@[0].delegator)
                } else {
                    None
                },
                None => None,
            },
    {
        match &self.delegation {
            Some(d) => if d.chain.len() > 0 {
                Some(&d.chain[0].delegator)
            } else {
                None
            },
            None => None,
        }
    }

    /// The last delegator of the chain.
    pub fn immediate_delegator(&self) -> (r: Option<&String>)
        ensures
            r == match self.delegation {
                Some(d) => if d.chain@.len() > 0 {
                    Some(&d.chain@.last().delegator)
                } else {
                    None
                },
                None => None,
            },
    {
        match &self.delegation {
            Some(d) => if d.chain.len() > 0 {
                Some(&d.chain[d.chain.len() - 1].delegator)
            } else {
                None
            },
            None => None,
        }
    }
}

} // verus!
