//! An in-memory manager of delegations: it makes, stores, revokes and
//! checks them, keeps an audit trail, and knows the delegations made to
//! each subject. Identifiers are 128-bit values; times are milliseconds
//! since the Unix epoch.

use vstd::prelude::*;
use crate::security::capability::{Claims, texts, copy_texts};
use crate::security::delegation::{
    DelegatedClaims, DelegationError, DelegationMetadata, DelegationEntry, DelegationRestrictions,
    DelegationAuditEvent, DelegationEventType, contains_text, subset_of, delegates_in, same_metadata,
    same_chain, same_restrictions, holds_effective, copy_chain, copy_pairs, same_pairs,
};
use crate::support::{now_millis, random_uuid, uuid_text, join_text, hyphenated};
use crate::runtime::text::same_text;

verus! {

/// What `chrono::DateTime::from_timestamp_millis(ms)` and `to_rfc3339`
/// make of a time: its RFC 3339 text, when chrono represents it.
pub uninterp spec fn rfc3339_text(ms: i64) -> Option<Seq<char>>;

/// Formats the time `ms` through `chrono::DateTime::from_timestamp_millis`
/// and `DateTime::to_rfc3339`; `None` where chrono represents no such time.
#[verifier::external_body]
fn rfc3339_of(ms: i64) -> (r: Option<String>)
    ensures
        match r {
            Some(t) => rfc3339_text(ms) == Some(t@),
            None => rfc3339_text(ms) is None,
        },
{
    chrono::DateTime::from_timestamp_millis(ms).map(|d| d.to_rfc3339())
}

/// Counts of a manager's delegations.
#[derive(Debug, Clone)]
pub struct DelegationStats {
    /// Delegations stored.
    pub total_delegations: usize,
    /// Those valid now.
    pub active_delegations: usize,
    /// Those revoked.
    pub revoked_delegations: usize,
    /// Those expired and not revoked.
    pub expired_delegations: usize,
    /// Events of the audit trail.
    pub total_audit_events: usize,
    /// Subjects that received delegations.
    pub subjects_with_delegations: usize,
}

/// The texts of `v` separated by commas.
pub open spec fn comma_joined(v: Seq<Seq<char>>) -> Seq<char>
    decreases v.len(),
{
    if v.len() == 0 {
        Seq::empty()
    } else if v.len() == 1 {
        v[0]
    } else {
        comma_joined(v.drop_last()) + ","@ + v.last()
    }
}

/// The texts of `v` separated by commas.
fn join_commas(v: &Vec<String>) -> (r: String)
    ensures
        r@ == comma_joined(texts(v@)),
{
    let mut out = String::new();
    let mut i: usize = 0;
    while i < v.len()
        invariant
            i <= v@.len(),
            out@ == comma_joined(texts(v@.take(i as int))),
        decreases v.len() - i,
    {
        proof {
            assert(texts(v@.take(i + 1)).drop_last() =~= texts(v@.take(i as int)));
            assert(texts(v@.take(i + 1)).last() == v@[i as int]@);
        }
        if i == 0 {
            out = v[i].clone();
        } else {
            let with_comma = join_text(out.as_str(), ",");
            out = join_text(with_comma.as_str(), v[i].as_str());
        }
        i = i + 1;
    }
    proof {
        assert(v@.take(v@.len() as int) =~= v@);
    }
    out
}

/// The first permission of `permissions` that the delegator of claims `c`
/// does not hold, if any.
pub open spec fn first_lacking(c: DelegatedClaims, permissions: Seq<String>) -> Option<int> {
    if exists|k: int| 0 <= k < permissions.len() && !holds_effective(c, #[trigger] permissions[k]@) {
        Some(
            choose|k: int|
                0 <= k < permissions.len() && !holds_effective(c, #[trigger] permissions[k]@) && forall|q: int|
                    0 <= q < k ==> holds_effective(c, permissions[q]@),
        )
    } else {
        None
    }
}

/// The refusal of a delegation request, if any: why it is refused, in the
/// order the checks are made.
pub enum Refusal {
    /// The delegator lacks the permission, with the message.
    Lacking(Seq<char>),
    /// The delegation forbids further delegation.
    NoFurther,
    /// The chain is as long as allowed: its length and the limit.
    TooDeep(nat, nat),
    /// The delegatee already delegated in the chain.
    Circular,
    /// A permission is not currently delegated.
    NotHeld,
}

/// Why a request by `c` to delegate `permissions` to `delegatee` under
/// `restrictions` is refused, if it is.
pub open spec fn refusal(
    c: DelegatedClaims,
    delegatee: Seq<char>,
    permissions: Seq<String>,
    restrictions: DelegationRestrictions,
) -> Option<Refusal> {
    if first_lacking(c, permissions) is Some {
        Some(
            Refusal::Lacking(
                "Delegator does not have permission: "@ + permissions[first_lacking(c, permissions)->0]@,
            ),
        )
    } else {
        match c.delegation {
            None => None,
            Some(d) => if !d.restrictions.allow_further_delegation {
                Some(Refusal::NoFurther)
            } else if d.chain@.len() >= restrictions.max_delegation_depth {
                Some(Refusal::TooDeep(d.chain@.len(), restrictions.max_delegation_depth as nat))
            } else if d.chain@.len() >= d.restrictions.max_delegation_depth {
                Some(Refusal::TooDeep(d.chain@.len(), d.restrictions.max_delegation_depth as nat))
            } else if delegates_in(d.chain@, delegatee) {
                Some(Refusal::Circular)
            } else if !subset_of(texts(permissions), texts(d.delegated_permissions@)) {
                Some(Refusal::NotHeld)
            } else {
                None
            },
        }
    }
}

/// Whether `r` is the error of refusal `f`.
pub open spec fn refused_with<T>(r: Result<T, DelegationError>, f: Refusal) -> bool {
    match f {
        Refusal::Lacking(m) => r matches Err(DelegationError::InsufficientPermissions(s)) && s@ == m,
        Refusal::NoFurther => r matches Err(DelegationError::InvalidScope(s)) && s@
            == "Further delegation not allowed by original delegation"@,
        Refusal::TooDeep(c, m) => r matches Err(DelegationError::DelegationDepthExceeded { current, max })
            && current == c && max == m,
        Refusal::Circular => r matches Err(DelegationError::CircularDelegation),
        Refusal::NotHeld => r matches Err(DelegationError::InsufficientPermissions(s)) && s@
            == "Cannot delegate permissions not currently held"@,
    }
}

/// The earlier of two optional expiries, where both are given.
pub open spec fn earlier_expiry(new: Option<i64>, existing: Option<i64>) -> Option<i64> {
    match (new, existing) {
        (Some(n), Some(e)) => Some(if n <= e {
            n
        } else {
            e
        }),
        (Some(n), None) => Some(n),
        (None, e) => e,
    }
}

/// Whether `m` is the delegation that a permitted request by `c` makes:
/// a first link from `c`'s subject to `delegatee`, or the link added to
/// `c`'s own delegation, whose identifier and restrictions it keeps.
pub open spec fn made_delegation(
    m: DelegationMetadata,
    c: DelegatedClaims,
    delegatee: Seq<char>,
    permissions: Seq<String>,
    restrictions: DelegationRestrictions,
    expires_at: Option<i64>,
) -> bool {
    &&& texts(m.delegated_permissions@) == texts(permissions)
    &&& m.chain@.len() > 0
    &&& m.chain@.last().delegator@ == c.base.sub@
    &&& m.chain@.last().delegatee@ == delegatee
    &&& match c.delegation {
        None => {
            &&& m.chain@.len() == 1
            &&& m.restrictions == restrictions
            &&& m.expires_at == expires_at
            &&& !m.revoked
            &&& m.revocation_reason is None
        },
        Some(d) => {
            &&& m.delegation_id == d.delegation_id
            &&& same_chain(m.chain@.drop_last(), d.chain@)
            &&& same_restrictions(m.restrictions, d.restrictions)
            &&& m.created_at == d.created_at
            &&& m.expires_at == earlier_expiry(expires_at, d.expires_at)
            &&& m.revoked == d.revoked
            &&& m.revocation_reason == d.revocation_reason
        },
    }
}

/// A delegation made from another never outlives it nor the expiry asked
/// for: the extended delegation's expiry, when the request or the
/// delegation it extends has one, is no later than each of them that is
/// given, and is one of them; only when neither has an expiry does it have
/// none.
pub proof fn law_extension_never_outlives(
    m: DelegationMetadata,
    c: DelegatedClaims,
    delegatee: Seq<char>,
    permissions: Seq<String>,
    restrictions: DelegationRestrictions,
    expires_at: Option<i64>,
)
    requires
        made_delegation(m, c, delegatee, permissions, restrictions, expires_at),
        c.delegation is Some,
    ensures
        expires_at matches Some(n) ==> (m.expires_at matches Some(x) && x <= n),
        c.delegation->0.expires_at matches Some(e) ==> (m.expires_at matches Some(x) && x <= e),
        m.expires_at matches Some(x) ==> (expires_at == Some(x) || c.delegation->0.expires_at == Some(x)),
        expires_at is None && c.delegation->0.expires_at is None ==> m.expires_at is None,
{
}

/// The identifiers of stored delegations.
pub open spec fn ids_of(v: Seq<DelegationMetadata>) -> Seq<u128> {
    v.map_values(|m: DelegationMetadata| m.delegation_id)
}

/// Stores, revokes and checks delegations; keeps an audit trail.
pub struct SimpleDelegationManager {
    delegations: Vec<DelegationMetadata>,
    audit_trail: Vec<DelegationAuditEvent>,
    subject_delegations: Vec<(String, Vec<u128>)>,
}

impl SimpleDelegationManager {
    /// The stored delegations.
    pub closed spec fn stored(&self) -> Seq<DelegationMetadata> {
        self.delegations@
    }

    /// The audit trail, oldest first.
    pub closed spec fn trail(&self) -> Seq<DelegationAuditEvent> {
        self.audit_trail@
    }

    /// Each subject that received delegations, with their identifiers.
    pub closed spec fn subjects(&self) -> Seq<(String, Vec<u128>)> {
        self.subject_delegations@
    }

    /// An empty manager.
    pub fn new() -> (m: Self)
        ensures
            m.stored().len() == 0,
            m.trail().len() == 0,
            m.subjects().len() == 0,
    {
        SimpleDelegationManager {
            delegations: Vec::new(),
            audit_trail: Vec::new(),
            subject_delegations: Vec::new(),
        }
    }

    /// Records an event of kind `event_type`, caused by `subject`, on
    /// delegation `delegation_id`.
    fn record_audit_event(
        &mut self,
        event_type: DelegationEventType,
        subject: String,
        delegation_id: u128,
        metadata: Vec<(String, String)>,
    )
        ensures
            final(self).trail().len() == old(self).trail().len() + 1,
            final(self).trail().drop_last() == old(self).trail(),
            final(self).trail().last().event_type == event_type,
            final(self).trail().last().subject == subject,
            final(self).trail().last().delegation_id == delegation_id,
            final(self).trail().last().metadata == metadata,
            final(self).stored() == old(self).stored(),
            final(self).subjects() == old(self).subjects(),
    {
        let event = DelegationAuditEvent {
            event_id: random_uuid(),
            event_type,
            timestamp: now_millis(),
            subject,
            delegation_id,
            metadata,
        };
        self.audit_trail.push(event);
        proof {
            assert(self.audit_trail@.drop_last() =~= old(self).audit_trail@);
        }
    }

    /// Adds `delegation_id` to the delegations made to `subject`.
    fn update_subject_mapping(&mut self, subject: &str, delegation_id: u128)
        ensures
            final(self).stored() == old(self).stored(),
            final(self).trail() == old(self).trail(),
            exists|i: int|
                0 <= i < final(self).subjects().len() && #[trigger] final(self).subjects()[i].0@ == subject@
                    && final(self).subjects()[i].1@.last() == delegation_id,
    {
        let mut i: usize = 0;
        while i < self.subject_delegations.len()
            invariant
                i <= self.subject_delegations@.len(),
                self.delegations@ == old(self).delegations@,
                self.audit_trail@ == old(self).audit_trail@,
            decreases self.subject_delegations.len() - i,
        {
            if same_text(self.subject_delegations[i].0.as_str(), subject) {
                let mut ids: Vec<u128> = Vec::new();
                let mut k: usize = 0;
                while k < self.subject_delegations[i].1.len()
                    invariant
                        i < self.subject_delegations@.len(),
                        k <= self.subject_delegations@[i as int].1@.len(),
                        ids@ == self.subject_delegations@[i as int].1@.take(k as int),
                    decreases self.subject_delegations@[i as int].1@.len() - k,
                {
                    ids.push(self.subject_delegations[i].1[k]);
                    proof {
                        assert(ids@ =~= self.subject_delegations@[i as int].1@.take(k + 1));
                    }
                    k = k + 1;
                }
                ids.push(delegation_id);
                let name = self.subject_delegations[i].0.clone();
                self.subject_delegations.set(i, (name, ids));
                proof {
                    assert(self.subjects()[i as int].0@ == subject@);
                    assert(self.subjects()[i as int].1@.last() == delegation_id);
                }
                return;
            }
            i = i + 1;
        }
        let mut ids: Vec<u128> = Vec::new();
        ids.push(delegation_id);
        self.subject_delegations.push((subject.to_owned(), ids));
        proof {
            let last = self.subjects().len() - 1;
            assert(self.subjects()[last].0@ == subject@);
            assert(self.subjects()[last].1@.last() == delegation_id);
        }
    }

    /// Stores `m` in place of the stored delegation of the same identifier,
    /// or after the others.
    fn store(&mut self, m: DelegationMetadata)
        ensures
            exists|i: int|
                0 <= i < final(self).stored().len() && #[trigger] final(self).stored()[i] == m,
            forall|i: int|
                0 <= i < old(self).stored().len() && old(self).stored()[i].delegation_id != m.delegation_id
                    ==> #[trigger] final(self).stored()[i] == old(self).stored()[i],
            old(self).stored().len() <= final(self).stored().len() <= old(self).stored().len() + 1,
            ids_of(old(self).stored()).no_duplicates() ==> ids_of(final(self).stored()).no_duplicates(),
            final(self).trail() == old(self).trail(),
            final(self).subjects() == old(self).subjects(),
    {
        let mut i: usize = 0;
        while i < self.delegations.len()
            invariant
                i <= self.delegations@.len(),
                self.delegations@ == old(self).delegations@,
                self.audit_trail@ == old(self).audit_trail@,
                self.subject_delegations@ == old(self).subject_delegations@,
                forall|j: int| 0 <= j < i ==> #[trigger] self.delegations@[j].delegation_id != m.delegation_id,
            decreases self.delegations.len() - i,
        {
            if self.delegations[i].delegation_id == m.delegation_id {
                let ghost before = self.delegations@;
                self.delegations.set(i, m);
                proof {
                    assert(self.stored()[i as int] == m);
                    assert(ids_of(self.delegations@) =~= ids_of(before));
                }
                return;
            }
            i = i + 1;
        }
        let ghost before = self.delegations@;
        self.delegations.push(m);
        proof {
            assert(self.stored()[before.len() as int] == m);
            assert(ids_of(self.delegations@) =~= ids_of(before).push(m.delegation_id));
            assert(!ids_of(before).contains(m.delegation_id)) by {
                if ids_of(before).contains(m.delegation_id) {
                    let j = choose|j: int| 0 <= j < ids_of(before).len() && ids_of(before)[j] == m.delegation_id;
                    assert(before[j].delegation_id == m.delegation_id);
                }
            }
        }
    }

    /// Checks that `delegator` may delegate `permissions` under
    /// `restrictions`: it holds each of them, its own delegation (if any)
    /// allows further delegation, and its chain is shorter than
    /// `restrictions` allow.
    fn validate_restrictions(
        delegator: &DelegatedClaims,
        permissions: &Vec<String>,
        restrictions: &DelegationRestrictions,
    ) -> (r: Result<(), DelegationError>)
        ensures
            first_lacking(*delegator, permissions@) is Some ==> refused_with(
                r,
                Refusal::Lacking(
                    "Delegator does not have permission: "@ + permissions@[first_lacking(
                        *delegator,
                        permissions@,
                    )->0]@,
                ),
            ),
            first_lacking(*delegator, permissions@) is None ==> match delegator.delegation {
                None => r is Ok,
                Some(d) => if !d.restrictions.allow_further_delegation {
                    refused_with(r, Refusal::NoFurther)
                } else if d.chain@.len() >= restrictions.max_delegation_depth {
                    refused_with(
                        r,
                        Refusal::TooDeep(d.chain@.len(), restrictions.max_delegation_depth as nat),
                    )
                } else {
                    r is Ok
                },
            },
    {
        let effective = delegator.effective_permissions();
        let mut i: usize = 0;
        while i < permissions.len()
            invariant
                i <= permissions@.len(),
                forall|q: int| 0 <= q < i ==> holds_effective(*delegator, #[trigger] permissions@[q]@),
                delegator.delegation is None ==> texts(effective@) == texts(delegator.base.permissions@),
                delegator.delegation matches Some(d) ==> crate::security::delegation::is_intersection(
                    texts(effective@),
                    texts(delegator.base.permissions@),
                    texts(d.delegated_permissions@),
                ),
            decreases permissions.len() - i,
        {
            let held = contains_text(&effective, permissions[i].as_str());
            proof {
                assert(held == holds_effective(*delegator, permissions@[i as int]@));
            }
            if !held {
                let message = join_text("Delegator does not have permission: ", permissions[i].as_str());
                proof {
                    let f = first_lacking(*delegator, permissions@);
                    assert(!holds_effective(*delegator, permissions@[i as int]@));
                    assert(f is Some);
                    let fk = f->0;
                    if fk != i {
                        if fk < i {
                            assert(holds_effective(*delegator, permissions@[fk]@));
                        } else {
                            assert(holds_effective(*delegator, permissions@[i as int]@));
                        }
                    }
                }
                return Err(DelegationError::InsufficientPermissions(message));
            }
            i = i + 1;
        }
        proof {
            assert(first_lacking(*delegator, permissions@) is None);
        }
        match &delegator.delegation {
            Some(d) => {
                if !d.restrictions.allow_further_delegation {
                    return Err(
                        DelegationError::InvalidScope(
                            "Further delegation not allowed by original delegation".to_owned(),
                        ),
                    );
                }
                if d.chain.len() >= restrictions.max_delegation_depth {
                    return Err(
                        DelegationError::DelegationDepthExceeded {
                            current: d.chain.len(),
                            max: restrictions.max_delegation_depth,
                        },
                    );
                }
                Ok(())
            },
            None => Ok(()),
        }
    }

    /// The delegation that `delegator` makes to `delegatee`: its own,
    /// passed on, with the earlier expiry; or a new one.
    fn create_delegation_metadata(
        delegator: &DelegatedClaims,
        delegatee: &str,
        permissions: Vec<String>,
        restrictions: DelegationRestrictions,
        expires_at: Option<i64>,
    ) -> (r: Result<DelegationMetadata, DelegationError>)
        ensures
            match delegator.delegation {
                None => (r matches Ok(m) && made_delegation(
                    m,
                    *delegator,
                    delegatee@,
                    permissions@,
                    restrictions,
                    expires_at,
                )),
                Some(d) => if d.chain@.len() >= d.restrictions.max_delegation_depth {
                    refused_with(
                        r,
                        Refusal::TooDeep(d.chain@.len(), d.restrictions.max_delegation_depth as nat),
                    )
                } else if delegates_in(d.chain@, delegatee@) {
                    refused_with(r, Refusal::Circular)
                } else if !subset_of(texts(permissions@), texts(d.delegated_permissions@)) {
                    refused_with(r, Refusal::NotHeld)
                } else {
                    (r matches Ok(m) && made_delegation(
                        m,
                        *delegator,
                        delegatee@,
                        permissions@,
                        restrictions,
                        expires_at,
                    ))
                },
            },
    {
        match &delegator.delegation {
            Some(existing) => {
                let mut extended = existing.duplicate();
                let ghost copy = extended;
                proof {
                    if delegates_in(existing.chain@, delegatee@) {
                        let i = choose|i: int|
                            0 <= i < existing.chain@.len() && #[trigger] existing.chain@[i].delegator@ == delegatee@;
                        assert(crate::security::delegation::same_link(copy.chain@[i], existing.chain@[i]));
                        assert(copy.chain@[i].delegator@ == delegatee@);
                    }
                    if delegates_in(copy.chain@, delegatee@) {
                        let i = choose|i: int|
                            0 <= i < copy.chain@.len() && #[trigger] copy.chain@[i].delegator@ == delegatee@;
                        assert(crate::security::delegation::same_link(copy.chain@[i], existing.chain@[i]));
                        assert(existing.chain@[i].delegator@ == delegatee@);
                    }
                }
                let outcome = extended.extend_chain(
                    delegator.base.sub.clone(),
                    delegatee.to_owned(),
                    permissions,
                );
                match outcome {
                    Err(e) => Err(e),
                    Ok(()) => {
                        match expires_at {
                            Some(new_expires) => {
                                match extended.expires_at {
                                    Some(existing_expires) => {
                                        extended.expires_at = Some(
                                            if new_expires <= existing_expires {
                                                new_expires
                                            } else {
                                                existing_expires
                                            },
                                        );
                                    },
                                    None => {
                                        extended.expires_at = Some(new_expires);
                                    },
                                }
                            },
                            None => {},
                        }
                        proof {
                            assert(extended.chain@.drop_last() =~= copy.chain@);
                        }
                        Ok(extended)
                    },
                }
            },
            None => {
                let mut created = DelegationMetadata::new(
                    permissions,
                    delegator.base.sub.clone(),
                    delegatee.to_owned(),
                    restrictions,
                );
                created.expires_at = expires_at;
                proof {
                    assert(created.chain@.last() == created.chain@[0]);
                }
                Ok(created)
            },
        }
    }

    /// Makes a delegation of `permissions` from `delegator` to `delegatee`
    /// under `restrictions`, expiring at `expires_at` (or earlier, when the
    /// delegator's own delegation expires earlier). A refused request
    /// changes nothing. A permitted one stores the delegation, records it
    /// for `delegatee` and in the audit trail, and gives the delegatee's
    /// claims: the delegator's vault and times, the delegated permissions,
    /// a fresh token identifier.
    pub fn create_delegation(
        &mut self,
        delegator: &DelegatedClaims,
        delegatee: &str,
        permissions: Vec<String>,
        restrictions: DelegationRestrictions,
        expires_at: Option<i64>,
    ) -> (r: Result<DelegatedClaims, DelegationError>)
        ensures
            refusal(*delegator, delegatee@, permissions@, restrictions) matches Some(f) ==> refused_with(r, f)
                && final(self).stored() == old(self).stored() && final(self).trail() == old(self).trail()
                && final(self).subjects() == old(self).subjects(),
            refusal(*delegator, delegatee@, permissions@, restrictions) is None ==> {
                &&& r matches Ok(c)
                &&& c.base.sub@ == delegatee@
                &&& c.base.vault@ == delegator.base.vault@
                &&& texts(c.base.permissions@) == texts(permissions@)
                &&& c.base.iat == delegator.base.iat
                &&& c.base.exp == delegator.base.exp
                &&& c.delegation matches Some(m)
                &&& made_delegation(m, *delegator, delegatee@, permissions@, restrictions, expires_at)
                &&& exists|i: int|
                    0 <= i < final(self).stored().len() && same_metadata(#[trigger] final(self).stored()[i], m)
                &&& forall|i: int|
                    0 <= i < old(self).stored().len() && old(self).stored()[i].delegation_id != m.delegation_id
                        ==> #[trigger] final(self).stored()[i] == old(self).stored()[i]
                &&& ids_of(old(self).stored()).no_duplicates() ==> ids_of(final(self).stored()).no_duplicates()
                &&& final(self).trail().len() == old(self).trail().len() + 1
                &&& final(self).trail().drop_last() == old(self).trail()
                &&& final(self).trail().last().event_type == DelegationEventType::DelegationCreated
                &&& final(self).trail().last().subject@ == delegator.base.sub@
                &&& final(self).trail().last().delegation_id == m.delegation_id
                &&& exists|i: int|
                    0 <= i < final(self).subjects().len() && #[trigger] final(self).subjects()[i].0@ == delegatee@
                        && final(self).subjects()[i].1@.last() == m.delegation_id
            },
    {
        match Self::validate_restrictions(delegator, &permissions, &restrictions) {
            Err(e) => {
                return Err(e);
            },
            Ok(()) => {},
        }
        let listed = join_commas(&permissions);
        let granted = copy_texts(&permissions);
        let metadata = match Self::create_delegation_metadata(
            delegator,
            delegatee,
            copy_texts(&permissions),
            restrictions,
            expires_at,
        ) {
            Err(e) => {
                return Err(e);
            },
            Ok(m) => m,
        };
        let delegation_id = metadata.delegation_id;
        self.store(metadata.duplicate());
        self.update_subject_mapping(delegatee, delegation_id);
        let mut audit: Vec<(String, String)> = Vec::new();
        audit.push(("delegatee".to_owned(), delegatee.to_owned()));
        audit.push(("permissions".to_owned(), listed));
        match expires_at {
            Some(expires) => {
                match rfc3339_of(expires) {
                    Some(text) => {
                        audit.push(("expires_at".to_owned(), text));
                    },
                    None => {},
                }
            },
            None => {},
        }
        self.record_audit_event(
            DelegationEventType::DelegationCreated,
            delegator.base.sub.clone(),
            delegation_id,
            audit,
        );
        let claims = Claims {
            sub: delegatee.to_owned(),
            vault: delegator.base.vault.clone(),
            permissions: granted,
            iat: delegator.base.iat,
            exp: delegator.base.exp,
            jti: uuid_text(random_uuid()),
        };
        Ok(DelegatedClaims::with_delegation(claims, metadata))
    }

    /// The position of the stored delegation `id`, if any.
    fn position_of(&self, id: u128) -> (r: Option<usize>)
        ensures
            match r {
                Some(i) => i < self.stored().len() && self.stored()[i as int].delegation_id == id && forall|j: int|
                    0 <= j < i ==> #[trigger] self.stored()[j].delegation_id != id,
                None => forall|j: int| 0 <= j < self.stored().len() ==> #[trigger] self.stored()[j].delegation_id != id,
            },
    {
        let mut i: usize = 0;
        while i < self.delegations.len()
            invariant
                i <= self.delegations@.len(),
                forall|j: int| 0 <= j < i ==> #[trigger] self.delegations@[j].delegation_id != id,
            decreases self.delegations.len() - i,
        {
            if self.delegations[i].delegation_id == id {
                return Some(i);
            }
            i = i + 1;
        }
        None
    }

    /// Revokes the stored delegation `delegation_id` for `reason`, and
    /// records it in the audit trail; refused when no such delegation is
    /// stored.
    pub fn revoke_delegation(&mut self, delegation_id: u128, reason: String) -> (r: Result<(), DelegationError>)
        ensures
            (forall|j: int|
                0 <= j < old(self).stored().len() ==> #[trigger] old(self).stored()[j].delegation_id
                    != delegation_id) ==> {
                &&& r matches Err(DelegationError::InvalidChain(m))
                &&& m@ == "Delegation not found: "@ + hyphenated(delegation_id)
                &&& final(self).stored() == old(self).stored()
                &&& final(self).trail() == old(self).trail()
            },
            (exists|j: int|
                0 <= j < old(self).stored().len() && #[trigger] old(self).stored()[j].delegation_id
                    == delegation_id) ==> {
                &&& r is Ok
                &&& exists|i: int|
                    0 <= i < old(self).stored().len() && old(self).stored()[i].delegation_id == delegation_id
                        && #[trigger] final(self).stored() == old(self).stored().update(
                        i,
                        DelegationMetadata {
                            revoked: true,
                            revocation_reason: Some(reason),
                            ..old(self).stored()[i]
                        },
                    )
                &&& final(self).trail().len() == old(self).trail().len() + 1
                &&& final(self).trail().drop_last() == old(self).trail()
                &&& final(self).trail().last().event_type == DelegationEventType::DelegationRevoked
                &&& final(self).trail().last().subject@ == "system"@
                &&& final(self).trail().last().delegation_id == delegation_id
            },
            final(self).subjects() == old(self).subjects(),
    {
        match self.position_of(delegation_id) {
            Some(i) => {
                let note = reason.clone();
                let mut target = self.delegations.remove(i);
                target.revoke(reason);
                self.delegations.insert(i, target);
                proof {
                    assert(self.delegations@ =~= old(self).delegations@.update(
                        i as int,
                        DelegationMetadata {
                            revoked: true,
                            revocation_reason: Some(reason),
                            ..old(self).delegations@[i as int]
                        },
                    ));
                }
                let mut details: Vec<(String, String)> = Vec::new();
                details.push(("reason".to_owned(), note));
                self.record_audit_event(
                    DelegationEventType::DelegationRevoked,
                    "system".to_owned(),
                    delegation_id,
                    details,
                );
                Ok(())
            },
            None => {
                let id_text = uuid_text(delegation_id);
                Err(DelegationError::InvalidChain(join_text("Delegation not found: ", id_text.as_str())))
            },
        }
    }

    /// Checks the delegation of `claims` against the stored one at `now`:
    /// claims without delegation pass; an unknown delegation, or a stored
    /// one that is revoked or expired, is refused; otherwise its use is
    /// recorded in the audit trail.
    pub fn validate_delegation_at(&mut self, claims: &DelegatedClaims, now: i64) -> (r: Result<
        bool,
        DelegationError,
    >)
        ensures
            claims.delegation is None ==> r == Ok::<bool, DelegationError>(true) && *final(self) == *old(self),
            claims.delegation matches Some(d) ==> {
                let stored = old(self).stored();
                if forall|j: int| 0 <= j < stored.len() ==> #[trigger] stored[j].delegation_id != d.delegation_id {
                    &&& r matches Err(DelegationError::InvalidChain(m))
                    &&& m@ == "Delegation not found in storage"@
                    &&& *final(self) == *old(self)
                } else {
                    let s = choose|i: int|
                        0 <= i < stored.len() && #[trigger] stored[i].delegation_id == d.delegation_id && forall|
                            j: int,
                        |
                            0 <= j < i ==> stored[j].delegation_id != d.delegation_id;
                    if stored[s].revoked {
                        &&& r matches Err(DelegationError::DelegationRevoked { reason })
                        &&& reason@ == match stored[s].revocation_reason {
                            Some(why) => why@,
                            None => "No reason provided"@,
                        }
                        &&& *final(self) == *old(self)
                    } else if stored[s].expires_at matches Some(e) && now > e {
                        &&& r matches Err(DelegationError::DelegationExpired { expires_at })
                        &&& expires_at == stored[s].expires_at->0
                        &&& *final(self) == *old(self)
                    } else {
                        &&& r == Ok::<bool, DelegationError>(true)
                        &&& final(self).stored() == old(self).stored()
                        &&& final(self).subjects() == old(self).subjects()
                        &&& final(self).trail().drop_last() == old(self).trail()
                        &&& final(self).trail().len() == old(self).trail().len() + 1
                        &&& final(self).trail().last().event_type == DelegationEventType::DelegationUsed
                        &&& final(self).trail().last().subject@ == claims.base.sub@
                        &&& final(self).trail().last().delegation_id == d.delegation_id
                    }
                }
            },
    {
        match &claims.delegation {
            None => Ok(true),
            Some(d) => {
                match self.position_of(d.delegation_id) {
                    None => Err(DelegationError::InvalidChain("Delegation not found in storage".to_owned())),
                    Some(i) => {
                        proof {
                            let stored = self.stored();
                            let s = choose|k: int|
                                0 <= k < stored.len() && #[trigger] stored[k].delegation_id == d.delegation_id
                                    && forall|j: int| 0 <= j < k ==> stored[j].delegation_id != d.delegation_id;
                            if s != i {
                                if s < i {
                                    assert(stored[s].delegation_id != d.delegation_id);
                                } else {
                                    assert(stored[i as int].delegation_id != d.delegation_id);
                                }
                            }
                        }
                        let stored = &self.delegations[i];
                        if !stored.is_valid_at(now) {
                            if stored.revoked {
                                let reason = match &stored.revocation_reason {
                                    Some(why) => why.clone(),
                                    None => "No reason provided".to_owned(),
                                };
                                return Err(DelegationError::DelegationRevoked { reason });
                            }
                            match stored.expires_at {
                                Some(e) => {
                                    if now > e {
                                        return Err(DelegationError::DelegationExpired { expires_at: e });
                                    }
                                },
                                None => {},
                            }
                        }
                        self.record_audit_event(
                            DelegationEventType::DelegationUsed,
                            claims.base.sub.clone(),
                            d.delegation_id,
                            Vec::new(),
                        );
                        Ok(true)
                    },
                }
            },
        }
    }

    /// Checks the delegation of `claims` against the stored one now.
    pub fn validate_delegation(&mut self, claims: &DelegatedClaims) -> (r: Result<bool, DelegationError>)
        ensures
            claims.delegation is None ==> r == Ok::<bool, DelegationError>(true),
            claims.delegation matches Some(d) && (forall|j: int|
                0 <= j < old(self).stored().len() ==> #[trigger] old(self).stored()[j].delegation_id
                    != d.delegation_id) ==> r is Err,
    {
        self.validate_delegation_at(claims, now_millis())
    }

    /// The chain of the stored delegation `delegation_id`.
    pub fn get_delegation_chain(&self, delegation_id: u128) -> (r: Result<Vec<DelegationEntry>, DelegationError>)
        ensures
            match self.position_of_spec(delegation_id) {
                Some(i) => r matches Ok(c) && same_chain(c@, self.stored()[i].chain@),
                None => r matches Err(DelegationError::InvalidChain(m)) && m@ == "Delegation not found: "@
                    + hyphenated(delegation_id),
            },
    {
        match self.position_of(delegation_id) {
            Some(i) => Ok(copy_chain(&self.delegations[i].chain)),
            None => {
                let id_text = uuid_text(delegation_id);
                Err(DelegationError::InvalidChain(join_text("Delegation not found: ", id_text.as_str())))
            },
        }
    }

    /// The position of the first stored delegation `id`, if any.
    pub open spec fn position_of_spec(&self, id: u128) -> Option<int> {
        if exists|j: int| 0 <= j < self.stored().len() && #[trigger] self.stored()[j].delegation_id == id {
            Some(
                choose|j: int|
                    0 <= j < self.stored().len() && #[trigger] self.stored()[j].delegation_id == id && forall|k: int|
                        0 <= k < j ==> self.stored()[k].delegation_id != id,
            )
        } else {
            None
        }
    }

    /// The positions of the stored delegations named by `ids`, in the order
    /// of `ids`, leaving out the identifiers no longer stored.
    pub open spec fn listed_positions(&self, ids: Seq<u128>) -> Seq<int>
        decreases ids.len(),
    {
        if ids.len() == 0 {
            Seq::empty()
        } else {
            let prev = self.listed_positions(ids.drop_last());
            match self.position_of_spec(ids.last()) {
                Some(p) => prev.push(p),
                None => prev,
            }
        }
    }

    /// The delegations made to `subject` that are still stored, in the
    /// order they were made.
    pub fn list_delegations(&self, subject: &str) -> (r: Result<Vec<DelegationMetadata>, DelegationError>)
        ensures
            r is Ok,
            ({
                let pos = self.listed_positions(subject_ids(self.subjects(), subject@));
                &&& r->Ok_0@.len() == pos.len()
                &&& forall|i: int|
                    0 <= i < pos.len() ==> 0 <= pos[i] < self.stored().len() && same_metadata(
                        #[trigger] r->Ok_0@[i],
                        self.stored()[pos[i]],
                    )
            }),
            forall|i: int| 0 <= i < r->Ok_0@.len() ==> is_stored_copy(#[trigger] r->Ok_0@[i], self.stored()),
    {
        let ghost subs = self.subjects();
        proof {
            assert(subs.skip(0) =~= subs);
        }
        let mut out: Vec<DelegationMetadata> = Vec::new();
        let mut i: usize = 0;
        while i < self.subject_delegations.len()
            invariant
                i <= self.subject_delegations@.len(),
                subs == self.subjects(),
                subs == self.subject_delegations@,
                subject_ids(subs, subject@) == subject_ids(subs.skip(i as int), subject@),
                out@.len() == 0,
            decreases self.subject_delegations.len() - i,
        {
            proof {
                assert(subs.skip(i as int)[0] == subs[i as int]);
                assert(subs.skip(i as int).skip(1) =~= subs.skip(i + 1));
            }
            if same_text(self.subject_delegations[i].0.as_str(), subject) {
                let ids = &self.subject_delegations[i].1;
                let ghost all = ids@;
                proof {
                    assert(subject_ids(subs, subject@) == all);
                    assert(all.take(0) =~= Seq::<u128>::empty());
                }
                let mut k: usize = 0;
                while k < ids.len()
                    invariant
                        k <= ids@.len(),
                        all == ids@,
                        subs == self.subjects(),
                        subject_ids(subs, subject@) == all,
                        out@.len() == self.listed_positions(all.take(k as int)).len(),
                        forall|q: int|
                            0 <= q < out@.len() ==> 0 <= #[trigger] self.listed_positions(all.take(k as int))[q]
                                < self.stored().len() && same_metadata(
                                out@[q],
                                self.stored()[self.listed_positions(all.take(k as int))[q]],
                            ),
                        forall|q: int| 0 <= q < out@.len() ==> is_stored_copy(#[trigger] out@[q], self.stored()),
                    decreases ids.len() - k,
                {
                    proof {
                        assert(all.take(k + 1).drop_last() =~= all.take(k as int));
                        assert(all.take(k + 1).last() == all[k as int]);
                    }
                    match self.position_of(ids[k]) {
                        Some(p) => {
                            proof {
                                assert(self.position_of_spec(ids[k as int]) == Some(p as int));
                                assert(self.listed_positions(all.take(k + 1)) == self.listed_positions(
                                    all.take(k as int),
                                ).push(p as int));
                            }
                            let ghost prev_out = out@;
                            let copy = self.delegations[p].duplicate();
                            out.push(copy);
                            proof {
                                let pos = self.listed_positions(all.take(k + 1));
                                let prev = self.listed_positions(all.take(k as int));
                                assert forall|q: int| 0 <= q < pos.len() implies 0 <= pos[q] < self.stored().len()
                                    && same_metadata(#[trigger] out@[q], self.stored()[pos[q]]) by {
                                    if q < prev.len() {
                                        assert(out@[q] == prev_out[q]);
                                        assert(pos[q] == prev[q]);
                                    }
                                }
                                assert(same_metadata(out@[out@.len() - 1], self.stored()[p as int]));
                                assert(is_stored_copy(out@[out@.len() - 1], self.stored()));
                            }
                        },
                        None => {
                            proof {
                                assert(self.position_of_spec(ids[k as int]) is None);
                                assert(self.listed_positions(all.take(k + 1)) == self.listed_positions(
                                    all.take(k as int),
                                ));
                            }
                        },
                    }
                    k = k + 1;
                }
                proof {
                    assert(all.take(ids.len() as int) =~= all);
                }
                return Ok(out);
            }
            i = i + 1;
        }
        proof {
            assert(subs.skip(i as int) =~= Seq::<(String, Vec<u128>)>::empty());
        }
        Ok(out)
    }

    /// Counts of the delegations at `now`.
    pub fn get_stats_at(&self, now: i64) -> (r: DelegationStats)
        ensures
            r.total_delegations == self.stored().len(),
            r.active_delegations == self.stored().filter(|m: DelegationMetadata| active_at(m, now)).len(),
            r.revoked_delegations == self.stored().filter(|m: DelegationMetadata| m.revoked).len(),
            r.expired_delegations == self.stored().filter(|m: DelegationMetadata| expired_at(m, now)).len(),
            r.total_audit_events == self.trail().len(),
            r.subjects_with_delegations == self.subjects().len(),
    {
        let ghost act = |m: DelegationMetadata| active_at(m, now);
        let ghost rev = |m: DelegationMetadata| m.revoked;
        let ghost exp = |m: DelegationMetadata| expired_at(m, now);
        let mut active: usize = 0;
        let mut revoked: usize = 0;
        let mut expired: usize = 0;
        let mut i: usize = 0;
        while i < self.delegations.len()
            invariant
                i <= self.delegations@.len(),
                act == (|m: DelegationMetadata| active_at(m, now)),
                rev == (|m: DelegationMetadata| m.revoked),
                exp == (|m: DelegationMetadata| expired_at(m, now)),
                active == self.delegations@.take(i as int).filter(act).len(),
                revoked == self.delegations@.take(i as int).filter(rev).len(),
                expired == self.delegations@.take(i as int).filter(exp).len(),
                active <= i,
                revoked <= i,
                expired <= i,
            decreases self.delegations.len() - i,
        {
            let m = &self.delegations[i];
            proof {
                let t = self.delegations@.take(i as int);
                assert(self.delegations@.take(i + 1) =~= t.push(*m));
                t.lemma_filter_push(*m, act);
                t.lemma_filter_push(*m, rev);
                t.lemma_filter_push(*m, exp);
            }
            if m.is_valid_at(now) {
                active = active + 1;
            }
            if m.revoked {
                revoked = revoked + 1;
            }
            let lapsed = match m.expires_at {
                Some(e) => now > e && !m.revoked,
                None => false,
            };
            if lapsed {
                expired = expired + 1;
            }
            i = i + 1;
        }
        proof {
            assert(self.delegations@.take(self.delegations@.len() as int) =~= self.delegations@);
        }
        DelegationStats {
            total_delegations: self.delegations.len(),
            active_delegations: active,
            revoked_delegations: revoked,
            expired_delegations: expired,
            total_audit_events: self.audit_trail.len(),
            subjects_with_delegations: self.subject_delegations.len(),
        }
    }

    /// Counts of the delegations now.
    pub fn get_stats(&self) -> (r: DelegationStats)
        ensures
            r.total_delegations == self.stored().len(),
            r.revoked_delegations == self.stored().filter(|m: DelegationMetadata| m.revoked).len(),
            r.total_audit_events == self.trail().len(),
            r.subjects_with_delegations == self.subjects().len(),
    {
        self.get_stats_at(now_millis())
    }

    /// A copy of the audit trail.
    pub fn get_audit_trail(&self) -> (r: Vec<DelegationAuditEvent>)
        ensures
            r@.len() == self.trail().len(),
            forall|i: int| 0 <= i < r@.len() ==> same_event(#[trigger] r@[i], self.trail()[i]),
    {
        let mut out: Vec<DelegationAuditEvent> = Vec::new();
        let mut i: usize = 0;
        while i < self.audit_trail.len()
            invariant
                i <= self.audit_trail@.len(),
                out@.len() == i,
                forall|j: int| 0 <= j < i ==> same_event(#[trigger] out@[j], self.audit_trail@[j]),
            decreases self.audit_trail.len() - i,
        {
            let e = &self.audit_trail[i];
            out.push(
                DelegationAuditEvent {
                    event_id: e.event_id,
                    event_type: e.event_type,
                    timestamp: e.timestamp,
                    subject: e.subject.clone(),
                    delegation_id: e.delegation_id,
                    metadata: copy_pairs(&e.metadata),
                },
            );
            i = i + 1;
        }
        out
    }

    /// Drops the delegations that expired before `now` and were not
    /// revoked; gives how many were dropped.
    pub fn cleanup_expired_at(&mut self, now: i64) -> (r: Result<usize, String>)
        ensures
            final(self).stored() == old(self).stored().filter(|m: DelegationMetadata| !expired_at(m, now)),
            r == Ok::<usize, String>((old(self).stored().len() - final(self).stored().len()) as usize),
            final(self).trail() == old(self).trail(),
            final(self).subjects() == old(self).subjects(),
    {
        let ghost keep = |m: DelegationMetadata| !expired_at(m, now);
        let mut rest: Vec<DelegationMetadata> = Vec::new();
        std::mem::swap(&mut rest, &mut self.delegations);
        let ghost orig = rest@;
        let initial = rest.len();
        let mut kept: Vec<DelegationMetadata> = Vec::new();
        let ghost mut i: int = 0;
        while rest.len() > 0
            invariant
                0 <= i <= orig.len(),
                rest@ == orig.skip(i),
                keep == (|m: DelegationMetadata| !expired_at(m, now)),
                kept@ == orig.take(i).filter(keep),
                kept@.len() <= i,
                initial == orig.len(),
                self.audit_trail@ == old(self).audit_trail@,
                self.subject_delegations@ == old(self).subject_delegations@,
                orig == old(self).delegations@,
            decreases rest.len(),
        {
            proof {
                assert(orig.skip(i)[0] == orig[i]);
            }
            let m = rest.remove(0);
            proof {
                assert(orig.take(i + 1) =~= orig.take(i).push(orig[i]));
                orig.take(i).lemma_filter_push(orig[i], keep);
                assert(rest@ =~= orig.skip(i + 1));
            }
            let lapsed = match m.expires_at {
                Some(e) => now > e && !m.revoked,
                None => false,
            };
            if !lapsed {
                kept.push(m);
            }
            proof {
                i = i + 1;
            }
        }
        proof {
            assert(orig.take(i) =~= orig);
        }
        let removed = initial - kept.len();
        self.delegations = kept;
        Ok(removed)
    }

    /// Drops the delegations that expired and were not revoked.
    pub fn cleanup_expired(&mut self) -> (r: Result<usize, String>)
        ensures
            exists|t: i64| final(self).stored() == #[trigger] unexpired_at(old(self).stored(), t),
            final(self).stored().len() <= old(self).stored().len(),
            r == Ok::<usize, String>((old(self).stored().len() - final(self).stored().len()) as usize),
            final(self).trail() == old(self).trail(),
            final(self).subjects() == old(self).subjects(),
    {
        let now = now_millis();
        let r = self.cleanup_expired_at(now);
        proof {
            old(self).stored().lemma_filter_len(|m: DelegationMetadata| !expired_at(m, now));
            assert(self.stored() == unexpired_at(old(self).stored(), now));
        }
        r
    }
}

impl Default for SimpleDelegationManager {
    fn default() -> (m: Self)
        ensures
            m.stored().len() == 0,
            m.trail().len() == 0,
            m.subjects().len() == 0,
    {
        Self::new()
    }
}

/// The identifiers recorded for `subject`: those of the first entry made
/// for it, or none.
pub open spec fn subject_ids(subjects: Seq<(String, Vec<u128>)>, subject: Seq<char>) -> Seq<u128>
    decreases subjects.len(),
{
    if subjects.len() == 0 {
        Seq::empty()
    } else if subjects[0].0@ == subject {
        subjects[0].1@
    } else {
        subject_ids(subjects.skip(1), subject)
    }
}

/// The delegations of `s` that had not expired at `now`.
pub open spec fn unexpired_at(s: Seq<DelegationMetadata>, now: i64) -> Seq<DelegationMetadata> {
    s.filter(|m: DelegationMetadata| !expired_at(m, now))
}

/// Whether `m` holds the values of one of `stored`.
pub open spec fn is_stored_copy(m: DelegationMetadata, stored: Seq<DelegationMetadata>) -> bool {
    exists|j: int| 0 <= j < stored.len() && same_metadata(m, #[trigger] stored[j])
}

/// Whether a delegation is valid at `now`.
pub open spec fn active_at(m: DelegationMetadata, now: i64) -> bool {
    !m.revoked && match m.expires_at {
        Some(e) => now <= e,
        None => true,
    }
}

/// Whether a delegation expired before `now` without being revoked.
pub open spec fn expired_at(m: DelegationMetadata, now: i64) -> bool {
    match m.expires_at {
        Some(e) => now > e && !m.revoked,
        None => false,
    }
}

/// Whether two audit events hold the same values.
pub open spec fn same_event(a: DelegationAuditEvent, b: DelegationAuditEvent) -> bool {
    &&& a.event_id == b.event_id
    &&& a.event_type == b.event_type
    &&& a.timestamp == b.timestamp
    &&& a.subject@ == b.subject@
    &&& a.delegation_id == b.delegation_id
    &&& same_pairs(a.metadata@, b.metadata@)
}

} // verus!
