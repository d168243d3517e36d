//! Validation of delegated capabilities: token expiry, the delegation's
//! own state, the integrity of its chain, that delegated permissions are a
//! subset of the token's (each widened by the permission hierarchy), time
//! restrictions and depth. Times are milliseconds since the Unix epoch;
//! times of day are milliseconds since midnight UTC.

use vstd::prelude::*;
use crate::security::capability::texts;
use crate::security::delegation::{
    DelegatedClaims, DelegationError, DelegationMetadata, DelegationEntry, TimeWindow,
    PermissionHierarchy, contains_text, subset_of, all_held,
};
use crate::support::{decimal, decimal_text, join_text, now_millis};
use crate::runtime::text::same_text;

verus! {

/// Milliseconds in a day.
pub const DAY_MS: i64 = 86_400_000;

/// What chrono's `NaiveTime::parse_from_str(s, "%H:%M")` makes of `s`: the
/// hour and minute of the time, or the text of its parse error.
pub uninterp spec fn parsed_clock(s: Seq<char>) -> Result<(u32, u32), Seq<char>>;

/// Parses `s` through `chrono::NaiveTime::parse_from_str(s, "%H:%M")`
/// and gives the parsed time's `hour()` and `minute()`, or the parse
/// error's `Display` text. chrono documents the hour as 0 to 23 and the
/// minute as 0 to 59.
#[verifier::external_body]
fn parse_clock(s: &str) -> (r: Result<(u32, u32), String>)
    ensures
        match r {
            Ok(hm) => parsed_clock(s@) == Ok::<(u32, u32), Seq<char>>(hm) && hm.0 < 24 && hm.1 < 60,
            Err(e) => parsed_clock(s@) == Err::<(u32, u32), Seq<char>>(e@),
        },
{
    match chrono::NaiveTime::parse_from_str(s, "%H:%M") {
        Ok(t) => Ok((chrono::Timelike::hour(&t), chrono::Timelike::minute(&t))),
        Err(e) => Err(e.to_string()),
    }
}

/// What `format!("{:?}", v)` writes for a list of texts.
pub uninterp spec fn debug_texts(v: Seq<Seq<char>>) -> Seq<char>;

/// Formats a list of texts through `format!("{:?}", v)`.
#[verifier::external_body]
fn debug_list(v: &Vec<String>) -> (r: String)
    ensures
        r@ == debug_texts(texts(v@)),
{
    format!("{:?}", v)
}

/// Whether a delegation is checked: which checks a successful validation
/// records, in order.
pub open spec fn check_names(delegated: bool) -> Seq<Seq<char>> {
    if delegated {
        seq![
            "token_expiry"@,
            "delegation_metadata"@,
            "delegation_chain"@,
            "permission_subset"@,
            "time_restrictions"@,
            "depth_limits"@,
        ]
    } else {
        seq!["token_expiry"@]
    }
}

/// The outcome of a validation.
pub enum Verdict {
    /// Valid.
    Valid,
    /// Expired at the given time.
    Expired(i64),
    /// Revoked for the given reason.
    Revoked(Seq<char>),
    /// A malformed chain, with its message.
    Chain(Seq<char>),
    /// Out of scope, with its message.
    Scope(Seq<char>),
    /// A circular chain.
    Circular,
    /// Delegated permissions beyond the token's, with its message.
    Insufficient(Seq<char>),
    /// A chain longer than allowed: its length and the limit.
    TooDeep(nat, nat),
}

/// The texts of a list of checks.
pub open spec fn check_texts(v: Seq<(String, bool)>) -> Seq<(Seq<char>, bool)> {
    v.map_values(|c: (String, bool)| (c.0@, c.1))
}

/// Whether `r` reports verdict `v`.
pub open spec fn reports(r: Result<ValidationResult, DelegationError>, v: Verdict, delegated: bool) -> bool {
    match v {
        Verdict::Valid => r matches Ok(res) && res.errors@.len() == 0 && check_texts(res.checks@)
            == check_names(delegated).map_values(|n: Seq<char>| (n, true)),
        Verdict::Expired(t) => r matches Err(DelegationError::DelegationExpired { expires_at }) && expires_at
            == t,
        Verdict::Revoked(m) => r matches Err(DelegationError::DelegationRevoked { reason }) && reason@ == m,
        Verdict::Chain(m) => r matches Err(DelegationError::InvalidChain(s)) && s@ == m,
        Verdict::Scope(m) => r matches Err(DelegationError::InvalidScope(s)) && s@ == m,
        Verdict::Circular => r matches Err(DelegationError::CircularDelegation),
        Verdict::Insufficient(m) => r matches Err(DelegationError::InsufficientPermissions(s)) && s@ == m,
        Verdict::TooDeep(c, m) => r matches Err(DelegationError::DelegationDepthExceeded { current, max })
            && current == c && max == m,
    }
}

/// The time of day of `now`.
pub open spec fn time_of_day(now: i64) -> int {
    (now as int) % (DAY_MS as int)
}

/// The day of the week of `now`, 1 for Monday to 7 for Sunday; the epoch
/// fell on a Thursday.
pub open spec fn weekday(now: i64) -> int {
    ((now as int) / (DAY_MS as int) + 3) % 7 + 1
}

/// Milliseconds since midnight of an hour and minute.
pub open spec fn clock_ms(hm: (u32, u32)) -> int {
    (hm.0 * 60 + hm.1) * 60_000
}

/// Whether time of day `t` is within a window, or the message of the
/// window's malformed bound.
pub open spec fn window_outcome(w: TimeWindow, t: int) -> Result<bool, Seq<char>> {
    match parsed_clock(w.start_time@) {
        Err(e) => Err("Invalid start time format: "@ + e),
        Ok(s) => match parsed_clock(w.end_time@) {
            Err(e) => Err("Invalid end time format: "@ + e),
            Ok(e) => if clock_ms(s) <= clock_ms(e) {
                Ok(clock_ms(s) <= t && t <= clock_ms(e))
            } else {
                Ok(clock_ms(s) <= t || t <= clock_ms(e))
            },
        },
    }
}

/// Whether time of day `t` is within one of the windows, looked at in
/// order; a malformed window met first gives its message.
pub open spec fn windows_outcome(ws: Seq<TimeWindow>, t: int) -> Result<bool, Seq<char>>
    decreases ws.len(),
{
    if ws.len() == 0 {
        Ok(false)
    } else {
        match window_outcome(ws[0], t) {
            Err(m) => Err(m),
            Ok(true) => Ok(true),
            Ok(false) => windows_outcome(ws.drop_first(), t),
        }
    }
}

/// Any window of the list admits the time: when the window at position
/// `j` is well formed and contains `t`, and no window before it is
/// malformed, the list admits `t`, whatever its position. Conversely the
/// list admits `t` only when one of its windows contains it, and refuses
/// it without error only when every window is well formed and none does.
pub proof fn law_any_window_admits(ws: Seq<TimeWindow>, t: int, j: int)
    ensures
        0 <= j < ws.len() && window_outcome(ws[j], t) == Ok::<bool, Seq<char>>(true) && (forall|k: int|
            0 <= k < j ==> #[trigger] window_outcome(ws[k], t) is Ok) ==> windows_outcome(ws, t) == Ok::<
            bool,
            Seq<char>,
        >(true),
        windows_outcome(ws, t) == Ok::<bool, Seq<char>>(true) ==> exists|k: int|
            0 <= k < ws.len() && #[trigger] window_outcome(ws[k], t) == Ok::<bool, Seq<char>>(true),
        windows_outcome(ws, t) == Ok::<bool, Seq<char>>(false) ==> forall|k: int|
            0 <= k < ws.len() ==> #[trigger] window_outcome(ws[k], t) == Ok::<bool, Seq<char>>(false),
    decreases ws.len(),
{
    if ws.len() > 0 {
        let rest = ws.drop_first();
        assert forall|k: int| 0 <= k < rest.len() implies rest[k] == ws[k + 1] by {}
        law_any_window_admits(rest, t, j - 1);
        if 0 <= j < ws.len() && window_outcome(ws[j], t) == Ok::<bool, Seq<char>>(true) && (forall|k: int|
            0 <= k < j ==> #[trigger] window_outcome(ws[k], t) is Ok) {
            if j > 0 {
                assert(window_outcome(ws[0], t) is Ok);
                assert(rest[j - 1] == ws[j]);
                assert forall|k: int| 0 <= k < j - 1 implies #[trigger] window_outcome(rest[k], t) is Ok by {
                    assert(rest[k] == ws[k + 1]);
                    assert(window_outcome(ws[k + 1], t) is Ok);
                }
            }
        }
        if windows_outcome(ws, t) == Ok::<bool, Seq<char>>(true) && window_outcome(ws[0], t) != Ok::<
            bool,
            Seq<char>,
        >(true) {
            let k = choose|k: int|
                0 <= k < rest.len() && #[trigger] window_outcome(rest[k], t) == Ok::<bool, Seq<char>>(true);
            assert(rest[k] == ws[k + 1]);
        }
        if windows_outcome(ws, t) == Ok::<bool, Seq<char>>(false) {
            assert forall|k: int| 0 <= k < ws.len() implies #[trigger] window_outcome(ws[k], t) == Ok::<
                bool,
                Seq<char>,
            >(false) by {
                if k > 0 {
                    assert(rest[k - 1] == ws[k]);
                }
            }
        }
    }
}

/// The text of a list of numbers, as `[1, 2, 3]`.
pub open spec fn numbers_text(v: Seq<u32>) -> Seq<char> {
    "["@ + numbers_joined(v) + "]"@
}

/// The numbers of `v` in decimal, separated by `, `.
pub open spec fn numbers_joined(v: Seq<u32>) -> Seq<char>
    decreases v.len(),
{
    if v.len() == 0 {
        Seq::empty()
    } else if v.len() == 1 {
        decimal(v[0] as nat)
    } else {
        numbers_joined(v.drop_last()) + ", "@ + decimal(v.last() as nat)
    }
}

/// Whether some link of `chain` delegates to an earlier delegator.
pub open spec fn has_circle(chain: Seq<DelegationEntry>) -> bool {
    exists|i: int, j: int| 0 <= i < j < chain.len() && #[trigger] chain[i].delegator@ == #[trigger] chain[j].delegatee@
}

/// Whether link `k` does not follow from link `k - 1`.
pub open spec fn breaks_at(chain: Seq<DelegationEntry>, k: int) -> bool {
    chain[k - 1].delegatee@ != chain[k].delegator@
}

/// The message of a break of the chain at link `k`.
pub open spec fn break_message(chain: Seq<DelegationEntry>, k: int) -> Seq<char> {
    "Delegation chain break: "@ + chain[k - 1].delegator@ + " -> "@ + chain[k - 1].delegatee@ + " != "@
        + chain[k].delegator@ + " -> "@ + chain[k].delegatee@
}

/// The first link, from the second on, that does not follow from the one
/// before it, if any.
pub open spec fn first_break(chain: Seq<DelegationEntry>) -> Option<int> {
    if exists|k: int| 1 <= k < chain.len() && #[trigger] breaks_at(chain, k) {
        Some(
            choose|k: int|
                1 <= k < chain.len() && #[trigger] breaks_at(chain, k) && forall|q: int|
                    1 <= q < k ==> !breaks_at(chain, q),
        )
    } else {
        None
    }
}

/// The texts of `a` that `b` lacks, each once, in the order of `a`.
pub open spec fn missing_from(a: Seq<Seq<char>>, b: Seq<Seq<char>>) -> Seq<Seq<char>> {
    a.filter(|s: Seq<char>| !b.contains(s))
}

/// The expiry of a token that expired at `exp` seconds, in milliseconds,
/// where that is a representable date, else `now`.
pub open spec fn token_expiry_ms(exp: u64, now: i64) -> i64 {
    if exp <= MAX_DATE_SECONDS {
        (exp * 1000) as i64
    } else {
        now
    }
}

/// The last second chrono represents.
pub const MAX_DATE_SECONDS: u64 = 8_210_266_876_799;

/// Whether a delegation is neither revoked nor expired at `now`, and has
/// a chain and permissions.
pub open spec fn fresh_delegation(d: DelegationMetadata, now: i64) -> bool {
    &&& !d.revoked
    &&& !(d.expires_at matches Some(e) && now > e)
    &&& d.chain@.len() > 0
    &&& d.delegated_permissions@.len() > 0
}

/// The verdict on a delegation, after the token checks, given the token's
/// and the delegation's permissions each widened by the hierarchy.
pub open spec fn delegation_verdict(
    d: DelegationMetadata,
    now: i64,
    base_expanded: Seq<Seq<char>>,
    delegated_expanded: Seq<Seq<char>>,
) -> Verdict {
    if d.revoked {
        Verdict::Revoked(
            match d.revocation_reason {
                Some(r) => r@,
                None => "Delegation revoked"@,
            },
        )
    } else if d.expires_at matches Some(e) && now > e {
        Verdict::Expired(d.expires_at->0)
    } else if d.chain@.len() == 0 {
        Verdict::Chain("Delegation chain is empty"@)
    } else if d.delegated_permissions@.len() == 0 {
        Verdict::Scope("Delegated permissions are empty"@)
    } else if has_circle(d.chain@) {
        Verdict::Circular
    } else if first_break(d.chain@) is Some {
        Verdict::Chain(break_message(d.chain@, first_break(d.chain@)->0))
    } else if !subset_of(delegated_expanded, base_expanded) {
        Verdict::Insufficient(
            "Delegated permissions not subset of base permissions: "@ + debug_texts(
                missing_from(delegated_expanded, base_expanded),
            ),
        )
    } else if d.restrictions.time_restrictions matches Some(tr) && tr.allowed_days@.len() > 0
        && !tr.allowed_days@.contains(weekday(now) as u32) {
        Verdict::Scope(
            "Current day "@ + decimal(weekday(now) as nat) + " not in allowed days: "@ + numbers_text(
                d.restrictions.time_restrictions->0.allowed_days@,
            ),
        )
    } else if d.restrictions.time_restrictions matches Some(tr) && tr.allowed_time_windows@.len() > 0
        && windows_outcome(tr.allowed_time_windows@, time_of_day(now)) is Err {
        Verdict::Scope(
            windows_outcome(
                d.restrictions.time_restrictions->0.allowed_time_windows@,
                time_of_day(now),
            )->Err_0,
        )
    } else if d.restrictions.time_restrictions matches Some(tr) && tr.allowed_time_windows@.len() > 0
        && windows_outcome(tr.allowed_time_windows@, time_of_day(now)) == Ok::<bool, Seq<char>>(false) {
        Verdict::Scope("Current time not within allowed time windows"@)
    } else if d.chain@.len() > d.restrictions.max_delegation_depth {
        Verdict::TooDeep(d.chain@.len(), d.restrictions.max_delegation_depth as nat)
    } else {
        Verdict::Valid
    }
}

/// The verdict on claims at `now`, given the widened permissions.
pub open spec fn claims_verdict(
    c: DelegatedClaims,
    now: i64,
    base_expanded: Seq<Seq<char>>,
    delegated_expanded: Seq<Seq<char>>,
) -> Verdict {
    if (c.base.exp as int) < (now as int) / 1000 {
        Verdict::Expired(token_expiry_ms(c.base.exp, now))
    } else {
        match c.delegation {
            Some(d) => delegation_verdict(d, now, base_expanded, delegated_expanded),
            None => Verdict::Valid,
        }
    }
}

/// Settings of delegation validation.
#[derive(Debug, Clone)]
pub struct ValidationConfig {
    /// Whether delegated permissions must be a subset of the token's.
    pub strict_permission_validation: bool,
    /// Whether time restrictions are checked.
    pub enforce_time_restrictions: bool,
    /// Longest chain allowed.
    pub max_delegation_depth: usize,
    /// Whether circular chains are looked for.
    pub detect_circular_delegation: bool,
}

impl Default for ValidationConfig {
    fn default() -> (c: Self)
        ensures
            c.strict_permission_validation,
            c.enforce_time_restrictions,
            c.max_delegation_depth == 10,
            c.detect_circular_delegation,
    {
        ValidationConfig {
            strict_permission_validation: true,
            enforce_time_restrictions: true,
            max_delegation_depth: 10,
            detect_circular_delegation: true,
        }
    }
}

/// What a validation found: errors, warnings, the checks made (a check
/// recorded again replaces its earlier result) and further details.
#[derive(Debug)]
pub struct ValidationResult {
    /// Errors found.
    pub errors: Vec<String>,
    /// Warnings found.
    pub warnings: Vec<String>,
    /// Checks made, by name, with whether each passed.
    pub checks: Vec<(String, bool)>,
    /// Further details, as key and value.
    pub metadata: Vec<(String, String)>,
}

/// Whether the names of a list of pairs are distinct.
pub open spec fn distinct_names<V>(v: Seq<(String, V)>) -> bool {
    forall|i: int, j: int| 0 <= i < j < v.len() ==> #[trigger] v[i].0@ != #[trigger] v[j].0@
}

/// The position of name `n` in a list of pairs, if any.
pub open spec fn name_position<V>(v: Seq<(String, V)>, n: Seq<char>) -> Option<int> {
    if exists|i: int| 0 <= i < v.len() && #[trigger] v[i].0@ == n {
        Some(choose|i: int| 0 <= i < v.len() && #[trigger] v[i].0@ == n)
    } else {
        None
    }
}

/// Records `value` under `name`: in place of the first pair of that name,
/// or at the end.
fn put_named<V>(v: &mut Vec<(String, V)>, name: &str, value: V) -> (idx: usize)
    ensures
        idx < final(v)@.len(),
        final(v)@[idx as int].0@ == name@,
        final(v)@[idx as int].1 == value,
        final(v)@.len() == if exists|i: int| 0 <= i < old(v)@.len() && #[trigger] old(v)@[i].0@ == name@ {
            old(v)@.len()
        } else {
            old(v)@.len() + 1
        },
        forall|i: int|
            0 <= i < old(v)@.len() && old(v)@[i].0@ != name@ ==> #[trigger] final(v)@[i] == old(v)@[i],
        distinct_names(old(v)@) ==> distinct_names(final(v)@),
        distinct_names(old(v)@) ==> forall|i: int|
            0 <= i < final(v)@.len() && #[trigger] final(v)@[i].0@ == name@ ==> final(v)@[i].1 == value,
{
    let mut i: usize = 0;
    while i < v.len()
        invariant
            i <= v@.len(),
            v@ == old(v)@,
            forall|j: int| 0 <= j < i ==> #[trigger] v@[j].0@ != name@,
        decreases v.len() - i,
    {
        if same_text(v[i].0.as_str(), name) {
            let key = name.to_owned();
            v.set(i, (key, value));
            return i;
        }
        i = i + 1;
    }
    v.push((name.to_owned(), value));
    v.len() - 1
}

impl ValidationResult {
    /// An empty result.
    pub fn new() -> (r: ValidationResult)
        ensures
            r.errors@.len() == 0,
            r.warnings@.len() == 0,
            r.checks@.len() == 0,
            r.metadata@.len() == 0,
    {
        ValidationResult {
            errors: Vec::new(),
            warnings: Vec::new(),
            checks: Vec::new(),
            metadata: Vec::new(),
        }
    }

    /// Records an error.
    pub fn add_error(&mut self, error: String)
        ensures
            final(self).errors@ == old(self).errors@.push(error),
            final(self).warnings@ == old(self).warnings@,
            final(self).checks@ == old(self).checks@,
            final(self).metadata@ == old(self).metadata@,
    {
        self.errors.push(error);
    }

    /// Records a warning.
    pub fn add_warning(&mut self, warning: String)
        ensures
            final(self).warnings@ == old(self).warnings@.push(warning),
            final(self).errors@ == old(self).errors@,
            final(self).checks@ == old(self).checks@,
            final(self).metadata@ == old(self).metadata@,
    {
        self.warnings.push(warning);
    }

    /// Records whether check `check` passed, replacing its earlier result.
    pub fn add_check(&mut self, check: &str, passed: bool)
        ensures
            final(self).checks@.len() == if exists|i: int|
                0 <= i < old(self).checks@.len() && #[trigger] old(self).checks@[i].0@ == check@ {
                old(self).checks@.len()
            } else {
                old(self).checks@.len() + 1
            },
            forall|i: int|
                0 <= i < old(self).checks@.len() && old(self).checks@[i].0@ != check@
                    ==> #[trigger] final(self).checks@[i] == old(self).checks@[i],
            exists|i: int|
                0 <= i < final(self).checks@.len() && #[trigger] final(self).checks@[i].0@ == check@
                    && final(self).checks@[i].1 == passed,
            distinct_names(old(self).checks@) ==> distinct_names(final(self).checks@),
            final(self).errors@ == old(self).errors@,
            final(self).warnings@ == old(self).warnings@,
            final(self).metadata@ == old(self).metadata@,
    {
        let idx = put_named(&mut self.checks, check, passed);
        proof {
            assert(self.checks@[idx as int].0@ == check@);
        }
    }

    /// Records `value` under `key`, replacing an earlier value.
    pub fn add_metadata(&mut self, key: &str, value: String)
        ensures
            final(self).metadata@.len() == if exists|i: int|
                0 <= i < old(self).metadata@.len() && #[trigger] old(self).metadata@[i].0@ == key@ {
                old(self).metadata@.len()
            } else {
                old(self).metadata@.len() + 1
            },
            forall|i: int|
                0 <= i < old(self).metadata@.len() && old(self).metadata@[i].0@ != key@
                    ==> #[trigger] final(self).metadata@[i] == old(self).metadata@[i],
            exists|i: int|
                0 <= i < final(self).metadata@.len() && #[trigger] final(self).metadata@[i].0@ == key@
                    && final(self).metadata@[i].1 == value,
            distinct_names(old(self).metadata@) ==> distinct_names(final(self).metadata@),
            final(self).errors@ == old(self).errors@,
            final(self).warnings@ == old(self).warnings@,
            final(self).checks@ == old(self).checks@,
    {
        let idx = put_named(&mut self.metadata, key, value);
        proof {
            assert(self.metadata@[idx as int].0@ == key@);
        }
    }

    /// Whether errors were found.
    pub fn has_errors(&self) -> (r: bool)
        ensures
            r == (self.errors@.len() > 0),
    {
        self.errors.len() > 0
    }

    /// Whether warnings were found.
    pub fn has_warnings(&self) -> (r: bool)
        ensures
            r == (self.warnings@.len() > 0),
    {
        self.warnings.len() > 0
    }

    /// Whether the validation passed: no errors.
    pub fn is_valid(&self) -> (r: bool)
        ensures
            r == (self.errors@.len() == 0),
    {
        !self.has_errors()
    }

    /// How many recorded checks passed.
    pub fn passed_checks(&self) -> (r: usize)
        ensures
            r == self.checks@.filter(|c: (String, bool)| c.1).len(),
    {
        let ghost passed = |c: (String, bool)| c.1;
        let mut n: usize = 0;
        let mut i: usize = 0;
        while i < self.checks.len()
            invariant
                i <= self.checks@.len(),
                passed == (|c: (String, bool)| c.1),
                n == self.checks@.take(i as int).filter(passed).len(),
                n <= i,
            decreases self.checks.len() - i,
        {
            proof {
                assert(self.checks@.take(i + 1) =~= self.checks@.take(i as int).push(self.checks@[i as int]));
                self.checks@.take(i as int).lemma_filter_push(self.checks@[i as int], passed);
            }
            if self.checks[i].1 {
                n = n + 1;
            }
            i = i + 1;
        }
        proof {
            assert(self.checks@.take(self.checks@.len() as int) =~= self.checks@);
        }
        n
    }
}

impl Default for ValidationResult {
    fn default() -> (r: Self)
        ensures
            r.errors@.len() == 0,
            r.warnings@.len() == 0,
            r.checks@.len() == 0,
            r.metadata@.len() == 0,
    {
        ValidationResult::new()
    }
}

/// The text `[1, 2, 3]` of a list of numbers.
fn numbers_list(v: &Vec<u32>) -> (r: String)
    ensures
        r@ == numbers_text(v@),
{
    let mut joined = String::new();
    let mut i: usize = 0;
    while i < v.len()
        invariant
            i <= v@.len(),
            joined@ == numbers_joined(v@.take(i as int)),
        decreases v.len() - i,
    {
        let digits = decimal_text(v[i] as u64);
        proof {
            assert(v@.take(i + 1).drop_last() =~= v@.take(i as int));
            assert(v@.take(i + 1).last() == v@[i as int]);
        }
        if i == 0 {
            joined = digits;
        } else {
            let with_comma = join_text(joined.as_str(), ", ");
            joined = join_text(with_comma.as_str(), digits.as_str());
        }
        i = i + 1;
    }
    proof {
        assert(v@.take(v@.len() as int) =~= v@);
    }
    let open = join_text("[", joined.as_str());
    join_text(open.as_str(), "]")
}

/// The permissions of `a`, each once, in order.
fn distinct_texts(a: &Vec<String>) -> (r: Vec<String>)
    ensures
        texts(r@).no_duplicates(),
        forall|s: Seq<char>| #[trigger] texts(r@).contains(s) <==> texts(a@).contains(s),
{
    let mut out: Vec<String> = Vec::new();
    let mut i: usize = 0;
    while i < a.len()
        invariant
            i <= a@.len(),
            texts(out@).no_duplicates(),
            forall|s: Seq<char>| #[trigger] texts(out@).contains(s) <==> texts(a@.take(i as int)).contains(s),
        decreases a.len() - i,
    {
        let p = a[i].as_str();
        let ghost before = texts(out@);
        let ghost prefix = texts(a@.take(i as int));
        proof {
            assert(texts(a@.take(i + 1)) =~= prefix.push(p@));
        }
        if !contains_text(&out, p) {
            out.push(p.to_owned());
            proof {
                assert(texts(out@) =~= before.push(p@));
                assert forall|x: int, y: int| 0 <= x < y < texts(out@).len() implies texts(out@)[x] != texts(
                    out@,
                )[y] by {
                    if y == before.len() {
                        assert(before[x] == texts(out@)[x]);
                        assert(before.contains(before[x]));
                    }
                }
            }
        }
        proof {
            assert forall|s: Seq<char>| #[trigger] texts(out@).contains(s) <==> prefix.push(p@).contains(s) by {
                if prefix.contains(s) {
                    let j = choose|j: int| 0 <= j < prefix.len() && prefix[j] == s;
                    assert(prefix.push(p@)[j] == s);
                }
                if prefix.push(p@).contains(s) {
                    let j = choose|j: int| 0 <= j < prefix.len() + 1 && prefix.push(p@)[j] == s;
                    if j < prefix.len() {
                        assert(prefix[j] == s);
                    }
                }
                if texts(out@).contains(s) && texts(out@) != before {
                    let j = choose|j: int| 0 <= j < texts(out@).len() && texts(out@)[j] == s;
                    if j < before.len() {
                        assert(before[j] == s);
                    }
                }
                if texts(out@) != before && before.contains(s) {
                    let j = choose|j: int| 0 <= j < before.len() && before[j] == s;
                    assert(texts(out@)[j] == s);
                }
                assert(prefix.push(p@)[prefix.len() as int] == p@);
                if texts(out@) != before {
                    assert(texts(out@)[before.len() as int] == p@);
                }
            }
        }
        i = i + 1;
    }
    proof {
        assert(a@.take(a@.len() as int) =~= a@);
    }
    out
}

/// The texts of `a` that `b` lacks, each once, in the order of `a`.
fn missing_texts(a: &Vec<String>, b: &Vec<String>) -> (r: Vec<String>)
    ensures
        texts(r@) == missing_from(texts(a@), texts(b@)),
{
    let ghost lacks = |s: Seq<char>| !texts(b@).contains(s);
    let mut out: Vec<String> = Vec::new();
    let mut i: usize = 0;
    while i < a.len()
        invariant
            i <= a@.len(),
            lacks == (|s: Seq<char>| !texts(b@).contains(s)),
            texts(out@) == texts(a@).take(i as int).filter(lacks),
        decreases a.len() - i,
    {
        proof {
            assert(texts(a@).take(i + 1) =~= texts(a@).take(i as int).push(a@[i as int]@));
            texts(a@).take(i as int).lemma_filter_push(a@[i as int]@, lacks);
        }
        if !contains_text(b, a[i].as_str()) {
            let ghost before = texts(out@);
            out.push(a[i].clone());
            proof {
                assert(texts(out@) =~= before.push(a@[i as int]@));
            }
        }
        i = i + 1;
    }
    proof {
        assert(texts(a@).take(a@.len() as int) =~= texts(a@));
    }
    out
}


/// Shifts times so that their day and time of day can be taken with
/// unsigned arithmetic: a whole number of weeks, in milliseconds.
const WEEKS_SHIFT: i128 = 9_676_800_000_000_000_000;

/// The day of the week and the time of day of `now`.
fn day_and_time(now: i64) -> (r: (u32, u32))
    ensures
        r.0 == weekday(now),
        r.1 == time_of_day(now),
        r.1 < DAY_MS,
{
    let x: u128 = (now as i128 + WEEKS_SHIFT) as u128;
    let days: u128 = x / 86_400_000;
    let t: u128 = x % 86_400_000;
    let wd: u128 = (days + 3) % 7 + 1;
    proof {
        let d: int = 86_400_000;
        let m: int = 112_000_000_000;
        let q = (now as int) / d;
        let rem = (now as int) % d;
        vstd::arithmetic::div_mod::lemma_fundamental_div_mod(now as int, d);
        assert(0 <= rem < d);
        assert(WEEKS_SHIFT == m * d);
        assert(x == (q + m) * d + rem) by (nonlinear_arith)
            requires
                x == now + m * d,
                now == d * q + rem,
        ;
        vstd::arithmetic::div_mod::lemma_fundamental_div_mod_converse(x as int, d, q + m, rem);
        let q3 = (q + 3) / 7;
        let r3 = (q + 3) % 7;
        vstd::arithmetic::div_mod::lemma_fundamental_div_mod(q + 3, 7);
        assert(days + 3 == (q3 + 16_000_000_000) * 7 + r3);
        vstd::arithmetic::div_mod::lemma_fundamental_div_mod_converse(
            (days + 3) as int,
            7,
            q3 + 16_000_000_000,
            r3,
        );
    }
    (wd as u32, t as u32)
}

/// Whether `v` holds `x`.
fn holds_number(v: &Vec<u32>, x: u32) -> (r: bool)
    ensures
        r == v@.contains(x),
{
    let mut i: usize = 0;
    while i < v.len()
        invariant
            i <= v@.len(),
            forall|j: int| 0 <= j < i ==> v@[j] != x,
        decreases v.len() - i,
    {
        if v[i] == x {
            assert(v@[i as int] == x);
            return true;
        }
        i = i + 1;
    }
    false
}

/// Texts that differ at a position differ.
proof fn lemma_differ(a: Seq<char>, b: Seq<char>, i: int)
    requires
        0 <= i < a.len(),
        i < b.len(),
        a[i] != b[i],
    ensures
        a != b,
{
}

/// Recording a check of a new name adds it at the end.
proof fn lemma_new_check(before: Seq<(String, bool)>, after: Seq<(String, bool)>, name: Seq<char>)
    requires
        forall|i: int| 0 <= i < before.len() ==> #[trigger] before[i].0@ != name,
        after.len() == before.len() + 1,
        forall|i: int| 0 <= i < before.len() && before[i].0@ != name ==> #[trigger] after[i] == before[i],
        exists|i: int| 0 <= i < after.len() && #[trigger] after[i].0@ == name && after[i].1,
    ensures
        check_texts(after) == check_texts(before).push((name, true)),
{
    let i = choose|i: int| 0 <= i < after.len() && #[trigger] after[i].0@ == name && after[i].1;
    if i < before.len() {
        assert(after[i] == before[i]);
    }
    assert(check_texts(after) =~= check_texts(before).push((name, true)));
}

/// Checks the token and its delegation at `now`.
pub struct DelegationValidator<H> {
    hierarchy: H,
    config: ValidationConfig,
}

impl<H: PermissionHierarchy> DelegationValidator<H> {
    /// A validator that widens permissions by `hierarchy`, with `config`.
    pub fn new(hierarchy: H, config: ValidationConfig) -> (v: Self)
        ensures
            v.hierarchy() == hierarchy,
            v.config() == config,
    {
        DelegationValidator { hierarchy, config }
    }

    /// A validator with the default settings.
    pub fn with_hierarchy(hierarchy: H) -> (v: Self)
        ensures
            v.hierarchy() == hierarchy,
            v.config().strict_permission_validation,
            v.config().enforce_time_restrictions,
            v.config().max_delegation_depth == 10,
            v.config().detect_circular_delegation,
    {
        Self::new(hierarchy, ValidationConfig::default())
    }

    /// The hierarchy, as a spec value.
    pub closed spec fn hierarchy(&self) -> H {
        self.hierarchy
    }

    /// The settings, as a spec value.
    pub closed spec fn config(&self) -> ValidationConfig {
        self.config
    }

    /// `permissions`, each once, with what the hierarchy says each
    /// implies; a permission whose implications the hierarchy fails to give
    /// is kept alone.
    fn expand_permissions(&self, permissions: &Vec<String>) -> (r: Vec<String>)
        ensures
            subset_of(texts(permissions@), texts(r@)),
    {
        let mut all: Vec<String> = Vec::new();
        let mut i: usize = 0;
        while i < permissions.len()
            invariant
                i <= permissions@.len(),
                forall|j: int| 0 <= j < i ==> texts(all@).contains(#[trigger] permissions@[j]@),
            decreases permissions.len() - i,
        {
            let ghost before = all@;
            all.push(permissions[i].clone());
            proof {
                assert forall|j: int| 0 <= j <= i implies texts(all@).contains(#[trigger] permissions@[j]@) by {
                    if j < i {
                        let k = choose|k: int| 0 <= k < texts(before).len() && texts(before)[k] == permissions@[j]@;
                        assert(texts(all@)[k] == permissions@[j]@);
                    } else {
                        assert(texts(all@)[before.len() as int] == permissions@[j]@);
                    }
                }
            }
            match self.hierarchy.get_implied_permissions(permissions[i].as_str()) {
                Ok(implied) => {
                    let mut k: usize = 0;
                    while k < implied.len()
                        invariant
                            k <= implied@.len(),
                            i < permissions@.len(),
                            forall|j: int| 0 <= j <= i ==> texts(all@).contains(#[trigger] permissions@[j]@),
                        decreases implied.len() - k,
                    {
                        let ghost before2 = all@;
                        all.push(implied[k].clone());
                        proof {
                            assert forall|j: int| 0 <= j <= i implies texts(all@).contains(
                                #[trigger] permissions@[j]@,
                            ) by {
                                let q = choose|q: int|
                                    0 <= q < texts(before2).len() && texts(before2)[q] == permissions@[j]@;
                                assert(texts(all@)[q] == permissions@[j]@);
                            }
                        }
                        k = k + 1;
                    }
                },
                Err(_) => {},
            }
            i = i + 1;
        }
        let r = distinct_texts(&all);
        proof {
            assert forall|s: Seq<char>| texts(permissions@).contains(s) implies texts(r@).contains(s) by {
                let j = choose|j: int| 0 <= j < texts(permissions@).len() && texts(permissions@)[j] == s;
                assert(texts(all@).contains(permissions@[j]@));
            }
        }
        r
    }

    /// Whether time of day `time` lies within `window`: between its start
    /// and end, or, for a window that passes midnight, after its start or
    /// before its end. Bounds are `HH:MM` texts.
    pub fn is_time_in_window(&self, time: u32, window: &TimeWindow) -> (r: Result<bool, DelegationError>)
        ensures
            match window_outcome(*window, time as int) {
                Ok(b) => r == Ok::<bool, DelegationError>(b),
                Err(m) => r matches Err(DelegationError::InvalidScope(s)) && s@ == m,
            },
    {
        let start = match parse_clock(window.start_time.as_str()) {
            Ok(hm) => hm,
            Err(e) => {
                return Err(
                    DelegationError::InvalidScope(join_text("Invalid start time format: ", e.as_str())),
                );
            },
        };
        let end = match parse_clock(window.end_time.as_str()) {
            Ok(hm) => hm,
            Err(e) => {
                return Err(
                    DelegationError::InvalidScope(join_text("Invalid end time format: ", e.as_str())),
                );
            },
        };
        let s: u32 = (start.0 * 60 + start.1) * 60_000;
        let e: u32 = (end.0 * 60 + end.1) * 60_000;
        if s <= e {
            Ok(s <= time && time <= e)
        } else {
            Ok(s <= time || time <= e)
        }
    }

    /// Whether time of day `time` lies within one of `windows`, looked at
    /// in order.
    pub fn is_within_time_windows(&self, windows: &Vec<TimeWindow>, time: u32) -> (r: Result<
        bool,
        DelegationError,
    >)
        ensures
            match windows_outcome(windows@, time as int) {
                Ok(b) => r == Ok::<bool, DelegationError>(b),
                Err(m) => r matches Err(DelegationError::InvalidScope(s)) && s@ == m,
            },
    {
        let mut i: usize = 0;
        proof {
            assert(windows@.skip(0) =~= windows@);
        }
        while i < windows.len()
            invariant
                i <= windows@.len(),
                windows_outcome(windows@, time as int) == windows_outcome(windows@.skip(i as int), time as int),
            decreases windows.len() - i,
        {
            proof {
                assert(windows@.skip(i as int)[0] == windows@[i as int]);
                assert(windows@.skip(i as int).drop_first() =~= windows@.skip(i + 1));
            }
            let inside = self.is_time_in_window(time, &windows[i]);
            match inside {
                Ok(true) => {
                    return Ok(true);
                },
                Ok(false) => {},
                Err(e) => {
                    return Err(e);
                },
            }
            i = i + 1;
        }
        proof {
            assert(windows@.skip(i as int) =~= Seq::<TimeWindow>::empty());
        }
        Ok(false)
    }

    /// Records check `name`, which was not recorded before, as passed.
    fn pass(result: &mut ValidationResult, name: &str)
        requires
            forall|i: int|
                0 <= i < check_texts(old(result).checks@).len() ==> #[trigger] check_texts(old(result).checks@)[i].0
                    != name@,
        ensures
            check_texts(final(result).checks@) == check_texts(old(result).checks@).push((name@, true)),
            final(result).errors@ == old(result).errors@,
    {
        let ghost before = result.checks@;
        proof {
            assert forall|i: int| 0 <= i < before.len() implies #[trigger] before[i].0@ != name@ by {
                assert(check_texts(before)[i].0 == before[i].0@);
            }
        }
        result.add_check(name, true);
        proof {
            lemma_new_check(before, result.checks@, name@);
        }
    }

    /// Validates the delegation `d` of `claims`, whose token has not
    /// expired, at `now`.
    fn check_delegation(&self, claims: &DelegatedClaims, d: &DelegationMetadata, now: i64, result: ValidationResult) -> (r: Result<
        ValidationResult,
        DelegationError,
    >)
        requires
            claims.delegation == Some(*d),
            !((claims.base.exp as int) < (now as int) / 1000),
            check_texts(result.checks@) == seq![("token_expiry"@, true)],
            result.errors@.len() == 0,
        ensures
            exists|be: Seq<Seq<char>>, de: Seq<Seq<char>>|
                #![trigger claims_verdict(*claims, now, be, de)]
                subset_of(texts(claims.base.permissions@), be) && subset_of(texts(d.delegated_permissions@), de)
                    && reports(r, claims_verdict(*claims, now, be, de), true),
    {
        let ghost b0 = texts(claims.base.permissions@);
        let ghost d0 = texts(d.delegated_permissions@);
        proof {
            assert(subset_of(b0, b0));
            assert(subset_of(d0, d0));
            reveal_strlit("token_expiry");
            reveal_strlit("delegation_metadata");
            reveal_strlit("delegation_chain");
            reveal_strlit("permission_subset");
            reveal_strlit("time_restrictions");
            reveal_strlit("depth_limits");
            lemma_differ("token_expiry"@, "delegation_metadata"@, 0);
            lemma_differ("token_expiry"@, "delegation_chain"@, 0);
            lemma_differ("delegation_metadata"@, "delegation_chain"@, 11);
            lemma_differ("token_expiry"@, "permission_subset"@, 0);
            lemma_differ("delegation_metadata"@, "permission_subset"@, 0);
            lemma_differ("delegation_chain"@, "permission_subset"@, 0);
            lemma_differ("token_expiry"@, "time_restrictions"@, 1);
            lemma_differ("delegation_metadata"@, "time_restrictions"@, 0);
            lemma_differ("delegation_chain"@, "time_restrictions"@, 0);
            lemma_differ("permission_subset"@, "time_restrictions"@, 0);
            lemma_differ("token_expiry"@, "depth_limits"@, 0);
            lemma_differ("delegation_metadata"@, "depth_limits"@, 2);
            lemma_differ("delegation_chain"@, "depth_limits"@, 2);
            lemma_differ("permission_subset"@, "depth_limits"@, 0);
            lemma_differ("time_restrictions"@, "depth_limits"@, 0);
        }
        let mut result = result;
        if d.revoked {
            let reason = match &d.revocation_reason {
                Some(why) => why.clone(),
                None => "Delegation revoked".to_owned(),
            };
            let r: Result<ValidationResult, DelegationError> = Err(DelegationError::DelegationRevoked { reason });
            proof {
                assert(reports(r, claims_verdict(*claims, now, b0, d0), true));
            }
            return r;
        }
        if let Some(e) = d.expires_at {
            if now > e {
                let r: Result<ValidationResult, DelegationError> = Err(DelegationError::DelegationExpired { expires_at: e });
proof {
    assert(reports(r, claims_verdict(*claims, now, b0, d0), true));
}
return r;
            }
        }
        if d.chain.len() == 0 {
            let r: Result<ValidationResult, DelegationError> = Err(DelegationError::InvalidChain("Delegation chain is empty".to_owned()));
proof {
    assert(reports(r, claims_verdict(*claims, now, b0, d0), true));
}
return r;
        }
        if d.delegated_permissions.len() == 0 {
            let r: Result<ValidationResult, DelegationError> = Err(DelegationError::InvalidScope("Delegated permissions are empty".to_owned()));
proof {
    assert(reports(r, claims_verdict(*claims, now, b0, d0), true));
}
return r;
        }
        proof {
            assert(check_texts(result.checks@)[0].0 == "token_expiry"@);
        }
        Self::pass(&mut result, "delegation_metadata");
        let mut j: usize = 0;
        while j < d.chain.len()
            invariant
                claims.delegation == Some(*d),
                !((claims.base.exp as int) < (now as int) / 1000),
                fresh_delegation(*d, now),
                check_texts(result.checks@) == seq![("token_expiry"@, true), ("delegation_metadata"@, true)],
                b0 == texts(claims.base.permissions@),
                d0 == texts(d.delegated_permissions@),
                j <= d.chain@.len(),
                forall|a: int, b: int| 0 <= a < b < j ==> d.chain@[a].delegator@ != d.chain@[b].delegatee@,
            decreases d.chain.len() - j,
        {
            let mut a: usize = 0;
            while a < j
                invariant
                    claims.delegation == Some(*d),
                    !((claims.base.exp as int) < (now as int) / 1000),
                    fresh_delegation(*d, now),
                    check_texts(result.checks@) == seq![("token_expiry"@, true), ("delegation_metadata"@, true)],
                    b0 == texts(claims.base.permissions@),
                    d0 == texts(d.delegated_permissions@),
                b0 == texts(claims.base.permissions@),
                d0 == texts(d.delegated_permissions@),
                    forall|x: int, y: int| 0 <= x < y < j ==> d.chain@[x].delegator@ != d.chain@[y].delegatee@,
                    a <= j < d.chain@.len(),
                    forall|x: int| 0 <= x < a ==> d.chain@[x].delegator@ != d.chain@[j as int].delegatee@,
                decreases j - a,
            {
                if same_text(d.chain[a].delegator.as_str(), d.chain[j].delegatee.as_str()) {
                    proof {
                        assert(d.chain@[a as int].delegator@ == d.chain@[j as int].delegatee@);
                        assert(has_circle(d.chain@));
                    }
                    let r: Result<ValidationResult, DelegationError> = Err(DelegationError::CircularDelegation);
proof {
    assert(reports(r, claims_verdict(*claims, now, b0, d0), true));
}
return r;
                }
                a = a + 1;
            }
            j = j + 1;
        }
        proof {
            assert(!has_circle(d.chain@));
        }
        let mut k: usize = 1;
        while k < d.chain.len()
            invariant
                claims.delegation == Some(*d),
                !((claims.base.exp as int) < (now as int) / 1000),
                fresh_delegation(*d, now),
                check_texts(result.checks@) == seq![("token_expiry"@, true), ("delegation_metadata"@, true)],
                b0 == texts(claims.base.permissions@),
                d0 == texts(d.delegated_permissions@),
                !has_circle(d.chain@),
                1 <= k <= d.chain@.len(),
                forall|q: int| 1 <= q < k ==> !breaks_at(d.chain@, q),
            decreases d.chain.len() - k,
        {
            let prev = &d.chain[k - 1];
            let curr = &d.chain[k];
            if !same_text(prev.delegatee.as_str(), curr.delegator.as_str()) {
                let m1 = join_text("Delegation chain break: ", prev.delegator.as_str());
                let m2 = join_text(m1.as_str(), " -> ");
                let m3 = join_text(m2.as_str(), prev.delegatee.as_str());
                let m4 = join_text(m3.as_str(), " != ");
                let m5 = join_text(m4.as_str(), curr.delegator.as_str());
                let m6 = join_text(m5.as_str(), " -> ");
                let message = join_text(m6.as_str(), curr.delegatee.as_str());
                proof {
                    assert(breaks_at(d.chain@, k as int));
                    let f = first_break(d.chain@);
                    assert(f is Some);
                    let fk = f->0;
                    if fk != k {
                        assert(fk > k) by {
                            if fk < k {
                                assert(!breaks_at(d.chain@, fk));
                            }
                        }
                        assert(!breaks_at(d.chain@, k as int));
                    }
                    assert(message@ =~= break_message(d.chain@, k as int));
                }
                let r: Result<ValidationResult, DelegationError> = Err(DelegationError::InvalidChain(message));
proof {
    assert(reports(r, claims_verdict(*claims, now, b0, d0), true));
}
return r;
            }
            k = k + 1;
        }
        proof {
            assert(first_break(d.chain@) is None);
        }
        Self::pass(&mut result, "delegation_chain");
        let be = self.expand_permissions(&claims.base.permissions);
        let de = self.expand_permissions(&d.delegated_permissions);
        if !all_held(&de, &be) {
            let missing = missing_texts(&de, &be);
            let listed = debug_list(&missing);
            let message = join_text("Delegated permissions not subset of base permissions: ", listed.as_str());
            let r: Result<ValidationResult, DelegationError> = Err(DelegationError::InsufficientPermissions(message));
proof {
    assert(reports(r, claims_verdict(*claims, now, texts(be@), texts(de@)), true));
}
return r;
        }
        Self::pass(&mut result, "permission_subset");
        match &d.restrictions.time_restrictions {
            Some(tr) => {
                let (day, time) = day_and_time(now);
                if tr.allowed_days.len() > 0 {
                    if !holds_number(&tr.allowed_days, day) {
                        let m1 = join_text("Current day ", decimal_text(day as u64).as_str());
                        let m2 = join_text(m1.as_str(), " not in allowed days: ");
                        let message = join_text(m2.as_str(), numbers_list(&tr.allowed_days).as_str());
                        let r: Result<ValidationResult, DelegationError> = Err(DelegationError::InvalidScope(message));
proof {
    assert(reports(r, claims_verdict(*claims, now, texts(be@), texts(de@)), true));
}
return r;
                    }
                }
                if tr.allowed_time_windows.len() > 0 {
                    match self.is_within_time_windows(&tr.allowed_time_windows, time) {
                        Ok(true) => {},
                        Ok(false) => {
                            let r: Result<ValidationResult, DelegationError> = Err(
                                DelegationError::InvalidScope(
                                    "Current time not within allowed time windows".to_owned(),
                                ),
                            );
proof {
    assert(reports(r, claims_verdict(*claims, now, texts(be@), texts(de@)), true));
}
return r;
                        },
                        Err(e) => {
                            let r: Result<ValidationResult, DelegationError> = Err(e);
proof {
    assert(reports(r, claims_verdict(*claims, now, texts(be@), texts(de@)), true));
}
return r;
                        },
                    }
                }
            },
            None => {},
        }
        Self::pass(&mut result, "time_restrictions");
        if d.chain.len() > d.restrictions.max_delegation_depth {
            let r: Result<ValidationResult, DelegationError> = Err(
                DelegationError::DelegationDepthExceeded {
                    current: d.chain.len(),
                    max: d.restrictions.max_delegation_depth,
                },
            );
proof {
    assert(reports(r, claims_verdict(*claims, now, texts(be@), texts(de@)), true));
}
return r;
        }
        Self::pass(&mut result, "depth_limits");
        proof {
            assert(check_texts(result.checks@) =~= check_names(true).map_values(|n: Seq<char>| (n, true)));
        }
        let r: Result<ValidationResult, DelegationError> = Ok(result);
        proof {
            assert(reports(r, claims_verdict(*claims, now, texts(be@), texts(de@)), true));
        }
        r
    }

    /// Validates `claims` at `now`: the token must not have expired; for a
    /// delegated capability, the delegation must be neither revoked nor
    /// expired, its chain and permissions non-empty, the chain free of
    /// circles and unbroken, its permissions (widened by the hierarchy)
    /// within the token's, the day and time allowed, and the chain no
    /// longer than its restrictions allow. Each check passed is recorded.
    pub fn validate_complete_at(&self, claims: &DelegatedClaims, now: i64) -> (r: Result<
        ValidationResult,
        DelegationError,
    >)
        ensures
            exists|be: Seq<Seq<char>>, de: Seq<Seq<char>>|
                #![trigger claims_verdict(*claims, now, be, de)]
                subset_of(texts(claims.base.permissions@), be) && (claims.delegation matches Some(d)
                    ==> subset_of(texts(d.delegated_permissions@), de)) && reports(
                    r,
                    claims_verdict(*claims, now, be, de),
                    claims.delegation is Some,
                ),
    {
        let mut result = ValidationResult::new();
        let now_s: i64 = if now >= 0 {
            now / 1000
        } else {
            -((-(now + 1)) / 1000) - 1
        };
        proof {
            assert(now_s == (now as int) / 1000) by (nonlinear_arith)
                requires
                    now_s == (if now >= 0 {
                        now / 1000
                    } else {
                        -((-(now + 1)) / 1000) - 1
                    }),
            ;
        }
        if (claims.base.exp as i128) < (now_s as i128) {
            let expires_at: i64 = if claims.base.exp <= MAX_DATE_SECONDS {
                (claims.base.exp * 1000) as i64
            } else {
                now
            };
            let r: Result<ValidationResult, DelegationError> = Err(DelegationError::DelegationExpired { expires_at });
            proof {
                let b0 = texts(claims.base.permissions@);
                let d0 = match &claims.delegation {
                    Some(d) => texts(d.delegated_permissions@),
                    None => Seq::<Seq<char>>::empty(),
                };
                assert(subset_of(b0, b0));
                assert(subset_of(d0, d0));
                assert(reports(r, claims_verdict(*claims, now, b0, d0), claims.delegation is Some));
            }
            return r;
        }
        proof {
            assert(check_texts(result.checks@) =~= Seq::<(Seq<char>, bool)>::empty());
        }
        Self::pass(&mut result, "token_expiry");
        match &claims.delegation {
            None => {
                proof {
                    let be = texts(claims.base.permissions@);
                    let de = Seq::<Seq<char>>::empty();
                    assert(subset_of(be, be));
                    assert(check_texts(result.checks@) =~= check_names(false).map_values(
                        |n: Seq<char>| (n, true),
                    ));
                    assert(reports(Ok::<ValidationResult, DelegationError>(result), claims_verdict(*claims, now, be, de), false));
                }
                Ok(result)
            },
            Some(d) => {
                let verdict = self.check_delegation(claims, d, now, result);
                verdict
            },
        }
    }

    /// Validates `claims` now.
    pub fn validate_complete(&self, claims: &DelegatedClaims) -> (r: Result<ValidationResult, DelegationError>)
        ensures
            exists|now: i64, be: Seq<Seq<char>>, de: Seq<Seq<char>>|
                #![trigger claims_verdict(*claims, now, be, de)]
                subset_of(texts(claims.base.permissions@), be) && (claims.delegation matches Some(d)
                    ==> subset_of(texts(d.delegated_permissions@), de)) && reports(
                    r,
                    claims_verdict(*claims, now, be, de),
                    claims.delegation is Some,
                ),
    {
        let now = now_millis();
        self.validate_complete_at(claims, now)
    }
}

} // verus!
