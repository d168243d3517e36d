//! The ledger: account balances and the append-only list of committed
//! events, and transactions that stage mints, burns and transfers and
//! commit them through a write-ahead log.

use vstd::prelude::*;
use crate::domain::account::{Account, PLATFORM_RESERVE_ACCOUNT, PLATFORM_REVENUE_ACCOUNT};
use crate::ledger::event::{
    EntryType, EntryView, EventStatus, EventView, LedgerEntry, LedgerEvent, LedgerEventKind,
    WALEntry,
};
use crate::ledger::storage::{WALStorage, storage_error_text};
use crate::support::{decimal, decimal_text, join_text, signed_decimal_text};

verus! {

/// Errors of ledger operations.
#[derive(Debug, Clone, PartialEq)]
pub enum LedgerError {
    /// The account holds less than required.
    InsufficientFunds { account_id: String, balance: i64, required: i64 },
    /// An event lacks an entry, or its debit and credit differ.
    UnbalancedTransaction,
    /// No such account.
    AccountNotFound(String),
    /// The storage failed.
    StorageError(String),
    /// An event came out of order.
    SequenceError { expected: u64, actual: u64 },
    /// Only committed events can be applied.
    NonCommittedEvent,
    /// A transaction was refused.
    TransactionFailed(String),
}

/// Result type of ledger operations.
pub type LedgerResult<T> = Result<T, LedgerError>;

/// The decimal text of a signed value.
pub open spec fn signed_text(n: i64) -> Seq<char> {
    if n < 0 {
        seq!['-'] + decimal((-n) as nat)
    } else {
        decimal(n as nat)
    }
}

/// The message of a ledger error.
pub open spec fn ledger_error_text(e: LedgerError) -> Seq<char> {
    match e {
        LedgerError::InsufficientFunds { account_id, balance, required } => "Insufficient funds in account "@
            + account_id@ + ": balance "@ + signed_text(balance) + ", required "@ + signed_text(
            required,
        ),
        LedgerError::UnbalancedTransaction => "Invalid transaction: debit and credit amounts must be equal"@,
        LedgerError::AccountNotFound(s) => "Account not found: "@ + s@,
        LedgerError::StorageError(s) => "Storage error: "@ + s@,
        LedgerError::SequenceError { expected, actual } => "Event sequence error: expected "@ + decimal(
            expected as nat,
        ) + ", got "@ + decimal(actual as nat),
        LedgerError::NonCommittedEvent => "Cannot apply non-committed event"@,
        LedgerError::TransactionFailed(s) => "Transaction failed: "@ + s@,
    }
}

impl LedgerError {
    /// The message of the error.
    pub fn to_text(&self) -> (r: String)
        ensures
            r@ == ledger_error_text(*self),
    {
        match self {
            LedgerError::InsufficientFunds { account_id, balance, required } => {
                let a = join_text("Insufficient funds in account ", account_id.as_str());
                let b = join_text(a.as_str(), ": balance ");
                let bal = signed_decimal_text(*balance);
                let c = join_text(b.as_str(), bal.as_str());
                let d = join_text(c.as_str(), ", required ");
                let req = signed_decimal_text(*required);
                join_text(d.as_str(), req.as_str())
            },
            LedgerError::UnbalancedTransaction => "Invalid transaction: debit and credit amounts must be equal".to_owned(),
            LedgerError::AccountNotFound(s) => join_text("Account not found: ", s.as_str()),
            LedgerError::StorageError(s) => join_text("Storage error: ", s.as_str()),
            LedgerError::SequenceError { expected, actual } => {
                let e = decimal_text(*expected);
                let a = decimal_text(*actual);
                let x = join_text("Event sequence error: expected ", e.as_str());
                let y = join_text(x.as_str(), ", got ");
                join_text(y.as_str(), a.as_str())
            },
            LedgerError::NonCommittedEvent => "Cannot apply non-committed event".to_owned(),
            LedgerError::TransactionFailed(s) => join_text("Transaction failed: ", s.as_str()),
        }
    }
}

/// The balances held by a list of accounts with distinct identifiers.
pub open spec fn account_map(s: Seq<Account>) -> Map<Seq<char>, i64>
    decreases s.len(),
{
    if s.len() == 0 {
        Map::empty()
    } else {
        account_map(s.drop_last()).insert(s.last().id@, s.last().balance)
    }
}

/// Whether the identifiers of the accounts are distinct.
pub open spec fn distinct_ids(s: Seq<Account>) -> bool {
    forall|i: int, j: int| 0 <= i < j < s.len() ==> #[trigger] s[i].id@ != #[trigger] s[j].id@
}

/// The balance of `id` (0 for an account that does not exist).
pub open spec fn balance_in(m: Map<Seq<char>, i64>, id: Seq<char>) -> int {
    if m.contains_key(id) {
        m[id] as int
    } else {
        0
    }
}

/// The debited account of an event.
pub open spec fn debit_account(ev: EventView) -> Seq<char> {
    match ev.debit {
        Some((a, _, _)) => a,
        None => Seq::empty(),
    }
}

/// The debited amount of an event.
pub open spec fn debit_amount(ev: EventView) -> i64 {
    match ev.debit {
        Some((_, n, _)) => n,
        None => 0,
    }
}

/// The credited account of an event.
pub open spec fn credit_account(ev: EventView) -> Seq<char> {
    match ev.credit {
        Some((a, _, _)) => a,
        None => Seq::empty(),
    }
}

/// The credited amount of an event.
pub open spec fn credit_amount(ev: EventView) -> i64 {
    match ev.credit {
        Some((_, n, _)) => n,
        None => 0,
    }
}

/// The balances after an event's debit and then its credit.
pub open spec fn apply_effect(b: Map<Seq<char>, i64>, ev: EventView) -> Map<Seq<char>, i64> {
    let d = ev.debit->0;
    let c = ev.credit->0;
    let b1 = b.insert(d.0, (balance_in(b, d.0) - d.1) as i64);
    b1.insert(c.0, (balance_in(b1, c.0) + c.1) as i64)
}

/// Whether an event is well formed for application: committed, with both
/// entries, of equal amounts.
pub open spec fn well_formed_event(ev: EventView) -> bool {
    &&& ev.status == EventStatus::Committed
    &&& ev.debit is Some
    &&& ev.credit is Some
    &&& debit_amount(ev) == credit_amount(ev)
}

/// Whether applying `ev` to the balances `b` stays within `i64`, whenever
/// the debit is covered.
pub open spec fn apply_fits(b: Map<Seq<char>, i64>, ev: EventView) -> bool {
    well_formed_event(ev) && balance_in(b, debit_account(ev)) >= debit_amount(ev) ==> {
        let d = ev.debit->0;
        let c = ev.credit->0;
        let b1 = b.insert(d.0, (balance_in(b, d.0) - d.1) as i64);
        &&& balance_in(b, d.0) - d.1 <= i64::MAX
        &&& i64::MIN <= balance_in(b1, c.0) + c.1 <= i64::MAX
    }
}

/// The event with the status `Committed`.
pub open spec fn committed_view(ev: EventView) -> EventView {
    EventView { status: EventStatus::Committed, ..ev }
}

/// Whether committing the events `evs` in turn, from balances `b` and
/// `len` events, stays within the integer types at every step that succeeds.
pub open spec fn commit_fits(b: Map<Seq<char>, i64>, len: int, evs: Seq<EventView>) -> bool
    decreases evs.len(),
{
    if evs.len() == 0 {
        len < u64::MAX
    } else {
        let ev = committed_view(evs[0]);
        &&& len + 1 < u64::MAX
        &&& apply_fits(b, ev)
        &&& (ev.sequence == len + 1 && well_formed_event(ev) && balance_in(b, debit_account(ev))
            >= debit_amount(ev) ==> commit_fits(apply_effect(b, ev), len + 1, evs.skip(1)))
    }
}

/// The balances after applying the events `evs` in turn.
pub open spec fn balances_after(b: Map<Seq<char>, i64>, evs: Seq<EventView>) -> Map<Seq<char>, i64>
    decreases evs.len(),
{
    if evs.len() == 0 {
        b
    } else {
        balances_after(apply_effect(b, evs[0]), evs.skip(1))
    }
}

/// Whether the events `evs` apply in turn to the balances `b` of a ledger
/// holding `len` events: each is committed, well formed, next in sequence,
/// covered by the balance it debits and within the integer types.
pub open spec fn replays(b: Map<Seq<char>, i64>, len: int, evs: Seq<EventView>) -> bool
    decreases evs.len(),
{
    if evs.len() == 0 {
        true
    } else {
        let ev = evs[0];
        &&& len + 1 < u64::MAX
        &&& apply_fits(b, ev)
        &&& ev.sequence == len + 1
        &&& well_formed_event(ev)
        &&& balance_in(b, debit_account(ev)) >= debit_amount(ev)
        &&& replays(apply_effect(b, ev), len + 1, evs.skip(1))
    }
}

/// The balances of a new ledger.
pub open spec fn opening_balances() -> Map<Seq<char>, i64> {
    Map::<Seq<char>, i64>::empty().insert(PLATFORM_RESERVE_ACCOUNT@, 1_000_000_000).insert(
        PLATFORM_REVENUE_ACCOUNT@,
        0,
    )
}

/// The identifiers of a list of events.
pub open spec fn event_ids_of(s: Seq<LedgerEvent>) -> Seq<u128> {
    s.map_values(|e: LedgerEvent| e.id_spec())
}

/// The plain values of a list of events.
pub open spec fn event_views(s: Seq<LedgerEvent>) -> Seq<EventView> {
    s.map_values(|e: LedgerEvent| e.view_event())
}

/// Sum of the positive balances, leaving out the account `skip` when given.
pub open spec fn positive_total(s: Seq<Account>, skip: Option<Seq<char>>) -> int
    decreases s.len(),
{
    if s.len() == 0 {
        0
    } else {
        let a = s.last();
        positive_total(s.drop_last(), skip) + if a.balance > 0 && skip != Some(a.id@) {
            a.balance as int
        } else {
            0
        }
    }
}

/// Sum of all balances.
pub open spec fn balance_total(s: Seq<Account>) -> int
    decreases s.len(),
{
    if s.len() == 0 {
        0
    } else {
        balance_total(s.drop_last()) + s.last().balance
    }
}

/// Sum of the debit (`debits`) or credit amounts of the committed events.
pub open spec fn entry_total(s: Seq<EventView>, debits: bool) -> int
    decreases s.len(),
{
    if s.len() == 0 {
        0
    } else {
        let ev = s.last();
        let side = if debits {
            ev.debit
        } else {
            ev.credit
        };
        entry_total(s.drop_last(), debits) + match side {
            Some((_, n, _)) => if ev.status == EventStatus::Committed {
                n as int
            } else {
                0
            },
            None => 0,
        }
    }
}

/// Whether every prefix sum of the entry amounts fits an `i64`.
pub open spec fn entry_totals_fit(s: Seq<EventView>) -> bool {
    forall|n: int|
        0 <= n <= s.len() ==> i64::MIN <= #[trigger] entry_total(s.take(n), true) <= i64::MAX
            && i64::MIN <= entry_total(s.take(n), false) <= i64::MAX
}

/// Whether every prefix sum of the balances fits an `i64`.
pub open spec fn balance_totals_fit(s: Seq<Account>) -> bool {
    forall|n: int| 0 <= n <= s.len() ==> i64::MIN <= #[trigger] balance_total(s.take(n)) <= i64::MAX
}

/// The message of a failed balance check.
pub open spec fn integrity_text(total: i64) -> Seq<char> {
    "Balance integrity check failed: total "@ + signed_text(total) + " != expected 1000000000"@
}

proof fn lemma_account_lookup(s: Seq<Account>, k: Seq<char>)
    requires
        distinct_ids(s),
    ensures
        account_map(s).contains_key(k) <==> exists|i: int| 0 <= i < s.len() && s[i].id@ == k,
        forall|i: int| 0 <= i < s.len() && #[trigger] s[i].id@ == k ==> account_map(s)[k] == s[i].balance,
    decreases s.len(),
{
    if s.len() > 0 {
        let init = s.drop_last();
        assert(distinct_ids(init)) by {
            assert forall|i: int, j: int| 0 <= i < j < init.len() implies init[i].id@ != init[j].id@ by {
                assert(init[i] == s[i] && init[j] == s[j]);
            }
        }
        lemma_account_lookup(init, k);
        if account_map(s).contains_key(k) && s.last().id@ != k {
            let i = choose|i: int| 0 <= i < init.len() && init[i].id@ == k;
            assert(s[i] == init[i]);
        }
        assert forall|i: int| 0 <= i < s.len() && #[trigger] s[i].id@ == k implies account_map(s)[k]
            == s[i].balance by {
            if i < s.len() - 1 {
                assert(s[i] == init[i]);
                assert(s.last().id@ != k);
            }
        }
        if exists|i: int| 0 <= i < s.len() && s[i].id@ == k {
            let i = choose|i: int| 0 <= i < s.len() && s[i].id@ == k;
            if i < s.len() - 1 {
                assert(init[i] == s[i]);
            }
        }
    }
}

/// Position of the account `id`.
fn position_of(accounts: &Vec<Account>, id: &String) -> (r: Option<usize>)
    ensures
        match r {
            Some(i) => i < accounts@.len() && accounts@[i as int].id@ == id@,
            None => forall|i: int| 0 <= i < accounts@.len() ==> #[trigger] accounts@[i].id@ != id@,
        },
{
    let mut i: usize = 0;
    while i < accounts.len()
        invariant
            i <= accounts@.len(),
            forall|j: int| 0 <= j < i ==> #[trigger] accounts@[j].id@ != id@,
        decreases accounts.len() - i,
    {
        if accounts[i].id == *id {
            return Some(i);
        }
        i = i + 1;
    }
    None
}

/// The balance of `id` among the accounts.
fn balance_of(accounts: &Vec<Account>, id: &String) -> (r: i64)
    requires
        distinct_ids(accounts@),
    ensures
        r == balance_in(account_map(accounts@), id@),
{
    proof {
        lemma_account_lookup(accounts@, id@);
    }
    match position_of(accounts, id) {
        Some(i) => accounts[i].balance,
        None => 0,
    }
}

/// Sets the balance of `id`, adding the account when it is missing.
fn set_balance(accounts: &mut Vec<Account>, id: &String, balance: i64)
    requires
        distinct_ids(old(accounts)@),
    ensures
        distinct_ids(final(accounts)@),
        account_map(final(accounts)@) == account_map(old(accounts)@).insert(id@, balance),
{
    proof {
        lemma_account_lookup(accounts@, id@);
    }
    let ghost before = accounts@;
    match position_of(accounts, id) {
        Some(i) => {
            let key = accounts[i].id.clone();
            accounts.set(i, Account { id: key, balance });
            proof {
                assert(forall|a: int| 0 <= a < accounts@.len() ==> #[trigger] accounts@[a].id@ == before[a].id@);
                assert forall|k2: Seq<char>| #[trigger] account_map(accounts@).contains_key(k2)
                    == account_map(before).insert(id@, balance).contains_key(k2) && (account_map(
                    accounts@,
                ).contains_key(k2) ==> account_map(accounts@)[k2] == account_map(before).insert(
                    id@,
                    balance,
                )[k2]) by {
                    lemma_account_lookup(accounts@, k2);
                    lemma_account_lookup(before, k2);
                    if k2 != id@ {
                        if exists|j: int| 0 <= j < before.len() && before[j].id@ == k2 {
                            let j = choose|j: int| 0 <= j < before.len() && before[j].id@ == k2;
                            assert(accounts@[j] == before[j]);
                        }
                        if exists|j: int| 0 <= j < accounts@.len() && accounts@[j].id@ == k2 {
                            let j = choose|j: int| 0 <= j < accounts@.len() && accounts@[j].id@ == k2;
                            assert(j != i);
                            assert(accounts@[j] == before[j]);
                        }
                    } else {
                        assert(accounts@[i as int].id@ == k2);
                    }
                }
                assert(account_map(accounts@) =~= account_map(before).insert(id@, balance));
            }
        },
        None => {
            let key = id.clone();
            accounts.push(Account { id: key, balance });
            proof {
                assert(accounts@.drop_last() =~= before);
                assert(distinct_ids(accounts@)) by {
                    assert forall|a: int, b: int| 0 <= a < b < accounts@.len() implies accounts@[a].id@
                        != accounts@[b].id@ by {
                        if b < before.len() {
                            assert(before[a].id@ != before[b].id@);
                        } else {
                            assert(before[a].id@ != id@);
                        }
                    }
                }
            }
        },
    }
}

/// A copy of a list of accounts.
fn copy_accounts(s: &Vec<Account>) -> (r: Vec<Account>)
    ensures
        r@ == s@,
{
    let mut out: Vec<Account> = Vec::new();
    let mut i: usize = 0;
    while i < s.len()
        invariant
            i <= s.len(),
            out@ == s@.take(i as int),
        decreases s.len() - i,
    {
        out.push(Account { id: s[i].id.clone(), balance: s[i].balance });
        proof {
            assert(out@ =~= s@.take(i + 1));
        }
        i = i + 1;
    }
    proof {
        assert(s@.take(s.len() as int) =~= s@);
    }
    out
}

/// The ledger: accounts and committed events.
#[derive(Debug)]
pub struct Ledger {
    accounts: Vec<Account>,
    events: Vec<LedgerEvent>,
    next_sequence: u64,
}

impl Ledger {
    #[verifier::type_invariant]
    spec fn wf(self) -> bool {
        distinct_ids(self.accounts@)
    }

    /// The accounts, in the order they were opened.
    pub closed spec fn accounts_spec(&self) -> Seq<Account> {
        self.accounts@
    }

    /// The balances, by account.
    pub open spec fn balances(&self) -> Map<Seq<char>, i64> {
        account_map(self.accounts_spec())
    }

    /// The committed events, as plain values.
    pub closed spec fn events_spec(&self) -> Seq<EventView> {
        event_views(self.events@)
    }

    /// The identifiers of the committed events, in order.
    pub closed spec fn event_ids(&self) -> Seq<u128> {
        event_ids_of(self.events@)
    }

    /// The next sequence number.
    pub closed spec fn next_sequence_spec(&self) -> u64 {
        self.next_sequence
    }

    /// A ledger with no account and no event, whose next sequence number is 0.
    pub fn default() -> (l: Ledger)
        ensures
            l.accounts_spec() == Seq::<Account>::empty(),
            l.events_spec() == Seq::<EventView>::empty(),
            l.next_sequence_spec() == 0,
    {
        let l = Ledger { accounts: Vec::new(), events: Vec::new(), next_sequence: 0 };
        proof {
            assert(event_views(l.events@) =~= Seq::<EventView>::empty());
        }
        l
    }

    /// A ledger whose reserve holds a billion credits and whose revenue
    /// account is empty; the first event will have sequence number 1.
    pub fn new() -> (l: Ledger)
        ensures
            l.balances() == Map::<Seq<char>, i64>::empty().insert(
                PLATFORM_RESERVE_ACCOUNT@,
                1_000_000_000,
            ).insert(PLATFORM_REVENUE_ACCOUNT@, 0),
            l.events_spec() == Seq::<EventView>::empty(),
            l.next_sequence_spec() == 1,
    {
        let mut accounts: Vec<Account> = Vec::new();
        let reserve = PLATFORM_RESERVE_ACCOUNT.to_owned();
        let revenue = PLATFORM_REVENUE_ACCOUNT.to_owned();
        set_balance(&mut accounts, &reserve, 1_000_000_000);
        set_balance(&mut accounts, &revenue, 0);
        proof {
            assert(account_map(Seq::<Account>::empty()) =~= Map::<Seq<char>, i64>::empty());
        }
        let l = Ledger { accounts, events: Vec::new(), next_sequence: 1 };
        proof {
            assert(event_views(l.events@) =~= Seq::<EventView>::empty());
        }
        l
    }

    /// A copy of the ledger.
    pub fn duplicate(&self) -> (l: Ledger)
        ensures
            l.accounts_spec() == self.accounts_spec(),
            l.events_spec() == self.events_spec(),
            l.next_sequence_spec() == self.next_sequence_spec(),
    {
        proof {
            use_type_invariant(self);
        }
        let accounts = copy_accounts(&self.accounts);
        let mut events: Vec<LedgerEvent> = Vec::new();
        let mut i: usize = 0;
        while i < self.events.len()
            invariant
                i <= self.events@.len(),
                events@ == self.events@.take(i as int),
            decreases self.events.len() - i,
        {
            events.push(self.events[i].duplicate());
            proof {
                assert(events@ =~= self.events@.take(i + 1));
            }
            i = i + 1;
        }
        proof {
            assert(self.events@.take(self.events.len() as int) =~= self.events@);
        }
        Ledger { accounts, events, next_sequence: self.next_sequence }
    }

    /// The balance of `account_id` (0 for an account that does not exist).
    pub fn get_account_balance(&self, account_id: &str) -> (r: i64)
        ensures
            r == balance_in(self.balances(), account_id@),
    {
        proof {
            use_type_invariant(self);
        }
        let id = account_id.to_owned();
        balance_of(&self.accounts, &id)
    }

    /// The balance of the platform reserve.
    pub fn get_platform_reserve_balance(&self) -> (r: i64)
        ensures
            r == balance_in(self.balances(), PLATFORM_RESERVE_ACCOUNT@),
    {
        self.get_account_balance(PLATFORM_RESERVE_ACCOUNT)
    }

    /// The accounts, in the order they were opened.
    pub fn get_accounts(&self) -> (r: &Vec<Account>)
        ensures
            r@ == self.accounts_spec(),
    {
        &self.accounts
    }

    /// The committed events, in order.
    pub fn get_events(&self) -> (r: &[LedgerEvent])
        ensures
            event_views(r@) == self.events_spec(),
    {
        self.events.as_slice()
    }

    /// The next sequence number.
    pub fn next_sequence(&self) -> (r: u64)
        ensures
            r == self.next_sequence_spec(),
    {
        self.next_sequence
    }

    /// Sets the balance of `account_id`, opening the account when missing.
    fn put_balance(&mut self, account_id: &String, balance: i64)
        ensures
            final(self).events_spec() == old(self).events_spec(),
            final(self).event_ids() == old(self).event_ids(),
            final(self).next_sequence_spec() == old(self).next_sequence_spec(),
            final(self).balances() == old(self).balances().insert(account_id@, balance),
    {
        proof {
            use_type_invariant(&*self);
        }
        let mut accounts: Vec<Account> = Vec::new();
        std::mem::swap(&mut accounts, &mut self.accounts);
        set_balance(&mut accounts, account_id, balance);
        self.accounts = accounts;
    }

    /// Takes `amount` from `account_id`, opening it with a zero balance
    /// when missing; refused when the balance is lower than `amount` (the
    /// account stays open).
    fn debit(&mut self, account_id: &String, amount: i64) -> (r: LedgerResult<()>)
        requires
            balance_in(old(self).balances(), account_id@) >= amount ==> balance_in(
                old(self).balances(),
                account_id@,
            ) - amount <= i64::MAX,
        ensures
            final(self).events_spec() == old(self).events_spec(),
            final(self).event_ids() == old(self).event_ids(),
            final(self).next_sequence_spec() == old(self).next_sequence_spec(),
            ({
                let bal = balance_in(old(self).balances(), account_id@);
                &&& bal < amount ==> r == Err::<(), LedgerError>(
                    LedgerError::InsufficientFunds {
                        account_id: *account_id,
                        balance: bal as i64,
                        required: amount,
                    },
                ) && final(self).balances() == old(self).balances().insert(account_id@, bal as i64)
                &&& bal >= amount ==> r is Ok && final(self).balances() == old(self).balances().insert(
                    account_id@,
                    (bal - amount) as i64,
                )
            }),
    {
        proof {
            use_type_invariant(&*self);
        }
        let balance = balance_of(&self.accounts, account_id);
        if balance < amount {
            self.put_balance(account_id, balance);
            return Err(
                LedgerError::InsufficientFunds {
                    account_id: account_id.clone(),
                    balance,
                    required: amount,
                },
            );
        }
        self.put_balance(account_id, balance - amount);
        Ok(())
    }

    /// Adds `amount` to `account_id`, opening it when missing.
    fn credit(&mut self, account_id: &String, amount: i64)
        requires
            i64::MIN <= balance_in(old(self).balances(), account_id@) + amount <= i64::MAX,
        ensures
            final(self).events_spec() == old(self).events_spec(),
            final(self).event_ids() == old(self).event_ids(),
            final(self).next_sequence_spec() == old(self).next_sequence_spec(),
            final(self).balances() == old(self).balances().insert(
                account_id@,
                (balance_in(old(self).balances(), account_id@) + amount) as i64,
            ),
    {
        proof {
            use_type_invariant(&*self);
        }
        let balance = balance_of(&self.accounts, account_id);
        self.put_balance(account_id, balance + amount);
    }

    /// Applies a committed event: checks that it is committed, that it comes
    /// next in sequence and that its debit and credit are present and equal,
    /// then takes the amount from the debited account (refused when it holds
    /// less) and gives it to the credited one.
    pub fn apply_committed_event(&mut self, event: LedgerEvent) -> (r: LedgerResult<()>)
        requires
            old(self).events_spec().len() + 1 < u64::MAX,
            apply_fits(old(self).balances(), event.view_event()),
        ensures
            r is Ok ==> final(self).event_ids() == old(self).event_ids().push(event.id_spec()),
            r is Err ==> final(self).event_ids() == old(self).event_ids(),
            ({
                let ev = event.view_event();
                let len = old(self).events_spec().len();
                let b = old(self).balances();
                &&& ev.status != EventStatus::Committed ==> r == Err::<(), LedgerError>(
                    LedgerError::NonCommittedEvent,
                ) && final(self).balances() == b && final(self).events_spec() == old(
                    self,
                ).events_spec()
                &&& ev.status == EventStatus::Committed && ev.sequence != len + 1 ==> r == Err::<
                    (),
                    LedgerError,
                >(LedgerError::SequenceError { expected: (len + 1) as u64, actual: ev.sequence })
                    && final(self).balances() == b && final(self).events_spec() == old(
                    self,
                ).events_spec()
                &&& ev.status == EventStatus::Committed && ev.sequence == len + 1
                    && !well_formed_event(ev) ==> r == Err::<(), LedgerError>(
                    LedgerError::UnbalancedTransaction,
                ) && final(self).balances() == b && final(self).events_spec() == old(
                    self,
                ).events_spec()
                &&& ev.sequence == len + 1 && well_formed_event(ev) && (balance_in(b, debit_account(ev))
                    < debit_amount(ev)) ==> {
                    &&& r is Err
                    &&& r->Err_0 is InsufficientFunds
                    &&& r->Err_0->InsufficientFunds_account_id@ == debit_account(ev)
                    &&& r->Err_0->InsufficientFunds_balance == balance_in(b, debit_account(ev))
                    &&& r->Err_0->InsufficientFunds_required == debit_amount(ev)
                    &&& final(self).balances() == b.insert(
                        debit_account(ev),
                        balance_in(b, debit_account(ev)) as i64,
                    )
                    &&& final(self).events_spec() == old(self).events_spec()
                }
                &&& ev.sequence == len + 1 && well_formed_event(ev) && balance_in(b, debit_account(ev))
                    >= debit_amount(ev) ==> r is Ok && final(self).balances() == apply_effect(b, ev)
                    && final(self).events_spec() == old(self).events_spec().push(ev) && final(self).next_sequence_spec() == len + 2
            }),
    {
        if !event.is_committed() {
            return Err(LedgerError::NonCommittedEvent);
        }
        let len = self.events.len() as u64;
        if event.sequence() != len + 1 {
            return Err(LedgerError::SequenceError { expected: len + 1, actual: event.sequence() });
        }
        let (debit_account, debit_amount, credit_account, credit_amount) = match (
            event.debit_entry(),
            event.credit_entry(),
        ) {
            (Some(d), Some(c)) => (d.account_id().to_owned(), d.amount(), c.account_id().to_owned(), c.amount()),
            _ => {
                return Err(LedgerError::UnbalancedTransaction);
            },
        };
        if debit_amount != credit_amount {
            return Err(LedgerError::UnbalancedTransaction);
        }
        match self.debit(&debit_account, debit_amount) {
            Ok(()) => {},
            Err(e) => {
                return Err(e);
            },
        }
        self.credit(&credit_account, credit_amount);
        proof {
            use_type_invariant(&*self);
        }
        let mut events: Vec<LedgerEvent> = Vec::new();
        std::mem::swap(&mut events, &mut self.events);
        events.push(event);
        self.next_sequence = events.len() as u64 + 1;
        self.events = events;
        proof {
            assert(event_views(self.events@) =~= event_views(old(self).events@).push(
                event.view_event(),
            ));
            assert(self.event_ids() =~= old(self).event_ids().push(event.id_spec()));
        }
        Ok(())
    }

    /// Whether applying `event` stays within the integer types.
    pub fn event_fits(&self, event: &LedgerEvent) -> (r: bool)
        ensures
            r == (self.events_spec().len() + 1 < u64::MAX && apply_fits(
                self.balances(),
                event.view_event(),
            )),
    {
        proof {
            use_type_invariant(self);
        }
        if self.events.len() as u64 >= u64::MAX - 1 {
            return false;
        }
        match (event.debit_entry(), event.credit_entry()) {
            (Some(d), Some(c)) => {
                if !event.is_committed() || d.amount() != c.amount() {
                    return true;
                }
                let da = d.account_id().to_owned();
                let ca = c.account_id().to_owned();
                let bd = balance_of(&self.accounts, &da);
                if bd < d.amount() {
                    return true;
                }
                if (bd as i128) - (d.amount() as i128) > i64::MAX as i128 {
                    return false;
                }
                let after: i64 = bd - d.amount();
                let bc: i64 = if ca == da {
                    after
                } else {
                    balance_of(&self.accounts, &ca)
                };
                proof {
                    lemma_account_lookup(self.accounts@, ca@);
                }
                let sum: i128 = (bc as i128) + (c.amount() as i128);
                sum >= i64::MIN as i128 && sum <= i64::MAX as i128
            },
            _ => true,
        }
    }

    /// A ledger rebuilt from `storage`: a new ledger to which the committed
    /// events of the write-ahead log are applied in order. An event that
    /// would take a balance or the sequence beyond the integer types is
    /// refused as a failed transaction.
    pub fn new_with_recovery<S: WALStorage>(storage: &mut S) -> (r: LedgerResult<Ledger>)
        ensures
            r is Ok ==> replays(opening_balances(), 0, r->Ok_0.events_spec())
                && r->Ok_0.balances() == balances_after(opening_balances(), r->Ok_0.events_spec()),
    {
        let events = match storage.recover_from_wal() {
            Ok(evs) => evs,
            Err(e) => {
                return Err(LedgerError::StorageError(e.to_text()));
            },
        };
        Ledger::replay(events)
    }

    /// A new ledger to which `events` are applied in order. It succeeds
    /// exactly when every event applies in turn; an event that would take a
    /// balance or the sequence beyond the integer types is refused as a
    /// failed transaction, any other as `apply_committed_event` refuses it.
    pub fn replay(events: Vec<LedgerEvent>) -> (r: LedgerResult<Ledger>)
        ensures
            r is Ok <==> replays(opening_balances(), 0, event_views(events@)),
            r is Ok ==> r->Ok_0.events_spec() == event_views(events@) && r->Ok_0.balances()
                == balances_after(opening_balances(), event_views(events@)),
            r is Ok ==> r->Ok_0.event_ids() == event_ids_of(events@),
            r is Err ==> !(r->Err_0 is StorageError) && !(r->Err_0 is AccountNotFound),
    {
        let mut ledger = Ledger::new();
        let ghost views = event_views(events@);
        let ghost ids = event_ids_of(events@);
        let ghost b0 = ledger.balances();
        proof {
            assert(b0 =~= opening_balances());
            assert(views.skip(0) =~= views);
            assert(views.take(0) =~= ledger.events_spec());
        }
        let n = events.len();
        let mut i: usize = 0;
        while i < n
            invariant
                i <= n,
                n == events@.len(),
                views == event_views(events@),
                ids == event_ids_of(events@),
                ledger.event_ids() == ids.take(i as int),
                b0 == opening_balances(),
                ledger.events_spec() == views.take(i as int),
                balances_after(b0, views) == balances_after(ledger.balances(), views.skip(i as int)),
                replays(b0, 0, views) == replays(ledger.balances(), i as int, views.skip(i as int)),
            decreases n - i,
        {
            let event = events[i].duplicate();
            proof {
                assert(views.skip(i as int)[0] == views[i as int]);
                assert(views.skip(i as int).skip(1) =~= views.skip(i + 1));
                assert(event.view_event() == views[i as int]);
                assert(ledger.events_spec().len() == i);
            }
            if !ledger.event_fits(&event) {
                return Err(LedgerError::TransactionFailed("balance out of range".to_owned()));
            }
            match ledger.apply_committed_event(event) {
                Ok(()) => {},
                Err(e) => {
                    return Err(e);
                },
            }
            proof {
                assert(views.take(i + 1) =~= views.take(i as int).push(views[i as int]));
                assert(ids.take(i + 1) =~= ids.take(i as int).push(ids[i as int]));
            }
            i = i + 1;
        }
        proof {
            assert(views.take(n as int) =~= views);
            assert(views.skip(n as int) =~= Seq::<EventView>::empty());
            assert(ids.take(n as int) =~= ids);
        }
        Ok(ledger)
    }

    /// A transaction with nothing staged.
    pub fn begin_transaction(&self) -> (t: Transaction)
        ensures
            t.staged_spec() == Seq::<EventView>::empty(),
            t.pending_spec() == Map::<Seq<char>, i64>::empty(),
    {
        Transaction::new()
    }

    /// Total of the positive balances, the reserve left out.
    pub fn total_credits_in_circulation(&self) -> (r: u64)
        requires
            positive_total(self.accounts_spec(), Some(PLATFORM_RESERVE_ACCOUNT@)) <= u64::MAX,
        ensures
            r == positive_total(self.accounts_spec(), Some(PLATFORM_RESERVE_ACCOUNT@)),
    {
        let reserve = PLATFORM_RESERVE_ACCOUNT.to_owned();
        self.positive_sum(Some(&reserve))
    }

    /// Total of the positive balances, the reserve included.
    pub fn total_supply(&self) -> (r: u64)
        requires
            positive_total(self.accounts_spec(), None) <= u64::MAX,
        ensures
            r == positive_total(self.accounts_spec(), None),
    {
        self.positive_sum(None)
    }

    fn positive_sum(&self, skip: Option<&String>) -> (r: u64)
        requires
            positive_total(
                self.accounts_spec(),
                match skip {
                    Some(s) => Some(s@),
                    None => None,
                },
            ) <= u64::MAX,
        ensures
            r == positive_total(
                self.accounts_spec(),
                match skip {
                    Some(s) => Some(s@),
                    None => None,
                },
            ),
    {
        let ghost sk = match skip {
            Some(s) => Some(s@),
            None => None::<Seq<char>>,
        };
        let mut total: u64 = 0;
        let mut i: usize = 0;
        while i < self.accounts.len()
            invariant
                i <= self.accounts@.len(),
                sk == match skip {
                    Some(s) => Some(s@),
                    None => None::<Seq<char>>,
                },
                positive_total(self.accounts@, sk) <= u64::MAX,
                total == positive_total(self.accounts@.take(i as int), sk),
            decreases self.accounts.len() - i,
        {
            let a = &self.accounts[i];
            proof {
                assert(self.accounts@.take(i + 1).drop_last() =~= self.accounts@.take(i as int));
                lemma_positive_total_prefix(self.accounts@, sk, i + 1);
            }
            let skipped = match skip {
                Some(s) => a.id == *s,
                None => false,
            };
            if a.balance > 0 && !skipped {
                total = total + a.balance as u64;
            }
            i = i + 1;
        }
        proof {
            assert(self.accounts@.take(self.accounts.len() as int) =~= self.accounts@);
        }
        total
    }

    /// Checks that the committed debits equal the committed credits and,
    /// once there are events, that the balances add up to the billion
    /// credits the reserve started with.
    pub fn validate_integrity(&self) -> (r: LedgerResult<()>)
        requires
            entry_totals_fit(self.events_spec()),
            balance_totals_fit(self.accounts_spec()),
        ensures
            ({
                let d = entry_total(self.events_spec(), true);
                let c = entry_total(self.events_spec(), false);
                let t = balance_total(self.accounts_spec());
                &&& d != c ==> r == Err::<(), LedgerError>(LedgerError::UnbalancedTransaction)
                &&& d == c && self.events_spec().len() > 0 && t != 1_000_000_000 ==> r is Err
                    && r->Err_0 is TransactionFailed && r->Err_0->TransactionFailed_0@
                    == integrity_text(t as i64)
                &&& d == c && (self.events_spec().len() == 0 || t == 1_000_000_000) ==> r is Ok
            }),
    {
        let ghost evs = self.events_spec();
        let mut total_debits: i64 = 0;
        let mut total_credits: i64 = 0;
        let mut i: usize = 0;
        while i < self.events.len()
            invariant
                i <= self.events@.len(),
                evs == event_views(self.events@),
                entry_totals_fit(evs),
                total_debits == entry_total(evs.take(i as int), true),
                total_credits == entry_total(evs.take(i as int), false),
            decreases self.events.len() - i,
        {
            let event = &self.events[i];
            proof {
                assert(evs.take(i + 1).drop_last() =~= evs.take(i as int));
                assert(evs.take(i + 1).last() == event.view_event());
                assert(i64::MIN <= entry_total(evs.take(i + 1), true) <= i64::MAX);
            }
            if event.is_committed() {
                match event.debit_entry() {
                    Some(d) => {
                        total_debits = total_debits + d.amount();
                    },
                    None => {},
                }
                match event.credit_entry() {
                    Some(c) => {
                        total_credits = total_credits + c.amount();
                    },
                    None => {},
                }
            }
            i = i + 1;
        }
        proof {
            assert(evs.take(self.events.len() as int) =~= evs);
        }
        if total_debits != total_credits {
            return Err(LedgerError::UnbalancedTransaction);
        }
        let ghost accs = self.accounts_spec();
        let mut total_balance: i64 = 0;
        let mut j: usize = 0;
        while j < self.accounts.len()
            invariant
                j <= self.accounts@.len(),
                accs == self.accounts@,
                balance_totals_fit(accs),
                total_balance == balance_total(accs.take(j as int)),
            decreases self.accounts.len() - j,
        {
            proof {
                assert(accs.take(j + 1).drop_last() =~= accs.take(j as int));
                assert(i64::MIN <= balance_total(accs.take(j + 1)) <= i64::MAX);
            }
            total_balance = total_balance + self.accounts[j].balance;
            j = j + 1;
        }
        proof {
            assert(accs.take(self.accounts.len() as int) =~= accs);
        }
        if self.events.len() > 0 && total_balance != 1_000_000_000 {
            let t = signed_decimal_text(total_balance);
            let a = join_text("Balance integrity check failed: total ", t.as_str());
            let message = join_text(a.as_str(), " != expected 1000000000");
            return Err(LedgerError::TransactionFailed(message));
        }
        Ok(())
    }
}

proof fn lemma_positive_total_prefix(s: Seq<Account>, skip: Option<Seq<char>>, n: int)
    requires
        0 <= n <= s.len(),
    ensures
        positive_total(s.take(n), skip) <= positive_total(s, skip),
    decreases s.len() - n,
{
    if n < s.len() {
        lemma_positive_total_prefix(s, skip, n + 1);
        assert(s.take(n + 1).drop_last() =~= s.take(n));
    } else {
        assert(s.take(n) =~= s);
    }
}

/// The balance change pending for `id` (0 when none).
pub open spec fn pending_in(p: Map<Seq<char>, i64>, id: Seq<char>) -> int {
    balance_in(p, id)
}

/// The balance of `id` seen by a transaction: the ledger's plus what is pending.
pub open spec fn effective_in(b: Map<Seq<char>, i64>, p: Map<Seq<char>, i64>, id: Seq<char>) -> int {
    balance_in(b, id) + pending_in(p, id)
}

/// The pending changes after `id` moves by `change`.
pub open spec fn pending_moved(p: Map<Seq<char>, i64>, id: Seq<char>, change: int) -> Map<
    Seq<char>,
    i64,
> {
    p.insert(id, (pending_in(p, id) + change) as i64)
}

/// Whether `r` is the refusal of a transaction with the message `m`.
pub open spec fn is_refusal(r: LedgerResult<()>, m: Seq<char>) -> bool {
    r is Err && r->Err_0 is TransactionFailed && r->Err_0->TransactionFailed_0@ == m
}

/// Whether `r` is an insufficient-funds error for `id` holding `balance`
/// when `required` is needed.
pub open spec fn is_short(r: LedgerResult<()>, id: Seq<char>, balance: int, required: int) -> bool {
    r is Err && r->Err_0 is InsufficientFunds && r->Err_0->InsufficientFunds_account_id@ == id
        && r->Err_0->InsufficientFunds_balance == balance && r->Err_0->InsufficientFunds_required
        == required
}

/// A staged event moving `amount` from `from` to `to`, with sequence number `seq`.
pub open spec fn staged_move(seq: u64, from: Seq<char>, to: Seq<char>, amount: i64) -> EventView {
    EventView {
        sequence: seq,
        status: EventStatus::Staged,
        debit: Some((from, amount, EntryType::Debit)),
        credit: Some((to, amount, EntryType::Credit)),
    }
}

/// Events staged against a ledger, with the balance changes they make,
/// committed together or not at all.
#[derive(Debug)]
pub struct Transaction {
    staged_events: Vec<LedgerEvent>,
    pending_balances: Vec<Account>,
}

impl Transaction {
    #[verifier::type_invariant]
    spec fn wf(self) -> bool {
        distinct_ids(self.pending_balances@)
    }

    /// The staged events, as plain values.
    pub closed spec fn staged_spec(&self) -> Seq<EventView> {
        event_views(self.staged_events@)
    }

    /// The kinds of the staged events.
    pub closed spec fn staged_kinds(&self) -> Seq<LedgerEventKind> {
        self.staged_events@.map_values(|e: LedgerEvent| e.kind_spec())
    }

    /// The identifiers of the staged events, in order.
    pub closed spec fn staged_ids(&self) -> Seq<u128> {
        event_ids_of(self.staged_events@)
    }

    /// The pending balance changes, by account.
    pub closed spec fn pending_spec(&self) -> Map<Seq<char>, i64> {
        account_map(self.pending_balances@)
    }

    /// A transaction with nothing staged.
    pub fn new() -> (t: Transaction)
        ensures
            t.staged_spec() == Seq::<EventView>::empty(),
            t.pending_spec() == Map::<Seq<char>, i64>::empty(),
    {
        let t = Transaction { staged_events: Vec::new(), pending_balances: Vec::new() };
        proof {
            assert(event_views(t.staged_events@) =~= Seq::<EventView>::empty());
        }
        t
    }

    /// The balance of `id` seen by this transaction.
    fn get_effective_balance(&self, ledger: &Ledger, id: &String) -> (r: i64)
        requires
            i64::MIN <= effective_in(ledger.balances(), self.pending_spec(), id@) <= i64::MAX,
        ensures
            r == effective_in(ledger.balances(), self.pending_spec(), id@),
    {
        proof {
            use_type_invariant(self);
        }
        let base = ledger.get_account_balance(id.as_str());
        let pending = balance_of(&self.pending_balances, id);
        base + pending
    }

    /// Moves the pending balance of `id` by `change`.
    fn update_pending_balance(&mut self, id: &String, change: i64)
        requires
            i64::MIN <= pending_in(old(self).pending_spec(), id@) + change <= i64::MAX,
        ensures
            final(self).pending_spec() == pending_moved(old(self).pending_spec(), id@, change as int),
            final(self).staged_spec() == old(self).staged_spec(),
            final(self).staged_kinds() == old(self).staged_kinds(),
    {
        proof {
            use_type_invariant(&*self);
        }
        let current = balance_of(&self.pending_balances, id);
        let mut pending: Vec<Account> = Vec::new();
        std::mem::swap(&mut pending, &mut self.pending_balances);
        set_balance(&mut pending, id, current + change);
        self.pending_balances = pending;
    }

    /// Stages an event moving `amount` from `from` to `to`.
    fn stage_move(&mut self, seq: u64, kind: LedgerEventKind, from: String, to: String, amount: i64)
        ensures
            final(self).pending_spec() == old(self).pending_spec(),
            final(self).staged_spec() == old(self).staged_spec().push(
                staged_move(seq, from@, to@, amount),
            ),
            final(self).staged_kinds() == old(self).staged_kinds().push(kind),
    {
        let marker = LedgerEvent::new(seq, kind.duplicate(), None, None);
        let event_id = marker.id();
        let debit_entry = LedgerEntry::new(from, amount, event_id, EntryType::Debit);
        let credit_entry = LedgerEntry::new(to, amount, event_id, EntryType::Credit);
        let event = LedgerEvent::new(seq, kind, Some(debit_entry), Some(credit_entry));
        proof {
            use_type_invariant(&*self);
        }
        let mut staged: Vec<LedgerEvent> = Vec::new();
        std::mem::swap(&mut staged, &mut self.staged_events);
        staged.push(event);
        self.staged_events = staged;
        proof {
            assert(event_views(self.staged_events@) =~= event_views(old(self).staged_events@).push(
                event.view_event(),
            ));
            assert(self.staged_events@.map_values(|e: LedgerEvent| e.kind_spec()) =~= old(
                self,
            ).staged_events@.map_values(|e: LedgerEvent| e.kind_spec()).push(event.kind_spec()));
        }
    }

    /// Stages minting `credits_to_mint` credits into `account_id`, taken
    /// from the platform reserve: refused for zero credits, and when the
    /// reserve, with what is pending, holds less.
    pub fn mint(
        &mut self,
        ledger: &Ledger,
        account_id: &str,
        credits_to_mint: u64,
        reason: String,
        memo: Option<String>,
    ) -> (r: LedgerResult<()>)
        requires
            ledger.next_sequence_spec() + old(self).staged_spec().len() <= u64::MAX,
            credits_to_mint as i64 != i64::MIN,
            i64::MIN <= effective_in(ledger.balances(), old(self).pending_spec(), PLATFORM_RESERVE_ACCOUNT@)
                <= i64::MAX,
            i64::MIN <= pending_in(old(self).pending_spec(), PLATFORM_RESERVE_ACCOUNT@) - (
            credits_to_mint as i64) <= i64::MAX,
            i64::MIN <= pending_in(
                pending_moved(
                    old(self).pending_spec(),
                    PLATFORM_RESERVE_ACCOUNT@,
                    -(credits_to_mint as i64),
                ),
                account_id@,
            ) + (credits_to_mint as i64) <= i64::MAX,
        ensures
            ({
                let amount = credits_to_mint as i64;
                let p = old(self).pending_spec();
                let reserve = effective_in(ledger.balances(), p, PLATFORM_RESERVE_ACCOUNT@);
                &&& credits_to_mint == 0 ==> is_refusal(r, "Cannot mint zero credits"@) && *final(self)
                    == *old(self)
                &&& credits_to_mint != 0 && reserve < amount ==> is_short(
                    r,
                    PLATFORM_RESERVE_ACCOUNT@,
                    reserve,
                    amount as int,
                ) && *final(self) == *old(self)
                &&& credits_to_mint != 0 && reserve >= amount ==> {
                    &&& r is Ok
                    &&& final(self).pending_spec() == pending_moved(
                        pending_moved(p, PLATFORM_RESERVE_ACCOUNT@, -amount),
                        account_id@,
                        amount as int,
                    )
                    &&& final(self).staged_spec() == old(self).staged_spec().push(
                        staged_move(
                            (ledger.next_sequence_spec() + old(self).staged_spec().len()) as u64,
                            PLATFORM_RESERVE_ACCOUNT@,
                            account_id@,
                            amount,
                        ),
                    )
                    &&& final(self).staged_kinds() == old(self).staged_kinds().push(
                        LedgerEventKind::Mint { credits: credits_to_mint, reason, memo },
                    )
                }
            }),
    {
        if credits_to_mint == 0 {
            return Err(LedgerError::TransactionFailed("Cannot mint zero credits".to_owned()));
        }
        let amount = credits_to_mint as i64;
        let reserve_id = PLATFORM_RESERVE_ACCOUNT.to_owned();
        let account = account_id.to_owned();
        let reserve_balance = self.get_effective_balance(ledger, &reserve_id);
        if reserve_balance < amount {
            return Err(
                LedgerError::InsufficientFunds {
                    account_id: reserve_id,
                    balance: reserve_balance,
                    required: amount,
                },
            );
        }
        self.update_pending_balance(&reserve_id, -amount);
        self.update_pending_balance(&account, amount);
        let seq = ledger.next_sequence() + self.staged_events.len() as u64;
        let kind = LedgerEventKind::Mint { credits: credits_to_mint, reason, memo };
        self.stage_move(seq, kind, reserve_id, account, amount);
        Ok(())
    }

    /// Stages burning `credits_to_cashout` credits from `account_id`, given
    /// back to the platform reserve: refused for zero credits, and when the
    /// account, with what is pending, holds less.
    pub fn burn(
        &mut self,
        ledger: &Ledger,
        account_id: &str,
        credits_to_cashout: u64,
        reason: String,
        memo: Option<String>,
    ) -> (r: LedgerResult<()>)
        requires
            ledger.next_sequence_spec() + old(self).staged_spec().len() <= u64::MAX,
            credits_to_cashout as i64 != i64::MIN,
            i64::MIN <= effective_in(ledger.balances(), old(self).pending_spec(), account_id@)
                <= i64::MAX,
            i64::MIN <= pending_in(old(self).pending_spec(), account_id@) - (
            credits_to_cashout as i64) <= i64::MAX,
            i64::MIN <= pending_in(
                pending_moved(old(self).pending_spec(), account_id@, -(credits_to_cashout as i64)),
                PLATFORM_RESERVE_ACCOUNT@,
            ) + (credits_to_cashout as i64) <= i64::MAX,
        ensures
            ({
                let amount = credits_to_cashout as i64;
                let p = old(self).pending_spec();
                let held = effective_in(ledger.balances(), p, account_id@);
                &&& credits_to_cashout == 0 ==> is_refusal(r, "Cannot burn zero credits"@) && *final(self) == *old(self)
                &&& credits_to_cashout != 0 && held < amount ==> is_short(
                    r,
                    account_id@,
                    held,
                    amount as int,
                ) && *final(self) == *old(self)
                &&& credits_to_cashout != 0 && held >= amount ==> {
                    &&& r is Ok
                    &&& final(self).pending_spec() == pending_moved(
                        pending_moved(p, account_id@, -amount),
                        PLATFORM_RESERVE_ACCOUNT@,
                        amount as int,
                    )
                    &&& final(self).staged_spec() == old(self).staged_spec().push(
                        staged_move(
                            (ledger.next_sequence_spec() + old(self).staged_spec().len()) as u64,
                            account_id@,
                            PLATFORM_RESERVE_ACCOUNT@,
                            amount,
                        ),
                    )
                    &&& final(self).staged_kinds() == old(self).staged_kinds().push(
                        LedgerEventKind::Burn { credits: credits_to_cashout, reason, memo },
                    )
                }
            }),
    {
        if credits_to_cashout == 0 {
            return Err(LedgerError::TransactionFailed("Cannot burn zero credits".to_owned()));
        }
        let amount = credits_to_cashout as i64;
        let reserve_id = PLATFORM_RESERVE_ACCOUNT.to_owned();
        let account = account_id.to_owned();
        let balance = self.get_effective_balance(ledger, &account);
        if balance < amount {
            return Err(
                LedgerError::InsufficientFunds { account_id: account, balance, required: amount },
            );
        }
        self.update_pending_balance(&account, -amount);
        self.update_pending_balance(&reserve_id, amount);
        let seq = ledger.next_sequence() + self.staged_events.len() as u64;
        let kind = LedgerEventKind::Burn { credits: credits_to_cashout, reason, memo };
        self.stage_move(seq, kind, account, reserve_id, amount);
        Ok(())
    }

    /// Stages moving `credits_to_transfer` credits from `from` to `to`:
    /// refused between an account and itself, for zero credits, and when
    /// `from`, with what is pending, holds less.
    pub fn transfer(
        &mut self,
        ledger: &Ledger,
        from: &str,
        to: &str,
        credits_to_transfer: u64,
        reason: String,
        memo: Option<String>,
    ) -> (r: LedgerResult<()>)
        requires
            ledger.next_sequence_spec() + old(self).staged_spec().len() <= u64::MAX,
            credits_to_transfer as i64 != i64::MIN,
            i64::MIN <= effective_in(ledger.balances(), old(self).pending_spec(), from@) <= i64::MAX,
            i64::MIN <= pending_in(old(self).pending_spec(), from@) - (credits_to_transfer as i64)
                <= i64::MAX,
            i64::MIN <= pending_in(
                pending_moved(old(self).pending_spec(), from@, -(credits_to_transfer as i64)),
                to@,
            ) + (credits_to_transfer as i64) <= i64::MAX,
        ensures
            ({
                let amount = credits_to_transfer as i64;
                let p = old(self).pending_spec();
                let held = effective_in(ledger.balances(), p, from@);
                &&& from@ == to@ ==> is_refusal(r, "Cannot transfer to the same account"@) && *final(self) == *old(self)
                &&& from@ != to@ && credits_to_transfer == 0 ==> is_refusal(
                    r,
                    "Cannot transfer zero credits"@,
                ) && *final(self) == *old(self)
                &&& from@ != to@ && credits_to_transfer != 0 && held < amount ==> is_short(
                    r,
                    from@,
                    held,
                    amount as int,
                ) && *final(self) == *old(self)
                &&& from@ != to@ && credits_to_transfer != 0 && held >= amount ==> {
                    &&& r is Ok
                    &&& final(self).pending_spec() == pending_moved(
                        pending_moved(p, from@, -amount),
                        to@,
                        amount as int,
                    )
                    &&& final(self).staged_spec() == old(self).staged_spec().push(
                        staged_move(
                            (ledger.next_sequence_spec() + old(self).staged_spec().len()) as u64,
                            from@,
                            to@,
                            amount,
                        ),
                    )
                    &&& final(self).staged_kinds() == old(self).staged_kinds().push(
                        LedgerEventKind::Transfer {
                            from: final(self).staged_kinds().last()->Transfer_from,
                            to: final(self).staged_kinds().last()->Transfer_to,
                            credits: credits_to_transfer,
                            reason,
                            memo,
                        },
                    )
                    &&& final(self).staged_kinds().last()->Transfer_from@ == from@
                    &&& final(self).staged_kinds().last()->Transfer_to@ == to@
                }
            }),
    {
        let from_id = from.to_owned();
        let to_id = to.to_owned();
        if from_id == to_id {
            return Err(
                LedgerError::TransactionFailed("Cannot transfer to the same account".to_owned()),
            );
        }
        if credits_to_transfer == 0 {
            return Err(LedgerError::TransactionFailed("Cannot transfer zero credits".to_owned()));
        }
        let amount = credits_to_transfer as i64;
        let balance = self.get_effective_balance(ledger, &from_id);
        if balance < amount {
            return Err(
                LedgerError::InsufficientFunds { account_id: from_id, balance, required: amount },
            );
        }
        self.update_pending_balance(&from_id, -amount);
        self.update_pending_balance(&to_id, amount);
        let seq = ledger.next_sequence() + self.staged_events.len() as u64;
        let kind = LedgerEventKind::Transfer {
            from: from_id.clone(),
            to: to_id.clone(),
            credits: credits_to_transfer,
            reason,
            memo,
        };
        self.stage_move(seq, kind, from_id, to_id, amount);
        Ok(())
    }

    /// Commits the staged events in order: each is marked committed, written
    /// to the write-ahead log of `storage`, then applied to `ledger`. The
    /// first failure stops the commit; the identifiers of the committed
    /// events are returned.
    pub fn commit<S: WALStorage>(self, ledger: &mut Ledger, storage: &mut S) -> (r: LedgerResult<
        Vec<u128>,
    >)
        requires
            commit_fits(old(ledger).balances(), old(ledger).events_spec().len() as int, self.staged_spec()),
        ensures
            self.staged_spec().len() == 0 ==> r is Ok && final(ledger).events_spec() == old(
                ledger,
            ).events_spec() && final(ledger).balances() == old(ledger).balances(),
            r is Err ==> {
                let done = final(ledger).events_spec().len() - old(ledger).events_spec().len();
                &&& r->Err_0 is StorageError
                &&& 0 <= done < self.staged_spec().len()
                &&& final(ledger).events_spec() == old(ledger).events_spec()
                    + self.staged_spec().map_values(|ev: EventView| committed_view(ev)).take(done)
            },
            r is Ok ==> final(ledger).event_ids() == old(ledger).event_ids() + self.staged_ids(),
            r is Err ==> final(ledger).event_ids() == old(ledger).event_ids() + self.staged_ids().take(
                final(ledger).event_ids().len() - old(ledger).event_ids().len(),
            ),
            r is Ok ==> {
                &&& r->Ok_0@ == self.staged_ids()
                &&& r->Ok_0@.len() == self.staged_spec().len()
                &&& final(ledger).events_spec() == old(ledger).events_spec() + self.staged_spec().map_values(
                    |ev: EventView| committed_view(ev),
                )
                &&& final(ledger).balances() == balances_after(
                    old(ledger).balances(),
                    self.staged_spec().map_values(|ev: EventView| committed_view(ev)),
                )
            },
    {
        let ghost all = self.staged_spec();
        let ghost committed = all.map_values(|ev: EventView| committed_view(ev));
        let ghost b0 = ledger.balances();
        let ghost e0 = ledger.events_spec();
        let ghost all_ids = self.staged_ids();
        let events = self.staged_events;
        let n = events.len();
        let mut ids: Vec<u128> = Vec::new();
        let mut i: usize = 0;
        proof {
            assert(all.skip(0) =~= all);
            assert(committed.skip(0) =~= committed);
            assert(e0 + committed.take(0) =~= e0);
        }
        while i < n
            invariant
                i <= n,
                n == all.len(),
                committed == all.map_values(|ev: EventView| committed_view(ev)),
                events@.len() == n,
                all == event_views(events@),
                ids@.len() == i,
                all == self.staged_spec(),
                all_ids == self.staged_ids(),
                e0 == old(ledger).events_spec(),
                ledger.event_ids() == old(ledger).event_ids() + all_ids.take(i as int),
                all_ids == event_ids_of(events@),
                ids@ == all_ids.take(i as int),
                commit_fits(ledger.balances(), ledger.events_spec().len() as int, all.skip(i as int)),
                ledger.events_spec() == e0 + committed.take(i as int),
                balances_after(b0, committed) == balances_after(ledger.balances(), committed.skip(i as int)),
            decreases n - i,
        {
            let event = events[i].duplicate();
            let committed_event = event.commit();
            proof {
                assert(all.skip(i as int)[0] == all[i as int]);
                assert(all.skip(i as int).skip(1) =~= all.skip(i + 1));
                assert(committed.skip(i as int)[0] == committed_view(all[i as int]));
                assert(committed.skip(i as int).skip(1) =~= committed.skip(i + 1));
            }
            let event_id = committed_event.id();
            let wal_entry = WALEntry::new(committed_event.sequence(), committed_event.duplicate());
            match storage.append_to_wal(wal_entry) {
                Ok(()) => {},
                Err(e) => {
                    proof {
                        assert(committed.take(i as int).len() == i);
                        assert(ledger.events_spec().len() - e0.len() == i);
                        assert(all_ids.take(i as int).len() == i);
                        assert(ledger.event_ids().len() - old(ledger).event_ids().len() == i);

                    }
                    return Err(LedgerError::StorageError(e.to_text()));
                },
            }
            match ledger.apply_committed_event(committed_event) {
                Ok(()) => {},
                Err(e) => {
                    let text = e.to_text();
                    let message = join_text(
                        "Failed to apply committed event after WAL write: ",
                        text.as_str(),
                    );
                    proof {
                        assert(committed.take(i as int).len() == i);
                        assert(ledger.events_spec().len() - e0.len() == i);
                        assert(all_ids.take(i as int).len() == i);
                        assert(ledger.event_ids().len() - old(ledger).event_ids().len() == i);

                    }
                    return Err(LedgerError::StorageError(message));
                },
            }
            proof {
                assert(committed.take(i + 1) =~= committed.take(i as int).push(committed[i as int]));
                assert(all_ids.take(i + 1) =~= all_ids.take(i as int).push(all_ids[i as int]));
                assert(events@[i as int].id_spec() == all_ids[i as int]);
            }
            ids.push(event_id);
            i = i + 1;
        }
        proof {
            assert(committed.take(n as int) =~= committed);
            assert(committed.skip(n as int) =~= Seq::<EventView>::empty());
            assert(all_ids.take(n as int) =~= all_ids);
        }
        Ok(ids)
    }

    /// Drops the transaction: nothing was written.
    pub fn rollback(self) -> (r: LedgerResult<()>)
        ensures
            r is Ok,
    {
        Ok(())
    }

    /// The number of staged events.
    pub fn staged_count(&self) -> (n: usize)
        ensures
            n == self.staged_spec().len(),
    {
        self.staged_events.len()
    }

    /// The pending balance changes, account by account.
    pub fn pending_balances(&self) -> (r: Vec<(String, i64)>)
        ensures
            forall|i: int| 0 <= i < r@.len() ==> #[trigger] self.pending_spec().contains_key(r@[i].0@)
                && self.pending_spec()[r@[i].0@] == r@[i].1,
            forall|k: Seq<char>| #[trigger] self.pending_spec().contains_key(k) ==> exists|i: int|
                0 <= i < r@.len() && r@[i].0@ == k,
    {
        proof {
            use_type_invariant(self);
        }
        let mut out: Vec<(String, i64)> = Vec::new();
        let mut i: usize = 0;
        while i < self.pending_balances.len()
            invariant
                i <= self.pending_balances@.len(),
                distinct_ids(self.pending_balances@),
                out@.len() == i,
                forall|j: int| 0 <= j < i ==> #[trigger] out@[j].0@ == self.pending_balances@[j].id@
                    && out@[j].1 == self.pending_balances@[j].balance,
            decreases self.pending_balances.len() - i,
        {
            out.push((self.pending_balances[i].id.clone(), self.pending_balances[i].balance));
            i = i + 1;
        }
        proof {
            assert forall|j: int| 0 <= j < out@.len() implies #[trigger] self.pending_spec().contains_key(
                out@[j].0@,
            ) && self.pending_spec()[out@[j].0@] == out@[j].1 by {
                lemma_account_lookup(self.pending_balances@, out@[j].0@);
            }
            assert forall|k: Seq<char>| #[trigger] self.pending_spec().contains_key(k) implies exists|
                j: int,
            | 0 <= j < out@.len() && out@[j].0@ == k by {
                lemma_account_lookup(self.pending_balances@, k);
                let j = choose|j: int| 0 <= j < self.pending_balances@.len() && self.pending_balances@[j].id@ == k;
                assert(out@[j].0@ == k);
            }
        }
        out
    }
}

} // verus!
