//! The on-device view of a user's ledger: local, optimistic accounting of
//! the user's transactions, reconciled with the server, whose balance is
//! authoritative. Identifiers are 128-bit values; times are milliseconds
//! since the Unix epoch.

use vstd::prelude::*;
use crate::support::{decimal, uuid_text, hex_char};
use vstd::string::StrSliceExecFns;

verus! {

#[verifier::external_type_specification]
#[verifier::external_body]
pub struct ExDecimal(rust_decimal::Decimal);

/// Kinds of transactions in a user's ledger.
#[derive(Debug, Clone, Copy, PartialEq, Eq, Structural, Hash)]
pub enum TransactionType {
    /// Credits bought with real money.
    CreditPurchase,
    /// Content unlocked from a creator.
    ContentUnlock,
    /// A creator cashed credits out.
    CreatorCashout,
    /// A platform fee.
    PlatformFee,
    /// An allocation to the creator empowerment fund.
    EmpowermentFundAllocation,
    /// Bonus credits awarded.
    BonusCredits,
    /// A refund.
    Refund,
}

/// Whether a transaction of this kind adds to the user's balance.
pub open spec fn is_credit(t: TransactionType) -> bool {
    t == TransactionType::CreditPurchase || t == TransactionType::BonusCredits || t
        == TransactionType::Refund
}

/// A fee applied to a transaction.
#[derive(Debug, Clone, PartialEq)]
pub struct FeeApplication {
    /// Kind of fee.
    pub fee_type: String,
    /// Amount in credits.
    pub amount_credits: u64,
    /// Rate, when the fee is a percentage.
    pub percentage_rate: Option<rust_decimal::Decimal>,
    /// Who receives the fee.
    pub recipient: String,
}

/// One transaction as the user's device records it.
#[derive(Debug, Clone, PartialEq)]
pub struct UserLedgerEntry {
    pub transaction_id: u128,
    pub counterparty_id: u128,
    pub amount_credits: u64,
    pub transaction_type: TransactionType,
    pub timestamp: i64,
    pub local_balance_after: u64,
    pub synced_to_server: bool,
    pub content_id: Option<u128>,
    pub fees_applied: Option<Vec<FeeApplication>>,
    pub description: Option<String>,
}

/// What a device sends the server to reconcile its ledger.
#[derive(Debug, Clone, PartialEq)]
pub struct LedgerSyncRequest {
    pub user_id: u128,
    pub pending_transactions: Vec<UserLedgerEntry>,
    pub local_balance_credits: u64,
    pub last_sync_timestamp: Option<i64>,
    pub local_checksum: Option<String>,
}

/// What the server answers to a reconciliation.
#[derive(Debug, Clone, PartialEq)]
pub struct LedgerSyncResponse {
    pub success: bool,
    pub server_balance_credits: u64,
    pub rejected_transactions: Vec<u128>,
    pub missing_transactions: Vec<UserLedgerEntry>,
    pub updated_checksum: Option<String>,
    pub error_message: Option<String>,
}

/// A user's ledger as the device keeps it.
#[derive(Debug, Clone, PartialEq)]
pub struct UserLedger {
    pub user_id: u128,
    pub current_balance_credits: u64,
    pub transactions: Vec<UserLedgerEntry>,
    pub last_sync_timestamp: Option<i64>,
    pub pending_sync_count: u32,
    pub ledger_checksum: Option<String>,
}

/// The lowercase hex digits of `n`, without leading zeros.
pub open spec fn hex_number(n: nat) -> Seq<char>
    decreases n,
{
    if n < 16 {
        seq![hex_char(n as int)]
    } else {
        hex_number(n / 16) + seq![hex_char((n % 16) as int)]
    }
}

/// The text of a hex digit, lowercase.
fn hex_digit_text(d: u64) -> (s: &'static str)
    requires
        d < 16,
    ensures
        s@ == seq![hex_char(d as int)],
{
    proof {
        reveal_strlit("0");
        reveal_strlit("1");
        reveal_strlit("2");
        reveal_strlit("3");
        reveal_strlit("4");
        reveal_strlit("5");
        reveal_strlit("6");
        reveal_strlit("7");
        reveal_strlit("8");
        reveal_strlit("9");
        reveal_strlit("a");
        reveal_strlit("b");
        reveal_strlit("c");
        reveal_strlit("d");
        reveal_strlit("e");
        reveal_strlit("f");
    }
    if d == 0 {
        "0"
    } else if d == 1 {
        "1"
    } else if d == 2 {
        "2"
    } else if d == 3 {
        "3"
    } else if d == 4 {
        "4"
    } else if d == 5 {
        "5"
    } else if d == 6 {
        "6"
    } else if d == 7 {
        "7"
    } else if d == 8 {
        "8"
    } else if d == 9 {
        "9"
    } else if d == 10 {
        "a"
    } else if d == 11 {
        "b"
    } else if d == 12 {
        "c"
    } else if d == 13 {
        "d"
    } else if d == 14 {
        "e"
    } else {
        "f"
    }
}

/// The lowercase hex digits of `n` without leading zeros, as
/// `format!("{:x}", n)` writes them.
fn hex_number_text(n: u64) -> (r: String)
    ensures
        r@ == hex_number(n as nat),
    decreases n,
{
    if n < 16 {
        <String as vstd::string::StringExecFns>::from_str(hex_digit_text(n))
    } else {
        let prefix = hex_number_text(n / 16);
        <String as vstd::string::StringExecFns>::concat(prefix, hex_digit_text(n % 16))
    }
}

/// The checksum of a ledger: the hex length of `user:balance:count`.
pub open spec fn ledger_checksum_of(balance: u64, count: nat) -> Seq<char> {
    hex_number((36 + 1 + decimal(balance as nat).len() + 1 + decimal(count).len()) as nat)
}

/// A copy of a list of fees.
fn copy_fees(f: &Vec<FeeApplication>) -> (r: Vec<FeeApplication>)
    ensures
        r@ == f@,
{
    let mut out: Vec<FeeApplication> = Vec::new();
    let mut i: usize = 0;
    while i < f.len()
        invariant
            i <= f@.len(),
            out@ == f@.take(i as int),
        decreases f.len() - i,
    {
        let x = &f[i];
        out.push(
            FeeApplication {
                fee_type: x.fee_type.clone(),
                amount_credits: x.amount_credits,
                percentage_rate: x.percentage_rate,
                recipient: x.recipient.clone(),
            },
        );
        proof {
            assert(out@ =~= f@.take(i + 1));
        }
        i = i + 1;
    }
    proof {
        assert(f@.take(f@.len() as int) =~= f@);
    }
    out
}

/// The fees of an entry by their contents.
pub open spec fn fees_view(f: Option<Vec<FeeApplication>>) -> Option<Seq<FeeApplication>> {
    match f {
        Some(v) => Some(v@),
        None => None,
    }
}

/// Whether two entries hold the same values, the fees compared by contents.
pub open spec fn same_entry(a: UserLedgerEntry, b: UserLedgerEntry) -> bool {
    &&& a.transaction_id == b.transaction_id
    &&& a.counterparty_id == b.counterparty_id
    &&& a.amount_credits == b.amount_credits
    &&& a.transaction_type == b.transaction_type
    &&& a.timestamp == b.timestamp
    &&& a.local_balance_after == b.local_balance_after
    &&& a.synced_to_server == b.synced_to_server
    &&& a.content_id == b.content_id
    &&& fees_view(a.fees_applied) == fees_view(b.fees_applied)
    &&& a.description == b.description
}

impl UserLedgerEntry {
    /// A copy of the entry.
    pub fn duplicate(&self) -> (e: UserLedgerEntry)
        ensures
            same_entry(e, *self),
    {
        UserLedgerEntry {
            transaction_id: self.transaction_id,
            counterparty_id: self.counterparty_id,
            amount_credits: self.amount_credits,
            transaction_type: self.transaction_type,
            timestamp: self.timestamp,
            local_balance_after: self.local_balance_after,
            synced_to_server: self.synced_to_server,
            content_id: self.content_id,
            fees_applied: match &self.fees_applied {
                Some(f) => Some(copy_fees(f)),
                None => None,
            },
            description: match &self.description {
                Some(d) => Some(d.clone()),
                None => None,
            },
        }
    }
}

/// Whether an element of key `a` stays before one of key `k` inserted
/// after it: not later in time (ascending) or not earlier (descending).
pub open spec fn stays_before(a: i64, k: i64, desc: bool) -> bool {
    if desc {
        a >= k
    } else {
        a <= k
    }
}

/// How many leading positions of `order` stay before a key `k`.
pub open spec fn insertion_point(order: Seq<usize>, keys: Seq<i64>, k: i64, desc: bool) -> int
    decreases order.len(),
{
    if order.len() == 0 {
        0
    } else if stays_before(keys[order[0] as int], k, desc) {
        1 + insertion_point(order.drop_first(), keys, k, desc)
    } else {
        0
    }
}

/// The stable order of the first `n` positions of `keys`, ascending or
/// descending: each position is inserted after those that stay before it.
pub open spec fn stable_order(keys: Seq<i64>, n: int, desc: bool) -> Seq<usize>
    decreases n,
{
    if n <= 0 {
        Seq::empty()
    } else {
        let o = stable_order(keys, n - 1, desc);
        let p = insertion_point(o, keys, keys[n - 1], desc);
        o.take(p) + seq![(n - 1) as usize] + o.skip(p)
    }
}

proof fn lemma_insertion_point_bounds(order: Seq<usize>, keys: Seq<i64>, k: i64, desc: bool)
    ensures
        0 <= insertion_point(order, keys, k, desc) <= order.len(),
    decreases order.len(),
{
    if order.len() > 0 {
        lemma_insertion_point_bounds(order.drop_first(), keys, k, desc);
    }
}

proof fn lemma_stable_order_len(keys: Seq<i64>, n: int, desc: bool)
    requires
        0 <= n,
    ensures
        stable_order(keys, n, desc).len() == n,
        forall|j: int| 0 <= j < n ==> #[trigger] stable_order(keys, n, desc)[j] < n,
    decreases n,
{
    if n > 0 {
        lemma_stable_order_len(keys, n - 1, desc);
        let o = stable_order(keys, n - 1, desc);
        lemma_insertion_point_bounds(o, keys, keys[n - 1], desc);
        let p = insertion_point(o, keys, keys[n - 1], desc);
        let r = o.take(p) + seq![(n - 1) as usize] + o.skip(p);
        assert forall|j: int| 0 <= j < n implies #[trigger] r[j] < n by {
            if j < p {
                assert(r[j] == o[j]);
            } else if j > p {
                assert(r[j] == o[j - 1]);
            }
        }
    }
}

/// The stable order of the positions of `keys`, ascending or descending.
fn stable_sort_positions(keys: &Vec<i64>, desc: bool) -> (r: Vec<usize>)
    ensures
        r@ == stable_order(keys@, keys@.len() as int, desc),
        r@.len() == keys@.len(),
        forall|j: int| 0 <= j < r@.len() ==> #[trigger] r@[j] < keys@.len(),
{
    let mut order: Vec<usize> = Vec::new();
    let mut i: usize = 0;
    while i < keys.len()
        invariant
            i <= keys@.len(),
            order@ == stable_order(keys@, i as int, desc),
        decreases keys.len() - i,
    {
        let k = keys[i];
        proof {
            lemma_stable_order_len(keys@, i as int, desc);
        }
        let mut p: usize = 0;
        proof {
            assert(order@.skip(0) =~= order@);
        }
        while p < order.len()
            invariant
                p <= order@.len(),
                order@ == stable_order(keys@, i as int, desc),
                order@.len() == i,
                forall|j: int| 0 <= j < i ==> #[trigger] order@[j] < i,
                i < keys@.len(),
                k == keys@[i as int],
                insertion_point(order@, keys@, k, desc) == p + insertion_point(
                    order@.skip(p as int),
                    keys@,
                    k,
                    desc,
                ),
            ensures
                p <= order@.len(),
                insertion_point(order@, keys@, k, desc) == p + insertion_point(
                    order@.skip(p as int),
                    keys@,
                    k,
                    desc,
                ),
                p == order@.len() || !stays_before(keys@[order@[p as int] as int], k, desc),
            decreases order.len() - p,
        {
            let a = keys[order[p]];
            let stay = if desc {
                a >= k
            } else {
                a <= k
            };
            proof {
                assert(order@.skip(p as int).drop_first() =~= order@.skip(p + 1));
                assert(order@.skip(p as int)[0] == order@[p as int]);
            }
            if !stay {
                break;
            }
            p = p + 1;
        }
        proof {
            if p == order@.len() {
                assert(order@.skip(p as int) =~= Seq::<usize>::empty());
            } else {
                assert(order@.skip(p as int)[0] == order@[p as int]);
            }
        }
        order.insert(p, i);
        proof {
            assert(order@ =~= stable_order(keys@, i as int, desc).take(p as int) + seq![i] + stable_order(
                keys@,
                i as int,
                desc,
            ).skip(p as int));
        }
        i = i + 1;
    }
    proof {
        lemma_stable_order_len(keys@, keys@.len() as int, desc);
    }
    order
}

/// Sum of the amounts of the synced transactions of kind `t`.
pub open spec fn spent_on(txs: Seq<UserLedgerEntry>, t: TransactionType) -> int
    decreases txs.len(),
{
    if txs.len() == 0 {
        0
    } else {
        spent_on(txs.drop_last(), t) + if txs.last().synced_to_server && txs.last().transaction_type
            == t {
            txs.last().amount_credits as int
        } else {
            0
        }
    }
}

/// Whether a synced transaction of kind `t` exists.
pub open spec fn has_synced(txs: Seq<UserLedgerEntry>, t: TransactionType) -> bool {
    exists|i: int|
        0 <= i < txs.len() && #[trigger] txs[i].synced_to_server && txs[i].transaction_type == t
}

/// Sum of the fees of a transaction.
pub open spec fn fees_total(f: Option<Vec<FeeApplication>>) -> int {
    match f {
        Some(v) => fee_sum(v@),
        None => 0,
    }
}

/// Sum of fee amounts.
pub open spec fn fee_sum(s: Seq<FeeApplication>) -> int
    decreases s.len(),
{
    if s.len() == 0 {
        0
    } else {
        fee_sum(s.drop_last()) + s.last().amount_credits
    }
}

/// Net earnings of the synced content unlocks: each amount less its fees,
/// never below zero.
pub open spec fn earnings(txs: Seq<UserLedgerEntry>) -> int
    decreases txs.len(),
{
    if txs.len() == 0 {
        0
    } else {
        let tx = txs.last();
        earnings(txs.drop_last()) + if tx.synced_to_server && tx.transaction_type
            == TransactionType::ContentUnlock {
            if tx.amount_credits >= fees_total(tx.fees_applied) {
                tx.amount_credits - fees_total(tx.fees_applied)
            } else {
                0
            }
        } else {
            0
        }
    }
}

/// The fees of a transaction, none when it lists none.
pub open spec fn fee_list(tx: UserLedgerEntry) -> Seq<FeeApplication> {
    match tx.fees_applied {
        Some(v) => v@,
        None => Seq::empty(),
    }
}

/// Whether a transaction counts toward a creator's earnings: a synced
/// content unlock.
pub open spec fn counts_as_earning(tx: UserLedgerEntry) -> bool {
    tx.synced_to_server && tx.transaction_type == TransactionType::ContentUnlock
}

/// The smaller of two amounts.
pub open spec fn min_int(a: int, b: int) -> int {
    if a <= b {
        a
    } else {
        b
    }
}

/// Earnings add up over a ledger split in two.
pub proof fn law_earnings_add_up(a: Seq<UserLedgerEntry>, b: Seq<UserLedgerEntry>)
    ensures
        earnings(a + b) == earnings(a) + earnings(b),
    decreases b.len(),
{
    if b.len() == 0 {
        assert(a + b =~= a);
    } else {
        assert((a + b).drop_last() =~= a + b.drop_last());
        law_earnings_add_up(a, b.drop_last());
    }
}

/// A single transaction earns, when it is a synced content unlock, its
/// amount less its fees, and nothing once the fees reach the amount; any
/// other transaction earns nothing.
pub proof fn law_earnings_of_one(tx: UserLedgerEntry)
    ensures
        counts_as_earning(tx) ==> earnings(seq![tx]) + min_int(
            tx.amount_credits as int,
            fee_sum(fee_list(tx)),
        ) == tx.amount_credits,
        !counts_as_earning(tx) ==> earnings(seq![tx]) == 0,
{
    assert(seq![tx].drop_last() =~= Seq::<UserLedgerEntry>::empty());
    assert(earnings(Seq::<UserLedgerEntry>::empty()) == 0);
    assert(seq![tx].last() == tx);
    assert(fee_sum(Seq::<FeeApplication>::empty()) == 0);
    assert(fees_total(tx.fees_applied) == fee_sum(fee_list(tx)));
}

/// Adding a fee to one transaction of a ledger lowers the earnings by the
/// fee, or by what was left of that transaction's net amount when the fee
/// is larger; when the transaction is not a synced content unlock the
/// earnings do not change.
pub proof fn law_fee_lowers_earnings(
    txs: Seq<UserLedgerEntry>,
    i: int,
    with_fee: UserLedgerEntry,
    fee: FeeApplication,
)
    requires
        0 <= i < txs.len(),
        with_fee.amount_credits == txs[i].amount_credits,
        with_fee.synced_to_server == txs[i].synced_to_server,
        with_fee.transaction_type == txs[i].transaction_type,
        fee_list(with_fee) == fee_list(txs[i]).push(fee),
    ensures
        counts_as_earning(txs[i]) ==> earnings(txs.update(i, with_fee)) == earnings(txs) - min_int(
            fee.amount_credits as int,
            txs[i].amount_credits - min_int(txs[i].amount_credits as int, fee_sum(fee_list(txs[i]))),
        ),
        !counts_as_earning(txs[i]) ==> earnings(txs.update(i, with_fee)) == earnings(txs),
{
    let tx = txs[i];
    let pre = txs.take(i);
    let post = txs.skip(i + 1);
    assert(txs =~= pre + (seq![tx] + post));
    assert(txs.update(i, with_fee) =~= pre + (seq![with_fee] + post));
    law_earnings_add_up(pre, seq![tx] + post);
    law_earnings_add_up(seq![tx], post);
    law_earnings_add_up(pre, seq![with_fee] + post);
    law_earnings_add_up(seq![with_fee], post);
    law_earnings_of_one(tx);
    law_earnings_of_one(with_fee);
    assert(fee_list(tx).push(fee).drop_last() =~= fee_list(tx));
    assert(fee_sum(fee_list(with_fee)) == fee_sum(fee_list(tx)) + fee.amount_credits);
}

/// Whether every partial fee sum fits a `u64`.
pub open spec fn fees_fit(f: Option<Vec<FeeApplication>>) -> bool {
    match f {
        Some(v) => forall|n: int| 0 <= n <= v@.len() ==> #[trigger] fee_sum(v@.take(n)) <= u64::MAX,
        None => true,
    }
}

/// Whether the spending sums of every prefix fit a `u64`.
pub open spec fn spending_fits(txs: Seq<UserLedgerEntry>) -> bool {
    forall|n: int|
        0 <= n <= txs.len() ==> #[trigger] spent_on(txs.take(n), TransactionType::ContentUnlock)
            + spent_on(txs.take(n), TransactionType::CreatorCashout) + spent_on(
            txs.take(n),
            TransactionType::PlatformFee,
        ) <= u64::MAX
}

/// Whether the earnings of every prefix, and every fee sum, fit a `u64`.
pub open spec fn earnings_fit(txs: Seq<UserLedgerEntry>) -> bool {
    &&& forall|n: int| 0 <= n <= txs.len() ==> #[trigger] earnings(txs.take(n)) <= u64::MAX
    &&& forall|i: int| 0 <= i < txs.len() ==> fees_fit(#[trigger] txs[i].fees_applied)
}

/// The transactions after a successful reconciliation, before sorting: the
/// ones the server did not reject, marked synced, then the ones it sent.
pub open spec fn reconciled(txs: Seq<UserLedgerEntry>, rejected: Seq<u128>, missing: Seq<UserLedgerEntry>) -> Seq<
    UserLedgerEntry,
> {
    txs.filter(|tx: UserLedgerEntry| !rejected.contains(tx.transaction_id)).map_values(
        |tx: UserLedgerEntry| UserLedgerEntry { synced_to_server: true, ..tx },
    ) + missing
}

/// The timestamps of transactions.
pub open spec fn timestamps(txs: Seq<UserLedgerEntry>) -> Seq<i64> {
    txs.map_values(|tx: UserLedgerEntry| tx.timestamp)
}

/// The transactions in the given order of positions.
pub open spec fn in_order(txs: Seq<UserLedgerEntry>, order: Seq<usize>) -> Seq<UserLedgerEntry> {
    order.map_values(|i: usize| txs[i as int])
}

/// Number of transactions not yet synced.
pub open spec fn unsynced_count(txs: Seq<UserLedgerEntry>) -> nat
    decreases txs.len(),
{
    if txs.len() == 0 {
        0
    } else {
        unsynced_count(txs.drop_last()) + if txs.last().synced_to_server {
            0nat
        } else {
            1nat
        }
    }
}

impl UserLedger {
    /// An empty ledger for `user_id`.
    pub fn new(user_id: u128) -> (l: UserLedger)
        ensures
            l.user_id == user_id,
            l.current_balance_credits == 0,
            l.transactions@.len() == 0,
            l.last_sync_timestamp is None,
            l.pending_sync_count == 0,
            l.ledger_checksum is None,
    {
        UserLedger {
            user_id,
            current_balance_credits: 0,
            transactions: Vec::new(),
            last_sync_timestamp: None,
            pending_sync_count: 0,
            ledger_checksum: None,
        }
    }

    /// Recomputes the checksum: the hex length of `user:balance:count`.
    fn update_checksum(&mut self)
        ensures
            *final(self) == (UserLedger {
                ledger_checksum: final(self).ledger_checksum,
                ..*old(self)
            }),
            final(self).ledger_checksum matches Some(c) && c@ == ledger_checksum_of(
                old(self).current_balance_credits,
                old(self).transactions@.len(),
            ),
    {
        let user = uuid_text(self.user_id);
        let balance_digits = digit_count(self.current_balance_credits);
        let count_digits = digit_count(self.transactions.len() as u64);
        let length: u64 = (user.as_str().unicode_len() as u64) + 1 + balance_digits + 1 + count_digits;
        self.ledger_checksum = Some(hex_number_text(length));
    }

    /// Adds a transaction optimistically: purchases, bonuses and refunds add
    /// to the balance (saturating), other kinds take from it and are refused
    /// when the balance is lower. The entry records the new balance and is
    /// marked unsynced.
    pub fn add_transaction(&mut self, entry: UserLedgerEntry) -> (r: Result<(), String>)
        requires
            old(self).pending_sync_count < u32::MAX,
        ensures
            !is_credit(entry.transaction_type) && old(self).current_balance_credits
                < entry.amount_credits ==> r is Err && r->Err_0@ == "Insufficient balance for transaction"@
                && *final(self) == *old(self),
            is_credit(entry.transaction_type) || old(self).current_balance_credits
                >= entry.amount_credits ==> {
                let nb = if is_credit(entry.transaction_type) {
                    if old(self).current_balance_credits + entry.amount_credits > u64::MAX {
                        u64::MAX as int
                    } else {
                        old(self).current_balance_credits + entry.amount_credits
                    }
                } else {
                    old(self).current_balance_credits - entry.amount_credits
                };
                &&& r is Ok
                &&& final(self).current_balance_credits == nb
                &&& final(self).transactions@ == old(self).transactions@.push(
                    UserLedgerEntry {
                        local_balance_after: nb as u64,
                        synced_to_server: false,
                        ..entry
                    },
                )
                &&& final(self).pending_sync_count == old(self).pending_sync_count + 1
                &&& final(self).user_id == old(self).user_id
                &&& final(self).last_sync_timestamp == old(self).last_sync_timestamp
                &&& final(self).ledger_checksum matches Some(c) && c@ == ledger_checksum_of(
                    nb as u64,
                    old(self).transactions@.len() + 1,
                )
            },
    {
        let credit = match entry.transaction_type {
            TransactionType::CreditPurchase => true,
            TransactionType::BonusCredits => true,
            TransactionType::Refund => true,
            _ => false,
        };
        let new_balance = if credit {
            self.current_balance_credits.saturating_add(entry.amount_credits)
        } else {
            if self.current_balance_credits < entry.amount_credits {
                return Err("Insufficient balance for transaction".to_owned());
            }
            self.current_balance_credits - entry.amount_credits
        };
        let mut entry = entry;
        entry.local_balance_after = new_balance;
        entry.synced_to_server = false;
        self.transactions.push(entry);
        self.current_balance_credits = new_balance;
        self.pending_sync_count = self.pending_sync_count + 1;
        self.update_checksum();
        Ok(())
    }

    /// The transactions of kind `transaction_type` (all when `None`), most
    /// recent first (ties keep their order), at most `limit` of them.
    pub fn get_transaction_history(&self, transaction_type: Option<TransactionType>, limit: Option<usize>) -> (r:
        Vec<&UserLedgerEntry>)
        ensures
            ({
                let f = self.transactions@.filter(
                    |tx: UserLedgerEntry|
                        match transaction_type {
                            Some(t) => tx.transaction_type == t,
                            None => true,
                        },
                );
                let sorted = in_order(f, stable_order(timestamps(f), f.len() as int, true));
                let n = match limit {
                    Some(l) => if l < f.len() {
                        l as int
                    } else {
                        f.len() as int
                    },
                    None => f.len() as int,
                };
                &&& r@.len() == n
                &&& forall|j: int| 0 <= j < n ==> *#[trigger] r@[j] == sorted[j]
            }),
    {
        let ghost pred = |tx: UserLedgerEntry|
            match transaction_type {
                Some(t) => tx.transaction_type == t,
                None => true,
            };
        let mut filtered: Vec<&UserLedgerEntry> = Vec::new();
        let mut keys: Vec<i64> = Vec::new();
        let mut i: usize = 0;
        while i < self.transactions.len()
            invariant
                i <= self.transactions@.len(),
                pred == (|tx: UserLedgerEntry|
                    match transaction_type {
                        Some(t) => tx.transaction_type == t,
                        None => true,
                    }),
                filtered@.len() == self.transactions@.take(i as int).filter(pred).len(),
                forall|j: int| 0 <= j < filtered@.len() ==> *#[trigger] filtered@[j] == self.transactions@.take(
                    i as int,
                ).filter(pred)[j],
                keys@ == timestamps(self.transactions@.take(i as int).filter(pred)),
            decreases self.transactions.len() - i,
        {
            let tx = &self.transactions[i];
            proof {
                assert(self.transactions@.take(i + 1) =~= self.transactions@.take(i as int).push(
                    self.transactions@[i as int],
                ));
                self.transactions@.take(i as int).lemma_filter_push(self.transactions@[i as int], pred);
            }
            let keep = match transaction_type {
                Some(t) => tx.transaction_type == t,
                None => true,
            };
            if keep {
                filtered.push(tx);
                keys.push(tx.timestamp);
                proof {
                    let fs = self.transactions@.take(i + 1).filter(pred);
                    assert(timestamps(fs) =~= timestamps(self.transactions@.take(i as int).filter(pred)).push(
                        tx.timestamp,
                    ));
                }
            }
            i = i + 1;
        }
        proof {
            assert(self.transactions@.take(self.transactions@.len() as int) =~= self.transactions@);
        }
        let ghost f = self.transactions@.filter(pred);
        let order = stable_sort_positions(&keys, true);
        let n = match limit {
            Some(l) => if l < filtered.len() {
                l
            } else {
                filtered.len()
            },
            None => filtered.len(),
        };
        let mut out: Vec<&UserLedgerEntry> = Vec::new();
        let mut j: usize = 0;
        while j < n
            invariant
                j <= n,
                n <= order@.len(),
                order@.len() == filtered@.len(),
                forall|q: int| 0 <= q < order@.len() ==> #[trigger] order@[q] < filtered@.len(),
                out@.len() == j,
                forall|q: int| 0 <= q < j ==> *#[trigger] out@[q] == *filtered@[order@[q] as int],
            decreases n - j,
        {
            out.push(filtered[order[j]]);
            j = j + 1;
        }
        proof {
            assert forall|q: int| 0 <= q < n implies *#[trigger] out@[q] == in_order(
                f,
                stable_order(timestamps(f), f.len() as int, true),
            )[q] by {
                assert(order@[q] < filtered@.len());
            }
        }
        out
    }

    /// The transactions not yet synced, in order.
    pub fn get_pending_transactions(&self) -> (r: Vec<&UserLedgerEntry>)
        ensures
            r@.len() == self.transactions@.filter(|tx: UserLedgerEntry| !tx.synced_to_server).len(),
            forall|j: int| 0 <= j < r@.len() ==> *#[trigger] r@[j] == self.transactions@.filter(
                |tx: UserLedgerEntry| !tx.synced_to_server,
            )[j],
    {
        let ghost pred = |tx: UserLedgerEntry| !tx.synced_to_server;
        let mut out: Vec<&UserLedgerEntry> = Vec::new();
        let mut i: usize = 0;
        while i < self.transactions.len()
            invariant
                i <= self.transactions@.len(),
                pred == (|tx: UserLedgerEntry| !tx.synced_to_server),
                out@.len() == self.transactions@.take(i as int).filter(pred).len(),
                forall|j: int| 0 <= j < out@.len() ==> *#[trigger] out@[j] == self.transactions@.take(
                    i as int,
                ).filter(pred)[j],
            decreases self.transactions.len() - i,
        {
            let tx = &self.transactions[i];
            proof {
                assert(self.transactions@.take(i + 1) =~= self.transactions@.take(i as int).push(
                    self.transactions@[i as int],
                ));
                self.transactions@.take(i as int).lemma_filter_push(self.transactions@[i as int], pred);
            }
            if !tx.synced_to_server {
                out.push(tx);
            }
            i = i + 1;
        }
        proof {
            assert(self.transactions@.take(self.transactions@.len() as int) =~= self.transactions@);
        }
        out
    }

    /// The request that reconciles this ledger: the pending transactions,
    /// the local balance, the last sync time and the checksum.
    pub fn prepare_sync_request(&self) -> (r: LedgerSyncRequest)
        ensures
            r.user_id == self.user_id,
            r.pending_transactions@.len() == self.transactions@.filter(
                |tx: UserLedgerEntry| !tx.synced_to_server,
            ).len(),
            forall|j: int|
                0 <= j < r.pending_transactions@.len() ==> same_entry(
                    #[trigger] r.pending_transactions@[j],
                    self.transactions@.filter(|tx: UserLedgerEntry| !tx.synced_to_server)[j],
                ),
            r.local_balance_credits == self.current_balance_credits,
            r.last_sync_timestamp == self.last_sync_timestamp,
            r.local_checksum == self.ledger_checksum,
    {
        let pending = self.get_pending_transactions();
        let mut copies: Vec<UserLedgerEntry> = Vec::new();
        let mut i: usize = 0;
        while i < pending.len()
            invariant
                i <= pending@.len(),
                copies@.len() == i,
                forall|j: int| 0 <= j < i ==> same_entry(#[trigger] copies@[j], *pending@[j]),
            decreases pending.len() - i,
        {
            copies.push(pending[i].duplicate());
            i = i + 1;
        }
        LedgerSyncRequest {
            user_id: self.user_id,
            pending_transactions: copies,
            local_balance_credits: self.current_balance_credits,
            last_sync_timestamp: self.last_sync_timestamp,
            local_checksum: match &self.ledger_checksum {
                Some(c) => Some(c.clone()),
                None => None,
            },
        }
    }

    /// Applies the server's answer. A failed reconciliation is reported
    /// with the server's message (or "Sync failed"). Otherwise the
    /// transactions the server rejected are dropped, the others marked
    /// synced, the ones it sent added, all sorted by time (ties keep their
    /// order); the server's balance and checksum are taken as they are.
    pub fn process_sync_response(&mut self, response: LedgerSyncResponse) -> (r: Result<(), String>)
        ensures
            !response.success ==> r is Err && r->Err_0@ == match response.error_message {
                Some(m) => m@,
                None => "Sync failed"@,
            } && *final(self) == *old(self),
            response.success ==> {
                let merged = reconciled(
                    old(self).transactions@,
                    response.rejected_transactions@,
                    response.missing_transactions@,
                );
                &&& r is Ok
                &&& final(self).transactions@ == in_order(
                    merged,
                    stable_order(timestamps(merged), merged.len() as int, false),
                )
                &&& final(self).current_balance_credits == response.server_balance_credits
                &&& final(self).ledger_checksum == response.updated_checksum
                &&& final(self).last_sync_timestamp is Some
                &&& final(self).pending_sync_count == (unsynced_count(final(self).transactions@)
                    % 0x1_0000_0000)
                &&& final(self).user_id == old(self).user_id
            },
    {
        if !response.success {
            return match response.error_message {
                Some(m) => Err(m),
                None => Err("Sync failed".to_owned()),
            };
        }
        let ghost rejected = response.rejected_transactions@;
        let ghost pred = |tx: UserLedgerEntry| !rejected.contains(tx.transaction_id);
        let ghost mark = |tx: UserLedgerEntry| UserLedgerEntry { synced_to_server: true, ..tx };
        let ghost orig = self.transactions@;
        let mut rest: Vec<UserLedgerEntry> = Vec::new();
        std::mem::swap(&mut rest, &mut self.transactions);
        let mut kept: Vec<UserLedgerEntry> = Vec::new();
        let ghost mut i: int = 0;
        while rest.len() > 0
            invariant
                0 <= i <= orig.len(),
                rest@ == orig.skip(i),
                rejected == response.rejected_transactions@,
                pred == (|tx: UserLedgerEntry| !rejected.contains(tx.transaction_id)),
                mark == (|tx: UserLedgerEntry| UserLedgerEntry { synced_to_server: true, ..tx }),
                kept@ == orig.take(i).filter(pred).map_values(mark),
            decreases rest.len(),
        {
            proof {
                assert(orig.skip(i)[0] == orig[i]);
                assert(orig.skip(i).len() > 0);
            }
            let mut tx = rest.remove(0);
            proof {
                assert(orig.take(i + 1) =~= orig.take(i).push(orig[i]));
                orig.take(i).lemma_filter_push(orig[i], pred);
                assert(rest@ =~= orig.skip(i + 1));
            }
            if !contains_id(&response.rejected_transactions, tx.transaction_id) {
                tx.synced_to_server = true;
                kept.push(tx);
                proof {
                    let fs = orig.take(i).filter(pred);
                    assert(fs.push(orig[i]).map_values(mark) =~= fs.map_values(mark).push(mark(orig[i])));
                }
            }
            proof {
                i = i + 1;
            }
        }
        proof {
            assert(i == orig.len());
            assert(orig.take(i) =~= orig);
        }
        let mut missing = response.missing_transactions;
        kept.append(&mut missing);
        let count = kept.len();
        let ghost items = kept@;
        proof {
            assert(items.len() == count);
        }
        let ghost keys = timestamps(items);
        let mut rest = kept;
        let mut sorted: Vec<UserLedgerEntry> = Vec::new();
        let ghost mut n: int = 0;
        while rest.len() > 0
            invariant
                0 <= n <= items.len(),
                items.len() <= usize::MAX,
                keys == timestamps(items),
                rest@ == items.skip(n),
                sorted@ == in_order(items, stable_order(keys, n, false)),
            decreases rest.len(),
        {
            proof {
                assert(items.skip(n)[0] == items[n]);
                assert(items.skip(n).len() > 0);
                lemma_stable_order_len(keys, n, false);
            }
            let x = rest.remove(0);
            proof {
                assert(rest@ =~= items.skip(n + 1));
            }
            let k = x.timestamp;
            let ghost o = stable_order(keys, n, false);
            let mut p: usize = 0;
            proof {
                assert(o.skip(0) =~= o);
            }
            while p < sorted.len()
                invariant
                    p <= sorted@.len(),
                    o.len() == n,
                    forall|j: int| 0 <= j < n ==> #[trigger] o[j] < n,
                    n < items.len(),
                    items.len() <= usize::MAX,
                    keys == timestamps(items),
                    sorted@ == in_order(items, o),
                    k == keys[n],
                    insertion_point(o, keys, k, false) == p + insertion_point(o.skip(p as int), keys, k, false),
                ensures
                    p <= sorted@.len(),
                    insertion_point(o, keys, k, false) == p + insertion_point(o.skip(p as int), keys, k, false),
                    p == sorted@.len() || !stays_before(keys[o[p as int] as int], k, false),
                decreases sorted.len() - p,
            {
                let a = sorted[p].timestamp;
                proof {
                    assert(o.skip(p as int).drop_first() =~= o.skip(p + 1));
                    assert(o.skip(p as int)[0] == o[p as int]);
                    assert(sorted@[p as int] == items[o[p as int] as int]);
                    assert(o[p as int] < n);
                    assert(keys[o[p as int] as int] == items[o[p as int] as int].timestamp);
                }
                if !(a <= k) {
                    break;
                }
                p = p + 1;
            }
            proof {
                if p == o.len() {
                    assert(o.skip(p as int) =~= Seq::<usize>::empty());
                } else {
                    assert(o.skip(p as int)[0] == o[p as int]);
                }
                assert(insertion_point(o, keys, k, false) == p);
                assert(x == items[n]);
            }
            sorted.insert(p, x);
            proof {
                let o2 = o.take(p as int) + seq![n as usize] + o.skip(p as int);
                assert(stable_order(keys, n + 1, false) == o2);
                let s0 = in_order(items, o);
                let s1 = in_order(items, o2);
                s0.insert_ensures(p as int, items[n]);
                assert forall|j: int| 0 <= j < s1.len() implies s1[j] == s0.insert(p as int, items[n])[j] by {
                    if j < p {
                        assert(o2[j] == o[j]);
                    } else if j == p {
                        assert(o2[j] == n as usize);
                    } else {
                        assert(o2[j] == o[j - 1]);
                        assert(s0.insert(p as int, items[n])[(j - 1) + 1] == s0[j - 1]);
                    }
                }
                assert(s1 =~= s0.insert(p as int, items[n]));
                n = n + 1;
            }
        }
        proof {
            assert(n == items.len());
        }
        let mut unsynced: u64 = 0;
        let mut c: usize = 0;
        while c < sorted.len()
            invariant
                c <= sorted@.len(),
                unsynced == unsynced_count(sorted@.take(c as int)),
                unsynced <= c,
            decreases sorted.len() - c,
        {
            proof {
                assert(sorted@.take(c + 1).drop_last() =~= sorted@.take(c as int));
            }
            if !sorted[c].synced_to_server {
                unsynced = unsynced + 1;
            }
            c = c + 1;
        }
        proof {
            assert(sorted@.take(sorted@.len() as int) =~= sorted@);
        }
        self.transactions = sorted;
        self.current_balance_credits = response.server_balance_credits;
        self.last_sync_timestamp = Some(crate::support::now_millis());
        self.pending_sync_count = (unsynced % 0x1_0000_0000) as u32;
        self.ledger_checksum = response.updated_checksum;
        Ok(())
    }

    /// Spending by kind, over synced content unlocks, cashouts and fees:
    /// one `(kind, total)` pair per kind that has a synced transaction, in
    /// that order.
    pub fn get_spending_summary(&self) -> (r: Vec<(TransactionType, u64)>)
        requires
            spending_fits(self.transactions@),
        ensures
            r@ == seq![
                TransactionType::ContentUnlock,
                TransactionType::CreatorCashout,
                TransactionType::PlatformFee,
            ].filter(|t: TransactionType| has_synced(self.transactions@, t)).map_values(
                |t: TransactionType| (t, spent_on(self.transactions@, t) as u64),
            ),
    {
        let kinds = [
            TransactionType::ContentUnlock,
            TransactionType::CreatorCashout,
            TransactionType::PlatformFee,
        ];
        let mut out: Vec<(TransactionType, u64)> = Vec::new();
        let ghost all = seq![
            TransactionType::ContentUnlock,
            TransactionType::CreatorCashout,
            TransactionType::PlatformFee,
        ];
        let ghost has = |t: TransactionType| has_synced(self.transactions@, t);
        let ghost pair = |t: TransactionType| (t, spent_on(self.transactions@, t) as u64);
        let mut k: usize = 0;
        while k < 3
            invariant
                k <= 3,
                kinds@ == all,
                all == seq![
                    TransactionType::ContentUnlock,
                    TransactionType::CreatorCashout,
                    TransactionType::PlatformFee,
                ],
                has == (|t: TransactionType| has_synced(self.transactions@, t)),
                pair == (|t: TransactionType| (t, spent_on(self.transactions@, t) as u64)),
                spending_fits(self.transactions@),
                out@ == all.take(k as int).filter(has).map_values(pair),
            decreases 3 - k,
        {
            let t = kinds[k];
            proof {
                assert(t == all[k as int]);
                assert(all[0] == TransactionType::ContentUnlock && all[1] == TransactionType::CreatorCashout
                    && all[2] == TransactionType::PlatformFee);
                assert(all.take(k + 1) =~= all.take(k as int).push(all[k as int]));
                all.take(k as int).lemma_filter_push(all[k as int], has);
            }
            let (found, total) = self.total_of(t);
            if found {
                out.push((t, total));
                proof {
                    let fs = all.take(k as int).filter(has);
                    assert(fs.push(t).map_values(pair) =~= fs.map_values(pair).push(pair(t)));
                }
            }
            k = k + 1;
        }
        proof {
            assert(all.take(3) =~= all);
        }
        out
    }

    /// Whether a synced transaction of kind `t` exists, and the total of
    /// the synced transactions of that kind.
    fn total_of(&self, t: TransactionType) -> (r: (bool, u64))
        requires
            spending_fits(self.transactions@),
            t == TransactionType::ContentUnlock || t == TransactionType::CreatorCashout || t
                == TransactionType::PlatformFee,
        ensures
            r.0 == has_synced(self.transactions@, t),
            r.1 == spent_on(self.transactions@, t),
    {
        let mut found = false;
        let mut total: u64 = 0;
        let mut i: usize = 0;
        while i < self.transactions.len()
            invariant
                i <= self.transactions@.len(),
                spending_fits(self.transactions@),
                t == TransactionType::ContentUnlock || t == TransactionType::CreatorCashout || t
                    == TransactionType::PlatformFee,
                total == spent_on(self.transactions@.take(i as int), t),
                found == has_synced(self.transactions@.take(i as int), t),
            decreases self.transactions.len() - i,
        {
            let tx = &self.transactions[i];
            proof {
                let t1 = self.transactions@.take(i + 1);
                assert(t1.drop_last() =~= self.transactions@.take(i as int));
                assert(spent_on(t1, TransactionType::ContentUnlock) + spent_on(t1, TransactionType::CreatorCashout)
                    + spent_on(t1, TransactionType::PlatformFee) <= u64::MAX);
                lemma_spent_nonneg(t1.drop_last(), TransactionType::ContentUnlock);
                lemma_spent_nonneg(t1.drop_last(), TransactionType::CreatorCashout);
                lemma_spent_nonneg(t1.drop_last(), TransactionType::PlatformFee);
                lemma_spent_nonneg(t1, TransactionType::ContentUnlock);
                lemma_spent_nonneg(t1, TransactionType::CreatorCashout);
                lemma_spent_nonneg(t1, TransactionType::PlatformFee);
                if has_synced(t1, t) && !has_synced(self.transactions@.take(i as int), t) {
                    let w = choose|w: int| 0 <= w < t1.len() && #[trigger] t1[w].synced_to_server && t1[w].transaction_type == t;
                    if w < i {
                        assert(self.transactions@.take(i as int)[w] == t1[w]);
                    }
                }
                if has_synced(self.transactions@.take(i as int), t) {
                    let w = choose|w: int| 0 <= w < i && #[trigger] self.transactions@.take(i as int)[w].synced_to_server
                        && self.transactions@.take(i as int)[w].transaction_type == t;
                    assert(t1[w] == self.transactions@.take(i as int)[w]);
                }
                if tx.synced_to_server && tx.transaction_type == t {
                    assert(t1[i as int] == *tx);
                }
            }
            if tx.synced_to_server && tx.transaction_type == t {
                total = total + tx.amount_credits;
                found = true;
            }
            i = i + 1;
        }
        proof {
            assert(self.transactions@.take(self.transactions@.len() as int) =~= self.transactions@);
        }
        (found, total)
    }

    /// Total of the synced content unlocks, cashouts and fees.
    pub fn get_total_spending(&self) -> (r: u64)
        requires
            spending_fits(self.transactions@),
        ensures
            r == spent_on(self.transactions@, TransactionType::ContentUnlock) + spent_on(
                self.transactions@,
                TransactionType::CreatorCashout,
            ) + spent_on(self.transactions@, TransactionType::PlatformFee),
    {
        proof {
            assert(self.transactions@.take(self.transactions@.len() as int) =~= self.transactions@);
            lemma_spent_nonneg(self.transactions@, TransactionType::ContentUnlock);
            lemma_spent_nonneg(self.transactions@, TransactionType::CreatorCashout);
            lemma_spent_nonneg(self.transactions@, TransactionType::PlatformFee);
        }
        let (_, a) = self.total_of(TransactionType::ContentUnlock);
        let (_, b) = self.total_of(TransactionType::CreatorCashout);
        let (_, c) = self.total_of(TransactionType::PlatformFee);
        a + b + c
    }

    /// Net earnings of a creator: the synced content unlocks, each less its
    /// fees (never below zero).
    pub fn get_creator_earnings(&self) -> (r: u64)
        requires
            earnings_fit(self.transactions@),
        ensures
            r == earnings(self.transactions@),
    {
        let mut total: u64 = 0;
        let mut i: usize = 0;
        while i < self.transactions.len()
            invariant
                i <= self.transactions@.len(),
                earnings_fit(self.transactions@),
                total == earnings(self.transactions@.take(i as int)),
            decreases self.transactions.len() - i,
        {
            let tx = &self.transactions[i];
            proof {
                let t1 = self.transactions@.take(i + 1);
                assert(t1.drop_last() =~= self.transactions@.take(i as int));
                assert(t1.last() == *tx);
                assert(earnings(t1) <= u64::MAX);
            }
            if tx.synced_to_server && matches!(tx.transaction_type, TransactionType::ContentUnlock) {
                let fees = fee_total_of(&tx.fees_applied);
                total = total + tx.amount_credits.saturating_sub(fees);
            }
            i = i + 1;
        }
        proof {
            assert(self.transactions@.take(self.transactions@.len() as int) =~= self.transactions@);
        }
        total
    }
}

/// Sum of the fees of a transaction.
fn fee_total_of(f: &Option<Vec<FeeApplication>>) -> (r: u64)
    requires
        fees_fit(*f),
    ensures
        r == fees_total(*f),
{
    match f {
        Some(v) => {
            let mut total: u64 = 0;
            let mut i: usize = 0;
            while i < v.len()
                invariant
                    i <= v@.len(),
                    forall|n: int| 0 <= n <= v@.len() ==> #[trigger] fee_sum(v@.take(n)) <= u64::MAX,
                    total == fee_sum(v@.take(i as int)),
                decreases v.len() - i,
            {
                proof {
                    assert(v@.take(i + 1).drop_last() =~= v@.take(i as int));
                    assert(fee_sum(v@.take(i + 1)) <= u64::MAX);
                }
                total = total + v[i].amount_credits;
                i = i + 1;
            }
            proof {
                assert(v@.take(v@.len() as int) =~= v@);
            }
            total
        },
        None => 0,
    }
}

/// Whether `ids` holds `id`.
fn contains_id(ids: &Vec<u128>, id: u128) -> (r: bool)
    ensures
        r == ids@.contains(id),
{
    let mut i: usize = 0;
    while i < ids.len()
        invariant
            i <= ids@.len(),
            forall|j: int| 0 <= j < i ==> ids@[j] != id,
        decreases ids.len() - i,
    {
        if ids[i] == id {
            assert(ids@[i as int] == id);
            return true;
        }
        i = i + 1;
    }
    false
}

proof fn lemma_spent_nonneg(txs: Seq<UserLedgerEntry>, t: TransactionType)
    ensures
        spent_on(txs, t) >= 0,
    decreases txs.len(),
{
    if txs.len() > 0 {
        lemma_spent_nonneg(txs.drop_last(), t);
    }
}

/// Ten to the power `k`.
pub open spec fn pow10(k: nat) -> nat
    decreases k,
{
    if k == 0 {
        1
    } else {
        10 * pow10((k - 1) as nat)
    }
}

proof fn lemma_decimal_len(n: nat, k: nat)
    requires
        1 <= k,
        n < pow10(k),
    ensures
        1 <= decimal(n).len() <= k,
    decreases k,
{
    if n >= 10 {
        assert(k >= 2) by {
            if k == 1 {
                assert(pow10(1) == 10 * pow10(0));
            }
        }
        assert(pow10(k) == 10 * pow10((k - 1) as nat));
        lemma_decimal_len(n / 10, (k - 1) as nat);
    }
}

/// The number of decimal digits of `n`.
fn digit_count(n: u64) -> (r: u64)
    ensures
        r == decimal(n as nat).len(),
        r <= 20,
    decreases n,
{
    proof {
        reveal_with_fuel(pow10, 21);
        assert(pow10(20) == 100000000000000000000);
        lemma_decimal_len(n as nat, 20);
    }
    if n < 10 {
        1
    } else {
        1 + digit_count(n / 10)
    }
}

} // verus!
