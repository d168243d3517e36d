//! Ledger events: what happened (mint, burn or transfer), the debit and
//! credit entries, and where the event stands in the commit process.
//! Identifiers are random 128-bit values; times are milliseconds since the
//! Unix epoch.

use vstd::prelude::*;

verus! {

/// A copy of an optional text.
pub fn copy_text_opt(t: &Option<String>) -> (r: Option<String>)
    ensures
        r == *t,
{
    match t {
        Some(s) => Some(s.clone()),
        None => None,
    }
}

/// What a ledger event does.
#[derive(Debug, Clone, PartialEq)]
pub enum LedgerEventKind {
    /// Credits are minted to an account.
    Mint { credits: u64, reason: String, memo: Option<String> },
    /// Credits are burned from an account.
    Burn { credits: u64, reason: String, memo: Option<String> },
    /// Credits move between accounts.
    Transfer { from: String, to: String, credits: u64, reason: String, memo: Option<String> },
}

impl LedgerEventKind {
    /// A copy of the kind.
    pub fn duplicate(&self) -> (k: LedgerEventKind)
        ensures
            k == *self,
    {
        match self {
            LedgerEventKind::Mint { credits, reason, memo } => LedgerEventKind::Mint {
                credits: *credits,
                reason: reason.clone(),
                memo: copy_text_opt(memo),
            },
            LedgerEventKind::Burn { credits, reason, memo } => LedgerEventKind::Burn {
                credits: *credits,
                reason: reason.clone(),
                memo: copy_text_opt(memo),
            },
            LedgerEventKind::Transfer { from, to, credits, reason, memo } => LedgerEventKind::Transfer {
                from: from.clone(),
                to: to.clone(),
                credits: *credits,
                reason: reason.clone(),
                memo: copy_text_opt(memo),
            },
        }
    }
}

/// Where an event stands in the commit process.
#[derive(Debug, Clone, Copy, PartialEq, Eq, Structural)]
pub enum EventStatus {
    /// Staged, not yet committed.
    Staged,
    /// Committed to the ledger.
    Committed,
    /// Rolled back after an error.
    RolledBack,
}

/// Whether an entry debits or credits its account.
#[derive(Debug, Clone, Copy, PartialEq, Eq, Structural)]
pub enum EntryType {
    Debit,
    Credit,
}

/// One side of a ledger event.
#[derive(Debug, Clone, PartialEq)]
pub struct LedgerEntry {
    account_id: String,
    amount: i64,
    event_id: u128,
    entry_type: EntryType,
}

/// A ledger event. Only its status changes after creation.
#[derive(Debug, Clone)]
pub struct LedgerEvent {
    id: u128,
    sequence: u64,
    timestamp: i64,
    kind: LedgerEventKind,
    debit_entry: Option<LedgerEntry>,
    credit_entry: Option<LedgerEntry>,
    status: EventStatus,
}

/// The plain values of an entry: account, amount, kind.
pub type EntryView = (Seq<char>, i64, EntryType);

impl LedgerEntry {
    /// The account of the entry.
    pub closed spec fn account_spec(&self) -> Seq<char> {
        self.account_id@
    }

    /// The amount of the entry.
    pub closed spec fn amount_spec(&self) -> i64 {
        self.amount
    }

    /// Whether the entry is a debit or a credit.
    pub closed spec fn type_spec(&self) -> EntryType {
        self.entry_type
    }

    /// The event the entry belongs to.
    pub closed spec fn event_spec(&self) -> u128 {
        self.event_id
    }

    /// The plain values of the entry.
    pub open spec fn view_entry(&self) -> EntryView {
        (self.account_spec(), self.amount_spec(), self.type_spec())
    }

    /// An entry of `amount` on `account_id` for the event `event_id`.
    pub fn new(account_id: String, amount: i64, event_id: u128, entry_type: EntryType) -> (e:
        LedgerEntry)
        ensures
            e.account_spec() == account_id@,
            e.amount_spec() == amount,
            e.type_spec() == entry_type,
            e.event_spec() == event_id,
    {
        LedgerEntry { account_id, amount, event_id, entry_type }
    }

    /// A copy of the entry.
    pub fn duplicate(&self) -> (e: LedgerEntry)
        ensures
            e == *self,
    {
        LedgerEntry {
            account_id: self.account_id.clone(),
            amount: self.amount,
            event_id: self.event_id,
            entry_type: self.entry_type,
        }
    }

    /// The account of the entry.
    pub fn account_id(&self) -> (r: &str)
        ensures
            r@ == self.account_spec(),
    {
        self.account_id.as_str()
    }

    /// The amount of the entry.
    pub fn amount(&self) -> (r: i64)
        ensures
            r == self.amount_spec(),
    {
        self.amount
    }

    /// The event the entry belongs to.
    pub fn event_id(&self) -> (r: u128)
        ensures
            r == self.event_spec(),
    {
        self.event_id
    }

    /// Whether the entry is a debit or a credit.
    pub fn entry_type(&self) -> (r: &EntryType)
        ensures
            *r == self.type_spec(),
    {
        &self.entry_type
    }
}

/// The plain values of an event: sequence, status, and its two entries.
pub struct EventView {
    pub sequence: u64,
    pub status: EventStatus,
    pub debit: Option<EntryView>,
    pub credit: Option<EntryView>,
}

/// The plain values of an optional entry.
pub open spec fn entry_opt_view(e: Option<LedgerEntry>) -> Option<EntryView> {
    match e {
        Some(x) => Some(x.view_entry()),
        None => None,
    }
}

impl LedgerEvent {
    /// The plain values of the event.
    pub closed spec fn view_event(&self) -> EventView {
        EventView {
            sequence: self.sequence,
            status: self.status,
            debit: entry_opt_view(self.debit_entry),
            credit: entry_opt_view(self.credit_entry),
        }
    }

    /// What the event does.
    pub closed spec fn kind_spec(&self) -> LedgerEventKind {
        self.kind
    }

    /// The identifier of the event.
    pub closed spec fn id_spec(&self) -> u128 {
        self.id
    }

    /// A staged event with a fresh identifier, made now.
    pub fn new(
        sequence: u64,
        kind: LedgerEventKind,
        debit_entry: Option<LedgerEntry>,
        credit_entry: Option<LedgerEntry>,
    ) -> (e: LedgerEvent)
        ensures
            e.view_event() == (EventView {
                sequence,
                status: EventStatus::Staged,
                debit: entry_opt_view(debit_entry),
                credit: entry_opt_view(credit_entry),
            }),
            e.kind_spec() == kind,
    {
        LedgerEvent {
            id: crate::support::random_uuid(),
            sequence,
            timestamp: crate::support::now_millis(),
            kind,
            debit_entry,
            credit_entry,
            status: EventStatus::Staged,
        }
    }

    /// A copy of the event.
    pub fn duplicate(&self) -> (e: LedgerEvent)
        ensures
            e == *self,
    {
        LedgerEvent {
            id: self.id,
            sequence: self.sequence,
            timestamp: self.timestamp,
            kind: self.kind.duplicate(),
            debit_entry: match &self.debit_entry {
                Some(d) => Some(d.duplicate()),
                None => None,
            },
            credit_entry: match &self.credit_entry {
                Some(c) => Some(c.duplicate()),
                None => None,
            },
            status: self.status,
        }
    }

    /// The event, committed.
    pub fn commit(self) -> (e: LedgerEvent)
        ensures
            e.view_event() == (EventView { status: EventStatus::Committed, ..self.view_event() }),
            e.kind_spec() == self.kind_spec(),
            e.id_spec() == self.id_spec(),
    {
        let mut e = self;
        e.status = EventStatus::Committed;
        e
    }

    /// The event, rolled back.
    pub fn rollback(self) -> (e: LedgerEvent)
        ensures
            e.view_event() == (EventView { status: EventStatus::RolledBack, ..self.view_event() }),
            e.kind_spec() == self.kind_spec(),
            e.id_spec() == self.id_spec(),
    {
        let mut e = self;
        e.status = EventStatus::RolledBack;
        e
    }

    /// The identifier of the event.
    pub fn id(&self) -> (r: u128)
        ensures
            r == self.id_spec(),
    {
        self.id
    }

    /// The sequence number of the event.
    pub fn sequence(&self) -> (r: u64)
        ensures
            r == self.view_event().sequence,
    {
        self.sequence
    }

    /// When the event was made.
    pub fn timestamp(&self) -> (r: i64) {
        self.timestamp
    }

    /// What the event does.
    pub fn kind(&self) -> (r: &LedgerEventKind)
        ensures
            *r == self.kind_spec(),
    {
        &self.kind
    }

    /// The debit entry, if any.
    pub fn debit_entry(&self) -> (r: Option<&LedgerEntry>)
        ensures
            match r {
                Some(e) => self.view_event().debit == Some(e.view_entry()),
                None => self.view_event().debit is None,
            },
    {
        self.debit_entry.as_ref()
    }

    /// The credit entry, if any.
    pub fn credit_entry(&self) -> (r: Option<&LedgerEntry>)
        ensures
            match r {
                Some(e) => self.view_event().credit == Some(e.view_entry()),
                None => self.view_event().credit is None,
            },
    {
        self.credit_entry.as_ref()
    }

    /// Where the event stands.
    pub fn status(&self) -> (r: &EventStatus)
        ensures
            *r == self.view_event().status,
    {
        &self.status
    }

    /// Whether the event is committed.
    pub fn is_committed(&self) -> (r: bool)
        ensures
            r == (self.view_event().status == EventStatus::Committed),
    {
        matches!(self.status, EventStatus::Committed)
    }

    /// Whether the event is staged.
    pub fn is_staged(&self) -> (r: bool)
        ensures
            r == (self.view_event().status == EventStatus::Staged),
    {
        matches!(self.status, EventStatus::Staged)
    }

    /// Whether the event was rolled back.
    pub fn is_rolled_back(&self) -> (r: bool)
        ensures
            r == (self.view_event().status == EventStatus::RolledBack),
    {
        matches!(self.status, EventStatus::RolledBack)
    }
}

/// A write-ahead log record of an event.
#[derive(Debug, Clone)]
pub struct WALEntry {
    /// Sequence number of the record.
    pub sequence: u64,
    /// The event logged.
    pub event: LedgerEvent,
    /// When it was logged.
    pub logged_at: i64,
}

impl WALEntry {
    /// A record of `event`, logged now.
    pub fn new(sequence: u64, event: LedgerEvent) -> (w: WALEntry)
        ensures
            w.sequence == sequence,
            w.event == event,
    {
        WALEntry { sequence, event, logged_at: crate::support::now_millis() }
    }
}

} // verus!
