//! Double entry: every applied event takes from one account exactly what
//! it gives to another, so the total held over any set of accounts that
//! includes both is unchanged, and so over whole sequences of events.

use vstd::prelude::*;
use crate::ledger::event::EventView;
use crate::ledger::ledger::{
    apply_effect, apply_fits, balance_in, balances_after, credit_account, debit_account, debit_amount,
    well_formed_event,
};

verus! {

/// The total held over the accounts `keys`.
pub open spec fn total_over(b: Map<Seq<char>, i64>, keys: Seq<Seq<char>>) -> int
    decreases keys.len(),
{
    if keys.len() == 0 {
        0
    } else {
        total_over(b, keys.drop_last()) + balance_in(b, keys.last())
    }
}

/// Applying an event changes the total over distinct accounts by what it
/// gives to those of them it credits, less what it takes from those it
/// debits.
proof fn lemma_total_change(b: Map<Seq<char>, i64>, ev: EventView, keys: Seq<Seq<char>>)
    requires
        keys.no_duplicates(),
        well_formed_event(ev),
        balance_in(b, debit_account(ev)) >= debit_amount(ev),
        apply_fits(b, ev),
    ensures
        total_over(apply_effect(b, ev), keys) == total_over(b, keys) - (if keys.contains(debit_account(ev)) {
            debit_amount(ev) as int
        } else {
            0
        }) + (if keys.contains(credit_account(ev)) {
            debit_amount(ev) as int
        } else {
            0
        }),
    decreases keys.len(),
{
    if keys.len() > 0 {
        let rest = keys.drop_last();
        assert(rest.no_duplicates()) by {
            assert forall|i: int, j: int| 0 <= i < j < rest.len() implies rest[i] != rest[j] by {
                assert(rest[i] == keys[i] && rest[j] == keys[j]);
            }
        }
        lemma_total_change(b, ev, rest);
        let k = keys.last();
        let d = debit_account(ev);
        let c = credit_account(ev);
        assert(!rest.contains(k)) by {
            if rest.contains(k) {
                let i = choose|i: int| 0 <= i < rest.len() && rest[i] == k;
                assert(keys[i] == keys[keys.len() - 1]);
            }
        }
        assert(keys.contains(d) <==> rest.contains(d) || k == d) by {
            if keys.contains(d) {
                let i = choose|i: int| 0 <= i < keys.len() && keys[i] == d;
                if i < rest.len() {
                    assert(rest[i] == d);
                }
            }
            if rest.contains(d) {
                let i = choose|i: int| 0 <= i < rest.len() && rest[i] == d;
                assert(keys[i] == d);
            }
        }
        assert(keys.contains(c) <==> rest.contains(c) || k == c) by {
            if keys.contains(c) {
                let i = choose|i: int| 0 <= i < keys.len() && keys[i] == c;
                if i < rest.len() {
                    assert(rest[i] == c);
                }
            }
            if rest.contains(c) {
                let i = choose|i: int| 0 <= i < rest.len() && rest[i] == c;
                assert(keys[i] == c);
            }
        }
    }
}

/// Double entry: applying an event to balances keeps the total over any
/// distinct accounts that include both the debited and the credited one.
pub proof fn law_event_conserves_total(b: Map<Seq<char>, i64>, ev: EventView, keys: Seq<Seq<char>>)
    requires
        keys.no_duplicates(),
        keys.contains(debit_account(ev)),
        keys.contains(credit_account(ev)),
        well_formed_event(ev),
        balance_in(b, debit_account(ev)) >= debit_amount(ev),
        apply_fits(b, ev),
    ensures
        total_over(apply_effect(b, ev), keys) == total_over(b, keys),
{
    lemma_total_change(b, ev, keys);
}

/// Whether every event of `evs`, applied in turn from `b`, is well formed,
/// covered, within range, and between accounts of `keys`.
pub open spec fn applies_within(b: Map<Seq<char>, i64>, evs: Seq<EventView>, keys: Seq<Seq<char>>) -> bool
    decreases evs.len(),
{
    if evs.len() == 0 {
        true
    } else {
        &&& well_formed_event(evs[0])
        &&& balance_in(b, debit_account(evs[0])) >= debit_amount(evs[0])
        &&& apply_fits(b, evs[0])
        &&& keys.contains(debit_account(evs[0]))
        &&& keys.contains(credit_account(evs[0]))
        &&& applies_within(apply_effect(b, evs[0]), evs.skip(1), keys)
    }
}

/// Double entry over a sequence: committing events one after another keeps
/// the total over the accounts they move credits between.
pub proof fn law_events_conserve_total(b: Map<Seq<char>, i64>, evs: Seq<EventView>, keys: Seq<Seq<char>>)
    requires
        keys.no_duplicates(),
        applies_within(b, evs, keys),
    ensures
        total_over(balances_after(b, evs), keys) == total_over(b, keys),
    decreases evs.len(),
{
    if evs.len() > 0 {
        law_event_conserves_total(b, evs[0], keys);
        law_events_conserve_total(apply_effect(b, evs[0]), evs.skip(1), keys);
    }
}

} // verus!
