//! Decisions of the loop that waits for submitted transactions to be
//! confirmed: which transactions are still pending after a round of status
//! queries, and whether to stop, give up or send the pending ones again.
//! Sending, querying and sleeping belong to the caller.
use vstd::prelude::*;

verus! {

/// What the ledger reported for one transaction: `None` when it is not yet
/// seen, else the number of confirmations, `None` inside once it is final.
pub type SignatureStatus = Option<Option<u64>>;

/// What the caller does next.
#[derive(Clone, Copy, Debug, PartialEq, Eq)]
pub enum ConfirmAction {
    /// Every transaction is confirmed.
    Done,
    /// The last valid slot has passed with transactions still pending.
    Expired,
    /// Send the pending transactions again and query once more.
    Resend,
}

/// A transaction counts as confirmed once final or confirmed more than once.
pub open spec fn is_confirmed(status: SignatureStatus) -> bool {
    match status {
        Some(Some(n)) => n > 1,
        Some(None) => true,
        None => false,
    }
}

/// The pending transactions whose status is not confirmed, in order.
pub open spec fn still_pending(pending: Seq<usize>, statuses: Seq<SignatureStatus>) -> Seq<usize>
    decreases pending.len(),
{
    if pending.len() == 0 {
        Seq::empty()
    } else {
        let rest = still_pending(pending.drop_last(), statuses.drop_last());
        if is_confirmed(statuses.last()) {
            rest
        } else {
            rest.push(pending.last())
        }
    }
}

pub fn status_confirmed(status: &SignatureStatus) -> (r: bool)
    ensures
        r == is_confirmed(*status),
{
    match status {
        Some(Some(n)) => *n > 1,
        Some(None) => true,
        None => false,
    }
}

/// One round of the loop: drops the confirmed transactions (`statuses[i]`
/// belongs to `pending[i]`) and decides what comes next.
pub fn confirmation_step(
    pending: &Vec<usize>,
    statuses: &Vec<SignatureStatus>,
    slot: u64,
    last_valid_slot: u64,
) -> (r: (Vec<usize>, ConfirmAction))
    requires
        statuses@.len() == pending@.len(),
    ensures
        r.0@ == still_pending(pending@, statuses@),
        r.1 == if r.0@.len() == 0 {
            ConfirmAction::Done
        } else if slot > last_valid_slot {
            ConfirmAction::Expired
        } else {
            ConfirmAction::Resend
        },
{
    let mut left: Vec<usize> = Vec::new();
    let mut i: usize = 0;
    while i < pending.len()
        invariant
            0 <= i <= pending@.len(),
            statuses@.len() == pending@.len(),
            left@ == still_pending(pending@.subrange(0, i as int), statuses@.subrange(0, i as int)),
        decreases pending@.len() - i,
    {
        proof {
            let (p, s) = (pending@.subrange(0, i + 1), statuses@.subrange(0, i + 1));
            assert(p.drop_last() =~= pending@.subrange(0, i as int));
            assert(s.drop_last() =~= statuses@.subrange(0, i as int));
        }
        if !status_confirmed(&statuses[i]) {
            left.push(pending[i]);
        }
        i = i + 1;
    }
    proof {
        assert(pending@.subrange(0, i as int) =~= pending@);
        assert(statuses@.subrange(0, i as int) =~= statuses@);
    }
    let action = if left.len() == 0 {
        ConfirmAction::Done
    } else if slot > last_valid_slot {
        ConfirmAction::Expired
    } else {
        ConfirmAction::Resend
    };
    (left, action)
}

} // verus!
