//! The requests that the desktop shell forwards to the books, and what each
//! is answered.

use vstd::prelude::*;

use crate::contracts::{
    AddMemberInput, CreateLoanInput, DisburseLoanInput, PaymentInput, ReverseTransactionInput,
    SavingsTransactionInput,
};
use crate::ledger::{IdSource, Ledger};
use crate::{loans, members, savings, seed, transactions};
use crate::read_model::{snapshot_of, snapshot_rejection, AppSnapshot};
use crate::seed::WorkbookSheets;

verus! {

/// A request on the books of one company. Where a use case needs a value
/// that only floating-point arithmetic gives, the request carries it: the
/// annual rate of a new loan as the bit pattern of the percentage, and the
/// provision of a disbursement.
pub enum Command {
    GetAppSnapshot,
    ImportWorkbook(WorkbookSheets),
    AddMember(AddMemberInput),
    CreateLoan { loan: CreateLoanInput, rate_bits: Result<u64, String> },
    DisburseLoan { disbursement: DisburseLoanInput, provision: Result<i64, String> },
    PostSavingsTransaction(SavingsTransactionInput),
    PostPayment(PaymentInput),
    ReverseTransaction(ReverseTransactionInput),
}

/// `r` is the read model of `l`, or the refusal to build it.
pub open spec fn snapshot_answer(l: Ledger, r: Result<AppSnapshot, String>) -> bool {
    match snapshot_rejection(l) {
        Some(m) => r matches Err(e) && e@ == m,
        None => r matches Ok(s) && snapshot_of(l, s),
    }
}

/// A use case that is refused with `refusal` leaves the books as they were
/// and answers the refusal; one that is not changes them as `done` says and
/// answers the read model of the new books.
pub open spec fn answered(
    old: Ledger,
    new: Ledger,
    refusal: Option<Seq<char>>,
    done: bool,
    r: Result<AppSnapshot, String>,
) -> bool {
    match refusal {
        Some(m) => r matches Err(e) && e@ == m && new == old,
        None => done && snapshot_answer(new, r),
    }
}

/// What serving `command` on the books `old` with identifiers from `ids`
/// does: the books become `new`, the identifiers `new_ids`, and `r` is the
/// answer.
pub open spec fn served(
    old: Ledger,
    new: Ledger,
    ids: IdSource,
    new_ids: IdSource,
    command: Command,
    r: Result<AppSnapshot, String>,
) -> bool {
    match command {
        Command::GetAppSnapshot => new == old && new_ids == ids
            && snapshot_answer(old, r),
        Command::ImportWorkbook(sheets) => new_ids == ids && match seed::seed_outcome(
            old,
            sheets,
        ) {
            Err(m) => r matches Err(e) && e@ == m && new == old,
            Ok(s) => seed::seeded(old, new, s) && snapshot_answer(
                new,
                r,
            ),
        },
        Command::AddMember(input) => answered(
            old,
            new,
            members::member_rejection(old, input, ids),
            members::member_added(old, new, input, ids),
            r,
        ) && new_ids == if members::member_early_rejection(old, input) is None {
            ids.advanced()
        } else {
            ids
        },
        Command::CreateLoan { loan: input, rate_bits } => answered(
            old,
            new,
            loans::loan_rejection(old, input, rate_bits, ids),
            loans::loan_drafted(old, new, input, rate_bits->Ok_0, ids),
            r,
        ) && new_ids == if loans::loan_early_rejection(old, input, rate_bits)
            is None {
            ids.advanced()
        } else {
            ids
        },
        Command::DisburseLoan { disbursement: input, provision } => answered(
            old,
            new,
            loans::disbursement_rejection(old, input, provision, ids),
            loans::loan_disbursed(old, new, input, provision->Ok_0, ids),
            r,
        ) && new_ids == if loans::disbursement_early_rejection(
            old,
            input,
            provision,
        ) is None {
            if provision->Ok_0 > 0 && !old.has_transaction_id(ids.peek("DISB"@)) {
                ids.advanced().advanced()
            } else {
                ids.advanced()
            }
        } else {
            ids
        },
        Command::PostSavingsTransaction(input) => answered(
            old,
            new,
            savings::savings_rejection(old, input, ids),
            savings::savings_posted(old, new, input, ids),
            r,
        ) && new_ids == if savings::savings_early_rejection(old, input) is None {
            ids.advanced()
        } else {
            ids
        },
        Command::PostPayment(input) => answered(
            old,
            new,
            savings::payment_rejection(old, input, ids),
            savings::payment_posted(old, new, input, ids),
            r,
        ) && new_ids == if savings::payment_early_rejection(old, input) is None {
            ids.advanced()
        } else {
            ids
        },
        Command::ReverseTransaction(input) => answered(
            old,
            new,
            transactions::reversal_rejection(old, input, ids),
            transactions::reversal_posted(old, new, input, ids),
            r,
        ) && new_ids == if transactions::reversal_early_rejection(old, input)
            is None {
            ids.advanced().advanced()
        } else {
            ids
        },
    }
}

pub(crate) fn copy_result_u64(r: &Result<u64, String>) -> (c: Result<u64, String>)
    ensures
        c == *r,
{
    match r {
        Ok(v) => Ok(*v),
        Err(e) => Err(e.clone()),
    }
}

pub(crate) fn copy_result_i64(r: &Result<i64, String>) -> (c: Result<i64, String>)
    ensures
        c == *r,
{
    match r {
        Ok(v) => Ok(*v),
        Err(e) => Err(e.clone()),
    }
}

} // verus!
