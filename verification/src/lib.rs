//! Ledger rules of a savings-and-loan cooperative: members, savings accounts,
//! loans, postings, reversals, the read model over them, and the import of
//! the legacy workbook. `run` serves one request of the desktop shell.

pub mod text;
pub mod domain;
pub mod ledger;
pub mod contracts;
pub mod savings;
pub mod transactions;
pub mod laws;
pub mod order;
pub mod loans;
pub mod members;
pub mod read_model;
pub mod workbook;
pub mod seed;
pub mod commands;
pub mod parameters;

use vstd::prelude::*;

use crate::commands::{served, Command};
use crate::ledger::{IdSource, Ledger};
use crate::read_model::{get_app_snapshot, AppSnapshot};

verus! {

/// Serves one request of the desktop shell on the books of a company: the
/// use case it names runs, and the answer is the read model of the books it
/// leaves, or its refusal.
pub fn run(ledger: &mut Ledger, ids: &mut IdSource, command: &Command) -> (r: Result<
    AppSnapshot,
    String,
>)
    requires
        old(ledger).wf(),
        command matches Command::ReverseTransaction(input) ==> transactions::reversal_in_range(
            *old(ledger),
            *input,
        ),
    ensures
        final(ledger).wf(),
        served(*old(ledger), *final(ledger), *old(ids), *final(ids), *command, r),
{
    let done = match command {
        Command::GetAppSnapshot => Ok(()),
        Command::ImportWorkbook(sheets) => seed::seed_database(ledger, sheets),
        Command::AddMember(input) => members::add_member(ledger, input, ids),
        Command::CreateLoan { loan, rate_bits } => loans::create_loan(
            ledger,
            loan,
            commands::copy_result_u64(rate_bits),
            ids,
        ),
        Command::DisburseLoan { disbursement, provision } => loans::disburse_loan(
            ledger,
            disbursement,
            commands::copy_result_i64(provision),
            ids,
        ),
        Command::PostSavingsTransaction(input) => savings::post_savings_transaction(
            ledger,
            input,
            ids,
        ),
        Command::PostPayment(input) => savings::post_payment(ledger, input, ids),
        Command::ReverseTransaction(input) => transactions::reverse_transaction(ledger, input, ids),
    };
    match done {
        Err(e) => Err(e),
        Ok(()) => get_app_snapshot(ledger),
    }
}

} // verus!
