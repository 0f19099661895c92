//! Requests that the application's use cases accept.

use vstd::prelude::*;

verus! {

pub struct AddMemberInput {
    pub name: String,
    pub member_number: String,
    pub joined_at: String,
    pub principal_savings: i64,
    pub business_date: String,
    pub display_date: String,
    pub display_time: String,
}

pub struct CreateLoanInput {
    pub member_id: String,
    pub plafond: i64,
    pub tenor: i64,
    pub interest_type: String,
}

pub struct PaymentInput {
    pub member_id: String,
    pub principal: i64,
    pub interest: i64,
    pub wajib: i64,
    pub voluntary: i64,
    pub reference: String,
    pub business_date: String,
    pub display_date: String,
    pub display_time: String,
}

pub struct SavingsTransactionInput {
    pub member_id: String,
    pub account_type: String,
    pub movement: String,
    pub amount: i64,
    pub reference: String,
    pub business_date: String,
    pub display_date: String,
    pub display_time: String,
}

pub struct DisburseLoanInput {
    pub loan_id: String,
    pub business_date: String,
    pub display_date: String,
    pub display_time: String,
}

pub struct ReverseTransactionInput {
    pub id: String,
    pub business_date: String,
    pub display_date: String,
    pub display_time: String,
}

} // verus!
