//! The checks a new version of the financial parameters passes before it is
//! stored: the savings amounts and the effective date, then the version's date
//! not yet taken.

use vstd::prelude::*;

use crate::domain::{business_period, valid_date};
use crate::text::text;

verus! {

/// The largest savings amount a parameter version may hold: 2^53, up to
/// which the stored floating-point value keeps every integer exactly.
pub const SAVINGS_PARAMETER_LIMIT: i64 = 9_007_199_254_740_992i64;

pub open spec fn parameters_invalid_message() -> Seq<char> {
    "Nilai atau tanggal berlaku parameter tidak valid."@
}

pub open spec fn version_taken_message() -> Seq<char> {
    "Versi parameter untuk tanggal berlaku tersebut sudah ada."@
}

/// A parameter version can be stored when both savings amounts lie between
/// zero and the limit, both rates are finite and not negative (`rates_valid`),
/// and the effective date is a valid business date.
pub open spec fn parameters_acceptable(
    principal_savings: i64,
    mandatory_savings: i64,
    rates_valid: bool,
    effective_date: Seq<char>,
) -> bool {
    &&& 0 <= principal_savings <= SAVINGS_PARAMETER_LIMIT
    &&& 0 <= mandatory_savings <= SAVINGS_PARAMETER_LIMIT
    &&& rates_valid
    &&& valid_date(effective_date)
}

/// Checks the values of a new parameter version; `rates_valid` tells whether
/// both rates are finite and not negative.
pub fn check_parameters(
    principal_savings: i64,
    mandatory_savings: i64,
    rates_valid: bool,
    effective_date: &str,
) -> (r: Result<(), String>)
    ensures
        r is Ok <==> parameters_acceptable(
            principal_savings,
            mandatory_savings,
            rates_valid,
            effective_date@,
        ),
        r matches Err(e) ==> e@ == parameters_invalid_message(),
{
    if principal_savings < 0 || mandatory_savings < 0 || principal_savings
        > SAVINGS_PARAMETER_LIMIT || mandatory_savings > SAVINGS_PARAMETER_LIMIT || !rates_valid {
        return Err(text("Nilai atau tanggal berlaku parameter tidak valid."));
    }
    match business_period(effective_date) {
        Ok(_) => Ok(()),
        Err(_) => Err(text("Nilai atau tanggal berlaku parameter tidak valid.")),
    }
}

/// Refuses a version whose effective date already has `existing` stored rows.
pub fn check_version_free(existing: i64) -> (r: Result<(), String>)
    ensures
        r is Ok <==> existing <= 0,
        r matches Err(e) ==> e@ == version_taken_message(),
{
    if existing > 0 {
        Err(text("Versi parameter untuk tanggal berlaku tersebut sudah ada."))
    } else {
        Ok(())
    }
}

} // verus!
