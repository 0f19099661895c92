//! Loan requests, draft loans and their disbursement.

use vstd::prelude::*;

use crate::contracts::{CreateLoanInput, DisburseLoanInput};
use crate::domain::{
    add_months, business_period, invalid_date_message, invalid_value, month_shift_message,
    month_shift_ok, shifted_date, valid_date, InterestType, LoanStatus, TransactionDirection,
    TransactionStatus,
};
use crate::ledger::{
    audit_is, component_is, duplicate_key_message, extends_by_one, header_is, local_actor,
    locked_message, member_missing_message, posting_is, some_text, AuditEvent, AuditFacts,
    AuditPayload, CashPosting, Component, IdSource, Ledger, Loan, LoanFacts, Transaction,
};
use crate::savings::{lemma_member_index, member_index};
use crate::text::{append, text};

verus! {

/// Refusal of a loan request before any figure is computed.
pub open spec fn preview_rejection(input: CreateLoanInput) -> Option<Seq<char>> {
    if input.plafond <= 0 || input.tenor <= 0 {
        Some("Plafond dan tenor harus lebih dari nol."@)
    } else if InterestType::from_text(input.interest_type@) is None {
        Some(invalid_value("InterestType"@, input.interest_type@))
    } else {
        None
    }
}

/// Checks a loan request that is to be previewed, and gives its interest type.
pub fn check_preview_request(input: &CreateLoanInput) -> (r: Result<InterestType, String>)
    ensures
        match preview_rejection(*input) {
            Some(m) => r matches Err(e) && e@ == m,
            None => r matches Ok(t) && InterestType::from_text(input.interest_type@) == Some(t),
        },
{
    if input.plafond <= 0 || input.tenor <= 0 {
        return Err(text("Plafond dan tenor harus lebih dari nol."));
    }
    InterestType::parse(input.interest_type.as_str())
}

pub open spec fn loan_early_rejection(
    l: Ledger,
    input: CreateLoanInput,
    rate_bits: Result<u64, String>,
) -> Option<Seq<char>> {
    if input.plafond <= 0 || input.tenor <= 0 {
        Some("Data pinjaman tidak valid."@)
    } else if InterestType::from_text(input.interest_type@) is None {
        Some(invalid_value("InterestType"@, input.interest_type@))
    } else if !l.has_active_member(input.member_id@) {
        Some(member_missing_message())
    } else {
        match rate_bits {
            Err(e) => Some(e@),
            Ok(_) => None,
        }
    }
}

pub open spec fn loan_rejection(
    l: Ledger,
    input: CreateLoanInput,
    rate_bits: Result<u64, String>,
    ids: IdSource,
) -> Option<Seq<char>> {
    if loan_early_rejection(l, input, rate_bits) is Some {
        loan_early_rejection(l, input, rate_bits)
    } else if l.has_loan_id(ids.peek("LOAN"@)) {
        Some(duplicate_key_message("loans"@, "id"@))
    } else {
        None
    }
}

/// The books after the draft loan is written: one loan in draft with no
/// balance and no dates, and one audit event.
pub open spec fn loan_drafted(
    old: Ledger,
    new: Ledger,
    input: CreateLoanInput,
    rate_bits: u64,
    ids: IdSource,
) -> bool {
    let id = ids.peek("LOAN"@);
    &&& new.company_id == old.company_id
    &&& new.members == old.members
    &&& new.accounts == old.accounts
    &&& new.transactions == old.transactions
    &&& new.cash_postings == old.cash_postings
    &&& new.periods == old.periods
    &&& extends_by_one(new.loans@, old.loans@)
    &&& new.loans@.last().facts() == LoanFacts {
        id,
        member_id: Some(input.member_id@),
        member_name: old.members@[member_index(old, input.member_id@)].name@,
        plafond: input.plafond,
        balance: 0,
        rate_bits,
        tenor: input.tenor,
        interest_type: input.interest_type@,
        realization_date: "-"@,
        due_date: "-"@,
        status: LoanStatus::Draft.text(),
    }
    &&& extends_by_one(new.audit_events@, old.audit_events@)
    &&& audit_is(
        new.audit_events@.last(),
        "LOAN"@,
        id,
        "DRAFT_CREATED"@,
        None,
        AuditFacts::LoanDrafted {
            member_id: input.member_id@,
            plafond: input.plafond as int,
            tenor: input.tenor as int,
            interest_type: input.interest_type@,
        },
    )
}

/// Writes a draft loan for an active member. `rate_bits` is the annual rate in
/// percent that the parameters in force give (its bit pattern), or the reason
/// there is none.
pub fn create_loan(
    ledger: &mut Ledger,
    input: &CreateLoanInput,
    rate_bits: Result<u64, String>,
    ids: &mut IdSource,
) -> (r: Result<(), String>)
    requires
        old(ledger).wf(),
    ensures
        final(ledger).wf(),
        match loan_rejection(*old(ledger), *input, rate_bits, *old(ids)) {
            Some(m) => r matches Err(e) && e@ == m && *final(ledger) == *old(ledger),
            None => r is Ok && loan_drafted(
                *old(ledger),
                *final(ledger),
                *input,
                rate_bits->Ok_0,
                *old(ids),
            ),
        },
        *final(ids) == if loan_early_rejection(*old(ledger), *input, rate_bits) is None {
            old(ids).advanced()
        } else {
            *old(ids)
        },
{
    if input.plafond <= 0 || input.tenor <= 0 {
        return Err(text("Data pinjaman tidak valid."));
    }
    let interest_type = InterestType::parse(input.interest_type.as_str())?;
    let mi = match ledger.find_active_member(input.member_id.as_str()) {
        Some(i) => i,
        None => {
            return Err(text("Anggota aktif tidak ditemukan."));
        },
    };
    proof {
        lemma_member_index(*ledger, input.member_id@, mi as int);
    }
    let rate = match rate_bits {
        Ok(b) => b,
        Err(e) => {
            return Err(e);
        },
    };
    let id = ids.fresh("LOAN");
    if ledger.find_loan(id.as_str()).is_some() {
        return Err(crate::ledger::duplicate_key("loans", "id"));
    }
    let loan = Loan {
        id: id.clone(),
        member_id: Some(input.member_id.clone()),
        member_name: ledger.members[mi].name.clone(),
        plafond: input.plafond,
        balance: 0,
        rate_bits: rate,
        tenor: input.tenor,
        interest_type: text(interest_type.as_str()),
        realization_date: text("-"),
        due_date: text("-"),
        status: text(LoanStatus::Draft.as_str()),
    };
    let ghost before = *ledger;
    ledger.loans.push(loan);
    ledger.audit_events.push(
        AuditEvent {
            entity_type: text("LOAN"),
            entity_id: id,
            action: text("DRAFT_CREATED"),
            before: None,
            after: AuditPayload::LoanDrafted {
                member_id: input.member_id.clone(),
                plafond: input.plafond,
                tenor: input.tenor,
                interest_type: input.interest_type.clone(),
            },
            actor: text("Aplikasi lokal"),
        },
    );
    proof {
        assert(ledger.loans@.subrange(0, before.loans@.len() as int) =~= before.loans@);
        assert(ledger.audit_events@.subrange(0, before.audit_events@.len() as int)
            =~= before.audit_events@);
        assert forall|i: int, j: int|
            0 <= i < j < ledger.loans@.len() implies ledger.loans@[i].id@
            != ledger.loans@[j].id@ by {
            if j == before.loans@.len() {
                assert(before.loans@[i].id@ != id@);
            }
        }
    }
    Ok(())
}

// ---------------------------------------------------------------------------
// Disbursement

pub open spec fn loan_index(l: Ledger, id: Seq<char>) -> int {
    choose|i: int| 0 <= i < l.loans@.len() && l.loans@[i].id@ == id
}

pub proof fn lemma_loan_index(l: Ledger, id: Seq<char>, i: int)
    requires
        l.wf(),
        0 <= i < l.loans@.len(),
        l.loans@[i].id@ == id,
    ensures
        loan_index(l, id) == i,
{
    let c = loan_index(l, id);
    if c < i {
        assert(l.loans@[c].id@ != l.loans@[i].id@);
    } else if i < c {
        assert(l.loans@[i].id@ != l.loans@[c].id@);
    }
}

/// Refusals of a disbursement that do not depend on the provision, in the order they are checked.
pub open spec fn disbursement_plan_rejection(l: Ledger, input: DisburseLoanInput) -> Option<
    Seq<char>,
> {
    if !valid_date(input.business_date@) {
        Some(invalid_date_message())
    } else if l.period_locked(input.business_date@.subrange(0, 7)) {
        Some(locked_message())
    } else if !l.has_loan_id(input.loan_id@) {
        Some("Pinjaman tidak ditemukan."@)
    } else {
        let loan = l.loans@[loan_index(l, input.loan_id@)];
        let status = LoanStatus::from_text(loan.status@);
        if status is None {
            Some(invalid_value("LoanStatus"@, loan.status@))
        } else if status.unwrap() != LoanStatus::Draft || loan.balance != 0 {
            Some("Hanya pinjaman draf dengan saldo nol yang dapat dicairkan."@)
        } else if !month_shift_ok(input.business_date@, loan.tenor as int) {
            Some(month_shift_message())
        } else {
            None
        }
    }
}

/// What a disbursement needs to know of the loan before the provision is computed.
pub struct DisbursementPlan {
    pub plafond: i64,
    pub due_date: String,
}

/// Checks that the loan can be disbursed on the business date, and gives its
/// plafond and due date.
pub fn plan_disbursement(ledger: &Ledger, input: &DisburseLoanInput) -> (r: Result<
    DisbursementPlan,
    String,
>)
    requires
        ledger.wf(),
    ensures
        match disbursement_plan_rejection(*ledger, *input) {
            Some(m) => r matches Err(e) && e@ == m,
            None => r matches Ok(p) && p.plafond == ledger.loans@[loan_index(
                *ledger,
                input.loan_id@,
            )].plafond && p.due_date@ == shifted_date(
                input.business_date@,
                ledger.loans@[loan_index(*ledger, input.loan_id@)].tenor as int,
            ),
        },
{
    let period = business_period(input.business_date.as_str())?;
    if ledger.is_period_locked(period) {
        return Err(text("Periode transaksi sudah dikunci."));
    }
    let k = match ledger.find_loan(input.loan_id.as_str()) {
        Some(k) => k,
        None => {
            return Err(text("Pinjaman tidak ditemukan."));
        },
    };
    proof {
        lemma_loan_index(*ledger, input.loan_id@, k as int);
    }
    let status = LoanStatus::parse(ledger.loans[k].status.as_str())?;
    if status != LoanStatus::Draft || ledger.loans[k].balance != 0 {
        return Err(text("Hanya pinjaman draf dengan saldo nol yang dapat dicairkan."));
    }
    let due_date = add_months(input.business_date.as_str(), ledger.loans[k].tenor)?;
    Ok(DisbursementPlan { plafond: ledger.loans[k].plafond, due_date })
}

pub open spec fn disbursement_early_rejection(
    l: Ledger,
    input: DisburseLoanInput,
    provision: Result<i64, String>,
) -> Option<Seq<char>> {
    if disbursement_plan_rejection(l, input) is Some {
        disbursement_plan_rejection(l, input)
    } else {
        match provision {
            Err(e) => Some(e@),
            Ok(_) => None,
        }
    }
}

pub open spec fn disbursement_rejection(
    l: Ledger,
    input: DisburseLoanInput,
    provision: Result<i64, String>,
    ids: IdSource,
) -> Option<Seq<char>> {
    if disbursement_early_rejection(l, input, provision) is Some {
        disbursement_early_rejection(l, input, provision)
    } else if l.has_transaction_id(ids.peek("DISB"@)) {
        Some(duplicate_key_message("transactions"@, "id"@))
    } else if provision->Ok_0 > 0 && l.has_transaction_id(ids.advanced().peek("PROV"@)) {
        Some(duplicate_key_message("transactions"@, "id"@))
    } else {
        None
    }
}

/// The books after the loan is disbursed: the plafond leaves the cash book,
/// a positive provision comes in as a transaction of its own, and the loan
/// runs from the business date with the plafond as its balance.
pub open spec fn loan_disbursed(
    old: Ledger,
    new: Ledger,
    input: DisburseLoanInput,
    provision: i64,
    ids: IdSource,
) -> bool {
    let k = loan_index(old, input.loan_id@);
    let loan = old.loans@[k];
    let disb_id = ids.peek("DISB"@);
    let prov_id = ids.advanced().peek("PROV"@);
    let due = shifted_date(input.business_date@, loan.tenor as int);
    let n = old.transactions@.len();
    let d = new.transactions@[n as int];
    &&& new.company_id == old.company_id
    &&& new.members == old.members
    &&& new.accounts == old.accounts
    &&& new.periods == old.periods
    &&& new.loan_table() == old.loan_table().update(
        k,
        LoanFacts {
            balance: loan.plafond,
            realization_date: input.business_date@,
            due_date: due,
            status: LoanStatus::Active.text(),
            ..loan.facts()
        },
    )
    &&& new.transactions@.len() == n + if provision > 0 {
        2int
    } else {
        1int
    }
    &&& new.transactions@.subrange(0, n as int) == old.transactions@
    &&& header_is(
        d,
        disb_id,
        input.business_date@,
        input.display_date@,
        input.display_time@,
        some_text(loan.member_id),
        loan.member_name@,
        "LOAN_DISBURSEMENT"@,
        "Pencairan pinjaman"@,
        "KBS/DISB/"@ + input.loan_id@ + "/"@ + disb_id,
        TransactionDirection::Out.text(),
        loan.plafond as int,
        None,
        local_actor(),
    )
    &&& d.components@.len() == 1
    &&& component_is(
        d.components@[0],
        "LOAN_DISBURSEMENT"@,
        "Pencairan pokok pinjaman"@,
        loan.plafond as int,
        Some(input.loan_id@),
        None,
    )
    &&& provision > 0 ==> {
        let p = new.transactions@[n + 1int];
        &&& header_is(
            p,
            prov_id,
            input.business_date@,
            input.display_date@,
            input.display_time@,
            some_text(loan.member_id),
            loan.member_name@,
            "LOAN_PROVISION"@,
            "Provisi pencairan pinjaman"@,
            "KBS/PROV/"@ + input.loan_id@ + "/"@ + prov_id,
            TransactionDirection::In.text(),
            provision as int,
            None,
            local_actor(),
        )
        &&& p.components@.len() == 1
        &&& component_is(
            p.components@[0],
            "LOAN_PROVISION"@,
            "Pendapatan provisi"@,
            provision as int,
            Some(input.loan_id@),
            None,
        )
    }
    &&& new.cash_postings@.len() == old.cash_postings@.len() + if provision > 0 {
        2int
    } else {
        1int
    }
    &&& new.cash_postings@.subrange(0, old.cash_postings@.len() as int) == old.cash_postings@
    &&& posting_is(
        new.cash_postings@[old.cash_postings@.len() as int],
        disb_id,
        TransactionDirection::Out.text(),
        loan.plafond as int,
    )
    &&& provision > 0 ==> posting_is(
        new.cash_postings@[old.cash_postings@.len() + 1int],
        prov_id,
        TransactionDirection::In.text(),
        provision as int,
    )
    &&& extends_by_one(new.audit_events@, old.audit_events@)
    &&& audit_is(
        new.audit_events@.last(),
        "LOAN"@,
        input.loan_id@,
        "DISBURSED"@,
        None,
        AuditFacts::LoanDisbursed {
            plafond: loan.plafond as int,
            provision: provision as int,
            due_date: due,
        },
    )
}

fn tagged_reference(kind: &str, loan_id: &str, id: &str) -> (r: String)
    ensures
        r@ == kind@ + loan_id@ + "/"@ + id@,
{
    let mut s = text(kind);
    append(&mut s, loan_id);
    append(&mut s, "/");
    append(&mut s, id);
    s
}

/// Disburses a draft loan. `provision` is the provision that the parameters
/// in force on the business date give for the loan's plafond, or the reason
/// there is none.
pub fn disburse_loan(
    ledger: &mut Ledger,
    input: &DisburseLoanInput,
    provision: Result<i64, String>,
    ids: &mut IdSource,
) -> (r: Result<(), String>)
    requires
        old(ledger).wf(),
    ensures
        final(ledger).wf(),
        match disbursement_rejection(*old(ledger), *input, provision, *old(ids)) {
            Some(m) => r matches Err(e) && e@ == m && *final(ledger) == *old(ledger),
            None => r is Ok && loan_disbursed(
                *old(ledger),
                *final(ledger),
                *input,
                provision->Ok_0,
                *old(ids),
            ),
        },
        *final(ids) == if disbursement_early_rejection(*old(ledger), *input, provision) is None {
            if provision->Ok_0 > 0 && !old(ledger).has_transaction_id(old(ids).peek("DISB"@)) {
                old(ids).advanced().advanced()
            } else {
                old(ids).advanced()
            }
        } else {
            *old(ids)
        },
{
    let plan = plan_disbursement(ledger, input)?;
    let provision = match provision {
        Ok(p) => p,
        Err(e) => {
            return Err(e);
        },
    };
    let k = ledger.find_loan(input.loan_id.as_str()).unwrap();
    proof {
        lemma_loan_index(*ledger, input.loan_id@, k as int);
    }
    let disbursement_id = ids.fresh("DISB");
    if ledger.find_transaction(disbursement_id.as_str()).is_some() {
        return Err(crate::ledger::duplicate_key("transactions", "id"));
    }
    let provision_id = if provision > 0 {
        let p = ids.fresh("PROV");
        if ledger.find_transaction(p.as_str()).is_some() {
            return Err(crate::ledger::duplicate_key("transactions", "id"));
        }
        p
    } else {
        String::new()
    };
    let ghost before = *ledger;
    let member_id = crate::ledger::clone_opt(&ledger.loans[k].member_id);
    let member_name = ledger.loans[k].member_name.clone();
    let plafond = plan.plafond;
    let mut disbursement_components: Vec<Component> = Vec::new();
    disbursement_components.push(
        Component {
            component_type: text("LOAN_DISBURSEMENT"),
            label: text("Pencairan pokok pinjaman"),
            amount: plafond,
            loan_id: Some(input.loan_id.clone()),
            savings_account_id: None,
        },
    );
    ledger.transactions.push(
        Transaction {
            id: disbursement_id.clone(),
            business_date: input.business_date.clone(),
            display_date: input.display_date.clone(),
            display_time: input.display_time.clone(),
            member_id: crate::ledger::clone_opt(&member_id),
            member_name: member_name.clone(),
            transaction_type: text("LOAN_DISBURSEMENT"),
            description: text("Pencairan pinjaman"),
            reference: tagged_reference(
                "KBS/DISB/",
                input.loan_id.as_str(),
                disbursement_id.as_str(),
            ),
            direction: text(TransactionDirection::Out.as_str()),
            amount: plafond,
            status: text(TransactionStatus::Posted.as_str()),
            reversed_transaction_id: None,
            actor: text("Aplikasi lokal"),
            components: disbursement_components,
        },
    );
    ledger.cash_postings.push(
        CashPosting {
            transaction_id: disbursement_id.clone(),
            direction: text(TransactionDirection::Out.as_str()),
            amount: plafond,
        },
    );
    if provision > 0 {
        let mut provision_components: Vec<Component> = Vec::new();
        provision_components.push(
            Component {
                component_type: text("LOAN_PROVISION"),
                label: text("Pendapatan provisi"),
                amount: provision,
                loan_id: Some(input.loan_id.clone()),
                savings_account_id: None,
            },
        );
        ledger.transactions.push(
            Transaction {
                id: provision_id.clone(),
                business_date: input.business_date.clone(),
                display_date: input.display_date.clone(),
                display_time: input.display_time.clone(),
                member_id,
                member_name,
                transaction_type: text("LOAN_PROVISION"),
                description: text("Provisi pencairan pinjaman"),
                reference: tagged_reference(
                    "KBS/PROV/",
                    input.loan_id.as_str(),
                    provision_id.as_str(),
                ),
                direction: text(TransactionDirection::In.as_str()),
                amount: provision,
                status: text(TransactionStatus::Posted.as_str()),
                reversed_transaction_id: None,
                actor: text("Aplikasi lokal"),
                components: provision_components,
            },
        );
        ledger.cash_postings.push(
            CashPosting {
                transaction_id: provision_id.clone(),
                direction: text(TransactionDirection::In.as_str()),
                amount: provision,
            },
        );
    }
    ledger.loans[k].balance = plafond;
    ledger.loans[k].realization_date = input.business_date.clone();
    ledger.loans[k].due_date = plan.due_date.clone();
    ledger.loans[k].status = text(LoanStatus::Active.as_str());
    ledger.audit_events.push(
        AuditEvent {
            entity_type: text("LOAN"),
            entity_id: input.loan_id.clone(),
            action: text("DISBURSED"),
            before: None,
            after: AuditPayload::LoanDisbursed { plafond, provision, due_date: plan.due_date },
            actor: text("Aplikasi lokal"),
        },
    );
    proof {
        let n = before.transactions@.len();
        assert(ledger.transactions@.subrange(0, n as int) =~= before.transactions@);
        assert(ledger.cash_postings@.subrange(0, before.cash_postings@.len() as int)
            =~= before.cash_postings@);
        assert(ledger.audit_events@.subrange(0, before.audit_events@.len() as int)
            =~= before.audit_events@);
        assert(ledger.loan_table() =~= before.loan_table().update(
            k as int,
            LoanFacts {
                balance: plafond,
                realization_date: input.business_date@,
                due_date: plan.due_date@,
                status: LoanStatus::Active.text(),
                ..before.loans@[k as int].facts()
            },
        ));
        assert forall|i: int, j: int|
            0 <= i < j < ledger.loans@.len() implies ledger.loans@[i].id@
            != ledger.loans@[j].id@ by {
            assert(before.loans@[i].id@ != before.loans@[j].id@);
        }
        if provision > 0 {
            reveal_strlit("DISB");
            reveal_strlit("PROV");
            assert(disbursement_id@ != provision_id@) by {
                assert(disbursement_id@[0] != provision_id@[0]);
            }
        }
        assert forall|i: int, j: int|
            0 <= i < j < ledger.transactions@.len() implies ledger.transactions@[i].id@
            != ledger.transactions@[j].id@ by {
            if j >= n {
                if i < n {
                    assert(before.transactions@[i].id@ != disbursement_id@);
                    if provision > 0 {
                        assert(before.transactions@[i].id@ != provision_id@);
                    }
                }
            }
        }
    }
    Ok(())
}

} // verus!
