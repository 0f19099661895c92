//! Savings deposits and withdrawals, and members' combined payments.

use vstd::prelude::*;

use crate::contracts::{PaymentInput, SavingsTransactionInput};
use crate::order::{key_facts, key_order, sort_keys, KeyFacts, SortKey};
use crate::domain::{
    business_period, invalid_date_message, invalid_value, valid_date, LoanStatus,
    SavingsAccountType, SavingsMovement, TransactionDirection, TransactionStatus,
};
use crate::ledger::{
    audit_is, component_is, duplicate_key_message, duplicate_reference_message, extends_by_one,
    header_is, local_actor, locked_message, member_missing_message, posting_is,
    row_not_found_message, AuditEvent, AuditFacts, AuditPayload, CashPosting, Component,
    IdSource, Ledger, Transaction, ComponentFacts, LoanFacts, Loan, component_facts,
    loan_facts,
};
use crate::text::{append, text, trim, trimmed};

verus! {

/// Index of the first account of the member with that type.
pub open spec fn account_index(l: Ledger, member_id: Seq<char>, kind: Seq<char>) -> int {
    choose|i: int| l.first_account(i, member_id, kind)
}

/// Index of the active member with that id.
pub open spec fn member_index(l: Ledger, id: Seq<char>) -> int {
    choose|i: int| 0 <= i < l.members@.len() && l.is_active_member(i, id)
}

pub proof fn lemma_account_index(l: Ledger, member_id: Seq<char>, kind: Seq<char>, k: int)
    requires
        l.first_account(k, member_id, kind),
    ensures
        account_index(l, member_id, kind) == k,
{
    let c = account_index(l, member_id, kind);
    assert(l.first_account(c, member_id, kind));
    if c < k {
        assert(!l.is_account_of(c, member_id, kind));
    } else if k < c {
        assert(!l.is_account_of(k, member_id, kind));
    }
}

proof fn lemma_first_account_below(l: Ledger, member_id: Seq<char>, kind: Seq<char>, i: int)
    requires
        0 <= i < l.accounts@.len(),
        l.is_account_of(i, member_id, kind),
    ensures
        exists|j: int| l.first_account(j, member_id, kind),
    decreases i,
{
    if exists|j: int| 0 <= j < i && l.is_account_of(j, member_id, kind) {
        let j = choose|j: int| 0 <= j < i && l.is_account_of(j, member_id, kind);
        lemma_first_account_below(l, member_id, kind, j);
    } else {
        assert(l.first_account(i, member_id, kind));
    }
}

/// When the member has an account of that type, `account_index` is the first one.
pub proof fn lemma_first_account(l: Ledger, member_id: Seq<char>, kind: Seq<char>)
    requires
        l.has_account(member_id, kind),
    ensures
        l.first_account(account_index(l, member_id, kind), member_id, kind),
{
    let i = choose|i: int| 0 <= i < l.accounts@.len() && l.is_account_of(i, member_id, kind);
    lemma_first_account_below(l, member_id, kind, i);
}

pub proof fn lemma_member_index(l: Ledger, id: Seq<char>, i: int)
    requires
        l.wf(),
        0 <= i < l.members@.len(),
        l.is_active_member(i, id),
    ensures
        member_index(l, id) == i,
{
    let c = member_index(l, id);
    assert(0 <= c < l.members@.len() && l.is_active_member(c, id));
    if c < i {
        assert(l.members@[c].id@ != l.members@[i].id@);
    } else if i < c {
        assert(l.members@[i].id@ != l.members@[c].id@);
    }
}

/// Lower-case name of an account type, as descriptions spell it.
pub open spec fn kind_lower(kind: SavingsAccountType) -> Seq<char> {
    match kind {
        SavingsAccountType::Principal => "pokok"@,
        SavingsAccountType::Mandatory => "wajib"@,
        SavingsAccountType::Voluntary => "manasuka"@,
    }
}

pub open spec fn savings_description(movement: SavingsMovement, kind: SavingsAccountType) -> Seq<
    char,
> {
    movement.text() + " simpanan "@ + kind_lower(kind)
}

pub open spec fn savings_prefix(movement: SavingsMovement) -> Seq<char> {
    match movement {
        SavingsMovement::Deposit => "SAV-IN"@,
        SavingsMovement::Withdrawal => "SAV-OUT"@,
    }
}

pub open spec fn savings_type(movement: SavingsMovement) -> Seq<char> {
    match movement {
        SavingsMovement::Deposit => "SAVINGS_DEPOSIT"@,
        SavingsMovement::Withdrawal => "SAVINGS_WITHDRAWAL"@,
    }
}

pub open spec fn savings_direction(movement: SavingsMovement) -> TransactionDirection {
    match movement {
        SavingsMovement::Deposit => TransactionDirection::In,
        SavingsMovement::Withdrawal => TransactionDirection::Out,
    }
}

/// The reference given, trimmed, or `default` when none is given.
pub open spec fn given_or(reference: Seq<char>, default: Seq<char>) -> Seq<char> {
    if trimmed(reference).len() == 0 {
        default
    } else {
        trimmed(reference)
    }
}

pub open spec fn savings_reference(input: SavingsTransactionInput, id: Seq<char>) -> Seq<char> {
    given_or(input.reference@, "KBS/SAV/"@ + id)
}

/// Balance of the account once the movement is applied.
pub open spec fn moved_balance(balance: int, movement: SavingsMovement, amount: int) -> int {
    match movement {
        SavingsMovement::Deposit => balance + amount,
        SavingsMovement::Withdrawal => balance - amount,
    }
}

/// The refusals that come before an identifier is drawn, in the order they are checked.
pub open spec fn savings_early_rejection(l: Ledger, input: SavingsTransactionInput) -> Option<
    Seq<char>,
> {
    let kind = SavingsAccountType::from_text(input.account_type@);
    let movement = SavingsMovement::from_text(input.movement@);
    if input.amount <= 0 {
        Some("Nominal transaksi harus lebih dari nol."@)
    } else if kind is None {
        Some(invalid_value("SavingsAccountType"@, input.account_type@))
    } else if movement is None {
        Some(invalid_value("SavingsMovement"@, input.movement@))
    } else if movement.unwrap() == SavingsMovement::Withdrawal && kind.unwrap()
        != SavingsAccountType::Voluntary {
        Some("Hanya simpanan manasuka yang dapat ditarik pada versi ini."@)
    } else if !valid_date(input.business_date@) {
        Some(invalid_date_message())
    } else if l.period_locked(input.business_date@.subrange(0, 7)) {
        Some(locked_message())
    } else if !l.has_active_member(input.member_id@) {
        Some(member_missing_message())
    } else if !l.has_account(input.member_id@, kind.unwrap().text()) {
        Some(row_not_found_message())
    } else if movement.unwrap() == SavingsMovement::Withdrawal && l.accounts@[account_index(
        l,
        input.member_id@,
        kind.unwrap().text(),
    )].balance < input.amount {
        Some("Saldo manasuka tidak mencukupi."@)
    } else {
        None
    }
}

/// Every refusal of a savings movement, in the order they are checked.
pub open spec fn savings_rejection(
    l: Ledger,
    input: SavingsTransactionInput,
    ids: IdSource,
) -> Option<Seq<char>> {
    if savings_early_rejection(l, input) is Some {
        savings_early_rejection(l, input)
    } else {
        let kind = SavingsAccountType::from_text(input.account_type@).unwrap();
        let movement = SavingsMovement::from_text(input.movement@).unwrap();
        let a = l.accounts@[account_index(l, input.member_id@, kind.text())];
        let id = ids.peek(savings_prefix(movement));
        if l.has_reference(savings_reference(input, id)) {
            Some(duplicate_reference_message())
        } else if l.has_transaction_id(id) {
            Some(duplicate_key_message("transactions"@, "id"@))
        } else if moved_balance(a.balance as int, movement, input.amount as int) > i64::MAX {
            Some("Saldo rekening terlalu besar."@)
        } else {
            None
        }
    }
}

/// The books after the movement is posted: the account's balance moves, and
/// one transaction with one component, one cash posting and one audit event
/// are written.
pub open spec fn savings_posted(
    old: Ledger,
    new: Ledger,
    input: SavingsTransactionInput,
    ids: IdSource,
) -> bool {
    let kind = SavingsAccountType::from_text(input.account_type@).unwrap();
    let movement = SavingsMovement::from_text(input.movement@).unwrap();
    let k = account_index(old, input.member_id@, kind.text());
    let a = old.accounts@[k];
    let id = ids.peek(savings_prefix(movement));
    let reference = savings_reference(input, id);
    let description = savings_description(movement, kind);
    let direction = savings_direction(movement).text();
    let t = new.transactions@.last();
    &&& new.company_id == old.company_id
    &&& new.members == old.members
    &&& new.loans == old.loans
    &&& new.periods == old.periods
    &&& new.accounts@ == old.accounts@.update(
        k,
        crate::ledger::SavingsAccount {
            balance: moved_balance(a.balance as int, movement, input.amount as int) as i64,
            ..a
        },
    )
    &&& extends_by_one(new.transactions@, old.transactions@)
    &&& header_is(
        t,
        id,
        input.business_date@,
        input.display_date@,
        input.display_time@,
        Some(input.member_id@),
        old.members@[member_index(old, input.member_id@)].name@,
        savings_type(movement),
        description,
        reference,
        direction,
        input.amount as int,
        None,
        local_actor(),
    )
    &&& t.components@.len() == 1
    &&& component_is(
        t.components@[0],
        savings_type(movement),
        description,
        input.amount as int,
        None,
        Some(a.id@),
    )
    &&& extends_by_one(new.cash_postings@, old.cash_postings@)
    &&& posting_is(new.cash_postings@.last(), id, direction, input.amount as int)
    &&& extends_by_one(new.audit_events@, old.audit_events@)
    &&& audit_is(
        new.audit_events@.last(),
        "TRANSACTION"@,
        id,
        "POSTED"@,
        None,
        AuditFacts::SavingsPosted {
            movement: movement.text(),
            account_type: kind.text(),
            amount: input.amount as int,
            reference,
        },
    )
}

fn kind_lower_str(kind: SavingsAccountType) -> (r: &'static str)
    ensures
        r@ == kind_lower(kind),
{
    match kind {
        SavingsAccountType::Principal => "pokok",
        SavingsAccountType::Mandatory => "wajib",
        SavingsAccountType::Voluntary => "manasuka",
    }
}

/// Posts a deposit into, or a withdrawal from, a member's savings account.
pub fn post_savings_transaction(
    ledger: &mut Ledger,
    input: &SavingsTransactionInput,
    ids: &mut IdSource,
) -> (r: Result<(), String>)
    requires
        old(ledger).wf(),
    ensures
        final(ledger).wf(),
        match savings_rejection(*old(ledger), *input, *old(ids)) {
            Some(m) => r matches Err(e) && e@ == m && *final(ledger) == *old(ledger),
            None => r is Ok && savings_posted(*old(ledger), *final(ledger), *input, *old(ids)),
        },
        *final(ids) == if savings_early_rejection(*old(ledger), *input) is None {
            old(ids).advanced()
        } else {
            *old(ids)
        },
{
    if input.amount <= 0 {
        return Err(text("Nominal transaksi harus lebih dari nol."));
    }
    let kind = SavingsAccountType::parse(input.account_type.as_str())?;
    let movement = SavingsMovement::parse(input.movement.as_str())?;
    if movement == SavingsMovement::Withdrawal && kind != SavingsAccountType::Voluntary {
        return Err(text("Hanya simpanan manasuka yang dapat ditarik pada versi ini."));
    }
    let period = business_period(input.business_date.as_str())?;
    if ledger.is_period_locked(period) {
        return Err(text("Periode transaksi sudah dikunci."));
    }
    let mi = match ledger.find_active_member(input.member_id.as_str()) {
        Some(i) => i,
        None => {
            return Err(text("Anggota aktif tidak ditemukan."));
        },
    };
    let k = match ledger.find_account(input.member_id.as_str(), kind.as_str()) {
        Some(k) => k,
        None => {
            return Err(text("no rows returned by a query that expected to return at least one row"));
        },
    };
    proof {
        lemma_account_index(*ledger, input.member_id@, kind.text(), k as int);
        lemma_member_index(*ledger, input.member_id@, mi as int);
    }
    let balance = ledger.accounts[k].balance;
    if movement == SavingsMovement::Withdrawal && balance < input.amount {
        return Err(text("Saldo manasuka tidak mencukupi."));
    }
    let deposit = movement == SavingsMovement::Deposit;
    let id = ids.fresh(if deposit {
        "SAV-IN"
    } else {
        "SAV-OUT"
    });
    let given = trim(input.reference.as_str());
    let reference = if given.unicode_len() == 0 {
        let mut s = text("KBS/SAV/");
        append(&mut s, id.as_str());
        s
    } else {
        given
    };
    if ledger.reference_taken(reference.as_str()) {
        return Err(text("Nomor referensi sudah pernah diposting."));
    }
    if ledger.find_transaction(id.as_str()).is_some() {
        return Err(crate::ledger::duplicate_key("transactions", "id"));
    }
    let new_balance = if deposit {
        match balance.checked_add(input.amount) {
            Some(v) => v,
            None => {
                return Err(text("Saldo rekening terlalu besar."));
            },
        }
    } else {
        balance - input.amount
    };
    let transaction_type = if deposit {
        "SAVINGS_DEPOSIT"
    } else {
        "SAVINGS_WITHDRAWAL"
    };
    let direction = if deposit {
        TransactionDirection::In
    } else {
        TransactionDirection::Out
    };
    let mut description = text(movement.as_str());
    append(&mut description, " simpanan ");
    append(&mut description, kind_lower_str(kind));
    let account_id = ledger.accounts[k].id.clone();
    let mut components: Vec<Component> = Vec::new();
    components.push(
        Component {
            component_type: text(transaction_type),
            label: description.clone(),
            amount: input.amount,
            loan_id: None,
            savings_account_id: Some(account_id),
        },
    );
    let member_name = ledger.members[mi].name.clone();
    let transaction = Transaction {
        id: id.clone(),
        business_date: input.business_date.clone(),
        display_date: input.display_date.clone(),
        display_time: input.display_time.clone(),
        member_id: Some(input.member_id.clone()),
        member_name,
        transaction_type: text(transaction_type),
        description,
        reference: reference.clone(),
        direction: text(direction.as_str()),
        amount: input.amount,
        status: text(TransactionStatus::Posted.as_str()),
        reversed_transaction_id: None,
        actor: text("Aplikasi lokal"),
        components,
    };
    let ghost before = *ledger;
    ledger.transactions.push(transaction);
    ledger.accounts[k].balance = new_balance;
    ledger.cash_postings.push(
        CashPosting {
            transaction_id: id.clone(),
            direction: text(direction.as_str()),
            amount: input.amount,
        },
    );
    ledger.audit_events.push(
        AuditEvent {
            entity_type: text("TRANSACTION"),
            entity_id: id,
            action: text("POSTED"),
            before: None,
            after: AuditPayload::SavingsPosted {
                movement: text(movement.as_str()),
                account_type: text(kind.as_str()),
                amount: input.amount,
                reference,
            },
            actor: text("Aplikasi lokal"),
        },
    );
    proof {
        assert(ledger.transactions@.subrange(0, before.transactions@.len() as int)
            =~= before.transactions@);
        assert(ledger.cash_postings@.subrange(0, before.cash_postings@.len() as int)
            =~= before.cash_postings@);
        assert(ledger.audit_events@.subrange(0, before.audit_events@.len() as int)
            =~= before.audit_events@);
        assert(ledger.accounts@ =~= before.accounts@.update(
            k as int,
            crate::ledger::SavingsAccount { balance: new_balance, ..before.accounts@[k as int] },
        ));
        assert forall|i: int, j: int|
            0 <= i < j < ledger.transactions@.len() implies ledger.transactions@[i].id@
            != ledger.transactions@[j].id@ by {
            if j == before.transactions@.len() {
                assert(before.transactions@[i].id@ != id@);
            }
        }
        assert forall|i: int, j: int|
            0 <= i < j < ledger.accounts@.len() implies ledger.accounts@[i].id@
            != ledger.accounts@[j].id@ by {
            assert(before.accounts@[i].id@ != before.accounts@[j].id@);
        }
    }
    Ok(())
}


// ---------------------------------------------------------------------------
// Member payments

/// A running loan of the member that still has a balance.
pub open spec fn is_payment_candidate(loan: LoanFacts, member_id: Seq<char>) -> bool {
    &&& loan.member_id == Some(member_id)
    &&& loan.status == LoanStatus::Active.text()
    &&& loan.balance > 0
}

/// Keys of the candidate loans, in table order: realization date, then id.
pub open spec fn candidate_keys(loans: Seq<LoanFacts>, member_id: Seq<char>) -> Seq<KeyFacts>
    decreases loans.len(),
{
    if loans.len() == 0 {
        Seq::empty()
    } else if is_payment_candidate(loans.last(), member_id) {
        candidate_keys(loans.drop_last(), member_id).push(
            KeyFacts {
                rank: 0,
                first: loans.last().realization_date,
                second: loans.last().id,
                index: loans.len() - 1,
            },
        )
    } else {
        candidate_keys(loans.drop_last(), member_id)
    }
}

/// The order in which a payment's principal settles the member's loans: by
/// realization date, then by id.
pub open spec fn payment_order(loans: Seq<LoanFacts>, member_id: Seq<char>) -> Seq<KeyFacts> {
    candidate_keys(loans, member_id).sort_by(key_order())
}

pub open spec fn min(a: int, b: int) -> int {
    if a < b {
        a
    } else {
        b
    }
}

/// Settles `remaining` of principal against the loans in `order`, each loan
/// taking as much as its balance allows, until nothing remains. Gives the
/// loans afterwards, the amount each settled loan took, and what remains.
pub open spec fn settle(loans: Seq<LoanFacts>, order: Seq<KeyFacts>, remaining: int) -> (
    Seq<LoanFacts>,
    Seq<(Seq<char>, int)>,
    int,
)
    decreases order.len(),
{
    if order.len() == 0 || remaining == 0 {
        (loans, Seq::empty(), remaining)
    } else {
        let i = order[0].index;
        let taken = min(remaining, loans[i].balance as int);
        let balance = loans[i].balance - taken;
        let settled = loans.update(
            i,
            LoanFacts {
                balance: balance as i64,
                status: if balance == 0 {
                    LoanStatus::PaidOff.text()
                } else {
                    loans[i].status
                },
                ..loans[i]
            },
        );
        let rest = settle(settled, order.drop_first(), remaining - taken);
        (rest.0, seq![(loans[i].id, taken)] + rest.1, rest.2)
    }
}

pub open spec fn payment_total(input: PaymentInput) -> int {
    input.principal + input.interest + input.wajib + input.voluntary
}

pub open spec fn payment_reference(input: PaymentInput, id: Seq<char>) -> Seq<char> {
    given_or(input.reference@, "KBS/RCPT/"@ + id)
}

pub open spec fn payment_early_rejection(l: Ledger, input: PaymentInput) -> Option<Seq<char>> {
    if input.principal < 0 || input.interest < 0 || input.wajib < 0 || input.voluntary < 0 {
        Some("Komponen pembayaran tidak boleh negatif."@)
    } else if payment_total(input) > i64::MAX {
        Some("Total pembayaran terlalu besar."@)
    } else if payment_total(input) <= 0 {
        Some("Total pembayaran harus lebih dari nol."@)
    } else if !valid_date(input.business_date@) {
        Some(invalid_date_message())
    } else if l.period_locked(input.business_date@.subrange(0, 7)) {
        Some(locked_message())
    } else if !l.has_active_member(input.member_id@) {
        Some(member_missing_message())
    } else {
        None
    }
}

pub open spec fn savings_full_message() -> Seq<char> {
    "Saldo rekening terlalu besar atau rekening tidak ditemukan."@
}

/// Refusal of the savings part of a payment into the account of type `kind`.
pub open spec fn deposit_rejection(l: Ledger, member_id: Seq<char>, kind: SavingsAccountType, value: int) -> Option<Seq<char>> {
    if value > 0 && !l.has_account(member_id, kind.text()) {
        Some(row_not_found_message())
    } else if value > 0 && l.accounts@[account_index(l, member_id, kind.text())].balance > i64::MAX
        - value {
        Some(savings_full_message())
    } else {
        None
    }
}

pub open spec fn payment_rejection(l: Ledger, input: PaymentInput, ids: IdSource) -> Option<
    Seq<char>,
> {
    let id = ids.peek("TRX"@);
    let settled = settle(
        l.loan_table(),
        payment_order(l.loan_table(), input.member_id@),
        input.principal as int,
    );
    if payment_early_rejection(l, input) is Some {
        payment_early_rejection(l, input)
    } else if l.has_reference(payment_reference(input, id)) {
        Some(duplicate_reference_message())
    } else if l.has_transaction_id(id) {
        Some(duplicate_key_message("transactions"@, "id"@))
    } else if settled.2 > 0 {
        Some("Pembayaran pokok melebihi saldo pinjaman berjalan."@)
    } else if deposit_rejection(l, input.member_id@, SavingsAccountType::Mandatory, input.wajib as int) is Some {
        deposit_rejection(l, input.member_id@, SavingsAccountType::Mandatory, input.wajib as int)
    } else {
        deposit_rejection(l, input.member_id@, SavingsAccountType::Voluntary, input.voluntary as int)
    }
}

pub open spec fn principal_components(allocations: Seq<(Seq<char>, int)>) -> Seq<ComponentFacts> {
    allocations.map_values(
        |a: (Seq<char>, int)|
            ComponentFacts {
                component_type: "LOAN_PRINCIPAL"@,
                label: "Pokok pinjaman"@,
                amount: a.1,
                loan_id: Some(a.0),
                savings_account_id: None,
            },
    )
}

/// One component when `value` is positive, none otherwise.
pub open spec fn optional_component(
    value: int,
    component_type: Seq<char>,
    label: Seq<char>,
    savings_account_id: Option<Seq<char>>,
) -> Seq<ComponentFacts> {
    if value > 0 {
        seq![
            ComponentFacts {
                component_type,
                label,
                amount: value,
                loan_id: None,
                savings_account_id,
            },
        ]
    } else {
        Seq::empty()
    }
}

/// The account table once `value` is deposited into the member's account of type `kind`.
pub open spec fn deposited(l: Ledger, accounts: Seq<crate::ledger::AccountFacts>, member_id: Seq<char>, kind: SavingsAccountType, value: int) -> Seq<crate::ledger::AccountFacts> {
    if value > 0 {
        let k = account_index(l, member_id, kind.text());
        accounts.update(k, crate::ledger::AccountFacts { balance: (accounts[k].balance + value) as i64, ..accounts[k] })
    } else {
        accounts
    }
}

pub open spec fn account_id_of(l: Ledger, member_id: Seq<char>, kind: SavingsAccountType) -> Seq<char> {
    l.accounts@[account_index(l, member_id, kind.text())].id@
}

/// The books after a payment: principal settles the member's running loans
/// oldest first, mandatory and voluntary savings go to their accounts, and one
/// transaction carrying every part, one cash posting and one audit event are
/// written.
pub open spec fn payment_posted(old: Ledger, new: Ledger, input: PaymentInput, ids: IdSource) -> bool {
    let id = ids.peek("TRX"@);
    let reference = payment_reference(input, id);
    let settled = settle(
        old.loan_table(),
        payment_order(old.loan_table(), input.member_id@),
        input.principal as int,
    );
    let t = new.transactions@.last();
    let m = input.member_id@;
    &&& new.company_id == old.company_id
    &&& new.members == old.members
    &&& new.periods == old.periods
    &&& new.loan_table() == settled.0
    &&& new.account_table() == deposited(
        old,
        deposited(old, old.account_table(), m, SavingsAccountType::Mandatory, input.wajib as int),
        m,
        SavingsAccountType::Voluntary,
        input.voluntary as int,
    )
    &&& extends_by_one(new.transactions@, old.transactions@)
    &&& header_is(
        t,
        id,
        input.business_date@,
        input.display_date@,
        input.display_time@,
        Some(m),
        old.members@[member_index(old, m)].name@,
        "MEMBER_PAYMENT"@,
        "Pembayaran anggota"@,
        reference,
        TransactionDirection::In.text(),
        payment_total(input),
        None,
        local_actor(),
    )
    &&& component_facts(t.components@) == principal_components(settled.1) + optional_component(
        input.interest as int,
        "LOAN_INTEREST"@,
        "Bunga pinjaman"@,
        None,
    ) + optional_component(
        input.wajib as int,
        "SAVINGS_WAJIB"@,
        "Simpanan wajib"@,
        Some(account_id_of(old, m, SavingsAccountType::Mandatory)),
    ) + optional_component(
        input.voluntary as int,
        "SAVINGS_VOLUNTARY"@,
        "Simpanan manasuka"@,
        Some(account_id_of(old, m, SavingsAccountType::Voluntary)),
    )
    &&& extends_by_one(new.cash_postings@, old.cash_postings@)
    &&& posting_is(new.cash_postings@.last(), id, TransactionDirection::In.text(), payment_total(input))
    &&& extends_by_one(new.audit_events@, old.audit_events@)
    &&& audit_is(
        new.audit_events@.last(),
        "TRANSACTION"@,
        id,
        "POSTED"@,
        None,
        AuditFacts::PaymentPosted { amount: payment_total(input), reference },
    )
}

pub open spec fn candidate_key(loans: Seq<LoanFacts>, i: int) -> KeyFacts {
    KeyFacts { rank: 0, first: loans[i].realization_date, second: loans[i].id, index: i }
}

proof fn lemma_candidate_keys(loans: Seq<LoanFacts>, member_id: Seq<char>)
    ensures
        ({
            let c = candidate_keys(loans, member_id);
            &&& forall|q: int|
                0 <= q < c.len() ==> 0 <= #[trigger] c[q].index < loans.len()
                    && is_payment_candidate(loans[c[q].index], member_id) && c[q] == candidate_key(
                    loans,
                    c[q].index,
                )
            &&& forall|p: int, q: int| 0 <= p < q < c.len() ==> #[trigger] c[p].index < #[trigger] c[q].index
        }),
    decreases loans.len(),
{
    if loans.len() > 0 {
        let d = loans.drop_last();
        lemma_candidate_keys(d, member_id);
        let c0 = candidate_keys(d, member_id);
        assert forall|q: int| 0 <= q < c0.len() implies candidate_key(d, c0[q].index) == candidate_key(loans, c0[q].index) by {
            assert(d[c0[q].index] == loans[c0[q].index]);
        }
    }
}

/// The candidate loans in payment order: each is a running loan of the member
/// with a balance, and none comes twice.
pub proof fn lemma_payment_order(loans: Seq<LoanFacts>, member_id: Seq<char>)
    ensures
        ({
            let o = payment_order(loans, member_id);
            &&& forall|q: int|
                0 <= q < o.len() ==> 0 <= #[trigger] o[q].index < loans.len()
                    && is_payment_candidate(loans[o[q].index], member_id)
            &&& forall|p: int, q: int|
                0 <= p < o.len() && 0 <= q < o.len() && p != q ==> #[trigger] o[p].index
                    != #[trigger] o[q].index
        }),
{
    let c = candidate_keys(loans, member_id);
    let o = payment_order(loans, member_id);
    lemma_candidate_keys(loans, member_id);
    crate::order::lemma_key_order();
    c.lemma_sort_by_ensures(key_order());
    assert(c.no_duplicates()) by {
        assert forall|p: int, q: int| 0 <= p < c.len() && 0 <= q < c.len() && p != q implies c[p] != c[q] by {
            if p < q {
                assert(c[p].index < c[q].index);
            } else {
                assert(c[q].index < c[p].index);
            }
        }
    }
    c.lemma_multiset_has_no_duplicates();
    o.lemma_multiset_has_no_duplicates_conv();
    assert forall|q: int| 0 <= q < o.len() implies 0 <= #[trigger] o[q].index < loans.len()
        && is_payment_candidate(loans[o[q].index], member_id) && o[q] == candidate_key(loans, o[q].index) by {
        assert(o.contains(o[q]));
        assert(c.contains(o[q]));
        let p = choose|p: int| 0 <= p < c.len() && c[p] == o[q];
    }
    assert forall|p: int, q: int|
        0 <= p < o.len() && 0 <= q < o.len() && p != q implies #[trigger] o[p].index
            != #[trigger] o[q].index by {
        assert(o[p] != o[q]);
        assert(o[p] == candidate_key(loans, o[p].index));
        assert(o[q] == candidate_key(loans, o[q].index));
    }
}

/// Keys of the candidate loans.
fn payment_candidates(loans: &Vec<Loan>, member_id: &str) -> (r: Vec<SortKey>)
    ensures
        key_facts(r@) == candidate_keys(loan_facts(loans@), member_id@),
{
    let mut r: Vec<SortKey> = Vec::new();
    let n = loans.len();
    let mut i: usize = 0;
    while i < n
        invariant
            n == loans@.len(),
            i <= n,
            key_facts(r@) == candidate_keys(loan_facts(loans@.subrange(0, i as int)), member_id@),
        decreases n - i,
    {
        let loan = &loans[i];
        let candidate = match &loan.member_id {
            Some(m) => crate::text::same_text(m.as_str(), member_id),
            None => false,
        } && crate::text::same_text(loan.status.as_str(), LoanStatus::Active.as_str())
            && loan.balance > 0;
        proof {
            assert(loan_facts(loans@.subrange(0, i + 1)).drop_last() =~= loan_facts(
                loans@.subrange(0, i as int),
            ));
            assert(loan_facts(loans@.subrange(0, i + 1)).last() == loan.facts());
        }
        if candidate {
            r.push(
                SortKey {
                    rank: 0,
                    first: loan.realization_date.clone(),
                    second: loan.id.clone(),
                    index: i,
                },
            );
            proof {
                assert(key_facts(r@) =~= candidate_keys(
                    loan_facts(loans@.subrange(0, i as int)),
                    member_id@,
                ).push(
                    KeyFacts {
                        rank: 0,
                        first: loan.realization_date@,
                        second: loan.id@,
                        index: i as int,
                    },
                ));
            }
        }
        i = i + 1;
    }
    proof {
        assert(loans@.subrange(0, n as int) =~= loans@);
    }
    r
}

/// Settles the principal against the loans in the given order on a copy of the loans.
fn settle_loans(loans: &Vec<Loan>, order: &Vec<SortKey>, principal: i64) -> (r: (
    Vec<Loan>,
    Vec<Component>,
    i64,
))
    requires
        principal >= 0,
        forall|q: int|
            0 <= q < order@.len() ==> (#[trigger] order@[q]).index < loans@.len()
                && loans@[order@[q].index as int].balance > 0,
        forall|p: int, q: int|
            0 <= p < order@.len() && 0 <= q < order@.len() && p != q ==> (#[trigger] order@[p]).index
                != (#[trigger] order@[q]).index,
    ensures
        ({
            let s = settle(loan_facts(loans@), key_facts(order@), principal as int);
            &&& loan_facts(r.0@) == s.0
            &&& component_facts(r.1@) == principal_components(s.1)
            &&& r.2 == s.2
        }),
{
    let ghost l0 = loan_facts(loans@);
    let ghost o = key_facts(order@);
    let mut lns = crate::transactions::copy_loans(loans);
    let mut components: Vec<Component> = Vec::new();
    let mut remaining = principal;
    let n = order.len();
    let mut k: usize = 0;
    assert(o.subrange(0, n as int) =~= o);
    while k < n && remaining != 0
        invariant
            n == order@.len(),
            o == key_facts(order@),
            l0 == loan_facts(loans@),
            k <= n,
            remaining >= 0,
            lns@.len() == loans@.len(),
            forall|q: int|
                0 <= q < order@.len() ==> (#[trigger] order@[q]).index < loans@.len()
                    && loans@[order@[q].index as int].balance > 0,
            forall|p: int, q: int|
                0 <= p < order@.len() && 0 <= q < order@.len() && p != q ==> (#[trigger] order@[p]).index
                    != (#[trigger] order@[q]).index,
            forall|q: int| k <= q < n ==> lns@[(#[trigger] order@[q]).index as int].balance == loans@[order@[q].index as int].balance,
            settle(l0, o, principal as int).0 == settle(loan_facts(lns@), o.subrange(k as int, n as int), remaining as int).0,
            settle(l0, o, principal as int).2 == settle(loan_facts(lns@), o.subrange(k as int, n as int), remaining as int).2,
            principal_components(settle(l0, o, principal as int).1) == component_facts(components@)
                + principal_components(settle(loan_facts(lns@), o.subrange(k as int, n as int), remaining as int).1),
        decreases n - k,
    {
        let i = order[k].index;
        let ghost cur = loan_facts(lns@);
        let ghost rest = o.subrange(k as int, n as int);
        assert(lns@[order@[k as int].index as int].balance == loans@[order@[k as int].index as int].balance);
        let balance = lns[i].balance;
        let taken = if remaining < balance {
            remaining
        } else {
            balance
        };
        let new_balance = balance - taken;
        lns[i].balance = new_balance;
        if new_balance == 0 {
            lns[i].status = text(LoanStatus::PaidOff.as_str());
        }
        let loan_id = lns[i].id.clone();
        components.push(
            Component {
                component_type: text("LOAN_PRINCIPAL"),
                label: text("Pokok pinjaman"),
                amount: taken,
                loan_id: Some(loan_id),
                savings_account_id: None,
            },
        );
        remaining = remaining - taken;
        proof {
            assert(rest[0] == o[k as int]);
            assert(rest.drop_first() =~= o.subrange(k + 1, n as int));
            assert(loan_facts(lns@) =~= cur.update(
                i as int,
                LoanFacts {
                    balance: new_balance,
                    status: if new_balance == 0 {
                        LoanStatus::PaidOff.text()
                    } else {
                        cur[i as int].status
                    },
                    ..cur[i as int]
                },
            ));
            let s = settle(cur, rest, (remaining + taken) as int);
            assert(s.1 == seq![(cur[i as int].id, taken as int)] + settle(loan_facts(lns@), o.subrange(k + 1, n as int), remaining as int).1);
            assert(principal_components(s.1) =~= principal_components(seq![(cur[i as int].id, taken as int)]) + principal_components(settle(loan_facts(lns@), o.subrange(k + 1, n as int), remaining as int).1));
            assert(component_facts(components@) =~= component_facts(components@.drop_last()).push(components@.last().facts()));
            assert forall|q: int| k + 1 <= q < n implies lns@[(#[trigger] order@[q]).index as int].balance == loans@[order@[q].index as int].balance by {
                assert(order@[q].index != order@[k as int].index);
            }
        }
        k = k + 1;
    }
    proof {
        let s = settle(loan_facts(lns@), o.subrange(k as int, n as int), remaining as int);
        assert(s.1 =~= Seq::<(Seq<char>, int)>::empty());
        assert(principal_components(s.1) =~= Seq::<ComponentFacts>::empty());
        assert(component_facts(components@) + principal_components(s.1) =~= component_facts(components@));
    }
    (lns, components, remaining)
}

/// Posts a member's combined payment: loan principal, loan interest, and
/// mandatory and voluntary savings, in one transaction.
pub fn post_payment(ledger: &mut Ledger, input: &PaymentInput, ids: &mut IdSource) -> (r: Result<
    (),
    String,
>)
    requires
        old(ledger).wf(),
    ensures
        final(ledger).wf(),
        match payment_rejection(*old(ledger), *input, *old(ids)) {
            Some(m) => r matches Err(e) && e@ == m && *final(ledger) == *old(ledger),
            None => r is Ok && payment_posted(*old(ledger), *final(ledger), *input, *old(ids)),
        },
        *final(ids) == if payment_early_rejection(*old(ledger), *input) is None {
            old(ids).advanced()
        } else {
            *old(ids)
        },
{
    if input.principal < 0 || input.interest < 0 || input.wajib < 0 || input.voluntary < 0 {
        return Err(text("Komponen pembayaran tidak boleh negatif."));
    }
    let amount = match input.principal.checked_add(input.interest) {
        Some(a) => match a.checked_add(input.wajib) {
            Some(b) => match b.checked_add(input.voluntary) {
                Some(c) => c,
                None => {
                    return Err(text("Total pembayaran terlalu besar."));
                },
            },
            None => {
                return Err(text("Total pembayaran terlalu besar."));
            },
        },
        None => {
            return Err(text("Total pembayaran terlalu besar."));
        },
    };
    if amount <= 0 {
        return Err(text("Total pembayaran harus lebih dari nol."));
    }
    let period = business_period(input.business_date.as_str())?;
    if ledger.is_period_locked(period) {
        return Err(text("Periode transaksi sudah dikunci."));
    }
    let mi = match ledger.find_active_member(input.member_id.as_str()) {
        Some(i) => i,
        None => {
            return Err(text("Anggota aktif tidak ditemukan."));
        },
    };
    proof {
        lemma_member_index(*ledger, input.member_id@, mi as int);
    }
    let id = ids.fresh("TRX");
    let given = trim(input.reference.as_str());
    let reference = if given.unicode_len() == 0 {
        let mut s = text("KBS/RCPT/");
        append(&mut s, id.as_str());
        s
    } else {
        given
    };
    if ledger.reference_taken(reference.as_str()) {
        return Err(text("Nomor referensi sudah pernah diposting."));
    }
    if ledger.find_transaction(id.as_str()).is_some() {
        return Err(crate::ledger::duplicate_key("transactions", "id"));
    }
    let keys = payment_candidates(&ledger.loans, input.member_id.as_str());
    let order = sort_keys(keys);
    proof {
        lemma_payment_order(ledger.loan_table(), input.member_id@);
        assert(key_facts(order@) == payment_order(ledger.loan_table(), input.member_id@));
        assert forall|q: int| 0 <= q < order@.len() implies (#[trigger] order@[q]).index
            < ledger.loans@.len() && ledger.loans@[order@[q].index as int].balance > 0 by {
            assert(key_facts(order@)[q].index == order@[q].index);
            assert(ledger.loan_table()[order@[q].index as int].balance == ledger.loans@[order@[q].index as int].balance);
        }
        assert forall|p: int, q: int|
            0 <= p < order@.len() && 0 <= q < order@.len() && p != q implies (#[trigger] order@[p]).index
                != (#[trigger] order@[q]).index by {
            assert(key_facts(order@)[p].index == order@[p].index);
            assert(key_facts(order@)[q].index == order@[q].index);
        }
    }
    let (loans, mut components, remaining) = settle_loans(&ledger.loans, &order, input.principal);
    if remaining > 0 {
        return Err(text("Pembayaran pokok melebihi saldo pinjaman berjalan."));
    }
    let ghost principal_part = component_facts(components@);
    if input.interest > 0 {
        components.push(
            Component {
                component_type: text("LOAN_INTEREST"),
                label: text("Bunga pinjaman"),
                amount: input.interest,
                loan_id: None,
                savings_account_id: None,
            },
        );
    }
    let ghost with_interest = component_facts(components@);
    let mut wajib_account: Option<usize> = None;
    if input.wajib > 0 {
        match ledger.find_account(input.member_id.as_str(), SavingsAccountType::Mandatory.as_str()) {
            None => {
                return Err(text("no rows returned by a query that expected to return at least one row"));
            },
            Some(k) => {
                proof {
                    lemma_account_index(*ledger, input.member_id@, SavingsAccountType::Mandatory.text(), k as int);
                }
                if ledger.accounts[k].balance > i64::MAX - input.wajib {
                    return Err(text("Saldo rekening terlalu besar atau rekening tidak ditemukan."));
                }
                components.push(
                    Component {
                        component_type: text("SAVINGS_WAJIB"),
                        label: text("Simpanan wajib"),
                        amount: input.wajib,
                        loan_id: None,
                        savings_account_id: Some(ledger.accounts[k].id.clone()),
                    },
                );
                wajib_account = Some(k);
            },
        }
    }
    let ghost with_wajib = component_facts(components@);
    let mut voluntary_account: Option<usize> = None;
    assert(wajib_account matches Some(w) ==> w < ledger.accounts@.len() && ledger.accounts@[w as int].account_type@ == SavingsAccountType::Mandatory.text() && ledger.accounts@[w as int].balance <= i64::MAX - input.wajib);
    if input.voluntary > 0 {
        match ledger.find_account(input.member_id.as_str(), SavingsAccountType::Voluntary.as_str()) {
            None => {
                return Err(text("no rows returned by a query that expected to return at least one row"));
            },
            Some(k) => {
                proof {
                    lemma_account_index(*ledger, input.member_id@, SavingsAccountType::Voluntary.text(), k as int);
                }
                if ledger.accounts[k].balance > i64::MAX - input.voluntary {
                    return Err(text("Saldo rekening terlalu besar atau rekening tidak ditemukan."));
                }
                components.push(
                    Component {
                        component_type: text("SAVINGS_VOLUNTARY"),
                        label: text("Simpanan manasuka"),
                        amount: input.voluntary,
                        loan_id: None,
                        savings_account_id: Some(ledger.accounts[k].id.clone()),
                    },
                );
                voluntary_account = Some(k);
                proof {
                    reveal_strlit("WAJIB");
                    reveal_strlit("MANASUKA");
                    assert("WAJIB"@.len() != "MANASUKA"@.len());
                    assert(ledger.accounts@[k as int].account_type@ == SavingsAccountType::Voluntary.text());
                    match wajib_account {
                        Some(w) => {
                            assert(ledger.accounts@[w as int].account_type@ != ledger.accounts@[k as int].account_type@);
                        },
                        None => {},
                    }
                }
            },
        }
    }
    proof {
        assert(with_interest =~= principal_part + optional_component(
            input.interest as int,
            "LOAN_INTEREST"@,
            "Bunga pinjaman"@,
            None,
        ));
        assert(with_wajib =~= with_interest + optional_component(
            input.wajib as int,
            "SAVINGS_WAJIB"@,
            "Simpanan wajib"@,
            Some(account_id_of(*ledger, input.member_id@, SavingsAccountType::Mandatory)),
        ));
        assert(component_facts(components@) =~= with_wajib + optional_component(
            input.voluntary as int,
            "SAVINGS_VOLUNTARY"@,
            "Simpanan manasuka"@,
            Some(account_id_of(*ledger, input.member_id@, SavingsAccountType::Voluntary)),
        ));
    }
    let member_name = ledger.members[mi].name.clone();
    let transaction = Transaction {
        id: id.clone(),
        business_date: input.business_date.clone(),
        display_date: input.display_date.clone(),
        display_time: input.display_time.clone(),
        member_id: Some(input.member_id.clone()),
        member_name,
        transaction_type: text("MEMBER_PAYMENT"),
        description: text("Pembayaran anggota"),
        reference: reference.clone(),
        direction: text(TransactionDirection::In.as_str()),
        amount,
        status: text(TransactionStatus::Posted.as_str()),
        reversed_transaction_id: None,
        actor: text("Aplikasi lokal"),
        components,
    };
    let ghost before = *ledger;
    ledger.loans = loans;
    match wajib_account {
        Some(k) => {
            ledger.accounts[k].balance = ledger.accounts[k].balance + input.wajib;
        },
        None => {},
    }
    let ghost mid_accounts = ledger.account_table();
    assert(voluntary_account matches Some(v) ==> v < ledger.accounts@.len() && ledger.accounts@[v as int].balance <= i64::MAX - input.voluntary);
    match voluntary_account {
        Some(k) => {
            ledger.accounts[k].balance = ledger.accounts[k].balance + input.voluntary;
        },
        None => {},
    }
    ledger.transactions.push(transaction);
    ledger.cash_postings.push(
        CashPosting {
            transaction_id: id.clone(),
            direction: text(TransactionDirection::In.as_str()),
            amount,
        },
    );
    ledger.audit_events.push(
        AuditEvent {
            entity_type: text("TRANSACTION"),
            entity_id: id,
            action: text("POSTED"),
            before: None,
            after: AuditPayload::PaymentPosted { amount, reference },
            actor: text("Aplikasi lokal"),
        },
    );
    proof {
        assert(ledger.transactions@.subrange(0, before.transactions@.len() as int)
            =~= before.transactions@);
        assert(ledger.cash_postings@.subrange(0, before.cash_postings@.len() as int)
            =~= before.cash_postings@);
        assert(ledger.audit_events@.subrange(0, before.audit_events@.len() as int)
            =~= before.audit_events@);
        assert(mid_accounts =~= deposited(before, before.account_table(), input.member_id@, SavingsAccountType::Mandatory, input.wajib as int));
        assert(ledger.account_table() =~= deposited(before, mid_accounts, input.member_id@, SavingsAccountType::Voluntary, input.voluntary as int));
        assert forall|i: int, j: int|
            0 <= i < j < ledger.transactions@.len() implies ledger.transactions@[i].id@
            != ledger.transactions@[j].id@ by {
            if j == before.transactions@.len() {
                assert(before.transactions@[i].id@ != id@);
            }
        }
        assert forall|i: int, j: int|
            0 <= i < j < ledger.accounts@.len() implies ledger.accounts@[i].id@
            != ledger.accounts@[j].id@ by {
            assert(before.accounts@[i].id@ != before.accounts@[j].id@);
            assert(ledger.account_table()[i].id == before.account_table()[i].id);
            assert(ledger.account_table()[j].id == before.account_table()[j].id);
        }
        lemma_settle_ids(before.loan_table(), payment_order(before.loan_table(), input.member_id@), input.principal as int);
        assert forall|i: int, j: int|
            0 <= i < j < ledger.loans@.len() implies ledger.loans@[i].id@
            != ledger.loans@[j].id@ by {
            assert(before.loans@[i].id@ != before.loans@[j].id@);
            assert(ledger.loan_table()[i].id == before.loan_table()[i].id);
            assert(ledger.loan_table()[j].id == before.loan_table()[j].id);
        }
    }
    Ok(())
}

/// Settling keeps the number and the ids of the loans.
pub proof fn lemma_settle_ids(loans: Seq<LoanFacts>, order: Seq<KeyFacts>, remaining: int)
    requires
        forall|q: int| 0 <= q < order.len() ==> 0 <= #[trigger] order[q].index < loans.len(),
    ensures
        settle(loans, order, remaining).0.len() == loans.len(),
        forall|i: int| 0 <= i < loans.len() ==> #[trigger] settle(loans, order, remaining).0[i].id == loans[i].id,
    decreases order.len(),
{
    if order.len() > 0 && remaining != 0 {
        let i = order[0].index;
        let taken = min(remaining, loans[i].balance as int);
        let balance = loans[i].balance - taken;
        let settled = loans.update(
            i,
            LoanFacts {
                balance: balance as i64,
                status: if balance == 0 {
                    LoanStatus::PaidOff.text()
                } else {
                    loans[i].status
                },
                ..loans[i]
            },
        );
        assert forall|q: int| 0 <= q < order.drop_first().len() implies 0 <= #[trigger] order.drop_first()[q].index < settled.len() by {
            assert(order.drop_first()[q] == order[q + 1]);
        }
        lemma_settle_ids(settled, order.drop_first(), remaining - taken);
    }
}
} // verus!
