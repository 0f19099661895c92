//! Reversal of posted transactions.

use vstd::prelude::*;

use crate::contracts::ReverseTransactionInput;
use crate::domain::{
    business_period, invalid_date_message, invalid_value, valid_date, LoanStatus,
    TransactionDirection, TransactionStatus,
};
use crate::ledger::{
    audit_is, component_is, duplicate_key_message, header_is, local_actor, locked_message,
    posting_is, some_text, AccountFacts, AuditEvent, AuditFacts, AuditPayload, CashPosting,
    Component, ComponentFacts, IdSource, Ledger, Loan, LoanFacts, SavingsAccount, Transaction,
    account_facts, component_facts,
    extends_by_one, loan_facts,
};
use crate::text::{append, has_prefix, same_text, starts_with, text};

verus! {

pub open spec fn loan_pos(s: Seq<LoanFacts>, id: Seq<char>) -> int {
    choose|i: int| 0 <= i < s.len() && s[i].id == id
}

pub open spec fn has_loan_with(s: Seq<LoanFacts>, id: Seq<char>) -> bool {
    exists|i: int| 0 <= i < s.len() && s[i].id == id
}

pub open spec fn account_pos(s: Seq<AccountFacts>, id: Seq<char>) -> int {
    choose|i: int| 0 <= i < s.len() && s[i].id == id
}

pub open spec fn has_account_with(s: Seq<AccountFacts>, id: Seq<char>) -> bool {
    exists|i: int| 0 <= i < s.len() && s[i].id == id
}

pub open spec fn unique_loans(s: Seq<LoanFacts>) -> bool {
    forall|i: int, j: int| 0 <= i < j < s.len() ==> s[i].id != s[j].id
}

pub open spec fn unique_accounts(s: Seq<AccountFacts>) -> bool {
    forall|i: int, j: int| 0 <= i < j < s.len() ==> s[i].id != s[j].id
}

pub open spec fn tx_pos(l: Ledger, id: Seq<char>) -> int {
    choose|i: int| 0 <= i < l.transactions@.len() && l.transactions@[i].id@ == id
}

pub open spec fn principal_reversal_missing() -> Seq<char> {
    "Pinjaman terkait komponen pembayaran tidak ditemukan."@
}

pub open spec fn disbursement_reversal_refused() -> Seq<char> {
    "Pencairan tidak dapat dibalik setelah pinjaman memiliki pembayaran."@
}

pub open spec fn savings_reversal_refused() -> Seq<char> {
    "Reversal ditolak karena saldo sub-ledger tidak mencukupi."@
}

/// Undoes what one component did to the savings accounts and loans, or the refusal.
pub open spec fn reverse_component(
    accounts: Seq<AccountFacts>,
    loans: Seq<LoanFacts>,
    c: ComponentFacts,
) -> Result<(Seq<AccountFacts>, Seq<LoanFacts>), Seq<char>> {
    let t = c.component_type;
    let v = c.amount;
    if t == "LOAN_PRINCIPAL"@ {
        match c.loan_id {
            None => Err("Komponen pembayaran tidak memiliki pinjaman terkait."@),
            Some(lid) => {
                let i = loan_pos(loans, lid);
                if has_loan_with(loans, lid) && loans[i].balance <= i64::MAX - v {
                    Ok(
                        (
                            accounts,
                            loans.update(
                                i,
                                LoanFacts {
                                    balance: (loans[i].balance + v) as i64,
                                    status: LoanStatus::Active.text(),
                                    ..loans[i]
                                },
                            ),
                        ),
                    )
                } else {
                    Err(principal_reversal_missing())
                }
            },
        }
    } else if t == "LOAN_DISBURSEMENT"@ {
        match c.loan_id {
            None => Err("Komponen pencairan tidak memiliki pinjaman terkait."@),
            Some(lid) => {
                let i = loan_pos(loans, lid);
                if has_loan_with(loans, lid) && loans[i].balance == v {
                    Ok(
                        (
                            accounts,
                            loans.update(
                                i,
                                LoanFacts {
                                    balance: 0,
                                    status: LoanStatus::Draft.text(),
                                    realization_date: "-"@,
                                    due_date: "-"@,
                                    ..loans[i]
                                },
                            ),
                        ),
                    )
                } else {
                    Err(disbursement_reversal_refused())
                }
            },
        }
    } else if has_prefix(t, "SAVINGS_"@) {
        match c.savings_account_id {
            None => Err("Komponen simpanan tidak memiliki rekening terkait."@),
            Some(aid) => {
                let i = account_pos(accounts, aid);
                if t == "SAVINGS_WITHDRAWAL"@ {
                    if has_account_with(accounts, aid) && accounts[i].balance <= i64::MAX - v {
                        Ok(
                            (
                                accounts.update(
                                    i,
                                    AccountFacts {
                                        balance: (accounts[i].balance + v) as i64,
                                        ..accounts[i]
                                    },
                                ),
                                loans,
                            ),
                        )
                    } else {
                        Err(savings_reversal_refused())
                    }
                } else {
                    if has_account_with(accounts, aid) && accounts[i].balance >= v
                        && accounts[i].balance - v <= i64::MAX {
                        Ok(
                            (
                                accounts.update(
                                    i,
                                    AccountFacts {
                                        balance: (accounts[i].balance - v) as i64,
                                        ..accounts[i]
                                    },
                                ),
                                loans,
                            ),
                        )
                    } else {
                        Err(savings_reversal_refused())
                    }
                }
            },
        }
    } else {
        Ok((accounts, loans))
    }
}

/// Undoes the components one after the other; the first refusal stops it.
pub open spec fn reverse_components(
    accounts: Seq<AccountFacts>,
    loans: Seq<LoanFacts>,
    cs: Seq<ComponentFacts>,
) -> Result<(Seq<AccountFacts>, Seq<LoanFacts>), Seq<char>>
    decreases cs.len(),
{
    if cs.len() == 0 {
        Ok((accounts, loans))
    } else {
        match reverse_components(accounts, loans, cs.drop_last()) {
            Err(e) => Err(e),
            Ok(p) => reverse_component(p.0, p.1, cs.last()),
        }
    }
}

/// Undoing `c` computes `i64::MAX` less its amount when it is a principal
/// component naming its loan or a savings withdrawal naming its account; such
/// an amount must not be negative.
pub open spec fn component_in_range(c: ComponentFacts) -> bool {
    ((c.component_type == "LOAN_PRINCIPAL"@ && c.loan_id is Some) || (c.component_type
        == "SAVINGS_WITHDRAWAL"@ && c.savings_account_id is Some)) ==> c.amount >= 0
}

/// Every component that undoing reaches, before a refusal stops it, is in range.
pub open spec fn walk_in_range(
    accounts: Seq<AccountFacts>,
    loans: Seq<LoanFacts>,
    cs: Seq<ComponentFacts>,
) -> bool
    decreases cs.len(),
{
    if cs.len() == 0 {
        true
    } else {
        walk_in_range(accounts, loans, cs.drop_last()) && (reverse_components(
            accounts,
            loans,
            cs.drop_last(),
        ) is Ok ==> component_in_range(cs.last()))
    }
}

/// The request gets as far as the components: its date is valid and open, and
/// the transaction exists, is posted and has a known direction.
pub open spec fn reversal_reaches_components(l: Ledger, input: ReverseTransactionInput) -> bool {
    let t = l.transactions@[tx_pos(l, input.id@)];
    &&& valid_date(input.business_date@)
    &&& !l.period_locked(input.business_date@.subrange(0, 7))
    &&& l.has_transaction_id(input.id@)
    &&& TransactionStatus::from_text(t.status@) == Some(TransactionStatus::Posted)
    &&& TransactionDirection::from_text(t.direction@) is Some
}

/// What reversing asks of the books for its arithmetic to stay in range: every
/// component it reaches is in range.
pub open spec fn reversal_in_range(l: Ledger, input: ReverseTransactionInput) -> bool {
    reversal_reaches_components(l, input) ==> walk_in_range(
        l.account_table(),
        l.loan_table(),
        component_facts(l.transactions@[tx_pos(l, input.id@)].components@),
    )
}

/// The refusals met before any identifier is drawn, in the order they are checked.
pub open spec fn reversal_early_rejection(l: Ledger, input: ReverseTransactionInput) -> Option<
    Seq<char>,
> {
    if !valid_date(input.business_date@) {
        Some(invalid_date_message())
    } else if l.period_locked(input.business_date@.subrange(0, 7)) {
        Some(locked_message())
    } else if !l.has_transaction_id(input.id@) {
        Some("Transaksi tidak ditemukan."@)
    } else {
        let t = l.transactions@[tx_pos(l, input.id@)];
        let status = TransactionStatus::from_text(t.status@);
        if status is None {
            Some(invalid_value("TransactionStatus"@, t.status@))
        } else if status.unwrap() != TransactionStatus::Posted {
            Some("Hanya transaksi terposting yang dapat dibalik."@)
        } else if TransactionDirection::from_text(t.direction@) is None {
            Some(invalid_value("TransactionDirection"@, t.direction@))
        } else {
            match reverse_components(l.account_table(), l.loan_table(), component_facts(t.components@)) {
                Err(e) => Some(e),
                Ok(_) => None,
            }
        }
    }
}

pub open spec fn reversal_rejection(
    l: Ledger,
    input: ReverseTransactionInput,
    ids: IdSource,
) -> Option<Seq<char>> {
    if reversal_early_rejection(l, input) is Some {
        reversal_early_rejection(l, input)
    } else if l.has_transaction_id(ids.peek("REV"@)) {
        Some(duplicate_key_message("transactions"@, "id"@))
    } else {
        None
    }
}

/// `t2` is `t1` with its status replaced.
pub open spec fn with_status(t2: Transaction, t1: Transaction, status: Seq<char>) -> bool {
    &&& t2.status@ == status
    &&& t2.id == t1.id
    &&& t2.business_date == t1.business_date
    &&& t2.display_date == t1.display_date
    &&& t2.display_time == t1.display_time
    &&& t2.member_id == t1.member_id
    &&& t2.member_name == t1.member_name
    &&& t2.transaction_type == t1.transaction_type
    &&& t2.description == t1.description
    &&& t2.reference == t1.reference
    &&& t2.direction == t1.direction
    &&& t2.amount == t1.amount
    &&& t2.reversed_transaction_id == t1.reversed_transaction_id
    &&& t2.actor == t1.actor
    &&& t2.components == t1.components
}

pub open spec fn reversal_label() -> Seq<char> {
    "Reversal · "@
}

/// The components of a reversal mirror those of the original one for one.
pub open spec fn mirrored_components(rc: Seq<Component>, oc: Seq<Component>) -> bool {
    &&& rc.len() == oc.len()
    &&& forall|i: int|
        0 <= i < oc.len() ==> component_is(
            #[trigger] rc[i],
            "REVERSAL"@,
            reversal_label() + oc[i].label@,
            oc[i].amount as int,
            some_text(oc[i].loan_id),
            some_text(oc[i].savings_account_id),
        )
}

/// The books after transaction `input.id` is reversed.
pub open spec fn reversal_posted(
    old: Ledger,
    new: Ledger,
    input: ReverseTransactionInput,
    ids: IdSource,
) -> bool {
    let ti = tx_pos(old, input.id@);
    let t = old.transactions@[ti];
    let undone = reverse_components(old.account_table(), old.loan_table(), component_facts(t.components@));
    let rev_id = ids.peek("REV"@);
    let suffix_id = ids.advanced().peek("R"@);
    let direction = TransactionDirection::from_text(t.direction@).unwrap().spec_reversed().text();
    let r = new.transactions@.last();
    &&& undone is Ok
    &&& new.company_id == old.company_id
    &&& new.members == old.members
    &&& new.periods == old.periods
    &&& new.account_table() == undone->Ok_0.0
    &&& new.loan_table() == undone->Ok_0.1
    &&& new.transactions@.len() == old.transactions@.len() + 1
    &&& forall|j: int|
        0 <= j < old.transactions@.len() && j != ti ==> new.transactions@[j]
            == old.transactions@[j]
    &&& with_status(new.transactions@[ti], t, TransactionStatus::Reversed.text())
    &&& header_is(
        r,
        rev_id,
        input.business_date@,
        input.display_date@,
        input.display_time@,
        some_text(t.member_id),
        t.member_name@,
        "REVERSAL"@,
        reversal_label() + t.description@,
        t.reference@ + "/REV/"@ + suffix_id,
        direction,
        t.amount as int,
        Some(input.id@),
        local_actor(),
    )
    &&& mirrored_components(r.components@, t.components@)
    &&& extends_by_one(new.cash_postings@, old.cash_postings@)
    &&& posting_is(new.cash_postings@.last(), rev_id, direction, t.amount as int)
    &&& extends_by_one(new.audit_events@, old.audit_events@)
    &&& audit_is(
        new.audit_events@.last(),
        "TRANSACTION"@,
        input.id@,
        "REVERSED"@,
        Some(AuditFacts::Status { status: TransactionStatus::Posted.text() }),
        AuditFacts::Reversed { status: TransactionStatus::Reversed.text(), reversal_id: rev_id },
    )
}

fn find_loan_in(loans: &Vec<Loan>, id: &str) -> (r: Option<usize>)
    ensures
        r matches Some(i) ==> i < loans@.len() && loans@[i as int].id@ == id@,
        r is None ==> !has_loan_with(loan_facts(loans@), id@),
{
    let n = loans.len();
    let mut i: usize = 0;
    while i < n
        invariant
            n == loans@.len(),
            i <= n,
            forall|j: int| 0 <= j < i ==> loans@[j].id@ != id@,
        decreases n - i,
    {
        if same_text(loans[i].id.as_str(), id) {
            return Some(i);
        }
        i = i + 1;
    }
    assert(!has_loan_with(loan_facts(loans@), id@)) by {
        if has_loan_with(loan_facts(loans@), id@) {
            let j = choose|j: int| 0 <= j < loan_facts(loans@).len() && loan_facts(loans@)[j].id
                == id@;
            assert(loans@[j].id@ == id@);
        }
    }
    None
}

fn find_account_in(accounts: &Vec<SavingsAccount>, id: &str) -> (r: Option<usize>)
    ensures
        r matches Some(i) ==> i < accounts@.len() && accounts@[i as int].id@ == id@,
        r is None ==> !has_account_with(account_facts(accounts@), id@),
{
    let n = accounts.len();
    let mut i: usize = 0;
    while i < n
        invariant
            n == accounts@.len(),
            i <= n,
            forall|j: int| 0 <= j < i ==> accounts@[j].id@ != id@,
        decreases n - i,
    {
        if same_text(accounts[i].id.as_str(), id) {
            return Some(i);
        }
        i = i + 1;
    }
    assert(!has_account_with(account_facts(accounts@), id@)) by {
        if has_account_with(account_facts(accounts@), id@) {
            let j = choose|j: int|
                0 <= j < account_facts(accounts@).len() && account_facts(accounts@)[j].id == id@;
            assert(accounts@[j].id@ == id@);
        }
    }
    None
}

/// The keys of the books' tables are unique in their facts too.
proof fn lemma_unique_tables(l: Ledger)
    requires
        l.wf(),
    ensures
        unique_accounts(l.account_table()),
        unique_loans(l.loan_table()),
{
    assert forall|i: int, j: int| 0 <= i < j < l.account_table().len() implies l.account_table()[i].id
        != l.account_table()[j].id by {
        assert(l.accounts@[i].id@ != l.accounts@[j].id@);
    }
    assert forall|i: int, j: int| 0 <= i < j < l.loan_table().len() implies l.loan_table()[i].id
        != l.loan_table()[j].id by {
        assert(l.loans@[i].id@ != l.loans@[j].id@);
    }
}

/// Whether reversing as `input` asks keeps its arithmetic in range: false
/// exactly where a component that the reversal reaches would compute
/// `i64::MAX` less a negative amount.
pub fn reversal_stays_in_range(ledger: &Ledger, input: &ReverseTransactionInput) -> (r: bool)
    requires
        ledger.wf(),
    ensures
        r == reversal_in_range(*ledger, *input),
{
    let period = match business_period(input.business_date.as_str()) {
        Ok(p) => p,
        Err(_) => {
            return true;
        },
    };
    if ledger.is_period_locked(period) {
        return true;
    }
    let ti = match ledger.find_transaction(input.id.as_str()) {
        Some(i) => i,
        None => {
            return true;
        },
    };
    proof {
        let c = tx_pos(*ledger, input.id@);
        assert(0 <= c < ledger.transactions@.len() && ledger.transactions@[c].id@ == input.id@);
        if c < ti {
            assert(ledger.transactions@[c].id@ != ledger.transactions@[ti as int].id@);
        } else if ti < c {
            assert(ledger.transactions@[ti as int].id@ != ledger.transactions@[c].id@);
        }
    }
    match TransactionStatus::parse(ledger.transactions[ti].status.as_str()) {
        Ok(status) => {
            if status != TransactionStatus::Posted {
                return true;
            }
        },
        Err(_) => {
            return true;
        },
    }
    if TransactionDirection::parse(ledger.transactions[ti].direction.as_str()).is_err() {
        return true;
    }
    proof {
        lemma_unique_tables(*ledger);
    }
    match undo_components(&ledger.accounts, &ledger.loans, &ledger.transactions[ti].components) {
        Undo::OutOfRange => false,
        _ => true,
    }
}

pub fn copy_accounts(v: &Vec<SavingsAccount>) -> (r: Vec<SavingsAccount>)
    ensures
        r@ == v@,
{
    let mut r: Vec<SavingsAccount> = Vec::new();
    let mut i: usize = 0;
    while i < v.len()
        invariant
            i <= v@.len(),
            r@ == v@.subrange(0, i as int),
        decreases v@.len() - i,
    {
        r.push(v[i].copy());
        proof {
            assert(r@ =~= v@.subrange(0, i + 1));
        }
        i = i + 1;
    }
    proof {
        assert(r@ =~= v@);
    }
    r
}

pub fn copy_loans(v: &Vec<Loan>) -> (r: Vec<Loan>)
    ensures
        r@ == v@,
{
    let mut r: Vec<Loan> = Vec::new();
    let mut i: usize = 0;
    while i < v.len()
        invariant
            i <= v@.len(),
            r@ == v@.subrange(0, i as int),
        decreases v@.len() - i,
    {
        r.push(v[i].copy());
        proof {
            assert(r@ =~= v@.subrange(0, i + 1));
        }
        i = i + 1;
    }
    proof {
        assert(r@ =~= v@);
    }
    r
}

pub proof fn lemma_loan_pos(s: Seq<LoanFacts>, id: Seq<char>, i: int)
    requires
        unique_loans(s),
        0 <= i < s.len(),
        s[i].id == id,
    ensures
        has_loan_with(s, id),
        loan_pos(s, id) == i,
{
    let c = loan_pos(s, id);
    if c < i {
        assert(s[c].id != s[i].id);
    } else if i < c {
        assert(s[i].id != s[c].id);
    }
}

pub proof fn lemma_account_pos(s: Seq<AccountFacts>, id: Seq<char>, i: int)
    requires
        unique_accounts(s),
        0 <= i < s.len(),
        s[i].id == id,
    ensures
        has_account_with(s, id),
        account_pos(s, id) == i,
{
    let c = account_pos(s, id);
    if c < i {
        assert(s[c].id != s[i].id);
    } else if i < c {
        assert(s[i].id != s[c].id);
    }
}

proof fn lemma_reverse_components_step(
    accounts: Seq<AccountFacts>,
    loans: Seq<LoanFacts>,
    cs: Seq<ComponentFacts>,
    i: int,
)
    requires
        0 <= i < cs.len(),
    ensures
        reverse_components(accounts, loans, cs.subrange(0, i + 1)) == match reverse_components(
            accounts,
            loans,
            cs.subrange(0, i),
        ) {
            Err(e) => Err(e),
            Ok(p) => reverse_component(p.0, p.1, cs[i]),
        },
{
    assert(cs.subrange(0, i + 1).drop_last() =~= cs.subrange(0, i));
}

proof fn lemma_refusal_stays(
    accounts: Seq<AccountFacts>,
    loans: Seq<LoanFacts>,
    cs: Seq<ComponentFacts>,
    i: int,
)
    requires
        0 <= i <= cs.len(),
    ensures
        reverse_components(accounts, loans, cs.subrange(0, i)) is Err ==> reverse_components(
            accounts,
            loans,
            cs,
        ) == reverse_components(accounts, loans, cs.subrange(0, i)),
    decreases cs.len() - i,
{
    if i == cs.len() {
        assert(cs.subrange(0, i) =~= cs);
    } else {
        lemma_refusal_stays(accounts, loans, cs.drop_last(), i);
        assert(cs.drop_last().subrange(0, i) =~= cs.subrange(0, i));
    }
}

/// What undoing the components comes to: the accounts and loans afterwards,
/// a refusal, or a component whose amount would take the arithmetic out of range.
enum Undo {
    Done(Vec<SavingsAccount>, Vec<Loan>),
    Refused(String),
    OutOfRange,
}

/// A prefix of components that stays in range stays so when shortened.
proof fn lemma_walk_prefix(a: Seq<AccountFacts>, l: Seq<LoanFacts>, cs: Seq<ComponentFacts>, i: int)
    requires
        0 <= i <= cs.len(),
        walk_in_range(a, l, cs),
    ensures
        walk_in_range(a, l, cs.subrange(0, i)),
    decreases cs.len() - i,
{
    if i == cs.len() {
        assert(cs.subrange(0, i) =~= cs);
    } else {
        lemma_walk_prefix(a, l, cs.drop_last(), i);
        assert(cs.drop_last().subrange(0, i) =~= cs.subrange(0, i));
    }
}

/// After a refusal no later component is reached.
proof fn lemma_walk_after_refusal(
    a: Seq<AccountFacts>,
    l: Seq<LoanFacts>,
    cs: Seq<ComponentFacts>,
    i: int,
)
    requires
        0 <= i <= cs.len(),
        walk_in_range(a, l, cs.subrange(0, i)),
        reverse_components(a, l, cs.subrange(0, i)) is Err,
    ensures
        walk_in_range(a, l, cs),
    decreases cs.len() - i,
{
    if i == cs.len() {
        assert(cs.subrange(0, i) =~= cs);
    } else {
        assert(cs.subrange(0, i + 1).drop_last() =~= cs.subrange(0, i));
        lemma_walk_after_refusal(a, l, cs, i + 1);
    }
}

/// Undoes the components on copies of the accounts and loans, or gives the
/// refusal, or finds a component out of range.
fn undo_components(
    accounts: &Vec<SavingsAccount>,
    loans: &Vec<Loan>,
    cs: &Vec<Component>,
) -> (r: Undo)
    requires
        unique_accounts(account_facts(accounts@)),
        unique_loans(loan_facts(loans@)),
    ensures
        !walk_in_range(account_facts(accounts@), loan_facts(loans@), component_facts(cs@)) <==> r is OutOfRange,
        walk_in_range(account_facts(accounts@), loan_facts(loans@), component_facts(cs@)) ==> match reverse_components(account_facts(accounts@), loan_facts(loans@), component_facts(cs@)) {
            Err(e) => r matches Undo::Refused(m) && m@ == e,
            Ok(p) => r matches Undo::Done(x, y) && account_facts(x@) == p.0 && loan_facts(y@) == p.1,
        },
{
    let ghost a0 = account_facts(accounts@);
    let ghost l0 = loan_facts(loans@);
    let ghost cf = component_facts(cs@);
    let mut acc = copy_accounts(accounts);
    let mut lns = copy_loans(loans);
    let n = cs.len();
    let mut i: usize = 0;
    assert(cf.subrange(0, 0) =~= Seq::<ComponentFacts>::empty());
    while i < n
        invariant
            n == cs@.len(),
            i <= n,
            cf == component_facts(cs@),
            walk_in_range(a0, l0, cf.subrange(0, i as int)),
            a0 == account_facts(accounts@),
            l0 == loan_facts(loans@),
            acc@.len() == a0.len(),
            lns@.len() == l0.len(),
            forall|j: int| 0 <= j < a0.len() ==> #[trigger] acc@[j].id@ == a0[j].id,
            forall|j: int| 0 <= j < l0.len() ==> #[trigger] lns@[j].id@ == l0[j].id,
            unique_accounts(a0),
            unique_loans(l0),
            reverse_components(a0, l0, cf.subrange(0, i as int)) == Ok::<
                (Seq<AccountFacts>, Seq<LoanFacts>),
                Seq<char>,
            >((account_facts(acc@), loan_facts(lns@))),
        decreases n - i,
    {
        proof {
            lemma_reverse_components_step(a0, l0, cf, i as int);
            lemma_refusal_stays(a0, l0, cf, i + 1);
            assert(cf[i as int] == cs@[i as int].facts());
            assert(unique_accounts(account_facts(acc@))) by {
                assert forall|x: int, y: int|
                    0 <= x < y < account_facts(acc@).len() implies account_facts(acc@)[x].id
                    != account_facts(acc@)[y].id by {
                    assert(acc@[x].id@ == a0[x].id);
                    assert(acc@[y].id@ == a0[y].id);
                }
            }
            assert(unique_loans(loan_facts(lns@))) by {
                assert forall|x: int, y: int|
                    0 <= x < y < loan_facts(lns@).len() implies loan_facts(lns@)[x].id
                    != loan_facts(lns@)[y].id by {
                    assert(lns@[x].id@ == l0[x].id);
                    assert(lns@[y].id@ == l0[y].id);
                }
            }
        }
        let c = &cs[i];
        let v = c.amount;
        let ghost fa = account_facts(acc@);
        let ghost fl = loan_facts(lns@);
        let principal = same_text(c.component_type.as_str(), "LOAN_PRINCIPAL");
        let withdrawal_named = same_text(c.component_type.as_str(), "SAVINGS_WITHDRAWAL")
            && c.savings_account_id.is_some();
        if ((principal && c.loan_id.is_some()) || withdrawal_named) && v < 0 {
            proof {
                assert(!component_in_range(cf[i as int]));
                if walk_in_range(a0, l0, cf) {
                    lemma_walk_prefix(a0, l0, cf, i + 1);
                    assert(cf.subrange(0, i + 1).drop_last() =~= cf.subrange(0, i as int));
                }
            }
            return Undo::OutOfRange;
        }
        proof {
            assert(component_in_range(cf[i as int]));
            assert(cf.subrange(0, i + 1).drop_last() =~= cf.subrange(0, i as int));
            assert(cf.subrange(0, i + 1).last() == cf[i as int]);
            assert(walk_in_range(a0, l0, cf.subrange(0, i + 1)));
            if reverse_components(a0, l0, cf.subrange(0, i + 1)) is Err {
                lemma_walk_after_refusal(a0, l0, cf, i + 1);
            }
        }
        if same_text(c.component_type.as_str(), "LOAN_PRINCIPAL") {
            match &c.loan_id {
                None => {
                    return Undo::Refused(text("Komponen pembayaran tidak memiliki pinjaman terkait."));
                },
                Some(lid) => {
                    match find_loan_in(&lns, lid.as_str()) {
                        None => {
                            return Undo::Refused(text("Pinjaman terkait komponen pembayaran tidak ditemukan."));
                        },
                        Some(j) => {
                            proof {
                                lemma_loan_pos(fl, lid@, j as int);
                            }
                            if lns[j].balance <= i64::MAX - v {
                                lns[j].balance = lns[j].balance + v;
                                lns[j].status = text(LoanStatus::Active.as_str());
                                proof {
                                    assert(loan_facts(lns@) =~= fl.update(
                                        j as int,
                                        LoanFacts {
                                            balance: (fl[j as int].balance + v) as i64,
                                            status: LoanStatus::Active.text(),
                                            ..fl[j as int]
                                        },
                                    ));
                                }
                            } else {
                                return Undo::Refused(text("Pinjaman terkait komponen pembayaran tidak ditemukan."));
                            }
                        },
                    }
                },
            }
        } else if same_text(c.component_type.as_str(), "LOAN_DISBURSEMENT") {
            match &c.loan_id {
                None => {
                    return Undo::Refused(text("Komponen pencairan tidak memiliki pinjaman terkait."));
                },
                Some(lid) => {
                    match find_loan_in(&lns, lid.as_str()) {
                        None => {
                            return Undo::Refused(text("Pencairan tidak dapat dibalik setelah pinjaman memiliki pembayaran."));
                        },
                        Some(j) => {
                            proof {
                                lemma_loan_pos(fl, lid@, j as int);
                            }
                            if lns[j].balance == v {
                                lns[j].balance = 0;
                                lns[j].status = text(LoanStatus::Draft.as_str());
                                lns[j].realization_date = text("-");
                                lns[j].due_date = text("-");
                                proof {
                                    assert(loan_facts(lns@) =~= fl.update(
                                        j as int,
                                        LoanFacts {
                                            balance: 0,
                                            status: LoanStatus::Draft.text(),
                                            realization_date: "-"@,
                                            due_date: "-"@,
                                            ..fl[j as int]
                                        },
                                    ));
                                }
                            } else {
                                return Undo::Refused(text("Pencairan tidak dapat dibalik setelah pinjaman memiliki pembayaran."));
                            }
                        },
                    }
                },
            }
        } else if starts_with(c.component_type.as_str(), "SAVINGS_") {
            match &c.savings_account_id {
                None => {
                    return Undo::Refused(text("Komponen simpanan tidak memiliki rekening terkait."));
                },
                Some(aid) => {
                    let withdrawal = same_text(c.component_type.as_str(), "SAVINGS_WITHDRAWAL");
                    match find_account_in(&acc, aid.as_str()) {
                        None => {
                            return Undo::Refused(text("Reversal ditolak karena saldo sub-ledger tidak mencukupi."));
                        },
                        Some(j) => {
                            proof {
                                lemma_account_pos(fa, aid@, j as int);
                            }
                            if withdrawal {
                                if acc[j].balance <= i64::MAX - v {
                                    acc[j].balance = acc[j].balance + v;
                                    proof {
                                        assert(account_facts(acc@) =~= fa.update(
                                            j as int,
                                            AccountFacts {
                                                balance: (fa[j as int].balance + v) as i64,
                                                ..fa[j as int]
                                            },
                                        ));
                                    }
                                } else {
                                    return Undo::Refused(text("Reversal ditolak karena saldo sub-ledger tidak mencukupi."));
                                }
                            } else {
                                let after = if acc[j].balance >= v {
                                    acc[j].balance.checked_sub(v)
                                } else {
                                    None
                                };
                                if let Some(nb) = after {
                                    acc[j].balance = nb;
                                    proof {
                                        assert(account_facts(acc@) =~= fa.update(
                                            j as int,
                                            AccountFacts {
                                                balance: (fa[j as int].balance - v) as i64,
                                                ..fa[j as int]
                                            },
                                        ));
                                    }
                                } else {
                                    return Undo::Refused(text("Reversal ditolak karena saldo sub-ledger tidak mencukupi."));
                                }
                            }
                        },
                    }
                },
            }
        }
        i = i + 1;
    }
    proof {
        assert(cf.subrange(0, n as int) =~= cf);
    }
    Undo::Done(acc, lns)
}

fn mirror_components(cs: &Vec<Component>) -> (r: Vec<Component>)
    ensures
        mirrored_components(r@, cs@),
{
    let mut r: Vec<Component> = Vec::new();
    let n = cs.len();
    let mut i: usize = 0;
    while i < n
        invariant
            n == cs@.len(),
            i <= n,
            r@.len() == i,
            forall|j: int|
                0 <= j < i ==> component_is(
                    #[trigger] r@[j],
                    "REVERSAL"@,
                    reversal_label() + cs@[j].label@,
                    cs@[j].amount as int,
                    some_text(cs@[j].loan_id),
                    some_text(cs@[j].savings_account_id),
                ),
        decreases n - i,
    {
        let mut label = text("Reversal · ");
        append(&mut label, cs[i].label.as_str());
        r.push(
            Component {
                component_type: text("REVERSAL"),
                label,
                amount: cs[i].amount,
                loan_id: crate::ledger::clone_opt(&cs[i].loan_id),
                savings_account_id: crate::ledger::clone_opt(&cs[i].savings_account_id),
            },
        );
        i = i + 1;
    }
    r
}

/// Reverses a posted transaction: its effect on loans and savings accounts is
/// undone, it is marked reversed, and a mirror transaction in the other
/// direction is posted.
pub fn reverse_transaction(
    ledger: &mut Ledger,
    input: &ReverseTransactionInput,
    ids: &mut IdSource,
) -> (r: Result<(), String>)
    requires
        old(ledger).wf(),
        reversal_in_range(*old(ledger), *input),
    ensures
        final(ledger).wf(),
        match reversal_rejection(*old(ledger), *input, *old(ids)) {
            Some(m) => r matches Err(e) && e@ == m && *final(ledger) == *old(ledger),
            None => r is Ok && reversal_posted(*old(ledger), *final(ledger), *input, *old(ids)),
        },
        *final(ids) == if reversal_early_rejection(*old(ledger), *input) is None {
            old(ids).advanced().advanced()
        } else {
            *old(ids)
        },
{
    let period = business_period(input.business_date.as_str())?;
    if ledger.is_period_locked(period) {
        return Err(text("Periode transaksi sudah dikunci."));
    }
    let ti = match ledger.find_transaction(input.id.as_str()) {
        Some(i) => i,
        None => {
            return Err(text("Transaksi tidak ditemukan."));
        },
    };
    proof {
        let c = tx_pos(*ledger, input.id@);
        assert(0 <= c < ledger.transactions@.len() && ledger.transactions@[c].id@ == input.id@);
        if c < ti {
            assert(ledger.transactions@[c].id@ != ledger.transactions@[ti as int].id@);
        } else if ti < c {
            assert(ledger.transactions@[ti as int].id@ != ledger.transactions@[c].id@);
        }
    }
    let status = TransactionStatus::parse(ledger.transactions[ti].status.as_str())?;
    if status != TransactionStatus::Posted {
        return Err(text("Hanya transaksi terposting yang dapat dibalik."));
    }
    let direction = TransactionDirection::parse(ledger.transactions[ti].direction.as_str())?;
    let reversal_direction = direction.reversed();
    proof {
        lemma_unique_tables(*ledger);
    }
    let (accounts, loans) = match undo_components(
        &ledger.accounts,
        &ledger.loans,
        &ledger.transactions[ti].components,
    ) {
        Undo::Done(a, l) => (a, l),
        Undo::Refused(e) => {
            return Err(e);
        },
        Undo::OutOfRange => {
            proof {
                assert(reversal_reaches_components(*ledger, *input));
                assert(false);
            }
            return Err(text(""));
        },
    };
    let reversal_id = ids.fresh("REV");
    let suffix_id = ids.fresh("R");
    if ledger.find_transaction(reversal_id.as_str()).is_some() {
        return Err(crate::ledger::duplicate_key("transactions", "id"));
    }
    let original = &ledger.transactions[ti];
    let mut description = text("Reversal · ");
    append(&mut description, original.description.as_str());
    let mut reference = original.reference.clone();
    append(&mut reference, "/REV/");
    append(&mut reference, suffix_id.as_str());
    let components = mirror_components(&original.components);
    let amount = original.amount;
    let reversal = Transaction {
        id: reversal_id.clone(),
        business_date: input.business_date.clone(),
        display_date: input.display_date.clone(),
        display_time: input.display_time.clone(),
        member_id: crate::ledger::clone_opt(&original.member_id),
        member_name: original.member_name.clone(),
        transaction_type: text("REVERSAL"),
        description,
        reference,
        direction: text(reversal_direction.as_str()),
        amount,
        status: text(TransactionStatus::Posted.as_str()),
        reversed_transaction_id: Some(input.id.clone()),
        actor: text("Aplikasi lokal"),
        components,
    };
    let ghost before = *ledger;
    ledger.accounts = accounts;
    ledger.loans = loans;
    ledger.transactions[ti].status = text(TransactionStatus::Reversed.as_str());
    ledger.transactions.push(reversal);
    ledger.cash_postings.push(
        CashPosting {
            transaction_id: reversal_id.clone(),
            direction: text(reversal_direction.as_str()),
            amount,
        },
    );
    ledger.audit_events.push(
        AuditEvent {
            entity_type: text("TRANSACTION"),
            entity_id: input.id.clone(),
            action: text("REVERSED"),
            before: Some(AuditPayload::Status { status: text(TransactionStatus::Posted.as_str()) }),
            after: AuditPayload::Reversed {
                status: text(TransactionStatus::Reversed.as_str()),
                reversal_id,
            },
            actor: text("Aplikasi lokal"),
        },
    );
    proof {
        assert(ledger.cash_postings@.subrange(0, before.cash_postings@.len() as int)
            =~= before.cash_postings@);
        assert(ledger.audit_events@.subrange(0, before.audit_events@.len() as int)
            =~= before.audit_events@);
        let undone = reverse_components(
            before.account_table(),
            before.loan_table(),
            component_facts(before.transactions@[ti as int].components@),
        );
        assert forall|x: int, y: int|
            0 <= x < y < ledger.accounts@.len() implies ledger.accounts@[x].id@
            != ledger.accounts@[y].id@ by {
            assert(ledger.account_table()[x].id == ledger.accounts@[x].id@);
            assert(ledger.account_table()[y].id == ledger.accounts@[y].id@);
            lemma_ids_kept(
                before.account_table(),
                before.loan_table(),
                component_facts(before.transactions@[ti as int].components@),
            );
            assert(before.accounts@[x].id@ != before.accounts@[y].id@);
            assert(before.account_table()[x].id == before.accounts@[x].id@);
            assert(before.account_table()[y].id == before.accounts@[y].id@);
        }
        assert forall|x: int, y: int|
            0 <= x < y < ledger.loans@.len() implies ledger.loans@[x].id@
            != ledger.loans@[y].id@ by {
            assert(ledger.loan_table()[x].id == ledger.loans@[x].id@);
            assert(ledger.loan_table()[y].id == ledger.loans@[y].id@);
            lemma_ids_kept(
                before.account_table(),
                before.loan_table(),
                component_facts(before.transactions@[ti as int].components@),
            );
            assert(before.loans@[x].id@ != before.loans@[y].id@);
            assert(before.loan_table()[x].id == before.loans@[x].id@);
            assert(before.loan_table()[y].id == before.loans@[y].id@);
        }
        assert forall|x: int, y: int|
            0 <= x < y < ledger.transactions@.len() implies ledger.transactions@[x].id@
            != ledger.transactions@[y].id@ by {
            if y == before.transactions@.len() {
                assert(before.transactions@[x].id@ != reversal_id@);
            } else {
                assert(before.transactions@[x].id@ != before.transactions@[y].id@);
            }
        }
    }
    Ok(())
}

/// Undoing components keeps the number and the ids of accounts and loans.
pub proof fn lemma_ids_kept(a: Seq<AccountFacts>, l: Seq<LoanFacts>, cs: Seq<ComponentFacts>)
    requires
        reverse_components(a, l, cs) is Ok,
    ensures
        ({
            let p = reverse_components(a, l, cs)->Ok_0;
            &&& p.0.len() == a.len()
            &&& p.1.len() == l.len()
            &&& forall|i: int| 0 <= i < a.len() ==> #[trigger] p.0[i].id == a[i].id
            &&& forall|i: int| 0 <= i < l.len() ==> #[trigger] p.1[i].id == l[i].id
        }),
    decreases cs.len(),
{
    if cs.len() > 0 {
        lemma_ids_kept(a, l, cs.drop_last());
    }
}

} // verus!
