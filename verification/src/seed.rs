//! Seeding the books of a company from the legacy workbook: members with their
//! savings accounts, loans, the opening cash balance and the cash movements of
//! the year, then the first open period.

use vstd::prelude::*;

use crate::domain::{
    normalize_name, normalized, InterestType, LoanStatus, MemberStatus, PeriodStatus,
    SavingsAccountType, TransactionDirection, TransactionStatus,
};
use crate::ledger::{
    duplicate_key_message, AccountFacts, CashPosting, Component, ComponentFacts, Ledger, Loan,
    LoanFacts, Member, MemberFacts, Period, PeriodFacts, PostingFacts, SavingsAccount,
    Transaction, TransactionFacts,
};
use crate::members::{account_id_for, opening_account};
use crate::text::{append, left_padded, push_left_padded, same_text, text};
use crate::workbook::{cell_int, cell_money, cell_text, cell_text_of, int_of, money_of, Cell};

verus! {

/// A row of the loan master sheet, with what the import reads of its
/// floating-point and date cells: the annual rate of column G in percent (as
/// the bit pattern of the value), and the realization and due dates of
/// columns J and K written `DD-Mon-YYYY`, each or its refusal.
pub struct LoanSheetRow {
    pub cells: Vec<Cell>,
    pub rate_bits: Result<u64, String>,
    pub realization_date: Result<String, String>,
    pub due_date: Result<String, String>,
}

/// A row of the cash book sheet, with the date of column A written
/// `YYYY-MM-DD` and `DD-Mon-YYYY`, each or its refusal.
pub struct CashSheetRow {
    pub cells: Vec<Cell>,
    pub business_date: Result<String, String>,
    pub display_date: Result<String, String>,
}

/// The five sheets of the workbook, their header rows left out.
pub struct WorkbookSheets {
    pub master_savings: Vec<Vec<Cell>>,
    pub savings_2026: Vec<Vec<Cell>>,
    pub master_loans: Vec<LoanSheetRow>,
    pub loans_2026: Vec<Vec<Cell>>,
    pub cash_2026: Vec<CashSheetRow>,
}

/// The rows that seeding adds to each table, and the member found for each
/// normalized name.
pub struct Imported {
    pub members: Seq<MemberFacts>,
    pub accounts: Seq<AccountFacts>,
    pub loans: Seq<LoanFacts>,
    pub transactions: Seq<TransactionFacts>,
    pub postings: Seq<PostingFacts>,
    pub names: Seq<(Seq<char>, Seq<char>)>,
}

pub open spec fn nothing_imported() -> Imported {
    Imported {
        members: Seq::empty(),
        accounts: Seq::empty(),
        loans: Seq::empty(),
        transactions: Seq::empty(),
        postings: Seq::empty(),
        names: Seq::empty(),
    }
}

pub open spec fn text_result(r: Result<String, String>) -> Result<Seq<char>, Seq<char>> {
    match r {
        Ok(v) => Ok(v@),
        Err(e) => Err(e@),
    }
}

pub open spec fn bits_result(r: Result<u64, String>) -> Result<u64, Seq<char>> {
    match r {
        Ok(v) => Ok(v),
        Err(e) => Err(e@),
    }
}

pub open spec fn at_least(v: int, floor: int) -> int {
    if v < floor {
        floor
    } else {
        v
    }
}

/// The value of the last entry under `key`.
pub open spec fn latest<V>(entries: Seq<(Seq<char>, V)>, key: Seq<char>) -> Option<V>
    decreases entries.len(),
{
    if entries.len() == 0 {
        None
    } else if entries.last().0 == key {
        Some(entries.last().1)
    } else {
        latest(entries.drop_last(), key)
    }
}

pub open spec fn cell_at(row: Seq<Cell>, i: int) -> crate::workbook::CellFacts {
    row[i].facts()
}

/// Balances of the 2026 savings sheet: for each row of at least 17 cells, the
/// member id of column A with the principal, mandatory and voluntary balances
/// of columns O, P and Q; or the first refusal.
pub open spec fn savings_balances(rows: Seq<Vec<Cell>>) -> Result<
    Seq<(Seq<char>, (int, int, int))>,
    Seq<char>,
>
    decreases rows.len(),
{
    if rows.len() == 0 {
        Ok(Seq::empty())
    } else {
        match savings_balances(rows.drop_last()) {
            Err(e) => Err(e),
            Ok(acc) => {
                let row = rows.last()@;
                if row.len() >= 17 {
                    match money_of(cell_at(row, 14)) {
                        Err(e) => Err(e),
                        Ok(a) => match money_of(cell_at(row, 15)) {
                            Err(e) => Err(e),
                            Ok(b) => match money_of(cell_at(row, 16)) {
                                Err(e) => Err(e),
                                Ok(c) => Ok(acc.push((cell_text_of(cell_at(row, 0)), (a, b, c)))),
                            },
                        },
                    }
                } else {
                    Ok(acc)
                }
            },
        }
    }
}

/// Balances of the 2026 loan sheet: for each row of at least 23 cells, the loan
/// id of column A with the balance of column W, never below zero.
pub open spec fn loan_balances(rows: Seq<Vec<Cell>>) -> Result<Seq<(Seq<char>, int)>, Seq<char>>
    decreases rows.len(),
{
    if rows.len() == 0 {
        Ok(Seq::empty())
    } else {
        match loan_balances(rows.drop_last()) {
            Err(e) => Err(e),
            Ok(acc) => {
                let row = rows.last()@;
                if row.len() >= 23 {
                    match money_of(cell_at(row, 22)) {
                        Err(e) => Err(e),
                        Ok(b) => Ok(acc.push((cell_text_of(cell_at(row, 0)), at_least(b, 0)))),
                    }
                } else {
                    Ok(acc)
                }
            },
        }
    }
}

/// `s` without the `c` characters it starts with.
pub open spec fn strip_leading(s: Seq<char>, c: char) -> Seq<char>
    decreases s.len(),
{
    if s.len() > 0 && s[0] == c {
        strip_leading(s.drop_first(), c)
    } else {
        s
    }
}

pub open spec fn member_id_used(l: Ledger, s: Imported, id: Seq<char>) -> bool {
    l.has_member_id(id) || exists|j: int| 0 <= j < s.members.len() && #[trigger] s.members[j].id == id
}

pub open spec fn account_id_used(l: Ledger, s: Imported, id: Seq<char>) -> bool {
    l.has_account_id(id) || exists|j: int|
        0 <= j < s.accounts.len() && #[trigger] s.accounts[j].id == id
}

pub open spec fn loan_id_used(l: Ledger, s: Imported, id: Seq<char>) -> bool {
    l.has_loan_id(id) || exists|j: int| 0 <= j < s.loans.len() && #[trigger] s.loans[j].id == id
}

pub open spec fn transaction_id_used(l: Ledger, s: Imported, id: Seq<char>) -> bool {
    l.has_transaction_id(id) || exists|j: int|
        0 <= j < s.transactions.len() && #[trigger] s.transactions[j].id == id
}

/// A member of the master savings sheet as it is written to the books.
pub open spec fn imported_member(company: Seq<char>, row: Seq<Cell>) -> MemberFacts {
    let sid = cell_text_of(cell_at(row, 0));
    MemberFacts {
        id: company + "-"@ + sid,
        member_number: "KBS-"@ + left_padded(strip_leading(sid, 'M'), 4),
        name: cell_text_of(cell_at(row, 3)),
        joined_at: "Migrasi 2026"@,
        status: MemberStatus::Active.text(),
    }
}

/// One row of the master savings sheet: rows shorter than 8 cells or without
/// a member id are passed over. The member comes first, then the balances of
/// columns E, F and G are read, then the three savings accounts are opened
/// with the member's latest balances of the 2026 sheet (those of the master
/// sheet where the 2026 sheet has none), never below zero.
pub open spec fn seed_member(
    l: Ledger,
    company: Seq<char>,
    s: Imported,
    row: Seq<Cell>,
    balances: Seq<(Seq<char>, (int, int, int))>,
) -> Result<Imported, Seq<char>> {
    let sid = cell_text_of(cell_at(row, 0));
    let m = imported_member(company, row);
    if row.len() < 8 || sid.len() == 0 {
        Ok(s)
    } else if member_id_used(l, s, m.id) {
        Err(duplicate_key_message("members"@, "id"@))
    } else {
        match money_of(cell_at(row, 4)) {
            Err(e) => Err(e),
            Ok(p) => match money_of(cell_at(row, 5)) {
                Err(e) => Err(e),
                Ok(w) => match money_of(cell_at(row, 6)) {
                    Err(e) => Err(e),
                    Ok(v) => {
                        let b = match latest(balances, sid) {
                            Some(t) => t,
                            None => (p, w, v),
                        };
                        let a0 = opening_account(m.id, SavingsAccountType::Principal, at_least(b.0, 0) as i64);
                        let a1 = opening_account(m.id, SavingsAccountType::Mandatory, at_least(b.1, 0) as i64);
                        let a2 = opening_account(m.id, SavingsAccountType::Voluntary, at_least(b.2, 0) as i64);
                        if account_id_used(l, s, a0.id) || account_id_used(l, s, a1.id)
                            || account_id_used(l, s, a2.id) {
                            Err(duplicate_key_message("savings_accounts"@, "id"@))
                        } else {
                            Ok(
                                Imported {
                                    members: s.members.push(m),
                                    accounts: s.accounts + seq![a0, a1, a2],
                                    names: s.names.push((normalized(m.name), m.id)),
                                    ..s
                                },
                            )
                        }
                    },
                },
            },
        }
    }
}

pub open spec fn seed_members(
    l: Ledger,
    company: Seq<char>,
    s: Imported,
    rows: Seq<Vec<Cell>>,
    balances: Seq<(Seq<char>, (int, int, int))>,
) -> Result<Imported, Seq<char>>
    decreases rows.len(),
{
    if rows.len() == 0 {
        Ok(s)
    } else {
        match seed_members(l, company, s, rows.drop_last(), balances) {
            Err(e) => Err(e),
            Ok(t) => seed_member(l, company, t, rows.last()@, balances),
        }
    }
}

/// The status of an imported loan: under review when column P says so, paid
/// off without a balance, running otherwise.
pub open spec fn imported_status(row: Seq<Cell>, balance: int) -> Seq<char> {
    if cell_text_of(cell_at(row, 15)) == "PERLU CEK"@ {
        LoanStatus::NeedsReview.text()
    } else if balance == 0 {
        LoanStatus::PaidOff.text()
    } else {
        LoanStatus::Active.text()
    }
}

pub open spec fn imported_interest(row: Seq<Cell>) -> Seq<char> {
    if cell_text_of(cell_at(row, 7)) == InterestType::Flat.text() {
        InterestType::Flat.text()
    } else {
        InterestType::Declining.text()
    }
}

/// One row of the loan master sheet: rows shorter than 16 cells or without a
/// loan id are passed over. The plafond of column E is read first; the loan
/// takes its latest balance of the 2026 sheet (the plafond where that sheet
/// has none), the member whose normalized name matches, the rate, the tenor
/// of column L (at least one month) and the two dates.
pub open spec fn seed_loan(
    l: Ledger,
    company: Seq<char>,
    s: Imported,
    row: LoanSheetRow,
    balances: Seq<(Seq<char>, int)>,
) -> Result<Imported, Seq<char>> {
    let cells = row.cells@;
    let sid = cell_text_of(cell_at(cells, 0));
    let id = company + "-"@ + sid;
    let name = cell_text_of(cell_at(cells, 3));
    if cells.len() < 16 || sid.len() == 0 {
        Ok(s)
    } else {
        match money_of(cell_at(cells, 4)) {
            Err(e) => Err(e),
            Ok(p) => {
                let plafond = at_least(p, 0);
                let balance = match latest(balances, sid) {
                    Some(b) => b,
                    None => plafond,
                };
                match bits_result(row.rate_bits) {
                    Err(e) => Err(e),
                    Ok(rate) => match int_of(cell_at(cells, 11)) {
                        Err(e) => Err(e),
                        Ok(tenor) => match text_result(row.realization_date) {
                            Err(e) => Err(e),
                            Ok(realized) => match text_result(row.due_date) {
                                Err(e) => Err(e),
                                Ok(due) => if loan_id_used(l, s, id) {
                                    Err(duplicate_key_message("loans"@, "id"@))
                                } else {
                                    Ok(
                                        Imported {
                                            loans: s.loans.push(
                                                LoanFacts {
                                                    id,
                                                    member_id: latest(s.names, normalized(name)),
                                                    member_name: name,
                                                    plafond: plafond as i64,
                                                    balance: balance as i64,
                                                    rate_bits: rate,
                                                    tenor: at_least(tenor, 1) as i64,
                                                    interest_type: imported_interest(cells),
                                                    realization_date: realized,
                                                    due_date: due,
                                                    status: imported_status(cells, balance),
                                                },
                                            ),
                                            ..s
                                        },
                                    )
                                },
                            },
                        },
                    },
                }
            },
        }
    }
}

pub open spec fn seed_loans(
    l: Ledger,
    company: Seq<char>,
    s: Imported,
    rows: Seq<LoanSheetRow>,
    balances: Seq<(Seq<char>, int)>,
) -> Result<Imported, Seq<char>>
    decreases rows.len(),
{
    if rows.len() == 0 {
        Ok(s)
    } else {
        match seed_loans(l, company, s, rows.drop_last(), balances) {
            Err(e) => Err(e),
            Ok(t) => seed_loan(l, company, t, rows.last(), balances),
        }
    }
}

/// The cash on hand that the 2026 cash book starts from.
pub open spec fn opening_cash() -> int {
    21974442
}

pub open spec fn opening_transaction(id: Seq<char>) -> TransactionFacts {
    TransactionFacts {
        id,
        business_date: "2026-01-01"@,
        display_date: "01-Jan-2026"@,
        display_time: "00:00"@,
        member_id: None,
        member_name: "Koperasi"@,
        transaction_type: "OPENING_BALANCE"@,
        description: "Saldo awal kas 2026"@,
        reference: "OPENING/KAS/2026"@,
        direction: TransactionDirection::In.text(),
        amount: opening_cash() as i64,
        status: TransactionStatus::Posted.text(),
        reversed_transaction_id: None,
        actor: "System Migration"@,
        components: seq![
            ComponentFacts {
                component_type: "CASH_OPENING"@,
                label: "Saldo awal kas"@,
                amount: opening_cash(),
                loan_id: None,
                savings_account_id: None,
            },
        ],
    }
}

/// The opening cash balance, posted as a transaction of its own.
pub open spec fn seed_opening(l: Ledger, company: Seq<char>, s: Imported) -> Result<Imported, Seq<char>> {
    let id = company + "-OPENING-CASH-2026"@;
    if transaction_id_used(l, s, id) {
        Err(duplicate_key_message("transactions"@, "id"@))
    } else {
        Ok(
            Imported {
                transactions: s.transactions.push(opening_transaction(id)),
                postings: s.postings.push(
                    PostingFacts {
                        transaction_id: id,
                        direction: TransactionDirection::In.text(),
                        amount: opening_cash() as i64,
                    },
                ),
                ..s
            },
        )
    }
}

pub open spec fn cash_overflow_message() -> Seq<char> {
    "Nilai mutasi kas terlalu besar."@
}

pub open spec fn migrated_transaction(
    id: Seq<char>,
    business_date: Seq<char>,
    display_date: Seq<char>,
    description: Seq<char>,
    source_row: Seq<char>,
    direction: Seq<char>,
    amount: int,
) -> TransactionFacts {
    TransactionFacts {
        id,
        business_date,
        display_date,
        display_time: "00:00"@,
        member_id: None,
        member_name: description,
        transaction_type: "MIGRATED_CASH"@,
        description,
        reference: "MIG/KAS/2026/"@ + source_row,
        direction,
        amount: amount as i64,
        status: TransactionStatus::Posted.text(),
        reversed_transaction_id: None,
        actor: "Import Excel 2026"@,
        components: seq![
            ComponentFacts {
                component_type: "MIGRATION_UNCLASSIFIED"@,
                label: "Migrasi buku kas"@,
                amount,
                loan_id: None,
                savings_account_id: None,
            },
        ],
    }
}

/// One row of the cash book: rows shorter than 11 cells are passed over. The
/// money out of column E and in of column F are read; a row whose net is zero
/// is passed over; otherwise the net is posted in its direction, as a
/// transaction keyed by the source row number of column J.
pub open spec fn seed_cash(l: Ledger, company: Seq<char>, s: Imported, row: CashSheetRow) -> Result<
    Imported,
    Seq<char>,
> {
    let cells = row.cells@;
    if cells.len() < 11 {
        Ok(s)
    } else {
        match money_of(cell_at(cells, 4)) {
            Err(e) => Err(e),
            Ok(out) => match money_of(cell_at(cells, 5)) {
                Err(e) => Err(e),
                Ok(inn) => {
                    let net = inn - out;
                    if net < i64::MIN || net > i64::MAX {
                        Err(cash_overflow_message())
                    } else if net == 0 {
                        Ok(s)
                    } else if net == i64::MIN {
                        Err(cash_overflow_message())
                    } else {
                        let amount = if net < 0 {
                            -net
                        } else {
                            net
                        };
                        let source_row = cell_text_of(cell_at(cells, 9));
                        let id = company + "-MIG-KAS-"@ + source_row;
                        let direction = if net > 0 {
                            TransactionDirection::In.text()
                        } else {
                            TransactionDirection::Out.text()
                        };
                        match text_result(row.business_date) {
                            Err(e) => Err(e),
                            Ok(business_date) => match text_result(row.display_date) {
                                Err(e) => Err(e),
                                Ok(display_date) => if transaction_id_used(l, s, id) {
                                    Err(duplicate_key_message("transactions"@, "id"@))
                                } else {
                                    Ok(
                                        Imported {
                                            transactions: s.transactions.push(
                                                migrated_transaction(
                                                    id,
                                                    business_date,
                                                    display_date,
                                                    cell_text_of(cell_at(cells, 1)),
                                                    source_row,
                                                    direction,
                                                    amount,
                                                ),
                                            ),
                                            postings: s.postings.push(
                                                PostingFacts {
                                                    transaction_id: id,
                                                    direction,
                                                    amount: amount as i64,
                                                },
                                            ),
                                            ..s
                                        },
                                    )
                                },
                            },
                        }
                    }
                },
            },
        }
    }
}

pub open spec fn seed_cash_rows(
    l: Ledger,
    company: Seq<char>,
    s: Imported,
    rows: Seq<CashSheetRow>,
) -> Result<Imported, Seq<char>>
    decreases rows.len(),
{
    if rows.len() == 0 {
        Ok(s)
    } else {
        match seed_cash_rows(l, company, s, rows.drop_last()) {
            Err(e) => Err(e),
            Ok(t) => seed_cash(l, company, t, rows.last()),
        }
    }
}

/// The period that the seeded books open with.
pub open spec fn first_period() -> PeriodFacts {
    PeriodFacts { period: "2026-09"@, status: PeriodStatus::Open.text() }
}

pub open spec fn has_period(l: Ledger, period: Seq<char>) -> bool {
    exists|i: int| 0 <= i < l.periods@.len() && #[trigger] l.periods@[i].period@ == period
}

/// What seeding adds to the books of `l`, or the first refusal: the 2026
/// savings balances, the members, the 2026 loan balances, the loans, the
/// opening cash, the cash movements and the first period, in that order.
pub open spec fn seed_outcome(l: Ledger, sheets: WorkbookSheets) -> Result<Imported, Seq<char>> {
    let c = l.company_id@;
    match savings_balances(sheets.savings_2026@) {
        Err(e) => Err(e),
        Ok(sb) => match seed_members(l, c, nothing_imported(), sheets.master_savings@, sb) {
            Err(e) => Err(e),
            Ok(s1) => match loan_balances(sheets.loans_2026@) {
                Err(e) => Err(e),
                Ok(lb) => match seed_loans(l, c, s1, sheets.master_loans@, lb) {
                    Err(e) => Err(e),
                    Ok(s2) => match seed_opening(l, c, s2) {
                        Err(e) => Err(e),
                        Ok(s3) => match seed_cash_rows(l, c, s3, sheets.cash_2026@) {
                            Err(e) => Err(e),
                            Ok(s4) => if has_period(l, first_period().period) {
                                Err(duplicate_key_message("periods"@, "period"@))
                            } else {
                                Ok(s4)
                            },
                        },
                    },
                },
            },
        },
    }
}

/// The books after seeding: every table of `old` with the imported rows after
/// its own, the first period added, the audit trail untouched.
pub open spec fn seeded(old: Ledger, new: Ledger, s: Imported) -> bool {
    &&& new.company_id == old.company_id
    &&& new.member_table() == old.member_table() + s.members
    &&& new.account_table() == old.account_table() + s.accounts
    &&& new.loan_table() == old.loan_table() + s.loans
    &&& new.transaction_table() == old.transaction_table() + s.transactions
    &&& new.posting_table() == old.posting_table() + s.postings
    &&& new.period_table() == old.period_table().push(first_period())
    &&& new.audit_events == old.audit_events
}


/// The keys of the imported rows are new to the books and to each other.
pub open spec fn fresh(l: Ledger, s: Imported) -> bool {
    &&& forall|j: int, k: int|
        0 <= j < k < s.members.len() ==> (#[trigger] s.members[j]).id != (#[trigger] s.members[k]).id
    &&& forall|j: int| 0 <= j < s.members.len() ==> !l.has_member_id((#[trigger] s.members[j]).id)
    &&& forall|j: int, k: int|
        0 <= j < k < s.accounts.len() ==> (#[trigger] s.accounts[j]).id != (#[trigger] s.accounts[k]).id
    &&& forall|j: int| 0 <= j < s.accounts.len() ==> !l.has_account_id((#[trigger] s.accounts[j]).id)
    &&& forall|j: int, k: int|
        0 <= j < k < s.loans.len() ==> (#[trigger] s.loans[j]).id != (#[trigger] s.loans[k]).id
    &&& forall|j: int| 0 <= j < s.loans.len() ==> !l.has_loan_id((#[trigger] s.loans[j]).id)
    &&& forall|j: int, k: int|
        0 <= j < k < s.transactions.len() ==> (#[trigger] s.transactions[j]).id
            != (#[trigger] s.transactions[k]).id
    &&& forall|j: int|
        0 <= j < s.transactions.len() ==> !l.has_transaction_id((#[trigger] s.transactions[j]).id)
}

// ---------------------------------------------------------------------------
// Reading the sheets

pub open spec fn triples(v: Seq<(String, i64, i64, i64)>) -> Seq<(Seq<char>, (int, int, int))> {
    v.map_values(|e: (String, i64, i64, i64)| (e.0@, (e.1 as int, e.2 as int, e.3 as int)))
}

pub open spec fn pairs(v: Seq<(String, i64)>) -> Seq<(Seq<char>, int)> {
    v.map_values(|e: (String, i64)| (e.0@, e.1 as int))
}

pub open spec fn name_pairs(v: Seq<(String, String)>) -> Seq<(Seq<char>, Seq<char>)> {
    v.map_values(|e: (String, String)| (e.0@, e.1@))
}

fn read_savings_balances(rows: &Vec<Vec<Cell>>) -> (r: Result<Vec<(String, i64, i64, i64)>, String>)
    ensures
        match savings_balances(rows@) {
            Err(m) => r matches Err(e) && e@ == m,
            Ok(v) => r matches Ok(x) && triples(x@) == v,
        },
{
    let n = rows.len();
    let mut acc: Vec<(String, i64, i64, i64)> = Vec::new();
    let mut i: usize = 0;
    proof {
        assert(rows@.subrange(0, 0) =~= Seq::<Vec<Cell>>::empty());
        assert(triples(acc@) =~= Seq::<(Seq<char>, (int, int, int))>::empty());
    }
    while i < n
        invariant
            n == rows@.len(),
            i <= n,
            savings_balances(rows@.subrange(0, i as int)) == Ok::<
                Seq<(Seq<char>, (int, int, int))>,
                Seq<char>,
            >(triples(acc@)),
        decreases n - i,
    {
        proof {
            assert(rows@.subrange(0, i + 1).drop_last() =~= rows@.subrange(0, i as int));
            assert(rows@.subrange(0, i + 1).last() == rows@[i as int]);
        }
        let row = &rows[i];
        if row.len() >= 17 {
            let a = cell_money(&row[14]);
            let a = match a {
                Err(e) => {
                    proof {
                        lemma_savings_balances_err(rows@, i as int + 1);
                    }
                    return Err(e);
                },
                Ok(v) => v,
            };
            let b = match cell_money(&row[15]) {
                Err(e) => {
                    proof {
                        lemma_savings_balances_err(rows@, i as int + 1);
                    }
                    return Err(e);
                },
                Ok(v) => v,
            };
            let c = match cell_money(&row[16]) {
                Err(e) => {
                    proof {
                        lemma_savings_balances_err(rows@, i as int + 1);
                    }
                    return Err(e);
                },
                Ok(v) => v,
            };
            let key = cell_text(&row[0]);
            let ghost before = acc@;
            acc.push((key, a, b, c));
            proof {
                assert(triples(acc@) =~= triples(before).push((key@, (a as int, b as int, c as int))));
            }
        }
        i = i + 1;
    }
    proof {
        assert(rows@.subrange(0, n as int) =~= rows@);
    }
    Ok(acc)
}

proof fn lemma_savings_balances_err(rows: Seq<Vec<Cell>>, i: int)
    requires
        0 <= i <= rows.len(),
        savings_balances(rows.subrange(0, i)) is Err,
    ensures
        savings_balances(rows) == savings_balances(rows.subrange(0, i)),
    decreases rows.len() - i,
{
    if i < rows.len() {
        assert(rows.subrange(0, i + 1).drop_last() =~= rows.subrange(0, i));
        lemma_savings_balances_err(rows, i + 1);
    } else {
        assert(rows.subrange(0, i) =~= rows);
    }
}


fn read_loan_balances(rows: &Vec<Vec<Cell>>) -> (r: Result<Vec<(String, i64)>, String>)
    ensures
        match loan_balances(rows@) {
            Err(m) => r matches Err(e) && e@ == m,
            Ok(v) => r matches Ok(x) && pairs(x@) == v,
        },
{
    let n = rows.len();
    let mut acc: Vec<(String, i64)> = Vec::new();
    let mut i: usize = 0;
    proof {
        assert(rows@.subrange(0, 0) =~= Seq::<Vec<Cell>>::empty());
        assert(pairs(acc@) =~= Seq::<(Seq<char>, int)>::empty());
    }
    while i < n
        invariant
            n == rows@.len(),
            i <= n,
            loan_balances(rows@.subrange(0, i as int)) == Ok::<Seq<(Seq<char>, int)>, Seq<char>>(
                pairs(acc@),
            ),
        decreases n - i,
    {
        proof {
            assert(rows@.subrange(0, i + 1).drop_last() =~= rows@.subrange(0, i as int));
            assert(rows@.subrange(0, i + 1).last() == rows@[i as int]);
        }
        let row = &rows[i];
        if row.len() >= 23 {
            let b = match cell_money(&row[22]) {
                Err(e) => {
                    proof {
                        lemma_loan_balances_err(rows@, i as int + 1);
                    }
                    return Err(e);
                },
                Ok(v) => v,
            };
            let b = if b < 0 {
                0
            } else {
                b
            };
            let key = cell_text(&row[0]);
            let ghost before = acc@;
            acc.push((key, b));
            proof {
                assert(pairs(acc@) =~= pairs(before).push((key@, b as int)));
            }
        }
        i = i + 1;
    }
    proof {
        assert(rows@.subrange(0, n as int) =~= rows@);
    }
    Ok(acc)
}

proof fn lemma_loan_balances_err(rows: Seq<Vec<Cell>>, i: int)
    requires
        0 <= i <= rows.len(),
        loan_balances(rows.subrange(0, i)) is Err,
    ensures
        loan_balances(rows) == loan_balances(rows.subrange(0, i)),
    decreases rows.len() - i,
{
    if i < rows.len() {
        assert(rows.subrange(0, i + 1).drop_last() =~= rows.subrange(0, i));
        lemma_loan_balances_err(rows, i + 1);
    } else {
        assert(rows.subrange(0, i) =~= rows);
    }
}

/// Entries after `i` under other keys leave the latest entry under `key` where it was.
proof fn lemma_latest_skip<V>(s: Seq<(Seq<char>, V)>, key: Seq<char>, i: int)
    requires
        0 <= i <= s.len(),
        forall|j: int| i <= j < s.len() ==> (#[trigger] s[j]).0 != key,
    ensures
        latest(s, key) == latest(s.subrange(0, i), key),
    decreases s.len() - i,
{
    if i < s.len() {
        lemma_latest_skip(s.drop_last(), key, i);
        assert(s.drop_last().subrange(0, i) =~= s.subrange(0, i));
        assert(s.last() == s[s.len() - 1]);
    } else {
        assert(s.subrange(0, i) =~= s);
    }
}

proof fn lemma_latest_at<V>(s: Seq<(Seq<char>, V)>, key: Seq<char>, i: int)
    requires
        0 <= i < s.len(),
        s[i].0 == key,
        forall|j: int| i < j < s.len() ==> (#[trigger] s[j]).0 != key,
    ensures
        latest(s, key) == Some(s[i].1),
{
    lemma_latest_skip(s, key, i + 1);
    let p = s.subrange(0, i + 1);
    assert(p.last() == s[i]);
}

fn latest_triple(v: &Vec<(String, i64, i64, i64)>, key: &str) -> (r: Option<(i64, i64, i64)>)
    ensures
        match latest(triples(v@), key@) {
            Some(t) => r matches Some(x) && x.0 == t.0 && x.1 == t.1 && x.2 == t.2,
            None => r is None,
        },
{
    let mut i: usize = v.len();
    while i > 0
        invariant
            i <= v@.len(),
            forall|j: int| i <= j < v@.len() ==> (#[trigger] triples(v@)[j]).0 != key@,
        decreases i,
    {
        let e = &v[i - 1];
        if same_text(e.0.as_str(), key) {
            proof {
                lemma_latest_at(triples(v@), key@, i - 1);
            }
            return Some((e.1, e.2, e.3));
        }
        i = i - 1;
    }
    proof {
        lemma_latest_skip(triples(v@), key@, 0);
    }
    None
}

fn latest_pair(v: &Vec<(String, i64)>, key: &str) -> (r: Option<i64>)
    ensures
        match latest(pairs(v@), key@) {
            Some(t) => r matches Some(x) && x == t,
            None => r is None,
        },
{
    let mut i: usize = v.len();
    while i > 0
        invariant
            i <= v@.len(),
            forall|j: int| i <= j < v@.len() ==> (#[trigger] pairs(v@)[j]).0 != key@,
        decreases i,
    {
        let e = &v[i - 1];
        if same_text(e.0.as_str(), key) {
            proof {
                lemma_latest_at(pairs(v@), key@, i - 1);
            }
            return Some(e.1);
        }
        i = i - 1;
    }
    proof {
        lemma_latest_skip(pairs(v@), key@, 0);
    }
    None
}

fn latest_name(v: &Vec<(String, String)>, key: &str) -> (r: Option<String>)
    ensures
        match latest(name_pairs(v@), key@) {
            Some(t) => r matches Some(x) && x@ == t,
            None => r is None,
        },
{
    let mut i: usize = v.len();
    while i > 0
        invariant
            i <= v@.len(),
            forall|j: int| i <= j < v@.len() ==> (#[trigger] name_pairs(v@)[j]).0 != key@,
        decreases i,
    {
        let e = &v[i - 1];
        if same_text(e.0.as_str(), key) {
            proof {
                lemma_latest_at(name_pairs(v@), key@, i - 1);
            }
            return Some(e.1.clone());
        }
        i = i - 1;
    }
    proof {
        lemma_latest_skip(name_pairs(v@), key@, 0);
    }
    None
}


// ---------------------------------------------------------------------------
// Seeding

/// The rows read so far, before they join the books.
struct Batch {
    members: Vec<Member>,
    accounts: Vec<SavingsAccount>,
    loans: Vec<Loan>,
    transactions: Vec<Transaction>,
    postings: Vec<CashPosting>,
    names: Vec<(String, String)>,
}

impl Batch {
    spec fn facts(&self) -> Imported {
        Imported {
            members: self.members@.map_values(|m: Member| m.facts()),
            accounts: self.accounts@.map_values(|a: SavingsAccount| a.facts()),
            loans: self.loans@.map_values(|l: Loan| l.facts()),
            transactions: self.transactions@.map_values(|t: Transaction| t.facts()),
            postings: self.postings@.map_values(|p: CashPosting| p.facts()),
            names: name_pairs(self.names@),
        }
    }
}

fn member_taken(ledger: &Ledger, b: &Batch, id: &str) -> (r: bool)
    ensures
        r == member_id_used(*ledger, b.facts(), id@),
{
    if ledger.member_id_taken(id) {
        return true;
    }
    let n = b.members.len();
    let mut i: usize = 0;
    while i < n
        invariant
            n == b.members@.len(),
            i <= n,
            forall|j: int| 0 <= j < i ==> (#[trigger] b.facts().members[j]).id != id@,
        decreases n - i,
    {
        if same_text(b.members[i].id.as_str(), id) {
            assert(b.facts().members[i as int].id == id@);
            return true;
        }
        i = i + 1;
    }
    false
}

fn account_taken(ledger: &Ledger, b: &Batch, id: &str) -> (r: bool)
    ensures
        r == account_id_used(*ledger, b.facts(), id@),
{
    if ledger.account_id_taken(id) {
        return true;
    }
    let n = b.accounts.len();
    let mut i: usize = 0;
    while i < n
        invariant
            n == b.accounts@.len(),
            i <= n,
            forall|j: int| 0 <= j < i ==> (#[trigger] b.facts().accounts[j]).id != id@,
        decreases n - i,
    {
        if same_text(b.accounts[i].id.as_str(), id) {
            assert(b.facts().accounts[i as int].id == id@);
            return true;
        }
        i = i + 1;
    }
    false
}

fn loan_taken(ledger: &Ledger, b: &Batch, id: &str) -> (r: bool)
    ensures
        r == loan_id_used(*ledger, b.facts(), id@),
{
    if ledger.find_loan(id).is_some() {
        return true;
    }
    let n = b.loans.len();
    let mut i: usize = 0;
    while i < n
        invariant
            n == b.loans@.len(),
            i <= n,
            forall|j: int| 0 <= j < i ==> (#[trigger] b.facts().loans[j]).id != id@,
        decreases n - i,
    {
        if same_text(b.loans[i].id.as_str(), id) {
            assert(b.facts().loans[i as int].id == id@);
            return true;
        }
        i = i + 1;
    }
    false
}

fn transaction_taken(ledger: &Ledger, b: &Batch, id: &str) -> (r: bool)
    ensures
        r == transaction_id_used(*ledger, b.facts(), id@),
{
    if ledger.find_transaction(id).is_some() {
        return true;
    }
    let n = b.transactions.len();
    let mut i: usize = 0;
    while i < n
        invariant
            n == b.transactions@.len(),
            i <= n,
            forall|j: int| 0 <= j < i ==> (#[trigger] b.facts().transactions[j]).id != id@,
        decreases n - i,
    {
        if same_text(b.transactions[i].id.as_str(), id) {
            assert(b.facts().transactions[i as int].id == id@);
            return true;
        }
        i = i + 1;
    }
    false
}

proof fn lemma_strip_leading(s: Seq<char>, c: char, j: int)
    requires
        0 <= j <= s.len(),
        forall|k: int| 0 <= k < j ==> s[k] == c,
        j == s.len() || s[j] != c,
    ensures
        strip_leading(s, c) == s.subrange(j, s.len() as int),
    decreases j,
{
    if j == 0 {
        assert(s.subrange(0, s.len() as int) =~= s);
    } else {
        let t = s.drop_first();
        assert forall|k: int| 0 <= k < j - 1 implies t[k] == c by {
            assert(t[k] == s[k + 1]);
        }
        if j - 1 < t.len() {
            assert(t[j - 1] == s[j]);
        }
        lemma_strip_leading(t, c, j - 1);
        assert(t.subrange(j - 1, t.len() as int) =~= s.subrange(j, s.len() as int));
    }
}

fn strip_leading_m(s: &str) -> (r: &str)
    ensures
        r@ == strip_leading(s@, 'M'),
{
    let n = s.unicode_len();
    let mut j: usize = 0;
    while j < n && s.get_char(j) == 'M'
        invariant
            n == s@.len(),
            j <= n,
            forall|k: int| 0 <= k < j ==> s@[k] == 'M',
        decreases n - j,
    {
        j = j + 1;
    }
    proof {
        lemma_strip_leading(s@, 'M', j as int);
    }
    s.substring_char(j, n)
}

fn non_negative(v: i64) -> (r: i64)
    ensures
        r == at_least(v as int, 0),
{
    if v < 0 {
        0
    } else {
        v
    }
}

fn seed_member_row(
    ledger: &Ledger,
    company: &str,
    b: &mut Batch,
    row: &Vec<Cell>,
    balances: &Vec<(String, i64, i64, i64)>,
) -> (r: Result<(), String>)
    ensures
        match seed_member(*ledger, company@, old(b).facts(), row@, triples(balances@)) {
            Err(m) => r matches Err(e) && e@ == m,
            Ok(s) => r is Ok && final(b).facts() == s,
        },
        r is Ok && fresh(*ledger, old(b).facts()) ==> fresh(*ledger, final(b).facts()),
{
    if row.len() < 8 {
        return Ok(());
    }
    let sid = cell_text(&row[0]);
    if sid.as_str().unicode_len() == 0 {
        return Ok(());
    }
    let mut id = text(company);
    append(&mut id, "-");
    append(&mut id, sid.as_str());
    let name = cell_text(&row[3]);
    if member_taken(ledger, b, id.as_str()) {
        return Err(crate::ledger::duplicate_key("members", "id"));
    }
    let p = match cell_money(&row[4]) {
        Err(e) => {
            return Err(e);
        },
        Ok(v) => v,
    };
    let w = match cell_money(&row[5]) {
        Err(e) => {
            return Err(e);
        },
        Ok(v) => v,
    };
    let v = match cell_money(&row[6]) {
        Err(e) => {
            return Err(e);
        },
        Ok(v) => v,
    };
    let bal = match latest_triple(balances, sid.as_str()) {
        Some(t) => t,
        None => (p, w, v),
    };
    let a0 = crate::members::opening(&id, SavingsAccountType::Principal, non_negative(bal.0));
    let a1 = crate::members::opening(&id, SavingsAccountType::Mandatory, non_negative(bal.1));
    let a2 = crate::members::opening(&id, SavingsAccountType::Voluntary, non_negative(bal.2));
    if account_taken(ledger, b, a0.id.as_str()) || account_taken(ledger, b, a1.id.as_str())
        || account_taken(ledger, b, a2.id.as_str()) {
        return Err(crate::ledger::duplicate_key("savings_accounts", "id"));
    }
    let mut number = text("KBS-");
    push_left_padded(&mut number, strip_leading_m(sid.as_str()), 4);
    let key = normalize_name(name.as_str());
    let m = Member {
        id: id.clone(),
        member_number: number,
        name,
        joined_at: text("Migrasi 2026"),
        status: text(MemberStatus::Active.as_str()),
    };
    let ghost before = b.facts();
    assert(m.facts() == imported_member(company@, row@));
    b.members.push(m);
    b.accounts.push(a0);
    b.accounts.push(a1);
    b.accounts.push(a2);
    b.names.push((key, id));
    proof {
        let after = b.facts();
        assert(after.members =~= before.members.push(imported_member(company@, row@)));
        assert(after.accounts =~= before.accounts + seq![a0.facts(), a1.facts(), a2.facts()]);
        assert(after.names =~= before.names.push((normalized(imported_member(company@, row@).name), id@)));
        assert(after.loans =~= before.loans);
        assert(after.transactions =~= before.transactions);
        assert(after.postings =~= before.postings);
        if fresh(*ledger, before) {
            lemma_account_ids_distinct(id@);
            let na = before.accounts.len();
            assert forall|j: int, k: int|
                0 <= j < k < after.accounts.len() implies (#[trigger] after.accounts[j]).id
                    != (#[trigger] after.accounts[k]).id by {
                if k >= na && j < na {
                    assert(before.accounts[j] == after.accounts[j]);
                    assert(!account_id_used(*ledger, before, after.accounts[k].id));
                }
            }
            assert forall|j: int| 0 <= j < after.accounts.len() implies !ledger.has_account_id(
                (#[trigger] after.accounts[j]).id,
            ) by {
                if j < na {
                    assert(before.accounts[j] == after.accounts[j]);
                }
            }
            let nm = before.members.len();
            assert forall|j: int, k: int|
                0 <= j < k < after.members.len() implies (#[trigger] after.members[j]).id
                    != (#[trigger] after.members[k]).id by {
                if k == nm {
                    assert(before.members[j] == after.members[j]);
                }
            }
            assert forall|j: int| 0 <= j < after.members.len() implies !ledger.has_member_id(
                (#[trigger] after.members[j]).id,
            ) by {
                if j < nm {
                    assert(before.members[j] == after.members[j]);
                }
            }
        }
    }
    Ok(())
}


fn seed_loan_row(
    ledger: &Ledger,
    company: &str,
    b: &mut Batch,
    row: &LoanSheetRow,
    balances: &Vec<(String, i64)>,
) -> (r: Result<(), String>)
    ensures
        match seed_loan(*ledger, company@, old(b).facts(), *row, pairs(balances@)) {
            Err(m) => r matches Err(e) && e@ == m,
            Ok(s) => r is Ok && final(b).facts() == s,
        },
        r is Ok && fresh(*ledger, old(b).facts()) ==> fresh(*ledger, final(b).facts()),
{
    let cells = &row.cells;
    if cells.len() < 16 {
        return Ok(());
    }
    let sid = cell_text(&cells[0]);
    if sid.as_str().unicode_len() == 0 {
        return Ok(());
    }
    let mut id = text(company);
    append(&mut id, "-");
    append(&mut id, sid.as_str());
    let name = cell_text(&cells[3]);
    let plafond = match cell_money(&cells[4]) {
        Err(e) => {
            return Err(e);
        },
        Ok(v) => non_negative(v),
    };
    let balance = match latest_pair(balances, sid.as_str()) {
        Some(x) => x,
        None => plafond,
    };
    let rate = match &row.rate_bits {
        Ok(v) => *v,
        Err(e) => {
            return Err(e.clone());
        },
    };
    let tenor = match cell_int(&cells[11]) {
        Err(e) => {
            return Err(e);
        },
        Ok(v) => if v < 1 {
            1
        } else {
            v
        },
    };
    let realized = match &row.realization_date {
        Ok(d) => d.clone(),
        Err(e) => {
            return Err(e.clone());
        },
    };
    let due = match &row.due_date {
        Ok(d) => d.clone(),
        Err(e) => {
            return Err(e.clone());
        },
    };
    if loan_taken(ledger, b, id.as_str()) {
        return Err(crate::ledger::duplicate_key("loans", "id"));
    }
    let key = normalize_name(name.as_str());
    let member_id = latest_name(&b.names, key.as_str());
    let interest = if same_text(cell_text(&cells[7]).as_str(), InterestType::Flat.as_str()) {
        text(InterestType::Flat.as_str())
    } else {
        text(InterestType::Declining.as_str())
    };
    let status = if same_text(cell_text(&cells[15]).as_str(), "PERLU CEK") {
        text(LoanStatus::NeedsReview.as_str())
    } else if balance == 0 {
        text(LoanStatus::PaidOff.as_str())
    } else {
        text(LoanStatus::Active.as_str())
    };
    let loan = Loan {
        id,
        member_id,
        member_name: name,
        plafond,
        balance,
        rate_bits: rate,
        tenor,
        interest_type: interest,
        realization_date: realized,
        due_date: due,
        status,
    };
    let ghost before = b.facts();
    b.loans.push(loan);
    proof {
        let after = b.facts();
        assert(after.loans =~= before.loans.push(loan.facts()));
        assert(after.members =~= before.members);
        assert(after.accounts =~= before.accounts);
        assert(after.transactions =~= before.transactions);
        assert(after.postings =~= before.postings);
        let nl = before.loans.len();
        assert forall|j: int, k: int|
            0 <= j < k < after.loans.len() && fresh(*ledger, before) implies (#[trigger] after.loans[j]).id
                != (#[trigger] after.loans[k]).id by {
            if k == nl {
                assert(before.loans[j] == after.loans[j]);
            }
        }
        assert forall|j: int| 0 <= j < after.loans.len() && fresh(*ledger, before) implies !ledger.has_loan_id(
            (#[trigger] after.loans[j]).id,
        ) by {
            if j < nl {
                assert(before.loans[j] == after.loans[j]);
            }
        }
    }
    Ok(())
}

fn seed_opening_cash(ledger: &Ledger, company: &str, b: &mut Batch) -> (r: Result<(), String>)
    ensures
        match seed_opening(*ledger, company@, old(b).facts()) {
            Err(m) => r matches Err(e) && e@ == m,
            Ok(s) => r is Ok && final(b).facts() == s,
        },
        r is Ok && fresh(*ledger, old(b).facts()) ==> fresh(*ledger, final(b).facts()),
{
    let mut id = text(company);
    append(&mut id, "-OPENING-CASH-2026");
    if transaction_taken(ledger, b, id.as_str()) {
        return Err(crate::ledger::duplicate_key("transactions", "id"));
    }
    let c = Component {
        component_type: text("CASH_OPENING"),
        label: text("Saldo awal kas"),
        amount: 21974442,
        loan_id: None,
        savings_account_id: None,
    };
    let t = Transaction {
        id: id.clone(),
        business_date: text("2026-01-01"),
        display_date: text("01-Jan-2026"),
        display_time: text("00:00"),
        member_id: None,
        member_name: text("Koperasi"),
        transaction_type: text("OPENING_BALANCE"),
        description: text("Saldo awal kas 2026"),
        reference: text("OPENING/KAS/2026"),
        direction: text(TransactionDirection::In.as_str()),
        amount: 21974442,
        status: text(TransactionStatus::Posted.as_str()),
        reversed_transaction_id: None,
        actor: text("System Migration"),
        components: vec![c],
    };
    let p = CashPosting {
        transaction_id: id,
        direction: text(TransactionDirection::In.as_str()),
        amount: 21974442,
    };
    proof {
        assert(crate::ledger::component_facts(t.components@) =~= opening_transaction(
            company@ + "-OPENING-CASH-2026"@,
        ).components);
    }
    let ghost before = b.facts();
    b.transactions.push(t);
    b.postings.push(p);
    proof {
        let after = b.facts();
        assert(after.transactions =~= before.transactions.push(t.facts()));
        assert(after.postings =~= before.postings.push(p.facts()));
        assert(after.members =~= before.members);
        assert(after.accounts =~= before.accounts);
        assert(after.loans =~= before.loans);
        let nt = before.transactions.len();
        assert forall|j: int, k: int|
            0 <= j < k < after.transactions.len() && fresh(*ledger, before) implies (#[trigger] after.transactions[j]).id
                != (#[trigger] after.transactions[k]).id by {
            if k == nt {
                assert(before.transactions[j] == after.transactions[j]);
            }
        }
        assert forall|j: int|
            0 <= j < after.transactions.len() && fresh(*ledger, before) implies !ledger.has_transaction_id(
            (#[trigger] after.transactions[j]).id,
        ) by {
            if j < nt {
                assert(before.transactions[j] == after.transactions[j]);
            }
        }
    }
    Ok(())
}

fn seed_cash_row(ledger: &Ledger, company: &str, b: &mut Batch, row: &CashSheetRow) -> (r: Result<
    (),
    String,
>)
    ensures
        match seed_cash(*ledger, company@, old(b).facts(), *row) {
            Err(m) => r matches Err(e) && e@ == m,
            Ok(s) => r is Ok && final(b).facts() == s,
        },
        r is Ok && fresh(*ledger, old(b).facts()) ==> fresh(*ledger, final(b).facts()),
{
    let cells = &row.cells;
    if cells.len() < 11 {
        return Ok(());
    }
    let out = match cell_money(&cells[4]) {
        Err(e) => {
            return Err(e);
        },
        Ok(v) => v,
    };
    let inn = match cell_money(&cells[5]) {
        Err(e) => {
            return Err(e);
        },
        Ok(v) => v,
    };
    let net = match inn.checked_sub(out) {
        None => {
            return Err(text("Nilai mutasi kas terlalu besar."));
        },
        Some(v) => v,
    };
    if net == 0 {
        return Ok(());
    }
    if net == i64::MIN {
        return Err(text("Nilai mutasi kas terlalu besar."));
    }
    let amount: i64 = if net < 0 {
        -net
    } else {
        net
    };
    let source_row = cell_text(&cells[9]);
    let mut id = text(company);
    append(&mut id, "-MIG-KAS-");
    append(&mut id, source_row.as_str());
    let business_date = match &row.business_date {
        Ok(d) => d.clone(),
        Err(e) => {
            return Err(e.clone());
        },
    };
    let display_date = match &row.display_date {
        Ok(d) => d.clone(),
        Err(e) => {
            return Err(e.clone());
        },
    };
    if transaction_taken(ledger, b, id.as_str()) {
        return Err(crate::ledger::duplicate_key("transactions", "id"));
    }
    let direction = if net > 0 {
        TransactionDirection::In
    } else {
        TransactionDirection::Out
    };
    let description = cell_text(&cells[1]);
    let mut reference = text("MIG/KAS/2026/");
    append(&mut reference, source_row.as_str());
    let c = Component {
        component_type: text("MIGRATION_UNCLASSIFIED"),
        label: text("Migrasi buku kas"),
        amount,
        loan_id: None,
        savings_account_id: None,
    };
    let t = Transaction {
        id: id.clone(),
        business_date,
        display_date,
        display_time: text("00:00"),
        member_id: None,
        member_name: description.clone(),
        transaction_type: text("MIGRATED_CASH"),
        description,
        reference,
        direction: text(direction.as_str()),
        amount,
        status: text(TransactionStatus::Posted.as_str()),
        reversed_transaction_id: None,
        actor: text("Import Excel 2026"),
        components: vec![c],
    };
    let p = CashPosting { transaction_id: id, direction: text(direction.as_str()), amount };
    proof {
        assert(crate::ledger::component_facts(t.components@) =~= seq![c.facts()]);
    }
    let ghost before = b.facts();
    b.transactions.push(t);
    b.postings.push(p);
    proof {
        let after = b.facts();
        assert(after.transactions =~= before.transactions.push(t.facts()));
        assert(after.postings =~= before.postings.push(p.facts()));
        assert(after.members =~= before.members);
        assert(after.accounts =~= before.accounts);
        assert(after.loans =~= before.loans);
        let nt = before.transactions.len();
        assert forall|j: int, k: int|
            0 <= j < k < after.transactions.len() && fresh(*ledger, before) implies (#[trigger] after.transactions[j]).id
                != (#[trigger] after.transactions[k]).id by {
            if k == nt {
                assert(before.transactions[j] == after.transactions[j]);
            }
        }
        assert forall|j: int|
            0 <= j < after.transactions.len() && fresh(*ledger, before) implies !ledger.has_transaction_id(
            (#[trigger] after.transactions[j]).id,
        ) by {
            if j < nt {
                assert(before.transactions[j] == after.transactions[j]);
            }
        }
    }
    Ok(())
}


proof fn lemma_account_ids_distinct(member_id: Seq<char>)
    ensures
        account_id_for(member_id, SavingsAccountType::Principal) != account_id_for(
            member_id,
            SavingsAccountType::Mandatory,
        ),
        account_id_for(member_id, SavingsAccountType::Principal) != account_id_for(
            member_id,
            SavingsAccountType::Voluntary,
        ),
        account_id_for(member_id, SavingsAccountType::Mandatory) != account_id_for(
            member_id,
            SavingsAccountType::Voluntary,
        ),
{
    reveal_strlit("POKOK");
    reveal_strlit("WAJIB");
    reveal_strlit("MANASUKA");
    let x = "SA-"@ + member_id + "-"@;
    let p = account_id_for(member_id, SavingsAccountType::Principal);
    let m = account_id_for(member_id, SavingsAccountType::Mandatory);
    assert(p =~= x + "POKOK"@);
    assert(m =~= x + "WAJIB"@);
    assert(p[x.len() as int] == 'P');
    assert(m[x.len() as int] == 'W');
}


proof fn lemma_seed_members_err(
    l: Ledger,
    c: Seq<char>,
    s: Imported,
    rows: Seq<Vec<Cell>>,
    bal: Seq<(Seq<char>, (int, int, int))>,
    i: int,
)
    requires
        0 <= i <= rows.len(),
        seed_members(l, c, s, rows.subrange(0, i), bal) is Err,
    ensures
        seed_members(l, c, s, rows, bal) == seed_members(l, c, s, rows.subrange(0, i), bal),
    decreases rows.len() - i,
{
    if i < rows.len() {
        assert(rows.subrange(0, i + 1).drop_last() =~= rows.subrange(0, i));
        lemma_seed_members_err(l, c, s, rows, bal, i + 1);
    } else {
        assert(rows.subrange(0, i) =~= rows);
    }
}

proof fn lemma_seed_loans_err(
    l: Ledger,
    c: Seq<char>,
    s: Imported,
    rows: Seq<LoanSheetRow>,
    bal: Seq<(Seq<char>, int)>,
    i: int,
)
    requires
        0 <= i <= rows.len(),
        seed_loans(l, c, s, rows.subrange(0, i), bal) is Err,
    ensures
        seed_loans(l, c, s, rows, bal) == seed_loans(l, c, s, rows.subrange(0, i), bal),
    decreases rows.len() - i,
{
    if i < rows.len() {
        assert(rows.subrange(0, i + 1).drop_last() =~= rows.subrange(0, i));
        lemma_seed_loans_err(l, c, s, rows, bal, i + 1);
    } else {
        assert(rows.subrange(0, i) =~= rows);
    }
}

proof fn lemma_seed_cash_err(l: Ledger, c: Seq<char>, s: Imported, rows: Seq<CashSheetRow>, i: int)
    requires
        0 <= i <= rows.len(),
        seed_cash_rows(l, c, s, rows.subrange(0, i)) is Err,
    ensures
        seed_cash_rows(l, c, s, rows) == seed_cash_rows(l, c, s, rows.subrange(0, i)),
    decreases rows.len() - i,
{
    if i < rows.len() {
        assert(rows.subrange(0, i + 1).drop_last() =~= rows.subrange(0, i));
        lemma_seed_cash_err(l, c, s, rows, i + 1);
    } else {
        assert(rows.subrange(0, i) =~= rows);
    }
}

fn seed_member_rows(
    ledger: &Ledger,
    company: &str,
    b: &mut Batch,
    rows: &Vec<Vec<Cell>>,
    balances: &Vec<(String, i64, i64, i64)>,
) -> (r: Result<(), String>)
    requires
        fresh(*ledger, old(b).facts()),
    ensures
        match seed_members(*ledger, company@, old(b).facts(), rows@, triples(balances@)) {
            Err(m) => r matches Err(e) && e@ == m,
            Ok(s) => r is Ok && final(b).facts() == s && fresh(*ledger, s),
        },
{
    let ghost s0 = b.facts();
    let n = rows.len();
    let mut i: usize = 0;
    proof {
        assert(rows@.subrange(0, 0) =~= Seq::<Vec<Cell>>::empty());
    }
    while i < n
        invariant
            n == rows@.len(),
            i <= n,
            seed_members(*ledger, company@, s0, rows@.subrange(0, i as int), triples(balances@))
                == Ok::<Imported, Seq<char>>(b.facts()),
            fresh(*ledger, b.facts()),
            s0 == old(b).facts(),
        decreases n - i,
    {
        proof {
            assert(rows@.subrange(0, i + 1).drop_last() =~= rows@.subrange(0, i as int));
            assert(rows@.subrange(0, i + 1).last() == rows@[i as int]);
        }
        let ghost pre = b.facts();
        match seed_member_row(ledger, company, b, &rows[i], balances) {
            Err(e) => {
                proof {
                    assert(seed_member(*ledger, company@, pre, rows@[i as int]@, triples(balances@)) is Err);
                    assert(seed_members(*ledger, company@, s0, rows@.subrange(0, i + 1), triples(balances@)) is Err);
                    lemma_seed_members_err(*ledger, company@, s0, rows@, triples(balances@), i + 1);
                }
                return Err(e);
            },
            Ok(()) => {},
        }
        i = i + 1;
    }
    proof {
        assert(rows@.subrange(0, n as int) =~= rows@);
    }
    Ok(())
}

fn seed_loan_rows(
    ledger: &Ledger,
    company: &str,
    b: &mut Batch,
    rows: &Vec<LoanSheetRow>,
    balances: &Vec<(String, i64)>,
) -> (r: Result<(), String>)
    requires
        fresh(*ledger, old(b).facts()),
    ensures
        match seed_loans(*ledger, company@, old(b).facts(), rows@, pairs(balances@)) {
            Err(m) => r matches Err(e) && e@ == m,
            Ok(s) => r is Ok && final(b).facts() == s && fresh(*ledger, s),
        },
{
    let ghost s0 = b.facts();
    let n = rows.len();
    let mut i: usize = 0;
    proof {
        assert(rows@.subrange(0, 0) =~= Seq::<LoanSheetRow>::empty());
    }
    while i < n
        invariant
            n == rows@.len(),
            i <= n,
            seed_loans(*ledger, company@, s0, rows@.subrange(0, i as int), pairs(balances@))
                == Ok::<Imported, Seq<char>>(b.facts()),
            fresh(*ledger, b.facts()),
            s0 == old(b).facts(),
        decreases n - i,
    {
        proof {
            assert(rows@.subrange(0, i + 1).drop_last() =~= rows@.subrange(0, i as int));
            assert(rows@.subrange(0, i + 1).last() == rows@[i as int]);
        }
        let ghost pre = b.facts();
        match seed_loan_row(ledger, company, b, &rows[i], balances) {
            Err(e) => {
                proof {
                    assert(seed_loan(*ledger, company@, pre, rows@[i as int], pairs(balances@)) is Err);
                    assert(seed_loans(*ledger, company@, s0, rows@.subrange(0, i + 1), pairs(balances@)) is Err);
                    lemma_seed_loans_err(*ledger, company@, s0, rows@, pairs(balances@), i + 1);
                }
                return Err(e);
            },
            Ok(()) => {},
        }
        i = i + 1;
    }
    proof {
        assert(rows@.subrange(0, n as int) =~= rows@);
    }
    Ok(())
}

fn seed_cash_book(ledger: &Ledger, company: &str, b: &mut Batch, rows: &Vec<CashSheetRow>) -> (r:
    Result<(), String>)
    requires
        fresh(*ledger, old(b).facts()),
    ensures
        match seed_cash_rows(*ledger, company@, old(b).facts(), rows@) {
            Err(m) => r matches Err(e) && e@ == m,
            Ok(s) => r is Ok && final(b).facts() == s && fresh(*ledger, s),
        },
{
    let ghost s0 = b.facts();
    let n = rows.len();
    let mut i: usize = 0;
    proof {
        assert(rows@.subrange(0, 0) =~= Seq::<CashSheetRow>::empty());
    }
    while i < n
        invariant
            n == rows@.len(),
            i <= n,
            seed_cash_rows(*ledger, company@, s0, rows@.subrange(0, i as int)) == Ok::<
                Imported,
                Seq<char>,
            >(b.facts()),
            fresh(*ledger, b.facts()),
            s0 == old(b).facts(),
        decreases n - i,
    {
        proof {
            assert(rows@.subrange(0, i + 1).drop_last() =~= rows@.subrange(0, i as int));
            assert(rows@.subrange(0, i + 1).last() == rows@[i as int]);
        }
        let ghost pre = b.facts();
        match seed_cash_row(ledger, company, b, &rows[i]) {
            Err(e) => {
                proof {
                    assert(seed_cash(*ledger, company@, pre, rows@[i as int]) is Err);
                    assert(seed_cash_rows(*ledger, company@, s0, rows@.subrange(0, i + 1)) is Err);
                    lemma_seed_cash_err(*ledger, company@, s0, rows@, i + 1);
                }
                return Err(e);
            },
            Ok(()) => {},
        }
        i = i + 1;
    }
    proof {
        assert(rows@.subrange(0, n as int) =~= rows@);
    }
    Ok(())
}

fn period_taken(ledger: &Ledger, period: &str) -> (r: bool)
    ensures
        r == has_period(*ledger, period@),
{
    let n = ledger.periods.len();
    let mut i: usize = 0;
    while i < n
        invariant
            n == ledger.periods@.len(),
            i <= n,
            forall|j: int| 0 <= j < i ==> (#[trigger] ledger.periods@[j]).period@ != period@,
        decreases n - i,
    {
        if same_text(ledger.periods[i].period.as_str(), period) {
            return true;
        }
        i = i + 1;
    }
    false
}

/// Seeds the books from the workbook's sheets: the members and their savings
/// accounts, the loans, the opening cash and the cash movements of the year,
/// and the first open period; nothing when any row is refused.
pub fn seed_database(ledger: &mut Ledger, sheets: &WorkbookSheets) -> (r: Result<(), String>)
    requires
        old(ledger).wf(),
    ensures
        final(ledger).wf(),
        match seed_outcome(*old(ledger), *sheets) {
            Err(m) => r matches Err(e) && e@ == m && *final(ledger) == *old(ledger),
            Ok(s) => r is Ok && seeded(*old(ledger), *final(ledger), s),
        },
{
    let company = ledger.company_id.clone();
    let sb = match read_savings_balances(&sheets.savings_2026) {
        Err(e) => {
            return Err(e);
        },
        Ok(v) => v,
    };
    let mut b = Batch {
        members: Vec::new(),
        accounts: Vec::new(),
        loans: Vec::new(),
        transactions: Vec::new(),
        postings: Vec::new(),
        names: Vec::new(),
    };
    proof {
        assert(b.facts() =~= nothing_imported()) by {
            assert(b.facts().members =~= Seq::<MemberFacts>::empty());
            assert(b.facts().accounts =~= Seq::<AccountFacts>::empty());
            assert(b.facts().loans =~= Seq::<LoanFacts>::empty());
            assert(b.facts().transactions =~= Seq::<TransactionFacts>::empty());
            assert(b.facts().postings =~= Seq::<PostingFacts>::empty());
            assert(b.facts().names =~= Seq::<(Seq<char>, Seq<char>)>::empty());
        }
    }
    match seed_member_rows(ledger, company.as_str(), &mut b, &sheets.master_savings, &sb) {
        Err(e) => {
            return Err(e);
        },
        Ok(()) => {},
    }
    let lb = match read_loan_balances(&sheets.loans_2026) {
        Err(e) => {
            return Err(e);
        },
        Ok(v) => v,
    };
    match seed_loan_rows(ledger, company.as_str(), &mut b, &sheets.master_loans, &lb) {
        Err(e) => {
            return Err(e);
        },
        Ok(()) => {},
    }
    match seed_opening_cash(ledger, company.as_str(), &mut b) {
        Err(e) => {
            return Err(e);
        },
        Ok(()) => {},
    }
    match seed_cash_book(ledger, company.as_str(), &mut b, &sheets.cash_2026) {
        Err(e) => {
            return Err(e);
        },
        Ok(()) => {},
    }
    if period_taken(ledger, "2026-09") {
        return Err(crate::ledger::duplicate_key("periods", "period"));
    }
    let ghost old_ledger = *ledger;
    let ghost s = b.facts();
    ledger.members.append(&mut b.members);
    ledger.accounts.append(&mut b.accounts);
    ledger.loans.append(&mut b.loans);
    ledger.transactions.append(&mut b.transactions);
    ledger.cash_postings.append(&mut b.postings);
    ledger.periods.push(Period { period: text("2026-09"), status: text(PeriodStatus::Open.as_str()) });
    proof {
        assert(ledger.member_table() =~= old_ledger.member_table() + s.members);
        assert(ledger.account_table() =~= old_ledger.account_table() + s.accounts);
        assert(ledger.loan_table() =~= old_ledger.loan_table() + s.loans);
        assert(ledger.transaction_table() =~= old_ledger.transaction_table() + s.transactions);
        assert(ledger.posting_table() =~= old_ledger.posting_table() + s.postings);
        assert(ledger.period_table() =~= old_ledger.period_table().push(first_period()));
        lemma_seeded_wf(old_ledger, *ledger, s);
    }
    Ok(())
}

proof fn lemma_seeded_wf(old: Ledger, new: Ledger, s: Imported)
    requires
        old.wf(),
        fresh(old, s),
        new.member_table() == old.member_table() + s.members,
        new.account_table() == old.account_table() + s.accounts,
        new.loan_table() == old.loan_table() + s.loans,
        new.transaction_table() == old.transaction_table() + s.transactions,
    ensures
        new.wf(),
{
    let nm = old.members@.len();
    assert(old.member_table().len() == nm);
    assert(old.account_table().len() == old.accounts@.len());
    assert(old.loan_table().len() == old.loans@.len());
    assert(old.transaction_table().len() == old.transactions@.len());
    assert(new.member_table().len() == new.members@.len());
    assert(new.account_table().len() == new.accounts@.len());
    assert(new.loan_table().len() == new.loans@.len());
    assert(new.transaction_table().len() == new.transactions@.len());
    assert forall|i: int, j: int| 0 <= i < j < new.members@.len() implies new.members@[i].id@
        != new.members@[j].id@ by {
        assert(new.members@[i].id@ == new.member_table()[i].id);
        assert(new.members@[j].id@ == new.member_table()[j].id);
        if j < nm {
            assert(old.members@[i].id@ == old.member_table()[i].id);
            assert(old.members@[j].id@ == old.member_table()[j].id);
        } else if i < nm {
            assert(old.members@[i].id@ == old.member_table()[i].id);
            assert(new.member_table()[j] == s.members[j - nm]);
            assert(!old.has_member_id(s.members[j - nm].id));
        } else {
            assert(new.member_table()[i] == s.members[i - nm]);
            assert(new.member_table()[j] == s.members[j - nm]);
        }
    }
    let na = old.accounts@.len();
    assert forall|i: int, j: int| 0 <= i < j < new.accounts@.len() implies new.accounts@[i].id@
        != new.accounts@[j].id@ by {
        assert(new.accounts@[i].id@ == new.account_table()[i].id);
        assert(new.accounts@[j].id@ == new.account_table()[j].id);
        if j < na {
            assert(old.accounts@[i].id@ == old.account_table()[i].id);
            assert(old.accounts@[j].id@ == old.account_table()[j].id);
        } else if i < na {
            assert(old.accounts@[i].id@ == old.account_table()[i].id);
            assert(new.account_table()[j] == s.accounts[j - na]);
            assert(!old.has_account_id(s.accounts[j - na].id));
        } else {
            assert(new.account_table()[i] == s.accounts[i - na]);
            assert(new.account_table()[j] == s.accounts[j - na]);
        }
    }
    let nl = old.loans@.len();
    assert forall|i: int, j: int| 0 <= i < j < new.loans@.len() implies new.loans@[i].id@
        != new.loans@[j].id@ by {
        assert(new.loans@[i].id@ == new.loan_table()[i].id);
        assert(new.loans@[j].id@ == new.loan_table()[j].id);
        if j < nl {
            assert(old.loans@[i].id@ == old.loan_table()[i].id);
            assert(old.loans@[j].id@ == old.loan_table()[j].id);
        } else if i < nl {
            assert(old.loans@[i].id@ == old.loan_table()[i].id);
            assert(new.loan_table()[j] == s.loans[j - nl]);
            assert(!old.has_loan_id(s.loans[j - nl].id));
        } else {
            assert(new.loan_table()[i] == s.loans[i - nl]);
            assert(new.loan_table()[j] == s.loans[j - nl]);
        }
    }
    let nt = old.transactions@.len();
    assert forall|i: int, j: int| 0 <= i < j < new.transactions@.len() implies new.transactions@[i].id@
        != new.transactions@[j].id@ by {
        assert(new.transactions@[i].id@ == new.transaction_table()[i].id);
        assert(new.transactions@[j].id@ == new.transaction_table()[j].id);
        if j < nt {
            assert(old.transactions@[i].id@ == old.transaction_table()[i].id);
            assert(old.transactions@[j].id@ == old.transaction_table()[j].id);
        } else if i < nt {
            assert(old.transactions@[i].id@ == old.transaction_table()[i].id);
            assert(new.transaction_table()[j] == s.transactions[j - nt]);
            assert(!old.has_transaction_id(s.transactions[j - nt].id));
        } else {
            assert(new.transaction_table()[i] == s.transactions[i - nt]);
            assert(new.transaction_table()[j] == s.transactions[j - nt]);
        }
    }
}


pub open spec fn already_imported_message() -> Seq<char> {
    "Data sudah pernah diimpor. Hapus data aplikasi terlebih dahulu untuk mengimpor ulang."@
}

/// A workbook is imported once: refused when the books already carry
/// `seed_marks` marks of an earlier import.
pub fn check_not_imported(seed_marks: i64) -> (r: Result<(), String>)
    ensures
        seed_marks > 0 ==> (r matches Err(e) && e@ == already_imported_message()),
        seed_marks <= 0 ==> r is Ok,
{
    if seed_marks > 0 {
        Err(text("Data sudah pernah diimpor. Hapus data aplikasi terlebih dahulu untuk mengimpor ulang."))
    } else {
        Ok(())
    }
}

} // verus!
