use koperasi::commands::Command;
use koperasi::contracts::AddMemberInput;
use koperasi::ledger::{IdSource, Ledger};
use koperasi::run;
use koperasi::seed::{check_not_imported, seed_database, CashSheetRow, LoanSheetRow, WorkbookSheets};
use koperasi::workbook::Cell;

fn books(company: &str) -> Ledger {
    Ledger {
        company_id: company.to_string(),
        members: vec![],
        accounts: vec![],
        loans: vec![],
        transactions: vec![],
        cash_postings: vec![],
        periods: vec![],
        audit_events: vec![],
    }
}

fn t(s: &str) -> Cell {
    Cell::Text(s.to_string())
}

/// A row of `n` empty cells with the given cells set.
fn row(n: usize, set: &[(usize, Cell)]) -> Vec<Cell> {
    let mut r: Vec<Cell> = (0..n).map(|_| Cell::Empty).collect();
    for (i, c) in set {
        r[*i] = match c {
            Cell::Text(s) => Cell::Text(s.clone()),
            Cell::Int(v) => Cell::Int(*v),
            _ => Cell::Empty,
        };
    }
    r
}

fn master_member(id: &str, name: &str, p: &str, w: &str, v: &str) -> Vec<Cell> {
    row(8, &[(0, t(id)), (3, t(name)), (4, t(p)), (5, t(w)), (6, t(v))])
}

fn master_loan(id: &str, name: &str, plafond: &str, kind: &str, tenor: &str, note: &str) -> LoanSheetRow {
    LoanSheetRow {
        cells: row(16, &[(0, t(id)), (3, t(name)), (4, t(plafond)), (7, t(kind)), (11, t(tenor)), (15, t(note))]),
        rate_bits: Ok(24.0f64.to_bits()),
        realization_date: Ok("13-Sep-2025".to_string()),
        due_date: Ok("13-Jul-2026".to_string()),
    }
}

fn cash_row(out: &str, inn: &str, source_row: &str, description: &str) -> CashSheetRow {
    CashSheetRow {
        cells: row(11, &[(1, t(description)), (4, t(out)), (5, t(inn)), (9, t(source_row))]),
        business_date: Ok("2026-01-05".to_string()),
        display_date: Ok("05-Jan-2026".to_string()),
    }
}

fn workbook() -> WorkbookSheets {
    WorkbookSheets {
        master_savings: vec![
            master_member("M001", "Budi Santoso", "50.000", "100.000", "(1,000)"),
            master_member("MM12", "Siti", "50.000", "0", "-"),
            row(5, &[(0, t("M099"))]),
            master_member("", "Tanpa Nomor", "1", "1", "1"),
        ],
        savings_2026: vec![
            row(17, &[(0, t("M001")), (14, t("60.000")), (15, t("120.000")), (16, t("5.000"))]),
            row(10, &[(0, t("MM12"))]),
        ],
        master_loans: vec![
            master_loan("P001", "budi  santoso", "1.000.000", "Flat", "10", ""),
            master_loan("P002", "Nobody", "500.000", "Menurun", "0", "PERLU CEK"),
        ],
        loans_2026: vec![row(23, &[(0, t("P001")), (22, t("400.000"))])],
        cash_2026: vec![
            cash_row("", "150.000", "7", "Iuran"),
            cash_row("20.000", "", "8", "ATK"),
            cash_row("5", "5", "9", "Koreksi"),
        ],
    }
}

fn cash(l: &Ledger) -> i64 {
    l.cash_postings
        .iter()
        .map(|p| if p.direction == "Masuk" { p.amount } else { -p.amount })
        .sum()
}

fn balance(l: &Ledger, account_id: &str) -> i64 {
    l.accounts.iter().find(|a| a.id == account_id).unwrap().balance
}

#[test]
fn seeds_members_with_their_latest_balances() {
    let mut l = books("default");
    seed_database(&mut l, &workbook()).unwrap();
    assert_eq!(l.members.len(), 2);
    assert_eq!(l.members[0].id, "default-M001");
    assert_eq!(l.members[0].member_number, "KBS-0001");
    assert_eq!(l.members[0].joined_at, "Migrasi 2026");
    assert_eq!(l.members[1].id, "default-MM12");
    assert_eq!(l.members[1].member_number, "KBS-0012");
    assert_eq!(balance(&l, "SA-default-M001-POKOK"), 60_000);
    assert_eq!(balance(&l, "SA-default-M001-WAJIB"), 120_000);
    assert_eq!(balance(&l, "SA-default-M001-MANASUKA"), 5_000);
    assert_eq!(balance(&l, "SA-default-MM12-POKOK"), 50_000);
    assert_eq!(balance(&l, "SA-default-MM12-MANASUKA"), 0);
    assert_eq!(l.accounts.len(), 6);
}

#[test]
fn seeds_loans_matched_to_members_by_name() {
    let mut l = books("default");
    seed_database(&mut l, &workbook()).unwrap();
    assert_eq!(l.loans.len(), 2);
    let p1 = &l.loans[0];
    assert_eq!(p1.id, "default-P001");
    assert_eq!(p1.member_id.as_deref(), Some("default-M001"));
    assert_eq!(p1.plafond, 1_000_000);
    assert_eq!(p1.balance, 400_000);
    assert_eq!(p1.status, "Berjalan");
    assert_eq!(p1.interest_type, "Flat");
    assert_eq!(p1.tenor, 10);
    assert_eq!(p1.realization_date, "13-Sep-2025");
    let p2 = &l.loans[1];
    assert_eq!(p2.member_id, None);
    assert_eq!(p2.balance, 500_000);
    assert_eq!(p2.status, "Perlu review");
    assert_eq!(p2.interest_type, "Menurun");
    assert_eq!(p2.tenor, 1);
}

#[test]
fn seeded_cash_book_adds_up_to_opening_plus_movements() {
    let mut l = books("default");
    seed_database(&mut l, &workbook()).unwrap();
    assert_eq!(cash(&l), 21_974_442 + 150_000 - 20_000);
    assert_eq!(l.transactions.len(), 3);
    let opening = &l.transactions[0];
    assert_eq!(opening.id, "default-OPENING-CASH-2026");
    assert_eq!(opening.transaction_type, "OPENING_BALANCE");
    assert_eq!(opening.amount, 21_974_442);
    let out = &l.transactions[2];
    assert_eq!(out.id, "default-MIG-KAS-8");
    assert_eq!(out.reference, "MIG/KAS/2026/8");
    assert_eq!(out.direction, "Keluar");
    assert_eq!(out.amount, 20_000);
    assert_eq!(out.member_name, "ATK");
    assert_eq!(out.business_date, "2026-01-05");
    assert_eq!(out.components[0].component_type, "MIGRATION_UNCLASSIFIED");
    assert_eq!(l.periods.len(), 1);
    assert_eq!(l.periods[0].period, "2026-09");
    assert_eq!(l.periods[0].status, "OPEN");
    assert!(l.audit_events.is_empty());
}

#[test]
fn a_refused_row_leaves_the_books_untouched() {
    let mut l = books("default");
    let mut sheets = workbook();
    sheets.savings_2026.push(row(17, &[(0, t("M002")), (14, t("sepuluh"))]));
    assert_eq!(seed_database(&mut l, &sheets).unwrap_err(), "Nilai uang tidak valid: sepuluh");
    assert!(l.members.is_empty());
    assert!(l.transactions.is_empty());
    assert!(l.periods.is_empty());
}

#[test]
fn duplicate_member_rows_are_refused() {
    let mut l = books("default");
    let mut sheets = workbook();
    sheets.master_savings.push(master_member("M001", "Budi Lagi", "1", "1", "1"));
    assert_eq!(seed_database(&mut l, &sheets).unwrap_err(), "error returned from database: (code: 1555) UNIQUE constraint failed: members.company_id, members.id");
    assert!(l.members.is_empty());
}

#[test]
fn workbook_date_refusals_stop_the_import() {
    let mut l = books("default");
    let mut sheets = workbook();
    sheets.cash_2026[1].business_date = Err("Tanggal workbook tidak valid.".to_string());
    assert_eq!(seed_database(&mut l, &sheets).unwrap_err(), "Tanggal workbook tidak valid.");
    let mut sheets = workbook();
    sheets.master_loans[0].rate_bits = Err("Persentase tidak valid: x".to_string());
    assert_eq!(seed_database(&mut l, &sheets).unwrap_err(), "Persentase tidak valid: x");
    assert!(l.loans.is_empty());
}

#[test]
fn a_company_is_seeded_once() {
    assert!(check_not_imported(0).is_ok());
    assert_eq!(
        check_not_imported(1).unwrap_err(),
        "Data sudah pernah diimpor. Hapus data aplikasi terlebih dahulu untuk mengimpor ulang."
    );
    let mut l = books("default");
    seed_database(&mut l, &workbook()).unwrap();
    assert_eq!(seed_database(&mut l, &workbook()).unwrap_err(), "error returned from database: (code: 1555) UNIQUE constraint failed: members.company_id, members.id");
    assert_eq!(l.members.len(), 2);
}

#[test]
fn run_serves_each_request_with_a_snapshot() {
    let mut l = books("default");
    let mut g = IdSource { millis: 1_700_000_000_000, next: 0 };
    let snapshot = match run(&mut l, &mut g, &Command::ImportWorkbook(workbook())) {
        Ok(s) => s,
        Err(e) => panic!("{e}"),
    };
    assert_eq!(snapshot.totals.members, 2);
    assert_eq!(snapshot.totals.cash, 21_974_442 + 150_000 - 20_000);
    assert_eq!(snapshot.totals.loan_portfolio, 900_000);
    let input = AddMemberInput {
        name: "Ani".into(),
        member_number: "KBS-0100".into(),
        joined_at: "2026-09-13".into(),
        principal_savings: 50_000,
        business_date: "2026-09-13".into(),
        display_date: "13 Sep 2026".into(),
        display_time: "10:00".into(),
    };
    let snapshot = match run(&mut l, &mut g, &Command::AddMember(input)) {
        Ok(s) => s,
        Err(e) => panic!("{e}"),
    };
    assert_eq!(snapshot.totals.members, 3);
    assert_eq!(l.members[2].id, "default-M002");
    match run(&mut l, &mut g, &Command::GetAppSnapshot) {
        Ok(s) => assert_eq!(s.members.len(), 3),
        Err(e) => panic!("{e}"),
    }
    let again = run(&mut l, &mut g, &Command::ImportWorkbook(workbook()));
    assert!(matches!(again, Err(ref e) if e == "error returned from database: (code: 1555) UNIQUE constraint failed: members.company_id, members.id"));
}

#[test]
fn imported_loans_run_a_month_or_more_with_a_status_that_follows_the_balance() {
    let mut sheets = workbook();
    sheets.master_loans.push(master_loan("P003", "Siti", "250.000", "Flat", "-4", ""));
    sheets.loans_2026.push(row(23, &[(0, t("P003")), (22, t("0"))]));
    let mut l = books("default");
    seed_database(&mut l, &sheets).unwrap();
    assert_eq!(l.loans.len(), 3);
    for loan in &l.loans {
        assert!(loan.tenor >= 1);
        assert!(loan.balance >= 0 && loan.plafond >= 0);
        assert!(
            loan.status == "Perlu review"
                || (loan.status == "Lunas" && loan.balance == 0)
                || (loan.status == "Berjalan" && loan.balance != 0)
        );
    }
    let p3 = &l.loans[2];
    assert_eq!(p3.tenor, 1);
    assert_eq!(p3.balance, 0);
    assert_eq!(p3.status, "Lunas");
    for account in &l.accounts {
        assert!(account.balance >= 0);
    }
}
