use koperasi::contracts::{
    AddMemberInput, CreateLoanInput, DisburseLoanInput, PaymentInput, ReverseTransactionInput,
    SavingsTransactionInput,
};
use koperasi::ledger::{IdSource, Ledger, Period};
use koperasi::loans::{create_loan, disburse_loan, plan_disbursement};
use koperasi::members::add_member;
use koperasi::read_model::get_app_snapshot;
use koperasi::savings::{post_payment, post_savings_transaction};
use koperasi::ledger::SavingsAccount;
use koperasi::transactions::{reversal_stays_in_range, reverse_transaction};

const MILLIS: u128 = 1_700_000_000_000;

fn books(company: &str) -> Ledger {
    Ledger {
        company_id: company.to_string(),
        members: vec![],
        accounts: vec![],
        loans: vec![],
        transactions: vec![],
        cash_postings: vec![],
        periods: vec![],
        audit_events: vec![],
    }
}

fn ids() -> IdSource {
    IdSource { millis: MILLIS, next: 0 }
}

fn member_input(name: &str, number: &str) -> AddMemberInput {
    AddMemberInput {
        name: name.into(),
        member_number: number.into(),
        joined_at: "2026-09-13".into(),
        principal_savings: 50_000,
        business_date: "2026-09-13".into(),
        display_date: "13 Sep 2026".into(),
        display_time: "10:00".into(),
    }
}

fn savings(member_id: &str, account_type: &str, movement: &str, amount: i64) -> SavingsTransactionInput {
    SavingsTransactionInput {
        member_id: member_id.into(),
        account_type: account_type.into(),
        movement: movement.into(),
        amount,
        reference: "".into(),
        business_date: "2026-09-13".into(),
        display_date: "13 Sep 2026".into(),
        display_time: "10:05".into(),
    }
}

fn payment(member_id: &str, principal: i64, interest: i64, wajib: i64, voluntary: i64) -> PaymentInput {
    PaymentInput {
        member_id: member_id.into(),
        principal,
        interest,
        wajib,
        voluntary,
        reference: "".into(),
        business_date: "2026-09-14".into(),
        display_date: "14 Sep 2026".into(),
        display_time: "09:00".into(),
    }
}

fn loan_request(member_id: &str, plafond: i64, tenor: i64) -> CreateLoanInput {
    CreateLoanInput {
        member_id: member_id.into(),
        plafond,
        tenor,
        interest_type: "Flat".into(),
    }
}

fn disbursement(loan_id: &str) -> DisburseLoanInput {
    DisburseLoanInput {
        loan_id: loan_id.into(),
        business_date: "2026-09-13".into(),
        display_date: "13 Sep 2026".into(),
        display_time: "11:00".into(),
    }
}

fn reversal(id: &str) -> ReverseTransactionInput {
    ReverseTransactionInput {
        id: id.into(),
        business_date: "2026-09-15".into(),
        display_date: "15 Sep 2026".into(),
        display_time: "08:00".into(),
    }
}

fn cash(l: &Ledger) -> i64 {
    l.cash_postings
        .iter()
        .map(|p| if p.direction == "Masuk" { p.amount } else { -p.amount })
        .sum()
}

fn balance(l: &Ledger, account_id: &str) -> i64 {
    l.accounts.iter().find(|a| a.id == account_id).unwrap().balance
}

fn loan_balance(l: &Ledger, loan_id: &str) -> i64 {
    l.loans.iter().find(|a| a.id == loan_id).unwrap().balance
}

/// One member with a disbursed loan of 1,000,000 over ten months.
fn member_with_loan() -> (Ledger, IdSource, String) {
    let mut l = books("default");
    let mut g = ids();
    add_member(&mut l, &member_input("Budi Santoso", "001"), &mut g).unwrap();
    create_loan(&mut l, &loan_request("default-M001", 1_000_000, 10), Ok(24.0f64.to_bits()), &mut g)
        .unwrap();
    let loan_id = l.loans[0].id.clone();
    disburse_loan(&mut l, &disbursement(&loan_id), Ok(10_000), &mut g).unwrap();
    (l, g, loan_id)
}

#[test]
fn admits_a_member_with_three_savings_accounts() {
    let mut l = books("default");
    let mut g = ids();
    add_member(&mut l, &member_input("  Budi Santoso ", " 001 "), &mut g).unwrap();
    assert_eq!(l.members.len(), 1);
    let m = &l.members[0];
    assert_eq!(m.id, "default-M001");
    assert_eq!(m.member_number, "001");
    assert_eq!(m.name, "Budi Santoso");
    assert_eq!(m.status, "Aktif");
    let ids: Vec<&str> = l.accounts.iter().map(|a| a.id.as_str()).collect();
    assert_eq!(ids, vec!["SA-default-M001-POKOK", "SA-default-M001-WAJIB", "SA-default-M001-MANASUKA"]);
    assert_eq!(balance(&l, "SA-default-M001-POKOK"), 50_000);
    assert_eq!(balance(&l, "SA-default-M001-WAJIB"), 0);
    let t = &l.transactions[0];
    assert_eq!(t.id, "SAV-IN-1700000000000-0");
    assert_eq!(t.reference, "KBS/SAV/SAV-IN-1700000000000-0");
    assert_eq!(t.transaction_type, "SAVINGS_DEPOSIT");
    assert_eq!(t.description, "Setoran simpanan pokok");
    assert_eq!(t.direction, "Masuk");
    assert_eq!(t.status, "Terposting");
    assert_eq!(t.amount, 50_000);
    assert_eq!(t.components.len(), 1);
    assert_eq!(t.components[0].savings_account_id.as_deref(), Some("SA-default-M001-POKOK"));
    assert_eq!(cash(&l), 50_000);
    assert_eq!(l.audit_events.len(), 2);
    assert_eq!(l.audit_events[1].entity_type, "MEMBER");
    assert_eq!(l.audit_events[1].action, "CREATED");
    assert_eq!(g.next, 1);
}

#[test]
fn member_ids_follow_the_highest_number() {
    let mut l = books("default");
    let mut g = ids();
    add_member(&mut l, &member_input("Budi", "001"), &mut g).unwrap();
    add_member(&mut l, &member_input("Siti", "002"), &mut g).unwrap();
    assert_eq!(l.members[1].id, "default-M002");
}

#[test]
fn a_member_number_is_admitted_once() {
    let mut l = books("default");
    let mut g = ids();
    add_member(&mut l, &member_input("Budi", "a01"), &mut g).unwrap();
    let err = add_member(&mut l, &member_input("Siti", " A01 "), &mut g).unwrap_err();
    assert_eq!(err, "Nomor anggota sudah digunakan.");
    assert_eq!(l.members.len(), 1);
    assert_eq!(l.transactions.len(), 1);
    assert_eq!(g.next, 1);
}

#[test]
fn companies_keep_their_own_members() {
    let mut a = books("default");
    let mut b = books("testing");
    let mut g = ids();
    add_member(&mut a, &member_input("Default Member", "001"), &mut g).unwrap();
    add_member(&mut b, &member_input("Testing Member", "001"), &mut g).unwrap();
    assert_eq!(a.members[0].id, "default-M001");
    assert_eq!(b.members[0].id, "testing-M001");
    assert_eq!(a.members.len(), 1);
    assert_eq!(b.members.len(), 1);
}

#[test]
fn admission_refusals() {
    let mut l = books("default");
    let mut g = ids();
    assert_eq!(
        add_member(&mut l, &member_input("  ", "001"), &mut g).unwrap_err(),
        "Nama dan nomor anggota wajib diisi."
    );
    let mut low = member_input("Budi", "001");
    low.principal_savings = 49_999;
    assert_eq!(add_member(&mut l, &low, &mut g).unwrap_err(), "Simpanan pokok minimal Rp50.000.");
    let mut bad_date = member_input("Budi", "001");
    bad_date.business_date = "13-09-2026".into();
    assert_eq!(add_member(&mut l, &bad_date, &mut g).unwrap_err(), "Tanggal bisnis tidak valid.");
    l.periods.push(Period { period: "2026-09".into(), status: "LOCKED".into() });
    assert_eq!(
        add_member(&mut l, &member_input("Budi", "001"), &mut g).unwrap_err(),
        "Periode transaksi sudah dikunci."
    );
    assert!(l.members.is_empty());
    assert_eq!(g.next, 0);
}

#[test]
fn savings_deposits_and_withdrawals_move_the_account() {
    let mut l = books("default");
    let mut g = ids();
    add_member(&mut l, &member_input("Budi", "001"), &mut g).unwrap();
    post_savings_transaction(&mut l, &savings("default-M001", "MANASUKA", "Setoran", 25_000), &mut g)
        .unwrap();
    assert_eq!(balance(&l, "SA-default-M001-MANASUKA"), 25_000);
    let t = l.transactions.last().unwrap();
    assert_eq!(t.id, "SAV-IN-1700000000000-1");
    assert_eq!(t.description, "Setoran simpanan manasuka");
    assert_eq!(t.member_name, "Budi");
    post_savings_transaction(&mut l, &savings("default-M001", "MANASUKA", "Penarikan", 5_000), &mut g)
        .unwrap();
    assert_eq!(balance(&l, "SA-default-M001-MANASUKA"), 20_000);
    let t = l.transactions.last().unwrap();
    assert_eq!(t.id, "SAV-OUT-1700000000000-2");
    assert_eq!(t.direction, "Keluar");
    assert_eq!(t.transaction_type, "SAVINGS_WITHDRAWAL");
    assert_eq!(cash(&l), 70_000);
}

#[test]
fn savings_refusals() {
    let mut l = books("default");
    let mut g = ids();
    add_member(&mut l, &member_input("Budi", "001"), &mut g).unwrap();
    let cases = [
        (savings("default-M001", "MANASUKA", "Setoran", 0), "Nominal transaksi harus lebih dari nol."),
        (savings("default-M001", "BONUS", "Setoran", 1), "Nilai SavingsAccountType tidak valid: BONUS"),
        (savings("default-M001", "MANASUKA", "Tarik", 1), "Nilai SavingsMovement tidak valid: Tarik"),
        (
            savings("default-M001", "WAJIB", "Penarikan", 1),
            "Hanya simpanan manasuka yang dapat ditarik pada versi ini.",
        ),
        (savings("default-M009", "MANASUKA", "Setoran", 1), "Anggota aktif tidak ditemukan."),
        (savings("default-M001", "MANASUKA", "Penarikan", 1), "Saldo manasuka tidak mencukupi."),
    ];
    for (input, message) in cases {
        assert_eq!(post_savings_transaction(&mut l, &input, &mut g).unwrap_err(), message);
    }
    let mut referenced = savings("default-M001", "MANASUKA", "Setoran", 1);
    referenced.reference = "KBS/SAV/SAV-IN-1700000000000-0".into();
    assert_eq!(
        post_savings_transaction(&mut l, &referenced, &mut g).unwrap_err(),
        "Nomor referensi sudah pernah diposting."
    );
    assert_eq!(l.transactions.len(), 1);
}

#[test]
fn a_loan_is_drafted_then_disbursed() {
    let (l, g, loan_id) = member_with_loan();
    assert_eq!(loan_id, "LOAN-1700000000000-1");
    let loan = &l.loans[0];
    assert_eq!(loan.status, "Berjalan");
    assert_eq!(loan.balance, 1_000_000);
    assert_eq!(loan.realization_date, "2026-09-13");
    assert_eq!(loan.due_date, "2027-07-13");
    assert_eq!(loan.rate_bits, 24.0f64.to_bits());
    let disb = &l.transactions[1];
    assert_eq!(disb.id, "DISB-1700000000000-2");
    assert_eq!(disb.reference, "KBS/DISB/LOAN-1700000000000-1/DISB-1700000000000-2");
    assert_eq!(disb.direction, "Keluar");
    let prov = &l.transactions[2];
    assert_eq!(prov.id, "PROV-1700000000000-3");
    assert_eq!(prov.amount, 10_000);
    assert_eq!(cash(&l), 50_000 - 1_000_000 + 10_000);
    assert_eq!(g.next, 4);
}

#[test]
fn disbursement_plan_gives_plafond_and_due_date() {
    let mut l = books("default");
    let mut g = ids();
    add_member(&mut l, &member_input("Budi", "001"), &mut g).unwrap();
    create_loan(&mut l, &loan_request("default-M001", 2_500_000, 24), Ok(24.0f64.to_bits()), &mut g)
        .unwrap();
    let loan_id = l.loans[0].id.clone();
    let plan = plan_disbursement(&l, &disbursement(&loan_id)).unwrap();
    assert_eq!(plan.plafond, 2_500_000);
    assert_eq!(plan.due_date, "2028-09-13");
    assert_eq!(plan_disbursement(&l, &disbursement("LOAN-x")).err().unwrap(), "Pinjaman tidak ditemukan.");
}

#[test]
fn loan_refusals() {
    let mut l = books("default");
    let mut g = ids();
    add_member(&mut l, &member_input("Budi", "001"), &mut g).unwrap();
    let rate = Ok(24.0f64.to_bits());
    assert_eq!(
        create_loan(&mut l, &loan_request("default-M001", 0, 10), rate.clone(), &mut g).unwrap_err(),
        "Data pinjaman tidak valid."
    );
    assert_eq!(
        create_loan(&mut l, &loan_request("default-M002", 10, 10), rate.clone(), &mut g).unwrap_err(),
        "Anggota aktif tidak ditemukan."
    );
    assert_eq!(
        create_loan(&mut l, &loan_request("default-M001", 10, 10), Err("no rate".into()), &mut g)
            .unwrap_err(),
        "no rate"
    );
    create_loan(&mut l, &loan_request("default-M001", 10, 10), rate, &mut g).unwrap();
    let loan_id = l.loans[0].id.clone();
    disburse_loan(&mut l, &disbursement(&loan_id), Ok(0), &mut g).unwrap();
    assert_eq!(
        disburse_loan(&mut l, &disbursement(&loan_id), Ok(0), &mut g).unwrap_err(),
        "Hanya pinjaman draf dengan saldo nol yang dapat dicairkan."
    );
}

#[test]
fn payments_settle_loans_and_savings() {
    let (mut l, mut g, loan_id) = member_with_loan();
    post_payment(&mut l, &payment("default-M001", 100_000, 20_000, 50_000, 5_000), &mut g).unwrap();
    assert_eq!(loan_balance(&l, &loan_id), 900_000);
    assert_eq!(balance(&l, "SA-default-M001-WAJIB"), 50_000);
    assert_eq!(balance(&l, "SA-default-M001-MANASUKA"), 5_000);
    let t = l.transactions.last().unwrap();
    assert_eq!(t.amount, 175_000);
    assert_eq!(t.transaction_type, "MEMBER_PAYMENT");
    let labels: Vec<&str> = t.components.iter().map(|c| c.label.as_str()).collect();
    assert_eq!(labels, vec!["Pokok pinjaman", "Bunga pinjaman", "Simpanan wajib", "Simpanan manasuka"]);
    assert_eq!(t.reference, format!("KBS/RCPT/{}", t.id));
    assert_eq!(cash(&l), 50_000 - 1_000_000 + 10_000 + 175_000);
}

#[test]
fn paying_off_a_loan_closes_it() {
    let (mut l, mut g, loan_id) = member_with_loan();
    post_payment(&mut l, &payment("default-M001", 1_000_000, 0, 0, 0), &mut g).unwrap();
    assert_eq!(loan_balance(&l, &loan_id), 0);
    assert_eq!(l.loans[0].status, "Lunas");
}

#[test]
fn principal_settles_the_oldest_loan_first() {
    let mut l = books("default");
    let mut g = ids();
    add_member(&mut l, &member_input("Budi", "001"), &mut g).unwrap();
    let rate = Ok(24.0f64.to_bits());
    create_loan(&mut l, &loan_request("default-M001", 300_000, 3), rate.clone(), &mut g).unwrap();
    create_loan(&mut l, &loan_request("default-M001", 500_000, 5), rate, &mut g).unwrap();
    let newer = l.loans[0].id.clone();
    let older = l.loans[1].id.clone();
    let mut late = disbursement(&newer);
    late.business_date = "2026-09-20".into();
    disburse_loan(&mut l, &late, Ok(0), &mut g).unwrap();
    disburse_loan(&mut l, &disbursement(&older), Ok(0), &mut g).unwrap();
    post_payment(&mut l, &payment("default-M001", 600_000, 0, 0, 0), &mut g).unwrap();
    assert_eq!(loan_balance(&l, &older), 0);
    assert_eq!(loan_balance(&l, &newer), 200_000);
}

#[test]
fn payment_refusals() {
    let (mut l, mut g, _) = member_with_loan();
    let cases = [
        (payment("default-M001", -1, 0, 0, 0), "Komponen pembayaran tidak boleh negatif."),
        (payment("default-M001", 0, 0, 0, 0), "Total pembayaran harus lebih dari nol."),
        (payment("default-M001", i64::MAX, 1, 0, 0), "Total pembayaran terlalu besar."),
        (payment("default-M009", 1, 0, 0, 0), "Anggota aktif tidak ditemukan."),
        (payment("default-M001", 1_000_001, 0, 0, 0), "Pembayaran pokok melebihi saldo pinjaman berjalan."),
    ];
    for (input, message) in cases {
        assert_eq!(post_payment(&mut l, &input, &mut g).unwrap_err(), message);
    }
    assert_eq!(l.transactions.len(), 3);
}

#[test]
fn reversing_a_payment_restores_the_books() {
    let (mut l, mut g, loan_id) = member_with_loan();
    let cash_before = cash(&l);
    post_payment(&mut l, &payment("default-M001", 400_000, 15_000, 50_000, 5_000), &mut g).unwrap();
    let id = l.transactions.last().unwrap().id.clone();
    reverse_transaction(&mut l, &reversal(&id), &mut g).unwrap();
    assert_eq!(loan_balance(&l, &loan_id), 1_000_000);
    assert_eq!(l.loans[0].status, "Berjalan");
    assert_eq!(balance(&l, "SA-default-M001-WAJIB"), 0);
    assert_eq!(balance(&l, "SA-default-M001-MANASUKA"), 0);
    assert_eq!(cash(&l), cash_before);
    let original = l.transactions.iter().find(|t| t.id == id).unwrap();
    assert_eq!(original.status, "Dibalik");
    let rev = l.transactions.last().unwrap();
    assert_eq!(rev.transaction_type, "REVERSAL");
    assert_eq!(rev.direction, "Keluar");
    assert_eq!(rev.reversed_transaction_id.as_deref(), Some(id.as_str()));
    assert!(rev.reference.starts_with(&format!("{}/REV/R-", original.reference)));
    assert!(rev.description.starts_with("Reversal · "));
}

#[test]
fn reversing_a_savings_movement_restores_the_account() {
    let mut l = books("default");
    let mut g = ids();
    add_member(&mut l, &member_input("Budi", "001"), &mut g).unwrap();
    post_savings_transaction(&mut l, &savings("default-M001", "MANASUKA", "Setoran", 25_000), &mut g)
        .unwrap();
    let id = l.transactions.last().unwrap().id.clone();
    reverse_transaction(&mut l, &reversal(&id), &mut g).unwrap();
    assert_eq!(balance(&l, "SA-default-M001-MANASUKA"), 0);
    assert_eq!(cash(&l), 50_000);
}

#[test]
fn reversing_a_disbursement_returns_the_loan_to_draft() {
    let (mut l, mut g, loan_id) = member_with_loan();
    let disb = l.transactions[1].id.clone();
    reverse_transaction(&mut l, &reversal(&disb), &mut g).unwrap();
    let loan = &l.loans[0];
    assert_eq!(loan.id, loan_id);
    assert_eq!(loan.status, "Draf");
    assert_eq!(loan.balance, 0);
    assert_eq!(loan.realization_date, "-");
    assert_eq!(loan.due_date, "-");
    assert_eq!(cash(&l), 50_000 + 10_000);
}

#[test]
fn a_disbursement_with_payments_is_not_reversed() {
    let (mut l, mut g, _) = member_with_loan();
    post_payment(&mut l, &payment("default-M001", 100_000, 0, 0, 0), &mut g).unwrap();
    let disb = l.transactions[1].id.clone();
    assert_eq!(
        reverse_transaction(&mut l, &reversal(&disb), &mut g).unwrap_err(),
        "Pencairan tidak dapat dibalik setelah pinjaman memiliki pembayaran."
    );
}

#[test]
fn a_transaction_is_reversed_once() {
    let mut l = books("default");
    let mut g = ids();
    add_member(&mut l, &member_input("Budi", "001"), &mut g).unwrap();
    post_savings_transaction(&mut l, &savings("default-M001", "MANASUKA", "Setoran", 25_000), &mut g)
        .unwrap();
    let id = l.transactions.last().unwrap().id.clone();
    reverse_transaction(&mut l, &reversal(&id), &mut g).unwrap();
    assert_eq!(
        reverse_transaction(&mut l, &reversal(&id), &mut g).unwrap_err(),
        "Hanya transaksi terposting yang dapat dibalik."
    );
    assert_eq!(
        reverse_transaction(&mut l, &reversal("nope"), &mut g).unwrap_err(),
        "Transaksi tidak ditemukan."
    );
}

#[test]
fn a_reversal_that_would_overdraw_savings_is_refused() {
    let mut l = books("default");
    let mut g = ids();
    add_member(&mut l, &member_input("Budi", "001"), &mut g).unwrap();
    post_savings_transaction(&mut l, &savings("default-M001", "MANASUKA", "Setoran", 25_000), &mut g)
        .unwrap();
    let deposit = l.transactions.last().unwrap().id.clone();
    post_savings_transaction(&mut l, &savings("default-M001", "MANASUKA", "Penarikan", 20_000), &mut g)
        .unwrap();
    assert_eq!(
        reverse_transaction(&mut l, &reversal(&deposit), &mut g).unwrap_err(),
        "Reversal ditolak karena saldo sub-ledger tidak mencukupi."
    );
    assert_eq!(balance(&l, "SA-default-M001-MANASUKA"), 5_000);
}

#[test]
fn snapshot_totals_the_books() {
    let (mut l, mut g, _) = member_with_loan();
    add_member(&mut l, &member_input("Ani", "002"), &mut g).unwrap();
    let snapshot = match get_app_snapshot(&l) {
        Ok(s) => s,
        Err(e) => panic!("{e}"),
    };
    assert_eq!(snapshot.totals.members, 2);
    assert_eq!(snapshot.totals.savings, 100_000);
    assert_eq!(snapshot.totals.loan_portfolio, 1_000_000);
    assert_eq!(snapshot.totals.cash, 50_000 - 1_000_000 + 10_000 + 50_000);
    let names: Vec<&str> = snapshot.members.iter().map(|m| m.name.as_str()).collect();
    assert_eq!(names, vec!["Ani", "Budi Santoso"]);
    assert_eq!(snapshot.members[1].loan_balance, 1_000_000);
    assert_eq!(snapshot.members[1].principal_savings, 50_000);
    assert_eq!(snapshot.loans.len(), 1);
    assert_eq!(snapshot.transactions.len(), 4);
}

#[test]
fn snapshot_members_come_by_name_with_their_savings_summed() {
    let (mut l, mut g, _) = member_with_loan();
    add_member(&mut l, &member_input("Citra", "003"), &mut g).unwrap();
    add_member(&mut l, &member_input("Ani", "002"), &mut g).unwrap();
    post_savings_transaction(&mut l, &savings("default-M002", "WAJIB", "Setoran", 25_000), &mut g)
        .unwrap();
    post_savings_transaction(&mut l, &savings("default-M001", "MANASUKA", "Setoran", 7_500), &mut g)
        .unwrap();
    let snapshot = match get_app_snapshot(&l) {
        Ok(s) => s,
        Err(e) => panic!("{e}"),
    };
    let names: Vec<&str> = snapshot.members.iter().map(|m| m.name.as_str()).collect();
    assert_eq!(names, vec!["Ani", "Budi Santoso", "Citra"]);
    for m in &snapshot.members {
        assert_eq!(m.savings, m.principal_savings + m.mandatory_savings + m.voluntary_savings);
    }
    assert_eq!(snapshot.members[2].savings, 75_000);
    assert_eq!(snapshot.members[1].savings, 57_500);
    let summed: i64 = snapshot.members.iter().map(|m| m.savings).sum();
    assert_eq!(snapshot.totals.savings, summed);
    assert_eq!(snapshot.totals.savings, 182_500);
    let active = snapshot.members.iter().filter(|m| m.status == "Aktif").count() as i64;
    assert_eq!(snapshot.totals.members, active);
    assert!(snapshot.loans.len() <= 250 && snapshot.transactions.len() <= 120);
}

#[test]
fn balances_never_fall_below_zero() {
    let (mut l, mut g, _) = member_with_loan();
    post_payment(&mut l, &payment("default-M001", 1_000_000, 0, 0, 0), &mut g).unwrap();
    assert!(post_payment(&mut l, &payment("default-M001", 1, 0, 0, 0), &mut g).is_err());
    assert!(post_savings_transaction(&mut l, &savings("default-M001", "MANASUKA", "Penarikan", 1), &mut g)
        .is_err());
    let paid = l.transactions.last().unwrap().id.clone();
    reverse_transaction(&mut l, &reversal(&paid), &mut g).unwrap();
    assert!(l.accounts.iter().all(|a| a.balance >= 0));
    assert!(l.loans.iter().all(|x| x.balance >= 0 && x.plafond >= 0));
    assert_eq!(l.loans[0].balance, 1_000_000);
}

#[test]
fn keeps_company_data_and_uniqueness_isolated() {
    let mut books_a = books("default");
    let mut books_b = books("testing");
    let mut g = ids();
    add_member(&mut books_a, &member_input("Default Member", "001"), &mut g).unwrap();
    add_member(&mut books_b, &member_input("Testing Member", "001"), &mut g).unwrap();
    let mut invalid = savings("testing-M001", "UNKNOWN", "Setoran", 25_000);
    invalid.reference = "INVALID-TYPE".into();
    assert!(post_savings_transaction(&mut books_b, &invalid, &mut g).is_err());
    for (l, member_id) in [(&mut books_a, "default-M001"), (&mut books_b, "testing-M001")] {
        let mut shared = savings(member_id, "MANASUKA", "Setoran", 25_000);
        shared.reference = "SHARED-REFERENCE".into();
        post_savings_transaction(l, &shared, &mut g).unwrap();
    }
    create_loan(&mut books_b, &loan_request("testing-M001", 1_000_000, 10), Ok(24.0f64.to_bits()), &mut g)
        .unwrap();
    let loan_id = books_b.loans[0].id.clone();
    disburse_loan(&mut books_b, &disbursement(&loan_id), Ok(10_000), &mut g).unwrap();
    let mut pay = payment("testing-M001", 100_000, 20_000, 10_000, 5_000);
    pay.reference = "PAYMENT-TEST".into();
    post_payment(&mut books_b, &pay, &mut g).unwrap();
    let payment_id = books_b
        .transactions
        .iter()
        .find(|t| t.reference == "PAYMENT-TEST")
        .unwrap()
        .id
        .clone();
    reverse_transaction(&mut books_b, &reversal(&payment_id), &mut g).unwrap();
    let mut overflow = payment("testing-M001", i64::MAX, 1, 0, 0);
    overflow.reference = "OVERFLOW".into();
    assert_eq!(
        post_payment(&mut books_b, &overflow, &mut g).unwrap_err(),
        "Total pembayaran terlalu besar."
    );
    let shared = books_a
        .transactions
        .iter()
        .position(|t| t.reference == "SHARED-REFERENCE")
        .unwrap();
    let shared_id = books_a.transactions[shared].id.clone();
    books_a.transactions[shared].components[0].savings_account_id = None;
    assert_eq!(
        reverse_transaction(&mut books_a, &reversal(&shared_id), &mut g).unwrap_err(),
        "Komponen simpanan tidak memiliki rekening terkait."
    );
    let a = match get_app_snapshot(&books_a) {
        Ok(s) => s,
        Err(e) => panic!("{e}"),
    };
    let b = match get_app_snapshot(&books_b) {
        Ok(s) => s,
        Err(e) => panic!("{e}"),
    };
    assert_eq!(a.members.len(), 1);
    assert_eq!(b.members.len(), 1);
    assert_eq!(a.members[0].name, "Default Member");
    assert_eq!(b.members[0].name, "Testing Member");
    assert_eq!(a.totals.savings, 75_000);
    assert_eq!(b.totals.savings, 75_000);
    assert_eq!(a.loans.len(), 0);
    assert_eq!(b.loans.len(), 1);
}

#[test]
fn a_negative_deposit_component_is_reversed_by_adding_it_back() {
    let mut l = books("default");
    let mut g = ids();
    add_member(&mut l, &member_input("Budi", "001"), &mut g).unwrap();
    post_savings_transaction(&mut l, &savings("default-M001", "MANASUKA", "Setoran", 25_000), &mut g)
        .unwrap();
    let id = l.transactions.last().unwrap().id.clone();
    l.transactions.last_mut().unwrap().components[0].amount = -5;
    assert!(reversal_stays_in_range(&l, &reversal(&id)));
    reverse_transaction(&mut l, &reversal(&id), &mut g).unwrap();
    assert_eq!(balance(&l, "SA-default-M001-MANASUKA"), 25_005);
}

#[test]
fn a_reversal_that_would_overflow_a_balance_is_refused() {
    let mut l = books("default");
    let mut g = ids();
    add_member(&mut l, &member_input("Budi", "001"), &mut g).unwrap();
    post_savings_transaction(&mut l, &savings("default-M001", "MANASUKA", "Setoran", 25_000), &mut g)
        .unwrap();
    let id = l.transactions.last().unwrap().id.clone();
    l.transactions.last_mut().unwrap().components[0].amount = -5;
    l.accounts[2].balance = i64::MAX - 1;
    assert_eq!(
        reverse_transaction(&mut l, &reversal(&id), &mut g).unwrap_err(),
        "Reversal ditolak karena saldo sub-ledger tidak mencukupi."
    );
    assert_eq!(balance(&l, "SA-default-M001-MANASUKA"), i64::MAX - 1);
}

#[test]
fn a_negative_principal_is_out_of_range_only_where_it_is_reached() {
    let (mut l, mut g, _) = member_with_loan();
    post_payment(&mut l, &payment("default-M001", 100_000, 0, 0, 0), &mut g).unwrap();
    let id = l.transactions.last().unwrap().id.clone();
    l.transactions.last_mut().unwrap().components[0].amount = -5;
    assert!(!reversal_stays_in_range(&l, &reversal(&id)));
    let mut locked = reversal(&id);
    locked.business_date = "2026-02-30".into();
    assert!(reversal_stays_in_range(&l, &locked));
    l.transactions.last_mut().unwrap().status = "Dibalik".into();
    assert!(reversal_stays_in_range(&l, &reversal(&id)));
    assert_eq!(
        reverse_transaction(&mut l, &reversal(&id), &mut g).unwrap_err(),
        "Hanya transaksi terposting yang dapat dibalik."
    );
}

#[test]
fn taken_keys_are_refused_as_the_storage_refuses_them() {
    let mut l = books("default");
    let mut g = ids();
    l.accounts.push(SavingsAccount {
        id: "SA-default-M001-WAJIB".into(),
        member_id: "someone".into(),
        account_type: "WAJIB".into(),
        balance: 0,
        status: "ACTIVE".into(),
    });
    assert_eq!(
        add_member(&mut l, &member_input("Budi", "001"), &mut g).unwrap_err(),
        "error returned from database: (code: 1555) UNIQUE constraint failed: savings_accounts.company_id, savings_accounts.id"
    );
    assert!(l.members.is_empty());
}
