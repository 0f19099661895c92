use koperasi::parameters::{check_parameters, check_version_free};
use koperasi::ledger::IdSource;
use koperasi::domain::{
    add_months, business_period, date_parts, normalize_name, timestamp_id, timestamp_id_at,
    InterestType, LoanStatus, MemberStatus, PeriodStatus, SavingsAccountStatus,
    SavingsAccountType, SavingsMovement, TransactionDirection, TransactionStatus,
};

#[test]
fn converts_and_advances_business_dates() {
    assert_eq!(add_months("2026-01-31", 1).unwrap(), "2026-02-28");
    assert_eq!(add_months("2024-01-31", 1).unwrap(), "2024-02-29");
    assert!(business_period("2026-02-29").is_err());
    assert!(business_period("2026-9-13").is_err());
    assert!(business_period("not-a-date").is_err());
}

#[test]
fn business_period_is_the_month_of_a_valid_date() {
    assert_eq!(business_period("2026-09-13").unwrap(), "2026-09");
    assert_eq!(business_period("2024-02-29").unwrap(), "2024-02");
    assert_eq!(business_period("2026-13-01").unwrap_err(), "Tanggal bisnis tidak valid.");
    assert_eq!(business_period("0000-01-01").unwrap_err(), "Tanggal bisnis tidak valid.");
    assert_eq!(business_period("2026-04-31").unwrap_err(), "Tanggal bisnis tidak valid.");
}

#[test]
fn date_parts_reads_year_month_and_day() {
    assert_eq!(date_parts("2026-09-13").unwrap(), (2026, 9, 13));
    assert_eq!(date_parts("0001-01-01").unwrap(), (1, 1, 1));
    assert_eq!(date_parts("2100-02-29").unwrap_err(), "Tanggal bisnis tidak valid.");
    assert_eq!(date_parts("2000-02-29").unwrap(), (2000, 2, 29));
    assert_eq!(date_parts("2026-09-1x").unwrap_err(), "Tanggal bisnis tidak valid.");
}

#[test]
fn add_months_crosses_years_and_clamps_days() {
    assert_eq!(add_months("2026-12-15", 1).unwrap(), "2027-01-15");
    assert_eq!(add_months("2026-03-31", -1).unwrap(), "2026-02-28");
    assert_eq!(add_months("2026-09-13", 24).unwrap(), "2028-09-13");
    assert_eq!(add_months("2026-01-30", 3).unwrap(), "2026-04-30");
    assert_eq!(add_months("0001-05-31", 1).unwrap(), "0001-06-30");
}

#[test]
fn add_months_by_zero_keeps_the_date() {
    for date in ["2026-09-13", "2024-02-29", "0001-01-01", "9999-12-31"] {
        assert_eq!(add_months(date, 0).unwrap(), date);
    }
}

#[test]
fn add_months_refuses_dates_it_cannot_write() {
    assert_eq!(
        add_months("9999-12-01", 1).unwrap_err(),
        "Tanggal jatuh tempo di luar rentang yang didukung."
    );
    assert_eq!(
        add_months("0001-01-01", -1).unwrap_err(),
        "Tanggal jatuh tempo di luar rentang yang didukung."
    );
    assert_eq!(
        add_months("2026-01-01", i64::MAX).unwrap_err(),
        "Tanggal jatuh tempo di luar rentang yang didukung."
    );
    assert_eq!(add_months("2026-1-01", 1).unwrap_err(), "Tanggal bisnis tidak valid.");
}

#[test]
fn add_months_gives_valid_business_dates() {
    for months in [-30, -1, 1, 11, 12, 13, 121] {
        let due = add_months("2024-01-31", months).unwrap();
        assert!(business_period(&due).is_ok());
    }
}

#[test]
fn normalize_name_keeps_upper_case_letters_and_digits() {
    assert_eq!(normalize_name("  Budi  Santoso-2 "), "BUDISANTOSO2");
    assert_eq!(normalize_name("siti.aminah"), "SITIAMINAH");
    assert_eq!(normalize_name("Ñandú 7"), "AND7");
    assert_eq!(normalize_name(""), "");
}

#[test]
fn normalize_name_twice_is_once() {
    for name in ["  Budi  Santoso-2 ", "a.b.c", "Ñ x"] {
        let once = normalize_name(name);
        assert_eq!(normalize_name(&once), once);
    }
}

#[test]
fn timestamp_ids_carry_prefix_time_and_sequence() {
    assert_eq!(timestamp_id_at("TRX", 1_700_000_000_000, 7), "TRX-1700000000000-7");
    assert_eq!(timestamp_id_at("", 0, 0), "-0-0");
    let id = timestamp_id("LOAN", 42);
    assert!(id.starts_with("LOAN-"));
    assert!(id.ends_with("-42"));
    let millis = &id["LOAN-".len()..id.len() - "-42".len()];
    assert!(!millis.is_empty());
    assert!(millis.chars().all(|c| c.is_ascii_digit()));
}

#[test]
fn reversing_a_direction_twice_gives_it_back() {
    for d in [TransactionDirection::In, TransactionDirection::Out] {
        assert_ne!(d.reversed(), d);
        assert_eq!(d.reversed().reversed(), d);
    }
    assert_eq!(TransactionDirection::In.reversed(), TransactionDirection::Out);
}

#[test]
fn stored_texts_are_read_back() {
    for s in [MemberStatus::Active, MemberStatus::Inactive] {
        assert_eq!(MemberStatus::parse(s.as_str()).unwrap(), s);
    }
    for t in [SavingsAccountType::Principal, SavingsAccountType::Mandatory, SavingsAccountType::Voluntary] {
        assert_eq!(SavingsAccountType::parse(t.as_str()).unwrap(), t);
    }
    assert_eq!(
        SavingsAccountStatus::parse(SavingsAccountStatus::Active.as_str()).unwrap(),
        SavingsAccountStatus::Active
    );
    for m in [SavingsMovement::Deposit, SavingsMovement::Withdrawal] {
        assert_eq!(SavingsMovement::parse(m.as_str()).unwrap(), m);
    }
    for s in [LoanStatus::Draft, LoanStatus::Active, LoanStatus::NeedsReview, LoanStatus::PaidOff] {
        assert_eq!(LoanStatus::parse(s.as_str()).unwrap(), s);
    }
    for t in [InterestType::Declining, InterestType::Flat] {
        assert_eq!(InterestType::parse(t.as_str()).unwrap(), t);
    }
    for d in [TransactionDirection::In, TransactionDirection::Out] {
        assert_eq!(TransactionDirection::parse(d.as_str()).unwrap(), d);
    }
    for s in [TransactionStatus::Posted, TransactionStatus::Draft, TransactionStatus::Reversed] {
        assert_eq!(TransactionStatus::parse(s.as_str()).unwrap(), s);
    }
    for s in [PeriodStatus::Open, PeriodStatus::Locked] {
        assert_eq!(PeriodStatus::parse(s.as_str()).unwrap(), s);
    }
}

#[test]
fn stored_texts_match_the_schema() {
    assert_eq!(MemberStatus::Active.as_str(), "Aktif");
    assert_eq!(SavingsAccountType::Voluntary.as_str(), "MANASUKA");
    assert_eq!(LoanStatus::NeedsReview.as_str(), "Perlu review");
    assert_eq!(TransactionStatus::Reversed.as_str(), "Dibalik");
    assert_eq!(PeriodStatus::Locked.as_str(), "LOCKED");
}

#[test]
fn unknown_texts_are_refused_with_their_kind() {
    assert_eq!(MemberStatus::parse("aktif").unwrap_err(), "Nilai MemberStatus tidak valid: aktif");
    assert_eq!(
        TransactionStatus::parse("Posted").unwrap_err(),
        "Nilai TransactionStatus tidak valid: Posted"
    );
    assert_eq!(InterestType::parse("").unwrap_err(), "Nilai InterestType tidak valid: ");
    assert_eq!(
        SavingsAccountType::parse("Wajib").unwrap_err(),
        "Nilai SavingsAccountType tidak valid: Wajib"
    );
}

#[test]
fn more_months_give_a_later_due_date() {
    let dates: Vec<String> = [-13, -1, 0, 1, 2, 11, 12, 25]
        .iter()
        .map(|m| add_months("2024-01-31", *m).unwrap())
        .collect();
    for pair in dates.windows(2) {
        assert!(pair[0] < pair[1], "{} should sort before {}", pair[0], pair[1]);
    }
    assert_eq!(dates[0], "2022-12-31");
    assert_eq!(dates[3], "2024-02-29");
    assert_eq!(dates[7], "2026-02-28");
}

#[test]
fn identifiers_drawn_from_one_source_never_repeat() {
    let mut g = IdSource { millis: 5, next: u64::MAX - 1 };
    let drawn: Vec<String> = (0..4).map(|_| g.fresh("TX")).collect();
    assert_eq!(
        drawn,
        vec!["TX-5-18446744073709551614", "TX-5-18446744073709551615", "TX-5-0", "TX-5-1"]
    );
    for i in 0..drawn.len() {
        for j in (i + 1)..drawn.len() {
            assert_ne!(drawn[i], drawn[j]);
        }
    }
    assert_eq!(g.next, 2);
}

#[test]
fn parameter_versions_are_checked_before_they_are_stored() {
    let limit = 1_i64 << 53;
    assert_eq!(check_parameters(50_000, 25_000, true, "2026-01-01"), Ok(()));
    assert_eq!(check_parameters(limit, 0, true, "2026-01-01"), Ok(()));
    let invalid = Err("Nilai atau tanggal berlaku parameter tidak valid.".to_string());
    assert_eq!(check_parameters(limit + 1, 0, true, "2026-01-01"), invalid);
    assert_eq!(check_parameters(-1, 0, true, "2026-01-01"), invalid);
    assert_eq!(check_parameters(0, -5, true, "2026-01-01"), invalid);
    assert_eq!(check_parameters(0, 0, false, "2026-01-01"), invalid);
    assert_eq!(check_parameters(0, 0, true, "2026-02-30"), invalid);
    assert_eq!(check_version_free(0), Ok(()));
    assert_eq!(
        check_version_free(1),
        Err("Versi parameter untuk tanggal berlaku tersebut sudah ada.".to_string())
    );
}

#[test]
fn ids_with_different_sequence_numbers_differ_whatever_the_clock() {
    let a = timestamp_id_at("TX", 1, 23);
    let b = timestamp_id_at("TX", 12, 3);
    assert_eq!(a, "TX-1-23");
    assert_eq!(b, "TX-12-3");
    assert_ne!(a, b);
    assert_ne!(timestamp_id("TX", 4), timestamp_id("TX", 5));
}
