use koperasi::workbook::{cell_int, cell_money, cell_text, is_workbook_extension, Cell};

fn text(s: &str) -> Cell {
    Cell::Text(s.to_string())
}

#[test]
fn rejects_invalid_financial_cells_instead_of_defaulting_to_zero() {
    assert_eq!(cell_money(&text("(12,950,000)")).unwrap(), -12_950_000);
    assert_eq!(cell_money(&text("-1,250")).unwrap(), -1_250);
    assert!(cell_money(&text("not money")).is_err());
}

#[test]
fn money_cells_read_grouped_digits() {
    assert_eq!(cell_money(&text("Rp 1.250.000")).unwrap(), 1_250_000);
    assert_eq!(cell_money(&text("  21.974.442  ")).unwrap(), 21_974_442);
    assert_eq!(cell_money(&text("5-")).unwrap(), 5);
    assert_eq!(cell_money(&Cell::Int(-7)).unwrap(), -7);
}

#[test]
fn blank_money_cells_are_zero() {
    for s in ["", "   ", "-", " - ", "`"] {
        assert_eq!(cell_money(&text(s)).unwrap(), 0);
    }
    assert_eq!(cell_money(&Cell::Empty).unwrap(), 0);
}

#[test]
fn money_cells_refuse_what_is_not_an_amount() {
    assert_eq!(cell_money(&text(" abc ")).unwrap_err(), "Nilai uang tidak valid: abc");
    assert_eq!(
        cell_money(&text("99999999999999999999")).unwrap_err(),
        "Nilai uang terlalu besar: 99999999999999999999"
    );
    assert_eq!(cell_money(&text("9223372036854775807")).unwrap(), i64::MAX);
    assert_eq!(cell_money(&text("-9223372036854775807")).unwrap(), -i64::MAX);
    assert_eq!(cell_money(&Cell::Bool(true)).unwrap_err(), "Jenis sel uang tidak didukung.");
    assert_eq!(cell_money(&Cell::Other).unwrap_err(), "Jenis sel uang tidak didukung.");
}

#[test]
fn number_cells_give_their_rounding() {
    let cell = Cell::Float { text: "1250.5".to_string(), rounded: Ok(1251) };
    assert_eq!(cell_money(&cell).unwrap(), 1251);
    assert_eq!(cell_int(&cell).unwrap(), 1251);
    assert_eq!(cell_text(&cell), "1250.5");
    let huge = Cell::Float {
        text: "1e300".to_string(),
        rounded: Err("Nilai angka di workbook berada di luar rentang yang didukung.".to_string()),
    };
    assert_eq!(
        cell_money(&huge).unwrap_err(),
        "Nilai angka di workbook berada di luar rentang yang didukung."
    );
}

#[test]
fn integer_cells_read_signed_numbers() {
    assert_eq!(cell_int(&text(" 12 ")).unwrap(), 12);
    assert_eq!(cell_int(&text("+5")).unwrap(), 5);
    assert_eq!(cell_int(&text("-9223372036854775808")).unwrap(), i64::MIN);
    assert_eq!(cell_int(&text("0007")).unwrap(), 7);
    assert_eq!(cell_int(&Cell::Empty).unwrap(), 0);
    assert_eq!(cell_int(&Cell::Int(24)).unwrap(), 24);
}

#[test]
fn integer_cells_refuse_other_texts() {
    assert_eq!(
        cell_int(&text(" 9223372036854775808")).unwrap_err(),
        "Bilangan bulat tidak valid:  9223372036854775808"
    );
    assert_eq!(cell_int(&text("-")).unwrap_err(), "Bilangan bulat tidak valid: -");
    assert_eq!(cell_int(&text("12 bulan")).unwrap_err(), "Bilangan bulat tidak valid: 12 bulan");
    assert_eq!(cell_int(&text("")).unwrap_err(), "Bilangan bulat tidak valid: ");
    assert_eq!(cell_int(&Cell::Bool(false)).unwrap_err(), "Jenis sel bilangan bulat tidak didukung.");
}

#[test]
fn text_cells_are_trimmed_and_numbers_written() {
    assert_eq!(cell_text(&text("  M001 ")), "M001");
    assert_eq!(cell_text(&Cell::Int(-42)), "-42");
    assert_eq!(cell_text(&Cell::Bool(true)), "true");
    assert_eq!(cell_text(&Cell::Bool(false)), "false");
    assert_eq!(cell_text(&Cell::Empty), "");
    assert_eq!(cell_text(&Cell::Other), "");
}

#[test]
fn workbook_extensions_are_matched_without_case() {
    for e in ["xlsx", "XLS", "xlsm", "XlSb", "ods"] {
        assert!(is_workbook_extension(Some(e)));
    }
    for e in ["csv", "xlsxx", "", "od"] {
        assert!(!is_workbook_extension(Some(e)));
    }
    assert!(!is_workbook_extension(None));
}
