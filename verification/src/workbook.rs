//! Reading the cells of the legacy workbook: texts, money amounts and whole
//! numbers, each with the refusal that the import reports.

use vstd::prelude::*;

use crate::domain::digits_value;
use crate::text::{
    append, int_text, is_digit, is_digit_char, push_int, text, trim, trimmed,
};

verus! {

/// A cell of a worksheet. A floating-point cell is held by what the import
/// reads of it: its text and its rounding to a whole number (or the refusal
/// of a value out of range).
pub enum Cell {
    Empty,
    Text(String),
    Int(i64),
    Bool(bool),
    Float { text: String, rounded: Result<i64, String> },
    /// A date, duration or error cell.
    Other,
}

/// The view of a cell: its texts taken by their characters.
pub enum CellFacts {
    Empty,
    Text(Seq<char>),
    Int(i64),
    Bool(bool),
    Float { text: Seq<char>, rounded: Result<i64, Seq<char>> },
    Other,
}

pub open spec fn result_text<T>(r: Result<T, String>) -> Result<T, Seq<char>> {
    match r {
        Ok(v) => Ok(v),
        Err(e) => Err(e@),
    }
}

impl Cell {
    pub open spec fn facts(self) -> CellFacts {
        match self {
            Cell::Empty => CellFacts::Empty,
            Cell::Text(s) => CellFacts::Text(s@),
            Cell::Int(i) => CellFacts::Int(i),
            Cell::Bool(b) => CellFacts::Bool(b),
            Cell::Float { text, rounded } => CellFacts::Float {
                text: text@,
                rounded: result_text(rounded),
            },
            Cell::Other => CellFacts::Other,
        }
    }
}

/// The text of a cell: a text cell trimmed, a number as written, a truth
/// value as `true` or `false`, nothing for any other cell.
pub open spec fn cell_text_of(c: CellFacts) -> Seq<char> {
    match c {
        CellFacts::Text(s) => trimmed(s),
        CellFacts::Float { text, .. } => text,
        CellFacts::Int(i) => int_text(i as int),
        CellFacts::Bool(b) => if b {
            "true"@
        } else {
            "false"@
        },
        _ => Seq::empty(),
    }
}

/// The ASCII digits of `s`, in order.
pub open spec fn digits_of(s: Seq<char>) -> Seq<char>
    decreases s.len(),
{
    if s.len() == 0 {
        Seq::empty()
    } else if is_digit(s.last()) {
        digits_of(s.drop_last()).push(s.last())
    } else {
        digits_of(s.drop_last())
    }
}

pub open spec fn contains_char(s: Seq<char>, c: char) -> bool {
    exists|i: int| 0 <= i < s.len() && #[trigger] s[i] == c
}

/// An amount written as text: blank, `-` and a backquote count as zero;
/// otherwise its digits are the amount, negative when the text holds `(` or
/// starts with `-`.
pub open spec fn money_of_text(value: Seq<char>) -> Result<int, Seq<char>> {
    let t = trimmed(value);
    let d = digits_of(t);
    if t.len() == 0 || t == "-"@ || t == "`"@ {
        Ok(0)
    } else if d.len() == 0 {
        Err("Nilai uang tidak valid: "@ + t)
    } else if digits_value(d) > i64::MAX {
        Err("Nilai uang terlalu besar: "@ + t)
    } else if contains_char(t, '(') || t[0] == '-' {
        Ok(-digits_value(d))
    } else {
        Ok(digits_value(d))
    }
}

pub open spec fn money_of(c: CellFacts) -> Result<int, Seq<char>> {
    match c {
        CellFacts::Float { rounded, .. } => match rounded {
            Ok(v) => Ok(v as int),
            Err(e) => Err(e),
        },
        CellFacts::Int(i) => Ok(i as int),
        CellFacts::Text(s) => money_of_text(s),
        CellFacts::Empty => Ok(0),
        _ => Err("Jenis sel uang tidak didukung."@),
    }
}

pub open spec fn all_digits(s: Seq<char>) -> bool {
    forall|i: int| 0 <= i < s.len() ==> is_digit(#[trigger] s[i])
}

/// A whole number as `i64`'s `from_str` reads it: an optional sign, then at
/// least one digit, the value within range.
pub open spec fn parsed_i64(s: Seq<char>) -> Option<int> {
    if s.len() > 0 && (s[0] == '+' || s[0] == '-') {
        let r = s.subrange(1, s.len() as int);
        let v = if s[0] == '-' {
            -digits_value(r)
        } else {
            digits_value(r)
        };
        if r.len() > 0 && all_digits(r) && i64::MIN <= v <= i64::MAX {
            Some(v)
        } else {
            None
        }
    } else if s.len() > 0 && all_digits(s) && digits_value(s) <= i64::MAX {
        Some(digits_value(s))
    } else {
        None
    }
}

pub open spec fn int_of(c: CellFacts) -> Result<int, Seq<char>> {
    match c {
        CellFacts::Float { rounded, .. } => match rounded {
            Ok(v) => Ok(v as int),
            Err(e) => Err(e),
        },
        CellFacts::Int(i) => Ok(i as int),
        CellFacts::Text(s) => match parsed_i64(trimmed(s)) {
            Some(v) => Ok(v),
            None => Err("Bilangan bulat tidak valid: "@ + s),
        },
        CellFacts::Empty => Ok(0),
        _ => Err("Jenis sel bilangan bulat tidak didukung."@),
    }
}

/// The text of a cell.
pub fn cell_text(cell: &Cell) -> (r: String)
    ensures
        r@ == cell_text_of(cell.facts()),
{
    match cell {
        Cell::Text(value) => trim(value.as_str()),
        Cell::Float { text: t, .. } => t.clone(),
        Cell::Int(value) => {
            let mut s = String::new();
            push_int(&mut s, *value);
            s
        },
        Cell::Bool(value) => if *value {
            text("true")
        } else {
            text("false")
        },
        _ => String::new(),
    }
}

proof fn lemma_digits_nonneg(s: Seq<char>)
    ensures
        digits_value(s) >= 0 || !all_digits(s),
        all_digits(s) ==> digits_value(s) >= 0,
    decreases s.len(),
{
    if s.len() > 0 {
        lemma_digits_nonneg(s.drop_last());
        if all_digits(s) {
            assert(all_digits(s.drop_last())) by {
                assert forall|i: int| 0 <= i < s.drop_last().len() implies is_digit(
                    #[trigger] s.drop_last()[i],
                ) by {
                    assert(s.drop_last()[i] == s[i]);
                }
            }
            assert(is_digit(s[s.len() - 1]));
        }
    }
}

proof fn lemma_digits_of_all(s: Seq<char>)
    ensures
        all_digits(digits_of(s)),
    decreases s.len(),
{
    if s.len() > 0 {
        lemma_digits_of_all(s.drop_last());
        let d = digits_of(s.drop_last());
        if is_digit(s.last()) {
            assert forall|i: int| 0 <= i < d.push(s.last()).len() implies is_digit(
                #[trigger] d.push(s.last())[i],
            ) by {
                if i < d.len() {
                    assert(d.push(s.last())[i] == d[i]);
                }
            }
        }
    }
}

/// The value of a run of digits, or `None` once it exceeds `i64::MAX`.
fn digits_to_i64(s: &Vec<char>) -> (r: Option<i64>)
    requires
        all_digits(s@),
    ensures
        r matches Some(v) ==> v == digits_value(s@),
        r is None <==> digits_value(s@) > i64::MAX,
{
    let n = s.len();
    let mut acc: i64 = 0;
    let mut i: usize = 0;
    while i < n
        invariant
            n == s@.len(),
            i <= n,
            all_digits(s@),
            acc == digits_value(s@.subrange(0, i as int)),
        decreases n - i,
    {
        let c = s[i];
        let d: i64 = (c as u32 - 48) as i64;
        proof {
            assert(s@.subrange(0, i + 1).drop_last() =~= s@.subrange(0, i as int));
            assert(is_digit(s@[i as int]));
        }
        match acc.checked_mul(10) {
            None => {
                proof {
                    lemma_digits_prefix(s@, i + 1);
                    assert(acc >= 0) by {
                        lemma_digits_nonneg(s@.subrange(0, i as int));
                        assert(all_digits(s@.subrange(0, i as int))) by {
                            assert forall|j: int| 0 <= j < i implies is_digit(
                                #[trigger] s@.subrange(0, i as int)[j],
                            ) by {
                                assert(s@.subrange(0, i as int)[j] == s@[j]);
                            }
                        }
                    }
                }
                return None;
            },
            Some(t) => match t.checked_add(d) {
                None => {
                    proof {
                        lemma_digits_prefix(s@, i + 1);
                    }
                    return None;
                },
                Some(v) => {
                    acc = v;
                },
            },
        }
        i = i + 1;
    }
    proof {
        assert(s@.subrange(0, n as int) =~= s@);
    }
    Some(acc)
}

/// A prefix of a run of digits is worth no more than the run.
proof fn lemma_digits_prefix(s: Seq<char>, i: int)
    requires
        all_digits(s),
        0 <= i <= s.len(),
    ensures
        digits_value(s.subrange(0, i)) <= digits_value(s),
    decreases s.len() - i,
{
    if i < s.len() {
        lemma_digits_prefix(s, i + 1);
        let p = s.subrange(0, i + 1);
        assert(p.drop_last() =~= s.subrange(0, i));
        assert(all_digits(s.subrange(0, i))) by {
            assert forall|j: int| 0 <= j < i implies is_digit(#[trigger] s.subrange(0, i)[j]) by {
                assert(s.subrange(0, i)[j] == s[j]);
            }
        }
        lemma_digits_nonneg(s.subrange(0, i));
        assert(is_digit(s[i]));
    } else {
        assert(s.subrange(0, i) =~= s);
    }
}

/// The characters of `s`.
fn chars_of(s: &str) -> (r: Vec<char>)
    ensures
        r@ == s@,
{
    let n = s.unicode_len();
    let mut out: Vec<char> = Vec::new();
    let mut i: usize = 0;
    while i < n
        invariant
            n == s@.len(),
            i <= n,
            out@ == s@.subrange(0, i as int),
        decreases n - i,
    {
        out.push(s.get_char(i));
        proof {
            assert(out@ =~= s@.subrange(0, i + 1));
        }
        i = i + 1;
    }
    proof {
        assert(s@.subrange(0, n as int) =~= s@);
    }
    out
}

/// An amount written as text.
fn money_from_text(value: &str) -> (r: Result<i64, String>)
    ensures
        match money_of_text(value@) {
            Ok(v) => r matches Ok(x) && x == v,
            Err(m) => r matches Err(e) && e@ == m,
        },
{
    let t = trim(value);
    let cs = chars_of(t.as_str());
    let n = cs.len();
    proof {
        reveal_strlit("-");
        reveal_strlit("`");
    }
    if n == 0 || (n == 1 && (cs[0] == '-' || cs[0] == '`')) {
        proof {
            if n == 1 {
                if cs[0] == '-' {
                    assert(t@ =~= "-"@);
                } else {
                    assert(t@ =~= "`"@);
                }
            }
        }
        return Ok(0);
    }
    assert(t@ != "-"@ && t@ != "`"@) by {
        if t@ == "-"@ {
            assert(t@.len() == 1 && t@[0] == '-');
        }
        if t@ == "`"@ {
            assert(t@.len() == 1 && t@[0] == '`');
        }
    }
    let mut digits: Vec<char> = Vec::new();
    let mut paren = false;
    let mut i: usize = 0;
    while i < n
        invariant
            n == cs@.len(),
            cs@ == t@,
            i <= n,
            digits@ == digits_of(t@.subrange(0, i as int)),
            paren == contains_char(t@.subrange(0, i as int), '('),
        decreases n - i,
    {
        let c = cs[i];
        proof {
            assert(t@.subrange(0, i + 1).drop_last() =~= t@.subrange(0, i as int));
            assert(t@.subrange(0, i + 1).last() == c);
        }
        if is_digit_char(c) {
            digits.push(c);
        }
        if c == '(' {
            paren = true;
            proof {
                assert(t@.subrange(0, i + 1)[i as int] == '(');
            }
        } else {
            proof {
                if contains_char(t@.subrange(0, i + 1), '(') {
                    let j = choose|j: int| 0 <= j < i + 1 && #[trigger] t@.subrange(0, i + 1)[j] == '(';
                    assert(j != i);
                    assert(t@.subrange(0, i as int)[j] == '(');
                }
                if contains_char(t@.subrange(0, i as int), '(') {
                    let j = choose|j: int| 0 <= j < i && #[trigger] t@.subrange(0, i as int)[j] == '(';
                    assert(t@.subrange(0, i + 1)[j] == '(');
                }
            }
        }
        i = i + 1;
    }
    proof {
        assert(t@.subrange(0, n as int) =~= t@);
        lemma_digits_of_all(t@);
    }
    if digits.len() == 0 {
        let mut e = text("Nilai uang tidak valid: ");
        append(&mut e, t.as_str());
        return Err(e);
    }
    match digits_to_i64(&digits) {
        None => {
            let mut e = text("Nilai uang terlalu besar: ");
            append(&mut e, t.as_str());
            Err(e)
        },
        Some(v) => {
            proof {
                lemma_digits_nonneg(digits@);
            }
            if paren || cs[0] == '-' {
                Ok(-v)
            } else {
                Ok(v)
            }
        },
    }
}

/// A money amount: a number rounded to a whole amount, a text read by
/// `money_of_text`, zero for an empty cell.
pub fn cell_money(cell: &Cell) -> (r: Result<i64, String>)
    ensures
        match money_of(cell.facts()) {
            Ok(v) => r matches Ok(x) && x == v,
            Err(m) => r matches Err(e) && e@ == m,
        },
{
    match cell {
        Cell::Float { rounded, .. } => match rounded {
            Ok(v) => Ok(*v),
            Err(e) => Err(e.clone()),
        },
        Cell::Int(value) => Ok(*value),
        Cell::Text(value) => money_from_text(value.as_str()),
        Cell::Empty => Ok(0),
        _ => Err(text("Jenis sel uang tidak didukung.")),
    }
}

/// `s` read as an `i64` with an optional sign.
fn parse_i64(s: &str) -> (r: Option<i64>)
    ensures
        match parsed_i64(s@) {
            Some(v) => r matches Some(x) && x == v,
            None => r is None,
        },
{
    let cs = chars_of(s);
    let n = cs.len();
    if n == 0 {
        return None;
    }
    let signed = cs[0] == '+' || cs[0] == '-';
    let start: usize = if signed {
        1
    } else {
        0
    };
    if start == n {
        return None;
    }
    let mut digits: Vec<char> = Vec::new();
    let mut i: usize = start;
    while i < n
        invariant
            n == cs@.len(),
            cs@ == s@,
            start <= i <= n,
            n > 0,
            signed == (s@[0] == '+' || s@[0] == '-'),
            start == if signed {
                1usize
            } else {
                0usize
            },
            digits@ == s@.subrange(start as int, i as int),
            all_digits(digits@),
        decreases n - i,
    {
        let c = cs[i];
        if !is_digit_char(c) {
            proof {
                assert(!all_digits(s@.subrange(start as int, n as int))) by {
                    assert(s@.subrange(start as int, n as int)[i - start] == c);
                    assert(!is_digit(s@.subrange(start as int, n as int)[i - start]));
                }
                if !signed {
                    assert(s@.subrange(0, n as int) =~= s@);
                    assert(!(s@[0] == '+' || s@[0] == '-'));
                    assert(!all_digits(s@));
                } else {
                    assert(start == 1);
                    assert(s@[0] == '+' || s@[0] == '-');
                }
            }
            return None;
        }
        digits.push(c);
        proof {
            assert(digits@ =~= s@.subrange(start as int, i + 1));
        }
        i = i + 1;
    }
    proof {
        if !signed {
            assert(s@.subrange(0, n as int) =~= s@);
        }
        lemma_digits_nonneg(digits@);
    }
    let negative = cs[0] == '-';
    match digits_to_i64(&digits) {
        Some(v) => if negative {
            Some(-v)
        } else {
            Some(v)
        },
        None => {
            if negative {
                // The one value whose magnitude exceeds `i64::MAX`.
                let k = digits.len();
                let mut j: usize = 0;
                let mut small = true;
                let mut rest: u128 = 0;
                while j < k
                    invariant
                        k == digits@.len(),
                        j <= k,
                        all_digits(digits@),
                        small ==> rest == digits_value(digits@.subrange(0, j as int)),
                        small ==> rest <= 9223372036854775808,
                        !small ==> digits_value(digits@.subrange(0, j as int)) > 9223372036854775808,
                    decreases k - j,
                {
                    let c = digits[j];
                    let d: u128 = (c as u32 - 48) as u128;
                    proof {
                        assert(digits@.subrange(0, j + 1).drop_last() =~= digits@.subrange(0, j as int));
                        assert(is_digit(digits@[j as int]));
                        assert(all_digits(digits@.subrange(0, j as int))) by {
                            assert forall|q: int| 0 <= q < j implies is_digit(
                                #[trigger] digits@.subrange(0, j as int)[q],
                            ) by {
                                assert(digits@.subrange(0, j as int)[q] == digits@[q]);
                            }
                        }
                        lemma_digits_nonneg(digits@.subrange(0, j as int));
                    }
                    if small {
                        let next = rest * 10 + d;
                        if next > 9223372036854775808 {
                            small = false;
                        } else {
                            rest = next;
                        }
                    }
                    j = j + 1;
                }
                proof {
                    assert(digits@.subrange(0, k as int) =~= digits@);
                }
                if small && rest == 9223372036854775808 {
                    return Some(i64::MIN);
                }
            }
            None
        },
    }
}

/// A whole number: a number rounded, a text read as `i64` after trimming,
/// zero for an empty cell.
pub fn cell_int(cell: &Cell) -> (r: Result<i64, String>)
    ensures
        match int_of(cell.facts()) {
            Ok(v) => r matches Ok(x) && x == v,
            Err(m) => r matches Err(e) && e@ == m,
        },
{
    match cell {
        Cell::Float { rounded, .. } => match rounded {
            Ok(v) => Ok(*v),
            Err(e) => Err(e.clone()),
        },
        Cell::Int(value) => Ok(*value),
        Cell::Text(value) => {
            let t = trim(value.as_str());
            match parse_i64(t.as_str()) {
                Some(v) => Ok(v),
                None => {
                    let mut e = text("Bilangan bulat tidak valid: ");
                    append(&mut e, value.as_str());
                    Err(e)
                },
            }
        },
        Cell::Empty => Ok(0),
        _ => Err(text("Jenis sel bilangan bulat tidak didukung.")),
    }
}

/// The file extensions of the workbooks that the import opens, compared
/// without regard to ASCII case.
pub open spec fn workbook_extension(e: Seq<char>) -> bool {
    let l = e.map_values(|c: char| crate::text::lower(c));
    l == "xlsx"@ || l == "xls"@ || l == "xlsm"@ || l == "xlsb"@ || l == "ods"@
}

pub fn is_workbook_extension(extension: Option<&str>) -> (r: bool)
    ensures
        r == (extension matches Some(e) && workbook_extension(e@)),
{
    match extension {
        None => false,
        Some(e) => {
            let l = crate::text::lower_text(e);
            crate::text::same_text(l.as_str(), "xlsx") || crate::text::same_text(l.as_str(), "xls")
                || crate::text::same_text(l.as_str(), "xlsm") || crate::text::same_text(
                l.as_str(),
                "xlsb",
            ) || crate::text::same_text(l.as_str(), "ods")
        },
    }
}

} // verus!
