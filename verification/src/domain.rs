//! Cooperative business vocabulary and date rules, free of any storage concern.

use vstd::prelude::*;

use crate::text::{
    append, decimal, digit_value, is_alphanumeric, is_alphanumeric_char, is_digit, is_digit_char,
    pow10, push_char, push_decimal, push_zero_padded, same_text, text, upper, upper_char,
    zero_padded,
};

verus! {

/// Message of a text that names no value of an enumeration.
pub open spec fn invalid_value(kind: Seq<char>, value: Seq<char>) -> Seq<char> {
    "Nilai "@ + kind + " tidak valid: "@ + value
}

fn invalid_value_message(kind: &str, value: &str) -> (r: String)
    ensures
        r@ == invalid_value(kind@, value@),
{
    let mut s = text("Nilai ");
    append(&mut s, kind);
    append(&mut s, " tidak valid: ");
    append(&mut s, value);
    s
}

#[derive(Clone, Copy, Debug, PartialEq, Eq, Structural)]
pub enum MemberStatus {
    Active,
    Inactive,
}

impl MemberStatus {
    pub open spec fn text(self) -> Seq<char> {
        match self {
            MemberStatus::Active => "Aktif"@,
            MemberStatus::Inactive => "Nonaktif"@,
        }
    }

    pub fn as_str(self) -> (r: &'static str)
        ensures
            r@ == self.text(),
    {
        match self {
            MemberStatus::Active => "Aktif",
            MemberStatus::Inactive => "Nonaktif",
        }
    }

    /// The value whose text is `value`.
    pub open spec fn from_text(value: Seq<char>) -> Option<Self> {
        if value == "Aktif"@ {
            Some(MemberStatus::Active)
        } else if value == "Nonaktif"@ {
            Some(MemberStatus::Inactive)
        } else {
            None
        }
    }

    pub fn parse(value: &str) -> (r: Result<Self, String>)
        ensures
            r matches Ok(v) ==> v.text() == value@ && Self::from_text(value@) == Some(v),
            r matches Err(e) ==> (forall|v: Self| v.text() != value@) && Self::from_text(value@)
                is None && e@ == invalid_value("MemberStatus"@, value@),
    {
        if same_text(value, "Aktif") {
            Ok(MemberStatus::Active)
        } else if same_text(value, "Nonaktif") {
            Ok(MemberStatus::Inactive)
        } else {
            Err(invalid_value_message("MemberStatus", value))
        }
    }
}

#[derive(Clone, Copy, Debug, PartialEq, Eq, Structural)]
pub enum SavingsAccountType {
    Principal,
    Mandatory,
    Voluntary,
}

impl SavingsAccountType {
    pub open spec fn text(self) -> Seq<char> {
        match self {
            SavingsAccountType::Principal => "POKOK"@,
            SavingsAccountType::Mandatory => "WAJIB"@,
            SavingsAccountType::Voluntary => "MANASUKA"@,
        }
    }

    pub fn as_str(self) -> (r: &'static str)
        ensures
            r@ == self.text(),
    {
        match self {
            SavingsAccountType::Principal => "POKOK",
            SavingsAccountType::Mandatory => "WAJIB",
            SavingsAccountType::Voluntary => "MANASUKA",
        }
    }

    /// The value whose text is `value`.
    pub open spec fn from_text(value: Seq<char>) -> Option<Self> {
        if value == "POKOK"@ {
            Some(SavingsAccountType::Principal)
        } else if value == "WAJIB"@ {
            Some(SavingsAccountType::Mandatory)
        } else if value == "MANASUKA"@ {
            Some(SavingsAccountType::Voluntary)
        } else {
            None
        }
    }

    pub fn parse(value: &str) -> (r: Result<Self, String>)
        ensures
            r matches Ok(v) ==> v.text() == value@ && Self::from_text(value@) == Some(v),
            r matches Err(e) ==> (forall|v: Self| v.text() != value@) && Self::from_text(value@)
                is None && e@ == invalid_value("SavingsAccountType"@, value@),
    {
        if same_text(value, "POKOK") {
            Ok(SavingsAccountType::Principal)
        } else if same_text(value, "WAJIB") {
            Ok(SavingsAccountType::Mandatory)
        } else if same_text(value, "MANASUKA") {
            Ok(SavingsAccountType::Voluntary)
        } else {
            Err(invalid_value_message("SavingsAccountType", value))
        }
    }
}

#[derive(Clone, Copy, Debug, PartialEq, Eq, Structural)]
pub enum SavingsAccountStatus {
    Active,
}

impl SavingsAccountStatus {
    pub open spec fn text(self) -> Seq<char> {
        "ACTIVE"@
    }

    pub fn as_str(self) -> (r: &'static str)
        ensures
            r@ == self.text(),
    {
        "ACTIVE"
    }

    /// The value whose text is `value`.
    pub open spec fn from_text(value: Seq<char>) -> Option<Self> {
        if value == "ACTIVE"@ {
            Some(SavingsAccountStatus::Active)
        } else {
            None
        }
    }

    pub fn parse(value: &str) -> (r: Result<Self, String>)
        ensures
            r matches Ok(v) ==> v.text() == value@ && Self::from_text(value@) == Some(v),
            r matches Err(e) ==> (forall|v: Self| v.text() != value@) && Self::from_text(value@)
                is None && e@ == invalid_value("SavingsAccountStatus"@, value@),
    {
        if same_text(value, "ACTIVE") {
            Ok(SavingsAccountStatus::Active)
        } else {
            Err(invalid_value_message("SavingsAccountStatus", value))
        }
    }
}

#[derive(Clone, Copy, Debug, PartialEq, Eq, Structural)]
pub enum SavingsMovement {
    Deposit,
    Withdrawal,
}

impl SavingsMovement {
    pub open spec fn text(self) -> Seq<char> {
        match self {
            SavingsMovement::Deposit => "Setoran"@,
            SavingsMovement::Withdrawal => "Penarikan"@,
        }
    }

    pub fn as_str(self) -> (r: &'static str)
        ensures
            r@ == self.text(),
    {
        match self {
            SavingsMovement::Deposit => "Setoran",
            SavingsMovement::Withdrawal => "Penarikan",
        }
    }

    /// The value whose text is `value`.
    pub open spec fn from_text(value: Seq<char>) -> Option<Self> {
        if value == "Setoran"@ {
            Some(SavingsMovement::Deposit)
        } else if value == "Penarikan"@ {
            Some(SavingsMovement::Withdrawal)
        } else {
            None
        }
    }

    pub fn parse(value: &str) -> (r: Result<Self, String>)
        ensures
            r matches Ok(v) ==> v.text() == value@ && Self::from_text(value@) == Some(v),
            r matches Err(e) ==> (forall|v: Self| v.text() != value@) && Self::from_text(value@)
                is None && e@ == invalid_value("SavingsMovement"@, value@),
    {
        if same_text(value, "Setoran") {
            Ok(SavingsMovement::Deposit)
        } else if same_text(value, "Penarikan") {
            Ok(SavingsMovement::Withdrawal)
        } else {
            Err(invalid_value_message("SavingsMovement", value))
        }
    }
}

#[derive(Clone, Copy, Debug, PartialEq, Eq, Structural)]
pub enum LoanStatus {
    Draft,
    Active,
    NeedsReview,
    PaidOff,
}

impl LoanStatus {
    pub open spec fn text(self) -> Seq<char> {
        match self {
            LoanStatus::Draft => "Draf"@,
            LoanStatus::Active => "Berjalan"@,
            LoanStatus::NeedsReview => "Perlu review"@,
            LoanStatus::PaidOff => "Lunas"@,
        }
    }

    pub fn as_str(self) -> (r: &'static str)
        ensures
            r@ == self.text(),
    {
        match self {
            LoanStatus::Draft => "Draf",
            LoanStatus::Active => "Berjalan",
            LoanStatus::NeedsReview => "Perlu review",
            LoanStatus::PaidOff => "Lunas",
        }
    }

    /// The value whose text is `value`.
    pub open spec fn from_text(value: Seq<char>) -> Option<Self> {
        if value == "Draf"@ {
            Some(LoanStatus::Draft)
        } else if value == "Berjalan"@ {
            Some(LoanStatus::Active)
        } else if value == "Perlu review"@ {
            Some(LoanStatus::NeedsReview)
        } else if value == "Lunas"@ {
            Some(LoanStatus::PaidOff)
        } else {
            None
        }
    }

    pub fn parse(value: &str) -> (r: Result<Self, String>)
        ensures
            r matches Ok(v) ==> v.text() == value@ && Self::from_text(value@) == Some(v),
            r matches Err(e) ==> (forall|v: Self| v.text() != value@) && Self::from_text(value@)
                is None && e@ == invalid_value("LoanStatus"@, value@),
    {
        if same_text(value, "Draf") {
            Ok(LoanStatus::Draft)
        } else if same_text(value, "Berjalan") {
            Ok(LoanStatus::Active)
        } else if same_text(value, "Perlu review") {
            Ok(LoanStatus::NeedsReview)
        } else if same_text(value, "Lunas") {
            Ok(LoanStatus::PaidOff)
        } else {
            Err(invalid_value_message("LoanStatus", value))
        }
    }
}

#[derive(Clone, Copy, Debug, PartialEq, Eq, Structural)]
pub enum InterestType {
    Declining,
    Flat,
}

impl InterestType {
    pub open spec fn text(self) -> Seq<char> {
        match self {
            InterestType::Declining => "Menurun"@,
            InterestType::Flat => "Flat"@,
        }
    }

    pub fn as_str(self) -> (r: &'static str)
        ensures
            r@ == self.text(),
    {
        match self {
            InterestType::Declining => "Menurun",
            InterestType::Flat => "Flat",
        }
    }

    /// The value whose text is `value`.
    pub open spec fn from_text(value: Seq<char>) -> Option<Self> {
        if value == "Menurun"@ {
            Some(InterestType::Declining)
        } else if value == "Flat"@ {
            Some(InterestType::Flat)
        } else {
            None
        }
    }

    pub fn parse(value: &str) -> (r: Result<Self, String>)
        ensures
            r matches Ok(v) ==> v.text() == value@ && Self::from_text(value@) == Some(v),
            r matches Err(e) ==> (forall|v: Self| v.text() != value@) && Self::from_text(value@)
                is None && e@ == invalid_value("InterestType"@, value@),
    {
        if same_text(value, "Menurun") {
            Ok(InterestType::Declining)
        } else if same_text(value, "Flat") {
            Ok(InterestType::Flat)
        } else {
            Err(invalid_value_message("InterestType", value))
        }
    }
}

#[derive(Clone, Copy, Debug, PartialEq, Eq, Structural)]
pub enum TransactionDirection {
    In,
    Out,
}

impl TransactionDirection {
    pub open spec fn text(self) -> Seq<char> {
        match self {
            TransactionDirection::In => "Masuk"@,
            TransactionDirection::Out => "Keluar"@,
        }
    }

    pub fn as_str(self) -> (r: &'static str)
        ensures
            r@ == self.text(),
    {
        match self {
            TransactionDirection::In => "Masuk",
            TransactionDirection::Out => "Keluar",
        }
    }

    /// The value whose text is `value`.
    pub open spec fn from_text(value: Seq<char>) -> Option<Self> {
        if value == "Masuk"@ {
            Some(TransactionDirection::In)
        } else if value == "Keluar"@ {
            Some(TransactionDirection::Out)
        } else {
            None
        }
    }

    pub fn parse(value: &str) -> (r: Result<Self, String>)
        ensures
            r matches Ok(v) ==> v.text() == value@ && Self::from_text(value@) == Some(v),
            r matches Err(e) ==> (forall|v: Self| v.text() != value@) && Self::from_text(value@)
                is None && e@ == invalid_value("TransactionDirection"@, value@),
    {
        if same_text(value, "Masuk") {
            Ok(TransactionDirection::In)
        } else if same_text(value, "Keluar") {
            Ok(TransactionDirection::Out)
        } else {
            Err(invalid_value_message("TransactionDirection", value))
        }
    }

    /// The other direction: money that came in goes out, and the reverse.
    pub fn reversed(self) -> (r: Self)
        ensures
            r != self,
            r == self.spec_reversed(),
    {
        match self {
            TransactionDirection::In => TransactionDirection::Out,
            TransactionDirection::Out => TransactionDirection::In,
        }
    }

    pub open spec fn spec_reversed(self) -> Self {
        match self {
            TransactionDirection::In => TransactionDirection::Out,
            TransactionDirection::Out => TransactionDirection::In,
        }
    }
}

#[derive(Clone, Copy, Debug, PartialEq, Eq, Structural)]
pub enum TransactionStatus {
    Posted,
    Draft,
    Reversed,
}

impl TransactionStatus {
    pub open spec fn text(self) -> Seq<char> {
        match self {
            TransactionStatus::Posted => "Terposting"@,
            TransactionStatus::Draft => "Draf"@,
            TransactionStatus::Reversed => "Dibalik"@,
        }
    }

    pub fn as_str(self) -> (r: &'static str)
        ensures
            r@ == self.text(),
    {
        match self {
            TransactionStatus::Posted => "Terposting",
            TransactionStatus::Draft => "Draf",
            TransactionStatus::Reversed => "Dibalik",
        }
    }

    /// The value whose text is `value`.
    pub open spec fn from_text(value: Seq<char>) -> Option<Self> {
        if value == "Terposting"@ {
            Some(TransactionStatus::Posted)
        } else if value == "Draf"@ {
            Some(TransactionStatus::Draft)
        } else if value == "Dibalik"@ {
            Some(TransactionStatus::Reversed)
        } else {
            None
        }
    }

    pub fn parse(value: &str) -> (r: Result<Self, String>)
        ensures
            r matches Ok(v) ==> v.text() == value@ && Self::from_text(value@) == Some(v),
            r matches Err(e) ==> (forall|v: Self| v.text() != value@) && Self::from_text(value@)
                is None && e@ == invalid_value("TransactionStatus"@, value@),
    {
        if same_text(value, "Terposting") {
            Ok(TransactionStatus::Posted)
        } else if same_text(value, "Draf") {
            Ok(TransactionStatus::Draft)
        } else if same_text(value, "Dibalik") {
            Ok(TransactionStatus::Reversed)
        } else {
            Err(invalid_value_message("TransactionStatus", value))
        }
    }
}

#[derive(Clone, Copy, Debug, PartialEq, Eq, Structural)]
pub enum PeriodStatus {
    Open,
    Locked,
}

impl PeriodStatus {
    pub open spec fn text(self) -> Seq<char> {
        match self {
            PeriodStatus::Open => "OPEN"@,
            PeriodStatus::Locked => "LOCKED"@,
        }
    }

    pub fn as_str(self) -> (r: &'static str)
        ensures
            r@ == self.text(),
    {
        match self {
            PeriodStatus::Open => "OPEN",
            PeriodStatus::Locked => "LOCKED",
        }
    }

    /// The value whose text is `value`.
    pub open spec fn from_text(value: Seq<char>) -> Option<Self> {
        if value == "OPEN"@ {
            Some(PeriodStatus::Open)
        } else if value == "LOCKED"@ {
            Some(PeriodStatus::Locked)
        } else {
            None
        }
    }

    pub fn parse(value: &str) -> (r: Result<Self, String>)
        ensures
            r matches Ok(v) ==> v.text() == value@ && Self::from_text(value@) == Some(v),
            r matches Err(e) ==> (forall|v: Self| v.text() != value@) && Self::from_text(value@)
                is None && e@ == invalid_value("PeriodStatus"@, value@),
    {
        if same_text(value, "OPEN") {
            Ok(PeriodStatus::Open)
        } else if same_text(value, "LOCKED") {
            Ok(PeriodStatus::Locked)
        } else {
            Err(invalid_value_message("PeriodStatus", value))
        }
    }
}

// ---------------------------------------------------------------------------
// Identifiers

/// `{prefix}-{millis}-{sequence}`.
pub open spec fn id_text(prefix: Seq<char>, millis: nat, sequence: nat) -> Seq<char> {
    prefix + seq!['-'] + decimal(millis) + seq!['-'] + decimal(sequence)
}

#[verifier::external_type_specification]
#[verifier::external_body]
pub struct ExSystemTime(std::time::SystemTime);

/// The system clock's reading, `SystemTime::now`. Nothing is promised of it:
/// it is the time.
#[verifier::external_body]
fn clock_now() -> std::time::SystemTime {
    std::time::SystemTime::now()
}

/// The time from the Unix epoch to `t` (`SystemTime::duration_since` with
/// `UNIX_EPOCH`), or none when `t` stands before the epoch. Nothing is promised
/// of which: it depends on the clock reading.
#[verifier::external_body]
fn since_unix_epoch(t: &std::time::SystemTime) -> Option<std::time::Duration> {
    t.duration_since(std::time::UNIX_EPOCH).ok()
}

/// The whole milliseconds of `d`, `Duration::as_millis`. A duration is opaque
/// here, so nothing is stated of the number.
#[verifier::external_body]
fn whole_millis(d: &std::time::Duration) -> u128 {
    d.as_millis()
}

/// Milliseconds since the Unix epoch by the system clock, zero when the clock
/// stands before the epoch.
pub(crate) fn unix_millis() -> u128 {
    let now = clock_now();
    match since_unix_epoch(&now) {
        Some(d) => whole_millis(&d),
        None => 0,
    }
}

/// The identifier made of `prefix`, a clock reading in milliseconds and a
/// sequence number.
pub fn timestamp_id_at(prefix: &str, millis: u128, sequence: u64) -> (r: String)
    ensures
        r@ == id_text(prefix@, millis as nat, sequence as nat),
{
    let mut s = text(prefix);
    push_char(&mut s, '-');
    push_decimal(&mut s, millis);
    push_char(&mut s, '-');
    push_decimal(&mut s, sequence as u128);
    proof {
        assert(s@ =~= id_text(prefix@, millis as nat, sequence as nat));
    }
    s
}

/// A fresh identifier: `prefix`, the current time in milliseconds and the
/// caller's sequence number.
pub fn timestamp_id(prefix: &str, sequence: u64) -> (r: String)
    ensures
        exists|millis: nat| r@ == id_text(prefix@, millis, sequence as nat),
{
    let millis = unix_millis();
    timestamp_id_at(prefix, millis, sequence)
}

// ---------------------------------------------------------------------------
// Names

/// The ASCII letters and digits of `s`, in upper case.
pub open spec fn normalized(s: Seq<char>) -> Seq<char>
    decreases s.len(),
{
    if s.len() == 0 {
        Seq::empty()
    } else if is_alphanumeric(s.last()) {
        normalized(s.drop_last()).push(upper(s.last()))
    } else {
        normalized(s.drop_last())
    }
}

/// The key by which two spellings of a member's name are matched.
pub fn normalize_name(value: &str) -> (r: String)
    ensures
        r@ == normalized(value@),
{
    let n = value.unicode_len();
    let mut out = String::new();
    let mut i: usize = 0;
    while i < n
        invariant
            n == value@.len(),
            i <= n,
            out@ == normalized(value@.subrange(0, i as int)),
        decreases n - i,
    {
        let c = value.get_char(i);
        if is_alphanumeric_char(c) {
            push_char(&mut out, upper_char(c));
        }
        proof {
            assert(value@.subrange(0, i + 1).drop_last() =~= value@.subrange(0, i as int));
        }
        i = i + 1;
    }
    proof {
        assert(value@.subrange(0, n as int) =~= value@);
    }
    out
}

// ---------------------------------------------------------------------------
// Business dates

/// Value of a run of decimal digits.
pub open spec fn digits_value(s: Seq<char>) -> int
    decreases s.len(),
{
    if s.len() == 0 {
        0
    } else {
        digits_value(s.drop_last()) * 10 + digit_value(s.last())
    }
}

pub open spec fn is_leap(year: int) -> bool {
    year % 4 == 0 && (year % 100 != 0 || year % 400 == 0)
}

pub open spec fn days_in_month(year: int, month: int) -> int {
    if month == 2 {
        if is_leap(year) {
            29
        } else {
            28
        }
    } else if month == 4 || month == 6 || month == 9 || month == 11 {
        30
    } else {
        31
    }
}

/// `YYYY-MM-DD` made of ASCII digits.
pub open spec fn date_shaped(s: Seq<char>) -> bool {
    &&& s.len() == 10
    &&& s[4] == '-'
    &&& s[7] == '-'
    &&& forall|i: int| 0 <= i < 10 && i != 4 && i != 7 ==> is_digit(#[trigger] s[i])
}

pub open spec fn date_year(s: Seq<char>) -> int {
    digits_value(s.subrange(0, 4))
}

pub open spec fn date_month(s: Seq<char>) -> int {
    digits_value(s.subrange(5, 7))
}

pub open spec fn date_day(s: Seq<char>) -> int {
    digits_value(s.subrange(8, 10))
}

/// A calendar date written `YYYY-MM-DD`, year zero excluded.
pub open spec fn valid_date(s: Seq<char>) -> bool {
    &&& date_shaped(s)
    &&& date_year(s) != 0
    &&& 1 <= date_month(s) <= 12
    &&& 1 <= date_day(s) <= days_in_month(date_year(s), date_month(s))
}

pub open spec fn invalid_date_message() -> Seq<char> {
    "Tanggal bisnis tidak valid."@
}

pub proof fn lemma_digits_bound(s: Seq<char>)
    requires
        forall|i: int| 0 <= i < s.len() ==> is_digit(#[trigger] s[i]),
    ensures
        0 <= digits_value(s) < pow10(s.len()),
    decreases s.len(),
{
    if s.len() > 0 {
        lemma_digits_bound(s.drop_last());
        assert(pow10(s.len()) == 10 * pow10((s.len() - 1) as nat));
    }
}

fn digits_at(value: &str, from: usize, to: usize) -> (r: i64)
    requires
        from <= to <= value@.len(),
        to - from <= 4,
        forall|i: int| from <= i < to ==> is_digit(#[trigger] value@[i]),
    ensures
        r == digits_value(value@.subrange(from as int, to as int)),
{
    let mut acc: i64 = 0;
    let mut i: usize = from;
    while i < to
        invariant
            from <= i <= to <= value@.len(),
            to - from <= 4,
            forall|j: int| from <= j < to ==> is_digit(#[trigger] value@[j]),
            acc == digits_value(value@.subrange(from as int, i as int)),
            0 <= acc < pow10((i - from) as nat),
        decreases to - i,
    {
        let c = value.get_char(i);
        proof {
            assert(value@.subrange(from as int, i + 1).drop_last() =~= value@.subrange(
                from as int,
                i as int,
            ));
            assert(pow10((i + 1 - from) as nat) == 10 * pow10((i - from) as nat));
            assert(pow10(4) == 10000) by {
                reveal_with_fuel(pow10, 5);
            }
            if i - from < 4 {
                assert(pow10((i - from) as nat) <= 1000) by {
                    reveal_with_fuel(pow10, 5);
                }
            }
        }
        let d: i64 = (c as u32 - 48) as i64;
        acc = acc * 10 + d;
        i = i + 1;
    }
    acc
}

/// Year, month and day of a business date `YYYY-MM-DD`.
pub fn date_parts(value: &str) -> (r: Result<(i64, i64, i64), String>)
    ensures
        r is Ok <==> valid_date(value@),
        r matches Ok(p) ==> p.0 == date_year(value@) && p.1 == date_month(value@) && p.2
            == date_day(value@),
        r matches Err(e) ==> e@ == invalid_date_message(),
{
    let n = value.unicode_len();
    if n != 10 {
        return Err(text("Tanggal bisnis tidak valid."));
    }
    let mut i: usize = 0;
    while i < 10
        invariant
            n == value@.len() == 10,
            i <= 10,
            forall|j: int|
                0 <= j < i ==> if j == 4 || j == 7 {
                    value@[j] == '-'
                } else {
                    is_digit(value@[j])
                },
        decreases 10 - i,
    {
        let c = value.get_char(i);
        let ok = if i == 4 || i == 7 {
            c == '-'
        } else {
            is_digit_char(c)
        };
        if !ok {
            return Err(text("Tanggal bisnis tidak valid."));
        }
        i = i + 1;
    }
    assert(date_shaped(value@));
    let year = digits_at(value, 0, 4);
    let month = digits_at(value, 5, 7);
    let day = digits_at(value, 8, 10);
    if year == 0 || month < 1 || month > 12 {
        return Err(text("Tanggal bisnis tidak valid."));
    }
    let leap = year % 4 == 0 && (year % 100 != 0 || year % 400 == 0);
    let max_day: i64 = if month == 2 {
        if leap {
            29
        } else {
            28
        }
    } else if month == 4 || month == 6 || month == 9 || month == 11 {
        30
    } else {
        31
    };
    if day < 1 || day > max_day {
        return Err(text("Tanggal bisnis tidak valid."));
    }
    Ok((year, month, day))
}

/// The accounting period `YYYY-MM` of a business date.
pub fn business_period(value: &str) -> (r: Result<&str, String>)
    ensures
        r is Ok <==> valid_date(value@),
        r matches Ok(p) ==> p@ == value@.subrange(0, 7),
        r matches Err(e) ==> e@ == invalid_date_message(),
{
    date_parts(value)?;
    Ok(value.substring_char(0, 7))
}

pub open spec fn month_shift_message() -> Seq<char> {
    "Tanggal jatuh tempo di luar rentang yang didukung."@
}

/// Months counted from January of year zero.
pub open spec fn absolute_month(s: Seq<char>, months: int) -> int {
    date_year(s) * 12 + (date_month(s) - 1) + months
}

/// The date `months` months after `s`, the day cut to the end of a shorter month.
pub open spec fn shifted_date(s: Seq<char>, months: int) -> Seq<char> {
    let a = absolute_month(s, months);
    let y = a / 12;
    let m = a % 12 + 1;
    let d = if date_day(s) < days_in_month(y, m) {
        date_day(s)
    } else {
        days_in_month(y, m)
    };
    zero_padded(y, 4) + seq!['-'] + zero_padded(m, 2) + seq!['-'] + zero_padded(d, 2)
}

/// When the date `months` months after `s` can be written.
pub open spec fn month_shift_ok(s: Seq<char>, months: int) -> bool {
    &&& i64::MIN <= absolute_month(s, months) <= i64::MAX
    &&& 1 <= absolute_month(s, months) / 12 <= 9999
}

/// The due date `months` months after a business date.
pub fn add_months(value: &str, months: i64) -> (r: Result<String, String>)
    ensures
        !valid_date(value@) ==> r == Err::<String, String>(r->Err_0) && r->Err_0@
            == invalid_date_message(),
        valid_date(value@) && !month_shift_ok(value@, months as int) ==> r is Err && r->Err_0@
            == month_shift_message(),
        valid_date(value@) && month_shift_ok(value@, months as int) ==> r is Ok && r->Ok_0@
            == shifted_date(value@, months as int),
{
    let (year, month, day) = date_parts(value)?;
    proof {
        lemma_digits_bound(value@.subrange(0, 4));
        assert(pow10(4) == 10000) by {
            reveal_with_fuel(pow10, 5);
        }
    }
    let base: i64 = year * 12 + (month - 1);
    let absolute = match base.checked_add(months) {
        Some(v) => v,
        None => {
            return Err(text("Tanggal jatuh tempo di luar rentang yang didukung."));
        },
    };
    let due_year = absolute.checked_div_euclid(12).unwrap();
    let due_month = absolute.checked_rem_euclid(12).unwrap() + 1;
    if due_year < 1 || due_year > 9999 {
        return Err(text("Tanggal jatuh tempo di luar rentang yang didukung."));
    }
    let leap = due_year % 4 == 0 && (due_year % 100 != 0 || due_year % 400 == 0);
    let max_day: i64 = if due_month == 2 {
        if leap {
            29
        } else {
            28
        }
    } else if due_month == 4 || due_month == 6 || due_month == 9 || due_month == 11 {
        30
    } else {
        31
    };
    let d = if day < max_day {
        day
    } else {
        max_day
    };
    let mut s = String::new();
    push_zero_padded(&mut s, due_year, 4);
    push_char(&mut s, '-');
    push_zero_padded(&mut s, due_month, 2);
    push_char(&mut s, '-');
    push_zero_padded(&mut s, d, 2);
    proof {
        assert(s@ =~= shifted_date(value@, months as int));
    }
    Ok(s)
}

} // verus!
