//! Admission of new members.

use vstd::prelude::*;

use crate::contracts::AddMemberInput;
use crate::domain::{
    business_period, digits_value, invalid_date_message, valid_date, MemberStatus,
    SavingsAccountStatus, SavingsAccountType, SavingsMovement, TransactionDirection,
    TransactionStatus,
};
use crate::ledger::{
    audit_is, component_is, duplicate_key_message, extends_by_one, header_is, local_actor,
    locked_message, posting_is, AccountFacts, AuditEvent, AuditFacts, AuditPayload, CashPosting,
    Component, IdSource, Ledger, Member, SavingsAccount, Transaction,
};
use crate::text::{
    append, is_blank, is_digit, is_digit_char, push_zero_padded, same_text_upper, text, trim,
    trimmed, upper_text, zero_padded,
};

verus! {

/// White space that the storage skips before a number: space, tab, line feed,
/// vertical tab, form feed and carriage return.
pub open spec fn is_number_space(c: char) -> bool {
    c == ' ' || ('\u{9}' <= c && c <= '\u{d}')
}

/// Number of characters of `s`, from `i` on, that pass `p` in a row.
pub open spec fn run_from(s: Seq<char>, i: int, digits: bool) -> int
    decreases s.len() - i,
{
    if i < 0 || i >= s.len() {
        0
    } else if (digits && is_digit(s[i])) || (!digits && is_number_space(s[i])) {
        1 + run_from(s, i + 1, digits)
    } else {
        0
    }
}

pub open spec fn clamp_i64(x: int) -> int {
    if x > i64::MAX {
        i64::MAX as int
    } else if x < i64::MIN {
        i64::MIN as int
    } else {
        x
    }
}

/// The integer that the storage reads from text: leading white space is
/// skipped, then an optional sign and the longest run of digits are read; no
/// digits read as zero, and a value out of range is cut to the nearest bound.
pub open spec fn text_integer(s: Seq<char>) -> int {
    let a = run_from(s, 0, false);
    let signed = a < s.len() && (s[a] == '-' || s[a] == '+');
    let negative = a < s.len() && s[a] == '-';
    let b = if signed {
        a + 1
    } else {
        a
    };
    let d = run_from(s, b, true);
    let v = digits_value(s.subrange(b, b + d));
    clamp_i64(
        if negative {
            -v
        } else {
            v
        },
    )
}

/// Position of the first `-M` in `s` at or after `i`, or -1.
pub open spec fn dash_m_from(s: Seq<char>, i: int) -> int
    decreases s.len() - i,
{
    if i < 0 || i + 1 >= s.len() {
        -1
    } else if s[i] == '-' && s[i + 1] == 'M' {
        i
    } else {
        dash_m_from(s, i + 1)
    }
}

/// `SUBSTR(id, INSTR(id, '-M') + 2)`: what follows the first `-M`, or the id
/// without its first character when it holds none.
pub open spec fn member_suffix(id: Seq<char>) -> Seq<char> {
    let p = dash_m_from(id, 0);
    if p >= 0 {
        id.subrange(p + 2, id.len() as int)
    } else if id.len() >= 1 {
        id.subrange(1, id.len() as int)
    } else {
        id
    }
}

/// The largest member number among the ids of `members`, zero when there is none.
pub open spec fn max_member_number(members: Seq<Member>) -> int
    decreases members.len(),
{
    if members.len() == 0 {
        0
    } else {
        let rest = max_member_number(members.drop_last());
        let x = text_integer(member_suffix(members.last().id@));
        if members.len() == 1 || x > rest {
            x
        } else {
            rest
        }
    }
}

pub open spec fn next_member_number(l: Ledger) -> int {
    max_member_number(l.members@) + 1
}

pub open spec fn new_member_id(l: Ledger) -> Seq<char> {
    l.company_id@ + "-M"@ + zero_padded(next_member_number(l), 3)
}

pub open spec fn account_id_for(member_id: Seq<char>, kind: SavingsAccountType) -> Seq<char> {
    "SA-"@ + member_id + "-"@ + kind.text()
}

pub open spec fn member_number_taken(l: Ledger, number: Seq<char>) -> bool {
    exists|i: int|
        0 <= i < l.members@.len() && upper_text(l.members@[i].member_number@) == upper_text(
            trimmed(number),
        )
}

pub open spec fn member_early_rejection(l: Ledger, input: AddMemberInput) -> Option<Seq<char>> {
    let id = new_member_id(l);
    if trimmed(input.name@).len() == 0 || trimmed(input.member_number@).len() == 0 {
        Some("Nama dan nomor anggota wajib diisi."@)
    } else if input.principal_savings < 50_000 {
        Some("Simpanan pokok minimal Rp50.000."@)
    } else if !valid_date(input.business_date@) {
        Some(invalid_date_message())
    } else if l.period_locked(input.business_date@.subrange(0, 7)) {
        Some(locked_message())
    } else if member_number_taken(l, input.member_number@) {
        Some("Nomor anggota sudah digunakan."@)
    } else if next_member_number(l) > i64::MAX {
        Some("Nomor anggota berikutnya di luar rentang."@)
    } else if l.has_member_id(id) {
        Some(duplicate_key_message("members"@, "id"@))
    } else if l.has_account_id(account_id_for(id, SavingsAccountType::Principal)) || l.has_account_id(
        account_id_for(id, SavingsAccountType::Mandatory),
    ) || l.has_account_id(account_id_for(id, SavingsAccountType::Voluntary)) {
        Some(duplicate_key_message("savings_accounts"@, "id"@))
    } else {
        None
    }
}

pub open spec fn member_rejection(l: Ledger, input: AddMemberInput, ids: IdSource) -> Option<
    Seq<char>,
> {
    if member_early_rejection(l, input) is Some {
        member_early_rejection(l, input)
    } else if l.has_transaction_id(ids.peek("SAV-IN"@)) {
        Some(duplicate_key_message("transactions"@, "id"@))
    } else {
        None
    }
}

pub open spec fn opening_account(member_id: Seq<char>, kind: SavingsAccountType, balance: i64) -> AccountFacts {
    AccountFacts {
        id: account_id_for(member_id, kind),
        member_id,
        account_type: kind.text(),
        balance,
        status: SavingsAccountStatus::Active.text(),
    }
}

/// The books after admission: the member, the three savings accounts, the
/// principal savings deposited as one transaction, one cash posting, and two
/// audit events.
pub open spec fn member_added(old: Ledger, new: Ledger, input: AddMemberInput, ids: IdSource) -> bool {
    let id = new_member_id(old);
    let tx = ids.peek("SAV-IN"@);
    let reference = "KBS/SAV/"@ + tx;
    let m = new.members@.last();
    let t = new.transactions@.last();
    let amount = input.principal_savings as int;
    &&& new.company_id == old.company_id
    &&& new.loans == old.loans
    &&& new.periods == old.periods
    &&& extends_by_one(new.members@, old.members@)
    &&& m.id@ == id
    &&& m.member_number@ == trimmed(input.member_number@)
    &&& m.name@ == trimmed(input.name@)
    &&& m.joined_at@ == trimmed(input.joined_at@)
    &&& m.status@ == MemberStatus::Active.text()
    &&& new.account_table() == old.account_table() + seq![
        opening_account(id, SavingsAccountType::Principal, input.principal_savings),
        opening_account(id, SavingsAccountType::Mandatory, 0),
        opening_account(id, SavingsAccountType::Voluntary, 0),
    ]
    &&& extends_by_one(new.transactions@, old.transactions@)
    &&& header_is(
        t,
        tx,
        input.business_date@,
        input.display_date@,
        input.display_time@,
        Some(id),
        trimmed(input.name@),
        "SAVINGS_DEPOSIT"@,
        "Setoran simpanan pokok"@,
        reference,
        TransactionDirection::In.text(),
        amount,
        None,
        local_actor(),
    )
    &&& t.components@.len() == 1
    &&& component_is(
        t.components@[0],
        "SAVINGS_DEPOSIT"@,
        "Setoran simpanan pokok"@,
        amount,
        None,
        Some(account_id_for(id, SavingsAccountType::Principal)),
    )
    &&& extends_by_one(new.cash_postings@, old.cash_postings@)
    &&& posting_is(new.cash_postings@.last(), tx, TransactionDirection::In.text(), amount)
    &&& new.audit_events@.len() == old.audit_events@.len() + 2
    &&& new.audit_events@.subrange(0, old.audit_events@.len() as int) == old.audit_events@
    &&& audit_is(
        new.audit_events@[old.audit_events@.len() as int],
        "TRANSACTION"@,
        tx,
        "POSTED"@,
        None,
        AuditFacts::SavingsPosted {
            movement: SavingsMovement::Deposit.text(),
            account_type: SavingsAccountType::Principal.text(),
            amount,
            reference,
        },
    )
    &&& audit_is(
        new.audit_events@.last(),
        "MEMBER"@,
        id,
        "CREATED"@,
        None,
        AuditFacts::MemberCreated {
            name: input.name@,
            member_number: input.member_number@,
            principal_savings: amount,
        },
    )
}

proof fn lemma_run_step(s: Seq<char>, i: int, digits: bool)
    requires
        0 <= i < s.len(),
        (digits && is_digit(s[i])) || (!digits && is_number_space(s[i])),
    ensures
        run_from(s, i, digits) == 1 + run_from(s, i + 1, digits),
{
}

fn passes(c: char, digits: bool) -> (r: bool)
    ensures
        r == ((digits && is_digit(c)) || (!digits && is_number_space(c))),
{
    if digits {
        is_digit_char(c)
    } else {
        c == ' ' || ('\u{9}' <= c && c <= '\u{d}')
    }
}

/// Index after the run of characters from `i` on that pass.
fn run_end(s: &str, i: usize, digits: bool) -> (r: usize)
    requires
        i <= s@.len(),
    ensures
        r == i + run_from(s@, i as int, digits),
        i <= r <= s@.len(),
{
    let n = s.unicode_len();
    let mut j = i;
    while j < n && passes(s.get_char(j), digits)
        invariant
            n == s@.len(),
            i <= j <= n,
            run_from(s@, i as int, digits) == (j - i) + run_from(s@, j as int, digits),
        decreases n - j,
    {
        proof {
            lemma_run_step(s@, j as int, digits);
        }
        j = j + 1;
    }
    j
}

/// Two to the power 63: one past the largest `i64`.
pub open spec fn cap() -> int {
    0x8000_0000_0000_0000
}

proof fn lemma_digits_monotone(s: Seq<char>, k: int)
    requires
        0 <= k <= s.len(),
        forall|i: int| 0 <= i < s.len() ==> is_digit(#[trigger] s[i]),
    ensures
        digits_value(s.subrange(0, k)) <= digits_value(s),
        0 <= digits_value(s.subrange(0, k)),
    decreases s.len() - k,
{
    if k < s.len() {
        lemma_digits_monotone(s, k + 1);
        assert(s.subrange(0, k + 1).drop_last() =~= s.subrange(0, k));
        assert(digits_value(s.subrange(0, k)) >= 0) by {
            lemma_digits_nonneg(s.subrange(0, k));
        }
    } else {
        assert(s.subrange(0, k) =~= s);
        lemma_digits_nonneg(s);
    }
}

proof fn lemma_digits_nonneg(s: Seq<char>)
    requires
        forall|i: int| 0 <= i < s.len() ==> is_digit(#[trigger] s[i]),
    ensures
        0 <= digits_value(s),
    decreases s.len(),
{
    if s.len() > 0 {
        lemma_digits_nonneg(s.drop_last());
    }
}

/// `CAST(s AS INTEGER)`.
pub fn text_to_integer(s: &str) -> (r: i64)
    ensures
        r == text_integer(s@),
{
    let n = s.unicode_len();
    let a = run_end(s, 0, false);
    let negative = a < n && s.get_char(a) == '-';
    let signed = a < n && (s.get_char(a) == '-' || s.get_char(a) == '+');
    let b = if signed {
        a + 1
    } else {
        a
    };
    let e = run_end(s, b, true);
    let ghost run = s@.subrange(b as int, e as int);
    assert forall|i: int| 0 <= i < run.len() implies is_digit(#[trigger] run[i]) by {
        lemma_run_digits(s@, b as int, i);
    }
    let mut acc: u128 = 0;
    let mut i = b;
    while i < e
        invariant
            n == s@.len(),
            b <= i <= e <= n,
            run == s@.subrange(b as int, e as int),
            forall|k: int| 0 <= k < run.len() ==> is_digit(#[trigger] run[k]),
            acc as int == if digits_value(s@.subrange(b as int, i as int)) < cap() {
                digits_value(s@.subrange(b as int, i as int))
            } else {
                cap()
            },
        decreases e - i,
    {
        let c = s.get_char(i);
        assert(c == run[i - b]);
        let d: u128 = (c as u32 - 48) as u128;
        proof {
            assert(s@.subrange(b as int, i + 1).drop_last() =~= s@.subrange(b as int, i as int));
            assert(s@.subrange(b as int, i + 1) =~= run.subrange(0, i + 1 - b));
            assert(s@.subrange(b as int, i as int) =~= run.subrange(0, i - b));
            lemma_digits_nonneg(run.subrange(0, i - b));
        }
        acc = if acc >= 0x8000_0000_0000_0000 {
            0x8000_0000_0000_0000
        } else {
            let next = acc * 10 + d;
            if next >= 0x8000_0000_0000_0000 {
                0x8000_0000_0000_0000
            } else {
                next
            }
        };
        i = i + 1;
    }
    let v: i128 = acc as i128;
    if negative {
        (0 - v) as i64
    } else if v > 0x7fff_ffff_ffff_ffff {
        0x7fff_ffff_ffff_ffff
    } else {
        v as i64
    }
}

proof fn lemma_run_digits(s: Seq<char>, b: int, i: int)
    requires
        0 <= b <= s.len(),
        0 <= i < run_from(s, b, true),
    ensures
        is_digit(s[b + i]),
        b + i < s.len(),
    decreases i,
{
    if i > 0 {
        lemma_run_digits(s, b + 1, i - 1);
    }
}

proof fn lemma_dash_m_step(s: Seq<char>, i: int)
    requires
        0 <= i,
        i + 1 < s.len(),
        !(s[i] == '-' && s[i + 1] == 'M'),
    ensures
        dash_m_from(s, i) == dash_m_from(s, i + 1),
{
}

/// `SUBSTR(id, INSTR(id, '-M') + 2)`.
pub fn id_suffix(id: &str) -> (r: &str)
    ensures
        r@ == member_suffix(id@),
{
    let n = id.unicode_len();
    if n < 2 {
        if n >= 1 {
            return id.substring_char(1, n);
        } else {
            return id.substring_char(0, 0);
        }
    }
    let mut i: usize = 0;
    while i < n - 1 && !(id.get_char(i) == '-' && id.get_char(i + 1) == 'M')
        invariant
            n == id@.len(),
            n >= 2,
            i <= n - 1,
            dash_m_from(id@, 0) == dash_m_from(id@, i as int),
        decreases n - i,
    {
        proof {
            lemma_dash_m_step(id@, i as int);
        }
        i = i + 1;
    }
    if i < n - 1 {
        id.substring_char(i + 2, n)
    } else if n >= 1 {
        id.substring_char(1, n)
    } else {
        id.substring_char(0, 0)
    }
}

/// `MAX` of the members' numbers, zero when there are no members.
fn max_number(members: &Vec<Member>) -> (r: i64)
    ensures
        r == max_member_number(members@),
{
    let n = members.len();
    let mut best: i64 = 0;
    let mut i: usize = 0;
    while i < n
        invariant
            n == members@.len(),
            i <= n,
            best == max_member_number(members@.subrange(0, i as int)),
        decreases n - i,
    {
        let x = text_to_integer(id_suffix(members[i].id.as_str()));
        proof {
            assert(members@.subrange(0, i + 1).drop_last() =~= members@.subrange(0, i as int));
        }
        if i == 0 || x > best {
            best = x;
        }
        i = i + 1;
    }
    proof {
        assert(members@.subrange(0, n as int) =~= members@);
    }
    best
}

fn member_number_used(ledger: &Ledger, number: &str) -> (r: bool)
    ensures
        r == member_number_taken(*ledger, number@),
{
    let wanted = trim(number);
    let n = ledger.members.len();
    let mut i: usize = 0;
    while i < n
        invariant
            n == ledger.members@.len(),
            i <= n,
            wanted@ == trimmed(number@),
            forall|j: int|
                0 <= j < i ==> upper_text(ledger.members@[j].member_number@) != upper_text(
                    trimmed(number@),
                ),
        decreases n - i,
    {
        if same_text_upper(ledger.members[i].member_number.as_str(), wanted.as_str()) {
            return true;
        }
        i = i + 1;
    }
    false
}

fn account_id(member_id: &str, kind: SavingsAccountType) -> (r: String)
    ensures
        r@ == account_id_for(member_id@, kind),
{
    let mut s = text("SA-");
    append(&mut s, member_id);
    append(&mut s, "-");
    append(&mut s, kind.as_str());
    s
}

pub(crate) fn opening(member_id: &String, kind: SavingsAccountType, balance: i64) -> (r: SavingsAccount)
    ensures
        r.facts() == opening_account(member_id@, kind, balance),
{
    SavingsAccount {
        id: account_id(member_id.as_str(), kind),
        member_id: member_id.clone(),
        account_type: text(kind.as_str()),
        balance,
        status: text(SavingsAccountStatus::Active.as_str()),
    }
}

/// Admits a member: the member, their three savings accounts, and the deposit
/// of their principal savings.
pub fn add_member(ledger: &mut Ledger, input: &AddMemberInput, ids: &mut IdSource) -> (r: Result<
    (),
    String,
>)
    requires
        old(ledger).wf(),
    ensures
        final(ledger).wf(),
        match member_rejection(*old(ledger), *input, *old(ids)) {
            Some(m) => r matches Err(e) && e@ == m && *final(ledger) == *old(ledger),
            None => r is Ok && member_added(*old(ledger), *final(ledger), *input, *old(ids)),
        },
        *final(ids) == if member_early_rejection(*old(ledger), *input) is None {
            old(ids).advanced()
        } else {
            *old(ids)
        },
{
    if is_blank(input.name.as_str()) || is_blank(input.member_number.as_str()) {
        return Err(text("Nama dan nomor anggota wajib diisi."));
    }
    if input.principal_savings < 50_000 {
        return Err(text("Simpanan pokok minimal Rp50.000."));
    }
    let period = business_period(input.business_date.as_str())?;
    if ledger.is_period_locked(period) {
        return Err(text("Periode transaksi sudah dikunci."));
    }
    if member_number_used(ledger, input.member_number.as_str()) {
        return Err(text("Nomor anggota sudah digunakan."));
    }
    let max = max_number(&ledger.members);
    if max == i64::MAX {
        return Err(text("Nomor anggota berikutnya di luar rentang."));
    }
    let next = max + 1;
    let mut id = ledger.company_id.clone();
    append(&mut id, "-M");
    push_zero_padded(&mut id, next, 3);
    let principal_id = account_id(id.as_str(), SavingsAccountType::Principal);
    if ledger.member_id_taken(id.as_str()) {
        return Err(crate::ledger::duplicate_key("members", "id"));
    }
    if ledger.account_id_taken(principal_id.as_str()) || ledger.account_id_taken(
        account_id(id.as_str(), SavingsAccountType::Mandatory).as_str(),
    ) || ledger.account_id_taken(
        account_id(id.as_str(), SavingsAccountType::Voluntary).as_str(),
    ) {
        return Err(crate::ledger::duplicate_key("savings_accounts", "id"));
    }
    let transaction_id = ids.fresh("SAV-IN");
    if ledger.find_transaction(transaction_id.as_str()).is_some() {
        return Err(crate::ledger::duplicate_key("transactions", "id"));
    }
    let name = trim(input.name.as_str());
    let mut reference = text("KBS/SAV/");
    append(&mut reference, transaction_id.as_str());
    let mut components: Vec<Component> = Vec::new();
    components.push(
        Component {
            component_type: text("SAVINGS_DEPOSIT"),
            label: text("Setoran simpanan pokok"),
            amount: input.principal_savings,
            loan_id: None,
            savings_account_id: Some(principal_id),
        },
    );
    let ghost before = *ledger;
    ledger.members.push(
        Member {
            id: id.clone(),
            member_number: trim(input.member_number.as_str()),
            name: name.clone(),
            joined_at: trim(input.joined_at.as_str()),
            status: text(MemberStatus::Active.as_str()),
        },
    );
    ledger.accounts.push(opening(&id, SavingsAccountType::Principal, input.principal_savings));
    ledger.accounts.push(opening(&id, SavingsAccountType::Mandatory, 0));
    ledger.accounts.push(opening(&id, SavingsAccountType::Voluntary, 0));
    ledger.transactions.push(
        Transaction {
            id: transaction_id.clone(),
            business_date: input.business_date.clone(),
            display_date: input.display_date.clone(),
            display_time: input.display_time.clone(),
            member_id: Some(id.clone()),
            member_name: name,
            transaction_type: text("SAVINGS_DEPOSIT"),
            description: text("Setoran simpanan pokok"),
            reference: reference.clone(),
            direction: text(TransactionDirection::In.as_str()),
            amount: input.principal_savings,
            status: text(TransactionStatus::Posted.as_str()),
            reversed_transaction_id: None,
            actor: text("Aplikasi lokal"),
            components,
        },
    );
    ledger.cash_postings.push(
        CashPosting {
            transaction_id: transaction_id.clone(),
            direction: text(TransactionDirection::In.as_str()),
            amount: input.principal_savings,
        },
    );
    ledger.audit_events.push(
        AuditEvent {
            entity_type: text("TRANSACTION"),
            entity_id: transaction_id,
            action: text("POSTED"),
            before: None,
            after: AuditPayload::SavingsPosted {
                movement: text(SavingsMovement::Deposit.as_str()),
                account_type: text(SavingsAccountType::Principal.as_str()),
                amount: input.principal_savings,
                reference,
            },
            actor: text("Aplikasi lokal"),
        },
    );
    ledger.audit_events.push(
        AuditEvent {
            entity_type: text("MEMBER"),
            entity_id: id,
            action: text("CREATED"),
            before: None,
            after: AuditPayload::MemberCreated {
                name: input.name.clone(),
                member_number: input.member_number.clone(),
                principal_savings: input.principal_savings,
            },
            actor: text("Aplikasi lokal"),
        },
    );
    proof {
        assert(ledger.members@.subrange(0, before.members@.len() as int) =~= before.members@);
        assert(ledger.transactions@.subrange(0, before.transactions@.len() as int)
            =~= before.transactions@);
        assert(ledger.cash_postings@.subrange(0, before.cash_postings@.len() as int)
            =~= before.cash_postings@);
        assert(ledger.audit_events@.subrange(0, before.audit_events@.len() as int)
            =~= before.audit_events@);
        let nid = new_member_id(before);
        assert(ledger.account_table() =~= before.account_table() + seq![
            opening_account(nid, SavingsAccountType::Principal, input.principal_savings),
            opening_account(nid, SavingsAccountType::Mandatory, 0),
            opening_account(nid, SavingsAccountType::Voluntary, 0),
        ]);
        reveal_strlit("POKOK");
        reveal_strlit("WAJIB");
        reveal_strlit("MANASUKA");
        let pa = account_id_for(nid, SavingsAccountType::Principal);
        let ma = account_id_for(nid, SavingsAccountType::Mandatory);
        let va = account_id_for(nid, SavingsAccountType::Voluntary);
        assert(pa.len() != ma.len() || pa != ma) by {
            assert("POKOK"@.len() == "WAJIB"@.len());
            assert(pa[pa.len() - 1] != ma[ma.len() - 1]);
        }
        assert(pa != va) by {
            assert(pa.len() != va.len());
        }
        assert(ma != va) by {
            assert(ma.len() != va.len());
        }
        assert forall|i: int, j: int|
            0 <= i < j < ledger.accounts@.len() implies ledger.accounts@[i].id@
            != ledger.accounts@[j].id@ by {
            let n = before.accounts@.len();
            if j >= n && i < n {
                assert(ledger.accounts@[i].id@ == before.accounts@[i].id@);
            }
            if i < n && j < n {
                assert(before.accounts@[i].id@ != before.accounts@[j].id@);
            }
        }
        assert forall|i: int, j: int|
            0 <= i < j < ledger.members@.len() implies ledger.members@[i].id@
            != ledger.members@[j].id@ by {
            if j == before.members@.len() {
                assert(before.members@[i].id@ != nid);
            }
        }
        assert forall|i: int, j: int|
            0 <= i < j < ledger.transactions@.len() implies ledger.transactions@[i].id@
            != ledger.transactions@[j].id@ by {
            if j == before.transactions@.len() {
                assert(before.transactions@[i].id@ != old(ids).peek("SAV-IN"@));
            }
        }
    }
    Ok(())
}

} // verus!
