//! The snapshot that the application shows: members with their savings and
//! loan balances, the loans, the latest transactions, and the totals.

use vstd::prelude::*;

use crate::domain::{
    invalid_value, InterestType, LoanStatus, MemberStatus, SavingsAccountType,
    TransactionDirection, TransactionStatus,
};
use crate::laws::signed_amount;
use crate::ledger::{some_text, CashPosting, Ledger, Loan, Member, SavingsAccount};
use crate::order::{key_facts, key_order, sort_keys, KeyFacts, SortKey};
use crate::text::{same_text, text};

verus! {

pub struct MemberDto {
    pub id: String,
    pub member_number: String,
    pub name: String,
    pub joined_at: String,
    pub status: String,
    pub savings: i64,
    pub principal_savings: i64,
    pub mandatory_savings: i64,
    pub voluntary_savings: i64,
    pub loan_balance: i64,
}

pub struct LoanDto {
    pub id: String,
    pub member_id: String,
    pub member_name: String,
    pub plafond: i64,
    pub balance: i64,
    /// Annual rate in percent, as the bit pattern of the stored floating-point value.
    pub rate_bits: u64,
    pub tenor: i64,
    pub interest_type: String,
    pub realization_date: String,
    pub due_date: String,
    pub status: String,
}

pub struct ComponentDto {
    pub label: String,
    pub amount: i64,
}

pub struct TransactionDto {
    pub id: String,
    pub date: String,
    pub time: String,
    pub member_name: String,
    pub description: String,
    pub reference: String,
    pub direction: String,
    pub amount: i64,
    pub status: String,
    pub components: Vec<ComponentDto>,
    pub actor: String,
}

pub struct TotalsDto {
    pub cash: i64,
    pub savings: i64,
    pub loan_portfolio: i64,
    pub members: i64,
}

pub struct AppSnapshot {
    pub members: Vec<MemberDto>,
    pub loans: Vec<LoanDto>,
    pub transactions: Vec<TransactionDto>,
    pub totals: TotalsDto,
}

/// The storage's answer when a sum leaves the range of a 64-bit integer.
pub open spec fn overflow_message() -> Seq<char> {
    "error returned from database: (code: 1) integer overflow"@
}

// ---------------------------------------------------------------------------
// Sums

pub open spec fn total(s: Seq<int>) -> int
    decreases s.len(),
{
    if s.len() == 0 {
        0
    } else {
        total(s.drop_last()) + s.last()
    }
}

/// Every running total of `s`, taken in order, fits a 64-bit integer.
pub open spec fn in_range(s: Seq<int>) -> bool {
    forall|k: int| 0 <= k <= s.len() ==> i64::MIN <= #[trigger] total(s.take(k)) <= i64::MAX
}

/// Balances of the accounts that belong to `member` (any member when `None`)
/// and have type `kind` (any type when `None`); other accounts count zero.
pub open spec fn balance_terms(
    accounts: Seq<SavingsAccount>,
    member: Option<Seq<char>>,
    kind: Option<Seq<char>>,
) -> Seq<int> {
    Seq::new(
        accounts.len(),
        |i: int|
            if (member is None || accounts[i].member_id@ == member.unwrap()) && (kind is None
                || accounts[i].account_type@ == kind.unwrap()) {
                accounts[i].balance as int
            } else {
                0
            },
    )
}

/// A loan that the portfolio counts: running or under review.
pub open spec fn in_portfolio(loan: Loan) -> bool {
    loan.status@ == LoanStatus::Active.text() || loan.status@ == LoanStatus::NeedsReview.text()
}

/// Balances of the portfolio's loans of `member` (of every loan when `None`).
pub open spec fn portfolio_terms(loans: Seq<Loan>, member: Option<Seq<char>>) -> Seq<int> {
    Seq::new(
        loans.len(),
        |i: int|
            if in_portfolio(loans[i]) && (member is None || some_text(loans[i].member_id)
                == member) {
                loans[i].balance as int
            } else {
                0
            },
    )
}

pub open spec fn cash_terms(postings: Seq<CashPosting>) -> Seq<int> {
    Seq::new(postings.len(), |i: int| signed_amount(postings[i]))
}

pub open spec fn active_count(members: Seq<Member>) -> int
    decreases members.len(),
{
    if members.len() == 0 {
        0
    } else {
        active_count(members.drop_last()) + if members.last().status@
            == MemberStatus::Active.text() {
            1int
        } else {
            0int
        }
    }
}

proof fn lemma_total_step(s: Seq<int>, k: int)
    requires
        0 <= k < s.len(),
    ensures
        total(s.take(k + 1)) == total(s.take(k)) + s[k],
{
    assert(s.take(k + 1).drop_last() =~= s.take(k));
}

proof fn lemma_take_all(s: Seq<int>)
    ensures
        s.take(s.len() as int) == s,
{
    assert(s.take(s.len() as int) =~= s);
}

/// Sum of the balances of the accounts that `balance_terms` selects, or `None`
/// when a running total leaves the range.
fn sum_balances(accounts: &Vec<SavingsAccount>, member: Option<&str>, kind: Option<&str>) -> (r:
    Option<i64>)
    ensures
        ({
            let s = balance_terms(
                accounts@,
                match member {
                    Some(m) => Some(m@),
                    None => None,
                },
                match kind {
                    Some(k) => Some(k@),
                    None => None,
                },
            );
            &&& r is Some <==> in_range(s)
            &&& r matches Some(v) ==> v == total(s)
        }),
{
    let ghost s = balance_terms(
        accounts@,
        match member {
            Some(m) => Some(m@),
            None => None,
        },
        match kind {
            Some(k) => Some(k@),
            None => None,
        },
    );
    let n = accounts.len();
    let mut acc: i64 = 0;
    let mut i: usize = 0;
    assert(s.take(0) =~= Seq::<int>::empty());
    while i < n
        invariant
            n == accounts@.len(),
            n == s.len(),
            i <= n,
            acc == total(s.take(i as int)),
            forall|k: int| 0 <= k <= i ==> i64::MIN <= #[trigger] total(s.take(k)) <= i64::MAX,
            s == balance_terms(
                accounts@,
                match member {
                    Some(m) => Some(m@),
                    None => None,
                },
                match kind {
                    Some(k) => Some(k@),
                    None => None,
                },
            ),
        decreases n - i,
    {
        let a = &accounts[i];
        let selected = match member {
            Some(m) => same_text(a.member_id.as_str(), m),
            None => true,
        } && match kind {
            Some(k) => same_text(a.account_type.as_str(), k),
            None => true,
        };
        let term: i64 = if selected {
            a.balance
        } else {
            0
        };
        proof {
            lemma_total_step(s, i as int);
            assert(s[i as int] == term);
        }
        match acc.checked_add(term) {
            Some(v) => {
                acc = v;
            },
            None => {
                return None;
            },
        }
        i = i + 1;
    }
    proof {
        lemma_take_all(s);
    }
    Some(acc)
}

/// Sum of the portfolio balances that `portfolio_terms` selects, or `None`
/// when a running total leaves the range.
fn sum_portfolio(loans: &Vec<Loan>, member: Option<&str>) -> (r: Option<i64>)
    ensures
        ({
            let s = portfolio_terms(
                loans@,
                match member {
                    Some(m) => Some(m@),
                    None => None,
                },
            );
            &&& r is Some <==> in_range(s)
            &&& r matches Some(v) ==> v == total(s)
        }),
{
    let ghost s = portfolio_terms(
        loans@,
        match member {
            Some(m) => Some(m@),
            None => None,
        },
    );
    let n = loans.len();
    let mut acc: i64 = 0;
    let mut i: usize = 0;
    assert(s.take(0) =~= Seq::<int>::empty());
    while i < n
        invariant
            n == loans@.len(),
            n == s.len(),
            i <= n,
            acc == total(s.take(i as int)),
            forall|k: int| 0 <= k <= i ==> i64::MIN <= #[trigger] total(s.take(k)) <= i64::MAX,
            s == portfolio_terms(
                loans@,
                match member {
                    Some(m) => Some(m@),
                    None => None,
                },
            ),
        decreases n - i,
    {
        let loan = &loans[i];
        let counted = same_text(loan.status.as_str(), LoanStatus::Active.as_str()) || same_text(
            loan.status.as_str(),
            LoanStatus::NeedsReview.as_str(),
        );
        let owned = match member {
            Some(m) => match &loan.member_id {
                Some(id) => same_text(id.as_str(), m),
                None => false,
            },
            None => true,
        };
        let term: i64 = if counted && owned {
            loan.balance
        } else {
            0
        };
        proof {
            lemma_total_step(s, i as int);
            assert(s[i as int] == term);
        }
        match acc.checked_add(term) {
            Some(v) => {
                acc = v;
            },
            None => {
                return None;
            },
        }
        i = i + 1;
    }
    proof {
        lemma_take_all(s);
    }
    Some(acc)
}

/// The cash book's total, or `None` when a running total leaves the range.
fn sum_cash(postings: &Vec<CashPosting>) -> (r: Option<i64>)
    ensures
        r is Some <==> in_range(cash_terms(postings@)),
        r matches Some(v) ==> v == total(cash_terms(postings@)),
{
    let ghost s = cash_terms(postings@);
    let n = postings.len();
    let mut acc: i64 = 0;
    let mut i: usize = 0;
    assert(s.take(0) =~= Seq::<int>::empty());
    while i < n
        invariant
            n == postings@.len(),
            n == s.len(),
            i <= n,
            s == cash_terms(postings@),
            acc == total(s.take(i as int)),
            forall|k: int| 0 <= k <= i ==> i64::MIN <= #[trigger] total(s.take(k)) <= i64::MAX,
        decreases n - i,
    {
        let p = &postings[i];
        let incoming = same_text(p.direction.as_str(), TransactionDirection::In.as_str());
        let term: i128 = if incoming {
            p.amount as i128
        } else {
            0 - (p.amount as i128)
        };
        proof {
            lemma_total_step(s, i as int);
            assert(s[i as int] == term);
        }
        let next: i128 = acc as i128 + term;
        if next < i64::MIN as i128 || next > i64::MAX as i128 {
            return None;
        }
        acc = next as i64;
        i = i + 1;
    }
    proof {
        lemma_take_all(s);
    }
    Some(acc)
}

/// Number of active members; a count beyond the range of `i64` is cut to its largest value.
fn count_active(members: &Vec<Member>) -> (r: i64)
    ensures
        r == if active_count(members@) > i64::MAX {
            i64::MAX as int
        } else {
            active_count(members@)
        },
{
    let n = members.len();
    let mut count: usize = 0;
    let mut i: usize = 0;
    while i < n
        invariant
            n == members@.len(),
            i <= n,
            count == active_count(members@.subrange(0, i as int)),
            count <= i,
        decreases n - i,
    {
        proof {
            assert(members@.subrange(0, i + 1).drop_last() =~= members@.subrange(0, i as int));
        }
        if same_text(members[i].status.as_str(), MemberStatus::Active.as_str()) {
            count = count + 1;
        }
        i = i + 1;
    }
    proof {
        assert(members@.subrange(0, n as int) =~= members@);
    }
    let wide: u128 = count as u128;
    if wide > 0x7fff_ffff_ffff_ffff {
        0x7fff_ffff_ffff_ffff
    } else {
        wide as i64
    }
}

// ---------------------------------------------------------------------------
// Orders

pub open spec fn member_keys(members: Seq<Member>) -> Seq<KeyFacts> {
    Seq::new(
        members.len(),
        |i: int| KeyFacts { rank: 0, first: members[i].name@, second: Seq::empty(), index: i },
    )
}

/// Members by name; members of the same name in table order.
pub open spec fn member_order(l: Ledger) -> Seq<KeyFacts> {
    member_keys(l.members@).sort_by(key_order())
}

/// Position of a loan status in the loan list: under review, draft, running, the rest.
pub open spec fn status_rank(status: Seq<char>) -> int {
    if status == LoanStatus::NeedsReview.text() {
        0
    } else if status == LoanStatus::Draft.text() {
        1
    } else if status == LoanStatus::Active.text() {
        2
    } else {
        3
    }
}

pub open spec fn loan_keys(loans: Seq<Loan>) -> Seq<KeyFacts> {
    Seq::new(
        loans.len(),
        |i: int|
            KeyFacts {
                rank: status_rank(loans[i].status@),
                first: loans[i].id@,
                second: Seq::empty(),
                index: i,
            },
    )
}

pub open spec fn at_most<A>(s: Seq<A>, n: int) -> Seq<A> {
    if s.len() > n {
        s.take(n)
    } else {
        s
    }
}

/// The first 250 loans by status rank, then by id.
pub open spec fn loan_order(l: Ledger) -> Seq<KeyFacts> {
    at_most(loan_keys(l.loans@).sort_by(key_order()), 250)
}

pub open spec fn transaction_keys(transactions: Seq<crate::ledger::Transaction>) -> Seq<
    KeyFacts,
> {
    Seq::new(
        transactions.len(),
        |i: int|
            KeyFacts {
                rank: 0,
                first: transactions[i].business_date@,
                second: transactions[i].id@,
                index: i,
            },
    )
}

/// The 120 latest transactions: by business date, then by id, from the last.
pub open spec fn transaction_order(l: Ledger) -> Seq<KeyFacts> {
    at_most(transaction_keys(l.transactions@).sort_by(key_order()).reverse(), 120)
}

// ---------------------------------------------------------------------------
// Rows

pub struct MemberRow {
    pub id: Seq<char>,
    pub member_number: Seq<char>,
    pub name: Seq<char>,
    pub joined_at: Seq<char>,
    pub status: Seq<char>,
    pub savings: int,
    pub principal_savings: int,
    pub mandatory_savings: int,
    pub voluntary_savings: int,
    pub loan_balance: int,
}

impl MemberDto {
    pub open spec fn facts(self) -> MemberRow {
        MemberRow {
            id: self.id@,
            member_number: self.member_number@,
            name: self.name@,
            joined_at: self.joined_at@,
            status: self.status@,
            savings: self.savings as int,
            principal_savings: self.principal_savings as int,
            mandatory_savings: self.mandatory_savings as int,
            voluntary_savings: self.voluntary_savings as int,
            loan_balance: self.loan_balance as int,
        }
    }
}

pub open spec fn member_row(l: Ledger, i: int) -> MemberRow {
    let m = l.members@[i];
    MemberRow {
        id: m.id@,
        member_number: m.member_number@,
        name: m.name@,
        joined_at: m.joined_at@,
        status: m.status@,
        savings: total(balance_terms(l.accounts@, Some(m.id@), None)),
        principal_savings: total(
            balance_terms(l.accounts@, Some(m.id@), Some(SavingsAccountType::Principal.text())),
        ),
        mandatory_savings: total(
            balance_terms(l.accounts@, Some(m.id@), Some(SavingsAccountType::Mandatory.text())),
        ),
        voluntary_savings: total(
            balance_terms(l.accounts@, Some(m.id@), Some(SavingsAccountType::Voluntary.text())),
        ),
        loan_balance: total(portfolio_terms(l.loans@, Some(m.id@))),
    }
}

/// The member's sums stay in range.
pub open spec fn member_sums_fit(l: Ledger, i: int) -> bool {
    let m = l.members@[i];
    &&& in_range(balance_terms(l.accounts@, Some(m.id@), None))
    &&& in_range(
        balance_terms(l.accounts@, Some(m.id@), Some(SavingsAccountType::Principal.text())),
    )
    &&& in_range(
        balance_terms(l.accounts@, Some(m.id@), Some(SavingsAccountType::Mandatory.text())),
    )
    &&& in_range(
        balance_terms(l.accounts@, Some(m.id@), Some(SavingsAccountType::Voluntary.text())),
    )
    &&& in_range(portfolio_terms(l.loans@, Some(m.id@)))
}

pub struct LoanRow {
    pub id: Seq<char>,
    pub member_id: Seq<char>,
    pub member_name: Seq<char>,
    pub plafond: int,
    pub balance: int,
    pub rate_bits: u64,
    pub tenor: int,
    pub interest_type: Seq<char>,
    pub realization_date: Seq<char>,
    pub due_date: Seq<char>,
    pub status: Seq<char>,
}

impl LoanDto {
    pub open spec fn facts(self) -> LoanRow {
        LoanRow {
            id: self.id@,
            member_id: self.member_id@,
            member_name: self.member_name@,
            plafond: self.plafond as int,
            balance: self.balance as int,
            rate_bits: self.rate_bits,
            tenor: self.tenor as int,
            interest_type: self.interest_type@,
            realization_date: self.realization_date@,
            due_date: self.due_date@,
            status: self.status@,
        }
    }
}

pub open spec fn loan_row(l: Ledger, i: int) -> LoanRow {
    let loan = l.loans@[i];
    LoanRow {
        id: loan.id@,
        member_id: match some_text(loan.member_id) {
            Some(m) => m,
            None => Seq::empty(),
        },
        member_name: loan.member_name@,
        plafond: loan.plafond as int,
        balance: loan.balance as int,
        rate_bits: loan.rate_bits,
        tenor: loan.tenor as int,
        interest_type: loan.interest_type@,
        realization_date: loan.realization_date@,
        due_date: loan.due_date@,
        status: loan.status@,
    }
}

pub struct TransactionRow {
    pub id: Seq<char>,
    pub date: Seq<char>,
    pub time: Seq<char>,
    pub member_name: Seq<char>,
    pub description: Seq<char>,
    pub reference: Seq<char>,
    pub direction: Seq<char>,
    pub amount: int,
    pub status: Seq<char>,
    pub components: Seq<(Seq<char>, int)>,
    pub actor: Seq<char>,
}

impl TransactionDto {
    pub open spec fn facts(self) -> TransactionRow {
        TransactionRow {
            id: self.id@,
            date: self.date@,
            time: self.time@,
            member_name: self.member_name@,
            description: self.description@,
            reference: self.reference@,
            direction: self.direction@,
            amount: self.amount as int,
            status: self.status@,
            components: self.components@.map_values(
                |c: ComponentDto| (c.label@, c.amount as int),
            ),
            actor: self.actor@,
        }
    }
}

pub open spec fn transaction_row(l: Ledger, i: int) -> TransactionRow {
    let t = l.transactions@[i];
    TransactionRow {
        id: t.id@,
        date: t.display_date@,
        time: t.display_time@,
        member_name: t.member_name@,
        description: t.description@,
        reference: t.reference@,
        direction: t.direction@,
        amount: t.amount as int,
        status: t.status@,
        components: t.components@.map_values(
            |c: crate::ledger::Component| (c.label@, c.amount as int),
        ),
        actor: t.actor@,
    }
}

// ---------------------------------------------------------------------------
// Refusals

/// The first member, in `order`, whose status names no member status.
pub open spec fn member_status_error(l: Ledger, order: Seq<KeyFacts>) -> Option<Seq<char>>
    decreases order.len(),
{
    if order.len() == 0 {
        None
    } else {
        let status = l.members@[order[0].index].status@;
        if MemberStatus::from_text(status) is None {
            Some(invalid_value("MemberStatus"@, status))
        } else {
            member_status_error(l, order.drop_first())
        }
    }
}

/// The first loan, in `order`, whose interest type or status names no value.
pub open spec fn loan_text_error(l: Ledger, order: Seq<KeyFacts>) -> Option<Seq<char>>
    decreases order.len(),
{
    if order.len() == 0 {
        None
    } else {
        let loan = l.loans@[order[0].index];
        if InterestType::from_text(loan.interest_type@) is None {
            Some(invalid_value("InterestType"@, loan.interest_type@))
        } else if LoanStatus::from_text(loan.status@) is None {
            Some(invalid_value("LoanStatus"@, loan.status@))
        } else {
            loan_text_error(l, order.drop_first())
        }
    }
}

/// The first transaction, in `order`, whose direction or status names no value.
pub open spec fn transaction_text_error(l: Ledger, order: Seq<KeyFacts>) -> Option<Seq<char>>
    decreases order.len(),
{
    if order.len() == 0 {
        None
    } else {
        let t = l.transactions@[order[0].index];
        if TransactionDirection::from_text(t.direction@) is None {
            Some(invalid_value("TransactionDirection"@, t.direction@))
        } else if TransactionStatus::from_text(t.status@) is None {
            Some(invalid_value("TransactionStatus"@, t.status@))
        } else {
            transaction_text_error(l, order.drop_first())
        }
    }
}

/// Why the snapshot cannot be read, in the order the reads meet it.
pub open spec fn snapshot_rejection(l: Ledger) -> Option<Seq<char>> {
    if !(forall|i: int| 0 <= i < l.members@.len() ==> member_sums_fit(l, i)) {
        Some(overflow_message())
    } else if member_status_error(l, member_order(l)) is Some {
        member_status_error(l, member_order(l))
    } else if loan_text_error(l, loan_order(l)) is Some {
        loan_text_error(l, loan_order(l))
    } else if transaction_text_error(l, transaction_order(l)) is Some {
        transaction_text_error(l, transaction_order(l))
    } else if !in_range(cash_terms(l.cash_postings@)) {
        Some(overflow_message())
    } else if !in_range(balance_terms(l.accounts@, None, None)) {
        Some(overflow_message())
    } else if !in_range(portfolio_terms(l.loans@, None)) {
        Some(overflow_message())
    } else {
        None
    }
}

/// What the snapshot shows of the books.
pub open spec fn snapshot_of(l: Ledger, s: AppSnapshot) -> bool {
    &&& s.members@.map_values(|m: MemberDto| m.facts()) == member_order(l).map_values(
        |k: KeyFacts| member_row(l, k.index),
    )
    &&& s.loans@.map_values(|d: LoanDto| d.facts()) == loan_order(l).map_values(
        |k: KeyFacts| loan_row(l, k.index),
    )
    &&& s.transactions@.map_values(|d: TransactionDto| d.facts()) == transaction_order(
        l,
    ).map_values(|k: KeyFacts| transaction_row(l, k.index))
    &&& s.totals.cash == total(cash_terms(l.cash_postings@))
    &&& s.totals.savings == total(balance_terms(l.accounts@, None, None))
    &&& s.totals.loan_portfolio == total(portfolio_terms(l.loans@, None))
    &&& s.totals.members == if active_count(l.members@) > i64::MAX {
        i64::MAX as int
    } else {
        active_count(l.members@)
    }
}

// ---------------------------------------------------------------------------
// Reading the snapshot

fn member_key_list(members: &Vec<Member>) -> (r: Vec<SortKey>)
    ensures
        key_facts(r@) == member_keys(members@),
{
    let mut r: Vec<SortKey> = Vec::new();
    let n = members.len();
    let mut i: usize = 0;
    while i < n
        invariant
            n == members@.len(),
            i <= n,
            key_facts(r@) == member_keys(members@).subrange(0, i as int),
        decreases n - i,
    {
        let ghost pre = r@;
        r.push(SortKey { rank: 0, first: members[i].name.clone(), second: String::new(), index: i });
        proof {
            assert(key_facts(r@) =~= key_facts(r@.drop_last()).push(r@.last().facts()));
            assert(r@.drop_last() == pre);
            assert(r@.last().facts() == member_keys(members@)[i as int]);
            assert(key_facts(r@) =~= member_keys(members@).subrange(0, i + 1));
        }
        i = i + 1;
    }
    proof {
        assert(member_keys(members@).subrange(0, n as int) =~= member_keys(members@));
    }
    r
}

fn rank_of(status: &str) -> (r: u64)
    ensures
        r as int == status_rank(status@),
{
    if same_text(status, LoanStatus::NeedsReview.as_str()) {
        0
    } else if same_text(status, LoanStatus::Draft.as_str()) {
        1
    } else if same_text(status, LoanStatus::Active.as_str()) {
        2
    } else {
        3
    }
}

fn loan_key_list(loans: &Vec<Loan>) -> (r: Vec<SortKey>)
    ensures
        key_facts(r@) == loan_keys(loans@),
{
    let mut r: Vec<SortKey> = Vec::new();
    let n = loans.len();
    let mut i: usize = 0;
    while i < n
        invariant
            n == loans@.len(),
            i <= n,
            key_facts(r@) == loan_keys(loans@).subrange(0, i as int),
        decreases n - i,
    {
        let ghost pre = r@;
        r.push(
            SortKey {
                rank: rank_of(loans[i].status.as_str()),
                first: loans[i].id.clone(),
                second: String::new(),
                index: i,
            },
        );
        proof {
            assert(key_facts(r@) =~= key_facts(r@.drop_last()).push(r@.last().facts()));
            assert(r@.drop_last() == pre);
            assert(r@.last().facts() == loan_keys(loans@)[i as int]);
            assert(key_facts(r@) =~= loan_keys(loans@).subrange(0, i + 1));
        }
        i = i + 1;
    }
    proof {
        assert(loan_keys(loans@).subrange(0, n as int) =~= loan_keys(loans@));
    }
    r
}

fn transaction_key_list(transactions: &Vec<crate::ledger::Transaction>) -> (r: Vec<SortKey>)
    ensures
        key_facts(r@) == transaction_keys(transactions@),
{
    let mut r: Vec<SortKey> = Vec::new();
    let n = transactions.len();
    let mut i: usize = 0;
    while i < n
        invariant
            n == transactions@.len(),
            i <= n,
            key_facts(r@) == transaction_keys(transactions@).subrange(0, i as int),
        decreases n - i,
    {
        let ghost pre = r@;
        r.push(
            SortKey {
                rank: 0,
                first: transactions[i].business_date.clone(),
                second: transactions[i].id.clone(),
                index: i,
            },
        );
        proof {
            assert(key_facts(r@) =~= key_facts(r@.drop_last()).push(r@.last().facts()));
            assert(r@.drop_last() == pre);
            assert(r@.last().facts() == transaction_keys(transactions@)[i as int]);
            assert(key_facts(r@) =~= transaction_keys(transactions@).subrange(0, i + 1));
        }
        i = i + 1;
    }
    proof {
        assert(transaction_keys(transactions@).subrange(0, n as int) =~= transaction_keys(
            transactions@,
        ));
    }
    r
}

/// The last `limit` keys, from the last one backwards.
fn last_first(keys: &Vec<SortKey>, limit: usize) -> (r: Vec<SortKey>)
    ensures
        key_facts(r@) == at_most(key_facts(keys@).reverse(), limit as int),
{
    let ghost rev = key_facts(keys@).reverse();
    let n = keys.len();
    let count = if n > limit {
        limit
    } else {
        n
    };
    let mut r: Vec<SortKey> = Vec::new();
    let mut i: usize = 0;
    while i < count
        invariant
            n == keys@.len(),
            count <= n,
            i <= count,
            rev == key_facts(keys@).reverse(),
            key_facts(r@) == rev.subrange(0, i as int),
        decreases count - i,
    {
        let k = &keys[n - 1 - i];
        let ghost pre = r@;
        r.push(
            SortKey {
                rank: k.rank,
                first: k.first.clone(),
                second: k.second.clone(),
                index: k.index,
            },
        );
        proof {
            assert(key_facts(r@) =~= key_facts(r@.drop_last()).push(r@.last().facts()));
            assert(r@.drop_last() == pre);
            assert(r@.last().facts() == rev[i as int]);
            assert(key_facts(r@) =~= rev.subrange(0, i + 1));
        }
        i = i + 1;
    }
    proof {
        if n > limit {
            assert(key_facts(r@) =~= rev.take(limit as int));
        } else {
            assert(key_facts(r@) =~= rev);
        }
    }
    r
}

/// The first `limit` keys.
fn first_ones(keys: Vec<SortKey>, limit: usize) -> (r: Vec<SortKey>)
    ensures
        key_facts(r@) == at_most(key_facts(keys@), limit as int),
{
    let ghost all = keys@;
    let mut keys = keys;
    if keys.len() > limit {
        keys.truncate(limit);
        proof {
            assert(key_facts(keys@) =~= key_facts(all).take(limit as int));
        }
    }
    keys
}

/// The member's five sums, or `None` when one leaves the range.
fn member_totals(l: &Ledger, i: usize) -> (r: Option<(i64, i64, i64, i64, i64)>)
    requires
        i < l.members@.len(),
    ensures
        r is Some <==> member_sums_fit(*l, i as int),
        r matches Some(t) ==> {
            let row = member_row(*l, i as int);
            &&& t.0 == row.savings
            &&& t.1 == row.principal_savings
            &&& t.2 == row.mandatory_savings
            &&& t.3 == row.voluntary_savings
            &&& t.4 == row.loan_balance
        },
{
    let id = l.members[i].id.as_str();
    let savings = sum_balances(&l.accounts, Some(id), None);
    let principal = sum_balances(&l.accounts, Some(id), Some(SavingsAccountType::Principal.as_str()));
    let mandatory = sum_balances(&l.accounts, Some(id), Some(SavingsAccountType::Mandatory.as_str()));
    let voluntary = sum_balances(&l.accounts, Some(id), Some(SavingsAccountType::Voluntary.as_str()));
    let loans = sum_portfolio(&l.loans, Some(id));
    match (savings, principal, mandatory, voluntary, loans) {
        (Some(a), Some(b), Some(c), Some(d), Some(e)) => Some((a, b, c, d, e)),
        _ => None,
    }
}

fn component_rows(cs: &Vec<crate::ledger::Component>) -> (r: Vec<ComponentDto>)
    ensures
        r@.map_values(|c: ComponentDto| (c.label@, c.amount as int)) == cs@.map_values(
            |c: crate::ledger::Component| (c.label@, c.amount as int),
        ),
{
    let mut r: Vec<ComponentDto> = Vec::new();
    let n = cs.len();
    let mut i: usize = 0;
    while i < n
        invariant
            n == cs@.len(),
            i <= n,
            r@.map_values(|c: ComponentDto| (c.label@, c.amount as int)) == cs@.subrange(
                0,
                i as int,
            ).map_values(|c: crate::ledger::Component| (c.label@, c.amount as int)),
        decreases n - i,
    {
        let ghost pre = r@;
        r.push(ComponentDto { label: cs[i].label.clone(), amount: cs[i].amount });
        proof {
            assert(r@.map_values(|c: ComponentDto| (c.label@, c.amount as int)) =~= pre.map_values(
                |c: ComponentDto| (c.label@, c.amount as int),
            ).push((cs@[i as int].label@, cs@[i as int].amount as int)));
            assert(cs@.subrange(0, i + 1).map_values(
                |c: crate::ledger::Component| (c.label@, c.amount as int),
            ) =~= cs@.subrange(0, i as int).map_values(
                |c: crate::ledger::Component| (c.label@, c.amount as int),
            ).push((cs@[i as int].label@, cs@[i as int].amount as int)));
            assert(r@.map_values(|c: ComponentDto| (c.label@, c.amount as int)) =~= cs@.subrange(
                0,
                i + 1,
            ).map_values(|c: crate::ledger::Component| (c.label@, c.amount as int)));
        }
        i = i + 1;
    }
    proof {
        assert(cs@.subrange(0, n as int) =~= cs@);
    }
    r
}

proof fn lemma_keys_in_range(keys: Seq<KeyFacts>, order: Seq<KeyFacts>, n: int)
    requires
        keys.len() == n,
        forall|i: int| 0 <= i < n ==> (#[trigger] keys[i]).index == i,
        forall|q: int| 0 <= q < order.len() ==> keys.contains(#[trigger] order[q]),
    ensures
        forall|q: int| 0 <= q < order.len() ==> 0 <= (#[trigger] order[q]).index < n,
{
    assert forall|q: int| 0 <= q < order.len() implies 0 <= (#[trigger] order[q]).index < n by {
        assert(keys.contains(order[q]));
        let i = choose|i: int| 0 <= i < keys.len() && keys[i] == order[q];
        assert(keys[i].index == i);
    }
}

proof fn lemma_step<A>(order: Seq<A>, k: int)
    requires
        0 <= k < order.len(),
    ensures
        order.subrange(k, order.len() as int).drop_first() == order.subrange(k + 1, order.len() as int),
        order.subrange(k, order.len() as int)[0] == order[k],
        order.subrange(k, order.len() as int).len() > 0,
{
    assert(order.subrange(k, order.len() as int).drop_first() =~= order.subrange(k + 1, order.len() as int));
}

/// Reads the snapshot of the books.
pub fn get_app_snapshot(ledger: &Ledger) -> (r: Result<AppSnapshot, String>)
    ensures
        match snapshot_rejection(*ledger) {
            Some(m) => r matches Err(e) && e@ == m,
            None => r matches Ok(s) && snapshot_of(*ledger, s),
        },
{
    let ghost l = *ledger;
    // Sums of every member, as the member query computes them.
    let n = ledger.members.len();
    let mut sums: Vec<(i64, i64, i64, i64, i64)> = Vec::new();
    let mut i: usize = 0;
    while i < n
        invariant
            l == *ledger,
            n == ledger.members@.len(),
            i <= n,
            sums@.len() == i,
            forall|j: int| 0 <= j < i ==> member_sums_fit(l, j),
            forall|j: int|
                0 <= j < i ==> {
                    let row = member_row(l, j);
                    &&& (#[trigger] sums@[j]).0 == row.savings
                    &&& sums@[j].1 == row.principal_savings
                    &&& sums@[j].2 == row.mandatory_savings
                    &&& sums@[j].3 == row.voluntary_savings
                    &&& sums@[j].4 == row.loan_balance
                },
        decreases n - i,
    {
        match member_totals(ledger, i) {
            Some(t) => {
                sums.push(t);
            },
            None => {
                return Err(text("error returned from database: (code: 1) integer overflow"));
            },
        }
        i = i + 1;
    }
    // Member rows.
    let member_order_keys = sort_keys(member_key_list(&ledger.members));
    let ghost mo = member_order(l);
    proof {
        crate::order::lemma_sorted_from(member_keys(l.members@));
        lemma_keys_in_range(member_keys(l.members@), mo, n as int);
    }
    let mut members: Vec<MemberDto> = Vec::new();
    let mut k: usize = 0;
    let mlen = member_order_keys.len();
    assert(mo.subrange(0, mlen as int) =~= mo);
    while k < mlen
        invariant
            l == *ledger,
            n == ledger.members@.len(),
            sums@.len() == n,
            forall|j: int|
                0 <= j < n ==> {
                    let row = member_row(l, j);
                    &&& (#[trigger] sums@[j]).0 == row.savings
                    &&& sums@[j].1 == row.principal_savings
                    &&& sums@[j].2 == row.mandatory_savings
                    &&& sums@[j].3 == row.voluntary_savings
                    &&& sums@[j].4 == row.loan_balance
                },
            forall|j: int| 0 <= j < n ==> member_sums_fit(l, j),
            mo == member_order(l),
            key_facts(member_order_keys@) == mo,
            mlen == mo.len(),
            forall|q: int| 0 <= q < mo.len() ==> 0 <= (#[trigger] mo[q]).index < n,
            k <= mlen,
            member_status_error(l, mo) == member_status_error(l, mo.subrange(k as int, mlen as int)),
            members@.map_values(|m: MemberDto| m.facts()) == mo.subrange(0, k as int).map_values(
                |q: KeyFacts| member_row(l, q.index),
            ),
        decreases mlen - k,
    {
        proof {
            lemma_step(mo, k as int);
        }
        let idx = member_order_keys[k].index;
        assert(idx as int == mo[k as int].index);
        let m = &ledger.members[idx];
        let status = match MemberStatus::parse(m.status.as_str()) {
            Ok(s) => s,
            Err(e) => {
                return Err(e);
            },
        };
        let t = sums[idx];
        let ghost pre = members@;
        members.push(
            MemberDto {
                id: m.id.clone(),
                member_number: m.member_number.clone(),
                name: m.name.clone(),
                joined_at: m.joined_at.clone(),
                status: text(status.as_str()),
                savings: t.0,
                principal_savings: t.1,
                mandatory_savings: t.2,
                voluntary_savings: t.3,
                loan_balance: t.4,
            },
        );
        proof {
            assert(members@.map_values(|m: MemberDto| m.facts()) =~= pre.map_values(
                |m: MemberDto| m.facts(),
            ).push(members@.last().facts()));
            assert(members@.last().facts() == member_row(l, idx as int));
            assert(mo.subrange(0, k + 1).map_values(|q: KeyFacts| member_row(l, q.index))
                =~= mo.subrange(0, k as int).map_values(|q: KeyFacts| member_row(l, q.index)).push(
                member_row(l, idx as int),
            ));
        }
        k = k + 1;
    }
    proof {
        assert(mo.subrange(0, mlen as int) =~= mo);
        assert(mo.subrange(mlen as int, mlen as int) =~= Seq::<KeyFacts>::empty());
    }
    // Loan rows.
    let loan_order_keys = first_ones(sort_keys(loan_key_list(&ledger.loans)), 250);
    let ghost lo = loan_order(l);
    let ln = ledger.loans.len();
    proof {
        crate::order::lemma_sorted_from(loan_keys(l.loans@));
        let sorted = loan_keys(l.loans@).sort_by(key_order());
        assert forall|q: int| 0 <= q < lo.len() implies loan_keys(l.loans@).contains(#[trigger] lo[q]) by {
            assert(lo[q] == sorted[q]);
        }
        lemma_keys_in_range(loan_keys(l.loans@), lo, ln as int);
    }
    let mut loans: Vec<LoanDto> = Vec::new();
    let mut k: usize = 0;
    let llen = loan_order_keys.len();
    assert(lo.subrange(0, llen as int) =~= lo);
    while k < llen
        invariant
            l == *ledger,
            ln == ledger.loans@.len(),
            forall|j: int| 0 <= j < l.members@.len() ==> member_sums_fit(l, j),
            member_status_error(l, member_order(l)) is None,
            lo == loan_order(l),
            key_facts(loan_order_keys@) == lo,
            llen == lo.len(),
            forall|q: int| 0 <= q < lo.len() ==> 0 <= (#[trigger] lo[q]).index < ln,
            k <= llen,
            loan_text_error(l, lo) == loan_text_error(l, lo.subrange(k as int, llen as int)),
            loans@.map_values(|d: LoanDto| d.facts()) == lo.subrange(0, k as int).map_values(
                |q: KeyFacts| loan_row(l, q.index),
            ),
        decreases llen - k,
    {
        proof {
            lemma_step(lo, k as int);
        }
        let idx = loan_order_keys[k].index;
        assert(idx as int == lo[k as int].index);
        let loan = &ledger.loans[idx];
        let interest_type = match InterestType::parse(loan.interest_type.as_str()) {
            Ok(t) => t,
            Err(e) => {
                return Err(e);
            },
        };
        let status = match LoanStatus::parse(loan.status.as_str()) {
            Ok(s) => s,
            Err(e) => {
                return Err(e);
            },
        };
        let ghost pre = loans@;
        loans.push(
            LoanDto {
                id: loan.id.clone(),
                member_id: match &loan.member_id {
                    Some(m) => m.clone(),
                    None => String::new(),
                },
                member_name: loan.member_name.clone(),
                plafond: loan.plafond,
                balance: loan.balance,
                rate_bits: loan.rate_bits,
                tenor: loan.tenor,
                interest_type: text(interest_type.as_str()),
                realization_date: loan.realization_date.clone(),
                due_date: loan.due_date.clone(),
                status: text(status.as_str()),
            },
        );
        proof {
            assert(loans@.map_values(|d: LoanDto| d.facts()) =~= pre.map_values(
                |d: LoanDto| d.facts(),
            ).push(loans@.last().facts()));
            assert(loans@.last().facts() == loan_row(l, idx as int));
            assert(lo.subrange(0, k + 1).map_values(|q: KeyFacts| loan_row(l, q.index))
                =~= lo.subrange(0, k as int).map_values(|q: KeyFacts| loan_row(l, q.index)).push(
                loan_row(l, idx as int),
            ));
        }
        k = k + 1;
    }
    proof {
        assert(lo.subrange(0, llen as int) =~= lo);
        assert(lo.subrange(llen as int, llen as int) =~= Seq::<KeyFacts>::empty());
    }
    // Transaction rows.
    let transaction_order_keys = last_first(&sort_keys(transaction_key_list(&ledger.transactions)), 120);
    let ghost to = transaction_order(l);
    let tn = ledger.transactions.len();
    proof {
        crate::order::lemma_sorted_from(transaction_keys(l.transactions@));
        let sorted = transaction_keys(l.transactions@).sort_by(key_order());
        assert forall|q: int| 0 <= q < to.len() implies transaction_keys(l.transactions@).contains(#[trigger] to[q]) by {
            assert(to[q] == sorted.reverse()[q]);
            assert(sorted.reverse()[q] == sorted[sorted.len() - 1 - q]);
        }
        lemma_keys_in_range(transaction_keys(l.transactions@), to, tn as int);
    }
    let mut transactions: Vec<TransactionDto> = Vec::new();
    let mut k: usize = 0;
    let tlen = transaction_order_keys.len();
    assert(to.subrange(0, tlen as int) =~= to);
    while k < tlen
        invariant
            l == *ledger,
            tn == ledger.transactions@.len(),
            forall|j: int| 0 <= j < l.members@.len() ==> member_sums_fit(l, j),
            member_status_error(l, member_order(l)) is None,
            loan_text_error(l, loan_order(l)) is None,
            to == transaction_order(l),
            key_facts(transaction_order_keys@) == to,
            tlen == to.len(),
            forall|q: int| 0 <= q < to.len() ==> 0 <= (#[trigger] to[q]).index < tn,
            k <= tlen,
            transaction_text_error(l, to) == transaction_text_error(l, to.subrange(k as int, tlen as int)),
            transactions@.map_values(|d: TransactionDto| d.facts()) == to.subrange(0, k as int).map_values(
                |q: KeyFacts| transaction_row(l, q.index),
            ),
        decreases tlen - k,
    {
        proof {
            lemma_step(to, k as int);
        }
        let idx = transaction_order_keys[k].index;
        assert(idx as int == to[k as int].index);
        let t = &ledger.transactions[idx];
        let direction = match TransactionDirection::parse(t.direction.as_str()) {
            Ok(d) => d,
            Err(e) => {
                return Err(e);
            },
        };
        let status = match TransactionStatus::parse(t.status.as_str()) {
            Ok(s) => s,
            Err(e) => {
                return Err(e);
            },
        };
        let ghost pre = transactions@;
        transactions.push(
            TransactionDto {
                id: t.id.clone(),
                date: t.display_date.clone(),
                time: t.display_time.clone(),
                member_name: t.member_name.clone(),
                description: t.description.clone(),
                reference: t.reference.clone(),
                direction: text(direction.as_str()),
                amount: t.amount,
                status: text(status.as_str()),
                components: component_rows(&t.components),
                actor: t.actor.clone(),
            },
        );
        proof {
            assert(transactions@.map_values(|d: TransactionDto| d.facts()) =~= pre.map_values(
                |d: TransactionDto| d.facts(),
            ).push(transactions@.last().facts()));
            assert(transactions@.last().facts() == transaction_row(l, idx as int));
            assert(to.subrange(0, k + 1).map_values(|q: KeyFacts| transaction_row(l, q.index))
                =~= to.subrange(0, k as int).map_values(|q: KeyFacts| transaction_row(l, q.index)).push(
                transaction_row(l, idx as int),
            ));
        }
        k = k + 1;
    }
    proof {
        assert(to.subrange(0, tlen as int) =~= to);
        assert(to.subrange(tlen as int, tlen as int) =~= Seq::<KeyFacts>::empty());
    }
    // Totals.
    let cash = match sum_cash(&ledger.cash_postings) {
        Some(v) => v,
        None => {
            return Err(text("error returned from database: (code: 1) integer overflow"));
        },
    };
    let savings = match sum_balances(&ledger.accounts, None, None) {
        Some(v) => v,
        None => {
            return Err(text("error returned from database: (code: 1) integer overflow"));
        },
    };
    let loan_portfolio = match sum_portfolio(&ledger.loans, None) {
        Some(v) => v,
        None => {
            return Err(text("error returned from database: (code: 1) integer overflow"));
        },
    };
    let member_count = count_active(&ledger.members);
    Ok(
        AppSnapshot {
            members,
            loans,
            transactions,
            totals: TotalsDto { cash, savings, loan_portfolio, members: member_count },
        },
    )
}

} // verus!
