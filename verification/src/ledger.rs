//! The books of one company: members, savings accounts, loans, transactions
//! with their components, cash postings, accounting periods and the audit trail.
//! Text columns are kept as stored, so that every rule reads them as the
//! storage holds them.

use vstd::prelude::*;

use crate::domain::{id_text, MemberStatus, PeriodStatus};
use crate::text::{same_text, text};

verus! {

pub struct Member {
    pub id: String,
    pub member_number: String,
    pub name: String,
    pub joined_at: String,
    pub status: String,
}

pub struct SavingsAccount {
    pub id: String,
    pub member_id: String,
    pub account_type: String,
    pub balance: i64,
    pub status: String,
}

pub struct Loan {
    pub id: String,
    pub member_id: Option<String>,
    pub member_name: String,
    pub plafond: i64,
    pub balance: i64,
    /// Annual rate in percent, as the bit pattern of the stored floating-point value.
    pub rate_bits: u64,
    pub tenor: i64,
    pub interest_type: String,
    pub realization_date: String,
    pub due_date: String,
    pub status: String,
}

pub struct Component {
    pub component_type: String,
    pub label: String,
    pub amount: i64,
    pub loan_id: Option<String>,
    pub savings_account_id: Option<String>,
}

pub struct Transaction {
    pub id: String,
    pub business_date: String,
    pub display_date: String,
    pub display_time: String,
    pub member_id: Option<String>,
    pub member_name: String,
    pub transaction_type: String,
    pub description: String,
    pub reference: String,
    pub direction: String,
    pub amount: i64,
    pub status: String,
    pub reversed_transaction_id: Option<String>,
    pub actor: String,
    pub components: Vec<Component>,
}

pub struct CashPosting {
    pub transaction_id: String,
    pub direction: String,
    pub amount: i64,
}

pub struct Period {
    pub period: String,
    pub status: String,
}

/// What an audit event records of the entity, before or after the change.
pub enum AuditPayload {
    SavingsPosted { movement: String, account_type: String, amount: i64, reference: String },
    MemberCreated { name: String, member_number: String, principal_savings: i64 },
    PaymentPosted { amount: i64, reference: String },
    LoanDrafted { member_id: String, plafond: i64, tenor: i64, interest_type: String },
    LoanDisbursed { plafond: i64, provision: i64, due_date: String },
    Status { status: String },
    Reversed { status: String, reversal_id: String },
}

pub struct AuditEvent {
    pub entity_type: String,
    pub entity_id: String,
    pub action: String,
    pub before: Option<AuditPayload>,
    pub after: AuditPayload,
    pub actor: String,
}

/// The books of one company. `audit_events` holds the events written since
/// the books were read.
pub struct Ledger {
    pub company_id: String,
    pub members: Vec<Member>,
    pub accounts: Vec<SavingsAccount>,
    pub loans: Vec<Loan>,
    pub transactions: Vec<Transaction>,
    pub cash_postings: Vec<CashPosting>,
    pub periods: Vec<Period>,
    pub audit_events: Vec<AuditEvent>,
}

/// Name under which the application records its own postings.
pub open spec fn local_actor() -> Seq<char> {
    "Aplikasi lokal"@
}

pub open spec fn locked_message() -> Seq<char> {
    "Periode transaksi sudah dikunci."@
}

pub open spec fn member_missing_message() -> Seq<char> {
    "Anggota aktif tidak ditemukan."@
}

pub open spec fn duplicate_reference_message() -> Seq<char> {
    "Nomor referensi sudah pernah diposting."@
}

/// The storage's answer to a lookup that must find a row and finds none.
pub open spec fn row_not_found_message() -> Seq<char> {
    "no rows returned by a query that expected to return at least one row"@
}

/// The storage's refusal of a row whose key, the company with `column` of
/// `table`, is already taken.
pub open spec fn duplicate_key_message(table: Seq<char>, column: Seq<char>) -> Seq<char> {
    "error returned from database: (code: 1555) UNIQUE constraint failed: "@ + table
        + ".company_id, "@ + table + "."@ + column
}

pub open spec fn some_text(o: Option<String>) -> Option<Seq<char>> {
    match o {
        Some(s) => Some(s@),
        None => None,
    }
}

impl Ledger {
    /// Keys are unique within each table, as the storage's primary keys make them.
    pub open spec fn wf(&self) -> bool {
        &&& forall|i: int, j: int|
            0 <= i < j < self.members@.len() ==> self.members@[i].id@ != self.members@[j].id@
        &&& forall|i: int, j: int|
            0 <= i < j < self.accounts@.len() ==> self.accounts@[i].id@
                != self.accounts@[j].id@
        &&& forall|i: int, j: int|
            0 <= i < j < self.loans@.len() ==> self.loans@[i].id@ != self.loans@[j].id@
        &&& forall|i: int, j: int|
            0 <= i < j < self.transactions@.len() ==> self.transactions@[i].id@
                != self.transactions@[j].id@
    }

    pub open spec fn period_locked(&self, period: Seq<char>) -> bool {
        exists|i: int|
            0 <= i < self.periods@.len() && self.periods@[i].period@ == period
                && self.periods@[i].status@ == PeriodStatus::Locked.text()
    }

    pub open spec fn is_active_member(&self, i: int, id: Seq<char>) -> bool {
        self.members@[i].id@ == id && self.members@[i].status@ == MemberStatus::Active.text()
    }

    pub open spec fn has_active_member(&self, id: Seq<char>) -> bool {
        exists|i: int| 0 <= i < self.members@.len() && self.is_active_member(i, id)
    }

    pub open spec fn is_account_of(&self, i: int, member_id: Seq<char>, kind: Seq<char>) -> bool {
        self.accounts@[i].member_id@ == member_id && self.accounts@[i].account_type@ == kind
    }

    pub open spec fn has_account(&self, member_id: Seq<char>, kind: Seq<char>) -> bool {
        exists|i: int| 0 <= i < self.accounts@.len() && self.is_account_of(i, member_id, kind)
    }

    /// The first account of the member with that type, when there is one.
    pub open spec fn first_account(&self, i: int, member_id: Seq<char>, kind: Seq<char>) -> bool {
        &&& 0 <= i < self.accounts@.len()
        &&& self.is_account_of(i, member_id, kind)
        &&& forall|j: int| 0 <= j < i ==> !self.is_account_of(j, member_id, kind)
    }

    pub open spec fn has_reference(&self, reference: Seq<char>) -> bool {
        exists|i: int|
            0 <= i < self.transactions@.len() && self.transactions@[i].reference@ == reference
    }

    pub open spec fn has_transaction_id(&self, id: Seq<char>) -> bool {
        exists|i: int| 0 <= i < self.transactions@.len() && self.transactions@[i].id@ == id
    }

    pub open spec fn has_member_id(&self, id: Seq<char>) -> bool {
        exists|i: int| 0 <= i < self.members@.len() && self.members@[i].id@ == id
    }

    pub open spec fn has_account_id(&self, id: Seq<char>) -> bool {
        exists|i: int| 0 <= i < self.accounts@.len() && self.accounts@[i].id@ == id
    }

    pub open spec fn has_loan_id(&self, id: Seq<char>) -> bool {
        exists|i: int| 0 <= i < self.loans@.len() && self.loans@[i].id@ == id
    }

    /// A period is locked when a row marks it `LOCKED`.
    pub fn is_period_locked(&self, period: &str) -> (r: bool)
        ensures
            r == self.period_locked(period@),
    {
        let n = self.periods.len();
        let mut i: usize = 0;
        while i < n
            invariant
                n == self.periods@.len(),
                i <= n,
                forall|j: int|
                    0 <= j < i ==> !(self.periods@[j].period@ == period@
                        && self.periods@[j].status@ == PeriodStatus::Locked.text()),
            decreases n - i,
        {
            if same_text(self.periods[i].period.as_str(), period) && same_text(
                self.periods[i].status.as_str(),
                PeriodStatus::Locked.as_str(),
            ) {
                return true;
            }
            i = i + 1;
        }
        false
    }

    /// Index of the first active member with that id.
    pub fn find_active_member(&self, id: &str) -> (r: Option<usize>)
        ensures
            r matches Some(i) ==> i < self.members@.len() && self.is_active_member(i as int, id@),
            r is None ==> !self.has_active_member(id@),
    {
        let n = self.members.len();
        let mut i: usize = 0;
        while i < n
            invariant
                n == self.members@.len(),
                i <= n,
                forall|j: int| 0 <= j < i ==> !self.is_active_member(j, id@),
            decreases n - i,
        {
            if same_text(self.members[i].id.as_str(), id) && same_text(
                self.members[i].status.as_str(),
                MemberStatus::Active.as_str(),
            ) {
                return Some(i);
            }
            i = i + 1;
        }
        None
    }

    /// Index of the first account of the member with that type.
    pub fn find_account(&self, member_id: &str, kind: &str) -> (r: Option<usize>)
        ensures
            r matches Some(i) ==> self.first_account(i as int, member_id@, kind@),
            r is None ==> !self.has_account(member_id@, kind@),
    {
        let n = self.accounts.len();
        let mut i: usize = 0;
        while i < n
            invariant
                n == self.accounts@.len(),
                i <= n,
                forall|j: int| 0 <= j < i ==> !self.is_account_of(j, member_id@, kind@),
            decreases n - i,
        {
            if same_text(self.accounts[i].member_id.as_str(), member_id) && same_text(
                self.accounts[i].account_type.as_str(),
                kind,
            ) {
                return Some(i);
            }
            i = i + 1;
        }
        None
    }

    pub fn reference_taken(&self, reference: &str) -> (r: bool)
        ensures
            r == self.has_reference(reference@),
    {
        let n = self.transactions.len();
        let mut i: usize = 0;
        while i < n
            invariant
                n == self.transactions@.len(),
                i <= n,
                forall|j: int| 0 <= j < i ==> self.transactions@[j].reference@ != reference@,
            decreases n - i,
        {
            if same_text(self.transactions[i].reference.as_str(), reference) {
                return true;
            }
            i = i + 1;
        }
        false
    }

    /// Index of the transaction with that id.
    pub fn find_transaction(&self, id: &str) -> (r: Option<usize>)
        ensures
            r matches Some(i) ==> i < self.transactions@.len() && self.transactions@[i as int].id@
                == id@,
            r is None ==> !self.has_transaction_id(id@),
    {
        let n = self.transactions.len();
        let mut i: usize = 0;
        while i < n
            invariant
                n == self.transactions@.len(),
                i <= n,
                forall|j: int| 0 <= j < i ==> self.transactions@[j].id@ != id@,
            decreases n - i,
        {
            if same_text(self.transactions[i].id.as_str(), id) {
                return Some(i);
            }
            i = i + 1;
        }
        None
    }

    pub fn member_id_taken(&self, id: &str) -> (r: bool)
        ensures
            r == self.has_member_id(id@),
    {
        let n = self.members.len();
        let mut i: usize = 0;
        while i < n
            invariant
                n == self.members@.len(),
                i <= n,
                forall|j: int| 0 <= j < i ==> self.members@[j].id@ != id@,
            decreases n - i,
        {
            if same_text(self.members[i].id.as_str(), id) {
                return true;
            }
            i = i + 1;
        }
        false
    }

    pub fn account_id_taken(&self, id: &str) -> (r: bool)
        ensures
            r == self.has_account_id(id@),
    {
        let n = self.accounts.len();
        let mut i: usize = 0;
        while i < n
            invariant
                n == self.accounts@.len(),
                i <= n,
                forall|j: int| 0 <= j < i ==> self.accounts@[j].id@ != id@,
            decreases n - i,
        {
            if same_text(self.accounts[i].id.as_str(), id) {
                return true;
            }
            i = i + 1;
        }
        false
    }

    /// Index of the loan with that id.
    pub fn find_loan(&self, id: &str) -> (r: Option<usize>)
        ensures
            r matches Some(i) ==> i < self.loans@.len() && self.loans@[i as int].id@ == id@,
            r is None ==> !self.has_loan_id(id@),
    {
        let n = self.loans.len();
        let mut i: usize = 0;
        while i < n
            invariant
                n == self.loans@.len(),
                i <= n,
                forall|j: int| 0 <= j < i ==> self.loans@[j].id@ != id@,
            decreases n - i,
        {
            if same_text(self.loans[i].id.as_str(), id) {
                return Some(i);
            }
            i = i + 1;
        }
        None
    }

    /// Whether the keys of every table are unique.
    pub fn check_wf(&self) -> (r: bool)
        ensures
            r == self.wf(),
    {
        let n = self.members.len();
        let mut i: usize = 0;
        while i < n
            invariant
                n == self.members@.len(),
                i <= n,
                forall|a: int, b: int|
                    0 <= a < b < n && a < i ==> self.members@[a].id@ != self.members@[b].id@,
            decreases n - i,
        {
            let mut j: usize = i + 1;
            while j < n
                invariant
                    n == self.members@.len(),
                    i < n,
                    i + 1 <= j <= n,
                    forall|a: int, b: int|
                        0 <= a < b < n && a < i ==> self.members@[a].id@ != self.members@[b].id@,
                    forall|b: int| i < b < j ==> self.members@[i as int].id@ != self.members@[b].id@,
                decreases n - j,
            {
                if same_text(self.members[i].id.as_str(), self.members[j].id.as_str()) {
                    return false;
                }
                j = j + 1;
            }
            i = i + 1;
        }
        let n = self.accounts.len();
        let mut i: usize = 0;
        while i < n
            invariant
                n == self.accounts@.len(),
                i <= n,
                forall|a: int, b: int|
                    0 <= a < b < n && a < i ==> self.accounts@[a].id@ != self.accounts@[b].id@,
            decreases n - i,
        {
            let mut j: usize = i + 1;
            while j < n
                invariant
                    n == self.accounts@.len(),
                    i < n,
                    i + 1 <= j <= n,
                    forall|a: int, b: int|
                        0 <= a < b < n && a < i ==> self.accounts@[a].id@ != self.accounts@[b].id@,
                    forall|b: int|
                        i < b < j ==> self.accounts@[i as int].id@ != self.accounts@[b].id@,
                decreases n - j,
            {
                if same_text(self.accounts[i].id.as_str(), self.accounts[j].id.as_str()) {
                    return false;
                }
                j = j + 1;
            }
            i = i + 1;
        }
        let n = self.loans.len();
        let mut i: usize = 0;
        while i < n
            invariant
                n == self.loans@.len(),
                i <= n,
                forall|a: int, b: int|
                    0 <= a < b < n && a < i ==> self.loans@[a].id@ != self.loans@[b].id@,
            decreases n - i,
        {
            let mut j: usize = i + 1;
            while j < n
                invariant
                    n == self.loans@.len(),
                    i < n,
                    i + 1 <= j <= n,
                    forall|a: int, b: int|
                        0 <= a < b < n && a < i ==> self.loans@[a].id@ != self.loans@[b].id@,
                    forall|b: int| i < b < j ==> self.loans@[i as int].id@ != self.loans@[b].id@,
                decreases n - j,
            {
                if same_text(self.loans[i].id.as_str(), self.loans[j].id.as_str()) {
                    return false;
                }
                j = j + 1;
            }
            i = i + 1;
        }
        let n = self.transactions.len();
        let mut i: usize = 0;
        while i < n
            invariant
                n == self.transactions@.len(),
                i <= n,
                forall|a: int, b: int|
                    0 <= a < b < n && a < i ==> self.transactions@[a].id@
                        != self.transactions@[b].id@,
            decreases n - i,
        {
            let mut j: usize = i + 1;
            while j < n
                invariant
                    n == self.transactions@.len(),
                    i < n,
                    i + 1 <= j <= n,
                    forall|a: int, b: int|
                        0 <= a < b < n && a < i ==> self.transactions@[a].id@
                            != self.transactions@[b].id@,
                    forall|b: int|
                        i < b < j ==> self.transactions@[i as int].id@
                            != self.transactions@[b].id@,
                decreases n - j,
            {
                if same_text(self.transactions[i].id.as_str(), self.transactions[j].id.as_str()) {
                    return false;
                }
                j = j + 1;
            }
            i = i + 1;
        }
        true
    }
}

/// The storage's refusal of a row whose key is already taken.
pub fn duplicate_key(table: &str, column: &str) -> (r: String)
    ensures
        r@ == duplicate_key_message(table@, column@),
{
    let mut s = text("error returned from database: (code: 1555) UNIQUE constraint failed: ");
    crate::text::append(&mut s, table);
    crate::text::append(&mut s, ".company_id, ");
    crate::text::append(&mut s, table);
    crate::text::append(&mut s, ".");
    crate::text::append(&mut s, column);
    s
}

pub fn clone_opt(o: &Option<String>) -> (r: Option<String>)
    ensures
        r == *o,
{
    match o {
        Some(s) => Some(s.clone()),
        None => None,
    }
}

impl SavingsAccount {
    pub fn copy(&self) -> (r: Self)
        ensures
            r == *self,
    {
        SavingsAccount {
            id: self.id.clone(),
            member_id: self.member_id.clone(),
            account_type: self.account_type.clone(),
            balance: self.balance,
            status: self.status.clone(),
        }
    }
}

impl Loan {
    pub fn copy(&self) -> (r: Self)
        ensures
            r == *self,
    {
        Loan {
            id: self.id.clone(),
            member_id: clone_opt(&self.member_id),
            member_name: self.member_name.clone(),
            plafond: self.plafond,
            balance: self.balance,
            rate_bits: self.rate_bits,
            tenor: self.tenor,
            interest_type: self.interest_type.clone(),
            realization_date: self.realization_date.clone(),
            due_date: self.due_date.clone(),
            status: self.status.clone(),
        }
    }
}

impl Component {
    pub fn copy(&self) -> (r: Self)
        ensures
            r == *self,
    {
        Component {
            component_type: self.component_type.clone(),
            label: self.label.clone(),
            amount: self.amount,
            loan_id: clone_opt(&self.loan_id),
            savings_account_id: clone_opt(&self.savings_account_id),
        }
    }
}

/// Where fresh identifiers come from: one clock reading, in milliseconds since
/// the Unix epoch, and the next number of a sequence that wraps around.
pub struct IdSource {
    pub millis: u128,
    pub next: u64,
}

pub open spec fn next_sequence(n: u64) -> u64 {
    if n == u64::MAX {
        0
    } else {
        (n + 1) as u64
    }
}

impl IdSource {
    /// The identifier that `fresh(prefix)` gives next.
    pub open spec fn peek(self, prefix: Seq<char>) -> Seq<char> {
        id_text(prefix, self.millis as nat, self.next as nat)
    }

    /// The source once one identifier has been drawn.
    pub open spec fn advanced(self) -> IdSource {
        IdSource { millis: self.millis, next: next_sequence(self.next) }
    }

    /// The source once `k` identifiers have been drawn.
    pub open spec fn advanced_by(self, k: nat) -> IdSource
        decreases k,
    {
        if k == 0 {
            self
        } else {
            self.advanced_by((k - 1) as nat).advanced()
        }
    }

    /// A source that stamps identifiers with the current time.
    pub fn now(next: u64) -> (r: IdSource)
        ensures
            r.next == next,
    {
        IdSource { millis: crate::domain::unix_millis(), next }
    }

    /// A fresh identifier for `prefix`.
    pub fn fresh(&mut self, prefix: &str) -> (r: String)
        ensures
            *final(self) == old(self).advanced(),
            r@ == old(self).peek(prefix@),
    {
        let s = self.next;
        self.next = if s == u64::MAX {
            0
        } else {
            s + 1
        };
        crate::domain::timestamp_id_at(prefix, self.millis, s)
    }
}

/// The contents of an audit payload, its texts taken by their characters.
pub enum AuditFacts {
    SavingsPosted { movement: Seq<char>, account_type: Seq<char>, amount: int, reference: Seq<char> },
    MemberCreated { name: Seq<char>, member_number: Seq<char>, principal_savings: int },
    PaymentPosted { amount: int, reference: Seq<char> },
    LoanDrafted { member_id: Seq<char>, plafond: int, tenor: int, interest_type: Seq<char> },
    LoanDisbursed { plafond: int, provision: int, due_date: Seq<char> },
    Status { status: Seq<char> },
    Reversed { status: Seq<char>, reversal_id: Seq<char> },
}

impl AuditPayload {
    pub open spec fn facts(self) -> AuditFacts {
        match self {
            AuditPayload::SavingsPosted { movement, account_type, amount, reference } =>
                AuditFacts::SavingsPosted {
                movement: movement@,
                account_type: account_type@,
                amount: amount as int,
                reference: reference@,
            },
            AuditPayload::MemberCreated { name, member_number, principal_savings } =>
                AuditFacts::MemberCreated {
                name: name@,
                member_number: member_number@,
                principal_savings: principal_savings as int,
            },
            AuditPayload::PaymentPosted { amount, reference } => AuditFacts::PaymentPosted {
                amount: amount as int,
                reference: reference@,
            },
            AuditPayload::LoanDrafted { member_id, plafond, tenor, interest_type } =>
                AuditFacts::LoanDrafted {
                member_id: member_id@,
                plafond: plafond as int,
                tenor: tenor as int,
                interest_type: interest_type@,
            },
            AuditPayload::LoanDisbursed { plafond, provision, due_date } =>
                AuditFacts::LoanDisbursed {
                plafond: plafond as int,
                provision: provision as int,
                due_date: due_date@,
            },
            AuditPayload::Status { status } => AuditFacts::Status { status: status@ },
            AuditPayload::Reversed { status, reversal_id } => AuditFacts::Reversed {
                status: status@,
                reversal_id: reversal_id@,
            },
        }
    }
}

pub open spec fn some_facts(o: Option<AuditPayload>) -> Option<AuditFacts> {
    match o {
        Some(p) => Some(p.facts()),
        None => None,
    }
}

/// A posted transaction with these columns.
pub open spec fn header_is(
    t: Transaction,
    id: Seq<char>,
    business_date: Seq<char>,
    display_date: Seq<char>,
    display_time: Seq<char>,
    member_id: Option<Seq<char>>,
    member_name: Seq<char>,
    transaction_type: Seq<char>,
    description: Seq<char>,
    reference: Seq<char>,
    direction: Seq<char>,
    amount: int,
    reversed_transaction_id: Option<Seq<char>>,
    actor: Seq<char>,
) -> bool {
    &&& t.id@ == id
    &&& t.business_date@ == business_date
    &&& t.display_date@ == display_date
    &&& t.display_time@ == display_time
    &&& some_text(t.member_id) == member_id
    &&& t.member_name@ == member_name
    &&& t.transaction_type@ == transaction_type
    &&& t.description@ == description
    &&& t.reference@ == reference
    &&& t.direction@ == direction
    &&& t.amount == amount
    &&& t.status@ == crate::domain::TransactionStatus::Posted.text()
    &&& some_text(t.reversed_transaction_id) == reversed_transaction_id
    &&& t.actor@ == actor
}

pub open spec fn component_is(
    c: Component,
    component_type: Seq<char>,
    label: Seq<char>,
    amount: int,
    loan_id: Option<Seq<char>>,
    savings_account_id: Option<Seq<char>>,
) -> bool {
    &&& c.component_type@ == component_type
    &&& c.label@ == label
    &&& c.amount == amount
    &&& some_text(c.loan_id) == loan_id
    &&& some_text(c.savings_account_id) == savings_account_id
}

pub open spec fn posting_is(p: CashPosting, transaction_id: Seq<char>, direction: Seq<char>, amount: int) -> bool {
    &&& p.transaction_id@ == transaction_id
    &&& p.direction@ == direction
    &&& p.amount == amount
}

pub open spec fn audit_is(
    e: AuditEvent,
    entity_type: Seq<char>,
    entity_id: Seq<char>,
    action: Seq<char>,
    before: Option<AuditFacts>,
    after: AuditFacts,
) -> bool {
    &&& e.entity_type@ == entity_type
    &&& e.entity_id@ == entity_id
    &&& e.action@ == action
    &&& some_facts(e.before) == before
    &&& e.after.facts() == after
    &&& e.actor@ == local_actor()
}

/// `s` with one more element at its end that satisfies nothing in particular:
/// the prefix is `s`.
pub open spec fn extends_by_one<A>(t: Seq<A>, s: Seq<A>) -> bool {
    t.len() == s.len() + 1 && t.subrange(0, s.len() as int) == s
}

/// An account's columns, texts taken by their characters.
pub struct AccountFacts {
    pub id: Seq<char>,
    pub member_id: Seq<char>,
    pub account_type: Seq<char>,
    pub balance: i64,
    pub status: Seq<char>,
}

/// A loan's columns, texts taken by their characters.
pub struct LoanFacts {
    pub id: Seq<char>,
    pub member_id: Option<Seq<char>>,
    pub member_name: Seq<char>,
    pub plafond: i64,
    pub balance: i64,
    pub rate_bits: u64,
    pub tenor: i64,
    pub interest_type: Seq<char>,
    pub realization_date: Seq<char>,
    pub due_date: Seq<char>,
    pub status: Seq<char>,
}

impl SavingsAccount {
    pub open spec fn facts(self) -> AccountFacts {
        AccountFacts {
            id: self.id@,
            member_id: self.member_id@,
            account_type: self.account_type@,
            balance: self.balance,
            status: self.status@,
        }
    }
}

impl Loan {
    pub open spec fn facts(self) -> LoanFacts {
        LoanFacts {
            id: self.id@,
            member_id: some_text(self.member_id),
            member_name: self.member_name@,
            plafond: self.plafond,
            balance: self.balance,
            rate_bits: self.rate_bits,
            tenor: self.tenor,
            interest_type: self.interest_type@,
            realization_date: self.realization_date@,
            due_date: self.due_date@,
            status: self.status@,
        }
    }
}

pub open spec fn account_facts(s: Seq<SavingsAccount>) -> Seq<AccountFacts> {
    s.map_values(|a: SavingsAccount| a.facts())
}

pub open spec fn loan_facts(s: Seq<Loan>) -> Seq<LoanFacts> {
    s.map_values(|l: Loan| l.facts())
}

impl Ledger {
    pub open spec fn account_table(&self) -> Seq<AccountFacts> {
        account_facts(self.accounts@)
    }

    pub open spec fn loan_table(&self) -> Seq<LoanFacts> {
        loan_facts(self.loans@)
    }
}

/// A component's columns, texts taken by their characters.
pub struct ComponentFacts {
    pub component_type: Seq<char>,
    pub label: Seq<char>,
    pub amount: int,
    pub loan_id: Option<Seq<char>>,
    pub savings_account_id: Option<Seq<char>>,
}

impl Component {
    pub open spec fn facts(self) -> ComponentFacts {
        ComponentFacts {
            component_type: self.component_type@,
            label: self.label@,
            amount: self.amount as int,
            loan_id: some_text(self.loan_id),
            savings_account_id: some_text(self.savings_account_id),
        }
    }
}

pub open spec fn component_facts(s: Seq<Component>) -> Seq<ComponentFacts> {
    s.map_values(|c: Component| c.facts())
}


/// A member's columns, texts taken by their characters.
pub struct MemberFacts {
    pub id: Seq<char>,
    pub member_number: Seq<char>,
    pub name: Seq<char>,
    pub joined_at: Seq<char>,
    pub status: Seq<char>,
}

impl Member {
    pub open spec fn facts(self) -> MemberFacts {
        MemberFacts {
            id: self.id@,
            member_number: self.member_number@,
            name: self.name@,
            joined_at: self.joined_at@,
            status: self.status@,
        }
    }
}

/// A transaction's columns and components, texts taken by their characters.
pub struct TransactionFacts {
    pub id: Seq<char>,
    pub business_date: Seq<char>,
    pub display_date: Seq<char>,
    pub display_time: Seq<char>,
    pub member_id: Option<Seq<char>>,
    pub member_name: Seq<char>,
    pub transaction_type: Seq<char>,
    pub description: Seq<char>,
    pub reference: Seq<char>,
    pub direction: Seq<char>,
    pub amount: i64,
    pub status: Seq<char>,
    pub reversed_transaction_id: Option<Seq<char>>,
    pub actor: Seq<char>,
    pub components: Seq<ComponentFacts>,
}

impl Transaction {
    pub open spec fn facts(self) -> TransactionFacts {
        TransactionFacts {
            id: self.id@,
            business_date: self.business_date@,
            display_date: self.display_date@,
            display_time: self.display_time@,
            member_id: some_text(self.member_id),
            member_name: self.member_name@,
            transaction_type: self.transaction_type@,
            description: self.description@,
            reference: self.reference@,
            direction: self.direction@,
            amount: self.amount,
            status: self.status@,
            reversed_transaction_id: some_text(self.reversed_transaction_id),
            actor: self.actor@,
            components: component_facts(self.components@),
        }
    }
}

pub struct PostingFacts {
    pub transaction_id: Seq<char>,
    pub direction: Seq<char>,
    pub amount: i64,
}

impl CashPosting {
    pub open spec fn facts(self) -> PostingFacts {
        PostingFacts {
            transaction_id: self.transaction_id@,
            direction: self.direction@,
            amount: self.amount,
        }
    }
}

pub struct PeriodFacts {
    pub period: Seq<char>,
    pub status: Seq<char>,
}

impl Period {
    pub open spec fn facts(self) -> PeriodFacts {
        PeriodFacts { period: self.period@, status: self.status@ }
    }
}

impl Ledger {
    pub open spec fn member_table(&self) -> Seq<MemberFacts> {
        self.members@.map_values(|m: Member| m.facts())
    }

    pub open spec fn transaction_table(&self) -> Seq<TransactionFacts> {
        self.transactions@.map_values(|t: Transaction| t.facts())
    }

    pub open spec fn posting_table(&self) -> Seq<PostingFacts> {
        self.cash_postings@.map_values(|p: CashPosting| p.facts())
    }

    pub open spec fn period_table(&self) -> Seq<PeriodFacts> {
        self.periods@.map_values(|p: Period| p.facts())
    }
}

} // verus!
