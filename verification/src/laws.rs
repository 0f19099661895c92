//! Properties that hold across the use cases: what a reversal undoes, what
//! every request keeps, how the cash book moves, what a snapshot and an import
//! hold, and how business dates, identifiers and stored texts behave.

use vstd::prelude::*;

use crate::commands::{served, Command};
use crate::contracts::{
    AddMemberInput, CreateLoanInput, DisburseLoanInput, PaymentInput, ReverseTransactionInput,
    SavingsTransactionInput,
};
use crate::domain::{
    absolute_month, date_day, date_month, date_year, days_in_month, digits_value, month_shift_ok,
    normalized, shifted_date, valid_date, LoanStatus, MemberStatus, SavingsAccountType, SavingsMovement,
    TransactionDirection, TransactionStatus,
};
use crate::ledger::{
    component_facts, AccountFacts, CashPosting, ComponentFacts, IdSource, Ledger, LoanFacts,
    Loan, Member, PostingFacts, SavingsAccount, Transaction,
};
use crate::loans::{
    disbursement_rejection, loan_disbursed, loan_drafted, loan_index, loan_rejection,
};
use crate::members::{member_added, member_number_taken, member_rejection};
use crate::order::{
    key_lt, key_order, lemma_digits_same, lemma_key_lt, lemma_digits_text_lt, lemma_text_lt_asymmetric,
    lemma_text_lt_extend, lemma_text_lt_irreflexive, lemma_text_lt_skip, text_lt, KeyFacts,
};
use crate::read_model::{
    active_count, balance_terms, cash_terms, portfolio_terms, loan_order, member_keys, member_order, member_row, snapshot_of,
    total, transaction_keys, transaction_order, transaction_row, AppSnapshot, LoanDto, MemberDto,
    TransactionDto,
};
use crate::savings::{
    account_index, deposit_rejection, deposited, lemma_settle_ids, min, optional_component,
    payment_order, payment_posted, payment_rejection, principal_components, savings_posted,
    savings_rejection, settle,
};
use crate::seed::{
    cell_at, loan_balances, nothing_imported, opening_cash, savings_balances, seed_cash,
    seed_cash_rows, seed_loans, seed_members, seed_opening, seed_outcome, seeded, CashSheetRow,
    Imported, LoanSheetRow, WorkbookSheets,
};
use crate::text::{
    decimal, digit_char, digit_value, has_prefix, is_digit, pow10, trimmed, zero_padded, zeros,
};
use crate::transactions::{
    account_pos, has_loan_with, loan_pos, reversal_early_rejection, reversal_posted,
    reversal_rejection, reverse_component, reverse_components, tx_pos, unique_accounts,
    unique_loans,
};
use crate::workbook::{money_of, Cell};

verus! {

/// What a cash posting adds to the cash book: its amount when money comes in,
/// minus its amount otherwise.
pub open spec fn signed_amount(p: CashPosting) -> int {
    if p.direction@ == TransactionDirection::In.text() {
        p.amount as int
    } else {
        -(p.amount as int)
    }
}

/// The cash on hand that the postings add up to.
pub open spec fn cash_balance(ps: Seq<CashPosting>) -> int
    decreases ps.len(),
{
    if ps.len() == 0 {
        0
    } else {
        cash_balance(ps.drop_last()) + signed_amount(ps.last())
    }
}

pub proof fn lemma_cash_push(ps: Seq<CashPosting>, qs: Seq<CashPosting>)
    requires
        qs.len() == ps.len() + 1,
        qs.subrange(0, ps.len() as int) == ps,
    ensures
        cash_balance(qs) == cash_balance(ps) + signed_amount(qs.last()),
{
    assert(qs.drop_last() =~= ps);
}

proof fn lemma_direction_texts()
    ensures
        TransactionDirection::In.text() != TransactionDirection::Out.text(),
        TransactionDirection::from_text(TransactionDirection::In.text()) == Some(
            TransactionDirection::In,
        ),
        TransactionDirection::from_text(TransactionDirection::Out.text()) == Some(
            TransactionDirection::Out,
        ),
        TransactionStatus::from_text(TransactionStatus::Posted.text()) == Some(
            TransactionStatus::Posted,
        ),
{
    reveal_strlit("Masuk");
    reveal_strlit("Keluar");
    assert("Masuk"@.len() != "Keluar"@.len());
}

proof fn lemma_savings_component_texts()
    ensures
        has_prefix("SAVINGS_DEPOSIT"@, "SAVINGS_"@),
        has_prefix("SAVINGS_WITHDRAWAL"@, "SAVINGS_"@),
        "SAVINGS_DEPOSIT"@ != "LOAN_PRINCIPAL"@,
        "SAVINGS_DEPOSIT"@ != "LOAN_DISBURSEMENT"@,
        "SAVINGS_DEPOSIT"@ != "SAVINGS_WITHDRAWAL"@,
        "SAVINGS_WITHDRAWAL"@ != "LOAN_PRINCIPAL"@,
        "SAVINGS_WITHDRAWAL"@ != "LOAN_DISBURSEMENT"@,
{
    reveal_strlit("SAVINGS_DEPOSIT");
    reveal_strlit("SAVINGS_WITHDRAWAL");
    reveal_strlit("SAVINGS_");
    reveal_strlit("LOAN_PRINCIPAL");
    reveal_strlit("LOAN_DISBURSEMENT");
    assert("SAVINGS_DEPOSIT"@.subrange(0, 8) =~= "SAVINGS_"@);
    assert("SAVINGS_WITHDRAWAL"@.subrange(0, 8) =~= "SAVINGS_"@);
}

/// A savings movement that was posted can be reversed on any open business
/// date, and the reversal gives every savings account and every loan back the
/// balance and columns it had before the movement, and the cash book its total.
pub proof fn law_savings_reversal_restores(
    l0: Ledger,
    l1: Ledger,
    l2: Ledger,
    input: SavingsTransactionInput,
    ids: IdSource,
    rev: ReverseTransactionInput,
    rev_ids: IdSource,
)
    requires
        l0.wf(),
        l1.wf(),
        savings_rejection(l0, input, ids) is None,
        savings_posted(l0, l1, input, ids),
        l0.accounts@[account_index(
            l0,
            input.member_id@,
            SavingsAccountType::from_text(input.account_type@).unwrap().text(),
        )].balance >= 0,
        rev.id@ == l1.transactions@.last().id@,
        valid_date(rev.business_date@),
        !l1.period_locked(rev.business_date@.subrange(0, 7)),
    ensures
        reversal_early_rejection(l1, rev) is None,
        reversal_posted(l1, l2, rev, rev_ids) ==> {
            &&& l2.account_table() == l0.account_table()
            &&& l2.loan_table() == l0.loan_table()
            &&& cash_balance(l2.cash_postings@) == cash_balance(l0.cash_postings@)
        },
{
    let kind = SavingsAccountType::from_text(input.account_type@).unwrap();
    let movement = SavingsMovement::from_text(input.movement@).unwrap();
    let k = account_index(l0, input.member_id@, kind.text());
    crate::savings::lemma_first_account(l0, input.member_id@, kind.text());
    let n = l0.transactions@.len();
    let t = l1.transactions@.last();
    assert(l1.transactions@[n as int] == t);
    assert(l1.has_transaction_id(rev.id@));
    let ti = tx_pos(l1, rev.id@);
    if ti != n {
        assert(l1.transactions@[ti].id@ != l1.transactions@[n as int].id@);
    }
    assert(ti == n);
    lemma_direction_texts();
    lemma_savings_component_texts();
    let c = t.components@[0].facts();
    assert(component_facts(t.components@).len() == 1 && component_facts(t.components@)[0] == c);
    let a1 = l1.account_table();
    assert(a1[k].id == c.savings_account_id.unwrap());
    assert(account_pos(a1, a1[k].id) == k) by {
        let p = account_pos(a1, a1[k].id);
        assert(0 <= p < a1.len() && a1[p].id == a1[k].id);
        if p != k {
            assert(l1.accounts@[p].id@ != l1.accounts@[k].id@);
        }
    }
    assert(component_facts(t.components@).drop_last() =~= Seq::empty());
    assert(reverse_components(a1, l1.loan_table(), component_facts(t.components@).drop_last()) == Ok::<
        (Seq<crate::ledger::AccountFacts>, Seq<crate::ledger::LoanFacts>),
        Seq<char>,
    >((a1, l1.loan_table())));
    assert(crate::transactions::has_account_with(a1, a1[k].id));
    assert(l0.accounts@[k].balance >= 0);
    if movement == SavingsMovement::Deposit {
        assert(c.component_type == "SAVINGS_DEPOSIT"@);
    } else {
        assert(c.component_type == "SAVINGS_WITHDRAWAL"@);
    }
    assert(reverse_component(a1, l1.loan_table(), c) is Ok);
    assert(reverse_components(a1, l1.loan_table(), component_facts(t.components@))->Ok_0.0 =~= l0.account_table());
    if reversal_posted(l1, l2, rev, rev_ids) {
        assert(l2.loan_table() =~= l0.loan_table());
        lemma_cash_push(l0.cash_postings@, l1.cash_postings@);
        lemma_cash_push(l1.cash_postings@, l2.cash_postings@);
    }
}

proof fn lemma_loan_texts()
    ensures
        crate::domain::LoanStatus::from_text(crate::domain::LoanStatus::Draft.text()) == Some(
            crate::domain::LoanStatus::Draft,
        ),
        "LOAN_DISBURSEMENT"@ != "LOAN_PRINCIPAL"@,
{
    reveal_strlit("LOAN_DISBURSEMENT");
    reveal_strlit("LOAN_PRINCIPAL");
    assert("LOAN_DISBURSEMENT"@.len() != "LOAN_PRINCIPAL"@.len());
}

/// Reversing the disbursement of a loan that was drafted without dates puts
/// the loan back in draft exactly as it was, leaves the savings accounts as
/// they were, and gives the cash book back the plafond; a provision that was
/// collected stays collected.
pub proof fn law_disbursement_reversal_restores(
    l0: Ledger,
    l1: Ledger,
    l2: Ledger,
    input: DisburseLoanInput,
    provision: i64,
    ids: IdSource,
    rev: ReverseTransactionInput,
    rev_ids: IdSource,
)
    requires
        l0.wf(),
        l1.wf(),
        disbursement_rejection(l0, input, Ok(provision), ids) is None,
        loan_disbursed(l0, l1, input, provision, ids),
        l0.loans@[loan_index(l0, input.loan_id@)].realization_date@ == "-"@,
        l0.loans@[loan_index(l0, input.loan_id@)].due_date@ == "-"@,
        rev.id@ == l1.transactions@[l0.transactions@.len() as int].id@,
        valid_date(rev.business_date@),
        !l1.period_locked(rev.business_date@.subrange(0, 7)),
    ensures
        reversal_early_rejection(l1, rev) is None,
        reversal_posted(l1, l2, rev, rev_ids) ==> {
            &&& l2.account_table() == l0.account_table()
            &&& l2.loan_table() == l0.loan_table()
            &&& cash_balance(l2.cash_postings@) == cash_balance(l0.cash_postings@) + if provision
                > 0 {
                provision as int
            } else {
                0
            }
        },
{
    let k = loan_index(l0, input.loan_id@);
    let n = l0.transactions@.len();
    assert(l0.has_loan_id(input.loan_id@));
    assert(0 <= k < l0.loans@.len() && l0.loans@[k].id@ == input.loan_id@);
    let t = l1.transactions@[n as int];
    assert(l1.has_transaction_id(rev.id@));
    let ti = tx_pos(l1, rev.id@);
    if ti != n {
        assert(l1.transactions@[ti].id@ != l1.transactions@[n as int].id@);
    }
    lemma_direction_texts();
    lemma_loan_texts();
    let lt1 = l1.loan_table();
    assert(lt1[k].id == input.loan_id@);
    assert(crate::transactions::loan_pos(lt1, input.loan_id@) == k) by {
        let p = crate::transactions::loan_pos(lt1, input.loan_id@);
        assert(0 <= p < lt1.len() && lt1[p].id == input.loan_id@);
        if p != k {
            assert(l1.loans@[p].id@ != l1.loans@[k].id@);
        }
    }
    let c = t.components@[0].facts();
    assert(component_facts(t.components@).len() == 1 && component_facts(t.components@)[0] == c);
    assert(component_facts(t.components@).drop_last() =~= Seq::empty());
    assert(reverse_components(l1.account_table(), lt1, component_facts(t.components@).drop_last()) == Ok::<
        (Seq<crate::ledger::AccountFacts>, Seq<crate::ledger::LoanFacts>),
        Seq<char>,
    >((l1.account_table(), lt1)));
    assert(reverse_component(l1.account_table(), lt1, c) is Ok);
    assert(reverse_components(l1.account_table(), lt1, component_facts(t.components@))->Ok_0.1 =~= l0.loan_table());
    if reversal_posted(l1, l2, rev, rev_ids) {
        let m = l0.cash_postings@.len();
        assert(l2.account_table() =~= l0.account_table());
        if provision > 0 {
            let a = l1.cash_postings@.subrange(0, m + 1int);
            assert(a.subrange(0, m as int) =~= l0.cash_postings@);
            lemma_cash_push(l0.cash_postings@, a);
            assert(l1.cash_postings@.subrange(0, m + 1int) =~= a);
            lemma_cash_push(a, l1.cash_postings@);
        } else {
            lemma_cash_push(l0.cash_postings@, l1.cash_postings@);
        }
        lemma_cash_push(l1.cash_postings@, l2.cash_postings@);
    }
}

// ---------------------------------------------------------------------------
// Reversal of a member payment

/// Undoing `xs + ys` undoes `xs`, then `ys`.
pub proof fn lemma_reverse_concat(
    a: Seq<AccountFacts>,
    l: Seq<LoanFacts>,
    xs: Seq<ComponentFacts>,
    ys: Seq<ComponentFacts>,
)
    ensures
        reverse_components(a, l, xs + ys) == match reverse_components(a, l, xs) {
            Err(e) => Err(e),
            Ok(p) => reverse_components(p.0, p.1, ys),
        },
    decreases ys.len(),
{
    if ys.len() == 0 {
        assert(xs + ys =~= xs);
    } else {
        lemma_reverse_concat(a, l, xs, ys.drop_last());
        assert((xs + ys).drop_last() =~= xs + ys.drop_last());
        assert((xs + ys).last() == ys.last());
        match reverse_components(a, l, xs) {
            Err(e) => {
                lemma_err_stays(a, l, xs, ys.drop_last(), e);
            },
            Ok(p) => {},
        }
    }
}

proof fn lemma_err_stays(
    a: Seq<AccountFacts>,
    l: Seq<LoanFacts>,
    xs: Seq<ComponentFacts>,
    ys: Seq<ComponentFacts>,
    e: Seq<char>,
)
    requires
        reverse_components(a, l, xs) == Err::<(Seq<AccountFacts>, Seq<LoanFacts>), Seq<char>>(e),
    ensures
        reverse_components(a, l, xs + ys) == Err::<(Seq<AccountFacts>, Seq<LoanFacts>), Seq<char>>(e),
    decreases ys.len(),
{
    if ys.len() == 0 {
        assert(xs + ys =~= xs);
    } else {
        lemma_err_stays(a, l, xs, ys.drop_last(), e);
        assert((xs + ys).drop_last() =~= xs + ys.drop_last());
    }
}

/// The order settles distinct loans, each a running loan with a balance.
pub open spec fn settles_running_loans(l: Seq<LoanFacts>, o: Seq<KeyFacts>) -> bool {
    &&& forall|q: int|
        0 <= q < o.len() ==> 0 <= #[trigger] o[q].index < l.len() && l[o[q].index].balance > 0
            && l[o[q].index].status == LoanStatus::Active.text()
    &&& forall|p: int, q: int|
        0 <= p < o.len() && 0 <= q < o.len() && p != q ==> #[trigger] o[p].index
            != #[trigger] o[q].index
}

/// Settling leaves the loans outside the order as they were, and each
/// allocation names the loan at the same place in the order.
proof fn lemma_settle_shape(l: Seq<LoanFacts>, o: Seq<KeyFacts>, r: int)
    requires
        settles_running_loans(l, o),
        r >= 0,
    ensures
        settle(l, o, r).1.len() <= o.len(),
        forall|m: int|
            0 <= m < settle(l, o, r).1.len() ==> (#[trigger] settle(l, o, r).1[m]).0 == l[o[m].index].id,
        forall|j: int|
            0 <= j < l.len() && (forall|q: int| 0 <= q < o.len() ==> o[q].index != j) ==> #[trigger] settle(l, o, r).0[j] == l[j],
    decreases o.len(),
{
    if o.len() > 0 && r != 0 {
        let i = o[0].index;
        let taken = min(r, l[i].balance as int);
        let nb = l[i].balance - taken;
        let l2 = l.update(
            i,
            LoanFacts {
                balance: nb as i64,
                status: if nb == 0 {
                    LoanStatus::PaidOff.text()
                } else {
                    l[i].status
                },
                ..l[i]
            },
        );
        let o2 = o.drop_first();
        assert(settles_running_loans(l2, o2)) by {
            assert forall|q: int| 0 <= q < o2.len() implies 0 <= #[trigger] o2[q].index < l2.len()
                && l2[o2[q].index].balance > 0 && l2[o2[q].index].status
                == LoanStatus::Active.text() by {
                assert(o2[q] == o[q + 1]);
                assert(o[q + 1].index != o[0].index);
            }
            assert forall|p: int, q: int|
                0 <= p < o2.len() && 0 <= q < o2.len() && p != q implies #[trigger] o2[p].index
                    != #[trigger] o2[q].index by {
                assert(o2[p] == o[p + 1]);
                assert(o2[q] == o[q + 1]);
            }
        }
        lemma_settle_shape(l2, o2, r - taken);
        let s = settle(l, o, r);
        let s2 = settle(l2, o2, r - taken);
        assert forall|m: int| 0 <= m < s.1.len() implies (#[trigger] s.1[m]).0 == l[o[m].index].id by {
            if m > 0 {
                assert(s.1[m] == s2.1[m - 1]);
                assert(o2[m - 1] == o[m]);
                assert(o[m].index != i);
            }
        }
        assert forall|j: int|
            0 <= j < l.len() && (forall|q: int| 0 <= q < o.len() ==> o[q].index != j) implies #[trigger] s.0[j] == l[j] by {
            assert(o[0].index != j);
            assert forall|q: int| 0 <= q < o2.len() implies o2[q].index != j by {
                assert(o2[q] == o[q + 1]);
            }
        }
    }
}

/// Undoing principal components for loans other than the one at `i` commutes
/// with replacing that loan by one with the same id.
proof fn lemma_reverse_principal_frame(
    a: Seq<AccountFacts>,
    x: Seq<LoanFacts>,
    cs: Seq<ComponentFacts>,
    i: int,
    v: LoanFacts,
)
    requires
        unique_loans(x),
        0 <= i < x.len(),
        v.id == x[i].id,
        reverse_components(a, x, cs) is Ok,
        forall|m: int|
            0 <= m < cs.len() ==> (#[trigger] cs[m]).component_type == "LOAN_PRINCIPAL"@
                && cs[m].loan_id is Some && cs[m].loan_id.unwrap() != x[i].id,
    ensures
        reverse_components(a, x.update(i, v), cs) is Ok,
        reverse_components(a, x.update(i, v), cs)->Ok_0.0 == reverse_components(a, x, cs)->Ok_0.0,
        reverse_components(a, x.update(i, v), cs)->Ok_0.1 == reverse_components(a, x, cs)->Ok_0.1.update(i, v),
        unique_loans(reverse_components(a, x, cs)->Ok_0.1),
        reverse_components(a, x, cs)->Ok_0.1.len() == x.len(),
        forall|j: int| 0 <= j < x.len() ==> #[trigger] reverse_components(a, x, cs)->Ok_0.1[j].id == x[j].id,
    decreases cs.len(),
{
    if cs.len() > 0 {
        let d = cs.drop_last();
        assert forall|m: int| 0 <= m < d.len() implies (#[trigger] d[m]).component_type == "LOAN_PRINCIPAL"@
            && d[m].loan_id is Some && d[m].loan_id.unwrap() != x[i].id by {
            assert(d[m] == cs[m]);
        }
        assert(reverse_components(a, x, d) is Ok);
        lemma_reverse_principal_frame(a, x, d, i, v);
        let p = reverse_components(a, x, d)->Ok_0;
        let pu = reverse_components(a, x.update(i, v), d)->Ok_0;
        let c = cs.last();
        assert(c == cs[cs.len() - 1]);
        let lid = c.loan_id.unwrap();
        let y = p.1;
        let yu = pu.1;
        assert(yu == y.update(i, v));
        let j = loan_pos(y, lid);
        assert(has_loan_with(y, lid));
        assert(0 <= j < y.len() && y[j].id == lid);
        assert(j != i);
        assert(unique_loans(yu)) by {
            assert forall|s: int, t: int| 0 <= s < t < yu.len() implies yu[s].id != yu[t].id by {
                assert(yu[s].id == y[s].id);
                assert(yu[t].id == y[t].id);
            }
        }
        assert(loan_pos(yu, lid) == j) by {
            let q = loan_pos(yu, lid);
            assert(yu[j].id == lid);
            assert(has_loan_with(yu, lid));
            assert(0 <= q < yu.len() && yu[q].id == lid);
            if q != j {
                if q < j {
                    assert(yu[q].id != yu[j].id);
                } else {
                    assert(yu[j].id != yu[q].id);
                }
            }
        }
        assert(reverse_components(a, x, cs) == reverse_component(p.0, y, c));
        assert(reverse_components(a, x.update(i, v), cs) == reverse_component(pu.0, yu, c));
        let w = LoanFacts { balance: (y[j].balance + c.amount) as i64, status: LoanStatus::Active.text(), ..y[j] };
        assert(yu.update(j, w) =~= y.update(j, w).update(i, v));
        let z = y.update(j, w);
        assert forall|s: int, t: int| 0 <= s < t < z.len() implies z[s].id != z[t].id by {
            assert(z[s].id == y[s].id);
            assert(z[t].id == y[t].id);
        }
    } else {
        assert(x.update(i, v).len() == x.len());
    }
}

/// Undoing the principal components of a settlement gives every loan back
/// what it had before the settlement.
proof fn lemma_settle_restore(a: Seq<AccountFacts>, l: Seq<LoanFacts>, o: Seq<KeyFacts>, r: int)
    requires
        unique_loans(l),
        settles_running_loans(l, o),
        r >= 0,
    ensures
        reverse_components(a, settle(l, o, r).0, principal_components(settle(l, o, r).1))
            == Ok::<(Seq<AccountFacts>, Seq<LoanFacts>), Seq<char>>((a, l)),
    decreases o.len(),
{
    let s = settle(l, o, r);
    if o.len() == 0 || r == 0 {
        assert(principal_components(s.1) =~= Seq::<ComponentFacts>::empty());
    } else {
        let i = o[0].index;
        let taken = min(r, l[i].balance as int);
        let nb = l[i].balance - taken;
        let dec = LoanFacts {
            balance: nb as i64,
            status: if nb == 0 {
                LoanStatus::PaidOff.text()
            } else {
                l[i].status
            },
            ..l[i]
        };
        let l2 = l.update(i, dec);
        let o2 = o.drop_first();
        assert(settles_running_loans(l2, o2)) by {
            assert forall|q: int| 0 <= q < o2.len() implies 0 <= #[trigger] o2[q].index < l2.len()
                && l2[o2[q].index].balance > 0 && l2[o2[q].index].status
                == LoanStatus::Active.text() by {
                assert(o2[q] == o[q + 1]);
                assert(o[q + 1].index != o[0].index);
            }
            assert forall|p: int, q: int|
                0 <= p < o2.len() && 0 <= q < o2.len() && p != q implies #[trigger] o2[p].index
                    != #[trigger] o2[q].index by {
                assert(o2[p] == o[p + 1]);
                assert(o2[q] == o[q + 1]);
            }
        }
        assert(unique_loans(l2)) by {
            assert forall|p: int, q: int| 0 <= p < q < l2.len() implies l2[p].id != l2[q].id by {
                assert(l2[p].id == l[p].id);
                assert(l2[q].id == l[q].id);
            }
        }
        let s2 = settle(l2, o2, r - taken);
        lemma_settle_restore(a, l2, o2, r - taken);
        lemma_settle_shape(l2, o2, r - taken);
        lemma_settle_ids(l2, o2, r - taken);
        assert forall|q: int| 0 <= q < o2.len() implies 0 <= #[trigger] o2[q].index < l2.len() by {
            assert(o2[q] == o[q + 1]);
        }
        assert forall|q: int| 0 <= q < o2.len() implies o2[q].index != i by {
            assert(o2[q] == o[q + 1]);
        }
        let x = s2.0;
        assert(x[i] == l2[i]);
        assert(unique_loans(x)) by {
            assert forall|p: int, q: int| 0 <= p < q < x.len() implies x[p].id != x[q].id by {
                assert(x[p].id == l2[p].id);
                assert(x[q].id == l2[q].id);
            }
        }
        let c0 = ComponentFacts {
            component_type: "LOAN_PRINCIPAL"@,
            label: "Pokok pinjaman"@,
            amount: taken,
            loan_id: Some(l[i].id),
            savings_account_id: None,
        };
        let rest = principal_components(s2.1);
        assert(principal_components(s.1) =~= seq![c0] + rest);
        lemma_reverse_concat(a, x, seq![c0], rest);
        assert(seq![c0].drop_last() =~= Seq::<ComponentFacts>::empty());
        assert(loan_pos(x, l[i].id) == i) by {
            let q = loan_pos(x, l[i].id);
            assert(x[i].id == l[i].id);
            assert(has_loan_with(x, l[i].id));
            if q != i {
                if q < i {
                    assert(x[q].id != x[i].id);
                } else {
                    assert(x[i].id != x[q].id);
                }
            }
        }
        assert(reverse_component(a, x, c0) == Ok::<(Seq<AccountFacts>, Seq<LoanFacts>), Seq<char>>(
            (a, x.update(i, l[i])),
        )) by {
            assert(x.update(i, LoanFacts {
                balance: (x[i].balance + c0.amount) as i64,
                status: LoanStatus::Active.text(),
                ..x[i]
            }) =~= x.update(i, l[i]));
        }
        assert(reverse_components(a, x, seq![c0]) == Ok::<(Seq<AccountFacts>, Seq<LoanFacts>), Seq<char>>(
            (a, x.update(i, l[i])),
        )) by {
            let one = seq![c0];
            assert(one.len() == 1);
            assert(one.last() == c0);
            assert(one.drop_last() == Seq::<ComponentFacts>::empty());
            assert(reverse_components(a, x, one.drop_last()) == Ok::<(Seq<AccountFacts>, Seq<LoanFacts>), Seq<char>>((a, x)));
        }
        assert forall|m: int| 0 <= m < rest.len() implies (#[trigger] rest[m]).component_type == "LOAN_PRINCIPAL"@
            && rest[m].loan_id is Some && rest[m].loan_id.unwrap() != x[i].id by {
            assert(rest[m].loan_id.unwrap() == s2.1[m].0);
            assert(s2.1[m].0 == l2[o2[m].index].id);
            assert(o2[m].index != i);
            assert(l2[o2[m].index].id == l[o2[m].index].id);
            assert(o2[m].index < l.len());
        }
        lemma_reverse_principal_frame(a, x, rest, i, l[i]);
        assert(l2.update(i, l[i]) =~= l);
    }
}


/// Undoing one component is undoing it alone.
proof fn lemma_reverse_one(a: Seq<AccountFacts>, l: Seq<LoanFacts>, c: ComponentFacts)
    ensures
        reverse_components(a, l, seq![c]) == reverse_component(a, l, c),
{
    let one = seq![c];
    assert(one.last() == c);
    assert(one.drop_last() == Seq::<ComponentFacts>::empty());
    assert(reverse_components(a, l, one.drop_last()) == Ok::<(Seq<AccountFacts>, Seq<LoanFacts>), Seq<char>>((a, l)));
}

proof fn lemma_payment_texts()
    ensures
        "LOAN_INTEREST"@ != "LOAN_PRINCIPAL"@,
        "LOAN_INTEREST"@ != "LOAN_DISBURSEMENT"@,
        !has_prefix("LOAN_INTEREST"@, "SAVINGS_"@),
        has_prefix("SAVINGS_WAJIB"@, "SAVINGS_"@),
        has_prefix("SAVINGS_VOLUNTARY"@, "SAVINGS_"@),
        "SAVINGS_WAJIB"@ != "LOAN_PRINCIPAL"@,
        "SAVINGS_WAJIB"@ != "LOAN_DISBURSEMENT"@,
        "SAVINGS_WAJIB"@ != "SAVINGS_WITHDRAWAL"@,
        "SAVINGS_VOLUNTARY"@ != "LOAN_PRINCIPAL"@,
        "SAVINGS_VOLUNTARY"@ != "LOAN_DISBURSEMENT"@,
        "SAVINGS_VOLUNTARY"@ != "SAVINGS_WITHDRAWAL"@,
        SavingsAccountType::Mandatory.text() != SavingsAccountType::Voluntary.text(),
{
    reveal_strlit("LOAN_INTEREST");
    reveal_strlit("LOAN_PRINCIPAL");
    reveal_strlit("LOAN_DISBURSEMENT");
    reveal_strlit("SAVINGS_");
    reveal_strlit("SAVINGS_WAJIB");
    reveal_strlit("SAVINGS_VOLUNTARY");
    reveal_strlit("SAVINGS_WITHDRAWAL");
    reveal_strlit("WAJIB");
    reveal_strlit("MANASUKA");
    assert("LOAN_INTEREST"@.len() != "LOAN_PRINCIPAL"@.len());
    assert("LOAN_INTEREST"@.len() != "LOAN_DISBURSEMENT"@.len());
    assert("LOAN_INTEREST"@[0] != "SAVINGS_"@[0]);
    assert("SAVINGS_WAJIB"@.subrange(0, 8) =~= "SAVINGS_"@);
    assert("SAVINGS_VOLUNTARY"@.subrange(0, 8) =~= "SAVINGS_"@);
    assert("SAVINGS_WAJIB"@.len() != "LOAN_PRINCIPAL"@.len());
    assert("SAVINGS_WAJIB"@.len() != "LOAN_DISBURSEMENT"@.len());
    assert("SAVINGS_WAJIB"@.len() != "SAVINGS_WITHDRAWAL"@.len());
    assert("SAVINGS_VOLUNTARY"@.len() != "LOAN_PRINCIPAL"@.len());
    assert("SAVINGS_VOLUNTARY"@[0] != "LOAN_DISBURSEMENT"@[0]);
    assert("SAVINGS_VOLUNTARY"@.len() != "SAVINGS_WITHDRAWAL"@.len());
    assert("WAJIB"@.len() != "MANASUKA"@.len());
}

/// Undoing the savings part of a payment into the account at `k`: the
/// account gets back the balance it had before.
proof fn lemma_undeposit(
    a: Seq<AccountFacts>,
    l: Seq<LoanFacts>,
    k: int,
    value: int,
    component_type: Seq<char>,
    label: Seq<char>,
)
    requires
        unique_accounts(a),
        0 <= k < a.len(),
        0 <= value,
        a[k].balance >= 0,
        a[k].balance + value <= i64::MAX,
        has_prefix(component_type, "SAVINGS_"@),
        component_type != "LOAN_PRINCIPAL"@,
        component_type != "LOAN_DISBURSEMENT"@,
        component_type != "SAVINGS_WITHDRAWAL"@,
    ensures
        ({
            let up = if value > 0 {
                a.update(k, AccountFacts { balance: (a[k].balance + value) as i64, ..a[k] })
            } else {
                a
            };
            reverse_components(
                up,
                l,
                optional_component(value, component_type, label, Some(a[k].id)),
            ) == Ok::<(Seq<AccountFacts>, Seq<LoanFacts>), Seq<char>>((a, l))
        }),
{
    if value > 0 {
        let up = a.update(k, AccountFacts { balance: (a[k].balance + value) as i64, ..a[k] });
        let c = ComponentFacts {
            component_type,
            label,
            amount: value,
            loan_id: None,
            savings_account_id: Some(a[k].id),
        };
        assert(optional_component(value, component_type, label, Some(a[k].id)) == seq![c]);
        lemma_reverse_one(up, l, c);
        assert(unique_accounts(up)) by {
            assert forall|p: int, q: int| 0 <= p < q < up.len() implies up[p].id != up[q].id by {
                assert(up[p].id == a[p].id);
                assert(up[q].id == a[q].id);
            }
        }
        crate::transactions::lemma_account_pos(up, a[k].id, k);
        assert(up.update(k, AccountFacts { balance: (up[k].balance - value) as i64, ..up[k] }) =~= a);
    } else {
        assert(optional_component(value, component_type, label, Some(a[k].id)) =~= Seq::<ComponentFacts>::empty());
    }
}

/// A member payment that was posted can be reversed on any open business date,
/// and the reversal gives every loan back its balance and status, every savings
/// account its balance, and the cash book its total.
pub proof fn law_payment_reversal_restores(
    l0: Ledger,
    l1: Ledger,
    l2: Ledger,
    input: PaymentInput,
    ids: IdSource,
    rev: ReverseTransactionInput,
    rev_ids: IdSource,
)
    requires
        l0.wf(),
        l1.wf(),
        payment_rejection(l0, input, ids) is None,
        payment_posted(l0, l1, input, ids),
        l0.has_account(input.member_id@, SavingsAccountType::Mandatory.text())
            ==> l0.accounts@[account_index(
            l0,
            input.member_id@,
            SavingsAccountType::Mandatory.text(),
        )].balance >= 0,
        l0.has_account(input.member_id@, SavingsAccountType::Voluntary.text())
            ==> l0.accounts@[account_index(
            l0,
            input.member_id@,
            SavingsAccountType::Voluntary.text(),
        )].balance >= 0,
        rev.id@ == l1.transactions@.last().id@,
        valid_date(rev.business_date@),
        !l1.period_locked(rev.business_date@.subrange(0, 7)),
    ensures
        reversal_early_rejection(l1, rev) is None,
        reversal_posted(l1, l2, rev, rev_ids) ==> {
            &&& l2.account_table() == l0.account_table()
            &&& l2.loan_table() == l0.loan_table()
            &&& cash_balance(l2.cash_postings@) == cash_balance(l0.cash_postings@)
        },
{
    let m = input.member_id@;
    let a0 = l0.account_table();
    let lt0 = l0.loan_table();
    let a1 = l1.account_table();
    let lt1 = l1.loan_table();
    let o = payment_order(lt0, m);
    let s = settle(lt0, o, input.principal as int);
    crate::savings::lemma_payment_order(lt0, m);
    assert(settles_running_loans(lt0, o)) by {
        assert forall|q: int| 0 <= q < o.len() implies 0 <= #[trigger] o[q].index < lt0.len()
            && lt0[o[q].index].balance > 0 && lt0[o[q].index].status
            == LoanStatus::Active.text() by {
            assert(crate::savings::is_payment_candidate(lt0[o[q].index], m));
        }
    }
    assert(unique_loans(lt0)) by {
        assert forall|p: int, q: int| 0 <= p < q < lt0.len() implies lt0[p].id != lt0[q].id by {
            assert(l0.loans@[p].id@ != l0.loans@[q].id@);
        }
    }
    assert(unique_accounts(a0)) by {
        assert forall|p: int, q: int| 0 <= p < q < a0.len() implies a0[p].id != a0[q].id by {
            assert(l0.accounts@[p].id@ != l0.accounts@[q].id@);
        }
    }
    lemma_settle_restore(a1, lt0, o, input.principal as int);
    lemma_payment_texts();
    lemma_direction_texts();
    let p_cs = principal_components(s.1);
    let i_cs = optional_component(input.interest as int, "LOAN_INTEREST"@, "Bunga pinjaman"@, None);
    let kw = crate::savings::account_index(l0, m, SavingsAccountType::Mandatory.text());
    let kv = crate::savings::account_index(l0, m, SavingsAccountType::Voluntary.text());
    let w_cs = optional_component(
        input.wajib as int,
        "SAVINGS_WAJIB"@,
        "Simpanan wajib"@,
        Some(crate::savings::account_id_of(l0, m, SavingsAccountType::Mandatory)),
    );
    let v_cs = optional_component(
        input.voluntary as int,
        "SAVINGS_VOLUNTARY"@,
        "Simpanan manasuka"@,
        Some(crate::savings::account_id_of(l0, m, SavingsAccountType::Voluntary)),
    );
    // The interest part leaves the tables alone.
    lemma_reverse_concat(a1, lt1, p_cs, i_cs);
    if input.interest > 0 {
        assert(i_cs == seq![i_cs[0]]);
        lemma_reverse_one(a1, lt0, i_cs[0]);
    } else {
        assert(i_cs =~= Seq::<ComponentFacts>::empty());
    }
    assert(reverse_components(a1, lt1, p_cs + i_cs) == Ok::<(Seq<AccountFacts>, Seq<LoanFacts>), Seq<char>>((a1, lt0)));
    // The voluntary deposit, then the mandatory one.
    let av = deposited(l0, a0, m, SavingsAccountType::Voluntary, input.voluntary as int);
    if input.wajib > 0 {
        crate::savings::lemma_first_account(l0, m, SavingsAccountType::Mandatory.text());
    }
    if input.voluntary > 0 {
        crate::savings::lemma_first_account(l0, m, SavingsAccountType::Voluntary.text());
    }
    if input.wajib > 0 && input.voluntary > 0 {
        assert(kw != kv);
    }
    assert(unique_accounts(av)) by {
        assert forall|p: int, q: int| 0 <= p < q < av.len() implies av[p].id != av[q].id by {
            assert(av[p].id == a0[p].id);
            assert(av[q].id == a0[q].id);
        }
    }
    if input.wajib > 0 {
        assert(a1 =~= av.update(kw, AccountFacts { balance: (av[kw].balance + input.wajib) as i64, ..av[kw] }));
        assert(av[kw] == a0[kw]);
        assert(a0[kw].balance == l0.accounts@[kw].balance);
        lemma_undeposit(av, lt0, kw, input.wajib as int, "SAVINGS_WAJIB"@, "Simpanan wajib"@);
    } else {
        assert(a1 =~= av);
        assert(w_cs =~= Seq::<ComponentFacts>::empty());
    }
    lemma_reverse_concat(a1, lt1, p_cs + i_cs, w_cs);
    assert(reverse_components(a1, lt1, p_cs + i_cs + w_cs) == Ok::<(Seq<AccountFacts>, Seq<LoanFacts>), Seq<char>>((av, lt0)));
    if input.voluntary > 0 {
        assert(a0[kv].balance == l0.accounts@[kv].balance);
        lemma_undeposit(a0, lt0, kv, input.voluntary as int, "SAVINGS_VOLUNTARY"@, "Simpanan manasuka"@);
    } else {
        assert(v_cs =~= Seq::<ComponentFacts>::empty());
    }
    lemma_reverse_concat(a1, lt1, p_cs + i_cs + w_cs, v_cs);
    let n = l0.transactions@.len();
    let t = l1.transactions@.last();
    assert(l1.transactions@[n as int] == t);
    assert(l1.has_transaction_id(rev.id@));
    let ti = tx_pos(l1, rev.id@);
    if ti != n {
        assert(l1.transactions@[ti].id@ != l1.transactions@[n as int].id@);
    }
    assert(ti == n);
    assert(component_facts(t.components@) == p_cs + i_cs + w_cs + v_cs);
    assert(reverse_components(a1, lt1, component_facts(t.components@)) == Ok::<(Seq<AccountFacts>, Seq<LoanFacts>), Seq<char>>((a0, lt0)));
    if reversal_posted(l1, l2, rev, rev_ids) {
        lemma_cash_push(l0.cash_postings@, l1.cash_postings@);
        lemma_cash_push(l1.cash_postings@, l2.cash_postings@);
    }
}


// ---------------------------------------------------------------------------
// Business dates

proof fn lemma_zeros_digits(k: int)
    ensures
        digits_value(zeros(k)) == 0,
        forall|i: int| 0 <= i < zeros(k).len() ==> is_digit(#[trigger] zeros(k)[i]),
    decreases k,
{
    if k > 0 {
        lemma_zeros_digits(k - 1);
        assert(zeros(k).drop_last() =~= zeros(k - 1));
    } else {
        assert(zeros(k) =~= Seq::<char>::empty());
    }
}

/// Leading zeros add nothing to a run of digits.
proof fn lemma_leading_zeros(k: int, x: Seq<char>)
    ensures
        digits_value(zeros(k) + x) == digits_value(x),
    decreases x.len(),
{
    if x.len() == 0 {
        assert(zeros(k) + x =~= zeros(k));
        lemma_zeros_digits(k);
    } else {
        lemma_leading_zeros(k, x.drop_last());
        assert((zeros(k) + x).drop_last() =~= zeros(k) + x.drop_last());
        assert((zeros(k) + x).last() == x.last());
    }
}

/// The digits of `decimal(v)` are worth `v`, and they are digits.
proof fn lemma_decimal_value(v: nat)
    ensures
        digits_value(decimal(v)) == v,
        forall|i: int| 0 <= i < decimal(v).len() ==> is_digit(#[trigger] decimal(v)[i]),
        decimal(v).len() >= 1,
    decreases v,
{
    if v < 10 {
        assert(decimal(v).drop_last() =~= Seq::<char>::empty());
        assert(decimal(v).last() == digit_char(v as int));
        assert(digit_value(digit_char(v as int)) == v);
        assert(decimal(v).len() == 1);
        assert(digits_value(decimal(v)) == digits_value(decimal(v).drop_last()) * 10 + digit_value(decimal(v).last()));
        assert(digits_value(Seq::<char>::empty()) == 0);
    } else {
        lemma_decimal_value(v / 10);
        let d = decimal(v / 10);
        assert(decimal(v).drop_last() =~= d);
        assert(decimal(v).last() == digit_char((v % 10) as int));
        assert(digit_value(digit_char((v % 10) as int)) == v % 10);
        assert(decimal(v).len() == d.len() + 1);
        assert(digits_value(decimal(v)) == digits_value(decimal(v).drop_last()) * 10 + digit_value(decimal(v).last()));
        assert(v == (v / 10) * 10 + v % 10) by (nonlinear_arith);
        assert forall|i: int| 0 <= i < decimal(v).len() implies is_digit(#[trigger] decimal(v)[i]) by {
            if i < d.len() {
                assert(decimal(v)[i] == d[i]);
            }
        }
    }
}

/// A number below `10^w` has at most `w` decimal digits.
proof fn lemma_decimal_len(v: nat, w: nat)
    requires
        w >= 1,
        v < pow10(w),
    ensures
        decimal(v).len() <= w,
    decreases v,
{
    if v >= 10 {
        assert(pow10(w) == 10 * pow10((w - 1) as nat));
        if w == 1 {
            assert(pow10(0) == 1);
        }
        assert(v / 10 < pow10((w - 1) as nat)) by (nonlinear_arith)
            requires
                v < 10 * pow10((w - 1) as nat),
        ;
        lemma_decimal_len(v / 10, (w - 1) as nat);
    }
}

/// `v` written on `w` digits with leading zeros is `w` digits worth `v`.
proof fn lemma_padded_value(v: nat, w: nat)
    requires
        w >= 1,
        v < pow10(w),
    ensures
        zero_padded(v as int, w as int).len() == w,
        digits_value(zero_padded(v as int, w as int)) == v,
        forall|i: int|
            0 <= i < w ==> is_digit(#[trigger] zero_padded(v as int, w as int)[i]),
{
    lemma_decimal_len(v, w);
    lemma_decimal_value(v);
    lemma_leading_zeros(w - decimal(v).len(), decimal(v));
    lemma_zeros_digits(w - decimal(v).len());
    let z = zeros(w - decimal(v).len());
    let p = zero_padded(v as int, w as int);
    assert(p == z + decimal(v));
    assert forall|i: int| 0 <= i < w implies is_digit(#[trigger] p[i]) by {
        if i < z.len() {
            assert(p[i] == z[i]);
        } else {
            assert(p[i] == decimal(v)[i - z.len()]);
        }
    }
}

/// A run of digits written back on as many digits is itself.
proof fn lemma_padded_digits(t: Seq<char>)
    requires
        t.len() >= 1,
        forall|i: int| 0 <= i < t.len() ==> is_digit(#[trigger] t[i]),
    ensures
        digits_value(t) >= 0,
        zero_padded(digits_value(t), t.len() as int) == t,
    decreases t.len(),
{
    let u = t.drop_last();
    let c = t.last();
    assert(is_digit(t[t.len() - 1]));
    let dc = digit_value(c);
    assert(digit_char(dc) == c);
    if u.len() == 0 {
        assert(digits_value(u) == 0);
        assert(decimal(dc as nat) =~= seq![c]);
        assert(zero_padded(digits_value(t), t.len() as int) =~= t);
    } else {
        assert forall|i: int| 0 <= i < u.len() implies is_digit(#[trigger] u[i]) by {
            assert(u[i] == t[i]);
        }
        lemma_padded_digits(u);
        let vu = digits_value(u);
        let v = digits_value(t);
        assert(v == vu * 10 + dc);
        if vu == 0 {
            assert(decimal(0) =~= seq!['0']);
            assert(u =~= zeros(u.len() - 1) + seq!['0']);
            assert(decimal(v as nat) =~= seq![c]);
            assert(zero_padded(v, t.len() as int) =~= t) by {
                assert(zeros(t.len() - 1) =~= zeros(u.len() - 1) + seq!['0']);
            }
        } else {
            vstd::arithmetic::div_mod::lemma_fundamental_div_mod_converse(v, 10, vu, dc);
            assert(decimal(v as nat) == decimal(vu as nat).push(c));
            assert(zero_padded(v, t.len() as int) =~= (zeros(u.len() - decimal(vu as nat).len())
                + decimal(vu as nat)).push(c));
        }
    }
}

/// A valid business date moved by zero months is itself.
pub proof fn law_add_months_zero(date: Seq<char>)
    requires
        valid_date(date),
    ensures
        month_shift_ok(date, 0),
        shifted_date(date, 0) == date,
{
    let y = date_year(date);
    let m = date_month(date);
    let d = date_day(date);
    let ys = date.subrange(0, 4);
    let ms = date.subrange(5, 7);
    let ds = date.subrange(8, 10);
    assert forall|i: int| 0 <= i < 4 implies is_digit(#[trigger] ys[i]) by {
        assert(ys[i] == date[i]);
    }
    assert forall|i: int| 0 <= i < 2 implies is_digit(#[trigger] ms[i]) by {
        assert(ms[i] == date[i + 5]);
    }
    assert forall|i: int| 0 <= i < 2 implies is_digit(#[trigger] ds[i]) by {
        assert(ds[i] == date[i + 8]);
    }
    crate::domain::lemma_digits_bound(ys);
    assert(pow10(4) == 10000) by {
        reveal_with_fuel(pow10, 5);
    }
    lemma_padded_digits(ys);
    lemma_padded_digits(ms);
    lemma_padded_digits(ds);
    let a = absolute_month(date, 0);
    vstd::arithmetic::div_mod::lemma_fundamental_div_mod_converse(a, 12, y, m - 1);
    assert(date =~= ys + seq!['-'] + ms + seq!['-'] + ds);
}

/// Moving a valid business date by whole months, when the result can be
/// written, gives a valid business date: `months` months later, on the same
/// day, or on the last day of a shorter month.
pub proof fn law_add_months_valid(date: Seq<char>, months: int)
    requires
        valid_date(date),
        month_shift_ok(date, months),
    ensures
        valid_date(shifted_date(date, months)),
        date_year(shifted_date(date, months)) * 12 + date_month(shifted_date(date, months)) - 1
            == absolute_month(date, months),
        date_day(shifted_date(date, months)) == if date_day(date) < days_in_month(
            absolute_month(date, months) / 12,
            absolute_month(date, months) % 12 + 1,
        ) {
            date_day(date)
        } else {
            days_in_month(absolute_month(date, months) / 12, absolute_month(date, months) % 12 + 1)
        },
{
    let a = absolute_month(date, months);
    let y = a / 12;
    let m = a % 12 + 1;
    let d = if date_day(date) < days_in_month(y, m) {
        date_day(date)
    } else {
        days_in_month(y, m)
    };
    assert(pow10(4) == 10000 && pow10(2) == 100) by {
        reveal_with_fuel(pow10, 5);
    }
    lemma_padded_value(y as nat, 4);
    lemma_padded_value(m as nat, 2);
    lemma_padded_value(d as nat, 2);
    let r = shifted_date(date, months);
    let yp = zero_padded(y, 4);
    let mp = zero_padded(m, 2);
    let dp = zero_padded(d, 2);
    assert(r.subrange(0, 4) =~= yp);
    assert(r.subrange(5, 7) =~= mp);
    assert(r.subrange(8, 10) =~= dp);
    assert forall|i: int| 0 <= i < 10 && i != 4 && i != 7 implies is_digit(#[trigger] r[i]) by {
        if i < 4 {
            assert(r[i] == yp[i]);
        } else if i < 7 {
            assert(r[i] == mp[i - 5]);
        } else {
            assert(r[i] == dp[i - 8]);
        }
    }
    vstd::arithmetic::div_mod::lemma_fundamental_div_mod(a, 12);
}


/// More months give a later due date: both are written `YYYY-MM-DD` with
/// zero padding, so the later date also sorts after the earlier one as text.
pub proof fn law_add_months_later(date: Seq<char>, j: int, k: int)
    requires
        valid_date(date),
        month_shift_ok(date, j),
        month_shift_ok(date, k),
        j < k,
    ensures
        valid_date(shifted_date(date, j)),
        valid_date(shifted_date(date, k)),
        date_year(shifted_date(date, j)) * 12 + date_month(shifted_date(date, j)) < date_year(
            shifted_date(date, k),
        ) * 12 + date_month(shifted_date(date, k)),
        text_lt(shifted_date(date, j), shifted_date(date, k)),
{
    law_add_months_valid(date, j);
    law_add_months_valid(date, k);
    lemma_dates_text_lt(shifted_date(date, j), shifted_date(date, k));
}

/// Of two valid dates, the one of an earlier month sorts first as text.
proof fn lemma_dates_text_lt(r1: Seq<char>, r2: Seq<char>)
    requires
        valid_date(r1),
        valid_date(r2),
        date_year(r1) * 12 + date_month(r1) < date_year(r2) * 12 + date_month(r2),
    ensures
        text_lt(r1, r2),
{
    let y1 = r1.subrange(0, 4);
    let y2 = r2.subrange(0, 4);
    assert forall|i: int| 0 <= i < 4 implies is_digit(#[trigger] y1[i]) && is_digit(y2[i]) by {
        assert(y1[i] == r1[i] && is_digit(r1[i]));
        assert(y2[i] == r2[i] && is_digit(r2[i]));
    }
    if date_year(r1) < date_year(r2) {
        lemma_digits_text_lt(y1, y2);
        assert(r1 =~= y1 + r1.subrange(4, 10));
        assert(r2 =~= y2 + r2.subrange(4, 10));
        lemma_text_lt_extend(y1, y2, r1.subrange(4, 10), r2.subrange(4, 10));
    } else {
        assert(date_year(r1) == date_year(r2));
        assert(date_month(r1) < date_month(r2));
        lemma_digits_same(y1, y2);
        assert(r1.subrange(0, 5) =~= r2.subrange(0, 5)) by {
            assert forall|i: int| 0 <= i < 5 implies r1.subrange(0, 5)[i] == r2.subrange(0, 5)[i] by {
                if i < 4 {
                    assert(r1[i] == y1[i] && r2[i] == y2[i]);
                }
            }
        }
        lemma_text_lt_skip(r1, r2, 5);
        let m1 = r1.subrange(5, 7);
        let m2 = r2.subrange(5, 7);
        assert forall|i: int| 0 <= i < 2 implies is_digit(#[trigger] m1[i]) && is_digit(m2[i]) by {
            assert(m1[i] == r1[i + 5] && is_digit(r1[i + 5]));
            assert(m2[i] == r2[i + 5] && is_digit(r2[i + 5]));
        }
        lemma_digits_text_lt(m1, m2);
        assert(r1.subrange(5, 10) =~= m1 + r1.subrange(7, 10));
        assert(r2.subrange(5, 10) =~= m2 + r2.subrange(7, 10));
        lemma_text_lt_extend(m1, m2, r1.subrange(7, 10), r2.subrange(7, 10));
    }
}

// ---------------------------------------------------------------------------
// The snapshot

/// Every savings account has one of the three savings types.
pub open spec fn accounts_typed(l: Ledger) -> bool {
    forall|a: int|
        0 <= a < l.accounts@.len() ==> SavingsAccountType::from_text(
            #[trigger] l.accounts@[a].account_type@,
        ) is Some
}

/// The shape of a snapshot: at most 250 loans and 120 transactions, one row
/// per member, members ordered by name, the cash total as money in less money
/// out, and, where every account has one of the three savings types, each
/// member's savings the sum of the member's three kinds of savings.
pub proof fn law_snapshot_shape(l: Ledger, s: AppSnapshot)
    requires
        snapshot_of(l, s),
    ensures
        s.loans@.len() <= 250,
        s.transactions@.len() <= 120,
        s.members@.len() == l.members@.len(),
        forall|i: int, j: int|
            0 <= i < j < s.members@.len() ==> !text_lt(
                #[trigger] s.members@[j].name@,
                #[trigger] s.members@[i].name@,
            ),
        accounts_typed(l) ==> forall|i: int|
            0 <= i < s.members@.len() ==> #[trigger] s.members@[i].savings
                == s.members@[i].principal_savings + s.members@[i].mandatory_savings
                + s.members@[i].voluntary_savings,
        s.totals.cash == total(cash_terms(l.cash_postings@)),
        l.wf() && accounts_owned(l) ==> s.totals.savings == total(
            s.members@.map_values(|m: MemberDto| m.savings as int),
        ),
        s.totals.members == min(
            total(s.members@.map_values(|m: MemberDto| active_term(m.status@))),
            i64::MAX as int,
        ),
{
    let keys = member_keys(l.members@);
    let order = member_order(l);
    crate::order::lemma_key_order();
    keys.lemma_sort_by_ensures(key_order());
    crate::order::lemma_sorted_from(keys);
    let rows = order.map_values(|k: KeyFacts| member_row(l, k.index));
    assert(s.members@.map_values(|m: MemberDto| m.facts()) == rows);
    assert(s.members@.len() == rows.len());
    assert forall|i: int| 0 <= i < s.members@.len() implies {
        &&& 0 <= #[trigger] order[i].index < l.members@.len()
        &&& order[i].first == l.members@[order[i].index].name@
        &&& order[i].rank == 0
        &&& s.members@[i].facts() == member_row(l, order[i].index)
    } by {
        assert(keys.contains(order[i]));
        let k = choose|k: int| 0 <= k < keys.len() && keys[k] == order[i];
        assert(keys[k].index == k);
        assert(s.members@.map_values(|m: MemberDto| m.facts())[i] == rows[i]);
    }
    assert forall|i: int, j: int| 0 <= i < j < s.members@.len() implies !text_lt(
        #[trigger] s.members@[j].name@,
        #[trigger] s.members@[i].name@,
    ) by {
        assert(0 <= order[i].index && 0 <= order[j].index);
        assert(s.members@[i].facts().name == s.members@[i].name@);
        assert(s.members@[j].facts().name == s.members@[j].name@);
        assert(s.members@[i].name@ == order[i].first);
        assert(s.members@[j].name@ == order[j].first);
        assert(key_order()(order[i], order[j]));
        lemma_text_lt_irreflexive(order[i].first);
        lemma_text_lt_asymmetric(order[i].first, order[j].first);
    }
    assert(loan_order(l).len() <= 250);
    assert(s.loans@.map_values(|d: LoanDto| d.facts()).len() == s.loans@.len());
    assert(transaction_order(l).len() <= 120);
    assert(s.transactions@.map_values(|d: TransactionDto| d.facts()).len()
        == s.transactions@.len());
    let h = |k: KeyFacts| active_term(l.members@[k.index].status@);
    lemma_active_count_total(l.members@);
    lemma_total_perm(order, keys, h);
    assert(keys.map_values(h) =~= Seq::new(
        l.members@.len(),
        |i: int| active_term(l.members@[i].status@),
    ));
    assert(s.members@.map_values(|m: MemberDto| active_term(m.status@)) =~= order.map_values(h))
        by {
        assert forall|i: int| 0 <= i < s.members@.len() implies s.members@.map_values(
            |m: MemberDto| active_term(m.status@),
        )[i] == #[trigger] order.map_values(h)[i] by {
            assert(0 <= order[i].index);
            assert(s.members@[i].facts().status == s.members@[i].status@);
        }
    }
    if l.wf() && accounts_owned(l) {
        let g = |k: KeyFacts| total(balance_terms(l.accounts@, Some(l.members@[k.index].id@), None));
        lemma_savings_regroup(l, l.accounts@);
        lemma_total_perm(order, keys, g);
        assert(keys.map_values(g) =~= member_savings(l, l.accounts@));
        assert(s.members@.map_values(|m: MemberDto| m.savings as int) =~= order.map_values(g)) by {
            assert forall|i: int| 0 <= i < s.members@.len() implies s.members@.map_values(
                |m: MemberDto| m.savings as int,
            )[i] == #[trigger] order.map_values(g)[i] by {
                assert(0 <= order[i].index);
                assert(s.members@[i].facts().savings == s.members@[i].savings as int);
            }
        }
    }
    if accounts_typed(l) {
        assert forall|i: int| 0 <= i < s.members@.len() implies #[trigger] s.members@[i].savings
            == s.members@[i].principal_savings + s.members@[i].mandatory_savings
            + s.members@[i].voluntary_savings by {
            lemma_savings_by_type(l, l.members@[order[i].index].id@);
        }
    }
}

/// One for an active member, zero for any other.
pub open spec fn active_term(status: Seq<char>) -> int {
    if status == MemberStatus::Active.text() {
        1
    } else {
        0
    }
}

proof fn lemma_active_count_total(members: Seq<Member>)
    ensures
        active_count(members) == total(
            Seq::new(members.len(), |i: int| active_term(members[i].status@)),
        ),
    decreases members.len(),
{
    if members.len() > 0 {
        lemma_active_count_total(members.drop_last());
        assert(Seq::new(members.len(), |i: int| active_term(members[i].status@)).drop_last()
            =~= Seq::new(
            members.drop_last().len(),
            |i: int| active_term(members.drop_last()[i].status@),
        ));
    }
}

/// Every savings account belongs to a member of the books.
pub open spec fn accounts_owned(l: Ledger) -> bool {
    forall|a: int|
        #![trigger l.accounts@[a]]
        0 <= a < l.accounts@.len() ==> exists|i: int|
            0 <= i < l.members@.len() && #[trigger] l.members@[i].id@
                == l.accounts@[a].member_id@
}

/// The savings of each member of the books, over the accounts `acc`.
pub open spec fn member_savings(l: Ledger, acc: Seq<SavingsAccount>) -> Seq<int> {
    Seq::new(
        l.members@.len(),
        |i: int| total(balance_terms(acc, Some(l.members@[i].id@), None)),
    )
}

/// Where every account belongs to one member, the savings of all accounts
/// are the sum of the members' savings.
proof fn lemma_savings_regroup(l: Ledger, acc: Seq<SavingsAccount>)
    requires
        l.wf(),
        forall|a: int|
            #![trigger acc[a]]
            0 <= a < acc.len() ==> exists|i: int|
                0 <= i < l.members@.len() && #[trigger] l.members@[i].id@ == acc[a].member_id@,
    ensures
        total(balance_terms(acc, None, None)) == total(member_savings(l, acc)),
    decreases acc.len(),
{
    let n = l.members@.len();
    let sv = member_savings(l, acc);
    if acc.len() == 0 {
        assert forall|i: int| 0 <= i < n implies #[trigger] sv[i] == 0 by {
            assert(balance_terms(acc, Some(l.members@[i].id@), None).len() == 0);
        }
        lemma_total_zero(sv);
    } else {
        let acc1 = acc.drop_last();
        let a = acc.last();
        assert forall|x: int|
            #![trigger acc1[x]]
            0 <= x < acc1.len() implies exists|i: int|
                0 <= i < l.members@.len() && #[trigger] l.members@[i].id@ == acc1[x].member_id@ by {
            assert(acc1[x] == acc[x]);
        }
        lemma_savings_regroup(l, acc1);
        assert(balance_terms(acc, None, None).drop_last() =~= balance_terms(acc1, None, None));
        let sv1 = member_savings(l, acc1);
        let ind = Seq::new(
            n,
            |i: int|
                if a.member_id@ == l.members@[i].id@ {
                    a.balance as int
                } else {
                    0
                },
        );
        assert forall|i: int| 0 <= i < n implies #[trigger] sv[i] == sv1[i] + ind[i] by {
            let bt = balance_terms(acc, Some(l.members@[i].id@), None);
            assert(bt.drop_last() =~= balance_terms(acc1, Some(l.members@[i].id@), None));
        }
        lemma_total_add(sv1, ind, sv);
        let p = choose|i: int| 0 <= i < l.members@.len() && #[trigger] l.members@[i].id@
            == acc[acc.len() - 1].member_id@;
        assert forall|i: int| 0 <= i < n && i != p implies #[trigger] ind[i] == 0 by {
            if i < p {
                assert(l.members@[i].id@ != l.members@[p].id@);
            } else {
                assert(l.members@[p].id@ != l.members@[i].id@);
            }
        }
        lemma_total_single(ind, p);
    }
}

proof fn lemma_total_add(a: Seq<int>, b: Seq<int>, d: Seq<int>)
    requires
        a.len() == d.len(),
        b.len() == d.len(),
        forall|k: int| 0 <= k < d.len() ==> #[trigger] d[k] == a[k] + b[k],
    ensures
        total(d) == total(a) + total(b),
    decreases d.len(),
{
    if d.len() > 0 {
        assert(d[d.len() - 1] == a[d.len() - 1] + b[d.len() - 1]);
        lemma_total_add(a.drop_last(), b.drop_last(), d.drop_last());
    }
}

proof fn lemma_total_zero(s: Seq<int>)
    requires
        forall|k: int| 0 <= k < s.len() ==> #[trigger] s[k] == 0,
    ensures
        total(s) == 0,
    decreases s.len(),
{
    if s.len() > 0 {
        assert(s[s.len() - 1] == 0);
        lemma_total_zero(s.drop_last());
    }
}

/// Taking one term out of a sum leaves the sum less that term.
proof fn lemma_total_remove(s: Seq<int>, p: int)
    requires
        0 <= p < s.len(),
    ensures
        total(s) == total(s.remove(p)) + s[p],
    decreases s.len(),
{
    if p == s.len() - 1 {
        assert(s.remove(p) =~= s.drop_last());
    } else {
        lemma_total_remove(s.drop_last(), p);
        assert(s.remove(p).drop_last() =~= s.drop_last().remove(p));
        assert(s.remove(p).last() == s.last());
    }
}

proof fn lemma_total_single(s: Seq<int>, p: int)
    requires
        0 <= p < s.len(),
        forall|k: int| 0 <= k < s.len() && k != p ==> #[trigger] s[k] == 0,
    ensures
        total(s) == s[p],
{
    lemma_total_remove(s, p);
    let r = s.remove(p);
    assert forall|k: int| 0 <= k < r.len() implies #[trigger] r[k] == 0 by {
        if k < p {
            assert(r[k] == s[k]);
        } else {
            assert(r[k] == s[k + 1]);
        }
    }
    lemma_total_zero(r);
}

/// A sum over the rows does not depend on the order of the rows.
proof fn lemma_total_perm(x: Seq<KeyFacts>, y: Seq<KeyFacts>, g: spec_fn(KeyFacts) -> int)
    requires
        x.to_multiset() == y.to_multiset(),
    ensures
        total(x.map_values(g)) == total(y.map_values(g)),
    decreases x.len(),
{
    broadcast use vstd::multiset::group_multiset_axioms;

    vstd::seq_lib::to_multiset_len(x);
    vstd::seq_lib::to_multiset_len(y);
    if x.len() > 0 {
        let e = x.last();
        let x1 = x.drop_last();
        assert(x =~= x1.push(e));
        vstd::seq_lib::to_multiset_build(x1, e);
        vstd::seq_lib::to_multiset_contains(y, e);
        assert(y.to_multiset().count(e) > 0);
        assert(y.contains(e));
        let p = choose|p: int| 0 <= p < y.len() && y[p] == e;
        vstd::seq_lib::to_multiset_remove(y, p);
        assert(x1.to_multiset() =~= y.remove(p).to_multiset());
        lemma_total_perm(x1, y.remove(p), g);
        lemma_total_remove(y.map_values(g), p);
        assert(y.map_values(g).remove(p) =~= y.remove(p).map_values(g));
        assert(x.map_values(g).drop_last() =~= x1.map_values(g));
    } else {
        assert(y.len() == 0);
        assert(x.map_values(g) =~= Seq::<int>::empty());
        assert(y.map_values(g) =~= Seq::<int>::empty());
    }
}

/// A member's savings are the sum of the member's three kinds of savings when
/// every account has one of the three types.
proof fn lemma_savings_by_type(l: Ledger, id: Seq<char>)
    requires
        accounts_typed(l),
    ensures
        total(balance_terms(l.accounts@, Some(id), None)) == total(
            balance_terms(l.accounts@, Some(id), Some(SavingsAccountType::Principal.text())),
        ) + total(
            balance_terms(l.accounts@, Some(id), Some(SavingsAccountType::Mandatory.text())),
        ) + total(
            balance_terms(l.accounts@, Some(id), Some(SavingsAccountType::Voluntary.text())),
        ),
{
    reveal_strlit("POKOK");
    reveal_strlit("WAJIB");
    reveal_strlit("MANASUKA");
    let acc = l.accounts@;
    let d = balance_terms(acc, Some(id), None);
    let a = balance_terms(acc, Some(id), Some(SavingsAccountType::Principal.text()));
    let b = balance_terms(acc, Some(id), Some(SavingsAccountType::Mandatory.text()));
    let c = balance_terms(acc, Some(id), Some(SavingsAccountType::Voluntary.text()));
    assert("POKOK"@[0] != "WAJIB"@[0]);
    assert forall|k: int| 0 <= k < d.len() implies #[trigger] d[k] == a[k] + b[k] + c[k] by {
        assert(SavingsAccountType::from_text(acc[k].account_type@) is Some);
    }
    lemma_total_sum3(a, b, c, d);
}

proof fn lemma_total_sum3(a: Seq<int>, b: Seq<int>, c: Seq<int>, d: Seq<int>)
    requires
        a.len() == d.len(),
        b.len() == d.len(),
        c.len() == d.len(),
        forall|k: int| 0 <= k < d.len() ==> #[trigger] d[k] == a[k] + b[k] + c[k],
    ensures
        total(d) == total(a) + total(b) + total(c),
    decreases d.len(),
{
    if d.len() > 0 {
        assert(d[d.len() - 1] == a[d.len() - 1] + b[d.len() - 1] + c[d.len() - 1]);
        lemma_total_sum3(a.drop_last(), b.drop_last(), c.drop_last(), d.drop_last());
    }
}

proof fn lemma_member_status_read_back()
    ensures
        forall|x: crate::domain::MemberStatus| crate::domain::MemberStatus::from_text(#[trigger] x.text()) == Some(x),
{
    reveal_strlit("Aktif");
    reveal_strlit("Nonaktif");
    assert("Aktif"@.len() != "Nonaktif"@.len());
    assert forall|x: crate::domain::MemberStatus| crate::domain::MemberStatus::from_text(#[trigger] x.text()) == Some(x) by {
        match x {
            crate::domain::MemberStatus::Active => {},
            crate::domain::MemberStatus::Inactive => {},
        }
    }
}

proof fn lemma_savings_account_type_read_back()
    ensures
        forall|x: crate::domain::SavingsAccountType| crate::domain::SavingsAccountType::from_text(#[trigger] x.text()) == Some(x),
{
    reveal_strlit("POKOK");
    reveal_strlit("WAJIB");
    reveal_strlit("MANASUKA");
    assert("POKOK"@[0] != "WAJIB"@[0]);
    assert("POKOK"@.len() != "MANASUKA"@.len());
    assert("WAJIB"@.len() != "MANASUKA"@.len());
    assert forall|x: crate::domain::SavingsAccountType| crate::domain::SavingsAccountType::from_text(#[trigger] x.text()) == Some(x) by {
        match x {
            crate::domain::SavingsAccountType::Principal => {},
            crate::domain::SavingsAccountType::Mandatory => {},
            crate::domain::SavingsAccountType::Voluntary => {},
        }
    }
}

proof fn lemma_savings_account_status_read_back()
    ensures
        forall|x: crate::domain::SavingsAccountStatus| crate::domain::SavingsAccountStatus::from_text(#[trigger] x.text()) == Some(x),
{
    reveal_strlit("ACTIVE");
    assert forall|x: crate::domain::SavingsAccountStatus| crate::domain::SavingsAccountStatus::from_text(#[trigger] x.text()) == Some(x) by {
        match x {
            crate::domain::SavingsAccountStatus::Active => {},
        }
    }
}

proof fn lemma_savings_movement_read_back()
    ensures
        forall|x: crate::domain::SavingsMovement| crate::domain::SavingsMovement::from_text(#[trigger] x.text()) == Some(x),
{
    reveal_strlit("Setoran");
    reveal_strlit("Penarikan");
    assert("Setoran"@.len() != "Penarikan"@.len());
    assert forall|x: crate::domain::SavingsMovement| crate::domain::SavingsMovement::from_text(#[trigger] x.text()) == Some(x) by {
        match x {
            crate::domain::SavingsMovement::Deposit => {},
            crate::domain::SavingsMovement::Withdrawal => {},
        }
    }
}

proof fn lemma_loan_status_read_back()
    ensures
        forall|x: crate::domain::LoanStatus| crate::domain::LoanStatus::from_text(#[trigger] x.text()) == Some(x),
{
    reveal_strlit("Draf");
    reveal_strlit("Berjalan");
    reveal_strlit("Perlu review");
    reveal_strlit("Lunas");
    assert("Draf"@.len() != "Berjalan"@.len());
    assert("Draf"@.len() != "Perlu review"@.len());
    assert("Draf"@.len() != "Lunas"@.len());
    assert("Berjalan"@.len() != "Perlu review"@.len());
    assert("Berjalan"@.len() != "Lunas"@.len());
    assert("Perlu review"@.len() != "Lunas"@.len());
    assert forall|x: crate::domain::LoanStatus| crate::domain::LoanStatus::from_text(#[trigger] x.text()) == Some(x) by {
        match x {
            crate::domain::LoanStatus::Draft => {},
            crate::domain::LoanStatus::Active => {},
            crate::domain::LoanStatus::NeedsReview => {},
            crate::domain::LoanStatus::PaidOff => {},
        }
    }
}

proof fn lemma_interest_type_read_back()
    ensures
        forall|x: crate::domain::InterestType| crate::domain::InterestType::from_text(#[trigger] x.text()) == Some(x),
{
    reveal_strlit("Menurun");
    reveal_strlit("Flat");
    assert("Menurun"@.len() != "Flat"@.len());
    assert forall|x: crate::domain::InterestType| crate::domain::InterestType::from_text(#[trigger] x.text()) == Some(x) by {
        match x {
            crate::domain::InterestType::Declining => {},
            crate::domain::InterestType::Flat => {},
        }
    }
}

proof fn lemma_transaction_direction_read_back()
    ensures
        forall|x: crate::domain::TransactionDirection| crate::domain::TransactionDirection::from_text(#[trigger] x.text()) == Some(x),
{
    reveal_strlit("Masuk");
    reveal_strlit("Keluar");
    assert("Masuk"@.len() != "Keluar"@.len());
    assert forall|x: crate::domain::TransactionDirection| crate::domain::TransactionDirection::from_text(#[trigger] x.text()) == Some(x) by {
        match x {
            crate::domain::TransactionDirection::In => {},
            crate::domain::TransactionDirection::Out => {},
        }
    }
}

proof fn lemma_transaction_status_read_back()
    ensures
        forall|x: crate::domain::TransactionStatus| crate::domain::TransactionStatus::from_text(#[trigger] x.text()) == Some(x),
{
    reveal_strlit("Terposting");
    reveal_strlit("Draf");
    reveal_strlit("Dibalik");
    assert("Terposting"@.len() != "Draf"@.len());
    assert("Terposting"@.len() != "Dibalik"@.len());
    assert("Draf"@.len() != "Dibalik"@.len());
    assert forall|x: crate::domain::TransactionStatus| crate::domain::TransactionStatus::from_text(#[trigger] x.text()) == Some(x) by {
        match x {
            crate::domain::TransactionStatus::Posted => {},
            crate::domain::TransactionStatus::Draft => {},
            crate::domain::TransactionStatus::Reversed => {},
        }
    }
}

proof fn lemma_period_status_read_back()
    ensures
        forall|x: crate::domain::PeriodStatus| crate::domain::PeriodStatus::from_text(#[trigger] x.text()) == Some(x),
{
    reveal_strlit("OPEN");
    reveal_strlit("LOCKED");
    assert("OPEN"@.len() != "LOCKED"@.len());
    assert forall|x: crate::domain::PeriodStatus| crate::domain::PeriodStatus::from_text(#[trigger] x.text()) == Some(x) by {
        match x {
            crate::domain::PeriodStatus::Open => {},
            crate::domain::PeriodStatus::Locked => {},
        }
    }
}

/// Every status, type and direction is read back as itself from the text it
/// is stored as.
pub proof fn law_texts_read_back()
    ensures
        forall|x: crate::domain::MemberStatus| crate::domain::MemberStatus::from_text(#[trigger] x.text()) == Some(x),
        forall|x: crate::domain::SavingsAccountType| crate::domain::SavingsAccountType::from_text(#[trigger] x.text()) == Some(x),
        forall|x: crate::domain::SavingsAccountStatus| crate::domain::SavingsAccountStatus::from_text(#[trigger] x.text()) == Some(x),
        forall|x: crate::domain::SavingsMovement| crate::domain::SavingsMovement::from_text(#[trigger] x.text()) == Some(x),
        forall|x: crate::domain::LoanStatus| crate::domain::LoanStatus::from_text(#[trigger] x.text()) == Some(x),
        forall|x: crate::domain::InterestType| crate::domain::InterestType::from_text(#[trigger] x.text()) == Some(x),
        forall|x: crate::domain::TransactionDirection| crate::domain::TransactionDirection::from_text(#[trigger] x.text()) == Some(x),
        forall|x: crate::domain::TransactionStatus| crate::domain::TransactionStatus::from_text(#[trigger] x.text()) == Some(x),
        forall|x: crate::domain::PeriodStatus| crate::domain::PeriodStatus::from_text(#[trigger] x.text()) == Some(x),
{
    lemma_member_status_read_back();
    lemma_savings_account_type_read_back();
    lemma_savings_account_status_read_back();
    lemma_savings_movement_read_back();
    lemma_loan_status_read_back();
    lemma_interest_type_read_back();
    lemma_transaction_direction_read_back();
    lemma_transaction_status_read_back();
    lemma_period_status_read_back();
}

/// Reversing a direction twice gives it back, and a reversal never keeps it.
pub proof fn law_reversed_involution(d: TransactionDirection)
    ensures
        d.spec_reversed().spec_reversed() == d,
        d.spec_reversed() != d,
{
}


// ---------------------------------------------------------------------------
// Names, members and reversals

proof fn lemma_normalized_shape(s: Seq<char>)
    ensures
        forall|i: int|
            0 <= i < normalized(s).len() ==> crate::text::is_alphanumeric(#[trigger] normalized(s)[i])
                && crate::text::upper(normalized(s)[i]) == normalized(s)[i],
    decreases s.len(),
{
    if s.len() > 0 {
        lemma_normalized_shape(s.drop_last());
        let p = normalized(s.drop_last());
        if crate::text::is_alphanumeric(s.last()) {
            let c = crate::text::upper(s.last());
            assert forall|i: int| 0 <= i < p.push(c).len() implies crate::text::is_alphanumeric(
                #[trigger] p.push(c)[i],
            ) && crate::text::upper(p.push(c)[i]) == p.push(c)[i] by {
                if i < p.len() {
                    assert(p.push(c)[i] == p[i]);
                }
            }
        }
    }
}

proof fn lemma_normalized_fixed(s: Seq<char>)
    requires
        forall|i: int|
            0 <= i < s.len() ==> crate::text::is_alphanumeric(#[trigger] s[i])
                && crate::text::upper(s[i]) == s[i],
    ensures
        normalized(s) == s,
    decreases s.len(),
{
    if s.len() > 0 {
        lemma_normalized_fixed(s.drop_last());
        assert(s.last() == s[s.len() - 1]);
        assert(s.drop_last().push(s.last()) =~= s);
    }
}

/// Normalizing a name twice is normalizing it once.
pub proof fn law_normalize_idempotent(name: Seq<char>)
    ensures
        normalized(normalized(name)) == normalized(name),
{
    lemma_normalized_shape(name);
    lemma_normalized_fixed(normalized(name));
}

/// A member number is admitted once: once a member is admitted, a second
/// admission under the same number, whatever its case, is refused.
pub proof fn law_member_number_once(
    l0: Ledger,
    l1: Ledger,
    input: AddMemberInput,
    ids: IdSource,
    again: AddMemberInput,
    again_ids: IdSource,
)
    requires
        member_rejection(l0, input, ids) is None,
        member_added(l0, l1, input, ids),
        crate::text::upper_text(trimmed(again.member_number@)) == crate::text::upper_text(
            trimmed(input.member_number@),
        ),
        trimmed(again.name@).len() > 0,
        again.principal_savings >= 50_000,
        valid_date(again.business_date@),
        !l1.period_locked(again.business_date@.subrange(0, 7)),
    ensures
        member_rejection(l1, again, again_ids) == Some("Nomor anggota sudah digunakan."@),
{
    let n = l0.members@.len();
    assert(l1.members@[n as int] == l1.members@.last());
    assert(l1.members@[n as int].member_number@ == trimmed(input.member_number@));
    assert(member_number_taken(l1, again.member_number@));
    assert(trimmed(again.member_number@).len() > 0) by {
        assert(trimmed(input.member_number@).len() > 0);
        assert(crate::text::upper_text(trimmed(input.member_number@)).len() == trimmed(
            input.member_number@,
        ).len());
    }
}

/// A reversed transaction is not reversed again: the second request is
/// refused because only posted transactions can be reversed.
pub proof fn law_reversal_once(
    l1: Ledger,
    l2: Ledger,
    rev: ReverseTransactionInput,
    ids: IdSource,
    again: ReverseTransactionInput,
)
    requires
        l1.wf(),
        l2.wf(),
        reversal_rejection(l1, rev, ids) is None,
        reversal_posted(l1, l2, rev, ids),
        again.id@ == rev.id@,
        valid_date(again.business_date@),
        !l2.period_locked(again.business_date@.subrange(0, 7)),
    ensures
        reversal_early_rejection(l2, again) == Some("Hanya transaksi terposting yang dapat dibalik."@),
{
    let ti = tx_pos(l1, rev.id@);
    assert(l1.has_transaction_id(rev.id@));
    assert(0 <= ti < l1.transactions@.len() && l1.transactions@[ti].id@ == rev.id@);
    assert(l2.transactions@[ti].id == l1.transactions@[ti].id);
    assert(l2.has_transaction_id(again.id@));
    let tj = tx_pos(l2, again.id@);
    if tj != ti {
        if tj < ti {
            assert(l2.transactions@[tj].id@ != l2.transactions@[ti].id@);
        } else {
            assert(l2.transactions@[ti].id@ != l2.transactions@[tj].id@);
        }
    }
    reveal_strlit("Dibalik");
    reveal_strlit("Terposting");
    reveal_strlit("Draf");
    assert("Dibalik"@.len() != "Terposting"@.len());
    assert("Dibalik"@.len() != "Draf"@.len());
}


// ---------------------------------------------------------------------------
// Seeding and the cash book

/// What the postings add up to, money in counted up and money out down.
pub open spec fn posting_total(ps: Seq<PostingFacts>) -> int
    decreases ps.len(),
{
    if ps.len() == 0 {
        0
    } else {
        posting_total(ps.drop_last()) + if ps.last().direction == TransactionDirection::In.text() {
            ps.last().amount as int
        } else {
            -(ps.last().amount as int)
        }
    }
}

/// The net of the cash book rows that the import posts: money in minus money
/// out of every row of at least 11 cells.
pub open spec fn cash_net(rows: Seq<CashSheetRow>) -> int
    decreases rows.len(),
{
    if rows.len() == 0 {
        0
    } else {
        let cells = rows.last().cells@;
        cash_net(rows.drop_last()) + if cells.len() >= 11 && money_of(cell_at(cells, 4)) is Ok
            && money_of(cell_at(cells, 5)) is Ok {
            money_of(cell_at(cells, 5))->Ok_0 - money_of(cell_at(cells, 4))->Ok_0
        } else {
            0
        }
    }
}

proof fn lemma_cash_balance_total(ps: Seq<CashPosting>)
    ensures
        cash_balance(ps) == posting_total(ps.map_values(|p: CashPosting| p.facts())),
    decreases ps.len(),
{
    if ps.len() > 0 {
        lemma_cash_balance_total(ps.drop_last());
        assert(ps.map_values(|p: CashPosting| p.facts()).drop_last() =~= ps.drop_last().map_values(
            |p: CashPosting| p.facts(),
        ));
    }
}

proof fn lemma_total_concat(a: Seq<PostingFacts>, b: Seq<PostingFacts>)
    ensures
        posting_total(a + b) == posting_total(a) + posting_total(b),
    decreases b.len(),
{
    if b.len() == 0 {
        assert(a + b =~= a);
    } else {
        lemma_total_concat(a, b.drop_last());
        assert((a + b).drop_last() =~= a + b.drop_last());
    }
}

proof fn lemma_members_keep_cash(
    l: Ledger,
    c: Seq<char>,
    s: Imported,
    rows: Seq<Vec<Cell>>,
    bal: Seq<(Seq<char>, (int, int, int))>,
)
    requires
        seed_members(l, c, s, rows, bal) is Ok,
    ensures
        seed_members(l, c, s, rows, bal)->Ok_0.postings == s.postings,
        seed_members(l, c, s, rows, bal)->Ok_0.transactions == s.transactions,
    decreases rows.len(),
{
    if rows.len() > 0 {
        lemma_members_keep_cash(l, c, s, rows.drop_last(), bal);
    }
}

proof fn lemma_loans_keep_cash(
    l: Ledger,
    c: Seq<char>,
    s: Imported,
    rows: Seq<LoanSheetRow>,
    bal: Seq<(Seq<char>, int)>,
)
    requires
        seed_loans(l, c, s, rows, bal) is Ok,
    ensures
        seed_loans(l, c, s, rows, bal)->Ok_0.postings == s.postings,
    decreases rows.len(),
{
    if rows.len() > 0 {
        lemma_loans_keep_cash(l, c, s, rows.drop_last(), bal);
    }
}

proof fn lemma_cash_rows_total(l: Ledger, c: Seq<char>, s: Imported, rows: Seq<CashSheetRow>)
    requires
        seed_cash_rows(l, c, s, rows) is Ok,
    ensures
        posting_total(seed_cash_rows(l, c, s, rows)->Ok_0.postings) == posting_total(s.postings)
            + cash_net(rows),
    decreases rows.len(),
{
    if rows.len() > 0 {
        lemma_cash_rows_total(l, c, s, rows.drop_last());
        let t = seed_cash_rows(l, c, s, rows.drop_last())->Ok_0;
        let u = seed_cash(l, c, t, rows.last());
        lemma_direction_texts();
        if u->Ok_0.postings.len() > t.postings.len() {
            assert(u->Ok_0.postings.drop_last() =~= t.postings);
        }
    }
}

/// The cash book of seeded books adds up to what it held before, the opening
/// cash of the year, and the net of every cash row of the workbook.
pub proof fn law_seeded_cash(l0: Ledger, l1: Ledger, sheets: WorkbookSheets, s: Imported)
    requires
        seed_outcome(l0, sheets) == Ok::<Imported, Seq<char>>(s),
        seeded(l0, l1, s),
    ensures
        cash_balance(l1.cash_postings@) == cash_balance(l0.cash_postings@) + opening_cash()
            + cash_net(sheets.cash_2026@),
{
    let c = l0.company_id@;
    let sb = savings_balances(sheets.savings_2026@)->Ok_0;
    let s1 = seed_members(l0, c, nothing_imported(), sheets.master_savings@, sb)->Ok_0;
    let lb = loan_balances(sheets.loans_2026@)->Ok_0;
    let s2 = seed_loans(l0, c, s1, sheets.master_loans@, lb)->Ok_0;
    let s3 = seed_opening(l0, c, s2)->Ok_0;
    lemma_members_keep_cash(l0, c, nothing_imported(), sheets.master_savings@, sb);
    lemma_loans_keep_cash(l0, c, s1, sheets.master_loans@, lb);
    lemma_cash_rows_total(l0, c, s3, sheets.cash_2026@);
    lemma_direction_texts();
    assert(s3.postings.drop_last() =~= Seq::<PostingFacts>::empty());
    assert(posting_total(Seq::<PostingFacts>::empty()) == 0);
    lemma_cash_balance_total(l0.cash_postings@);
    lemma_cash_balance_total(l1.cash_postings@);
    lemma_total_concat(l0.posting_table(), s.postings);
}


// ---------------------------------------------------------------------------
// Balances never fall below zero

/// No savings account holds less than nothing, and no loan has a negative
/// balance or plafond.
pub open spec fn tables_non_negative(accounts: Seq<AccountFacts>, loans: Seq<LoanFacts>) -> bool {
    &&& forall|i: int| 0 <= i < accounts.len() ==> (#[trigger] accounts[i]).balance >= 0
    &&& forall|i: int|
        0 <= i < loans.len() ==> (#[trigger] loans[i]).balance >= 0 && loans[i].plafond >= 0
}

pub open spec fn balances_non_negative(l: Ledger) -> bool {
    tables_non_negative(l.account_table(), l.loan_table())
}

proof fn lemma_member_keeps_balances(old: Ledger, new: Ledger, input: AddMemberInput, ids: IdSource)
    requires
        balances_non_negative(old),
        member_rejection(old, input, ids) is None,
        member_added(old, new, input, ids),
    ensures
        balances_non_negative(new),
{
    let a = new.account_table();
    let n = old.account_table().len();
    assert forall|i: int| 0 <= i < a.len() implies (#[trigger] a[i]).balance >= 0 by {
        if i < n {
            assert(a[i] == old.account_table()[i]);
        }
    }
}

proof fn lemma_loan_keeps_balances(
    old: Ledger,
    new: Ledger,
    input: CreateLoanInput,
    rate_bits: Result<u64, String>,
    ids: IdSource,
)
    requires
        balances_non_negative(old),
        loan_rejection(old, input, rate_bits, ids) is None,
        loan_drafted(old, new, input, rate_bits->Ok_0, ids),
    ensures
        balances_non_negative(new),
{
    let lt = new.loan_table();
    let n = old.loans@.len();
    assert forall|i: int| 0 <= i < lt.len() implies (#[trigger] lt[i]).balance >= 0 && lt[i].plafond >= 0 by {
        if i < n {
            assert(new.loans@[i] == new.loans@.subrange(0, n as int)[i]);
            assert(lt[i] == old.loan_table()[i]);
        } else {
            assert(new.loans@[i] == new.loans@.last());
        }
    }
    assert(new.account_table() == old.account_table());
}

proof fn lemma_disbursement_keeps_balances(
    old: Ledger,
    new: Ledger,
    input: DisburseLoanInput,
    provision: Result<i64, String>,
    ids: IdSource,
)
    requires
        balances_non_negative(old),
        disbursement_rejection(old, input, provision, ids) is None,
        loan_disbursed(old, new, input, provision->Ok_0, ids),
    ensures
        balances_non_negative(new),
{
    let k = loan_index(old, input.loan_id@);
    assert(old.has_loan_id(input.loan_id@));
    assert(0 <= k < old.loans@.len());
    assert(old.loan_table()[k].plafond >= 0);
    let lt = new.loan_table();
    assert forall|i: int| 0 <= i < lt.len() implies (#[trigger] lt[i]).balance >= 0 && lt[i].plafond >= 0 by {
        if i != k {
            assert(lt[i] == old.loan_table()[i]);
        }
    }
    assert(new.account_table() == old.account_table());
}

proof fn lemma_savings_keeps_balances(
    old: Ledger,
    new: Ledger,
    input: SavingsTransactionInput,
    ids: IdSource,
)
    requires
        balances_non_negative(old),
        savings_rejection(old, input, ids) is None,
        savings_posted(old, new, input, ids),
    ensures
        balances_non_negative(new),
{
    let kind = SavingsAccountType::from_text(input.account_type@).unwrap();
    crate::savings::lemma_first_account(old, input.member_id@, kind.text());
    let k = account_index(old, input.member_id@, kind.text());
    assert(old.account_table()[k].balance == old.accounts@[k].balance);
    let a = new.account_table();
    assert forall|i: int| 0 <= i < a.len() implies (#[trigger] a[i]).balance >= 0 by {
        if i != k {
            assert(a[i] == old.account_table()[i]);
        }
    }
    assert(new.loan_table() == old.loan_table());
}


proof fn lemma_settle_keeps_balances(a: Seq<AccountFacts>, l: Seq<LoanFacts>, o: Seq<KeyFacts>, r: int)
    requires
        tables_non_negative(a, l),
        r >= 0,
        forall|q: int| 0 <= q < o.len() ==> 0 <= #[trigger] o[q].index < l.len(),
    ensures
        tables_non_negative(a, settle(l, o, r).0),
    decreases o.len(),
{
    if o.len() > 0 && r != 0 {
        let i = o[0].index;
        let taken = min(r, l[i].balance as int);
        let nb = l[i].balance - taken;
        let l2 = l.update(
            i,
            LoanFacts {
                balance: nb as i64,
                status: if nb == 0 {
                    LoanStatus::PaidOff.text()
                } else {
                    l[i].status
                },
                ..l[i]
            },
        );
        let o2 = o.drop_first();
        assert forall|q: int| 0 <= q < o2.len() implies 0 <= #[trigger] o2[q].index < l2.len() by {
            assert(o2[q] == o[q + 1]);
        }
        assert(tables_non_negative(a, l2)) by {
            assert forall|j: int| 0 <= j < l2.len() implies (#[trigger] l2[j]).balance >= 0
                && l2[j].plafond >= 0 by {
                if j != i {
                    assert(l2[j] == l[j]);
                }
            }
        }
        lemma_settle_keeps_balances(a, l2, o2, r - taken);
    }
}

proof fn lemma_deposit_keeps_balances(
    l: Ledger,
    accounts: Seq<AccountFacts>,
    loans: Seq<LoanFacts>,
    member_id: Seq<char>,
    kind: SavingsAccountType,
    value: int,
)
    requires
        tables_non_negative(accounts, loans),
        accounts.len() == l.accounts@.len(),
        value >= 0,
        deposit_rejection(l, member_id, kind, value) is None,
        value > 0 ==> accounts[account_index(l, member_id, kind.text())].balance + value <= i64::MAX,
    ensures
        tables_non_negative(deposited(l, accounts, member_id, kind, value), loans),
        deposited(l, accounts, member_id, kind, value).len() == accounts.len(),
{
    if value > 0 {
        crate::savings::lemma_first_account(l, member_id, kind.text());
        let k = account_index(l, member_id, kind.text());
        let d = deposited(l, accounts, member_id, kind, value);
        assert forall|j: int| 0 <= j < d.len() implies (#[trigger] d[j]).balance >= 0 by {
            if j != k {
                assert(d[j] == accounts[j]);
            }
        }
    }
}

proof fn lemma_payment_keeps_balances(old: Ledger, new: Ledger, input: PaymentInput, ids: IdSource)
    requires
        balances_non_negative(old),
        payment_rejection(old, input, ids) is None,
        payment_posted(old, new, input, ids),
    ensures
        balances_non_negative(new),
{
    let m = input.member_id@;
    let lt0 = old.loan_table();
    let a0 = old.account_table();
    let o = payment_order(lt0, m);
    crate::savings::lemma_payment_order(lt0, m);
    lemma_settle_keeps_balances(a0, lt0, o, input.principal as int);
    let lt1 = settle(lt0, o, input.principal as int).0;
    let kw = account_index(old, m, SavingsAccountType::Mandatory.text());
    let kv = account_index(old, m, SavingsAccountType::Voluntary.text());
    if input.wajib > 0 {
        crate::savings::lemma_first_account(old, m, SavingsAccountType::Mandatory.text());
        assert(a0[kw].balance == old.accounts@[kw].balance);
    }
    lemma_deposit_keeps_balances(old, a0, lt1, m, SavingsAccountType::Mandatory, input.wajib as int);
    let aw = deposited(old, a0, m, SavingsAccountType::Mandatory, input.wajib as int);
    if input.voluntary > 0 {
        crate::savings::lemma_first_account(old, m, SavingsAccountType::Voluntary.text());
        lemma_payment_texts();
        if input.wajib > 0 {
            crate::savings::lemma_first_account(old, m, SavingsAccountType::Mandatory.text());
            assert(kw != kv);
        }
        assert(aw[kv] == a0[kv]);
        assert(a0[kv].balance == old.accounts@[kv].balance);
    }
    lemma_deposit_keeps_balances(old, aw, lt1, m, SavingsAccountType::Voluntary, input.voluntary as int);
}


proof fn lemma_reverse_keeps_balances(a: Seq<AccountFacts>, l: Seq<LoanFacts>, cs: Seq<ComponentFacts>)
    requires
        tables_non_negative(a, l),
        crate::transactions::walk_in_range(a, l, cs),
        reverse_components(a, l, cs) is Ok,
    ensures
        tables_non_negative(reverse_components(a, l, cs)->Ok_0.0, reverse_components(a, l, cs)->Ok_0.1),
    decreases cs.len(),
{
    if cs.len() > 0 {
        let d = cs.drop_last();
        assert(reverse_components(a, l, d) is Ok);
        assert(crate::transactions::component_in_range(cs.last()));
        lemma_reverse_keeps_balances(a, l, d);
        let p = reverse_components(a, l, d)->Ok_0;
        let c = cs.last();
        assert(c == cs[cs.len() - 1]);
        let q = reverse_component(p.0, p.1, c)->Ok_0;
        assert forall|j: int| 0 <= j < q.0.len() implies (#[trigger] q.0[j]).balance >= 0 by {
            if q.0[j] != p.0[j] {
                assert(has_prefix(c.component_type, "SAVINGS_"@));
            }
        }
        assert forall|j: int| 0 <= j < q.1.len() implies (#[trigger] q.1[j]).balance >= 0
            && q.1[j].plafond >= 0 by {
            if q.1[j] != p.1[j] {
                assert(p.1[j].plafond >= 0);
            }
        }
    }
}

proof fn lemma_reversal_keeps_balances(
    old: Ledger,
    new: Ledger,
    input: ReverseTransactionInput,
    ids: IdSource,
)
    requires
        balances_non_negative(old),
        crate::transactions::reversal_in_range(old, input),
        reversal_rejection(old, input, ids) is None,
        reversal_posted(old, new, input, ids),
    ensures
        balances_non_negative(new),
{
    let ti = tx_pos(old, input.id@);
    assert(old.has_transaction_id(input.id@));
    assert(0 <= ti < old.transactions@.len() && old.transactions@[ti].id@ == input.id@);
    let cs = component_facts(old.transactions@[ti].components@);
    lemma_reverse_keeps_balances(old.account_table(), old.loan_table(), cs);
}


proof fn lemma_money_range(c: crate::workbook::CellFacts)
    ensures
        money_of(c) matches Ok(v) ==> i64::MIN <= v <= i64::MAX,
{
    if let crate::workbook::CellFacts::Text(t) = c {
        let tt = trimmed(t);
        let d = crate::workbook::digits_of(tt);
        if money_of(c) is Ok && !(tt.len() == 0 || tt == "-"@ || tt == "`"@) {
            assert(d.len() != 0);
            assert(digits_value(d) <= i64::MAX);
            lemma_digits_of_non_negative(tt);
        }
    }
}

proof fn lemma_digits_of_non_negative(s: Seq<char>)
    ensures
        digits_value(crate::workbook::digits_of(s)) >= 0,
    decreases s.len(),
{
    if s.len() > 0 {
        lemma_digits_of_non_negative(s.drop_last());
        let d = crate::workbook::digits_of(s.drop_last());
        if is_digit(s.last()) {
            assert(crate::workbook::digits_of(s).drop_last() =~= d);
        }
    }
}

/// The value found under a key is one of the entries' values.
proof fn lemma_latest_is_entry<V>(entries: Seq<(Seq<char>, V)>, key: Seq<char>)
    ensures
        crate::seed::latest(entries, key) matches Some(v) ==> exists|j: int|
            0 <= j < entries.len() && #[trigger] entries[j].1 == v,
    decreases entries.len(),
{
    if entries.len() > 0 {
        lemma_latest_is_entry(entries.drop_last(), key);
        if entries.last().0 != key {
            if let Some(v) = crate::seed::latest(entries, key) {
                let j = choose|j: int| 0 <= j < entries.drop_last().len() && #[trigger] entries.drop_last()[j].1 == v;
                assert(entries[j] == entries.drop_last()[j]);
            }
        } else {
            assert(entries[entries.len() - 1] == entries.last());
        }
    }
}

proof fn lemma_savings_balances_range(rows: Seq<Vec<Cell>>)
    ensures
        savings_balances(rows) matches Ok(acc) ==> forall|j: int|
            0 <= j < acc.len() ==> i64::MIN <= (#[trigger] acc[j]).1.0 <= i64::MAX && i64::MIN
                <= acc[j].1.1 <= i64::MAX && i64::MIN <= acc[j].1.2 <= i64::MAX,
    decreases rows.len(),
{
    if rows.len() > 0 {
        lemma_savings_balances_range(rows.drop_last());
        let row = rows.last()@;
        if row.len() >= 17 {
            lemma_money_range(cell_at(row, 14));
            lemma_money_range(cell_at(row, 15));
            lemma_money_range(cell_at(row, 16));
        }
        if let Ok(acc) = savings_balances(rows) {
            let prev = savings_balances(rows.drop_last())->Ok_0;
            assert forall|j: int| 0 <= j < acc.len() implies i64::MIN <= (#[trigger] acc[j]).1.0
                <= i64::MAX && i64::MIN <= acc[j].1.1 <= i64::MAX && i64::MIN <= acc[j].1.2
                <= i64::MAX by {
                if j < prev.len() {
                    assert(acc[j] == prev[j]);
                }
            }
        }
    }
}

proof fn lemma_loan_balances_range(rows: Seq<Vec<Cell>>)
    ensures
        loan_balances(rows) matches Ok(acc) ==> forall|j: int|
            0 <= j < acc.len() ==> 0 <= (#[trigger] acc[j]).1 <= i64::MAX,
    decreases rows.len(),
{
    if rows.len() > 0 {
        lemma_loan_balances_range(rows.drop_last());
        let row = rows.last()@;
        if row.len() >= 23 {
            lemma_money_range(cell_at(row, 22));
        }
        if let Ok(acc) = loan_balances(rows) {
            let prev = loan_balances(rows.drop_last())->Ok_0;
            assert forall|j: int| 0 <= j < acc.len() implies 0 <= (#[trigger] acc[j]).1 <= i64::MAX by {
                if j < prev.len() {
                    assert(acc[j] == prev[j]);
                }
            }
        }
    }
}

proof fn lemma_members_keep_balances(
    l: Ledger,
    c: Seq<char>,
    s: Imported,
    rows: Seq<Vec<Cell>>,
    bal: Seq<(Seq<char>, (int, int, int))>,
)
    requires
        tables_non_negative(s.accounts, s.loans),
        forall|j: int|
            0 <= j < bal.len() ==> i64::MIN <= (#[trigger] bal[j]).1.0 <= i64::MAX && i64::MIN
                <= bal[j].1.1 <= i64::MAX && i64::MIN <= bal[j].1.2 <= i64::MAX,
        seed_members(l, c, s, rows, bal) is Ok,
    ensures
        tables_non_negative(
            seed_members(l, c, s, rows, bal)->Ok_0.accounts,
            seed_members(l, c, s, rows, bal)->Ok_0.loans,
        ),
    decreases rows.len(),
{
    if rows.len() > 0 {
        lemma_members_keep_balances(l, c, s, rows.drop_last(), bal);
        let t = seed_members(l, c, s, rows.drop_last(), bal)->Ok_0;
        let row = rows.last()@;
        let sid = crate::workbook::cell_text_of(cell_at(row, 0));
        lemma_money_range(cell_at(row, 4));
        lemma_money_range(cell_at(row, 5));
        lemma_money_range(cell_at(row, 6));
        lemma_latest_is_entry(bal, sid);
        let u = seed_members(l, c, s, rows, bal)->Ok_0;
        assert forall|j: int| 0 <= j < u.accounts.len() implies (#[trigger] u.accounts[j]).balance >= 0 by {
            if j < t.accounts.len() {
                assert(u.accounts[j] == t.accounts[j]);
            }
        }
    }
}

proof fn lemma_loans_keep_balances(
    l: Ledger,
    c: Seq<char>,
    s: Imported,
    rows: Seq<LoanSheetRow>,
    bal: Seq<(Seq<char>, int)>,
)
    requires
        tables_non_negative(s.accounts, s.loans),
        forall|j: int| 0 <= j < bal.len() ==> 0 <= (#[trigger] bal[j]).1 <= i64::MAX,
        seed_loans(l, c, s, rows, bal) is Ok,
    ensures
        tables_non_negative(
            seed_loans(l, c, s, rows, bal)->Ok_0.accounts,
            seed_loans(l, c, s, rows, bal)->Ok_0.loans,
        ),
        seed_loans(l, c, s, rows, bal)->Ok_0.accounts == s.accounts,
    decreases rows.len(),
{
    if rows.len() > 0 {
        lemma_loans_keep_balances(l, c, s, rows.drop_last(), bal);
        let t = seed_loans(l, c, s, rows.drop_last(), bal)->Ok_0;
        let cells = rows.last().cells@;
        let sid = crate::workbook::cell_text_of(cell_at(cells, 0));
        lemma_money_range(cell_at(cells, 4));
        lemma_latest_is_entry(bal, sid);
        let u = seed_loans(l, c, s, rows, bal)->Ok_0;
        assert forall|j: int| 0 <= j < u.loans.len() implies (#[trigger] u.loans[j]).balance >= 0
            && u.loans[j].plafond >= 0 by {
            if j < t.loans.len() {
                assert(u.loans[j] == t.loans[j]);
            }
        }
    }
}

proof fn lemma_cash_rows_keep_tables(l: Ledger, c: Seq<char>, s: Imported, rows: Seq<CashSheetRow>)
    requires
        seed_cash_rows(l, c, s, rows) is Ok,
    ensures
        seed_cash_rows(l, c, s, rows)->Ok_0.accounts == s.accounts,
        seed_cash_rows(l, c, s, rows)->Ok_0.loans == s.loans,
    decreases rows.len(),
{
    if rows.len() > 0 {
        lemma_cash_rows_keep_tables(l, c, s, rows.drop_last());
    }
}

proof fn lemma_seed_keeps_balances(old: Ledger, new: Ledger, sheets: WorkbookSheets, s: Imported)
    requires
        balances_non_negative(old),
        seed_outcome(old, sheets) == Ok::<Imported, Seq<char>>(s),
        seeded(old, new, s),
    ensures
        balances_non_negative(new),
{
    let c = old.company_id@;
    let sb = savings_balances(sheets.savings_2026@)->Ok_0;
    lemma_savings_balances_range(sheets.savings_2026@);
    lemma_members_keep_balances(old, c, nothing_imported(), sheets.master_savings@, sb);
    let s1 = seed_members(old, c, nothing_imported(), sheets.master_savings@, sb)->Ok_0;
    let lb = loan_balances(sheets.loans_2026@)->Ok_0;
    lemma_loan_balances_range(sheets.loans_2026@);
    lemma_loans_keep_balances(old, c, s1, sheets.master_loans@, lb);
    let s2 = seed_loans(old, c, s1, sheets.master_loans@, lb)->Ok_0;
    let s3 = seed_opening(old, c, s2)->Ok_0;
    lemma_cash_rows_keep_tables(old, c, s3, sheets.cash_2026@);
    let a = new.account_table();
    let n = old.account_table().len();
    assert forall|j: int| 0 <= j < a.len() implies (#[trigger] a[j]).balance >= 0 by {
        if j < n {
            assert(a[j] == old.account_table()[j]);
        } else {
            assert(a[j] == s.accounts[j - n]);
        }
    }
    let lt = new.loan_table();
    let m = old.loan_table().len();
    assert forall|j: int| 0 <= j < lt.len() implies (#[trigger] lt[j]).balance >= 0 && lt[j].plafond >= 0 by {
        if j < m {
            assert(lt[j] == old.loan_table()[j]);
        } else {
            assert(lt[j] == s.loans[j - m]);
        }
    }
}

/// An imported loan runs for at least one month, and its status follows its
/// balance: under review as the sheet marks it, paid off at a zero balance,
/// running otherwise.
pub open spec fn loan_shaped(f: LoanFacts) -> bool {
    &&& f.tenor >= 1
    &&& (f.status == LoanStatus::NeedsReview.text() || (f.status == LoanStatus::PaidOff.text()
        && f.balance == 0) || (f.status == LoanStatus::Active.text() && f.balance != 0))
}

/// What an import adds: savings balances, loan balances and plafonds at zero
/// or above, every loan with a tenor of at least one month and a status that
/// follows its balance.
pub proof fn law_seed_import_shape(l: Ledger, sheets: WorkbookSheets, s: Imported)
    requires
        seed_outcome(l, sheets) == Ok::<Imported, Seq<char>>(s),
    ensures
        tables_non_negative(s.accounts, s.loans),
        forall|j: int| 0 <= j < s.loans.len() ==> loan_shaped(#[trigger] s.loans[j]),
{
    let c = l.company_id@;
    let sb = savings_balances(sheets.savings_2026@)->Ok_0;
    lemma_savings_balances_range(sheets.savings_2026@);
    lemma_members_keep_balances(l, c, nothing_imported(), sheets.master_savings@, sb);
    lemma_members_keep_loans(l, c, nothing_imported(), sheets.master_savings@, sb);
    let s1 = seed_members(l, c, nothing_imported(), sheets.master_savings@, sb)->Ok_0;
    let lb = loan_balances(sheets.loans_2026@)->Ok_0;
    lemma_loan_balances_range(sheets.loans_2026@);
    lemma_loans_keep_balances(l, c, s1, sheets.master_loans@, lb);
    lemma_loans_shaped(l, c, s1, sheets.master_loans@, lb);
    let s2 = seed_loans(l, c, s1, sheets.master_loans@, lb)->Ok_0;
    let s3 = seed_opening(l, c, s2)->Ok_0;
    lemma_cash_rows_keep_tables(l, c, s3, sheets.cash_2026@);
}

proof fn lemma_members_keep_loans(
    l: Ledger,
    c: Seq<char>,
    s: Imported,
    rows: Seq<Vec<Cell>>,
    bal: Seq<(Seq<char>, (int, int, int))>,
)
    requires
        seed_members(l, c, s, rows, bal) is Ok,
    ensures
        seed_members(l, c, s, rows, bal)->Ok_0.loans == s.loans,
    decreases rows.len(),
{
    if rows.len() > 0 {
        lemma_members_keep_loans(l, c, s, rows.drop_last(), bal);
    }
}

proof fn lemma_loans_shaped(
    l: Ledger,
    c: Seq<char>,
    s: Imported,
    rows: Seq<LoanSheetRow>,
    bal: Seq<(Seq<char>, int)>,
)
    requires
        forall|j: int| 0 <= j < s.loans.len() ==> loan_shaped(#[trigger] s.loans[j]),
        forall|j: int| 0 <= j < bal.len() ==> 0 <= (#[trigger] bal[j]).1 <= i64::MAX,
        seed_loans(l, c, s, rows, bal) is Ok,
    ensures
        forall|j: int|
            0 <= j < seed_loans(l, c, s, rows, bal)->Ok_0.loans.len() ==> loan_shaped(
                #[trigger] seed_loans(l, c, s, rows, bal)->Ok_0.loans[j],
            ),
    decreases rows.len(),
{
    if rows.len() > 0 {
        lemma_loans_shaped(l, c, s, rows.drop_last(), bal);
        let t = seed_loans(l, c, s, rows.drop_last(), bal)->Ok_0;
        let cells = rows.last().cells@;
        let sid = crate::workbook::cell_text_of(cell_at(cells, 0));
        lemma_money_range(cell_at(cells, 4));
        lemma_latest_is_entry(bal, sid);
        let u = seed_loans(l, c, s, rows, bal)->Ok_0;
        assert forall|j: int| 0 <= j < u.loans.len() implies loan_shaped(#[trigger] u.loans[j]) by {
            if j < t.loans.len() {
                assert(u.loans[j] == t.loans[j]);
            }
        }
    }
}


/// Every request leaves savings balances, loan balances and plafonds at zero
/// or above when it finds them so.
pub proof fn law_balances_stay_non_negative(
    old: Ledger,
    new: Ledger,
    ids: IdSource,
    new_ids: IdSource,
    command: Command,
    r: Result<AppSnapshot, String>,
)
    requires
        balances_non_negative(old),
        command matches Command::ReverseTransaction(input) ==> crate::transactions::reversal_in_range(
            old,
            input,
        ),
        served(old, new, ids, new_ids, command, r),
    ensures
        balances_non_negative(new),
{
    match command {
        Command::GetAppSnapshot => {},
        Command::ImportWorkbook(sheets) => {
            if let Ok(s) = seed_outcome(old, sheets) {
                lemma_seed_keeps_balances(old, new, sheets, s);
            }
        },
        Command::AddMember(input) => {
            if member_rejection(old, input, ids) is None {
                lemma_member_keeps_balances(old, new, input, ids);
            }
        },
        Command::CreateLoan { loan, rate_bits } => {
            if loan_rejection(old, loan, rate_bits, ids) is None {
                lemma_loan_keeps_balances(old, new, loan, rate_bits, ids);
            }
        },
        Command::DisburseLoan { disbursement, provision } => {
            if disbursement_rejection(old, disbursement, provision, ids) is None {
                lemma_disbursement_keeps_balances(old, new, disbursement, provision, ids);
            }
        },
        Command::PostSavingsTransaction(input) => {
            if savings_rejection(old, input, ids) is None {
                lemma_savings_keeps_balances(old, new, input, ids);
            }
        },
        Command::PostPayment(input) => {
            if payment_rejection(old, input, ids) is None {
                lemma_payment_keeps_balances(old, new, input, ids);
            }
        },
        Command::ReverseTransaction(input) => {
            if reversal_rejection(old, input, ids) is None {
                lemma_reversal_keeps_balances(old, new, input, ids);
            }
        },
    }
}


// ---------------------------------------------------------------------------
// How the cash book moves

/// The refusal of a request, when it is refused.
pub open spec fn refusal(old: Ledger, ids: IdSource, command: Command) -> Option<Seq<char>> {
    match command {
        Command::GetAppSnapshot => None,
        Command::ImportWorkbook(sheets) => match seed_outcome(old, sheets) {
            Err(m) => Some(m),
            Ok(_) => None,
        },
        Command::AddMember(input) => member_rejection(old, input, ids),
        Command::CreateLoan { loan, rate_bits } => loan_rejection(old, loan, rate_bits, ids),
        Command::DisburseLoan { disbursement, provision } => disbursement_rejection(
            old,
            disbursement,
            provision,
            ids,
        ),
        Command::PostSavingsTransaction(input) => savings_rejection(old, input, ids),
        Command::PostPayment(input) => payment_rejection(old, input, ids),
        Command::ReverseTransaction(input) => reversal_rejection(old, input, ids),
    }
}

/// The money that an accepted request moves through the cash book, money in
/// counted up and money out counted down.
pub open spec fn cash_moved(old: Ledger, command: Command) -> int {
    match command {
        Command::GetAppSnapshot => 0,
        Command::ImportWorkbook(sheets) => opening_cash() + cash_net(sheets.cash_2026@),
        Command::AddMember(input) => input.principal_savings as int,
        Command::CreateLoan { .. } => 0,
        Command::DisburseLoan { disbursement, provision } => (if provision->Ok_0 > 0 {
            provision->Ok_0 as int
        } else {
            0
        }) - old.loans@[loan_index(old, disbursement.loan_id@)].plafond,
        Command::PostSavingsTransaction(input) => if SavingsMovement::from_text(input.movement@)
            == Some(SavingsMovement::Deposit) {
            input.amount as int
        } else {
            -(input.amount as int)
        },
        Command::PostPayment(input) => crate::savings::payment_total(input),
        Command::ReverseTransaction(input) => {
            let t = old.transactions@[tx_pos(old, input.id@)];
            if t.direction@ == TransactionDirection::In.text() {
                -(t.amount as int)
            } else {
                t.amount as int
            }
        },
    }
}

/// Every request moves the cash on hand by exactly the money it posts, and a
/// refused request moves nothing.
pub proof fn law_cash_moves(
    old: Ledger,
    new: Ledger,
    ids: IdSource,
    new_ids: IdSource,
    command: Command,
    r: Result<AppSnapshot, String>,
)
    requires
        served(old, new, ids, new_ids, command, r),
    ensures
        cash_balance(new.cash_postings@) == cash_balance(old.cash_postings@) + if refusal(
            old,
            ids,
            command,
        ) is Some {
            0
        } else {
            cash_moved(old, command)
        },
{
    lemma_direction_texts();
    if refusal(old, ids, command) is None {
        match command {
            Command::GetAppSnapshot => {},
            Command::ImportWorkbook(sheets) => {
                law_seeded_cash(old, new, sheets, seed_outcome(old, sheets)->Ok_0);
            },
            Command::AddMember(input) => {
                lemma_cash_push(old.cash_postings@, new.cash_postings@);
            },
            Command::CreateLoan { .. } => {},
            Command::DisburseLoan { disbursement, provision } => {
                let m = old.cash_postings@.len();
                let p = provision->Ok_0;
                if p > 0 {
                    let a = new.cash_postings@.subrange(0, m + 1int);
                    assert(a.subrange(0, m as int) =~= old.cash_postings@);
                    lemma_cash_push(old.cash_postings@, a);
                    assert(new.cash_postings@.subrange(0, m + 1int) =~= a);
                    lemma_cash_push(a, new.cash_postings@);
                } else {
                    lemma_cash_push(old.cash_postings@, new.cash_postings@);
                }
            },
            Command::PostSavingsTransaction(input) => {
                lemma_cash_push(old.cash_postings@, new.cash_postings@);
            },
            Command::PostPayment(input) => {
                lemma_cash_push(old.cash_postings@, new.cash_postings@);
            },
            Command::ReverseTransaction(input) => {
                lemma_cash_push(old.cash_postings@, new.cash_postings@);
            },
        }
    }
}


/// Identifiers stamped with the same prefix differ when their sequence
/// numbers do, whatever the clock readings they carry: the sequence number is
/// the text after the last `-`, and neither number's digits hold a `-`.
pub proof fn law_ids_differ(prefix: Seq<char>, millis_a: nat, millis_b: nat, a: nat, b: nat)
    requires
        a != b,
    ensures
        crate::domain::id_text(prefix, millis_a, a) != crate::domain::id_text(
            prefix,
            millis_b,
            b,
        ),
{
    let x = crate::domain::id_text(prefix, millis_a, a);
    let y = crate::domain::id_text(prefix, millis_b, b);
    let hx = prefix + seq!['-'] + decimal(millis_a) + seq!['-'];
    let hy = prefix + seq!['-'] + decimal(millis_b) + seq!['-'];
    let da = decimal(a);
    let db = decimal(b);
    assert(x =~= hx + da);
    assert(y =~= hy + db);
    lemma_decimal_value(a);
    lemma_decimal_value(b);
    if x == y {
        if da.len() < db.len() {
            let k = x.len() - da.len() - 1;
            assert(x[k] == hx[hx.len() - 1]);
            assert(y[k] == db[k - hy.len()]);
            assert(is_digit(db[k - hy.len()]));
        } else if db.len() < da.len() {
            let k = y.len() - db.len() - 1;
            assert(y[k] == hy[hy.len() - 1]);
            assert(x[k] == da[k - hx.len()]);
            assert(is_digit(da[k - hx.len()]));
        } else {
            assert(da =~= x.subrange(hx.len() as int, x.len() as int));
            assert(db =~= y.subrange(hy.len() as int, y.len() as int));
        }
    }
}

/// Identifiers drawn one after another from one source never repeat, as long
/// as fewer than 2^64 are drawn: the sequence number moves on by one with each.
pub proof fn law_draws_differ(g: IdSource, prefix: Seq<char>, i: nat, j: nat)
    requires
        i < j < 0x1_0000_0000_0000_0000,
    ensures
        g.advanced_by(i).peek(prefix) != g.advanced_by(j).peek(prefix),
{
    let m: int = 0x1_0000_0000_0000_0000;
    lemma_advanced_by(g, i);
    lemma_advanced_by(g, j);
    if g.advanced_by(i).next == g.advanced_by(j).next {
        vstd::arithmetic::div_mod::lemma_mod_equivalence(g.next + j, g.next + i, m);
        vstd::arithmetic::div_mod::lemma_small_mod((j - i) as nat, m as nat);
        assert(false);
    }
    law_ids_differ(
        prefix,
        g.millis as nat,
        g.millis as nat,
        g.advanced_by(i).next as nat,
        g.advanced_by(j).next as nat,
    );
}

proof fn lemma_advanced_by(g: IdSource, k: nat)
    ensures
        g.advanced_by(k).millis == g.millis,
        g.advanced_by(k).next == (g.next + k) % 0x1_0000_0000_0000_0000,
    decreases k,
{
    let m: int = 0x1_0000_0000_0000_0000;
    if k == 0 {
        vstd::arithmetic::div_mod::lemma_small_mod(g.next as nat, m as nat);
    } else {
        lemma_advanced_by(g, (k - 1) as nat);
        let a = (g.next + k - 1) % m;
        vstd::arithmetic::div_mod::lemma_add_mod_noop(g.next + k - 1, 1, m);
        vstd::arithmetic::div_mod::lemma_mod_bound(g.next + k - 1, m);
        if a == m - 1 {
            vstd::arithmetic::div_mod::lemma_mod_self_0(m);
        } else {
            vstd::arithmetic::div_mod::lemma_small_mod((a + 1) as nat, m as nat);
        }
        vstd::arithmetic::div_mod::lemma_small_mod(1, m as nat);
    }
}

// ---------------------------------------------------------------------------
// What a payment does to the loans, and which savings can be withdrawn

/// A payment's principal marks a loan paid off (`Lunas`) exactly when it
/// brings the loan's balance to zero: a loan left with a positive balance keeps
/// its status, a loan whose status changes is now `Lunas` at a zero balance,
/// and a loan the payment brings down to zero is `Lunas`. No loan is added or
/// taken away, and no balance rises.
pub proof fn law_payment_closes_paid_loans(
    old: Ledger,
    new: Ledger,
    input: PaymentInput,
    ids: IdSource,
)
    requires
        payment_rejection(old, input, ids) is None,
        payment_posted(old, new, input, ids),
    ensures
        new.loans@.len() == old.loans@.len(),
        forall|j: int|
            #![trigger new.loans@[j]]
            0 <= j < old.loans@.len() ==> {
                let was = old.loans@[j];
                let now = new.loans@[j];
                &&& 0 <= now.balance <= was.balance || now.balance == was.balance
                &&& now.balance > 0 ==> now.status@ == was.status@
                &&& now.status@ != was.status@ ==> now.status@ == "Lunas"@ && now.balance == 0
                &&& now.balance != was.balance && now.balance == 0 ==> now.status@ == "Lunas"@
            },
{
    let m = input.member_id@;
    let lt0 = old.loan_table();
    let o = payment_order(lt0, m);
    crate::savings::lemma_payment_order(lt0, m);
    assert(settles_running_loans(lt0, o)) by {
        assert forall|q: int| 0 <= q < o.len() implies 0 <= #[trigger] o[q].index < lt0.len()
            && lt0[o[q].index].balance > 0 && lt0[o[q].index].status
            == LoanStatus::Active.text() by {
            assert(crate::savings::is_payment_candidate(lt0[o[q].index], m));
        }
    }
    assert(input.principal >= 0);
    lemma_settle_status(lt0, o, input.principal as int);
    reveal_strlit("Lunas");
    let lt1 = new.loan_table();
    assert(lt1.len() == new.loans@.len());
    assert forall|j: int|
        #![trigger new.loans@[j]]
        0 <= j < old.loans@.len() implies {
        let was = old.loans@[j];
        let now = new.loans@[j];
        &&& 0 <= now.balance <= was.balance || now.balance == was.balance
        &&& now.balance > 0 ==> now.status@ == was.status@
        &&& now.status@ != was.status@ ==> now.status@ == "Lunas"@ && now.balance == 0
        &&& now.balance != was.balance && now.balance == 0 ==> now.status@ == "Lunas"@
    } by {
        assert(lt0[j] == old.loans@[j].facts());
        assert(lt1[j] == new.loans@[j].facts());
    }
}

/// Settling principal changes a loan only by lowering its balance, to zero at
/// the least; a loan keeps its status while a balance remains, and is marked
/// paid off when its balance reaches zero.
proof fn lemma_settle_status(l: Seq<LoanFacts>, o: Seq<KeyFacts>, r: int)
    requires
        settles_running_loans(l, o),
        r >= 0,
    ensures
        settle(l, o, r).0.len() == l.len(),
        forall|j: int|
            #![trigger settle(l, o, r).0[j]]
            0 <= j < l.len() ==> {
                let now = settle(l, o, r).0[j];
                &&& now.balance == l[j].balance || 0 <= now.balance < l[j].balance
                &&& now.balance > 0 ==> now.status == l[j].status
                &&& now.status != l[j].status ==> now.status == LoanStatus::PaidOff.text()
                    && now.balance == 0
                &&& now.balance != l[j].balance && now.balance == 0 ==> now.status
                    == LoanStatus::PaidOff.text()
            },
    decreases o.len(),
{
    if o.len() > 0 && r != 0 {
        let i = o[0].index;
        let taken = min(r, l[i].balance as int);
        let nb = l[i].balance - taken;
        let l2 = l.update(
            i,
            LoanFacts {
                balance: nb as i64,
                status: if nb == 0 {
                    LoanStatus::PaidOff.text()
                } else {
                    l[i].status
                },
                ..l[i]
            },
        );
        let o2 = o.drop_first();
        assert(settles_running_loans(l2, o2)) by {
            assert forall|q: int| 0 <= q < o2.len() implies 0 <= #[trigger] o2[q].index < l2.len()
                && l2[o2[q].index].balance > 0 && l2[o2[q].index].status
                == LoanStatus::Active.text() by {
                assert(o2[q] == o[q + 1]);
                assert(o[q + 1].index != o[0].index);
            }
            assert forall|p: int, q: int|
                0 <= p < o2.len() && 0 <= q < o2.len() && p != q implies #[trigger] o2[p].index
                != #[trigger] o2[q].index by {
                assert(o2[p] == o[p + 1] && o2[q] == o[q + 1]);
            }
        }
        lemma_settle_status(l2, o2, r - taken);
        let fin = settle(l, o, r).0;
        assert(fin == settle(l2, o2, r - taken).0);
        assert forall|j: int| 0 <= j < l.len() implies {
            let now = #[trigger] fin[j];
            &&& now.balance == l[j].balance || 0 <= now.balance < l[j].balance
            &&& now.balance > 0 ==> now.status == l[j].status
            &&& now.status != l[j].status ==> now.status == LoanStatus::PaidOff.text()
                && now.balance == 0
            &&& now.balance != l[j].balance && now.balance == 0 ==> now.status
                == LoanStatus::PaidOff.text()
        } by {
            assert(fin[j] == settle(l2, o2, r - taken).0[j]);
            if j == i {
                assert(l2[j].balance == nb);
                if nb == 0 {
                    // A paid-off loan is no longer running, so the rest of the order skips it.
                    if fin[j] != l2[j] {
                        assert(fin[j].balance == l2[j].balance || 0 <= fin[j].balance < l2[j].balance);
                    }
                }
            }
        }
    }
}

/// Only voluntary (`MANASUKA`) savings can be withdrawn: a withdrawal passes
/// every check only from a voluntary account, and a withdrawal from a
/// principal (`POKOK`) or mandatory (`WAJIB`) account is always refused.
pub proof fn law_only_voluntary_withdrawn(
    l: Ledger,
    input: SavingsTransactionInput,
    ids: IdSource,
)
    ensures
        savings_rejection(l, input, ids) is None && input.movement@ == "Penarikan"@
            ==> input.account_type@ == "MANASUKA"@,
        input.movement@ == "Penarikan"@ && (input.account_type@ == "POKOK"@
            || input.account_type@ == "WAJIB"@) ==> savings_rejection(l, input, ids) is Some,
        savings_rejection(l, input, ids) is None && input.movement@ == "Penarikan"@ ==> exists|k: int|
            0 <= k < l.accounts@.len() && #[trigger] l.accounts@[k].member_id@ == input.member_id@
                && l.accounts@[k].account_type@ == "MANASUKA"@ && input.amount <= l.accounts@[k].balance,
{
    reveal_strlit("Penarikan");
    reveal_strlit("Setoran");
    reveal_strlit("MANASUKA");
    reveal_strlit("POKOK");
    reveal_strlit("WAJIB");
    assert("Penarikan"@.len() != "Setoran"@.len());
    assert("POKOK"@ != "MANASUKA"@) by {
        assert("POKOK"@.len() != "MANASUKA"@.len());
    }
    assert("WAJIB"@ != "MANASUKA"@) by {
        assert("WAJIB"@.len() != "MANASUKA"@.len());
    }
    assert("POKOK"@ != "WAJIB"@) by {
        assert("POKOK"@[0] != "WAJIB"@[0]);
    }
    if savings_rejection(l, input, ids) is None && input.movement@ == "Penarikan"@ {
        assert(SavingsAccountType::from_text(input.account_type@) == Some(
            SavingsAccountType::Voluntary,
        ));
        crate::savings::lemma_first_account(l, input.member_id@, "MANASUKA"@);
    }
}

// ---------------------------------------------------------------------------
// The snapshot's savings columns

/// The balances of the accounts in `accounts` that belong to `member` and
/// have the type written `kind`, added up.
pub open spec fn kind_balance(accounts: Seq<SavingsAccount>, member: Seq<char>, kind: Seq<char>) -> int
    decreases accounts.len(),
{
    if accounts.len() == 0 {
        0
    } else {
        kind_balance(accounts.drop_last(), member, kind) + if accounts.last().member_id@ == member
            && accounts.last().account_type@ == kind {
            accounts.last().balance as int
        } else {
            0
        }
    }
}

/// The balances of all the accounts in `accounts` that belong to `member`, added up.
pub open spec fn member_balance(accounts: Seq<SavingsAccount>, member: Seq<char>) -> int
    decreases accounts.len(),
{
    if accounts.len() == 0 {
        0
    } else {
        member_balance(accounts.drop_last(), member) + if accounts.last().member_id@ == member {
            accounts.last().balance as int
        } else {
            0
        }
    }
}

/// Each member row of the snapshot shows, for that member, the balances of
/// the member's `POKOK` accounts as principal savings, of the `WAJIB` accounts
/// as mandatory savings, of the `MANASUKA` accounts as voluntary savings, of
/// all the member's accounts as savings, and of the member's running and
/// under-review loans as loan balance; and it names a member of the books.
pub proof fn law_snapshot_member_savings(l: Ledger, s: AppSnapshot)
    requires
        snapshot_of(l, s),
    ensures
        forall|i: int|
            #![trigger s.members@[i]]
            0 <= i < s.members@.len() ==> {
                let row = s.members@[i];
                &&& exists|k: int| 0 <= k < l.members@.len() && l.members@[k].id@ == row.id@
                    && l.members@[k].name@ == row.name@
                &&& row.principal_savings == kind_balance(l.accounts@, row.id@, "POKOK"@)
                &&& row.mandatory_savings == kind_balance(l.accounts@, row.id@, "WAJIB"@)
                &&& row.voluntary_savings == kind_balance(l.accounts@, row.id@, "MANASUKA"@)
                &&& row.savings == member_balance(l.accounts@, row.id@)
                &&& row.loan_balance == open_loan_balance(l.loans@, Some(row.id@))
            },
{
    let keys = member_keys(l.members@);
    let order = member_order(l);
    crate::order::lemma_key_order();
    keys.lemma_sort_by_ensures(key_order());
    crate::order::lemma_sorted_from(keys);
    let rows = order.map_values(|k: KeyFacts| member_row(l, k.index));
    assert(s.members@.map_values(|m: MemberDto| m.facts()) == rows);
    assert(s.members@.len() == rows.len());
    assert forall|i: int|
        #![trigger s.members@[i]]
        0 <= i < s.members@.len() implies {
            let row = s.members@[i];
            &&& exists|k: int| 0 <= k < l.members@.len() && l.members@[k].id@ == row.id@
                && l.members@[k].name@ == row.name@
            &&& row.principal_savings == kind_balance(l.accounts@, row.id@, "POKOK"@)
            &&& row.mandatory_savings == kind_balance(l.accounts@, row.id@, "WAJIB"@)
            &&& row.voluntary_savings == kind_balance(l.accounts@, row.id@, "MANASUKA"@)
            &&& row.savings == member_balance(l.accounts@, row.id@)
            &&& row.loan_balance == open_loan_balance(l.loans@, Some(row.id@))
        } by {
        assert(keys.contains(order[i]));
        let k = choose|k: int| 0 <= k < keys.len() && keys[k] == order[i];
        assert(keys[k].index == k);
        assert(s.members@.map_values(|m: MemberDto| m.facts())[i] == rows[i]);
        let row = s.members@[i];
        assert(row.facts() == member_row(l, k));
        let id = l.members@[k].id@;
        assert(row.id@ == id);
        lemma_kind_balance(l.accounts@, id, "POKOK"@);
        lemma_kind_balance(l.accounts@, id, "WAJIB"@);
        lemma_kind_balance(l.accounts@, id, "MANASUKA"@);
        lemma_member_balance(l.accounts@, id);
        lemma_open_loan_balance(l.loans@, Some(id));
    }
}

proof fn lemma_kind_balance(accounts: Seq<SavingsAccount>, member: Seq<char>, kind: Seq<char>)
    ensures
        total(balance_terms(accounts, Some(member), Some(kind))) == kind_balance(
            accounts,
            member,
            kind,
        ),
    decreases accounts.len(),
{
    if accounts.len() > 0 {
        lemma_kind_balance(accounts.drop_last(), member, kind);
        assert(balance_terms(accounts, Some(member), Some(kind)).drop_last() =~= balance_terms(
            accounts.drop_last(),
            Some(member),
            Some(kind),
        ));
    }
}

proof fn lemma_member_balance(accounts: Seq<SavingsAccount>, member: Seq<char>)
    ensures
        total(balance_terms(accounts, Some(member), None)) == member_balance(accounts, member),
    decreases accounts.len(),
{
    if accounts.len() > 0 {
        lemma_member_balance(accounts.drop_last(), member);
        assert(balance_terms(accounts, Some(member), None).drop_last() =~= balance_terms(
            accounts.drop_last(),
            Some(member),
            None,
        ));
    }
}

// ---------------------------------------------------------------------------
// Where imported loans come from

/// The loan was read from `row` of the loan sheet: its id is the company's
/// id, a dash and column A; its member name is column D; its realization and
/// due dates are the dates read from columns J and K; its rate is the one read
/// from column G; its tenor is column L, one month at the least; and its
/// plafond is column E, zero at the least.
pub open spec fn loan_from_row(f: LoanFacts, company: Seq<char>, row: LoanSheetRow) -> bool {
    &&& f.id == company + "-"@ + crate::workbook::cell_text_of(cell_at(row.cells@, 0))
    &&& row.realization_date matches Ok(r) && f.realization_date == r@
    &&& row.due_date matches Ok(d) && f.due_date == d@
    &&& f.member_name == crate::workbook::cell_text_of(cell_at(row.cells@, 3))
    &&& row.rate_bits matches Ok(b) && f.rate_bits == b
    &&& crate::workbook::int_of(cell_at(row.cells@, 11)) matches Ok(t) && f.tenor == if t < 1 {
        1
    } else {
        t
    }
    &&& money_of(cell_at(row.cells@, 4)) matches Ok(p) && f.plafond == if p < 0 {
        0
    } else {
        p
    }
}

/// Every loan an import adds is read from one row of the loan sheet, with the
/// realization date and the due date that row gives; the loans the books
/// held before stay as they were.
pub proof fn law_imported_loans_from_rows(
    old: Ledger,
    new: Ledger,
    sheets: WorkbookSheets,
    s: Imported,
)
    requires
        seed_outcome(old, sheets) == Ok::<Imported, Seq<char>>(s),
        seeded(old, new, s),
    ensures
        new.loans@.len() == old.loans@.len() + s.loans.len(),
        forall|j: int| 0 <= j < old.loans@.len() ==> #[trigger] new.loans@[j].facts()
            == old.loans@[j].facts(),
        forall|j: int|
            #![trigger new.loans@[j]]
            old.loans@.len() <= j < new.loans@.len() ==> exists|k: int|
                0 <= k < sheets.master_loans@.len() && loan_from_row(
                    new.loans@[j].facts(),
                    old.company_id@,
                    #[trigger] sheets.master_loans@[k],
                ),
{
    let c = old.company_id@;
    let sb = savings_balances(sheets.savings_2026@)->Ok_0;
    lemma_members_keep_loans(old, c, nothing_imported(), sheets.master_savings@, sb);
    let s1 = seed_members(old, c, nothing_imported(), sheets.master_savings@, sb)->Ok_0;
    let lb = loan_balances(sheets.loans_2026@)->Ok_0;
    lemma_loans_from_rows(old, c, s1, sheets.master_loans@, lb);
    let s2 = seed_loans(old, c, s1, sheets.master_loans@, lb)->Ok_0;
    let s3 = seed_opening(old, c, s2)->Ok_0;
    lemma_cash_rows_keep_tables(old, c, s3, sheets.cash_2026@);
    assert(s.loans == s2.loans);
    let n = old.loans@.len();
    assert(new.loan_table().len() == new.loans@.len());
    assert forall|j: int| 0 <= j < n implies #[trigger] new.loans@[j].facts()
        == old.loans@[j].facts() by {
        assert(new.loan_table()[j] == old.loan_table()[j]);
    }
    assert forall|j: int|
        #![trigger new.loans@[j]]
        n <= j < new.loans@.len() implies exists|k: int|
            0 <= k < sheets.master_loans@.len() && loan_from_row(
                new.loans@[j].facts(),
                c,
                #[trigger] sheets.master_loans@[k],
            ) by {
        assert(new.loan_table()[j] == s.loans[j - n]);
        assert(new.loans@[j].facts() == new.loan_table()[j]);
        assert(s1.loans.len() == 0);
        let k = choose|k: int|
            0 <= k < sheets.master_loans@.len() && loan_from_row(
                s2.loans[j - n],
                c,
                #[trigger] sheets.master_loans@[k],
            );
    }
}

/// Each loan the loan rows add is read from one of those rows; the loans
/// before them stay.
proof fn lemma_loans_from_rows(
    l: Ledger,
    c: Seq<char>,
    s: Imported,
    rows: Seq<LoanSheetRow>,
    bal: Seq<(Seq<char>, int)>,
)
    requires
        seed_loans(l, c, s, rows, bal) is Ok,
    ensures
        seed_loans(l, c, s, rows, bal)->Ok_0.loans.len() >= s.loans.len(),
        forall|j: int| 0 <= j < s.loans.len() ==> #[trigger] seed_loans(l, c, s, rows, bal)->Ok_0.loans[j] == s.loans[j],
        forall|j: int|
            s.loans.len() <= j < seed_loans(l, c, s, rows, bal)->Ok_0.loans.len() ==> exists|k: int|
                0 <= k < rows.len() && loan_from_row(
                    #[trigger] seed_loans(l, c, s, rows, bal)->Ok_0.loans[j],
                    c,
                    rows[k],
                ),
    decreases rows.len(),
{
    if rows.len() > 0 {
        lemma_loans_from_rows(l, c, s, rows.drop_last(), bal);
        let t = seed_loans(l, c, s, rows.drop_last(), bal)->Ok_0;
        let u = seed_loans(l, c, s, rows, bal)->Ok_0;
        let last = rows.len() - 1;
        assert(rows[last] == rows.last());
        assert forall|j: int| 0 <= j < s.loans.len() implies #[trigger] u.loans[j] == s.loans[j] by {
            assert(t.loans[j] == s.loans[j]);
            if u.loans.len() > t.loans.len() {
                assert(u.loans[j] == t.loans[j]);
            }
        }
        assert forall|j: int|
            s.loans.len() <= j < u.loans.len() implies exists|k: int|
                0 <= k < rows.len() && loan_from_row(#[trigger] u.loans[j], c, rows[k]) by {
            if j < t.loans.len() {
                assert(u.loans[j] == t.loans[j]);
                let k = choose|k: int|
                    0 <= k < rows.drop_last().len() && loan_from_row(t.loans[j], c, rows.drop_last()[k]);
                assert(rows.drop_last()[k] == rows[k]);
            } else {
                lemma_money_range(cell_at(rows[last].cells@, 4));
                assert(loan_from_row(u.loans[j], c, rows[last]));
            }
        }
    }
}

// ---------------------------------------------------------------------------
// The snapshot's transaction list

/// `a` comes after `b`: a later business date, or the same date and a later id.
pub open spec fn tx_later(a: Transaction, b: Transaction) -> bool {
    ||| text_lt(b.business_date@, a.business_date@)
    ||| (b.business_date@ == a.business_date@ && text_lt(b.id@, a.id@))
}

/// The snapshot lists the latest transactions, latest first: as many as the
/// books hold, up to 120; each listed transaction comes after every one listed
/// below it; and every transaction of the books that comes after a listed one
/// is listed above it, so none left out is later than one shown.
pub proof fn law_snapshot_latest_transactions(l: Ledger, s: AppSnapshot)
    requires
        l.wf(),
        snapshot_of(l, s),
    ensures
        s.transactions@.len() == min(l.transactions@.len() as int, 120),
        forall|i: int, j: int, p: int, q: int|
            #![trigger s.transactions@[i], s.transactions@[j], l.transactions@[p], l.transactions@[q]]
            0 <= i < j < s.transactions@.len() && 0 <= p < l.transactions@.len() && 0 <= q
                < l.transactions@.len() && l.transactions@[p].id@ == s.transactions@[i].id@
                && l.transactions@[q].id@ == s.transactions@[j].id@ ==> tx_later(
                l.transactions@[p],
                l.transactions@[q],
            ),
        forall|i: int, p: int, q: int|
            #![trigger s.transactions@[i], l.transactions@[p], l.transactions@[q]]
            0 <= i < s.transactions@.len() && 0 <= p < l.transactions@.len() && 0 <= q
                < l.transactions@.len() && l.transactions@[p].id@ == s.transactions@[i].id@
                && tx_later(l.transactions@[q], l.transactions@[p]) ==> exists|j: int|
                0 <= j < i && #[trigger] s.transactions@[j].id@ == l.transactions@[q].id@,
{
    let txs = l.transactions@;
    let n = txs.len();
    let keys = transaction_keys(txs);
    let rev = latest_keys(l);
    let order = transaction_order(l);
    lemma_latest_first(l);
    let rows = order.map_values(|k: KeyFacts| transaction_row(l, k.index));
    assert(s.transactions@.map_values(|d: TransactionDto| d.facts()) == rows);
    assert(s.transactions@.map_values(|d: TransactionDto| d.facts()).len() == s.transactions@.len());
    assert(rows.len() == order.len());
    assert(s.transactions@.len() == order.len());
    assert(order.len() == min(n as int, 120));
    // A listed transaction is the one of the books at its key's index.
    assert forall|i: int| 0 <= i < s.transactions@.len() implies {
        &&& #[trigger] order[i] == rev[i]
        &&& 0 <= rev[i].index < n
        &&& s.transactions@[i].id@ == txs[rev[i].index].id@
    } by {
        assert(s.transactions@.map_values(|d: TransactionDto| d.facts())[i] == rows[i]);
        assert(s.transactions@[i].facts().id == s.transactions@[i].id@);
    }
    assert forall|i: int, j: int, p: int, q: int|
        #![trigger s.transactions@[i], s.transactions@[j], l.transactions@[p], l.transactions@[q]]
        0 <= i < j < s.transactions@.len() && 0 <= p < n && 0 <= q < n && txs[p].id@
            == s.transactions@[i].id@ && txs[q].id@ == s.transactions@[j].id@ implies tx_later(
        txs[p],
        txs[q],
    ) by {
        assert(order[i] == rev[i] && order[j] == rev[j]);
        lemma_same_id_same_index(l, p, rev[i].index);
        lemma_same_id_same_index(l, q, rev[j].index);
        assert(key_lt(rev[j], rev[i]));
        assert(rev[i] == keys[p] && rev[j] == keys[q]);
        if p == q {
            lemma_key_lt(rev[j], rev[i], rev[i]);
        }
    }
    assert forall|i: int, p: int, q: int|
        #![trigger s.transactions@[i], l.transactions@[p], l.transactions@[q]]
        0 <= i < s.transactions@.len() && 0 <= p < n && 0 <= q < n && txs[p].id@
            == s.transactions@[i].id@ && tx_later(txs[q], txs[p]) implies exists|j: int|
        0 <= j < i && #[trigger] s.transactions@[j].id@ == txs[q].id@ by {
        assert(order[i] == rev[i]);
        lemma_same_id_same_index(l, p, rev[i].index);
        assert(rev[i] == keys[p]);
        assert(key_lt(keys[p], keys[q])) by {
            lemma_text_lt_irreflexive(txs[p].business_date@);
            lemma_text_lt_irreflexive(txs[p].id@);
        }
        assert(keys[q] == keys[q]);
        let a = latest_pos(l, q);
        if a >= i {
            if a == i {
                lemma_key_lt(keys[p], keys[p], keys[p]);
            } else {
                assert(key_lt(rev[a], rev[i]));
                lemma_key_lt(keys[p], keys[q], keys[p]);
            }
        }
        assert(a < i);
        assert(order[a] == rev[a]);
        assert(rev[a].index == q);
        assert(s.transactions@[a].id@ == txs[q].id@);
    }
}

/// With unique ids, one id names one transaction.
proof fn lemma_same_id_same_index(l: Ledger, p: int, q: int)
    requires
        l.wf(),
        0 <= p < l.transactions@.len(),
        0 <= q < l.transactions@.len(),
        l.transactions@[p].id@ == l.transactions@[q].id@,
    ensures
        p == q,
{
    if p < q {
        assert(l.transactions@[p].id@ != l.transactions@[q].id@);
    } else if q < p {
        assert(l.transactions@[q].id@ != l.transactions@[p].id@);
    }
}

/// The transaction keys sorted and read from the last.
spec fn latest_keys(l: Ledger) -> Seq<KeyFacts> {
    transaction_keys(l.transactions@).sort_by(key_order()).reverse()
}

/// Where the key of the transaction at `q` stands in `latest_keys`.
spec fn latest_pos(l: Ledger, q: int) -> int {
    choose|a: int|
        0 <= a < l.transactions@.len() && latest_keys(l)[a] == transaction_keys(l.transactions@)[q]
}

/// The transaction keys read latest first: one entry per transaction, each
/// entry the key of the transaction at its index, each strictly after the
/// entries below it.
proof fn lemma_latest_first(l: Ledger)
    requires
        l.wf(),
    ensures
        latest_keys(l).len() == l.transactions@.len(),
        forall|a: int|
            0 <= a < l.transactions@.len() ==> 0 <= (#[trigger] latest_keys(l)[a]).index
                < l.transactions@.len() && latest_keys(l)[a] == transaction_keys(
                l.transactions@,
            )[latest_keys(l)[a].index],
        forall|a: int, b: int|
            0 <= a < b < l.transactions@.len() ==> key_lt(
                #[trigger] latest_keys(l)[b],
                #[trigger] latest_keys(l)[a],
            ),
        forall|q: int|
            0 <= q < l.transactions@.len() ==> 0 <= #[trigger] latest_pos(l, q)
                < l.transactions@.len() && latest_keys(l)[latest_pos(l, q)] == transaction_keys(
                l.transactions@,
            )[q],
{
    broadcast use vstd::multiset::group_multiset_axioms;

    let txs = l.transactions@;
    let n = txs.len();
    let keys = transaction_keys(txs);
    let sorted = keys.sort_by(key_order());
    let rev = sorted.reverse();
    crate::order::lemma_key_order();
    keys.lemma_sort_by_ensures(key_order());
    crate::order::lemma_sorted_from(keys);
    assert(sorted.len() == n);
    assert(keys.no_duplicates()) by {
        assert forall|i: int, j: int| 0 <= i < keys.len() && 0 <= j < keys.len() && i != j implies keys[i]
            != keys[j] by {
            assert(keys[i].index == i && keys[j].index == j);
        }
    }
    keys.lemma_multiset_has_no_duplicates();
    assert forall|x: KeyFacts| sorted.to_multiset().contains(x) implies sorted.to_multiset().count(x)
        == 1 by {
        assert(keys.to_multiset().contains(x));
    }
    sorted.lemma_multiset_has_no_duplicates_conv();
    assert forall|a: int| 0 <= a < n implies 0 <= (#[trigger] rev[a]).index < n && rev[a]
        == keys[rev[a].index] by {
        assert(rev[a] == sorted[n - 1 - a]);
        assert(keys.contains(sorted[n - 1 - a]));
        let k = choose|k: int| 0 <= k < keys.len() && keys[k] == sorted[n - 1 - a];
        assert(keys[k].index == k);
    }
    assert forall|a: int, b: int| 0 <= a < b < n implies key_lt(#[trigger] rev[b], #[trigger] rev[a]) by {
        assert(rev[a] == sorted[n - 1 - a] && rev[b] == sorted[n - 1 - b]);
        assert(key_order()(sorted[n - 1 - b], sorted[n - 1 - a]));
        assert(sorted[n - 1 - b] != sorted[n - 1 - a]);
    }
    assert forall|q: int| 0 <= q < l.transactions@.len() implies 0 <= #[trigger] latest_pos(l, q)
        < l.transactions@.len() && latest_keys(l)[latest_pos(l, q)] == transaction_keys(
        l.transactions@,
    )[q] by {
        vstd::seq_lib::to_multiset_contains(keys, keys[q]);
        assert(keys.contains(keys[q]));
        vstd::seq_lib::to_multiset_contains(sorted, keys[q]);
        assert(sorted.contains(keys[q]));
        let pos = choose|pos: int| 0 <= pos < sorted.len() && sorted[pos] == keys[q];
        assert(latest_keys(l)[n - 1 - pos] == sorted[pos]);
    }


}

/// The balances of the loans that are running (`Berjalan`) or under review
/// (`Perlu review`) and belong to `member` (every such loan when `None`).
pub open spec fn open_loan_balance(loans: Seq<Loan>, member: Option<Seq<char>>) -> int
    decreases loans.len(),
{
    if loans.len() == 0 {
        0
    } else {
        let last = loans.last();
        open_loan_balance(loans.drop_last(), member) + if (last.status@ == "Berjalan"@
            || last.status@ == "Perlu review"@) && (member is None || (last.member_id matches Some(
            m,
        ) && m@ == member.unwrap())) {
            last.balance as int
        } else {
            0
        }
    }
}

/// Money in (`Masuk`) less money out over the cash postings.
pub open spec fn money_in_less_out(postings: Seq<CashPosting>) -> int
    decreases postings.len(),
{
    if postings.len() == 0 {
        0
    } else {
        money_in_less_out(postings.drop_last()) + if postings.last().direction@ == "Masuk"@ {
            postings.last().amount as int
        } else {
            -(postings.last().amount as int)
        }
    }
}

/// The balances of all the savings accounts.
pub open spec fn all_savings(accounts: Seq<SavingsAccount>) -> int
    decreases accounts.len(),
{
    if accounts.len() == 0 {
        0
    } else {
        all_savings(accounts.drop_last()) + accounts.last().balance as int
    }
}

/// The number of active (`Aktif`) members.
pub open spec fn active_members(members: Seq<Member>) -> int
    decreases members.len(),
{
    if members.len() == 0 {
        0
    } else {
        active_members(members.drop_last()) + if members.last().status@ == "Aktif"@ {
            1int
        } else {
            0int
        }
    }
}

/// The snapshot's totals: the cash as money in less money out, the savings as
/// the balances of all accounts, the loan portfolio as the balances of the
/// running and under-review loans, and the number of active members.
pub proof fn law_snapshot_totals(l: Ledger, s: AppSnapshot)
    requires
        snapshot_of(l, s),
    ensures
        s.totals.cash == money_in_less_out(l.cash_postings@),
        s.totals.savings == all_savings(l.accounts@),
        s.totals.loan_portfolio == open_loan_balance(l.loans@, None),
        s.totals.members == min(active_members(l.members@), i64::MAX as int),
{
    lemma_money_in_less_out(l.cash_postings@);
    lemma_all_savings(l.accounts@);
    lemma_open_loan_balance(l.loans@, None);
    lemma_active_members(l.members@);
}

proof fn lemma_open_loan_balance(loans: Seq<Loan>, member: Option<Seq<char>>)
    ensures
        total(portfolio_terms(loans, member)) == open_loan_balance(loans, member),
    decreases loans.len(),
{
    if loans.len() > 0 {
        lemma_open_loan_balance(loans.drop_last(), member);
        assert(portfolio_terms(loans, member).drop_last() =~= portfolio_terms(
            loans.drop_last(),
            member,
        ));
    }
}

proof fn lemma_money_in_less_out(postings: Seq<CashPosting>)
    ensures
        total(cash_terms(postings)) == money_in_less_out(postings),
    decreases postings.len(),
{
    if postings.len() > 0 {
        lemma_money_in_less_out(postings.drop_last());
        assert(cash_terms(postings).drop_last() =~= cash_terms(postings.drop_last()));
    }
}

proof fn lemma_all_savings(accounts: Seq<SavingsAccount>)
    ensures
        total(balance_terms(accounts, None, None)) == all_savings(accounts),
    decreases accounts.len(),
{
    if accounts.len() > 0 {
        lemma_all_savings(accounts.drop_last());
        assert(balance_terms(accounts, None, None).drop_last() =~= balance_terms(
            accounts.drop_last(),
            None,
            None,
        ));
    }
}

proof fn lemma_active_members(members: Seq<Member>)
    ensures
        active_count(members) == active_members(members),
    decreases members.len(),
{
    if members.len() > 0 {
        lemma_active_members(members.drop_last());
    }
}

/// A running loan of `member` with a balance, which a payment's principal can settle.
pub open spec fn open_loan_of(loan: Loan, member: Seq<char>) -> bool {
    &&& loan.member_id matches Some(m) && m@ == member
    &&& loan.status@ == "Berjalan"@
    &&& loan.balance > 0
}

/// `a` was realized before `b`: an earlier realization date, or the same date
/// and a smaller id.
pub open spec fn realized_before(a: Loan, b: Loan) -> bool {
    ||| text_lt(a.realization_date@, b.realization_date@)
    ||| (a.realization_date@ == b.realization_date@ && text_lt(a.id@, b.id@))
}

/// A payment's principal goes to the member's running loans only, oldest
/// first: every other loan is left as it was, and a loan is paid down only
/// when every running loan of the member realized before it is paid off.
pub proof fn law_payment_settles_oldest_first(
    old: Ledger,
    new: Ledger,
    input: PaymentInput,
    ids: IdSource,
)
    requires
        payment_rejection(old, input, ids) is None,
        payment_posted(old, new, input, ids),
    ensures
        new.loans@.len() == old.loans@.len(),
        forall|j: int|
            0 <= j < old.loans@.len() && !open_loan_of(old.loans@[j], input.member_id@)
                ==> #[trigger] new.loans@[j].facts() == old.loans@[j].facts(),
        forall|a: int, b: int|
            #![trigger new.loans@[a], new.loans@[b]]
            0 <= a < old.loans@.len() && 0 <= b < old.loans@.len() && open_loan_of(
                old.loans@[a],
                input.member_id@,
            ) && open_loan_of(old.loans@[b], input.member_id@) && realized_before(
                old.loans@[a],
                old.loans@[b],
            ) && new.loans@[b].balance < old.loans@[b].balance ==> new.loans@[a].balance == 0,
{
    let m = input.member_id@;
    let lt0 = old.loan_table();
    let cand = crate::savings::candidate_keys(lt0, m);
    let o = payment_order(lt0, m);
    let r = input.principal as int;
    crate::savings::lemma_payment_order(lt0, m);
    assert(settles_running_loans(lt0, o)) by {
        assert forall|q: int| 0 <= q < o.len() implies 0 <= #[trigger] o[q].index < lt0.len()
            && lt0[o[q].index].balance > 0 && lt0[o[q].index].status
            == LoanStatus::Active.text() by {
            assert(crate::savings::is_payment_candidate(lt0[o[q].index], m));
        }
    }
    assert(r >= 0);
    lemma_settle_status(lt0, o, r);
    lemma_settle_shape(lt0, o, r);
    lemma_settle_oldest_first(lt0, o, r);
    crate::order::lemma_key_order();
    cand.lemma_sort_by_ensures(key_order());
    let lt1 = new.loan_table();
    assert(lt1 == settle(lt0, o, r).0);
    assert forall|j: int|
        0 <= j < old.loans@.len() && !open_loan_of(old.loans@[j], m) implies #[trigger] new.loans@[j].facts()
        == old.loans@[j].facts() by {
        assert(lt0[j] == old.loans@[j].facts());
        assert(lt1[j] == new.loans@[j].facts());
        assert forall|q: int| 0 <= q < o.len() implies o[q].index != j by {
            if o[q].index == j {
                assert(crate::savings::is_payment_candidate(lt0[o[q].index], m));
            }
        }
    }
    assert forall|a: int, b: int|
        #![trigger new.loans@[a], new.loans@[b]]
        0 <= a < old.loans@.len() && 0 <= b < old.loans@.len() && open_loan_of(old.loans@[a], m)
            && open_loan_of(old.loans@[b], m) && realized_before(old.loans@[a], old.loans@[b])
            && new.loans@[b].balance < old.loans@[b].balance implies new.loans@[a].balance == 0 by {
        assert(lt0[a] == old.loans@[a].facts() && lt0[b] == old.loans@[b].facts());
        assert(lt1[a] == new.loans@[a].facts() && lt1[b] == new.loans@[b].facts());
        let ka = KeyFacts { rank: 0, first: lt0[a].realization_date, second: lt0[a].id, index: a };
        let kb = KeyFacts { rank: 0, first: lt0[b].realization_date, second: lt0[b].id, index: b };
        lemma_candidate_listed(lt0, m, a);
        lemma_candidate_listed(lt0, m, b);
        vstd::seq_lib::to_multiset_contains(cand, ka);
        vstd::seq_lib::to_multiset_contains(o, ka);
        vstd::seq_lib::to_multiset_contains(cand, kb);
        vstd::seq_lib::to_multiset_contains(o, kb);
        let pa = choose|x: int| 0 <= x < o.len() && o[x] == ka;
        let pb = choose|x: int| 0 <= x < o.len() && o[x] == kb;
        assert(key_lt(ka, kb)) by {
            lemma_text_lt_irreflexive(lt0[a].realization_date);
            lemma_text_lt_irreflexive(lt0[a].id);
        }
        if pb <= pa {
            if pb == pa {
                lemma_key_lt(ka, ka, ka);
            } else {
                assert(key_order()(o[pb], o[pa]));
                lemma_key_lt(ka, kb, ka);
            }
        }
        assert(pa < pb);
        assert(o[pb].index == b && o[pa].index == a);
    }
}

/// Every running loan of the member with a balance is among the candidates.
proof fn lemma_candidate_listed(loans: Seq<LoanFacts>, member: Seq<char>, j: int)
    requires
        0 <= j < loans.len(),
        crate::savings::is_payment_candidate(loans[j], member),
    ensures
        crate::savings::candidate_keys(loans, member).contains(
            KeyFacts { rank: 0, first: loans[j].realization_date, second: loans[j].id, index: j },
        ),
    decreases loans.len(),
{
    let k = KeyFacts { rank: 0, first: loans[j].realization_date, second: loans[j].id, index: j };
    let c = crate::savings::candidate_keys(loans, member);
    if j == loans.len() - 1 {
        assert(c.last() == k);
    } else {
        lemma_candidate_listed(loans.drop_last(), member, j);
        let d = crate::savings::candidate_keys(loans.drop_last(), member);
        let x = choose|x: int| 0 <= x < d.len() && d[x] == k;
        assert(c[x] == d[x]);
    }
}

/// Settling pays a loan down only once every loan before it in the order is
/// paid off.
proof fn lemma_settle_oldest_first(l: Seq<LoanFacts>, o: Seq<KeyFacts>, r: int)
    requires
        settles_running_loans(l, o),
        r >= 0,
    ensures
        forall|p: int, q: int|
            0 <= p < q < o.len() && settle(l, o, r).0[#[trigger] o[q].index].balance
                < l[o[q].index].balance ==> settle(l, o, r).0[#[trigger] o[p].index].balance == 0,
    decreases o.len(),
{
    if o.len() > 0 && r != 0 {
        let i = o[0].index;
        let taken = min(r, l[i].balance as int);
        let nb = l[i].balance - taken;
        let l2 = l.update(
            i,
            LoanFacts {
                balance: nb as i64,
                status: if nb == 0 {
                    LoanStatus::PaidOff.text()
                } else {
                    l[i].status
                },
                ..l[i]
            },
        );
        let o2 = o.drop_first();
        assert(settles_running_loans(l2, o2)) by {
            assert forall|q: int| 0 <= q < o2.len() implies 0 <= #[trigger] o2[q].index < l2.len()
                && l2[o2[q].index].balance > 0 && l2[o2[q].index].status
                == LoanStatus::Active.text() by {
                assert(o2[q] == o[q + 1]);
                assert(o[q + 1].index != o[0].index);
            }
            assert forall|p: int, q: int|
                0 <= p < o2.len() && 0 <= q < o2.len() && p != q implies #[trigger] o2[p].index
                != #[trigger] o2[q].index by {
                assert(o2[p] == o[p + 1] && o2[q] == o[q + 1]);
            }
        }
        lemma_settle_oldest_first(l2, o2, r - taken);
        lemma_settle_shape(l2, o2, r - taken);
        let fin = settle(l, o, r).0;
        assert(fin == settle(l2, o2, r - taken).0);
        assert forall|p: int, q: int|
            0 <= p < q < o.len() && fin[#[trigger] o[q].index].balance < l[o[q].index].balance
                implies fin[#[trigger] o[p].index].balance == 0 by {
            assert(o[q].index != i);
            assert(o2[q - 1] == o[q]);
            assert(l2[o[q].index] == l[o[q].index]);
            if p == 0 {
                if r - taken == 0 {
                    assert(fin == l2);
                } else {
                    assert(nb == 0);
                    assert forall|x: int| 0 <= x < o2.len() implies o2[x].index != i by {
                        assert(o2[x] == o[x + 1]);
                    }
                    assert(fin[i] == l2[i]);
                }
            } else {
                assert(o2[p - 1] == o[p]);
            }
        }
    }
}

} // verus!
