//! Ordering of rows by text keys, the way the storage's `ORDER BY` compares
//! text: character by character, by code point.

use vstd::prelude::*;
use vstd::relations::{sorted_by, total_ordering};

use crate::domain::digits_value;
use crate::text::is_digit;

verus! {

/// `a` sorts strictly before `b`.
pub open spec fn text_lt(a: Seq<char>, b: Seq<char>) -> bool
    decreases a.len(),
{
    if a.len() == 0 {
        b.len() > 0
    } else if b.len() == 0 {
        false
    } else if a[0] != b[0] {
        (a[0] as int) < (b[0] as int)
    } else {
        text_lt(a.drop_first(), b.drop_first())
    }
}

pub proof fn lemma_text_lt_irreflexive(a: Seq<char>)
    ensures
        !text_lt(a, a),
    decreases a.len(),
{
    if a.len() > 0 {
        lemma_text_lt_irreflexive(a.drop_first());
    }
}

pub proof fn lemma_text_lt_asymmetric(a: Seq<char>, b: Seq<char>)
    ensures
        text_lt(a, b) ==> !text_lt(b, a),
    decreases a.len(),
{
    if a.len() > 0 && b.len() > 0 && a[0] == b[0] {
        lemma_text_lt_asymmetric(a.drop_first(), b.drop_first());
    }
}

pub proof fn lemma_text_lt_transitive(a: Seq<char>, b: Seq<char>, c: Seq<char>)
    ensures
        text_lt(a, b) && text_lt(b, c) ==> text_lt(a, c),
    decreases a.len(),
{
    if a.len() > 0 && b.len() > 0 && c.len() > 0 {
        lemma_text_lt_transitive(a.drop_first(), b.drop_first(), c.drop_first());
    }
}

pub proof fn lemma_text_lt_total(a: Seq<char>, b: Seq<char>)
    ensures
        a == b || text_lt(a, b) || text_lt(b, a),
    decreases a.len(),
{
    if a.len() > 0 && b.len() > 0 && a[0] == b[0] {
        lemma_text_lt_total(a.drop_first(), b.drop_first());
        if a.drop_first() == b.drop_first() {
            assert(a =~= seq![a[0]] + a.drop_first());
            assert(b =~= seq![b[0]] + b.drop_first());
        }
    } else if a.len() == 0 && b.len() == 0 {
        assert(a =~= b);
    }
}

/// The columns by which a row is ordered, and the row's position.
pub struct KeyFacts {
    pub rank: int,
    pub first: Seq<char>,
    pub second: Seq<char>,
    pub index: int,
}

/// Ordering key of one row: a rank, two texts, and the row's position as the
/// last tie-breaker.
pub struct SortKey {
    pub rank: u64,
    pub first: String,
    pub second: String,
    pub index: usize,
}

impl SortKey {
    pub open spec fn facts(self) -> KeyFacts {
        KeyFacts {
            rank: self.rank as int,
            first: self.first@,
            second: self.second@,
            index: self.index as int,
        }
    }
}

pub open spec fn key_facts(s: Seq<SortKey>) -> Seq<KeyFacts> {
    s.map_values(|k: SortKey| k.facts())
}

pub open spec fn key_lt(a: KeyFacts, b: KeyFacts) -> bool {
    if a.rank != b.rank {
        a.rank < b.rank
    } else if a.first != b.first {
        text_lt(a.first, b.first)
    } else if a.second != b.second {
        text_lt(a.second, b.second)
    } else {
        a.index < b.index
    }
}

pub open spec fn key_le(a: KeyFacts, b: KeyFacts) -> bool {
    a == b || key_lt(a, b)
}

pub open spec fn key_order() -> spec_fn(KeyFacts, KeyFacts) -> bool {
    |a: KeyFacts, b: KeyFacts| key_le(a, b)
}

pub proof fn lemma_key_lt(a: KeyFacts, b: KeyFacts, c: KeyFacts)
    ensures
        !key_lt(a, a),
        key_lt(a, b) ==> !key_lt(b, a),
        key_lt(a, b) && key_lt(b, c) ==> key_lt(a, c),
        a == b || key_lt(a, b) || key_lt(b, a),
{
    lemma_text_lt_irreflexive(a.first);
    lemma_text_lt_irreflexive(a.second);
    lemma_text_lt_asymmetric(a.first, b.first);
    lemma_text_lt_asymmetric(a.second, b.second);
    lemma_text_lt_transitive(a.first, b.first, c.first);
    lemma_text_lt_transitive(a.second, b.second, c.second);
    lemma_text_lt_total(a.first, b.first);
    lemma_text_lt_total(a.second, b.second);
    if a.rank == b.rank && a.first == b.first && a.second == b.second && a.index == b.index {
        assert(a == b);
    }
}

pub proof fn lemma_key_order()
    ensures
        total_ordering(key_order()),
{
    assert forall|a: KeyFacts| #[trigger] key_order()(a, a) by {}
    assert forall|a: KeyFacts, b: KeyFacts|
        #[trigger] key_order()(a, b) && #[trigger] key_order()(b, a) implies a == b by {
        lemma_key_lt(a, b, a);
    }
    assert forall|a: KeyFacts, b: KeyFacts, c: KeyFacts|
        #[trigger] key_order()(a, b) && #[trigger] key_order()(b, c) implies key_order()(a, c) by {
        lemma_key_lt(a, b, c);
    }
    assert forall|a: KeyFacts, b: KeyFacts|
        #[trigger] key_order()(a, b) || #[trigger] key_order()(b, a) by {
        lemma_key_lt(a, b, a);
    }
}

pub proof fn lemma_text_lt_skip(a: Seq<char>, b: Seq<char>, i: int)
    requires
        0 <= i <= a.len(),
        i <= b.len(),
        a.subrange(0, i) == b.subrange(0, i),
    ensures
        text_lt(a, b) == text_lt(a.subrange(i, a.len() as int), b.subrange(i, b.len() as int)),
    decreases i,
{
    if i > 0 {
        assert(a[0] == a.subrange(0, i)[0]);
        assert(b[0] == b.subrange(0, i)[0]);
        assert(a.drop_first().subrange(0, i - 1) =~= a.subrange(0, i).drop_first());
        assert(b.drop_first().subrange(0, i - 1) =~= b.subrange(0, i).drop_first());
        lemma_text_lt_skip(a.drop_first(), b.drop_first(), i - 1);
        assert(a.drop_first().subrange(i - 1, a.len() - 1) =~= a.subrange(i, a.len() as int));
        assert(b.drop_first().subrange(i - 1, b.len() - 1) =~= b.subrange(i, b.len() as int));
    } else {
        assert(a.subrange(0, a.len() as int) =~= a);
        assert(b.subrange(0, b.len() as int) =~= b);
    }
}

/// Whether `a` sorts strictly before `b`.
pub fn text_less(a: &str, b: &str) -> (r: bool)
    ensures
        r == text_lt(a@, b@),
{
    let n = a.unicode_len();
    let m = b.unicode_len();
    let mut i: usize = 0;
    while i < n && i < m
        invariant
            n == a@.len(),
            m == b@.len(),
            i <= n,
            i <= m,
            a@.subrange(0, i as int) == b@.subrange(0, i as int),
        decreases n - i,
    {
        let x = a.get_char(i);
        let y = b.get_char(i);
        if x != y {
            proof {
                lemma_text_lt_skip(a@, b@, i as int);
                assert(a@.subrange(i as int, n as int)[0] == x);
                assert(b@.subrange(i as int, m as int)[0] == y);
            }
            return (x as u32) < (y as u32);
        }
        proof {
            assert(a@.subrange(0, i + 1) =~= a@.subrange(0, i as int).push(x));
            assert(b@.subrange(0, i + 1) =~= b@.subrange(0, i as int).push(y));
        }
        i = i + 1;
    }
    proof {
        lemma_text_lt_skip(a@, b@, i as int);
    }
    i == n && i < m
}

/// Whether key `a` sorts strictly before key `b`.
pub fn key_less(a: &SortKey, b: &SortKey) -> (r: bool)
    ensures
        r == key_lt(a.facts(), b.facts()),
{
    if a.rank != b.rank {
        return a.rank < b.rank;
    }
    if !crate::text::same_text(a.first.as_str(), b.first.as_str()) {
        return text_less(a.first.as_str(), b.first.as_str());
    }
    if !crate::text::same_text(a.second.as_str(), b.second.as_str()) {
        return text_less(a.second.as_str(), b.second.as_str());
    }
    a.index < b.index
}

proof fn lemma_insert_sorted(s: Seq<KeyFacts>, p: int, x: KeyFacts)
    requires
        sorted_by(s, key_order()),
        0 <= p <= s.len(),
        forall|q: int| 0 <= q < p ==> !key_lt(x, #[trigger] s[q]),
        p < s.len() ==> key_lt(x, s[p]),
    ensures
        sorted_by(s.insert(p, x), key_order()),
{
    let t = s.insert(p, x);
    lemma_key_order();
    assert forall|i: int, j: int| 0 <= i < j < t.len() implies #[trigger] key_order()(
        t[i],
        t[j],
    ) by {
        if i < p && j < p {
            assert(key_order()(s[i], s[j]));
        } else if i < p && j == p {
            lemma_key_lt(x, s[i], x);
        } else if i < p && j > p {
            assert(key_order()(s[i], s[j - 1]));
        } else if i == p {
            assert(key_order()(s[p], s[j - 1]));
            lemma_key_lt(x, s[p], s[j - 1]);
        } else {
            assert(key_order()(s[i - 1], s[j - 1]));
        }
    }
}

/// The keys in ascending order.
pub fn sort_keys(v: Vec<SortKey>) -> (r: Vec<SortKey>)
    ensures
        key_facts(r@) == key_facts(v@).sort_by(key_order()),
{
    let ghost orig = v@;
    let mut r: Vec<SortKey> = Vec::new();
    let mut v = v;
    let n = v.len();
    let mut consumed: usize = 0;
    proof {
        assert(key_facts(r@) =~= key_facts(orig.subrange(0, 0)));
    }
    while v.len() > 0
        invariant
            orig.len() == n,
            v@ == orig.subrange(consumed as int, n as int),
            consumed <= n,
            sorted_by(key_facts(r@), key_order()),
            key_facts(r@).to_multiset() == key_facts(orig.subrange(0, consumed as int)).to_multiset(),
        decreases v@.len(),
    {
        let x = v.remove(0);
        let ghost fr = key_facts(r@);
        let mut p: usize = 0;
        while p < r.len() && !key_less(&x, &r[p])
            invariant
                p <= r@.len(),
                fr == key_facts(r@),
                forall|q: int| 0 <= q < p ==> !key_lt(x.facts(), #[trigger] fr[q]),
            decreases r@.len() - p,
        {
            p = p + 1;
        }
        proof {
            lemma_insert_sorted(fr, p as int, x.facts());
            vstd::seq_lib::to_multiset_insert(fr, p as int, x.facts());
            assert(orig.subrange(0, consumed + 1) =~= orig.subrange(0, consumed as int).push(
                x,
            ));
            assert(key_facts(orig.subrange(0, consumed + 1)) =~= key_facts(
                orig.subrange(0, consumed as int),
            ).push(x.facts()));
            vstd::seq_lib::to_multiset_insert(
                key_facts(orig.subrange(0, consumed as int)),
                key_facts(orig.subrange(0, consumed as int)).len() as int,
                x.facts(),
            );
            assert(key_facts(orig.subrange(0, consumed as int)).insert(
                key_facts(orig.subrange(0, consumed as int)).len() as int,
                x.facts(),
            ) =~= key_facts(orig.subrange(0, consumed as int)).push(x.facts()));
        }
        r.insert(p, x);
        proof {
            assert(key_facts(r@) =~= fr.insert(p as int, x.facts()));
            assert(v@ =~= orig.subrange(consumed + 1, n as int));
        }
        consumed = consumed + 1;
    }
    proof {
        assert(orig.subrange(0, consumed as int) =~= orig);
        lemma_key_order();
        key_facts(orig).lemma_sort_by_ensures(key_order());
        vstd::seq_lib::lemma_sorted_unique(
            key_facts(r@),
            key_facts(orig).sort_by(key_order()),
            key_order(),
        );
    }
    r
}

/// Sorting keeps the number of keys and brings in no key of its own.
pub proof fn lemma_sorted_from(keys: Seq<KeyFacts>)
    ensures
        keys.sort_by(key_order()).len() == keys.len(),
        forall|q: int|
            0 <= q < keys.len() ==> keys.contains(#[trigger] keys.sort_by(key_order())[q]),
{
    lemma_key_order();
    keys.lemma_sort_by_ensures(key_order());
    let t = keys.sort_by(key_order());
    vstd::seq_lib::to_multiset_len(keys);
    vstd::seq_lib::to_multiset_len(t);
    assert forall|q: int| 0 <= q < keys.len() implies keys.contains(#[trigger] t[q]) by {
        assert(t.contains(t[q]));
    }
}


/// What follows two texts of one length does not change which sorts first.
pub proof fn lemma_text_lt_extend(a: Seq<char>, b: Seq<char>, p: Seq<char>, q: Seq<char>)
    requires
        a.len() == b.len(),
        text_lt(a, b),
    ensures
        text_lt(a + p, b + q),
    decreases a.len(),
{
    assert((a + p)[0] == a[0]);
    assert((b + q)[0] == b[0]);
    if a[0] == b[0] {
        assert((a + p).drop_first() =~= a.drop_first() + p);
        assert((b + q).drop_first() =~= b.drop_first() + q);
        lemma_text_lt_extend(a.drop_first(), b.drop_first(), p, q);
    }
}

/// Two runs of digits of one length sort as the numbers they write.
pub proof fn lemma_digits_text_lt(a: Seq<char>, b: Seq<char>)
    requires
        a.len() == b.len(),
        forall|i: int| 0 <= i < a.len() ==> is_digit(#[trigger] a[i]),
        forall|i: int| 0 <= i < b.len() ==> is_digit(#[trigger] b[i]),
        digits_value(a) < digits_value(b),
    ensures
        text_lt(a, b),
    decreases a.len(),
{
    if a.len() > 0 {
        let a1 = a.drop_last();
        let b1 = b.drop_last();
        assert(is_digit(a[a.len() - 1]) && is_digit(b[b.len() - 1]));
        assert forall|i: int| 0 <= i < a1.len() implies is_digit(#[trigger] a1[i]) by {
            assert(a1[i] == a[i]);
        }
        assert forall|i: int| 0 <= i < b1.len() implies is_digit(#[trigger] b1[i]) by {
            assert(b1[i] == b[i]);
        }
        assert(a =~= a1 + seq![a.last()]);
        assert(b =~= b1 + seq![b.last()]);
        if digits_value(a1) < digits_value(b1) {
            lemma_digits_text_lt(a1, b1);
            lemma_text_lt_extend(a1, b1, seq![a.last()], seq![b.last()]);
        } else if digits_value(a1) == digits_value(b1) {
            lemma_digits_same(a1, b1);
            lemma_text_lt_skip(a, b, a1.len() as int);
            assert(a.subrange(a1.len() as int, a.len() as int) =~= seq![a.last()]);
            assert(b.subrange(b1.len() as int, b.len() as int) =~= seq![b.last()]);
            assert(seq![a.last()].drop_first() =~= Seq::<char>::empty());
        }
    }
}

/// Two runs of digits of one length that write one number are one text.
pub proof fn lemma_digits_same(a: Seq<char>, b: Seq<char>)
    requires
        a.len() == b.len(),
        forall|i: int| 0 <= i < a.len() ==> is_digit(#[trigger] a[i]),
        forall|i: int| 0 <= i < b.len() ==> is_digit(#[trigger] b[i]),
        digits_value(a) == digits_value(b),
    ensures
        a == b,
    decreases a.len(),
{
    if a.len() > 0 {
        let a1 = a.drop_last();
        let b1 = b.drop_last();
        assert(is_digit(a[a.len() - 1]) && is_digit(b[b.len() - 1]));
        assert forall|i: int| 0 <= i < a1.len() implies is_digit(#[trigger] a1[i]) by {
            assert(a1[i] == a[i]);
        }
        assert forall|i: int| 0 <= i < b1.len() implies is_digit(#[trigger] b1[i]) by {
            assert(b1[i] == b[i]);
        }
        lemma_digits_nonnegative(a1);
        lemma_digits_nonnegative(b1);
        if digits_value(a1) != digits_value(b1) {
            assert(false);
        }
        lemma_digits_same(a1, b1);
        assert(a =~= a1.push(a.last()));
        assert(b =~= b1.push(b.last()));
    }
}

proof fn lemma_digits_nonnegative(a: Seq<char>)
    requires
        forall|i: int| 0 <= i < a.len() ==> is_digit(#[trigger] a[i]),
    ensures
        digits_value(a) >= 0,
    decreases a.len(),
{
    if a.len() > 0 {
        let a1 = a.drop_last();
        assert(is_digit(a[a.len() - 1]));
        assert forall|i: int| 0 <= i < a1.len() implies is_digit(#[trigger] a1[i]) by {
            assert(a1[i] == a[i]);
        }
        lemma_digits_nonnegative(a1);
    }
}

} // verus!
