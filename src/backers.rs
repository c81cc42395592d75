use vstd::prelude::*;
use crate::types::{Address, Backer, Vote};

verus! {

/// The first position at or after `i` whose entry belongs to `a`, or -1.
pub open spec fn find_from(s: Seq<Backer>, a: Address, i: int) -> int
    decreases s.len() - i,
{
    if i < 0 || i >= s.len() {
        -1
    } else if s[i].who == a {
        i
    } else {
        find_from(s, a, i + 1)
    }
}

/// The position of `a`'s entry in the table, or -1 when it has none.
pub open spec fn find(s: Seq<Backer>, a: Address) -> int {
    find_from(s, a, 0)
}

/// Whether `a` has an entry in the table.
pub open spec fn is_backer(s: Seq<Backer>, a: Address) -> bool {
    exists|j: int| 0 <= j < s.len() && s[j].who == a
}

/// What `a` has contributed: its entry's amount, 0 when it has none.
pub open spec fn amount_of(s: Seq<Backer>, a: Address) -> nat {
    let i = find(s, a);
    if 0 <= i {
        s[i].amount as nat
    } else {
        0
    }
}

/// The sum of all recorded contributions.
pub open spec fn total(s: Seq<Backer>) -> int
    decreases s.len(),
{
    if s.len() == 0 {
        0
    } else {
        total(s.drop_last()) + s.last().amount
    }
}

/// No two entries belong to the same party.
pub open spec fn unique(s: Seq<Backer>) -> bool {
    forall|i: int, j: int| 0 <= i < j < s.len() ==> s[i].who != s[j].who
}

/// The table after `a` contributes `amt` more: its entry grows, or a new
/// entry is appended.
pub open spec fn credit(s: Seq<Backer>, a: Address, amt: u128) -> Seq<Backer> {
    let i = find(s, a);
    if 0 <= i {
        s.update(i, Backer { who: a, amount: (s[i].amount + amt) as u128 })
    } else {
        s.push(Backer { who: a, amount: amt })
    }
}

/// The sum of the contributions of the parties that voted yes.
pub open spec fn approval_weight(votes: Seq<Vote>, s: Seq<Backer>) -> int
    decreases votes.len(),
{
    if votes.len() == 0 {
        0
    } else {
        approval_weight(votes.drop_last(), s) + if votes.last().approve {
            amount_of(s, votes.last().voter) as int
        } else {
            0
        }
    }
}

pub proof fn lemma_find_from(s: Seq<Backer>, a: Address, i: int)
    requires
        0 <= i <= s.len(),
    ensures
        find_from(s, a, i) == -1 ==> forall|j: int| i <= j < s.len() ==> s[j].who != a,
        find_from(s, a, i) != -1 ==> i <= find_from(s, a, i) < s.len()
            && s[find_from(s, a, i)].who == a,
        forall|j: int| i <= j < s.len() && j < find_from(s, a, i) ==> s[j].who != a,
    decreases s.len() - i,
{
    if i < s.len() && s[i].who != a {
        lemma_find_from(s, a, i + 1);
    }
}

/// In a table with unique parties, `find` gives the entry of `a` if it has one.
pub proof fn lemma_find(s: Seq<Backer>, a: Address)
    requires
        unique(s),
    ensures
        find(s, a) == -1 <==> !is_backer(s, a),
        find(s, a) != -1 ==> 0 <= find(s, a) < s.len() && s[find(s, a)].who == a,
        forall|j: int| 0 <= j < s.len() && #[trigger] s[j].who == a ==> find(s, a) == j,
{
    lemma_find_from(s, a, 0);
}

pub proof fn lemma_total_nonneg(s: Seq<Backer>)
    ensures
        total(s) >= 0,
        forall|j: int| 0 <= j < s.len() ==> s[j].amount <= total(s),
    decreases s.len(),
{
    if s.len() > 0 {
        lemma_total_nonneg(s.drop_last());
        assert forall|j: int| 0 <= j < s.len() implies s[j].amount <= total(s) by {
            if j < s.len() - 1 {
                assert(s[j] == s.drop_last()[j]);
            }
        }
    }
}

pub proof fn lemma_total_prefix(s: Seq<Backer>, i: int, j: int)
    requires
        0 <= i <= j <= s.len(),
    ensures
        total(s.take(i)) <= total(s.take(j)),
    decreases j - i,
{
    if i < j {
        assert(s.take(j).drop_last() =~= s.take(j - 1));
        lemma_total_prefix(s, i, j - 1);
    }
}

pub proof fn lemma_total_update(s: Seq<Backer>, i: int, x: Backer)
    requires
        0 <= i < s.len(),
    ensures
        total(s.update(i, x)) == total(s) - s[i].amount + x.amount,
    decreases s.len(),
{
    let t = s.update(i, x);
    if i < s.len() - 1 {
        assert(t.drop_last() =~= s.drop_last().update(i, x));
        lemma_total_update(s.drop_last(), i, x);
    } else {
        assert(t.drop_last() =~= s.drop_last());
    }
}

pub proof fn lemma_total_push(s: Seq<Backer>, x: Backer)
    ensures
        total(s.push(x)) == total(s) + x.amount,
{
    assert(s.push(x).drop_last() =~= s);
}

/// What crediting does: `a` gains `amt`, nobody else's amount changes, the
/// parties stay unique and the total grows by `amt`.
pub proof fn lemma_credit(s: Seq<Backer>, a: Address, amt: u128)
    requires
        unique(s),
        total(s) + amt <= u128::MAX,
    ensures
        unique(credit(s, a, amt)),
        total(credit(s, a, amt)) == total(s) + amt,
        is_backer(credit(s, a, amt), a),
        forall|b: Address| #[trigger] amount_of(credit(s, a, amt), b)
            == amount_of(s, b) + if b == a { amt as int } else { 0 },
        forall|b: Address| b != a ==> (is_backer(credit(s, a, amt), b) == is_backer(s, b)),
{
    let t = credit(s, a, amt);
    lemma_find(s, a);
    lemma_total_nonneg(s);
    let i = find(s, a);
    if 0 <= i {
        lemma_total_update(s, i, Backer { who: a, amount: (s[i].amount + amt) as u128 });
        assert(t[i].who == a);
    } else {
        lemma_total_push(s, Backer { who: a, amount: amt });
        assert(t[s.len() as int].who == a);
    }
    assert(unique(t));
    lemma_find(t, a);
    assert forall|b: Address| #[trigger] amount_of(t, b)
        == amount_of(s, b) + if b == a { amt as int } else { 0 } by {
        lemma_find(s, b);
        lemma_find(t, b);
        if b != a && is_backer(s, b) {
            assert(t[find(s, b)].who == b);
        }
        if b != a && is_backer(t, b) {
            let j = find(t, b);
            assert(s[j].who == b);
        }
    }
    assert forall|b: Address| b != a implies (is_backer(t, b) == is_backer(s, b)) by {
        lemma_find(s, b);
        lemma_find(t, b);
        if is_backer(s, b) {
            assert(t[find(s, b)].who == b);
        }
        if is_backer(t, b) {
            assert(s[find(t, b)].who == b);
        }
    }
}

/// The contribution of a single party never exceeds the total.
pub proof fn lemma_amount_le_total(s: Seq<Backer>, a: Address)
    ensures
        amount_of(s, a) <= total(s),
{
    lemma_total_nonneg(s);
    if find(s, a) >= 0 {
        lemma_find_from(s, a, 0);
    }
}

/// Setting `a`'s entry to zero: nobody else's amount changes and the total
/// drops by what `a` had.
pub proof fn lemma_clear(s: Seq<Backer>, a: Address)
    requires
        unique(s),
        is_backer(s, a),
    ensures
        unique(s.update(find(s, a), Backer { who: a, amount: 0 })),
        total(s.update(find(s, a), Backer { who: a, amount: 0 })) == total(s) - amount_of(s, a),
        forall|b: Address| #[trigger] amount_of(s.update(find(s, a), Backer { who: a, amount: 0 }), b)
            == if b == a { 0 } else { amount_of(s, b) },
{
    lemma_find(s, a);
    let i = find(s, a);
    let t = s.update(i, Backer { who: a, amount: 0 });
    lemma_total_update(s, i, Backer { who: a, amount: 0 });
    assert(unique(t));
    assert forall|b: Address| #[trigger] amount_of(t, b)
        == if b == a { 0 } else { amount_of(s, b) } by {
        lemma_find(s, b);
        lemma_find(t, b);
        if is_backer(s, b) {
            assert(t[find(s, b)].who == b);
        }
        if is_backer(t, b) {
            assert(s[find(t, b)].who == b);
        }
    }
}

/// The position of `a`'s entry, if it has one.
pub fn find_backer(s: &Vec<Backer>, a: Address) -> (r: Option<usize>)
    ensures
        match r {
            Some(i) => i < s@.len() && i as int == find(s@, a),
            None => find(s@, a) == -1,
        },
{
    let mut i: usize = 0;
    while i < s.len()
        invariant
            0 <= i <= s@.len(),
            find_from(s@, a, 0) == find_from(s@, a, i as int),
        decreases s@.len() - i,
    {
        if s[i].who == a {
            return Some(i);
        }
        i = i + 1;
    }
    None
}

/// Whether no two entries belong to the same party.
pub fn all_distinct(s: &Vec<Backer>) -> (r: bool)
    ensures
        r == unique(s@),
{
    let mut i: usize = 0;
    while i < s.len()
        invariant
            0 <= i <= s@.len(),
            forall|k: int| 0 <= k < i ==> find(s@, #[trigger] s@[k].who) == k,
        decreases s@.len() - i,
    {
        let who = s[i].who;
        proof {
            lemma_find_from(s@, who, 0);
        }
        match find_backer(s, who) {
            Some(j) => {
                if j != i {
                    proof {
                        if unique(s@) {
                            lemma_find(s@, who);
                        }
                    }
                    return false;
                }
            },
            None => {
                return false;
            },
        }
        i = i + 1;
    }
    proof {
        assert forall|k: int, l: int| 0 <= k < l < s@.len() implies s@[k].who != s@[l].who by {
            assert(find(s@, s@[k].who) == k);
            assert(find(s@, s@[l].who) == l);
        }
    }
    true
}

/// The sum of all contributions, or `None` when it exceeds `u128`.
pub fn total_of(s: &Vec<Backer>) -> (r: Option<u128>)
    ensures
        match r {
            Some(t) => t == total(s@),
            None => total(s@) > u128::MAX,
        },
{
    let mut sum: u128 = 0;
    let mut i: usize = 0;
    proof {
        assert(s@.take(0) =~= Seq::<Backer>::empty());
        assert(s@.take(s@.len() as int) =~= s@);
    }
    while i < s.len()
        invariant
            0 <= i <= s@.len(),
            sum == total(s@.take(i as int)),
            s@.take(s@.len() as int) == s@,
        decreases s@.len() - i,
    {
        proof {
            assert(s@.take(i + 1).drop_last() =~= s@.take(i as int));
            lemma_total_prefix(s@, i + 1, s@.len() as int);
        }
        match sum.checked_add(s[i].amount) {
            Some(t) => {
                sum = t;
            },
            None => {
                return None;
            },
        }
        i = i + 1;
    }
    Some(sum)
}

/// What `a` has contributed, 0 when it has no entry.
pub fn amount_lookup(s: &Vec<Backer>, a: Address) -> (r: u128)
    ensures
        r == amount_of(s@, a),
{
    match find_backer(s, a) {
        Some(i) => s[i].amount,
        None => 0,
    }
}

} // verus!
