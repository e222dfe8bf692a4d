//! Pools of quantities as mathematics: what a pool holds of a code, what it
//! costs, what grouping it by code gives, and the laws of grouping.

use vstd::prelude::*;
use crate::product::extra::{Entry, ProductAmount};

verus! {

/// The entries that a vector of quantities stands for, in order.
pub open spec fn entries(v: Seq<ProductAmount>) -> Seq<Entry> {
    v.map_values(|p: ProductAmount| p@)
}

/// The same for a vector of borrowed quantities.
pub open spec fn entries_of_refs(v: Seq<&ProductAmount>) -> Seq<Entry> {
    v.map_values(|p: &ProductAmount| p@)
}

/// The entries of a vector that has grown by one quantity.
pub proof fn lemma_entries_push(v: Seq<ProductAmount>, p: ProductAmount)
    ensures
        entries(v.push(p)) == entries(v).push(p@),
{
    assert(entries(v.push(p)) =~= entries(v).push(p@));
}

/// The same for borrowed quantities.
pub proof fn lemma_entries_of_refs_push(v: Seq<&ProductAmount>, p: &ProductAmount)
    ensures
        entries_of_refs(v.push(p)) == entries_of_refs(v).push(p@),
{
    assert(entries_of_refs(v.push(p)) =~= entries_of_refs(v).push(p@));
}

/// How many units of `code` the pool holds, over all of its entries.
pub open spec fn amount_of(s: Seq<Entry>, code: Seq<char>) -> nat
    decreases s.len(),
{
    if s.len() == 0 {
        0
    } else {
        (if s[0].code == code {
            s[0].amount
        } else {
            0
        }) + amount_of(s.drop_first(), code)
    }
}

/// What the pool costs at the unit prices its entries carry.
pub open spec fn total_price(s: Seq<Entry>) -> nat
    decreases s.len(),
{
    if s.len() == 0 {
        0
    } else {
        total_price(s.drop_last()) + s.last().price * s.last().amount
    }
}

/// Some entry of the pool has this code.
pub open spec fn has_code(s: Seq<Entry>, code: Seq<char>) -> bool {
    exists|i: int| 0 <= i < s.len() && (#[trigger] s[i]).code == code
}

/// No code occurs in two entries.
pub open spec fn distinct_codes(s: Seq<Entry>) -> bool {
    forall|i: int, j: int| 0 <= i < j < s.len() ==> (#[trigger] s[i]).code != (#[trigger] s[j]).code
}

/// The position of the first entry with this code; the pool's length where
/// there is none.
pub open spec fn index_of(s: Seq<Entry>, code: Seq<char>) -> int
    decreases s.len(),
{
    if s.len() == 0 {
        0
    } else if s[0].code == code {
        0
    } else {
        1 + index_of(s.drop_first(), code)
    }
}

/// For every code, the units of it in the pool fit in 64 bits.
pub open spec fn sums_fit(s: Seq<Entry>) -> bool {
    forall|code: Seq<char>| #[trigger] amount_of(s, code) <= u64::MAX
}

/// `index_of` is below the length exactly when the code occurs, and then it
/// is the first position that holds it.
pub proof fn lemma_index_of(s: Seq<Entry>, code: Seq<char>)
    ensures
        0 <= index_of(s, code) <= s.len(),
        index_of(s, code) < s.len() <==> has_code(s, code),
        index_of(s, code) < s.len() ==> s[index_of(s, code)].code == code,
        forall|j: int| 0 <= j < index_of(s, code) ==> (#[trigger] s[j]).code != code,
    decreases s.len(),
{
    if s.len() == 0 {
    } else if s[0].code == code {
        assert(has_code(s, code));
    } else {
        let t = s.drop_first();
        lemma_index_of(t, code);
        let k = index_of(t, code);
        assert forall|j: int| 0 <= j < 1 + k implies (#[trigger] s[j]).code != code by {
            if j > 0 {
                assert(s[j] == t[j - 1]);
            }
        }
        if k < t.len() {
            assert(s[k + 1] == t[k]);
            assert(has_code(s, code));
        }
        if has_code(s, code) {
            let i = choose|i: int| 0 <= i < s.len() && (#[trigger] s[i]).code == code;
            assert(t[i - 1] == s[i]);
            assert(has_code(t, code));
        }
    }
}

/// A position is the first with its code exactly when `index_of` names it.
pub proof fn lemma_index_of_is(s: Seq<Entry>, code: Seq<char>, i: int)
    requires
        0 <= i < s.len(),
        s[i].code == code,
        forall|j: int| 0 <= j < i ==> (#[trigger] s[j]).code != code,
    ensures
        index_of(s, code) == i,
{
    lemma_index_of(s, code);
    let k = index_of(s, code);
    if k < i {
        assert(s[k].code == code);
    } else if k > i {
        assert(s[i].code == code);
    }
}

/// The units of a code in a pool without it are none.
pub proof fn lemma_amount_of_absent(s: Seq<Entry>, code: Seq<char>)
    requires
        !has_code(s, code),
    ensures
        amount_of(s, code) == 0,
    decreases s.len(),
{
    if s.len() > 0 {
        let t = s.drop_first();
        assert(s[0].code != code);
        assert forall|i: int| 0 <= i < t.len() implies (#[trigger] t[i]).code != code by {
            assert(t[i] == s[i + 1]);
        }
        lemma_amount_of_absent(t, code);
    }
}

/// Appending an entry adds its units to its own code and to no other.
pub proof fn lemma_amount_of_push(s: Seq<Entry>, e: Entry, code: Seq<char>)
    ensures
        amount_of(s.push(e), code) == amount_of(s, code) + if e.code == code {
            e.amount
        } else {
            0
        },
    decreases s.len(),
{
    if s.len() == 0 {
        assert(s.push(e).drop_first() =~= s);
    } else {
        assert(s.push(e).drop_first() =~= s.drop_first().push(e));
        lemma_amount_of_push(s.drop_first(), e, code);
    }
}

/// Changing the amount of one entry changes the units of its code by the
/// difference, and those of no other code.
pub proof fn lemma_amount_of_update(s: Seq<Entry>, i: int, amount: nat, code: Seq<char>)
    requires
        0 <= i < s.len(),
    ensures
        amount_of(s.update(i, Entry { amount, ..s[i] }), code) == if s[i].code == code {
            amount_of(s, code) - s[i].amount + amount
        } else {
            amount_of(s, code) as int
        },
        s[i].code == code ==> amount_of(s, code) >= s[i].amount,
    decreases s.len(),
{
    let u = s.update(i, Entry { amount, ..s[i] });
    if i == 0 {
        assert(u.drop_first() =~= s.drop_first());
    } else {
        assert(u.drop_first() =~= s.drop_first().update(i - 1, Entry { amount, ..s[i] }));
        lemma_amount_of_update(s.drop_first(), i - 1, amount, code);
    }
}

/// The units of a code in a pool with distinct codes are those of the one
/// entry that has it.
pub proof fn lemma_amount_of_distinct(s: Seq<Entry>, i: int)
    requires
        distinct_codes(s),
        0 <= i < s.len(),
    ensures
        amount_of(s, s[i].code) == s[i].amount,
    decreases s.len(),
{
    let t = s.drop_first();
    if i == 0 {
        assert forall|j: int| 0 <= j < t.len() implies (#[trigger] t[j]).code != s[0].code by {
            assert(t[j] == s[j + 1]);
        }
        lemma_amount_of_absent(t, s[0].code);
    } else {
        assert(distinct_codes(t)) by {
            assert forall|a: int, b: int| 0 <= a < b < t.len() implies (#[trigger] t[a]).code != (
            #[trigger] t[b]).code by {
                assert(t[a] == s[a + 1]);
                assert(t[b] == s[b + 1]);
            }
        }
        assert(t[i - 1] == s[i]);
        lemma_amount_of_distinct(t, i - 1);
    }
}

/// A later part of a pool holds no more of a code than the whole.
pub proof fn lemma_amount_of_suffix(s: Seq<Entry>, k: int, code: Seq<char>)
    requires
        0 <= k <= s.len(),
    ensures
        amount_of(s.subrange(k, s.len() as int), code) <= amount_of(s, code),
    decreases k,
{
    if k == 0 {
        assert(s.subrange(0, s.len() as int) =~= s);
    } else {
        let t = s.drop_first();
        assert(t.subrange(k - 1, t.len() as int) =~= s.subrange(k, s.len() as int));
        lemma_amount_of_suffix(t, k - 1, code);
    }
}

/// Changing the amount of one entry changes the total by its price times
/// the difference.
pub proof fn lemma_total_price_update(s: Seq<Entry>, i: int, amount: nat)
    requires
        0 <= i < s.len(),
    ensures
        total_price(s.update(i, Entry { amount, ..s[i] })) == total_price(s) - s[i].price
            * s[i].amount + s[i].price * amount,
        total_price(s) >= s[i].price * s[i].amount,
    decreases s.len(),
{
    let u = s.update(i, Entry { amount, ..s[i] });
    if i == s.len() - 1 {
        assert(u.drop_last() =~= s.drop_last());
    } else {
        assert(u.drop_last() =~= s.drop_last().update(i, Entry { amount, ..s[i] }));
        lemma_total_price_update(s.drop_last(), i, amount);
    }
}

/// The pool after one more entry has been merged in: its amount goes to the
/// first entry with the same code, which keeps its own price; where there
/// is none, the entry is appended as it is.
pub open spec fn absorb(s: Seq<Entry>, e: Entry) -> Seq<Entry> {
    let i = index_of(s, e.code);
    if i < s.len() {
        s.update(i, Entry { amount: s[i].amount + e.amount, ..s[i] })
    } else {
        s.push(e)
    }
}

/// The pool with one entry per code. The entries are merged from the last
/// to the first, so a code keeps the price of its last entry, and the codes
/// stand in the order of their last entries, latest first.
pub open spec fn grouped(s: Seq<Entry>) -> Seq<Entry>
    decreases s.len(),
{
    if s.len() == 0 {
        Seq::empty()
    } else {
        absorb(grouped(s.drop_first()), s[0])
    }
}

/// Merging an entry into a pool with distinct codes leaves the codes
/// distinct, adds the entry's amount to its code and touches no other.
pub proof fn lemma_absorb(s: Seq<Entry>, e: Entry)
    requires
        distinct_codes(s),
    ensures
        distinct_codes(absorb(s, e)),
        forall|code: Seq<char>| #[trigger]
            amount_of(absorb(s, e), code) == amount_of(s, code) + if e.code == code {
                e.amount
            } else {
                0
            },
        forall|code: Seq<char>| #[trigger]
            has_code(absorb(s, e), code) <==> has_code(s, code) || code == e.code,
{
    lemma_index_of(s, e.code);
    let i = index_of(s, e.code);
    let r = absorb(s, e);
    assert forall|code: Seq<char>| #[trigger]
        amount_of(r, code) == amount_of(s, code) + if e.code == code {
            e.amount
        } else {
            0
        } by {
        if i < s.len() {
            lemma_amount_of_update(s, i, s[i].amount + e.amount, code);
        } else {
            lemma_amount_of_push(s, e, code);
        }
    }
    assert forall|code: Seq<char>| #[trigger]
        has_code(r, code) <==> has_code(s, code) || code == e.code by {
        if has_code(r, code) {
            let k = choose|k: int| 0 <= k < r.len() && (#[trigger] r[k]).code == code;
            if k < s.len() {
                assert(s[k].code == code);
            }
        }
        if has_code(s, code) {
            let k = choose|k: int| 0 <= k < s.len() && (#[trigger] s[k]).code == code;
            assert(r[k].code == code);
        }
        if code == e.code {
            if i < s.len() {
                assert(r[i].code == code);
            } else {
                assert(r[s.len() as int].code == code);
            }
        }
    }
    assert forall|a: int, b: int| 0 <= a < b < r.len() implies (#[trigger] r[a]).code != (
    #[trigger] r[b]).code by {
        if i < s.len() {
            assert(r[a].code == s[a].code);
            assert(r[b].code == s[b].code);
        } else if b < s.len() {
            assert(r[a] == s[a]);
            assert(r[b] == s[b]);
        } else {
            assert(r[a] == s[a]);
        }
    }
}

/// Grouping leaves one entry per code, keeps for every code the units that
/// the pool held of it, and neither adds a code nor loses one.
pub proof fn lemma_grouped(s: Seq<Entry>)
    ensures
        distinct_codes(grouped(s)),
        forall|code: Seq<char>| #[trigger] amount_of(grouped(s), code) == amount_of(s, code),
        forall|code: Seq<char>| #[trigger] has_code(grouped(s), code) <==> has_code(s, code),
        grouped(s).len() <= s.len(),
    decreases s.len(),
{
    if s.len() > 0 {
        let t = s.drop_first();
        lemma_grouped(t);
        lemma_absorb(grouped(t), s[0]);
        lemma_index_of(grouped(t), s[0].code);
        assert forall|code: Seq<char>| #[trigger]
            has_code(grouped(s), code) <==> has_code(s, code) by {
            if has_code(s, code) {
                let k = choose|k: int| 0 <= k < s.len() && (#[trigger] s[k]).code == code;
                if k > 0 {
                    assert(t[k - 1] == s[k]);
                    assert(has_code(t, code));
                }
            }
            if has_code(t, code) {
                let k = choose|k: int| 0 <= k < t.len() && (#[trigger] t[k]).code == code;
                assert(s[k + 1] == t[k]);
            }
            if code == s[0].code {
                assert(has_code(s, code));
            }
        }
    }
}

/// No later entry of the pool has the code of the entry at this position.
pub open spec fn is_last_of_its_code(s: Seq<Entry>, j: int) -> bool {
    &&& 0 <= j < s.len()
    &&& forall|k: int| j < k < s.len() ==> (#[trigger] s[k]).code != s[j].code
}

/// The entry carries the code and the price of the last entry that the pool
/// has for that code.
pub open spec fn has_last_price(s: Seq<Entry>, e: Entry) -> bool {
    exists|j: int|
        #![trigger is_last_of_its_code(s, j)]
        is_last_of_its_code(s, j) && s[j].code == e.code && s[j].price == e.price
}

/// Every grouped entry carries the price of the last entry that the pool
/// had for its code.
pub proof fn lemma_grouped_price(s: Seq<Entry>)
    ensures
        forall|i: int| 0 <= i < grouped(s).len() ==> has_last_price(s, #[trigger] grouped(s)[i]),
    decreases s.len(),
{
    if s.len() > 0 {
        let t = s.drop_first();
        let gt = grouped(t);
        let g = grouped(s);
        lemma_grouped_price(t);
        lemma_grouped(t);
        lemma_index_of(gt, s[0].code);
        assert forall|i: int| 0 <= i < g.len() implies has_last_price(s, #[trigger] g[i]) by {
            if i < gt.len() {
                assert(g[i].code == gt[i].code && g[i].price == gt[i].price);
                assert(has_last_price(t, gt[i]));
                let j = choose|j: int|
                    #![trigger is_last_of_its_code(t, j)]
                    is_last_of_its_code(t, j) && t[j].code == gt[i].code && t[j].price
                        == gt[i].price;
                assert(s[j + 1] == t[j]);
                assert forall|k: int| j + 1 < k < s.len() implies (#[trigger] s[k]).code != s[j
                    + 1].code by {
                    assert(s[k] == t[k - 1]);
                }
                assert(is_last_of_its_code(s, j + 1));
            } else {
                assert(g[i] == s[0]);
                assert(!has_code(t, s[0].code));
                assert forall|k: int| 0 < k < s.len() implies (#[trigger] s[k]).code
                    != s[0].code by {
                    assert(s[k] == t[k - 1]);
                }
                assert(is_last_of_its_code(s, 0));
            }
        }
    }
}

/// Grouping a pool that has one entry per code already only turns it round.
pub proof fn lemma_grouped_of_distinct(s: Seq<Entry>)
    requires
        distinct_codes(s),
    ensures
        grouped(s) == s.reverse(),
    decreases s.len(),
{
    if s.len() == 0 {
        assert(grouped(s) =~= s.reverse());
    } else {
        let t = s.drop_first();
        assert(distinct_codes(t)) by {
            assert forall|a: int, b: int| 0 <= a < b < t.len() implies (#[trigger] t[a]).code != (
            #[trigger] t[b]).code by {
                assert(t[a] == s[a + 1]);
                assert(t[b] == s[b + 1]);
            }
        }
        lemma_grouped_of_distinct(t);
        let r = t.reverse();
        assert(!has_code(r, s[0].code)) by {
            if has_code(r, s[0].code) {
                let k = choose|k: int| 0 <= k < r.len() && (#[trigger] r[k]).code == s[0].code;
                assert(r[k] == t[t.len() - 1 - k]);
                assert(t[t.len() - 1 - k] == s[t.len() - k]);
            }
        }
        lemma_index_of(r, s[0].code);
        assert(r.push(s[0]) =~= s.reverse());
    }
}

/// Grouping twice gives what grouping once gives, entry for entry, but for
/// the order in which the entries stand.
pub proof fn lemma_grouped_idempotent(s: Seq<Entry>)
    ensures
        grouped(grouped(s)).to_multiset() == grouped(s).to_multiset(),
        grouped(grouped(s)) == grouped(s).reverse(),
{
    lemma_grouped(s);
    lemma_grouped_of_distinct(grouped(s));
    grouped(s).lemma_reverse_to_multiset();
}

/// For every code that a pool holds, grouping keeps the units that the pool
/// had of it.
pub proof fn lemma_grouped_conserves(s: Seq<Entry>, code: Seq<char>)
    ensures
        amount_of(grouped(s), code) == amount_of(s, code),
        has_code(grouped(s), code) <==> has_code(s, code),
{
    lemma_grouped(s);
}

/// An earlier part of a pool costs no more than the whole.
pub proof fn lemma_total_price_prefix(s: Seq<Entry>, k: int)
    requires
        0 <= k <= s.len(),
    ensures
        total_price(s.take(k)) <= total_price(s),
    decreases s.len(),
{
    if k == s.len() {
        assert(s.take(k) =~= s);
    } else {
        assert(s.drop_last().take(k) =~= s.take(k));
        lemma_total_price_prefix(s.drop_last(), k);
    }
}

/// A copy made quantity by quantity stands for the same entries.
pub proof fn lemma_entries_of_copy(v: Seq<ProductAmount>, w: Seq<ProductAmount>)
    requires
        v.len() == w.len(),
        forall|i: int| 0 <= i < v.len() ==> (#[trigger] v[i])@ == w[i]@,
    ensures
        entries(v) == entries(w),
{
    assert(entries(v) =~= entries(w));
}

/// Turning a pool round changes the units of no code.
pub proof fn lemma_amount_of_reverse(s: Seq<Entry>, code: Seq<char>)
    ensures
        amount_of(s.reverse(), code) == amount_of(s, code),
    decreases s.len(),
{
    if s.len() > 0 {
        let t = s.drop_first();
        assert(t.reverse().push(s[0]) =~= s.reverse());
        lemma_amount_of_push(t.reverse(), s[0], code);
        lemma_amount_of_reverse(t, code);
    } else {
        assert(s.reverse() =~= s);
    }
}

/// The sums fit for every code as soon as they fit for the codes that occur.
pub proof fn lemma_sums_fit(s: Seq<Entry>)
    requires
        forall|k: int| 0 <= k < s.len() ==> amount_of(s, (#[trigger] s[k]).code) <= u64::MAX,
    ensures
        sums_fit(s),
{
    assert forall|code: Seq<char>| #[trigger] amount_of(s, code) <= u64::MAX by {
        if has_code(s, code) {
            let k = choose|k: int| 0 <= k < s.len() && (#[trigger] s[k]).code == code;
            assert(amount_of(s, s[k].code) <= u64::MAX);
        } else {
            lemma_amount_of_absent(s, code);
        }
    }
}

} // verus!
