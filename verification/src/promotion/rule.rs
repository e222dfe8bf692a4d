//! The promotion rule as mathematics: covering and consuming, and the laws
//! that hold of them.

use vstd::prelude::*;
use crate::ErrorVariant;
use crate::pool::{
    amount_of, distinct_codes, has_code, index_of, lemma_amount_of_push, lemma_amount_of_update,
    lemma_index_of, lemma_total_price_update, total_price,
};
use crate::product::extra::Entry;

verus! {

/// The pool has an entry with the code of the requirement that holds at
/// least the required amount.
pub open spec fn covers(pool: Seq<Entry>, req: Entry) -> bool {
    exists|j: int|
        0 <= j < pool.len() && (#[trigger] pool[j]).code == req.code && pool[j].amount
            >= req.amount
}

/// The pool covers every requirement. No requirements are always covered.
pub open spec fn satisfied(reqs: Seq<Entry>, pool: Seq<Entry>) -> bool {
    forall|i: int| 0 <= i < reqs.len() ==> covers(pool, #[trigger] reqs[i])
}

/// The pool after one requirement has been taken from the first entry with
/// its code, or the reason why it cannot be taken.
pub open spec fn take_from(pool: Seq<Entry>, req: Entry) -> Result<Seq<Entry>, ErrorVariant> {
    let i = index_of(pool, req.code);
    if i >= pool.len() {
        Err(ErrorVariant::ProductNotFound)
    } else if req.amount > pool[i].amount {
        Err(ErrorVariant::NotEnoughItems)
    } else {
        Ok(pool.update(i, Entry { amount: (pool[i].amount - req.amount) as nat, ..pool[i] }))
    }
}

/// The pool after the requirements have been taken one after the other, or
/// the failure of the first that cannot be taken.
pub open spec fn take_all(pool: Seq<Entry>, reqs: Seq<Entry>) -> Result<Seq<Entry>, ErrorVariant>
    decreases reqs.len(),
{
    if reqs.len() == 0 {
        Ok(pool)
    } else {
        match take_from(pool, reqs[0]) {
            Ok(rest) => take_all(rest, reqs.drop_first()),
            Err(e) => Err(e),
        }
    }
}

/// The entry still holds something.
pub open spec fn is_left(e: Entry) -> bool {
    e.amount > 0
}

/// The pool without the entries that hold nothing, the others in their order.
pub open spec fn without_empty(pool: Seq<Entry>) -> Seq<Entry> {
    pool.filter(|e: Entry| is_left(e))
}

/// What is left of the pool once the requirements have been taken from it:
/// the amounts taken, then the emptied entries removed.
pub open spec fn consumed(reqs: Seq<Entry>, pool: Seq<Entry>) -> Result<Seq<Entry>, ErrorVariant> {
    match take_all(pool, reqs) {
        Ok(rest) => Ok(without_empty(rest)),
        Err(e) => Err(e),
    }
}

/// Changing an amount moves no code, so every code is found where it was.
pub proof fn lemma_index_of_update(s: Seq<Entry>, i: int, amount: nat, code: Seq<char>)
    requires
        0 <= i < s.len(),
    ensures
        index_of(s.update(i, Entry { amount, ..s[i] }), code) == index_of(s, code),
    decreases s.len(),
{
    let u = s.update(i, Entry { amount, ..s[i] });
    if i == 0 {
        assert(u.drop_first() =~= s.drop_first());
    } else {
        assert(u.drop_first() =~= s.drop_first().update(i - 1, Entry { amount, ..s[i] }));
        lemma_index_of_update(s.drop_first(), i - 1, amount, code);
    }
}

/// Taking one requirement changes one amount and nothing else: the entries
/// keep their places, codes and prices, the requirement's code loses the
/// required amount, and the pool's price falls by what was taken.
pub proof fn lemma_take_from(pool: Seq<Entry>, req: Entry)
    requires
        take_from(pool, req) is Ok,
    ensures
        ({
            let rest = take_from(pool, req)->Ok_0;
            &&& rest.len() == pool.len()
            &&& forall|k: int|
                0 <= k < pool.len() ==> (#[trigger] rest[k]).code == pool[k].code && rest[k].price
                    == pool[k].price && rest[k].amount <= pool[k].amount
            &&& forall|code: Seq<char>| #[trigger]
                amount_of(rest, code) == amount_of(pool, code) - if req.code == code {
                    req.amount
                } else {
                    0
                }
            &&& forall|code: Seq<char>| index_of(rest, code) == index_of(pool, code)
            &&& total_price(rest) <= total_price(pool)
        }),
{
    let i = index_of(pool, req.code);
    let left = (pool[i].amount - req.amount) as nat;
    let rest = take_from(pool, req)->Ok_0;
    lemma_index_of(pool, req.code);
    assert forall|code: Seq<char>| #[trigger]
        amount_of(rest, code) == amount_of(pool, code) - if req.code == code {
            req.amount
        } else {
            0
        } by {
        lemma_amount_of_update(pool, i, left, code);
    }
    assert forall|code: Seq<char>| index_of(rest, code) == index_of(pool, code) by {
        lemma_index_of_update(pool, i, left, code);
    }
    lemma_total_price_update(pool, i, left);
    assert(pool[i].price * left <= pool[i].price * pool[i].amount) by (nonlinear_arith)
        requires
            left <= pool[i].amount,
    ;
}

/// Taking the requirements keeps the entries in their places with their
/// codes and prices, takes from every code what the requirements ask of it
/// in all, and never raises the pool's price.
pub proof fn lemma_take_all(pool: Seq<Entry>, reqs: Seq<Entry>)
    requires
        take_all(pool, reqs) is Ok,
    ensures
        ({
            let rest = take_all(pool, reqs)->Ok_0;
            &&& rest.len() == pool.len()
            &&& forall|k: int|
                0 <= k < pool.len() ==> (#[trigger] rest[k]).code == pool[k].code && rest[k].price
                    == pool[k].price && rest[k].amount <= pool[k].amount
            &&& forall|code: Seq<char>| #[trigger]
                amount_of(rest, code) == amount_of(pool, code) - amount_of(reqs, code)
            &&& total_price(rest) <= total_price(pool)
        }),
    decreases reqs.len(),
{
    if reqs.len() > 0 {
        let first = take_from(pool, reqs[0])->Ok_0;
        lemma_take_from(pool, reqs[0]);
        lemma_take_all(first, reqs.drop_first());
    }
}

/// The requirement can be taken from the pool: the first entry with its
/// code exists and holds enough.
pub open spec fn can_take(pool: Seq<Entry>, req: Entry) -> bool {
    &&& index_of(pool, req.code) < pool.len()
    &&& pool[index_of(pool, req.code)].amount >= req.amount
}

/// With one requirement per code, the requirements can all be taken exactly
/// when each of them alone can be taken from the pool as it stands.
pub proof fn lemma_take_all_succeeds(pool: Seq<Entry>, reqs: Seq<Entry>)
    requires
        distinct_codes(reqs),
    ensures
        take_all(pool, reqs) is Ok <==> forall|i: int|
            0 <= i < reqs.len() ==> can_take(pool, #[trigger] reqs[i]),
    decreases reqs.len(),
{
    if reqs.len() > 0 {
        let tail = reqs.drop_first();
        assert(distinct_codes(tail)) by {
            assert forall|a: int, b: int| 0 <= a < b < tail.len() implies (#[trigger] tail[a]).code
                != (#[trigger] tail[b]).code by {
                assert(tail[a] == reqs[a + 1]);
                assert(tail[b] == reqs[b + 1]);
            }
        }
        lemma_index_of(pool, reqs[0].code);
        if take_from(pool, reqs[0]) is Ok {
            let first = take_from(pool, reqs[0])->Ok_0;
            let i0 = index_of(pool, reqs[0].code);
            lemma_take_from(pool, reqs[0]);
            lemma_take_all_succeeds(first, tail);
            assert forall|i: int| 0 <= i < tail.len() implies (can_take(first, #[trigger] tail[i])
                <==> can_take(pool, tail[i])) by {
                assert(tail[i] == reqs[i + 1]);
                assert(reqs[0].code != reqs[i + 1].code);
                lemma_index_of(pool, tail[i].code);
                assert(index_of(first, tail[i].code) == index_of(pool, tail[i].code));
            }
            if forall|i: int| 0 <= i < reqs.len() ==> can_take(pool, #[trigger] reqs[i]) {
                assert forall|i: int| 0 <= i < tail.len() implies can_take(
                    first,
                    #[trigger] tail[i],
                ) by {
                    assert(tail[i] == reqs[i + 1]);
                    assert(can_take(pool, reqs[i + 1]));
                }
            }
            if take_all(pool, reqs) is Ok {
                assert forall|i: int| 0 <= i < reqs.len() implies can_take(
                    pool,
                    #[trigger] reqs[i],
                ) by {
                    if i > 0 {
                        assert(tail[i - 1] == reqs[i]);
                        assert(can_take(first, tail[i - 1]));
                    }
                }
            }
        } else {
            assert(!can_take(pool, reqs[0]));
        }
    }
}

/// Nothing is left of an empty pool.
pub proof fn lemma_without_empty_none()
    ensures
        without_empty(Seq::<Entry>::empty()) == Seq::<Entry>::empty(),
{
    reveal(Seq::filter);
    assert(without_empty(Seq::<Entry>::empty()) =~= Seq::<Entry>::empty());
}

/// Removing the emptied entries unfolds from the end of the pool.
pub proof fn lemma_without_empty_push(s: Seq<Entry>, e: Entry)
    ensures
        without_empty(s.push(e)) == if e.amount > 0 {
            without_empty(s).push(e)
        } else {
            without_empty(s)
        },
{
    reveal(Seq::filter);
    assert(s.push(e).drop_last() =~= s);
}

/// Removing the emptied entries changes neither the units of any code nor
/// the pool's price, adds no code, and keeps distinct codes distinct.
pub proof fn lemma_without_empty(s: Seq<Entry>)
    ensures
        forall|code: Seq<char>| #[trigger] amount_of(without_empty(s), code) == amount_of(s, code),
        forall|code: Seq<char>| #[trigger] has_code(without_empty(s), code) ==> has_code(s, code),
        total_price(without_empty(s)) == total_price(s),
        distinct_codes(s) ==> distinct_codes(without_empty(s)),
        forall|k: int|
            0 <= k < without_empty(s).len() ==> (#[trigger] without_empty(s)[k]).amount > 0,
        without_empty(s).len() <= s.len(),
    decreases s.len(),
{
    if s.len() == 0 {
        assert(s =~= Seq::<Entry>::empty());
        lemma_without_empty_none();
    } else {
        let t = s.drop_last();
        let e = s.last();
        let wt = without_empty(t);
        let ws = without_empty(s);
        assert(t.push(e) =~= s);
        lemma_without_empty_push(t, e);
        lemma_without_empty(t);
        assert forall|code: Seq<char>| #[trigger] amount_of(ws, code) == amount_of(s, code) by {
            lemma_amount_of_push(t, e, code);
            lemma_amount_of_push(wt, e, code);
        }
        assert forall|code: Seq<char>| #[trigger] has_code(ws, code) implies has_code(s, code) by {
            let k = choose|k: int| 0 <= k < ws.len() && (#[trigger] ws[k]).code == code;
            if k < wt.len() {
                assert(wt[k].code == code);
                assert(has_code(wt, code));
                let m = choose|m: int| 0 <= m < t.len() && (#[trigger] t[m]).code == code;
                assert(s[m].code == code);
            } else {
                assert(s[s.len() - 1].code == code);
            }
        }
        if e.amount > 0 {
            assert(total_price(ws) == total_price(wt) + e.price * e.amount) by {
                assert(ws.drop_last() =~= wt);
            }
        } else {
            assert(e.price * e.amount == 0) by (nonlinear_arith)
                requires
                    e.amount == 0,
            ;
        }
        if distinct_codes(s) {
            assert(distinct_codes(t));
            assert forall|a: int, b: int| 0 <= a < b < ws.len() implies (#[trigger] ws[a]).code != (
            #[trigger] ws[b]).code by {
                if b < wt.len() {
                    assert(ws[a] == wt[a]);
                    assert(ws[b] == wt[b]);
                } else {
                    assert(ws[a] == wt[a]);
                    if wt[a].code == e.code {
                        assert(has_code(wt, e.code));
                        let m = choose|m: int| 0 <= m < t.len() && (#[trigger] t[m]).code == e.code;
                        assert(s[m].code == s[s.len() - 1].code);
                    }
                }
            }
        }
    }
}

/// What consumption leaves: from every code the amount that the
/// requirements ask of it in all is gone, no entry holds nothing, the price
/// has not risen, no code was added, and distinct codes stay distinct.
pub proof fn lemma_consumed(reqs: Seq<Entry>, pool: Seq<Entry>)
    requires
        consumed(reqs, pool) is Ok,
    ensures
        ({
            let rest = consumed(reqs, pool)->Ok_0;
            &&& forall|code: Seq<char>| #[trigger]
                amount_of(rest, code) == amount_of(pool, code) - amount_of(reqs, code)
            &&& forall|k: int| 0 <= k < rest.len() ==> (#[trigger] rest[k]).amount > 0
            &&& total_price(rest) <= total_price(pool)
            &&& forall|code: Seq<char>| #[trigger] has_code(rest, code) ==> has_code(pool, code)
            &&& distinct_codes(pool) ==> distinct_codes(rest)
            &&& rest.len() <= pool.len()
        }),
{
    let taken = take_all(pool, reqs)->Ok_0;
    let rest = consumed(reqs, pool)->Ok_0;
    lemma_take_all(pool, reqs);
    lemma_without_empty(taken);
    assert forall|code: Seq<char>| #[trigger] has_code(rest, code) implies has_code(pool, code) by {
        assert(has_code(taken, code));
        let k = choose|k: int| 0 <= k < taken.len() && (#[trigger] taken[k]).code == code;
        assert(pool[k].code == code);
    }
    if distinct_codes(pool) {
        assert(distinct_codes(taken)) by {
            assert forall|a: int, b: int| 0 <= a < b < taken.len() implies (
            #[trigger] taken[a]).code != (#[trigger] taken[b]).code by {
                assert(pool[a].code != pool[b].code);
            }
        }
    }
}

/// Whatever can be consumed was covered.
pub proof fn lemma_consumed_was_satisfied(reqs: Seq<Entry>, pool: Seq<Entry>)
    requires
        consumed(reqs, pool) is Ok,
    ensures
        satisfied(reqs, pool),
    decreases reqs.len(),
{
    if reqs.len() > 0 {
        let first = take_from(pool, reqs[0])->Ok_0;
        let tail = reqs.drop_first();
        lemma_take_from(pool, reqs[0]);
        lemma_index_of(pool, reqs[0].code);
        lemma_consumed_was_satisfied(tail, first);
        assert forall|i: int| 0 <= i < reqs.len() implies covers(pool, #[trigger] reqs[i]) by {
            if i == 0 {
                assert(pool[index_of(pool, reqs[0].code)].code == reqs[0].code);
            } else {
                assert(tail[i - 1] == reqs[i]);
                assert(covers(first, tail[i - 1]));
                let j = choose|j: int|
                    0 <= j < first.len() && (#[trigger] first[j]).code == reqs[i].code
                        && first[j].amount >= reqs[i].amount;
                assert(pool[j].code == reqs[i].code);
            }
        }
    }
}

/// A pool with one entry per code that covers requirements with one entry
/// per code can have them consumed.
pub proof fn lemma_satisfied_then_consumed(reqs: Seq<Entry>, pool: Seq<Entry>)
    requires
        distinct_codes(reqs),
        distinct_codes(pool),
        satisfied(reqs, pool),
    ensures
        consumed(reqs, pool) is Ok,
{
    lemma_take_all_succeeds(pool, reqs);
    if distinct_codes(pool) && satisfied(reqs, pool) {
        assert forall|i: int| 0 <= i < reqs.len() implies can_take(pool, #[trigger] reqs[i]) by {
            assert(covers(pool, reqs[i]));
            let j = choose|j: int|
                0 <= j < pool.len() && (#[trigger] pool[j]).code == reqs[i].code && pool[j].amount
                    >= reqs[i].amount;
            lemma_index_of(pool, reqs[i].code);
            let k = index_of(pool, reqs[i].code);
            if k != j {
                assert(pool[k].code == pool[j].code);
            }
        }
    }
}

} // verus!
