//! Grouping quantities into one entry per product code.

use vstd::prelude::*;
use crate::ErrorVariant;
use crate::pool::{
    absorb, amount_of, distinct_codes, entries, grouped, lemma_amount_of_distinct,
    lemma_amount_of_suffix, lemma_grouped, lemma_index_of, sums_fit,
};
use crate::product::extra::{Entry, ProductAmount};

verus! {

/// Quantities waiting to be grouped into one entry per product code.
pub struct ProductAmountGroupFuture {
    queue: Vec<ProductAmount>,
}

impl View for ProductAmountGroupFuture {
    type V = Seq<Entry>;

    /// The entries still waiting.
    closed spec fn view(&self) -> Seq<Entry> {
        entries(self.queue@)
    }
}

impl ProductAmountGroupFuture {
    pub fn new(queue: Vec<ProductAmount>) -> (r: Self)
        ensures
            r@ == entries(queue@),
    {
        ProductAmountGroupFuture { queue }
    }

    /// Groups everything that waits and leaves the queue empty. The queue is
    /// taken from its end, so each code keeps the price of its last entry.
    pub fn poll(&mut self) -> (r: Result<Vec<ProductAmount>, ErrorVariant>)
        requires
            sums_fit(old(self)@),
        ensures
            final(self)@.len() == 0,
            r is Ok,
            entries(r->Ok_0@) == grouped(old(self)@),
            distinct_codes(entries(r->Ok_0@)),
            forall|code: Seq<char>| #[trigger]
                amount_of(entries(r->Ok_0@), code) == amount_of(old(self)@, code),
    {
        let ghost all = self@;
        let mut result: Vec<ProductAmount> = Vec::new();
        assert(all.subrange(all.len() as int, all.len() as int) =~= Seq::empty());
        while self.queue.len() > 0
            invariant
                sums_fit(all),
                self@ == all.subrange(0, self.queue.len() as int),
                self.queue.len() <= all.len(),
                entries(result@) == grouped(
                    all.subrange(self.queue.len() as int, all.len() as int),
                ),
            decreases self.queue.len(),
        {
            let ghost k = self.queue.len() as int;
            let ghost done = all.subrange(k, all.len() as int);
            let ghost next = all.subrange(k - 1, all.len() as int);
            let ghost before = entries(result@);
            assert(entries(self.queue@)[k - 1] == self.queue@[k - 1]@);
            let item = self.queue.pop().unwrap();
            assert(item@ == all[k - 1]);
            proof {
                assert(next.drop_first() =~= done);
                assert(next[0] == item@);
                assert(self@ =~= all.subrange(0, k - 1));
                lemma_index_of(before, item@.code);
                lemma_grouped(done);
                lemma_grouped(next);
            }
            match ProductAmount::get_index_of_product(&result, item.get_code()) {
                Ok(i) => {
                    proof {
                        assert(before[i as int] == result@[i as int]@);
                        lemma_amount_of_distinct(before, i as int);
                        lemma_amount_of_distinct(absorb(before, item@), i as int);
                        lemma_amount_of_suffix(all, k - 1, item@.code);
                        assert(amount_of(next, item@.code) <= u64::MAX);
                    }
                    result[i].inc_amount(*item.get_amount());
                    assert(entries(result@) =~= absorb(before, item@));
                },
                Err(_) => {
                    result.push(item);
                    assert(entries(result@) =~= absorb(before, item@));
                },
            }
        }
        proof {
            assert(all.subrange(0, all.len() as int) =~= all);
            lemma_grouped(all);
        }
        Ok(result)
    }

    /// Runs the grouping to its end.
    pub fn wait(self) -> (r: Result<Vec<ProductAmount>, ErrorVariant>)
        requires
            sums_fit(self@),
        ensures
            r is Ok,
            entries(r->Ok_0@) == grouped(self@),
            distinct_codes(entries(r->Ok_0@)),
            forall|code: Seq<char>| #[trigger]
                amount_of(entries(r->Ok_0@), code) == amount_of(self@, code),
    {
        let mut pending = self;
        pending.poll()
    }
}

} // verus!
