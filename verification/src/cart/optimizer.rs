//! The search for a cheaper combination of promotions: what it computes,
//! the laws that hold of its result, and the search itself.

use vstd::prelude::*;
use crate::ErrorVariant;
use crate::cart::optimizer_candidate::{
    lemma_bundles_price_push, CandidateView, OptimizerCandidate,
};
use crate::database::{applicable, applies, promotion_views, Database, DatabaseView};
use crate::pool::{amount_of, entries, lemma_entries_of_copy, total_price};
use crate::product::extra::{Entry, ProductAmount};
use crate::promotion::{Promotion, PromotionView};
use crate::promotion::rule::{lemma_consumed, lemma_consumed_was_satisfied};

verus! {

/// The better of the candidate and the candidate with the promotion applied:
/// the second only where the promotion can be applied and the result costs
/// strictly less.
pub open spec fn adopt(best: CandidateView, promotion: PromotionView) -> CandidateView {
    match best.with(promotion) {
        Ok(next) => if next.price() < best.price() {
            next
        } else {
            best
        },
        Err(_) => best,
    }
}

/// One round: the offers are tried in their order, each against the best
/// candidate so far, so that several of them may be adopted one after
/// another.
pub open spec fn round(best: CandidateView, offers: Seq<PromotionView>) -> CandidateView
    decreases offers.len(),
{
    if offers.len() == 0 {
        best
    } else {
        round(adopt(best, offers[0]), offers.drop_first())
    }
}

/// The search: rounds over the promotions that cost less than the best
/// candidate and are covered by what it has left, until a round brings no
/// cheaper candidate.
pub open spec fn search(catalog: Seq<PromotionView>, best: CandidateView) -> CandidateView
    decreases best.price(),
{
    let next = round(best, applicable(catalog, best.products, best.price()));
    if next.price() < best.price() {
        search(catalog, next)
    } else {
        best
    }
}

/// How many units of a code the promotions require together.
pub open spec fn required_of(promotions: Seq<PromotionView>, code: Seq<char>) -> nat
    decreases promotions.len(),
{
    if promotions.len() == 0 {
        0
    } else {
        required_of(promotions.drop_last(), code) + amount_of(promotions.last().products, code)
    }
}

/// The candidate accounts for the whole pool: of every code, what it has
/// left and what its promotions require make up what the pool held.
pub open spec fn accounts_for(c: CandidateView, pool: Seq<Entry>) -> bool {
    forall|code: Seq<char>| #[trigger]
        amount_of(c.products, code) + required_of(c.promotions, code) == amount_of(pool, code)
}

/// No promotion of the catalog, applied to the candidate, gives a cheaper one.
pub open spec fn settled(catalog: Seq<PromotionView>, c: CandidateView) -> bool {
    forall|i: int| 0 <= i < catalog.len() ==> adopt(c, #[trigger] catalog[i]) == c
}

/// Adopting never raises the price and keeps the account of the pool.
pub proof fn lemma_adopt(best: CandidateView, promotion: PromotionView, pool: Seq<Entry>)
    ensures
        adopt(best, promotion).price() <= best.price(),
        adopt(best, promotion).price() == best.price() ==> adopt(best, promotion) == best,
        accounts_for(best, pool) ==> accounts_for(adopt(best, promotion), pool),
{
    let next = adopt(best, promotion);
    if next != best {
        lemma_consumed(promotion.products, best.products);
        assert(next.promotions.drop_last() =~= best.promotions);
        if accounts_for(best, pool) {
            assert forall|code: Seq<char>| #[trigger]
                amount_of(next.products, code) + required_of(next.promotions, code) == amount_of(
                    pool,
                    code,
                ) by {
                assert(amount_of(best.products, code) + required_of(best.promotions, code)
                    == amount_of(pool, code));
            }
        }
    }
}

/// A round never raises the price and keeps the account of the pool; a
/// round that does not lower the price has adopted nothing, so that none of
/// its offers improves the candidate.
pub proof fn lemma_round(best: CandidateView, offers: Seq<PromotionView>, pool: Seq<Entry>)
    ensures
        round(best, offers).price() <= best.price(),
        accounts_for(best, pool) ==> accounts_for(round(best, offers), pool),
        round(best, offers).price() == best.price() ==> round(best, offers) == best && forall|
            k: int,
        | 0 <= k < offers.len() ==> adopt(best, #[trigger] offers[k]) == best,
    decreases offers.len(),
{
    if offers.len() > 0 {
        let first = adopt(best, offers[0]);
        let tail = offers.drop_first();
        lemma_adopt(best, offers[0], pool);
        lemma_round(first, tail, pool);
        if round(best, offers).price() == best.price() {
            assert(first == best);
            assert forall|k: int| 0 <= k < offers.len() implies adopt(best, #[trigger] offers[k])
                == best by {
                if k > 0 {
                    assert(tail[k - 1] == offers[k]);
                }
            }
        }
    }
}

/// A promotion that does not apply to the candidate cannot improve it.
pub proof fn lemma_adopt_needs_offer(best: CandidateView, promotion: PromotionView)
    requires
        !applies(promotion, best.products, best.price()),
    ensures
        adopt(best, promotion) == best,
{
    if best.with(promotion) is Ok {
        lemma_consumed_was_satisfied(promotion.products, best.products);
        lemma_bundles_price_push(best.promotions, promotion);
    }
}

/// Where the search ends: the result costs no more than the start, accounts
/// for the pool as the start did, and no promotion of the catalog improves it.
pub proof fn lemma_search(catalog: Seq<PromotionView>, best: CandidateView, pool: Seq<Entry>)
    ensures
        search(catalog, best).price() <= best.price(),
        accounts_for(best, pool) ==> accounts_for(search(catalog, best), pool),
        settled(catalog, search(catalog, best)),
    decreases best.price(),
{
    let offers = applicable(catalog, best.products, best.price());
    let next = round(best, offers);
    lemma_round(best, offers, pool);
    if next.price() < best.price() {
        lemma_search(catalog, next, pool);
    } else {
        assert forall|i: int| 0 <= i < catalog.len() implies adopt(best, #[trigger] catalog[i])
            == best by {
            let p = catalog[i];
            if applies(p, best.products, best.price()) {
                assert(offers.contains(p)) by {
                    broadcast use vstd::seq_lib::group_filter_ensures;

                }
                let k = choose|k: int| 0 <= k < offers.len() && offers[k] == p;
                assert(adopt(best, offers[k]) == best);
            } else {
                lemma_adopt_needs_offer(best, p);
            }
        }
    }
}

/// Where no promotion of the catalog applies to the candidate, the search
/// leaves it as it is.
pub proof fn lemma_search_without_offers(catalog: Seq<PromotionView>, best: CandidateView)
    requires
        forall|i: int|
            0 <= i < catalog.len() ==> !applies(#[trigger] catalog[i], best.products, best.price()),
    ensures
        search(catalog, best) == best,
{
    let offers = applicable(catalog, best.products, best.price());
    if offers.len() > 0 {
        let pred = |p: PromotionView| applies(p, best.products, best.price());
        assert(offers.contains(offers[0]));
        catalog.lemma_filter_contains_rev(pred, offers[0]);
        catalog.lemma_filter_pred(pred, 0);
        let i = choose|i: int| 0 <= i < catalog.len() && catalog[i] == offers[0];
        assert(!applies(catalog[i], best.products, best.price()));
    }
}

/// What the optimizer is to the contracts: the pool it was given, the
/// catalog it searches, and the best candidate so far.
pub struct OptimizerView {
    pub pool: Seq<Entry>,
    pub catalog: DatabaseView,
    pub best: CandidateView,
}

/// The search for a cheap combination of promotions for a pool of
/// quantities. It is greedy: what a round adopts is never taken back, so the
/// result is one that no single promotion improves, not the cheapest of all.
#[derive(Debug)]
pub struct Optimizer {
    available_items: Vec<ProductAmount>,
    maximum_price: u128,
    database: Database,
    candidate: OptimizerCandidate,
}

impl View for Optimizer {
    type V = OptimizerView;

    closed spec fn view(&self) -> OptimizerView {
        OptimizerView {
            pool: entries(self.available_items@),
            catalog: self.database@,
            best: self.candidate@,
        }
    }
}

impl Optimizer {
    /// The best candidate accounts for the pool and costs no more than the
    /// pool without any promotion, which is the stored maximum.
    #[verifier::type_invariant]
    closed spec fn consistent(self) -> bool {
        &&& self.maximum_price as nat == total_price(self@.pool)
        &&& self@.best.price() <= total_price(self@.pool)
        &&& accounts_for(self@.best, self@.pool)
    }

    /// Starts with no promotion chosen and the whole pool left.
    pub fn new(available_items: Vec<ProductAmount>, database: Database) -> (r: Self)
        requires
            total_price(entries(available_items@)) <= u128::MAX,
        ensures
            r@ == (OptimizerView {
                pool: entries(available_items@),
                catalog: database@,
                best: CandidateView {
                    promotions: Seq::empty(),
                    products: entries(available_items@),
                },
            }),
    {
        let maximum_price = ProductAmount::sum_total_price(&available_items);
        let products = available_items.clone();
        proof {
            lemma_entries_of_copy(products@, available_items@);
        }
        let none: Vec<Promotion> = Vec::new();
        assert(promotion_views(none@) =~= Seq::<PromotionView>::empty());
        let candidate = OptimizerCandidate::new(none, products);
        Optimizer { available_items, maximum_price, database, candidate }
    }

    /// Runs the search to its end and gives what it found: the quantities
    /// left at their unit prices, and the promotions chosen.
    pub fn get_optimal_products_promotions(&mut self) -> (r: Result<
        (Vec<ProductAmount>, Vec<Promotion>),
        ErrorVariant,
    >)
        ensures
            r is Ok,
            final(self)@ == (OptimizerView {
                best: search(old(self)@.catalog.promotions, old(self)@.best),
                ..old(self)@
            }),
            entries(r->Ok_0.0@) == final(self)@.best.products,
            promotion_views(r->Ok_0.1@) == final(self)@.best.promotions,
            final(self)@.best.price() <= old(self)@.best.price(),
            final(self)@.best.price() <= total_price(old(self)@.pool),
            accounts_for(final(self)@.best, old(self)@.pool),
            settled(old(self)@.catalog.promotions, final(self)@.best),
    {
        let ghost start = self@;
        let ghost catalog = self@.catalog.promotions;
        proof {
            use_type_invariant(&*self);
            lemma_search(catalog, start.best, start.pool);
        }
        let mut best = self.candidate.clone();
        loop
            invariant
                search(catalog, start.best) == search(catalog, best@),
                self@ == start,
                catalog == start.catalog.promotions,
                best@.price() <= start.best.price(),
            ensures
                best@ == search(catalog, start.best),
                self@ == start,
            decreases best@.price(),
        {
            let ghost offers = applicable(catalog, best@.products, best@.price());
            let possible = self.database.fetch_possible_promotions_with_maximum_price(
                &ProductAmount::borrow_all(best.get_products()),
                *best.get_price(),
            )?;
            assert(promotion_views(possible@) == offers);
            let ghost before = best@;
            let mut improved = false;
            let mut i: usize = 0;
            assert(offers.subrange(0, offers.len() as int) =~= offers);
            while i < possible.len()
                invariant
                    i <= possible.len(),
                    offers == promotion_views(possible@),
                    round(before, offers) == round(
                        best@,
                        offers.subrange(i as int, offers.len() as int),
                    ),
                    best@.price() <= before.price(),
                    improved <==> best@.price() < before.price(),
                decreases possible.len() - i,
            {
                let ghost todo = offers.subrange(i as int, offers.len() as int);
                proof {
                    assert(todo[0] == possible[i as int]@);
                    assert(todo.drop_first() =~= offers.subrange(i + 1, offers.len() as int));
                    lemma_adopt(best@, todo[0], start.pool);
                }
                match best.cheaper_with(possible[i].clone()) {
                    Some(next) => {
                        best = next;
                        improved = true;
                    },
                    None => {},
                }
                i = i + 1;
            }
            assert(offers.subrange(offers.len() as int, offers.len() as int) =~= Seq::<
                PromotionView,
            >::empty());
            if !improved {
                proof {
                    lemma_round(before, offers, start.pool);
                }
                break ;
            }
        }
        let left = best.get_products();
        let chosen = best.get_promotions();
        let products = left.clone();
        let promotions = chosen.clone();
        proof {
            lemma_entries_of_copy(products@, left@);
            assert(promotion_views(promotions@) =~= promotion_views(chosen@));
        }
        self.candidate = best;
        Ok((products, promotions))
    }
}

} // verus!
