//! Candidates of the search: promotions chosen, quantities left, and the
//! price that follows from both.

use vstd::prelude::*;
use crate::ErrorVariant;
use crate::database::promotion_views;
use crate::pool::{entries, lemma_entries_of_copy, total_price};
use crate::product::extra::{Entry, ProductAmount};
use crate::promotion::{Promotion, PromotionView};
use crate::promotion::rule::consumed;

verus! {

/// What the promotions cost together.
pub open spec fn bundles_price(promotions: Seq<PromotionView>) -> nat
    decreases promotions.len(),
{
    if promotions.len() == 0 {
        0
    } else {
        bundles_price(promotions.drop_last()) + promotions.last().price
    }
}

/// A provisional answer of the search: the promotions chosen so far and the
/// quantities that no promotion has taken.
pub struct CandidateView {
    pub promotions: Seq<PromotionView>,
    pub products: Seq<Entry>,
}

impl CandidateView {
    /// What the candidate costs: the chosen promotions at their flat prices
    /// and the remaining quantities at their unit prices.
    pub open spec fn price(self) -> nat {
        bundles_price(self.promotions) + total_price(self.products)
    }

    /// The candidate with one more promotion applied: its requirements taken
    /// out of the remaining quantities, and the promotion put behind those
    /// already chosen. It fails as the consumption fails.
    pub open spec fn with(self, promotion: PromotionView) -> Result<CandidateView, ErrorVariant> {
        match consumed(promotion.products, self.products) {
            Ok(rest) => Ok(
                CandidateView { promotions: self.promotions.push(promotion), products: rest },
            ),
            Err(e) => Err(e),
        }
    }
}

/// An earlier part of the promotions costs no more than all of them.
pub proof fn lemma_bundles_price_prefix(promotions: Seq<PromotionView>, k: int)
    requires
        0 <= k <= promotions.len(),
    ensures
        bundles_price(promotions.take(k)) <= bundles_price(promotions),
    decreases promotions.len(),
{
    if k == promotions.len() {
        assert(promotions.take(k) =~= promotions);
    } else {
        assert(promotions.drop_last().take(k) =~= promotions.take(k));
        lemma_bundles_price_prefix(promotions.drop_last(), k);
    }
}

/// One more promotion adds its flat price.
pub proof fn lemma_bundles_price_push(promotions: Seq<PromotionView>, p: PromotionView)
    ensures
        bundles_price(promotions.push(p)) == bundles_price(promotions) + p.price,
{
    assert(promotions.push(p).drop_last() =~= promotions);
}

/// A provisional answer of the search. Its price is derived from its two
/// lists when it is made and never set apart from them.
#[derive(Debug)]
pub struct OptimizerCandidate {
    price: u128,
    promotions: Vec<Promotion>,
    products: Vec<ProductAmount>,
}

impl View for OptimizerCandidate {
    type V = CandidateView;

    closed spec fn view(&self) -> CandidateView {
        CandidateView {
            promotions: promotion_views(self.promotions@),
            products: entries(self.products@),
        }
    }
}

impl OptimizerCandidate {
    /// The stored price is the price of the two lists.
    #[verifier::type_invariant]
    closed spec fn price_is_derived(self) -> bool {
        self.price as nat == self@.price()
    }

    pub fn new(promotions: Vec<Promotion>, products: Vec<ProductAmount>) -> (r: Self)
        requires
            bundles_price(promotion_views(promotions@)) + total_price(entries(products@))
                <= u128::MAX,
        ensures
            r@ == (CandidateView {
                promotions: promotion_views(promotions@),
                products: entries(products@),
            }),
    {
        let price = Self::set_price(&promotions, &products);
        OptimizerCandidate { price, promotions, products }
    }

    pub fn get_price(&self) -> (r: &u128)
        ensures
            *r as nat == self@.price(),
    {
        proof {
            use_type_invariant(self);
        }
        &self.price
    }

    pub fn get_promotions(&self) -> (r: &Vec<Promotion>)
        ensures
            promotion_views(r@) == self@.promotions,
    {
        &self.promotions
    }

    pub fn get_products(&self) -> (r: &Vec<ProductAmount>)
        ensures
            entries(r@) == self@.products,
    {
        &self.products
    }

    /// The price of the two lists: every promotion at its flat price, every
    /// quantity at its unit price.
    fn set_price(promotions: &Vec<Promotion>, products: &Vec<ProductAmount>) -> (r: u128)
        requires
            bundles_price(promotion_views(promotions@)) + total_price(entries(products@))
                <= u128::MAX,
        ensures
            r as nat == bundles_price(promotion_views(promotions@)) + total_price(
                entries(products@),
            ),
    {
        let ghost all = promotion_views(promotions@);
        let mut sum: u128 = 0;
        let mut i: usize = 0;
        assert(all.take(0) =~= Seq::<PromotionView>::empty());
        while i < promotions.len()
            invariant
                i <= promotions.len(),
                all == promotion_views(promotions@),
                bundles_price(all) <= u128::MAX,
                sum as nat == bundles_price(all.take(i as int)),
            decreases promotions.len() - i,
        {
            proof {
                assert(all.take(i + 1).drop_last() =~= all.take(i as int));
                assert(all.take(i + 1).last() == promotions[i as int]@);
                lemma_bundles_price_prefix(all, i + 1);
            }
            let price: u64 = *promotions[i].get_price();
            sum = sum + price as u128;
            i = i + 1;
        }
        assert(all.take(i as int) =~= all);
        sum + ProductAmount::sum_total_price(products)
    }

    /// This candidate with one more promotion applied. The receiver stays as
    /// it is; where the promotion's requirements cannot be taken, the
    /// failure of the consumption is the result.
    pub fn simulate_promotion(&self, promotion: Promotion) -> (r: Result<Self, ErrorVariant>)
        requires
            self@.with(promotion@) matches Ok(next) ==> next.price() <= u128::MAX,
        ensures
            match r {
                Ok(next) => self@.with(promotion@) == Ok::<CandidateView, ErrorVariant>(next@),
                Err(e) => self@.with(promotion@) == Err::<CandidateView, ErrorVariant>(e),
            },
    {
        let products = self.products.clone();
        let mut promotions = self.promotions.clone();
        proof {
            lemma_entries_of_copy(products@, self.products@);
            assert(promotion_views(promotions@) =~= promotion_views(self.promotions@));
        }
        match promotion.consume_items(products) {
            Ok(rest) => {
                assert(promotion_views(promotions@.push(promotion)) =~= promotion_views(
                    promotions@,
                ).push(promotion@));
                promotions.push(promotion);
                Ok(OptimizerCandidate::new(promotions, rest))
            },
            Err(e) => Err(e),
        }
    }

    /// This candidate with one more promotion applied, where that can be
    /// done and costs strictly less than the candidate does now.
    pub fn cheaper_with(&self, promotion: Promotion) -> (r: Option<Self>)
        ensures
            match r {
                Some(next) => self@.with(promotion@) == Ok::<CandidateView, ErrorVariant>(next@)
                    && next@.price() < self@.price(),
                None => !(self@.with(promotion@) matches Ok(next) && next.price()
                    < self@.price()),
            },
    {
        proof {
            use_type_invariant(self);
        }
        let products = self.products.clone();
        proof {
            lemma_entries_of_copy(products@, self.products@);
        }
        match promotion.consume_items(products) {
            Ok(rest) => {
                let before: u128 = ProductAmount::sum_total_price(&self.products);
                let after: u128 = ProductAmount::sum_total_price(&rest);
                let price: u64 = *promotion.get_price();
                if (price as u128) < before - after {
                    let mut promotions = self.promotions.clone();
                    proof {
                        assert(promotion_views(promotions@) =~= promotion_views(
                            self.promotions@,
                        ));
                        assert(promotion_views(promotions@.push(promotion)) =~= promotion_views(
                            promotions@,
                        ).push(promotion@));
                        lemma_bundles_price_push(self@.promotions, promotion@);
                    }
                    promotions.push(promotion);
                    Some(
                        OptimizerCandidate {
                            price: self.price - (before - after - price as u128),
                            promotions,
                            products: rest,
                        },
                    )
                } else {
                    proof {
                        lemma_bundles_price_push(self@.promotions, promotion@);
                    }
                    None
                }
            },
            Err(_) => None,
        }
    }
}

impl Clone for OptimizerCandidate {
    fn clone(&self) -> (r: Self)
        ensures
            r@ == self@,
    {
        proof {
            use_type_invariant(self);
        }
        let promotions = self.promotions.clone();
        let products = self.products.clone();
        proof {
            lemma_entries_of_copy(products@, self.products@);
            assert(promotion_views(promotions@) =~= promotion_views(self.promotions@));
        }
        OptimizerCandidate { price: self.price, promotions, products }
    }
}

} // verus!
