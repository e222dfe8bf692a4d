//! Promotions: bundles of required quantities at a flat price, whether a
//! pool covers one, and what is left of a pool once one has been taken out.

use vstd::prelude::*;
use vstd::std_specs::cmp::PartialEqSpecImpl;
use uuid::Uuid;
use crate::{ErrorVariant, WithNewPricing};
use crate::cart::item::{fresh_id, CartItem, CartItemVariant, LineView};
use crate::pool::{
    distinct_codes, entries, entries_of_refs, grouped, lemma_entries_of_copy, lemma_index_of,
    sums_fit, total_price,
};
use crate::product::extra::{Entry, ProductAmount};
use crate::product::fut::ProductAmountGroupFuture;
use crate::promotion::rule::{
    can_take, consumed, covers, lemma_consumed, lemma_take_all_succeeds,
    lemma_without_empty_none, lemma_without_empty_push, satisfied, take_all, take_from,
    without_empty,
};

pub mod rule;

verus! {

/// What a promotion is to the contracts: its code, what it requires, one
/// entry per product code, and the flat price of the bundle.
pub struct PromotionView {
    pub code: Seq<char>,
    pub products: Seq<Entry>,
    pub price: nat,
}

/// A bundle of required quantities sold at a flat price. It never changes
/// once it is made, and its identity is its code alone.
#[derive(Debug)]
pub struct Promotion {
    code: String,
    products: Vec<ProductAmount>,
    price: u64,
}

impl View for Promotion {
    type V = PromotionView;

    closed spec fn view(&self) -> PromotionView {
        PromotionView {
            code: self.code@,
            products: entries(self.products@),
            price: self.price as nat,
        }
    }
}

impl Promotion {
    /// A promotion requires every product code at most once.
    #[verifier::type_invariant]
    pub open spec fn one_entry_per_code(self) -> bool {
        distinct_codes(self@.products)
    }

    /// Makes the promotion, with its requirements grouped by product code.
    pub fn new(code: String, products: Vec<ProductAmount>, price: u64) -> (r: Result<
        Self,
        ErrorVariant,
    >)
        requires
            sums_fit(entries(products@)),
        ensures
            r is Ok,
            r->Ok_0@ == (PromotionView {
                code: code@,
                products: grouped(entries(products@)),
                price: price as nat,
            }),
            distinct_codes(r->Ok_0@.products),
    {
        let products = ProductAmountGroupFuture::new(products).wait()?;
        Ok(Promotion { code, products, price })
    }

    pub fn get_code(&self) -> (r: &String)
        ensures
            r@ == self@.code,
    {
        &self.code
    }

    /// The requirements, one entry per product code.
    pub fn get_products(&self) -> (r: Vec<&ProductAmount>)
        ensures
            entries_of_refs(r@) == self@.products,
            distinct_codes(self@.products),
    {
        proof {
            use_type_invariant(self);
        }
        ProductAmount::borrow_all(&self.products)
    }

    pub fn get_price(&self) -> (r: &u64)
        ensures
            *r as nat == self@.price,
    {
        &self.price
    }

    /// Whether the pool covers every requirement: for each, some entry of the
    /// pool has its code and holds at least the required amount.
    pub fn is_contained_by(&self, products: &Vec<&ProductAmount>) -> (r: bool)
        ensures
            r == satisfied(self@.products, entries_of_refs(products@)),
    {
        let ghost reqs = self@.products;
        let ghost pool = entries_of_refs(products@);
        let mut i: usize = 0;
        while i < self.products.len()
            invariant
                i <= self.products.len(),
                reqs == entries(self.products@),
                pool == entries_of_refs(products@),
                forall|k: int| 0 <= k < i ==> covers(pool, #[trigger] reqs[k]),
            decreases self.products.len() - i,
        {
            let required = &self.products[i];
            assert(reqs[i as int] == required@);
            let mut found = false;
            let mut j: usize = 0;
            while j < products.len() && !found
                invariant
                    j <= products.len(),
                    pool == entries_of_refs(products@),
                    found ==> covers(pool, required@),
                    !found ==> forall|k: int|
                        0 <= k < j ==> !((#[trigger] pool[k]).code == required@.code
                            && pool[k].amount >= required@.amount),
                decreases products.len() - j + if found { 0int } else { 1int },
            {
                let available = products[j];
                assert(pool[j as int] == available@);
                if *available.get_code() == *required.get_code() && *available.get_amount()
                    >= *required.get_amount() {
                    found = true;
                } else {
                    j = j + 1;
                }
            }
            if !found {
                assert(!covers(pool, reqs[i as int]));
                return false;
            }
            i = i + 1;
        }
        true
    }

    /// Takes the requirements out of the pool. Each is taken from the first
    /// entry with its code; entries that are emptied leave the pool, the
    /// others keep their order. The first requirement that cannot be taken
    /// gives the error: `ProductNotFound` where the pool has no entry with
    /// its code, `NotEnoughItems` where that entry holds too little.
    #[verifier::loop_isolation(false)]
    pub fn consume_items(&self, products: Vec<ProductAmount>) -> (r: Result<
        Vec<ProductAmount>,
        ErrorVariant,
    >)
        ensures
            match r {
                Ok(rest) => consumed(self@.products, entries(products@)) == Ok::<
                    Seq<Entry>,
                    ErrorVariant,
                >(entries(rest@)),
                Err(e) => consumed(self@.products, entries(products@)) == Err::<
                    Seq<Entry>,
                    ErrorVariant,
                >(e),
            },
            r is Ok <==> forall|i: int|
                0 <= i < self@.products.len() ==> can_take(
                    entries(products@),
                    #[trigger] self@.products[i],
                ),
            r is Ok ==> total_price(entries(r->Ok_0@)) <= total_price(entries(products@)),
    {
        let ghost reqs = self@.products;
        let ghost start = entries(products@);
        proof {
            use_type_invariant(self);
            lemma_take_all_succeeds(start, reqs);
        }
        let mut pool = products;
        let mut i: usize = 0;
        assert(reqs.subrange(0, reqs.len() as int) =~= reqs);
        while i < self.products.len()
            invariant
                i <= self.products.len(),
                reqs == entries(self.products@),
                take_all(start, reqs) == take_all(
                    entries(pool@),
                    reqs.subrange(i as int, reqs.len() as int),
                ),
            decreases self.products.len() - i,
        {
            let required = &self.products[i];
            let ghost todo = reqs.subrange(i as int, reqs.len() as int);
            let ghost before = entries(pool@);
            assert(todo[0] == required@);
            assert(todo.drop_first() =~= reqs.subrange(i + 1, reqs.len() as int));
            match ProductAmount::get_index_of_product(&pool, required.get_code()) {
                Ok(index) => {
                    assert(before[index as int] == pool@[index as int]@);
                    match pool[index].dec_amount(*required.get_amount()) {
                        Ok(()) => {
                            assert(entries(pool@) =~= take_from(before, required@)->Ok_0);
                        },
                        Err(e) => {
                            return Err(e);
                        },
                    }
                },
                Err(e) => {
                    proof {
                        lemma_index_of(before, required@.code);
                    }
                    return Err(e);
                },
            }
            i = i + 1;
        }
        let ghost taken = entries(pool@);
        assert(take_all(start, reqs) == Ok::<Seq<Entry>, ErrorVariant>(taken));
        let mut rest: Vec<ProductAmount> = Vec::new();
        let mut j: usize = 0;
        proof {
            lemma_without_empty_none();
            assert(taken.take(0) =~= Seq::<Entry>::empty());
        }
        while j < pool.len()
            invariant
                j <= pool.len(),
                taken == entries(pool@),
                entries(rest@) == without_empty(taken.take(j as int)),
            decreases pool.len() - j,
        {
            assert(taken[j as int] == pool@[j as int]@);
            proof {
                lemma_without_empty_push(taken.take(j as int), taken[j as int]);
                assert(taken.take(j as int).push(taken[j as int]) =~= taken.take(j + 1));
            }
            if *pool[j].get_amount() > 0 {
                rest.push(pool[j].clone());
                assert(entries(rest@) =~= without_empty(taken.take(j as int)).push(
                    taken[j as int],
                ));
            }
            j = j + 1;
        }
        proof {
            assert(taken.take(pool.len() as int) =~= taken);
            lemma_consumed(reqs, start);
        }
        Ok(rest)
    }
}

impl Clone for Promotion {
    fn clone(&self) -> (r: Self)
        ensures
            r@ == self@,
    {
        proof {
            use_type_invariant(self);
        }
        let products = self.products.clone();
        proof {
            lemma_entries_of_copy(products@, self.products@);
        }
        Promotion { code: self.code.clone(), products, price: self.price }
    }
}

impl WithNewPricing for Promotion {
    /// The same code and requirements at the new price. The requirements
    /// are grouped anew, which turns their order round.
    open spec fn repriced(&self, price: u64, priced: &Self) -> bool {
        priced@ == (PromotionView {
            code: self@.code,
            products: grouped(self@.products),
            price: price as nat,
        })
    }

    fn with_new_pricing(&self, price: u64) -> (r: Result<Self, ErrorVariant>) {
        let code = self.get_code().clone();
        let products = self.products.clone();
        proof {
            use_type_invariant(self);
            lemma_entries_of_copy(products@, self.products@);
            ProductAmount::lemma_distinct_sums_fit(self.products@);
        }
        Promotion::new(code, products, price)
    }
}

impl PartialEq for Promotion {
    fn eq(&self, other: &Promotion) -> (r: bool) {
        self.code == other.code
    }
}

impl Eq for Promotion {}

impl PartialEqSpecImpl for Promotion {
    open spec fn obeys_eq_spec() -> bool {
        true
    }

    open spec fn eq_spec(&self, other: &Promotion) -> bool {
        self@.code == other@.code
    }
}

/// A cart line that holds a promotion and how many times it is applied.
#[derive(Debug)]
pub struct CartItemPromotion {
    id: Uuid,
    promotion: Promotion,
    amount: u64,
}

impl CartItemPromotion {
    pub fn new(promotion: Promotion, amount: u64) -> (r: Self)
        ensures
            r.line() == LineView::Promotion(promotion@, amount as nat),
    {
        let id = fresh_id();
        CartItemPromotion { id, promotion, amount }
    }

    /// The line as the contracts see it: its promotion and how many times
    /// it is applied.
    pub closed spec fn as_line(&self) -> LineView {
        LineView::Promotion(self.promotion@, self.amount as nat)
    }

    /// The identifier that the line was given when it was made.
    pub closed spec fn identifier(&self) -> Uuid {
        self.id
    }
}

impl CartItem for CartItemPromotion {
    open spec fn line(&self) -> LineView {
        self.as_line()
    }

    open spec fn id(&self) -> Uuid {
        self.identifier()
    }

    fn get_id(&self) -> (r: &Uuid) {
        &self.id
    }

    fn get_products(&self) -> (r: Vec<&ProductAmount>) {
        self.promotion.get_products()
    }

    fn get_amount(&self) -> (r: u64) {
        self.amount
    }

    fn get_variant(&self) -> (r: CartItemVariant<'_>)
        ensures
            r == CartItemVariant::Promotion(self),
    {
        CartItemVariant::Promotion(self)
    }

    fn get_price(&self) -> (r: u64) {
        *self.promotion.get_price()
    }
}

impl Clone for CartItemPromotion {
    fn clone(&self) -> (r: Self)
        ensures
            r.line() == self.line(),
            r.id() == self.id(),
    {
        CartItemPromotion { id: self.id, promotion: self.promotion.clone(), amount: self.amount }
    }
}

} // verus!
