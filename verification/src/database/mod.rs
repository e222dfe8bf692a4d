//! The catalog: products and promotions, each found by its code.

use vstd::prelude::*;
use crate::ErrorVariant;
use crate::pool::entries_of_refs;
use crate::product::{Product, ProductView};
use crate::product::extra::{Entry, ProductAmount};
use crate::promotion::{Promotion, PromotionView};
use crate::promotion::rule::satisfied;

verus! {

/// The products that a vector of them stands for, in order.
pub open spec fn product_views(v: Seq<Product>) -> Seq<ProductView> {
    v.map_values(|p: Product| p@)
}

/// The promotions that a vector of them stands for, in order.
pub open spec fn promotion_views(v: Seq<Promotion>) -> Seq<PromotionView> {
    v.map_values(|p: Promotion| p@)
}

/// The codes of the products, in order.
pub open spec fn product_codes(s: Seq<ProductView>) -> Seq<Seq<char>> {
    s.map_values(|p: ProductView| p.code)
}

/// The codes of the promotions, in order.
pub open spec fn promotion_codes(s: Seq<PromotionView>) -> Seq<Seq<char>> {
    s.map_values(|p: PromotionView| p.code)
}

/// The promotion costs less than the ceiling and the pool covers what it
/// requires.
pub open spec fn applies(p: PromotionView, pool: Seq<Entry>, ceiling: nat) -> bool {
    p.price < ceiling && satisfied(p.products, pool)
}

/// The promotions that apply, in their order.
pub open spec fn applicable(promotions: Seq<PromotionView>, pool: Seq<Entry>, ceiling: nat) -> Seq<
    PromotionView,
> {
    promotions.filter(|p: PromotionView| applies(p, pool, ceiling))
}

/// The promotions whose requirements the pool covers, in their order.
pub open spec fn contained(promotions: Seq<PromotionView>, pool: Seq<Entry>) -> Seq<PromotionView> {
    promotions.filter(|p: PromotionView| satisfied(p.products, pool))
}

/// What the store holds: products and promotions, each list in the order in
/// which its codes first came in.
pub struct DatabaseView {
    pub products: Seq<ProductView>,
    pub promotions: Seq<PromotionView>,
}

impl DatabaseView {
    /// No product code and no promotion code is held twice.
    pub open spec fn wf(self) -> bool {
        &&& product_codes(self.products).no_duplicates()
        &&& promotion_codes(self.promotions).no_duplicates()
    }

    /// The product stored under the code.
    pub open spec fn product(self, code: Seq<char>) -> Option<ProductView> {
        let codes = product_codes(self.products);
        if codes.contains(code) {
            Some(self.products[codes.index_of(code)])
        } else {
            None
        }
    }

    /// The promotion stored under the code.
    pub open spec fn promotion(self, code: Seq<char>) -> Option<PromotionView> {
        let codes = promotion_codes(self.promotions);
        if codes.contains(code) {
            Some(self.promotions[codes.index_of(code)])
        } else {
            None
        }
    }

    /// The store once the product is in it: in the place of the one that had
    /// its code, or behind all others.
    pub open spec fn with_product(self, p: ProductView) -> DatabaseView {
        let codes = product_codes(self.products);
        DatabaseView {
            products: if codes.contains(p.code) {
                self.products.update(codes.index_of(p.code), p)
            } else {
                self.products.push(p)
            },
            promotions: self.promotions,
        }
    }

    /// The store once the promotion is in it: in the place of the one that
    /// had its code, or behind all others.
    pub open spec fn with_promotion(self, p: PromotionView) -> DatabaseView {
        let codes = promotion_codes(self.promotions);
        DatabaseView {
            products: self.products,
            promotions: if codes.contains(p.code) {
                self.promotions.update(codes.index_of(p.code), p)
            } else {
                self.promotions.push(p)
            },
        }
    }
}

/// Where the codes hold no duplicate, a code stands at one position only.
pub proof fn lemma_index_of_unique(codes: Seq<Seq<char>>, i: int)
    requires
        codes.no_duplicates(),
        0 <= i < codes.len(),
    ensures
        codes.contains(codes[i]),
        codes.index_of(codes[i]) == i,
{
    assert(codes.contains(codes[i]));
    let k = codes.index_of(codes[i]);
    assert(0 <= k < codes.len() && codes[k] == codes[i]);
}

/// Storing a product keeps the store well formed; afterwards the product is
/// what its code gives, and every other code gives what it gave before.
pub proof fn lemma_with_product(db: DatabaseView, p: ProductView)
    requires
        db.wf(),
    ensures
        db.with_product(p).wf(),
        db.with_product(p).product(p.code) == Some(p),
        forall|code: Seq<char>|
            code != p.code ==> #[trigger] db.with_product(p).product(code) == db.product(code),
        forall|code: Seq<char>| #[trigger] db.with_product(p).promotion(code) == db.promotion(code),
{
    let codes = product_codes(db.products);
    let after = db.with_product(p);
    let codes2 = product_codes(after.products);
    if codes.contains(p.code) {
        let i = codes.index_of(p.code);
        assert(codes2 =~= codes);
        lemma_index_of_unique(codes, i);
    } else {
        assert(codes2 =~= codes.push(p.code));
        assert(codes2.no_duplicates());
        lemma_index_of_unique(codes2, codes.len() as int);
    }
    assert forall|code: Seq<char>| code != p.code implies #[trigger] after.product(code)
        == db.product(code) by {
        if codes.contains(code) {
            let k = codes.index_of(code);
            assert(codes2[k] == code);
            lemma_index_of_unique(codes2, k);
        } else if codes2.contains(code) {
            let k = codes2.index_of(code);
            assert(codes[k] == code);
        }
    }
}

/// Storing a promotion keeps the store well formed; afterwards the
/// promotion is what its code gives, and every other code gives what it gave
/// before.
pub proof fn lemma_with_promotion(db: DatabaseView, p: PromotionView)
    requires
        db.wf(),
    ensures
        db.with_promotion(p).wf(),
        db.with_promotion(p).promotion(p.code) == Some(p),
        forall|code: Seq<char>|
            code != p.code ==> #[trigger] db.with_promotion(p).promotion(code) == db.promotion(
                code,
            ),
        forall|code: Seq<char>| #[trigger] db.with_promotion(p).product(code) == db.product(code),
{
    let codes = promotion_codes(db.promotions);
    let after = db.with_promotion(p);
    let codes2 = promotion_codes(after.promotions);
    if codes.contains(p.code) {
        let i = codes.index_of(p.code);
        assert(codes2 =~= codes);
        lemma_index_of_unique(codes, i);
    } else {
        assert(codes2 =~= codes.push(p.code));
        assert(codes2.no_duplicates());
        lemma_index_of_unique(codes2, codes.len() as int);
    }
    assert forall|code: Seq<char>| code != p.code implies #[trigger] after.promotion(code)
        == db.promotion(code) by {
        if codes.contains(code) {
            let k = codes.index_of(code);
            assert(codes2[k] == code);
            lemma_index_of_unique(codes2, k);
        } else if codes2.contains(code) {
            let k = codes2.index_of(code);
            assert(codes[k] == code);
        }
    }
}

/// The store of products and promotions, each found by its code. A code is
/// held once: what is appended under a code that is there already takes the
/// place of what was there.
#[derive(Debug)]
pub struct Database {
    products: Vec<Product>,
    promotions: Vec<Promotion>,
}

impl View for Database {
    type V = DatabaseView;

    closed spec fn view(&self) -> DatabaseView {
        DatabaseView {
            products: product_views(self.products@),
            promotions: promotion_views(self.promotions@),
        }
    }
}

/// Something that can be put into the store under its code.
pub trait DatabaseAppend<T>: Sized {
    /// `after` is this store with the entity put in.
    spec fn appended(&self, entity: &T, after: &Self) -> bool;

    fn append(&mut self, entity: T) -> (r: Result<(), ErrorVariant>)
        ensures
            r is Ok,
            old(self).appended(&entity, final(self)),
    ;
}

impl Database {
    /// The store holds no code twice.
    #[verifier::type_invariant]
    pub open spec fn well_formed(self) -> bool {
        self@.wf()
    }

    /// An empty store.
    pub fn new() -> (r: Self)
        ensures
            r@.products.len() == 0,
            r@.promotions.len() == 0,
    {
        Database { products: Vec::new(), promotions: Vec::new() }
    }

    /// The products, in the order in which their codes first came in.
    pub fn get_products(&self) -> (r: &Vec<Product>)
        ensures
            product_views(r@) == self@.products,
            self@.wf(),
    {
        proof {
            use_type_invariant(self);
        }
        &self.products
    }

    /// The promotions, in the order in which their codes first came in.
    pub fn get_promotions(&self) -> (r: &Vec<Promotion>)
        ensures
            promotion_views(r@) == self@.promotions,
            self@.wf(),
    {
        proof {
            use_type_invariant(self);
        }
        &self.promotions
    }

    /// Where the product with this code stands.
    fn product_index(&self, code: &String) -> (r: Option<usize>)
        ensures
            self@.wf(),
            r is Some <==> product_codes(self@.products).contains(code@),
            r matches Some(i) ==> i < self.products.len() && i == product_codes(
                self@.products,
            ).index_of(code@) && self.products[i as int]@ == self@.products[i as int],
    {
        proof {
            use_type_invariant(self);
        }
        let ghost codes = product_codes(self@.products);
        let mut i: usize = 0;
        while i < self.products.len()
            invariant
                i <= self.products.len(),
                self@.wf(),
                codes == product_codes(self@.products),
                forall|k: int| 0 <= k < i ==> codes[k] != code@,
            decreases self.products.len() - i,
        {
            assert(codes[i as int] == self.products[i as int]@.code);
            if *self.products[i].get_code() == *code {
                proof {
                    lemma_index_of_unique(codes, i as int);
                }
                return Some(i);
            }
            i = i + 1;
        }
        None
    }

    /// Where the promotion with this code stands.
    fn promotion_index(&self, code: &String) -> (r: Option<usize>)
        ensures
            self@.wf(),
            r is Some <==> promotion_codes(self@.promotions).contains(code@),
            r matches Some(i) ==> i < self.promotions.len() && i == promotion_codes(
                self@.promotions,
            ).index_of(code@) && self.promotions[i as int]@ == self@.promotions[i as int],
    {
        proof {
            use_type_invariant(self);
        }
        let ghost codes = promotion_codes(self@.promotions);
        let mut i: usize = 0;
        while i < self.promotions.len()
            invariant
                i <= self.promotions.len(),
                self@.wf(),
                codes == promotion_codes(self@.promotions),
                forall|k: int| 0 <= k < i ==> codes[k] != code@,
            decreases self.promotions.len() - i,
        {
            assert(codes[i as int] == self.promotions[i as int]@.code);
            if *self.promotions[i].get_code() == *code {
                proof {
                    lemma_index_of_unique(codes, i as int);
                }
                return Some(i);
            }
            i = i + 1;
        }
        None
    }

    /// The product with this code, in the given quantity.
    pub fn code_to_product_amount(&self, code: String, amount: u64) -> (r: Result<
        ProductAmount,
        ErrorVariant,
    >)
        ensures
            match r {
                Ok(quantity) => self@.product(code@) matches Some(p) && quantity@ == (Entry {
                    code: p.code,
                    price: p.price,
                    amount: amount as nat,
                }),
                Err(e) => e == ErrorVariant::ProductNotFound && self@.product(code@) is None,
            },
    {
        let product = self.fetch_product(&code)?;
        Ok(ProductAmount::new(product, amount))
    }

    /// The promotion stored under the code.
    pub fn fetch_promotion(&self, code: &String) -> (r: Result<Promotion, ErrorVariant>)
        ensures
            match r {
                Ok(p) => self@.promotion(code@) == Some(p@),
                Err(e) => e == ErrorVariant::PromotionNotFound && self@.promotion(code@) is None,
            },
    {
        match self.promotion_index(code) {
            Some(i) => Ok(self.promotions[i].clone()),
            None => Err(ErrorVariant::PromotionNotFound),
        }
    }

    /// The product stored under the code.
    pub fn fetch_product(&self, code: &String) -> (r: Result<Product, ErrorVariant>)
        ensures
            match r {
                Ok(p) => self@.product(code@) == Some(p@),
                Err(e) => e == ErrorVariant::ProductNotFound && self@.product(code@) is None,
            },
    {
        match self.product_index(code) {
            Some(i) => Ok(self.products[i].clone()),
            None => Err(ErrorVariant::ProductNotFound),
        }
    }

    /// The products stored under the codes, in the order of the codes. One
    /// code that the store does not hold fails the whole call.
    pub fn fetch_products(&self, products_code: Vec<String>) -> (r: Result<
        Vec<Product>,
        ErrorVariant,
    >)
        ensures
            r is Ok <==> forall|i: int|
                0 <= i < products_code.len() ==> self@.product(
                    (#[trigger] products_code[i])@,
                ) is Some,
            match r {
                Ok(products) => products.len() == products_code.len() && forall|i: int|
                    0 <= i < products_code.len() ==> self@.product(products_code[i]@) == Some(
                        (#[trigger] products[i])@,
                    ),
                Err(e) => e == ErrorVariant::ProductNotFound,
            },
    {
        let mut products: Vec<Product> = Vec::new();
        let mut i: usize = 0;
        while i < products_code.len()
            invariant
                i <= products_code.len(),
                products.len() == i,
                forall|k: int|
                    #![trigger products_code[k]]
                    #![trigger products[k]]
                    0 <= k < i ==> self@.product(products_code[k]@) == Some(products[k]@),
            decreases products_code.len() - i,
        {
            products.push(self.fetch_product(&products_code[i])?);
            i = i + 1;
        }
        Ok(products)
    }

    /// Every promotion whose requirements the pool covers, in the store's
    /// order.
    pub fn fetch_possible_promotions(&self, products: &Vec<&ProductAmount>) -> (r: Result<
        Vec<Promotion>,
        ErrorVariant,
    >)
        ensures
            r is Ok,
            promotion_views(r->Ok_0@) == contained(self@.promotions, entries_of_refs(products@)),
    {
        let ghost all = self@.promotions;
        let ghost pool = entries_of_refs(products@);
        let mut possible: Vec<Promotion> = Vec::new();
        let mut i: usize = 0;
        proof {
            reveal(Seq::filter);
            assert(all.take(0) =~= Seq::<PromotionView>::empty());
            assert(promotion_views(possible@) =~= contained(all.take(0), pool));
        }
        while i < self.promotions.len()
            invariant
                i <= self.promotions.len(),
                all == promotion_views(self.promotions@),
                pool == entries_of_refs(products@),
                promotion_views(possible@) == contained(all.take(i as int), pool),
            decreases self.promotions.len() - i,
        {
            let promotion = &self.promotions[i];
            proof {
                reveal(Seq::filter);
                assert(all[i as int] == promotion@);
                assert(all.take(i + 1).drop_last() =~= all.take(i as int));
            }
            if promotion.is_contained_by(products) {
                let found = promotion.clone();
                assert(promotion_views(possible@.push(found)) =~= promotion_views(possible@).push(
                    found@,
                ));
                possible.push(found);
            }
            i = i + 1;
        }
        assert(all.take(i as int) =~= all);
        Ok(possible)
    }

    /// Every promotion that costs less than `maximum_price` and whose
    /// requirements the pool covers, in the store's order.
    pub fn fetch_possible_promotions_with_maximum_price(
        &self,
        products: &Vec<&ProductAmount>,
        maximum_price: u128,
    ) -> (r: Result<Vec<Promotion>, ErrorVariant>)
        ensures
            r is Ok,
            promotion_views(r->Ok_0@) == applicable(
                self@.promotions,
                entries_of_refs(products@),
                maximum_price as nat,
            ),
    {
        let ghost all = self@.promotions;
        let ghost pool = entries_of_refs(products@);
        let ghost ceiling = maximum_price as nat;
        let mut possible: Vec<Promotion> = Vec::new();
        let mut i: usize = 0;
        proof {
            reveal(Seq::filter);
            assert(all.take(0) =~= Seq::<PromotionView>::empty());
            assert(promotion_views(possible@) =~= applicable(all.take(0), pool, ceiling));
        }
        while i < self.promotions.len()
            invariant
                i <= self.promotions.len(),
                all == promotion_views(self.promotions@),
                pool == entries_of_refs(products@),
                ceiling == maximum_price as nat,
                promotion_views(possible@) == applicable(all.take(i as int), pool, ceiling),
            decreases self.promotions.len() - i,
        {
            let promotion = &self.promotions[i];
            proof {
                reveal(Seq::filter);
                assert(all[i as int] == promotion@);
                assert(all.take(i + 1).drop_last() =~= all.take(i as int));
            }
            let price: u64 = *promotion.get_price();
            if (price as u128) < maximum_price && promotion.is_contained_by(products) {
                let found = promotion.clone();
                assert(promotion_views(possible@.push(found)) =~= promotion_views(possible@).push(
                    found@,
                ));
                possible.push(found);
            }
            i = i + 1;
        }
        assert(all.take(i as int) =~= all);
        Ok(possible)
    }

    /// Empties the store.
    pub fn reset(&mut self) -> (r: Result<(), ErrorVariant>)
        ensures
            r is Ok,
            final(self)@.products.len() == 0,
            final(self)@.promotions.len() == 0,
    {
        *self = Database::new();
        Ok(())
    }

    /// Hands out both lists and leaves the store empty.
    fn take(&mut self) -> (r: (Vec<Product>, Vec<Promotion>))
        ensures
            product_views(r.0@) == old(self)@.products,
            promotion_views(r.1@) == old(self)@.promotions,
            final(self)@.products.len() == 0,
            final(self)@.promotions.len() == 0,
    {
        let mut taken = Database::new();
        std::mem::swap(self, &mut taken);
        let Database { products, promotions } = taken;
        (products, promotions)
    }
}

impl DatabaseAppend<Product> for Database {
    open spec fn appended(&self, entity: &Product, after: &Self) -> bool {
        after@ == self@.with_product(entity@)
    }

    fn append(&mut self, entity: Product) -> (r: Result<(), ErrorVariant>) {
        let ghost before = self@;
        proof {
            use_type_invariant(&*self);
            lemma_with_product(before, entity@);
        }
        let found = self.product_index(entity.get_code());
        let (mut products, promotions) = self.take();
        match found {
            Some(i) => {
                products[i] = entity;
            },
            None => {
                products.push(entity);
            },
        }
        assert(product_views(products@) =~= before.with_product(entity@).products);
        *self = Database { products, promotions };
        Ok(())
    }
}

impl DatabaseAppend<Promotion> for Database {
    open spec fn appended(&self, entity: &Promotion, after: &Self) -> bool {
        after@ == self@.with_promotion(entity@)
    }

    fn append(&mut self, entity: Promotion) -> (r: Result<(), ErrorVariant>) {
        let ghost before = self@;
        proof {
            use_type_invariant(&*self);
            lemma_with_promotion(before, entity@);
        }
        let found = self.promotion_index(entity.get_code());
        let (products, mut promotions) = self.take();
        match found {
            Some(i) => {
                promotions[i] = entity;
            },
            None => {
                promotions.push(entity);
            },
        }
        assert(promotion_views(promotions@) =~= before.with_promotion(entity@).promotions);
        *self = Database { products, promotions };
        Ok(())
    }
}

impl Clone for Database {
    fn clone(&self) -> (r: Self)
        ensures
            r@ == self@,
    {
        proof {
            use_type_invariant(self);
        }
        let products = self.products.clone();
        let promotions = self.promotions.clone();
        assert(product_views(products@) =~= product_views(self.products@));
        assert(promotion_views(promotions@) =~= promotion_views(self.promotions@));
        Database { products, promotions }
    }
}

} // verus!
