//! The cart: an ordered collection of lines that is priced from its lines
//! and can be priced anew by the optimizer.

use vstd::prelude::*;
use crate::ErrorVariant;
use crate::cart::fut::CartGroupFuture;
use crate::cart::item::{CartItem, CartLine, LineView};
use crate::cart::optimizer::{accounts_for, search, settled, Optimizer};
use crate::cart::optimizer_candidate::{bundles_price, CandidateView};
use crate::database::{promotion_views, Database, DatabaseView};
use crate::pool::{
    amount_of, distinct_codes, entries, entries_of_refs, grouped, lemma_amount_of_reverse,
    lemma_entries_push, sums_fit, total_price,
};
use crate::product::CartItemProduct;
use crate::product::extra::{Entry, ProductAmount};
use crate::product::fut::ProductAmountGroupFuture;
use crate::promotion::{CartItemPromotion, Promotion, PromotionView};
use crate::promotion::rule::consumed;

pub mod fut;
pub mod item;
pub mod optimizer;
pub mod optimizer_candidate;

verus! {

/// The lines that a vector of them stands for, in order.
pub open spec fn line_views(v: Seq<CartLine>) -> Seq<LineView> {
    v.map_values(|l: CartLine| l.line())
}

/// The quantities of the product lines, in the order of the lines.
pub open spec fn product_entries(lines: Seq<LineView>) -> Seq<Entry>
    decreases lines.len(),
{
    if lines.len() == 0 {
        Seq::empty()
    } else {
        match lines.last() {
            LineView::Product(e) => product_entries(lines.drop_last()).push(e),
            LineView::Promotion(_, _) => product_entries(lines.drop_last()),
        }
    }
}

/// The lines that are no product lines, in their order.
pub open spec fn other_lines(lines: Seq<LineView>) -> Seq<LineView>
    decreases lines.len(),
{
    if lines.len() == 0 {
        Seq::empty()
    } else {
        match lines.last() {
            LineView::Product(_) => other_lines(lines.drop_last()),
            LineView::Promotion(_, _) => other_lines(lines.drop_last()).push(lines.last()),
        }
    }
}

/// One product line for each quantity.
pub open spec fn product_lines(products: Seq<Entry>) -> Seq<LineView> {
    products.map_values(|e: Entry| LineView::Product(e))
}

/// One line for each promotion, applied once.
pub open spec fn promotion_lines(promotions: Seq<PromotionView>) -> Seq<LineView> {
    promotions.map_values(|p: PromotionView| LineView::Promotion(p, 1))
}

/// What the lines are charged together.
pub open spec fn lines_total(lines: Seq<LineView>) -> nat
    decreases lines.len(),
{
    if lines.len() == 0 {
        0
    } else {
        lines_total(lines.drop_last()) + lines.last().total()
    }
}

/// What a cart is to the contracts: the catalog it looks codes up in, and
/// its lines in order.
pub struct CartView {
    pub catalog: DatabaseView,
    pub lines: Seq<LineView>,
}

impl CartView {
    /// The pool that the optimizer works on: the quantities of the product
    /// lines, one entry per code. A code keeps the price of its first line,
    /// and the codes stand in the order of their first lines.
    pub open spec fn flat(self) -> Seq<Entry> {
        grouped(product_entries(self.lines).reverse())
    }

    /// The best candidate that the search finds for the cart's pool.
    pub open spec fn optimum(self) -> CandidateView {
        search(
            self.catalog.promotions,
            CandidateView { promotions: Seq::empty(), products: self.flat() },
        )
    }

    /// The cart can be optimized within the machine's limits: the units of
    /// every code fit in 64 bits, and the price of the pool in 128.
    pub open spec fn optimizable(self) -> bool {
        &&& sums_fit(product_entries(self.lines))
        &&& total_price(self.flat()) <= u128::MAX
    }
}

/// An earlier part of the lines is charged no more than all of them.
pub proof fn lemma_lines_total_prefix(lines: Seq<LineView>, k: int)
    requires
        0 <= k <= lines.len(),
    ensures
        lines_total(lines.take(k)) <= lines_total(lines),
    decreases lines.len(),
{
    if k == lines.len() {
        assert(lines.take(k) =~= lines);
    } else {
        assert(lines.drop_last().take(k) =~= lines.take(k));
        lemma_lines_total_prefix(lines.drop_last(), k);
    }
}

/// Product lines are charged what their quantities cost, and all of their
/// quantities are product entries.
pub proof fn lemma_product_lines(products: Seq<Entry>)
    ensures
        lines_total(product_lines(products)) == total_price(products),
        product_entries(product_lines(products)) == products,
        other_lines(product_lines(products)) == Seq::<LineView>::empty(),
    decreases products.len(),
{
    let lines = product_lines(products);
    if products.len() > 0 {
        lemma_product_lines(products.drop_last());
        assert(lines.drop_last() =~= product_lines(products.drop_last()));
        assert(products.last().amount * products.last().price == products.last().price
            * products.last().amount) by (nonlinear_arith);
        assert(products.drop_last().push(products.last()) =~= products);
    } else {
        assert(product_entries(lines) =~= products);
    }
}

/// Lines behind others: the totals add up, the product entries follow one
/// another, and so do the other lines.
pub proof fn lemma_lines_add(a: Seq<LineView>, b: Seq<LineView>)
    ensures
        lines_total(a + b) == lines_total(a) + lines_total(b),
        product_entries(a + b) == product_entries(a) + product_entries(b),
        other_lines(a + b) == other_lines(a) + other_lines(b),
    decreases b.len(),
{
    if b.len() == 0 {
        assert(a + b =~= a);
        assert(product_entries(a) + product_entries(b) =~= product_entries(a));
        assert(other_lines(a) + other_lines(b) =~= other_lines(a));
    } else {
        lemma_lines_add(a, b.drop_last());
        assert((a + b).drop_last() =~= a + b.drop_last());
        assert((a + b).last() == b.last());
        match b.last() {
            LineView::Product(e) => {
                assert((product_entries(a) + product_entries(b.drop_last())).push(e)
                    =~= product_entries(a) + product_entries(b));
            },
            LineView::Promotion(_, _) => {
                assert((other_lines(a) + other_lines(b.drop_last())).push(b.last())
                    =~= other_lines(a) + other_lines(b));
            },
        }
    }
}

/// Promotion lines are charged the flat prices of their promotions, and
/// none of them is a product line.
pub proof fn lemma_promotion_lines(promotions: Seq<PromotionView>)
    ensures
        lines_total(promotion_lines(promotions)) == bundles_price(promotions),
        product_entries(promotion_lines(promotions)) == Seq::<Entry>::empty(),
        other_lines(promotion_lines(promotions)) == promotion_lines(promotions),
    decreases promotions.len(),
{
    let lines = promotion_lines(promotions);
    if promotions.len() > 0 {
        lemma_promotion_lines(promotions.drop_last());
        assert(lines.drop_last() =~= promotion_lines(promotions.drop_last()));
        assert(lines.drop_last().push(lines.last()) =~= lines);
        assert(lines.last() == LineView::Promotion(promotions.last(), 1));
        let times = lines.last().amount();
        let price = promotions.last().price;
        assert(times * price == price) by (nonlinear_arith)
            requires
                times == 1,
        ;
    } else {
        assert(other_lines(lines) =~= lines);
    }
}

/// An ordered collection of lines and the catalog that their codes are
/// looked up in. What the cart costs is always derived from its lines.
#[derive(Debug)]
pub struct Cart {
    database: Database,
    items: Vec<CartLine>,
}

impl View for Cart {
    type V = CartView;

    closed spec fn view(&self) -> CartView {
        CartView { catalog: self.database@, lines: line_views(self.items@) }
    }
}

impl Cart {
    /// An empty cart over the catalog.
    pub fn new(database: Database) -> (r: Self)
        ensures
            r@ == (CartView { catalog: database@, lines: Seq::empty() }),
    {
        let items: Vec<CartLine> = Vec::new();
        assert(line_views(items@) =~= Seq::<LineView>::empty());
        Cart { database, items }
    }

    pub fn get_items(&self) -> (r: &Vec<CartLine>)
        ensures
            line_views(r@) == self@.lines,
    {
        &self.items
    }

    /// The catalog of this cart.
    pub fn get_database(&self) -> (r: &Database)
        ensures
            r@ == self@.catalog,
    {
        &self.database
    }

    /// The catalog of this cart, to be changed in place; the lines stay.
    pub fn database_mut(&mut self) -> (r: &mut Database)
        ensures
            r@ == old(self)@.catalog,
            final(self)@ == (CartView { catalog: final(r)@, lines: old(self)@.lines }),
    {
        &mut self.database
    }

    /// What the lines are charged together, where that fits in 128 bits.
    pub fn checked_total_price(&self) -> (r: Option<u128>)
        ensures
            match r {
                Some(sum) => sum as nat == lines_total(self@.lines),
                None => lines_total(self@.lines) > u128::MAX,
            },
    {
        let ghost lines = self@.lines;
        let mut sum: u128 = 0;
        let mut i: usize = 0;
        assert(lines.take(0) =~= Seq::<LineView>::empty());
        while i < self.items.len()
            invariant
                i <= self.items.len(),
                lines == line_views(self.items@),
                sum as nat == lines_total(lines.take(i as int)),
            decreases self.items.len() - i,
        {
            proof {
                assert(lines.take(i + 1).drop_last() =~= lines.take(i as int));
                assert(lines.take(i + 1).last() == self.items[i as int].line());
                lemma_lines_total_prefix(lines, i + 1);
            }
            match sum.checked_add(self.items[i].get_total()) {
                Some(next) => {
                    sum = next;
                },
                None => {
                    return None;
                },
            }
            i = i + 1;
        }
        assert(lines.take(i as int) =~= lines);
        Some(sum)
    }

    /// What the lines are charged together.
    pub fn get_total_price(&self) -> (r: u128)
        requires
            lines_total(self@.lines) <= u128::MAX,
        ensures
            r as nat == lines_total(self@.lines),
    {
        self.checked_total_price().unwrap()
    }

    /// The quantities of the product lines, in the order of the lines.
    pub fn get_products(&self) -> (r: Vec<ProductAmount>)
        ensures
            entries(r@) == product_entries(self@.lines),
    {
        let ghost lines = self@.lines;
        let mut products: Vec<ProductAmount> = Vec::new();
        let mut i: usize = 0;
        assert(lines.take(0) =~= Seq::<LineView>::empty());
        assert(entries(products@) =~= Seq::<Entry>::empty());
        while i < self.items.len()
            invariant
                i <= self.items.len(),
                lines == line_views(self.items@),
                entries(products@) == product_entries(lines.take(i as int)),
            decreases self.items.len() - i,
        {
            proof {
                assert(lines.take(i + 1).drop_last() =~= lines.take(i as int));
                assert(lines.take(i + 1).last() == self.items[i as int].line());
            }
            let item = &self.items[i];
            if item.is_product() {
                let parts = item.get_products();
                assert(parts@.len() == 1) by {
                    assert(item.line().products().len() == 1);
                }
                let part = parts[0].clone();
                proof {
                    assert(entries_of_refs(parts@)[0] == parts@[0]@);
                    lemma_entries_push(products@, part);
                }
                products.push(part);
            }
            i = i + 1;
        }
        assert(lines.take(i as int) =~= lines);
        products
    }

    /// Takes the product lines out; the other lines keep their order.
    pub fn remove_all_products(&mut self)
        ensures
            final(self)@ == (CartView {
                catalog: old(self)@.catalog,
                lines: other_lines(old(self)@.lines),
            }),
    {
        let ghost lines = self@.lines;
        let mut items: Vec<CartLine> = Vec::new();
        let mut i: usize = 0;
        assert(lines.take(0) =~= Seq::<LineView>::empty());
        assert(line_views(items@) =~= Seq::<LineView>::empty());
        while i < self.items.len()
            invariant
                i <= self.items.len(),
                lines == line_views(self.items@),
                line_views(items@) == other_lines(lines.take(i as int)),
            decreases self.items.len() - i,
        {
            proof {
                assert(lines.take(i + 1).drop_last() =~= lines.take(i as int));
                assert(lines.take(i + 1).last() == self.items[i as int].line());
            }
            let item = &self.items[i];
            if !item.is_product() {
                let kept = item.clone();
                assert(line_views(items@.push(kept)) =~= line_views(items@).push(kept.line()));
                items.push(kept);
            }
            i = i + 1;
        }
        assert(lines.take(i as int) =~= lines);
        self.items = items;
    }

    /// Puts a line for the product with this code behind the others.
    pub fn push_product(&mut self, code: &String, amount: u64) -> (r: Result<(), ErrorVariant>)
        ensures
            final(self)@.catalog == old(self)@.catalog,
            match r {
                Ok(()) => old(self)@.catalog.product(code@) matches Some(p) && final(self)@.lines
                    == old(self)@.lines.push(
                    LineView::Product(
                        Entry { code: p.code, price: p.price, amount: amount as nat },
                    ),
                ),
                Err(e) => e == ErrorVariant::ProductNotFound && old(self)@.catalog.product(code@)
                    is None && final(self)@.lines == old(self)@.lines,
            },
    {
        match self.database.fetch_product(code) {
            Ok(product) => {
                let item = CartLine::Product(CartItemProduct::new(product, amount));
                assert(line_views(self.items@.push(item)) =~= line_views(self.items@).push(
                    item.line(),
                ));
                self.items.push(item);
                Ok(())
            },
            Err(e) => Err(e),
        }
    }

    /// Puts a line for this quantity behind the others.
    pub fn push_product_amount(&mut self, product_amount: ProductAmount)
        ensures
            final(self)@ == (CartView {
                catalog: old(self)@.catalog,
                lines: old(self)@.lines.push(LineView::Product(product_amount@)),
            }),
    {
        let product = product_amount.get_product().clone();
        let amount: u64 = *product_amount.get_amount();
        let item = CartLine::Product(CartItemProduct::new(product, amount));
        assert(line_views(self.items@.push(item)) =~= line_views(self.items@).push(item.line()));
        self.items.push(item);
    }

    /// Puts a line for the promotion with this code behind the others.
    pub fn push_promotion(&mut self, code: &String, amount: u64) -> (r: Result<(), ErrorVariant>)
        ensures
            final(self)@.catalog == old(self)@.catalog,
            match r {
                Ok(()) => old(self)@.catalog.promotion(code@) matches Some(p)
                    && final(self)@.lines == old(self)@.lines.push(
                    LineView::Promotion(p, amount as nat),
                ),
                Err(e) => e == ErrorVariant::PromotionNotFound && old(self)@.catalog.promotion(
                    code@,
                ) is None && final(self)@.lines == old(self)@.lines,
            },
    {
        match self.database.fetch_promotion(code) {
            Ok(promotion) => {
                let item = CartLine::Promotion(CartItemPromotion::new(promotion, amount));
                assert(line_views(self.items@.push(item)) =~= line_views(self.items@).push(
                    item.line(),
                ));
                self.items.push(item);
                Ok(())
            },
            Err(e) => Err(e),
        }
    }

    /// Applies the promotion with this code to the product lines: they are
    /// grouped, the promotion's requirements are taken out of them, and what
    /// is left comes back as product lines behind the other lines. Where the
    /// promotion is unknown or its requirements cannot be taken, the cart
    /// stays as it is.
    pub fn consume_available_products_for_promotion(&mut self, promotion_code: &String) -> (r:
        Result<(), ErrorVariant>)
        requires
            sums_fit(product_entries(old(self)@.lines)),
        ensures
            final(self)@.catalog == old(self)@.catalog,
            match old(self)@.catalog.promotion(promotion_code@) {
                Some(p) => match consumed(p.products, grouped(product_entries(old(self)@.lines))) {
                    Ok(rest) => r is Ok && final(self)@.lines == other_lines(old(self)@.lines)
                        + product_lines(rest),
                    Err(e) => r == Err::<(), ErrorVariant>(e) && final(self)@.lines
                        == old(self)@.lines,
                },
                None => r == Err::<(), ErrorVariant>(ErrorVariant::PromotionNotFound)
                    && final(self)@.lines == old(self)@.lines,
            },
    {
        let promotion = self.database.fetch_promotion(promotion_code)?;
        let products = self.get_products();
        let products = ProductAmountGroupFuture::new(products).wait()?;
        let products = promotion.consume_items(products)?;
        self.remove_all_products();
        self.push_all(&products);
        Ok(())
    }

    /// The product lines on their way to one quantity per product code.
    pub fn get_flat_quantities_future(&self) -> (r: CartGroupFuture)
        ensures
            r@ == product_entries(self@.lines).reverse(),
    {
        CartGroupFuture::new(self)
    }

    /// The pool that the optimizer works on: the quantities of the product
    /// lines, one per product code.
    pub fn flatten(&self) -> (r: Vec<ProductAmount>)
        requires
            sums_fit(product_entries(self@.lines)),
        ensures
            entries(r@) == self@.flat(),
            distinct_codes(entries(r@)),
            forall|code: Seq<char>| #[trigger]
                amount_of(entries(r@), code) == amount_of(product_entries(self@.lines), code),
    {
        proof {
            assert forall|code: Seq<char>|
                amount_of(product_entries(self@.lines), code) == #[trigger] amount_of(
                    product_entries(self@.lines).reverse(),
                    code,
                ) by {
                lemma_amount_of_reverse(product_entries(self@.lines), code);
            }
        }
        self.get_flat_quantities_future().wait().unwrap()
    }

    /// Puts a product line for each quantity behind the others.
    fn push_all(&mut self, products: &Vec<ProductAmount>)
        ensures
            final(self)@ == (CartView {
                catalog: old(self)@.catalog,
                lines: old(self)@.lines + product_lines(entries(products@)),
            }),
    {
        let ghost start = self@.lines;
        let ghost all = entries(products@);
        let mut i: usize = 0;
        assert(start + product_lines(all.take(0)) =~= start);
        while i < products.len()
            invariant
                i <= products.len(),
                all == entries(products@),
                self@.catalog == old(self)@.catalog,
                self@.lines == start + product_lines(all.take(i as int)),
            decreases products.len() - i,
        {
            let p = products[i].clone();
            proof {
                assert(all[i as int] == p@);
                assert((start + product_lines(all.take(i as int))).push(LineView::Product(p@))
                    =~= start + product_lines(all.take(i + 1)));
            }
            self.push_product_amount(p);
            i = i + 1;
        }
        assert(all.take(i as int) =~= all);
    }

    /// Puts in the place of all lines one product line for each quantity
    /// left and one promotion line, applied once, for each promotion chosen.
    pub fn apply_optimizer_result(
        &mut self,
        products: Vec<ProductAmount>,
        promotions: Vec<Promotion>,
    )
        ensures
            final(self)@ == (CartView {
                catalog: old(self)@.catalog,
                lines: product_lines(entries(products@)) + promotion_lines(
                    promotion_views(promotions@),
                ),
            }),
    {
        let ghost chosen = promotion_views(promotions@);
        self.items = Vec::new();
        assert(line_views(self.items@) =~= Seq::<LineView>::empty());
        self.push_all(&products);
        let ghost start = self@.lines;
        assert(start =~= product_lines(entries(products@)));
        let mut i: usize = 0;
        assert(start + promotion_lines(chosen.take(0)) =~= start);
        while i < promotions.len()
            invariant
                i <= promotions.len(),
                chosen == promotion_views(promotions@),
                self@.catalog == old(self)@.catalog,
                self@.lines == start + promotion_lines(chosen.take(i as int)),
            decreases promotions.len() - i,
        {
            let item = CartLine::Promotion(CartItemPromotion::new(promotions[i].clone(), 1));
            proof {
                assert(chosen[i as int] == promotions[i as int]@);
                assert(line_views(self.items@.push(item)) =~= line_views(self.items@).push(
                    item.line(),
                ));
                assert((start + promotion_lines(chosen.take(i as int))).push(item.line()) =~= start
                    + promotion_lines(chosen.take(i + 1)));
            }
            self.items.push(item);
            i = i + 1;
        }
        assert(chosen.take(i as int) =~= chosen);
    }

    /// Whether the cart can be optimized within the machine's limits.
    pub fn can_optimize(&self) -> (r: bool)
        ensures
            r == self@.optimizable(),
    {
        let products = self.get_products();
        if !ProductAmount::amounts_fit(&products) {
            return false;
        }
        let flat = self.flatten();
        ProductAmount::checked_total_price(&flat).is_some()
    }

    /// Prices the cart anew: the product lines are flattened into a pool,
    /// the search looks for promotions that make it cheaper, and what it
    /// finds takes the place of all lines. The cart then costs what the
    /// search result costs, which no promotion of the catalog lowers.
    pub fn optimize_promotions(&mut self) -> (r: Result<&Cart, ErrorVariant>)
        requires
            old(self)@.optimizable(),
        ensures
            r is Ok,
            *r->Ok_0 == *final(self),
            final(self)@ == (CartView {
                catalog: old(self)@.catalog,
                lines: product_lines(old(self)@.optimum().products) + promotion_lines(
                    old(self)@.optimum().promotions,
                ),
            }),
            lines_total(final(self)@.lines) == old(self)@.optimum().price(),
            old(self)@.optimum().price() <= total_price(old(self)@.flat()),
            accounts_for(old(self)@.optimum(), old(self)@.flat()),
            settled(old(self)@.catalog.promotions, old(self)@.optimum()),
    {
        let products = self.flatten();
        let mut optimizer = Optimizer::new(products, self.database.clone());
        let (products, promotions) = optimizer.get_optimal_products_promotions()?;
        proof {
            lemma_lines_add(
                product_lines(entries(products@)),
                promotion_lines(promotion_views(promotions@)),
            );
            lemma_product_lines(entries(products@));
            lemma_promotion_lines(promotion_views(promotions@));
        }
        self.apply_optimizer_result(products, promotions);
        Ok(self)
    }

    /// Empties the cart.
    pub fn reset(&mut self) -> (r: Result<(), ErrorVariant>)
        ensures
            r is Ok,
            final(self)@ == (CartView { catalog: old(self)@.catalog, lines: Seq::empty() }),
    {
        self.items = Vec::new();
        assert(line_views(self.items@) =~= Seq::<LineView>::empty());
        Ok(())
    }
}

impl Clone for Cart {
    fn clone(&self) -> (r: Self)
        ensures
            r@ == self@,
    {
        let items = self.items.clone();
        assert(line_views(items@) =~= line_views(self.items@));
        Cart { database: self.database.clone(), items }
    }
}

} // verus!
