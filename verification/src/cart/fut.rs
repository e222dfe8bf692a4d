//! The way of a cart's lines into a pool of quantities and back.

use vstd::prelude::*;
use crate::ErrorVariant;
use crate::cart::{line_views, product_entries, product_lines, Cart};
use crate::cart::item::{CartItem, CartLine, LineView};
use crate::pool::{
    amount_of, distinct_codes, entries, entries_of_refs, grouped, lemma_entries_of_copy,
    lemma_entries_push, sums_fit,
};
use crate::product::CartItemProduct;
use crate::product::extra::{Entry, ProductAmount};
use crate::product::fut::ProductAmountGroupFuture;

verus! {

/// The lines of a cart on their way to one quantity per product code.
pub struct CartGroupFuture {
    queue: Vec<CartLine>,
    result: Vec<ProductAmount>,
}

impl View for CartGroupFuture {
    type V = Seq<Entry>;

    /// The quantities that will be grouped: those gathered already, then
    /// those of the product lines that still wait, the last line first.
    closed spec fn view(&self) -> Seq<Entry> {
        entries(self.result@) + product_entries(line_views(self.queue@)).reverse()
    }
}

impl CartGroupFuture {
    /// Takes the quantities of the cart's product lines, the last line first.
    pub fn new(cart: &Cart) -> (r: Self)
        ensures
            r@ == product_entries(cart@.lines).reverse(),
    {
        let result: Vec<ProductAmount> = Vec::new();
        let items = cart.get_items();
        let queue = items.clone();
        proof {
            assert(line_views(queue@) =~= line_views(items@));
            assert(entries(result@) + product_entries(line_views(queue@)).reverse()
                =~= product_entries(line_views(queue@)).reverse());
        }
        CartGroupFuture { queue, result }
    }

    /// Gathers the quantities of the lines that wait and groups all that was
    /// gathered. What was gathered stays, so a second call gives the same.
    pub fn poll(&mut self) -> (r: Result<Vec<ProductAmount>, ErrorVariant>)
        requires
            sums_fit(old(self)@),
        ensures
            final(self)@ == old(self)@,
            r is Ok,
            entries(r->Ok_0@) == grouped(old(self)@),
            distinct_codes(entries(r->Ok_0@)),
            forall|code: Seq<char>| #[trigger]
                amount_of(entries(r->Ok_0@), code) == amount_of(old(self)@, code),
    {
        let ghost all = self@;
        while self.queue.len() > 0
            invariant
                self@ == all,
            decreases self.queue.len(),
        {
            let ghost lines = line_views(self.queue@);
            let ghost gathered = entries(self.result@);
            let item = self.queue.pop().unwrap();
            proof {
                assert(line_views(self.queue@) =~= lines.drop_last());
                assert(lines.last() == item.line());
            }
            if item.is_product() {
                let parts = item.get_products();
                assert(parts@.len() == 1) by {
                    assert(item.line().products().len() == 1);
                }
                let part = parts[0].clone();
                proof {
                    assert(entries_of_refs(parts@)[0] == parts@[0]@);
                    lemma_entries_push(self.result@, part);
                    let rest = product_entries(lines.drop_last());
                    assert(rest.push(part@).reverse() =~= seq![part@] + rest.reverse());
                    assert(gathered.push(part@) + rest.reverse() =~= gathered + (seq![part@]
                        + rest.reverse()));
                }
                self.result.push(part);
            }
        }
        proof {
            assert(product_entries(line_views(self.queue@)) =~= Seq::<Entry>::empty());
            assert(Seq::<Entry>::empty().reverse() =~= Seq::<Entry>::empty());
            assert(entries(self.result@) + Seq::<Entry>::empty() =~= entries(self.result@));
        }
        let gathered = self.result.clone();
        proof {
            lemma_entries_of_copy(gathered@, self.result@);
        }
        ProductAmountGroupFuture::new(gathered).poll()
    }

    /// Runs the grouping to its end.
    pub fn wait(self) -> (r: Result<Vec<ProductAmount>, ErrorVariant>)
        requires
            sums_fit(self@),
        ensures
            r is Ok,
            entries(r->Ok_0@) == grouped(self@),
            distinct_codes(entries(r->Ok_0@)),
            forall|code: Seq<char>| #[trigger]
                amount_of(entries(r->Ok_0@), code) == amount_of(self@, code),
    {
        let mut pending = self;
        pending.poll()
    }
}

/// Quantities on their way back into a cart, one product line for each.
pub struct CartOptimizeFuture {
    result: Vec<CartLine>,
}

impl View for CartOptimizeFuture {
    type V = Seq<LineView>;

    closed spec fn view(&self) -> Seq<LineView> {
        line_views(self.result@)
    }
}

impl CartOptimizeFuture {
    /// One product line for each quantity, in their order.
    pub fn new(base: Vec<ProductAmount>) -> (r: Self)
        ensures
            r@ == product_lines(entries(base@)),
    {
        let mut result: Vec<CartLine> = Vec::new();
        let mut i: usize = 0;
        assert(line_views(result@) =~= product_lines(entries(base@).take(0)));
        while i < base.len()
            invariant
                i <= base.len(),
                line_views(result@) == product_lines(entries(base@).take(i as int)),
            decreases base.len() - i,
        {
            let p = &base[i];
            let item = CartLine::Product(
                CartItemProduct::new(p.get_product().clone(), *p.get_amount()),
            );
            proof {
                assert(entries(base@)[i as int] == p@);
                assert(line_views(result@.push(item)) =~= line_views(result@).push(item.line()));
                assert(product_lines(entries(base@).take(i as int)).push(LineView::Product(p@))
                    =~= product_lines(entries(base@).take(i + 1)));
            }
            result.push(item);
            i = i + 1;
        }
        assert(entries(base@).take(i as int) =~= entries(base@));
        CartOptimizeFuture { result }
    }

    /// The lines, ready at once.
    pub fn poll(&mut self) -> (r: Result<Vec<CartLine>, ErrorVariant>)
        ensures
            final(self)@ == old(self)@,
            r is Ok,
            line_views(r->Ok_0@) == old(self)@,
    {
        let lines = self.result.clone();
        assert(line_views(lines@) =~= line_views(self.result@));
        Ok(lines)
    }

    /// The lines.
    pub fn wait(self) -> (r: Result<Vec<CartLine>, ErrorVariant>)
        ensures
            r is Ok,
            line_views(r->Ok_0@) == self@,
    {
        let mut pending = self;
        pending.poll()
    }
}

} // verus!
