//! The lines of a cart: product lines and promotion lines, and what both
//! can tell.

use vstd::prelude::*;
use uuid::Uuid;
use crate::pool::entries_of_refs;
use crate::product::CartItemProduct;
use crate::product::extra::{Entry, ProductAmount};
use crate::promotion::{CartItemPromotion, PromotionView};

verus! {

/// `uuid::Uuid`, the identifier of a cart line. The contracts carry such a
/// value along and never look inside.
#[verifier::external_type_specification]
#[verifier::external_body]
pub struct ExUuid(uuid::Uuid);

/// A new identifier for a cart line, from `Uuid::new_v4`, which draws it at
/// random: nothing is claimed of the value.
#[verifier::external_body]
pub(crate) fn fresh_id() -> Uuid {
    Uuid::new_v4()
}

/// What a cart line is to the contracts.
pub enum LineView {
    /// A quantity of one product.
    Product(Entry),
    /// A promotion and how many times it is applied.
    Promotion(PromotionView, nat),
}

impl LineView {
    /// The quantities that make up the line.
    pub open spec fn products(self) -> Seq<Entry> {
        match self {
            LineView::Product(e) => seq![e],
            LineView::Promotion(p, _) => p.products,
        }
    }

    /// How many times the line is charged.
    pub open spec fn amount(self) -> nat {
        match self {
            LineView::Product(e) => e.amount,
            LineView::Promotion(_, n) => n,
        }
    }

    /// What the line is charged each time: a product's unit price, a
    /// promotion's flat price.
    pub open spec fn price(self) -> nat {
        match self {
            LineView::Product(e) => e.price,
            LineView::Promotion(p, _) => p.price,
        }
    }

    /// What the line is charged in all.
    pub open spec fn total(self) -> nat {
        self.amount() * self.price()
    }
}

/// A cart line, borrowed as what it is.
pub enum CartItemVariant<'a> {
    Product(&'a CartItemProduct),
    Promotion(&'a CartItemPromotion),
}

impl<'a> CartItemVariant<'a> {
    /// The borrowed line as the contracts see it.
    pub open spec fn line(self) -> LineView {
        match self {
            CartItemVariant::Product(item) => item.as_line(),
            CartItemVariant::Promotion(item) => item.as_line(),
        }
    }

    /// The identifier of the borrowed line.
    pub open spec fn id(self) -> Uuid {
        match self {
            CartItemVariant::Product(item) => item.identifier(),
            CartItemVariant::Promotion(item) => item.identifier(),
        }
    }
}

/// What every line of a cart can tell.
pub trait CartItem {
    /// The line as the contracts see it.
    spec fn line(&self) -> LineView;

    /// The identifier that the line was given when it was made.
    spec fn id(&self) -> Uuid;

    fn get_id(&self) -> (r: &Uuid)
        ensures
            *r == self.id(),
    ;

    /// The quantities that make up the line.
    fn get_products(&self) -> (r: Vec<&ProductAmount>)
        ensures
            entries_of_refs(r@) == self.line().products(),
    ;

    /// How many times the line is charged.
    fn get_amount(&self) -> (r: u64)
        ensures
            r as nat == self.line().amount(),
    ;

    /// The line itself, borrowed as the kind of line that it is: what is
    /// handed out is the same line with the same identifier.
    fn get_variant(&self) -> (r: CartItemVariant<'_>)
        ensures
            r is Product <==> self.line() is Product,
            r.line() == self.line(),
            r.id() == self.id(),
    ;

    /// What the line is charged each time: for a product line the unit
    /// price of its one quantity, for a promotion line the flat price.
    fn get_price(&self) -> (r: u64)
        ensures
            r as nat == self.line().price(),
    ;

    fn is_product(&self) -> (r: bool)
        ensures
            r <==> self.line() is Product,
    {
        match self.get_variant() {
            CartItemVariant::Product(_) => true,
            _ => false,
        }
    }

    /// Repetitions times price. Two 64-bit factors always fit in 128 bits.
    fn get_total(&self) -> (r: u128)
        ensures
            r as nat == self.line().total(),
    {
        let amount: u64 = self.get_amount();
        let price: u64 = self.get_price();
        assert(amount as nat * price as nat <= u128::MAX) by (nonlinear_arith)
            requires
                amount <= u64::MAX,
                price <= u64::MAX,
        ;
        amount as u128 * price as u128
    }

    /// What the line is charged below its price for every repetition. A line
    /// is charged in full, so this is nothing: what a promotion saves shows
    /// where its line has taken the place of product lines.
    fn get_total_discount(&self) -> (r: u128)
        ensures
            r as int == self.line().price() * self.line().amount() - self.line().total(),
            r == 0,
    {
        let amount: u64 = self.get_amount();
        let price: u64 = self.get_price();
        assert(price as nat * amount as nat <= u128::MAX) by (nonlinear_arith)
            requires
                amount <= u64::MAX,
                price <= u64::MAX,
        ;
        assert(price as nat * amount as nat == amount as nat * price as nat) by (nonlinear_arith);
        price as u128 * amount as u128 - self.get_total()
    }
}

/// A line as a cart owns it: one of the two kinds of line.
#[derive(Debug)]
pub enum CartLine {
    Product(CartItemProduct),
    Promotion(CartItemPromotion),
}

impl CartItem for CartLine {
    open spec fn line(&self) -> LineView {
        match self {
            CartLine::Product(item) => item.line(),
            CartLine::Promotion(item) => item.line(),
        }
    }

    open spec fn id(&self) -> Uuid {
        match self {
            CartLine::Product(item) => item.id(),
            CartLine::Promotion(item) => item.id(),
        }
    }

    fn get_id(&self) -> (r: &Uuid) {
        match self {
            CartLine::Product(item) => item.get_id(),
            CartLine::Promotion(item) => item.get_id(),
        }
    }

    fn get_products(&self) -> (r: Vec<&ProductAmount>) {
        match self {
            CartLine::Product(item) => item.get_products(),
            CartLine::Promotion(item) => item.get_products(),
        }
    }

    fn get_amount(&self) -> (r: u64) {
        match self {
            CartLine::Product(item) => item.get_amount(),
            CartLine::Promotion(item) => item.get_amount(),
        }
    }

    fn get_variant(&self) -> (r: CartItemVariant<'_>)
        ensures
            match *self {
                CartLine::Product(item) => r == CartItemVariant::Product(&item),
                CartLine::Promotion(item) => r == CartItemVariant::Promotion(&item),
            },
    {
        match self {
            CartLine::Product(item) => {
                let r = item.get_variant();
                assert(self.id() == item.id());
                r
            },
            CartLine::Promotion(item) => {
                let r = item.get_variant();
                assert(self.id() == item.id());
                r
            },
        }
    }

    fn get_price(&self) -> (r: u64) {
        match self {
            CartLine::Product(item) => item.get_price(),
            CartLine::Promotion(item) => item.get_price(),
        }
    }
}

impl Clone for CartLine {
    fn clone(&self) -> (r: Self)
        ensures
            r.line() == self.line(),
            r.id() == self.id(),
    {
        match self {
            CartLine::Product(item) => CartLine::Product(item.clone()),
            CartLine::Promotion(item) => CartLine::Promotion(item.clone()),
        }
    }
}

} // verus!
