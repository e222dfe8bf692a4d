//! Products, their order by code, and the cart line that holds one.

use std::cmp::Ordering;
use vstd::prelude::*;
use vstd::std_specs::cmp::PartialEqSpecImpl;
use vstd::std_specs::cmp::PartialOrdSpecImpl;
use uuid::Uuid;
use crate::{ErrorVariant, WithNewPricing};
use crate::cart::item::{fresh_id, CartItem, CartItemVariant, LineView};
use crate::pool::{entries_of_refs, lemma_entries_of_refs_push};
use crate::product::extra::{Entry, ProductAmount};

pub mod extra;
pub mod fut;

verus! {

/// What a product is to the contracts: its code and its unit price in minor
/// currency units.
pub struct ProductView {
    pub code: Seq<char>,
    pub price: nat,
}

/// A catalog product. Its identity is the code alone: the unit price is
/// ordinary payload and takes no part in `==`.
#[derive(Debug)]
pub struct Product {
    code: String,
    price: u64,
}

impl View for Product {
    type V = ProductView;

    closed spec fn view(&self) -> ProductView {
        ProductView { code: self.code@, price: self.price as nat }
    }
}

impl Product {
    pub fn new(code: String, price: u64) -> (r: Self)
        ensures
            r@ == (ProductView { code: code@, price: price as nat }),
    {
        Product { code, price }
    }

    pub fn get_code(&self) -> (r: &String)
        ensures
            r@ == self@.code,
    {
        &self.code
    }

    pub fn get_price(&self) -> (r: &u64)
        ensures
            *r as nat == self@.price,
    {
        &self.price
    }

    /// A stored price is a 64-bit number.
    pub proof fn lemma_price_fits(self)
        ensures
            self@.price <= u64::MAX,
    {
    }

    /// This product in the given quantity.
    pub fn generate_amount(&self, amount: u64) -> (r: ProductAmount)
        ensures
            r@ == (Entry { code: self@.code, price: self@.price, amount: amount as nat }),
    {
        ProductAmount::new(self.clone(), amount)
    }
}

impl Clone for Product {
    fn clone(&self) -> (r: Self)
        ensures
            r@ == self@,
    {
        Product { code: self.code.clone(), price: self.price }
    }
}

impl WithNewPricing for Product {
    open spec fn repriced(&self, price: u64, priced: &Self) -> bool {
        priced@ == (ProductView { code: self@.code, price: price as nat })
    }

    fn with_new_pricing(&self, price: u64) -> (r: Result<Self, ErrorVariant>) {
        let code = self.get_code().clone();
        let product = Product::new(code, price);
        Ok(product)
    }
}

impl PartialEq for Product {
    fn eq(&self, other: &Product) -> (r: bool) {
        self.code == other.code
    }
}

impl Eq for Product {}

impl PartialEqSpecImpl for Product {
    open spec fn obeys_eq_spec() -> bool {
        true
    }

    open spec fn eq_spec(&self, other: &Product) -> bool {
        self@.code == other@.code
    }
}

/// Where a character stands among all characters.
pub open spec fn rank(c: char) -> int {
    c as int
}

/// How two codes stand to each other: character by character by rank, a
/// code before every longer code that begins with it.
pub open spec fn code_order(a: Seq<char>, b: Seq<char>) -> Ordering
    decreases a.len(),
{
    if a.len() == 0 {
        if b.len() == 0 {
            Ordering::Equal
        } else {
            Ordering::Less
        }
    } else if b.len() == 0 {
        Ordering::Greater
    } else if rank(a[0]) < rank(b[0]) {
        Ordering::Less
    } else if rank(a[0]) > rank(b[0]) {
        Ordering::Greater
    } else {
        code_order(a.drop_first(), b.drop_first())
    }
}

/// How two codes stand to each other, from `String`'s `cmp`, which orders
/// strings by their bytes and so by the ranks of their characters.
#[verifier::external_body]
pub(crate) fn compare_codes(a: &String, b: &String) -> (r: Ordering)
    ensures
        r == code_order(a@, b@),
{
    a.cmp(b)
}

impl PartialOrd for Product {
    fn partial_cmp(&self, other: &Product) -> (r: Option<Ordering>) {
        Some(compare_codes(&self.code, &other.code))
    }
}

impl PartialOrdSpecImpl for Product {
    open spec fn obeys_partial_cmp_spec() -> bool {
        true
    }

    /// Products are ordered by their codes alone.
    open spec fn partial_cmp_spec(&self, other: &Product) -> Option<Ordering> {
        Some(code_order(self@.code, other@.code))
    }
}

/// A cart line that holds a quantity of one product.
#[derive(Debug)]
pub struct CartItemProduct {
    id: Uuid,
    product_amount: ProductAmount,
}

impl CartItemProduct {
    pub fn new(product: Product, amount: u64) -> (r: Self)
        ensures
            r.line() == LineView::Product(
                Entry { code: product@.code, price: product@.price, amount: amount as nat },
            ),
    {
        let product_amount = ProductAmount::new(product, amount);
        let id = fresh_id();
        CartItemProduct { id, product_amount }
    }

    /// The line as the contracts see it: a product line of its quantity.
    pub closed spec fn as_line(&self) -> LineView {
        LineView::Product(self.product_amount@)
    }

    /// The identifier that the line was given when it was made.
    pub closed spec fn identifier(&self) -> Uuid {
        self.id
    }
}

impl CartItem for CartItemProduct {
    open spec fn line(&self) -> LineView {
        self.as_line()
    }

    open spec fn id(&self) -> Uuid {
        self.identifier()
    }

    fn get_id(&self) -> (r: &Uuid) {
        &self.id
    }

    fn get_products(&self) -> (r: Vec<&ProductAmount>) {
        let mut out: Vec<&ProductAmount> = Vec::new();
        proof {
            lemma_entries_of_refs_push(out@, &self.product_amount);
            assert(entries_of_refs(out@).push(self.product_amount@) =~= seq![
                self.product_amount@,
            ]);
        }
        out.push(&self.product_amount);
        out
    }

    fn get_amount(&self) -> (r: u64) {
        *self.product_amount.get_amount()
    }

    fn get_variant(&self) -> (r: CartItemVariant<'_>)
        ensures
            r == CartItemVariant::Product(self),
    {
        CartItemVariant::Product(self)
    }

    fn get_price(&self) -> (r: u64) {
        *self.product_amount.get_price()
    }
}

impl Clone for CartItemProduct {
    fn clone(&self) -> (r: Self)
        ensures
            r.line() == self.line(),
            r.id() == self.id(),
    {
        CartItemProduct { id: self.id, product_amount: self.product_amount.clone() }
    }
}

} // verus!
