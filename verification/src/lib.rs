//! Pricing of a shopping cart against a catalog of products and bundle
//! promotions.
//!
//! Amounts are whole units and prices are whole minor currency units, both
//! 64-bit; what several lines cost together is a 128-bit number. The
//! functions that add amounts up or prices up ask that the sums fit, and
//! `ProductAmount::amounts_fit`, `ProductAmount::checked_total_price`,
//! `Cart::checked_total_price` and `Cart::can_optimize` tell at run time
//! whether they do.
//!
//! The contracts speak of plain mathematical values: a quantity is an
//! [`product::extra::Entry`], a pool of quantities a sequence of entries, and
//! every type has a view (`@`) made of such values. The modules [`pool`] and
//! [`promotion::rule`] hold what grouping, covering and consuming mean, and
//! the laws that hold of them.

use vstd::prelude::*;
use crate::cart::{lines_total, product_lines, promotion_lines, Cart, CartView};
use crate::cart::item::LineView;
use crate::database::{
    product_codes, promotion_codes, Database, DatabaseAppend, DatabaseView,
};
use crate::pool::{amount_of, entries, grouped, lemma_index_of, sums_fit, total_price};
use crate::product::{Product, ProductView};
use crate::product::extra::Entry;
use crate::promotion::{Promotion, PromotionView};

pub mod cart;
pub mod database;
pub mod pool;
pub mod prelude;
pub mod product;
pub mod promotion;

verus! {

/// Everything that can go wrong while pricing a cart.
#[derive(Debug, Clone, Copy, PartialEq, Eq, Structural)]
pub enum ErrorVariant {
    ArcUnlockError,
    ProductNotFound,
    PromotionNotFound,
    NotEnoughItems,
    JsonParseError,
}

/// Something that has a price and can be had again at another price.
pub trait WithNewPricing: Sized {
    /// `priced` is this entity at the new price.
    spec fn repriced(&self, price: u64, priced: &Self) -> bool;

    fn with_new_pricing(&self, price: u64) -> (r: Result<Self, ErrorVariant>)
        ensures
            r is Ok,
            self.repriced(price, &r->Ok_0),
    ;
}

/// Something that a terminal can read from, and write as, a line of JSON.
pub trait TerminalEntityInterface: Sized {
    fn get_syntax_example() -> &'static str;

    fn from_json(json: String) -> Result<Self, ErrorVariant>;

    fn to_json(&self) -> Result<String, ErrorVariant>;
}

/// The string that holds this one character, from `char::to_string`.
#[verifier::external_body]
fn char_to_string(c: char) -> (r: String)
    ensures
        r@ == seq![c],
{
    c.to_string()
}

/// The lines of a cart after the codes have been scanned, the last code
/// first, each as one unit of its product. Scanning stops at the first code
/// that the catalog does not know.
pub open spec fn scanned(catalog: DatabaseView, lines: Seq<LineView>, codes: Seq<char>) -> Seq<
    LineView,
>
    decreases codes.len(),
{
    if codes.len() == 0 {
        lines
    } else {
        match catalog.product(seq![codes.last()]) {
            Some(p) => scanned(
                catalog,
                lines.push(LineView::Product(Entry { code: p.code, price: p.price, amount: 1 })),
                codes.drop_last(),
            ),
            None => lines,
        }
    }
}

/// The catalog knows a product for every one of the codes.
pub open spec fn all_known(catalog: DatabaseView, codes: Seq<char>) -> bool {
    forall|i: int| 0 <= i < codes.len() ==> catalog.product(seq![#[trigger] codes[i]]) is Some
}

/// The catalog that a terminal starts with. Prices are in minor currency
/// units.
pub open spec fn initial_catalog() -> DatabaseView {
    DatabaseView {
        products: seq![
            ProductView { code: "A"@, price: 200 },
            ProductView { code: "B"@, price: 1200 },
            ProductView { code: "C"@, price: 125 },
            ProductView { code: "D"@, price: 15 },
        ],
        promotions: seq![
            PromotionView {
                code: "PA"@,
                products: seq![Entry { code: "A"@, price: 200, amount: 4 }],
                price: 700,
            },
            PromotionView {
                code: "PC"@,
                products: seq![Entry { code: "C"@, price: 125, amount: 6 }],
                price: 600,
            },
        ],
    }
}

/// A point of sale: a catalog and the cart that is being filled from it.
pub struct Terminal {
    cart: Cart,
}

impl View for Terminal {
    type V = CartView;

    /// The catalog and the lines of the cart.
    closed spec fn view(&self) -> CartView {
        self.cart@
    }
}

impl Terminal {
    /// A terminal with an empty catalog and an empty cart.
    pub fn new() -> (r: Result<Self, ErrorVariant>)
        ensures
            r is Ok,
            r->Ok_0@.lines.len() == 0,
            r->Ok_0@.catalog.products.len() == 0,
            r->Ok_0@.catalog.promotions.len() == 0,
    {
        let cart = Cart::new(Database::new());
        Ok(Terminal { cart })
    }

    /// Scans product codes of one character each, the last first, and puts
    /// one unit of each into the cart. An unknown code ends the scan with
    /// `ProductNotFound`; what was scanned before it stays in the cart.
    pub fn scan(&mut self, codes: String) -> (r: Result<(), ErrorVariant>)
        ensures
            final(self)@.catalog == old(self)@.catalog,
            final(self)@.lines == scanned(old(self)@.catalog, old(self)@.lines, codes@),
            r is Ok <==> all_known(old(self)@.catalog, codes@),
            r is Err ==> r == Err::<(), ErrorVariant>(ErrorVariant::ProductNotFound),
    {
        let ghost catalog = self@.catalog;
        let ghost start = self@.lines;
        let text = codes.as_str();
        let mut left: usize = text.unicode_len();
        assert(codes@.take(left as int) =~= codes@);
        while left > 0
            invariant
                left <= codes@.len(),
                text@ == codes@,
                catalog == old(self)@.catalog,
                start == old(self)@.lines,
                self@.catalog == catalog,
                scanned(catalog, start, codes@) == scanned(
                    catalog,
                    self@.lines,
                    codes@.take(left as int),
                ),
                forall|i: int|
                    left <= i < codes@.len() ==> catalog.product(seq![#[trigger] codes@[i]])
                        is Some,
            decreases left,
        {
            let ghost pending = codes@.take(left as int);
            left = left - 1;
            let c = text.get_char(left);
            proof {
                assert(pending.last() == c);
                assert(pending.drop_last() =~= codes@.take(left as int));
            }
            self.cart.push_product(&char_to_string(c), 1)?;
        }
        Ok(())
    }

    /// Empties the cart and fills the catalog anew with what a terminal
    /// starts with.
    pub fn init(&mut self) -> (r: Result<(), ErrorVariant>)
        ensures
            r is Ok,
            final(self)@ == (CartView { catalog: initial_catalog(), lines: Seq::empty() }),
    {
        self.cart.reset()?;
        let database = self.cart.database_mut();
        database.reset()?;
        proof {
            reveal_strlit("A");
            reveal_strlit("B");
            reveal_strlit("C");
            reveal_strlit("D");
            reveal_strlit("PA");
            reveal_strlit("PC");
            assert("A"@[0] == 'A' && "B"@[0] == 'B' && "C"@[0] == 'C' && "D"@[0] == 'D');
            assert("A"@ != "B"@ && "A"@ != "C"@ && "A"@ != "D"@);
            assert("B"@ != "C"@ && "B"@ != "D"@ && "C"@ != "D"@);
            assert("PA"@ != "PC"@) by {
                assert("PA"@[1] != "PC"@[1]);
            }
        }
        let ghost empty = database@;
        assert(empty.products =~= Seq::<ProductView>::empty());
        assert(empty.promotions =~= Seq::<PromotionView>::empty());
        database.append(Product::new("A".to_string(), 200))?;
        let ghost a = ProductView { code: "A"@, price: 200 };
        assert(database@.products =~= seq![a]) by {
            assert(product_codes(empty.products) =~= Seq::<Seq<char>>::empty());
        }
        let ghost one = database@;
        database.append(Product::new("B".to_string(), 1200))?;
        let ghost b = ProductView { code: "B"@, price: 1200 };
        assert(database@.products =~= seq![a, b]) by {
            assert(product_codes(one.products) =~= seq!["A"@]);
        }
        let ghost two = database@;
        database.append(Product::new("C".to_string(), 125))?;
        let ghost c = ProductView { code: "C"@, price: 125 };
        assert(database@.products =~= seq![a, b, c]) by {
            assert(product_codes(two.products) =~= seq!["A"@, "B"@]);
        }
        let ghost three = database@;
        database.append(Product::new("D".to_string(), 15))?;
        let ghost d = ProductView { code: "D"@, price: 15 };
        assert(database@.products =~= seq![a, b, c, d]) by {
            assert(product_codes(three.products) =~= seq!["A"@, "B"@, "C"@]);
        }
        let ghost four = database@;
        let ghost codes = product_codes(four.products);
        assert(codes =~= seq!["A"@, "B"@, "C"@, "D"@]);
        assert(four.promotions =~= Seq::<PromotionView>::empty());

        assert(four.product("A"@) == Some(a)) by {
            assert(codes[0] == "A"@);
            assert(codes.contains("A"@));
        }
        let four_a = database.code_to_product_amount("A".to_string(), 4)?;
        let products = vec![four_a];
        let ghost bundle_a = seq![Entry { code: "A"@, price: 200, amount: 4 }];
        proof {
            assert(entries(products@) =~= bundle_a);
            Self::lemma_single(bundle_a[0]);
        }
        let pa = Promotion::new("PA".to_string(), products, 700)?;
        database.append(pa)?;
        let ghost pa_view = PromotionView { code: "PA"@, products: bundle_a, price: 700 };
        assert(database@.promotions =~= seq![pa_view]) by {
            assert(promotion_codes(four.promotions) =~= Seq::<Seq<char>>::empty());
        }
        let ghost five = database@;
        assert(five.products == four.products);

        assert(five.product("C"@) == Some(c)) by {
            assert(codes[2] == "C"@);
            assert(codes.contains("C"@));
        }
        let six_c = database.code_to_product_amount("C".to_string(), 6)?;
        let products = vec![six_c];
        let ghost bundle_c = seq![Entry { code: "C"@, price: 125, amount: 6 }];
        proof {
            assert(entries(products@) =~= bundle_c);
            Self::lemma_single(bundle_c[0]);
        }
        let pc = Promotion::new("PC".to_string(), products, 600)?;
        database.append(pc)?;
        let ghost pc_view = PromotionView { code: "PC"@, products: bundle_c, price: 600 };
        assert(database@.promotions =~= seq![pa_view, pc_view]) by {
            assert(promotion_codes(five.promotions) =~= seq!["PA"@]);
        }
        assert(database@.products == four.products);
        Ok(())
    }

    /// One quantity alone can be grouped, and grouping leaves it as it is.
    proof fn lemma_single(e: Entry)
        requires
            e.amount <= u64::MAX,
        ensures
            sums_fit(seq![e]),
            grouped(seq![e]) == seq![e],
    {
        let s = seq![e];
        assert(s.drop_first() =~= Seq::<Entry>::empty());
        assert(grouped(s.drop_first()) =~= Seq::<Entry>::empty());
        lemma_index_of(Seq::<Entry>::empty(), e.code);
        assert(grouped(s) =~= s);
        assert forall|code: Seq<char>| #[trigger] amount_of(s, code) <= u64::MAX by {
            assert(amount_of(s.drop_first(), code) == 0);
        }
    }

    /// Puts the entity into the catalog at the new price, in the place of
    /// what the catalog held under its code.
    pub fn set_pricing<T: WithNewPricing>(&mut self, entity: T, price: u64) -> (r: Result<
        (),
        ErrorVariant,
    >) where Database: DatabaseAppend<T>
        ensures
            r is Ok,
            final(self)@.lines == old(self)@.lines,
            exists|priced: T, before: Database, after: Database|
                #![trigger before.appended(&priced, &after)]
                entity.repriced(price, &priced) && before@ == old(self)@.catalog && after@
                    == final(self)@.catalog && before.appended(&priced, &after),
    {
        let priced = entity.with_new_pricing(price)?;
        let ghost witness = priced;
        let database = self.cart.database_mut();
        let ghost before = *database;
        database.append(priced)?;
        assert(before.appended(&witness, database));
        Ok(())
    }

    /// Prices the cart anew and hands out a copy of it.
    pub fn get_cart(&mut self) -> (r: Result<Cart, ErrorVariant>)
        requires
            old(self)@.optimizable(),
        ensures
            r is Ok,
            r->Ok_0@ == final(self)@,
            final(self)@ == (CartView {
                catalog: old(self)@.catalog,
                lines: product_lines(old(self)@.optimum().products)
                    + promotion_lines(old(self)@.optimum().promotions),
            }),
            lines_total(final(self)@.lines) == old(self)@.optimum().price(),
            old(self)@.optimum().price() <= total_price(old(self)@.flat()),
    {
        let cart = self.cart.optimize_promotions()?;
        Ok(cart.clone())
    }

    /// Whether the cart can be priced anew within the machine's limits.
    pub fn can_optimize(&self) -> (r: bool)
        ensures
            r == self@.optimizable(),
    {
        self.cart.can_optimize()
    }

    /// Empties the cart.
    pub fn reset_cart(&mut self) -> (r: Result<(), ErrorVariant>)
        ensures
            r is Ok,
            final(self)@ == (CartView { catalog: old(self)@.catalog, lines: Seq::empty() }),
    {
        self.cart.reset()
    }

    /// The catalog.
    pub fn get_db(&self) -> (r: Result<&Database, ErrorVariant>)
        ensures
            r is Ok,
            r->Ok_0@ == self@.catalog,
    {
        Ok(self.cart.get_database())
    }
}

} // verus!
