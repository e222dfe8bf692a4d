//! Quantities of products, and what a vector of them adds up to.

use std::cmp::Ordering;
use vstd::prelude::*;
use vstd::std_specs::cmp::PartialEqSpecImpl;
use vstd::std_specs::cmp::PartialOrdSpecImpl;
use crate::ErrorVariant;
use crate::pool::{
    amount_of, distinct_codes, entries, entries_of_refs, has_code, index_of,
    lemma_amount_of_distinct, lemma_entries_of_refs_push, lemma_index_of, lemma_index_of_is,
    lemma_sums_fit, lemma_total_price_prefix, sums_fit, total_price,
};
use crate::product::{code_order, Product, ProductView};

verus! {

/// What a quantity of a product is to the contracts: the product's code, the
/// unit price that this entry captured, and how many units it stands for.
pub struct Entry {
    pub code: Seq<char>,
    pub price: nat,
    pub amount: nat,
}

/// A product together with a quantity of it.
#[derive(Debug)]
pub struct ProductAmount {
    product: Product,
    amount: u64,
}

impl View for ProductAmount {
    type V = Entry;

    closed spec fn view(&self) -> Entry {
        Entry { code: self.product@.code, price: self.product@.price, amount: self.amount as nat }
    }
}

impl ProductAmount {
    pub fn new(product: Product, amount: u64) -> (r: Self)
        ensures
            r@ == (Entry { code: product@.code, price: product@.price, amount: amount as nat }),
    {
        ProductAmount { product, amount }
    }

    pub fn get_product(&self) -> (r: &Product)
        ensures
            r@ == (ProductView { code: self@.code, price: self@.price }),
    {
        &self.product
    }

    pub fn get_code(&self) -> (r: &String)
        ensures
            r@ == self@.code,
    {
        self.product.get_code()
    }

    pub fn get_amount(&self) -> (r: &u64)
        ensures
            *r as nat == self@.amount,
    {
        &self.amount
    }

    pub fn inc_amount(&mut self, amount: u64)
        requires
            old(self)@.amount + amount <= u64::MAX,
        ensures
            final(self)@ == (Entry { amount: old(self)@.amount + amount as nat, ..old(self)@ }),
    {
        self.amount = self.amount + amount;
    }

    pub fn dec_amount(&mut self, amount: u64) -> (r: Result<(), ErrorVariant>)
        ensures
            amount as nat > old(self)@.amount ==> r == Err::<(), ErrorVariant>(
                ErrorVariant::NotEnoughItems,
            ) && final(self)@ == old(self)@,
            amount as nat <= old(self)@.amount ==> r is Ok && final(self)@ == (Entry {
                amount: (old(self)@.amount - amount) as nat,
                ..old(self)@
            }),
    {
        if amount > self.amount {
            Err(ErrorVariant::NotEnoughItems)
        } else {
            self.amount = self.amount - amount;
            Ok(())
        }
    }

    pub fn get_price(&self) -> (r: &u64)
        ensures
            *r as nat == self@.price,
    {
        self.product.get_price()
    }

    /// Unit price times quantity. Two 64-bit factors always fit in 128 bits.
    pub fn get_total_price(&self) -> (r: u128)
        ensures
            r as nat == self@.price * self@.amount,
    {
        let price: u64 = *self.get_price();
        assert(price as nat * self.amount as nat <= u128::MAX) by (nonlinear_arith)
            requires
                price <= u64::MAX,
                self.amount <= u64::MAX,
        ;
        price as u128 * self.amount as u128
    }

    /// The position of the first quantity with this code.
    pub fn get_index_of_product(products: &Vec<ProductAmount>, code: &String) -> (r: Result<
        usize,
        ErrorVariant,
    >)
        ensures
            r is Ok <==> has_code(entries(products@), code@),
            match r {
                Ok(i) => i < products.len() && i == index_of(entries(products@), code@),
                Err(e) => e == ErrorVariant::ProductNotFound,
            },
    {
        let mut pos: usize = 0;
        while pos < products.len()
            invariant
                pos <= products.len(),
                forall|j: int| 0 <= j < pos ==> (#[trigger] entries(products@)[j]).code != code@,
            decreases products.len() - pos,
        {
            assert(entries(products@)[pos as int] == products@[pos as int]@);
            if *products[pos].get_code() == *code {
                proof {
                    lemma_index_of_is(entries(products@), code@, pos as int);
                    lemma_index_of(entries(products@), code@);
                }
                return Ok(pos);
            }
            pos = pos + 1;
        }
        proof {
            lemma_index_of(entries(products@), code@);
        }
        Err(ErrorVariant::ProductNotFound)
    }

    /// What the quantities cost together.
    pub fn sum_total_price(products: &Vec<ProductAmount>) -> (r: u128)
        requires
            total_price(entries(products@)) <= u128::MAX,
        ensures
            r as nat == total_price(entries(products@)),
    {
        Self::checked_total_price(products).unwrap()
    }

    /// What the quantities cost together, where that fits in 128 bits.
    pub fn checked_total_price(products: &Vec<ProductAmount>) -> (r: Option<u128>)
        ensures
            match r {
                Some(sum) => sum as nat == total_price(entries(products@)),
                None => total_price(entries(products@)) > u128::MAX,
            },
    {
        let ghost all = entries(products@);
        let mut sum: u128 = 0;
        let mut i: usize = 0;
        assert(all.take(0) =~= Seq::<Entry>::empty());
        while i < products.len()
            invariant
                i <= products.len(),
                all == entries(products@),
                sum as nat == total_price(all.take(i as int)),
            decreases products.len() - i,
        {
            proof {
                assert(all.take(i + 1).drop_last() =~= all.take(i as int));
                assert(all.take(i + 1).last() == products[i as int]@);
                lemma_total_price_prefix(all, i + 1);
            }
            match sum.checked_add(products[i].get_total_price()) {
                Some(next) => {
                    sum = next;
                },
                None => {
                    return None;
                },
            }
            i = i + 1;
        }
        assert(all.take(i as int) =~= all);
        Some(sum)
    }

    /// Whether, for every code, the units that the quantities hold of it
    /// together fit in 64 bits: what grouping them asks for.
    pub fn amounts_fit(products: &Vec<ProductAmount>) -> (r: bool)
        ensures
            r == sums_fit(entries(products@)),
    {
        let ghost all = entries(products@);
        let n = products.len();
        let mut i: usize = 0;
        while i < n
            invariant
                i <= n,
                n == products.len(),
                all == entries(products@),
                forall|k: int| 0 <= k < i ==> amount_of(all, (#[trigger] all[k]).code) <= u64::MAX,
            decreases n - i,
        {
            let code = products[i].get_code();
            assert(all[i as int] == products[i as int]@);
            let mut sum: u128 = 0;
            let mut j: usize = n;
            assert(all.subrange(n as int, n as int) =~= Seq::<Entry>::empty());
            while j > 0
                invariant
                    j <= n,
                    n == products.len(),
                    all == entries(products@),
                    sum as nat == amount_of(all.subrange(j as int, n as int), code@),
                    sum <= (n - j) * u64::MAX,
                decreases j,
            {
                j = j - 1;
                proof {
                    assert(all.subrange(j as int, n as int).drop_first() =~= all.subrange(
                        j + 1,
                        n as int,
                    ));
                    assert(all.subrange(j as int, n as int)[0] == products[j as int]@);
                    assert((n - j) * u64::MAX <= u128::MAX) by (nonlinear_arith)
                        requires
                            0 <= n - j <= u64::MAX,
                    ;
                    assert((n - j) * u64::MAX == (n - (j + 1)) * u64::MAX + u64::MAX)
                        by (nonlinear_arith);
                }
                if *products[j].get_code() == *code {
                    let amount: u64 = *products[j].get_amount();
                    sum = sum + amount as u128;
                }
            }
            assert(all.subrange(0, n as int) =~= all);
            if sum > u64::MAX as u128 {
                return false;
            }
            i = i + 1;
        }
        proof {
            lemma_sums_fit(all);
        }
        true
    }

    /// The quantities, borrowed one by one.
    pub fn borrow_all(products: &Vec<ProductAmount>) -> (r: Vec<&ProductAmount>)
        ensures
            entries_of_refs(r@) == entries(products@),
    {
        let mut out: Vec<&ProductAmount> = Vec::new();
        let mut i: usize = 0;
        assert(entries_of_refs(out@) =~= entries(products@).take(0));
        while i < products.len()
            invariant
                i <= products.len(),
                entries_of_refs(out@) == entries(products@).take(i as int),
            decreases products.len() - i,
        {
            proof {
                lemma_entries_of_refs_push(out@, &products[i as int]);
                assert(entries(products@).take(i as int).push(products[i as int]@) =~= entries(
                    products@,
                ).take(i + 1));
            }
            out.push(&products[i]);
            i = i + 1;
        }
        assert(entries(products@).take(i as int) =~= entries(products@));
        out
    }

    /// A stored amount and a stored price are 64-bit numbers.
    pub proof fn lemma_fits(self)
        ensures
            self@.amount <= u64::MAX,
            self@.price <= u64::MAX,
    {
        self.product.lemma_price_fits();
    }

    /// Quantities with one entry per code can be grouped: no sum is larger
    /// than the one amount that makes it up.
    pub proof fn lemma_distinct_sums_fit(products: Seq<ProductAmount>)
        requires
            distinct_codes(entries(products)),
        ensures
            sums_fit(entries(products)),
    {
        let all = entries(products);
        assert forall|k: int| 0 <= k < all.len() implies amount_of(all, (#[trigger] all[k]).code)
            <= u64::MAX by {
            lemma_amount_of_distinct(all, k);
            products[k].lemma_fits();
        }
        lemma_sums_fit(all);
    }
}

impl Clone for ProductAmount {
    fn clone(&self) -> (r: Self)
        ensures
            r@ == self@,
    {
        ProductAmount { product: self.product.clone(), amount: self.amount }
    }
}

impl PartialEq for ProductAmount {
    fn eq(&self, other: &ProductAmount) -> (r: bool) {
        self.product == other.product
    }
}

impl Eq for ProductAmount {}

impl PartialEqSpecImpl for ProductAmount {
    open spec fn obeys_eq_spec() -> bool {
        true
    }

    open spec fn eq_spec(&self, other: &ProductAmount) -> bool {
        self@.code == other@.code
    }
}

impl PartialOrd for ProductAmount {
    fn partial_cmp(&self, other: &ProductAmount) -> (r: Option<Ordering>) {
        match self.product.partial_cmp(&other.product) {
            Some(Ordering::Equal) => if self.amount < other.amount {
                Some(Ordering::Less)
            } else if self.amount > other.amount {
                Some(Ordering::Greater)
            } else {
                Some(Ordering::Equal)
            },
            ordered => ordered,
        }
    }
}

impl PartialOrdSpecImpl for ProductAmount {
    open spec fn obeys_partial_cmp_spec() -> bool {
        true
    }

    /// Quantities are ordered by their codes, and those of one code by
    /// their amounts.
    open spec fn partial_cmp_spec(&self, other: &ProductAmount) -> Option<Ordering> {
        match code_order(self@.code, other@.code) {
            Ordering::Equal => if self@.amount < other@.amount {
                Some(Ordering::Less)
            } else if self@.amount > other@.amount {
                Some(Ordering::Greater)
            } else {
                Some(Ordering::Equal)
            },
            ordered => Some(ordered),
        }
    }
}

} // verus!
