use store_terminal::prelude::{Product, ProductAmount, ProductAmountGroupFuture};

fn quantity(code: &str, price: u64, amount: u64) -> ProductAmount {
    ProductAmount::new(Product::new(code.to_string(), price), amount)
}

fn summary(pool: &Vec<ProductAmount>) -> Vec<(String, u64, u64)> {
    pool.iter().map(|p| (p.get_code().clone(), *p.get_price(), *p.get_amount())).collect()
}

#[test]
fn products_are_equal_by_code_alone() {
    let p1 = Product::new("Foo".to_string(), 1500);
    let p2 = Product::new("Bar".to_string(), 2000);
    let p3 = Product::new("Foo".to_string(), 1500);
    let p4 = Product::new("Foo".to_string(), 99);
    assert!(p1 != p2);
    assert!(p1 == p3);
    assert!(p1 == p4);
}

#[test]
fn quantities_are_equal_by_code_alone() {
    assert!(quantity("Foo", 100, 1) == quantity("Foo", 250, 9));
    assert!(quantity("Foo", 100, 1) != quantity("Bar", 100, 1));
}

#[test]
fn grouping_sums_the_amounts_of_each_code() {
    let v = vec![
        quantity("Foo", 100, 15),
        quantity("Bar", 100, 35),
        quantity("Foo", 100, 4),
        quantity("Foo", 100, 12),
    ];
    let v_min = vec![quantity("Foo", 100, 31), quantity("Bar", 100, 35)];
    let result = ProductAmountGroupFuture::new(v).wait().unwrap();
    assert_eq!(result, v_min);
    assert_eq!(
        summary(&result),
        vec![("Foo".to_string(), 100, 31), ("Bar".to_string(), 100, 35)]
    );
}

#[test]
fn grouping_nothing_gives_nothing() {
    let result = ProductAmountGroupFuture::new(vec![]).wait().unwrap();
    assert!(result.is_empty());
}

#[test]
fn grouping_keeps_the_price_of_the_last_entry() {
    let v = vec![quantity("A", 100, 1), quantity("A", 200, 2), quantity("A", 300, 3)];
    let result = ProductAmountGroupFuture::new(v).wait().unwrap();
    assert_eq!(summary(&result), vec![("A".to_string(), 300, 6)]);
}

#[test]
fn grouping_orders_codes_by_their_last_entry() {
    let v =
        vec![quantity("A", 1, 1), quantity("B", 1, 1), quantity("C", 1, 1), quantity("A", 1, 1)];
    let result = ProductAmountGroupFuture::new(v).wait().unwrap();
    assert_eq!(
        summary(&result),
        vec![("A".to_string(), 1, 2), ("C".to_string(), 1, 1), ("B".to_string(), 1, 1)]
    );
}

#[test]
fn grouping_keeps_entries_of_amount_zero() {
    let v = vec![quantity("A", 5, 0), quantity("B", 7, 0), quantity("A", 5, 0)];
    let result = ProductAmountGroupFuture::new(v).wait().unwrap();
    assert_eq!(summary(&result), vec![("A".to_string(), 5, 0), ("B".to_string(), 7, 0)]);
}

#[test]
fn grouping_twice_gives_the_same_entries() {
    let v = vec![
        quantity("A", 200, 1),
        quantity("B", 1200, 2),
        quantity("A", 200, 3),
        quantity("C", 125, 4),
        quantity("B", 1200, 5),
    ];
    let once = ProductAmountGroupFuture::new(v).wait().unwrap();
    let twice = ProductAmountGroupFuture::new(once.clone()).wait().unwrap();
    let mut a = summary(&once);
    let mut b = summary(&twice);
    let turned: Vec<(String, u64, u64)> = a.iter().rev().cloned().collect();
    assert_eq!(b, turned);
    a.sort();
    b.sort();
    assert_eq!(a, b);
}

#[test]
fn grouping_conserves_the_amount_of_every_code() {
    let v = vec![
        quantity("A", 200, 1),
        quantity("B", 1200, 2),
        quantity("A", 200, 3),
        quantity("C", 125, 4),
        quantity("B", 1200, 5),
        quantity("A", 200, 7),
    ];
    let result = ProductAmountGroupFuture::new(v.clone()).wait().unwrap();
    for code in ["A", "B", "C", "D"] {
        let before: u64 = v.iter().filter(|p| p.get_code() == code).map(|p| *p.get_amount()).sum();
        let after: u64 =
            result.iter().filter(|p| p.get_code() == code).map(|p| *p.get_amount()).sum();
        assert_eq!(before, after);
        assert!(result.iter().filter(|p| p.get_code() == code).count() <= 1);
    }
}

#[test]
fn polling_empties_the_queue() {
    let mut pending = ProductAmountGroupFuture::new(vec![quantity("A", 1, 2), quantity("A", 1, 3)]);
    let first = pending.poll().unwrap();
    assert_eq!(summary(&first), vec![("A".to_string(), 1, 5)]);
    let second = pending.poll().unwrap();
    assert!(second.is_empty());
}

#[test]
fn amounts_fit_tells_when_grouping_is_possible() {
    assert!(ProductAmount::amounts_fit(&vec![]));
    assert!(ProductAmount::amounts_fit(&vec![
        quantity("A", 1, u64::MAX),
        quantity("B", 1, u64::MAX)
    ]));
    assert!(ProductAmount::amounts_fit(&vec![quantity("A", 1, u64::MAX - 1), quantity("A", 1, 1)]));
    assert!(!ProductAmount::amounts_fit(&vec![quantity("A", 1, u64::MAX), quantity("A", 1, 1)]));
    assert!(!ProductAmount::amounts_fit(&vec![
        quantity("B", 1, 1),
        quantity("A", 1, u64::MAX),
        quantity("B", 1, 1),
        quantity("A", 1, 1),
    ]));
}

#[test]
fn amounts_go_up_and_down() {
    let mut q = quantity("A", 200, 5);
    q.inc_amount(3);
    assert_eq!(*q.get_amount(), 8);
    assert!(q.dec_amount(8).is_ok());
    assert_eq!(*q.get_amount(), 0);
    assert!(q.dec_amount(0).is_ok());
    q.inc_amount(2);
    assert!(matches!(q.dec_amount(3), Err(store_terminal::ErrorVariant::NotEnoughItems)));
    assert_eq!(*q.get_amount(), 2);
    assert_eq!(*q.get_price(), 200);
    assert_eq!(q.get_code(), "A");
    assert_eq!(*q.get_product().get_price(), 200);
}

#[test]
fn total_price_is_price_times_amount() {
    assert_eq!(quantity("A", 200, 4).get_total_price(), 800);
    assert_eq!(quantity("A", 0, 4).get_total_price(), 0);
    assert_eq!(
        quantity("A", u64::MAX, u64::MAX).get_total_price(),
        (u64::MAX as u128) * (u64::MAX as u128)
    );
    let pool = vec![quantity("A", 200, 4), quantity("B", 1200, 2), quantity("C", 125, 1)];
    assert_eq!(ProductAmount::sum_total_price(&pool), 3325);
    assert_eq!(ProductAmount::checked_total_price(&pool), Some(3325));
    assert_eq!(ProductAmount::checked_total_price(&vec![]), Some(0));
    let huge = vec![quantity("A", u64::MAX, u64::MAX), quantity("B", u64::MAX, u64::MAX)];
    assert_eq!(ProductAmount::checked_total_price(&huge), None);
}

#[test]
fn index_of_product_is_the_first_with_the_code() {
    let pool = vec![quantity("A", 1, 1), quantity("B", 1, 1), quantity("A", 1, 1)];
    assert!(matches!(ProductAmount::get_index_of_product(&pool, &"A".to_string()), Ok(0)));
    assert!(matches!(ProductAmount::get_index_of_product(&pool, &"B".to_string()), Ok(1)));
    assert!(matches!(
        ProductAmount::get_index_of_product(&pool, &"C".to_string()),
        Err(store_terminal::ErrorVariant::ProductNotFound)
    ));
    assert!(matches!(
        ProductAmount::get_index_of_product(&vec![], &"A".to_string()),
        Err(store_terminal::ErrorVariant::ProductNotFound)
    ));
}

#[test]
fn generate_amount_takes_the_product_along() {
    let q = Product::new("A".to_string(), 200).generate_amount(4);
    assert_eq!(q.get_code(), "A");
    assert_eq!(*q.get_price(), 200);
    assert_eq!(*q.get_amount(), 4);
    let pool = vec![q.clone(), quantity("B", 1, 1)];
    let refs = ProductAmount::borrow_all(&pool);
    assert_eq!(refs.len(), 2);
    assert_eq!(refs[1].get_code(), "B");
}

#[test]
fn products_are_ordered_by_code() {
    let a = Product::new("A".to_string(), 900);
    let ab = Product::new("AB".to_string(), 1);
    let b = Product::new("B".to_string(), 1);
    assert!(a < b);
    assert!(a < ab);
    assert!(ab < b);
    assert!(b > a);
    assert!(!(a < Product::new("A".to_string(), 1)));
    assert!(a <= Product::new("A".to_string(), 1));
    assert_eq!(a.partial_cmp(&b), Some(std::cmp::Ordering::Less));
    assert_eq!(b.partial_cmp(&a), Some(std::cmp::Ordering::Greater));
    assert_eq!(a.partial_cmp(&a.clone()), Some(std::cmp::Ordering::Equal));
    assert!(Product::new("".to_string(), 1) < a);
    assert!(Product::new("z".to_string(), 1) < Product::new("\u{e9}".to_string(), 1));
    assert!(Product::new("\u{ffff}".to_string(), 1) < Product::new("\u{10000}".to_string(), 1));
}

#[test]
fn quantities_are_ordered_by_code_and_then_by_amount() {
    assert!(quantity("A", 1, 9) < quantity("B", 1, 1));
    assert!(quantity("B", 1, 1) > quantity("A", 1, 9));
    assert!(quantity("A", 9, 1) < quantity("A", 1, 2));
    assert!(quantity("A", 1, 2) > quantity("A", 9, 1));
    assert_eq!(
        quantity("A", 1, 2).partial_cmp(&quantity("A", 9, 2)),
        Some(std::cmp::Ordering::Equal)
    );
}
