use store_terminal::prelude::{
    CartItem, CartItemPromotion, CartItemVariant, Database, DatabaseAppend, Product,
    ProductAmount, Promotion, WithNewPricing,
};
use store_terminal::ErrorVariant;

fn quantity(code: &str, price: u64, amount: u64) -> ProductAmount {
    ProductAmount::new(Product::new(code.to_string(), price), amount)
}

fn summary(pool: &Vec<ProductAmount>) -> Vec<(String, u64, u64)> {
    pool.iter().map(|p| (p.get_code().clone(), *p.get_price(), *p.get_amount())).collect()
}

fn promotion(code: &str, requirements: Vec<ProductAmount>, price: u64) -> Promotion {
    Promotion::new(code.to_string(), requirements, price).unwrap()
}

fn contains(promotion: &Promotion, pool: &Vec<ProductAmount>) -> bool {
    let refs: Vec<&ProductAmount> = pool.iter().collect();
    promotion.is_contained_by(&refs)
}

#[test]
fn promotion_is_contained_by_pools_that_cover_it() {
    let mut database = Database::new();
    database.append(Product::new("A".to_string(), 10000)).unwrap();
    database.append(Product::new("B".to_string(), 10000)).unwrap();
    database.append(Product::new("C".to_string(), 10000)).unwrap();

    let products = vec![
        database.code_to_product_amount("A".to_string(), 1).unwrap(),
        database.code_to_product_amount("A".to_string(), 1).unwrap(),
        database.code_to_product_amount("A".to_string(), 1).unwrap(),
        database.code_to_product_amount("B".to_string(), 1).unwrap(),
    ];
    let promotion = Promotion::new("TRIO".to_string(), products, 100).unwrap();
    database.append(promotion).unwrap();

    let test_amount = vec![
        database.fetch_product(&"A".to_string()).unwrap().generate_amount(2),
        database.fetch_product(&"B".to_string()).unwrap().generate_amount(2),
    ];
    let mut assert_array = vec![];
    for t in &test_amount {
        assert_array.push(t);
    }
    assert!(!database.fetch_promotion(&"TRIO".to_string()).unwrap().is_contained_by(&assert_array));

    let test_amount = vec![
        database.fetch_product(&"A".to_string()).unwrap().generate_amount(3),
        database.fetch_product(&"B".to_string()).unwrap().generate_amount(2),
    ];
    let mut assert_array = vec![];
    for t in &test_amount {
        assert_array.push(t);
    }
    assert!(database.fetch_promotion(&"TRIO".to_string()).unwrap().is_contained_by(&assert_array));

    let test_amount = vec![
        database.fetch_product(&"A".to_string()).unwrap().generate_amount(4),
        database.fetch_product(&"B".to_string()).unwrap().generate_amount(2),
    ];
    let mut assert_array = vec![];
    for t in &test_amount {
        assert_array.push(t);
    }
    assert!(database.fetch_promotion(&"TRIO".to_string()).unwrap().is_contained_by(&assert_array));
}

#[test]
fn containment_needs_the_required_amount() {
    let pa = promotion("PA", vec![quantity("A", 200, 4)], 700);
    assert!(!contains(&pa, &vec![quantity("A", 200, 3)]));
    assert!(contains(&pa, &vec![quantity("A", 200, 4)]));
    assert!(contains(&pa, &vec![quantity("A", 200, 5)]));
}

#[test]
fn containment_needs_every_code() {
    let p = promotion("P", vec![quantity("A", 200, 1), quantity("B", 1200, 1)], 700);
    assert!(!contains(&p, &vec![]));
    assert!(!contains(&p, &vec![quantity("A", 200, 9)]));
    assert!(!contains(&p, &vec![quantity("B", 1200, 9), quantity("C", 125, 9)]));
    assert!(contains(
        &p,
        &vec![quantity("C", 125, 9), quantity("B", 1200, 1), quantity("A", 200, 1)]
    ));
}

#[test]
fn promotion_without_requirements_is_always_contained() {
    let p = promotion("P", vec![], 700);
    assert!(contains(&p, &vec![]));
    assert!(contains(&p, &vec![quantity("A", 200, 1)]));
    let pool = vec![quantity("A", 200, 1), quantity("B", 1, 0)];
    assert_eq!(summary(&p.consume_items(pool).unwrap()), vec![("A".to_string(), 200, 1)]);
}

#[test]
fn containment_looks_at_every_entry_of_a_code() {
    let pa = promotion("PA", vec![quantity("A", 200, 4)], 700);
    assert!(contains(&pa, &vec![quantity("A", 200, 1), quantity("A", 200, 4)]));
    assert!(!contains(&pa, &vec![quantity("A", 200, 3), quantity("A", 200, 3)]));
}

#[test]
fn consumption_takes_the_required_amount() {
    let pool = vec![quantity("A", 200, 5)];
    let four = promotion("FOUR", vec![quantity("A", 200, 4)], 700);
    assert_eq!(
        summary(&four.consume_items(pool.clone()).unwrap()),
        vec![("A".to_string(), 200, 1)]
    );

    let five = promotion("FIVE", vec![quantity("A", 200, 5)], 700);
    assert!(five.consume_items(pool.clone()).unwrap().is_empty());

    let six = promotion("SIX", vec![quantity("A", 200, 6)], 700);
    assert!(matches!(six.consume_items(pool.clone()), Err(ErrorVariant::NotEnoughItems)));
    assert_eq!(summary(&pool), vec![("A".to_string(), 200, 5)]);
}

#[test]
fn consumption_fails_on_a_missing_code() {
    let p = promotion("P", vec![quantity("Z", 1, 1)], 700);
    assert!(matches!(
        p.consume_items(vec![quantity("A", 200, 5)]),
        Err(ErrorVariant::ProductNotFound)
    ));
    assert!(matches!(p.consume_items(vec![]), Err(ErrorVariant::ProductNotFound)));
}

#[test]
fn consumption_reports_the_first_requirement_that_fails() {
    let missing_first = promotion("P", vec![quantity("A", 1, 9), quantity("Z", 1, 1)], 1);
    let short_first = promotion("Q", vec![quantity("Z", 1, 1), quantity("A", 1, 9)], 1);
    let pool = vec![quantity("A", 1, 5)];
    assert_eq!(
        summary(&missing_first.get_products().into_iter().cloned().collect()),
        vec![("Z".to_string(), 1, 1), ("A".to_string(), 1, 9)]
    );
    assert!(matches!(
        missing_first.consume_items(pool.clone()),
        Err(ErrorVariant::ProductNotFound)
    ));
    assert!(matches!(short_first.consume_items(pool.clone()), Err(ErrorVariant::NotEnoughItems)));
}

#[test]
fn consumption_keeps_the_order_and_drops_what_is_empty() {
    let p = promotion("P", vec![quantity("B", 1, 2), quantity("D", 1, 1)], 1);
    let pool = vec![
        quantity("A", 10, 1),
        quantity("B", 20, 2),
        quantity("C", 30, 0),
        quantity("D", 40, 3),
        quantity("E", 50, 7),
    ];
    assert_eq!(
        summary(&p.consume_items(pool).unwrap()),
        vec![("A".to_string(), 10, 1), ("D".to_string(), 40, 2), ("E".to_string(), 50, 7)]
    );
}

#[test]
fn consumption_takes_from_the_first_entry_of_a_code() {
    let p = promotion("P", vec![quantity("A", 1, 2)], 1);
    let pool = vec![quantity("A", 10, 3), quantity("A", 20, 5)];
    assert_eq!(
        summary(&p.consume_items(pool).unwrap()),
        vec![("A".to_string(), 10, 1), ("A".to_string(), 20, 5)]
    );
    let pool = vec![quantity("A", 10, 1), quantity("A", 20, 5)];
    assert!(matches!(p.consume_items(pool), Err(ErrorVariant::NotEnoughItems)));
}

#[test]
fn a_covered_promotion_can_be_consumed() {
    let p = promotion("P", vec![quantity("A", 1, 2), quantity("B", 1, 1)], 1);
    let pool = vec![quantity("B", 5, 1), quantity("A", 7, 2), quantity("C", 9, 1)];
    assert!(contains(&p, &pool));
    assert_eq!(summary(&p.consume_items(pool).unwrap()), vec![("C".to_string(), 9, 1)]);
}

#[test]
fn new_promotion_groups_its_requirements() {
    let p = promotion(
        "P",
        vec![quantity("A", 200, 1), quantity("B", 1200, 1), quantity("A", 210, 2)],
        700,
    );
    assert_eq!(p.get_code(), "P");
    assert_eq!(*p.get_price(), 700);
    let requirements: Vec<ProductAmount> = p.get_products().into_iter().cloned().collect();
    assert_eq!(
        summary(&requirements),
        vec![("A".to_string(), 210, 3), ("B".to_string(), 1200, 1)]
    );
}

#[test]
fn promotions_are_equal_by_code_alone() {
    let a = promotion("P", vec![quantity("A", 200, 1)], 700);
    let b = promotion("P", vec![], 1);
    let c = promotion("Q", vec![quantity("A", 200, 1)], 700);
    assert!(a == b);
    assert!(a != c);
    assert!(a.clone() == a);
}

#[test]
fn new_pricing_keeps_code_and_requirements() {
    let product = Product::new("A".to_string(), 200);
    let dearer = product.with_new_pricing(250).unwrap();
    assert_eq!(dearer.get_code(), "A");
    assert_eq!(*dearer.get_price(), 250);
    assert_eq!(*product.get_price(), 200);

    let p = promotion("P", vec![quantity("A", 200, 4), quantity("B", 1200, 1)], 700);
    let cheaper = p.with_new_pricing(650).unwrap();
    assert_eq!(cheaper.get_code(), "P");
    assert_eq!(*cheaper.get_price(), 650);
    let before: Vec<ProductAmount> = p.get_products().into_iter().cloned().collect();
    let after: Vec<ProductAmount> = cheaper.get_products().into_iter().cloned().collect();
    assert_eq!(summary(&before), vec![("B".to_string(), 1200, 1), ("A".to_string(), 200, 4)]);
    assert_eq!(summary(&after), vec![("A".to_string(), 200, 4), ("B".to_string(), 1200, 1)]);
}

#[test]
fn promotion_line_is_charged_its_flat_price() {
    let p = promotion("PA", vec![quantity("A", 200, 4)], 700);
    let line = CartItemPromotion::new(p, 3);
    assert!(!line.is_product());
    assert!(matches!(line.get_variant(), CartItemVariant::Promotion(_)));
    assert_eq!(line.get_amount(), 3);
    assert_eq!(line.get_price(), 700);
    assert_eq!(line.get_total(), 2100);
    assert_eq!(line.get_total_discount(), 0);
    let parts = line.get_products();
    assert_eq!(parts.len(), 1);
    assert_eq!(parts[0].get_code(), "A");
    assert_eq!(*parts[0].get_amount(), 4);
    let copy = line.clone();
    assert_eq!(copy.get_id(), line.get_id());
}

#[test]
fn lines_get_identifiers_of_their_own() {
    let a = CartItemPromotion::new(promotion("PA", vec![], 700), 1);
    let b = CartItemPromotion::new(promotion("PA", vec![], 700), 1);
    assert_ne!(a.get_id(), b.get_id());
}
