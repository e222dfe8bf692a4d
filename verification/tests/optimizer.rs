use store_terminal::prelude::{
    Cart, Database, DatabaseAppend, Optimizer, OptimizerCandidate, Product, ProductAmount,
    Promotion,
};
use store_terminal::ErrorVariant;

fn quantity(code: &str, price: u64, amount: u64) -> ProductAmount {
    ProductAmount::new(Product::new(code.to_string(), price), amount)
}

fn summary(pool: &Vec<ProductAmount>) -> Vec<(String, u64, u64)> {
    pool.iter().map(|p| (p.get_code().clone(), *p.get_price(), *p.get_amount())).collect()
}

fn codes(promotions: &Vec<Promotion>) -> Vec<String> {
    promotions.iter().map(|p| p.get_code().clone()).collect()
}

fn promotion(code: &str, requirements: Vec<ProductAmount>, price: u64) -> Promotion {
    Promotion::new(code.to_string(), requirements, price).unwrap()
}

fn catalog() -> Database {
    let mut database = Database::new();
    database.append(Product::new("A".to_string(), 200)).unwrap();
    database.append(Product::new("B".to_string(), 1200)).unwrap();
    database.append(Product::new("C".to_string(), 125)).unwrap();
    database.append(Product::new("D".to_string(), 15)).unwrap();

    let products = vec![database.code_to_product_amount("A".to_string(), 4).unwrap()];
    let promotion = Promotion::new("PA".to_string(), products, 700).unwrap();
    database.append(promotion).unwrap();

    let products = vec![database.code_to_product_amount("C".to_string(), 6).unwrap()];
    let promotion = Promotion::new("PC".to_string(), products, 600).unwrap();
    database.append(promotion).unwrap();
    database
}

fn price_of(products: &Vec<ProductAmount>, promotions: &Vec<Promotion>) -> u128 {
    *OptimizerCandidate::new(promotions.clone(), products.clone()).get_price()
}

#[test]
fn optimizer_prices_carts() {
    let database = catalog();

    let mut cart = Cart::new(database.clone());
    cart.push_product(&"A".to_string(), 1).unwrap();
    cart.push_product(&"B".to_string(), 1).unwrap();
    cart.push_product(&"C".to_string(), 1).unwrap();
    cart.push_product(&"D".to_string(), 1).unwrap();
    cart.push_product(&"A".to_string(), 1).unwrap();
    cart.push_product(&"B".to_string(), 1).unwrap();
    cart.push_product(&"A".to_string(), 1).unwrap();
    cart.push_product(&"A".to_string(), 1).unwrap();
    assert!(cart.can_optimize());
    cart.optimize_promotions().unwrap();
    assert_eq!(cart.get_total_price(), 3240);

    let mut cart = Cart::new(database.clone());
    cart.push_product(&"C".to_string(), 7).unwrap();
    cart.optimize_promotions().unwrap();
    assert_eq!(cart.get_total_price(), 725);

    let mut cart = Cart::new(database.clone());
    cart.push_product(&"A".to_string(), 1).unwrap();
    cart.push_product(&"B".to_string(), 1).unwrap();
    cart.push_product(&"C".to_string(), 1).unwrap();
    cart.push_product(&"D".to_string(), 1).unwrap();
    cart.optimize_promotions().unwrap();
    assert_eq!(cart.get_total_price(), 1540);
}

#[test]
fn optimizer_selects_the_promotion_that_saves() {
    let pool = vec![
        quantity("A", 200, 4),
        quantity("B", 1200, 2),
        quantity("C", 125, 1),
        quantity("D", 15, 1),
    ];
    let mut optimizer = Optimizer::new(pool, catalog());
    let (products, promotions) = optimizer.get_optimal_products_promotions().unwrap();
    assert_eq!(
        summary(&products),
        vec![("B".to_string(), 1200, 2), ("C".to_string(), 125, 1), ("D".to_string(), 15, 1)]
    );
    assert_eq!(codes(&promotions), vec!["PA".to_string()]);
    assert_eq!(price_of(&products, &promotions), 3240);
}

#[test]
fn optimizer_leaves_what_a_promotion_does_not_take() {
    let mut optimizer = Optimizer::new(vec![quantity("C", 125, 7)], catalog());
    let (products, promotions) = optimizer.get_optimal_products_promotions().unwrap();
    assert_eq!(summary(&products), vec![("C".to_string(), 125, 1)]);
    assert_eq!(codes(&promotions), vec!["PC".to_string()]);
    assert_eq!(price_of(&products, &promotions), 725);
}

#[test]
fn optimizer_returns_the_pool_where_no_promotion_applies() {
    let pool = vec![
        quantity("A", 200, 1),
        quantity("B", 1200, 1),
        quantity("C", 125, 1),
        quantity("D", 15, 1),
    ];
    let mut optimizer = Optimizer::new(pool.clone(), catalog());
    let (products, promotions) = optimizer.get_optimal_products_promotions().unwrap();
    assert_eq!(summary(&products), summary(&pool));
    assert!(promotions.is_empty());
    assert_eq!(price_of(&products, &promotions), 1540);
}

#[test]
fn optimizer_handles_an_empty_pool_and_an_empty_catalog() {
    let mut optimizer = Optimizer::new(vec![], catalog());
    let (products, promotions) = optimizer.get_optimal_products_promotions().unwrap();
    assert!(products.is_empty());
    assert!(promotions.is_empty());

    let mut optimizer = Optimizer::new(vec![quantity("A", 200, 9)], Database::new());
    let (products, promotions) = optimizer.get_optimal_products_promotions().unwrap();
    assert_eq!(summary(&products), vec![("A".to_string(), 200, 9)]);
    assert!(promotions.is_empty());
}

#[test]
fn optimizer_applies_a_promotion_as_often_as_it_saves() {
    let mut optimizer = Optimizer::new(vec![quantity("A", 200, 9)], catalog());
    let (products, promotions) = optimizer.get_optimal_products_promotions().unwrap();
    assert_eq!(summary(&products), vec![("A".to_string(), 200, 1)]);
    assert_eq!(codes(&promotions), vec!["PA".to_string(), "PA".to_string()]);
    assert_eq!(price_of(&products, &promotions), 1600);
}

#[test]
fn optimizer_adopts_several_promotions_in_one_round() {
    let pool = vec![quantity("A", 200, 4), quantity("C", 125, 8)];
    let mut optimizer = Optimizer::new(pool, catalog());
    let (products, promotions) = optimizer.get_optimal_products_promotions().unwrap();
    assert_eq!(summary(&products), vec![("C".to_string(), 125, 2)]);
    assert_eq!(codes(&promotions), vec!["PA".to_string(), "PC".to_string()]);
    assert_eq!(price_of(&products, &promotions), 1550);
}

#[test]
fn optimizer_stops_when_a_round_brings_nothing() {
    let mut database = Database::new();
    database.append(Product::new("A".to_string(), 200)).unwrap();
    database
        .append(promotion("DEAR", vec![quantity("A", 200, 1)], 300))
        .unwrap();
    database
        .append(promotion("EVEN", vec![quantity("A", 200, 2)], 400))
        .unwrap();
    let mut optimizer = Optimizer::new(vec![quantity("A", 200, 5)], database);
    let (products, promotions) = optimizer.get_optimal_products_promotions().unwrap();
    assert_eq!(summary(&products), vec![("A".to_string(), 200, 5)]);
    assert!(promotions.is_empty());
}

#[test]
fn optimizer_discards_a_promotion_that_can_no_longer_be_taken() {
    let mut database = Database::new();
    database.append(Product::new("A".to_string(), 200)).unwrap();
    database.append(promotion("FIRST", vec![quantity("A", 200, 4)], 700)).unwrap();
    database.append(promotion("SECOND", vec![quantity("A", 200, 3)], 500)).unwrap();
    database.append(promotion("THIRD", vec![quantity("A", 200, 1)], 100)).unwrap();
    let mut optimizer = Optimizer::new(vec![quantity("A", 200, 4)], database);
    let (products, promotions) = optimizer.get_optimal_products_promotions().unwrap();
    assert!(products.is_empty());
    assert_eq!(codes(&promotions), vec!["FIRST".to_string()]);
    assert_eq!(price_of(&products, &promotions), 700);
}

#[test]
fn optimizer_is_greedy() {
    let mut database = Database::new();
    database.append(Product::new("A".to_string(), 200)).unwrap();
    database.append(promotion("SMALL", vec![quantity("A", 200, 3)], 599)).unwrap();
    database.append(promotion("LARGE", vec![quantity("A", 200, 4)], 400)).unwrap();
    let mut optimizer = Optimizer::new(vec![quantity("A", 200, 4)], database);
    let (products, promotions) = optimizer.get_optimal_products_promotions().unwrap();
    assert_eq!(summary(&products), vec![("A".to_string(), 200, 1)]);
    assert_eq!(codes(&promotions), vec!["SMALL".to_string()]);
    assert_eq!(price_of(&products, &promotions), 799);
}

#[test]
fn optimizer_gives_the_same_answer_again() {
    let mut optimizer = Optimizer::new(vec![quantity("A", 200, 9)], catalog());
    let first = optimizer.get_optimal_products_promotions().unwrap();
    let second = optimizer.get_optimal_products_promotions().unwrap();
    assert_eq!(summary(&first.0), summary(&second.0));
    assert_eq!(codes(&first.1), codes(&second.1));
}

#[test]
fn optimizer_accounts_for_the_whole_pool() {
    let pool = vec![quantity("A", 200, 13), quantity("C", 125, 20), quantity("B", 1200, 1)];
    let mut optimizer = Optimizer::new(pool.clone(), catalog());
    let (products, promotions) = optimizer.get_optimal_products_promotions().unwrap();
    for code in ["A", "B", "C", "D"] {
        let held: u64 = pool.iter().filter(|p| p.get_code() == code).map(|p| *p.get_amount()).sum();
        let left: u64 =
            products.iter().filter(|p| p.get_code() == code).map(|p| *p.get_amount()).sum();
        let taken: u64 = promotions
            .iter()
            .map(|p| {
                p.get_products()
                    .iter()
                    .filter(|r| r.get_code() == code)
                    .map(|r| *r.get_amount())
                    .sum::<u64>()
            })
            .sum();
        assert_eq!(held, left + taken);
    }
    assert!(price_of(&products, &promotions) <= ProductAmount::sum_total_price(&pool));
    let best = OptimizerCandidate::new(promotions, products);
    for p in catalog().get_promotions() {
        assert!(best.cheaper_with(p.clone()).is_none());
    }
}

#[test]
fn candidate_price_is_derived_from_its_lists() {
    let empty = OptimizerCandidate::new(vec![], vec![]);
    assert_eq!(*empty.get_price(), 0);
    let candidate = OptimizerCandidate::new(
        vec![promotion("PA", vec![quantity("A", 200, 4)], 700), promotion("PC", vec![], 600)],
        vec![quantity("B", 1200, 2), quantity("C", 125, 1), quantity("D", 15, 1)],
    );
    assert_eq!(*candidate.get_price(), 700 + 600 + 2400 + 125 + 15);
    assert_eq!(codes(candidate.get_promotions()), vec!["PA".to_string(), "PC".to_string()]);
    assert_eq!(candidate.get_products().len(), 3);
    assert_eq!(*candidate.clone().get_price(), 3840);
}

#[test]
fn simulation_applies_one_more_promotion() {
    let start = OptimizerCandidate::new(
        vec![],
        vec![quantity("A", 200, 4), quantity("B", 1200, 2), quantity("C", 125, 1)],
    );
    assert_eq!(*start.get_price(), 3325);
    let pa = promotion("PA", vec![quantity("A", 200, 4)], 700);
    let next = start.simulate_promotion(pa.clone()).unwrap();
    assert_eq!(
        summary(next.get_products()),
        vec![("B".to_string(), 1200, 2), ("C".to_string(), 125, 1)]
    );
    assert_eq!(codes(next.get_promotions()), vec!["PA".to_string()]);
    assert_eq!(*next.get_price(), 3225);
    assert_eq!(*start.get_price(), 3325);
    assert_eq!(start.get_products().len(), 3);
    assert!(start.get_promotions().is_empty());

    assert!(matches!(next.simulate_promotion(pa), Err(ErrorVariant::ProductNotFound)));
    let much = promotion("MUCH", vec![quantity("B", 1200, 3)], 1);
    assert!(matches!(next.simulate_promotion(much), Err(ErrorVariant::NotEnoughItems)));
    let dear = promotion("DEAR", vec![quantity("C", 125, 1)], 5000);
    assert_eq!(*next.simulate_promotion(dear).unwrap().get_price(), 700 + 5000 + 2400);
}

#[test]
fn cheaper_with_adopts_only_what_lowers_the_price() {
    let start = OptimizerCandidate::new(vec![], vec![quantity("A", 200, 4)]);
    let saves = promotion("SAVES", vec![quantity("A", 200, 4)], 799);
    let even = promotion("EVEN", vec![quantity("A", 200, 4)], 800);
    let short = promotion("SHORT", vec![quantity("A", 200, 5)], 1);
    let other = promotion("OTHER", vec![quantity("B", 200, 1)], 1);
    let next = start.cheaper_with(saves).unwrap();
    assert_eq!(*next.get_price(), 799);
    assert!(next.get_products().is_empty());
    assert_eq!(codes(next.get_promotions()), vec!["SAVES".to_string()]);
    assert!(start.cheaper_with(even).is_none());
    assert!(start.cheaper_with(short).is_none());
    assert!(start.cheaper_with(other).is_none());
}
