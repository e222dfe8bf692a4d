use store_terminal::prelude::{CartItem, Product, Promotion, ProductAmount, Terminal};
use store_terminal::ErrorVariant;

#[test]
fn terminal_scans_and_prices() {
    let mut terminal = Terminal::new().unwrap();
    terminal.init().unwrap();

    terminal.scan("ABCDABAA".to_string()).unwrap();
    terminal.scan("CCCCCCC".to_string()).unwrap();

    assert!(terminal.can_optimize());
    assert_eq!(terminal.get_cart().unwrap().get_total_price(), 3965);
}

#[test]
fn terminal_starts_with_its_catalog() {
    let mut terminal = Terminal::new().unwrap();
    assert!(terminal.get_db().unwrap().get_products().is_empty());
    terminal.init().unwrap();
    let db = terminal.get_db().unwrap();
    let products: Vec<(String, u64)> =
        db.get_products().iter().map(|p| (p.get_code().clone(), *p.get_price())).collect();
    assert_eq!(
        products,
        vec![
            ("A".to_string(), 200),
            ("B".to_string(), 1200),
            ("C".to_string(), 125),
            ("D".to_string(), 15)
        ]
    );
    let promotions: Vec<(String, u64, String, u64)> = db
        .get_promotions()
        .iter()
        .map(|p| {
            let r = p.get_products();
            (p.get_code().clone(), *p.get_price(), r[0].get_code().clone(), *r[0].get_amount())
        })
        .collect();
    assert_eq!(
        promotions,
        vec![
            ("PA".to_string(), 700, "A".to_string(), 4),
            ("PC".to_string(), 600, "C".to_string(), 6)
        ]
    );
}

#[test]
fn scanning_puts_one_unit_for_each_code_last_first() {
    let mut terminal = Terminal::new().unwrap();
    terminal.init().unwrap();
    terminal.scan("ABD".to_string()).unwrap();
    terminal.scan("".to_string()).unwrap();
    let cart = terminal.get_cart().unwrap();
    let lines: Vec<(String, u64)> = cart
        .get_items()
        .iter()
        .map(|l| (l.get_products()[0].get_code().clone(), l.get_amount()))
        .collect();
    assert_eq!(
        lines,
        vec![("D".to_string(), 1), ("B".to_string(), 1), ("A".to_string(), 1)]
    );
    assert_eq!(cart.get_total_price(), 1415);
}

#[test]
fn scanning_an_unknown_code_stops_the_scan() {
    let mut terminal = Terminal::new().unwrap();
    assert!(matches!(terminal.scan("A".to_string()), Err(ErrorVariant::ProductNotFound)));
    terminal.init().unwrap();
    assert!(matches!(terminal.scan("AZB".to_string()), Err(ErrorVariant::ProductNotFound)));
    let cart = terminal.get_cart().unwrap();
    assert_eq!(cart.get_items().len(), 1);
    assert_eq!(cart.get_items()[0].get_products()[0].get_code(), "B");
}

#[test]
fn init_and_reset_empty_the_cart() {
    let mut terminal = Terminal::new().unwrap();
    terminal.init().unwrap();
    terminal.scan("AAAA".to_string()).unwrap();
    terminal.reset_cart().unwrap();
    assert_eq!(terminal.get_cart().unwrap().get_total_price(), 0);
    terminal.scan("AAAA".to_string()).unwrap();
    terminal.init().unwrap();
    assert!(terminal.get_cart().unwrap().get_items().is_empty());
    assert_eq!(terminal.get_db().unwrap().get_products().len(), 4);
}

#[test]
fn new_pricing_changes_what_a_scan_costs() {
    let mut terminal = Terminal::new().unwrap();
    terminal.init().unwrap();
    terminal.set_pricing(Product::new("A".to_string(), 0), 300).unwrap();
    terminal.scan("AAAA".to_string()).unwrap();
    assert_eq!(terminal.get_cart().unwrap().get_total_price(), 700);
    terminal.reset_cart().unwrap();

    let pa = terminal.get_db().unwrap().fetch_promotion(&"PA".to_string()).unwrap();
    terminal.set_pricing(pa, 1300).unwrap();
    terminal.scan("AAAA".to_string()).unwrap();
    assert_eq!(terminal.get_cart().unwrap().get_total_price(), 1200);
    terminal.reset_cart().unwrap();

    let px = Promotion::new(
        "PX".to_string(),
        vec![ProductAmount::new(Product::new("B".to_string(), 1200), 2)],
        0,
    )
    .unwrap();
    terminal.set_pricing(px, 2000).unwrap();
    assert_eq!(terminal.get_db().unwrap().get_promotions().len(), 3);
    terminal.scan("BB".to_string()).unwrap();
    assert_eq!(terminal.get_cart().unwrap().get_total_price(), 2000);
}
