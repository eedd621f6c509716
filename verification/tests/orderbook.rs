use matrix_quant::orderbook::{OrderBook, OrderBookManager};

fn pairs(v: &[(&str, &str)]) -> Vec<[String; 2]> {
    v.iter().map(|(p, q)| [p.to_string(), q.to_string()]).collect()
}

fn book(bids: &[(&str, &str)], asks: &[(&str, &str)]) -> OrderBookManager {
    let mut m = OrderBookManager::new("BTCUSDT");
    m.apply_update(&pairs(bids), &pairs(asks));
    m
}

#[test]
fn a_new_book_is_empty() {
    let m = OrderBookManager::new("ETHUSDT");
    assert_eq!(m.symbol, "ETHUSDT");
    assert!(m.book.best_bid().is_none() && m.book.best_ask().is_none());
    assert!(m.print_top_of_book().is_none());
    assert!(OrderBook::empty().bids.is_empty());
}

#[test]
fn the_best_levels_are_the_inner_ones() {
    let m = book(&[("99", "1"), ("101", "2"), ("100", "3")], &[("105", "1"), ("103", "4")]);
    let (bid, ask) = m.print_top_of_book().unwrap();
    assert_eq!((bid.price.text().as_str(), bid.qty.text().as_str()), ("101", "2"));
    assert_eq!((ask.price.text().as_str(), ask.qty.text().as_str()), ("103", "4"));
    let prices: Vec<String> = m.book.bids.iter().map(|l| l.price.text()).collect();
    assert_eq!(prices, vec!["99", "100", "101"]);
}

#[test]
fn an_update_replaces_the_whole_book() {
    let mut m = book(&[("1", "1")], &[("2", "1")]);
    m.apply_update(&pairs(&[("5", "1")]), &[]);
    assert_eq!(m.book.best_bid().unwrap().price.text(), "5");
    assert!(m.book.best_ask().is_none());
}

#[test]
fn empty_and_repeated_entries() {
    let m = book(&[("10", "0"), ("10.0", "1"), ("10.00", "7"), ("x", "2"), ("9", "y")], &[]);
    let rows: Vec<(String, String)> =
        m.book.bids.iter().map(|l| (l.price.text(), l.qty.text())).collect();
    assert_eq!(
        rows,
        vec![("0".to_string(), "2".to_string()), ("10.0".to_string(), "7".to_string())]
    );
}

#[test]
fn the_thickest_wall_is_the_first_of_the_largest() {
    let m = book(
        &[("97", "50"), ("98", "9"), ("99", "4"), ("100", "9")],
        &[("101", "1"), ("102", "3"), ("103", "3")],
    );
    assert_eq!(m.get_thickest_wall(true, 3).unwrap().text(), "100");
    assert_eq!(m.get_thickest_wall(true, 10).unwrap().text(), "97");
    assert_eq!(m.get_thickest_wall(false, 3).unwrap().text(), "102");
    assert!(m.get_thickest_wall(false, 0).is_none());
    assert!(OrderBookManager::new("X").get_thickest_wall(true, 5).is_none());
}
