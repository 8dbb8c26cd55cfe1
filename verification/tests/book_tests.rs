use bitvavo_ws::decode::decode_event;
use bitvavo_ws::events::BitvavoEvent;
use bitvavo_ws::local_book::LocalBook;

fn book_event(frame: &str) -> bitvavo_ws::events::Book {
    match decode_event(frame).unwrap() {
        BitvavoEvent::Book(b) => b,
        _ => panic!("expected a book event"),
    }
}

fn ticker_event(frame: &str) -> bitvavo_ws::events::Ticker {
    match decode_event(frame).unwrap() {
        BitvavoEvent::Ticker(t) => t,
        _ => panic!("expected a ticker event"),
    }
}

#[test]
fn ingest_book_skips_leading_zero_quantity_levels() {
    let book = book_event(
        r#"{"event":"book","market":"BTC-EUR","nonce":1,
            "bids":[["10","0"],["10","0"],["9","5"]],
            "asks":[["11","1"]]}"#,
    );
    let mut local = LocalBook::new();
    local.ingest_book(book);
    let top = local.top_bid_or_default();
    assert_eq!(top.price.to_wire_string(), "9");
    assert_eq!(top.quantity.to_wire_string(), "5");
}

#[test]
fn all_zero_side_yields_the_sentinel() {
    let book = book_event(
        r#"{"event":"book","market":"BTC-EUR","nonce":1,
            "bids":[["10","0"],["8","0"]],
            "asks":[["11","1"]]}"#,
    );
    let mut local = LocalBook::new();
    local.ingest_book(book);
    let top = local.top_bid_or_default();
    assert_eq!(top.price.to_wire_string(), "0");
    assert_eq!(top.quantity.to_wire_string(), "0");
    assert!(top.price.is_zero() && top.quantity.is_zero());
}

#[test]
fn ticker_updates_only_the_sides_it_carries() {
    let book = book_event(
        r#"{"event":"book","market":"BTC-EUR","nonce":1,
            "bids":[["10","2"]],"asks":[["12","3"]]}"#,
    );
    let mut local = LocalBook::new();
    local.ingest_book(book);
    let ticker = ticker_event(
        r#"{"event":"ticker","market":"BTC-EUR","bestBid":"11","bestBidSize":"1"}"#,
    );
    local.ingest_ticker(ticker);
    assert_eq!(local.top_bid_or_default().price.to_wire_string(), "11");
    assert_eq!(local.top_bid_or_default().quantity.to_wire_string(), "1");
    // the previously ingested ask is unchanged
    assert_eq!(local.top_ask_or_default().price.to_wire_string(), "12");
    assert_eq!(local.top_ask_or_default().quantity.to_wire_string(), "3");
}

#[test]
fn spread_of_100_and_102() {
    let book = book_event(
        r#"{"event":"book","market":"BTC-EUR","nonce":1,
            "bids":[["100","1"]],"asks":[["102","1"]]}"#,
    );
    let mut local = LocalBook::new();
    local.ingest_book(book);
    let spread = local.real_spread_or_default();
    // (102 - 100) / 101, rounded toward positive infinity at ten digits
    assert_eq!(spread.to_wire_string(), "0.0198019802");
}

#[test]
fn spread_without_an_ask_is_zero_not_an_error() {
    let book = book_event(
        r#"{"event":"book","market":"BTC-EUR","nonce":1,
            "bids":[["100","1"]],"asks":[]}"#,
    );
    let mut local = LocalBook::new();
    local.ingest_book(book);
    let spread = local.real_spread_or_default();
    assert!(spread.is_zero());
    assert_eq!(spread.to_wire_string(), "0");
}

#[test]
fn fresh_book_reports_sentinels() {
    let local = LocalBook::default();
    assert!(local.top_bid_or_default().price.is_zero());
    assert!(local.top_ask_or_default().quantity.is_zero());
    assert!(local.real_spread_or_default().is_zero());
}
