use bitvavo_ws::decode::{decode_event, parse_price_level, parse_side, parse_trade, DecodeError};
use bitvavo_ws::events::{BitvavoEvent, Side};
use bitvavo_ws::json::{parse_json_text, JsonValue};

fn decode_obj(text: &str) -> Vec<(String, JsonValue)> {
    match parse_json_text(text).unwrap() {
        JsonValue::Obj(members) => members,
        _ => panic!("expected an object"),
    }
}

#[test]
fn get_book_deserialize_price_level() {
    let json_data = r#"
            ["100.50", "2.0"]
        "#;
    let value = parse_json_text(json_data).unwrap();
    let price_level = parse_price_level(&value).unwrap();
    assert_eq!(price_level.price.to_wire_string(), "100.50");
    assert_eq!(price_level.quantity.to_wire_string(), "2.0");
}

#[test]
fn book_deserialize_price_level() {
    let json_data = r#"
            ["100.50", "2.0"]
        "#;
    let value = parse_json_text(json_data).unwrap();
    let price_level = parse_price_level(&value).unwrap();
    assert_eq!(price_level.price.to_wire_string(), "100.50");
    assert_eq!(price_level.quantity.to_wire_string(), "2.0");
}

#[test]
fn rug_float_serde_deserialize_float() {
    let json_data = r#"
            "100.50"
        "#;
    let value = parse_json_text(json_data).unwrap();
    let text = match value {
        JsonValue::Str(t) => t,
        _ => panic!("expected a string"),
    };
    let float = bitvavo_ws::decimal::Decimal::parse(&text).unwrap();
    assert_eq!("100.50", float.to_wire_string());
    assert!(bitvavo_ws::decimal::Decimal::parse("100.5").unwrap() == float);
}

#[test]
fn decode_trade() {
    let s = r#"{
            "timestamp": 123123123,
            "id": "123",
            "amount": "123",
            "price": "123",
            "side": "sell"
        }"#;
    let members = decode_obj(s);
    parse_trade(&members).unwrap();
}

#[test]
fn serialize_side() {
    let buy = Side::Buy;
    let serialized = buy.to_json_string();
    assert_eq!(serialized.as_str(), "\"buy\"");

    let sell = Side::Sell;
    let serialized = sell.to_json_string();
    assert_eq!(serialized.as_str(), "\"sell\"");
}

#[test]
fn deserialize_side_buy() {
    let buy = Side::Buy;
    let serialized = buy.to_json_string();
    let value = parse_json_text(&serialized).unwrap();
    let deserialized = parse_side(&value).unwrap();
    assert_eq!(buy, deserialized);
}

#[test]
fn deserialize_side_sell() {
    let sell = Side::Sell;
    let serialized = sell.to_json_string();
    let value = parse_json_text(&serialized).unwrap();
    let deserialized = parse_side(&value).unwrap();
    assert_eq!(sell, deserialized);
}

#[test]
fn price_level_length_error_is_distinct() {
    let one = parse_json_text(r#"["100.50"]"#).unwrap();
    match parse_price_level(&one) {
        Err(DecodeError::MalformedJson(cause)) => {
            assert_eq!(cause, "price level: expected two elements")
        }
        other => panic!("unexpected: {:?}", other),
    }
    let obj = parse_json_text(r#"{"price":"100.50"}"#).unwrap();
    match parse_price_level(&obj) {
        Err(DecodeError::MalformedJson(cause)) => {
            assert_eq!(cause, "price level: expected an array")
        }
        other => panic!("unexpected: {:?}", other),
    }
}

#[test]
fn dispatch_book() {
    let frame = r#"{"event":"book","market":"BTC-EUR","nonce":42,
        "bids":[["100.50","2.0"]],"asks":[["101","1"]]}"#;
    match decode_event(frame).unwrap() {
        BitvavoEvent::Book(book) => {
            assert_eq!(book.nonce, 42);
            assert_eq!(book.bids.len(), 1);
            assert_eq!(book.asks.len(), 1);
            assert_eq!(book.bids[0].price.to_wire_string(), "100.50");
        }
        _ => panic!("expected a book event"),
    }
}

#[test]
fn dispatch_candle() {
    let frame = r#"{"event":"candle","market":"BTC-EUR","interval":"1h",
        "candle":[[1700000000000,"1","2","0.5","1.5","100"]]}"#;
    match decode_event(frame).unwrap() {
        BitvavoEvent::Candle(c) => {
            assert_eq!(c.timestamp, 1700000000000);
            assert_eq!(c.open.to_wire_string(), "1");
            assert_eq!(c.volume.to_wire_string(), "100");
        }
        _ => panic!("expected a candle event"),
    }
}

#[test]
fn dispatch_candle_empty_batch_fails() {
    let frame = r#"{"event":"candle","market":"BTC-EUR","interval":"1h","candle":[]}"#;
    assert!(matches!(
        decode_event(frame),
        Err(DecodeError::MalformedJson(_))
    ));
}

#[test]
fn dispatch_trade() {
    let frame = r#"{"event":"trade","timestamp":123,"id":"t1","amount":"0.5","price":"99","side":"buy"}"#;
    match decode_event(frame).unwrap() {
        BitvavoEvent::Trade(t) => {
            assert_eq!(t.timestamp, 123);
            assert_eq!(t.id, "t1");
            assert_eq!(t.side, Side::Buy);
        }
        _ => panic!("expected a trade event"),
    }
}

#[test]
fn dispatch_ticker() {
    let frame = r#"{"event":"ticker","market":"BTC-EUR","bestBid":"11","bestBidSize":"1"}"#;
    match decode_event(frame).unwrap() {
        BitvavoEvent::Ticker(t) => {
            assert_eq!(t.market, "BTC-EUR");
            assert!(t.best_bid.is_some());
            assert!(t.best_ask.is_none());
        }
        _ => panic!("expected a ticker event"),
    }
}

#[test]
fn dispatch_ticker_bad_field_is_unparseable() {
    let frame = r#"{"event":"ticker","market":"BTC-EUR","bestBid":5}"#;
    match decode_event(frame) {
        Err(DecodeError::UnparseableTicker(cause)) => assert_eq!(cause, "ticker: bestBid"),
        other => panic!("unexpected: {:?}", other),
    }
}

#[test]
fn dispatch_ticker24h() {
    let frame = r#"{"event":"ticker24h","market":"BTC-EUR","open":"1","high":"2","low":"0.5",
        "last":"1.5","volume":"10","volumeQuote":"15","bid":"1.4","ask":"1.6",
        "timestamp":1700000000000,"bidSize":"3","askSize":"4"}"#;
    match decode_event(frame).unwrap() {
        BitvavoEvent::Ticker24h(t) => {
            assert_eq!(t.volume_quote.to_wire_string(), "15");
            assert_eq!(t.timestamp, 1700000000000);
        }
        _ => panic!("expected a ticker24h event"),
    }
}

#[test]
fn dispatch_subscribed() {
    let frame = r#"{"event":"subscribed"}"#;
    assert!(matches!(
        decode_event(frame).unwrap(),
        BitvavoEvent::Subscribed
    ));
}

#[test]
fn dispatch_unknown_event() {
    let frame = r#"{"event":"bogus"}"#;
    match decode_event(frame) {
        Err(DecodeError::UnknownEvent(name)) => assert_eq!(name, "bogus"),
        other => panic!("unexpected: {:?}", other),
    }
}

#[test]
fn dispatch_get_markets() {
    let frame = r#"{"action":"getMarkets","response":[
        {"status":"trading","base":"BTC","quote":"EUR","market":"BTC-EUR",
         "pricePrecision":5,"minOrderInQuoteAsset":"10","orderTypes":["limit","market"]}]}"#;
    match decode_event(frame).unwrap() {
        BitvavoEvent::Markets(ms) => {
            assert_eq!(ms.len(), 1);
            assert_eq!(ms[0].market, "BTC-EUR");
            assert_eq!(ms[0].price_precision, Some(5));
            assert_eq!(ms[0].min_order_in_base_asset, None);
            assert_eq!(
                ms[0].order_types.as_ref().unwrap(),
                &vec!["limit".to_string(), "market".to_string()]
            );
        }
        _ => panic!("expected a markets event"),
    }
}

#[test]
fn dispatch_get_ticker_book() {
    let frame = r#"{"action":"getTickerBook","response":
        {"market":"BTC-EUR","bid":"1","ask":"2","bidSize":"3","askSize":"4"}}"#;
    match decode_event(frame).unwrap() {
        BitvavoEvent::TickerBook(tb) => {
            assert_eq!(tb.action, "getTickerBook");
            assert_eq!(tb.response.bid.to_wire_string(), "1");
        }
        _ => panic!("expected a ticker book event"),
    }
}

#[test]
fn dispatch_get_book_action() {
    let frame = r#"{"action":"getBook","response":
        {"nonce":7,"bids":[["10","1"]],"asks":[]}}"#;
    match decode_event(frame).unwrap() {
        BitvavoEvent::Book(book) => {
            assert_eq!(book.nonce, 7);
            assert_eq!(book.bids.len(), 1);
            assert_eq!(book.asks.len(), 0);
        }
        _ => panic!("expected a book event"),
    }
}

#[test]
fn dispatch_balances_reshapes_last_wins() {
    let frame = r#"{"action":"privateGetBalance","response":[
        {"symbol":"BTC","available":"1.5","inOrder":"0"},
        {"symbol":"EUR","available":"100","inOrder":"0"},
        {"symbol":"BTC","available":"2.5","inOrder":"0.5"}]}"#;
    match decode_event(frame).unwrap() {
        BitvavoEvent::Balances(bs) => {
            assert_eq!(bs.len(), 2);
            assert_eq!(bs[0].symbol, "BTC");
            assert_eq!(bs[0].available.to_wire_string(), "2.5");
            assert_eq!(bs[0].in_order.to_wire_string(), "0.5");
            assert_eq!(bs[1].symbol, "EUR");
        }
        _ => panic!("expected a balances event"),
    }
}

#[test]
fn dispatch_subscribe_ack_and_rejection() {
    let ok = r#"{"action":"subscribe","response":{}}"#;
    assert!(matches!(
        decode_event(ok).unwrap(),
        BitvavoEvent::Subscribed
    ));
    let rejected = r#"{"action":"subscribe","error":"no such channel"}"#;
    match decode_event(rejected) {
        Err(DecodeError::SubscriptionRejected(e)) => assert_eq!(e, "no such channel"),
        other => panic!("unexpected: {:?}", other),
    }
}

#[test]
fn dispatch_unknown_action() {
    let frame = r#"{"action":"doSomething"}"#;
    match decode_event(frame) {
        Err(DecodeError::UnknownActionType(name)) => assert_eq!(name, "doSomething"),
        other => panic!("unexpected: {:?}", other),
    }
}

#[test]
fn unrecognized_frame_shape_is_an_error_not_a_panic() {
    let frame = r#"{"foo":"bar"}"#;
    assert!(matches!(
        decode_event(frame),
        Err(DecodeError::UnrecognizedFrame)
    ));
}

#[test]
fn non_object_frames_are_skipped() {
    assert!(matches!(
        decode_event("[1,2,3]"),
        Err(DecodeError::NotAnObject)
    ));
    assert!(matches!(decode_event(""), Err(DecodeError::NotAnObject)));
}

#[test]
fn malformed_json_is_reported() {
    match decode_event("{\"event\":") {
        Err(DecodeError::MalformedJson(cause)) => assert_eq!(cause, "json: syntax error"),
        other => panic!("unexpected: {:?}", other),
    }
}

#[test]
fn trailing_text_names_the_position() {
    match decode_event("{} x") {
        Err(DecodeError::MalformedJson(cause)) => {
            assert_eq!(cause, "json: trailing text at character 3")
        }
        other => panic!("unexpected: {:?}", other),
    }
}

#[test]
fn half_present_ticker_side_is_rejected() {
    let no_size = r#"{"event":"ticker","market":"BTC-EUR","bestBid":"11"}"#;
    match decode_event(no_size) {
        Err(DecodeError::UnparseableTicker(cause)) => {
            assert_eq!(cause, "ticker: unpaired bestBid fields")
        }
        other => panic!("unexpected: {:?}", other),
    }
    let no_price = r#"{"event":"ticker","market":"BTC-EUR","bestAskSize":"2"}"#;
    match decode_event(no_price) {
        Err(DecodeError::UnparseableTicker(cause)) => {
            assert_eq!(cause, "ticker: unpaired bestAsk fields")
        }
        other => panic!("unexpected: {:?}", other),
    }
}

#[test]
fn invalid_decimal_fails_the_whole_frame() {
    let frame = r#"{"event":"trade","timestamp":1,"id":"x","amount":"abc","price":"1","side":"buy"}"#;
    assert!(matches!(
        decode_event(frame),
        Err(DecodeError::InvalidDecimal)
    ));
}

#[test]
fn event_name_unescapes() {
    let frame = r#"{"event":"bogusA"}"#;
    match decode_event(frame) {
        Err(DecodeError::UnknownEvent(name)) => assert_eq!(name, "bogusA"),
        other => panic!("unexpected: {:?}", other),
    }
}

#[test]
fn json_strings_decode_surrogate_pairs() {
    let value = parse_json_text(r#""😀""#).unwrap();
    match value {
        JsonValue::Str(s) => assert_eq!(s, "\u{1f600}"),
        _ => panic!("expected a string"),
    }
}

#[test]
fn json_rejects_lone_surrogates_and_trailing_garbage() {
    assert!(parse_json_text(r#""\ud83d""#).is_none());
    assert!(parse_json_text("{} extra").is_none());
    assert!(parse_json_text("[1,]").is_none());
    assert!(parse_json_text("01").is_none());
}

#[test]
fn nesting_beyond_the_depth_limit_is_rejected() {
    let mut deep = String::new();
    for _ in 0..200 {
        deep.push('[');
    }
    for _ in 0..200 {
        deep.push(']');
    }
    assert!(parse_json_text(&deep).is_none());
    let mut shallow = String::new();
    for _ in 0..50 {
        shallow.push('[');
    }
    for _ in 0..50 {
        shallow.push(']');
    }
    assert!(parse_json_text(&shallow).is_some());
}

#[test]
fn numbers_beyond_machine_integers_keep_only_their_shape() {
    let value = parse_json_text("123456789012345678901234567890").unwrap();
    assert!(matches!(value, JsonValue::OtherNumber));
    let value = parse_json_text("-9223372036854775808").unwrap();
    assert!(matches!(value, JsonValue::Int(i64::MIN)));
    let value = parse_json_text("1.5e3").unwrap();
    assert!(matches!(value, JsonValue::OtherNumber));
}

#[test]
fn ticker24h_missing_field_is_unparseable() {
    let frame = r#"{"event":"ticker24h","market":"BTC-EUR"}"#;
    match decode_event(frame) {
        Err(DecodeError::UnparseableTicker(cause)) => assert_eq!(cause, "ticker24h: timestamp"),
        other => panic!("unexpected: {:?}", other),
    }
}
