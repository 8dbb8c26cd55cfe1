use bitvavo_ws::decimal::Decimal;
use bitvavo_ws::events::Side;
use bitvavo_ws::messages::{
    build_cancel_all_in_market_message, build_cancel_all_message, build_cancel_order_message,
    build_get_balances_message, build_get_book_message, build_get_markets_message,
    build_limit_order_message, build_market_order_message, SubscriptionBuilder,
};
use bitvavo_ws::sig::{create_signature, AuthRequest};

#[test]
fn subscribe_message_lists_chosen_channels() {
    let builder = SubscriptionBuilder::default()
        .with_market("BTC-EUR".to_string())
        .with_ticker()
        .with_trades()
        .with_candles("1h");
    let msg = builder.build_message();
    assert_eq!(
        msg,
        "{\"action\":\"subscribe\",\"channels\":[\
         {\"name\":\"trades\",\"markets\":[\"BTC-EUR\"]},\
         {\"name\":\"ticker\",\"markets\":[\"BTC-EUR\"]},\
         {\"name\":\"candles\",\"interval\":[\"1h\"],\"markets\":[\"BTC-EUR\"]}]}"
    );
}

#[test]
fn subscribe_message_with_no_channels_is_empty() {
    let builder = SubscriptionBuilder::default().with_market("BTC-EUR".to_string());
    assert_eq!(
        builder.build_message(),
        "{\"action\":\"subscribe\",\"channels\":[]}"
    );
}

#[test]
fn request_messages_are_exact() {
    assert_eq!(
        build_get_book_message("BTC-EUR"),
        "{\"action\":\"getBook\",\"market\":\"BTC-EUR\"}"
    );
    assert_eq!(build_get_markets_message(), "{\"action\":\"getMarkets\"}");
    assert_eq!(
        build_get_balances_message(),
        "{\"action\":\"privateGetBalance\"}"
    );
    assert_eq!(
        build_cancel_order_message("o-1"),
        "{\"action\":\"cancelOrder\",\"orderId\":\"o-1\"}"
    );
    assert_eq!(build_cancel_all_message(), "{\"action\":\"cancelOrders\"}");
    assert_eq!(
        build_cancel_all_in_market_message("BTC-EUR"),
        "{\"action\":\"cancelOrders\",\"market\":\"BTC-EUR\"}"
    );
}

#[test]
fn order_messages_carry_exact_wire_decimals() {
    let amount = Decimal::parse("0.50").unwrap();
    let price = Decimal::parse("30000.1").unwrap();
    assert_eq!(
        build_limit_order_message("BTC-EUR", Side::Buy, &amount, &price),
        "{\"action\":\"placeOrder\",\"market\":\"BTC-EUR\",\"side\":\"buy\",\
         \"orderType\":\"limit\",\"amount\":\"0.50\",\"price\":\"30000.1\"}"
    );
    assert_eq!(
        build_market_order_message("BTC-EUR", Side::Sell, &amount),
        "{\"action\":\"placeOrder\",\"market\":\"BTC-EUR\",\"side\":\"sell\",\
         \"orderType\":\"market\",\"amount\":\"0.50\"}"
    );
}

#[test]
fn market_names_are_escaped() {
    let msg = build_get_book_message("A\"B\\C");
    assert_eq!(
        msg,
        "{\"action\":\"getBook\",\"market\":\"A\\\"B\\\\C\"}"
    );
}

#[test]
fn signature_matches_a_known_hmac_vector() {
    let body: Vec<(String, String)> = Vec::new();
    let sig = create_signature("1700000000000", "GET", "/websocket", &body, "test-secret");
    assert_eq!(
        sig,
        "312d63582247d46c6c52219e945a0f54df4a10ba07ed11ec26517bc463432c2f"
    );
}

#[test]
fn signature_covers_the_body_when_present() {
    let body = vec![("a".to_string(), "b".to_string())];
    let sig = create_signature("1", "GET", "/x", &body, "test-secret");
    assert_eq!(
        sig,
        "c7c18b8439364ffb15540fb49b39a267ae6ffba30d1ee4956f18911c162df612"
    );
}

#[test]
fn auth_request_carries_key_and_window() {
    let req = AuthRequest::make("api-key", "api-secret");
    assert_eq!(req.action, "authenticate");
    assert_eq!(req.key, "api-key");
    assert_eq!(req.window, "1500");
    assert_eq!(req.signature.len(), 64);
    assert!(req.signature.chars().all(|c| c.is_ascii_hexdigit()));
    let msg = req.to_json_message();
    assert!(msg.starts_with("{\"action\":\"authenticate\",\"key\":\"api-key\",\"signature\":\""));
    assert!(msg.ends_with(&format!(
        "\",\"timestamp\":{},\"window\":\"1500\"}}",
        req.timestamp
    )));
}
