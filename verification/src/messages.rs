//! Builders for the outbound command messages: static JSON templates with
//! the market, interval and order fields filled in, each builder's exact
//! output stated in its contract.

use crate::decimal::Decimal;
use crate::events::Side;
use crate::json::json_escape;
use vstd::prelude::*;

verus! {

// ---------------------------------------------------------------------------
// Subscriptions
// ---------------------------------------------------------------------------

/// Chooses the channels of one market to subscribe to.
pub struct SubscriptionBuilder {
    pub market: String,
    pub trades: bool,
    pub account: bool,
    pub book: bool,
    pub ticker: bool,
    pub candles: bool,
    pub candles_interval: &'static str,
}

impl SubscriptionBuilder {
    pub fn with_market(self, market: String) -> (r: SubscriptionBuilder)
        ensures
            r.market@ == market@,
            r.trades == self.trades,
            r.account == self.account,
            r.book == self.book,
            r.ticker == self.ticker,
            r.candles == self.candles,
            r.candles_interval@ == self.candles_interval@,
    {
        SubscriptionBuilder { market, ..self }
    }

    pub fn with_trades(self) -> (r: SubscriptionBuilder)
        ensures
            r.market@ == self.market@,
            r.trades,
            r.account == self.account,
            r.book == self.book,
            r.ticker == self.ticker,
            r.candles == self.candles,
            r.candles_interval@ == self.candles_interval@,
    {
        SubscriptionBuilder { trades: true, ..self }
    }

    pub fn with_account(self) -> (r: SubscriptionBuilder)
        ensures
            r.market@ == self.market@,
            r.trades == self.trades,
            r.account,
            r.book == self.book,
            r.ticker == self.ticker,
            r.candles == self.candles,
            r.candles_interval@ == self.candles_interval@,
    {
        SubscriptionBuilder { account: true, ..self }
    }

    pub fn with_book(self) -> (r: SubscriptionBuilder)
        ensures
            r.market@ == self.market@,
            r.trades == self.trades,
            r.account == self.account,
            r.book,
            r.ticker == self.ticker,
            r.candles == self.candles,
            r.candles_interval@ == self.candles_interval@,
    {
        SubscriptionBuilder { book: true, ..self }
    }

    pub fn with_ticker(self) -> (r: SubscriptionBuilder)
        ensures
            r.market@ == self.market@,
            r.trades == self.trades,
            r.account == self.account,
            r.book == self.book,
            r.ticker,
            r.candles == self.candles,
            r.candles_interval@ == self.candles_interval@,
    {
        SubscriptionBuilder { ticker: true, ..self }
    }

    pub fn with_candles(self, interval: &'static str) -> (r: SubscriptionBuilder)
        ensures
            r.market@ == self.market@,
            r.trades == self.trades,
            r.account == self.account,
            r.book == self.book,
            r.ticker == self.ticker,
            r.candles,
            r.candles_interval@ == interval@,
    {
        SubscriptionBuilder { candles: true, candles_interval: interval, ..self }
    }

    /// The subscribe command this builder stands for.
    pub fn build_message(&self) -> (r: String)
        ensures
            r@ == spec_subscribe_message(self),
    {
        let mut parts: Vec<String> = Vec::new();
        if self.trades {
            parts.push(channel_entry("trades", self.market.as_str()));
        }
        if self.account {
            parts.push(channel_entry("account", self.market.as_str()));
        }
        if self.book {
            parts.push(channel_entry("book", self.market.as_str()));
        }
        if self.ticker {
            parts.push(channel_entry("ticker", self.market.as_str()));
        }
        if self.candles {
            parts.push(candles_entry(self.candles_interval, self.market.as_str()));
        }
        proof {
            assert(crate::events::strings_model(parts@) =~= channel_parts(self));
        }
        let mut out = String::from_str("{\"action\":\"subscribe\",\"channels\":[");
        let joined_parts = join_comma(&parts);
        out.append(joined_parts.as_str());
        out.append("]}");
        out
    }
}

impl Default for SubscriptionBuilder {
    /// The default choice: no market and no channels.
    fn default() -> (r: SubscriptionBuilder)
        ensures
            r.market@ == Seq::<char>::empty(),
            !r.trades && !r.account && !r.book && !r.ticker && !r.candles,
            r.candles_interval@ == Seq::<char>::empty(),
    {
        proof {
            reveal_strlit("");
        }
        SubscriptionBuilder {
            market: String::new(),
            trades: false,
            account: false,
            book: false,
            ticker: false,
            candles: false,
            candles_interval: "",
        }
    }
}

/// One channel object of a subscribe command.
pub open spec fn channel_part(name: Seq<char>, market: Seq<char>) -> Seq<char> {
    "{\"name\":\""@ + name + "\",\"markets\":[\""@ + json_escape(market) + "\"]}"@
}

/// The candles channel object, which also carries the interval.
pub open spec fn candles_part(interval: Seq<char>, market: Seq<char>) -> Seq<char> {
    "{\"name\":\"candles\",\"interval\":[\""@ + json_escape(interval) + "\"],\"markets\":[\""@
        + json_escape(market) + "\"]}"@
}

/// The channel objects a builder asks for, in a fixed order.
pub open spec fn channel_parts(b: &SubscriptionBuilder) -> Seq<Seq<char>> {
    let l: Seq<Seq<char>> = Seq::empty();
    let l = if b.trades {
        l.push(channel_part("trades"@, b.market@))
    } else {
        l
    };
    let l = if b.account {
        l.push(channel_part("account"@, b.market@))
    } else {
        l
    };
    let l = if b.book {
        l.push(channel_part("book"@, b.market@))
    } else {
        l
    };
    let l = if b.ticker {
        l.push(channel_part("ticker"@, b.market@))
    } else {
        l
    };
    if b.candles {
        l.push(candles_part(b.candles_interval@, b.market@))
    } else {
        l
    }
}

/// Texts joined with commas.
pub open spec fn joined(parts: Seq<Seq<char>>) -> Seq<char>
    decreases parts.len(),
{
    if parts.len() == 0 {
        Seq::empty()
    } else if parts.len() == 1 {
        parts[0]
    } else {
        joined(parts.drop_last()) + ","@ + parts.last()
    }
}

pub open spec fn spec_subscribe_message(b: &SubscriptionBuilder) -> Seq<char> {
    "{\"action\":\"subscribe\",\"channels\":["@ + joined(channel_parts(b)) + "]}"@
}

fn channel_entry(name: &str, market: &str) -> (r: String)
    ensures
        r@ == channel_part(name@, market@),
{
    let mut s = String::from_str("{\"name\":\"");
    s.append(name);
    s.append("\",\"markets\":[\"");
    let esc = crate::json::escape_json_string(market);
    s.append(esc.as_str());
    s.append("\"]}");
    s
}

fn candles_entry(interval: &str, market: &str) -> (r: String)
    ensures
        r@ == candles_part(interval@, market@),
{
    let mut s = String::from_str("{\"name\":\"candles\",\"interval\":[\"");
    let esc_i = crate::json::escape_json_string(interval);
    s.append(esc_i.as_str());
    s.append("\"],\"markets\":[\"");
    let esc_m = crate::json::escape_json_string(market);
    s.append(esc_m.as_str());
    s.append("\"]}");
    s
}

/// Joins texts with commas.
fn join_comma(parts: &Vec<String>) -> (r: String)
    ensures
        r@ == joined(crate::events::strings_model(parts@)),
{
    let ghost ps = crate::events::strings_model(parts@);
    let mut out = String::new();
    let mut idx: usize = 0;
    proof {
        assert(ps.take(0) =~= Seq::<Seq<char>>::empty());
    }
    while idx < parts.len()
        invariant
            idx <= parts@.len(),
            ps == crate::events::strings_model(parts@),
            ps.len() == parts@.len(),
            forall|i: int| 0 <= i < ps.len() ==> ps[i] == parts@[i]@,
            out@ == joined(ps.take(idx as int)),
        decreases parts@.len() - idx,
    {
        if idx > 0 {
            out.append(",");
        }
        out.append(parts[idx].as_str());
        idx = idx + 1;
        proof {
            assert(ps.take(idx as int).drop_last() =~= ps.take(idx as int - 1));
            assert(ps.take(idx as int).last() == ps[idx as int - 1]);
            if idx == 1 {
                assert(joined(ps.take(1)) == ps[0]);
            }
        }
    }
    proof {
        assert(ps.take(parts@.len() as int) =~= ps);
    }
    out
}

// ---------------------------------------------------------------------------
// Request/reply commands
// ---------------------------------------------------------------------------

/// The side's name inside an order command.
pub open spec fn side_name(side: Side) -> Seq<char> {
    if side == Side::Buy {
        "buy"@
    } else {
        "sell"@
    }
}

pub open spec fn spec_get_book_message(market: Seq<char>) -> Seq<char> {
    "{\"action\":\"getBook\",\"market\":\""@ + json_escape(market) + "\"}"@
}

/// The command asking for one market's book snapshot.
pub fn build_get_book_message(market: &str) -> (r: String)
    ensures
        r@ == spec_get_book_message(market@),
{
    let mut s = String::from_str("{\"action\":\"getBook\",\"market\":\"");
    let esc = crate::json::escape_json_string(market);
    s.append(esc.as_str());
    s.append("\"}");
    s
}

/// The command asking for the market list.
pub fn build_get_markets_message() -> (r: String)
    ensures
        r@ == "{\"action\":\"getMarkets\"}"@,
{
    String::from_str("{\"action\":\"getMarkets\"}")
}

/// The command asking for all nonzero balances.
pub fn build_get_balances_message() -> (r: String)
    ensures
        r@ == "{\"action\":\"privateGetBalance\"}"@,
{
    String::from_str("{\"action\":\"privateGetBalance\"}")
}

pub open spec fn spec_limit_order_message(
    market: Seq<char>,
    side: Side,
    amount: Seq<char>,
    price: Seq<char>,
) -> Seq<char> {
    "{\"action\":\"placeOrder\",\"market\":\""@ + json_escape(market) + "\",\"side\":\""@
        + side_name(side) + "\",\"orderType\":\"limit\",\"amount\":\""@ + json_escape(amount)
        + "\",\"price\":\""@ + json_escape(price) + "\"}"@
}

/// The command placing a limit order; the amount and price go out in their
/// exact wire form.
pub fn build_limit_order_message(market: &str, side: Side, amount: &Decimal, price: &Decimal) -> (r:
    String)
    ensures
        r@ == spec_limit_order_message(market@, side, amount@.text, price@.text),
{
    let mut s = String::from_str("{\"action\":\"placeOrder\",\"market\":\"");
    let esc_m = crate::json::escape_json_string(market);
    s.append(esc_m.as_str());
    s.append("\",\"side\":\"");
    let side_str = side.wire_name();
    s.append(side_str.as_str());
    s.append("\",\"orderType\":\"limit\",\"amount\":\"");
    let amount_text = amount.to_wire_string();
    let esc_a = crate::json::escape_json_string(amount_text.as_str());
    s.append(esc_a.as_str());
    s.append("\",\"price\":\"");
    let price_text = price.to_wire_string();
    let esc_p = crate::json::escape_json_string(price_text.as_str());
    s.append(esc_p.as_str());
    s.append("\"}");
    s
}

pub open spec fn spec_market_order_message(
    market: Seq<char>,
    side: Side,
    amount: Seq<char>,
) -> Seq<char> {
    "{\"action\":\"placeOrder\",\"market\":\""@ + json_escape(market) + "\",\"side\":\""@
        + side_name(side) + "\",\"orderType\":\"market\",\"amount\":\""@ + json_escape(amount)
        + "\"}"@
}

/// The command placing a market order.
pub fn build_market_order_message(market: &str, side: Side, amount: &Decimal) -> (r: String)
    ensures
        r@ == spec_market_order_message(market@, side, amount@.text),
{
    let mut s = String::from_str("{\"action\":\"placeOrder\",\"market\":\"");
    let esc_m = crate::json::escape_json_string(market);
    s.append(esc_m.as_str());
    s.append("\",\"side\":\"");
    let side_str = side.wire_name();
    s.append(side_str.as_str());
    s.append("\",\"orderType\":\"market\",\"amount\":\"");
    let amount_text = amount.to_wire_string();
    let esc_a = crate::json::escape_json_string(amount_text.as_str());
    s.append(esc_a.as_str());
    s.append("\"}");
    s
}

pub open spec fn spec_cancel_order_message(order_id: Seq<char>) -> Seq<char> {
    "{\"action\":\"cancelOrder\",\"orderId\":\""@ + json_escape(order_id) + "\"}"@
}

/// The command cancelling one order.
pub fn build_cancel_order_message(order_id: &str) -> (r: String)
    ensures
        r@ == spec_cancel_order_message(order_id@),
{
    let mut s = String::from_str("{\"action\":\"cancelOrder\",\"orderId\":\"");
    let esc = crate::json::escape_json_string(order_id);
    s.append(esc.as_str());
    s.append("\"}");
    s
}

/// The command cancelling every order.
pub fn build_cancel_all_message() -> (r: String)
    ensures
        r@ == "{\"action\":\"cancelOrders\"}"@,
{
    String::from_str("{\"action\":\"cancelOrders\"}")
}

pub open spec fn spec_cancel_all_in_market_message(market: Seq<char>) -> Seq<char> {
    "{\"action\":\"cancelOrders\",\"market\":\""@ + json_escape(market) + "\"}"@
}

/// The command cancelling every order within one market.
pub fn build_cancel_all_in_market_message(market: &str) -> (r: String)
    ensures
        r@ == spec_cancel_all_in_market_message(market@),
{
    let mut s = String::from_str("{\"action\":\"cancelOrders\",\"market\":\"");
    let esc = crate::json::escape_json_string(market);
    s.append(esc.as_str());
    s.append("\"}");
    s
}

} // verus!
