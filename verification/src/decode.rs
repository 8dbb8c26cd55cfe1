//! The decoder: classifies one raw text frame by its discriminator field
//! and produces a typed domain event or a typed decode failure.
//!
//! Decoding is a pure function from text to `Result<BitvavoEvent,
//! DecodeError>`: it never panics and never terminates the caller's
//! processing loop.  Its whole behaviour is specified by [`spec_decode`].

use crate::decimal::numeral_fits;
use crate::decimal::numeral_model;
use crate::decimal::valid_numeral;
use crate::decimal::Decimal;
use crate::decimal::DecimalModel;
use crate::events::Balance;
use crate::events::BalanceModel;
use crate::events::BitvavoEvent;
use crate::events::Book;
use crate::events::BookModel;
use crate::events::Candle;
use crate::events::CandleModel;
use crate::events::EventModel;
use crate::events::Market;
use crate::events::MarketModel;
use crate::events::PriceLevel;
use crate::events::PriceLevelModel;
use crate::events::Side;
use crate::events::Ticker;
use crate::events::Ticker24h;
use crate::events::Ticker24hModel;
use crate::events::TickerBook;
use crate::events::TickerBookModel;
use crate::events::TickerBookResponse;
use crate::events::TickerBookResponseModel;
use crate::events::TickerModel;
use crate::events::Trade;
use crate::events::TradeModel;
use crate::json::obj_lookup;
use crate::json::obj_model;
use crate::json::parse_json;
use crate::json::JsonSpec;
use crate::json::JsonValue;
use vstd::prelude::*;
use vstd::string::StrSliceExecFns;

verus! {

// ---------------------------------------------------------------------------
// Decode failures
// ---------------------------------------------------------------------------

pub enum DecodeErrorModel {
    InvalidDecimal,
    MalformedJson(Seq<char>),
    NotAnObject,
    UnknownEvent(Seq<char>),
    UnknownActionType(Seq<char>),
    UnparseableTicker(Seq<char>),
    SubscriptionRejected(Seq<char>),
    UnrecognizedFrame,
}

/// Why a frame was not decoded.  None of these failures is fatal to the
/// caller's processing loop.
#[derive(Debug, PartialEq, Eq)]
pub enum DecodeError {
    /// A price, quantity or balance field was not a well-formed decimal
    /// numeral within the supported precision.
    InvalidDecimal,
    /// The frame was not valid JSON, or a field had the wrong shape.
    MalformedJson(String),
    /// The frame's top-level value was not a JSON object.
    NotAnObject,
    /// The `event` discriminator named no known event.
    UnknownEvent(String),
    /// The `action` discriminator named no known action.
    UnknownActionType(String),
    /// A ticker frame matched its discriminator but failed structurally.
    UnparseableTicker(String),
    /// The exchange rejected a subscribe command.
    SubscriptionRejected(String),
    /// The frame carried neither an `event` nor an `action` field.
    UnrecognizedFrame,
}

impl View for DecodeError {
    type V = DecodeErrorModel;

    open spec fn view(&self) -> DecodeErrorModel {
        match self {
            DecodeError::InvalidDecimal => DecodeErrorModel::InvalidDecimal,
            DecodeError::MalformedJson(c) => DecodeErrorModel::MalformedJson(c@),
            DecodeError::NotAnObject => DecodeErrorModel::NotAnObject,
            DecodeError::UnknownEvent(n) => DecodeErrorModel::UnknownEvent(n@),
            DecodeError::UnknownActionType(n) => DecodeErrorModel::UnknownActionType(n@),
            DecodeError::UnparseableTicker(c) => DecodeErrorModel::UnparseableTicker(c@),
            DecodeError::SubscriptionRejected(e) => DecodeErrorModel::SubscriptionRejected(e@),
            DecodeError::UnrecognizedFrame => DecodeErrorModel::UnrecognizedFrame,
        }
    }
}

// ---------------------------------------------------------------------------
// Field shapes, specified
// ---------------------------------------------------------------------------

/// A decimal field: a JSON string holding a valid numeral.  Any other JSON
/// type fails, which is why the protocol sends every quantity as a string.
pub open spec fn spec_decimal_of(v: JsonSpec) -> Result<DecimalModel, DecodeErrorModel> {
    match v {
        JsonSpec::Str(t) => if valid_numeral(t) && numeral_fits(t) {
            Ok(numeral_model(t))
        } else {
            Err(DecodeErrorModel::InvalidDecimal)
        },
        _ => Err(DecodeErrorModel::InvalidDecimal),
    }
}

/// A price level: a two-element array of decimal strings.
pub open spec fn spec_level_of(v: JsonSpec) -> Result<PriceLevelModel, DecodeErrorModel> {
    match v {
        JsonSpec::Arr(items) => if items.len() != 2 {
            Err(DecodeErrorModel::MalformedJson("price level: expected two elements"@))
        } else {
            match spec_decimal_of(items[0]) {
                Ok(p) => match spec_decimal_of(items[1]) {
                    Ok(q) => Ok(PriceLevelModel { price: p, quantity: q }),
                    Err(e) => Err(e),
                },
                Err(e) => Err(e),
            }
        },
        _ => Err(DecodeErrorModel::MalformedJson("price level: expected an array"@)),
    }
}

pub open spec fn spec_levels_of(items: Seq<JsonSpec>) -> Result<
    Seq<PriceLevelModel>,
    DecodeErrorModel,
>
    decreases items.len(),
{
    if items.len() == 0 {
        Ok(Seq::empty())
    } else {
        match spec_level_of(items[0]) {
            Ok(l) => match spec_levels_of(items.subrange(1, items.len() as int)) {
                Ok(rest) => Ok(seq![l] + rest),
                Err(e) => Err(e),
            },
            Err(e) => Err(e),
        }
    }
}

/// A required decimal field of an object.
pub open spec fn spec_req_decimal(
    m: Seq<(Seq<char>, JsonSpec)>,
    key: Seq<char>,
    cause: Seq<char>,
) -> Result<DecimalModel, DecodeErrorModel> {
    match obj_lookup(m, key) {
        Some(v) => spec_decimal_of(v),
        None => Err(DecodeErrorModel::MalformedJson(cause)),
    }
}

/// A required string field of an object.
pub open spec fn spec_req_str(
    m: Seq<(Seq<char>, JsonSpec)>,
    key: Seq<char>,
    e: DecodeErrorModel,
) -> Result<Seq<char>, DecodeErrorModel> {
    match obj_lookup(m, key) {
        Some(JsonSpec::Str(t)) => Ok(t),
        _ => Err(e),
    }
}

/// A required nonnegative integer field of an object.
pub open spec fn spec_req_timestamp(
    m: Seq<(Seq<char>, JsonSpec)>,
    key: Seq<char>,
    e: DecodeErrorModel,
) -> Result<int, DecodeErrorModel> {
    match obj_lookup(m, key) {
        Some(JsonSpec::Int(n)) => if n >= 0 {
            Ok(n)
        } else {
            Err(e)
        },
        _ => Err(e),
    }
}

/// A book snapshot's fields.
pub open spec fn spec_book_of(m: Seq<(Seq<char>, JsonSpec)>) -> Result<
    BookModel,
    DecodeErrorModel,
> {
    match obj_lookup(m, "nonce"@) {
        Some(JsonSpec::Int(n)) => match obj_lookup(m, "bids"@) {
            Some(JsonSpec::Arr(bids)) => match obj_lookup(m, "asks"@) {
                Some(JsonSpec::Arr(asks)) => match spec_levels_of(bids) {
                    Ok(bl) => match spec_levels_of(asks) {
                        Ok(al) => Ok(BookModel { nonce: n, bids: bl, asks: al }),
                        Err(e) => Err(e),
                    },
                    Err(e) => Err(e),
                },
                _ => Err(DecodeErrorModel::MalformedJson("book: asks"@)),
            },
            _ => Err(DecodeErrorModel::MalformedJson("book: bids"@)),
        },
        _ => Err(DecodeErrorModel::MalformedJson("book: nonce"@)),
    }
}

/// A candle frame: the first entry of the single-element batch the exchange
/// pushes, shaped `[timestamp, open, high, low, close, volume]`.
pub open spec fn spec_candle_of(m: Seq<(Seq<char>, JsonSpec)>) -> Result<
    CandleModel,
    DecodeErrorModel,
> {
    match obj_lookup(m, "candle"@) {
        Some(JsonSpec::Arr(batch)) => if batch.len() == 0 {
            Err(DecodeErrorModel::MalformedJson("candle: empty batch"@))
        } else {
            match batch[0] {
                JsonSpec::Arr(cols) => if cols.len() != 6 {
                    Err(DecodeErrorModel::MalformedJson("candle: expected six entries"@))
                } else {
                    match cols[0] {
                        JsonSpec::Int(ts) => if ts < 0 {
                            Err(DecodeErrorModel::MalformedJson("candle: timestamp"@))
                        } else {
                            match spec_decimal_of(cols[1]) {
                                Ok(o) => match spec_decimal_of(cols[2]) {
                                    Ok(h) => match spec_decimal_of(cols[3]) {
                                        Ok(l) => match spec_decimal_of(cols[4]) {
                                            Ok(c) => match spec_decimal_of(cols[5]) {
                                                Ok(vol) => Ok(
                                                    CandleModel {
                                                        timestamp: ts,
                                                        open: o,
                                                        high: h,
                                                        low: l,
                                                        close: c,
                                                        volume: vol,
                                                    },
                                                ),
                                                Err(e) => Err(e),
                                            },
                                            Err(e) => Err(e),
                                        },
                                        Err(e) => Err(e),
                                    },
                                    Err(e) => Err(e),
                                },
                                Err(e) => Err(e),
                            }
                        },
                        _ => Err(DecodeErrorModel::MalformedJson("candle: timestamp"@)),
                    }
                },
                _ => Err(DecodeErrorModel::MalformedJson("candle: entry"@)),
            }
        },
        _ => Err(DecodeErrorModel::MalformedJson("candle: payload"@)),
    }
}

/// A trade frame's fields.
pub open spec fn spec_trade_of(m: Seq<(Seq<char>, JsonSpec)>) -> Result<
    TradeModel,
    DecodeErrorModel,
> {
    match spec_req_timestamp(m, "timestamp"@, DecodeErrorModel::MalformedJson("trade: timestamp"@)) {
        Ok(ts) => match spec_req_str(m, "id"@, DecodeErrorModel::MalformedJson("trade: id"@)) {
            Ok(id) => match spec_req_decimal(m, "amount"@, "trade: amount"@) {
                Ok(amount) => match spec_req_decimal(m, "price"@, "trade: price"@) {
                    Ok(price) => match spec_side_of_members(m) {
                        Ok(side) => Ok(TradeModel { timestamp: ts, id, amount, price, side }),
                        Err(e) => Err(e),
                    },
                    Err(e) => Err(e),
                },
                Err(e) => Err(e),
            },
            Err(e) => Err(e),
        },
        Err(e) => Err(e),
    }
}

/// A side field: the string `buy` or `sell`.
pub open spec fn spec_side_of(v: JsonSpec) -> Result<Side, DecodeErrorModel> {
    match v {
        JsonSpec::Str(t) => if t == "buy"@ {
            Ok(Side::Buy)
        } else if t == "sell"@ {
            Ok(Side::Sell)
        } else {
            Err(DecodeErrorModel::MalformedJson("trade: side"@))
        },
        _ => Err(DecodeErrorModel::MalformedJson("trade: side"@)),
    }
}

pub open spec fn spec_side_of_members(m: Seq<(Seq<char>, JsonSpec)>) -> Result<
    Side,
    DecodeErrorModel,
> {
    match obj_lookup(m, "side"@) {
        Some(v) => spec_side_of(v),
        None => Err(DecodeErrorModel::MalformedJson("trade: side"@)),
    }
}

/// An optional decimal field of a ticker: absent or null means absent.
pub open spec fn spec_opt_decimal(
    m: Seq<(Seq<char>, JsonSpec)>,
    key: Seq<char>,
    cause: Seq<char>,
) -> Result<Option<DecimalModel>, DecodeErrorModel> {
    match obj_lookup(m, key) {
        None => Ok(None),
        Some(JsonSpec::Null) => Ok(None),
        Some(JsonSpec::Str(t)) => if valid_numeral(t) && numeral_fits(t) {
            Ok(Some(numeral_model(t)))
        } else {
            Err(DecodeErrorModel::InvalidDecimal)
        },
        Some(_) => Err(DecodeErrorModel::UnparseableTicker(cause)),
    }
}

/// A top-of-book ticker's fields.  A side may be absent, but only as a
/// whole: a price without its paired size (or the reverse) is a structural
/// mismatch and is rejected here, so that decoded tickers never carry a
/// half-present side.
pub open spec fn spec_ticker_of(m: Seq<(Seq<char>, JsonSpec)>) -> Result<
    TickerModel,
    DecodeErrorModel,
> {
    match spec_req_str(m, "market"@, DecodeErrorModel::UnparseableTicker("ticker: market"@)) {
        Ok(market) => match spec_opt_decimal(m, "bestBid"@, "ticker: bestBid"@) {
            Ok(bb) => match spec_opt_decimal(m, "bestBidSize"@, "ticker: bestBidSize"@) {
                Ok(bbs) => match spec_opt_decimal(m, "bestAsk"@, "ticker: bestAsk"@) {
                    Ok(ba) => match spec_opt_decimal(m, "bestAskSize"@, "ticker: bestAskSize"@) {
                        Ok(bas) => if (bb is Some) != (bbs is Some) {
                            Err(DecodeErrorModel::UnparseableTicker("ticker: unpaired bestBid fields"@))
                        } else if (ba is Some) != (bas is Some) {
                            Err(DecodeErrorModel::UnparseableTicker("ticker: unpaired bestAsk fields"@))
                        } else {
                            Ok(
                                TickerModel {
                                    market,
                                    best_bid: bb,
                                    best_bid_size: bbs,
                                    best_ask: ba,
                                    best_ask_size: bas,
                                },
                            )
                        },
                        Err(e) => Err(e),
                    },
                    Err(e) => Err(e),
                },
                Err(e) => Err(e),
            },
            Err(e) => Err(e),
        },
        Err(e) => Err(e),
    }
}

/// A required decimal field of a ticker frame.
pub open spec fn spec_ticker_decimal(
    m: Seq<(Seq<char>, JsonSpec)>,
    key: Seq<char>,
    cause: Seq<char>,
) -> Result<DecimalModel, DecodeErrorModel> {
    match obj_lookup(m, key) {
        Some(JsonSpec::Str(t)) => if valid_numeral(t) && numeral_fits(t) {
            Ok(numeral_model(t))
        } else {
            Err(DecodeErrorModel::InvalidDecimal)
        },
        _ => Err(DecodeErrorModel::UnparseableTicker(cause)),
    }
}

/// A 24-hour ticker's fields, all required.
pub open spec fn spec_ticker24h_of(m: Seq<(Seq<char>, JsonSpec)>) -> Result<
    Ticker24hModel,
    DecodeErrorModel,
> {
    match spec_req_str(m, "market"@, DecodeErrorModel::UnparseableTicker("ticker24h: market"@)) {
        Ok(market) => match spec_req_timestamp(
            m,
            "timestamp"@,
            DecodeErrorModel::UnparseableTicker("ticker24h: timestamp"@),
        ) {
            Ok(ts) => match spec_ticker_decimal(m, "open"@, "ticker24h: open"@) {
                Ok(open) => match spec_ticker_decimal(m, "high"@, "ticker24h: high"@) {
                    Ok(high) => match spec_ticker_decimal(m, "low"@, "ticker24h: low"@) {
                        Ok(low) => match spec_ticker_decimal(m, "last"@, "ticker24h: last"@) {
                            Ok(last) => match spec_ticker_decimal(
                                m,
                                "volume"@,
                                "ticker24h: volume"@,
                            ) {
                                Ok(volume) => match spec_ticker_decimal(
                                    m,
                                    "volumeQuote"@,
                                    "ticker24h: volumeQuote"@,
                                ) {
                                    Ok(volume_quote) => match spec_ticker_decimal(
                                        m,
                                        "bid"@,
                                        "ticker24h: bid"@,
                                    ) {
                                        Ok(bid) => match spec_ticker_decimal(
                                            m,
                                            "ask"@,
                                            "ticker24h: ask"@,
                                        ) {
                                            Ok(ask) => match spec_ticker_decimal(
                                                m,
                                                "bidSize"@,
                                                "ticker24h: bidSize"@,
                                            ) {
                                                Ok(bid_size) => match spec_ticker_decimal(
                                                    m,
                                                    "askSize"@,
                                                    "ticker24h: askSize"@,
                                                ) {
                                                    Ok(ask_size) => Ok(
                                                        Ticker24hModel {
                                                            market,
                                                            open,
                                                            high,
                                                            low,
                                                            last,
                                                            volume,
                                                            volume_quote,
                                                            bid,
                                                            ask,
                                                            timestamp: ts,
                                                            bid_size,
                                                            ask_size,
                                                        },
                                                    ),
                                                    Err(e) => Err(e),
                                                },
                                                Err(e) => Err(e),
                                            },
                                            Err(e) => Err(e),
                                        },
                                        Err(e) => Err(e),
                                    },
                                    Err(e) => Err(e),
                                },
                                Err(e) => Err(e),
                            },
                            Err(e) => Err(e),
                        },
                        Err(e) => Err(e),
                    },
                    Err(e) => Err(e),
                },
                Err(e) => Err(e),
            },
            Err(e) => Err(e),
        },
        Err(e) => Err(e),
    }
}

/// The requested best bid and ask of one market.
pub open spec fn spec_ticker_book_of(m: Seq<(Seq<char>, JsonSpec)>) -> Result<
    TickerBookModel,
    DecodeErrorModel,
> {
    match spec_req_str(m, "market"@, DecodeErrorModel::MalformedJson("tickerBook: market"@)) {
        Ok(market) => match spec_req_decimal(m, "bid"@, "tickerBook: bid"@) {
            Ok(bid) => match spec_req_decimal(m, "ask"@, "tickerBook: ask"@) {
                Ok(ask) => match spec_req_decimal(m, "bidSize"@, "tickerBook: bidSize"@) {
                    Ok(bid_size) => match spec_req_decimal(m, "askSize"@, "tickerBook: askSize"@) {
                        Ok(ask_size) => Ok(
                            TickerBookModel { market, bid, ask, bid_size, ask_size },
                        ),
                        Err(e) => Err(e),
                    },
                    Err(e) => Err(e),
                },
                Err(e) => Err(e),
            },
            Err(e) => Err(e),
        },
        Err(e) => Err(e),
    }
}

/// One market's metadata fields.
pub open spec fn spec_market_of(v: JsonSpec) -> Result<MarketModel, DecodeErrorModel> {
    match v {
        JsonSpec::Obj(mm) => match spec_req_str(
            mm,
            "status"@,
            DecodeErrorModel::MalformedJson("market: status"@),
        ) {
            Ok(status) => match spec_req_str(
                mm,
                "base"@,
                DecodeErrorModel::MalformedJson("market: base"@),
            ) {
                Ok(base) => match spec_req_str(
                    mm,
                    "quote"@,
                    DecodeErrorModel::MalformedJson("market: quote"@),
                ) {
                    Ok(quote) => match spec_req_str(
                        mm,
                        "market"@,
                        DecodeErrorModel::MalformedJson("market: market"@),
                    ) {
                        Ok(market) => match spec_opt_precision(mm) {
                            Ok(pp) => match spec_opt_str(
                                mm,
                                "minOrderInQuoteAsset"@,
                                "market: minOrderInQuoteAsset"@,
                            ) {
                                Ok(mq) => match spec_opt_str(
                                    mm,
                                    "minOrderInBaseAsset"@,
                                    "market: minOrderInBaseAsset"@,
                                ) {
                                    Ok(mb) => match spec_opt_order_types(mm) {
                                        Ok(ots) => Ok(
                                            MarketModel {
                                                status,
                                                base,
                                                quote,
                                                market,
                                                price_precision: pp,
                                                min_order_in_quote_asset: mq,
                                                min_order_in_base_asset: mb,
                                                order_types: ots,
                                            },
                                        ),
                                        Err(e) => Err(e),
                                    },
                                    Err(e) => Err(e),
                                },
                                Err(e) => Err(e),
                            },
                            Err(e) => Err(e),
                        },
                        Err(e) => Err(e),
                    },
                    Err(e) => Err(e),
                },
                Err(e) => Err(e),
            },
            Err(e) => Err(e),
        },
        _ => Err(DecodeErrorModel::MalformedJson("market: entry"@)),
    }
}

pub open spec fn spec_opt_precision(m: Seq<(Seq<char>, JsonSpec)>) -> Result<
    Option<int>,
    DecodeErrorModel,
> {
    match obj_lookup(m, "pricePrecision"@) {
        None => Ok(None),
        Some(JsonSpec::Null) => Ok(None),
        Some(JsonSpec::Int(n)) => if 0 <= n <= 0xffffffff {
            Ok(Some(n))
        } else {
            Err(DecodeErrorModel::MalformedJson("market: pricePrecision"@))
        },
        Some(_) => Err(DecodeErrorModel::MalformedJson("market: pricePrecision"@)),
    }
}

pub open spec fn spec_opt_str(
    m: Seq<(Seq<char>, JsonSpec)>,
    key: Seq<char>,
    cause: Seq<char>,
) -> Result<Option<Seq<char>>, DecodeErrorModel> {
    match obj_lookup(m, key) {
        None => Ok(None),
        Some(JsonSpec::Null) => Ok(None),
        Some(JsonSpec::Str(t)) => Ok(Some(t)),
        Some(_) => Err(DecodeErrorModel::MalformedJson(cause)),
    }
}

pub open spec fn spec_strings_of(items: Seq<JsonSpec>) -> Result<Seq<Seq<char>>, DecodeErrorModel>
    decreases items.len(),
{
    if items.len() == 0 {
        Ok(Seq::empty())
    } else {
        match items[0] {
            JsonSpec::Str(t) => match spec_strings_of(items.subrange(1, items.len() as int)) {
                Ok(rest) => Ok(seq![t] + rest),
                Err(e) => Err(e),
            },
            _ => Err(DecodeErrorModel::MalformedJson("market: orderTypes"@)),
        }
    }
}

pub open spec fn spec_opt_order_types(m: Seq<(Seq<char>, JsonSpec)>) -> Result<
    Option<Seq<Seq<char>>>,
    DecodeErrorModel,
> {
    match obj_lookup(m, "orderTypes"@) {
        None => Ok(None),
        Some(JsonSpec::Null) => Ok(None),
        Some(JsonSpec::Arr(items)) => match spec_strings_of(items) {
            Ok(ss) => Ok(Some(ss)),
            Err(e) => Err(e),
        },
        Some(_) => Err(DecodeErrorModel::MalformedJson("market: orderTypes"@)),
    }
}

pub open spec fn spec_markets_of(items: Seq<JsonSpec>) -> Result<Seq<MarketModel>, DecodeErrorModel>
    decreases items.len(),
{
    if items.len() == 0 {
        Ok(Seq::empty())
    } else {
        match spec_market_of(items[0]) {
            Ok(mk) => match spec_markets_of(items.subrange(1, items.len() as int)) {
                Ok(rest) => Ok(seq![mk] + rest),
                Err(e) => Err(e),
            },
            Err(e) => Err(e),
        }
    }
}

/// One balance entry's fields.
pub open spec fn spec_balance_of(v: JsonSpec) -> Result<BalanceModel, DecodeErrorModel> {
    match v {
        JsonSpec::Obj(mm) => match spec_req_str(
            mm,
            "symbol"@,
            DecodeErrorModel::MalformedJson("balance: symbol"@),
        ) {
            Ok(symbol) => match spec_req_decimal(mm, "available"@, "balance: available"@) {
                Ok(available) => match spec_req_decimal(mm, "inOrder"@, "balance: inOrder"@) {
                    Ok(in_order) => Ok(BalanceModel { symbol, available, in_order }),
                    Err(e) => Err(e),
                },
                Err(e) => Err(e),
            },
            Err(e) => Err(e),
        },
        _ => Err(DecodeErrorModel::MalformedJson("balance: entry"@)),
    }
}

pub open spec fn spec_balances_of(items: Seq<JsonSpec>) -> Result<
    Seq<BalanceModel>,
    DecodeErrorModel,
>
    decreases items.len(),
{
    if items.len() == 0 {
        Ok(Seq::empty())
    } else {
        match spec_balance_of(items[0]) {
            Ok(b) => match spec_balances_of(items.subrange(1, items.len() as int)) {
                Ok(rest) => Ok(seq![b] + rest),
                Err(e) => Err(e),
            },
            Err(e) => Err(e),
        }
    }
}

// ---------------------------------------------------------------------------
// Reshaping a balance list into a symbol-keyed mapping
// ---------------------------------------------------------------------------

/// First position of a symbol in a balance list, or its length.
pub open spec fn find_symbol(acc: Seq<BalanceModel>, sym: Seq<char>) -> int
    decreases acc.len(),
{
    if acc.len() == 0 {
        0
    } else if acc[0].symbol == sym {
        0
    } else {
        1 + find_symbol(acc.subrange(1, acc.len() as int), sym)
    }
}

/// Inserts a balance, overwriting in place any earlier entry of the same
/// symbol.
pub open spec fn upsert_balance(acc: Seq<BalanceModel>, b: BalanceModel) -> Seq<BalanceModel> {
    let k = find_symbol(acc, b.symbol);
    if k < acc.len() {
        acc.update(k, b)
    } else {
        acc.push(b)
    }
}

/// Reshapes a balance response list into a mapping keyed by asset symbol:
/// one entry per distinct symbol, the last occurrence's values winning,
/// in order of first occurrence.
pub open spec fn spec_reshape(s: Seq<BalanceModel>) -> Seq<BalanceModel>
    decreases s.len(),
{
    if s.len() == 0 {
        Seq::empty()
    } else {
        upsert_balance(spec_reshape(s.drop_last()), s.last())
    }
}

// ---------------------------------------------------------------------------
// Dispatch
// ---------------------------------------------------------------------------

/// Classification of a frame carrying an `event` discriminator.
pub open spec fn spec_dispatch_event(name: Seq<char>, m: Seq<(Seq<char>, JsonSpec)>) -> Result<
    EventModel,
    DecodeErrorModel,
> {
    if name == "subscribed"@ {
        Ok(EventModel::Subscribed)
    } else if name == "book"@ {
        match spec_book_of(m) {
            Ok(b) => Ok(EventModel::Book(b)),
            Err(e) => Err(e),
        }
    } else if name == "candle"@ {
        match spec_candle_of(m) {
            Ok(c) => Ok(EventModel::Candle(c)),
            Err(e) => Err(e),
        }
    } else if name == "trade"@ {
        match spec_trade_of(m) {
            Ok(t) => Ok(EventModel::Trade(t)),
            Err(e) => Err(e),
        }
    } else if name == "ticker"@ {
        match spec_ticker_of(m) {
            Ok(t) => Ok(EventModel::Ticker(t)),
            Err(e) => Err(e),
        }
    } else if name == "ticker24h"@ {
        match spec_ticker24h_of(m) {
            Ok(t) => Ok(EventModel::Ticker24h(t)),
            Err(e) => Err(e),
        }
    } else {
        Err(DecodeErrorModel::UnknownEvent(name))
    }
}

/// Classification of a frame carrying an `action` discriminator: the answer
/// to a command rather than a push event.
pub open spec fn spec_dispatch_action(name: Seq<char>, m: Seq<(Seq<char>, JsonSpec)>) -> Result<
    EventModel,
    DecodeErrorModel,
> {
    if name == "getMarkets"@ {
        match obj_lookup(m, "response"@) {
            Some(JsonSpec::Arr(items)) => match spec_markets_of(items) {
                Ok(ms) => Ok(EventModel::Markets(ms)),
                Err(e) => Err(e),
            },
            _ => Err(DecodeErrorModel::MalformedJson("markets: response"@)),
        }
    } else if name == "getTickerBook"@ {
        match obj_lookup(m, "response"@) {
            Some(JsonSpec::Obj(mm)) => match spec_ticker_book_of(mm) {
                Ok(tb) => Ok(
                    EventModel::TickerBook(TickerBookResponseModel { action: name, response: tb }),
                ),
                Err(e) => Err(e),
            },
            _ => Err(DecodeErrorModel::MalformedJson("tickerBook: response"@)),
        }
    } else if name == "privateGetBalance"@ {
        match obj_lookup(m, "response"@) {
            Some(JsonSpec::Arr(items)) => match spec_balances_of(items) {
                Ok(bs) => Ok(EventModel::Balances(spec_reshape(bs))),
                Err(e) => Err(e),
            },
            _ => Err(DecodeErrorModel::MalformedJson("balances: response"@)),
        }
    } else if name == "getBook"@ {
        match obj_lookup(m, "response"@) {
            Some(JsonSpec::Obj(mm)) => match spec_book_of(mm) {
                Ok(b) => Ok(EventModel::Book(b)),
                Err(e) => Err(e),
            },
            _ => Err(DecodeErrorModel::MalformedJson("book: response"@)),
        }
    } else if name == "subscribe"@ {
        match obj_lookup(m, "error"@) {
            None => Ok(EventModel::Subscribed),
            Some(JsonSpec::Null) => Ok(EventModel::Subscribed),
            Some(JsonSpec::Str(e)) => Err(DecodeErrorModel::SubscriptionRejected(e)),
            Some(_) => Err(DecodeErrorModel::MalformedJson("subscribe: error"@)),
        }
    } else {
        Err(DecodeErrorModel::UnknownActionType(name))
    }
}

/// Classification of a parsed frame by its discriminator field.
pub open spec fn spec_classify(m: Seq<(Seq<char>, JsonSpec)>) -> Result<
    EventModel,
    DecodeErrorModel,
> {
    match obj_lookup(m, "event"@) {
        Some(JsonSpec::Str(name)) => spec_dispatch_event(name, m),
        _ => match obj_lookup(m, "action"@) {
            Some(JsonSpec::Str(name)) => spec_dispatch_action(name, m),
            _ => Err(DecodeErrorModel::UnrecognizedFrame),
        },
    }
}

/// What decoding one raw text frame yields: the decoder's whole contract.
/// A frame whose document parses but is followed by more text names the
/// offending position; on a plain syntax error the parser has no finer
/// cause to report.
pub open spec fn spec_decode(s: Seq<char>) -> Result<EventModel, DecodeErrorModel> {
    if s.len() == 0 || s[0] != '{' {
        Err(DecodeErrorModel::NotAnObject)
    } else {
        match crate::json::parse_value(s, 0, crate::json::depth_limit()) {
            None => Err(DecodeErrorModel::MalformedJson("json: syntax error"@)),
            Some((doc, j)) => {
                let e = crate::json::ws_end(s, j);
                if e != s.len() {
                    Err(
                        DecodeErrorModel::MalformedJson(
                            "json: trailing text at character "@ + crate::decimal::dec_digits(
                                e as nat,
                            ),
                        ),
                    )
                } else {
                    match doc {
                        JsonSpec::Obj(members) => spec_classify(members),
                        _ => Err(DecodeErrorModel::NotAnObject),
                    }
                }
            },
        }
    }
}

// ---------------------------------------------------------------------------
// The executable decoder
// ---------------------------------------------------------------------------

/// Parses a decimal field.
fn decimal_of_x(v: &JsonValue) -> (r: Result<Decimal, DecodeError>)
    ensures
        match r {
            Ok(d) => spec_decimal_of(v@) == Ok::<DecimalModel, DecodeErrorModel>(d@),
            Err(e) => spec_decimal_of(v@) == Err::<DecimalModel, DecodeErrorModel>(e@),
        },
{
    match v {
        JsonValue::Str(t) => match Decimal::parse(t.as_str()) {
            Ok(d) => {
                proof {
                    assert(d@ == numeral_model(t@));
                }
                Ok(d)
            },
            Err(_) => Err(DecodeError::InvalidDecimal),
        },
        _ => Err(DecodeError::InvalidDecimal),
    }
}

/// Parses one price level from its two-element array form.
pub fn parse_price_level(v: &JsonValue) -> (r: Result<PriceLevel, DecodeError>)
    ensures
        match r {
            Ok(l) => spec_level_of(v@) == Ok::<PriceLevelModel, DecodeErrorModel>(l@),
            Err(e) => spec_level_of(v@) == Err::<PriceLevelModel, DecodeErrorModel>(e@),
        },
{
    match v {
        JsonValue::Arr(items) => {
            proof {
                crate::json::lemma_arr_model(items@);
            }
            if items.len() != 2 {
                Err(DecodeError::MalformedJson(String::from_str("price level: expected two elements")))
            } else {
                match decimal_of_x(&items[0]) {
                    Ok(price) => match decimal_of_x(&items[1]) {
                        Ok(quantity) => Ok(PriceLevel { price, quantity }),
                        Err(e) => Err(e),
                    },
                    Err(e) => Err(e),
                }
            }
        },
        _ => Err(DecodeError::MalformedJson(String::from_str("price level: expected an array"))),
    }
}

/// Parses one side of the book.
fn levels_of_x(items: &Vec<JsonValue>) -> (r: Result<Vec<PriceLevel>, DecodeError>)
    ensures
        match r {
            Ok(ls) => spec_levels_of(crate::json::arr_model(items@)) == Ok::<
                Seq<PriceLevelModel>,
                DecodeErrorModel,
            >(crate::events::levels_model(ls@)),
            Err(e) => spec_levels_of(crate::json::arr_model(items@)) == Err::<
                Seq<PriceLevelModel>,
                DecodeErrorModel,
            >(e@),
        },
{
    let ghost im = crate::json::arr_model(items@);
    proof {
        crate::json::lemma_arr_model(items@);
        assert(im.skip(0) =~= im);
    }
    let mut out: Vec<PriceLevel> = Vec::new();
    let mut k: usize = 0;
    while k < items.len()
        invariant
            k <= items@.len(),
            im == crate::json::arr_model(items@),
            im.len() == items@.len(),
            forall|i: int| 0 <= i < items@.len() ==> im[i] == items@[i]@,
            match spec_levels_of(im.skip(k as int)) {
                Ok(rest) => spec_levels_of(im) == Ok::<Seq<PriceLevelModel>, DecodeErrorModel>(
                    crate::events::levels_model(out@) + rest,
                ),
                Err(e) => spec_levels_of(im) == Err::<Seq<PriceLevelModel>, DecodeErrorModel>(e),
            },
        decreases items@.len() - k,
    {
        proof {
            assert(im.skip(k as int)[0] == im[k as int]);
        }
        match parse_price_level(&items[k]) {
            Ok(l) => {
                let ghost pre = out@;
                out.push(l);
                proof {
                    assert(im.skip(k as int).subrange(1, im.skip(k as int).len() as int) =~= im.skip(
                        k as int + 1,
                    ));
                    assert(crate::events::levels_model(out@) =~= crate::events::levels_model(pre)
                        + seq![l@]);
                    let r2 = spec_levels_of(im.skip(k as int + 1));
                    if r2 is Ok {
                        let rest2 = r2->Ok_0;
                        assert((crate::events::levels_model(pre) + (seq![l@] + rest2))
                            =~= (crate::events::levels_model(out@) + rest2));
                    }
                }
                k = k + 1;
            },
            Err(e) => {
                return Err(e);
            },
        }
    }
    proof {
        assert(im.skip(k as int) =~= Seq::<JsonSpec>::empty());
        assert(crate::events::levels_model(out@) + Seq::<PriceLevelModel>::empty()
            =~= crate::events::levels_model(out@));
    }
    Ok(out)
}

/// Looks a required decimal field up.
fn req_decimal_x(members: &Vec<(String, JsonValue)>, key: &str, cause: &str) -> (r: Result<
    Decimal,
    DecodeError,
>)
    ensures
        match r {
            Ok(d) => spec_req_decimal(obj_model(members@), key@, cause@) == Ok::<
                DecimalModel,
                DecodeErrorModel,
            >(d@),
            Err(e) => spec_req_decimal(obj_model(members@), key@, cause@) == Err::<
                DecimalModel,
                DecodeErrorModel,
            >(e@),
        },
{
    match crate::json::obj_get(members, key) {
        Some(v) => decimal_of_x(v),
        None => Err(DecodeError::MalformedJson(String::from_str(cause))),
    }
}

/// Looks a required string field up.
fn req_str_x(members: &Vec<(String, JsonValue)>, key: &str, e: DecodeError) -> (r: Result<
    String,
    DecodeError,
>)
    ensures
        match r {
            Ok(s) => spec_req_str(obj_model(members@), key@, e@) == Ok::<
                Seq<char>,
                DecodeErrorModel,
            >(s@),
            Err(e2) => spec_req_str(obj_model(members@), key@, e@) == Err::<
                Seq<char>,
                DecodeErrorModel,
            >(e2@),
        },
{
    match crate::json::obj_get(members, key) {
        Some(v) => match v {
            JsonValue::Str(t) => Ok(t.clone()),
            _ => Err(e),
        },
        None => Err(e),
    }
}

/// Looks a required nonnegative integer field up.
fn req_timestamp_x(members: &Vec<(String, JsonValue)>, key: &str, e: DecodeError) -> (r: Result<
    u64,
    DecodeError,
>)
    ensures
        match r {
            Ok(ts) => spec_req_timestamp(obj_model(members@), key@, e@) == Ok::<
                int,
                DecodeErrorModel,
            >(ts as int),
            Err(e2) => spec_req_timestamp(obj_model(members@), key@, e@) == Err::<
                int,
                DecodeErrorModel,
            >(e2@),
        },
{
    match crate::json::obj_get(members, key) {
        Some(v) => match v {
            JsonValue::Int(n) => if *n >= 0 {
                Ok(*n as u64)
            } else {
                Err(e)
            },
            _ => Err(e),
        },
        None => Err(e),
    }
}

/// Parses a book snapshot's fields.
fn book_of_x(members: &Vec<(String, JsonValue)>) -> (r: Result<Book, DecodeError>)
    ensures
        match r {
            Ok(b) => spec_book_of(obj_model(members@)) == Ok::<BookModel, DecodeErrorModel>(b@),
            Err(e) => spec_book_of(obj_model(members@)) == Err::<BookModel, DecodeErrorModel>(e@),
        },
{
    let nonce: i64;
    match crate::json::obj_get(members, "nonce") {
        Some(v) => match v {
            JsonValue::Int(n) => {
                nonce = *n;
            },
            _ => {
                return Err(DecodeError::MalformedJson(String::from_str("book: nonce")));
            },
        },
        None => {
            return Err(DecodeError::MalformedJson(String::from_str("book: nonce")));
        },
    }
    let bid_items: &Vec<JsonValue>;
    match crate::json::obj_get(members, "bids") {
        Some(v) => match v {
            JsonValue::Arr(items) => {
                bid_items = items;
            },
            _ => {
                return Err(DecodeError::MalformedJson(String::from_str("book: bids")));
            },
        },
        None => {
            return Err(DecodeError::MalformedJson(String::from_str("book: bids")));
        },
    }
    let ask_items: &Vec<JsonValue>;
    match crate::json::obj_get(members, "asks") {
        Some(v) => match v {
            JsonValue::Arr(items) => {
                ask_items = items;
            },
            _ => {
                return Err(DecodeError::MalformedJson(String::from_str("book: asks")));
            },
        },
        None => {
            return Err(DecodeError::MalformedJson(String::from_str("book: asks")));
        },
    }
    match levels_of_x(bid_items) {
        Ok(bids) => match levels_of_x(ask_items) {
            Ok(asks) => Ok(Book { nonce, bids, asks }),
            Err(e) => Err(e),
        },
        Err(e) => Err(e),
    }
}

/// Parses a candle frame's payload.
fn candle_of_x(members: &Vec<(String, JsonValue)>) -> (r: Result<Candle, DecodeError>)
    ensures
        match r {
            Ok(c) => spec_candle_of(obj_model(members@)) == Ok::<CandleModel, DecodeErrorModel>(
                c@,
            ),
            Err(e) => spec_candle_of(obj_model(members@)) == Err::<CandleModel, DecodeErrorModel>(
                e@,
            ),
        },
{
    let batch: &Vec<JsonValue>;
    match crate::json::obj_get(members, "candle") {
        Some(v) => match v {
            JsonValue::Arr(items) => {
                batch = items;
            },
            _ => {
                return Err(DecodeError::MalformedJson(String::from_str("candle: payload")));
            },
        },
        None => {
            return Err(DecodeError::MalformedJson(String::from_str("candle: payload")));
        },
    }
    proof {
        crate::json::lemma_arr_model(batch@);
    }
    if batch.len() == 0 {
        return Err(DecodeError::MalformedJson(String::from_str("candle: empty batch")));
    }
    let cols: &Vec<JsonValue>;
    match &batch[0] {
        JsonValue::Arr(items) => {
            cols = items;
        },
        _ => {
            return Err(DecodeError::MalformedJson(String::from_str("candle: entry")));
        },
    }
    proof {
        crate::json::lemma_arr_model(cols@);
    }
    if cols.len() != 6 {
        return Err(DecodeError::MalformedJson(String::from_str("candle: expected six entries")));
    }
    let timestamp: u64;
    match &cols[0] {
        JsonValue::Int(n) => {
            if *n < 0 {
                return Err(DecodeError::MalformedJson(String::from_str("candle: timestamp")));
            }
            timestamp = *n as u64;
        },
        _ => {
            return Err(DecodeError::MalformedJson(String::from_str("candle: timestamp")));
        },
    }
    match decimal_of_x(&cols[1]) {
        Ok(open) => match decimal_of_x(&cols[2]) {
            Ok(high) => match decimal_of_x(&cols[3]) {
                Ok(low) => match decimal_of_x(&cols[4]) {
                    Ok(close) => match decimal_of_x(&cols[5]) {
                        Ok(volume) => Ok(Candle { timestamp, open, high, low, close, volume }),
                        Err(e) => Err(e),
                    },
                    Err(e) => Err(e),
                },
                Err(e) => Err(e),
            },
            Err(e) => Err(e),
        },
        Err(e) => Err(e),
    }
}

/// Parses a side field.
pub fn parse_side(v: &JsonValue) -> (r: Result<Side, DecodeError>)
    ensures
        match r {
            Ok(s) => spec_side_of(v@) == Ok::<Side, DecodeErrorModel>(s),
            Err(e) => spec_side_of(v@) == Err::<Side, DecodeErrorModel>(e@),
        },
{
    match v {
        JsonValue::Str(t) => {
            if crate::chars::str_eq(t.as_str(), "buy") {
                Ok(Side::Buy)
            } else if crate::chars::str_eq(t.as_str(), "sell") {
                Ok(Side::Sell)
            } else {
                Err(DecodeError::MalformedJson(String::from_str("trade: side")))
            }
        },
        _ => Err(DecodeError::MalformedJson(String::from_str("trade: side"))),
    }
}

/// Parses a trade frame's fields.
pub fn parse_trade(members: &Vec<(String, JsonValue)>) -> (r: Result<Trade, DecodeError>)
    ensures
        match r {
            Ok(t) => spec_trade_of(obj_model(members@)) == Ok::<TradeModel, DecodeErrorModel>(t@),
            Err(e) => spec_trade_of(obj_model(members@)) == Err::<TradeModel, DecodeErrorModel>(
                e@,
            ),
        },
{
    let timestamp = match req_timestamp_x(
        members,
        "timestamp",
        DecodeError::MalformedJson(String::from_str("trade: timestamp")),
    ) {
        Ok(ts) => ts,
        Err(e) => {
            return Err(e);
        },
    };
    let id = match req_str_x(
        members,
        "id",
        DecodeError::MalformedJson(String::from_str("trade: id")),
    ) {
        Ok(s) => s,
        Err(e) => {
            return Err(e);
        },
    };
    let amount = match req_decimal_x(members, "amount", "trade: amount") {
        Ok(d) => d,
        Err(e) => {
            return Err(e);
        },
    };
    let price = match req_decimal_x(members, "price", "trade: price") {
        Ok(d) => d,
        Err(e) => {
            return Err(e);
        },
    };
    let side = match crate::json::obj_get(members, "side") {
        Some(v) => match parse_side(v) {
            Ok(s) => s,
            Err(e) => {
                return Err(e);
            },
        },
        None => {
            return Err(DecodeError::MalformedJson(String::from_str("trade: side")));
        },
    };
    Ok(Trade { timestamp, id, amount, price, side })
}

/// Looks an optional decimal ticker field up.
fn opt_decimal_x(members: &Vec<(String, JsonValue)>, key: &str, cause: &str) -> (r: Result<
    Option<Decimal>,
    DecodeError,
>)
    ensures
        match r {
            Ok(d) => spec_opt_decimal(obj_model(members@), key@, cause@) == Ok::<
                Option<DecimalModel>,
                DecodeErrorModel,
            >(crate::events::opt_model(d)),
            Err(e) => spec_opt_decimal(obj_model(members@), key@, cause@) == Err::<
                Option<DecimalModel>,
                DecodeErrorModel,
            >(e@),
        },
{
    match crate::json::obj_get(members, key) {
        None => Ok(None),
        Some(v) => match v {
            JsonValue::Null => Ok(None),
            JsonValue::Str(t) => match Decimal::parse(t.as_str()) {
                Ok(d) => {
                    proof {
                        assert(d@ == numeral_model(t@));
                    }
                    Ok(Some(d))
                },
                Err(_) => Err(DecodeError::InvalidDecimal),
            },
            _ => Err(DecodeError::UnparseableTicker(String::from_str(cause))),
        },
    }
}

/// Parses a top-of-book ticker's fields.
fn ticker_of_x(members: &Vec<(String, JsonValue)>) -> (r: Result<Ticker, DecodeError>)
    ensures
        match r {
            Ok(t) => spec_ticker_of(obj_model(members@)) == Ok::<TickerModel, DecodeErrorModel>(
                t@,
            ),
            Err(e) => spec_ticker_of(obj_model(members@)) == Err::<TickerModel, DecodeErrorModel>(
                e@,
            ),
        },
{
    let market = match req_str_x(
        members,
        "market",
        DecodeError::UnparseableTicker(String::from_str("ticker: market")),
    ) {
        Ok(s) => s,
        Err(e) => {
            return Err(e);
        },
    };
    let best_bid = match opt_decimal_x(members, "bestBid", "ticker: bestBid") {
        Ok(d) => d,
        Err(e) => {
            return Err(e);
        },
    };
    let best_bid_size = match opt_decimal_x(members, "bestBidSize", "ticker: bestBidSize") {
        Ok(d) => d,
        Err(e) => {
            return Err(e);
        },
    };
    let best_ask = match opt_decimal_x(members, "bestAsk", "ticker: bestAsk") {
        Ok(d) => d,
        Err(e) => {
            return Err(e);
        },
    };
    let best_ask_size = match opt_decimal_x(members, "bestAskSize", "ticker: bestAskSize") {
        Ok(d) => d,
        Err(e) => {
            return Err(e);
        },
    };
    if best_bid.is_some() != best_bid_size.is_some() {
        return Err(DecodeError::UnparseableTicker(String::from_str("ticker: unpaired bestBid fields")));
    }
    if best_ask.is_some() != best_ask_size.is_some() {
        return Err(DecodeError::UnparseableTicker(String::from_str("ticker: unpaired bestAsk fields")));
    }
    Ok(Ticker { market, best_bid, best_bid_size, best_ask, best_ask_size })
}

/// Looks a required decimal ticker field up.
fn ticker_decimal_x(members: &Vec<(String, JsonValue)>, key: &str, cause: &str) -> (r: Result<
    Decimal,
    DecodeError,
>)
    ensures
        match r {
            Ok(d) => spec_ticker_decimal(obj_model(members@), key@, cause@) == Ok::<
                DecimalModel,
                DecodeErrorModel,
            >(d@),
            Err(e) => spec_ticker_decimal(obj_model(members@), key@, cause@) == Err::<
                DecimalModel,
                DecodeErrorModel,
            >(e@),
        },
{
    match crate::json::obj_get(members, key) {
        Some(v) => match v {
            JsonValue::Str(t) => match Decimal::parse(t.as_str()) {
                Ok(d) => {
                    proof {
                        assert(d@ == numeral_model(t@));
                    }
                    Ok(d)
                },
                Err(_) => Err(DecodeError::InvalidDecimal),
            },
            _ => Err(DecodeError::UnparseableTicker(String::from_str(cause))),
        },
        None => Err(DecodeError::UnparseableTicker(String::from_str(cause))),
    }
}

/// Parses a 24-hour ticker's fields.
fn ticker24h_of_x(members: &Vec<(String, JsonValue)>) -> (r: Result<Ticker24h, DecodeError>)
    ensures
        match r {
            Ok(t) => spec_ticker24h_of(obj_model(members@)) == Ok::<
                Ticker24hModel,
                DecodeErrorModel,
            >(t@),
            Err(e) => spec_ticker24h_of(obj_model(members@)) == Err::<
                Ticker24hModel,
                DecodeErrorModel,
            >(e@),
        },
{
    let market = match req_str_x(
        members,
        "market",
        DecodeError::UnparseableTicker(String::from_str("ticker24h: market")),
    ) {
        Ok(s) => s,
        Err(e) => {
            return Err(e);
        },
    };
    let timestamp = match req_timestamp_x(
        members,
        "timestamp",
        DecodeError::UnparseableTicker(String::from_str("ticker24h: timestamp")),
    ) {
        Ok(ts) => ts,
        Err(e) => {
            return Err(e);
        },
    };
    let open = match ticker_decimal_x(members, "open", "ticker24h: open") {
        Ok(d) => d,
        Err(e) => {
            return Err(e);
        },
    };
    let high = match ticker_decimal_x(members, "high", "ticker24h: high") {
        Ok(d) => d,
        Err(e) => {
            return Err(e);
        },
    };
    let low = match ticker_decimal_x(members, "low", "ticker24h: low") {
        Ok(d) => d,
        Err(e) => {
            return Err(e);
        },
    };
    let last = match ticker_decimal_x(members, "last", "ticker24h: last") {
        Ok(d) => d,
        Err(e) => {
            return Err(e);
        },
    };
    let volume = match ticker_decimal_x(members, "volume", "ticker24h: volume") {
        Ok(d) => d,
        Err(e) => {
            return Err(e);
        },
    };
    let volume_quote = match ticker_decimal_x(members, "volumeQuote", "ticker24h: volumeQuote") {
        Ok(d) => d,
        Err(e) => {
            return Err(e);
        },
    };
    let bid = match ticker_decimal_x(members, "bid", "ticker24h: bid") {
        Ok(d) => d,
        Err(e) => {
            return Err(e);
        },
    };
    let ask = match ticker_decimal_x(members, "ask", "ticker24h: ask") {
        Ok(d) => d,
        Err(e) => {
            return Err(e);
        },
    };
    let bid_size = match ticker_decimal_x(members, "bidSize", "ticker24h: bidSize") {
        Ok(d) => d,
        Err(e) => {
            return Err(e);
        },
    };
    let ask_size = match ticker_decimal_x(members, "askSize", "ticker24h: askSize") {
        Ok(d) => d,
        Err(e) => {
            return Err(e);
        },
    };
    Ok(
        Ticker24h {
            market,
            open,
            high,
            low,
            last,
            volume,
            volume_quote,
            bid,
            ask,
            timestamp,
            bid_size,
            ask_size,
        },
    )
}

/// Parses the requested best bid and ask of one market.
fn ticker_book_of_x(members: &Vec<(String, JsonValue)>) -> (r: Result<TickerBook, DecodeError>)
    ensures
        match r {
            Ok(t) => spec_ticker_book_of(obj_model(members@)) == Ok::<
                TickerBookModel,
                DecodeErrorModel,
            >(t@),
            Err(e) => spec_ticker_book_of(obj_model(members@)) == Err::<
                TickerBookModel,
                DecodeErrorModel,
            >(e@),
        },
{
    let market = match req_str_x(
        members,
        "market",
        DecodeError::MalformedJson(String::from_str("tickerBook: market")),
    ) {
        Ok(s) => s,
        Err(e) => {
            return Err(e);
        },
    };
    let bid = match req_decimal_x(members, "bid", "tickerBook: bid") {
        Ok(d) => d,
        Err(e) => {
            return Err(e);
        },
    };
    let ask = match req_decimal_x(members, "ask", "tickerBook: ask") {
        Ok(d) => d,
        Err(e) => {
            return Err(e);
        },
    };
    let bid_size = match req_decimal_x(members, "bidSize", "tickerBook: bidSize") {
        Ok(d) => d,
        Err(e) => {
            return Err(e);
        },
    };
    let ask_size = match req_decimal_x(members, "askSize", "tickerBook: askSize") {
        Ok(d) => d,
        Err(e) => {
            return Err(e);
        },
    };
    Ok(TickerBook { market, bid, ask, bid_size, ask_size })
}

/// Looks the optional price-precision field up.
fn opt_precision_x(members: &Vec<(String, JsonValue)>) -> (r: Result<Option<u32>, DecodeError>)
    ensures
        match r {
            Ok(p) => spec_opt_precision(obj_model(members@)) == Ok::<
                Option<int>,
                DecodeErrorModel,
            >(crate::events::opt_int_model(p)),
            Err(e) => spec_opt_precision(obj_model(members@)) == Err::<
                Option<int>,
                DecodeErrorModel,
            >(e@),
        },
{
    match crate::json::obj_get(members, "pricePrecision") {
        None => Ok(None),
        Some(v) => match v {
            JsonValue::Null => Ok(None),
            JsonValue::Int(n) => if 0 <= *n && *n <= 0xffffffffi64 {
                Ok(Some(*n as u32))
            } else {
                Err(DecodeError::MalformedJson(String::from_str("market: pricePrecision")))
            },
            _ => Err(DecodeError::MalformedJson(String::from_str("market: pricePrecision"))),
        },
    }
}

/// Looks an optional string field up.
fn opt_str_x(members: &Vec<(String, JsonValue)>, key: &str, cause: &str) -> (r: Result<
    Option<String>,
    DecodeError,
>)
    ensures
        match r {
            Ok(s) => spec_opt_str(obj_model(members@), key@, cause@) == Ok::<
                Option<Seq<char>>,
                DecodeErrorModel,
            >(crate::events::opt_str_model(s)),
            Err(e) => spec_opt_str(obj_model(members@), key@, cause@) == Err::<
                Option<Seq<char>>,
                DecodeErrorModel,
            >(e@),
        },
{
    match crate::json::obj_get(members, key) {
        None => Ok(None),
        Some(v) => match v {
            JsonValue::Null => Ok(None),
            JsonValue::Str(t) => Ok(Some(t.clone())),
            _ => Err(DecodeError::MalformedJson(String::from_str(cause))),
        },
    }
}

/// Parses an array of strings.
fn strings_of_x(items: &Vec<JsonValue>) -> (r: Result<Vec<String>, DecodeError>)
    ensures
        match r {
            Ok(ss) => spec_strings_of(crate::json::arr_model(items@)) == Ok::<
                Seq<Seq<char>>,
                DecodeErrorModel,
            >(crate::events::strings_model(ss@)),
            Err(e) => spec_strings_of(crate::json::arr_model(items@)) == Err::<
                Seq<Seq<char>>,
                DecodeErrorModel,
            >(e@),
        },
{
    let ghost im = crate::json::arr_model(items@);
    proof {
        crate::json::lemma_arr_model(items@);
        assert(im.skip(0) =~= im);
    }
    let mut out: Vec<String> = Vec::new();
    let mut k: usize = 0;
    while k < items.len()
        invariant
            k <= items@.len(),
            im == crate::json::arr_model(items@),
            im.len() == items@.len(),
            forall|i: int| 0 <= i < items@.len() ==> im[i] == items@[i]@,
            match spec_strings_of(im.skip(k as int)) {
                Ok(rest) => spec_strings_of(im) == Ok::<Seq<Seq<char>>, DecodeErrorModel>(
                    crate::events::strings_model(out@) + rest,
                ),
                Err(e) => spec_strings_of(im) == Err::<Seq<Seq<char>>, DecodeErrorModel>(e),
            },
        decreases items@.len() - k,
    {
        proof {
            assert(im.skip(k as int)[0] == im[k as int]);
        }
        match &items[k] {
            JsonValue::Str(t) => {
                let ghost pre = out@;
                out.push(t.clone());
                proof {
                    assert(im.skip(k as int).subrange(1, im.skip(k as int).len() as int) =~= im.skip(
                        k as int + 1,
                    ));
                    assert(crate::events::strings_model(out@) =~= crate::events::strings_model(pre)
                        + seq![t@]);
                    let r2 = spec_strings_of(im.skip(k as int + 1));
                    if r2 is Ok {
                        let rest2 = r2->Ok_0;
                        assert((crate::events::strings_model(pre) + (seq![t@] + rest2))
                            =~= (crate::events::strings_model(out@) + rest2));
                    }
                }
                k = k + 1;
            },
            _ => {
                return Err(DecodeError::MalformedJson(String::from_str("market: orderTypes")));
            },
        }
    }
    proof {
        assert(im.skip(k as int) =~= Seq::<JsonSpec>::empty());
        assert(crate::events::strings_model(out@) + Seq::<Seq<char>>::empty()
            =~= crate::events::strings_model(out@));
    }
    Ok(out)
}

/// Parses one market's metadata.
fn market_of_x(v: &JsonValue) -> (r: Result<Market, DecodeError>)
    ensures
        match r {
            Ok(mk) => spec_market_of(v@) == Ok::<MarketModel, DecodeErrorModel>(mk@),
            Err(e) => spec_market_of(v@) == Err::<MarketModel, DecodeErrorModel>(e@),
        },
{
    let members = match v {
        JsonValue::Obj(mm) => mm,
        _ => {
            return Err(DecodeError::MalformedJson(String::from_str("market: entry")));
        },
    };
    let status = match req_str_x(
        members,
        "status",
        DecodeError::MalformedJson(String::from_str("market: status")),
    ) {
        Ok(s) => s,
        Err(e) => {
            return Err(e);
        },
    };
    let base = match req_str_x(
        members,
        "base",
        DecodeError::MalformedJson(String::from_str("market: base")),
    ) {
        Ok(s) => s,
        Err(e) => {
            return Err(e);
        },
    };
    let quote = match req_str_x(
        members,
        "quote",
        DecodeError::MalformedJson(String::from_str("market: quote")),
    ) {
        Ok(s) => s,
        Err(e) => {
            return Err(e);
        },
    };
    let market = match req_str_x(
        members,
        "market",
        DecodeError::MalformedJson(String::from_str("market: market")),
    ) {
        Ok(s) => s,
        Err(e) => {
            return Err(e);
        },
    };
    let price_precision = match opt_precision_x(members) {
        Ok(p) => p,
        Err(e) => {
            return Err(e);
        },
    };
    let min_order_in_quote_asset = match opt_str_x(
        members,
        "minOrderInQuoteAsset",
        "market: minOrderInQuoteAsset",
    ) {
        Ok(s) => s,
        Err(e) => {
            return Err(e);
        },
    };
    let min_order_in_base_asset = match opt_str_x(
        members,
        "minOrderInBaseAsset",
        "market: minOrderInBaseAsset",
    ) {
        Ok(s) => s,
        Err(e) => {
            return Err(e);
        },
    };
    let order_types: Option<Vec<String>>;
    match crate::json::obj_get(members, "orderTypes") {
        None => {
            order_types = None;
        },
        Some(ov) => match ov {
            JsonValue::Null => {
                order_types = None;
            },
            JsonValue::Arr(items) => match strings_of_x(items) {
                Ok(ss) => {
                    order_types = Some(ss);
                },
                Err(e) => {
                    return Err(e);
                },
            },
            _ => {
                return Err(DecodeError::MalformedJson(String::from_str("market: orderTypes")));
            },
        },
    }
    Ok(
        Market {
            status,
            base,
            quote,
            market,
            price_precision,
            min_order_in_quote_asset,
            min_order_in_base_asset,
            order_types,
        },
    )
}

/// Parses the markets list.
fn markets_of_x(items: &Vec<JsonValue>) -> (r: Result<Vec<Market>, DecodeError>)
    ensures
        match r {
            Ok(ms) => spec_markets_of(crate::json::arr_model(items@)) == Ok::<
                Seq<MarketModel>,
                DecodeErrorModel,
            >(crate::events::markets_model(ms@)),
            Err(e) => spec_markets_of(crate::json::arr_model(items@)) == Err::<
                Seq<MarketModel>,
                DecodeErrorModel,
            >(e@),
        },
{
    let ghost im = crate::json::arr_model(items@);
    proof {
        crate::json::lemma_arr_model(items@);
        assert(im.skip(0) =~= im);
    }
    let mut out: Vec<Market> = Vec::new();
    let mut k: usize = 0;
    while k < items.len()
        invariant
            k <= items@.len(),
            im == crate::json::arr_model(items@),
            im.len() == items@.len(),
            forall|i: int| 0 <= i < items@.len() ==> im[i] == items@[i]@,
            match spec_markets_of(im.skip(k as int)) {
                Ok(rest) => spec_markets_of(im) == Ok::<Seq<MarketModel>, DecodeErrorModel>(
                    crate::events::markets_model(out@) + rest,
                ),
                Err(e) => spec_markets_of(im) == Err::<Seq<MarketModel>, DecodeErrorModel>(e),
            },
        decreases items@.len() - k,
    {
        proof {
            assert(im.skip(k as int)[0] == im[k as int]);
        }
        match market_of_x(&items[k]) {
            Ok(mk) => {
                let ghost pre = out@;
                out.push(mk);
                proof {
                    assert(im.skip(k as int).subrange(1, im.skip(k as int).len() as int) =~= im.skip(
                        k as int + 1,
                    ));
                    assert(crate::events::markets_model(out@) =~= crate::events::markets_model(pre)
                        + seq![out@[out@.len() - 1]@]);
                    let r2 = spec_markets_of(im.skip(k as int + 1));
                    if r2 is Ok {
                        let rest2 = r2->Ok_0;
                        assert((crate::events::markets_model(pre) + (seq![out@[out@.len() - 1]@]
                            + rest2)) =~= (crate::events::markets_model(out@) + rest2));
                    }
                }
                k = k + 1;
            },
            Err(e) => {
                return Err(e);
            },
        }
    }
    proof {
        assert(im.skip(k as int) =~= Seq::<JsonSpec>::empty());
        assert(crate::events::markets_model(out@) + Seq::<MarketModel>::empty()
            =~= crate::events::markets_model(out@));
    }
    Ok(out)
}

/// Parses one balance entry.
fn balance_of_x(v: &JsonValue) -> (r: Result<Balance, DecodeError>)
    ensures
        match r {
            Ok(b) => spec_balance_of(v@) == Ok::<BalanceModel, DecodeErrorModel>(b@),
            Err(e) => spec_balance_of(v@) == Err::<BalanceModel, DecodeErrorModel>(e@),
        },
{
    let members = match v {
        JsonValue::Obj(mm) => mm,
        _ => {
            return Err(DecodeError::MalformedJson(String::from_str("balance: entry")));
        },
    };
    let symbol = match req_str_x(
        members,
        "symbol",
        DecodeError::MalformedJson(String::from_str("balance: symbol")),
    ) {
        Ok(s) => s,
        Err(e) => {
            return Err(e);
        },
    };
    let available = match req_decimal_x(members, "available", "balance: available") {
        Ok(d) => d,
        Err(e) => {
            return Err(e);
        },
    };
    let in_order = match req_decimal_x(members, "inOrder", "balance: inOrder") {
        Ok(d) => d,
        Err(e) => {
            return Err(e);
        },
    };
    Ok(Balance { symbol, available, in_order })
}

/// Parses the balances list.
fn balances_of_x(items: &Vec<JsonValue>) -> (r: Result<Vec<Balance>, DecodeError>)
    ensures
        match r {
            Ok(bs) => spec_balances_of(crate::json::arr_model(items@)) == Ok::<
                Seq<BalanceModel>,
                DecodeErrorModel,
            >(crate::events::balances_model(bs@)),
            Err(e) => spec_balances_of(crate::json::arr_model(items@)) == Err::<
                Seq<BalanceModel>,
                DecodeErrorModel,
            >(e@),
        },
{
    let ghost im = crate::json::arr_model(items@);
    proof {
        crate::json::lemma_arr_model(items@);
        assert(im.skip(0) =~= im);
    }
    let mut out: Vec<Balance> = Vec::new();
    let mut k: usize = 0;
    while k < items.len()
        invariant
            k <= items@.len(),
            im == crate::json::arr_model(items@),
            im.len() == items@.len(),
            forall|i: int| 0 <= i < items@.len() ==> im[i] == items@[i]@,
            match spec_balances_of(im.skip(k as int)) {
                Ok(rest) => spec_balances_of(im) == Ok::<Seq<BalanceModel>, DecodeErrorModel>(
                    crate::events::balances_model(out@) + rest,
                ),
                Err(e) => spec_balances_of(im) == Err::<Seq<BalanceModel>, DecodeErrorModel>(e),
            },
        decreases items@.len() - k,
    {
        proof {
            assert(im.skip(k as int)[0] == im[k as int]);
        }
        match balance_of_x(&items[k]) {
            Ok(b) => {
                let ghost pre = out@;
                out.push(b);
                proof {
                    assert(im.skip(k as int).subrange(1, im.skip(k as int).len() as int) =~= im.skip(
                        k as int + 1,
                    ));
                    assert(crate::events::balances_model(out@)
                        =~= crate::events::balances_model(pre) + seq![out@[out@.len() - 1]@]);
                    let r2 = spec_balances_of(im.skip(k as int + 1));
                    if r2 is Ok {
                        let rest2 = r2->Ok_0;
                        assert((crate::events::balances_model(pre) + (seq![out@[out@.len() - 1]@]
                            + rest2)) =~= (crate::events::balances_model(out@) + rest2));
                    }
                }
                k = k + 1;
            },
            Err(e) => {
                return Err(e);
            },
        }
    }
    proof {
        assert(im.skip(k as int) =~= Seq::<JsonSpec>::empty());
        assert(crate::events::balances_model(out@) + Seq::<BalanceModel>::empty()
            =~= crate::events::balances_model(out@));
    }
    Ok(out)
}

/// Where a symbol first occurs, counted from any prefix of misses.
proof fn lemma_find_symbol_from(acc: Seq<BalanceModel>, sym: Seq<char>, i: int)
    requires
        0 <= i <= acc.len(),
        forall|j: int| 0 <= j < i ==> acc[j].symbol != sym,
    ensures
        i <= find_symbol(acc, sym),
        i < acc.len() && acc[i].symbol == sym ==> find_symbol(acc, sym) == i,
        i == acc.len() ==> find_symbol(acc, sym) == acc.len(),
    decreases acc.len(),
{
    if acc.len() > 0 && acc[0].symbol != sym {
        let tail = acc.subrange(1, acc.len() as int);
        assert(forall|j: int| 0 <= j < i - 1 ==> tail[j] == acc[j + 1]);
        let i2: int = if i > 0 {
            i - 1
        } else {
            0
        };
        lemma_find_symbol_from(tail, sym, i2);
        if i < acc.len() && acc[i].symbol == sym {
            assert(i >= 1);
            assert(tail[i - 1] == acc[i]);
        }
    }
}

/// Reshapes a balance response list into a symbol-keyed mapping: duplicate
/// symbols overwrite earlier entries, last write wins.
pub fn reshape_balances(list: Vec<Balance>) -> (r: Vec<Balance>)
    ensures
        crate::events::balances_model(r@) == spec_reshape(crate::events::balances_model(list@)),
{
    let ghost lm = crate::events::balances_model(list@);
    let mut out: Vec<Balance> = Vec::new();
    let mut k: usize = 0;
    proof {
        assert(lm.take(0) =~= Seq::<BalanceModel>::empty());
        assert(crate::events::balances_model(out@) =~= Seq::<BalanceModel>::empty());
    }
    while k < list.len()
        invariant
            k <= list@.len(),
            lm == crate::events::balances_model(list@),
            crate::events::balances_model(out@) == spec_reshape(lm.take(k as int)),
        decreases list@.len() - k,
    {
        let b = list[k].clone();
        proof {
            assert(b@ == lm[k as int]);
        }
        upsert_x(&mut out, b);
        k = k + 1;
        proof {
            assert(lm.take(k as int).drop_last() =~= lm.take(k as int - 1));
            assert(lm.take(k as int).last() == lm[k as int - 1]);
        }
    }
    proof {
        assert(lm.take(list@.len() as int) =~= lm);
    }
    out
}

/// Inserts one balance, overwriting any earlier entry of the same symbol.
fn upsert_x(out: &mut Vec<Balance>, b: Balance)
    ensures
        crate::events::balances_model(final(out)@) == upsert_balance(
            crate::events::balances_model(old(out)@),
            b@,
        ),
{
    let ghost m = crate::events::balances_model(old(out)@);
    let mut i: usize = 0;
    while i < out.len()
        invariant
            i <= out@.len(),
            out@ == old(out)@,
            m == crate::events::balances_model(out@),
            forall|j: int| 0 <= j < i ==> m[j].symbol != b@.symbol,
        decreases out@.len() - i,
    {
        if crate::chars::str_eq(out[i].symbol.as_str(), b.symbol.as_str()) {
            proof {
                lemma_find_symbol_from(m, b@.symbol, i as int);
            }
            out.set(i, b);
            proof {
                assert(crate::events::balances_model(out@) =~= m.update(i as int, b@));
            }
            return ;
        }
        i = i + 1;
    }
    proof {
        lemma_find_symbol_from(m, b@.symbol, out@.len() as int);
    }
    out.push(b);
    proof {
        assert(crate::events::balances_model(out@) =~= m.push(b@));
    }
}

/// Dispatches a frame carrying an `event` discriminator.
fn dispatch_event_x(name: &String, members: &Vec<(String, JsonValue)>) -> (r: Result<
    BitvavoEvent,
    DecodeError,
>)
    ensures
        match r {
            Ok(ev) => spec_dispatch_event(name@, obj_model(members@)) == Ok::<
                EventModel,
                DecodeErrorModel,
            >(ev@),
            Err(e) => spec_dispatch_event(name@, obj_model(members@)) == Err::<
                EventModel,
                DecodeErrorModel,
            >(e@),
        },
{
    if crate::chars::str_eq(name.as_str(), "subscribed") {
        Ok(BitvavoEvent::Subscribed)
    } else if crate::chars::str_eq(name.as_str(), "book") {
        match book_of_x(members) {
            Ok(b) => Ok(BitvavoEvent::Book(b)),
            Err(e) => Err(e),
        }
    } else if crate::chars::str_eq(name.as_str(), "candle") {
        match candle_of_x(members) {
            Ok(c) => Ok(BitvavoEvent::Candle(c)),
            Err(e) => Err(e),
        }
    } else if crate::chars::str_eq(name.as_str(), "trade") {
        match parse_trade(members) {
            Ok(t) => Ok(BitvavoEvent::Trade(t)),
            Err(e) => Err(e),
        }
    } else if crate::chars::str_eq(name.as_str(), "ticker") {
        match ticker_of_x(members) {
            Ok(t) => Ok(BitvavoEvent::Ticker(t)),
            Err(e) => Err(e),
        }
    } else if crate::chars::str_eq(name.as_str(), "ticker24h") {
        match ticker24h_of_x(members) {
            Ok(t) => Ok(BitvavoEvent::Ticker24h(t)),
            Err(e) => Err(e),
        }
    } else {
        Err(DecodeError::UnknownEvent(name.clone()))
    }
}

/// Dispatches a frame carrying an `action` discriminator.
fn dispatch_action_x(name: &String, members: &Vec<(String, JsonValue)>) -> (r: Result<
    BitvavoEvent,
    DecodeError,
>)
    ensures
        match r {
            Ok(ev) => spec_dispatch_action(name@, obj_model(members@)) == Ok::<
                EventModel,
                DecodeErrorModel,
            >(ev@),
            Err(e) => spec_dispatch_action(name@, obj_model(members@)) == Err::<
                EventModel,
                DecodeErrorModel,
            >(e@),
        },
{
    if crate::chars::str_eq(name.as_str(), "getMarkets") {
        match crate::json::obj_get(members, "response") {
            Some(v) => match v {
                JsonValue::Arr(items) => match markets_of_x(items) {
                    Ok(ms) => Ok(BitvavoEvent::Markets(ms)),
                    Err(e) => Err(e),
                },
                _ => Err(DecodeError::MalformedJson(String::from_str("markets: response"))),
            },
            None => Err(DecodeError::MalformedJson(String::from_str("markets: response"))),
        }
    } else if crate::chars::str_eq(name.as_str(), "getTickerBook") {
        match crate::json::obj_get(members, "response") {
            Some(v) => match v {
                JsonValue::Obj(mm) => match ticker_book_of_x(mm) {
                    Ok(tb) => Ok(
                        BitvavoEvent::TickerBook(
                            TickerBookResponse { action: name.clone(), response: tb },
                        ),
                    ),
                    Err(e) => Err(e),
                },
                _ => Err(DecodeError::MalformedJson(String::from_str("tickerBook: response"))),
            },
            None => Err(DecodeError::MalformedJson(String::from_str("tickerBook: response"))),
        }
    } else if crate::chars::str_eq(name.as_str(), "privateGetBalance") {
        match crate::json::obj_get(members, "response") {
            Some(v) => match v {
                JsonValue::Arr(items) => match balances_of_x(items) {
                    Ok(bs) => Ok(BitvavoEvent::Balances(reshape_balances(bs))),
                    Err(e) => Err(e),
                },
                _ => Err(DecodeError::MalformedJson(String::from_str("balances: response"))),
            },
            None => Err(DecodeError::MalformedJson(String::from_str("balances: response"))),
        }
    } else if crate::chars::str_eq(name.as_str(), "getBook") {
        match crate::json::obj_get(members, "response") {
            Some(v) => match v {
                JsonValue::Obj(mm) => match book_of_x(mm) {
                    Ok(b) => Ok(BitvavoEvent::Book(b)),
                    Err(e) => Err(e),
                },
                _ => Err(DecodeError::MalformedJson(String::from_str("book: response"))),
            },
            None => Err(DecodeError::MalformedJson(String::from_str("book: response"))),
        }
    } else if crate::chars::str_eq(name.as_str(), "subscribe") {
        match crate::json::obj_get(members, "error") {
            None => Ok(BitvavoEvent::Subscribed),
            Some(v) => match v {
                JsonValue::Null => Ok(BitvavoEvent::Subscribed),
                JsonValue::Str(e) => Err(DecodeError::SubscriptionRejected(e.clone())),
                _ => Err(DecodeError::MalformedJson(String::from_str("subscribe: error"))),
            },
        }
    } else {
        Err(DecodeError::UnknownActionType(name.clone()))
    }
}

/// Classifies a parsed frame by its discriminator field.
fn classify_x(members: &Vec<(String, JsonValue)>) -> (r: Result<BitvavoEvent, DecodeError>)
    ensures
        match r {
            Ok(ev) => spec_classify(obj_model(members@)) == Ok::<EventModel, DecodeErrorModel>(
                ev@,
            ),
            Err(e) => spec_classify(obj_model(members@)) == Err::<EventModel, DecodeErrorModel>(
                e@,
            ),
        },
{
    let from_event = match crate::json::obj_get(members, "event") {
        Some(v) => match v {
            JsonValue::Str(name) => Some(name),
            _ => None,
        },
        None => None,
    };
    match from_event {
        Some(name) => dispatch_event_x(name, members),
        None => match crate::json::obj_get(members, "action") {
            Some(v) => match v {
                JsonValue::Str(name) => dispatch_action_x(name, members),
                _ => Err(DecodeError::UnrecognizedFrame),
            },
            None => Err(DecodeError::UnrecognizedFrame),
        },
    }
}

/// Decodes one raw text frame into a typed domain event.
///
/// A pure, synchronous function: every failure path returns a typed error
/// to the caller, who decides whether to log and continue or to escalate;
/// nothing here panics or terminates the processing loop.
pub fn decode_event(message: &str) -> (r: Result<BitvavoEvent, DecodeError>)
    ensures
        match r {
            Ok(ev) => spec_decode(message@) == Ok::<EventModel, DecodeErrorModel>(ev@),
            Err(e) => spec_decode(message@) == Err::<EventModel, DecodeErrorModel>(e@),
        },
{
    let n = message.unicode_len();
    if n == 0 || message.get_char(0) != '{' {
        return Err(DecodeError::NotAnObject);
    }
    let v = crate::chars::char_vec(message);
    match crate::json::parse_document(&v) {
        None => Err(DecodeError::MalformedJson(String::from_str("json: syntax error"))),
        Some((doc, j)) => {
            let e = crate::json::skip_ws_end(&v, j);
            if e != v.len() {
                let mut cause = String::from_str("json: trailing text at character ");
                let pos = crate::decimal::u64_to_dec_string(e as u64);
                cause.append(pos.as_str());
                Err(DecodeError::MalformedJson(cause))
            } else {
                match doc {
                    JsonValue::Obj(members) => classify_x(&members),
                    _ => Err(DecodeError::NotAnObject),
                }
            }
        },
    }
}

// ---------------------------------------------------------------------------
// Laws of the balance reshape
// ---------------------------------------------------------------------------

/// The balance a mapping holds under a symbol: the last entry with it.
pub open spec fn balance_lookup(s: Seq<BalanceModel>, sym: Seq<char>) -> Option<BalanceModel>
    decreases s.len(),
{
    if s.len() == 0 {
        None
    } else if s.last().symbol == sym {
        Some(s.last())
    } else {
        balance_lookup(s.drop_last(), sym)
    }
}

/// No symbol occurs twice.
pub open spec fn unique_symbols(s: Seq<BalanceModel>) -> bool {
    forall|i: int, j: int| 0 <= i < j < s.len() ==> s[i].symbol != s[j].symbol
}

proof fn lemma_find_symbol_props(acc: Seq<BalanceModel>, sym: Seq<char>)
    ensures
        0 <= find_symbol(acc, sym) <= acc.len(),
        find_symbol(acc, sym) < acc.len() ==> acc[find_symbol(acc, sym)].symbol == sym,
        forall|j: int| 0 <= j < find_symbol(acc, sym) ==> acc[j].symbol != sym,
    decreases acc.len(),
{
    if acc.len() > 0 && acc[0].symbol != sym {
        let tail = acc.subrange(1, acc.len() as int);
        lemma_find_symbol_props(tail, sym);
        assert forall|j: int| 0 <= j < find_symbol(acc, sym) implies acc[j].symbol != sym by {
            if j >= 1 {
                assert(tail[j - 1] == acc[j]);
            }
        }
        if find_symbol(acc, sym) < acc.len() {
            assert(tail[find_symbol(acc, sym) - 1] == acc[find_symbol(acc, sym)]);
        }
    }
}

/// Looking up in an updated list: the updated entry wins under its own
/// symbol; every other symbol is untouched.
proof fn lemma_lookup_update(acc: Seq<BalanceModel>, k: int, b: BalanceModel, sym: Seq<char>)
    requires
        unique_symbols(acc),
        0 <= k < acc.len(),
        acc[k].symbol == b.symbol,
    ensures
        balance_lookup(acc.update(k, b), sym) == (if sym == b.symbol {
            Some(b)
        } else {
            balance_lookup(acc, sym)
        }),
    decreases acc.len(),
{
    let u = acc.update(k, b);
    assert(u.len() == acc.len());
    if k == acc.len() - 1 {
        assert(u.last() == b);
        assert(u.drop_last() =~= acc.drop_last());
        if sym == b.symbol {
        } else {
            assert(acc.last().symbol == b.symbol);
        }
    } else {
        assert(u.last() == acc.last());
        assert(u.drop_last() =~= acc.drop_last().update(k, b));
        assert(acc.drop_last()[k] == acc[k]);
        assert(unique_symbols(acc.drop_last())) by {
            assert(forall|i: int, j: int|
                0 <= i < j < acc.drop_last().len() ==> acc.drop_last()[i] == acc[i]
                    && acc.drop_last()[j] == acc[j]);
        }
        lemma_lookup_update(acc.drop_last(), k, b, sym);
        if sym == b.symbol {
            assert(acc.last().symbol != b.symbol);
        }
    }
}

/// Upserting keeps symbols unique and makes the new entry win under its own
/// symbol, leaving every other symbol's entry as it was.
proof fn lemma_upsert(acc: Seq<BalanceModel>, b: BalanceModel, sym: Seq<char>)
    requires
        unique_symbols(acc),
    ensures
        unique_symbols(upsert_balance(acc, b)),
        balance_lookup(upsert_balance(acc, b), sym) == (if sym == b.symbol {
            Some(b)
        } else {
            balance_lookup(acc, sym)
        }),
{
    lemma_find_symbol_props(acc, b.symbol);
    let k = find_symbol(acc, b.symbol);
    if k < acc.len() {
        lemma_lookup_update(acc, k, b, sym);
        let u = acc.update(k, b);
        assert forall|i: int, j: int| 0 <= i < j < u.len() implies u[i].symbol != u[j].symbol by {
            assert(acc[i].symbol != acc[j].symbol);
        }
    } else {
        let u = acc.push(b);
        assert(u.last() == b);
        assert(u.drop_last() =~= acc);
        assert forall|i: int, j: int| 0 <= i < j < u.len() implies u[i].symbol != u[j].symbol by {
            if j < u.len() - 1 {
                assert(acc[i].symbol != acc[j].symbol);
            } else {
                assert(u[i] == acc[i]);
                assert(acc[i].symbol != b.symbol);
            }
        }
    }
}

/// Balance reshape determinism: the reshaped mapping holds one entry per
/// distinct symbol, and under each symbol exactly the last entry of the
/// response list that carried it — duplicate symbols overwrite, last write
/// wins.
pub proof fn lemma_reshape_last_wins(s: Seq<BalanceModel>, sym: Seq<char>)
    ensures
        unique_symbols(spec_reshape(s)),
        balance_lookup(spec_reshape(s), sym) == balance_lookup(s, sym),
    decreases s.len(),
{
    if s.len() > 0 {
        lemma_reshape_last_wins(s.drop_last(), sym);
        lemma_upsert(spec_reshape(s.drop_last()), s.last(), sym);
    }
}

} // verus!
