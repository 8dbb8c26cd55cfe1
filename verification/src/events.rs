//! Typed representations of each message shape the exchange can emit, and
//! of the commands this client can send, together with their mathematical
//! models.

use crate::decimal::Decimal;
use crate::decimal::DecimalModel;
use vstd::prelude::*;

verus! {

// ---------------------------------------------------------------------------
// Sides
// ---------------------------------------------------------------------------

/// The side of a trade.
#[derive(Debug, Clone, Copy, PartialEq, Eq, Structural)]
pub enum Side {
    Buy,
    Sell,
}

impl Side {
    /// The name the wire protocol uses for this side.
    pub fn wire_name(&self) -> (r: String)
        ensures
            *self == Side::Buy ==> r@ == "buy"@,
            *self == Side::Sell ==> r@ == "sell"@,
    {
        match self {
            Side::Buy => String::from_str("buy"),
            Side::Sell => String::from_str("sell"),
        }
    }

    /// This side as a JSON document: its wire name in quotes.
    pub fn to_json_string(&self) -> (r: String)
        ensures
            *self == Side::Buy ==> r@ == "\"buy\""@,
            *self == Side::Sell ==> r@ == "\"sell\""@,
    {
        match self {
            Side::Buy => String::from_str("\"buy\""),
            Side::Sell => String::from_str("\"sell\""),
        }
    }
}

// ---------------------------------------------------------------------------
// Price levels and books
// ---------------------------------------------------------------------------

pub struct PriceLevelModel {
    pub price: DecimalModel,
    pub quantity: DecimalModel,
}

/// One level of the book: a price and the quantity resting at it.
#[derive(Debug)]
pub struct PriceLevel {
    pub price: Decimal,
    pub quantity: Decimal,
}

impl View for PriceLevel {
    type V = PriceLevelModel;

    open spec fn view(&self) -> PriceLevelModel {
        PriceLevelModel { price: self.price@, quantity: self.quantity@ }
    }
}

impl Clone for PriceLevel {
    /// A clone carries the same level.
    fn clone(&self) -> (r: PriceLevel)
        ensures
            r@ == self@,
    {
        PriceLevel { price: self.price.clone(), quantity: self.quantity.clone() }
    }
}

pub open spec fn levels_model(v: Seq<PriceLevel>) -> Seq<PriceLevelModel> {
    Seq::new(v.len(), |i: int| v[i]@)
}

pub struct BookModel {
    pub nonce: int,
    pub bids: Seq<PriceLevelModel>,
    pub asks: Seq<PriceLevelModel>,
}

/// A whole-book snapshot, best levels first on both sides.
#[derive(Debug)]
pub struct Book {
    pub nonce: i64,
    pub bids: Vec<PriceLevel>,
    pub asks: Vec<PriceLevel>,
}

impl View for Book {
    type V = BookModel;

    open spec fn view(&self) -> BookModel {
        BookModel {
            nonce: self.nonce as int,
            bids: levels_model(self.bids@),
            asks: levels_model(self.asks@),
        }
    }
}

// ---------------------------------------------------------------------------
// Candles
// ---------------------------------------------------------------------------

pub struct CandleModel {
    pub timestamp: int,
    pub open: DecimalModel,
    pub high: DecimalModel,
    pub low: DecimalModel,
    pub close: DecimalModel,
    pub volume: DecimalModel,
}

/// One candle: a timestamp and the open/high/low/close/volume tuple.
#[derive(Debug)]
pub struct Candle {
    pub timestamp: u64,
    pub open: Decimal,
    pub high: Decimal,
    pub low: Decimal,
    pub close: Decimal,
    pub volume: Decimal,
}

impl View for Candle {
    type V = CandleModel;

    open spec fn view(&self) -> CandleModel {
        CandleModel {
            timestamp: self.timestamp as int,
            open: self.open@,
            high: self.high@,
            low: self.low@,
            close: self.close@,
            volume: self.volume@,
        }
    }
}

// ---------------------------------------------------------------------------
// Trades
// ---------------------------------------------------------------------------

pub struct TradeModel {
    pub timestamp: int,
    pub id: Seq<char>,
    pub amount: DecimalModel,
    pub price: DecimalModel,
    pub side: Side,
}

/// One public trade.
#[derive(Debug)]
pub struct Trade {
    pub timestamp: u64,
    pub id: String,
    pub amount: Decimal,
    pub price: Decimal,
    pub side: Side,
}

impl View for Trade {
    type V = TradeModel;

    open spec fn view(&self) -> TradeModel {
        TradeModel {
            timestamp: self.timestamp as int,
            id: self.id@,
            amount: self.amount@,
            price: self.price@,
            side: self.side,
        }
    }
}

// ---------------------------------------------------------------------------
// Tickers
// ---------------------------------------------------------------------------

pub struct TickerModel {
    pub market: Seq<char>,
    pub best_bid: Option<DecimalModel>,
    pub best_bid_size: Option<DecimalModel>,
    pub best_ask: Option<DecimalModel>,
    pub best_ask_size: Option<DecimalModel>,
}

pub open spec fn opt_model(v: Option<Decimal>) -> Option<DecimalModel> {
    match v {
        Some(d) => Some(d@),
        None => None,
    }
}

/// A top-of-book ticker; either side may be absent.
#[derive(Debug)]
pub struct Ticker {
    pub market: String,
    pub best_bid: Option<Decimal>,
    pub best_bid_size: Option<Decimal>,
    pub best_ask: Option<Decimal>,
    pub best_ask_size: Option<Decimal>,
}

impl View for Ticker {
    type V = TickerModel;

    open spec fn view(&self) -> TickerModel {
        TickerModel {
            market: self.market@,
            best_bid: opt_model(self.best_bid),
            best_bid_size: opt_model(self.best_bid_size),
            best_ask: opt_model(self.best_ask),
            best_ask_size: opt_model(self.best_ask_size),
        }
    }
}

pub struct Ticker24hModel {
    pub market: Seq<char>,
    pub open: DecimalModel,
    pub high: DecimalModel,
    pub low: DecimalModel,
    pub last: DecimalModel,
    pub volume: DecimalModel,
    pub volume_quote: DecimalModel,
    pub bid: DecimalModel,
    pub ask: DecimalModel,
    pub timestamp: int,
    pub bid_size: DecimalModel,
    pub ask_size: DecimalModel,
}

/// The 24-hour statistics ticker.
#[derive(Debug)]
pub struct Ticker24h {
    pub market: String,
    pub open: Decimal,
    pub high: Decimal,
    pub low: Decimal,
    pub last: Decimal,
    pub volume: Decimal,
    pub volume_quote: Decimal,
    pub bid: Decimal,
    pub ask: Decimal,
    pub timestamp: u64,
    pub bid_size: Decimal,
    pub ask_size: Decimal,
}

impl View for Ticker24h {
    type V = Ticker24hModel;

    open spec fn view(&self) -> Ticker24hModel {
        Ticker24hModel {
            market: self.market@,
            open: self.open@,
            high: self.high@,
            low: self.low@,
            last: self.last@,
            volume: self.volume@,
            volume_quote: self.volume_quote@,
            bid: self.bid@,
            ask: self.ask@,
            timestamp: self.timestamp as int,
            bid_size: self.bid_size@,
            ask_size: self.ask_size@,
        }
    }
}

pub struct TickerBookModel {
    pub market: Seq<char>,
    pub bid: DecimalModel,
    pub ask: DecimalModel,
    pub bid_size: DecimalModel,
    pub ask_size: DecimalModel,
}

/// The best bid and ask of one market, as returned on request.
#[derive(Debug)]
pub struct TickerBook {
    pub market: String,
    pub bid: Decimal,
    pub ask: Decimal,
    pub bid_size: Decimal,
    pub ask_size: Decimal,
}

impl View for TickerBook {
    type V = TickerBookModel;

    open spec fn view(&self) -> TickerBookModel {
        TickerBookModel {
            market: self.market@,
            bid: self.bid@,
            ask: self.ask@,
            bid_size: self.bid_size@,
            ask_size: self.ask_size@,
        }
    }
}

pub struct TickerBookResponseModel {
    pub action: Seq<char>,
    pub response: TickerBookModel,
}

/// The envelope of a ticker-book request's answer.
#[derive(Debug)]
pub struct TickerBookResponse {
    pub action: String,
    pub response: TickerBook,
}

impl View for TickerBookResponse {
    type V = TickerBookResponseModel;

    open spec fn view(&self) -> TickerBookResponseModel {
        TickerBookResponseModel { action: self.action@, response: self.response@ }
    }
}

// ---------------------------------------------------------------------------
// Markets
// ---------------------------------------------------------------------------

pub struct MarketModel {
    pub status: Seq<char>,
    pub base: Seq<char>,
    pub quote: Seq<char>,
    pub market: Seq<char>,
    pub price_precision: Option<int>,
    pub min_order_in_quote_asset: Option<Seq<char>>,
    pub min_order_in_base_asset: Option<Seq<char>>,
    pub order_types: Option<Seq<Seq<char>>>,
}

/// One market's metadata.
#[derive(Debug)]
pub struct Market {
    pub status: String,
    pub base: String,
    pub quote: String,
    pub market: String,
    pub price_precision: Option<u32>,
    pub min_order_in_quote_asset: Option<String>,
    pub min_order_in_base_asset: Option<String>,
    pub order_types: Option<Vec<String>>,
}

pub open spec fn opt_int_model(v: Option<u32>) -> Option<int> {
    match v {
        Some(n) => Some(n as int),
        None => None,
    }
}

pub open spec fn opt_str_model(v: Option<String>) -> Option<Seq<char>> {
    match v {
        Some(s) => Some(s@),
        None => None,
    }
}

pub open spec fn strings_model(v: Seq<String>) -> Seq<Seq<char>> {
    Seq::new(v.len(), |i: int| v[i]@)
}

pub open spec fn opt_strings_model(v: &Option<Vec<String>>) -> Option<Seq<Seq<char>>> {
    match v {
        Some(ss) => Some(strings_model(ss@)),
        None => None,
    }
}

impl View for Market {
    type V = MarketModel;

    open spec fn view(&self) -> MarketModel {
        MarketModel {
            status: self.status@,
            base: self.base@,
            quote: self.quote@,
            market: self.market@,
            price_precision: opt_int_model(self.price_precision),
            min_order_in_quote_asset: opt_str_model(self.min_order_in_quote_asset),
            min_order_in_base_asset: opt_str_model(self.min_order_in_base_asset),
            order_types: opt_strings_model(&self.order_types),
        }
    }
}

pub open spec fn markets_model(v: Seq<Market>) -> Seq<MarketModel> {
    Seq::new(v.len(), |i: int| v[i]@)
}

/// The envelope of a markets request's answer.
pub struct MarketsResponse {
    pub action: String,
    pub response: Vec<Market>,
}

// ---------------------------------------------------------------------------
// Balances
// ---------------------------------------------------------------------------

pub struct BalanceModel {
    pub symbol: Seq<char>,
    pub available: DecimalModel,
    pub in_order: DecimalModel,
}

/// One asset's balance.
#[derive(Debug)]
pub struct Balance {
    pub symbol: String,
    pub available: Decimal,
    pub in_order: Decimal,
}

impl View for Balance {
    type V = BalanceModel;

    open spec fn view(&self) -> BalanceModel {
        BalanceModel { symbol: self.symbol@, available: self.available@, in_order: self.in_order@ }
    }
}

impl Clone for Balance {
    /// A clone carries the same balance.
    fn clone(&self) -> (r: Balance)
        ensures
            r@ == self@,
    {
        Balance {
            symbol: self.symbol.clone(),
            available: self.available.clone(),
            in_order: self.in_order.clone(),
        }
    }
}

pub open spec fn balances_model(v: Seq<Balance>) -> Seq<BalanceModel> {
    Seq::new(v.len(), |i: int| v[i]@)
}

/// The envelope of a balance request's answer.
pub struct GetBalancesResponse {
    pub response: Vec<Balance>,
}

// ---------------------------------------------------------------------------
// Subscription acknowledgements
// ---------------------------------------------------------------------------

/// The answer to a subscribe command; an error field means rejection.
pub struct SubscriptionResponse {
    pub error: Option<String>,
    pub error_code: Option<String>,
}

// ---------------------------------------------------------------------------
// The event union
// ---------------------------------------------------------------------------

pub enum EventModel {
    Subscribed,
    Book(BookModel),
    Candle(CandleModel),
    Trade(TradeModel),
    Markets(Seq<MarketModel>),
    TickerBook(TickerBookResponseModel),
    Ticker24h(Ticker24hModel),
    Ticker(TickerModel),
    Balances(Seq<BalanceModel>),
}

/// One decoded frame: exactly one variant per frame, never partially
/// populated.
#[derive(Debug)]
pub enum BitvavoEvent {
    Subscribed,
    Book(Book),
    Candle(Candle),
    Trade(Trade),
    Markets(Vec<Market>),
    TickerBook(TickerBookResponse),
    Ticker24h(Ticker24h),
    Ticker(Ticker),
    Balances(Vec<Balance>),
}

impl BitvavoEvent {
    pub fn from_candle(candle: Candle) -> (r: BitvavoEvent)
        ensures
            r@ == EventModel::Candle(candle@),
    {
        BitvavoEvent::Candle(candle)
    }

    pub fn from_book(book: Book) -> (r: BitvavoEvent)
        ensures
            r@ == EventModel::Book(book@),
    {
        BitvavoEvent::Book(book)
    }

    pub fn from_trade(trade: Trade) -> (r: BitvavoEvent)
        ensures
            r@ == EventModel::Trade(trade@),
    {
        BitvavoEvent::Trade(trade)
    }

    pub fn from_ticker24h(ticker24h: Ticker24h) -> (r: BitvavoEvent)
        ensures
            r@ == EventModel::Ticker24h(ticker24h@),
    {
        BitvavoEvent::Ticker24h(ticker24h)
    }

    pub fn from_ticker(ticker: Ticker) -> (r: BitvavoEvent)
        ensures
            r@ == EventModel::Ticker(ticker@),
    {
        BitvavoEvent::Ticker(ticker)
    }
}

impl View for BitvavoEvent {
    type V = EventModel;

    open spec fn view(&self) -> EventModel {
        match self {
            BitvavoEvent::Subscribed => EventModel::Subscribed,
            BitvavoEvent::Book(b) => EventModel::Book(b@),
            BitvavoEvent::Candle(c) => EventModel::Candle(c@),
            BitvavoEvent::Trade(t) => EventModel::Trade(t@),
            BitvavoEvent::Markets(ms) => EventModel::Markets(markets_model(ms@)),
            BitvavoEvent::TickerBook(tb) => EventModel::TickerBook(tb@),
            BitvavoEvent::Ticker24h(t) => EventModel::Ticker24h(t@),
            BitvavoEvent::Ticker(t) => EventModel::Ticker(t@),
            BitvavoEvent::Balances(bs) => EventModel::Balances(balances_model(bs@)),
        }
    }
}

// ---------------------------------------------------------------------------
// Other response shapes of the request/reply surface
// ---------------------------------------------------------------------------

/// The answer to a server-time request.
pub struct TimeResponse {
    pub action: String,
    pub response: Time,
}

pub struct Time {
    pub time: u32,
}

/// The answer to an assets request.
pub struct AssetsResponse {
    pub action: String,
    pub response: Vec<Assets>,
}

pub struct Assets {
    pub symbol: String,
    pub name: String,
    pub decimals: u32,
    pub deposit_fee: String,
    pub deposit_confirmations: u32,
    pub deposit_status: String,
    pub withdrawal_fee: String,
    pub withdrawal_min_amount: String,
    pub withdrawal_status: String,
    pub networks: Vec<String>,
    pub message: String,
}

/// The answer to a 24-hour ticker request.
pub struct Ticker24hResponse {
    pub action: String,
    pub response: Vec<Ticker24h>,
}

/// The answer to a ticker-price request.
pub struct TickerPriceResponse {
    pub action: String,
    pub response: Vec<TickerPrice>,
}

pub struct TickerPrice {
    pub market: String,
    pub price: String,
}

/// The answer to placing an order.
pub struct PlaceOrderResponse {
    pub action: String,
    pub response: Order,
}

/// The answer to querying an order.
pub struct GetOrderResponse {
    pub action: String,
    pub response: Order,
}

/// The answer to updating an order.
pub struct UpdateOrderResponse {
    pub action: String,
    pub response: Order,
}

/// The answer to cancelling an order.
pub struct CancelOrderResponse {
    pub action: String,
    pub response: CancelOrder,
}

pub struct Order {
    pub order_id: String,
    pub market: String,
    pub created: u32,
    pub updated: u32,
    pub status: String,
    pub side: String,
    pub order_type: String,
    pub amount: String,
    pub amount_remaining: String,
    pub price: String,
    pub amount_quote: String,
    pub amount_quote_remaining: String,
    pub on_hold: String,
    pub on_hold_currency: String,
    pub filled_amount: String,
    pub filled_amount_quote: String,
    pub fee_paid: String,
    pub fee_currency: String,
    pub fills: Vec<Fill>,
    pub self_trade_prevention: String,
    pub visible: bool,
    pub disable_market_protection: bool,
    pub time_in_force: String,
    pub post_only: bool,
    pub trigger_amount: String,
    pub trigger_price: String,
    pub trigger_type: String,
    pub trigger_reference: String,
}

pub struct CancelOrder {
    pub order_id: String,
}

pub struct Fill {
    pub id: String,
    pub timestamp: u64,
    pub amount: String,
    pub price: String,
    pub taker: bool,
    pub fee: String,
    pub fee_currency: String,
    pub settled: bool,
}

} // verus!
