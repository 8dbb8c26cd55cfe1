//! The local view of the current market: best bid, best ask, and the
//! derived relative spread, reduced from the most recently ingested book
//! snapshot or ticker.
//!
//! This is a reducer, not a multi-phase machine: each ingest fully replaces
//! the prior state for the side or sides it covers, and nothing here ever
//! fails — malformed input is rejected earlier, at decode time.

use crate::decimal::div_round_up;
use crate::decimal::model_inv;
use crate::decimal::pow10;
use crate::decimal::representable;
use crate::decimal::scaled_val;
use crate::decimal::spec_render;
use crate::decimal::zero_model;
use crate::decimal::Decimal;
use crate::events::levels_model;
use crate::events::Book;
use crate::events::PriceLevel;
use crate::events::PriceLevelModel;
use crate::events::Ticker;
use vstd::prelude::*;

verus! {

/// The zero sentinel level, reported when a side holds no real liquidity.
pub open spec fn zero_level_model() -> PriceLevelModel {
    PriceLevelModel { price: zero_model(), quantity: zero_model() }
}

/// A side with its leading zero-quantity levels dropped: the exchange may
/// emit now-empty levels at the front of a snapshot, and those are not real
/// liquidity.
pub open spec fn skip_zero_qty(s: Seq<PriceLevelModel>) -> Seq<PriceLevelModel>
    decreases s.len(),
{
    if s.len() > 0 && scaled_val(s[0].quantity) == 0 {
        skip_zero_qty(s.subrange(1, s.len() as int))
    } else {
        s
    }
}

/// What a ticker leaves on one side: a single fresh level when the ticker
/// carries both the price and the size of that side, the old levels
/// otherwise.
pub open spec fn ticker_side_update(
    old_side: Seq<PriceLevelModel>,
    price: Option<crate::decimal::DecimalModel>,
    size: Option<crate::decimal::DecimalModel>,
) -> Seq<PriceLevelModel> {
    match (price, size) {
        (Some(p), Some(q)) => seq![PriceLevelModel { price: p, quantity: q }],
        _ => old_side,
    }
}

/// The relative spread `(ask - bid) / ((bid + ask) / 2)` over scaled
/// values, with every derived step rounded toward positive infinity at ten
/// fractional digits; absent where some step cannot be represented or the
/// midpoint is zero.
pub open spec fn spec_spread(vb: int, va: int) -> Option<int> {
    let sum = vb + va;
    let diff = va - vb;
    if !representable(sum) {
        None
    } else {
        let mid = div_round_up(sum * pow10(10) as int, 2 * pow10(10) as int);
        if !representable(mid) {
            None
        } else if mid == 0 {
            None
        } else if !representable(diff) {
            None
        } else {
            let sp = div_round_up(diff * pow10(10) as int, mid);
            if !representable(sp) {
                None
            } else {
                Some(sp)
            }
        }
    }
}

pub struct LocalBookModel {
    pub bids: Seq<PriceLevelModel>,
    pub asks: Seq<PriceLevelModel>,
}

/// The locally maintained top of the book.  One writer ingests decoded
/// events in wire order; any number of readers may look at the tops and the
/// spread between ingests.
pub struct LocalBook {
    price_level_default: PriceLevel,
    bids: Vec<PriceLevel>,
    asks: Vec<PriceLevel>,
}

impl View for LocalBook {
    type V = LocalBookModel;

    closed spec fn view(&self) -> LocalBookModel {
        LocalBookModel { bids: levels_model(self.bids@), asks: levels_model(self.asks@) }
    }
}

impl LocalBook {
    #[verifier::type_invariant]
    pub closed spec fn wf(self) -> bool {
        self.price_level_default@ == zero_level_model()
    }

    /// An empty book: both sides unknown.
    pub fn new() -> (r: LocalBook)
        ensures
            r@.bids.len() == 0,
            r@.asks.len() == 0,
    {
        let r = LocalBook {
            price_level_default: PriceLevel { price: Decimal::zero(), quantity: Decimal::zero() },
            bids: Vec::new(),
            asks: Vec::new(),
        };
        proof {
            assert(levels_model(r.bids@) =~= Seq::<PriceLevelModel>::empty());
            assert(levels_model(r.asks@) =~= Seq::<PriceLevelModel>::empty());
        }
        r
    }

    /// The best bid, or the zero sentinel while no bid is known.
    pub fn top_bid_or_default(&self) -> (r: &PriceLevel)
        ensures
            self@.bids.len() > 0 ==> r@ == self@.bids[0],
            self@.bids.len() == 0 ==> r@ == zero_level_model(),
    {
        proof {
            use_type_invariant(self);
        }
        if self.bids.len() > 0 {
            &self.bids[0]
        } else {
            &self.price_level_default
        }
    }

    /// The best ask, or the zero sentinel while no ask is known.
    pub fn top_ask_or_default(&self) -> (r: &PriceLevel)
        ensures
            self@.asks.len() > 0 ==> r@ == self@.asks[0],
            self@.asks.len() == 0 ==> r@ == zero_level_model(),
    {
        proof {
            use_type_invariant(self);
        }
        if self.asks.len() > 0 {
            &self.asks[0]
        } else {
            &self.price_level_default
        }
    }

    /// Replaces both sides with a snapshot, dropping each side's leading
    /// zero-quantity levels; the remainder is kept in the order received,
    /// best first.
    pub fn ingest_book(&mut self, book: Book)
        ensures
            final(self)@.bids == skip_zero_qty(book@.bids),
            final(self)@.asks == skip_zero_qty(book@.asks),
    {
        proof {
            use_type_invariant(&*self);
        }
        let bids = drop_leading_zero_qty(book.bids);
        let asks = drop_leading_zero_qty(book.asks);
        self.bids = bids;
        self.asks = asks;
    }

    /// Replaces only the sides the ticker carries: a side is replaced when
    /// both its price and its size are present, and left untouched
    /// otherwise, so a partial ticker never disturbs the other side.
    pub fn ingest_ticker(&mut self, ticker: Ticker)
        ensures
            final(self)@.bids == ticker_side_update(
                old(self)@.bids,
                ticker@.best_bid,
                ticker@.best_bid_size,
            ),
            final(self)@.asks == ticker_side_update(
                old(self)@.asks,
                ticker@.best_ask,
                ticker@.best_ask_size,
            ),
    {
        proof {
            use_type_invariant(&*self);
        }
        let Ticker { market: _, best_bid, best_bid_size, best_ask, best_ask_size } = ticker;
        match (best_bid, best_bid_size) {
            (Some(price), Some(quantity)) => {
                let mut side: Vec<PriceLevel> = Vec::new();
                side.push(PriceLevel { price, quantity });
                self.bids = side;
                proof {
                    assert(levels_model(self.bids@) =~= seq![self.bids@[0]@]);
                }
            },
            _ => {
            },
        }
        match (best_ask, best_ask_size) {
            (Some(price), Some(quantity)) => {
                let mut side: Vec<PriceLevel> = Vec::new();
                side.push(PriceLevel { price, quantity });
                self.asks = side;
                proof {
                    assert(levels_model(self.asks@) =~= seq![self.asks@[0]@]);
                }
            },
            _ => {
            },
        }
    }

    /// The signed relative spread `(ask - bid) / ((bid + ask) / 2)`, or the
    /// zero decimal while either side is missing or some step cannot be
    /// computed: spread is a best-effort display quantity, never a hard
    /// failure.
    pub fn real_spread_or_default(&self) -> (r: Decimal)
        ensures
            model_inv(r@),
            r@.text == spec_render(r@.neg, r@.units, r@.scale),
            ({
                if self@.bids.len() == 0 || self@.asks.len() == 0 {
                    scaled_val(r@) == 0
                } else {
                    match spec_spread(
                        scaled_val(self@.bids[0].price),
                        scaled_val(self@.asks[0].price),
                    ) {
                        Some(v) => scaled_val(r@) == v,
                        None => scaled_val(r@) == 0,
                    }
                }
            }),
    {
        proof {
            use_type_invariant(self);
            crate::decimal::lemma_pow10_values();
        }
        if self.bids.len() == 0 || self.asks.len() == 0 {
            return Decimal::zero();
        }
        let bid = &self.bids[0].price;
        let ask = &self.asks[0].price;
        let sum = match bid.add(ask) {
            Some(s) => s,
            None => {
                return Decimal::zero();
            },
        };
        let two = Decimal::from_u64(2);
        let mid = match sum.div(&two) {
            Some(m) => m,
            None => {
                return Decimal::zero();
            },
        };
        let diff = match ask.sub(bid) {
            Some(d) => d,
            None => {
                return Decimal::zero();
            },
        };
        match diff.div(&mid) {
            Some(sp) => sp,
            None => Decimal::zero(),
        }
    }
}

impl Default for LocalBook {
    /// The default book is empty on both sides.
    fn default() -> (r: LocalBook)
        ensures
            r@.bids.len() == 0,
            r@.asks.len() == 0,
    {
        LocalBook::new()
    }
}

/// Drops a side's leading zero-quantity levels.
fn drop_leading_zero_qty(side: Vec<PriceLevel>) -> (r: Vec<PriceLevel>)
    ensures
        levels_model(r@) == skip_zero_qty(levels_model(side@)),
{
    let ghost m = levels_model(side@);
    let mut i: usize = 0;
    while i < side.len() && side[i].quantity.is_zero()
        invariant
            i <= side@.len(),
            m == levels_model(side@),
            forall|j: int| 0 <= j < i ==> scaled_val(m[j].quantity) == 0,
        decreases side@.len() - i,
    {
        i = i + 1;
    }
    proof {
        lemma_skip_zero_from(m, i as int);
    }
    let mut out: Vec<PriceLevel> = Vec::new();
    let mut j = i;
    while j < side.len()
        invariant
            i <= j <= side@.len(),
            m == levels_model(side@),
            levels_model(out@) == m.subrange(i as int, j as int),
        decreases side@.len() - j,
    {
        let l = side[j].clone();
        let ghost pre = out@;
        out.push(l);
        j = j + 1;
        proof {
            assert(l@ == m[j - 1]);
            assert(levels_model(out@) =~= levels_model(pre) + seq![l@]);
            assert(m.subrange(i as int, j as int) =~= m.subrange(i as int, j as int - 1) + seq![
                m[j - 1],
            ]);
        }
    }
    proof {
        assert(m.subrange(i as int, side@.len() as int) =~= skip_zero_qty(m));
    }
    out
}

/// Dropping leading zero-quantity levels keeps exactly the suffix from the
/// first level with real quantity.
proof fn lemma_skip_zero_from(s: Seq<PriceLevelModel>, i: int)
    requires
        0 <= i <= s.len(),
        forall|j: int| 0 <= j < i ==> scaled_val(s[j].quantity) == 0,
        i < s.len() ==> scaled_val(s[i].quantity) != 0,
    ensures
        skip_zero_qty(s) == s.subrange(i, s.len() as int),
    decreases s.len(),
{
    if i == 0 {
        if s.len() > 0 && scaled_val(s[0].quantity) == 0 {
        } else {
            assert(s.subrange(0, s.len() as int) =~= s);
        }
    } else {
        let tail = s.subrange(1, s.len() as int);
        assert(forall|j: int| 0 <= j < i - 1 ==> tail[j] == s[j + 1]);
        if i < s.len() {
            assert(tail[i - 1] == s[i]);
        }
        lemma_skip_zero_from(tail, i - 1);
        assert(tail.subrange(i - 1, tail.len() as int) =~= s.subrange(i, s.len() as int));
    }
}

} // verus!
