use vstd::prelude::*;
use vstd::string::*;

use crate::orderbook::Depth;
use crate::engine::CreatedOrder;
use crate::orderbook::OrderBook;
use crate::types::{decimal, number_text, Fills, Kind, Market, Order};

verus! {

/// A request to place a limit order.
#[derive(Debug, Clone)]
pub struct CreateOrder {
    pub market: Market,
    pub price: usize,
    pub quantity: usize,
    pub side: Kind,
    pub user_id: String,
}

/// A request to cancel a resting order.
#[derive(Debug, Clone)]
pub struct CancelOrder {
    pub order_id: String,
    pub market: Market,
    pub user_id: String,
}

/// A deposit into a user's available balance.
#[derive(Debug, Clone)]
pub struct OnRamp {
    pub amount: usize,
    pub user_id: String,
    pub txn_id: String,
}

/// A request for a market's depth.
#[derive(Debug, Clone)]
pub struct GetDepth {
    pub market: Market,
}

/// A request for a user's open orders in a market.
#[derive(Debug, Clone)]
pub struct GetOpenOrders {
    pub user_id: String,
    pub market: Market,
}

/// The requests that the engine serves.
#[derive(Debug, Clone)]
pub enum MessageFromApi {
    CreateOrder { data: CreateOrder },
    CancelOrder { data: CancelOrder },
    OnRamp { data: OnRamp },
    GetDepth { data: GetDepth },
    GetOpenOrders { data: GetOpenOrders },
}

/// One fill as the caller of a new order sees it.
#[derive(Debug, Clone)]
pub struct Fill {
    pub price: String,
    pub qty: usize,
    pub trade_id: usize,
}

/// The answer to a new order.
#[derive(Debug, Clone)]
pub struct OrderPlaced {
    pub order_id: String,
    pub executed_qty: usize,
    pub fills: Vec<Fill>,
}

/// The answer to a cancellation: what the order had traded and what was left.
#[derive(Debug, Clone)]
pub struct OrderCancelled {
    pub order_id: String,
    pub executed_qty: usize,
    pub remaining_qty: usize,
}

/// A user's open orders.
#[derive(Debug, Clone)]
pub struct OpenOrders {
    pub orders: Vec<Order>,
}

/// The answers that go back to the caller.
#[derive(Debug, Clone)]
pub enum MessageToApi {
    Depth { payload: Depth },
    OrderPlaced { payload: OrderPlaced },
    OrderCancelled { payload: OrderCancelled },
    OpenOrders { payload: OpenOrders },
}

/// A trade, for the trade history.
#[derive(Debug, Clone)]
pub struct TradeAdded {
    pub id: String,
    pub is_buyer_maker: bool,
    pub price: usize,
    pub quantity: usize,
    pub quotequantity: u128,
    pub timestamp: usize,
    pub market: Market,
}

/// A change to the executed quantity of an order.
#[derive(Debug, Clone)]
pub struct OrderUpdate {
    pub order_id: String,
    pub executed_qty: usize,
    pub market: Option<Market>,
    pub price: Option<usize>,
    pub quantity: Option<usize>,
    pub side: Option<Kind>,
}

/// The events for the trade-history store.
#[derive(Debug, Clone)]
pub enum DbMessage {
    TradeAdded { data: TradeAdded },
    OrderUpdate { data: OrderUpdate },
}

/// Ticker figures for live subscribers.
#[derive(Debug, Clone)]
pub struct TickerData {
    pub c: Option<String>,
    pub h: Option<String>,
    pub l: Option<String>,
    pub v: Option<String>,
    pub v_2: Option<String>,
    pub s: Option<String>,
    pub id: usize,
    pub e: String,
}

#[derive(Debug, Clone)]
pub struct TickerUpdateMessage {
    pub stream: String,
    pub data: TickerData,
}

/// Changed depth levels, as (price, quantity) text pairs.
#[derive(Debug, Clone)]
pub struct DepthData {
    pub b: Option<Vec<(String, String)>>,
    pub a: Option<Vec<(String, String)>>,
    pub e: String,
}

#[derive(Debug, Clone)]
pub struct DepthUpdateMessage {
    pub stream: String,
    pub data: DepthData,
}

/// One trade for live subscribers: id, whether the buyer was the maker,
/// price, quantity and symbol.
#[derive(Debug, Clone)]
pub struct TradeData {
    pub e: String,
    pub t: usize,
    pub m: bool,
    pub p: String,
    pub q: String,
    pub s: String,
}

#[derive(Debug, Clone)]
pub struct TradeAddedMessage {
    pub stream: String,
    pub data: TradeData,
}

/// The messages for live subscribers.
#[derive(Debug, Clone)]
pub enum WsMessage {
    TickerUpdateMessage { data: TickerData },
    DepthUpdateMessage { data: DepthData },
    TradeAddedMessage { data: TradeData },
}

/// The event name of a ticker message.
pub fn default_ticker_event() -> (r: String)
    ensures
        r@ == "ticker"@,
{
    String::from_str("ticker")
}

/// The event name of a depth message.
pub fn default_depth_event() -> (r: String)
    ensures
        r@ == "depth"@,
{
    String::from_str("depth")
}

/// The event name of a trade message.
pub fn default_trade_event() -> (r: String)
    ensures
        r@ == "trade"@,
{
    String::from_str("trade")
}


/// The update for a maker order that traded in fill `f`.
pub open spec fn maker_update(f: Fills) -> DbMessage {
    DbMessage::OrderUpdate {
        data: OrderUpdate {
            order_id: f.maker_order_id,
            executed_qty: f.quantity,
            market: None,
            price: None,
            quantity: None,
            side: None,
        },
    }
}

/// The order updates after `order` traded `executed_qty` in `fills`: one
/// for the taker, with its cumulative executed quantity, then one for the
/// maker of each fill.
pub fn update_db_orders(order: &Order, executed_qty: usize, fills: &Vec<Fills>, market: Market) -> (r: Vec<DbMessage>)
    ensures
        r@.len() == fills@.len() + 1,
        r@[0] == (DbMessage::OrderUpdate {
            data: OrderUpdate {
                order_id: order.order_id,
                executed_qty,
                market: Some(market),
                price: Some(order.price),
                quantity: Some(order.quantity),
                side: Some(order.side),
            },
        }),
        forall|k: int| 0 <= k < fills@.len() ==> #[trigger] r@[k + 1] == maker_update(fills@[k]),
{
    let mut r: Vec<DbMessage> = Vec::new();
    r.push(DbMessage::OrderUpdate {
        data: OrderUpdate {
            order_id: order.order_id.clone(),
            executed_qty,
            market: Some(market),
            price: Some(order.price),
            quantity: Some(order.quantity),
            side: Some(order.side),
        },
    });
    let mut i: usize = 0;
    while i < fills.len()
        invariant
            0 <= i <= fills@.len(),
            r@.len() == i + 1,
            r@[0] == (DbMessage::OrderUpdate {
                data: OrderUpdate {
                    order_id: order.order_id,
                    executed_qty,
                    market: Some(market),
                    price: Some(order.price),
                    quantity: Some(order.quantity),
                    side: Some(order.side),
                },
            }),
            forall|k: int| 0 <= k < i ==> #[trigger] r@[k + 1] == maker_update(fills@[k]),
        decreases fills@.len() - i,
    {
        let f = &fills[i];
        r.push(DbMessage::OrderUpdate {
            data: OrderUpdate {
                order_id: f.maker_order_id.clone(),
                executed_qty: f.quantity,
                market: None,
                price: None,
                quantity: None,
                side: None,
            },
        });
        i = i + 1;
    }
    r
}

/// The update for an order that was cancelled: its final executed quantity.
pub fn cancel_update(c: &OrderCancelled) -> (r: DbMessage)
    ensures
        r == (DbMessage::OrderUpdate {
            data: OrderUpdate {
                order_id: c.order_id,
                executed_qty: c.executed_qty,
                market: None,
                price: None,
                quantity: None,
                side: None,
            },
        }),
{
    DbMessage::OrderUpdate {
        data: OrderUpdate {
            order_id: c.order_id.clone(),
            executed_qty: c.executed_qty,
            market: None,
            price: None,
            quantity: None,
            side: None,
        },
    }
}

/// `m` records the trade of fill `f` in `market` for a taker on `side`, at
/// time `timestamp`.
pub open spec fn is_trade_of(m: DbMessage, f: Fills, market: Market, side: Kind, timestamp: usize) -> bool {
    match m {
        DbMessage::TradeAdded { data } => {
            &&& data.id@ == decimal(f.trade_id as int)
            &&& data.is_buyer_maker == (side == Kind::SELL)
            &&& data.price == f.price
            &&& data.quantity == f.quantity
            &&& data.quotequantity == f.price * f.quantity
            &&& data.timestamp == timestamp
            &&& data.market == market
        },
        _ => false,
    }
}

/// One trade record per fill of a taker on `side`; the buyer is the maker
/// where the taker sold.
pub fn create_db_trades(fills: &Vec<Fills>, market: Market, side: Kind, timestamp: usize) -> (r: Vec<DbMessage>)
    ensures
        r@.len() == fills@.len(),
        forall|k: int| 0 <= k < fills@.len() ==> is_trade_of(#[trigger] r@[k], fills@[k], market, side, timestamp),
{
    let mut r: Vec<DbMessage> = Vec::new();
    let mut i: usize = 0;
    while i < fills.len()
        invariant
            0 <= i <= fills@.len(),
            r@.len() == i,
            forall|k: int| 0 <= k < i ==> is_trade_of(#[trigger] r@[k], fills@[k], market, side, timestamp),
        decreases fills@.len() - i,
    {
        let f = &fills[i];
        let id = number_text(f.trade_id);
        let p = f.price as u128;
        let q = f.quantity as u128;
        assert(p * q <= u128::MAX) by (nonlinear_arith)
            requires
                p <= usize::MAX,
                q <= usize::MAX,
                usize::MAX <= u64::MAX,
        ;
        let t = TradeAdded {
            id,
            is_buyer_maker: side == Kind::SELL,
            price: f.price,
            quantity: f.quantity,
            quotequantity: p * q,
            timestamp,
            market,
        };
        r.push(DbMessage::TradeAdded { data: t });
        i = i + 1;
    }
    r
}

/// The answer to a new order: its id, what it executed, and its fills as
/// price text, quantity and trade id.
pub fn order_placed(c: &CreatedOrder) -> (r: OrderPlaced)
    ensures
        r.order_id == c.order_id,
        r.executed_qty == c.executed_qty,
        r.fills@.len() == c.fills@.len(),
        forall|k: int| 0 <= k < c.fills@.len() ==> {
            &&& (#[trigger] r.fills@[k]).price@ == decimal(c.fills@[k].price as int)
            &&& r.fills@[k].qty == c.fills@[k].quantity
            &&& r.fills@[k].trade_id == c.fills@[k].trade_id
        },
{
    let mut fills: Vec<Fill> = Vec::new();
    let mut i: usize = 0;
    while i < c.fills.len()
        invariant
            0 <= i <= c.fills@.len(),
            fills@.len() == i,
            forall|k: int| 0 <= k < i ==> {
                &&& (#[trigger] fills@[k]).price@ == decimal(c.fills@[k].price as int)
                &&& fills@[k].qty == c.fills@[k].quantity
                &&& fills@[k].trade_id == c.fills@[k].trade_id
            },
        decreases c.fills@.len() - i,
    {
        fills.push(Fill { price: number_text(c.fills[i].price), qty: c.fills[i].quantity, trade_id: c.fills[i].trade_id });
        i = i + 1;
    }
    OrderPlaced { order_id: c.order_id.clone(), executed_qty: c.executed_qty, fills }
}

/// The live messages for the fills of a taker on `side` in `book`, taken
/// after the order: for each fill a trade message, then the depth of the
/// maker side at the fill's price.
pub fn publish_ws_trade(fills: &Vec<Fills>, book: &OrderBook, side: Kind) -> (r: Vec<WsMessage>)
    ensures
        r@.len() == 2 * fills@.len(),
        forall|k: int| 0 <= k < fills@.len() ==> {
            &&& (#[trigger] r@[2 * k]) is TradeAddedMessage
            &&& r@[2 * k]->TradeAddedMessage_data.t == fills@[k].trade_id
            &&& r@[2 * k]->TradeAddedMessage_data.m == (side == Kind::SELL)
            &&& r@[2 * k]->TradeAddedMessage_data.p@ == decimal(fills@[k].price as int)
            &&& r@[2 * k]->TradeAddedMessage_data.q@ == decimal(fills@[k].quantity as int)
            &&& r@[2 * k]->TradeAddedMessage_data.e@ == "trade"@
            &&& r@[2 * k + 1] is DepthUpdateMessage
        },
{
    let mut r: Vec<WsMessage> = Vec::new();
    let mut i: usize = 0;
    while i < fills.len()
        invariant
            0 <= i <= fills@.len(),
            r@.len() == 2 * i,
            forall|k: int| 0 <= k < i ==> {
                &&& (#[trigger] r@[2 * k]) is TradeAddedMessage
                &&& r@[2 * k]->TradeAddedMessage_data.t == fills@[k].trade_id
                &&& r@[2 * k]->TradeAddedMessage_data.m == (side == Kind::SELL)
                &&& r@[2 * k]->TradeAddedMessage_data.p@ == decimal(fills@[k].price as int)
                &&& r@[2 * k]->TradeAddedMessage_data.q@ == decimal(fills@[k].quantity as int)
                &&& r@[2 * k]->TradeAddedMessage_data.e@ == "trade"@
                &&& r@[2 * k + 1] is DepthUpdateMessage
            },
        decreases fills@.len() - i,
    {
        let f = &fills[i];
        let data = TradeData {
            e: default_trade_event(),
            t: f.trade_id,
            m: side == Kind::SELL,
            p: number_text(f.price),
            q: number_text(f.quantity),
            s: book.ticker(),
        };
        r.push(WsMessage::TradeAddedMessage { data });
        let level = match side {
            Kind::BUY => match book.ask_depth.get(&f.price) {
                Some(v) => *v,
                None => 0,
            },
            Kind::SELL => match book.bid_depth.get(&f.price) {
                Some(v) => *v,
                None => 0,
            },
        };
        let mut levels: Vec<(String, String)> = Vec::new();
        levels.push((number_text(f.price), number_text(level)));
        let data = match side {
            Kind::BUY => DepthData { b: None, a: Some(levels), e: default_depth_event() },
            Kind::SELL => DepthData { b: Some(levels), a: None, e: default_depth_event() },
        };
        r.push(WsMessage::DepthUpdateMessage { data });
        i = i + 1;
    }
    r
}

} // verus!
