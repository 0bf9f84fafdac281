use engine::engine::{Engine, EngineError};
use engine::messages::{
    create_db_trades, default_depth_event, default_ticker_event, default_trade_event,
    order_placed, publish_ws_trade, update_db_orders, DbMessage, WsMessage,
};
use engine::types::{Asset, Balance, Kind, Market};

fn s(x: &str) -> String {
    x.to_string()
}

fn funded(user: &str, asset: Asset, amount: usize) -> Engine {
    let mut e = Engine::new();
    e.on_ramp(&s(user), asset, amount).unwrap();
    e
}

#[test]
fn buy_locks_quote_and_cancel_refunds_it() {
    let mut e = funded("U", Asset::INR, 100);
    let c = e.create_order(Market::TataInr, 50, 1, Kind::BUY, s("U")).unwrap();
    assert_eq!(c.executed_qty, 0);
    assert_eq!(e.balance(&s("U"), Asset::INR), Balance { available: 50, locked: 50 });
    let x = e.cancel_order(&c.order_id, Market::TataInr, &s("U")).unwrap();
    assert_eq!(x.executed_qty, 0);
    assert_eq!(x.remaining_qty, 1);
    assert_eq!(e.balance(&s("U"), Asset::INR), Balance { available: 100, locked: 0 });
    assert!(e.get_open_orders(&s("U"), Market::TataInr).unwrap().is_empty());
}

#[test]
fn cancel_of_unknown_order_changes_nothing() {
    let mut e = funded("U", Asset::INR, 100);
    e.create_order(Market::TataInr, 50, 1, Kind::BUY, s("U")).unwrap();
    let before = e.snapshot();
    let r = e.cancel_order(&s("never-submitted"), Market::TataInr, &s("U"));
    assert_eq!(r.unwrap_err(), EngineError::NotFound);
    let after = e.snapshot();
    assert_eq!(after.orderbooks[0].bids.len(), before.orderbooks[0].bids.len());
    assert_eq!(after.orderbooks[0].bid_depth, before.orderbooks[0].bid_depth);
    assert_eq!(after.balances.len(), before.balances.len());
    assert_eq!(e.balance(&s("U"), Asset::INR), Balance { available: 50, locked: 50 });
}

#[test]
fn cancel_by_another_user_is_not_found() {
    let mut e = funded("U", Asset::INR, 100);
    let c = e.create_order(Market::TataInr, 50, 1, Kind::BUY, s("U")).unwrap();
    let r = e.cancel_order(&c.order_id, Market::TataInr, &s("V"));
    assert_eq!(r.unwrap_err(), EngineError::NotFound);
    assert_eq!(e.get_open_orders(&s("U"), Market::TataInr).unwrap().len(), 1);
}

#[test]
fn trade_moves_exactly_the_traded_amounts() {
    let mut e = funded("seller", Asset::TATA, 10);
    e.on_ramp(&s("buyer"), Asset::INR, 2000).unwrap();
    e.create_order(Market::TataInr, 100, 10, Kind::SELL, s("seller")).unwrap();
    assert_eq!(e.balance(&s("seller"), Asset::TATA), Balance { available: 0, locked: 10 });
    let c = e.create_order(Market::TataInr, 110, 4, Kind::BUY, s("buyer")).unwrap();
    assert_eq!(c.executed_qty, 4);
    assert_eq!(c.fills.len(), 1);
    assert_eq!(c.fills[0].price, 100);
    assert_eq!(e.balance(&s("seller"), Asset::TATA), Balance { available: 0, locked: 6 });
    assert_eq!(e.balance(&s("seller"), Asset::INR), Balance { available: 400, locked: 0 });
    assert_eq!(e.balance(&s("buyer"), Asset::TATA), Balance { available: 4, locked: 0 });
    assert_eq!(e.balance(&s("buyer"), Asset::INR), Balance { available: 1600, locked: 0 });
    let tata = e.balance(&s("seller"), Asset::TATA).available
        + e.balance(&s("seller"), Asset::TATA).locked
        + e.balance(&s("buyer"), Asset::TATA).available;
    assert_eq!(tata, 10);
}

#[test]
fn selling_into_a_bid_pays_the_bid_price() {
    let mut e = funded("buyer", Asset::INR, 1000);
    e.on_ramp(&s("seller"), Asset::TATA, 5).unwrap();
    e.create_order(Market::TataInr, 120, 5, Kind::BUY, s("buyer")).unwrap();
    let c = e.create_order(Market::TataInr, 100, 5, Kind::SELL, s("seller")).unwrap();
    assert_eq!(c.executed_qty, 5);
    assert_eq!(c.fills[0].price, 120);
    assert_eq!(e.balance(&s("seller"), Asset::INR), Balance { available: 600, locked: 0 });
    assert_eq!(e.balance(&s("seller"), Asset::TATA), Balance { available: 0, locked: 0 });
    assert_eq!(e.balance(&s("buyer"), Asset::INR), Balance { available: 400, locked: 0 });
    assert_eq!(e.balance(&s("buyer"), Asset::TATA), Balance { available: 5, locked: 0 });
}

#[test]
fn filled_grows_and_stays_within_quantity() {
    let mut e = funded("seller", Asset::TATA, 10);
    e.on_ramp(&s("buyer"), Asset::INR, 10000).unwrap();
    let sell = e.create_order(Market::TataInr, 100, 10, Kind::SELL, s("seller")).unwrap();
    let mut last = 0;
    for _ in 0..4 {
        e.create_order(Market::TataInr, 100, 3, Kind::BUY, s("buyer")).unwrap();
        let open = e.get_open_orders(&s("seller"), Market::TataInr).unwrap();
        if let Some(o) = open.iter().find(|o| o.order_id == sell.order_id) {
            assert!(o.filled >= last);
            assert!(o.filled <= o.quantity);
            last = o.filled;
        } else {
            last = 10;
        }
    }
    assert_eq!(last, 10);
    let rest = e.get_open_orders(&s("buyer"), Market::TataInr).unwrap();
    assert_eq!(rest.len(), 1);
    assert_eq!(rest[0].filled + (rest[0].quantity - rest[0].filled), rest[0].quantity);
    assert_eq!(rest[0].filled, 1);
}

#[test]
fn invalid_requests_are_refused() {
    let mut e = funded("U", Asset::INR, 100);
    assert_eq!(e.create_order(Market::TataInr, 0, 1, Kind::BUY, s("U")).unwrap_err(), EngineError::InvalidRequest);
    assert_eq!(e.create_order(Market::TataInr, 1, 0, Kind::BUY, s("U")).unwrap_err(), EngineError::InvalidRequest);
    assert_eq!(e.create_order(Market::TeslaDollar, 1, 1, Kind::BUY, s("U")).unwrap_err(), EngineError::InvalidRequest);
    assert_eq!(e.cancel_order(&s("0"), Market::GoogleDollar, &s("U")).unwrap_err(), EngineError::InvalidRequest);
    assert_eq!(e.get_depth(Market::NvidiaInr).unwrap_err(), EngineError::InvalidRequest);
    assert_eq!(e.get_open_orders(&s("U"), Market::NvidiaInr).unwrap_err(), EngineError::InvalidRequest);
}

#[test]
fn too_little_available_is_refused() {
    let mut e = funded("U", Asset::INR, 100);
    assert_eq!(e.create_order(Market::TataInr, 51, 2, Kind::BUY, s("U")).unwrap_err(), EngineError::InsufficientBalance);
    assert_eq!(e.create_order(Market::TataInr, 1, 1, Kind::SELL, s("U")).unwrap_err(), EngineError::InsufficientBalance);
    assert_eq!(e.create_order(Market::TataInr, usize::MAX, 2, Kind::BUY, s("U")).unwrap_err(), EngineError::InsufficientBalance);
    assert_eq!(e.balance(&s("U"), Asset::INR), Balance { available: 100, locked: 0 });
}

#[test]
fn overflowing_deposit_is_refused() {
    let mut e = funded("U", Asset::INR, usize::MAX);
    assert_eq!(e.on_ramp(&s("U"), Asset::INR, 1).unwrap_err(), EngineError::InvariantViolation);
    assert_eq!(e.balance(&s("U"), Asset::INR).available, usize::MAX);
}

#[test]
fn fresh_engine_is_seeded() {
    let e = Engine::new();
    assert_eq!(e.orderbooks.len(), 1);
    assert_eq!(e.orderbooks[0].market, Market::TataInr);
    assert_eq!(e.balance(&s("default_user"), Asset::TATA), Balance { available: 10000000, locked: 0 });
    assert_eq!(e.balance(&s("default_user"), Asset::INR), Balance { available: 10000000, locked: 0 });
    assert_eq!(e.balance(&s("nobody"), Asset::INR), Balance { available: 0, locked: 0 });
    let d = e.get_depth(Market::TataInr).unwrap();
    assert!(d.bid_depth.is_empty());
}

#[test]
fn order_ids_count_up_in_decimal() {
    let mut e = funded("U", Asset::INR, 1000);
    let a = e.create_order(Market::TataInr, 10, 1, Kind::BUY, s("U")).unwrap();
    let b = e.create_order(Market::TataInr, 10, 1, Kind::BUY, s("U")).unwrap();
    assert_eq!(a.order_id, "0");
    assert_eq!(b.order_id, "1");
}

#[test]
fn snapshot_round_trip_keeps_state() {
    let mut e = funded("seller", Asset::TATA, 10);
    e.on_ramp(&s("buyer"), Asset::INR, 2000).unwrap();
    e.create_order(Market::TataInr, 100, 10, Kind::SELL, s("seller")).unwrap();
    e.create_order(Market::TataInr, 100, 4, Kind::BUY, s("buyer")).unwrap();
    e.create_order(Market::TataInr, 90, 2, Kind::BUY, s("buyer")).unwrap();
    let snap = e.snapshot();
    let back = Engine::restore(snap).unwrap();
    assert_eq!(back.next_order_id, e.next_order_id);
    assert_eq!(back.orderbooks.len(), e.orderbooks.len());
    let (x, y) = (&back.orderbooks[0], &e.orderbooks[0]);
    assert_eq!(x.bid_depth, y.bid_depth);
    assert_eq!(x.ask_depth, y.ask_depth);
    assert_eq!(x.last_trade_id, y.last_trade_id);
    assert_eq!(x.current_price, y.current_price);
    assert_eq!(x.bids.len(), y.bids.len());
    assert_eq!(x.asks[0].filled, y.asks[0].filled);
    for u in ["seller", "buyer"] {
        for a in [Asset::TATA, Asset::INR] {
            assert_eq!(back.balance(&s(u), a), e.balance(&s(u), a));
        }
    }
}

#[test]
fn restore_rejects_an_inconsistent_book() {
    let mut e = Engine::new();
    e.orderbooks[0].asks.push(engine::types::Order {
        order_id: s("x"),
        price: 1,
        quantity: 1,
        filled: 0,
        side: Kind::BUY,
        user_id: s("U"),
    });
    assert!(Engine::restore(e.snapshot()).is_none());
}

#[test]
fn event_records_follow_the_fills() {
    let mut e = funded("seller", Asset::TATA, 10);
    e.on_ramp(&s("buyer"), Asset::INR, 2000).unwrap();
    let sell = e.create_order(Market::TataInr, 100, 3, Kind::SELL, s("seller")).unwrap();
    let c = e.create_order(Market::TataInr, 100, 5, Kind::BUY, s("buyer")).unwrap();
    let order = engine::types::Order {
        order_id: c.order_id.clone(),
        price: 100,
        quantity: 5,
        filled: c.executed_qty,
        side: Kind::BUY,
        user_id: s("buyer"),
    };
    let ups = update_db_orders(&order, c.executed_qty, &c.fills, Market::TataInr);
    assert_eq!(ups.len(), 2);
    match &ups[0] {
        DbMessage::OrderUpdate { data } => {
            assert_eq!(data.order_id, c.order_id);
            assert_eq!(data.executed_qty, 3);
            assert_eq!(data.market, Some(Market::TataInr));
        }
        _ => panic!("expected an order update"),
    }
    match &ups[1] {
        DbMessage::OrderUpdate { data } => {
            assert_eq!(data.order_id, sell.order_id);
            assert_eq!(data.executed_qty, 3);
            assert!(data.market.is_none());
        }
        _ => panic!("expected an order update"),
    }
    let trades = create_db_trades(&c.fills, Market::TataInr, Kind::BUY, 7);
    match &trades[0] {
        DbMessage::TradeAdded { data } => {
            assert_eq!(data.id, "1");
            assert!(!data.is_buyer_maker);
            assert_eq!(data.quotequantity, 300);
            assert_eq!(data.timestamp, 7);
        }
        _ => panic!("expected a trade"),
    }
    let placed = order_placed(&c);
    assert_eq!(placed.fills[0].price, "100");
    assert_eq!(placed.fills[0].qty, 3);
    let ws = publish_ws_trade(&c.fills, &e.orderbooks[0], Kind::BUY);
    assert_eq!(ws.len(), 2);
    match &ws[0] {
        WsMessage::TradeAddedMessage { data } => {
            assert_eq!(data.p, "100");
            assert_eq!(data.q, "3");
            assert_eq!(data.s, "TATA_INR");
            assert_eq!(data.e, "trade");
        }
        _ => panic!("expected a trade message"),
    }
    match &ws[1] {
        WsMessage::DepthUpdateMessage { data } => {
            assert_eq!(data.a.as_ref().unwrap()[0], (s("100"), s("0")));
        }
        _ => panic!("expected a depth message"),
    }
}

#[test]
fn event_names() {
    assert_eq!(default_ticker_event(), "ticker");
    assert_eq!(default_depth_event(), "depth");
    assert_eq!(default_trade_event(), "trade");
}

#[test]
fn cancel_update_carries_the_executed_quantity() {
    let c = engine::messages::OrderCancelled { order_id: s("7"), executed_qty: 2, remaining_qty: 3 };
    match engine::messages::cancel_update(&c) {
        DbMessage::OrderUpdate { data } => {
            assert_eq!(data.order_id, "7");
            assert_eq!(data.executed_qty, 2);
        }
        _ => panic!("expected an order update"),
    }
}
