use engine::orderbook::{BookWithQuantity, OrderBook};
use engine::types::{FillStatus, Kind, Market, Order};

fn order(id: &str, price: usize, quantity: usize, side: Kind, user: &str) -> Order {
    Order {
        order_id: id.to_string(),
        price,
        quantity,
        filled: 0,
        side,
        user_id: user.to_string(),
    }
}

#[test]
fn sell_then_matching_buy_fills_completely() {
    let mut book = OrderBook::new(Market::TataInr);
    let mut sell = order("s1", 100, 10, Kind::SELL, "U1");
    let r = book.add_order(&mut sell);
    assert_eq!(r.status, FillStatus::Unfilled);
    assert_eq!(book.asks.len(), 1);
    let mut buy = order("b1", 100, 10, Kind::BUY, "U2");
    let r = book.add_order(&mut buy);
    assert_eq!(r.fills.len(), 1);
    let f = &r.fills[0];
    assert_eq!(f.price, 100);
    assert_eq!(f.quantity, 10);
    assert_eq!(f.trade_id, 1);
    assert_eq!(f.maker_user_id, "U1");
    assert_eq!(f.taker_user_id, "U2");
    assert_eq!(f.maker_order_id, "s1");
    assert!(book.asks.is_empty());
    assert!(book.bids.is_empty());
    assert!(book.ask_depth.is_empty());
    assert_eq!(r.status, FillStatus::Filled);
    assert_eq!(r.executed_qty, 10);
    assert_eq!(buy.filled, 10);
    assert_eq!(book.last_trade_id, 1);
    assert_eq!(book.current_price, 100);
}

#[test]
fn partial_fill_rests_remainder_as_bid() {
    let mut book = OrderBook::new(Market::TataInr);
    let mut sell = order("s1", 100, 5, Kind::SELL, "U1");
    book.add_order(&mut sell);
    let mut buy = order("b1", 100, 10, Kind::BUY, "U2");
    let r = book.add_order(&mut buy);
    assert_eq!(r.executed_qty, 5);
    assert_eq!(r.status, FillStatus::PartiallyFilled);
    assert_eq!(book.bids.len(), 1);
    assert_eq!(book.bids[0].price, 100);
    assert_eq!(book.bids[0].quantity - book.bids[0].filled, 5);
    assert_eq!(book.bid_depth.get(&100), Some(&5));
    assert!(book.asks.is_empty());
    assert!(book.ask_depth.get(&100).is_none());
    assert_eq!(r.depth.bid_depth.get(&100), Some(&5));
}

#[test]
fn best_price_then_earliest_order_trades_first() {
    let mut book = OrderBook::new(Market::TataInr);
    book.add_order(&mut order("a1", 101, 3, Kind::SELL, "U1"));
    book.add_order(&mut order("a2", 100, 3, Kind::SELL, "U2"));
    book.add_order(&mut order("a3", 100, 3, Kind::SELL, "U3"));
    let r = book.add_order(&mut order("b1", 101, 7, Kind::BUY, "U4"));
    let ids: Vec<&str> = r.fills.iter().map(|f| f.maker_order_id.as_str()).collect();
    assert_eq!(ids, vec!["a2", "a3", "a1"]);
    let trade_ids: Vec<usize> = r.fills.iter().map(|f| f.trade_id).collect();
    assert_eq!(trade_ids, vec![1, 2, 3]);
    assert_eq!(r.fills[2].quantity, 1);
    assert_eq!(book.asks.len(), 1);
    assert_eq!(book.asks[0].filled, 1);
    assert_eq!(book.ask_depth.get(&101), Some(&2));
    assert!(book.ask_depth.get(&100).is_none());
    assert_eq!(book.current_price, 101);
}

#[test]
fn buy_below_best_ask_does_not_trade() {
    let mut book = OrderBook::new(Market::TataInr);
    book.add_order(&mut order("a1", 100, 3, Kind::SELL, "U1"));
    let r = book.add_order(&mut order("b1", 99, 3, Kind::BUY, "U2"));
    assert!(r.fills.is_empty());
    assert_eq!(r.status, FillStatus::Unfilled);
    assert_eq!(book.bid_depth.get(&99), Some(&3));
    assert_eq!(book.ask_depth.get(&100), Some(&3));
}

#[test]
fn sell_trades_only_with_bids_at_or_above_its_price() {
    let mut book = OrderBook::new(Market::TataInr);
    book.add_order(&mut order("b1", 98, 2, Kind::BUY, "U1"));
    book.add_order(&mut order("b2", 102, 2, Kind::BUY, "U2"));
    let r = book.add_order(&mut order("s1", 100, 5, Kind::SELL, "U3"));
    assert_eq!(r.fills.len(), 1);
    assert_eq!(r.fills[0].price, 102);
    assert_eq!(r.executed_qty, 2);
    assert_eq!(book.asks.len(), 1);
    assert_eq!(book.asks[0].filled, 2);
    assert_eq!(book.ask_depth.get(&100), Some(&3));
    assert_eq!(book.bid_depth.get(&98), Some(&2));
}

#[test]
fn depth_sums_open_quantity_per_level() {
    let mut book = OrderBook::new(Market::TataInr);
    book.add_order(&mut order("b1", 50, 4, Kind::BUY, "U1"));
    book.add_order(&mut order("b2", 50, 6, Kind::BUY, "U2"));
    book.add_order(&mut order("b3", 49, 1, Kind::BUY, "U2"));
    book.add_order(&mut order("s1", 50, 5, Kind::SELL, "U3"));
    assert_eq!(book.bid_depth.get(&50), Some(&5));
    assert_eq!(book.bid_depth.get(&49), Some(&1));
    assert_eq!(book.level_total(Kind::BUY, 50), 5);
    assert_eq!(book.level_total(Kind::BUY, 48), 0);
    let d = book.depth();
    assert_eq!(d.bid_depth.len(), 2);
    assert!(d.ask_depth.is_empty());
}

#[test]
fn match_bid_leaves_the_order_out_of_the_book() {
    let mut book = OrderBook::new(Market::TataInr);
    book.add_order(&mut order("a1", 100, 3, Kind::SELL, "U1"));
    let r = book.match_bid(order("b1", 100, 5, Kind::BUY, "U2"));
    assert_eq!(r.executed_qty, 3);
    assert_eq!(r.status, FillStatus::PartiallyFilled);
    assert!(book.bids.is_empty());
    assert!(book.asks.is_empty());
    let r = book.match_ask(order("s1", 100, 5, Kind::SELL, "U2"));
    assert_eq!(r.executed_qty, 0);
    assert_eq!(r.status, FillStatus::Unfilled);
}

#[test]
fn cancel_removes_order_and_its_depth() {
    let mut book = OrderBook::new(Market::TataInr);
    book.add_order(&mut order("b1", 50, 4, Kind::BUY, "U1"));
    book.add_order(&mut order("b2", 50, 6, Kind::BUY, "U2"));
    let c = book.cancel_bid(&"b1".to_string()).unwrap();
    assert_eq!(c.price, 50);
    assert_eq!(c.quantity - c.filled, 4);
    assert_eq!(book.bid_depth.get(&50), Some(&6));
    assert!(book.cancel_bid(&"b1".to_string()).is_none());
    assert!(book.cancel_ask(&"b2".to_string()).is_none());
    assert_eq!(book.bids.len(), 1);
    let c = book.cancel_bid(&"b2".to_string()).unwrap();
    assert_eq!(c.user_id, "U2");
    assert!(book.bid_depth.is_empty());
}

#[test]
fn open_orders_lists_asks_then_bids_of_one_user() {
    let mut book = OrderBook::new(Market::TataInr);
    book.add_order(&mut order("b1", 50, 4, Kind::BUY, "U1"));
    book.add_order(&mut order("a1", 60, 4, Kind::SELL, "U1"));
    book.add_order(&mut order("b2", 51, 4, Kind::BUY, "U2"));
    let mine = book.get_open_orders(&"U1".to_string());
    let ids: Vec<&str> = mine.iter().map(|o| o.order_id.as_str()).collect();
    assert_eq!(ids, vec!["a1", "b1"]);
    assert!(book.get_open_orders(&"U9".to_string()).is_empty());
    assert_eq!(book.find_order(&"b2".to_string()).unwrap().user_id, "U2");
    assert!(book.find_order(&"zz".to_string()).is_none());
}

#[test]
fn ticker_and_assets_name_the_pair() {
    let book = OrderBook::new(Market::GoogleDollar);
    assert_eq!(book.ticker(), "GOOGLE_DOLLAR");
    assert_eq!(Market::TataInr.assets(), ("TATA", "INR"));
    assert_eq!(Market::NvidiaInr.assets(), ("NVIDIA", "INR"));
    assert_eq!(Market::TeslaDollar.assets(), ("TESLA", "DOLLAR"));
}

#[test]
fn snapshot_copy_and_rebuild_keep_the_book() {
    let mut book = OrderBook::new(Market::TataInr);
    book.add_order(&mut order("b1", 50, 4, Kind::BUY, "U1"));
    book.add_order(&mut order("a1", 60, 2, Kind::SELL, "U2"));
    let copy = book.getsnapshot();
    assert_eq!(copy.bids.len(), 1);
    assert_eq!(copy.bid_depth, book.bid_depth);
    assert_eq!(copy.ask_depth, book.ask_depth);
    let mut stripped = book.getsnapshot();
    stripped.bid_depth.clear();
    stripped.ask_depth.clear();
    let rebuilt = stripped.rebuild().unwrap();
    assert_eq!(rebuilt.bid_depth, book.bid_depth);
    assert_eq!(rebuilt.ask_depth, book.ask_depth);
}

#[test]
fn rebuild_rejects_a_side_out_of_order() {
    let mut book = OrderBook::new(Market::TataInr);
    book.bids.push(order("b1", 60, 1, Kind::BUY, "U1"));
    book.bids.push(order("b2", 50, 1, Kind::BUY, "U1"));
    assert!(book.rebuild().is_none());
    let mut book = OrderBook::new(Market::TataInr);
    let mut done = order("b1", 60, 1, Kind::BUY, "U1");
    done.filled = 1;
    book.bids.push(done);
    assert!(book.rebuild().is_none());
}

#[test]
fn empty_book_with_quantity() {
    let b = BookWithQuantity::new();
    assert!(b.bids.is_empty());
    assert!(b.asks.is_empty());
}
