use vstd::prelude::*;
use vstd::string::*;

use crate::ledger::{
    get_balance, ledger, lock, lock_exec, reserve, reserve_asset, settle_all, settle_fill,
    unlock, unlock_exec, credit, credit_exec, set_balance, BalanceEntry,
};
use crate::messages::OrderCancelled;
use crate::orderbook::{first_with_id, holds, lemma_first_unique, lemma_depth_unique, lemma_wf_valid, OrderBook, Depth, owned_by};
use crate::types::{decimal, number_text, Asset, Balance, Fills, Kind, Market, Order};

verus! {

/// Why the engine turned a request away. Nothing changed in any case.
#[derive(PartialEq, Eq, Structural, Debug, Clone, Copy)]
pub enum EngineError {
    /// Unknown market, or a zero price or quantity.
    InvalidRequest,
    /// The user has too little available of the asset the order reserves.
    InsufficientBalance,
    /// No such resting order of the user's.
    NotFound,
    /// A step would break the engine's bookkeeping: a counter or a balance
    /// that would leave the range of `usize`, or funds that are not locked.
    InvariantViolation,
}

/// What a new order did.
#[derive(Debug, Clone)]
pub struct CreatedOrder {
    pub order_id: String,
    pub executed_qty: usize,
    pub fills: Vec<Fills>,
}

/// The state of an engine at one moment, as it is stored and read back.
#[derive(Debug, Clone)]
pub struct Snapshot {
    pub orderbooks: Vec<OrderBook>,
    pub balances: Vec<BalanceEntry>,
    pub next_order_id: usize,
}

/// The order books of the markets, and the balances of the users.
#[derive(Debug, Clone)]
pub struct Engine {
    pub orderbooks: Vec<OrderBook>,
    pub balances: Vec<BalanceEntry>,
    pub next_order_id: usize,
}

/// The user that a fresh engine starts with.
pub open spec fn seed_user() -> Seq<char> {
    "default_user"@
}

/// What the seeded user holds of each asset of the first market.
pub const SEED_AMOUNT: usize = 10000000;

fn copy_entries(v: &Vec<BalanceEntry>) -> (r: Vec<BalanceEntry>)
    ensures
        r@ == v@,
{
    let mut r: Vec<BalanceEntry> = Vec::new();
    let mut i: usize = 0;
    while i < v.len()
        invariant
            0 <= i <= v.len(),
            r@ == v@.subrange(0, i as int),
        decreases v.len() - i,
    {
        let e = BalanceEntry {
            user_id: v[i].user_id.clone(),
            asset: v[i].asset,
            balance: v[i].balance,
        };
        r.push(e);
        i = i + 1;
        assert(r@ =~= v@.subrange(0, i as int));
    }
    assert(v@.subrange(0, v.len() as int) =~= v@);
    r
}

impl Engine {
    /// Every order book is consistent.
    pub open spec fn wf(self) -> bool {
        forall|i: int| 0 <= i < self.orderbooks@.len() ==> (#[trigger] self.orderbooks@[i]).wf()
    }

    /// `i` is the first book of market `m`.
    pub open spec fn first_book(self, m: Market, i: int) -> bool {
        &&& 0 <= i < self.orderbooks@.len()
        &&& self.orderbooks@[i].market == m
        &&& forall|j: int| 0 <= j < i ==> (#[trigger] self.orderbooks@[j]).market != m
    }

    pub open spec fn has_book(self, m: Market) -> bool {
        exists|i: int| self.first_book(m, i)
    }

    /// The book that serves market `m`.
    pub open spec fn book_index(self, m: Market) -> int {
        choose|i: int| self.first_book(m, i)
    }

    pub open spec fn funds(self) -> crate::ledger::Ledger {
        ledger(self.balances@)
    }

    proof fn lemma_first_book_unique(self, m: Market, i: int)
        requires
            self.first_book(m, i),
        ensures
            self.has_book(m),
            self.book_index(m) == i,
    {
        let k = self.book_index(m);
        assert(self.first_book(m, k));
        if k < i {
            assert(self.orderbooks@[k].market != m);
        } else if k > i {
            assert(self.orderbooks@[i].market != m);
        }
    }

    fn find_book(&self, m: Market) -> (r: Option<usize>)
        ensures
            r is None ==> !self.has_book(m),
            r is Some ==> self.first_book(m, r->0 as int) && self.book_index(m) == r->0,
    {
        let mut i: usize = 0;
        while i < self.orderbooks.len()
            invariant
                0 <= i <= self.orderbooks.len(),
                forall|j: int| 0 <= j < i ==> (#[trigger] self.orderbooks@[j]).market != m,
            decreases self.orderbooks.len() - i,
        {
            if self.orderbooks[i].market == m {
                proof { self.lemma_first_book_unique(m, i as int); }
                return Some(i);
            }
            i = i + 1;
        }
        None
    }

    /// A fresh engine: an empty book for `TataInr`, and the seeded user
    /// holding `SEED_AMOUNT` of TATA and of INR.
    pub fn new() -> (r: Engine)
        ensures
            r.wf(),
            r.orderbooks@.len() == 1,
            r.orderbooks@[0].market == Market::TataInr,
            r.orderbooks@[0].bids@.len() == 0,
            r.orderbooks@[0].asks@.len() == 0,
            r.next_order_id == 0,
            r.funds() == crate::ledger::ledger(Seq::empty()).insert(
                (seed_user(), Asset::TATA),
                Balance { available: SEED_AMOUNT, locked: 0 },
            ).insert((seed_user(), Asset::INR), Balance { available: SEED_AMOUNT, locked: 0 }),
    {
        let mut orderbooks: Vec<OrderBook> = Vec::new();
        orderbooks.push(OrderBook::new(Market::TataInr));
        let mut balances: Vec<BalanceEntry> = Vec::new();
        let user = String::from_str("default_user");
        set_balance(&mut balances, &user, Asset::TATA, Balance { available: SEED_AMOUNT, locked: 0 });
        set_balance(&mut balances, &user, Asset::INR, Balance { available: SEED_AMOUNT, locked: 0 });
        Engine { orderbooks, balances, next_order_id: 0 }
    }

    /// The balance of `user_id` in `asset`.
    pub fn balance(&self, user_id: &String, asset: Asset) -> (r: Balance)
        ensures
            r == self.funds()[(user_id@, asset)],
    {
        get_balance(&self.balances, user_id, asset)
    }

    /// Adds `amount` to what `user_id` has available in `asset`.
    pub fn on_ramp(&mut self, user_id: &String, asset: Asset, amount: usize) -> (r: Result<(), EngineError>)
        requires
            old(self).wf(),
        ensures
            final(self).wf(),
            final(self).orderbooks == old(self).orderbooks,
            final(self).next_order_id == old(self).next_order_id,
            credit(old(self).funds(), user_id@, asset, amount as int) is Some ==> r is Ok
                && Some(final(self).funds()) == credit(old(self).funds(), user_id@, asset, amount as int),
            credit(old(self).funds(), user_id@, asset, amount as int) is None ==> r == Err::<(), EngineError>(EngineError::InvariantViolation)
                && final(self).balances@ == old(self).balances@,
    {
        if credit_exec(&mut self.balances, user_id, asset, amount) {
            Ok(())
        } else {
            Err(EngineError::InvariantViolation)
        }
    }

    /// The depth of market `market`.
    pub fn get_depth(&self, market: Market) -> (r: Result<Depth, EngineError>)
        ensures
            !self.has_book(market) ==> r == Err::<Depth, EngineError>(EngineError::InvalidRequest),
            self.has_book(market) ==> r is Ok
                && r->Ok_0.bid_depth@ == self.orderbooks@[self.book_index(market)].bid_depth@
                && r->Ok_0.ask_depth@ == self.orderbooks@[self.book_index(market)].ask_depth@,
    {
        match self.find_book(market) {
            None => Err(EngineError::InvalidRequest),
            Some(i) => Ok(self.orderbooks[i].depth()),
        }
    }

    /// The open orders of `user_id` in `market`: its asks, then its bids.
    pub fn get_open_orders(&self, user_id: &String, market: Market) -> (r: Result<Vec<Order>, EngineError>)
        ensures
            !self.has_book(market) ==> r == Err::<Vec<Order>, EngineError>(EngineError::InvalidRequest),
            self.has_book(market) ==> r is Ok && r->Ok_0@ == owned_by(
                self.orderbooks@[self.book_index(market)].asks@,
                user_id@,
            ) + owned_by(self.orderbooks@[self.book_index(market)].bids@, user_id@),
    {
        match self.find_book(market) {
            None => Err(EngineError::InvalidRequest),
            Some(i) => Ok(self.orderbooks[i].get_open_orders(user_id)),
        }
    }

    /// A request names a known market, and a price and a quantity above zero.
    pub open spec fn valid_request(self, market: Market, price: usize, quantity: usize) -> bool {
        price > 0 && quantity > 0 && self.has_book(market)
    }

    /// The user has available what the order would reserve.
    pub open spec fn affordable(self, market: Market, price: usize, quantity: usize, side: Kind, user: Seq<char>) -> bool {
        reserve(side, price as int, quantity as int) <= self.funds()[(user, reserve_asset(market, side))].available
    }

    /// What a new order of `user` would match in market `market`.
    pub open spec fn taker_match(self, market: Market, price: usize, quantity: usize, side: Kind, user: String) -> (Seq<Order>, Seq<Fills>) {
        let b = self.orderbooks@[self.book_index(market)];
        crate::orderbook::match_spec(
            b.side_seq(crate::orderbook::opposite(side)),
            side,
            price,
            user,
            quantity as int,
            b.last_trade_id + 1,
        )
    }

    /// The funds after locking the order's reserve.
    pub open spec fn locked_funds(self, market: Market, price: usize, quantity: usize, side: Kind, user: Seq<char>) -> Option<crate::ledger::Ledger> {
        lock(self.funds(), user, reserve_asset(market, side), reserve(side, price as int, quantity as int))
    }

    /// Every step of a new order fits the engine's bookkeeping: the order
    /// counter, the book's counters, the lock and the settlement of each fill.
    pub open spec fn feasible(self, market: Market, price: usize, quantity: usize, side: Kind, user: String) -> bool {
        let b = self.orderbooks@[self.book_index(market)];
        let l = self.locked_funds(market, price, quantity, side, user@);
        &&& self.next_order_id < usize::MAX
        &&& b.last_trade_id + quantity < usize::MAX
        &&& crate::orderbook::level_sum(b.side_seq(side), price) + quantity <= usize::MAX
        &&& l is Some
        &&& settle_all(l->0, self.taker_match(market, price, quantity, side, user).1, side, price as int, market) is Some
    }

    /// Places a limit order of `user_id`: reserves its funds, matches it in
    /// the market's book, settles each fill between maker and taker, and
    /// rests what is left. Either all of that happens or nothing does.
    pub fn create_order(
        &mut self,
        market: Market,
        price: usize,
        quantity: usize,
        side: Kind,
        user_id: String,
    ) -> (r: Result<CreatedOrder, EngineError>)
        requires
            old(self).wf(),
        ensures
            final(self).wf(),
            !old(self).valid_request(market, price, quantity) ==> r == Err::<CreatedOrder, EngineError>(EngineError::InvalidRequest) && *final(self) == *old(self),
            old(self).valid_request(market, price, quantity) && !old(self).affordable(market, price, quantity, side, user_id@)
                ==> r == Err::<CreatedOrder, EngineError>(EngineError::InsufficientBalance) && *final(self) == *old(self),
            old(self).valid_request(market, price, quantity) && old(self).affordable(market, price, quantity, side, user_id@)
                && !old(self).feasible(market, price, quantity, side, user_id)
                ==> r == Err::<CreatedOrder, EngineError>(EngineError::InvariantViolation) && *final(self) == *old(self),
            old(self).valid_request(market, price, quantity) && old(self).affordable(market, price, quantity, side, user_id@)
                && old(self).feasible(market, price, quantity, side, user_id) ==> r is Ok && ({
                let c = r->Ok_0;
                let i = old(self).book_index(market);
                let o = Order { order_id: c.order_id, price, quantity, filled: 0, side, user_id };
                &&& c.order_id@ == decimal(old(self).next_order_id as int)
                &&& final(self).next_order_id == old(self).next_order_id + 1
                &&& final(self).orderbooks@.len() == old(self).orderbooks@.len()
                &&& old(self).orderbooks@[i].placed_order(final(self).orderbooks@[i], o, c.fills@, c.executed_qty as int)
                &&& forall|j: int| 0 <= j < old(self).orderbooks@.len() && j != i ==> #[trigger] final(self).orderbooks@[j] == old(self).orderbooks@[j]
                &&& c.fills@ == old(self).taker_match(market, price, quantity, side, user_id).1
                &&& Some(final(self).funds()) == settle_all(
                    old(self).locked_funds(market, price, quantity, side, user_id@)->0,
                    c.fills@,
                    side,
                    price as int,
                    market,
                )
            }),
    {
        if price == 0 || quantity == 0 {
            return Err(EngineError::InvalidRequest);
        }
        let idx = match self.find_book(market) {
            None => {
                return Err(EngineError::InvalidRequest);
            },
            Some(i) => i,
        };
        let asset = match side {
            Kind::SELL => market.base(),
            Kind::BUY => market.quote(),
        };
        let need = match side {
            Kind::SELL => quantity,
            Kind::BUY => match price.checked_mul(quantity) {
                Some(v) => v,
                None => {
                    return Err(EngineError::InsufficientBalance);
                },
            },
        };
        let bal = get_balance(&self.balances, &user_id, asset);
        if need > bal.available {
            return Err(EngineError::InsufficientBalance);
        }
        if self.next_order_id == usize::MAX {
            return Err(EngineError::InvariantViolation);
        }
        let mut order = Order {
            order_id: number_text(self.next_order_id),
            price,
            quantity,
            filled: 0,
            side,
            user_id: user_id.clone(),
        };
        assert(self.orderbooks@[idx as int].wf());
        if !self.orderbooks[idx].room_for(&order) {
            return Err(EngineError::InvariantViolation);
        }
        let mut scratch = copy_entries(&self.balances);
        if !lock_exec(&mut scratch, &user_id, asset, need) {
            return Err(EngineError::InvariantViolation);
        }
        let ghost locked = ledger(scratch@);
        let fills = self.orderbooks[idx].preview(&order);
        let mut k: usize = 0;
        let mut ok = true;
        while ok && k < fills.len()
            invariant
                0 <= k <= fills@.len(),
                ok ==> settle_all(locked, fills@.subrange(0, k as int), side, price as int, market) == Some(ledger(scratch@)),
                !ok ==> settle_all(locked, fills@, side, price as int, market) is None,
            decreases fills@.len() - k + if ok { 1int } else { 0int },
        {
            assert(fills@.subrange(0, k + 1).drop_last() =~= fills@.subrange(0, k as int));
            if settle_fill(&mut scratch, &fills[k], side, price, market) {
                k = k + 1;
            } else {
                proof {
                    lemma_settle_all_prefix(locked, fills@, (k + 1) as int, side, price as int, market);
                }
                ok = false;
            }
        }
        if !ok {
            return Err(EngineError::InvariantViolation);
        }
        assert(fills@.subrange(0, fills@.len() as int) =~= fills@);
        self.balances = scratch;
        let mut book = self.orderbooks.remove(idx);
        let res = book.add_order(&mut order);
        self.orderbooks.insert(idx, book);
        self.next_order_id = self.next_order_id + 1;
        proof {
            assert forall|j: int| 0 <= j < self.orderbooks@.len() implies (#[trigger] self.orderbooks@[j]).wf() by {
                if j != idx {
                    assert(self.orderbooks@[j] == old(self).orderbooks@[j]);
                }
            }
        }
        Ok(CreatedOrder { order_id: order.order_id, executed_qty: res.executed_qty, fills: res.fills })
    }

    /// What cancelling `o` of `user` in `market` returns to the user's
    /// available funds: the reserve of its open quantity.
    pub open spec fn refunded(self, market: Market, o: Order, user: Seq<char>) -> Option<crate::ledger::Ledger> {
        unlock(self.funds(), user, reserve_asset(market, o.side), reserve(o.side, o.price as int, o.remaining()))
    }

    /// Cancels the resting order `order_id` of `user_id` in `market` and
    /// returns to the user the funds that its open quantity reserved.
    pub fn cancel_order(&mut self, order_id: &String, market: Market, user_id: &String) -> (r: Result<OrderCancelled, EngineError>)
        requires
            old(self).wf(),
        ensures
            final(self).wf(),
            !old(self).has_book(market) ==> r == Err::<OrderCancelled, EngineError>(EngineError::InvalidRequest) && *final(self) == *old(self),
            ({
                let b = old(self).orderbooks@[old(self).book_index(market)];
                old(self).has_book(market) && (forall|i: int| 0 <= i < b.bids@.len() ==> (#[trigger] b.bids@[i]).order_id@ != order_id@)
                    && (forall|i: int| 0 <= i < b.asks@.len() ==> (#[trigger] b.asks@[i]).order_id@ != order_id@)
            }) ==> r == Err::<OrderCancelled, EngineError>(EngineError::NotFound) && *final(self) == *old(self),
            forall|o: Order| old(self).has_book(market) && #[trigger] holds(old(self).orderbooks@[old(self).book_index(market)], order_id@, o) ==> {
                let i = old(self).book_index(market);
                let b = old(self).orderbooks@[i];
                &&& o.user_id@ != user_id@ ==> r == Err::<OrderCancelled, EngineError>(EngineError::NotFound) && *final(self) == *old(self)
                &&& o.user_id@ == user_id@ && old(self).refunded(market, o, user_id@) is None
                    ==> r == Err::<OrderCancelled, EngineError>(EngineError::InvariantViolation) && *final(self) == *old(self)
                &&& o.user_id@ == user_id@ && old(self).refunded(market, o, user_id@) is Some ==> {
                    &&& r is Ok
                    &&& r->Ok_0.order_id@ == order_id@
                    &&& r->Ok_0.executed_qty == o.filled
                    &&& r->Ok_0.remaining_qty == o.remaining()
                    &&& Some(final(self).funds()) == old(self).refunded(market, o, user_id@)
                    &&& final(self).next_order_id == old(self).next_order_id
                    &&& final(self).orderbooks@.len() == old(self).orderbooks@.len()
                    &&& forall|j: int| 0 <= j < old(self).orderbooks@.len() && j != i ==> #[trigger] final(self).orderbooks@[j] == old(self).orderbooks@[j]
                    &&& final(self).orderbooks@[i].market == b.market
                    &&& final(self).orderbooks@[i].side_seq(crate::orderbook::opposite(o.side)) == b.side_seq(crate::orderbook::opposite(o.side))
                    &&& exists|k: int| first_with_id(b.side_seq(o.side), order_id@, k)
                        && final(self).orderbooks@[i].side_seq(o.side) == b.side_seq(o.side).remove(k)
                }
            },
    {
        let idx = match self.find_book(market) {
            None => {
                return Err(EngineError::InvalidRequest);
            },
            Some(i) => i,
        };
        let ghost b = self.orderbooks@[idx as int];
        assert(b.wf());
        let o = match self.orderbooks[idx].find_order(order_id) {
            None => {
                return Err(EngineError::NotFound);
            },
            Some(o) => o,
        };
        proof {
            assert forall|o2: Order| #[trigger] holds(b, order_id@, o2) implies o2 == o by {
                if exists|i: int| first_with_id(b.bids@, order_id@, i) && o2 == b.bids@[i] {
                    let i2 = choose|i: int| first_with_id(b.bids@, order_id@, i) && o2 == b.bids@[i];
                    if exists|i: int| first_with_id(b.bids@, order_id@, i) && o == b.bids@[i] {
                        let i1 = choose|i: int| first_with_id(b.bids@, order_id@, i) && o == b.bids@[i];
                        lemma_first_unique(b.bids@, order_id@, i1, i2);
                    }
                } else {
                    let i2 = choose|i: int| first_with_id(b.asks@, order_id@, i) && o2 == b.asks@[i];
                    if exists|i: int| first_with_id(b.bids@, order_id@, i) && o == b.bids@[i] {
                        let i1 = choose|i: int| first_with_id(b.bids@, order_id@, i) && o == b.bids@[i];
                        assert(b.bids@[i1].order_id@ == order_id@);
                    } else {
                        let i1 = choose|i: int| first_with_id(b.asks@, order_id@, i) && o == b.asks@[i];
                        lemma_first_unique(b.asks@, order_id@, i1, i2);
                    }
                }
            }
        }
        if !(o.user_id == *user_id) {
            return Err(EngineError::NotFound);
        }
        let asset = match o.side {
            Kind::SELL => market.base(),
            Kind::BUY => market.quote(),
        };
        let ghost from_bids = exists|i: int| first_with_id(b.bids@, order_id@, i) && o == b.bids@[i];
        proof {
            if from_bids {
                let i = choose|i: int| first_with_id(b.bids@, order_id@, i) && o == b.bids@[i];
                assert(b.bids@[i].side == Kind::BUY);
            } else {
                let i = choose|i: int| first_with_id(b.asks@, order_id@, i) && o == b.asks@[i];
                assert(b.asks@[i].side == Kind::SELL);
            }
        }
        let rem = o.quantity - o.filled;
        let amount = match o.side {
            Kind::SELL => rem,
            Kind::BUY => match o.price.checked_mul(rem) {
                Some(v) => v,
                None => {
                    return Err(EngineError::InvariantViolation);
                },
            },
        };
        if !unlock_exec(&mut self.balances, user_id, asset, amount) {
            return Err(EngineError::InvariantViolation);
        }
        let mut book = self.orderbooks.remove(idx);
        let cancelled = match o.side {
            Kind::BUY => book.cancel_bid(order_id),
            Kind::SELL => book.cancel_ask(order_id),
        };
        let ghost mut kk: int = 0;
        proof {
            if o.side == Kind::BUY {
                let i1 = choose|i: int| first_with_id(b.bids@, order_id@, i) && o == b.bids@[i];
                if cancelled is Some {
                    let i2 = choose|i: int| first_with_id(b.bids@, order_id@, i) && cancelled == Some(b.bids@[i]) && book.bids@ == b.bids@.remove(i);
                    lemma_first_unique(b.bids@, order_id@, i1, i2);
                    kk = i2;
                } else {
                    assert(b.bids@[i1].order_id@ == order_id@);
                }
            } else {
                let i1 = choose|i: int| first_with_id(b.asks@, order_id@, i) && o == b.asks@[i];
                if cancelled is Some {
                    let i2 = choose|i: int| first_with_id(b.asks@, order_id@, i) && cancelled == Some(b.asks@[i]) && book.asks@ == b.asks@.remove(i);
                    lemma_first_unique(b.asks@, order_id@, i1, i2);
                    kk = i2;
                } else {
                    assert(b.asks@[i1].order_id@ == order_id@);
                }
            }
        }
        self.orderbooks.insert(idx, book);
        proof {
            assert forall|j: int| 0 <= j < self.orderbooks@.len() implies (#[trigger] self.orderbooks@[j]).wf() by {
                if j != idx {
                    assert(self.orderbooks@[j] == old(self).orderbooks@[j]);
                }
            }
            assert(first_with_id(b.side_seq(o.side), order_id@, kk));
            assert(self.orderbooks@[idx as int].side_seq(o.side) == b.side_seq(o.side).remove(kk));
        }
        Ok(OrderCancelled { order_id: order_id.clone(), executed_qty: o.filled, remaining_qty: rem })
    }

    /// `s` holds this engine's books, balances and order counter.
    pub open spec fn stored_in(self, s: Snapshot) -> bool {
        &&& s.orderbooks@.len() == self.orderbooks@.len()
        &&& forall|i: int| 0 <= i < s.orderbooks@.len() ==> (#[trigger] s.orderbooks@[i]).same_as(self.orderbooks@[i])
        &&& s.balances@ == self.balances@
        &&& s.next_order_id == self.next_order_id
    }

    /// This engine was read back from `s`: the same orders, counters and
    /// balances, with depth maps computed from the orders.
    pub open spec fn restored_from(self, s: Snapshot) -> bool {
        &&& self.wf()
        &&& self.orderbooks@.len() == s.orderbooks@.len()
        &&& forall|i: int| 0 <= i < s.orderbooks@.len() ==> (#[trigger] s.orderbooks@[i]).rebuilt(self.orderbooks@[i])
        &&& self.balances@ == s.balances@
        &&& self.next_order_id == s.next_order_id
    }

    /// Two engines hold the same state.
    pub open spec fn same_state(self, other: Engine) -> bool {
        &&& self.orderbooks@.len() == other.orderbooks@.len()
        &&& forall|i: int| 0 <= i < self.orderbooks@.len() ==> (#[trigger] self.orderbooks@[i]).same_as(other.orderbooks@[i])
        &&& self.funds() == other.funds()
        &&& self.next_order_id == other.next_order_id
    }

    /// A copy of the engine's state, to be stored.
    pub fn snapshot(&self) -> (r: Snapshot)
        ensures
            self.stored_in(r),
    {
        let mut books: Vec<OrderBook> = Vec::new();
        let mut i: usize = 0;
        while i < self.orderbooks.len()
            invariant
                0 <= i <= self.orderbooks.len(),
                books@.len() == i,
                forall|j: int| 0 <= j < i ==> (#[trigger] books@[j]).same_as(self.orderbooks@[j]),
            decreases self.orderbooks.len() - i,
        {
            books.push(self.orderbooks[i].getsnapshot());
            i = i + 1;
        }
        Snapshot { orderbooks: books, balances: copy_entries(&self.balances), next_order_id: self.next_order_id }
    }

    /// The engine that `s` describes; `None` where a book in it has sides
    /// that are out of order, hold a closed order, or hold more at one
    /// level than `usize::MAX`.
    pub fn restore(s: Snapshot) -> (r: Option<Engine>)
        ensures
            r is None <==> exists|i: int| 0 <= i < s.orderbooks@.len() && !(#[trigger] s.orderbooks@[i]).valid_sides(),
            r is Some ==> r->0.restored_from(s),
    {
        let mut books: Vec<OrderBook> = Vec::new();
        let mut i: usize = 0;
        while i < s.orderbooks.len()
            invariant
                0 <= i <= s.orderbooks.len(),
                books@.len() == i,
                forall|j: int| 0 <= j < i ==> (#[trigger] s.orderbooks@[j]).rebuilt(books@[j]),
                forall|j: int| 0 <= j < i ==> (#[trigger] s.orderbooks@[j]).valid_sides(),
            decreases s.orderbooks.len() - i,
        {
            match s.orderbooks[i].rebuild() {
                Some(b) => books.push(b),
                None => {
                    return None;
                },
            }
            i = i + 1;
        }
        let e = Engine { orderbooks: books, balances: s.balances, next_order_id: s.next_order_id };
        assert forall|j: int| 0 <= j < e.orderbooks@.len() implies (#[trigger] e.orderbooks@[j]).wf() by {
            assert(s.orderbooks@[j].rebuilt(e.orderbooks@[j]));
        }
        Some(e)
    }
}

/// Storing the state and reading it back gives the same state: a consistent
/// engine's snapshot is always accepted, and whatever is read back from it
/// holds the same books, depth maps, balances and order counter.
pub proof fn lemma_snapshot_round_trip(e: Engine, s: Snapshot, e2: Engine)
    requires
        e.wf(),
        e.stored_in(s),
    ensures
        forall|i: int| 0 <= i < s.orderbooks@.len() ==> (#[trigger] s.orderbooks@[i]).valid_sides(),
        e2.restored_from(s) ==> e2.same_state(e),
{
    assert forall|i: int| 0 <= i < s.orderbooks@.len() implies (#[trigger] s.orderbooks@[i]).valid_sides() by {
        assert(e.orderbooks@[i].wf());
        lemma_wf_valid(e.orderbooks@[i]);
        assert(s.orderbooks@[i].same_as(e.orderbooks@[i]));
    }
    if e2.restored_from(s) {
        assert forall|i: int| 0 <= i < e2.orderbooks@.len() implies (#[trigger] e2.orderbooks@[i]).same_as(e.orderbooks@[i]) by {
            let b = e.orderbooks@[i];
            let b2 = e2.orderbooks@[i];
            assert(b.wf());
            assert(b2.wf());
            assert(s.orderbooks@[i].rebuilt(b2));
            assert(s.orderbooks@[i].same_as(b));
            lemma_depth_unique(b.bids@, b.bid_depth@, b2.bid_depth@);
            lemma_depth_unique(b.asks@, b.ask_depth@, b2.ask_depth@);
        }
    }
}

/// Once a prefix of the fills cannot be settled, neither can all of them.
proof fn lemma_settle_all_prefix(l: crate::ledger::Ledger, fs: Seq<Fills>, n: int, side: Kind, limit: int, m: Market)
    requires
        0 <= n <= fs.len(),
        settle_all(l, fs.subrange(0, n), side, limit, m) is None,
    ensures
        settle_all(l, fs, side, limit, m) is None,
    decreases fs.len() - n,
{
    if n < fs.len() {
        assert(fs.subrange(0, n + 1).drop_last() =~= fs.subrange(0, n));
        lemma_settle_all_prefix(l, fs, n + 1, side, limit, m);
    } else {
        assert(fs.subrange(0, n) =~= fs);
    }
}

} // verus!
