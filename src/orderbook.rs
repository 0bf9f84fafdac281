use std::collections::HashMap;
use vstd::prelude::*;

use crate::types::{Fills, FillStatus, Kind, Market, Order};

verus! {

broadcast use vstd::std_specs::hash::group_hash_axioms;

/// On side `side`, price `p` is strictly better than price `q`:
/// a higher bid, or a lower ask.
pub open spec fn better(side: Kind, p: usize, q: usize) -> bool {
    match side {
        Kind::BUY => p > q,
        Kind::SELL => p < q,
    }
}

/// A taker on side `side` with limit `limit` may trade with a resting order at `price`:
/// a buyer takes asks at or below its limit, a seller takes bids at or above it.
pub open spec fn crosses(side: Kind, limit: usize, price: usize) -> bool {
    match side {
        Kind::BUY => price <= limit,
        Kind::SELL => price >= limit,
    }
}

pub open spec fn opposite(side: Kind) -> Kind {
    match side {
        Kind::BUY => Kind::SELL,
        Kind::SELL => Kind::BUY,
    }
}

/// One side of the book, from the back of the queue to the front: every
/// order is on `side` and still open, and prices never get worse towards
/// the end, where the next order to trade stands.
pub open spec fn side_ok(s: Seq<Order>, side: Kind) -> bool {
    &&& forall|i: int| 0 <= i < s.len() ==> #[trigger] s[i].side == side && s[i].filled < s[i].quantity
    &&& forall|i: int, j: int| 0 <= i < j < s.len() ==> !better(side, #[trigger] s[i].price, #[trigger] s[j].price)
}

/// What the order `o` adds to the level at price `p`.
pub open spec fn share(o: Order, p: usize) -> int {
    if o.price == p {
        o.remaining()
    } else {
        0
    }
}

/// The open quantity resting at price `p`.
pub open spec fn level_sum(s: Seq<Order>, p: usize) -> int
    decreases s.len(),
{
    if s.len() == 0 {
        0
    } else {
        level_sum(s.drop_last(), p) + share(s.last(), p)
    }
}

/// A depth map agrees with a side: a price is a key exactly where some
/// quantity rests, and its value is that quantity.
pub open spec fn depth_ok(s: Seq<Order>, d: Map<usize, usize>) -> bool {
    forall|p: usize|
        (#[trigger] d.contains_key(p) <==> level_sum(s, p) > 0) && (d.contains_key(p) ==> d[p]
            == level_sum(s, p))
}

/// The sum of the quantities of a sequence of fills.
pub open spec fn fills_total(fs: Seq<Fills>) -> int
    decreases fs.len(),
{
    if fs.len() == 0 {
        0
    } else {
        fills_total(fs.drop_last()) + fs.last().quantity
    }
}

/// The fill of `q` units of the resting order `o` for a taker of user `taker`.
pub open spec fn fill_of(o: Order, q: int, trade_id: int, taker: String) -> Fills {
    Fills {
        price: o.price,
        quantity: q as usize,
        trade_id: trade_id as usize,
        maker_order_id: o.order_id,
        maker_user_id: o.user_id,
        taker_user_id: taker,
    }
}

pub open spec fn min(a: int, b: int) -> int {
    if a <= b {
        a
    } else {
        b
    }
}

/// Price-time matching of a taker on `side` with limit `limit`, wanting
/// `want` units, against the opposite side `s`: the side left behind and
/// the fills, in the order they happen. Trade ids count up from `next_id`.
pub open spec fn match_spec(
    s: Seq<Order>,
    side: Kind,
    limit: usize,
    taker: String,
    want: int,
    next_id: int,
) -> (Seq<Order>, Seq<Fills>)
    decreases s.len(),
{
    if want <= 0 || s.len() == 0 || !crosses(side, limit, s.last().price) {
        (s, Seq::empty())
    } else {
        let o = s.last();
        let q = min(want, o.remaining());
        let f = fill_of(o, q, next_id, taker);
        if q == o.remaining() {
            let rest = match_spec(s.drop_last(), side, limit, taker, want - q, next_id + 1);
            (rest.0, seq![f] + rest.1)
        } else {
            (s.drop_last().push(Order { filled: (o.filled + q) as usize, ..o }), seq![f])
        }
    }
}


/// `k` is where a new order `o` joins side `s`: behind every order with
/// a strictly worse price, ahead of the rest (later arrivals at its price
/// included, so that arrival order is kept within a level).
pub open spec fn placed(s: Seq<Order>, side: Kind, o: Order, k: int) -> bool {
    &&& 0 <= k <= s.len()
    &&& forall|i: int| 0 <= i < k ==> better(side, o.price, #[trigger] s[i].price)
    &&& forall|i: int| k <= i < s.len() ==> !better(side, o.price, #[trigger] s[i].price)
}

proof fn lemma_level_nonneg(s: Seq<Order>, side: Kind, p: usize)
    requires
        side_ok(s, side),
    ensures
        level_sum(s, p) >= 0,
    decreases s.len(),
{
    if s.len() > 0 {
        assert(s[s.len() - 1].side == side);
        lemma_side_drop_last(s, side);
        lemma_level_nonneg(s.drop_last(), side, p);
    }
}

proof fn lemma_level_insert(s: Seq<Order>, k: int, o: Order, p: usize)
    requires
        0 <= k <= s.len(),
    ensures
        level_sum(s.insert(k, o), p) == level_sum(s, p) + share(o, p),
    decreases s.len(),
{
    if k == s.len() {
        assert(s.insert(k, o).drop_last() =~= s);
    } else {
        lemma_level_insert(s.drop_last(), k, o, p);
        assert(s.insert(k, o).drop_last() =~= s.drop_last().insert(k, o));
    }
}

proof fn lemma_level_remove(s: Seq<Order>, k: int, p: usize)
    requires
        0 <= k < s.len(),
    ensures
        level_sum(s.remove(k), p) == level_sum(s, p) - share(s[k], p),
    decreases s.len(),
{
    if k == s.len() - 1 {
        assert(s.remove(k) =~= s.drop_last());
    } else {
        lemma_level_remove(s.drop_last(), k, p);
        assert(s.remove(k).drop_last() =~= s.drop_last().remove(k));
    }
}

fn crosses_exec(side: Kind, limit: usize, price: usize) -> (r: bool)
    ensures
        r == crosses(side, limit, price),
{
    match side {
        Kind::BUY => price <= limit,
        Kind::SELL => price >= limit,
    }
}

fn better_exec(side: Kind, p: usize, q: usize) -> (r: bool)
    ensures
        r == better(side, p, q),
{
    match side {
        Kind::BUY => p > q,
        Kind::SELL => p < q,
    }
}

/// Takes `q` units off the level at `p`, dropping the level when it empties.
fn depth_take(d: &mut HashMap<usize, usize>, p: usize, q: usize)
    requires
        old(d)@.contains_key(p),
        old(d)@[p] >= q,
    ensures
        old(d)@[p] == q ==> final(d)@ == old(d)@.remove(p),
        old(d)@[p] != q ==> final(d)@ == old(d)@.insert(p, (old(d)@[p] - q) as usize),
{
    let cur: usize = match d.get(&p) {
        Some(v) => *v,
        None => 0,
    };
    if cur == q {
        d.remove(&p);
    } else {
        d.insert(p, cur - q);
    }
}

/// Adds `q` units to the level at `p`, creating it if needed.
fn depth_put(d: &mut HashMap<usize, usize>, p: usize, q: usize)
    requires
        old(d)@.contains_key(p) ==> old(d)@[p] + q <= usize::MAX,
    ensures
        old(d)@.contains_key(p) ==> final(d)@ == old(d)@.insert(p, (old(d)@[p] + q) as usize),
        !old(d)@.contains_key(p) ==> final(d)@ == old(d)@.insert(p, q),
{
    let cur: usize = match d.get(&p) {
        Some(v) => *v,
        None => 0,
    };
    d.insert(p, cur + q);
}

/// The open quantity at `p` that a depth map records.
fn depth_at(d: &HashMap<usize, usize>, p: usize) -> (r: usize)
    ensures
        d@.contains_key(p) ==> r == d@[p],
        !d@.contains_key(p) ==> r == 0,
{
    match d.get(&p) {
        Some(v) => *v,
        None => 0,
    }
}

/// Puts the open order `o` into side `s` at its place, and its quantity into `d`.
fn rest_order(s: &mut Vec<Order>, d: &mut HashMap<usize, usize>, side: Kind, o: Order) -> (k: usize)
    requires
        side_ok(old(s)@, side),
        depth_ok(old(s)@, old(d)@),
        o.side == side,
        o.filled < o.quantity,
        level_sum(old(s)@, o.price) + o.remaining() <= usize::MAX,
    ensures
        placed(old(s)@, side, o, k as int),
        final(s)@ == old(s)@.insert(k as int, o),
        side_ok(final(s)@, side),
        depth_ok(final(s)@, final(d)@),
{
    let ghost s0 = s@;
    let mut k: usize = 0;
    while k < s.len() && better_exec(side, o.price, s[k].price)
        invariant
            s@ == s0,
            0 <= k <= s.len(),
            forall|i: int| 0 <= i < k ==> better(side, o.price, #[trigger] s@[i].price),
        decreases s.len() - k,
    {
        k = k + 1;
    }
    assert forall|i: int| k <= i < s0.len() implies !better(side, o.price, #[trigger] s0[i].price) by {
        if i > k {
            assert(!better(side, s0[k as int].price, s0[i].price));
        }
    }
    proof {
        assert forall|p: usize| #[trigger] level_sum(s0.insert(k as int, o), p) == level_sum(s0, p) + share(o, p) by {
            lemma_level_insert(s0, k as int, o, p);
        }
        lemma_level_nonneg(s0, side, o.price);
    }
    let q = o.quantity - o.filled;
    let p = o.price;
    depth_put(d, p, q);
    s.insert(k, o);
    proof {
        let s1 = s@;
        assert forall|i: int, j: int| 0 <= i < j < s1.len() implies !better(side, #[trigger] s1[i].price, #[trigger] s1[j].price) by {
            if j < k {
            } else if j == k {
            } else if i < k {
                assert(better(side, o.price, s0[i].price));
                assert(!better(side, o.price, s0[j - 1].price));
            } else if i == k {
            } else {
                assert(!better(side, s0[i - 1].price, s0[j - 1].price));
            }
        }
        assert forall|i: int| 0 <= i < s1.len() implies #[trigger] s1[i].side == side && s1[i].filled < s1[i].quantity by {
            if i < k {
            } else if i > k {
                assert(s1[i] == s0[i - 1]);
            }
        }
    }
    k
}


proof fn lemma_depth_after_take(
    s0: Seq<Order>,
    s1: Seq<Order>,
    d0: Map<usize, usize>,
    d1: Map<usize, usize>,
    price: usize,
    q: int,
)
    requires
        depth_ok(s0, d0),
        d0.contains_key(price),
        d0[price] >= q,
        q >= 0,
        forall|p: usize| #[trigger] level_sum(s1, p) == level_sum(s0, p) - (if p == price { q } else { 0 }),
        d0[price] == q ==> d1 == d0.remove(price),
        d0[price] != q ==> d1 == d0.insert(price, (d0[price] - q) as usize),
    ensures
        depth_ok(s1, d1),
{
    assert forall|p: usize| #[trigger] d1.contains_key(p) <==> level_sum(s1, p) > 0 by {
        assert(d0.contains_key(p) <==> level_sum(s0, p) > 0);
    }
    assert forall|p: usize| #[trigger] d1.contains_key(p) implies d1[p] == level_sum(s1, p) by {
        assert(d0.contains_key(p) <==> level_sum(s0, p) > 0);
        assert(d0.contains_key(p) ==> d0[p] == level_sum(s0, p));
        assert(level_sum(s1, p) == level_sum(s0, p) - (if p == price { q } else { 0 }));
        if p == price {
            assert(d0[price] != q);
            assert(d1[p] == d0[price] - q);
        } else {
            assert(d1[p] == d0[p]);
        }
    }
}

proof fn lemma_side_drop_last(s: Seq<Order>, side: Kind)
    requires
        side_ok(s, side),
        s.len() > 0,
    ensures
        side_ok(s.drop_last(), side),
{
    assert forall|i: int| 0 <= i < s.len() - 1 implies #[trigger] s.drop_last()[i] == s[i] by {}
}

/// Matches a taker on `side` (limit `limit`, user `taker`, wanting `want`
/// units) against the opposite side `s` with depth `d`. Returns the fills
/// and the units executed; `next_id` moves past the trade ids used.
fn match_side(
    s: &mut Vec<Order>,
    d: &mut HashMap<usize, usize>,
    side: Kind,
    limit: usize,
    taker: &String,
    want: usize,
    next_id: &mut usize,
) -> (r: (Vec<Fills>, usize))
    requires
        side_ok(old(s)@, opposite(side)),
        depth_ok(old(s)@, old(d)@),
        *old(next_id) + want <= usize::MAX,
    ensures
        ({
            let m = match_spec(old(s)@, side, limit, *taker, want as int, *old(next_id) as int);
            &&& final(s)@ == m.0
            &&& r.0@ == m.1
        }),
        r.1 == fills_total(r.0@),
        r.1 <= want,
        *final(next_id) == *old(next_id) + r.0@.len(),
        r.0@.len() <= r.1,
        side_ok(final(s)@, opposite(side)),
        depth_ok(final(s)@, final(d)@),
{
    let ghost s0 = s@;
    let ghost id0 = *next_id as int;
    let mut fills: Vec<Fills> = Vec::new();
    let mut executed: usize = 0;
    let mut done = false;
    while !done
        invariant
            side_ok(s@, opposite(side)),
            depth_ok(s@, d@),
            executed <= want,
            *next_id == id0 + fills@.len(),
            fills@.len() <= executed,
            id0 + want <= usize::MAX,
            fills_total(fills@) == executed,
            ({
                let m = match_spec(s@, side, limit, *taker, want - executed, *next_id as int);
                match_spec(s0, side, limit, *taker, want as int, id0) == (m.0, fills@ + m.1)
            }),
            done ==> match_spec(s@, side, limit, *taker, want - executed, *next_id as int) == (
            s@, Seq::<Fills>::empty()),
        decreases s@.len() + if done { 0int } else { 1int },
    {
        if executed == want || s.len() == 0 {
            done = true;
            assert(fills@ + Seq::<Fills>::empty() =~= fills@);
        } else {
            let last = s.len() - 1;
            let price = s[last].price;
            if !crosses_exec(side, limit, price) {
                done = true;
                assert(fills@ + Seq::<Fills>::empty() =~= fills@);
            } else {
                let ghost sc = s@;
                let ghost fc = fills@;
                let ghost o = sc.last();
                let ghost want_c = want - executed;
                assert(sc[last as int].side == opposite(side));
                let rem = s[last].quantity - s[last].filled;
                let q = if want - executed < rem {
                    want - executed
                } else {
                    rem
                };
                let f = Fills {
                    price,
                    quantity: q,
                    trade_id: *next_id,
                    maker_order_id: s[last].order_id.clone(),
                    maker_user_id: s[last].user_id.clone(),
                    taker_user_id: taker.clone(),
                };
                assert(f == fill_of(o, q as int, *next_id as int, *taker));
                fills.push(f);
                assert(fills@.drop_last() =~= fc);
                *next_id = *next_id + 1;
                executed = executed + q;
                let ghost d0 = d@;
                proof {
                    lemma_side_drop_last(sc, opposite(side));
                    lemma_level_nonneg(sc.drop_last(), opposite(side), price);
                    assert(level_sum(sc, price) == level_sum(sc.drop_last(), price) + share(o, price));
                    assert(d0.contains_key(price));
                }
                depth_take(d, price, q);
                if q == rem {
                    s.pop();
                    assert(s@ =~= sc.drop_last());
                    assert(fc + (seq![f] + match_spec(s@, side, limit, *taker, want - executed, *next_id as int).1)
                        =~= fills@ + match_spec(s@, side, limit, *taker, want - executed, *next_id as int).1);
                    assert forall|p: usize| #[trigger] level_sum(s@, p) == level_sum(sc, p) - (if p == price { q as int } else { 0 }) by {
                        assert(level_sum(sc, p) == level_sum(sc.drop_last(), p) + share(o, p));
                    }
                    proof { lemma_depth_after_take(sc, s@, d0, d@, price, q as int); }
                } else {
                    let upd = Order {
                        order_id: s[last].order_id.clone(),
                        price,
                        quantity: s[last].quantity,
                        filled: s[last].filled + q,
                        side: s[last].side,
                        user_id: s[last].user_id.clone(),
                    };
                    s.set(last, upd);
                    assert(s@ =~= sc.drop_last().push(Order { filled: (o.filled + q) as usize, ..o }));
                    assert(s@.drop_last() =~= sc.drop_last());
                    done = true;
                    assert(fc + seq![f] =~= fills@);
                    assert(fills@ + Seq::<Fills>::empty() =~= fills@);
                    assert forall|p: usize| #[trigger] level_sum(s@, p) == level_sum(sc, p) - (if p == price { q as int } else { 0 }) by {
                        assert(level_sum(sc, p) == level_sum(sc.drop_last(), p) + share(o, p));
                        assert(level_sum(s@, p) == level_sum(s@.drop_last(), p) + share(s@.last(), p));
                    }
                    proof { lemma_depth_after_take(sc, s@, d0, d@, price, q as int); }
                    assert(side_ok(s@, opposite(side))) by {
                        assert forall|i: int| 0 <= i < last implies #[trigger] s@[i] == sc[i] by {}
                    }
                }
            }
        }
    }
    (fills, executed)
}


/// The status of an incoming order that wanted `want` units and got `executed`.
pub open spec fn status_of(executed: int, want: int) -> FillStatus {
    if executed == want {
        FillStatus::Filled
    } else if executed > 0 {
        FillStatus::PartiallyFilled
    } else {
        FillStatus::Unfilled
    }
}

/// `i` is the first position of side `s` that holds the order `id`.
pub open spec fn first_with_id(s: Seq<Order>, id: Seq<char>, i: int) -> bool {
    &&& 0 <= i < s.len()
    &&& s[i].order_id@ == id
    &&& forall|j: int| 0 <= j < i ==> (#[trigger] s[j]).order_id@ != id
}

pub(crate) proof fn lemma_first_unique(s: Seq<Order>, id: Seq<char>, i: int, j: int)
    requires
        first_with_id(s, id, i),
        first_with_id(s, id, j),
    ensures
        i == j,
{
    if i < j {
        assert(s[i].order_id@ != id);
    } else if j < i {
        assert(s[j].order_id@ != id);
    }
}

/// The order that book `b` holds under `id`: the first bid with that id,
/// or, where no bid has it, the first ask.
pub open spec fn holds(b: OrderBook, id: Seq<char>, o: Order) -> bool {
    ||| exists|i: int| first_with_id(b.bids@, id, i) && o == b.bids@[i]
    ||| (forall|i: int| 0 <= i < b.bids@.len() ==> (#[trigger] b.bids@[i]).order_id@ != id)
        && (exists|i: int| first_with_id(b.asks@, id, i) && o == b.asks@[i])
}

proof fn lemma_fills_total_prepend(f: Fills, fs: Seq<Fills>)
    ensures
        fills_total(seq![f] + fs) == f.quantity + fills_total(fs),
    decreases fs.len(),
{
    let t = seq![f] + fs;
    if fs.len() > 0 {
        assert(t.drop_last() =~= seq![f] + fs.drop_last());
        assert(t.last() == fs.last());
        lemma_fills_total_prepend(f, fs.drop_last());
    } else {
        assert(t =~= seq![f]);
        assert(t.drop_last() =~= Seq::<Fills>::empty());
        assert(t.last() == f);
        assert(fills_total(t.drop_last()) == 0);
    }
}

/// Price priority holds for every fill: a buyer trades only at or below its
/// limit and a seller only at or above it, and each fill is at the price of
/// a resting order.
pub proof fn lemma_fills_cross(s: Seq<Order>, side: Kind, limit: usize, taker: String, want: int, next_id: int)
    ensures
        forall|k: int| 0 <= k < match_spec(s, side, limit, taker, want, next_id).1.len() ==> {
            let f = #[trigger] match_spec(s, side, limit, taker, want, next_id).1[k];
            crosses(side, limit, f.price) && exists|i: int| 0 <= i < s.len() && s[i].price == f.price
        },
    decreases s.len(),
{
    if !(want <= 0 || s.len() == 0 || !crosses(side, limit, s.last().price)) {
        let o = s.last();
        let q = min(want, o.remaining());
        if q == o.remaining() {
            lemma_fills_cross(s.drop_last(), side, limit, taker, want - q, next_id + 1);
            let fs = match_spec(s, side, limit, taker, want, next_id).1;
            let rest = match_spec(s.drop_last(), side, limit, taker, want - q, next_id + 1).1;
            assert forall|k: int| 0 <= k < fs.len() implies {
                let f = #[trigger] fs[k];
                crosses(side, limit, f.price) && exists|i: int| 0 <= i < s.len() && s[i].price == f.price
            } by {
                if k == 0 {
                    assert(s[s.len() - 1].price == fs[k].price);
                } else {
                    assert(fs[k] == rest[k - 1]);
                    let i = choose|i: int| 0 <= i < s.drop_last().len() && s.drop_last()[i].price == rest[k - 1].price;
                    assert(s[i].price == fs[k].price);
                }
            }
        } else {
            assert(s[s.len() - 1].price == o.price);
        }
    }
}

/// Matching never trades more than the taker wants; each fill trades a
/// positive quantity; and the makers left behind keep their place, id,
/// price and quantity, with `filled` grown or kept and still below the
/// quantity.
pub proof fn lemma_match_bounded(s: Seq<Order>, side: Kind, limit: usize, taker: String, want: int, next_id: int)
    requires
        side_ok(s, opposite(side)),
    ensures
        ({
            let m = match_spec(s, side, limit, taker, want, next_id);
            &&& 0 <= fills_total(m.1) <= if want < 0 { 0 } else { want }
            &&& forall|k: int| 0 <= k < m.1.len() ==> (#[trigger] m.1[k]).quantity > 0
            &&& m.0.len() <= s.len()
            &&& forall|i: int| 0 <= i < m.0.len() ==> {
                &&& (#[trigger] m.0[i]).order_id == s[i].order_id
                &&& m.0[i].user_id == s[i].user_id
                &&& m.0[i].price == s[i].price
                &&& m.0[i].quantity == s[i].quantity
                &&& s[i].filled <= m.0[i].filled < m.0[i].quantity
            }
        }),
    decreases s.len(),
{
    let m = match_spec(s, side, limit, taker, want, next_id);
    assert forall|i: int| 0 <= i < s.len() implies (#[trigger] s[i]).filled < s[i].quantity by {
        assert(s[i].side == opposite(side));
    }
    if !(want <= 0 || s.len() == 0 || !crosses(side, limit, s.last().price)) {
        let o = s.last();
        let q = min(want, o.remaining());
        let f = fill_of(o, q, next_id, taker);
        if q == o.remaining() {
            lemma_side_drop_last(s, opposite(side));
            lemma_match_bounded(s.drop_last(), side, limit, taker, want - q, next_id + 1);
            let rest = match_spec(s.drop_last(), side, limit, taker, want - q, next_id + 1);
            lemma_fills_total_prepend(f, rest.1);
            assert forall|k: int| 0 <= k < m.1.len() implies (#[trigger] m.1[k]).quantity > 0 by {
                if k > 0 {
                    assert(m.1[k] == rest.1[k - 1]);
                }
            }
            assert forall|i: int| 0 <= i < m.0.len() implies (#[trigger] m.0[i]).order_id == s[i].order_id by {
                assert(s.drop_last()[i] == s[i]);
            }
        } else {
            lemma_fills_total_prepend(f, Seq::empty());
            assert(seq![f] + Seq::<Fills>::empty() =~= seq![f]);
        }
    } else {
        assert(fills_total(Seq::<Fills>::empty()) == 0);
    }
}

/// The fills that `match_side` would return, found without changing the side.
fn preview_side(s: &Vec<Order>, side: Kind, limit: usize, taker: &String, want: usize, next_id: usize) -> (r: Vec<Fills>)
    requires
        side_ok(s@, opposite(side)),
        next_id + want <= usize::MAX,
    ensures
        r@ == match_spec(s@, side, limit, *taker, want as int, next_id as int).1,
{
    let mut fills: Vec<Fills> = Vec::new();
    let mut j: usize = s.len();
    let mut w: usize = want;
    let mut id: usize = next_id;
    let mut done = false;
    assert(s@.subrange(0, j as int) =~= s@);
    while !done
        invariant
            0 <= j <= s@.len(),
            side_ok(s@, opposite(side)),
            w <= want,
            id == next_id + fills@.len(),
            fills@.len() + w <= want,
            next_id + want <= usize::MAX,
            match_spec(s@, side, limit, *taker, want as int, next_id as int).1 == fills@ + match_spec(
                s@.subrange(0, j as int), side, limit, *taker, w as int, id as int).1,
            done ==> match_spec(s@.subrange(0, j as int), side, limit, *taker, w as int, id as int).1 == Seq::<Fills>::empty(),
        decreases j + if done { 0int } else { 1int },
    {
        let ghost t = s@.subrange(0, j as int);
        if w == 0 || j == 0 || !crosses_exec(side, limit, s[j - 1].price) {
            done = true;
        } else {
            assert(t.last() == s@[j - 1]);
            assert(t.drop_last() =~= s@.subrange(0, j - 1));
            assert(s@[j - 1].side == opposite(side));
            let o = &s[j - 1];
            let rem = o.quantity - o.filled;
            let q = if w < rem { w } else { rem };
            let f = Fills {
                price: o.price,
                quantity: q,
                trade_id: id,
                maker_order_id: o.order_id.clone(),
                maker_user_id: o.user_id.clone(),
                taker_user_id: taker.clone(),
            };
            let ghost fc = fills@;
            fills.push(f);
            if q == rem {
                assert(fc + (seq![f] + match_spec(s@.subrange(0, j - 1), side, limit, *taker, w - q, id + 1).1)
                    =~= fills@ + match_spec(s@.subrange(0, j - 1), side, limit, *taker, w - q, id + 1).1);
                j = j - 1;
                w = w - q;
                id = id + 1;
            } else {
                assert(fc + seq![f] =~= fills@);
                assert(fills@ + Seq::<Fills>::empty() =~= fills@);
                w = 0;
                id = id + 1;
                done = true;
            }
        }
    }
    assert(fills@ + Seq::<Fills>::empty() =~= fills@);
    fills
}

/// Resting quantity per price level, for bids and for asks.
#[derive(Debug, Clone)]
pub struct Depth {
    pub bid_depth: HashMap<usize, usize>,
    pub ask_depth: HashMap<usize, usize>,
}

/// Resting quantity per price level, as the book publishes it.
#[derive(Debug, Clone)]
pub struct BookWithQuantity {
    pub bids: HashMap<usize, usize>,
    pub asks: HashMap<usize, usize>,
}

impl BookWithQuantity {
    /// Empty levels on both sides.
    pub fn new() -> (r: BookWithQuantity)
        ensures
            r.bids@ == Map::<usize, usize>::empty(),
            r.asks@ == Map::<usize, usize>::empty(),
    {
        BookWithQuantity { bids: HashMap::new(), asks: HashMap::new() }
    }
}

/// What matching an incoming order did.
#[derive(Debug, Clone)]
pub struct Fillresult {
    pub status: FillStatus,
    pub executed_qty: usize,
    pub fills: Vec<Fills>,
    pub depth: Depth,
}

/// The order book of one market. Each side is kept from the back of the
/// queue to the front: the order that trades next stands last.
#[derive(Debug, Clone)]
pub struct OrderBook {
    pub market: Market,
    pub bids: Vec<Order>,
    pub asks: Vec<Order>,
    pub last_trade_id: usize,
    pub current_price: usize,
    pub bid_depth: HashMap<usize, usize>,
    pub ask_depth: HashMap<usize, usize>,
}

fn copy_orders(v: &Vec<Order>) -> (r: Vec<Order>)
    ensures
        r@ == v@,
{
    let mut r: Vec<Order> = Vec::new();
    let mut i: usize = 0;
    while i < v.len()
        invariant
            0 <= i <= v.len(),
            r@ == v@.subrange(0, i as int),
        decreases v.len() - i,
    {
        r.push(v[i].duplicate());
        i = i + 1;
        assert(r@ =~= v@.subrange(0, i as int));
    }
    assert(v@.subrange(0, v.len() as int) =~= v@);
    r
}

/// The orders of side `s` that belong to user `u`, in book order.
pub open spec fn owned_by(s: Seq<Order>, u: Seq<char>) -> Seq<Order>
    decreases s.len(),
{
    if s.len() == 0 {
        s
    } else if s.last().user_id@ == u {
        owned_by(s.drop_last(), u).push(s.last())
    } else {
        owned_by(s.drop_last(), u)
    }
}

/// The open orders of `user` on side `v`, in book order.
fn orders_of(v: &Vec<Order>, user: &String) -> (r: Vec<Order>)
    ensures
        r@ == owned_by(v@, user@),
{
    let mut r: Vec<Order> = Vec::new();
    let mut i: usize = 0;
    while i < v.len()
        invariant
            0 <= i <= v.len(),
            r@ == owned_by(v@.subrange(0, i as int), user@),
        decreases v.len() - i,
    {
        let ghost next = v@.subrange(0, i + 1);
        assert(next.drop_last() =~= v@.subrange(0, i as int));
        if v[i].user_id == *user {
            r.push(v[i].duplicate());
        }
        i = i + 1;
        assert(v@.subrange(0, i as int) == next);
    }
    assert(v@.subrange(0, v.len() as int) =~= v@);
    r
}

/// Takes the first order with id `id` off side `s`, and its open quantity off `d`.
fn cancel_in(s: &mut Vec<Order>, d: &mut HashMap<usize, usize>, side: Kind, id: &String) -> (r:
    Option<Order>)
    requires
        side_ok(old(s)@, side),
        depth_ok(old(s)@, old(d)@),
    ensures
        side_ok(final(s)@, side),
        depth_ok(final(s)@, final(d)@),
        r is None ==> *final(s) == *old(s) && *final(d) == *old(d) && forall|i: int|
            0 <= i < old(s)@.len() ==> (#[trigger] old(s)@[i]).order_id@ != id@,
        r is Some ==> exists|i: int|
            first_with_id(old(s)@, id@, i) && r == Some(old(s)@[i]) && final(s)@ == old(s)@.remove(i),
{
    let mut i: usize = 0;
    while i < s.len() && !(s[i].order_id == *id)
        invariant
            0 <= i <= s.len(),
            forall|j: int| 0 <= j < i ==> (#[trigger] s@[j]).order_id@ != id@,
        decreases s.len() - i,
    {
        i = i + 1;
    }
    if i == s.len() {
        return None;
    }
    let ghost s0 = s@;
    let ghost d0 = d@;
    let ghost o = s0[i as int];
    assert(o.side == side);
    proof {
        lemma_level_remove(s0, i as int, o.price);
        assert(side_ok(s0.remove(i as int), side)) by {
            let s1 = s0.remove(i as int);
            assert forall|a: int, b: int| 0 <= a < b < s1.len() implies !better(side, #[trigger] s1[a].price, #[trigger] s1[b].price) by {
                let a0 = if a < i { a } else { a + 1 };
                let b0 = if b < i { b } else { b + 1 };
                assert(!better(side, s0[a0].price, s0[b0].price));
            }
            assert forall|a: int| 0 <= a < s1.len() implies #[trigger] s1[a].side == side && s1[a].filled < s1[a].quantity by {
                let a0 = if a < i { a } else { a + 1 };
                assert(s0[a0].side == side);
            }
        }
        lemma_level_nonneg(s0.remove(i as int), side, o.price);
        assert(d0.contains_key(o.price));
    }
    let q = s[i].quantity - s[i].filled;
    let p = s[i].price;
    depth_take(d, p, q);
    let removed = s.remove(i);
    proof {
        assert forall|p: usize| #[trigger] level_sum(s@, p) == level_sum(s0, p) - (if p == o.price { q as int } else { 0 }) by {
            lemma_level_remove(s0, i as int, p);
        }
        lemma_depth_after_take(s0, s@, d0, d@, o.price, q as int);
        assert(first_with_id(s0, id@, i as int));
    }
    Some(removed)
}

impl OrderBook {
    /// The book is consistent: both sides ordered and open, and each depth
    /// map in step with its side.
    pub open spec fn wf(self) -> bool {
        &&& side_ok(self.bids@, Kind::BUY)
        &&& side_ok(self.asks@, Kind::SELL)
        &&& depth_ok(self.bids@, self.bid_depth@)
        &&& depth_ok(self.asks@, self.ask_depth@)
    }

    /// The resting orders of side `side`.
    pub open spec fn side_seq(self, side: Kind) -> Seq<Order> {
        match side {
            Kind::BUY => self.bids@,
            Kind::SELL => self.asks@,
        }
    }

    /// The book can take `o` without a counter running past `usize::MAX`:
    /// a trade id for each unit, and the level that its rest would join.
    pub open spec fn has_room(self, o: Order) -> bool {
        &&& self.last_trade_id + o.quantity < usize::MAX
        &&& level_sum(self.side_seq(o.side), o.price) + o.quantity <= usize::MAX
    }

    /// An empty book for `market`.
    pub fn new(market: Market) -> (r: OrderBook)
        ensures
            r.wf(),
            r.market == market,
            r.bids@.len() == 0,
            r.asks@.len() == 0,
            r.last_trade_id == 0,
            r.current_price == 0,
    {
        let r = OrderBook {
            market,
            bids: Vec::new(),
            asks: Vec::new(),
            last_trade_id: 0,
            current_price: 0,
            bid_depth: HashMap::new(),
            ask_depth: HashMap::new(),
        };
        assert forall|p: usize| #[trigger] level_sum(r.bids@, p) == 0 && level_sum(r.asks@, p) == 0 by {}
        r
    }

    /// The market's symbol, `BASE_QUOTE`.
    pub fn ticker(&self) -> (r: String)
        ensures
            r@ == self.market.base_spec().name_spec() + "_"@ + self.market.quote_spec().name_spec(),
    {
        let mut r = String::from_str(self.market.base().name());
        r.append("_");
        r.append(self.market.quote().name());
        r
    }

    /// A copy of the book.
    pub fn getsnapshot(&self) -> (r: OrderBook)
        ensures
            r.market == self.market,
            r.bids@ == self.bids@,
            r.asks@ == self.asks@,
            r.last_trade_id == self.last_trade_id,
            r.current_price == self.current_price,
            r.bid_depth@ == self.bid_depth@,
            r.ask_depth@ == self.ask_depth@,
    {
        OrderBook {
            market: self.market,
            bids: copy_orders(&self.bids),
            asks: copy_orders(&self.asks),
            last_trade_id: self.last_trade_id,
            current_price: self.current_price,
            bid_depth: self.bid_depth.clone(),
            ask_depth: self.ask_depth.clone(),
        }
    }

    /// The resting quantity per price level on both sides.
    pub fn depth(&self) -> (r: Depth)
        ensures
            r.bid_depth@ == self.bid_depth@,
            r.ask_depth@ == self.ask_depth@,
    {
        Depth { bid_depth: self.bid_depth.clone(), ask_depth: self.ask_depth.clone() }
    }

    /// The open quantity resting on `side` at `price`.
    pub fn level_total(&self, side: Kind, price: usize) -> (r: usize)
        requires
            self.wf(),
        ensures
            r == level_sum(self.side_seq(side), price),
    {
        let r = match side {
            Kind::BUY => depth_at(&self.bid_depth, price),
            Kind::SELL => depth_at(&self.ask_depth, price),
        };
        proof {
            lemma_level_nonneg(self.side_seq(side), side, price);
        }
        r
    }

    /// Whether the book can take `o` (see `has_room`).
    pub fn room_for(&self, o: &Order) -> (r: bool)
        requires
            self.wf(),
        ensures
            r == self.has_room(*o),
    {
        let level = self.level_total(o.side, o.price);
        self.last_trade_id < usize::MAX - o.quantity && o.quantity <= usize::MAX - level
    }

    /// The match of `o`, as a taker on `side`, against the other side of this book.
    pub open spec fn match_of(self, o: Order, side: Kind) -> (Seq<Order>, Seq<Fills>) {
        match_spec(
            self.side_seq(opposite(side)),
            side,
            o.price,
            o.user_id,
            o.remaining(),
            self.last_trade_id + 1,
        )
    }

    /// What matching `o` as a taker on `side` leaves the book and returns.
    pub open spec fn matched(self, post: OrderBook, o: Order, side: Kind, r: Fillresult) -> bool {
        let m = self.match_of(o, side);
        &&& post.wf()
        &&& post.market == self.market
        &&& post.side_seq(opposite(side)) == m.0
        &&& post.side_seq(side) == self.side_seq(side)
        &&& side == Kind::SELL ==> post.ask_depth@ == self.ask_depth@
        &&& side == Kind::BUY ==> post.bid_depth@ == self.bid_depth@
        &&& r.fills@ == m.1
        &&& r.executed_qty == fills_total(m.1)
        &&& r.executed_qty <= o.remaining()
        &&& r.status == status_of(r.executed_qty as int, o.remaining())
        &&& post.last_trade_id == self.last_trade_id + m.1.len()
        &&& post.current_price == if m.1.len() > 0 {
            m.1.last().price
        } else {
            self.current_price
        }
        &&& r.depth.bid_depth@ == post.bid_depth@
        &&& r.depth.ask_depth@ == post.ask_depth@
    }

    fn match_incoming(&mut self, order: &Order, side: Kind) -> (r: Fillresult)
        requires
            old(self).wf(),
            order.filled <= order.quantity,
            old(self).last_trade_id + order.quantity < usize::MAX,
        ensures
            old(self).matched(*final(self), *order, side, r),
    {
        let want = order.quantity - order.filled;
        let mut next_id = self.last_trade_id + 1;
        let (fills, executed) = match side {
            Kind::BUY => match_side(
                &mut self.asks,
                &mut self.ask_depth,
                side,
                order.price,
                &order.user_id,
                want,
                &mut next_id,
            ),
            Kind::SELL => match_side(
                &mut self.bids,
                &mut self.bid_depth,
                side,
                order.price,
                &order.user_id,
                want,
                &mut next_id,
            ),
        };
        self.last_trade_id = next_id - 1;
        if fills.len() > 0 {
            self.current_price = fills[fills.len() - 1].price;
        }
        let status = if executed == want {
            FillStatus::Filled
        } else if executed > 0 {
            FillStatus::PartiallyFilled
        } else {
            FillStatus::Unfilled
        };
        Fillresult { status, executed_qty: executed, fills, depth: self.depth() }
    }

    /// Matches an incoming buy order against the asks, best price first and
    /// oldest first within a price. The order itself is not placed.
    pub fn match_bid(&mut self, order: Order) -> (r: Fillresult)
        requires
            old(self).wf(),
            order.filled <= order.quantity,
            old(self).last_trade_id + order.quantity < usize::MAX,
        ensures
            old(self).matched(*final(self), order, Kind::BUY, r),
    {
        self.match_incoming(&order, Kind::BUY)
    }

    /// Matches an incoming sell order against the bids, best price first and
    /// oldest first within a price. The order itself is not placed.
    pub fn match_ask(&mut self, order: Order) -> (r: Fillresult)
        requires
            old(self).wf(),
            order.filled <= order.quantity,
            old(self).last_trade_id + order.quantity < usize::MAX,
        ensures
            old(self).matched(*final(self), order, Kind::SELL, r),
    {
        self.match_incoming(&order, Kind::SELL)
    }

    /// `post` is this book after the order `o` came in and was matched into
    /// `fills`, `executed` units in all, with its rest placed on its own side.
    pub open spec fn placed_order(self, post: OrderBook, o: Order, fills: Seq<Fills>, executed: int) -> bool {
        let m = self.match_of(o, o.side);
        let own = self.side_seq(o.side);
        let o2 = Order { filled: (o.filled + executed) as usize, ..o };
        &&& post.wf()
        &&& post.market == self.market
        &&& fills == m.1
        &&& executed == fills_total(m.1)
        &&& executed <= o.remaining()
        &&& post.side_seq(opposite(o.side)) == m.0
        &&& o2.filled < o.quantity ==> exists|k: int|
            placed(own, o.side, o2, k) && post.side_seq(o.side) == own.insert(k, o2)
        &&& o2.filled == o.quantity ==> post.side_seq(o.side) == own
        &&& post.last_trade_id == self.last_trade_id + m.1.len()
        &&& post.current_price == if m.1.len() > 0 {
            m.1.last().price
        } else {
            self.current_price
        }
    }

    /// Matches `order` against the other side and rests what is left of it
    /// on its own side, behind the orders already at its price. `order.filled`
    /// becomes the units it has traded.
    pub fn add_order(&mut self, order: &mut Order) -> (r: Fillresult)
        requires
            old(self).wf(),
            old(order).filled <= old(order).quantity,
            old(self).has_room(*old(order)),
        ensures
            old(self).placed_order(*final(self), *old(order), r.fills@, r.executed_qty as int),
            *final(order) == (Order { filled: (old(order).filled + r.executed_qty) as usize, ..*old(order) }),
            r.status == status_of(r.executed_qty as int, old(order).remaining()),
            r.depth.bid_depth@ == final(self).bid_depth@,
            r.depth.ask_depth@ == final(self).ask_depth@,
    {
        let side = order.side;
        let mut r = self.match_incoming(order, side);
        order.filled = order.filled + r.executed_qty;
        if order.filled < order.quantity {
            let o = order.duplicate();
            let ghost k: int;
            match side {
                Kind::BUY => {
                    let kk = rest_order(&mut self.bids, &mut self.bid_depth, side, o);
                    proof { k = kk as int; }
                },
                Kind::SELL => {
                    let kk = rest_order(&mut self.asks, &mut self.ask_depth, side, o);
                    proof { k = kk as int; }
                },
            }
            r.depth = self.depth();
        }
        r
    }

    /// The open orders of `user_id`: its asks, then its bids, each in book order.
    pub fn get_open_orders(&self, user_id: &String) -> (r: Vec<Order>)
        ensures
            r@ == owned_by(self.asks@, user_id@) + owned_by(self.bids@, user_id@),
    {
        let mut r = orders_of(&self.asks, user_id);
        let mut b = orders_of(&self.bids, user_id);
        r.append(&mut b);
        r
    }

    /// The resting order `order_id`, if either side holds it: the first bid
    /// with that id, else the first ask.
    pub fn find_order(&self, order_id: &String) -> (r: Option<Order>)
        ensures
            r is None ==> forall|i: int| 0 <= i < self.bids@.len() ==> (#[trigger] self.bids@[i]).order_id@ != order_id@,
            r is None ==> forall|i: int| 0 <= i < self.asks@.len() ==> (#[trigger] self.asks@[i]).order_id@ != order_id@,
            r is Some ==> holds(*self, order_id@, r->0),
    {
        let mut i: usize = 0;
        while i < self.bids.len()
            invariant
                0 <= i <= self.bids.len(),
                forall|j: int| 0 <= j < i ==> (#[trigger] self.bids@[j]).order_id@ != order_id@,
            decreases self.bids.len() - i,
        {
            if self.bids[i].order_id == *order_id {
                assert(first_with_id(self.bids@, order_id@, i as int));
                return Some(self.bids[i].duplicate());
            }
            i = i + 1;
        }
        let mut i: usize = 0;
        while i < self.asks.len()
            invariant
                0 <= i <= self.asks.len(),
                forall|j: int| 0 <= j < self.bids@.len() ==> (#[trigger] self.bids@[j]).order_id@ != order_id@,
                forall|j: int| 0 <= j < i ==> (#[trigger] self.asks@[j]).order_id@ != order_id@,
            decreases self.asks.len() - i,
        {
            if self.asks[i].order_id == *order_id {
                assert(first_with_id(self.asks@, order_id@, i as int));
                return Some(self.asks[i].duplicate());
            }
            i = i + 1;
        }
        None
    }

    /// Removes the bid `order_id` and returns it, with the price and the open
    /// quantity that it held; `None`, with the book unchanged, where no bid has that id.
    pub fn cancel_bid(&mut self, order_id: &String) -> (r: Option<Order>)
        requires
            old(self).wf(),
        ensures
            final(self).wf(),
            r is None ==> *final(self) == *old(self),
            r is None ==> forall|i: int| 0 <= i < old(self).bids@.len() ==> (#[trigger] old(self).bids@[i]).order_id@ != order_id@,
            r is Some ==> exists|i: int|
                first_with_id(old(self).bids@, order_id@, i) && r == Some(old(self).bids@[i])
                    && final(self).bids@ == old(self).bids@.remove(i),
            final(self).asks@ == old(self).asks@,
            final(self).ask_depth@ == old(self).ask_depth@,
            final(self).market == old(self).market,
            final(self).last_trade_id == old(self).last_trade_id,
            final(self).current_price == old(self).current_price,
    {
        cancel_in(&mut self.bids, &mut self.bid_depth, Kind::BUY, order_id)
    }

    /// Removes the ask `order_id` and returns it, with the price and the open
    /// quantity that it held; `None`, with the book unchanged, where no ask has that id.
    pub fn cancel_ask(&mut self, order_id: &String) -> (r: Option<Order>)
        requires
            old(self).wf(),
        ensures
            final(self).wf(),
            r is None ==> *final(self) == *old(self),
            r is None ==> forall|i: int| 0 <= i < old(self).asks@.len() ==> (#[trigger] old(self).asks@[i]).order_id@ != order_id@,
            r is Some ==> exists|i: int|
                first_with_id(old(self).asks@, order_id@, i) && r == Some(old(self).asks@[i])
                    && final(self).asks@ == old(self).asks@.remove(i),
            final(self).bids@ == old(self).bids@,
            final(self).bid_depth@ == old(self).bid_depth@,
            final(self).market == old(self).market,
            final(self).last_trade_id == old(self).last_trade_id,
            final(self).current_price == old(self).current_price,
    {
        cancel_in(&mut self.asks, &mut self.ask_depth, Kind::SELL, order_id)
    }

    /// Two books hold the same orders, counters and depth maps.
    pub open spec fn same_as(self, other: OrderBook) -> bool {
        &&& self.market == other.market
        &&& self.bids@ == other.bids@
        &&& self.asks@ == other.asks@
        &&& self.last_trade_id == other.last_trade_id
        &&& self.current_price == other.current_price
        &&& self.bid_depth@ == other.bid_depth@
        &&& self.ask_depth@ == other.ask_depth@
    }

    /// The sides are ordered and open, and no level holds more than `usize::MAX`.
    pub open spec fn valid_sides(self) -> bool {
        &&& side_ok(self.bids@, Kind::BUY)
        &&& side_ok(self.asks@, Kind::SELL)
        &&& forall|p: usize| #[trigger] level_sum(self.bids@, p) <= usize::MAX
        &&& forall|p: usize| #[trigger] level_sum(self.asks@, p) <= usize::MAX
    }

    /// `post` holds the orders and counters of this book, with depth maps
    /// in step with its sides.
    pub open spec fn rebuilt(self, post: OrderBook) -> bool {
        &&& post.wf()
        &&& post.market == self.market
        &&& post.bids@ == self.bids@
        &&& post.asks@ == self.asks@
        &&& post.last_trade_id == self.last_trade_id
        &&& post.current_price == self.current_price
    }

    /// This book with its depth maps computed from its orders; `None` where
    /// its sides are not valid.
    pub fn rebuild(&self) -> (r: Option<OrderBook>)
        ensures
            r is None <==> !self.valid_sides(),
            r is Some ==> self.rebuilt(r->0),
    {
        proof {
            if side_ok(self.bids@, Kind::BUY) && side_ok(self.asks@, Kind::SELL) && !self.valid_sides() {
                if !(forall|p: usize| #[trigger] level_sum(self.bids@, p) <= usize::MAX) {
                    let p = choose|p: usize| !(level_sum(self.bids@, p) <= usize::MAX);
                    assert(level_sum(self.bids@, p) > usize::MAX);
                } else {
                    let p = choose|p: usize| !(level_sum(self.asks@, p) <= usize::MAX);
                    assert(level_sum(self.asks@, p) > usize::MAX);
                }
            }
        }
        if !check_side(&self.bids, Kind::BUY) || !check_side(&self.asks, Kind::SELL) {
            return None;
        }
        let bid_depth = match depth_of(&self.bids, Kind::BUY) {
            Some(d) => d,
            None => {
                return None;
            },
        };
        let ask_depth = match depth_of(&self.asks, Kind::SELL) {
            Some(d) => d,
            None => {
                return None;
            },
        };
        Some(OrderBook {
            market: self.market,
            bids: copy_orders(&self.bids),
            asks: copy_orders(&self.asks),
            last_trade_id: self.last_trade_id,
            current_price: self.current_price,
            bid_depth,
            ask_depth,
        })
    }
}

/// In a consistent book each depth level holds exactly the open quantity
/// resting at its price on its side, and a price without a level has none.
pub proof fn lemma_depth_matches(b: OrderBook, p: usize)
    requires
        b.wf(),
    ensures
        b.bid_depth@.contains_key(p) ==> b.bid_depth@[p] == level_sum(b.bids@, p),
        !b.bid_depth@.contains_key(p) ==> level_sum(b.bids@, p) == 0,
        b.ask_depth@.contains_key(p) ==> b.ask_depth@[p] == level_sum(b.asks@, p),
        !b.ask_depth@.contains_key(p) ==> level_sum(b.asks@, p) == 0,
{
    lemma_level_nonneg(b.bids@, Kind::BUY, p);
    lemma_level_nonneg(b.asks@, Kind::SELL, p);
    assert(b.bid_depth@.contains_key(p) <==> level_sum(b.bids@, p) > 0);
    assert(b.ask_depth@.contains_key(p) <==> level_sum(b.asks@, p) > 0);
}

/// A side determines its depth map.
pub proof fn lemma_depth_unique(s: Seq<Order>, d1: Map<usize, usize>, d2: Map<usize, usize>)
    requires
        depth_ok(s, d1),
        depth_ok(s, d2),
    ensures
        d1 == d2,
{
    assert forall|p: usize| #[trigger] d1.contains_key(p) == d2.contains_key(p) by {
        assert(d1.contains_key(p) <==> level_sum(s, p) > 0);
        assert(d2.contains_key(p) <==> level_sum(s, p) > 0);
    }
    assert(d1 =~= d2);
}

/// A consistent book has valid sides.
pub proof fn lemma_wf_valid(b: OrderBook)
    requires
        b.wf(),
    ensures
        b.valid_sides(),
{
    assert forall|p: usize| #[trigger] level_sum(b.bids@, p) <= usize::MAX by {
        assert(b.bid_depth@.contains_key(p) <==> level_sum(b.bids@, p) > 0);
    }
    assert forall|p: usize| #[trigger] level_sum(b.asks@, p) <= usize::MAX by {
        assert(b.ask_depth@.contains_key(p) <==> level_sum(b.asks@, p) > 0);
    }
}

/// Whether `s` is a valid side `side`.
fn check_side(s: &Vec<Order>, side: Kind) -> (r: bool)
    ensures
        r == side_ok(s@, side),
{
    let mut i: usize = 0;
    while i < s.len()
        invariant
            0 <= i <= s.len(),
            side_ok(s@.subrange(0, i as int), side),
        decreases s.len() - i,
    {
        if !(s[i].side == side) || s[i].filled >= s[i].quantity {
            assert(!side_ok(s@, side));
            return false;
        }
        if i > 0 && better_exec(side, s[i - 1].price, s[i].price) {
            assert(!side_ok(s@, side));
            return false;
        }
        let ghost t = s@.subrange(0, i + 1);
        assert forall|a: int, b: int| 0 <= a < b < t.len() implies !better(side, #[trigger] t[a].price, #[trigger] t[b].price) by {
            if b == i && a < i - 1 {
                assert(!better(side, s@.subrange(0, i as int)[a].price, s@.subrange(0, i as int)[i - 1].price));
            } else if b < i {
                assert(!better(side, s@.subrange(0, i as int)[a].price, s@.subrange(0, i as int)[b].price));
            }
        }
        assert forall|a: int| 0 <= a < t.len() implies #[trigger] t[a].side == side && t[a].filled < t[a].quantity by {
            if a < i {
                assert(s@.subrange(0, i as int)[a] == t[a]);
            }
        }
        i = i + 1;
    }
    assert(s@.subrange(0, s.len() as int) =~= s@);
    true
}

proof fn lemma_side_prefix(s: Seq<Order>, side: Kind, i: int)
    requires
        side_ok(s, side),
        0 <= i <= s.len(),
    ensures
        side_ok(s.subrange(0, i), side),
{
    let t = s.subrange(0, i);
    assert forall|a: int| 0 <= a < t.len() implies #[trigger] t[a].side == side && t[a].filled < t[a].quantity by {
        assert(t[a] == s[a]);
    }
    assert forall|a: int, b: int| 0 <= a < b < t.len() implies !better(side, #[trigger] t[a].price, #[trigger] t[b].price) by {
        assert(t[a] == s[a] && t[b] == s[b]);
    }
}

proof fn lemma_prefix_le(s: Seq<Order>, side: Kind, i: int, p: usize)
    requires
        side_ok(s, side),
        0 <= i <= s.len(),
    ensures
        level_sum(s.subrange(0, i), p) <= level_sum(s, p),
    decreases s.len(),
{
    if i == s.len() {
        assert(s.subrange(0, i) =~= s);
    } else {
        lemma_side_drop_last(s, side);
        lemma_prefix_le(s.drop_last(), side, i, p);
        assert(s.drop_last().subrange(0, i) =~= s.subrange(0, i));
        assert(s[s.len() - 1].side == side);
    }
}

/// The depth map of the valid side `s`; `None` where a level would hold
/// more than `usize::MAX`.
fn depth_of(s: &Vec<Order>, side: Kind) -> (r: Option<HashMap<usize, usize>>)
    requires
        side_ok(s@, side),
    ensures
        r is None <==> exists|p: usize| level_sum(s@, p) > usize::MAX,
        r is Some ==> depth_ok(s@, r->0@),
{
    let mut d: HashMap<usize, usize> = HashMap::new();
    let mut i: usize = 0;
    assert forall|p: usize| #[trigger] level_sum(s@.subrange(0, 0), p) == 0 by {}
    while i < s.len()
        invariant
            0 <= i <= s.len(),
            side_ok(s@, side),
            depth_ok(s@.subrange(0, i as int), d@),
        decreases s.len() - i,
    {
        let ghost t0 = s@.subrange(0, i as int);
        let ghost t1 = s@.subrange(0, i + 1);
        assert(t1.drop_last() =~= t0);
        assert(s@[i as int].side == side);
        let p = s[i].price;
        let q = s[i].quantity - s[i].filled;
        let cur = depth_at(&d, p);
        proof {
            lemma_side_prefix(s@, side, i as int);
            lemma_level_nonneg(t0, side, p);
        }
        if cur > usize::MAX - q {
            proof {
                assert(level_sum(t1, p) == level_sum(t0, p) + q);
                lemma_prefix_le(s@, side, i + 1, p);
            }
            return None;
        }
        depth_put(&mut d, p, q);
        proof {
            assert forall|p2: usize| #[trigger] d@.contains_key(p2) <==> level_sum(t1, p2) > 0 by {
                lemma_side_prefix(s@, side, i as int);
                assert(level_sum(t1, p2) == level_sum(t0, p2) + share(s@[i as int], p2));
                lemma_level_nonneg(t0, side, p2);
            }
            assert forall|p2: usize| #[trigger] d@.contains_key(p2) implies d@[p2] == level_sum(t1, p2) by {
                assert(level_sum(t1, p2) == level_sum(t0, p2) + share(s@[i as int], p2));
            }
        }
        i = i + 1;
    }
    assert(s@.subrange(0, s.len() as int) =~= s@);
    assert forall|p: usize| level_sum(s@, p) <= usize::MAX by {
        assert(d@.contains_key(p) <==> level_sum(s@, p) > 0);
    }
    Some(d)
}

impl OrderBook {
    /// The fills that adding `o` would make, with the book left as it is.
    pub fn preview(&self, o: &Order) -> (r: Vec<Fills>)
        requires
            self.wf(),
            o.filled <= o.quantity,
            self.last_trade_id + o.quantity < usize::MAX,
        ensures
            r@ == self.match_of(*o, o.side).1,
    {
        let want = o.quantity - o.filled;
        match o.side {
            Kind::BUY => preview_side(&self.asks, o.side, o.price, &o.user_id, want, self.last_trade_id + 1),
            Kind::SELL => preview_side(&self.bids, o.side, o.price, &o.user_id, want, self.last_trade_id + 1),
        }
    }
}

} // verus!
