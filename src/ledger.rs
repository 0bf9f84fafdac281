use vstd::prelude::*;

use crate::types::{Asset, Balance, Fills, Kind, Market};

verus! {

/// The balance of one user in one asset.
#[derive(Debug, Clone)]
pub struct BalanceEntry {
    pub user_id: String,
    pub asset: Asset,
    pub balance: Balance,
}

/// Balances by user and asset. A pair that no entry names holds nothing.
pub type Ledger = Map<(Seq<char>, Asset), Balance>;

pub open spec fn zero() -> Balance {
    Balance { available: 0, locked: 0 }
}

/// The balance that entries `s` record for `u` in `a`: the last entry for
/// the pair wins, and a pair without one holds nothing.
pub open spec fn balance_of(s: Seq<BalanceEntry>, u: Seq<char>, a: Asset) -> Balance
    decreases s.len(),
{
    if s.len() == 0 {
        zero()
    } else if s.last().user_id@ == u && s.last().asset == a {
        s.last().balance
    } else {
        balance_of(s.drop_last(), u, a)
    }
}

/// The entries as a ledger.
pub open spec fn ledger(s: Seq<BalanceEntry>) -> Ledger {
    Map::new(|k: (Seq<char>, Asset)| true, |k: (Seq<char>, Asset)| balance_of(s, k.0, k.1))
}

/// Spends `x` of what `u` has locked in `a`; `None` where less is locked.
pub open spec fn take_locked(l: Ledger, u: Seq<char>, a: Asset, x: int) -> Option<Ledger> {
    let b = l[(u, a)];
    if 0 <= x <= b.locked {
        Some(l.insert((u, a), Balance { locked: (b.locked - x) as usize, ..b }))
    } else {
        None
    }
}

/// Adds `x` to what `u` has available in `a`; `None` where the sum would not fit.
pub open spec fn credit(l: Ledger, u: Seq<char>, a: Asset, x: int) -> Option<Ledger> {
    let b = l[(u, a)];
    if 0 <= x && b.available + x <= usize::MAX {
        Some(l.insert((u, a), Balance { available: (b.available + x) as usize, ..b }))
    } else {
        None
    }
}

/// Moves `x` of `u`'s asset `a` from available to locked; `None` where too
/// little is available or the locked sum would not fit.
pub open spec fn lock(l: Ledger, u: Seq<char>, a: Asset, x: int) -> Option<Ledger> {
    let b = l[(u, a)];
    if 0 <= x <= b.available && b.locked + x <= usize::MAX {
        Some(l.insert((u, a), Balance { available: (b.available - x) as usize, locked: (b.locked + x) as usize }))
    } else {
        None
    }
}

/// Moves `x` of `u`'s asset `a` from locked back to available.
pub open spec fn unlock(l: Ledger, u: Seq<char>, a: Asset, x: int) -> Option<Ledger> {
    let b = l[(u, a)];
    if 0 <= x <= b.locked && b.available + x <= usize::MAX {
        Some(l.insert((u, a), Balance { available: (b.available + x) as usize, locked: (b.locked - x) as usize }))
    } else {
        None
    }
}

/// The funds that an order reserves: the base quantity for a sale, price
/// times quantity of the quote asset for a purchase.
pub open spec fn reserve(side: Kind, price: int, quantity: int) -> int {
    match side {
        Kind::SELL => quantity,
        Kind::BUY => price * quantity,
    }
}

/// The asset that an order on `side` reserves.
pub open spec fn reserve_asset(m: Market, side: Kind) -> Asset {
    match side {
        Kind::SELL => m.base_spec(),
        Kind::BUY => m.quote_spec(),
    }
}

/// Settles the fill `f` of a taker on `side` with limit `limit` in market
/// `m`. The seller's locked base goes to the buyer's available base; the
/// buyer's locked quote pays the fill price to the seller's available quote.
/// A buying taker locked its own limit price, so it gets back the
/// difference to the fill price. `None` where a step cannot be made.
pub open spec fn settle(l: Ledger, f: Fills, side: Kind, limit: int, m: Market) -> Option<Ledger> {
    let maker = f.maker_user_id@;
    let taker = f.taker_user_id@;
    let q = f.quantity as int;
    let p = f.price as int;
    let base = m.base_spec();
    let quote = m.quote_spec();
    match side {
        Kind::BUY => match take_locked(l, maker, base, q) {
            None => None,
            Some(l1) => match credit(l1, maker, quote, p * q) {
                None => None,
                Some(l2) => match take_locked(l2, taker, quote, limit * q) {
                    None => None,
                    Some(l3) => match credit(l3, taker, quote, (limit - p) * q) {
                        None => None,
                        Some(l4) => credit(l4, taker, base, q),
                    },
                },
            },
        },
        Kind::SELL => match take_locked(l, maker, quote, p * q) {
            None => None,
            Some(l1) => match credit(l1, maker, base, q) {
                None => None,
                Some(l2) => match take_locked(l2, taker, base, q) {
                    None => None,
                    Some(l3) => credit(l3, taker, quote, p * q),
                },
            },
        },
    }
}

/// Settles the fills `fs` one after another.
pub open spec fn settle_all(l: Ledger, fs: Seq<Fills>, side: Kind, limit: int, m: Market) -> Option<Ledger>
    decreases fs.len(),
{
    if fs.len() == 0 {
        Some(l)
    } else {
        match settle_all(l, fs.drop_last(), side, limit, m) {
            None => None,
            Some(l1) => settle(l1, fs.last(), side, limit, m),
        }
    }
}

proof fn lemma_update_last(s: Seq<BalanceEntry>, i: int, e: BalanceEntry, u: Seq<char>, a: Asset)
    requires
        0 <= i < s.len(),
        e.user_id@ == s[i].user_id@,
        e.asset == s[i].asset,
        forall|j: int| i < j < s.len() ==> !((#[trigger] s[j]).user_id@ == s[i].user_id@ && s[j].asset == s[i].asset),
    ensures
        balance_of(s.update(i, e), u, a) == if u == e.user_id@ && a == e.asset {
            e.balance
        } else {
            balance_of(s, u, a)
        },
    decreases s.len(),
{
    let t = s.update(i, e);
    if i == s.len() - 1 {
        assert(t.drop_last() =~= s.drop_last());
    } else {
        assert(t.drop_last() =~= s.drop_last().update(i, e));
        lemma_update_last(s.drop_last(), i, e, u, a);
        assert(s[s.len() - 1] == s.drop_last().push(s.last())[s.len() - 1]);
    }
}

/// The position of the last entry for `u` in `a`.
fn find_entry(s: &Vec<BalanceEntry>, u: &String, a: Asset) -> (r: Option<usize>)
    ensures
        r is None ==> balance_of(s@, u@, a) == zero() && forall|j: int| 0 <= j < s@.len() ==> !((#[trigger] s@[j]).user_id@ == u@ && s@[j].asset == a),
        r is Some ==> r->0 < s@.len() && s@[r->0 as int].user_id@ == u@ && s@[r->0 as int].asset == a
            && balance_of(s@, u@, a) == s@[r->0 as int].balance
            && forall|j: int| r->0 < j < s@.len() ==> !((#[trigger] s@[j]).user_id@ == u@ && s@[j].asset == a),
{
    let mut i: usize = s.len();
    assert(s@.subrange(0, i as int) =~= s@);
    while i > 0
        invariant
            0 <= i <= s.len(),
            forall|j: int| i <= j < s@.len() ==> !((#[trigger] s@[j]).user_id@ == u@ && s@[j].asset == a),
            balance_of(s@, u@, a) == balance_of(s@.subrange(0, i as int), u@, a),
        decreases i,
    {
        let ghost t = s@.subrange(0, i as int);
        assert(t.drop_last() =~= s@.subrange(0, i - 1));
        if s[i - 1].user_id == *u && s[i - 1].asset == a {
            return Some(i - 1);
        }
        i = i - 1;
    }
    assert(s@.subrange(0, 0) =~= Seq::<BalanceEntry>::empty());
    None
}

/// The balance of `u` in `a`.
pub fn get_balance(s: &Vec<BalanceEntry>, u: &String, a: Asset) -> (r: Balance)
    ensures
        r == ledger(s@)[(u@, a)],
{
    match find_entry(s, u, a) {
        Some(i) => s[i].balance,
        None => Balance { available: 0, locked: 0 },
    }
}

/// Sets the balance of `u` in `a` to `b`.
pub fn set_balance(s: &mut Vec<BalanceEntry>, u: &String, a: Asset, b: Balance)
    ensures
        ledger(final(s)@) == ledger(old(s)@).insert((u@, a), b),
{
    match find_entry(s, u, a) {
        Some(i) => {
            let e = BalanceEntry { user_id: u.clone(), asset: a, balance: b };
            let ghost s0 = s@;
            s.set(i, e);
            assert forall|k: (Seq<char>, Asset)| #![auto] balance_of(s@, k.0, k.1) == ledger(s0).insert((u@, a), b)[k] by {
                lemma_update_last(s0, i as int, e, k.0, k.1);
            }
        },
        None => {
            let ghost s0 = s@;
            s.push(BalanceEntry { user_id: u.clone(), asset: a, balance: b });
            assert forall|k: (Seq<char>, Asset)| #![auto] balance_of(s@, k.0, k.1) == ledger(s0).insert((u@, a), b)[k] by {
                assert(s@.drop_last() =~= s0);
            }
        },
    }
    assert(ledger(s@) =~= ledger(old(s)@).insert((u@, a), b));
}


/// Spends `x` of what `u` has locked in `a`; false, and no change, where less is locked.
pub fn take_locked_exec(s: &mut Vec<BalanceEntry>, u: &String, a: Asset, x: usize) -> (ok: bool)
    ensures
        ok == take_locked(ledger(old(s)@), u@, a, x as int) is Some,
        ok ==> Some(ledger(final(s)@)) == take_locked(ledger(old(s)@), u@, a, x as int),
        !ok ==> *final(s) == *old(s),
{
    let b = get_balance(s, u, a);
    if x > b.locked {
        return false;
    }
    set_balance(s, u, a, Balance { available: b.available, locked: b.locked - x });
    true
}

/// Adds `x` to what `u` has available in `a`; false, and no change, where the sum would not fit.
pub fn credit_exec(s: &mut Vec<BalanceEntry>, u: &String, a: Asset, x: usize) -> (ok: bool)
    ensures
        ok == credit(ledger(old(s)@), u@, a, x as int) is Some,
        ok ==> Some(ledger(final(s)@)) == credit(ledger(old(s)@), u@, a, x as int),
        !ok ==> *final(s) == *old(s),
{
    let b = get_balance(s, u, a);
    if x > usize::MAX - b.available {
        return false;
    }
    set_balance(s, u, a, Balance { available: b.available + x, locked: b.locked });
    true
}

/// Moves `x` of `u`'s asset `a` from available to locked; false, and no
/// change, where that cannot be done.
pub fn lock_exec(s: &mut Vec<BalanceEntry>, u: &String, a: Asset, x: usize) -> (ok: bool)
    ensures
        ok == lock(ledger(old(s)@), u@, a, x as int) is Some,
        ok ==> Some(ledger(final(s)@)) == lock(ledger(old(s)@), u@, a, x as int),
        !ok ==> *final(s) == *old(s),
{
    let b = get_balance(s, u, a);
    if x > b.available || x > usize::MAX - b.locked {
        return false;
    }
    set_balance(s, u, a, Balance { available: b.available - x, locked: b.locked + x });
    true
}

/// Moves `x` of `u`'s asset `a` from locked back to available; false, and
/// no change, where that cannot be done.
pub fn unlock_exec(s: &mut Vec<BalanceEntry>, u: &String, a: Asset, x: usize) -> (ok: bool)
    ensures
        ok == unlock(ledger(old(s)@), u@, a, x as int) is Some,
        ok ==> Some(ledger(final(s)@)) == unlock(ledger(old(s)@), u@, a, x as int),
        !ok ==> *final(s) == *old(s),
{
    let b = get_balance(s, u, a);
    if x > b.locked || x > usize::MAX - b.available {
        return false;
    }
    set_balance(s, u, a, Balance { available: b.available + x, locked: b.locked - x });
    true
}

/// Settles the fill `f` (see `settle`). On false the entries are left in
/// some state and are to be thrown away.
pub fn settle_fill(s: &mut Vec<BalanceEntry>, f: &Fills, side: Kind, limit: usize, m: Market) -> (ok: bool)
    ensures
        ok == settle(ledger(old(s)@), *f, side, limit as int, m) is Some,
        ok ==> Some(ledger(final(s)@)) == settle(ledger(old(s)@), *f, side, limit as int, m),
{
    let base = m.base();
    let quote = m.quote();
    let q = f.quantity;
    let p = f.price;
    let ghost l0 = ledger(s@);
    let pq = match p.checked_mul(q) {
        Some(v) => v,
        None => {
            return false;
        },
    };
    match side {
        Kind::BUY => {
            if !take_locked_exec(s, &f.maker_user_id, base, q) {
                return false;
            }
            if !credit_exec(s, &f.maker_user_id, quote, pq) {
                return false;
            }
            let lq = match limit.checked_mul(q) {
                Some(v) => v,
                None => {
                    return false;
                },
            };
            if !take_locked_exec(s, &f.taker_user_id, quote, lq) {
                return false;
            }
            assert((limit - p) * q == limit * q - p * q) by (nonlinear_arith);
            if pq > lq {
                return false;
            }
            if !credit_exec(s, &f.taker_user_id, quote, lq - pq) {
                return false;
            }
            credit_exec(s, &f.taker_user_id, base, q)
        },
        Kind::SELL => {
            if !take_locked_exec(s, &f.maker_user_id, quote, pq) {
                return false;
            }
            if !credit_exec(s, &f.maker_user_id, base, q) {
                return false;
            }
            if !take_locked_exec(s, &f.taker_user_id, base, q) {
                return false;
            }
            credit_exec(s, &f.taker_user_id, quote, pq)
        },
    }
}


/// What users `x` and `y` hold together of asset `a`, each counted once.
pub open spec fn pair_total(l: Ledger, x: Seq<char>, y: Seq<char>, a: Asset) -> int {
    if x == y {
        l[(x, a)].total()
    } else {
        l[(x, a)].total() + l[(y, a)].total()
    }
}

/// Settling a fill conserves funds: for the base and the quote asset, what
/// maker and taker hold together is unchanged; between two distinct users
/// exactly the traded amounts change hands (the base quantity one way, price
/// times quantity of the quote the other); and no other balance changes.
pub proof fn lemma_settle_conserves(l: Ledger, f: Fills, side: Kind, limit: int, m: Market)
    requires
        settle(l, f, side, limit, m) is Some,
    ensures
        ({
            let l2 = settle(l, f, side, limit, m)->0;
            let maker = f.maker_user_id@;
            let taker = f.taker_user_id@;
            let base = m.base_spec();
            let quote = m.quote_spec();
            let q = f.quantity as int;
            let pq = f.price * f.quantity;
            &&& pair_total(l2, maker, taker, base) == pair_total(l, maker, taker, base)
            &&& pair_total(l2, maker, taker, quote) == pair_total(l, maker, taker, quote)
            &&& forall|k: (Seq<char>, Asset)| (k.0 != maker && k.0 != taker) || (k.1 != base && k.1 != quote) ==> #[trigger] l2[k] == l[k]
            &&& maker != taker && side == Kind::BUY ==> {
                &&& l2[(maker, base)].total() == l[(maker, base)].total() - q
                &&& l2[(taker, base)].total() == l[(taker, base)].total() + q
                &&& l2[(maker, quote)].total() == l[(maker, quote)].total() + pq
                &&& l2[(taker, quote)].total() == l[(taker, quote)].total() - pq
            }
            &&& maker != taker && side == Kind::SELL ==> {
                &&& l2[(maker, base)].total() == l[(maker, base)].total() + q
                &&& l2[(taker, base)].total() == l[(taker, base)].total() - q
                &&& l2[(maker, quote)].total() == l[(maker, quote)].total() - pq
                &&& l2[(taker, quote)].total() == l[(taker, quote)].total() + pq
            }
        }),
{
    let q = f.quantity as int;
    let p = f.price as int;
    assert((limit - p) * q == limit * q - p * q) by (nonlinear_arith);
}

} // verus!
