use vstd::prelude::*;

verus! {

/// Whether a request was taken on or turned away.
#[derive(PartialEq, Eq, Structural, Debug, Clone, Copy)]
pub enum Status {
    Accepted,
    Rejected,
}

/// Side of an order: buying or selling the base asset.
#[derive(PartialEq, Eq, Structural, Debug, Clone, Copy)]
pub enum Kind {
    BUY,
    SELL,
}

/// The assets that the markets trade.
#[derive(PartialEq, Eq, Structural, Debug, Clone, Copy)]
pub enum Asset {
    TATA,
    GOOGLE,
    NVIDIA,
    TESLA,
    INR,
    DOLLAR,
}

impl Asset {
    pub open spec fn name_spec(self) -> Seq<char> {
        match self {
            Asset::TATA => "TATA"@,
            Asset::GOOGLE => "GOOGLE"@,
            Asset::NVIDIA => "NVIDIA"@,
            Asset::TESLA => "TESLA"@,
            Asset::INR => "INR"@,
            Asset::DOLLAR => "DOLLAR"@,
        }
    }

    /// The asset's symbol.
    pub fn name(&self) -> (r: &'static str)
        ensures
            r@ == self.name_spec(),
    {
        match self {
            Asset::TATA => "TATA",
            Asset::GOOGLE => "GOOGLE",
            Asset::NVIDIA => "NVIDIA",
            Asset::TESLA => "TESLA",
            Asset::INR => "INR",
            Asset::DOLLAR => "DOLLAR",
        }
    }
}

/// A trading pair: a base asset priced in a quote asset.
#[derive(PartialEq, Eq, Structural, Debug, Clone, Copy)]
pub enum Market {
    TataInr,
    GoogleDollar,
    NvidiaInr,
    TeslaDollar,
}

impl Market {
    pub open spec fn base_spec(self) -> Asset {
        match self {
            Market::TataInr => Asset::TATA,
            Market::GoogleDollar => Asset::GOOGLE,
            Market::NvidiaInr => Asset::NVIDIA,
            Market::TeslaDollar => Asset::TESLA,
        }
    }

    pub open spec fn quote_spec(self) -> Asset {
        match self {
            Market::TataInr | Market::NvidiaInr => Asset::INR,
            Market::GoogleDollar | Market::TeslaDollar => Asset::DOLLAR,
        }
    }

    /// The asset that is bought and sold.
    pub fn base(&self) -> (r: Asset)
        ensures
            r == self.base_spec(),
    {
        match self {
            Market::TataInr => Asset::TATA,
            Market::GoogleDollar => Asset::GOOGLE,
            Market::NvidiaInr => Asset::NVIDIA,
            Market::TeslaDollar => Asset::TESLA,
        }
    }

    /// The asset that prices are given in.
    pub fn quote(&self) -> (r: Asset)
        ensures
            r == self.quote_spec(),
    {
        match self {
            Market::TataInr | Market::NvidiaInr => Asset::INR,
            Market::GoogleDollar | Market::TeslaDollar => Asset::DOLLAR,
        }
    }

    /// The symbols of the base and the quote asset.
    pub fn assets(&self) -> (r: (&'static str, &'static str))
        ensures
            r.0@ == self.base_spec().name_spec(),
            r.1@ == self.quote_spec().name_spec(),
    {
        (self.base().name(), self.quote().name())
    }
}

/// How much of an incoming order was matched on arrival.
#[derive(PartialEq, Eq, Structural, Debug, Clone, Copy)]
pub enum FillStatus {
    Unfilled,
    PartiallyFilled,
    Filled,
}

/// A limit order. `filled` counts the units already traded.
#[derive(Debug, Clone)]
pub struct Order {
    pub order_id: String,
    pub price: usize,
    pub quantity: usize,
    pub filled: usize,
    pub side: Kind,
    pub user_id: String,
}

impl Order {
    /// The units still open.
    pub open spec fn remaining(self) -> int {
        self.quantity - self.filled
    }

    /// A copy with the same fields.
    pub fn duplicate(&self) -> (r: Order)
        ensures
            r == *self,
    {
        Order {
            order_id: self.order_id.clone(),
            price: self.price,
            quantity: self.quantity,
            filled: self.filled,
            side: self.side,
            user_id: self.user_id.clone(),
        }
    }
}

/// A resting buy order.
#[derive(Debug, Clone)]
pub struct Bid {
    pub order: Order,
    pub side: Kind,
}

/// A resting sell order.
#[derive(Debug, Clone)]
pub struct Ask {
    pub order: Order,
    pub side: Kind,
}

/// One trade between an incoming order (the taker) and a resting one (the maker).
#[derive(Debug, Clone)]
pub struct Fills {
    pub price: usize,
    pub quantity: usize,
    pub trade_id: usize,
    pub maker_order_id: String,
    pub maker_user_id: String,
    pub taker_user_id: String,
}

/// An order as a client describes it, before it has an id.
#[derive(Debug, Clone)]
pub struct OrderInputSchema {
    pub base_asset: String,
    pub quote_asset: String,
    pub price: usize,
    pub quantity: usize,
    pub side: Kind,
}

/// The decimal text of a number.
pub uninterp spec fn decimal(n: int) -> Seq<char>;

/// Relies on `usize::to_string` (std): the decimal digits of `n`, a
/// function of `n` alone.
#[verifier::external_body]
pub(crate) fn number_text(n: usize) -> (r: String)
    ensures
        r@ == decimal(n as int),
{
    n.to_string()
}

/// A user's holding of one asset: free to use, or reserved by open orders.
#[derive(PartialEq, Eq, Structural, Debug, Clone, Copy)]
pub struct Balance {
    pub available: usize,
    pub locked: usize,
}

impl Balance {
    pub open spec fn total(self) -> int {
        self.available + self.locked
    }
}

} // verus!
