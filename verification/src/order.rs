use vstd::prelude::*;
use crate::asset::{resolve, SymbolTable};
use crate::errors::Error;
use crate::numeric::{canonical_text, to_canonical_string};
use crate::text::same_text;

verus! {

/// A limit order on the wire: its time-in-force tag.
#[derive(Clone, Debug)]
pub struct Limit {
    pub tif: String,
}

/// A trigger order on the wire, the trigger price as canonical decimal text.
#[derive(Clone, Debug)]
pub struct Trigger {
    pub trigger_px: String,
    pub is_market: bool,
    pub tpsl: String,
}

/// The order type on the wire.
#[derive(Clone, Debug)]
pub enum Order {
    Limit(Limit),
    Trigger(Trigger),
}

/// An order on the wire: the asset by its index, price and size as
/// canonical decimal text.
#[derive(Clone, Debug)]
pub struct OrderRequest {
    pub asset: u32,
    pub is_buy: bool,
    pub reduce_only: bool,
    pub limit_px: String,
    pub sz: String,
    pub order_type: Order,
}

/// A limit order as the client describes it.
pub struct ClientLimit {
    pub tif: String,
}

/// A trigger order as the client describes it; the trigger price in 1e-8 units.
pub struct ClientTrigger {
    pub trigger_px: u64,
    pub is_market: bool,
    pub tpsl: String,
}

/// The client's description of an order type.
pub enum ClientOrder {
    Limit(ClientLimit),
    Trigger(ClientTrigger),
}

/// An order as the client states it: the asset by its symbol, price and
/// size in 1e-8 units.
pub struct ClientOrderRequest {
    pub asset: String,
    pub is_buy: bool,
    pub reduce_only: bool,
    pub limit_px: u64,
    pub sz: u64,
    pub order_type: ClientOrder,
}

/// The row of the order-type table for a limit order, by its time-in-force.
pub open spec fn limit_code(tif: Seq<char>) -> Option<(u8, u64)> {
    if tif == "Gtc"@ {
        Some((2u8, 0u64))
    } else if tif == "Alo"@ {
        Some((1u8, 0u64))
    } else if tif == "Ioc"@ {
        Some((3u8, 0u64))
    } else {
        None
    }
}

/// The row of the order-type table for a trigger order.
pub open spec fn trigger_code(is_market: bool, tpsl: Seq<char>, trigger_px: u64) -> Option<
    (u8, u64),
> {
    if tpsl == "tp"@ {
        Some((if is_market { 4u8 } else { 5u8 }, trigger_px))
    } else if tpsl == "sl"@ {
        Some((if is_market { 6u8 } else { 7u8 }, trigger_px))
    } else {
        None
    }
}

impl ClientOrder {
    /// The discriminant and scaled trigger field of the order type, where
    /// the order-type table has a row for it.
    pub open spec fn type_code(self) -> Option<(u8, u64)> {
        match self {
            ClientOrder::Limit(limit) => limit_code(limit.tif@),
            ClientOrder::Trigger(trigger) => trigger_code(
                trigger.is_market,
                trigger.tpsl@,
                trigger.trigger_px,
            ),
        }
    }

    /// Encodes the order type for hashing, or says that the table has no
    /// row for it.
    pub fn get_type(&self) -> (r: Result<(u8, u64), Error>)
        ensures
            match r {
                Ok(code) => self.type_code() == Some(code),
                Err(e) => e == Error::OrderTypeNotFound && self.type_code().is_none(),
            },
    {
        match self {
            ClientOrder::Limit(limit) => {
                let tif = limit.tif.as_str();
                if same_text(tif, "Gtc") {
                    Ok((2, 0))
                } else if same_text(tif, "Alo") {
                    Ok((1, 0))
                } else if same_text(tif, "Ioc") {
                    Ok((3, 0))
                } else {
                    Err(Error::OrderTypeNotFound)
                }
            },
            ClientOrder::Trigger(trigger) => {
                let tpsl = trigger.tpsl.as_str();
                if same_text(tpsl, "tp") {
                    Ok((if trigger.is_market { 4 } else { 5 }, trigger.trigger_px))
                } else if same_text(tpsl, "sl") {
                    Ok((if trigger.is_market { 6 } else { 7 }, trigger.trigger_px))
                } else {
                    Err(Error::OrderTypeNotFound)
                }
            },
        }
    }

    /// The order type in its wire form: the tags as they are, the trigger
    /// price as canonical text.
    pub fn to_wire(&self) -> (r: Order)
        ensures
            r.is_wire_form_of(*self),
    {
        match self {
            ClientOrder::Limit(limit) => Order::Limit(Limit { tif: limit.tif.clone() }),
            ClientOrder::Trigger(trigger) => Order::Trigger(
                Trigger {
                    trigger_px: to_canonical_string(trigger.trigger_px),
                    is_market: trigger.is_market,
                    tpsl: trigger.tpsl.clone(),
                },
            ),
        }
    }
}

impl Order {
    /// This wire order type is the one that stands for `client`.
    pub open spec fn is_wire_form_of(self, client: ClientOrder) -> bool {
        match (self, client) {
            (Order::Limit(wire), ClientOrder::Limit(limit)) => wire.tif@ == limit.tif@,
            (Order::Trigger(wire), ClientOrder::Trigger(trigger)) => {
                &&& wire.trigger_px@ == canonical_text(trigger.trigger_px as nat)
                &&& wire.is_market == trigger.is_market
                &&& wire.tpsl@ == trigger.tpsl@
            },
            _ => false,
        }
    }
}

impl OrderRequest {
    /// This wire order is the one that stands for `client` under `table`.
    pub open spec fn is_wire_form_of(self, client: ClientOrderRequest, table: Map<Seq<char>, u32>) -> bool {
        &&& table.contains_key(client.asset@)
        &&& self.asset == table[client.asset@]
        &&& self.is_buy == client.is_buy
        &&& self.reduce_only == client.reduce_only
        &&& self.limit_px@ == canonical_text(client.limit_px as nat)
        &&& self.sz@ == canonical_text(client.sz as nat)
        &&& self.order_type.is_wire_form_of(client.order_type)
    }
}

impl ClientOrderRequest {
    /// The hash tuple that this order has under `table`, where it has one:
    /// asset index, side, scaled price, scaled size, reduce-only flag,
    /// discriminant, scaled trigger field.
    pub open spec fn hash_tuple(self, table: Map<Seq<char>, u32>) -> Option<
        (u32, bool, u64, u64, bool, u8, u64),
    > {
        match self.order_type.type_code() {
            Some(code) if table.contains_key(self.asset@) => Some(
                (
                    table[self.asset@],
                    self.is_buy,
                    self.limit_px,
                    self.sz,
                    self.reduce_only,
                    code.0,
                    code.1,
                ),
            ),
            _ => None,
        }
    }

    /// The wire form of this order, which is left as it is.
    pub fn to_wire(&self, coin_to_asset: &SymbolTable) -> (r: Result<OrderRequest, Error>)
        ensures
            match r {
                Ok(wire) => wire.is_wire_form_of(*self, coin_to_asset@),
                Err(e) => e == Error::AssetNotFound && !coin_to_asset@.contains_key(self.asset@),
            },
    {
        let order_type = self.order_type.to_wire();
        match resolve(self.asset.as_str(), coin_to_asset) {
            Ok(asset) => Ok(
                OrderRequest {
                    asset,
                    is_buy: self.is_buy,
                    reduce_only: self.reduce_only,
                    limit_px: to_canonical_string(self.limit_px),
                    sz: to_canonical_string(self.sz),
                    order_type,
                },
            ),
            Err(e) => Err(e),
        }
    }

    /// Turns the order into its wire form: the symbol resolved, price, size
    /// and trigger price as canonical text.
    pub fn convert(self, coin_to_asset: &SymbolTable) -> (r: Result<OrderRequest, Error>)
        ensures
            match r {
                Ok(wire) => wire.is_wire_form_of(self, coin_to_asset@),
                Err(e) => e == Error::AssetNotFound && !coin_to_asset@.contains_key(self.asset@),
            },
    {
        let order_type = match self.order_type {
            ClientOrder::Limit(limit) => Order::Limit(Limit { tif: limit.tif }),
            ClientOrder::Trigger(trigger) => Order::Trigger(
                Trigger {
                    trigger_px: to_canonical_string(trigger.trigger_px),
                    is_market: trigger.is_market,
                    tpsl: trigger.tpsl,
                },
            ),
        };
        match resolve(self.asset.as_str(), coin_to_asset) {
            Ok(asset) => Ok(
                OrderRequest {
                    asset,
                    is_buy: self.is_buy,
                    reduce_only: self.reduce_only,
                    limit_px: to_canonical_string(self.limit_px),
                    sz: to_canonical_string(self.sz),
                    order_type,
                },
            ),
            Err(e) => Err(e),
        }
    }

    /// The ordered tuple that is hashed and signed. An order type without a
    /// row in the table is reported before an unknown symbol.
    pub fn create_hashable_tuple(&self, coin_to_asset: &SymbolTable) -> (r: Result<
        (u32, bool, u64, u64, bool, u8, u64),
        Error,
    >)
        ensures
            match r {
                Ok(tuple) => self.hash_tuple(coin_to_asset@) == Some(tuple),
                Err(e) => self.hash_tuple(coin_to_asset@).is_none() && e == (
                if self.order_type.type_code().is_none() {
                    Error::OrderTypeNotFound
                } else {
                    Error::AssetNotFound
                }),
            },
    {
        let code = match self.order_type.get_type() {
            Ok(code) => code,
            Err(e) => {
                return Err(e);
            },
        };
        match resolve(self.asset.as_str(), coin_to_asset) {
            Ok(asset) => Ok(
                (asset, self.is_buy, self.limit_px, self.sz, self.reduce_only, code.0, code.1),
            ),
            Err(e) => Err(e),
        }
    }
}

/// The order-type table, row by row: a limit order has a row exactly for the
/// tags `Alo`, `Gtc` and `Ioc`, a trigger order exactly for `tp` and `sl`;
/// the discriminant is the row's number and never any other.
pub proof fn lemma_order_type_table(order: ClientOrder)
    ensures
        match order {
            ClientOrder::Limit(limit) => {
                &&& limit.tif@ == seq!['A', 'l', 'o'] ==> order.type_code() == Some((1u8, 0u64))
                &&& limit.tif@ == seq!['G', 't', 'c'] ==> order.type_code() == Some((2u8, 0u64))
                &&& limit.tif@ == seq!['I', 'o', 'c'] ==> order.type_code() == Some((3u8, 0u64))
                &&& limit.tif@ != seq!['A', 'l', 'o'] && limit.tif@ != seq!['G', 't', 'c']
                    && limit.tif@ != seq!['I', 'o', 'c'] ==> order.type_code().is_none()
            },
            ClientOrder::Trigger(trigger) => {
                &&& trigger.tpsl@ == seq!['t', 'p'] ==> order.type_code() == Some(
                    (if trigger.is_market { 4u8 } else { 5u8 }, trigger.trigger_px),
                )
                &&& trigger.tpsl@ == seq!['s', 'l'] ==> order.type_code() == Some(
                    (if trigger.is_market { 6u8 } else { 7u8 }, trigger.trigger_px),
                )
                &&& trigger.tpsl@ != seq!['t', 'p'] && trigger.tpsl@ != seq!['s', 'l']
                    ==> order.type_code().is_none()
            },
        },
{
    reveal_strlit("Alo");
    reveal_strlit("Gtc");
    reveal_strlit("Ioc");
    reveal_strlit("tp");
    reveal_strlit("sl");
    assert("Alo"@ =~= seq!['A', 'l', 'o']);
    assert("Gtc"@ =~= seq!['G', 't', 'c']);
    assert("Ioc"@ =~= seq!['I', 'o', 'c']);
    assert("tp"@ =~= seq!['t', 'p']);
    assert("sl"@ =~= seq!['s', 'l']);
    assert(seq!['A', 'l', 'o'][0] != seq!['G', 't', 'c'][0]);
    assert(seq!['I', 'o', 'c'][0] != seq!['G', 't', 'c'][0]);
    assert(seq!['I', 'o', 'c'][0] != seq!['A', 'l', 'o'][0]);
    assert(seq!['t', 'p'][0] != seq!['s', 'l'][0]);
}

} // verus!
