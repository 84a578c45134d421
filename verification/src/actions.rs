use vstd::prelude::*;
use crate::asset::SymbolTable;
use crate::cancel::{
    CancelByCloidRequest, CancelRequest, ClientCancelByCloidRequest, ClientCancelRequest,
};
use crate::errors::Error;
use crate::order::{ClientOrderRequest, OrderRequest};

verus! {

/// `serde_json::Value`, carried through as the payload of a transfer; the
/// library never looks inside one.
#[verifier::external_type_specification]
#[verifier::external_body]
pub struct ExJsonValue(serde_json::Value);

/// `ethers::types::H160`, a 20-byte address, carried through unread.
#[verifier::external_type_specification]
#[verifier::external_body]
pub struct ExH160(ethers::types::H160);

/// `ethers::types::H256`, a 32-byte hash, carried through unread.
#[verifier::external_type_specification]
#[verifier::external_body]
pub struct ExH256(ethers::types::H256);

/// A transfer: the chain's name and the payload as the caller gave it.
#[derive(Debug)]
pub struct UsdcTransfer {
    pub chain: String,
    pub payload: serde_json::Value,
}

/// Sets the leverage of an asset.
#[derive(Debug, Clone)]
pub struct UpdateLeverage {
    pub asset: u32,
    pub is_cross: bool,
    pub leverage: u32,
}

/// Adds to or takes from the isolated margin of a position.
#[derive(Debug, Clone)]
pub struct UpdateIsolatedMargin {
    pub asset: u32,
    pub is_buy: bool,
    pub ntli: i64,
}

/// Several orders under one grouping tag, in the caller's order.
#[derive(Debug, Clone)]
pub struct BulkOrder {
    pub grouping: String,
    pub orders: Vec<OrderRequest>,
}

/// Several cancellations by order id.
#[derive(Debug, Clone)]
pub struct BulkCancel {
    pub cancels: Vec<CancelRequest>,
}

/// Several cancellations by client order identifier.
#[derive(Debug, Clone)]
pub struct BulkCancelByCloid {
    pub cancels: Vec<CancelByCloidRequest>,
}

/// The key binding of an agent: where it comes from and its connection id.
#[derive(Debug)]
pub struct Agent {
    pub source: String,
    pub connection_id: ethers::types::H256,
}

/// Binds a session key to the account.
#[derive(Debug)]
pub struct AgentConnect {
    pub chain: String,
    pub agent: Agent,
    pub agent_address: ethers::types::H160,
}

/// Every order names an asset of the table.
pub open spec fn orders_resolve(orders: Seq<ClientOrderRequest>, table: Map<Seq<char>, u32>) -> bool {
    forall|i: int| 0 <= i < orders.len() ==> table.contains_key((#[trigger] orders[i]).asset@)
}

/// Every cancellation names an asset of the table.
pub open spec fn cancels_resolve(cancels: Seq<ClientCancelRequest>, table: Map<Seq<char>, u32>) -> bool {
    forall|i: int| 0 <= i < cancels.len() ==> table.contains_key((#[trigger] cancels[i]).asset@)
}

/// The first cancellation that cannot be converted, if there is one.
pub open spec fn first_failure(
    cancels: Seq<ClientCancelByCloidRequest>,
    table: Map<Seq<char>, u32>,
) -> Option<Error>
    decreases cancels.len(),
{
    if cancels.len() == 0 {
        None
    } else {
        match cancels[0].failure(table) {
            Some(e) => Some(e),
            None => first_failure(cancels.drop_first(), table),
        }
    }
}

impl BulkOrder {
    /// The wire form of a group of orders: each order in its wire form, in
    /// the order given, and the grouping tag as it is. Fails where one of
    /// them names an unknown asset.
    pub fn build(grouping: String, orders: &Vec<ClientOrderRequest>, coin_to_asset: &SymbolTable) -> (r:
        Result<BulkOrder, Error>)
        ensures
            match r {
                Ok(bulk) => {
                    &&& orders_resolve(orders@, coin_to_asset@)
                    &&& bulk.grouping@ == grouping@
                    &&& bulk.orders@.len() == orders@.len()
                    &&& forall|i: int|
                        0 <= i < orders@.len() ==> (#[trigger] bulk.orders@[i]).is_wire_form_of(
                            orders@[i],
                            coin_to_asset@,
                        )
                },
                Err(e) => e == Error::AssetNotFound && !orders_resolve(orders@, coin_to_asset@),
            },
    {
        let mut wire: Vec<OrderRequest> = Vec::new();
        let mut i: usize = 0;
        while i < orders.len()
            invariant
                i <= orders@.len(),
                wire@.len() == i,
                forall|j: int| 0 <= j < i ==> coin_to_asset@.contains_key((#[trigger] orders@[j]).asset@),
                forall|j: int|
                    0 <= j < i ==> (#[trigger] wire@[j]).is_wire_form_of(orders@[j], coin_to_asset@),
            decreases orders@.len() - i,
        {
            match orders[i].to_wire(coin_to_asset) {
                Ok(order) => {
                    wire.push(order);
                },
                Err(e) => {
                    return Err(e);
                },
            }
            i += 1;
        }
        Ok(BulkOrder { grouping, orders: wire })
    }
}

impl BulkCancel {
    /// The wire form of several cancellations by order id, in the order
    /// given. Fails where one of them names an unknown asset.
    pub fn build(cancels: &Vec<ClientCancelRequest>, coin_to_asset: &SymbolTable) -> (r: Result<
        BulkCancel,
        Error,
    >)
        ensures
            match r {
                Ok(bulk) => {
                    &&& cancels_resolve(cancels@, coin_to_asset@)
                    &&& bulk.cancels@.len() == cancels@.len()
                    &&& forall|i: int|
                        0 <= i < cancels@.len() ==> (#[trigger] bulk.cancels@[i]).is_wire_form_of(
                            cancels@[i],
                            coin_to_asset@,
                        )
                },
                Err(e) => e == Error::AssetNotFound && !cancels_resolve(cancels@, coin_to_asset@),
            },
    {
        let mut wire: Vec<CancelRequest> = Vec::new();
        let mut i: usize = 0;
        while i < cancels.len()
            invariant
                i <= cancels@.len(),
                wire@.len() == i,
                forall|j: int|
                    0 <= j < i ==> coin_to_asset@.contains_key((#[trigger] cancels@[j]).asset@),
                forall|j: int|
                    0 <= j < i ==> (#[trigger] wire@[j]).is_wire_form_of(cancels@[j], coin_to_asset@),
            decreases cancels@.len() - i,
        {
            match cancels[i].convert(coin_to_asset) {
                Ok(cancel) => {
                    wire.push(cancel);
                },
                Err(e) => {
                    return Err(e);
                },
            }
            i += 1;
        }
        Ok(BulkCancel { cancels: wire })
    }
}

impl BulkCancelByCloid {
    /// The wire form of several cancellations by client order identifier,
    /// in the order given. Fails with the error of the first one that has a
    /// malformed identifier or an unknown asset.
    pub fn build(cancels: &Vec<ClientCancelByCloidRequest>, coin_to_asset: &SymbolTable) -> (r:
        Result<BulkCancelByCloid, Error>)
        ensures
            match r {
                Ok(bulk) => {
                    &&& first_failure(cancels@, coin_to_asset@).is_none()
                    &&& bulk.cancels@.len() == cancels@.len()
                    &&& forall|i: int|
                        0 <= i < cancels@.len() ==> (#[trigger] bulk.cancels@[i]).is_wire_form_of(
                            cancels@[i],
                            coin_to_asset@,
                        )
                },
                Err(e) => first_failure(cancels@, coin_to_asset@) == Some(e),
            },
    {
        let mut wire: Vec<CancelByCloidRequest> = Vec::new();
        let mut i: usize = 0;
        assert(cancels@.skip(0) =~= cancels@);
        while i < cancels.len()
            invariant
                i <= cancels@.len(),
                wire@.len() == i,
                first_failure(cancels@, coin_to_asset@) == first_failure(
                    cancels@.skip(i as int),
                    coin_to_asset@,
                ),
                forall|j: int|
                    0 <= j < i ==> (#[trigger] wire@[j]).is_wire_form_of(cancels@[j], coin_to_asset@),
            decreases cancels@.len() - i,
        {
            proof {
                let rest = cancels@.skip(i as int);
                assert(rest[0] == cancels@[i as int]);
                assert(rest.drop_first() =~= cancels@.skip(i + 1));
            }
            match cancels[i].convert(coin_to_asset) {
                Ok(cancel) => {
                    wire.push(cancel);
                },
                Err(e) => {
                    return Err(e);
                },
            }
            i += 1;
        }
        proof {
            assert(cancels@.skip(i as int).len() == 0);
        }
        Ok(BulkCancelByCloid { cancels: wire })
    }
}

} // verus!
