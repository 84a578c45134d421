use vstd::prelude::*;
use crate::asset::{resolve, SymbolTable};
use crate::cloid::{is_cloid_text, normalized, Cloid};
use crate::errors::Error;

verus! {

/// A cancellation by order id as the client states it.
#[derive(Clone)]
pub struct ClientCancelRequest {
    pub asset: String,
    pub oid: u64,
}

/// A cancellation by order id on the wire.
#[derive(Clone, Debug)]
pub struct CancelRequest {
    pub asset: u32,
    pub oid: u64,
}

/// A cancellation by client order identifier as the client states it, the
/// identifier not yet validated.
#[derive(Clone)]
pub struct ClientCancelByCloidRequest {
    pub asset: String,
    pub cloid: String,
}

/// A cancellation by client order identifier on the wire.
#[derive(Clone, Debug)]
pub struct CancelByCloidRequest {
    pub asset: u32,
    pub cloid: Cloid,
}

impl CancelRequest {
    /// This wire cancellation is the one that stands for `client` under `table`.
    pub open spec fn is_wire_form_of(self, client: ClientCancelRequest, table: Map<Seq<char>, u32>) -> bool {
        &&& table.contains_key(client.asset@)
        &&& self.asset == table[client.asset@]
        &&& self.oid == client.oid
    }
}

impl CancelByCloidRequest {
    /// This wire cancellation is the one that stands for `client` under `table`.
    pub open spec fn is_wire_form_of(
        self,
        client: ClientCancelByCloidRequest,
        table: Map<Seq<char>, u32>,
    ) -> bool {
        &&& table.contains_key(client.asset@)
        &&& self.asset == table[client.asset@]
        &&& is_cloid_text(client.cloid@)
        &&& self.cloid@ == normalized(client.cloid@)
    }
}

impl ClientCancelRequest {
    /// The wire form: the symbol resolved, the order id as it is.
    pub fn convert(&self, coin_to_asset: &SymbolTable) -> (r: Result<CancelRequest, Error>)
        ensures
            match r {
                Ok(wire) => wire.is_wire_form_of(*self, coin_to_asset@),
                Err(e) => e == Error::AssetNotFound && !coin_to_asset@.contains_key(self.asset@),
            },
    {
        match resolve(self.asset.as_str(), coin_to_asset) {
            Ok(asset) => Ok(CancelRequest { asset, oid: self.oid }),
            Err(e) => Err(e),
        }
    }
}

impl ClientCancelByCloidRequest {
    /// The error that `convert` gives under `table`, if it gives one: a
    /// malformed identifier is reported before an unknown symbol.
    pub open spec fn failure(self, table: Map<Seq<char>, u32>) -> Option<Error> {
        if !is_cloid_text(self.cloid@) {
            Some(crate::cloid::parse_failure(self.cloid@))
        } else if !table.contains_key(self.asset@) {
            Some(Error::AssetNotFound)
        } else {
            None
        }
    }

    /// The wire form: the identifier validated, the symbol resolved.
    pub fn convert(&self, coin_to_asset: &SymbolTable) -> (r: Result<CancelByCloidRequest, Error>)
        ensures
            match r {
                Ok(wire) => self.failure(coin_to_asset@).is_none() && wire.is_wire_form_of(
                    *self,
                    coin_to_asset@,
                ),
                Err(e) => self.failure(coin_to_asset@) == Some(e),
            },
    {
        let cloid = match Cloid::new(self.cloid.as_str()) {
            Ok(cloid) => cloid,
            Err(e) => {
                return Err(e);
            },
        };
        match resolve(self.asset.as_str(), coin_to_asset) {
            Ok(asset) => Ok(CancelByCloidRequest { asset, cloid }),
            Err(e) => Err(e),
        }
    }
}

} // verus!
