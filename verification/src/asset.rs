use vstd::prelude::*;
use vstd::hash_map::StringHashMap;
use crate::errors::Error;

verus! {

/// A snapshot of the exchange's assets: each symbol with its index.
pub struct SymbolTable {
    entries: StringHashMap<u32>,
}

impl View for SymbolTable {
    type V = Map<Seq<char>, u32>;

    closed spec fn view(&self) -> Map<Seq<char>, u32> {
        self.entries@
    }
}

impl SymbolTable {
    /// A table without symbols.
    pub fn new() -> (t: SymbolTable)
        ensures
            t@ == Map::<Seq<char>, u32>::empty(),
    {
        SymbolTable { entries: StringHashMap::new() }
    }

    /// Sets the index of `symbol`, in place of an earlier one if there was one.
    pub fn insert(&mut self, symbol: String, index: u32)
        ensures
            final(self)@ == old(self)@.insert(symbol@, index),
    {
        self.entries.insert(symbol, index);
    }
}

/// The index of `symbol` in `table`, by exact match.
pub fn resolve(symbol: &str, table: &SymbolTable) -> (r: Result<u32, Error>)
    ensures
        table@.contains_key(symbol@) ==> r == Ok::<u32, Error>(table@[symbol@]),
        !table@.contains_key(symbol@) ==> r == Err::<u32, Error>(Error::AssetNotFound),
{
    match table.entries.get(symbol) {
        Some(index) => Ok(*index),
        None => Err(Error::AssetNotFound),
    }
}

} // verus!
