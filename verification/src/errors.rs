use vstd::prelude::*;

verus! {

/// Why an instruction could not be built. Nothing is built on any of these.
#[derive(Clone, Copy, Debug, PartialEq, Eq, Structural)]
pub enum Error {
    /// The asset symbol is not a key of the symbol table.
    AssetNotFound,
    /// The order description matches no row of the order-type table.
    OrderTypeNotFound,
    /// The identifier does not start with `0x` or is not 34 characters long.
    CloidHexString,
    /// A character after the `0x` marker is not a hexadecimal digit.
    CloidInvalidCharacters,
}

impl Error {
    /// A short description of the failure.
    pub fn message(&self) -> (text: &'static str)
        ensures
            text@ == match *self {
                Error::AssetNotFound => "Asset not found"@,
                Error::OrderTypeNotFound => "Order type not found"@,
                Error::CloidHexString => "cloid argument is not a hex string"@,
                Error::CloidInvalidCharacters => "cloid contains invalid characters"@,
            },
    {
        match self {
            Error::AssetNotFound => "Asset not found",
            Error::OrderTypeNotFound => "Order type not found",
            Error::CloidHexString => "cloid argument is not a hex string",
            Error::CloidInvalidCharacters => "cloid contains invalid characters",
        }
    }
}

} // verus!
