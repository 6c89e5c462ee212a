//! Errors of the chain client interface.

use vstd::prelude::*;

verus! {

/// The error type returned by the chain client
#[derive(Clone, Debug, PartialEq, Eq)]
pub enum ArbitrumClientError {
    /// The client configuration failed
    Config(ArbitrumClientConfigError),
    /// A contract call failed
    ContractInteraction(String),
    /// A darkpool sub-call cannot be found in a transaction
    DarkpoolSubcallNotFound(String),
    /// Serializing or deserializing calldata or return data failed
    Serde(String),
    /// Converting between relayer and contract types failed
    Conversion(ConversionError),
    /// Querying events failed
    EventQuerying(String),
    /// A commitment cannot be found in the Merkle tree
    CommitmentNotFound,
    /// The RPC client failed
    Rpc(String),
    /// Getting a transaction failed
    TxQuerying(String),
    /// A transaction cannot be found
    TxNotFound(String),
    /// A transaction was dropped from the mempool
    TxDropped,
    /// A transaction's selector is not one of `newWallet`, `updateWallet`
    /// or `processMatchSettle`
    InvalidSelector,
    /// A public blinder share was not found in a transaction
    BlinderNotFound,
}

impl ArbitrumClientError {
    /// An event-querying error carrying the message
    pub fn event_querying(msg: String) -> (r: ArbitrumClientError)
        ensures
            r matches ArbitrumClientError::EventQuerying(m) && m@ == msg@,
    {
        ArbitrumClientError::EventQuerying(msg)
    }
}

/// The error type returned when configuring the chain client
#[derive(Clone, Debug, PartialEq, Eq)]
pub enum ArbitrumClientConfigError {
    /// The RPC client failed to initialize
    RpcClientInitialization(String),
    /// A contract address cannot be parsed
    AddressParsing(String),
}

/// Errors converting between relayer and contract types
#[derive(Clone, Copy, Debug, PartialEq, Eq, Structural)]
pub enum ConversionError {
    /// A variable-length input cannot be coerced into a fixed-length array
    InvalidLength,
    /// A conversion between integer types failed
    InvalidUint,
}

impl From<ArbitrumClientConfigError> for ArbitrumClientError {
    fn from(e: ArbitrumClientConfigError) -> (r: ArbitrumClientError) {
        ArbitrumClientError::Config(e)
    }
}

impl vstd::std_specs::convert::FromSpecImpl<ArbitrumClientConfigError> for ArbitrumClientError {
    open spec fn obeys_from_spec() -> bool {
        true
    }

    open spec fn from_spec(e: ArbitrumClientConfigError) -> ArbitrumClientError {
        ArbitrumClientError::Config(e)
    }
}

impl From<ConversionError> for ArbitrumClientError {
    fn from(e: ConversionError) -> (r: ArbitrumClientError) {
        ArbitrumClientError::Conversion(e)
    }
}

impl vstd::std_specs::convert::FromSpecImpl<ConversionError> for ArbitrumClientError {
    open spec fn obeys_from_spec() -> bool {
        true
    }

    open spec fn from_spec(e: ConversionError) -> ArbitrumClientError {
        ArbitrumClientError::Conversion(e)
    }
}

} // verus!
