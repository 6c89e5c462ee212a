//! Small configuration types: the chain environment, the exchanges prices
//! are read from, and the options of the circuit-type code generator.

use vstd::prelude::*;

verus! {

/// The chain environment
#[derive(Clone, Copy, Debug, PartialEq, Eq, Structural)]
pub enum Chain {
    Mainnet,
    Testnet,
    Devnet,
}

/// The lower-case form of a string, as Rust's Unicode case mapping gives it
pub uninterp spec fn lower_of(s: Seq<char>) -> Seq<char>;

/// Relies on `str::to_lowercase`: the result is a function of the
/// characters alone.
#[verifier::external_body]
fn lowercase(s: &str) -> (r: String)
    ensures
        r@ == lower_of(s@),
{
    s.to_lowercase()
}

/// Relies on `format!`: the message naming an unknown chain.
#[verifier::external_body]
fn invalid_chain_message(s: &str) -> (r: String) {
    format!("Invalid chain: {s}")
}

/// The chain a lower-case name denotes
pub open spec fn spec_chain_of(lower: Seq<char>) -> Option<Chain> {
    if lower == "mainnet"@ {
        Some(Chain::Mainnet)
    } else if lower == "testnet"@ {
        Some(Chain::Testnet)
    } else if lower == "devnet"@ {
        Some(Chain::Devnet)
    } else {
        None
    }
}

impl Chain {
    /// The chain a lower-case name denotes
    pub fn from_lowercase(lower: &str) -> (r: Option<Chain>)
        ensures
            r == spec_chain_of(lower@),
    {
        let name = lower.to_owned();
        if name == "mainnet".to_owned() {
            Some(Chain::Mainnet)
        } else if name == "testnet".to_owned() {
            Some(Chain::Testnet)
        } else if name == "devnet".to_owned() {
            Some(Chain::Devnet)
        } else {
            None
        }
    }

    /// Parses a chain name, in any case
    pub fn parse(s: &str) -> (r: Result<Chain, String>)
        ensures
            spec_chain_of(lower_of(s@)) matches Some(c) ==> r == Ok::<Chain, String>(c),
            spec_chain_of(lower_of(s@)) is None ==> r is Err,
    {
        let lower = lowercase(s);
        match Chain::from_lowercase(lower.as_str()) {
            Some(c) => Ok(c),
            None => Err(invalid_chain_message(s)),
        }
    }

    /// The chain's name
    pub fn name(&self) -> (r: &'static str)
        ensures
            *self == Chain::Mainnet ==> r@ == "mainnet"@,
            *self == Chain::Testnet ==> r@ == "testnet"@,
            *self == Chain::Devnet ==> r@ == "devnet"@,
    {
        match self {
            Chain::Mainnet => "mainnet",
            Chain::Testnet => "testnet",
            Chain::Devnet => "devnet",
        }
    }
}

/// An exchange prices are read from
#[derive(Clone, Copy, Debug, PartialEq, Eq, Structural)]
pub enum Exchange {
    Binance,
    Coinbase,
    Kraken,
    Okx,
    UniswapV3,
}

impl Exchange {
    /// The exchange's name
    pub fn name(&self) -> (r: &'static str)
        ensures
            *self == Exchange::Binance ==> r@ == "binance"@,
            *self == Exchange::Coinbase ==> r@ == "coinbase"@,
            *self == Exchange::Kraken ==> r@ == "kraken"@,
            *self == Exchange::Okx ==> r@ == "okx"@,
            *self == Exchange::UniswapV3 ==> r@ == "uniswapv3"@,
    {
        match self {
            Exchange::Binance => "binance",
            Exchange::Coinbase => "coinbase",
            Exchange::Kraken => "kraken",
            Exchange::Okx => "okx",
            Exchange::UniswapV3 => "uniswapv3",
        }
    }
}

/// The options of the circuit-type code generator: which derived types to
/// build for a base type
#[derive(Clone, Copy, Debug, PartialEq, Eq, Structural)]
pub struct MacroArgs {
    pub build_singleprover_types: bool,
    pub build_linkable_types: bool,
    pub build_mpc_types: bool,
    pub build_multiprover_types: bool,
    pub build_multiprover_linkable_types: bool,
    pub build_secret_share_types: bool,
    pub serde: bool,
}

/// An option that requires another option
#[derive(Clone, Copy, Debug, PartialEq, Eq, Structural)]
pub enum MacroArgsError {
    /// A multiprover circuit type requires single-prover and MPC circuit types
    MultiproverRequiresBaseTypes,
    /// Linkable types require a circuit base type
    LinkableRequiresBaseType,
    /// Multiprover linkable types require a circuit base type and linkable types
    MultiproverLinkableRequiresLinkable,
    /// Secret share types require single-prover circuit types
    SecretShareRequiresBaseType,
}

/// The first requirement between options that is not met
pub open spec fn spec_validate(a: MacroArgs) -> Result<(), MacroArgsError> {
    if a.build_multiprover_types && !(a.build_singleprover_types && a.build_mpc_types) {
        Err(MacroArgsError::MultiproverRequiresBaseTypes)
    } else if a.build_linkable_types && !a.build_singleprover_types {
        Err(MacroArgsError::LinkableRequiresBaseType)
    } else if a.build_multiprover_linkable_types && !(a.build_singleprover_types && a.build_linkable_types) {
        Err(MacroArgsError::MultiproverLinkableRequiresLinkable)
    } else if a.build_secret_share_types && !a.build_singleprover_types {
        Err(MacroArgsError::SecretShareRequiresBaseType)
    } else {
        Ok(())
    }
}

impl MacroArgs {
    /// No derived types and no serde
    pub fn default() -> (r: MacroArgs)
        ensures
            !r.build_singleprover_types && !r.build_linkable_types && !r.build_mpc_types && !r.build_multiprover_types
                && !r.build_multiprover_linkable_types && !r.build_secret_share_types && !r.serde,
    {
        MacroArgs {
            build_singleprover_types: false,
            build_linkable_types: false,
            build_mpc_types: false,
            build_multiprover_types: false,
            build_multiprover_linkable_types: false,
            build_secret_share_types: false,
            serde: false,
        }
    }

    /// Checks the combination of options: every derived type needs the
    /// types it is built from. An invalid combination is reported as the
    /// error naming the first unmet requirement, for the caller to reject,
    /// rather than by a panic; every combination is a valid input.
    pub fn validate(&self) -> (r: Result<(), MacroArgsError>)
        ensures
            r == spec_validate(*self),
    {
        if self.build_multiprover_types && !(self.build_singleprover_types && self.build_mpc_types) {
            return Err(MacroArgsError::MultiproverRequiresBaseTypes);
        }
        if self.build_linkable_types && !self.build_singleprover_types {
            return Err(MacroArgsError::LinkableRequiresBaseType);
        }
        if self.build_multiprover_linkable_types && !(self.build_singleprover_types && self.build_linkable_types) {
            return Err(MacroArgsError::MultiproverLinkableRequiresLinkable);
        }
        if self.build_secret_share_types && !self.build_singleprover_types {
            return Err(MacroArgsError::SecretShareRequiresBaseType);
        }
        Ok(())
    }
}

} // verus!
