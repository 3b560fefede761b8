//! The failures that the broker and the simulation environment report.

use vstd::prelude::*;
use vstd::string::StringExecFns;

verus! {

/// Every failure a caller can see, with the data needed to describe it.
#[derive(Clone, Debug, PartialEq, Eq)]
pub enum TradeError {
    /// The configured settlement currency is not among the notional assets.
    MissingCurrencyNotionalAsset(String),
    /// The notional leg of the pair is not a permitted notional asset.
    InvalidNotionalAsset(String),
    /// No price has been set for the pair.
    NoNotionalPerUnit(String),
    /// The reservation would exceed the buying power of the named asset.
    InsufficientBuyingPower(String),
    /// No order with the given id exists.
    OrderNotFound(String),
    /// The environment was used before `init`.
    NotInitialized,
    /// `init` was called twice.
    AlreadyInitialized,
    /// A result of exact arithmetic does not fit the machine
    /// representation, or a division by zero was requested.
    NumericOverflow,
    /// A bar or refresh duration was not positive.
    InvalidDuration,
    /// The bar data source reported a failure of its own.
    DataSource(String),
}

/// The text of each error, character for character.
pub open spec fn spec_message(e: TradeError) -> Seq<char> {
    match e {
        TradeError::MissingCurrencyNotionalAsset(c) => "Missing currency notional asset "@ + c@,
        TradeError::InvalidNotionalAsset(a) => a@ + " is not a valid notional asset"@,
        TradeError::NoNotionalPerUnit(p) => p@ + " does not have notional per unit"@,
        TradeError::InsufficientBuyingPower(a) => "Not enough "@ + a@ + " buying power"@,
        TradeError::OrderNotFound(id) => "Order with id "@ + id@ + " doesn't exist"@,
        TradeError::NotInitialized => "Environment has not been initialized"@,
        TradeError::AlreadyInitialized => "Environment has already been initialized"@,
        TradeError::NumericOverflow => "Amount does not fit the supported numeric range"@,
        TradeError::InvalidDuration => "Durations must be positive"@,
        TradeError::DataSource(m) => "Bar data source failure: "@ + m@,
    }
}

impl TradeError {
    /// A human-readable description of the failure.
    pub fn message(&self) -> (r: String)
        ensures
            r@ == spec_message(*self),
    {
        match self {
            TradeError::MissingCurrencyNotionalAsset(c) => {
                let mut s = String::from_str("Missing currency notional asset ");
                s.append(c.as_str());
                s
            },
            TradeError::InvalidNotionalAsset(a) => {
                let mut s = a.clone();
                s.append(" is not a valid notional asset");
                s
            },
            TradeError::NoNotionalPerUnit(p) => {
                let mut s = p.clone();
                s.append(" does not have notional per unit");
                s
            },
            TradeError::InsufficientBuyingPower(a) => {
                let mut s = String::from_str("Not enough ");
                s.append(a.as_str());
                s.append(" buying power");
                s
            },
            TradeError::OrderNotFound(id) => {
                let mut s = String::from_str("Order with id ");
                s.append(id.as_str());
                s.append(" doesn't exist");
                s
            },
            TradeError::NotInitialized => String::from_str("Environment has not been initialized"),
            TradeError::AlreadyInitialized => String::from_str(
                "Environment has already been initialized",
            ),
            TradeError::NumericOverflow => String::from_str(
                "Amount does not fit the supported numeric range",
            ),
            TradeError::InvalidDuration => String::from_str("Durations must be positive"),
            TradeError::DataSource(m) => {
                let mut s = String::from_str("Bar data source failure: ");
                s.append(m.as_str());
                s
            },
        }
    }
}

} // verus!
