//! A risk engine for perpetual futures, with an order book, a prediction market that pays out
//! no more than it holds, and the instructions around them.
//!
//! The engine is [`RiskEngine`]. Its operations are specified as functions on [`EngineState`],
//! the mathematical view of an engine; what holds of them taken together is stated in the
//! modules whose names end in `laws`.

// Numbers
pub mod math;
pub mod wide;
pub mod wide_convert;
pub mod wide_ops;

// State of the engine
pub mod slots;
pub mod state;
pub mod types;

// Operations of the engine
pub mod accounts;
pub mod adl;
pub mod close;
pub mod conservation;
pub mod crank;
pub mod dust;
pub mod fees;
pub mod funding;
pub mod haircut;
pub mod heap;
pub mod insurance;
pub mod liquidation;
pub mod margin;
pub mod operations;
pub mod settle;
pub mod sweep;
pub mod touch;
pub mod trade;
pub mod warmup;

// Laws of the engine
pub mod account_laws;
pub mod adl_laws;
pub mod close_laws;
pub mod closing_laws;
pub mod conservation_laws;
pub mod course_laws;
pub mod crank_laws;
pub mod dust_laws;
pub mod emergency_laws;
pub mod funding_laws;
pub mod funds_laws;
pub mod insurance_laws;
pub mod isolation_laws;
pub mod keeper_laws;
pub mod liquidation_laws;
pub mod margin_laws;
pub mod position_laws;
pub mod rounding;
pub mod refusal_laws;
pub mod settle_laws;
pub mod settlement_laws;
pub mod sharing_laws;
pub mod soundness_laws;
pub mod success_laws;
pub mod sweep_laws;
pub mod trade_laws;
pub mod warmup_laws;
pub mod window_laws;

// The order book and the slab that holds it
pub mod orderbook;
pub mod matching_laws;
pub mod orderbook_laws;
pub mod slab;

// Prediction markets
pub mod prediction;

// The router, and requests to it
pub mod keys;
pub mod outside;
pub mod registry;
pub mod requests;
pub mod router_laws;
pub mod vault;

pub use state::{EngineState, RiskEngine};
pub use types::{
    Account, AccountKind, ClosedOutcome, CrankOutcome, DeferredAdl, InsuranceFund, MatchingEngine,
    NoOpMatcher, OpClass, RiskError, RiskParams, TradeExecution,
};
pub use wide::{I128, U128};
