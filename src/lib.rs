//! Regulatory compliance gate for cross-jurisdiction asset transfers.
//!
//! The library holds the compliance engine's state as plain values: an ordered
//! store of jurisdiction rules, a directory of account jurisdictions, and a
//! ledger of time-bounded authority approvals. Authentication of the caller and
//! the current ledger time are supplied by the host that runs the engine.
pub mod engine;
pub mod matching;
pub mod registry;
pub mod types;

pub use engine::{RegulatoryCheck, APPROVAL_WINDOW};
pub use matching::{MSG_JURISDICTION_NOT_SET, MSG_NO_MATCHING_RULE, MSG_PROHIBITED};
pub use registry::RegistryContract;
pub use types::{
    Address, ApprovalKey, ContractError, JurisdictionRule, OperationType, PendingApproval,
    ValidationResult,
};
