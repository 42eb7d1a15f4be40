//! Data types shared by the rule engine and the approval ledger.
use vstd::prelude::*;

verus! {

/// An account reference, identified by its textual address.
#[derive(Clone, Debug)]
pub struct Address {
    pub id: String,
}

impl View for Address {
    type V = Seq<char>;

    open spec fn view(&self) -> Seq<char> {
        self.id@
    }
}

impl Address {
    pub fn new(id: &str) -> (r: Address)
        ensures
            r@ == id@,
    {
        Address { id: id.to_owned() }
    }

    /// A copy of this address.
    pub fn duplicate(&self) -> (r: Address)
        ensures
            r == *self,
    {
        Address { id: self.id.clone() }
    }
}

impl PartialEq for Address {
    fn eq(&self, other: &Address) -> (r: bool) {
        self.id == other.id
    }
}

impl vstd::std_specs::cmp::PartialEqSpecImpl for Address {
    open spec fn obeys_eq_spec() -> bool {
        true
    }

    open spec fn eq_spec(&self, other: &Address) -> bool {
        self@ == other@
    }
}

impl Eq for Address {}

/// The kind of operation being checked.
#[allow(non_camel_case_types)]
#[derive(Clone, Copy, Debug, PartialEq, Eq, Structural)]
pub enum OperationType {
    TRANSFER,
    RETIREMENT,
}

/// A 32-byte opaque key that names a pending approval.
pub type ApprovalKey = [u8; 32];

/// A rule that decides whether an operation between jurisdictions is allowed.
///
/// `source_jur`, `dest_jur` and `host_jur` each hold either a concrete
/// jurisdiction label or the wildcard label `ANY`.
#[derive(Clone, Debug)]
pub struct JurisdictionRule {
    pub rule_id: String,
    pub description: String,
    pub source_jur: String,
    pub dest_jur: String,
    pub host_jur: String,
    pub operation: OperationType,
    pub is_allowed: bool,
    pub required_authority: Option<Address>,
}

impl JurisdictionRule {
    /// A copy of this rule.
    pub fn duplicate(&self) -> (r: JurisdictionRule)
        ensures
            r == *self,
    {
        JurisdictionRule {
            rule_id: self.rule_id.clone(),
            description: self.description.clone(),
            source_jur: self.source_jur.clone(),
            dest_jur: self.dest_jur.clone(),
            host_jur: self.host_jur.clone(),
            operation: self.operation,
            is_allowed: self.is_allowed,
            required_authority: match &self.required_authority {
                Some(a) => Some(a.duplicate()),
                None => None,
            },
        }
    }
}

/// The verdict of a compliance check. Never persisted.
#[derive(Clone, Debug)]
pub struct ValidationResult {
    pub is_compliant: bool,
    pub rule_id: Option<String>,
    pub requires_authorization: bool,
    pub authority_address: Option<Address>,
    pub error_message: Option<String>,
}

/// A request for sign-off by an authority, created at `timestamp`.
#[derive(Clone, Debug)]
pub struct PendingApproval {
    pub token_id: u32,
    pub source: Address,
    pub destination: Address,
    pub operation: OperationType,
    pub timestamp: u64,
    pub approved: bool,
}

/// Errors returned by the engine's operations.
#[derive(Clone, Copy, Debug, PartialEq, Eq, Structural)]
pub enum ContractError {
    NotAuthorized,
    RuleNotFound,
    RuleAlreadyExists,
    JurisdictionNotSet,
    InvalidApprovalKey,
    ApprovalExpired,
    NoMatchingRule,
}

/// The view of an optional string.
pub open spec fn opt_str_view(o: Option<String>) -> Option<Seq<char>> {
    match o {
        Some(s) => Some(s@),
        None => None,
    }
}

} // verus!
