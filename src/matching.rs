//! The validation engine: wildcard rule matching with first-match-wins
//! semantics and a default-deny outcome.
use vstd::prelude::*;

use crate::types::{opt_str_view, Address, JurisdictionRule, OperationType, ValidationResult};

verus! {

/// Reason given when an account has no jurisdiction on record.
pub const MSG_JURISDICTION_NOT_SET: &'static str = "Jurisdiction not set for address";

/// Reason given when the first matching rule forbids the operation.
pub const MSG_PROHIBITED: &'static str = "Transaction prohibited by rule";

/// Reason given when no active rule matches.
pub const MSG_NO_MATCHING_RULE: &'static str = "No matching rule found";

/// The wildcard label `ANY`, which matches every jurisdiction.
pub open spec fn wildcard() -> Seq<char> {
    seq!['A', 'N', 'Y']
}

/// A rule field matches a jurisdiction when it is the wildcard or names it.
pub open spec fn field_matches(pattern: Seq<char>, jur: Seq<char>) -> bool {
    pattern == wildcard() || pattern == jur
}

/// A rule matches a transaction when the operation is the same and each of
/// the three jurisdiction fields matches, independently.
pub open spec fn rule_matches_spec(
    rule: JurisdictionRule,
    src: Seq<char>,
    dst: Seq<char>,
    host: Seq<char>,
    op: OperationType,
) -> bool {
    &&& rule.operation == op
    &&& field_matches(rule.source_jur@, src)
    &&& field_matches(rule.dest_jur@, dst)
    &&& field_matches(rule.host_jur@, host)
}

/// Rule `k` is the first rule of `rules` that matches.
pub open spec fn is_first_match(
    rules: Seq<JurisdictionRule>,
    k: int,
    src: Seq<char>,
    dst: Seq<char>,
    host: Seq<char>,
    op: OperationType,
) -> bool {
    &&& 0 <= k < rules.len()
    &&& rule_matches_spec(rules[k], src, dst, host, op)
    &&& forall|j: int| 0 <= j < k ==> !#[trigger] rule_matches_spec(rules[j], src, dst, host, op)
}

/// No rule of `rules` matches.
pub open spec fn no_rule_matches(
    rules: Seq<JurisdictionRule>,
    src: Seq<char>,
    dst: Seq<char>,
    host: Seq<char>,
    op: OperationType,
) -> bool {
    forall|j: int| 0 <= j < rules.len() ==> !#[trigger] rule_matches_spec(rules[j], src, dst, host, op)
}

pub open spec fn opt_addr_view(o: Option<Address>) -> Option<Seq<char>> {
    match o {
        Some(a) => Some(a@),
        None => None,
    }
}

/// `r` is a refusal that names `rule_id` and gives `msg` as its reason.
pub open spec fn is_denial(r: ValidationResult, rule_id: Option<Seq<char>>, msg: Seq<char>) -> bool {
    &&& !r.is_compliant
    &&& opt_str_view(r.rule_id) == rule_id
    &&& !r.requires_authorization
    &&& r.authority_address.is_none()
    &&& opt_str_view(r.error_message) == Some(msg)
}

/// `r` is the verdict that `rule` gives once it has matched.
pub open spec fn is_verdict_of(r: ValidationResult, rule: JurisdictionRule) -> bool {
    if rule.is_allowed {
        &&& r.is_compliant
        &&& opt_str_view(r.rule_id) == Some(rule.rule_id@)
        &&& r.requires_authorization == rule.required_authority.is_some()
        &&& opt_addr_view(r.authority_address) == opt_addr_view(rule.required_authority)
        &&& r.error_message.is_none()
    } else {
        is_denial(r, Some(rule.rule_id@), MSG_PROHIBITED@)
    }
}

/// `r` is the verdict for a transaction between accounts whose jurisdictions
/// are `src` and `dst`, under the active `rules`.
pub open spec fn is_rules_verdict(
    r: ValidationResult,
    rules: Seq<JurisdictionRule>,
    src: Seq<char>,
    dst: Seq<char>,
    host: Seq<char>,
    op: OperationType,
) -> bool {
    &&& no_rule_matches(rules, src, dst, host, op) ==> is_denial(r, None, MSG_NO_MATCHING_RULE@)
    &&& forall|k: int| is_first_match(rules, k, src, dst, host, op) ==> is_verdict_of(r, #[trigger] rules[k])
}

/// Whether `s` is the wildcard label.
pub fn is_wildcard(s: &String) -> (r: bool)
    ensures
        r == (s@ == wildcard()),
{
    let any = "ANY".to_owned();
    proof {
        reveal_strlit("ANY");
        assert("ANY"@ =~= wildcard());
    }
    *s == any
}

/// Whether `rule` applies to a transaction between the given jurisdictions.
pub fn rule_matches(
    rule: &JurisdictionRule,
    source_jur: &String,
    dest_jur: &String,
    host_jur: &String,
    operation: OperationType,
) -> (r: bool)
    ensures
        r == rule_matches_spec(*rule, source_jur@, dest_jur@, host_jur@, operation),
{
    if rule.operation != operation {
        return false;
    }
    if !is_wildcard(&rule.source_jur) && rule.source_jur != *source_jur {
        return false;
    }
    if !is_wildcard(&rule.dest_jur) && rule.dest_jur != *dest_jur {
        return false;
    }
    if !is_wildcard(&rule.host_jur) && rule.host_jur != *host_jur {
        return false;
    }
    true
}

/// A refusal that names `rule_id` and gives `msg` as its reason.
pub fn denial(rule_id: Option<String>, msg: &str) -> (r: ValidationResult)
    ensures
        is_denial(r, opt_str_view(rule_id), msg@),
{
    ValidationResult {
        is_compliant: false,
        rule_id,
        requires_authorization: false,
        authority_address: None,
        error_message: Some(msg.to_owned()),
    }
}

/// The verdict of a rule that has matched.
pub fn verdict_of(rule: &JurisdictionRule) -> (r: ValidationResult)
    ensures
        is_verdict_of(r, *rule),
{
    if rule.is_allowed {
        match &rule.required_authority {
            Some(authority) => ValidationResult {
                is_compliant: true,
                rule_id: Some(rule.rule_id.clone()),
                requires_authorization: true,
                authority_address: Some(authority.duplicate()),
                error_message: None,
            },
            None => ValidationResult {
                is_compliant: true,
                rule_id: Some(rule.rule_id.clone()),
                requires_authorization: false,
                authority_address: None,
                error_message: None,
            },
        }
    } else {
        denial(Some(rule.rule_id.clone()), MSG_PROHIBITED)
    }
}

/// Scans `rules` in order and returns the verdict of the first rule that
/// matches, or a refusal when none does.
pub fn evaluate_rules(
    rules: &Vec<JurisdictionRule>,
    source_jur: &String,
    dest_jur: &String,
    operation: OperationType,
    host_jurisdiction: &String,
) -> (r: ValidationResult)
    ensures
        is_rules_verdict(r, rules@, source_jur@, dest_jur@, host_jurisdiction@, operation),
{
    let mut i: usize = 0;
    while i < rules.len()
        invariant
            i <= rules@.len(),
            forall|j: int|
                0 <= j < i ==> !#[trigger] rule_matches_spec(
                    rules@[j],
                    source_jur@,
                    dest_jur@,
                    host_jurisdiction@,
                    operation,
                ),
        decreases rules@.len() - i,
    {
        let rule = &rules[i];
        if rule_matches(rule, source_jur, dest_jur, host_jurisdiction, operation) {
            let r = verdict_of(rule);
            assert forall|k: int|
                is_first_match(
                    rules@,
                    k,
                    source_jur@,
                    dest_jur@,
                    host_jurisdiction@,
                    operation,
                ) implies k == i by {
                if k > i {
                    assert(rule_matches_spec(
                        rules@[i as int],
                        source_jur@,
                        dest_jur@,
                        host_jurisdiction@,
                        operation,
                    ));
                }
            }
            return r;
        }
        i += 1;
    }
    let r = denial(None, MSG_NO_MATCHING_RULE);
    r
}

} // verus!

verus! {

/// A rule whose three jurisdiction fields are all the wildcard matches every
/// transaction of its own operation kind, whatever the jurisdictions.
pub proof fn lemma_all_wildcard_matches(
    rule: JurisdictionRule,
    src: Seq<char>,
    dst: Seq<char>,
    host: Seq<char>,
)
    requires
        rule.source_jur@ == wildcard(),
        rule.dest_jur@ == wildcard(),
        rule.host_jur@ == wildcard(),
    ensures
        rule_matches_spec(rule, src, dst, host, rule.operation),
{
}

/// First match wins: when rules `i < j` both match and no rule before `i`
/// does, rule `i` is the one whose verdict is given, and never rule `j`.
pub proof fn lemma_first_match_wins(
    rules: Seq<JurisdictionRule>,
    i: int,
    j: int,
    src: Seq<char>,
    dst: Seq<char>,
    host: Seq<char>,
    op: OperationType,
)
    requires
        0 <= i < j < rules.len(),
        rule_matches_spec(rules[i], src, dst, host, op),
        rule_matches_spec(rules[j], src, dst, host, op),
        forall|k: int| 0 <= k < i ==> !#[trigger] rule_matches_spec(rules[k], src, dst, host, op),
    ensures
        is_first_match(rules, i, src, dst, host, op),
        !is_first_match(rules, j, src, dst, host, op),
{
}

} // verus!
