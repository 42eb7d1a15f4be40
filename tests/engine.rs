use regulatory_checks::{
    Address, ContractError, JurisdictionRule, OperationType, RegistryContract, RegulatoryCheck,
    APPROVAL_WINDOW, MSG_JURISDICTION_NOT_SET, MSG_NO_MATCHING_RULE, MSG_PROHIBITED,
};

fn admin() -> Address {
    Address::new("GADMIN")
}

fn gov() -> Address {
    Address::new("GGOVERNANCE")
}

fn engine() -> RegulatoryCheck {
    RegulatoryCheck::initialize(admin(), gov(), Address::new("CCARBON"))
}

fn rule(
    id: &str,
    src: &str,
    dst: &str,
    host: &str,
    op: OperationType,
    allowed: bool,
    authority: Option<Address>,
) -> JurisdictionRule {
    JurisdictionRule {
        rule_id: id.to_string(),
        description: format!("rule {}", id),
        source_jur: src.to_string(),
        dest_jur: dst.to_string(),
        host_jur: host.to_string(),
        operation: op,
        is_allowed: allowed,
        required_authority: authority,
    }
}

fn with_accounts(src_jur: &str, dst_jur: &str) -> (RegulatoryCheck, Address, Address) {
    let mut e = engine();
    let a = Address::new("GALICE");
    let b = Address::new("GBOB");
    e.set_address_jurisdiction(&admin(), a.clone(), src_jur.to_string()).unwrap();
    e.set_address_jurisdiction(&admin(), b.clone(), dst_jur.to_string()).unwrap();
    (e, a, b)
}

#[test]
fn all_wildcard_rule_matches_any_jurisdictions() {
    for (s, d, h) in [("US", "US", "US"), ("DE", "JP", "BR"), ("X", "Y", "")] {
        let (mut e, a, b) = with_accounts(s, d);
        e.add_rule(&gov(), rule("r1", "ANY", "ANY", "ANY", OperationType::TRANSFER, true, None))
            .unwrap();
        let v = e.validate_transaction(&a, &b, OperationType::TRANSFER, &h.to_string());
        assert!(v.is_compliant);
        assert_eq!(v.rule_id, Some("r1".to_string()));
        assert!(!v.requires_authorization);
        assert!(v.error_message.is_none());
    }
}

#[test]
fn wildcard_rule_ignores_other_operation() {
    let (mut e, a, b) = with_accounts("US", "US");
    e.add_rule(&gov(), rule("r1", "ANY", "ANY", "ANY", OperationType::TRANSFER, true, None))
        .unwrap();
    let v = e.validate_transaction(&a, &b, OperationType::RETIREMENT, &"US".to_string());
    assert!(!v.is_compliant);
    assert_eq!(v.rule_id, None);
    assert_eq!(v.error_message, Some(MSG_NO_MATCHING_RULE.to_string()));
}

#[test]
fn first_matching_rule_wins() {
    let (mut e, a, b) = with_accounts("US", "DE");
    e.add_rule(&gov(), rule("deny", "US", "ANY", "ANY", OperationType::TRANSFER, false, None))
        .unwrap();
    e.add_rule(&gov(), rule("allow", "ANY", "ANY", "ANY", OperationType::TRANSFER, true, None))
        .unwrap();
    let v = e.validate_transaction(&a, &b, OperationType::TRANSFER, &"US".to_string());
    assert!(!v.is_compliant);
    assert_eq!(v.rule_id, Some("deny".to_string()));
    assert_eq!(v.error_message, Some(MSG_PROHIBITED.to_string()));
    assert_eq!(v.error_message, Some("Transaction prohibited by rule".to_string()));
}

#[test]
fn later_rule_applies_when_earlier_does_not_match() {
    let (mut e, a, b) = with_accounts("FR", "DE");
    e.add_rule(&gov(), rule("deny", "US", "ANY", "ANY", OperationType::TRANSFER, false, None))
        .unwrap();
    e.add_rule(&gov(), rule("allow", "ANY", "DE", "ANY", OperationType::TRANSFER, true, None))
        .unwrap();
    let v = e.validate_transaction(&a, &b, OperationType::TRANSFER, &"US".to_string());
    assert!(v.is_compliant);
    assert_eq!(v.rule_id, Some("allow".to_string()));
}

#[test]
fn host_jurisdiction_must_match() {
    let (mut e, a, b) = with_accounts("US", "US");
    e.add_rule(&gov(), rule("r", "ANY", "ANY", "SG", OperationType::TRANSFER, true, None))
        .unwrap();
    let v = e.validate_transaction(&a, &b, OperationType::TRANSFER, &"US".to_string());
    assert!(!v.is_compliant);
    assert_eq!(v.error_message, Some(MSG_NO_MATCHING_RULE.to_string()));
    let v = e.validate_transaction(&a, &b, OperationType::TRANSFER, &"SG".to_string());
    assert!(v.is_compliant);
}

#[test]
fn default_deny_without_rules() {
    let (e, a, b) = with_accounts("US", "US");
    for op in [OperationType::TRANSFER, OperationType::RETIREMENT] {
        let v = e.validate_transaction(&a, &b, op, &"US".to_string());
        assert!(!v.is_compliant);
        assert_eq!(v.rule_id, None);
        assert!(!v.requires_authorization);
        assert!(v.authority_address.is_none());
        assert_eq!(v.error_message, Some("No matching rule found".to_string()));
    }
}

#[test]
fn rule_with_authority_requires_authorization() {
    let (mut e, a, b) = with_accounts("US", "CN");
    let auth = Address::new("GREGULATOR");
    e.add_rule(
        &gov(),
        rule("r", "US", "CN", "ANY", OperationType::RETIREMENT, true, Some(auth.clone())),
    )
    .unwrap();
    let v = e.validate_transaction(&a, &b, OperationType::RETIREMENT, &"US".to_string());
    assert!(v.is_compliant);
    assert!(v.requires_authorization);
    assert_eq!(v.authority_address, Some(auth));
    assert!(v.error_message.is_none());
}

#[test]
fn jurisdiction_read_is_stable() {
    let mut e = engine();
    let a = Address::new("GALICE");
    assert_eq!(e.get_address_jurisdiction(&a), None);
    e.set_address_jurisdiction(&admin(), a.clone(), "US".to_string()).unwrap();
    assert_eq!(e.get_address_jurisdiction(&a), Some("US".to_string()));
    assert_eq!(e.get_address_jurisdiction(&a), Some("US".to_string()));
    e.add_rule(&gov(), rule("r", "ANY", "ANY", "ANY", OperationType::TRANSFER, true, None))
        .unwrap();
    assert_eq!(e.get_address_jurisdiction(&a), Some("US".to_string()));
    e.set_address_jurisdiction(&admin(), a.clone(), "EU".to_string()).unwrap();
    assert_eq!(e.get_address_jurisdiction(&a), Some("EU".to_string()));
}

#[test]
fn set_jurisdiction_requires_admin() {
    let mut e = engine();
    let a = Address::new("GALICE");
    assert_eq!(
        e.set_address_jurisdiction(&gov(), a.clone(), "US".to_string()),
        Err(ContractError::NotAuthorized)
    );
    assert_eq!(e.get_address_jurisdiction(&a), None);
}

#[test]
fn approval_round_trip() {
    let mut e = engine();
    let key = [7u8; 32];
    let t: u64 = 1_700_000_000;
    e.create_pending_approval(
        key,
        42,
        Address::new("GALICE"),
        Address::new("GBOB"),
        OperationType::TRANSFER,
        t,
    );
    assert!(!e.check_approval(&key, t));
    assert_eq!(e.record_authorization(&key, t + 100), Ok(()));
    assert!(e.check_approval(&key, t + 100));
    assert!(e.check_approval(&key, t + APPROVAL_WINDOW));
    assert_eq!(e.record_authorization(&key, t + 604801), Err(ContractError::ApprovalExpired));
    assert!(!e.check_approval(&key, t + 604801));
}

#[test]
fn authorization_after_window_fails() {
    let mut e = engine();
    let key = [1u8; 32];
    e.create_pending_approval(
        key,
        1,
        Address::new("GALICE"),
        Address::new("GBOB"),
        OperationType::RETIREMENT,
        1000,
    );
    assert_eq!(e.record_authorization(&key, 1000 + 604801), Err(ContractError::ApprovalExpired));
    assert!(!e.check_approval(&key, 1000 + 604801));
    assert!(!e.check_approval(&key, 1000));
    assert_eq!(e.record_authorization(&key, 1000 + 604800), Ok(()));
    assert!(e.check_approval(&key, 1000 + 604800));
}

#[test]
fn authorization_of_unknown_key_fails() {
    let mut e = engine();
    assert_eq!(e.record_authorization(&[9u8; 32], 5), Err(ContractError::InvalidApprovalKey));
    assert!(!e.check_approval(&[9u8; 32], 5));
}

#[test]
fn keys_are_told_apart_by_every_byte() {
    let mut e = engine();
    let k1 = [0u8; 32];
    let mut k2 = [0u8; 32];
    k2[31] = 1;
    e.create_pending_approval(k1, 1, Address::new("A"), Address::new("B"), OperationType::TRANSFER, 10);
    assert_eq!(e.record_authorization(&k2, 10), Err(ContractError::InvalidApprovalKey));
    e.create_pending_approval(k2, 2, Address::new("A"), Address::new("B"), OperationType::TRANSFER, 10);
    assert_eq!(e.record_authorization(&k2, 11), Ok(()));
    assert!(e.check_approval(&k2, 11));
    assert!(!e.check_approval(&k1, 11));
}

#[test]
fn recreating_an_approval_resets_it() {
    let mut e = engine();
    let key = [3u8; 32];
    e.create_pending_approval(key, 1, Address::new("A"), Address::new("B"), OperationType::TRANSFER, 10);
    e.record_authorization(&key, 20).unwrap();
    assert!(e.check_approval(&key, 20));
    e.create_pending_approval(key, 2, Address::new("A"), Address::new("B"), OperationType::TRANSFER, 30);
    assert!(!e.check_approval(&key, 30));
}

#[test]
fn deactivation_removes_rule() {
    let (mut e, a, b) = with_accounts("US", "US");
    e.add_rule(&gov(), rule("r1", "ANY", "ANY", "ANY", OperationType::TRANSFER, true, None))
        .unwrap();
    e.add_rule(&gov(), rule("r2", "US", "US", "ANY", OperationType::TRANSFER, false, None))
        .unwrap();
    assert_eq!(e.get_active_rules(), vec!["r1".to_string(), "r2".to_string()]);
    assert_eq!(e.deactivate_rule(&gov(), &"r1".to_string()), Ok(()));
    assert!(e.get_rule(&"r1".to_string()).is_none());
    assert_eq!(e.get_active_rules(), vec!["r2".to_string()]);
    let v = e.validate_transaction(&a, &b, OperationType::TRANSFER, &"US".to_string());
    assert_eq!(v.rule_id, Some("r2".to_string()));
    assert!(!v.is_compliant);
    assert_eq!(
        e.deactivate_rule(&gov(), &"r1".to_string()),
        Err(ContractError::RuleNotFound)
    );
}

#[test]
fn rule_management_errors() {
    let mut e = engine();
    let r = rule("r1", "ANY", "ANY", "ANY", OperationType::TRANSFER, true, None);
    assert_eq!(e.add_rule(&admin(), r.clone()), Err(ContractError::NotAuthorized));
    assert_eq!(e.update_rule(&gov(), r.clone()), Err(ContractError::RuleNotFound));
    assert_eq!(e.add_rule(&gov(), r.clone()), Ok(()));
    assert_eq!(e.add_rule(&gov(), r.clone()), Err(ContractError::RuleAlreadyExists));
    assert_eq!(e.update_rule(&admin(), r.clone()), Err(ContractError::NotAuthorized));
    assert_eq!(
        e.deactivate_rule(&admin(), &"r1".to_string()),
        Err(ContractError::NotAuthorized)
    );
    assert_eq!(e.get_active_rules(), vec!["r1".to_string()]);
}

#[test]
fn update_keeps_rule_position() {
    let (mut e, a, b) = with_accounts("US", "US");
    e.add_rule(&gov(), rule("r1", "ANY", "ANY", "ANY", OperationType::TRANSFER, true, None))
        .unwrap();
    e.add_rule(&gov(), rule("r2", "ANY", "ANY", "ANY", OperationType::TRANSFER, true, None))
        .unwrap();
    e.update_rule(&gov(), rule("r1", "ANY", "ANY", "ANY", OperationType::TRANSFER, false, None))
        .unwrap();
    assert_eq!(e.get_active_rules(), vec!["r1".to_string(), "r2".to_string()]);
    assert!(!e.get_rule(&"r1".to_string()).unwrap().is_allowed);
    let v = e.validate_transaction(&a, &b, OperationType::TRANSFER, &"US".to_string());
    assert_eq!(v.rule_id, Some("r1".to_string()));
    assert!(!v.is_compliant);
}

#[test]
fn readd_after_deactivation_goes_last() {
    let mut e = engine();
    e.add_rule(&gov(), rule("a", "ANY", "ANY", "ANY", OperationType::TRANSFER, true, None))
        .unwrap();
    e.add_rule(&gov(), rule("b", "ANY", "ANY", "ANY", OperationType::TRANSFER, true, None))
        .unwrap();
    e.deactivate_rule(&gov(), &"a".to_string()).unwrap();
    e.add_rule(&gov(), rule("a", "ANY", "ANY", "ANY", OperationType::TRANSFER, true, None))
        .unwrap();
    assert_eq!(e.get_active_rules(), vec!["b".to_string(), "a".to_string()]);
}

#[test]
fn us_to_us_allowed_by_wildcard_rule() {
    let (mut e, a, b) = with_accounts("US", "US");
    e.add_rule(&gov(), rule("r", "ANY", "ANY", "ANY", OperationType::TRANSFER, true, None))
        .unwrap();
    let v = e.validate_transaction(&a, &b, OperationType::TRANSFER, &"US".to_string());
    assert!(v.is_compliant);
    assert!(!v.requires_authorization);
}

#[test]
fn missing_destination_jurisdiction_is_not_compliant() {
    let mut e = engine();
    let a = Address::new("GALICE");
    let b = Address::new("GBOB");
    e.set_address_jurisdiction(&admin(), a.clone(), "US".to_string()).unwrap();
    e.add_rule(&gov(), rule("r", "ANY", "ANY", "ANY", OperationType::TRANSFER, true, None))
        .unwrap();
    let v = e.validate_transaction(&a, &b, OperationType::TRANSFER, &"US".to_string());
    assert!(!v.is_compliant);
    assert_eq!(v.rule_id, None);
    assert!(!v.requires_authorization);
    assert_eq!(v.error_message, Some(MSG_JURISDICTION_NOT_SET.to_string()));
    assert_eq!(v.error_message, Some("Jurisdiction not set for address".to_string()));
}

#[test]
fn admin_and_governance_rotation() {
    let mut e = engine();
    let new_gov = Address::new("GNEWGOV");
    assert_eq!(e.update_governance(&admin(), new_gov.clone()), Err(ContractError::NotAuthorized));
    assert_eq!(e.update_governance(&gov(), new_gov.clone()), Ok(()));
    let r = rule("r", "ANY", "ANY", "ANY", OperationType::TRANSFER, true, None);
    assert_eq!(e.add_rule(&gov(), r.clone()), Err(ContractError::NotAuthorized));
    assert_eq!(e.add_rule(&new_gov, r), Ok(()));
    let new_admin = Address::new("GNEWADMIN");
    assert_eq!(e.update_admin(&gov(), new_admin.clone()), Err(ContractError::NotAuthorized));
    assert_eq!(e.update_admin(&admin(), new_admin.clone()), Ok(()));
    let a = Address::new("GALICE");
    assert_eq!(
        e.set_address_jurisdiction(&admin(), a.clone(), "US".to_string()),
        Err(ContractError::NotAuthorized)
    );
    assert_eq!(e.set_address_jurisdiction(&new_admin, a, "US".to_string()), Ok(()));
}

#[test]
fn registry_version_is_one() {
    assert_eq!(RegistryContract::version(), 1);
}
