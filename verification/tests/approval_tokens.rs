use claw_runtime::approval_tokens::{
    multi_use_approval, one_time_approval, token_from_nanos, ApprovalDelegationHop, ApprovalScope,
    ApprovalTokenError, ApprovalTokenGrant, ApprovalTokenLedger, ApprovalTokenStatus,
    TokenAuditAction,
};

#[test]
fn test_token_lifecycle() {
    let mut ledger = ApprovalTokenLedger::new();
    let grant = ApprovalTokenGrant::pending(ApprovalScope::new("test_policy", "test_action"))
        .granted("admin", "test approval");
    let token = grant.token.clone();
    ledger.insert(grant);
    assert!(ledger.verify(&token).is_ok());
    assert!(ledger.consume(&token).is_ok());
    assert!(matches!(
        ledger.verify(&token),
        Err(ApprovalTokenError::TokenExhausted)
    ));
}

#[test]
fn test_token_revocation() {
    let mut ledger = ApprovalTokenLedger::new();
    let grant = ApprovalTokenGrant::pending(ApprovalScope::new("test_policy", "test_action"))
        .granted("admin", "test approval");
    let token = grant.token.clone();
    ledger.insert(grant);
    assert!(ledger.revoke(&token, "admin").is_ok());
    assert!(matches!(
        ledger.verify(&token),
        Err(ApprovalTokenError::TokenRevoked)
    ));
}

#[test]
fn test_delegation_chain() {
    let mut grant = ApprovalTokenGrant::pending(ApprovalScope::new("policy", "action"))
        .granted("admin", "initial approval");
    grant.add_delegation_hop(ApprovalDelegationHop::new("delegate", "delegated authority"));
    assert_eq!(grant.delegation_chain().len(), 2);
    assert_eq!(grant.delegation_chain()[0].actor, "admin");
    assert_eq!(grant.delegation_chain()[1].actor, "delegate");
}

#[test]
fn test_multi_use_token() {
    let mut ledger = ApprovalTokenLedger::new();
    let mut grant =
        ApprovalTokenGrant::pending(ApprovalScope::new("test", "action").with_max_uses(3))
            .granted("admin", "multi-use");
    grant.set_max_uses(3);
    let token = grant.token.clone();
    ledger.insert(grant);
    assert!(ledger.consume(&token).is_ok());
    assert!(ledger.consume(&token).is_ok());
    assert!(ledger.consume(&token).is_ok());
    assert!(ledger.consume(&token).is_err());
}

#[test]
fn test_audit_log() {
    let mut ledger = ApprovalTokenLedger::new();
    let grant =
        ApprovalTokenGrant::pending(ApprovalScope::new("test", "action")).granted("admin", "test");
    let token = grant.token.clone();
    ledger.insert(grant);
    ledger.consume(&token).unwrap();
    assert_eq!(ledger.audit_log().len(), 2);
    assert!(matches!(
        ledger.audit_log()[0].action,
        TokenAuditAction::Created
    ));
    assert!(matches!(
        ledger.audit_log()[1].action,
        TokenAuditAction::Consumed
    ));
}

#[test]
fn unknown_token_is_not_found() {
    let mut ledger = ApprovalTokenLedger::new();
    assert!(matches!(
        ledger.verify("nope"),
        Err(ApprovalTokenError::TokenNotFound)
    ));
    assert!(matches!(
        ledger.consume("nope"),
        Err(ApprovalTokenError::TokenNotFound)
    ));
    assert!(matches!(
        ledger.revoke("nope", "admin"),
        Err(ApprovalTokenError::TokenNotFound)
    ));
}

#[test]
fn pending_token_is_invalid_and_expired_token_cannot_be_used() {
    let mut ledger = ApprovalTokenLedger::new();
    let pending = ApprovalTokenGrant::pending(ApprovalScope::new("p", "a"));
    let pending_token = pending.token.clone();
    ledger.insert(pending);
    assert!(matches!(
        ledger.verify(&pending_token),
        Err(ApprovalTokenError::InvalidToken)
    ));

    let mut expired = ApprovalTokenGrant::pending(ApprovalScope::new("p", "b")).granted("x", "y");
    expired.set_expires_at(10);
    let expired_token = expired.token.clone();
    ledger.insert(expired);
    assert!(ledger.verify(&expired_token).is_ok());
    assert!(matches!(
        ledger.consume_at(&expired_token, 11),
        Err(ApprovalTokenError::InvalidToken)
    ));
    assert!(ledger.consume_at(&expired_token, 10).is_ok());
}

#[test]
fn uses_are_counted_down_to_exhaustion() {
    let mut grant = ApprovalTokenGrant::pending(ApprovalScope::new("p", "a")).granted("x", "y");
    grant.set_max_uses(2);
    assert_eq!(grant.uses_remaining, 2);
    assert!(grant.consume_use_at(0).is_ok());
    assert_eq!(grant.uses_remaining, 1);
    assert!(grant.consume_use_at(0).is_ok());
    assert_eq!(grant.uses_remaining, 0);
    assert_eq!(grant.status, ApprovalTokenStatus::Exhausted);
    assert!(grant.consume_use_at(0).is_err());
    assert!(!grant.is_valid_at(0));
}

#[test]
fn helpers_build_granted_tokens() {
    let one = one_time_approval("policy", "deploy", "alice");
    assert_eq!(one.status, ApprovalTokenStatus::Granted);
    assert_eq!(one.uses_remaining, 1);
    assert_eq!(one.scope.policy, "policy");
    assert_eq!(one.scope.action, "deploy");
    assert_eq!(one.delegation_chain().len(), 1);
    assert_eq!(one.delegation_chain()[0].actor, "alice");

    let multi = multi_use_approval("policy", "deploy", "bob", 4, 60);
    assert_eq!(multi.uses_remaining, 4);
    assert!(multi.expires_at.is_some());
    assert!(multi.is_valid());
}

#[test]
fn ledger_grant_for_action_and_active_tokens() {
    let mut ledger = ApprovalTokenLedger::new();
    let token = ledger.grant_for_action("policy", "push", "carol");
    assert!(ledger.get(&token).is_some());
    assert!(ledger.verify(&token).is_ok());
    assert_eq!(ledger.active_tokens_at(0).len(), 1);
    ledger.revoke(&token, "carol").unwrap();
    assert_eq!(ledger.active_tokens_at(0).len(), 0);
}

#[test]
fn token_text_is_derived_from_the_clock_reading() {
    assert_eq!(token_from_nanos(255), "approval_ff");
    assert_eq!(token_from_nanos(0), "approval_0");
}
