//! The authenticated synchronization core: token lifecycle, reconciliation
//! of existing identifiers, and submission retries.

use halo_action_importer::auth::{
    AuthToken, TokenCache, TokenQuery, AuthError, interpret_token_response,
    TOKEN_SAFETY_MARGIN_SECS,
};
use halo_action_importer::idset::IdSet;
use halo_action_importer::reconcile::{
    ReconcileStep, ReconcileError, reconcile_response, add_row_ids, MAX_GATEWAY_RETRIES,
};
use halo_action_importer::submit::{SubmitStep, SubmitError, submit_response};

#[test]
fn token_validity_drives_exactly_one_refresh() {
    let now: i64 = 1_000_000;
    let mut cache = TokenCache::new();
    // empty cache: the caller must refresh
    assert!(matches!(cache.check(now), TokenQuery::NeedsRefresh));
    // a token within the safety margin of its expiry still refreshes
    let stale = AuthToken {
        access_token: "old".to_string(),
        token_type: "Bearer".to_string(),
        expires_at: now + TOKEN_SAFETY_MARGIN_SECS,
    };
    cache.install(stale);
    assert!(matches!(cache.check(now), TokenQuery::NeedsRefresh));
    // once a fresh token is installed, every later check reuses it
    let fresh = AuthToken::new("abc".to_string(), "Bearer".to_string(), 3600, now);
    cache.install(fresh);
    match cache.check(now) {
        TokenQuery::Valid(h) => assert_eq!(h, "Bearer abc"),
        TokenQuery::NeedsRefresh => panic!("fresh token must be reused"),
    }
    match cache.check(now) {
        TokenQuery::Valid(_) => {},
        TokenQuery::NeedsRefresh => panic!("no second refresh"),
    }
}

#[test]
fn expired_token_reports_expired() {
    let now: i64 = 500_000;
    let t = AuthToken::new("x".to_string(), "Bearer".to_string(), 10, now);
    assert!(t.is_expired(now));
    let t2 = AuthToken::new("x".to_string(), "Bearer".to_string(), TOKEN_SAFETY_MARGIN_SECS + 1, now);
    assert!(!t2.is_expired(now));
    assert!(t2.is_expired(now + 2));
}

#[test]
fn identity_responses_classify_exactly() {
    let now: i64 = 10;
    assert!(matches!(
        interpret_token_response(401, "anything", now),
        Err(AuthError::InvalidCredentials)
    ));
    match interpret_token_response(
        200,
        "{\"error\":\"invalid_scope\",\"error_description\":\"no such scope\"}",
        now,
    ) {
        Err(AuthError::IdentityRejected { error, description }) => {
            assert_eq!(error, "invalid_scope");
            assert_eq!(description, "no such scope");
        },
        other => panic!("unexpected: {:?}", other),
    }
    match interpret_token_response(
        200,
        "{\"access_token\":\"tok\",\"token_type\":\"Bearer\",\"expires_in\":3600}",
        now,
    ) {
        Ok(t) => {
            assert_eq!(t.access_token, "tok");
            assert_eq!(t.token_type, "Bearer");
            assert_eq!(t.expires_at, 3610);
            assert_eq!(t.header_value(), "Bearer tok");
        },
        other => panic!("unexpected: {:?}", other),
    }
    assert!(matches!(
        interpret_token_response(200, "not json at all", now),
        Err(AuthError::Protocol)
    ));
}

#[test]
fn reconciliation_unions_reports_with_duplicates_collapsed() {
    let mut acc = IdSet::new();
    let body1 = "[{\"group_num\":\"g1\",\"action_ids\":\"1,2,3\"}]";
    let body2 = "[{\"group_num\":\"g2\",\"action_ids\":\"3,4\"}]";
    assert!(matches!(
        reconcile_response(200, false, 0, body1, &mut acc),
        ReconcileStep::Done
    ));
    assert!(matches!(
        reconcile_response(200, false, 0, body2, &mut acc),
        ReconcileStep::Done
    ));
    assert_eq!(acc.len(), 4);
    assert!(acc.contains("1"));
    assert!(acc.contains("2"));
    assert!(acc.contains("3"));
    assert!(acc.contains("4"));
    assert!(!acc.contains("5"));
}

#[test]
fn identifier_lists_are_split_trimmed_and_deduplicated() {
    let mut acc = IdSet::new();
    add_row_ids(&mut acc, " 10 ,,  20,10,  ,30 ");
    assert_eq!(acc.len(), 3);
    assert!(acc.contains("10"));
    assert!(acc.contains("20"));
    assert!(acc.contains("30"));
    assert!(!acc.contains(""));
    assert!(!acc.contains(" 10 "));
}

#[test]
fn reconcile_gateway_timeout_retries_then_exhausts() {
    let mut acc = IdSet::new();
    assert!(matches!(
        reconcile_response(504, false, 0, "", &mut acc),
        ReconcileStep::RetryAfterCooldown
    ));
    assert!(matches!(
        reconcile_response(504, false, MAX_GATEWAY_RETRIES, "", &mut acc),
        ReconcileStep::Fail(ReconcileError::GatewayExhausted)
    ));
    assert_eq!(acc.len(), 0);
}

#[test]
fn reconcile_auth_retry_once_then_terminal() {
    let mut acc = IdSet::new();
    assert!(matches!(
        reconcile_response(401, false, 0, "", &mut acc),
        ReconcileStep::RetryWithFreshToken
    ));
    assert!(matches!(
        reconcile_response(401, true, 0, "", &mut acc),
        ReconcileStep::Fail(ReconcileError::AuthExpired)
    ));
}

#[test]
fn reconcile_other_failures_are_terminal() {
    let mut acc = IdSet::new();
    match reconcile_response(500, false, 0, "boom", &mut acc) {
        ReconcileStep::Fail(ReconcileError::Remote { status, body }) => {
            assert_eq!(status, 500);
            assert_eq!(body, "boom");
        },
        other => panic!("unexpected: {:?}", other),
    }
    assert!(matches!(
        reconcile_response(200, false, 0, "not a report", &mut acc),
        ReconcileStep::Fail(ReconcileError::Protocol)
    ));
    assert!(matches!(
        reconcile_response(200, false, 0, "[{\"action_ids\":\"1\"}]", &mut acc),
        ReconcileStep::Fail(ReconcileError::Protocol)
    ));
    assert!(matches!(
        reconcile_response(200, false, 0, "[]", &mut acc),
        ReconcileStep::Fail(ReconcileError::EmptyReport)
    ));
}

#[test]
fn submission_one_retry_then_imported_or_expired() {
    // first 401: refresh and retry
    assert!(matches!(submit_response(401, false, ""), SubmitStep::RetryWithFreshToken));
    // then a success: imported
    assert!(matches!(submit_response(201, true, ""), SubmitStep::Imported));
    // two 401s in a row: terminal with the expiry reason
    assert!(matches!(
        submit_response(401, true, ""),
        SubmitStep::Failed(SubmitError::AuthExpired)
    ));
    // any other failure carries status and body
    match submit_response(422, false, "nope") {
        SubmitStep::Failed(SubmitError::Rejected { status, body }) => {
            assert_eq!(status, 422);
            assert_eq!(body, "nope");
        },
        other => panic!("unexpected: {:?}", other),
    }
}
