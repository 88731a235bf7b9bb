use open_agent::auth::{check_claims, verify_token_for_config, AuthMode, TokenCheck};

#[test]
fn users_are_known_by_the_subject_of_their_claims() {
    let ids = vec!["u-1".to_string(), "u-2".to_string()];
    assert_eq!(check_claims("u-2", &ids), TokenCheck::Valid { user_known: true });
    assert_eq!(check_claims("alice", &ids), TokenCheck::Valid { user_known: false });
    assert_eq!(check_claims("", &ids), TokenCheck::Valid { user_known: false });
    assert_eq!(check_claims("u-1", &vec![]), TokenCheck::Valid { user_known: false });
}

#[test]
fn claims_decide_where_users_are_told_apart() {
    let known = check_claims("u-1", &vec!["u-1".to_string()]);
    let unknown = check_claims("u-9", &vec!["u-1".to_string()]);
    assert!(verify_token_for_config(true, true, AuthMode::MultiUser, known));
    assert!(!verify_token_for_config(true, true, AuthMode::MultiUser, unknown));
    assert!(verify_token_for_config(true, true, AuthMode::SingleTenant, unknown));
    assert!(!verify_token_for_config(true, false, AuthMode::SingleTenant, known));
    assert!(!verify_token_for_config(true, true, AuthMode::SingleTenant, TokenCheck::Invalid));
    assert!(verify_token_for_config(false, false, AuthMode::Disabled, TokenCheck::Invalid));
}
