use lirays_scada::auth::{
    access_granted, views_access, Access, Method, ViewsRoute,
    admin_allowed, attaches_role, auth_status_answer, bearer_token, login_answer, role_after_claims,
    role_after_refresh, role_after_refreshed_claims, role_after_token, role_start, session_cookie,
    setup_check, setup_done, ws_role, Role, RoleQuery, RoleStep, UserInfo, SESSION_COOKIE_NAME,
};
use lirays_scada::passwords::{admin_record, password_matches, UserRecord};
use lirays_scada::patoken::{check_pat_at, format_pat, new_pat, parse_pat, PatError, PatRecord};
use lirays_scada::sessions::{
    access_claims_valid, refresh_target, revoke_keys, session_access_key, session_access_prefix,
    session_data_key, session_id_of_access_key, session_id_of_data_key, TokenClaims,
};

fn claims(kind: &str) -> TokenClaims {
    TokenClaims {
        user: "alice".to_string(),
        token_type: kind.to_string(),
        role: Role::Operator,
        exp: 10,
        issued_at: 5,
    }
}

#[test]
fn the_session_cookie_is_described() {
    let c = session_cookie("abc".to_string(), true, Some(0));
    assert_eq!(SESSION_COOKIE_NAME, "lirays_session");
    assert_eq!(c.value, "abc");
    assert_eq!(c.max_age, Some(0));
    assert!(c.secure);
}

#[test]
fn bearer_tokens_are_read_from_the_header() {
    assert_eq!(bearer_token(Some("Bearer pat_x.y")), Some("pat_x.y".to_string()));
    assert_eq!(bearer_token(Some("Bearer ")), Some(String::new()));
    assert_eq!(bearer_token(Some("bearer x")), None);
    assert_eq!(bearer_token(None), None);
}

#[test]
fn setup_checks_come_in_order() {
    let no: Result<bool, String> = Ok(false);
    let a = setup_check(false, &no, "pw").unwrap();
    assert_eq!(a.status, 403);
    assert_eq!(a.body.message.as_deref(), Some("Authentication disabled"));
    let a = setup_check(true, &Err("db".to_string()), "pw").unwrap();
    assert_eq!(a.status, 409);
    assert_eq!(a.body.message.as_deref(), Some("Admin user already exists"));
    let a = setup_check(true, &no, "   ").unwrap();
    assert_eq!(a.status, 400);
    assert_eq!(a.body.message.as_deref(), Some("Password required"));
    assert!(setup_check(true, &no, " pw ").is_none());
    let a = setup_done(&Err("x".to_string()), &Ok("s".to_string()), false);
    assert_eq!((a.status, a.body.message.as_deref()), (500, Some("Failed to create admin user")));
    let a = setup_done(&Ok(()), &Err("full".to_string()), false);
    assert_eq!((a.status, a.body.message.as_deref()), (500, Some("Unable to create session: full")));
    let a = setup_done(&Ok(()), &Ok("sid".to_string()), true);
    assert_eq!(a.status, 200);
    assert!(a.body.success);
    assert_eq!(a.cookie.unwrap().value, "sid");
}

#[test]
fn login_answers_each_case() {
    let t: Result<bool, String> = Ok(true);
    let f: Result<bool, String> = Ok(false);
    let s: Result<String, String> = Ok("sid".to_string());
    assert_eq!(login_answer(false, &t, &t, &s, false).status, 403);
    let a = login_answer(true, &Err("db".to_string()), &t, &s, false);
    assert_eq!((a.status, a.body.message.as_deref()), (500, Some("Unable to log in right now. Please try again.")));
    let a = login_answer(true, &f, &t, &s, false);
    assert_eq!((a.status, a.body.message.as_deref()), (401, Some("The user has not been set up yet.")));
    let a = login_answer(true, &t, &f, &s, false);
    assert_eq!((a.status, a.body.message.as_deref()), (401, Some("Invalid credentials.")));
    let a = login_answer(true, &t, &Err("hash".to_string()), &s, false);
    assert_eq!(a.status, 401);
    let a = login_answer(true, &t, &t, &s, false);
    assert_eq!(a.status, 200);
    assert_eq!(a.cookie.unwrap().value, "sid");
}

#[test]
fn status_reports_the_session_user() {
    let yes: Result<bool, String> = Ok(true);
    let r = auth_status_answer(false, &yes, None);
    assert!(!r.auth_enabled && !r.authenticated && !r.admin_exists && r.user.is_none());
    let r = auth_status_answer(true, &Err("db".to_string()), None);
    assert!(r.auth_enabled && !r.admin_exists && !r.authenticated);
    let u = UserInfo { username: "admin".to_string(), role: Role::Admin };
    let r = auth_status_answer(true, &yes, Some(u));
    assert!(r.authenticated && r.admin_exists);
    assert_eq!(r.user.unwrap().username, "admin");
    let r = auth_status_answer(true, &yes, None);
    assert!(!r.authenticated && r.admin_exists);
}

#[test]
fn roles_resolve_step_by_step() {
    match role_start(Some("pat_a.b".to_string()), Some("sid".to_string())) {
        RoleStep::Ask(RoleQuery::CheckToken(t)) => assert_eq!(t, "pat_a.b"),
        _ => panic!("token not checked first"),
    }
    match role_start(None, Some("sid".to_string())) {
        RoleStep::Ask(RoleQuery::SessionClaims(s)) => assert_eq!(s, "sid"),
        _ => panic!("session not read"),
    }
    assert!(matches!(role_start(None, None), RoleStep::Deny));
    assert!(matches!(role_after_token(Ok(Role::Admin)), RoleStep::Grant(Role::Admin, None)));
    assert!(matches!(role_after_token(Err("x".to_string())), RoleStep::Deny));
    assert!(matches!(role_after_claims("s".to_string(), Some(Role::Operator)), RoleStep::Grant(Role::Operator, None)));
    assert!(matches!(role_after_claims("s".to_string(), None), RoleStep::Ask(RoleQuery::Refresh(_))));
    assert!(matches!(role_after_refresh(Ok("n".to_string())), RoleStep::Ask(RoleQuery::RefreshedClaims(_))));
    assert!(matches!(role_after_refresh(Err("e".to_string())), RoleStep::Deny));
    match role_after_refreshed_claims("n".to_string(), Some(Role::Admin), true) {
        RoleStep::Grant(Role::Admin, Some(c)) => assert_eq!(c.value, "n"),
        _ => panic!("rotated session not granted"),
    }
    assert!(matches!(role_after_refreshed_claims("n".to_string(), None, true), RoleStep::Deny));
    assert!(admin_allowed(Role::Admin) && !admin_allowed(Role::Operator));
    assert!(attaches_role("/ws") && attaches_role("/ws/x") && !attaches_role("/api/ws"));
    assert_eq!(ws_role(None, true), Role::Operator);
    assert_eq!(ws_role(None, false), Role::Admin);
    assert_eq!(ws_role(Some(Role::Admin), true), Role::Admin);
}

#[test]
fn the_admin_logs_in_with_its_password() {
    let u = admin_record("s3cret").unwrap();
    assert_eq!(u.username, "admin");
    assert_eq!(u.role, Role::Admin);
    assert_eq!(password_matches(&u, "s3cret"), Ok(true));
    assert_eq!(password_matches(&u, "other"), Ok(false));
    let broken = UserRecord { username: "x".to_string(), password_hash: "not a hash".to_string(), role: Role::Operator };
    assert_eq!(password_matches(&broken, "s3cret"), Err("Invalid password hash".to_string()));
}

#[test]
fn token_texts_read_back() {
    assert_eq!(format_pat("id1", "sec"), "pat_id1.sec");
    assert_eq!(parse_pat("pat_id1.sec"), Ok(("id1".to_string(), "sec".to_string())));
    assert_eq!(parse_pat("pat_id1.se.c"), Ok(("id1".to_string(), "se.c".to_string())));
    assert_eq!(parse_pat("tok_id1.sec"), Err(PatError::InvalidFormat));
    assert_eq!(parse_pat("pat_id1sec"), Err(PatError::InvalidFormat));
    assert_eq!(parse_pat("pat_.sec"), Err(PatError::InvalidFormat));
    assert_eq!(parse_pat("pat_id1."), Err(PatError::InvalidFormat));
}

#[test]
fn a_new_token_verifies_until_it_expires() {
    let (pat, rec) = new_pat("ci".to_string(), "alice".to_string(), Role::Operator, 1_000).unwrap();
    assert_eq!(rec.id.len(), 36);
    assert_eq!(rec.expires_at, 1_000);
    let (id, secret) = parse_pat(&pat).unwrap();
    assert_eq!(id, rec.id);
    assert_eq!(secret.len(), 43);
    let stored = Some(rec.clone());
    assert_eq!(check_pat_at(&stored, &secret, 999), Ok(Role::Operator));
    assert_eq!(check_pat_at(&stored, &secret, 1_000), Err(PatError::Expired));
    assert_eq!(check_pat_at(&stored, "wrong", 10), Err(PatError::InvalidSecret));
    assert_eq!(check_pat_at(&None, &secret, 10), Err(PatError::NotFound));
    let bad = Some(PatRecord { token_hash: "zz".to_string(), ..rec });
    assert_eq!(check_pat_at(&bad, &secret, 10), Err(PatError::InvalidHash));
}

#[test]
fn session_keys_read_back() {
    assert_eq!(session_data_key("s1"), "user_session:s1");
    assert_eq!(session_access_prefix("bob"), "user_session_access:bob:");
    assert_eq!(session_access_key("bob", "s1"), "user_session_access:bob:s1");
    assert_eq!(session_id_of_access_key("user_session_access:bob:s1"), "s1");
    assert_eq!(session_id_of_access_key("plain"), "plain");
    assert_eq!(session_id_of_data_key("user_session:s1"), Some("s1".to_string()));
    assert_eq!(session_id_of_data_key("user_session:s1:x"), Some("s1".to_string()));
    assert_eq!(session_id_of_data_key("nocolon"), None);
}

#[test]
fn session_tokens_are_checked_by_kind() {
    assert!(access_claims_valid(&Some(Ok(claims("access")))));
    assert!(!access_claims_valid(&Some(Ok(claims("refresh")))));
    assert!(!access_claims_valid(&Some(Err("expired".to_string()))));
    assert!(!access_claims_valid(&None));
    assert_eq!(refresh_target(&Some(Ok(claims("refresh")))), Ok(("alice".to_string(), Role::Operator)));
    assert_eq!(refresh_target(&None), Err("Session not found or expired".to_string()));
    assert_eq!(refresh_target(&Some(Err("bad".to_string()))), Err("Invalid refresh token: bad".to_string()));
    assert_eq!(refresh_target(&Some(Ok(claims("access")))), Err("Invalid token type".to_string()));
}

#[test]
fn views_routes_need_the_right_role() {
    assert_eq!(views_access(ViewsRoute::Collection, Method::Get), Some(Access::Authenticated));
    assert_eq!(views_access(ViewsRoute::Collection, Method::Post), Some(Access::AdminOnly));
    assert_eq!(views_access(ViewsRoute::Item, Method::Get), Some(Access::Authenticated));
    assert_eq!(views_access(ViewsRoute::Item, Method::Put), Some(Access::AdminOnly));
    assert_eq!(views_access(ViewsRoute::Item, Method::Delete), Some(Access::AdminOnly));
    assert_eq!(views_access(ViewsRoute::EntryPoint, Method::Get), Some(Access::Authenticated));
    assert_eq!(views_access(ViewsRoute::EntryPoint, Method::Put), None);
    assert_eq!(views_access(ViewsRoute::ItemEntryPoint, Method::Put), Some(Access::AdminOnly));
    assert_eq!(views_access(ViewsRoute::Collection, Method::Delete), None);
    assert!(access_granted(Access::Authenticated, Role::Operator));
    assert!(!access_granted(Access::AdminOnly, Role::Operator));
    assert!(access_granted(Access::AdminOnly, Role::Admin));
}

#[test]
fn revoking_lists_the_keys_to_remove() {
    assert_eq!(
        revoke_keys("alice", "s1", false, &vec![]),
        vec!["user_session:s1", "user_session_access:alice:s1"]
    );
    assert_eq!(
        revoke_keys("alice", "s1", true, &vec!["s1".to_string(), "s2".to_string()]),
        vec![
            "user_session:s1",
            "user_session_access:alice:s1",
            "user_session:s2",
            "user_session_access:alice:s2"
        ]
    );
    assert!(revoke_keys("bob", "x", true, &vec![]).is_empty());
}

fn store_with(sessions: &[(&str, &str)]) -> std::collections::BTreeSet<String> {
    let mut store = std::collections::BTreeSet::new();
    for (user, id) in sessions {
        store.insert(session_data_key(id));
        store.insert(session_access_key(user, id));
    }
    store
}

fn listed_for(store: &std::collections::BTreeSet<String>, user: &str) -> Vec<String> {
    let prefix = session_access_prefix(user);
    store
        .iter()
        .filter(|k| k.starts_with(&prefix))
        .map(|k| session_id_of_access_key(k))
        .collect()
}

#[test]
fn a_full_revoke_clears_only_that_user() {
    let mut store = store_with(&[("alice", "s1"), ("alice", "s2"), ("bob", "s3")]);
    let listed = listed_for(&store, "alice");
    assert_eq!(listed, vec!["s1".to_string(), "s2".to_string()]);
    for k in revoke_keys("alice", "s1", true, &listed) {
        store.remove(&k);
    }
    assert!(listed_for(&store, "alice").is_empty());
    assert!(!store.contains("user_session:s1"));
    assert!(!store.contains("user_session:s2"));
    assert!(store.contains("user_session:s3"));
    assert_eq!(listed_for(&store, "bob"), vec!["s3".to_string()]);
}

#[test]
fn revoking_one_session_keeps_the_others() {
    let mut store = store_with(&[("alice", "s1"), ("alice", "s2"), ("bob", "s3")]);
    for k in revoke_keys("alice", "s1", false, &vec![]) {
        store.remove(&k);
    }
    assert_eq!(listed_for(&store, "alice"), vec!["s2".to_string()]);
    assert!(!store.contains("user_session:s1"));
    assert!(store.contains("user_session:s2"));
    assert!(store.contains("user_session:s3"));
}
