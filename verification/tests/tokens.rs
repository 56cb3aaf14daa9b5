use base64::Engine;
use lirays_scada::auth::Role;
use lirays_scada::sessions::{access_claims_valid, refresh_target, Session};
use lirays_scada::tokens::{
    claims_from_payload, decode_token_claims, is_expired_error, new_session, role_text, DecodeFailure,
};

fn payload_text(token: &str) -> String {
    let part = token.split('.').nth(1).unwrap();
    let bytes = base64::engine::general_purpose::URL_SAFE_NO_PAD.decode(part).unwrap();
    String::from_utf8(bytes).unwrap()
}

fn now_secs() -> i64 {
    std::time::SystemTime::now()
        .duration_since(std::time::UNIX_EPOCH)
        .unwrap()
        .as_secs() as i64
}

#[test]
fn new_session_tokens_read_back() {
    let session = Session::new("alice", b"acc", b"ref", 60, 60, Role::Admin).unwrap();
    assert_eq!(session.username, "alice");
    let decoded = decode_token_claims(&session.access_token, b"acc");
    assert!(access_claims_valid(&Some(decoded.clone().map_err(|e| e.text()))));
    let claims = decoded.unwrap();
    assert_eq!(claims.user, "alice");
    assert_eq!(claims.role, Role::Admin);
    assert_eq!(claims.token_type, "access");
    let refresh = decode_token_claims(&session.refresh_token, b"ref");
    assert_eq!(
        refresh_target(&Some(refresh.map_err(|e| e.text()))),
        Ok(("alice".to_string(), Role::Admin))
    );
}

#[test]
fn session_tokens_carry_their_claims_in_order() {
    let now = now_secs();
    let s = new_session("bob", Role::Operator, now, now * 1000 + 7, 60, 3600, b"a", b"r").unwrap();
    assert_eq!(
        payload_text(&s.access_token),
        format!("{{\"user\":\"bob\",\"type\":\"access\",\"role\":\"operator\",\"exp\":{},\"issued_at\":{}}}", now + 60, now * 1000 + 7)
    );
    let c = decode_token_claims(&s.refresh_token, b"r").unwrap();
    assert_eq!(c.token_type, "refresh");
    assert_eq!(c.exp, now + 3600);
    assert_eq!(c.issued_at, now * 1000 + 7);
    let again = new_session("bob", Role::Operator, now, now * 1000 + 7, 60, 3600, b"a", b"r").unwrap();
    assert_eq!(again.access_token, s.access_token);
}

#[test]
fn tokens_are_refused_with_another_key_or_once_expired() {
    let now = now_secs();
    let s = new_session("eve", Role::Operator, now, now * 1000, 60, 60, b"a", b"r").unwrap();
    match decode_token_claims(&s.access_token, b"wrong") {
        Err(e) => assert!(!is_expired_error(&e)),
        Ok(_) => panic!("accepted with another key"),
    }
    let old = new_session("eve", Role::Operator, now - 7200, 0, 60, 60, b"a", b"r").unwrap();
    match decode_token_claims(&old.refresh_token, b"r") {
        Err(e) => {
            assert!(is_expired_error(&e));
            assert_eq!(e.text(), "ExpiredSignature");
        }
        Ok(_) => panic!("expired token accepted"),
    }
    assert!(matches!(decode_token_claims("not a token", b"r"), Err(DecodeFailure::Other(_))));
}

#[test]
fn payloads_are_read_like_the_claims_type() {
    let full = vec![
        ("issued_at".to_string(), None, Some(Some(5))),
        ("user".to_string(), Some("u".to_string()), None),
        ("extra".to_string(), None, None),
        ("type".to_string(), Some("access".to_string()), None),
        ("role".to_string(), Some("admin".to_string()), None),
        ("exp".to_string(), None, Some(Some(-3))),
    ];
    let c = claims_from_payload(&full).unwrap();
    assert_eq!((c.user.as_str(), c.token_type.as_str(), c.role, c.exp, c.issued_at), ("u", "access", Role::Admin, -3, 5));
    let mut no_user = full.clone();
    no_user.remove(1);
    assert_eq!(claims_from_payload(&no_user).err(), Some("missing field `user`".to_string()));
    let mut bad_exp = full.clone();
    bad_exp[5] = ("exp".to_string(), None, Some(None));
    assert_eq!(claims_from_payload(&bad_exp).err(), Some("invalid type for field `exp`".to_string()));
    let mut bad_role = full.clone();
    bad_role[4] = ("role".to_string(), Some("root".to_string()), None);
    assert_eq!(
        claims_from_payload(&bad_role).err(),
        Some("unknown variant `root`, expected `admin` or `operator`".to_string())
    );
    assert_eq!(role_text(Role::Operator), "operator");
}

#[test]
fn the_session_secret_is_url_safe_base64() {
    let s = lirays_scada::auth::session_secret(&vec![0xfb, 0xff, 0x00, 0x41]);
    assert_eq!(s, "-_8AQQ");
    assert_eq!(lirays_scada::auth::session_secret(&vec![0x4d, 0x61]), "TWE");
    assert_eq!(lirays_scada::auth::session_secret(&vec![]), "");
}
