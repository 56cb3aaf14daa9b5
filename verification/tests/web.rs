use lirays_scada::http_types::{ApiResponse, ApiResponseEmpty};
use lirays_scada::service::{privileged_script_of, start_service, status_from, stop_service};
use lirays_scada::views::ViewManagerError;
use lirays_scada::web::{is_expected_disconnect_error, map_view_error, static_plan};

#[test]
fn peer_disconnects_are_recognised() {
    assert!(is_expected_disconnect_error("IO error: Connection reset by peer (os error 104)"));
    assert!(is_expected_disconnect_error("Connection reset without closing handshake"));
    assert!(is_expected_disconnect_error("BROKEN PIPE"));
    assert!(is_expected_disconnect_error("trying to work with closed connection: Connection closed normally"));
    assert!(!is_expected_disconnect_error("protocol error"));
    assert!(!is_expected_disconnect_error(""));
}

#[test]
fn static_paths_try_their_candidates() {
    let p = static_plan("/");
    assert_eq!(p.candidates, vec!["index.html", "index.html/index.html"]);
    assert!(!p.spa_fallback);
    let p = static_plan("/dashboard");
    assert_eq!(p.candidates, vec!["dashboard", "dashboard/index.html", "dashboard.html"]);
    assert!(p.spa_fallback);
    let p = static_plan("//docs/");
    assert_eq!(p.candidates, vec!["docs/", "docs/index.html", "docs/.html"]);
    let p = static_plan("/assets/app.js");
    assert_eq!(p.candidates, vec!["assets/app.js", "assets/app.js/index.html"]);
    assert!(!p.spa_fallback);
    let p = static_plan(" / x ");
    assert_eq!(p.candidates[0], "/ x");
}

#[test]
fn view_errors_become_answers() {
    assert_eq!(map_view_error(ViewManagerError::NotFound), (404, "View not found".to_string()));
    assert_eq!(
        map_view_error(ViewManagerError::DuplicateName("Main".to_string())),
        (409, "View name \"Main\" already exists".to_string())
    );
    assert_eq!(map_view_error(ViewManagerError::Validation("bad".to_string())), (400, "bad".to_string()));
    assert_eq!(
        map_view_error(ViewManagerError::Database("locked".to_string())),
        (500, "Database error: locked".to_string())
    );
}

#[test]
fn answers_carry_success_and_message() {
    let ok = ApiResponseEmpty::success();
    assert!(ok.success && ok.data == Some(()) && ok.message.is_none());
    let err = ApiResponseEmpty::error("nope".to_string());
    assert!(!err.success && err.data.is_none());
    assert_eq!(err.message.as_deref(), Some("nope"));
    let r = ApiResponse::success(5u8);
    assert!(r.success && r.data == Some(5) && r.message.is_none());
}

#[test]
fn service_control_reports_status() {
    assert!(start_service(&Ok(true)).is_none());
    let s = start_service(&Ok(false)).unwrap();
    assert!(!s.running);
    assert_eq!(s.message, "Start failed");
    let s = stop_service(&Ok(false)).unwrap();
    assert_eq!(s.message, "Stop failed");
    let s = stop_service(&Err("no osascript".to_string())).unwrap();
    assert_eq!(s.message, "no osascript");
    let s = status_from(&Ok((true, String::new())));
    assert!(s.running);
    assert_eq!(s.message, "Running");
    let s = status_from(&Ok((false, "not found".to_string())));
    assert!(!s.running);
    assert_eq!(s.message, "not found");
}

#[test]
fn shell_commands_are_escaped_for_applescript() {
    assert_eq!(
        privileged_script_of("echo \"a\\b\""),
        "do shell script \"echo \\\"a\\\\b\\\"\" with administrator privileges"
    );
    assert_eq!(
        privileged_script_of("launchctl kickstart -k system/com.lirays.scada"),
        "do shell script \"launchctl kickstart -k system/com.lirays.scada\" with administrator privileges"
    );
}
