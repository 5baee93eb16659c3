use fuel_logger::models::{CreateUser, LogQuery, StatsQuery, UpdateUser, User};
use fuel_logger::routes::{
    apply_user_update, basic_auth_allows, list_logs_sql, log_page, snapshot_content_type,
    snapshot_path_allowed, stats_sql, user_from_create,
};

fn some(s: &str) -> Option<String> {
    Some(s.to_string())
}

#[test]
fn basic_auth_disabled_without_credentials() {
    assert!(basic_auth_allows(&None, &None, None));
    assert!(basic_auth_allows(&some("user"), &None, None));
    assert!(basic_auth_allows(&None, &some("pass"), Some("Basic xxx")));
}

#[test]
fn basic_auth_checks_header() {
    let u = some("user");
    let p = some("pass");
    // base64("user:pass") = dXNlcjpwYXNz
    assert!(basic_auth_allows(&u, &p, Some("Basic dXNlcjpwYXNz")));
    assert!(!basic_auth_allows(&u, &p, None));
    assert!(!basic_auth_allows(&u, &p, Some("Bearer dXNlcjpwYXNz")));
    assert!(!basic_auth_allows(&u, &p, Some("basic dXNlcjpwYXNz")));
    // base64("user:pasS")
    assert!(!basic_auth_allows(&u, &p, Some("Basic dXNlcjpwYXNT")));
    // not Base64
    assert!(!basic_auth_allows(&u, &p, Some("Basic !!!")));
    // The header text itself is not the credentials.
    assert!(!basic_auth_allows(&u, &p, Some("Basic user:pass")));
    assert!(!basic_auth_allows(&u, &p, Some("Basic")));
}

#[test]
fn snapshot_paths_without_traversal() {
    assert!(snapshot_path_allowed("1", "2026-03-21-14-30-00.png"));
    assert!(!snapshot_path_allowed("..", "a.png"));
    assert!(!snapshot_path_allowed("1.2", "a.png"));
    assert!(!snapshot_path_allowed("1", "../secret"));
    assert!(!snapshot_path_allowed("1", "a/b.png"));
    assert!(!snapshot_path_allowed("1", "a\\b.png"));
    assert!(!snapshot_path_allowed("1", "a..png"));
    assert!(snapshot_path_allowed("1", "a.b.png"));
    assert!(!snapshot_path_allowed("/etc", "passwd"));
    assert!(!snapshot_path_allowed("1/2", "a.png"));
    // Only separators, dots in the station part and ".." are refused.
    assert!(snapshot_path_allowed("\\etc", "passwd"));
    assert!(snapshot_path_allowed("", "a.png"));
    assert!(snapshot_path_allowed("1", ""));
    assert!(snapshot_path_allowed("1", "."));
    assert!(snapshot_path_allowed("1", ".png"));
}

#[test]
fn snapshot_content_types() {
    assert_eq!(snapshot_content_type("a.png"), "image/png");
    assert_eq!(snapshot_content_type("a.jpg"), "image/jpeg");
    assert_eq!(snapshot_content_type("a.jpeg"), "image/jpeg");
    assert_eq!(snapshot_content_type("a.PNG"), "application/octet-stream");
    assert_eq!(snapshot_content_type("png"), "application/octet-stream");
}

#[test]
fn log_listing_sql() {
    let q = LogQuery { station: None, user_id: None, limit: None, offset: None };
    assert_eq!(
        list_logs_sql(&q),
        "SELECT id, user_id, created_at, station, length, consumption, snapshot_path FROM logs ORDER BY created_at DESC LIMIT ? OFFSET ?"
    );
    assert_eq!(log_page(&q), (100, 0));
    let q = LogQuery { station: Some(1), user_id: Some(2), limit: Some(5), offset: Some(10) };
    assert_eq!(
        list_logs_sql(&q),
        "SELECT id, user_id, created_at, station, length, consumption, snapshot_path FROM logs WHERE station = ? AND user_id = ? ORDER BY created_at DESC LIMIT ? OFFSET ?"
    );
    assert_eq!(log_page(&q), (5, 10));
    let q = LogQuery { station: None, user_id: Some(2), limit: None, offset: None };
    assert!(list_logs_sql(&q).contains("FROM logs WHERE user_id = ? ORDER BY"));
}

#[test]
fn stats_sql_filters() {
    let q = StatsQuery { from: Some("2025-01-01".to_string()), to: None, station: Some(1) };
    let sql = stats_sql(&q);
    assert!(sql.starts_with("SELECT\n"));
    assert!(sql.ends_with(
        "WHERE 1=1 AND l.created_at >= ? AND l.station = ? GROUP BY l.user_id ORDER BY total_liters DESC"
    ));
    let q = StatsQuery { from: None, to: None, station: None };
    assert!(stats_sql(&q).ends_with("WHERE 1=1 GROUP BY l.user_id ORDER BY total_liters DESC"));
}

#[test]
fn users_created_and_updated() {
    let u = user_from_create(
        0x1_0000_0005,
        CreateUser { name: "Ann".to_string(), tag: "0000000123".to_string(), station1: true, station2: false },
    );
    assert_eq!(u.id, 5);
    assert_eq!(u.name, "Ann");
    let current = User { id: 5, name: "Ann".to_string(), tag: "1".to_string(), station1: true, station2: false };
    let upd = UpdateUser { name: None, tag: Some("2".to_string()), station1: None, station2: Some(true) };
    let u = apply_user_update(9, current, upd);
    assert_eq!(u.id, 9);
    assert_eq!(u.name, "Ann");
    assert_eq!(u.tag, "2");
    assert!(u.station1);
    assert!(u.station2);
}
