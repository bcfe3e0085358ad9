use kintate_proxy::log::{access_log_query, now_timestamp, timestamp_from_parts, AccessLogger, AccessSession, LogStatus};
use kintate_proxy::policy::Action;

const SEC: i128 = 1_000_000_000;

#[test]
fn repeated_requests_share_a_session() {
    let mut l = AccessLogger::new();
    l.record_access_at("10.0.0.1", "WWW.Example.com", Action::Allow, None, 5 * SEC);
    l.record_access_at("10.0.0.1", "www.example.com", Action::Allow, None, 7 * SEC);
    let s = l.get_active_sessions();
    assert_eq!(s.len(), 1);
    assert_eq!(s[0].target_domain, "www.example.com");
    assert_eq!(s[0].request_count, 2);
    assert_eq!(s[0].first_access, 5 * SEC);
    assert_eq!(s[0].last_access, 7 * SEC);
    assert_eq!(s[0].tag, None);
}

#[test]
fn different_outcome_or_device_starts_a_session() {
    let mut l = AccessLogger::new();
    l.record_access_at("10.0.0.1", "a.com", Action::Allow, None, SEC);
    l.record_access_at("10.0.0.1", "a.com", Action::Block, None, SEC);
    l.record_access_at("10.0.0.2", "a.com", Action::Allow, None, SEC);
    assert_eq!(l.get_active_sessions().len(), 3);
}

#[test]
fn tagged_requests_count_towards_the_tag() {
    let mut l = AccessLogger::new();
    l.record_access_at("ip", "rr1.googlevideo.com", Action::Block, Some("video"), SEC);
    l.record_access_at("ip", "i.ytimg.com", Action::Block, Some("video"), 2 * SEC);
    let s = l.get_active_sessions();
    assert_eq!(s.len(), 1);
    assert_eq!(s[0].target_domain, "video");
    assert_eq!(s[0].tag, Some("video".to_string()));
    assert_eq!(s[0].request_count, 2);
}

#[test]
fn record_counts_exactly_one_request() {
    let mut l = AccessLogger::new();
    let total = |l: &AccessLogger| l.get_active_sessions().iter().map(|s| s.request_count as i64).sum::<i64>();
    for (i, d) in ["a.com", "b.com", "a.com", "c.com", "a.com"].iter().enumerate() {
        let before = total(&l);
        l.record_access_at("ip", d, Action::Allow, None, i as i128 * SEC);
        assert_eq!(total(&l), before + 1);
    }
    assert_eq!(l.get_active_sessions().len(), 3);
}

#[test]
fn record_access_uses_the_clock() {
    let mut l = AccessLogger::new();
    let before = now_timestamp();
    l.record_access("ip", "a.com", Action::Allow, None);
    let after = now_timestamp();
    let s = l.get_active_sessions();
    assert!(before <= s[0].last_access && s[0].last_access <= after);
}

#[test]
fn sweep_ends_idle_sessions() {
    let mut l = AccessLogger::new();
    l.record_access_at("ip", "old.com", Action::Allow, None, 0);
    l.record_access_at("ip", "new.com", Action::Allow, None, 5 * SEC);
    // 10 whole seconds idle is not more than 10
    let expired = l.sweep_sessions_at(10 * SEC + SEC / 2, 10);
    assert!(expired.is_empty());
    let expired = l.sweep_sessions_at(11 * SEC, 10);
    assert_eq!(expired.len(), 1);
    assert_eq!(expired[0].target_domain, "old.com");
    let left = l.get_active_sessions();
    assert_eq!(left.len(), 1);
    assert_eq!(left[0].target_domain, "new.com");
}

#[test]
fn sweep_rounds_negative_spans_toward_zero() {
    let mut l = AccessLogger::new();
    l.record_access_at("ip", "future.com", Action::Allow, None, 100 * SEC);
    // a session last used in the future is -1.5 s idle: -1 whole seconds
    assert!(l.sweep_sessions_at(98 * SEC + SEC / 2, -2).len() == 1);
    let mut l = AccessLogger::new();
    l.record_access_at("ip", "future.com", Action::Allow, None, 100 * SEC);
    assert!(l.sweep_sessions_at(98 * SEC + SEC / 2, -1).is_empty());
}

#[test]
fn sweep_then_record_starts_fresh() {
    let mut l = AccessLogger::new();
    l.record_access_at("ip", "a.com", Action::Allow, None, 0);
    l.sweep_sessions_at(100 * SEC, 5);
    l.record_access_at("ip", "a.com", Action::Allow, None, 101 * SEC);
    let s = l.get_active_sessions();
    assert_eq!(s[0].request_count, 1);
    assert_eq!(s[0].first_access, 101 * SEC);
}

fn stored(domain: &str, last: i128) -> AccessSession {
    AccessSession {
        device_ip: "ip".to_string(),
        target_domain: domain.to_string(),
        tag: None,
        action: Action::Block,
        first_access: 0,
        last_access: last,
        request_count: 4,
    }
}

#[test]
fn combined_logs_are_most_recent_first() {
    let mut l = AccessLogger::new();
    l.record_access_at("ip", "active.com", Action::Allow, None, 50 * SEC);
    let log = l.get_combined_logs(vec![stored("s1", 70 * SEC), stored("s2", 10 * SEC), stored("s3", 50 * SEC)], 10);
    let names: Vec<&str> = log.iter().map(|e| e.session.target_domain.as_str()).collect();
    assert_eq!(names, vec!["s1", "active.com", "s3", "s2"]);
    assert_eq!(log[1].status, LogStatus::Active);
    assert_eq!(log[0].status, LogStatus::Persistent);
}

#[test]
fn combined_logs_respect_the_limit() {
    let l = AccessLogger::new();
    let log = l.get_combined_logs(vec![stored("a", 1), stored("b", 3), stored("c", 2)], 2);
    let names: Vec<&str> = log.iter().map(|e| e.session.target_domain.as_str()).collect();
    assert_eq!(names, vec!["b", "c"]);
    assert!(l.get_combined_logs(vec![], 0).is_empty());
}

#[test]
fn clearing_forgets_sessions() {
    let mut l = AccessLogger::new();
    l.record_access_at("ip", "a.com", Action::Allow, None, 0);
    l.clear_access_logs();
    assert!(l.get_active_sessions().is_empty());
}

#[test]
fn access_log_queries() {
    assert_eq!(
        access_log_query(true, Some(true)),
        "SELECT device_ip, target_domain, tag, action, first_access, last_access, request_count\n                 FROM access_logs WHERE device_ip = ?1 AND tag IS NOT NULL\n                 ORDER BY last_access DESC LIMIT ?2"
    );
    assert_eq!(
        access_log_query(false, None),
        "SELECT device_ip, target_domain, tag, action, first_access, last_access, request_count\n                 FROM access_logs WHERE 1=1\n                 ORDER BY last_access DESC LIMIT ?1"
    );
    assert!(access_log_query(false, Some(false)).contains("WHERE 1=1 AND tag IS NULL\n"));
}

#[test]
fn sessions_from_rows() {
    let s = AccessSession::from_row(
        "ip".to_string(),
        "a.com".to_string(),
        Some("t".to_string()),
        "allow",
        Some("2024-01-01T00:00:00Z".to_string()),
        Some("2024-01-01T09:00:01.5+09:00".to_string()),
        7,
    );
    assert_eq!(s.first_access, 1_704_067_200 * SEC);
    assert_eq!(s.last_access, 1_704_067_201 * SEC + SEC / 2);
    assert_eq!(s.action, Action::Allow);
    assert_eq!(s.request_count, 7);
    let before = now_timestamp();
    let s = AccessSession::from_row("ip".to_string(), "a".to_string(), None, "x", None, Some("garbage".to_string()), 1);
    let after = now_timestamp();
    assert!(before <= s.first_access && s.first_access <= after);
    assert!(before <= s.last_access && s.last_access <= after);
    assert_eq!(s.action, Action::Block);
}

#[test]
fn timestamps_from_parts() {
    assert_eq!(timestamp_from_parts(-1, 500), -SEC + 500);
    assert_eq!(timestamp_from_parts(2, 1_500_000_000), 3 * SEC + SEC / 2);
}

#[test]
fn try_record_access_counts_when_there_is_room() {
    let mut l = AccessLogger::new();
    assert!(l.room_for("ip", "A.com", Action::Allow, None));
    assert!(l.try_record_access("ip", "A.com", Action::Allow, None));
    assert!(l.try_record_access("ip", "a.com", Action::Allow, None));
    let s = l.get_active_sessions();
    assert_eq!(s.len(), 1);
    assert_eq!(s[0].request_count, 2);
}
