use netbridge::handles::HandleAllocator;
use netbridge::session::{ClientBuild, SessionManager};

fn pair(name: &str, value: &str) -> (String, String) {
    (String::from(name), String::from(value))
}

#[test]
fn create_session_twice_returns_same_handle() {
    // The same session ID twice: the same handle both times, and cookies
    // are not reset between the calls.
    let mut sessions = SessionManager::new();
    let mut alloc = HandleAllocator::new();
    let h1 = sessions
        .create_session(
            &mut alloc,
            String::from("s1"),
            String::from("chrome_142"),
            None,
            ClientBuild::Ready,
        )
        .unwrap();
    assert!(sessions.record_cookies(&String::from("s1"), vec![pair("sid", "abc")]));
    let h2 = sessions
        .create_session(
            &mut alloc,
            String::from("s1"),
            String::from("firefox_133"),
            Some(String::from("http://proxy:8080")),
            ClientBuild::Ready,
        )
        .unwrap();
    assert_eq!(h1, h2);
    let s = sessions.get_session(&String::from("s1")).unwrap();
    // Reuse mutates nothing: original configuration and cookies stand.
    assert_eq!(s.profile, "chrome_142");
    assert!(s.proxy.is_none());
    assert_eq!(s.cookies, vec![pair("sid", "abc")]);
}

#[test]
fn drop_session_unknown_is_noop() {
    let mut sessions = SessionManager::new();
    // Never-created ID: a silent no-op, not an error.
    sessions.drop_session(&String::from("ghost"));
    let mut alloc = HandleAllocator::new();
    let _ = sessions
        .create_session(
            &mut alloc,
            String::from("s1"),
            String::from("chrome_142"),
            None,
            ClientBuild::Ready,
        )
        .unwrap();
    sessions.drop_session(&String::from("s1"));
    assert!(sessions.get_session(&String::from("s1")).is_none());
    // Already dropped: again a silent no-op.
    sessions.drop_session(&String::from("s1"));
    assert!(sessions.get_session(&String::from("s1")).is_none());
}

#[test]
fn clear_session_preserves_handle_and_client() {
    let mut sessions = SessionManager::new();
    let mut alloc = HandleAllocator::new();
    let _ = sessions
        .create_session(
            &mut alloc,
            String::from("s1"),
            String::from("chrome_142"),
            Some(String::from("http://proxy:1")),
            ClientBuild::Ready,
        )
        .unwrap();
    assert!(sessions.record_cookies(
        &String::from("s1"),
        vec![pair("sid", "abc"), pair("theme", "dark")],
    ));
    let (handle_before, client_before) = {
        let s = sessions.get_session(&String::from("s1")).unwrap();
        assert_eq!(s.cookies.len(), 2);
        (s.handle, s.client)
    };
    sessions.clear_session(&String::from("s1")).unwrap();
    let s = sessions.get_session(&String::from("s1")).unwrap();
    // Same handle, same underlying client identity, same configuration —
    // only the cookie store is empty now.
    assert_eq!(s.handle, handle_before);
    assert_eq!(s.client, client_before);
    assert_eq!(s.profile, "chrome_142");
    assert_eq!(s.proxy, Some(String::from("http://proxy:1")));
    assert!(s.cookies.is_empty());
}

#[test]
fn clear_session_unknown_is_not_found() {
    let mut sessions = SessionManager::new();
    let err = sessions.clear_session(&String::from("nope")).unwrap_err();
    assert!(err.is_not_found());
}

#[test]
fn failed_client_build_is_configuration_error() {
    let mut sessions = SessionManager::new();
    let mut alloc = HandleAllocator::new();
    let err = sessions
        .create_session(
            &mut alloc,
            String::from("s1"),
            String::from("chrome_142"),
            Some(String::from("not a proxy")),
            ClientBuild::Failed(String::from("Failed to create proxy")),
        )
        .unwrap_err();
    assert_eq!(err.message(), "configuration error: Failed to create proxy");
    // Nothing registered, nothing allocated.
    assert!(sessions.get_session(&String::from("s1")).is_none());
    assert_eq!(alloc.counter, 1);
}

#[test]
fn sessions_are_isolated() {
    let mut sessions = SessionManager::new();
    let mut alloc = HandleAllocator::new();
    let h1 = sessions
        .create_session(
            &mut alloc,
            String::from("s1"),
            String::from("chrome_142"),
            None,
            ClientBuild::Ready,
        )
        .unwrap();
    let h2 = sessions
        .create_session(
            &mut alloc,
            String::from("s2"),
            String::from("safari_18"),
            None,
            ClientBuild::Ready,
        )
        .unwrap();
    assert_ne!(h1, h2);
    assert!(sessions.record_cookies(&String::from("s1"), vec![pair("a", "1")]));
    sessions.clear_session(&String::from("s1")).unwrap();
    sessions.drop_session(&String::from("s1"));
    let s2 = sessions.get_session(&String::from("s2")).unwrap();
    assert_eq!(s2.profile, "safari_18");
    assert_eq!(s2.handle, h2);
}

#[test]
fn recorded_cookies_overwrite_by_name() {
    let mut sessions = SessionManager::new();
    let mut alloc = HandleAllocator::new();
    let _ = sessions
        .create_session(
            &mut alloc,
            String::from("s1"),
            String::from("chrome_142"),
            None,
            ClientBuild::Ready,
        )
        .unwrap();
    assert!(sessions.record_cookies(&String::from("s1"), vec![pair("sid", "old")]));
    assert!(sessions.record_cookies(
        &String::from("s1"),
        vec![pair("sid", "new"), pair("lang", "en")],
    ));
    let s = sessions.get_session(&String::from("s1")).unwrap();
    assert_eq!(s.cookies, vec![pair("sid", "new"), pair("lang", "en")]);
    // Recording under a dropped ID takes nothing and is not an error.
    sessions.drop_session(&String::from("s1"));
    assert!(!sessions.record_cookies(&String::from("s1"), vec![pair("x", "y")]));
}
