use chat_memory::session::{resolve_session_key, IdentityError, SessionKey};

#[test]
fn key_from_both_readings() {
    assert_eq!(
        SessionKey::from_readings(Some(1700000000), Some(4242)),
        Ok(SessionKey { epoch: 1700000000, scope: 4242 })
    );
    assert_eq!(
        SessionKey::from_readings(Some(-3), Some(1)),
        Ok(SessionKey { epoch: -3, scope: 1 })
    );
    assert_eq!(
        SessionKey::from_readings(Some(0), Some(i32::MAX)),
        Ok(SessionKey { epoch: 0, scope: i32::MAX })
    );
}

#[test]
fn key_without_boot_time_fails() {
    assert_eq!(SessionKey::from_readings(None, Some(4242)), Err(IdentityError::BootTimeUnknown));
    assert_eq!(SessionKey::from_readings(None, None), Err(IdentityError::BootTimeUnknown));
    assert_eq!(SessionKey::from_readings(None, Some(0)), Err(IdentityError::BootTimeUnknown));
}

#[test]
fn key_without_parent_fails() {
    assert_eq!(SessionKey::from_readings(Some(5), None), Err(IdentityError::ParentUnknown));
    assert_eq!(SessionKey::from_readings(Some(5), Some(0)), Err(IdentityError::ParentUnknown));
    assert_eq!(SessionKey::from_readings(Some(5), Some(-7)), Err(IdentityError::ParentUnknown));
}

#[test]
fn record_location_names_epoch_and_scope() {
    let key = SessionKey { epoch: 1700000000, scope: 4242 };
    assert_eq!(
        key.record_location(),
        vec![
            ".chatgpt".to_string(),
            "1700000000".to_string(),
            "4242".to_string(),
            "chatlog.json".to_string(),
        ]
    );
    let key = SessionKey { epoch: i64::MIN, scope: 1 };
    assert_eq!(key.record_location()[1], "-9223372036854775808");
    assert_eq!(key.record_location()[2], "1");
}

#[test]
fn record_location_is_the_same_for_the_same_key() {
    let a = SessionKey { epoch: 99, scope: 12 };
    let b = SessionKey { epoch: 99, scope: 12 };
    assert_eq!(a.record_location(), b.record_location());
    assert_eq!(a.record_location(), a.record_location());
}

#[test]
fn record_location_differs_between_sessions() {
    let keys = [
        SessionKey { epoch: 1, scope: 23 },
        SessionKey { epoch: 12, scope: 3 },
        SessionKey { epoch: 123, scope: 1 },
        SessionKey { epoch: 1, scope: 2 },
        SessionKey { epoch: -1, scope: 2 },
        SessionKey { epoch: 1, scope: 3 },
        SessionKey { epoch: 2, scope: 1 },
    ];
    for (i, a) in keys.iter().enumerate() {
        for (j, b) in keys.iter().enumerate() {
            assert_eq!(a.record_location() == b.record_location(), i == j);
        }
    }
}

#[test]
fn record_location_names_are_safe_in_a_path() {
    for key in [
        SessionKey { epoch: 0, scope: 1 },
        SessionKey { epoch: i64::MAX, scope: i32::MAX },
        SessionKey { epoch: i64::MIN, scope: i32::MIN },
    ] {
        let names = key.record_location();
        assert_eq!(names.len(), 4);
        for name in &names[1..3] {
            assert!(!name.is_empty());
            assert!(name.chars().all(|c| c.is_ascii_digit() || c == '-'));
        }
    }
}

#[test]
fn resolve_without_boot_time_fails() {
    assert_eq!(resolve_session_key(None), Err(IdentityError::BootTimeUnknown));
}

#[test]
fn resolve_asks_for_the_parent_process() {
    let parent = rustix::process::getppid().map(|pid| pid.as_raw_nonzero().get());
    let resolved = resolve_session_key(Some(1700000000));
    match parent {
        Some(scope) => {
            assert!(scope > 0);
            assert_eq!(resolved, Ok(SessionKey { epoch: 1700000000, scope }));
        }
        None => assert_eq!(resolved, Err(IdentityError::ParentUnknown)),
    }
}

#[test]
fn resolve_is_stable_within_one_process() {
    assert_eq!(resolve_session_key(Some(42)), resolve_session_key(Some(42)));
    let a = resolve_session_key(Some(1));
    let b = resolve_session_key(Some(2));
    match (a, b) {
        (Ok(a), Ok(b)) => {
            assert_eq!(a.scope, b.scope);
            assert_eq!((a.epoch, b.epoch), (1, 2));
        }
        (a, b) => assert_eq!((a, b), (Err(IdentityError::ParentUnknown), Err(IdentityError::ParentUnknown))),
    }
}
