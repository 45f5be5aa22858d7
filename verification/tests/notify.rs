use pve_meta_nvidia::notify::{address, Address, Notifier};

#[test]
fn a_socket_that_does_not_work_is_reported_once() {
    let mut n = Notifier::new();
    assert_eq!(
        n.note_failure("/run/systemd/notify", "no such socket").as_deref(),
        Some("cannot notify systemd through /run/systemd/notify: no such socket")
    );
    assert!(n.reported);
    // Every further failure is silent: this is called around every
    // bounded step, so a stale socket is one line, not one per command.
    for _ in 0..100 {
        assert_eq!(n.note_failure("/run/systemd/notify", "no such socket"), None);
    }
    assert!(n.reported);
    // A socket that works again is a fresh state, and the next failure
    // is said once more.
    assert_eq!(n.sent("/run/systemd/notify", Some(Ok(()))), None);
    assert!(!n.reported);
    assert!(n.sent("/run/systemd/notify", Some(Err("again".to_string()))).is_some());
    assert!(n.reported);
}

#[test]
fn a_ping_without_a_socket_does_nothing_and_says_nothing() {
    let mut n = Notifier::new();
    let before = n.pings();
    assert_eq!(n.alive(), "WATCHDOG=1\n");
    assert_eq!(n.sent("", None), None);
    assert_eq!(n.pings(), before + 1);
    assert!(!n.reported);
    assert_eq!(n.ready(), "READY=1\n");
    n.pings = u64::MAX;
    n.alive();
    assert_eq!(n.pings(), 0);
}

#[test]
fn an_at_sign_is_the_abstract_namespace() {
    assert!(matches!(address("@/org/x"), Address::Abstract(n) if n == "/org/x"));
    assert!(matches!(address("/run/x@y"), Address::Path(p) if p == "/run/x@y"));
}
