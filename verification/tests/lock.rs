use pve_meta_nvidia::lock::{
    after_step, deadline, lock_path, take, tmp_path, write_config, Ended, Take, Tried, Write, DIR,
};

#[test]
fn a_lock_somebody_holds_is_refused_at_once_with_no_wait() {
    let path = lock_path(DIR, 423);
    assert_eq!(path, "/run/lock/lxc/pve-config-423.lock");
    // The boot pass's rule: a guest PVE is holding is left to the next
    // poll rather than waited for.
    let until = deadline(1000, 0);
    assert!(matches!(take(&path, Tried::Held, 1000, until, 0), Take::Busy));
    assert!(matches!(take(&path, Tried::Taken, 1000, until, 0), Take::Taken));
    // With a wait it is tried again until the wait is over.
    let until = deadline(1000, 5000);
    assert!(matches!(take(&path, Tried::Held, 1000, until, 5000), Take::Again(250)));
    assert!(matches!(take(&path, Tried::Held, 5999, until, 5000), Take::Again(250)));
    assert!(matches!(take(&path, Tried::Held, 6000, until, 5000), Take::Busy));
    assert!(matches!(take(&path, Tried::Taken, 6000, until, 5000), Take::Taken));
    assert!(matches!(take(&path, Tried::Held, 1000, deadline(1000, 40), 40), Take::Again(40)));
    assert!(matches!(
        take(&path, Tried::Failed("denied".to_string()), 0, 0, 0),
        Take::Failed(e) if e == "flock /run/lock/lxc/pve-config-423.lock: denied"
    ));
    assert_eq!(deadline(u64::MAX - 1, 7), u64::MAX);
}

fn step(w: Write, ended: Ended) -> Write {
    after_step("/c/423.conf", "/c/423.conf.tmp.7", w, ended)
}

#[test]
fn a_config_is_replaced_through_a_temporary_sibling() {
    assert_eq!(tmp_path("/c/423.conf", 7), "/c/423.conf.tmp.7");
    let w = write_config();
    assert!(matches!(w, Write::Create(0)));
    let w = step(w, Ended::Well);
    assert!(matches!(w, Write::Fill));
    let w = step(w, Ended::Well);
    assert!(matches!(w, Write::Check));
    let w = step(w, Ended::Well);
    assert!(matches!(w, Write::Replace));
    let w = step(w, Ended::Well);
    assert!(matches!(w, Write::Done(Ok(()))));
    // A config that vanished under the pass is not written back, and nothing
    // is left beside it.
    let w = step(Write::Check, Ended::Missing);
    let Write::Abandon(why) = w else {
        panic!("expected to abandon it");
    };
    assert_eq!(why, "/c/423.conf is gone; not writing it back");
    assert!(matches!(
        step(Write::Abandon(why), Ended::Badly("whatever".to_string())),
        Write::Done(Err(e)) if e == "/c/423.conf is gone; not writing it back"
    ));
}

#[test]
fn an_old_sibling_is_removed_twice_at_most() {
    let exists = || Ended::Exists("File exists".to_string());
    let mut w = write_config();
    for n in 0..2 {
        w = step(w, exists());
        assert!(matches!(w, Write::DeleteOld(m) if m == n));
        w = step(w, Ended::Well);
    }
    assert!(matches!(w, Write::Create(2)));
    assert!(matches!(
        step(w, exists()),
        Write::Done(Err(e)) if e == "cannot create /c/423.conf.tmp.7: File exists"
    ));
}

#[test]
fn every_failure_of_a_write_says_what_failed() {
    let bad = || Ended::Badly("I/O".to_string());
    assert!(matches!(
        step(Write::Create(0), bad()),
        Write::Done(Err(e)) if e == "cannot create /c/423.conf.tmp.7: I/O"
    ));
    assert!(matches!(
        step(Write::DeleteOld(0), bad()),
        Write::Done(Err(e)) if e == "cannot delete the old /c/423.conf.tmp.7: I/O"
    ));
    assert!(matches!(
        step(Write::Fill, bad()),
        Write::Abandon(e) if e == "cannot write /c/423.conf.tmp.7: I/O"
    ));
    assert!(matches!(
        step(Write::Replace, bad()),
        Write::Done(Err(e)) if e == "cannot rename /c/423.conf.tmp.7 to /c/423.conf: I/O"
    ));
}
