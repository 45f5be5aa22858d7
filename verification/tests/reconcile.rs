use pve_meta_nvidia::doc;
use pve_meta_nvidia::inventory::{Gpu, Inventory};
use pve_meta_nvidia::ops::reconcile::{
    check_local, headline, report, verdict, Done, Pass, Step, Then, PATIENCE,
};
use pve_meta_nvidia::ops::status;
use pve_meta_nvidia::ops::Ctx;

/// A container somebody configured by hand, with one snapshot.
const CONF: &str = "arch: amd64
cores: 8
features: nesting=1
hostname: llm
memory: 32768
net0: name=eth0,bridge=vmbr0,hwaddr=BC:24:11:00:04:23,ip=dhcp,type=veth
ostype: debian
rootfs: local-zfs:subvol-423-disk-0,size=32G
swap: 512
unprivileged: 1
lxc.cgroup2.devices.allow: c 195:3 rwm
lxc.cgroup2.devices.allow: c 195:255 rwm
lxc.cgroup2.devices.allow: c 505:0 rwm
lxc.cgroup2.devices.allow: c 505:1 rwm
lxc.hook.mount: /usr/share/lxc/hooks/nvidia
lxc.environment: NVIDIA_VISIBLE_DEVICES=GPU-8ddd601a-494f-9489-46c6-d23129ccad16
lxc.environment: NVIDIA_DRIVER_CAPABILITIES=compute,utility

[before-gpu]
arch: amd64
cores: 4
hostname: llm
memory: 8192
ostype: debian
rootfs: local-zfs:subvol-423-disk-0,size=32G
snaptime: 1757000000
unprivileged: 1
";

const UUID0: &str = "GPU-8ddd601a-494f-9489-46c6-d23129ccad16";
const UUID1: &str = "GPU-1f4d0e27-1111-2222-3333-444455556666";

fn card(uuid: &str, minor: u32) -> Gpu {
    Gpu {
        uuid: uuid.into(),
        minor,
        bus: "0000:0a:00.0".into(),
        name: None,
        memory_mib: None,
    }
}

fn inv() -> Inventory {
    Inventory {
        driver: true,
        gpus: vec![card(UUID1, 1), card(UUID0, 3)],
        uvm_major: Some(505),
        char_majors: [195, 505].into_iter().collect(),
        notes: Vec::new(),
    }
}

fn ctx() -> Ctx {
    Ctx::load(Some("jarvis")).unwrap()
}

fn want(uuid: &str) -> doc::Gpu {
    doc::parse(&format!("devices: {{ {uuid}: true }}\n")).unwrap()
}

#[test]
fn a_guest_in_sync_is_only_recorded() {
    let (ctx, inv) = (ctx(), inv());
    let (mut pass, said) = Pass::new(&ctx, &inv, Ok(vec![505]));
    assert_eq!(said, None);
    assert_eq!(pass.lock_wait, PATIENCE);
    assert!(matches!(pass.guest(), Step::Read));
    let w = want(UUID0);
    let Step::Record(true, then) = pass.read(Ok(CONF.to_string()), Some(&w), false) else {
        panic!("expected the record to be told");
    };
    let Step::Remember(505, then) = pass.recorded(423, Ok(()), true, then) else {
        panic!("expected the major to be noted");
    };
    let Step::Done(Ok(done)) = pass.remembered(Ok(()), then) else {
        panic!("expected to be done");
    };
    assert_eq!(done.state(), "in sync");
    assert_eq!(done.describe(423, true), None);
    assert_eq!(report(423, &done, true), [format!("423: in sync ({UUID0})")]);
    assert!(verdict("jarvis", None, Some((423, &done))).is_ok());
    // The major is noted once a pass.
    let Step::Record(true, then) = pass.read(Ok(CONF.to_string()), Some(&w), true) else {
        panic!("expected the record to be told");
    };
    assert!(matches!(
        pass.recorded(424, Ok(()), true, then),
        Step::Done(Ok(Done::InSync(_)))
    ));
}

#[test]
fn a_guest_that_changed_is_written_under_the_lock() {
    let (ctx, inv) = (ctx(), inv());
    let (mut pass, _) = Pass::new(&ctx, &inv, Ok(vec![]));
    pass.lock_wait = 0;
    let w = want(UUID1);
    assert!(matches!(pass.read(Ok(CONF.to_string()), Some(&w), false), Step::Lock(0)));
    assert!(matches!(pass.locked(Ok(true)), Step::ReadLocked));
    let Step::Record(true, then) = pass.read_locked(Ok(CONF.to_string()), Some(&w), false) else {
        panic!("expected the record to be told first");
    };
    let Step::Remember(505, then) = pass.recorded(423, Ok(()), true, then) else {
        panic!("expected the major to be noted");
    };
    let Step::Write(p, text) = pass.remembered(Ok(()), then) else {
        panic!("expected a write");
    };
    assert!(text.contains("c 195:1 rwm"));
    assert!(!text.contains("c 195:3 rwm"));
    let Step::Done(Ok(done)) = pass.written(423, Ok(()), p, &text) else {
        panic!("expected to be done");
    };
    assert_eq!(done.state(), "written");
    assert_eq!(
        done.describe(423, true).unwrap(),
        format!("423: wrote 7 line(s) for {UUID1} (restart the container to apply)")
    );
    assert_eq!(
        done.describe(423, false).unwrap(),
        format!("423: wrote 7 line(s) for {UUID1}")
    );
    // What was written is in sync.
    assert!(matches!(
        pass.read(Ok(text), Some(&w), true),
        Step::Record(true, Then::InSync(_))
    ));
}

#[test]
fn lines_are_removed_before_the_record_is_cleared() {
    let (ctx, inv) = (ctx(), inv());
    let (pass, _) = Pass::new(&ctx, &inv, Ok(vec![505]));
    assert!(matches!(pass.read(Ok(CONF.to_string()), None, true), Step::Lock(PATIENCE)));
    let Step::Write(p, text) = pass.read_locked(Ok(CONF.to_string()), None, true) else {
        panic!("expected a write");
    };
    assert!(!text.contains("nvidia"));
    let Step::Forget(p) = pass.written(423, Ok(()), p, &text) else {
        panic!("expected the record to be cleared");
    };
    let Step::Done(Ok(done)) = pass.forgotten(Ok(()), p) else {
        panic!("expected to be done");
    };
    assert_eq!(done.describe(423, false).unwrap(), "423: removed the managed lines");
    assert_eq!(
        report(423, &done, false),
        [
            "423: the gpu key is gone; removing the managed lines",
            "423: removed the managed lines"
        ]
    );
    // And then there are none.
    assert!(matches!(
        pass.read(Ok(text), None, true),
        Step::Record(false, Then::InSync(_))
    ));
}

#[test]
fn a_guest_that_must_not_be_touched_is_not() {
    let (ctx, mut inv) = (ctx(), inv());
    let w = want(UUID1);
    {
        let (pass, _) = Pass::new(&ctx, &inv, Ok(vec![]));
        let locked = format!("lock: backup\n{CONF}");
        for step in [
            pass.read(Ok(locked.clone()), Some(&w), true),
            pass.read_locked(Ok(locked), Some(&w), true),
        ] {
            let Step::Done(Ok(done)) = step else {
                panic!("expected to leave it alone");
            };
            assert_eq!(done, Done::Locked("backup".to_string()));
            assert_eq!(done.state(), "locked");
            assert_eq!(done.describe(7, false).unwrap(), "7: config locked (backup); waiting");
            assert_eq!(
                verdict("jarvis", None, Some((7, &done))).unwrap_err(),
                "7: the config is locked (backup)"
            );
        }
        let Step::Done(Ok(busy)) = pass.locked(Ok(false)) else {
            panic!("expected to leave it alone");
        };
        assert_eq!(busy, Done::Locked("another process holds its config lock".to_string()));
        assert!(matches!(
            pass.read(Ok(CONF.to_string()), None, false),
            Step::Done(Ok(Done::Unmanaged))
        ));
        let Step::Done(Ok(refused)) = pass.read(Ok("arch: amd64\n".to_string()), Some(&w), false)
        else {
            panic!("expected a refusal");
        };
        assert_eq!(refused.state(), "refused");
        assert_eq!(
            report(7, &refused, false),
            ["7: refused: privileged container: LXC's nvidia hook only works in unprivileged ones"]
        );
        assert_eq!(
            verdict("jarvis", None, Some((7, &refused))).unwrap_err(),
            "7: privileged container: LXC's nvidia hook only works in unprivileged ones"
        );
    }
    inv.driver = false;
    let (pass, _) = Pass::new(&ctx, &inv, Ok(vec![]));
    assert!(matches!(pass.guest(), Step::Done(Ok(Done::NoDriver))));
    assert_eq!(Done::NoDriver.state(), "no driver");
    assert_eq!(Done::Unmanaged.state(), "no gpu key");
    assert!(report(7, &Done::NoDriver, true).is_empty());
}

#[test]
fn every_error_of_a_reconcile_is_that_guests() {
    let (ctx, inv) = (ctx(), inv());
    let (mut pass, said) = Pass::new(&ctx, &inv, Err("cannot read x".to_string()));
    assert_eq!(
        said.unwrap(),
        "cannot read x; the majors written before are not known"
    );
    let why = || "why".to_string();
    let w = want(UUID1);
    let error = |s: Step| match s {
        Step::Done(Err(e)) => e,
        other => panic!("expected an error, got {other:?}"),
    };
    assert_eq!(error(pass.read(Err(why()), Some(&w), true)), "why");
    assert_eq!(error(pass.read_locked(Err(why()), Some(&w), true)), "why");
    assert_eq!(error(pass.locked(Err(why()))), "why");
    let Step::Record(true, then) = pass.read_locked(Ok(CONF.to_string()), Some(&w), true) else {
        panic!("expected the record to be told");
    };
    assert_eq!(error(pass.recorded(9, Err(why()), true, then)), "guest 9: why");
    let Step::Record(true, then) = pass.read_locked(Ok(CONF.to_string()), Some(&w), true) else {
        panic!("expected the record to be told");
    };
    assert_eq!(error(pass.remembered(Err(why()), then)), "why");
    assert!(!pass.noted_uvm);
    let Step::Write(p, text) = pass.read_locked(Ok(CONF.to_string()), None, true) else {
        panic!("expected a write");
    };
    assert_eq!(error(pass.written(9, Err(why()), p, &text)), "guest 9: why");
    let Step::Write(p, _) = pass.read_locked(Ok(CONF.to_string()), None, true) else {
        panic!("expected a write");
    };
    assert_eq!(error(pass.forgotten(Err(why()), p)), "why");
    let (step, none) = pass.one(Err(why()));
    assert_eq!(error(step), "why");
    assert!(none.is_none());
    assert!(matches!(pass.one(Ok(None)).0, Step::Read));
}

#[test]
fn the_command_ends_as_it_should() {
    let mut inv = inv();
    assert_eq!(headline("n", None, &inv), None);
    assert_eq!(
        headline("n", Some("e"), &inv).unwrap(),
        "the GPUs of n could not be read: e; nothing is reconciled"
    );
    assert_eq!(
        status::headline("n", Some("e"), &inv).unwrap(),
        "the GPUs of n could not be read: e"
    );
    assert_eq!(status::headline("n", None, &inv), None);
    inv.driver = false;
    assert_eq!(
        headline("n", None, &inv).unwrap(),
        "no NVIDIA driver on n (no /proc/driver/nvidia); nothing is reconciled"
    );
    assert_eq!(
        status::headline("n", None, &inv).unwrap(),
        "no NVIDIA driver on n (no /proc/driver/nvidia); no guest is touched"
    );
    assert!(verdict("n", None, None).is_ok());
    assert_eq!(
        verdict("n", Some("e"), Some((1, &Done::Refused("x".to_string())))).unwrap_err(),
        "the GPUs of n could not be read: e"
    );
    assert!(check_local("n", 5, &[4, 5]).is_ok());
    assert_eq!(
        check_local("n", 6, &[4, 5]).unwrap_err(),
        "6 is not a container of this node (n)"
    );
}

#[test]
fn a_guest_with_rules_left_stays_in_the_record() {
    // The key is removed while nvidia-uvm is out: its rules are left alone, so
    // the guest still carries lines this node wrote.
    let (ctx, mut inv) = (ctx(), inv());
    inv.uvm_major = None;
    inv.char_majors.remove(&505);
    {
        let (pass, _) = Pass::new(&ctx, &inv, Ok(vec![505]));
        let Step::Record(true, then) = pass.read_locked(Ok(CONF.to_string()), None, true) else {
            panic!("expected the record to be kept");
        };
        let Step::Write(p, text) = pass.recorded(423, Ok(()), true, then) else {
            panic!("expected a write");
        };
        assert!(p.desired.is_empty());
        assert!(!text.contains("c 195:3 rwm"));
        assert!(text.contains("c 505:0 rwm"));
        let Step::Done(Ok(done)) = pass.written(423, Ok(()), p, &text) else {
            panic!("expected to be done without forgetting the guest");
        };
        assert_eq!(done.state(), "written");
        // As long as they are there, the guest stays recorded.
        let Step::Record(true, then) = pass.read(Ok(text.clone()), None, true) else {
            panic!("expected the record to be kept");
        };
        assert!(matches!(
            pass.recorded(423, Ok(()), true, then),
            Step::Done(Ok(Done::InSync(_)))
        ));
        // Without them there is nothing to remember.
        let bare = text.replace("lxc.cgroup2.devices.allow: c 505:0 rwm\n", "");
        let bare = bare.replace("lxc.cgroup2.devices.allow: c 505:1 rwm\n", "");
        assert!(matches!(pass.read(Ok(bare), None, true), Step::Record(false, _)));
    }
    // Once the module is back they go, and the guest with them.
    let text = "unprivileged: 1\nlxc.cgroup2.devices.allow: c 505:0 rwm\n".to_string();
    inv.uvm_major = Some(508);
    inv.char_majors.insert(508);
    let (pass, _) = Pass::new(&ctx, &inv, Ok(vec![505]));
    let Step::Write(p, new) = pass.read_locked(Ok(text.clone()), None, true) else {
        panic!("expected a write");
    };
    assert_eq!(new, "unprivileged: 1\n");
    assert!(matches!(pass.written(423, Ok(()), p, &new), Step::Forget(_)));
    // A rule for a major another driver holds now is not this node's.
    let mut taken = inv.copy();
    taken.uvm_major = None;
    taken.char_majors.insert(505);
    let (pass, _) = Pass::new(&ctx, &taken, Ok(vec![505]));
    assert!(matches!(pass.read(Ok(text), None, true), Step::Record(false, _)));
}

#[test]
fn every_guest_is_walked_and_one_error_is_one_guests() {
    let (ctx, inv) = (ctx(), inv());
    let (pass, _) = Pass::new(&ctx, &inv, Ok(vec![]));
    assert_eq!(pass.all(vec![1], Err("denied".to_string())).unwrap_err(), "denied");
    assert!(pass.all(vec![], Ok(())).unwrap().next().is_none());
    let mut walk = pass.all(vec![7, 8, 9], Ok(())).unwrap();
    assert_eq!(walk.next(), Some(7));
    walk.take(Ok(Done::Unmanaged));
    assert_eq!(walk.next(), Some(8));
    walk.take(Err("bad".to_string()));
    assert_eq!(walk.next(), Some(9));
    walk.take(Ok(Done::NoDriver));
    assert_eq!(walk.next(), None);
    assert_eq!(
        walk.finish(),
        [
            (7, Ok(Done::Unmanaged)),
            (8, Err("bad".to_string())),
            (9, Ok(Done::NoDriver))
        ]
    );
}
