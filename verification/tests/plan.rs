use pve_meta_nvidia::conf;
use pve_meta_nvidia::doc;
use pve_meta_nvidia::inventory::{Gpu as Card, Inventory};
use pve_meta_nvidia::plan::{plan, Outcome, Plan};

/// A container somebody configured by hand, with one snapshot.
const CONF: &str = "arch: amd64
cores: 8
features: nesting=1
hostname: llm
memory: 32768
net0: name=eth0,bridge=vmbr0,hwaddr=BC:24:11:00:04:23,ip=dhcp,type=veth
ostype: debian
rootfs: local-zfs:subvol-423-disk-0,size=32G
swap: 512
unprivileged: 1
lxc.cgroup2.devices.allow: c 195:3 rwm
lxc.cgroup2.devices.allow: c 195:255 rwm
lxc.cgroup2.devices.allow: c 505:0 rwm
lxc.cgroup2.devices.allow: c 505:1 rwm
lxc.hook.mount: /usr/share/lxc/hooks/nvidia
lxc.environment: NVIDIA_VISIBLE_DEVICES=GPU-8ddd601a-494f-9489-46c6-d23129ccad16
lxc.environment: NVIDIA_DRIVER_CAPABILITIES=compute,utility

[before-gpu]
arch: amd64
cores: 4
hostname: llm
memory: 8192
ostype: debian
rootfs: local-zfs:subvol-423-disk-0,size=32G
snaptime: 1757000000
unprivileged: 1
";

const UUID0: &str = "GPU-8ddd601a-494f-9489-46c6-d23129ccad16";
const UUID1: &str = "GPU-1f4d0e27-1111-2222-3333-444455556666";

fn inv() -> Inventory {
    Inventory {
        driver: true,
        gpus: vec![
            Card {
                uuid: UUID1.into(),
                minor: 1,
                bus: "0000:0b:00.0".into(),
                name: Some("Tesla T10".into()),
                memory_mib: Some(16384),
            },
            Card {
                uuid: UUID0.into(),
                minor: 3,
                bus: "0000:0a:00.0".into(),
                name: Some("Tesla T10".into()),
                memory_mib: Some(16384),
            },
        ],
        uvm_major: Some(505),
        char_majors: [1, 195, 505, 506].into_iter().collect(),
        notes: Vec::new(),
    }
}

fn plan_of(text: &str, yaml: &str) -> Plan {
    let want = doc::parse(yaml).unwrap();
    match plan(text, Some(&want), &inv(), &[], false) {
        Outcome::Plan(p) => p,
        other => panic!("expected a plan, got {other:?}"),
    }
}

#[test]
fn a_guest_without_the_key_is_never_touched() {
    assert_eq!(plan(CONF, None, &inv(), &[], false), Outcome::Unmanaged);
}

#[test]
fn a_removed_key_removes_the_lines() {
    let Outcome::Plan(p) = plan(CONF, None, &inv(), &[], true) else {
        panic!("expected a plan");
    };
    assert!(p.desired.is_empty());
    assert_eq!(p.current.len(), 7);
    assert!(p.changed());
}

#[test]
fn a_node_without_a_driver_does_nothing_to_anyone() {
    let mut inv = inv();
    inv.driver = false;
    inv.gpus.clear();
    inv.uvm_major = None;
    let want = doc::parse(&format!("devices: {{ {UUID0}: true }}\n")).unwrap();
    assert_eq!(
        plan(CONF, Some(&want), &inv, &[505], true),
        Outcome::NoDriver
    );
    assert_eq!(plan(CONF, None, &inv, &[505], true), Outcome::NoDriver);
    // The same for an inventory nobody ever filled in.
    let empty = Inventory::default();
    assert_eq!(
        plan(CONF, Some(&want), &empty, &[], true),
        Outcome::NoDriver
    );
}

#[test]
fn the_hand_configured_container_is_already_in_sync() {
    let p = plan_of(CONF, &format!("devices: {{ {UUID0}: true }}\n"));
    assert!(!p.changed());
    assert_eq!(p.gpus, [UUID0]);
    assert!(p.notes.is_empty());
}

#[test]
fn selecting_nothing_removes_the_lines() {
    let p = plan_of(CONF, &format!("devices: {{ {UUID0}: false }}\n"));
    assert!(p.desired.is_empty());
    assert!(p.changed());
    assert!(p.gpus.is_empty());
}

#[test]
fn a_uuid_of_another_node_is_skipped() {
    let p = plan_of(CONF, "devices: { GPU-abc123: true }\n");
    assert!(p.desired.is_empty());
    assert_eq!(p.notes.len(), 1);
    assert!(p.notes[0].contains("not a GPU of this node"));
    // The other card of this node is still attached.
    let p = plan_of(
        CONF,
        &format!("devices: {{ GPU-abc123: true, {UUID1}: true }}\n"),
    );
    assert_eq!(p.gpus, [UUID1]);
    assert!(p
        .desired
        .contains(&"lxc.cgroup2.devices.allow: c 195:1 rwm".to_string()));
}

#[test]
fn gpus_are_written_in_minor_order_whatever_the_document_says() {
    let p = plan_of(
        CONF,
        &format!("devices: {{ {UUID0}: true, {UUID1}: true }}\n"),
    );
    assert_eq!(p.gpus, [UUID1, UUID0]);
    assert!(p
        .desired
        .iter()
        .any(|l| l == &format!("lxc.environment: NVIDIA_VISIBLE_DEVICES={UUID1},{UUID0}")));
}

#[test]
fn a_privileged_container_is_refused_whole() {
    let text = CONF.replace("unprivileged: 1\n", "");
    match plan(
        &text,
        Some(&doc::parse(&format!("devices: {{ {UUID0}: true }}\n")).unwrap()),
        &inv(),
        &[],
        true,
    ) {
        Outcome::Refused(why) => assert!(why.contains("privileged")),
        other => panic!("expected a refusal, got {other:?}"),
    }
}

#[test]
fn a_device_passthrough_of_the_same_card_is_refused_whole() {
    let text = CONF.replace("arch: amd64\n", "arch: amd64\ndev0: /dev/nvidia0\n");
    match plan(
        &text,
        Some(&doc::parse(&format!("devices: {{ {UUID0}: true }}\n")).unwrap()),
        &inv(),
        &[],
        true,
    ) {
        Outcome::Refused(why) => {
            assert!(why.contains("dev0"));
            assert!(why.contains("--delete dev0"));
        }
        other => panic!("expected a refusal, got {other:?}"),
    }
}

#[test]
fn without_nvidia_uvm_the_rules_already_there_are_left_alone() {
    // The boot case: the driver is up, nothing has opened /dev/nvidia-uvm
    // yet, and last boot's UVM rule is in the config. It stays, and the
    // pass writes no UVM rule of its own -- the alternative is stripping
    // the rule the container needs and never putting it back.
    let mut inv = inv();
    inv.uvm_major = None;
    inv.char_majors.remove(&505);
    let want = doc::parse(&format!("devices: {{ {UUID0}: true }}\n")).unwrap();
    let Outcome::Plan(p) = plan(CONF, Some(&want), &inv, &[505], true) else {
        panic!("expected a plan");
    };
    assert!(p.notes.iter().any(|n| n.contains("nvidia-uvm")));
    assert!(!p.desired.iter().any(|l| l.contains("505")));
    assert!(!p.current.iter().any(|l| l.contains("505")));
    assert!(!p.changed());
    assert!(conf::splice(CONF, &p.desired, &p.owned).contains("c 505:0 rwm"));
}

#[test]
fn a_major_that_belongs_to_something_else_now_is_named_not_deleted() {
    // 508 was this node's last boot; today /proc/devices has it for
    // something else. The rule stays and the operator is told, instead of
    // it sitting in the config for ever with nobody able to see why.
    let mut inv = inv();
    inv.uvm_major = Some(510);
    inv.char_majors.insert(508);
    inv.char_majors.insert(510);
    let text = CONF.replace("c 505:0 rwm", "c 508:0 rwm");
    let want = doc::parse(&format!("devices: {{ {UUID0}: true }}\n")).unwrap();
    let Outcome::Plan(p) = plan(&text, Some(&want), &inv, &[508, 505], true) else {
        panic!("expected a plan");
    };
    assert!(
        p.notes.iter().any(|n| n.contains("major 508")
            && n.contains("another device")
            && n.contains("by hand")),
        "{:?}",
        p.notes
    );
    let out = conf::splice(&text, &p.desired, &p.owned);
    assert!(out.contains("c 508:0 rwm"), "the rule is left alone");
}

#[test]
fn a_remembered_major_is_replaced_and_a_strangers_rule_is_not() {
    let mut inv = inv();
    inv.uvm_major = Some(508);
    inv.char_majors.remove(&505);
    inv.char_majors.insert(508);
    let text = CONF.replace(
        "lxc.cgroup2.devices.allow: c 195:3 rwm\n",
        "lxc.cgroup2.devices.allow: c 195:3 rwm\nlxc.cgroup2.devices.allow: c 226:0 rwm\n",
    );
    let want = doc::parse(&format!("devices: {{ {UUID0}: true }}\n")).unwrap();
    let Outcome::Plan(p) = plan(&text, Some(&want), &inv, &[505], true) else {
        panic!("expected a plan");
    };
    assert!(p.changed());
    let out = conf::splice(&text, &p.desired, &p.owned);
    // Last boot's rule replaced, the drm rule untouched.
    assert!(!out.contains("c 505:0 rwm"));
    assert!(out.contains("c 508:0 rwm"));
    assert!(out.contains("c 226:0 rwm"));
}

#[test]
fn a_capability_list_that_is_all_off_is_noted() {
    let p = plan_of(
        CONF,
        &format!("devices: {{ {UUID0}: true }}\ncapabilities: {{ compute: false }}\n"),
    );
    assert_eq!(
        p.notes,
        ["no driver capability is on; the hook falls back to utility"]
    );
    assert!(!p.desired.iter().any(|l| l.contains("CAPABILITIES")));
}

#[test]
fn a_written_plan_is_settled() {
    let yaml = format!(
        "devices: {{ {UUID1}: true, {UUID0}: 1 }}\ncapabilities: {{ graphics: true }}\nrequire_cuda: 12.8\n"
    );
    let p = plan_of(CONF, &yaml);
    assert!(p.changed());
    let text = conf::splice(CONF, &p.desired, &p.owned);
    let q = plan_of(&text, &yaml);
    assert!(!q.changed());
    assert_eq!(q.current, p.desired);
    assert_eq!(q.desired, p.desired);
    assert_eq!(q.notes, p.notes);
    assert_eq!(conf::splice(&text, &q.desired, &q.owned), text);
    assert_eq!(
        p.desired,
        [
            "lxc.cgroup2.devices.allow: c 195:1 rwm".to_string(),
            "lxc.cgroup2.devices.allow: c 195:3 rwm".to_string(),
            "lxc.cgroup2.devices.allow: c 195:254 rwm".to_string(),
            "lxc.cgroup2.devices.allow: c 195:255 rwm".to_string(),
            "lxc.cgroup2.devices.allow: c 505:0 rwm".to_string(),
            "lxc.cgroup2.devices.allow: c 505:1 rwm".to_string(),
            "lxc.hook.mount: /usr/share/lxc/hooks/nvidia".to_string(),
            format!("lxc.environment: NVIDIA_VISIBLE_DEVICES={UUID1},{UUID0}"),
            "lxc.environment: NVIDIA_DRIVER_CAPABILITIES=graphics".to_string(),
            "lxc.environment: NVIDIA_REQUIRE_CUDA=cuda>=12.8".to_string(),
        ]
    );
}

#[test]
fn a_major_nobody_holds_belongs_to_no_other_device() {
    let mut inv = inv();
    inv.uvm_major = None;
    inv.char_majors = [195].into_iter().collect();
    let text = "unprivileged: 1\nlxc.cgroup2.devices.allow: c 505:0 rwm\n";
    let want = doc::parse(&format!("devices: {{ {UUID0}: true }}\n")).unwrap();
    let Outcome::Plan(p) = plan(text, Some(&want), &inv, &[505], true) else {
        panic!("expected a plan");
    };
    assert_eq!(
        p.notes,
        ["nvidia-uvm is not loaded; writing no UVM rule and leaving any already there alone"]
    );
    // Somebody else's driver holds it now, module or no module.
    inv.char_majors.insert(505);
    let Outcome::Plan(p) = plan(text, Some(&want), &inv, &[505], true) else {
        panic!("expected a plan");
    };
    assert_eq!(p.notes.len(), 2);
    assert!(p.notes[1].starts_with("the rule for major 505 was written by an earlier boot"));
    // And a rule that is not there is not spoken of.
    let Outcome::Plan(p) = plan("unprivileged: 1\n", Some(&want), &inv, &[505], true) else {
        panic!("expected a plan");
    };
    assert_eq!(p.notes.len(), 1);
}
