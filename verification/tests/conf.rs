use std::collections::BTreeSet;

use pve_meta_nvidia::conf::{
    allow_majors, hostname, is_managed, is_unprivileged, managed_lines, nvidia_dev_entries,
    parse_allow, render, splice, split_line, split_sections, value_of, Device, Owned, ALLOW,
    HOOK_KEY,
};
use pve_meta_nvidia::inventory::Gpu;
use pve_meta_nvidia::HOOK;

/// A container somebody configured by hand, with one snapshot.
const CONF: &str = "arch: amd64
cores: 8
features: nesting=1
hostname: llm
memory: 32768
net0: name=eth0,bridge=vmbr0,hwaddr=BC:24:11:00:04:23,ip=dhcp,type=veth
ostype: debian
rootfs: local-zfs:subvol-423-disk-0,size=32G
swap: 512
unprivileged: 1
lxc.cgroup2.devices.allow: c 195:3 rwm
lxc.cgroup2.devices.allow: c 195:255 rwm
lxc.cgroup2.devices.allow: c 505:0 rwm
lxc.cgroup2.devices.allow: c 505:1 rwm
lxc.hook.mount: /usr/share/lxc/hooks/nvidia
lxc.environment: NVIDIA_VISIBLE_DEVICES=GPU-8ddd601a-494f-9489-46c6-d23129ccad16
lxc.environment: NVIDIA_DRIVER_CAPABILITIES=compute,utility

[before-gpu]
arch: amd64
cores: 4
hostname: llm
memory: 8192
ostype: debian
rootfs: local-zfs:subvol-423-disk-0,size=32G
snaptime: 1757000000
unprivileged: 1
";

/// The majors a plain node has: 195 and the current UVM one, never the
/// ones this node used in an earlier boot.
fn live() -> BTreeSet<u32> {
    [1, 4, 5, 10, 13, 195, 234, 506].into_iter().collect()
}

fn cards() -> Vec<Gpu> {
    vec![
        Gpu {
            uuid: "GPU-8ddd601a-494f-9489-46c6-d23129ccad16".into(),
            minor: 3,
            bus: "0000:0a:00.0".into(),
            name: Some("Tesla T10".into()),
            memory_mib: Some(16384),
        },
        Gpu {
            uuid: "GPU-1f4d0e27-1111-2222-3333-444455556666".into(),
            minor: 1,
            bus: "0000:0b:00.0".into(),
            name: Some("Tesla T10".into()),
            memory_mib: Some(16384),
        },
    ]
}

#[test]
fn sections_are_split_at_the_first_header() {
    let (main, rest) = split_sections(CONF);
    assert!(main.contains("hostname: llm"));
    assert!(!main.contains("[before-gpu]"));
    assert!(rest.starts_with("[before-gpu]"));
    assert_eq!(split_sections("a: 1\n").1, "");
    assert_eq!(split_sections("[snap]\na: 1\n"), ("", "[snap]\na: 1\n"));
    // A file written with CRLF keeps its sections apart all the same.
    let (main, rest) = split_sections("arch: amd64\r\n\r\n[snap]\r\narch: amd64\r\n");
    assert_eq!(main, "arch: amd64\r\n\r\n");
    assert!(rest.starts_with("[snap]"));
}

#[test]
fn a_line_is_read_the_way_pve_reads_it() {
    assert_eq!(split_line("hostname: llm"), Some(("hostname", "llm")));
    assert_eq!(
        split_line("lxc.hook.mount: /usr/share/lxc/hooks/nvidia"),
        Some((HOOK_KEY, HOOK))
    );
    // The `=` spelling, which PVE accepts for raw lxc keys.
    assert_eq!(
        split_line("lxc.hook.mount = /usr/share/lxc/hooks/nvidia"),
        Some((HOOK_KEY, HOOK))
    );
    assert_eq!(
        split_line("lxc.hook.mount=/usr/share/lxc/hooks/nvidia"),
        Some((HOOK_KEY, HOOK))
    );
    assert_eq!(
        split_line("lxc.cgroup2.devices.allow: c 195:3 rwm\r"),
        Some((ALLOW, "c 195:3 rwm"))
    );
    assert_eq!(split_line("#a note"), None);
    assert_eq!(split_line("   "), None);
    assert_eq!(split_line("no-delimiter"), None);
    // Only raw lxc keys have the `=` spelling.
    assert_eq!(split_line("hostname = llm"), None);
}

#[test]
fn the_managed_lines_are_found_and_nothing_else_is() {
    let lines = managed_lines(CONF, &Owned::new(Some(505), &[], &live()));
    assert_eq!(lines.len(), 7);
    assert!(lines.iter().all(|l| l.starts_with("lxc.")));
    assert!(lines.contains(&"lxc.cgroup2.devices.allow: c 195:3 rwm".to_string()));
    assert!(lines.contains(&"lxc.hook.mount: /usr/share/lxc/hooks/nvidia".to_string()));
    // A snapshot section is never read.
    assert!(!lines.iter().any(|l| l.contains("snaptime")));
    // The `=` spelling is the same line.
    let text = CONF.replace(
        "lxc.hook.mount: /usr/share/lxc/hooks/nvidia",
        "lxc.hook.mount = /usr/share/lxc/hooks/nvidia",
    );
    assert_eq!(
        managed_lines(&text, &Owned::new(Some(505), &[], &live())).len(),
        7
    );
}

#[test]
fn only_a_major_this_node_used_is_ours() {
    // Last boot's major, remembered: ours, so it is replaced.
    let owned = Owned::new(Some(508), &[505], &live());
    assert!(is_managed("lxc.cgroup2.devices.allow: c 505:0 rwm", &owned));
    assert!(is_managed("lxc.cgroup2.devices.allow: c 508:1 rwm", &owned));
    // A major nobody here ever used stays, module loaded or not.
    assert!(!is_managed(
        "lxc.cgroup2.devices.allow: c 226:0 rwm",
        &owned
    ));
    assert!(!is_managed(
        "lxc.cgroup2.devices.allow: c 999:0 rwm",
        &owned
    ));
    // A guest that missed the pass where the major changed still carries
    // an older one; every major this node has used is ours, so that rule
    // is replaced rather than orphaned.
    let owned = Owned::new(Some(510), &[508, 505], &live());
    for line in [
        "lxc.cgroup2.devices.allow: c 510:0 rwm",
        "lxc.cgroup2.devices.allow: c 508:1 rwm",
        "lxc.cgroup2.devices.allow: c 505:0 rwm",
        "lxc.cgroup2.devices.allow: c 195:3 rwm",
    ] {
        assert!(is_managed(line, &owned), "{line}");
    }
    assert!(!is_managed(
        "lxc.cgroup2.devices.allow: c 226:0 rwm",
        &owned
    ));
    // With nvidia-uvm unloaded, no UVM line is ours: a rule this pass
    // cannot replace is one it leaves alone.
    let owned = Owned::new(None, &[505], &live());
    assert!(!is_managed(
        "lxc.cgroup2.devices.allow: c 505:0 rwm",
        &owned
    ));
    assert!(is_managed("lxc.cgroup2.devices.allow: c 195:3 rwm", &owned));
    // Everything else, as ever.
    assert!(!is_managed("lxc.cgroup2.devices.allow: c *:* rwm", &owned));
    assert!(!is_managed("lxc.cgroup2.devices.allow: b 8:0 rwm", &owned));
    assert!(!is_managed("lxc.hook.mount: /root/my-hook", &owned));
    assert!(!is_managed("lxc.environment: LANG=C", &owned));
    assert!(is_managed(
        "lxc.environment: NVIDIA_DISABLE_REQUIRE=1",
        &owned
    ));
}

#[test]
fn rendering_is_what_the_hand_configured_container_has() {
    let cards = cards();
    let lines = render(&[&cards[0]], &["compute", "utility"], None, Some(505));
    assert_eq!(
        lines,
        [
            "lxc.cgroup2.devices.allow: c 195:3 rwm",
            "lxc.cgroup2.devices.allow: c 195:255 rwm",
            "lxc.cgroup2.devices.allow: c 505:0 rwm",
            "lxc.cgroup2.devices.allow: c 505:1 rwm",
            "lxc.hook.mount: /usr/share/lxc/hooks/nvidia",
            "lxc.environment: NVIDIA_VISIBLE_DEVICES=GPU-8ddd601a-494f-9489-46c6-d23129ccad16",
            "lxc.environment: NVIDIA_DRIVER_CAPABILITIES=compute,utility",
        ]
    );
    assert_eq!(
        managed_lines(CONF, &Owned::new(Some(505), &[], &live())),
        lines
    );
}

#[test]
fn rendering_two_gpus_with_graphics_and_a_cuda_constraint() {
    let cards = cards();
    let lines = render(
        &[&cards[0], &cards[1]],
        &["compute", "graphics", "utility"],
        Some("12.8"),
        Some(505),
    );
    assert!(lines.contains(&"lxc.cgroup2.devices.allow: c 195:254 rwm".to_string()));
    assert_eq!(
        lines.last().unwrap(),
        "lxc.environment: NVIDIA_REQUIRE_CUDA=cuda>=12.8"
    );
    assert!(lines.iter().any(|l| l
        == "lxc.environment: NVIDIA_VISIBLE_DEVICES=GPU-8ddd601a-494f-9489-46c6-d23129ccad16,GPU-1f4d0e27-1111-2222-3333-444455556666"));
    // No UVM module, no UVM lines.
    let lines = render(&[&cards[0]], &["compute"], None, None);
    assert!(!lines.iter().any(|l| l.contains("505")));
}

#[test]
fn splicing_keeps_everything_else_and_is_a_fixed_point() {
    let cards = cards();
    let owned = Owned::new(Some(508), &[505], &live());
    let desired = render(
        &[&cards[1]],
        &["compute", "utility"],
        Some("12.8"),
        Some(508),
    );
    let out = splice(CONF, &desired, &owned);
    assert_eq!(managed_lines(&out, &owned), desired);
    assert!(out.contains("hostname: llm\n"));
    assert!(out.contains("rootfs: local-zfs:subvol-423-disk-0,size=32G\n"));
    // The snapshot section is untouched, separator and all.
    assert!(out.ends_with("\n[before-gpu]\narch: amd64\ncores: 4\nhostname: llm\nmemory: 8192\nostype: debian\nrootfs: local-zfs:subvol-423-disk-0,size=32G\nsnaptime: 1757000000\nunprivileged: 1\n"));
    assert_eq!(splice(&out, &desired, &owned), out);
    // The 505 lines of the previous boot went with the rewrite.
    assert!(!out.contains("505"));
}

#[test]
fn splicing_nothing_removes_the_lines_and_leaves_the_rest() {
    let owned = Owned::new(Some(505), &[], &live());
    let out = splice(CONF, &[], &owned);
    assert!(!out.contains("nvidia"));
    assert!(!out.contains("NVIDIA"));
    assert!(out.contains("unprivileged: 1\n"));
    assert!(out.contains("[before-gpu]"));
    assert_eq!(splice(&out, &[], &owned), out);
}

#[test]
fn lines_go_to_the_end_of_the_main_section_when_there_are_none() {
    let cards = cards();
    let owned = Owned::new(Some(505), &[], &live());
    let text = "arch: amd64\nhostname: x\nunprivileged: 1\n\n[snap]\narch: amd64\n";
    let out = splice(
        text,
        &render(&[&cards[0]], &["compute"], None, Some(505)),
        &owned,
    );
    assert!(out.starts_with("arch: amd64\nhostname: x\nunprivileged: 1\nlxc.cgroup2"));
    assert!(out.contains("\n\n[snap]\narch: amd64\n"));
}

#[test]
fn refusals_are_seen_in_the_text() {
    assert!(is_unprivileged(CONF));
    assert!(!is_unprivileged("arch: amd64\nhostname: x\n"));
    assert!(is_unprivileged(
        "arch: amd64\nlxc.idmap: u 0 100000 65536\n"
    ));
    assert!(nvidia_dev_entries(CONF).is_empty());
    let text = "arch: amd64\ndev0: /dev/nvidia0,uid=0\ndev1: /dev/ttyUSB0\n";
    assert_eq!(nvidia_dev_entries(text), ["dev0"]);
    assert_eq!(hostname(CONF), Some("llm"));
}

#[test]
fn a_key_is_what_the_grammar_says() {
    // A raw key may have no value; any other key must have one.
    assert_eq!(split_line("lxc.environment:"), Some(("lxc.environment", "")));
    assert_eq!(split_line("lxc.environment ="), Some(("lxc.environment", "")));
    assert_eq!(split_line("hostname:"), None);
    // White space alone is something, and the value is empty.
    assert_eq!(split_line("hostname:   "), Some(("hostname", "")));
    assert_eq!(split_line("hostname: "), Some(("hostname", "")));
    assert_eq!(split_line("hostname:\r"), Some(("hostname", "")));
    assert_eq!(hostname("hostname: \n"), Some(""));
    assert_eq!(hostname("hostname:\n"), None);
    assert_eq!(hostname("hostname:\nhostname: x\n"), Some("x"));
    // Lower case, letters first, digits last.
    assert_eq!(split_line("mp0: a,mp=/b"), Some(("mp0", "a,mp=/b")));
    assert_eq!(split_line("Hostname: llm"), None);
    assert_eq!(split_line("host-name: llm"), None);
    assert_eq!(split_line("0dev: x"), None);
    assert_eq!(split_line("de0v: x"), None);
    assert_eq!(split_line("_x: y"), None);
    assert_eq!(split_line("lxc.: x"), None);
    assert_eq!(split_line("lxc.A: x"), None);
    assert_eq!(split_line("lxc.a b: x"), None);
    // White space around the value is not part of it.
    assert_eq!(split_line("lxc.idmap \t=\tu 0 1 2  "), Some(("lxc.idmap", "u 0 1 2")));
}

#[test]
fn an_allow_value_names_a_character_device() {
    assert_eq!(parse_allow("c 195:3 rwm"), Some(Device { major: Some(195), minor: Some(3) }));
    assert_eq!(parse_allow("c *:* rwm"), Some(Device { major: None, minor: None }));
    assert_eq!(parse_allow("c 195:*"), Some(Device { major: Some(195), minor: None }));
    assert_eq!(parse_allow("c  +7:0"), Some(Device { major: Some(7), minor: Some(0) }));
    assert_eq!(parse_allow("b 8:0 rwm"), None);
    assert_eq!(parse_allow("c"), None);
    assert_eq!(parse_allow("c 195"), None);
    assert_eq!(parse_allow("c x:0"), None);
    assert_eq!(parse_allow("c 4294967296:0"), None);
    assert_eq!(parse_allow("c 4294967295:0 r").unwrap().major, Some(4294967295));
    assert_eq!(parse_allow(""), None);
}

#[test]
fn every_major_the_main_section_names_is_found() {
    let majors: Vec<u32> = allow_majors(CONF).into_iter().collect();
    assert_eq!(majors, [195, 505]);
    let text = "lxc.cgroup2.devices.allow: c *:* rwm\nlxc.cgroup2.devices.allow = c 7:1\n[s]\nlxc.cgroup2.devices.allow: c 9:1\n";
    let majors: Vec<u32> = allow_majors(text).into_iter().collect();
    assert_eq!(majors, [7]);
}

#[test]
fn the_first_value_counts() {
    assert_eq!(value_of("a: 1\na: 2\n", "a"), Some("1"));
    assert_eq!(value_of("b: 1\n[snap]\na: 2\n", "a"), None);
    assert_eq!(value_of(CONF, "swap"), Some("512"));
}

#[test]
fn a_passthrough_entry_is_dev_and_a_number() {
    let text = "dev: /dev/nvidia0\ndev1: /dev/nvidia0\ndevx: /dev/nvidia0\ndev22: path=/dev/nvidia-uvm\n";
    assert_eq!(nvidia_dev_entries(text), ["dev1", "dev22"]);
}

#[test]
fn owned_majors_are_answered_for_one_by_one() {
    let owned = Owned::new(Some(508), &[508, 505, 506], &live());
    assert!(owned.owns_major(195));
    assert!(owned.owns_major(508));
    assert!(owned.owns_major(505));
    // 506 is in use by something else now.
    assert!(!owned.owns_major(506));
    assert!(!owned.owns_major(1));
    let none = Owned::default();
    assert!(none.owns_major(195));
    assert!(!none.owns_major(508));
}

#[test]
fn rendering_no_gpu_renders_nothing() {
    assert!(render(&[], &["compute"], Some("12.8"), Some(505)).is_empty());
    let cards = cards();
    let lines = render(&[&cards[1]], &[], None, None);
    assert_eq!(
        lines,
        [
            "lxc.cgroup2.devices.allow: c 195:1 rwm",
            "lxc.cgroup2.devices.allow: c 195:255 rwm",
            "lxc.hook.mount: /usr/share/lxc/hooks/nvidia",
            "lxc.environment: NVIDIA_VISIBLE_DEVICES=GPU-1f4d0e27-1111-2222-3333-444455556666",
        ]
    );
    let lines = render(&[&cards[1]], &["display"], None, None);
    assert_eq!(lines[1], "lxc.cgroup2.devices.allow: c 195:254 rwm");
}

#[test]
fn a_config_with_crlf_keeps_its_line_endings() {
    let owned = Owned::new(Some(505), &[], &live());
    let text = "arch: amd64\r\nlxc.hook.mount: /usr/share/lxc/hooks/nvidia\r\nhostname: x\r\n\r\n[snap]\r\narch: amd64\r\n";
    assert_eq!(managed_lines(text, &owned), ["lxc.hook.mount: /usr/share/lxc/hooks/nvidia"]);
    let out = splice(text, &["lxc.environment: NVIDIA_A=1".to_string()], &owned);
    assert_eq!(
        out,
        "arch: amd64\r\nlxc.environment: NVIDIA_A=1\nhostname: x\r\n\n[snap]\r\narch: amd64\r\n"
    );
    assert_eq!(hostname(text), Some("x"));
}

#[test]
fn new_lines_stand_where_the_first_old_one_stood() {
    let owned = Owned::new(Some(505), &[], &live());
    let text = "arch: amd64\nlxc.environment: NVIDIA_A=1\nhostname: x\nlxc.environment: NVIDIA_B=1\nswap: 1";
    let lines = ["lxc.environment: NVIDIA_C=1".to_string(), "lxc.environment: NVIDIA_D=1".to_string()];
    let out = splice(text, &lines, &owned);
    assert_eq!(
        out,
        "arch: amd64\nlxc.environment: NVIDIA_C=1\nlxc.environment: NVIDIA_D=1\nhostname: x\nswap: 1\n"
    );
    assert_eq!(splice("", &lines, &owned), "lxc.environment: NVIDIA_C=1\nlxc.environment: NVIDIA_D=1\n");
    assert_eq!(splice("[s]\n", &[], &owned), "\n[s]\n");
    assert_eq!(splice("\n[s]\n", &[], &owned), "\n[s]\n");
    assert_eq!(splice("a: 1\n\n\n", &[], &owned), "a: 1\n");
}
