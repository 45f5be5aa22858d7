use pve_meta_nvidia::doc;
use pve_meta_nvidia::inventory::{Gpu, Inventory};
use pve_meta_nvidia::ops::inventory::{action_line, action_word, lines as inventory_lines, major, publish};
use pve_meta_nvidia::ops::status::{chosen, lines, row, trunc, without_inventory, Row};
use pve_meta_nvidia::ops::Ctx;
use pve_meta_nvidia::cmd::Output;
use pve_meta_nvidia::prefix::{Action, Task};

const UUID: &str = "GPU-8ddd601a-494f-9489-46c6-d23129ccad16";
const BARE: &str = "hostname: a-name-that-is-longer-than-twenty\nunprivileged: 1\n";

fn inv() -> Inventory {
    Inventory {
        driver: true,
        gpus: vec![Gpu {
            uuid: UUID.into(),
            minor: 3,
            bus: "0000:0a:00.0".into(),
            name: Some("Tesla T10".into()),
            memory_mib: Some(16384),
        }],
        uvm_major: Some(505),
        char_majors: [195, 505].into_iter().collect(),
        notes: Vec::new(),
    }
}

fn row_for(config: &str, yaml: Option<&str>, managed: bool, named: bool) -> Option<Row> {
    let want = yaml.map(|y| doc::parse(y).unwrap());
    row(
        423,
        true,
        named,
        Ok(config.to_string()),
        Ok(want.as_ref()),
        &inv(),
        &[505],
        managed,
    )
}

#[test]
fn a_guest_without_the_key_has_no_row_unless_it_is_asked_for() {
    assert!(row_for(BARE, None, false, false).is_none());
    assert_eq!(row_for(BARE, None, false, true).unwrap().state, "no gpu key");
    let r = row_for(BARE, None, true, false).unwrap();
    assert_eq!(r.state, "no lines");
    assert_eq!(r.notes, ["the gpu key is gone; removing the managed lines"]);
}

#[test]
fn a_row_says_what_the_config_is_and_should_be() {
    let yaml = format!("devices: {{ {UUID}: true }}\n");
    let r = row_for(BARE, Some(&yaml), false, false).unwrap();
    assert_eq!(r.state, "out of sync");
    assert_eq!(r.name, "a-name-that-is-longer-than-twenty");
    assert_eq!(r.gpus, [UUID]);
    assert_eq!(r.desired.len(), 7);
    assert!(r.current.is_empty());
    let text = format!("{BARE}{}\n", r.desired.join("\n"));
    assert_eq!(row_for(&text, Some(&yaml), true, false).unwrap().state, "in sync");
    let locked = format!("lock: backup\n{BARE}");
    assert_eq!(
        row_for(&locked, Some("devices: {}"), false, false).unwrap().notes,
        ["the config is locked (backup)"]
    );
    let r = row_for("hostname: x\n", Some(&yaml), false, false).unwrap();
    assert_eq!(
        r.state,
        "refused: privileged container: LXC's nvidia hook only works in unprivileged ones"
    );
}

#[test]
fn what_could_not_be_read_is_an_error_of_the_row() {
    let r = row(7, false, false, Err("gone".to_string()), Ok(None), &inv(), &[], false).unwrap();
    assert_eq!((r.state.as_str(), r.name.as_str()), ("error: gone", ""));
    let r = row(7, false, false, Ok("hostname: x\n".to_string()), Err("bad".to_string()), &inv(), &[], false)
        .unwrap();
    assert_eq!((r.state.as_str(), r.name.as_str()), ("error: bad", "x"));
    let r = row(7, false, true, Ok(BARE.to_string()), Ok(None), &Inventory::default(), &[], true).unwrap();
    assert_eq!(r.state, "no driver");
    assert_eq!(without_inventory(r).state, "no inventory");
    let r = row_for(BARE, None, false, true).unwrap();
    assert_eq!(without_inventory(r).state, "no gpu key");
}

#[test]
fn a_table_is_what_it_should_be() {
    assert_eq!(lines("jarvis", &vec![], false), ["no guest on jarvis has a gpu document"]);
    let yaml = format!("devices: {{ {UUID}: true }}\n");
    let r = row_for(BARE, Some(&yaml), false, true).unwrap();
    let wanted = r.desired.clone();
    let rows = vec![r];
    let plain = lines("jarvis", &rows, false);
    assert_eq!(
        plain,
        [
            "VMID    NAME                 CT        STATE        GPUS".to_string(),
            format!("423     a-name-that-is-long… running   out of sync  {UUID}"),
        ]
    );
    let named = lines("jarvis", &rows, true);
    assert_eq!(named[2], "        config: (no managed lines)");
    assert_eq!(named[3], format!("        wanted  {}", wanted[0]));
    assert_eq!(named[4], format!("                {}", wanted[1]));
    assert_eq!(named.last().unwrap(), "        restart the container to apply");
    assert_eq!(named.len(), 2 + 1 + 7 + 1);
    let refused = row_for("hostname: x\nlock: y\n", Some(&yaml), false, false).unwrap();
    assert_eq!(
        lines("jarvis", &vec![refused], false)[1..],
        [
            "423     x                    running   refused: pr… -",
            "        privileged container: LXC's nvidia hook only works in unprivileged ones",
            "        the config is locked (y)",
        ]
    );
}

#[test]
fn a_long_text_ends_in_an_ellipsis() {
    assert_eq!(trunc("abc", 3), "abc");
    assert_eq!(trunc("abcd", 3), "ab…");
    assert_eq!(trunc("ééé", 2), "é…");
    assert_eq!(trunc("ab", 1), "…");
    assert_eq!(trunc("", 1), "");
}

#[test]
fn the_inventory_is_listed_by_minor() {
    let mut inv = inv();
    assert_eq!(
        inventory_lines("jarvis", &inv),
        [
            "MINOR  UUID                                          GPU".to_string(),
            format!("3      {UUID}      Tesla T10 16 GB · 0000:0a:00.0"),
            "nvidia-uvm major: 505".to_string(),
        ]
    );
    inv.uvm_major = None;
    assert_eq!(inventory_lines("jarvis", &inv)[2], "nvidia-uvm major: not loaded");
    inv.driver = false;
    assert_eq!(
        inventory_lines("jarvis", &inv),
        ["no NVIDIA driver on jarvis (no /proc/driver/nvidia)"]
    );
    assert_eq!(major(Some(7)), "7");
    assert_eq!(major(None), "not loaded");
}

#[test]
fn every_action_has_a_word() {
    assert_eq!(action_word(&Action::Written), "written");
    assert_eq!(action_word(&Action::Unchanged), "unchanged");
    assert_eq!(action_word(&Action::Removed), "entry removed");
    assert_eq!(action_word(&Action::Absent), "not there");
    assert_eq!(action_word(&Action::Kept), "kept (the driver is not loaded)");
    assert_eq!(
        action_line("jarvis", &Action::Written),
        "nodes/jarvis/prefixes/gpu: written"
    );
    let ctx = Ctx::load(Some("jarvis")).unwrap();
    let none = Output {
        status: 2,
        stdout: String::new(),
        stderr: String::new(),
    };
    assert!(matches!(publish(&ctx, &inv(), Ok(none)), Ok(Task::Store(args)) if args[0] == "set"));
}

#[test]
fn one_guest_is_asked_for_or_all_are() {
    assert_eq!(chosen(&[3, 5, 9], None), [3, 5, 9]);
    assert_eq!(chosen(&[3, 5, 9], Some(5)), [5]);
    assert!(chosen(&[3, 5, 9], Some(4)).is_empty());
}
