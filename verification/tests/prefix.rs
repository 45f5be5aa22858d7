use pve_meta_nvidia::cmd::Output;
use pve_meta_nvidia::doc::{CAPABILITIES, DEFAULT_CAPABILITIES};
use pve_meta_nvidia::inventory::{Gpu, Inventory};
use pve_meta_nvidia::prefix::{
    asks_store, decide, doc_id, is_small, read, read_args, removed, render, same, sync, written,
    Action, Step, Task,
};
use pve_meta_nvidia::yaml::LARGEST;
use serde_yaml_ng::Value;

fn inv() -> Inventory {
    Inventory {
        driver: true,
        gpus: vec![Gpu {
            uuid: "GPU-8ddd601a-494f-9489-46c6-d23129ccad16".into(),
            minor: 3,
            bus: "0000:0a:00.0".into(),
            name: Some("Tesla T10".into()),
            memory_mib: Some(16384),
        }],
        uvm_major: Some(505),
        char_majors: [195, 505].into_iter().collect(),
        notes: Vec::new(),
    }
}

#[test]
fn the_file_carries_one_row_per_card() {
    let text = render("jarvis", &inv());
    assert!(text.starts_with(
        "description: NVIDIA GPUs on jarvis (written by pve-meta-nvidia)\nselector:\n  all: true\nschema:\n"
    ));
    let v: Value = serde_yaml_ng::from_str(&text).unwrap();
    let props = &v["schema"]["properties"];
    assert_eq!(v["schema"]["type"], Value::from("object"));
    let device = &props["devices"]["properties"]["GPU-8ddd601a-494f-9489-46c6-d23129ccad16"];
    assert_eq!(device["type"], Value::from("boolean"));
    assert_eq!(device["default"], Value::from(false));
    assert_eq!(
        device["description"],
        Value::from("Tesla T10 16 GB · 0000:0a:00.0")
    );
    let caps = props["capabilities"]["properties"].as_mapping().unwrap();
    // Every capability the document parser accepts has a row, with the
    // default the parser applies.
    assert_eq!(caps.len(), CAPABILITIES.len());
    for c in CAPABILITIES {
        assert_eq!(
            caps[Value::from(c)]["default"],
            Value::from(DEFAULT_CAPABILITIES.contains(&c)),
            "{c}"
        );
    }
    assert_eq!(props["require_cuda"]["type"], Value::from("string"));
    // Block style, two-space indent, no quotes needed anywhere: the
    // canonical dump pve-meta stores is the text this renders.
    assert!(!text.contains('{'));
    assert!(!text.contains('"'));
}

#[test]
fn a_reordered_file_is_the_same_file() {
    let text = render("jarvis", &inv());
    let mut value: Value = serde_yaml_ng::from_str(&text).unwrap();
    let m = value.as_mapping_mut().unwrap();
    let description = m.remove(Value::from("description")).unwrap();
    m.insert(Value::from("description"), description);
    assert!(same(&serde_yaml_ng::to_string(&value).unwrap(), &text));
    assert!(!same("description: other\n", &text));
    assert!(!same("{", &text));
}

#[test]
fn a_driver_that_is_away_keeps_the_file() {
    let mut inv = inv();
    let text = render("jarvis", &inv);
    // The driver is being upgraded: no /proc/driver/nvidia for a few
    // seconds. The file stays, and the store is not even asked.
    inv.driver = false;
    inv.gpus.clear();
    assert_eq!(decide("jarvis", &inv, Some(&text)), Step::Keep);
    assert_eq!(decide("jarvis", &inv, None), Step::Keep);
    // A driver that is loaded and has no cards is a node with no GPUs.
    inv.driver = true;
    assert_eq!(decide("jarvis", &inv, Some(&text)), Step::Remove);
    assert_eq!(decide("jarvis", &inv, None), Step::Absent);
}

#[test]
fn a_file_that_says_the_same_thing_is_not_written_again() {
    let inv = inv();
    let text = render("jarvis", &inv);
    assert_eq!(decide("jarvis", &inv, Some(&text)), Step::Unchanged);
    assert_eq!(decide("jarvis", &inv, None), Step::Write(text.clone()));
    assert_eq!(
        decide("jarvis", &inv, Some("description: something else\n")),
        Step::Write(text)
    );
}

#[test]
fn the_id_is_the_node_prefix_document() {
    assert_eq!(doc_id("jarvis"), "nodes/jarvis/prefixes/gpu");
}

#[test]
fn the_whole_file_is_what_it_should_be() {
    let text = render("jarvis", &inv());
    assert_eq!(
        text,
        "description: NVIDIA GPUs on jarvis (written by pve-meta-nvidia)
selector:
  all: true
schema:
  type: object
  properties:
    devices:
      type: object
      description: GPUs this container gets, by UUID
      properties:
        GPU-8ddd601a-494f-9489-46c6-d23129ccad16:
          type: boolean
          default: false
          description: Tesla T10 16 GB · 0000:0a:00.0
    capabilities:
      type: object
      description: What the driver is used for; the default is compute and utility
      properties:
        compute:
          type: boolean
          default: true
        compat32:
          type: boolean
          default: false
        display:
          type: boolean
          default: false
        graphics:
          type: boolean
          default: false
        utility:
          type: boolean
          default: true
        video:
          type: boolean
          default: false
    require_cuda:
      type: string
      description: e.g. 12.8 - the container refuses to start on an older host driver
"
    );
}

#[test]
fn text_that_needs_quotes_is_read_back_all_the_same() {
    let mut inv = inv();
    for name in [
        "true", "12.8", "~", " x ", "a: b", "a #b", "#a", "- a", "? a", "!a", "&a", "*a", "[a", "{a", "'a'",
        "\"a\"", "|", ">", "%a", "@a", "`a", "---", "...", "a\\b", "a,b", "0x1f", "1e3", ".5", "null", "no",
        "2024-01-01", "<<", "=", "a  b", "key:", ":", "-", "0123", "1_000", "+1", "-0", ".nan", "a]b}c",
    ] {
        inv.gpus[0].name = Some(name.to_string());
        inv.gpus[0].bus = name.to_string();
        let text = render(name, &inv);
        assert_eq!(decide(name, &inv, Some(&text)), Step::Unchanged, "{name}");
        let v: Value = serde_yaml_ng::from_str(&text).unwrap();
        let device = &v["schema"]["properties"]["devices"]["properties"]
            ["GPU-8ddd601a-494f-9489-46c6-d23129ccad16"];
        assert_eq!(device["description"], Value::from(format!("{name} 16 GB · {name}")));
        inv.gpus[0].name = None;
        inv.gpus[0].memory_mib = None;
        assert_eq!(decide(name, &inv, Some(&render(name, &inv))), Step::Unchanged, "{name}");
        inv.gpus[0].memory_mib = Some(16384);
        // The id of a card is the name of a row.
        let uuid = std::mem::replace(&mut inv.gpus[0].uuid, format!("GPU-{name}"));
        assert_eq!(decide("n", &inv, Some(&render("n", &inv))), Step::Unchanged, "{name}");
        // So is any other name that does not look like a tag.
        if !name.starts_with('!') {
            inv.gpus[0].uuid = name.to_string();
            let v: Value = serde_yaml_ng::from_str(&render("n", &inv)).unwrap();
            let rows = v["schema"]["properties"]["devices"]["properties"].as_mapping().unwrap();
            assert!(rows.contains_key(Value::from(name)), "{name}");
        }
        inv.gpus[0].uuid = uuid;
    }
    let long = "x y ".repeat(500);
    inv.gpus[0].bus = long.clone();
    inv.gpus[0].uuid = format!("GPU-{}", "ab-".repeat(400));
    let v: Value = serde_yaml_ng::from_str(&render(&long, &inv)).unwrap();
    let rows = v["schema"]["properties"]["devices"]["properties"].as_mapping().unwrap();
    let row = &rows[Value::from(inv.gpus[0].uuid.as_str())];
    assert_eq!(row["description"], Value::from(inv.gpus[0].describe()));
}

#[test]
fn documents_are_compared_by_what_they_say() {
    assert!(same("a: 1\nb: [x, {c: d, e: f}]\n", "{b: [x, {e: f, c: d}], a: 1}"));
    assert!(!same("a: [1, 2]", "a: [2, 1]"));
    assert!(!same("a: 1", "a: '1'"));
    assert!(!same("a: 1", "a: 1.0"));
    assert!(same("a: 1.0", "a: 1.00"));
    assert!(same("a: -0.0", "a: 0.0"));
    assert!(same("a: .nan", "a: .NaN"));
    assert!(same("a: !x 1", "a: !x 1"));
    assert!(!same("a: !x 1", "a: !y 1"));
    assert!(!same("a: !x 1", "a: 1"));
    assert!(same("~", "null"));
    assert!(!same("a: 1", "a: 1\nb: 2"));
    assert!(same("a: 0x10", "a: 16"));
}

#[test]
fn two_cards_of_one_id_make_one_row() {
    let mut inv = inv();
    let mut second = inv.gpus[0].clone();
    second.bus = "0000:0b:00.0".into();
    inv.gpus.push(second);
    let text = render("jarvis", &inv);
    assert!(text.contains("0000:0b:00.0"));
    assert!(!text.contains("0000:0a:00.0"));
    assert!(is_small("jarvis", &inv));
}

fn output(status: i32, stdout: &str, stderr: &str) -> Result<Output, String> {
    Ok(Output {
        status,
        stdout: stdout.to_string(),
        stderr: stderr.to_string(),
    })
}

#[test]
fn syncing_asks_then_does_what_was_decided() {
    assert_eq!(
        read_args("jarvis"),
        ["get", "nodes/jarvis/prefixes/gpu", "--format", "yaml"]
    );
    assert_eq!(read("jarvis", output(0, "a", "")), Ok(Some("a".to_string())));
    assert_eq!(read("jarvis", output(2, "a", "")), Ok(None));
    assert_eq!(
        read("jarvis", output(5, "a", "b\n")),
        Err("pve-meta get nodes/jarvis/prefixes/gpu failed (exit 5): b".to_string())
    );
    let mut inv = inv();
    let text = render("jarvis", &inv);
    assert!(asks_store(&inv));
    assert!(matches!(
        sync("jarvis", &inv, output(0, &text, "")),
        Ok(Task::Done(Action::Unchanged))
    ));
    let Ok(Task::Store(args)) = sync("jarvis", &inv, output(2, "", "")) else {
        panic!("expected a write");
    };
    assert_eq!(args, ["set", "nodes/jarvis/prefixes/gpu", "--text", &text]);
    assert_eq!(written(&args, output(0, "", "")), Ok(Action::Written));
    let short = vec!["set".to_string(), "a b".to_string(), String::new()];
    assert_eq!(
        written(&short, output(1, "", "no\n")),
        Err("pve-meta set 'a b' '' failed (exit 1): no".to_string())
    );
    assert_eq!(written(&short, Err("gone".to_string())), Err("gone".to_string()));
    inv.gpus.clear();
    let Ok(Task::Delete(args)) = sync("jarvis", &inv, output(0, &text, "")) else {
        panic!("expected a removal");
    };
    assert_eq!(args, ["delete", "nodes/jarvis/prefixes/gpu"]);
    assert!(matches!(
        sync("jarvis", &inv, output(2, "", "")),
        Ok(Task::Done(Action::Absent))
    ));
    assert_eq!(removed("jarvis", output(0, "", "")), Ok(Action::Removed));
    assert_eq!(removed("jarvis", output(2, "", "")), Ok(Action::Absent));
    assert_eq!(
        removed("jarvis", output(1, "", "x")),
        Err("pve-meta delete nodes/jarvis/prefixes/gpu failed (exit 1): x".to_string())
    );
    assert!(sync("jarvis", &inv, output(1, "", "")).is_err());
    assert!(matches!(sync("jarvis", &inv, Err("e".to_string())), Err(e) if e == "e"));
    inv.driver = false;
    assert!(!asks_store(&inv));
    assert!(matches!(
        sync("jarvis", &inv, output(0, &text, "")),
        Ok(Task::Done(Action::Kept))
    ));
}

#[test]
fn any_two_plain_characters_are_read_back() {
    let mut inv = inv();
    inv.gpus[0].name = None;
    inv.gpus[0].memory_mib = None;
    for a in ' '..='~' {
        for b in ' '..='~' {
            let s = format!("{a}{b}");
            inv.gpus[0].bus = format!("x{s}x{b}{a}");
            inv.gpus[0].uuid = if a == '!' { format!("x{s}") } else { s.clone() };
            let v: Value = serde_yaml_ng::from_str(&render(&s, &inv)).unwrap();
            assert_eq!(
                v["description"],
                Value::from(format!("NVIDIA GPUs on {s} (written by pve-meta-nvidia)"))
            );
            let rows = v["schema"]["properties"]["devices"]["properties"].as_mapping().unwrap();
            assert_eq!(rows.len(), 1);
            let row = &rows[Value::from(inv.gpus[0].uuid.as_str())];
            assert_eq!(row["description"], Value::from(inv.gpus[0].describe()), "{s:?}");
        }
    }
}

#[test]
fn text_that_is_not_plain_is_written_all_the_same() {
    let mut inv = inv();
    for c in (0..0x11_0000u32).filter_map(char::from_u32) {
        // All of the first page, and some of every other.
        let n = c as u32;
        if n > 0x300 && n % 257 != 0 && !(0x2000..0x2100).contains(&n) && !(0xfe00..=0xffff).contains(&n) {
            continue;
        }
        inv.gpus[0].name = Some(format!("{c}"));
        inv.gpus[0].bus = format!("a{c}b\n{c}");
        inv.gpus[0].uuid = format!("{c}!");
        assert!(is_small("n", &inv));
        let text = render(&format!("x{c}"), &inv);
        assert!(text.starts_with("description: "));
        assert_eq!(decide(&format!("x{c}"), &inv, Some(&text)), Step::Unchanged, "{c:?}");
    }
}

#[test]
fn a_file_is_small_as_a_whole_or_not_at_all() {
    let mut inv = inv();
    let half = "x".repeat(LARGEST / 2);
    assert!(is_small(&half, &inv));
    inv.gpus[0].bus = half.clone();
    assert!(is_small("n", &inv));
    assert!(!is_small(&half, &inv));
    inv.gpus[0].uuid = half;
    assert!(!is_small("n", &inv));
    assert!(!is_small(&"x".repeat(LARGEST), &Inventory::default()));
}
