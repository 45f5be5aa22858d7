use pve_meta_nvidia::cmd::Output;
use pve_meta_nvidia::doc::{is_device_id, is_version, parse, parse_node, path, read, read_args};
use pve_meta_nvidia::yaml::Node;

#[test]
fn a_full_document() {
    let g = parse(
        "devices: { GPU-8ddd601a-494f-9489-46c6-d23129ccad16: true, GPU-dead: 0 }\n\
         capabilities: { compute: true, utility: 1, video: false }\n\
         require_cuda: \"12.8\"\n",
    )
    .unwrap();
    assert_eq!(g.wanted(), ["GPU-8ddd601a-494f-9489-46c6-d23129ccad16"]);
    assert_eq!(g.capability_list(), ["compute", "utility"]);
    assert_eq!(g.require_cuda.as_deref(), Some("12.8"));
}

#[test]
fn defaults_when_the_document_says_nothing() {
    let g = parse("devices: {}\n").unwrap();
    assert!(g.wanted().is_empty());
    assert_eq!(g.capability_list(), ["compute", "utility"]);
    assert_eq!(g.require_cuda, None);
}

#[test]
fn capabilities_are_the_hooks_own_set_in_its_order() {
    let g = parse("capabilities: { video: true, compute: true, utility: false }\n").unwrap();
    assert_eq!(g.capability_list(), ["compute", "video"]);
    // All off is a document that wants none; the hook then falls back to
    // utility, and nothing is written.
    let g = parse("capabilities: { compute: false, utility: false }\n").unwrap();
    assert!(g.capability_list().is_empty());
    assert!(parse("capabilities: { cuda: true }\n").is_err());
}

#[test]
fn what_is_refused() {
    assert!(parse("device: {}\n").is_err());
    assert!(parse("devices: { 'GPU-8ddd; rm -rf /': true }\n").is_err());
    assert!(parse("devices: { all: true }\n").is_err());
    // MIG instances are named, not half-supported.
    assert!(parse("devices: { MIG-GPU-8ddd601a-0-1: true }\n").is_err());
    assert!(parse("devices: { GPU-8ddd: maybe }\n").is_err());
    assert!(parse("devices: []\n").is_err());
    assert!(parse("require_cuda: 'cuda>=12.8'\n").is_err());
    assert!(parse("require_cuda: 12.8\n").is_ok());
}

fn text(s: &str) -> Node {
    Node::Text(s.to_string())
}

fn message(yaml: &str) -> String {
    parse(yaml).unwrap_err()
}

#[test]
fn devices_are_wanted_in_document_order() {
    let g = parse("devices: { GPU-bb: true, GPU-aa: yes, GPU-cc: off, GPU-0: ' on ' }\n").unwrap();
    assert_eq!(g.wanted(), ["GPU-bb", "GPU-aa", "GPU-0"]);
}

#[test]
fn every_refusal_says_why() {
    assert!(message("{").starts_with("gpu subtree: "));
    assert_eq!(message("[]"), "gpu must be a map");
    assert_eq!(message("1: {}"), "gpu: keys must be strings");
    assert_eq!(message("devices: 1"), "gpu.devices must be a map");
    assert_eq!(message("devices: { 1: true }"), "gpu.devices: keys must be strings");
    assert_eq!(
        message("devices: { all: true }"),
        "gpu.devices: 'all' is not a GPU UUID (GPU-<uuid>)"
    );
    assert_eq!(
        message("devices: { MIG-1: true }"),
        "gpu.devices: 'MIG-1' is not a GPU UUID (GPU-<uuid>; MIG instances are not supported)"
    );
    assert_eq!(
        message("devices: { GPU-8ddd: maybe }"),
        "gpu.devices.GPU-8ddd: expected a boolean (true/false or 1/0)"
    );
    assert_eq!(
        message("devices: { GPU-8ddd: 2 }"),
        "gpu.devices.GPU-8ddd: expected a boolean (true/false or 1/0)"
    );
    assert_eq!(message("capabilities: []"), "gpu.capabilities must be a map");
    assert_eq!(
        message("capabilities: { 1: 1 }"),
        "gpu.capabilities: keys must be strings"
    );
    assert_eq!(
        message("capabilities: { cuda: true }"),
        "gpu.capabilities.cuda: not a driver capability (compute, compat32, display, graphics, utility, video)"
    );
    assert_eq!(
        message("capabilities: { video: ~ }"),
        "gpu.capabilities.video: expected a boolean (true/false or 1/0)"
    );
    assert_eq!(
        message("require_cuda: true"),
        "gpu.require_cuda must be a version string, e.g. \"12.8\""
    );
    assert_eq!(
        message("require_cuda: .5x"),
        "gpu.require_cuda: '.5x' is not a version like 12.8"
    );
    assert_eq!(
        message("device: {}"),
        "gpu.device: unknown key (devices, capabilities, require_cuda)"
    );
}

#[test]
fn a_tag_is_looked_through_where_a_map_or_a_name_is_expected() {
    let g = parse("!x\n!y devices: !z { GPU-aa: true }\n").unwrap();
    assert_eq!(g.wanted(), ["GPU-aa"]);
    // A value is not: it has to be the boolean itself.
    assert!(parse("devices: { GPU-aa: !x true }\n").is_err());
    assert!(parse("require_cuda: !x 12.8\n").is_err());
}

#[test]
fn a_document_of_plain_values_is_read_the_same_way() {
    let doc = Node::Mapping(vec![
        (
            text("devices"),
            Node::Tagged(
                "!t".to_string(),
                Box::new(Node::Mapping(vec![
                    (text("GPU-b"), Node::Number(Some(1), "1".to_string())),
                    (text("GPU-a"), Node::Bool(true)),
                    (text("GPU-c"), text("no")),
                ])),
            ),
        ),
        (text("require_cuda"), Node::Number(None, "12.8".to_string())),
    ]);
    let g = parse_node(&doc).unwrap();
    assert_eq!(g.wanted(), ["GPU-b", "GPU-a"]);
    assert_eq!(g.require_cuda.as_deref(), Some("12.8"));
    assert_eq!(g.devices.get("GPU-c"), Some(&false));
    assert!(parse_node(&Node::Null).is_err());
    assert!(parse_node(&Node::Sequence(vec![])).is_err());
    // A name that comes twice counts as it came last, in its first place.
    let twice = Node::Mapping(vec![
        (text("devices"), Node::Mapping(vec![(text("GPU-a"), Node::Bool(false)), (text("GPU-b"), Node::Bool(true))])),
        (text("devices"), Node::Mapping(vec![(text("GPU-a"), Node::Bool(true))])),
    ]);
    assert_eq!(parse_node(&twice).unwrap().wanted(), ["GPU-a", "GPU-b"]);
}

#[test]
fn ids_and_versions_have_their_own_charsets() {
    assert!(is_device_id("GPU-8ddd601a-494f-9489-46c6-d23129ccad16"));
    assert!(is_device_id("GPU-ABCDEF"));
    assert!(!is_device_id("GPU-"));
    assert!(!is_device_id("GPU-g"));
    assert!(!is_device_id("gpu-a"));
    assert!(!is_device_id("GPU-a\nlxc.x: y"));
    assert!(!is_device_id("GPU-a,GPU-b"));
    assert!(is_version("12.8"));
    assert!(is_version("1"));
    assert!(is_version("1..2."));
    assert!(!is_version(".1"));
    assert!(!is_version(""));
    assert!(!is_version("1 2"));
}

fn output(status: i32, stdout: &str, stderr: &str) -> Result<Output, String> {
    Ok(Output {
        status,
        stdout: stdout.to_string(),
        stderr: stderr.to_string(),
    })
}

#[test]
fn an_answer_is_a_document_none_or_an_error() {
    assert_eq!(read_args(423), ["get", "423", "gpu", "--format", "yaml"]);
    assert_eq!(path(423), "/etc/pve/meta/423.yaml");
    let g = read(423, output(0, "devices: { GPU-a: 1 }\n", "")).unwrap().unwrap();
    assert_eq!(g.wanted(), ["GPU-a"]);
    assert!(read(423, output(2, "", "no such key")).unwrap().is_none());
    assert_eq!(
        read(423, output(0, "devices: []", "")).unwrap_err(),
        "guest 423: bad gpu document: gpu.devices must be a map"
    );
    assert_eq!(
        read(423, output(1, "", " busy \n")).unwrap_err(),
        "pve-meta get 423 gpu failed (exit 1): busy"
    );
    assert_eq!(
        read(423, output(-1, "", "")).unwrap_err(),
        "pve-meta get 423 gpu failed (exit -1): "
    );
    assert_eq!(read(423, Err("cannot run pve-meta".to_string())).unwrap_err(), "cannot run pve-meta");
}
