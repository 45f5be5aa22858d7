use pve_meta_nvidia::json::Node;
use pve_meta_nvidia::node::{
    config_path, is_among, local_containers, nodename, parse_active_containers, parse_vmlist,
    put_in_order, vmlist_of_node, Guest, Kind,
};
use pve_meta_nvidia::ops::Ctx;

#[test]
fn vmlist_is_parsed() {
    let list = parse_vmlist(
        r#"{"version": 42, "ids": {
            "105": {"node": "jarvis", "type": "lxc", "version": 3},
            "106": {"node": "pve2", "type": "qemu", "version": 4},
            "x": {"node": "jarvis", "type": "lxc"}
        }}"#,
    )
    .unwrap();
    assert_eq!(list.len(), 2);
    assert_eq!(
        list[&105],
        Guest {
            node: "jarvis".into(),
            kind: Kind::Lxc
        }
    );
    assert_eq!(list[&106].kind, Kind::Qemu);
    assert!(parse_vmlist("{}").is_err());
    assert!(parse_vmlist("").is_err());
}

#[test]
fn a_vmlist_that_is_none_says_why() {
    assert_eq!(parse_vmlist("{}").unwrap_err(), "the vmlist has no ids");
    assert_eq!(parse_vmlist("[]").unwrap_err(), "the vmlist has no ids");
    assert_eq!(parse_vmlist("{\"ids\": []}").unwrap_err(), "the vmlist has no ids");
    assert!(parse_vmlist("{").unwrap_err().starts_with("the vmlist is not JSON: "));
    let list = parse_vmlist("{\"ids\": {\"7\": 1, \"8\": {\"node\": 2, \"type\": \"openvz\"}}}").unwrap();
    assert_eq!(list[&7], Guest { node: String::new(), kind: Kind::Other });
    assert_eq!(list[&8], Guest { node: String::new(), kind: Kind::Other });
}

#[test]
fn a_vmlist_of_plain_values_is_read_the_same_way() {
    let text = |s: &str| Node::Text(s.to_string());
    let guest = |node: &str, kind: &str| {
        Node::Object(vec![("node".to_string(), text(node)), ("type".to_string(), text(kind))])
    };
    let list = vmlist_of_node(&Node::Object(vec![
        ("version".to_string(), Node::Number("3".to_string())),
        (
            "ids".to_string(),
            Node::Object(vec![
                ("20".to_string(), guest("a", "lxc")),
                ("3".to_string(), guest("a", "lxc")),
                ("4".to_string(), guest("b", "lxc")),
                ("5".to_string(), guest("a", "qemu")),
                ("-6".to_string(), guest("a", "lxc")),
                ("03".to_string(), guest("c", "lxc")),
            ]),
        ),
    ]))
    .unwrap();
    assert_eq!(list.len(), 4);
    assert_eq!(list[&3].node, "c");
    assert_eq!(local_containers("a", &list), [20]);
    assert_eq!(local_containers("c", &list), [3]);
    assert!(vmlist_of_node(&Node::Array(vec![Node::Null, Node::Bool(true)])).is_err());
}

#[test]
fn local_containers_come_in_vmid_order() {
    let list = parse_vmlist(
        r#"{"ids": {"300": {"node": "a", "type": "lxc"}, "20": {"node": "a", "type": "lxc"},
            "1000": {"node": "a", "type": "lxc"}, "5": {"node": "a", "type": "qemu"}}}"#,
    )
    .unwrap();
    assert_eq!(local_containers("a", &list), [20, 300, 1000]);
    assert!(local_containers("b", &list).is_empty());
}

#[test]
fn active_containers_are_parsed() {
    let text = "Num       RefCount Protocol Flags    Type St Inode Path\n\
                0000000000000000: 00000002 00000000 00010000 0001 01 31415 @/var/lib/lxc/423/command\n\
                0000000000000000: 00000003 00000000 00000000 0001 03 31417 /run/systemd/journal/stdout\n\
                0000000000000000: 00000002 00000000 00010000 0001 01 31419 @/var/lib/lxc/107/monitor\n\
                0000000000000000: 00000002 00000000 00010000 0001 01 31420\n";
    assert_eq!(parse_active_containers(text), vec![423]);
}

#[test]
fn active_containers_come_once_and_in_order() {
    let text = "x @/var/lib/lxc/9/command\n\nx @/var/lib/lxc/10/command\ny @/var/lib/lxc/9/command  \n\
                @/var/lib/lxc/1/command\nz @/var/lib/lxc//command\nz @/var/lib/lxc/2/commands\n";
    assert_eq!(parse_active_containers(text), vec![1, 9, 10]);
    let mut v = vec![2, 4];
    put_in_order(&mut v, 3);
    put_in_order(&mut v, 3);
    put_in_order(&mut v, 1);
    put_in_order(&mut v, 9);
    assert_eq!(v, [1, 2, 3, 4, 9]);
    assert!(is_among(&v, 3));
    assert!(!is_among(&v, 5));
}

#[test]
fn the_node_is_where_the_link_points() {
    assert_eq!(nodename(Some("jarvis")), Ok("jarvis".to_string()));
    let why = Err("/etc/pve/local does not name a node".to_string());
    assert_eq!(nodename(Some("")), why);
    assert_eq!(nodename(None), why);
    assert_eq!(config_path("jarvis", 423), "/etc/pve/nodes/jarvis/lxc/423.conf");
    let ctx = Ctx::load(Some("jarvis")).unwrap();
    assert_eq!(ctx.node, "jarvis");
    assert_eq!(ctx.record.dir(), "/var/lib/pve-meta-nvidia");
    assert!(Ctx::load(None).is_err());
}
