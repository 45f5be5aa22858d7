use pve_meta_nvidia::cmd::Output;
use pve_meta_nvidia::file::File;
use pve_meta_nvidia::inventory::{
    self, char_majors, load_uvm, loaded, modprobe_args, name_gpus, named_by_smi, note_uvm,
    parse_devices, parse_information, parse_smi, read_from, scanned, smi_args, Entry, Gpu,
    Inventory, Listing, Reading,
};

const INFORMATION0: &str = "Model: \t\t Unknown
IRQ:   \t\t 66
GPU UUID: \t GPU-8ddd601a-494f-9489-46c6-d23129ccad16
Video BIOS: \t 90.02.42.00.0a
Bus Type: \t PCIe
DMA Size: \t 47 bits
DMA Mask: \t 0x7fffffffffff
Bus Location: \t 0000:0a:00.0
Device Minor: \t 3
GPU Firmware: \t N/A
GPU Excluded:\t No
";

const INFORMATION1: &str = "Model: \t\t Unknown
IRQ:   \t\t 67
GPU UUID: \t GPU-1f4d0e27-1111-2222-3333-444455556666
Video BIOS: \t 90.02.42.00.0a
Bus Type: \t PCIe
DMA Size: \t 47 bits
DMA Mask: \t 0x7fffffffffff
Bus Location: \t 0000:0b:00.0
Device Minor: \t 1
GPU Firmware: \t N/A
GPU Excluded:\t No
";

const DEVICES: &str = "Character devices:
  1 mem
  4 /dev/vc/0
  4 tty
  5 /dev/tty
 10 misc
 13 input
195 nvidia
195 nvidiactl
234 nvidia-caps
505 nvidia-uvm
506 nvidia-nvswitch

Block devices:
  7 loop
  8 sd
252 device-mapper
259 blkext
";

const SMI: &str = "GPU-8ddd601a-494f-9489-46c6-d23129ccad16, Tesla T10, 16384 MiB, 00000000:0A:00.0
GPU-1f4d0e27-1111-2222-3333-444455556666, Tesla T10, 16384 MiB, 00000000:0B:00.0
";

#[test]
fn information_of_a_card_whose_model_is_unknown() {
    let gpu = parse_information(INFORMATION0).unwrap();
    assert_eq!(gpu.uuid, "GPU-8ddd601a-494f-9489-46c6-d23129ccad16");
    assert_eq!(gpu.minor, 3);
    assert_eq!(gpu.bus, "0000:0a:00.0");
    assert_eq!(gpu.name, None);
    assert_eq!(gpu.describe(), "· 0000:0a:00.0");
}

#[test]
fn information_without_a_uuid_is_not_a_gpu() {
    assert!(parse_information("Model: Unknown\nIRQ: 66\n").is_none());
    assert!(parse_information("GPU UUID: GPU-x\n").is_none());
}

#[test]
fn information_that_names_nothing_is_not_a_gpu_either() {
    assert!(parse_information("GPU UUID: \nDevice Minor: 1\n").is_none());
    assert!(parse_information("GPU UUID: GPU-x\nDevice Minor: x\n").is_none());
    assert!(parse_information("").is_none());
    // The last line of a name counts, and a card may have no bus location.
    let gpu = parse_information("GPU UUID: GPU-x\nGPU UUID: GPU-y\r\nDevice Minor: 0\r\n").unwrap();
    assert_eq!(gpu.uuid, "GPU-y");
    assert_eq!(gpu.minor, 0);
    assert_eq!(gpu.bus, "");
}

#[test]
fn the_uvm_major_comes_from_proc_devices() {
    let majors = parse_devices(DEVICES);
    assert_eq!(majors.get("nvidia"), Some(&195));
    assert_eq!(majors.get("nvidia-uvm"), Some(&505));
    // The block section is not read: 252 is device-mapper's, not a
    // character major.
    assert_eq!(majors.get("device-mapper"), None);
    assert_eq!(majors.get("sd"), None);
    assert!(parse_devices("Character devices:\n").len() == 0);
}

#[test]
fn a_name_with_two_majors_holds_both() {
    let text = "character devices:\n300 x\n301 x\nmany y\n302\nBlock devices:\n303 z\n";
    // The title is told by its words, whatever their case; its last word is
    // not.
    let majors: Vec<u32> = char_majors(text).into_iter().collect();
    assert_eq!(majors, [300, 301]);
    assert_eq!(parse_devices(text).get("x"), Some(&301));
    assert!(char_majors("CHARACTER devices:\n1 a\n").contains(&1));
    assert!(char_majors("Character Devices:\n1 a\n").is_empty());
}

#[test]
fn smi_names_the_cards() {
    let named = parse_smi(SMI);
    let (name, mib) = named.get("GPU-8ddd601a-494f-9489-46c6-d23129ccad16").unwrap();
    assert_eq!(name, "Tesla T10");
    assert_eq!(*mib, Some(16384));
    // A model name with a comma in it: the fields are taken from the ends.
    let named2 = parse_smi("GPU-x, NVIDIA RTX A4000, Ada, 16376 MiB, 00000000:0A:00.0\n");
    assert_eq!(
        named2.get("GPU-x").unwrap(),
        &("NVIDIA RTX A4000, Ada".to_string(), Some(16376))
    );
    let gpu = Gpu {
        uuid: "GPU-8ddd601a-494f-9489-46c6-d23129ccad16".into(),
        minor: 3,
        bus: "0000:0a:00.0".into(),
        name: Some(name.clone()),
        memory_mib: *mib,
    };
    assert_eq!(gpu.describe(), "Tesla T10 16 GB · 0000:0a:00.0");
}

#[test]
fn lines_nvidia_smi_should_not_say_are_not_read() {
    let named = parse_smi("GPU-a, x, y\nMIG-b, x, 1 MiB, y\n\nGPU-c, n, [N/A], b\nGPU-c, m, , b\n");
    assert_eq!(named.len(), 1);
    assert_eq!(named.get("GPU-c").unwrap(), &("m".to_string(), None));
}

#[test]
fn memory_is_rounded_up_to_whole_gigabytes() {
    let mut gpu = Gpu {
        uuid: "GPU-x".into(),
        minor: 0,
        bus: "b".into(),
        name: None,
        memory_mib: Some(16376),
    };
    assert_eq!(gpu.describe(), "16 GB · b");
    gpu.memory_mib = Some(1);
    assert_eq!(gpu.describe(), "1 GB · b");
    gpu.memory_mib = Some(0);
    assert_eq!(gpu.describe(), "0 GB · b");
    gpu.memory_mib = Some(u64::MAX);
    assert_eq!(gpu.describe(), "18014398509481984 GB · b");
}

fn found(bus: &str, text: &str) -> Entry {
    Entry::Found(format!("/g/{bus}/information"), File::Text(text.to_string()))
}

/// Two cards, and one entry that is not a GPU's.
fn tree() -> Listing {
    Listing::Entries(vec![
        found("0000:0a:00.0", INFORMATION0),
        Entry::Found("/g/stray/information".to_string(), File::Missing),
        found("0000:0b:00.0", INFORMATION1),
    ])
}

fn read(devices: &str, listing: Listing) -> Result<Inventory, String> {
    read_from("/d", Ok(devices.to_string()), "/g", listing)
}

#[test]
fn a_whole_proc_tree_is_read_in_minor_order() {
    let inv = read(DEVICES, tree()).unwrap();
    assert!(inv.driver_loaded());
    assert_eq!(inv.uvm_major, Some(505));
    assert!(inv.char_majors.contains(&195));
    // Sorted by minor, which is not the order of the bus ids.
    assert_eq!(
        inv.gpus
            .iter()
            .map(|g| (g.minor, g.bus.as_str()))
            .collect::<Vec<_>>(),
        [(1, "0000:0b:00.0"), (3, "0000:0a:00.0")]
    );
    assert_eq!(
        inv.by_uuid("GPU-8ddd601a-494f-9489-46c6-d23129ccad16")
            .unwrap()
            .minor,
        3
    );
    assert!(inv.by_uuid("GPU-nothing").is_none());
    assert!(inv.notes.iter().any(|n| n.contains("stray")));
}

#[test]
fn the_driver_can_be_loaded_without_nvidia_uvm() {
    let devices = DEVICES.replace("505 nvidia-uvm\n", "");
    let inv = read(&devices, tree()).unwrap();
    assert!(inv.driver_loaded());
    assert_eq!(inv.uvm_major, None);
    assert_eq!(inv.gpus.len(), 2);
}

#[test]
fn a_card_the_driver_will_not_name_is_an_error() {
    // A GPU in reset publishes its directory and an information file that
    // says nothing useful. Dropping it would shorten the card list, and
    // the next pass would take that card off the container that has it.
    let err = read(
        DEVICES,
        Listing::Entries(vec![
            found("0000:0a:00.0", "Model: \t Unknown\nIRQ: \t 66\n"),
            found("0000:0b:00.0", INFORMATION1),
        ]),
    )
    .expect_err("a card without a UUID is an error");
    assert!(err.contains("no GPU UUID"), "{err}");
}

#[test]
fn a_node_without_the_driver_keeps_its_majors() {
    let inv = read(DEVICES, Listing::Missing).unwrap();
    assert!(!inv.driver_loaded());
    assert!(inv.gpus.is_empty());
    assert!(inv.char_majors.contains(&195));
}

#[test]
fn an_unreadable_proc_is_an_error_and_never_an_empty_inventory() {
    assert!(read_from("/d", Err("no such file".to_string()), "/g", Listing::Missing).is_err());
}

#[test]
fn whatever_makes_the_cards_a_guess_is_an_error() {
    assert_eq!(
        read_from("/d", Err("gone".to_string()), "/g", tree()).unwrap_err(),
        "cannot read /d: gone"
    );
    assert_eq!(
        read(DEVICES, Listing::Failed("denied".to_string())).unwrap_err(),
        "cannot list /g: denied"
    );
    assert_eq!(
        read(DEVICES, Listing::Entries(vec![Entry::Failed("denied".to_string())])).unwrap_err(),
        "cannot list /g: denied"
    );
    let broken = Entry::Found("/g/x/information".to_string(), File::Failed("I/O".to_string()));
    assert_eq!(
        read(DEVICES, Listing::Entries(vec![found("a", INFORMATION0), broken])).unwrap_err(),
        "cannot read /g/x/information: I/O"
    );
    assert_eq!(
        read(DEVICES, Listing::Entries(vec![found("a", "")])).unwrap_err(),
        "/g/a/information: the driver names no GPU UUID here"
    );
}

#[test]
fn cards_of_one_minor_stay_in_the_order_they_came_in() {
    let card = |uuid: &str, minor: u32| {
        found("x", &format!("GPU UUID: {uuid}\nDevice Minor: {minor}\n"))
    };
    let inv = read(
        DEVICES,
        Listing::Entries(vec![card("a", 2), card("b", 1), card("c", 2), card("d", 0), card("e", 1)]),
    )
    .unwrap();
    let order: Vec<&str> = inv.gpus.iter().map(|g| g.uuid.as_str()).collect();
    assert_eq!(order, ["d", "b", "e", "a", "c"]);
}

fn output(status: i32, stdout: &str, stderr: &str) -> Result<Output, String> {
    Ok(Output {
        status,
        stdout: stdout.to_string(),
        stderr: stderr.to_string(),
    })
}

#[test]
fn nvidia_uvm_is_loaded_where_the_driver_is_there_and_it_is_not() {
    let without = DEVICES.replace("505 nvidia-uvm\n", "");
    assert!(matches!(inventory::read(), Reading::Scan));
    assert!(matches!(scanned(None, read(&without, tree())), Reading::LoadUvm));
    assert!(matches!(scanned(None, read(DEVICES, tree())), Reading::Name(_, None)));
    assert!(matches!(
        scanned(None, read(&without, Listing::Missing)),
        Reading::Done(Ok(inv)) if inv.notes.is_empty()
    ));
    assert!(matches!(scanned(None, Err("x".to_string())), Reading::Done(Err(e)) if e == "x"));
    // It is asked for once, and what came of it is said if it is not there.
    let Reading::Rescan(asked) = loaded(output(0, "", "")) else {
        panic!("expected to read again");
    };
    let Reading::Name(inv, asked) = scanned(Some(asked), read(&without, tree())) else {
        panic!("expected to name the cards");
    };
    let Reading::Done(Ok(inv)) = named_by_smi(inv, asked, output(1, "", "")) else {
        panic!("expected to be done");
    };
    assert_eq!(inv.notes[1], "nvidia-smi exited 1: ");
    assert!(inv.notes[2].starts_with("nvidia-uvm is not loaded ("));
    assert!(matches!(
        scanned(Some(Ok(())), read(DEVICES, tree())),
        Reading::Name(_, Some(Ok(())))
    ));
    assert_eq!(modprobe_args(), ["-u", "-c", "0"]);
    assert_eq!(load_uvm(output(0, "", "")), Ok(()));
    assert_eq!(
        load_uvm(output(1, "", "no module\n")),
        Err("/usr/bin/nvidia-modprobe exited 1: no module".to_string())
    );
    assert_eq!(load_uvm(Err("cannot run".to_string())), Err("cannot run".to_string()));
    let inv = note_uvm(read(&without, Listing::Entries(vec![])).unwrap(), Some(Ok(())));
    assert_eq!(
        inv.notes,
        ["nvidia-uvm is not loaded (/usr/bin/nvidia-modprobe -u -c 0 did not load it); containers get no /dev/nvidia-uvm and no CUDA"]
    );
    let inv = note_uvm(read(&without, Listing::Entries(vec![])).unwrap(), Some(Err("x failed".to_string())));
    assert_eq!(inv.notes, ["nvidia-uvm is not loaded and x failed"]);
    let inv = note_uvm(read(DEVICES, Listing::Entries(vec![])).unwrap(), Some(Ok(())));
    assert!(inv.notes.is_empty());
    let inv = note_uvm(read(&without, Listing::Entries(vec![])).unwrap(), None);
    assert!(inv.notes.is_empty());
}

#[test]
fn names_come_from_nvidia_smi_where_it_answers() {
    assert_eq!(
        smi_args(),
        ["--query-gpu=uuid,name,memory.total,pci.bus_id", "--format=csv,noheader"]
    );
    let inv = read(DEVICES, tree()).unwrap();
    let one = "GPU-8ddd601a-494f-9489-46c6-d23129ccad16, Tesla T10, 16384 MiB, x\n";
    let named = name_gpus(inv, output(0, one, ""));
    assert_eq!(named.gpus[0].describe(), "· 0000:0b:00.0");
    assert_eq!(named.gpus[1].describe(), "Tesla T10 16 GB · 0000:0a:00.0");
    let inv = name_gpus(read(DEVICES, tree()).unwrap(), output(9, "", " lost \n"));
    assert_eq!(inv.notes.last().unwrap(), "nvidia-smi exited 9: lost");
    assert_eq!(inv.gpus[0].name, None);
    let inv = name_gpus(inv, Err("killed".to_string()));
    assert_eq!(inv.notes.last().unwrap(), "nvidia-smi: killed");
}

#[test]
fn an_inventory_has_the_cards_of_its_copy() {
    let inv = read(DEVICES, tree()).unwrap();
    let mut copy = inv.copy();
    assert_eq!(copy, inv);
    assert!(copy.same_cards(&inv));
    copy.char_majors.insert(999);
    copy.notes.clear();
    copy.uvm_major = None;
    assert!(copy.same_cards(&inv));
    copy.gpus[0].name = Some("x".into());
    assert!(!copy.same_cards(&inv));
    let mut copy = inv.copy();
    copy.gpus.pop();
    assert!(!copy.same_cards(&inv));
    let mut copy = inv.copy();
    copy.gpus[1].memory_mib = Some(1);
    assert!(!copy.same_cards(&inv));
}
