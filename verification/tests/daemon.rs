use std::collections::BTreeMap;

use pve_meta_nvidia::doc::{self, Gpu};
use pve_meta_nvidia::inventory::{Gpu as Card, Inventory};
use pve_meta_nvidia::ops::daemon::{
    budget_from, greeting, out_of_time, reconcilable, source_of, spent, Cached, Daemon, Log, Phase,
    Source, Stamp, Timing,
};
use pve_meta_nvidia::ops::reconcile::Done;
use pve_meta_nvidia::prefix::Action;

#[test]
fn a_state_is_logged_once() {
    let mut log = Log::default();
    assert!(log.once(423, "state", Some("refused".into())));
    assert!(!log.once(423, "state", Some("refused".into())));
    assert!(log.once(423, "state", Some("locked".into())));
    assert!(log.once(423, "state", None));
    assert!(!log.once(423, "state", None));
    // One key per condition: a document that does not parse does not end
    // the "the vmlist is away" state.
    assert!(log.once(0, "vmlist", Some("waiting".into())));
    assert!(log.once(423, "document", Some("bad".into())));
    assert!(log.once(0, "vmlist", None));
    assert!(!log.once(0, "vmlist", None));
    log.settle(&[]);
    assert!(log.once(423, "document", Some("bad".into())));
}

#[test]
fn what_is_said_is_printed_in_its_order() {
    let mut log = Log::default();
    log.once(1, "a", Some("one".into()));
    log.say("two".into());
    log.once(1, "a", Some("one".into()));
    log.once(0, "a", Some("three".into()));
    log.once(2, "a", Some("four".into()));
    assert_eq!(log.take_lines(), ["one", "two", "three", "four"]);
    assert!(log.take_lines().is_empty());
    log.settle(&[2]);
    // The node's states and those of a local guest still hold.
    assert!(!log.once(0, "a", Some("three".into())));
    assert!(!log.once(2, "a", Some("four".into())));
    assert!(log.once(1, "a", Some("one".into())));
}

/// The reconcile phase is skipped, and no guest is touched, until an
/// inventory has really been read.
#[test]
fn nothing_is_reconciled_without_an_inventory() {
    let d = Daemon::default();
    assert!(d.inv.is_none());
    // `Inventory::default()` is not a node with no GPUs; it is no answer,
    // and `plan` refuses to act on it either way.
    assert!(!Inventory::default().driver_loaded());
}

fn cached(stamp: Option<Stamp>) -> Option<Cached> {
    Some(Cached {
        stamp,
        state: Ok(None),
    })
}

fn at(secs: i64) -> Option<Stamp> {
    Some((secs, 0, 12))
}

#[test]
fn a_document_is_read_again_only_when_its_stamp_moved() {
    let src = |c: Option<Cached>, stamp, ok, full| source_of(c.as_ref(), stamp, ok, full, true);
    // The stamp stands.
    assert_eq!(src(cached(at(7)), at(7), true, false), Source::Cached);
    // It appeared, changed, or went away.
    assert_eq!(src(cached(None), at(7), true, false), Source::Read);
    assert_eq!(src(cached(at(7)), at(8), true, false), Source::Read);
    assert_eq!(src(cached(at(7)), None, true, false), Source::Read);
    // Nothing cached, a stat that did not answer, and the full pass.
    assert_eq!(src(None, at(7), true, false), Source::Read);
    assert_eq!(src(cached(at(7)), at(7), false, false), Source::Read);
    assert_eq!(src(cached(at(7)), at(7), true, true), Source::Read);
}

#[test]
fn a_guest_with_no_document_costs_no_process_and_a_managed_one_always_does() {
    // No document, never written to: no `gpu` key, no fork.
    assert_eq!(source_of(None, None, true, false, false), Source::Absent);
    assert_eq!(
        source_of(cached(None).as_ref(), None, true, false, false),
        Source::Absent
    );
    // The same guest, but this node wrote lines into it: "no key" would
    // mean "remove them", so it is read rather than inferred.
    assert_eq!(
        source_of(cached(None).as_ref(), None, true, false, true),
        Source::Cached
    );
    assert_eq!(source_of(None, None, true, false, true), Source::Read);
}

#[test]
fn the_boot_pass_stops_when_its_budget_is_spent() {
    let now = 1_000_000;
    // No budget: an ordinary poll has all the time it needs, because
    // nothing is ordered after it.
    assert!(!spent(None, now));
    // A budget that is already in the past: the guests still to do are
    // left to the next poll rather than holding up pve-guests.
    assert!(spent(Some(now - 1), now));
    assert!(!spent(Some(now + 60_000), now));
    // And the boot pass takes no lock it cannot have at once.
    let timing = Timing::default();
    assert!(timing.boot >= 30_000);
    assert!(timing.lock_wait > 0);
}

#[test]
fn the_boot_budget_starts_after_the_inventory() {
    let now = 1_000_000;
    let timing = Timing::default();
    // An ordinary poll is not budgeted: nothing is ordered after it.
    assert_eq!(budget_from(false, now, timing), None);
    // The boot pass is, and the clock starts where it is taken -- after
    // the inventory. A slow inventory (a lazy nvidia-modprobe and an
    // nvidia-smi are 40s of legal worst case) therefore leaves the guests
    // their full minute instead of skipping every one of them.
    let after_a_slow_inventory = now + 100_000;
    let budget = budget_from(true, after_a_slow_inventory, timing);
    assert_eq!(budget, Some(after_a_slow_inventory + timing.boot));
    assert!(!spent(budget, now));
    // And what it says when it does run out names the consequence.
    let line = out_of_time(3);
    assert!(line.contains("3 guest(s)"), "{line}");
    assert!(line.contains("without its GPU"), "{line}");
}

#[test]
fn one_unreadable_document_costs_that_guest_and_nothing_else() {
    let docs = BTreeMap::from([
        (
            105,
            Cached {
                stamp: None,
                state: Ok(Some(Gpu::default())),
            },
        ),
        (
            423,
            Cached {
                stamp: None,
                state: Err("bad gpu document: unknown key".into()),
            },
        ),
        (
            900,
            Cached {
                stamp: None,
                state: Ok(None),
            },
        ),
    ]);
    let due = reconcilable(&docs, &[105, 423, 900, 999]);
    assert_eq!(
        due.iter().map(|(vmid, _)| *vmid).collect::<Vec<_>>(),
        [105, 900]
    );
    assert_eq!(due[1].1, None);
}

fn inv(uvm: Option<u32>) -> Inventory {
    Inventory {
        driver: true,
        gpus: vec![Card {
            uuid: "GPU-a".into(),
            minor: 0,
            bus: "b".into(),
            name: None,
            memory_mib: None,
        }],
        uvm_major: uvm,
        char_majors: [195].into_iter().collect(),
        notes: Vec::new(),
    }
}

const NODE: &str = "jarvis";

/// One poll over the local guests, from its beginning to the documents.
fn begin(d: &mut Daemon, now: u64, read: Result<Inventory, String>, local: &[u32]) {
    let timing = Timing::default();
    assert_eq!(d.phase, Phase::Idle);
    d.tick(now);
    assert_eq!(d.phase, Phase::Inventory);
    d.take_inventory(read, now + 10, timing);
    assert_eq!(d.phase, Phase::Vmlist);
    d.take_vmlist(Ok(local.to_vec()));
    assert_eq!(d.phase, Phase::Record);
    d.retained(Ok(()), NODE, timing);
}

fn document(yaml: &str) -> Result<Option<Gpu>, String> {
    doc::parse(yaml).map(Some)
}

#[test]
fn a_boot_pass_reads_every_document_and_publishes_after_ready() {
    let timing = Timing::default();
    let mut d = Daemon::default();
    begin(&mut d, 1000, Ok(inv(Some(505))), &[7, 8, 9]);
    // Seven has a document, eight's does not parse, nine has none.
    assert_eq!(d.phase, Phase::DocumentTurn(0));
    assert_eq!(d.guest_of_phase(), Some(7));
    d.document_turn(1020, NODE);
    assert_eq!(d.phase, Phase::Stat(0));
    d.stamped(Ok(at(5)), false, NODE);
    assert_eq!(d.phase, Phase::Document(0));
    d.read_document(document("devices: { GPU-a: true }"), NODE);
    d.document_turn(1020, NODE);
    d.stamped(Err(()), false, NODE);
    assert_eq!(d.phase, Phase::Document(1));
    d.read_document(Err("nonsense".to_string()), NODE);
    d.document_turn(1020, NODE);
    d.stamped(Ok(None), false, NODE);
    assert_eq!(d.phase, Phase::Majors);
    assert_eq!(
        d.log.take_lines(),
        ["8: nonsense; leaving its config alone"]
    );
    assert!(d.pass.full);
    d.take_majors(Ok(vec![505]));
    assert_eq!(d.phase, Phase::Running);
    assert_eq!(d.lock_wait(timing), 0);
    d.take_running(vec![7]);
    assert_eq!(d.phase, Phase::GuestTurn(0));
    assert_eq!(d.guest_of_phase(), Some(7));
    assert_eq!(d.want(7).unwrap().wanted(), ["GPU-a"]);
    assert!(d.want(8).is_none());
    assert!(d.want(9).is_none());
    d.guest_turn(1030);
    assert_eq!(d.phase, Phase::Guest(0));
    d.reconciled(Ok(Done::Refused("no".to_string())));
    assert_eq!(d.guest_of_phase(), Some(9));
    d.guest_turn(1030);
    d.reconciled(Err("gone".to_string()));
    // Nothing is published before ready.
    assert_eq!(d.phase, Phase::Idle);
    assert_eq!(d.guest_of_phase(), None);
    assert_eq!(d.log.take_lines(), ["7: refused: no", "9: gone"]);
    d.publish(true);
    assert_eq!(d.phase, Phase::Publish);
    d.note_published(Ok(Action::Written), NODE);
    assert_eq!(d.phase, Phase::Idle);
    assert_eq!(d.log.take_lines(), ["nodes/jarvis/prefixes/gpu: written"]);
    // The next poll finds everything as it was: the stamps stand, nothing is
    // said again, and nothing is published.
    begin(&mut d, 11_000, Ok(inv(Some(505))), &[7, 8, 9]);
    assert!(!d.pass.full);
    assert_eq!(d.lock_wait(timing), timing.lock_wait);
    d.document_turn(u64::MAX, NODE);
    d.stamped(Ok(at(5)), true, NODE);
    d.document_turn(u64::MAX, NODE);
    d.stamped(Ok(at(6)), true, NODE);
    d.read_document(Err("nonsense".to_string()), NODE);
    d.document_turn(u64::MAX, NODE);
    d.stamped(Ok(None), false, NODE);
    d.take_majors(Ok(vec![505]));
    d.take_running(vec![]);
    d.guest_turn(u64::MAX);
    d.reconciled(Ok(Done::Refused("no".to_string())));
    d.guest_turn(u64::MAX);
    d.reconciled(Ok(Done::Unmanaged));
    assert_eq!(d.phase, Phase::Idle);
    assert!(d.log.take_lines().is_empty());
}

#[test]
fn a_failed_inventory_keeps_the_last_one_and_reconciles_nothing() {
    let mut d = Daemon::default();
    begin(&mut d, 0, Err("I/O".to_string()), &[]);
    assert_eq!(d.phase, Phase::Idle);
    assert_eq!(
        d.log.take_lines(),
        [
            "inventory: I/O; keeping the last one",
            "no inventory of this node yet; nothing is reconciled"
        ]
    );
    begin(&mut d, 10_000, Ok(inv(Some(505))), &[]);
    assert_eq!(d.phase, Phase::Majors);
    d.take_majors(Err("lost".to_string()));
    assert!(d.pass.remembered.is_empty());
    d.take_running(vec![]);
    assert_eq!(d.phase, Phase::Publish);
    d.note_published(Err("busy".to_string()), NODE);
    assert_eq!(d.log.take_lines().len(), 2);
    // No guest is reconciled, but what was not published still is, from the
    // inventory that was kept.
    begin(&mut d, 20_000, Err("I/O".to_string()), &[]);
    assert_eq!(d.phase, Phase::Publish);
    assert_eq!(d.inv.as_ref().unwrap().uvm_major, Some(505));
    assert_eq!(d.log.take_lines(), ["inventory: I/O; keeping the last one"]);
    d.note_published(Err("busy".to_string()), NODE);
    assert_eq!(d.phase, Phase::Idle);
    assert!(d.log.take_lines().is_empty());
    // Read again, with the module gone under it: what was not published is
    // still to be published.
    begin(&mut d, 30_000, Ok(inv(None)), &[]);
    assert_eq!(d.phase, Phase::Majors);
    assert_eq!(d.log.take_lines(), ["the nvidia-uvm major moved (505 -> not loaded)"]);
    d.take_majors(Ok(vec![]));
    d.take_running(vec![]);
    assert_eq!(d.phase, Phase::Publish);
    d.note_published(Ok(Action::Unchanged), NODE);
    assert!(d.log.take_lines().is_empty());
    // The module is back: the cards are the same, and nothing is published
    // until the slow pass comes round.
    begin(&mut d, 35_000, Ok(inv(Some(506))), &[]);
    d.take_majors(Ok(vec![]));
    d.take_running(vec![]);
    assert_eq!(d.phase, Phase::Idle);
    d.publish(true);
    assert_eq!(d.phase, Phase::Publish);
    d.note_published(Ok(Action::Unchanged), NODE);
    assert_eq!(d.log.take_lines(), ["the nvidia-uvm major moved (not loaded -> 506)"]);
    // Another card.
    let mut more = inv(Some(506));
    more.gpus.push(inv(None).gpus.remove(0));
    begin(&mut d, 38_000, Ok(more), &[]);
    d.take_majors(Ok(vec![]));
    d.take_running(vec![]);
    assert_eq!(d.phase, Phase::Publish);
    d.note_published(Ok(Action::Unchanged), NODE);
    // No driver, nothing to do; and it is said once.
    let mut away = inv(Some(506));
    away.driver = false;
    away.notes = vec!["a".to_string(), "b".to_string()];
    begin(&mut d, 40_000, Ok(away.copy()), &[]);
    assert_eq!(d.phase, Phase::Idle);
    assert_eq!(
        d.log.take_lines(),
        [
            "a; b",
            "no NVIDIA driver on jarvis (no /proc/driver/nvidia); nothing is reconciled"
        ]
    );
    begin(&mut d, 50_000, Ok(away), &[]);
    assert!(d.log.take_lines().is_empty());
}

#[test]
fn a_vmlist_or_a_record_that_cannot_be_read_ends_the_poll() {
    let timing = Timing::default();
    let mut d = Daemon::default();
    d.tick(0);
    d.take_inventory(Ok(inv(None)), 0, timing);
    d.take_vmlist(Err("cannot read x".to_string()));
    assert_eq!(d.phase, Phase::Idle);
    assert_eq!(d.log.take_lines(), ["cannot read x; waiting"]);
    d.tick(10_000);
    assert!(!d.pass.boot);
    d.take_inventory(Ok(inv(None)), 10_000, timing);
    d.take_vmlist(Ok(vec![1]));
    assert_eq!(d.log.take_lines(), ["the vmlist is readable again"]);
    d.retained(Err("cannot list y".to_string()), NODE, timing);
    assert_eq!(d.phase, Phase::Idle);
    assert_eq!(d.log.take_lines(), ["cannot list y"]);
}

#[test]
fn a_boot_pass_out_of_time_leaves_the_rest_to_the_loop() {
    let timing = Timing::default();
    let mut d = Daemon::default();
    begin(&mut d, 0, Ok(inv(None)), &[7, 8, 9]);
    let deadline = 10 + timing.boot;
    d.document_turn(deadline - 1, NODE);
    d.stamped(Ok(None), false, NODE);
    d.document_turn(deadline, NODE);
    assert_eq!(d.phase, Phase::DocumentTurn(2));
    d.document_turn(deadline, NODE);
    assert_eq!(d.phase, Phase::Majors);
    assert_eq!(d.log.take_lines(), [out_of_time(2)]);
    d.take_majors(Ok(vec![]));
    d.take_running(vec![]);
    // The one whose document was read is due, and there is no time for it.
    assert_eq!(d.guest_of_phase(), Some(7));
    d.guest_turn(deadline);
    assert_eq!(d.phase, Phase::Idle);
    assert_eq!(d.log.take_lines(), [out_of_time(1)]);
    // A guest that is no longer local is forgotten.
    begin(&mut d, 300_000, Ok(inv(None)), &[8]);
    assert!(d.pass.full);
    assert!(d.docs.is_empty());
    assert_eq!(
        greeting("jarvis", timing),
        "pve-meta-nvidia on jarvis: polling every 10s, every document again every 300s"
    );
}

#[test]
fn a_failed_inventory_publishes_the_last_one_when_the_slow_pass_comes_round() {
    let mut d = Daemon::default();
    begin(&mut d, 0, Ok(inv(Some(505))), &[]);
    d.take_majors(Ok(vec![]));
    d.take_running(vec![]);
    d.publish(true);
    d.note_published(Ok(Action::Written), NODE);
    // What is published is not published again.
    begin(&mut d, 10_000, Err("I/O".to_string()), &[]);
    assert_eq!(d.phase, Phase::Idle);
    begin(&mut d, 300_000, Err("I/O".to_string()), &[]);
    assert!(d.pass.full);
    assert_eq!(d.phase, Phase::Publish);
    d.note_published(Ok(Action::Unchanged), NODE);
    // A node without a driver publishes nothing, read or not.
    let mut away = inv(None);
    away.driver = false;
    begin(&mut d, 310_000, Ok(away), &[]);
    assert_eq!(d.phase, Phase::Idle);
    begin(&mut d, 600_000, Err("I/O".to_string()), &[]);
    assert!(d.pass.full);
    assert_eq!(d.phase, Phase::Idle);
}
