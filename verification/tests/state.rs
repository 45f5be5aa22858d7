use pve_meta_nvidia::file::File;
use pve_meta_nvidia::state::{Change, Listing, Record, UVM_KEPT};

fn names(list: &[&str]) -> Listing {
    Listing::Names(list.iter().map(|n| Ok(Some(n.to_string()))).collect())
}

fn text(s: &str) -> File {
    File::Text(s.to_string())
}

#[test]
fn a_vmid_is_recorded_until_it_is_not() {
    let r = Record::at("/r".to_string());
    assert!(r.all(Listing::Missing).unwrap().is_empty());
    assert!(matches!(
        r.set(423, true, false),
        Change::Create(dir, path) if dir == "/r/managed" && path == "/r/managed/423"
    ));
    assert!(matches!(r.set(423, true, true), Change::Nothing));
    let recorded = r.all(names(&["423", "9", "x", "+9"])).unwrap();
    assert_eq!(recorded.iter().copied().collect::<Vec<_>>(), [9, 423]);
    assert_eq!(r.retain(&recorded, &[423]), [9]);
    assert_eq!(r.retain(&recorded, &[]), [9, 423]);
    // Without the files of those, only the local ones are left, and the majors
    // are in none of them.
    let mut files = vec!["423", "9", "107", "x"];
    let recorded = r.all(names(&files)).unwrap();
    for vmid in r.retain(&recorded, &[423, 500]) {
        let Change::Remove(path) = r.set(vmid, false, true) else {
            panic!("expected a removal");
        };
        assert_ne!(path, r.uvm_path());
        files.retain(|f| path != format!("{}/{f}", r.managed_dir()));
    }
    assert_eq!(files, ["423", "x"]);
    let left = r.all(names(&files)).unwrap();
    assert_eq!(left.into_iter().collect::<Vec<_>>(), [423]);
    assert!(matches!(
        r.set(423, false, true),
        Change::Remove(path) if path == "/r/managed/423"
    ));
    assert!(matches!(r.set(423, false, false), Change::Remove(_)));
}

#[test]
fn a_record_that_cannot_be_listed_is_an_error() {
    let r = Record::at("/r".to_string());
    assert_eq!(
        r.all(Listing::Failed("denied".to_string())).unwrap_err(),
        "cannot list /r/managed: denied"
    );
    let broken = Listing::Names(vec![
        Ok(Some("1".to_string())),
        Ok(None),
        Err("first".to_string()),
        Err("second".to_string()),
    ]);
    assert_eq!(r.all(broken).unwrap_err(), "cannot list /r/managed: first");
    assert_eq!(r.all(Listing::Names(vec![Ok(None)])).unwrap().len(), 0);
}

#[test]
fn the_uvm_majors_are_remembered_newest_first_and_bounded() {
    let r = Record::at("/r".to_string());
    let majors = |s: &str| r.uvm_majors(text(s)).unwrap();
    assert!(r.uvm_majors(File::Missing).unwrap().is_empty());
    let mut file = r.remember_uvm(&[], 505).unwrap();
    assert_eq!(r.remember_uvm(&majors(&file), 505), None);
    assert_eq!(majors(&file), [505]);
    file = r.remember_uvm(&majors(&file), 508).unwrap();
    assert_eq!(majors(&file), [508, 505]);
    // A major that comes back moves to the front instead of appearing
    // twice.
    file = r.remember_uvm(&majors(&file), 505).unwrap();
    assert_eq!(majors(&file), [505, 508]);
    for m in 1..=UVM_KEPT as u32 {
        file = r.remember_uvm(&majors(&file), 500 + m).unwrap();
    }
    assert_eq!(majors(&file).len(), UVM_KEPT);
    assert_eq!(majors(&file)[0], 500 + UVM_KEPT as u32);
    assert_eq!(file, "502\n501\n");
    assert_eq!(r.uvm_path(), "/r/uvm-major");
    assert!(majors("nonsense").is_empty());
}

#[test]
fn majors_that_cannot_be_read_are_an_error() {
    let r = Record::default();
    assert_eq!(r.dir(), "/var/lib/pve-meta-nvidia");
    assert_eq!(
        r.uvm_majors(File::Failed("I/O".to_string())).unwrap_err(),
        "cannot read /var/lib/pve-meta-nvidia/uvm-major: I/O"
    );
    assert_eq!(r.uvm_majors(text("x\n 7 \r\n\n8\n9\n")).unwrap(), [7, 8]);
    assert_eq!(r.remember_uvm(&[7, 8], 9).unwrap(), "9\n7\n");
    assert_eq!(r.remember_uvm(&[7, 8], 8).unwrap(), "8\n7\n");
    assert_eq!(r.path(7), "/var/lib/pve-meta-nvidia/managed/7");
}
