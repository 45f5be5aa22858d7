use pve_meta_nvidia::cmd::{
    finished, not_started, not_waited, render, returned, run, tail, timed_out, turn, Child, Output,
    Turn, META, MODPROBE, SMI, TAIL,
};
use pve_meta_nvidia::notify::Notifier;

#[test]
fn a_tail_is_the_end_of_what_was_said() {
    assert_eq!(tail("   "), "");
    assert_eq!(tail("boom"), ": boom");
    let long = "x".repeat(TAIL + 50);
    assert_eq!(tail(&long).len(), TAIL + 2);
}

#[test]
fn a_tail_is_cut_between_characters() {
    // The cut falls between two characters of two bytes.
    let even = "é".repeat(TAIL);
    assert_eq!(tail(&even), format!(": {}", "é".repeat(TAIL / 2)));
    // It would fall inside one: that one is left out.
    let odd = format!("{}x", "é".repeat(TAIL));
    assert_eq!(tail(&odd), format!(": {}x", "é".repeat(TAIL / 2 - 1)));
    assert_eq!(tail(&odd).len(), 2 + TAIL - 1);
    let one = format!("é{}", "x".repeat(TAIL - 1));
    assert_eq!(tail(&one), format!(": {}", "x".repeat(TAIL - 1)));
    let fits = format!("é{}", "x".repeat(TAIL - 2));
    assert_eq!(tail(&fits), format!(": {fits}"));
    // White space at the cut goes.
    let spaced = format!("first {}", "y".repeat(TAIL - 1));
    assert_eq!(tail(&spaced), format!(": {}", "y".repeat(TAIL - 1)));
    assert_eq!(tail(&"z".repeat(TAIL)), format!(": {}", "z".repeat(TAIL)));
    let wide = format!("{}{}", "a".repeat(10), "😀".repeat(TAIL / 4));
    assert_eq!(tail(&wide), format!(": {}", "😀".repeat(TAIL / 4)));
}

#[test]
fn every_call_pings_the_watchdog_when_it_returns() {
    // A ping means a bounded step finished, so a daemon stuck inside one
    // is not counted as alive.
    let mut n = Notifier::new();
    let before = n.pings();
    let (out, message) = returned(&mut n, Ok(output(3, "")));
    assert_eq!((out.unwrap().status, message), (3, "WATCHDOG=1\n"));
    assert_eq!(n.pings(), before + 1);
    let before = n.pings();
    let late = timed_out("/bin/sh", &["-c", "sleep 300"], 200, "");
    let (out, message) = returned(&mut n, Err(late.clone()));
    assert_eq!((out.unwrap_err(), message), (late, "WATCHDOG=1\n"));
    assert!(n.pings() > before, "a timeout pings too");
    // And so does a command that could not be started.
    let before = n.pings();
    let (out, _) = returned(&mut n, Err(not_started("x", "no such file")));
    assert_eq!(out.unwrap_err(), "cannot run x: no such file");
    assert_eq!(n.pings(), before + 1);
    assert_eq!(not_waited("x", "e"), "waiting for x: e");
}

fn output(status: i32, stderr: &str) -> Output {
    Output {
        status,
        stdout: "out".to_string(),
        stderr: stderr.to_string(),
    }
}

#[test]
fn a_call_is_written_as_it_would_be_typed() {
    assert_eq!(render("x", &[]), "x");
    assert_eq!(render("x", &["a", "b c", "", "'"]), "x a 'b c' '' '");
}

#[test]
fn a_command_that_fails_is_an_error() {
    let ok = run("x", &["a"], Ok(output(0, "warning"))).unwrap();
    assert_eq!((ok.status, ok.stdout.as_str()), (0, "out"));
    assert_eq!(
        run("x", &["a b"], Ok(output(3, " no\n"))).unwrap_err(),
        "x 'a b' failed (exit 3): no"
    );
    assert_eq!(run("x", &[], Ok(output(-1, " \n"))).unwrap_err(), "x failed (exit -1)");
    assert_eq!(
        run("x", &[], Ok(output(i32::MIN, ""))).unwrap_err(),
        "x failed (exit -2147483648)"
    );
    assert_eq!(run("x", &[], Err("cannot run x".to_string())).unwrap_err(), "cannot run x");
}

#[test]
fn a_command_is_bounded() {
    assert_eq!(turn(Child::Running, 99, 100), Turn::Sleep);
    assert_eq!(turn(Child::Running, 100, 100), Turn::Kill);
    // One that finished in time, or late but finished, is not killed.
    assert_eq!(turn(Child::Exited, 99, 100), Turn::Finish);
    assert_eq!(turn(Child::Exited, 101, 100), Turn::Finish);
    assert_eq!(turn(Child::Unknown, 0, 100), Turn::Abandon);
    assert_eq!(
        timed_out("sh", &["-c", "sleep 300"], 300, "stuck on /dev/nvidia0\n"),
        "sh -c 'sleep 300' did not finish within 0s and was killed: stuck on /dev/nvidia0"
    );
    assert_eq!(
        timed_out("pve-meta", &[], META, ""),
        "pve-meta did not finish within 30s and was killed"
    );
    assert_eq!((SMI, MODPROBE), (10_000, 30_000));
    let out = finished(Some(3), "a".to_string(), "b".to_string());
    assert_eq!((out.status, out.stdout.as_str(), out.stderr.as_str()), (3, "a", "b"));
    assert_eq!(finished(None, String::new(), String::new()).status, -1);
}
