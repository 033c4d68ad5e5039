//! Command dispatch and the end-to-end command cycle.

use tamo::{handle_request_line, load_tamo, process_request_string, ticker_step, Command, Tamo};

#[test]
fn request_bytes_map_to_commands() {
    assert_eq!(process_request_string(b"F"), Some(Command::Feed));
    assert_eq!(process_request_string(b"P"), Some(Command::Play));
    assert_eq!(process_request_string(b"Q"), Some(Command::Quench));
    assert_eq!(process_request_string(b"X"), None);
    assert_eq!(process_request_string(b"FF"), None);
    assert_eq!(process_request_string(b""), None);
}

#[test]
fn unrecognized_lines_change_nothing_and_yield_no_payload() {
    let mut t = Tamo::build(String::from("Tamo"));
    let before = t.clone();
    assert_eq!(handle_request_line(&mut t, b"hello\n"), None);
    assert_eq!(handle_request_line(&mut t, b"\n"), None);
    assert_eq!(t, before);
}

#[test]
fn scenario_quench_feed_play() {
    // Start from the default build and send Q, F, P: one decrement each to
    // thirst and hunger (plus five energy from the quench), one happiness
    // increment with twenty energy gone from the play, each compounded with
    // one decay tick.
    let mut t = Tamo::build(String::from("Tamo"));

    let s1 = handle_request_line(&mut t, b"Q\n").unwrap();
    assert_eq!(
        s1,
        "Name: Tamo, Age: 0.01, Hunger: 10.01, Thirst: 9.02, Happiness: 99.95, \
         Energy: 104.95, Room: food: 100, water: 100"
    );

    let s2 = handle_request_line(&mut t, b"F\n").unwrap();
    assert_eq!(
        s2,
        "Name: Tamo, Age: 0.02, Hunger: 9.02, Thirst: 9.04, Happiness: 99.9, \
         Energy: 104.9, Room: food: 100, water: 100"
    );

    let s3 = handle_request_line(&mut t, b"P\n").unwrap();
    assert_eq!(
        s3,
        "Name: Tamo, Age: 0.03, Hunger: 9.03, Thirst: 9.06, Happiness: 109.85, \
         Energy: 84.85, Room: food: 100, water: 100"
    );
}

#[test]
fn response_state_matches_the_persisted_record() {
    // The status payload and the record written right after it describe the
    // same state: reloading the record gives back exactly the creature the
    // response was formatted from.
    let mut t = Tamo::build(String::from("Tamo"));
    let status = handle_request_line(&mut t, b"Q\n").unwrap();
    let record = t.save_tamo();
    assert_eq!(record, "Tamo,0.01,10.01,9.02,99.95,104.95, 100, 100\n");
    let reloaded = load_tamo(&record).unwrap();
    assert_eq!(reloaded, t);
    assert_eq!(status, reloaded.status_string());
}

#[test]
fn ticker_step_reports_liveness() {
    let mut t = Tamo::build(String::from("Tamo"));
    assert!(ticker_step(&mut t));
    assert_eq!(t.age, 1);
    assert_eq!(t.energy, 9995);
}

#[test]
fn ticker_step_stops_on_death() {
    let mut t = Tamo::build(String::from("Tamo"));
    t.energy = 104;
    assert!(!ticker_step(&mut t));
    assert_eq!(t.age, i64::MAX);
}
