use printhub::fakeprinter::{
    approach, parse_content_range, FakePrinter, Options, AMBIENT, NOZZLE_TARGET, SIMULATED_LAYERS,
};
use printhub::json::Json;

fn text(value: &str) -> Json {
    Json::Text(value.to_string())
}

fn object(members: Vec<(&str, Json)>) -> Json {
    Json::Object(
        members
            .into_iter()
            .map(|(key, value)| (key.to_string(), value))
            .collect(),
    )
}

fn at<'a>(value: &'a Json, path: &[&str]) -> &'a Json {
    path.iter()
        .fold(value, |value, key| value.get(key).expect("the member is there"))
}

#[test]
fn content_range_parsing() {
    assert_eq!(parse_content_range("bytes 0-99/100"), Some((0, 99, 100)));
    assert_eq!(parse_content_range("bytes 100-199/300"), Some((100, 199, 300)));
    assert_eq!(parse_content_range("bytes 5-4/100"), None);
    assert_eq!(parse_content_range("bytes 0-100/100"), None);
    assert_eq!(parse_content_range("0-99/100"), None);
}

#[test]
fn a_simulated_print_heats_advances_pauses_and_finishes() {
    let mut printer = FakePrinter::new(Options::default());
    printer.add_file("a.gcode", b"G28");
    assert!(!printer.simulate_second(4).0, "nothing to simulate while idle");
    printer.execute(1020, &object(vec![("filename", text("a.gcode"))]));

    assert!(!printer.simulate_second(4).0);
    let running = printer.full_status();
    assert_eq!(at(&running, &["machine_status", "progress"]).as_i64(), Some(25));
    assert_eq!(printer.machine.extruder.target, NOZZLE_TARGET);
    assert!(printer.machine.extruder.temperature > AMBIENT);
    assert_eq!(
        at(&running, &["print_status", "total_layer"]).as_u64(),
        Some(SIMULATED_LAYERS)
    );

    printer.execute(1021, &object(vec![]));
    assert!(!printer.simulate_second(4).0);
    assert_eq!(
        at(&printer.full_status(), &["machine_status", "progress"]).as_i64(),
        Some(25),
        "paused"
    );
    printer.execute(1023, &object(vec![]));

    assert!(!printer.simulate_second(4).0);
    assert!(!printer.simulate_second(4).0);
    assert!(
        printer.simulate_second(4).0,
        "the fourth printing second ends it"
    );
    printer.complete_print();
    let done = printer.full_status();
    assert_eq!(at(&done, &["machine_status", "status"]).as_i64(), Some(1));
    assert_eq!(at(&done, &["print_status", "current_layer"]).as_i64(), Some(0));
    assert!(!printer.simulate_second(4).0);
    assert_eq!(printer.machine.extruder.target, 0, "the heaters turn off");
}

#[test]
fn the_light_is_switched_and_reported() {
    let mut printer = FakePrinter::new(Options::default());
    let (reply, pushed) = printer.execute(1029, &object(vec![("power", Json::Unsigned(1))]));
    assert_eq!(at(&reply, &["error_code"]).as_i64(), Some(0));
    assert_eq!(at(&pushed.unwrap(), &["led", "status"]).as_i64(), Some(1));
}

#[test]
fn a_print_needs_its_file_and_an_idle_printer() {
    let mut printer = FakePrinter::new(Options::default());
    let params = object(vec![("filename", text("a.gcode"))]);
    let (missing, _) = printer.execute(1020, &params);
    assert_ne!(at(&missing, &["error_code"]).as_i64(), Some(0));
    printer.add_file("a.gcode", b"G28");
    let (started, _) = printer.execute(1020, &params);
    assert_eq!(at(&started, &["error_code"]).as_i64(), Some(0));
    let (busy, _) = printer.execute(1020, &params);
    assert_eq!(at(&busy, &["error_code"]).as_i64(), Some(1009));
    let (unknown, _) = printer.execute(4242, &object(vec![]));
    assert_eq!(at(&unknown, &["error_code"]).as_i64(), Some(1001));
}

#[test]
fn heaters_settle_at_their_target() {
    let mut heat = approach(AMBIENT, NOZZLE_TARGET);
    for _ in 0..1_000 {
        heat = approach(heat.temperature, heat.target);
    }
    assert_eq!(heat.temperature, NOZZLE_TARGET);
}
