use printhub::config::Nozzle;
use printhub::json::Json;
use printhub::slicer::{
    cube_stl, default_process, last_lines, machine_name, placement_args, Plate, ProfileLibrary, SliceError,
    SliceSettings, Slicer, SCALE_MAX, SCALE_PERCENT,
};

const MACHINE: &str = "Elegoo Centauri Carbon 2 0.4 nozzle";

fn from_value(value: &serde_json::Value) -> Json {
    match value {
        serde_json::Value::Null => Json::Null,
        serde_json::Value::Bool(value) => Json::Bool(*value),
        serde_json::Value::Number(n) => Json::Unsigned(n.as_u64().unwrap()),
        serde_json::Value::String(value) => Json::Text(value.clone()),
        serde_json::Value::Array(items) => Json::List(items.iter().map(from_value).collect()),
        serde_json::Value::Object(members) => Json::Object(
            members
                .iter()
                .map(|(key, value)| (key.clone(), from_value(value)))
                .collect(),
        ),
    }
}

/// A miniature vendor tree shaped like the bundled one.
fn vendor() -> ProfileLibrary {
    let mut library = ProfileLibrary::new();
    for profile in [
        r#"{"name": "fdm_machine_common", "type": "machine", "gcode_flavor": "marlin", "printable_height": "100"}"#.to_string(),
        format!(r#"{{"name": "{MACHINE}", "type": "machine", "inherits": "fdm_machine_common", "from": "system", "instantiation": "true", "gcode_flavor": "klipper"}}"#),
        r#"{"name": "fdm_process_common", "type": "process", "wall_loops": "2", "sparse_infill_density": "15%"}"#.to_string(),
        format!(r#"{{"name": "0.20mm Standard @Elegoo CC2 0.4 nozzle", "type": "process", "inherits": "fdm_process_common", "instantiation": "true", "compatible_printers": ["{MACHINE}"]}}"#),
        r#"{"name": "0.12mm Fine @Elegoo CC2 0.4 nozzle", "type": "process", "inherits": "0.20mm Standard @Elegoo CC2 0.4 nozzle", "instantiation": "true"}"#.to_string(),
        format!(r#"{{"name": "fdm_process_cc2_common", "type": "process", "instantiation": "false", "compatible_printers": ["{MACHINE}"]}}"#),
        format!(r#"{{"name": "0.20mm Orphan @Elegoo CC2 0.4 nozzle", "type": "process", "inherits": "missing", "instantiation": "true", "compatible_printers": ["{MACHINE}"]}}"#),
        r#"{"name": "0.20mm Standard @Other", "type": "process", "instantiation": "true", "compatible_printers": ["Other printer"]}"#.to_string(),
        r#"{"name": "fdm_filament_pla", "type": "filament", "filament_density": ["1.24"], "filament_type": ["PLA"]}"#.to_string(),
        r#"{"name": "Elegoo PLA @base", "type": "filament", "inherits": "fdm_filament_pla", "filament_density": ["1.25"]}"#.to_string(),
        format!(r#"{{"name": "Elegoo PLA @ECC2", "type": "filament", "inherits": "Elegoo PLA @base", "instantiation": "true", "compatible_printers": ["{MACHINE}"]}}"#),
        r#"{"name": "loop", "type": "filament", "inherits": "loop"}"#.to_string(),
    ] {
        library.insert(from_value(&serde_json::from_str(&profile).unwrap()));
    }
    library
}

fn texts(items: &[&str]) -> Json {
    Json::List(items.iter().map(|item| text(item)).collect())
}

fn text(value: &str) -> Json {
    Json::Text(value.to_string())
}

fn slicer() -> Slicer {
    Slicer {
        binary: "orca".to_string(),
        library: vendor(),
        timeout: 10,
    }
}

fn settings() -> SliceSettings {
    SliceSettings {
        nozzle: Nozzle::Mm04,
        plate: Plate::HighTemp,
        process: "0.20mm Standard @Elegoo CC2 0.4 nozzle".into(),
        filament: "Elegoo PLA @ECC2".into(),
        color_hex: "#2850DF".into(),
        supports: true,
        infill_percent: 25,
    }
}

#[test]
fn nearer_profiles_win_and_inherits_is_dropped() {
    let library = vendor();
    let pla = Json::Object(library.flatten("Elegoo PLA @ECC2").unwrap());
    assert_eq!(pla.get("filament_density"), Some(&texts(&["1.25"])));
    assert_eq!(pla.get("filament_type"), Some(&texts(&["PLA"])));
    assert_eq!(pla.get("name"), Some(&text("Elegoo PLA @ECC2")));
    assert_eq!(pla.get("inherits"), None);

    assert!(matches!(
        library.flatten("loop"),
        Err(SliceError::InheritanceLoop(_))
    ));
    assert!(matches!(
        library.flatten("nope"),
        Err(SliceError::UnknownProfile(_))
    ));
}

#[test]
fn only_compatible_selectable_profiles_are_listed() {
    let library = vendor();
    assert_eq!(
        library.compatible("process", MACHINE),
        [
            "0.12mm Fine @Elegoo CC2 0.4 nozzle",
            "0.20mm Standard @Elegoo CC2 0.4 nozzle"
        ],
        "inherited compatibility counts; parents and unresolvable profiles are left out"
    );
    assert_eq!(library.compatible("filament", MACHINE), ["Elegoo PLA @ECC2"]);
}

#[test]
fn slice_writes_flattened_system_profiles() {
    let slicer = slicer();
    let plan = slicer
        .slice("/work/model.stl", "/work", &settings())
        .unwrap();
    assert_eq!(plan.gcode, "/work/out/plate_1.gcode");

    let settings_arg =
        &plan.args[plan.args.iter().position(|a| a == "--load-settings").unwrap() + 1];
    assert_eq!(settings_arg.split(';').count(), 2);
    assert_eq!(plan.args.last().unwrap(), "/work/model.stl");

    let read = |name: &str| -> &Json {
        let path = format!("/work/profiles/{name}");
        &plan.files.iter().find(|(file, _)| *file == path).unwrap().1
    };
    let (machine, process, filament) = (
        read("machine.json"),
        read("process.json"),
        read("filament.json"),
    );
    assert_eq!(machine.get("from"), Some(&text("system")));
    assert_eq!(machine.get("gcode_flavor"), Some(&text("klipper")));
    assert_eq!(machine.get("printable_height"), Some(&text("100")));
    assert_eq!(process.get("curr_bed_type"), Some(&text("High Temp Plate")));
    assert_eq!(process.get("enable_support"), Some(&text("1")));
    assert_eq!(process.get("sparse_infill_density"), Some(&text("25%")));
    assert_eq!(process.get("wall_loops"), Some(&text("2")));
    assert_eq!(filament.get("filament_colour"), Some(&texts(&["#2850DF"])));
    assert_eq!(filament.get("filament_density"), Some(&texts(&["1.25"])));
}

#[test]
fn failures_and_timeouts_are_reported() {
    let slicer = slicer();
    let plan = || slicer.slice("/work/model.stl", "/work", &settings()).unwrap();
    match slicer.finished(
        plan(),
        false,
        "exit status: 3".to_string(),
        b"process not compatible with printer.\n",
        b"",
        false,
    ) {
        Err(SliceError::Failed { output, .. }) => {
            assert!(output.contains("not compatible"), "{output}")
        }
        other => panic!("expected a failure, got {other:?}"),
    }
    assert!(matches!(
        slicer.finished(plan(), true, String::new(), b"", b"", false),
        Err(SliceError::NoOutput)
    ));
    assert!(matches!(slicer.timed_out(), SliceError::Timeout(10)));
    assert_eq!(
        slicer
            .finished(plan(), true, String::new(), b"", b"", true)
            .unwrap(),
        "/work/out/plate_1.gcode"
    );
}

#[test]
fn a_nozzle_without_a_machine_profile_is_an_error() {
    let slicer = slicer();
    assert!(slicer.processes(Nozzle::Mm06).is_empty());
    let result = slicer.slice(
        "/work/model.stl",
        "/work",
        &SliceSettings {
            nozzle: Nozzle::Mm06,
            ..settings()
        },
    );
    assert!(matches!(result, Err(SliceError::UnknownProfile(name)) if name.contains("0.6")));
}

#[test]
fn only_the_end_of_what_the_slicer_says_is_kept() {
    let many: String = (0..40).map(|n| format!("line {n}\n\n")).collect();
    let kept = last_lines(many.as_bytes(), b"\xFFend\n");
    assert_eq!(kept.lines().count(), 20);
    assert!(kept.starts_with("line 21"), "{kept}");
    assert!(kept.ends_with("\u{FFFD}end"), "{kept}");
}

#[test]
fn names_follow_the_nozzle() {
    assert_eq!(machine_name(Nozzle::Mm04), MACHINE);
    assert_eq!(
        default_process(Nozzle::Mm06),
        "0.30mm Standard @Elegoo CC2 0.6 nozzle"
    );
    assert_eq!(Plate::parse("High Temp Plate"), Some(Plate::HighTemp));
    assert_eq!(Plate::parse("Glass"), None);
    let cube = cube_stl(20);
    assert!(cube.starts_with("solid cube\n"));
    assert_eq!(cube.matches("facet normal").count(), 12);
    assert_eq!(
        SliceError::UnknownProfile("x\"y".to_string()).message(),
        "unknown slicer profile \"x\\\"y\""
    );
}

/// Profiles `p0` to the last, each of which inherits from the next.
fn chain(length: usize) -> ProfileLibrary {
    let mut library = ProfileLibrary::new();
    for i in 0..length {
        let mut members = vec![
            ("name".to_string(), text(&format!("p{i}"))),
            (format!("own{i}"), text("kept")),
            ("depth".to_string(), text(&i.to_string())),
        ];
        if i + 1 < length {
            members.push(("inherits".to_string(), text(&format!("p{}", i + 1))));
        }
        library.insert(Json::Object(members));
    }
    library
}

#[test]
fn sixteen_profiles_are_followed_and_no_more() {
    let flat = Json::Object(chain(16).flatten("p0").unwrap());
    assert_eq!(flat.get("depth"), Some(&text("0")));
    assert_eq!(flat.get("own15"), Some(&text("kept")));
    assert_eq!(flat.get("inherits"), None);
    assert!(matches!(chain(17).flatten("p0"), Err(SliceError::InheritanceLoop(_))));
    assert!(chain(17).flatten("p1").is_ok());
}

#[test]
fn models_are_scaled_and_laid_flat_on_request() {
    assert!(placement_args(SCALE_MAX, false).is_empty());
    assert_eq!(placement_args(150 * SCALE_PERCENT, false), ["--scale", "1.5"]);
    assert_eq!(placement_args(333_330_000_000_000_000, false), ["--scale", "0.33333"]);
    assert_eq!(placement_args(200 * SCALE_PERCENT, true), ["--scale", "2", "--orient", "1"]);
    assert_eq!(placement_args(SCALE_MAX, true), ["--orient", "1"]);
}
