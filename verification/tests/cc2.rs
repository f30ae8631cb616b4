use printhub::cc2::client::{
    self, answer, client_id, client_id_from, next_backoff, registration, request_id,
    request_id_from, route, run_session, CommandError, Heartbeat, Link, LinkState, Outcome, Phase,
    RegisterOutcome, Route, SessionAction, SessionEvent, Timing, Topics,
};
use printhub::cc2::discovery::{self, DiscoveryInfo, ProbeAction, ProbeEvent, Probing};
use printhub::cc2::methods::error_code;
use printhub::cc2::methods::{
    ping_message, register_message, Empty, Envelope, FileRef, Request, SlotMapEntry, StartPrint,
    TaskPage, VideoStream, EVENT_STATUS, GET_STATUS, PAUSE_PRINT, START_PRINT,
};
use printhub::cc2::model::{
    lenient_int, Attributes, CanvasInfo, CanvasStatus, FileDetail, Heater, MachineState,
    StatusView, Tray, TrayState,
};
use printhub::cc2::status::{sequence_of, SequenceTracker, StatusCache};
use printhub::cc2::upload::{
    check_status, content_range, first_chunk, md5_hex, next_chunk, upload_url, Chunk, UploadError,
    CHUNK_SIZE,
};
use printhub::decimal::Decimal;
use printhub::json::{deep_merge, Json};

/// The shortest decimal fraction that reads back as the number.
fn decimal(number: f64) -> Decimal {
    let written = format!("{:e}", number.abs());
    let (digits, power) = written.split_once('e').unwrap();
    let places = digits.split_once('.').map_or(0, |(_, fraction)| fraction.len() as i16);
    Decimal {
        negative: number.is_sign_negative(),
        digits: digits.replace('.', "").parse().unwrap(),
        power: power.parse::<i16>().unwrap() - places,
    }
}

fn from_value(value: &serde_json::Value) -> Json {
    match value {
        serde_json::Value::Null => Json::Null,
        serde_json::Value::Bool(value) => Json::Bool(*value),
        serde_json::Value::Number(n) => match (n.as_u64(), n.as_i64(), n.as_f64()) {
            (Some(n), _, _) => Json::Unsigned(n),
            (None, Some(n), _) => Json::Negative(n),
            (None, None, Some(n)) => Json::Real(decimal(n)),
            (None, None, None) => Json::Null,
        },
        serde_json::Value::String(value) => Json::Text(value.clone()),
        serde_json::Value::Array(items) => Json::List(items.iter().map(from_value).collect()),
        serde_json::Value::Object(members) => Json::Object(
            members
                .iter()
                .map(|(key, value)| (key.clone(), from_value(value)))
                .collect(),
        ),
    }
}

fn json(text: &str) -> Json {
    from_value(&serde_json::from_str(text).unwrap())
}

fn envelope(text: &str) -> Envelope {
    Envelope::read(&json(text)).unwrap()
}

#[test]
fn client_id_shape() {
    let id = client_id();
    assert_eq!(id.len(), 10);
    assert!(id.starts_with("0cli"));
    assert!(id[4..].chars().all(|c| c.is_ascii_hexdigit()));
}

#[test]
fn ids_are_made_of_the_clock_and_chance() {
    assert_eq!(client_id_from(0x0123_4567_89ab, 0xfab), "0cli789abf");
    assert_eq!(client_id_from(0x12, 0x1), "0cli12001");
    assert_eq!(request_id_from(0xabc, 0x1), "0000000000000001abc");
    assert_ne!(request_id(), request_id());
}

#[test]
fn topics_follow_protocol() {
    let topics = Topics::new("SN1", "0cliabcdef", "req1");
    assert_eq!(topics.register, "elegoo/SN1/api_register");
    assert_eq!(topics.register_response, "elegoo/SN1/req1/register_response");
    assert_eq!(topics.request, "elegoo/SN1/0cliabcdef/api_request");
    assert_eq!(topics.response, "elegoo/SN1/0cliabcdef/api_response");
    assert_eq!(topics.status, "elegoo/SN1/api_status");
    assert_eq!(route(&topics, "elegoo/SN1/api_status"), Route::Status);
    assert_eq!(route(&topics, "elegoo/SN2/api_status"), Route::Other);
}

fn info(sn: &str) -> DiscoveryInfo {
    DiscoveryInfo {
        host_name: "Centauri Carbon 2".to_string(),
        machine_model: "Centauri Carbon 2".to_string(),
        sn: sn.to_string(),
        token_status: 0,
        lan_status: 1,
    }
}

#[test]
fn parses_reply() {
    let reply = json(
        r#"{"id":0,"result":{"host_name":"Centauri Carbon 2","machine_model":"Centauri Carbon 2","sn":"CC2ABC","token_status":0,"lan_status":1}}"#,
    );
    let (probing, action) = discovery::start(1);
    assert!(matches!(action, ProbeAction::Send));
    let (_, action) = discovery::discover_at(
        probing,
        ProbeEvent::Received { from_target: true, info: DiscoveryInfo::read(&reply) },
    );
    let found = match action {
        ProbeAction::Found(found) => found,
        _ => panic!("the reply counts"),
    };
    assert_eq!(found.sn, "CC2ABC");
    assert!(found.lan_only());
    assert!(!found.access_code_set());
    let short = DiscoveryInfo::read(&json(r#"{"id":0,"result":{"sn":"CC2XYZ"}}"#)).unwrap();
    assert_eq!((short.sn.as_str(), short.lan_status), ("CC2XYZ", 0));
    assert_eq!(DiscoveryInfo::read(&json("{}")), None);
    assert_eq!(DiscoveryInfo::read(&json(r#"{"result":{"host_name":"no serial"}}"#)), None);
}

#[test]
fn retries_after_a_lost_reply() {
    let (probing, _) = discovery::start(2);
    let (probing, action) = discovery::discover_at(probing, ProbeEvent::Deadline);
    assert!(matches!(action, ProbeAction::Send));
    let (probing, action) = discovery::discover_at(
        probing,
        ProbeEvent::Received { from_target: false, info: Some(info("OTHER")) },
    );
    assert!(matches!(action, ProbeAction::Wait), "another host's reply does not count");
    let (_, action) = discovery::discover_at(
        probing,
        ProbeEvent::Received { from_target: true, info: Some(info("CC2XYZ")) },
    );
    assert!(matches!(action, ProbeAction::Found(found) if found.sn == "CC2XYZ"));
}

#[test]
fn gives_up_with_no_reply() {
    let (probing, _) = discovery::start(2);
    let (probing, _) = discovery::discover_at(probing, ProbeEvent::Deadline);
    let (probing, action) = discovery::discover_at(probing, ProbeEvent::Deadline);
    assert!(matches!(action, ProbeAction::GiveUp));
    let Probing { attempts, .. } = probing;
    assert_eq!(attempts, 2);
}

/// Members compare without regard to their order.
fn sorted(value: Json) -> Json {
    match value {
        Json::Object(members) => {
            let mut members: Vec<(String, Json)> =
                members.into_iter().map(|(key, value)| (key, sorted(value))).collect();
            members.sort_by(|a, b| a.0.cmp(&b.0));
            Json::Object(members)
        }
        Json::List(items) => Json::List(items.into_iter().map(sorted).collect()),
        value => value,
    }
}

#[test]
fn start_print_matches_documented_shape() {
    let start = StartPrint::local(
        "multicolor.gcode",
        vec![SlotMapEntry { t: 0, canvas_id: 0, tray_id: 2 }],
    );
    let request = Request { id: 7, method: START_PRINT, params: start.params() };
    assert_eq!(
        sorted(request.message()),
        sorted(json(
            r#"{
                "id": 7,
                "method": 1020,
                "params": {
                    "storage_media": "local",
                    "filename": "multicolor.gcode",
                    "config": {
                        "delay_video": false,
                        "printer_check": true,
                        "print_layout": "A",
                        "bedlevel_force": false,
                        "slot_map": [{"t": 0, "canvas_id": 0, "tray_id": 2}]
                    }
                }
            }"#
        ))
    );
}

#[test]
fn empty_params_serialize_as_object() {
    let request = Request { id: 1, method: PAUSE_PRINT, params: Empty {}.params() };
    assert_eq!(
        sorted(request.message()),
        sorted(json(r#"{"id": 1, "method": 1021, "params": {}}"#))
    );
}

#[test]
fn other_messages_have_their_shapes() {
    assert_eq!(
        sorted(FileRef::local("a.gcode").params()),
        sorted(json(r#"{"storage_media": "local", "filename": "a.gcode"}"#))
    );
    assert_eq!(VideoStream { enable: true }.params(), json(r#"{"enable": true}"#));
    assert_eq!(
        sorted(TaskPage { page: 1, page_size: -3 }.params()),
        sorted(json(r#"{"page": 1, "page_size": -3}"#))
    );
    assert_eq!(ping_message(), json(r#"{"type": "PING"}"#));
    assert_eq!(
        sorted(register_message("c", "r")),
        sorted(json(r#"{"client_id": "c", "request_id": "r"}"#))
    );
}

#[test]
fn envelope_recognises_pong_and_error_codes() {
    let pong = envelope(r#"{"type":"PONG"}"#);
    assert!(pong.is_pong());

    let busy = envelope(r#"{"id":3,"method":1020,"result":{"error_code":1009}}"#);
    assert!(!busy.is_pong());
    assert_eq!(busy.error_code(), Some(error_code::PRINTER_BUSY));
}

#[test]
fn status_view_tolerates_floats_and_missing_fields() {
    let view = StatusView::read(&json(
        r#"{
            "machine_status": {"status": 2, "sub_status": 2075.0, "exception_status": [], "progress": "45"},
            "print_status": {"filename": "benchy.gcode", "current_layer": 225},
            "extruder": {"temperature": 215, "target": 220}
        }"#,
    ))
    .unwrap();
    assert_eq!(view.machine_status.state(), MachineState::Printing);
    assert_eq!(
        view.machine_status.sub_status,
        printhub::cc2::model::printing_sub_status::PRINTING
    );
    assert_eq!(view.machine_status.progress, 45);
    assert_eq!(view.print_status.current_layer, 225);
    assert_eq!(view.print_status.total_layer, 0);
    assert_eq!(view.extruder.temperature, Decimal { negative: false, digits: 215, power: 0 });
    assert_eq!(view.heater_bed, Heater::default());
    assert_eq!(lenient_int(&Json::Bool(true)), Some(1));
    assert_eq!(lenient_int(&Json::Text("x".to_string())), None);
    assert_eq!(lenient_int(&Json::Real(decimal(-1.999))), Some(-1));
}

#[test]
fn what_is_not_of_its_type_makes_a_view_unreadable() {
    assert_eq!(StatusView::read(&json("{}")), Some(StatusView::default()));
    assert_eq!(StatusView::read(&Json::Null), None);
    assert_eq!(StatusView::read(&json(r#"{"print_status": {"filename": 7}}"#)), None);
    assert_eq!(StatusView::read(&json(r#"{"machine_status": null}"#)), None);
    assert_eq!(
        StatusView::read(&json(r#"{"machine_status": {"exception_status": ["x"]}}"#)),
        None
    );
    assert_eq!(StatusView::read(&json(r#"{"external_device": {"camera": 1}}"#)), None);
    let heaters = StatusView::read(&json(r#"[{}, {}, {"temperature": 21.5}]"#)).unwrap();
    assert_eq!(
        heaters.extruder,
        Heater { temperature: decimal(21.5), ..Heater::default() }
    );
    let attributes = Attributes::read(&json(
        r#"{"sn": "CC2ABC", "software_version": {"ota_version": "1.2"}, "video_connections": "1"}"#,
    ))
    .unwrap();
    assert_eq!(attributes.sn, "CC2ABC");
    assert_eq!(attributes.software_version.ota_version, "1.2");
    assert_eq!(attributes.video_connections, 1);
    assert_eq!(Attributes::read(&json(r#"{"camera_connected": "yes"}"#)), None);
    assert_eq!(CanvasStatus::read(&json(r#"{"canvas_info": {"canvas_list": [{"canvas_id": -1}]}}"#)), None);
    assert_eq!(Envelope::read(&json(r#"{"method": 4294967296}"#)), None);
    assert_eq!(Envelope::read(&json(r#"{"id": null}"#)).unwrap().id, None);
}

#[test]
fn canvas_status_from_protocol_doc_sample() {
    let canvas = CanvasStatus::read(&json(
        r##"{
            "error_code": 0,
            "canvas_info": {
                "active_canvas_id": 0,
                "active_tray_id": 3,
                "auto_refill": false,
                "canvas_list": [{
                    "canvas_id": 0,
                    "connected": 1,
                    "tray_list": [
                        {"tray_id": 0, "brand": "ELEGOO", "filament_type": "PLA", "filament_name": "PLA",
                         "filament_color": "#2850DF", "min_nozzle_temp": 190, "max_nozzle_temp": 230, "status": 1},
                        {"tray_id": 3, "brand": "ELEGOO", "filament_type": "PLA", "filament_name": "PLA",
                         "filament_color": "#000000", "min_nozzle_temp": 190, "max_nozzle_temp": 230, "status": 2},
                        {"tray_id": 2, "status": 0}
                    ]
                }]
            }
        }"##,
    ))
    .unwrap();
    let trays = &canvas.canvas_info.canvas_list[0].tray_list;
    assert_eq!(trays[0].state(), TrayState::Loaded);
    assert_eq!(trays[1].state(), TrayState::Active);
    assert!(trays[1].has_filament());
    assert!(!trays[2].has_filament());
    assert_eq!(trays[0].filament_color, "#2850DF");
    assert_eq!(trays[2], Tray { tray_id: 2, ..Tray::default() });
    assert!(CanvasInfo::default().canvas_list.is_empty());
}

#[test]
fn file_detail_accepts_both_layer_names_at_once() {
    let detail = FileDetail::read(&json(
        r##"{
            "filename": "cube.gcode",
            "TotalLayers": 500,
            "layer": 500,
            "print_time": 4690,
            "total_filament_used": 24.8,
            "color_map": [{"color": "#0B6283", "name": "PLA", "t": 3}]
        }"##,
    ))
    .unwrap();
    assert_eq!(detail.layers(), Some(500));
    assert_eq!(detail.color_map[0].t, 3);
    assert_eq!(detail.total_filament_used, decimal(24.8));

    let only_legacy = FileDetail::read(&json(r#"{"total_layer": 7}"#)).unwrap();
    assert_eq!(only_legacy.layers(), Some(7));
}

#[test]
fn merge_nested_objects_and_replace_leaves() {
    let mut base = json(
        r#"{
            "machine_status": {"status": 2, "sub_status": 2075, "progress": 45},
            "extruder": {"temperature": 215.0, "target": 220},
            "machine_exceptions": [109, 1026]
        }"#,
    );
    deep_merge(
        &mut base,
        json(
            r#"{
                "machine_status": {"progress": 46},
                "extruder": {"temperature": 219.5},
                "machine_exceptions": [],
                "new_block": {"x": 1}
            }"#,
        ),
    );
    let expected = json(
        r#"{
            "machine_status": {"status": 2, "sub_status": 2075, "progress": 46},
            "extruder": {"temperature": 219.5, "target": 220},
            "machine_exceptions": [],
            "new_block": {"x": 1}
        }"#,
    );
    for block in ["machine_status", "extruder", "machine_exceptions", "new_block"] {
        let merged = base.get(block).unwrap();
        let wanted = expected.get(block).unwrap();
        if let Json::Object(members) = wanted {
            for (key, value) in members {
                assert_eq!(merged.get(key), Some(value), "{block}.{key}");
            }
            assert!(matches!(merged, Json::Object(found) if found.len() == members.len()));
        } else {
            assert_eq!(merged, wanted);
        }
    }
}

#[test]
fn merge_object_over_scalar_replaces() {
    let mut base = json(r#"{"a": 1}"#);
    deep_merge(&mut base, json(r#"{"a": {"b": 2}}"#));
    assert_eq!(base, json(r#"{"a": {"b": 2}}"#));
}

#[test]
fn sequence_gaps_trigger_refresh_only_after_a_run() {
    let mut tracker = SequenceTracker::default();
    assert!(!tracker.observe(10));
    assert!(!tracker.observe(11));
    for seq in [13, 15, 17, 19] {
        assert!(!tracker.observe(seq), "gap at {seq} is not yet a run");
    }
    assert!(tracker.observe(21));
    assert!(
        !tracker.observe(23),
        "counter restarts after requesting a refresh"
    );
}

#[test]
fn continuous_delta_resets_gap_count() {
    let mut tracker = SequenceTracker::default();
    tracker.observe(1);
    for seq in [3, 5, 7, 9] {
        tracker.observe(seq);
    }
    assert!(!tracker.observe(10));
    for seq in [12, 14, 16, 18] {
        assert!(!tracker.observe(seq));
    }
    assert!(tracker.observe(20));
}

#[test]
fn sequence_prefers_result_field() {
    assert_eq!(sequence_of(Some(4), &json(r#"{"sequence": 9}"#)), Some(9));
    assert_eq!(sequence_of(Some(4), &json("{}")), Some(4));
    assert_eq!(sequence_of(None, &json("{}")), None);
}

#[test]
fn cache_requests_full_frame_until_one_arrives() {
    let mut cache = StatusCache::default();
    assert!(cache.apply_delta(
        None,
        json(r#"{"sequence": 1, "machine_status": {"progress": 3}}"#)
    ));
    cache.apply_full(None, json(r#"{"sequence": 5, "machine_status": {"status": 1}}"#));
    assert!(!cache.apply_delta(
        None,
        json(r#"{"sequence": 6, "machine_status": {"progress": 7}}"#)
    ));
    let machine = cache.raw().get("machine_status").unwrap();
    assert_eq!(machine.get("status").and_then(lenient_int), Some(1));
    assert_eq!(machine.get("progress").and_then(lenient_int), Some(7));
}

#[test]
fn md5_matches_known_vector() {
    assert_eq!(md5_hex(b"hello world"), "5eb63bbbe01eeed093cb22bb8f5acdc3");
}

#[test]
fn uploads_go_chunk_by_chunk() {
    assert_eq!(first_chunk(0), Err(UploadError::Empty));
    let total = CHUNK_SIZE + 5;
    let first = first_chunk(total).unwrap();
    assert_eq!(first, Chunk { offset: 0, end: CHUNK_SIZE - 1 });
    assert_eq!(content_range(first, total), format!("bytes 0-{}/{total}", CHUNK_SIZE - 1));
    let second = next_chunk(total, first, 200, Some(0)).unwrap().unwrap();
    assert_eq!(second, Chunk { offset: CHUNK_SIZE, end: total - 1 });
    assert_eq!(next_chunk(total, second, 200, Some(0)).unwrap(), None);
    assert!(next_chunk(total, first, 500, None).is_err());
    assert_eq!(check_status(401), Err(UploadError::AccessDenied));
    assert!(check_status(200).is_ok());
    assert_eq!(upload_url("http://printer:80/"), "http://printer:80/upload");
}

#[test]
fn requests_are_answered_once_and_fail_with_the_connection() {
    let mut link = Link::new(0);
    assert_eq!(link.begin_request(), Err(CommandError::NotRegistered));
    link.on_registered(10);
    let id = link.begin_request().unwrap();
    let reply = envelope(&format!(
        r#"{{"id":{id},"method":{GET_STATUS},"result":{{"error_code":0,"sequence":1}}}}"#
    ));
    assert_eq!(link.on_response(&reply, 20), Some(id));
    assert!(link.snapshot.status.is_some());
    assert_eq!(link.on_response(&reply, 20), None, "nobody waits any more");
    assert!(link.pending.is_empty());
    link.begin_request().unwrap();
    link.on_disconnect("gone".to_string());
    assert!(link.pending.is_empty());
    assert!(!link.registered);
}

#[test]
fn printer_error_codes_surface() {
    let refused = answer(
        START_PRINT,
        Outcome::Answered(envelope(r#"{"id":1,"method":1020,"result":{"error_code":1009}}"#)),
    )
    .unwrap_err();
    assert_eq!(refused.printer_code(), Some(1009));
    assert_eq!(answer(1002, Outcome::Lost), Err(CommandError::ConnectionLost { method: 1002 }));
    assert_eq!(answer(1002, Outcome::TimedOut), Err(CommandError::Timeout { method: 1002 }));
    assert_eq!(
        CommandError::NotRegistered.message(),
        "not registered with the printer"
    );
}

#[test]
fn silent_printer_forces_reconnect() {
    let mut link = Link::new(0);
    link.on_registered(0);
    let timing = Timing::default();
    assert_eq!(link.on_heartbeat(timing.heartbeat_timeout, &timing), Heartbeat::Ping);
    assert_eq!(
        link.on_heartbeat(timing.heartbeat_timeout + 1, &timing),
        Heartbeat::Reconnect
    );
    assert_eq!(next_backoff(1_000), 2_000);
    assert_eq!(next_backoff(20_000), client::MAX_BACKOFF);
}

#[test]
fn registration_rejection_is_reported_and_retried() {
    let timing = Timing::default();
    assert!(registration(RegisterOutcome::Answered("ok".to_string()), &timing).is_ok());
    assert!(registration(RegisterOutcome::Answered("too many clients".to_string()), &timing)
        .unwrap_err()
        .contains("too many clients"));
    let (phase, action) = run_session(Phase::Registering, SessionEvent::Failed);
    assert_eq!(action, SessionAction::WaitToRegister);
    let (_, action) = run_session(phase, SessionEvent::Done);
    assert_eq!(action, SessionAction::Register);
    let mut link = Link::new(0);
    assert!(link.set_link(LinkState::Rejected("too many clients".to_string())));
    assert!(!link.set_link(LinkState::Rejected("too many clients".to_string())));
}

#[test]
fn run_of_sequence_gaps_requests_full_status() {
    let mut link = Link::new(0);
    link.on_registered(0);
    let push = |sequence: u64| {
        envelope(&format!(
            r#"{{"id":{sequence},"method":{EVENT_STATUS},"result":{{"machine_status":{{"progress":{sequence}}}}}}}"#
        ))
    };
    assert!(link.on_status_event(push(1)), "no full frame yet");
    assert!(!link.on_status_event(push(2)), "one request at a time");
    assert!(link.snapshot.status.is_none(), "a delta alone would show defaults");
    link.refresh_done();
    assert!(!link.full_refresh_in_flight);
}

#[test]
fn merging_the_same_delta_again_changes_nothing() {
    let delta = r#"{"a": {"b": 2, "list": [1]}, "new": {"x": {"y": null}}}"#;
    let mut base = json(r#"{"a": {"b": 1, "c": 3}, "kept": true}"#);
    deep_merge(&mut base, json(delta));
    let once = base.duplicate();
    deep_merge(&mut base, json(delta));
    assert_eq!(base, once);
    assert_eq!(base.get("a").and_then(|a| a.get("c")), Some(&Json::Unsigned(3)));
}

#[test]
fn fractions_are_kept_as_they_are() {
    let read = json("0.1234567");
    assert_eq!(read, Json::Real(Decimal { negative: false, digits: 1_234_567, power: -7 }));
    for number in [
        0.0, -0.0, 0.5, 1.5, 2.5, -0.4, -0.5, 214.6, 99.4996, 99.5, 1e-9, 123_456.75, 1e15, -7.25,
    ] {
        let shown = decimal(number);
        let mut rounded = String::new();
        shown.push_rounded(&mut rounded);
        assert_eq!(rounded, format!("{number:.0}"));
        assert_eq!(shown.truncate(), number as i64);
        assert_eq!(shown.is_above_zero(), number > 0.0);
    }
    for number in [0.0, 1.5, 0.25, 0.75, -3.14, 1_234.56, 2e3] {
        let mut written = String::new();
        decimal(number).push_one_place(&mut written);
        assert_eq!(written, format!("{number:.1}"));
    }
    assert_eq!(decimal(1e300).truncate(), i64::MAX);
    assert_eq!(decimal(-1e300).truncate(), i64::MIN);
    let mut large = String::new();
    decimal(3e22).push_rounded(&mut large);
    assert_eq!(large, format!("{:.0}", 3e22));
}
