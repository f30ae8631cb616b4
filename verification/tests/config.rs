use printhub::config::{
    parse_bool, parse_duration, parse_port, Config, ConfigError, Env, Nozzle, Resolved,
    DEFAULT_ACCESS_CODE,
};
use printhub::zone::Zone;

/// A zone file without transitions: the rule at its end holds for all times.
fn zone(name: &str, abbreviation: &str, offset: i32, rule: &str) -> Zone {
    let mut block: Vec<u8> = Vec::new();
    block.extend_from_slice(b"TZif2");
    block.extend_from_slice(&[0; 15]);
    for count in [0u32, 0, 0, 0, 1, abbreviation.len() as u32 + 1] {
        block.extend_from_slice(&count.to_be_bytes());
    }
    block.extend_from_slice(&offset.to_be_bytes());
    block.extend_from_slice(&[0, 0]);
    block.extend_from_slice(abbreviation.as_bytes());
    block.push(0);
    let mut data = block.clone();
    data.extend_from_slice(&block);
    data.extend_from_slice(format!("\n{rule}\n").as_bytes());
    Zone::new(name.to_string(), data).unwrap()
}

fn utc() -> Zone {
    zone("UTC", "UTC", 0, "UTC0")
}

fn config(pairs: &[(&str, &str)]) -> Result<Config, ConfigError> {
    let vars: Vec<(String, String)> = pairs
        .iter()
        .map(|(k, v)| ((*k).to_owned(), (*v).to_owned()))
        .collect();
    let value = |name: &str| {
        vars.iter()
            .find(|(key, _)| key == name)
            .map(|(_, value)| value.trim().to_owned())
    };
    let listen_addr_reads = value("LISTEN_ADDR")
        .unwrap_or("0.0.0.0:8080".to_owned())
        .contains(':');
    let zone = match value("TZ").as_deref() {
        Some("Europe/Berlin") => Some(zone(
            "Europe/Berlin",
            "CET",
            3600,
            "CET-1CEST,M3.5.0,M10.5.0/3",
        )),
        _ => None,
    };
    Config::from_lookup(
        &Env { vars },
        Resolved { listen_addr_reads, zone, system_zone: utc() },
    )
}

#[test]
fn defaults_with_only_printer_host() {
    let config = config(&[("PRINTER_HOST", " cc2 ")]).ok().unwrap();
    assert_eq!(config.printer_host, "cc2");
    assert_eq!(config.printer_access_code, DEFAULT_ACCESS_CODE);
    assert_eq!(config.printer_sn, None);
    assert_eq!(
        (
            config.printer_mqtt_port,
            config.printer_upload_port,
            config.printer_camera_port
        ),
        (1883, 80, 8080)
    );
    assert_eq!(config.nozzle, Nozzle::Mm04);
    assert_eq!(config.listen_addr, "0.0.0.0:8080");
    assert_eq!(config.data_dir, "/data");
    assert!(config.admin_bootstrap.is_none());
    assert!(!config.trust_proxy);
    assert!(config.camera_enabled);
    assert_eq!(config.max_upload_bytes, 200 * 1024 * 1024);
    assert_eq!(config.slice_timeout, 900);
    assert_eq!(config.estimate_margin, 1_150_000);
    assert_eq!(config.timezone.id(), "UTC");
}

#[test]
fn missing_printer_host_names_the_variable() {
    let err = config(&[]).err().unwrap();
    assert_eq!(err.var, "PRINTER_HOST");
    assert_eq!(
        err.text(),
        "PRINTER_HOST: required: the printer's hostname or IP address"
    );
}

#[test]
fn empty_value_falls_back_to_default() {
    let config = config(&[("PRINTER_HOST", "cc2"), ("CAMERA_ENABLED", "")])
        .ok()
        .unwrap();
    assert!(config.camera_enabled);
}

#[test]
fn invalid_values_name_the_variable() {
    for (var, value) in [
        ("TRUST_PROXY", "maybe"),
        ("PRINTER_NOZZLE", "0.5"),
        ("PRINTER_CAMERA_PORT", "0"),
        ("LISTEN_ADDR", "8080"),
        ("MAX_UPLOAD_MB", "0"),
        ("SLICE_TIMEOUT", "15"),
        ("ESTIMATE_MARGIN", "0.9"),
        ("TZ", "Mars/Olympus_Mons"),
    ] {
        let err = config(&[("PRINTER_HOST", "cc2"), (var, value)]).err().unwrap();
        assert_eq!(err.var, var, "{value:?} should be rejected");
        assert!(err.message.contains(&format!("{value:?}")), "{}", err.message);
    }
}

#[test]
fn time_zone_by_name() {
    let config = config(&[("PRINTER_HOST", "cc2"), ("TZ", "Europe/Berlin")])
        .ok()
        .unwrap();
    assert_eq!(config.timezone.id(), "Europe/Berlin");
}

#[test]
fn admin_bootstrap_needs_both_halves() {
    let err = config(&[("PRINTER_HOST", "cc2"), ("ADMIN_USERNAME", "alex")])
        .err()
        .unwrap();
    assert_eq!(err.var, "ADMIN_PASSWORD");

    let config = config(&[
        ("PRINTER_HOST", "cc2"),
        ("ADMIN_USERNAME", "alex"),
        ("ADMIN_PASSWORD", " secret "),
    ])
    .ok()
    .unwrap();
    let admin = config.admin_bootstrap.unwrap();
    assert_eq!(admin.username, "alex");
    assert_eq!(admin.password, " secret ");
}

#[test]
fn durations() {
    assert_eq!(parse_duration("90s"), Some(90));
    assert_eq!(parse_duration("15m"), Some(900));
    assert_eq!(parse_duration("2h"), Some(7200));
    assert_eq!(parse_duration("0m"), None);
    assert_eq!(parse_duration("m"), None);
    assert_eq!(parse_duration("5d"), None);
}

#[test]
fn words_and_ports() {
    assert_eq!(parse_bool("Yes"), Some(true));
    assert_eq!(parse_bool("off"), Some(false));
    assert_eq!(parse_bool("maybe"), None);
    assert_eq!(parse_port("65535"), Some(65_535));
    assert_eq!(parse_port("65536"), None);
    assert_eq!(Nozzle::parse("0.6"), Some(Nozzle::Mm06));
    assert_eq!(Nozzle::Mm06.micrometres(), 600);
    let margin = config(&[("PRINTER_HOST", "cc2"), ("ESTIMATE_MARGIN", "1.5")])
        .ok()
        .unwrap()
        .estimate_margin;
    assert_eq!(margin, 1_500_000);
}

#[test]
fn debug_redacts_secrets() {
    let config = config(&[
        ("PRINTER_HOST", "cc2"),
        ("PRINTER_ACCESS_CODE", "hunter2"),
        ("ADMIN_USERNAME", "alex"),
        ("ADMIN_PASSWORD", "swordfish"),
    ])
    .ok()
    .unwrap();
    let debug = config.debug_text();
    assert!(!debug.contains("hunter2"));
    assert!(!debug.contains("swordfish"));
    assert!(debug.contains("alex"));
}

#[test]
fn margins_are_taken_as_floats_take_them() {
    for raw in [
        "1", "1.15", "0.9", "0.99999999999999999", "0.9999999999999999", "1e12", "1e30", "1e308",
        "1.7976931348623157e308", "1.7976931348623158e308", "1.7976931348623159e308", "1e309",
        "1e400", "1e99999999999999999999", "0e99999999999999999999", "-1e400", "inf", "nan", "x",
        "1000000e-6", "+2", "-2",
    ] {
        let float = raw.parse::<f64>().ok().filter(|m| m.is_finite() && *m >= 1.0);
        let read = config(&[("PRINTER_HOST", "cc2"), ("ESTIMATE_MARGIN", raw)]).ok();
        assert_eq!(read.is_some(), float.is_some(), "{raw}");
    }
}
