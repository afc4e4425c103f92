use mcpg_log_syslog::manifest::{Capability, PluginClass, PLUGIN_ID};
use mcpg_log_syslog::{
    ConfigError, Delivery, Destination, LogLevel, LogRecord, SyslogConfig, SyslogFormat, SyslogSink,
};
use serde_json::Value;

const TS: u64 = 1_700_000_000_000_000_000; // fixed for deterministic timestamps

fn build(cfg: SyslogConfig) -> SyslogSink {
    match SyslogSink::from_config_json(Ok(cfg)) {
        Ok(sink) => sink,
        Err(err) => panic!("{}", err.message()),
    }
}

fn stdout() -> SyslogConfig {
    SyslogConfig::new(Destination::Stdout)
}

fn udp(address: &str) -> SyslogConfig {
    SyslogConfig::new(Destination::Udp { address: address.to_string() })
}

fn tcp(address: &str) -> SyslogConfig {
    SyslogConfig::new(Destination::Tcp { address: address.to_string() })
}

fn rec(level: LogLevel, msg: &str) -> LogRecord {
    LogRecord::new(TS, level, "mcpg::test".to_string(), msg.to_string())
}

#[test]
fn manifest_is_correct() {
    let p = build(stdout());
    let m = p.manifest();
    assert_eq!(m.id, PLUGIN_ID);
    assert_eq!(m.plugin_class, PluginClass::LogSink);
    assert!(
        m.required_capabilities.iter().any(|c| matches!(c, Capability::NetworkOutbound)),
        "syslog declares network egress"
    );
    assert_eq!(m.id, "dev.mcpg.log.syslog");
    assert_eq!(m.name, "Syslog Log Sink");
    assert_eq!(m.required_capabilities.len(), 1);
}

#[test]
fn rfc5424_render_shape() {
    let mut cfg = stdout();
    cfg.hostname = Some("host1".to_string());
    cfg.app_name = "gw".to_string();
    let p = build(cfg);
    // facility 1 (default) + Info severity 6 gives PRI 14.
    let line = p.render(&rec(LogLevel::Info, "hello"));
    assert!(line.starts_with("<14>1 "), "{line}");
    assert!(line.contains(" host1 gw - mcpg::test - hello"), "{line}");
    assert_eq!(line, "<14>1 2023-11-14T22:13:20.000000Z host1 gw - mcpg::test - hello");
}

#[test]
fn rfc3164_render_shape() {
    let mut cfg = stdout();
    cfg.format = SyslogFormat::Rfc3164;
    cfg.hostname = Some("host1".to_string());
    cfg.app_name = "gw".to_string();
    let p = build(cfg);
    let line = p.render(&rec(LogLevel::Warn, "careful"));
    // facility 1 + Warn severity 4 gives PRI 12.
    assert!(line.starts_with("<12>"), "{line}");
    assert!(line.contains(" host1 gw: careful"), "{line}");
    assert_eq!(line, "<12>Nov 14 22:13:20 host1 gw: careful");
}

#[test]
fn pri_uses_facility_and_severity() {
    let mut cfg = stdout();
    cfg.facility = 16;
    let p = build(cfg);
    // facility 16 * 8 + Error severity 3 = 131.
    assert!(p.render(&rec(LogLevel::Error, "boom")).starts_with("<131>"));
}

#[test]
fn include_fields_appends_json() {
    let p = build(stdout());
    let mut r = rec(LogLevel::Info, "msg");
    r.fields.insert("k".to_string(), Value::String("v".to_string()));
    let line = p.render(&r);
    assert!(line.contains(r#"{"k":"v"}"#), "{line}");
    assert!(line.ends_with(r#" - msg {"k":"v"}"#), "{line}");
}

#[test]
fn fields_excluded_when_disabled() {
    let mut cfg = stdout();
    cfg.include_fields = false;
    let p = build(cfg);
    let mut r = rec(LogLevel::Info, "msg");
    r.fields.insert("k".to_string(), Value::String("v".to_string()));
    assert!(!p.render(&r).contains("\"k\""));
    assert_eq!(p.message(&r), "msg");
}

#[test]
fn udp_loopback_emit_delivers_line() {
    let p = build(udp("127.0.0.1:5140"));
    let record = rec(LogLevel::Info, "over the wire");
    let expected = p.render(&record);
    match p.emit(&record) {
        Some(Delivery::Datagram { address, line }) => {
            assert_eq!(address, "127.0.0.1:5140");
            assert_eq!(line.as_bytes(), expected.as_bytes());
        }
        other => panic!("datagram should be sent: {other:?}"),
    }
}

#[test]
fn min_level_drops_lower_records() {
    let mut cfg = udp("127.0.0.1:5140");
    cfg.min_level = Some(LogLevel::Warn);
    let p = build(cfg);
    // below warn: dropped
    assert!(
        p.emit(&rec(LogLevel::Info, "too quiet")).is_none(),
        "info must be dropped under min_level=warn"
    );
}

#[test]
fn min_level_passes_equal_or_higher() {
    let mut cfg = udp("127.0.0.1:5140");
    cfg.min_level = Some(LogLevel::Warn);
    let p = build(cfg);
    assert!(p.emit(&rec(LogLevel::Error, "loud")).is_some());
    assert!(p.emit(&rec(LogLevel::Warn, "just enough")).is_some());
}

#[test]
fn stdout_emit_does_not_panic() {
    let p = build(SyslogConfig::new(Destination::Stderr));
    let record = rec(LogLevel::Info, "to stderr");
    match p.emit(&record) {
        Some(Delivery::Stderr { frame }) => assert_eq!(frame, p.render(&record) + "\n"),
        other => panic!("{other:?}"),
    }
}

#[test]
#[should_panic(expected = "facility")]
fn bad_facility_panics() {
    let mut cfg = stdout();
    cfg.facility = 24;
    build(cfg);
}

#[test]
#[should_panic(expected = "config JSON failed to parse")]
fn malformed_config_panics() {
    let err = serde_json::from_str::<Value>("{ not json").unwrap_err().to_string();
    if let Err(err) = SyslogSink::from_config_json(Err(err)) {
        panic!("{}", err.message());
    }
}

#[test]
#[should_panic(expected = "address must not be empty")]
fn empty_udp_address_panics() {
    build(udp(""));
}

#[test]
fn refusals_and_their_words() {
    let mut cfg = stdout();
    cfg.facility = 24;
    let err = SyslogSink::from_config_json(Ok(cfg)).unwrap_err();
    assert!(matches!(err, ConfigError::FacilityOutOfRange(24)));
    assert_eq!(err.message(), "log-syslog: facility 24 out of range (0–23)");

    let err = SyslogSink::from_config_json(Ok(udp(""))).unwrap_err();
    assert!(matches!(err, ConfigError::EmptyUdpAddress));
    assert_eq!(err.message(), "log-syslog: udp address must not be empty");

    let err = SyslogSink::from_config_json(Ok(tcp(""))).unwrap_err();
    assert!(matches!(err, ConfigError::EmptyTcpAddress));
    assert_eq!(err.message(), "log-syslog: tcp address must not be empty");

    let err = SyslogSink::from_config_json(Err("expected value".to_string())).unwrap_err();
    assert!(matches!(err, ConfigError::Malformed(_)));
    assert_eq!(err.message(), "log-syslog: config JSON failed to parse: expected value");

    let err = ConfigError::UdpBind("address in use".to_string());
    assert_eq!(err.message(), "log-syslog: failed to bind UDP socket: address in use");
}

#[test]
fn facility_is_refused_before_address() {
    let mut cfg = udp("");
    cfg.facility = 255;
    let err = SyslogSink::from_config_json(Ok(cfg)).unwrap_err();
    assert!(matches!(err, ConfigError::FacilityOutOfRange(255)));
}

#[test]
fn highest_facility_is_accepted() {
    let mut cfg = stdout();
    cfg.facility = 23;
    let p = build(cfg);
    assert!(p.render(&rec(LogLevel::Debug, "x")).starts_with("<191>1 "));
}

#[test]
fn defaults_fill_a_bare_configuration() {
    let cfg = stdout();
    assert_eq!(cfg.format, SyslogFormat::Rfc5424);
    assert_eq!(cfg.facility, 1);
    assert_eq!(cfg.app_name, "mcpg");
    assert_eq!(cfg.hostname, None);
    assert_eq!(cfg.min_level, None);
    assert!(cfg.include_fields);
    let line = build(cfg).render(&rec(LogLevel::Trace, "x"));
    assert_eq!(line, "<15>1 2023-11-14T22:13:20.000000Z - mcpg - mcpg::test - x");
}

#[test]
fn documented_line() {
    let mut cfg = udp("10.0.0.5:514");
    cfg.app_name = "mcpg-gateway".to_string();
    cfg.hostname = Some("gw-1".to_string());
    cfg.min_level = Some(LogLevel::Info);
    let p = build(cfg);
    let record = LogRecord::new(
        1_782_118_800_000_000_000,
        LogLevel::Info,
        "mcpg::runtime".to_string(),
        "started".to_string(),
    );
    assert_eq!(
        p.render(&record),
        "<14>1 2026-06-22T09:00:00.000000Z gw-1 mcpg-gateway - mcpg::runtime - started"
    );
}

#[test]
fn tcp_and_stdout_lines_are_framed() {
    let record = rec(LogLevel::Info, "x");
    let p = build(tcp("10.0.0.5:601"));
    match p.emit(&record) {
        Some(Delivery::Stream { address, frame }) => {
            assert_eq!(address, "10.0.0.5:601");
            assert_eq!(frame, p.render(&record) + "\n");
        }
        other => panic!("{other:?}"),
    }
    let p = build(stdout());
    match p.emit(&record) {
        Some(Delivery::Stdout { frame }) => assert_eq!(frame, p.render(&record) + "\n"),
        other => panic!("{other:?}"),
    }
}

#[test]
fn destination_is_the_configured_one() {
    let p = build(tcp("10.0.0.5:601"));
    match p.destination() {
        Destination::Tcp { address } => assert_eq!(address, "10.0.0.5:601"),
        other => panic!("{other:?}"),
    }
    assert!(matches!(build(stdout()).destination().clone(), Destination::Stdout));
}

#[test]
fn lowest_level_lets_higher_levels_pass() {
    let levels =
        [LogLevel::Trace, LogLevel::Debug, LogLevel::Info, LogLevel::Warn, LogLevel::Error];
    for (i, min) in levels.iter().enumerate() {
        let mut cfg = stdout();
        cfg.min_level = Some(*min);
        let p = build(cfg);
        for (j, level) in levels.iter().enumerate() {
            assert_eq!(p.emit(&rec(*level, "x")).is_some(), i <= j);
        }
    }
    for level in levels {
        assert!(build(stdout()).emit(&rec(level, "x")).is_some());
    }
}

#[test]
fn fields_are_a_compact_json_object() {
    let p = build(stdout());
    let mut r = rec(LogLevel::Info, "msg");
    r.fields.insert("b".to_string(), Value::Bool(true));
    r.fields.insert("a\n\"\\\u{1}\u{1f}/é".to_string(), Value::Null);
    r.fields.insert("c".to_string(), Value::from(7));
    r.fields.insert("d".to_string(), Value::String("x\ny\t".to_string()));
    assert_eq!(
        p.message(&r),
        "msg {\"a\\n\\\"\\\\\\u0001\\u001f/é\":null,\"b\":true,\"c\":7,\"d\":\"x\\ny\\t\"}"
    );
}

#[test]
fn no_fields_add_nothing() {
    let p = build(stdout());
    assert_eq!(p.message(&rec(LogLevel::Info, "msg")), "msg");
}

#[test]
fn a_record_gives_a_single_line() {
    let mut cfg = stdout();
    cfg.hostname = Some("ho\nst".to_string());
    cfg.app_name = "ap\r\np".to_string();
    let p = build(cfg);
    let mut r = LogRecord::new(TS, LogLevel::Info, "a\nb".to_string(), "two\nlines\n".to_string());
    assert_eq!(
        p.render(&r),
        "<14>1 2023-11-14T22:13:20.000000Z ho st ap  p - a_b - two lines "
    );
    r.fields.insert("k\n".to_string(), Value::String("v\r".to_string()));
    let line = p.render(&r);
    assert!(!line.contains('\n') && !line.contains('\r'));
    assert!(line.ends_with(" - two lines  {\"k\\n\":\"v\\r\"}"), "{line}");
    assert_eq!(p.message(&r), "two\nlines\n {\"k\\n\":\"v\\r\"}");

    let mut cfg = tcp("10.0.0.5:601");
    cfg.format = SyslogFormat::Rfc3164;
    let p = build(cfg);
    match p.emit(&rec(LogLevel::Info, "one\ntwo\n")) {
        Some(Delivery::Stream { frame, .. }) => {
            assert_eq!(frame, "<14>Nov 14 22:13:20 - mcpg: one two \n")
        }
        other => panic!("{other:?}"),
    }
}

#[test]
fn fields_can_be_read_back() {
    let p = build(stdout());
    let mut r = rec(LogLevel::Info, "a {\"message\"}, with braces");
    r.fields.insert("k\"\\\n\u{1}".to_string(), Value::String("},{\"".to_string()));
    r.fields.insert("list".to_string(), Value::Array(vec![Value::from(-1), Value::Null]));
    r.fields.insert("float".to_string(), Value::from(1.5e-9));
    r.fields.insert("nested".to_string(), Value::Object(r.fields.clone()));
    let message = p.message(&r);
    let json = message.strip_prefix("a {\"message\"}, with braces ").unwrap();
    let read: serde_json::Map<String, Value> = serde_json::from_str(json).unwrap();
    assert_eq!(read, r.fields);
}

#[test]
fn msgid_is_cut_and_cleaned() {
    let p = build(stdout());
    let r = LogRecord::new(
        TS,
        LogLevel::Info,
        "a target with spaces that is far too long".to_string(),
        "m".to_string(),
    );
    assert!(p.render(&r).ends_with(" - a_target_with_spaces_that_is_far - m"));
    let r = LogRecord::new(TS, LogLevel::Info, String::new(), "m".to_string());
    assert!(p.render(&r).ends_with(" mcpg - - - m"));
}

#[test]
fn lines_tell_their_parts() {
    let p = build(stdout());
    let line = p.render(&rec(LogLevel::Info, "a message - with dashes"));
    let parts: Vec<&str> = line.splitn(7, ' ').collect();
    assert_eq!(
        parts,
        vec![
            "<14>1",
            "2023-11-14T22:13:20.000000Z",
            "-",
            "mcpg",
            "-",
            "mcpg::test",
            "- a message - with dashes"
        ]
    );
}
