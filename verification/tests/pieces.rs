use mcpg_log_syslog::config::{default_app_name, default_facility, default_true};
use mcpg_log_syslog::level::severity;
use mcpg_log_syslog::manifest::PluginManifest;
use mcpg_log_syslog::sink::{append_fields, frame, rfc3164_line, rfc5424_line};
use mcpg_log_syslog::tcp::{TcpAction, TcpEvent, TcpState};
use mcpg_log_syslog::text::{push_decimal, to_one_line, token_or_nil};
use mcpg_log_syslog::timestamp::{bsd_timestamp, rfc3339};
use mcpg_log_syslog::{LogLevel, SyslogFormat, SyslogSink};

#[test]
fn default_values() {
    assert_eq!(default_facility(), 1);
    assert_eq!(default_app_name(), "mcpg");
    assert!(default_true());
    assert_eq!(SyslogFormat::default(), SyslogFormat::Rfc5424);
    assert_eq!(TcpState::default(), TcpState::Closed);
}

#[test]
fn severities() {
    assert_eq!(severity(LogLevel::Error), 3);
    assert_eq!(severity(LogLevel::Warn), 4);
    assert_eq!(severity(LogLevel::Info), 6);
    assert_eq!(severity(LogLevel::Debug), 7);
    assert_eq!(severity(LogLevel::Trace), 7);
}

#[test]
fn levels_ascend() {
    assert!(LogLevel::Trace < LogLevel::Debug);
    assert!(LogLevel::Debug < LogLevel::Info);
    assert!(LogLevel::Info < LogLevel::Warn);
    assert!(LogLevel::Warn < LogLevel::Error);
    assert!(LogLevel::Error >= LogLevel::Error);
}

#[test]
fn decimals() {
    for n in 0..=u16::MAX {
        let mut text = String::from("n=");
        push_decimal(&mut text, n);
        assert_eq!(text, format!("n={n}"));
    }
}

#[test]
fn tokens() {
    assert_eq!(token_or_nil("", 32), "-");
    assert_eq!(token_or_nil("abc", 0), "-");
    assert_eq!(token_or_nil("abc", 2), "ab");
    assert_eq!(token_or_nil("a b\tc", 32), "a_b_c");
    assert_eq!(token_or_nil("  ", 1), "_");
    assert_eq!(token_or_nil("é\u{a0}ü", 3), "é_ü");
    assert_eq!(token_or_nil("a\u{7}b", 32), "a_b");
    assert_eq!(token_or_nil("\u{7f}\u{9f}", 32), "__");
    assert_eq!(token_or_nil("mcpg::runtime", 32), "mcpg::runtime");
    assert_eq!(token_or_nil("x".repeat(40).as_str(), 32), "x".repeat(32));
}

#[test]
fn white_space_and_control_characters_in_tokens() {
    let listed = |n: u32| {
        matches!(
            n,
            0x00..=0x20
                | 0x7f..=0xa0
                | 0x1680
                | 0x2000..=0x200a
                | 0x2028
                | 0x2029
                | 0x202f
                | 0x205f
                | 0x3000
        )
    };
    for c in '\0'..=char::MAX {
        let word = c.to_string();
        let expected = if listed(c as u32) { "_".to_string() } else { word.clone() };
        let token = token_or_nil(&word, 1);
        assert_eq!(token, expected);
        assert!(token.chars().all(|c| !c.is_control() && !c.is_whitespace()));
    }
}

#[test]
fn text_on_a_single_line() {
    assert_eq!(to_one_line(""), "");
    assert_eq!(to_one_line("one line"), "one line");
    assert_eq!(to_one_line("a\nb\r\nc\td\n"), "a b  c\td ");
}

#[test]
fn rfc3339_timestamps() {
    assert_eq!(rfc3339(0), "1970-01-01T00:00:00.000000Z");
    assert_eq!(rfc3339(1_700_000_000_000_000_000), "2023-11-14T22:13:20.000000Z");
    assert_eq!(rfc3339(951_782_399_123_456_789), "2000-02-28T23:59:59.123456Z");
    assert_eq!(rfc3339(951_782_400_000_000_999), "2000-02-29T00:00:00.000000Z");
    assert_eq!(rfc3339(4_107_542_400_000_001_000), "2100-03-01T00:00:00.000001Z");
    assert_eq!(rfc3339(u64::MAX), "2554-07-21T23:34:33.709551Z");
}

#[test]
fn microseconds_are_told_apart() {
    assert_eq!(rfc3339(1_700_000_000_000_001_000), rfc3339(1_700_000_000_000_001_999));
    assert_ne!(rfc3339(1_700_000_000_000_001_999), rfc3339(1_700_000_000_000_002_000));
    assert_eq!(rfc3339(1_700_000_000_000_001_000).len(), 27);
}

#[test]
fn bsd_timestamps() {
    assert_eq!(bsd_timestamp(0), "Jan  1 00:00:00");
    assert_eq!(bsd_timestamp(1_700_000_000_999_999_999), "Nov 14 22:13:20");
    assert_eq!(bsd_timestamp(951_782_399_000_000_000), "Feb 28 23:59:59");
    assert_eq!(bsd_timestamp(u64::MAX), "Jul 21 23:34:33");
    let names =
        ["Jan", "Feb", "Mar", "Apr", "May", "Jun", "Jul", "Aug", "Sep", "Oct", "Nov", "Dec"];
    let days = [0u64, 31, 59, 90, 120, 151, 181, 212, 243, 273, 304, 334];
    for (name, day) in names.iter().zip(days) {
        assert_eq!(bsd_timestamp(day * 86_400_000_000_000), format!("{name}  1 00:00:00"));
        assert_eq!(
            bsd_timestamp((day + 9) * 86_400_000_000_000 + 3_661_000_000_000),
            format!("{name} 10 01:01:01")
        );
    }
}

#[test]
fn lines_from_parts() {
    assert_eq!(rfc5424_line(7, "ts", "h", "a", "id", "m"), "<7>1 ts h a - id - m");
    assert_eq!(rfc3164_line(191, "ts", "h", "t", "m"), "<191>ts h t: m");
}

#[test]
fn fields_follow_the_message() {
    let mut msg = String::from("m");
    append_fields(&mut msg, "{}");
    assert_eq!(msg, "m {}");
}

#[test]
fn frames_keep_lines_apart() {
    assert_eq!(frame(""), "\n");
    let stream = frame("one") + &frame("") + &frame("two");
    let lines: Vec<&str> = stream.split_terminator('\n').collect();
    assert_eq!(lines, vec!["one", "", "two"]);
}

#[test]
fn manifest_of_the_sink() {
    assert_eq!(PluginManifest::syslog().id, "dev.mcpg.log.syslog");
}

/// Runs one record on a network with the given outcomes and gives the actions on the way.
fn run(state: TcpState, connects: bool, writes: bool) -> (TcpState, Vec<TcpAction>) {
    let mut state = state;
    let mut event = TcpEvent::Record;
    let mut actions = Vec::new();
    loop {
        let (next, action) = SyslogSink::emit_tcp(state, event);
        state = next;
        actions.push(action);
        event = match action {
            TcpAction::Connect if connects => TcpEvent::Connected,
            TcpAction::Connect => TcpEvent::ConnectFailed,
            TcpAction::Write if writes => TcpEvent::Written,
            TcpAction::Write => TcpEvent::WriteFailed,
            TcpAction::Finish => return (state, actions),
        };
    }
}

#[test]
fn tcp_records_are_never_retried() {
    let (connect, write, finish) = (TcpAction::Connect, TcpAction::Write, TcpAction::Finish);
    let closed = TcpState::Closed;
    let open = TcpState::Open;
    assert_eq!(run(closed, true, true), (open, vec![connect, write, finish]));
    assert_eq!(run(closed, true, false), (closed, vec![connect, write, finish]));
    assert_eq!(run(closed, false, true), (closed, vec![connect, finish]));
    assert_eq!(run(open, false, true), (open, vec![write, finish]));
    assert_eq!(run(open, true, false), (closed, vec![write, finish]));
}

#[test]
fn tcp_connects_for_the_first_record_and_after_a_failure() {
    let mut state = TcpState::default();
    let mut connects = Vec::new();
    for (connect, write) in [(true, true), (true, true), (true, false), (false, true), (true, true)] {
        let (next, actions) = run(state, connect, write);
        connects.push(actions.contains(&TcpAction::Connect));
        state = next;
    }
    assert_eq!(connects, vec![true, false, false, true, true]);
}
