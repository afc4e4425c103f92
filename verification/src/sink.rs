//! The sink: how a record becomes a line, and where the line goes.
use crate::config::{
    ConfigError, Destination, DestinationView, SyslogConfig, SyslogFormat, MAX_FACILITY,
};
use crate::json::{json_object, law_object_reads_back, read_object};
use crate::level::{severity, severity_of, LogLevel};
use crate::manifest::PluginManifest;
use crate::laws::{ends_with, law_line_ends_with_fields, law_record_gives_one_line};
use crate::record::{fields_to_string, is_object_of, LogRecord, RecordView};
use crate::tcp::{tcp_step, TcpAction, TcpEvent, TcpState};
use crate::text::{decimal, one_line, push_decimal, to_one_line, token, token_or_nil};
use crate::timestamp::{bsd_text, bsd_timestamp, rfc3339, rfc3339_text};
use vstd::prelude::*;
use vstd::string::*;

verus! {

/// Longest MSGID of an RFC 5424 line.
pub const MSGID_MAX: usize = 32;

/// Settings of a sink, with their texts as characters.
pub struct SinkView {
    pub destination: DestinationView,
    pub format: SyslogFormat,
    pub facility: int,
    pub app_name: Seq<char>,
    pub hostname: Seq<char>,
    pub min_level: Option<LogLevel>,
    pub include_fields: bool,
}

impl SinkView {
    /// Whether a sink may have these settings.
    pub open spec fn valid(self) -> bool {
        0 <= self.facility <= MAX_FACILITY && self.destination.valid()
    }
}

/// The settings of a sink with this configuration: an absent host name is the nil value `-`.
pub open spec fn configured(cfg: SyslogConfig) -> SinkView {
    SinkView {
        destination: cfg.destination@,
        format: cfg.format,
        facility: cfg.facility as int,
        app_name: cfg.app_name@,
        hostname: match cfg.hostname {
            Some(hostname) => hostname@,
            None => "-"@,
        },
        min_level: cfg.min_level,
        include_fields: cfg.include_fields,
    }
}

/// Why a configuration is refused, if it is. The facility is looked at first.
pub open spec fn refusal(cfg: SyslogConfig) -> Option<ConfigError> {
    if cfg.facility > MAX_FACILITY {
        Some(ConfigError::FacilityOutOfRange(cfg.facility))
    } else {
        match cfg.destination {
            Destination::Udp { address } if address@.len() == 0 => Some(
                ConfigError::EmptyUdpAddress,
            ),
            Destination::Tcp { address } if address@.len() == 0 => Some(
                ConfigError::EmptyTcpAddress,
            ),
            _ => None,
        }
    }
}

/// PRI value of a line.
pub open spec fn priority(facility: int, level: LogLevel) -> int {
    facility * 8 + severity_of(level)
}

/// `<PRI>1 timestamp hostname app-name - msgid - message`.
pub open spec fn rfc5424_text(
    pri: int,
    ts: Seq<char>,
    host: Seq<char>,
    app: Seq<char>,
    msgid: Seq<char>,
    msg: Seq<char>,
) -> Seq<char> {
    "<"@ + decimal(pri as nat) + ">1 "@ + ts + " "@ + host + " "@ + app + " - "@ + msgid + " - "@
        + msg
}

/// `<PRI>timestamp hostname tag: message`.
pub open spec fn rfc3164_text(
    pri: int,
    ts: Seq<char>,
    host: Seq<char>,
    tag: Seq<char>,
    msg: Seq<char>,
) -> Seq<char> {
    "<"@ + decimal(pri as nat) + ">"@ + ts + " "@ + host + " "@ + tag + ": "@ + msg
}

/// `msg`, a space, and the JSON text of the fields.
pub open spec fn with_fields(msg: Seq<char>, json: Seq<char>) -> Seq<char> {
    msg.push(' ') + json
}

/// The message of a line: that of the record, and its structured fields where they are wanted and
/// there are any.
pub open spec fn message_text(sink: SinkView, record: RecordView) -> Seq<char> {
    if sink.include_fields && record.fields.len() > 0 {
        with_fields(record.message, json_object(record.fields))
    } else {
        record.message
    }
}

/// The line of a record. Host name, application name and message stand in it on a single line.
pub open spec fn line_text(sink: SinkView, record: RecordView) -> Seq<char> {
    let pri = priority(sink.facility, record.level);
    let host = one_line(sink.hostname);
    let app = one_line(sink.app_name);
    let msg = one_line(message_text(sink, record));
    let secs = record.timestamp_ns / 1_000_000_000;
    let nanos = record.timestamp_ns % 1_000_000_000;
    match sink.format {
        SyslogFormat::Rfc5424 => rfc5424_text(
            pri,
            rfc3339_text(secs, nanos),
            host,
            app,
            token(record.target, MSGID_MAX as int),
            msg,
        ),
        SyslogFormat::Rfc3164 => rfc3164_text(pri, bsd_text(secs), host, app, msg),
    }
}

/// Whether the sink lets a level pass: it is not below the lowest level.
pub open spec fn passes(min_level: Option<LogLevel>, level: LogLevel) -> bool {
    match min_level {
        Some(min) => min.rank() <= level.rank(),
        None => true,
    }
}

/// A line with the newline that ends it in a stream.
pub open spec fn framed(line: Seq<char>) -> Seq<char> {
    line + "\n"@
}

/// What is to be sent for a record.
#[derive(Debug)]
pub enum Delivery {
    /// One datagram that holds the line.
    Datagram { address: String, line: String },
    /// A frame on the connection to the address.
    Stream { address: String, frame: String },
    /// A frame on standard output.
    Stdout { frame: String },
    /// A frame on standard error.
    Stderr { frame: String },
}

/// A delivery with its texts as characters.
pub enum DeliveryView {
    Datagram { address: Seq<char>, line: Seq<char> },
    Stream { address: Seq<char>, frame: Seq<char> },
    Stdout { frame: Seq<char> },
    Stderr { frame: Seq<char> },
}

impl View for Delivery {
    type V = DeliveryView;

    open spec fn view(&self) -> DeliveryView {
        match *self {
            Delivery::Datagram { address, line } => DeliveryView::Datagram {
                address: address@,
                line: line@,
            },
            Delivery::Stream { address, frame } => DeliveryView::Stream {
                address: address@,
                frame: frame@,
            },
            Delivery::Stdout { frame } => DeliveryView::Stdout { frame: frame@ },
            Delivery::Stderr { frame } => DeliveryView::Stderr { frame: frame@ },
        }
    }
}

/// How a line is sent to a destination: bare in a datagram, framed everywhere else.
pub open spec fn dispatched(destination: DestinationView, line: Seq<char>) -> DeliveryView {
    match destination {
        DestinationView::Udp { address } => DeliveryView::Datagram { address, line },
        DestinationView::Tcp { address } => DeliveryView::Stream { address, frame: framed(line) },
        DestinationView::Stdout => DeliveryView::Stdout { frame: framed(line) },
        DestinationView::Stderr => DeliveryView::Stderr { frame: framed(line) },
    }
}

/// Builds an RFC 5424 line from its parts.
pub fn rfc5424_line(
    pri: u16,
    ts: &str,
    host: &str,
    app: &str,
    msgid: &str,
    msg: &str,
) -> (r: String)
    ensures
        r@ == rfc5424_text(pri as int, ts@, host@, app@, msgid@, msg@),
        r@ == seq!['<'] + decimal(pri as nat) + seq!['>', '1', ' '] + ts@ + seq![' '] + host@ + seq![
            ' ',
        ] + app@ + seq![' ', '-', ' '] + msgid@ + seq![' ', '-', ' '] + msg@,
{
    let mut line = "<".to_owned();
    push_decimal(&mut line, pri);
    line.append(">1 ");
    line.append(ts);
    line.append(" ");
    line.append(host);
    line.append(" ");
    line.append(app);
    line.append(" - ");
    line.append(msgid);
    line.append(" - ");
    line.append(msg);
    proof {
        reveal_strlit("<");
        reveal_strlit(">1 ");
        reveal_strlit(" ");
        reveal_strlit(" - ");
        assert("<"@ =~= seq!['<']);
        assert(">1 "@ =~= seq!['>', '1', ' ']);
        assert(" "@ =~= seq![' ']);
        assert(" - "@ =~= seq![' ', '-', ' ']);
    }
    line
}

/// Builds an RFC 3164 line from its parts.
pub fn rfc3164_line(pri: u16, ts: &str, host: &str, tag: &str, msg: &str) -> (r: String)
    ensures
        r@ == rfc3164_text(pri as int, ts@, host@, tag@, msg@),
        r@ == seq!['<'] + decimal(pri as nat) + seq!['>'] + ts@ + seq![' '] + host@ + seq![' '] + tag@
            + seq![':', ' '] + msg@,
{
    let mut line = "<".to_owned();
    push_decimal(&mut line, pri);
    line.append(">");
    line.append(ts);
    line.append(" ");
    line.append(host);
    line.append(" ");
    line.append(tag);
    line.append(": ");
    line.append(msg);
    proof {
        reveal_strlit("<");
        reveal_strlit(">");
        reveal_strlit(" ");
        reveal_strlit(": ");
        assert("<"@ =~= seq!['<']);
        assert(">"@ =~= seq!['>']);
        assert(" "@ =~= seq![' ']);
        assert(": "@ =~= seq![':', ' ']);
    }
    line
}

/// Appends the JSON text of structured fields to a message.
pub fn append_fields(msg: &mut String, json: &str)
    ensures
        final(msg)@ == with_fields(old(msg)@, json@),
        final(msg)@ == old(msg)@ + seq![' '] + json@,
{
    msg.push(' ');
    msg.append(json);
}

/// A line with the newline that ends it in a stream.
pub fn frame(line: &str) -> (r: String)
    ensures
        r@ == framed(line@),
        r@ == line@.push('\n'),
{
    let mut framed = line.to_owned();
    framed.append("\n");
    proof {
        reveal_strlit("\n");
    }
    framed
}

/// Renders log records as syslog lines and says where each goes.
#[derive(Debug)]
pub struct SyslogSink {
    manifest: PluginManifest,
    destination: Destination,
    format: SyslogFormat,
    facility: u8,
    app_name: String,
    hostname: String,
    min_level: Option<LogLevel>,
    include_fields: bool,
}

impl View for SyslogSink {
    type V = SinkView;

    closed spec fn view(&self) -> SinkView {
        SinkView {
            destination: self.destination@,
            format: self.format,
            facility: self.facility as int,
            app_name: self.app_name@,
            hostname: self.hostname@,
            min_level: self.min_level,
            include_fields: self.include_fields,
        }
    }
}

impl SyslogSink {
    #[verifier::type_invariant]
    spec fn well_formed(self) -> bool {
        self@.valid() && self.manifest.is_syslog()
    }

    /// Builds the sink from what reading its configuration gave: the configuration, or the words
    /// in which the reader refused it. Fails closed: a configuration that cannot be read, a
    /// facility above the highest or an empty address gives no sink.
    pub fn from_config_json(parsed: Result<SyslogConfig, String>) -> (r: Result<
        SyslogSink,
        ConfigError,
    >)
        ensures
            match parsed {
                Err(err) => r == Err::<SyslogSink, ConfigError>(ConfigError::Malformed(err)),
                Ok(cfg) => match refusal(cfg) {
                    Some(error) => r == Err::<SyslogSink, ConfigError>(error),
                    None => r is Ok && r->Ok_0@ == configured(cfg) && r->Ok_0@.valid(),
                },
            },
            parsed matches Ok(cfg) ==> {
                let no_udp = cfg.destination matches Destination::Udp { address } && address@.len()
                    == 0;
                let no_tcp = cfg.destination matches Destination::Tcp { address } && address@.len()
                    == 0;
                &&& r is Ok <==> cfg.facility <= 23 && !no_udp && !no_tcp
                &&& cfg.facility > 23 ==> r == Err::<SyslogSink, ConfigError>(
                    ConfigError::FacilityOutOfRange(cfg.facility),
                )
                &&& cfg.facility <= 23 && no_udp ==> r == Err::<SyslogSink, ConfigError>(
                    ConfigError::EmptyUdpAddress,
                )
                &&& cfg.facility <= 23 && no_tcp ==> r == Err::<SyslogSink, ConfigError>(
                    ConfigError::EmptyTcpAddress,
                )
            },
            parsed matches Ok(cfg) ==> (r matches Ok(sink) ==> {
                &&& sink@.destination == cfg.destination@
                &&& sink@.format == cfg.format
                &&& sink@.facility == cfg.facility
                &&& sink@.app_name == cfg.app_name@
                &&& cfg.hostname matches Some(hostname) ==> sink@.hostname == hostname@
                &&& cfg.hostname is None ==> sink@.hostname == seq!['-']
                &&& sink@.min_level == cfg.min_level
                &&& sink@.include_fields == cfg.include_fields
            }),
    {
        let cfg = match parsed {
            Ok(cfg) => cfg,
            Err(err) => return Err(ConfigError::Malformed(err)),
        };
        if cfg.facility > MAX_FACILITY {
            return Err(ConfigError::FacilityOutOfRange(cfg.facility));
        }
        match &cfg.destination {
            Destination::Udp { address } => {
                if address.as_str().is_empty() {
                    return Err(ConfigError::EmptyUdpAddress);
                }
            },
            Destination::Tcp { address } => {
                if address.as_str().is_empty() {
                    return Err(ConfigError::EmptyTcpAddress);
                }
            },
            Destination::Stdout => {},
            Destination::Stderr => {},
        }
        proof {
            reveal_strlit("-");
            assert("-"@ =~= seq!['-']);
        }
        Ok(
            SyslogSink {
                manifest: PluginManifest::syslog(),
                destination: cfg.destination,
                format: cfg.format,
                facility: cfg.facility,
                app_name: cfg.app_name,
                hostname: match cfg.hostname {
                    Some(hostname) => hostname,
                    None => "-".to_owned(),
                },
                min_level: cfg.min_level,
                include_fields: cfg.include_fields,
            },
        )
    }

    /// The message of the line for a record: its own message, and its structured fields as a JSON
    /// object, from which they can be read back.
    pub fn message(&self, record: &LogRecord) -> (r: String)
        ensures
            r@ == message_text(self@, record@),
            self@.include_fields && record@.fields.len() > 0 ==> {
                &&& r@.take(record@.message.len() as int + 1) == record@.message.push(' ')
                &&& is_object_of(r@.skip(record@.message.len() as int + 1), record@.fields)
                &&& read_object(r@.skip(record@.message.len() as int + 1)) == record@.fields
            },
    {
        let mut msg = record.message.clone();
        if self.include_fields && !record.fields.is_empty() {
            if let Ok(json) = fields_to_string(&record.fields) {
                append_fields(&mut msg, json.as_str());
                proof {
                    assert(msg@.take(record@.message.len() as int + 1) =~= record@.message.push(' '));
                    assert(msg@.skip(record@.message.len() as int + 1) =~= json@);
                    law_object_reads_back(record@.fields);
                }
            }
        }
        msg
    }

    /// Renders a record into a single syslog line (no trailing newline).
    pub fn render(&self, record: &LogRecord) -> (r: String)
        ensures
            r@ == line_text(self@, record@),
            !r@.contains('\n'),
            !r@.contains('\r'),
            self@.include_fields && record@.fields.len() > 0 ==> ends_with(
                r@,
                json_object(record@.fields),
            ),
    {
        let pri: u16 = (self.facility as u16) * 8 + severity(record.level) as u16;
        let msg = self.message(record);
        let host = to_one_line(self.hostname.as_str());
        let app = to_one_line(self.app_name.as_str());
        let text = to_one_line(msg.as_str());
        proof {
            law_record_gives_one_line(self@, record@);
            if self@.include_fields && record@.fields.len() > 0 {
                law_line_ends_with_fields(self@, record@);
            }
        }
        match self.format {
            SyslogFormat::Rfc5424 => {
                let msgid = token_or_nil(record.target.as_str(), MSGID_MAX);
                let ts = rfc3339(record.timestamp_ns);
                rfc5424_line(
                    pri,
                    ts.as_str(),
                    host.as_str(),
                    app.as_str(),
                    msgid.as_str(),
                    text.as_str(),
                )
            },
            SyslogFormat::Rfc3164 => {
                let ts = bsd_timestamp(record.timestamp_ns);
                rfc3164_line(pri, ts.as_str(), host.as_str(), app.as_str(), text.as_str())
            },
        }
    }

    /// What is to be sent for a record: nothing where its level is below the lowest.
    pub fn emit(&self, record: &LogRecord) -> (r: Option<Delivery>)
        ensures
            match r {
                Some(delivery) => passes(self@.min_level, record.level) && delivery@ == dispatched(
                    self@.destination,
                    line_text(self@, record@),
                ),
                None => !passes(self@.min_level, record.level),
            },
            r is None <==> (self@.min_level matches Some(min) && record.level.rank() < min.rank()),
            match r {
                Some(Delivery::Datagram { address, line }) => {
                    &&& self@.destination == (DestinationView::Udp { address: address@ })
                    &&& line@ == line_text(self@, record@)
                },
                Some(Delivery::Stream { address, frame }) => {
                    &&& self@.destination == (DestinationView::Tcp { address: address@ })
                    &&& frame@ == line_text(self@, record@).push('\n')
                },
                Some(Delivery::Stdout { frame }) => {
                    &&& self@.destination is Stdout
                    &&& frame@ == line_text(self@, record@).push('\n')
                },
                Some(Delivery::Stderr { frame }) => {
                    &&& self@.destination is Stderr
                    &&& frame@ == line_text(self@, record@).push('\n')
                },
                None => true,
            },
            r is Some ==> !line_text(self@, record@).contains('\n'),
            self@.valid(),
    {
        proof {
            use_type_invariant(self);
        }
        if let Some(min) = self.min_level {
            if record.level < min {
                return None;
            }
        }
        let line = self.render(record);
        match &self.destination {
            Destination::Udp { address } => Some(
                Delivery::Datagram { address: address.clone(), line },
            ),
            Destination::Tcp { address } => Some(
                Delivery::Stream { address: address.clone(), frame: frame(line.as_str()) },
            ),
            Destination::Stdout => Some(Delivery::Stdout { frame: frame(line.as_str()) }),
            Destination::Stderr => Some(Delivery::Stderr { frame: frame(line.as_str()) }),
        }
    }

    /// The next state of a TCP connection, and what is to be done next for the record at hand.
    pub fn emit_tcp(state: TcpState, event: TcpEvent) -> (r: (TcpState, TcpAction))
        ensures
            r == tcp_step(state, event),
            event == TcpEvent::Record && state == TcpState::Closed ==> r == (
                TcpState::Closed,
                TcpAction::Connect,
            ),
            event == TcpEvent::Record && state == TcpState::Open ==> r == (
                TcpState::Open,
                TcpAction::Write,
            ),
            event == TcpEvent::Connected ==> r == (TcpState::Open, TcpAction::Write),
            event == TcpEvent::ConnectFailed || event == TcpEvent::WriteFailed ==> r == (
                TcpState::Closed,
                TcpAction::Finish,
            ),
            event == TcpEvent::Written ==> r == (TcpState::Open, TcpAction::Finish),
    {
        match event {
            TcpEvent::Record => match state {
                TcpState::Closed => (TcpState::Closed, TcpAction::Connect),
                TcpState::Open => (TcpState::Open, TcpAction::Write),
            },
            TcpEvent::Connected => (TcpState::Open, TcpAction::Write),
            TcpEvent::ConnectFailed => (TcpState::Closed, TcpAction::Finish),
            TcpEvent::Written => (TcpState::Open, TcpAction::Finish),
            TcpEvent::WriteFailed => (TcpState::Closed, TcpAction::Finish),
        }
    }

    /// Where the lines of the sink go.
    pub fn destination(&self) -> (r: &Destination)
        ensures
            r@ == self@.destination,
            self@.valid(),
    {
        proof {
            use_type_invariant(self);
        }
        &self.destination
    }

    /// What the plugin says of itself.
    pub fn manifest(&self) -> (r: &PluginManifest)
        ensures
            r.is_syslog(),
    {
        proof {
            use_type_invariant(self);
        }
        &self.manifest
    }
}

} // verus!
