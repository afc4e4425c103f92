//! Configuration of the sink: its parts, their defaults and what is refused.
use crate::level::LogLevel;
use crate::text::{decimal, push_decimal};
use vstd::prelude::*;
use vstd::string::*;

verus! {

/// Highest syslog facility.
pub const MAX_FACILITY: u8 = 23;

/// Wire format of a line.
#[derive(Debug, Clone, Copy, PartialEq, Eq, Structural)]
pub enum SyslogFormat {
    Rfc5424,
    Rfc3164,
}

impl Default for SyslogFormat {
    fn default() -> (r: SyslogFormat)
        ensures
            r == SyslogFormat::Rfc5424,
    {
        SyslogFormat::Rfc5424
    }
}

/// Where lines go.
#[derive(Debug)]
pub enum Destination {
    /// UDP datagram per record (`address` = `host:port`, e.g. `127.0.0.1:514`).
    Udp { address: String },
    /// TCP stream, newline-framed (RFC 6587 non-transparent framing).
    Tcp { address: String },
    Stdout,
    Stderr,
}

impl Clone for Destination {
    fn clone(&self) -> (r: Destination)
        ensures
            r == *self,
    {
        match self {
            Destination::Udp { address } => Destination::Udp { address: address.clone() },
            Destination::Tcp { address } => Destination::Tcp { address: address.clone() },
            Destination::Stdout => Destination::Stdout,
            Destination::Stderr => Destination::Stderr,
        }
    }
}

/// A destination with its address as characters.
pub enum DestinationView {
    Udp { address: Seq<char> },
    Tcp { address: Seq<char> },
    Stdout,
    Stderr,
}

impl View for Destination {
    type V = DestinationView;

    open spec fn view(&self) -> DestinationView {
        match *self {
            Destination::Udp { address } => DestinationView::Udp { address: address@ },
            Destination::Tcp { address } => DestinationView::Tcp { address: address@ },
            Destination::Stdout => DestinationView::Stdout,
            Destination::Stderr => DestinationView::Stderr,
        }
    }
}

impl DestinationView {
    /// Whether lines can be sent there: a network destination names an address.
    pub open spec fn valid(self) -> bool {
        match self {
            DestinationView::Udp { address } => address.len() > 0,
            DestinationView::Tcp { address } => address.len() > 0,
            _ => true,
        }
    }
}

/// Settings of a sink.
#[derive(Debug)]
pub struct SyslogConfig {
    pub destination: Destination,
    pub format: SyslogFormat,
    /// Syslog facility (0 to 23).
    pub facility: u8,
    /// APP-NAME (RFC 5424) or tag (RFC 3164).
    pub app_name: String,
    /// HOSTNAME field; `-` (nil) when absent.
    pub hostname: Option<String>,
    /// Drop records below this level; emit everything when absent.
    pub min_level: Option<LogLevel>,
    /// Append the record's structured fields (as JSON) to the message.
    pub include_fields: bool,
}

/// The facility of a configuration that names none: user-level.
pub fn default_facility() -> (r: u8)
    ensures
        r == 1,
{
    1
}

/// The application name of a configuration that names none.
pub fn default_app_name() -> (r: String)
    ensures
        r@ == "mcpg"@,
{
    "mcpg".to_owned()
}

/// Structured fields are appended unless a configuration says otherwise.
pub fn default_true() -> (r: bool)
    ensures
        r,
{
    true
}

impl SyslogConfig {
    /// The configuration that names a destination and nothing else.
    pub fn new(destination: Destination) -> (r: SyslogConfig)
        ensures
            r.destination == destination,
            r.format == SyslogFormat::Rfc5424,
            r.facility == 1,
            r.app_name@ == "mcpg"@,
            r.hostname is None,
            r.min_level is None,
            r.include_fields,
    {
        SyslogConfig {
            destination,
            format: SyslogFormat::default(),
            facility: default_facility(),
            app_name: default_app_name(),
            hostname: None,
            min_level: None,
            include_fields: default_true(),
        }
    }
}

/// Why a sink is refused.
#[derive(Debug)]
pub enum ConfigError {
    /// The configuration text cannot be read; holds the reader's words.
    Malformed(String),
    /// The facility is above the highest one.
    FacilityOutOfRange(u8),
    EmptyUdpAddress,
    EmptyTcpAddress,
    /// No local UDP socket can be had; holds the system's words.
    UdpBind(String),
}

impl ConfigError {
    /// The words in which the refusal is reported.
    pub open spec fn message_text(self) -> Seq<char> {
        match self {
            ConfigError::Malformed(err) => "log-syslog: config JSON failed to parse: "@ + err@,
            ConfigError::FacilityOutOfRange(facility) => "log-syslog: facility "@ + decimal(
                facility as nat,
            ) + " out of range (0–"@ + decimal(MAX_FACILITY as nat) + ")"@,
            ConfigError::EmptyUdpAddress => "log-syslog: udp address must not be empty"@,
            ConfigError::EmptyTcpAddress => "log-syslog: tcp address must not be empty"@,
            ConfigError::UdpBind(err) => "log-syslog: failed to bind UDP socket: "@ + err@,
        }
    }

    /// The words in which the refusal is reported.
    pub fn message(&self) -> (r: String)
        ensures
            r@ == self.message_text(),
    {
        match self {
            ConfigError::Malformed(err) => {
                "log-syslog: config JSON failed to parse: ".to_owned().concat(err.as_str())
            },
            ConfigError::FacilityOutOfRange(facility) => {
                let mut text = "log-syslog: facility ".to_owned();
                push_decimal(&mut text, *facility as u16);
                text.append(" out of range (0–");
                push_decimal(&mut text, MAX_FACILITY as u16);
                text.append(")");
                text
            },
            ConfigError::EmptyUdpAddress => "log-syslog: udp address must not be empty".to_owned(),
            ConfigError::EmptyTcpAddress => "log-syslog: tcp address must not be empty".to_owned(),
            ConfigError::UdpBind(err) => {
                "log-syslog: failed to bind UDP socket: ".to_owned().concat(err.as_str())
            },
        }
    }
}

/// The contracts speak of a destination as it is: of the same kind, with the same address.
pub proof fn law_destination_is_seen_as_it_is(destination: Destination)
    ensures
        destination matches Destination::Udp { address } ==> destination@
            == (DestinationView::Udp { address: address@ }),
        destination matches Destination::Tcp { address } ==> destination@
            == (DestinationView::Tcp { address: address@ }),
        destination is Stdout <==> destination@ is Stdout,
        destination is Stderr <==> destination@ is Stderr,
{
}

/// A refusal is reported with the cause in its words: the reader's and the system's own words stand
/// last and whole, a facility stands in decimal between its name and the range.
pub proof fn law_refusals_name_their_cause(error: ConfigError)
    ensures
        error matches ConfigError::Malformed(err) ==> {
            let start = "log-syslog: config JSON failed to parse: "@;
            &&& error.message_text().len() == start.len() + err@.len()
            &&& error.message_text().take(start.len() as int) == start
            &&& error.message_text().skip(start.len() as int) == err@
        },
        error matches ConfigError::UdpBind(err) ==> {
            let start = "log-syslog: failed to bind UDP socket: "@;
            &&& error.message_text().len() == start.len() + err@.len()
            &&& error.message_text().take(start.len() as int) == start
            &&& error.message_text().skip(start.len() as int) == err@
        },
        error matches ConfigError::FacilityOutOfRange(facility) ==> {
            let start = "log-syslog: facility "@;
            let number = decimal(facility as nat);
            let end = " out of range (0–23)"@;
            &&& error.message_text().len() == start.len() + number.len() + end.len()
            &&& error.message_text().take(start.len() as int) == start
            &&& error.message_text().subrange(start.len() as int, (start.len() + number.len()) as int)
                == number
            &&& error.message_text().skip((start.len() + number.len()) as int) == end
        },
        error is EmptyUdpAddress ==> error.message_text()
            == "log-syslog: udp address must not be empty"@,
        error is EmptyTcpAddress ==> error.message_text()
            == "log-syslog: tcp address must not be empty"@,
{
    let text = error.message_text();
    match error {
        ConfigError::Malformed(err) => {
            let start = "log-syslog: config JSON failed to parse: "@;
            assert(text.take(start.len() as int) =~= start);
            assert(text.skip(start.len() as int) =~= err@);
        },
        ConfigError::UdpBind(err) => {
            let start = "log-syslog: failed to bind UDP socket: "@;
            assert(text.take(start.len() as int) =~= start);
            assert(text.skip(start.len() as int) =~= err@);
        },
        ConfigError::FacilityOutOfRange(facility) => {
            let start = "log-syslog: facility "@;
            let number = decimal(facility as nat);
            let end = " out of range (0–23)"@;
            reveal_strlit(" out of range (0–23)");
            reveal_strlit(" out of range (0–");
            reveal_strlit(")");
            reveal_with_fuel(decimal, 2);
            assert(decimal(MAX_FACILITY as nat) =~= seq!['2', '3']);
            assert(" out of range (0–"@ + seq!['2', '3'] + ")"@ =~= end);
            assert(text =~= start + number + end);
            assert(text.take(start.len() as int) =~= start);
            assert(text.subrange(start.len() as int, (start.len() + number.len()) as int) =~= number);
            assert(text.skip((start.len() + number.len()) as int) =~= end);
        },
        _ => {},
    }
}

} // verus!
