//! Syslog sink for the log records of a gateway and its plugins.
//!
//! A [`SyslogSink`] is built from a [`SyslogConfig`]. It renders each [`LogRecord`] as an RFC 5424
//! line, or an RFC 3164 line for older collectors, and says what is to be sent: a datagram, a frame
//! on a TCP connection, or a frame on standard output or standard error. The sockets themselves
//! are the caller's. For a TCP destination [`SyslogSink::emit_tcp`] says when to connect and when
//! to write.
//!
//! - [`sink`] holds the sink, [`config`] and [`manifest`] what it is built from and what it says of
//!   itself.
//! - [`record`], [`level`] and [`json`] hold what comes in and how its fields are written.
//! - [`text`], [`timestamp`] and [`calendar`] hold the pieces of a line.
//! - [`tcp`] holds the connection of a TCP destination.
//! - [`laws`] states what holds of every line and every stream of frames.

pub mod calendar;
pub mod config;
pub mod json;
pub mod laws;
pub mod level;
pub mod manifest;
pub mod record;
pub mod sink;
pub mod tcp;
pub mod text;
pub mod timestamp;

pub use config::{ConfigError, Destination, SyslogConfig, SyslogFormat};
pub use level::LogLevel;
pub use record::LogRecord;
pub use sink::{Delivery, SyslogSink};
