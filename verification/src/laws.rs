//! What holds of lines, frames and sinks whatever the record.
use crate::config::{
    ConfigError, Destination, DestinationView, SyslogConfig, SyslogFormat, MAX_FACILITY,
};
use crate::json::{is_json_value, json_object, law_object_has_no_control};
use crate::level::{severity_of, LogLevel};
use crate::record::RecordView;
use crate::sink::{
    configured, dispatched, framed, line_text, message_text, passes, priority, refusal,
    rfc3164_text, rfc5424_text, Delivery, DeliveryView, SinkView, MSGID_MAX,
};
use crate::text::{
    decimal, is_white_space, law_one_line, law_one_line_puts_spaces_for_breaks,
    law_token_is_one_word, law_token_takes_the_first_characters, lemma_decimal_digits,
    lemma_decimal_injective, one_line, token,
};
use crate::timestamp::{
    bsd_text, law_bsd_is_one_line, law_rfc3339_is_one_word, law_rfc3339_tells_microseconds_apart,
    rfc3339_text,
};
use vstd::prelude::*;

verus! {

/// A configuration is accepted exactly when its settings are valid.
pub proof fn law_only_valid_settings(cfg: SyslogConfig)
    ensures
        refusal(cfg) is None <==> configured(cfg).valid(),
{
}

/// The PRI value tells facility and severity apart, and is at most 191.
pub proof fn law_priority_holds_facility_and_severity(facility: int, level: LogLevel)
    requires
        0 <= facility <= MAX_FACILITY,
    ensures
        priority(facility, level) / 8 == facility,
        priority(facility, level) % 8 == severity_of(level),
        0 <= priority(facility, level) <= 191,
{
}

/// The lowest level passes, and with a level every higher one; without a lowest level all pass.
pub proof fn law_lowest_level(min_level: Option<LogLevel>, a: LogLevel, b: LogLevel)
    ensures
        passes(min_level, a) && a.rank() <= b.rank() ==> passes(min_level, b),
        min_level == Some(a) ==> passes(min_level, a),
        min_level is None ==> passes(min_level, a),
{
}

/// `s` ends with `end`.
pub open spec fn ends_with(s: Seq<char>, end: Seq<char>) -> bool {
    end.len() <= s.len() && s.skip(s.len() - end.len()) == end
}

/// A line begins with its PRI between angle brackets, and ends with the message, on a single line.
#[verifier::spinoff_prover]
#[verifier::rlimit(50)]
pub proof fn law_line_ends(sink: SinkView, record: RecordView)
    ensures
        ({
            let pri = decimal(priority(sink.facility, record.level) as nat);
            (seq!['<'] + pri + seq!['>']).is_prefix_of(line_text(sink, record))
        }),
        ends_with(line_text(sink, record), one_line(message_text(sink, record))),
{
    reveal_strlit("<");
    reveal_strlit(">");
    reveal_strlit(">1 ");
    let line = line_text(sink, record);
    let msg = one_line(message_text(sink, record));
    assert(line.skip(line.len() - msg.len()) =~= msg);
    let pri = decimal(priority(sink.facility, record.level) as nat);
    assert((seq!['<'] + pri + seq!['>']).is_prefix_of(line));
}

/// The message of the record stands first in the message of the line. The fields stand last, as a
/// JSON object, where they are wanted and there are any; otherwise nothing is added.
pub proof fn law_fields_follow_message(sink: SinkView, record: RecordView)
    ensures
        record.message.is_prefix_of(message_text(sink, record)),
        sink.include_fields && record.fields.len() > 0 ==> {
            &&& ends_with(message_text(sink, record), json_object(record.fields))
            &&& json_object(record.fields).first() == '{'
            &&& json_object(record.fields).last() == '}'
        },
        !sink.include_fields || record.fields.len() == 0 ==> message_text(sink, record)
            == record.message,
{
    let msg = message_text(sink, record);
    let json = json_object(record.fields);
    if sink.include_fields && record.fields.len() > 0 {
        assert(msg.skip(msg.len() - json.len()) =~= json);
    }
}

/// A line ends with the fields as a JSON object, where they are wanted and there are any: that
/// text holds no line breaks, so it stands in the line unchanged.
pub proof fn law_line_ends_with_fields(sink: SinkView, record: RecordView)
    requires
        forall|i: int| 0 <= i < record.fields.len() ==> is_json_value(#[trigger] record.fields[i].1),
    ensures
        sink.include_fields && record.fields.len() > 0 ==> ends_with(
            line_text(sink, record),
            json_object(record.fields),
        ),
{
    let msg = one_line(message_text(sink, record));
    let json = json_object(record.fields);
    let line = line_text(sink, record);
    if sink.include_fields && record.fields.len() > 0 {
        law_fields_follow_message(sink, record);
        law_line_ends(sink, record);
        law_object_has_no_control(record.fields);
        assert forall|i: int| 0 <= i < json.len() implies json[i] != '\n' && json[i] != '\r' by {
            assert(!(json[i] < ' '));
        }
        law_one_line(message_text(sink, record));
        assert(msg.skip(msg.len() - json.len()) =~= json) by {
            assert(json =~= message_text(sink, record).skip(msg.len() - json.len()));
        }
        assert(line.skip(line.len() - json.len()) =~= line.skip(line.len() - msg.len()).skip(
            msg.len() - json.len(),
        ));
    }
}

/// A frame ends with a newline, and holds no other where the line holds none.
pub proof fn law_frame_holds_one_line(line: Seq<char>)
    ensures
        framed(line).last() == '\n',
        framed(line).drop_last() == line,
        !line.contains('\n') ==> forall|i: int|
            0 <= i < framed(line).len() && framed(line)[i] == '\n' ==> i == line.len(),
{
    reveal_strlit("\n");
    assert(framed(line).drop_last() =~= line);
}

/// The frames of some lines, one after the other.
pub open spec fn stream(lines: Seq<Seq<char>>) -> Seq<char>
    decreases lines.len(),
{
    if lines.len() == 0 {
        seq![]
    } else {
        framed(lines.first()) + stream(lines.drop_first())
    }
}

/// What stands before the first `c`, and what stands after it, is determined by the whole.
proof fn lemma_split_at_first(c: char, a1: Seq<char>, b1: Seq<char>, a2: Seq<char>, b2: Seq<char>)
    requires
        !a1.contains(c),
        !a2.contains(c),
        a1 + seq![c] + b1 == a2 + seq![c] + b2,
    ensures
        a1 == a2,
        b1 == b2,
{
    let s1 = a1 + seq![c] + b1;
    let s2 = a2 + seq![c] + b2;
    assert(s1[a1.len() as int] == c);
    assert(s2[a2.len() as int] == c);
    if a1.len() < a2.len() {
        assert(s2[a1.len() as int] == a2[a1.len() as int]);
    } else if a2.len() < a1.len() {
        assert(s1[a2.len() as int] == a1[a2.len() as int]);
    }
    assert(a1 =~= s1.take(a1.len() as int));
    assert(a2 =~= s2.take(a2.len() as int));
    assert(b1 =~= s1.skip(a1.len() as int + 1));
    assert(b2 =~= s2.skip(a2.len() as int + 1));
}

/// A stream of frames can be taken apart again: lines without newlines are determined by the
/// stream of their frames.
pub proof fn law_stream_keeps_lines_apart(a: Seq<Seq<char>>, b: Seq<Seq<char>>)
    requires
        forall|i: int| 0 <= i < a.len() ==> !(#[trigger] a[i]).contains('\n'),
        forall|i: int| 0 <= i < b.len() ==> !(#[trigger] b[i]).contains('\n'),
        stream(a) == stream(b),
    ensures
        a == b,
    decreases a.len(),
{
    reveal_strlit("\n");
    if a.len() > 0 && b.len() > 0 {
        let (ra, rb) = (a.drop_first(), b.drop_first());
        assert(stream(a) =~= a.first() + seq!['\n'] + stream(ra));
        assert(stream(b) =~= b.first() + seq!['\n'] + stream(rb));
        lemma_split_at_first('\n', a.first(), stream(ra), b.first(), stream(rb));
        law_stream_keeps_lines_apart(ra, rb);
        assert(a =~= seq![a.first()] + ra);
        assert(b =~= seq![b.first()] + rb);
    } else if a.len() > 0 {
        assert(stream(a).len() > 0);
    } else if b.len() > 0 {
        assert(stream(b).len() > 0);
    } else {
        assert(a =~= b);
    }
}

proof fn lemma_contains_concat(a: Seq<char>, b: Seq<char>, c: char)
    ensures
        (a + b).contains(c) <==> a.contains(c) || b.contains(c),
{
    let s = a + b;
    if a.contains(c) {
        let i = choose|i: int| 0 <= i < a.len() && a[i] == c;
        assert(s[i] == c);
    }
    if b.contains(c) {
        let i = choose|i: int| 0 <= i < b.len() && b[i] == c;
        assert(s[a.len() + i] == c);
    }
}

proof fn lemma_rfc5424_lacks(
    c: char,
    pri: int,
    ts: Seq<char>,
    host: Seq<char>,
    app: Seq<char>,
    msgid: Seq<char>,
    msg: Seq<char>,
)
    requires
        c < ' ',
        !ts.contains(c),
        !host.contains(c),
        !app.contains(c),
        !msgid.contains(c),
        !msg.contains(c),
    ensures
        !rfc5424_text(pri, ts, host, app, msgid, msg).contains(c),
{
    reveal_strlit("<");
    reveal_strlit(">1 ");
    reveal_strlit(" ");
    reveal_strlit(" - ");
    let d = decimal(pri as nat);
    lemma_decimal_digits(pri as nat);
    let s1 = "<"@ + d;
    let s2 = s1 + ">1 "@;
    let s3 = s2 + ts;
    let s4 = s3 + " "@;
    let s5 = s4 + host;
    let s6 = s5 + " "@;
    let s7 = s6 + app;
    let s8 = s7 + " - "@;
    let s9 = s8 + msgid;
    let s10 = s9 + " - "@;
    lemma_contains_concat("<"@, d, c);
    lemma_contains_concat(s1, ">1 "@, c);
    lemma_contains_concat(s2, ts, c);
    lemma_contains_concat(s3, " "@, c);
    lemma_contains_concat(s4, host, c);
    lemma_contains_concat(s5, " "@, c);
    lemma_contains_concat(s6, app, c);
    lemma_contains_concat(s7, " - "@, c);
    lemma_contains_concat(s8, msgid, c);
    lemma_contains_concat(s9, " - "@, c);
    lemma_contains_concat(s10, msg, c);
}

proof fn lemma_rfc3164_lacks(
    c: char,
    pri: int,
    ts: Seq<char>,
    host: Seq<char>,
    tag: Seq<char>,
    msg: Seq<char>,
)
    requires
        c < ' ',
        !ts.contains(c),
        !host.contains(c),
        !tag.contains(c),
        !msg.contains(c),
    ensures
        !rfc3164_text(pri, ts, host, tag, msg).contains(c),
{
    reveal_strlit("<");
    reveal_strlit(">");
    reveal_strlit(" ");
    reveal_strlit(": ");
    let d = decimal(pri as nat);
    lemma_decimal_digits(pri as nat);
    let s1 = "<"@ + d;
    let s2 = s1 + ">"@;
    let s3 = s2 + ts;
    let s4 = s3 + " "@;
    let s5 = s4 + host;
    let s6 = s5 + " "@;
    let s7 = s6 + tag;
    let s8 = s7 + ": "@;
    lemma_contains_concat("<"@, d, c);
    lemma_contains_concat(s1, ">"@, c);
    lemma_contains_concat(s2, ts, c);
    lemma_contains_concat(s3, " "@, c);
    lemma_contains_concat(s4, host, c);
    lemma_contains_concat(s5, " "@, c);
    lemma_contains_concat(s6, tag, c);
    lemma_contains_concat(s7, ": "@, c);
    lemma_contains_concat(s8, msg, c);
}

/// A record gives a single line: whatever the record and the sink, no line break stands in it.
pub proof fn law_record_gives_one_line(sink: SinkView, record: RecordView)
    requires
        0 <= record.timestamp_ns <= u64::MAX,
    ensures
        !line_text(sink, record).contains('\n'),
        !line_text(sink, record).contains('\r'),
{
    let pri = priority(sink.facility, record.level);
    let (host, app) = (one_line(sink.hostname), one_line(sink.app_name));
    let msg = one_line(message_text(sink, record));
    let secs = record.timestamp_ns / 1_000_000_000;
    let nanos = record.timestamp_ns % 1_000_000_000;
    law_one_line(sink.hostname);
    law_one_line(sink.app_name);
    law_one_line(message_text(sink, record));
    match sink.format {
        SyslogFormat::Rfc5424 => {
            let ts = rfc3339_text(secs, nanos);
            let msgid = token(record.target, MSGID_MAX as int);
            law_rfc3339_is_one_word(secs, nanos);
            law_token_is_one_word(record.target, MSGID_MAX as int);
            lemma_rfc5424_lacks('\n', pri, ts, host, app, msgid, msg);
            lemma_rfc5424_lacks('\r', pri, ts, host, app, msgid, msg);
        },
        SyslogFormat::Rfc3164 => {
            let ts = bsd_text(secs);
            law_bsd_is_one_line(secs);
            lemma_rfc3164_lacks('\n', pri, ts, host, app, msg);
            lemma_rfc3164_lacks('\r', pri, ts, host, app, msg);
        },
    }
}

/// The lines of some records can be read off the stream of their frames, whatever the sink and the
/// records are.
pub proof fn law_stream_keeps_records_apart(
    sink: SinkView,
    a: Seq<RecordView>,
    b: Seq<RecordView>,
)
    requires
        forall|i: int| 0 <= i < a.len() ==> 0 <= (#[trigger] a[i]).timestamp_ns <= u64::MAX,
        forall|i: int| 0 <= i < b.len() ==> 0 <= (#[trigger] b[i]).timestamp_ns <= u64::MAX,
        stream(a.map_values(|r: RecordView| line_text(sink, r))) == stream(
            b.map_values(|r: RecordView| line_text(sink, r)),
        ),
    ensures
        a.map_values(|r: RecordView| line_text(sink, r)) == b.map_values(
            |r: RecordView| line_text(sink, r),
        ),
{
    let lines_a = a.map_values(|r: RecordView| line_text(sink, r));
    let lines_b = b.map_values(|r: RecordView| line_text(sink, r));
    assert forall|i: int| 0 <= i < lines_a.len() implies !(#[trigger] lines_a[i]).contains('\n') by {
        law_record_gives_one_line(sink, a[i]);
    }
    assert forall|i: int| 0 <= i < lines_b.len() implies !(#[trigger] lines_b[i]).contains('\n') by {
        law_record_gives_one_line(sink, b[i]);
    }
    law_stream_keeps_lines_apart(lines_a, lines_b);
}

#[verifier::spinoff_prover]
#[verifier::rlimit(50)]
proof fn lemma_rfc5424_regroup(
    pri: int,
    ts: Seq<char>,
    host: Seq<char>,
    app: Seq<char>,
    msgid: Seq<char>,
    msg: Seq<char>,
)
    ensures
        rfc5424_text(pri, ts, host, app, msgid, msg) == (seq!['<'] + decimal(pri as nat)) + seq!['>']
            + (seq!['1'] + seq![' '] + (ts + seq![' '] + (host + seq![' '] + (app + seq![' '] + (seq![
            '-',
        ] + seq![' '] + (msgid + seq![' '] + (seq!['-'] + seq![' '] + msg))))))),
{
    reveal_strlit("<");
    reveal_strlit(">1 ");
    reveal_strlit(" ");
    reveal_strlit(" - ");
    assert(rfc5424_text(pri, ts, host, app, msgid, msg) =~= (seq!['<'] + decimal(pri as nat)) + seq![
        '>',
    ] + (seq!['1'] + seq![' '] + (ts + seq![' '] + (host + seq![' '] + (app + seq![' '] + (seq!['-']
        + seq![' '] + (msgid + seq![' '] + (seq!['-'] + seq![' '] + msg))))))));
}

proof fn lemma_pri_before_bracket(pri: int)
    ensures
        !(seq!['<'] + decimal(pri as nat)).contains('>'),
{
    lemma_decimal_digits(pri as nat);
}

/// The parts of an RFC 5424 line can be read off it again where host name and application name, on
/// a single line, hold no space: two sinks and two records that give the same line agree in
/// facility, severity, microsecond, MSGID, and in host name, application name and message on a
/// single line.
#[verifier::spinoff_prover]
#[verifier::rlimit(50)]
pub proof fn law_rfc5424_line_tells_its_parts(
    sink1: SinkView,
    record1: RecordView,
    sink2: SinkView,
    record2: RecordView,
)
    requires
        sink1.format == SyslogFormat::Rfc5424 && sink2.format == SyslogFormat::Rfc5424,
        sink1.valid() && sink2.valid(),
        0 <= record1.timestamp_ns <= u64::MAX && 0 <= record2.timestamp_ns <= u64::MAX,
        !one_line(sink1.hostname).contains(' ') && !one_line(sink2.hostname).contains(' '),
        !one_line(sink1.app_name).contains(' ') && !one_line(sink2.app_name).contains(' '),
        line_text(sink1, record1) == line_text(sink2, record2),
    ensures
        sink1.facility == sink2.facility,
        severity_of(record1.level) == severity_of(record2.level),
        record1.timestamp_ns / 1000 == record2.timestamp_ns / 1000,
        one_line(sink1.hostname) == one_line(sink2.hostname),
        one_line(sink1.app_name) == one_line(sink2.app_name),
        token(record1.target, MSGID_MAX as int) == token(record2.target, MSGID_MAX as int),
        one_line(message_text(sink1, record1)) == one_line(message_text(sink2, record2)),
{
    let (pri1, pri2) = (
        priority(sink1.facility, record1.level),
        priority(sink2.facility, record2.level),
    );
    let (a, b) = (record1.timestamp_ns as u64, record2.timestamp_ns as u64);
    let ts1 = rfc3339_text(a as int / 1_000_000_000, a as int % 1_000_000_000);
    let ts2 = rfc3339_text(b as int / 1_000_000_000, b as int % 1_000_000_000);
    let (id1, id2) = (token(record1.target, MSGID_MAX as int), token(record2.target, MSGID_MAX as int));
    let (host1, host2) = (one_line(sink1.hostname), one_line(sink2.hostname));
    let (app1, app2) = (one_line(sink1.app_name), one_line(sink2.app_name));
    let (msg1, msg2) = (
        one_line(message_text(sink1, record1)),
        one_line(message_text(sink2, record2)),
    );
    law_rfc3339_is_one_word(a as int / 1_000_000_000, a as int % 1_000_000_000);
    law_rfc3339_is_one_word(b as int / 1_000_000_000, b as int % 1_000_000_000);
    law_token_is_one_word(record1.target, MSGID_MAX as int);
    law_token_is_one_word(record2.target, MSGID_MAX as int);
    lemma_rfc5424_regroup(pri1, ts1, host1, app1, id1, msg1);
    lemma_rfc5424_regroup(pri2, ts2, host2, app2, id2, msg2);
    lemma_pri_before_bracket(pri1);
    lemma_pri_before_bracket(pri2);
    let tail1 = seq!['-'] + seq![' '] + msg1;
    let tail2 = seq!['-'] + seq![' '] + msg2;
    let from_id1 = seq!['-'] + seq![' '] + (id1 + seq![' '] + tail1);
    let from_id2 = seq!['-'] + seq![' '] + (id2 + seq![' '] + tail2);
    let from_app1 = app1 + seq![' '] + from_id1;
    let from_app2 = app2 + seq![' '] + from_id2;
    let from_host1 = host1 + seq![' '] + from_app1;
    let from_host2 = host2 + seq![' '] + from_app2;
    let from_ts1 = ts1 + seq![' '] + from_host1;
    let from_ts2 = ts2 + seq![' '] + from_host2;
    let (head1, head2) = (seq!['<'] + decimal(pri1 as nat), seq!['<'] + decimal(pri2 as nat));
    lemma_split_at_first(
        '>',
        head1,
        seq!['1'] + seq![' '] + from_ts1,
        head2,
        seq!['1'] + seq![' '] + from_ts2,
    );
    assert(decimal(pri1 as nat) =~= head1.skip(1));
    assert(decimal(pri2 as nat) =~= head2.skip(1));
    lemma_decimal_injective(pri1 as nat, pri2 as nat);
    lemma_split_at_first(' ', seq!['1'], from_ts1, seq!['1'], from_ts2);
    lemma_split_at_first(' ', ts1, from_host1, ts2, from_host2);
    lemma_split_at_first(' ', host1, from_app1, host2, from_app2);
    lemma_split_at_first(' ', app1, from_id1, app2, from_id2);
    lemma_split_at_first(' ', seq!['-'], id1 + seq![' '] + tail1, seq!['-'], id2 + seq![' '] + tail2);
    lemma_split_at_first(' ', id1, tail1, id2, tail2);
    lemma_split_at_first(' ', seq!['-'], msg1, seq!['-'], msg2);
    law_rfc3339_tells_microseconds_apart(a, b);
}

#[verifier::spinoff_prover]
#[verifier::rlimit(50)]
proof fn lemma_rfc3164_regroup(
    pri: int,
    ts: Seq<char>,
    host: Seq<char>,
    tag: Seq<char>,
    msg: Seq<char>,
)
    ensures
        rfc3164_text(pri, ts, host, tag, msg) == (seq!['<'] + decimal(pri as nat)) + seq!['>'] + (ts
            + (seq![' '] + (host + seq![' '] + (tag + seq![':'] + (seq![' '] + msg))))),
{
    reveal_strlit("<");
    reveal_strlit(">");
    reveal_strlit(" ");
    reveal_strlit(": ");
    assert(rfc3164_text(pri, ts, host, tag, msg) =~= (seq!['<'] + decimal(pri as nat)) + seq!['>']
        + (ts + (seq![' '] + (host + seq![' '] + (tag + seq![':'] + (seq![' '] + msg))))));
}

proof fn lemma_split_at_length(a1: Seq<char>, b1: Seq<char>, a2: Seq<char>, b2: Seq<char>)
    requires
        a1.len() == a2.len(),
        a1 + b1 == a2 + b2,
    ensures
        a1 == a2,
        b1 == b2,
{
    let (s1, s2) = (a1 + b1, a2 + b2);
    assert(a1 =~= s1.take(a1.len() as int));
    assert(a2 =~= s2.take(a1.len() as int));
    assert(b1 =~= s1.skip(a1.len() as int));
    assert(b2 =~= s2.skip(a1.len() as int));
}

/// The parts of an RFC 3164 line can be read off it again where the host name, on a single line,
/// holds no space and the tag no colon: two sinks and two records that give the same line agree in
/// facility, severity, timestamp, and in host name, tag and message on a single line.
#[verifier::spinoff_prover]
#[verifier::rlimit(50)]
pub proof fn law_rfc3164_line_tells_its_parts(
    sink1: SinkView,
    record1: RecordView,
    sink2: SinkView,
    record2: RecordView,
)
    requires
        sink1.format == SyslogFormat::Rfc3164 && sink2.format == SyslogFormat::Rfc3164,
        sink1.valid() && sink2.valid(),
        0 <= record1.timestamp_ns <= u64::MAX && 0 <= record2.timestamp_ns <= u64::MAX,
        !one_line(sink1.hostname).contains(' ') && !one_line(sink2.hostname).contains(' '),
        !one_line(sink1.app_name).contains(':') && !one_line(sink2.app_name).contains(':'),
        line_text(sink1, record1) == line_text(sink2, record2),
    ensures
        sink1.facility == sink2.facility,
        severity_of(record1.level) == severity_of(record2.level),
        bsd_text(record1.timestamp_ns / 1_000_000_000) == bsd_text(
            record2.timestamp_ns / 1_000_000_000,
        ),
        one_line(sink1.hostname) == one_line(sink2.hostname),
        one_line(sink1.app_name) == one_line(sink2.app_name),
        one_line(message_text(sink1, record1)) == one_line(message_text(sink2, record2)),
{
    let (pri1, pri2) = (
        priority(sink1.facility, record1.level),
        priority(sink2.facility, record2.level),
    );
    let ts1 = bsd_text(record1.timestamp_ns / 1_000_000_000);
    let ts2 = bsd_text(record2.timestamp_ns / 1_000_000_000);
    let (host1, host2) = (one_line(sink1.hostname), one_line(sink2.hostname));
    let (app1, app2) = (one_line(sink1.app_name), one_line(sink2.app_name));
    let (msg1, msg2) = (
        one_line(message_text(sink1, record1)),
        one_line(message_text(sink2, record2)),
    );
    law_bsd_is_one_line(record1.timestamp_ns / 1_000_000_000);
    law_bsd_is_one_line(record2.timestamp_ns / 1_000_000_000);
    lemma_rfc3164_regroup(pri1, ts1, host1, app1, msg1);
    lemma_rfc3164_regroup(pri2, ts2, host2, app2, msg2);
    lemma_pri_before_bracket(pri1);
    lemma_pri_before_bracket(pri2);
    let from_tag1 = app1 + seq![':'] + (seq![' '] + msg1);
    let from_tag2 = app2 + seq![':'] + (seq![' '] + msg2);
    let from_host1 = host1 + seq![' '] + from_tag1;
    let from_host2 = host2 + seq![' '] + from_tag2;
    let (head1, head2) = (seq!['<'] + decimal(pri1 as nat), seq!['<'] + decimal(pri2 as nat));
    lemma_split_at_first(
        '>',
        head1,
        ts1 + (seq![' '] + from_host1),
        head2,
        ts2 + (seq![' '] + from_host2),
    );
    assert(decimal(pri1 as nat) =~= head1.skip(1));
    assert(decimal(pri2 as nat) =~= head2.skip(1));
    lemma_decimal_injective(pri1 as nat, pri2 as nat);
    lemma_split_at_length(ts1, seq![' '] + from_host1, ts2, seq![' '] + from_host2);
    lemma_split_at_length(seq![' '], from_host1, seq![' '], from_host2);
    lemma_split_at_first(' ', host1, from_tag1, host2, from_tag2);
    lemma_split_at_first(
        ':',
        app1,
        seq![' '] + msg1,
        app2,
        seq![' '] + msg2,
    );
    lemma_split_at_length(seq![' '], msg1, seq![' '], msg2);
}

/// A sink has the settings of its configuration, each of them and unchanged, whatever the others
/// are; an absent host name becomes `-`.
pub proof fn law_settings_are_those_of_the_configuration(cfg: SyslogConfig)
    ensures
        configured(cfg).destination == cfg.destination@,
        configured(cfg).format == cfg.format,
        configured(cfg).facility == cfg.facility,
        configured(cfg).app_name == cfg.app_name@,
        cfg.hostname matches Some(hostname) ==> configured(cfg).hostname == hostname@,
        cfg.hostname is None ==> configured(cfg).hostname == seq!['-'],
        configured(cfg).min_level == cfg.min_level,
        configured(cfg).include_fields == cfg.include_fields,
{
    reveal_strlit("-");
    assert("-"@ =~= seq!['-']);
}

/// A sink drops a record exactly when its configuration names a lowest level and the level of the
/// record ranks below it.
pub proof fn law_configured_lowest_level_drops(cfg: SyslogConfig, level: LogLevel)
    ensures
        !passes(configured(cfg).min_level, level) <==> (cfg.min_level matches Some(min)
            && level.rank() < min.rank()),
{
}

/// A configuration is refused for a facility above 23, and then for an empty network address, and
/// for nothing else; valid settings are those with neither.
pub proof fn law_refusals_and_their_causes(cfg: SyslogConfig, settings: SinkView)
    ensures
        ({
            let no_udp = cfg.destination matches Destination::Udp { address } && address@.len() == 0;
            let no_tcp = cfg.destination matches Destination::Tcp { address } && address@.len() == 0;
            &&& refusal(cfg) == Some(ConfigError::FacilityOutOfRange(cfg.facility)) <==> cfg.facility
                > 23
            &&& refusal(cfg) == Some(ConfigError::EmptyUdpAddress) <==> cfg.facility <= 23 && no_udp
            &&& refusal(cfg) == Some(ConfigError::EmptyTcpAddress) <==> cfg.facility <= 23 && no_tcp
            &&& refusal(cfg) is None <==> cfg.facility <= 23 && !no_udp && !no_tcp
        }),
        settings.valid() <==> 0 <= settings.facility <= 23 && (
        settings.destination matches DestinationView::Udp { address } ==> address.len() > 0) && (
        settings.destination matches DestinationView::Tcp { address } ==> address.len() > 0),
{
}

/// The PRI value is eight times the facility and the severity of the level, which is three for
/// errors, four for warnings, six for information and seven below that.
pub proof fn law_priority_is_facility_and_level(facility: int, level: LogLevel)
    ensures
        level == LogLevel::Error ==> priority(facility, level) == facility * 8 + 3,
        level == LogLevel::Warn ==> priority(facility, level) == facility * 8 + 4,
        level == LogLevel::Info ==> priority(facility, level) == facility * 8 + 6,
        level == LogLevel::Debug ==> priority(facility, level) == facility * 8 + 7,
        level == LogLevel::Trace ==> priority(facility, level) == facility * 8 + 7,
{
}

/// What is sent for a line, of any length: to a UDP address the line itself, to every other
/// destination the line and one newline behind it; to the address and the kind of destination that
/// is configured.
pub proof fn law_deliveries_carry_the_line(destination: DestinationView, line: Seq<char>)
    ensures
        destination matches DestinationView::Udp { address } ==> (dispatched(
            destination,
            line,
        ) matches DeliveryView::Datagram { address: to, line: sent } && to == address && sent
            == line),
        destination matches DestinationView::Tcp { address } ==> (dispatched(
            destination,
            line,
        ) matches DeliveryView::Stream { address: to, frame } && to == address && frame.len()
            == line.len() + 1 && frame.last() == '\n' && frame.drop_last() == line),
        destination is Stdout ==> (dispatched(
            destination,
            line,
        ) matches DeliveryView::Stdout { frame } && frame.len() == line.len() + 1 && frame.last()
            == '\n' && frame.drop_last() == line),
        destination is Stderr ==> (dispatched(
            destination,
            line,
        ) matches DeliveryView::Stderr { frame } && frame.len() == line.len() + 1 && frame.last()
            == '\n' && frame.drop_last() == line),
{
    law_frame_holds_one_line(line);
    reveal_strlit("\n");
}

/// The contracts speak of a delivery as it is: of the same kind, with the same texts.
pub proof fn law_delivery_is_seen_as_it_is(delivery: Delivery)
    ensures
        delivery matches Delivery::Datagram { address, line } ==> delivery@
            == (DeliveryView::Datagram { address: address@, line: line@ }),
        delivery matches Delivery::Stream { address, frame } ==> delivery@ == (DeliveryView::Stream {
            address: address@,
            frame: frame@,
        }),
        delivery matches Delivery::Stdout { frame } ==> delivery@ == (DeliveryView::Stdout {
            frame: frame@,
        }),
        delivery matches Delivery::Stderr { frame } ==> delivery@ == (DeliveryView::Stderr {
            frame: frame@,
        }),
{
}

/// The message of a line, place by place: the message of the record, and behind it, where fields
/// are wanted and there are any, one space and the JSON object and no more.
pub proof fn law_message_places(sink: SinkView, record: RecordView)
    ensures
        ({
            let msg = message_text(sink, record);
            let n = record.message.len() as int;
            let json = json_object(record.fields);
            &&& msg.take(n) == record.message
            &&& sink.include_fields && record.fields.len() > 0 ==> msg.len() == n + 1 + json.len()
                && msg[n] == ' ' && msg.skip(n + 1) == json
            &&& !(sink.include_fields && record.fields.len() > 0) ==> msg.len() == n
        }),
{
    let msg = message_text(sink, record);
    let n = record.message.len() as int;
    assert(msg.take(n) =~= record.message);
    if sink.include_fields && record.fields.len() > 0 {
        assert(msg.skip(n + 1) =~= json_object(record.fields));
    }
}

/// The parts of an RFC 5424 line stand in their places: `<`, PRI, `>1 `, timestamp, a space, host
/// name, a space, application name, ` - `, MSGID, ` - `, message.
#[verifier::spinoff_prover]
#[verifier::rlimit(50)]
pub proof fn law_rfc5424_places(
    pri: int,
    ts: Seq<char>,
    host: Seq<char>,
    app: Seq<char>,
    msgid: Seq<char>,
    msg: Seq<char>,
)
    ensures
        ({
            let line = rfc5424_text(pri, ts, host, app, msgid, msg);
            let number = decimal(pri as nat);
            let t = number.len() as int + 4;
            let h = t + ts.len() + 1;
            let a = h + host.len() + 1;
            let i = a + app.len() + 3;
            let m = i + msgid.len() + 3;
            &&& line.len() == m + msg.len()
            &&& line[0] == '<' && line.subrange(1, t - 3) == number
            &&& line[t - 3] == '>' && line[t - 2] == '1' && line[t - 1] == ' '
            &&& line.subrange(t, h - 1) == ts && line[h - 1] == ' '
            &&& line.subrange(h, a - 1) == host && line[a - 1] == ' '
            &&& line.subrange(a, i - 3) == app
            &&& line[i - 3] == ' ' && line[i - 2] == '-' && line[i - 1] == ' '
            &&& line.subrange(i, m - 3) == msgid
            &&& line[m - 3] == ' ' && line[m - 2] == '-' && line[m - 1] == ' '
            &&& line.skip(m) == msg
        }),
{
    reveal_strlit("<");
    reveal_strlit(">1 ");
    reveal_strlit(" ");
    reveal_strlit(" - ");
    let line = rfc5424_text(pri, ts, host, app, msgid, msg);
    let number = decimal(pri as nat);
    let t = number.len() as int + 4;
    let h = t + ts.len() + 1;
    let a = h + host.len() + 1;
    let i = a + app.len() + 3;
    let m = i + msgid.len() + 3;
    assert(line.subrange(1, t - 3) =~= number);
    assert(line.subrange(t, h - 1) =~= ts);
    assert(line.subrange(h, a - 1) =~= host);
    assert(line.subrange(a, i - 3) =~= app);
    assert(line.subrange(i, m - 3) =~= msgid);
    assert(line.skip(m) =~= msg);
}

/// The parts of an RFC 3164 line stand in their places: `<`, PRI, `>`, timestamp, a space, host
/// name, a space, tag, `: `, message.
#[verifier::spinoff_prover]
#[verifier::rlimit(50)]
pub proof fn law_rfc3164_places(
    pri: int,
    ts: Seq<char>,
    host: Seq<char>,
    tag: Seq<char>,
    msg: Seq<char>,
)
    ensures
        ({
            let line = rfc3164_text(pri, ts, host, tag, msg);
            let number = decimal(pri as nat);
            let t = number.len() as int + 2;
            let h = t + ts.len() + 1;
            let a = h + host.len() + 1;
            let m = a + tag.len() + 2;
            &&& line.len() == m + msg.len()
            &&& line[0] == '<' && line.subrange(1, t - 1) == number && line[t - 1] == '>'
            &&& line.subrange(t, h - 1) == ts && line[h - 1] == ' '
            &&& line.subrange(h, a - 1) == host && line[a - 1] == ' '
            &&& line.subrange(a, m - 2) == tag && line[m - 2] == ':' && line[m - 1] == ' '
            &&& line.skip(m) == msg
        }),
{
    reveal_strlit("<");
    reveal_strlit(">");
    reveal_strlit(" ");
    reveal_strlit(": ");
    let line = rfc3164_text(pri, ts, host, tag, msg);
    let number = decimal(pri as nat);
    let t = number.len() as int + 2;
    let h = t + ts.len() + 1;
    let a = h + host.len() + 1;
    let m = a + tag.len() + 2;
    assert(line.subrange(1, t - 1) =~= number);
    assert(line.subrange(t, h - 1) =~= ts);
    assert(line.subrange(h, a - 1) =~= host);
    assert(line.subrange(a, m - 2) =~= tag);
    assert(line.skip(m) =~= msg);
}

proof fn lemma_one_line_at(line: Seq<char>, at: int, text: Seq<char>)
    requires
        0 <= at,
        at + text.len() <= line.len(),
        line.subrange(at, at + text.len()) == one_line(text),
    ensures
        forall|k: int|
            0 <= k < text.len() ==> line[at + k] == (if #[trigger] text[k] == '\n' || text[k]
                == '\r' {
                ' '
            } else {
                text[k]
            }),
{
    law_one_line_puts_spaces_for_breaks(text);
    let part = line.subrange(at, at + text.len());
    assert forall|k: int| 0 <= k < text.len() implies line[at + k] == (if #[trigger] text[k] == '\n'
        || text[k] == '\r' {
        ' '
    } else {
        text[k]
    }) by {
        assert(part[k] == line[at + k]);
        assert(one_line(text)[k] == part[k]);
    }
}

proof fn lemma_token_at(line: Seq<char>, at: int, target: Seq<char>)
    requires
        0 <= at,
        at + token(target, 32).len() <= line.len(),
        line.subrange(at, at + token(target, 32).len()) == token(target, 32),
    ensures
        token(target, 32).len() == (if target.len() == 0 {
            1int
        } else if target.len() <= 32 {
            target.len() as int
        } else {
            32
        }),
        target.len() == 0 ==> line[at] == '-',
        forall|k: int|
            0 <= k < target.len() && k < 32 ==> line[at + k] == (if is_white_space(
                #[trigger] target[k],
            ) || (target[k] as int) < 0x20 || 0x7f <= (target[k] as int) <= 0x9f {
                '_'
            } else {
                target[k]
            }),
{
    law_token_takes_the_first_characters(target, 32);
    let id = token(target, 32);
    let part = line.subrange(at, at + id.len());
    assert forall|k: int| 0 <= k < id.len() implies line[at + k] == #[trigger] id[k] by {
        assert(part[k] == line[at + k]);
    }
    if target.len() == 0 {
        assert(line[at + 0] == id[0]);
    }
    assert forall|k: int| 0 <= k < target.len() && k < 32 implies line[at + k] == (if is_white_space(
        #[trigger] target[k],
    ) || (target[k] as int) < 0x20 || 0x7f <= (target[k] as int) <= 0x9f {
        '_'
    } else {
        target[k]
    }) by {
        assert(line[at + k] == id[k]);
    }
}

/// The parts of the line of a record, by their lengths.
#[verifier::spinoff_prover]
#[verifier::rlimit(50)]
proof fn lemma_rfc5424_parts_of_line(sink: SinkView, record: RecordView)
    requires
        sink.format == SyslogFormat::Rfc5424,
        0 <= record.timestamp_ns <= u64::MAX,
    ensures
        ({
            let line = line_text(sink, record);
            let msg = message_text(sink, record);
            let ts = rfc3339_text(
                record.timestamp_ns / 1_000_000_000,
                record.timestamp_ns % 1_000_000_000,
            );
            let msgid = token(record.target, 32);
            let number = decimal(priority(sink.facility, record.level) as nat);
            let t = number.len() as int + 4;
            let h = t + 28;
            let a = h + sink.hostname.len() + 1;
            let i = a + sink.app_name.len() + 3;
            let m = i + msgid.len() + 3;
            &&& line.len() == m + msg.len()
            &&& line[0] == '<' && line.subrange(1, t - 3) == number
            &&& line[t - 3] == '>' && line[t - 2] == '1' && line[t - 1] == ' '
            &&& line.subrange(t, t + 27) == ts && line[h - 1] == ' '
            &&& line.subrange(h, h + sink.hostname.len()) == one_line(sink.hostname)
            &&& line[a - 1] == ' '
            &&& line.subrange(a, a + sink.app_name.len()) == one_line(sink.app_name)
            &&& line[i - 3] == ' ' && line[i - 2] == '-' && line[i - 1] == ' '
            &&& line.subrange(i, i + msgid.len()) == msgid
            &&& line[m - 3] == ' ' && line[m - 2] == '-' && line[m - 1] == ' '
            &&& line.subrange(m, m + msg.len()) == one_line(msg)
        }),
{
    let msg = message_text(sink, record);
    let secs = record.timestamp_ns / 1_000_000_000;
    let nanos = record.timestamp_ns % 1_000_000_000;
    let ts = rfc3339_text(secs, nanos);
    let msgid = token(record.target, 32);
    let pri = priority(sink.facility, record.level);
    law_one_line_puts_spaces_for_breaks(sink.hostname);
    law_one_line_puts_spaces_for_breaks(sink.app_name);
    law_one_line_puts_spaces_for_breaks(msg);
    law_rfc3339_is_one_word(secs, nanos);
    law_rfc5424_places(
        pri,
        ts,
        one_line(sink.hostname),
        one_line(sink.app_name),
        msgid,
        one_line(msg),
    );
    let line = line_text(sink, record);
    let m = line.len() - msg.len();
    assert(line.skip(m) =~= line.subrange(m, m + msg.len()));
}

/// The parts of the line of a record, by their lengths.
#[verifier::spinoff_prover]
#[verifier::rlimit(50)]
proof fn lemma_rfc3164_parts_of_line(sink: SinkView, record: RecordView)
    requires
        sink.format == SyslogFormat::Rfc3164,
        0 <= record.timestamp_ns <= u64::MAX,
    ensures
        ({
            let line = line_text(sink, record);
            let msg = message_text(sink, record);
            let number = decimal(priority(sink.facility, record.level) as nat);
            let t = number.len() as int + 2;
            let h = t + 16;
            let a = h + sink.hostname.len() + 1;
            let m = a + sink.app_name.len() + 2;
            &&& line.len() == m + msg.len()
            &&& line[0] == '<' && line.subrange(1, t - 1) == number && line[t - 1] == '>'
            &&& line.subrange(t, t + 15) == bsd_text(record.timestamp_ns / 1_000_000_000)
            &&& line[h - 1] == ' '
            &&& line.subrange(h, h + sink.hostname.len()) == one_line(sink.hostname)
            &&& line[a - 1] == ' '
            &&& line.subrange(a, a + sink.app_name.len()) == one_line(sink.app_name)
            &&& line[m - 2] == ':' && line[m - 1] == ' '
            &&& line.subrange(m, m + msg.len()) == one_line(msg)
        }),
{
    let msg = message_text(sink, record);
    let secs = record.timestamp_ns / 1_000_000_000;
    law_one_line_puts_spaces_for_breaks(sink.hostname);
    law_one_line_puts_spaces_for_breaks(sink.app_name);
    law_one_line_puts_spaces_for_breaks(msg);
    law_bsd_is_one_line(secs);
    law_rfc3164_places(
        priority(sink.facility, record.level),
        bsd_text(secs),
        one_line(sink.hostname),
        one_line(sink.app_name),
        one_line(msg),
    );
    let line = line_text(sink, record);
    let m = line.len() - msg.len();
    assert(line.skip(m) =~= line.subrange(m, m + msg.len()));
}

/// The RFC 5424 line of a record, place by place, whatever the level and the facility: the PRI of
/// facility and level, the timestamp of the record, the host name of the sink and then its
/// application name, the target as MSGID, and the message. Line breaks in host name, application
/// name and message are spaces in the line.
#[verifier::spinoff_prover]
#[verifier::rlimit(50)]
pub proof fn law_rfc5424_line_of_a_record(sink: SinkView, record: RecordView)
    requires
        sink.format == SyslogFormat::Rfc5424,
        0 <= sink.facility,
        0 <= record.timestamp_ns <= u64::MAX,
    ensures
        ({
            let line = line_text(sink, record);
            let number = decimal((sink.facility * 8 + severity_of(record.level)) as nat);
            let t = number.len() as int + 4;
            let h = t + 28;
            let a = h + sink.hostname.len() + 1;
            let i = a + sink.app_name.len() + 3;
            let n: int = if record.target.len() == 0 {
                1
            } else if record.target.len() <= 32 {
                record.target.len() as int
            } else {
                32
            };
            let m = i + n + 3;
            &&& line.len() == m + message_text(sink, record).len()
            &&& line[0] == '<' && line.subrange(1, t - 3) == number
            &&& line[t - 3] == '>' && line[t - 2] == '1' && line[t - 1] == ' '
            &&& line.subrange(t, t + 27) == rfc3339_text(
                record.timestamp_ns / 1_000_000_000,
                record.timestamp_ns % 1_000_000_000,
            )
            &&& line[h - 1] == ' '
            &&& forall|k: int|
                0 <= k < sink.hostname.len() ==> line[h + k] == (if #[trigger] sink.hostname[k]
                    == '\n' || sink.hostname[k] == '\r' {
                    ' '
                } else {
                    sink.hostname[k]
                })
            &&& line[a - 1] == ' '
            &&& forall|k: int|
                0 <= k < sink.app_name.len() ==> line[a + k] == (if #[trigger] sink.app_name[k]
                    == '\n' || sink.app_name[k] == '\r' {
                    ' '
                } else {
                    sink.app_name[k]
                })
            &&& line[i - 3] == ' ' && line[i - 2] == '-' && line[i - 1] == ' '
            &&& record.target.len() == 0 ==> line[i] == '-'
            &&& forall|k: int|
                0 <= k < record.target.len() && k < 32 ==> line[i + k] == (if is_white_space(
                    #[trigger] record.target[k],
                ) || (record.target[k] as int) < 0x20 || 0x7f <= (record.target[k] as int) <= 0x9f {
                    '_'
                } else {
                    record.target[k]
                })
            &&& line[m - 3] == ' ' && line[m - 2] == '-' && line[m - 1] == ' '
            &&& forall|k: int|
                0 <= k < message_text(sink, record).len() ==> line[m + k] == (
                if #[trigger] message_text(sink, record)[k] == '\n' || message_text(sink, record)[k]
                    == '\r' {
                    ' '
                } else {
                    message_text(sink, record)[k]
                })
        }),
{
    let msg = message_text(sink, record);
    let line = line_text(sink, record);
    lemma_rfc5424_parts_of_line(sink, record);
    let h = decimal(priority(sink.facility, record.level) as nat).len() as int + 32;
    let a = h + sink.hostname.len() + 1;
    let i = a + sink.app_name.len() + 3;
    let m = i + token(record.target, 32).len() + 3;
    lemma_one_line_at(line, h, sink.hostname);
    lemma_one_line_at(line, a, sink.app_name);
    lemma_token_at(line, i, record.target);
    lemma_one_line_at(line, m, msg);
}

/// The RFC 3164 line of a record, place by place, whatever the level and the facility: the PRI of
/// facility and level, the timestamp of the record, the host name of the sink and then its
/// application name as tag, and the message. Line breaks in host name, application name and
/// message are spaces in the line.
#[verifier::spinoff_prover]
#[verifier::rlimit(50)]
pub proof fn law_rfc3164_line_of_a_record(sink: SinkView, record: RecordView)
    requires
        sink.format == SyslogFormat::Rfc3164,
        0 <= sink.facility,
        0 <= record.timestamp_ns <= u64::MAX,
    ensures
        ({
            let line = line_text(sink, record);
            let number = decimal((sink.facility * 8 + severity_of(record.level)) as nat);
            let t = number.len() as int + 2;
            let h = t + 16;
            let a = h + sink.hostname.len() + 1;
            let m = a + sink.app_name.len() + 2;
            &&& line.len() == m + message_text(sink, record).len()
            &&& line[0] == '<' && line.subrange(1, t - 1) == number && line[t - 1] == '>'
            &&& line.subrange(t, t + 15) == bsd_text(record.timestamp_ns / 1_000_000_000)
            &&& line[h - 1] == ' '
            &&& forall|k: int|
                0 <= k < sink.hostname.len() ==> line[h + k] == (if #[trigger] sink.hostname[k]
                    == '\n' || sink.hostname[k] == '\r' {
                    ' '
                } else {
                    sink.hostname[k]
                })
            &&& line[a - 1] == ' '
            &&& forall|k: int|
                0 <= k < sink.app_name.len() ==> line[a + k] == (if #[trigger] sink.app_name[k]
                    == '\n' || sink.app_name[k] == '\r' {
                    ' '
                } else {
                    sink.app_name[k]
                })
            &&& line[m - 2] == ':' && line[m - 1] == ' '
            &&& forall|k: int|
                0 <= k < message_text(sink, record).len() ==> line[m + k] == (
                if #[trigger] message_text(sink, record)[k] == '\n' || message_text(sink, record)[k]
                    == '\r' {
                    ' '
                } else {
                    message_text(sink, record)[k]
                })
        }),
{
    let msg = message_text(sink, record);
    let line = line_text(sink, record);
    lemma_rfc3164_parts_of_line(sink, record);
    let number = decimal(priority(sink.facility, record.level) as nat);
    let h = number.len() as int + 18;
    let a = h + sink.hostname.len() + 1;
    let m = a + sink.app_name.len() + 2;
    lemma_one_line_at(line, h, sink.hostname);
    lemma_one_line_at(line, a, sink.app_name);
    lemma_one_line_at(line, m, msg);
}

} // verus!
