//! The state that the serial controller publishes, and how each event of
//! the connection changes it.
use std::collections::VecDeque;
use vstd::prelude::*;

use crate::numbers::{hex4_lower, hex4_lower_exec, nat_text, nat_text_exec};
use crate::protocol::{
    display_text, first_nonempty, form_from_response, normalize_response_for_display,
    response_is_err, DeviceForm, FormModel,
};
use crate::text::{
    ends_with, ends_with_exec, same_chars, same_text,
    append_chars, append_str, ascii_lower, ascii_lower_exec, chars_of, find, find_exec, join,
    join_exec, string_of, views,
};

verus! {

pub const MAX_LOG_LINES: usize = 300;

/// A serial port as the port list shows it.
#[derive(Clone, Debug)]
pub struct PortSummary {
    pub port_name: String,
    pub summary: String,
    pub is_preferred_device: bool,
}

pub struct PortModel {
    pub port_name: Seq<char>,
    pub summary: Seq<char>,
    pub is_preferred_device: bool,
}

impl View for PortSummary {
    type V = PortModel;

    open spec fn view(&self) -> PortModel {
        PortModel {
            port_name: self.port_name@,
            summary: self.summary@,
            is_preferred_device: self.is_preferred_device,
        }
    }
}

impl Default for PortSummary {
    fn default() -> (r: Self)
        ensures
            r@ == (PortModel { port_name: seq![], summary: seq![], is_preferred_device: false }),
    {
        PortSummary { port_name: String::new(), summary: String::new(), is_preferred_device: false }
    }
}

/// What the serial controller publishes after each step.
#[derive(Clone, Debug)]
pub struct SerialSnapshot {
    pub connection_status: String,
    pub ports: Vec<PortSummary>,
    pub connected_port: Option<String>,
    pub connected_usb_summary: Option<String>,
    pub tx_commands: u64,
    pub rx_lines: u64,
    pub last_event: String,
    pub last_error: Option<String>,
    pub log_lines: Vec<String>,
    pub port_scan_generation: u64,
    pub readback_generation: u64,
    pub readback_form: Option<DeviceForm>,
    pub last_response_text: Option<String>,
    pub busy: bool,
}

pub struct SnapshotModel {
    pub connection_status: Seq<char>,
    pub ports: Seq<PortModel>,
    pub connected_port: Option<Seq<char>>,
    pub connected_usb_summary: Option<Seq<char>>,
    pub tx_commands: u64,
    pub rx_lines: u64,
    pub last_event: Seq<char>,
    pub last_error: Option<Seq<char>>,
    pub log_lines: Seq<Seq<char>>,
    pub port_scan_generation: u64,
    pub readback_generation: u64,
    pub readback_form: Option<FormModel>,
    pub last_response_text: Option<Seq<char>>,
    pub busy: bool,
}

pub open spec fn opt_text(o: Option<String>) -> Option<Seq<char>> {
    match o {
        Some(s) => Some(s@),
        None => None,
    }
}

pub open spec fn port_views(v: Seq<PortSummary>) -> Seq<PortModel> {
    v.map_values(|p: PortSummary| p@)
}

pub open spec fn string_views(v: Seq<String>) -> Seq<Seq<char>> {
    v.map_values(|s: String| s@)
}

impl View for SerialSnapshot {
    type V = SnapshotModel;

    open spec fn view(&self) -> SnapshotModel {
        SnapshotModel {
            connection_status: self.connection_status@,
            ports: port_views(self.ports@),
            connected_port: opt_text(self.connected_port),
            connected_usb_summary: opt_text(self.connected_usb_summary),
            tx_commands: self.tx_commands,
            rx_lines: self.rx_lines,
            last_event: self.last_event@,
            last_error: opt_text(self.last_error),
            log_lines: string_views(self.log_lines@),
            port_scan_generation: self.port_scan_generation,
            readback_generation: self.readback_generation,
            readback_form: match self.readback_form {
                Some(f) => Some(f@),
                None => None,
            },
            last_response_text: opt_text(self.last_response_text),
            busy: self.busy,
        }
    }
}

/// The state before the controller has done anything.
pub open spec fn initial_snapshot() -> SnapshotModel {
    SnapshotModel {
        connection_status: "idle"@,
        ports: seq![],
        connected_port: None,
        connected_usb_summary: None,
        tx_commands: 0,
        rx_lines: 0,
        last_event: "serial controller starting"@,
        last_error: None,
        log_lines: seq!["[system] serial controller started"@],
        port_scan_generation: 0,
        readback_generation: 0,
        readback_form: None,
        last_response_text: None,
        busy: false,
    }
}

impl Default for SerialSnapshot {
    fn default() -> (r: Self)
        ensures
            r@ == initial_snapshot(),
    {
        let mut log_lines: Vec<String> = Vec::new();
        log_lines.push("[system] serial controller started".to_owned());
        let r = SerialSnapshot {
            connection_status: "idle".to_owned(),
            ports: Vec::new(),
            connected_port: None,
            connected_usb_summary: None,
            tx_commands: 0,
            rx_lines: 0,
            last_event: "serial controller starting".to_owned(),
            last_error: None,
            log_lines,
            port_scan_generation: 0,
            readback_generation: 0,
            readback_form: None,
            last_response_text: None,
            busy: false,
        };
        assert(string_views(r.log_lines@) =~= seq!["[system] serial controller started"@]);
        assert(port_views(r.ports@) =~= Seq::<PortModel>::empty());
        r
    }
}

/// The log with `line` added at the end and the oldest lines dropped so
/// that at most `MAX_LOG_LINES` remain.
pub open spec fn appended_log(log: Seq<Seq<char>>, line: Seq<char>) -> Seq<Seq<char>> {
    let l = log.push(line);
    if l.len() > MAX_LOG_LINES {
        l.skip(l.len() - MAX_LOG_LINES)
    } else {
        l
    }
}

/// Whether no counter of `b` is below that of `a`.
pub open spec fn counters_le(a: SnapshotModel, b: SnapshotModel) -> bool {
    &&& a.tx_commands <= b.tx_commands
    &&& a.rx_lines <= b.rx_lines
    &&& a.port_scan_generation <= b.port_scan_generation
    &&& a.readback_generation <= b.readback_generation
}

/// What every change of the controller's state keeps: no counter goes
/// down, and a log within `MAX_LOG_LINES` lines stays within it.
pub open spec fn keeps_invariants(a: SnapshotModel, b: SnapshotModel) -> bool {
    &&& counters_le(a, b)
    &&& (a.log_lines.len() <= MAX_LOG_LINES ==> b.log_lines.len() <= MAX_LOG_LINES)
}

/// Adds a line to the log, keeping the last `MAX_LOG_LINES` lines.
pub fn push_log(snapshot: &mut SerialSnapshot, line: String)
    ensures
        keeps_invariants(old(snapshot)@, final(snapshot)@),
        final(snapshot)@ == (SnapshotModel {
            log_lines: appended_log(old(snapshot)@.log_lines, line@),
            ..old(snapshot)@
        }),
{
    let ghost full: Seq<String> = old(snapshot).log_lines@.push(line);
    let mut old_log: Vec<String> = Vec::new();
    std::mem::swap(&mut old_log, &mut snapshot.log_lines);
    let ghost original = old_log@;
    let mut log: VecDeque<String> = VecDeque::new();
    while old_log.len() > 0
        invariant
            original == old_log@ + log@,
        decreases old_log@.len(),
    {
        let ghost before_vec = old_log@;
        let ghost before_deque = log@;
        let last = old_log.pop().unwrap();
        log.push_front(last);
        assert(original =~= old_log@ + log@) by {
            assert(before_vec =~= old_log@.push(last));
        }
    }
    assert(log@ =~= original);
    log.push_back(line);
    let ghost mut dropped: int = 0;
    assert(full.skip(0) =~= full);
    while log.len() > MAX_LOG_LINES
        invariant
            0 <= dropped <= full.len(),
            log@ == full.skip(dropped),
            dropped > 0 ==> full.len() - dropped >= MAX_LOG_LINES,
        decreases log@.len(),
    {
        let _ = log.pop_front();
        proof {
            assert(log@ =~= full.skip(dropped + 1));
            dropped = dropped + 1;
        }
    }
    let mut kept: Vec<String> = Vec::new();
    let ghost rest = log@;
    while log.len() > 0
        invariant
            rest == kept@ + log@,
        decreases log@.len(),
    {
        let ghost before = log@;
        let first = log.pop_front().unwrap();
        kept.push(first);
        assert(rest =~= kept@ + log@) by {
            assert(before =~= seq![first] + log@);
        }
    }
    assert(kept@ =~= rest);
    proof {
        if full.len() > MAX_LOG_LINES {
            assert(dropped == full.len() - MAX_LOG_LINES);
        }
        assert(string_views(full) =~= old(snapshot)@.log_lines.push(line@));
        assert(string_views(kept@) =~= string_views(full).skip(dropped));
        assert(string_views(kept@) =~= appended_log(old(snapshot)@.log_lines, line@));
    }
    snapshot.log_lines = kept;
}


/// A message made of a literal and a text.
fn text_with(prefix: &str, value: &[char]) -> (r: String)
    ensures
        r@ == prefix@ + value@,
{
    let mut m = chars_of(prefix);
    append_chars(&mut m, value);
    string_of(&m)
}

/// Marks the start of a device operation.
pub fn begin_operation(snapshot: &mut SerialSnapshot, active_status: &str, active_event: &str)
    ensures
        keeps_invariants(old(snapshot)@, final(snapshot)@),
        final(snapshot)@ == (SnapshotModel {
            busy: true,
            last_error: None,
            last_event: active_event@,
            connection_status: if old(snapshot)@.connected_port is Some {
                active_status@
            } else {
                old(snapshot)@.connection_status
            },
            ..old(snapshot)@
        }),
{
    snapshot.busy = true;
    snapshot.last_error = None;
    snapshot.last_event = active_event.to_owned();
    if snapshot.connected_port.is_some() {
        snapshot.connection_status = active_status.to_owned();
    }
}

/// The connection status after a failed operation: back to `connected`
/// unless the connection itself reported an error.
pub open spec fn status_after_failure(s: SnapshotModel) -> Seq<char> {
    if s.connected_port is Some && !ends_with(s.connection_status, "error"@) {
        "connected"@
    } else {
        s.connection_status
    }
}

/// The state after a device operation ends with `result`.
pub open spec fn finished(s: SnapshotModel, result: Result<Seq<char>, Seq<char>>) -> SnapshotModel {
    match result {
        Ok(text) => SnapshotModel {
            busy: false,
            last_error: None,
            last_event: text,
            connection_status: if s.connected_port is Some {
                "connected"@
            } else {
                s.connection_status
            },
            ..s
        },
        Err(error) => SnapshotModel {
            busy: false,
            connection_status: status_after_failure(s),
            last_error: Some(error),
            last_event: "last operation failed"@,
            log_lines: appended_log(s.log_lines, "[error] "@ + error),
            ..s
        },
    }
}

/// Marks the end of a device operation with its outcome.
pub fn finish_operation(snapshot: &mut SerialSnapshot, result: Result<&str, String>)
    ensures
        final(snapshot)@ == finished(
            old(snapshot)@,
            match result {
                Ok(t) => Ok(t@),
                Err(e) => Err(e@),
            },
        ),
        keeps_invariants(old(snapshot)@, final(snapshot)@),
        match result {
            Ok(text) => final(snapshot)@ == (SnapshotModel {
                busy: false,
                last_error: None,
                last_event: text@,
                connection_status: if old(snapshot)@.connected_port is Some {
                    "connected"@
                } else {
                    old(snapshot)@.connection_status
                },
                ..old(snapshot)@
            }),
            Err(error) => final(snapshot)@ == (SnapshotModel {
                busy: false,
                connection_status: status_after_failure(old(snapshot)@),
                last_error: Some(error@),
                last_event: "last operation failed"@,
                log_lines: appended_log(old(snapshot)@.log_lines, "[error] "@ + error@),
                ..old(snapshot)@
            }),
        },
{
    snapshot.busy = false;
    match result {
        Ok(text) => {
            snapshot.last_error = None;
            snapshot.last_event = text.to_owned();
            if snapshot.connected_port.is_some() {
                snapshot.connection_status = "connected".to_owned();
            }
        },
        Err(error) => {
            let status = chars_of(snapshot.connection_status.as_str());
            if snapshot.connected_port.is_some() && !ends_with_exec(&status, &chars_of("error")) {
                snapshot.connection_status = "connected".to_owned();
            }
            let line = text_with("[error] ", &chars_of(error.as_str()));
            snapshot.last_error = Some(error);
            snapshot.last_event = "last operation failed".to_owned();
            push_log(snapshot, line);
        },
    }
}

/// What a successful read of the settings records: the form read, a new
/// read generation, and the answer as shown.
pub fn record_readback(snapshot: &mut SerialSnapshot, response: &str) -> (r: Result<
    &'static str,
    String,
>)
    requires
        old(snapshot).readback_generation < u64::MAX,
    ensures
        keeps_invariants(old(snapshot)@, final(snapshot)@),
        match form_from_response(response@) {
            Ok(f) => r matches Ok(text) && text@ == "read settings from transmitter"@
                && final(snapshot)@ == (SnapshotModel {
                readback_generation: (old(snapshot).readback_generation + 1) as u64,
                readback_form: Some(f),
                last_response_text: Some(display_text(response@)),
                ..old(snapshot)@
            }),
            Err(e) => r matches Err(m) && m@ == e && final(snapshot)@ == old(snapshot)@,
        },
{
    let form = match DeviceForm::from_info_response(response) {
        Ok(f) => f,
        Err(e) => return Err(e),
    };
    snapshot.readback_generation = snapshot.readback_generation + 1;
    snapshot.readback_form = Some(form);
    snapshot.last_response_text = Some(normalize_response_for_display(response));
    Ok("read settings from transmitter")
}

/// Records the answer to a command as the text shown.
pub fn record_response_text(snapshot: &mut SerialSnapshot, response: &str)
    ensures
        keeps_invariants(old(snapshot)@, final(snapshot)@),
        final(snapshot)@ == (SnapshotModel {
            last_response_text: Some(display_text(response@)),
            ..old(snapshot)@
        }),
{
    snapshot.last_response_text = Some(normalize_response_for_display(response));
}

/// Records that `command` was written to the port.
pub fn record_command_sent(snapshot: &mut SerialSnapshot, command: &str)
    requires
        old(snapshot).tx_commands < u64::MAX,
    ensures
        keeps_invariants(old(snapshot)@, final(snapshot)@),
        final(snapshot)@ == (SnapshotModel {
            tx_commands: (old(snapshot).tx_commands + 1) as u64,
            last_error: None,
            last_event: "sent command "@ + nat_text((old(snapshot).tx_commands + 1) as nat),
            log_lines: appended_log(old(snapshot)@.log_lines, "> "@ + command@),
            ..old(snapshot)@
        }),
{
    snapshot.tx_commands = snapshot.tx_commands + 1;
    snapshot.last_error = None;
    snapshot.last_event = text_with("sent command ", &nat_text_exec(snapshot.tx_commands));
    push_log(snapshot, text_with("> ", &chars_of(command)));
}

/// Records a line that answers a command.
pub fn record_line_received(snapshot: &mut SerialSnapshot, line: &str)
    requires
        old(snapshot).rx_lines < u64::MAX,
    ensures
        keeps_invariants(old(snapshot)@, final(snapshot)@),
        final(snapshot)@ == (SnapshotModel {
            rx_lines: (old(snapshot).rx_lines + 1) as u64,
            last_error: None,
            last_event: "received line "@ + nat_text((old(snapshot).rx_lines + 1) as nat),
            log_lines: appended_log(old(snapshot)@.log_lines, "< "@ + line@),
            ..old(snapshot)@
        }),
{
    snapshot.rx_lines = snapshot.rx_lines + 1;
    snapshot.last_error = None;
    snapshot.last_event = text_with("received line ", &nat_text_exec(snapshot.rx_lines));
    push_log(snapshot, text_with("< ", &chars_of(line)));
}

/// The answer to `command` once the port has gone quiet: the lines joined
/// with line breaks, an error when there were none, or when the device
/// answered `ERR`.
pub open spec fn command_answer(command: Seq<char>, lines: Seq<Seq<char>>) -> Result<
    Seq<char>,
    Seq<char>,
> {
    let response = join(lines, seq!['\n']);
    if lines.len() == 0 {
        Err("no response received after sending `"@ + command + "`"@)
    } else if first_nonempty(response) == Some("ERR"@) {
        Err("device rejected `"@ + command + "` with `"@ + "ERR"@ + "`"@)
    } else {
        Ok(response)
    }
}

pub fn command_response(command: &str, lines: &Vec<String>) -> (r: Result<String, String>)
    ensures
        match r {
            Ok(v) => command_answer(command@, string_views(lines@)) == Ok::<Seq<char>, Seq<char>>(v@),
            Err(e) => command_answer(command@, string_views(lines@)) == Err::<Seq<char>, Seq<char>>(e@),
        },
{
    if lines.len() == 0 {
        let mut m = chars_of("no response received after sending `");
        append_str(&mut m, command);
        append_str(&mut m, "`");
        return Err(string_of(&m));
    }
    let mut pieces: Vec<Vec<char>> = Vec::new();
    let mut i: usize = 0;
    while i < lines.len()
        invariant
            i <= lines@.len(),
            views(pieces@) == string_views(lines@).take(i as int),
        decreases lines@.len() - i,
    {
        let ghost before = pieces@;
        pieces.push(chars_of(lines[i].as_str()));
        assert(views(pieces@) =~= views(before).push(lines@[i as int]@));
        i = i + 1;
        assert(views(pieces@) =~= string_views(lines@).take(i as int));
    }
    assert(string_views(lines@).take(i as int) =~= string_views(lines@));
    let mut newline: Vec<char> = Vec::new();
    newline.push('\n');
    assert(newline@ =~= seq!['\n']);
    let response = string_of(&join_exec(&pieces, &newline));
    if response_is_err(response.as_str()) {
        let detail: &str = match crate::protocol::first_nonempty_line(response.as_str()) {
            Some(d) => d,
            None => "ERR",
        };
        let mut m = chars_of("device rejected `");
        append_str(&mut m, command);
        append_str(&mut m, "` with `");
        append_str(&mut m, detail);
        append_str(&mut m, "`");
        return Err(string_of(&m));
    }
    Ok(response)
}

/// The bytes written to the port for `command`: its UTF-8 text, then a
/// carriage return and a line feed.
pub fn command_frame(command: &str) -> (r: Vec<u8>)
    ensures
        r@ == vstd::utf8::encode_utf8(command@) + seq![13u8, 10u8],
{
    let bytes = command.as_bytes();
    let mut r: Vec<u8> = Vec::new();
    let mut i: usize = 0;
    while i < bytes.len()
        invariant
            i <= bytes@.len(),
            r@ == bytes@.take(i as int),
        decreases bytes@.len() - i,
    {
        r.push(bytes[i]);
        i = i + 1;
        assert(r@ =~= bytes@.take(i as int));
    }
    assert(bytes@.take(i as int) =~= bytes@);
    r.push(13u8);
    r.push(10u8);
    assert(r@ =~= vstd::utf8::encode_utf8(command@) + seq![13u8, 10u8]);
    r
}

/// What can happen while a command waits for its answer.
pub enum WaitEvent {
    /// The port gave a line.
    Line(String),
    /// Reading the port failed with this message.
    ReaderFailed(String),
    /// The task that reads the port has ended.
    ReaderStopped,
    /// Nothing arrived for `QUIET_TIMEOUT_MS`.
    Quiet,
}

/// One step of waiting for the answer to `command`: a line is recorded and
/// kept, and the wait goes on (`None`); a failure of the reader is recorded
/// and ends the wait with its message; a quiet port ends the wait with the
/// answer made of the lines kept.
pub fn record_wait_event(
    snapshot: &mut SerialSnapshot,
    command: &str,
    lines: &mut Vec<String>,
    event: WaitEvent,
) -> (done: Option<Result<String, String>>)
    requires
        event matches WaitEvent::Line(_) ==> old(snapshot).rx_lines < u64::MAX,
    ensures
        keeps_invariants(old(snapshot)@, final(snapshot)@),
        match event {
            WaitEvent::Line(line) => {
                &&& done is None
                &&& string_views(final(lines)@) == string_views(old(lines)@).push(line@)
                &&& final(snapshot)@ == (SnapshotModel {
                    rx_lines: (old(snapshot).rx_lines + 1) as u64,
                    last_error: None,
                    last_event: "received line "@ + nat_text((old(snapshot).rx_lines + 1) as nat),
                    log_lines: appended_log(old(snapshot)@.log_lines, "< "@ + line@),
                    ..old(snapshot)@
                })
            },
            WaitEvent::ReaderFailed(error) => {
                &&& done matches Some(Err(e)) && e@ == error@
                &&& string_views(final(lines)@) == string_views(old(lines)@)
                &&& final(snapshot)@ == (SnapshotModel {
                    connection_status: "read error"@,
                    connected_port: None,
                    connected_usb_summary: None,
                    last_error: Some(error@),
                    last_event: "reader task failed"@,
                    log_lines: appended_log(old(snapshot)@.log_lines, "[error] "@ + error@),
                    ..old(snapshot)@
                })
            },
            WaitEvent::ReaderStopped => {
                &&& done matches Some(Err(e)) && e@ == "serial reader task stopped"@
                &&& string_views(final(lines)@) == string_views(old(lines)@)
                &&& final(snapshot)@ == old(snapshot)@
            },
            WaitEvent::Quiet => {
                &&& done matches Some(answer) && match answer {
                    Ok(v) => command_answer(command@, string_views(old(lines)@)) == Ok::<
                        Seq<char>,
                        Seq<char>,
                    >(v@),
                    Err(e) => command_answer(command@, string_views(old(lines)@)) == Err::<
                        Seq<char>,
                        Seq<char>,
                    >(e@),
                }
                &&& string_views(final(lines)@) == string_views(old(lines)@)
                &&& final(snapshot)@ == old(snapshot)@
            },
        },
{
    match event {
        WaitEvent::Line(line) => {
            record_line_received(snapshot, line.as_str());
            let ghost before = lines@;
            lines.push(line);
            assert(string_views(lines@) =~= string_views(before).push(lines@.last()@));
            None
        },
        WaitEvent::ReaderFailed(error) => {
            let message = error.clone();
            record_reader_error(snapshot, error);
            Some(Err(message))
        },
        WaitEvent::ReaderStopped => Some(Err("serial reader task stopped".to_owned())),
        WaitEvent::Quiet => Some(command_response(command, lines)),
    }
}

/// An event from the task that reads the port.
pub enum ReaderEvent {
    Line(String),
    Error(String),
}

/// Records that reading the port failed; the connection is dropped.
pub fn record_reader_error(snapshot: &mut SerialSnapshot, error: String)
    ensures
        keeps_invariants(old(snapshot)@, final(snapshot)@),
        final(snapshot)@ == (SnapshotModel {
            connection_status: "read error"@,
            connected_port: None,
            connected_usb_summary: None,
            last_error: Some(error@),
            last_event: "reader task failed"@,
            log_lines: appended_log(old(snapshot)@.log_lines, "[error] "@ + error@),
            ..old(snapshot)@
        }),
{
    let line = text_with("[error] ", &chars_of(error.as_str()));
    snapshot.connection_status = "read error".to_owned();
    snapshot.connected_port = None;
    snapshot.connected_usb_summary = None;
    snapshot.last_error = Some(error);
    snapshot.last_event = "reader task failed".to_owned();
    push_log(snapshot, line);
}

/// Records an event that arrived while no command was waiting.  Gives
/// whether the connection has to be dropped.
pub fn record_background_event(snapshot: &mut SerialSnapshot, event: ReaderEvent) -> (drop: bool)
    requires
        event matches ReaderEvent::Line(_) ==> old(snapshot).rx_lines < u64::MAX,
    ensures
        keeps_invariants(old(snapshot)@, final(snapshot)@),
        match event {
            ReaderEvent::Line(line) => !drop && final(snapshot)@ == (SnapshotModel {
                rx_lines: (old(snapshot).rx_lines + 1) as u64,
                last_error: None,
                last_event: "received unsolicited device output"@,
                log_lines: appended_log(old(snapshot)@.log_lines, "< "@ + line@),
                ..old(snapshot)@
            }),
            ReaderEvent::Error(error) => drop && final(snapshot)@ == (SnapshotModel {
                connection_status: "read error"@,
                connected_port: None,
                connected_usb_summary: None,
                last_error: Some(error@),
                last_event: "reader task failed"@,
                log_lines: appended_log(old(snapshot)@.log_lines, "[error] "@ + error@),
                ..old(snapshot)@
            }),
        },
{
    match event {
        ReaderEvent::Line(line) => {
            snapshot.rx_lines = snapshot.rx_lines + 1;
            snapshot.last_error = None;
            snapshot.last_event = "received unsolicited device output".to_owned();
            push_log(snapshot, text_with("< ", &chars_of(line.as_str())));
            false
        },
        ReaderEvent::Error(error) => {
            record_reader_error(snapshot, error);
            true
        },
    }
}

/// Records that writing to the port failed; the connection is dropped.
pub fn record_writer_error(snapshot: &mut SerialSnapshot, error: &str)
    ensures
        keeps_invariants(old(snapshot)@, final(snapshot)@),
        final(snapshot)@ == (SnapshotModel {
            connection_status: "write error"@,
            connected_port: None,
            connected_usb_summary: None,
            last_error: Some("serial write failed: "@ + error@),
            last_event: "disconnected after write failure"@,
            log_lines: appended_log(
                old(snapshot)@.log_lines,
                "[error] serial write failed: "@ + error@,
            ),
            ..old(snapshot)@
        }),
{
    snapshot.connection_status = "write error".to_owned();
    snapshot.connected_port = None;
    snapshot.connected_usb_summary = None;
    snapshot.last_error = Some(text_with("serial write failed: ", &chars_of(error)));
    snapshot.last_event = "disconnected after write failure".to_owned();
    push_log(snapshot, text_with("[error] serial write failed: ", &chars_of(error)));
}

/// The event recorded when the connection is closed.
pub open spec fn disconnect_event(explicit: bool) -> Seq<char> {
    if explicit {
        "serial port disconnected by user"@
    } else {
        "serial port disconnected"@
    }
}

/// Records that the connection was closed, by the user (`explicit`) or
/// before connecting again.  Nothing is recorded for a connection that was
/// not open unless the user asked.
pub fn record_disconnect(snapshot: &mut SerialSnapshot, explicit: bool)
    ensures
        keeps_invariants(old(snapshot)@, final(snapshot)@),
        if explicit || old(snapshot)@.connected_port is Some {
            final(snapshot)@ == (SnapshotModel {
                connection_status: "disconnected"@,
                connected_port: None,
                connected_usb_summary: None,
                last_event: disconnect_event(explicit),
                last_error: None,
                log_lines: appended_log(
                    old(snapshot)@.log_lines,
                    "[system] "@ + disconnect_event(explicit),
                ),
                ..old(snapshot)@
            })
        } else {
            final(snapshot)@ == old(snapshot)@
        },
{
    if explicit || snapshot.connected_port.is_some() {
        snapshot.connection_status = "disconnected".to_owned();
        snapshot.connected_port = None;
        snapshot.connected_usb_summary = None;
        snapshot.last_event = if explicit {
            "serial port disconnected by user".to_owned()
        } else {
            "serial port disconnected".to_owned()
        };
        snapshot.last_error = None;
        let line = text_with("[system] ", &chars_of(snapshot.last_event.as_str()));
        push_log(snapshot, line);
    }
}

/// Records the outcome of listing the serial ports.
pub fn record_port_scan(snapshot: &mut SerialSnapshot, result: Result<Vec<PortSummary>, String>)
    requires
        result is Ok ==> old(snapshot).port_scan_generation < u64::MAX,
    ensures
        keeps_invariants(old(snapshot)@, final(snapshot)@),
        match result {
            Ok(ports) => final(snapshot)@ == (SnapshotModel {
                ports: port_views(ports@),
                port_scan_generation: (old(snapshot).port_scan_generation + 1) as u64,
                last_error: None,
                last_event: "discovered "@ + nat_text(ports@.len()) + " serial port(s)"@,
                connection_status: if old(snapshot)@.connected_port is None {
                    "ports refreshed"@
                } else {
                    old(snapshot)@.connection_status
                },
                ..old(snapshot)@
            }),
            Err(error) => final(snapshot)@ == (SnapshotModel {
                last_error: Some("failed to enumerate serial ports: "@ + error@),
                last_event: "serial port enumeration failed"@,
                connection_status: "enumeration error"@,
                log_lines: appended_log(
                    old(snapshot)@.log_lines,
                    "[error] failed to enumerate serial ports: "@ + error@,
                ),
                ..old(snapshot)@
            }),
        },
{
    match result {
        Ok(ports) => {
            let n = ports.len();
            snapshot.ports = ports;
            snapshot.port_scan_generation = snapshot.port_scan_generation + 1;
            snapshot.last_error = None;
            let mut m = chars_of("discovered ");
            append_chars(&mut m, &nat_text_exec(n as u64));
            append_str(&mut m, " serial port(s)");
            snapshot.last_event = string_of(&m);
            if snapshot.connected_port.is_none() {
                snapshot.connection_status = "ports refreshed".to_owned();
            }
        },
        Err(error) => {
            let e = chars_of(error.as_str());
            snapshot.last_error = Some(text_with("failed to enumerate serial ports: ", &e));
            snapshot.last_event = "serial port enumeration failed".to_owned();
            snapshot.connection_status = "enumeration error".to_owned();
            push_log(snapshot, text_with("[error] failed to enumerate serial ports: ", &e));
        },
    }
}

/// The summary of the first listed port called `name`, if it is not empty.
pub open spec fn summary_of_port(ports: Seq<PortModel>, name: Seq<char>) -> Option<Seq<char>>
    decreases ports.len(),
{
    if ports.len() == 0 {
        None
    } else if ports[0].port_name == name {
        if ports[0].summary.len() > 0 {
            Some(ports[0].summary)
        } else {
            None
        }
    } else {
        summary_of_port(ports.drop_first(), name)
    }
}

fn find_port_summary(ports: &Vec<PortSummary>, name: &str) -> (r: Option<String>)
    ensures
        opt_text(r) == summary_of_port(port_views(ports@), name@),
{
    let target = chars_of(name);
    let mut i: usize = 0;
    assert(port_views(ports@).skip(0) =~= port_views(ports@));
    while i < ports.len()
        invariant
            i <= ports@.len(),
            target@ == name@,
            summary_of_port(port_views(ports@), name@) == summary_of_port(
                port_views(ports@).skip(i as int),
                name@,
            ),
        decreases ports@.len() - i,
    {
        let ghost rest = port_views(ports@).skip(i as int);
        assert(rest[0] == ports@[i as int]@);
        if same_chars(&chars_of(ports[i].port_name.as_str()), &target) {
            if !ports[i].summary.as_str().is_empty() {
                return Some(ports[i].summary.clone());
            } else {
                return None;
            }
        }
        assert(rest.drop_first() =~= port_views(ports@).skip(i + 1));
        i = i + 1;
    }
    None
}

/// The text logged and shown when a port opens.
pub open spec fn connected_text(port_name: Seq<char>, baud_rate: u32) -> Seq<char> {
    "connected to "@ + port_name + " at "@ + nat_text(baud_rate as nat) + " baud"@
}

/// Records that `port_name` was opened at `baud_rate`.
pub fn record_connected(snapshot: &mut SerialSnapshot, port_name: &str, baud_rate: u32)
    ensures
        keeps_invariants(old(snapshot)@, final(snapshot)@),
        final(snapshot)@ == (SnapshotModel {
            connection_status: "connected"@,
            connected_port: Some(port_name@),
            connected_usb_summary: summary_of_port(old(snapshot)@.ports, port_name@),
            last_error: None,
            last_event: connected_text(port_name@, baud_rate),
            log_lines: appended_log(
                old(snapshot)@.log_lines,
                "[system] "@ + connected_text(port_name@, baud_rate),
            ),
            ..old(snapshot)@
        }),
{
    let usb_summary = find_port_summary(&snapshot.ports, port_name);
    let mut m = chars_of("connected to ");
    append_str(&mut m, port_name);
    append_str(&mut m, " at ");
    append_chars(&mut m, &nat_text_exec(baud_rate as u64));
    append_str(&mut m, " baud");
    snapshot.connection_status = "connected".to_owned();
    snapshot.connected_port = Some(port_name.to_owned());
    snapshot.connected_usb_summary = usb_summary;
    snapshot.last_error = None;
    snapshot.last_event = string_of(&m);
    push_log(snapshot, text_with("[system] ", &m));
}

/// Records that `port_name` could not be opened.
pub fn record_connect_error(snapshot: &mut SerialSnapshot, port_name: &str, error: &str)
    ensures
        keeps_invariants(old(snapshot)@, final(snapshot)@),
        final(snapshot)@ == (SnapshotModel {
            connection_status: "connect error"@,
            connected_port: None,
            connected_usb_summary: None,
            last_error: Some("failed to open "@ + port_name@ + ": "@ + error@),
            last_event: "failed to connect to "@ + port_name@,
            log_lines: appended_log(
                old(snapshot)@.log_lines,
                "[error] failed to open "@ + port_name@ + ": "@ + error@,
            ),
            ..old(snapshot)@
        }),
{
    let mut m = chars_of("failed to open ");
    append_str(&mut m, port_name);
    append_str(&mut m, ": ");
    append_str(&mut m, error);
    snapshot.connection_status = "connect error".to_owned();
    snapshot.connected_port = None;
    snapshot.connected_usb_summary = None;
    snapshot.last_error = Some(string_of(&m));
    snapshot.last_event = text_with("failed to connect to ", &chars_of(port_name));
    let mut line = chars_of("[error] failed to open ");
    append_str(&mut line, port_name);
    append_str(&mut line, ": ");
    append_str(&mut line, error);
    push_log(snapshot, string_of(&line));
}

/// Logs a warning about the port that does not stop the connection.
pub fn record_port_warning(snapshot: &mut SerialSnapshot, action: &str, port_name: &str, error: &str)
    ensures
        keeps_invariants(old(snapshot)@, final(snapshot)@),
        final(snapshot)@ == (SnapshotModel {
            log_lines: appended_log(
                old(snapshot)@.log_lines,
                "[warning] failed to "@ + action@ + " on "@ + port_name@ + ": "@ + error@,
            ),
            ..old(snapshot)@
        }),
{
    let mut m = chars_of("[warning] failed to ");
    append_str(&mut m, action);
    append_str(&mut m, " on ");
    append_str(&mut m, port_name);
    append_str(&mut m, ": ");
    append_str(&mut m, error);
    push_log(snapshot, string_of(&m));
}


// ---------------------------------------------------------------------------
// Ports as the operating system lists them.

/// What the system tells of a USB serial adapter.
pub struct UsbInfo {
    pub vid: u16,
    pub pid: u16,
    pub serial_number: Option<String>,
    pub manufacturer: Option<String>,
    pub product: Option<String>,
}

/// The kind of a serial port.
pub enum PortKind {
    Usb(UsbInfo),
    Pci,
    Bluetooth,
    Unknown,
}

/// A serial port as the system lists it.
pub struct PortInfo {
    pub port_name: String,
    pub port_type: PortKind,
}

/// `Some(s)` as `s` followed by `tail`, `None` as nothing.
pub open spec fn opt_piece(o: Option<String>, tail: Seq<char>) -> Seq<char> {
    match o {
        Some(s) => s@ + tail,
        None => seq![],
    }
}

/// The product, manufacturer and serial number of an adapter, in lower case.
pub open spec fn usb_haystack(info: UsbInfo) -> Seq<char> {
    (opt_piece(info.product, seq![' ']) + opt_piece(info.manufacturer, seq![' ']) + opt_piece(
        info.serial_number,
        seq![],
    )).map_values(|c: char| ascii_lower(c))
}

pub open spec fn contains_text(s: Seq<char>, needle: Seq<char>) -> bool {
    find(s, needle) is Some
}

/// Whether the port looks like the transmitter's USB serial adapter.
pub open spec fn preferred_port(port: PortInfo) -> bool {
    if port.port_name@ == "/dev/ttyUSB0"@ || port.port_name@ == "/dev/ttyACM0"@ {
        true
    } else {
        match port.port_type {
            PortKind::Usb(info) => {
                let h = usb_haystack(info);
                ||| contains_text(h, "usb serial"@)
                ||| contains_text(h, "wch"@)
                ||| contains_text(h, "ch340"@)
                ||| contains_text(h, "cp210"@)
                ||| contains_text(h, "ftdi"@)
                ||| contains_text(h, "arduino"@)
                ||| contains_text(h, "serial"@)
            },
            _ => false,
        }
    }
}

fn append_opt(r: &mut Vec<char>, o: &Option<String>, space: bool)
    ensures
        final(r)@ == old(r)@ + opt_piece(
            *o,
            if space {
                seq![' ']
            } else {
                seq![]
            },
        ),
{
    match o {
        Some(v) => {
            append_str(r, v.as_str());
            if space {
                r.push(' ');
            }
            proof {
                if space {
                    assert(final(r)@ =~= old(r)@ + (v@ + seq![' ']));
                } else {
                    assert(old(r)@ + (v@ + Seq::<char>::empty()) =~= old(r)@ + v@);
                }
            }
        },
        None => {
            assert(old(r)@ + Seq::<char>::empty() =~= old(r)@);
        },
    }
}

fn lower_chars(v: &[char]) -> (r: Vec<char>)
    ensures
        r@ == v@.map_values(|c: char| ascii_lower(c)),
{
    let mut r: Vec<char> = Vec::new();
    let mut i: usize = 0;
    while i < v.len()
        invariant
            i <= v@.len(),
            r@ == v@.take(i as int).map_values(|c: char| ascii_lower(c)),
        decreases v@.len() - i,
    {
        r.push(ascii_lower_exec(v[i]));
        i = i + 1;
        assert(r@ =~= v@.take(i as int).map_values(|c: char| ascii_lower(c)));
    }
    assert(v@.take(i as int) =~= v@);
    r
}

fn contains_str(h: &[char], needle: &str) -> (r: bool)
    ensures
        r == contains_text(h@, needle@),
{
    find_exec(h, &chars_of(needle)).is_some()
}

pub fn is_preferred_device(port: &PortInfo) -> (r: bool)
    ensures
        r == preferred_port(*port),
{
    if same_text(port.port_name.as_str(), "/dev/ttyUSB0") || same_text(
        port.port_name.as_str(),
        "/dev/ttyACM0",
    ) {
        return true;
    }
    match &port.port_type {
        PortKind::Usb(info) => {
            let mut haystack: Vec<char> = Vec::new();
            append_opt(&mut haystack, &info.product, true);
            append_opt(&mut haystack, &info.manufacturer, true);
            append_opt(&mut haystack, &info.serial_number, false);
            assert(haystack@ =~= opt_piece(info.product, seq![' ']) + opt_piece(
                info.manufacturer,
                seq![' '],
            ) + opt_piece(info.serial_number, seq![]));
            let h = lower_chars(&haystack);
            contains_str(&h, "usb serial") || contains_str(&h, "wch") || contains_str(&h, "ch340")
                || contains_str(&h, "cp210") || contains_str(&h, "ftdi") || contains_str(
                &h,
                "arduino",
            ) || contains_str(&h, "serial")
        },
        _ => false,
    }
}

/// The parts of an adapter's summary, in order.
pub open spec fn usb_summary_parts(info: UsbInfo) -> Seq<Seq<char>> {
    (match info.product {
        Some(p) => seq![p@],
        None => seq![],
    }) + (match info.manufacturer {
        Some(m) => seq![m@],
        None => seq![],
    }) + seq!["VID:"@ + hex4_lower(info.vid) + " PID:"@ + hex4_lower(info.pid)] + (
    match info.serial_number {
        Some(n) => seq!["SN:"@ + n@],
        None => seq![],
    })
}

/// An adapter described as `product | manufacturer | VID:xxxx PID:xxxx | SN:...`.
pub open spec fn usb_summary(info: UsbInfo) -> Seq<char> {
    join(usb_summary_parts(info), " | "@)
}

pub fn format_usb_summary(info: &UsbInfo) -> (r: String)
    ensures
        r@ == usb_summary(*info),
{
    let mut parts: Vec<Vec<char>> = Vec::new();
    let ghost mut expect: Seq<Seq<char>> = seq![];
    assert(views(parts@) =~= expect);
    if let Some(p) = &info.product {
        parts.push(chars_of(p.as_str()));
        proof {
            expect = expect.push(p@);
        }
        assert(views(parts@) =~= expect);
    }
    if let Some(m) = &info.manufacturer {
        let ghost before = parts@;
        parts.push(chars_of(m.as_str()));
        proof {
            expect = expect.push(m@);
        }
        assert(views(parts@) =~= views(before).push(m@));
    }
    let mut ids = chars_of("VID:");
    append_chars(&mut ids, &hex4_lower_exec(info.vid));
    append_str(&mut ids, " PID:");
    append_chars(&mut ids, &hex4_lower_exec(info.pid));
    let ghost before_ids = parts@;
    parts.push(ids);
    proof {
        expect = expect.push("VID:"@ + hex4_lower(info.vid) + " PID:"@ + hex4_lower(info.pid));
    }
    assert(views(parts@) =~= views(before_ids).push(
        "VID:"@ + hex4_lower(info.vid) + " PID:"@ + hex4_lower(info.pid),
    ));
    if let Some(n) = &info.serial_number {
        let ghost before = parts@;
        parts.push(text_chars("SN:", n.as_str()));
        proof {
            expect = expect.push("SN:"@ + n@);
        }
        assert(views(parts@) =~= views(before).push("SN:"@ + n@));
    }
    assert(expect =~= usb_summary_parts(*info));
    let joined = join_exec(&parts, &chars_of(" | "));
    string_of(&joined)
}

fn text_chars(prefix: &str, value: &str) -> (r: Vec<char>)
    ensures
        r@ == prefix@ + value@,
{
    let mut m = chars_of(prefix);
    append_str(&mut m, value);
    m
}

/// The summary shown for a port of each kind.
pub open spec fn kind_summary(kind: PortKind) -> Seq<char> {
    match kind {
        PortKind::Usb(info) => usb_summary(info),
        PortKind::Pci => "pci"@,
        PortKind::Bluetooth => "bluetooth"@,
        PortKind::Unknown => "unknown"@,
    }
}

/// A listed port as the port list shows it.
pub fn port_summary(port: PortInfo) -> (r: PortSummary)
    ensures
        r@ == (PortModel {
            port_name: port.port_name@,
            summary: kind_summary(port.port_type),
            is_preferred_device: preferred_port(port),
        }),
{
    let is_preferred_device = is_preferred_device(&port);
    let summary = match &port.port_type {
        PortKind::Usb(info) => format_usb_summary(info),
        PortKind::Pci => "pci".to_owned(),
        PortKind::Bluetooth => "bluetooth".to_owned(),
        PortKind::Unknown => "unknown".to_owned(),
    };
    PortSummary { port_name: port.port_name, summary, is_preferred_device }
}

// ---------------------------------------------------------------------------
// Lines read from the port.

/// One received byte: a carriage return or line feed ends the pending line
/// if it holds anything; any other byte is added to it.
pub open spec fn line_step(state: (Seq<u8>, Seq<Seq<u8>>), byte: u8) -> (Seq<u8>, Seq<Seq<u8>>) {
    if byte == 13 || byte == 10 {
        if state.0.len() > 0 {
            (seq![], state.1.push(state.0))
        } else {
            state
        }
    } else {
        (state.0.push(byte), state.1)
    }
}

/// The pending line and the finished lines after `chunk` arrives.
pub open spec fn split_received(pending: Seq<u8>, chunk: Seq<u8>) -> (Seq<u8>, Seq<Seq<u8>>)
    decreases chunk.len(),
{
    if chunk.len() == 0 {
        (pending, seq![])
    } else {
        line_step(split_received(pending, chunk.drop_last()), chunk.last())
    }
}

pub open spec fn byte_views(v: Seq<Vec<u8>>) -> Seq<Seq<u8>> {
    v.map_values(|b: Vec<u8>| b@)
}

/// Feeds the bytes read from the port to the pending line, giving the lines
/// that they finish.
pub fn take_lines(pending: &mut Vec<u8>, chunk: &[u8]) -> (lines: Vec<Vec<u8>>)
    ensures
        (final(pending)@, byte_views(lines@)) == split_received(old(pending)@, chunk@),
{
    let mut lines: Vec<Vec<u8>> = Vec::new();
    let mut i: usize = 0;
    assert(chunk@.take(0) =~= Seq::<u8>::empty());
    assert(byte_views(lines@) =~= Seq::<Seq<u8>>::empty());
    while i < chunk.len()
        invariant
            i <= chunk@.len(),
            (pending@, byte_views(lines@)) == split_received(old(pending)@, chunk@.take(i as int)),
        decreases chunk@.len() - i,
    {
        let byte = chunk[i];
        assert(chunk@.take(i + 1).drop_last() =~= chunk@.take(i as int));
        if byte == 13 || byte == 10 {
            if pending.len() > 0 {
                let mut line: Vec<u8> = Vec::new();
                std::mem::swap(&mut line, pending);
                let ghost before = lines@;
                lines.push(line);
                assert(byte_views(lines@) =~= byte_views(before).push(lines@.last()@));
                assert(pending@ =~= Seq::<u8>::empty());
            }
        } else {
            pending.push(byte);
        }
        i = i + 1;
    }
    assert(chunk@.take(i as int) =~= chunk@);
    lines
}

/// The text that `String::from_utf8_lossy` makes of some bytes: their
/// UTF-8 decoding, each invalid sequence replaced by U+FFFD.
pub uninterp spec fn lossy_decode(bytes: Seq<u8>) -> Seq<char>;

/// Calls `String::from_utf8_lossy` and takes the text it gives.  Its result
/// depends on the bytes alone; for valid UTF-8 it is their decoding.  How
/// invalid sequences are replaced is not stated here.
#[verifier::external_body]
fn lossy_text(bytes: &[u8]) -> (r: String)
    ensures
        r@ == lossy_decode(bytes@),
        vstd::utf8::valid_utf8(bytes@) ==> r@ == vstd::utf8::decode_utf8(bytes@),
{
    String::from_utf8_lossy(bytes).into_owned()
}

/// Feeds the bytes read from the port to the pending line, giving the text
/// of each line that they finish.
pub fn receive_bytes(pending: &mut Vec<u8>, chunk: &[u8]) -> (lines: Vec<String>)
    ensures
        final(pending)@ == split_received(old(pending)@, chunk@).0,
        lines@.len() == split_received(old(pending)@, chunk@).1.len(),
        forall|i: int|
            0 <= i < lines@.len() ==> (#[trigger] lines@[i])@ == lossy_decode(
                split_received(old(pending)@, chunk@).1[i],
            ),
{
    let raw = take_lines(pending, chunk);
    let mut lines: Vec<String> = Vec::new();
    let mut i: usize = 0;
    while i < raw.len()
        invariant
            i <= raw@.len(),
            lines@.len() == i,
            forall|j: int| 0 <= j < i ==> (#[trigger] lines@[j])@ == lossy_decode(raw@[j]@),
        decreases raw@.len() - i,
    {
        lines.push(lossy_text(raw[i].as_slice()));
        i = i + 1;
    }
    proof {
        assert forall|j: int| 0 <= j < lines@.len() implies (#[trigger] lines@[j])@ == lossy_decode(
            split_received(old(pending)@, chunk@).1[j],
        ) by {
            assert(byte_views(raw@)[j] == raw@[j]@);
        }
    }
    lines
}

} // verus!
