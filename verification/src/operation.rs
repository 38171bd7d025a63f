//! The device operations (read the settings, save them, restore the factory
//! defaults) as a list of commands, stepped one command at a time.  The
//! caller writes each command and waits for its answer; these functions
//! decide what each outcome records and whether the operation goes on.
use vstd::prelude::*;

use crate::protocol::{display_text, form_from_response, save_commands, DeviceForm, FormModel};
use crate::serial::{
    appended_log, keeps_invariants, record_readback, record_response_text, record_writer_error, begin_operation,
    string_views, SerialSnapshot, SnapshotModel,
};

verus! {

/// An operation that the window asks for.
pub enum OperationRequest {
    ReadSettings,
    SaveSettings(DeviceForm),
    FactoryDefaults,
}

pub enum RequestModel {
    ReadSettings,
    SaveSettings(FormModel),
    FactoryDefaults,
}

impl View for OperationRequest {
    type V = RequestModel;

    open spec fn view(&self) -> RequestModel {
        match self {
            OperationRequest::ReadSettings => RequestModel::ReadSettings,
            OperationRequest::SaveSettings(f) => RequestModel::SaveSettings(f@),
            OperationRequest::FactoryDefaults => RequestModel::FactoryDefaults,
        }
    }
}

/// The commands of an operation, in order; each ends with `?`, whose
/// answer is read into the form.
pub open spec fn operation_plan(r: RequestModel) -> Result<Seq<Seq<char>>, Seq<char>> {
    match r {
        RequestModel::ReadSettings => Ok(seq!["?"@]),
        RequestModel::SaveSettings(f) => match save_commands(f) {
            Ok(c) => Ok(c.push("?"@)),
            Err(e) => Err(e),
        },
        RequestModel::FactoryDefaults => Ok(seq!["config-defaults"@, "?"@]),
    }
}

/// The connection status while the operation runs.
pub open spec fn operation_status(r: RequestModel) -> Seq<char> {
    match r {
        RequestModel::ReadSettings => "reading"@,
        RequestModel::SaveSettings(_) => "saving"@,
        RequestModel::FactoryDefaults => "resetting"@,
    }
}

/// The event shown while the operation runs.
pub open spec fn operation_event(r: RequestModel) -> Seq<char> {
    match r {
        RequestModel::ReadSettings => "reading transmitter settings"@,
        RequestModel::SaveSettings(_) => "sending configuration to transmitter"@,
        RequestModel::FactoryDefaults => "restoring factory defaults"@,
    }
}

/// The event shown when the operation succeeds.
pub open spec fn operation_success(r: RequestModel) -> Seq<char> {
    match r {
        RequestModel::ReadSettings => "read settings from transmitter"@,
        RequestModel::SaveSettings(_) => "saved settings to transmitter"@,
        RequestModel::FactoryDefaults => "restored factory defaults on transmitter"@,
    }
}

/// A running operation: its commands and the index of the one that is due.
pub struct DeviceOperation {
    pub commands: Vec<String>,
    pub next: usize,
    pub success: &'static str,
}

pub struct OperationModel {
    pub commands: Seq<Seq<char>>,
    pub next: nat,
    pub success: Seq<char>,
}

impl View for DeviceOperation {
    type V = OperationModel;

    open spec fn view(&self) -> OperationModel {
        OperationModel {
            commands: string_views(self.commands@),
            next: self.next as nat,
            success: self.success@,
        }
    }
}

/// An operation with a command still due, whose last command is `?`.
pub open spec fn operation_running(m: OperationModel) -> bool {
    &&& m.next < m.commands.len()
    &&& m.commands.last() == "?"@
}

/// What happened to the command that was due.
pub enum CommandEvent {
    /// No port is open.
    NoPort,
    /// Writing the command failed with this message.
    WriteFailed(String),
    /// The command was written; this is its answer or the reason there is
    /// none, as `record_wait_event` gives it.
    Answered(Result<String, String>),
}

pub enum EventModel {
    NoPort,
    WriteFailed(Seq<char>),
    Answered(Result<Seq<char>, Seq<char>>),
}

impl View for CommandEvent {
    type V = EventModel;

    open spec fn view(&self) -> EventModel {
        match self {
            CommandEvent::NoPort => EventModel::NoPort,
            CommandEvent::WriteFailed(e) => EventModel::WriteFailed(e@),
            CommandEvent::Answered(Ok(v)) => EventModel::Answered(Ok(v@)),
            CommandEvent::Answered(Err(e)) => EventModel::Answered(Err(e@)),
        }
    }
}

/// How an operation ends after `ev`, or `None` when it goes on with the
/// next command.
pub open spec fn step_result(m: OperationModel, ev: EventModel) -> Option<Result<Seq<char>, Seq<char>>> {
    match ev {
        EventModel::NoPort => Some(Err("no serial port connected"@)),
        EventModel::WriteFailed(_) => Some(Err("serial write failed"@)),
        EventModel::Answered(Err(e)) => Some(Err(e)),
        EventModel::Answered(Ok(response)) => if m.next + 1 == m.commands.len() {
            match form_from_response(response) {
                Ok(_) => Some(Ok(m.success)),
                Err(e) => Some(Err(e)),
            }
        } else {
            None
        },
    }
}

/// The state of the controller after `ev`.
pub open spec fn step_snapshot(s: SnapshotModel, m: OperationModel, ev: EventModel) -> SnapshotModel {
    match ev {
        EventModel::NoPort => s,
        EventModel::WriteFailed(error) => SnapshotModel {
            connection_status: "write error"@,
            connected_port: None,
            connected_usb_summary: None,
            last_error: Some("serial write failed: "@ + error),
            last_event: "disconnected after write failure"@,
            log_lines: appended_log(s.log_lines, "[error] serial write failed: "@ + error),
            ..s
        },
        EventModel::Answered(Err(_)) => s,
        EventModel::Answered(Ok(response)) => if m.next + 1 == m.commands.len() {
            match form_from_response(response) {
                Ok(f) => SnapshotModel {
                    readback_generation: (s.readback_generation + 1) as u64,
                    readback_form: Some(f),
                    last_response_text: Some(display_text(response)),
                    ..s
                },
                Err(_) => s,
            }
        } else {
            SnapshotModel { last_response_text: Some(display_text(response)), ..s }
        },
    }
}

/// Starts an operation: marks the controller busy, then lists the commands.
/// Saving a form that fails its checks gives the message and no operation.
pub fn start_operation(snapshot: &mut SerialSnapshot, request: OperationRequest) -> (r: Result<
    DeviceOperation,
    String,
>)
    ensures
        keeps_invariants(old(snapshot)@, final(snapshot)@),
        final(snapshot)@ == (SnapshotModel {
            busy: true,
            last_error: None,
            last_event: operation_event(request@),
            connection_status: if old(snapshot)@.connected_port is Some {
                operation_status(request@)
            } else {
                old(snapshot)@.connection_status
            },
            ..old(snapshot)@
        }),
        match r {
            Ok(op) => {
                &&& operation_plan(request@) == Ok::<Seq<Seq<char>>, Seq<char>>(op@.commands)
                &&& op@.next == 0
                &&& op@.success == operation_success(request@)
                &&& operation_running(op@)
            },
            Err(e) => operation_plan(request@) == Err::<Seq<Seq<char>>, Seq<char>>(e@),
        },
{
    let ghost req = request@;
    match request {
        OperationRequest::ReadSettings => {
            begin_operation(snapshot, "reading", "reading transmitter settings");
            let mut commands: Vec<String> = Vec::new();
            commands.push("?".to_owned());
            assert(string_views(commands@) =~= seq!["?"@]);
            Ok(DeviceOperation { commands, next: 0, success: "read settings from transmitter" })
        },
        OperationRequest::SaveSettings(form) => {
            begin_operation(snapshot, "saving", "sending configuration to transmitter");
            match form.build_save_commands() {
                Ok(commands) => {
                    let mut commands = commands;
                    let ghost before = commands@;
                    commands.push("?".to_owned());
                    assert(string_views(commands@) =~= string_views(before).push("?"@));
                    Ok(DeviceOperation { commands, next: 0, success: "saved settings to transmitter" })
                },
                Err(e) => Err(e),
            }
        },
        OperationRequest::FactoryDefaults => {
            begin_operation(snapshot, "resetting", "restoring factory defaults");
            let mut commands: Vec<String> = Vec::new();
            commands.push("config-defaults".to_owned());
            commands.push("?".to_owned());
            assert(string_views(commands@) =~= seq!["config-defaults"@, "?"@]);
            Ok(
                DeviceOperation {
                    commands,
                    next: 0,
                    success: "restored factory defaults on transmitter",
                },
            )
        },
    }
}

/// The command that is due.
pub fn next_command(op: &DeviceOperation) -> (r: &str)
    requires
        operation_running(op@),
    ensures
        r@ == op@.commands[op@.next as int],
{
    assert(string_views(op.commands@)[op.next as int] == op.commands@[op.next as int]@);
    op.commands[op.next].as_str()
}

/// Records what happened to the command that was due and says whether the
/// operation has ended: the answer to `?` is read into the form, the answer
/// to any other command is kept as the text shown and the next command is
/// due; any failure ends the operation with its message.
#[verifier::rlimit(60)]
#[verifier::spinoff_prover]
pub fn record_command_event(
    snapshot: &mut SerialSnapshot,
    op: &mut DeviceOperation,
    event: CommandEvent,
) -> (done: Option<Result<&'static str, String>>)
    requires
        operation_running(old(op)@),
        old(snapshot).readback_generation < u64::MAX,
    ensures
        keeps_invariants(old(snapshot)@, final(snapshot)@),
        final(snapshot)@ == step_snapshot(old(snapshot)@, old(op)@, event@),
        final(op)@.commands == old(op)@.commands,
        final(op)@.success == old(op)@.success,
        match done {
            None => step_result(old(op)@, event@) is None && final(op)@.next == old(op)@.next + 1
                && operation_running(final(op)@),
            Some(Ok(text)) => step_result(old(op)@, event@) == Some(
                Ok::<Seq<char>, Seq<char>>(text@),
            ),
            Some(Err(e)) => step_result(old(op)@, event@) == Some(
                Err::<Seq<char>, Seq<char>>(e@),
            ),
        },
{
    match event {
        CommandEvent::NoPort => Some(Err("no serial port connected".to_owned())),
        CommandEvent::WriteFailed(error) => {
            record_writer_error(snapshot, error.as_str());
            Some(Err("serial write failed".to_owned()))
        },
        CommandEvent::Answered(Err(e)) => Some(Err(e)),
        CommandEvent::Answered(Ok(response)) => {
            let n = op.commands.len();
            assert(string_views(op.commands@).len() == op.commands@.len());
            assert(op.next < n);
            if op.next + 1 == n {
                match record_readback(snapshot, response.as_str()) {
                    Ok(_) => Some(Ok(op.success)),
                    Err(e) => Some(Err(e)),
                }
            } else {
                record_response_text(snapshot, response.as_str());
                op.next = op.next + 1;
                None
            }
        },
    }
}

} // verus!
