//! The serial controller's state: what it publishes and the device
//! operation that is running, if any.  Every change goes through a method
//! here, and every value keeps two facts: the log holds at most
//! `MAX_LOG_LINES` lines, and the controller is busy exactly while an
//! operation runs.  Each method also keeps the counters from going down.
use vstd::prelude::*;

use crate::numbers::nat_text;
use crate::operation::{
    operation_event, operation_plan, operation_running, operation_status, operation_success,
    record_command_event, start_operation, step_result, step_snapshot, CommandEvent,
    DeviceOperation, OperationModel, OperationRequest, RequestModel,
};
use crate::serial::{
    appended_log, command_answer, connected_text, disconnect_event, finish_operation, finished,
    keeps_invariants, port_views, record_background_event, record_command_sent,
    record_connect_error, record_connected, record_disconnect, record_port_scan,
    record_port_warning, record_wait_event, string_views, summary_of_port, initial_snapshot,
    PortSummary, ReaderEvent, SerialSnapshot, SnapshotModel, WaitEvent, MAX_LOG_LINES,
};

verus! {

/// The controller's state after an operation has started.
pub open spec fn begun(s: SnapshotModel, r: RequestModel) -> SnapshotModel {
    SnapshotModel {
        busy: true,
        last_error: None,
        last_event: operation_event(r),
        connection_status: if s.connected_port is Some {
            operation_status(r)
        } else {
            s.connection_status
        },
        ..s
    }
}

pub struct Controller {
    snapshot: SerialSnapshot,
    operation: Option<DeviceOperation>,
}

pub struct ControllerModel {
    pub snapshot: SnapshotModel,
    pub operation: Option<OperationModel>,
}

impl View for Controller {
    type V = ControllerModel;

    closed spec fn view(&self) -> ControllerModel {
        ControllerModel {
            snapshot: self.snapshot@,
            operation: match self.operation {
                Some(op) => Some(op@),
                None => None,
            },
        }
    }
}

impl Controller {
    #[verifier::type_invariant]
    spec fn well_formed(self) -> bool {
        &&& self.snapshot@.log_lines.len() <= MAX_LOG_LINES
        &&& match self.operation {
            None => !self.snapshot.busy,
            Some(op) => self.snapshot.busy && operation_running(op@),
        }
    }

    /// The controller before anything has happened.
    pub fn new() -> (c: Self)
        ensures
            c@.snapshot == initial_snapshot(),
            c@.operation is None,
    {
        let snapshot = SerialSnapshot::default();
        assert(snapshot@.log_lines.len() == 1);
        Controller { snapshot, operation: None }
    }

    /// The state to publish.  It never holds more than `MAX_LOG_LINES` log
    /// lines, and it is busy exactly while an operation runs, so the state
    /// published once a request has been handled is not busy.
    pub fn snapshot(&self) -> (s: &SerialSnapshot)
        ensures
            s@ == self@.snapshot,
            s@.log_lines.len() <= MAX_LOG_LINES,
            s.busy == self@.operation is Some,
    {
        proof {
            use_type_invariant(self);
        }
        &self.snapshot
    }

    /// Whether an operation runs.
    pub fn is_running(&self) -> (r: bool)
        ensures
            r == self@.operation is Some,
    {
        self.operation.is_some()
    }

    /// The command that the running operation waits to send.
    pub fn due_command(&self) -> (r: Option<&str>)
        ensures
            match self@.operation {
                Some(m) => r matches Some(c) && c@ == m.commands[m.next as int],
                None => r is None,
            },
    {
        proof {
            use_type_invariant(self);
        }
        match &self.operation {
            Some(op) => Some(crate::operation::next_command(op)),
            None => None,
        }
    }

    /// Starts an operation.  A save whose form fails its checks ends at
    /// once with the message of the check.
    pub fn start(&mut self, request: OperationRequest)
        requires
            old(self)@.operation is None,
        ensures
            keeps_invariants(old(self)@.snapshot, final(self)@.snapshot),
            match operation_plan(request@) {
                Ok(c) => {
                    &&& final(self)@.snapshot == begun(old(self)@.snapshot, request@)
                    &&& final(self)@.operation == Some(
                        OperationModel { commands: c, next: 0, success: operation_success(request@) },
                    )
                },
                Err(e) => {
                    &&& final(self)@.snapshot == finished(
                        begun(old(self)@.snapshot, request@),
                        Err(e),
                    )
                    &&& final(self)@.operation is None
                },
            },
    {
        proof {
            use_type_invariant(&*self);
        }
        let mut c = Controller::new();
        std::mem::swap(&mut c, self);
        proof {
            use_type_invariant(&c);
        }
        let Controller { mut snapshot, operation: _ } = c;
        let ghost s0 = snapshot@;
        match start_operation(&mut snapshot, request) {
            Ok(op) => {
                *self = Controller { snapshot, operation: Some(op) };
            },
            Err(e) => {
                let ghost s1 = snapshot@;
                finish_operation(&mut snapshot, Err(e));
                assert(keeps_invariants(s0, s1));
                *self = Controller { snapshot, operation: None };
            },
        }
    }

    /// Records what happened to the command that was due; gives whether
    /// the operation has ended (and then records its outcome).
    pub fn command_outcome(&mut self, event: CommandEvent) -> (done: bool)
        requires
            old(self)@.operation is Some,
            old(self)@.snapshot.readback_generation < u64::MAX,
        ensures
            keeps_invariants(old(self)@.snapshot, final(self)@.snapshot),
            ({
                let m = old(self)@.operation->Some_0;
                let s1 = step_snapshot(old(self)@.snapshot, m, event@);
                match step_result(m, event@) {
                    None => {
                        &&& !done
                        &&& final(self)@.snapshot == s1
                        &&& final(self)@.operation == Some(OperationModel { next: m.next + 1, ..m })
                    },
                    Some(r) => {
                        &&& done
                        &&& final(self)@.snapshot == finished(s1, r)
                        &&& final(self)@.operation is None
                    },
                }
            }),
    {
        proof {
            use_type_invariant(&*self);
        }
        let mut c = Controller::new();
        std::mem::swap(&mut c, self);
        proof {
            use_type_invariant(&c);
        }
        let Controller { mut snapshot, operation } = c;
        let mut op = match operation {
            Some(op) => op,
            None => {
                assert(false);
                return false;
            },
        };
        let ghost s0 = snapshot@;
        match record_command_event(&mut snapshot, &mut op, event) {
            None => {
                *self = Controller { snapshot, operation: Some(op) };
                false
            },
            Some(result) => {
                let ghost s1 = snapshot@;
                finish_operation(&mut snapshot, result);
                assert(keeps_invariants(s0, s1));
                *self = Controller { snapshot, operation: None };
                true
            },
        }
    }

    /// Records the outcome of listing the serial ports.
    pub fn list_ports(&mut self, result: Result<Vec<PortSummary>, String>)
        requires
            result is Ok ==> old(self)@.snapshot.port_scan_generation < u64::MAX,
        ensures
            keeps_invariants(old(self)@.snapshot, final(self)@.snapshot),
            match result {
                Ok(ports) => final(self)@.snapshot == (SnapshotModel {
                    ports: port_views(ports@),
                    port_scan_generation: (old(self)@.snapshot.port_scan_generation + 1) as u64,
                    last_error: None,
                    last_event: "discovered "@ + nat_text(ports@.len()) + " serial port(s)"@,
                    connection_status: if old(self)@.snapshot.connected_port is None {
                        "ports refreshed"@
                    } else {
                        old(self)@.snapshot.connection_status
                    },
                    ..old(self)@.snapshot
                }),
                Err(error) => final(self)@.snapshot == (SnapshotModel {
                    last_error: Some("failed to enumerate serial ports: "@ + error@),
                    last_event: "serial port enumeration failed"@,
                    connection_status: "enumeration error"@,
                    log_lines: appended_log(
                        old(self)@.snapshot.log_lines,
                        "[error] failed to enumerate serial ports: "@ + error@,
                    ),
                    ..old(self)@.snapshot
                }),
            },
            final(self)@.operation == old(self)@.operation,
    {
        proof {
            use_type_invariant(&*self);
        }
        let mut c = Controller::new();
        std::mem::swap(&mut c, self);
        proof {
            use_type_invariant(&c);
        }
        let Controller { mut snapshot, operation } = c;
        let r = record_port_scan(&mut snapshot, result);
        *self = Controller { snapshot, operation };
        r
    }

    /// Records that the connection was closed (see `record_disconnect`).
    pub fn disconnect(&mut self, explicit: bool)
        ensures
            keeps_invariants(old(self)@.snapshot, final(self)@.snapshot),
            if explicit || old(self)@.snapshot.connected_port is Some {
                final(self)@.snapshot == (SnapshotModel {
                    connection_status: "disconnected"@,
                    connected_port: None,
                    connected_usb_summary: None,
                    last_event: disconnect_event(explicit),
                    last_error: None,
                    log_lines: appended_log(
                        old(self)@.snapshot.log_lines,
                        "[system] "@ + disconnect_event(explicit),
                    ),
                    ..old(self)@.snapshot
                })
            } else {
                final(self)@.snapshot == old(self)@.snapshot
            },
            final(self)@.operation == old(self)@.operation,
    {
        proof {
            use_type_invariant(&*self);
        }
        let mut c = Controller::new();
        std::mem::swap(&mut c, self);
        proof {
            use_type_invariant(&c);
        }
        let Controller { mut snapshot, operation } = c;
        let r = record_disconnect(&mut snapshot, explicit);
        *self = Controller { snapshot, operation };
        r
    }

    /// Records that a port was opened.
    pub fn connected(&mut self, port_name: &str, baud_rate: u32)
        ensures
            keeps_invariants(old(self)@.snapshot, final(self)@.snapshot),
            final(self)@.snapshot == (SnapshotModel {
                connection_status: "connected"@,
                connected_port: Some(port_name@),
                connected_usb_summary: summary_of_port(old(self)@.snapshot.ports, port_name@),
                last_error: None,
                last_event: connected_text(port_name@, baud_rate),
                log_lines: appended_log(
                    old(self)@.snapshot.log_lines,
                    "[system] "@ + connected_text(port_name@, baud_rate),
                ),
                ..old(self)@.snapshot
            }),
            final(self)@.operation == old(self)@.operation,
    {
        proof {
            use_type_invariant(&*self);
        }
        let mut c = Controller::new();
        std::mem::swap(&mut c, self);
        proof {
            use_type_invariant(&c);
        }
        let Controller { mut snapshot, operation } = c;
        let r = record_connected(&mut snapshot, port_name, baud_rate);
        *self = Controller { snapshot, operation };
        r
    }

    /// Records that a port could not be opened.
    pub fn connect_failed(&mut self, port_name: &str, error: &str)
        ensures
            keeps_invariants(old(self)@.snapshot, final(self)@.snapshot),
            final(self)@.snapshot == (SnapshotModel {
                connection_status: "connect error"@,
                connected_port: None,
                connected_usb_summary: None,
                last_error: Some("failed to open "@ + port_name@ + ": "@ + error@),
                last_event: "failed to connect to "@ + port_name@,
                log_lines: appended_log(
                    old(self)@.snapshot.log_lines,
                    "[error] failed to open "@ + port_name@ + ": "@ + error@,
                ),
                ..old(self)@.snapshot
            }),
            final(self)@.operation == old(self)@.operation,
    {
        proof {
            use_type_invariant(&*self);
        }
        let mut c = Controller::new();
        std::mem::swap(&mut c, self);
        proof {
            use_type_invariant(&c);
        }
        let Controller { mut snapshot, operation } = c;
        let r = record_connect_error(&mut snapshot, port_name, error);
        *self = Controller { snapshot, operation };
        r
    }

    /// Logs a warning about the port.
    pub fn port_warning(&mut self, action: &str, port_name: &str, error: &str)
        ensures
            keeps_invariants(old(self)@.snapshot, final(self)@.snapshot),
            final(self)@.snapshot == (SnapshotModel {
                log_lines: appended_log(
                    old(self)@.snapshot.log_lines,
                    "[warning] failed to "@ + action@ + " on "@ + port_name@ + ": "@ + error@,
                ),
                ..old(self)@.snapshot
            }),
            final(self)@.operation == old(self)@.operation,
    {
        proof {
            use_type_invariant(&*self);
        }
        let mut c = Controller::new();
        std::mem::swap(&mut c, self);
        proof {
            use_type_invariant(&c);
        }
        let Controller { mut snapshot, operation } = c;
        let r = record_port_warning(&mut snapshot, action, port_name, error);
        *self = Controller { snapshot, operation };
        r
    }

    /// Records an event from the port that arrived while no command waited;
    /// gives whether the connection has to be dropped.
    pub fn background_event(&mut self, event: ReaderEvent) -> (drop: bool)
        requires
            event matches ReaderEvent::Line(_) ==> old(self)@.snapshot.rx_lines < u64::MAX,
        ensures
            keeps_invariants(old(self)@.snapshot, final(self)@.snapshot),
            match event {
                ReaderEvent::Line(line) => !drop && final(self)@.snapshot == (SnapshotModel {
                    rx_lines: (old(self)@.snapshot.rx_lines + 1) as u64,
                    last_error: None,
                    last_event: "received unsolicited device output"@,
                    log_lines: appended_log(old(self)@.snapshot.log_lines, "< "@ + line@),
                    ..old(self)@.snapshot
                }),
                ReaderEvent::Error(error) => drop && final(self)@.snapshot == (SnapshotModel {
                    connection_status: "read error"@,
                    connected_port: None,
                    connected_usb_summary: None,
                    last_error: Some(error@),
                    last_event: "reader task failed"@,
                    log_lines: appended_log(old(self)@.snapshot.log_lines, "[error] "@ + error@),
                    ..old(self)@.snapshot
                }),
            },
            final(self)@.operation == old(self)@.operation,
    {
        proof {
            use_type_invariant(&*self);
        }
        let mut c = Controller::new();
        std::mem::swap(&mut c, self);
        proof {
            use_type_invariant(&c);
        }
        let Controller { mut snapshot, operation } = c;
        let r = record_background_event(&mut snapshot, event);
        *self = Controller { snapshot, operation };
        r
    }

    /// Records that a command was written to the port.
    pub fn command_sent(&mut self, command: &str)
        requires
            old(self)@.snapshot.tx_commands < u64::MAX,
        ensures
            keeps_invariants(old(self)@.snapshot, final(self)@.snapshot),
            final(self)@.snapshot == (SnapshotModel {
                tx_commands: (old(self)@.snapshot.tx_commands + 1) as u64,
                last_error: None,
                last_event: "sent command "@ + nat_text((old(self)@.snapshot.tx_commands + 1) as nat),
                log_lines: appended_log(old(self)@.snapshot.log_lines, "> "@ + command@),
                ..old(self)@.snapshot
            }),
            final(self)@.operation == old(self)@.operation,
    {
        proof {
            use_type_invariant(&*self);
        }
        let mut c = Controller::new();
        std::mem::swap(&mut c, self);
        proof {
            use_type_invariant(&c);
        }
        let Controller { mut snapshot, operation } = c;
        let r = record_command_sent(&mut snapshot, command);
        *self = Controller { snapshot, operation };
        r
    }

    /// One step of waiting for the answer to `command` (see `record_wait_event`).
    pub fn wait_event(&mut self, command: &str, lines: &mut Vec<String>, event: WaitEvent) -> (done: Option<Result<String, String>>)
        requires
            event matches WaitEvent::Line(_) ==> old(self)@.snapshot.rx_lines < u64::MAX,
        ensures
            keeps_invariants(old(self)@.snapshot, final(self)@.snapshot),
            match event {
                WaitEvent::Line(line) => {
                    &&& done is None
                    &&& string_views(final(lines)@) == string_views(old(lines)@).push(line@)
                    &&& final(self)@.snapshot == (SnapshotModel {
                        rx_lines: (old(self)@.snapshot.rx_lines + 1) as u64,
                        last_error: None,
                        last_event: "received line "@ + nat_text((old(self)@.snapshot.rx_lines + 1) as nat),
                        log_lines: appended_log(old(self)@.snapshot.log_lines, "< "@ + line@),
                        ..old(self)@.snapshot
                    })
                },
                WaitEvent::ReaderFailed(error) => {
                    &&& done matches Some(Err(e)) && e@ == error@
                    &&& string_views(final(lines)@) == string_views(old(lines)@)
                    &&& final(self)@.snapshot == (SnapshotModel {
                        connection_status: "read error"@,
                        connected_port: None,
                        connected_usb_summary: None,
                        last_error: Some(error@),
                        last_event: "reader task failed"@,
                        log_lines: appended_log(old(self)@.snapshot.log_lines, "[error] "@ + error@),
                        ..old(self)@.snapshot
                    })
                },
                WaitEvent::ReaderStopped => {
                    &&& done matches Some(Err(e)) && e@ == "serial reader task stopped"@
                    &&& string_views(final(lines)@) == string_views(old(lines)@)
                    &&& final(self)@.snapshot == old(self)@.snapshot
                },
                WaitEvent::Quiet => {
                    &&& done matches Some(answer) && match answer {
                        Ok(v) => command_answer(command@, string_views(old(lines)@)) == Ok::<
                            Seq<char>,
                            Seq<char>,
                        >(v@),
                        Err(e) => command_answer(command@, string_views(old(lines)@)) == Err::<
                            Seq<char>,
                            Seq<char>,
                        >(e@),
                    }
                    &&& string_views(final(lines)@) == string_views(old(lines)@)
                    &&& final(self)@.snapshot == old(self)@.snapshot
                },
            },
            final(self)@.operation == old(self)@.operation,
    {
        proof {
            use_type_invariant(&*self);
        }
        let mut c = Controller::new();
        std::mem::swap(&mut c, self);
        proof {
            use_type_invariant(&c);
        }
        let Controller { mut snapshot, operation } = c;
        let r = record_wait_event(&mut snapshot, command, lines, event);
        *self = Controller { snapshot, operation };
        r
    }

}

} // verus!
