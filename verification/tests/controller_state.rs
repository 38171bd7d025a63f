use stmax_control::controller::Controller;
use stmax_control::operation::{CommandEvent, OperationRequest};
use stmax_control::protocol::DeviceForm;
use stmax_control::serial::{PortSummary, ReaderEvent, WaitEvent, MAX_LOG_LINES};

const REPORT: &str = "OK\nCurrent settings:\nPower: 40%\n";

#[test]
fn controller_starts_idle() {
    let c = Controller::new();
    assert!(!c.is_running());
    assert!(!c.snapshot().busy);
    assert_eq!(c.due_command(), None);
    assert_eq!(c.snapshot().connection_status, "idle");
}

#[test]
fn controller_read_runs_and_ends_idle() {
    let mut c = Controller::new();
    c.list_ports(Ok(vec![PortSummary {
        port_name: "COM4".to_owned(),
        summary: String::new(),
        is_preferred_device: true,
    }]));
    c.connected("COM4", 115_200);
    c.start(OperationRequest::ReadSettings);
    assert!(c.is_running() && c.snapshot().busy);
    assert_eq!(c.snapshot().connection_status, "reading");
    assert_eq!(c.due_command(), Some("?"));
    c.command_sent("?");
    let mut lines = Vec::new();
    for line in REPORT.lines() {
        assert_eq!(c.wait_event("?", &mut lines, WaitEvent::Line(line.to_owned())), None);
    }
    let answer = c.wait_event("?", &mut lines, WaitEvent::Quiet).unwrap();
    assert!(c.command_outcome(CommandEvent::Answered(answer)));
    assert!(!c.is_running() && !c.snapshot().busy);
    assert_eq!(c.snapshot().connection_status, "connected");
    assert_eq!(c.snapshot().last_event, "read settings from transmitter");
    assert_eq!(c.snapshot().readback_form.as_ref().unwrap().power_percent, "40");
    assert_eq!(c.snapshot().tx_commands, 1);
    assert_eq!(c.snapshot().rx_lines, 3);
}

#[test]
fn controller_save_of_bad_form_ends_at_once() {
    let mut c = Controller::new();
    let mut form = DeviceForm::default();
    form.audio_gain = 9;
    c.start(OperationRequest::SaveSettings(form));
    assert!(!c.is_running() && !c.snapshot().busy);
    assert_eq!(c.snapshot().last_error.as_deref(), Some("Audio gain must be 0, 1, or 2, got 9"));
    assert_eq!(c.snapshot().last_event, "last operation failed");
}

#[test]
fn controller_failure_ends_the_operation() {
    let mut c = Controller::new();
    c.start(OperationRequest::FactoryDefaults);
    assert_eq!(c.due_command(), Some("config-defaults"));
    assert!(c.command_outcome(CommandEvent::NoPort));
    assert!(!c.snapshot().busy);
    assert_eq!(c.snapshot().last_error.as_deref(), Some("no serial port connected"));
    assert_eq!(c.snapshot().log_lines.last().unwrap(), "[error] no serial port connected");
}

#[test]
fn controller_log_stays_bounded() {
    let mut c = Controller::new();
    c.connected("COM1", 115_200);
    for i in 0..400 {
        assert!(!c.background_event(ReaderEvent::Line(format!("line {i}"))));
        assert!(c.snapshot().log_lines.len() <= MAX_LOG_LINES);
    }
    c.port_warning("clear serial buffers", "COM1", "busy");
    c.connect_failed("COM2", "missing");
    c.disconnect(true);
    assert_eq!(c.snapshot().rx_lines, 400);
    assert_eq!(c.snapshot().log_lines.len(), MAX_LOG_LINES);
}
