use stmax_control::operation::{
    next_command, record_command_event, start_operation, CommandEvent, OperationRequest,
};
use stmax_control::protocol::DeviceForm;
use stmax_control::serial::{record_connected, SerialSnapshot};

fn connected() -> SerialSnapshot {
    let mut s = SerialSnapshot::default();
    record_connected(&mut s, "COM4", 115_200);
    s
}

const REPORT: &str = "OK\nCurrent settings:\nPower: 40%\n";

#[test]
fn read_operation_sends_question_mark_and_reads_form() {
    let mut s = connected();
    let mut op = start_operation(&mut s, OperationRequest::ReadSettings).unwrap();
    assert!(s.busy);
    assert_eq!(s.connection_status, "reading");
    assert_eq!(s.last_event, "reading transmitter settings");
    assert_eq!(op.commands, vec!["?".to_owned()]);
    assert_eq!(next_command(&op), "?");
    let done = record_command_event(&mut s, &mut op, CommandEvent::Answered(Ok(REPORT.to_owned())));
    assert_eq!(done, Some(Ok("read settings from transmitter")));
    assert_eq!(s.readback_generation, 1);
    assert_eq!(s.readback_form.as_ref().unwrap().power_percent, "40");
}

#[test]
fn save_operation_walks_its_commands_then_reads() {
    let mut s = connected();
    let mut op = start_operation(&mut s, OperationRequest::SaveSettings(DeviceForm::default())).unwrap();
    assert_eq!(s.connection_status, "saving");
    assert_eq!(op.commands.len(), 19);
    assert_eq!(op.commands[0], "config-power:0");
    assert_eq!(op.commands[17], "config-save");
    assert_eq!(op.commands[18], "?");
    for i in 0..18 {
        assert_eq!(next_command(&op), op.commands[i].as_str());
        let done = record_command_event(&mut s, &mut op, CommandEvent::Answered(Ok("OK".to_owned())));
        assert_eq!(done, None);
        assert_eq!(s.last_response_text.as_deref(), Some("OK"));
    }
    assert_eq!(next_command(&op), "?");
    let done = record_command_event(&mut s, &mut op, CommandEvent::Answered(Ok(REPORT.to_owned())));
    assert_eq!(done, Some(Ok("saved settings to transmitter")));
}

#[test]
fn save_of_a_bad_form_does_not_start() {
    let mut s = connected();
    let mut form = DeviceForm::default();
    form.rds_pi_hex = "zz".to_owned();
    let error = start_operation(&mut s, OperationRequest::SaveSettings(form)).err().unwrap();
    assert_eq!(error, "RDS PI must be a 1 to 4 digit hexadecimal value, got `zz`");
    assert!(s.busy);
}

#[test]
fn factory_defaults_then_read() {
    let mut s = connected();
    let mut op = start_operation(&mut s, OperationRequest::FactoryDefaults).unwrap();
    assert_eq!(s.connection_status, "resetting");
    assert_eq!(op.commands, vec!["config-defaults".to_owned(), "?".to_owned()]);
    assert_eq!(record_command_event(&mut s, &mut op, CommandEvent::Answered(Ok("OK".to_owned()))), None);
    let done = record_command_event(&mut s, &mut op, CommandEvent::Answered(Ok(REPORT.to_owned())));
    assert_eq!(done, Some(Ok("restored factory defaults on transmitter")));
}

#[test]
fn operation_stops_at_the_first_failure() {
    let mut s = connected();
    let mut op = start_operation(&mut s, OperationRequest::FactoryDefaults).unwrap();
    assert_eq!(
        record_command_event(&mut s, &mut op, CommandEvent::NoPort),
        Some(Err("no serial port connected".to_owned()))
    );
    let mut op = start_operation(&mut s, OperationRequest::FactoryDefaults).unwrap();
    assert_eq!(
        record_command_event(&mut s, &mut op, CommandEvent::Answered(Err("no response".to_owned()))),
        Some(Err("no response".to_owned()))
    );
    let mut op = start_operation(&mut s, OperationRequest::ReadSettings).unwrap();
    assert_eq!(
        record_command_event(&mut s, &mut op, CommandEvent::Answered(Ok("OK".to_owned()))),
        Some(Err("device response did not include a `Current settings:` block".to_owned()))
    );
    assert_eq!(s.readback_generation, 0);
    let mut op = start_operation(&mut s, OperationRequest::ReadSettings).unwrap();
    assert_eq!(
        record_command_event(&mut s, &mut op, CommandEvent::WriteFailed("broken pipe".to_owned())),
        Some(Err("serial write failed".to_owned()))
    );
    assert_eq!(s.connection_status, "write error");
    assert_eq!(s.last_error.as_deref(), Some("serial write failed: broken pipe"));
}
