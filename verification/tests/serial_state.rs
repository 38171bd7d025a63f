use stmax_control::serial::{
    begin_operation, command_frame, command_response, finish_operation, format_usb_summary,
    is_preferred_device, port_summary, push_log, receive_bytes, record_background_event,
    record_command_sent, record_connect_error, record_connected, record_disconnect,
    record_line_received, record_port_scan, record_port_warning, record_reader_error,
    record_readback, record_response_text, record_wait_event, record_writer_error, take_lines,
    PortInfo, PortKind, PortSummary, ReaderEvent, SerialSnapshot, UsbInfo, WaitEvent,
    MAX_LOG_LINES,
};

fn connected_snapshot() -> SerialSnapshot {
    let mut s = SerialSnapshot::default();
    record_connected(&mut s, "/dev/ttyUSB0", 115_200);
    s
}

fn usb(product: Option<&str>, manufacturer: Option<&str>, serial: Option<&str>) -> UsbInfo {
    UsbInfo {
        vid: 0x1a86,
        pid: 0x7523,
        serial_number: serial.map(String::from),
        manufacturer: manufacturer.map(String::from),
        product: product.map(String::from),
    }
}

#[test]
fn initial_snapshot_values() {
    let s = SerialSnapshot::default();
    assert_eq!(s.connection_status, "idle");
    assert!(s.ports.is_empty());
    assert_eq!(s.connected_port, None);
    assert_eq!(s.tx_commands, 0);
    assert_eq!(s.rx_lines, 0);
    assert_eq!(s.last_event, "serial controller starting");
    assert_eq!(s.log_lines, vec!["[system] serial controller started".to_owned()]);
    assert!(!s.busy);
}

#[test]
fn log_keeps_the_newest_lines() {
    let mut s = SerialSnapshot::default();
    for i in 0..305 {
        push_log(&mut s, format!("line {i}"));
    }
    assert_eq!(s.log_lines.len(), MAX_LOG_LINES);
    assert_eq!(s.log_lines[0], "line 5");
    assert_eq!(s.log_lines[MAX_LOG_LINES - 1], "line 304");
}

#[test]
fn short_log_keeps_everything() {
    let mut s = SerialSnapshot::default();
    push_log(&mut s, "a".to_owned());
    assert_eq!(s.log_lines, vec!["[system] serial controller started".to_owned(), "a".to_owned()]);
}

#[test]
fn operation_marks_busy_and_status_when_connected() {
    let mut s = connected_snapshot();
    begin_operation(&mut s, "reading", "reading transmitter settings");
    assert!(s.busy);
    assert_eq!(s.connection_status, "reading");
    assert_eq!(s.last_event, "reading transmitter settings");
    finish_operation(&mut s, Ok("read settings from transmitter"));
    assert!(!s.busy);
    assert_eq!(s.connection_status, "connected");
    assert_eq!(s.last_error, None);
    assert_eq!(s.last_event, "read settings from transmitter");
}

#[test]
fn operation_without_port_keeps_status() {
    let mut s = SerialSnapshot::default();
    begin_operation(&mut s, "saving", "sending configuration to transmitter");
    assert_eq!(s.connection_status, "idle");
    finish_operation(&mut s, Err("no serial port connected".to_owned()));
    assert!(!s.busy);
    assert_eq!(s.connection_status, "idle");
    assert_eq!(s.last_error.as_deref(), Some("no serial port connected"));
    assert_eq!(s.last_event, "last operation failed");
    assert_eq!(s.log_lines.last().unwrap(), "[error] no serial port connected");
}

#[test]
fn failed_operation_keeps_connection_error_status() {
    let mut s = connected_snapshot();
    s.connection_status = "read error".to_owned();
    finish_operation(&mut s, Err("boom".to_owned()));
    assert_eq!(s.connection_status, "read error");
    let mut s = connected_snapshot();
    s.connection_status = "saving".to_owned();
    finish_operation(&mut s, Err("boom".to_owned()));
    assert_eq!(s.connection_status, "connected");
}

#[test]
fn readback_records_form_and_generation() {
    let mut s = connected_snapshot();
    let response = "OK\nCurrent settings:\nPower: 10%\n";
    assert_eq!(record_readback(&mut s, response), Ok("read settings from transmitter"));
    assert_eq!(s.readback_generation, 1);
    assert_eq!(s.readback_form.as_ref().unwrap().power_percent, "10");
    assert_eq!(s.last_response_text.as_deref(), Some("Current settings:\nPower: 10%"));
}

#[test]
fn readback_error_changes_nothing() {
    let mut s = connected_snapshot();
    let error = record_readback(&mut s, "OK\n").unwrap_err();
    assert_eq!(error, "device response did not include a `Current settings:` block");
    assert_eq!(s.readback_generation, 0);
    assert!(s.readback_form.is_none());
}

#[test]
fn response_text_is_recorded_for_display() {
    let mut s = SerialSnapshot::default();
    record_response_text(&mut s, "  OK  \n");
    assert_eq!(s.last_response_text.as_deref(), Some("OK"));
}

#[test]
fn command_and_line_counters() {
    let mut s = connected_snapshot();
    record_command_sent(&mut s, "?");
    assert_eq!(s.tx_commands, 1);
    assert_eq!(s.last_event, "sent command 1");
    assert_eq!(s.log_lines.last().unwrap(), "> ?");
    record_line_received(&mut s, "OK");
    assert_eq!(s.rx_lines, 1);
    assert_eq!(s.last_event, "received line 1");
    assert_eq!(s.log_lines.last().unwrap(), "< OK");
}

#[test]
fn answer_is_joined_lines() {
    let lines = vec!["OK".to_owned(), "Power: 1%".to_owned()];
    assert_eq!(command_response("?", &lines).unwrap(), "OK\nPower: 1%");
    assert_eq!(
        command_response("?", &Vec::new()).unwrap_err(),
        "no response received after sending `?`"
    );
    let rejected = vec!["".to_owned(), " ERR ".to_owned()];
    assert_eq!(
        command_response("config-power:5", &rejected).unwrap_err(),
        "device rejected `config-power:5` with `ERR`"
    );
}

#[test]
fn frame_ends_with_carriage_return_and_line_feed() {
    assert_eq!(command_frame("config-save"), b"config-save\r\n".to_vec());
    assert_eq!(command_frame(""), b"\r\n".to_vec());
    assert_eq!(command_frame("é"), vec![0xc3, 0xa9, 13, 10]);
}

#[test]
fn waiting_collects_lines_until_quiet() {
    let mut s = connected_snapshot();
    let mut lines = Vec::new();
    assert_eq!(record_wait_event(&mut s, "?", &mut lines, WaitEvent::Line("OK".to_owned())), None);
    assert_eq!(
        record_wait_event(&mut s, "?", &mut lines, WaitEvent::Line("Current settings:".to_owned())),
        None
    );
    assert_eq!(s.rx_lines, 2);
    let done = record_wait_event(&mut s, "?", &mut lines, WaitEvent::Quiet);
    assert_eq!(done, Some(Ok("OK\nCurrent settings:".to_owned())));
}

#[test]
fn waiting_ends_on_silence_or_failure() {
    let mut s = connected_snapshot();
    let mut lines = Vec::new();
    assert_eq!(
        record_wait_event(&mut s, "?", &mut lines, WaitEvent::Quiet),
        Some(Err("no response received after sending `?`".to_owned()))
    );
    assert_eq!(
        record_wait_event(&mut s, "?", &mut lines, WaitEvent::ReaderStopped),
        Some(Err("serial reader task stopped".to_owned()))
    );
    assert_eq!(
        record_wait_event(&mut s, "?", &mut lines, WaitEvent::ReaderFailed("gone".to_owned())),
        Some(Err("gone".to_owned()))
    );
    assert_eq!(s.connection_status, "read error");
    assert_eq!(s.connected_port, None);
    assert_eq!(s.last_event, "reader task failed");
    assert_eq!(s.log_lines.last().unwrap(), "[error] gone");
}

#[test]
fn background_events() {
    let mut s = connected_snapshot();
    assert!(!record_background_event(&mut s, ReaderEvent::Line("hello".to_owned())));
    assert_eq!(s.rx_lines, 1);
    assert_eq!(s.last_event, "received unsolicited device output");
    assert!(record_background_event(&mut s, ReaderEvent::Error("bad".to_owned())));
    assert_eq!(s.connection_status, "read error");
    assert_eq!(s.last_error.as_deref(), Some("bad"));
}

#[test]
fn reader_and_writer_errors_drop_the_connection() {
    let mut s = connected_snapshot();
    record_reader_error(&mut s, "serial read failed on COM3: gone".to_owned());
    assert_eq!(s.connected_port, None);
    let mut s = connected_snapshot();
    record_writer_error(&mut s, "broken pipe");
    assert_eq!(s.connection_status, "write error");
    assert_eq!(s.connected_port, None);
    assert_eq!(s.last_error.as_deref(), Some("serial write failed: broken pipe"));
    assert_eq!(s.last_event, "disconnected after write failure");
    assert_eq!(s.log_lines.last().unwrap(), "[error] serial write failed: broken pipe");
}

#[test]
fn disconnect_records_only_what_happened() {
    let mut s = SerialSnapshot::default();
    record_disconnect(&mut s, false);
    assert_eq!(s.connection_status, "idle");
    assert_eq!(s.log_lines.len(), 1);
    record_disconnect(&mut s, true);
    assert_eq!(s.connection_status, "disconnected");
    assert_eq!(s.last_event, "serial port disconnected by user");
    assert_eq!(s.log_lines.last().unwrap(), "[system] serial port disconnected by user");
    let mut s = connected_snapshot();
    record_disconnect(&mut s, false);
    assert_eq!(s.last_event, "serial port disconnected");
    assert_eq!(s.connected_port, None);
}

#[test]
fn port_scan_outcomes() {
    let mut s = SerialSnapshot::default();
    let ports = vec![PortSummary {
        port_name: "COM3".to_owned(),
        summary: "pci".to_owned(),
        is_preferred_device: false,
    }];
    record_port_scan(&mut s, Ok(ports));
    assert_eq!(s.port_scan_generation, 1);
    assert_eq!(s.ports.len(), 1);
    assert_eq!(s.last_event, "discovered 1 serial port(s)");
    assert_eq!(s.connection_status, "ports refreshed");
    record_port_scan(&mut s, Err("denied".to_owned()));
    assert_eq!(s.port_scan_generation, 1);
    assert_eq!(s.last_error.as_deref(), Some("failed to enumerate serial ports: denied"));
    assert_eq!(s.connection_status, "enumeration error");
    assert_eq!(s.last_event, "serial port enumeration failed");
}

#[test]
fn connecting_takes_the_listed_summary() {
    let mut s = SerialSnapshot::default();
    record_port_scan(
        &mut s,
        Ok(vec![PortSummary {
            port_name: "COM4".to_owned(),
            summary: "CH340 | VID:1a86 PID:7523".to_owned(),
            is_preferred_device: true,
        }]),
    );
    record_connected(&mut s, "COM4", 115_200);
    assert_eq!(s.connection_status, "connected");
    assert_eq!(s.connected_port.as_deref(), Some("COM4"));
    assert_eq!(s.connected_usb_summary.as_deref(), Some("CH340 | VID:1a86 PID:7523"));
    assert_eq!(s.last_event, "connected to COM4 at 115200 baud");
    assert_eq!(s.log_lines.last().unwrap(), "[system] connected to COM4 at 115200 baud");
}

#[test]
fn connect_failure_is_recorded() {
    let mut s = SerialSnapshot::default();
    record_connect_error(&mut s, "COM9", "not found");
    assert_eq!(s.connection_status, "connect error");
    assert_eq!(s.last_error.as_deref(), Some("failed to open COM9: not found"));
    assert_eq!(s.last_event, "failed to connect to COM9");
    assert_eq!(s.log_lines.last().unwrap(), "[error] failed to open COM9: not found");
}

#[test]
fn port_warnings_are_only_logged() {
    let mut s = connected_snapshot();
    record_port_warning(&mut s, "clear serial buffers", "COM4", "busy");
    assert_eq!(s.log_lines.last().unwrap(), "[warning] failed to clear serial buffers on COM4: busy");
    assert_eq!(s.connection_status, "connected");
}

#[test]
fn usb_summary_lists_known_parts() {
    assert_eq!(
        format_usb_summary(&usb(Some("USB Serial"), Some("wch.cn"), Some("A1"))),
        "USB Serial | wch.cn | VID:1a86 PID:7523 | SN:A1"
    );
    assert_eq!(format_usb_summary(&usb(None, None, None)), "VID:1a86 PID:7523");
}

#[test]
fn preferred_devices() {
    let by_name = PortInfo { port_name: "/dev/ttyUSB0".to_owned(), port_type: PortKind::Pci };
    assert!(is_preferred_device(&by_name));
    let ftdi = PortInfo {
        port_name: "COM5".to_owned(),
        port_type: PortKind::Usb(usb(Some("FT232R"), Some("FTDI"), None)),
    };
    assert!(is_preferred_device(&ftdi));
    let other = PortInfo {
        port_name: "COM6".to_owned(),
        port_type: PortKind::Usb(usb(Some("Modem"), Some("Acme"), None)),
    };
    assert!(!is_preferred_device(&other));
    let bt = PortInfo { port_name: "COM7".to_owned(), port_type: PortKind::Bluetooth };
    assert!(!is_preferred_device(&bt));
}

#[test]
fn port_summaries_by_kind() {
    let p = port_summary(PortInfo { port_name: "COM1".to_owned(), port_type: PortKind::Unknown });
    assert_eq!(p.summary, "unknown");
    assert!(!p.is_preferred_device);
    let p = port_summary(PortInfo {
        port_name: "COM2".to_owned(),
        port_type: PortKind::Usb(usb(Some("Arduino Uno"), None, None)),
    });
    assert_eq!(p.port_name, "COM2");
    assert_eq!(p.summary, "Arduino Uno | VID:1a86 PID:7523");
    assert!(p.is_preferred_device);
}

#[test]
fn received_bytes_become_lines() {
    let mut pending = Vec::new();
    let lines = receive_bytes(&mut pending, b"\r\nOK\r\n\nPow");
    assert_eq!(lines, vec!["OK".to_owned()]);
    assert_eq!(pending, b"Pow".to_vec());
    let lines = receive_bytes(&mut pending, b"er\n");
    assert_eq!(lines, vec!["Power".to_owned()]);
    assert!(pending.is_empty());
}

#[test]
fn received_bytes_are_decoded() {
    let mut pending = Vec::new();
    let lines = receive_bytes(&mut pending, &[0xc3, 0xa9, b'\n', 0xff, b'a', b'\r']);
    assert_eq!(lines, vec!["é".to_owned(), "\u{fffd}a".to_owned()]);
}

#[test]
fn raw_lines_are_split() {
    let mut pending = b"x".to_vec();
    let lines = take_lines(&mut pending, b"y\rz");
    assert_eq!(lines, vec![b"xy".to_vec()]);
    assert_eq!(pending, b"z".to_vec());
}
