use stmax_control::numbers::hex4_upper_exec;
use stmax_control::protocol::{
    build_afs_payload, normalize_percent, normalize_response_for_display, parse_hex_u16, DeviceForm,
};
use stmax_control::serial::{
    finish_operation, record_command_sent, record_connected, record_disconnect,
    record_line_received,
};
use stmax_control::serial::{push_log, receive_bytes, SerialSnapshot, MAX_LOG_LINES};
use stmax_control::ui_state::default_port_selection;
use stmax_control::serial::PortSummary;

fn chars(s: &str) -> Vec<char> {
    s.chars().collect()
}

#[test]
fn log_never_exceeds_its_bound() {
    let mut s = SerialSnapshot::default();
    for i in 0..1000 {
        push_log(&mut s, format!("entry {i}"));
        assert!(s.log_lines.len() <= MAX_LOG_LINES);
        assert_eq!(s.log_lines.last().unwrap(), &format!("entry {i}"));
    }
}

#[test]
fn normalized_decimal_reads_back_unchanged() {
    for raw in ["0", "12.3456", "99.9996", "100", " 007.10 ", "33.333333"] {
        let once = normalize_percent(&chars(raw)).unwrap();
        let twice = normalize_percent(&chars(&once)).unwrap();
        assert_eq!(once, twice);
    }
}

#[test]
fn pi_round_trip() {
    for v in [0u16, 1, 0x1a2b, 0xffff, 0x0f00] {
        let text: String = hex4_upper_exec(v).iter().collect();
        assert_eq!(parse_hex_u16(&chars(&text)), Ok(v));
    }
}

#[test]
fn received_lines_hold_no_line_breaks() {
    let mut pending = Vec::new();
    let lines = receive_bytes(&mut pending, b"\n\rA\r\r\nB C\n\n\rD");
    assert_eq!(lines, vec!["A".to_owned(), "B C".to_owned()]);
    for line in &lines {
        assert!(!line.is_empty());
        assert!(!line.contains('\n') && !line.contains('\r'));
    }
    assert_eq!(pending, b"D".to_vec());
}

#[test]
fn settings_read_are_saved_as_read() {
    let response = "\
OK
Current settings:
Power: 55.50%
Frequency: 99.50 MHz
Stereo: 1 (stereo), Input: 1 (digital), Gain: 0, Preemphasis: 0 (75 uS)
Alarm temp: 82 C
RDS: 1 (on), TP: 0 (off), TA: 1 (on), MS: 1 (music), DI: 7, PTY: 10
PI: 1a2b (hex), ECC: 12, PS: STMAX
RT: Studio link active
AFs: 99.5 100.1 101.3 MHz
";
    let form = DeviceForm::from_info_response(response).unwrap();
    let commands = form.build_save_commands().unwrap();
    let expected: Vec<String> = vec![
        "config-power:55.5",
        "config-fq:99.5",
        "config-audio-stereo:1",
        "config-audio-input:1",
        "config-audio-gain:0",
        "config-audio-pre:0",
        "config-alarm-temp:82",
        "config-rds:1",
        "config-rds-pi:1A2B",
        "config-rds-ecc:12",
        "config-rds-ps:STMAX",
        "config-rds-rt:Studio link active",
        "config-rds-tp:0",
        "config-rds-ta:1",
        "config-rds-ms:1",
        "config-rds-di:7",
        "config-rds-pty:10",
        "config-rds-afs:99.5 100.1 101.3",
        "config-save",
    ]
    .into_iter()
    .map(String::from)
    .collect();
    assert_eq!(commands, expected);
}

#[test]
fn default_form_saves() {
    let commands = DeviceForm::default().build_save_commands().unwrap();
    assert_eq!(commands[0], "config-power:0");
    assert_eq!(commands[5], "config-alarm-temp:80");
    assert_eq!(commands[7], "config-rds-pi:0000");
    assert_eq!(commands.len(), 18);
}

#[test]
fn read_form_with_long_ps_fails_only_on_ps() {
    let response = "Current settings:\nPI: 1 (hex), ECC: 0, PS: ABCDEFGHIJ\n";
    let form = DeviceForm::from_info_response(response).unwrap();
    assert_eq!(form.build_save_commands().unwrap_err(), "RDS PS must be at most 8 bytes, got 10");
}

#[test]
fn selection_is_a_listed_port() {
    let ports = vec![
        PortSummary { port_name: "A".to_owned(), summary: String::new(), is_preferred_device: false },
        PortSummary { port_name: "B".to_owned(), summary: String::new(), is_preferred_device: false },
    ];
    for selected in ["", "A", "B", "C"] {
        let chosen = default_port_selection(&ports, selected);
        assert!(ports.iter().any(|p| p.port_name == chosen));
    }
}

#[test]
fn af_payload_is_its_own_payload() {
    for raw in ["99.5, 101.2 104.7", "  87.6;107.9  ", "", "100.10,100.2"] {
        let once = build_afs_payload(raw).unwrap();
        assert_eq!(build_afs_payload(&once).unwrap(), once);
    }
}

#[test]
fn received_bytes_are_all_kept() {
    let mut pending = b"ab".to_vec();
    let chunk = b"c\r\nde\n\nf\rgh";
    let lines = receive_bytes(&mut pending, chunk);
    let mut joined: Vec<u8> = lines.concat().into_bytes();
    joined.extend_from_slice(&pending);
    let mut expected = b"ab".to_vec();
    expected.extend(chunk.iter().copied().filter(|b| *b != b'\r' && *b != b'\n'));
    assert_eq!(joined, expected);
    assert_eq!(lines, vec!["abc".to_owned(), "de".to_owned(), "f".to_owned()]);
    assert_eq!(pending, b"gh".to_vec());
}

#[test]
fn display_text_is_stable_and_reads_the_same() {
    for r in [
        "OK\nCurrent settings:\nPower: 5%\n  \n\t",
        "junk  \n",
        "  Current settings:\nFrequency: 99.50 MHz  \n\n",
        "",
    ] {
        let d = normalize_response_for_display(r);
        assert_eq!(normalize_response_for_display(&d), d);
        assert_eq!(DeviceForm::from_info_response(&d), DeviceForm::from_info_response(r));
    }
}

#[test]
fn text_before_the_settings_is_ignored() {
    let r = "Current settings:\nPower: 5%\n";
    for p in ["", "OK", "Help:\nconfig-power:n", "Current settings"] {
        let whole = format!("{p}\n{r}");
        assert_eq!(DeviceForm::from_info_response(&whole), DeviceForm::from_info_response(r));
    }
}

#[test]
fn counters_never_fall_during_a_session() {
    let mut s = SerialSnapshot::default();
    let mut last = (0u64, 0u64);
    record_connected(&mut s, "COM1", 115_200);
    for i in 0..400 {
        record_command_sent(&mut s, "?");
        record_line_received(&mut s, &format!("line {i}"));
        assert!(s.tx_commands >= last.0 && s.rx_lines >= last.1);
        assert!(s.log_lines.len() <= MAX_LOG_LINES);
        last = (s.tx_commands, s.rx_lines);
    }
    finish_operation(&mut s, Ok("done"));
    assert!(!s.busy);
    record_disconnect(&mut s, true);
    assert!(s.tx_commands == 400 && s.rx_lines == 400);
}
