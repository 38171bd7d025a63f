use stmax_control::serial::{record_connected, record_port_scan, PortSummary, SerialSnapshot};
use stmax_control::ui_state::{
    connect_target, control_states, default_port_selection, gain_text, port_label,
    selected_port_text, should_auto_connect, should_read_after_connect, sync_view, ViewState,
};

fn port(name: &str, summary: &str, preferred: bool) -> PortSummary {
    PortSummary {
        port_name: name.to_owned(),
        summary: summary.to_owned(),
        is_preferred_device: preferred,
    }
}

fn scanned(ports: Vec<PortSummary>) -> SerialSnapshot {
    let mut s = SerialSnapshot::default();
    record_port_scan(&mut s, Ok(ports));
    s
}

fn fresh_view() -> ViewState {
    ViewState {
        selected_port: String::new(),
        last_port_scan_generation: 0,
        last_readback_generation: 0,
        startup_auto_connect_attempted: false,
    }
}

#[test]
fn selection_prefers_the_adapter() {
    let ports = vec![port("COM1", "pci", false), port("COM4", "CH340", true)];
    assert_eq!(default_port_selection(&ports, "COM1"), "COM4");
}

#[test]
fn selection_keeps_a_listed_choice() {
    let ports = vec![port("COM1", "pci", false), port("COM2", "pci", false)];
    assert_eq!(default_port_selection(&ports, "COM2"), "COM2");
    assert_eq!(default_port_selection(&ports, "COM9"), "COM1");
    assert_eq!(default_port_selection(&Vec::new(), "COM9"), "");
}

#[test]
fn chooser_text() {
    let s = scanned(vec![port("COM1", "", false)]);
    assert_eq!(selected_port_text(&s, "COM1"), "COM1");
    assert_eq!(selected_port_text(&s, "COM2"), "COM2");
    let empty = scanned(Vec::new());
    assert_eq!(selected_port_text(&empty, "COM2"), "No ports detected");
}

#[test]
fn auto_connect_rules() {
    let s = scanned(vec![port("COM1", "", false), port("COM4", "", true)]);
    assert!(should_auto_connect(&s, "COM4"));
    assert!(!should_auto_connect(&s, ""));
    let two = scanned(vec![port("COM1", "", false), port("COM2", "", false)]);
    assert!(!should_auto_connect(&two, "COM1"));
    let one = scanned(vec![port("COM1", "", false)]);
    assert!(should_auto_connect(&one, "COM1"));
    let mut busy = one.clone();
    record_connected(&mut busy, "COM1", 115_200);
    assert!(!should_auto_connect(&busy, "COM1"));
}

#[test]
fn read_after_a_new_connection() {
    let mut s = scanned(vec![port("COM1", "", false)]);
    record_connected(&mut s, "COM1", 115_200);
    assert!(should_read_after_connect(&None, &s));
    assert!(!should_read_after_connect(&Some("COM1".to_owned()), &s));
    assert!(should_read_after_connect(&Some("COM2".to_owned()), &s));
    s.busy = true;
    assert!(!should_read_after_connect(&None, &s));
}

#[test]
fn connect_target_trims() {
    assert_eq!(connect_target("  COM3 "), Some("COM3".to_owned()));
    assert_eq!(connect_target("   "), None);
}

#[test]
fn port_labels() {
    assert_eq!(port_label(&port("COM1", "", false)), "COM1");
    assert_eq!(port_label(&port("COM4", "CH340", true)), "COM4  CH340");
}

#[test]
fn first_scan_selects_and_connects() {
    let s = scanned(vec![port("COM1", "", false), port("COM4", "", true)]);
    let mut view = fresh_view();
    let actions = sync_view(&mut view, &None, &s);
    assert_eq!(view.selected_port, "COM4");
    assert_eq!(view.last_port_scan_generation, 1);
    assert!(view.startup_auto_connect_attempted);
    assert_eq!(actions.connect_to, Some("COM4".to_owned()));
    assert!(!actions.take_readback);
    assert!(!actions.read_config);
}

#[test]
fn later_scans_do_not_connect() {
    let mut s = scanned(vec![port("COM4", "", true)]);
    let mut view = fresh_view();
    let _ = sync_view(&mut view, &None, &s);
    record_port_scan(&mut s, Ok(vec![port("COM4", "", true)]));
    let actions = sync_view(&mut view, &None, &s);
    assert_eq!(actions.connect_to, None);
    assert_eq!(view.last_port_scan_generation, 2);
}

#[test]
fn new_connection_and_readback_are_noticed() {
    let mut s = scanned(vec![port("COM1", "", false), port("COM2", "", false)]);
    let mut view = fresh_view();
    let first = sync_view(&mut view, &None, &s);
    assert_eq!(first.connect_to, None);
    assert_eq!(view.selected_port, "COM1");
    record_connected(&mut s, "COM1", 115_200);
    let actions = sync_view(&mut view, &None, &s);
    assert!(actions.read_config);
    s.readback_generation = 1;
    let actions = sync_view(&mut view, &Some("COM1".to_owned()), &s);
    assert!(actions.take_readback);
    assert!(!actions.read_config);
    assert_eq!(view.last_readback_generation, 1);
}

#[test]
fn controls_follow_connection_and_busy() {
    let idle = SerialSnapshot::default();
    let c = control_states(&idle, "COM1");
    assert!(c.choose_port && c.connect && !c.disconnect && !c.device_actions);
    let c = control_states(&idle, "");
    assert!(!c.connect);
    let mut s = SerialSnapshot::default();
    record_connected(&mut s, "COM1", 115_200);
    let c = control_states(&s, "COM1");
    assert!(!c.choose_port && !c.connect && c.disconnect && c.device_actions);
    s.busy = true;
    let c = control_states(&s, "COM1");
    assert!(!c.choose_port && !c.connect && !c.disconnect && !c.device_actions);
}

#[test]
fn gain_texts() {
    assert_eq!(gain_text(0), "0 - Low");
    assert_eq!(gain_text(1), "1 - Normal");
    assert_eq!(gain_text(2), "2 - High");
    assert_eq!(gain_text(7), "Invalid");
}
