use stmax_control::protocol::{build_afs_payload, DeviceForm};

#[test]
fn parses_current_settings_block() {
    let response = "\
OK
Help:
config-power:n
Current settings:
Power: 55%
Frequency: 99.50 MHz
Stereo: 1 (stereo), Input: 0 (analog), Gain: 2, Preemphasis: 1 (50 uS)
Alarm temp: 82 C
RDS: 1 (on), TP: 0 (off), TA: 1 (on), MS: 1 (music), DI: 7, PTY: 10
PI: 1a2b (hex), ECC: 12, PS: STMAX
RT: Studio link active
AFs: 99.5 100.1 101.3 MHz
";

    let form = DeviceForm::from_info_response(response).expect("response should parse");
    assert_eq!(form.power_percent, "55");
    assert_eq!(form.frequency_mhz, "99.5");
    assert!(form.stereo_mode);
    assert!(!form.digital_audio_input);
    assert_eq!(form.audio_gain, 2);
    assert!(form.preemphasis_50us);
    assert_eq!(form.alarm_temp_c, "82");
    assert!(form.rds_enabled);
    assert_eq!(form.rds_pi_hex, "1A2B");
    assert_eq!(form.rds_ecc, "12");
    assert_eq!(form.rds_ps, "STMAX");
    assert_eq!(form.rds_rt, "Studio link active");
    assert_eq!(form.rds_afs, "99.5, 100.1, 101.3");
}

#[test]
fn builds_save_command_sequence() {
    let form = DeviceForm {
        power_percent: "50".to_owned(),
        frequency_mhz: "99.5".to_owned(),
        stereo_mode: true,
        digital_audio_input: false,
        audio_gain: 1,
        preemphasis_50us: true,
        alarm_temp_c: "80".to_owned(),
        rds_enabled: true,
        rds_pi_hex: "1234".to_owned(),
        rds_ecc: "10".to_owned(),
        rds_ps: "STMAX".to_owned(),
        rds_rt: "Studio link active".to_owned(),
        rds_tp: true,
        rds_ta: false,
        rds_ms: true,
        rds_di: "1".to_owned(),
        rds_pty: "5".to_owned(),
        rds_afs: "99.5, 101.2 104.7".to_owned(),
    };

    let commands = form.build_save_commands().expect("form should validate");
    assert_eq!(
        commands.first().map(String::as_str),
        Some("config-power:50")
    );
    assert!(commands.contains(&"config-fq:99.5".to_owned()));
    assert!(commands.contains(&"config-rds-pi:1234".to_owned()));
    assert!(commands.contains(&"config-rds-afs:99.5 101.2 104.7".to_owned()));
    assert_eq!(commands.last().map(String::as_str), Some("config-save"));
}

#[test]
fn rejects_invalid_af_step() {
    let error = build_afs_payload("99.55").expect_err("step should be rejected");
    assert!(error.contains("0.1 MHz"));
}

#[test]
fn parses_empty_ps_without_trailing_space() {
    let response = "\
OK
Current settings:
Power: 100%
Frequency: 87.80 MHz
Stereo: 1 (stereo), Input: 0 (analog), Gain: 1, Preemphasis: 1 (50 uS)
Alarm temp: 80 C
RDS: 0 (off), TP: 0 (off), TA: 0 (off), MS: 0 (speech), DI: 1, PTY: 0
PI: 0 (hex), ECC: 0, PS:
RT:
AFs: not set
";

    let form = DeviceForm::from_info_response(response).expect("response should parse");
    assert_eq!(form.rds_pi_hex, "0000");
    assert_eq!(form.rds_ecc, "0");
    assert_eq!(form.rds_ps, "");
    assert_eq!(form.rds_rt, "");
}
