use stmax_control::protocol::{
    build_afs_payload, current_settings_block, first_nonempty_line, normalize_afs_line,
    normalize_alarm_temp, normalize_frequency, normalize_percent, normalize_response_for_display,
    parse_af_tenths, parse_bool_token, parse_hex_u16, response_is_err, segment_after,
    segment_between, validate_text, DeviceForm,
};

fn chars(s: &str) -> Vec<char> {
    s.chars().collect()
}

fn report(lines: &[&str]) -> String {
    let mut text = String::from("OK\nCurrent settings:\n");
    for line in lines {
        text.push_str(line);
        text.push('\n');
    }
    text
}

fn sample_form() -> DeviceForm {
    DeviceForm {
        power_percent: "50".to_owned(),
        frequency_mhz: "99.5".to_owned(),
        stereo_mode: true,
        digital_audio_input: false,
        audio_gain: 1,
        preemphasis_50us: true,
        alarm_temp_c: "80".to_owned(),
        rds_enabled: true,
        rds_pi_hex: "1234".to_owned(),
        rds_ecc: "10".to_owned(),
        rds_ps: "STMAX".to_owned(),
        rds_rt: "Studio link active".to_owned(),
        rds_tp: true,
        rds_ta: false,
        rds_ms: true,
        rds_di: "1".to_owned(),
        rds_pty: "5".to_owned(),
        rds_afs: "99.5, 101.2 104.7".to_owned(),
    }
}

#[test]
fn default_form_holds_the_documented_values() {
    let form = DeviceForm::default();
    assert_eq!(form.power_percent, "0");
    assert_eq!(form.frequency_mhz, "");
    assert!(form.stereo_mode);
    assert!(!form.digital_audio_input);
    assert_eq!(form.audio_gain, 1);
    assert!(form.preemphasis_50us);
    assert_eq!(form.alarm_temp_c, "80");
    assert!(!form.rds_enabled);
    assert_eq!(form.rds_pi_hex, "0000");
    assert_eq!(form.rds_ecc, "0");
    assert_eq!(form.rds_ps, "");
    assert_eq!(form.rds_rt, "");
    assert_eq!(form.rds_di, "1");
    assert_eq!(form.rds_pty, "0");
    assert_eq!(form.rds_afs, "");
}

#[test]
fn response_without_settings_block_is_refused() {
    let error = DeviceForm::from_info_response("OK\nHelp:\n").unwrap_err();
    assert_eq!(error, "device response did not include a `Current settings:` block");
}

#[test]
fn empty_settings_block_gives_default_form() {
    let form = DeviceForm::from_info_response("Current settings:").unwrap();
    assert_eq!(form, DeviceForm::default());
}

#[test]
fn unknown_lines_are_ignored() {
    let form = DeviceForm::from_info_response(&report(&["Firmware: 1.2", "Power: 12%"])).unwrap();
    assert_eq!(form.power_percent, "12");
}

#[test]
fn power_is_rounded_to_three_decimals() {
    let form = DeviceForm::from_info_response(&report(&["Power: 55.1236 %"])).unwrap();
    assert_eq!(form.power_percent, "55.124");
    let form = DeviceForm::from_info_response(&report(&["Power: 007.500%"])).unwrap();
    assert_eq!(form.power_percent, "7.5");
}

#[test]
fn power_out_of_range_is_refused() {
    let error = DeviceForm::from_info_response(&report(&["Power: 120%"])).unwrap_err();
    assert_eq!(error, "Power must be between 0 and 100, got 120");
}

#[test]
fn power_not_numeric_is_refused() {
    let error = DeviceForm::from_info_response(&report(&["Power: abc%"])).unwrap_err();
    assert_eq!(error, "Power must be numeric, got `abc`");
}

#[test]
fn frequency_not_set_reads_empty() {
    let form = DeviceForm::from_info_response(&report(&["Frequency: not set"])).unwrap();
    assert_eq!(form.frequency_mhz, "");
}

#[test]
fn frequency_out_of_band_is_refused() {
    let error = DeviceForm::from_info_response(&report(&["Frequency: 80.00 MHz"])).unwrap_err();
    assert_eq!(error, "Frequency must be between 87.5 and 108, got 80");
}

#[test]
fn audio_gain_out_of_range_is_refused() {
    let line = "Stereo: 1 (stereo), Input: 0 (analog), Gain: 3, Preemphasis: 1 (50 uS)";
    let error = DeviceForm::from_info_response(&report(&[line])).unwrap_err();
    assert_eq!(error, "Audio gain must be between 0 and 2, got 3");
}

#[test]
fn audio_line_missing_a_part_is_refused() {
    let error = DeviceForm::from_info_response(&report(&["Stereo: 1 (stereo)"])).unwrap_err();
    assert_eq!(error, "device response is missing `, Input: ` after `Stereo: `");
}

#[test]
fn audio_flag_must_be_zero_or_one() {
    let line = "Stereo: 2 (stereo), Input: 0 (analog), Gain: 1, Preemphasis: 1 (50 uS)";
    let error = DeviceForm::from_info_response(&report(&[line])).unwrap_err();
    assert_eq!(error, "Stereo must be between 0 and 1, got 2");
}

#[test]
fn rds_di_out_of_range_is_refused() {
    let line = "RDS: 1 (on), TP: 0 (off), TA: 1 (on), MS: 1 (music), DI: 16, PTY: 10";
    let error = DeviceForm::from_info_response(&report(&[line])).unwrap_err();
    assert_eq!(error, "RDS DI must be between 0 and 15, got 16");
}

#[test]
fn rds_flags_are_read() {
    let line = "RDS: 0 (off), TP: 1 (on), TA: 0 (off), MS: 0 (speech), DI: 03, PTY: 31";
    let form = DeviceForm::from_info_response(&report(&[line])).unwrap();
    assert!(!form.rds_enabled);
    assert!(form.rds_tp);
    assert!(!form.rds_ta);
    assert!(!form.rds_ms);
    assert_eq!(form.rds_di, "3");
    assert_eq!(form.rds_pty, "31");
}

#[test]
fn pi_with_prefix_is_written_in_upper_case() {
    let form = DeviceForm::from_info_response(&report(&["PI: 0x1f (hex), ECC: 7, PS: AB CD"])).unwrap();
    assert_eq!(form.rds_pi_hex, "001F");
    assert_eq!(form.rds_ecc, "7");
    assert_eq!(form.rds_ps, "AB CD");
}

#[test]
fn pi_that_is_not_hexadecimal_is_refused() {
    let error = DeviceForm::from_info_response(&report(&["PI: xyz (hex), ECC: 0"])).unwrap_err();
    assert_eq!(error, "RDS PI must be a 1 to 4 digit hexadecimal value, got `xyz`");
}

#[test]
fn pi_line_without_ecc_is_refused() {
    let error = DeviceForm::from_info_response(&report(&["PI: 1234 (hex)"])).unwrap_err();
    assert_eq!(error, "device response is missing `, ECC: ` after `PI: `");
}

#[test]
fn ecc_that_is_not_an_integer_is_refused() {
    let error = DeviceForm::from_info_response(&report(&["PI: 1 (hex), ECC: abc"])).unwrap_err();
    assert_eq!(error, "RDS ECC must be an integer, got `abc`");
}

#[test]
fn radio_text_and_afs_are_read() {
    let form =
        DeviceForm::from_info_response(&report(&["RT: Hello there ", "AFs:  99.5   101.2 MHz"]))
            .unwrap();
    assert_eq!(form.rds_rt, "Hello there");
    assert_eq!(form.rds_afs, "99.5, 101.2");
}

#[test]
fn save_commands_come_in_protocol_order() {
    let commands = sample_form().build_save_commands().unwrap();
    let expected: Vec<String> = vec![
        "config-power:50",
        "config-fq:99.5",
        "config-audio-stereo:1",
        "config-audio-input:0",
        "config-audio-gain:1",
        "config-audio-pre:1",
        "config-alarm-temp:80",
        "config-rds:1",
        "config-rds-pi:1234",
        "config-rds-ecc:10",
        "config-rds-ps:STMAX",
        "config-rds-rt:Studio link active",
        "config-rds-tp:1",
        "config-rds-ta:0",
        "config-rds-ms:1",
        "config-rds-di:1",
        "config-rds-pty:5",
        "config-rds-afs:99.5 101.2 104.7",
        "config-save",
    ]
    .into_iter()
    .map(String::from)
    .collect();
    assert_eq!(commands, expected);
}

#[test]
fn blank_frequency_sends_no_frequency_command() {
    let mut form = sample_form();
    form.frequency_mhz = "   ".to_owned();
    let commands = form.build_save_commands().unwrap();
    assert_eq!(commands.len(), 18);
    assert!(commands.iter().all(|c| !c.starts_with("config-fq:")));
}

#[test]
fn save_normalizes_numbers_and_pi() {
    let mut form = sample_form();
    form.power_percent = " 42.50 ".to_owned();
    form.rds_pi_hex = "0xab".to_owned();
    form.frequency_mhz = "101.10".to_owned();
    let commands = form.build_save_commands().unwrap();
    assert_eq!(commands[0], "config-power:42.5");
    assert_eq!(commands[1], "config-fq:101.1");
    assert_eq!(commands[8], "config-rds-pi:00AB");
}

#[test]
fn save_refuses_each_bad_field() {
    let mut form = sample_form();
    form.power_percent = "150".to_owned();
    assert_eq!(form.build_save_commands().unwrap_err(), "Power must be between 0 and 100, got 150");

    let mut form = sample_form();
    form.alarm_temp_c = "30".to_owned();
    assert_eq!(
        form.build_save_commands().unwrap_err(),
        "Alarm temperature must be between 40 and 100, got 30"
    );

    let mut form = sample_form();
    form.rds_ecc = "256".to_owned();
    assert_eq!(form.build_save_commands().unwrap_err(), "RDS ECC must be an integer, got `256`");

    let mut form = sample_form();
    form.rds_pty = "32".to_owned();
    assert_eq!(form.build_save_commands().unwrap_err(), "RDS PTY must be between 0 and 31, got 32");

    let mut form = sample_form();
    form.rds_ps = "ABCDEFGHI".to_owned();
    assert_eq!(form.build_save_commands().unwrap_err(), "RDS PS must be at most 8 bytes, got 9");

    let mut form = sample_form();
    form.rds_rt = "two\nlines".to_owned();
    assert_eq!(form.build_save_commands().unwrap_err(), "RDS RT cannot contain newline characters");

    let mut form = sample_form();
    form.frequency_mhz = "120".to_owned();
    assert_eq!(
        form.build_save_commands().unwrap_err(),
        "Frequency must be between 87.5 and 108, got 120"
    );

    let mut form = sample_form();
    form.audio_gain = 5;
    assert_eq!(form.build_save_commands().unwrap_err(), "Audio gain must be 0, 1, or 2, got 5");
}

#[test]
fn save_checks_power_before_later_fields() {
    let mut form = sample_form();
    form.power_percent = "x".to_owned();
    form.rds_ps = "ABCDEFGHI".to_owned();
    assert_eq!(form.build_save_commands().unwrap_err(), "Power must be numeric, got `x`");
}

#[test]
fn af_payload_accepts_separators_and_limits() {
    assert_eq!(build_afs_payload(" 99.5;101.20 , 104.7 ").unwrap(), "99.5 101.2 104.7");
    assert_eq!(build_afs_payload("  ,; ").unwrap(), "");
    let many = vec!["99.5"; 26].join(" ");
    assert_eq!(build_afs_payload(&many).unwrap_err(), "RDS AFs accepts at most 25 entries, got 26");
}

#[test]
fn af_errors_name_the_value() {
    assert_eq!(
        build_afs_payload("abc").unwrap_err(),
        "RDS AF `abc` is not a valid frequency"
    );
    assert_eq!(
        build_afs_payload("87.5").unwrap_err(),
        "RDS AF `87.5` must be between 87.6 and 107.9 MHz"
    );
    assert_eq!(
        build_afs_payload("99.55").unwrap_err(),
        "RDS AF `99.55` must use 0.1 MHz steps between 87.6 and 107.9"
    );
}

#[test]
fn af_tenths_of_values() {
    assert_eq!(parse_af_tenths(&chars(" 107.9 ")).unwrap(), 1079);
    assert_eq!(parse_af_tenths(&chars("87.6")).unwrap(), 876);
    assert_eq!(parse_af_tenths(&chars("99.50001")).unwrap(), 995);
}

#[test]
fn hex_reader_limits() {
    assert_eq!(parse_hex_u16(&chars("ffff")).unwrap(), 0xffff);
    assert_eq!(parse_hex_u16(&chars(" 0x0X12 ")).unwrap(), 0x12);
    assert!(parse_hex_u16(&chars("12345")).is_err());
    assert!(parse_hex_u16(&chars("")).is_err());
}

#[test]
fn bool_token_reads_first_word() {
    assert_eq!(parse_bool_token(&chars("1 (on)"), "RDS"), Ok(true));
    assert_eq!(parse_bool_token(&chars("0 (off)"), "RDS"), Ok(false));
    assert_eq!(
        parse_bool_token(&chars("on"), "RDS").unwrap_err(),
        "RDS must be an integer, got `on`"
    );
}

#[test]
fn text_checks_count_bytes() {
    assert_eq!(validate_text("héllo", "RDS PS", 8).unwrap(), "héllo");
    assert_eq!(
        validate_text("ééééé", "RDS PS", 8).unwrap_err(),
        "RDS PS must be at most 8 bytes, got 10"
    );
}

#[test]
fn normalizers_of_single_values() {
    assert_eq!(normalize_percent(&chars(" 100 %% ")).unwrap(), "100");
    assert_eq!(normalize_frequency(&chars("NOT SET")).unwrap(), "");
    assert_eq!(normalize_frequency(&chars("99.999 MHz")).unwrap(), "99.999");
    assert_eq!(normalize_alarm_temp(&chars("70 C")).unwrap(), "70");
    assert_eq!(normalize_alarm_temp(&chars("70.5 degrees")).unwrap(), "70.5");
    assert_eq!(normalize_afs_line(&chars(" not set ")), "");
    assert_eq!(normalize_afs_line(&chars("99.5 100.1")), "99.5, 100.1");
}

#[test]
fn segments_are_cut_and_trimmed() {
    let line = chars("A: 1 , B: 2");
    assert_eq!(segment_between(&line, "A:", ", B:").unwrap(), chars("1"));
    assert_eq!(segment_after(&line, "B:").unwrap(), chars("2"));
    assert_eq!(
        segment_after(&line, "C:").unwrap_err(),
        "device response is missing `C:`"
    );
    assert_eq!(
        segment_between(&line, "A:", "Z").unwrap_err(),
        "device response is missing `Z` after `A:`"
    );
}

#[test]
fn response_helpers() {
    assert_eq!(current_settings_block("xx Current settings:\nPower: 1%"), Some("Current settings:\nPower: 1%"));
    assert_eq!(current_settings_block("nothing"), None);
    assert_eq!(normalize_response_for_display("OK\nCurrent settings:\nA\n\n"), "Current settings:\nA");
    assert_eq!(normalize_response_for_display("  OK  \n"), "OK");
    assert_eq!(first_nonempty_line("\n  \n  ERR  \nmore"), Some("ERR"));
    assert_eq!(first_nonempty_line(" \n "), None);
    assert!(response_is_err("\nERR\n"));
    assert!(!response_is_err("ERROR"));
    assert!(!response_is_err(""));
}

#[test]
fn numbers_with_exponents_are_read_and_saved() {
    let form = DeviceForm::from_info_response(&report(&["Power: 1e1%", "Alarm temp: 8.2E1 C"])).unwrap();
    assert_eq!(form.power_percent, "10");
    assert_eq!(form.alarm_temp_c, "82");
    let mut form = DeviceForm::default();
    form.power_percent = "1e1".to_owned();
    form.rds_afs = "9.95e1".to_owned();
    let commands = form.build_save_commands().unwrap();
    assert_eq!(commands[0], "config-power:10");
    assert_eq!(commands[16], "config-rds-afs:99.5");
}
