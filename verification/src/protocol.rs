//! The text protocol of the transmitter: reading its `Current settings:`
//! report into a form, and turning a form into the commands that save it.
use vstd::prelude::*;

use crate::numbers::{
    decimal_in_range, decimal_in_range_exec, digit_char, digit_char_exec,
    digits_value, frac_digit, frac_digit_exec, hex4_upper, hex4_upper_exec, hex_value,
    hex_value_exec, is_hex_digit, is_hex_digit_exec, all_hex, lemma_number_text_digits,
    nat_string, nat_text, nat_text_exec, nonzero_from, nonzero_from_exec, number_text,
    parse_number, u8_in_range, parse_u8_range, whole_capped, NumberText, ParsedNumber,
    WHOLE_CAP,
};
use crate::text::{
    ws_sep, starts_with, strip_suffix, strip_suffix_exec, strip_all_suffix_char,
    strip_all_suffix_char_exec, eq_ignore_ascii_case, eq_ignore_ascii_case_exec,
    starts_with_exec, slice_chars, strip_prefix, strip_prefix_exec, trim_start, trim_start_chars,
    run_len, newline_sep, line_len_exec, trim_bounds,
    append_chars, append_str, chars_of, contains_char, contains_char_exec, err_view,
    first_word, first_token, find, find_exec, join, join_exec, list_sep, sep_of,
    split_once, split_once_exec, strip_all_prefixes, strip_all_prefixes_exec, string_of,
    text_result, trim, trim_chars, views, words, words_exec,
};

verus! {

pub const DEVICE_BAUD_RATE: u32 = 115_200;

pub const QUIET_TIMEOUT_MS: u64 = 350;

pub const STARTUP_DELAY_MS: u64 = 200;

/// Power in thousandths of a percent.
pub const POWER_MIN_MILLI: u64 = 0;

pub const POWER_MAX_MILLI: u64 = 100_000;

/// Frequency in thousandths of a MHz.
pub const FREQUENCY_MIN_MILLI: u64 = 87_500;

pub const FREQUENCY_MAX_MILLI: u64 = 108_000;

/// Alarm temperature in thousandths of a degree Celsius.
pub const ALARM_TEMP_MIN_MILLI: u64 = 40_000;

pub const ALARM_TEMP_MAX_MILLI: u64 = 100_000;

pub const RDS_PS_MAX_BYTES: usize = 8;

pub const RDS_RT_MAX_BYTES: usize = 64;

pub const RDS_AFS_MAX_COUNT: usize = 25;

pub const RDS_AF_MIN_TENTHS: i32 = 876;

pub const RDS_AF_MAX_TENTHS: i32 = 1_079;

/// The transmitter's settings as the user edits them.
#[derive(Clone, Debug, PartialEq, Eq)]
pub struct DeviceForm {
    pub power_percent: String,
    pub frequency_mhz: String,
    pub stereo_mode: bool,
    pub digital_audio_input: bool,
    pub audio_gain: u8,
    pub preemphasis_50us: bool,
    pub alarm_temp_c: String,
    pub rds_enabled: bool,
    pub rds_pi_hex: String,
    pub rds_ecc: String,
    pub rds_ps: String,
    pub rds_rt: String,
    pub rds_tp: bool,
    pub rds_ta: bool,
    pub rds_ms: bool,
    pub rds_di: String,
    pub rds_pty: String,
    pub rds_afs: String,
}

/// A `DeviceForm` with each text field taken by its characters.
pub struct FormModel {
    pub power_percent: Seq<char>,
    pub frequency_mhz: Seq<char>,
    pub stereo_mode: bool,
    pub digital_audio_input: bool,
    pub audio_gain: u8,
    pub preemphasis_50us: bool,
    pub alarm_temp_c: Seq<char>,
    pub rds_enabled: bool,
    pub rds_pi_hex: Seq<char>,
    pub rds_ecc: Seq<char>,
    pub rds_ps: Seq<char>,
    pub rds_rt: Seq<char>,
    pub rds_tp: bool,
    pub rds_ta: bool,
    pub rds_ms: bool,
    pub rds_di: Seq<char>,
    pub rds_pty: Seq<char>,
    pub rds_afs: Seq<char>,
}

impl View for DeviceForm {
    type V = FormModel;

    open spec fn view(&self) -> FormModel {
        FormModel {
            power_percent: self.power_percent@,
            frequency_mhz: self.frequency_mhz@,
            stereo_mode: self.stereo_mode,
            digital_audio_input: self.digital_audio_input,
            audio_gain: self.audio_gain,
            preemphasis_50us: self.preemphasis_50us,
            alarm_temp_c: self.alarm_temp_c@,
            rds_enabled: self.rds_enabled,
            rds_pi_hex: self.rds_pi_hex@,
            rds_ecc: self.rds_ecc@,
            rds_ps: self.rds_ps@,
            rds_rt: self.rds_rt@,
            rds_tp: self.rds_tp,
            rds_ta: self.rds_ta,
            rds_ms: self.rds_ms,
            rds_di: self.rds_di@,
            rds_pty: self.rds_pty@,
            rds_afs: self.rds_afs@,
        }
    }
}

/// The form before anything is read from the transmitter.
pub open spec fn default_form() -> FormModel {
    FormModel {
        power_percent: "0"@,
        frequency_mhz: seq![],
        stereo_mode: true,
        digital_audio_input: false,
        audio_gain: 1,
        preemphasis_50us: true,
        alarm_temp_c: "80"@,
        rds_enabled: false,
        rds_pi_hex: "0000"@,
        rds_ecc: "0"@,
        rds_ps: seq![],
        rds_rt: seq![],
        rds_tp: false,
        rds_ta: false,
        rds_ms: false,
        rds_di: "1"@,
        rds_pty: "0"@,
        rds_afs: seq![],
    }
}

impl Default for DeviceForm {
    fn default() -> (r: Self)
        ensures
            r@ == default_form(),
    {
        DeviceForm {
            power_percent: "0".to_owned(),
            frequency_mhz: String::new(),
            stereo_mode: true,
            digital_audio_input: false,
            audio_gain: 1,
            preemphasis_50us: true,
            alarm_temp_c: "80".to_owned(),
            rds_enabled: false,
            rds_pi_hex: "0000".to_owned(),
            rds_ecc: "0".to_owned(),
            rds_ps: String::new(),
            rds_rt: String::new(),
            rds_tp: false,
            rds_ta: false,
            rds_ms: false,
            rds_di: "1".to_owned(),
            rds_pty: "0".to_owned(),
            rds_afs: String::new(),
        }
    }
}

// ---------------------------------------------------------------------------
// Field readers.

/// Reads the program identification code: one to four hexadecimal digits,
/// after any leading `0x`, then any leading `0X`, are removed.
pub open spec fn hex_u16(raw: Seq<char>) -> Result<u16, Seq<char>> {
    let t = strip_all_prefixes(strip_all_prefixes(trim(raw), "0x"@), "0X"@);
    if t.len() == 0 || t.len() > 4 || !all_hex(t) {
        Err("RDS PI must be a 1 to 4 digit hexadecimal value, got `"@ + raw + "`"@)
    } else {
        Ok(hex_value(t) as u16)
    }
}

pub fn parse_hex_u16(raw: &[char]) -> (r: Result<u16, String>)
    ensures
        err_view(r) == hex_u16(raw@),
{
    let t0 = trim_chars(raw);
    let t1 = strip_all_prefixes_exec(&t0, &chars_of("0x"));
    let t = strip_all_prefixes_exec(&t1, &chars_of("0X"));
    let mut all: bool = true;
    let mut i: usize = 0;
    while i < t.len()
        invariant
            i <= t@.len(),
            all == (forall|j: int| 0 <= j < i ==> is_hex_digit(#[trigger] t@[j])),
        decreases t@.len() - i,
    {
        if !is_hex_digit_exec(t[i]) {
            all = false;
        }
        i = i + 1;
    }
    if t.len() == 0 || t.len() > 4 || !all {
        let mut m = chars_of("RDS PI must be a 1 to 4 digit hexadecimal value, got `");
        append_chars(&mut m, raw);
        append_str(&mut m, "`");
        Err(string_of(&m))
    } else {
        Ok(hex_value_exec(&t))
    }
}

/// Reads a flag written as `0` or `1`.
pub open spec fn bool_token(raw: Seq<char>, label: Seq<char>) -> Result<bool, Seq<char>> {
    match u8_in_range(first_word(raw), label, 0, 1) {
        Ok(v) => Ok(v == 1),
        Err(e) => Err(e),
    }
}

pub fn parse_bool_token(raw: &[char], label: &str) -> (r: Result<bool, String>)
    ensures
        err_view(r) == bool_token(raw@, label@),
{
    let token = first_token(raw);
    match parse_u8_range(&token, label, 0, 1) {
        Ok(v) => Ok(v == 1),
        Err(e) => Err(e),
    }
}

/// The digit that the protocol writes for a flag.
pub open spec fn flag_digit(value: bool) -> Seq<char> {
    nat_text(
        if value {
            1
        } else {
            0
        },
    )
}

pub fn bool_digit(value: bool) -> (r: u8)
    ensures
        r == (if value {
            1u8
        } else {
            0u8
        }),
{
    if value {
        1
    } else {
        0
    }
}

/// The trimmed text between the first `prefix` and the next `suffix`.
pub open spec fn between_markers(line: Seq<char>, prefix: Seq<char>, suffix: Seq<char>) -> Result<
    Seq<char>,
    Seq<char>,
> {
    match find(line, prefix) {
        None => Err("device response is missing `"@ + prefix + "`"@),
        Some(i) => match split_once(line.skip(i + prefix.len()), suffix) {
            None => Err(
                "device response is missing `"@ + suffix + "` after `"@ + prefix + "`"@,
            ),
            Some(parts) => Ok(trim(parts.0)),
        },
    }
}

/// The trimmed text after the first `prefix`.
pub open spec fn after_marker(line: Seq<char>, prefix: Seq<char>) -> Result<Seq<char>, Seq<char>> {
    match find(line, prefix) {
        None => Err("device response is missing `"@ + prefix + "`"@),
        Some(i) => Ok(trim(line.skip(i + prefix.len()))),
    }
}

fn missing_message(prefix: &[char]) -> (r: String)
    ensures
        r@ == "device response is missing `"@ + prefix@ + "`"@,
{
    let mut m = chars_of("device response is missing `");
    append_chars(&mut m, prefix);
    append_str(&mut m, "`");
    string_of(&m)
}

pub fn segment_between(line: &[char], prefix: &str, suffix: &str) -> (r: Result<
    Vec<char>,
    String,
>)
    ensures
        match r {
            Ok(v) => between_markers(line@, prefix@, suffix@) == Ok::<Seq<char>, Seq<char>>(v@),
            Err(e) => between_markers(line@, prefix@, suffix@) == Err::<Seq<char>, Seq<char>>(e@),
        },
{
    let p = chars_of(prefix);
    let s = chars_of(suffix);
    match find_exec(line, &p) {
        None => Err(missing_message(&p)),
        Some(i) => {
            let n = line.len();
            assert(i + p@.len() <= n);
            let after = crate::text::slice_chars(line, i + p.len(), n);
            assert(after@ =~= line@.skip(i + p@.len()));
            match split_once_exec(&after, &s) {
                None => {
                    let mut m = chars_of("device response is missing `");
                    append_chars(&mut m, &s);
                    append_str(&mut m, "` after `");
                    append_chars(&mut m, &p);
                    append_str(&mut m, "`");
                    Err(string_of(&m))
                },
                Some((seg, _rest)) => Ok(trim_chars(&seg)),
            }
        },
    }
}

pub fn segment_after(line: &[char], prefix: &str) -> (r: Result<Vec<char>, String>)
    ensures
        match r {
            Ok(v) => after_marker(line@, prefix@) == Ok::<Seq<char>, Seq<char>>(v@),
            Err(e) => after_marker(line@, prefix@) == Err::<Seq<char>, Seq<char>>(e@),
        },
{
    let p = chars_of(prefix);
    match find_exec(line, &p) {
        None => Err(missing_message(&p)),
        Some(i) => {
            let n = line.len();
            assert(i + p@.len() <= n);
            let after = crate::text::slice_chars(line, i + p.len(), n);
            assert(after@ =~= line@.skip(i + p@.len()));
            Ok(trim_chars(&after))
        },
    }
}

/// Checks a text setting: no line break, and at most `max_bytes` bytes in UTF-8.
pub open spec fn checked_text(raw: Seq<char>, label: Seq<char>, max_bytes: nat) -> Result<
    Seq<char>,
    Seq<char>,
> {
    if contains_char(raw, '\n') || contains_char(raw, '\r') {
        Err(label + " cannot contain newline characters"@)
    } else if vstd::utf8::encode_utf8(raw).len() > max_bytes {
        Err(
            label + " must be at most "@ + nat_text(max_bytes) + " bytes, got "@ + nat_text(
                vstd::utf8::encode_utf8(raw).len(),
            ),
        )
    } else {
        Ok(raw)
    }
}

pub fn validate_text(raw: &str, label: &str, max_bytes: usize) -> (r: Result<String, String>)
    ensures
        text_result(r) == checked_text(raw@, label@, max_bytes as nat),
{
    let v = chars_of(raw);
    if contains_char_exec(&v, '\n') || contains_char_exec(&v, '\r') {
        let mut m = chars_of(label);
        append_str(&mut m, " cannot contain newline characters");
        return Err(string_of(&m));
    }
    let bytes = raw.as_bytes().len();
    if bytes > max_bytes {
        let mut m = chars_of(label);
        append_str(&mut m, " must be at most ");
        append_chars(&mut m, &nat_text_exec(max_bytes as u64));
        append_str(&mut m, " bytes, got ");
        append_chars(&mut m, &nat_text_exec(bytes as u64));
        return Err(string_of(&m));
    }
    Ok(raw.to_owned())
}


// ---------------------------------------------------------------------------
// Alternative frequencies.

/// A finite magnitude times ten, rounded half away from zero.
pub open spec fn af_rounded_tenths(int_digits: Seq<char>, frac_digits: Seq<char>) -> nat {
    digits_value(int_digits) * 10 + frac_digit(frac_digits, 0) + (if frac_digit(frac_digits, 1)
        >= 5 {
        1nat
    } else {
        0nat
    })
}

/// Whether a finite value lies within 0.0001 MHz of a multiple of 0.1 MHz.
pub open spec fn af_on_step(frac_digits: Seq<char>) -> bool {
    let q = frac_digit(frac_digits, 1) * 100 + frac_digit(frac_digits, 2) * 10 + frac_digit(
        frac_digits,
        3,
    );
    q == 0 || (q == 1 && !nonzero_from(frac_digits, 4)) || q == 999
}

pub open spec fn af_not_number_message(value: Seq<char>) -> Seq<char> {
    "RDS AF `"@ + value + "` is not a valid frequency"@
}

pub open spec fn af_step_message(value: Seq<char>) -> Seq<char> {
    "RDS AF `"@ + value + "` must use 0.1 MHz steps between 87.6 and 107.9"@
}

pub open spec fn af_range_message(value: Seq<char>) -> Seq<char> {
    "RDS AF `"@ + value + "` must be between 87.6 and 107.9 MHz"@
}

/// Reads one alternative frequency (already trimmed) in tenths of a MHz.
/// A value whose tenths do not fit in an `i32` is off the 0.1 MHz grid; not
/// a number at all is outside the band.
pub open spec fn af_tenths(value: Seq<char>) -> Result<int, Seq<char>> {
    match number_text(value) {
        NumberText::Malformed => Err(af_not_number_message(value)),
        NumberText::Infinite { .. } => Err(af_step_message(value)),
        NumberText::NotANumber => Err(af_range_message(value)),
        NumberText::Finite { negative, int_digits, frac_digits } => {
            let r = af_rounded_tenths(int_digits, frac_digits);
            let limit: nat = if negative {
                2147483648
            } else {
                2147483647
            };
            if r > limit || !af_on_step(frac_digits) {
                Err(af_step_message(value))
            } else {
                let t: int = if negative {
                    -r
                } else {
                    r as int
                };
                if 876 <= t <= 1079 {
                    Ok(t)
                } else {
                    Err(af_range_message(value))
                }
            }
        },
    }
}

fn af_message(value: &[char], tail: &str) -> (r: String)
    ensures
        r@ == "RDS AF `"@ + value@ + tail@,
{
    let mut m = chars_of("RDS AF `");
    append_chars(&mut m, value);
    append_str(&mut m, tail);
    string_of(&m)
}

pub fn parse_af_tenths(raw: &[char]) -> (r: Result<i32, String>)
    ensures
        match r {
            Ok(t) => af_tenths(trim(raw@)) == Ok::<int, Seq<char>>(t as int),
            Err(e) => af_tenths(trim(raw@)) == Err::<int, Seq<char>>(e@),
        },
{
    let value = trim_chars(raw);
    let n = parse_number(&value);
    proof {
        lemma_number_text_digits(value@);
    }
    match n {
        ParsedNumber::Malformed => Err(af_message(&value, "` is not a valid frequency")),
        ParsedNumber::Infinite { .. } => Err(
            af_message(&value, "` must use 0.1 MHz steps between 87.6 and 107.9"),
        ),
        ParsedNumber::NotANumber => Err(af_message(&value, "` must be between 87.6 and 107.9 MHz")),
        ParsedNumber::Finite { negative, int_digits, frac_digits } => {
            let whole = whole_capped(&int_digits);
            if whole >= WHOLE_CAP {
                return Err(af_message(&value, "` must use 0.1 MHz steps between 87.6 and 107.9"));
            }
            let d0 = frac_digit_exec(&frac_digits, 0);
            let d1 = frac_digit_exec(&frac_digits, 1);
            let d2 = frac_digit_exec(&frac_digits, 2);
            let d3 = frac_digit_exec(&frac_digits, 3);
            let rounded: u64 = whole * 10 + d0 + (if d1 >= 5 {
                1u64
            } else {
                0u64
            });
            let limit: u64 = if negative {
                2147483648
            } else {
                2147483647
            };
            let q: u64 = d1 * 100 + d2 * 10 + d3;
            let on_step = q == 0 || (q == 1 && !nonzero_from_exec(&frac_digits, 4)) || q == 999;
            if rounded > limit || !on_step {
                return Err(af_message(&value, "` must use 0.1 MHz steps between 87.6 and 107.9"));
            }
            let t: i64 = if negative {
                -(rounded as i64)
            } else {
                rounded as i64
            };
            if 876 <= t && t <= 1079 {
                Ok(t as i32)
            } else {
                Err(af_message(&value, "` must be between 87.6 and 107.9 MHz"))
            }
        },
    }
}

/// An alternative frequency in tenths written as `{:.1}` MHz.
pub open spec fn af_text(t: int) -> Seq<char> {
    nat_text((t / 10) as nat) + seq!['.', digit_char((t % 10) as nat)]
}

fn af_text_exec(t: i32) -> (r: Vec<char>)
    requires
        0 <= t,
    ensures
        r@ == af_text(t as int),
{
    let mut r = nat_text_exec((t / 10) as u64);
    r.push('.');
    r.push(digit_char_exec((t % 10) as u64));
    r
}

/// The alternative frequencies written back one by one, or the first error.
pub open spec fn af_texts(tokens: Seq<Seq<char>>) -> Result<Seq<Seq<char>>, Seq<char>>
    decreases tokens.len(),
{
    if tokens.len() == 0 {
        Ok(seq![])
    } else {
        match af_tenths(trim(tokens[0])) {
            Err(e) => Err(e),
            Ok(t) => match af_texts(tokens.drop_first()) {
                Err(e) => Err(e),
                Ok(rest) => Ok(seq![af_text(t)] + rest),
            },
        }
    }
}

/// The list of alternative frequencies that the transmitter is sent: the
/// entries between whitespace, `,` and `;`, at most 25 of them, each on the
/// 0.1 MHz grid between 87.6 and 107.9 MHz, written with one decimal and
/// separated by single spaces.
pub open spec fn af_payload(raw: Seq<char>) -> Result<Seq<char>, Seq<char>> {
    let tokens = words(raw, list_sep());
    if tokens.len() == 0 {
        Ok(seq![])
    } else if tokens.len() > 25 {
        Err("RDS AFs accepts at most 25 entries, got "@ + nat_text(tokens.len()))
    } else {
        match af_texts(tokens) {
            Err(e) => Err(e),
            Ok(texts) => Ok(join(texts, seq![' '])),
        }
    }
}

pub open spec fn prepend_ok(done: Seq<Seq<char>>, r: Result<Seq<Seq<char>>, Seq<char>>) -> Result<
    Seq<Seq<char>>,
    Seq<char>,
> {
    match r {
        Ok(rest) => Ok(done + rest),
        Err(e) => Err(e),
    }
}

pub fn build_afs_payload(raw: &str) -> (r: Result<String, String>)
    ensures
        text_result(r) == af_payload(raw@),
{
    let v = chars_of(raw);
    let tokens = words_exec(&v, true);
    let ghost ts = views(tokens@);
    assert(sep_of(true) == list_sep());
    if tokens.len() == 0 {
        return Ok(String::new());
    }
    if tokens.len() > RDS_AFS_MAX_COUNT {
        let mut m = chars_of("RDS AFs accepts at most 25 entries, got ");
        append_chars(&mut m, &nat_text_exec(tokens.len() as u64));
        return Err(string_of(&m));
    }
    let mut texts: Vec<Vec<char>> = Vec::new();
    let mut i: usize = 0;
    assert(ts.skip(0) =~= ts);
    assert(prepend_ok(views(texts@), af_texts(ts)) == af_texts(ts)) by {
        assert(views(texts@) =~= Seq::<Seq<char>>::empty());
        match af_texts(ts) {
            Ok(rest) => {
                assert(Seq::<Seq<char>>::empty() + rest =~= rest);
            },
            Err(e) => {},
        }
    }
    while i < tokens.len()
        invariant
            i <= tokens@.len(),
            ts == views(tokens@),
            ts == words(raw@, list_sep()),
            0 < ts.len() <= 25,
            af_texts(ts) == prepend_ok(views(texts@), af_texts(ts.skip(i as int))),
        decreases tokens@.len() - i,
    {
        let ghost rest = ts.skip(i as int);
        assert(rest[0] == tokens@[i as int]@);
        assert(rest.drop_first() =~= ts.skip(i + 1));
        match parse_af_tenths(&tokens[i]) {
            Err(e) => {
                assert(af_texts(rest) == Err::<Seq<Seq<char>>, Seq<char>>(e@));
                assert(af_texts(ts) == Err::<Seq<Seq<char>>, Seq<char>>(e@));
                return Err(e);
            },
            Ok(t) => {
                let ghost before = views(texts@);
                texts.push(af_text_exec(t));
                proof {
                    assert(views(texts@) =~= before.push(af_text(t as int)));
                    match af_texts(ts.skip(i + 1)) {
                        Ok(later) => {
                            assert(before + (seq![af_text(t as int)] + later) =~= before.push(
                                af_text(t as int),
                            ) + later);
                        },
                        Err(e) => {},
                    }
                }
            },
        }
        i = i + 1;
    }
    assert(ts.skip(i as int) =~= Seq::<Seq<char>>::empty());
    assert(views(texts@) + Seq::<Seq<char>>::empty() =~= views(texts@));
    let mut space: Vec<char> = Vec::new();
    space.push(' ');
    assert(space@ =~= seq![' ']);
    let joined = join_exec(&texts, &space);
    Ok(string_of(&joined))
}


// ---------------------------------------------------------------------------
// The values of a `Current settings:` report.

/// `Power: 55%`: the percentage, written back without the sign.
pub open spec fn percent_text(value: Seq<char>) -> Result<Seq<char>, Seq<char>> {
    decimal_in_range(
        trim(strip_all_suffix_char(trim(value), '%')),
        "Power"@,
        POWER_MIN_MILLI as nat,
        POWER_MAX_MILLI as nat,
        "0"@,
        "100"@,
    )
}

pub fn normalize_percent(value: &[char]) -> (r: Result<String, String>)
    ensures
        text_result(r) == percent_text(value@),
{
    let t = trim_chars(value);
    let without_sign = strip_all_suffix_char_exec(&t, '%');
    let numeric = trim_chars(&without_sign);
    decimal_in_range_exec(&numeric, "Power", POWER_MIN_MILLI, POWER_MAX_MILLI, "0", "100")
}

/// `Frequency: 99.50 MHz` or `Frequency: not set`.
pub open spec fn frequency_text(value: Seq<char>) -> Result<Seq<char>, Seq<char>> {
    if eq_ignore_ascii_case(trim(value), "not set"@) {
        Ok(seq![])
    } else {
        let numeric = match split_once(value, "MHz"@) {
            Some(parts) => trim(parts.0),
            None => first_word(value),
        };
        decimal_in_range(
            numeric,
            "Frequency"@,
            FREQUENCY_MIN_MILLI as nat,
            FREQUENCY_MAX_MILLI as nat,
            "87.5"@,
            "108"@,
        )
    }
}

pub fn normalize_frequency(value: &[char]) -> (r: Result<String, String>)
    ensures
        text_result(r) == frequency_text(value@),
{
    let t = trim_chars(value);
    if eq_ignore_ascii_case_exec(&t, &chars_of("not set")) {
        return Ok(String::new());
    }
    let numeric = match split_once_exec(value, &chars_of("MHz")) {
        Some((before, _after)) => trim_chars(&before),
        None => first_token(value),
    };
    decimal_in_range_exec(
        &numeric,
        "Frequency",
        FREQUENCY_MIN_MILLI,
        FREQUENCY_MAX_MILLI,
        "87.5",
        "108",
    )
}

/// `Alarm temp: 82 C`.
pub open spec fn alarm_temp_text(value: Seq<char>) -> Result<Seq<char>, Seq<char>> {
    let numeric = match strip_suffix(value, seq!['C']) {
        Some(p) => trim(p),
        None => first_word(value),
    };
    decimal_in_range(
        numeric,
        "Alarm temperature"@,
        ALARM_TEMP_MIN_MILLI as nat,
        ALARM_TEMP_MAX_MILLI as nat,
        "40"@,
        "100"@,
    )
}

pub fn normalize_alarm_temp(value: &[char]) -> (r: Result<String, String>)
    ensures
        text_result(r) == alarm_temp_text(value@),
{
    let mut c: Vec<char> = Vec::new();
    c.push('C');
    assert(c@ =~= seq!['C']);
    let numeric = match strip_suffix_exec(value, &c) {
        Some(p) => trim_chars(&p),
        None => first_token(value),
    };
    decimal_in_range_exec(
        &numeric,
        "Alarm temperature",
        ALARM_TEMP_MIN_MILLI,
        ALARM_TEMP_MAX_MILLI,
        "40",
        "100",
    )
}

/// `AFs: 99.5 100.1 101.3 MHz` or `AFs: not set`: the frequencies joined
/// with `, `.
pub open spec fn afs_line_text(value: Seq<char>) -> Seq<char> {
    if eq_ignore_ascii_case(trim(value), "not set"@) {
        seq![]
    } else {
        let without_unit = match strip_suffix(value, "MHz"@) {
            Some(p) => trim(p),
            None => trim(value),
        };
        join(words(without_unit, ws_sep()), ", "@)
    }
}

pub fn normalize_afs_line(value: &[char]) -> (r: String)
    ensures
        r@ == afs_line_text(value@),
{
    let t = trim_chars(value);
    if eq_ignore_ascii_case_exec(&t, &chars_of("not set")) {
        return String::new();
    }
    let without_unit = match strip_suffix_exec(value, &chars_of("MHz")) {
        Some(p) => trim_chars(&p),
        None => t,
    };
    let ws = words_exec(&without_unit, false);
    assert(sep_of(false) == ws_sep());
    let joined = join_exec(&ws, &chars_of(", "));
    string_of(&joined)
}

/// `Stereo: 1 (stereo), Input: 0 (analog), Gain: 2, Preemphasis: 1 (50 uS)`.
pub open spec fn audio_line(form: FormModel, line: Seq<char>) -> Result<FormModel, Seq<char>> {
    match between_markers(line, "Stereo: "@, ", Input: "@) {
        Err(e) => Err(e),
        Ok(stereo) => match between_markers(line, ", Input: "@, ", Gain: "@) {
            Err(e) => Err(e),
            Ok(input) => match between_markers(line, ", Gain: "@, ", Preemphasis: "@) {
                Err(e) => Err(e),
                Ok(gain) => match after_marker(line, ", Preemphasis: "@) {
                    Err(e) => Err(e),
                    Ok(pre) => match bool_token(stereo, "Stereo"@) {
                        Err(e) => Err(e),
                        Ok(s) => match bool_token(input, "Audio input"@) {
                            Err(e) => Err(e),
                            Ok(i) => match u8_in_range(first_word(gain), "Audio gain"@, 0, 2) {
                                Err(e) => Err(e),
                                Ok(g) => match bool_token(pre, "Preemphasis"@) {
                                    Err(e) => Err(e),
                                    Ok(p) => Ok(
                                        FormModel {
                                            stereo_mode: s,
                                            digital_audio_input: i,
                                            audio_gain: g,
                                            preemphasis_50us: p,
                                            ..form
                                        },
                                    ),
                                },
                            },
                        },
                    },
                },
            },
        },
    }
}

pub fn parse_audio_line(line: &[char], form: &mut DeviceForm) -> (r: Result<(), String>)
    ensures
        match r {
            Ok(_) => audio_line(old(form)@, line@) == Ok::<FormModel, Seq<char>>(final(form)@),
            Err(e) => audio_line(old(form)@, line@) == Err::<FormModel, Seq<char>>(e@),
        },
{
    let stereo = match segment_between(line, "Stereo: ", ", Input: ") {
        Ok(v) => v,
        Err(e) => return Err(e),
    };
    let input = match segment_between(line, ", Input: ", ", Gain: ") {
        Ok(v) => v,
        Err(e) => return Err(e),
    };
    let gain = match segment_between(line, ", Gain: ", ", Preemphasis: ") {
        Ok(v) => v,
        Err(e) => return Err(e),
    };
    let pre = match segment_after(line, ", Preemphasis: ") {
        Ok(v) => v,
        Err(e) => return Err(e),
    };
    let s = match parse_bool_token(&stereo, "Stereo") {
        Ok(v) => v,
        Err(e) => return Err(e),
    };
    let i = match parse_bool_token(&input, "Audio input") {
        Ok(v) => v,
        Err(e) => return Err(e),
    };
    let g = match parse_u8_range(&first_token(&gain), "Audio gain", 0, 2) {
        Ok(v) => v,
        Err(e) => return Err(e),
    };
    let p = match parse_bool_token(&pre, "Preemphasis") {
        Ok(v) => v,
        Err(e) => return Err(e),
    };
    form.stereo_mode = s;
    form.digital_audio_input = i;
    form.audio_gain = g;
    form.preemphasis_50us = p;
    Ok(())
}


/// `RDS: 1 (on), TP: 0 (off), TA: 1 (on), MS: 1 (music), DI: 7, PTY: 10`.
pub open spec fn rds_flags_line(form: FormModel, line: Seq<char>) -> Result<FormModel, Seq<char>> {
    match between_markers(line, "RDS: "@, ", TP: "@) {
        Err(e) => Err(e),
        Ok(rds) => match between_markers(line, ", TP: "@, ", TA: "@) {
            Err(e) => Err(e),
            Ok(tp) => match between_markers(line, ", TA: "@, ", MS: "@) {
                Err(e) => Err(e),
                Ok(ta) => match between_markers(line, ", MS: "@, ", DI: "@) {
                    Err(e) => Err(e),
                    Ok(ms) => match between_markers(line, ", DI: "@, ", PTY: "@) {
                        Err(e) => Err(e),
                        Ok(di) => match after_marker(line, ", PTY: "@) {
                            Err(e) => Err(e),
                            Ok(pty) => rds_flag_values(form, rds, tp, ta, ms, di, pty),
                        },
                    },
                },
            },
        },
    }
}

/// The values of the RDS flags line, once its pieces are cut out.
pub open spec fn rds_flag_values(
    form: FormModel,
    rds: Seq<char>,
    tp: Seq<char>,
    ta: Seq<char>,
    ms: Seq<char>,
    di: Seq<char>,
    pty: Seq<char>,
) -> Result<FormModel, Seq<char>> {
    match bool_token(rds, "RDS"@) {
        Err(e) => Err(e),
        Ok(r) => match bool_token(tp, "RDS TP"@) {
            Err(e) => Err(e),
            Ok(p) => match bool_token(ta, "RDS TA"@) {
                Err(e) => Err(e),
                Ok(a) => match bool_token(ms, "RDS MS"@) {
                    Err(e) => Err(e),
                    Ok(m) => match u8_in_range(first_word(di), "RDS DI"@, 0, 15) {
                        Err(e) => Err(e),
                        Ok(d) => match u8_in_range(first_word(pty), "RDS PTY"@, 0, 31) {
                            Err(e) => Err(e),
                            Ok(t) => Ok(
                                FormModel {
                                    rds_enabled: r,
                                    rds_tp: p,
                                    rds_ta: a,
                                    rds_ms: m,
                                    rds_di: nat_text(d as nat),
                                    rds_pty: nat_text(t as nat),
                                    ..form
                                },
                            ),
                        },
                    },
                },
            },
        },
    }
}

pub fn parse_rds_flags_line(line: &[char], form: &mut DeviceForm) -> (r: Result<(), String>)
    ensures
        match r {
            Ok(_) => rds_flags_line(old(form)@, line@) == Ok::<FormModel, Seq<char>>(final(form)@),
            Err(e) => rds_flags_line(old(form)@, line@) == Err::<FormModel, Seq<char>>(e@),
        },
{
    let rds = match segment_between(line, "RDS: ", ", TP: ") {
        Ok(v) => v,
        Err(e) => return Err(e),
    };
    let tp = match segment_between(line, ", TP: ", ", TA: ") {
        Ok(v) => v,
        Err(e) => return Err(e),
    };
    let ta = match segment_between(line, ", TA: ", ", MS: ") {
        Ok(v) => v,
        Err(e) => return Err(e),
    };
    let ms = match segment_between(line, ", MS: ", ", DI: ") {
        Ok(v) => v,
        Err(e) => return Err(e),
    };
    let di = match segment_between(line, ", DI: ", ", PTY: ") {
        Ok(v) => v,
        Err(e) => return Err(e),
    };
    let pty = match segment_after(line, ", PTY: ") {
        Ok(v) => v,
        Err(e) => return Err(e),
    };
    let r = match parse_bool_token(&rds, "RDS") {
        Ok(v) => v,
        Err(e) => return Err(e),
    };
    let p = match parse_bool_token(&tp, "RDS TP") {
        Ok(v) => v,
        Err(e) => return Err(e),
    };
    let a = match parse_bool_token(&ta, "RDS TA") {
        Ok(v) => v,
        Err(e) => return Err(e),
    };
    let m = match parse_bool_token(&ms, "RDS MS") {
        Ok(v) => v,
        Err(e) => return Err(e),
    };
    let d = match parse_u8_range(&first_token(&di), "RDS DI", 0, 15) {
        Ok(v) => v,
        Err(e) => return Err(e),
    };
    let t = match parse_u8_range(&first_token(&pty), "RDS PTY", 0, 31) {
        Ok(v) => v,
        Err(e) => return Err(e),
    };
    form.rds_enabled = r;
    form.rds_tp = p;
    form.rds_ta = a;
    form.rds_ms = m;
    form.rds_di = nat_string(d as u64);
    form.rds_pty = nat_string(t as u64);
    Ok(())
}

/// `PI: 1a2b (hex), ECC: 12, PS: STMAX`.
pub open spec fn pi_line(form: FormModel, line: Seq<char>) -> Result<FormModel, Seq<char>> {
    match strip_prefix(line, "PI: "@) {
        None => Err("device response is missing `PI: `"@),
        Some(after) => match split_once(after, ", ECC: "@) {
            None => Err("device response is missing `, ECC: ` after `PI: `"@),
            Some(parts) => {
                let pi = parts.0;
                let remainder = parts.1;
                let ecc = match split_once(remainder, ", PS:"@) {
                    Some(q) => q.0,
                    None => remainder,
                };
                let ps = match split_once(remainder, ", PS:"@) {
                    Some(q) => trim_start(q.1),
                    None => seq![],
                };
                match hex_u16(first_word(pi)) {
                    Err(e) => Err(e),
                    Ok(v) => match u8_in_range(first_word(ecc), "RDS ECC"@, 0, 255) {
                        Err(e) => Err(e),
                        Ok(c) => Ok(
                            FormModel {
                                rds_pi_hex: hex4_upper(v),
                                rds_ecc: nat_text(c as nat),
                                rds_ps: ps,
                                ..form
                            },
                        ),
                    },
                }
            },
        },
    }
}

pub fn parse_pi_line(line: &[char], form: &mut DeviceForm) -> (r: Result<(), String>)
    ensures
        match r {
            Ok(_) => pi_line(old(form)@, line@) == Ok::<FormModel, Seq<char>>(final(form)@),
            Err(e) => pi_line(old(form)@, line@) == Err::<FormModel, Seq<char>>(e@),
        },
{
    let after = match strip_prefix_exec(line, &chars_of("PI: ")) {
        Some(v) => v,
        None => return Err(string_of(&chars_of("device response is missing `PI: `"))),
    };
    let (pi, remainder) = match split_once_exec(&after, &chars_of(", ECC: ")) {
        Some(parts) => parts,
        None => return Err(
            string_of(&chars_of("device response is missing `, ECC: ` after `PI: `")),
        ),
    };
    let (ecc, ps) = match split_once_exec(&remainder, &chars_of(", PS:")) {
        Some((e, p)) => (e, trim_start_chars(&p)),
        None => (remainder, Vec::new()),
    };
    let v = match parse_hex_u16(&first_token(&pi)) {
        Ok(v) => v,
        Err(e) => return Err(e),
    };
    let c = match parse_u8_range(&first_token(&ecc), "RDS ECC", 0, 255) {
        Ok(v) => v,
        Err(e) => return Err(e),
    };
    form.rds_pi_hex = string_of(&hex4_upper_exec(v));
    form.rds_ecc = nat_string(c as u64);
    form.rds_ps = string_of(&ps);
    Ok(())
}

/// One trimmed line of the report applied to the form.
pub open spec fn apply_line(form: FormModel, line: Seq<char>) -> Result<FormModel, Seq<char>> {
    if line.len() == 0 || line == "Current settings:"@ {
        Ok(form)
    } else if starts_with(line, "Power: "@) {
        match percent_text(line.skip("Power: "@.len() as int)) {
            Ok(t) => Ok(FormModel { power_percent: t, ..form }),
            Err(e) => Err(e),
        }
    } else if starts_with(line, "Frequency: "@) {
        match frequency_text(line.skip("Frequency: "@.len() as int)) {
            Ok(t) => Ok(FormModel { frequency_mhz: t, ..form }),
            Err(e) => Err(e),
        }
    } else if starts_with(line, "Stereo: "@) {
        audio_line(form, line)
    } else if starts_with(line, "Alarm temp: "@) {
        match alarm_temp_text(line.skip("Alarm temp: "@.len() as int)) {
            Ok(t) => Ok(FormModel { alarm_temp_c: t, ..form }),
            Err(e) => Err(e),
        }
    } else if starts_with(line, "RDS: "@) {
        rds_flags_line(form, line)
    } else if starts_with(line, "PI: "@) {
        pi_line(form, line)
    } else if starts_with(line, "RT: "@) {
        Ok(FormModel { rds_rt: line.skip("RT: "@.len() as int), ..form })
    } else if starts_with(line, "AFs: "@) {
        Ok(FormModel { rds_afs: afs_line_text(line.skip("AFs: "@.len() as int)), ..form })
    } else {
        Ok(form)
    }
}

pub fn apply_line_exec(line: &[char], form: &mut DeviceForm) -> (r: Result<(), String>)
    ensures
        match r {
            Ok(_) => apply_line(old(form)@, line@) == Ok::<FormModel, Seq<char>>(final(form)@),
            Err(e) => apply_line(old(form)@, line@) == Err::<FormModel, Seq<char>>(e@),
        },
{
    let header = chars_of("Current settings:");
    if line.len() == 0 || (line.len() == header.len() && starts_with_exec(line, &header)) {
        proof {
            if line@.len() == header@.len() && starts_with(line@, header@) {
                assert(line@.take(header@.len() as int) =~= line@);
            }
        }
        return Ok(());
    }
    proof {
        if line@ == header@ {
            assert(line@.take(header@.len() as int) =~= line@);
        }
    }
    if let Some(value) = strip_prefix_exec(line, &chars_of("Power: ")) {
        match normalize_percent(&value) {
            Ok(t) => {
                form.power_percent = t;
                return Ok(());
            },
            Err(e) => return Err(e),
        }
    }
    if let Some(value) = strip_prefix_exec(line, &chars_of("Frequency: ")) {
        match normalize_frequency(&value) {
            Ok(t) => {
                form.frequency_mhz = t;
                return Ok(());
            },
            Err(e) => return Err(e),
        }
    }
    if starts_with_exec(line, &chars_of("Stereo: ")) {
        return parse_audio_line(line, form);
    }
    if let Some(value) = strip_prefix_exec(line, &chars_of("Alarm temp: ")) {
        match normalize_alarm_temp(&value) {
            Ok(t) => {
                form.alarm_temp_c = t;
                return Ok(());
            },
            Err(e) => return Err(e),
        }
    }
    if starts_with_exec(line, &chars_of("RDS: ")) {
        return parse_rds_flags_line(line, form);
    }
    if starts_with_exec(line, &chars_of("PI: ")) {
        return parse_pi_line(line, form);
    }
    if let Some(value) = strip_prefix_exec(line, &chars_of("RT: ")) {
        form.rds_rt = string_of(&value);
        return Ok(());
    }
    if let Some(value) = strip_prefix_exec(line, &chars_of("AFs: ")) {
        form.rds_afs = normalize_afs_line(&value);
    }
    Ok(())
}

/// The lines of `s` applied to the form in turn; each line is trimmed.
pub open spec fn apply_lines(form: FormModel, s: Seq<char>) -> Result<FormModel, Seq<char>>
    decreases s.len(),
{
    let n = run_len(s, newline_sep());
    match apply_line(form, trim(s.take(n as int))) {
        Err(e) => Err(e),
        Ok(f) => if n < s.len() {
            apply_lines(f, s.skip(n + 1int))
        } else {
            Ok(f)
        },
    }
}

/// The report from the `Current settings:` marker on.
pub open spec fn settings_block(response: Seq<char>) -> Option<Seq<char>> {
    match find(response, "Current settings:"@) {
        Some(i) => Some(response.skip(i)),
        None => None,
    }
}

/// The form that a report describes, or the message of the first error.
pub open spec fn form_from_response(response: Seq<char>) -> Result<FormModel, Seq<char>> {
    match settings_block(response) {
        None => Err("device response did not include a `Current settings:` block"@),
        Some(block) => apply_lines(default_form(), block),
    }
}

impl DeviceForm {
    /// Reads the form from the transmitter's answer to `?`.
    pub fn from_info_response(response: &str) -> (r: Result<Self, String>)
        ensures
            match r {
                Ok(f) => form_from_response(response@) == Ok::<FormModel, Seq<char>>(f@),
                Err(e) => form_from_response(response@) == Err::<FormModel, Seq<char>>(e@),
            },
    {
        let text = chars_of(response);
        let idx = match find_exec(&text, &chars_of("Current settings:")) {
            Some(i) => i,
            None => {
                return Err(
                    string_of(
                        &chars_of("device response did not include a `Current settings:` block"),
                    ),
                );
            },
        };
        let block = slice_chars(&text, idx, text.len());
        assert(block@ =~= text@.skip(idx as int));
        let mut form = DeviceForm::default();
        let mut pos: usize = 0;
        let blen = block.len();
        assert(block@.skip(0) =~= block@);
        loop
            invariant
                pos <= block@.len(),
                blen == block@.len(),
                form_from_response(response@) == apply_lines(form@, block@.skip(pos as int)),
            decreases block@.len() - pos,
        {
            let ghost rest = block@.skip(pos as int);
            let n = line_len_exec(&block, pos);
            let (a, b) = trim_bounds(&block, pos, pos + n);
            let line = slice_chars(&block, a, b);
            assert(rest.take(n as int) =~= block@.subrange(pos as int, pos + n));
            match apply_line_exec(&line, &mut form) {
                Ok(_) => {},
                Err(e) => return Err(e),
            }
            if pos + n < block.len() {
                assert(rest.skip(n + 1) =~= block@.skip(pos + n + 1));
                pos = pos + n + 1;
            } else {
                return Ok(form);
            }
        }
    }
}


// ---------------------------------------------------------------------------
// Saving a form.

pub open spec fn string_views(v: Seq<String>) -> Seq<Seq<char>> {
    v.map_values(|s: String| s@)
}

/// The frequency command: none when the field is blank.
pub open spec fn frequency_commands(field: Seq<char>) -> Result<Seq<Seq<char>>, Seq<char>> {
    let t = trim(field);
    if t.len() == 0 {
        Ok(seq![])
    } else {
        match decimal_in_range(
            t,
            "Frequency"@,
            FREQUENCY_MIN_MILLI as nat,
            FREQUENCY_MAX_MILLI as nat,
            "87.5"@,
            "108"@,
        ) {
            Ok(v) => Ok(seq!["config-fq:"@ + v]),
            Err(e) => Err(e),
        }
    }
}

/// The commands that save a checked form, in the order they are sent.
pub open spec fn command_list(
    f: FormModel,
    power: Seq<char>,
    frequency: Seq<Seq<char>>,
    alarm: Seq<char>,
    pi: u16,
    ecc: u8,
    ps: Seq<char>,
    rt: Seq<char>,
    di: u8,
    pty: u8,
    afs: Seq<char>,
) -> Seq<Seq<char>> {
    seq!["config-power:"@ + power] + frequency + seq![
        "config-audio-stereo:"@ + flag_digit(f.stereo_mode),
        "config-audio-input:"@ + flag_digit(f.digital_audio_input),
        "config-audio-gain:"@ + nat_text(f.audio_gain as nat),
        "config-audio-pre:"@ + flag_digit(f.preemphasis_50us),
        "config-alarm-temp:"@ + alarm,
        "config-rds:"@ + flag_digit(f.rds_enabled),
        "config-rds-pi:"@ + hex4_upper(pi),
        "config-rds-ecc:"@ + nat_text(ecc as nat),
        "config-rds-ps:"@ + ps,
        "config-rds-rt:"@ + rt,
        "config-rds-tp:"@ + flag_digit(f.rds_tp),
        "config-rds-ta:"@ + flag_digit(f.rds_ta),
        "config-rds-ms:"@ + flag_digit(f.rds_ms),
        "config-rds-di:"@ + nat_text(di as nat),
        "config-rds-pty:"@ + nat_text(pty as nat),
        "config-rds-afs:"@ + afs,
        "config-save"@,
    ]
}

/// The commands that save the form, or the message of the first field that
/// fails its check: power, alarm temperature, PI, ECC, DI, PTY, PS, RT, the
/// alternative frequencies, then the frequency and the audio gain.
pub open spec fn save_commands(f: FormModel) -> Result<Seq<Seq<char>>, Seq<char>> {
    match decimal_in_range(
        f.power_percent,
        "Power"@,
        POWER_MIN_MILLI as nat,
        POWER_MAX_MILLI as nat,
        "0"@,
        "100"@,
    ) {
        Err(e) => Err(e),
        Ok(power) => match decimal_in_range(
            f.alarm_temp_c,
            "Alarm temperature"@,
            ALARM_TEMP_MIN_MILLI as nat,
            ALARM_TEMP_MAX_MILLI as nat,
            "40"@,
            "100"@,
        ) {
            Err(e) => Err(e),
            Ok(alarm) => match hex_u16(f.rds_pi_hex) {
                Err(e) => Err(e),
                Ok(pi) => match u8_in_range(f.rds_ecc, "RDS ECC"@, 0, 255) {
                    Err(e) => Err(e),
                    Ok(ecc) => match u8_in_range(f.rds_di, "RDS DI"@, 0, 15) {
                        Err(e) => Err(e),
                        Ok(di) => match u8_in_range(f.rds_pty, "RDS PTY"@, 0, 31) {
                            Err(e) => Err(e),
                            Ok(pty) => match checked_text(f.rds_ps, "RDS PS"@, 8) {
                                Err(e) => Err(e),
                                Ok(ps) => match checked_text(f.rds_rt, "RDS RT"@, 64) {
                                    Err(e) => Err(e),
                                    Ok(rt) => match af_payload(f.rds_afs) {
                                        Err(e) => Err(e),
                                        Ok(afs) => match frequency_commands(f.frequency_mhz) {
                                            Err(e) => Err(e),
                                            Ok(fq) => if f.audio_gain > 2 {
                                                Err(
                                                    "Audio gain must be 0, 1, or 2, got "@
                                                        + nat_text(f.audio_gain as nat),
                                                )
                                            } else {
                                                Ok(
                                                    command_list(
                                                        f,
                                                        power,
                                                        fq,
                                                        alarm,
                                                        pi,
                                                        ecc,
                                                        ps,
                                                        rt,
                                                        di,
                                                        pty,
                                                        afs,
                                                    ),
                                                )
                                            },
                                        },
                                    },
                                },
                            },
                        },
                    },
                },
            },
        },
    }
}

fn command(prefix: &str, value: &[char]) -> (r: String)
    ensures
        r@ == prefix@ + value@,
{
    let mut m = chars_of(prefix);
    append_chars(&mut m, value);
    string_of(&m)
}

fn push_command(commands: &mut Vec<String>, prefix: &str, value: &[char])
    ensures
        string_views(final(commands)@) == string_views(old(commands)@).push(prefix@ + value@),
{
    let c = command(prefix, value);
    commands.push(c);
    assert(string_views(commands@) =~= string_views(old(commands)@).push(prefix@ + value@));
}

/// The audio and alarm commands of `command_list`.
pub open spec fn audio_commands(f: FormModel, alarm: Seq<char>) -> Seq<Seq<char>> {
    seq![
        "config-audio-stereo:"@ + flag_digit(f.stereo_mode),
        "config-audio-input:"@ + flag_digit(f.digital_audio_input),
        "config-audio-gain:"@ + nat_text(f.audio_gain as nat),
        "config-audio-pre:"@ + flag_digit(f.preemphasis_50us),
        "config-alarm-temp:"@ + alarm,
    ]
}

/// The RDS commands of `command_list`, with `config-save` at the end.
pub open spec fn rds_commands(
    f: FormModel,
    pi: u16,
    ecc: u8,
    ps: Seq<char>,
    rt: Seq<char>,
    di: u8,
    pty: u8,
    afs: Seq<char>,
) -> Seq<Seq<char>> {
    seq![
        "config-rds:"@ + flag_digit(f.rds_enabled),
        "config-rds-pi:"@ + hex4_upper(pi),
        "config-rds-ecc:"@ + nat_text(ecc as nat),
        "config-rds-ps:"@ + ps,
        "config-rds-rt:"@ + rt,
        "config-rds-tp:"@ + flag_digit(f.rds_tp),
        "config-rds-ta:"@ + flag_digit(f.rds_ta),
        "config-rds-ms:"@ + flag_digit(f.rds_ms),
        "config-rds-di:"@ + nat_text(di as nat),
        "config-rds-pty:"@ + nat_text(pty as nat),
        "config-rds-afs:"@ + afs,
        "config-save"@,
    ]
}

fn flag_text(value: bool) -> (r: Vec<char>)
    ensures
        r@ == flag_digit(value),
{
    nat_text_exec(bool_digit(value) as u64)
}

fn push_audio_commands(commands: &mut Vec<String>, f: &DeviceForm, alarm: &String)
    ensures
        string_views(final(commands)@) == string_views(old(commands)@) + audio_commands(f@, alarm@),
{
    let ghost start = string_views(commands@);
    push_command(commands, "config-audio-stereo:", &flag_text(f.stereo_mode));
    push_command(commands, "config-audio-input:", &flag_text(f.digital_audio_input));
    push_command(commands, "config-audio-gain:", &nat_text_exec(f.audio_gain as u64));
    push_command(commands, "config-audio-pre:", &flag_text(f.preemphasis_50us));
    push_command(commands, "config-alarm-temp:", &chars_of(alarm.as_str()));
    assert(string_views(commands@) =~= start + audio_commands(f@, alarm@));
}

fn push_rds_flag_commands(commands: &mut Vec<String>, f: &DeviceForm, pi: u16, ecc: u8, ps: &String, rt: &String)
    ensures
        string_views(final(commands)@) == string_views(old(commands)@) + rds_commands(
            f@,
            pi,
            ecc,
            ps@,
            rt@,
            0,
            0,
            seq![],
        ).take(5),
{
    let ghost start = string_views(commands@);
    push_command(commands, "config-rds:", &flag_text(f.rds_enabled));
    push_command(commands, "config-rds-pi:", &hex4_upper_exec(pi));
    push_command(commands, "config-rds-ecc:", &nat_text_exec(ecc as u64));
    push_command(commands, "config-rds-ps:", &chars_of(ps.as_str()));
    push_command(commands, "config-rds-rt:", &chars_of(rt.as_str()));
    assert(string_views(commands@) =~= start + rds_commands(f@, pi, ecc, ps@, rt@, 0, 0, seq![]).take(5));
}

fn push_rds_tail_commands(commands: &mut Vec<String>, f: &DeviceForm, di: u8, pty: u8, afs: &String)
    ensures
        string_views(final(commands)@) == string_views(old(commands)@) + rds_commands(
            f@,
            0,
            0,
            seq![],
            seq![],
            di,
            pty,
            afs@,
        ).skip(5),
{
    let ghost start = string_views(commands@);
    push_command(commands, "config-rds-tp:", &flag_text(f.rds_tp));
    push_command(commands, "config-rds-ta:", &flag_text(f.rds_ta));
    push_command(commands, "config-rds-ms:", &flag_text(f.rds_ms));
    push_command(commands, "config-rds-di:", &nat_text_exec(di as u64));
    push_command(commands, "config-rds-pty:", &nat_text_exec(pty as u64));
    push_command(commands, "config-rds-afs:", &chars_of(afs.as_str()));
    let save = string_of(&chars_of("config-save"));
    let ghost before_save = commands@;
    commands.push(save);
    assert(string_views(commands@) =~= string_views(before_save).push("config-save"@));
    assert(string_views(commands@) =~= start + rds_commands(f@, 0, 0, seq![], seq![], di, pty, afs@).skip(5));
}

/// The commands that save a checked form.
fn assemble_commands(
    f: &DeviceForm,
    power: &String,
    frequency: Vec<String>,
    alarm: &String,
    pi: u16,
    ecc: u8,
    ps: &String,
    rt: &String,
    di: u8,
    pty: u8,
    afs: &String,
) -> (r: Vec<String>)
    ensures
        string_views(r@) == command_list(
            f@,
            power@,
            string_views(frequency@),
            alarm@,
            pi,
            ecc,
            ps@,
            rt@,
            di,
            pty,
            afs@,
        ),
{
    let mut commands: Vec<String> = Vec::new();
    push_command(&mut commands, "config-power:", &chars_of(power.as_str()));
    let mut rest = frequency;
    let ghost fq = string_views(rest@);
    let ghost head = string_views(commands@);
    commands.append(&mut rest);
    assert(string_views(commands@) =~= head + fq);
    push_audio_commands(&mut commands, f, alarm);
    push_rds_flag_commands(&mut commands, f, pi, ecc, ps, rt);
    push_rds_tail_commands(&mut commands, f, di, pty, afs);
    proof {
        let rds = rds_commands(f@, pi, ecc, ps@, rt@, di, pty, afs@);
        assert(rds_commands(f@, pi, ecc, ps@, rt@, 0, 0, seq![]).take(5) =~= rds.take(5));
        assert(rds_commands(f@, 0, 0, seq![], seq![], di, pty, afs@).skip(5) =~= rds.skip(5));
        assert(rds.take(5) + rds.skip(5) =~= rds);
        assert(string_views(commands@) =~= command_list(
            f@,
            power@,
            fq,
            alarm@,
            pi,
            ecc,
            ps@,
            rt@,
            di,
            pty,
            afs@,
        ));
    }
    commands
}

impl DeviceForm {
    /// The commands that save this form on the transmitter, ending with `config-save`.
    pub fn build_save_commands(&self) -> (r: Result<Vec<String>, String>)
        ensures
            match r {
                Ok(v) => save_commands(self@) == Ok::<Seq<Seq<char>>, Seq<char>>(string_views(v@)),
                Err(e) => save_commands(self@) == Err::<Seq<Seq<char>>, Seq<char>>(e@),
            },
    {
        let power = match decimal_in_range_exec(
            &chars_of(self.power_percent.as_str()),
            "Power",
            POWER_MIN_MILLI,
            POWER_MAX_MILLI,
            "0",
            "100",
        ) {
            Ok(v) => v,
            Err(e) => return Err(e),
        };
        let alarm = match decimal_in_range_exec(
            &chars_of(self.alarm_temp_c.as_str()),
            "Alarm temperature",
            ALARM_TEMP_MIN_MILLI,
            ALARM_TEMP_MAX_MILLI,
            "40",
            "100",
        ) {
            Ok(v) => v,
            Err(e) => return Err(e),
        };
        let pi = match parse_hex_u16(&chars_of(self.rds_pi_hex.as_str())) {
            Ok(v) => v,
            Err(e) => return Err(e),
        };
        let ecc = match parse_u8_range(&chars_of(self.rds_ecc.as_str()), "RDS ECC", 0, 255) {
            Ok(v) => v,
            Err(e) => return Err(e),
        };
        let di = match parse_u8_range(&chars_of(self.rds_di.as_str()), "RDS DI", 0, 15) {
            Ok(v) => v,
            Err(e) => return Err(e),
        };
        let pty = match parse_u8_range(&chars_of(self.rds_pty.as_str()), "RDS PTY", 0, 31) {
            Ok(v) => v,
            Err(e) => return Err(e),
        };
        let ps = match validate_text(self.rds_ps.as_str(), "RDS PS", RDS_PS_MAX_BYTES) {
            Ok(v) => v,
            Err(e) => return Err(e),
        };
        let rt = match validate_text(self.rds_rt.as_str(), "RDS RT", RDS_RT_MAX_BYTES) {
            Ok(v) => v,
            Err(e) => return Err(e),
        };
        let afs = match build_afs_payload(self.rds_afs.as_str()) {
            Ok(v) => v,
            Err(e) => return Err(e),
        };
        let mut frequency_list: Vec<String> = Vec::new();
        assert(string_views(frequency_list@) =~= Seq::<Seq<char>>::empty());
        let frequency = trim_chars(&chars_of(self.frequency_mhz.as_str()));
        if frequency.len() > 0 {
            let value = match decimal_in_range_exec(
                &frequency,
                "Frequency",
                FREQUENCY_MIN_MILLI,
                FREQUENCY_MAX_MILLI,
                "87.5",
                "108",
            ) {
                Ok(v) => v,
                Err(e) => return Err(e),
            };
            push_command(&mut frequency_list, "config-fq:", &chars_of(value.as_str()));
            assert(string_views(frequency_list@) =~= seq!["config-fq:"@ + value@]);
        }
        assert(frequency_commands(self@.frequency_mhz) == Ok::<Seq<Seq<char>>, Seq<char>>(
            string_views(frequency_list@),
        ));
        if self.audio_gain > 2 {
            let mut m = chars_of("Audio gain must be 0, 1, or 2, got ");
            append_chars(&mut m, &nat_text_exec(self.audio_gain as u64));
            return Err(string_of(&m));
        }
        let commands = assemble_commands(
            self,
            &power,
            frequency_list,
            &alarm,
            pi,
            ecc,
            &ps,
            &rt,
            di,
            pty,
            &afs,
        );
        Ok(commands)
    }
}

// ---------------------------------------------------------------------------
// Reading answers.

/// The part of `response` from `Current settings:` on, if it has one.
pub fn current_settings_block(response: &str) -> (r: Option<&str>)
    ensures
        match r {
            Some(b) => settings_block(response@) == Some(b@),
            None => settings_block(response@) is None,
        },
{
    let text = chars_of(response);
    match find_exec(&text, &chars_of("Current settings:")) {
        Some(i) => {
            let b = response.substring_char(i, text.len());
            assert(b@ =~= response@.skip(i as int));
            Some(b)
        },
        None => None,
    }
}

/// The text shown for an answer: its settings block, or the whole answer,
/// trimmed.
pub open spec fn display_text(response: Seq<char>) -> Seq<char> {
    trim(
        match settings_block(response) {
            Some(b) => b,
            None => response,
        },
    )
}

pub fn normalize_response_for_display(response: &str) -> (r: String)
    ensures
        r@ == display_text(response@),
{
    let part = match current_settings_block(response) {
        Some(b) => b,
        None => response,
    };
    let t = trim_chars(&chars_of(part));
    string_of(&t)
}

/// The first line of `s` that is not blank, trimmed.
pub open spec fn first_nonempty(s: Seq<char>) -> Option<Seq<char>>
    decreases s.len(),
{
    let n = run_len(s, newline_sep());
    let line = trim(s.take(n as int));
    if line.len() > 0 {
        Some(line)
    } else if n < s.len() {
        first_nonempty(s.skip(n + 1int))
    } else {
        None
    }
}

pub fn first_nonempty_line(response: &str) -> (r: Option<&str>)
    ensures
        match r {
            Some(l) => first_nonempty(response@) == Some(l@),
            None => first_nonempty(response@) is None,
        },
{
    let text = chars_of(response);
    let total = text.len();
    let mut pos: usize = 0;
    assert(text@.skip(0) =~= text@);
    loop
        invariant
            pos <= text@.len(),
            text@.len() == total,
            text@ == response@,
            first_nonempty(response@) == first_nonempty(text@.skip(pos as int)),
        decreases text@.len() - pos,
    {
        let ghost rest = text@.skip(pos as int);
        let n = line_len_exec(&text, pos);
        assert(pos + n <= total);
        let (a, b) = trim_bounds(&text, pos, pos + n);
        assert(rest.take(n as int) =~= text@.subrange(pos as int, pos + n));
        if a < b {
            let l = response.substring_char(a, b);
            return Some(l);
        }
        if pos + n < text.len() {
            assert(rest.skip(n + 1) =~= text@.skip(pos + n + 1));
            pos = pos + n + 1;
        } else {
            return None;
        }
    }
}

/// Whether the transmitter refused a command: its first non-blank line is `ERR`.
pub fn response_is_err(response: &str) -> (r: bool)
    ensures
        r == (first_nonempty(response@) == Some("ERR"@)),
{
    match first_nonempty_line(response) {
        Some(l) => {
            let lv = chars_of(l);
            let err = chars_of("ERR");
            let same = lv.len() == err.len() && starts_with_exec(&lv, &err);
            proof {
                if lv@.len() == err@.len() && starts_with(lv@, err@) {
                    assert(lv@.take(err@.len() as int) =~= lv@);
                }
                if lv@ == err@ {
                    assert(lv@.take(err@.len() as int) =~= lv@);
                }
            }
            same
        },
        None => false,
    }
}

} // verus!
