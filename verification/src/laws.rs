//! Properties that hold across the library's functions.
use vstd::prelude::*;

use crate::numbers::{
    lemma_hex_value_bound, pow16,
    beyond_milli, decimal_in_range, decimal_text, frac_digit, increment, milli_digits,
    milli_floor, number_text, pad3, rounds_up, strip_leading_zeros, strip_trailing_zeros,
    within_milli, NumberText, lemma_digit_char_val, lemma_number_text_digits, lemma_no_exponent,
    all_digits, all_hex, digit_char, digit_val, digits_value, hex4_upper, hex_char_upper,
    hex_val, hex_value, is_digit, is_hex_digit, nat_text, parse_u8, u8_in_range,
};
use crate::protocol::{
    af_on_step, af_rounded_tenths, af_tenths, af_text, af_texts,
    apply_line, apply_lines, default_form, af_payload, checked_text, command_list, flag_digit,
    audio_line, pi_line, rds_flags_line, rds_flag_values, form_from_response, frequency_commands, settings_block, display_text, hex_u16, save_commands, after_marker, between_markers, FormModel,
    ALARM_TEMP_MAX_MILLI, ALARM_TEMP_MIN_MILLI, FREQUENCY_MAX_MILLI, FREQUENCY_MIN_MILLI,
    POWER_MAX_MILLI, POWER_MIN_MILLI,
};
use crate::operation::{operation_running, step_result, step_snapshot, EventModel, OperationModel};
use crate::serial::{opt_piece, preferred_port, usb_haystack, PortInfo, PortKind, UsbInfo, counters_le, initial_snapshot, keeps_invariants, SnapshotModel, appended_log, split_received, PortModel, MAX_LOG_LINES};
use crate::ui_state::{any_preferred, default_selection, first_preferred, has_port};
use crate::text::{
    ascii_lower, eq_ignore_ascii_case, find, find_from, is_ws, occurs_at, starts_with,
    strip_all_prefixes, trim, strip_all_suffix_char, split_once,
    first_word, ws_sep, trim_start, trim_end, strip_suffix, strip_prefix, run_len, newline_sep, words, join, list_sep,
};

verus! {

/// Adding a line to the log of the controller, whatever its length, leaves
/// at most `MAX_LOG_LINES` lines, ends with the new line, and keeps the
/// newest of the older lines in their order; nothing is dropped while the
/// log is short.
pub proof fn log_stays_bounded(log: Seq<Seq<char>>, line: Seq<char>)
    ensures
        appended_log(log, line).len() <= MAX_LOG_LINES,
        appended_log(log, line).last() == line,
        exists|k: int|
            0 <= k <= log.len() && appended_log(log, line) == log.push(line).skip(k),
        log.len() < MAX_LOG_LINES ==> appended_log(log, line) == log.push(line),
{
    let l = log.push(line);
    if l.len() > MAX_LOG_LINES {
        assert(appended_log(log, line) == l.skip(l.len() - MAX_LOG_LINES));
    } else {
        assert(l.skip(0) =~= l);
    }
}

/// A saved form always starts with the power command and ends with
/// `config-save`; the frequency command is there exactly when the frequency
/// field is not blank.
#[verifier::rlimit(60)]
#[verifier::spinoff_prover]
pub proof fn saved_commands_shape(f: FormModel)
    ensures
        save_commands(f) matches Ok(c) ==> {
            &&& c.len() == (if trim(f.frequency_mhz).len() > 0 {
                19int
            } else {
                18int
            })
            &&& starts_with(c[0], "config-power:"@)
            &&& c.last() == "config-save"@
            &&& (trim(f.frequency_mhz).len() > 0 ==> starts_with(c[1], "config-fq:"@))
        },
{
    if let Ok(c) = save_commands(f) {
        let p = c[0];
        assert(p.take("config-power:"@.len() as int) =~= "config-power:"@);
        if trim(f.frequency_mhz).len() > 0 {
            assert(c[1].take("config-fq:"@.len() as int) =~= "config-fq:"@);
        }
    }
}

pub proof fn lemma_digit_char_roundtrip(d: nat)
    requires
        d < 10,
    ensures
        is_digit(digit_char(d)),
        digit_val(digit_char(d)) == d,
        !is_ws(digit_char(d)),
        digit_char(d) != '+',
{
}

/// The decimal text of a number is made of digits and reads back as the number.
pub proof fn lemma_nat_text(n: nat)
    ensures
        nat_text(n).len() > 0,
        all_digits(nat_text(n)),
        digits_value(nat_text(n)) == n,
    decreases n,
{
    if n < 10 {
        lemma_digit_char_roundtrip(n);
        assert(nat_text(n).drop_last() =~= Seq::<char>::empty());
        assert(digits_value(Seq::<char>::empty()) == 0);
    } else {
        lemma_nat_text(n / 10);
        lemma_digit_char_roundtrip(n % 10);
        assert(nat_text(n).drop_last() =~= nat_text(n / 10));
        assert(nat_text(n).last() == digit_char(n % 10));
        assert((n / 10) * 10 + n % 10 == n) by (nonlinear_arith);
        assert forall|i: int| 0 <= i < nat_text(n).len() implies is_digit(#[trigger] nat_text(n)[i]) by {
            if i < nat_text(n).len() - 1 {
                assert(nat_text(n)[i] == nat_text(n / 10)[i]);
            }
        }
    }
}

/// Text whose first and last characters are not whitespace is its own trim.
pub proof fn lemma_trim_noop(s: Seq<char>)
    requires
        s.len() > 0 ==> !is_ws(s[0]) && !is_ws(s.last()),
    ensures
        trim(s) == s,
{
}

/// A number from 0 to 255 written by the library reads back as itself.
pub proof fn u8_text_round_trip(v: u8, label: Seq<char>, lo: u8, hi: u8)
    requires
        lo <= v <= hi,
    ensures
        u8_in_range(nat_text(v as nat), label, lo, hi) == Ok::<u8, Seq<char>>(v),
{
    lemma_nat_text(v as nat);
    let t = nat_text(v as nat);
    assert(is_digit(t[0]));
    assert(is_digit(t.last()));
    lemma_trim_noop(t);
    assert(parse_u8(t) == Some(v));
}

pub proof fn lemma_hex_char_roundtrip(d: nat)
    requires
        d < 16,
    ensures
        is_hex_digit(hex_char_upper(d)),
        hex_val(hex_char_upper(d)) == d,
        !is_ws(hex_char_upper(d)),
        hex_char_upper(d) != 'x',
        hex_char_upper(d) != 'X',
{
}

/// A PI code written by the library as four hexadecimal digits reads back as itself.
pub proof fn pi_text_round_trip(v: u16)
    ensures
        hex_u16(hex4_upper(v)) == Ok::<u16, Seq<char>>(v),
{
    let a = (v as nat / 4096) % 16;
    let b = (v as nat / 256) % 16;
    let c = (v as nat / 16) % 16;
    let d = v as nat % 16;
    lemma_hex_char_roundtrip(a);
    lemma_hex_char_roundtrip(b);
    lemma_hex_char_roundtrip(c);
    lemma_hex_char_roundtrip(d);
    let h = hex4_upper(v);
    lemma_trim_noop(h);
    reveal_strlit("0x");
    reveal_strlit("0X");
    assert(!starts_with(h, "0x"@)) by {
        if starts_with(h, "0x"@) {
            assert(h.take(2)[1] == 'x');
        }
    }
    assert(!starts_with(h, "0X"@)) by {
        if starts_with(h, "0X"@) {
            assert(h.take(2)[1] == 'X');
        }
    }
    assert(strip_all_prefixes(h, "0x"@) == h);
    assert(strip_all_prefixes(h, "0X"@) == h);
    assert(all_hex(h));
    let h1 = seq![hex_char_upper(a)];
    let h2 = seq![hex_char_upper(a), hex_char_upper(b)];
    let h3 = seq![hex_char_upper(a), hex_char_upper(b), hex_char_upper(c)];
    assert(h1.drop_last() =~= Seq::<char>::empty());
    assert(h2.drop_last() =~= h1);
    assert(h3.drop_last() =~= h2);
    assert(h.drop_last() =~= h3);
    assert(hex_value(Seq::<char>::empty()) == 0);
    assert(hex_value(h1) == a);
    assert(hex_value(h2) == a * 16 + b);
    assert(hex_value(h3) == (a * 16 + b) * 16 + c);
    assert(hex_value(h) == ((a * 16 + b) * 16 + c) * 16 + d);
    assert(((a * 16 + b) * 16 + c) * 16 + d == v as nat) by (nonlinear_arith)
        requires
            a == (v as nat / 4096) % 16,
            b == (v as nat / 256) % 16,
            c == (v as nat / 16) % 16,
            d == v as nat % 16,
            v < 65536,
    ;
}

pub open spec fn free_of_line_breaks(s: Seq<u8>) -> bool {
    forall|i: int| 0 <= i < s.len() ==> s[i] != 13 && s[i] != 10
}

/// The lines taken from the bytes of the port are never empty and never
/// hold a carriage return or a line feed, nor does the pending line.
pub proof fn received_lines_are_clean(pending: Seq<u8>, chunk: Seq<u8>)
    requires
        free_of_line_breaks(pending),
    ensures
        free_of_line_breaks(split_received(pending, chunk).0),
        forall|i: int|
            0 <= i < split_received(pending, chunk).1.len() ==> {
                &&& (#[trigger] split_received(pending, chunk).1[i]).len() > 0
                &&& free_of_line_breaks(split_received(pending, chunk).1[i])
            },
    decreases chunk.len(),
{
    if chunk.len() > 0 {
        received_lines_are_clean(pending, chunk.drop_last());
        let prev = split_received(pending, chunk.drop_last());
        let b = chunk.last();
        if b == 13 || b == 10 {
        } else {
            assert forall|i: int| 0 <= i < prev.0.push(b).len() implies prev.0.push(b)[i] != 13
                && prev.0.push(b)[i] != 10 by {
                if i < prev.0.len() {
                    assert(prev.0.push(b)[i] == prev.0[i]);
                }
            }
        }
    }
}


/// The lines one after the other.
pub open spec fn flatten_lines(lines: Seq<Seq<u8>>) -> Seq<u8>
    decreases lines.len(),
{
    if lines.len() == 0 {
        seq![]
    } else {
        flatten_lines(lines.drop_last()) + lines.last()
    }
}

/// The bytes without their carriage returns and line feeds.
pub open spec fn without_line_breaks(s: Seq<u8>) -> Seq<u8>
    decreases s.len(),
{
    if s.len() == 0 {
        seq![]
    } else if s.last() == 13 || s.last() == 10 {
        without_line_breaks(s.drop_last())
    } else {
        without_line_breaks(s.drop_last()).push(s.last())
    }
}

/// No byte read from the port is lost or invented: the finished lines and
/// the pending line hold, in order, the pending bytes and then the bytes
/// received, less the carriage returns and line feeds.
pub proof fn received_bytes_are_kept(pending: Seq<u8>, chunk: Seq<u8>)
    ensures
        flatten_lines(split_received(pending, chunk).1) + split_received(pending, chunk).0
            == pending + without_line_breaks(chunk),
    decreases chunk.len(),
{
    if chunk.len() == 0 {
        assert(flatten_lines(Seq::<Seq<u8>>::empty()) + pending =~= pending + Seq::<u8>::empty());
    } else {
        received_bytes_are_kept(pending, chunk.drop_last());
        let prev = split_received(pending, chunk.drop_last());
        let b = chunk.last();
        if b == 13 || b == 10 {
            if prev.0.len() > 0 {
                let ls = prev.1.push(prev.0);
                assert(ls.drop_last() =~= prev.1);
                assert(flatten_lines(ls) + Seq::<u8>::empty() =~= flatten_lines(prev.1) + prev.0);
            }
        } else {
            assert(flatten_lines(prev.1) + prev.0.push(b) =~= (flatten_lines(prev.1) + prev.0).push(b));
            assert(pending + without_line_breaks(chunk.drop_last()).push(b) =~= (pending
                + without_line_breaks(chunk.drop_last())).push(b));
        }
    }
}

// ---------------------------------------------------------------------------
// Decimal text written by the library reads back unchanged.

pub open spec fn pow10(n: nat) -> nat
    decreases n,
{
    if n == 0 {
        1
    } else {
        10 * pow10((n - 1) as nat)
    }
}

pub proof fn lemma_digits_value_concat(a: Seq<char>, b: Seq<char>)
    ensures
        digits_value(a + b) == digits_value(a) * pow10(b.len()) + digits_value(b),
    decreases b.len(),
{
    if b.len() == 0 {
        assert(a + b =~= a);
        assert(pow10(0) == 1);
        assert(digits_value(b) == 0);
        assert(digits_value(a) * 1 == digits_value(a));
    } else {
        lemma_digits_value_concat(a, b.drop_last());
        assert((a + b).drop_last() =~= a + b.drop_last());
        assert((a + b).last() == b.last());
        let x = digits_value(a);
        let p = pow10((b.len() - 1) as nat);
        let y = digits_value(b.drop_last());
        assert(pow10(b.len()) == 10 * p);
        assert(digits_value(a + b) == digits_value((a + b).drop_last()) * 10 + digit_val(b.last()));
        assert(digits_value(b) == y * 10 + digit_val(b.last()));
        assert((x * p + y) * 10 == x * (10 * p) + y * 10) by (nonlinear_arith);
        assert(digits_value((a + b).drop_last()) == x * p + y);
    }
}

pub proof fn lemma_strip_leading_zeros(d: Seq<char>)
    ensures
        digits_value(strip_leading_zeros(d)) == digits_value(d),
        strip_leading_zeros(d).len() > 0 ==> strip_leading_zeros(d)[0] != '0',
        strip_leading_zeros(d).len() <= d.len(),
        strip_leading_zeros(d) == d.skip(d.len() - strip_leading_zeros(d).len()),
    decreases d.len(),
{
    if d.len() > 0 && d[0] == '0' {
        lemma_strip_leading_zeros(d.drop_first());
        assert(d =~= seq!['0'] + d.drop_first());
        lemma_digits_value_concat(seq!['0'], d.drop_first());
        assert(seq!['0'].drop_last() =~= Seq::<char>::empty());
        assert(digits_value(Seq::<char>::empty()) == 0);
        assert(digits_value(seq!['0']) == 0);
        let s = strip_leading_zeros(d);
        assert(d.drop_first().skip(d.drop_first().len() - s.len()) =~= d.skip(d.len() - s.len()));
    } else {
        assert(d.skip(0) =~= d);
    }
}

pub proof fn lemma_increment(d: Seq<char>)
    requires
        all_digits(d),
    ensures
        all_digits(increment(d)),
        digits_value(increment(d)) == digits_value(d) + 1,
        increment(d).len() == d.len() || (increment(d).len() == d.len() + 1 && increment(d)[0]
            == '1'),
        increment(d).len() == d.len() && d.len() > 0 && d[0] != '0' ==> increment(d)[0] != '0',
    decreases d.len(),
{
    if d.len() == 0 {
        assert(seq!['1'].drop_last() =~= Seq::<char>::empty());
        assert(digits_value(Seq::<char>::empty()) == 0);
    } else {
        let dl = d.drop_last();
        assert(all_digits(dl)) by {
            assert forall|i: int| 0 <= i < dl.len() implies is_digit(#[trigger] dl[i]) by {
                assert(dl[i] == d[i]);
            }
        }
        assert(is_digit(d.last()));
        if d.last() == '9' {
            lemma_increment(dl);
            let r = increment(dl).push('0');
            assert(r.drop_last() =~= increment(dl));
            assert forall|i: int| 0 <= i < r.len() implies is_digit(#[trigger] r[i]) by {
                if i < r.len() - 1 {
                    assert(r[i] == increment(dl)[i]);
                }
            }
            if d.len() >= 2 {
                assert(dl[0] == d[0]);
            } else {
                assert(dl =~= Seq::<char>::empty());
            }
        } else {
            let nx = ((d.last() as int) + 1) as char;
            let r = dl.push(nx);
            assert(r.drop_last() =~= dl);
            assert forall|i: int| 0 <= i < r.len() implies is_digit(#[trigger] r[i]) by {
                if i < r.len() - 1 {
                    assert(r[i] == d[i]);
                }
            }
            if d.len() >= 2 {
                assert(r[0] == d[0]);
            }
        }
    }
}

pub proof fn lemma_strip_trailing_zeros(x: Seq<char>)
    ensures
        strip_trailing_zeros(x).len() <= x.len(),
        strip_trailing_zeros(x) == x.take(strip_trailing_zeros(x).len() as int),
        forall|k: int| strip_trailing_zeros(x).len() <= k < x.len() ==> x[k] == '0',
        strip_trailing_zeros(x).len() > 0 ==> strip_trailing_zeros(x).last() != '0',
    decreases x.len(),
{
    if x.len() > 0 && x.last() == '0' {
        lemma_strip_trailing_zeros(x.drop_last());
        let s = strip_trailing_zeros(x);
        assert(x.drop_last().take(s.len() as int) =~= x.take(s.len() as int));
        assert forall|k: int| s.len() <= k < x.len() implies x[k] == '0' by {
            if k < x.len() - 1 {
                assert(x[k] == x.drop_last()[k]);
            }
        }
    } else {
        assert(x.take(x.len() as int) =~= x);
    }
}

/// Three decimals with their trailing zeros removed pad back to themselves.
pub proof fn lemma_pad3_strip(x: Seq<char>)
    requires
        x.len() == 3,
        all_digits(x),
    ensures
        pad3(strip_trailing_zeros(x)) == x,
        all_digits(strip_trailing_zeros(x)),
        strip_trailing_zeros(x).len() <= 3,
        forall|k: int| 0 <= k < 3 ==> frac_digit(strip_trailing_zeros(x), k) == frac_digit(x, k),
{
    lemma_strip_trailing_zeros(x);
    let s = strip_trailing_zeros(x);
    assert forall|k: int| 0 <= k < 3 implies frac_digit(s, k) == frac_digit(x, k) by {
        if k < s.len() {
            assert(s[k] == x[k]);
        } else {
            assert(x[k] == '0');
        }
    }
    assert forall|i: int| 0 <= i < s.len() implies is_digit(#[trigger] s[i]) by {
        assert(s[i] == x[i]);
    }
    assert forall|k: int| 0 <= k < 3 implies digit_char(frac_digit(x, k)) == x[k] by {
        lemma_digit_char_val(x[k]);
    }
    assert(pad3(s) =~= x);
}

pub proof fn lemma_pad3_digits(f: Seq<char>)
    requires
        all_digits(f),
    ensures
        pad3(f).len() == 3,
        all_digits(pad3(f)),
        digits_value(pad3(f)) == frac_digit(f, 0) * 100 + frac_digit(f, 1) * 10 + frac_digit(f, 2),
        forall|k: int| 0 <= k < 3 ==> frac_digit(pad3(f), k) == frac_digit(f, k),
{
    let p = pad3(f);
    assert forall|k: int| 0 <= k < 3 implies frac_digit(f, k) < 10 by {
        if k < f.len() {
            assert(is_digit(f[k]));
        }
    }
    lemma_digit_char_roundtrip(frac_digit(f, 0));
    lemma_digit_char_roundtrip(frac_digit(f, 1));
    lemma_digit_char_roundtrip(frac_digit(f, 2));
    assert(p.drop_last().drop_last().drop_last() =~= Seq::<char>::empty());
    assert(digits_value(Seq::<char>::empty()) == 0);
    assert(p.drop_last().drop_last() =~= seq![p[0]]);
    assert(p.drop_last() =~= seq![p[0], p[1]]);
    assert(digits_value(seq![p[0]]) == frac_digit(f, 0)) by {
        assert(seq![p[0]].drop_last() =~= Seq::<char>::empty());
    }
    assert(digits_value(seq![p[0], p[1]]) == frac_digit(f, 0) * 10 + frac_digit(f, 1)) by {
        assert(seq![p[0], p[1]].drop_last() =~= seq![p[0]]);
    }
}

/// The digits of a finite value rounded to thousandths: all digits, no
/// leading zero before the last three, and their value is the value cut at
/// thousandths, plus one when the fourth decimal is 5 or more.
pub proof fn lemma_milli_digits(int_digits: Seq<char>, frac_digits: Seq<char>)
    requires
        all_digits(int_digits),
        all_digits(frac_digits),
    ensures
        milli_digits(int_digits, frac_digits).len() >= 3,
        all_digits(milli_digits(int_digits, frac_digits)),
        digits_value(milli_digits(int_digits, frac_digits)) == milli_floor(int_digits, frac_digits)
            + (if rounds_up(frac_digits) {
            1nat
        } else {
            0nat
        }),
        ({
            let d = milli_digits(int_digits, frac_digits);
            d.len() > 3 ==> d[0] != '0'
        }),
{
    let s0 = strip_leading_zeros(int_digits);
    lemma_strip_leading_zeros(int_digits);
    lemma_pad3_digits(frac_digits);
    let p3 = pad3(frac_digits);
    let d = s0 + p3;
    assert(all_digits(s0)) by {
        assert forall|i: int| 0 <= i < s0.len() implies is_digit(#[trigger] s0[i]) by {
            assert(s0[i] == int_digits[int_digits.len() - s0.len() + i]);
        }
    }
    assert(all_digits(d)) by {
        assert forall|i: int| 0 <= i < d.len() implies is_digit(#[trigger] d[i]) by {
            if i < s0.len() {
                assert(d[i] == s0[i]);
            } else {
                assert(d[i] == p3[i - s0.len()]);
            }
        }
    }
    lemma_digits_value_concat(s0, p3);
    reveal_with_fuel(pow10, 4);
    assert(pow10(3) == 1000);
    if s0.len() > 0 {
        assert(d[0] == s0[0]);
    }
    if rounds_up(frac_digits) {
        lemma_increment(d);
    }
}

/// `decimal_text` as three parts: the sign, the whole part, the decimals.
pub proof fn lemma_decimal_text_parts(negative: bool, int_digits: Seq<char>, frac_digits: Seq<char>)
    requires
        all_digits(int_digits),
        all_digits(frac_digits),
    ensures
        ({
            let d = milli_digits(int_digits, frac_digits);
            let ip = d.take(d.len() - 3);
            let w = if ip.len() == 0 {
                seq!['0']
            } else {
                ip
            };
            let fp = strip_trailing_zeros(d.skip(d.len() - 3));
            &&& all_digits(w)
            &&& w.len() > 0
            &&& strip_leading_zeros(w) == ip
            &&& all_digits(fp)
            &&& fp.len() <= 3
            &&& pad3(fp) == d.skip(d.len() - 3)
            &&& ip + d.skip(d.len() - 3) == d
            &&& decimal_text(negative, int_digits, frac_digits) == (if negative {
                seq!['-']
            } else {
                seq![]
            }) + w + (if fp.len() == 0 {
                seq![]
            } else {
                seq!['.'] + fp
            })
        }),
{
    lemma_milli_digits(int_digits, frac_digits);
    let d = milli_digits(int_digits, frac_digits);
    let ip = d.take(d.len() - 3);
    let last3 = d.skip(d.len() - 3);
    assert(ip + last3 =~= d);
    assert(all_digits(last3)) by {
        assert forall|i: int| 0 <= i < last3.len() implies is_digit(#[trigger] last3[i]) by {
            assert(last3[i] == d[d.len() - 3 + i]);
        }
    }
    lemma_pad3_strip(last3);
    assert(all_digits(ip)) by {
        assert forall|i: int| 0 <= i < ip.len() implies is_digit(#[trigger] ip[i]) by {
            assert(ip[i] == d[i]);
        }
    }
    if ip.len() == 0 {
        assert(strip_leading_zeros(seq!['0']) == strip_leading_zeros(seq!['0'].drop_first()));
        assert(seq!['0'].drop_first() =~= Seq::<char>::empty());
        assert(all_digits(seq!['0']));
    } else {
        assert(ip[0] == d[0]);
    }
}

pub proof fn lemma_find_absent(s: Seq<char>, c: char, i: int)
    requires
        0 <= i,
        forall|j: int| 0 <= j < s.len() ==> s[j] != c,
    ensures
        find_from(s, seq![c], i) is None,
    decreases s.len() - i,
{
    if i + 1 <= s.len() {
        assert(!occurs_at(s, seq![c], i)) by {
            if occurs_at(s, seq![c], i) {
                assert(s.subrange(i, i + 1)[0] == s[i]);
            }
        }
        lemma_find_absent(s, c, i + 1);
    }
}

pub proof fn lemma_find_after_digits(w: Seq<char>, rest: Seq<char>, i: int)
    requires
        0 <= i <= w.len(),
        all_digits(w),
        rest.len() > 0,
        rest[0] == '.',
    ensures
        find_from(w + rest, seq!['.'], i) == Some(w.len() as int),
    decreases w.len() - i,
{
    let s = w + rest;
    if i == w.len() {
        assert(s.subrange(i, i + 1) =~= seq!['.']);
    } else {
        assert(is_digit(w[i]));
        assert(!occurs_at(s, seq!['.'], i)) by {
            if occurs_at(s, seq!['.'], i) {
                assert(s.subrange(i, i + 1)[0] == s[i]);
                assert(s[i] == w[i]);
            }
        }
        lemma_find_after_digits(w, rest, i + 1);
    }
}

pub proof fn lemma_not_word(body: Seq<char>, word: Seq<char>)
    requires
        body.len() > 0,
        word.len() > 0,
        is_digit(body[0]),
        !is_digit(word[0]),
        word[0] != ascii_lower(body[0]),
        ascii_lower(word[0]) == word[0],
    ensures
        !eq_ignore_ascii_case(body, word),
{
}

/// How the library's decimal text of a finite number reads.
#[verifier::rlimit(60)]
#[verifier::spinoff_prover]
pub proof fn lemma_read_decimal_text(negative: bool, int_digits: Seq<char>, frac_digits: Seq<char>)
    requires
        all_digits(int_digits),
        all_digits(frac_digits),
    ensures
        ({
            let d = milli_digits(int_digits, frac_digits);
            let ip = d.take(d.len() - 3);
            let w = if ip.len() == 0 {
                seq!['0']
            } else {
                ip
            };
            let fp = strip_trailing_zeros(d.skip(d.len() - 3));
            let t = decimal_text(negative, int_digits, frac_digits);
            &&& trim(t) == t
            &&& number_text(t) == (NumberText::Finite { negative, int_digits: w, frac_digits: fp })
        }),
{
    lemma_decimal_text_parts(negative, int_digits, frac_digits);
    let d = milli_digits(int_digits, frac_digits);
    let ip = d.take(d.len() - 3);
    let w = if ip.len() == 0 {
        seq!['0']
    } else {
        ip
    };
    let fp = strip_trailing_zeros(d.skip(d.len() - 3));
    let sign: Seq<char> = if negative {
        seq!['-']
    } else {
        seq![]
    };
    let tail: Seq<char> = if fp.len() == 0 {
        seq![]
    } else {
        seq!['.'] + fp
    };
    let body = w + tail;
    let t = sign + body;
    assert(decimal_text(negative, int_digits, frac_digits) == t);
    assert(is_digit(w[0]));
    assert(t.len() > 0);
    // no whitespace at either end
    assert(!is_ws(t[0])) by {
        if negative {
            assert(t[0] == '-');
        } else {
            assert(t[0] == w[0]);
        }
    }
    assert(!is_ws(t.last())) by {
        if fp.len() == 0 {
            assert(t.last() == w.last());
            assert(is_digit(w[w.len() - 1]));
        } else {
            assert(t.last() == fp.last());
            assert(is_digit(fp[fp.len() - 1]));
        }
    }
    lemma_trim_noop(t);
    // the sign
    if negative {
        assert(t.drop_first() =~= body);
    } else {
        assert(t =~= body);
        assert(body[0] == w[0]);
    }
    assert(body[0] == w[0]);
    reveal_strlit("inf");
    reveal_strlit("infinity");
    reveal_strlit("nan");
    lemma_not_word(body, "inf"@);
    lemma_not_word(body, "infinity"@);
    lemma_not_word(body, "nan"@);
    assert(!eq_ignore_ascii_case(body, "inf"@));
    assert(!eq_ignore_ascii_case(body, "infinity"@));
    assert(!eq_ignore_ascii_case(body, "nan"@));
    assert forall|i: int| 0 <= i < body.len() implies body[i] != 'e' && body[i] != 'E' by {
        if i < w.len() {
            assert(body[i] == w[i]);
            assert(is_digit(w[i]));
        } else if i == w.len() {
            assert(body[i] == '.');
        } else {
            assert(body[i] == fp[i - w.len() - 1]);
            assert(is_digit(fp[i - w.len() - 1]));
        }
    }
    lemma_no_exponent(body);
    if fp.len() == 0 {
        assert(body =~= w);
        assert forall|j: int| 0 <= j < w.len() implies w[j] != '.' by {
            assert(is_digit(w[j]));
        }
        lemma_find_absent(w, '.', 0);
        assert(find(body, seq!['.']) is None);
        assert(fp =~= Seq::<char>::empty());
        assert(number_text(t) == (NumberText::Finite { negative, int_digits: body, frac_digits: seq![] }));
    } else {
        lemma_find_after_digits(w, tail, 0);
        assert(find(body, seq!['.']) == Some(w.len() as int));
        assert(body.take(w.len() as int) =~= w);
        assert(body.skip(w.len() + 1int) =~= fp);
        assert(number_text(t) == (NumberText::Finite { negative, int_digits: w, frac_digits: fp }));
    }
}

/// The decimal text that the library writes for a value in `[lo, hi]`
/// thousandths reads back as a value in the range and is written the same.
#[verifier::rlimit(60)]
#[verifier::spinoff_prover]
pub proof fn decimal_text_round_trip(
    negative: bool,
    int_digits: Seq<char>,
    frac_digits: Seq<char>,
    label: Seq<char>,
    lo: nat,
    hi: nat,
    lo_text: Seq<char>,
    hi_text: Seq<char>,
)
    requires
        all_digits(int_digits),
        all_digits(frac_digits),
        within_milli(negative, int_digits, frac_digits, lo, hi),
    ensures
        decimal_in_range(decimal_text(negative, int_digits, frac_digits), label, lo, hi, lo_text, hi_text)
            == Ok::<Seq<char>, Seq<char>>(decimal_text(negative, int_digits, frac_digits)),
{
    lemma_read_decimal_text(negative, int_digits, frac_digits);
    lemma_decimal_text_parts(negative, int_digits, frac_digits);
    lemma_milli_digits(int_digits, frac_digits);
    let d = milli_digits(int_digits, frac_digits);
    let ip = d.take(d.len() - 3);
    let last3 = d.skip(d.len() - 3);
    let w = if ip.len() == 0 {
        seq!['0']
    } else {
        ip
    };
    let fp = strip_trailing_zeros(last3);
    lemma_pad3_strip(last3);
    lemma_pad3_digits(fp);
    lemma_strip_leading_zeros(w);
    // the value read back
    lemma_digits_value_concat(ip, last3);
    reveal_with_fuel(pow10, 4);
    assert(pow10(3) == 1000);
    assert(digits_value(w) == digits_value(ip));
    assert(milli_floor(w, fp) == digits_value(d)) by {
        lemma_pad3_digits(last3);
        assert forall|k: int| 0 <= k < 3 implies frac_digit(fp, k) == frac_digit(last3, k) by {}
        assert(digits_value(pad3(last3)) == digits_value(last3)) by {
            assert(pad3(fp) == last3);
        }
        assert(digits_value(last3) == frac_digit(last3, 0) * 100 + frac_digit(last3, 1) * 10
            + frac_digit(last3, 2)) by {
            lemma_pad3_strip(last3);
            lemma_pad3_digits(last3);
            assert(pad3(last3) =~= last3) by {
                assert forall|k: int| 0 <= k < 3 implies digit_char(frac_digit(last3, k)) == last3[k] by {
                    assert(is_digit(last3[k]));
                    lemma_digit_char_val(last3[k]);
                }
            }
        }
    }
    assert(!beyond_milli(fp));
    if rounds_up(frac_digits) {
        assert(frac_digits[3] != '0');
        assert(beyond_milli(frac_digits));
    }
    assert(within_milli(negative, w, fp, lo, hi));
    // written the same
    assert(!rounds_up(fp));
    assert(milli_digits(w, fp) == d) by {
        assert(strip_leading_zeros(w) == ip);
        assert(ip + pad3(fp) == d);
    }
}


/// Text accepted as a decimal in `[lo, hi]` is accepted again, unchanged,
/// once written back, and has no surrounding whitespace.
pub proof fn lemma_decimal_accepted_is_canonical(
    raw: Seq<char>,
    label: Seq<char>,
    lo: nat,
    hi: nat,
    lo_text: Seq<char>,
    hi_text: Seq<char>,
    label2: Seq<char>,
    lo_text2: Seq<char>,
    hi_text2: Seq<char>,
)
    requires
        decimal_in_range(raw, label, lo, hi, lo_text, hi_text) is Ok,
    ensures
        ({
            let t = decimal_in_range(raw, label, lo, hi, lo_text, hi_text)->Ok_0;
            &&& decimal_in_range(t, label2, lo, hi, lo_text2, hi_text2) == Ok::<Seq<char>, Seq<char>>(t)
            &&& trim(t) == t
        }),
{
    let n = number_text(trim(raw));
    lemma_number_text_digits(trim(raw));
    if let NumberText::Finite { negative, int_digits, frac_digits } = n {
        decimal_text_round_trip(negative, int_digits, frac_digits, label2, lo, hi, lo_text2, hi_text2);
        lemma_read_decimal_text(negative, int_digits, frac_digits);
    }
}

/// The numeric settings of a form are each written as saving writes them:
/// the checks that `build_save_commands` makes accept each of them and give
/// it back unchanged, and the audio gain is one that it accepts.
pub open spec fn numbers_as_saved(f: FormModel) -> bool {
    &&& decimal_in_range(
        f.power_percent,
        "Power"@,
        POWER_MIN_MILLI as nat,
        POWER_MAX_MILLI as nat,
        "0"@,
        "100"@,
    ) == Ok::<Seq<char>, Seq<char>>(f.power_percent)
    &&& decimal_in_range(
        f.alarm_temp_c,
        "Alarm temperature"@,
        ALARM_TEMP_MIN_MILLI as nat,
        ALARM_TEMP_MAX_MILLI as nat,
        "40"@,
        "100"@,
    ) == Ok::<Seq<char>, Seq<char>>(f.alarm_temp_c)
    &&& (f.frequency_mhz.len() == 0 || (trim(f.frequency_mhz) == f.frequency_mhz && decimal_in_range(
        f.frequency_mhz,
        "Frequency"@,
        FREQUENCY_MIN_MILLI as nat,
        FREQUENCY_MAX_MILLI as nat,
        "87.5"@,
        "108"@,
    ) == Ok::<Seq<char>, Seq<char>>(f.frequency_mhz)))
    &&& hex_u16(f.rds_pi_hex) is Ok
    &&& hex4_upper(hex_u16(f.rds_pi_hex)->Ok_0) == f.rds_pi_hex
    &&& u8_in_range(f.rds_ecc, "RDS ECC"@, 0, 255) is Ok
    &&& nat_text(u8_in_range(f.rds_ecc, "RDS ECC"@, 0, 255)->Ok_0 as nat) == f.rds_ecc
    &&& u8_in_range(f.rds_di, "RDS DI"@, 0, 15) is Ok
    &&& nat_text(u8_in_range(f.rds_di, "RDS DI"@, 0, 15)->Ok_0 as nat) == f.rds_di
    &&& u8_in_range(f.rds_pty, "RDS PTY"@, 0, 31) is Ok
    &&& nat_text(u8_in_range(f.rds_pty, "RDS PTY"@, 0, 31)->Ok_0 as nat) == f.rds_pty
    &&& f.audio_gain <= 2
}

proof fn lemma_u8_accepted_in(raw: Seq<char>, label: Seq<char>, lo: u8, hi: u8)
    requires
        u8_in_range(raw, label, lo, hi) is Ok,
    ensures
        lo <= u8_in_range(raw, label, lo, hi)->Ok_0 <= hi,
{
}

/// One line of a report keeps the numeric settings of the form as saving
/// writes them.
#[verifier::rlimit(60)]
#[verifier::spinoff_prover]
pub proof fn lemma_apply_line_keeps_numbers(form: FormModel, line: Seq<char>)
    requires
        numbers_as_saved(form),
        apply_line(form, line) is Ok,
    ensures
        numbers_as_saved(apply_line(form, line)->Ok_0),
{
    let f2 = apply_line(form, line)->Ok_0;
    if line.len() == 0 || line == "Current settings:"@ {
    } else if starts_with(line, "Power: "@) {
        let v = line.skip("Power: "@.len() as int);
        lemma_decimal_accepted_is_canonical(
            trim(strip_all_suffix_char(trim(v), '%')),
            "Power"@,
            POWER_MIN_MILLI as nat,
            POWER_MAX_MILLI as nat,
            "0"@,
            "100"@,
            "Power"@,
            "0"@,
            "100"@,
        );
    } else if starts_with(line, "Frequency: "@) {
        let v = line.skip("Frequency: "@.len() as int);
        if !eq_ignore_ascii_case(trim(v), "not set"@) {
            let numeric = match split_once(v, "MHz"@) {
                Some(parts) => trim(parts.0),
                None => first_word(v),
            };
            lemma_decimal_accepted_is_canonical(
                numeric,
                "Frequency"@,
                FREQUENCY_MIN_MILLI as nat,
                FREQUENCY_MAX_MILLI as nat,
                "87.5"@,
                "108"@,
                "Frequency"@,
                "87.5"@,
                "108"@,
            );
        }
    } else if starts_with(line, "Stereo: "@) {
        let gain = between_markers(line, ", Gain: "@, ", Preemphasis: "@)->Ok_0;
        lemma_u8_accepted_in(first_word(gain), "Audio gain"@, 0, 2);
    } else if starts_with(line, "Alarm temp: "@) {
        let v = line.skip("Alarm temp: "@.len() as int);
        let numeric = match strip_suffix(v, seq!['C']) {
            Some(p) => trim(p),
            None => first_word(v),
        };
        lemma_decimal_accepted_is_canonical(
            numeric,
            "Alarm temperature"@,
            ALARM_TEMP_MIN_MILLI as nat,
            ALARM_TEMP_MAX_MILLI as nat,
            "40"@,
            "100"@,
            "Alarm temperature"@,
            "40"@,
            "100"@,
        );
    } else if starts_with(line, "RDS: "@) {
        let di = between_markers(line, ", DI: "@, ", PTY: "@)->Ok_0;
        let pty = after_marker(line, ", PTY: "@)->Ok_0;
        lemma_u8_accepted_in(first_word(di), "RDS DI"@, 0, 15);
        lemma_u8_accepted_in(first_word(pty), "RDS PTY"@, 0, 31);
        let d = u8_in_range(first_word(di), "RDS DI"@, 0, 15)->Ok_0;
        let t = u8_in_range(first_word(pty), "RDS PTY"@, 0, 31)->Ok_0;
        u8_text_round_trip(d, "RDS DI"@, 0, 15);
        u8_text_round_trip(t, "RDS PTY"@, 0, 31);
    } else if starts_with(line, "PI: "@) {
        let after = strip_prefix(line, "PI: "@)->Some_0;
        let parts = split_once(after, ", ECC: "@)->Some_0;
        let remainder = parts.1;
        let ecc = match split_once(remainder, ", PS:"@) {
            Some(q) => q.0,
            None => remainder,
        };
        let v = hex_u16(first_word(parts.0))->Ok_0;
        let c = u8_in_range(first_word(ecc), "RDS ECC"@, 0, 255)->Ok_0;
        pi_text_round_trip(v);
        u8_text_round_trip(c, "RDS ECC"@, 0, 255);
    } else {
    }
}

proof fn lemma_three_zeros()
    ensures
        strip_trailing_zeros(seq!['0', '0', '0']) == Seq::<char>::empty(),
{
    let e = Seq::<char>::empty();
    assert(seq!['0', '0', '0'].drop_last() =~= seq!['0', '0']);
    assert(seq!['0', '0'].drop_last() =~= seq!['0']);
    assert(seq!['0'].drop_last() =~= e);
    assert(strip_trailing_zeros(e) == e);
    assert(strip_trailing_zeros(seq!['0']) == strip_trailing_zeros(e));
    assert(strip_trailing_zeros(seq!['0', '0']) == strip_trailing_zeros(seq!['0']));
    assert(strip_trailing_zeros(seq!['0', '0', '0']) == strip_trailing_zeros(seq!['0', '0']));
}

proof fn lemma_default_decimal(digits: Seq<char>, lo: nat, hi: nat, label: Seq<char>, lo_text: Seq<char>, hi_text: Seq<char>)
    requires
        digits.len() > 0,
        digits[0] != '0',
        all_digits(digits),
        lo <= digits_value(digits) * 1000 <= hi,
    ensures
        decimal_in_range(digits, label, lo, hi, lo_text, hi_text) == Ok::<Seq<char>, Seq<char>>(digits),
{
    let e = Seq::<char>::empty();
    assert(strip_leading_zeros(digits) == digits);
    let z = seq!['0', '0', '0'];
    assert(pad3(e) =~= z);
    let d = digits + z;
    assert(milli_digits(digits, e) == d);
    assert(d.take(d.len() - 3) =~= digits);
    assert(d.skip(d.len() - 3) =~= z);
    lemma_three_zeros();
    assert(decimal_text(false, digits, e) =~= digits);
    assert(!beyond_milli(e));
    assert(milli_floor(digits, e) == digits_value(digits) * 1000);
    decimal_text_round_trip(false, digits, e, label, lo, hi, lo_text, hi_text);
}

/// The form before anything is read holds its numeric settings as saving
/// writes them.
pub proof fn default_numbers_as_saved()
    ensures
        numbers_as_saved(default_form()),
{
    reveal_strlit("0");
    reveal_strlit("80");
    reveal_strlit("0000");
    reveal_strlit("1");
    let f = default_form();
    // power: 0 %
    assert(strip_leading_zeros(seq!['0']) == strip_leading_zeros(seq!['0'].drop_first()));
    assert(seq!['0'].drop_first() =~= Seq::<char>::empty());
    lemma_nat_text(0);
    assert(nat_text(0) =~= "0"@);
    let e = Seq::<char>::empty();
    let z = seq!['0', '0', '0'];
    assert(pad3(e) =~= z);
    assert(seq!['0'].drop_first() + z =~= z);
    assert(milli_digits(seq!['0'], e) =~= z);
    assert(z.take(0) =~= e);
    assert(z.skip(0) =~= z);
    lemma_three_zeros();
    assert(decimal_text(false, seq!['0'], e) =~= seq!['0']);
    assert(digits_value(seq!['0']) == 0) by {
        assert(digits_value(e) == 0);
    }
    assert(milli_floor(seq!['0'], e) == 0);
    assert(!beyond_milli(e));
    decimal_text_round_trip(
        false,
        seq!['0'],
        e,
        "Power"@,
        POWER_MIN_MILLI as nat,
        POWER_MAX_MILLI as nat,
        "0"@,
        "100"@,
    );
    assert(f.power_percent =~= seq!['0']);
    // alarm temperature: 80 C
    let eighty = seq!['8', '0'];
    assert(eighty.drop_last() =~= seq!['8']);
    assert(seq!['8'].drop_last() =~= e);
    assert(digits_value(e) == 0);
    assert(digits_value(seq!['8']) == 8);
    assert(digits_value(eighty) == digits_value(seq!['8']) * 10 + digit_val('0'));
    assert(digits_value(eighty) == 80);
    lemma_default_decimal(
        eighty,
        ALARM_TEMP_MIN_MILLI as nat,
        ALARM_TEMP_MAX_MILLI as nat,
        "Alarm temperature"@,
        "40"@,
        "100"@,
    );
    assert(f.alarm_temp_c =~= eighty);
    // PI 0000
    pi_text_round_trip(0);
    assert(hex4_upper(0) =~= "0000"@);
    // ECC 0, DI 1, PTY 0
    u8_text_round_trip(0, "RDS ECC"@, 0, 255);
    u8_text_round_trip(1, "RDS DI"@, 0, 15);
    u8_text_round_trip(0, "RDS PTY"@, 0, 31);
    assert(nat_text(1) =~= "1"@);
}

/// Lines of a report, applied in turn, keep the numeric settings of the form
/// as saving writes them.
pub proof fn lemma_apply_lines_keeps_numbers(form: FormModel, s: Seq<char>)
    requires
        numbers_as_saved(form),
        apply_lines(form, s) is Ok,
    ensures
        numbers_as_saved(apply_lines(form, s)->Ok_0),
    decreases s.len(),
{
    let n = run_len(s, newline_sep());
    let line = trim(s.take(n as int));
    lemma_apply_line_keeps_numbers(form, line);
    let f = apply_line(form, line)->Ok_0;
    if n < s.len() {
        lemma_apply_lines_keeps_numbers(f, s.skip(n + 1int));
    }
}

/// The commands that save a form whose numeric settings are already written
/// as saving writes them: each setting goes out as the form holds it.
pub open spec fn saved_as_held(f: FormModel, afs: Seq<char>) -> Seq<Seq<char>> {
    seq!["config-power:"@ + f.power_percent] + (if f.frequency_mhz.len() == 0 {
        seq![]
    } else {
        seq!["config-fq:"@ + f.frequency_mhz]
    }) + seq![
        "config-audio-stereo:"@ + flag_digit(f.stereo_mode),
        "config-audio-input:"@ + flag_digit(f.digital_audio_input),
        "config-audio-gain:"@ + nat_text(f.audio_gain as nat),
        "config-audio-pre:"@ + flag_digit(f.preemphasis_50us),
        "config-alarm-temp:"@ + f.alarm_temp_c,
        "config-rds:"@ + flag_digit(f.rds_enabled),
        "config-rds-pi:"@ + f.rds_pi_hex,
        "config-rds-ecc:"@ + f.rds_ecc,
        "config-rds-ps:"@ + f.rds_ps,
        "config-rds-rt:"@ + f.rds_rt,
        "config-rds-tp:"@ + flag_digit(f.rds_tp),
        "config-rds-ta:"@ + flag_digit(f.rds_ta),
        "config-rds-ms:"@ + flag_digit(f.rds_ms),
        "config-rds-di:"@ + f.rds_di,
        "config-rds-pty:"@ + f.rds_pty,
        "config-rds-afs:"@ + afs,
        "config-save"@,
    ]
}

/// A form whose numeric settings are written as saving writes them is saved
/// exactly when its texts pass their checks, and then each setting goes out
/// as the form holds it.
#[verifier::rlimit(60)]
#[verifier::spinoff_prover]
pub proof fn save_keeps_written_numbers(f: FormModel)
    requires
        numbers_as_saved(f),
    ensures
        save_commands(f) is Ok <==> (checked_text(f.rds_ps, "RDS PS"@, 8) is Ok && checked_text(
            f.rds_rt,
            "RDS RT"@,
            64,
        ) is Ok && af_payload(f.rds_afs) is Ok),
        save_commands(f) is Ok ==> save_commands(f)->Ok_0 == saved_as_held(
            f,
            af_payload(f.rds_afs)->Ok_0,
        ),
{
    if f.frequency_mhz.len() == 0 {
        assert(trim(f.frequency_mhz).len() == 0);
        assert(frequency_commands(f.frequency_mhz) == Ok::<Seq<Seq<char>>, Seq<char>>(seq![]));
    } else {
        assert(frequency_commands(f.frequency_mhz) == Ok::<Seq<Seq<char>>, Seq<char>>(
            seq!["config-fq:"@ + f.frequency_mhz],
        ));
    }
    if save_commands(f) is Ok {
        let pi = hex_u16(f.rds_pi_hex)->Ok_0;
        let ecc = u8_in_range(f.rds_ecc, "RDS ECC"@, 0, 255)->Ok_0;
        let di = u8_in_range(f.rds_di, "RDS DI"@, 0, 15)->Ok_0;
        let pty = u8_in_range(f.rds_pty, "RDS PTY"@, 0, 31)->Ok_0;
        let afs = af_payload(f.rds_afs)->Ok_0;
        let fq = frequency_commands(f.frequency_mhz)->Ok_0;
        assert(save_commands(f)->Ok_0 == command_list(
            f,
            f.power_percent,
            fq,
            f.alarm_temp_c,
            pi,
            ecc,
            f.rds_ps,
            f.rds_rt,
            di,
            pty,
            afs,
        ));
        assert(command_list(f, f.power_percent, fq, f.alarm_temp_c, pi, ecc, f.rds_ps, f.rds_rt, di, pty, afs)
            =~= saved_as_held(f, afs));
    }
}

/// Settings read from the transmitter and saved at once go back as they
/// were read: every numeric setting passes the checks of saving unchanged,
/// so the save fails only on the texts (PS, RT, the alternative
/// frequencies), and when it succeeds each setting is sent as the form holds it.
#[verifier::rlimit(60)]
#[verifier::spinoff_prover]
pub proof fn read_then_save(response: Seq<char>)
    requires
        form_from_response(response) is Ok,
    ensures
        ({
            let f = form_from_response(response)->Ok_0;
            &&& numbers_as_saved(f)
            &&& save_commands(f) is Ok <==> (checked_text(f.rds_ps, "RDS PS"@, 8) is Ok
                && checked_text(f.rds_rt, "RDS RT"@, 64) is Ok && af_payload(f.rds_afs) is Ok)
            &&& save_commands(f) is Ok ==> save_commands(f)->Ok_0 == saved_as_held(
                f,
                af_payload(f.rds_afs)->Ok_0,
            )
        }),
{
    let block = settings_block(response)->Some_0;
    default_numbers_as_saved();
    lemma_apply_lines_keeps_numbers(default_form(), block);
    save_keeps_written_numbers(form_from_response(response)->Ok_0);
}

proof fn lemma_first_preferred(ports: Seq<PortModel>)
    ensures
        first_preferred(ports) is Some <==> any_preferred(ports),
        first_preferred(ports) matches Some(name) ==> exists|i: int|
            0 <= i < ports.len() && ports[i].is_preferred_device && #[trigger] ports[i].port_name
                == name,
    decreases ports.len(),
{
    if ports.len() > 0 {
        let rest = ports.drop_first();
        lemma_first_preferred(rest);
        if !ports[0].is_preferred_device {
            if any_preferred(ports) {
                let i = choose|i: int| 0 <= i < ports.len() && ports[i].is_preferred_device;
                assert(rest[i - 1] == ports[i]);
            }
            if any_preferred(rest) {
                let i = choose|i: int| 0 <= i < rest.len() && rest[i].is_preferred_device;
                assert(rest[i] == ports[i + 1]);
            }
            if let Some(name) = first_preferred(rest) {
                let i = choose|i: int|
                    0 <= i < rest.len() && rest[i].is_preferred_device && #[trigger] rest[i].port_name
                        == name;
                assert(rest[i] == ports[i + 1]);
            }
        } else {
            assert(ports[0].port_name == ports[0].port_name);
        }
    }
}

/// After a scan the selected port is one of the listed ports whenever any
/// is listed, and the transmitter's adapter when one is listed; with no
/// port listed nothing is selected.
pub proof fn selection_is_listed(ports: Seq<PortModel>, selected: Seq<char>)
    ensures
        ports.len() > 0 ==> has_port(ports, default_selection(ports, selected)),
        ports.len() == 0 ==> default_selection(ports, selected) == Seq::<char>::empty(),
        any_preferred(ports) ==> exists|i: int|
            0 <= i < ports.len() && ports[i].is_preferred_device && #[trigger] ports[i].port_name
                == default_selection(ports, selected),
{
    lemma_first_preferred(ports);
    if ports.len() > 0 {
        if let Some(name) = first_preferred(ports) {
            let i = choose|i: int|
                0 <= i < ports.len() && ports[i].is_preferred_device && #[trigger] ports[i].port_name
                    == name;
            assert(ports[i].port_name == default_selection(ports, selected));
        } else if !has_port(ports, selected) {
            assert(ports[0].port_name == default_selection(ports, selected));
        }
    }
}

// ---------------------------------------------------------------------------
// The list of alternative frequencies sent to the transmitter reads back as itself.

/// A non-empty piece of text without separators.
pub open spec fn is_word(a: Seq<char>, sep: spec_fn(char) -> bool) -> bool {
    a.len() > 0 && forall|i: int| 0 <= i < a.len() ==> !sep(#[trigger] a[i])
}

proof fn lemma_run_len_word(a: Seq<char>, rest: Seq<char>, sep: spec_fn(char) -> bool)
    requires
        forall|i: int| 0 <= i < a.len() ==> !sep(#[trigger] a[i]),
        rest.len() == 0 || sep(rest[0]),
    ensures
        run_len(a + rest, sep) == a.len(),
    decreases a.len(),
{
    if a.len() == 0 {
        assert(a + rest =~= rest);
    } else {
        let t = a.drop_first();
        assert forall|i: int| 0 <= i < t.len() implies !sep(#[trigger] t[i]) by {
            assert(t[i] == a[i + 1]);
        }
        lemma_run_len_word(t, rest, sep);
        assert((a + rest).drop_first() =~= t + rest);
        assert((a + rest)[0] == a[0]);
    }
}

proof fn lemma_words_word_first(a: Seq<char>, rest: Seq<char>, sep: spec_fn(char) -> bool)
    requires
        is_word(a, sep),
        rest.len() == 0 || sep(rest[0]),
    ensures
        words(a + rest, sep) == seq![a] + words(rest, sep),
{
    lemma_run_len_word(a, rest, sep);
    let s = a + rest;
    assert(s[0] == a[0]);
    assert(s.take(a.len() as int) =~= a);
    assert(s.skip(a.len() as int) =~= rest);
}

proof fn lemma_join_front(pieces: Seq<Seq<char>>, sep: Seq<char>)
    requires
        pieces.len() >= 2,
    ensures
        join(pieces, sep) == pieces[0] + sep + join(pieces.drop_first(), sep),
    decreases pieces.len(),
{
    if pieces.len() == 2 {
        assert(pieces.drop_last() =~= seq![pieces[0]]);
        assert(pieces.drop_first() =~= seq![pieces[1]]);
        assert(join(pieces.drop_last(), sep) == pieces[0]);
        assert(join(pieces.drop_first(), sep) == pieces[1]);
    } else {
        lemma_join_front(pieces.drop_last(), sep);
        assert(pieces.drop_last().drop_first() =~= pieces.drop_first().drop_last());
        assert(pieces.drop_last()[0] == pieces[0]);
        assert(pieces.drop_first().last() == pieces.last());
        let a = join(pieces.drop_last().drop_first(), sep);
        assert(join(pieces.drop_first(), sep) == join(pieces.drop_first().drop_last(), sep) + sep
            + pieces.drop_first().last());
        assert(join(pieces, sep) == join(pieces.drop_last(), sep) + sep + pieces.last());
        assert(pieces[0] + sep + a + sep + pieces.last() =~= pieces[0] + sep + (a + sep
            + pieces.last()));
    }
}

/// Words joined by single spaces split back into the same words.
pub proof fn lemma_words_of_join(texts: Seq<Seq<char>>)
    requires
        forall|i: int| 0 <= i < texts.len() ==> is_word(#[trigger] texts[i], list_sep()),
    ensures
        words(join(texts, seq![' ']), list_sep()) == texts,
    decreases texts.len(),
{
    let sp = seq![' '];
    if texts.len() == 0 {
    } else if texts.len() == 1 {
        lemma_words_word_first(texts[0], Seq::<char>::empty(), list_sep());
        assert(texts[0] + Seq::<char>::empty() =~= texts[0]);
        assert(seq![texts[0]] + Seq::<Seq<char>>::empty() =~= texts);
    } else {
        let rest = texts.drop_first();
        assert forall|i: int| 0 <= i < rest.len() implies is_word(#[trigger] rest[i], list_sep()) by {
            assert(rest[i] == texts[i + 1]);
        }
        lemma_words_of_join(rest);
        lemma_join_front(texts, sp);
        let j = join(rest, sp);
        assert(texts[0] + sp + j =~= texts[0] + (sp + j));
        assert(is_ws(' '));
        lemma_words_word_first(texts[0], sp + j, list_sep());
        assert((sp + j).drop_first() =~= j);
        assert(words(sp + j, list_sep()) == words(j, list_sep()));
        assert(seq![texts[0]] + rest =~= texts);
    }
}

/// An alternative frequency as the library writes it.
pub open spec fn is_af_text(s: Seq<char>) -> bool {
    exists|t: int| 876 <= t <= 1079 && s == #[trigger] af_text(t)
}

/// A frequency in tenths written with one decimal reads back as itself.
#[verifier::spinoff_prover]
pub proof fn lemma_af_text_reads(t: int)
    requires
        876 <= t <= 1079,
    ensures
        trim(af_text(t)) == af_text(t),
        af_tenths(af_text(t)) == Ok::<int, Seq<char>>(t),
        is_word(af_text(t), list_sep()),
{
    let w = nat_text((t / 10) as nat);
    let d = digit_char((t % 10) as nat);
    let tail = seq!['.', d];
    let s = af_text(t);
    lemma_nat_text((t / 10) as nat);
    lemma_digit_char_roundtrip((t % 10) as nat);
    assert(s == w + tail);
    assert(s[0] == w[0]);
    assert(is_digit(w[0]));
    assert(s.last() == d);
    lemma_trim_noop(s);
    reveal_strlit("inf");
    reveal_strlit("infinity");
    reveal_strlit("nan");
    lemma_not_word(s, "inf"@);
    lemma_not_word(s, "infinity"@);
    lemma_not_word(s, "nan"@);
    lemma_find_after_digits(w, tail, 0);
    assert forall|i: int| 0 <= i < s.len() implies s[i] != 'e' && s[i] != 'E' by {
        if i < w.len() {
            assert(s[i] == w[i]);
            assert(is_digit(w[i]));
        } else if i == w.len() {
            assert(s[i] == '.');
        } else {
            assert(s[i] == d);
        }
    }
    lemma_no_exponent(s);
    assert(s.take(w.len() as int) =~= w);
    assert(s.skip(w.len() + 1int) =~= seq![d]);
    assert(all_digits(seq![d]));
    assert(number_text(s) == (NumberText::Finite {
        negative: false,
        int_digits: w,
        frac_digits: seq![d],
    }));
    assert(frac_digit(seq![d], 0) == t % 10);
    assert(af_rounded_tenths(w, seq![d]) == t);
    assert(af_on_step(seq![d]));
    assert forall|i: int| 0 <= i < s.len() implies !(list_sep())(#[trigger] s[i]) by {
        if i < w.len() {
            assert(s[i] == w[i]);
            assert(is_digit(w[i]));
        } else if i == w.len() {
            assert(s[i] == '.');
        } else {
            assert(s[i] == d);
        }
    }
}

proof fn lemma_af_texts_written(tokens: Seq<Seq<char>>)
    requires
        af_texts(tokens) is Ok,
    ensures
        af_texts(tokens)->Ok_0.len() == tokens.len(),
        forall|i: int|
            0 <= i < tokens.len() ==> is_af_text(#[trigger] af_texts(tokens)->Ok_0[i]),
    decreases tokens.len(),
{
    if tokens.len() > 0 {
        let t = af_tenths(trim(tokens[0]))->Ok_0;
        lemma_af_texts_written(tokens.drop_first());
        let rest = af_texts(tokens.drop_first())->Ok_0;
        let all = af_texts(tokens)->Ok_0;
        assert(all == seq![af_text(t)] + rest);
        assert forall|i: int| 0 <= i < tokens.len() implies is_af_text(#[trigger] all[i]) by {
            if i == 0 {
                assert(all[0] == af_text(t));
            } else {
                assert(all[i] == rest[i - 1]);
            }
        }
    }
}

proof fn lemma_af_texts_fixed(texts: Seq<Seq<char>>)
    requires
        forall|i: int| 0 <= i < texts.len() ==> is_af_text(#[trigger] texts[i]),
    ensures
        af_texts(texts) == Ok::<Seq<Seq<char>>, Seq<char>>(texts),
    decreases texts.len(),
{
    if texts.len() > 0 {
        let rest = texts.drop_first();
        assert forall|i: int| 0 <= i < rest.len() implies is_af_text(#[trigger] rest[i]) by {
            assert(rest[i] == texts[i + 1]);
        }
        lemma_af_texts_fixed(rest);
        assert(is_af_text(texts[0]));
        let t = choose|t: int| 876 <= t <= 1079 && texts[0] == #[trigger] af_text(t);
        lemma_af_text_reads(t);
        assert(trim(texts[0]) == texts[0]);
        assert(af_tenths(trim(texts[0])) == Ok::<int, Seq<char>>(t));
        assert(seq![af_text(t)] + rest =~= texts);
    } else {
        assert(texts =~= Seq::<Seq<char>>::empty());
    }
}

/// The list of alternative frequencies that is sent to the transmitter is
/// accepted again and written the same: building the payload of a payload
/// gives it back.
pub proof fn af_payload_is_stable(raw: Seq<char>)
    requires
        af_payload(raw) is Ok,
    ensures
        af_payload(af_payload(raw)->Ok_0) == af_payload(raw),
{
    let tokens = words(raw, list_sep());
    let p = af_payload(raw)->Ok_0;
    if tokens.len() == 0 {
        assert(p == Seq::<char>::empty());
        assert(words(p, list_sep()) == Seq::<Seq<char>>::empty());
    } else {
        lemma_af_texts_written(tokens);
        let texts = af_texts(tokens)->Ok_0;
        assert forall|i: int| 0 <= i < texts.len() implies is_word(#[trigger] texts[i], list_sep()) by {
            assert(is_af_text(texts[i]));
            let t = choose|t: int| 876 <= t <= 1079 && texts[i] == #[trigger] af_text(t);
            lemma_af_text_reads(t);
        }
        lemma_words_of_join(texts);
        lemma_af_texts_fixed(texts);
    }
}

// ---------------------------------------------------------------------------
// Device operations.

/// Runs an operation on a sequence of command outcomes: how many of them it
/// takes, and how it ends (`None` while a command is still due).
pub open spec fn run_operation(m: OperationModel, events: Seq<EventModel>) -> (nat, Option<
    Result<Seq<char>, Seq<char>>,
>)
    decreases events.len(),
{
    if events.len() == 0 {
        (0, None)
    } else {
        match step_result(m, events[0]) {
            Some(r) => (1, Some(r)),
            None => {
                let rest = run_operation(
                    OperationModel { next: m.next + 1, ..m },
                    events.drop_first(),
                );
                (rest.0 + 1, rest.1)
            },
        }
    }
}

/// An operation sends its commands in the order planned, one per outcome,
/// and never more than planned; it goes on only after an answer, stops at
/// the first failure, and succeeds only once every command has been
/// answered and the answer to the last one (`?`) reads as a form.
pub proof fn operation_follows_its_plan(m: OperationModel, events: Seq<EventModel>)
    requires
        operation_running(m),
    ensures
        ({
            let (k, out) = run_operation(m, events);
            &&& k <= events.len()
            &&& m.next + k <= m.commands.len()
            &&& forall|i: int| 0 <= i < k - 1 ==> #[trigger] events[i] is Answered && events[i]->Answered_0 is Ok
            &&& out is None ==> k == events.len() && m.next + k < m.commands.len()
            &&& out is Some ==> k >= 1
            &&& out matches Some(Ok(text)) ==> {
                &&& text == m.success
                &&& m.next + k == m.commands.len()
                &&& events[k - 1] matches EventModel::Answered(Ok(response))
                &&& form_from_response(response) is Ok
            }
        }),
    decreases events.len(),
{
    if events.len() > 0 {
        match step_result(m, events[0]) {
            Some(r) => {},
            None => {
                let m2 = OperationModel { next: m.next + 1, ..m };
                operation_follows_its_plan(m2, events.drop_first());
                let rest = events.drop_first();
                let (k2, out2) = run_operation(m2, rest);
                assert forall|i: int| 0 <= i < k2 + 1 - 1 implies #[trigger] events[i] is Answered
                    && events[i]->Answered_0 is Ok by {
                    if i > 0 {
                        assert(events[i] == rest[i - 1]);
                    }
                }
                if out2 is Some {
                    assert(events[(k2 + 1) - 1] == rest[k2 - 1]);
                }
            },
        }
    }
}

/// Over any run of the serial controller, starting from its initial state
/// and moving only by the methods of `Controller` (each of which states
/// `keeps_invariants`, as do the `record_*` functions they use), no counter
/// ever goes down and the log never holds more than `MAX_LOG_LINES` lines.
/// `Controller::snapshot` adds that a published state is busy exactly while
/// an operation runs, so the state published once a request has been
/// handled is not busy.
pub proof fn controller_run_keeps_invariants(states: Seq<SnapshotModel>)
    requires
        states.len() > 0,
        states[0] == initial_snapshot(),
        forall|i: int| 0 <= i < states.len() - 1 ==> keeps_invariants(#[trigger] states[i], states[i + 1]),
    ensures
        forall|j: int, k: int| 0 <= j <= k < states.len() ==> counters_le(#[trigger] states[j], #[trigger] states[k]),
        forall|j: int| 0 <= j < states.len() ==> (#[trigger] states[j]).log_lines.len() <= MAX_LOG_LINES,
        !states[0].busy,
    decreases states.len(),
{
    if states.len() > 1 {
        let prev = states.drop_last();
        assert forall|i: int| 0 <= i < prev.len() - 1 implies keeps_invariants(#[trigger] prev[i], prev[i + 1]) by {
            assert(prev[i] == states[i] && prev[i + 1] == states[i + 1]);
            assert(keeps_invariants(states[i], states[i + 1]));
        }
        controller_run_keeps_invariants(prev);
        let n = states.len() - 1;
        assert(keeps_invariants(states[n - 1], states[n]));
        assert forall|j: int, k: int| 0 <= j <= k < states.len() implies counters_le(#[trigger] states[j], #[trigger] states[k]) by {
            if k < n {
                assert(prev[j] == states[j] && prev[k] == states[k]);
                assert(counters_le(prev[j], prev[k]));
            } else if j < n {
                assert(prev[j] == states[j] && prev[n - 1] == states[n - 1]);
                assert(counters_le(prev[j], prev[n - 1]));
            }
        }
        assert forall|j: int| 0 <= j < states.len() implies (#[trigger] states[j]).log_lines.len() <= MAX_LOG_LINES by {
            if j < n {
                assert(prev[j] == states[j]);
                assert(prev[j].log_lines.len() <= MAX_LOG_LINES);
            } else {
                assert(prev[n - 1] == states[n - 1]);
                assert(prev[n - 1].log_lines.len() <= MAX_LOG_LINES);
            }
        }
    }
}

// ---------------------------------------------------------------------------
// Reading answers.

/// What `find_from` gives: the first occurrence at or after `i`, or none.
pub proof fn lemma_find_from_first(s: Seq<char>, p: Seq<char>, i: int)
    requires
        p.len() > 0,
        0 <= i,
    ensures
        match find_from(s, p, i) {
            Some(j) => i <= j && occurs_at(s, p, j) && forall|k: int| i <= k < j ==> !occurs_at(s, p, k),
            None => forall|k: int| i <= k ==> !occurs_at(s, p, k),
        },
    decreases s.len() - i,
{
    if i + p.len() <= s.len() && !occurs_at(s, p, i) {
        lemma_find_from_first(s, p, i + 1);
    }
}

/// `find` of a pattern that occurs first at `j`, or nowhere.
pub proof fn lemma_find_is(s: Seq<char>, p: Seq<char>, j: Option<int>)
    requires
        p.len() > 0,
        match j {
            Some(j) => occurs_at(s, p, j) && forall|k: int| 0 <= k < j ==> !occurs_at(s, p, k),
            None => forall|k: int| 0 <= k ==> !occurs_at(s, p, k),
        },
    ensures
        find(s, p) == j,
{
    lemma_find_from_first(s, p, 0);
    match find(s, p) {
        Some(f) => {
            if let Some(jj) = j {
                if f < jj {
                } else if jj < f {
                    assert(!occurs_at(s, p, jj));
                }
            }
        },
        None => {
            if let Some(jj) = j {
                assert(!occurs_at(s, p, jj));
            }
        },
    }
}

pub proof fn lemma_trim_start_suffix(s: Seq<char>)
    ensures
        trim_start(s).len() <= s.len(),
        trim_start(s) == s.skip(s.len() - trim_start(s).len()),
        trim_start(s).len() > 0 ==> !is_ws(trim_start(s)[0]),
    decreases s.len(),
{
    if s.len() > 0 && is_ws(s[0]) {
        lemma_trim_start_suffix(s.drop_first());
        assert(s.drop_first().skip(s.drop_first().len() - trim_start(s).len()) =~= s.skip(
            s.len() - trim_start(s).len(),
        ));
    } else {
        assert(s.skip(0) =~= s);
    }
}

pub proof fn lemma_trim_end_prefix(s: Seq<char>)
    ensures
        trim_end(s).len() <= s.len(),
        trim_end(s) == s.take(trim_end(s).len() as int),
        trim_end(s).len() > 0 ==> !is_ws(trim_end(s).last()),
        forall|k: int| trim_end(s).len() <= k < s.len() ==> is_ws(s[k]),
    decreases s.len(),
{
    if s.len() > 0 && is_ws(s.last()) {
        lemma_trim_end_prefix(s.drop_last());
        assert(s.drop_last().take(trim_end(s).len() as int) =~= s.take(trim_end(s).len() as int));
        assert forall|k: int| trim_end(s).len() <= k < s.len() implies is_ws(s[k]) by {
            if k < s.len() - 1 {
                assert(s[k] == s.drop_last()[k]);
            }
        }
    } else {
        assert(s.take(s.len() as int) =~= s);
    }
}

/// Trimmed text is its own trim.
pub proof fn lemma_trim_twice(s: Seq<char>)
    ensures
        trim(trim(s)) == trim(s),
{
    let a = trim_start(s);
    lemma_trim_start_suffix(s);
    lemma_trim_end_prefix(a);
    let t = trim_end(a);
    if t.len() > 0 {
        assert(t[0] == a[0]);
        assert(trim_start(t) == t);
        assert(trim_end(t) == t);
    } else {
        assert(trim_start(t) == t);
        assert(trim_end(t) == t);
    }
}

/// A pattern found nowhere in `s` is found nowhere in a piece of it.
pub proof fn lemma_absent_in_piece(s: Seq<char>, p: Seq<char>, a: int, b: int)
    requires
        0 <= a <= b <= s.len(),
        forall|k: int| 0 <= k ==> !occurs_at(s, p, k),
    ensures
        forall|k: int| 0 <= k ==> !occurs_at(s.subrange(a, b), p, k),
{
    let t = s.subrange(a, b);
    assert forall|k: int| 0 <= k implies !occurs_at(t, p, k) by {
        if occurs_at(t, p, k) {
            assert(t.subrange(k, k + p.len()) =~= s.subrange(a + k, a + k + p.len()));
            assert(occurs_at(s, p, a + k));
        }
    }
}

/// The trim of `s` is a piece of it.
pub proof fn lemma_trim_piece(s: Seq<char>)
    ensures
        exists|a: int, b: int| 0 <= a <= b <= s.len() && trim(s) == s.subrange(a, b),
{
    lemma_trim_start_suffix(s);
    let a = trim_start(s);
    lemma_trim_end_prefix(a);
    let start = s.len() - a.len();
    let end = start + trim_end(a).len();
    assert(trim(s) =~= s.subrange(start, end));
}

pub open spec fn settings_marker() -> Seq<char> {
    "Current settings:"@
}

/// Text that starts with the marker: the marker is found at its start, and
/// trimming it removes only trailing whitespace and keeps the marker.
proof fn lemma_block_start(b: Seq<char>)
    requires
        occurs_at(b, settings_marker(), 0),
    ensures
        find(b, settings_marker()) == Some(0int),
        trim(b) == trim_end(b),
        occurs_at(trim(b), settings_marker(), 0),
        find(trim(b), settings_marker()) == Some(0int),
{
    reveal_strlit("Current settings:");
    let m = settings_marker();
    assert(b[0] == m[0]);
    assert(b.subrange(0, m.len() as int)[0] == b[0]);
    assert(!is_ws(b[0]));
    assert(trim_start(b) == b);
    lemma_find_is(b, m, Some(0));
    lemma_trim_end_prefix(b);
    let t = trim_end(b);
    assert(b[m.len() - 1] == m[m.len() - 1]) by {
        assert(b.subrange(0, m.len() as int)[m.len() - 1] == b[m.len() - 1]);
    }
    assert(!is_ws(b[m.len() - 1]));
    assert(t.len() >= m.len());
    assert(t.subrange(0, m.len() as int) =~= b.subrange(0, m.len() as int));
    lemma_find_is(t, m, Some(0));
}

/// The text shown for an answer, shown again, is the same.
pub proof fn display_text_is_stable(r: Seq<char>)
    ensures
        display_text(display_text(r)) == display_text(r),
{
    reveal_strlit("Current settings:");
    let m = settings_marker();
    lemma_find_from_first(r, m, 0);
    match find(r, m) {
        Some(i) => {
            let b = r.skip(i);
            assert(b.subrange(0, m.len() as int) =~= r.subrange(i, i + m.len()));
            lemma_block_start(b);
            let d = trim(b);
            assert(d.skip(0) =~= d);
            lemma_trim_twice(b);
        },
        None => {
            let d = trim(r);
            lemma_trim_piece(r);
            let (a, bb) = choose|a: int, b: int| 0 <= a <= b <= r.len() && trim(r) == r.subrange(a, b);
            lemma_absent_in_piece(r, m, a, bb);
            lemma_find_is(d, m, None);
            lemma_trim_twice(r);
        },
    }
}

/// Text before the marker that does not hold the marker changes nothing in
/// what a report reads as.
pub proof fn text_before_settings_is_ignored(p: Seq<char>, r: Seq<char>)
    requires
        find(p, settings_marker()) is None,
    ensures
        settings_block(p + seq!['\n'] + r) == settings_block(r),
        form_from_response(p + seq!['\n'] + r) == form_from_response(r),
{
    lemma_block_after_text(p, r);
}

#[verifier::rlimit(40)]
proof fn lemma_block_after_text(p: Seq<char>, r: Seq<char>)
    requires
        find(p, settings_marker()) is None,
    ensures
        settings_block(p + seq!['\n'] + r) == settings_block(r),
{
    reveal_strlit("Current settings:");
    let m = settings_marker();
    let s = p + seq!['\n'] + r;
    let off = p.len() + 1;
    lemma_find_from_first(p, m, 0);
    lemma_find_from_first(r, m, 0);
    assert forall|k: int| 0 <= k < off implies !occurs_at(s, m, k) by {
        if occurs_at(s, m, k) {
            if k + m.len() <= p.len() {
                assert(s.subrange(k, k + m.len()) =~= p.subrange(k, k + m.len()));
                assert(occurs_at(p, m, k));
            } else {
                let q = p.len() - k;
                assert(0 <= q < m.len());
                assert(s.subrange(k, k + m.len())[q] == s[p.len() as int]);
                assert(s[p.len() as int] == '\n');
                assert(m[q] != '\n');
            }
        }
    }
    assert forall|j: int| 0 <= j implies occurs_at(s, m, off + j) == occurs_at(r, m, j) by {
        if j + m.len() <= r.len() {
            assert(s.subrange(off + j, off + j + m.len()) =~= r.subrange(j, j + m.len()));
        }
    }
    match find(r, m) {
        Some(j) => {
            assert forall|k: int| 0 <= k < off + j implies !occurs_at(s, m, k) by {
                if k >= off {
                    assert(occurs_at(s, m, off + (k - off)) == occurs_at(r, m, k - off));
                }
            }
            assert(occurs_at(s, m, off + j) == occurs_at(r, m, j));
            lemma_find_is(s, m, Some(off + j));
            assert(s.skip(off + j) =~= r.skip(j));
        },
        None => {
            assert forall|k: int| 0 <= k implies !occurs_at(s, m, k) by {
                if k >= off {
                    assert(occurs_at(s, m, off + (k - off)) == occurs_at(r, m, k - off));
                }
            }
            lemma_find_is(s, m, None);
        },
    }
}

pub open spec fn all_ws(s: Seq<char>) -> bool {
    forall|i: int| 0 <= i < s.len() ==> is_ws(#[trigger] s[i])
}

proof fn lemma_run_len_append(a: Seq<char>, b: Seq<char>, sep: spec_fn(char) -> bool)
    ensures
        run_len(a + b, sep) == if run_len(a, sep) < a.len() {
            run_len(a, sep)
        } else {
            a.len() + run_len(b, sep)
        },
        run_len(a, sep) <= a.len(),
    decreases a.len(),
{
    if a.len() == 0 {
        assert(a + b =~= b);
    } else {
        assert((a + b)[0] == a[0]);
        assert((a + b).drop_first() =~= a.drop_first() + b);
        lemma_run_len_append(a.drop_first(), b, sep);
    }
}

proof fn lemma_trim_start_append_ws(x: Seq<char>, y: Seq<char>)
    requires
        x.len() > 0,
        !is_ws(x.last()),
    ensures
        trim_start(x + y) == trim_start(x) + y,
    decreases x.len(),
{
    assert((x + y)[0] == x[0]);
    if is_ws(x[0]) {
        assert(x.len() > 1);
        assert((x + y).drop_first() =~= x.drop_first() + y);
        assert(x.drop_first().last() == x.last());
        lemma_trim_start_append_ws(x.drop_first(), y);
    }
}

proof fn lemma_trim_end_append_ws(z: Seq<char>, y: Seq<char>)
    requires
        all_ws(y),
    ensures
        trim_end(z + y) == trim_end(z),
    decreases y.len(),
{
    if y.len() == 0 {
        assert(z + y =~= z);
    } else {
        assert((z + y).last() == y.last());
        assert(is_ws(y[y.len() - 1]));
        assert((z + y).drop_last() =~= z + y.drop_last());
        assert(all_ws(y.drop_last())) by {
            assert forall|i: int| 0 <= i < y.drop_last().len() implies is_ws(#[trigger] y.drop_last()[i]) by {
                assert(y.drop_last()[i] == y[i]);
            }
        }
        lemma_trim_end_append_ws(z, y.drop_last());
    }
}

proof fn lemma_trim_blank(w: Seq<char>)
    requires
        all_ws(w),
    ensures
        trim(w).len() == 0,
    decreases w.len(),
{
    if w.len() > 0 {
        assert(is_ws(w[0]));
        assert(all_ws(w.drop_first())) by {
            assert forall|i: int| 0 <= i < w.drop_first().len() implies is_ws(#[trigger] w.drop_first()[i]) by {
                assert(w.drop_first()[i] == w[i + 1]);
            }
        }
        lemma_trim_blank(w.drop_first());
    }
}

proof fn lemma_apply_blank_lines(f: FormModel, w: Seq<char>)
    requires
        all_ws(w),
    ensures
        apply_lines(f, w) == Ok::<FormModel, Seq<char>>(f),
    decreases w.len(),
{
    let n = run_len(w, newline_sep());
    lemma_run_len_append(w, Seq::<char>::empty(), newline_sep());
    let line = w.take(n as int);
    assert(all_ws(line)) by {
        assert forall|i: int| 0 <= i < line.len() implies is_ws(#[trigger] line[i]) by {
            assert(line[i] == w[i]);
        }
    }
    lemma_trim_blank(line);
    assert(trim(line) =~= Seq::<char>::empty());
    if n < w.len() {
        let rest = w.skip(n + 1int);
        assert(all_ws(rest)) by {
            assert forall|i: int| 0 <= i < rest.len() implies is_ws(#[trigger] rest[i]) by {
                assert(rest[i] == w[n + 1 + i]);
            }
        }
        lemma_apply_blank_lines(f, rest);
    }
}

/// Whitespace after the last character that is not whitespace changes
/// nothing in what the lines of a report set.
#[verifier::rlimit(60)]
#[verifier::spinoff_prover]
proof fn lemma_apply_lines_trailing_ws(f: FormModel, x: Seq<char>, w: Seq<char>)
    requires
        x.len() > 0,
        !is_ws(x.last()),
        all_ws(w),
    ensures
        apply_lines(f, x + w) == apply_lines(f, x),
    decreases x.len(),
{
    let nl = newline_sep();
    let s = x + w;
    lemma_run_len_append(x, w, nl);
    let nx = run_len(x, nl);
    if nx < x.len() {
        assert(s.take(nx as int) =~= x.take(nx as int));
        let line = trim(x.take(nx as int));
        if nx + 1 == x.len() {
            lemma_run_len_newline(x, nx);
            assert(x.last() == '\n');
            assert(is_ws('\n'));
        } else {
            lemma_run_len_newline(x, nx);
            let xr = x.skip(nx + 1int);
            assert(xr.last() == x.last());
            assert(s.skip(nx + 1int) =~= xr + w);
            if let Ok(f1) = apply_line(f, line) {
                lemma_apply_lines_trailing_ws(f1, xr, w);
            }
        }
    } else {
        let m = run_len(w, nl);
        lemma_run_len_append(w, Seq::<char>::empty(), nl);
        let wl = w.take(m as int);
        assert(s.take((nx + m) as int) =~= x + wl);
        assert(x.take(nx as int) =~= x);
        assert(all_ws(wl)) by {
            assert forall|i: int| 0 <= i < wl.len() implies is_ws(#[trigger] wl[i]) by {
                assert(wl[i] == w[i]);
            }
        }
        lemma_trim_start_append_ws(x, wl);
        lemma_trim_end_append_ws(trim_start(x), wl);
        assert(trim(x + wl) == trim(x));
        if m < w.len() {
            let rest = w.skip(m + 1int);
            assert(s.skip((nx + m + 1) as int) =~= rest);
            assert(all_ws(rest)) by {
                assert forall|i: int| 0 <= i < rest.len() implies is_ws(#[trigger] rest[i]) by {
                    assert(rest[i] == w[m + 1 + i]);
                }
            }
            if let Ok(f1) = apply_line(f, trim(x)) {
                lemma_apply_blank_lines(f1, rest);
            }
        }
    }
}

proof fn lemma_run_len_newline(x: Seq<char>, n: nat)
    requires
        n == run_len(x, newline_sep()),
        n < x.len(),
    ensures
        x[n as int] == '\n',
    decreases x.len(),
{
    if x.len() > 0 && x[0] != '\n' {
        lemma_run_len_newline(x.drop_first(), (n - 1) as nat);
        assert(x[n as int] == x.drop_first()[n - 1]);
    }
}

/// The text shown for an answer reads as the same form as the answer.
pub proof fn display_text_reads_the_same(r: Seq<char>)
    ensures
        form_from_response(display_text(r)) == form_from_response(r),
{
    reveal_strlit("Current settings:");
    let m = settings_marker();
    lemma_find_from_first(r, m, 0);
    match find(r, m) {
        Some(i) => {
            let b = r.skip(i);
            assert(b.subrange(0, m.len() as int) =~= r.subrange(i, i + m.len()));
            lemma_block_start(b);
            let d = trim(b);
            assert(d.skip(0) =~= d);
            lemma_trim_end_prefix(b);
            let w = b.skip(d.len() as int);
            assert(all_ws(w)) by {
                assert forall|k: int| 0 <= k < w.len() implies is_ws(#[trigger] w[k]) by {
                    assert(w[k] == b[d.len() + k]);
                }
            }
            assert(d + w =~= b);
            assert(d.len() >= m.len());
            lemma_apply_lines_trailing_ws(default_form(), d, w);
        },
        None => {
            let d = trim(r);
            lemma_trim_piece(r);
            let (a, bb) = choose|a: int, b: int| 0 <= a <= b <= r.len() && trim(r) == r.subrange(a, b);
            lemma_absent_in_piece(r, m, a, bb);
            lemma_find_is(d, m, None);
        },
    }
}

// ---------------------------------------------------------------------------
// Text settings, read-back after an operation, and the adapter check.

/// A text setting is accepted, unchanged, exactly when it holds no line
/// break and its UTF-8 encoding takes at most `max_bytes` bytes; so the
/// program service (8 bytes) and radio text (64 bytes) may use their whole
/// length.
pub proof fn text_setting_within_limit_is_kept(raw: Seq<char>, label: Seq<char>, max_bytes: nat)
    ensures
        checked_text(raw, label, max_bytes) is Ok <==> ((forall|i: int|
            0 <= i < raw.len() ==> raw[i] != '\n' && raw[i] != '\r')
            && vstd::utf8::encode_utf8(raw).len() <= max_bytes),
        checked_text(raw, label, max_bytes) is Ok ==> checked_text(raw, label, max_bytes)->Ok_0
            == raw,
{
    if exists|i: int| 0 <= i < raw.len() && (raw[i] == '\n' || raw[i] == '\r') {
        let i = choose|i: int| 0 <= i < raw.len() && (raw[i] == '\n' || raw[i] == '\r');
        if raw[i] == '\n' {
            assert(crate::text::contains_char(raw, '\n'));
        } else {
            assert(crate::text::contains_char(raw, '\r'));
        }
    }
}

/// When an operation ends successfully on the answer to its final `?`,
/// whatever commands came before, the state it leaves holds the form read
/// from that answer, shows that answer, and counts one more read; the
/// operation reports its own success text.
pub proof fn final_read_reaches_the_window(
    s: SnapshotModel,
    m: OperationModel,
    response: Seq<char>,
    f: FormModel,
)
    requires
        m.next + 1 == m.commands.len(),
        form_from_response(response) == Ok::<FormModel, Seq<char>>(f),
        s.readback_generation < u64::MAX,
    ensures
        step_snapshot(s, m, EventModel::Answered(Ok(response))).readback_form == Some(f),
        step_snapshot(s, m, EventModel::Answered(Ok(response))).readback_generation
            == s.readback_generation + 1,
        step_snapshot(s, m, EventModel::Answered(Ok(response))).last_response_text == Some(
            display_text(response),
        ),
        step_snapshot(s, m, EventModel::Answered(Ok(response))).tx_commands == s.tx_commands,
        step_snapshot(s, m, EventModel::Answered(Ok(response))).log_lines == s.log_lines,
        step_result(m, EventModel::Answered(Ok(response))) == Some(
            Ok::<Seq<char>, Seq<char>>(m.success),
        ),
{
}

/// The characters of `s` in ASCII lower case.
pub open spec fn lower(s: Seq<char>) -> Seq<char> {
    s.map_values(|c: char| ascii_lower(c))
}

/// Whether `needle` stands somewhere in `s`.
pub open spec fn holds_text(s: Seq<char>, needle: Seq<char>) -> bool {
    exists|k: int| 0 <= k && k + needle.len() <= s.len() && #[trigger] s.subrange(k, k + needle.len()) == needle
}

/// The words that mark the transmitter's USB serial adapter.
pub open spec fn adapter_word(needle: Seq<char>) -> bool {
    ||| needle == "usb serial"@
    ||| needle == "wch"@
    ||| needle == "ch340"@
    ||| needle == "cp210"@
    ||| needle == "ftdi"@
    ||| needle == "arduino"@
    ||| needle == "serial"@
}

proof fn lemma_holds_in_haystack(h: Seq<char>, x: Seq<char>, off: int, needle: Seq<char>)
    requires
        0 <= off,
        off + x.len() <= h.len(),
        forall|i: int| 0 <= i < x.len() ==> h[off + i] == x[i],
        holds_text(x, needle),
        needle.len() > 0,
    ensures
        find(h, needle) is Some,
{
    let k = choose|k: int| 0 <= k && k + needle.len() <= x.len() && #[trigger] x.subrange(k, k + needle.len()) == needle;
    assert(h.subrange(off + k, off + k + needle.len()) =~= x.subrange(k, k + needle.len()));
    assert(occurs_at(h, needle, off + k));
    lemma_find_from_first(h, needle, 0);
}

/// A USB port whose product, manufacturer or serial number contains, in any
/// letter case, one of the adapter words is the transmitter's adapter; each
/// word suffices on its own.
pub proof fn adapter_words_are_recognised(port: PortInfo, info: UsbInfo, needle: Seq<char>)
    requires
        port.port_type == PortKind::Usb(info),
        adapter_word(needle),
        (info.product matches Some(p) && holds_text(lower(p@), needle)) || (
        info.manufacturer matches Some(m) && holds_text(lower(m@), needle)) || (
        info.serial_number matches Some(n) && holds_text(lower(n@), needle)),
    ensures
        preferred_port(port),
{
    reveal_strlit("usb serial");
    reveal_strlit("wch");
    reveal_strlit("ch340");
    reveal_strlit("cp210");
    reveal_strlit("ftdi");
    reveal_strlit("arduino");
    reveal_strlit("serial");
    let a = opt_piece(info.product, seq![' ']);
    let b = opt_piece(info.manufacturer, seq![' ']);
    let c = opt_piece(info.serial_number, seq![]);
    let h = usb_haystack(info);
    assert(h == (a + b + c).map_values(|ch: char| ascii_lower(ch)));
    assert(needle.len() > 0);
    if info.product is Some && holds_text(lower(info.product->Some_0@), needle) {
        let p = info.product->Some_0;
        let x = lower(p@);
        assert forall|i: int| 0 <= i < x.len() implies h[0 + i] == x[i] by {
            assert((a + b + c)[i] == a[i]);
            assert(a[i] == p@[i]);
        }
        lemma_holds_in_haystack(h, x, 0, needle);
    } else if info.manufacturer is Some && holds_text(lower(info.manufacturer->Some_0@), needle) {
        let mm = info.manufacturer->Some_0;
        let x = lower(mm@);
        let off = a.len() as int;
        assert forall|i: int| 0 <= i < x.len() implies h[off + i] == x[i] by {
            assert((a + b + c)[off + i] == b[i]);
            assert(b[i] == mm@[i]);
        }
        lemma_holds_in_haystack(h, x, off, needle);
    } else {
        let nn = info.serial_number->Some_0;
        let x = lower(nn@);
        let off = (a.len() + b.len()) as int;
        assert forall|i: int| 0 <= i < x.len() implies h[off + i] == x[i] by {
            assert((a + b + c)[off + i] == c[i]);
            assert(c[i] == nn@[i]);
        }
        lemma_holds_in_haystack(h, x, off, needle);
    }
}

// ---------------------------------------------------------------------------
// The RDS flags line.

/// A value as the report writes it: its digits, then nothing or text that
/// starts with whitespace (such as ` (on)`), with no comma.
pub open spec fn report_value(v: nat, tail: Seq<char>) -> Seq<char> {
    nat_text(v) + tail
}

pub open spec fn plain_tail(tail: Seq<char>) -> bool {
    &&& tail.len() == 0 || is_ws(tail[0])
    &&& forall|i: int| 0 <= i < tail.len() ==> tail[i] != ','
}

pub open spec fn bit(b: bool) -> nat {
    if b {
        1
    } else {
        0
    }
}

/// `RDS: r, TP: p, TA: a, MS: m, DI: d, PTY: t`, each value with its tail.
pub open spec fn rds_report_line(
    r: Seq<char>,
    p: Seq<char>,
    a: Seq<char>,
    m: Seq<char>,
    d: Seq<char>,
    t: Seq<char>,
) -> Seq<char> {
    "RDS: "@ + r + ", TP: "@ + p + ", TA: "@ + a + ", MS: "@ + m + ", DI: "@ + d + ", PTY: "@ + t
}

/// The first word of a value as the report writes it is its digits.
proof fn lemma_report_value_word(v: nat, tail: Seq<char>)
    requires
        plain_tail(tail),
    ensures
        first_word(trim(report_value(v, tail))) == nat_text(v),
        forall|i: int| 0 <= i < report_value(v, tail).len() ==> report_value(v, tail)[i] != ',',
{
    let nt = nat_text(v);
    lemma_nat_text(v);
    let x = nt + tail;
    assert(x[0] == nt[0]);
    assert(is_digit(nt[0]));
    assert(trim_start(x) == x);
    lemma_trim_end_prefix(x);
    let k = trim_end(x).len();
    assert(x[nt.len() - 1] == nt[nt.len() - 1]);
    assert(is_digit(nt[nt.len() - 1]));
    assert(k >= nt.len());
    let tl = tail.take(k - nt.len());
    assert(trim(x) =~= nt + tl);
    if tl.len() > 0 {
        assert(tl[0] == tail[0]);
    }
    assert forall|i: int| 0 <= i < nt.len() implies !(ws_sep())(#[trigger] nt[i]) by {
        assert(is_digit(nt[i]));
    }
    lemma_words_word_first(nt, tl, ws_sep());
    assert forall|i: int| 0 <= i < x.len() implies x[i] != ',' by {
        if i < nt.len() {
            assert(x[i] == nt[i]);
            assert(is_digit(nt[i]));
        } else {
            assert(x[i] == tail[i - nt.len()]);
        }
    }
}

/// A marker that starts with a comma is found at its first occurrence
/// when no earlier comma starts it.
proof fn lemma_comma_marker(s: Seq<char>, p: Seq<char>, j: int)
    requires
        p.len() > 0,
        p[0] == ',',
        occurs_at(s, p, j),
        forall|k: int| 0 <= k < j && s[k] == ',' ==> !occurs_at(s, p, k),
    ensures
        find(s, p) == Some(j),
{
    assert forall|k: int| 0 <= k < j implies !occurs_at(s, p, k) by {
        if s[k] != ',' && occurs_at(s, p, k) {
            assert(s.subrange(k, k + p.len())[0] == s[k]);
        }
    }
    lemma_find_is(s, p, Some(j));
}

/// The text between a marker found at `c` and the next comma-led marker,
/// when the value between them holds no comma.
proof fn lemma_value_after(s: Seq<char>, c: int, mk: Seq<char>, v: Seq<char>, next: Seq<char>)
    requires
        0 <= c,
        c + mk.len() + v.len() + next.len() <= s.len(),
        s.subrange(c + mk.len(), c + mk.len() + v.len()) == v,
        s.subrange(c + mk.len() + v.len(), c + mk.len() + v.len() + next.len()) == next,
        next.len() > 0,
        next[0] == ',',
        forall|i: int| 0 <= i < v.len() ==> v[i] != ',',
    ensures
        split_once(s.skip(c + mk.len()), next) == Some((v, s.skip(c + mk.len() + v.len() + next.len()))),
{
    let rest = s.skip(c + mk.len());
    assert forall|k: int| 0 <= k < v.len() implies rest[k] == v[k] by {
        assert(rest[k] == s[c + mk.len() + k]);
        assert(s.subrange(c + mk.len(), c + mk.len() + v.len())[k] == s[c + mk.len() + k]);
    }
    assert(rest.subrange(v.len() as int, (v.len() + next.len()) as int) =~= s.subrange(
        c + mk.len() + v.len(),
        c + mk.len() + v.len() + next.len(),
    ));
    lemma_comma_marker(rest, next, v.len() as int);
    assert(rest.take(v.len() as int) =~= v);
    assert(rest.skip((v.len() + next.len()) as int) =~= s.skip(c + mk.len() + v.len() + next.len()));
}

/// Each flag of the form read from an RDS line is the value after its own
/// marker, and DI and PTY are the numbers after theirs: for a report line
/// `RDS: r, TP: p, TA: a, MS: m, DI: d, PTY: t` (each value 0 or 1, or a
/// number in range, possibly followed by text such as ` (on)`), the form
/// has `rds_enabled == (r == 1)`, `rds_tp == (p == 1)`, `rds_ta == (a == 1)`,
/// `rds_ms == (m == 1)`, DI `d`, PTY `t`, and keeps every other setting.
#[verifier::rlimit(100)]
#[verifier::spinoff_prover]
pub proof fn rds_line_sets_each_flag(
    form: FormModel,
    r: bool,
    p: bool,
    a: bool,
    m: bool,
    d: u8,
    t: u8,
    tr: Seq<char>,
    tp: Seq<char>,
    ta: Seq<char>,
    tm: Seq<char>,
    td: Seq<char>,
    tt: Seq<char>,
)
    requires
        d <= 15,
        t <= 31,
        plain_tail(tr),
        plain_tail(tp),
        plain_tail(ta),
        plain_tail(tm),
        plain_tail(td),
        plain_tail(tt),
    ensures
        apply_line(
            form,
            rds_report_line(
                report_value(bit(r), tr),
                report_value(bit(p), tp),
                report_value(bit(a), ta),
                report_value(bit(m), tm),
                report_value(d as nat, td),
                report_value(t as nat, tt),
            ),
        ) == Ok::<FormModel, Seq<char>>(
            FormModel {
                rds_enabled: r,
                rds_tp: p,
                rds_ta: a,
                rds_ms: m,
                rds_di: nat_text(d as nat),
                rds_pty: nat_text(t as nat),
                ..form
            },
        ),
{
    lemma_flag_line_segments(bit(r), bit(p), bit(a), bit(m), d as nat, t as nat, tr, tp, ta, tm, td, tt);
    let vr = report_value(bit(r), tr);
    let vp = report_value(bit(p), tp);
    let va = report_value(bit(a), ta);
    let vm = report_value(bit(m), tm);
    let vd = report_value(d as nat, td);
    let vt = report_value(t as nat, tt);
    let line = rds_report_line(vr, vp, va, vm, vd, vt);
    lemma_report_value_word(bit(r), tr);
    lemma_report_value_word(bit(p), tp);
    lemma_report_value_word(bit(a), ta);
    lemma_report_value_word(bit(m), tm);
    lemma_report_value_word(d as nat, td);
    lemma_report_value_word(t as nat, tt);
    u8_text_round_trip(bit(r) as u8, "RDS"@, 0, 1);
    u8_text_round_trip(bit(p) as u8, "RDS TP"@, 0, 1);
    u8_text_round_trip(bit(a) as u8, "RDS TA"@, 0, 1);
    u8_text_round_trip(bit(m) as u8, "RDS MS"@, 0, 1);
    u8_text_round_trip(d, "RDS DI"@, 0, 15);
    u8_text_round_trip(t, "RDS PTY"@, 0, 31);
    assert(rds_flags_line(form, line) == rds_flag_values(
        form,
        trim(vr),
        trim(vp),
        trim(va),
        trim(vm),
        trim(vd),
        trim(vt),
    ));
    lemma_rds_line_dispatch(line);
}

/// A line that starts with `RDS: ` is read as the RDS flags line.
proof fn lemma_rds_line_dispatch(line: Seq<char>)
    requires
        starts_with(line, "RDS: "@),
    ensures
        forall|form: FormModel| apply_line(form, line) == rds_flags_line(form, line),
{
    reveal_strlit("RDS: ");
    reveal_strlit("Current settings:");
    reveal_strlit("Power: ");
    reveal_strlit("Frequency: ");
    reveal_strlit("Stereo: ");
    reveal_strlit("Alarm temp: ");
    let c = line[0];
    assert(line.take(5)[0] == c);
    assert(c == 'R');
    assert(line.len() > 0);
    assert(line != "Current settings:"@) by {
        if line == "Current settings:"@ {
            assert(line[0] == 'C');
        }
    }
    assert(!starts_with(line, "Power: "@)) by {
        if starts_with(line, "Power: "@) {
            assert(line.take(7)[0] == 'P');
        }
    }
    assert(!starts_with(line, "Frequency: "@)) by {
        if starts_with(line, "Frequency: "@) {
            assert(line.take(11)[0] == 'F');
        }
    }
    assert(!starts_with(line, "Stereo: "@)) by {
        if starts_with(line, "Stereo: "@) {
            assert(line.take(8)[0] == 'S');
        }
    }
    assert(!starts_with(line, "Alarm temp: "@)) by {
        if starts_with(line, "Alarm temp: "@) {
            assert(line.take(12)[0] == 'A');
        }
    }
}

/// Where each piece of an RDS flags line is found.
#[verifier::rlimit(100)]
#[verifier::spinoff_prover]
proof fn lemma_flag_line_segments(
    r: nat,
    p: nat,
    a: nat,
    m: nat,
    d: nat,
    t: nat,
    tr: Seq<char>,
    tp: Seq<char>,
    ta: Seq<char>,
    tm: Seq<char>,
    td: Seq<char>,
    tt: Seq<char>,
)
    requires
        plain_tail(tr),
        plain_tail(tp),
        plain_tail(ta),
        plain_tail(tm),
        plain_tail(td),
        plain_tail(tt),
    ensures
        ({
            let vr = report_value(r, tr);
            let vp = report_value(p, tp);
            let va = report_value(a, ta);
            let vm = report_value(m, tm);
            let vd = report_value(d, td);
            let vt = report_value(t, tt);
            let line = rds_report_line(vr, vp, va, vm, vd, vt);
            &&& starts_with(line, "RDS: "@)
            &&& between_markers(line, "RDS: "@, ", TP: "@) == Ok::<Seq<char>, Seq<char>>(trim(vr))
            &&& between_markers(line, ", TP: "@, ", TA: "@) == Ok::<Seq<char>, Seq<char>>(trim(vp))
            &&& between_markers(line, ", TA: "@, ", MS: "@) == Ok::<Seq<char>, Seq<char>>(trim(va))
            &&& between_markers(line, ", MS: "@, ", DI: "@) == Ok::<Seq<char>, Seq<char>>(trim(vm))
            &&& between_markers(line, ", DI: "@, ", PTY: "@) == Ok::<Seq<char>, Seq<char>>(trim(vd))
            &&& after_marker(line, ", PTY: "@) == Ok::<Seq<char>, Seq<char>>(trim(vt))
        }),
{
    reveal_strlit("RDS: ");
    reveal_strlit(", TP: ");
    reveal_strlit(", TA: ");
    reveal_strlit(", MS: ");
    reveal_strlit(", DI: ");
    reveal_strlit(", PTY: ");
    let m0 = "RDS: "@;
    let m1 = ", TP: "@;
    let m2 = ", TA: "@;
    let m3 = ", MS: "@;
    let m4 = ", DI: "@;
    let m5 = ", PTY: "@;
    let vr = report_value(r, tr);
    let vp = report_value(p, tp);
    let va = report_value(a, ta);
    let vm = report_value(m, tm);
    let vd = report_value(d, td);
    let vt = report_value(t, tt);
    lemma_report_value_word(r, tr);
    lemma_report_value_word(p, tp);
    lemma_report_value_word(a, ta);
    lemma_report_value_word(m, tm);
    lemma_report_value_word(d, td);
    lemma_report_value_word(t, tt);
    let line = rds_report_line(vr, vp, va, vm, vd, vt);
    let c1: int = 5 + vr.len() as int;
    let c2: int = c1 + 6 + vp.len();
    let c3: int = c2 + 6 + va.len();
    let c4: int = c3 + 6 + vm.len();
    let c5: int = c4 + 6 + vd.len();
    assert(line.len() == c5 + 7 + vt.len());
    // the pieces in place
    assert(line.subrange(0, 5) =~= m0);
    assert(line.subrange(5, c1) =~= vr);
    assert(line.subrange(c1, c1 + 6) =~= m1);
    assert(line.subrange(c1 + 6, c2) =~= vp);
    assert(line.subrange(c2, c2 + 6) =~= m2);
    assert(line.subrange(c2 + 6, c3) =~= va);
    assert(line.subrange(c3, c3 + 6) =~= m3);
    assert(line.subrange(c3 + 6, c4) =~= vm);
    assert(line.subrange(c4, c4 + 6) =~= m4);
    assert(line.subrange(c4 + 6, c5) =~= vd);
    assert(line.subrange(c5, c5 + 7) =~= m5);
    assert(line.subrange(c5 + 7, line.len() as int) =~= vt);
    // every comma of the line starts a marker
    assert forall|k: int| 0 <= k < line.len() && line[k] == ',' implies k == c1 || k == c2 || k == c3
        || k == c4 || k == c5 by {
        if k < 5 {
            assert(line.subrange(0, 5)[k] == line[k]);
        } else if k < c1 {
            assert(line.subrange(5, c1)[k - 5] == line[k]);
        } else if c1 < k < c1 + 6 {
            assert(line.subrange(c1, c1 + 6)[k - c1] == line[k]);
        } else if c1 + 6 <= k < c2 {
            assert(line.subrange(c1 + 6, c2)[k - c1 - 6] == line[k]);
        } else if c2 < k < c2 + 6 {
            assert(line.subrange(c2, c2 + 6)[k - c2] == line[k]);
        } else if c2 + 6 <= k < c3 {
            assert(line.subrange(c2 + 6, c3)[k - c2 - 6] == line[k]);
        } else if c3 < k < c3 + 6 {
            assert(line.subrange(c3, c3 + 6)[k - c3] == line[k]);
        } else if c3 + 6 <= k < c4 {
            assert(line.subrange(c3 + 6, c4)[k - c3 - 6] == line[k]);
        } else if c4 < k < c4 + 6 {
            assert(line.subrange(c4, c4 + 6)[k - c4] == line[k]);
        } else if c4 + 6 <= k < c5 {
            assert(line.subrange(c4 + 6, c5)[k - c4 - 6] == line[k]);
        } else if c5 < k < c5 + 7 {
            assert(line.subrange(c5, c5 + 7)[k - c5] == line[k]);
        } else if c5 + 7 <= k {
            assert(line.subrange(c5 + 7, line.len() as int)[k - c5 - 7] == line[k]);
        }
    }
    // the third and fourth characters tell the markers apart
    assert(line.subrange(c1, c1 + 6)[2] == line[c1 + 2] && line.subrange(c1, c1 + 6)[3] == line[c1 + 3]);
    assert(line.subrange(c2, c2 + 6)[2] == line[c2 + 2] && line.subrange(c2, c2 + 6)[3] == line[c2 + 3]);
    assert(line.subrange(c3, c3 + 6)[2] == line[c3 + 2] && line.subrange(c3, c3 + 6)[3] == line[c3 + 3]);
    assert(line.subrange(c4, c4 + 6)[2] == line[c4 + 2] && line.subrange(c4, c4 + 6)[3] == line[c4 + 3]);
    assert(line.subrange(c5, c5 + 7)[2] == line[c5 + 2] && line.subrange(c5, c5 + 7)[3] == line[c5 + 3]);
    assert(line[c1 + 2] == 'T' && line[c1 + 3] == 'P');
    assert(line[c2 + 2] == 'T' && line[c2 + 3] == 'A');
    assert(line[c3 + 2] == 'M' && line[c3 + 3] == 'S');
    assert(line[c4 + 2] == 'D' && line[c4 + 3] == 'I');
    assert(line[c5 + 2] == 'P' && line[c5 + 3] == 'T');
    // each marker is found where it stands
    lemma_find_is(line, m0, Some(0));
    lemma_marker_found(line, m1, c1, c1, c2, c3, c4, c5);
    lemma_marker_found(line, m2, c2, c1, c2, c3, c4, c5);
    lemma_marker_found(line, m3, c3, c1, c2, c3, c4, c5);
    lemma_marker_found(line, m4, c4, c1, c2, c3, c4, c5);
    lemma_marker_found(line, m5, c5, c1, c2, c3, c4, c5);
    // and the value after each runs to the next marker
    lemma_value_after(line, 0, m0, vr, m1);
    lemma_value_after(line, c1, m1, vp, m2);
    lemma_value_after(line, c2, m2, va, m3);
    lemma_value_after(line, c3, m3, vm, m4);
    lemma_value_after(line, c4, m4, vd, m5);
    assert(line.skip(c5 + 7) =~= vt);
    assert(line.take(5) =~= m0);
}

proof fn lemma_marker_found(
    line: Seq<char>,
    mk: Seq<char>,
    at: int,
    c1: int,
    c2: int,
    c3: int,
    c4: int,
    c5: int,
)
    requires
        mk.len() >= 4,
        mk[0] == ',',
        at == c1 || at == c2 || at == c3 || at == c4 || at == c5,
        c1 < c2 < c3 < c4 < c5,
        occurs_at(line, mk, at),
        forall|k: int| 0 <= k < line.len() && line[k] == ',' ==> k == c1 || k == c2 || k == c3
            || k == c4 || k == c5,
        forall|k: int| (k == c1 || k == c2 || k == c3 || k == c4 || k == c5) && k != at
            ==> #[trigger] line[k + 2] != mk[2] || line[k + 3] != mk[3],
    ensures
        find(line, mk) == Some(at),
{
    assert forall|k: int| 0 <= k < at && line[k] == ',' implies !occurs_at(line, mk, k) by {
        if occurs_at(line, mk, k) {
            assert(line.subrange(k, k + mk.len())[2] == line[k + 2]);
            assert(line.subrange(k, k + mk.len())[3] == line[k + 3]);
        }
    }
    lemma_comma_marker(line, mk, at);
}

// ---------------------------------------------------------------------------
// The audio line.

/// `Stereo: s, Input: i, Gain: g, Preemphasis: p`, each value with its tail.
pub open spec fn audio_report_line(s: Seq<char>, i: Seq<char>, g: Seq<char>, p: Seq<char>) -> Seq<char> {
    "Stereo: "@ + s + ", Input: "@ + i + ", Gain: "@ + g + ", Preemphasis: "@ + p
}

proof fn lemma_marker_found3(line: Seq<char>, mk: Seq<char>, at: int, c1: int, c2: int, c3: int)
    requires
        mk.len() >= 3,
        mk[0] == ',',
        at == c1 || at == c2 || at == c3,
        c1 < c2 < c3,
        occurs_at(line, mk, at),
        forall|k: int| 0 <= k < line.len() && line[k] == ',' ==> k == c1 || k == c2 || k == c3,
        forall|k: int| (k == c1 || k == c2 || k == c3) && k != at ==> #[trigger] line[k + 2] != mk[2],
    ensures
        find(line, mk) == Some(at),
{
    assert forall|k: int| 0 <= k < at && line[k] == ',' implies !occurs_at(line, mk, k) by {
        if occurs_at(line, mk, k) {
            assert(line.subrange(k, k + mk.len())[2] == line[k + 2]);
        }
    }
    lemma_comma_marker(line, mk, at);
}

/// Where each piece of an audio line is found.
#[verifier::rlimit(100)]
#[verifier::spinoff_prover]
proof fn lemma_audio_line_segments(
    s: nat,
    i: nat,
    g: nat,
    p: nat,
    ts: Seq<char>,
    ti: Seq<char>,
    tg: Seq<char>,
    tp: Seq<char>,
)
    requires
        plain_tail(ts),
        plain_tail(ti),
        plain_tail(tg),
        plain_tail(tp),
    ensures
        ({
            let vs = report_value(s, ts);
            let vi = report_value(i, ti);
            let vg = report_value(g, tg);
            let vp = report_value(p, tp);
            let line = audio_report_line(vs, vi, vg, vp);
            &&& starts_with(line, "Stereo: "@)
            &&& between_markers(line, "Stereo: "@, ", Input: "@) == Ok::<Seq<char>, Seq<char>>(trim(vs))
            &&& between_markers(line, ", Input: "@, ", Gain: "@) == Ok::<Seq<char>, Seq<char>>(trim(vi))
            &&& between_markers(line, ", Gain: "@, ", Preemphasis: "@) == Ok::<Seq<char>, Seq<char>>(trim(vg))
            &&& after_marker(line, ", Preemphasis: "@) == Ok::<Seq<char>, Seq<char>>(trim(vp))
        }),
{
    reveal_strlit("Stereo: ");
    reveal_strlit(", Input: ");
    reveal_strlit(", Gain: ");
    reveal_strlit(", Preemphasis: ");
    let m0 = "Stereo: "@;
    let m1 = ", Input: "@;
    let m2 = ", Gain: "@;
    let m3 = ", Preemphasis: "@;
    let vs = report_value(s, ts);
    let vi = report_value(i, ti);
    let vg = report_value(g, tg);
    let vp = report_value(p, tp);
    lemma_report_value_word(s, ts);
    lemma_report_value_word(i, ti);
    lemma_report_value_word(g, tg);
    lemma_report_value_word(p, tp);
    let line = audio_report_line(vs, vi, vg, vp);
    let c1: int = 8 + vs.len() as int;
    let c2: int = c1 + 9 + vi.len();
    let c3: int = c2 + 8 + vg.len();
    assert(line.len() == c3 + 15 + vp.len());
    assert(line.subrange(0, 8) =~= m0);
    assert(line.subrange(8, c1) =~= vs);
    assert(line.subrange(c1, c1 + 9) =~= m1);
    assert(line.subrange(c1 + 9, c2) =~= vi);
    assert(line.subrange(c2, c2 + 8) =~= m2);
    assert(line.subrange(c2 + 8, c3) =~= vg);
    assert(line.subrange(c3, c3 + 15) =~= m3);
    assert(line.subrange(c3 + 15, line.len() as int) =~= vp);
    assert forall|k: int| 0 <= k < line.len() && line[k] == ',' implies k == c1 || k == c2 || k == c3 by {
        if k < 8 {
            assert(line.subrange(0, 8)[k] == line[k]);
        } else if k < c1 {
            assert(line.subrange(8, c1)[k - 8] == line[k]);
        } else if c1 < k < c1 + 9 {
            assert(line.subrange(c1, c1 + 9)[k - c1] == line[k]);
        } else if c1 + 9 <= k < c2 {
            assert(line.subrange(c1 + 9, c2)[k - c1 - 9] == line[k]);
        } else if c2 < k < c2 + 8 {
            assert(line.subrange(c2, c2 + 8)[k - c2] == line[k]);
        } else if c2 + 8 <= k < c3 {
            assert(line.subrange(c2 + 8, c3)[k - c2 - 8] == line[k]);
        } else if c3 < k < c3 + 15 {
            assert(line.subrange(c3, c3 + 15)[k - c3] == line[k]);
        } else if c3 + 15 <= k {
            assert(line.subrange(c3 + 15, line.len() as int)[k - c3 - 15] == line[k]);
        }
    }
    assert(line.subrange(c1, c1 + 9)[2] == line[c1 + 2]);
    assert(line.subrange(c2, c2 + 8)[2] == line[c2 + 2]);
    assert(line.subrange(c3, c3 + 15)[2] == line[c3 + 2]);
    assert(line[c1 + 2] == 'I');
    assert(line[c2 + 2] == 'G');
    assert(line[c3 + 2] == 'P');
    lemma_find_is(line, m0, Some(0));
    lemma_marker_found3(line, m1, c1, c1, c2, c3);
    lemma_marker_found3(line, m2, c2, c1, c2, c3);
    lemma_marker_found3(line, m3, c3, c1, c2, c3);
    lemma_value_after(line, 0, m0, vs, m1);
    lemma_value_after(line, c1, m1, vi, m2);
    lemma_value_after(line, c2, m2, vg, m3);
    assert(line.skip(c3 + 15) =~= vp);
    assert(line.take(8) =~= m0);
}

/// A line that starts with `Stereo: ` is read as the audio line.
proof fn lemma_audio_line_dispatch(line: Seq<char>)
    requires
        starts_with(line, "Stereo: "@),
    ensures
        forall|form: FormModel| apply_line(form, line) == audio_line(form, line),
{
    reveal_strlit("Stereo: ");
    reveal_strlit("Current settings:");
    reveal_strlit("Power: ");
    reveal_strlit("Frequency: ");
    let c = line[0];
    assert(line.take(8)[0] == c);
    assert(c == 'S');
    assert(line != "Current settings:"@) by {
        if line == "Current settings:"@ {
            assert(line[0] == 'C');
        }
    }
    assert(!starts_with(line, "Power: "@)) by {
        if starts_with(line, "Power: "@) {
            assert(line.take(7)[0] == 'P');
        }
    }
    assert(!starts_with(line, "Frequency: "@)) by {
        if starts_with(line, "Frequency: "@) {
            assert(line.take(11)[0] == 'F');
        }
    }
}

/// Each audio setting of the form read from an audio line is the value
/// after its own marker: for `Stereo: s, Input: i, Gain: g, Preemphasis: p`
/// (flags 0 or 1, gain at most 2, each possibly followed by text such as
/// ` (stereo)`), the form has `stereo_mode == (s == 1)`,
/// `digital_audio_input == (i == 1)`, gain `g`, `preemphasis_50us == (p == 1)`,
/// and keeps every other setting.
#[verifier::rlimit(100)]
#[verifier::spinoff_prover]
pub proof fn audio_line_sets_each_setting(
    form: FormModel,
    s: bool,
    i: bool,
    g: u8,
    p: bool,
    ts: Seq<char>,
    ti: Seq<char>,
    tg: Seq<char>,
    tp: Seq<char>,
)
    requires
        g <= 2,
        plain_tail(ts),
        plain_tail(ti),
        plain_tail(tg),
        plain_tail(tp),
    ensures
        apply_line(
            form,
            audio_report_line(
                report_value(bit(s), ts),
                report_value(bit(i), ti),
                report_value(g as nat, tg),
                report_value(bit(p), tp),
            ),
        ) == Ok::<FormModel, Seq<char>>(
            FormModel {
                stereo_mode: s,
                digital_audio_input: i,
                audio_gain: g,
                preemphasis_50us: p,
                ..form
            },
        ),
{
    lemma_audio_line_segments(bit(s), bit(i), g as nat, bit(p), ts, ti, tg, tp);
    let vs = report_value(bit(s), ts);
    let vi = report_value(bit(i), ti);
    let vg = report_value(g as nat, tg);
    let vp = report_value(bit(p), tp);
    let line = audio_report_line(vs, vi, vg, vp);
    lemma_report_value_word(bit(s), ts);
    lemma_report_value_word(bit(i), ti);
    lemma_report_value_word(g as nat, tg);
    lemma_report_value_word(bit(p), tp);
    u8_text_round_trip(bit(s) as u8, "Stereo"@, 0, 1);
    u8_text_round_trip(bit(i) as u8, "Audio input"@, 0, 1);
    u8_text_round_trip(g, "Audio gain"@, 0, 2);
    u8_text_round_trip(bit(p) as u8, "Preemphasis"@, 0, 1);
    lemma_audio_line_dispatch(line);
}

// ---------------------------------------------------------------------------
// The PI line.

/// A line that starts with `PI: ` is read as the PI line.
proof fn lemma_pi_line_dispatch(line: Seq<char>)
    requires
        starts_with(line, "PI: "@),
    ensures
        forall|form: FormModel| apply_line(form, line) == pi_line(form, line),
{
    reveal_strlit("PI: ");
    reveal_strlit("Current settings:");
    reveal_strlit("Power: ");
    reveal_strlit("Frequency: ");
    reveal_strlit("Stereo: ");
    reveal_strlit("Alarm temp: ");
    reveal_strlit("RDS: ");
    assert(line.take(4)[0] == line[0] && line.take(4)[1] == line[1]);
    assert(line[0] == 'P' && line[1] == 'I');
    assert(line != "Current settings:"@) by {
        if line == "Current settings:"@ {
            assert(line[0] == 'C');
        }
    }
    assert(!starts_with(line, "Power: "@)) by {
        if starts_with(line, "Power: "@) {
            assert(line.take(7)[1] == 'o');
        }
    }
    assert(!starts_with(line, "Frequency: "@)) by {
        if starts_with(line, "Frequency: "@) {
            assert(line.take(11)[0] == 'F');
        }
    }
    assert(!starts_with(line, "Stereo: "@)) by {
        if starts_with(line, "Stereo: "@) {
            assert(line.take(8)[0] == 'S');
        }
    }
    assert(!starts_with(line, "Alarm temp: "@)) by {
        if starts_with(line, "Alarm temp: "@) {
            assert(line.take(12)[0] == 'A');
        }
    }
    assert(!starts_with(line, "RDS: "@)) by {
        if starts_with(line, "RDS: "@) {
            assert(line.take(5)[0] == 'R');
        }
    }
}

/// The text found before a comma-led marker that follows a comma-free value.
proof fn lemma_split_after_value(v: Seq<char>, mk: Seq<char>, rest: Seq<char>)
    requires
        mk.len() > 0,
        mk[0] == ',',
        forall|i: int| 0 <= i < v.len() ==> v[i] != ',',
    ensures
        split_once(v + mk + rest, mk) == Some((v, rest)),
{
    let s = v + mk + rest;
    assert forall|k: int| 0 <= k < v.len() implies s[k] == v[k] by {}
    assert(s.subrange(v.len() as int, (v.len() + mk.len()) as int) =~= mk);
    lemma_comma_marker(s, mk, v.len() as int);
    assert(s.take(v.len() as int) =~= v);
    assert(s.skip((v.len() + mk.len()) as int) =~= rest);
}

/// The PI line sets the PI code, the ECC and the PS each from its own
/// place: for `PI: h tail, ECC: c tail, PS:ps`, with `h` one to four
/// hexadecimal digits and `c` at most 255, the form has as PI the four
/// upper-case hexadecimal digits of the value of `h`, as ECC the number
/// `c`, as PS `ps` without its leading whitespace, and keeps every other
/// setting.
#[verifier::rlimit(100)]
#[verifier::spinoff_prover]
pub proof fn pi_line_sets_each_setting(
    form: FormModel,
    h: Seq<char>,
    th: Seq<char>,
    c: u8,
    tc: Seq<char>,
    ps: Seq<char>,
)
    requires
        1 <= h.len() <= 4,
        all_hex(h),
        plain_tail(th),
        plain_tail(tc),
    ensures
        apply_line(form, "PI: "@ + h + th + ", ECC: "@ + report_value(c as nat, tc) + ", PS:"@ + ps)
            == Ok::<FormModel, Seq<char>>(
            FormModel {
                rds_pi_hex: hex4_upper(hex_value(h) as u16),
                rds_ecc: nat_text(c as nat),
                rds_ps: trim_start(ps),
                ..form
            },
        ),
{
    reveal_strlit("PI: ");
    reveal_strlit(", ECC: ");
    reveal_strlit(", PS:");
    reveal_strlit("0x");
    reveal_strlit("0X");
    let vc = report_value(c as nat, tc);
    lemma_report_value_word(c as nat, tc);
    let line = "PI: "@ + h + th + ", ECC: "@ + vc + ", PS:"@ + ps;
    let after = h + th + ", ECC: "@ + vc + ", PS:"@ + ps;
    assert(line.take(4) =~= "PI: "@);
    assert(line.skip(4) =~= after);
    lemma_pi_line_dispatch(line);
    // the PI word and its value
    let hv = h + th;
    assert forall|i: int| 0 <= i < hv.len() implies hv[i] != ',' by {
        if i < h.len() {
            assert(is_hex_digit(h[i]));
        } else {
            assert(hv[i] == th[i - h.len()]);
        }
    }
    assert(after =~= hv + ", ECC: "@ + (vc + ", PS:"@ + ps));
    lemma_split_after_value(hv, ", ECC: "@, vc + ", PS:"@ + ps);
    assert(vc + ", PS:"@ + ps =~= vc + ", PS:"@ + ps);
    lemma_split_after_value(vc, ", PS:"@, ps);
    assert forall|i: int| 0 <= i < h.len() implies !(ws_sep())(#[trigger] h[i]) by {
        assert(is_hex_digit(h[i]));
    }
    lemma_words_word_first(h, th, ws_sep());
    assert(first_word(hv) == h);
    assert(is_hex_digit(h[0]) && is_hex_digit(h[h.len() - 1]));
    lemma_trim_noop(h);
    assert(!starts_with(h, "0x"@)) by {
        if starts_with(h, "0x"@) {
            assert(h.take(2)[1] == 'x');
            assert(is_hex_digit(h[1]));
        }
    }
    assert(!starts_with(h, "0X"@)) by {
        if starts_with(h, "0X"@) {
            assert(h.take(2)[1] == 'X');
            assert(is_hex_digit(h[1]));
        }
    }
    assert(strip_all_prefixes(h, "0x"@) == h);
    assert(strip_all_prefixes(h, "0X"@) == h);
    lemma_hex_value_bound(h);
    reveal_with_fuel(pow16, 5);
    assert(hex_value(h) < 65536);
    assert(hex_u16(h) == Ok::<u16, Seq<char>>(hex_value(h) as u16));
    // the ECC word
    let nt = nat_text(c as nat);
    lemma_nat_text(c as nat);
    assert forall|i: int| 0 <= i < nt.len() implies !(ws_sep())(#[trigger] nt[i]) by {
        assert(is_digit(nt[i]));
    }
    lemma_words_word_first(nt, tc, ws_sep());
    assert(first_word(vc) == nt);
    u8_text_round_trip(c, "RDS ECC"@, 0, 255);
}

/// The characters of a number as the library writes it: a sign, digits
/// and a point, ending in a digit.
spec fn number_chars(t: Seq<char>) -> bool {
    &&& t.len() > 0
    &&& is_digit(t.last())
    &&& forall|i: int| 0 <= i < t.len() ==> (is_digit(#[trigger] t[i]) || t[i] == '-' || t[i] == '.')
}

proof fn lemma_decimal_text_chars(negative: bool, int_digits: Seq<char>, frac_digits: Seq<char>)
    requires
        all_digits(int_digits),
        all_digits(frac_digits),
    ensures
        number_chars(decimal_text(negative, int_digits, frac_digits)),
{
    lemma_decimal_text_parts(negative, int_digits, frac_digits);
    let d = milli_digits(int_digits, frac_digits);
    let ip = d.take(d.len() - 3);
    let w = if ip.len() == 0 {
        seq!['0']
    } else {
        ip
    };
    let fp = strip_trailing_zeros(d.skip(d.len() - 3));
    let sg: Seq<char> = if negative {
        seq!['-']
    } else {
        seq![]
    };
    let tl: Seq<char> = if fp.len() == 0 {
        seq![]
    } else {
        seq!['.'] + fp
    };
    let t = sg + w + tl;
    assert(decimal_text(negative, int_digits, frac_digits) == t);
    assert forall|i: int| 0 <= i < t.len() implies (is_digit(#[trigger] t[i]) || t[i] == '-' || t[i] == '.') by {
        if i < sg.len() {
        } else if i < sg.len() + w.len() {
            assert(t[i] == w[i - sg.len()]);
        } else {
            assert(t[i] == tl[i - sg.len() - w.len()]);
            if i - sg.len() - w.len() > 0 {
                assert(tl[i - sg.len() - w.len()] == fp[i - sg.len() - w.len() - 1]);
            }
        }
    }
    if fp.len() == 0 {
        assert(t.last() == w.last());
    } else {
        assert(t.last() == fp.last());
    }
}

/// A number written as the library writes it is no whitespace at either end.
proof fn lemma_number_chars_trim(t: Seq<char>, suffix: Seq<char>)
    requires
        number_chars(t),
        suffix.len() > 0 ==> !is_ws(suffix.last()),
    ensures
        trim(t + suffix) == t + suffix,
{
    let s = t + suffix;
    assert(s[0] == t[0]);
    assert(is_digit(t[0]) || t[0] == '-' || t[0] == '.');
    if suffix.len() > 0 {
        assert(s.last() == suffix[suffix.len() - 1]);
    } else {
        assert(s.last() == t.last());
    }
    lemma_trim_noop(s);
}

/// The power line sets the power to the number it shows: for
/// `Power: t%`, with `t` a number from 0 to 100 as the library writes
/// numbers, the form has power `t` and keeps every other setting.
pub proof fn power_line_sets_power(
    form: FormModel,
    negative: bool,
    int_digits: Seq<char>,
    frac_digits: Seq<char>,
)
    requires
        all_digits(int_digits),
        all_digits(frac_digits),
        within_milli(negative, int_digits, frac_digits, POWER_MIN_MILLI as nat, POWER_MAX_MILLI as nat),
    ensures
        ({
            let t = decimal_text(negative, int_digits, frac_digits);
            apply_line(form, "Power: "@ + t + "%"@) == Ok::<FormModel, Seq<char>>(
                FormModel { power_percent: t, ..form },
            )
        }),
{
    reveal_strlit("Power: ");
    reveal_strlit("%");
    reveal_strlit("Current settings:");
    let t = decimal_text(negative, int_digits, frac_digits);
    lemma_decimal_text_chars(negative, int_digits, frac_digits);
    let line = "Power: "@ + t + "%"@;
    assert(line.take(7) =~= "Power: "@);
    assert(line.skip(7) =~= t + "%"@);
    assert(line != "Current settings:"@) by {
        if line == "Current settings:"@ {
            assert(line[0] == 'C');
        }
    }
    lemma_number_chars_trim(t, "%"@);
    assert((t + "%"@).drop_last() =~= t);
    assert(strip_all_suffix_char(t + "%"@, '%') == strip_all_suffix_char(t, '%'));
    assert(strip_all_suffix_char(t, '%') == t);
    lemma_number_chars_trim(t, seq![]);
    assert(t + seq![] =~= t);
    decimal_text_round_trip(
        negative,
        int_digits,
        frac_digits,
        "Power"@,
        POWER_MIN_MILLI as nat,
        POWER_MAX_MILLI as nat,
        "0"@,
        "100"@,
    );
}


/// A number as the library writes it, followed by a space, trims to itself.
proof fn lemma_number_space_trim(t: Seq<char>)
    requires
        number_chars(t),
    ensures
        trim(t + seq![' ']) == t,
{
    let s = t + seq![' '];
    assert(s[0] == t[0]);
    assert(is_digit(t[0]) || t[0] == '-' || t[0] == '.');
    assert(trim_start(s) == s);
    assert(s.drop_last() =~= t);
    assert(trim_end(s) == trim_end(t));
    assert(trim_end(t) == t);
}

/// The frequency line sets the frequency to the number it shows: for
/// `Frequency: t MHz`, with `t` a number from 87.5 to 108 as the library
/// writes numbers, the form has frequency `t` and keeps every other setting.
pub proof fn frequency_line_sets_frequency(
    form: FormModel,
    negative: bool,
    int_digits: Seq<char>,
    frac_digits: Seq<char>,
)
    requires
        all_digits(int_digits),
        all_digits(frac_digits),
        within_milli(negative, int_digits, frac_digits, FREQUENCY_MIN_MILLI as nat, FREQUENCY_MAX_MILLI as nat),
    ensures
        ({
            let t = decimal_text(negative, int_digits, frac_digits);
            apply_line(form, "Frequency: "@ + t + " MHz"@) == Ok::<FormModel, Seq<char>>(
                FormModel { frequency_mhz: t, ..form },
            )
        }),
{
    reveal_strlit("Frequency: ");
    reveal_strlit(" MHz");
    reveal_strlit("MHz");
    reveal_strlit("not set");
    reveal_strlit("Power: ");
    reveal_strlit("Current settings:");
    let t = decimal_text(negative, int_digits, frac_digits);
    lemma_decimal_text_chars(negative, int_digits, frac_digits);
    let line = "Frequency: "@ + t + " MHz"@;
    let value = t + " MHz"@;
    assert(line.take(11) =~= "Frequency: "@);
    assert(line.skip(11) =~= value);
    assert(line != "Current settings:"@) by {
        if line == "Current settings:"@ {
            assert(line[0] == 'C');
        }
    }
    assert(!starts_with(line, "Power: "@)) by {
        if starts_with(line, "Power: "@) {
            assert(line.take(7)[0] == 'P');
        }
    }
    lemma_number_chars_trim(t, " MHz"@);
    assert(!eq_ignore_ascii_case(trim(value), "not set"@)) by {
        if eq_ignore_ascii_case(trim(value), "not set"@) {
            assert(value[0] == t[0]);
            assert(ascii_lower(value[0]) == ascii_lower("not set"@[0]));
        }
    }
    let j: int = t.len() + 1int;
    assert(value.subrange(j, j + 3) =~= "MHz"@);
    assert forall|k: int| 0 <= k < j implies !occurs_at(value, "MHz"@, k) by {
        if occurs_at(value, "MHz"@, k) {
            assert(value.subrange(k, k + 3)[0] == value[k]);
            if k < t.len() {
                assert(value[k] == t[k]);
            } else {
                assert(value[k] == ' ');
            }
        }
    }
    lemma_find_is(value, "MHz"@, Some(j));
    assert(value.take(j) =~= t + seq![' ']);
    lemma_number_space_trim(t);
    decimal_text_round_trip(
        negative,
        int_digits,
        frac_digits,
        "Frequency"@,
        FREQUENCY_MIN_MILLI as nat,
        FREQUENCY_MAX_MILLI as nat,
        "87.5"@,
        "108"@,
    );
}

/// The alarm line sets the alarm temperature to the number it shows: for
/// `Alarm temp: t C`, with `t` a number from 40 to 100 as the library
/// writes numbers, the form has alarm temperature `t` and keeps every
/// other setting.
pub proof fn alarm_line_sets_alarm_temp(
    form: FormModel,
    negative: bool,
    int_digits: Seq<char>,
    frac_digits: Seq<char>,
)
    requires
        all_digits(int_digits),
        all_digits(frac_digits),
        within_milli(negative, int_digits, frac_digits, ALARM_TEMP_MIN_MILLI as nat, ALARM_TEMP_MAX_MILLI as nat),
    ensures
        ({
            let t = decimal_text(negative, int_digits, frac_digits);
            apply_line(form, "Alarm temp: "@ + t + " C"@) == Ok::<FormModel, Seq<char>>(
                FormModel { alarm_temp_c: t, ..form },
            )
        }),
{
    reveal_strlit("Alarm temp: ");
    reveal_strlit(" C");
    reveal_strlit("Power: ");
    reveal_strlit("Frequency: ");
    reveal_strlit("Stereo: ");
    reveal_strlit("Current settings:");
    let t = decimal_text(negative, int_digits, frac_digits);
    lemma_decimal_text_chars(negative, int_digits, frac_digits);
    let line = "Alarm temp: "@ + t + " C"@;
    let value = t + " C"@;
    assert(line.take(12) =~= "Alarm temp: "@);
    assert(line.skip(12) =~= value);
    assert(line != "Current settings:"@) by {
        if line == "Current settings:"@ {
            assert(line[0] == 'C');
        }
    }
    assert(!starts_with(line, "Power: "@)) by {
        if starts_with(line, "Power: "@) {
            assert(line.take(7)[0] == 'P');
        }
    }
    assert(!starts_with(line, "Frequency: "@)) by {
        if starts_with(line, "Frequency: "@) {
            assert(line.take(11)[0] == 'F');
        }
    }
    assert(!starts_with(line, "Stereo: "@)) by {
        if starts_with(line, "Stereo: "@) {
            assert(line.take(8)[0] == 'S');
        }
    }
    assert(value.skip(value.len() - 1) =~= seq!['C']);
    assert(value.take(value.len() - 1) =~= t + seq![' ']);
    assert(strip_suffix(value, seq!['C']) == Some(t + seq![' ']));
    lemma_number_space_trim(t);
    decimal_text_round_trip(
        negative,
        int_digits,
        frac_digits,
        "Alarm temperature"@,
        ALARM_TEMP_MIN_MILLI as nat,
        ALARM_TEMP_MAX_MILLI as nat,
        "40"@,
        "100"@,
    );
}

} // verus!
