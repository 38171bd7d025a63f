//! Reading and writing numbers in text: decimal integers, hexadecimal, and
//! decimal fractions held exactly as digit strings.
use vstd::prelude::*;

use crate::text::{trim, trim_chars, err_view, text_result, run_len,
    append_chars, append_str, eq_ignore_ascii_case, eq_ignore_ascii_case_exec, find, find_exec,
    string_of, slice_chars, chars_of,
};

verus! {

pub open spec fn is_digit(c: char) -> bool {
    '0' <= c && c <= '9'
}

pub open spec fn digit_val(c: char) -> nat {
    ((c as int) - 48) as nat
}

/// The character of a decimal digit `d < 10`.
pub open spec fn digit_char(d: nat) -> char {
    (48 + d) as char
}

pub open spec fn all_digits(s: Seq<char>) -> bool {
    forall|i: int| 0 <= i < s.len() ==> is_digit(#[trigger] s[i])
}

/// The value of a string of decimal digits (0 for the empty string).
pub open spec fn digits_value(s: Seq<char>) -> nat
    decreases s.len(),
{
    if s.len() == 0 {
        0
    } else {
        digits_value(s.drop_last()) * 10 + digit_val(s.last())
    }
}

/// The decimal text of `n`, without leading zeros.
pub open spec fn nat_text(n: nat) -> Seq<char>
    decreases n,
{
    if n < 10 {
        seq![digit_char(n)]
    } else {
        nat_text(n / 10).push(digit_char(n % 10))
    }
}

/// What `str::parse::<u8>` gives: an optional `+`, then one or more ASCII
/// digits whose value is at most 255.
pub open spec fn parse_u8(s: Seq<char>) -> Option<u8> {
    let d = if s.len() > 0 && s[0] == '+' {
        s.drop_first()
    } else {
        s
    };
    if d.len() > 0 && all_digits(d) && digits_value(d) <= 255 {
        Some(digits_value(d) as u8)
    } else {
        None
    }
}

pub open spec fn is_hex_digit(c: char) -> bool {
    ||| is_digit(c)
    ||| ('a' <= c && c <= 'f')
    ||| ('A' <= c && c <= 'F')
}

pub open spec fn hex_val(c: char) -> nat {
    if is_digit(c) {
        digit_val(c)
    } else if 'a' <= c && c <= 'f' {
        ((c as int) - 87) as nat
    } else {
        ((c as int) - 55) as nat
    }
}

pub open spec fn all_hex(s: Seq<char>) -> bool {
    forall|i: int| 0 <= i < s.len() ==> is_hex_digit(#[trigger] s[i])
}

/// The value of a string of hexadecimal digits.
pub open spec fn hex_value(s: Seq<char>) -> nat
    decreases s.len(),
{
    if s.len() == 0 {
        0
    } else {
        hex_value(s.drop_last()) * 16 + hex_val(s.last())
    }
}

/// The upper-case hexadecimal character of `d < 16`.
pub open spec fn hex_char_upper(d: nat) -> char {
    if d < 10 {
        digit_char(d)
    } else {
        (55 + d) as char
    }
}

/// The lower-case hexadecimal character of `d < 16`.
pub open spec fn hex_char_lower(d: nat) -> char {
    if d < 10 {
        digit_char(d)
    } else {
        (87 + d) as char
    }
}

/// `v` as four upper-case hexadecimal digits, as `{:04X}` writes a `u16`.
pub open spec fn hex4_upper(v: u16) -> Seq<char> {
    seq![
        hex_char_upper((v as nat / 4096) % 16),
        hex_char_upper((v as nat / 256) % 16),
        hex_char_upper((v as nat / 16) % 16),
        hex_char_upper(v as nat % 16),
    ]
}

/// `v` as four lower-case hexadecimal digits, as `{:04x}` writes a `u16`.
pub open spec fn hex4_lower(v: u16) -> Seq<char> {
    seq![
        hex_char_lower((v as nat / 4096) % 16),
        hex_char_lower((v as nat / 256) % 16),
        hex_char_lower((v as nat / 16) % 16),
        hex_char_lower(v as nat % 16),
    ]
}

pub proof fn lemma_digits_value_push(s: Seq<char>, c: char)
    ensures
        digits_value(s.push(c)) == digits_value(s) * 10 + digit_val(c),
{
    assert(s.push(c).drop_last() =~= s);
}

pub proof fn lemma_hex_value_push(s: Seq<char>, c: char)
    ensures
        hex_value(s.push(c)) == hex_value(s) * 16 + hex_val(c),
{
    assert(s.push(c).drop_last() =~= s);
}

pub proof fn lemma_hex_value_bound(s: Seq<char>)
    requires
        all_hex(s),
    ensures
        hex_value(s) < pow16(s.len()),
    decreases s.len(),
{
    if s.len() > 0 {
        lemma_hex_value_bound(s.drop_last());
        assert(hex_val(s.last()) < 16);
    }
}

pub open spec fn pow16(n: nat) -> nat
    decreases n,
{
    if n == 0 {
        1
    } else {
        16 * pow16((n - 1) as nat)
    }
}

pub fn is_digit_exec(c: char) -> (r: bool)
    ensures
        r == is_digit(c),
{
    '0' <= c && c <= '9'
}

pub fn is_hex_digit_exec(c: char) -> (r: bool)
    ensures
        r == is_hex_digit(c),
{
    ('0' <= c && c <= '9') || ('a' <= c && c <= 'f') || ('A' <= c && c <= 'F')
}

/// The character of the decimal digit `d`.
pub fn digit_char_exec(d: u64) -> (c: char)
    requires
        d < 10,
    ensures
        c == digit_char(d as nat),
{
    let b: u8 = 48 + (d as u8);
    b as char
}

/// The decimal text of `n`.
pub fn nat_text_exec(n: u64) -> (r: Vec<char>)
    ensures
        r@ == nat_text(n as nat),
    decreases n,
{
    if n < 10 {
        let mut r: Vec<char> = Vec::new();
        r.push(digit_char_exec(n));
        assert(r@ =~= seq![digit_char(n as nat)]);
        r
    } else {
        let mut r = nat_text_exec(n / 10);
        r.push(digit_char_exec(n % 10));
        r
    }
}

/// The decimal text of `n` as a `String`, as `to_string` writes it.
pub fn nat_string(n: u64) -> (r: String)
    ensures
        r@ == nat_text(n as nat),
{
    let v = nat_text_exec(n);
    string_of(&v)
}

/// Reads a `u8` as `str::parse::<u8>` does.
pub fn parse_u8_exec(s: &[char]) -> (r: Option<u8>)
    ensures
        r == parse_u8(s@),
{
    let start: usize = if s.len() > 0 && s[0] == '+' {
        1
    } else {
        0
    };
    let ghost d = if s@.len() > 0 && s@[0] == '+' {
        s@.drop_first()
    } else {
        s@
    };
    assert(d =~= s@.skip(start as int));
    if start >= s.len() {
        return None;
    }
    let mut value: u32 = 0;
    let mut i: usize = start;
    while i < s.len()
        invariant
            start <= i <= s@.len(),
            d == s@.skip(start as int),
            d == (if s@.len() > 0 && s@[0] == '+' { s@.drop_first() } else { s@ }),
            all_digits(s@.subrange(start as int, i as int)),
            value == if digits_value(s@.subrange(start as int, i as int)) < 256 {
                digits_value(s@.subrange(start as int, i as int))
            } else {
                256
            },
        decreases s@.len() - i,
    {
        let c = s[i];
        if !is_digit_exec(c) {
            assert(d[i - start] == c);
            assert(!is_digit(d[i - start]));
            assert(!all_digits(d));
            return None;
        }
        proof {
            lemma_digits_value_push(s@.subrange(start as int, i as int), c);
            assert(s@.subrange(start as int, i + 1) =~= s@.subrange(start as int, i as int).push(c));
        }
        let dv: u32 = (c as u32) - 48;
        value = if value * 10 + dv < 256 {
            value * 10 + dv
        } else {
            256
        };
        i = i + 1;
    }
    assert(s@.subrange(start as int, i as int) =~= d);
    if value < 256 {
        Some(value as u8)
    } else {
        None
    }
}

/// The upper-case hexadecimal character of `d < 16`.
pub fn hex_char_upper_exec(d: u16) -> (c: char)
    requires
        d < 16,
    ensures
        c == hex_char_upper(d as nat),
{
    if d < 10 {
        let b: u8 = 48 + (d as u8);
        b as char
    } else {
        let b: u8 = 55 + (d as u8);
        b as char
    }
}

/// The lower-case hexadecimal character of `d < 16`.
pub fn hex_char_lower_exec(d: u16) -> (c: char)
    requires
        d < 16,
    ensures
        c == hex_char_lower(d as nat),
{
    if d < 10 {
        let b: u8 = 48 + (d as u8);
        b as char
    } else {
        let b: u8 = 87 + (d as u8);
        b as char
    }
}

/// `v` as `{:04X}` writes it.
pub fn hex4_upper_exec(v: u16) -> (r: Vec<char>)
    ensures
        r@ == hex4_upper(v),
{
    let mut r: Vec<char> = Vec::new();
    r.push(hex_char_upper_exec((v / 4096) % 16));
    r.push(hex_char_upper_exec((v / 256) % 16));
    r.push(hex_char_upper_exec((v / 16) % 16));
    r.push(hex_char_upper_exec(v % 16));
    assert(r@ =~= hex4_upper(v));
    r
}

/// `v` as `{:04x}` writes it.
pub fn hex4_lower_exec(v: u16) -> (r: Vec<char>)
    ensures
        r@ == hex4_lower(v),
{
    let mut r: Vec<char> = Vec::new();
    r.push(hex_char_lower_exec((v / 4096) % 16));
    r.push(hex_char_lower_exec((v / 256) % 16));
    r.push(hex_char_lower_exec((v / 16) % 16));
    r.push(hex_char_lower_exec(v % 16));
    assert(r@ =~= hex4_lower(v));
    r
}

/// The value of one to four hexadecimal digits.
pub fn hex_value_exec(s: &[char]) -> (r: u16)
    requires
        s@.len() <= 4,
        all_hex(s@),
    ensures
        r as nat == hex_value(s@),
{
    let mut value: u32 = 0;
    let mut i: usize = 0;
    while i < s.len()
        invariant
            i <= s@.len() <= 4,
            all_hex(s@),
            value as nat == hex_value(s@.take(i as int)),
            value < pow16(i as nat),
        decreases s@.len() - i,
    {
        let c = s[i];
        let hv: u32 = if '0' <= c && c <= '9' {
            (c as u32) - 48
        } else if 'a' <= c && c <= 'f' {
            (c as u32) - 87
        } else {
            (c as u32) - 55
        };
        proof {
            assert(is_hex_digit(s@[i as int]));
            lemma_hex_value_push(s@.take(i as int), c);
            assert(s@.take(i + 1) =~= s@.take(i as int).push(c));
            reveal_with_fuel(pow16, 5);
            assert(pow16((i + 1) as nat) == 16 * pow16(i as nat));
            assert(pow16(i as nat) <= 4096);
        }
        value = value * 16 + hv;
        i = i + 1;
    }
    assert(s@.take(i as int) =~= s@);
    proof {
        lemma_hex_value_bound(s@);
        reveal_with_fuel(pow16, 5);
        assert(pow16(s@.len()) <= 65536);
    }
    value as u16
}


// ---------------------------------------------------------------------------
// Decimal fractions.
//
// The transmitter's settings are decimal quantities (a power in percent, a
// frequency in MHz, a temperature in degrees).  They are held here exactly,
// as the digit strings of their text, and written back rounded to three
// decimal places without trailing zeros.

/// How a piece of text reads as a number, in the syntax that
/// `str::parse::<f64>` accepts: an optional sign, then `inf`, `infinity` or
/// `nan` in any case, or a mantissa (digits with at most one decimal point
/// and at least one digit) followed by an optional exponent (`e` or `E`, an
/// optional sign, digits).
///
/// A finite number is held exactly, as decimal digits with the exponent
/// applied, not rounded to the nearest `f64`.  Where an `f64` cannot hold
/// the decimal, the two can differ: `0.0005` and `12.3455` are ties here
/// (written `0` and `12.346` to three places) but not as `f64`; a value a
/// hair above a bound, such as `100.00000000000000001`, is above it here
/// but equal to it as `f64`; values whose leading digit stands at the
/// 308th or the -324th decimal place are held exactly, where `f64` may
/// make them infinite or zero; and large numbers are shown with their own
/// digits, not those of the nearest `f64`.
pub enum NumberText {
    Finite { negative: bool, int_digits: Seq<char>, frac_digits: Seq<char> },
    Infinite { negative: bool },
    NotANumber,
    Malformed,
}

/// The highest decimal place that the leading digit of a finite `f64` can
/// take: every `f64` is below `1e309`, so a value whose leading digit stands
/// at place 309 or above reads as infinite.
pub const MAX_PLACE: i128 = 308;

/// The lowest decimal place that the leading digit of an `f64` other than
/// zero can take: every value below `1e-324` is nearer to zero than to the
/// smallest `f64`, so it reads as zero.
pub const MIN_PLACE: i128 = -324;

pub open spec fn exp_sep() -> spec_fn(char) -> bool {
    |c: char| c == 'e' || c == 'E'
}

/// The digits before and after the decimal point of a mantissa.
pub open spec fn mantissa_parts(m: Seq<char>) -> Option<(Seq<char>, Seq<char>)> {
    match find(m, seq!['.']) {
        Some(i) => {
            let ip = m.take(i);
            let fp = m.skip(i + 1);
            if all_digits(ip) && all_digits(fp) && ip.len() + fp.len() > 0 {
                Some((ip, fp))
            } else {
                None
            }
        },
        None => if m.len() > 0 && all_digits(m) {
            Some((m, seq![]))
        } else {
            None
        },
    }
}

/// The sign and the digits of an exponent (what follows the `e`).
pub open spec fn exponent_parts(x: Seq<char>) -> Option<(bool, Seq<char>)> {
    let signed = x.len() > 0 && (x[0] == '+' || x[0] == '-');
    let d = if signed {
        x.drop_first()
    } else {
        x
    };
    if d.len() > 0 && all_digits(d) {
        Some((signed && x[0] == '-', d))
    } else {
        None
    }
}

pub open spec fn all_zeros(s: Seq<char>) -> bool {
    forall|i: int| 0 <= i < s.len() ==> s[i] == '0'
}

/// The digits `ip.fp` with the decimal point moved `e` places to the right
/// (to the left when `e` is negative).
pub open spec fn shifted(ip: Seq<char>, fp: Seq<char>, e: int) -> (Seq<char>, Seq<char>) {
    if e >= 0 {
        if e <= fp.len() {
            (ip + fp.take(e), fp.skip(e))
        } else {
            (ip + fp + zeros((e - fp.len()) as nat), seq![])
        }
    } else if -e <= ip.len() {
        (ip.take(ip.len() + e), ip.skip(ip.len() + e) + fp)
    } else {
        (seq![], zeros((-e - ip.len()) as nat) + ip + fp)
    }
}

/// A character other than `0`: `run_len` with it counts leading zeros.
pub open spec fn nonzero_sep() -> spec_fn(char) -> bool {
    |c: char| c != '0'
}

/// The decimal place of the leading digit other than 0 of `ip.fp` (0 for
/// the units, -1 for the tenths), when it has one.
pub open spec fn leading_place(ip: Seq<char>, fp: Seq<char>) -> int {
    let z = run_len(ip, nonzero_sep());
    if z < ip.len() {
        ip.len() - z - 1
    } else {
        -(run_len(fp, nonzero_sep()) + 1)
    }
}

/// The number `ip.fp` times ten to the power of the exponent.  A value
/// other than zero whose leading digit lands above `MAX_PLACE` is infinite,
/// one whose leading digit lands below `MIN_PLACE` is zero; any other is
/// held exactly.
pub open spec fn scaled(
    negative: bool,
    ip: Seq<char>,
    fp: Seq<char>,
    exp_negative: bool,
    e: nat,
) -> NumberText {
    let signed_e: int = if exp_negative {
        -(e as int)
    } else {
        e as int
    };
    if all_zeros(ip + fp) {
        NumberText::Finite { negative, int_digits: ip, frac_digits: fp }
    } else if leading_place(ip, fp) + signed_e > MAX_PLACE {
        NumberText::Infinite { negative }
    } else if leading_place(ip, fp) + signed_e < MIN_PLACE {
        NumberText::Finite { negative, int_digits: seq!['0'], frac_digits: seq![] }
    } else {
        let p = shifted(ip, fp, signed_e);
        NumberText::Finite { negative, int_digits: p.0, frac_digits: p.1 }
    }
}

pub open spec fn number_text(t: Seq<char>) -> NumberText {
    let signed = t.len() > 0 && (t[0] == '+' || t[0] == '-');
    let negative = signed && t[0] == '-';
    let body = if signed {
        t.drop_first()
    } else {
        t
    };
    if eq_ignore_ascii_case(body, "inf"@) || eq_ignore_ascii_case(body, "infinity"@) {
        NumberText::Infinite { negative }
    } else if eq_ignore_ascii_case(body, "nan"@) {
        NumberText::NotANumber
    } else {
        let k = run_len(body, exp_sep());
        match mantissa_parts(body.take(k as int)) {
            None => NumberText::Malformed,
            Some(parts) => if k >= body.len() {
                NumberText::Finite { negative, int_digits: parts.0, frac_digits: parts.1 }
            } else {
                match exponent_parts(body.skip(k + 1int)) {
                    None => NumberText::Malformed,
                    Some(x) => scaled(negative, parts.0, parts.1, x.0, digits_value(x.1)),
                }
            },
        }
    }
}

/// The `k`-th digit after the decimal point (0 past the end).
pub open spec fn frac_digit(f: Seq<char>, k: int) -> nat {
    if 0 <= k < f.len() {
        digit_val(f[k])
    } else {
        0
    }
}

/// The value of a finite number's magnitude in thousandths, cut off after
/// the third decimal.
pub open spec fn milli_floor(int_digits: Seq<char>, frac_digits: Seq<char>) -> nat {
    digits_value(int_digits) * 1000 + frac_digit(frac_digits, 0) * 100 + frac_digit(frac_digits, 1)
        * 10 + frac_digit(frac_digits, 2)
}

/// Whether a digit other than 0 follows the third decimal, that is whether
/// the magnitude exceeds `milli_floor` thousandths.
pub open spec fn beyond_milli(frac_digits: Seq<char>) -> bool {
    exists|k: int| 3 <= k < frac_digits.len() && frac_digits[k] != '0'
}

/// Whether the exact value of a finite number lies in `[lo, hi]` thousandths.
pub open spec fn within_milli(
    negative: bool,
    int_digits: Seq<char>,
    frac_digits: Seq<char>,
    lo: nat,
    hi: nat,
) -> bool {
    let m = milli_floor(int_digits, frac_digits);
    if negative {
        m == 0 && !beyond_milli(frac_digits) && lo == 0
    } else {
        lo <= m && m + (if beyond_milli(frac_digits) {
            1int
        } else {
            0int
        }) <= hi
    }
}

pub open spec fn strip_leading_zeros(d: Seq<char>) -> Seq<char>
    decreases d.len(),
{
    if d.len() > 0 && d[0] == '0' {
        strip_leading_zeros(d.drop_first())
    } else {
        d
    }
}

pub open spec fn strip_trailing_zeros(d: Seq<char>) -> Seq<char>
    decreases d.len(),
{
    if d.len() > 0 && d.last() == '0' {
        strip_trailing_zeros(d.drop_last())
    } else {
        d
    }
}

/// The first three decimals, padded with zeros.
pub open spec fn pad3(f: Seq<char>) -> Seq<char> {
    seq![
        digit_char(frac_digit(f, 0)),
        digit_char(frac_digit(f, 1)),
        digit_char(frac_digit(f, 2)),
    ]
}

/// Whether rounding to thousandths goes up: the fourth decimal is above 5,
/// or it is 5 and either a digit other than 0 follows or the third decimal
/// is odd (an exact tie goes to the even neighbour).
pub open spec fn rounds_up(f: Seq<char>) -> bool {
    f.len() > 3 && (frac_digit(f, 3) > 5 || (frac_digit(f, 3) == 5 && (nonzero_from(f, 4)
        || frac_digit(f, 2) % 2 == 1)))
}

pub open spec fn zeros(n: nat) -> Seq<char> {
    Seq::new(n, |i: int| '0')
}

/// A string of decimal digits plus one.
pub open spec fn increment(d: Seq<char>) -> Seq<char>
    decreases d.len(),
{
    if d.len() == 0 {
        seq!['1']
    } else if d.last() == '9' {
        increment(d.drop_last()).push('0')
    } else {
        d.drop_last().push(((d.last() as int) + 1) as char)
    }
}

/// The digits of a finite magnitude rounded to thousandths, the last three
/// being the decimals.
pub open spec fn milli_digits(int_digits: Seq<char>, frac_digits: Seq<char>) -> Seq<char> {
    let d = strip_leading_zeros(int_digits) + pad3(frac_digits);
    if rounds_up(frac_digits) {
        increment(d)
    } else {
        d
    }
}

/// A finite number written with at most three decimals and no trailing
/// zeros, as `format!("{:.3}")` and the removal of trailing zeros write
/// a decimal (an exact tie goes to the even neighbour).
pub open spec fn decimal_text(negative: bool, int_digits: Seq<char>, frac_digits: Seq<char>) -> Seq<
    char,
> {
    let d = milli_digits(int_digits, frac_digits);
    let ip = d.take(d.len() - 3);
    let fp = strip_trailing_zeros(d.skip(d.len() - 3));
    (if negative {
        seq!['-']
    } else {
        seq![]
    }) + (if ip.len() == 0 {
        seq!['0']
    } else {
        ip
    }) + (if fp.len() == 0 {
        seq![]
    } else {
        seq!['.'] + fp
    })
}

/// How a number reads in a message.
pub open spec fn number_display(n: NumberText) -> Seq<char> {
    match n {
        NumberText::Finite { negative, int_digits, frac_digits } => decimal_text(
            negative,
            int_digits,
            frac_digits,
        ),
        NumberText::Infinite { negative } => if negative {
            "-inf"@
        } else {
            "inf"@
        },
        NumberText::NotANumber => "NaN"@,
        NumberText::Malformed => seq![],
    }
}

/// Reads `raw` as a decimal number between `lo` and `hi` thousandths and
/// gives its text rounded to three decimals, or the message of the error.
pub open spec fn decimal_in_range(
    raw: Seq<char>,
    label: Seq<char>,
    lo: nat,
    hi: nat,
    lo_text: Seq<char>,
    hi_text: Seq<char>,
) -> Result<Seq<char>, Seq<char>> {
    let n = number_text(trim(raw));
    match n {
        NumberText::Malformed => Err(label + " must be numeric, got `"@ + raw + "`"@),
        NumberText::Finite { negative, int_digits, frac_digits } if within_milli(
            negative,
            int_digits,
            frac_digits,
            lo,
            hi,
        ) => Ok(decimal_text(negative, int_digits, frac_digits)),
        _ => Err(
            label + " must be between "@ + lo_text + " and "@ + hi_text + ", got "@ + number_display(
                n,
            ),
        ),
    }
}


/// A number as read from text, holding the digits of a finite one.
pub enum ParsedNumber {
    Finite { negative: bool, int_digits: Vec<char>, frac_digits: Vec<char> },
    Infinite { negative: bool },
    NotANumber,
    Malformed,
}

impl View for ParsedNumber {
    type V = NumberText;

    open spec fn view(&self) -> NumberText {
        match self {
            ParsedNumber::Finite { negative, int_digits, frac_digits } => NumberText::Finite {
                negative: *negative,
                int_digits: int_digits@,
                frac_digits: frac_digits@,
            },
            ParsedNumber::Infinite { negative } => NumberText::Infinite { negative: *negative },
            ParsedNumber::NotANumber => NumberText::NotANumber,
            ParsedNumber::Malformed => NumberText::Malformed,
        }
    }
}

pub fn all_digits_exec(s: &[char]) -> (r: bool)
    ensures
        r == all_digits(s@),
{
    let mut i: usize = 0;
    while i < s.len()
        invariant
            i <= s@.len(),
            forall|j: int| 0 <= j < i ==> is_digit(#[trigger] s@[j]),
        decreases s@.len() - i,
    {
        if !is_digit_exec(s[i]) {
            assert(!is_digit(s@[i as int]));
            return false;
        }
        i = i + 1;
    }
    true
}

/// The length of the leading run of `v` without an exponent marker.
fn exp_run(v: &[char]) -> (r: usize)
    ensures
        r <= v@.len(),
        r == run_len(v@, exp_sep()),
{
    let mut j: usize = 0;
    assert(v@.skip(0) =~= v@);
    while j < v.len() && v[j] != 'e' && v[j] != 'E'
        invariant
            j <= v@.len(),
            run_len(v@, exp_sep()) == j + run_len(v@.skip(j as int), exp_sep()),
        decreases v@.len() - j,
    {
        assert(v@.skip(j as int).drop_first() =~= v@.skip(j + 1));
        j = j + 1;
    }
    j
}

fn mantissa_exec(m: &[char]) -> (r: Option<(Vec<char>, Vec<char>)>)
    ensures
        match r {
            Some(p) => mantissa_parts(m@) == Some((p.0@, p.1@)),
            None => mantissa_parts(m@) is None,
        },
{
    let mut dot: Vec<char> = Vec::new();
    dot.push('.');
    assert(dot@ =~= seq!['.']);
    match find_exec(m, &dot) {
        Some(i) => {
            assert(dot@.len() == 1);
            assert(i + dot@.len() <= m@.len());
            let n = m.len();
            assert(i < n);
            let ip = slice_chars(m, 0, i);
            let fp = slice_chars(m, i + 1, n);
            assert(ip@ =~= m@.take(i as int));
            assert(fp@ =~= m@.skip(i + 1));
            if all_digits_exec(&ip) && all_digits_exec(&fp) && ip.len() + fp.len() > 0 {
                Some((ip, fp))
            } else {
                None
            }
        },
        None => {
            if m.len() > 0 && all_digits_exec(m) {
                let whole = slice_chars(m, 0, m.len());
                assert(whole@ =~= m@);
                Some((whole, Vec::new()))
            } else {
                None
            }
        },
    }
}

fn exponent_exec(x: &[char]) -> (r: Option<(bool, Vec<char>)>)
    ensures
        match r {
            Some(p) => exponent_parts(x@) == Some((p.0, p.1@)),
            None => exponent_parts(x@) is None,
        },
{
    let signed = x.len() > 0 && (x[0] == '+' || x[0] == '-');
    let d = if signed {
        slice_chars(x, 1, x.len())
    } else {
        slice_chars(x, 0, x.len())
    };
    if x.len() > 0 {
        assert(x@.subrange(1, x@.len() as int) =~= x@.drop_first());
    }
    assert(x@.subrange(0, x@.len() as int) =~= x@);
    if d.len() > 0 && all_digits_exec(&d) {
        Some((signed && x[0] == '-', d))
    } else {
        None
    }
}

fn zeros_exec(n: usize) -> (r: Vec<char>)
    ensures
        r@ == zeros(n as nat),
{
    let mut r: Vec<char> = Vec::new();
    let mut i: usize = 0;
    while i < n
        invariant
            i <= n,
            r@ == zeros(i as nat),
        decreases n - i,
    {
        r.push('0');
        i = i + 1;
        assert(r@ =~= zeros(i as nat));
    }
    r
}

fn all_zeros_exec(v: &[char]) -> (r: bool)
    ensures
        r == all_zeros(v@),
{
    let mut i: usize = 0;
    while i < v.len()
        invariant
            i <= v@.len(),
            forall|j: int| 0 <= j < i ==> v@[j] == '0',
        decreases v@.len() - i,
    {
        if v[i] != '0' {
            return false;
        }
        i = i + 1;
    }
    true
}

fn concat(a: &[char], b: &[char]) -> (r: Vec<char>)
    ensures
        r@ == a@ + b@,
{
    let mut r = slice_chars(a, 0, a.len());
    assert(r@ =~= a@);
    append_chars(&mut r, b);
    r
}

fn shifted_exec(ip: &[char], fp: &[char], exp_negative: bool, e: u128) -> (r: (Vec<char>, Vec<char>))
    requires
        !exp_negative ==> e <= fp@.len() + 400,
        exp_negative ==> e <= ip@.len() + 400,
    ensures
        (r.0@, r.1@) == shifted(
            ip@,
            fp@,
            if exp_negative {
                -(e as int)
            } else {
                e as int
            },
        ),
{
    let ni = ip.len();
    let nf = fp.len();
    if !exp_negative {
        if e <= nf as u128 {
            let k = e as usize;
            let a = concat(ip, &slice_chars(fp, 0, k));
            assert(fp@.subrange(0, k as int) =~= fp@.take(k as int));
            let b = slice_chars(fp, k, nf);
            assert(b@ =~= fp@.skip(k as int));
            (a, b)
        } else {
            let extra = (e - nf as u128) as usize;
            let mut a = concat(ip, fp);
            append_chars(&mut a, &zeros_exec(extra));
            (a, Vec::new())
        }
    } else if e <= ni as u128 {
        let cut = ni - e as usize;
        let a = slice_chars(ip, 0, cut);
        assert(a@ =~= ip@.take(cut as int));
        let b = concat(&slice_chars(ip, cut, ni), fp);
        assert(ip@.subrange(cut as int, ip@.len() as int) =~= ip@.skip(cut as int));
        (a, b)
    } else {
        let extra = (e - ni as u128) as usize;
        let mut b = zeros_exec(extra);
        append_chars(&mut b, ip);
        append_chars(&mut b, fp);
        (Vec::new(), b)
    }
}

/// The bound at which an exponent is no longer read exactly; it is far
/// beyond any length of text.
pub const EXP_CAP: u128 = 1_208_925_819_614_629_174_706_176;

/// The value of the exponent's digits, or `EXP_CAP` when it is not below it.
fn exponent_capped(d: &[char]) -> (r: u128)
    requires
        all_digits(d@),
    ensures
        digits_value(d@) < EXP_CAP ==> r == digits_value(d@),
        digits_value(d@) >= EXP_CAP ==> r == EXP_CAP,
{
    let mut v: u128 = 0;
    let mut i: usize = 0;
    while i < d.len()
        invariant
            i <= d@.len(),
            all_digits(d@),
            v == if digits_value(d@.take(i as int)) < EXP_CAP {
                digits_value(d@.take(i as int))
            } else {
                EXP_CAP as nat
            },
        decreases d@.len() - i,
    {
        let c = d[i];
        proof {
            assert(is_digit(d@[i as int]));
            lemma_digits_value_push(d@.take(i as int), c);
            assert(d@.take(i + 1) =~= d@.take(i as int).push(c));
        }
        let dv: u128 = (c as u128) - 48;
        v = if v * 10 + dv < EXP_CAP {
            v * 10 + dv
        } else {
            EXP_CAP
        };
        i = i + 1;
    }
    assert(d@.take(i as int) =~= d@);
    v
}

/// The number of leading zeros of `v`.
fn leading_zeros(v: &[char]) -> (r: usize)
    ensures
        r <= v@.len(),
        r == run_len(v@, nonzero_sep()),
{
    let mut j: usize = 0;
    assert(v@.skip(0) =~= v@);
    while j < v.len() && v[j] == '0'
        invariant
            j <= v@.len(),
            run_len(v@, nonzero_sep()) == j + run_len(v@.skip(j as int), nonzero_sep()),
        decreases v@.len() - j,
    {
        assert(v@.skip(j as int).drop_first() =~= v@.skip(j + 1));
        j = j + 1;
    }
    j
}

proof fn lemma_run_len_le(s: Seq<char>, sep: spec_fn(char) -> bool)
    ensures
        run_len(s, sep) <= s.len(),
    decreases s.len(),
{
    if s.len() > 0 && !sep(s[0]) {
        lemma_run_len_le(s.drop_first(), sep);
    }
}

fn scaled_exec(
    negative: bool,
    ip: Vec<char>,
    fp: Vec<char>,
    exp_negative: bool,
    exp_digits: &[char],
) -> (r: ParsedNumber)
    requires
        all_digits(exp_digits@),
    ensures
        r@ == scaled(negative, ip@, fp@, exp_negative, digits_value(exp_digits@)),
{
    if all_zeros_exec(&concat(&ip, &fp)) {
        return ParsedNumber::Finite { negative, int_digits: ip, frac_digits: fp };
    }
    let ghost e_spec: int = if exp_negative {
        -(digits_value(exp_digits@) as int)
    } else {
        digits_value(exp_digits@) as int
    };
    let zi = leading_zeros(&ip);
    let zf = leading_zeros(&fp);
    let lead: i128 = if zi < ip.len() {
        (ip.len() - zi - 1) as i128
    } else {
        -((zf as i128) + 1)
    };
    assert(lead == leading_place(ip@, fp@));
    let e = exponent_capped(exp_digits);
    let infinite: bool;
    let zero: bool;
    if e >= EXP_CAP {
        infinite = !exp_negative;
        zero = exp_negative;
    } else {
        let d: i128 = if exp_negative {
            lead - e as i128
        } else {
            lead + e as i128
        };
        assert(d == leading_place(ip@, fp@) + e_spec);
        infinite = d > MAX_PLACE;
        zero = d < MIN_PLACE;
    }
    if infinite {
        ParsedNumber::Infinite { negative }
    } else if zero {
        let mut z: Vec<char> = Vec::new();
        z.push('0');
        assert(z@ =~= seq!['0']);
        ParsedNumber::Finite { negative, int_digits: z, frac_digits: Vec::new() }
    } else {
        proof {
            if zi >= ip.len() {
                lemma_run_len_le(fp@, nonzero_sep());
            }
        }
        let (a, b) = shifted_exec(&ip, &fp, exp_negative, e);
        ParsedNumber::Finite { negative, int_digits: a, frac_digits: b }
    }
}

/// Text without an exponent marker is read as its mantissa alone.
pub proof fn lemma_no_exponent(s: Seq<char>)
    requires
        forall|i: int| 0 <= i < s.len() ==> s[i] != 'e' && s[i] != 'E',
    ensures
        run_len(s, exp_sep()) == s.len(),
        s.take(s.len() as int) == s,
    decreases s.len(),
{
    if s.len() > 0 {
        let t = s.drop_first();
        assert forall|i: int| 0 <= i < t.len() implies t[i] != 'e' && t[i] != 'E' by {
            assert(t[i] == s[i + 1]);
        }
        lemma_no_exponent(t);
    }
    assert(s.take(s.len() as int) =~= s);
}

/// Reads a number from trimmed text.
pub fn parse_number(t: &[char]) -> (r: ParsedNumber)
    ensures
        r@ == number_text(t@),
{
    let signed = t.len() > 0 && (t[0] == '+' || t[0] == '-');
    let negative = signed && t[0] == '-';
    let body = if signed {
        slice_chars(t, 1, t.len())
    } else {
        slice_chars(t, 0, t.len())
    };
    if t.len() > 0 {
        assert(t@.subrange(1, t@.len() as int) =~= t@.drop_first());
    }
    assert(t@.subrange(0, t@.len() as int) =~= t@);
    let inf_word = chars_of("inf");
    let infinity_word = chars_of("infinity");
    let nan_word = chars_of("nan");
    if eq_ignore_ascii_case_exec(&body, &inf_word) || eq_ignore_ascii_case_exec(&body, &infinity_word) {
        return ParsedNumber::Infinite { negative };
    }
    if eq_ignore_ascii_case_exec(&body, &nan_word) {
        return ParsedNumber::NotANumber;
    }
    let k = exp_run(&body);
    let m = slice_chars(&body, 0, k);
    assert(m@ =~= body@.take(k as int));
    match mantissa_exec(&m) {
        None => ParsedNumber::Malformed,
        Some((ip, fp)) => {
            if k >= body.len() {
                ParsedNumber::Finite { negative, int_digits: ip, frac_digits: fp }
            } else {
                let x = slice_chars(&body, k + 1, body.len());
                assert(x@ =~= body@.skip(k + 1));
                match exponent_exec(&x) {
                    None => ParsedNumber::Malformed,
                    Some((exp_negative, exp_digits)) => scaled_exec(
                        negative,
                        ip,
                        fp,
                        exp_negative,
                        &exp_digits,
                    ),
                }
            }
        },
    }
}

/// The bound above which a whole part is not followed exactly.
pub const WHOLE_CAP: u64 = 1_000_000_000_000;

/// `milli_floor`, exact while the whole part is below `WHOLE_CAP`.
pub fn milli_floor_exec(int_digits: &[char], frac_digits: &[char]) -> (r: u64)
    requires
        all_digits(int_digits@),
        all_digits(frac_digits@),
    ensures
        digits_value(int_digits@) < WHOLE_CAP ==> r == milli_floor(int_digits@, frac_digits@),
        digits_value(int_digits@) >= WHOLE_CAP ==> r >= WHOLE_CAP * 1000,
{
    let mut whole: u64 = 0;
    let mut i: usize = 0;
    while i < int_digits.len()
        invariant
            i <= int_digits@.len(),
            all_digits(int_digits@),
            whole == if digits_value(int_digits@.take(i as int)) < WHOLE_CAP {
                digits_value(int_digits@.take(i as int))
            } else {
                WHOLE_CAP as nat
            },
        decreases int_digits@.len() - i,
    {
        let c = int_digits[i];
        proof {
            assert(is_digit(int_digits@[i as int]));
            lemma_digits_value_push(int_digits@.take(i as int), c);
            assert(int_digits@.take(i + 1) =~= int_digits@.take(i as int).push(c));
        }
        let dv: u64 = (c as u64) - 48;
        whole = if whole * 10 + dv < WHOLE_CAP {
            whole * 10 + dv
        } else {
            WHOLE_CAP
        };
        i = i + 1;
    }
    assert(int_digits@.take(i as int) =~= int_digits@);
    let d0: u64 = if frac_digits.len() > 0 {
        (frac_digits[0] as u64) - 48
    } else {
        0
    };
    let d1: u64 = if frac_digits.len() > 1 {
        (frac_digits[1] as u64) - 48
    } else {
        0
    };
    let d2: u64 = if frac_digits.len() > 2 {
        (frac_digits[2] as u64) - 48
    } else {
        0
    };
    proof {
        if frac_digits@.len() > 0 {
            assert(is_digit(frac_digits@[0]));
        }
        if frac_digits@.len() > 1 {
            assert(is_digit(frac_digits@[1]));
        }
        if frac_digits@.len() > 2 {
            assert(is_digit(frac_digits@[2]));
        }
    }
    whole * 1000 + d0 * 100 + d1 * 10 + d2
}

pub fn beyond_milli_exec(frac_digits: &[char]) -> (r: bool)
    ensures
        r == beyond_milli(frac_digits@),
{
    let mut k: usize = 3;
    while k < frac_digits.len()
        invariant
            3 <= k,
            forall|j: int| 3 <= j < k && j < frac_digits@.len() ==> frac_digits@[j] == '0',
        decreases frac_digits@.len() - k,
    {
        if frac_digits[k] != '0' {
            return true;
        }
        k = k + 1;
    }
    false
}

/// Whether a finite number lies in `[lo, hi]` thousandths.
pub fn within_milli_exec(
    negative: bool,
    int_digits: &[char],
    frac_digits: &[char],
    lo: u64,
    hi: u64,
) -> (r: bool)
    requires
        all_digits(int_digits@),
        all_digits(frac_digits@),
        hi < WHOLE_CAP * 1000,
    ensures
        r == within_milli(negative, int_digits@, frac_digits@, lo as nat, hi as nat),
{
    let m = milli_floor_exec(int_digits, frac_digits);
    let beyond = beyond_milli_exec(frac_digits);
    proof {
        if digits_value(int_digits@) >= WHOLE_CAP {
            assert(milli_floor(int_digits@, frac_digits@) >= WHOLE_CAP * 1000) by (nonlinear_arith)
                requires
                    digits_value(int_digits@) >= WHOLE_CAP,
                    milli_floor(int_digits@, frac_digits@) >= digits_value(int_digits@) * 1000,
            ;
        }
    }
    if negative {
        m == 0 && !beyond && lo == 0
    } else {
        lo <= m && m < WHOLE_CAP * 1000 && m + (if beyond {
            1u64
        } else {
            0u64
        }) <= hi
    }
}

pub proof fn lemma_digit_char_val(c: char)
    requires
        is_digit(c),
    ensures
        digit_char(digit_val(c)) == c,
{
}

pub fn strip_leading_zeros_exec(d: &[char]) -> (r: Vec<char>)
    ensures
        r@ == strip_leading_zeros(d@),
        all_digits(d@) ==> all_digits(r@),
{
    let mut a: usize = 0;
    assert(d@.skip(0) =~= d@);
    while a < d.len() && d[a] == '0'
        invariant
            a <= d@.len(),
            strip_leading_zeros(d@) == strip_leading_zeros(d@.skip(a as int)),
        decreases d@.len() - a,
    {
        assert(d@.skip(a as int).drop_first() =~= d@.skip(a + 1));
        a = a + 1;
    }
    let r = slice_chars(d, a, d.len());
    assert(r@ =~= d@.skip(a as int));
    assert(all_digits(d@) ==> all_digits(r@)) by {
        if all_digits(d@) {
            assert forall|j: int| 0 <= j < r@.len() implies is_digit(#[trigger] r@[j]) by {
                assert(r@[j] == d@[a + j]);
            }
        }
    }
    r
}

pub fn strip_trailing_zeros_exec(d: &[char]) -> (r: Vec<char>)
    ensures
        r@ == strip_trailing_zeros(d@),
{
    let mut b: usize = d.len();
    assert(d@.take(d@.len() as int) =~= d@);
    while b > 0 && d[b - 1] == '0'
        invariant
            b <= d@.len(),
            strip_trailing_zeros(d@) == strip_trailing_zeros(d@.take(b as int)),
        decreases b,
    {
        assert(d@.take(b as int).drop_last() =~= d@.take(b - 1));
        b = b - 1;
    }
    let r = slice_chars(d, 0, b);
    assert(r@ =~= d@.take(b as int));
    r
}

pub fn pad3_exec(f: &[char]) -> (r: Vec<char>)
    requires
        all_digits(f@),
    ensures
        r@ == pad3(f@),
        all_digits(r@),
{
    let mut r: Vec<char> = Vec::new();
    let mut k: usize = 0;
    while k < 3
        invariant
            k <= 3,
            all_digits(f@),
            r@.len() == k,
            forall|j: int| 0 <= j < k ==> r@[j] == digit_char(frac_digit(f@, j)),
            forall|j: int| 0 <= j < k ==> is_digit(#[trigger] r@[j]),
        decreases 3 - k,
    {
        if k < f.len() {
            proof {
                assert(is_digit(f@[k as int]));
                lemma_digit_char_val(f@[k as int]);
            }
            r.push(f[k]);
        } else {
            r.push('0');
        }
        k = k + 1;
    }
    assert(r@ =~= pad3(f@));
    r
}

pub proof fn lemma_increment_nines(d: Seq<char>, k: int)
    requires
        0 <= k <= d.len(),
        forall|j: int| k <= j < d.len() ==> d[j] == '9',
    ensures
        increment(d) == increment(d.take(k)) + zeros((d.len() - k) as nat),
    decreases d.len(),
{
    if k == d.len() {
        assert(d.take(k) =~= d);
        assert(increment(d) + zeros(0) =~= increment(d));
    } else {
        lemma_increment_nines(d.drop_last(), k);
        assert(d.drop_last().take(k) =~= d.take(k));
        assert(increment(d.take(k)) + zeros((d.len() - 1 - k) as nat) + seq!['0'] =~= increment(
            d.take(k),
        ) + zeros((d.len() - k) as nat));
    }
}

pub fn increment_exec(d: &[char]) -> (r: Vec<char>)
    requires
        all_digits(d@),
    ensures
        r@ == increment(d@),
{
    let mut k: usize = d.len();
    while k > 0 && d[k - 1] == '9'
        invariant
            k <= d@.len(),
            forall|j: int| k <= j < d@.len() ==> d@[j] == '9',
        decreases k,
    {
        k = k - 1;
    }
    proof {
        lemma_increment_nines(d@, k as int);
    }
    let mut r: Vec<char> = Vec::new();
    if k == 0 {
        r.push('1');
        assert(d@.take(0) =~= Seq::<char>::empty());
    } else {
        r = slice_chars(d, 0, k - 1);
        assert(is_digit(d@[k - 1]));
        let next: u32 = (d[k - 1] as u32) + 1;
        assert(next <= 0x39);
        r.push((next as u8) as char);
        assert(d@.take(k as int).drop_last() =~= d@.take(k - 1));
        assert(r@ =~= increment(d@.take(k as int)));
    }
    let ghost before = r@;
    let mut j: usize = k;
    while j < d.len()
        invariant
            k <= j <= d@.len(),
            r@ == before + zeros((j - k) as nat),
        decreases d@.len() - j,
    {
        r.push('0');
        j = j + 1;
        assert(r@ =~= before + zeros((j - k) as nat));
    }
    r
}

pub proof fn lemma_increment_len(d: Seq<char>)
    ensures
        increment(d).len() >= d.len(),
    decreases d.len(),
{
    if d.len() > 0 && d.last() == '9' {
        lemma_increment_len(d.drop_last());
    }
}

pub fn milli_digits_exec(int_digits: &[char], frac_digits: &[char]) -> (r: Vec<char>)
    requires
        all_digits(int_digits@),
        all_digits(frac_digits@),
    ensures
        r@ == milli_digits(int_digits@, frac_digits@),
        r@.len() >= 3,
{
    let stripped = strip_leading_zeros_exec(int_digits);
    let padded = pad3_exec(frac_digits);
    let mut d = stripped;
    append_chars(&mut d, &padded);
    let up = frac_digits.len() > 3 && (frac_digits[3] > '5' || (frac_digits[3] == '5' && (
    nonzero_from_exec(frac_digits, 4) || (frac_digits[2] as u32) % 2 == 1)));
    proof {
        if frac_digits@.len() > 3 {
            assert(is_digit(frac_digits@[3]));
            assert(is_digit(frac_digits@[2]));
            assert((frac_digits@[2] as u32) % 2 == (frac_digits@[2] as int - 48) % 2);
        }
        lemma_increment_len(d@);
        assert forall|j: int| 0 <= j < d@.len() implies is_digit(#[trigger] d@[j]) by {
            if j < stripped@.len() {
                assert(d@[j] == stripped@[j]);
            } else {
                assert(d@[j] == padded@[j - stripped@.len()]);
            }
        }
    }
    if up {
        increment_exec(&d)
    } else {
        d
    }
}

/// `decimal_text` of a finite number.
pub fn decimal_text_exec(negative: bool, int_digits: &[char], frac_digits: &[char]) -> (r: Vec<
    char,
>)
    requires
        all_digits(int_digits@),
        all_digits(frac_digits@),
    ensures
        r@ == decimal_text(negative, int_digits@, frac_digits@),
{
    let d = milli_digits_exec(int_digits, frac_digits);
    let ip = slice_chars(&d, 0, d.len() - 3);
    let tail = slice_chars(&d, d.len() - 3, d.len());
    let fp = strip_trailing_zeros_exec(&tail);
    assert(ip@ =~= d@.take(d@.len() - 3));
    assert(tail@ =~= d@.skip(d@.len() - 3));
    let mut r: Vec<char> = Vec::new();
    if negative {
        r.push('-');
    }
    let ghost sign = r@;
    if ip.len() == 0 {
        r.push('0');
    } else {
        append_chars(&mut r, &ip);
    }
    let ghost whole = r@;
    if fp.len() > 0 {
        r.push('.');
        append_chars(&mut r, &fp);
    }
    proof {
        let s2: Seq<char> = if negative {
            seq!['-']
        } else {
            seq![]
        };
        assert(sign =~= s2);
        if ip@.len() == 0 {
            assert(whole =~= s2 + seq!['0']);
        } else {
            assert(whole =~= s2 + ip@);
        }
        if fp@.len() > 0 {
            assert(r@ =~= whole + (seq!['.'] + fp@));
        } else {
            assert(r@ =~= whole + Seq::<char>::empty());
        }
    }
    r
}


/// Reads `raw` as a `u8` between `lo` and `hi`, or gives the message of the error.
pub open spec fn u8_in_range(raw: Seq<char>, label: Seq<char>, lo: u8, hi: u8) -> Result<
    u8,
    Seq<char>,
> {
    match parse_u8(trim(raw)) {
        None => Err(label + " must be an integer, got `"@ + raw + "`"@),
        Some(v) => if lo <= v && v <= hi {
            Ok(v)
        } else {
            Err(
                label + " must be between "@ + nat_text(lo as nat) + " and "@ + nat_text(hi as nat)
                    + ", got "@ + nat_text(v as nat),
            )
        },
    }
}

pub fn parse_u8_range(raw: &[char], label: &str, lo: u8, hi: u8) -> (r: Result<u8, String>)
    ensures
        err_view(r) == u8_in_range(raw@, label@, lo, hi),
{
    let t = trim_chars(raw);
    match parse_u8_exec(&t) {
        None => {
            let mut m: Vec<char> = chars_of(label);
            append_str(&mut m, " must be an integer, got `");
            append_chars(&mut m, raw);
            append_str(&mut m, "`");
            Err(string_of(&m))
        },
        Some(v) => {
            if lo <= v && v <= hi {
                Ok(v)
            } else {
                let mut m: Vec<char> = chars_of(label);
                append_str(&mut m, " must be between ");
                append_chars(&mut m, &nat_text_exec(lo as u64));
                append_str(&mut m, " and ");
                append_chars(&mut m, &nat_text_exec(hi as u64));
                append_str(&mut m, ", got ");
                append_chars(&mut m, &nat_text_exec(v as u64));
                Err(string_of(&m))
            }
        },
    }
}

/// The text of a number in a message.
pub fn number_display_exec(n: &ParsedNumber) -> (r: Vec<char>)
    requires
        n matches ParsedNumber::Finite { int_digits, frac_digits, .. } ==> all_digits(int_digits@)
            && all_digits(frac_digits@),
    ensures
        r@ == number_display(n@),
{
    match n {
        ParsedNumber::Finite { negative, int_digits, frac_digits } => decimal_text_exec(
            *negative,
            int_digits,
            frac_digits,
        ),
        ParsedNumber::Infinite { negative } => if *negative {
            chars_of("-inf")
        } else {
            chars_of("inf")
        },
        ParsedNumber::NotANumber => chars_of("NaN"),
        ParsedNumber::Malformed => Vec::new(),
    }
}

pub proof fn lemma_number_text_digits(t: Seq<char>)
    ensures
        number_text(t) matches NumberText::Finite { int_digits, frac_digits, .. } ==> all_digits(
            int_digits,
        ) && all_digits(frac_digits),
{
}

/// Reads `raw` as a decimal number between `lo` and `hi` thousandths and
/// gives its text rounded to three decimals.
pub fn decimal_in_range_exec(
    raw: &[char],
    label: &str,
    lo: u64,
    hi: u64,
    lo_text: &str,
    hi_text: &str,
) -> (r: Result<String, String>)
    requires
        hi < WHOLE_CAP * 1000,
    ensures
        text_result(r) == decimal_in_range(
            raw@,
            label@,
            lo as nat,
            hi as nat,
            lo_text@,
            hi_text@,
        ),
{
    let t = trim_chars(raw);
    let n = parse_number(&t);
    proof {
        lemma_number_text_digits(t@);
    }
    let ok = match &n {
        ParsedNumber::Finite { negative, int_digits, frac_digits } => within_milli_exec(
            *negative,
            int_digits,
            frac_digits,
            lo,
            hi,
        ),
        _ => false,
    };
    if ok {
        match &n {
            ParsedNumber::Finite { negative, int_digits, frac_digits } => {
                let v = decimal_text_exec(*negative, int_digits, frac_digits);
                return Ok(string_of(&v));
            },
            _ => {},
        }
    }
    match &n {
        ParsedNumber::Malformed => {
            let mut m: Vec<char> = chars_of(label);
            append_str(&mut m, " must be numeric, got `");
            append_chars(&mut m, raw);
            append_str(&mut m, "`");
            Err(string_of(&m))
        },
        _ => {
            let mut m: Vec<char> = chars_of(label);
            append_str(&mut m, " must be between ");
            append_str(&mut m, lo_text);
            append_str(&mut m, " and ");
            append_str(&mut m, hi_text);
            append_str(&mut m, ", got ");
            append_chars(&mut m, &number_display_exec(&n));
            Err(string_of(&m))
        },
    }
}


/// Whether a digit other than 0 stands at position `k` or later.
pub open spec fn nonzero_from(f: Seq<char>, k: int) -> bool {
    exists|j: int| k <= j < f.len() && f[j] != '0'
}

pub fn nonzero_from_exec(f: &[char], k: usize) -> (r: bool)
    ensures
        r == nonzero_from(f@, k as int),
{
    let mut j: usize = k;
    while j < f.len()
        invariant
            k <= j,
            forall|i: int| k <= i < j && i < f@.len() ==> f@[i] == '0',
        decreases f@.len() - j,
    {
        if f[j] != '0' {
            return true;
        }
        j = j + 1;
    }
    false
}

/// The value of a digit string, or `WHOLE_CAP` when it is not below it.
pub fn whole_capped(int_digits: &[char]) -> (r: u64)
    requires
        all_digits(int_digits@),
    ensures
        digits_value(int_digits@) < WHOLE_CAP ==> r == digits_value(int_digits@),
        digits_value(int_digits@) >= WHOLE_CAP ==> r == WHOLE_CAP,
{
    let mut whole: u64 = 0;
    let mut i: usize = 0;
    while i < int_digits.len()
        invariant
            i <= int_digits@.len(),
            all_digits(int_digits@),
            whole == if digits_value(int_digits@.take(i as int)) < WHOLE_CAP {
                digits_value(int_digits@.take(i as int))
            } else {
                WHOLE_CAP as nat
            },
        decreases int_digits@.len() - i,
    {
        let c = int_digits[i];
        proof {
            assert(is_digit(int_digits@[i as int]));
            lemma_digits_value_push(int_digits@.take(i as int), c);
            assert(int_digits@.take(i + 1) =~= int_digits@.take(i as int).push(c));
        }
        let dv: u64 = (c as u64) - 48;
        whole = if whole * 10 + dv < WHOLE_CAP {
            whole * 10 + dv
        } else {
            WHOLE_CAP
        };
        i = i + 1;
    }
    assert(int_digits@.take(i as int) =~= int_digits@);
    whole
}

/// The value of the `k`-th decimal (0 past the end).
pub fn frac_digit_exec(f: &[char], k: usize) -> (r: u64)
    requires
        all_digits(f@),
    ensures
        r == frac_digit(f@, k as int),
        r < 10,
{
    if k < f.len() {
        assert(is_digit(f@[k as int]));
        (f[k] as u64) - 48
    } else {
        0
    }
}

} // verus!
