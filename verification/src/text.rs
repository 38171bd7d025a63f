//! Character-level text handling: whitespace, trimming, searching and
//! splitting, stated over `Seq<char>` and carried out on `Vec<char>`.
use vstd::prelude::*;

verus! {

/// The Unicode `White_Space` property, which `char::is_whitespace` tests.
pub open spec fn is_ws(c: char) -> bool {
    ||| ('\u{9}' <= c && c <= '\u{d}')
    ||| c == ' '
    ||| c == '\u{85}'
    ||| c == '\u{a0}'
    ||| c == '\u{1680}'
    ||| ('\u{2000}' <= c && c <= '\u{200a}')
    ||| c == '\u{2028}'
    ||| c == '\u{2029}'
    ||| c == '\u{202f}'
    ||| c == '\u{205f}'
    ||| c == '\u{3000}'
}

/// `s` with its leading whitespace removed.
pub open spec fn trim_start(s: Seq<char>) -> Seq<char>
    decreases s.len(),
{
    if s.len() > 0 && is_ws(s[0]) {
        trim_start(s.drop_first())
    } else {
        s
    }
}

/// `s` with its trailing whitespace removed.
pub open spec fn trim_end(s: Seq<char>) -> Seq<char>
    decreases s.len(),
{
    if s.len() > 0 && is_ws(s.last()) {
        trim_end(s.drop_last())
    } else {
        s
    }
}

/// `s` with whitespace removed at both ends, as `str::trim` does.
pub open spec fn trim(s: Seq<char>) -> Seq<char> {
    trim_end(trim_start(s))
}

/// Whether `p` occurs in `s` at position `i`.
pub open spec fn occurs_at(s: Seq<char>, p: Seq<char>, i: int) -> bool {
    0 <= i && i + p.len() <= s.len() && s.subrange(i, i + p.len()) == p
}

/// The first position at or after `i` where `p` occurs in `s`.
pub open spec fn find_from(s: Seq<char>, p: Seq<char>, i: int) -> Option<int>
    decreases s.len() - i,
{
    if i < 0 || i + p.len() > s.len() {
        None
    } else if p.len() == 0 || occurs_at(s, p, i) {
        Some(i)
    } else {
        find_from(s, p, i + 1)
    }
}

/// The first position where `p` occurs in `s`, as `str::find` gives it (in characters).
pub open spec fn find(s: Seq<char>, p: Seq<char>) -> Option<int> {
    find_from(s, p, 0)
}

pub open spec fn starts_with(s: Seq<char>, p: Seq<char>) -> bool {
    p.len() <= s.len() && s.take(p.len() as int) == p
}

pub open spec fn ends_with(s: Seq<char>, p: Seq<char>) -> bool {
    p.len() <= s.len() && s.skip(s.len() - p.len()) == p
}

/// What `str::strip_prefix` gives.
pub open spec fn strip_prefix(s: Seq<char>, p: Seq<char>) -> Option<Seq<char>> {
    if starts_with(s, p) {
        Some(s.skip(p.len() as int))
    } else {
        None
    }
}

/// What `str::strip_suffix` gives.
pub open spec fn strip_suffix(s: Seq<char>, p: Seq<char>) -> Option<Seq<char>> {
    if ends_with(s, p) {
        Some(s.take(s.len() - p.len()))
    } else {
        None
    }
}

/// What `str::split_once` gives: the text before and after the first `p`.
pub open spec fn split_once(s: Seq<char>, p: Seq<char>) -> Option<(Seq<char>, Seq<char>)> {
    match find(s, p) {
        Some(i) => Some((s.take(i), s.skip(i + p.len()))),
        None => None,
    }
}

/// What `str::trim_start_matches(p)` gives: every leading copy of `p` removed.
pub open spec fn strip_all_prefixes(s: Seq<char>, p: Seq<char>) -> Seq<char>
    decreases s.len(),
{
    if p.len() > 0 && starts_with(s, p) {
        strip_all_prefixes(s.skip(p.len() as int), p)
    } else {
        s
    }
}

/// What `str::trim_end_matches(c)` gives: every trailing `c` removed.
pub open spec fn strip_all_suffix_char(s: Seq<char>, c: char) -> Seq<char>
    decreases s.len(),
{
    if s.len() > 0 && s.last() == c {
        strip_all_suffix_char(s.drop_last(), c)
    } else {
        s
    }
}

/// The length of the leading run of characters of `s` outside `sep`.
pub open spec fn run_len(s: Seq<char>, sep: spec_fn(char) -> bool) -> nat
    decreases s.len(),
{
    if s.len() == 0 || sep(s[0]) {
        0
    } else {
        1 + run_len(s.drop_first(), sep)
    }
}

/// The maximal non-empty runs of characters outside `sep`, in order: what
/// splitting at `sep` and dropping the empty pieces gives.
pub open spec fn words(s: Seq<char>, sep: spec_fn(char) -> bool) -> Seq<Seq<char>>
    decreases s.len(),
{
    if s.len() == 0 {
        seq![]
    } else if sep(s[0]) {
        words(s.drop_first(), sep)
    } else {
        let n = run_len(s, sep);
        if 0 < n <= s.len() {
            seq![s.take(n as int)] + words(s.skip(n as int), sep)
        } else {
            seq![]
        }
    }
}

pub open spec fn ws_sep() -> spec_fn(char) -> bool {
    |c: char| is_ws(c)
}

/// The separators of a list of alternative frequencies: whitespace, `,` and `;`.
pub open spec fn list_sep() -> spec_fn(char) -> bool {
    |c: char| is_ws(c) || c == ',' || c == ';'
}

pub open spec fn sep_of(list: bool) -> spec_fn(char) -> bool {
    if list {
        list_sep()
    } else {
        ws_sep()
    }
}

/// The first whitespace-separated word of `s`, or the empty text.
pub open spec fn first_word(s: Seq<char>) -> Seq<char> {
    let w = words(s, ws_sep());
    if w.len() > 0 {
        w[0]
    } else {
        seq![]
    }
}

/// The pieces joined with `sep` between them.
pub open spec fn join(pieces: Seq<Seq<char>>, sep: Seq<char>) -> Seq<char>
    decreases pieces.len(),
{
    if pieces.len() == 0 {
        seq![]
    } else if pieces.len() == 1 {
        pieces[0]
    } else {
        join(pieces.drop_last(), sep) + sep + pieces.last()
    }
}

/// The ASCII lower-case form of a character.
pub open spec fn ascii_lower(c: char) -> char {
    if 'A' <= c && c <= 'Z' {
        ((c as u32) + 32) as char
    } else {
        c
    }
}

/// What `str::eq_ignore_ascii_case` decides.
pub open spec fn eq_ignore_ascii_case(a: Seq<char>, b: Seq<char>) -> bool {
    a.len() == b.len() && forall|i: int| 0 <= i < a.len() ==> ascii_lower(#[trigger] a[i]) == ascii_lower(b[i])
}

pub open spec fn contains_char(s: Seq<char>, c: char) -> bool {
    exists|i: int| 0 <= i < s.len() && s[i] == c
}

/// The text of a string, character by character.
pub fn chars_of(s: &str) -> (v: Vec<char>)
    ensures
        v@ == s@,
{
    broadcast use vstd::string::group_string_axioms;

    let mut v: Vec<char> = Vec::new();
    for c in it: s.chars()
        invariant
            v@ == it.seq().take(it.index() as int),
            it.seq() == s@,
    {
        v.push(c);
    }
    v
}

/// Calls `String::push`, which appends the character to the string.
#[verifier::external_body]
pub(crate) fn push_char(s: &mut String, c: char)
    ensures
        final(s)@ == old(s)@.push(c),
{
    s.push(c);
}

/// A `String` holding the given characters.
pub fn string_of(v: &[char]) -> (s: String)
    ensures
        s@ == v@,
{
    let mut s = String::new();
    let mut i: usize = 0;
    while i < v.len()
        invariant
            i <= v@.len(),
            s@ == v@.take(i as int),
        decreases v@.len() - i,
    {
        push_char(&mut s, v[i]);
        i = i + 1;
        assert(s@ =~= v@.take(i as int));
    }
    assert(v@.take(i as int) =~= v@);
    s
}

/// The characters `v[lo..hi]`.
pub fn slice_chars(v: &[char], lo: usize, hi: usize) -> (r: Vec<char>)
    requires
        lo <= hi <= v@.len(),
    ensures
        r@ == v@.subrange(lo as int, hi as int),
{
    let mut r: Vec<char> = Vec::new();
    let mut i: usize = lo;
    while i < hi
        invariant
            lo <= i <= hi <= v@.len(),
            r@ == v@.subrange(lo as int, i as int),
        decreases hi - i,
    {
        r.push(v[i]);
        i = i + 1;
        assert(r@ =~= v@.subrange(lo as int, i as int));
    }
    r
}

/// Appends the characters of `b` to `r`.
pub fn append_chars(r: &mut Vec<char>, b: &[char])
    ensures
        final(r)@ == old(r)@ + b@,
{
    let mut j: usize = 0;
    while j < b.len()
        invariant
            j <= b@.len(),
            r@ == old(r)@ + b@.take(j as int),
        decreases b@.len() - j,
    {
        r.push(b[j]);
        j = j + 1;
        assert(r@ =~= old(r)@ + b@.take(j as int));
    }
    assert(b@.take(j as int) =~= b@);
}

/// Appends the characters of a string to `r`.
pub fn append_str(r: &mut Vec<char>, s: &str)
    ensures
        final(r)@ == old(r)@ + s@,
{
    let v = chars_of(s);
    append_chars(r, &v);
}

/// Whether `c` is whitespace, as `char::is_whitespace` decides.
pub fn is_whitespace(c: char) -> (r: bool)
    ensures
        r == is_ws(c),
{
    ('\u{9}' <= c && c <= '\u{d}') || c == ' ' || c == '\u{85}' || c == '\u{a0}' || c == '\u{1680}'
        || ('\u{2000}' <= c && c <= '\u{200a}') || c == '\u{2028}' || c == '\u{2029}' || c
        == '\u{202f}' || c == '\u{205f}' || c == '\u{3000}'
}

/// The bounds of the trimmed part of `v[lo..hi]`.
pub fn trim_bounds(v: &[char], lo: usize, hi: usize) -> (r: (usize, usize))
    requires
        lo <= hi <= v@.len(),
    ensures
        lo <= r.0 <= r.1 <= hi,
        v@.subrange(r.0 as int, r.1 as int) == trim(v@.subrange(lo as int, hi as int)),
        trim_start(v@.subrange(lo as int, hi as int)) == v@.subrange(r.0 as int, hi as int),
{
    let ghost s = v@.subrange(lo as int, hi as int);
    let mut a: usize = lo;
    while a < hi && is_whitespace(v[a])
        invariant
            lo <= a <= hi <= v@.len(),
            trim_start(s) == trim_start(v@.subrange(a as int, hi as int)),
        decreases hi - a,
    {
        assert(v@.subrange(a as int, hi as int).drop_first() =~= v@.subrange(a + 1, hi as int));
        a = a + 1;
    }
    let ghost t = v@.subrange(a as int, hi as int);
    assert(trim_start(t) == t);
    let mut b: usize = hi;
    while b > a && is_whitespace(v[b - 1])
        invariant
            lo <= a <= b <= hi <= v@.len(),
            trim_end(t) == trim_end(v@.subrange(a as int, b as int)),
        decreases b - a,
    {
        assert(v@.subrange(a as int, b as int).drop_last() =~= v@.subrange(a as int, b - 1));
        b = b - 1;
    }
    (a, b)
}

/// The trimmed text of `v`.
pub fn trim_chars(v: &[char]) -> (r: Vec<char>)
    ensures
        r@ == trim(v@),
{
    let (a, b) = trim_bounds(v, 0, v.len());
    assert(v@.subrange(0, v@.len() as int) =~= v@);
    slice_chars(v, a, b)
}

/// The text of `v` without its leading whitespace.
pub fn trim_start_chars(v: &[char]) -> (r: Vec<char>)
    ensures
        r@ == trim_start(v@),
{
    let (a, b) = trim_bounds(v, 0, v.len());
    assert(v@.subrange(0, v@.len() as int) =~= v@);
    slice_chars(v, a, v.len())
}

/// Whether `p` occurs in `v` at position `i`.
pub fn occurs_at_exec(v: &[char], p: &[char], i: usize) -> (r: bool)
    ensures
        r == occurs_at(v@, p@, i as int),
{
    if i > v.len() || p.len() > v.len() - i {
        return false;
    }
    let mut k: usize = 0;
    while k < p.len()
        invariant
            i + p@.len() <= v@.len(),
            v@.len() == v.len(),
            k <= p@.len(),
            forall|j: int| 0 <= j < k ==> v@[i + j] == p@[j],
        decreases p@.len() - k,
    {
        if v[i + k] != p[k] {
            assert(v@.subrange(i as int, i + p@.len())[k as int] != p@[k as int]);
            return false;
        }
        k = k + 1;
    }
    assert(v@.subrange(i as int, i + p@.len()) =~= p@);
    true
}

/// The first position at or after `from` where `p` occurs in `v`.
pub fn find_from_exec(v: &[char], p: &[char], from: usize) -> (r: Option<usize>)
    requires
        from <= v@.len(),
    ensures
        r matches Some(i) ==> find_from(v@, p@, from as int) == Some(i as int),
        r matches Some(i) ==> from <= i && i + p@.len() <= v@.len(),
        r is None ==> find_from(v@, p@, from as int) is None,
{
    if p.len() > v.len() - from {
        return None;
    }
    let mut i: usize = from;
    while p.len() <= v.len() - i
        invariant
            from <= i <= v@.len(),
            v@.len() == v.len(),
            find_from(v@, p@, from as int) == find_from(v@, p@, i as int),
        decreases v@.len() - i,
    {
        if p.len() == 0 || occurs_at_exec(v, p, i) {
            return Some(i);
        }
        i = i + 1;
    }
    None
}

/// The first position where `p` occurs in `v`.
pub fn find_exec(v: &[char], p: &[char]) -> (r: Option<usize>)
    ensures
        r matches Some(i) ==> find(v@, p@) == Some(i as int),
        r matches Some(i) ==> i + p@.len() <= v@.len(),
        r is None ==> find(v@, p@) is None,
{
    find_from_exec(v, p, 0)
}

pub fn starts_with_exec(v: &[char], p: &[char]) -> (r: bool)
    ensures
        r == starts_with(v@, p@),
{
    let r = occurs_at_exec(v, p, 0);
    proof {
        if p@.len() <= v@.len() {
            assert(v@.subrange(0, p@.len() as int) =~= v@.take(p@.len() as int));
        }
    }
    r
}

pub fn ends_with_exec(v: &[char], p: &[char]) -> (r: bool)
    ensures
        r == ends_with(v@, p@),
{
    if p.len() > v.len() {
        return false;
    }
    let r = occurs_at_exec(v, p, v.len() - p.len());
    assert(v@.subrange(v@.len() - p@.len(), v@.len() as int) =~= v@.skip(v@.len() - p@.len()));
    r
}

/// Whether `c` occurs in `v`.
pub fn contains_char_exec(v: &[char], c: char) -> (r: bool)
    ensures
        r == contains_char(v@, c),
{
    let mut i: usize = 0;
    while i < v.len()
        invariant
            i <= v@.len(),
            forall|j: int| 0 <= j < i ==> v@[j] != c,
        decreases v@.len() - i,
    {
        if v[i] == c {
            return true;
        }
        i = i + 1;
    }
    false
}

pub fn ascii_lower_exec(c: char) -> (r: char)
    ensures
        r == ascii_lower(c),
{
    if 'A' <= c && c <= 'Z' {
        let code: u8 = (c as u8) + 32;
        code as char
    } else {
        c
    }
}

pub fn eq_ignore_ascii_case_exec(a: &[char], b: &[char]) -> (r: bool)
    ensures
        r == eq_ignore_ascii_case(a@, b@),
{
    if a.len() != b.len() {
        return false;
    }
    let mut i: usize = 0;
    while i < a.len()
        invariant
            a@.len() == b@.len(),
            i <= a@.len(),
            forall|j: int| 0 <= j < i ==> ascii_lower(#[trigger] a@[j]) == ascii_lower(b@[j]),
        decreases a@.len() - i,
    {
        if ascii_lower_exec(a[i]) != ascii_lower_exec(b[i]) {
            return false;
        }
        i = i + 1;
    }
    true
}


/// A result whose error is a `String`, with the error taken by its text.
pub open spec fn err_view<T>(r: Result<T, String>) -> Result<T, Seq<char>> {
    match r {
        Ok(v) => Ok(v),
        Err(e) => Err(e@),
    }
}

/// A result of two `String`s, each taken by its text.
pub open spec fn text_result(r: Result<String, String>) -> Result<Seq<char>, Seq<char>> {
    match r {
        Ok(v) => Ok(v@),
        Err(e) => Err(e@),
    }
}

pub open spec fn views(v: Seq<Vec<char>>) -> Seq<Seq<char>> {
    v.map_values(|w: Vec<char>| w@)
}

pub fn is_separator(c: char, list: bool) -> (r: bool)
    ensures
        r == (sep_of(list))(c),
{
    if list {
        is_whitespace(c) || c == ',' || c == ';'
    } else {
        is_whitespace(c)
    }
}

/// The maximal runs of characters of `v` outside the separators: the
/// whitespace, and also `,` and `;` when `list` holds.
pub fn words_exec(v: &[char], list: bool) -> (r: Vec<Vec<char>>)
    ensures
        views(r@) == words(v@, sep_of(list)),
{
    let ghost sep = sep_of(list);
    let mut out: Vec<Vec<char>> = Vec::new();
    let mut i: usize = 0;
    assert(v@.skip(0) =~= v@);
    while i < v.len()
        invariant
            i <= v@.len(),
            sep == sep_of(list),
            words(v@, sep) == views(out@) + words(v@.skip(i as int), sep),
        decreases v@.len() - i,
    {
        let ghost rest = v@.skip(i as int);
        if is_separator(v[i], list) {
            assert(rest.drop_first() =~= v@.skip(i + 1));
            i = i + 1;
        } else {
            let mut j: usize = i;
            assert(rest =~= v@.skip(j as int));
            while j < v.len() && !is_separator(v[j], list)
                invariant
                    i <= j <= v@.len(),
                    sep == sep_of(list),
                    rest == v@.skip(i as int),
                    run_len(rest, sep) == (j - i) + run_len(v@.skip(j as int), sep),
                decreases v@.len() - j,
            {
                assert(v@.skip(j as int).drop_first() =~= v@.skip(j + 1));
                j = j + 1;
            }
            assert(run_len(v@.skip(j as int), sep) == 0);
            let w = slice_chars(v, i, j);
            let ghost old_out = out@;
            assert(w@ =~= rest.take((j - i) as int));
            assert(rest.skip((j - i) as int) =~= v@.skip(j as int));
            out.push(w);
            assert(views(out@) =~= views(old_out).push(w@));
            assert(views(old_out) + words(rest, sep) =~= views(old_out) + (seq![w@] + words(
                v@.skip(j as int),
                sep,
            )));
            assert(views(old_out) + (seq![w@] + words(v@.skip(j as int), sep)) =~= views(
                old_out,
            ).push(w@) + words(v@.skip(j as int), sep));
            i = j;
        }
    }
    assert(v@.skip(i as int) =~= Seq::<char>::empty());
    assert(views(out@) + Seq::<Seq<char>>::empty() =~= views(out@));
    out
}

/// The first whitespace-separated word of `v`.
pub fn first_token(v: &[char]) -> (r: Vec<char>)
    ensures
        r@ == first_word(v@),
{
    let ws = words_exec(v, false);
    if ws.len() > 0 {
        assert(views(ws@)[0] == ws@[0]@);
        slice_chars(&ws[0], 0, ws[0].len())
    } else {
        Vec::new()
    }
}

/// The pieces joined with `sep` between them.
pub fn join_exec(pieces: &Vec<Vec<char>>, sep: &[char]) -> (r: Vec<char>)
    ensures
        r@ == join(views(pieces@), sep@),
{
    let mut r: Vec<char> = Vec::new();
    if pieces.len() == 0 {
        return r;
    }
    let ghost ps = views(pieces@);
    append_chars(&mut r, &pieces[0]);
    assert(ps.take(1).len() == 1);
    assert(r@ == join(ps.take(1), sep@));
    let mut i: usize = 1;
    while i < pieces.len()
        invariant
            1 <= i <= pieces@.len(),
            ps == views(pieces@),
            r@ == join(ps.take(i as int), sep@),
        decreases pieces@.len() - i,
    {
        append_chars(&mut r, sep);
        append_chars(&mut r, &pieces[i]);
        assert(ps.take(i + 1).drop_last() =~= ps.take(i as int));
        assert(ps.take(i + 1).last() == pieces@[i as int]@);
        i = i + 1;
    }
    assert(ps.take(i as int) =~= ps);
    r
}


/// Every leading copy of `p` removed from `v`, as `str::trim_start_matches` does.
pub fn strip_all_prefixes_exec(v: &[char], p: &[char]) -> (r: Vec<char>)
    ensures
        r@ == strip_all_prefixes(v@, p@),
{
    let mut a: usize = 0;
    assert(v@.skip(0) =~= v@);
    if p.len() == 0 {
        return slice_chars(v, 0, v.len());
    }
    loop
        invariant
            a <= v@.len(),
            p@.len() > 0,
            strip_all_prefixes(v@, p@) == strip_all_prefixes(v@.skip(a as int), p@),
        decreases v@.len() - a,
    {
        let rest = slice_chars(v, a, v.len());
        assert(rest@ =~= v@.skip(a as int));
        if starts_with_exec(&rest, p) {
            assert(rest@.skip(p@.len() as int) =~= v@.skip(a + p@.len()));
            a = a + p.len();
        } else {
            return rest;
        }
    }
}

/// Every trailing `c` removed from `v`, as `str::trim_end_matches` does.
pub fn strip_all_suffix_char_exec(v: &[char], c: char) -> (r: Vec<char>)
    ensures
        r@ == strip_all_suffix_char(v@, c),
{
    let mut b: usize = v.len();
    assert(v@.take(v@.len() as int) =~= v@);
    while b > 0 && v[b - 1] == c
        invariant
            b <= v@.len(),
            strip_all_suffix_char(v@, c) == strip_all_suffix_char(v@.take(b as int), c),
        decreases b,
    {
        assert(v@.take(b as int).drop_last() =~= v@.take(b - 1));
        b = b - 1;
    }
    slice_chars(v, 0, b)
}

/// What `str::strip_suffix` gives.
pub fn strip_suffix_exec(v: &[char], p: &[char]) -> (r: Option<Vec<char>>)
    ensures
        r matches Some(x) ==> strip_suffix(v@, p@) == Some(x@),
        r is None ==> strip_suffix(v@, p@) is None,
{
    if ends_with_exec(v, p) {
        let x = slice_chars(v, 0, v.len() - p.len());
        assert(x@ =~= v@.take(v@.len() - p@.len()));
        Some(x)
    } else {
        None
    }
}

/// What `str::strip_prefix` gives.
pub fn strip_prefix_exec(v: &[char], p: &[char]) -> (r: Option<Vec<char>>)
    ensures
        r matches Some(x) ==> strip_prefix(v@, p@) == Some(x@),
        r is None ==> strip_prefix(v@, p@) is None,
{
    if starts_with_exec(v, p) {
        let x = slice_chars(v, p.len(), v.len());
        assert(x@ =~= v@.skip(p@.len() as int));
        Some(x)
    } else {
        None
    }
}

/// What `str::split_once` gives.
pub fn split_once_exec(v: &[char], p: &[char]) -> (r: Option<(Vec<char>, Vec<char>)>)
    ensures
        r matches Some(x) ==> split_once(v@, p@) == Some((x.0@, x.1@)),
        r is None ==> split_once(v@, p@) is None,
{
    match find_exec(v, p) {
        Some(i) => {
            let n = v.len();
            assert(i + p@.len() <= n);
            let a = slice_chars(v, 0, i);
            let b = slice_chars(v, i + p.len(), n);
            assert(a@ =~= v@.take(i as int));
            assert(b@ =~= v@.skip(i + p@.len()));
            Some((a, b))
        },
        None => None,
    }
}

pub open spec fn newline_sep() -> spec_fn(char) -> bool {
    |c: char| c == '\n'
}

/// The length of the first line of `v[from..]`.
pub fn line_len_exec(v: &[char], from: usize) -> (r: usize)
    requires
        from <= v@.len(),
    ensures
        from + r <= v@.len(),
        r == run_len(v@.skip(from as int), newline_sep()),
{
    let mut j: usize = from;
    while j < v.len() && v[j] != '\n'
        invariant
            from <= j <= v@.len(),
            run_len(v@.skip(from as int), newline_sep()) == (j - from) + run_len(
                v@.skip(j as int),
                newline_sep(),
            ),
        decreases v@.len() - j,
    {
        assert(v@.skip(j as int).drop_first() =~= v@.skip(j + 1));
        j = j + 1;
    }
    j - from
}


/// Whether two texts are equal.
pub fn same_chars(a: &[char], b: &[char]) -> (r: bool)
    ensures
        r == (a@ == b@),
{
    if a.len() != b.len() {
        return false;
    }
    let r = starts_with_exec(a, b);
    proof {
        assert(a@.take(b@.len() as int) =~= a@);
    }
    r
}

/// Whether two strings have the same text.
pub fn same_text(a: &str, b: &str) -> (r: bool)
    ensures
        r == (a@ == b@),
{
    same_chars(&chars_of(a), &chars_of(b))
}

} // verus!
