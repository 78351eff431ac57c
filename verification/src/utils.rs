//! Byte-level text helpers shared by the memory-report parsers:
//! whitespace and token scanning, decimal numbers, and the
//! human-readable size formatter.

use vstd::prelude::*;
use vstd::string::StringExecFns;
use vstd::string::StringSliceAdditionalSpecFns;

use crate::Error;

verus! {

/// ASCII whitespace, as `str::split_ascii_whitespace` understands it:
/// space, tab, line feed, form feed, carriage return.
pub open spec fn is_space(b: u8) -> bool {
    b == 32 || b == 9 || b == 10 || b == 12 || b == 13
}

/// ASCII decimal digit.
pub open spec fn is_digit(b: u8) -> bool {
    48 <= b <= 57
}

/// Numeric value of an ASCII digit.
pub open spec fn digit_val(b: u8) -> nat
    recommends
        is_digit(b),
{
    (b - 48) as nat
}

/// All bytes of `t` are ASCII decimal digits.
pub open spec fn all_digits(t: Seq<u8>) -> bool {
    forall|i: int| 0 <= i < t.len() ==> is_digit(#[trigger] t[i])
}

/// Value of `t` read as a decimal numeral.
pub open spec fn dec_val(t: Seq<u8>) -> nat
    recommends
        all_digits(t),
    decreases t.len(),
{
    if t.len() == 0 {
        0
    } else {
        dec_val(t.drop_last()) * 10 + digit_val(t.last())
    }
}

/// Index of the first non-whitespace byte at or after `from`, or `s.len()`.
pub open spec fn ws_end(s: Seq<u8>, from: int) -> int
    recommends
        0 <= from <= s.len(),
    decreases s.len() - from
        when from <= s.len()
{
    if from >= s.len() || !is_space(s[from]) {
        from
    } else {
        ws_end(s, from + 1)
    }
}

/// Index of the first whitespace byte at or after `from`, or `s.len()`.
pub open spec fn tok_end(s: Seq<u8>, from: int) -> int
    recommends
        0 <= from <= s.len(),
    decreases s.len() - from
        when from <= s.len()
{
    if from >= s.len() || is_space(s[from]) {
        from
    } else {
        tok_end(s, from + 1)
    }
}

/// Index of the first line-feed byte at or after `from`, or `s.len()`.
pub open spec fn line_brk(s: Seq<u8>, from: int) -> int
    recommends
        0 <= from <= s.len(),
    decreases s.len() - from
        when from <= s.len()
{
    if from >= s.len() || s[from] == 10 {
        from
    } else {
        line_brk(s, from + 1)
    }
}

/// The first whitespace-separated token of `s` at or after `from`
/// (empty when only whitespace remains).
pub open spec fn token_at(s: Seq<u8>, from: int) -> Seq<u8>
    recommends
        0 <= from <= s.len(),
{
    s.subrange(ws_end(s, from), tok_end(s, ws_end(s, from)))
}

/// A token as a `u64`: defined exactly when the token is a non-empty
/// run of decimal digits whose value fits in a `u64`.
pub open spec fn tok_u64(t: Seq<u8>) -> Option<u64> {
    if t.len() > 0 && all_digits(t) && dec_val(t) <= u64::MAX {
        Some(dec_val(t) as u64)
    } else {
        None
    }
}

/// The number that a value field starting at `from` denotes: the first
/// token read as decimal, or 0 when no token remains (a bare label).
/// `None` means malformed numeric text.
pub open spec fn number_after(s: Seq<u8>, from: int) -> Option<u64>
    recommends
        0 <= from <= s.len(),
{
    if token_at(s, from).len() == 0 {
        Some(0u64)
    } else {
        tok_u64(token_at(s, from))
    }
}

/// `a - b`, floored at zero.
pub open spec fn sub_floor(a: int, b: int) -> int {
    if a >= b {
        a - b
    } else {
        0
    }
}

/// `n` clipped into the `u64` range.
pub open spec fn clip(n: int) -> u64 {
    if n > u64::MAX {
        u64::MAX
    } else if n < 0 {
        0
    } else {
        n as u64
    }
}

/// First whitespace-separated token of a line.
pub open spec fn tok1(l: Seq<u8>) -> Seq<u8> {
    token_at(l, 0)
}

/// Second whitespace-separated token of a line.
pub open spec fn tok2(l: Seq<u8>) -> Seq<u8> {
    token_at(l, tok_end(l, ws_end(l, 0)))
}

/// The numeric value of a line's second token, 0 when it is not a
/// plain decimal number (only consulted on lines that parse).
pub open spec fn line_u64(l: Seq<u8>) -> u64 {
    match tok_u64(tok2(l)) {
        Some(v) => v,
        None => 0,
    }
}

/// Basic bounds of `line_brk`: it never moves backwards, stays within
/// the sequence, and everything before it on the line is not a line feed.
pub proof fn lemma_line_brk(s: Seq<u8>, from: int)
    requires
        0 <= from <= s.len(),
    ensures
        from <= line_brk(s, from) <= s.len(),
        forall|i: int| from <= i < line_brk(s, from) ==> #[trigger] s[i] != 10,
        line_brk(s, from) < s.len() ==> s[line_brk(s, from)] == 10,
    decreases s.len() - from,
{
    if from < s.len() && s[from] != 10 {
        lemma_line_brk(s, from + 1);
    }
}

/// A prefix of a numeral never exceeds the whole numeral in value.
pub proof fn lemma_dec_val_prefix(t: Seq<u8>, i: int)
    requires
        0 <= i <= t.len(),
    ensures
        dec_val(t.take(i)) <= dec_val(t),
    decreases t.len(),
{
    if i < t.len() {
        assert(t.drop_last().take(i) =~= t.take(i));
        lemma_dec_val_prefix(t.drop_last(), i);
    } else {
        assert(t.take(i) =~= t);
    }
}

/// Runtime test for `is_space`.
fn is_space_byte(b: u8) -> (r: bool)
    ensures
        r == is_space(b),
{
    b == 32 || b == 9 || b == 10 || b == 12 || b == 13
}

/// Position of the first non-whitespace byte of `s` at or after `from`.
pub(crate) fn skip_spaces(s: &[u8], from: usize) -> (r: usize)
    requires
        from <= s@.len(),
    ensures
        r == ws_end(s@, from as int),
        from <= r <= s@.len(),
{
    let n = s.len();
    let mut i = from;
    while i < n && is_space_byte(s[i])
        invariant
            from <= i <= n,
            n == s@.len(),
            ws_end(s@, from as int) == ws_end(s@, i as int),
        decreases n - i,
    {
        i = i + 1;
    }
    i
}

/// Position of the first whitespace byte of `s` at or after `from`.
pub(crate) fn find_token_end(s: &[u8], from: usize) -> (r: usize)
    requires
        from <= s@.len(),
    ensures
        r == tok_end(s@, from as int),
        from <= r <= s@.len(),
{
    let n = s.len();
    let mut i = from;
    while i < n && !is_space_byte(s[i])
        invariant
            from <= i <= n,
            n == s@.len(),
            tok_end(s@, from as int) == tok_end(s@, i as int),
        decreases n - i,
    {
        i = i + 1;
    }
    i
}

/// Position of the first line feed in `s` at or after `from`.
pub(crate) fn find_line_brk(s: &[u8], from: usize) -> (r: usize)
    requires
        from <= s@.len(),
    ensures
        r == line_brk(s@, from as int),
        from <= r <= s@.len(),
{
    let n = s.len();
    let mut i = from;
    while i < n && s[i] != 10
        invariant
            from <= i <= n,
            n == s@.len(),
            line_brk(s@, from as int) == line_brk(s@, i as int),
        decreases n - i,
    {
        i = i + 1;
    }
    i
}

/// Compares the byte range `s[lo..hi]` with `key`.
pub(crate) fn eq_range(s: &[u8], lo: usize, hi: usize, key: &[u8]) -> (r: bool)
    requires
        lo <= hi <= s@.len(),
    ensures
        r == (s@.subrange(lo as int, hi as int) == key@),
{
    let n = key.len();
    if hi - lo != n {
        return false;
    }
    let mut i: usize = 0;
    while i < n
        invariant
            i <= n,
            lo + n == hi <= s@.len(),
            n == key@.len(),
            forall|j: int| 0 <= j < i ==> s@[lo + j] == key@[j],
        decreases n - i,
    {
        if s[lo + i] != key[i] {
            proof {
                assert(s@.subrange(lo as int, hi as int)[i as int] == s@[lo + i]);
            }
            return false;
        }
        i = i + 1;
    }
    proof {
        assert(s@.subrange(lo as int, hi as int) =~= key@);
    }
    true
}

/// Reads the run of digit bytes `s[lo..hi]` as a decimal `u64`.
pub(crate) fn parse_digit_run(s: &[u8], lo: usize, hi: usize) -> (r: Result<u64, Error>)
    requires
        lo <= hi <= s@.len(),
    ensures
        match r {
            Ok(v) => tok_u64(s@.subrange(lo as int, hi as int)) == Some(v),
            Err(e) => tok_u64(s@.subrange(lo as int, hi as int)) is None && e == Error::BadNumber,
        },
{
    let ghost t = s@.subrange(lo as int, hi as int);
    if lo == hi {
        return Err(Error::BadNumber);
    }
    let mut v: u64 = 0;
    let mut i = lo;
    while i < hi
        invariant
            lo <= i <= hi <= s@.len(),
            t == s@.subrange(lo as int, hi as int),
            all_digits(t.take(i - lo)),
            v == dec_val(t.take(i - lo)),
        decreases hi - i,
    {
        let b = s[i];
        if !(48 <= b && b <= 57) {
            assert(t[i - lo] == b);
            return Err(Error::BadNumber);
        }
        let w = (v as u128) * 10 + ((b - 48) as u128);
        proof {
            assert(t.take(i - lo + 1).drop_last() =~= t.take(i - lo));
            assert(t.take(i - lo + 1).last() == b);
        }
        if w > u64::MAX as u128 {
            proof {
                lemma_dec_val_prefix(t, i - lo + 1);
            }
            return Err(Error::BadNumber);
        }
        v = w as u64;
        i = i + 1;
    }
    proof {
        assert(t.take(hi - lo) =~= t);
    }
    Ok(v)
}

/// The first whitespace-separated token of `s` at or after `from`,
/// read as a decimal `u64`; 0 when no token remains.
pub(crate) fn parse_number_after(s: &[u8], from: usize) -> (r: Result<u64, Error>)
    requires
        from <= s@.len(),
    ensures
        match r {
            Ok(v) => number_after(s@, from as int) == Some(v),
            Err(e) => number_after(s@, from as int) is None && e == Error::BadNumber,
        },
{
    let lo = skip_spaces(s, from);
    let hi = find_token_end(s, lo);
    if lo == hi {
        proof {
            assert(token_at(s@, from as int) =~= Seq::<u8>::empty());
        }
        return Ok(0);
    }
    parse_digit_run(s, lo, hi)
}

/// Digit as a character.
pub open spec fn digit_char(d: nat) -> char
    recommends
        d < 10,
{
    if d == 0 {
        '0'
    } else if d == 1 {
        '1'
    } else if d == 2 {
        '2'
    } else if d == 3 {
        '3'
    } else if d == 4 {
        '4'
    } else if d == 5 {
        '5'
    } else if d == 6 {
        '6'
    } else if d == 7 {
        '7'
    } else if d == 8 {
        '8'
    } else {
        '9'
    }
}

/// Decimal numeral of `n`, most significant digit first, no leading
/// zeros (a single zero for 0).
pub open spec fn dec_str(n: nat) -> Seq<char>
    decreases n,
{
    if n < 10 {
        seq![digit_char(n)]
    } else {
        dec_str(n / 10).push(digit_char(n % 10))
    }
}

/// The scale the formatter divides by: sizes are given in kB and move
/// up one unit each time they pass 1024 of the previous one.
pub open spec fn unit_divisor(size: u64) -> nat {
    if size <= 1024 {
        1
    } else if size <= 1024 * 1024 {
        1024
    } else if size <= 1024 * 1024 * 1024 {
        1024 * 1024
    } else {
        1024 * 1024 * 1024
    }
}

/// Unit suffix matching `unit_divisor`.
pub open spec fn unit_suffix(size: u64) -> Seq<char> {
    if size <= 1024 {
        seq![' ', 'k', 'B']
    } else if size <= 1024 * 1024 {
        seq![' ', 'M', 'B']
    } else if size <= 1024 * 1024 * 1024 {
        seq![' ', 'G', 'B']
    } else {
        seq![' ', 'T', 'B']
    }
}

/// `n / d` rounded to the nearest integer, ties to even.
pub open spec fn round_half_even(n: nat, d: nat) -> nat
    recommends
        d > 0,
{
    let q = n / d;
    let r = n % d;
    if 2 * r < d {
        q
    } else if 2 * r > d {
        q + 1
    } else if q % 2 == 0 {
        q
    } else {
        q + 1
    }
}

/// The scaled size in hundredths of the chosen unit.
pub open spec fn scaled_centi(size: u64) -> nat {
    round_half_even((size * 100) as nat, unit_divisor(size))
}

/// The number part of the formatted size: the scaled value with
/// exactly two digits after the decimal point.
pub open spec fn centi_str(c: nat) -> Seq<char> {
    dec_str(c / 100) + seq!['.', digit_char((c / 10) % 10), digit_char(c % 10)]
}

/// The human-readable rendering of a kB count, as `format_size`
/// produces it.
pub open spec fn format_size_spec(size: u64) -> Seq<char> {
    centi_str(scaled_centi(size)) + unit_suffix(size)
}

/// Relies on `String::push`: appends one character at the end of the
/// string and changes nothing else.
#[verifier::external_body]
fn push_char(s: &mut String, c: char)
    ensures
        final(s)@ == old(s)@.push(c),
{
    s.push(c);
}

/// Appends one decimal digit.
fn push_digit(s: &mut String, d: u64)
    requires
        d < 10,
    ensures
        final(s)@ == old(s)@.push(digit_char(d as nat)),
{
    let c = match d {
        0 => '0',
        1 => '1',
        2 => '2',
        3 => '3',
        4 => '4',
        5 => '5',
        6 => '6',
        7 => '7',
        8 => '8',
        _ => '9',
    };
    push_char(s, c);
}

/// Appends the decimal numeral of `n`.
fn push_dec(s: &mut String, n: u64)
    ensures
        final(s)@ == old(s)@ + dec_str(n as nat),
    decreases n,
{
    if n >= 10 {
        push_dec(s, n / 10);
    }
    push_digit(s, n % 10);
    proof {
        if n >= 10 {
            assert(final(s)@ =~= old(s)@ + dec_str(n as nat));
        } else {
            assert(final(s)@ =~= old(s)@ + dec_str(n as nat));
        }
    }
}

/// Appends the scaled size with two decimals, rounding to nearest
/// (ties to even).
fn push_scaled(s: &mut String, size: u64, d: u64)
    requires
        d as nat == unit_divisor(size),
    ensures
        final(s)@ == old(s)@ + centi_str(scaled_centi(size)),
{
    let n = (size as u128) * 100;
    let dd = d as u128;
    let q = n / dd;
    let r = n % dd;
    let c128: u128 = if 2 * r < dd {
        q
    } else if 2 * r > dd {
        q + 1
    } else if q % 2 == 0 {
        q
    } else {
        q + 1
    };
    proof {
        assert(c128 == scaled_centi(size));
        if d == 1 {
            vstd::arithmetic::div_mod::lemma_div_is_ordered(n as int, 102400int, 1int);
        } else if d == 1024 {
            vstd::arithmetic::div_mod::lemma_div_is_ordered(
                n as int,
                0xffffffffffffffff as int * 100,
                1024int,
            );
        } else if d == 1024 * 1024 {
            vstd::arithmetic::div_mod::lemma_div_is_ordered(
                n as int,
                0xffffffffffffffff as int * 100,
                1024int * 1024,
            );
        } else {
            vstd::arithmetic::div_mod::lemma_div_is_ordered(
                n as int,
                0xffffffffffffffff as int * 100,
                1024int * 1024 * 1024,
            );
        }
        assert(q + 1 <= u64::MAX);
    }
    let c = c128 as u64;
    push_dec(s, c / 100);
    push_char(s, '.');
    push_digit(s, (c / 10) % 10);
    push_digit(s, c % 10);
    proof {
        assert(final(s)@ =~= old(s)@ + centi_str(scaled_centi(size)));
    }
}

/// Renders a kB count as a human-scaled string: the value moves up
/// from kB through MB and GB to TB each time it passes 1024 of the
/// previous unit, and is printed with exactly two digits after the
/// decimal point, rounded to nearest with ties to even.
pub fn format_size(size: u64) -> (r: String)
    ensures
        r@ == format_size_spec(size),
{
    let mut out = String::new();
    if size <= 1024 {
        push_scaled(&mut out, size, 1);
        proof {
            reveal_strlit(" kB");
            assert(" kB"@ =~= seq![' ', 'k', 'B']);
        }
        out.append(" kB");
    } else if size <= 1024 * 1024 {
        push_scaled(&mut out, size, 1024);
        proof {
            reveal_strlit(" MB");
            assert(" MB"@ =~= seq![' ', 'M', 'B']);
        }
        out.append(" MB");
    } else if size <= 1024 * 1024 * 1024 {
        push_scaled(&mut out, size, 1024 * 1024);
        proof {
            reveal_strlit(" GB");
            assert(" GB"@ =~= seq![' ', 'G', 'B']);
        }
        out.append(" GB");
    } else {
        push_scaled(&mut out, size, 1024 * 1024 * 1024);
        proof {
            reveal_strlit(" TB");
            assert(" TB"@ =~= seq![' ', 'T', 'B']);
        }
        out.append(" TB");
    }
    proof {
        assert(out@ =~= format_size_spec(size));
    }
    out
}

/// A character the display replaces with a space: the control
/// characters (the Unicode `Cc` category, as `char::is_control`
/// classifies them), which includes the NUL separators of a raw
/// command line.
pub open spec fn is_ctl(c: char) -> bool {
    c as u32 <= 0x1f || (0x7f <= c as u32 && c as u32 <= 0x9f)
}

/// A control character becomes a space; everything else stays.
pub open spec fn replace_ctl(c: char) -> char {
    if is_ctl(c) {
        ' '
    } else {
        c
    }
}

/// `s` with every control character replaced by a space.
pub open spec fn replaced(s: Seq<char>) -> Seq<char> {
    s.map_values(|c: char| replace_ctl(c))
}

/// Length of `s` once trailing characters that display as spaces
/// (spaces and control characters) are dropped.
pub open spec fn shown_len(s: Seq<char>) -> nat
    decreases s.len(),
{
    if s.len() == 0 {
        0
    } else if replace_ctl(s.last()) == ' ' {
        shown_len(s.drop_last())
    } else {
        s.len()
    }
}

/// What a raw command line is displayed as: control characters become
/// spaces, trailing blanks go, and at most 50 characters remain.
pub open spec fn clean_spec(s: Seq<char>) -> Seq<char> {
    replaced(s).take(
        if shown_len(s) < 50 {
            shown_len(s) as int
        } else {
            50
        },
    )
}

/// Runtime test for "displays as a space".
fn is_blank_char(c: char) -> (r: bool)
    ensures
        r == (replace_ctl(c) == ' '),
{
    let u = c as u32;
    u <= 0x1f || (0x7f <= u && u <= 0x9f) || c == ' '
}

/// Replaces a control character with a space.
fn replace_ctl_char(c: char) -> (r: char)
    ensures
        r == replace_ctl(c),
{
    let u = c as u32;
    if u <= 0x1f || (0x7f <= u && u <= 0x9f) {
        ' '
    } else {
        c
    }
}

/// Turns a raw command line into its display string: every control
/// character (including the NUL argument separators) becomes a space,
/// trailing blanks are trimmed, and the result is truncated to at
/// most 50 characters -- to exactly 50 when more would remain.
pub fn clean_command(raw: &str) -> (r: String)
    ensures
        r@ == clean_spec(raw@),
        r@.len() <= 50,
        shown_len(raw@) >= 50 ==> r@.len() == 50,
{
    let n = raw.unicode_len();
    let mut k = n;
    proof {
        assert(raw@.take(n as int) =~= raw@);
    }
    while k > 0 && is_blank_char(raw.get_char(k - 1))
        invariant
            k <= n,
            n == raw@.len(),
            shown_len(raw@) == shown_len(raw@.take(k as int)),
        decreases k,
    {
        proof {
            assert(raw@.take(k as int).drop_last() =~= raw@.take(k - 1));
        }
        k = k - 1;
    }
    proof {
        if k > 0 {
            assert(shown_len(raw@.take(k as int)) == k);
        }
        assert(shown_len(raw@) == k);
    }
    let m = if k > 50 {
        50
    } else {
        k
    };
    let mut out = String::new();
    let mut i: usize = 0;
    while i < m
        invariant
            i <= m <= n,
            n == raw@.len(),
            out@ == replaced(raw@).take(i as int),
        decreases m - i,
    {
        let c = raw.get_char(i);
        push_char(&mut out, replace_ctl_char(c));
        proof {
            assert(replaced(raw@)[i as int] == replace_ctl(raw@[i as int]));
            assert(out@ =~= replaced(raw@).take(i + 1));
        }
        i = i + 1;
    }
    out
}

/// Reads the leading numeric field of a report line: the first
/// whitespace-separated token as a decimal kB count, or 0 when the
/// line holds nothing after its label.  Malformed numeric text is an
/// error; a unit suffix after the number is ignored.
pub fn parse_value(line: &str) -> (r: Result<u64, Error>)
    ensures
        match r {
            Ok(v) => number_after(line.spec_bytes(), 0) == Some(v),
            Err(e) => number_after(line.spec_bytes(), 0) is None && e == Error::BadNumber,
        },
{
    parse_number_after(line.as_bytes(), 0)
}

} // verus!

