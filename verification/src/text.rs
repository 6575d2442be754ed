//! Decimal text handling: the mathematical model of unsigned decimal tokens,
//! verified parsing of such tokens, and verified rendering of numbers with
//! zero padding.

use vstd::prelude::*;
use vstd::string::StrSliceExecFns;
use vstd::string::StringExecFns;

verus! {

/// Relies on String::push: it appends the given character to the end of
/// the string.
pub assume_specification[ String::push ](s: &mut String, ch: char)
    ensures
        final(s)@ == old(s)@.push(ch),
;

/// A decimal digit character.
pub open spec fn is_digit(c: char) -> bool {
    48 <= c as int <= 57
}

/// The numeric value of a digit character (0 for anything else).
pub open spec fn digit_val(c: char) -> nat {
    if is_digit(c) {
        (c as int - 48) as nat
    } else {
        0
    }
}

/// The digit character for a value below ten.
pub open spec fn digit_char(n: nat) -> char {
    if n == 0 {
        '0'
    } else if n == 1 {
        '1'
    } else if n == 2 {
        '2'
    } else if n == 3 {
        '3'
    } else if n == 4 {
        '4'
    } else if n == 5 {
        '5'
    } else if n == 6 {
        '6'
    } else if n == 7 {
        '7'
    } else if n == 8 {
        '8'
    } else {
        '9'
    }
}

/// Every character of `s` is a decimal digit.
pub open spec fn all_digits(s: Seq<char>) -> bool {
    forall|i: int| 0 <= i < s.len() ==> is_digit(s[i])
}

/// The value of a digit string read most-significant first.
pub open spec fn digits_val(s: Seq<char>) -> nat
    decreases s.len(),
{
    if s.len() == 0 {
        0
    } else {
        digits_val(s.drop_last()) * 10 + digit_val(s.last())
    }
}

/// The digit portion of an unsigned token: everything after an optional
/// leading plus sign.
pub open spec fn digits_part(s: Seq<char>) -> Seq<char> {
    if s.len() > 0 && s[0] == '+' {
        s.skip(1)
    } else {
        s
    }
}

/// `s` parses as an unsigned decimal integer no greater than `max`:
/// an optional leading plus sign, then at least one digit, with the
/// resulting value in range.
pub open spec fn is_uint_token(s: Seq<char>, max: nat) -> bool {
    &&& digits_part(s).len() > 0
    &&& all_digits(digits_part(s))
    &&& digits_val(digits_part(s)) <= max
}

/// The value of an unsigned decimal token.
pub open spec fn uint_token_val(s: Seq<char>) -> nat {
    digits_val(digits_part(s))
}

/// The minimal decimal representation of `n`, most-significant digit first.
pub open spec fn dec_digits(n: nat) -> Seq<char>
    decreases n,
{
    if n < 10 {
        seq![digit_char(n)]
    } else {
        dec_digits(n / 10).push(digit_char(n % 10))
    }
}

/// A run of `k` zero characters.
pub open spec fn zeros(k: nat) -> Seq<char> {
    Seq::new(k, |i: int| '0')
}

/// The decimal representation of `n`, left-padded with zeros to at least
/// `width` characters.
pub open spec fn dec_digits_pad(n: nat, width: nat) -> Seq<char> {
    let d = dec_digits(n);
    if d.len() >= width {
        d
    } else {
        zeros((width - d.len()) as nat) + d
    }
}

/// The value of any prefix of a digit string never exceeds the value of the
/// whole string.
proof fn lemma_digits_val_take_le(s: Seq<char>, k: int)
    requires
        0 <= k <= s.len(),
    ensures
        digits_val(s.take(k)) <= digits_val(s),
    decreases s.len() - k,
{
    if k < s.len() {
        assert(s.take(k + 1).drop_last() =~= s.take(k));
        assert(digits_val(s.take(k + 1)) == digits_val(s.take(k)) * 10 + digit_val(
            s.take(k + 1).last(),
        ));
        lemma_digits_val_take_le(s, k + 1);
    } else {
        assert(s.take(k) =~= s);
    }
}

/// The minimal decimal representation consists of digits only.
proof fn lemma_dec_digits_all_digits(n: nat)
    ensures
        all_digits(dec_digits(n)),
        dec_digits(n).len() >= 1,
    decreases n,
{
    if n >= 10 {
        lemma_dec_digits_all_digits(n / 10);
    }
}

/// Reading back the minimal decimal representation yields the number.
proof fn lemma_dec_digits_val(n: nat)
    ensures
        digits_val(dec_digits(n)) == n,
    decreases n,
{
    if n < 10 {
        assert(dec_digits(n).drop_last() =~= Seq::<char>::empty());
        assert(digits_val(Seq::<char>::empty()) == 0);
        assert(dec_digits(n).last() == digit_char(n));
    } else {
        lemma_dec_digits_val(n / 10);
        assert(dec_digits(n).drop_last() =~= dec_digits(n / 10));
        assert(dec_digits(n).last() == digit_char(n % 10));
        assert(digits_val(dec_digits(n)) == digits_val(dec_digits(n).drop_last()) * 10 + digit_val(
            dec_digits(n).last(),
        ));
        vstd::arithmetic::div_mod::lemma_fundamental_div_mod(n as int, 10);
    }
}

/// Leading zeros do not change the value of a digit string.
proof fn lemma_zeros_prepend_val(k: nat, d: Seq<char>)
    ensures
        digits_val(zeros(k) + d) == digits_val(d),
    decreases d.len(),
{
    if d.len() == 0 {
        assert(zeros(k) + d =~= zeros(k));
        lemma_zeros_val(k);
    } else {
        assert((zeros(k) + d).drop_last() =~= zeros(k) + d.drop_last());
        assert((zeros(k) + d).last() == d.last());
        lemma_zeros_prepend_val(k, d.drop_last());
    }
}

/// A run of zeros has value zero.
proof fn lemma_zeros_val(k: nat)
    ensures
        digits_val(zeros(k)) == 0,
    decreases k,
{
    if k > 0 {
        assert(zeros(k).drop_last() =~= zeros((k - 1) as nat));
        lemma_zeros_val((k - 1) as nat);
    }
}

/// The zero-padded representation is a plain digit token whose value is the
/// number itself, as long as the number is within `max`.
pub proof fn lemma_dec_digits_pad_token(n: nat, width: nat, max: nat)
    requires
        n <= max,
    ensures
        is_uint_token(dec_digits_pad(n, width), max),
        uint_token_val(dec_digits_pad(n, width)) == n,
        dec_digits_pad(n, width).len() >= width,
        dec_digits_pad(n, width).len() >= 1,
        all_digits(dec_digits_pad(n, width)),
{
    lemma_dec_digits_all_digits(n);
    lemma_dec_digits_val(n);
    let d = dec_digits(n);
    if d.len() >= width {
        assert(digits_part(d) =~= d);
    } else {
        let p = zeros((width - d.len()) as nat) + d;
        assert(all_digits(p));
        assert(p[0] == '0');
        assert(digits_part(p) =~= p);
        lemma_zeros_prepend_val((width - d.len()) as nat, d);
    }
}

/// The index of the first dash in `s`, or `s.len()` if there is none.
pub open spec fn first_dash(s: Seq<char>) -> int
    decreases s.len(),
{
    if s.len() == 0 {
        0
    } else if s[0] == '-' {
        0
    } else {
        1 + first_dash(s.skip(1))
    }
}

/// `first_dash` is within bounds, everything before it is dash-free, and it
/// points at a dash unless there is none.
pub proof fn lemma_first_dash_bounds(s: Seq<char>)
    ensures
        0 <= first_dash(s) <= s.len(),
        forall|k: int| 0 <= k < first_dash(s) ==> s[k] != '-',
        first_dash(s) < s.len() ==> s[first_dash(s)] == '-',
    decreases s.len(),
{
    if s.len() > 0 && s[0] != '-' {
        lemma_first_dash_bounds(s.skip(1));
        assert forall|k: int| 0 <= k < first_dash(s) implies s[k] != '-' by {
            if k > 0 {
                assert(s.skip(1)[k - 1] == s[k]);
            }
        }
        if first_dash(s) < s.len() {
            assert(s.skip(1)[first_dash(s) - 1] == s[first_dash(s)]);
        }
    }
}

/// Any index with the properties of `first_dash` is `first_dash`.
pub proof fn lemma_first_dash_is(s: Seq<char>, i: int)
    requires
        0 <= i <= s.len(),
        forall|k: int| 0 <= k < i ==> s[k] != '-',
        i < s.len() ==> s[i] == '-',
    ensures
        first_dash(s) == i,
    decreases s.len(),
{
    if i == 0 {
        if s.len() > 0 && s[0] != '-' {
            lemma_first_dash_bounds(s.skip(1));
        }
    } else {
        assert forall|k: int| 0 <= k < i - 1 implies s.skip(1)[k] != '-' by {
            assert(s.skip(1)[k] == s[k + 1]);
        }
        assert(i - 1 < s.skip(1).len() ==> s.skip(1)[i - 1] == '-');
        lemma_first_dash_is(s.skip(1), i - 1);
    }
}

/// The index of the first dash at or after `from`, or the length if none.
pub fn find_dash(s: &str, from: usize) -> (r: usize)
    requires
        from <= s@.len(),
    ensures
        from <= r <= s@.len(),
        forall|k: int| from <= k < r ==> s@[k] != '-',
        r < s@.len() ==> s@[r as int] == '-',
{
    let n = s.unicode_len();
    let mut i = from;
    while i < n
        invariant
            from <= i <= n,
            n == s@.len(),
            forall|k: int| from <= k < i ==> s@[k] != '-',
        decreases n - i,
    {
        if s.get_char(i) == '-' {
            return i;
        }
        i += 1;
    }
    i
}

/// Parses `s` as a `u32` the way the standard unsigned parser reads it:
/// an optional leading plus sign followed by one or more decimal digits,
/// rejecting anything else and any value that overflows.
pub fn parse_u32(s: &str) -> (r: Option<u32>)
    ensures
        match r {
            Some(v) => is_uint_token(s@, u32::MAX as nat) && v == uint_token_val(s@),
            None => !is_uint_token(s@, u32::MAX as nat),
        },
{
    let n = s.unicode_len();
    let start: usize = if n > 0 && s.get_char(0) == '+' {
        1
    } else {
        0
    };
    proof {
        assert(digits_part(s@) =~= s@.skip(start as int));
    }
    if n == start {
        return None;
    }
    let ghost d_part = s@.skip(start as int);
    let mut acc: u32 = 0;
    let mut i: usize = start;
    while i < n
        invariant
            start <= i <= n,
            n == s@.len(),
            d_part == s@.skip(start as int),
            d_part == digits_part(s@),
            d_part.len() == n - start,
            all_digits(d_part.take(i - start)),
            acc == digits_val(d_part.take(i - start)),
        decreases n - i,
    {
        let c = s.get_char(i);
        let v = c as u32;
        proof {
            assert(d_part.take(i + 1 - start).drop_last() =~= d_part.take(i - start));
            assert(d_part.take(i + 1 - start).last() == s@[i as int]);
        }
        if v < 48 || v > 57 {
            proof {
                assert(!is_digit(d_part[i - start]));
            }
            return None;
        }
        let d = v - 48;
        if acc > (u32::MAX - d) / 10 {
            proof {
                assert(digits_val(d_part.take(i + 1 - start)) == acc * 10 + d);
                assert(acc * 10 + d > u32::MAX as nat) by (nonlinear_arith)
                    requires
                        acc > (u32::MAX - d) / 10,
                        d <= 9,
                        acc <= u32::MAX,
                ;
                lemma_digits_val_take_le(d_part, i + 1 - start);
            }
            return None;
        }
        proof {
            assert(acc * 10 + d <= u32::MAX as nat) by (nonlinear_arith)
                requires
                    acc <= (u32::MAX - d) / 10,
                    d <= 9,
            ;
        }
        acc = acc * 10 + d;
        i += 1;
    }
    proof {
        assert(d_part.take(n - start) =~= d_part);
    }
    Some(acc)
}

/// Parses `s` as a `usize`, with the same grammar as [`parse_u32`].
pub fn parse_usize(s: &str) -> (r: Option<usize>)
    ensures
        match r {
            Some(v) => is_uint_token(s@, usize::MAX as nat) && v == uint_token_val(s@),
            None => !is_uint_token(s@, usize::MAX as nat),
        },
{
    let n = s.unicode_len();
    let start: usize = if n > 0 && s.get_char(0) == '+' {
        1
    } else {
        0
    };
    proof {
        assert(digits_part(s@) =~= s@.skip(start as int));
    }
    if n == start {
        return None;
    }
    let ghost d_part = s@.skip(start as int);
    let mut acc: usize = 0;
    let mut i: usize = start;
    while i < n
        invariant
            start <= i <= n,
            n == s@.len(),
            d_part == s@.skip(start as int),
            d_part == digits_part(s@),
            d_part.len() == n - start,
            all_digits(d_part.take(i - start)),
            acc == digits_val(d_part.take(i - start)),
        decreases n - i,
    {
        let c = s.get_char(i);
        let v = c as u32;
        proof {
            assert(d_part.take(i + 1 - start).drop_last() =~= d_part.take(i - start));
            assert(d_part.take(i + 1 - start).last() == s@[i as int]);
        }
        if v < 48 || v > 57 {
            proof {
                assert(!is_digit(d_part[i - start]));
            }
            return None;
        }
        let d = (v - 48) as usize;
        if acc > (usize::MAX - d) / 10 {
            proof {
                assert(digits_val(d_part.take(i + 1 - start)) == acc * 10 + d);
                assert(acc * 10 + d > usize::MAX as nat) by (nonlinear_arith)
                    requires
                        acc > (usize::MAX - d) / 10,
                        d <= 9,
                        acc <= usize::MAX,
                ;
                lemma_digits_val_take_le(d_part, i + 1 - start);
            }
            return None;
        }
        proof {
            assert(acc * 10 + d <= usize::MAX as nat) by (nonlinear_arith)
                requires
                    acc <= (usize::MAX - d) / 10,
                    d <= 9,
            ;
        }
        acc = acc * 10 + d;
        i += 1;
    }
    proof {
        assert(d_part.take(n - start) =~= d_part);
    }
    Some(acc)
}

/// Appends the digit character for `d` (below ten) to `s`.
fn push_digit(s: &mut String, d: u32)
    requires
        d < 10,
    ensures
        final(s)@ == old(s)@ + seq![digit_char(d as nat)],
{
    proof {
        reveal_strlit("0");
        reveal_strlit("1");
        reveal_strlit("2");
        reveal_strlit("3");
        reveal_strlit("4");
        reveal_strlit("5");
        reveal_strlit("6");
        reveal_strlit("7");
        reveal_strlit("8");
        reveal_strlit("9");
    }
    match d {
        0 => s.append("0"),
        1 => s.append("1"),
        2 => s.append("2"),
        3 => s.append("3"),
        4 => s.append("4"),
        5 => s.append("5"),
        6 => s.append("6"),
        7 => s.append("7"),
        8 => s.append("8"),
        _ => s.append("9"),
    }
    proof {
        assert(s@ =~= old(s)@ + seq![digit_char(d as nat)]);
    }
}

/// Appends the minimal decimal representation of `n` to `s`.
fn push_u32_digits(s: &mut String, n: u32)
    ensures
        final(s)@ == old(s)@ + dec_digits(n as nat),
    decreases n,
{
    if n < 10 {
        push_digit(s, n);
    } else {
        push_u32_digits(s, n / 10);
        push_digit(s, n % 10);
        proof {
            assert(s@ =~= old(s)@ + dec_digits(n as nat));
        }
    }
}

/// Appends the minimal decimal representation of `n` to `s`.
fn push_usize_digits(s: &mut String, n: usize)
    ensures
        final(s)@ == old(s)@ + dec_digits(n as nat),
    decreases n,
{
    if n < 10 {
        push_digit(s, (n % 10) as u32);
    } else {
        push_usize_digits(s, n / 10);
        push_digit(s, (n % 10) as u32);
        proof {
            assert(s@ =~= old(s)@ + dec_digits(n as nat));
        }
    }
}

/// Renders `n` in decimal.
pub fn usize_to_string(n: usize) -> (s: String)
    ensures
        s@ == dec_digits(n as nat),
{
    let mut s = String::new();
    push_usize_digits(&mut s, n);
    proof {
        assert(s@ =~= dec_digits(n as nat));
    }
    s
}

/// Appends the minimal decimal representation of `n` to `s`.
fn push_u128_digits(s: &mut String, n: u128)
    ensures
        final(s)@ == old(s)@ + dec_digits(n as nat),
    decreases n,
{
    if n < 10 {
        push_digit(s, (n % 10) as u32);
    } else {
        push_u128_digits(s, n / 10);
        push_digit(s, (n % 10) as u32);
        proof {
            assert(s@ =~= old(s)@ + dec_digits(n as nat));
        }
    }
}

/// Renders `n` in decimal, left-padded with zeros to at least `width`
/// characters.
pub fn u128_to_padded_string(n: u128, width: usize) -> (s: String)
    ensures
        s@ == dec_digits_pad(n as nat, width as nat),
{
    let mut digits = String::new();
    push_u128_digits(&mut digits, n);
    proof {
        assert(digits@ =~= dec_digits(n as nat));
    }
    let len = digits.as_str().unicode_len();
    let mut s = String::new();
    let mut pad: usize = 0;
    while pad + len < width
        invariant
            len == dec_digits(n as nat).len(),
            digits@ == dec_digits(n as nat),
            pad + len <= width || pad == 0,
            s@ == zeros(pad as nat),
        decreases width - pad,
    {
        proof {
            reveal_strlit("0");
        }
        s.append("0");
        proof {
            assert(s@ =~= zeros((pad + 1) as nat));
        }
        pad += 1;
    }
    s.append(digits.as_str());
    proof {
        if dec_digits(n as nat).len() >= width {
            assert(zeros(0) =~= Seq::<char>::empty());
            assert(s@ =~= dec_digits_pad(n as nat, width as nat));
        } else {
            assert(s@ =~= dec_digits_pad(n as nat, width as nat));
        }
    }
    s
}

/// The text of a duration given in microseconds: whole minutes, seconds
/// within the minute, and microseconds within the second, as
/// `[mm:ss.uuuuuu]`, each field zero-padded to its width.
pub open spec fn spec_format_duration(micros: nat) -> Seq<char> {
    seq!['['] + dec_digits_pad(micros / 60_000_000, 2) + seq![':'] + dec_digits_pad(
        (micros / 1_000_000) % 60,
        2,
    ) + seq!['.'] + dec_digits_pad(micros % 1_000_000, 6) + seq![']']
}

/// Renders a duration of `micros` microseconds as `[mm:ss.uuuuuu]`.
pub fn format_duration(micros: u128) -> (s: String)
    ensures
        s@ == spec_format_duration(micros as nat),
{
    let minutes = micros / 60_000_000;
    let seconds = (micros / 1_000_000) % 60;
    let sub_micros = micros % 1_000_000;
    let mut s = String::new();
    s.push('[');
    let m = u128_to_padded_string(minutes, 2);
    s.append(m.as_str());
    s.push(':');
    let sec = u128_to_padded_string(seconds, 2);
    s.append(sec.as_str());
    s.push('.');
    let sub = u128_to_padded_string(sub_micros, 6);
    s.append(sub.as_str());
    s.push(']');
    proof {
        assert(s@ =~= spec_format_duration(micros as nat));
    }
    s
}

/// Renders `n` in decimal, left-padded with zeros to at least `width`
/// characters.
pub fn u32_to_padded_string(n: u32, width: usize) -> (s: String)
    ensures
        s@ == dec_digits_pad(n as nat, width as nat),
{
    let mut digits = String::new();
    push_u32_digits(&mut digits, n);
    proof {
        assert(digits@ =~= dec_digits(n as nat));
    }
    let len = digits.as_str().unicode_len();
    let mut s = String::new();
    let mut pad: usize = 0;
    while pad + len < width
        invariant
            len == dec_digits(n as nat).len(),
            digits@ == dec_digits(n as nat),
            pad + len <= width || pad == 0,
            s@ == zeros(pad as nat),
        decreases width - pad,
    {
        proof {
            reveal_strlit("0");
        }
        s.append("0");
        proof {
            assert(s@ =~= zeros((pad + 1) as nat));
        }
        pad += 1;
    }
    s.append(digits.as_str());
    proof {
        if dec_digits(n as nat).len() >= width {
            assert(zeros(0) =~= Seq::<char>::empty());
            assert(s@ =~= dec_digits_pad(n as nat, width as nat));
        } else {
            assert(s@ =~= dec_digits_pad(n as nat, width as nat));
        }
    }
    s
}

} // verus!
