//! Reading integers out of text and writing them as decimal text.
use vstd::prelude::*;

verus! {

/// The value of `c` as a digit in `radix` (`char::to_digit`), for radix up to 36.
pub open spec fn digit_of(c: char, radix: nat) -> Option<nat> {
    let u = c as u32;
    if 48 <= u <= 57 && u - 48 < radix {
        Some((u - 48) as nat)
    } else if 97 <= u <= 122 && u - 87 < radix {
        Some((u - 87) as nat)
    } else if 65 <= u <= 90 && u - 55 < radix {
        Some((u - 55) as nat)
    } else {
        None
    }
}

/// Whether every character of `s` is a digit in `radix`.
pub open spec fn all_digits(s: Seq<char>, radix: nat) -> bool {
    forall|i: int| 0 <= i < s.len() ==> (#[trigger] digit_of(s[i], radix)) is Some
}

/// The number that the digits `s` denote in `radix`, most significant first.
pub open spec fn digits_value(s: Seq<char>, radix: nat) -> nat
    decreases s.len(),
{
    if s.len() == 0 {
        0
    } else {
        digits_value(s.drop_last(), radix) * radix + digit_of(s.last(), radix).unwrap()
    }
}

/// What an unsigned `from_str_radix` reads from `s`: an optional `+`, then at least
/// one digit; the number, however large.
pub open spec fn unsigned_value(s: Seq<char>, radix: nat) -> Option<nat> {
    let d = if s.len() > 0 && s[0] == '+' {
        s.drop_first()
    } else {
        s
    };
    if d.len() > 0 && all_digits(d, radix) {
        Some(digits_value(d, radix))
    } else {
        None
    }
}

/// What a signed `from_str_radix` reads from `s`: an optional `+` or `-`, then at
/// least one digit; the number, however large.
pub open spec fn signed_value(s: Seq<char>, radix: nat) -> Option<int> {
    if s.len() > 0 && (s[0] == '+' || s[0] == '-') {
        let d = s.drop_first();
        if d.len() > 0 && all_digits(d, radix) {
            if s[0] == '-' {
                Some(-(digits_value(d, radix) as int))
            } else {
                Some(digits_value(d, radix) as int)
            }
        } else {
            None
        }
    } else if s.len() > 0 && all_digits(s, radix) {
        Some(digits_value(s, radix) as int)
    } else {
        None
    }
}

/// `s.parse::<u64>()`, as an option.
pub open spec fn parse_u64(s: Seq<char>) -> Option<u64> {
    match unsigned_value(s, 10) {
        Some(v) => if v <= u64::MAX {
            Some(v as u64)
        } else {
            None
        },
        None => None,
    }
}

/// `s.parse::<u32>()`, as an option.
pub open spec fn parse_u32(s: Seq<char>) -> Option<u32> {
    match unsigned_value(s, 10) {
        Some(v) => if v <= u32::MAX {
            Some(v as u32)
        } else {
            None
        },
        None => None,
    }
}

/// `u32::from_str_radix(s, 16)`, as an option.
pub open spec fn parse_hex_u32(s: Seq<char>) -> Option<u32> {
    match unsigned_value(s, 16) {
        Some(v) => if v <= u32::MAX {
            Some(v as u32)
        } else {
            None
        },
        None => None,
    }
}

/// `s.parse::<i32>()`, as an option.
pub open spec fn parse_i32(s: Seq<char>) -> Option<i32> {
    match signed_value(s, 10) {
        Some(v) => if i32::MIN <= v <= i32::MAX {
            Some(v as i32)
        } else {
            None
        },
        None => None,
    }
}

proof fn lemma_digits_value_grows(s: Seq<char>, radix: nat, k: int)
    requires
        radix >= 1,
        0 <= k <= s.len(),
    ensures
        digits_value(s.take(k), radix) <= digits_value(s, radix),
    decreases s.len() - k,
{
    if k < s.len() {
        lemma_digits_value_grows(s, radix, k + 1);
        assert(s.take(k + 1).drop_last() =~= s.take(k));
        let a = digits_value(s.take(k), radix);
        assert(a <= a * radix) by (nonlinear_arith)
            requires
                radix >= 1,
        ;
    } else {
        assert(s.take(k) =~= s);
    }
}

proof fn lemma_step_overflows(acc: int, d: int, max: int, r: int)
    by (nonlinear_arith)
    requires
        r > 0,
        0 <= d <= max,
        acc > (max - d) / r,
    ensures
        acc * r + d > max,
{
}

proof fn lemma_step_fits(acc: int, d: int, max: int, r: int)
    by (nonlinear_arith)
    requires
        r > 0,
        acc >= 0,
        0 <= d <= max,
        acc <= (max - d) / r,
    ensures
        acc * r + d <= max,
{
}

/// The value of the digit `c` in `radix` (10 or 16), if it is one.
fn digit_char_value(c: char, radix: u64) -> (r: Option<u64>)
    requires
        radix == 10 || radix == 16,
    ensures
        match r {
            Some(d) => digit_of(c, radix as nat) == Some(d as nat) && d < radix,
            None => digit_of(c, radix as nat) is None,
        },
{
    let u = c as u32;
    if 48 <= u && u <= 57 && ((u - 48) as u64) < radix {
        Some((u - 48) as u64)
    } else if 97 <= u && u <= 122 && ((u - 87) as u64) < radix {
        Some((u - 87) as u64)
    } else if 65 <= u && u <= 90 && ((u - 55) as u64) < radix {
        Some((u - 55) as u64)
    } else {
        None
    }
}

/// The number that `v[start..]` denotes in `radix`, if it is made of digits only and
/// the number is at most `max`.
fn digits_at_most(v: &Vec<char>, start: usize, radix: u64, max: u64) -> (r: Option<u64>)
    requires
        radix == 10 || radix == 16,
        start <= v.len(),
    ensures
        match r {
            Some(x) => all_digits(v@.skip(start as int), radix as nat) && digits_value(
                v@.skip(start as int),
                radix as nat,
            ) == x && x <= max,
            None => !all_digits(v@.skip(start as int), radix as nat) || digits_value(
                v@.skip(start as int),
                radix as nat,
            ) > max,
        },
{
    let ghost s = v@.skip(start as int);
    let ghost rd = radix as nat;
    let mut acc: u64 = 0;
    let mut i: usize = start;
    assert(s.take(0) =~= Seq::<char>::empty());
    while i < v.len()
        invariant
            start <= i <= v.len(),
            s == v@.skip(start as int),
            rd == radix as nat,
            radix == 10 || radix == 16,
            all_digits(s.take(i - start), rd),
            digits_value(s.take(i - start), rd) == acc,
            acc <= max,
        decreases v.len() - i,
    {
        let k: Ghost<int> = Ghost(i - start);
        assert(s.take(k@ + 1).drop_last() =~= s.take(k@));
        assert(s.take(k@ + 1).last() == v@[i as int]);
        match digit_char_value(v[i], radix) {
            None => {
                assert(digit_of(s[k@], rd) is None);
                return None;
            },
            Some(d) => {
                if d > max || acc > (max - d) / radix {
                    proof {
                        if d <= max {
                            lemma_step_overflows(acc as int, d as int, max as int, radix as int);
                        }
                        if all_digits(s, rd) {
                            lemma_digits_value_grows(s, rd, k@ + 1);
                        }
                    }
                    return None;
                }
                proof {
                    lemma_step_fits(acc as int, d as int, max as int, radix as int);
                    assert forall|j: int| 0 <= j < k@ + 1 implies (#[trigger] digit_of(
                        s.take(k@ + 1)[j],
                        rd,
                    )) is Some by {
                        if j < k@ {
                            assert(s.take(k@ + 1)[j] == s.take(k@)[j]);
                        }
                    }
                }
                acc = acc * radix + d;
                i = i + 1;
            },
        }
    }
    assert(s.take(i - start) =~= s);
    Some(acc)
}

} // verus!

verus! {

/// `s.parse::<u64>()`, as an option.
pub fn parse_u64_str(s: &str) -> (r: Option<u64>)
    ensures
        r == parse_u64(s@),
{
    let v = crate::text::chars_of(s);
    let start: usize = if v.len() > 0 && v[0] == '+' {
        1
    } else {
        0
    };
    assert(v@.skip(1) =~= v@.drop_first());
    assert(v@.skip(0) =~= v@);
    if start == v.len() {
        return None;
    }
    digits_at_most(&v, start, 10, u64::MAX)
}

/// `s.parse::<u32>()`, as an option.
pub fn parse_u32_str(s: &str) -> (r: Option<u32>)
    ensures
        r == parse_u32(s@),
{
    let v = crate::text::chars_of(s);
    let start: usize = if v.len() > 0 && v[0] == '+' {
        1
    } else {
        0
    };
    assert(v@.skip(1) =~= v@.drop_first());
    assert(v@.skip(0) =~= v@);
    if start == v.len() {
        return None;
    }
    match digits_at_most(&v, start, 10, 0xFFFF_FFFF) {
        Some(x) => Some(x as u32),
        None => None,
    }
}

/// `u32::from_str_radix(s, 16)`, as an option.
pub fn parse_hex_u32_str(s: &str) -> (r: Option<u32>)
    ensures
        r == parse_hex_u32(s@),
{
    let v = crate::text::chars_of(s);
    let start: usize = if v.len() > 0 && v[0] == '+' {
        1
    } else {
        0
    };
    assert(v@.skip(1) =~= v@.drop_first());
    assert(v@.skip(0) =~= v@);
    if start == v.len() {
        return None;
    }
    match digits_at_most(&v, start, 16, 0xFFFF_FFFF) {
        Some(x) => Some(x as u32),
        None => None,
    }
}

/// `s.parse::<i32>()`, as an option.
pub fn parse_i32_str(s: &str) -> (r: Option<i32>)
    ensures
        r == parse_i32(s@),
{
    let v = crate::text::chars_of(s);
    assert(v@.skip(1) =~= v@.drop_first());
    assert(v@.skip(0) =~= v@);
    if v.len() == 0 {
        return None;
    }
    if v[0] == '-' {
        if v.len() == 1 {
            return None;
        }
        match digits_at_most(&v, 1, 10, 0x8000_0000) {
            Some(x) => if x == 0x8000_0000 {
                Some(i32::MIN)
            } else {
                Some(-(x as i32))
            },
            None => None,
        }
    } else {
        let start: usize = if v[0] == '+' {
            1
        } else {
            0
        };
        if start == v.len() {
            return None;
        }
        match digits_at_most(&v, start, 10, 0x7FFF_FFFF) {
            Some(x) => Some(x as i32),
            None => None,
        }
    }
}

/// The decimal digit character for `d`.
pub open spec fn digit_char(d: nat) -> char {
    ((d + 48) as u32) as char
}

/// The decimal notation of `n`, without sign or leading zeros.
pub open spec fn decimal(n: nat) -> Seq<char>
    decreases n,
{
    if n < 10 {
        seq![digit_char(n)]
    } else {
        decimal(n / 10).push(digit_char(n % 10))
    }
}

/// The one-character text of the digit `d`.
fn digit_text(d: u64) -> (t: &'static str)
    requires
        d < 10,
    ensures
        t@ == seq![digit_char(d as nat)],
{
    proof {
        reveal_strlit("0");
        reveal_strlit("1");
        reveal_strlit("2");
        reveal_strlit("3");
        reveal_strlit("4");
        reveal_strlit("5");
        reveal_strlit("6");
        reveal_strlit("7");
        reveal_strlit("8");
        reveal_strlit("9");
    }
    match d {
        0 => "0",
        1 => "1",
        2 => "2",
        3 => "3",
        4 => "4",
        5 => "5",
        6 => "6",
        7 => "7",
        8 => "8",
        _ => "9",
    }
}

/// Appends the decimal notation of `n` to `out`.
pub fn push_decimal(out: &mut String, n: u64)
    ensures
        final(out)@ == old(out)@ + decimal(n as nat),
    decreases n,
{
    if n >= 10 {
        push_decimal(out, n / 10);
    }
    out.append(digit_text(n % 10));
    proof {
        if n < 10 {
            assert(old(out)@ + decimal(n as nat) =~= old(out)@ + seq![digit_char(n as nat)]);
        }
    }
}

/// The decimal notation of `n` (`n.to_string()`).
pub fn decimal_string(n: u64) -> (s: String)
    ensures
        s@ == decimal(n as nat),
{
    let mut s = String::new();
    push_decimal(&mut s, n);
    assert(Seq::<char>::empty() + decimal(n as nat) =~= decimal(n as nat));
    s
}

} // verus!

verus! {

pub proof fn lemma_decimal_digits(n: nat)
    ensures
        decimal(n).len() > 0,
        all_digits(decimal(n), 10),
        digits_value(decimal(n), 10) == n,
        decimal(n)[0] != '+',
    decreases n,
{
    if n < 10 {
        assert(digit_char(n) as u32 == n + 48);
        assert(digit_of(digit_char(n), 10) == Some(n));
        assert(decimal(n).drop_last() =~= Seq::<char>::empty());
        assert(digits_value(Seq::<char>::empty(), 10) == 0);
        assert(decimal(n).last() == digit_char(n));
    } else {
        lemma_decimal_digits(n / 10);
        let d = (n % 10) as nat;
        assert(digit_char(d) as u32 == d + 48);
        let s = decimal(n);
        assert(s.drop_last() =~= decimal(n / 10));
        assert(s[0] == decimal(n / 10)[0]);
        assert(s.last() == digit_char(d));
        assert(digit_of(digit_char(d), 10) == Some(d));
        assert(digits_value(s, 10) == digits_value(decimal(n / 10), 10) * 10 + d);
        assert((n / 10) * 10 + d == n);
        assert forall|i: int| 0 <= i < s.len() implies (#[trigger] digit_of(s[i], 10)) is Some by {
            if i < s.len() - 1 {
                assert(s[i] == decimal(n / 10)[i]);
            }
        }
    }
}

/// Reading back what `decimal_string` wrote gives the number again: the decimal
/// text of every `u64` parses, as a `u64`, to that number.
pub proof fn law_decimal_round_trip(n: u64)
    ensures
        parse_u64(decimal(n as nat)) == Some(n),
{
    lemma_decimal_digits(n as nat);
}

} // verus!
