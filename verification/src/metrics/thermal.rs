//! Temperature and throttling facts read from thermal zones and `vcgencmd`.
use vstd::prelude::*;

use crate::number::{decimal, parse_hex_u32, parse_hex_u32_str, parse_i32, parse_i32_str, push_decimal};
use crate::text::{find, find_str, starts_with, strip_prefix, strip_prefix_str, strip_suffix, strip_suffix_str, trim, trim_str};

verus! {

/// The millidegrees Celsius that a thermal zone's `temp` file holds.
pub open spec fn millicelsius(text: Seq<char>) -> Option<i32> {
    parse_i32(trim(text))
}

/// The millidegrees Celsius that a thermal zone's `temp` file holds.
pub fn parse_millicelsius(text: &str) -> (r: Option<i32>)
    ensures
        r == millicelsius(text@),
{
    let t = trim_str(text);
    parse_i32_str(t.as_str())
}

/// The temperature text in the output of `vcgencmd measure_temp` when it reads
/// exactly `temp=<value>'C` and a line end.
pub open spec fn gpu_temperature_field(output: Seq<char>) -> Option<Seq<char>> {
    match strip_prefix(output, "temp="@) {
        Some(rest) => strip_suffix(rest, "'C\n"@),
        None => None,
    }
}

/// The temperature text in the output of `vcgencmd measure_temp`, for a reading
/// that must fill the whole output.
pub fn gpu_temperature_text(output: &str) -> (r: Option<String>)
    ensures
        match r {
            Some(t) => gpu_temperature_field(output@) == Some(t@),
            None => gpu_temperature_field(output@) is None,
        },
{
    match strip_prefix_str(output, "temp=") {
        Some(rest) => strip_suffix_str(rest.as_str(), "'C\n"),
        None => None,
    }
}

/// The temperature text after the first `temp=` of the output of
/// `vcgencmd measure_temp`, up to the next `'`.
pub open spec fn measured_temperature_field(output: Seq<char>) -> Option<Seq<char>> {
    match find(output, "temp="@) {
        Some(k) => {
            let rest = output.skip(k + 5);
            match find(rest, "'"@) {
                Some(e) => Some(rest.take(e)),
                None => None,
            }
        },
        None => None,
    }
}

/// The temperature text after `temp=` in the output of `vcgencmd measure_temp`.
pub fn measured_temperature_text(output: &str) -> (r: Option<String>)
    ensures
        match r {
            Some(t) => measured_temperature_field(output@) == Some(t@),
            None => measured_temperature_field(output@) is None,
        },
{
    match find_str(output, "temp=") {
        Some(k) => {
            proof {
                reveal_strlit("temp=");
                crate::text::lemma_find_bounds(output@, "temp="@);
            }
            let n = output.unicode_len();
            let rest = output.substring_char(k + 5, n);
            assert(rest@ =~= output@.skip(k + 5));
            match find_str(rest, "'") {
                Some(e) => {
                    proof {
                        crate::text::lemma_find_bounds(rest@, "'"@);
                    }
                    let t = String::from_str(rest.substring_char(0, e));
                    assert(t@ =~= rest@.take(e as int));
                    Some(t)
                },
                None => None,
            }
        },
        None => None,
    }
}

/// Whether the output of `vcgencmd get_throttled`, `throttled=0x<hex>`, reports any of
/// the arm frequency capped, currently throttled or soft temperature limit flags
/// (bits 1 to 3); `None` where the output has another form.
pub open spec fn throttling(output: Seq<char>) -> Option<bool> {
    match strip_prefix(output, "throttled=0x"@) {
        Some(hex) => match parse_hex_u32(trim(hex)) {
            Some(v) => Some(v & 0xE != 0),
            None => None,
        },
        None => None,
    }
}

/// Whether the output of `vcgencmd get_throttled` reports throttling.
pub fn parse_throttling(output: &str) -> (r: Option<bool>)
    ensures
        r == throttling(output@),
{
    match strip_prefix_str(output, "throttled=0x") {
        Some(hex) => {
            let t = trim_str(hex.as_str());
            match parse_hex_u32_str(t.as_str()) {
                Some(v) => Some(v & 0xE != 0),
                None => None,
            }
        },
        None => None,
    }
}

/// The name under which thermal zone `i` is listed.
pub fn thermal_zone_name(i: u32) -> (s: String)
    ensures
        s@ == "zone"@ + decimal(i as nat),
{
    let mut s = String::from_str("zone");
    push_decimal(&mut s, i as u64);
    s
}

/// Whether a reading of `m` millidegrees is a plausible CPU temperature: strictly
/// between 0 and 100 degrees. For every `i32` this is the same decision as
/// `0.0 < m as f32 / 1000.0 < 100.0`.
pub open spec fn plausible(m: i32) -> bool {
    0 < m < 100_000
}

/// Whether a reading of `m` millidegrees is a plausible CPU temperature.
pub fn is_plausible_millicelsius(m: i32) -> (b: bool)
    ensures
        b == plausible(m),
{
    0 < m && m < 100_000
}

/// The first of `readings` (the texts of temperature files, `None` where a file
/// could not be read) that holds a plausible temperature, in millidegrees.
pub open spec fn first_plausible(readings: Seq<Option<Seq<char>>>) -> Option<i32>
    decreases readings.len(),
{
    if readings.len() == 0 {
        None
    } else {
        match readings[0] {
            Some(t) => match millicelsius(t) {
                Some(m) => if plausible(m) {
                    Some(m)
                } else {
                    first_plausible(readings.drop_first())
                },
                None => first_plausible(readings.drop_first()),
            },
            None => first_plausible(readings.drop_first()),
        }
    }
}

/// The views of texts that may be missing.
pub open spec fn optional_views(v: Seq<Option<String>>) -> Seq<Option<Seq<char>>> {
    v.map_values(
        |o: Option<String>|
            match o {
                Some(t) => Some(t@),
                None => None,
            },
    )
}

/// The first plausible temperature, in millidegrees, among the texts of temperature
/// files read in order.
pub fn first_plausible_millicelsius(readings: &Vec<Option<String>>) -> (r: Option<i32>)
    ensures
        r == first_plausible(optional_views(readings@)),
{
    let ghost all = optional_views(readings@);
    assert(all.skip(0) =~= all);
    let mut i: usize = 0;
    while i < readings.len()
        invariant
            i <= readings.len(),
            all == optional_views(readings@),
            first_plausible(all) == first_plausible(all.skip(i as int)),
        decreases readings.len() - i,
    {
        assert(all.skip(i as int).drop_first() =~= all.skip(i + 1));
        assert(all.skip(i as int)[0] == all[i as int]);
        match &readings[i] {
            Some(t) => {
                match parse_millicelsius(t.as_str()) {
                    Some(m) => {
                        if is_plausible_millicelsius(m) {
                            return Some(m);
                        }
                    },
                    None => {},
                }
            },
            None => {},
        }
        i = i + 1;
    }
    assert(all.skip(i as int) =~= Seq::<Option<Seq<char>>>::empty());
    None
}

} // verus!

verus! {

/// The output `throttled=0x<hex>` reports throttling exactly when one of bits 1, 2 and
/// 3 of the number is set (arm frequency capped, currently throttled, soft temperature
/// limit); bit 0 (under-voltage) and the higher bits do not count.
pub proof fn law_throttling_bits(output: Seq<char>, hex: Seq<char>, v: u32)
    requires
        strip_prefix(output, "throttled=0x"@) == Some(hex),
        parse_hex_u32(trim(hex)) == Some(v),
    ensures
        throttling(output) == Some((v / 2) % 8 != 0),
        (v / 2) % 2 == 1 ==> throttling(output) == Some(true),
        v < 2 ==> throttling(output) == Some(false),
{
    assert((v & 0xE != 0) == ((v / 2) % 8 != 0)) by (bit_vector);
}

/// An output that does not start with `throttled=0x` reports nothing.
pub proof fn law_throttling_needs_prefix(output: Seq<char>)
    requires
        !starts_with(output, "throttled=0x"@),
    ensures
        throttling(output) is None,
{
}

/// Whether the file text `r` holds the temperature `m` millidegrees, strictly
/// between 0 and 100 degrees.
pub open spec fn holds_plausible(r: Option<Seq<char>>, m: i32) -> bool {
    r matches Some(t) && millicelsius(t) == Some(m) && 0 < m < 100_000
}

/// The readings are tried in order of preference: the answer is the temperature of
/// the earliest reading that holds a plausible one, whatever the later readings hold;
/// and there is no answer only where no reading holds a plausible temperature.
pub proof fn law_earliest_plausible_wins(rs: Seq<Option<Seq<char>>>)
    ensures
        first_plausible(rs) matches Some(m) ==> exists|i: int|
            0 <= i < rs.len() && #[trigger] holds_plausible(rs[i], m) && forall|j: int, m2: i32|
                0 <= j < i ==> !#[trigger] holds_plausible(rs[j], m2),
        first_plausible(rs) is None ==> forall|i: int, m: i32|
            0 <= i < rs.len() ==> !#[trigger] holds_plausible(rs[i], m),
        forall|m: i32| rs.len() > 0 && holds_plausible(rs[0], m) ==> first_plausible(rs) == Some(m),
    decreases rs.len(),
{
    if rs.len() > 0 {
        let rest = rs.drop_first();
        law_earliest_plausible_wins(rest);
        let head_plausible = exists|m: i32| holds_plausible(rs[0], m);
        if head_plausible {
            let m = choose|m: i32| holds_plausible(rs[0], m);
            assert(first_plausible(rs) == Some(m));
            assert forall|j: int, m2: i32| 0 <= j < 0 implies !#[trigger] holds_plausible(rs[j], m2) by {}
        } else {
            assert(first_plausible(rs) == first_plausible(rest)) by {
                match rs[0] {
                    Some(t) => match millicelsius(t) {
                        Some(m) => {
                            assert(!holds_plausible(rs[0], m));
                        },
                        None => {},
                    },
                    None => {},
                }
            }
            if first_plausible(rs) is Some {
                let m = first_plausible(rs)->0;
                let i = choose|i: int|
                    0 <= i < rest.len() && #[trigger] holds_plausible(rest[i], m) && forall|j: int, m2: i32|
                        0 <= j < i ==> !#[trigger] holds_plausible(rest[j], m2);
                assert(rs[i + 1] == rest[i]);
                assert forall|j: int, m2: i32| 0 <= j < i + 1 implies !#[trigger] holds_plausible(rs[j], m2) by {
                    if j > 0 {
                        assert(rs[j] == rest[j - 1]);
                    }
                }
            } else {
                assert forall|i: int, m: i32| 0 <= i < rs.len() implies !#[trigger] holds_plausible(rs[i], m) by {
                    if i > 0 {
                        assert(rs[i] == rest[i - 1]);
                    }
                }
            }
        }
    }
}

/// A thermal zone file holds whole millidegrees as a decimal number, negative with a
/// leading `-`, with white space around it: such a file reads as that number.
pub proof fn law_zone_file_reading(m: u32, negative: bool, pre: Seq<char>, post: Seq<char>)
    requires
        m <= i32::MAX,
        forall|i: int| 0 <= i < pre.len() ==> crate::text::is_space(#[trigger] pre[i]),
        forall|i: int| 0 <= i < post.len() ==> crate::text::is_space(#[trigger] post[i]),
    ensures
        millicelsius(
            pre + (if negative {
                seq!['-'] + decimal(m as nat)
            } else {
                decimal(m as nat)
            }) + post,
        ) == Some((if negative {
            -(m as int)
        } else {
            m as int
        }) as i32),
{
    let d = decimal(m as nat);
    crate::number::lemma_decimal_digits(m as nat);
    assert(crate::number::digit_of(d[0], 10) is Some);
    assert(crate::number::digit_of(d[d.len() - 1], 10) is Some);
    assert(d.last() == d[d.len() - 1]);
    if negative {
        let t = seq!['-'] + d;
        assert(t[0] == '-');
        assert(t.last() == d.last());
        crate::text::law_trim_around(pre, t, post);
        assert(t.drop_first() =~= d);
    } else {
        crate::text::law_trim_around(pre, d, post);
    }
}

/// `vcgencmd measure_temp` answers `temp=<value>'C` and a line end: from such an
/// answer both readings give back the value text, for every value text without a
/// quote.
pub proof fn law_measure_temp_answer(t: Seq<char>)
    requires
        forall|i: int| 0 <= i < t.len() ==> #[trigger] t[i] != '\'',
    ensures
        gpu_temperature_field("temp="@ + t + "'C\n"@) == Some(t),
        measured_temperature_field("temp="@ + t + "'C\n"@) == Some(t),
{
    reveal_strlit("temp=");
    reveal_strlit("'C\n");
    reveal_strlit("'");
    let p = "temp="@;
    let q = "'C\n"@;
    let s = p + t + q;
    assert(s.subrange(0, 5) =~= p);
    assert(s.skip(5) =~= t + q);
    assert(s.skip(5).take(s.skip(5).len() - 3) =~= t);
    assert((t + q).subrange(t.len() as int, t.len() as int + 3) =~= q);
    crate::text::lemma_find_first(s, p, 0);
    let rest = t + q;
    assert(rest.subrange(t.len() as int, t.len() as int + 1) =~= "'"@);
    assert forall|k: int| 0 <= k < t.len() implies #[trigger] rest.subrange(k, k + 1) != "'"@ by {
        assert(rest.subrange(k, k + 1)[0] == t[k]);
    }
    crate::text::lemma_find_first(rest, "'"@, t.len() as int);
    assert(rest.take(t.len() as int) =~= t);
}

} // verus!
