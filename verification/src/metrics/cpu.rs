//! CPU facts read from kernel text interfaces (`/proc/cpuinfo`,
//! `/sys/devices/system/cpu/cpu0/cpufreq/*`, `/proc/loadavg`).
use vstd::prelude::*;

use crate::error::SystemError;
use crate::number::{decimal, parse_u32, parse_u32_str};
use crate::text::{
    contains, contains_str, first_labelled, first_labelled_value, is_space, lines, split_words, tokens,
    trim, trim_str, views,
};

verus! {

/// The CPU architecture that the text of `/proc/cpuinfo` names: the value of the
/// first `architecture` line; failing that, `aarch64` where the text mentions
/// `aarch64` or `ARMv8`, then `arm` where it mentions `arm`, then `x86_64` where it
/// mentions `x86_64`.
pub open spec fn cpu_architecture(cpuinfo: Seq<char>) -> Option<Seq<char>> {
    match first_labelled(lines(cpuinfo), "architecture"@) {
        Some(a) => Some(a),
        None => if contains(cpuinfo, "aarch64"@) || contains(cpuinfo, "ARMv8"@) {
            Some("aarch64"@)
        } else if contains(cpuinfo, "arm"@) {
            Some("arm"@)
        } else if contains(cpuinfo, "x86_64"@) {
            Some("x86_64"@)
        } else {
            None
        },
    }
}

/// The CPU architecture named by the text of `/proc/cpuinfo`.
pub fn parse_cpu_architecture(cpuinfo: &str) -> (r: Option<String>)
    ensures
        match r {
            Some(a) => cpu_architecture(cpuinfo@) == Some(a@),
            None => cpu_architecture(cpuinfo@) is None,
        },
{
    match first_labelled_value(cpuinfo, "architecture") {
        Some(a) => Some(a),
        None => {
            if contains_str(cpuinfo, "aarch64") || contains_str(cpuinfo, "ARMv8") {
                Some(String::from_str("aarch64"))
            } else if contains_str(cpuinfo, "arm") {
                Some(String::from_str("arm"))
            } else if contains_str(cpuinfo, "x86_64") {
                Some(String::from_str("x86_64"))
            } else {
                None
            }
        },
    }
}

/// The CPU frequency in MHz from the text of `scaling_cur_freq`, which gives kHz.
pub open spec fn cpu_frequency_mhz(text: Seq<char>) -> Option<u32> {
    match parse_u32(trim(text)) {
        Some(khz) => Some((khz / 1000) as u32),
        None => None,
    }
}

/// The CPU frequency in MHz from the text of `scaling_cur_freq`.
pub fn parse_cpu_frequency(text: &str) -> (r: Option<u32>)
    ensures
        r == cpu_frequency_mhz(text@),
{
    let t = trim_str(text);
    match parse_u32_str(t.as_str()) {
        Some(khz) => Some(khz / 1000),
        None => None,
    }
}

/// The CPU governor from the text of `scaling_governor`.
pub fn parse_cpu_governor(text: &str) -> (r: String)
    ensures
        r@ == trim(text@),
{
    trim_str(text)
}

/// The first three words of the text of `/proc/loadavg` (the 1, 5 and 15 minute
/// load averages), if it has three.
pub fn load_average_fields(text: &str) -> (r: Option<(String, String, String)>)
    ensures
        match r {
            Some((a, b, c)) => tokens(text@).len() >= 3 && a@ == tokens(text@)[0] && b@ == tokens(
                text@,
            )[1] && c@ == tokens(text@)[2],
            None => tokens(text@).len() < 3,
        },
{
    let mut words = split_words(text);
    if words.len() >= 3 {
        let ghost w = views(words@);
        assert(w[0] == words@[0]@ && w[1] == words@[1]@ && w[2] == words@[2]@);
        words.truncate(3);
        let c = words.pop().unwrap();
        let b = words.pop().unwrap();
        let a = words.pop().unwrap();
        Some((a, b, c))
    } else {
        None
    }
}

/// The number of cores for a CPU list of `n` entries; no entries is an error.
pub fn core_count(n: usize) -> (r: Result<u32, SystemError>)
    ensures
        match r {
            Ok(c) => n > 0 && c == n as u32,
            Err(e) => n == 0 && e is System && e.message() == "No CPU information available"@,
        },
{
    if n == 0 {
        Err(SystemError::system_error("No CPU information available"))
    } else {
        Ok(n as u32)
    }
}

} // verus!

verus! {

/// The frequency file holds kHz and the figure is whole MHz: a file that holds the
/// decimal number `khz`, with white space around it, gives `khz / 1000`.
pub proof fn law_frequency_in_mhz(khz: u32, pre: Seq<char>, post: Seq<char>)
    requires
        forall|i: int| 0 <= i < pre.len() ==> is_space(#[trigger] pre[i]),
        forall|i: int| 0 <= i < post.len() ==> is_space(#[trigger] post[i]),
    ensures
        cpu_frequency_mhz(pre + decimal(khz as nat) + post) == Some((khz / 1000) as u32),
{
    let d = decimal(khz as nat);
    crate::number::lemma_decimal_digits(khz as nat);
    assert(crate::number::digit_of(d[0], 10) is Some);
    assert(crate::number::digit_of(d[d.len() - 1], 10) is Some);
    assert(d.last() == d[d.len() - 1]);
    crate::text::law_trim_around(pre, d, post);
    assert(crate::number::unsigned_value(d, 10) == Some(khz as nat));
}

} // verus!
