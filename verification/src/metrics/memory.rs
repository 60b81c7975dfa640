//! Memory facts: swap figures and the breakdown read from `/proc/meminfo`.
use vstd::prelude::*;

use crate::number::{parse_u64, parse_u64_str};
use crate::number::{decimal, digit_of};
use crate::text::{first_token, first_word, is_space, lines, next_char, next_space, split_lines, split_once, split_once_str, tokens, trim, trim_end, trim_start, trim_str, views};

verus! {

/// Swap memory information.
#[derive(Debug, Clone)]
pub struct SwapInfo {
    /// Total swap space in bytes
    pub total_bytes: u64,
    /// Used swap space in bytes
    pub used_bytes: u64,
    /// Free swap space in bytes
    pub free_bytes: u64,
}

impl Default for SwapInfo {
    /// No swap.
    fn default() -> (s: Self)
        ensures
            s.total_bytes == 0 && s.used_bytes == 0 && s.free_bytes == 0,
    {
        SwapInfo { total_bytes: 0, used_bytes: 0, free_bytes: 0 }
    }
}

/// Memory usage breakdown by type.
#[derive(Debug, Clone)]
pub struct MemoryBreakdown {
    /// Buffers in bytes
    pub buffers_bytes: u64,
    /// Cached memory in bytes
    pub cached_bytes: u64,
    /// Shared memory in bytes
    pub shared_bytes: u64,
}

impl Default for MemoryBreakdown {
    /// Nothing in buffers, cache or shared memory.
    fn default() -> (b: Self)
        ensures
            b == MemoryBreakdown::zero(),
    {
        MemoryBreakdown { buffers_bytes: 0, cached_bytes: 0, shared_bytes: 0 }
    }
}

impl MemoryBreakdown {
    /// The breakdown with every figure 0.
    pub open spec fn zero() -> MemoryBreakdown {
        MemoryBreakdown { buffers_bytes: 0, cached_bytes: 0, shared_bytes: 0 }
    }
}

/// The key and the byte count of a `/proc/meminfo` line `Key:   value kB`: the text
/// before the first colon, and 1024 times the first word after it read as a number.
pub open spec fn meminfo_entry(line: Seq<char>) -> Option<(Seq<char>, nat)> {
    match split_once(line, ':') {
        Some((key, rest)) => match first_token(trim(rest)) {
            Some(w) => match parse_u64(w) {
                Some(kb) => Some((key, (kb * 1024) as nat)),
                None => None,
            },
            None => None,
        },
        None => None,
    }
}

/// Whether every byte count in the text of `/proc/meminfo` fits in a `u64`.
pub open spec fn meminfo_fits(text: Seq<char>) -> bool {
    forall|i: int|
        0 <= i < lines(text).len() ==> match meminfo_entry(#[trigger] lines(text)[i]) {
            Some((_, bytes)) => bytes <= u64::MAX,
            None => true,
        }
}

/// `b` after reading `line`: a `Buffers`, `Cached` or `Shmem` line sets that figure.
pub open spec fn apply_meminfo_line(b: MemoryBreakdown, line: Seq<char>) -> MemoryBreakdown {
    match meminfo_entry(line) {
        Some((key, bytes)) => if key == "Buffers"@ {
            MemoryBreakdown { buffers_bytes: bytes as u64, ..b }
        } else if key == "Cached"@ {
            MemoryBreakdown { cached_bytes: bytes as u64, ..b }
        } else if key == "Shmem"@ {
            MemoryBreakdown { shared_bytes: bytes as u64, ..b }
        } else {
            b
        },
        None => b,
    }
}

/// The breakdown after reading `ls` in order, from all zeros.
pub open spec fn breakdown_of_lines(ls: Seq<Seq<char>>) -> MemoryBreakdown
    decreases ls.len(),
{
    if ls.len() == 0 {
        MemoryBreakdown::zero()
    } else {
        apply_meminfo_line(breakdown_of_lines(ls.drop_last()), ls.last())
    }
}

/// The breakdown that the text of `/proc/meminfo` gives: for each of buffers,
/// cached and shared memory, the figure of the last line with its key, else 0.
pub open spec fn memory_breakdown(text: Seq<char>) -> MemoryBreakdown {
    breakdown_of_lines(lines(text))
}

/// The key and the kB figure of one `/proc/meminfo` line.
fn meminfo_line(line: &str) -> (r: Option<(String, u64)>)
    ensures
        match r {
            Some((key, kb)) => meminfo_entry(line@) == Some((key@, (kb * 1024) as nat)),
            None => meminfo_entry(line@) is None,
        },
{
    match split_once_str(line, ':') {
        Some((key, rest)) => {
            let t = trim_str(rest.as_str());
            match first_word(t.as_str()) {
                Some(w) => match parse_u64_str(w.as_str()) {
                    Some(kb) => Some((key, kb)),
                    None => None,
                },
                None => None,
            }
        },
        None => None,
    }
}

/// Whether every byte count in the text of `/proc/meminfo` fits in a `u64`.
pub fn meminfo_values_fit(text: &str) -> (b: bool)
    ensures
        b == meminfo_fits(text@),
{
    let ls = split_lines(text);
    let ghost all = views(ls@);
    let mut i: usize = 0;
    while i < ls.len()
        invariant
            i <= ls.len(),
            all == views(ls@),
            all == lines(text@),
            forall|k: int|
                0 <= k < i ==> match meminfo_entry(#[trigger] all[k]) {
                    Some((_, bytes)) => bytes <= u64::MAX,
                    None => true,
                },
        decreases ls.len() - i,
    {
        assert(all[i as int] == ls@[i as int]@);
        match meminfo_line(ls[i].as_str()) {
            Some((_, kb)) => {
                if kb > u64::MAX / 1024 {
                    return false;
                }
            },
            None => {},
        }
        i = i + 1;
    }
    true
}

/// The memory breakdown read from the text of `/proc/meminfo`.
pub fn parse_memory_breakdown(meminfo: &str) -> (b: MemoryBreakdown)
    requires
        meminfo_fits(meminfo@),
    ensures
        b == memory_breakdown(meminfo@),
{
    let ls = split_lines(meminfo);
    let ghost all = views(ls@);
    let buffers = String::from_str("Buffers");
    let cached = String::from_str("Cached");
    let shmem = String::from_str("Shmem");
    let mut b = MemoryBreakdown { buffers_bytes: 0, cached_bytes: 0, shared_bytes: 0 };
    assert(all.take(0) =~= Seq::<Seq<char>>::empty());
    let mut i: usize = 0;
    while i < ls.len()
        invariant
            i <= ls.len(),
            all == views(ls@),
            all == lines(meminfo@),
            meminfo_fits(meminfo@),
            buffers@ == "Buffers"@,
            cached@ == "Cached"@,
            shmem@ == "Shmem"@,
            b == breakdown_of_lines(all.take(i as int)),
        decreases ls.len() - i,
    {
        assert(all[i as int] == ls@[i as int]@);
        assert(all.take(i + 1).drop_last() =~= all.take(i as int));
        assert(all.take(i + 1).last() == all[i as int]);
        match meminfo_line(ls[i].as_str()) {
            Some((key, kb)) => {
                assert(meminfo_entry(all[i as int]) is Some);
                let bytes = kb * 1024;
                if key == buffers {
                    b = MemoryBreakdown { buffers_bytes: bytes, ..b };
                } else if key == cached {
                    b = MemoryBreakdown { cached_bytes: bytes, ..b };
                } else if key == shmem {
                    b = MemoryBreakdown { shared_bytes: bytes, ..b };
                }
            },
            None => {},
        }
        i = i + 1;
    }
    assert(all.take(i as int) =~= all);
    b
}

} // verus!

verus! {

/// A line whose key (the text before its first colon) is none of `Buffers`, `Cached`
/// and `Shmem`, or which has no colon, leaves the breakdown as it was, however much
/// the key resembles one of them (`ShmemHugePages`, `SwapCached`, ...).
pub proof fn law_other_keys_ignored(ls: Seq<Seq<char>>, l: Seq<char>)
    requires
        match split_once(l, ':') {
            Some((k, _)) => k != "Buffers"@ && k != "Cached"@ && k != "Shmem"@,
            None => true,
        },
    ensures
        breakdown_of_lines(ls.push(l)) == breakdown_of_lines(ls),
{
    assert(ls.push(l).drop_last() =~= ls);
}

proof fn lemma_next_char_at(s: Seq<char>, c: char, i: int, n: int)
    requires
        0 <= i <= n < s.len(),
        s[n] == c,
        forall|k: int| i <= k < n ==> s[k] != c,
    ensures
        next_char(s, c, i) == n,
    decreases n - i,
{
    if i < n {
        lemma_next_char_at(s, c, i + 1, n);
    }
}

proof fn lemma_next_space_at(s: Seq<char>, i: int, n: int)
    requires
        0 <= i <= n < s.len(),
        is_space(s[n]),
        forall|k: int| i <= k < n ==> !is_space(s[k]),
    ensures
        next_space(s, i) == n,
    decreases n - i,
{
    if i < n {
        lemma_next_space_at(s, i + 1, n);
    }
}

proof fn lemma_digit_not_space(c: char)
    requires
        digit_of(c, 10) is Some,
    ensures
        !is_space(c),
        c != ':',
{
}

/// The figure a line `<key>: <number> kB` gives is 1024 times the number.
proof fn lemma_meminfo_entry_of(key: Seq<char>, v: u64)
    requires
        forall|k: int| 0 <= k < key.len() ==> key[k] != ':',
    ensures
        meminfo_entry(key + ": "@ + decimal(v as nat) + " kB"@) == Some((key, (v * 1024) as nat)),
{
    reveal_strlit(": ");
    reveal_strlit(" kB");
    let d = decimal(v as nat);
    crate::number::lemma_decimal_digits(v as nat);
    crate::number::law_decimal_round_trip(v);
    let line = key + ": "@ + d + " kB"@;
    let n = key.len() as int;
    assert(line[n] == ':');
    assert forall|k: int| 0 <= k < n implies line[k] != ':' by {
        assert(line[k] == key[k]);
    }
    lemma_next_char_at(line, ':', 0, n);
    assert(line.take(n) =~= key);
    let rest = line.skip(n + 1);
    let t = d + " kB"@;
    assert(rest =~= seq![' '] + t);
    assert(split_once(line, ':') == Some((key, rest)));
    // trimming drops the one leading space and nothing else
    lemma_digit_not_space(d[0]);
    assert(rest.drop_first() =~= t);
    assert(t[0] == d[0]);
    assert(trim_start(t) == t);
    assert(trim_start(rest) == t);
    assert(t.last() == 'B');
    assert(trim_end(t) == t);
    assert(trim(rest) == t);
    // the first word is the number
    let m = d.len() as int;
    assert(t[m] == ' ');
    assert forall|k: int| 0 <= k < m implies !is_space(t[k]) by {
        assert(t[k] == d[k]);
        lemma_digit_not_space(d[k]);
    }
    lemma_next_space_at(t, 0, m);
    assert(t.subrange(0, m) =~= d);
    assert(tokens(t)[0] == d);
    assert(first_token(t) == Some(d));
}

/// A line `<key>: <number> kB` sets the buffers, cached or shared figure to 1024 times
/// the number when its key is exactly `Buffers`, `Cached` or `Shmem`, leaving the other
/// two figures as they were; with any other key it changes nothing.
pub proof fn law_meminfo_line_sets_figure(ls: Seq<Seq<char>>, key: Seq<char>, v: u64)
    requires
        forall|k: int| 0 <= k < key.len() ==> key[k] != ':',
        v <= u64::MAX / 1024,
    ensures
        ({
            let before = breakdown_of_lines(ls);
            let after = breakdown_of_lines(ls.push(key + ": "@ + decimal(v as nat) + " kB"@));
            &&& key == "Buffers"@ ==> after.buffers_bytes == v * 1024 && after.cached_bytes
                == before.cached_bytes && after.shared_bytes == before.shared_bytes
            &&& key == "Cached"@ ==> after.cached_bytes == v * 1024 && after.buffers_bytes
                == before.buffers_bytes && after.shared_bytes == before.shared_bytes
            &&& key == "Shmem"@ ==> after.shared_bytes == v * 1024 && after.buffers_bytes
                == before.buffers_bytes && after.cached_bytes == before.cached_bytes
            &&& key != "Buffers"@ && key != "Cached"@ && key != "Shmem"@ ==> after == before
        }),
{
    let line = key + ": "@ + decimal(v as nat) + " kB"@;
    lemma_meminfo_entry_of(key, v);
    assert(ls.push(line).drop_last() =~= ls);
    assert(ls.push(line).last() == line);
    let before = breakdown_of_lines(ls);
    assert(breakdown_of_lines(ls.push(line)) == apply_meminfo_line(before, line));
    assert(((v * 1024) as nat) as u64 == v * 1024);
    reveal_strlit("Buffers");
    reveal_strlit("Cached");
    reveal_strlit("Shmem");
    assert("Buffers"@ != "Cached"@ && "Buffers"@ != "Shmem"@ && "Cached"@ != "Shmem"@) by {
        assert("Buffers"@[0] != "Cached"@[0]);
        assert("Buffers"@[0] != "Shmem"@[0]);
        assert("Cached"@[0] != "Shmem"@[0]);
    }
}

} // verus!
