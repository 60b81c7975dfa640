//! General system facts: the system information record and the board model.
use vstd::prelude::*;

use crate::text::{chars_of, first_labelled, first_labelled_value, lines, trim, trim_str};

verus! {

/// General system information.
#[derive(Debug, Clone)]
pub struct SystemInfo {
    /// System hostname
    pub hostname: String,
    /// Operating system name
    pub os_name: String,
    /// Operating system version
    pub os_version: String,
    /// Kernel version
    pub kernel_version: String,
    /// System uptime in seconds
    pub uptime_seconds: u64,
    /// Boot time (Unix timestamp)
    pub boot_time: u64,
    /// Number of processes running
    pub process_count: u64,
}

impl Default for SystemInfo {
    /// Empty names and zero counts.
    fn default() -> (s: Self)
        ensures
            s.hostname@ == Seq::<char>::empty(),
            s.os_name@ == Seq::<char>::empty(),
            s.os_version@ == Seq::<char>::empty(),
            s.kernel_version@ == Seq::<char>::empty(),
            s.uptime_seconds == 0,
            s.boot_time == 0,
            s.process_count == 0,
    {
        SystemInfo {
            hostname: String::new(),
            os_name: String::new(),
            os_version: String::new(),
            kernel_version: String::new(),
            uptime_seconds: 0,
            boot_time: 0,
            process_count: 0,
        }
    }
}

/// A name that the system reported, or `unknown` where it reported none.
pub open spec fn name_or_unknown(name: Option<String>) -> Seq<char> {
    match name {
        Some(n) => n@,
        None => "unknown"@,
    }
}

fn or_unknown(name: Option<String>) -> (s: String)
    ensures
        s@ == name_or_unknown(name),
{
    match name {
        Some(n) => n,
        None => String::from_str("unknown"),
    }
}

impl SystemInfo {
    /// The record for what the system reported: names (`unknown` where one is
    /// missing), the uptime, the current time in seconds since the epoch, from
    /// which the boot time follows, and the number of processes.
    pub fn from_readings(
        hostname: Option<String>,
        os_name: Option<String>,
        os_version: Option<String>,
        kernel_version: Option<String>,
        uptime_seconds: u64,
        now_seconds: u64,
        process_count: usize,
    ) -> (s: SystemInfo)
        requires
            uptime_seconds <= now_seconds,
        ensures
            s.hostname@ == name_or_unknown(hostname),
            s.os_name@ == name_or_unknown(os_name),
            s.os_version@ == name_or_unknown(os_version),
            s.kernel_version@ == name_or_unknown(kernel_version),
            s.uptime_seconds == uptime_seconds,
            s.boot_time == now_seconds - uptime_seconds,
            s.process_count == process_count,
    {
        SystemInfo {
            hostname: or_unknown(hostname),
            os_name: or_unknown(os_name),
            os_version: or_unknown(os_version),
            kernel_version: or_unknown(kernel_version),
            uptime_seconds,
            boot_time: now_seconds - uptime_seconds,
            process_count: process_count as u64,
        }
    }
}

/// `s` without trailing NUL characters (`trim_end_matches('\0')`).
pub open spec fn trim_end_nul(s: Seq<char>) -> Seq<char>
    decreases s.len(),
{
    if s.len() > 0 && s.last() == '\0' {
        trim_end_nul(s.drop_last())
    } else {
        s
    }
}

/// The board model that the text of `/proc/device-tree/model` names: the text without
/// its trailing NULs and surrounding white space, unless that leaves nothing.
pub open spec fn device_tree_model(text: Seq<char>) -> Option<Seq<char>> {
    let cleaned = trim(trim_end_nul(text));
    if cleaned.len() > 0 {
        Some(cleaned)
    } else {
        None
    }
}

/// The board model named by the text of `/proc/device-tree/model`.
pub fn pi_model_from_device_tree(text: &str) -> (r: Option<String>)
    ensures
        match r {
            Some(m) => device_tree_model(text@) == Some(m@),
            None => device_tree_model(text@) is None,
        },
{
    let v = chars_of(text);
    let mut end = v.len();
    assert(v@.take(end as int) =~= v@);
    while end > 0 && v[end - 1] == '\0'
        invariant
            end <= v.len(),
            v@ == text@,
            trim_end_nul(v@) == trim_end_nul(v@.take(end as int)),
        decreases end,
    {
        assert(v@.take(end as int).drop_last() =~= v@.take(end - 1));
        end = end - 1;
    }
    assert(trim_end_nul(v@.take(end as int)) == v@.take(end as int));
    let head = text.substring_char(0, end);
    assert(head@ =~= v@.take(end as int));
    let cleaned = trim_str(head);
    if cleaned.unicode_len() > 0 {
        Some(cleaned)
    } else {
        None
    }
}

/// The board model named by the first `Model` line of the text of `/proc/cpuinfo`.
pub open spec fn cpuinfo_model(text: Seq<char>) -> Option<Seq<char>> {
    first_labelled(lines(text), "Model"@)
}

/// The board model named by the text of `/proc/cpuinfo`.
pub fn pi_model_from_cpuinfo(text: &str) -> (r: Option<String>)
    ensures
        match r {
            Some(m) => cpuinfo_model(text@) == Some(m@),
            None => cpuinfo_model(text@) is None,
        },
{
    first_labelled_value(text, "Model")
}

} // verus!

verus! {

proof fn lemma_trailing_nuls_dropped(a: Seq<char>, nuls: Seq<char>)
    requires
        forall|i: int| 0 <= i < nuls.len() ==> #[trigger] nuls[i] == '\0',
    ensures
        trim_end_nul(a + nuls) == trim_end_nul(a),
    decreases nuls.len(),
{
    if nuls.len() > 0 {
        let s = a + nuls;
        assert(s.last() == nuls.last());
        assert(s.drop_last() =~= a + nuls.drop_last());
        lemma_trailing_nuls_dropped(a, nuls.drop_last());
    } else {
        assert(a + nuls =~= a);
    }
}

/// The model file holds the model name, perhaps with white space around it, and
/// NUL characters at its end: the model read from it is that name.
pub proof fn law_model_file_reading(pre: Seq<char>, m: Seq<char>, post: Seq<char>, nuls: Seq<char>)
    requires
        forall|i: int| 0 <= i < pre.len() ==> crate::text::is_space(#[trigger] pre[i]),
        forall|i: int| 0 <= i < post.len() ==> crate::text::is_space(#[trigger] post[i]),
        forall|i: int| 0 <= i < nuls.len() ==> #[trigger] nuls[i] == '\0',
        m.len() > 0,
        !crate::text::is_space(m[0]),
        !crate::text::is_space(m.last()),
        m.last() != '\0',
    ensures
        device_tree_model(pre + m + post + nuls) == Some(m),
{
    let a = pre + m + post;
    lemma_trailing_nuls_dropped(a, nuls);
    if post.len() > 0 {
        assert(a.last() == post.last());
        assert(crate::text::is_space(post[post.len() - 1]));
        assert(post.last() == post[post.len() - 1]);
    } else {
        assert(a.last() == m.last());
    }
    assert(trim_end_nul(a) == a);
    crate::text::law_trim_around(pre, m, post);
}

} // verus!
