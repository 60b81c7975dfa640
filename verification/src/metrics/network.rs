//! Network facts: the interface record, traffic totals, and the local addresses
//! found in the output of `hostname -I` and `ip route get`.
use vstd::prelude::*;

use crate::text::{find, find_str, lines, split_lines, views};

verus! {

/// Network interface information.
#[derive(Debug, Clone)]
pub struct NetworkInfo {
    /// Interface name (e.g., "wlan0", "eth0")
    pub interface: String,
    /// Whether the interface is up
    pub is_up: bool,
    /// MAC address
    pub mac_address: Option<String>,
    /// IPv4 addresses
    pub ipv4_addresses: Vec<String>,
    /// IPv6 addresses
    pub ipv6_addresses: Vec<String>,
    /// Bytes transmitted
    pub tx_bytes: u64,
    /// Bytes received
    pub rx_bytes: u64,
    /// Packets transmitted
    pub tx_packets: u64,
    /// Packets received
    pub rx_packets: u64,
    /// Transmission errors
    pub tx_errors: u64,
    /// Receive errors
    pub rx_errors: u64,
}

impl NetworkInfo {
    /// The record of interface `interface` from its traffic counters. An interface
    /// counts as up once it has sent or received anything; no MAC or IP addresses
    /// are known from the counters.
    pub fn from_counters(
        interface: String,
        tx_bytes: u64,
        rx_bytes: u64,
        tx_packets: u64,
        rx_packets: u64,
        tx_errors: u64,
        rx_errors: u64,
    ) -> (n: NetworkInfo)
        ensures
            n.interface == interface,
            n.is_up == (tx_bytes > 0 || rx_bytes > 0),
            n.mac_address is None,
            n.ipv4_addresses@.len() == 0,
            n.ipv6_addresses@.len() == 0,
            n.tx_bytes == tx_bytes,
            n.rx_bytes == rx_bytes,
            n.tx_packets == tx_packets,
            n.rx_packets == rx_packets,
            n.tx_errors == tx_errors,
            n.rx_errors == rx_errors,
    {
        NetworkInfo {
            interface,
            is_up: tx_bytes > 0 || rx_bytes > 0,
            mac_address: None,
            ipv4_addresses: Vec::new(),
            ipv6_addresses: Vec::new(),
            tx_bytes,
            rx_bytes,
            tx_packets,
            rx_packets,
            tx_errors,
            rx_errors,
        }
    }
}

/// The sum of the first members of `c`.
pub open spec fn sum_firsts(c: Seq<(u64, u64)>) -> nat
    decreases c.len(),
{
    if c.len() == 0 {
        0
    } else {
        sum_firsts(c.drop_last()) + (c.last().0 as nat)
    }
}

/// The sum of the second members of `c`.
pub open spec fn sum_seconds(c: Seq<(u64, u64)>) -> nat
    decreases c.len(),
{
    if c.len() == 0 {
        0
    } else {
        sum_seconds(c.drop_last()) + (c.last().1 as nat)
    }
}

proof fn lemma_sums_grow(c: Seq<(u64, u64)>, k: int)
    requires
        0 <= k <= c.len(),
    ensures
        sum_firsts(c.take(k)) <= sum_firsts(c),
        sum_seconds(c.take(k)) <= sum_seconds(c),
    decreases c.len() - k,
{
    if k < c.len() {
        lemma_sums_grow(c, k + 1);
        assert(c.take(k + 1).drop_last() =~= c.take(k));
    } else {
        assert(c.take(k) =~= c);
    }
}

/// The received and transmitted byte totals over all interfaces, from each
/// interface's `(received, transmitted)` counters.
pub fn total_traffic(counters: &Vec<(u64, u64)>) -> (t: (u64, u64))
    requires
        sum_firsts(counters@) <= u64::MAX,
        sum_seconds(counters@) <= u64::MAX,
    ensures
        t.0 == sum_firsts(counters@),
        t.1 == sum_seconds(counters@),
{
    let mut rx: u64 = 0;
    let mut tx: u64 = 0;
    let mut i: usize = 0;
    assert(counters@.take(0) =~= Seq::<(u64, u64)>::empty());
    while i < counters.len()
        invariant
            i <= counters.len(),
            sum_firsts(counters@) <= u64::MAX,
            sum_seconds(counters@) <= u64::MAX,
            rx == sum_firsts(counters@.take(i as int)),
            tx == sum_seconds(counters@.take(i as int)),
        decreases counters.len() - i,
    {
        assert(counters@.take(i + 1).drop_last() =~= counters@.take(i as int));
        proof {
            lemma_sums_grow(counters@, i + 1);
        }
        rx = rx + counters[i].0;
        tx = tx + counters[i].1;
        i = i + 1;
    }
    assert(counters@.take(i as int) =~= counters@);
    (rx, tx)
}

/// An IP address as its parts: four octets, or eight 16-bit segments.
#[derive(Debug, Clone, Copy, PartialEq, Eq, Structural)]
pub enum IpAddress {
    V4(u8, u8, u8, u8),
    V6(u16, u16, u16, u16, u16, u16, u16, u16),
}

impl IpAddress {
    /// A loopback address: `127.0.0.0/8`, or `::1`.
    pub open spec fn is_loopback(self) -> bool {
        match self {
            IpAddress::V4(a, _, _, _) => a == 127,
            IpAddress::V6(a, b, c, d, e, f, g, h) => a == 0 && b == 0 && c == 0 && d == 0 && e
                == 0 && f == 0 && g == 0 && h == 1,
        }
    }

    /// An IPv4 link-local address, `169.254.0.0/16`.
    pub open spec fn is_link_local_v4(self) -> bool {
        match self {
            IpAddress::V4(a, b, _, _) => a == 169 && b == 254,
            IpAddress::V6(..) => false,
        }
    }

    /// The IPv6 unspecified address `::`.
    pub open spec fn is_unspecified_v6(self) -> bool {
        match self {
            IpAddress::V4(..) => false,
            IpAddress::V6(a, b, c, d, e, f, g, h) => a == 0 && b == 0 && c == 0 && d == 0 && e
                == 0 && f == 0 && g == 0 && h == 0,
        }
    }

    /// Whether the address is one that reaches this machine from the network:
    /// not loopback, and neither IPv4 link-local nor IPv6 unspecified.
    pub open spec fn is_reachable(self) -> bool {
        !self.is_loopback() && !self.is_link_local_v4() && !self.is_unspecified_v6()
    }

    /// Whether the address is one that reaches this machine from the network.
    pub fn reachable(&self) -> (b: bool)
        ensures
            b == self.is_reachable(),
    {
        match *self {
            IpAddress::V4(a, b, _, _) => !(a == 127) && !(a == 169 && b == 254),
            IpAddress::V6(a, b, c, d, e, f, g, h) => {
                let zero_head = a == 0 && b == 0 && c == 0 && d == 0 && e == 0 && f == 0 && g
                    == 0;
                !(zero_head && h == 1) && !(zero_head && h == 0)
            },
        }
    }
}

/// The words of `ws` whose parse in `parsed` (one per word) is a reachable IP address, in order.
pub open spec fn reachable_words(ws: Seq<Seq<char>>, parsed: Seq<Option<IpAddress>>) -> Seq<Seq<char>>
    decreases ws.len(),
{
    if ws.len() == 0 {
        Seq::empty()
    } else {
        let rest = reachable_words(ws.drop_last(), parsed.take(ws.len() - 1));
        match parsed[ws.len() - 1] {
            Some(a) => if a.is_reachable() {
                rest.push(ws.last())
            } else {
                rest
            },
            None => rest,
        }
    }
}

/// The words of `ws` whose parse in `parsed` (one per word) is an IP address, in order.
pub open spec fn parsed_words(ws: Seq<Seq<char>>, parsed: Seq<Option<IpAddress>>) -> Seq<Seq<char>>
    decreases ws.len(),
{
    if ws.len() == 0 {
        Seq::empty()
    } else {
        let rest = parsed_words(ws.drop_last(), parsed.take(ws.len() - 1));
        if parsed[ws.len() - 1] is Some {
            rest.push(ws.last())
        } else {
            rest
        }
    }
}

/// Of the words of `hostname -I` output, those that parsed (`parsed`, one per word,
/// `None` where the word is no IP address) to a reachable address: not loopback,
/// and neither IPv4 link-local nor IPv6 unspecified.
pub fn reachable_addresses(words: &Vec<String>, parsed: &Vec<Option<IpAddress>>) -> (r: Vec<String>)
    requires
        words.len() == parsed.len(),
    ensures
        views(r@) == reachable_words(views(words@), parsed@),
{
    let ghost ws = views(words@);
    let mut out: Vec<String> = Vec::new();
    let mut i: usize = 0;
    assert(ws.take(0) =~= Seq::<Seq<char>>::empty());
    while i < words.len()
        invariant
            i <= words.len(),
            words.len() == parsed.len(),
            ws == views(words@),
            views(out@) == reachable_words(ws.take(i as int), parsed@.take(i as int)),
        decreases words.len() - i,
    {
        assert(ws.take(i + 1).drop_last() =~= ws.take(i as int));
        assert(parsed@.take(i + 1).take(i as int) =~= parsed@.take(i as int));
        assert(ws.take(i + 1).last() == words@[i as int]@);
        let ghost before = out@;
        match parsed[i] {
            Some(a) => {
                if a.reachable() {
                    out.push(words[i].clone());
                    assert(views(out@) =~= views(before).push(words@[i as int]@));
                }
            },
            None => {},
        }
        i = i + 1;
    }
    assert(ws.take(i as int) =~= ws);
    assert(parsed@.take(i as int) =~= parsed@);
    out
}

/// Of `candidates`, those that parsed (`parsed`, one per candidate) to an IP address.
pub fn parsed_addresses(candidates: &Vec<String>, parsed: &Vec<Option<IpAddress>>) -> (r: Vec<String>)
    requires
        candidates.len() == parsed.len(),
    ensures
        views(r@) == parsed_words(views(candidates@), parsed@),
{
    let ghost ws = views(candidates@);
    let mut out: Vec<String> = Vec::new();
    let mut i: usize = 0;
    assert(ws.take(0) =~= Seq::<Seq<char>>::empty());
    while i < candidates.len()
        invariant
            i <= candidates.len(),
            candidates.len() == parsed.len(),
            ws == views(candidates@),
            views(out@) == parsed_words(ws.take(i as int), parsed@.take(i as int)),
        decreases candidates.len() - i,
    {
        assert(ws.take(i + 1).drop_last() =~= ws.take(i as int));
        assert(parsed@.take(i + 1).take(i as int) =~= parsed@.take(i as int));
        assert(ws.take(i + 1).last() == candidates@[i as int]@);
        let ghost before = out@;
        if parsed[i].is_some() {
            out.push(candidates[i].clone());
            assert(views(out@) =~= views(before).push(candidates@[i as int]@));
        }
        i = i + 1;
    }
    assert(ws.take(i as int) =~= ws);
    assert(parsed@.take(i as int) =~= parsed@);
    out
}

/// The text after `src ` in a line of `ip route get` output, up to the next space.
pub open spec fn route_source(line: Seq<char>) -> Option<Seq<char>> {
    match find(line, "src "@) {
        Some(k) => {
            let part = line.skip(k + 4);
            match find(part, " "@) {
                Some(e) => Some(part.take(e)),
                None => None,
            }
        },
        None => None,
    }
}

/// The source texts of `ls`, in order.
pub open spec fn route_sources(ls: Seq<Seq<char>>) -> Seq<Seq<char>>
    decreases ls.len(),
{
    if ls.len() == 0 {
        Seq::empty()
    } else {
        let rest = route_sources(ls.drop_last());
        match route_source(ls.last()) {
            Some(ip) => rest.push(ip),
            None => rest,
        }
    }
}

/// The source text of one line of `ip route get` output.
fn route_source_of(line: &str) -> (r: Option<String>)
    ensures
        match r {
            Some(ip) => route_source(line@) == Some(ip@),
            None => route_source(line@) is None,
        },
{
    match find_str(line, "src ") {
        Some(k) => {
            proof {
                reveal_strlit("src ");
                crate::text::lemma_find_bounds(line@, "src "@);
            }
            let n = line.unicode_len();
            let part = line.substring_char(k + 4, n);
            assert(part@ =~= line@.skip(k + 4));
            match find_str(part, " ") {
                Some(e) => {
                    proof {
                        crate::text::lemma_find_bounds(part@, " "@);
                    }
                    let ip = String::from_str(part.substring_char(0, e));
                    assert(ip@ =~= part@.take(e as int));
                    Some(ip)
                },
                None => None,
            }
        },
        None => None,
    }
}

/// The texts after `src ` in the output of `ip route get`, line by line: the
/// candidates for the address this machine routes from.
pub fn route_source_candidates(output: &str) -> (r: Vec<String>)
    ensures
        views(r@) == route_sources(lines(output@)),
{
    let ls = split_lines(output);
    let ghost all = views(ls@);
    let mut out: Vec<String> = Vec::new();
    let mut i: usize = 0;
    assert(all.take(0) =~= Seq::<Seq<char>>::empty());
    while i < ls.len()
        invariant
            i <= ls.len(),
            all == views(ls@),
            all == lines(output@),
            views(out@) == route_sources(all.take(i as int)),
        decreases ls.len() - i,
    {
        assert(all.take(i + 1).drop_last() =~= all.take(i as int));
        assert(all.take(i + 1).last() == ls@[i as int]@);
        let ghost before = out@;
        match route_source_of(ls[i].as_str()) {
            Some(ip) => {
                out.push(ip);
                assert(views(out@) =~= views(before).push(ip@));
            },
            None => {},
        }
        i = i + 1;
    }
    assert(all.take(i as int) =~= all);
    out
}

/// `ips`, or the loopback address `127.0.0.1` alone where `ips` is empty.
pub open spec fn with_loopback_fallback(ips: Seq<Seq<char>>) -> Seq<Seq<char>> {
    if ips.len() == 0 {
        seq!["127.0.0.1"@]
    } else {
        ips
    }
}

/// The local addresses found, or `127.0.0.1` where none was found.
pub fn local_ips_or_loopback(ips: Vec<String>) -> (r: Vec<String>)
    ensures
        views(r@) == with_loopback_fallback(views(ips@)),
{
    if ips.len() == 0 {
        let mut r: Vec<String> = Vec::new();
        r.push(String::from_str("127.0.0.1"));
        assert(views(r@) =~= seq!["127.0.0.1"@]);
        r
    } else {
        ips
    }
}

} // verus!

verus! {

/// Whether the `i`th word parsed to a reachable address.
pub open spec fn parses_reachable(parsed: Seq<Option<IpAddress>>, i: int) -> bool {
    parsed[i] matches Some(a) && a.is_reachable()
}

/// The addresses kept from `hostname -I` output are exactly its reachable ones: each
/// kept word is a word that parsed to a reachable address, every such word is kept,
/// nothing else is added, and where every word is reachable all are kept, in order.
pub proof fn law_reachable_words_kept(ws: Seq<Seq<char>>, parsed: Seq<Option<IpAddress>>)
    requires
        ws.len() == parsed.len(),
    ensures
        reachable_words(ws, parsed).len() <= ws.len(),
        forall|k: int|
            0 <= k < reachable_words(ws, parsed).len() ==> exists|i: int|
                0 <= i < ws.len() && parses_reachable(parsed, i) && ws[i] == #[trigger] reachable_words(
                    ws,
                    parsed,
                )[k],
        forall|i: int|
            0 <= i < ws.len() && parses_reachable(parsed, i) ==> reachable_words(ws, parsed).contains(
                #[trigger] ws[i],
            ),
        (forall|i: int| 0 <= i < ws.len() ==> parses_reachable(parsed, i)) ==> reachable_words(
            ws,
            parsed,
        ) == ws,
    decreases ws.len(),
{
    let r = reachable_words(ws, parsed);
    if ws.len() > 0 {
        let n = ws.len() - 1;
        let fw = ws.drop_last();
        let fp = parsed.take(n as int);
        law_reachable_words_kept(fw, fp);
        let rest = reachable_words(fw, fp);
        assert forall|i: int| 0 <= i < n implies parses_reachable(fp, i) == parses_reachable(parsed, i) && fw[i] == ws[i] by {
            assert(fp[i] == parsed[i]);
        }
        if parses_reachable(parsed, n as int) {
            assert(r == rest.push(ws[n as int]));
        } else {
            assert(r == rest);
        }
        assert forall|k: int| 0 <= k < r.len() implies exists|i: int|
            0 <= i < ws.len() && parses_reachable(parsed, i) && ws[i] == #[trigger] r[k] by {
            if k < rest.len() {
                assert(r[k] == rest[k]);
                let i = choose|i: int| 0 <= i < fw.len() && parses_reachable(fp, i) && fw[i] == #[trigger] rest[k];
                assert(parses_reachable(parsed, i) && ws[i] == r[k]);
            } else {
                assert(r[k] == ws[n as int]);
            }
        }
        assert forall|i: int| 0 <= i < ws.len() && parses_reachable(parsed, i) implies r.contains(#[trigger] ws[i]) by {
            if i < n {
                assert(rest.contains(fw[i]));
                let k = choose|k: int| 0 <= k < rest.len() && rest[k] == fw[i];
                assert(r[k] == rest[k]);
            } else {
                assert(r[r.len() - 1] == ws[i]);
            }
        }
        if forall|i: int| 0 <= i < ws.len() ==> parses_reachable(parsed, i) {
            assert(forall|i: int| 0 <= i < fw.len() ==> parses_reachable(fp, i));
            assert(rest == fw);
            assert(r =~= ws);
        }
    } else {
        assert(r =~= ws);
    }
}

} // verus!

verus! {

/// The route candidates kept are exactly those that parsed as IP addresses: each
/// kept candidate parsed, every candidate that parsed is kept, and where all parsed,
/// all are kept in order.
pub proof fn law_parsed_words_kept(ws: Seq<Seq<char>>, parsed: Seq<Option<IpAddress>>)
    requires
        ws.len() == parsed.len(),
    ensures
        parsed_words(ws, parsed).len() <= ws.len(),
        forall|k: int|
            0 <= k < parsed_words(ws, parsed).len() ==> exists|i: int|
                0 <= i < ws.len() && parsed[i] is Some && ws[i] == #[trigger] parsed_words(ws, parsed)[k],
        forall|i: int|
            0 <= i < ws.len() && parsed[i] is Some ==> parsed_words(ws, parsed).contains(#[trigger] ws[i]),
        (forall|i: int| 0 <= i < ws.len() ==> parsed[i] is Some) ==> parsed_words(ws, parsed) == ws,
    decreases ws.len(),
{
    let r = parsed_words(ws, parsed);
    if ws.len() > 0 {
        let n = ws.len() - 1;
        let fw = ws.drop_last();
        let fp = parsed.take(n as int);
        law_parsed_words_kept(fw, fp);
        let rest = parsed_words(fw, fp);
        assert forall|i: int| 0 <= i < n implies fp[i] == parsed[i] && fw[i] == ws[i] by {}
        if parsed[n as int] is Some {
            assert(r == rest.push(ws[n as int]));
        } else {
            assert(r == rest);
        }
        assert forall|k: int| 0 <= k < r.len() implies exists|i: int|
            0 <= i < ws.len() && parsed[i] is Some && ws[i] == #[trigger] r[k] by {
            if k < rest.len() {
                assert(r[k] == rest[k]);
                let i = choose|i: int| 0 <= i < fw.len() && fp[i] is Some && fw[i] == #[trigger] rest[k];
                assert(parsed[i] is Some && ws[i] == r[k]);
            } else {
                assert(r[k] == ws[n as int]);
            }
        }
        assert forall|i: int| 0 <= i < ws.len() && parsed[i] is Some implies r.contains(#[trigger] ws[i]) by {
            if i < n {
                assert(fp[i] is Some);
                assert(rest.contains(fw[i]));
                let k = choose|k: int| 0 <= k < rest.len() && rest[k] == fw[i];
                assert(r[k] == rest[k]);
            } else {
                assert(r[r.len() - 1] == ws[i]);
            }
        }
        if forall|i: int| 0 <= i < ws.len() ==> parsed[i] is Some {
            assert(forall|i: int| 0 <= i < fw.len() ==> fp[i] is Some);
            assert(rest == fw);
            assert(r =~= ws);
        }
    } else {
        assert(r =~= ws);
    }
}

} // verus!
