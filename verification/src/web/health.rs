//! The report of the health check endpoint.
use vstd::prelude::*;

verus! {

/// What the health check endpoint answers.
#[derive(Debug, Clone)]
pub struct HealthReport {
    /// Always `ok` while the service answers
    pub status: String,
    /// The service's name, `life-of-pi`
    pub service: String,
    /// The version of the running program
    pub version: String,
    /// When the report was made, in RFC 3339 form (UTC)
    pub timestamp: String,
}

/// The RFC 3339 text that chrono writes for the UTC time `secs` seconds and `nanos`
/// nanoseconds after the Unix epoch, where chrono can represent that time.
pub uninterp spec fn rfc3339_text(secs: i64, nanos: u32) -> Option<Seq<char>>;

/// Calls `std::time::SystemTime::now` and its `duration_since(UNIX_EPOCH)`, and gives
/// the duration as whole seconds and the nanoseconds beyond them; `None` where the
/// clock reads earlier than the epoch. Trusted: that the nanoseconds are less than one
/// billion (`Duration::subsec_nanos`); the time itself depends on the clock.
#[verifier::external_body]
fn unix_time_now() -> (r: Option<(u64, u32)>)
    ensures
        r matches Some((_, n)) ==> n < 1_000_000_000,
{
    match std::time::SystemTime::now().duration_since(std::time::UNIX_EPOCH) {
        Ok(d) => Some((d.as_secs(), d.subsec_nanos())),
        Err(_) => None,
    }
}

/// Calls `chrono::DateTime::from_timestamp(secs, nanos)` and writes the time with
/// `DateTime::to_rfc3339`; `None` where chrono cannot represent the time. Trusted: that
/// the answer depends on `secs` and `nanos` alone (it is named `rfc3339_text`).
#[verifier::external_body]
fn utc_rfc3339(secs: i64, nanos: u32) -> (r: Option<String>)
    ensures
        match r {
            Some(t) => rfc3339_text(secs, nanos) == Some(t@),
            None => rfc3339_text(secs, nanos) is None,
        },
{
    match chrono::DateTime::from_timestamp(secs, nanos) {
        Some(d) => Some(d.to_rfc3339()),
        None => None,
    }
}

impl HealthReport {
    /// The report of a healthy service of version `version`, made at the time `secs`
    /// seconds and `nanos` nanoseconds after the Unix epoch; `None` where that time
    /// cannot be written as an RFC 3339 date.
    pub fn at(version: &str, secs: u64, nanos: u32) -> (r: Option<HealthReport>)
        ensures
            r is Some <==> secs <= i64::MAX && rfc3339_text(secs as i64, nanos) is Some,
            r matches Some(h) ==> {
                &&& h.status@ == "ok"@
                &&& h.service@ == "life-of-pi"@
                &&& h.version@ == version@
                &&& rfc3339_text(secs as i64, nanos) == Some(h.timestamp@)
            },
    {
        if secs > i64::MAX as u64 {
            return None;
        }
        match utc_rfc3339(secs as i64, nanos) {
            Some(timestamp) => Some(
                HealthReport {
                    status: String::from_str("ok"),
                    service: String::from_str("life-of-pi"),
                    version: String::from_str(version),
                    timestamp,
                },
            ),
            None => None,
        }
    }

    /// The report of a healthy service of version `version`, made now; `None` where
    /// the clock reads earlier than the Unix epoch or beyond what chrono represents.
    pub fn now(version: &str) -> (r: Option<HealthReport>)
        ensures
            r matches Some(h) ==> {
                &&& h.status@ == "ok"@
                &&& h.service@ == "life-of-pi"@
                &&& h.version@ == version@
                &&& exists|secs: i64, nanos: u32|
                    0 <= secs && nanos < 1_000_000_000 && #[trigger] rfc3339_text(secs, nanos)
                        == Some(h.timestamp@)
            },
    {
        match unix_time_now() {
            Some((secs, nanos)) => HealthReport::at(version, secs, nanos),
            None => None,
        }
    }
}

} // verus!
