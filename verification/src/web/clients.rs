//! The registry of dashboard clients connected over WebSocket.
use vstd::prelude::*;

use crate::error::SystemError;

verus! {

/// A connected client: its id and when it connected, in nanoseconds since the
/// Unix epoch.
#[derive(Debug, Clone)]
pub struct ClientRecord {
    pub id: String,
    pub connected_at_nanos: u128,
}

/// What is reported of a connected client.
#[derive(Debug, Clone)]
pub struct ClientInfo {
    /// The client's id
    pub id: String,
    /// When the client connected, in whole seconds since the Unix epoch
    pub connected_at: u64,
    /// For how many whole seconds the client has been connected
    pub connected_duration_seconds: u64,
}

/// The largest number of nanoseconds that a `std::time::Duration` can hold.
pub open spec fn max_duration_nanos() -> nat {
    u64::MAX as nat * 1_000_000_000 + 999_999_999
}

/// The whole seconds in `nanos` nanoseconds (`Duration::as_secs`).
pub open spec fn whole_seconds(nanos: nat) -> nat {
    nanos / 1_000_000_000
}

/// The whole seconds from `then` to `now`, both in nanoseconds; 0 where `now` is
/// earlier than `then` (a clock that went back).
pub open spec fn elapsed_seconds(then: nat, now: nat) -> nat {
    if now >= then {
        whole_seconds((now - then) as nat)
    } else {
        0
    }
}

/// The map from id to connection time that the records `rs` hold, later records
/// taking the place of earlier ones with the same id.
pub open spec fn map_of(rs: Seq<ClientRecord>) -> Map<Seq<char>, u128>
    decreases rs.len(),
{
    if rs.len() == 0 {
        Map::empty()
    } else {
        map_of(rs.drop_last()).insert(rs.last().id@, rs.last().connected_at_nanos)
    }
}

/// Whether no two of `rs` have the same id.
pub open spec fn distinct_ids(rs: Seq<ClientRecord>) -> bool {
    forall|i: int, j: int|
        0 <= i < rs.len() && 0 <= j < rs.len() && i != j ==> rs[i].id@ != rs[j].id@
}

proof fn lemma_map_of(rs: Seq<ClientRecord>)
    requires
        distinct_ids(rs),
    ensures
        map_of(rs).dom().finite(),
        map_of(rs).dom().len() == rs.len(),
        forall|k: Seq<char>|
            map_of(rs).contains_key(k) <==> exists|i: int| 0 <= i < rs.len() && (#[trigger] rs[i]).id@ == k,
        forall|i: int| 0 <= i < rs.len() ==> map_of(rs)[(#[trigger] rs[i]).id@] == rs[i].connected_at_nanos,
    decreases rs.len(),
{
    if rs.len() > 0 {
        let front = rs.drop_last();
        let n = rs.len() - 1;
        assert(distinct_ids(front)) by {
            assert forall|i: int, j: int| 0 <= i < front.len() && 0 <= j < front.len() && i != j
                implies front[i].id@ != front[j].id@ by {
                assert(front[i] == rs[i] && front[j] == rs[j]);
            }
        }
        lemma_map_of(front);
        assert(!map_of(front).contains_key(rs.last().id@)) by {
            if map_of(front).contains_key(rs.last().id@) {
                let i = choose|i: int| 0 <= i < front.len() && (#[trigger] front[i]).id@ == rs.last().id@;
                assert(front[i] == rs[i]);
                assert(rs[i].id@ != rs[n].id@);
            }
        }
        assert forall|k: Seq<char>| map_of(rs).contains_key(k) <==> exists|i: int|
            0 <= i < rs.len() && (#[trigger] rs[i]).id@ == k by {
            if map_of(front).contains_key(k) {
                let i = choose|i: int| 0 <= i < front.len() && (#[trigger] front[i]).id@ == k;
                assert(front[i] == rs[i]);
            }
            if exists|i: int| 0 <= i < rs.len() && (#[trigger] rs[i]).id@ == k {
                let i = choose|i: int| 0 <= i < rs.len() && (#[trigger] rs[i]).id@ == k;
                if i < n {
                    assert(front[i] == rs[i]);
                }
            }
        }
        assert forall|i: int| 0 <= i < rs.len() implies map_of(rs)[(#[trigger] rs[i]).id@]
            == rs[i].connected_at_nanos by {
            if i < n {
                assert(front[i] == rs[i]);
                assert(rs[i].id@ != rs[n].id@);
            }
        }
    }
}

/// Whether `c` is a lowercase hexadecimal digit.
pub open spec fn is_lower_hex(c: char) -> bool {
    ('0' <= c <= '9') || ('a' <= c <= 'f')
}

/// Whether `s` is a version 4 UUID written out hyphenated in lowercase: 36
/// characters, `-` at positions 8, 13, 18 and 23 and hexadecimal digits elsewhere,
/// the version digit `4` at position 14 and one of the variant digits `8`, `9`, `a`,
/// `b` at position 19.
pub open spec fn is_uuid_v4_text(s: Seq<char>) -> bool {
    &&& s.len() == 36
    &&& forall|i: int|
        0 <= i < 36 ==> if i == 8 || i == 13 || i == 18 || i == 23 {
            s[i] == '-'
        } else {
            is_lower_hex(#[trigger] s[i])
        }
    &&& s[14] == '4'
    &&& (s[19] == '8' || s[19] == '9' || s[19] == 'a' || s[19] == 'b')
}

/// Calls `uuid::Uuid::new_v4` and writes the id out with `to_string`. Trusted: that
/// the text is a hyphenated lowercase version 4 UUID (`new_v4` sets the version and
/// variant bits, and `Uuid`'s `Display` writes the hyphenated lowercase form). The
/// value is random and nothing else is claimed of it; `new_v4` panics only where the
/// operating system gives no random bytes.
#[verifier::external_body]
fn fresh_client_id() -> (id: String)
    ensures
        is_uuid_v4_text(id@),
{
    uuid::Uuid::new_v4().to_string()
}

/// The message of a registration refused because the registry is full.
pub open spec fn registry_full_message() -> Seq<char> {
    "Maximum number of WebSocket connections reached"@
}

/// The clients that are connected to the dashboard, at most a configured number.
pub struct ClientRegistry {
    records: Vec<ClientRecord>,
    max_clients: usize,
}

impl View for ClientRegistry {
    type V = Map<Seq<char>, u128>;

    /// Each connected client's id, with when it connected.
    closed spec fn view(&self) -> Map<Seq<char>, u128> {
        map_of(self.records@)
    }
}

impl ClientRegistry {
    /// Ids are not repeated and connection times are those of a `Duration`.
    pub closed spec fn well_formed(&self) -> bool {
        &&& distinct_ids(self.records@)
        &&& forall|i: int|
            0 <= i < self.records@.len() ==> (#[trigger] self.records@[i]).connected_at_nanos
                <= max_duration_nanos()
    }

    /// The most clients that the registry accepts.
    pub closed spec fn limit(&self) -> usize {
        self.max_clients
    }

    /// The registry holds finitely many clients.
    pub proof fn lemma_finite(&self)
        requires
            self.well_formed(),
        ensures
            self@.dom().finite(),
    {
        lemma_map_of(self.records@);
    }

    /// An empty registry that accepts at most `max_clients` clients.
    pub fn new(max_clients: usize) -> (r: Self)
        ensures
            r.well_formed(),
            r@ == Map::<Seq<char>, u128>::empty(),
            r@.dom().finite(),
            r.limit() == max_clients,
    {
        ClientRegistry { records: Vec::new(), max_clients }
    }

    /// The most clients that the registry accepts.
    pub fn max_clients(&self) -> (m: usize)
        ensures
            m == self.limit(),
    {
        self.max_clients
    }

    /// Sets the most clients that the registry accepts from now on; the clients
    /// already present stay.
    pub fn set_max_clients(&mut self, max_clients: usize)
        ensures
            final(self).limit() == max_clients,
            final(self)@ == old(self)@,
            final(self).well_formed() == old(self).well_formed(),
    {
        self.max_clients = max_clients;
    }

    /// The position of the record of `id`, if there is one.
    fn position_of(&self, id: &String) -> (r: Option<usize>)
        ensures
            match r {
                Some(j) => j < self.records@.len() && self.records@[j as int].id@ == id@,
                None => forall|i: int| 0 <= i < self.records@.len() ==> (#[trigger] self.records@[i]).id@ != id@,
            },
    {
        let mut i: usize = 0;
        while i < self.records.len()
            invariant
                i <= self.records.len(),
                forall|k: int| 0 <= k < i ==> (#[trigger] self.records@[k]).id@ != id@,
            decreases self.records.len() - i,
        {
            if self.records[i].id == *id {
                return Some(i);
            }
            i = i + 1;
        }
        None
    }

    /// Records `id` as connected at `at_nanos`, whatever the limit.
    fn put(&mut self, id: String, at_nanos: u128)
        requires
            old(self).well_formed(),
            at_nanos <= max_duration_nanos(),
        ensures
            final(self).well_formed(),
            final(self)@ == old(self)@.insert(id@, at_nanos),
            final(self).limit() == old(self).limit(),
    {
        proof {
            lemma_map_of(self.records@);
        }
        match self.position_of(&id) {
            Some(j) => {
                let ghost rs = self.records@;
                let ghost key = id@;
                self.records.set(j, ClientRecord { id, connected_at_nanos: at_nanos });
                proof {
                    let ns = self.records@;
                    assert(forall|i: int| 0 <= i < ns.len() ==> (#[trigger] ns[i]).id@ == rs[i].id@);
                    lemma_map_of(ns);
                    assert forall|k: Seq<char>| map_of(ns).contains_key(k) <==> map_of(rs).insert(
                        key,
                        at_nanos,
                    ).contains_key(k) by {
                        if exists|i: int| 0 <= i < ns.len() && (#[trigger] ns[i]).id@ == k {
                            let i = choose|i: int| 0 <= i < ns.len() && (#[trigger] ns[i]).id@ == k;
                            assert(rs[i].id@ == k);
                        }
                        if exists|i: int| 0 <= i < rs.len() && (#[trigger] rs[i]).id@ == k {
                            let i = choose|i: int| 0 <= i < rs.len() && (#[trigger] rs[i]).id@ == k;
                            assert(ns[i].id@ == k);
                        }
                        if k == key {
                            assert(ns[j as int].id@ == k);
                        }
                    }
                    assert forall|k: Seq<char>| #[trigger] map_of(ns).contains_key(k) implies map_of(ns)[k]
                        == map_of(rs).insert(key, at_nanos)[k] by {
                        let i = choose|i: int| 0 <= i < ns.len() && (#[trigger] ns[i]).id@ == k;
                        if i != j {
                            assert(ns[i] == rs[i]);
                        }
                    }
                    assert(map_of(ns) =~= map_of(rs).insert(key, at_nanos));
                }
            },
            None => {
                self.records.push(ClientRecord { id, connected_at_nanos: at_nanos });
                proof {
                    let ns = self.records@;
                    assert(ns.drop_last() =~= old(self).records@);
                }
            },
        }
    }

    /// Records that the client `id` connected at `at_nanos` (nanoseconds since the Unix
    /// epoch), and says whether it was accepted: a client already present takes the
    /// new time; a new client is accepted only while fewer clients than the limit are
    /// connected. A refused client leaves the registry as it was.
    pub fn connect(&mut self, id: String, at_nanos: u128) -> (accepted: bool)
        requires
            old(self).well_formed(),
            at_nanos <= max_duration_nanos(),
        ensures
            final(self).well_formed(),
            final(self)@.dom().finite(),
            final(self).limit() == old(self).limit(),
            accepted == (old(self)@.contains_key(id@) || old(self)@.len() < old(self).limit()),
            accepted ==> final(self)@ == old(self)@.insert(id@, at_nanos),
            !accepted ==> final(self)@ == old(self)@,
    {
        proof {
            lemma_map_of(self.records@);
        }
        let present = self.position_of(&id).is_some();
        if !present && self.records.len() >= self.max_clients {
            proof {
                assert(!old(self)@.contains_key(id@)) by {
                    if old(self)@.contains_key(id@) {
                        let i = choose|i: int|
                            0 <= i < self.records@.len() && (#[trigger] self.records@[i]).id@ == id@;
                    }
                }
            }
            return false;
        }
        proof {
            if present {
                assert(old(self)@.contains_key(id@)) by {
                    let j = choose|j: int| 0 <= j < self.records@.len() && self.records@[j].id@ == id@;
                    assert(self.records@[j].id@ == id@);
                }
            }
        }
        self.put(id, at_nanos);
        proof {
            lemma_map_of(self.records@);
        }
        true
    }

    /// Records a newly connected client under a fresh random id, connected at
    /// `now_nanos`, and gives the id; where the registry already holds as many clients
    /// as its limit, the client is refused with a web server error and the registry
    /// stays as it was.
    pub fn register(&mut self, now_nanos: u128) -> (r: Result<String, SystemError>)
        requires
            old(self).well_formed(),
            now_nanos <= max_duration_nanos(),
        ensures
            final(self).well_formed(),
            final(self)@.dom().finite(),
            final(self).limit() == old(self).limit(),
            r is Ok <==> old(self)@.len() < old(self).limit(),
            match r {
                Ok(id) => is_uuid_v4_text(id@) && final(self)@ == old(self)@.insert(id@, now_nanos),
                Err(e) => e is WebServer && e.message() == registry_full_message() && final(self)@
                    == old(self)@,
            },
    {
        proof {
            lemma_map_of(self.records@);
        }
        if self.records.len() >= self.max_clients {
            return Err(SystemError::web_server_error("Maximum number of WebSocket connections reached"));
        }
        let id = fresh_client_id();
        let accepted = self.connect(id.clone(), now_nanos);
        assert(accepted);
        Ok(id)
    }

    /// Forgets the client `id`, if it is present.
    pub fn disconnect(&mut self, id: &str)
        requires
            old(self).well_formed(),
        ensures
            final(self).well_formed(),
            final(self)@.dom().finite(),
            final(self).limit() == old(self).limit(),
            final(self)@ == old(self)@.remove(id@),
    {
        let key = String::from_str(id);
        proof {
            lemma_map_of(self.records@);
        }
        match self.position_of(&key) {
            Some(j) => {
                let ghost rs = self.records@;
                self.records.remove(j);
                proof {
                    let ns = self.records@;
                    assert(ns =~= rs.remove(j as int));
                    assert(forall|i: int| 0 <= i < ns.len() ==> #[trigger] ns[i] == (if i < j {
                        rs[i]
                    } else {
                        rs[i + 1]
                    }));
                    assert(distinct_ids(ns)) by {
                        assert forall|a: int, b: int| 0 <= a < ns.len() && 0 <= b < ns.len() && a != b
                            implies ns[a].id@ != ns[b].id@ by {
                            let a2 = if a < j { a } else { a + 1 };
                            let b2 = if b < j { b } else { b + 1 };
                            assert(ns[a] == rs[a2] && ns[b] == rs[b2]);
                        }
                    }
                    lemma_map_of(ns);
                    assert forall|k: Seq<char>| map_of(ns).contains_key(k) <==> map_of(rs).remove(
                        key@,
                    ).contains_key(k) by {
                        if exists|i: int| 0 <= i < ns.len() && (#[trigger] ns[i]).id@ == k {
                            let i = choose|i: int| 0 <= i < ns.len() && (#[trigger] ns[i]).id@ == k;
                            let i2 = if i < j { i } else { i + 1 };
                            assert(ns[i] == rs[i2]);
                            assert(i2 != j);
                        }
                        if map_of(rs).remove(key@).contains_key(k) {
                            let i = choose|i: int| 0 <= i < rs.len() && (#[trigger] rs[i]).id@ == k;
                            assert(i != j);
                            let i2 = if i < j { i } else { i - 1 };
                            assert(ns[i2] == rs[i]);
                        }
                    }
                    assert forall|k: Seq<char>| #[trigger] map_of(ns).contains_key(k) implies map_of(ns)[k]
                        == map_of(rs).remove(key@)[k] by {
                        let i = choose|i: int| 0 <= i < ns.len() && (#[trigger] ns[i]).id@ == k;
                        let i2 = if i < j { i } else { i + 1 };
                        assert(ns[i] == rs[i2]);
                    }
                    assert(map_of(ns) =~= map_of(rs).remove(key@));
                }
            },
            None => {
                proof {
                    assert(!map_of(self.records@).contains_key(key@));
                    assert(map_of(self.records@).remove(key@) =~= map_of(self.records@));
                }
            },
        }
    }

    /// The number of connected clients.
    pub fn count(&self) -> (n: usize)
        requires
            self.well_formed(),
        ensures
            n == self@.len(),
    {
        proof {
            lemma_map_of(self.records@);
        }
        self.records.len()
    }

    /// Whether a snapshot has anyone to go to: at least one client is connected.
    pub fn has_clients(&self) -> (b: bool)
        requires
            self.well_formed(),
        ensures
            b == (self@.len() > 0),
    {
        self.count() > 0
    }

    /// What is reported of each connected client at time `now_nanos` (nanoseconds
    /// since the Unix epoch): one entry per client, in no particular order, with when
    /// it connected and for how long, in whole seconds.
    pub fn client_infos(&self, now_nanos: u128) -> (r: Vec<ClientInfo>)
        requires
            self.well_formed(),
            now_nanos <= max_duration_nanos(),
        ensures
            r@.len() == self@.len(),
            forall|i: int, j: int| 0 <= i < r@.len() && 0 <= j < r@.len() && i != j ==> r@[i].id@ != r@[j].id@,
            forall|k: Seq<char>| self@.contains_key(k) <==> exists|i: int| 0 <= i < r@.len() && (#[trigger] r@[i]).id@ == k,
            forall|i: int|
                0 <= i < r@.len() ==> {
                    let at = self@[(#[trigger] r@[i]).id@] as nat;
                    &&& r@[i].connected_at == whole_seconds(at)
                    &&& r@[i].connected_duration_seconds == elapsed_seconds(at, now_nanos as nat)
                },
    {
        proof {
            lemma_map_of(self.records@);
        }
        let mut out: Vec<ClientInfo> = Vec::new();
        let mut i: usize = 0;
        while i < self.records.len()
            invariant
                i <= self.records.len(),
                self.well_formed(),
                now_nanos <= max_duration_nanos(),
                out@.len() == i,
                forall|k: int| 0 <= k < i ==> (#[trigger] out@[k]).id@ == self.records@[k].id@,
                forall|k: int|
                    0 <= k < i ==> {
                        let at = self.records@[k].connected_at_nanos as nat;
                        &&& (#[trigger] out@[k]).connected_at == whole_seconds(at)
                        &&& out@[k].connected_duration_seconds == elapsed_seconds(at, now_nanos as nat)
                    },
            decreases self.records.len() - i,
        {
            let rec = &self.records[i];
            let at = rec.connected_at_nanos;
            assert(self.records@[i as int].connected_at_nanos <= max_duration_nanos());
            let connected_at = (at / 1_000_000_000) as u64;
            let elapsed: u64 = if now_nanos >= at {
                ((now_nanos - at) / 1_000_000_000) as u64
            } else {
                0
            };
            out.push(ClientInfo { id: rec.id.clone(), connected_at, connected_duration_seconds: elapsed });
            i = i + 1;
        }
        proof {
            let rs = self.records@;
            assert forall|k: Seq<char>| self@.contains_key(k) <==> exists|i: int|
                0 <= i < out@.len() && (#[trigger] out@[i]).id@ == k by {
                if self@.contains_key(k) {
                    let i = choose|i: int| 0 <= i < rs.len() && (#[trigger] rs[i]).id@ == k;
                    assert(out@[i].id@ == k);
                }
                if exists|i: int| 0 <= i < out@.len() && (#[trigger] out@[i]).id@ == k {
                    let i = choose|i: int| 0 <= i < out@.len() && (#[trigger] out@[i]).id@ == k;
                    assert(rs[i].id@ == k);
                }
            }
            assert forall|i: int| 0 <= i < out@.len() implies {
                let at = self@[(#[trigger] out@[i]).id@] as nat;
                &&& out@[i].connected_at == whole_seconds(at)
                &&& out@[i].connected_duration_seconds == elapsed_seconds(at, now_nanos as nat)
            } by {
                assert(out@[i].id@ == rs[i].id@);
            }
        }
        out
    }
}

/// A client that connects and then disconnects leaves the registry as it was,
/// when it was not connected before.
pub proof fn law_connect_then_disconnect(before: Map<Seq<char>, u128>, id: Seq<char>, at: u128)
    requires
        !before.contains_key(id),
    ensures
        before.insert(id, at).remove(id) == before,
{
    assert(before.insert(id, at).remove(id) =~= before);
}

/// Connecting a client that was not connected adds one to the count; connecting
/// one that was connected leaves the count as it was.
pub proof fn law_connect_count(before: Map<Seq<char>, u128>, id: Seq<char>, at: u128)
    requires
        before.dom().finite(),
    ensures
        before.contains_key(id) ==> before.insert(id, at).len() == before.len(),
        !before.contains_key(id) ==> before.insert(id, at).len() == before.len() + 1,
{
    if before.contains_key(id) {
        assert(before.insert(id, at).dom() =~= before.dom());
    }
}

} // verus!

verus! {

/// A registration accepted below the limit leaves the registry within the limit.
pub proof fn law_register_within_limit(before: Map<Seq<char>, u128>, limit: usize, id: Seq<char>, at: u128)
    requires
        before.dom().finite(),
        before.len() < limit,
    ensures
        before.insert(id, at).len() <= limit,
{
    law_connect_count(before, id, at);
}

} // verus!
