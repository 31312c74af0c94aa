//! Session bookkeeping: the registry of live sessions the admin surface
//! snapshots, sequential session ids, the reload signal, and the clock
//! read used for timestamps.

use vstd::prelude::*;

use crate::text;

verus! {

/// One live proxied session.
#[derive(Debug, Clone, PartialEq, Eq)]
pub struct SessionInfo {
    pub id: String,
    pub client: String,
    pub host: String,
    pub upstream: String,
    pub started_at_unix_ms: u64,
}

/// Live sessions keyed by id; an insert with a known id replaces it.
pub struct SessionRegistry {
    pub sessions: Vec<SessionInfo>,
}

pub open spec fn registry_has_id(s: Seq<SessionInfo>, id: Seq<char>) -> bool {
    exists|i: int| 0 <= i < s.len() && (#[trigger] s[i]).id@ == id
}

impl SessionRegistry {
    /// An empty registry.
    pub fn new() -> (r: SessionRegistry)
        ensures
            r.sessions@.len() == 0,
    {
        SessionRegistry { sessions: Vec::new() }
    }

    /// Adds a session, replacing any session with the same id.
    pub fn add(&mut self, s: SessionInfo)
        ensures
            registry_has_id(final(self).sessions@, s.id@),
            final(self).sessions@.len() <= old(self).sessions@.len() + 1,
    {
        let n = self.sessions.len();
        let mut i: usize = 0;
        while i < n
            invariant
                i <= n == self.sessions@.len(),
                *self == *old(self),
            decreases n - i,
        {
            if text::str_eq(self.sessions[i].id.as_str(), s.id.as_str()) {
                let slot = vstd::std_specs::vec::vec_index_mut(&mut self.sessions, i);
                *slot = s;
                proof {
                    assert(self.sessions@[i as int] == s);
                }
                return;
            }
            i = i + 1;
        }
        self.sessions.push(s);
        proof {
            assert(self.sessions@[self.sessions@.len() - 1] == s);
        }
    }

    /// Removes the first session with this id, if present; every other
    /// session stays.
    pub fn remove(&mut self, id: &str)
        ensures
            !registry_has_id(old(self).sessions@, id@) ==> *final(self) == *old(self),
            registry_has_id(old(self).sessions@, id@) ==> exists|i: int|
                0 <= i < old(self).sessions@.len() && (#[trigger] old(self).sessions@[i]).id@
                    == id@ && final(self).sessions@ == old(self).sessions@.remove(i),
    {
        let n = self.sessions.len();
        let mut i: usize = 0;
        while i < n
            invariant
                i <= n == self.sessions@.len(),
                *self == *old(self),
                forall|k: int| 0 <= k < i ==> (#[trigger] self.sessions@[k]).id@ != id@,
            decreases n - i,
        {
            if text::str_eq(self.sessions[i].id.as_str(), id) {
                let ghost pre = self.sessions@;
                self.sessions.remove(i);
                proof {
                    assert(self.sessions@ =~= pre.remove(i as int));
                    assert(pre[i as int].id@ == id@);
                }
                return;
            }
            i = i + 1;
        }
    }

    /// The sessions as stored, in insertion order.
    pub fn snapshot(&self) -> (r: Vec<SessionInfo>)
        ensures
            r@ == self.sessions@,
    {
        let mut out: Vec<SessionInfo> = Vec::new();
        let n = self.sessions.len();
        let mut i: usize = 0;
        while i < n
            invariant
                i <= n == self.sessions@.len(),
                out@ == self.sessions@.subrange(0, i as int),
            decreases n - i,
        {
            let e = &self.sessions[i];
            let copy = SessionInfo {
                id: e.id.clone(),
                client: e.client.clone(),
                host: e.host.clone(),
                upstream: e.upstream.clone(),
                started_at_unix_ms: e.started_at_unix_ms,
            };
            proof {
                assert(copy == self.sessions@[i as int]);
            }
            out.push(copy);
            proof {
                assert(out@ =~= self.sessions@.subrange(0, i as int + 1));
            }
            i = i + 1;
        }
        proof {
            assert(self.sessions@.subrange(0, n as int) =~= self.sessions@);
        }
        out
    }
}

/// Relies on `std::time::SystemTime::now`: the wall clock in milliseconds
/// since the epoch. Nothing can be promised of a clock reading.
#[verifier::external_body]
pub fn now_unix_ms() -> u64 {
    std::time::SystemTime::now().duration_since(std::time::UNIX_EPOCH).unwrap_or_default()
        .as_millis() as u64
}

/// The next session id, `s<n>`, bumping the caller's sequence counter.
pub fn new_session_id(seq: &mut u64) -> (r: String)
    ensures
        *final(seq) == vstd::wrapping::u64_specs::wrapping_add(*old(seq), 1),
        r@ == seq!['s'] + text::spec_dec_digits(*old(seq) as nat),
{
    let mut out = String::new();
    text::push_char(&mut out, 's');
    text::append_decimal(&mut out, *seq);
    *seq = seq.wrapping_add(1);
    proof {
        assert(out@ =~= seq!['s'] + text::spec_dec_digits(*old(seq) as nat));
    }
    out
}

/// A monotonic reload request counter; an increment asks the reload loop
/// to re-read the configuration.
#[derive(Debug, Clone, Copy, PartialEq, Eq, Structural)]
pub struct ReloadSignal {
    pub seq: u64,
}

impl ReloadSignal {
    /// Starts at zero.
    pub fn new() -> (r: ReloadSignal)
        ensures
            r.seq == 0,
    {
        ReloadSignal { seq: 0 }
    }

    /// Requests one more reload.
    pub fn next(&mut self)
        ensures
            final(self).seq == vstd::wrapping::u64_specs::wrapping_add(old(self).seq, 1),
    {
        self.seq = self.seq.wrapping_add(1);
    }
}

/// Connection and byte counters, with per-host route hits. All counters
/// wrap on overflow and saturate where a decrement could go negative.
pub struct MetricsCollector {
    pub active: i64,
    pub total: u64,
    pub bytes_ingress: u64,
    pub bytes_egress: u64,
    pub route_hits: Vec<(String, u64)>,
}

/// A point-in-time copy of the counters.
#[derive(Debug, Clone, PartialEq, Eq)]
pub struct MetricsSnapshot {
    pub active_connections: i64,
    pub total_connections_handled: u64,
    pub bytes_ingress: u64,
    pub bytes_egress: u64,
    pub route_hits: Vec<(String, u64)>,
}

impl MetricsCollector {
    /// All counters at zero.
    pub fn new() -> (r: MetricsCollector)
        ensures
            r.active == 0,
            r.total == 0,
            r.bytes_ingress == 0,
            r.bytes_egress == 0,
            r.route_hits@.len() == 0,
    {
        MetricsCollector {
            active: 0,
            total: 0,
            bytes_ingress: 0,
            bytes_egress: 0,
            route_hits: Vec::new(),
        }
    }

    /// One more live connection, and one more handled overall.
    pub fn inc_active(&mut self)
        ensures
            final(self).active == vstd::wrapping::i64_specs::wrapping_add(old(self).active, 1),
            final(self).total == vstd::wrapping::u64_specs::wrapping_add(old(self).total, 1),
            final(self).bytes_ingress == old(self).bytes_ingress,
            final(self).bytes_egress == old(self).bytes_egress,
            final(self).route_hits == old(self).route_hits,
    {
        self.active = self.active.wrapping_add(1);
        self.total = self.total.wrapping_add(1);
    }

    /// One live connection gone.
    pub fn dec_active(&mut self)
        ensures
            final(self).active == vstd::wrapping::i64_specs::wrapping_sub(old(self).active, 1),
            final(self).total == old(self).total,
            final(self).route_hits == old(self).route_hits,
    {
        self.active = self.active.wrapping_sub(1);
    }

    /// Accounts transferred bytes in both directions.
    pub fn add_bytes(&mut self, ingress: u64, egress: u64)
        ensures
            final(self).bytes_ingress == vstd::wrapping::u64_specs::wrapping_add(
                old(self).bytes_ingress,
                ingress,
            ),
            final(self).bytes_egress == vstd::wrapping::u64_specs::wrapping_add(
                old(self).bytes_egress,
                egress,
            ),
            final(self).active == old(self).active,
            final(self).total == old(self).total,
            final(self).route_hits == old(self).route_hits,
    {
        self.bytes_ingress = self.bytes_ingress.wrapping_add(ingress);
        self.bytes_egress = self.bytes_egress.wrapping_add(egress);
    }

    /// Counts a route hit under the normalized host; empty hosts are
    /// ignored.
    pub fn add_route_hit(&mut self, host: &str)
        ensures
            text::spec_trim_lower(host@).len() == 0 ==> *final(self) == *old(self),
            final(self).active == old(self).active,
            final(self).total == old(self).total,
            final(self).bytes_ingress == old(self).bytes_ingress,
            final(self).bytes_egress == old(self).bytes_egress,
    {
        let h = text::trim_lower_str(host);
        if h.as_str().unicode_len() == 0 {
            return;
        }
        let n = self.route_hits.len();
        let mut i: usize = 0;
        while i < n
            invariant
                i <= n == self.route_hits@.len(),
                self.active == old(self).active,
                self.total == old(self).total,
                self.bytes_ingress == old(self).bytes_ingress,
                self.bytes_egress == old(self).bytes_egress,
                h@ == text::spec_trim_lower(host@),
                h@.len() > 0,
            decreases n - i,
        {
            if text::str_eq(self.route_hits[i].0.as_str(), h.as_str()) {
                let count = self.route_hits[i].1;
                let slot = vstd::std_specs::vec::vec_index_mut(&mut self.route_hits, i);
                slot.1 = count.wrapping_add(1);
                return;
            }
            i = i + 1;
        }
        self.route_hits.push((h, 1));
    }

    /// A copy of all counters.
    pub fn snapshot(&self) -> (r: MetricsSnapshot)
        ensures
            r.active_connections == self.active,
            r.total_connections_handled == self.total,
            r.bytes_ingress == self.bytes_ingress,
            r.bytes_egress == self.bytes_egress,
            r.route_hits@.len() == self.route_hits@.len(),
            forall|k: int|
                0 <= k < r.route_hits@.len() ==> (#[trigger] r.route_hits@[k]).0@
                    == self.route_hits@[k].0@ && r.route_hits@[k].1 == self.route_hits@[k].1,
    {
        let mut hits: Vec<(String, u64)> = Vec::new();
        let n = self.route_hits.len();
        let mut i: usize = 0;
        while i < n
            invariant
                i <= n == self.route_hits@.len(),
                hits@.len() == i,
                forall|k: int|
                    0 <= k < i ==> (#[trigger] hits@[k]).0@ == self.route_hits@[k].0@
                        && hits@[k].1 == self.route_hits@[k].1,
            decreases n - i,
        {
            hits.push((self.route_hits[i].0.clone(), self.route_hits[i].1));
            i = i + 1;
        }
        MetricsSnapshot {
            active_connections: self.active,
            total_connections_handled: self.total,
            bytes_ingress: self.bytes_ingress,
            bytes_egress: self.bytes_egress,
            route_hits: hits,
        }
    }
}

} // verus!
