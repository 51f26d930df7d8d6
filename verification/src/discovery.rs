//! Bookkeeping of the mDNS browse: which servers are currently known, when
//! each was last seen, and which discovery events a new observation or a
//! staleness sweep emits. The browse itself, the clock, and the event
//! channel live outside the crate; they feed observations in and carry the
//! returned events out. Times are milliseconds on one monotonic clock.
use vstd::prelude::*;

verus! {

/// A server goes stale and is evicted when it has not been seen for this
/// many milliseconds.
pub const STALE_THRESHOLD_MS: u64 = 30000;

/// How often the browse channel is polled, in milliseconds.
pub const POLL_INTERVAL_MS: u64 = 500;

/// One discovered server: its `host:port` string, a display name, and when
/// it was last seen.
#[derive(Debug, Clone, PartialEq, Eq)]
pub struct DiscoveredServer {
    pub host: String,
    pub name: String,
    pub last_seen: u64,
}

#[derive(Debug, Clone, Copy, PartialEq, Eq, Structural)]
pub enum DiscoveryEventType {
    ServerDiscovered,
    ServerLost,
}

/// Whether a server is stale at `now`: unseen for longer than the
/// threshold.
pub open spec fn spec_stale(last_seen: u64, now: u64) -> bool {
    now > last_seen && now - last_seen > STALE_THRESHOLD_MS
}

/// Each host appears at most once.
pub open spec fn spec_hosts_unique(servers: Seq<DiscoveredServer>) -> bool {
    forall|i: int, j: int|
        0 <= i < j < servers.len() ==> (#[trigger] servers[i]).host@ != (
        #[trigger] servers[j]).host@
}

/// The currently known servers, in first-discovery order, one entry per
/// host.
#[derive(Debug)]
pub struct DiscoveryState {
    pub servers: Vec<DiscoveredServer>,
}

impl DiscoveryState {
    pub open spec fn wf(&self) -> bool {
        spec_hosts_unique(self.servers@)
    }

    pub open spec fn spec_knows(&self, host: Seq<char>) -> bool {
        exists|i: int| 0 <= i < self.servers@.len() && (#[trigger] self.servers@[i]).host@ == host
    }

    /// No servers known yet.
    pub fn new() -> (r: DiscoveryState)
        ensures
            r.wf(),
            r.servers@.len() == 0,
    {
        DiscoveryState { servers: Vec::new() }
    }

    /// Takes one resolved service in: an address of the local machine is
    /// ignored; a known host only refreshes its entry; a new host is
    /// remembered and returned, to be announced as discovered.
    pub fn observe(&mut self, host: String, name: String, now: u64, is_local: bool) -> (r: Option<
        DiscoveredServer,
    >)
        requires
            old(self).wf(),
        ensures
            final(self).wf(),
            is_local ==> *final(self) == *old(self) && r is None,
            !is_local && old(self).spec_knows(host@) ==> {
                &&& r is None
                &&& final(self).servers@.len() == old(self).servers@.len()
                &&& forall|i: int|
                    0 <= i < old(self).servers@.len() ==> {
                        let pre = #[trigger] old(self).servers@[i];
                        let post = final(self).servers@[i];
                        if pre.host@ == host@ {
                            post.host@ == host@ && post.name@ == name@ && post.last_seen == now
                        } else {
                            post == pre
                        }
                    }
            },
            !is_local && !old(self).spec_knows(host@) ==> {
                &&& r matches Some(server) && server.host@ == host@ && server.name@ == name@
                    && server.last_seen == now
                &&& final(self).servers@.len() == old(self).servers@.len() + 1
                &&& forall|i: int|
                    0 <= i < old(self).servers@.len() ==> final(self).servers@[i] == old(
                        self,
                    ).servers@[i]
                &&& final(self).servers@.last().host@ == host@
                &&& final(self).servers@.last().name@ == name@
                &&& final(self).servers@.last().last_seen == now
            },
    {
        if is_local {
            return None;
        }
        let n = self.servers.len();
        let mut i: usize = 0;
        while i < n
            invariant
                !is_local,
                old(self).wf(),
                self == old(self),
                n == self.servers@.len(),
                i <= n,
                forall|j: int| 0 <= j < i ==> (#[trigger] self.servers@[j]).host@ != host@,
            decreases n - i,
        {
            let matches_host = {
                let entry = &self.servers[i];
                string_equal(&entry.host, &host)
            };
            if matches_host {
                proof {
                    assert(old(self).servers@[i as int].host@ == host@);
                }
                let updated = DiscoveredServer { host, name, last_seen: now };
                self.servers[i] = updated;
                proof {
                    assert forall|a: int, b: int|
                        0 <= a < b < self.servers@.len() implies (#[trigger] self.servers@[a]).host@
                        != (#[trigger] self.servers@[b]).host@ by {
                        assert(old(self).servers@[a].host@ != old(self).servers@[b].host@);
                        if b == i {
                            assert(old(self).servers@[a].host@ != host@);
                        }
                        if a == i {
                            assert(old(self).servers@[b].host@ != host@);
                        }
                    }
                }
                return None;
            }
            i = i + 1;
        }
        let announced = DiscoveredServer {
            host: clone_string(&host),
            name: clone_string(&name),
            last_seen: now,
        };
        let server = DiscoveredServer { host, name, last_seen: now };
        let ghost pre = self.servers@;
        self.servers.push(server);
        proof {
            assert forall|a: int, b: int|
                0 <= a < b < self.servers@.len() implies (#[trigger] self.servers@[a]).host@ != (
            #[trigger] self.servers@[b]).host@ by {
                if b < self.servers@.len() - 1 {
                    assert(pre[a].host@ != pre[b].host@);
                } else {
                    assert(self.servers@[a].host@ != host@);
                }
            }
        }
        Some(announced)
    }

    /// Sweeps out every server unseen for longer than the threshold,
    /// keeping the rest in order; the removed servers are returned, to be
    /// announced as lost.
    pub fn evict_stale(&mut self, now: u64) -> (lost: Vec<DiscoveredServer>)
        requires
            old(self).wf(),
        ensures
            final(self).wf(),
            final(self).servers@ == old(self).servers@.filter(
                |s: DiscoveredServer| !spec_stale(s.last_seen, now),
            ),
            lost@ == old(self).servers@.filter(|s: DiscoveredServer| spec_stale(s.last_seen, now)),
    {
        let ghost pre = self.servers@;
        let ghost keep = |s: DiscoveredServer| !spec_stale(s.last_seen, now);
        let ghost stale_pred = |s: DiscoveredServer| spec_stale(s.last_seen, now);
        let mut lost: Vec<DiscoveredServer> = Vec::new();
        let mut i: usize = 0;
        let ghost mut processed: int = 0;
        proof {
            assert(pre.take(0) =~= Seq::<DiscoveredServer>::empty());
            reveal(Seq::filter);
            assert(self.servers@ =~= pre.take(0).filter(keep) + pre.skip(0));
        }
        while i < self.servers.len()
            invariant
                0 <= processed <= pre.len(),
                i == pre.take(processed).filter(keep).len(),
                i <= self.servers@.len(),
                self.servers@ == pre.take(processed).filter(keep) + pre.skip(processed),
                lost@ == pre.take(processed).filter(stale_pred),
                keep == (|s: DiscoveredServer| !spec_stale(s.last_seen, now)),
                stale_pred == (|s: DiscoveredServer| spec_stale(s.last_seen, now)),
            decreases pre.len() - processed,
        {
            proof {
                assert(self.servers@[i as int] == pre.skip(processed)[0]);
                assert(pre.skip(processed)[0] == pre[processed]);
                assert(pre.take(processed + 1).drop_last() =~= pre.take(processed));
                assert(pre.take(processed + 1).last() == pre[processed]);
                reveal(Seq::filter);
            }
            let stale = {
                let entry = &self.servers[i];
                now > entry.last_seen && now - entry.last_seen > STALE_THRESHOLD_MS
            };
            if stale {
                let removed = self.servers.remove(i);
                lost.push(removed);
                proof {
                    assert(self.servers@ =~= pre.take(processed + 1).filter(keep) + pre.skip(
                        processed + 1,
                    ));
                }
            } else {
                i = i + 1;
                proof {
                    assert(self.servers@ =~= pre.take(processed + 1).filter(keep) + pre.skip(
                        processed + 1,
                    ));
                }
            }
            proof {
                processed = processed + 1;
            }
        }
        proof {
            assert(processed == pre.len());
            assert(pre.take(processed) =~= pre);
            assert(pre.skip(processed) =~= Seq::<DiscoveredServer>::empty());
            assert(self.servers@ =~= pre.filter(keep));
            lemma_filter_hosts_unique(pre, keep);
        }
        lost
    }

    /// Copies of all known servers, in first-discovery order.
    pub fn get_all_servers(&self) -> (r: Vec<DiscoveredServer>)
        ensures
            r@.len() == self.servers@.len(),
            forall|i: int|
                0 <= i < r@.len() ==> (#[trigger] r@[i]).host@ == self.servers@[i].host@
                    && r@[i].name@ == self.servers@[i].name@ && r@[i].last_seen
                    == self.servers@[i].last_seen,
    {
        let n = self.servers.len();
        let mut out: Vec<DiscoveredServer> = Vec::new();
        let mut i: usize = 0;
        while i < n
            invariant
                n == self.servers@.len(),
                i <= n,
                out@.len() == i,
                forall|j: int|
                    0 <= j < i ==> (#[trigger] out@[j]).host@ == self.servers@[j].host@
                        && out@[j].name@ == self.servers@[j].name@ && out@[j].last_seen
                        == self.servers@[j].last_seen,
            decreases n - i,
        {
            let entry = &self.servers[i];
            let copy = DiscoveredServer {
                host: clone_string(&entry.host),
                name: clone_string(&entry.name),
                last_seen: entry.last_seen,
            };
            out.push(copy);
            i = i + 1;
        }
        out
    }
}

/// A filtered server sequence keeps its hosts unique.
proof fn lemma_filter_hosts_unique(
    servers: Seq<DiscoveredServer>,
    pred: spec_fn(DiscoveredServer) -> bool,
)
    requires
        spec_hosts_unique(servers),
    ensures
        spec_hosts_unique(servers.filter(pred)),
    decreases servers.len(),
{
    reveal(Seq::filter);
    if servers.len() > 0 {
        assert forall|a: int, b: int|
            0 <= a < b < servers.drop_last().len() implies (
        #[trigger] servers.drop_last()[a]).host@ != (#[trigger] servers.drop_last()[b]).host@ by {
            assert(servers[a].host@ != servers[b].host@);
        }
        lemma_filter_hosts_unique(servers.drop_last(), pred);
        if pred(servers.last()) {
            let filtered = servers.filter(pred);
            let prev = servers.drop_last().filter(pred);
            assert(filtered == prev.push(servers.last()));
            assert forall|a: int, b: int| 0 <= a < b < filtered.len() implies (
            #[trigger] filtered[a]).host@ != (#[trigger] filtered[b]).host@ by {
                if b < filtered.len() - 1 {
                    assert(prev[a].host@ != prev[b].host@);
                } else {
                    lemma_filter_element_is_member(servers.drop_last(), pred, a);
                    let j = choose|j: int|
                        0 <= j < servers.drop_last().len() && servers.drop_last()[j] == prev[a];
                    assert(servers[j].host@ != servers.last().host@);
                }
            }
        }
    }
}

/// Every element of a filtered sequence occurs in the source.
proof fn lemma_filter_element_is_member<A>(s: Seq<A>, pred: spec_fn(A) -> bool, i: int)
    requires
        0 <= i < s.filter(pred).len(),
    ensures
        exists|j: int| 0 <= j < s.len() && #[trigger] s[j] == s.filter(pred)[i],
    decreases s.len(),
{
    reveal(Seq::filter);
    if s.len() > 0 {
        let prev = s.drop_last().filter(pred);
        if i < prev.len() {
            lemma_filter_element_is_member(s.drop_last(), pred, i);
            let j = choose|j: int| 0 <= j < s.drop_last().len() && #[trigger] s.drop_last()[j] == prev[i];
            assert(s[j] == s.filter(pred)[i]);
        } else {
            assert(s[s.len() - 1] == s.filter(pred)[i]);
        }
    }
}

/// Whether two strings hold the same characters.
pub fn string_equal(a: &String, b: &String) -> (r: bool)
    ensures
        r == (a@ == b@),
{
    a.eq(b)
}

/// A field-for-field copy of a string./// A field-for-field copy of a string.
pub fn clone_string(s: &String) -> (r: String)
    ensures
        r@ == s@,
{
    s.clone()
}

} // verus!
