use vstd::prelude::*;

use crate::types::Endpoint;

verus! {

/// Per-endpoint freshness record: the monotonic-clock instant, in
/// milliseconds, of the last inbound observation.
#[derive(Clone, Copy)]
pub struct SourceAddr {
    pub last: u128,
}

/// A SNAT source: the stable address the proxied flow appears to come from,
/// and the set of remote endpoints that traffic for it was last seen from.
/// The raw socket bound to the SNAT address lives with the I/O layer.
pub struct Source {
    pub ip: u32,
    pub port: u16,
    pub addrs: Vec<(Endpoint, SourceAddr)>,
}

/// Whether `s` holds an entry for endpoint `e`.
pub open spec fn has_endpoint(s: Seq<(Endpoint, SourceAddr)>, e: Endpoint) -> bool {
    exists|i: int| 0 <= i < s.len() && s[i].0 == e
}

/// The index of the entry for `e`; meaningful when keys are unique.
pub open spec fn endpoint_index(s: Seq<(Endpoint, SourceAddr)>, e: Endpoint) -> int {
    choose|i: int| 0 <= i < s.len() && s[i].0 == e
}

/// Endpoint keys occur at most once.
pub open spec fn unique_endpoints(s: Seq<(Endpoint, SourceAddr)>) -> bool {
    forall|i: int, j: int| 0 <= i < j < s.len() ==> s[i].0 != s[j].0
}

impl Source {
    pub open spec fn wf(self) -> bool {
        unique_endpoints(self.addrs@)
    }

    /// A fresh source with no observed endpoints.
    pub fn new(ip: u32, port: u16) -> (r: Self)
        ensures
            r.wf(),
            r.ip == ip && r.port == port,
            r.addrs@.len() == 0,
    {
        Source { ip, port, addrs: Vec::new() }
    }

    /// Finds the entry for `e`.
    fn find(&self, e: Endpoint) -> (r: Option<usize>)
        requires
            self.wf(),
        ensures
            r is Some <==> has_endpoint(self.addrs@, e),
            r is Some ==> 0 <= r->Some_0 < self.addrs@.len() && self.addrs@[
                r->Some_0 as int
            ].0 == e && r->Some_0 == endpoint_index(self.addrs@, e),
    {
        let n = self.addrs.len();
        let mut i: usize = 0;
        while i < n
            invariant
                n == self.addrs@.len(),
                0 <= i <= n,
                forall|j: int| 0 <= j < i ==> self.addrs@[j].0 != e,
                self.wf(),
            decreases n - i,
        {
            if self.addrs[i].0 == e {
                return Some(i);
            }
            i = i + 1;
        }
        None
    }

    /// Records an inbound observation from `e` at instant `now`: refreshes the
    /// existing entry, or inserts one. Every other entry is untouched.
    pub fn attach(&mut self, e: Endpoint, now: u128)
        requires
            old(self).wf(),
        ensures
            final(self).wf(),
            final(self).ip == old(self).ip && final(self).port == old(self).port,
            has_endpoint(final(self).addrs@, e),
            final(self).addrs@[endpoint_index(final(self).addrs@, e)].1.last == now,
            has_endpoint(old(self).addrs@, e) ==> final(self).addrs@ == old(self).addrs@.update(
                endpoint_index(old(self).addrs@, e),
                (e, SourceAddr { last: now }),
            ),
            !has_endpoint(old(self).addrs@, e) ==> final(self).addrs@ == old(self).addrs@.push(
                (e, SourceAddr { last: now }),
            ),
    {
        match self.find(e) {
            Some(i) => {
                self.addrs.set(i, (e, SourceAddr { last: now }));
                proof {
                    let k = endpoint_index(self.addrs@, e);
                    assert(self.addrs@[i as int].0 == e);
                    assert(k == i);
                }
            },
            None => {
                self.addrs.push((e, SourceAddr { last: now }));
                proof {
                    let s = self.addrs@;
                    assert(s[s.len() - 1].0 == e);
                    let k = endpoint_index(s, e);
                    assert(0 <= k < s.len() && s[k].0 == e);
                    assert(k == s.len() - 1);
                }
            },
        }
    }

    /// Removes every endpoint whose last observation is older than `ttl`
    /// milliseconds at instant `now`; the surviving entries keep their order
    /// and their records.
    pub fn sweep(&mut self, ttl: u128, now: u128)
        requires
            old(self).wf(),
        ensures
            final(self).wf(),
            final(self).ip == old(self).ip && final(self).port == old(self).port,
            final(self).addrs@ == old(self).addrs@.filter(
                |p: (Endpoint, SourceAddr)| now - p.1.last <= ttl,
            ),
    {
        let n = self.addrs.len();
        let mut kept: Vec<(Endpoint, SourceAddr)> = Vec::new();
        let mut i: usize = 0;
        while i < n
            invariant
                n == self.addrs@.len(),
                0 <= i <= n,
                self.wf(),
                kept@ == self.addrs@.subrange(0, i as int).filter(
                    |p: (Endpoint, SourceAddr)| now - p.1.last <= ttl,
                ),
            decreases n - i,
        {
            let entry = self.addrs[i];
            proof {
                assert(self.addrs@.subrange(0, i + 1).drop_last() =~= self.addrs@.subrange(
                    0,
                    i as int,
                ));
                reveal_with_fuel(Seq::filter, 2);
                assert(self.addrs@.subrange(0, i + 1).last() == self.addrs@[i as int]);
            }
            let keep = if entry.1.last > now {
                true
            } else {
                now - entry.1.last <= ttl
            };
            if keep {
                kept.push(entry);
            }
            i = i + 1;
        }
        proof {
            assert(self.addrs@.subrange(0, n as int) =~= self.addrs@);
        }
        self.addrs = kept;
        proof {
            lemma_filter_unique(
                old(self).addrs@,
                |p: (Endpoint, SourceAddr)| now - p.1.last <= ttl,
            );
        }
    }
}

/// A filtered sequence of unique-keyed entries keeps its keys unique.
proof fn lemma_filter_unique(
    s: Seq<(Endpoint, SourceAddr)>,
    f: spec_fn((Endpoint, SourceAddr)) -> bool,
)
    requires
        unique_endpoints(s),
    ensures
        unique_endpoints(s.filter(f)),
    decreases s.len(),
{
    reveal(Seq::filter);
    if s.len() > 0 {
        let rest = s.drop_last();
        let last = s.last();
        lemma_filter_unique(rest, f);
        if f(last) {
            assert forall|i: int|
                0 <= i < rest.filter(f).len() implies rest.filter(f)[i].0 != last.0 by {
                let x = rest.filter(f)[i];
                assert(rest.filter(f).contains(x));
                rest.lemma_filter_contains_rev(f, x);
                let j = choose|j: int| 0 <= j < rest.len() && rest[j] == x;
                assert(s[j] == x && s[s.len() - 1] == last);
            }
            assert(s.filter(f) == rest.filter(f).push(last));
        } else {
            assert(s.filter(f) == rest.filter(f));
        }
    }
}

/// A refresh never moves an endpoint's record backwards: with a monotonic
/// clock — `now` at least the recorded instant — the record after `attach`
/// is no older than before.
pub proof fn lemma_last_seen_monotonic(pre: Source, post: Source, e: Endpoint, now: u128)
    requires
        pre.wf(),
        has_endpoint(pre.addrs@, e),
        now >= pre.addrs@[endpoint_index(pre.addrs@, e)].1.last,
        post.addrs@ == pre.addrs@.update(
            endpoint_index(pre.addrs@, e),
            (e, SourceAddr { last: now }),
        ),
    ensures
        has_endpoint(post.addrs@, e),
        post.addrs@[endpoint_index(post.addrs@, e)].1.last >= pre.addrs@[endpoint_index(
            pre.addrs@,
            e,
        )].1.last,
{
    let i = endpoint_index(pre.addrs@, e);
    assert(post.addrs@[i].0 == e);
    let j = endpoint_index(post.addrs@, e);
    assert(0 <= j < post.addrs@.len() && post.addrs@[j].0 == e);
    if i != j {
        assert(pre.addrs@[j].0 == e);
    }
}

/// Whether `s` holds an entry for destination port `p`.
pub open spec fn has_port(s: Seq<(u16, Source)>, p: u16) -> bool {
    exists|i: int| 0 <= i < s.len() && s[i].0 == p
}

/// The index of the entry for `p`; meaningful when keys are unique.
pub open spec fn port_index(s: Seq<(u16, Source)>, p: u16) -> int {
    choose|i: int| 0 <= i < s.len() && s[i].0 == p
}

/// Destination-port keys occur at most once.
pub open spec fn unique_ports(s: Seq<(u16, Source)>) -> bool {
    forall|i: int, j: int| 0 <= i < j < s.len() ==> s[i].0 != s[j].0
}

/// The SNAT source table: one source per intercepted destination port.
pub struct SourceTable {
    pub entries: Vec<(u16, Source)>,
}

impl SourceTable {
    pub open spec fn wf(self) -> bool {
        &&& unique_ports(self.entries@)
        &&& forall|i: int|
            0 <= i < self.entries@.len() ==> (#[trigger] self.entries@[i]).1.wf() && self.entries@[
                i
            ].1.port == self.entries@[i].0
    }

    pub fn new() -> (r: Self)
        ensures
            r.wf(),
            r.entries@.len() == 0,
    {
        SourceTable { entries: Vec::new() }
    }

    /// Finds the entry for destination port `p`.
    pub fn find(&self, p: u16) -> (r: Option<usize>)
        requires
            self.wf(),
        ensures
            r is Some <==> has_port(self.entries@, p),
            r is Some ==> 0 <= r->Some_0 < self.entries@.len() && self.entries@[
                r->Some_0 as int
            ].0 == p && r->Some_0 == port_index(self.entries@, p),
    {
        let n = self.entries.len();
        let mut i: usize = 0;
        while i < n
            invariant
                n == self.entries@.len(),
                0 <= i <= n,
                forall|j: int| 0 <= j < i ==> self.entries@[j].0 != p,
                self.wf(),
            decreases n - i,
        {
            if self.entries[i].0 == p {
                return Some(i);
            }
            i = i + 1;
        }
        None
    }

    /// Records an inbound packet for destination `dest` seen from `remote` at
    /// instant `now`: the source for `dest.port` is created on first
    /// observation, and either way the remote endpoint's record is refreshed.
    /// No other port's source changes.
    pub fn observe(&mut self, dest: Endpoint, remote: Endpoint, now: u128)
        requires
            old(self).wf(),
        ensures
            final(self).wf(),
            has_port(final(self).entries@, dest.port),
            ({
                let k = port_index(final(self).entries@, dest.port);
                let src = final(self).entries@[k].1;
                &&& src.port == dest.port
                &&& has_endpoint(src.addrs@, remote)
                &&& src.addrs@[endpoint_index(src.addrs@, remote)].1.last == now
            }),
            !has_port(old(self).entries@, dest.port) ==> ({
                let src = final(self).entries@.last().1;
                &&& final(self).entries@ == old(self).entries@.push((dest.port, src))
                &&& src.ip == dest.ip
                &&& src.addrs@ =~= seq![(remote, SourceAddr { last: now })]
            }),
            has_port(old(self).entries@, dest.port) ==> ({
                let k = port_index(old(self).entries@, dest.port);
                let pre = old(self).entries@[k].1;
                let src = final(self).entries@[k].1;
                &&& final(self).entries@ == old(self).entries@.update(k, (dest.port, src))
                &&& src.ip == pre.ip
                &&& (has_endpoint(pre.addrs@, remote) ==> src.addrs@ == pre.addrs@.update(
                    endpoint_index(pre.addrs@, remote),
                    (remote, SourceAddr { last: now }),
                ))
                &&& (!has_endpoint(pre.addrs@, remote) ==> src.addrs@ == pre.addrs@.push(
                    (remote, SourceAddr { last: now }),
                ))
            }),
    {
        match self.find(dest.port) {
            Some(i) => {
                let ghost pre = self.entries@;
                let mut entry = self.entries.remove(i);
                entry.1.attach(remote, now);
                self.entries.insert(i, entry);
                proof {
                    assert(self.entries@ =~= pre.update(i as int, self.entries@[i as int]));
                    assert(port_index(self.entries@, dest.port) == i);
                }
            },
            None => {
                let mut src = Source::new(dest.ip, dest.port);
                src.attach(remote, now);
                self.entries.push((dest.port, src));
                proof {
                    let s = self.entries@;
                    assert(s[s.len() - 1].0 == dest.port);
                    assert(port_index(s, dest.port) == s.len() - 1);
                }
            },
        }
    }

    /// Prunes every source's endpoint records that are older than `ttl`
    /// milliseconds at instant `now`. Sources themselves are never removed.
    pub fn sweep(&mut self, ttl: u128, now: u128)
        requires
            old(self).wf(),
        ensures
            final(self).wf(),
            final(self).entries@.len() == old(self).entries@.len(),
            forall|i: int|
                0 <= i < old(self).entries@.len() ==> ({
                    let pre = old(self).entries@[i];
                    let post = #[trigger] final(self).entries@[i];
                    &&& post.0 == pre.0
                    &&& post.1.ip == pre.1.ip
                    &&& post.1.port == pre.1.port
                    &&& post.1.addrs@ == pre.1.addrs@.filter(
                        |p: (Endpoint, SourceAddr)| now - p.1.last <= ttl,
                    )
                }),
    {
        let n = self.entries.len();
        let mut i: usize = 0;
        while i < n
            invariant
                n == self.entries@.len() == old(self).entries@.len(),
                0 <= i <= n,
                self.wf(),
                forall|j: int| i <= j < n ==> self.entries@[j] == old(self).entries@[j],
                forall|j: int|
                    0 <= j < i ==> ({
                        let pre = old(self).entries@[j];
                        let post = #[trigger] self.entries@[j];
                        &&& post.0 == pre.0
                        &&& post.1.ip == pre.1.ip
                        &&& post.1.port == pre.1.port
                        &&& post.1.addrs@ == pre.1.addrs@.filter(
                            |p: (Endpoint, SourceAddr)| now - p.1.last <= ttl,
                        )
                    }),
            decreases n - i,
        {
            let ghost pre = self.entries@;
            let mut entry = self.entries.remove(i);
            entry.1.sweep(ttl, now);
            self.entries.insert(i, entry);
            proof {
                assert(self.entries@ =~= pre.update(i as int, self.entries@[i as int]));
            }
            i = i + 1;
        }
    }
}

} // verus!
