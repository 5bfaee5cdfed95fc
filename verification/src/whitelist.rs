use vstd::prelude::*;

use hmac::{Hmac, KeyInit, Mac};
use sha2::Sha256;

use crate::types::Stats;

verus! {

/// Everything the admission protocol needs from the command line.
pub struct WhitelistConfiguration {
    pub server: bool,
    pub remote: Option<crate::types::Endpoint>,
    pub secret: Option<Vec<u8>>,
}

impl core::convert::From<crate::types::Cli> for WhitelistConfiguration {
    fn from(cli: crate::types::Cli) -> (r: Self) {
        WhitelistConfiguration { server: cli.server, remote: cli.remote, secret: cli.secret }
    }
}

impl vstd::std_specs::convert::FromSpecImpl<crate::types::Cli> for WhitelistConfiguration {
    open spec fn obeys_from_spec() -> bool {
        true
    }

    open spec fn from_spec(cli: crate::types::Cli) -> Self {
        WhitelistConfiguration { server: cli.server, remote: cli.remote, secret: cli.secret }
    }
}

/// The decimal ASCII digits of a non-negative number, most significant
/// first, without leading zeros.
pub open spec fn ascii_digits(n: int) -> Seq<u8>
    decreases n,
{
    if n < 10 {
        seq![(n % 10 + 48) as u8]
    } else {
        ascii_digits(n / 10) + seq![(n % 10 + 48) as u8]
    }
}

/// Renders a number the way the beacon writes timestamps: decimal ASCII.
pub fn u64_to_ascii(n: u64) -> (r: Vec<u8>)
    ensures
        r@ == ascii_digits(n as int),
    decreases n,
{
    if n < 10 {
        let mut v: Vec<u8> = Vec::new();
        v.push((n as u8) + 48);
        proof {
            assert(v@ =~= ascii_digits(n as int));
        }
        v
    } else {
        let mut v = u64_to_ascii(n / 10);
        v.push((n % 10) as u8 + 48);
        proof {
            assert(v@ =~= ascii_digits(n as int));
        }
        v
    }
}

/// The 32-byte HMAC-SHA-256 tag of a message under a key; a function of the
/// two byte strings alone.
pub uninterp spec fn hmac_sha256(key: Seq<u8>, message: Seq<u8>) -> Seq<u8>;

/// Relies on hmac's `Hmac<Sha256>` (`new_from_slice`, `update`, `finalize`):
/// the tag is 32 bytes and depends on the key and message bytes alone.
/// `new_from_slice` accepts keys of any length for an HMAC, so the error
/// branch is never taken.
#[verifier::external_body]
fn hmac_sha256_tag(key: &Vec<u8>, message: &Vec<u8>) -> (r: [u8; 32])
    ensures
        r@ == hmac_sha256(key@, message@),
{
    let mut mac = match Hmac::<Sha256>::new_from_slice(key.as_slice()) {
        Ok(m) => m,
        Err(_) => return [0u8; 32],
    };
    mac.update(message.as_slice());
    let out: [u8; 32] = mac.finalize().into_bytes().into();
    out
}

/// The tag the client beacons for a given second: the HMAC of the decimal
/// ASCII rendering of the timestamp under the shared secret.
pub fn client_tag(secret: &Vec<u8>, unix_seconds: u64) -> (r: [u8; 32])
    ensures
        r@ == hmac_sha256(secret@, ascii_digits(unix_seconds as int)),
{
    let message = u64_to_ascii(unix_seconds);
    hmac_sha256_tag(secret, &message)
}

/// Whether two byte strings hold the same bytes.
fn tag_matches(datagram: &Vec<u8>, tag: &[u8; 32]) -> (r: bool)
    requires
        datagram@.len() == 32,
    ensures
        r <==> datagram@ == tag@,
{
    let mut i: usize = 0;
    while i < 32
        invariant
            0 <= i <= 32,
            datagram@.len() == 32 && tag@.len() == 32,
            forall|j: int| 0 <= j < i ==> datagram@[j] == tag@[j],
        decreases 32 - i,
    {
        if datagram[i] != tag[i] {
            return false;
        }
        i = i + 1;
    }
    proof {
        assert(datagram@ =~= tag@);
    }
    true
}

/// Whether a timestamp would be accepted for a datagram: it lies in the
/// 60-second window ending at `now`, it is strictly newer than every
/// timestamp accepted before, and the datagram is exactly its tag.
pub open spec fn accepts(
    secret: Seq<u8>,
    datagram: Seq<u8>,
    now: u64,
    minimum: u64,
    t: int,
) -> bool {
    &&& 0 <= t <= now
    &&& now - t < 60
    &&& t > minimum
    &&& datagram == hmac_sha256(secret, ascii_digits(t))
}

/// The admission server: `minimum` is the newest timestamp accepted so far,
/// seeded with the server's start instant so that replays of earlier beacons
/// are rejected from the first datagram on.
pub struct WhitelistServer {
    pub minimum: u64,
}

impl WhitelistServer {
    pub fn new(now_seconds: u64) -> (r: Self)
        ensures
            r.minimum == now_seconds,
    {
        WhitelistServer { minimum: now_seconds }
    }

    /// Handles one datagram from `source_ip` at second `now`. A datagram
    /// that is not exactly 32 bytes, or from an already whitelisted source,
    /// is ignored. Otherwise the tag is tried against the last 60 seconds;
    /// the newest matching timestamp strictly above every previously
    /// accepted one is accepted: it becomes the new minimum — so accepted
    /// timestamps are strictly increasing — and the source is whitelisted.
    /// A replayed tag, even from a fresh source, matches only timestamps at
    /// or below the minimum and is rejected. On rejection nothing changes
    /// and nothing is answered.
    pub fn handle_datagram(
        &mut self,
        secret: &Vec<u8>,
        datagram: &Vec<u8>,
        source_ip: u32,
        now: u64,
        stats: &mut Stats,
    ) -> (r: Option<u64>)
        ensures
            datagram@.len() != 32 || old(stats).whitelisted@.contains(source_ip) ==> r is None
                && *final(self) == *old(self) && *final(stats) == *old(stats),
            r is None ==> *final(self) == *old(self) && *final(stats) == *old(stats),
            r is None && datagram@.len() == 32 && !old(stats).whitelisted@.contains(source_ip)
                ==> (forall|t: int|
                !accepts(secret@, datagram@, now, old(self).minimum, t)),
            r matches Some(t) ==> ({
                &&& accepts(secret@, datagram@, now, old(self).minimum, t as int)
                &&& (forall|u: int|
                    accepts(secret@, datagram@, now, old(self).minimum, u) ==> u <= t)
                &&& !old(stats).whitelisted@.contains(source_ip)
                &&& final(self).minimum == t
                &&& *final(stats) == (Stats {
                    whitelisted: final(stats).whitelisted,
                    ..*old(stats)
                })
                &&& final(stats).whitelisted@ == old(stats).whitelisted@.push(source_ip)
            }),
    {
        if datagram.len() != 32 {
            return None;
        }
        if contains_ip(&stats.whitelisted, source_ip) {
            return None;
        }
        let mut i: u64 = 0;
        while i < 60 && i <= now
            invariant
                0 <= i <= 60,
                forall|t: int|
                    now - i < t <= now ==> !accepts(
                        secret@,
                        datagram@,
                        now,
                        self.minimum,
                        t,
                    ),
                *self == *old(self),
                *stats == *old(stats),
                datagram@.len() == 32,
                !old(stats).whitelisted@.contains(source_ip),
            decreases 60 - i,
        {
            let candidate = now - i;
            let tag = client_tag(secret, candidate);
            if tag_matches(datagram, &tag) && candidate > self.minimum {
                self.minimum = candidate;
                stats.whitelisted.push(source_ip);
                proof {
                    assert forall|u: int|
                        accepts(
                            secret@,
                            datagram@,
                            now,
                            old(self).minimum,
                            u,
                        ) implies u <= candidate by {
                        if u > candidate {
                            assert(now - i < u <= now);
                        }
                    }
                }
                return Some(candidate);
            }
            proof {
                if candidate > self.minimum {
                    assert(datagram@ != hmac_sha256(secret@, ascii_digits(candidate as int)));
                }
                assert forall|t: int|
                    now - (i + 1) < t <= now implies !accepts(
                    secret@,
                    datagram@,
                    now,
                    self.minimum,
                    t,
                ) by {
                    if t == candidate {
                    } else {
                        assert(now - i < t <= now || t > now);
                    }
                }
            }
            i = i + 1;
        }
        proof {
            assert forall|t: int|
                !accepts(secret@, datagram@, now, self.minimum, t) by {
                if accepts(secret@, datagram@, now, self.minimum, t) {
                    assert(now - 60 < t <= now && t >= 0);
                    if i >= 60 {
                        assert(now - i < t);
                    } else {
                        assert(i > now);
                        assert(now - i < 0 <= t);
                    }
                    assert(now - i < t <= now);
                }
            }
        }
        None
    }
}

/// Timestamps the server accepts are strictly increasing: an accepted
/// timestamp strictly exceeds the stored minimum, and it becomes the new
/// minimum, so the next accepted timestamp strictly exceeds it in turn.
pub proof fn lemma_accepted_strictly_increasing(
    secret: Seq<u8>,
    datagram: Seq<u8>,
    now: u64,
    minimum: u64,
    t: int,
)
    requires
        accepts(secret, datagram, now, minimum, t),
    ensures
        t > minimum,
{
}

/// Whether `ips` holds `ip`.
fn contains_ip(ips: &Vec<u32>, ip: u32) -> (r: bool)
    ensures
        r <==> ips@.contains(ip),
{
    let n = ips.len();
    let mut i: usize = 0;
    while i < n
        invariant
            n == ips@.len(),
            0 <= i <= n,
            forall|j: int| 0 <= j < i ==> ips@[j] != ip,
        decreases n - i,
    {
        if ips[i] == ip {
            proof {
                assert(ips@.contains(ip));
            }
            return true;
        }
        i = i + 1;
    }
    false
}

} // verus!
