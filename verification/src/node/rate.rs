use vstd::prelude::*;
use crate::dht::node::IpAddress;
use crate::keymap::KeyMap;

verus! {

/// Packets accepted per address per window.
pub const MAX_PACKETS_PER_WINDOW: u32 = 100;

/// Length of a rate-limit window, in milliseconds.
pub const RATE_WINDOW_MS: u64 = 1000;

/// The seventeen bytes that identify an address in the limiter: a family
/// byte, then the address bytes (IPv4 padded with zeros).
pub open spec fn ip_key(ip: IpAddress) -> Seq<u8> {
    match ip {
        IpAddress::V4(o) => seq![0u8] + o@ + Seq::new(12, |i: int| 0u8),
        IpAddress::V6(s) => seq![1u8] + crate::wire::v6_octets(s@),
    }
}

fn ip_key_bytes(ip: &IpAddress) -> (k: [u8; 17])
    ensures
        k@ == ip_key(*ip),
{
    match ip {
        IpAddress::V4(o) => {
            let k: [u8; 17] = [0, o[0], o[1], o[2], o[3], 0, 0, 0, 0, 0, 0, 0, 0, 0, 0, 0, 0];
            assert(k@ =~= ip_key(*ip));
            k
        },
        IpAddress::V6(s) => {
            let mut out: Vec<u8> = Vec::new();
            crate::wire::push_ip(&mut out, ip);
            let mut k = [0u8; 17];
            k[0] = 1;
            let mut i: usize = 0;
            while i < 16
                invariant
                    i <= 16,
                    out@.len() == 20,
                    out@ == crate::wire::ip_wire(*ip),
                    *ip == IpAddress::V6(*s),
                    k@.len() == 17,
                    k@[0] == 1,
                    forall|j: int| 1 <= j < 1 + i ==> #[trigger] k@[j] == out@[j + 3],
                decreases 16 - i,
            {
                k[1 + i] = out[4 + i];
                i = i + 1;
            }
            proof {
                assert(out@ =~= crate::wire::tag_wire(1) + crate::wire::v6_octets(s@));
                assert(k@ =~= ip_key(*ip));
            }
            k
        },
    }
}

/// The state of one address's window after a packet at `now`: the window
/// restarts when a whole window has passed, then the packet is counted.
pub open spec fn counted(entry: Option<(u32, u64)>, now: u64) -> (u32, u64) {
    let (count, start) = match entry {
        Some(e) => e,
        None => (0u32, now),
    };
    let (count, start) = if now >= start && now - start >= RATE_WINDOW_MS { (0u32, now) } else { (count, start) };
    (if count < u32::MAX { (count + 1) as u32 } else { u32::MAX }, start)
}

/// Per-address packet counters over one-second windows.
pub struct RateLimiter {
    windows: KeyMap<(u32, u64), 17>,
}

impl RateLimiter {
    /// The counter and window start of each address.
    pub closed spec fn view_windows(&self) -> Map<Seq<u8>, (u32, u64)> {
        self.windows@
    }

    /// No address has been seen.
    pub fn new() -> (r: Self)
        ensures
            r.view_windows() == Map::<Seq<u8>, (u32, u64)>::empty(),
    {
        RateLimiter { windows: KeyMap::new() }
    }

    /// Counts a packet from `ip` at `now` (milliseconds) and says whether it
    /// is within the limit of 100 packets per second per address.
    pub fn check(&mut self, ip: &IpAddress, now: u64) -> (allowed: bool)
        ensures
            ({
                let k = ip_key(*ip);
                let before = if old(self).view_windows().contains_key(k) { Some(old(self).view_windows()[k]) } else { None };
                let after = counted(before, now);
                &&& final(self).view_windows() == old(self).view_windows().insert(k, after)
                &&& allowed == (after.0 <= MAX_PACKETS_PER_WINDOW)
            }),
    {
        let key = ip_key_bytes(ip);
        let (count, start) = match self.windows.get(&key) {
            Some(e) => *e,
            None => (0u32, now),
        };
        let (count, start) = if now >= start && now - start >= RATE_WINDOW_MS { (0u32, now) } else { (count, start) };
        let count = count.saturating_add(1);
        self.windows.insert(key, (count, start));
        count <= MAX_PACKETS_PER_WINDOW
    }
}

/// The window of an address after packets at the given times, in order,
/// starting from `entry`.
pub open spec fn count_after(entry: Option<(u32, u64)>, times: Seq<u64>) -> Option<(u32, u64)>
    decreases times.len(),
{
    if times.len() == 0 {
        entry
    } else {
        Some(counted(count_after(entry, times.drop_last()), times.last()))
    }
}

/// Packets from a fresh address within one second of its first packet are
/// counted one by one in that window: the n-th is counted as n, so from the
/// 101st on they are refused.
pub proof fn lemma_one_window(times: Seq<u64>)
    requires
        0 < times.len() < u32::MAX,
        forall|i: int| 0 <= i < times.len() ==> times[0] <= #[trigger] times[i] && times[i] - times[0] < RATE_WINDOW_MS,
    ensures
        count_after(None, times) == Some((times.len() as u32, times[0])),
    decreases times.len(),
{
    let d = times.drop_last();
    let t = times.last();
    assert(times[times.len() - 1] == t);
    if times.len() > 1 {
        assert(forall|i: int| 0 <= i < d.len() ==> d[i] == times[i]);
        lemma_one_window(d);
        assert(count_after(None, d) == Some((d.len() as u32, times[0])));
        assert(counted(Some((d.len() as u32, times[0])), t) == (times.len() as u32, times[0]));
    } else {
        assert(count_after(None, d) == None::<(u32, u64)>);
        assert(counted(None, t) == (1u32, t));
    }
}

/// After a window has run out, the next packet restarts it: the window then
/// starts at that packet's time, and the packets that follow within one
/// second of it are counted one by one from 1, so from the 101st on they are
/// refused. The same holds for an address seen for the first time.
pub proof fn lemma_window_restarts(entry: Option<(u32, u64)>, times: Seq<u64>)
    requires
        0 < times.len() < u32::MAX,
        entry matches Some(e) ==> times[0] >= e.1 && times[0] - e.1 >= RATE_WINDOW_MS,
        forall|i: int| 0 <= i < times.len() ==> times[0] <= #[trigger] times[i] && times[i] - times[0] < RATE_WINDOW_MS,
    ensures
        count_after(entry, times) == Some((times.len() as u32, times[0])),
        counted(entry, times[0]) == (1u32, times[0]),
    decreases times.len(),
{
    let d = times.drop_last();
    let t = times.last();
    assert(times[times.len() - 1] == t);
    if times.len() > 1 {
        assert(forall|i: int| 0 <= i < d.len() ==> d[i] == times[i]);
        lemma_window_restarts(entry, d);
        assert(count_after(entry, d) == Some((d.len() as u32, times[0])));
        assert(counted(Some((d.len() as u32, times[0])), t) == (times.len() as u32, times[0]));
    } else {
        assert(count_after(entry, d) == entry);
    }
}

} // verus!
