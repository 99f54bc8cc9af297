//! The peer table a node keeps from swarm events, where it dials, and which
//! addresses it persists.
use vstd::prelude::*;
use crate::models::Timestamp;
use crate::text::str_eq;

verus! {

/// What a node knows of a peer.
#[derive(Clone, Debug)]
pub struct PeerInfo {
    pub peer_id: String,
    pub addresses: Vec<String>,
    pub last_seen: Option<Timestamp>,
}

/// No two entries of the table are for the same peer.
pub open spec fn distinct_peer_ids(peers: Seq<PeerInfo>) -> bool {
    forall|i: int, j: int|
        0 <= i < j < peers.len() ==> #[trigger] peers[i].peer_id@ != #[trigger] peers[j].peer_id@
}

/// Finds the first entry for `peer_id`.
pub fn find_peer(peers: &Vec<PeerInfo>, peer_id: &str) -> (r: Option<usize>)
    ensures
        r matches Some(i) ==> i < peers@.len() && peers@[i as int].peer_id@ == peer_id@
            && forall|j: int| 0 <= j < i ==> #[trigger] peers@[j].peer_id@ != peer_id@,
        r is None ==> forall|j: int| 0 <= j < peers@.len() ==> #[trigger] peers@[j].peer_id@
            != peer_id@,
{
    let mut i: usize = 0;
    while i < peers.len()
        invariant
            i <= peers.len(),
            forall|j: int| 0 <= j < i ==> #[trigger] peers@[j].peer_id@ != peer_id@,
        decreases peers.len() - i,
    {
        if str_eq(peers[i].peer_id.as_str(), peer_id) {
            return Some(i);
        }
        i = i + 1;
    }
    None
}

/// A routing-table update about `peer_id`: an unknown peer is added with no
/// addresses, seen at `now`; a known one is left as it is.
pub fn note_routing_update(peers: &mut Vec<PeerInfo>, peer_id: &str, now: Timestamp)
    ensures
        (exists|j: int| 0 <= j < old(peers)@.len() && #[trigger] old(peers)@[j].peer_id@ == peer_id@)
            ==> final(peers)@ == old(peers)@,
        (forall|j: int| 0 <= j < old(peers)@.len() ==> #[trigger] old(peers)@[j].peer_id@ != peer_id@)
            ==> {
            &&& final(peers)@.len() == old(peers)@.len() + 1
            &&& final(peers)@.take(old(peers)@.len() as int) == old(peers)@
            &&& final(peers)@.last().peer_id@ == peer_id@
            &&& final(peers)@.last().addresses@.len() == 0
            &&& final(peers)@.last().last_seen == Some(now)
        },
        distinct_peer_ids(old(peers)@) ==> distinct_peer_ids(final(peers)@),
{
    match find_peer(peers, peer_id) {
        Some(_) => {},
        None => {
            peers.push(PeerInfo { peer_id: peer_id.to_owned(), addresses: Vec::new(), last_seen: Some(now) });
            proof {
                assert(final(peers)@.take(old(peers)@.len() as int) =~= old(peers)@);
                lemma_push_new_peer_keeps_distinct(old(peers)@, final(peers)@);
            }
        },
    }
}

/// Appending an entry for a peer the table does not hold keeps the ids
/// distinct.
proof fn lemma_push_new_peer_keeps_distinct(before: Seq<PeerInfo>, after: Seq<PeerInfo>)
    requires
        after.len() == before.len() + 1,
        forall|k: int| 0 <= k < before.len() ==> after[k] == before[k],
        forall|j: int| 0 <= j < before.len() ==> #[trigger] before[j].peer_id@ != after.last().peer_id@,
    ensures
        distinct_peer_ids(before) ==> distinct_peer_ids(after),
{
    if distinct_peer_ids(before) {
        assert forall|i: int, j: int| 0 <= i < j < after.len() implies #[trigger] after[i].peer_id@
            != #[trigger] after[j].peer_id@ by {
            assert(after[i] == before[i]);
            if j < before.len() {
                assert(after[j] == before[j]);
            }
        }
    }
}

/// An identification from `peer_id` listening on `addresses`: the first
/// entry for the peer gets these addresses and is seen at `now`; an unknown
/// peer is added.
pub fn note_identify(peers: &mut Vec<PeerInfo>, peer_id: &str, addresses: Vec<String>, now: Timestamp)
    ensures
        forall|i: int|
            0 <= i < old(peers)@.len() && #[trigger] old(peers)@[i].peer_id@ == peer_id@ && (forall|j: int|
                0 <= j < i ==> #[trigger] old(peers)@[j].peer_id@ != peer_id@) ==> {
                &&& final(peers)@.len() == old(peers)@.len()
                &&& final(peers)@[i].peer_id == old(peers)@[i].peer_id
                &&& final(peers)@[i].addresses@ == addresses@
                &&& final(peers)@[i].last_seen == Some(now)
                &&& forall|k: int| 0 <= k < old(peers)@.len() && k != i ==> final(peers)@[k] == old(
                    peers,
                )@[k]
            },
        (forall|j: int| 0 <= j < old(peers)@.len() ==> #[trigger] old(peers)@[j].peer_id@ != peer_id@)
            ==> {
            &&& final(peers)@.len() == old(peers)@.len() + 1
            &&& final(peers)@.take(old(peers)@.len() as int) == old(peers)@
            &&& final(peers)@.last().peer_id@ == peer_id@
            &&& final(peers)@.last().addresses@ == addresses@
            &&& final(peers)@.last().last_seen == Some(now)
        },
        distinct_peer_ids(old(peers)@) ==> distinct_peer_ids(final(peers)@),
{
    match find_peer(peers, peer_id) {
        Some(i) => {
            let mut entry = peers.remove(i);
            let ghost rest = peers@;
            entry.addresses = addresses;
            entry.last_seen = Some(now);
            peers.insert(i, entry);
            proof {
                assert forall|k: int| 0 <= k < old(peers)@.len() && k != i implies final(peers)@[k]
                    == old(peers)@[k] by {
                    if k < i {
                        assert(rest[k] == old(peers)@[k]);
                    } else {
                        assert(rest[k - 1] == old(peers)@[k]);
                    }
                }
                assert forall|i2: int|
                    0 <= i2 < old(peers)@.len() && #[trigger] old(peers)@[i2].peer_id@ == peer_id@ && (forall|j: int|
                        0 <= j < i2 ==> #[trigger] old(peers)@[j].peer_id@ != peer_id@) implies i2 == i by {
                    if i2 < i {
                    } else if i2 > i {
                        assert(old(peers)@[i as int].peer_id@ == peer_id@);
                    }
                }
                let now_peers = peers@;
                assert forall|k: int| 0 <= k < old(peers)@.len() implies now_peers[k].peer_id
                    == old(peers)@[k].peer_id by {
                    if k != i {
                        assert(now_peers[k] == old(peers)@[k]);
                    }
                }
                if distinct_peer_ids(old(peers)@) {
                    assert forall|a: int, b: int| 0 <= a < b < now_peers.len() implies #[trigger] now_peers[a].peer_id@
                        != #[trigger] now_peers[b].peer_id@ by {
                        assert(now_peers[a].peer_id == old(peers)@[a].peer_id);
                        assert(now_peers[b].peer_id == old(peers)@[b].peer_id);
                        assert(old(peers)@[a].peer_id@ != old(peers)@[b].peer_id@);
                    }
                }
            }
        },
        None => {
            peers.push(PeerInfo { peer_id: peer_id.to_owned(), addresses, last_seen: Some(now) });
            proof {
                assert(final(peers)@.take(old(peers)@.len() as int) =~= old(peers)@);
                lemma_push_new_peer_keeps_distinct(old(peers)@, final(peers)@);
            }
        },
    }
}

/// All addresses of all peers, in table order.
pub open spec fn all_addresses(peers: Seq<PeerInfo>) -> Seq<String>
    decreases peers.len(),
{
    if peers.len() == 0 {
        Seq::empty()
    } else {
        all_addresses(peers.drop_last()) + peers.last().addresses@
    }
}

/// The addresses a node persists: every address of every peer.
pub fn peer_addresses(peers: &Vec<PeerInfo>) -> (addrs: Vec<String>)
    ensures
        addrs@ == all_addresses(peers@),
{
    let mut out: Vec<String> = Vec::new();
    let mut i: usize = 0;
    while i < peers.len()
        invariant
            i <= peers.len(),
            out@ == all_addresses(peers@.take(i as int)),
        decreases peers.len() - i,
    {
        let addrs = &peers[i].addresses;
        let ghost before = out@;
        let mut k: usize = 0;
        while k < addrs.len()
            invariant
                k <= addrs.len(),
                out@ == before + addrs@.take(k as int),
            decreases addrs.len() - k,
        {
            out.push(addrs[k].clone());
            proof {
                assert(addrs@.take(k + 1) =~= addrs@.take(k as int).push(addrs@[k as int]));
                assert(before + addrs@.take(k + 1) =~= (before + addrs@.take(k as int)).push(addrs@[k as int]));
            }
            k = k + 1;
        }
        proof {
            assert(addrs@.take(addrs@.len() as int) =~= addrs@);
            assert(peers@.take(i + 1).drop_last() =~= peers@.take(i as int));
        }
        i = i + 1;
    }
    proof {
        assert(peers@.take(peers@.len() as int) =~= peers@);
    }
    out
}

/// The peers a node dials at start: its bootstrap nodes (none are
/// configured), then the addresses it persisted.
pub fn initial_peers(persisted: Vec<String>) -> (all: Vec<String>)
    ensures
        all@ == persisted@,
{
    let mut all: Vec<String> = Vec::new();
    let mut persisted = persisted;
    all.append(&mut persisted);
    all
}

/// A component of a multiaddress, as far as dialing reads it.
#[derive(Clone, Debug)]
pub enum AddrPart {
    Ip4(String),
    Ip6(String),
    Dns(String),
    Tcp(u16),
    Other,
}

/// The host named last in `parts`, if any.
pub open spec fn last_host(parts: Seq<AddrPart>) -> Option<Seq<char>>
    decreases parts.len(),
{
    if parts.len() == 0 {
        None
    } else {
        match parts.last() {
            AddrPart::Ip4(h) => Some(h@),
            AddrPart::Ip6(h) => Some(h@),
            AddrPart::Dns(h) => Some(h@),
            _ => last_host(parts.drop_last()),
        }
    }
}

/// The TCP port named last in `parts`, if any.
pub open spec fn last_port(parts: Seq<AddrPart>) -> Option<u16>
    decreases parts.len(),
{
    if parts.len() == 0 {
        None
    } else {
        match parts.last() {
            AddrPart::Tcp(p) => Some(p),
            _ => last_port(parts.drop_last()),
        }
    }
}

/// Where to dial an address: its last host and last TCP port; `None` when
/// either is missing.
pub fn parse_multiaddr(parts: &Vec<AddrPart>) -> (r: Option<(String, u16)>)
    ensures
        match (last_host(parts@), last_port(parts@)) {
            (Some(h), Some(p)) => r matches Some((rh, rp)) && rh@ == h && rp == p,
            _ => r is None,
        },
{
    let mut host: Option<String> = None;
    let mut port: Option<u16> = None;
    let mut i: usize = 0;
    while i < parts.len()
        invariant
            i <= parts.len(),
            match last_host(parts@.take(i as int)) {
                Some(h) => host matches Some(x) && x@ == h,
                None => host is None,
            },
            last_port(parts@.take(i as int)) == port,
        decreases parts.len() - i,
    {
        proof {
            assert(parts@.take(i + 1).drop_last() =~= parts@.take(i as int));
        }
        match &parts[i] {
            AddrPart::Ip4(h) => host = Some(h.clone()),
            AddrPart::Ip6(h) => host = Some(h.clone()),
            AddrPart::Dns(h) => host = Some(h.clone()),
            AddrPart::Tcp(p) => port = Some(*p),
            AddrPart::Other => {},
        }
        i = i + 1;
    }
    proof {
        assert(parts@.take(parts@.len() as int) =~= parts@);
    }
    match (host, port) {
        (Some(h), Some(p)) => Some((h, p)),
        _ => None,
    }
}

} // verus!
