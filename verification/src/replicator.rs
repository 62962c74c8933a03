//! Replication decisions: who the peers are, what each of them still lacks,
//! and how a delivery attempt moves the peer's offset.
//!
//! The gossip runtime, the HTTP client and the timers live outside the
//! library; they report events and outcomes here and act on what comes back.

use vstd::prelude::*;

use crate::offsets::OffsetTable;
use crate::table::KeyedTable;
use crate::wal::entries_after;
use crate::text::{decimal_string, decimal_text, host_of, host_part, http_url, http_url_text, owned, push_text};

verus! {

/// Gossip address to HTTP URL of each known peer.
pub type MemberTable = KeyedTable<String>;


/// The HTTP URL of the node whose gossip address is `gossip`: its host with
/// the cluster's HTTP port.
pub open spec fn peer_url(gossip: Seq<char>, http_port: u16) -> Seq<char> {
    http_url_text(host_part(gossip), http_port as nat)
}

/// Computes the HTTP URL of the peer at gossip address `gossip`.
pub fn peer_http_url(gossip: &str, http_port: u16) -> (url: String)
    ensures
        url@ == peer_url(gossip@, http_port),
{
    let host = host_of(gossip);
    http_url(host.as_str(), http_port)
}

/// The members known before any gossip: each bootstrap peer, in order, mapped
/// to its URL.
pub open spec fn bootstrap_members(peers: Seq<Seq<char>>, http_port: u16) -> Map<Seq<char>, Seq<char>>
    decreases peers.len(),
{
    if peers.len() == 0 {
        Map::empty()
    } else {
        bootstrap_members(peers.drop_last(), http_port).insert(peers.last(), peer_url(peers.last(), http_port))
    }
}

/// The member table seeded from the bootstrap peers.
pub fn initial_members(bootstrap_peers: &Vec<String>, http_port: u16) -> (members: MemberTable)
    ensures
        members@ == bootstrap_members(bootstrap_peers.deep_view(), http_port),
        forall|g: Seq<char>| #[trigger] members@.contains_key(g) <==> bootstrap_peers.deep_view().contains(g),
        forall|g: Seq<char>| #[trigger] members@.contains_key(g) ==> members@[g] == peer_url(g, http_port),
{
    let mut members = MemberTable::new();
    let mut i: usize = 0;
    while i < bootstrap_peers.len()
        invariant
            0 <= i <= bootstrap_peers.len(),
            members@ == bootstrap_members(bootstrap_peers.deep_view().take(i as int), http_port),
        decreases bootstrap_peers.len() - i,
    {
        let gossip = &bootstrap_peers[i];
        let url = peer_http_url(gossip.as_str(), http_port);
        members.insert(gossip.clone(), url);
        i = i + 1;
        proof {
            let taken = bootstrap_peers.deep_view().take(i as int);
            assert(taken.drop_last() =~= bootstrap_peers.deep_view().take((i - 1) as int));
            assert(taken.last() == bootstrap_peers[i - 1]@);
        }
    }
    proof {
        assert(bootstrap_peers.deep_view().take(bootstrap_peers.len() as int) =~= bootstrap_peers.deep_view());
        lemma_bootstrap_members(bootstrap_peers.deep_view(), http_port);
    }
    members
}

/// The bootstrap members are exactly the bootstrap peers, each mapped to its
/// URL.
pub proof fn lemma_bootstrap_members(peers: Seq<Seq<char>>, http_port: u16)
    ensures
        forall|g: Seq<char>| #[trigger] bootstrap_members(peers, http_port).contains_key(g) <==> peers.contains(g),
        forall|g: Seq<char>| #[trigger] bootstrap_members(peers, http_port).contains_key(g) ==> bootstrap_members(
            peers,
            http_port,
        )[g] == peer_url(g, http_port),
    decreases peers.len(),
{
    if peers.len() > 0 {
        let init = peers.drop_last();
        let last = peers.last();
        lemma_bootstrap_members(init, http_port);
        let before = bootstrap_members(init, http_port);
        let m = bootstrap_members(peers, http_port);
        assert(m == before.insert(last, peer_url(last, http_port)));
        assert forall|g: Seq<char>| #[trigger] m.contains_key(g) <==> peers.contains(g) by {
            if peers.contains(g) {
                let i = choose|i: int| 0 <= i < peers.len() && peers[i] == g;
                if i < peers.len() - 1 {
                    assert(init[i] == g);
                    assert(init.contains(g));
                } else {
                    assert(g == last);
                }
            }
            if m.contains_key(g) && g != last {
                assert(before.contains_key(g));
                assert(init.contains(g));
                let i = choose|i: int| 0 <= i < init.len() && init[i] == g;
                assert(peers[i] == g);
            }
            if g == last {
                assert(peers[peers.len() - 1] == g);
            }
        }
        assert forall|g: Seq<char>| #[trigger] m.contains_key(g) implies m[g] == peer_url(g, http_port) by {
            if g != last {
                assert(before.contains_key(g));
            }
        }
    }
}

/// A membership event reported by the gossip layer, with the member's gossip
/// address.
pub enum GossipEvent {
    Joined(String),
    Recovered(String),
    Suspected(String),
    Deceased(String),
    /// Any other event; it does not change membership.
    Other,
}

/// What an event did to the member table.
pub enum MembershipChange {
    Added { gossip: String, url: String },
    Removed { gossip: String },
    Unchanged,
}

/// The member map after `event`: a joined or recovered node other than this
/// one (`self_http`) is added with its URL; a suspected or deceased node is
/// dropped; anything else leaves the map as it was.
pub open spec fn members_after(
    members: Map<Seq<char>, Seq<char>>,
    event: GossipEvent,
    self_http: Seq<char>,
    http_port: u16,
) -> Map<Seq<char>, Seq<char>> {
    match event {
        GossipEvent::Joined(g) | GossipEvent::Recovered(g) => if g@ != self_http {
            members.insert(g@, peer_url(g@, http_port))
        } else {
            members
        },
        GossipEvent::Suspected(g) | GossipEvent::Deceased(g) => members.remove(g@),
        GossipEvent::Other => members,
    }
}

/// Applies a gossip event to the member table and says what changed.
pub fn apply_gossip_event(members: &mut MemberTable, event: GossipEvent, self_http: &str, http_port: u16) -> (change:
    MembershipChange)
    ensures
        final(members)@ == members_after(old(members)@, event, self_http@, http_port),
        match event {
            GossipEvent::Joined(g) | GossipEvent::Recovered(g) => if g@ != self_http@ {
                change matches MembershipChange::Added { gossip, url } && gossip@ == g@ && url@ == peer_url(
                    g@,
                    http_port,
                )
            } else {
                change is Unchanged
            },
            GossipEvent::Suspected(g) | GossipEvent::Deceased(g) => change matches MembershipChange::Removed {
                gossip,
            } && gossip@ == g@,
            GossipEvent::Other => change is Unchanged,
        },
        change matches MembershipChange::Added { gossip, url } ==> final(members)@.contains_key(gossip@)
            && final(members)@[gossip@] == url@,
        change matches MembershipChange::Removed { gossip } ==> !final(members)@.contains_key(gossip@),
        change is Unchanged ==> final(members)@ == old(members)@,
{
    let self_text = owned(self_http);
    match event {
        GossipEvent::Joined(gossip) | GossipEvent::Recovered(gossip) => {
            if gossip != self_text {
                let url = peer_http_url(gossip.as_str(), http_port);
                members.insert(gossip.clone(), url.clone());
                MembershipChange::Added { gossip, url }
            } else {
                MembershipChange::Unchanged
            }
        },
        GossipEvent::Suspected(gossip) | GossipEvent::Deceased(gossip) => {
            members.remove(gossip.as_str());
            MembershipChange::Removed { gossip }
        },
        GossipEvent::Other => MembershipChange::Unchanged,
    }
}

/// Holds of every text other than `x`.
pub open spec fn differs_from(x: Seq<char>) -> spec_fn(Seq<char>) -> bool {
    |u: Seq<char>| u != x
}

/// The URLs to replicate to: the members' URLs in table order, leaving out
/// this node's own URL.
pub open spec fn replication_targets(pairs: Seq<(Seq<char>, Seq<char>)>, self_http: Seq<char>) -> Seq<Seq<char>> {
    pairs.map_values(|p: (Seq<char>, Seq<char>)| p.1).filter(differs_from(self_http))
}

/// Snapshot of the peers a replication round pushes to.
pub fn peers_to_replicate(members: &MemberTable, self_http: &str) -> (peers: Vec<String>)
    ensures
        peers.deep_view() == replication_targets(members.pairs(), self_http@),
        forall|u: Seq<char>| #[trigger] peers.deep_view().contains(u) <==> (u != self_http@ && exists|i: int|
            0 <= i < members.pairs().len() && members.pairs()[i].1 == u),
{
    let self_text = owned(self_http);
    let ghost urls = members.pairs().map_values(|p: (Seq<char>, Seq<char>)| p.1);
    let ghost keep = differs_from(self_http@);
    let mut peers: Vec<String> = Vec::new();
    let mut i: usize = 0;
    while i < members.len()
        invariant
            0 <= i <= members.pairs().len(),
            urls == members.pairs().map_values(|p: (Seq<char>, Seq<char>)| p.1),
            self_text@ == self_http@,
            keep == differs_from(self_http@),
            peers.deep_view() == urls.take(i as int).filter(keep),
        decreases members.pairs().len() - i,
    {
        let (_gossip, url) = members.entry(i);
        let ghost before = peers.deep_view();
        let same = *url == self_text;
        if !same {
            let copy = url.clone();
            peers.push(copy);
            assert(peers.deep_view() =~= before.push(url@));
        } else {
            assert(peers.deep_view() =~= before);
        }
        i = i + 1;
        proof {
            assert(keep(url@) == !same);
            assert(urls.take(i as int).drop_last() =~= urls.take((i - 1) as int));
            assert(urls.take(i as int).last() == url@);
            urls.take((i - 1) as int).lemma_filter_push(url@, keep);
            assert(urls.take(i as int) =~= urls.take((i - 1) as int).push(url@));
            assert(peers.deep_view() =~= urls.take(i as int).filter(keep));
        }
    }
    proof {
        assert(urls.take(members.pairs().len() as int) =~= urls);
        lemma_targets_are_other_members(members.pairs(), self_http@);
    }
    peers
}

/// A URL is a replication target exactly when some member has it and it is
/// not this node's own URL.
pub proof fn lemma_targets_are_other_members(pairs: Seq<(Seq<char>, Seq<char>)>, self_http: Seq<char>)
    ensures
        forall|u: Seq<char>| #[trigger] replication_targets(pairs, self_http).contains(u) <==> (u != self_http
            && exists|i: int| 0 <= i < pairs.len() && pairs[i].1 == u),
{
    let urls = pairs.map_values(|p: (Seq<char>, Seq<char>)| p.1);
    let keep = differs_from(self_http);
    broadcast use vstd::seq_lib::group_filter_ensures;
    assert forall|u: Seq<char>| #[trigger] replication_targets(pairs, self_http).contains(u) <==> (u != self_http
        && exists|i: int| 0 <= i < pairs.len() && pairs[i].1 == u) by {
        let targets = urls.filter(keep);
        if targets.contains(u) {
            let j = choose|j: int| 0 <= j < targets.len() && targets[j] == u;
            assert(keep(targets[j]));
            urls.lemma_filter_contains_rev(keep, u);
            let i = choose|i: int| 0 <= i < urls.len() && urls[i] == u;
            assert(pairs[i].1 == u);
        }
        if u != self_http && exists|i: int| 0 <= i < pairs.len() && pairs[i].1 == u {
            let i = choose|i: int| 0 <= i < pairs.len() && pairs[i].1 == u;
            assert(urls[i] == u);
            assert(keep(urls[i]));
        }
    }
}

/// A push of the log entries `start..end` to one peer.
pub struct ReplicationTask {
    pub peer: String,
    pub start: usize,
    pub end: usize,
}

/// The entry a peer has acknowledged up to: its recorded offset, or 0.
pub open spec fn acknowledged(offsets: Map<Seq<char>, usize>, peer: Seq<char>) -> usize {
    if offsets.contains_key(peer) {
        offsets[peer]
    } else {
        0
    }
}

/// Plans the push to `peer` of a log holding `log_len` entries: everything past
/// what the peer acknowledged, or nothing when it is up to date.
pub fn plan_push(offsets: &OffsetTable, peer: &str, log_len: usize) -> (task: Option<ReplicationTask>)
    ensures
        match task {
            Some(t) => {
                &&& t.peer@ == peer@
                &&& t.start == acknowledged(offsets@, peer@)
                &&& t.end == log_len
                &&& t.start < t.end
            },
            None => acknowledged(offsets@, peer@) >= log_len,
        },
        task matches Some(t) ==> t.start == (if offsets@.contains_key(peer@) { offsets@[peer@] } else { 0 })
            && t.end == log_len && t.start < log_len,
        task is None <==> (offsets@.contains_key(peer@) && offsets@[peer@] >= log_len) || log_len == 0,
{
    let start: usize = match offsets.get(peer) {
        Some(s) => s,
        None => 0,
    };
    if start < log_len {
        Some(ReplicationTask { peer: owned(peer), start, end: log_len })
    } else {
        None
    }
}

/// The offsets after a push attempt: a delivered push moves the peer's offset
/// to the end of what was sent; any other outcome leaves the offsets alone.
pub open spec fn offsets_after(offsets: Map<Seq<char>, usize>, peer: Seq<char>, end: usize, delivered: bool) -> Map<
    Seq<char>,
    usize,
> {
    if delivered {
        offsets.insert(peer, end)
    } else {
        offsets
    }
}

/// Records the result of a push.
pub fn record_push(offsets: &mut OffsetTable, task: &ReplicationTask, delivered: bool)
    ensures
        final(offsets)@ == offsets_after(old(offsets)@, task.peer@, task.end, delivered),
        delivered ==> final(offsets)@.contains_key(task.peer@) && final(offsets)@[task.peer@] == task.end,
        delivered ==> forall|k: Seq<char>| k != task.peer@ ==> #[trigger] final(offsets)@.contains_key(k) == old(offsets)@.contains_key(k)
            && (old(offsets)@.contains_key(k) ==> final(offsets)@[k] == old(offsets)@[k]),
        !delivered ==> final(offsets)@ == old(offsets)@,
{
    if delivered {
        offsets.insert(task.peer.clone(), task.end);
    }
}

/// A recovered node is handled as a joined one, and a node other than this one
/// that joins or recovers is then a member with its URL.
pub proof fn lemma_recovered_rejoins(
    members: Map<Seq<char>, Seq<char>>,
    g: String,
    h: String,
    self_http: Seq<char>,
    http_port: u16,
)
    requires
        g@ == h@,
    ensures
        members_after(members, GossipEvent::Recovered(g), self_http, http_port) == members_after(
            members,
            GossipEvent::Joined(h),
            self_http,
            http_port,
        ),
        g@ != self_http ==> {
            &&& members_after(members, GossipEvent::Recovered(g), self_http, http_port).contains_key(g@)
            &&& members_after(members, GossipEvent::Recovered(g), self_http, http_port)[g@] == peer_url(g@, http_port)
            &&& members_after(members, GossipEvent::Joined(h), self_http, http_port).contains_key(g@)
            &&& members_after(members, GossipEvent::Joined(h), self_http, http_port)[g@] == peer_url(g@, http_port)
        },
{
}

/// A node does not add itself: a join or recovery announcing this node's own
/// address leaves the members as they were.
pub proof fn lemma_self_never_joins(members: Map<Seq<char>, Seq<char>>, g: String, self_http: Seq<char>, http_port: u16)
    requires
        g@ == self_http,
    ensures
        members_after(members, GossipEvent::Joined(g), self_http, http_port) == members,
        members_after(members, GossipEvent::Recovered(g), self_http, http_port) == members,
{
}

/// A member that joins and is then suspected (or declared dead) is gone, and
/// nothing else changed; announcing a join twice is the same as once.
pub proof fn lemma_join_then_leave(
    members: Map<Seq<char>, Seq<char>>,
    g: String,
    h: String,
    self_http: Seq<char>,
    http_port: u16,
)
    requires
        g@ != self_http,
        h@ == g@,
    ensures
        members_after(
            members_after(members, GossipEvent::Joined(g), self_http, http_port),
            GossipEvent::Suspected(h),
            self_http,
            http_port,
        ) == members.remove(g@),
        members_after(
            members_after(members, GossipEvent::Joined(g), self_http, http_port),
            GossipEvent::Deceased(h),
            self_http,
            http_port,
        ) == members.remove(g@),
        members_after(
            members_after(members, GossipEvent::Joined(g), self_http, http_port),
            GossipEvent::Joined(h),
            self_http,
            http_port,
        ) == members_after(members, GossipEvent::Joined(g), self_http, http_port),
{
    let joined = members.insert(g@, peer_url(g@, http_port));
    assert(joined.remove(g@) =~= members.remove(g@));
    assert(joined.insert(g@, peer_url(g@, http_port)) =~= joined);
}

/// A delivered push moves the peer's offset forward to the end of what was
/// sent, never back; a failed one changes nothing; other peers' offsets are
/// never touched.
pub proof fn lemma_offsets_only_advance(
    offsets: Map<Seq<char>, usize>,
    peer: Seq<char>,
    other: Seq<char>,
    end: usize,
    delivered: bool,
)
    requires
        acknowledged(offsets, peer) < end,
        other != peer,
    ensures
        acknowledged(offsets_after(offsets, peer, end, delivered), peer) == if delivered {
            end
        } else {
            acknowledged(offsets, peer)
        },
        acknowledged(offsets_after(offsets, peer, end, delivered), peer) >= acknowledged(offsets, peer),
        acknowledged(offsets_after(offsets, peer, end, delivered), other) == acknowledged(offsets, other),
{
}

/// Successive delivered pushes hand a peer every log entry once and in order:
/// what a push of the log as it stood (`earlier`) sends, followed by what the
/// next push of the grown log (`later`) sends, is exactly the part of the grown
/// log past the peer's first offset.
pub proof fn lemma_pushes_deliver_each_entry_once<T>(
    offsets: Map<Seq<char>, usize>,
    peer: Seq<char>,
    earlier: Seq<T>,
    later: Seq<T>,
)
    requires
        acknowledged(offsets, peer) < earlier.len() <= later.len() <= usize::MAX,
        later.take(earlier.len() as int) == earlier,
    ensures
        ({
            let first = acknowledged(offsets, peer) as int;
            let next = acknowledged(offsets_after(offsets, peer, earlier.len() as usize, true), peer) as int;
            &&& next == earlier.len()
            &&& entries_after(earlier, first) + entries_after(later, next) == entries_after(later, first)
        }),
{
    let first = acknowledged(offsets, peer) as int;
    let n = earlier.len() as int;
    if n < later.len() {
        assert(entries_after(earlier, first) + entries_after(later, n) =~= entries_after(later, first)) by {
            assert forall|i: int| 0 <= i < n - first implies earlier.subrange(first, n)[i] == later.subrange(first, later.len() as int)[i] by {
                assert(later.take(n)[first + i] == later[first + i]);
            }
        }
    } else {
        assert(later =~= earlier);
        assert(entries_after(earlier, first) + entries_after(later, n) =~= entries_after(later, first));
    }
}

/// The offsets after a series of push steps, each a peer, the end of what was
/// sent and whether it was delivered; a step is taken only when the peer is
/// behind (`plan_push` plans nothing otherwise).
pub open spec fn offsets_after_steps(offsets: Map<Seq<char>, usize>, steps: Seq<(Seq<char>, usize, bool)>) -> Map<
    Seq<char>,
    usize,
>
    decreases steps.len(),
{
    if steps.len() == 0 {
        offsets
    } else {
        let before = offsets_after_steps(offsets, steps.drop_last());
        let (peer, end, delivered) = steps.last();
        if acknowledged(before, peer) < end {
            offsets_after(before, peer, end, delivered)
        } else {
            before
        }
    }
}

/// Over any series of planned pushes (a replication round, or a whole run),
/// no peer's offset is dropped and none ever decreases.
pub proof fn lemma_offsets_never_regress(offsets: Map<Seq<char>, usize>, steps: Seq<(Seq<char>, usize, bool)>)
    ensures
        forall|k: Seq<char>| #[trigger] offsets.contains_key(k) ==> {
            &&& offsets_after_steps(offsets, steps).contains_key(k)
            &&& offsets_after_steps(offsets, steps)[k] >= offsets[k]
        },
        forall|k: Seq<char>| #[trigger] acknowledged(offsets_after_steps(offsets, steps), k) >= acknowledged(offsets, k),
    decreases steps.len(),
{
    if steps.len() > 0 {
        lemma_offsets_never_regress(offsets, steps.drop_last());
        let before = offsets_after_steps(offsets, steps.drop_last());
        assert forall|k: Seq<char>| #[trigger] acknowledged(offsets_after_steps(offsets, steps), k) >= acknowledged(offsets, k) by {
            assert(acknowledged(before, k) >= acknowledged(offsets, k));
        }
    }
}

/// The offsets after a series of pushes to one peer, each of the log as it
/// was read for that push, delivered or not.
pub open spec fn offsets_after_rounds<T>(offsets: Map<Seq<char>, usize>, peer: Seq<char>, rounds: Seq<(Seq<T>, bool)>) -> Map<
    Seq<char>,
    usize,
>
    decreases rounds.len(),
{
    if rounds.len() == 0 {
        offsets
    } else {
        let before = offsets_after_rounds(offsets, peer, rounds.drop_last());
        let (log, delivered) = rounds.last();
        if acknowledged(before, peer) < log.len() {
            offsets_after(before, peer, log.len() as usize, delivered)
        } else {
            before
        }
    }
}

/// The entries a peer has accepted over a series of pushes, in order.
pub open spec fn delivered_entries<T>(offsets: Map<Seq<char>, usize>, peer: Seq<char>, rounds: Seq<(Seq<T>, bool)>) -> Seq<T>
    decreases rounds.len(),
{
    if rounds.len() == 0 {
        Seq::<T>::empty()
    } else {
        let before = offsets_after_rounds(offsets, peer, rounds.drop_last());
        let earlier = delivered_entries(offsets, peer, rounds.drop_last());
        let (log, delivered) = rounds.last();
        if acknowledged(before, peer) < log.len() && delivered {
            earlier + entries_after(log, acknowledged(before, peer) as int)
        } else {
            earlier
        }
    }
}

/// The log only grows by appending from one push to the next, and every log
/// read fits in memory.
pub open spec fn log_only_grows<T>(rounds: Seq<(Seq<T>, bool)>) -> bool {
    &&& forall|i: int| 0 <= i < rounds.len() ==> #[trigger] rounds[i].0.len() <= usize::MAX
    &&& forall|i: int|
        0 <= i < rounds.len() - 1 ==> {
            &&& #[trigger] rounds[i].0.len() <= rounds[i + 1].0.len()
            &&& rounds[i + 1].0.take(rounds[i].0.len() as int) == rounds[i].0
        }
}

/// Over any number of pushes to one peer while the log only grows, the peer
/// accepts every entry past its first offset once and in order: what it has
/// accepted is exactly the latest log from its first offset to its current
/// one, and that offset never moves back.
pub proof fn lemma_every_entry_delivered_once<T>(offsets: Map<Seq<char>, usize>, peer: Seq<char>, rounds: Seq<(Seq<T>, bool)>)
    requires
        rounds.len() > 0,
        log_only_grows(rounds),
    ensures
        ({
            let first = acknowledged(offsets, peer);
            let now = acknowledged(offsets_after_rounds(offsets, peer, rounds), peer);
            let latest = rounds.last().0;
            &&& now >= first
            &&& now == first ==> delivered_entries(offsets, peer, rounds) == Seq::<T>::empty()
            &&& now != first ==> first < now <= latest.len() && delivered_entries(offsets, peer, rounds)
                == latest.subrange(first as int, now as int)
        }),
    decreases rounds.len(),
{
    let first = acknowledged(offsets, peer);
    let init = rounds.drop_last();
    let (log, delivered) = rounds.last();
    let before = offsets_after_rounds(offsets, peer, init);
    let earlier = delivered_entries(offsets, peer, init);
    let prev = acknowledged(before, peer);
    if init.len() > 0 {
        assert(log_only_grows(init)) by {
            assert forall|i: int| 0 <= i < init.len() implies #[trigger] init[i].0.len() <= usize::MAX by {
                assert(init[i] == rounds[i]);
            }
            assert forall|i: int| 0 <= i < init.len() - 1 implies {
                &&& #[trigger] init[i].0.len() <= init[i + 1].0.len()
                &&& init[i + 1].0.take(init[i].0.len() as int) == init[i].0
            } by {
                assert(init[i] == rounds[i]);
                assert(init[i + 1] == rounds[i + 1]);
            }
        }
        lemma_every_entry_delivered_once(offsets, peer, init);
        let last_before = init.last().0;
        assert(rounds[init.len() - 1] == init.last());
        assert(last_before.len() <= log.len());
        assert(log.take(last_before.len() as int) == last_before);
        if prev != first {
            assert(last_before.subrange(first as int, prev as int) =~= log.subrange(first as int, prev as int)) by {
                assert forall|i: int| 0 <= i < prev - first implies last_before.subrange(first as int, prev as int)[i]
                    == log.subrange(first as int, prev as int)[i] by {
                    assert(log.take(last_before.len() as int)[first + i] == log[first + i]);
                }
            }
        }
    } else {
        assert(before == offsets);
        assert(earlier == Seq::<T>::empty());
    }
    assert(rounds.last().0.len() <= usize::MAX) by {
        assert(rounds[rounds.len() - 1] == rounds.last());
    }
    if prev < log.len() && delivered {
        let sent = entries_after(log, prev as int);
        assert(sent == log.subrange(prev as int, log.len() as int));
        if prev == first {
            assert(earlier + sent =~= log.subrange(first as int, log.len() as int));
        } else {
            assert(earlier + sent =~= log.subrange(first as int, log.len() as int));
        }
    }
}

/// How a push attempt ended.
pub enum PushOutcome {
    /// The peer accepted the entries.
    Delivered,
    /// The peer answered with an unsuccessful status (its text, e.g. `500 Internal Server Error`).
    Refused { status: String },
    /// The request did not complete (the error's text).
    Unreachable { error: String },
}

/// The replication log line for a push attempt made at `time`.
pub open spec fn log_entry_text(time: Seq<char>, peer: Seq<char>, start: nat, end: nat, outcome: PushOutcome) -> Seq<char> {
    match outcome {
        PushOutcome::Delivered => "["@ + time + "] SUCCESS "@ + decimal_text((end - start) as nat) + "→"@ + peer
            + " idx "@ + decimal_text(start) + "\n"@,
        PushOutcome::Refused { status } => "["@ + time + "] FAIL "@ + peer + " returned "@ + status@ + "\n"@,
        PushOutcome::Unreachable { error } => "["@ + time + "] ERROR sending to "@ + peer + ": "@ + error@
            + "\n"@,
    }
}

/// Writes the replication log line for `task`.
pub fn replication_log_entry(time: &str, task: &ReplicationTask, outcome: &PushOutcome) -> (line: String)
    requires
        task.start <= task.end,
    ensures
        line@ == log_entry_text(time@, task.peer@, task.start as nat, task.end as nat, *outcome),
{
    let mut line = owned("[");
    push_text(&mut line, time);
    match outcome {
        PushOutcome::Delivered => {
            push_text(&mut line, "] SUCCESS ");
            let count = decimal_string((task.end - task.start) as u64);
            push_text(&mut line, count.as_str());
            push_text(&mut line, "→");
            push_text(&mut line, task.peer.as_str());
            push_text(&mut line, " idx ");
            let start = decimal_string(task.start as u64);
            push_text(&mut line, start.as_str());
        },
        PushOutcome::Refused { status } => {
            push_text(&mut line, "] FAIL ");
            push_text(&mut line, task.peer.as_str());
            push_text(&mut line, " returned ");
            push_text(&mut line, status.as_str());
        },
        PushOutcome::Unreachable { error } => {
            push_text(&mut line, "] ERROR sending to ");
            push_text(&mut line, task.peer.as_str());
            push_text(&mut line, ": ");
            push_text(&mut line, error.as_str());
        },
    }
    push_text(&mut line, "\n");
    line
}

} // verus!
