//! Tier-1 presence — the serverless P2P mesh: the peer set, who is admitted,
//! whose packets are accepted, and who offers a connection to whom. Moving the
//! bytes is a [`MeshTransport`]'s job; decoding poses and rendering peers is the
//! caller's.

use vstd::prelude::*;
use crate::text::{decimal, push_all, push_str};

verus! {

/// A peer's occupant id within a mesh (assigned at the rendezvous).
pub type PeerId = u32;

/// Max peers in a mesh before a world should upgrade to a relay.
pub const MAX_MESH_PEERS: usize = 16;

/// Rendezvous signaling — the messages peers exchange (via a stateless
/// rendezvous) to introduce themselves and negotiate a direct connection.
#[derive(Debug, Clone, PartialEq, Eq)]
pub enum Signal {
    /// A peer joining a world announces itself with a provisional id.
    Announce { peer: PeerId, world: String },
    /// Rendezvous to newcomer: your server-assigned peer id.
    Welcome { id: PeerId },
    /// Rendezvous to newcomer: the peers already present.
    Peers { peers: Vec<PeerId> },
    /// WebRTC session description (connection offer).
    Offer { from: PeerId, to: PeerId, sdp: String },
    /// WebRTC session description (connection answer).
    Answer { from: PeerId, to: PeerId, sdp: String },
    /// An ICE candidate (a possible network path to a peer).
    Candidate { from: PeerId, to: PeerId, candidate: String },
    /// A peer left the world.
    Leave { peer: PeerId },
}

/// A peer connection lifecycle event surfaced by the transport.
#[derive(Debug, Clone, Copy, PartialEq, Eq)]
pub enum MeshEvent {
    Connected(PeerId),
    Disconnected(PeerId),
}

/// What a lifecycle event did to the peer set.
#[derive(Debug, Clone, PartialEq, Eq)]
pub enum PeerChange {
    /// A peer was admitted; render it under `name`.
    Joined { id: PeerId, name: String },
    /// A peer was dropped.
    Left(PeerId),
}

/// How the coordinator moves bytes between peers (WebRTC data channels, or an
/// in-memory loopback in tests).
pub trait MeshTransport {
    /// Send `data` to every connected peer.
    fn broadcast(&mut self, data: &[u8]);

    /// Drain inbound `(sender, data)` messages received since the last poll.
    fn poll(&mut self) -> Vec<(PeerId, Vec<u8>)>;

    /// Drain peer connect/disconnect events since the last poll.
    fn events(&mut self) -> Vec<MeshEvent>;
}

/// The P2P mesh coordinator: this peer's id and the connected peers.
pub struct MeshCoordinator {
    pub me: PeerId,
    pub peers: Vec<PeerId>,
}

/// Perfect-negotiation tiebreak: the lower peer id creates the offer.
pub fn should_offer(me: PeerId, other: PeerId) -> (r: bool)
    ensures
        r == (me < other),
{
    me < other
}

/// For two distinct peers exactly one side offers, so two peers introduced by
/// the rendezvous never both initiate.
pub proof fn lemma_exactly_one_side_offers(a: PeerId, b: PeerId)
    requires
        a != b,
    ensures
        (a < b) != (b < a),
{
}

/// The peer list after one lifecycle event: a connecting peer is appended
/// unless it is `me`, already present, or the mesh is full; a disconnecting
/// peer is taken out where it stood.
pub open spec fn event_step(me: PeerId, peers: Seq<PeerId>, ev: MeshEvent) -> Seq<PeerId> {
    match ev {
        MeshEvent::Connected(p) => if p != me && peers.len() < MAX_MESH_PEERS && !peers.contains(p) {
            peers.push(p)
        } else {
            peers
        },
        MeshEvent::Disconnected(p) => if peers.contains(p) {
            peers.remove(peers.index_of(p))
        } else {
            peers
        },
    }
}

/// The peer list after a run of lifecycle events, applied in order.
pub open spec fn peers_after(me: PeerId, peers: Seq<PeerId>, evs: Seq<MeshEvent>) -> Seq<PeerId>
    decreases evs.len(),
{
    if evs.len() == 0 {
        peers
    } else {
        event_step(me, peers_after(me, peers, evs.drop_last()), evs.last())
    }
}

/// A peer change as plain values: whether it is a join, the peer, and the
/// name it is rendered under (empty for a departure).
pub open spec fn change_view(c: PeerChange) -> (bool, PeerId, Seq<char>) {
    match c {
        PeerChange::Joined { id, name } => (true, id, name@),
        PeerChange::Left(p) => (false, p, Seq::empty()),
    }
}

pub open spec fn changes_view(cs: Seq<PeerChange>) -> Seq<(bool, PeerId, Seq<char>)> {
    Seq::new(cs.len(), |i: int| change_view(cs[i]))
}

/// What one lifecycle event changes in the peer list `peers`: an admitted
/// peer joins under its name, a present peer that disconnects leaves, and
/// anything else changes nothing.
pub open spec fn event_change(me: PeerId, peers: Seq<PeerId>, ev: MeshEvent) -> Seq<(bool, PeerId, Seq<char>)> {
    match ev {
        MeshEvent::Connected(p) => if p != me && peers.len() < MAX_MESH_PEERS && !peers.contains(p) {
            seq![(true, p, peer_name(p))]
        } else {
            Seq::empty()
        },
        MeshEvent::Disconnected(p) => if peers.contains(p) {
            seq![(false, p, Seq::empty())]
        } else {
            Seq::empty()
        },
    }
}

/// The changes a run of lifecycle events makes, in order.
pub open spec fn changes_after(me: PeerId, peers: Seq<PeerId>, evs: Seq<MeshEvent>) -> Seq<(bool, PeerId, Seq<char>)>
    decreases evs.len(),
{
    if evs.len() == 0 {
        Seq::empty()
    } else {
        changes_after(me, peers, evs.drop_last()) + event_change(
            me,
            peers_after(me, peers, evs.drop_last()),
            evs.last(),
        )
    }
}

/// A disconnect drops the peer: afterwards it is no longer in the mesh.
pub proof fn lemma_disconnect_drops_the_peer(me: PeerId, peers: Seq<PeerId>, p: PeerId)
    requires
        peers.no_duplicates(),
    ensures
        !event_step(me, peers, MeshEvent::Disconnected(p)).contains(p),
{
    if peers.contains(p) {
        let k = peers.index_of(p);
        let after = peers.remove(k);
        if after.contains(p) {
            let j = choose|j: int| 0 <= j < after.len() && after[j] == p;
            if j < k {
                assert(peers[j] == p);
            } else {
                assert(peers[j + 1] == p);
            }
        }
    }
}

/// However many peers connect, the mesh never holds more than
/// `MAX_MESH_PEERS`, never holds this peer, and never holds one twice.
pub proof fn lemma_mesh_stays_capped(me: PeerId, peers: Seq<PeerId>, evs: Seq<MeshEvent>)
    requires
        peers.no_duplicates(),
        !peers.contains(me),
        peers.len() <= MAX_MESH_PEERS,
    ensures
        peers_after(me, peers, evs).len() <= MAX_MESH_PEERS,
        peers_after(me, peers, evs).no_duplicates(),
        !peers_after(me, peers, evs).contains(me),
    decreases evs.len(),
{
    if evs.len() > 0 {
        lemma_mesh_stays_capped(me, peers, evs.drop_last());
        let before = peers_after(me, peers, evs.drop_last());
        let after = peers_after(me, peers, evs);
        match evs.last() {
            MeshEvent::Connected(p) => {
                if p != me && before.len() < MAX_MESH_PEERS && !before.contains(p) {
                    assert forall|i: int, j: int| 0 <= i < after.len() && 0 <= j < after.len() && i != j implies after[i] != after[j] by {
                        if i == before.len() as int {
                            assert(after[j] == before[j]);
                        } else if j == before.len() as int {
                            assert(after[i] == before[i]);
                        }
                    }
                    if after.contains(me) {
                        let k = choose|k: int| 0 <= k < after.len() && after[k] == me;
                        if k < before.len() {
                            assert(before[k] == me);
                        }
                    }
                }
            },
            MeshEvent::Disconnected(p) => {
                if before.contains(p) {
                    let k = before.index_of(p);
                    assert forall|i: int, j: int| 0 <= i < after.len() && 0 <= j < after.len() && i != j implies after[i] != after[j] by {
                        let i0 = if i < k { i } else { i + 1 };
                        let j0 = if j < k { j } else { j + 1 };
                        assert(after[i] == before[i0]);
                        assert(after[j] == before[j0]);
                    }
                    if after.contains(me) {
                        let m = choose|m: int| 0 <= m < after.len() && after[m] == me;
                        if m < k {
                            assert(before[m] == me);
                        } else {
                            assert(before[m + 1] == me);
                        }
                    }
                }
            },
        }
    }
}

/// The packets among `all` sent by a known peer other than `me`, in order.
pub open spec fn from_peers(me: PeerId, peers: Seq<PeerId>, all: Seq<(PeerId, Vec<u8>)>) -> Seq<(PeerId, Vec<u8>)>
    decreases all.len(),
{
    if all.len() == 0 {
        all
    } else if all.last().0 != me && peers.contains(all.last().0) {
        from_peers(me, peers, all.drop_last()).push(all.last())
    } else {
        from_peers(me, peers, all.drop_last())
    }
}

/// Every packet kept comes from a known peer other than this one.
pub proof fn lemma_from_peers_are_peers(me: PeerId, peers: Seq<PeerId>, all: Seq<(PeerId, Vec<u8>)>)
    ensures
        forall|k: int| 0 <= k < from_peers(me, peers, all).len() ==> #[trigger] from_peers(me, peers, all)[k].0 != me
            && peers.contains(from_peers(me, peers, all)[k].0),
    decreases all.len(),
{
    if all.len() > 0 {
        lemma_from_peers_are_peers(me, peers, all.drop_last());
        let f = from_peers(me, peers, all);
        let f0 = from_peers(me, peers, all.drop_last());
        assert forall|k: int| 0 <= k < f.len() implies #[trigger] f[k].0 != me && peers.contains(f[k].0) by {
            if k < f0.len() {
                assert(f[k] == f0[k]);
            }
        }
    }
}

/// The name a newly admitted peer is shown under: `peer <id>`.
pub open spec fn peer_name(id: PeerId) -> Seq<char> {
    "peer "@ + crate::text::dec_digits(id as nat)
}

impl MeshCoordinator {
    /// The peer set as a set of ids.
    pub open spec fn peer_set(self) -> Set<PeerId> {
        self.peers@.to_set()
    }

    /// No peer twice, never this peer itself, never more than the cap.
    pub open spec fn wf(self) -> bool {
        &&& self.peers@.no_duplicates()
        &&& !self.peers@.contains(self.me)
        &&& self.peers@.len() <= MAX_MESH_PEERS
    }

    pub fn new(me: PeerId) -> (r: Self)
        ensures
            r.me == me,
            r.peers@.len() == 0,
            r.wf(),
    {
        Self { me, peers: Vec::new() }
    }

    /// This peer's own id.
    pub fn id(&self) -> (r: PeerId)
        ensures
            r == self.me,
    {
        self.me
    }

    /// Adopt a server-assigned id, replacing the provisional one. (The
    /// rendezvous sends it before any peer is introduced.)
    pub fn set_id(&mut self, id: PeerId)
        ensures
            final(self).me == id,
            final(self).peers == old(self).peers,
    {
        self.me = id;
    }

    /// Number of connected peers (excludes self).
    pub fn peer_count(&self) -> (r: usize)
        ensures
            r == self.peers@.len(),
    {
        self.peers.len()
    }

    /// Whether the mesh is at capacity.
    pub fn is_full(&self) -> (r: bool)
        ensures
            r == (self.peers@.len() >= MAX_MESH_PEERS),
    {
        self.peers.len() >= MAX_MESH_PEERS
    }

    fn index_of(&self, p: PeerId) -> (r: Option<usize>)
        ensures
            match r {
                Some(i) => i < self.peers@.len() && self.peers@[i as int] == p,
                None => !self.peers@.contains(p),
            },
    {
        let mut i: usize = 0;
        while i < self.peers.len()
            invariant
                i <= self.peers.len(),
                forall|j: int| 0 <= j < i ==> self.peers@[j] != p,
            decreases self.peers.len() - i,
        {
            if self.peers[i] == p {
                return Some(i);
            }
            i += 1;
        }
        None
    }

    /// Whether a packet from `from` is taken: never self-echo, only known peers.
    pub fn accepts(&self, from: PeerId) -> (r: bool)
        ensures
            r == (from != self.me && self.peers@.contains(from)),
    {
        from != self.me && self.index_of(from).is_some()
    }

    /// Apply one lifecycle event: a connecting peer is admitted unless it is
    /// this peer, already present, or the mesh is full; a disconnecting peer is
    /// dropped if present. Returns what changed, if anything.
    pub fn on_event(&mut self, ev: MeshEvent) -> (change: Option<PeerChange>)
        requires
            old(self).wf(),
        ensures
            final(self).wf(),
            final(self).me == old(self).me,
            final(self).peers@ == event_step(old(self).me, old(self).peers@, ev),
            match ev {
                MeshEvent::Connected(p) => if p != old(self).me && old(self).peers@.len()
                    < MAX_MESH_PEERS && !old(self).peers@.contains(p) {
                    final(self).peers@ == old(self).peers@.push(p) && (change matches Some(
                        PeerChange::Joined { id, name },
                    ) && id == p && name@ == peer_name(p))
                } else {
                    final(self).peers@ == old(self).peers@ && change is None
                },
                MeshEvent::Disconnected(p) => if old(self).peers@.contains(p) {
                    final(self).peer_set() == old(self).peer_set().remove(p)
                        && final(self).peers@.len() + 1 == old(self).peers@.len() && change
                        == Some(PeerChange::Left(p))
                } else {
                    final(self).peers@ == old(self).peers@ && change is None
                },
            },
    {
        match ev {
            MeshEvent::Connected(p) => {
                if p != self.me && !self.is_full() && self.index_of(p).is_none() {
                    let ghost before = self.peers@;
                    self.peers.push(p);
                    proof {
                        assert forall|i: int, j: int|
                            0 <= i < self.peers@.len() && 0 <= j < self.peers@.len() && i != j
                            implies self.peers@[i] != self.peers@[j] by {
                            if i == before.len() as int {
                                assert(self.peers@[j] == before[j]);
                            } else if j == before.len() as int {
                                assert(self.peers@[i] == before[i]);
                            }
                        }
                        assert(!self.peers@.contains(self.me)) by {
                            if self.peers@.contains(self.me) {
                                let k = choose|k: int| 0 <= k < self.peers@.len() && self.peers@[k] == self.me;
                                if k < before.len() {
                                    assert(before[k] == self.me);
                                }
                            }
                        }
                    }
                    let mut name = String::new();
                    push_str(&mut name, "peer ");
                    let d = decimal(p as u64);
                    push_all(&mut name, &d);
                    Some(PeerChange::Joined { id: p, name })
                } else {
                    None
                }
            },
            MeshEvent::Disconnected(p) => {
                match self.index_of(p) {
                    Some(i) => {
                        let ghost before = self.peers@;
                        self.peers.remove(i);
                        proof {
                            assert(self.peers@ == before.remove(i as int));
                            assert(before.contains(p));
                            let k = before.index_of(p);
                            assert(0 <= k < before.len() && before[k] == p);
                            assert(k == i as int);
                            before.remove_ensures(i as int);
                            assert(self.peers@.to_set() =~= before.to_set().remove(p)) by {
                                assert forall|x: PeerId| self.peers@.to_set().contains(x) <==> before.to_set().remove(p).contains(x) by {
                                    if self.peers@.contains(x) {
                                        let k = choose|k: int| 0 <= k < self.peers@.len() && self.peers@[k] == x;
                                        if k < i {
                                            assert(before[k] == x);
                                        } else {
                                            assert(before[k + 1] == x);
                                        }
                                    }
                                    if before.contains(x) && x != p {
                                        let k = choose|k: int| 0 <= k < before.len() && before[k] == x;
                                        if k < i {
                                            assert(self.peers@[k] == x);
                                        } else {
                                            assert(k != i);
                                            assert(self.peers@[k - 1] == x);
                                        }
                                    }
                                }
                            }
                            assert(!self.peers@.contains(self.me)) by {
                                if self.peers@.contains(self.me) {
                                    assert(self.peers@.to_set().contains(self.me));
                                }
                            }
                        }
                        Some(PeerChange::Left(p))
                    },
                    None => None,
                }
            },
        }
    }

    /// Apply lifecycle events in order, returning the changes they made.
    pub fn apply_events(&mut self, events: &Vec<MeshEvent>) -> (changes: Vec<PeerChange>)
        requires
            old(self).wf(),
        ensures
            final(self).wf(),
            final(self).me == old(self).me,
            final(self).peers@ == peers_after(old(self).me, old(self).peers@, events@),
            changes@.len() <= events@.len(),
            changes_view(changes@) == changes_after(old(self).me, old(self).peers@, events@),
    {
        let ghost start = self.peers@;
        let mut changes: Vec<PeerChange> = Vec::new();
        let mut i: usize = 0;
        while i < events.len()
            invariant
                i <= events.len(),
                self.wf(),
                self.me == old(self).me,
                start == old(self).peers@,
                self.peers@ == peers_after(self.me, start, events@.take(i as int)),
                changes@.len() <= i,
                changes_view(changes@) == changes_after(self.me, start, events@.take(i as int)),
            decreases events.len() - i,
        {
            assert(events@.take(i + 1).drop_last() =~= events@.take(i as int));
            assert(events@.take(i + 1).last() == events@[i as int]);
            let ghost before = changes_view(changes@);
            let ghost peers0 = self.peers@;
            match self.on_event(events[i]) {
                Some(c) => {
                    changes.push(c);
                    proof {
                        assert(changes_view(changes@) =~= before.push(change_view(c)));
                    }
                },
                None => {},
            }
            proof {
                let step = event_change(self.me, peers0, events@[i as int]);
                match events@[i as int] {
                    MeshEvent::Connected(p) => {},
                    MeshEvent::Disconnected(p) => {},
                }
                assert(changes_view(changes@) =~= before + step);
            }
            i += 1;
        }
        assert(events@.take(events.len() as int) =~= events@);
        changes
    }

    /// Pump the transport's lifecycle events into the peer set, returning the
    /// changes in order. Whatever events the transport hands over, the peer
    /// set stays well-formed: no duplicates, never this peer, never past the cap.
    pub fn pump_events<T: MeshTransport>(&mut self, tx: &mut T) -> (changes: Vec<PeerChange>)
        requires
            old(self).wf(),
        ensures
            final(self).wf(),
            final(self).me == old(self).me,
            exists|evs: Seq<MeshEvent>|
                final(self).peers@ == peers_after(old(self).me, old(self).peers@, evs) && changes_view(changes@)
                    == changes_after(old(self).me, old(self).peers@, evs),
    {
        let events = tx.events();
        self.apply_events(&events)
    }

    /// The packets worth decoding among `all`: those from known peers,
    /// self-echo and strangers dropped, in arrival order.
    pub fn accept_packets(&self, all: Vec<(PeerId, Vec<u8>)>) -> (packets: Vec<(PeerId, Vec<u8>)>)
        ensures
            packets@ == from_peers(self.me, self.peers@, all@),
    {
        let ghost whole = all@;
        let mut rest = all;
        let mut out: Vec<(PeerId, Vec<u8>)> = Vec::new();
        let ghost mut taken: int = 0;
        while rest.len() > 0
            invariant
                0 <= taken <= whole.len(),
                rest@ == whole.skip(taken),
                out@ == from_peers(self.me, self.peers@, whole.take(taken)),
            decreases rest.len(),
        {
            let (from, data) = rest.remove(0);
            proof {
                assert(whole.take(taken + 1).drop_last() =~= whole.take(taken));
                assert(whole.take(taken + 1).last() == whole[taken]);
            }
            if self.accepts(from) {
                out.push((from, data));
            }
            proof {
                taken = taken + 1;
                assert(rest@ =~= whole.skip(taken));
            }
        }
        assert(whole.take(taken) =~= whole);
        out
    }

    /// The inbound packets worth decoding, drained from the transport:
    /// whatever it hands over, only packets from known peers other than this
    /// one come back.
    pub fn inbound<T: MeshTransport>(&self, tx: &mut T) -> (packets: Vec<(PeerId, Vec<u8>)>)
        ensures
            forall|k: int| 0 <= k < packets@.len() ==> #[trigger] packets@[k].0 != self.me && self.peers@.contains(packets@[k].0),
    {
        let all = tx.poll();
        let ghost av = all@;
        let packets = self.accept_packets(all);
        proof {
            lemma_from_peers_are_peers(self.me, self.peers@, av);
        }
        packets
    }
}

} // verus!
