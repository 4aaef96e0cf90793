//! The rendezvous room hub — the socket-free core of a Thread P2P rendezvous.
//!
//! It introduces peers and relays their WebRTC signaling (`offer` / `answer` /
//! `candidate`) blindly; it never sees a pose. All the wire behaviour is a state
//! machine, `handle(event) -> [outbound]`. Frames arrive already parsed into a
//! [`Frame`] (their `t` tag, their `to` field, and their canonical JSON text);
//! a frame that is not JSON arrives as [`Inbound::Malformed`].
//!
//! Wire contract:
//! - `announce`: the rendezvous assigns a fresh id and replies `welcome{id}`
//!   before `peers{…}` (the members already in the room); each of those members
//!   receives the delta `peers{[newcomer]}`.
//! - `offer` / `answer` / `candidate`: relayed verbatim to the member named in
//!   `to`, same room only, and only from an announced member.
//! - `leave` (or a disconnect): `leave{peer}` to the rest of the room.

use vstd::prelude::*;
use crate::text::{
    chars_of, dec_digits, decimal, push_all, push_str, same_text, has_prefix, starts_with, string_of,
    string_of_all, trim_start_char, trim_start_matching,
};

verus! {

/// A connection handle assigned by the transport layer (one per WebSocket).
pub type ConnId = u64;

/// A peer id on the mesh wire (server-assigned here).
pub type PeerId = u32;

/// A parsed wire frame: its `t` tag (when it is a string), its `to` field
/// (when it is an unsigned integer), and its canonical JSON text.
pub struct Frame {
    pub t: Option<String>,
    pub to: Option<u64>,
    pub text: String,
}

/// An event coming into the hub.
pub enum Inbound {
    /// A socket connected to room `key` (from the `…/rtc/<key>` path).
    Connect(ConnId, String),
    /// A JSON frame arrived on a connection.
    Text(ConnId, Frame),
    /// A frame that is not JSON arrived on a connection.
    Malformed(ConnId),
    /// A socket closed.
    Disconnect(ConnId),
}

/// A message the hub wants sent to a specific connection.
pub struct Outbound {
    pub conn: ConnId,
    pub text: String,
}

/// An announced member: its assigned id and its room.
pub struct Member {
    pub id: PeerId,
    pub room: String,
}

/// The rendezvous hub: rooms, members, and the signaling state machine.
pub struct Hub {
    pub next_id: PeerId,
    /// Which room a connection belongs to (from its URL path), set on `Connect`.
    pub conn_room: Vec<(ConnId, String)>,
    /// Announced members, in the order they announced.
    pub members: Vec<(ConnId, Member)>,
}

/// A member as plain values: connection, id, room.
pub type MemberView = (ConnId, (PeerId, Seq<char>));

pub open spec fn members_view(v: Seq<(ConnId, Member)>) -> Seq<MemberView> {
    Seq::new(v.len(), |i: int| (v[i].0, (v[i].1.id, v[i].1.room@)))
}

pub open spec fn rooms_view(v: Seq<(ConnId, String)>) -> Seq<(ConnId, Seq<char>)> {
    Seq::new(v.len(), |i: int| (v[i].0, v[i].1@))
}

pub open spec fn outs_view(v: Seq<Outbound>) -> Seq<(ConnId, Seq<char>)> {
    Seq::new(v.len(), |i: int| (v[i].conn, v[i].text@))
}

/// `{"id":N,"t":"welcome"}`.
pub open spec fn welcome_text(id: PeerId) -> Seq<char> {
    "{\"id\":"@ + dec_digits(id as nat) + ",\"t\":\"welcome\"}"@
}

/// The ids joined with commas.
pub open spec fn id_list(ids: Seq<PeerId>) -> Seq<char>
    decreases ids.len(),
{
    if ids.len() == 0 {
        Seq::empty()
    } else if ids.len() == 1 {
        dec_digits(ids[0] as nat)
    } else {
        id_list(ids.drop_last()) + ","@ + dec_digits(ids.last() as nat)
    }
}

/// `{"peers":[…],"t":"peers"}`.
pub open spec fn peers_text(ids: Seq<PeerId>) -> Seq<char> {
    "{\"peers\":["@ + id_list(ids) + "],\"t\":\"peers\"}"@
}

/// `{"peer":N,"t":"leave"}`.
pub open spec fn leave_text(id: PeerId) -> Seq<char> {
    "{\"peer\":"@ + dec_digits(id as nat) + ",\"t\":\"leave\"}"@
}

/// The members of `room`, in order.
pub open spec fn in_room(ms: Seq<MemberView>, room: Seq<char>) -> Seq<MemberView>
    decreases ms.len(),
{
    if ms.len() == 0 {
        ms
    } else if ms.last().1.1 == room {
        in_room(ms.drop_last(), room).push(ms.last())
    } else {
        in_room(ms.drop_last(), room)
    }
}

/// The members of `room` other than connection `except`, in order.
pub open spec fn in_room_except(ms: Seq<MemberView>, room: Seq<char>, except: ConnId) -> Seq<MemberView>
    decreases ms.len(),
{
    if ms.len() == 0 {
        ms
    } else if ms.last().1.1 == room && ms.last().0 != except {
        in_room_except(ms.drop_last(), room, except).push(ms.last())
    } else {
        in_room_except(ms.drop_last(), room, except)
    }
}

/// The first entry keyed by `conn`.
pub open spec fn find_key<V>(v: Seq<(ConnId, V)>, conn: ConnId) -> Option<int> {
    if exists|i: int| 0 <= i < v.len() && v[i].0 == conn {
        Some(choose|i: int| 0 <= i < v.len() && v[i].0 == conn)
    } else {
        None
    }
}

/// Keys appear at most once.
pub open spec fn unique_keys<V>(v: Seq<(ConnId, V)>) -> bool {
    forall|i: int, j: int| 0 <= i < j < v.len() ==> v[i].0 != v[j].0
}

/// `HashMap::insert`: the entry for `conn` takes the new value (appended when new).
pub open spec fn set_room(v: Seq<(ConnId, Seq<char>)>, conn: ConnId, room: Seq<char>) -> Seq<(ConnId, Seq<char>)> {
    match find_key(v, conn) {
        Some(i) => v.update(i, (conn, room)),
        None => v.push((conn, room)),
    }
}

/// `HashMap::remove`: the entry for `conn` dropped, the rest kept in order.
pub open spec fn drop_key<V>(v: Seq<(ConnId, V)>, conn: ConnId) -> Seq<(ConnId, V)> {
    match find_key(v, conn) {
        Some(i) => v.remove(i),
        None => v,
    }
}

/// One outbound message per recipient, all with the same text.
pub open spec fn to_each(rs: Seq<MemberView>, text: Seq<char>) -> Seq<(ConnId, Seq<char>)> {
    Seq::new(rs.len(), |i: int| (rs[i].0, text))
}

pub open spec fn ids_of(rs: Seq<MemberView>) -> Seq<PeerId> {
    Seq::new(rs.len(), |i: int| rs[i].1.0)
}

/// The members among `rs` whose id is `id`, in order.
pub open spec fn with_id(rs: Seq<MemberView>, id: PeerId) -> Seq<MemberView>
    decreases rs.len(),
{
    if rs.len() == 0 {
        rs
    } else if rs.last().1.0 == id {
        with_id(rs.drop_last(), id).push(rs.last())
    } else {
        with_id(rs.drop_last(), id)
    }
}

pub open spec fn is_signal(t: Seq<char>) -> bool {
    t == "offer"@ || t == "answer"@ || t == "candidate"@
}

/// The hub's state as plain values: next id, connection rooms, members.
pub type HubView = (PeerId, Seq<(ConnId, Seq<char>)>, Seq<MemberView>);

/// What removing connection `conn`'s membership does: the member dropped, and
/// `leave{peer}` to the rest of its room.
pub open spec fn remove_step(h: HubView, conn: ConnId) -> (HubView, Seq<(ConnId, Seq<char>)>) {
    match find_key(h.2, conn) {
        None => (h, Seq::empty()),
        Some(i) => {
            let m = h.2[i];
            let rest = h.2.remove(i);
            ((h.0, h.1, rest), to_each(in_room(rest, m.1.1), leave_text(m.1.0)))
        },
    }
}

/// What an `announce` on `conn` does.
pub open spec fn announce_step(h: HubView, conn: ConnId) -> (HubView, Seq<(ConnId, Seq<char>)>) {
    match find_key(h.1, conn) {
        None => (h, Seq::empty()),
        Some(ri) => if find_key(h.2, conn) is Some {
            (h, Seq::empty())
        } else {
            let room = h.1[ri].1;
            let id = h.0;
            let existing = in_room(h.2, room);
            (
                ((id + 1) as PeerId, h.1, h.2.push((conn, (id, room)))),
                seq![(conn, welcome_text(id)), (conn, peers_text(ids_of(existing)))] + to_each(
                    existing,
                    peers_text(seq![id]),
                ),
            )
        },
    }
}

/// What a signaling frame from `conn` addressed `to` does: relayed verbatim to
/// every other member of the sender's room with that id.
pub open spec fn relay_step(h: HubView, conn: ConnId, to: Option<u64>, text: Seq<char>) -> Seq<(ConnId, Seq<char>)> {
    match find_key(h.2, conn) {
        None => Seq::empty(),
        Some(si) => match to {
            None => Seq::empty(),
            Some(t) => {
                let sender = h.2[si];
                let rs = in_room_except(h.2, sender.1.1, conn);
                to_each(with_id(rs, t as PeerId), text)
            },
        },
    }
}

} // verus!

verus! {

pub proof fn lemma_find_key_unique<V>(v: Seq<(ConnId, V)>, conn: ConnId, i: int)
    requires
        unique_keys(v),
        0 <= i < v.len(),
        v[i].0 == conn,
    ensures
        find_key(v, conn) == Some(i),
{
}

pub proof fn lemma_find_key_props<V>(v: Seq<(ConnId, V)>, conn: ConnId)
    ensures
        find_key(v, conn) matches Some(i) ==> 0 <= i < v.len() && v[i].0 == conn,
        find_key(v, conn) is None ==> forall|j: int| 0 <= j < v.len() ==> v[j].0 != conn,
{
}

fn text(s: &str) -> (r: String)
    ensures
        r@ == s@,
{
    let mut r = String::new();
    push_str(&mut r, s);
    r
}

fn push_decimal(s: &mut String, n: u64)
    ensures
        final(s)@ == old(s)@ + dec_digits(n as nat),
{
    let d = decimal(n);
    push_all(s, &d);
}

fn welcome_msg(id: PeerId) -> (r: String)
    ensures
        r@ == welcome_text(id),
{
    let mut r = text("{\"id\":");
    push_decimal(&mut r, id as u64);
    push_str(&mut r, ",\"t\":\"welcome\"}");
    r
}

fn leave_msg(id: PeerId) -> (r: String)
    ensures
        r@ == leave_text(id),
{
    let mut r = text("{\"peer\":");
    push_decimal(&mut r, id as u64);
    push_str(&mut r, ",\"t\":\"leave\"}");
    r
}

fn peers_msg(ids: &Vec<PeerId>) -> (r: String)
    ensures
        r@ == peers_text(ids@),
{
    let mut list = String::new();
    let mut i: usize = 0;
    while i < ids.len()
        invariant
            i <= ids.len(),
            list@ == id_list(ids@.take(i as int)),
        decreases ids.len() - i,
    {
        assert(ids@.take(i + 1).drop_last() == ids@.take(i as int));
        if i > 0 {
            push_str(&mut list, ",");
        }
        push_decimal(&mut list, ids[i] as u64);
        i += 1;
        assert(ids@.take(i as int).last() == ids@[i - 1]);
        proof {
            if i == 1 {
                assert(ids@.take(1)[0] == ids@[0]);
            }
        }
    }
    assert(ids@.take(ids.len() as int) == ids@);
    let mut r = text("{\"peers\":[");
    let lv = chars_of(list.as_str());
    push_all(&mut r, &lv);
    push_str(&mut r, "],\"t\":\"peers\"}");
    r
}

impl Hub {
    pub open spec fn view(self) -> HubView {
        (self.next_id, rooms_view(self.conn_room@), members_view(self.members@))
    }

    /// Keys unique, every assigned id below `next_id`, ids pairwise distinct.
    pub open spec fn wf(self) -> bool {
        let v = self.view();
        &&& unique_keys(v.1)
        &&& unique_keys(v.2)
        &&& v.0 >= 1
        &&& forall|i: int| 0 <= i < v.2.len() ==> #[trigger] v.2[i].1.0 < v.0
        &&& forall|i: int, j: int| 0 <= i < j < v.2.len() ==> v.2[i].1.0 != v.2[j].1.0
    }

    pub fn new() -> (r: Self)
        ensures
            r.view() == (1u32, Seq::<(ConnId, Seq<char>)>::empty(), Seq::<MemberView>::empty()),
            r.wf(),
    {
        let r = Hub { next_id: 1, conn_room: Vec::new(), members: Vec::new() };
        assert(r.view().1 =~= Seq::<(ConnId, Seq<char>)>::empty());
        assert(r.view().2 =~= Seq::<MemberView>::empty());
        r
    }

    /// Current number of announced members across all rooms.
    pub fn member_count(&self) -> (r: usize)
        ensures
            r == self.view().2.len(),
    {
        self.members.len()
    }

    fn room_index(&self, conn: ConnId) -> (r: Option<usize>)
        requires
            self.wf(),
        ensures
            match r {
                Some(i) => find_key(self.view().1, conn) == Some(i as int),
                None => find_key(self.view().1, conn) is None,
            },
    {
        let mut i: usize = 0;
        while i < self.conn_room.len()
            invariant
                i <= self.conn_room.len(),
                self.wf(),
                forall|j: int| 0 <= j < i ==> self.view().1[j].0 != conn,
            decreases self.conn_room.len() - i,
        {
            if self.conn_room[i].0 == conn {
                proof {
                    lemma_find_key_unique(self.view().1, conn, i as int);
                }
                return Some(i);
            }
            i += 1;
        }
        None
    }

    fn member_index(&self, conn: ConnId) -> (r: Option<usize>)
        requires
            self.wf(),
        ensures
            match r {
                Some(i) => find_key(self.view().2, conn) == Some(i as int),
                None => find_key(self.view().2, conn) is None,
            },
    {
        let mut i: usize = 0;
        while i < self.members.len()
            invariant
                i <= self.members.len(),
                self.wf(),
                forall|j: int| 0 <= j < i ==> self.view().2[j].0 != conn,
            decreases self.members.len() - i,
        {
            if self.members[i].0 == conn {
                proof {
                    lemma_find_key_unique(self.view().2, conn, i as int);
                }
                return Some(i);
            }
            i += 1;
        }
        None
    }

    /// Messages with `text` to every member of `room` (except `except`, when
    /// given), in order.
    fn send_room(&self, room: &String, except: Option<ConnId>, text: &String) -> (out: Vec<Outbound>)
        ensures
            outs_view(out@) == to_each(
                match except {
                    Some(c) => in_room_except(self.view().2, room@, c),
                    None => in_room(self.view().2, room@),
                },
                text@,
            ),
    {
        let ghost ms = self.view().2;
        let mut out: Vec<Outbound> = Vec::new();
        let mut i: usize = 0;
        while i < self.members.len()
            invariant
                i <= self.members.len(),
                ms == self.view().2,
                outs_view(out@) == to_each(
                    match except {
                        Some(c) => in_room_except(ms.take(i as int), room@, c),
                        None => in_room(ms.take(i as int), room@),
                    },
                    text@,
                ),
            decreases self.members.len() - i,
        {
            assert(ms.take(i + 1).drop_last() == ms.take(i as int));
            assert(ms.take(i + 1).last() == ms[i as int]);
            let same_room = same_text(self.members[i].1.room.as_str(), room.as_str());
            let not_except = match except {
                Some(c) => self.members[i].0 != c,
                None => true,
            };
            let ghost before = out@;
            if same_room && not_except {
                out.push(Outbound { conn: self.members[i].0, text: text.clone() });
                assert(outs_view(out@) =~= outs_view(before).push((ms[i as int].0, text@)));
            }
            i += 1;
        }
        assert(ms.take(self.members.len() as int) == ms);
        out
    }

    fn remove_member(&mut self, conn: ConnId) -> (out: Vec<Outbound>)
        requires
            old(self).wf(),
        ensures
            final(self).wf(),
            (final(self).view(), outs_view(out@)) == remove_step(old(self).view(), conn),
    {
        match self.member_index(conn) {
            None => Vec::new(),
            Some(i) => {
                let ghost before = self.view();
                let (_, m) = self.members.remove(i);
                assert(self.view().2 =~= before.2.remove(i as int));
                assert(self.view().1 == before.1);
                proof {
                    let v = self.view();
                    assert forall|a: int, b: int| 0 <= a < b < v.2.len() implies v.2[a].0 != v.2[b].0 && v.2[a].1.0 != v.2[b].1.0 by {
                        let a0 = if a < i { a } else { a + 1 };
                        let b0 = if b < i { b } else { b + 1 };
                        assert(v.2[a] == before.2[a0]);
                        assert(v.2[b] == before.2[b0]);
                    }
                    assert forall|a: int| 0 <= a < v.2.len() implies #[trigger] v.2[a].1.0 < v.0 by {
                        let a0 = if a < i { a } else { a + 1 };
                        assert(v.2[a] == before.2[a0]);
                    }
                }
                let leave = leave_msg(m.id);
                self.send_room(&m.room, None, &leave)
            },
        }
    }
}

} // verus!

verus! {

/// What one event does to the hub, and the messages it sends.
pub open spec fn handle_step(h: HubView, ev: Inbound) -> (HubView, Seq<(ConnId, Seq<char>)>) {
    match ev {
        Inbound::Connect(conn, room) => ((h.0, set_room(h.1, conn, room@), h.2), Seq::empty()),
        Inbound::Malformed(_) => (h, Seq::empty()),
        Inbound::Text(conn, f) => match f.t {
            Some(t) => if t@ == "announce"@ {
                announce_step(h, conn)
            } else if is_signal(t@) {
                (h, relay_step(h, conn, f.to, f.text@))
            } else if t@ == "leave"@ {
                remove_step(h, conn)
            } else {
                (h, Seq::empty())
            },
            None => (h, Seq::empty()),
        },
        Inbound::Disconnect(conn) => remove_step((h.0, drop_key(h.1, conn), h.2), conn),
    }
}

impl Hub {
    fn on_announce(&mut self, conn: ConnId) -> (out: Vec<Outbound>)
        requires
            old(self).wf(),
            old(self).next_id < u32::MAX,
        ensures
            final(self).wf(),
            (final(self).view(), outs_view(out@)) == announce_step(old(self).view(), conn),
    {
        let ri = match self.room_index(conn) {
            Some(ri) => ri,
            None => return Vec::new(),
        };
        if self.member_index(conn).is_some() {
            return Vec::new();
        }
        let room = self.conn_room[ri].1.clone();
        let id = self.next_id;
        let ghost before = self.view();
        let ghost ms = before.2;
        let delta_text = peers_msg(&vec![id]);
        let mut ids: Vec<PeerId> = Vec::new();
        let mut deltas: Vec<Outbound> = Vec::new();
        let mut i: usize = 0;
        while i < self.members.len()
            invariant
                i <= self.members.len(),
                ms == self.view().2,
                room@ == before.1[ri as int].1,
                ids@ == ids_of(in_room(ms.take(i as int), room@)),
                outs_view(deltas@) == to_each(in_room(ms.take(i as int), room@), delta_text@),
            decreases self.members.len() - i,
        {
            assert(ms.take(i + 1).drop_last() == ms.take(i as int));
            assert(ms.take(i + 1).last() == ms[i as int]);
            if same_text(self.members[i].1.room.as_str(), room.as_str()) {
                let ghost b_ids = ids@;
                let ghost b_out = deltas@;
                ids.push(self.members[i].1.id);
                deltas.push(Outbound { conn: self.members[i].0, text: delta_text.clone() });
                assert(ids@ =~= ids_of(in_room(ms.take(i as int), room@).push(ms[i as int])));
                assert(outs_view(deltas@) =~= outs_view(b_out).push((ms[i as int].0, delta_text@)));
            }
            i += 1;
        }
        assert(ms.take(self.members.len() as int) == ms);
        self.members.push((conn, Member { id, room }));
        self.next_id = id + 1;
        proof {
            let v = self.view();
            assert(v.2 =~= before.2.push((conn, (id, before.1[ri as int].1))));
            assert forall|a: int, b: int| 0 <= a < b < v.2.len() implies v.2[a].0 != v.2[b].0 && v.2[a].1.0 != v.2[b].1.0 by {
                if b == v.2.len() - 1 {
                    assert(v.2[a] == before.2[a]);
                    assert(before.2[a].1.0 < before.0);
                    lemma_find_key_props(before.2, conn);
                }
            }
            assert forall|a: int| 0 <= a < v.2.len() implies #[trigger] v.2[a].1.0 < v.0 by {
                if a < v.2.len() - 1 {
                    assert(v.2[a] == before.2[a]);
                }
            }
        }
        let mut out: Vec<Outbound> = Vec::new();
        out.push(Outbound { conn, text: welcome_msg(id) });
        out.push(Outbound { conn, text: peers_msg(&ids) });
        let ghost head = outs_view(out@);
        out.append(&mut deltas);
        assert(outs_view(out@) =~= head + to_each(in_room(ms, room@), delta_text@));
        out
    }

    fn relay_to(&self, conn: ConnId, f: &Frame) -> (out: Vec<Outbound>)
        requires
            self.wf(),
        ensures
            outs_view(out@) == relay_step(self.view(), conn, f.to, f.text@),
    {
        let si = match self.member_index(conn) {
            Some(si) => si,
            None => return Vec::new(),
        };
        let to: PeerId = match f.to {
            Some(t) => t as PeerId,
            None => return Vec::new(),
        };
        let ghost ms = self.view().2;
        let room = &self.members[si].1.room;
        let mut out: Vec<Outbound> = Vec::new();
        let mut i: usize = 0;
        while i < self.members.len()
            invariant
                i <= self.members.len(),
                ms == self.view().2,
                room@ == ms[si as int].1.1,
                outs_view(out@) == to_each(with_id(in_room_except(ms.take(i as int), room@, conn), to), f.text@),
            decreases self.members.len() - i,
        {
            assert(ms.take(i + 1).drop_last() == ms.take(i as int));
            assert(ms.take(i + 1).last() == ms[i as int]);
            let ghost x = in_room_except(ms.take(i as int), room@, conn);
            assert(x.push(ms[i as int]).drop_last() == x);
            if self.members[i].0 != conn && same_text(self.members[i].1.room.as_str(), room.as_str())
                && self.members[i].1.id == to {
                let ghost b_out = out@;
                out.push(Outbound { conn: self.members[i].0, text: f.text.clone() });
                assert(outs_view(out@) =~= outs_view(b_out).push((ms[i as int].0, f.text@)));
            }
            i += 1;
        }
        assert(ms.take(self.members.len() as int) == ms);
        out
    }

    /// Advance the state machine by one event, returning messages to send.
    pub fn handle(&mut self, ev: Inbound) -> (out: Vec<Outbound>)
        requires
            old(self).wf(),
            old(self).next_id < u32::MAX,
        ensures
            final(self).wf(),
            (final(self).view(), outs_view(out@)) == handle_step(old(self).view(), ev),
    {
        match ev {
            Inbound::Connect(conn, room) => {
                let ghost before = self.view();
                match self.room_index(conn) {
                    Some(i) => {
                        self.conn_room.set(i, (conn, room));
                        assert(self.view().1 =~= before.1.update(i as int, (conn, room@)));
                    },
                    None => {
                        self.conn_room.push((conn, room));
                        assert(self.view().1 =~= before.1.push((conn, room@)));
                        proof {
                            lemma_find_key_props(before.1, conn);
                        }
                    },
                }
                Vec::new()
            },
            Inbound::Malformed(_) => Vec::new(),
            Inbound::Text(conn, f) => {
                match &f.t {
                    Some(t) => {
                        if same_text(t.as_str(), "announce") {
                            self.on_announce(conn)
                        } else if same_text(t.as_str(), "offer") || same_text(t.as_str(), "answer")
                            || same_text(t.as_str(), "candidate") {
                            self.relay_to(conn, &f)
                        } else if same_text(t.as_str(), "leave") {
                            self.remove_member(conn)
                        } else {
                            Vec::new()
                        }
                    },
                    None => Vec::new(),
                }
            },
            Inbound::Disconnect(conn) => {
                let ghost before = self.view();
                match self.room_index(conn) {
                    Some(i) => {
                        self.conn_room.remove(i);
                        assert(self.view().1 =~= before.1.remove(i as int));
                        proof {
                            let v = self.view();
                            assert forall|a: int, b: int| 0 <= a < b < v.1.len() implies v.1[a].0 != v.1[b].0 by {
                                let a0 = if a < i { a } else { a + 1 };
                                let b0 = if b < i { b } else { b + 1 };
                                assert(v.1[a] == before.1[a0]);
                                assert(v.1[b] == before.1[b0]);
                            }
                        }
                    },
                    None => {},
                }
                self.remove_member(conn)
            },
        }
    }
}

/// The members picked for a room are members of that room.
pub proof fn lemma_in_room_members(ms: Seq<MemberView>, room: Seq<char>, except: ConnId, id: PeerId)
    ensures
        forall|k: int| 0 <= k < in_room(ms, room).len() ==> (#[trigger] in_room(ms, room)[k]).1.1 == room
            && ms.contains(in_room(ms, room)[k]),
        forall|k: int| 0 <= k < in_room_except(ms, room, except).len() ==> (#[trigger] in_room_except(ms, room, except)[k]).1.1 == room
            && in_room_except(ms, room, except)[k].0 != except && ms.contains(in_room_except(ms, room, except)[k]),
        forall|k: int| 0 <= k < with_id(ms, id).len() ==> (#[trigger] with_id(ms, id)[k]).1.0 == id && ms.contains(with_id(ms, id)[k]),
    decreases ms.len(),
{
    if ms.len() > 0 {
        let d = ms.drop_last();
        lemma_in_room_members(d, room, except, id);
        assert(ms.contains(ms.last())) by {
            assert(ms[ms.len() - 1] == ms.last());
        }
        assert forall|x: MemberView| d.contains(x) implies ms.contains(x) by {
            let k = choose|k: int| 0 <= k < d.len() && d[k] == x;
            assert(ms[k] == x);
        }
        let a = in_room(ms, room);
        let a0 = in_room(d, room);
        assert forall|k: int| 0 <= k < a.len() implies (#[trigger] a[k]).1.1 == room && ms.contains(a[k]) by {
            if k < a0.len() {
                assert(a[k] == a0[k]);
                assert(d.contains(a0[k]));
            } else {
                assert(a[k] == ms.last());
            }
        }
        let b = in_room_except(ms, room, except);
        let b0 = in_room_except(d, room, except);
        assert forall|k: int| 0 <= k < b.len() implies (#[trigger] b[k]).1.1 == room && b[k].0 != except && ms.contains(b[k]) by {
            if k < b0.len() {
                assert(b[k] == b0[k]);
                assert(d.contains(b0[k]));
            } else {
                assert(b[k] == ms.last());
            }
        }
        let c = with_id(ms, id);
        let c0 = with_id(d, id);
        assert forall|k: int| 0 <= k < c.len() implies (#[trigger] c[k]).1.0 == id && ms.contains(c[k]) by {
            if k < c0.len() {
                assert(c[k] == c0[k]);
                assert(d.contains(c0[k]));
            } else {
                assert(c[k] == ms.last());
            }
        }
    }
}

/// An announce that is taken answers the newcomer first with `welcome` (its
/// id: the hub's next id), then `peers`, and introduces it only to members of
/// its own room.
pub proof fn lemma_announce_welcome_first(h: HubView, conn: ConnId)
    requires
        find_key(h.1, conn) is Some,
        find_key(h.2, conn) is None,
    ensures
        ({
            let (after, out) = announce_step(h, conn);
            let room = h.1[find_key(h.1, conn)->0].1;
            &&& out.len() >= 2
            &&& out[0] == (conn, welcome_text(h.0))
            &&& out[1].0 == conn
            &&& after.2.last() == (conn, (h.0, room))
            &&& forall|k: int| #![trigger out[k]] 2 <= k < out.len() ==> exists|m: MemberView| #[trigger] h.2.contains(m) && m.0 == out[k].0 && m.1.1 == room
        }),
{
    let (after, out) = announce_step(h, conn);
    let room = h.1[find_key(h.1, conn)->0].1;
    let existing = in_room(h.2, room);
    lemma_in_room_members(h.2, room, conn, 0);
    assert forall|k: int| #![trigger out[k]] 2 <= k < out.len() implies exists|m: MemberView| #[trigger] h.2.contains(m) && m.0 == out[k].0 && m.1.1 == room by {
        assert(out[k].0 == existing[k - 2].0);
        assert(h.2.contains(existing[k - 2]));
    }
}

/// Signaling never crosses rooms: every recipient of a relayed frame is
/// another member of the sender's room, with the addressed id.
pub proof fn lemma_relay_stays_in_room(h: HubView, conn: ConnId, to: u64, text: Seq<char>)
    requires
        find_key(h.2, conn) is Some,
    ensures
        ({
            let sender = h.2[find_key(h.2, conn)->0];
            let out = relay_step(h, conn, Some(to), text);
            forall|k: int| #![trigger out[k]] 0 <= k < out.len() ==> exists|m: MemberView| #[trigger] h.2.contains(m) && m.0 == out[k].0 && m.0 != conn && m.1.1 == sender.1.1 && m.1.0 == to as PeerId && out[k].1 == text
        }),
{
    let sender = h.2[find_key(h.2, conn)->0];
    let rs = in_room_except(h.2, sender.1.1, conn);
    let w = with_id(rs, to as PeerId);
    lemma_in_room_members(h.2, sender.1.1, conn, to as PeerId);
    lemma_in_room_members(rs, sender.1.1, conn, to as PeerId);
    let out = relay_step(h, conn, Some(to), text);
    assert forall|k: int| #![trigger out[k]] 0 <= k < out.len() implies exists|m: MemberView| #[trigger] h.2.contains(m) && m.0 == out[k].0 && m.0 != conn && m.1.1 == sender.1.1 && m.1.0 == to as PeerId && out[k].1 == text by {
        assert(out[k].0 == w[k].0);
        assert(rs.contains(w[k]));
        let j = choose|j: int| 0 <= j < rs.len() && rs[j] == w[k];
        assert(h.2.contains(rs[j]));
    }
}

proof fn lemma_no_id_none(ms: Seq<MemberView>, room: Seq<char>, except: ConnId, q: PeerId)
    requires
        forall|k: int| 0 <= k < ms.len() ==> (#[trigger] ms[k]).1.0 != q,
    ensures
        with_id(in_room_except(ms, room, except), q).len() == 0,
    decreases ms.len(),
{
    if ms.len() > 0 {
        assert forall|k: int| 0 <= k < ms.drop_last().len() implies (#[trigger] ms.drop_last()[k]).1.0 != q by {
            assert(ms.drop_last()[k] == ms[k]);
        }
        lemma_no_id_none(ms.drop_last(), room, except, q);
        let r0 = in_room_except(ms.drop_last(), room, except);
        if ms.last().1.1 == room && ms.last().0 != except {
            assert(in_room_except(ms, room, except) == r0.push(ms.last()));
            assert(r0.push(ms.last()).drop_last() =~= r0);
            assert(ms.last().1.0 != q);
        }
    }
}

/// With ids distinct, the members of `room` other than `except` that carry
/// id `q` are exactly member `ms[j]`, when it is one of them.
proof fn lemma_with_id_is_the_member(ms: Seq<MemberView>, room: Seq<char>, except: ConnId, j: int)
    requires
        0 <= j < ms.len(),
        ms[j].1.1 == room,
        ms[j].0 != except,
        forall|a: int, b: int| 0 <= a < b < ms.len() ==> ms[a].1.0 != ms[b].1.0,
    ensures
        with_id(in_room_except(ms, room, except), ms[j].1.0) == seq![ms[j]],
    decreases ms.len(),
{
    let q = ms[j].1.0;
    let d = ms.drop_last();
    let r0 = in_room_except(d, room, except);
    if j == ms.len() - 1 {
        assert forall|k: int| 0 <= k < d.len() implies (#[trigger] d[k]).1.0 != q by {
            assert(d[k] == ms[k]);
        }
        lemma_no_id_none(d, room, except, q);
        assert(in_room_except(ms, room, except) == r0.push(ms.last()));
        assert(r0.push(ms.last()).drop_last() =~= r0);
        assert(with_id(r0.push(ms.last()), q) =~= with_id(r0, q).push(ms.last()));
        assert(with_id(r0, q) =~= Seq::<MemberView>::empty());
    } else {
        assert(d[j] == ms[j]);
        assert forall|a: int, b: int| 0 <= a < b < d.len() implies d[a].1.0 != d[b].1.0 by {
            assert(d[a] == ms[a] && d[b] == ms[b]);
        }
        lemma_with_id_is_the_member(d, room, except, j);
        assert(ms.last().1.0 != q);
        if ms.last().1.1 == room && ms.last().0 != except {
            assert(in_room_except(ms, room, except) == r0.push(ms.last()));
            assert(r0.push(ms.last()).drop_last() =~= r0);
        }
    }
}

/// Signaling reaches its addressee: an `offer`, `answer` or `candidate` sent
/// by a member and addressed to the id of another member of the same room is
/// delivered, verbatim and only, to that member, and the hub is unchanged.
pub proof fn lemma_signals_reach_their_peer(h: HubView, sender: int, peer: int, f: Frame)
    requires
        unique_keys(h.2),
        forall|a: int, b: int| 0 <= a < b < h.2.len() ==> h.2[a].1.0 != h.2[b].1.0,
        0 <= sender < h.2.len(),
        0 <= peer < h.2.len(),
        sender != peer,
        h.2[sender].1.1 == h.2[peer].1.1,
        f.t matches Some(t) && (t@ == "offer"@ || t@ == "answer"@ || t@ == "candidate"@),
        f.to == Some(h.2[peer].1.0 as u64),
    ensures
        handle_step(h, Inbound::Text(h.2[sender].0, f)) == (h, seq![(h.2[peer].0, f.text@)]),
{
    let c = h.2[sender].0;
    lemma_find_key_unique(h.2, c, sender);
    reveal_strlit("announce");
    reveal_strlit("offer");
    reveal_strlit("answer");
    reveal_strlit("candidate");
    reveal_strlit("leave");
    let t = f.t->0;
    assert(t@ != "announce"@) by {
        if t@ == "announce"@ {
            assert(t@.len() == 8);
        }
    }
    assert(t@ != "leave"@) by {
        if t@ == "leave"@ {
            assert(t@[0] == 'l');
            assert("offer"@[0] == 'o' && "answer"@[0] == 'a' && "candidate"@[0] == 'c');
        }
    }
    assert(h.2[peer].0 != c);
    lemma_with_id_is_the_member(h.2, h.2[sender].1.1, c, peer);
    let q = h.2[peer].1.0;
    assert((q as u64) as PeerId == q);
    assert(to_each(seq![h.2[peer]], f.text@) =~= seq![(h.2[peer].0, f.text@)]);
}

/// The key a socket's request path names: what follows `prefix`, or, for any
/// other path, the path without its leading slashes.
pub open spec fn socket_key_spec(path: Seq<char>, prefix: Seq<char>) -> Seq<char> {
    if has_prefix(path, prefix) {
        path.skip(prefix.len() as int)
    } else {
        trim_start_char(path, '/')
    }
}

/// The room (or world) a socket's request path names, after `prefix`
/// (`/rtc/` for the rendezvous, `/thread/` for the relay).
pub fn socket_key(path: &str, prefix: &str) -> (r: String)
    ensures
        r@ == socket_key_spec(path@, prefix@),
{
    let v = chars_of(path);
    let p = chars_of(prefix);
    if starts_with(&v, &p) {
        let r = string_of(&v, p.len(), v.len());
        assert(v@.subrange(p.len() as int, v.len() as int) =~= v@.skip(p.len() as int));
        r
    } else {
        string_of_all(&trim_start_matching(&v, '/'))
    }
}

} // verus!
