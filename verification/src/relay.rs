//! The presence relay's roster — the float-free core of a Thread presence relay.
//!
//! A relay holds only ephemeral occupants: which world each connection joined,
//! the occupants (id, world, identity claims), and the observers watching a
//! world's roster without entering it. Everything the wire says about the
//! roster (`welcome`, `join`, `leave`) is decided here; positions and the
//! area-of-interest test stay with the transport, which hands the roster the
//! set of connections within range when it fans a pose, an interaction or a
//! voice frame out.
//!
//! JSON text is written with its keys in sorted order, strings escaped the way
//! a JSON serializer escapes them.

use vstd::prelude::*;
use crate::rendezvous::{ConnId, find_key, unique_keys, drop_key, lemma_find_key_unique, lemma_find_key_props};
use crate::text::{chars_of, dec_digits, decimal, hex_char, hex_of, push_all, push_char, push_str, same_text};

verus! {

/// Voice frames above this size are dropped (an abuse guard).
pub const MAX_VOICE_FRAME: usize = 8192;

/// An event coming into the relay.
pub enum Inbound {
    /// A socket connected to `world_id` (from the `…/thread/:worldId` path).
    Connect(ConnId, String),
    /// A raw wire message arrived on a connection.
    Text(ConnId, String),
    /// A binary frame (a voice packet) arrived on a connection.
    Binary(ConnId, Vec<u8>),
    /// A socket closed.
    Disconnect(ConnId),
}

/// A wire payload: JSON text or a binary voice frame.
#[derive(Debug, Clone)]
pub enum Body {
    Text(String),
    Binary(Vec<u8>),
}

/// A message the relay wants sent to a specific connection.
#[derive(Debug)]
pub struct Outbound {
    pub conn: ConnId,
    pub body: Body,
}

/// A body as plain values: whether it is text, its text, its bytes.
pub type BodyView = (bool, Seq<char>, Seq<u8>);

pub open spec fn body_view(b: Body) -> BodyView {
    match b {
        Body::Text(t) => (true, t@, Seq::empty()),
        Body::Binary(d) => (false, Seq::empty(), d@),
    }
}

pub open spec fn text_body(t: Seq<char>) -> BodyView {
    (true, t, Seq::empty())
}

pub open spec fn outs_view(v: Seq<Outbound>) -> Seq<(ConnId, BodyView)> {
    Seq::new(v.len(), |i: int| (v[i].conn, body_view(v[i].body)))
}

/// One text message per recipient, all with the same text.
pub open spec fn texts_to(cs: Seq<ConnId>, t: Seq<char>) -> Seq<(ConnId, BodyView)> {
    Seq::new(cs.len(), |i: int| (cs[i], text_body(t)))
}

impl Outbound {
    /// This outbound's text, or `""` for a binary frame.
    pub fn text(&self) -> (r: &str)
        ensures
            r@ == body_view(self.body).1,
    {
        match &self.body {
            Body::Text(t) => t.as_str(),
            Body::Binary(_) => {
                proof {
                    reveal_strlit("");
                }
                ""
            },
        }
    }
}

/// An owned copy of a body.
pub fn body_copy(b: &Body) -> (r: Body)
    ensures
        body_view(r) == body_view(*b),
{
    match b {
        Body::Text(t) => Body::Text(t.clone()),
        Body::Binary(d) => {
            let mut c: Vec<u8> = Vec::new();
            let mut i: usize = 0;
            while i < d.len()
                invariant
                    i <= d.len(),
                    c@ == d@.take(i as int),
                decreases d.len() - i,
            {
                c.push(d[i]);
                i += 1;
                assert(c@ =~= d@.take(i as int));
            }
            assert(d@.take(d.len() as int) =~= d@);
            Body::Binary(c)
        },
    }
}

/// The four little-endian bytes of `id`.
pub open spec fn le_bytes(id: u32) -> Seq<u8> {
    seq![(id % 256) as u8, ((id / 256) % 256) as u8, ((id / 65536) % 256) as u8, (id / 16777216) as u8]
}

/// A voice frame as relayed: the speaker's id (little-endian) before the
/// untouched payload; `None` for an empty or oversized payload.
pub fn frame_voice(id: u32, data: &Vec<u8>) -> (r: Option<Vec<u8>>)
    ensures
        r is None <==> (data.len() == 0 || data.len() > MAX_VOICE_FRAME),
        r matches Some(f) ==> f@ == le_bytes(id) + data@,
{
    if data.len() == 0 || data.len() > MAX_VOICE_FRAME {
        return None;
    }
    let mut f: Vec<u8> = Vec::new();
    f.push((id % 256) as u8);
    f.push(((id / 256) % 256) as u8);
    f.push(((id / 65536) % 256) as u8);
    f.push((id / 16777216) as u8);
    let mut i: usize = 0;
    while i < data.len()
        invariant
            i <= data.len(),
            f@ == le_bytes(id) + data@.take(i as int),
        decreases data.len() - i,
    {
        f.push(data[i]);
        i += 1;
        assert(f@ =~= le_bytes(id) + data@.take(i as int));
    }
    assert(data@.take(data.len() as int) =~= data@);
    Some(f)
}

/// How a JSON serializer writes one character inside a string literal.
pub open spec fn json_escape_char(c: char) -> Seq<char> {
    if c == '"' {
        seq!['\\', '"']
    } else if c == '\\' {
        seq!['\\', '\\']
    } else if c == '\u{8}' {
        seq!['\\', 'b']
    } else if c == '\t' {
        seq!['\\', 't']
    } else if c == '\n' {
        seq!['\\', 'n']
    } else if c == '\u{c}' {
        seq!['\\', 'f']
    } else if c == '\r' {
        seq!['\\', 'r']
    } else if (c as u32) < 0x20 {
        seq!['\\', 'u', '0', '0', hex_char((c as u32 / 16) as nat, false), hex_char((c as u32 % 16) as nat, false)]
    } else {
        seq![c]
    }
}

pub open spec fn json_escape(s: Seq<char>) -> Seq<char>
    decreases s.len(),
{
    if s.len() == 0 {
        Seq::empty()
    } else {
        json_escape(s.drop_last()) + json_escape_char(s.last())
    }
}

/// A JSON string literal holding `s`.
pub open spec fn json_quote(s: Seq<char>) -> Seq<char> {
    "\""@ + json_escape(s) + "\""@
}

fn push_escaped_char(out: &mut String, c: char)
    ensures
        final(out)@ == old(out)@ + json_escape_char(c),
{
    let ghost start = out@;
    if c == '"' {
        push_char(out, '\\');
        push_char(out, '"');
    } else if c == '\\' {
        push_char(out, '\\');
        push_char(out, '\\');
    } else if c == '\u{8}' {
        push_char(out, '\\');
        push_char(out, 'b');
    } else if c == '\t' {
        push_char(out, '\\');
        push_char(out, 't');
    } else if c == '\n' {
        push_char(out, '\\');
        push_char(out, 'n');
    } else if c == '\u{c}' {
        push_char(out, '\\');
        push_char(out, 'f');
    } else if c == '\r' {
        push_char(out, '\\');
        push_char(out, 'r');
    } else if (c as u32) < 0x20 {
        let u = c as u32 as u64;
        push_char(out, '\\');
        push_char(out, 'u');
        push_char(out, '0');
        push_char(out, '0');
        push_char(out, hex_of(u / 16, false));
        push_char(out, hex_of(u % 16, false));
    } else {
        push_char(out, c);
    }
    assert(out@ =~= start + json_escape_char(c));
}

/// Append `s` as a JSON string literal.
pub(crate) fn push_json_string(out: &mut String, s: &str)
    ensures
        final(out)@ == old(out)@ + json_quote(s@),
{
    let v = chars_of(s);
    let ghost start = out@;
    push_str(out, "\"");
    let ghost opened = out@;
    let mut i: usize = 0;
    while i < v.len()
        invariant
            i <= v.len(),
            opened == start + "\""@,
            out@ == opened + json_escape(v@.take(i as int)),
        decreases v.len() - i,
    {
        assert(v@.take(i + 1).drop_last() =~= v@.take(i as int));
        assert(v@.take(i + 1).last() == v@[i as int]);
        push_escaped_char(out, v[i]);
        i += 1;
        assert(out@ =~= opened + json_escape(v@.take(i as int)));
    }
    assert(v@.take(v.len() as int) =~= v@);
    push_str(out, "\"");
    assert(out@ =~= start + json_quote(s@));
}

} // verus!

verus! {

/// An occupant's identity claims, as read from its Passport.
#[derive(Debug, Clone, Default, PartialEq, Eq)]
pub struct Identity {
    pub sub: Option<String>,
    pub name: Option<String>,
    pub avatar: Option<String>,
}

pub open spec fn opt_seq(o: Option<String>) -> Option<Seq<char>> {
    match o {
        Some(s) => Some(s@),
        None => None,
    }
}

/// Identity claims as plain values: `(sub, name, avatar)`.
pub type IdentityView = (Option<Seq<char>>, Option<Seq<char>>, Option<Seq<char>>);

impl Identity {
    pub open spec fn view(self) -> IdentityView {
        (opt_seq(self.sub), opt_seq(self.name), opt_seq(self.avatar))
    }

    /// No claims: an anonymous traveler.
    pub fn anonymous() -> (r: Identity)
        ensures
            r.view() == (None::<Seq<char>>, None::<Seq<char>>, None::<Seq<char>>),
    {
        Identity { sub: None, name: None, avatar: None }
    }
}

/// A joined occupant: its assigned id, its world, its identity claims.
pub struct Occupant {
    pub id: u32,
    pub world: String,
    pub who: Identity,
}

pub type OccupantView = (u32, Seq<char>, IdentityView);

pub open spec fn occupant_view(o: Occupant) -> OccupantView {
    (o.id, o.world@, o.who.view())
}

/// An optional member of a JSON object: `key` (with its leading or trailing
/// comma) followed by the string, or nothing.
pub open spec fn opt_member(key: Seq<char>, v: Option<Seq<char>>, tail: Seq<char>) -> Seq<char> {
    match v {
        Some(s) => key + json_quote(s) + tail,
        None => Seq::empty(),
    }
}

/// An occupant's members in key order: `avatar`, `id`, `name`, `sub`.
pub open spec fn occupant_members(o: OccupantView) -> Seq<char> {
    opt_member("\"avatar\":"@, o.2.2, ","@) + "\"id\":"@ + dec_digits(o.0 as nat)
        + opt_member(",\"name\":"@, o.2.1, Seq::empty()) + opt_member(",\"sub\":"@, o.2.0, Seq::empty())
}

/// The occupant as it appears on the wire.
pub open spec fn occupant_text(o: OccupantView) -> Seq<char> {
    "{"@ + occupant_members(o) + "}"@
}

/// The `join` broadcast announcing an occupant.
pub open spec fn join_text(o: OccupantView) -> Seq<char> {
    "{"@ + occupant_members(o) + ",\"t\":\"join\"}"@
}

/// The occupants' wire texts joined with commas.
pub open spec fn occupant_list(os: Seq<OccupantView>) -> Seq<char>
    decreases os.len(),
{
    if os.len() == 0 {
        Seq::empty()
    } else if os.len() == 1 {
        occupant_text(os[0])
    } else {
        occupant_list(os.drop_last()) + ","@ + occupant_text(os.last())
    }
}

/// `{"id":N,"occupants":[…],"t":"welcome","tick_hz":H}`.
pub open spec fn welcome_text(id: u32, os: Seq<OccupantView>, tick_hz: u32) -> Seq<char> {
    "{\"id\":"@ + dec_digits(id as nat) + ",\"occupants\":["@ + occupant_list(os)
        + "],\"t\":\"welcome\",\"tick_hz\":"@ + dec_digits(tick_hz as nat) + "}"@
}

/// The welcome an observer gets: id 0, marked as an observer.
pub open spec fn observer_welcome_text(os: Seq<OccupantView>, tick_hz: u32) -> Seq<char> {
    "{\"id\":0,\"observer\":true,\"occupants\":["@ + occupant_list(os)
        + "],\"t\":\"welcome\",\"tick_hz\":"@ + dec_digits(tick_hz as nat) + "}"@
}

/// `{"id":N,"t":"leave"}`.
pub open spec fn leave_text(id: u32) -> Seq<char> {
    "{\"id\":"@ + dec_digits(id as nat) + ",\"t\":\"leave\"}"@
}

fn push_opt_member(out: &mut String, key: &str, v: &Option<String>, tail: &str)
    ensures
        final(out)@ == old(out)@ + opt_member(key@, opt_seq(*v), tail@),
{
    match v {
        Some(s) => {
            let ghost start = out@;
            push_str(out, key);
            push_json_string(out, s.as_str());
            push_str(out, tail);
            assert(out@ =~= start + opt_member(key@, opt_seq(*v), tail@));
        },
        None => {
            assert(out@ =~= old(out)@ + opt_member(key@, opt_seq(*v), tail@));
        },
    }
}

fn push_occupant_members(out: &mut String, o: &Occupant)
    ensures
        final(out)@ == old(out)@ + occupant_members(occupant_view(*o)),
{
    let ghost start = out@;
    push_opt_member(out, "\"avatar\":", &o.who.avatar, ",");
    push_str(out, "\"id\":");
    let d = decimal(o.id as u64);
    push_all(out, &d);
    push_opt_member(out, ",\"name\":", &o.who.name, "");
    push_opt_member(out, ",\"sub\":", &o.who.sub, "");
    proof {
        reveal_strlit("");
    }
    assert(out@ =~= start + occupant_members(occupant_view(*o)));
}

fn occupant_msg(o: &Occupant) -> (r: String)
    ensures
        r@ == occupant_text(occupant_view(*o)),
{
    let mut r = String::new();
    push_str(&mut r, "{");
    push_occupant_members(&mut r, o);
    push_str(&mut r, "}");
    assert(r@ =~= occupant_text(occupant_view(*o)));
    r
}

fn join_msg(o: &Occupant) -> (r: String)
    ensures
        r@ == join_text(occupant_view(*o)),
{
    let mut r = String::new();
    push_str(&mut r, "{");
    push_occupant_members(&mut r, o);
    push_str(&mut r, ",\"t\":\"join\"}");
    assert(r@ =~= join_text(occupant_view(*o)));
    r
}

fn leave_msg(id: u32) -> (r: String)
    ensures
        r@ == leave_text(id),
{
    let mut r = String::new();
    push_str(&mut r, "{\"id\":");
    let d = decimal(id as u64);
    push_all(&mut r, &d);
    push_str(&mut r, ",\"t\":\"leave\"}");
    assert(r@ =~= leave_text(id));
    r
}

fn welcome_msg(id: u32, list: &String, tick_hz: u32, os: Ghost<Seq<OccupantView>>) -> (r: String)
    requires
        list@ == occupant_list(os@),
    ensures
        r@ == welcome_text(id, os@, tick_hz),
{
    let mut r = String::new();
    push_str(&mut r, "{\"id\":");
    let d = decimal(id as u64);
    push_all(&mut r, &d);
    push_str(&mut r, ",\"occupants\":[");
    push_str(&mut r, list.as_str());
    push_str(&mut r, "],\"t\":\"welcome\",\"tick_hz\":");
    let h = decimal(tick_hz as u64);
    push_all(&mut r, &h);
    push_str(&mut r, "}");
    assert(r@ =~= welcome_text(id, os@, tick_hz));
    r
}

fn observer_welcome_msg(list: &String, tick_hz: u32, os: Ghost<Seq<OccupantView>>) -> (r: String)
    requires
        list@ == occupant_list(os@),
    ensures
        r@ == observer_welcome_text(os@, tick_hz),
{
    let mut r = String::new();
    push_str(&mut r, "{\"id\":0,\"observer\":true,\"occupants\":[");
    push_str(&mut r, list.as_str());
    push_str(&mut r, "],\"t\":\"welcome\",\"tick_hz\":");
    let h = decimal(tick_hz as u64);
    push_all(&mut r, &h);
    push_str(&mut r, "}");
    assert(r@ =~= observer_welcome_text(os@, tick_hz));
    r
}

} // verus!

verus! {

/// The roster's state as plain values: the advertised tick rate, the next id,
/// each connection's world, the occupants, the observers.
pub type RosterView = (
    u32,
    u32,
    Seq<(ConnId, Seq<char>)>,
    Seq<(ConnId, OccupantView)>,
    Seq<(ConnId, Seq<char>)>,
);

pub open spec fn worlds_view(v: Seq<(ConnId, String)>) -> Seq<(ConnId, Seq<char>)> {
    Seq::new(v.len(), |i: int| (v[i].0, v[i].1@))
}

pub open spec fn occupants_view(v: Seq<(ConnId, Occupant)>) -> Seq<(ConnId, OccupantView)> {
    Seq::new(v.len(), |i: int| (v[i].0, occupant_view(v[i].1)))
}

/// `HashMap::insert`: the entry for `conn` takes the new value (appended when new).
pub open spec fn set_entry<V>(v: Seq<(ConnId, V)>, conn: ConnId, x: V) -> Seq<(ConnId, V)> {
    match find_key(v, conn) {
        Some(i) => v.update(i, (conn, x)),
        None => v.push((conn, x)),
    }
}

/// The occupants of `world`, in order.
pub open spec fn occupants_in(os: Seq<(ConnId, OccupantView)>, world: Seq<char>) -> Seq<(ConnId, OccupantView)>
    decreases os.len(),
{
    if os.len() == 0 {
        os
    } else if os.last().1.1 == world {
        occupants_in(os.drop_last(), world).push(os.last())
    } else {
        occupants_in(os.drop_last(), world)
    }
}

/// The occupants of `world` other than connection `except`, in order.
pub open spec fn others_in(os: Seq<(ConnId, OccupantView)>, world: Seq<char>, except: ConnId) -> Seq<ConnId>
    decreases os.len(),
{
    if os.len() == 0 {
        Seq::empty()
    } else if os.last().1.1 == world && os.last().0 != except {
        others_in(os.drop_last(), world, except).push(os.last().0)
    } else {
        others_in(os.drop_last(), world, except)
    }
}

/// The observers of `world`, in order.
pub open spec fn watchers_in(obs: Seq<(ConnId, Seq<char>)>, world: Seq<char>) -> Seq<ConnId>
    decreases obs.len(),
{
    if obs.len() == 0 {
        Seq::empty()
    } else if obs.last().1 == world {
        watchers_in(obs.drop_last(), world).push(obs.last().0)
    } else {
        watchers_in(obs.drop_last(), world)
    }
}

pub open spec fn views_of(os: Seq<(ConnId, OccupantView)>) -> Seq<OccupantView> {
    Seq::new(os.len(), |i: int| os[i].1)
}

/// Everyone who should hear that `world`'s roster changed: its occupants other
/// than `except`, then its observers.
pub open spec fn audience(h: RosterView, world: Seq<char>, except: ConnId) -> Seq<ConnId> {
    others_in(h.3, world, except) + watchers_in(h.4, world)
}

/// What a `join` on `conn` with identity `who` does.
pub open spec fn join_step(h: RosterView, conn: ConnId, who: IdentityView) -> (RosterView, Seq<(ConnId, BodyView)>) {
    match find_key(h.2, conn) {
        None => (h, Seq::empty()),
        Some(wi) => {
            let world = h.2[wi].1;
            let joiner = (h.1, world, who);
            let others = views_of(occupants_in(h.3, world));
            (
                (h.0, (h.1 + 1) as u32, h.2, set_entry(h.3, conn, joiner), h.4),
                texts_to(audience(h, world, conn), join_text(joiner)).push(
                    (conn, text_body(welcome_text(h.1, others, h.0))),
                ),
            )
        },
    }
}

/// What an `observe` on `conn` does.
pub open spec fn observe_step(h: RosterView, conn: ConnId) -> (RosterView, Seq<(ConnId, BodyView)>) {
    match find_key(h.2, conn) {
        None => (h, Seq::empty()),
        Some(wi) => {
            let world = h.2[wi].1;
            let others = views_of(occupants_in(h.3, world));
            (
                (h.0, h.1, h.2, h.3, set_entry(h.4, conn, world)),
                seq![(conn, text_body(observer_welcome_text(others, h.0)))],
            )
        },
    }
}

/// What removing connection `conn`'s occupant does: the occupant dropped,
/// and `leave` to the rest of its world and to its observers.
pub open spec fn leave_step(h: RosterView, conn: ConnId) -> (RosterView, Seq<(ConnId, BodyView)>) {
    match find_key(h.3, conn) {
        None => (h, Seq::empty()),
        Some(i) => {
            let o = h.3[i].1;
            let after = (h.0, h.1, h.2, h.3.remove(i), h.4);
            (after, texts_to(audience(after, o.1, conn), leave_text(o.0)))
        },
    }
}

/// What a disconnect does: the connection forgotten, then its occupant left.
pub open spec fn disconnect_step(h: RosterView, conn: ConnId) -> (RosterView, Seq<(ConnId, BodyView)>) {
    leave_step((h.0, h.1, drop_key(h.2, conn), h.3, drop_key(h.4, conn)), conn)
}

/// The occupants a message from `from` reaches: the others in its world that
/// are among `near`, in order.
pub open spec fn fan_targets(os: Seq<(ConnId, OccupantView)>, world: Seq<char>, from: ConnId, near: Seq<ConnId>) -> Seq<ConnId>
    decreases os.len(),
{
    if os.len() == 0 {
        Seq::empty()
    } else if os.last().1.1 == world && os.last().0 != from && near.contains(os.last().0) {
        fan_targets(os.drop_last(), world, from, near).push(os.last().0)
    } else {
        fan_targets(os.drop_last(), world, from, near)
    }
}

/// What fanning `body` out from `from` does: nothing unless `from` is an
/// occupant; otherwise one copy to each target.
pub open spec fn fan_step(h: RosterView, from: ConnId, near: Seq<ConnId>, body: BodyView) -> Seq<(ConnId, BodyView)> {
    match find_key(h.3, from) {
        None => Seq::empty(),
        Some(i) => {
            let ts = fan_targets(h.3, h.3[i].1.1, from, near);
            Seq::new(ts.len(), |k: int| (ts[k], body))
        },
    }
}

/// The relay's roster: connections' worlds, occupants, observers.
pub struct Roster {
    /// Suggested client send rate, advertised in `welcome`.
    pub tick_hz: u32,
    pub next_id: u32,
    /// Which world a connection joined (from its URL path), set on `Connect`.
    pub conn_world: Vec<(ConnId, String)>,
    /// Active occupants, keyed by connection.
    pub occupants: Vec<(ConnId, Occupant)>,
    /// Connections watching a world's roster without entering it.
    pub observers: Vec<(ConnId, String)>,
}

/// The index of the first entry keyed `conn`.
fn key_index<V>(v: &Vec<(ConnId, V)>, conn: ConnId) -> (r: Option<usize>)
    ensures
        r matches Some(i) ==> i < v.len() && v@[i as int].0 == conn,
        r is None ==> forall|j: int| 0 <= j < v.len() ==> v@[j].0 != conn,
{
    let mut i: usize = 0;
    while i < v.len()
        invariant
            i <= v.len(),
            forall|j: int| 0 <= j < i ==> v@[j].0 != conn,
        decreases v.len() - i,
    {
        if v[i].0 == conn {
            return Some(i);
        }
        i += 1;
    }
    None
}

fn has_conn(v: &Vec<ConnId>, c: ConnId) -> (r: bool)
    ensures
        r == v@.contains(c),
{
    let mut i: usize = 0;
    while i < v.len()
        invariant
            i <= v.len(),
            forall|j: int| 0 <= j < i ==> v@[j] != c,
        decreases v.len() - i,
    {
        if v[i] == c {
            assert(v@[i as int] == c);
            return true;
        }
        i += 1;
    }
    false
}

fn clone_opt(o: &Option<String>) -> (r: Option<String>)
    ensures
        opt_seq(r) == opt_seq(*o),
{
    match o {
        Some(s) => Some(s.clone()),
        None => None,
    }
}

fn send_text(cs: &Vec<ConnId>, t: &String) -> (out: Vec<Outbound>)
    ensures
        outs_view(out@) == texts_to(cs@, t@),
{
    let mut out: Vec<Outbound> = Vec::new();
    let mut i: usize = 0;
    while i < cs.len()
        invariant
            i <= cs.len(),
            outs_view(out@) == texts_to(cs@.take(i as int), t@),
        decreases cs.len() - i,
    {
        let ghost before = out@;
        let c = t.clone();
        out.push(Outbound { conn: cs[i], body: Body::Text(c) });
        assert(outs_view(out@) =~= outs_view(before).push((cs@[i as int], text_body(t@))));
        i += 1;
        assert(outs_view(out@) =~= texts_to(cs@.take(i as int), t@));
    }
    assert(cs@.take(cs.len() as int) =~= cs@);
    out
}

} // verus!

verus! {

impl Roster {
    pub open spec fn view(self) -> RosterView {
        (self.tick_hz, self.next_id, worlds_view(self.conn_world@), occupants_view(self.occupants@),
            worlds_view(self.observers@))
    }

    /// Keys unique, every assigned id below `next_id`, ids pairwise distinct.
    pub open spec fn wf(self) -> bool {
        let v = self.view();
        &&& unique_keys(v.2)
        &&& unique_keys(v.3)
        &&& unique_keys(v.4)
        &&& v.1 >= 1
        &&& forall|i: int| 0 <= i < v.3.len() ==> #[trigger] v.3[i].1.0 < v.1
        &&& forall|i: int, j: int| 0 <= i < j < v.3.len() ==> v.3[i].1.0 != v.3[j].1.0
    }

    pub fn new(tick_hz: u32) -> (r: Self)
        ensures
            r.wf(),
            r.view() == (tick_hz, 1u32, Seq::<(ConnId, Seq<char>)>::empty(),
                Seq::<(ConnId, OccupantView)>::empty(), Seq::<(ConnId, Seq<char>)>::empty()),
    {
        let r = Roster {
            tick_hz,
            next_id: 1,
            conn_world: Vec::new(),
            occupants: Vec::new(),
            observers: Vec::new(),
        };
        assert(r.view().2 =~= Seq::<(ConnId, Seq<char>)>::empty());
        assert(r.view().3 =~= Seq::<(ConnId, OccupantView)>::empty());
        assert(r.view().4 =~= Seq::<(ConnId, Seq<char>)>::empty());
        r
    }

    /// Current number of occupants across all worlds (observers are not counted).
    pub fn occupant_count(&self) -> (r: usize)
        ensures
            r == self.view().3.len(),
    {
        self.occupants.len()
    }

    /// Connections watching without entering.
    pub fn observer_count(&self) -> (r: usize)
        ensures
            r == self.view().4.len(),
    {
        self.observers.len()
    }

    /// The occupant id of connection `conn`, if it has joined.
    pub fn occupant_id(&self, conn: ConnId) -> (r: Option<u32>)
        requires
            self.wf(),
        ensures
            r == (match find_key(self.view().3, conn) {
                Some(i) => Some(self.view().3[i].1.0),
                None => None::<u32>,
            }),
    {
        match key_index(&self.occupants, conn) {
            Some(i) => {
                proof {
                    lemma_find_key_unique(self.view().3, conn, i as int);
                }
                Some(self.occupants[i].1.id)
            },
            None => {
                assert(forall|j: int| 0 <= j < self.view().3.len() ==> self.view().3[j].0 != conn);
                None
            },
        }
    }

    /// The wire texts of `world`'s occupants, comma-separated.
    fn list_in(&self, world: &String) -> (r: String)
        ensures
            r@ == occupant_list(views_of(occupants_in(self.view().3, world@))),
    {
        let ghost os = self.view().3;
        let mut r = String::new();
        let mut count: usize = 0;
        let mut i: usize = 0;
        while i < self.occupants.len()
            invariant
                i <= self.occupants.len(),
                os == self.view().3,
                count == occupants_in(os.take(i as int), world@).len(),
                count <= i,
                r@ == occupant_list(views_of(occupants_in(os.take(i as int), world@))),
            decreases self.occupants.len() - i,
        {
            assert(os.take(i + 1).drop_last() =~= os.take(i as int));
            assert(os.take(i + 1).last() == os[i as int]);
            if same_text(self.occupants[i].1.world.as_str(), world.as_str()) {
                let ghost prev = views_of(occupants_in(os.take(i as int), world@));
                let ghost next = views_of(occupants_in(os.take(i + 1), world@));
                assert(next =~= prev.push(os[i as int].1));
                assert(next.drop_last() =~= prev);
                if count > 0 {
                    push_str(&mut r, ",");
                }
                let t = occupant_msg(&self.occupants[i].1);
                push_str(&mut r, t.as_str());
                proof {
                    if prev.len() == 0 {
                        assert(next.len() == 1);
                        assert(r@ =~= occupant_list(next));
                    } else {
                        assert(r@ =~= occupant_list(next));
                    }
                }
                count += 1;
            }
            i += 1;
        }
        assert(os.take(self.occupants.len() as int) =~= os);
        r
    }
}

} // verus!

verus! {

impl Roster {
    /// Who hears that `world`'s roster changed, `except` aside.
    fn audience_of(&self, world: &String, except: ConnId) -> (r: Vec<ConnId>)
        ensures
            r@ == audience(self.view(), world@, except),
    {
        let ghost os = self.view().3;
        let ghost obs = self.view().4;
        let mut r: Vec<ConnId> = Vec::new();
        let mut i: usize = 0;
        while i < self.occupants.len()
            invariant
                i <= self.occupants.len(),
                os == self.view().3,
                r@ == others_in(os.take(i as int), world@, except),
            decreases self.occupants.len() - i,
        {
            assert(os.take(i + 1).drop_last() =~= os.take(i as int));
            assert(os.take(i + 1).last() == os[i as int]);
            if self.occupants[i].0 != except && same_text(self.occupants[i].1.world.as_str(), world.as_str()) {
                r.push(self.occupants[i].0);
            }
            i += 1;
        }
        assert(os.take(self.occupants.len() as int) =~= os);
        let ghost head = r@;
        let mut j: usize = 0;
        while j < self.observers.len()
            invariant
                j <= self.observers.len(),
                obs == self.view().4,
                head == others_in(os, world@, except),
                r@ == head + watchers_in(obs.take(j as int), world@),
            decreases self.observers.len() - j,
        {
            assert(obs.take(j + 1).drop_last() =~= obs.take(j as int));
            assert(obs.take(j + 1).last() == obs[j as int]);
            if same_text(self.observers[j].1.as_str(), world.as_str()) {
                r.push(self.observers[j].0);
                assert(r@ =~= head + watchers_in(obs.take(j + 1), world@));
            }
            j += 1;
        }
        assert(obs.take(self.observers.len() as int) =~= obs);
        r
    }

    /// A socket connected to `world`.
    pub fn connect(&mut self, conn: ConnId, world: String)
        requires
            old(self).wf(),
        ensures
            final(self).wf(),
            final(self).view() == ({
                let h = old(self).view();
                (h.0, h.1, set_entry(h.2, conn, world@), h.3, h.4)
            }),
    {
        let ghost before = self.view();
        match key_index(&self.conn_world, conn) {
            Some(i) => {
                proof {
                    lemma_find_key_unique(before.2, conn, i as int);
                }
                self.conn_world.set(i, (conn, world));
                assert(self.view().2 =~= before.2.update(i as int, (conn, world@)));
            },
            None => {
                assert(forall|j: int| 0 <= j < before.2.len() ==> before.2[j].0 != conn);
                self.conn_world.push((conn, world));
                assert(self.view().2 =~= before.2.push((conn, world@)));
            },
        }
        assert(self.view().3 == before.3);
        assert(self.view().4 == before.4);
    }

    /// `{"t":"join"}` on `conn`, with the identity its Passport claims: the
    /// occupants of its world (and the world's observers) hear a `join`, then
    /// the joiner gets a `welcome` listing who was already there.
    pub fn join(&mut self, conn: ConnId, who: Identity) -> (out: Vec<Outbound>)
        requires
            old(self).wf(),
            old(self).next_id < u32::MAX,
        ensures
            final(self).wf(),
            (final(self).view(), outs_view(out@)) == join_step(old(self).view(), conn, who.view()),
    {
        let ghost h = self.view();
        let wi = match key_index(&self.conn_world, conn) {
            Some(i) => i,
            None => {
                assert(forall|j: int| 0 <= j < h.2.len() ==> h.2[j].0 != conn);
                return Vec::new();
            },
        };
        proof {
            lemma_find_key_unique(h.2, conn, wi as int);
        }
        let world = self.conn_world[wi].1.clone();
        let id = self.next_id;
        let list = self.list_in(&world);
        let told = self.audience_of(&world, conn);
        let joiner = Occupant { id, world, who };
        let jt = join_msg(&joiner);
        let mut out = send_text(&told, &jt);
        let wt = welcome_msg(id, &list, self.tick_hz, Ghost(views_of(occupants_in(h.3, h.2[wi as int].1))));
        let ghost jv = occupant_view(joiner);
        match key_index(&self.occupants, conn) {
            Some(i) => {
                proof {
                    lemma_find_key_unique(h.3, conn, i as int);
                }
                self.occupants.set(i, (conn, joiner));
                assert(self.view().3 =~= h.3.update(i as int, (conn, jv)));
                proof {
                    let v = self.view();
                    assert forall|a: int, b: int| 0 <= a < b < v.3.len() implies v.3[a].0 != v.3[b].0
                        && v.3[a].1.0 != v.3[b].1.0 by {
                        if a != i && b != i {
                            assert(v.3[a] == h.3[a]);
                            assert(v.3[b] == h.3[b]);
                        } else if a == i {
                            assert(v.3[b] == h.3[b]);
                            assert(h.3[b].1.0 < h.1);
                        } else {
                            assert(v.3[a] == h.3[a]);
                            assert(h.3[a].1.0 < h.1);
                        }
                    }
                }
            },
            None => {
                assert(forall|j: int| 0 <= j < h.3.len() ==> h.3[j].0 != conn);
                self.occupants.push((conn, joiner));
                assert(self.view().3 =~= h.3.push((conn, jv)));
                proof {
                    let v = self.view();
                    assert forall|a: int, b: int| 0 <= a < b < v.3.len() implies v.3[a].0 != v.3[b].0
                        && v.3[a].1.0 != v.3[b].1.0 by {
                        if b == v.3.len() - 1 {
                            assert(v.3[a] == h.3[a]);
                            assert(h.3[a].1.0 < h.1);
                        }
                    }
                }
            },
        }
        self.next_id = id + 1;
        proof {
            let v = self.view();
            assert forall|a: int| 0 <= a < v.3.len() implies #[trigger] v.3[a].1.0 < v.1 by {
                if v.3[a].0 != conn {
                    lemma_find_key_props(h.3, conn);
                }
            }
        }
        let ghost head = outs_view(out@);
        out.push(Outbound { conn, body: Body::Text(wt) });
        assert(outs_view(out@) =~= head.push((conn, text_body(welcome_text(h.1, views_of(occupants_in(h.3, h.2[wi as int].1)), h.0)))));
        out
    }
}

} // verus!

verus! {

impl Roster {
    /// `{"t":"observe"}` on `conn`: it watches its world's roster without
    /// joining; it gets the welcome a joiner would (marked as an observer,
    /// id 0) and nothing is said to anyone else.
    pub fn observe(&mut self, conn: ConnId) -> (out: Vec<Outbound>)
        requires
            old(self).wf(),
        ensures
            final(self).wf(),
            (final(self).view(), outs_view(out@)) == observe_step(old(self).view(), conn),
    {
        let ghost h = self.view();
        let wi = match key_index(&self.conn_world, conn) {
            Some(i) => i,
            None => {
                assert(forall|j: int| 0 <= j < h.2.len() ==> h.2[j].0 != conn);
                return Vec::new();
            },
        };
        proof {
            lemma_find_key_unique(h.2, conn, wi as int);
        }
        let world = self.conn_world[wi].1.clone();
        let list = self.list_in(&world);
        let wt = observer_welcome_msg(&list, self.tick_hz, Ghost(views_of(occupants_in(h.3, world@))));
        match key_index(&self.observers, conn) {
            Some(i) => {
                proof {
                    lemma_find_key_unique(h.4, conn, i as int);
                }
                self.observers.set(i, (conn, world));
                assert(self.view().4 =~= h.4.update(i as int, (conn, h.2[wi as int].1)));
            },
            None => {
                assert(forall|j: int| 0 <= j < h.4.len() ==> h.4[j].0 != conn);
                self.observers.push((conn, world));
                assert(self.view().4 =~= h.4.push((conn, h.2[wi as int].1)));
            },
        }
        assert(self.view().3 == h.3);
        let mut out: Vec<Outbound> = Vec::new();
        out.push(Outbound { conn, body: Body::Text(wt) });
        assert(outs_view(out@) =~= seq![(conn, text_body(observer_welcome_text(views_of(occupants_in(h.3, h.2[wi as int].1)), h.0)))]);
        out
    }

    /// `{"t":"leave"}` on `conn`: its occupant is dropped and the rest of its
    /// world, and the world's observers, hear `leave`.
    pub fn leave(&mut self, conn: ConnId) -> (out: Vec<Outbound>)
        requires
            old(self).wf(),
        ensures
            final(self).wf(),
            (final(self).view(), outs_view(out@)) == leave_step(old(self).view(), conn),
    {
        let ghost h = self.view();
        match key_index(&self.occupants, conn) {
            None => {
                assert(forall|j: int| 0 <= j < h.3.len() ==> h.3[j].0 != conn);
                Vec::new()
            },
            Some(i) => {
                proof {
                    lemma_find_key_unique(h.3, conn, i as int);
                }
                let (_, o) = self.occupants.remove(i);
                assert(self.view().3 =~= h.3.remove(i as int));
                proof {
                    let v = self.view();
                    assert forall|a: int, b: int| 0 <= a < b < v.3.len() implies v.3[a].0 != v.3[b].0
                        && v.3[a].1.0 != v.3[b].1.0 by {
                        let a0 = if a < i { a } else { a + 1 };
                        let b0 = if b < i { b } else { b + 1 };
                        assert(v.3[a] == h.3[a0]);
                        assert(v.3[b] == h.3[b0]);
                    }
                    assert forall|a: int| 0 <= a < v.3.len() implies #[trigger] v.3[a].1.0 < v.1 by {
                        let a0 = if a < i { a } else { a + 1 };
                        assert(v.3[a] == h.3[a0]);
                    }
                }
                let lt = leave_msg(o.id);
                let told = self.audience_of(&o.world, conn);
                send_text(&told, &lt)
            },
        }
    }

    /// A socket closed: the connection and any observation are forgotten,
    /// then its occupant (if any) leaves.
    pub fn disconnect(&mut self, conn: ConnId) -> (out: Vec<Outbound>)
        requires
            old(self).wf(),
        ensures
            final(self).wf(),
            (final(self).view(), outs_view(out@)) == disconnect_step(old(self).view(), conn),
    {
        let ghost h = self.view();
        match key_index(&self.conn_world, conn) {
            Some(i) => {
                proof {
                    lemma_find_key_unique(h.2, conn, i as int);
                }
                self.conn_world.remove(i);
                assert(self.view().2 =~= h.2.remove(i as int));
                proof {
                    let v = self.view();
                    assert forall|a: int, b: int| 0 <= a < b < v.2.len() implies v.2[a].0 != v.2[b].0 by {
                        let a0 = if a < i { a } else { a + 1 };
                        let b0 = if b < i { b } else { b + 1 };
                        assert(v.2[a] == h.2[a0]);
                        assert(v.2[b] == h.2[b0]);
                    }
                }
            },
            None => {
                assert(forall|j: int| 0 <= j < h.2.len() ==> h.2[j].0 != conn);
            },
        }
        match key_index(&self.observers, conn) {
            Some(i) => {
                proof {
                    lemma_find_key_unique(h.4, conn, i as int);
                }
                self.observers.remove(i);
                assert(self.view().4 =~= h.4.remove(i as int));
                proof {
                    let v = self.view();
                    assert forall|a: int, b: int| 0 <= a < b < v.4.len() implies v.4[a].0 != v.4[b].0 by {
                        let a0 = if a < i { a } else { a + 1 };
                        let b0 = if b < i { b } else { b + 1 };
                        assert(v.4[a] == h.4[a0]);
                        assert(v.4[b] == h.4[b0]);
                    }
                }
            },
            None => {
                assert(forall|j: int| 0 <= j < h.4.len() ==> h.4[j].0 != conn);
            },
        }
        assert(self.view().3 == h.3);
        self.leave(conn)
    }

    /// Fan `body` out from occupant `from` to the other occupants of its world
    /// that are among `near` (the connections within its area of interest).
    pub fn fan_out(&self, from: ConnId, near: &Vec<ConnId>, body: &Body) -> (out: Vec<Outbound>)
        requires
            self.wf(),
        ensures
            outs_view(out@) == fan_step(self.view(), from, near@, body_view(*body)),
    {
        let ghost os = self.view().3;
        let oi = match key_index(&self.occupants, from) {
            Some(i) => i,
            None => {
                assert(forall|j: int| 0 <= j < os.len() ==> os[j].0 != from);
                return Vec::new();
            },
        };
        proof {
            lemma_find_key_unique(os, from, oi as int);
        }
        let world = &self.occupants[oi].1.world;
        let ghost bv = body_view(*body);
        let mut out: Vec<Outbound> = Vec::new();
        let mut i: usize = 0;
        while i < self.occupants.len()
            invariant
                i <= self.occupants.len(),
                os == self.view().3,
                world@ == os[oi as int].1.1,
                bv == body_view(*body),
                outs_view(out@) == ({
                    let ts = fan_targets(os.take(i as int), world@, from, near@);
                    Seq::new(ts.len(), |k: int| (ts[k], bv))
                }),
            decreases self.occupants.len() - i,
        {
            assert(os.take(i + 1).drop_last() =~= os.take(i as int));
            assert(os.take(i + 1).last() == os[i as int]);
            let c = self.occupants[i].0;
            if c != from && same_text(self.occupants[i].1.world.as_str(), world.as_str()) && has_conn(near, c) {
                let ghost before = outs_view(out@);
                let b = body_copy(body);
                out.push(Outbound { conn: c, body: b });
                assert(outs_view(out@) =~= before.push((c, bv)));
            }
            i += 1;
            proof {
                let ts = fan_targets(os.take(i as int), world@, from, near@);
                assert(outs_view(out@) =~= Seq::new(ts.len(), |k: int| (ts[k], bv)));
            }
        }
        assert(os.take(self.occupants.len() as int) =~= os);
        out
    }

    /// A voice frame from `from`: dropped when empty or oversized or when
    /// `from` never joined; otherwise prefixed with the speaker's id and fanned
    /// to the occupants of its world within `near`.
    pub fn voice(&self, from: ConnId, data: &Vec<u8>, near: &Vec<ConnId>) -> (out: Vec<Outbound>)
        requires
            self.wf(),
        ensures
            outs_view(out@) == (if data.len() == 0 || data.len() > MAX_VOICE_FRAME {
                Seq::empty()
            } else {
                match find_key(self.view().3, from) {
                    None => Seq::empty(),
                    Some(i) => fan_step(self.view(), from, near@,
                        (false, Seq::empty(), le_bytes(self.view().3[i].1.0) + data@)),
                }
            }),
    {
        let framed_id = match self.occupant_id(from) {
            Some(id) => id,
            None => {
                proof {
                    lemma_find_key_props(self.view().3, from);
                }
                let out: Vec<Outbound> = Vec::new();
                assert(outs_view(out@) =~= Seq::empty());
                return out;
            },
        };
        match frame_voice(framed_id, data) {
            None => {
                let out: Vec<Outbound> = Vec::new();
                assert(outs_view(out@) =~= Seq::empty());
                out
            },
            Some(f) => self.fan_out(from, near, &Body::Binary(f)),
        }
    }
}

} // verus!

verus! {

/// Connection `c` is an occupant of `world` in `os`.
pub open spec fn occupies(os: Seq<(ConnId, OccupantView)>, c: ConnId, world: Seq<char>) -> bool {
    exists|j: int| 0 <= j < os.len() && (#[trigger] os[j]).0 == c && os[j].1.1 == world
}

/// Connection `c` observes `world` in `obs`.
pub open spec fn watches(obs: Seq<(ConnId, Seq<char>)>, c: ConnId, world: Seq<char>) -> bool {
    exists|j: int| 0 <= j < obs.len() && (#[trigger] obs[j]).0 == c && obs[j].1 == world
}

/// Whoever the roster's filters pick belongs to the world they were picked for.
pub proof fn lemma_filters_pick_from_the_world(
    os: Seq<(ConnId, OccupantView)>,
    obs: Seq<(ConnId, Seq<char>)>,
    world: Seq<char>,
    except: ConnId,
    near: Seq<ConnId>,
)
    ensures
        forall|k: int| 0 <= k < others_in(os, world, except).len() ==> (#[trigger] others_in(os, world, except)[k]) != except
            && occupies(os, others_in(os, world, except)[k], world),
        forall|k: int| 0 <= k < watchers_in(obs, world).len() ==> watches(obs, #[trigger] watchers_in(obs, world)[k], world),
        forall|k: int| 0 <= k < fan_targets(os, world, except, near).len() ==> (#[trigger] fan_targets(os, world, except, near)[k]) != except
            && near.contains(fan_targets(os, world, except, near)[k]) && occupies(os, fan_targets(os, world, except, near)[k], world),
    decreases os.len() + obs.len(),
{
    if os.len() > 0 {
        let d = os.drop_last();
        lemma_filters_pick_from_the_world(d, obs, world, except, near);
        assert forall|c: ConnId| occupies(d, c, world) implies occupies(os, c, world) by {
            let j = choose|j: int| 0 <= j < d.len() && (#[trigger] d[j]).0 == c && d[j].1.1 == world;
            assert(os[j] == d[j]);
        }
        assert(os[os.len() - 1] == os.last());
        let a = others_in(os, world, except);
        let a0 = others_in(d, world, except);
        assert forall|k: int| 0 <= k < a.len() implies (#[trigger] a[k]) != except && occupies(os, a[k], world) by {
            if k < a0.len() {
                assert(a[k] == a0[k]);
            }
        }
        let f = fan_targets(os, world, except, near);
        let f0 = fan_targets(d, world, except, near);
        assert forall|k: int| 0 <= k < f.len() implies (#[trigger] f[k]) != except && near.contains(f[k]) && occupies(os, f[k], world) by {
            if k < f0.len() {
                assert(f[k] == f0[k]);
            }
        }
    }
    if obs.len() > 0 {
        let d = obs.drop_last();
        lemma_filters_pick_from_the_world(os, d, world, except, near);
        assert forall|c: ConnId| watches(d, c, world) implies watches(obs, c, world) by {
            let j = choose|j: int| 0 <= j < d.len() && (#[trigger] d[j]).0 == c && d[j].1 == world;
            assert(obs[j] == d[j]);
        }
        assert(obs[obs.len() - 1] == obs.last());
        let w = watchers_in(obs, world);
        let w0 = watchers_in(d, world);
        assert forall|k: int| 0 <= k < w.len() implies watches(obs, #[trigger] w[k], world) by {
            if k < w0.len() {
                assert(w[k] == w0[k]);
            }
        }
    }
}

/// A join is heard only in the joiner's world: every message but the last is
/// the `join` broadcast, to another occupant of that world or to one of its
/// observers; the last is the joiner's `welcome`, carrying the roster's next
/// id and the occupants who were already there; the joiner is then an
/// occupant with that id and the identity it presented.
pub proof fn lemma_join_is_heard_only_in_its_world(h: RosterView, conn: ConnId, who: IdentityView)
    requires
        unique_keys(h.3),
        h.1 < u32::MAX,
        find_key(h.2, conn) is Some,
    ensures
        ({
            let world = h.2[find_key(h.2, conn)->0].1;
            let (after, out) = join_step(h, conn, who);
            &&& out.len() >= 1
            &&& out.last() == (conn, text_body(welcome_text(h.1, views_of(occupants_in(h.3, world)), h.0)))
            &&& forall|k: int| 0 <= k < out.len() - 1 ==> (#[trigger] out[k]).1 == text_body(join_text((h.1, world, who)))
                && ((out[k].0 != conn && occupies(h.3, out[k].0, world)) || watches(h.4, out[k].0, world))
            &&& after.1 == h.1 + 1
            &&& occupies(after.3, conn, world)
            &&& find_key(after.3, conn) matches Some(i) && after.3[i].1 == (h.1, world, who)
        }),
{
    let world = h.2[find_key(h.2, conn)->0].1;
    let (after, out) = join_step(h, conn, who);
    let told = audience(h, world, conn);
    lemma_filters_pick_from_the_world(h.3, h.4, world, conn, Seq::empty());
    let a = others_in(h.3, world, conn);
    let w = watchers_in(h.4, world);
    assert forall|k: int| 0 <= k < out.len() - 1 implies (#[trigger] out[k]).1 == text_body(join_text((h.1, world, who)))
        && ((out[k].0 != conn && occupies(h.3, out[k].0, world)) || watches(h.4, out[k].0, world)) by {
        assert(out[k].0 == told[k]);
        if k < a.len() {
            assert(told[k] == a[k]);
        } else {
            assert(told[k] == w[k - a.len()]);
        }
    }
    lemma_find_key_props(h.3, conn);
    match find_key(h.3, conn) {
        Some(i) => {
            let s = after.3;
            assert(s[i] == (conn, (h.1, world, who)));
            assert(unique_keys(s)) by {
                assert forall|x: int, y: int| 0 <= x < y < s.len() implies s[x].0 != s[y].0 by {
                    assert(s[x].0 == h.3[x].0);
                    assert(s[y].0 == h.3[y].0);
                }
            }
            lemma_find_key_unique(s, conn, i);
            assert(occupies(s, conn, world));
        },
        None => {
            let s = after.3;
            let n = h.3.len() as int;
            assert(s[n] == (conn, (h.1, world, who)));
            assert(unique_keys(s)) by {
                assert forall|x: int, y: int| 0 <= x < y < s.len() implies s[x].0 != s[y].0 by {
                    assert(s[x] == h.3[x]);
                    if y < n {
                        assert(s[y] == h.3[y]);
                    }
                }
            }
            lemma_find_key_unique(s, conn, n);
            assert(occupies(s, conn, world));
        },
    }
}

} // verus!

verus! {

/// A departure is heard only in the departed occupant's world: every message
/// is `leave` with its id, to another occupant of that world or to one of its
/// observers, and the connection is no longer an occupant.
pub proof fn lemma_leave_is_heard_only_in_its_world(h: RosterView, conn: ConnId)
    requires
        unique_keys(h.3),
        find_key(h.3, conn) is Some,
    ensures
        ({
            let o = h.3[find_key(h.3, conn)->0].1;
            let (after, out) = leave_step(h, conn);
            &&& after.3.len() == h.3.len() - 1
            &&& find_key(after.3, conn) is None
            &&& forall|k: int| 0 <= k < out.len() ==> (#[trigger] out[k]).1 == text_body(leave_text(o.0))
                && ((out[k].0 != conn && occupies(after.3, out[k].0, o.1)) || watches(h.4, out[k].0, o.1))
        }),
{
    let i = find_key(h.3, conn)->0;
    let o = h.3[i].1;
    let (after, out) = leave_step(h, conn);
    lemma_find_key_props(h.3, conn);
    lemma_filters_pick_from_the_world(after.3, h.4, o.1, conn, Seq::empty());
    let told = audience(after, o.1, conn);
    let a = others_in(after.3, o.1, conn);
    let w = watchers_in(h.4, o.1);
    assert forall|k: int| 0 <= k < out.len() implies (#[trigger] out[k]).1 == text_body(leave_text(o.0))
        && ((out[k].0 != conn && occupies(after.3, out[k].0, o.1)) || watches(h.4, out[k].0, o.1)) by {
        assert(out[k].0 == told[k]);
        if k < a.len() {
            assert(told[k] == a[k]);
        } else {
            assert(told[k] == w[k - a.len()]);
        }
    }
    assert forall|j: int| 0 <= j < after.3.len() implies after.3[j].0 != conn by {
        if j < i {
            assert(after.3[j] == h.3[j]);
        } else {
            assert(after.3[j] == h.3[j + 1]);
        }
    }
    lemma_find_key_props(after.3, conn);
}

/// Poses, interactions and voices never leave the sender's world and are
/// never echoed: every copy goes to another occupant of the sender's world
/// that is within `near`, carrying the body unchanged.
pub proof fn lemma_fan_out_stays_in_world(h: RosterView, from: ConnId, near: Seq<ConnId>, body: BodyView)
    requires
        find_key(h.3, from) is Some,
    ensures
        ({
            let world = h.3[find_key(h.3, from)->0].1.1;
            let out = fan_step(h, from, near, body);
            forall|k: int| 0 <= k < out.len() ==> (#[trigger] out[k]).1 == body && out[k].0 != from
                && near.contains(out[k].0) && occupies(h.3, out[k].0, world)
        }),
{
    let world = h.3[find_key(h.3, from)->0].1.1;
    lemma_filters_pick_from_the_world(h.3, h.4, world, from, near);
}

/// A connection that only watches (it never joined, or has left) is sent no
/// pose, interaction or voice: fan-out reaches occupants alone.
pub proof fn lemma_watchers_get_no_poses(h: RosterView, from: ConnId, near: Seq<ConnId>, body: BodyView, watcher: ConnId)
    requires
        find_key(h.3, watcher) is None,
    ensures
        forall|k: int| 0 <= k < fan_step(h, from, near, body).len() ==> (#[trigger] fan_step(h, from, near, body)[k]).0 != watcher,
{
    let out = fan_step(h, from, near, body);
    if find_key(h.3, from) is Some {
        lemma_fan_out_stays_in_world(h, from, near, body);
        let world = h.3[find_key(h.3, from)->0].1.1;
        assert forall|k: int| 0 <= k < out.len() implies (#[trigger] out[k]).0 != watcher by {
            assert(occupies(h.3, out[k].0, world));
            if out[k].0 == watcher {
                let i = choose|i: int| 0 <= i < h.3.len() && h.3[i].0 == watcher && h.3[i].1.1 == world;
                assert(h.3[i].0 == watcher);
            }
        }
    } else {
        assert(out.len() == 0);
    }
}

/// Watching is not occupying: an `observe` leaves the occupants as they were
/// and tells only the observer; a connection that never joined leaves
/// silently.
pub proof fn lemma_observers_are_invisible(h: RosterView, conn: ConnId)
    ensures
        observe_step(h, conn).0.3 == h.3,
        observe_step(h, conn).1.len() <= 1,
        forall|k: int| 0 <= k < observe_step(h, conn).1.len() ==> (#[trigger] observe_step(h, conn).1[k]).0 == conn,
        find_key(h.3, conn) is None ==> disconnect_step(h, conn).1.len() == 0 && disconnect_step(h, conn).0.3 == h.3,
{
}

} // verus!

verus! {

/// What a wire message's `t` tag asks of the relay.
#[derive(Debug, Clone, Copy, PartialEq, Eq, Structural)]
pub enum WireKind {
    Join,
    Pose,
    Interact,
    Observe,
    Leave,
    /// Anything else (or no tag): ignored.
    Ignored,
}

pub open spec fn wire_kind_of(t: Option<Seq<char>>) -> WireKind {
    match t {
        Some(s) => if s == "join"@ {
            WireKind::Join
        } else if s == "pose"@ {
            WireKind::Pose
        } else if s == "interact"@ {
            WireKind::Interact
        } else if s == "observe"@ {
            WireKind::Observe
        } else if s == "leave"@ {
            WireKind::Leave
        } else {
            WireKind::Ignored
        },
        None => WireKind::Ignored,
    }
}

/// Classify a message by its `t` tag (`None` when it has no string tag).
pub fn wire_kind(t: Option<&str>) -> (r: WireKind)
    ensures
        r == wire_kind_of(match t {
            Some(s) => Some(s@),
            None => None,
        }),
{
    match t {
        Some(s) => if same_text(s, "join") {
            WireKind::Join
        } else if same_text(s, "pose") {
            WireKind::Pose
        } else if same_text(s, "interact") {
            WireKind::Interact
        } else if same_text(s, "observe") {
            WireKind::Observe
        } else if same_text(s, "leave") {
            WireKind::Leave
        } else {
            WireKind::Ignored
        },
        None => WireKind::Ignored,
    }
}

/// What the relay does with one text frame of a given kind.
#[derive(Debug, Clone, Copy, PartialEq, Eq)]
pub enum FramePlan {
    /// Admit the sender (see [`Roster::join`]).
    Join,
    /// Fan the pose out, re-stamped with this occupant id and a server time.
    Stamp(u32),
    /// Fan the frame out as it came (an interaction).
    Forward,
    /// Start watching (see [`Roster::observe`]).
    Observe,
    /// Leave the world (see [`Roster::leave`]).
    Leave,
    /// Nothing: an untagged or unknown frame, or a pose or interaction from a
    /// connection that never joined.
    Drop,
}

/// The plan for a frame of kind `kind` from `conn`.
pub open spec fn frame_plan_spec(occupants: Seq<(ConnId, OccupantView)>, conn: ConnId, kind: WireKind) -> FramePlan {
    match kind {
        WireKind::Join => FramePlan::Join,
        WireKind::Pose => match find_key(occupants, conn) {
            Some(i) => FramePlan::Stamp(occupants[i].1.0),
            None => FramePlan::Drop,
        },
        WireKind::Interact => match find_key(occupants, conn) {
            Some(i) => FramePlan::Forward,
            None => FramePlan::Drop,
        },
        WireKind::Observe => FramePlan::Observe,
        WireKind::Leave => FramePlan::Leave,
        WireKind::Ignored => FramePlan::Drop,
    }
}

impl Roster {
    /// Decide what a text frame of kind `kind` from `conn` calls for.
    pub fn plan_frame(&self, conn: ConnId, kind: WireKind) -> (p: FramePlan)
        requires
            self.wf(),
        ensures
            p == frame_plan_spec(self.view().3, conn, kind),
    {
        match kind {
            WireKind::Join => FramePlan::Join,
            WireKind::Pose => match self.occupant_id(conn) {
                Some(id) => FramePlan::Stamp(id),
                None => FramePlan::Drop,
            },
            WireKind::Interact => match self.occupant_id(conn) {
                Some(_) => FramePlan::Forward,
                None => FramePlan::Drop,
            },
            WireKind::Observe => FramePlan::Observe,
            WireKind::Leave => FramePlan::Leave,
            WireKind::Ignored => FramePlan::Drop,
        }
    }
}

} // verus!
