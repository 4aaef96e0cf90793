//! The browser side of the presence wire: where a world's relays are
//! reached, how the traveler announces itself, how co-travelers are named,
//! and how a voice frame is read back into its speaker and payload.

use vstd::prelude::*;
use crate::records::TravelerHello;
use crate::relay::{json_quote, le_bytes, push_json_string};
use crate::text::{chars_of, dec_digits, decimal, find, find_from, push_all, push_str, string_of_all, trim_end_char, trim_end_matching};

verus! {

/// The socket URL for `relay`: kept as given when it already names a world
/// (`…/thread/…`), else `<relay without trailing slashes>/thread/<world>`.
pub open spec fn relay_url_spec(relay: Seq<char>, world_id: Seq<char>) -> Seq<char> {
    if find_from(relay, "/thread/"@, 0) is Some {
        relay
    } else {
        trim_end_char(relay, '/') + "/thread/"@ + world_id
    }
}

pub fn relay_url(relay: &str, world_id: &str) -> (r: String)
    ensures
        r@ == relay_url_spec(relay@, world_id@),
{
    let v = chars_of(relay);
    let pat = chars_of("/thread/");
    if find(&v, &pat, 0).is_some() {
        return string_of_all(&v);
    }
    let b = trim_end_matching(&v, '/');
    let mut r = string_of_all(&b);
    push_str(&mut r, "/thread/");
    push_str(&mut r, world_id);
    r
}

/// The `join` a traveler sends on connecting: its Passport token and, when
/// it has one, the spawn it wants.
pub open spec fn join_text(passport: Seq<char>, spawn: Option<Seq<char>>) -> Seq<char> {
    "{\"t\":\"join\",\"passport\":"@ + json_quote(passport) + ",\"spawn\":"@ + match spawn {
        Some(s) => json_quote(s),
        None => "null"@,
    } + "}"@
}

pub fn join_message(passport: &str, spawn: &Option<String>) -> (r: String)
    ensures
        r@ == join_text(passport@, match spawn {
            Some(s) => Some(s@),
            None => None,
        }),
{
    let mut r = String::new();
    push_str(&mut r, "{\"t\":\"join\",\"passport\":");
    push_json_string(&mut r, passport);
    push_str(&mut r, ",\"spawn\":");
    match spawn {
        Some(s) => push_json_string(&mut r, s.as_str()),
        None => push_str(&mut r, "null"),
    }
    push_str(&mut r, "}");
    r
}

/// The name a co-traveler is shown under: its claimed name, else its `sub`,
/// else `traveler <id>`.
pub open spec fn traveler_name_spec(h: TravelerHello) -> Seq<char> {
    match h.name {
        Some(n) => n@,
        None => match h.sub {
            Some(s) => s@,
            None => "traveler "@ + dec_digits(h.id as nat),
        },
    }
}

pub fn traveler_name(h: &TravelerHello) -> (r: String)
    ensures
        r@ == traveler_name_spec(*h),
{
    match &h.name {
        Some(n) => n.clone(),
        None => match &h.sub {
            Some(s) => s.clone(),
            None => {
                let mut r = String::new();
                push_str(&mut r, "traveler ");
                let d = decimal(h.id as u64);
                push_all(&mut r, &d);
                r
            },
        },
    }
}

/// The speaker id a little-endian four-byte prefix spells.
pub open spec fn le_value(b: Seq<u8>) -> u32 {
    (b[0] as int + b[1] as int * 256 + b[2] as int * 65536 + b[3] as int * 16777216) as u32
}

/// A received voice frame read back: the speaker id from its first four bytes
/// and the payload after them; `None` when there is no payload.
pub fn split_voice_frame(b: &Vec<u8>) -> (r: Option<(u32, Vec<u8>)>)
    ensures
        b.len() <= 4 ==> r is None,
        b.len() > 4 ==> (r matches Some((id, data)) && id == le_value(b@) && data@ == b@.skip(4)),
{
    if b.len() <= 4 {
        return None;
    }
    let id: u32 = (b[0] as u32) + (b[1] as u32) * 256 + (b[2] as u32) * 65536 + (b[3] as u32) * 16777216;
    let mut data: Vec<u8> = Vec::new();
    let mut i: usize = 4;
    while i < b.len()
        invariant
            4 <= i <= b.len(),
            data@ == b@.subrange(4, i as int),
        decreases b.len() - i,
    {
        data.push(b[i]);
        i += 1;
        assert(data@ =~= b@.subrange(4, i as int));
    }
    assert(data@ =~= b@.skip(4));
    Some((id, data))
}

/// Reading a relayed voice frame undoes the relay's framing: the speaker's
/// id and the payload come back exactly as they went in.
pub proof fn lemma_voice_frame_round_trips(id: u32, data: Seq<u8>)
    requires
        data.len() > 0,
    ensures
        ({
            let f = le_bytes(id) + data;
            &&& f.len() > 4
            &&& le_value(f) == id
            &&& f.skip(4) == data
        }),
{
    let f = le_bytes(id) + data;
    assert(f[0] == (id % 256) as u8);
    assert(f[1] == ((id / 256) % 256) as u8);
    assert(f[2] == ((id / 65536) % 256) as u8);
    assert(f[3] == (id / 16777216) as u8);
    assert(le_value(f) == id) by (nonlinear_arith)
        requires
            f[0] == (id % 256) as u8,
            f[1] == ((id / 256) % 256) as u8,
            f[2] == ((id / 65536) % 256) as u8,
            f[3] == (id / 16777216) as u8,
    {
    }
    assert(f.skip(4) =~= data);
}

} // verus!
