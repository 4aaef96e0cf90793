//! The home's generated veils: starred worlds (`fav:` veils) and recent walks
//! (`recent:` veils). Which places get a veil is decided here, over each
//! veil's id and destination; where a veil stands on its arc is the caller's
//! business.
//!
//! Only generated veils are ever touched: the front door and anything authored
//! by hand survive every sync. The home's own Locator never becomes a veil,
//! and no place gets two veils: a starred world outranks its recent veil, and
//! a recent walk already reachable through another veil is skipped.

use vstd::prelude::*;
use crate::bookmarks::{marks_view, Bookmark};
use crate::home::HOME_LOCATOR;
use crate::recents::{recents_view, Recent, CAP};
use crate::text::{has_prefix, same_text, starts_with, chars_of};

verus! {

/// A veil of the home world, as far as the sync reads it: its id and its
/// destination Locator.
pub struct VeilRef {
    pub id: String,
    pub to: String,
}

pub open spec fn veils_view(v: Seq<VeilRef>) -> Seq<(Seq<char>, Seq<char>)> {
    Seq::new(v.len(), |i: int| (v[i].id@, v[i].to@))
}

pub open spec fn is_fav(id: Seq<char>) -> bool {
    has_prefix(id, "fav:"@)
}

pub open spec fn is_recent(id: Seq<char>) -> bool {
    has_prefix(id, "recent:"@)
}

/// The veils that are not starred ones, in order.
pub open spec fn without_favs(ps: Seq<(Seq<char>, Seq<char>)>) -> Seq<(Seq<char>, Seq<char>)>
    decreases ps.len(),
{
    if ps.len() == 0 {
        ps
    } else if is_fav(ps.last().0) {
        without_favs(ps.drop_last())
    } else {
        without_favs(ps.drop_last()).push(ps.last())
    }
}

/// The veils that are not recent-walk ones, in order.
pub open spec fn without_recents(ps: Seq<(Seq<char>, Seq<char>)>) -> Seq<(Seq<char>, Seq<char>)>
    decreases ps.len(),
{
    if ps.len() == 0 {
        ps
    } else if is_recent(ps.last().0) {
        without_recents(ps.drop_last())
    } else {
        without_recents(ps.drop_last()).push(ps.last())
    }
}

/// Some veil among `ps` (other than a recent-walk one, when `skip_recent`)
/// leads to `loc`.
pub open spec fn leads_to(ps: Seq<(Seq<char>, Seq<char>)>, loc: Seq<char>, skip_recent: bool) -> bool {
    exists|j: int| 0 <= j < ps.len() && ps[j].1 == loc && !(skip_recent && is_recent(ps[j].0))
}

/// The places among `entries` that get a new veil: not the home, and not
/// already reachable through one of `ps`; in order.
pub open spec fn picks(entries: Seq<(Seq<char>, Seq<char>)>, ps: Seq<(Seq<char>, Seq<char>)>, skip_recent: bool) -> Seq<(Seq<char>, Seq<char>)>
    decreases entries.len(),
{
    if entries.len() == 0 {
        entries
    } else {
        let e = entries.last();
        let rest = picks(entries.drop_last(), ps, skip_recent);
        if e.1 != HOME_LOCATOR@ && !leads_to(ps, e.1, skip_recent) {
            rest.push(e)
        } else {
            rest
        }
    }
}

/// The veils among `ps` other than recent-walk veils to a place in `starred`.
pub open spec fn drop_covered(ps: Seq<(Seq<char>, Seq<char>)>, starred: Seq<(Seq<char>, Seq<char>)>) -> Seq<(Seq<char>, Seq<char>)>
    decreases ps.len(),
{
    if ps.len() == 0 {
        ps
    } else if is_recent(ps.last().0) && exists|k: int| 0 <= k < starred.len() && starred[k].1 == ps.last().1 {
        drop_covered(ps.drop_last(), starred)
    } else {
        drop_covered(ps.drop_last(), starred).push(ps.last())
    }
}

/// Syncing the starred veils: the veils kept (every non-starred veil, minus
/// recent veils a star now covers) and the bookmarks that get a `fav:` veil.
pub open spec fn fav_plan(ps: Seq<(Seq<char>, Seq<char>)>, marks: Seq<(Seq<char>, Seq<char>)>) -> (Seq<(Seq<char>, Seq<char>)>, Seq<(Seq<char>, Seq<char>)>) {
    let kept = without_favs(ps);
    let favs = picks(marks, kept, true);
    (drop_covered(kept, favs), favs)
}

/// Syncing the recent veils: the veils kept (every non-recent veil) and the
/// recent walks that get a `recent:` veil (at most `CAP`).
pub open spec fn recent_plan(ps: Seq<(Seq<char>, Seq<char>)>, recents: Seq<(Seq<char>, Seq<char>)>) -> (Seq<(Seq<char>, Seq<char>)>, Seq<(Seq<char>, Seq<char>)>) {
    let kept = without_recents(ps);
    let fresh = picks(recents, kept, false);
    (kept, if fresh.len() > CAP { fresh.take(CAP as int) } else { fresh })
}

fn copy_veil(v: &VeilRef) -> (r: VeilRef)
    ensures
        r.id@ == v.id@,
        r.to@ == v.to@,
{
    VeilRef { id: v.id.clone(), to: v.to.clone() }
}

fn prefixed(id: &String, p: &str) -> (r: bool)
    ensures
        r == has_prefix(id@, p@),
{
    starts_with(&chars_of(id.as_str()), &chars_of(p))
}

/// Whether some veil among `ps` (skipping recent-walk veils when asked)
/// leads to `loc`.
fn leads_to_exec(ps: &Vec<VeilRef>, loc: &String, skip_recent: bool) -> (r: bool)
    ensures
        r == leads_to(veils_view(ps@), loc@, skip_recent),
{
    let ghost pv = veils_view(ps@);
    let mut i: usize = 0;
    while i < ps.len()
        invariant
            i <= ps.len(),
            pv == veils_view(ps@),
            forall|j: int| 0 <= j < i ==> !(pv[j].1 == loc@ && !(skip_recent && is_recent(pv[j].0))),
        decreases ps.len() - i,
    {
        let hit = same_text(ps[i].to.as_str(), loc.as_str()) && !(skip_recent && prefixed(&ps[i].id, "recent:"));
        if hit {
            assert(pv[i as int].1 == loc@ && !(skip_recent && is_recent(pv[i as int].0)));
            return true;
        }
        i += 1;
    }
    false
}

fn keep_unless(ps: &Vec<VeilRef>, prefix: &str) -> (r: Vec<VeilRef>)
    requires
        prefix@ == "fav:"@ || prefix@ == "recent:"@,
    ensures
        veils_view(r@) == (if prefix@ == "fav:"@ {
            without_favs(veils_view(ps@))
        } else {
            without_recents(veils_view(ps@))
        }),
{
    let ghost pv = veils_view(ps@);
    let mut r: Vec<VeilRef> = Vec::new();
    let mut i: usize = 0;
    while i < ps.len()
        invariant
            i <= ps.len(),
            pv == veils_view(ps@),
            prefix@ == "fav:"@ || prefix@ == "recent:"@,
            veils_view(r@) == (if prefix@ == "fav:"@ {
                without_favs(pv.take(i as int))
            } else {
                without_recents(pv.take(i as int))
            }),
        decreases ps.len() - i,
    {
        assert(pv.take(i + 1).drop_last() =~= pv.take(i as int));
        assert(pv.take(i + 1).last() == pv[i as int]);
        if !prefixed(&ps[i].id, prefix) {
            let ghost before = veils_view(r@);
            r.push(copy_veil(&ps[i]));
            assert(veils_view(r@) =~= before.push(pv[i as int]));
        }
        i += 1;
    }
    assert(pv.take(ps.len() as int) =~= pv);
    r
}

fn pick_entries(entries: &Vec<(String, String)>, ps: &Vec<VeilRef>, skip_recent: bool) -> (r: Vec<(String, String)>)
    ensures
        pairs(r@) == picks(pairs(entries@), veils_view(ps@), skip_recent),
{
    let ghost ev = pairs(entries@);
    let mut r: Vec<(String, String)> = Vec::new();
    let home = {
        let mut h = String::new();
        crate::text::push_str(&mut h, HOME_LOCATOR);
        h
    };
    let mut i: usize = 0;
    while i < entries.len()
        invariant
            i <= entries.len(),
            ev == pairs(entries@),
            home@ == HOME_LOCATOR@,
            pairs(r@) == picks(ev.take(i as int), veils_view(ps@), skip_recent),
        decreases entries.len() - i,
    {
        assert(ev.take(i + 1).drop_last() =~= ev.take(i as int));
        assert(ev.take(i + 1).last() == ev[i as int]);
        let loc = &entries[i].1;
        if !same_text(loc.as_str(), home.as_str()) && !leads_to_exec(ps, loc, skip_recent) {
            let ghost before = pairs(r@);
            r.push((entries[i].0.clone(), loc.clone()));
            assert(pairs(r@) =~= before.push(ev[i as int]));
        }
        i += 1;
    }
    assert(ev.take(entries.len() as int) =~= ev);
    r
}

pub open spec fn pairs(v: Seq<(String, String)>) -> Seq<(Seq<char>, Seq<char>)> {
    Seq::new(v.len(), |i: int| (v[i].0@, v[i].1@))
}

fn starred_has(favs: &Vec<(String, String)>, to: &String) -> (r: bool)
    ensures
        r == exists|k: int| 0 <= k < pairs(favs@).len() && pairs(favs@)[k].1 == to@,
{
    let mut i: usize = 0;
    while i < favs.len()
        invariant
            i <= favs.len(),
            forall|k: int| 0 <= k < i ==> pairs(favs@)[k].1 != to@,
        decreases favs.len() - i,
    {
        if same_text(favs[i].1.as_str(), to.as_str()) {
            assert(pairs(favs@)[i as int].1 == to@);
            return true;
        }
        i += 1;
    }
    false
}

fn marks_pairs(marks: &[Bookmark]) -> (r: Vec<(String, String)>)
    ensures
        pairs(r@) == marks_view(marks@),
{
    let mut r: Vec<(String, String)> = Vec::new();
    let mut i: usize = 0;
    while i < marks.len()
        invariant
            i <= marks.len(),
            pairs(r@) == marks_view(marks@).take(i as int),
        decreases marks.len() - i,
    {
        let ghost before = pairs(r@);
        let l = marks[i].label.clone();
        let c = marks[i].locator.clone();
        r.push((l, c));
        assert(pairs(r@) =~= before.push(marks_view(marks@)[i as int]));
        i += 1;
        assert(pairs(r@) =~= marks_view(marks@).take(i as int));
    }
    assert(marks_view(marks@).take(marks.len() as int) =~= marks_view(marks@));
    r
}

fn recents_pairs(rs: &[Recent]) -> (r: Vec<(String, String)>)
    ensures
        pairs(r@) == recents_view(rs@),
{
    let mut r: Vec<(String, String)> = Vec::new();
    let mut i: usize = 0;
    while i < rs.len()
        invariant
            i <= rs.len(),
            pairs(r@) == recents_view(rs@).take(i as int),
        decreases rs.len() - i,
    {
        let ghost before = pairs(r@);
        let l = rs[i].label.clone();
        let c = rs[i].locator.clone();
        r.push((l, c));
        assert(pairs(r@) =~= before.push(recents_view(rs@)[i as int]));
        i += 1;
        assert(pairs(r@) =~= recents_view(rs@).take(i as int));
    }
    assert(recents_view(rs@).take(rs.len() as int) =~= recents_view(rs@));
    r
}

/// Plan a sync of the starred veils: returns the veils to keep and the
/// `(label, Locator)` of each bookmark that gets a `fav:` veil, in order.
pub fn plan_fav_veils(veils: &Vec<VeilRef>, bookmarks: &[Bookmark]) -> (r: (Vec<VeilRef>, Vec<(String, String)>))
    ensures
        (veils_view(r.0@), pairs(r.1@)) == fav_plan(veils_view(veils@), marks_view(bookmarks@)),
{
    proof {
        reveal_strlit("fav:");
        reveal_strlit("recent:");
    }
    let kept = keep_unless(veils, "fav:");
    let marks = marks_pairs(bookmarks);
    let favs = pick_entries(&marks, &kept, true);
    let ghost kv = veils_view(kept@);
    let ghost fv = pairs(favs@);
    let mut out: Vec<VeilRef> = Vec::new();
    let mut i: usize = 0;
    while i < kept.len()
        invariant
            i <= kept.len(),
            kv == veils_view(kept@),
            fv == pairs(favs@),
            veils_view(out@) == drop_covered(kv.take(i as int), fv),
        decreases kept.len() - i,
    {
        assert(kv.take(i + 1).drop_last() =~= kv.take(i as int));
        assert(kv.take(i + 1).last() == kv[i as int]);
        let covered = prefixed(&kept[i].id, "recent:") && starred_has(&favs, &kept[i].to);
        if !covered {
            let ghost before = veils_view(out@);
            out.push(copy_veil(&kept[i]));
            assert(veils_view(out@) =~= before.push(kv[i as int]));
        }
        i += 1;
    }
    assert(kv.take(kept.len() as int) =~= kv);
    (out, favs)
}

/// Plan a sync of the recent-walk veils: returns the veils to keep and the
/// `(label, Locator)` of each recent walk that gets a `recent:` veil, in
/// order, at most `CAP` of them.
pub fn plan_recent_veils(veils: &Vec<VeilRef>, recents: &[Recent]) -> (r: (Vec<VeilRef>, Vec<(String, String)>))
    ensures
        (veils_view(r.0@), pairs(r.1@)) == recent_plan(veils_view(veils@), recents_view(recents@)),
{
    proof {
        reveal_strlit("fav:");
        reveal_strlit("recent:");
    }
    let kept = keep_unless(veils, "recent:");
    let rs = recents_pairs(recents);
    let mut fresh = pick_entries(&rs, &kept, false);
    if fresh.len() > CAP {
        let ghost before = pairs(fresh@);
        fresh.truncate(CAP);
        assert(pairs(fresh@) =~= before.take(CAP as int));
    }
    (kept, fresh)
}

/// The places that get a veil never include the home, and never one
/// already reachable through the kept veils.
pub proof fn lemma_picks_are_new_places(entries: Seq<(Seq<char>, Seq<char>)>, ps: Seq<(Seq<char>, Seq<char>)>, skip_recent: bool)
    ensures
        forall|k: int| 0 <= k < picks(entries, ps, skip_recent).len() ==> (#[trigger] picks(entries, ps, skip_recent)[k]).1
            != HOME_LOCATOR@ && !leads_to(ps, picks(entries, ps, skip_recent)[k].1, skip_recent),
    decreases entries.len(),
{
    if entries.len() > 0 {
        lemma_picks_are_new_places(entries.drop_last(), ps, skip_recent);
        let p = picks(entries, ps, skip_recent);
        let p0 = picks(entries.drop_last(), ps, skip_recent);
        assert forall|k: int| 0 <= k < p.len() implies (#[trigger] p[k]).1 != HOME_LOCATOR@ && !leads_to(ps, p[k].1, skip_recent) by {
            if k < p0.len() {
                assert(p[k] == p0[k]);
            }
        }
    }
}

/// A starred world never keeps a recent veil as well: after a star sync, no
/// kept recent veil leads to a place that got a `fav:` veil.
pub proof fn lemma_no_recent_doubles_a_fav(ps: Seq<(Seq<char>, Seq<char>)>, starred: Seq<(Seq<char>, Seq<char>)>)
    ensures
        forall|j: int| 0 <= j < drop_covered(ps, starred).len() && is_recent((#[trigger] drop_covered(ps, starred)[j]).0)
            ==> forall|k: int| 0 <= k < starred.len() ==> starred[k].1 != drop_covered(ps, starred)[j].1,
    decreases ps.len(),
{
    if ps.len() > 0 {
        lemma_no_recent_doubles_a_fav(ps.drop_last(), starred);
        let d = drop_covered(ps, starred);
        let d0 = drop_covered(ps.drop_last(), starred);
        assert forall|j: int| 0 <= j < d.len() && is_recent((#[trigger] d[j]).0) implies forall|k: int|
            0 <= k < starred.len() ==> starred[k].1 != d[j].1 by {
            if j < d0.len() {
                assert(d[j] == d0[j]);
            }
        }
    }
}

} // verus!
