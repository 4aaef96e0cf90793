//! The conformance suite over a corpus of worlds.
//!
//! The suite reads a handful of facts from each world's manifest: how many
//! spawns it declares, its veils (id, destination text, label, and the corpus
//! key the destination resolves to when it is a Locator at all), its assets
//! (id, URI, whether it is a behaviour module, whether the file is there), and
//! the notes for geometry that sinks below the ground. Each clause is computed
//! from those facts.

use vstd::prelude::*;
use crate::conformance::{Clause, Severity, Report, LoadError, clause_model, clause_ok, all_ok, text};
use crate::constellation::{
    GraphWorld, GraphSummary, WorldsView, analyze_graph, worlds_view, portal_count, texts, entry_spec, orphan_list,
    internal_count, opt_seq,
};
use crate::text::{
    chars_of, trimmed, find, starts_with, prefix_before_any, push_str, push_all, decimal, dec_digits,
    trim, find_from, has_prefix, before_any, string_of_all,
};

verus! {

/// What the suite reads of one veil.
pub struct PortalFacts {
    pub id: String,
    /// The destination as written.
    pub to: String,
    pub label: String,
    /// The corpus key the destination resolves to (its path, or its host when
    /// path-less), when the destination is a well-formed Locator.
    pub dest: Option<String>,
}

/// What the suite reads of one declared asset.
pub struct AssetFacts {
    pub id: String,
    pub uri: String,
    /// A behaviour module, which a browser may ignore.
    pub wasm: bool,
    /// Whether the file at the asset's relative path is there beside the
    /// manifest (see [`asset_path`]).
    pub present: bool,
}

/// What the suite reads of one world manifest.
pub struct ManifestFacts {
    pub spawns: usize,
    pub portals: Vec<PortalFacts>,
    pub assets: Vec<AssetFacts>,
    /// One note for each centre-origin placement that sinks below the ground.
    pub sunk: Vec<String>,
}

/// One world of a corpus.
pub struct World {
    /// The world's key in the corpus: what a Locator's path (or host)
    /// resolves to.
    pub name: String,
    pub manifest: ManifestFacts,
    /// Whether it was loaded from a directory (its own files can be checked)
    /// rather than fetched over the wire.
    pub on_disk: bool,
}

/// A loaded corpus: the worlds that validated, plus the ones that didn't.
pub struct Corpus {
    pub worlds: Vec<World>,
    pub load_errors: Vec<LoadError>,
}

/// The per-world note lists the suite gathers.
#[derive(Clone, Copy, PartialEq, Eq)]
pub enum NoteKind {
    Spawn,
    Locator,
    Label,
    Missing,
    Sunk,
}

/// The relative path a declared asset names inside its world's tree: its URI
/// trimmed and cut at the first `?` or `#`. None for an empty URI or a link
/// out (one holding `://` or starting with `//`).
pub open spec fn asset_path_spec(uri: Seq<char>) -> Option<Seq<char>> {
    let t = trim(uri);
    if t.len() == 0 || find_from(t, "://"@, 0) is Some || has_prefix(t, "//"@) {
        None
    } else {
        Some(before_any(t, '?', '#'))
    }
}

pub open spec fn load_note(e: LoadError) -> Seq<char> {
    e.name@ + ": "@ + e.error@
}

pub open spec fn load_notes(es: Seq<LoadError>) -> Seq<Seq<char>>
    decreases es.len(),
{
    if es.len() == 0 {
        Seq::empty()
    } else {
        load_notes(es.drop_last()).push(load_note(es.last()))
    }
}

/// The note one veil of world `name` contributes to a clause.
pub open spec fn portal_note(k: NoteKind, name: Seq<char>, p: PortalFacts) -> Seq<Seq<char>> {
    if k == NoteKind::Locator && p.dest is None {
        seq![name + ": portal '"@ + p.id@ + "' \u{2192} '"@ + p.to@ + "'"@]
    } else if k == NoteKind::Label && trim(p.label@).len() == 0 {
        seq![name + ": portal '"@ + p.id@ + "' has no label"@]
    } else {
        Seq::empty()
    }
}

pub open spec fn portals_notes(k: NoteKind, name: Seq<char>, ps: Seq<PortalFacts>) -> Seq<Seq<char>>
    decreases ps.len(),
{
    if ps.len() == 0 {
        Seq::empty()
    } else {
        portals_notes(k, name, ps.drop_last()) + portal_note(k, name, ps.last())
    }
}

/// The note one asset of world `name` contributes: a relative file that is
/// not there (behaviour modules excepted).
pub open spec fn asset_note(name: Seq<char>, a: AssetFacts) -> Seq<Seq<char>> {
    match asset_path_spec(a.uri@) {
        Some(rel) => if !a.wasm && !a.present {
            seq![name + ": asset '"@ + a.id@ + "' \u{2192} "@ + rel + " is not there"@]
        } else {
            Seq::empty()
        },
        None => Seq::empty(),
    }
}

pub open spec fn assets_notes(name: Seq<char>, xs: Seq<AssetFacts>) -> Seq<Seq<char>>
    decreases xs.len(),
{
    if xs.len() == 0 {
        Seq::empty()
    } else {
        assets_notes(name, xs.drop_last()) + asset_note(name, xs.last())
    }
}

/// The notes one world contributes to the clause of kind `k`.
pub open spec fn world_notes(k: NoteKind, w: World) -> Seq<Seq<char>> {
    match k {
        NoteKind::Spawn => if w.manifest.spawns == 0 {
            seq![w.name@ + ": no spawns"@]
        } else {
            Seq::empty()
        },
        NoteKind::Locator => portals_notes(k, w.name@, w.manifest.portals@),
        NoteKind::Label => portals_notes(k, w.name@, w.manifest.portals@),
        NoteKind::Missing => if w.on_disk {
            assets_notes(w.name@, w.manifest.assets@)
        } else {
            Seq::empty()
        },
        NoteKind::Sunk => texts(w.manifest.sunk@),
    }
}

/// The notes of kind `k` over the worlds, in corpus order.
pub open spec fn corpus_notes(k: NoteKind, ws: Seq<World>) -> Seq<Seq<char>>
    decreases ws.len(),
{
    if ws.len() == 0 {
        Seq::empty()
    } else {
        corpus_notes(k, ws.drop_last()) + world_notes(k, ws.last())
    }
}

/// The veil graph of the corpus.
pub open spec fn graph_of(ws: Seq<World>) -> WorldsView {
    Seq::new(
        ws.len(),
        |i: int|
            (
                ws[i].name@,
                Seq::new(ws[i].manifest.portals@.len(), |j: int| opt_seq(ws[i].manifest.portals@[j].dest)),
            ),
    )
}

/// The orphans seen from the entry world, in text order.
pub open spec fn corpus_orphans(ws: Seq<World>) -> Seq<Seq<char>> {
    match entry_spec(graph_of(ws)) {
        Some(e) => orphan_list(graph_of(ws), e),
        None => Seq::empty(),
    }
}

/// `entry '<entry>' · <n> internal link(s) · <m> external link(s)`.
pub open spec fn entry_note(entry: Option<Seq<char>>, internal: nat, external: nat) -> Seq<char> {
    "entry '"@ + (match entry {
        Some(e) => e,
        None => "\u{2014}"@,
    }) + "' \u{b7} "@ + dec_digits(internal) + " internal link(s) \u{b7} "@ + dec_digits(external)
        + " external link(s)"@
}

pub open spec fn orphan_notes(os: Seq<Seq<char>>) -> Seq<Seq<char>> {
    Seq::new(os.len(), |i: int| "unreachable from entry: "@ + os[i])
}

/// The ground clause's notes: at most twelve, then how many more there were.
pub open spec fn shown_notes(all: Seq<Seq<char>>) -> Seq<Seq<char>> {
    if all.len() > 12 {
        all.take(12).push("\u{2026} and "@ + dec_digits((all.len() - 12) as nat) + " more"@)
    } else {
        all
    }
}

pub type ClauseView = (Seq<char>, Severity, bool, Seq<Seq<char>>);

pub open spec fn listed(name: Seq<char>, severity: Severity, notes: Seq<Seq<char>>) -> ClauseView {
    (name, severity, notes.len() == 0, notes)
}

/// The suite's clauses over a corpus, in the order they are reported.
pub open spec fn run_spec(c: Corpus) -> Seq<ClauseView> {
    let ws = c.worlds@;
    let g = graph_of(ws);
    let os = corpus_orphans(ws);
    let internal = internal_count(g, g.len() as int);
    let external = (portal_count(g, g.len() as int) - internal) as nat;
    seq![
        listed("world manifests validate"@, Severity::Error, load_notes(c.load_errors@)),
        listed("worlds declare a spawn"@, Severity::Error, corpus_notes(NoteKind::Spawn, ws)),
        listed("portal destinations are valid Locators"@, Severity::Error, corpus_notes(NoteKind::Locator, ws)),
        (
            "constellation is connected"@,
            Severity::Warn,
            os.len() == 0,
            seq![entry_note(entry_spec(g), internal, external)] + orphan_notes(os),
        ),
        listed("veils carry labels"@, Severity::Warn, corpus_notes(NoteKind::Label, ws)),
        listed("declared files are present"@, Severity::Error, corpus_notes(NoteKind::Missing, ws)),
        (
            "geometry rests on the ground plane"@,
            Severity::Warn,
            corpus_notes(NoteKind::Sunk, ws).len() == 0,
            shown_notes(corpus_notes(NoteKind::Sunk, ws)),
        ),
    ]
}

/// The relative path a declared asset names inside its world's tree, or None
/// for an empty URI or a link out.
pub fn asset_path(uri: &str) -> (r: Option<String>)
    ensures
        opt_seq(r) == asset_path_spec(uri@),
{
    let v = chars_of(uri);
    let t = trimmed(&v);
    let sep = chars_of("://");
    let dbl = chars_of("//");
    if t.len() == 0 || find(&t, &sep, 0).is_some() || starts_with(&t, &dbl) {
        return None;
    }
    let rel = prefix_before_any(&t, '?', '#');
    Some(string_of_all(&rel))
}

/// Appends `more` to `out`.
fn append_notes(out: &mut Vec<String>, more: Vec<String>)
    ensures
        texts(final(out)@) == texts(old(out)@) + texts(more@),
{
    let ghost start = texts(out@);
    let mut i: usize = 0;
    while i < more.len()
        invariant
            i <= more.len(),
            texts(out@) == start + texts(more@).take(i as int),
        decreases more.len() - i,
    {
        let ghost before = texts(out@);
        out.push(more[i].clone());
        proof {
            assert(texts(out@) =~= before.push(more@[i as int]@));
            assert(texts(more@).take(i + 1) =~= texts(more@).take(i as int).push(more@[i as int]@));
        }
        i += 1;
    }
    proof {
        assert(texts(more@).take(more.len() as int) =~= texts(more@));
    }
}

fn load_notes_of(es: &Vec<LoadError>) -> (r: Vec<String>)
    ensures
        texts(r@) == load_notes(es@),
{
    let mut r: Vec<String> = Vec::new();
    let mut i: usize = 0;
    while i < es.len()
        invariant
            i <= es.len(),
            texts(r@) == load_notes(es@.take(i as int)),
        decreases es.len() - i,
    {
        let mut t = text(es[i].name.as_str());
        push_str(&mut t, ": ");
        push_str(&mut t, es[i].error.as_str());
        let ghost before = texts(r@);
        r.push(t);
        proof {
            assert(es@.take(i + 1).drop_last() =~= es@.take(i as int));
            assert(texts(r@) =~= before.push(load_note(es@[i as int])));
        }
        i += 1;
    }
    proof {
        assert(es@.take(es.len() as int) =~= es@);
    }
    r
}

fn portal_note_of(k: NoteKind, name: &str, p: &PortalFacts) -> (r: Vec<String>)
    ensures
        texts(r@) == portal_note(k, name@, *p),
{
    let mut r: Vec<String> = Vec::new();
    let locator = match k {
        NoteKind::Locator => true,
        _ => false,
    };
    let label = match k {
        NoteKind::Label => true,
        _ => false,
    };
    if locator && p.dest.is_none() {
        let mut t = text(name);
        push_str(&mut t, ": portal '");
        push_str(&mut t, p.id.as_str());
        push_str(&mut t, "' \u{2192} '");
        push_str(&mut t, p.to.as_str());
        push_str(&mut t, "'");
        r.push(t);
        assert(texts(r@) =~= seq![t@]);
    } else if label && trimmed(&chars_of(p.label.as_str())).len() == 0 {
        let mut t = text(name);
        push_str(&mut t, ": portal '");
        push_str(&mut t, p.id.as_str());
        push_str(&mut t, "' has no label");
        r.push(t);
        assert(texts(r@) =~= seq![t@]);
    } else {
        assert(texts(r@) =~= Seq::<Seq<char>>::empty());
    }
    r
}

fn asset_note_of(name: &str, a: &AssetFacts) -> (r: Vec<String>)
    ensures
        texts(r@) == asset_note(name@, *a),
{
    let mut r: Vec<String> = Vec::new();
    match asset_path(a.uri.as_str()) {
        Some(rel) => {
            if !a.wasm && !a.present {
                let mut t = text(name);
                push_str(&mut t, ": asset '");
                push_str(&mut t, a.id.as_str());
                push_str(&mut t, "' \u{2192} ");
                push_str(&mut t, rel.as_str());
                push_str(&mut t, " is not there");
                r.push(t);
                assert(texts(r@) =~= seq![t@]);
            } else {
                assert(texts(r@) =~= Seq::<Seq<char>>::empty());
            }
        },
        None => {
            assert(texts(r@) =~= Seq::<Seq<char>>::empty());
        },
    }
    r
}

fn world_notes_of(k: NoteKind, w: &World) -> (r: Vec<String>)
    ensures
        texts(r@) == world_notes(k, *w),
{
    let mut r: Vec<String> = Vec::new();
    match k {
        NoteKind::Spawn => {
            if w.manifest.spawns == 0 {
                let mut t = text(w.name.as_str());
                push_str(&mut t, ": no spawns");
                r.push(t);
                assert(texts(r@) =~= seq![t@]);
            } else {
                assert(texts(r@) =~= Seq::<Seq<char>>::empty());
            }
        },
        NoteKind::Locator | NoteKind::Label => {
            let ps = &w.manifest.portals;
            let mut j: usize = 0;
            assert(texts(r@) =~= Seq::<Seq<char>>::empty());
            while j < ps.len()
                invariant
                    j <= ps.len(),
                    ps@ == w.manifest.portals@,
                    k == NoteKind::Locator || k == NoteKind::Label,
                    texts(r@) == portals_notes(k, w.name@, ps@.take(j as int)),
                decreases ps.len() - j,
            {
                let more = portal_note_of(k, w.name.as_str(), &ps[j]);
                append_notes(&mut r, more);
                proof {
                    assert(ps@.take(j + 1).drop_last() =~= ps@.take(j as int));
                }
                j += 1;
            }
            proof {
                assert(ps@.take(ps.len() as int) =~= ps@);
            }
        },
        NoteKind::Missing => {
            assert(texts(r@) =~= Seq::<Seq<char>>::empty());
            if w.on_disk {
                let xs = &w.manifest.assets;
                let mut j: usize = 0;
                while j < xs.len()
                    invariant
                        j <= xs.len(),
                        xs@ == w.manifest.assets@,
                        texts(r@) == assets_notes(w.name@, xs@.take(j as int)),
                    decreases xs.len() - j,
                {
                    let more = asset_note_of(w.name.as_str(), &xs[j]);
                    append_notes(&mut r, more);
                    proof {
                        assert(xs@.take(j + 1).drop_last() =~= xs@.take(j as int));
                    }
                    j += 1;
                }
                proof {
                    assert(xs@.take(xs.len() as int) =~= xs@);
                }
            }
        },
        NoteKind::Sunk => {
            let mut j: usize = 0;
            let ns = &w.manifest.sunk;
            while j < ns.len()
                invariant
                    j <= ns.len(),
                    ns@ == w.manifest.sunk@,
                    texts(r@) == texts(ns@).take(j as int),
                decreases ns.len() - j,
            {
                let ghost before = texts(r@);
                r.push(ns[j].clone());
                proof {
                    assert(texts(r@) =~= before.push(ns@[j as int]@));
                    assert(texts(ns@).take(j + 1) =~= texts(ns@).take(j as int).push(ns@[j as int]@));
                }
                j += 1;
            }
            proof {
                assert(texts(ns@).take(ns.len() as int) =~= texts(ns@));
            }
        },
    }
    r
}

fn corpus_notes_of(k: NoteKind, ws: &Vec<World>) -> (r: Vec<String>)
    ensures
        texts(r@) == corpus_notes(k, ws@),
{
    let mut r: Vec<String> = Vec::new();
    let mut i: usize = 0;
    assert(texts(r@) =~= Seq::<Seq<char>>::empty());
    while i < ws.len()
        invariant
            i <= ws.len(),
            texts(r@) == corpus_notes(k, ws@.take(i as int)),
        decreases ws.len() - i,
    {
        let more = world_notes_of(k, &ws[i]);
        append_notes(&mut r, more);
        proof {
            assert(ws@.take(i + 1).drop_last() =~= ws@.take(i as int));
        }
        i += 1;
    }
    proof {
        assert(ws@.take(ws.len() as int) =~= ws@);
    }
    r
}

/// The veil graph of the corpus, one graph world for each world.
fn graph_worlds(ws: &Vec<World>) -> (r: Vec<GraphWorld>)
    ensures
        worlds_view(r@) == graph_of(ws@),
{
    let mut r: Vec<GraphWorld> = Vec::new();
    let mut i: usize = 0;
    while i < ws.len()
        invariant
            i <= ws.len(),
            r@.len() == i,
            forall|u: int| 0 <= u < i ==> #[trigger] worlds_view(r@)[u] == graph_of(ws@)[u],
        decreases ws.len() - i,
    {
        let ps = &ws[i].manifest.portals;
        let mut dests: Vec<Option<String>> = Vec::new();
        let mut j: usize = 0;
        while j < ps.len()
            invariant
                j <= ps.len(),
                ps@ == ws@[i as int].manifest.portals@,
                dests@.len() == j,
                forall|v: int| 0 <= v < j ==> #[trigger] opt_seq(dests@[v]) == opt_seq(ps@[v].dest),
            decreases ps.len() - j,
        {
            let d: Option<String> = match &ps[j].dest {
                Some(k) => Some(k.clone()),
                None => None,
            };
            dests.push(d);
            j += 1;
        }
        let ghost before = r@;
        r.push(GraphWorld { name: ws[i].name.clone(), dests });
        proof {
            assert forall|u: int| 0 <= u <= i implies #[trigger] worlds_view(r@)[u] == graph_of(ws@)[u] by {
                if u < i {
                    assert(r@[u] == before[u]);
                    assert(worlds_view(r@)[u] == worlds_view(before)[u]);
                } else {
                    assert(worlds_view(r@)[u].1 =~= graph_of(ws@)[u].1);
                }
            }
        }
        i += 1;
    }
    proof {
        assert(worlds_view(r@) =~= graph_of(ws@));
    }
    r
}

/// A clause that passes when it lists no notes.
fn listed_clause(name: &str, severity: Severity, notes: Vec<String>) -> (c: Clause)
    ensures
        clause_model(c) == listed(name@, severity, texts(notes@)),
{
    let pass = notes.len() == 0;
    let c = Clause { name: text(name), severity, pass, notes };
    assert(clause_model(c).3 =~= texts(notes@));
    c
}

/// The connectivity clause over a graph summary: it passes when nothing is
/// orphaned, and notes the entry, the link counts and each orphan.
pub fn connectivity_clause(g: &GraphSummary) -> (c: Clause)
    ensures
        clause_model(c) == (
            "constellation is connected"@,
            Severity::Warn,
            g.orphans@.len() == 0,
            seq![entry_note(opt_seq(g.entry), g.internal as nat, g.external as nat)] + orphan_notes(
                texts(g.orphans@),
            ),
        ),
{
    let mut t = text("entry '");
    match &g.entry {
        Some(e) => push_str(&mut t, e.as_str()),
        None => push_str(&mut t, "\u{2014}"),
    }
    push_str(&mut t, "' \u{b7} ");
    let a = decimal(g.internal as u64);
    push_all(&mut t, &a);
    push_str(&mut t, " internal link(s) \u{b7} ");
    let b = decimal(g.external as u64);
    push_all(&mut t, &b);
    push_str(&mut t, " external link(s)");
    let mut notes: Vec<String> = Vec::new();
    notes.push(t);
    let mut i: usize = 0;
    while i < g.orphans.len()
        invariant
            i <= g.orphans.len(),
            notes@.len() == i + 1,
            notes@[0]@ == entry_note(opt_seq(g.entry), g.internal as nat, g.external as nat),
            forall|u: int| 0 <= u < i ==> #[trigger] notes@[u + 1]@ == orphan_notes(texts(g.orphans@))[u],
        decreases g.orphans.len() - i,
    {
        let mut o = text("unreachable from entry: ");
        push_str(&mut o, g.orphans[i].as_str());
        notes.push(o);
        i += 1;
    }
    let c = Clause { name: text("constellation is connected"), severity: Severity::Warn, pass: g.orphans.len() == 0, notes };
    proof {
        let want = seq![entry_note(opt_seq(g.entry), g.internal as nat, g.external as nat)] + orphan_notes(texts(g.orphans@));
        assert forall|u: int| 0 <= u < want.len() implies #[trigger] clause_model(c).3[u] == want[u] by {
            if u > 0 {
                assert(notes@[(u - 1) + 1]@ == orphan_notes(texts(g.orphans@))[u - 1]);
            }
        }
        assert(clause_model(c).3 =~= want);
    }
    c
}

/// The ground clause: at most twelve of the notes, then how many more.
fn ground_clause(all: Vec<String>) -> (c: Clause)
    ensures
        clause_model(c) == (
            "geometry rests on the ground plane"@,
            Severity::Warn,
            texts(all@).len() == 0,
            shown_notes(texts(all@)),
        ),
{
    let pass = all.len() == 0;
    let mut notes: Vec<String> = Vec::new();
    if all.len() > 12 {
        let mut i: usize = 0;
        while i < 12
            invariant
                i <= 12,
                all.len() > 12,
                texts(notes@) == texts(all@).take(i as int),
            decreases 12 - i,
        {
            let ghost before = texts(notes@);
            notes.push(all[i].clone());
            proof {
                assert(texts(notes@) =~= before.push(all@[i as int]@));
                assert(texts(all@).take(i + 1) =~= texts(all@).take(i as int).push(all@[i as int]@));
            }
            i += 1;
        }
        let mut t = text("\u{2026} and ");
        let d = decimal((all.len() - 12) as u64);
        push_all(&mut t, &d);
        push_str(&mut t, " more");
        let ghost before = texts(notes@);
        notes.push(t);
        proof {
            assert(texts(notes@) =~= before.push(t@));
        }
    } else {
        notes = all;
    }
    let c = Clause { name: text("geometry rests on the ground plane"), severity: Severity::Warn, pass, notes };
    assert(clause_model(c).3 =~= texts(c.notes@));
    c
}

/// Run the full suite over a corpus.
pub fn run(corpus: &Corpus) -> (r: Report)
    requires
        portal_count(graph_of(corpus.worlds@), corpus.worlds@.len() as int) <= usize::MAX,
    ensures
        Seq::new(r.clauses@.len(), |i: int| clause_model(r.clauses@[i])) == run_spec(*corpus),
        r.worlds == corpus.worlds@.len(),
{
    let ws = &corpus.worlds;
    let c1 = listed_clause("world manifests validate", Severity::Error, load_notes_of(&corpus.load_errors));
    let c2 = listed_clause("worlds declare a spawn", Severity::Error, corpus_notes_of(NoteKind::Spawn, ws));
    let c3 = listed_clause(
        "portal destinations are valid Locators",
        Severity::Error,
        corpus_notes_of(NoteKind::Locator, ws),
    );
    let graph = graph_worlds(ws);
    let summary = analyze_graph(&graph);
    let c4 = connectivity_clause(&summary);
    let c5 = listed_clause("veils carry labels", Severity::Warn, corpus_notes_of(NoteKind::Label, ws));
    let c6 = listed_clause("declared files are present", Severity::Error, corpus_notes_of(NoteKind::Missing, ws));
    let c7 = ground_clause(corpus_notes_of(NoteKind::Sunk, ws));
    let clauses = vec![c1, c2, c3, c4, c5, c6, c7];
    let r = Report { clauses, worlds: ws.len() };
    proof {
        let m = Seq::new(r.clauses@.len(), |i: int| clause_model(r.clauses@[i]));
        let want = run_spec(*corpus);
        let g = graph_of(ws@);
        if entry_spec(g) is None {
            assert(texts(summary.orphans@) =~= corpus_orphans(ws@));
        }
        assert(texts(summary.orphans@) == corpus_orphans(ws@));
        assert(m[0] == want[0]);
        assert(m[1] == want[1]);
        assert(m[2] == want[2]);
        assert(m[3] == want[3]);
        assert(m[4] == want[4]);
        assert(m[5] == want[5]);
        assert(m[6] == want[6]);
        assert(m =~= want);
    }
    r
}

/// The suite passes exactly when no Error clause finds anything: every world
/// loaded, declares a spawn, points its veils at Locators, and has its own
/// files. Orphans, unlabeled veils and sunk geometry are warnings and never
/// fail it, and external links are only counted.
pub proof fn lemma_suite_passes_on_errors_alone(c: Corpus, r: Seq<Clause>)
    requires
        Seq::new(r.len(), |i: int| clause_model(r[i])) == run_spec(c),
    ensures
        all_ok(r) == (load_notes(c.load_errors@).len() == 0 && corpus_notes(NoteKind::Spawn, c.worlds@).len() == 0
            && corpus_notes(NoteKind::Locator, c.worlds@).len() == 0 && corpus_notes(
            NoteKind::Missing,
            c.worlds@,
        ).len() == 0),
{
    let m = Seq::new(r.len(), |i: int| clause_model(r[i]));
    let want = run_spec(c);
    assert(want.len() == 7);
    assert(r.len() == 7);
    assert forall|i: int| 0 <= i < 7 implies #[trigger] clause_model(r[i]) == want[i] by {
        assert(m[i] == clause_model(r[i]));
    }
    if load_notes(c.load_errors@).len() == 0 && corpus_notes(NoteKind::Spawn, c.worlds@).len() == 0
        && corpus_notes(NoteKind::Locator, c.worlds@).len() == 0 && corpus_notes(NoteKind::Missing, c.worlds@).len()
        == 0 {
        assert forall|i: int| 0 <= i < r.len() implies clause_ok(#[trigger] r[i]) by {
            assert(clause_model(r[i]) == want[i]);
        }
    } else if load_notes(c.load_errors@).len() != 0 {
        assert(!clause_ok(r[0]));
    } else if corpus_notes(NoteKind::Spawn, c.worlds@).len() != 0 {
        assert(!clause_ok(r[1]));
    } else if corpus_notes(NoteKind::Locator, c.worlds@).len() != 0 {
        assert(!clause_ok(r[2]));
    } else {
        assert(!clause_ok(r[5]));
    }
}

} // verus!
