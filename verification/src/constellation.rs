//! The constellation check: from an entry world, which worlds of a corpus can
//! be reached through its internal veils, and which are orphans.
//!
//! Each world is given by its name and, for each of its veils, the corpus key
//! its destination resolves to (its path, or its host when path-less) when the
//! destination is a Locator at all. A destination that names a world of the
//! corpus is an internal link; anything else is external and is not followed.

use vstd::prelude::*;
use crate::text::{chars_of, same_text};

verus! {

broadcast use vstd::seq_lib::group_to_multiset_ensures;

/// One world of the corpus: its name and its veils' destination keys.
pub struct GraphWorld {
    pub name: String,
    pub dests: Vec<Option<String>>,
}

/// The outcome: the entry world, the orphans (sorted), and how many links
/// stay inside the corpus and how many leave it.
pub struct GraphSummary {
    pub entry: Option<String>,
    pub orphans: Vec<String>,
    pub internal: usize,
    pub external: usize,
}

pub type WorldsView = Seq<(Seq<char>, Seq<Option<Seq<char>>>)>;

pub open spec fn opt_seq(o: Option<String>) -> Option<Seq<char>> {
    match o {
        Some(s) => Some(s@),
        None => None,
    }
}

pub open spec fn dests_view(d: Seq<Option<String>>) -> Seq<Option<Seq<char>>> {
    Seq::new(d.len(), |j: int| opt_seq(d[j]))
}

pub open spec fn worlds_view(ws: Seq<GraphWorld>) -> WorldsView {
    Seq::new(ws.len(), |i: int| (ws[i].name@, dests_view(ws[i].dests@)))
}

/// `k` names a world of the corpus.
pub open spec fn is_world(ws: WorldsView, k: Seq<char>) -> bool {
    exists|i: int| 0 <= i < ws.len() && (#[trigger] ws[i]).0 == k
}

/// The index of the last world, among the first `n`, with the most veils.
pub open spec fn last_max(ws: WorldsView, n: int) -> int
    decreases n,
{
    if n <= 1 {
        0
    } else {
        let m = last_max(ws, n - 1);
        if ws[n - 1].1.len() >= ws[m].1.len() {
            n - 1
        } else {
            m
        }
    }
}

/// The entry world: one named `nexus`, else the hub with the most veils (the
/// last of them on a tie); none for an empty corpus.
pub open spec fn entry_spec(ws: WorldsView) -> Option<Seq<char>> {
    if ws.len() == 0 {
        None
    } else if is_world(ws, "nexus"@) {
        Some("nexus"@)
    } else {
        Some(ws[last_max(ws, ws.len() as int)].0)
    }
}

/// How many of the destinations `d` name a world of the corpus.
pub open spec fn internal_in(ws: WorldsView, d: Seq<Option<Seq<char>>>) -> nat
    decreases d.len(),
{
    if d.len() == 0 {
        0
    } else {
        internal_in(ws, d.drop_last()) + if d.last() matches Some(k) && is_world(ws, k) {
            1nat
        } else {
            0nat
        }
    }
}

/// Internal links of the first `n` worlds.
pub open spec fn internal_count(ws: WorldsView, n: int) -> nat
    decreases n,
{
    if n <= 0 {
        0
    } else {
        internal_count(ws, n - 1) + internal_in(ws, ws[n - 1].1)
    }
}

/// Veils of the first `n` worlds.
pub open spec fn portal_count(ws: WorldsView, n: int) -> nat
    decreases n,
{
    if n <= 0 {
        0
    } else {
        portal_count(ws, n - 1) + ws[n - 1].1.len()
    }
}

/// No more of a world's veils stay inside than it has.
pub proof fn lemma_internal_in_bound(ws: WorldsView, d: Seq<Option<Seq<char>>>)
    ensures
        internal_in(ws, d) <= d.len(),
    decreases d.len(),
{
    if d.len() > 0 {
        lemma_internal_in_bound(ws, d.drop_last());
    }
}

/// No more links stay inside the corpus than there are veils.
pub proof fn lemma_internal_count_bound(ws: WorldsView, n: int)
    requires
        0 <= n <= ws.len(),
    ensures
        internal_count(ws, n) <= portal_count(ws, n),
    decreases n,
{
    if n > 0 {
        lemma_internal_count_bound(ws, n - 1);
        lemma_internal_in_bound(ws, ws[n - 1].1);
    }
}

/// There is a veil from world `a` to world `b`.
pub open spec fn edge(ws: WorldsView, a: Seq<char>, b: Seq<char>) -> bool {
    &&& is_world(ws, b)
    &&& exists|i: int, j: int|
        0 <= i < ws.len() && ws[i].0 == a && 0 <= j < ws[i].1.len() && #[trigger] ws[i].1[j] == Some(b)
}

/// `p` walks from world to world, each step through a veil.
pub open spec fn is_walk(ws: WorldsView, p: Seq<Seq<char>>) -> bool {
    forall|k: int| 0 <= k < p.len() - 1 ==> edge(ws, #[trigger] p[k], p[k + 1])
}

/// `x` can be reached from `e` through internal veils.
pub open spec fn reachable(ws: WorldsView, e: Seq<char>, x: Seq<char>) -> bool {
    exists|p: Seq<Seq<char>>| p.len() > 0 && p[0] == e && p.last() == x && #[trigger] is_walk(ws, p)
}

/// The names of the first `n` worlds not reachable from `e`, in corpus order.
pub open spec fn not_reached(ws: WorldsView, e: Seq<char>, n: int) -> Seq<Seq<char>>
    decreases n,
{
    if n <= 0 {
        Seq::empty()
    } else if reachable(ws, e, ws[n - 1].0) {
        not_reached(ws, e, n - 1)
    } else {
        not_reached(ws, e, n - 1).push(ws[n - 1].0)
    }
}

/// The orphans of the corpus seen from `e`, in text order: the one list in
/// text order that holds exactly the names `not_reached` gives.
pub open spec fn orphan_list(ws: WorldsView, e: Seq<char>) -> Seq<Seq<char>> {
    choose|o: Seq<Seq<char>>| sorted(o) && o.to_multiset() == not_reached(ws, e, ws.len() as int).to_multiset()
}

/// Lexicographic order on text, character by character (the order of
/// `str`'s comparison).
pub open spec fn lex_le(a: Seq<char>, b: Seq<char>) -> bool
    decreases a.len(),
{
    if a.len() == 0 {
        true
    } else if b.len() == 0 {
        false
    } else if a[0] != b[0] {
        a[0] < b[0]
    } else {
        lex_le(a.drop_first(), b.drop_first())
    }
}

pub open spec fn sorted(s: Seq<Seq<char>>) -> bool {
    forall|i: int, j: int| 0 <= i < j < s.len() ==> lex_le(s[i], s[j])
}

pub open spec fn texts(v: Seq<String>) -> Seq<Seq<char>> {
    Seq::new(v.len(), |i: int| v[i]@)
}

/// Text order is reflexive.
pub proof fn lemma_lex_reflexive(a: Seq<char>)
    ensures
        lex_le(a, a),
    decreases a.len(),
{
    if a.len() > 0 {
        lemma_lex_reflexive(a.drop_first());
    }
}

/// Text order is total: of two texts, one comes first or they tie.
pub proof fn lemma_lex_total(a: Seq<char>, b: Seq<char>)
    ensures
        lex_le(a, b) || lex_le(b, a),
    decreases a.len(),
{
    if a.len() > 0 && b.len() > 0 {
        if a[0] == b[0] {
            lemma_lex_total(a.drop_first(), b.drop_first());
        } else {
        }
    }
}

/// Text order is transitive.
pub proof fn lemma_lex_transitive(a: Seq<char>, b: Seq<char>, c: Seq<char>)
    requires
        lex_le(a, b),
        lex_le(b, c),
    ensures
        lex_le(a, c),
    decreases a.len(),
{
    if a.len() > 0 && b.len() > 0 && c.len() > 0 && a[0] == b[0] && b[0] == c[0] {
        lemma_lex_transitive(a.drop_first(), b.drop_first(), c.drop_first());
    }
}

/// Text order is antisymmetric: two texts each before the other are equal.
pub proof fn lemma_lex_antisymmetric(a: Seq<char>, b: Seq<char>)
    requires
        lex_le(a, b),
        lex_le(b, a),
    ensures
        a == b,
    decreases a.len(),
{
    if a.len() > 0 && b.len() > 0 {
        lemma_lex_antisymmetric(a.drop_first(), b.drop_first());
        assert(a =~= seq![a[0]] + a.drop_first());
        assert(b =~= seq![b[0]] + b.drop_first());
    } else {
        assert(a =~= b);
    }
}

/// Two lists in text order that hold the same names are the same list.
pub proof fn lemma_sorted_unique(s1: Seq<Seq<char>>, s2: Seq<Seq<char>>)
    requires
        sorted(s1),
        sorted(s2),
        s1.to_multiset() == s2.to_multiset(),
    ensures
        s1 == s2,
    decreases s1.len(),
{
    assert(s1.len() == s1.to_multiset().len());
    assert(s2.len() == s2.to_multiset().len());
    if s1.len() > 0 {
        let x = s1[0];
        let y = s2[0];
        assert(s1.contains(x));
        assert(s1.to_multiset().count(x) > 0);
        assert(s2.to_multiset().count(x) > 0);
        assert(s2.contains(x));
        let k = choose|k: int| 0 <= k < s2.len() && #[trigger] s2[k] == x;
        if k == 0 {
            lemma_lex_reflexive(x);
        }
        assert(lex_le(y, x));
        assert(s2.to_multiset().count(y) > 0);
        assert(s1.contains(y));
        let k1 = choose|k: int| 0 <= k < s1.len() && #[trigger] s1[k] == y;
        if k1 == 0 {
            lemma_lex_reflexive(y);
        }
        assert(lex_le(x, y));
        lemma_lex_antisymmetric(x, y);
        assert(s1.remove(0) =~= s1.drop_first());
        assert(s2.remove(0) =~= s2.drop_first());
        assert(s1.drop_first().to_multiset() == s2.drop_first().to_multiset());
        lemma_sorted_unique(s1.drop_first(), s2.drop_first());
        assert(s1 =~= seq![x] + s1.drop_first());
        assert(s2 =~= seq![y] + s2.drop_first());
    } else {
        assert(s1 =~= s2);
    }
}

/// `a` comes before or equals `b` in text order.
fn lex_le_exec(a: &Vec<char>, b: &Vec<char>) -> (r: bool)
    ensures
        r == lex_le(a@, b@),
{
    let mut i: usize = 0;
    assert(a@.skip(0) =~= a@);
    assert(b@.skip(0) =~= b@);
    while i < a.len() && i < b.len() && a[i] == b[i]
        invariant
            i <= a.len(),
            i <= b.len(),
            lex_le(a@, b@) == lex_le(a@.skip(i as int), b@.skip(i as int)),
        decreases a.len() - i,
    {
        assert(a@.skip(i as int).drop_first() =~= a@.skip(i + 1));
        assert(b@.skip(i as int).drop_first() =~= b@.skip(i + 1));
        i += 1;
    }
    if i == a.len() {
        true
    } else if i == b.len() {
        false
    } else {
        a[i] < b[i]
    }
}

/// `v` sorted into text order.
fn sort_texts(v: Vec<String>) -> (r: Vec<String>)
    ensures
        sorted(texts(r@)),
        texts(r@).to_multiset() == texts(v@).to_multiset(),
{
    let mut out: Vec<String> = Vec::new();
    let mut keys: Vec<Vec<char>> = Vec::new();
    let ghost all = texts(v@);
    let mut i: usize = 0;
    while i < v.len()
        invariant
            i <= v.len(),
            all == texts(v@),
            keys@.len() == out@.len(),
            forall|k: int| 0 <= k < keys@.len() ==> #[trigger] keys@[k]@ == out@[k]@,
            sorted(texts(out@)),
            texts(out@).to_multiset() == all.take(i as int).to_multiset(),
        decreases v.len() - i,
    {
        let x = v[i].clone();
        let xk = chars_of(x.as_str());
        let mut k: usize = 0;
        while k < out.len() && lex_le_exec(&keys[k], &xk)
            invariant
                k <= out.len(),
                keys@.len() == out@.len(),
                forall|m: int| 0 <= m < keys@.len() ==> #[trigger] keys@[m]@ == out@[m]@,
                xk@ == x@,
                forall|m: int| 0 <= m < k ==> lex_le(#[trigger] texts(out@)[m], x@),
            decreases out.len() - k,
        {
            k += 1;
        }
        let ghost before = texts(out@);
        proof {
            if k < out.len() {
                assert(!lex_le(before[k as int], x@));
                lemma_lex_total(before[k as int], x@);
            }
        }
        out.insert(k, x);
        keys.insert(k, xk);
        proof {
            let after = texts(out@);
            assert(after =~= before.insert(k as int, v@[i as int]@));
            assert forall|a: int, b: int| 0 <= a < b < after.len() implies lex_le(after[a], after[b]) by {
                if b < k {
                    assert(after[a] == before[a] && after[b] == before[b]);
                } else if b == k {
                    assert(after[a] == before[a]);
                } else if a == k {
                    assert(after[b] == before[b - 1]);
                    if b - 1 > k {
                        assert(lex_le(before[k as int], before[b - 1]));
                    } else {
                        lemma_lex_reflexive(before[k as int]);
                    }
                    lemma_lex_transitive(x@, before[k as int], before[b - 1]);
                } else if a < k {
                    assert(after[a] == before[a] && after[b] == before[b - 1]);
                } else {
                    assert(after[a] == before[a - 1] && after[b] == before[b - 1]);
                }
            }
            assert(all.take(i + 1) =~= all.take(i as int).push(all[i as int]));
            assert(forall|m: int| 0 <= m < keys@.len() ==> #[trigger] keys@[m]@ == out@[m]@) by {
                assert forall|m: int| 0 <= m < keys@.len() implies #[trigger] keys@[m]@ == out@[m]@ by {
                    if m < k {
                    } else if m > k {
                    }
                }
            }
        }
        i += 1;
    }
    assert(all.take(v.len() as int) =~= all);
    out
}

/// The index of a world named `k`, if the corpus has one.
fn find_world(worlds: &Vec<GraphWorld>, k: &str) -> (r: Option<usize>)
    ensures
        match r {
            Some(t) => t < worlds.len() && worlds@[t as int].name@ == k@,
            None => !is_world(worlds_view(worlds@), k@),
        },
{
    let mut t: usize = 0;
    while t < worlds.len()
        invariant
            t <= worlds.len(),
            forall|u: int| 0 <= u < t ==> #[trigger] worlds@[u].name@ != k@,
        decreases worlds.len() - t,
    {
        if same_text(worlds[t].name.as_str(), k) {
            return Some(t);
        }
        t += 1;
    }
    proof {
        let ws = worlds_view(worlds@);
        assert forall|i: int| 0 <= i < ws.len() implies (#[trigger] ws[i]).0 != k@ by {
            assert(worlds@[i].name@ != k@);
        }
    }
    None
}

/// The index of the entry world: a world named `nexus`, else the last of the
/// worlds with the most veils.
fn pick_entry(worlds: &Vec<GraphWorld>) -> (r: Option<usize>)
    ensures
        r is None <==> worlds.len() == 0,
        r matches Some(t) ==> t < worlds.len() && entry_spec(worlds_view(worlds@)) == Some(
            worlds@[t as int].name@,
        ),
{
    let ghost ws = worlds_view(worlds@);
    if worlds.len() == 0 {
        return None;
    }
    if let Some(t) = find_world(worlds, "nexus") {
        proof {
            assert(ws[t as int].0 == "nexus"@);
        }
        return Some(t);
    }
    let mut m: usize = 0;
    let mut i: usize = 1;
    while i < worlds.len()
        invariant
            1 <= i <= worlds.len(),
            ws == worlds_view(worlds@),
            m < i,
            m == last_max(ws, i as int),
        decreases worlds.len() - i,
    {
        if worlds[i].dests.len() >= worlds[m].dests.len() {
            m = i;
        }
        i += 1;
    }
    Some(m)
}

proof fn lemma_portal_count_mono(ws: WorldsView, a: int, b: int)
    requires
        0 <= a <= b <= ws.len(),
    ensures
        portal_count(ws, a) <= portal_count(ws, b),
    decreases b - a,
{
    if a < b {
        lemma_portal_count_mono(ws, a, b - 1);
    }
}

/// How many veils stay inside the corpus and how many leave it.
fn count_links(worlds: &Vec<GraphWorld>) -> (r: (usize, usize))
    requires
        portal_count(worlds_view(worlds@), worlds@.len() as int) <= usize::MAX,
    ensures
        r.0 == internal_count(worlds_view(worlds@), worlds@.len() as int),
        r.0 + r.1 == portal_count(worlds_view(worlds@), worlds@.len() as int),
{
    let ghost ws = worlds_view(worlds@);
    let ghost total_all = portal_count(ws, worlds@.len() as int);
    let mut internal: usize = 0;
    let mut total: usize = 0;
    let mut i: usize = 0;
    while i < worlds.len()
        invariant
            i <= worlds.len(),
            ws == worlds_view(worlds@),
            total_all == portal_count(ws, worlds@.len() as int),
            total_all <= usize::MAX,
            internal == internal_count(ws, i as int),
            total == portal_count(ws, i as int),
        decreases worlds.len() - i,
    {
        let d = &worlds[i].dests;
        let ghost dv = ws[i as int].1;
        proof {
            lemma_portal_count_mono(ws, i + 1, worlds@.len() as int);
            lemma_internal_count_bound(ws, i as int);
        }
        let mut j: usize = 0;
        while j < d.len()
            invariant
                j <= d.len(),
                i < worlds.len(),
                ws == worlds_view(worlds@),
                d@ == worlds@[i as int].dests@,
                dv == ws[i as int].1,
                dv.len() == d.len(),
                internal == internal_count(ws, i as int) + internal_in(ws, dv.take(j as int)),
                total == portal_count(ws, i as int) + j,
                portal_count(ws, i + 1) <= usize::MAX,
                internal_count(ws, i as int) <= portal_count(ws, i as int),
            decreases d.len() - j,
        {
            proof {
                assert(dv.take(j + 1).drop_last() =~= dv.take(j as int));
                lemma_internal_in_bound(ws, dv.take(j as int));
            }
            let hit: bool = match &d[j] {
                Some(k) => match find_world(worlds, k.as_str()) {
                    Some(t) => {
                        assert(ws[t as int].0 == k@);
                        true
                    },
                    None => false,
                },
                None => false,
            };
            proof {
                assert(dv[j as int] == opt_seq(d@[j as int]));
                assert(dv.take(j + 1).last() == dv[j as int]);
                assert(hit == (dv[j as int] matches Some(k) && is_world(ws, k)));
            }
            if hit {
                internal += 1;
            }
            total += 1;
            j += 1;
        }
        proof {
            assert(dv.take(j as int) =~= dv);
        }
        i += 1;
    }
    proof {
        lemma_internal_count_bound(ws, worlds@.len() as int);
    }
    (internal, total - internal)
}

/// How many entries of `s` are still unmarked.
spec fn unmarked(s: Seq<bool>) -> nat
    decreases s.len(),
{
    if s.len() == 0 {
        0
    } else {
        unmarked(s.drop_last()) + if s.last() {
            0nat
        } else {
            1nat
        }
    }
}

proof fn lemma_unmarked_mark(s: Seq<bool>, u: int)
    requires
        0 <= u < s.len(),
        !s[u],
    ensures
        unmarked(s.update(u, true)) + 1 == unmarked(s),
    decreases s.len(),
{
    if u == s.len() - 1 {
        assert(s.update(u, true).drop_last() =~= s.drop_last());
    } else {
        assert(s.update(u, true).drop_last() =~= s.drop_last().update(u, true));
        lemma_unmarked_mark(s.drop_last(), u);
    }
}

/// Some world named `b` is marked.
spec fn marked_name(ws: WorldsView, s: Seq<bool>, b: Seq<char>) -> bool {
    exists|t: int| 0 <= t < ws.len() && ws[t].0 == b && #[trigger] s[t]
}

/// Worlds of one name are marked alike.
spec fn by_name(ws: WorldsView, s: Seq<bool>) -> bool {
    forall|a: int, b: int|
        0 <= a < ws.len() && 0 <= b < ws.len() && ws[a].0 == ws[b].0 ==> #[trigger] s[a] == #[trigger] s[b]
}

/// Every internal veil of world `i` leads to a marked world.
spec fn closed_at(ws: WorldsView, s: Seq<bool>, i: int) -> bool {
    forall|j: int|
        0 <= j < ws[i].1.len() && (#[trigger] ws[i].1[j]) is Some && is_world(ws, ws[i].1[j]->0)
            ==> marked_name(ws, s, ws[i].1[j]->0)
}

spec fn queued(q: Seq<usize>, i: int) -> bool {
    exists|p: int| 0 <= p < q.len() && #[trigger] q[p] == i
}

spec fn grows(s1: Seq<bool>, s2: Seq<bool>) -> bool {
    &&& s1.len() == s2.len()
    &&& forall|u: int| 0 <= u < s1.len() && #[trigger] s1[u] ==> s2[u]
}

proof fn lemma_closed_grows(ws: WorldsView, s1: Seq<bool>, s2: Seq<bool>, i: int)
    requires
        0 <= i < ws.len(),
        s1.len() == ws.len(),
        grows(s1, s2),
        closed_at(ws, s1, i),
    ensures
        closed_at(ws, s2, i),
{
    assert forall|j: int|
        0 <= j < ws[i].1.len() && (#[trigger] ws[i].1[j]) is Some && is_world(ws, ws[i].1[j]->0)
            implies marked_name(ws, s2, ws[i].1[j]->0) by {
        let b = ws[i].1[j]->0;
        assert(marked_name(ws, s1, b));
        let t = choose|t: int| 0 <= t < ws.len() && ws[t].0 == b && #[trigger] s1[t];
        assert(s2[t]);
    }
}

/// Marks every world named like world `t`, queueing each newly marked one.
fn mark_name(worlds: &Vec<GraphWorld>, seen: &mut Vec<bool>, queue: &mut Vec<usize>, t: usize)
    requires
        t < worlds.len(),
        old(seen)@.len() == worlds.len(),
    ensures
        final(seen)@.len() == worlds.len(),
        forall|u: int|
            0 <= u < worlds.len() ==> #[trigger] final(seen)@[u] == (old(seen)@[u]
                || worlds@[u].name@ == worlds@[t as int].name@),
        final(queue)@.len() + unmarked(final(seen)@) == old(queue)@.len() + unmarked(old(seen)@),
        old(queue)@.len() <= final(queue)@.len(),
        forall|p: int| 0 <= p < old(queue)@.len() ==> #[trigger] final(queue)@[p] == old(queue)@[p],
        forall|p: int|
            old(queue)@.len() <= p < final(queue)@.len() ==> #[trigger] final(queue)@[p] < worlds.len()
                && worlds@[final(queue)@[p] as int].name@ == worlds@[t as int].name@,
        forall|u: int|
            0 <= u < worlds.len() && !old(seen)@[u] && worlds@[u].name@ == worlds@[t as int].name@
                ==> queued(final(queue)@, u),
{
    let ghost s0 = seen@;
    let ghost q0 = queue@;
    let mut u: usize = 0;
    while u < worlds.len()
        invariant
            u <= worlds.len(),
            t < worlds.len(),
            s0.len() == worlds.len(),
            seen@.len() == worlds.len(),
            forall|v: int|
                0 <= v < worlds.len() ==> #[trigger] seen@[v] == (s0[v] || (v < u
                    && worlds@[v].name@ == worlds@[t as int].name@)),
            queue@.len() + unmarked(seen@) == q0.len() + unmarked(s0),
            q0.len() <= queue@.len(),
            forall|p: int| 0 <= p < q0.len() ==> #[trigger] queue@[p] == q0[p],
            forall|p: int|
                q0.len() <= p < queue@.len() ==> #[trigger] queue@[p] < worlds.len()
                    && worlds@[queue@[p] as int].name@ == worlds@[t as int].name@,
            forall|v: int|
                0 <= v < u && !s0[v] && worlds@[v].name@ == worlds@[t as int].name@ ==> queued(
                    queue@,
                    v,
                ),
        decreases worlds.len() - u,
    {
        if !seen[u] && same_text(worlds[u].name.as_str(), worlds[t].name.as_str()) {
            let ghost before = seen@;
            let ghost qb = queue@;
            proof {
                lemma_unmarked_mark(before, u as int);
            }
            seen.set(u, true);
            queue.push(u);
            proof {
                assert forall|v: int|
                    0 <= v < u && !s0[v] && worlds@[v].name@ == worlds@[t as int].name@
                        implies queued(queue@, v) by {
                    assert(queued(qb, v));
                    let p = choose|p: int| 0 <= p < qb.len() && #[trigger] qb[p] == v;
                    assert(queue@[p] == v);
                }
                assert(queue@[qb.len() as int] == u);
            }
        }
        u += 1;
    }
}

proof fn lemma_step(ws: WorldsView, e: Seq<char>, a: Seq<char>, b: Seq<char>, i: int, j: int)
    requires
        reachable(ws, e, a),
        0 <= i < ws.len(),
        ws[i].0 == a,
        0 <= j < ws[i].1.len(),
        ws[i].1[j] == Some(b),
        is_world(ws, b),
    ensures
        reachable(ws, e, b),
{
    let p = choose|p: Seq<Seq<char>>| p.len() > 0 && p[0] == e && p.last() == a && #[trigger] is_walk(ws, p);
    assert(edge(ws, a, b));
    let q = p.push(b);
    assert forall|k: int| 0 <= k < q.len() - 1 implies edge(ws, #[trigger] q[k], q[k + 1]) by {
        if k < p.len() - 1 {
            assert(q[k] == p[k] && q[k + 1] == p[k + 1]);
        } else {
            assert(q[k] == a && q[k + 1] == b);
        }
    }
    assert(is_walk(ws, q));
}

proof fn lemma_walk_marked(ws: WorldsView, s: Seq<bool>, p: Seq<Seq<char>>, k: int)
    requires
        s.len() == ws.len(),
        by_name(ws, s),
        0 < p.len(),
        marked_name(ws, s, p[0]),
        is_walk(ws, p),
        0 <= k < p.len(),
        forall|i: int| 0 <= i < ws.len() && #[trigger] s[i] ==> closed_at(ws, s, i),
    ensures
        marked_name(ws, s, p[k]),
    decreases k,
{
    if k > 0 {
        lemma_walk_marked(ws, s, p, k - 1);
        let y = p[k - 1];
        let x = p[k];
        assert(edge(ws, p[k - 1], p[k]));
        let (i, j) = choose|i: int, j: int|
            0 <= i < ws.len() && ws[i].0 == y && 0 <= j < ws[i].1.len() && #[trigger] ws[i].1[j]
                == Some(x);
        let t = choose|t: int| 0 <= t < ws.len() && ws[t].0 == y && #[trigger] s[t];
        assert(s[i]);
        assert(closed_at(ws, s, i));
        assert(ws[i].1[j] is Some);
    }
}

/// Which worlds can be reached from world `start` through internal veils.
fn reach_from(worlds: &Vec<GraphWorld>, start: usize) -> (seen: Vec<bool>)
    requires
        start < worlds.len(),
    ensures
        seen@.len() == worlds.len(),
        forall|i: int|
            0 <= i < worlds.len() ==> (#[trigger] seen@[i] <==> reachable(
                worlds_view(worlds@),
                worlds@[start as int].name@,
                worlds@[i].name@,
            )),
{
    let ghost ws = worlds_view(worlds@);
    let ghost e = worlds@[start as int].name@;
    let n = worlds.len();
    let mut seen: Vec<bool> = Vec::new();
    while seen.len() < n
        invariant
            seen@.len() <= n,
            forall|u: int| 0 <= u < seen@.len() ==> !#[trigger] seen@[u],
        decreases n - seen@.len(),
    {
        seen.push(false);
    }
    let mut queue: Vec<usize> = Vec::new();
    mark_name(worlds, &mut seen, &mut queue, start);
    proof {
        assert forall|i: int| 0 <= i < n && #[trigger] seen@[i] implies reachable(ws, e, ws[i].0) by {
            assert(ws[i].0 == e);
            let p = seq![e];
            assert(is_walk(ws, p));
        }
        assert forall|i: int| 0 <= i < n && #[trigger] seen@[i] implies queued(queue@, i)
            || closed_at(ws, seen@, i) by {
            assert(ws[i].0 == e);
        }
    }
    while queue.len() > 0
        invariant
            ws == worlds_view(worlds@),
            e == worlds@[start as int].name@,
            start < n,
            n == worlds.len(),
            seen@.len() == n,
            seen@[start as int],
            by_name(ws, seen@),
            forall|p: int| 0 <= p < queue@.len() ==> #[trigger] queue@[p] < n && seen@[queue@[p] as int],
            forall|i: int| 0 <= i < n && #[trigger] seen@[i] ==> reachable(ws, e, ws[i].0),
            forall|i: int|
                0 <= i < n && #[trigger] seen@[i] ==> queued(queue@, i) || closed_at(ws, seen@, i),
        decreases unmarked(seen@), queue@.len(),
    {
        let ghost q_full = queue@;
        let c = queue.pop().unwrap();
        let ghost s_pop = seen@;
        let ghost q_pop = queue@;
        proof {
            assert(q_pop =~= q_full.drop_last());
            assert forall|i: int| 0 <= i < n && #[trigger] seen@[i] implies queued(queue@, i)
                || closed_at(ws, seen@, i) || i == c by {
                if queued(q_full, i) && !closed_at(ws, seen@, i) {
                    let p = choose|p: int| 0 <= p < q_full.len() && #[trigger] q_full[p] == i;
                    if p < q_pop.len() {
                        assert(q_pop[p] == i);
                    }
                }
            }
        }
        let d = &worlds[c].dests;
        let mut j: usize = 0;
        while j < d.len()
            invariant
                ws == worlds_view(worlds@),
                e == worlds@[start as int].name@,
                start < n,
                n == worlds.len(),
                c < n,
                d@ == worlds@[c as int].dests@,
                ws[c as int].1.len() == d@.len(),
                j <= d.len(),
                seen@.len() == n,
                seen@[start as int],
                seen@[c as int],
                by_name(ws, seen@),
                grows(s_pop, seen@),
                queue@.len() + unmarked(seen@) <= q_pop.len() + unmarked(s_pop),
                unmarked(seen@) <= unmarked(s_pop),
                q_pop.len() + 1 == q_full.len(),
                forall|p: int| 0 <= p < queue@.len() ==> #[trigger] queue@[p] < n && seen@[queue@[p] as int],
                forall|i: int| 0 <= i < n && #[trigger] seen@[i] ==> reachable(ws, e, ws[i].0),
                forall|i: int|
                    0 <= i < n && #[trigger] seen@[i] ==> queued(queue@, i) || closed_at(ws, seen@, i)
                        || i == c,
                forall|jj: int|
                    0 <= jj < j && (#[trigger] ws[c as int].1[jj]) is Some && is_world(
                        ws,
                        ws[c as int].1[jj]->0,
                    ) ==> marked_name(ws, seen@, ws[c as int].1[jj]->0),
            decreases d.len() - j,
        {
            proof {
                assert(ws[c as int].1[j as int] == opt_seq(d@[j as int]));
            }
            match &d[j] {
                Some(k) => {
                    match find_world(worlds, k.as_str()) {
                        Some(t) => {
                            if !seen[t] {
                                let ghost s1 = seen@;
                                let ghost q1 = queue@;
                                proof {
                                    assert(ws[t as int].0 == k@);
                                    lemma_step(ws, e, ws[c as int].0, k@, c as int, j as int);
                                }
                                mark_name(worlds, &mut seen, &mut queue, t);
                                proof {
                                    lemma_unmarked_mark(s1, t as int);
                                    assert(grows(s1, seen@));
                                    assert(seen@[t as int]);
                                    assert forall|i: int| 0 <= i < n && #[trigger] seen@[i]
                                        implies reachable(ws, e, ws[i].0) by {
                                        if !s1[i] {
                                            assert(ws[i].0 == k@);
                                        }
                                    }
                                    assert forall|i: int| 0 <= i < n && #[trigger] seen@[i]
                                        implies queued(queue@, i) || closed_at(ws, seen@, i) || i == c by {
                                        if s1[i] {
                                            if queued(q1, i) {
                                                let p = choose|p: int| 0 <= p < q1.len() && #[trigger] q1[p] == i;
                                                assert(queue@[p] == i);
                                            } else if closed_at(ws, s1, i) {
                                                lemma_closed_grows(ws, s1, seen@, i);
                                            }
                                        }
                                    }
                                    assert forall|a: int, b: int|
                                        0 <= a < ws.len() && 0 <= b < ws.len() && ws[a].0 == ws[b].0
                                            implies #[trigger] seen@[a] == #[trigger] seen@[b] by {
                                        assert(s1[a] == s1[b]);
                                    }
                                    assert forall|jj: int|
                                        0 <= jj < j && (#[trigger] ws[c as int].1[jj]) is Some && is_world(
                                            ws,
                                            ws[c as int].1[jj]->0,
                                        ) implies marked_name(ws, seen@, ws[c as int].1[jj]->0) by {
                                        let b = ws[c as int].1[jj]->0;
                                        assert(marked_name(ws, s1, b));
                                        let w = choose|w: int| 0 <= w < ws.len() && ws[w].0 == b && #[trigger] s1[w];
                                        assert(seen@[w]);
                                    }
                                    assert(marked_name(ws, seen@, k@));
                                    assert(grows(s_pop, seen@));
                                }
                            } else {
                                proof {
                                    assert(ws[t as int].0 == k@);
                                    assert(marked_name(ws, seen@, k@));
                                }
                            }
                        },
                        None => {},
                    }
                },
                None => {},
            }
            j += 1;
        }
        proof {
            assert(closed_at(ws, seen@, c as int));
            assert forall|i: int| 0 <= i < n && #[trigger] seen@[i] implies queued(queue@, i)
                || closed_at(ws, seen@, i) by {
                if i == c {
                }
            }
        }
    }
    proof {
        assert forall|i: int| 0 <= i < n && #[trigger] seen@[i] implies closed_at(ws, seen@, i) by {
            if queued(queue@, i) {
                let p = choose|p: int| 0 <= p < queue@.len() && #[trigger] queue@[p] == i;
            }
        }
        assert(ws[start as int].0 == e);
        assert(marked_name(ws, seen@, e));
        assert forall|i: int| 0 <= i < n implies (#[trigger] seen@[i] <==> reachable(ws, e, ws[i].0)) by {
            if reachable(ws, e, ws[i].0) {
                let p = choose|p: Seq<Seq<char>>| p.len() > 0 && p[0] == e && p.last() == ws[i].0
                    && #[trigger] is_walk(ws, p);
                lemma_walk_marked(ws, seen@, p, p.len() - 1);
                let w = choose|w: int| 0 <= w < ws.len() && ws[w].0 == ws[i].0 && #[trigger] seen@[w];
                assert(seen@[i] == seen@[w]);
            }
        }
    }
    seen
}

/// Pick the entry world, follow the internal veils from it, and report the
/// orphans (sorted) with the number of internal and external links.
pub fn analyze_graph(worlds: &Vec<GraphWorld>) -> (r: GraphSummary)
    requires
        portal_count(worlds_view(worlds@), worlds@.len() as int) <= usize::MAX,
    ensures
        opt_seq(r.entry) == entry_spec(worlds_view(worlds@)),
        r.internal == internal_count(worlds_view(worlds@), worlds@.len() as int),
        r.internal + r.external == portal_count(worlds_view(worlds@), worlds@.len() as int),
        sorted(texts(r.orphans@)),
        entry_spec(worlds_view(worlds@)) is None ==> r.orphans@.len() == 0,
        entry_spec(worlds_view(worlds@)) matches Some(e) ==> texts(r.orphans@).to_multiset()
            == not_reached(worlds_view(worlds@), e, worlds@.len() as int).to_multiset(),
        entry_spec(worlds_view(worlds@)) matches Some(e) ==> texts(r.orphans@) == orphan_list(
            worlds_view(worlds@),
            e,
        ),
{
    let ghost ws = worlds_view(worlds@);
    let (internal, external) = count_links(worlds);
    match pick_entry(worlds) {
        None => {
            let orphans: Vec<String> = Vec::new();
            proof {
                assert(texts(orphans@) =~= Seq::<Seq<char>>::empty());
            }
            GraphSummary { entry: None, orphans, internal, external }
        },
        Some(t) => {
            let ghost e = worlds@[t as int].name@;
            let seen = reach_from(worlds, t);
            let mut orphans: Vec<String> = Vec::new();
            let mut i: usize = 0;
            while i < worlds.len()
                invariant
                    i <= worlds.len(),
                    ws == worlds_view(worlds@),
                    seen@.len() == worlds.len(),
                    forall|u: int|
                        0 <= u < worlds.len() ==> (#[trigger] seen@[u] <==> reachable(ws, e, ws[u].0)),
                    texts(orphans@) == not_reached(ws, e, i as int),
                decreases worlds.len() - i,
            {
                let ghost before = texts(orphans@);
                if !seen[i] {
                    orphans.push(worlds[i].name.clone());
                    proof {
                        assert(texts(orphans@) =~= before.push(ws[i as int].0));
                    }
                } else {
                    assert(seen@[i as int]);
                }
                i += 1;
            }
            let name = worlds[t].name.clone();
            let orphans = sort_texts(orphans);
            proof {
                let o = texts(orphans@);
                assert(sorted(o) && o.to_multiset() == not_reached(ws, e, ws.len() as int).to_multiset());
                let c = orphan_list(ws, e);
                lemma_sorted_unique(o, c);
            }
            GraphSummary { entry: Some(name), orphans, internal, external }
        },
    }
}

/// The orphans of a corpus are exactly its worlds that no walk from the entry
/// reaches.
pub proof fn lemma_orphans_are_the_unreachable_worlds(ws: WorldsView, e: Seq<char>, x: Seq<char>)
    ensures
        not_reached(ws, e, ws.len() as int).contains(x) <==> (is_world(ws, x) && !reachable(ws, e, x)),
{
    lemma_not_reached_prefix(ws, e, x, ws.len() as int);
}

proof fn lemma_not_reached_prefix(ws: WorldsView, e: Seq<char>, x: Seq<char>, n: int)
    requires
        0 <= n <= ws.len(),
    ensures
        not_reached(ws, e, n).contains(x) <==> (!reachable(ws, e, x) && exists|i: int|
            0 <= i < n && (#[trigger] ws[i]).0 == x),
    decreases n,
{
    if n > 0 {
        lemma_not_reached_prefix(ws, e, x, n - 1);
        let prev = not_reached(ws, e, n - 1);
        if !reachable(ws, e, ws[n - 1].0) {
            assert(not_reached(ws, e, n) == prev.push(ws[n - 1].0));
            if ws[n - 1].0 == x {
                assert(prev.push(x)[prev.len() as int] == x);
            } else {
                let pushed = prev.push(ws[n - 1].0);
                if pushed.contains(x) {
                    let k = choose|k: int| 0 <= k < pushed.len() && #[trigger] pushed[k] == x;
                    assert(prev[k] == x);
                }
                if prev.contains(x) {
                    let k = choose|k: int| 0 <= k < prev.len() && #[trigger] prev[k] == x;
                    assert(pushed[k] == x);
                }
            }
        }
    }
}

/// The entry world is never an orphan: the walk that stays put reaches it.
pub proof fn lemma_entry_is_never_an_orphan(ws: WorldsView)
    requires
        entry_spec(ws) is Some,
    ensures
        reachable(ws, entry_spec(ws)->0, entry_spec(ws)->0),
        !not_reached(ws, entry_spec(ws)->0, ws.len() as int).contains(entry_spec(ws)->0),
{
    let e = entry_spec(ws)->0;
    let p = seq![e];
    assert(is_walk(ws, p));
    lemma_orphans_are_the_unreachable_worlds(ws, e, e);
}

} // verus!
