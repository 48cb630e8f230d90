//! Trail graves: how long a trail is, for placing them, and the graves of failed runs.

use vstd::prelude::*;
use crate::content::{LandmarkDefinition, TrailDefinition};
use crate::catalog::{has_node, index_of, step, reach_set, adj_ok, adjacency, reach_from, lemma_step, trail_has_node};
use crate::state::{find_node, node_named};
use crate::lookup::lemma_first_facts;
use crate::text::{same, decimal, push_decimal, text_before, compare_text, lemma_text_before_transitive, lemma_text_before_asymmetric};
use crate::persist::{RunRecord, History};
use crate::rng::{SimRng, stream_key, advanced, chacha_below_draw, chacha_below_wide_draw};
use crate::ui::{clean, cleaned};

verus! {

// ---------------------------------------------------------------------------------------
// The extent of a trail.

/// The furthest mile of any landmark (0 without landmarks).
pub open spec fn furthest_mile(nodes: Seq<LandmarkDefinition>) -> u32
    decreases nodes.len(),
{
    if nodes.len() == 0 {
        0
    } else {
        let rest = furthest_mile(nodes.drop_last());
        if nodes.last().mile > rest { nodes.last().mile } else { rest }
    }
}

/// The graph can be measured: distinct landmarks, a known start and goal, and routes
/// only to landmarks of the trail.
pub open spec fn measurable(t: TrailDefinition) -> bool {
    &&& forall|i: int, j: int| 0 <= i < j < t.nodes@.len() ==> #[trigger] t.nodes@[i].id@ != #[trigger] t.nodes@[j].id@
    &&& has_node(t, t.start_node_id@)
    &&& has_node(t, t.goal_node_id@)
    &&& forall|j: int, q: int| 0 <= j < t.nodes@.len() && 0 <= q < t.nodes@[j].routes@.len() ==>
            has_node(t, (#[trigger] t.nodes@[j].routes@[q]).target_id@)
}

/// Some route leads from a landmark back to it.
pub open spec fn has_cycle(t: TrailDefinition) -> bool {
    let n = t.nodes@.len();
    exists|i: int, j: int| 0 <= i < n && 0 <= j < n && #[trigger] step(t, i, j) && reach_set(t, j, n as int, n).contains(i)
}

/// The larger of two optional lengths.
pub open spec fn larger(a: Option<u32>, b: Option<u32>) -> Option<u32> {
    match (a, b) {
        (Some(x), Some(y)) => Some(if x >= y { x } else { y }),
        (Some(x), None) => Some(x),
        (None, _) => b,
    }
}

/// What route `q` of landmark `i` adds: its length plus the best `prev` knows from its
/// target, when that is known and fits in 32 bits.
pub open spec fn via(t: TrailDefinition, i: int, prev: Seq<Option<u32>>, q: int) -> Option<u32> {
    let r = t.nodes@[i].routes@[q];
    match index_of(t, r.target_id@) {
        Some(j) => match prev[j] {
            Some(d) => if r.distance_miles + d <= u32::MAX { Some((r.distance_miles + d) as u32) } else { None },
            None => None,
        },
        None => None,
    }
}

/// The best of the first `q` routes of landmark `i`.
pub open spec fn best(t: TrailDefinition, i: int, prev: Seq<Option<u32>>, q: nat) -> Option<u32>
    decreases q,
{
    if q == 0 {
        None
    } else {
        larger(best(t, i, prev, (q - 1) as nat), via(t, i, prev, q - 1))
    }
}

/// For every landmark, the longest way to landmark `g` in at most `n` legs (none when
/// `g` cannot be reached so).
pub open spec fn longest(t: TrailDefinition, g: int, n: nat) -> Seq<Option<u32>>
    decreases n,
{
    if n == 0 {
        Seq::new(t.nodes@.len(), |i: int| if i == g { Some(0u32) } else { None })
    } else {
        let prev = longest(t, g, (n - 1) as nat);
        Seq::new(t.nodes@.len(), |i: int| if i == g { Some(0u32) } else { best(t, i, prev, t.nodes@[i].routes@.len()) })
    }
}

/// The longest weighted way from the start to the goal, or the furthest landmark when
/// the graph cannot be measured, has a cycle, or never reaches the goal.
pub open spec fn extent(t: TrailDefinition) -> u32 {
    let n = t.nodes@.len();
    let s = index_of(t, t.start_node_id@)->0;
    let g = index_of(t, t.goal_node_id@)->0;
    if !measurable(t) || has_cycle(t) {
        furthest_mile(t.nodes@)
    } else {
        match longest(t, g, n)[s] {
            Some(d) => d,
            None => furthest_mile(t.nodes@),
        }
    }
}

fn furthest(nodes: &Vec<LandmarkDefinition>) -> (r: u32)
    ensures
        r == furthest_mile(nodes@),
{
    let mut r: u32 = 0;
    let mut i: usize = 0;
    while i < nodes.len()
        invariant
            i <= nodes@.len(),
            r == furthest_mile(nodes@.take(i as int)),
        decreases nodes@.len() - i,
    {
        assert(nodes@.take(i + 1).drop_last() =~= nodes@.take(i as int));
        if nodes[i].mile > r {
            r = nodes[i].mile;
        }
        i = i + 1;
    }
    assert(nodes@.take(nodes@.len() as int) =~= nodes@);
    r
}

fn measurable_check(t: &TrailDefinition) -> (r: bool)
    ensures
        r == measurable(*t),
{
    let n = t.nodes.len();
    let mut i: usize = 0;
    while i < n
        invariant
            n == t.nodes@.len(),
            i <= n,
            forall|a: int, b: int| 0 <= a < b < n && a < i ==> #[trigger] t.nodes@[a].id@ != #[trigger] t.nodes@[b].id@,
        decreases n - i,
    {
        let mut j: usize = i + 1;
        while j < n
            invariant
                n == t.nodes@.len(),
                i < n,
                i + 1 <= j <= n,
                forall|a: int, b: int| 0 <= a < b < n && a < i ==> #[trigger] t.nodes@[a].id@ != #[trigger] t.nodes@[b].id@,
                forall|b: int| i < b < j ==> t.nodes@[i as int].id@ != #[trigger] t.nodes@[b].id@,
            decreases n - j,
        {
            if same(t.nodes[i].id.as_str(), t.nodes[j].id.as_str()) {
                return false;
            }
            j = j + 1;
        }
        i = i + 1;
    }
    if !trail_has_node(t, t.start_node_id.as_str()) || !trail_has_node(t, t.goal_node_id.as_str()) {
        return false;
    }
    let mut j: usize = 0;
    while j < n
        invariant
            n == t.nodes@.len(),
            j <= n,
            forall|a: int, q: int| 0 <= a < j && 0 <= q < t.nodes@[a].routes@.len() ==>
                has_node(*t, (#[trigger] t.nodes@[a].routes@[q]).target_id@),
        decreases n - j,
    {
        let routes = &t.nodes[j].routes;
        let mut q: usize = 0;
        while q < routes.len()
            invariant
                n == t.nodes@.len(),
                j < n,
                routes@ == t.nodes@[j as int].routes@,
                q <= routes@.len(),
                forall|a: int, b: int| 0 <= a < j && 0 <= b < t.nodes@[a].routes@.len() ==>
                    has_node(*t, (#[trigger] t.nodes@[a].routes@[b]).target_id@),
                forall|b: int| 0 <= b < q ==> has_node(*t, (#[trigger] routes@[b]).target_id@),
            decreases routes@.len() - q,
        {
            if !trail_has_node(t, routes[q].target_id.as_str()) {
                assert(!has_node(*t, t.nodes@[j as int].routes@[q as int].target_id@));
                return false;
            }
            q = q + 1;
        }
        j = j + 1;
    }
    true
}

fn cycle_check(t: &TrailDefinition, adj: &Vec<Vec<usize>>) -> (r: bool)
    requires
        adj_ok(*t, adj@),
    ensures
        r == has_cycle(*t),
{
    let n = t.nodes.len();
    let mut i: usize = 0;
    while i < n
        invariant
            adj_ok(*t, adj@),
            n == t.nodes@.len(),
            i <= n,
            forall|a: int, j: int| 0 <= a < i && 0 <= j < n && #[trigger] step(*t, a, j) ==> !reach_set(*t, j, n as int, n as nat).contains(a),
        decreases n - i,
    {
        let row = &adj[i];
        let mut q: usize = 0;
        while q < row.len()
            invariant
                adj_ok(*t, adj@),
                n == t.nodes@.len(),
                i < n,
                row@ == adj@[i as int]@,
                q <= row@.len(),
                forall|a: int, j: int| 0 <= a < i && 0 <= j < n && #[trigger] step(*t, a, j) ==> !reach_set(*t, j, n as int, n as nat).contains(a),
                forall|b: int| 0 <= b < q ==> !reach_set(*t, #[trigger] row@[b] as int, n as int, n as nat).contains(i as int),
            decreases row@.len() - q,
        {
            let j = row[q];
            let back = reach_from(t, adj, j, n);
            if back[i] {
                proof {
                    lemma_step(*t, adj@, i as int, j as int);
                    assert(adj@[i as int]@[q as int] == j);
                    assert(step(*t, i as int, j as int));
                }
                return true;
            }
            q = q + 1;
        }
        proof {
            assert forall|j: int| 0 <= j < n && #[trigger] step(*t, i as int, j) implies !reach_set(*t, j, n as int, n as nat).contains(i as int) by {
                lemma_step(*t, adj@, i as int, j);
                let b = choose|b: int| 0 <= b < adj@[i as int]@.len() && #[trigger] adj@[i as int]@[b] == j;
                assert(row@[b] as int == j);
            }
        }
        i = i + 1;
    }
    false
}

fn best_of(t: &TrailDefinition, adj: &Vec<Vec<usize>>, i: usize, prev: &Vec<Option<u32>>) -> (r: Option<u32>)
    requires
        adj_ok(*t, adj@),
        i < t.nodes@.len(),
        prev@.len() == t.nodes@.len(),
    ensures
        r == best(*t, i as int, prev@, t.nodes@[i as int].routes@.len()),
{
    let routes = &t.nodes[i].routes;
    let row = &adj[i];
    let mut r: Option<u32> = None;
    let mut q: usize = 0;
    while q < routes.len()
        invariant
            adj_ok(*t, adj@),
            i < t.nodes@.len(),
            prev@.len() == t.nodes@.len(),
            routes@ == t.nodes@[i as int].routes@,
            row@ == adj@[i as int]@,
            q <= routes@.len(),
            r == best(*t, i as int, prev@, q as nat),
        decreases routes@.len() - q,
    {
        let j = row[q];
        let d = routes[q].distance_miles;
        let cand: Option<u32> = match prev[j] {
            Some(rest) => d.checked_add(rest),
            None => None,
        };
        assert(cand == via(*t, i as int, prev@, q as int));
        r = match (r, cand) {
            (Some(x), Some(y)) => Some(if x >= y { x } else { y }),
            (Some(x), None) => Some(x),
            (None, _) => cand,
        };
        q = q + 1;
    }
    r
}

/// The longest weighted start-to-goal route through the trail, so that graves spread
/// over the whole journey. A graph that cannot be measured, that has a cycle, or whose
/// goal cannot be reached falls back to its furthest landmark mile.
pub fn trail_extent(trail: &TrailDefinition) -> (r: u32)
    ensures
        r == extent(*trail),
{
    let fallback = furthest(&trail.nodes);
    if !measurable_check(trail) {
        return fallback;
    }
    let adj = adjacency(trail);
    if cycle_check(trail, &adj) {
        return fallback;
    }
    let n = trail.nodes.len();
    let s = find_node(&trail.nodes, trail.start_node_id.as_str());
    let g = find_node(&trail.nodes, trail.goal_node_id.as_str());
    proof {
        lemma_first_facts(trail.nodes@, node_named(trail.start_node_id@));
        lemma_first_facts(trail.nodes@, node_named(trail.goal_node_id@));
        let w = choose|k: int| 0 <= k < trail.nodes@.len() && #[trigger] trail.nodes@[k].id@ == trail.start_node_id@;
        assert(node_named(trail.start_node_id@)(trail.nodes@[w]));
        let v = choose|k: int| 0 <= k < trail.nodes@.len() && #[trigger] trail.nodes@[k].id@ == trail.goal_node_id@;
        assert(node_named(trail.goal_node_id@)(trail.nodes@[v]));
    }
    let (s, g) = match (s, g) {
        (Some(s), Some(g)) => (s, g),
        _ => {
            proof { assert(false); }
            return fallback;
        },
    };
    let mut cur: Vec<Option<u32>> = Vec::new();
    let mut i: usize = 0;
    while i < n
        invariant
            n == trail.nodes@.len(),
            i <= n,
            cur@ == longest(*trail, g as int, 0).take(i as int),
        decreases n - i,
    {
        cur.push(if i == g { Some(0) } else { None });
        assert(cur@ =~= longest(*trail, g as int, 0).take(i + 1));
        i = i + 1;
    }
    assert(cur@ =~= longest(*trail, g as int, 0));
    let mut k: usize = 0;
    while k < n
        invariant
            adj_ok(*trail, adj@),
            n == trail.nodes@.len(),
            g < n,
            k <= n,
            cur@ == longest(*trail, g as int, k as nat),
        decreases n - k,
    {
        let mut next: Vec<Option<u32>> = Vec::new();
        let mut i: usize = 0;
        while i < n
            invariant
                adj_ok(*trail, adj@),
                n == trail.nodes@.len(),
                g < n,
                i <= n,
                cur@ == longest(*trail, g as int, k as nat),
                next@ == longest(*trail, g as int, (k + 1) as nat).take(i as int),
            decreases n - i,
        {
            let v = if i == g { Some(0) } else { best_of(trail, &adj, i, &cur) };
            next.push(v);
            assert(next@ =~= longest(*trail, g as int, (k + 1) as nat).take(i + 1));
            i = i + 1;
        }
        assert(next@ =~= longest(*trail, g as int, (k + 1) as nat));
        cur = next;
        k = k + 1;
    }
    match cur[s] {
        Some(d) => d,
        None => fallback,
    }
}

// ---------------------------------------------------------------------------------------
// Graves.

/// A grave on the trail map: a fictional pioneer's, or a failed run's of this player.
#[derive(Debug, Clone, PartialEq, Eq)]
pub struct Grave {
    pub leader: String,
    pub mile: u32,
    pub date: String,
    pub cause: String,
    pub epitaph: String,
    pub local: bool,
}

/// How a grave's date reads: the year, " day ", and the day.
pub open spec fn grave_date(year: nat, day: nat) -> Seq<char> {
    decimal(year) + " day "@ + decimal(day)
}

fn date_text(year: u64, day: u64) -> (r: String)
    ensures
        r@ == grave_date(year as nat, day as nat),
{
    let mut r = String::new();
    push_decimal(&mut r, year);
    vstd::string::StringExecFns::append(&mut r, " day ");
    push_decimal(&mut r, day);
    proof { reveal_strlit(" day "); }
    assert(r@ =~= grave_date(year as nat, day as nat));
    r
}

/// A run leaves a grave on this trail when nobody survived and nobody arrived, on
/// this trail, within its extent.
pub open spec fn leaves_grave(run: RunRecord, trail: Seq<char>, extent: u32) -> bool {
    !run.arrived && run.survivors == 0 && run.trail@ == trail && run.miles <= extent
}

/// `g` is the grave run `run` leaves: its leader, mile, date, cause and epitaph made
/// safe to show (an unknown traveler, a trail that ended, the cause for a missing
/// epitaph), marked local.
pub open spec fn grave_of(run: RunRecord, g: Grave) -> bool {
    &&& g.leader@ == cleaned(run.leader@, "Unknown traveler"@)
    &&& g.mile == run.miles
    &&& g.date@ == grave_date(run.era as nat, run.days as nat)
    &&& g.cause@ == cleaned(run.cause@, "Trail ended"@)
    &&& g.epitaph@ == cleaned(run.epitaph@, cleaned(run.cause@, "Trail ended"@))
    &&& g.local
}

/// The grave a failed run leaves on this trail, if it leaves one.
pub fn local_grave(run: &RunRecord, trail: &str, trail_extent_miles: u32) -> (r: Option<Grave>)
    ensures
        r is Some <==> leaves_grave(*run, trail@, trail_extent_miles),
        r matches Some(g) ==> grave_of(*run, g),
{
    if run.arrived || run.survivors != 0 || !same(run.trail.as_str(), trail) || run.miles > trail_extent_miles {
        return None;
    }
    let cause = clean(run.cause.as_str(), "Trail ended");
    let leader = clean(run.leader.as_str(), "Unknown traveler");
    let epitaph = clean(run.epitaph.as_str(), cause.as_str());
    Some(Grave {
        leader,
        mile: run.miles,
        date: date_text(run.era as u64, run.days as u64),
        epitaph,
        cause,
        local: true,
    })
}

// ---------------------------------------------------------------------------------------
// Arranging graves along the trail.

/// Two graves stand at one place with one inscription.
pub open spec fn same_grave(a: Grave, b: Grave) -> bool {
    a.mile == b.mile && a.leader@ == b.leader@ && a.date@ == b.date@ && a.cause@ == b.cause@ && a.epitaph@ == b.epitaph@
}

/// Grave `a` comes before grave `b` along the trail: by mile, then by leader, date,
/// cause and epitaph in dictionary order.
#[verifier::opaque]
pub open spec fn grave_before(a: Grave, b: Grave) -> bool {
    ||| a.mile < b.mile
    ||| a.mile == b.mile && text_before(a.leader@, b.leader@)
    ||| a.mile == b.mile && a.leader@ == b.leader@ && text_before(a.date@, b.date@)
    ||| a.mile == b.mile && a.leader@ == b.leader@ && a.date@ == b.date@ && text_before(a.cause@, b.cause@)
    ||| a.mile == b.mile && a.leader@ == b.leader@ && a.date@ == b.date@ && a.cause@ == b.cause@ && text_before(a.epitaph@, b.epitaph@)
}

/// The graves are in trail order, no inscription twice.
#[verifier::opaque]
pub open spec fn in_trail_order(out: Seq<Grave>) -> bool {
    forall|p: int, q: int| 0 <= p < q < out.len() ==> grave_before(#[trigger] out[p], #[trigger] out[q])
}

/// Every grave of `out` has the inscription of some candidate.
#[verifier::opaque]
pub open spec fn drawn_from(cands: Seq<Grave>, out: Seq<Grave>) -> bool {
    forall|p: int| 0 <= p < out.len() ==> #[trigger] inscribed(cands, out[p])
}

/// Some grave of `gs` has the inscription of `g`.
pub open spec fn inscribed(gs: Seq<Grave>, g: Grave) -> bool {
    exists|i: int| 0 <= i < gs.len() && #[trigger] same_grave(gs[i], g)
}

/// A grave of `out` is local exactly when some candidate with its inscription is.
#[verifier::opaque]
pub open spec fn locals_kept(cands: Seq<Grave>, out: Seq<Grave>) -> bool {
    forall|p: int| 0 <= p < out.len() ==>
        ((#[trigger] out[p]).local <==> exists|i: int| 0 <= i < cands.len() && #[trigger] same_grave(cands[i], out[p]) && cands[i].local)
}

/// Every candidate's inscription is in `out`.
#[verifier::opaque]
pub open spec fn covers(cands: Seq<Grave>, out: Seq<Grave>) -> bool {
    forall|i: int| 0 <= i < cands.len() ==> #[trigger] inscribed(out, cands[i])
}

/// `out` holds the candidate graves in trail order, one per inscription, marked local
/// when some candidate with that inscription is local.
pub open spec fn arranged(cands: Seq<Grave>, out: Seq<Grave>) -> bool {
    &&& in_trail_order(out)
    &&& drawn_from(cands, out)
    &&& locals_kept(cands, out)
    &&& covers(cands, out)
}

proof fn lemma_grave_order(a: Grave, b: Grave, c: Grave)
    ensures
        !grave_before(a, a),
        !(grave_before(a, b) && grave_before(b, a)),
        same_grave(a, b) ==> !grave_before(a, b),
        grave_before(a, b) && grave_before(b, c) ==> grave_before(a, c),
        grave_before(a, b) && same_grave(b, c) ==> grave_before(a, c),
        same_grave(a, b) && grave_before(b, c) ==> grave_before(a, c),
{
    reveal(grave_before);
    lemma_text_before_asymmetric(a.leader@, b.leader@);
    lemma_text_before_asymmetric(a.date@, b.date@);
    lemma_text_before_asymmetric(a.cause@, b.cause@);
    lemma_text_before_asymmetric(a.epitaph@, b.epitaph@);
    lemma_text_before_asymmetric(a.leader@, a.leader@);
    lemma_text_before_asymmetric(a.date@, a.date@);
    lemma_text_before_asymmetric(a.cause@, a.cause@);
    lemma_text_before_asymmetric(a.epitaph@, a.epitaph@);
    if grave_before(a, b) && grave_before(b, c) && a.mile == b.mile && b.mile == c.mile {
        if text_before(a.leader@, b.leader@) && text_before(b.leader@, c.leader@) {
            lemma_text_before_transitive(a.leader@, b.leader@, c.leader@);
        }
        if text_before(a.date@, b.date@) && text_before(b.date@, c.date@) {
            lemma_text_before_transitive(a.date@, b.date@, c.date@);
        }
        if text_before(a.cause@, b.cause@) && text_before(b.cause@, c.cause@) {
            lemma_text_before_transitive(a.cause@, b.cause@, c.cause@);
        }
        if text_before(a.epitaph@, b.epitaph@) && text_before(b.epitaph@, c.epitaph@) {
            lemma_text_before_transitive(a.epitaph@, b.epitaph@, c.epitaph@);
        }
    }
}

/// Compares two graves along the trail: -1 when `a` comes first, 0 for one inscription,
/// 1 when `b` comes first.
fn compare_graves(a: &Grave, b: &Grave) -> (r: i8)
    ensures
        r == -1 <==> grave_before(*a, *b),
        r == 0 <==> same_grave(*a, *b),
        r == 1 <==> grave_before(*b, *a),
        r == -1 || r == 0 || r == 1,
{
    proof {
        reveal(grave_before);
        lemma_grave_order(*a, *b, *b);
        lemma_grave_order(*b, *a, *a);
    }
    if a.mile < b.mile {
        return -1;
    }
    if a.mile > b.mile {
        return 1;
    }
    let c = compare_text(a.leader.as_str(), b.leader.as_str());
    if c != 0 {
        return c;
    }
    let c = compare_text(a.date.as_str(), b.date.as_str());
    if c != 0 {
        return c;
    }
    let c = compare_text(a.cause.as_str(), b.cause.as_str());
    if c != 0 {
        return c;
    }
    compare_text(a.epitaph.as_str(), b.epitaph.as_str())
}

/// Puts candidate graves in trail order, one per inscription, keeping the local mark.
pub fn arrange(cands: Vec<Grave>) -> (out: Vec<Grave>)
    ensures
        arranged(cands@, out@),
{
    let ghost all = cands@;
    let mut out: Vec<Grave> = Vec::new();
    proof {
        reveal(in_trail_order);
        reveal(drawn_from);
        reveal(locals_kept);
        reveal(covers);
    }
    let ghost mut done: Seq<Grave> = Seq::empty();
    let mut i: usize = 0;
    let n = cands.len();
    while i < n
        invariant
            n == all.len(),
            cands@ == all,
            i <= n,
            done == all.take(i as int),
            arranged(done, out@),
        decreases n - i,
    {
        let c = cands[i].clone_grave();
        let mut p: usize = 0;
        let mut placed = false;
        while p < out.len() && !placed
            invariant
                p <= out@.len(),
                forall|q: int| 0 <= q < p ==> grave_before(#[trigger] out@[q], c),
                placed ==> p < out@.len() && !grave_before(out@[p as int], c),
            decreases out@.len() - p + (if placed { 0int } else { 1int }),
        {
            let r = compare_graves(&out[p], &c);
            if r == -1 {
                p = p + 1;
            } else {
                placed = true;
            }
        }
        proof {
            assert(all.take(i + 1) =~= done.push(all[i as int]));
        }
        let ghost before = out@;
        if p < out.len() && compare_graves(&out[p], &c) == 0 {
            if c.local {
                out.set(p, c);
            }
            proof {
                lemma_merge_order(before, out@, all[i as int], p as int);
                lemma_merge_drawn(done, before, out@, all[i as int], p as int);
                lemma_merge_locals(done, before, out@, all[i as int], p as int);
                lemma_merge_covers(done, before, out@, all[i as int], p as int);
            }
        } else {
            proof {
                if p < before.len() {
                    lemma_grave_total(c, before[p as int]);
                }
            }
            out.insert(p, c);
            proof {
                lemma_insert_order(before, out@, all[i as int], p as int);
                lemma_insert_fresh(done, before, all[i as int], p as int);
                lemma_insert_drawn(done, before, out@, all[i as int], p as int);
                lemma_insert_locals(done, before, out@, all[i as int], p as int);
                lemma_insert_covers(done, before, out@, all[i as int], p as int);
            }
        }
        proof {
            done = done.push(all[i as int]);
        }
        i = i + 1;
    }
    assert(all.take(n as int) =~= all);
    out
}

/// Merging a candidate into the grave with its inscription keeps trail order.
proof fn lemma_merge_order(before: Seq<Grave>, after: Seq<Grave>, c: Grave, p: int)
    requires
        in_trail_order(before),
        0 <= p < before.len(),
        same_grave(before[p], c),
        after == before || after == before.update(p, c),
    ensures
        in_trail_order(after),
{
    reveal(in_trail_order);
    assert forall|x: int, y: int| 0 <= x < y < after.len() implies grave_before(#[trigger] after[x], #[trigger] after[y]) by {
        assert(grave_before(before[x], before[y]));
        assert(same_grave(after[x], before[x]));
        assert(same_grave(before[y], after[y]));
        lemma_grave_order(after[x], before[x], before[y]);
        lemma_grave_order(after[x], before[y], after[y]);
    }
}

proof fn lemma_merge_drawn(done: Seq<Grave>, before: Seq<Grave>, after: Seq<Grave>, c: Grave, p: int)
    requires
        drawn_from(done, before),
        0 <= p < before.len(),
        same_grave(before[p], c),
        after == before || after == before.update(p, c),
    ensures
        drawn_from(done.push(c), after),
{
    reveal(drawn_from);
    let nd = done.push(c);
    assert forall|q: int| 0 <= q < after.len() implies #[trigger] inscribed(nd, after[q]) by {
        assert(inscribed(done, before[q]));
        let j = choose|j: int| 0 <= j < done.len() && #[trigger] same_grave(done[j], before[q]);
        assert(nd[j] == done[j]);
        assert(same_grave(nd[j], after[q]));
    }
}

proof fn lemma_merge_locals(done: Seq<Grave>, before: Seq<Grave>, after: Seq<Grave>, c: Grave, p: int)
    requires
        locals_kept(done, before),
        in_trail_order(before),
        0 <= p < before.len(),
        same_grave(before[p], c),
        c.local ==> after == before.update(p, c),
        !c.local ==> after == before,
    ensures
        locals_kept(done.push(c), after),
{
    reveal(locals_kept);
    reveal(in_trail_order);
    let nd = done.push(c);
    assert forall|q: int| 0 <= q < after.len() implies
        ((#[trigger] after[q]).local <==> exists|j: int| 0 <= j < nd.len() && #[trigger] same_grave(nd[j], after[q]) && nd[j].local) by {
        assert(before[q].local <==> exists|j: int| 0 <= j < done.len() && #[trigger] same_grave(done[j], before[q]) && done[j].local);
        if before[q].local {
            let j = choose|j: int| 0 <= j < done.len() && #[trigger] same_grave(done[j], before[q]) && done[j].local;
            assert(nd[j] == done[j]);
            assert(same_grave(nd[j], after[q]));
        }
        if q == p && c.local {
            assert(same_grave(nd[done.len() as int], after[q]));
        }
        if exists|j: int| 0 <= j < nd.len() && #[trigger] same_grave(nd[j], after[q]) && nd[j].local {
            let j = choose|j: int| 0 <= j < nd.len() && #[trigger] same_grave(nd[j], after[q]) && nd[j].local;
            if j < done.len() {
                assert(nd[j] == done[j]);
                assert(same_grave(done[j], before[q]));
            } else if q != p {
                assert(nd[j] == c);
                if p < q {
                    assert(grave_before(before[p], before[q]));
                    lemma_grave_order(before[q], before[p], before[q]);
                } else {
                    assert(grave_before(before[q], before[p]));
                    lemma_grave_order(before[p], before[q], before[p]);
                }
            }
        }
    }
}

proof fn lemma_merge_covers(done: Seq<Grave>, before: Seq<Grave>, after: Seq<Grave>, c: Grave, p: int)
    requires
        covers(done, before),
        0 <= p < before.len(),
        same_grave(before[p], c),
        after == before || after == before.update(p, c),
    ensures
        covers(done.push(c), after),
{
    reveal(covers);
    let nd = done.push(c);
    assert forall|j: int| 0 <= j < nd.len() implies #[trigger] inscribed(after, nd[j]) by {
        if j < done.len() {
            assert(nd[j] == done[j]);
            assert(inscribed(before, done[j]));
            let q = choose|q: int| 0 <= q < before.len() && #[trigger] same_grave(before[q], done[j]);
            assert(same_grave(after[q], nd[j]));
        } else {
            assert(same_grave(after[p], nd[j]));
        }
    }
}

/// Inserting a candidate where it belongs keeps trail order.
proof fn lemma_insert_order(before: Seq<Grave>, after: Seq<Grave>, c: Grave, p: int)
    requires
        in_trail_order(before),
        0 <= p <= before.len(),
        forall|q: int| 0 <= q < p ==> grave_before(#[trigger] before[q], c),
        p < before.len() ==> grave_before(c, before[p]),
        after == before.insert(p, c),
    ensures
        in_trail_order(after),
{
    reveal(in_trail_order);
    assert forall|x: int, y: int| 0 <= x < y < after.len() implies grave_before(#[trigger] after[x], #[trigger] after[y]) by {
        if y < p {
            assert(grave_before(before[x], before[y]));
        } else if y == p {
            assert(after[x] == before[x]);
        } else {
            assert(after[y] == before[y - 1]);
            if y - 1 > p {
                assert(grave_before(before[p], before[y - 1]));
                lemma_grave_order(c, before[p], before[y - 1]);
            }
            if x < p {
                assert(after[x] == before[x]);
                lemma_grave_order(before[x], c, before[y - 1]);
            } else if x > p {
                assert(after[x] == before[x - 1]);
                assert(grave_before(before[x - 1], before[y - 1]));
            }
        }
    }
}

/// A candidate inserted as new shares no inscription with earlier candidates.
proof fn lemma_insert_fresh(done: Seq<Grave>, before: Seq<Grave>, c: Grave, p: int)
    requires
        in_trail_order(before),
        covers(done, before),
        0 <= p <= before.len(),
        forall|q: int| 0 <= q < p ==> grave_before(#[trigger] before[q], c),
        p < before.len() ==> grave_before(c, before[p]),
    ensures
        forall|j: int| 0 <= j < done.len() ==> !same_grave(#[trigger] done[j], c),
        forall|q: int| 0 <= q < before.len() ==> !same_grave(#[trigger] before[q], c),
{
    reveal(in_trail_order);
    reveal(covers);
    assert forall|q: int| 0 <= q < before.len() implies !same_grave(#[trigger] before[q], c) by {
        if q < p {
            lemma_grave_order(before[q], c, c);
        } else {
            if q > p {
                assert(grave_before(before[p], before[q]));
                lemma_grave_order(c, before[p], before[q]);
            }
            lemma_grave_order(c, before[q], c);
            if same_grave(before[q], c) {
                lemma_grave_order(before[q], c, before[q]);
            }
        }
    }
    assert forall|j: int| 0 <= j < done.len() implies !same_grave(#[trigger] done[j], c) by {
        assert(inscribed(before, done[j]));
            let q = choose|q: int| 0 <= q < before.len() && #[trigger] same_grave(before[q], done[j]);
        assert(!same_grave(before[q], c));
    }
}

proof fn lemma_insert_drawn(done: Seq<Grave>, before: Seq<Grave>, after: Seq<Grave>, c: Grave, p: int)
    requires
        drawn_from(done, before),
        0 <= p <= before.len(),
        after == before.insert(p, c),
    ensures
        drawn_from(done.push(c), after),
{
    reveal(drawn_from);
    let nd = done.push(c);
    assert forall|q: int| 0 <= q < after.len() implies #[trigger] inscribed(nd, after[q]) by {
        if q == p {
            assert(same_grave(nd[done.len() as int], after[q]));
        } else {
            let b = if q < p { q } else { q - 1 };
            assert(after[q] == before[b]);
            assert(inscribed(done, before[b]));
            let j = choose|j: int| 0 <= j < done.len() && #[trigger] same_grave(done[j], before[b]);
            assert(nd[j] == done[j]);
            assert(same_grave(nd[j], after[q]));
        }
    }
}

proof fn lemma_insert_locals(done: Seq<Grave>, before: Seq<Grave>, after: Seq<Grave>, c: Grave, p: int)
    requires
        locals_kept(done, before),
        0 <= p <= before.len(),
        after == before.insert(p, c),
        forall|j: int| 0 <= j < done.len() ==> !same_grave(#[trigger] done[j], c),
        forall|q: int| 0 <= q < before.len() ==> !same_grave(#[trigger] before[q], c),
    ensures
        locals_kept(done.push(c), after),
{
    reveal(locals_kept);
    let nd = done.push(c);
    assert forall|q: int| 0 <= q < after.len() implies
        ((#[trigger] after[q]).local <==> exists|j: int| 0 <= j < nd.len() && #[trigger] same_grave(nd[j], after[q]) && nd[j].local) by {
        if q == p {
            if c.local {
                assert(same_grave(nd[done.len() as int], after[q]));
            }
            if exists|j: int| 0 <= j < nd.len() && #[trigger] same_grave(nd[j], after[q]) && nd[j].local {
                let j = choose|j: int| 0 <= j < nd.len() && #[trigger] same_grave(nd[j], after[q]) && nd[j].local;
                if j < done.len() {
                    assert(nd[j] == done[j]);
                }
            }
        } else {
            let b = if q < p { q } else { q - 1 };
            assert(after[q] == before[b]);
            assert(before[b].local <==> exists|j: int| 0 <= j < done.len() && #[trigger] same_grave(done[j], before[b]) && done[j].local);
            if before[b].local {
                let j = choose|j: int| 0 <= j < done.len() && #[trigger] same_grave(done[j], before[b]) && done[j].local;
                assert(nd[j] == done[j]);
                assert(same_grave(nd[j], after[q]));
            }
            if exists|j: int| 0 <= j < nd.len() && #[trigger] same_grave(nd[j], after[q]) && nd[j].local {
                let j = choose|j: int| 0 <= j < nd.len() && #[trigger] same_grave(nd[j], after[q]) && nd[j].local;
                if j < done.len() {
                    assert(nd[j] == done[j]);
                    assert(same_grave(done[j], before[b]));
                } else {
                    assert(nd[j] == c);
                    assert(!same_grave(before[b], c));
                }
            }
        }
    }
}

proof fn lemma_insert_covers(done: Seq<Grave>, before: Seq<Grave>, after: Seq<Grave>, c: Grave, p: int)
    requires
        covers(done, before),
        0 <= p <= before.len(),
        after == before.insert(p, c),
    ensures
        covers(done.push(c), after),
{
    reveal(covers);
    let nd = done.push(c);
    assert forall|j: int| 0 <= j < nd.len() implies #[trigger] inscribed(after, nd[j]) by {
        if j < done.len() {
            assert(nd[j] == done[j]);
            assert(inscribed(before, done[j]));
            let q = choose|q: int| 0 <= q < before.len() && #[trigger] same_grave(before[q], done[j]);
            if q < p {
                assert(after[q] == before[q]);
                assert(same_grave(after[q], nd[j]));
            } else {
                assert(after[q + 1] == before[q]);
                assert(same_grave(after[q + 1], nd[j]));
            }
        } else {
            assert(after[p] == c);
            assert(same_grave(after[p], nd[j]));
        }
    }
}

/// Of two graves with different inscriptions, one comes first.
proof fn lemma_grave_total(a: Grave, b: Grave)
    requires
        !same_grave(a, b),
        !grave_before(b, a),
    ensures
        grave_before(a, b),
{
    reveal(grave_before);
    lemma_text_total(a.leader@, b.leader@);
    lemma_text_total(a.date@, b.date@);
    lemma_text_total(a.cause@, b.cause@);
    lemma_text_total(a.epitaph@, b.epitaph@);
}

/// Of two different texts, one comes first in dictionary order.
proof fn lemma_char_codes(a: char, b: char)
    requires
        a != b,
    ensures
        (a as int) != (b as int),
{
}

proof fn lemma_text_total(a: Seq<char>, b: Seq<char>)
    ensures
        a == b || text_before(a, b) || text_before(b, a),
    decreases a.len(),
{
    if a.len() == 0 || b.len() == 0 {
        assert(a.take(0) =~= b.take(0));
        assert(b.take(0) =~= a.take(0));
        if a.len() == 0 && b.len() == 0 {
            assert(a =~= b);
        } else if a.len() == 0 {
            assert(text_before(a, b));
        } else {
            assert(text_before(b, a));
        }
    } else if a[0] != b[0] {
        assert(a.take(0) =~= b.take(0));
        assert(b.take(0) =~= a.take(0));
        lemma_char_codes(a[0], b[0]);
        if (a[0] as int) < (b[0] as int) {
            assert(text_before(a, b));
        } else {
            assert(text_before(b, a));
        }
    } else {
        lemma_text_total(a.drop_first(), b.drop_first());
        if a.drop_first() == b.drop_first() {
            assert(a =~= seq![a[0]] + a.drop_first());
            assert(b =~= seq![b[0]] + b.drop_first());
        } else if text_before(a.drop_first(), b.drop_first()) {
            let i = choose|i: int| 0 <= i <= a.drop_first().len() && i <= b.drop_first().len()
                && #[trigger] a.drop_first().take(i) == b.drop_first().take(i)
                && ((i == a.drop_first().len() && i < b.drop_first().len())
                    || (i < a.drop_first().len() && i < b.drop_first().len() && (a.drop_first()[i] as int) < (b.drop_first()[i] as int)));
            assert(a.take(i + 1) =~= seq![a[0]] + a.drop_first().take(i));
            assert(b.take(i + 1) =~= seq![b[0]] + b.drop_first().take(i));
            assert(a.take(i + 1) == b.take(i + 1));
            assert(text_before(a, b));
        } else {
            let i = choose|i: int| 0 <= i <= b.drop_first().len() && i <= a.drop_first().len()
                && #[trigger] b.drop_first().take(i) == a.drop_first().take(i)
                && ((i == b.drop_first().len() && i < a.drop_first().len())
                    || (i < b.drop_first().len() && i < a.drop_first().len() && (b.drop_first()[i] as int) < (a.drop_first()[i] as int)));
            assert(a.take(i + 1) =~= seq![a[0]] + a.drop_first().take(i));
            assert(b.take(i + 1) =~= seq![b[0]] + b.drop_first().take(i));
            assert(b.take(i + 1) == a.take(i + 1));
            assert(text_before(b, a));
        }
    }
}

/// `ls` are the graves the runs leave on this trail, in the order of the runs.
pub open spec fn local_graves(runs: Seq<RunRecord>, trail: Seq<char>, extent: u32, ls: Seq<Grave>) -> bool
    decreases runs.len(),
{
    if runs.len() == 0 {
        ls.len() == 0
    } else if leaves_grave(runs.last(), trail, extent) {
        ls.len() > 0 && local_graves(runs.drop_last(), trail, extent, ls.drop_last()) && grave_of(runs.last(), ls.last())
    } else {
        local_graves(runs.drop_last(), trail, extent, ls)
    }
}

/// The pioneers buried along every trail.
pub open spec fn leader_names() -> Seq<Seq<char>> {
    seq!["Elias Ward"@, "Martha Bell"@, "Jonas Pike"@, "Clara Reed"@, "Samuel Vail"@]
}

/// What took them.
pub open spec fn grave_causes() -> Seq<Seq<char>> {
    seq!["Fever"@, "River accident"@, "Winter cold"@, "Wagon fall"@, "Exhaustion"@]
}

/// What their stones say.
pub open spec fn grave_epitaphs() -> Seq<Seq<char>> {
    seq![
        "The fire was kept until dawn."@,
        "Westward, with family near."@,
        "A steady hand on the trail."@,
        "Remembered at every camp."@,
        "The road ended, love did not."@,
    ]
}

/// A fictional grave of this era along a trail of this extent: a known pioneer, cause and
/// epitaph, a mile on the trail, and a day of the year before the era.
pub open spec fn seeded_grave(g: Grave, era: u16, extent: u32) -> bool {
    &&& leader_names().contains(g.leader@)
    &&& grave_causes().contains(g.cause@)
    &&& grave_epitaphs().contains(g.epitaph@)
    &&& 1 <= g.mile <= extent
    &&& exists|day: nat| 20 <= day <= 239 && g.date@ == #[trigger] grave_date(year_before(era), day)
    &&& !g.local
}

/// The year before the era (no earlier than year zero).
pub open spec fn year_before(era: u16) -> nat {
    if era >= 1 { (era - 1) as nat } else { 0 }
}

/// Three to five fictional graves.
pub open spec fn seeded_graves_ok(gs: Seq<Grave>, era: u16, extent: u32) -> bool {
    &&& 3 <= gs.len() <= 5
    &&& forall|k: int| 0 <= k < gs.len() ==> #[trigger] seeded_grave(gs[k], era, extent)
}

fn pick_name(i: u64) -> (r: &'static str)
    requires
        i < 5,
    ensures
        r@ == leader_names()[i as int],
{
    if i == 0 { "Elias Ward" } else if i == 1 { "Martha Bell" } else if i == 2 { "Jonas Pike" } else if i == 3 { "Clara Reed" } else { "Samuel Vail" }
}

fn pick_cause(i: u64) -> (r: &'static str)
    requires
        i < 5,
    ensures
        r@ == grave_causes()[i as int],
{
    if i == 0 { "Fever" } else if i == 1 { "River accident" } else if i == 2 { "Winter cold" } else if i == 3 { "Wagon fall" } else { "Exhaustion" }
}

fn pick_epitaph(i: u64) -> (r: &'static str)
    requires
        i < 5,
    ensures
        r@ == grave_epitaphs()[i as int],
{
    if i == 0 {
        "The fire was kept until dawn."
    } else if i == 1 {
        "Westward, with family near."
    } else if i == 2 {
        "A steady hand on the trail."
    } else if i == 3 {
        "Remembered at every camp."
    } else {
        "The road ended, love did not."
    }
}

/// The name of the stream the fictional graves of `trail` in `era` are drawn from.
pub open spec fn graves_stream(trail: Seq<char>, era: u16) -> Seq<char> {
    "legacy-graves:"@ + trail + ":"@ + decimal(era as nat)
}

/// A stream position: key, stream number and word.
pub type StreamPos = (Seq<u8>, u64, u128);

/// The draws behind one fictional grave from stream position `p`: the leader, cause and
/// epitaph picks, the mile and day draws, and the position after them.
pub open spec fn grave_draws(p: StreamPos, extent: u32) -> (u64, u64, u64, u32, u32, StreamPos) {
    let a = chacha_below_wide_draw(p.0, p.1, p.2, 5);
    let p1 = advanced(p, a.1);
    let b = chacha_below_wide_draw(p1.0, p1.1, p1.2, 5);
    let p2 = advanced(p1, b.1);
    let c = chacha_below_wide_draw(p2.0, p2.1, p2.2, 5);
    let p3 = advanced(p2, c.1);
    let m = chacha_below_draw(p3.0, p3.1, p3.2, extent);
    let p4 = advanced(p3, m.1);
    let d = chacha_below_draw(p4.0, p4.1, p4.2, 220);
    (a.0, b.0, c.0, m.0, d.0, advanced(p4, d.1))
}

/// `g` is fictional grave number `index`, drawn from stream position `p`.
pub open spec fn drawn_grave(g: Grave, p: StreamPos, index: int, era: u16, extent: u32) -> bool {
    let d = grave_draws(p, extent);
    &&& g.leader@ == leader_names()[(d.0 + index) % 5]
    &&& g.cause@ == grave_causes()[(d.1 + index) % 5]
    &&& g.epitaph@ == grave_epitaphs()[(d.2 + index) % 5]
    &&& g.mile == 1 + d.3
    &&& g.date@ == grave_date(year_before(era), (20 + d.4) as nat)
    &&& !g.local
}

/// The stream position after `n` graves drawn from `p`.
pub open spec fn after_graves(p: StreamPos, n: nat, extent: u32) -> StreamPos
    decreases n,
{
    if n == 0 { p } else { grave_draws(after_graves(p, (n - 1) as nat, extent), extent).5 }
}

/// `gs` are exactly the fictional graves the master seed `seed` gives `trail` in `era`: a
/// count of three to five, then each grave's draws in turn, all from one named stream.
pub open spec fn seeded_graves_are(gs: Seq<Grave>, seed: u64, trail: Seq<char>, era: u16, extent: u32) -> bool {
    let p0: StreamPos = (stream_key(seed, vstd::utf8::encode_utf8(graves_stream(trail, era))), 0u64, 0u128);
    let count = chacha_below_wide_draw(p0.0, p0.1, p0.2, 3);
    let p1 = advanced(p0, count.1);
    &&& gs.len() == 3 + count.0
    &&& forall|k: int| 0 <= k < gs.len() ==> #[trigger] drawn_grave(gs[k], after_graves(p1, k as nat, extent), k, era, extent)
}

/// The same seed, trail and era always give the same fictional graves, in the same order.
pub proof fn lemma_seeded_graves_stable(a: Seq<Grave>, b: Seq<Grave>, seed: u64, trail: Seq<char>, era: u16, extent: u32)
    requires
        seeded_graves_are(a, seed, trail, era, extent),
        seeded_graves_are(b, seed, trail, era, extent),
    ensures
        a.len() == b.len(),
        forall|k: int| 0 <= k < a.len() ==> same_grave(#[trigger] a[k], b[k]) && !a[k].local && !b[k].local,
{
    let p0: StreamPos = (stream_key(seed, vstd::utf8::encode_utf8(graves_stream(trail, era))), 0u64, 0u128);
    let p1 = advanced(p0, chacha_below_wide_draw(p0.0, p0.1, p0.2, 3).1);
    assert forall|k: int| 0 <= k < a.len() implies same_grave(#[trigger] a[k], b[k]) && !a[k].local && !b[k].local by {
        assert(drawn_grave(a[k], after_graves(p1, k as nat, extent), k, era, extent));
        assert(drawn_grave(b[k], after_graves(p1, k as nat, extent), k, era, extent));
    }
}

/// The fictional graves of a trail and era, drawn from the seed's stream named after both.
fn seeded_graves(seed: u64, trail: &str, era: u16, trail_extent_miles: u32) -> (r: Vec<Grave>)
    requires
        trail_extent_miles > 0,
    ensures
        seeded_graves_ok(r@, era, trail_extent_miles),
        seeded_graves_are(r@, seed, trail@, era, trail_extent_miles),
{
    let mut rng = SimRng::new(seed);
    let mut name = String::from_str("legacy-graves:");
    vstd::string::StringExecFns::append(&mut name, trail);
    vstd::string::StringExecFns::append(&mut name, ":");
    push_decimal(&mut name, era as u64);
    proof {
        reveal_strlit("legacy-graves:");
        reveal_strlit(":");
        assert(name@ =~= graves_stream(trail@, era));
    }
    let ghost p0: StreamPos = (stream_key(seed, vstd::utf8::encode_utf8(graves_stream(trail@, era))), 0u64, 0u128);
    let ghost p1 = advanced(p0, chacha_below_wide_draw(p0.0, p0.1, p0.2, 3).1);
    let count = 3 + rng.roll_wide(name.as_str(), 3);
    let year: u16 = if era >= 1 { era - 1 } else { 0 };
    let mut out: Vec<Grave> = Vec::new();
    let mut index: u64 = 0;
    while index < count
        invariant
            3 <= count <= 5,
            count == 3 + chacha_below_wide_draw(p0.0, p0.1, p0.2, 3).0,
            name@ == graves_stream(trail@, era),
            rng.position(name@) == after_graves(p1, index as nat, trail_extent_miles),
            forall|k: int| 0 <= k < index ==> #[trigger] drawn_grave(out@[k], after_graves(p1, k as nat, trail_extent_miles), k, era, trail_extent_miles),
            index <= count,
            rng.wf(),
            out@.len() == index,
            year == (if era >= 1 { era - 1 } else { 0 }),
            trail_extent_miles > 0,
            forall|k: int| 0 <= k < index ==> #[trigger] seeded_grave(out@[k], era, trail_extent_miles),
        decreases count - index,
    {
        let li = (rng.roll_wide(name.as_str(), 5) + index) % 5;
        let ci = (rng.roll_wide(name.as_str(), 5) + index) % 5;
        let ei = (rng.roll_wide(name.as_str(), 5) + index) % 5;
        let leader = pick_name(li);
        let cause = pick_cause(ci);
        let epitaph = pick_epitaph(ei);
        let mile = 1 + rng.roll(name.as_str(), trail_extent_miles);
        let day = 20 + rng.roll(name.as_str(), 220);
        let g = Grave {
            leader: String::from_str(leader),
            mile,
            date: date_text(year as u64, day as u64),
            cause: String::from_str(cause),
            epitaph: String::from_str(epitaph),
            local: false,
        };
        proof {
            assert(drawn_grave(g, after_graves(p1, index as nat, trail_extent_miles), index as int, era, trail_extent_miles));
            assert(leader_names()[li as int] == g.leader@);
            assert(grave_causes()[ci as int] == g.cause@);
            assert(grave_epitaphs()[ei as int] == g.epitaph@);
            assert(year as nat == year_before(era));
            assert(20 <= day <= 239 && g.date@ == grave_date(year_before(era), day as nat));
            assert(seeded_grave(g, era, trail_extent_miles));
        }
        out.push(g);
        index = index + 1;
    }
    proof {
        assert(seeded_graves_are(out@, seed, trail@, era, trail_extent_miles));
    }
    out
}

/// `r` are the graves along `trail` of extent `extent` in `era`, given the player's `runs`
/// and the master seed: none on a trail of no length; otherwise the seed's fictional graves
/// and the runs' local ones, arranged in trail order.
pub open spec fn graves_laid(runs: Seq<RunRecord>, seed: u64, trail: Seq<char>, era: u16, extent: u32, r: Seq<Grave>) -> bool {
    &&& extent == 0 ==> r.len() == 0
    &&& extent > 0 ==> exists|seeded: Seq<Grave>, ls: Seq<Grave>| {
        &&& seeded_graves_ok(seeded, era, extent)
        &&& seeded_graves_are(seeded, seed, trail, era, extent)
        &&& local_graves(runs, trail, extent, ls)
        &&& arranged(seeded + ls, r)
    }
}

/// Two lists of graves match grave for grave: the same inscription and the same local mark.
pub open spec fn alike(a: Seq<Grave>, b: Seq<Grave>) -> bool {
    a.len() == b.len() && forall|k: int| 0 <= k < a.len() ==> same_grave(#[trigger] a[k], b[k]) && a[k].local == b[k].local
}

proof fn lemma_local_graves_alike(runs: Seq<RunRecord>, trail: Seq<char>, extent: u32, a: Seq<Grave>, b: Seq<Grave>)
    requires
        local_graves(runs, trail, extent, a),
        local_graves(runs, trail, extent, b),
    ensures
        alike(a, b),
        forall|k: int| 0 <= k < a.len() ==> (#[trigger] a[k]).local,
    decreases runs.len(),
{
    if runs.len() > 0 {
        if leaves_grave(runs.last(), trail, extent) {
            lemma_local_graves_alike(runs.drop_last(), trail, extent, a.drop_last(), b.drop_last());
            assert forall|k: int| 0 <= k < a.len() implies same_grave(#[trigger] a[k], b[k]) && a[k].local == b[k].local && a[k].local by {
                if k < a.len() - 1 {
                    assert(a[k] == a.drop_last()[k] && b[k] == b.drop_last()[k]);
                }
            }
        } else {
            lemma_local_graves_alike(runs.drop_last(), trail, extent, a, b);
        }
    }
}

proof fn lemma_sorted_alike(o1: Seq<Grave>, o2: Seq<Grave>)
    requires
        in_trail_order(o1),
        in_trail_order(o2),
        forall|p: int| 0 <= p < o1.len() ==> #[trigger] inscribed(o2, o1[p]),
        forall|q: int| 0 <= q < o2.len() ==> #[trigger] inscribed(o1, o2[q]),
    ensures
        o1.len() == o2.len(),
        forall|k: int| 0 <= k < o1.len() ==> same_grave(#[trigger] o1[k], o2[k]),
    decreases o1.len() + o2.len(),
{
    reveal(in_trail_order);
    if o1.len() == 0 {
        if o2.len() > 0 {
            assert(inscribed(o1, o2[0]));
        }
    } else if o2.len() == 0 {
        assert(inscribed(o2, o1[0]));
    } else {
        assert(inscribed(o2, o1[0]));
        assert(inscribed(o1, o2[0]));
        let j = choose|j: int| 0 <= j < o2.len() && #[trigger] same_grave(o2[j], o1[0]);
        let i = choose|i: int| 0 <= i < o1.len() && #[trigger] same_grave(o1[i], o2[0]);
        if i > 0 && j > 0 {
            assert(grave_before(o2[0], o2[j]));
            assert(grave_before(o1[0], o1[i]));
            lemma_grave_order(o2[0], o2[j], o1[0]);
            lemma_grave_order(o1[0], o1[i], o2[0]);
            lemma_grave_order(o1[0], o2[0], o1[0]);
        }
        assert(same_grave(o1[0], o2[0]));
        let d1 = o1.drop_first();
        let d2 = o2.drop_first();
        assert forall|p: int| 0 <= p < d1.len() implies #[trigger] inscribed(d2, d1[p]) by {
            assert(d1[p] == o1[p + 1]);
            assert(inscribed(o2, o1[p + 1]));
            let q = choose|q: int| 0 <= q < o2.len() && #[trigger] same_grave(o2[q], o1[p + 1]);
            if q == 0 {
                assert(grave_before(o1[0], o1[p + 1]));
                lemma_grave_order(o1[0], o1[p + 1], o1[p + 1]);
            }
            assert(same_grave(d2[q - 1], d1[p]));
        }
        assert forall|q: int| 0 <= q < d2.len() implies #[trigger] inscribed(d1, d2[q]) by {
            assert(d2[q] == o2[q + 1]);
            assert(inscribed(o1, o2[q + 1]));
            let p = choose|p: int| 0 <= p < o1.len() && #[trigger] same_grave(o1[p], o2[q + 1]);
            if p == 0 {
                assert(grave_before(o2[0], o2[q + 1]));
                lemma_grave_order(o2[0], o2[q + 1], o2[q + 1]);
            }
            assert(same_grave(d1[p - 1], d2[q]));
        }
        assert(in_trail_order(d1)) by {
            assert forall|p: int, q: int| 0 <= p < q < d1.len() implies grave_before(#[trigger] d1[p], #[trigger] d1[q]) by {
                assert(d1[p] == o1[p + 1] && d1[q] == o1[q + 1]);
            }
        }
        assert(in_trail_order(d2)) by {
            assert forall|p: int, q: int| 0 <= p < q < d2.len() implies grave_before(#[trigger] d2[p], #[trigger] d2[q]) by {
                assert(d2[p] == o2[p + 1] && d2[q] == o2[q + 1]);
            }
        }
        lemma_sorted_alike(d1, d2);
        assert forall|k: int| 0 <= k < o1.len() implies same_grave(#[trigger] o1[k], o2[k]) by {
            if k > 0 {
                assert(o1[k] == d1[k - 1] && o2[k] == d2[k - 1]);
            }
        }
    }
}

/// The graves are stable and in order: the same player's runs, seed, trail, era and
/// extent always lay the same graves, grave for grave; they stand in trail order with no
/// inscription twice; each fictional one has the inscription of one of the seed's graves,
/// on the trail and dated in the year before the era; each local one is the grave of one
/// of the runs.
pub proof fn law_graves_are_stable(runs: Seq<RunRecord>, seed: u64, trail: Seq<char>, era: u16, extent: u32,
    a: Seq<Grave>, b: Seq<Grave>)
    requires
        graves_laid(runs, seed, trail, era, extent, a),
        graves_laid(runs, seed, trail, era, extent, b),
    ensures
        alike(a, b),
        in_trail_order(a),
        forall|k: int| 0 <= k < a.len() && !(#[trigger] a[k]).local ==> exists|s: Seq<Grave>, i: int|
            seeded_graves_are(s, seed, trail, era, extent) && 0 <= i < s.len() && #[trigger] same_grave(s[i], a[k])
                && seeded_grave(s[i], era, extent),
        forall|k: int| 0 <= k < a.len() && (#[trigger] a[k]).local ==> exists|ls: Seq<Grave>, i: int|
            local_graves(runs, trail, extent, ls) && 0 <= i < ls.len() && #[trigger] same_grave(ls[i], a[k]),
{
    if extent == 0 {
        reveal(in_trail_order);
        return;
    }
    let (s1, l1) = choose|seeded: Seq<Grave>, ls: Seq<Grave>| {
        &&& seeded_graves_ok(seeded, era, extent)
        &&& seeded_graves_are(seeded, seed, trail, era, extent)
        &&& local_graves(runs, trail, extent, ls)
        &&& arranged(seeded + ls, a)
    };
    let (s2, l2) = choose|seeded: Seq<Grave>, ls: Seq<Grave>| {
        &&& seeded_graves_ok(seeded, era, extent)
        &&& seeded_graves_are(seeded, seed, trail, era, extent)
        &&& local_graves(runs, trail, extent, ls)
        &&& arranged(seeded + ls, b)
    };
    lemma_seeded_graves_stable(s1, s2, seed, trail, era, extent);
    lemma_local_graves_alike(runs, trail, extent, l1, l2);
    let c1 = s1 + l1;
    let c2 = s2 + l2;
    assert(alike(c1, c2)) by {
        assert forall|k: int| 0 <= k < c1.len() implies same_grave(#[trigger] c1[k], c2[k]) && c1[k].local == c2[k].local by {
            if k < s1.len() {
                assert(c1[k] == s1[k] && c2[k] == s2[k]);
            } else {
                assert(c1[k] == l1[k - s1.len()] && c2[k] == l2[k - s1.len()]);
            }
        }
    }
    reveal(drawn_from);
    reveal(covers);
    reveal(locals_kept);
    assert forall|p: int| 0 <= p < a.len() implies #[trigger] inscribed(b, a[p]) by {
        assert(inscribed(c1, a[p]));
        let i = choose|i: int| 0 <= i < c1.len() && #[trigger] same_grave(c1[i], a[p]);
        assert(same_grave(c2[i], c1[i]));
        assert(inscribed(b, c2[i]));
        let q = choose|q: int| 0 <= q < b.len() && #[trigger] same_grave(b[q], c2[i]);
        assert(same_grave(b[q], a[p]));
    }
    assert forall|q: int| 0 <= q < b.len() implies #[trigger] inscribed(a, b[q]) by {
        assert(inscribed(c2, b[q]));
        let i = choose|i: int| 0 <= i < c2.len() && #[trigger] same_grave(c2[i], b[q]);
        assert(same_grave(c1[i], c2[i]));
        assert(inscribed(a, c1[i]));
        let p = choose|p: int| 0 <= p < a.len() && #[trigger] same_grave(a[p], c1[i]);
        assert(same_grave(a[p], b[q]));
    }
    lemma_sorted_alike(a, b);
    assert forall|k: int| 0 <= k < a.len() implies a[k].local == b[k].local by {
        assert(same_grave(a[k], b[k]));
        if a[k].local {
            let i = choose|i: int| 0 <= i < c1.len() && #[trigger] same_grave(c1[i], a[k]) && c1[i].local;
            assert(same_grave(c2[i], b[k]) && c2[i].local);
        }
        if b[k].local {
            let i = choose|i: int| 0 <= i < c2.len() && #[trigger] same_grave(c2[i], b[k]) && c2[i].local;
            assert(same_grave(c1[i], a[k]) && c1[i].local);
        }
    }
    assert forall|k: int| 0 <= k < a.len() && !(#[trigger] a[k]).local implies exists|s: Seq<Grave>, i: int|
        seeded_graves_are(s, seed, trail, era, extent) && 0 <= i < s.len() && #[trigger] same_grave(s[i], a[k])
            && seeded_grave(s[i], era, extent) by {
        assert(inscribed(c1, a[k]));
        let i = choose|i: int| 0 <= i < c1.len() && #[trigger] same_grave(c1[i], a[k]);
        if i >= s1.len() {
            assert(c1[i] == l1[i - s1.len()]);
            assert(c1[i].local);
        }
        assert(c1[i] == s1[i]);
        assert(seeded_grave(s1[i], era, extent));
        assert(same_grave(s1[i], a[k]));
    }
    assert forall|k: int| 0 <= k < a.len() && (#[trigger] a[k]).local implies exists|ls: Seq<Grave>, i: int|
        local_graves(runs, trail, extent, ls) && 0 <= i < ls.len() && #[trigger] same_grave(ls[i], a[k]) by {
        let i = choose|i: int| 0 <= i < c1.len() && #[trigger] same_grave(c1[i], a[k]) && c1[i].local;
        if i < s1.len() {
            assert(c1[i] == s1[i]);
            assert(seeded_grave(s1[i], era, extent));
        }
        assert(c1[i] == l1[i - s1.len()]);
        assert(same_grave(l1[i - s1.len()], a[k]));
    }
}

/// The graves along a trail: fictional ones from the seed, and those of this player's
/// failed runs, in trail order with one per inscription (a run's grave keeps its local
/// mark). `trail_extent_miles` is the trail's fixed length, so graves stay put while the
/// party travels; a trail of no length has none. The fictional graves are exactly those
/// the seed's named stream gives, so the same seed always lays the same ones.
pub fn graves(history: &History, seed: u64, trail: &str, era: u16, trail_extent_miles: u32) -> (r: Vec<Grave>)
    ensures
        graves_laid(history.runs@, seed, trail@, era, trail_extent_miles, r@),
{
    if trail_extent_miles == 0 {
        return Vec::new();
    }
    let mut cands = seeded_graves(seed, trail, era, trail_extent_miles);
    let ghost seeded = cands@;
    let ghost mut ls: Seq<Grave> = Seq::empty();
    let runs = &history.runs;
    let mut k: usize = 0;
    while k < runs.len()
        invariant
            k <= runs@.len(),
            runs@ == history.runs@,
            cands@ == seeded + ls,
            local_graves(runs@.take(k as int), trail@, trail_extent_miles, ls),
        decreases runs@.len() - k,
    {
        proof {
            assert(runs@.take(k + 1).drop_last() =~= runs@.take(k as int));
            assert(runs@.take(k + 1).last() == runs@[k as int]);
        }
        match local_grave(&runs[k], trail, trail_extent_miles) {
            Some(g) => {
                cands.push(g);
                proof {
                    let old_ls = ls;
                    ls = ls.push(g);
                    assert(ls.drop_last() =~= old_ls);
                    assert(cands@ =~= seeded + ls);
                }
            },
            None => {},
        }
        k = k + 1;
    }
    assert(runs@.take(runs@.len() as int) =~= runs@);
    arrange(cands)
}

impl Grave {
    /// A copy of the grave.
    pub fn clone_grave(&self) -> (r: Grave)
        ensures
            r == *self,
    {
        Grave {
            leader: self.leader.clone(),
            mile: self.mile,
            date: self.date.clone(),
            cause: self.cause.clone(),
            epitaph: self.epitaph.clone(),
            local: self.local,
        }
    }
}

} // verus!
