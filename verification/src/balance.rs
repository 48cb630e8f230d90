//! Totals gathered over many reference journeys for balance reports: how travelers
//! died, in which month parties arrived, and which scenarios a report covers.

use vstd::prelude::*;
use crate::content::{GameContent, OccupationDefinition, EraDefinition, TrailDefinition};
use crate::headless::{play, finished_journey, journey_result, setup_refusal, summary_after, BalanceSummary, JourneyError, JourneyObserver,
    RunConfig, RunSummary};
use crate::health::PartyMember;
use crate::state::{GameState, Outcome, RunStatus, content_ready, is_rejection};
use crate::text::{compare_text, text_before, lemma_text_before_transitive, lemma_text_before_asymmetric, same,
    push_decimal, decimal};
use crate::ui::occupation_available;

verus! {

/// `a + b`, held at `u32::MAX`.
pub open spec fn capped(a: int, b: int) -> u32 {
    if a + b > u32::MAX { u32::MAX } else { (a + b) as u32 }
}

// ---------------------------------------------------------------------------------------
// Counts keyed by text.

/// Keys in strictly increasing dictionary order.
pub open spec fn text_keys_ordered(s: Seq<(Seq<char>, u32)>) -> bool {
    forall|i: int, j: int| 0 <= i < j < s.len() ==> text_before(#[trigger] s[i].0, #[trigger] s[j].0)
}

/// How many keys of the ordered rows `s` come before `k`.
pub open spec fn text_place(s: Seq<(Seq<char>, u32)>, k: Seq<char>) -> nat
    decreases s.len(),
{
    if s.len() == 0 || !text_before(s[0].0, k) { 0 } else { 1 + text_place(s.drop_first(), k) }
}

/// The rows `s` after `n` more under key `k`: the count grows where `k` is present,
/// otherwise `k` takes its place in order with count `n`.
pub open spec fn text_added(s: Seq<(Seq<char>, u32)>, k: Seq<char>, n: u32) -> Seq<(Seq<char>, u32)> {
    let i = text_place(s, k) as int;
    if i < s.len() && s[i].0 == k {
        s.update(i, (k, capped(s[i].1 as int, n as int)))
    } else {
        s.insert(i, (k, n))
    }
}

/// The rows `s` after adding every row of `more`, first to last.
pub open spec fn text_merged(s: Seq<(Seq<char>, u32)>, more: Seq<(Seq<char>, u32)>) -> Seq<(Seq<char>, u32)>
    decreases more.len(),
{
    if more.len() == 0 {
        s
    } else {
        let m = text_merged(s, more.drop_last());
        text_added(m, more.last().0, more.last().1)
    }
}

proof fn lemma_text_place(s: Seq<(Seq<char>, u32)>, k: Seq<char>, i: int)
    requires
        0 <= i <= s.len(),
        forall|j: int| 0 <= j < i ==> text_before(#[trigger] s[j].0, k),
        i == s.len() || !text_before(s[i].0, k),
    ensures
        text_place(s, k) == i,
    decreases i,
{
    if i > 0 {
        let t = s.drop_first();
        assert forall|j: int| 0 <= j < i - 1 implies text_before(#[trigger] t[j].0, k) by {
            assert(t[j] == s[j + 1]);
        }
        if i - 1 < t.len() {
            assert(t[i - 1] == s[i]);
        }
        lemma_text_place(t, k, i - 1);
        assert(text_before(s[0].0, k));
    }
}

/// Counts keyed by text, each key once, in dictionary order of the keys.
#[derive(Debug)]
pub struct CauseCounts {
    entries: Vec<(String, u32)>,
}

/// The text view of stored rows.
pub open spec fn text_rows(e: Seq<(String, u32)>) -> Seq<(Seq<char>, u32)> {
    e.map_values(|r: (String, u32)| (r.0@, r.1))
}

impl CauseCounts {
    /// The keys with their counts, in order.
    pub closed spec fn rows(self) -> Seq<(Seq<char>, u32)> {
        text_rows(self.entries@)
    }

    #[verifier::type_invariant]
    spec fn wf(self) -> bool {
        text_keys_ordered(self.rows())
    }

    /// No counts yet.
    pub fn new() -> (r: Self)
        ensures
            r.rows() == Seq::<(Seq<char>, u32)>::empty(),
    {
        let r = CauseCounts { entries: Vec::new() };
        assert(r.rows() =~= Seq::<(Seq<char>, u32)>::empty());
        r
    }

    /// Number of keys.
    pub fn len(&self) -> (r: usize)
        ensures
            r == self.rows().len(),
            text_keys_ordered(self.rows()),
    {
        proof { use_type_invariant(self); }
        self.entries.len()
    }

    /// Row `i`: its key and count.
    pub fn row(&self, i: usize) -> (r: (&str, u32))
        requires
            i < self.rows().len(),
        ensures
            (r.0@, r.1) == self.rows()[i as int],
    {
        (self.entries[i].0.as_str(), self.entries[i].1)
    }

    /// Adds `n` to the count of `key` (held at `u32::MAX`).
    pub fn add(&mut self, key: &str, n: u32)
        ensures
            final(self).rows() == text_added(old(self).rows(), key@, n),
            text_keys_ordered(final(self).rows()),
    {
        proof { use_type_invariant(&*self); }
        let ghost s = self.rows();
        let len = self.entries.len();
        let mut i: usize = 0;
        let mut go = true;
        let mut last: i8 = -1;
        while go && i < len
            invariant
                len == s.len(),
                s == self.rows(),
                i <= len,
                forall|j: int| 0 <= j < i ==> text_before(#[trigger] s[j].0, key@),
                !go ==> i < len && ((last == 0 && s[i as int].0 == key@) || (last == 1 && text_before(key@, s[i as int].0))),
            decreases len - i + (if go { 1int } else { 0int }),
        {
            let c = compare_text(self.entries[i].0.as_str(), key);
            assert(s[i as int].0 == self.entries@[i as int].0@);
            if c == -1 {
                i = i + 1;
            } else {
                last = c;
                go = false;
            }
        }
        proof {
            if !go {
                lemma_text_before_asymmetric(key@, s[i as int].0);
                lemma_text_before_asymmetric(s[i as int].0, s[i as int].0);
            }
            lemma_text_place(s, key@, i as int);
        }
        let mut entries: Vec<(String, u32)> = Vec::new();
        std::mem::swap(&mut entries, &mut self.entries);
        let ghost e0 = entries@;
        if !go && last == 0 {
            let k = entries[i].0.clone();
            let v = entries[i].1;
            let total = v.saturating_add(n);
            entries.set(i, (k, total));
            proof {
                assert(text_rows(entries@) =~= s.update(i as int, (key@, capped(s[i as int].1 as int, n as int))));
                assert forall|p: int, q: int| 0 <= p < q < text_rows(entries@).len() implies
                    text_before(#[trigger] text_rows(entries@)[p].0, #[trigger] text_rows(entries@)[q].0) by {
                    assert(text_rows(entries@)[p].0 == s[p].0);
                    assert(text_rows(entries@)[q].0 == s[q].0);
                }
            }
            self.entries = entries;
        } else {
            entries.insert(i, (key.to_owned(), n));
            proof {
                let t = s.insert(i as int, (key@, n));
                assert(text_rows(entries@) =~= t);
                assert forall|p: int, q: int| 0 <= p < q < t.len() implies
                    text_before(#[trigger] t[p].0, #[trigger] t[q].0) by {
                    if q < i {
                        assert(t[p] == s[p] && t[q] == s[q]);
                    } else if q == i {
                        assert(t[p] == s[p]);
                    } else if p == i {
                        assert(t[q] == s[q - 1]);
                        if q - 1 > i {
                            lemma_text_before_transitive(key@, s[i as int].0, s[q - 1].0);
                        }
                    } else if p < i {
                        assert(t[p] == s[p] && t[q] == s[q - 1]);
                        if q - 1 >= i {
                            if q - 1 == i as int {
                                lemma_text_before_transitive(s[p].0, key@, s[q - 1].0);
                            } else {
                                lemma_text_before_transitive(key@, s[i as int].0, s[q - 1].0);
                                lemma_text_before_transitive(s[p].0, key@, s[q - 1].0);
                            }
                        }
                    } else {
                        assert(t[p] == s[p - 1] && t[q] == s[q - 1]);
                    }
                }
            }
            self.entries = entries;
        }
    }

    /// Adds every count of `other` to this table.
    pub fn merge(&mut self, other: &CauseCounts)
        ensures
            final(self).rows() == text_merged(old(self).rows(), other.rows()),
            text_keys_ordered(final(self).rows()),
    {
        proof { use_type_invariant(&*self); }
        let n = other.len();
        let mut j: usize = 0;
        while j < n
            invariant
                n == other.rows().len(),
                j <= n,
                self.rows() == text_merged(old(self).rows(), other.rows().take(j as int)),
                text_keys_ordered(self.rows()),
            decreases n - j,
        {
            let (k, c) = other.row(j);
            proof {
                assert(other.rows().take(j + 1).drop_last() =~= other.rows().take(j as int));
            }
            self.add(k, c);
            j = j + 1;
        }
        proof {
            assert(other.rows().take(n as int) =~= other.rows());
        }
    }
}

// ---------------------------------------------------------------------------------------
// Counts keyed by month.

/// Months in strictly increasing order.
pub open spec fn month_keys_ordered(s: Seq<(u8, u32)>) -> bool {
    forall|i: int, j: int| 0 <= i < j < s.len() ==> #[trigger] s[i].0 < #[trigger] s[j].0
}

/// How many months of the ordered rows `s` come before `k`.
pub open spec fn month_place(s: Seq<(u8, u32)>, k: u8) -> nat
    decreases s.len(),
{
    if s.len() == 0 || s[0].0 >= k { 0 } else { 1 + month_place(s.drop_first(), k) }
}

/// The rows `s` after `n` more under month `k`.
pub open spec fn month_added(s: Seq<(u8, u32)>, k: u8, n: u32) -> Seq<(u8, u32)> {
    let i = month_place(s, k) as int;
    if i < s.len() && s[i].0 == k {
        s.update(i, (k, capped(s[i].1 as int, n as int)))
    } else {
        s.insert(i, (k, n))
    }
}

/// The rows `s` after adding every row of `more`, first to last.
pub open spec fn month_merged(s: Seq<(u8, u32)>, more: Seq<(u8, u32)>) -> Seq<(u8, u32)>
    decreases more.len(),
{
    if more.len() == 0 {
        s
    } else {
        let m = month_merged(s, more.drop_last());
        month_added(m, more.last().0, more.last().1)
    }
}

proof fn lemma_month_place(s: Seq<(u8, u32)>, k: u8, i: int)
    requires
        0 <= i <= s.len(),
        forall|j: int| 0 <= j < i ==> #[trigger] s[j].0 < k,
        i == s.len() || s[i].0 >= k,
    ensures
        month_place(s, k) == i,
    decreases i,
{
    if i > 0 {
        let t = s.drop_first();
        assert forall|j: int| 0 <= j < i - 1 implies #[trigger] t[j].0 < k by {
            assert(t[j] == s[j + 1]);
        }
        if i - 1 < t.len() {
            assert(t[i - 1] == s[i]);
        }
        lemma_month_place(t, k, i - 1);
    }
}

/// Counts keyed by month, each month once, in calendar order.
#[derive(Debug)]
pub struct MonthCounts {
    entries: Vec<(u8, u32)>,
}

impl MonthCounts {
    /// The months with their counts, in order.
    pub closed spec fn rows(self) -> Seq<(u8, u32)> {
        self.entries@
    }

    #[verifier::type_invariant]
    spec fn wf(self) -> bool {
        month_keys_ordered(self.entries@)
    }

    /// No counts yet.
    pub fn new() -> (r: Self)
        ensures
            r.rows() == Seq::<(u8, u32)>::empty(),
    {
        MonthCounts { entries: Vec::new() }
    }

    /// Number of months.
    pub fn len(&self) -> (r: usize)
        ensures
            r == self.rows().len(),
            month_keys_ordered(self.rows()),
    {
        proof { use_type_invariant(self); }
        self.entries.len()
    }

    /// Row `i`: its month and count.
    pub fn row(&self, i: usize) -> (r: (u8, u32))
        requires
            i < self.rows().len(),
        ensures
            r == self.rows()[i as int],
    {
        self.entries[i]
    }

    /// Adds `n` to the count of month `key` (held at `u32::MAX`).
    pub fn add(&mut self, key: u8, n: u32)
        ensures
            final(self).rows() == month_added(old(self).rows(), key, n),
            month_keys_ordered(final(self).rows()),
    {
        proof { use_type_invariant(&*self); }
        let ghost s = self.rows();
        let len = self.entries.len();
        let mut i: usize = 0;
        while i < len && self.entries[i].0 < key
            invariant
                len == s.len(),
                s == self.rows(),
                i <= len,
                forall|j: int| 0 <= j < i ==> #[trigger] s[j].0 < key,
            decreases len - i,
        {
            i = i + 1;
        }
        proof { lemma_month_place(s, key, i as int); }
        let mut entries: Vec<(u8, u32)> = Vec::new();
        std::mem::swap(&mut entries, &mut self.entries);
        if i < len && entries[i].0 == key {
            let total = entries[i].1.saturating_add(n);
            entries.set(i, (key, total));
            self.entries = entries;
        } else {
            entries.insert(i, (key, n));
            proof {
                let t = s.insert(i as int, (key, n));
                assert(entries@ =~= t);
                assert forall|p: int, q: int| 0 <= p < q < t.len() implies #[trigger] t[p].0 < #[trigger] t[q].0 by {
                    if q < i {
                        assert(t[p] == s[p] && t[q] == s[q]);
                    } else if q == i {
                        assert(t[p] == s[p]);
                    } else if p == i {
                        assert(t[q] == s[q - 1]);
                        assert(s[i as int].0 <= s[q - 1].0);
                    } else if p < i {
                        assert(t[p] == s[p] && t[q] == s[q - 1]);
                        assert(s[i as int].0 <= s[q - 1].0);
                    } else {
                        assert(t[p] == s[p - 1] && t[q] == s[q - 1]);
                    }
                }
            }
            self.entries = entries;
        }
    }

    /// Adds every count of `other` to this table.
    pub fn merge(&mut self, other: &MonthCounts)
        ensures
            final(self).rows() == month_merged(old(self).rows(), other.rows()),
            month_keys_ordered(final(self).rows()),
    {
        proof { use_type_invariant(&*self); }
        let n = other.len();
        let mut j: usize = 0;
        while j < n
            invariant
                n == other.rows().len(),
                j <= n,
                self.rows() == month_merged(old(self).rows(), other.rows().take(j as int)),
                month_keys_ordered(self.rows()),
            decreases n - j,
        {
            let (k, c) = other.row(j);
            proof {
                assert(other.rows().take(j + 1).drop_last() =~= other.rows().take(j as int));
            }
            self.add(k, c);
            j = j + 1;
        }
        proof {
            assert(other.rows().take(n as int) =~= other.rows());
        }
    }
}

// ---------------------------------------------------------------------------------------
// What one journey shows.

/// `m` is the traveler called `name`, dead of exactly one ailment.
pub open spec fn died_of_one(m: PartyMember, name: Seq<char>) -> bool {
    m.name@ == name && m.health == 0 && m.ailments@.len() == 1
}

/// The recorded cause of death of the traveler called `name`: the single ailment of the
/// first such traveler found dead of exactly one ailment; otherwise `unknown`, which
/// covers starvation, crossings and deaths with several ailments.
pub open spec fn cause_of_death(party: Seq<PartyMember>, name: Seq<char>) -> Seq<char> {
    if exists|i: int| 0 <= i < party.len() && #[trigger] died_of_one(party[i], name) {
        let i = choose|i: int| 0 <= i < party.len() && #[trigger] died_of_one(party[i], name)
            && forall|j: int| 0 <= j < i ==> !#[trigger] died_of_one(party[j], name);
        party[i].ailments@[0]@
    } else {
        "unknown"@
    }
}

/// The cause of death recorded for the traveler called `name`.
pub fn death_cause(game: &GameState, name: &str) -> (r: String)
    ensures
        r@ == cause_of_death(game.party@, name@),
{
    let mut i: usize = 0;
    while i < game.party.len()
        invariant
            i <= game.party@.len(),
            forall|j: int| 0 <= j < i ==> !#[trigger] died_of_one(game.party@[j], name@),
        decreases game.party@.len() - i,
    {
        let m = &game.party[i];
        if same(m.name.as_str(), name) && m.health == 0 && m.ailments.len() == 1 {
            let ghost p = game.party@;
            assert(died_of_one(p[i as int], name@));
            assert(forall|j: int| 0 <= j < i ==> !#[trigger] died_of_one(p[j], name@));
            let ghost w = choose|k: int| 0 <= k < p.len() && #[trigger] died_of_one(p[k], name@)
                && forall|j: int| 0 <= j < k ==> !#[trigger] died_of_one(p[j], name@);
            assert(w == i as int) by {
                if w < i { assert(!died_of_one(p[w], name@)); }
                if w > i { assert(!died_of_one(p[i as int], name@)); }
            }
            return m.ailments[0].clone();
        }
        i = i + 1;
    }
    "unknown".to_owned()
}

/// The cause counts `rows` after the deaths among `out`, one count per death.
pub open spec fn deaths_counted(rows: Seq<(Seq<char>, u32)>, game: GameState, out: Seq<Outcome>) -> Seq<(Seq<char>, u32)>
    decreases out.len(),
{
    if out.len() == 0 {
        rows
    } else {
        let r = deaths_counted(rows, game, out.drop_last());
        match out.last() {
            Outcome::MemberDied { name } => text_added(r, cause_of_death(game.party@, name@), 1),
            _ => r,
        }
    }
}

/// The party has arrived, and these outcomes are the arrival's.
pub open spec fn arrival_seen(game: GameState, out: Seq<Outcome>) -> bool {
    game.status is Arrived && exists|i: int| 0 <= i < out.len() && #[trigger] out[i] is ArrivedAt
}

/// What a balance report learns from one journey: how its travelers died, and the month
/// of its arrival, if it arrived.
#[derive(Debug)]
pub struct Observation {
    pub death_causes: CauseCounts,
    pub arrival_month: Option<u8>,
}

impl Observation {
    /// Nothing seen yet.
    pub fn new() -> (r: Self)
        ensures
            r.death_causes.rows() == Seq::<(Seq<char>, u32)>::empty(),
            r.arrival_month is None,
    {
        Observation { death_causes: CauseCounts::new(), arrival_month: None }
    }
}

impl JourneyObserver for Observation {
    /// Counts each death among `outcomes` under its cause, and notes the month when
    /// they are the party's arrival.
    fn observe(&mut self, game: &GameState, outcomes: &[Outcome])
        ensures
            final(self).death_causes.rows() == deaths_counted(old(self).death_causes.rows(), *game, outcomes@),
            final(self).arrival_month == if arrival_seen(*game, outcomes@) {
                Some(game.today().month)
            } else {
                old(self).arrival_month
            },
    {
        let mut i: usize = 0;
        let mut arrived_here = false;
        while i < outcomes.len()
            invariant
                i <= outcomes@.len(),
                game.ready(),
                self.death_causes.rows() == deaths_counted(old(self).death_causes.rows(), *game, outcomes@.take(i as int)),
                self.arrival_month == old(self).arrival_month,
                arrived_here <==> exists|j: int| 0 <= j < i && #[trigger] outcomes@[j] is ArrivedAt,
            decreases outcomes@.len() - i,
        {
            proof {
                assert(outcomes@.take(i + 1).drop_last() =~= outcomes@.take(i as int));
                assert(outcomes@.take(i + 1).last() == outcomes@[i as int]);
            }
            match &outcomes[i] {
                Outcome::MemberDied { name } => {
                    let cause = death_cause(game, name.as_str());
                    self.death_causes.add(cause.as_str(), 1);
                },
                Outcome::ArrivedAt { .. } => {
                    arrived_here = true;
                },
                _ => {},
            }
            i = i + 1;
        }
        proof {
            assert(outcomes@.take(outcomes@.len() as int) =~= outcomes@);
        }
        if matches!(game.status, RunStatus::Arrived) && arrived_here {
            let (_, month, _) = game.date();
            self.arrival_month = Some(month);
        }
    }
}

// ---------------------------------------------------------------------------------------
// A batch of journeys.

/// The totals of one scenario's journeys.
#[derive(Debug)]
pub struct Report {
    pub summary: BalanceSummary,
    pub total_score: u64,
    pub death_causes: CauseCounts,
    pub arrival_months: MonthCounts,
}

/// The month counts `rows` after an observation that saw `month`.
pub open spec fn months_after(rows: Seq<(u8, u32)>, month: Option<u8>) -> Seq<(u8, u32)> {
    match month {
        Some(m) => month_added(rows, m, 1),
        None => rows,
    }
}

impl Report {
    /// An empty report.
    pub fn new() -> (r: Self)
        ensures
            r.summary == (BalanceSummary { runs: 0, arrivals: 0, arrivals_with_three: 0, total_days: 0, total_survivors: 0 }),
            r.total_score == 0,
            r.death_causes.rows() == Seq::<(Seq<char>, u32)>::empty(),
            r.arrival_months.rows() == Seq::<(u8, u32)>::empty(),
    {
        Report {
            summary: BalanceSummary { runs: 0, arrivals: 0, arrivals_with_three: 0, total_days: 0, total_survivors: 0 },
            total_score: 0,
            death_causes: CauseCounts::new(),
            arrival_months: MonthCounts::new(),
        }
    }

    /// Adds one journey and what was observed of it.
    pub fn record(&mut self, run: &RunSummary, observation: Observation)
        requires
            old(self).summary.runs < u32::MAX,
            old(self).summary.arrivals < u32::MAX,
            old(self).summary.arrivals_with_three < u32::MAX,
            old(self).summary.total_days + run.days <= u64::MAX,
            old(self).summary.total_survivors + run.survivors <= u64::MAX,
            old(self).total_score + run.score <= u64::MAX,
        ensures
            final(self).summary == summary_after(old(self).summary, *run),
            final(self).total_score == old(self).total_score + run.score,
            final(self).death_causes.rows() == text_merged(old(self).death_causes.rows(), observation.death_causes.rows()),
            final(self).arrival_months.rows() == months_after(old(self).arrival_months.rows(), observation.arrival_month),
    {
        self.summary.record(run);
        self.total_score = self.total_score + run.score as u64;
        self.death_causes.merge(&observation.death_causes);
        if let Some(month) = observation.arrival_month {
            self.arrival_months.add(month, 1);
        }
    }
}

/// The totals of the journeys `s`, from nothing.
pub open spec fn batch_totals(s: Seq<RunSummary>) -> BalanceSummary
    decreases s.len(),
{
    if s.len() == 0 {
        BalanceSummary { runs: 0, arrivals: 0, arrivals_with_three: 0, total_days: 0, total_survivors: 0 }
    } else {
        summary_after(batch_totals(s.drop_last()), s.last())
    }
}

/// The sum of the scores of the journeys `s`.
pub open spec fn score_total(s: Seq<RunSummary>) -> int
    decreases s.len(),
{
    if s.len() == 0 { 0 } else { score_total(s.drop_last()) + s.last().score }
}

/// `s` are finished journeys seeded one after another from `seed`.
pub open spec fn seeded_batch(seed: u64, s: Seq<RunSummary>) -> bool {
    forall|i: int| 0 <= i < s.len() ==> finished_journey(seed.wrapping_add(i as u64), #[trigger] s[i])
}

proof fn lemma_totals_bounded(s: Seq<RunSummary>)
    requires
        forall|i: int| 0 <= i < s.len() ==> (#[trigger] s[i]).survivors <= 5,
        s.len() <= u32::MAX,
    ensures
        batch_totals(s).runs == s.len(),
        batch_totals(s).arrivals <= s.len(),
        batch_totals(s).arrivals_with_three <= s.len(),
        batch_totals(s).total_days <= s.len() * 0xffff_ffff,
        batch_totals(s).total_survivors <= 5 * s.len(),
        0 <= score_total(s) <= s.len() * 0xffff_ffff,
    decreases s.len(),
{
    if s.len() > 0 {
        let t = s.drop_last();
        assert forall|i: int| 0 <= i < t.len() implies (#[trigger] t[i]).survivors <= 5 by {
            assert(t[i] == s[i]);
        }
        lemma_totals_bounded(t);
        assert(s.last().survivors <= 5);
        let n = t.len();
        assert(n * 0xffff_ffff + 0xffff_ffff == (n + 1) * 0xffff_ffff) by (nonlinear_arith);
        assert((n + 1) * 0xffff_ffff <= 0xffff_ffff * 0xffff_ffff) by (nonlinear_arith)
            requires n + 1 <= 0xffff_ffff;
    }
}

proof fn lemma_batch_grows(content: GameContent, seed: u64, config: RunConfig, done: Seq<RunSummary>, run: RunSummary)
    requires
        seeded_batch(seed, done),
        forall|i: int| 0 <= i < done.len() ==> journey_result(content, seed.wrapping_add(i as u64), config, Ok(#[trigger] done[i])),
        journey_result(content, seed.wrapping_add(done.len() as u64), config, Ok(run)),
    ensures
        seeded_batch(seed, done.push(run)),
        forall|i: int| 0 <= i < done.len() + 1 ==> journey_result(content, seed.wrapping_add(i as u64), config, Ok(#[trigger] done.push(run)[i])),
{
    let next = done.push(run);
    assert forall|i: int| 0 <= i < next.len() implies journey_result(content, seed.wrapping_add(i as u64), config, Ok(#[trigger] next[i])) by {
        if i < done.len() {
            assert(next[i] == done[i]);
        }
    }
    assert forall|i: int| 0 <= i < next.len() implies finished_journey(seed.wrapping_add(i as u64), #[trigger] next[i]) by {
        if i < done.len() {
            assert(next[i] == done[i]);
        } else {
            assert(journey_result(content, seed.wrapping_add(i as u64), config, Ok(next[i])));
        }
    }
}

/// Plays `runs` reference journeys seeded `seed`, `seed + 1`, ... (wrapping) under
/// `config`, and adds them up; the content comes back unchanged. The first journey that
/// stops without finishing stops the batch with its error.
#[verifier::rlimit(40)]
#[verifier::spinoff_prover]
pub fn run_batch(content: GameContent, seed: u64, runs: u32, config: &RunConfig)
    -> (r: (GameContent, Result<Report, JourneyError>))
    requires
        content_ready(content),
    ensures
        r.0 == content,
        r.1 matches Ok(report) ==> exists|s: Seq<RunSummary>| #![auto] s.len() == runs && seeded_batch(seed, s)
            && (forall|i: int| 0 <= i < runs ==> journey_result(content, seed.wrapping_add(i as u64), *config, Ok(s[i])))
            && report.summary == batch_totals(s) && report.total_score == score_total(s),
        r.1 matches Err(e) ==> exists|i: int| 0 <= i < runs && #[trigger] journey_result(content, seed.wrapping_add(i as u64), *config, Err(e))
            && exists|s: Seq<RunSummary>| #![auto] s.len() == i
                && forall|j: int| 0 <= j < i ==> journey_result(content, seed.wrapping_add(j as u64), *config, Ok(s[j])),
        runs > 0 ==> (setup_refusal(content, *config) matches Some(why) ==> (r.1 matches Err(JourneyError::Rejected(x)) && is_rejection(x, why))),
        runs == 0 ==> (r.1 matches Ok(report) && report.summary.runs == 0 && report.total_score == 0),
{
    let ghost given = content;
    let mut held = content;
    let mut report = Report::new();
    let ghost mut done: Seq<RunSummary> = Seq::empty();
    let mut index: u32 = 0;
    while index < runs
        invariant
            held == given,
            given == content,
            content_ready(held),
            index <= runs,
            done.len() == index,
            seeded_batch(seed, done),
            forall|i: int| 0 <= i < index ==> journey_result(content, seed.wrapping_add(i as u64), *config, Ok(#[trigger] done[i])),
            index > 0 ==> setup_refusal(content, *config) is None,
            report.summary == batch_totals(done),
            report.total_score == score_total(done),
        decreases runs - index,
    {
        let mut observation = Observation::new();
        let (back, result) = play(held, seed.wrapping_add(index as u64), config, &mut observation);
        held = back;
        let run = match result {
            Ok(run) => run,
            Err(e) => {
                proof {
                    let i = index as int;
                    assert(journey_result(content, seed.wrapping_add(i as u64), *config, Err(e)));
                    assert(done.len() == i && forall|j: int| 0 <= j < i ==> journey_result(content, seed.wrapping_add(j as u64), *config, Ok(done[j])));
                }
                return (held, Err(e));
            },
        };
        proof {
            assert forall|i: int| 0 <= i < done.len() implies (#[trigger] done[i]).survivors <= 5 by {
                assert(finished_journey(seed.wrapping_add(i as u64), done[i]));
            }
            lemma_totals_bounded(done);
            let n = done.len();
            assert(n * 0xffff_ffff + 0xffff_ffff <= 0xffff_ffff * 0xffff_ffff) by (nonlinear_arith)
                requires n + 1 <= 0xffff_ffff;
        }
        report.record(&run, observation);
        proof {
            lemma_batch_grows(content, seed, *config, done, run);
            assert(done.push(run).drop_last() =~= done);
            done = done.push(run);
        }
        index = index + 1;
    }
    (held, Ok(report))
}

// ---------------------------------------------------------------------------------------
// Which scenarios a report covers.

/// The settings of a balance report.
#[derive(Debug, Clone)]
pub struct BalanceArgs {
    /// Journeys per occupation and month.
    pub runs: u32,
    /// The seed of the first journey.
    pub seed: u64,
    /// One occupation; none means every occupation open in the era.
    pub occupation: Option<String>,
    /// One departure month, March (3) through July (7); none means all five.
    pub month: Option<u8>,
    pub trail: String,
    pub era: String,
}

impl Default for BalanceArgs {
    fn default() -> (r: Self)
        ensures
            r.runs == 10_000,
            r.seed == 0,
            r.occupation is None,
            r.month is None,
            r.trail@ == "oregon"@,
            r.era@ == "1848"@,
    {
        BalanceArgs { runs: 10_000, seed: 0, occupation: None, month: None, trail: "oregon".to_owned(), era: "1848".to_owned() }
    }
}

/// Why a report's settings were refused.
#[derive(Debug, Clone, PartialEq, Eq)]
pub enum ArgsError {
    NoRuns,
    UnknownTrail(String),
    UnknownEra(String),
    MonthOutOfRange,
    UnknownOccupation(String),
    UnavailableOccupation { occupation: String, era: String },
}

/// The message a refusal reads as.
pub open spec fn args_error_text(e: ArgsError) -> Seq<char> {
    match e {
        ArgsError::NoRuns => "--runs must be greater than zero"@,
        ArgsError::UnknownTrail(t) => "unknown trail "@ + t@,
        ArgsError::UnknownEra(e) => "unknown era "@ + e@,
        ArgsError::MonthOutOfRange => "--month must be from 3 through 7"@,
        ArgsError::UnknownOccupation(o) => "unknown occupation "@ + o@,
        ArgsError::UnavailableOccupation { occupation, era } =>
            "occupation "@ + occupation@ + " is unavailable in era "@ + era@,
    }
}

impl ArgsError {
    /// The refusal as a sentence.
    pub fn message(&self) -> (r: String)
        ensures
            r@ == args_error_text(*self),
    {
        match self {
            ArgsError::NoRuns => "--runs must be greater than zero".to_owned(),
            ArgsError::UnknownTrail(t) => {
                let mut m = "unknown trail ".to_owned();
                vstd::string::StringExecFns::append(&mut m, t.as_str());
                m
            },
            ArgsError::UnknownEra(e) => {
                let mut m = "unknown era ".to_owned();
                vstd::string::StringExecFns::append(&mut m, e.as_str());
                m
            },
            ArgsError::MonthOutOfRange => "--month must be from 3 through 7".to_owned(),
            ArgsError::UnknownOccupation(o) => {
                let mut m = "unknown occupation ".to_owned();
                vstd::string::StringExecFns::append(&mut m, o.as_str());
                m
            },
            ArgsError::UnavailableOccupation { occupation, era } => {
                let mut m = "occupation ".to_owned();
                vstd::string::StringExecFns::append(&mut m, occupation.as_str());
                vstd::string::StringExecFns::append(&mut m, " is unavailable in era ");
                vstd::string::StringExecFns::append(&mut m, era.as_str());
                m
            },
        }
    }
}

/// The content defines an occupation `id`.
pub open spec fn has_occupation(occs: Seq<OccupationDefinition>, id: Seq<char>) -> bool {
    exists|i: int| 0 <= i < occs.len() && #[trigger] occs[i].id@ == id
}

/// The content defines a trail `id`.
pub open spec fn has_trail(trails: Seq<TrailDefinition>, id: Seq<char>) -> bool {
    exists|i: int| 0 <= i < trails.len() && #[trigger] trails[i].id@ == id
}

/// The content defines an era `id`.
pub open spec fn has_era(eras: Seq<EraDefinition>, id: Seq<char>) -> bool {
    exists|i: int| 0 <= i < eras.len() && #[trigger] eras[i].id@ == id
}

/// Soldiers sign on only in the 1866 era.
pub open spec fn open_to(occupation: Seq<char>, era: Seq<char>) -> bool {
    occupation != "soldier"@ || era == "1866"@
}

/// The ids of the occupations open in `era`, in content order.
pub open spec fn open_occupations(occs: Seq<OccupationDefinition>, era: Seq<char>) -> Seq<Seq<char>>
    decreases occs.len(),
{
    if occs.len() == 0 {
        Seq::empty()
    } else {
        let r = open_occupations(occs.drop_last(), era);
        if open_to(occs.last().id@, era) { r.push(occs.last().id@) } else { r }
    }
}

/// The texts of `v`.
pub open spec fn texts(v: Seq<String>) -> Seq<Seq<char>> {
    v.map_values(|t: String| t@)
}

/// The requested occupation, as text.
pub open spec fn requested_text(requested: Option<&str>) -> Option<Seq<char>> {
    match requested {
        Some(id) => Some(id@),
        None => None,
    }
}

/// `r` answers a request for `requested` (or, with none, for every open occupation) in `era`.
pub open spec fn occupation_answer(occs: Seq<OccupationDefinition>, era: Seq<char>, requested: Option<Seq<char>>,
    r: Result<Vec<String>, ArgsError>) -> bool {
    match requested {
        Some(id) => if !has_occupation(occs, id) {
            r matches Err(ArgsError::UnknownOccupation(o)) && o@ == id
        } else if !open_to(id, era) {
            r matches Err(ArgsError::UnavailableOccupation { occupation, era: e }) && occupation@ == id && e@ == era
        } else {
            r matches Ok(v) && texts(v@) == seq![id]
        },
        None => r matches Ok(v) && texts(v@) == open_occupations(occs, era),
    }
}

/// The occupations a report covers: the one requested, or every one open in `era`.
pub fn available_occupations(content: &GameContent, era: &str, requested: Option<&str>) -> (r: Result<Vec<String>, ArgsError>)
    ensures
        occupation_answer(content.occupations@, era@, requested_text(requested), r),
{
    let occs = &content.occupations;
    if let Some(id) = requested {
        let mut i: usize = 0;
        let mut found = false;
        while i < occs.len()
            invariant
                i <= occs@.len(),
                found <==> exists|j: int| 0 <= j < i && #[trigger] occs@[j].id@ == id@,
            decreases occs@.len() - i,
        {
            if same(occs[i].id.as_str(), id) {
                found = true;
            }
            i = i + 1;
        }
        if !found {
            return Err(ArgsError::UnknownOccupation(id.to_owned()));
        }
        if !occupation_available(id, era) {
            return Err(ArgsError::UnavailableOccupation { occupation: id.to_owned(), era: era.to_owned() });
        }
        let mut v: Vec<String> = Vec::new();
        v.push(id.to_owned());
        assert(texts(v@) =~= seq![id@]);
        return Ok(v);
    }
    let mut v: Vec<String> = Vec::new();
    let mut i: usize = 0;
    while i < occs.len()
        invariant
            i <= occs@.len(),
            texts(v@) == open_occupations(occs@.take(i as int), era@),
        decreases occs@.len() - i,
    {
        proof {
            assert(occs@.take(i + 1).drop_last() =~= occs@.take(i as int));
            assert(occs@.take(i + 1).last() == occs@[i as int]);
        }
        if occupation_available(occs[i].id.as_str(), era) {
            let ghost before = v@;
            v.push(occs[i].id.clone());
            assert(texts(v@) =~= texts(before).push(occs@[i as int].id@));
        }
        i = i + 1;
    }
    assert(occs@.take(occs@.len() as int) =~= occs@);
    Ok(v)
}

/// The months a report covers.
pub open spec fn months_for(month: Option<u8>) -> Seq<u8> {
    match month {
        Some(m) => seq![m],
        None => seq![3u8, 4u8, 5u8, 6u8, 7u8],
    }
}

/// The requested occupation of `args`, as text.
pub open spec fn args_occupation(args: BalanceArgs) -> Option<Seq<char>> {
    match args.occupation {
        Some(o) => Some(o@),
        None => None,
    }
}

/// The settings before the occupation pass: runs, trail, era and month.
pub open spec fn args_basics_ok(content: GameContent, args: BalanceArgs) -> bool {
    &&& args.runs > 0
    &&& has_trail(content.trails@, args.trail@)
    &&& has_era(content.eras@, args.era@)
    &&& args.month matches Some(m) ==> 3 <= m <= 7
}

/// `r` answers `args`: refusals in the order runs, trail, era, month, occupation; then
/// the occupations and months to report.
pub open spec fn args_answer(content: GameContent, args: BalanceArgs, r: Result<(Vec<String>, Vec<u8>), ArgsError>) -> bool {
    if args.runs == 0 {
        r matches Err(ArgsError::NoRuns)
    } else if !has_trail(content.trails@, args.trail@) {
        r matches Err(ArgsError::UnknownTrail(t)) && t@ == args.trail@
    } else if !has_era(content.eras@, args.era@) {
        r matches Err(ArgsError::UnknownEra(e)) && e@ == args.era@
    } else if args.month matches Some(m) && !(3 <= m <= 7) {
        r matches Err(ArgsError::MonthOutOfRange)
    } else {
        occupation_answer(content.occupations@, args.era@, args_occupation(args), match r {
            Ok((o, _)) => Ok(o),
            Err(e) => Err(e),
        }) && (r matches Ok((_, m)) ==> m@ == months_for(args.month))
    }
}

/// Checks a report's settings against the content, and lists the occupations and
/// months it covers.
pub fn validate_args(content: &GameContent, args: &BalanceArgs) -> (r: Result<(Vec<String>, Vec<u8>), ArgsError>)
    ensures
        args_answer(*content, *args, r),
{
    if args.runs == 0 {
        return Err(ArgsError::NoRuns);
    }
    let mut i: usize = 0;
    let mut found = false;
    while i < content.trails.len()
        invariant
            i <= content.trails@.len(),
            found <==> exists|j: int| 0 <= j < i && #[trigger] content.trails@[j].id@ == args.trail@,
        decreases content.trails@.len() - i,
    {
        if same(content.trails[i].id.as_str(), args.trail.as_str()) {
            found = true;
        }
        i = i + 1;
    }
    if !found {
        return Err(ArgsError::UnknownTrail(args.trail.clone()));
    }
    let mut i: usize = 0;
    let mut found = false;
    while i < content.eras.len()
        invariant
            i <= content.eras@.len(),
            found <==> exists|j: int| 0 <= j < i && #[trigger] content.eras@[j].id@ == args.era@,
        decreases content.eras@.len() - i,
    {
        if same(content.eras[i].id.as_str(), args.era.as_str()) {
            found = true;
        }
        i = i + 1;
    }
    if !found {
        return Err(ArgsError::UnknownEra(args.era.clone()));
    }
    let mut months: Vec<u8> = Vec::new();
    match args.month {
        Some(m) => {
            if !(3 <= m && m <= 7) {
                return Err(ArgsError::MonthOutOfRange);
            }
            months.push(m);
        },
        None => {
            months.push(3);
            months.push(4);
            months.push(5);
            months.push(6);
            months.push(7);
        },
    }
    assert(months@ =~= months_for(args.month));
    let requested: Option<&str> = match &args.occupation {
        Some(o) => Some(o.as_str()),
        None => None,
    };
    assert(requested_text(requested) == args_occupation(*args));
    match available_occupations(content, args.era.as_str(), requested) {
        Ok(occupations) => Ok((occupations, months)),
        Err(e) => Err(e),
    }
}

// ---------------------------------------------------------------------------------------
// A whole report.

/// One scenario of a report: an occupation, a departure month, and the totals of its
/// journeys.
#[derive(Debug)]
pub struct Scenario {
    pub occupation: String,
    pub month: u8,
    pub report: Report,
}

/// A whole report: its scenarios in order, with the death causes and arrival months
/// counted over all of them.
#[derive(Debug)]
pub struct Balance {
    pub scenarios: Vec<Scenario>,
    pub death_causes: CauseCounts,
    pub arrival_months: MonthCounts,
}

/// Why a report could not be made.
#[derive(Debug, Clone, PartialEq, Eq)]
pub enum BalanceError {
    /// The settings were refused.
    Args(ArgsError),
    /// A reference journey stopped without finishing.
    Journey(JourneyError),
}

/// The settings pass every check.
pub open spec fn args_valid(content: GameContent, args: BalanceArgs) -> bool {
    &&& args_basics_ok(content, args)
    &&& args_occupation(args) matches Some(id) ==> has_occupation(content.occupations@, id) && open_to(id, args.era@)
}

/// The occupations a report with valid settings covers.
pub open spec fn occupations_for(content: GameContent, args: BalanceArgs) -> Seq<Seq<char>> {
    match args_occupation(args) {
        Some(id) => seq![id],
        None => open_occupations(content.occupations@, args.era@),
    }
}

/// Every occupation with every month, occupations outermost.
pub open spec fn scenario_keys(occs: Seq<Seq<char>>, months: Seq<u8>) -> Seq<(Seq<char>, u8)>
    decreases occs.len(),
{
    if occs.len() == 0 {
        Seq::empty()
    } else {
        scenario_keys(occs.drop_last(), months) + months.map_values(|m: u8| (occs.last(), m))
    }
}

/// The occupation and month of each scenario.
pub open spec fn keys_of(sc: Seq<Scenario>) -> Seq<(Seq<char>, u8)> {
    sc.map_values(|x: Scenario| (x.occupation@, x.month))
}

/// The death causes of all scenarios, merged in order.
pub open spec fn causes_over(sc: Seq<Scenario>) -> Seq<(Seq<char>, u32)>
    decreases sc.len(),
{
    if sc.len() == 0 {
        Seq::empty()
    } else {
        text_merged(causes_over(sc.drop_last()), sc.last().report.death_causes.rows())
    }
}

/// The arrival months of all scenarios, merged in order.
pub open spec fn months_over(sc: Seq<Scenario>) -> Seq<(u8, u32)>
    decreases sc.len(),
{
    if sc.len() == 0 {
        Seq::empty()
    } else {
        month_merged(months_over(sc.drop_last()), sc.last().report.arrival_months.rows())
    }
}

/// `r` adds up `runs` finished journeys seeded one after another from `seed`.
pub open spec fn report_covers(r: Report, seed: u64, runs: u32) -> bool {
    exists|s: Seq<RunSummary>| #![auto] s.len() == runs && seeded_batch(seed, s)
        && r.summary == batch_totals(s) && r.total_score == score_total(s)
}

/// `config` plays the settings' trail and era with `occupation` leaving in `month`.
pub open spec fn scenario_config(args: BalanceArgs, occupation: Seq<char>, month: u8, config: RunConfig) -> bool {
    config.trail@ == args.trail@ && config.era@ == args.era@ && config.occupation@ == occupation && config.month == month
}

/// The report of scenario `x` totals journeys that the reference player may end in for
/// that scenario, one per seed from the settings' seed on.
pub open spec fn scenario_played(content: GameContent, args: BalanceArgs, x: Scenario) -> bool {
    exists|config: RunConfig, s: Seq<RunSummary>| #![auto] scenario_config(args, x.occupation@, x.month, config)
        && s.len() == args.runs
        && (forall|i: int| 0 <= i < args.runs ==> journey_result(content, args.seed.wrapping_add(i as u64), config, Ok(s[i])))
        && x.report.summary == batch_totals(s) && x.report.total_score == score_total(s)
}

proof fn lemma_scenario_played(content: GameContent, args: BalanceArgs, config: RunConfig, x: Scenario)
    requires
        scenario_config(args, x.occupation@, x.month, config),
        exists|s: Seq<RunSummary>| #![auto] s.len() == args.runs && seeded_batch(args.seed, s)
            && (forall|i: int| 0 <= i < args.runs ==> journey_result(content, args.seed.wrapping_add(i as u64), config, Ok(s[i])))
            && x.report.summary == batch_totals(s) && x.report.total_score == score_total(s),
    ensures
        scenario_played(content, args, x),
        report_covers(x.report, args.seed, args.runs),
{
    let s = choose|s: Seq<RunSummary>| #![auto] s.len() == args.runs && seeded_batch(args.seed, s)
        && (forall|i: int| 0 <= i < args.runs ==> journey_result(content, args.seed.wrapping_add(i as u64), config, Ok(s[i])))
        && x.report.summary == batch_totals(s) && x.report.total_score == score_total(s);
    assert(scenario_config(args, x.occupation@, x.month, config) && s.len() == args.runs
        && (forall|i: int| 0 <= i < args.runs ==> journey_result(content, args.seed.wrapping_add(i as u64), config, Ok(s[i])))
        && x.report.summary == batch_totals(s) && x.report.total_score == score_total(s));
}

proof fn lemma_scenarios_grow(content: GameContent, args: BalanceArgs, before: Seq<Scenario>, x: Scenario)
    requires
        forall|i: int| 0 <= i < before.len() ==> report_covers(#[trigger] before[i].report, args.seed, args.runs),
        forall|i: int| 0 <= i < before.len() ==> scenario_played(content, args, #[trigger] before[i]),
        report_covers(x.report, args.seed, args.runs),
        scenario_played(content, args, x),
    ensures
        forall|i: int| 0 <= i < before.push(x).len() ==> report_covers(#[trigger] before.push(x)[i].report, args.seed, args.runs),
        forall|i: int| 0 <= i < before.push(x).len() ==> scenario_played(content, args, #[trigger] before.push(x)[i]),
{
    assert forall|i: int| 0 <= i < before.push(x).len() implies report_covers(#[trigger] before.push(x)[i].report, args.seed, args.runs)
        && scenario_played(content, args, before.push(x)[i]) by {
        if i < before.len() {
            assert(before.push(x)[i] == before[i]);
        }
    }
}

/// Some journey of some scenario of the settings may end in `e`.
pub open spec fn scenario_failed(content: GameContent, args: BalanceArgs, e: JourneyError) -> bool {
    exists|config: RunConfig, i: int| 0 <= i < args.runs
        && occupations_for(content, args).contains(config.occupation@)
        && months_for(args.month).contains(config.month)
        && scenario_config(args, config.occupation@, config.month, config)
        && #[trigger] journey_result(content, args.seed.wrapping_add(i as u64), config, Err(e))
}

/// Runs every scenario the settings ask for, each a batch of reference journeys on the
/// settings' trail and era, and counts deaths and arrivals over all of them.
#[verifier::rlimit(60)]
pub fn run_scenarios(content: GameContent, args: &BalanceArgs) -> (r: Result<Balance, BalanceError>)
    requires
        content_ready(content),
    ensures
        !args_valid(content, *args) ==> (r matches Err(BalanceError::Args(e)) && args_answer(content, *args, Err(e))),
        args_valid(content, *args) ==> !(r is Err && r->Err_0 is Args),
        r matches Err(BalanceError::Journey(e)) ==> scenario_failed(content, *args, e),
        r matches Ok(b) ==> {
            &&& keys_of(b.scenarios@) == scenario_keys(occupations_for(content, *args), months_for(args.month))
            &&& forall|i: int| 0 <= i < b.scenarios@.len() ==> report_covers(#[trigger] b.scenarios@[i].report, args.seed, args.runs)
            &&& forall|i: int| 0 <= i < b.scenarios@.len() ==> scenario_played(content, *args, #[trigger] b.scenarios@[i])
            &&& b.death_causes.rows() == causes_over(b.scenarios@)
            &&& b.arrival_months.rows() == months_over(b.scenarios@)
        },
{
    let (occupations, months) = match validate_args(&content, args) {
        Ok(x) => x,
        Err(e) => return Err(BalanceError::Args(e)),
    };
    let ghost occs = texts(occupations@);
    assert(occs == occupations_for(content, *args));
    let mut held = content;
    let mut scenarios: Vec<Scenario> = Vec::new();
    let mut causes = CauseCounts::new();
    let mut arrivals = MonthCounts::new();
    let mut oi: usize = 0;
    while oi < occupations.len()
        invariant
            content_ready(held),
            args_valid(content, *args),
            occs == texts(occupations@),
            occs == occupations_for(content, *args),
            months@ == months_for(args.month),
            oi <= occupations@.len(),
            keys_of(scenarios@) == scenario_keys(occs.take(oi as int), months@),
            forall|i: int| 0 <= i < scenarios@.len() ==> report_covers(#[trigger] scenarios@[i].report, args.seed, args.runs),
            forall|i: int| 0 <= i < scenarios@.len() ==> scenario_played(content, *args, #[trigger] scenarios@[i]),
            held == content,
            causes.rows() == causes_over(scenarios@),
            arrivals.rows() == months_over(scenarios@),
        decreases occupations@.len() - oi,
    {
        let ghost outer = keys_of(scenarios@);
        let mut mi: usize = 0;
        while mi < months.len()
            invariant
                content_ready(held),
                args_valid(content, *args),
                occs == texts(occupations@),
                occs == occupations_for(content, *args),
                months@ == months_for(args.month),
                oi < occupations@.len(),
                mi <= months@.len(),
                outer == scenario_keys(occs.take(oi as int), months@),
                keys_of(scenarios@) == outer + months@.take(mi as int).map_values(|m: u8| (occs[oi as int], m)),
                forall|i: int| 0 <= i < scenarios@.len() ==> report_covers(#[trigger] scenarios@[i].report, args.seed, args.runs),
                forall|i: int| 0 <= i < scenarios@.len() ==> scenario_played(content, *args, #[trigger] scenarios@[i]),
                held == content,
                causes.rows() == causes_over(scenarios@),
                arrivals.rows() == months_over(scenarios@),
            decreases months@.len() - mi,
        {
            let config = RunConfig {
                trail: args.trail.clone(),
                era: args.era.clone(),
                occupation: occupations[oi].clone(),
                month: months[mi],
            };
            let (back, result) = run_batch(held, args.seed, args.runs, &config);
            held = back;
            proof {
                assert(scenario_config(*args, occs[oi as int], months@[mi as int], config));
            }
            let report = match result {
                Ok(report) => report,
                Err(e) => {
                    proof {
                        assert(occupations_for(content, *args).contains(occs[oi as int]));
                        assert(months_for(args.month).contains(months@[mi as int]));
                    }
                    return Err(BalanceError::Journey(e));
                },
            };
            causes.merge(&report.death_causes);
            arrivals.merge(&report.arrival_months);
            let ghost before = scenarios@;
            let name = occupations[oi].clone();
            let x = Scenario { occupation: name, month: months[mi], report };
            let ghost gx = x;
            scenarios.push(x);
            proof {
                assert(scenarios@.drop_last() =~= before);
                assert(occs[oi as int] == occupations@[oi as int]@);
                assert(keys_of(scenarios@) =~= keys_of(before).push((occs[oi as int], months@[mi as int])));
                assert(months@.take(mi + 1) =~= months@.take(mi as int).push(months@[mi as int]));
                assert(keys_of(scenarios@) =~= outer + months@.take(mi + 1).map_values(|m: u8| (occs[oi as int], m)));
                lemma_scenario_played(content, *args, config, gx);
                lemma_scenarios_grow(content, *args, before, gx);
                assert(scenarios@ =~= before.push(gx));
            }
            mi = mi + 1;
        }
        proof {
            assert(months@.take(months@.len() as int) =~= months@);
            assert(occs.take(oi + 1).drop_last() =~= occs.take(oi as int));
            assert(occs.take(oi + 1).last() == occs[oi as int]);
        }
        oi = oi + 1;
    }
    proof {
        assert(occs.take(occs.len() as int) =~= occs);
    }
    Ok(Balance { scenarios, death_causes: causes, arrival_months: arrivals })
}

// ---------------------------------------------------------------------------------------
// The count tables of a report.

/// One `cause,count` line per row.
pub open spec fn cause_lines(rows: Seq<(Seq<char>, u32)>) -> Seq<char>
    decreases rows.len(),
{
    if rows.len() == 0 {
        Seq::empty()
    } else {
        cause_lines(rows.drop_last()) + rows.last().0 + ","@ + decimal(rows.last().1 as nat) + "\n"@
    }
}

/// One `month,count` line per row.
pub open spec fn month_lines(rows: Seq<(u8, u32)>) -> Seq<char>
    decreases rows.len(),
{
    if rows.len() == 0 {
        Seq::empty()
    } else {
        month_lines(rows.drop_last()) + decimal(rows.last().0 as nat) + ","@ + decimal(rows.last().1 as nat) + "\n"@
    }
}

/// The closing tables of a report: deaths by cause, then arrivals by month, each after a
/// blank line and a header.
pub open spec fn count_tables_text(causes: Seq<(Seq<char>, u32)>, months: Seq<(u8, u32)>) -> Seq<char> {
    "\ncause_of_death,count\n"@ + cause_lines(causes) + "\narrival_month,count\n"@ + month_lines(months)
}

/// The closing tables of a report, in CSV.
pub fn count_tables(causes: &CauseCounts, months: &MonthCounts) -> (r: String)
    ensures
        r@ == count_tables_text(causes.rows(), months.rows()),
{
    let mut out = "\ncause_of_death,count\n".to_owned();
    let ghost head = out@;
    let n = causes.len();
    let mut i: usize = 0;
    while i < n
        invariant
            n == causes.rows().len(),
            i <= n,
            out@ == head + cause_lines(causes.rows().take(i as int)),
        decreases n - i,
    {
        let (cause, count) = causes.row(i);
        proof {
            assert(causes.rows().take(i + 1).drop_last() =~= causes.rows().take(i as int));
            assert(causes.rows().take(i + 1).last() == causes.rows()[i as int]);
        }
        vstd::string::StringExecFns::append(&mut out, cause);
        vstd::string::StringExecFns::append(&mut out, ",");
        push_decimal(&mut out, count as u64);
        vstd::string::StringExecFns::append(&mut out, "\n");
        assert(out@ =~= head + cause_lines(causes.rows().take(i + 1)));
        i = i + 1;
    }
    assert(causes.rows().take(n as int) =~= causes.rows());
    vstd::string::StringExecFns::append(&mut out, "\narrival_month,count\n");
    let ghost middle = out@;
    let n = months.len();
    let mut i: usize = 0;
    while i < n
        invariant
            n == months.rows().len(),
            i <= n,
            out@ == middle + month_lines(months.rows().take(i as int)),
        decreases n - i,
    {
        let (month, count) = months.row(i);
        proof {
            assert(months.rows().take(i + 1).drop_last() =~= months.rows().take(i as int));
            assert(months.rows().take(i + 1).last() == months.rows()[i as int]);
        }
        push_decimal(&mut out, month as u64);
        vstd::string::StringExecFns::append(&mut out, ",");
        push_decimal(&mut out, count as u64);
        vstd::string::StringExecFns::append(&mut out, "\n");
        assert(out@ =~= middle + month_lines(months.rows().take(i + 1)));
        i = i + 1;
    }
    assert(months.rows().take(n as int) =~= months.rows());
    assert(out@ =~= count_tables_text(causes.rows(), months.rows()));
    out
}

} // verus!
