//! The river-rafting course: rocks drift down a thirty-second course and the raft steers
//! between them. Every rock that reaches the raft's row beside it costs cargo once, and
//! heavy losses cost lives.

use vstd::prelude::*;
use crate::rng::{SimRng, stream_key, advanced, chacha_between_draw};
use crate::input::Key;
use crate::text::{decimal, push_decimal};
use crate::ui::{lane, lane_text};

verus! {

/// How a rafting run ended.
#[derive(Clone, Copy, Debug, PartialEq, Eq)]
pub struct RaftingResult {
    pub cargo_lost_lbs: u16,
    pub casualties: u8,
    pub completed: bool,
    pub aborted: bool,
}

/// A rock in the river; `charged` once it has struck the raft.
#[derive(Clone, Copy, Debug, PartialEq, Eq)]
pub struct Rock {
    pub x: i16,
    pub y: i16,
    pub charged: bool,
}

/// A deterministic 30 ticks-per-second downstream course, steered with arrows or h/l.
pub struct RaftingGame {
    pub rng: SimRng,
    pub rocks: Vec<Rock>,
    pub raft_x: i16,
    pub ticks: u16,
    pub cargo: u16,
    pub casualties: u8,
    pub finished: bool,
    pub aborted: bool,
}

/// The stream the course draws its rocks from.
pub open spec fn rock_stream() -> Seq<char> {
    "rafting-rocks"@
}

/// A rock at column `x` on row `y` strikes a raft centred on `raft_x`.
pub open spec fn strikes_raft(x: i16, y: int, raft_x: i16) -> bool {
    y + 2 > 19 && y < 22 && x < raft_x + 6 && x + 6 > raft_x - 6
}

/// The rock drifts one row and stays in the river.
pub open spec fn drifts(r: Rock) -> bool {
    r.y + 1 <= 22
}

/// The rock drifts into the raft without having struck it before.
pub open spec fn strikes_now(r: Rock, raft_x: i16) -> bool {
    drifts(r) && !r.charged && strikes_raft(r.x, r.y + 1, raft_x)
}

/// How many of the rocks strike the raft on a drift step.
pub open spec fn strike_count(rocks: Seq<Rock>, raft_x: i16) -> nat
    decreases rocks.len(),
{
    if rocks.len() == 0 {
        0
    } else {
        strike_count(rocks.drop_last(), raft_x) + if strikes_now(rocks.last(), raft_x) { 1nat } else { 0nat }
    }
}

/// Cargo lost and deaths after `n` more strikes: each costs 15 lb (120 lb at most),
/// and every 45 lb lost costs a life (4 at most).
pub open spec fn losses(cargo: u16, casualties: u8, n: nat) -> (u16, u8)
    decreases n,
{
    if n == 0 {
        (cargo, casualties)
    } else {
        let (c, d) = losses(cargo, casualties, (n - 1) as nat);
        let c2: u16 = if c + 15 <= 120 { (c + 15) as u16 } else { 120 };
        (c2, if c2 % 45 == 0 { if d + 1 <= 4 { (d + 1) as u8 } else { 4 } } else { d })
    }
}

/// Where a rock is after a drift step: one row down, marked if it struck the raft; or,
/// past the bottom, back upstream at a fresh column, unmarked.
pub open spec fn drifted(before: Rock, after: Rock, raft_x: i16) -> bool {
    if drifts(before) {
        after == (Rock { x: before.x, y: (before.y + 1) as i16, charged: before.charged || strikes_raft(before.x, before.y + 1, raft_x) })
    } else {
        -69 <= after.y <= -20 && 4 <= after.x < 76 && !after.charged
    }
}

/// A stream position: key, stream number and word.
pub type RockPos = (Seq<u8>, u64, u128);

/// A rock sent back upstream from stream position `p`: its depth above the course, then
/// its column, and the position after both draws.
pub open spec fn respawned(p: RockPos) -> (Rock, RockPos) {
    let yd = chacha_between_draw(p.0, p.1, p.2, 20i16, 70i16);
    let p1 = advanced(p, yd.1);
    let xd = chacha_between_draw(p1.0, p1.1, p1.2, 4i16, 76i16);
    (Rock { x: xd.0, y: (-yd.0) as i16, charged: false }, advanced(p1, xd.1))
}

/// The first `k` rocks after a drift step from stream position `p`, and the position
/// after the draws of those that went back upstream.
pub open spec fn drift_prefix(rocks: Seq<Rock>, raft_x: i16, p: RockPos, k: nat) -> (Seq<Rock>, RockPos)
    decreases k,
{
    if k == 0 {
        (Seq::empty(), p)
    } else {
        let (rs, q) = drift_prefix(rocks, raft_x, p, (k - 1) as nat);
        let r = rocks[k - 1];
        if drifts(r) {
            (rs.push(Rock { x: r.x, y: (r.y + 1) as i16, charged: r.charged || strikes_raft(r.x, r.y + 1, raft_x) }), q)
        } else {
            let (n, q2) = respawned(q);
            (rs.push(n), q2)
        }
    }
}

/// The first `k` rocks of a fresh course drawn from stream position `p` (column, then
/// row), and the position after them.
pub open spec fn initial_rocks(p: RockPos, k: nat) -> (Seq<Rock>, RockPos)
    decreases k,
{
    if k == 0 {
        (Seq::empty(), p)
    } else {
        let (rs, q) = initial_rocks(p, (k - 1) as nat);
        let xd = chacha_between_draw(q.0, q.1, q.2, 4i16, 76i16);
        let q1 = advanced(q, xd.1);
        let yd = chacha_between_draw(q1.0, q1.1, q1.2, -70i16, 0i16);
        (rs.push(Rock { x: xd.0, y: yd.0, charged: false }), advanced(q1, yd.1))
    }
}

/// Where the rock stream of master seed `seed` starts.
pub open spec fn rock_start(seed: u64) -> RockPos {
    (stream_key(seed, vstd::utf8::encode_utf8(rock_stream())), 0u64, 0u128)
}

/// A rock within what the course's arithmetic can hold.
pub open spec fn rock_ok(r: Rock) -> bool {
    r.x <= 32761 && r.y <= 32764
}

/// One tick from `a` to `b`: the clock runs on and the course ends at 900 ticks; every
/// third tick the rocks drift and those that strike cost cargo, otherwise the rocks and
/// losses stay.
pub open spec fn tick_done(a: RaftingGame, b: RaftingGame) -> bool {
    let t = (a.ticks + 1) as u16;
    &&& b.wf()
    &&& b.streams().master() == a.streams().master()
    &&& b.raft_x == a.raft_x
    &&& b.aborted == a.aborted
    &&& b.rocks@.len() == a.rocks@.len()
    &&& b.ticks == t
    &&& b.finished == (t >= 900)
    &&& forall|n: Seq<char>| n != rock_stream() ==> #[trigger] b.rng.position(n) == a.rng.position(n)
    &&& t % 3 != 0 ==> b.rocks@ == a.rocks@ && b.cargo == a.cargo && b.casualties == a.casualties
        && b.rng.position(rock_stream()) == a.rng.position(rock_stream())
    &&& t % 3 == 0 ==> {
        &&& (b.rocks@, b.rng.position(rock_stream())) == drift_prefix(a.rocks@, a.raft_x, a.rng.position(rock_stream()), a.rocks@.len())
        &&& forall|k: int| 0 <= k < a.rocks@.len() ==> drifted(a.rocks@[k], #[trigger] b.rocks@[k], a.raft_x)
        &&& (b.cargo, b.casualties) == losses(a.cargo, a.casualties, strike_count(a.rocks@, a.raft_x))
    }
}

/// Each state of `run` is one tick after the one before.
pub open spec fn tick_run(run: Seq<RaftingGame>) -> bool {
    forall|i: int| 0 <= i < run.len() - 1 ==> #[trigger] tick_done(run[i], run[i + 1])
}

/// A one-second turn from `a` to `b` on a course still running: one tick after another,
/// thirty of them or until the course ends.
pub open spec fn turn_done(a: RaftingGame, b: RaftingGame) -> bool {
    exists|run: Seq<RaftingGame>| #[trigger] tick_run(run) && run.len() == turn_ticks(a.ticks) + 1
        && run[0] == a && run.last() == b
}

impl RaftingGame {
    /// The course's arithmetic cannot overflow and its random streams are sound.
    pub open spec fn wf(&self) -> bool {
        &&& self.rng.wf()
        &&& -32762 <= self.raft_x <= 32761
        &&& forall|k: int| 0 <= k < self.rocks@.len() ==> #[trigger] rock_ok(self.rocks@[k])
        &&& self.finished || self.ticks < u16::MAX
        &&& self.cargo <= 65520
        &&& self.casualties <= 254
    }

    /// The random streams of the course.
    pub open spec fn streams(&self) -> SimRng {
        self.rng
    }

    /// A fresh course for `seed`: eight rocks upstream, the raft in the middle lane.
    pub fn new(seed: u64) -> (r: Self)
        ensures
            r.wf(),
            r.streams().master() == seed,
            r.rocks@.len() == 8,
            forall|k: int| 0 <= k < 8 ==> 4 <= (#[trigger] r.rocks@[k]).x < 76 && -70 <= r.rocks@[k].y < 0 && !r.rocks@[k].charged,
            (r.rocks@, r.rng.position(rock_stream())) == initial_rocks(rock_start(seed), 8),
            fresh_course(r, seed),
            r.raft_x == 40,
            r.ticks == 0,
            r.cargo == 0,
            r.casualties == 0,
            !r.finished,
            !r.aborted,
    {
        let mut rng = SimRng::new(seed);
        let mut rocks: Vec<Rock> = Vec::new();
        let mut k: usize = 0;
        while k < 8
            invariant
                k <= 8,
                rng.wf(),
                rng.master() == seed,
                rocks@.len() == k,
                forall|j: int| 0 <= j < k ==> 4 <= (#[trigger] rocks@[j]).x < 76 && -70 <= rocks@[j].y < 0 && !rocks@[j].charged,
                (rocks@, rng.position(rock_stream())) == initial_rocks(rock_start(seed), k as nat),
            decreases 8 - k,
        {
            let x = rng.roll_between("rafting-rocks", 4, 76);
            let y = rng.roll_between("rafting-rocks", -70, 0);
            rocks.push(Rock { x, y, charged: false });
            k = k + 1;
            proof {
                assert(rocks@ =~= initial_rocks(rock_start(seed), k as nat).0);
            }
        }
        RaftingGame { rng, rocks, raft_x: 40, ticks: 0, cargo: 0, casualties: 0, finished: false, aborted: false }
    }

    /// One tick of the course. Every third tick the rocks drift a row: one that reaches the
    /// raft's row beside it for the first time costs cargo, and one past the bottom comes
    /// back upstream. The course ends after 900 ticks.
    pub fn tick(&mut self)
        requires
            old(self).wf(),
        ensures
            final(self).wf(),
            final(self).streams().master() == old(self).streams().master(),
            forall|m: Seq<char>| #[trigger] old(self).streams().has_stream(m) ==> final(self).streams().has_stream(m),
            forall|n: Seq<char>| n != rock_stream() && old(self).streams().has_stream(n) ==>
                #[trigger] final(self).streams().stream_state(n) == old(self).streams().stream_state(n),
            final(self).raft_x == old(self).raft_x,
            final(self).aborted == old(self).aborted,
            final(self).rocks@.len() == old(self).rocks@.len(),
            old(self).finished ==> *final(self) == *old(self),
            !old(self).finished ==> tick_done(*old(self), *final(self)),
    {
        if self.finished {
            return;
        }
        self.ticks = self.ticks + 1;
        if self.ticks % 3 == 0 {
            let ghost start = *self;
            let n = self.rocks.len();
            let mut k: usize = 0;
            while k < n
                invariant
                    n == start.rocks@.len(),
                    k <= n,
                    self.rocks@.len() == n,
                    self.rng.wf(),
                    self.rng.master() == start.rng.master(),
                    forall|m: Seq<char>| #[trigger] start.rng.has_stream(m) ==> self.rng.has_stream(m),
                    forall|m: Seq<char>| m != rock_stream() && start.rng.has_stream(m) ==>
                        #[trigger] self.rng.stream_state(m) == start.rng.stream_state(m),
                    self.raft_x == start.raft_x,
                    -32762 <= self.raft_x <= 32761,
                    self.ticks == start.ticks,
                    self.finished == start.finished,
                    self.aborted == start.aborted,
                    forall|j: int| 0 <= j < n ==> #[trigger] rock_ok(start.rocks@[j]),
                    forall|j: int| 0 <= j < k ==> drifted(start.rocks@[j], #[trigger] self.rocks@[j], start.raft_x),
                    forall|j: int| k <= j < n ==> #[trigger] self.rocks@[j] == start.rocks@[j],
                    start.cargo <= 65520,
                    start.casualties <= 254,
                    (self.cargo, self.casualties) == losses(start.cargo, start.casualties, strike_count(start.rocks@.take(k as int), start.raft_x)),
                    self.rng.position(rock_stream()) == drift_prefix(start.rocks@, start.raft_x, start.rng.position(rock_stream()), k as nat).1,
                    forall|j: int| 0 <= j < k ==> #[trigger] self.rocks@[j] == drift_prefix(start.rocks@, start.raft_x, start.rng.position(rock_stream()), k as nat).0[j],
                    drift_prefix(start.rocks@, start.raft_x, start.rng.position(rock_stream()), k as nat).0.len() == k,
                    forall|m: Seq<char>| m != rock_stream() ==> #[trigger] self.rng.position(m) == start.rng.position(m),
                decreases n - k,
            {
                let mut rock = self.rocks[k];
                proof {
                    assert(start.rocks@.take(k + 1).drop_last() =~= start.rocks@.take(k as int));
                    assert(rock_ok(start.rocks@[k as int]));
                    lemma_losses_bounded(start.cargo, start.casualties, strike_count(start.rocks@.take(k as int), start.raft_x));
                }
                rock.y = rock.y + 1;
                if rock.y > 22 {
                    let y = self.rng.roll_between("rafting-rocks", 20, 70);
                    rock.y = -y;
                    rock.x = self.rng.roll_between("rafting-rocks", 4, 76);
                    rock.charged = false;
                }
                if !rock.charged && rock.y + 2 > 19 && rock.y < 22 && rock.x < self.raft_x + 6 && rock.x + 6 > self.raft_x - 6 {
                    rock.charged = true;
                    self.cargo = if self.cargo + 15 <= 120 { self.cargo + 15 } else { 120 };
                    if self.cargo % 45 == 0 {
                        self.casualties = if self.casualties + 1 <= 4 { self.casualties + 1 } else { 4 };
                    }
                }
                let ghost prev = self.rocks@;
                self.rocks.set(k, rock);
                proof {
                    let d = drift_prefix(start.rocks@, start.raft_x, start.rng.position(rock_stream()), (k + 1) as nat);
                    assert forall|j: int| 0 <= j < k + 1 implies #[trigger] self.rocks@[j] == d.0[j] by {
                        if j < k {
                            assert(self.rocks@[j] == prev[j]);
                        }
                    }
                }
                k = k + 1;
            }
            proof {
                let d = drift_prefix(start.rocks@, start.raft_x, start.rng.position(rock_stream()), n as nat);
                assert(self.rocks@ =~= d.0);
            }
            assert(start.rocks@.take(n as int) =~= start.rocks@);
            assert forall|j: int| 0 <= j < n implies #[trigger] rock_ok(self.rocks@[j]) by {
                assert(drifted(start.rocks@[j], self.rocks@[j], start.raft_x));
                assert(rock_ok(start.rocks@[j]));
            }
            proof { lemma_losses_bounded(start.cargo, start.casualties, strike_count(start.rocks@, start.raft_x)); }
        }
        if self.ticks >= 900 {
            self.finished = true;
        }
    }

    /// Steers the raft two columns (within the banks at 6 and 74) or, with Escape, gives up.
    pub fn handle_key(&mut self, key: Key)
        requires
            old(self).wf(),
        ensures
            final(self).wf(),
            old(self).finished ==> *final(self) == *old(self),
            !old(self).finished ==> *final(self) == (match key {
                Key::Left | Key::Char('h') => RaftingGame { raft_x: if old(self).raft_x - 2 >= 6 { (old(self).raft_x - 2) as i16 } else { 6 }, ..*old(self) },
                Key::Right | Key::Char('l') => RaftingGame { raft_x: if old(self).raft_x + 2 <= 74 { (old(self).raft_x + 2) as i16 } else { 74 }, ..*old(self) },
                Key::Esc => RaftingGame { finished: true, aborted: true, ..*old(self) },
                _ => *old(self),
            }),
    {
        if self.finished {
            return;
        }
        match key {
            Key::Left | Key::Char('h') => {
                self.raft_x = if self.raft_x - 2 >= 6 { self.raft_x - 2 } else { 6 };
            },
            Key::Right | Key::Char('l') => {
                self.raft_x = if self.raft_x + 2 <= 74 { self.raft_x + 2 } else { 74 };
            },
            Key::Esc => {
                self.finished = true;
                self.aborted = true;
            },
            _ => {},
        }
    }

    /// Up to a second of ticks, stopping early when the course ends.
    fn advance_turn(&mut self)
        requires
            old(self).wf(),
        ensures
            final(self).wf(),
            final(self).streams().master() == old(self).streams().master(),
            forall|n: Seq<char>| n != rock_stream() && old(self).streams().has_stream(n) ==>
                #[trigger] final(self).streams().stream_state(n) == old(self).streams().stream_state(n),
            final(self).raft_x == old(self).raft_x,
            final(self).aborted == old(self).aborted,
            final(self).rocks@.len() == old(self).rocks@.len(),
            old(self).finished ==> *final(self) == *old(self),
            !old(self).finished ==> final(self).ticks == old(self).ticks + turn_ticks(old(self).ticks),
            !old(self).finished ==> final(self).finished == (final(self).ticks >= 900),
            !old(self).finished ==> turn_done(*old(self), *final(self)),
    {
        let ghost start = *self;
        let ghost mut run: Seq<RaftingGame> = seq![start];
        let mut i: usize = 0;
        while i < 30 && !self.finished
            invariant
                i <= 30,
                self.wf(),
                self.streams().master() == start.streams().master(),
                forall|m: Seq<char>| #[trigger] start.streams().has_stream(m) ==> self.streams().has_stream(m),
                forall|n: Seq<char>| n != rock_stream() && start.streams().has_stream(n) ==>
                    #[trigger] self.streams().stream_state(n) == start.streams().stream_state(n),
                self.raft_x == start.raft_x,
                self.aborted == start.aborted,
                self.rocks@.len() == start.rocks@.len(),
                start.finished ==> *self == start,
                !start.finished ==> self.ticks == start.ticks + i,
                !start.finished && i == 0 ==> !self.finished,
                !start.finished && i > 0 ==> self.finished == (start.ticks + i >= 900),
                !start.finished && i > 1 ==> start.ticks + i - 1 < 900,
                run.len() == i + 1,
                run[0] == start,
                run.last() == *self,
                !start.finished ==> tick_run(run),
            decreases 30 - i,
        {
            let ghost before = *self;
            self.tick();
            proof {
                let next = run.push(*self);
                if !start.finished {
                    assert forall|j: int| 0 <= j < next.len() - 1 implies #[trigger] tick_done(next[j], next[j + 1]) by {
                        if j < run.len() - 1 {
                            assert(next[j] == run[j] && next[j + 1] == run[j + 1]);
                        } else {
                            assert(next[j] == before && next[j + 1] == *self);
                        }
                    }
                }
                run = next;
            }
            i = i + 1;
        }
    }
}

/// The column a numbered lane choice steers to.
pub open spec fn lane_column(key: Key) -> Option<i16> {
    match key {
        Key::Char('1') => Some(14i16),
        Key::Char('2') => Some(40i16),
        Key::Char('3') => Some(66i16),
        _ => None,
    }
}

/// A rock worth describing: not yet struck, and between thirty rows upstream and the
/// raft's row.
pub open spec fn shown(r: Rock) -> bool {
    !r.charged && -30 <= r.y < 22
}

/// In the listing, rock `i` comes before rock `j`: further downstream first, and in
/// course order among rocks on one row.
pub open spec fn listed_before(rocks: Seq<Rock>, i: int, j: int) -> bool {
    rocks[i].y > rocks[j].y || (rocks[i].y == rocks[j].y && i < j)
}

/// `sel` lists, in order, the (at most five) shown rocks nearest the raft.
pub open spec fn listing(rocks: Seq<Rock>, sel: Seq<int>) -> bool {
    &&& sel.len() <= 5
    &&& forall|p: int| 0 <= p < sel.len() ==> 0 <= #[trigger] sel[p] < rocks.len() && shown(rocks[sel[p]])
    &&& forall|p: int, q: int| 0 <= p < q < sel.len() ==> listed_before(rocks, #[trigger] sel[p], #[trigger] sel[q])
    &&& forall|k: int| 0 <= k < rocks.len() && #[trigger] shown(rocks[k]) && !sel.contains(k) ==>
            sel.len() == 5 && forall|p: int| 0 <= p < sel.len() ==> listed_before(rocks, #[trigger] sel[p], k)
}

/// A signed number as it is printed.
pub open spec fn signed(v: int) -> Seq<char> {
    if v < 0 { "-"@ + decimal((-v) as nat) } else { decimal(v as nat) }
}

/// About how many seconds a rock on row `y` needs to reach the raft's row.
pub open spec fn seconds_to_raft(y: int) -> int {
    ((if 19 - y > 0 { 19 - y } else { 0 }) + 9) / 10
}

/// The line that describes a rock.
pub open spec fn rock_line(r: Rock) -> Seq<char> {
    "Rock "@ + lane_text(r.x) + " lane, row "@ + signed(r.y as int) + ", about "@
        + decimal(seconds_to_raft(r.y as int) as nat) + "s to raft row."@
}

/// The status line: seconds left, the raft's lane, cargo lost and deaths.
pub open spec fn status_line(g: RaftingGame) -> Seq<char> {
    let left: nat = if g.ticks / 30 >= 30 { 0 } else { (30 - g.ticks / 30) as nat };
    "Time "@ + decimal(left) + "s | Lane "@ + lane_text(g.raft_x) + " | Cargo lost "@ + decimal(g.cargo as nat)
        + " | Deaths "@ + decimal(g.casualties as nat)
}

fn signed_text(s: &mut String, v: i16)
    ensures
        final(s)@ == old(s)@ + signed(v as int),
{
    if v < 0 {
        vstd::string::StringExecFns::append(s, "-");
        proof { reveal_strlit("-"); }
        let m: i32 = -(v as i32);
        push_decimal(s, m as u64);
    } else {
        push_decimal(s, v as u64);
    }
    assert(s@ =~= old(s)@ + signed(v as int));
}

fn rock_text(r: Rock) -> (t: String)
    requires
        shown(r),
    ensures
        t@ == rock_line(r),
{
    let mut t = String::from_str("Rock ");
    vstd::string::StringExecFns::append(&mut t, lane(r.x));
    vstd::string::StringExecFns::append(&mut t, " lane, row ");
    signed_text(&mut t, r.y);
    vstd::string::StringExecFns::append(&mut t, ", about ");
    let gap: i16 = if 19 - r.y > 0 { 19 - r.y } else { 0 };
    let secs: i16 = (gap + 9) / 10;
    push_decimal(&mut t, secs as u64);
    vstd::string::StringExecFns::append(&mut t, "s to raft row.");
    proof {
        reveal_strlit("Rock ");
        reveal_strlit(" lane, row ");
        reveal_strlit(", about ");
        reveal_strlit("s to raft row.");
    }
    assert(t@ =~= rock_line(r));
    t
}

impl RaftingGame {
    /// A turn of the spoken, turn-based raft: 1, 2 or 3 steer to the left, centre or right
    /// lane and hold for a second, space holds course for a second, Escape gives up.
    pub fn text_key(&mut self, key: Key)
        requires
            old(self).wf(),
        ensures
            final(self).wf(),
            final(self).streams().master() == old(self).streams().master(),
            old(self).finished ==> *final(self) == *old(self),
            !old(self).finished && key == Key::Esc ==> *final(self) == (RaftingGame { finished: true, aborted: true, ..*old(self) }),
            !old(self).finished && (lane_column(key) is Some || key == Key::Char(' ')) ==> {
                &&& final(self).raft_x == (match lane_column(key) { Some(x) => x, None => old(self).raft_x })
                &&& final(self).ticks == old(self).ticks + turn_ticks(old(self).ticks)
                &&& final(self).finished == (final(self).ticks >= 900)
                &&& final(self).aborted == old(self).aborted
                &&& final(self).rocks@.len() == old(self).rocks@.len()
                &&& turn_done(RaftingGame { raft_x: final(self).raft_x, ..*old(self) }, *final(self))
            },
            !old(self).finished && lane_column(key) is None && key != Key::Char(' ') && key != Key::Esc ==> *final(self) == *old(self),
    {
        if self.finished {
            return;
        }
        match key {
            Key::Char('1') => {
                self.raft_x = 14;
                self.advance_turn();
            },
            Key::Char('2') => {
                self.raft_x = 40;
                self.advance_turn();
            },
            Key::Char('3') => {
                self.raft_x = 66;
                self.advance_turn();
            },
            Key::Char(' ') => self.advance_turn(),
            Key::Esc => {
                self.finished = true;
                self.aborted = true;
            },
            _ => {},
        }
    }

    /// Whether the course is over.
    pub fn is_finished(&self) -> (r: bool)
        ensures
            r == self.finished,
    {
        self.finished
    }

    /// The outcome so far: cargo lost, deaths, whether the course was run to its end, and
    /// whether it was given up.
    pub fn result(&self) -> (r: RaftingResult)
        ensures
            r == outcome(*self),
    {
        RaftingResult {
            cargo_lost_lbs: self.cargo,
            casualties: self.casualties,
            completed: self.finished && !self.aborted && self.ticks >= 900,
            aborted: self.aborted,
        }
    }

    /// The course in words, for screen readers: a heading, the status, the controls, then
    /// the nearest rocks (at most five, furthest downstream first), or word that none is near.
    pub fn text_lines(&self) -> (lines: Vec<String>)
        ensures
            lines@.len() >= 4,
            lines@[0]@ == "TURN-BASED RAFT"@,
            lines@[1]@ == status_line(*self),
            lines@[2]@ == "Choose 1 Left, 2 Center, or 3 Right. Space holds course one second. Esc aborts."@,
            exists|sel: Seq<int>| {
                &&& listing(self.rocks@, sel)
                &&& lines@.len() == 3 + sel.len() + (if sel.len() == 0 { 1int } else { 0int })
                &&& forall|p: int| 0 <= p < sel.len() ==> (#[trigger] lines@[3 + p])@ == rock_line(self.rocks@[sel[p]])
                &&& sel.len() == 0 ==> lines@[3]@ == "No rocks are near the raft row."@
            },
    {
        let mut lines: Vec<String> = Vec::new();
        lines.push(String::from_str("TURN-BASED RAFT"));
        let mut status = String::from_str("Time ");
        let spent = self.ticks / 30;
        let left: u16 = if spent >= 30 { 0 } else { 30 - spent };
        push_decimal(&mut status, left as u64);
        vstd::string::StringExecFns::append(&mut status, "s | Lane ");
        vstd::string::StringExecFns::append(&mut status, lane(self.raft_x));
        vstd::string::StringExecFns::append(&mut status, " | Cargo lost ");
        push_decimal(&mut status, self.cargo as u64);
        vstd::string::StringExecFns::append(&mut status, " | Deaths ");
        push_decimal(&mut status, self.casualties as u64);
        proof {
            reveal_strlit("Time ");
            reveal_strlit("s | Lane ");
            reveal_strlit(" | Cargo lost ");
            reveal_strlit(" | Deaths ");
        }
        assert(status@ =~= status_line(*self));
        lines.push(status);
        lines.push(String::from_str("Choose 1 Left, 2 Center, or 3 Right. Space holds course one second. Esc aborts."));
        let n = self.rocks.len();
        let mut chosen: Vec<bool> = Vec::new();
        let mut k: usize = 0;
        while k < n
            invariant
                n == self.rocks@.len(),
                k <= n,
                chosen@.len() == k,
                forall|j: int| 0 <= j < k ==> !#[trigger] chosen@[j],
            decreases n - k,
        {
            chosen.push(false);
            k = k + 1;
        }
        let ghost mut sel: Seq<int> = Seq::empty();
        let mut round: usize = 0;
        let mut done = false;
        while round < 5 && !done
            invariant
                n == self.rocks@.len(),
                chosen@.len() == n,
                round <= 5,
                sel.len() == round,
                lines@.len() == 3 + round,
                lines@[0]@ == "TURN-BASED RAFT"@,
                lines@[1]@ == status_line(*self),
                lines@[2]@ == "Choose 1 Left, 2 Center, or 3 Right. Space holds course one second. Esc aborts."@,
                forall|p: int| 0 <= p < sel.len() ==> 0 <= #[trigger] sel[p] < n && shown(self.rocks@[sel[p]]),
                forall|p: int, q: int| 0 <= p < q < sel.len() ==> listed_before(self.rocks@, #[trigger] sel[p], #[trigger] sel[q]),
                forall|j: int| 0 <= j < n ==> (#[trigger] chosen@[j] <==> sel.contains(j)),
                forall|j: int, p: int| 0 <= j < n && shown(self.rocks@[j]) && !#[trigger] chosen@[j] && 0 <= p < sel.len() ==>
                    listed_before(self.rocks@, #[trigger] sel[p], j),
                done ==> forall|j: int| 0 <= j < n && #[trigger] shown(self.rocks@[j]) ==> chosen@[j],
                forall|p: int| 0 <= p < sel.len() ==> (#[trigger] lines@[3 + p])@ == rock_line(self.rocks@[sel[p]]),
            decreases 5 - round + (if done { 0int } else { 1int }),
        {
            let mut best: Option<usize> = None;
            let mut k: usize = 0;
            while k < n
                invariant
                    n == self.rocks@.len(),
                    chosen@.len() == n,
                    k <= n,
                    best matches Some(b) ==> b < k && shown(self.rocks@[b as int]) && !chosen@[b as int]
                        && forall|j: int| 0 <= j < k && j != b && shown(self.rocks@[j]) && !#[trigger] chosen@[j] ==>
                            listed_before(self.rocks@, b as int, j),
                    best is None ==> forall|j: int| 0 <= j < k && #[trigger] shown(self.rocks@[j]) ==> chosen@[j],
                decreases n - k,
            {
                let r = self.rocks[k];
                if !r.charged && r.y >= -30 && r.y < 22 && !chosen[k] {
                    match best {
                        Some(b) => {
                            if r.y > self.rocks[b].y {
                                best = Some(k);
                            }
                        },
                        None => {
                            best = Some(k);
                        },
                    }
                }
                k = k + 1;
            }
            match best {
                None => {
                    done = true;
                },
                Some(b) => {
                    let line = rock_text(self.rocks[b]);
                    lines.push(line);
                    chosen.set(b, true);
                    proof {
                        let old_sel = sel;
                        sel = sel.push(b as int);
                        assert forall|j: int| 0 <= j < n implies (#[trigger] chosen@[j] <==> sel.contains(j)) by {
                            if j == b as int {
                                assert(sel[sel.len() - 1] == j);
                            } else {
                                if sel.contains(j) {
                                    let p = choose|p: int| 0 <= p < sel.len() && sel[p] == j;
                                    assert(old_sel[p] == j);
                                }
                                if old_sel.contains(j) {
                                    let p = choose|p: int| 0 <= p < old_sel.len() && old_sel[p] == j;
                                    assert(sel[p] == j);
                                }
                            }
                        }
                        assert forall|p: int| 0 <= p < sel.len() implies (#[trigger] lines@[3 + p])@ == rock_line(self.rocks@[sel[p]]) by {
                            if p < old_sel.len() {
                                assert(sel[p] == old_sel[p]);
                            }
                        }
                    }
                    round = round + 1;
                },
            }
        }
        if round == 0 {
            lines.push(String::from_str("No rocks are near the raft row."));
            proof { reveal_strlit("No rocks are near the raft row."); }
        }
        proof {
            reveal_strlit("TURN-BASED RAFT");
            assert forall|k: int| 0 <= k < n && #[trigger] shown(self.rocks@[k]) && !sel.contains(k) implies
                sel.len() == 5 && forall|p: int| 0 <= p < sel.len() ==> listed_before(self.rocks@, #[trigger] sel[p], k) by {
                assert(!chosen@[k]);
            }
            assert(listing(self.rocks@, sel));
        }
        lines
    }
}

/// The outcome of course `g`: cargo lost, deaths, whether it was run to its end, and
/// whether it was given up.
pub open spec fn outcome(g: RaftingGame) -> RaftingResult {
    RaftingResult {
        cargo_lost_lbs: g.cargo,
        casualties: g.casualties,
        completed: g.finished && !g.aborted && g.ticks >= 900,
        aborted: g.aborted,
    }
}

/// `r` is the fresh course of master seed `seed`: the rocks drawn from the seed's rock
/// stream, the raft in the middle lane, the clock at zero, nothing lost.
pub open spec fn fresh_course(r: RaftingGame, seed: u64) -> bool {
    &&& r.wf()
    &&& r.rng.master() == seed
    &&& (r.rocks@, r.rng.position(rock_stream())) == initial_rocks(rock_start(seed), 8)
    &&& r.raft_x == 40
    &&& r.ticks == 0
    &&& r.cargo == 0
    &&& r.casualties == 0
    &&& !r.finished
    &&& !r.aborted
}

/// A tick took `a` to `b`: a finished course stays as it is.
pub open spec fn ticked(a: RaftingGame, b: RaftingGame) -> bool {
    &&& b.wf()
    &&& a.finished ==> b == a
    &&& !a.finished ==> tick_done(a, b)
}

/// Key `key` took `a` to `b`: a finished course stays; otherwise the raft steers two
/// columns within the banks, or Escape gives the course up.
pub open spec fn keyed(a: RaftingGame, key: Key, b: RaftingGame) -> bool {
    &&& b.wf()
    &&& a.finished ==> b == a
    &&& !a.finished ==> b == (match key {
        Key::Left | Key::Char('h') => RaftingGame { raft_x: if a.raft_x - 2 >= 6 { (a.raft_x - 2) as i16 } else { 6 }, ..a },
        Key::Right | Key::Char('l') => RaftingGame { raft_x: if a.raft_x + 2 <= 74 { (a.raft_x + 2) as i16 } else { 74 }, ..a },
        Key::Esc => RaftingGame { finished: true, aborted: true, ..a },
        _ => a,
    })
}

/// One input took `a` to `b`: a tick when there is no key, else the key.
pub open spec fn stepped(a: RaftingGame, input: Option<Key>, b: RaftingGame) -> bool {
    match input {
        None => ticked(a, b),
        Some(k) => keyed(a, k, b),
    }
}

/// `run` is a course played through `inputs`, one state after each.
pub open spec fn played(run: Seq<RaftingGame>, inputs: Seq<Option<Key>>) -> bool {
    &&& run.len() == inputs.len() + 1
    &&& forall|i: int| 0 <= i < inputs.len() ==> #[trigger] stepped(run[i], inputs[i], run[i + 1])
}

/// Two courses stand alike: the same rocks, raft, clock and losses, and their rock streams
/// at the same place.
pub open spec fn courses_alike(a: RaftingGame, b: RaftingGame) -> bool {
    &&& a.rocks@ == b.rocks@
    &&& a.raft_x == b.raft_x
    &&& a.ticks == b.ticks
    &&& a.cargo == b.cargo
    &&& a.casualties == b.casualties
    &&& a.finished == b.finished
    &&& a.aborted == b.aborted
    &&& a.rng.position(rock_stream()) == b.rng.position(rock_stream())
}

/// How many of the first `i` inputs are ticks.
pub open spec fn ticks_in(inputs: Seq<Option<Key>>, i: int) -> nat
    decreases i,
{
    if i <= 0 { 0 } else { ticks_in(inputs, i - 1) + if inputs[i - 1] is None { 1nat } else { 0nat } }
}

proof fn lemma_alike_upto(seed: u64, inputs: Seq<Option<Key>>, ra: Seq<RaftingGame>, rb: Seq<RaftingGame>, i: int)
    requires
        fresh_course(ra[0], seed),
        fresh_course(rb[0], seed),
        played(ra, inputs),
        played(rb, inputs),
        0 <= i <= inputs.len(),
    ensures
        courses_alike(ra[i], rb[i]),
    decreases i,
{
    if i > 0 {
        lemma_alike_upto(seed, inputs, ra, rb, i - 1);
        let (a, b) = (ra[i - 1], rb[i - 1]);
        let j = i - 1;
        assert(stepped(ra[j], inputs[j], ra[j + 1]));
        assert(stepped(rb[j], inputs[j], rb[j + 1]));
        assert(j + 1 == i);
        match inputs[i - 1] {
            None => {
                if !a.finished && (a.ticks + 1) as u16 % 3 == 0 {
                    assert(ra[i].rocks@ == rb[i].rocks@);
                }
            },
            Some(k) => {},
        }
    }
}

/// The course is deterministic: two courses fresh from one seed, given the same ticks and
/// keys, stand alike after every input, so they report the same outcome at every step.
pub proof fn law_rafting_is_deterministic(seed: u64, inputs: Seq<Option<Key>>, ra: Seq<RaftingGame>, rb: Seq<RaftingGame>)
    requires
        fresh_course(ra[0], seed),
        fresh_course(rb[0], seed),
        played(ra, inputs),
        played(rb, inputs),
    ensures
        forall|i: int| 0 <= i <= inputs.len() ==> courses_alike(#[trigger] ra[i], rb[i]) && outcome(ra[i]) == outcome(rb[i]),
{
    assert forall|i: int| 0 <= i <= inputs.len() implies courses_alike(#[trigger] ra[i], rb[i]) && outcome(ra[i]) == outcome(rb[i]) by {
        lemma_alike_upto(seed, inputs, ra, rb, i);
    }
}

proof fn lemma_bounds_upto(seed: u64, inputs: Seq<Option<Key>>, run: Seq<RaftingGame>, i: int)
    requires
        fresh_course(run[0], seed),
        played(run, inputs),
        0 <= i <= inputs.len(),
    ensures
        run[i].cargo <= 120,
        run[i].casualties <= 4,
        (forall|j: int| 0 <= j < inputs.len() ==> #[trigger] inputs[j] != Some(Key::Esc)) ==> {
            &&& !run[i].aborted
            &&& run[i].ticks == if ticks_in(inputs, i) < 900 { ticks_in(inputs, i) } else { 900 }
            &&& run[i].finished == (ticks_in(inputs, i) >= 900)
        },
    decreases i,
{
    if i > 0 {
        lemma_bounds_upto(seed, inputs, run, i - 1);
        let a = run[i - 1];
        let j = i - 1;
        assert(stepped(run[j], inputs[j], run[j + 1]));
        assert(j + 1 == i);
        match inputs[i - 1] {
            None => {
                if !a.finished && (a.ticks + 1) as u16 % 3 == 0 {
                    lemma_losses_bounded(a.cargo, a.casualties, strike_count(a.rocks@, a.raft_x));
                }
            },
            Some(k) => {
                if (forall|j: int| 0 <= j < inputs.len() ==> #[trigger] inputs[j] != Some(Key::Esc)) {
                    assert(inputs[i - 1] != Some(Key::Esc));
                }
            },
        }
    }
}

/// The course keeps its losses in bounds, at most 120 lb of cargo and four lives, and,
/// unless Escape gives it up, it runs one tick per tick input until it ends after 900,
/// run to its end.
pub proof fn law_rafting_course_runs_its_length(seed: u64, inputs: Seq<Option<Key>>, run: Seq<RaftingGame>)
    requires
        fresh_course(run[0], seed),
        played(run, inputs),
    ensures
        forall|i: int| 0 <= i <= inputs.len() ==> (#[trigger] run[i]).cargo <= 120 && run[i].casualties <= 4,
        (forall|j: int| 0 <= j < inputs.len() ==> #[trigger] inputs[j] != Some(Key::Esc)) ==>
            forall|i: int| 0 <= i <= inputs.len() ==> (ticks_in(inputs, i) >= 900 <==> (#[trigger] run[i]).finished)
                && (ticks_in(inputs, i) >= 900 ==> outcome(run[i]).completed && !outcome(run[i]).aborted),
{
    assert forall|i: int| 0 <= i <= inputs.len() implies (#[trigger] run[i]).cargo <= 120 && run[i].casualties <= 4 by {
        lemma_bounds_upto(seed, inputs, run, i);
    }
    if forall|j: int| 0 <= j < inputs.len() ==> #[trigger] inputs[j] != Some(Key::Esc) {
        assert forall|i: int| 0 <= i <= inputs.len() implies (ticks_in(inputs, i) >= 900 <==> (#[trigger] run[i]).finished)
            && (ticks_in(inputs, i) >= 900 ==> outcome(run[i]).completed && !outcome(run[i]).aborted) by {
            lemma_bounds_upto(seed, inputs, run, i);
        }
    }
}

/// A rock that has struck the raft is charged for it once: on its next drift it is not
/// counted again, and it stays marked while it drifts down.
pub proof fn law_struck_rock_is_charged_once(a: RaftingGame, b: RaftingGame, k: int)
    requires
        a.wf(),
        ticked(a, b),
        0 <= k < a.rocks@.len(),
        a.rocks@[k].charged,
        drifts(a.rocks@[k]),
    ensures
        !strikes_now(a.rocks@[k], a.raft_x),
        b.rocks@[k].charged,
{
    if !a.finished && (a.ticks + 1) as u16 % 3 == 0 {
        assert(drifted(a.rocks@[k], b.rocks@[k], a.raft_x));
    }
}

/// How many ticks a one-second turn takes from tick `t`: thirty, or fewer when the
/// course ends first.
pub open spec fn turn_ticks(t: u16) -> int {
    if t + 30 < 900 { 30 } else if t >= 899 { 1 } else { 900 - t }
}

proof fn lemma_losses_bounded(cargo: u16, casualties: u8, n: nat)
    requires
        cargo <= 65520,
        casualties <= 254,
    ensures
        losses(cargo, casualties, n).0 <= 65520,
        losses(cargo, casualties, n).1 <= 254,
        n > 0 ==> losses(cargo, casualties, n).0 <= 120 && losses(cargo, casualties, n).1 <= (if casualties > 4 { casualties } else { 4 }),
    decreases n,
{
    if n > 0 {
        lemma_losses_bounded(cargo, casualties, (n - 1) as nat);
    }
}

proof fn lemma_losses_grow(cargo: u16, casualties: u8, n: nat)
    ensures
        losses(cargo, casualties, n).0 >= cargo || losses(cargo, casualties, n).0 == 120,
    decreases n,
{
    if n > 0 {
        lemma_losses_grow(cargo, casualties, (n - 1) as nat);
    }
}

} // verus!
