//! What a hunt needs from the journey and gives back to it.

use vstd::prelude::*;
use crate::weather::Terrain;
use crate::rng::SimRng;
use crate::ui::Animal;
use crate::art::PxImage;
use crate::input::Key;
use crate::text::{decimal, push_decimal};

verus! {

/// The country a hunt takes place in; it decides which animals appear.
#[derive(Clone, Copy, Debug, Eq, PartialEq)]
pub enum Biome {
    Plains,
    Forest,
    Mountains,
    Desert,
    RiverValley,
}

/// How a hunt ended: meat brought back and shots fired.
#[derive(Clone, Copy, Debug, Eq, PartialEq)]
pub struct HuntingResult {
    pub food_lbs: u16,
    pub shots: u16,
}

/// The hunting country of a terrain: hills hunt like forest, everything else like itself.
pub open spec fn biome_of(terrain: Terrain) -> Biome {
    match terrain {
        Terrain::Mountains => Biome::Mountains,
        Terrain::Forest | Terrain::Hills => Biome::Forest,
        Terrain::Desert => Biome::Desert,
        Terrain::RiverValley => Biome::RiverValley,
        Terrain::Plains => Biome::Plains,
    }
}

/// The hunting country of a terrain.
pub fn biome_for(terrain: Terrain) -> (r: Biome)
    ensures
        r == biome_of(terrain),
{
    match terrain {
        Terrain::Mountains => Biome::Mountains,
        Terrain::Forest | Terrain::Hills => Biome::Forest,
        Terrain::Desert => Biome::Desert,
        Terrain::RiverValley => Biome::RiverValley,
        Terrain::Plains => Biome::Plains,
    }
}

/// Ticks in a second of the hunt.
pub const TICKS_PER_SECOND: u16 = 30;

/// An animal in the field, moving sideways by `dx` every sixth tick.
#[derive(Clone, Copy, Debug, Eq, PartialEq)]
pub struct Target {
    pub kind: Animal,
    pub x: i16,
    pub y: i16,
    pub dx: i16,
    pub alive: bool,
}

/// The position of an animal's frames among the sprites: buffalo, deer, bear, rabbit,
/// squirrel, two frames each.
pub open spec fn animal_index(a: Animal) -> int {
    match a {
        Animal::Buffalo => 0,
        Animal::Deer => 1,
        Animal::Bear => 2,
        Animal::Rabbit => 3,
        Animal::Squirrel => 4,
    }
}

fn sprite_index(a: Animal, frame: u16) -> (r: usize)
    ensures
        r == 2 * animal_index(a) + frame % 2,
        r < 10,
{
    let k: usize = match a {
        Animal::Buffalo => 0,
        Animal::Deer => 1,
        Animal::Bear => 2,
        Animal::Rabbit => 3,
        Animal::Squirrel => 4,
    };
    2 * k + (frame % 2) as usize
}

/// A top-down 80 by 23 hunting field, ticked thirty times a second.
pub struct HuntingGame {
    pub rng: SimRng,
    pub biome: Biome,
    pub targets: Vec<Target>,
    pub crosshair: (i16, i16),
    pub ticks: u16,
    pub shots: u16,
    pub ammo: u16,
    pub food: u16,
    pub capacity: u16,
    pub finished: bool,
    /// The animals' two-frame sprites, as `animal_index` orders them.
    pub sprites: Vec<PxImage>,
}

/// An animal within what the field's arithmetic can hold.
pub open spec fn target_ok(t: Target) -> bool {
    &&& -16000 <= t.x <= 16000
    &&& -16000 <= t.x + t.dx <= 16000
    &&& -16000 <= t.y <= 16000
    &&& -100 <= t.dx <= 100
}

fn strikes(img: &PxImage, aim: (i16, i16), t: Target) -> (r: bool)
    requires
        target_ok(t),
        0 <= aim.0 <= 79,
        0 <= aim.1 <= 22,
    ensures
        r == covers(*img, aim, t),
{
    let x: i16 = aim.0 - (t.x - 8);
    let y: i16 = aim.1 - (t.y - 2);
    if x < 0 || y < 0 {
        return false;
    }
    let row: u16 = (y as u16) * 2;
    img.pixel(x as u16, row).is_some() || img.pixel(x as u16, row + 1).is_some()
}

/// The sprite an animal shows at tick `ticks`: its frames alternate every five ticks.
pub open spec fn sprite_of(sprites: Seq<PxImage>, a: Animal, ticks: u16) -> PxImage {
    sprites[2 * animal_index(a) + (ticks / 5) % 2]
}

/// The sprite has an opaque pixel at column `x` of row `y`.
pub open spec fn opaque(img: PxImage, x: int, y: int) -> bool {
    0 <= x < img.w() && 0 <= y < img.h() && img.at(x, y) is Some
}

/// A shot at cell `aim` hits the animal: the cell lies on an opaque pixel of its sprite,
/// drawn eight columns left and two cells up of its position, two pixel rows a cell.
pub open spec fn covers(img: PxImage, aim: (i16, i16), t: Target) -> bool {
    let x = aim.0 - (t.x - 8);
    let y = aim.1 - (t.y - 2);
    x >= 0 && y >= 0 && (opaque(img, x, 2 * y) || opaque(img, x, 2 * y + 1))
}

/// The first living animal a shot at the crosshair hits.
pub open spec fn hit(g: HuntingGame) -> Option<int> {
    crate::lookup::find_first(
        Seq::new(g.targets@.len(), |k: int| k),
        |k: int| g.targets@[k].alive && covers(sprite_of(g.sprites@, g.targets@[k].kind, g.ticks), g.crosshair, g.targets@[k]),
    )
}

impl HuntingGame {
    /// The field's arithmetic cannot overflow, its streams are sound and every sprite is there.
    pub open spec fn wf(&self) -> bool {
        &&& self.rng.wf()
        &&& self.sprites@.len() == 10
        &&& forall|k: int| 0 <= k < self.targets@.len() ==> #[trigger] target_ok(self.targets@[k])
        &&& 0 <= self.crosshair.0 <= 79
        &&& 0 <= self.crosshair.1 <= 22
        &&& self.food <= self.capacity <= 65435
    }

    /// A fresh hunt for `seed` in `biome`: three to five animals of the country, twenty
    /// rounds at most, and a bag of 200 lb for a hunter or 150 lb otherwise.
    pub fn new(seed: u64, biome: Biome, hunter: bool, ammo_available: u16, sprites: Vec<PxImage>) -> (r: Self)
        requires
            sprites@.len() == 10,
        ensures
            r.wf(),
            r.rng.master() == seed,
            r.biome == biome,
            3 <= r.targets@.len() <= 5,
            forall|k: int| 0 <= k < r.targets@.len() ==> #[trigger] spawned(r.targets@[k], biome),
            r.crosshair == (40i16, 11i16),
            r.ticks == 0,
            r.shots == 0,
            r.ammo == (if ammo_available < 20 { ammo_available } else { 20 }),
            r.food == 0,
            r.capacity == (if hunter { 200u16 } else { 150 }),
            !r.finished,
            r.sprites@ == sprites@,
    {
        let mut rng = SimRng::new(seed);
        let count = 3 + rng.roll("hunting-spawn", 3);
        let mut targets: Vec<Target> = Vec::new();
        let mut k: u32 = 0;
        while k < count
            invariant
                3 <= count <= 5,
                k <= count,
                rng.wf(),
                rng.master() == seed,
                targets@.len() == k,
                forall|j: int| 0 <= j < k ==> #[trigger] spawned(targets@[j], biome),
            decreases count - k,
        {
            let kind = match biome {
                Biome::Plains => if rng.chance("hunting-spawn", 6_456_360_425_798_342_656) { Animal::Buffalo } else { Animal::Deer },
                Biome::Forest => if rng.chance("hunting-spawn", 7_378_697_629_483_821_056) { Animal::Deer } else { Animal::Bear },
                Biome::Mountains => Animal::Deer,
                Biome::Desert => Animal::Rabbit,
                Biome::RiverValley => Animal::Squirrel,
            };
            let x = rng.roll_between("hunting-spawn", 3, 77);
            let y = rng.roll_between("hunting-spawn", 2, 21);
            let dx: i16 = if rng.chance("hunting-spawn", 9_223_372_036_854_775_808) { 1 } else { -1 };
            targets.push(Target { kind, x, y, dx, alive: true });
            k = k + 1;
        }
        assert forall|j: int| 0 <= j < targets@.len() implies #[trigger] target_ok(targets@[j]) by {
            assert(spawned(targets@[j], biome));
        }
        HuntingGame {
            rng,
            biome,
            targets,
            crosshair: (40, 11),
            ticks: 0,
            shots: 0,
            ammo: if ammo_available < 20 { ammo_available } else { 20 },
            food: 0,
            capacity: if hunter { 200 } else { 150 },
            finished: false,
            sprites,
        }
    }

    /// One tick: every sixth tick the living animals step sideways, turning at the field's
    /// edges; the hunt ends after thirty seconds.
    pub fn tick(&mut self)
        requires
            old(self).wf(),
        ensures
            final(self).wf(),
            old(self).finished ==> *final(self) == *old(self),
            !old(self).finished ==> {
                let t: u16 = if old(self).ticks < u16::MAX { (old(self).ticks + 1) as u16 } else { u16::MAX };
                &&& *final(self) == (HuntingGame { ticks: t, finished: t >= 900, targets: final(self).targets, ..*old(self) })
                &&& final(self).targets@.len() == old(self).targets@.len()
                &&& forall|k: int| 0 <= k < old(self).targets@.len() ==>
                        #[trigger] final(self).targets@[k] == (if t % 6 == 0 { stepped(old(self).targets@[k]) } else { old(self).targets@[k] })
            },
    {
        if self.finished {
            return;
        }
        self.ticks = if self.ticks < u16::MAX { self.ticks + 1 } else { u16::MAX };
        if self.ticks % 6 == 0 {
            let ghost start = self.targets@;
            let ghost whole = *self;
            let n = self.targets.len();
            let mut k: usize = 0;
            while k < n
                invariant
                    *self == (HuntingGame { targets: self.targets, ..whole }),
                    whole.targets@ == start,
                    n == start.len(),
                    k <= n,
                    self.targets@.len() == n,
                    forall|j: int| 0 <= j < n ==> #[trigger] target_ok(start[j]),
                    forall|j: int| 0 <= j < k ==> #[trigger] self.targets@[j] == stepped(start[j]),
                    forall|j: int| k <= j < n ==> #[trigger] self.targets@[j] == start[j],
                decreases n - k,
            {
                let mut t = self.targets[k];
                assert(target_ok(start[k as int]));
                if t.alive {
                    t.x = t.x + t.dx;
                    if t.x <= 1 || t.x >= 78 {
                        t.dx = -t.dx;
                    }
                }
                self.targets.set(k, t);
                k = k + 1;
            }
            assert forall|j: int| 0 <= j < n implies #[trigger] target_ok(self.targets@[j]) by {
                assert(self.targets@[j] == stepped(start[j]));
                assert(target_ok(start[j]));
            }
        }
        if self.ticks >= 900 {
            self.finished = true;
        }
    }

    /// Fires at the crosshair: one round gone, and the first living animal under it
    /// falls and fills the bag (up to its capacity, which ends the hunt).
    fn shoot(&mut self)
        requires
            old(self).wf(),
        ensures
            final(self).wf(),
            shot(*old(self), *final(self)),
    {
        if self.ammo == 0 {
            return;
        }
        let ghost before = *self;
        self.ammo = self.ammo - 1;
        self.shots = if self.shots < u16::MAX { self.shots + 1 } else { u16::MAX };
        let ghost spent = *self;
        let ghost p = |k: int| before.targets@[k].alive && covers(sprite_of(before.sprites@, before.targets@[k].kind, before.ticks), before.crosshair, before.targets@[k]);
        let ghost idx = Seq::new(before.targets@.len(), |k: int| k);
        let n = self.targets.len();
        let frame = self.ticks / 5;
        let mut k: usize = 0;
        while k < n
            invariant
                *self == spent,
                spent == (HuntingGame {
                    ammo: (before.ammo - 1) as u16,
                    shots: if before.shots < u16::MAX { (before.shots + 1) as u16 } else { u16::MAX },
                    ..before
                }),
                before.wf(),
                before == *old(self),
                before.ammo > 0,
                n == before.targets@.len(),
                k <= n,
                frame == before.ticks / 5,
                forall|j: int| 0 <= j < k ==> !p(#[trigger] idx[j]),
                idx == Seq::new(before.targets@.len(), |k: int| k),
                p == (|k: int| before.targets@[k].alive && covers(sprite_of(before.sprites@, before.targets@[k].kind, before.ticks), before.crosshair, before.targets@[k])),
            decreases n - k,
        {
            let t = self.targets[k];
            assert(target_ok(before.targets@[k as int]));
            let img = &self.sprites[sprite_index(t.kind, frame)];
            let struck = t.alive && strikes(img, self.crosshair, t);
            proof {
                assert(idx[k as int] == k as int);
                assert(*img == sprite_of(before.sprites@, t.kind, before.ticks));
            }
            if struck {
                proof {
                    assert(p(idx[k as int]));
                    crate::lookup::lemma_first_is(idx, p, k as int);
                    assert(hit(before) == Some(k as int));
                }
                self.targets.set(k, Target { alive: false, ..t });
                let f = self.food + crate::ui::Animal::food(t.kind);
                self.food = if f < self.capacity { f } else { self.capacity };
                if self.food >= self.capacity {
                    self.finished = true;
                }
                proof {
                    assert forall|j: int| 0 <= j < self.targets@.len() implies #[trigger] target_ok(self.targets@[j]) by {
                        assert(target_ok(before.targets@[j]));
                    }
                }
                return;
            }
            proof { assert(!p(idx[k as int])); }
            k = k + 1;
        }
        proof {
            crate::lookup::lemma_first_none(idx, p);
            assert(hit(before) is None);
        }
        if self.food >= self.capacity {
            self.finished = true;
        }
    }
}

/// What a shot at the crosshair does: with no rounds nothing; otherwise one round is
/// spent, and the first living animal under the crosshair falls and fills the bag (to
/// its capacity, which ends the hunt).
pub open spec fn shot(before: HuntingGame, after: HuntingGame) -> bool {
    &&& before.ammo == 0 ==> after == before
    &&& before.ammo > 0 ==> {
        let food: u16 = match hit(before) {
            Some(k) => {
                let f = before.food + food_of(before.targets@[k].kind);
                if f < before.capacity { f as u16 } else { before.capacity }
            },
            None => before.food,
        };
        &&& after == (HuntingGame {
                ammo: (before.ammo - 1) as u16,
                shots: if before.shots < u16::MAX { (before.shots + 1) as u16 } else { u16::MAX },
                food: food,
                finished: before.finished || food >= before.capacity,
                targets: after.targets,
                ..before
            })
        &&& after.targets@ == (match hit(before) {
                Some(k) => before.targets@.update(k, Target { alive: false, ..before.targets@[k] }),
                None => before.targets@,
            })
    }
}

/// The animals after the ticks from `from` up to `to`: they step on every sixth tick.
pub open spec fn walked(ts: Seq<Target>, from: int, to: int) -> Seq<Target>
    decreases to - from,
{
    if to <= from {
        ts
    } else {
        let prev = walked(ts, from, to - 1);
        if to % 6 == 0 { prev.map_values(|t: Target| stepped(t)) } else { prev }
    }
}

/// How many ticks a one-second turn takes from tick `t`: thirty, or fewer when the hunt
/// ends first.
pub open spec fn turn_ticks(t: u16) -> int {
    if t + 30 < 900 { 30 } else if t >= 899 { 1 } else { 900 - t }
}

/// What a one-second turn does to a hunt that is not over: the clock runs on (to the
/// end of the hunt at most) and the animals walk; nothing else changes.
pub open spec fn turned(before: HuntingGame, after: HuntingGame) -> bool {
    let t: int = if before.ticks + turn_ticks(before.ticks) <= u16::MAX { before.ticks + turn_ticks(before.ticks) } else { u16::MAX as int };
    &&& after == (HuntingGame { ticks: t as u16, finished: t >= 900, targets: after.targets, ..before })
    &&& after.targets@ == walked(before.targets@, before.ticks as int, t)
}

/// The cell a spoken shot aims at for animal `t` drawn with `img`: where the first pixel
/// of its sprite, in reading order, that is opaque and on the field lies.
pub open spec fn spoken_aim(img: PxImage, t: Target) -> Option<(int, int)> {
    if exists|x: int, y: int| #[trigger] sight(img, t, x, y) {
        let (x, y) = choose|x: int, y: int| #[trigger] sight(img, t, x, y)
            && forall|x2: int, y2: int| (y2 < y || (y2 == y && x2 < x)) ==> !#[trigger] sight(img, t, x2, y2);
        Some(aim_from(t, x, y))
    } else {
        None
    }
}

/// A spoken shot at the `number`-th living animal (from one) took `a` to `b`: without
/// rounds, without such an animal, or with none of its sprite on the field nothing
/// happens; otherwise the crosshair moves to its first visible cell, the shot is fired,
/// and a second passes unless the hunt is over.
pub open spec fn spoken_shot(a: HuntingGame, b: HuntingGame, number: int) -> bool {
    if a.ammo == 0 || nth_alive(a.targets@, number - 1) is None {
        b == a
    } else {
        let t = a.targets@[nth_alive(a.targets@, number - 1)->0];
        match spoken_aim(a.sprites@[2 * animal_index(t.kind) + (a.ticks / 5) % 2], t) {
            None => b == a,
            Some(aim) => exists|s: HuntingGame| #[trigger] shot(HuntingGame { crosshair: (aim.0 as i16, aim.1 as i16), ..a }, s)
                && if s.finished { b == s } else { turned(s, b) },
        }
    }
}

proof fn lemma_first_sight_unique(img: PxImage, t: Target, x: int, y: int)
    requires
        sight(img, t, x, y),
        forall|x2: int, y2: int| (y2 < y || (y2 == y && x2 < x)) ==> !#[trigger] sight(img, t, x2, y2),
    ensures
        spoken_aim(img, t) == Some(aim_from(t, x, y)),
{
    let (cx, cy) = choose|x1: int, y1: int| #[trigger] sight(img, t, x1, y1)
        && forall|x2: int, y2: int| (y2 < y1 || (y2 == y1 && x2 < x1)) ==> !#[trigger] sight(img, t, x2, y2);
    if cy < y || (cy == y && cx < x) {
        assert(!sight(img, t, cx, cy));
    }
    if y < cy || (y == cy && x < cx) {
        assert(!sight(img, t, x, y));
    }
}

/// The index of the `n`-th living animal (from zero).
#[verifier::opaque]
pub open spec fn nth_alive(ts: Seq<Target>, n: int) -> Option<int> {
    crate::lookup::find_first(Seq::new(ts.len(), |k: int| k), |k: int| ts[k].alive && alive_before(ts, k) == n)
}

/// How many animals before position `k` are alive.
pub open spec fn alive_before(ts: Seq<Target>, k: int) -> int
    decreases k,
{
    if k <= 0 {
        0
    } else {
        alive_before(ts, k - 1) + if ts[k - 1].alive { 1int } else { 0int }
    }
}

/// The aim a sprite pixel gives: its column and its cell row on the field.
pub open spec fn aim_from(t: Target, x: int, y: int) -> (int, int) {
    (t.x - 8 + x, t.y - 2 + y / 2)
}

/// A pixel of the sprite that is opaque and lies on the field.
pub open spec fn sight(img: PxImage, t: Target, x: int, y: int) -> bool {
    let a = aim_from(t, x, y);
    opaque(img, x, y) && 0 <= a.0 < 80 && 0 <= a.1 < 23
}

/// What a tick does to an animal: a living one steps sideways and turns at the edges.
pub open spec fn stepped(t: Target) -> Target {
    if t.alive {
        let x = (t.x + t.dx) as i16;
        Target { x, dx: if x <= 1 || x >= 78 { (-t.dx) as i16 } else { t.dx }, ..t }
    } else {
        t
    }
}

/// Pounds of food an animal yields.
pub open spec fn food_of(a: Animal) -> int {
    match a {
        Animal::Buffalo => 100,
        Animal::Deer => 55,
        Animal::Bear => 65,
        Animal::Rabbit => 8,
        Animal::Squirrel => 3,
    }
}

/// An animal as the hunt sets it out: of the country's kinds, inside the field, alive,
/// stepping one column either way.
pub open spec fn spawned(t: Target, biome: Biome) -> bool {
    &&& match biome {
        Biome::Plains => t.kind == Animal::Buffalo || t.kind == Animal::Deer,
        Biome::Forest => t.kind == Animal::Deer || t.kind == Animal::Bear,
        Biome::Mountains => t.kind == Animal::Deer,
        Biome::Desert => t.kind == Animal::Rabbit,
        Biome::RiverValley => t.kind == Animal::Squirrel,
    }
    &&& 3 <= t.x < 77
    &&& 2 <= t.y < 21
    &&& t.dx == 1 || t.dx == -1
    &&& t.alive
}

fn visible_cell(img: &PxImage, t: Target) -> (r: Option<(i16, i16)>)
    requires
        target_ok(t),
    ensures
        match r {
            Some(a) => exists|x: int, y: int| {
                &&& #[trigger] sight(*img, t, x, y)
                &&& aim_from(t, x, y) == (a.0 as int, a.1 as int)
                &&& forall|x2: int, y2: int| (y2 < y || (y2 == y && x2 < x)) ==> !#[trigger] sight(*img, t, x2, y2)
            },
            None => forall|x: int, y: int| !#[trigger] sight(*img, t, x, y),
        },
{
    let w = img.width();
    let h = img.height();
    let mut y: u16 = 0;
    while y < h
        invariant
            w == img.w(),
            h == img.h(),
            y <= h,
            target_ok(t),
            forall|x2: int, y2: int| y2 < y ==> !#[trigger] sight(*img, t, x2, y2),
        decreases h - y,
    {
        let mut x: u16 = 0;
        while x < w
            invariant
                w == img.w(),
                h == img.h(),
                y < h,
                x <= w,
                target_ok(t),
                forall|x2: int, y2: int| y2 < y ==> !#[trigger] sight(*img, t, x2, y2),
                forall|x2: int| x2 < x ==> !#[trigger] sight(*img, t, x2, y as int),
            decreases w - x,
        {
            if img.pixel(x, y).is_some() {
                let ax: i32 = t.x as i32 - 8 + x as i32;
                let ay: i32 = t.y as i32 - 2 + (y / 2) as i32;
                if 0 <= ax && ax < 80 && 0 <= ay && ay < 23 {
                    proof {
                        assert(sight(*img, t, x as int, y as int));
                        assert forall|x2: int, y2: int| (y2 < y || (y2 == y && x2 < x)) implies !#[trigger] sight(*img, t, x2, y2) by {
                            if y2 == y {
                                assert(!sight(*img, t, x2, y as int));
                            }
                        }
                    }
                    return Some((ax as i16, ay as i16));
                }
            }
            x = x + 1;
        }
        proof {
            assert forall|x2: int| !#[trigger] sight(*img, t, x2, y as int) by {
                if x2 >= w {
                    assert(!opaque(*img, x2, y as int));
                }
            }
        }
        y = y + 1;
    }
    proof {
        assert forall|x: int, y2: int| !#[trigger] sight(*img, t, x, y2) by {
            if y2 >= h {
                assert(!opaque(*img, x, y2));
            }
        }
    }
    None
}

impl HuntingGame {
    /// Moves the crosshair (arrows or h/j/k/l, within the field), fires with space, or
    /// ends the hunt with Escape.
    pub fn handle_key(&mut self, key: Key)
        requires
            old(self).wf(),
        ensures
            final(self).wf(),
            old(self).finished ==> *final(self) == *old(self),
            !old(self).finished ==> match key {
                Key::Left | Key::Char('h') => *final(self) == (HuntingGame {
                    crosshair: (if old(self).crosshair.0 > 0 { (old(self).crosshair.0 - 1) as i16 } else { 0i16 }, old(self).crosshair.1),
                    ..*old(self)
                }),
                Key::Right | Key::Char('l') => *final(self) == (HuntingGame {
                    crosshair: (if old(self).crosshair.0 < 79 { (old(self).crosshair.0 + 1) as i16 } else { 79i16 }, old(self).crosshair.1),
                    ..*old(self)
                }),
                Key::Up | Key::Char('k') => *final(self) == (HuntingGame {
                    crosshair: (old(self).crosshair.0, if old(self).crosshair.1 > 0 { (old(self).crosshair.1 - 1) as i16 } else { 0i16 }),
                    ..*old(self)
                }),
                Key::Down | Key::Char('j') => *final(self) == (HuntingGame {
                    crosshair: (old(self).crosshair.0, if old(self).crosshair.1 < 22 { (old(self).crosshair.1 + 1) as i16 } else { 22i16 }),
                    ..*old(self)
                }),
                Key::Char(' ') => shot(*old(self), *final(self)),
                Key::Esc => *final(self) == (HuntingGame { finished: true, ..*old(self) }),
                _ => *final(self) == *old(self),
            },
    {
        if self.finished {
            return;
        }
        match key {
            Key::Left | Key::Char('h') => {
                self.crosshair.0 = if self.crosshair.0 > 0 { self.crosshair.0 - 1 } else { 0 };
            },
            Key::Right | Key::Char('l') => {
                self.crosshair.0 = if self.crosshair.0 < 79 { self.crosshair.0 + 1 } else { 79 };
            },
            Key::Up | Key::Char('k') => {
                self.crosshair.1 = if self.crosshair.1 > 0 { self.crosshair.1 - 1 } else { 0 };
            },
            Key::Down | Key::Char('j') => {
                self.crosshair.1 = if self.crosshair.1 < 22 { self.crosshair.1 + 1 } else { 22 };
            },
            Key::Char(' ') => self.shoot(),
            Key::Esc => {
                self.finished = true;
            },
            _ => {},
        }
    }

    /// Up to a second of ticks, stopping early when the hunt ends.
    fn advance_turn(&mut self)
        requires
            old(self).wf(),
            !old(self).finished,
        ensures
            final(self).wf(),
            turned(*old(self), *final(self)),
    {
        let ghost start = *self;
        let mut i: u16 = 0;
        while i < 30 && !self.finished
            invariant
                i <= 30,
                self.wf(),
                !start.finished,
                start.wf(),
                *self == (HuntingGame { ticks: self.ticks, finished: self.finished, targets: self.targets, ..start }),
                self.ticks == (if start.ticks + i <= u16::MAX { start.ticks + i } else { u16::MAX as int }),
                self.targets@ == walked(start.targets@, start.ticks as int, self.ticks as int),
                i == 0 ==> !self.finished,
                i > 0 ==> self.finished == (self.ticks >= 900),
                i > 1 ==> start.ticks + i - 1 < 900,
            decreases 30 - i,
        {
            let ghost before = *self;
            self.tick();
            proof {
                let t = self.ticks as int;
                if before.ticks < u16::MAX {
                    assert(t == before.ticks + 1);
                    assert(walked(start.targets@, start.ticks as int, t)
                        == (if t % 6 == 0 { walked(start.targets@, start.ticks as int, t - 1).map_values(|x: Target| stepped(x)) } else { walked(start.targets@, start.ticks as int, t - 1) }));
                    assert(self.targets@ =~= walked(start.targets@, start.ticks as int, t));
                }
            }
            i = i + 1;
        }
    }

    /// A turn of the spoken, turn-based hunt: 1 to 5 aim at the matching living animal (at
    /// the first cell of its sprite on the field) and fire, then a second passes; space
    /// lets a second pass; Escape ends the hunt.
    pub fn text_key(&mut self, key: Key)
        requires
            old(self).wf(),
        ensures
            final(self).wf(),
            old(self).finished ==> *final(self) == *old(self),
            !old(self).finished && key == Key::Char(' ') ==> turned(*old(self), *final(self)),
            !old(self).finished && key == Key::Esc ==> *final(self) == (HuntingGame { finished: true, ..*old(self) }),
            !old(self).finished && key == Key::Char(' ') ==> final(self).shots == old(self).shots,
            !old(self).finished ==> match key {
                Key::Char(c) => if '1' <= c <= '5' {
                    spoken_shot(*old(self), *final(self), c as int - '0' as int)
                } else if c == ' ' {
                    turned(*old(self), *final(self))
                } else {
                    *final(self) == *old(self)
                },
                Key::Esc => *final(self) == (HuntingGame { finished: true, ..*old(self) }),
                _ => *final(self) == *old(self),
            },
            final(self).shots <= old(self).shots + 1,
            final(self).ammo <= old(self).ammo,
    {
        if self.finished {
            return;
        }
        match key {
            Key::Char(c) => {
                if '1' <= c && c <= '5' {
                    self.text_shoot((c as u32 - '0' as u32) as usize);
                } else if c == ' ' {
                    self.advance_turn();
                }
            },
            Key::Esc => {
                self.finished = true;
            },
            _ => {},
        }
    }

    /// Aims at the `number`-th living animal and fires, then lets a second pass; nothing
    /// happens without rounds, without such an animal, or when none of its sprite is on
    /// the field.
    fn text_shoot(&mut self, number: usize)
        requires
            old(self).wf(),
            !old(self).finished,
            1 <= number <= 5,
        ensures
            final(self).wf(),
            final(self).shots <= old(self).shots + 1,
            final(self).ammo <= old(self).ammo,
            spoken_shot(*old(self), *final(self), number as int),
    {
        proof { reveal(nth_alive); }
        if self.ammo == 0 {
            return;
        }
        let mut seen: usize = 0;
        let mut found: Option<usize> = None;
        let n = self.targets.len();
        let ghost idx = Seq::new(self.targets@.len(), |k: int| k);
        let ghost p = |k: int| self.targets@[k].alive && alive_before(self.targets@, k) == number - 1;
        let mut k: usize = 0;
        while k < n && found.is_none()
            invariant
                n == self.targets@.len(),
                1 <= number <= 5,
                k <= n,
                seen == alive_before(self.targets@, k as int),
                seen <= k,
                idx == Seq::new(self.targets@.len(), |k: int| k),
                p == (|k: int| self.targets@[k].alive && alive_before(self.targets@, k) == number - 1),
                found is None ==> forall|j: int| 0 <= j < k ==> !p(#[trigger] idx[j]),
                found matches Some(f) ==> f < n && p(idx[f as int]) && forall|j: int| 0 <= j < f ==> !p(#[trigger] idx[j]),
            decreases n - k + (if found is None { 1int } else { 0int }),
        {
            assert(idx[k as int] == k);
            if self.targets[k].alive {
                if seen == number - 1 {
                    found = Some(k);
                } else {
                    seen = seen + 1;
                }
            }
            if found.is_none() {
                k = k + 1;
            }
        }
        let f = match found {
            None => {
                proof { crate::lookup::lemma_first_none(idx, p); }
                return;
            },
            Some(f) => f,
        };
        proof { crate::lookup::lemma_first_is(idx, p, f as int); }
        let t = self.targets[f];
        assert(target_ok(self.targets@[f as int]));
        let img = &self.sprites[sprite_index(t.kind, self.ticks / 5)];
        proof {
            assert(nth_alive(self.targets@, number - 1) == Some(f as int));
        }
        let aim = match visible_cell(img, t) {
            None => return,
            Some(aim) => aim,
        };
        proof {
            let (x, y) = choose|x: int, y: int| {
                &&& #[trigger] sight(*img, t, x, y)
                &&& aim_from(t, x, y) == (aim.0 as int, aim.1 as int)
                &&& forall|x2: int, y2: int| (y2 < y || (y2 == y && x2 < x)) ==> !#[trigger] sight(*img, t, x2, y2)
            };
            lemma_first_sight_unique(*img, t, x, y);
        }
        let ghost aimed = HuntingGame { crosshair: aim, ..*self };
        self.crosshair = aim;
        self.shoot();
        let ghost fired = *self;
        if !self.finished {
            self.advance_turn();
        }
        proof {
            assert(shot(aimed, fired));
        }
    }

    /// Whether the hunt is over.
    pub fn is_finished(&self) -> (r: bool)
        ensures
            r == self.finished,
    {
        self.finished
    }

    /// The hunt so far: meat in the bag and shots fired.
    pub fn result(&self) -> (r: HuntingResult)
        ensures
            r == (HuntingResult { food_lbs: self.food, shots: self.shots }),
    {
        HuntingResult { food_lbs: self.food, shots: self.shots }
    }
}

/// The name of an animal as the hunt lists it.
pub open spec fn animal_name(a: Animal) -> Seq<char> {
    match a {
        Animal::Buffalo => "Buffalo"@,
        Animal::Deer => "Deer"@,
        Animal::Bear => "Bear"@,
        Animal::Rabbit => "Rabbit"@,
        Animal::Squirrel => "Squirrel"@,
    }
}

/// The line listing living animal number `p` (from zero): its number, name and meat.
pub open spec fn animal_line(p: int, t: Target) -> Seq<char> {
    decimal((p + 1) as nat) + ". "@ + animal_name(t.kind) + ": "@ + decimal(food_of(t.kind) as nat) + " lb meat"@
}

/// The status line of the hunt: seconds left, shots, rounds and the bag.
pub open spec fn hunt_status(g: HuntingGame) -> Seq<char> {
    let left: nat = if g.ticks / 30 >= 30 { 0 } else { (30 - g.ticks / 30) as nat };
    "Time "@ + decimal(left) + "s | Shots "@ + decimal(g.shots as nat) + " | Ammo "@ + decimal(g.ammo as nat)
        + " | Bag "@ + decimal(g.food as nat) + "/"@ + decimal(g.capacity as nat)
}

proof fn lemma_alive_before_grows(ts: Seq<Target>, j: int, k: int)
    requires
        0 <= j <= k,
    ensures
        alive_before(ts, j) <= alive_before(ts, k),
        j < k && ts[j].alive ==> alive_before(ts, j) < alive_before(ts, k),
    decreases k - j,
{
    if j < k {
        lemma_alive_before_grows(ts, j, k - 1);
        if ts[j].alive && j == k - 1 {
            assert(alive_before(ts, k) == alive_before(ts, k - 1) + 1);
        }
    }
}

/// The first `listed` animal lines after the three heading lines.
pub open spec fn animal_lines(ts: Seq<Target>, lines: Seq<String>, listed: int) -> bool {
    forall|q: int| 3 <= q < 3 + listed ==> #[trigger] lists(ts, lines[q], q - 3)
}

/// `line` lists living animal number `p` (from zero).
pub open spec fn lists(ts: Seq<Target>, line: String, p: int) -> bool {
    nth_alive(ts, p) matches Some(i) && line@ == animal_line(p, ts[i])
}

proof fn lemma_listing_grows(ts: Seq<Target>, before: Seq<String>, after: Seq<String>, listed: int, k: int)
    requires
        animal_lines(ts, before, listed),
        before.len() == 3 + listed,
        after.len() == before.len() + 1,
        forall|q: int| 0 <= q < before.len() ==> after[q] == before[q],
        nth_alive(ts, listed) == Some(k),
        after[3 + listed]@ == animal_line(listed, ts[k]),
    ensures
        animal_lines(ts, after, listed + 1),
{
    assert forall|q: int| 3 <= q < 3 + listed + 1 implies #[trigger] lists(ts, after[q], q - 3) by {
        if q < 3 + listed {
            assert(after[q] == before[q]);
            assert(lists(ts, before[q], q - 3));
        }
    }
}

/// The living animal at `k` is the `alive_before(ts, k)`-th of them.
proof fn lemma_nth_alive(ts: Seq<Target>, k: int)
    requires
        0 <= k < ts.len(),
        ts[k].alive,
    ensures
        nth_alive(ts, alive_before(ts, k)) == Some(k),
{
    reveal(nth_alive);
    let idx = Seq::new(ts.len(), |j: int| j);
    let n = alive_before(ts, k);
    let pp = |j: int| ts[j].alive && alive_before(ts, j) == n;
    assert forall|j: int| 0 <= j < k implies !pp(#[trigger] idx[j]) by {
        assert(idx[j] == j);
        if ts[j].alive {
            lemma_alive_before_grows(ts, j, k);
        }
    }
    assert(idx[k] == k);
    crate::lookup::lemma_first_is(idx, pp, k);
}

fn animal_text(p: usize, t: Target) -> (r: String)
    requires
        p < 5,
    ensures
        r@ == animal_line(p as int, t),
{
    let mut line = String::new();
    push_decimal(&mut line, (p + 1) as u64);
    vstd::string::StringExecFns::append(&mut line, ". ");
    vstd::string::StringExecFns::append(&mut line, t.kind.name());
    vstd::string::StringExecFns::append(&mut line, ": ");
    push_decimal(&mut line, t.kind.food() as u64);
    vstd::string::StringExecFns::append(&mut line, " lb meat");
    proof {
        reveal_strlit(". ");
        reveal_strlit(": ");
        reveal_strlit(" lb meat");
    }
    assert(line@ =~= animal_line(p as int, t));
    line
}

impl HuntingGame {
    /// The hunt in words, for screen readers: a heading, the status, the controls, then the
    /// first five living animals with their meat, or word that none is left.
    pub fn text_lines(&self) -> (lines: Vec<String>)
        ensures
            lines@.len() >= 4,
            lines@[0]@ == "TURN-BASED HUNT"@,
            lines@[1]@ == hunt_status(*self),
            lines@[2]@ == "Choose 1-5 to shoot a living animal. Space waits one second. Esc finishes."@,
            ({
                let alive = alive_before(self.targets@, self.targets@.len() as int);
                let listed = if alive < 5 { alive } else { 5 };
                &&& lines@.len() == 3 + listed + (if alive == 0 { 1int } else { 0int })
                &&& animal_lines(self.targets@, lines@, listed)
                &&& alive == 0 ==> lines@[3]@ == "No living animals remain."@
            }),
    {
        let mut lines: Vec<String> = Vec::new();
        lines.push(String::from_str("TURN-BASED HUNT"));
        let mut status = String::from_str("Time ");
        let spent = self.ticks / 30;
        let left: u16 = if spent >= 30 { 0 } else { 30 - spent };
        push_decimal(&mut status, left as u64);
        vstd::string::StringExecFns::append(&mut status, "s | Shots ");
        push_decimal(&mut status, self.shots as u64);
        vstd::string::StringExecFns::append(&mut status, " | Ammo ");
        push_decimal(&mut status, self.ammo as u64);
        vstd::string::StringExecFns::append(&mut status, " | Bag ");
        push_decimal(&mut status, self.food as u64);
        vstd::string::StringExecFns::append(&mut status, "/");
        push_decimal(&mut status, self.capacity as u64);
        proof {
            reveal_strlit("Time ");
            reveal_strlit("s | Shots ");
            reveal_strlit(" | Ammo ");
            reveal_strlit(" | Bag ");
            reveal_strlit("/");
        }
        assert(status@ =~= hunt_status(*self));
        lines.push(status);
        lines.push(String::from_str("Choose 1-5 to shoot a living animal. Space waits one second. Esc finishes."));
        let ts = &self.targets;
        let n = ts.len();
        let ghost idx = Seq::new(ts@.len(), |k: int| k);
        let mut listed: usize = 0;
        let mut alive: usize = 0;
        let mut k: usize = 0;
        while k < n
            invariant
                n == ts@.len(),
                ts@ == self.targets@,
                idx == Seq::new(ts@.len(), |k: int| k),
                k <= n,
                alive == alive_before(ts@, k as int),
                alive <= k,
                listed == (if alive < 5 { alive } else { 5 }),
                lines@.len() == 3 + listed,
                lines@[0]@ == "TURN-BASED HUNT"@,
                lines@[1]@ == hunt_status(*self),
                lines@[2]@ == "Choose 1-5 to shoot a living animal. Space waits one second. Esc finishes."@,
                animal_lines(ts@, lines@, listed as int),
            decreases n - k,
        {
            let t = ts[k];
            if t.alive {
                if listed < 5 {
                    let line = animal_text(listed, t);
                    proof { lemma_nth_alive(ts@, k as int); }
                    let ghost old_lines = lines@;
                    lines.push(line);
                    proof { lemma_listing_grows(ts@, old_lines, lines@, listed as int, k as int); }
                    listed = listed + 1;
                }
                alive = alive + 1;
            }
            k = k + 1;
        }
        let ghost before_tail = lines@;
        if alive == 0 {
            lines.push(String::from_str("No living animals remain."));
        }
        proof {
            reveal_strlit("TURN-BASED HUNT");
            assert forall|q: int| 3 <= q < 3 + listed implies #[trigger] lists(ts@, lines@[q], q - 3) by {
                assert(lines@[q] == before_tail[q]);
                assert(lists(ts@, before_tail[q], q - 3));
            }
            assert(animal_lines(ts@, lines@, listed as int));
        }
        lines
    }
}

} // verus!
