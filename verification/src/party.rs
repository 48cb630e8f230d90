//! Traveler profiles: traits, skills, relationships, and the social life of camp.

use vstd::prelude::*;
use vstd::string::StringExecFns;
use crate::health::{PartyMember, Sex};
use crate::rng::{SimRng, moved_only, advanced, chacha_below_draw, chacha_between_draw};
use crate::tally::Tally;
use crate::text::{same, text_before, compare_text, lemma_text_before_asymmetric};

verus! {

#[derive(Debug, Clone, Copy, PartialEq, Eq, PartialOrd, Ord, Structural)]
pub enum Trait {
    Hardy,
    Sickly,
    Cheerful,
    Grumbler,
    Sharpshooter,
    Herbalist,
    Devout,
    Restless,
    Practical,
    Gentle,
    Stoic,
    Sociable,
    Cautious,
    Daring,
    Patient,
    Impulsive,
    Handy,
    Animalwise,
    Meticulous,
    Adaptable,
}

impl Trait {
    pub const ALL: [Trait; 20] = [
        Trait::Hardy,
        Trait::Sickly,
        Trait::Cheerful,
        Trait::Grumbler,
        Trait::Sharpshooter,
        Trait::Herbalist,
        Trait::Devout,
        Trait::Restless,
        Trait::Practical,
        Trait::Gentle,
        Trait::Stoic,
        Trait::Sociable,
        Trait::Cautious,
        Trait::Daring,
        Trait::Patient,
        Trait::Impulsive,
        Trait::Handy,
        Trait::Animalwise,
        Trait::Meticulous,
        Trait::Adaptable,
    ];
}

/// Every trait, in declaration order.
pub fn all_traits() -> (r: Vec<Trait>)
    ensures
        r@.len() == 20,
        forall|t: Trait| #[trigger] r@.contains(t),
        forall|i: int, j: int| 0 <= i < j < 20 ==> r@[i] != r@[j],
{
    let r = vec![
        Trait::Hardy,
        Trait::Sickly,
        Trait::Cheerful,
        Trait::Grumbler,
        Trait::Sharpshooter,
        Trait::Herbalist,
        Trait::Devout,
        Trait::Restless,
        Trait::Practical,
        Trait::Gentle,
        Trait::Stoic,
        Trait::Sociable,
        Trait::Cautious,
        Trait::Daring,
        Trait::Patient,
        Trait::Impulsive,
        Trait::Handy,
        Trait::Animalwise,
        Trait::Meticulous,
        Trait::Adaptable,
    ];
    assert forall|t: Trait| #[trigger] r@.contains(t) by {
        match t {
            Trait::Hardy => assert(r@[0] == t),
            Trait::Sickly => assert(r@[1] == t),
            Trait::Cheerful => assert(r@[2] == t),
            Trait::Grumbler => assert(r@[3] == t),
            Trait::Sharpshooter => assert(r@[4] == t),
            Trait::Herbalist => assert(r@[5] == t),
            Trait::Devout => assert(r@[6] == t),
            Trait::Restless => assert(r@[7] == t),
            Trait::Practical => assert(r@[8] == t),
            Trait::Gentle => assert(r@[9] == t),
            Trait::Stoic => assert(r@[10] == t),
            Trait::Sociable => assert(r@[11] == t),
            Trait::Cautious => assert(r@[12] == t),
            Trait::Daring => assert(r@[13] == t),
            Trait::Patient => assert(r@[14] == t),
            Trait::Impulsive => assert(r@[15] == t),
            Trait::Handy => assert(r@[16] == t),
            Trait::Animalwise => assert(r@[17] == t),
            Trait::Meticulous => assert(r@[18] == t),
            Trait::Adaptable => assert(r@[19] == t),
        }
    }
    r
}

/// Skill ranks, each a small non-negative number.
#[derive(Debug, Clone, Copy, PartialEq, Eq, Structural)]
pub struct Skills {
    pub hunting: u8,
    pub medicine: u8,
    pub repair: u8,
    pub animals: u8,
}

impl Skills {
    /// No skill at all.
    pub open spec fn none() -> Skills {
        Skills { hunting: 0, medicine: 0, repair: 0, animals: 0 }
    }
}

impl Default for Skills {
    fn default() -> (r: Self)
        ensures
            r == Skills::none(),
    {
        Skills { hunting: 0, medicine: 0, repair: 0, animals: 0 }
    }
}

/// Affinity toward other travelers by name, in `-10..=30` when set by the rules.
#[derive(Debug, PartialEq, Eq)]
pub struct Relationships {
    pub affinity: Tally<i16>,
}

impl Default for Relationships {
    fn default() -> (r: Self)
        ensures
            r.affinity.map() == Map::<Seq<char>, i16>::empty(),
    {
        Relationships { affinity: Tally::new() }
    }
}

/// The affinity `m` holds toward the traveler named `n`, zero when unrecorded.
pub open spec fn affinity_of(m: PartyMember, n: Seq<char>) -> i16 {
    if m.relationships.affinity.map().dom().contains(n) {
        m.relationships.affinity.map()[n]
    } else {
        0
    }
}

/// Morale lost on hearing of a death, deeper for closer friends.
pub open spec fn grief_for(affinity: i16) -> i16 {
    (-10 - (if affinity > 0 { affinity as int } else { 0 }) / 4) as i16
}

/// Morale lost on hearing of a death, deeper for closer friends.
pub fn grief(affinity: i16) -> (r: i16)
    ensures
        r == grief_for(affinity),
        -8201 <= r <= -10,
{
    let positive: i16 = if affinity > 0 { affinity } else { 0 };
    -10 - positive / 4
}

/// Clamps `v` into `lo..=hi`.
pub open spec fn clamp(v: int, lo: int, hi: int) -> int {
    if v < lo { lo } else if v > hi { hi } else { v }
}

/// The two traits of a leader with `occupation`.
pub open spec fn leader_traits(occupation: Seq<char>) -> (Trait, Trait) {
    if occupation == "doctor"@ {
        (Trait::Herbalist, Trait::Patient)
    } else if occupation == "hunter"@ {
        (Trait::Sharpshooter, Trait::Animalwise)
    } else if occupation == "preacher"@ {
        (Trait::Devout, Trait::Gentle)
    } else if occupation == "blacksmith"@ {
        (Trait::Handy, Trait::Practical)
    } else if occupation == "carpenter"@ {
        (Trait::Meticulous, Trait::Handy)
    } else if occupation == "farmer"@ {
        (Trait::Animalwise, Trait::Hardy)
    } else if occupation == "soldier"@ {
        (Trait::Cautious, Trait::Stoic)
    } else if occupation == "merchant"@ {
        (Trait::Sociable, Trait::Practical)
    } else {
        (Trait::Practical, Trait::Adaptable)
    }
}

fn occupation_traits(occupation: &str) -> (r: (Trait, Trait))
    ensures
        r == leader_traits(occupation@),
{
    if same(occupation, "doctor") {
        (Trait::Herbalist, Trait::Patient)
    } else if same(occupation, "hunter") {
        (Trait::Sharpshooter, Trait::Animalwise)
    } else if same(occupation, "preacher") {
        (Trait::Devout, Trait::Gentle)
    } else if same(occupation, "blacksmith") {
        (Trait::Handy, Trait::Practical)
    } else if same(occupation, "carpenter") {
        (Trait::Meticulous, Trait::Handy)
    } else if same(occupation, "farmer") {
        (Trait::Animalwise, Trait::Hardy)
    } else if same(occupation, "soldier") {
        (Trait::Cautious, Trait::Stoic)
    } else if same(occupation, "merchant") {
        (Trait::Sociable, Trait::Practical)
    } else {
        (Trait::Practical, Trait::Adaptable)
    }
}

/// The profession bonus of a leader with `occupation`.
pub open spec fn profession_skills(occupation: Seq<char>) -> Skills {
    if occupation == "doctor"@ {
        Skills { medicine: 4, ..Skills::none() }
    } else if occupation == "hunter"@ {
        Skills { hunting: 4, ..Skills::none() }
    } else if occupation == "blacksmith"@ {
        Skills { repair: 4, ..Skills::none() }
    } else if occupation == "carpenter"@ {
        Skills { repair: 3, ..Skills::none() }
    } else if occupation == "farmer"@ {
        Skills { animals: 4, ..Skills::none() }
    } else if occupation == "soldier"@ {
        Skills { hunting: 2, repair: 2, ..Skills::none() }
    } else if occupation == "preacher"@ {
        Skills { medicine: 2, ..Skills::none() }
    } else if occupation == "merchant"@ {
        Skills { animals: 1, ..Skills::none() }
    } else {
        Skills { repair: 1, ..Skills::none() }
    }
}

fn occupation_skills(occupation: &str) -> (r: Skills)
    ensures
        r == profession_skills(occupation@),
{
    let z = Skills::default();
    if same(occupation, "doctor") {
        Skills { medicine: 4, ..z }
    } else if same(occupation, "hunter") {
        Skills { hunting: 4, ..z }
    } else if same(occupation, "blacksmith") {
        Skills { repair: 4, ..z }
    } else if same(occupation, "carpenter") {
        Skills { repair: 3, ..z }
    } else if same(occupation, "farmer") {
        Skills { animals: 4, ..z }
    } else if same(occupation, "soldier") {
        Skills { hunting: 2, repair: 2, ..z }
    } else if same(occupation, "preacher") {
        Skills { medicine: 2, ..z }
    } else if same(occupation, "merchant") {
        Skills { animals: 1, ..z }
    } else {
        Skills { repair: 1, ..z }
    }
}

/// The skills a trait brings.
pub open spec fn skills_of(t: Trait) -> Skills {
    match t {
        Trait::Hardy => Skills { animals: 1, ..Skills::none() },
        Trait::Sharpshooter => Skills { hunting: 3, ..Skills::none() },
        Trait::Herbalist => Skills { medicine: 3, ..Skills::none() },
        Trait::Devout | Trait::Gentle | Trait::Patient => Skills { medicine: 1, ..Skills::none() },
        Trait::Restless | Trait::Daring => Skills { hunting: 1, ..Skills::none() },
        Trait::Practical | Trait::Stoic | Trait::Cautious | Trait::Meticulous => Skills {
            repair: 1,
            ..Skills::none()
        },
        Trait::Handy => Skills { repair: 3, ..Skills::none() },
        Trait::Animalwise | Trait::Sociable => Skills { animals: 2, ..Skills::none() },
        Trait::Adaptable => Skills { hunting: 1, medicine: 1, repair: 1, animals: 1 },
        Trait::Sickly | Trait::Cheerful | Trait::Grumbler | Trait::Impulsive => Skills::none(),
    }
}

fn trait_skills(t: Trait) -> (r: Skills)
    ensures
        r == skills_of(t),
{
    let z = Skills::default();
    match t {
        Trait::Hardy => Skills { animals: 1, ..z },
        Trait::Sharpshooter => Skills { hunting: 3, ..z },
        Trait::Herbalist => Skills { medicine: 3, ..z },
        Trait::Devout | Trait::Gentle | Trait::Patient => Skills { medicine: 1, ..z },
        Trait::Restless | Trait::Daring => Skills { hunting: 1, ..z },
        Trait::Practical | Trait::Stoic | Trait::Cautious | Trait::Meticulous => Skills {
            repair: 1,
            ..z
        },
        Trait::Handy => Skills { repair: 3, ..z },
        Trait::Animalwise | Trait::Sociable => Skills { animals: 2, ..z },
        Trait::Adaptable => Skills { hunting: 1, medicine: 1, repair: 1, animals: 1 },
        Trait::Sickly | Trait::Cheerful | Trait::Grumbler | Trait::Impulsive => z,
    }
}

/// Saturating sum of two skill sets.
pub open spec fn skills_plus(a: Skills, b: Skills) -> Skills {
    Skills {
        hunting: clamp(a.hunting + b.hunting, 0, 255) as u8,
        medicine: clamp(a.medicine + b.medicine, 0, 255) as u8,
        repair: clamp(a.repair + b.repair, 0, 255) as u8,
        animals: clamp(a.animals + b.animals, 0, 255) as u8,
    }
}

fn add_skills(target: &mut Skills, bonus: Skills)
    ensures
        *final(target) == skills_plus(*old(target), bonus),
{
    target.hunting = target.hunting.saturating_add(bonus.hunting);
    target.medicine = target.medicine.saturating_add(bonus.medicine);
    target.repair = target.repair.saturating_add(bonus.repair);
    target.animals = target.animals.saturating_add(bonus.animals);
}

/// Starting morale a trait adds.
pub open spec fn morale_of(t: Trait) -> int {
    match t {
        Trait::Cheerful | Trait::Devout | Trait::Gentle | Trait::Patient => 3,
        Trait::Grumbler | Trait::Sickly | Trait::Impulsive => -3,
        Trait::Stoic => 1,
        _ => 0,
    }
}

fn starting_morale(t: Trait) -> (r: i16)
    ensures
        r as int == morale_of(t),
{
    match t {
        Trait::Cheerful | Trait::Devout | Trait::Gentle | Trait::Patient => 3,
        Trait::Grumbler | Trait::Sickly | Trait::Impulsive => -3,
        Trait::Stoic => 1,
        _ => 0,
    }
}

/// A trait's daily morale change under the day's conditions.
pub open spec fn day_morale(t: Trait, resting: bool, filling: bool, varied: bool) -> int {
    match t {
        Trait::Hardy => if !filling { 1 } else { 0 },
        Trait::Sickly => if !filling { -1 } else { 0 },
        Trait::Cheerful => if filling { 1 } else { 0 },
        Trait::Grumbler => if !varied { -1 } else { 0 },
        Trait::Devout => if resting { 1 } else { 0 },
        Trait::Restless => if resting { -1 } else { 1 },
        Trait::Stoic => if !filling { 1 } else { 0 },
        Trait::Sociable => if varied { 1 } else { 0 },
        Trait::Cautious => if !resting && !filling { -1 } else { 0 },
        Trait::Daring => if !resting { 1 } else { 0 },
        Trait::Patient => if resting { 1 } else { 0 },
        Trait::Impulsive => if !varied { -1 } else { 0 },
        Trait::Adaptable => if varied { 1 } else { 0 },
        _ => 0,
    }
}

fn daily_morale(t: Trait, resting: bool, filling: bool, varied: bool) -> (r: i16)
    ensures
        r as int == day_morale(t, resting, filling, varied),
{
    match t {
        Trait::Hardy if !filling => 1,
        Trait::Sickly if !filling => -1,
        Trait::Cheerful if filling => 1,
        Trait::Grumbler if !varied => -1,
        Trait::Devout if resting => 1,
        Trait::Restless if resting => -1,
        Trait::Restless => 1,
        Trait::Stoic if !filling => 1,
        Trait::Sociable if varied => 1,
        Trait::Cautious if !resting && !filling => -1,
        Trait::Daring if !resting => 1,
        Trait::Patient if resting => 1,
        Trait::Impulsive if !varied => -1,
        Trait::Adaptable if varied => 1,
        _ => 0,
    }
}

/// How much a trait eases or strains company.
pub open spec fn social_of(t: Trait) -> int {
    match t {
        Trait::Cheerful | Trait::Gentle => 3,
        Trait::Devout | Trait::Sociable | Trait::Patient => 2,
        Trait::Stoic | Trait::Cautious => 1,
        Trait::Grumbler => -3,
        Trait::Impulsive => -2,
        Trait::Restless | Trait::Daring => -1,
        _ => 0,
    }
}

/// Sum of the social weights of `traits`.
pub open spec fn social_sum(traits: Seq<Trait>) -> int
    decreases traits.len(),
{
    if traits.len() == 0 {
        0
    } else {
        social_sum(traits.drop_last()) + social_of(traits.last())
    }
}

proof fn lemma_social_sum_bounds(traits: Seq<Trait>)
    ensures
        -3 * traits.len() <= social_sum(traits) <= 3 * traits.len(),
    decreases traits.len(),
{
    if traits.len() > 0 {
        lemma_social_sum_bounds(traits.drop_last());
    }
}

/// The social weight of a set of traits.
pub fn social_weight(traits: &Vec<Trait>) -> (r: i16)
    requires
        traits@.len() <= 10_000,
    ensures
        r as int == social_sum(traits@),
{
    let mut total: i16 = 0;
    let mut i: usize = 0;
    while i < traits.len()
        invariant
            i <= traits@.len(),
            traits@.len() <= 10_000,
            total as int == social_sum(traits@.subrange(0, i as int)),
        decreases traits@.len() - i,
    {
        proof {
            lemma_social_sum_bounds(traits@.subrange(0, i as int));
            assert(traits@.subrange(0, (i + 1) as int).drop_last() =~= traits@.subrange(0, i as int));
        }
        let w: i16 = match traits[i] {
            Trait::Cheerful | Trait::Gentle => 3,
            Trait::Devout | Trait::Sociable | Trait::Patient => 2,
            Trait::Stoic | Trait::Cautious => 1,
            Trait::Grumbler => -3,
            Trait::Impulsive => -2,
            Trait::Restless | Trait::Daring => -1,
            _ => 0,
        };
        total = total + w;
        i = i + 1;
    }
    assert(traits@.subrange(0, traits@.len() as int) =~= traits@);
    total
}

/// Whether a trait changes a profile or some day's morale.
pub open spec fn has_effect(t: Trait) -> bool {
    skills_of(t) != Skills::none() || morale_of(t) != 0 || day_morale(t, true, true, true) != 0
        || day_morale(t, false, false, false) != 0 || social_of(t) != 0
}

/// Whether a trait changes a profile or some day's morale.
pub fn trait_has_effect(t: Trait) -> (r: bool)
    ensures
        r == has_effect(t),
{
    let v = vec![t];
    let sw = social_weight(&v);
    proof {
        reveal_with_fuel(social_sum, 2);
        assert(v@.drop_last() =~= Seq::<Trait>::empty());
    }
    trait_skills(t) != Skills::default() || starting_morale(t) != 0 || daily_morale(t, true, true, true)
        != 0 || daily_morale(t, false, false, false) != 0 || sw != 0
}

/// Every trait has some modeled effect.
pub proof fn lemma_every_trait_has_effect(t: Trait)
    ensures
        has_effect(t),
{
}

/// The line written when `mourner` grieves `name`.
pub open spec fn mourning_line(mourner: Seq<char>, name: Seq<char>) -> Seq<char> {
    mourner + " mourns "@ + name + "."@
}

/// How many names of `s` come before `k` in dictionary order, counted from the front.
pub open spec fn name_place(s: Seq<Seq<char>>, k: Seq<char>) -> nat
    decreases s.len(),
{
    if s.len() == 0 || !text_before(s[0], k) { 0 } else { 1 + name_place(s.drop_first(), k) }
}

/// The names `s` with `k` put in its place, unless it is already there.
pub open spec fn name_added(s: Seq<Seq<char>>, k: Seq<char>) -> Seq<Seq<char>> {
    let i = name_place(s, k) as int;
    if i < s.len() && s[i] == k { s } else { s.insert(i, k) }
}

/// The distinct names of `d`, each once, in dictionary order.
pub open spec fn names_in_order(d: Seq<String>) -> Seq<Seq<char>>
    decreases d.len(),
{
    if d.len() == 0 { Seq::empty() } else { name_added(names_in_order(d.drop_last()), d.last()@) }
}

/// The texts of `v`.
pub open spec fn texts(v: Seq<String>) -> Seq<Seq<char>> {
    v.map_values(|t: String| t@)
}

proof fn lemma_name_place(s: Seq<Seq<char>>, k: Seq<char>, i: int)
    requires
        0 <= i <= s.len(),
        forall|j: int| 0 <= j < i ==> text_before(#[trigger] s[j], k),
        i == s.len() || !text_before(s[i], k),
    ensures
        name_place(s, k) == i,
    decreases i,
{
    if i > 0 {
        let t = s.drop_first();
        assert forall|j: int| 0 <= j < i - 1 implies text_before(#[trigger] t[j], k) by {
            assert(t[j] == s[j + 1]);
        }
        if i - 1 < t.len() {
            assert(t[i - 1] == s[i]);
        }
        lemma_name_place(t, k, i - 1);
        assert(text_before(s[0], k));
    }
}

/// The distinct names of `names`, each once, in dictionary order.
fn ordered_names(names: &Vec<String>) -> (r: Vec<String>)
    ensures
        texts(r@) == names_in_order(names@),
{
    let mut r: Vec<String> = Vec::new();
    let mut d: usize = 0;
    while d < names.len()
        invariant
            d <= names@.len(),
            texts(r@) == names_in_order(names@.take(d as int)),
        decreases names@.len() - d,
    {
        let ghost s = texts(r@);
        let k = names[d].as_str();
        proof {
            assert(names@.take(d + 1).drop_last() =~= names@.take(d as int));
            assert(names@.take(d + 1).last() == names@[d as int]);
        }
        let mut i: usize = 0;
        let mut go = true;
        let mut last: i8 = -1;
        while go && i < r.len()
            invariant
                s == texts(r@),
                i <= r@.len(),
                k@ == names@[d as int]@,
                forall|j: int| 0 <= j < i ==> text_before(#[trigger] s[j], k@),
                !go ==> i < r@.len() && ((last == 0 && s[i as int] == k@) || (last == 1 && text_before(k@, s[i as int]))),
            decreases r@.len() - i + (if go { 1int } else { 0int }),
        {
            let c = compare_text(r[i].as_str(), k);
            if c == -1 {
                i = i + 1;
            } else {
                last = c;
                go = false;
            }
        }
        proof {
            if !go {
                lemma_text_before_asymmetric(k@, s[i as int]);
                lemma_text_before_asymmetric(s[i as int], s[i as int]);
            }
            lemma_name_place(s, k@, i as int);
        }
        if go || last != 0 {
            r.insert(i, names[d].clone());
            assert(texts(r@) =~= s.insert(i as int, k@));
        }
        d = d + 1;
    }
    assert(names@.take(names@.len() as int) =~= names@);
    r
}

/// The morale of `m` after grieving each of `names` in turn, passing over their own
/// name: each death costs grief by affinity, within `0..=100`.
pub open spec fn grieved(m: PartyMember, names: Seq<Seq<char>>) -> i16
    decreases names.len(),
{
    if names.len() == 0 {
        m.morale
    } else {
        let before = grieved(m, names.drop_last());
        if m.name@ == names.last() {
            before
        } else {
            clamp(before + grief_for(affinity_of(m, names.last())), 0, 100) as i16
        }
    }
}

/// The lines `m` writes on grieving `names`: one per name other than their own.
pub open spec fn member_lines(m: PartyMember, names: Seq<Seq<char>>) -> Seq<Seq<char>>
    decreases names.len(),
{
    if names.len() == 0 {
        Seq::empty()
    } else {
        let r = member_lines(m, names.drop_last());
        if m.name@ == names.last() { r } else { r.push(mourning_line(m.name@, names.last())) }
    }
}

/// The lines the living of `party` write, member by member, on grieving `names`.
pub open spec fn mourning_lines(party: Seq<PartyMember>, names: Seq<Seq<char>>) -> Seq<Seq<char>>
    decreases party.len(),
{
    if party.len() == 0 {
        Seq::empty()
    } else {
        mourning_lines(party.drop_last(), names)
            + if party.last().alive { member_lines(party.last(), names) } else { Seq::empty() }
    }
}

/// A member after mourning `names`: the living grieve, the dead are as they were.
pub open spec fn after_mourning(m: PartyMember, names: Seq<Seq<char>>) -> PartyMember {
    if m.alive { PartyMember { morale: grieved(m, names), ..m } } else { m }
}

proof fn lemma_grieved_bounds(m: PartyMember, names: Seq<Seq<char>>)
    ensures
        grieved(m, names) == m.morale || 0 <= grieved(m, names) <= 100,
    decreases names.len(),
{
    if names.len() > 0 {
        lemma_grieved_bounds(m, names.drop_last());
    }
}

/// Applies grief for newly reported deaths; the caller supplies each death once.
/// Each living member other than the deceased loses morale per death, scaled by
/// their affinity, and one line is written per mourner and death, the deaths taken in
/// dictionary order of their names.
pub fn mourn(party: &mut Vec<PartyMember>, deceased: &Vec<String>) -> (messages: Vec<String>)
    requires
        forall|i: int| 0 <= i < old(party)@.len() ==> #[trigger] old(party)@[i].morale >= i16::MIN + 8201,
    ensures
        final(party)@.len() == old(party)@.len(),
        forall|i: int| 0 <= i < old(party)@.len() ==>
            #[trigger] final(party)@[i] == after_mourning(old(party)@[i], names_in_order(deceased@)),
        texts(messages@) == mourning_lines(old(party)@, names_in_order(deceased@)),
{
    let names = ordered_names(deceased);
    let ghost ns = names_in_order(deceased@);
    let mut messages: Vec<String> = Vec::new();
    let mut i: usize = 0;
    let ghost start = party@;
    while i < party.len()
        invariant
            ns == texts(names@),
            i <= party@.len(),
            party@.len() == start.len(),
            forall|j: int| i <= j < party@.len() ==> #[trigger] party@[j] == start[j],
            forall|j: int| 0 <= j < start.len() ==> #[trigger] start[j].morale >= i16::MIN + 8201,
            forall|j: int| 0 <= j < i ==> #[trigger] party@[j] == after_mourning(start[j], ns),
            texts(messages@) == mourning_lines(start.take(i as int), ns),
        decreases party@.len() - i,
    {
        proof {
            assert(start.take(i + 1).drop_last() =~= start.take(i as int));
            assert(start.take(i + 1).last() == start[i as int]);
        }
        let ghost outer_lines = texts(messages@);
        if party[i].alive {
            let ghost outer = party@;
            let mut n: usize = 0;
            while n < names.len()
                invariant
                    ns == texts(names@),
                    i < party@.len(),
                    party@.len() == start.len(),
                    outer.len() == start.len(),
                    forall|j: int| 0 <= j < party@.len() && j != i ==> #[trigger] party@[j] == outer[j],
                    outer[i as int] == start[i as int],
                    start[i as int].alive,
                    start[i as int].morale >= i16::MIN + 8201,
                    n <= names@.len(),
                    party@[i as int] == (PartyMember { morale: grieved(start[i as int], ns.take(n as int)), ..start[i as int] }),
                    texts(messages@) == outer_lines + member_lines(start[i as int], ns.take(n as int)),
                decreases names@.len() - n,
            {
                proof {
                    assert(ns.take(n + 1).drop_last() =~= ns.take(n as int));
                    assert(ns.take(n + 1).last() == names@[n as int]@);
                    lemma_grieved_bounds(start[i as int], ns.take(n as int));
                }
                if !same(party[i].name.as_str(), names[n].as_str()) {
                    let affinity = match party[i].relationships.affinity.get(names[n].as_str()) {
                        Some(a) => a,
                        None => 0,
                    };
                    let g = grief(affinity);
                    let m = party[i].morale + g;
                    party[i].morale = if m < 0 { 0 } else if m > 100 { 100 } else { m };
                    let mut line = party[i].name.clone();
                    line.append(" mourns ");
                    line.append(names[n].as_str());
                    line.append(".");
                    let ghost before = texts(messages@);
                    messages.push(line);
                    proof {
                        assert(texts(messages@) =~= before.push(line@));
                        assert(line@ =~= mourning_line(start[i as int].name@, names@[n as int]@));
                    }
                }
                n = n + 1;
            }
            proof {
                assert(ns.take(names@.len() as int) =~= ns);
            }
        }
        proof {
            assert(texts(messages@) =~= mourning_lines(start.take(i + 1), ns));
        }
        i = i + 1;
    }
    proof {
        assert(start.take(start.len() as int) =~= start);
    }
    messages
}

/// No two members share a name.
pub open spec fn distinct_names(party: Seq<PartyMember>) -> bool {
    forall|i: int, j: int| 0 <= i < party.len() && 0 <= j < party.len() && i != j ==> #[trigger] party[i].name@ != #[trigger] party[j].name@
}

/// Every pair of members holds the same affinity toward each other.
pub open spec fn symmetric(party: Seq<PartyMember>) -> bool {
    forall|i: int, j: int| 0 <= i < party.len() && 0 <= j < party.len() && i != j ==>
        affinity_of(#[trigger] party[i], party[j].name@) == affinity_of(#[trigger] party[j], party[i].name@)
}

/// Every recorded affinity lies in `-10..=30`.
pub open spec fn affinities_bounded(party: Seq<PartyMember>) -> bool {
    forall|i: int, k: Seq<char>| 0 <= i < party.len() && #[trigger] party[i].relationships.affinity.map().dom().contains(k)
        ==> -10 <= party[i].relationships.affinity.map()[k] <= 30
}

/// Only affinities changed between `before` and `after`.
pub open spec fn same_but_affinity(before: PartyMember, after: PartyMember) -> bool {
    &&& after.name == before.name
    &&& after.health == before.health
    &&& after.morale == before.morale
    &&& after.alive == before.alive
    &&& after.age == before.age
    &&& after.sex == before.sex
    &&& after.traits == before.traits
    &&& after.skills == before.skills
    &&& after.ailments == before.ailments
}

/// Sets the mutual affinity of members `left` and `right` to `value`.
fn set_mutual(party: &mut Vec<PartyMember>, left: usize, right: usize, value: i16)
    requires
        left < old(party)@.len(),
        right < old(party)@.len(),
        left != right,
        -10 <= value <= 30,
        affinities_bounded(old(party)@),
    ensures
        final(party)@.len() == old(party)@.len(),
        distinct_names(old(party)@) ==> distinct_names(final(party)@),
        distinct_names(old(party)@) && symmetric(old(party)@) ==> symmetric(final(party)@),
        affinities_bounded(final(party)@),
        distinct_names(old(party)@) ==> affinity_of(final(party)@[left as int], old(party)@[right as int].name@) == value,
        forall|j: int| 0 <= j < old(party)@.len() && j != left && j != right ==> #[trigger] final(party)@[j] == old(party)@[j],
        forall|j: int| 0 <= j < old(party)@.len() ==> same_but_affinity(#[trigger] old(party)@[j], final(party)@[j]),
        forall|k: Seq<char>| #[trigger] affinity_of(final(party)@[left as int], k)
            == if k == old(party)@[right as int].name@ { value } else { affinity_of(old(party)@[left as int], k) },
        forall|k: Seq<char>| #[trigger] affinity_of(final(party)@[right as int], k)
            == if k == old(party)@[left as int].name@ { value } else { affinity_of(old(party)@[right as int], k) },
        final(party)@[left as int].relationships.affinity.map()
            == old(party)@[left as int].relationships.affinity.map().insert(old(party)@[right as int].name@, value),
        final(party)@[right as int].relationships.affinity.map()
            == old(party)@[right as int].relationships.affinity.map().insert(old(party)@[left as int].name@, value),
{
    let ghost before = party@;
    let left_name = party[left].name.clone();
    let right_name = party[right].name.clone();
    party[left].relationships.affinity.set(right_name.as_str(), value);
    party[right].relationships.affinity.set(left_name.as_str(), value);
    proof {
        let after = party@;
        if distinct_names(before) && symmetric(before) {
        assert forall|i: int, j: int| 0 <= i < after.len() && 0 <= j < after.len() && i != j implies
            affinity_of(#[trigger] after[i], after[j].name@) == affinity_of(#[trigger] after[j], after[i].name@) by {
            assert(after[i].name == before[i].name);
            assert(after[j].name == before[j].name);
            assert(affinity_of(before[i], before[j].name@) == affinity_of(before[j], before[i].name@));
        }
        }
        assert forall|i: int, k: Seq<char>| 0 <= i < after.len() && #[trigger] after[i].relationships.affinity.map().dom().contains(k)
            implies -10 <= after[i].relationships.affinity.map()[k] <= 30 by {
            if i != left && i != right {
                assert(after[i] == before[i]);
            }
        }
        if distinct_names(before) {
            assert forall|i: int, j: int| 0 <= i < after.len() && 0 <= j < after.len() && i != j implies #[trigger] after[i].name@ != #[trigger] after[j].name@ by {
                assert(after[i].name == before[i].name);
                assert(after[j].name == before[j].name);
            }
        }
    }
}

/// Shifts the mutual affinity of `left` and `right` by `change`, clamped to `-10..=30`.
fn adjust_affinity(party: &mut Vec<PartyMember>, left: usize, right: usize, change: i16)
    requires
        left < old(party)@.len(),
        right < old(party)@.len(),
        left != right,
        affinities_bounded(old(party)@),
        -3 <= change <= 3,
    ensures
        final(party)@.len() == old(party)@.len(),
        distinct_names(old(party)@) ==> distinct_names(final(party)@),
        distinct_names(old(party)@) && symmetric(old(party)@) ==> symmetric(final(party)@),
        affinities_bounded(final(party)@),
        distinct_names(old(party)@) ==> affinity_of(final(party)@[left as int], old(party)@[right as int].name@) == clamp(
            affinity_of(old(party)@[left as int], old(party)@[right as int].name@) + change, -10, 30),
        forall|j: int| 0 <= j < old(party)@.len() && j != left && j != right ==> #[trigger] final(party)@[j] == old(party)@[j],
        forall|j: int| 0 <= j < old(party)@.len() ==> same_but_affinity(#[trigger] old(party)@[j], final(party)@[j]),
        final(party)@[left as int].relationships.affinity.map()
            == old(party)@[left as int].relationships.affinity.map().insert(old(party)@[right as int].name@,
                clamp(affinity_of(old(party)@[left as int], old(party)@[right as int].name@) + change, -10, 30) as i16),
        final(party)@[right as int].relationships.affinity.map()
            == old(party)@[right as int].relationships.affinity.map().insert(old(party)@[left as int].name@,
                clamp(affinity_of(old(party)@[left as int], old(party)@[right as int].name@) + change, -10, 30) as i16),
{
    let current = match party[left].relationships.affinity.get(party[right].name.as_str()) {
        Some(a) => a,
        None => 0,
    };
    let raw = current + change;
    let affinity = if raw < -10 { -10 } else if raw > 30 { 30 } else { raw };
    set_mutual(party, left, right, affinity);
}

/// The affinity a pair of travelers `a` and `b` start with when their roll is `roll`:
/// the roll and both travelers' social weights, within `-10..=30`.
pub open spec fn seeded_affinity(roll: int, a: PartyMember, b: PartyMember) -> int {
    clamp(roll + social_sum(a.traits@) + social_sum(b.traits@), -10, 30)
}

/// The pair of positions `p` and `q` comes before the pair (`left`, `right`) in the
/// order pairs are seeded: by the lower position, then the higher.
pub open spec fn pair_done(p: int, q: int, left: int, right: int) -> bool {
    let lo = if p < q { p } else { q };
    let hi = if p < q { q } else { p };
    lo < left || (lo == left && hi < right)
}

/// `now` is `start` with the pairs before (`left`, `right`) seeded, each with some roll
/// in `-6..=12` (an affinity between what the lowest and the highest roll give), and
/// every other affinity as it was.
pub open spec fn seeded_up_to(start: Seq<PartyMember>, now: Seq<PartyMember>, left: int, right: int) -> bool {
    &&& forall|p: int, q: int| 0 <= p < start.len() && 0 <= q < start.len() && p != q && pair_done(p, q, left, right)
        ==> seeded_affinity(-6, start[p], start[q]) <= #[trigger] affinity_of(now[p], start[q].name@)
            <= seeded_affinity(12, start[p], start[q])
    &&& forall|p: int, q: int| 0 <= p < start.len() && 0 <= q < start.len() && p != q && !pair_done(p, q, left, right)
        ==> #[trigger] affinity_of(now[p], start[q].name@) == affinity_of(start[p], start[q].name@)
    &&& forall|p: int, k: Seq<char>| 0 <= p < start.len() && (forall|q: int| 0 <= q < start.len() && q != p ==> start[q].name@ != k)
        ==> #[trigger] affinity_of(now[p], k) == affinity_of(start[p], k)
}

/// Seeds the mutual affinities of every pair from their traits and a roll in `-6..=12`.
fn initialize_relationships(party: &mut Vec<PartyMember>, rng: &mut SimRng)
    requires
        old(rng).wf(),
        affinities_bounded(old(party)@),
        forall|i: int| 0 <= i < old(party)@.len() ==> (#[trigger] old(party)@[i]).traits@.len() <= 10_000,
    ensures
        final(rng).wf(),
        final(rng).master() == old(rng).master(),
        final(party)@.len() == old(party)@.len(),
        distinct_names(old(party)@) ==> distinct_names(final(party)@),
        distinct_names(old(party)@) && symmetric(old(party)@) ==> symmetric(final(party)@),
        affinities_bounded(final(party)@),
        forall|j: int| 0 <= j < old(party)@.len() ==> same_but_affinity(#[trigger] old(party)@[j], final(party)@[j]),
        distinct_names(old(party)@) ==> seeded_up_to(old(party)@, final(party)@, old(party)@.len() as int,
            old(party)@.len() + 1int),
{
    let ghost start = party@;
    let mut left: usize = 0;
    while left < party.len()
        invariant
            rng.wf(),
            rng.master() == old(rng).master(),
            party@.len() == start.len(),
            distinct_names(start) ==> distinct_names(party@),
            distinct_names(start) && symmetric(start) ==> symmetric(party@),
            affinities_bounded(party@),
            forall|j: int| 0 <= j < start.len() ==> same_but_affinity(#[trigger] start[j], party@[j]),
            forall|i: int| 0 <= i < start.len() ==> (#[trigger] start[i]).traits@.len() <= 10_000,
            left <= start.len(),
            distinct_names(start) ==> seeded_up_to(start, party@, left as int, left + 1),
        decreases party@.len() - left,
    {
        let mut right: usize = left + 1;
        while right < party.len()
            invariant
                left < party@.len(),
                left < right,
                rng.wf(),
                rng.master() == old(rng).master(),
                party@.len() == start.len(),
                distinct_names(start) ==> distinct_names(party@),
                distinct_names(start) && symmetric(start) ==> symmetric(party@),
                affinities_bounded(party@),
                forall|j: int| 0 <= j < start.len() ==> same_but_affinity(#[trigger] start[j], party@[j]),
                forall|i: int| 0 <= i < start.len() ==> (#[trigger] start[i]).traits@.len() <= 10_000,
                right <= start.len(),
                distinct_names(start) ==> seeded_up_to(start, party@, left as int, right as int),
            decreases party@.len() - right,
        {
            assert(same_but_affinity(start[left as int], party@[left as int]));
            assert(same_but_affinity(start[right as int], party@[right as int]));
            if same(party[left].name.as_str(), party[right].name.as_str()) {
                right = right + 1;
                continue;
            }
            let random = rng.roll_between("party-relationships", -6, 13);
            let a = social_weight(&party[left].traits);
            let b = social_weight(&party[right].traits);
            proof {
                lemma_social_sum_bounds(party@[left as int].traits@);
                lemma_social_sum_bounds(party@[right as int].traits@);
            }
            let raw = random as i32 + a as i32 + b as i32;
            let affinity: i16 = if raw < -10 { -10 } else if raw > 30 { 30 } else { raw as i16 };
            let ghost before = party@;
            set_mutual(party, left, right, affinity);
            proof {
                if distinct_names(start) {
                    assert(affinity == seeded_affinity(random as int, start[left as int], start[right as int]));
                    lemma_seed_step(start, before, party@, left as int, right as int, affinity, random as int);
                }
            }
            right = right + 1;
        }
        proof {
            if distinct_names(start) {
                lemma_seeded_shift(start, party@, left as int);
            }
        }
        left = left + 1;
    }
}

proof fn lemma_seeded_shift(start: Seq<PartyMember>, now: Seq<PartyMember>, left: int)
    requires
        0 <= left < start.len(),
        seeded_up_to(start, now, left, start.len() as int),
    ensures
        seeded_up_to(start, now, left + 1, left + 2),
{
    assert forall|p: int, q: int| 0 <= p < start.len() && 0 <= q < start.len() && p != q
        implies pair_done(p, q, left, start.len() as int) == pair_done(p, q, left + 1, left + 2) by {
    }
}

proof fn lemma_seed_step(start: Seq<PartyMember>, before: Seq<PartyMember>, after: Seq<PartyMember>, l: int, r: int,
    value: i16, roll: int)
    requires
        distinct_names(start),
        0 <= l < r < start.len(),
        before.len() == start.len(),
        after.len() == start.len(),
        seeded_up_to(start, before, l, r),
        forall|j: int| 0 <= j < start.len() ==> same_but_affinity(#[trigger] start[j], before[j]),
        forall|j: int| 0 <= j < start.len() && j != l && j != r ==> #[trigger] after[j] == before[j],
        forall|k: Seq<char>| #[trigger] affinity_of(after[l], k)
            == if k == before[r].name@ { value } else { affinity_of(before[l], k) },
        forall|k: Seq<char>| #[trigger] affinity_of(after[r], k)
            == if k == before[l].name@ { value } else { affinity_of(before[r], k) },
        -6 <= roll <= 12,
        value == seeded_affinity(roll, start[l], start[r]),
    ensures
        seeded_up_to(start, after, l, r + 1),
{
    assert(same_but_affinity(start[l], before[l]));
    assert(same_but_affinity(start[r], before[r]));
    assert forall|p: int, q: int| 0 <= p < start.len() && 0 <= q < start.len() && p != q && pair_done(p, q, l, r + 1)
        implies seeded_affinity(-6, start[p], start[q]) <= #[trigger] affinity_of(after[p], start[q].name@)
            <= seeded_affinity(12, start[p], start[q]) by {
        if (p == l && q == r) || (p == r && q == l) {
            assert(affinity_of(after[p], start[q].name@) == seeded_affinity(roll, start[p], start[q]));
        } else {
            assert(pair_done(p, q, l, r));
            if p == l {
                assert(start[q].name@ != start[r].name@);
            } else if p == r {
                assert(start[q].name@ != start[l].name@);
            }
            assert(affinity_of(after[p], start[q].name@) == affinity_of(before[p], start[q].name@));
        }
    }
    assert forall|p: int, q: int| 0 <= p < start.len() && 0 <= q < start.len() && p != q && !pair_done(p, q, l, r + 1)
        implies #[trigger] affinity_of(after[p], start[q].name@) == affinity_of(start[p], start[q].name@) by {
        assert(!pair_done(p, q, l, r));
        if p == l {
            assert(start[q].name@ != start[r].name@);
        } else if p == r {
            assert(start[q].name@ != start[l].name@);
        }
    }
    assert forall|p: int, k: Seq<char>| 0 <= p < start.len() && (forall|q: int| 0 <= q < start.len() && q != p ==> start[q].name@ != k)
        implies #[trigger] affinity_of(after[p], k) == affinity_of(start[p], k) by {
        if p == l {
            assert(start[r].name@ != k);
        } else if p == r {
            assert(start[l].name@ != k);
        }
    }
    assert(seeded_up_to(start, after, l, r + 1));
}


/// Skills a traveler with `traits` has before any profession bonus.
pub open spec fn skills_from(traits: Seq<Trait>) -> Skills
    decreases traits.len(),
{
    if traits.len() == 0 {
        Skills::none()
    } else {
        skills_plus(skills_from(traits.drop_last()), skills_of(traits.last()))
    }
}

/// Starting morale of a traveler with `traits`.
pub open spec fn starting_morale_of(traits: Seq<Trait>) -> int {
    clamp(52 + morale_sum(traits), 35, 70)
}

/// Sum of the starting morale the traits add.
pub open spec fn morale_sum(traits: Seq<Trait>) -> int
    decreases traits.len(),
{
    if traits.len() == 0 {
        0
    } else {
        morale_sum(traits.drop_last()) + morale_of(traits.last())
    }
}

/// The profile a traveler receives from `initialize`.
pub open spec fn profiled(before: PartyMember, after: PartyMember, index: int, occupation: Seq<char>) -> bool {
    let leader = index == 0;
    &&& after.name == before.name
    &&& after.health == before.health
    &&& after.alive == before.alive
    &&& after.ailments == before.ailments
    &&& 18 <= after.age <= 65
    &&& after.traits@.len() == 2
    &&& after.morale == starting_morale_of(after.traits@)
    &&& leader ==> after.traits@ == seq![leader_traits(occupation).0, leader_traits(occupation).1]
    &&& leader ==> after.skills == skills_plus(skills_from(after.traits@), profession_skills(occupation))
    &&& !leader ==> after.skills == skills_from(after.traits@)
}

/// Pops two traits, refilling and reshuffling the pool when fewer than two remain.
fn next_pair(available: &mut Vec<Trait>, rng: &mut SimRng) -> (r: Vec<Trait>)
    requires
        old(rng).wf(),
    ensures
        r@.len() == 2,
        final(rng).wf(),
        final(rng).master() == old(rng).master(),
{
    if available.len() < 2 {
        *available = all_traits();
        rng.shuffle("party-profile", available);
    }
    let a = available.pop().unwrap();
    let b = available.pop().unwrap();
    vec![a, b]
}

/// Builds the skills and morale of a traveler from their traits.
fn profile(traits: &Vec<Trait>) -> (r: (Skills, i16))
    requires
        traits@.len() == 2,
    ensures
        r.0 == skills_from(traits@),
        r.1 == starting_morale_of(traits@),
{
    let mut skills = Skills::default();
    add_skills(&mut skills, trait_skills(traits[0]));
    add_skills(&mut skills, trait_skills(traits[1]));
    let morale = 52 + starting_morale(traits[0]) + starting_morale(traits[1]);
    let morale = if morale < 35 { 35 } else if morale > 70 { 70 } else { morale };
    proof {
        reveal_with_fuel(skills_from, 3);
        reveal_with_fuel(morale_sum, 3);
        assert(traits@.drop_last().drop_last() =~= Seq::<Trait>::empty());
    }
    (skills, morale)
}

/// Assigns a reproducible, varied profile to a newly configured party. The leader
/// receives the occupation's traits and skill bonus; companions draw two traits each
/// from a shuffled pool. Ages lie in `18..=65`, and every pair gets a mutual affinity.
pub fn initialize(party: &mut Vec<PartyMember>, occupation: &str, rng: &mut SimRng)
    requires
        old(rng).wf(),
    ensures
        final(rng).wf(),
        final(rng).master() == old(rng).master(),
        final(party)@.len() == old(party)@.len(),
        forall|i: int| 0 <= i < old(party)@.len() ==> #[trigger] profiled(old(party)@[i], final(party)@[i], i, occupation@),
        affinities_bounded(final(party)@),
        distinct_names(old(party)@) ==> symmetric(final(party)@),
{
    if party.len() == 0 {
        return;
    }
    let leader = occupation_traits(occupation);
    let all = all_traits();
    let mut available: Vec<Trait> = Vec::new();
    let mut k: usize = 0;
    while k < all.len()
        invariant
            k <= all@.len(),
        decreases all@.len() - k,
    {
        if all[k] != leader.0 && all[k] != leader.1 {
            available.push(all[k]);
        }
        k = k + 1;
    }
    rng.shuffle("party-profile", &mut available);
    let ghost start = party@;
    let mut i: usize = 0;
    while i < party.len()
        invariant
            i <= party@.len(),
            party@.len() == start.len(),
            rng.wf(),
            rng.master() == old(rng).master(),
            leader == leader_traits(occupation@),
            forall|j: int| i <= j < party@.len() ==> #[trigger] party@[j] == start[j],
            forall|j: int| 0 <= j < i ==> #[trigger] profiled(start[j], party@[j], j, occupation@),
            forall|j: int| 0 <= j < i ==> (#[trigger] party@[j]).relationships.affinity.map() == Map::<Seq<char>, i16>::empty(),
        decreases party@.len() - i,
    {
        let age = rng.roll_between("party-profile", 0, 48);
        let female = rng.chance("family", 9_223_372_036_854_775_808);
        let traits = if i == 0 { vec![leader.0, leader.1] } else { next_pair(&mut available, rng) };
        let (mut skills, morale) = profile(&traits);
        if i == 0 {
            add_skills(&mut skills, occupation_skills(occupation));
        }
        party[i].age = 18 + age as u8;
        party[i].sex = if female { Sex::Female } else { Sex::Male };
        party[i].traits = traits;
        party[i].skills = skills;
        party[i].relationships = Relationships::default();
        party[i].morale = morale;
        i = i + 1;
    }
    proof {
        assert forall|i: int, k: Seq<char>| 0 <= i < party@.len() && #[trigger] party@[i].relationships.affinity.map().dom().contains(k)
            implies -10 <= party@[i].relationships.affinity.map()[k] <= 30 by {
            assert(party@[i].relationships.affinity.map() == Map::<Seq<char>, i16>::empty());
        }
        assert forall|i: int, j: int| 0 <= i < party@.len() && 0 <= j < party@.len() && i != j implies
            affinity_of(#[trigger] party@[i], party@[j].name@) == affinity_of(#[trigger] party@[j], party@[i].name@) by {
            assert(party@[i].relationships.affinity.map() == Map::<Seq<char>, i16>::empty());
            assert(party@[j].relationships.affinity.map() == Map::<Seq<char>, i16>::empty());
        }
        assert(distinct_names(start) ==> distinct_names(party@)) by {
            if distinct_names(start) {
                assert forall|i: int, j: int| 0 <= i < party@.len() && 0 <= j < party@.len() && i != j implies #[trigger] party@[i].name@ != #[trigger] party@[j].name@ by {
                    assert(profiled(start[i], party@[i], i, occupation@));
                    assert(profiled(start[j], party@[j], j, occupation@));
                }
            }
        }
    }
    let ghost mid = party@;
    assert forall|i: int| 0 <= i < party@.len() implies (#[trigger] party@[i]).traits@.len() <= 10_000 by {
        assert(profiled(start[i], party@[i], i, occupation@));
    }
    initialize_relationships(party, rng);
    proof {
        assert forall|i: int| 0 <= i < start.len() implies #[trigger] profiled(start[i], party@[i], i, occupation@) by {
            assert(profiled(start[i], mid[i], i, occupation@));
            assert(same_but_affinity(mid[i], party@[i]));
        }
    }
}


/// The line written when `left` supports `right`.
pub open spec fn support_line(left: Seq<char>, right: Seq<char>) -> Seq<char> {
    left + " checks on "@ + right + "; both take heart."@
}

/// The line written when `left` and `right` argue.
pub open spec fn quarrel_line(left: Seq<char>, right: Seq<char>) -> Seq<char> {
    left + " and "@ + right + " quarrel over the day's work."@
}

/// `line` reports a social event between two living members of `party`.
pub open spec fn is_social_line(line: Seq<char>, party: Seq<PartyMember>) -> bool {
    exists|i: int, j: int|
        #![trigger support_line(party[i].name@, party[j].name@)]
        #![trigger quarrel_line(party[i].name@, party[j].name@)]
        0 <= i < party.len() && 0 <= j < party.len() && i != j && party[i].alive && party[j].alive
            && (line == support_line(party[i].name@, party[j].name@) || line == quarrel_line(party[i].name@, party[j].name@))
}

/// Sum of the traits' morale changes for a day.
pub open spec fn day_sum(traits: Seq<Trait>, resting: bool, filling: bool, varied: bool) -> int
    decreases traits.len(),
{
    if traits.len() == 0 {
        0
    } else {
        day_sum(traits.drop_last(), resting, filling, varied) + day_morale(traits.last(), resting, filling, varied)
    }
}

proof fn lemma_day_sum_bounds(traits: Seq<Trait>, resting: bool, filling: bool, varied: bool)
    ensures
        -(traits.len() as int) <= day_sum(traits, resting, filling, varied) <= traits.len(),
    decreases traits.len(),
{
    if traits.len() > 0 {
        lemma_day_sum_bounds(traits.drop_last(), resting, filling, varied);
    }
}

/// What a day may change in a member: the living keep all but morale (kept in `0..=100`)
/// and affinities; the dead change not at all.
pub open spec fn lived_day(before: PartyMember, after: PartyMember) -> bool {
    &&& !before.alive ==> after == before
    &&& before.alive ==> {
        &&& after.name == before.name
        &&& after.health == before.health
        &&& after.alive == before.alive
        &&& after.age == before.age
        &&& after.sex == before.sex
        &&& after.traits == before.traits
        &&& after.skills == before.skills
        &&& after.ailments == before.ailments
        &&& 0 <= after.morale <= 100
    }
}

/// The day's morale change before traits: meals, variety and rest.
pub open spec fn day_base(resting: bool, filling: bool, varied: bool) -> int {
    (if filling { 1int } else { -2int }) + (if varied { 1int } else if !filling { -1int } else { 0int })
        + (if resting { 1int } else { 0int })
}

/// A member's morale after the day's meals, variety, rest and traits, kept in `0..=100`;
/// the dead keep theirs.
pub open spec fn rested_morale(m: PartyMember, resting: bool, filling: bool, varied: bool) -> i16 {
    if !m.alive {
        m.morale
    } else {
        clamp(m.morale + day_base(resting, filling, varied) + day_sum(m.traits@, resting, filling, varied), 0, 100) as i16
    }
}

/// A member's mood for the day's social draws: morale and affinities.
pub type Mood = (i16, Map<Seq<char>, i16>);

/// The moods of the members of `party`.
pub open spec fn moods(party: Seq<PartyMember>) -> Seq<Mood> {
    party.map_values(|m: PartyMember| (m.morale, m.relationships.affinity.map()))
}

/// A stream position: key, stream number and word.
pub type DrawPos = (Seq<u8>, u64, u128);

/// One pair's social draw, members `l` and `r` of `st` (the party, whose names, lives and
/// traits the draws leave alone), from moods `cur`, stream position `pos` and lines `msgs`.
/// The dead, and two members of one name, draw nothing. Otherwise a percentile below the
/// pair's support chance (from 1 to 8, more with goodwill) means one checks on the other;
/// below support plus argument chance (from 1 to 8, more with ill will) they quarrel. Either
/// way a second draw of 1 to 3 moves their mutual affinity up or down (within `-10..=30`),
/// both members' morale moves one step, and the line is written.
pub open spec fn pair_step(st: Seq<PartyMember>, cur: Seq<Mood>, pos: DrawPos, msgs: Seq<Seq<char>>, l: int, r: int)
    -> (Seq<Mood>, DrawPos, Seq<Seq<char>>)
{
    if !st[l].alive || !st[r].alive || st[l].name@ == st[r].name@ {
        (cur, pos, msgs)
    } else {
        let g = social_sum(st[l].traits@) + social_sum(st[r].traits@);
        let support = clamp(2 + (if g > 0 { g } else { 0 }) / 4, 1, 8);
        let argument = clamp(2 + (if g < 0 { -g } else { 0 }) / 4, 1, 8);
        let roll = chacha_below_draw(pos.0, pos.1, pos.2, 100);
        let p1 = advanced(pos, roll.1);
        if roll.0 < support + argument {
            let sup = roll.0 < support;
            let d = chacha_between_draw(p1.0, p1.1, p1.2, 1i16, 4i16);
            let change = if sup { d.0 as int } else { -(d.0 as int) };
            let now = if cur[l].1.dom().contains(st[r].name@) { cur[l].1[st[r].name@] as int } else { 0 };
            let v = clamp(now + change, -10, 30) as i16;
            let ml = if sup { if cur[l].0 + 1 > 100 { 100 } else { cur[l].0 + 1 } } else { if cur[l].0 - 1 < 0 { 0 } else { cur[l].0 - 1 } };
            let mr = if sup { if cur[r].0 + 1 > 100 { 100 } else { cur[r].0 + 1 } } else { if cur[r].0 - 1 < 0 { 0 } else { cur[r].0 - 1 } };
            let c1 = cur.update(l, (ml as i16, cur[l].1.insert(st[r].name@, v)));
            let c2 = c1.update(r, (mr as i16, cur[r].1.insert(st[l].name@, v)));
            let line = if sup { support_line(st[l].name@, st[r].name@) } else { quarrel_line(st[l].name@, st[r].name@) };
            (c2, advanced(p1, d.1), msgs.push(line))
        } else {
            (cur, p1, msgs)
        }
    }
}

/// The social draws of every pair from (`l`, `r`) on, pairs taken by the lower member,
/// then the higher.
pub open spec fn social_from(st: Seq<PartyMember>, cur: Seq<Mood>, pos: DrawPos, msgs: Seq<Seq<char>>, l: int, r: int)
    -> (Seq<Mood>, DrawPos, Seq<Seq<char>>)
    decreases st.len() - l, st.len() - r,
{
    if l >= st.len() || l < 0 || r < 0 {
        (cur, pos, msgs)
    } else if r >= st.len() {
        social_from(st, cur, pos, msgs, l + 1, l + 2)
    } else {
        let (c2, p2, m2) = pair_step(st, cur, pos, msgs, l, r);
        social_from(st, c2, p2, m2, l, r + 1)
    }
}

/// The whole day for `party` from stream position `pos`: morale from meals, rest and
/// traits, then every pair's social draw; the final moods, position and lines.
pub open spec fn day_drawn(party: Seq<PartyMember>, resting: bool, filling: bool, varied: bool, pos: DrawPos)
    -> (Seq<Mood>, DrawPos, Seq<Seq<char>>)
{
    let mood0 = party.map_values(|m: PartyMember| (rested_morale(m, resting, filling, varied), m.relationships.affinity.map()));
    social_from(party, mood0, pos, Seq::empty(), 0, 1)
}

/// One pair's social draw in `party`, members `left` and `right`, as `pair_step` describes
/// it over the party `start` of the day.
fn social_pair(party: &mut Vec<PartyMember>, left: usize, right: usize, rng: &mut SimRng, messages: &mut Vec<String>,
    Ghost(start): Ghost<Seq<PartyMember>>)
    requires
        left < right < old(party)@.len(),
        old(party)@.len() == start.len(),
        old(rng).wf(),
        affinities_bounded(old(party)@),
        distinct_names(start) && symmetric(start) ==> distinct_names(old(party)@) && symmetric(old(party)@),
        forall|j: int| 0 <= j < start.len() ==> #[trigger] lived_day(start[j], old(party)@[j]),
        forall|j: int| 0 <= j < start.len() ==> (#[trigger] start[j]).traits@.len() <= 10_000,
        forall|k: int| 0 <= k < old(messages)@.len() ==> is_social_line(#[trigger] old(messages)@[k]@, start),
    ensures
        (moods(final(party)@), final(rng).position("party-daily"@), texts(final(messages)@))
            == pair_step(start, moods(old(party)@), old(rng).position("party-daily"@), texts(old(messages)@), left as int, right as int),
        forall|n: Seq<char>| n != "party-daily"@ ==> #[trigger] final(rng).position(n) == old(rng).position(n),
        final(party)@.len() == start.len(),
        final(rng).wf(),
        final(rng).master() == old(rng).master(),
        affinities_bounded(final(party)@),
        distinct_names(start) && symmetric(start) ==> distinct_names(final(party)@) && symmetric(final(party)@),
        forall|j: int| 0 <= j < start.len() ==> #[trigger] lived_day(start[j], final(party)@[j]),
        forall|k: int| 0 <= k < final(messages)@.len() ==> is_social_line(#[trigger] final(messages)@[k]@, start),
{
    let ghost cur = moods(party@);
    let ghost p0 = rng.position("party-daily"@);
    let ghost ms = texts(messages@);
    let ghost step = pair_step(start, cur, p0, ms, left as int, right as int);
    assert(lived_day(start[left as int], party@[left as int]));
    assert(lived_day(start[right as int], party@[right as int]));
    if !party[left].alive || !party[right].alive || same(party[left].name.as_str(), party[right].name.as_str()) {
        assert(step == (cur, p0, ms));
        return;
    }
    let a = social_weight(&party[left].traits);
    let b = social_weight(&party[right].traits);
    proof {
        lemma_social_sum_bounds(party@[left as int].traits@);
        lemma_social_sum_bounds(party@[right as int].traits@);
        assert(start[left as int].alive && start[right as int].alive);
        assert(start[left as int].name == party@[left as int].name);
        assert(start[right as int].name == party@[right as int].name);
    }
    let goodwill: i32 = a as i32 + b as i32;
    let up: i32 = 2 + (if goodwill > 0 { goodwill } else { 0 }) / 4;
    let support: u32 = if up < 1 { 1 } else if up > 8 { 8 } else { up as u32 };
    let down: i32 = 2 + (if goodwill < 0 { -goodwill } else { 0 }) / 4;
    let argument: u32 = if down < 1 { 1 } else if down > 8 { 8 } else { down as u32 };
    let roll = rng.roll("party-daily", 100);
    let ghost before_pair = party@;
    if roll < support {
        let change = rng.roll_between("party-daily", 1, 4);
        adjust_affinity(party, left, right, change);
        let lm = party[left].morale + 1;
        party[left].morale = if lm > 100 { 100 } else { lm };
        let rm = party[right].morale + 1;
        party[right].morale = if rm > 100 { 100 } else { rm };
        let mut line = party[left].name.clone();
        line.append(" checks on ");
        line.append(party[right].name.as_str());
        line.append("; both take heart.");
        proof {
            assert(line@ =~= support_line(start[left as int].name@, start[right as int].name@));
            assert(is_social_line(line@, start));
        }
        messages.push(line);
    } else if roll < support + argument {
        let change = -rng.roll_between("party-daily", 1, 4);
        adjust_affinity(party, left, right, change);
        let lm = party[left].morale - 1;
        party[left].morale = if lm < 0 { 0 } else { lm };
        let rm = party[right].morale - 1;
        party[right].morale = if rm < 0 { 0 } else { rm };
        let mut line = party[left].name.clone();
        line.append(" and ");
        line.append(party[right].name.as_str());
        line.append(" quarrel over the day's work.");
        proof {
            assert(line@ =~= quarrel_line(start[left as int].name@, start[right as int].name@));
            assert(is_social_line(line@, start));
        }
        messages.push(line);
    }
    proof {
        assert(rng.position("party-daily"@) == step.1);
        assert(texts(messages@) =~= step.2);
        assert(moods(party@) =~= step.0) by {
            assert forall|j: int| 0 <= j < party@.len() implies #[trigger] moods(party@)[j] == step.0[j] by {
                assert(moods(before_pair)[j] == cur[j]);
                if j != left && j != right {
                    assert(party@[j] == before_pair[j]);
                }
            }
        }
        assert forall|j: int| 0 <= j < start.len() implies #[trigger] lived_day(start[j], party@[j]) by {
            assert(lived_day(start[j], before_pair[j]));
        }
        assert forall|i: int, k: Seq<char>| 0 <= i < party@.len() && #[trigger] party@[i].relationships.affinity.map().dom().contains(k)
            implies -10 <= party@[i].relationships.affinity.map()[k] <= 30 by {
        }
    }
}

/// Applies daily morale and rare social consequences. Messages are emitted only for
/// social events: support raises both members' morale and affinity, a quarrel lowers them.
pub fn daily(
    party: &mut Vec<PartyMember>,
    resting: bool,
    filling: bool,
    varied_food: bool,
    rng: &mut SimRng,
) -> (messages: Vec<String>)
    requires
        old(rng).wf(),
        affinities_bounded(old(party)@),
        forall|i: int| 0 <= i < old(party)@.len() ==> (#[trigger] old(party)@[i]).traits@.len() <= 10_000,
    ensures
        final(rng).wf(),
        final(rng).master() == old(rng).master(),
        final(party)@.len() == old(party)@.len(),
        forall|i: int| 0 <= i < old(party)@.len() ==> #[trigger] lived_day(old(party)@[i], final(party)@[i]),
        affinities_bounded(final(party)@),
        distinct_names(old(party)@) && symmetric(old(party)@) ==> symmetric(final(party)@),
        forall|k: int| 0 <= k < messages@.len() ==> is_social_line(#[trigger] messages@[k]@, old(party)@),
        forall|k: int| 0 <= k < messages@.len() ==> has_part(#[trigger] messages@[k]@, " checks on "@)
            || has_part(messages@[k]@, " and "@),
        (forall|i: int| 0 <= i < old(party)@.len() ==> 0 <= #[trigger] old(party)@[i].morale <= 100)
            ==> forall|i: int| 0 <= i < final(party)@.len() ==> 0 <= #[trigger] final(party)@[i].morale <= 100,
        moods(final(party)@) == day_drawn(old(party)@, resting, filling, varied_food, old(rng).position("party-daily"@)).0,
        texts(messages@) == day_drawn(old(party)@, resting, filling, varied_food, old(rng).position("party-daily"@)).2,
        moved_only(*old(rng), *final(rng), "party-daily"@,
            day_drawn(old(party)@, resting, filling, varied_food, old(rng).position("party-daily"@)).1),
{
    let ghost start = party@;
    let mut i: usize = 0;
    while i < party.len()
        invariant
            i <= party@.len(),
            party@.len() == start.len(),
            forall|j: int| i <= j < party@.len() ==> #[trigger] party@[j] == start[j],
            forall|j: int| 0 <= j < i ==> #[trigger] lived_day(start[j], party@[j]),
            forall|j: int| 0 <= j < i ==> (#[trigger] party@[j]).relationships == start[j].relationships,
            forall|j: int| 0 <= j < start.len() ==> (#[trigger] start[j]).traits@.len() <= 10_000,
            forall|j: int| 0 <= j < i ==> (#[trigger] party@[j]).morale == rested_morale(start[j], resting, filling, varied_food),
        decreases party@.len() - i,
    {
        if party[i].alive {
            let mut change: i32 = if filling { 1 } else { -2 };
            if varied_food {
                change = change + 1;
            } else if !filling {
                change = change - 1;
            }
            if resting {
                change = change + 1;
            }
            let mut t: usize = 0;
            while t < party[i].traits.len()
                invariant
                    i < party@.len(),
                    t <= party@[i as int].traits@.len(),
                    party@[i as int].traits@.len() <= 10_000,
                    -4 - (t as int) <= change <= 3 + t,
                    change as int == day_base(resting, filling, varied_food)
                        + day_sum(party@[i as int].traits@.subrange(0, t as int), resting, filling, varied_food),
                decreases party@[i as int].traits@.len() - t,
            {
                proof {
                    assert(party@[i as int].traits@.subrange(0, t + 1).drop_last() =~= party@[i as int].traits@.subrange(0, t as int));
                }
                change = change + daily_morale(party[i].traits[t], resting, filling, varied_food) as i32;
                t = t + 1;
            }
            assert(party@[i as int].traits@.subrange(0, t as int) =~= party@[i as int].traits@);
            let m = party[i].morale as i32 + change;
            party[i].morale = if m < 0 { 0 } else if m > 100 { 100 } else { m as i16 };
        }
        i = i + 1;
    }
    let ghost after_morale = party@;
    assert(affinities_bounded(party@)) by {
        assert forall|i: int, k: Seq<char>| 0 <= i < party@.len() && #[trigger] party@[i].relationships.affinity.map().dom().contains(k)
            implies -10 <= party@[i].relationships.affinity.map()[k] <= 30 by {
            assert(party@[i].relationships == start[i].relationships);
        }
    }
    assert(distinct_names(start) && symmetric(start) ==> distinct_names(party@) && symmetric(party@)) by {
        if distinct_names(start) && symmetric(start) {
            assert forall|i: int, j: int| 0 <= i < party@.len() && 0 <= j < party@.len() && i != j implies
                affinity_of(#[trigger] party@[i], party@[j].name@) == affinity_of(#[trigger] party@[j], party@[i].name@) by {
                assert(party@[i].relationships == start[i].relationships);
                assert(party@[j].relationships == start[j].relationships);
                assert(lived_day(start[i], party@[i]));
                assert(lived_day(start[j], party@[j]));
            }
            assert forall|i: int, j: int| 0 <= i < party@.len() && 0 <= j < party@.len() && i != j implies #[trigger] party@[i].name@ != #[trigger] party@[j].name@ by {
                assert(lived_day(start[i], party@[i]));
                assert(lived_day(start[j], party@[j]));
            }
        }
    }
    let mut messages: Vec<String> = Vec::new();
    let ghost pos0 = rng.position("party-daily"@);
    let ghost goal = day_drawn(start, resting, filling, varied_food, pos0);
    proof {
        let mood0 = start.map_values(|m: PartyMember| (rested_morale(m, resting, filling, varied_food), m.relationships.affinity.map()));
        assert(moods(party@) =~= mood0) by {
            assert forall|j: int| 0 <= j < start.len() implies #[trigger] moods(party@)[j] == mood0[j] by {
                assert(party@[j].relationships == start[j].relationships);
            }
        }
        assert(texts(messages@) =~= Seq::<Seq<char>>::empty());
    }
    let mut left: usize = 0;
    while left < party.len()
        invariant
            goal == social_from(start, moods(party@), rng.position("party-daily"@), texts(messages@), left as int, left + 1),
            forall|n: Seq<char>| n != "party-daily"@ ==> #[trigger] rng.position(n) == old(rng).position(n),
            pos0 == old(rng).position("party-daily"@),
            goal == day_drawn(old(party)@, resting, filling, varied_food, pos0),
            party@.len() == start.len(),
            rng.wf(),
            rng.master() == old(rng).master(),
            affinities_bounded(party@),
            distinct_names(start) && symmetric(start) ==> distinct_names(party@) && symmetric(party@),
            forall|j: int| 0 <= j < start.len() ==> #[trigger] lived_day(start[j], party@[j]),
            forall|j: int| 0 <= j < start.len() ==> (#[trigger] start[j]).traits@.len() <= 10_000,
            forall|k: int| 0 <= k < messages@.len() ==> is_social_line(#[trigger] messages@[k]@, start),
        decreases party@.len() - left,
    {
        let mut right: usize = left + 1;
        while right < party.len()
            invariant
                goal == social_from(start, moods(party@), rng.position("party-daily"@), texts(messages@), left as int, right as int),
                forall|n: Seq<char>| n != "party-daily"@ ==> #[trigger] rng.position(n) == old(rng).position(n),
                left < party@.len(),
                left < right,
                right <= party@.len(),
                party@.len() == start.len(),
                rng.wf(),
                rng.master() == old(rng).master(),
                affinities_bounded(party@),
                distinct_names(start) && symmetric(start) ==> distinct_names(party@) && symmetric(party@),
                forall|j: int| 0 <= j < start.len() ==> #[trigger] lived_day(start[j], party@[j]),
                forall|j: int| 0 <= j < start.len() ==> (#[trigger] start[j]).traits@.len() <= 10_000,
                forall|k: int| 0 <= k < messages@.len() ==> is_social_line(#[trigger] messages@[k]@, start),
            decreases party@.len() - right,
        {
            assert(lived_day(start[left as int], party@[left as int]));
            assert(lived_day(start[right as int], party@[right as int]));
            let ghost cur = moods(party@);
            let ghost p0 = rng.position("party-daily"@);
            let ghost ms = texts(messages@);
            let ghost step = pair_step(start, cur, p0, ms, left as int, right as int);
            assert(goal == social_from(start, step.0, step.1, step.2, left as int, right + 1));
            social_pair(party, left, right, rng, &mut messages, Ghost(start));
            right = right + 1;
        }
        left = left + 1;
    }
    proof {
        assert forall|k: int| 0 <= k < messages@.len() implies has_part(#[trigger] messages@[k]@, " checks on "@)
            || has_part(messages@[k]@, " and "@) by {
            lemma_social_line_names_a_pair(messages@[k]@, start);
        }
        assert forall|i: int| 0 <= i < party@.len() && (forall|j: int| 0 <= j < start.len() ==> 0 <= #[trigger] start[j].morale <= 100)
            implies 0 <= #[trigger] party@[i].morale <= 100 by {
            assert(lived_day(start[i], party@[i]));
            assert(0 <= start[i].morale <= 100);
        }
    }
    messages
}

/// `p` occurs in `s`.
pub open spec fn has_part(s: Seq<char>, p: Seq<char>) -> bool {
    exists|a: Seq<char>, b: Seq<char>| s == a + p + b
}

proof fn lemma_social_line_names_a_pair(line: Seq<char>, party: Seq<PartyMember>)
    requires
        is_social_line(line, party),
    ensures
        has_part(line, " checks on "@) || has_part(line, " and "@),
{
    let (i, j) = choose|i: int, j: int|
        #![trigger support_line(party[i].name@, party[j].name@)]
        #![trigger quarrel_line(party[i].name@, party[j].name@)]
        0 <= i < party.len() && 0 <= j < party.len() && i != j && party[i].alive && party[j].alive
            && (line == support_line(party[i].name@, party[j].name@) || line == quarrel_line(party[i].name@, party[j].name@));
    let l = party[i].name@;
    let r = party[j].name@;
    if line == support_line(l, r) {
        assert(line =~= l + " checks on "@ + (r + "; both take heart."@));
    } else {
        assert(line =~= l + " and "@ + (r + " quarrel over the day's work."@));
    }
}

} // verus!
