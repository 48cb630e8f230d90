//! Final score: survivors by health, goods carried, and cash, scaled by the leader's
//! occupation.

use vstd::prelude::*;
use crate::health::PartyMember;
use crate::tally::Tally;
use crate::text::same;

verus! {

/// Points for one member: living members score by health tier, the dead score nothing.
pub open spec fn member_points(m: PartyMember) -> nat {
    if !m.alive {
        0
    } else if m.health >= 76 {
        500
    } else if m.health >= 51 {
        400
    } else if m.health >= 26 {
        300
    } else {
        200
    }
}

/// Points for the whole party.
pub open spec fn people_points(members: Seq<PartyMember>) -> nat
    decreases members.len(),
{
    if members.len() == 0 {
        0
    } else {
        people_points(members.drop_last()) + member_points(members.last())
    }
}

/// Points for carrying `qty` of item `id`.
pub open spec fn goods_points_of(id: Seq<char>, qty: u32) -> nat {
    if id == "oxen"@ {
        (qty * 4) as nat
    } else if id == "food"@ {
        (qty / 25) as nat
    } else {
        (qty * 2) as nat
    }
}

/// Points for the goods of an inventory, entry by entry.
pub open spec fn goods_points(rows: Seq<(String, u32)>) -> nat
    decreases rows.len(),
{
    if rows.len() == 0 {
        0
    } else {
        goods_points(rows.drop_last()) + goods_points_of(rows.last().0@, rows.last().1)
    }
}

/// The score: the points, scaled by a multiplier in thousandths and rounded half up,
/// capped at the largest `u32`. Cash counts one point per five dollars, read as a 32-bit count of cents.
pub open spec fn score_of(members: Seq<PartyMember>, cash_cents: i64, rows: Seq<(String, u32)>, milli: u32) -> nat {
    let cash: int = if cash_cents < 0 { 0 } else { (cash_cents as int) % 0x1_0000_0000 };
    let base = people_points(members) + goods_points(rows) + cash / 500;
    let scaled = (base * milli + 500) / 1000;
    if scaled > u32::MAX { u32::MAX as nat } else { scaled as nat }
}

proof fn lemma_people_bound(members: Seq<PartyMember>)
    ensures
        people_points(members) <= 500 * members.len(),
    decreases members.len(),
{
    if members.len() > 0 {
        lemma_people_bound(members.drop_last());
    }
}

proof fn lemma_goods_bound(rows: Seq<(String, u32)>)
    ensures
        goods_points(rows) <= 4 * (u32::MAX as int) * rows.len(),
    decreases rows.len(),
{
    if rows.len() > 0 {
        lemma_goods_bound(rows.drop_last());
    }
}

/// Computes the score of a party, its cash and its inventory.
pub fn calculate(members: &Vec<PartyMember>, cash_cents: i64, inventory: &Tally<u32>, multiplier_milli: u32) -> (r: u32)
    ensures
        r as nat == score_of(members@, cash_cents, inventory.rows(), multiplier_milli),
{
    let mut people: u128 = 0;
    let mut i: usize = 0;
    while i < members.len()
        invariant
            i <= members@.len(),
            people as nat == people_points(members@.subrange(0, i as int)),
        decreases members@.len() - i,
    {
        proof {
            lemma_people_bound(members@.subrange(0, i as int));
            assert(members@.subrange(0, (i + 1) as int).drop_last() =~= members@.subrange(0, i as int));
        }
        let m = &members[i];
        let points: u128 = if !m.alive { 0 } else if m.health >= 76 { 500 } else if m.health >= 51 { 400 } else if m.health >= 26 { 300 } else { 200 };
        people = people + points;
        i = i + 1;
    }
    assert(members@.subrange(0, members@.len() as int) =~= members@);
    let n = inventory.len();
    let mut goods: u128 = 0;
    let mut k: usize = 0;
    while k < n
        invariant
            k <= n,
            n == inventory.rows().len(),
            goods as nat == goods_points(inventory.rows().subrange(0, k as int)),
        decreases n - k,
    {
        proof {
            lemma_goods_bound(inventory.rows().subrange(0, k as int));
            assert(inventory.rows().subrange(0, (k + 1) as int).drop_last() =~= inventory.rows().subrange(0, k as int));
            assert(4 * (u32::MAX as int) * k <= 4 * (u32::MAX as int) * 0x1_0000_0000_0000_0000) by (nonlinear_arith)
                requires k <= usize::MAX;
        }
        let qty = inventory.value_at(k) as u128;
        let id = inventory.key_at(k);
        let points: u128 = if same(id.as_str(), "oxen") { qty * 4 } else if same(id.as_str(), "food") { qty / 25 } else { qty * 2 };
        goods = goods + points;
        k = k + 1;
    }
    assert(inventory.rows().subrange(0, n as int) =~= inventory.rows());
    proof {
        lemma_people_bound(members@);
        lemma_goods_bound(inventory.rows());
    }
    let cash: u128 = if cash_cents < 0 { 0 } else { (cash_cents as u64 % 0x1_0000_0000) as u128 };
    let base: u128 = people + goods + cash / 500;
    if base >= 0x1_0000_0000_0000_0000 {
        if multiplier_milli == 0 {
            return 0;
        }
        assert((base as int * multiplier_milli as int + 500) / 1000 > u32::MAX) by (nonlinear_arith)
            requires base >= 0x1_0000_0000_0000_0000, multiplier_milli >= 1;
        return u32::MAX;
    }
    assert(base * (multiplier_milli as int) + 500 <= u128::MAX) by (nonlinear_arith)
        requires base < 0x1_0000_0000_0000_0000, multiplier_milli <= u32::MAX;
    let scaled: u128 = (base * multiplier_milli as u128 + 500) / 1000;
    if scaled > u32::MAX as u128 { u32::MAX } else { scaled as u32 }
}

/// A member who is not alive adds nothing to the score: adding the dead to any party
/// leaves its score as it was.
pub proof fn law_the_dead_score_nothing(members: Seq<PartyMember>, dead: PartyMember, cash_cents: i64,
    rows: Seq<(String, u32)>, milli: u32)
    requires
        !dead.alive,
    ensures
        score_of(members.push(dead), cash_cents, rows, milli) == score_of(members, cash_cents, rows, milli),
        people_points(members.push(dead)) == people_points(members),
{
    assert(members.push(dead).drop_last() =~= members);
}

/// Each living member adds 500, 400, 300 or 200 points to the party's points as their
/// health is above 75, above 50, above 25, or lower; a healthier member never adds fewer.
pub proof fn law_the_living_score_by_health(members: Seq<PartyMember>, m: PartyMember)
    requires
        m.alive,
    ensures
        m.health >= 76 ==> people_points(members.push(m)) == people_points(members) + 500,
        51 <= m.health < 76 ==> people_points(members.push(m)) == people_points(members) + 400,
        26 <= m.health < 51 ==> people_points(members.push(m)) == people_points(members) + 300,
        m.health < 26 ==> people_points(members.push(m)) == people_points(members) + 200,
{
    assert(members.push(m).drop_last() =~= members);
}

proof fn lemma_healthy_points(members: Seq<PartyMember>)
    requires
        forall|i: int| 0 <= i < members.len() ==> (#[trigger] members[i]).alive ==> members[i].health >= 76,
    ensures
        people_points(members) == 500 * crate::state::alive_count(members),
    decreases members.len(),
{
    if members.len() > 0 {
        let init = members.drop_last();
        assert forall|i: int| 0 <= i < init.len() && (#[trigger] init[i]).alive implies init[i].health >= 76 by {
            assert(init[i] == members[i]);
        }
        lemma_healthy_points(init);
        assert(members.last() == members[members.len() - 1]);
    }
}

/// With no goods, no cash and the plain multiplier of one, the score of a party of up to
/// eight million is its points: 500 for each living member in good health, nothing for
/// the dead.
pub proof fn law_score_counts_only_the_living(members: Seq<PartyMember>, rows: Seq<(String, u32)>)
    requires
        forall|i: int| 0 <= i < members.len() ==> (#[trigger] members[i]).alive ==> members[i].health >= 76,
        rows.len() == 0,
        members.len() <= 8_000_000,
    ensures
        score_of(members, 0, rows, 1000) == 500 * crate::state::alive_count(members),
{
    lemma_healthy_points(members);
    lemma_people_bound(members);
    let base = people_points(members);
    assert(goods_points(rows) == 0);
    assert((base * 1000 + 500) / 1000 == base) by (nonlinear_arith);
}

/// Goods score by kind: each yoke of oxen 4 points, each 25 lb of food 1 point, any other
/// unit 2 points; adding an entry adds its points.
pub proof fn law_goods_points(rows: Seq<(String, u32)>, id: String, qty: u32)
    ensures
        id@ == "oxen"@ ==> goods_points(rows.push((id, qty))) == goods_points(rows) + 4 * qty,
        id@ == "food"@ ==> goods_points(rows.push((id, qty))) == goods_points(rows) + qty / 25,
        id@ != "oxen"@ && id@ != "food"@ ==> goods_points(rows.push((id, qty))) == goods_points(rows) + 2 * qty,
{
    reveal_strlit("oxen");
    reveal_strlit("food");
    assert("food"@ != "oxen"@) by { assert("food"@[0] != "oxen"@[0]); }
    assert(rows.push((id, qty)).drop_last() =~= rows);
}

/// Every five dollars of cash is a point: with the plain multiplier, a party without
/// goods scores its people's points plus one point per 500 cents.
pub proof fn law_cash_points(members: Seq<PartyMember>, cash_cents: i64, rows: Seq<(String, u32)>)
    requires
        0 <= cash_cents < 0x1_0000_0000,
        rows.len() == 0,
        members.len() <= 1000,
    ensures
        score_of(members, cash_cents, rows, 1000) == people_points(members) + cash_cents / 500,
{
    lemma_people_bound(members);
    assert(goods_points(rows) == 0);
    let base = people_points(members) + cash_cents / 500;
    assert((base * 1000 + 500) / 1000 == base) by (nonlinear_arith);
}

/// A larger multiplier never lowers a score.
pub proof fn law_multiplier_never_lowers(members: Seq<PartyMember>, cash_cents: i64, rows: Seq<(String, u32)>, m1: u32, m2: u32)
    requires
        m1 <= m2,
    ensures
        score_of(members, cash_cents, rows, m1) <= score_of(members, cash_cents, rows, m2),
{
    let cash: int = if cash_cents < 0 { 0 } else { (cash_cents as int) % 0x1_0000_0000 };
    let base = people_points(members) + goods_points(rows) + cash / 500;
    assert(base >= 0);
    assert(base * m1 + 500 <= base * m2 + 500) by (nonlinear_arith) requires base >= 0, m1 <= m2;
    vstd::arithmetic::div_mod::lemma_div_is_ordered(base * m1 + 500, base * m2 + 500, 1000);
}

} // verus!
