//! Local markets and trades with other wagon trains.

use vstd::prelude::*;
use crate::tally::{Tally, unique_keys};

verus! {

/// A store's stock, its usual stock, and the party's standing there.
#[derive(Debug)]
pub struct Market {
    pub stock: Tally<u32>,
    pub normal_stock: Tally<u32>,
    pub reputation: i16,
    pub last_restock_day: u32,
}

/// The usual stock of `id`, treating an unknown item as a hundred and never below one.
pub open spec fn usual_stock(m: Market, id: Seq<char>) -> int {
    let n = if m.normal_stock.map().dom().contains(id) { m.normal_stock.map()[id] as int } else { 100 };
    if n < 1 { 1 } else { n }
}

/// The price of an item whose base price is `base` with a seasonal markup in percent:
/// scarcity adds up to half again as stock falls below the usual level, and the price
/// never drops below one cent.
pub open spec fn market_price(m: Market, id: Seq<char>, base: int, markup: int) -> int {
    let normal = usual_stock(m, id);
    let stock = if m.stock.map().dom().contains(id) { m.stock.map()[id] as int } else { normal };
    let short = if normal > stock { normal - stock } else { 0 };
    let scarcity = short * 50 / normal;
    let multiplier = if 100 + markup + scarcity < 1 { 1 } else { 100 + markup + scarcity };
    let raw = div_toward_zero(base * multiplier, 100);
    if raw < 1 { 1 } else if raw > i64::MAX { i64::MAX as int } else { raw }
}

proof fn lemma_price_steps(base: int, m1: int, m2: int)
    requires
        1 <= m1 <= m2,
    ensures
        base >= 0 ==> div_toward_zero(base * m1, 100) <= div_toward_zero(base * m2, 100),
        base < 0 ==> div_toward_zero(base * m1, 100) <= 0 && div_toward_zero(base * m2, 100) <= 0,
{
    if base >= 0 {
        assert(0 <= base * m1 <= base * m2) by (nonlinear_arith)
            requires base >= 0, 1 <= m1 <= m2;
        vstd::arithmetic::div_mod::lemma_div_is_ordered(base * m1, base * m2, 100);
    } else {
        assert(base * m1 < 0 && base * m2 < 0) by (nonlinear_arith)
            requires base < 0, 1 <= m1 <= m2;
        assert((-(base * m1)) / 100 >= 0 && (-(base * m2)) / 100 >= 0) by (nonlinear_arith)
            requires base * m1 < 0, base * m2 < 0;
    }
}

/// The stock of `id` on hand, its usual stock when the market keeps none.
pub open spec fn stock_level(m: Market, id: Seq<char>) -> int {
    if m.stock.map().dom().contains(id) { m.stock.map()[id] as int } else { usual_stock(m, id) }
}

/// A higher seasonal markup never lowers a price.
pub proof fn law_price_rises_with_markup(m: Market, id: Seq<char>, base: int, low: int, high: int)
    requires
        low <= high,
    ensures
        market_price(m, id, base, low) <= market_price(m, id, base, high),
{
    let normal = usual_stock(m, id);
    let stock = if m.stock.map().dom().contains(id) { m.stock.map()[id] as int } else { normal };
    let short = if normal > stock { normal - stock } else { 0 };
    let scarcity = short * 50 / normal;
    let m1 = if 100 + low + scarcity < 1 { 1 } else { 100 + low + scarcity };
    let m2 = if 100 + high + scarcity < 1 { 1 } else { 100 + high + scarcity };
    lemma_price_steps(base, m1, m2);
}

/// Less stock of an item, against the same usual stock, never lowers its price.
pub proof fn law_price_rises_with_scarcity(m: Market, scarcer: Market, id: Seq<char>, base: int, markup: int)
    requires
        usual_stock(scarcer, id) == usual_stock(m, id),
        stock_level(scarcer, id) <= stock_level(m, id),
    ensures
        market_price(m, id, base, markup) <= market_price(scarcer, id, base, markup),
{
    let normal = usual_stock(m, id);
    let s1 = stock_level(m, id);
    let s2 = stock_level(scarcer, id);
    let short1 = if normal > s1 { normal - s1 } else { 0 };
    let short2 = if normal > s2 { normal - s2 } else { 0 };
    assert(short1 <= short2);
    assert(short1 * 50 <= short2 * 50);
    vstd::arithmetic::div_mod::lemma_div_is_ordered(short1 * 50, short2 * 50, normal);
    let sc1 = short1 * 50 / normal;
    let sc2 = short2 * 50 / normal;
    let m1 = if 100 + markup + sc1 < 1 { 1 } else { 100 + markup + sc1 };
    let m2 = if 100 + markup + sc2 < 1 { 1 } else { 100 + markup + sc2 };
    lemma_price_steps(base, m1, m2);
}

/// A price is never below one cent, and neither scarcer stock (against the same usual
/// stock) nor a higher seasonal markup lowers it.
pub proof fn law_prices_stay_positive_and_monotone(m: Market, scarcer: Market, id: Seq<char>, base: int, low: int, high: int)
    requires
        usual_stock(scarcer, id) == usual_stock(m, id),
        stock_level(scarcer, id) <= stock_level(m, id),
        low <= high,
    ensures
        1 <= market_price(m, id, base, low),
        market_price(m, id, base, low) <= market_price(scarcer, id, base, low),
        market_price(m, id, base, low) <= market_price(m, id, base, high),
{
    law_price_rises_with_scarcity(m, scarcer, id, base, low);
    law_price_rises_with_markup(m, id, base, low, high);
}

/// Integer division rounding toward zero, as Rust's `/` does.
pub open spec fn div_toward_zero(a: int, b: int) -> int {
    if a >= 0 { a / b } else { -((-a) / b) }
}

impl Market {
    /// An empty market.
    pub fn new() -> (r: Self)
        ensures
            r.stock.map() == Map::<Seq<char>, u32>::empty(),
            r.normal_stock.map() == Map::<Seq<char>, u32>::empty(),
            r.reputation == 0,
            r.last_restock_day == 0,
    {
        Market { stock: Tally::new(), normal_stock: Tally::new(), reputation: 0, last_restock_day: 0 }
    }

    /// The price of `item_id` with base price `base` and a seasonal markup in percent.
    pub fn price_for(&self, item_id: &str, base: i64, season_markup: i64) -> (r: i64)
        ensures
            r == market_price(*self, item_id@, base as int, season_markup as int),
    {
        let normal0: u32 = match self.normal_stock.get(item_id) {
            Some(n) => n,
            None => 100,
        };
        let normal: u32 = if normal0 < 1 { 1 } else { normal0 };
        let stock: u32 = match self.stock.get(item_id) {
            Some(s) => s,
            None => normal,
        };
        let short: u64 = if normal > stock { (normal - stock) as u64 } else { 0 };
        let scarcity: u64 = short * 50 / (normal as u64);
        assert(scarcity <= 50) by (nonlinear_arith)
            requires short <= normal, normal >= 1, scarcity as int == (short as int) * 50 / (normal as int);
        let m: i128 = 100 + season_markup as i128 + scarcity as i128;
        let multiplier: i128 = if m < 1 { 1 } else { m };
        assert(i128::MIN <= (base as int) * (multiplier as int) <= i128::MAX) by (nonlinear_arith)
            requires 1 <= multiplier <= 0x8000_0000_0000_0100, i64::MIN <= base <= i64::MAX;
        let product: i128 = (base as i128) * multiplier;
        let raw: i128 = product / 100;
        assert(raw == div_toward_zero(product as int, 100));
        if raw < 1 {
            1
        } else if raw > i64::MAX as i128 {
            i64::MAX
        } else {
            raw as i64
        }
    }

    /// Restocks once per thirty-day period: every stocked item gains a quarter of its
    /// usual stock (at least one), capped at that usual stock.
    pub fn replenish(&mut self, day: u32)
        ensures
            day / 30 <= old(self).last_restock_day / 30 ==> *final(self) == *old(self),
            day / 30 > old(self).last_restock_day / 30 ==> {
                &&& final(self).last_restock_day == day
                &&& final(self).normal_stock == old(self).normal_stock
                &&& final(self).reputation == old(self).reputation
                &&& final(self).stock.map().dom() == old(self).stock.map().dom()
                &&& forall|k: Seq<char>| #[trigger] old(self).stock.map().dom().contains(k) ==>
                    final(self).stock.map()[k] == restocked(old(self).stock.map()[k], if old(self).normal_stock.map().dom().contains(k) { old(self).normal_stock.map()[k] } else { 100 })
            },
    {
        if day / 30 > self.last_restock_day / 30 {
            let n = self.stock.len();
            let ghost before = self.stock;
            let mut i: usize = 0;
            while i < n
                invariant
                    i <= n,
                    n == self.stock.rows().len(),
                    n == before.rows().len(),
                    unique_keys(before.rows()),
                    unique_keys(self.stock.rows()),
                    forall|j: int| 0 <= j < n ==> (#[trigger] self.stock.rows()[j]).0 == before.rows()[j].0,
                    forall|j: int| i <= j < n ==> (#[trigger] self.stock.rows()[j]).1 == before.rows()[j].1,
                    forall|j: int| 0 <= j < i ==> (#[trigger] self.stock.rows()[j]).1 == restocked(before.rows()[j].1,
                        if self.normal_stock.map().dom().contains(before.rows()[j].0@) { self.normal_stock.map()[before.rows()[j].0@] } else { 100 }),
                    self.normal_stock == old(self).normal_stock,
                    self.reputation == old(self).reputation,
                    before == old(self).stock,
                decreases n - i,
            {
                let amount = self.stock.value_at(i);
                let normal: u32 = match self.normal_stock.get(self.stock.key_at(i).as_str()) {
                    Some(v) => v,
                    None => 100,
                };
                let quarter: u32 = if normal / 4 < 1 { 1 } else { normal / 4 };
                let raised = amount.saturating_add(quarter);
                let value = if raised < normal { raised } else { normal };
                self.stock.set_at(i, value);
                i = i + 1;
            }
            self.last_restock_day = day;
            proof {
                let after = self.stock;
                assert forall|k: Seq<char>| after.map().dom().contains(k) == before.map().dom().contains(k) by {
                    if before.has(k) {
                        let j = choose|j: int| 0 <= j < before.rows().len() && #[trigger] before.rows()[j].0@ == k;
                        assert(after.rows()[j].0@ == k);
                    }
                    if after.has(k) {
                        let j = choose|j: int| 0 <= j < after.rows().len() && #[trigger] after.rows()[j].0@ == k;
                        assert(before.rows()[j].0@ == k);
                    }
                }
                assert(after.map().dom() =~= before.map().dom());
                assert forall|k: Seq<char>| #[trigger] before.map().dom().contains(k) implies
                    after.map()[k] == restocked(before.map()[k], if self.normal_stock.map().dom().contains(k) { self.normal_stock.map()[k] } else { 100 }) by {
                    let j = choose|j: int| 0 <= j < before.rows().len() && #[trigger] before.rows()[j].0@ == k;
                    before.lemma_value_at(j);
                    after.lemma_value_at(j);
                }
            }
        }
    }
}

/// A quantity after one restock toward `normal`.
pub open spec fn restocked(amount: u32, normal: u32) -> u32 {
    let quarter: int = if normal / 4 < 1 { 1int } else { (normal / 4) as int };
    let raised: int = if amount + quarter > u32::MAX { u32::MAX as int } else { amount + quarter };
    (if raised < normal { raised } else { normal as int }) as u32
}

/// Another wagon train the party can trade with.
#[derive(Debug)]
pub struct NpcTrain {
    pub id: String,
    pub name: String,
    pub reputation: i16,
    pub inventory: Tally<u32>,
    pub recurring: bool,
    /// The day on which this train last improved the party's reputation.
    pub last_reputation_day: Option<u32>,
    pub first_mile: u32,
    pub last_mile: u32,
    pub period_days: u32,
    pub day_window: u32,
}

/// Whether an offer of `offered` cents for goods worth `wanted` cents is enough, with a
/// goodwill discount of one percent per reputation point up to a quarter.
pub open spec fn offer_accepted(offered: u64, wanted: u64, reputation: i16) -> bool {
    let goodwill: int = if reputation < 0 { 0 } else if reputation > 25 { 25 } else { reputation as int };
    offered * (100 + goodwill) >= wanted * 100
}

impl NpcTrain {
    /// Whether the train accepts an offer of `offered_value_cents` for goods worth
    /// `wanted_value_cents`.
    pub fn accepts(&self, offered_value_cents: u64, wanted_value_cents: u64, reputation: i16) -> (r: bool)
        ensures
            r == offer_accepted(offered_value_cents, wanted_value_cents, reputation),
    {
        let goodwill: u128 = if reputation < 0 { 0 } else if reputation > 25 { 25 } else { reputation as u128 };
        assert((offered_value_cents as int) * (100 + goodwill as int) <= u128::MAX) by (nonlinear_arith)
            requires goodwill <= 25, offered_value_cents <= u64::MAX;
        assert((wanted_value_cents as int) * 100 <= u128::MAX) by (nonlinear_arith)
            requires wanted_value_cents <= u64::MAX;
        (offered_value_cents as u128) * (100 + goodwill) >= (wanted_value_cents as u128) * 100
    }
}

/// A trade the other train has priced and left open for explicit confirmation.
#[derive(Debug, Clone, PartialEq, Eq)]
pub struct Counteroffer {
    pub npc_id: String,
    pub offered_item: String,
    pub offered_quantity: u32,
    pub wanted_item: String,
    pub wanted_quantity: u32,
    pub offered_value_cents: u64,
    pub wanted_value_cents: u64,
    pub quoted_day: u32,
}

} // verus!
