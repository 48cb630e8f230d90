//! Small pieces of front-end text and rules: labels, menus, money, and the words used
//! for hunts, rafting lanes, weather and command-line months.

use vstd::prelude::*;
use crate::content::WeatherKind;
use crate::text::{decimal, dollars, push_char, push_decimal, push_dollars, is_control_char, is_space, same};

verus! {

/// A letter's reward as dollars, such as `$1.50`.
pub open spec fn reward_text(cents: i64) -> Seq<char> {
    "$"@ + dollars(cents as int)
}

/// A letter's reward as dollars with two decimals.
pub fn reward(cents: i64) -> (r: String)
    ensures
        r@ == reward_text(cents),
{
    let mut s = "$".to_owned();
    push_dollars(&mut s, cents);
    s
}

/// The label of stop `index` on the route map: `A` to `Z`, then numbers from 27.
pub open spec fn stop_text(index: usize) -> Seq<char> {
    if index < 26 { seq![(65 + index) as char] } else { decimal((index + 1) as nat) }
}

/// The label of stop `index` on the route map.
pub fn stop_label(index: usize) -> (r: String)
    requires
        index < usize::MAX,
    ensures
        r@ == stop_text(index),
{
    let mut s = String::new();
    if index < 26 {
        push_char(&mut s, ((65u8 + index as u8) as char));
    } else {
        push_decimal(&mut s, (index as u64) + 1);
    }
    s
}

/// The lane of a rafting obstacle at column `x`.
pub open spec fn lane_text(x: i16) -> Seq<char> {
    if x < 27 { "left"@ } else if x > 53 { "right"@ } else { "center"@ }
}

/// The lane of a rafting obstacle at column `x`.
pub fn lane(x: i16) -> (r: &'static str)
    ensures
        r@ == lane_text(x),
{
    if x < 27 {
        "left"
    } else if x > 53 {
        "right"
    } else {
        "center"
    }
}

/// Advice text fitted to one line: at most 76 characters, or 75 and an ellipsis.
pub open spec fn fitted(t: Seq<char>) -> Seq<char> {
    if t.len() <= 76 { t } else { t.subrange(0, 75).push('\u{2026}') }
}

/// Fits advice text to one line.
pub fn fit(text: &str) -> (r: String)
    ensures
        r@ == fitted(text@),
{
    let n = text.unicode_len();
    if n <= 76 {
        return text.to_owned();
    }
    let mut s = text.substring_char(0, 75).to_owned();
    push_char(&mut s, '\u{2026}');
    s
}

/// The conversation topics, in menu order.
pub open spec fn topics() -> Seq<Seq<char>> {
    seq!["Ask about the route"@, "Ask about supplies"@, "Ask for news"@]
}

/// Menu rows for the conversation topics.
pub fn topic_menu() -> (r: Vec<String>)
    ensures
        r@.len() == 3,
        forall|i: int| 0 <= i < 3 ==> #[trigger] r@[i]@ == topics()[i],
{
    let mut r: Vec<String> = Vec::new();
    r.push("Ask about the route".to_owned());
    r.push("Ask about supplies".to_owned());
    r.push("Ask for news".to_owned());
    r
}

/// The adjective for a kind of weather.
pub open spec fn weather_text(w: WeatherKind) -> Seq<char> {
    match w {
        WeatherKind::Clear => "clear"@,
        WeatherKind::Warm => "warm"@,
        WeatherKind::Hot => "hot"@,
        WeatherKind::Rain => "rainy"@,
        WeatherKind::Storm => "stormy"@,
        WeatherKind::Snow => "snowy"@,
        WeatherKind::Cold => "cold"@,
    }
}

/// The adjective for a kind of weather.
pub fn weather_word(weather: WeatherKind) -> (r: &'static str)
    ensures
        r@ == weather_text(weather),
{
    match weather {
        WeatherKind::Clear => "clear",
        WeatherKind::Warm => "warm",
        WeatherKind::Hot => "hot",
        WeatherKind::Rain => "rainy",
        WeatherKind::Storm => "stormy",
        WeatherKind::Snow => "snowy",
        WeatherKind::Cold => "cold",
    }
}

/// Soldiers sign on only in the 1866 era; every other occupation is always open.
pub fn occupation_available(occupation: &str, era: &str) -> (r: bool)
    ensures
        r == (occupation@ != "soldier"@ || era@ == "1866"@),
{
    !same(occupation, "soldier") || same(era, "1866")
}

/// Game an animal in the hunting field.
#[derive(Clone, Copy, Debug, Eq, PartialEq, Structural)]
pub enum Animal {
    Buffalo,
    Deer,
    Bear,
    Rabbit,
    Squirrel,
}

/// The file name stem of an animal's sprites.
pub open spec fn animal_stem(a: Animal) -> Seq<char> {
    match a {
        Animal::Buffalo => "buffalo"@,
        Animal::Deer => "deer"@,
        Animal::Bear => "bear"@,
        Animal::Rabbit => "rabbit"@,
        Animal::Squirrel => "squirrel"@,
    }
}

impl Animal {
    /// The animal's display name.
    pub fn name(self) -> (r: &'static str)
        ensures
            r@ == match self {
                Animal::Buffalo => "Buffalo"@,
                Animal::Deer => "Deer"@,
                Animal::Bear => "Bear"@,
                Animal::Rabbit => "Rabbit"@,
                Animal::Squirrel => "Squirrel"@,
            },
    {
        match self {
            Animal::Buffalo => "Buffalo",
            Animal::Deer => "Deer",
            Animal::Bear => "Bear",
            Animal::Rabbit => "Rabbit",
            Animal::Squirrel => "Squirrel",
        }
    }

    /// Pounds of food the animal yields.
    pub fn food(self) -> (r: u16)
        ensures
            r == match self {
                Animal::Buffalo => 100u16,
                Animal::Deer => 55,
                Animal::Bear => 65,
                Animal::Rabbit => 8,
                Animal::Squirrel => 3,
            },
    {
        match self {
            Animal::Buffalo => 100,
            Animal::Deer => 55,
            Animal::Bear => 65,
            Animal::Rabbit => 8,
            Animal::Squirrel => 3,
        }
    }

    /// The sprite file for animation frame `frame`: two frames alternate.
    pub fn sprite(self, frame: u16) -> (r: String)
        ensures
            r@ == animal_stem(self) + "_"@ + decimal((frame % 2) as nat) + ".px"@,
    {
        let stem = match self {
            Animal::Buffalo => "buffalo",
            Animal::Deer => "deer",
            Animal::Bear => "bear",
            Animal::Rabbit => "rabbit",
            Animal::Squirrel => "squirrel",
        };
        let mut s = stem.to_owned();
        vstd::string::StringExecFns::append(&mut s, "_");
        push_decimal(&mut s, (frame % 2) as u64);
        vstd::string::StringExecFns::append(&mut s, ".px");
        s
    }
}

/// A departure month given on the command line, by name or number.
pub open spec fn month_named(v: Seq<char>) -> Option<u8> {
    if v == "march"@ || v == "3"@ {
        Some(3)
    } else if v == "april"@ || v == "4"@ {
        Some(4)
    } else if v == "may"@ || v == "5"@ {
        Some(5)
    } else if v == "june"@ || v == "6"@ {
        Some(6)
    } else if v == "july"@ || v == "7"@ {
        Some(7)
    } else {
        None
    }
}

/// An ASCII capital made small; other characters are kept.
pub open spec fn ascii_lower(c: char) -> char {
    if 'A' <= c <= 'Z' { ((c as u8) + 32) as char } else { c }
}

/// The complaint about a month that cannot be read.
pub open spec fn month_complaint() -> Seq<char> {
    "departure month must be march, april, may, june or july"@
}

fn lowercase(s: &str) -> (r: String)
    ensures
        r@ == s@.map_values(|c: char| ascii_lower(c)),
{
    let n = s.unicode_len();
    let mut out = String::new();
    let mut i: usize = 0;
    while i < n
        invariant
            n == s@.len(),
            i <= n,
            out@ == s@.subrange(0, i as int).map_values(|c: char| ascii_lower(c)),
        decreases n - i,
    {
        let c = s.get_char(i);
        let l = if 'A' <= c && c <= 'Z' { ((c as u8) + 32) as char } else { c };
        push_char(&mut out, l);
        assert(s@.subrange(0, i + 1).map_values(|c: char| ascii_lower(c))
            =~= s@.subrange(0, i as int).map_values(|c: char| ascii_lower(c)).push(ascii_lower(s@[i as int])));
        i = i + 1;
    }
    assert(s@.subrange(0, n as int) =~= s@);
    out
}

/// Reads a departure month from `march` to `july`, by name in any case or by number.
pub fn parse_month(value: &str) -> (r: Result<u8, String>)
    ensures
        match month_named(value@.map_values(|c: char| ascii_lower(c))) {
            Some(m) => r == Ok::<u8, String>(m),
            None => r matches Err(e) && e@ == month_complaint(),
        },
{
    let v = lowercase(value);
    let t = v.as_str();
    if same(t, "march") || same(t, "3") {
        Ok(3)
    } else if same(t, "april") || same(t, "4") {
        Ok(4)
    } else if same(t, "may") || same(t, "5") {
        Ok(5)
    } else if same(t, "june") || same(t, "6") {
        Ok(6)
    } else if same(t, "july") || same(t, "7") {
        Ok(7)
    } else {
        Err("departure month must be march, april, may, june or july".to_owned())
    }
}

/// Printable characters of `s`, in order.
pub open spec fn printable_only(s: Seq<char>) -> Seq<char> {
    s.filter(|c: char| !is_control_char(c))
}

/// `s` without leading white space.
pub open spec fn strip_front(s: Seq<char>) -> Seq<char>
    decreases s.len(),
{
    if s.len() > 0 && is_space(s[0]) { strip_front(s.drop_first()) } else { s }
}

/// `s` without trailing white space.
pub open spec fn strip_back(s: Seq<char>) -> Seq<char>
    decreases s.len(),
{
    if s.len() > 0 && is_space(s.last()) { strip_back(s.drop_last()) } else { s }
}

/// Text from a hall of fame made safe to show: control characters dropped, at most 80
/// characters kept, white space trimmed, and `fallback` when nothing is left.
pub open spec fn cleaned(value: Seq<char>, fallback: Seq<char>) -> Seq<char> {
    let kept = printable_only(value);
    let cut = if kept.len() > 80 { kept.subrange(0, 80) } else { kept };
    let t = strip_back(strip_front(cut));
    if t.len() == 0 { fallback } else { t }
}

pub proof fn lemma_strip_front(s: Seq<char>, lo: int)
    requires
        0 <= lo <= s.len(),
        forall|k: int| 0 <= k < lo ==> is_space(#[trigger] s[k]),
        lo == s.len() || !is_space(s[lo]),
    ensures
        strip_front(s) == s.subrange(lo, s.len() as int),
    decreases lo,
{
    if lo == 0 {
        assert(s.subrange(0, s.len() as int) =~= s);
    } else {
        assert forall|k: int| 0 <= k < lo - 1 implies is_space(#[trigger] s.drop_first()[k]) by {
            assert(s.drop_first()[k] == s[k + 1]);
        }
        lemma_strip_front(s.drop_first(), lo - 1);
        assert(s.drop_first().subrange(lo - 1, s.len() - 1) =~= s.subrange(lo, s.len() as int));
    }
}

pub proof fn lemma_strip_back(s: Seq<char>, hi: int)
    requires
        0 <= hi <= s.len(),
        forall|k: int| hi <= k < s.len() ==> is_space(#[trigger] s[k]),
        hi == 0 || !is_space(s[hi - 1]),
    ensures
        strip_back(s) == s.subrange(0, hi),
    decreases s.len() - hi,
{
    if hi == s.len() {
        assert(s.subrange(0, s.len() as int) =~= s);
    } else {
        assert forall|k: int| hi <= k < s.len() - 1 implies is_space(#[trigger] s.drop_last()[k]) by {
            assert(s.drop_last()[k] == s[k]);
        }
        lemma_strip_back(s.drop_last(), hi);
        assert(s.drop_last().subrange(0, hi) =~= s.subrange(0, hi));
    }
}

/// Makes hall-of-fame text safe to show, or gives the fallback.
pub fn clean(value: &str, fallback: &str) -> (r: String)
    ensures
        r@ == cleaned(value@, fallback@),
{
    let n = value.unicode_len();
    let mut kept: Vec<char> = Vec::new();
    let mut i: usize = 0;
    while i < n
        invariant
            n == value@.len(),
            i <= n,
            kept@ == printable_only(value@.subrange(0, i as int)),
        decreases n - i,
    {
        let c = value.get_char(i);
        assert(value@.subrange(0, i + 1).drop_last() =~= value@.subrange(0, i as int));
        proof { reveal(Seq::filter); }
        if !crate::text::char_is_control(c) {
            kept.push(c);
        }
        i = i + 1;
    }
    assert(value@.subrange(0, n as int) =~= value@);
    let ghost all = kept@;
    let m: usize = if kept.len() > 80 { 80 } else { kept.len() };
    let ghost cut = if all.len() > 80 { all.subrange(0, 80) } else { all };
    assert(cut =~= all.subrange(0, m as int));
    let mut lo: usize = 0;
    while lo < m && crate::text::is_space_char(kept[lo])
        invariant
            lo <= m <= kept@.len(),
            kept@ == all,
            cut == all.subrange(0, m as int),
            forall|k: int| 0 <= k < lo ==> is_space(#[trigger] cut[k]),
        decreases m - lo,
    {
        lo = lo + 1;
    }
    proof { lemma_strip_front(cut, lo as int); }
    let mut hi: usize = m;
    while hi > lo && crate::text::is_space_char(kept[hi - 1])
        invariant
            lo <= hi <= m <= kept@.len(),
            kept@ == all,
            cut == all.subrange(0, m as int),
            forall|k: int| hi <= k < m ==> is_space(#[trigger] cut[k]),
        decreases hi,
    {
        hi = hi - 1;
    }
    let ghost front = cut.subrange(lo as int, m as int);
    proof {
        assert forall|k: int| hi - lo <= k < front.len() implies is_space(#[trigger] front[k]) by {
            assert(front[k] == cut[lo + k]);
        }
        if hi > lo {
            assert(front[hi - lo - 1] == cut[hi - 1]);
        }
        lemma_strip_back(front, hi - lo);
        assert(front.subrange(0, hi - lo) =~= cut.subrange(lo as int, hi as int));
    }
    if hi == lo {
        return fallback.to_owned();
    }
    let mut out = String::new();
    let mut k: usize = lo;
    while k < hi
        invariant
            lo <= k <= hi <= m <= kept@.len(),
            kept@ == all,
            cut == all.subrange(0, m as int),
            out@ == cut.subrange(lo as int, k as int),
        decreases hi - k,
    {
        push_char(&mut out, kept[k]);
        assert(out@ =~= cut.subrange(lo as int, k + 1));
        k = k + 1;
    }
    out
}

} // verus!
