//! Content validation: loaders hand the rules a catalogue, and broken references,
//! impossible numbers and traps on the trail are rejected before a journey starts.

use vstd::prelude::*;
use crate::content::{EraDefinition, OccupationDefinition, ItemDefinition, AilmentDefinition, GameContent, TrailDefinition, LandmarkDefinition, LandmarkKind, Condition, Effect,
    EventChoice, EventDefinition, QuoteDefinition, SpeakerDefinition, LetterDefinition, RouteDefinition};
use crate::seed::utf8_len;
use crate::content::{EraRules, Region};
use crate::text::{printable, same, has_control, is_space};
use crate::state::{find_node, node_named, pos, find_trail, trail_named};
use crate::lookup::{find_first, lemma_first_is, lemma_first_none, lemma_first_facts};
use crate::ui::{strip_front, strip_back};

verus! {

/// Why a catalogue was rejected.
#[derive(Debug, Clone, PartialEq, Eq)]
pub enum ContentError {
    Validation(String),
}

impl ContentError {
    /// The error as a reader sees it.
    pub fn message(&self) -> (r: String)
        ensures
            self matches ContentError::Validation(m) && r@ == "content validation failed: "@ + m@,
    {
        match self {
            ContentError::Validation(m) => {
                let mut r = String::from_str("content validation failed: ");
                vstd::string::StringExecFns::append(&mut r, m.as_str());
                r
            },
        }
    }
}

/// Text a catalogue accepts: not empty, at most `max` bytes, and no control characters.
pub open spec fn text_ok(t: Seq<char>, max: nat) -> bool {
    t.len() > 0 && utf8_len(t) <= max && printable(t)
}

fn byte_len(t: &str) -> (r: u128)
    ensures
        r == utf8_len(t@),
{
    let n = t.unicode_len();
    let mut total: u128 = 0;
    let mut i: usize = 0;
    while i < n
        invariant
            n == t@.len(),
            i <= n,
            total == utf8_len(t@.subrange(0, i as int)),
            total <= 4 * i,
        decreases n - i,
    {
        assert(t@.subrange(0, i + 1).drop_last() =~= t@.subrange(0, i as int));
        let c = t.get_char(i) as u32;
        total = total + if c < 0x80 { 1 } else if c < 0x800 { 2 } else if c < 0x10000 { 3 } else { 4 };
        i = i + 1;
    }
    assert(t@.subrange(0, n as int) =~= t@);
    total
}

/// Whether `text` is acceptable catalogue text of at most `max_len` bytes.
pub fn valid_text(text: &str, max_len: usize) -> (r: bool)
    ensures
        r == text_ok(text@, max_len as nat),
{
    text.unicode_len() > 0 && byte_len(text) <= max_len as u128 && !has_control(text)
}

/// The error for a failed check.
pub fn expect(condition: bool, message: &str) -> (r: Result<(), ContentError>)
    ensures
        condition ==> r is Ok,
        !condition ==> (r matches Err(ContentError::Validation(m)) && m@ == message@),
{
    if condition {
        Ok(())
    } else {
        Err(ContentError::Validation(message.to_owned()))
    }
}

/// Ids a catalogue accepts: each acceptable as text, and no two equal.
pub open spec fn ids_ok(ids: Seq<Seq<char>>) -> bool {
    &&& forall|i: int| 0 <= i < ids.len() ==> (#[trigger] ids[i]).len() > 0 && printable(ids[i])
    &&& forall|i: int, j: int| 0 <= i < j < ids.len() ==> #[trigger] ids[i] != #[trigger] ids[j]
}

/// The characters of each string.
pub open spec fn views(v: Seq<String>) -> Seq<Seq<char>> {
    v.map_values(|s: String| s@)
}

/// The message `lead`, then `kind`, then `tail`.
fn message_for(kind: &str, lead: &str, tail: &str) -> (r: String)
    ensures
        r@ == lead@ + kind@ + tail@,
{
    let mut m = lead.to_owned();
    vstd::string::StringExecFns::append(&mut m, kind);
    vstd::string::StringExecFns::append(&mut m, tail);
    m
}

/// `m` names the first fault of the id list `ids` of the given kind: the first id that is
/// empty or holds a control character, or that repeats an earlier one.
pub open spec fn ids_fault(ids: Seq<Seq<char>>, kind: Seq<char>, m: Seq<char>) -> bool {
    exists|i: int| 0 <= i < ids.len()
        && (forall|a: int| 0 <= a < i ==> (#[trigger] ids[a]).len() > 0 && printable(ids[a]))
        && (forall|a: int, b: int| 0 <= a < b < i ==> #[trigger] ids[a] != #[trigger] ids[b])
        && if (#[trigger] ids[i]).len() == 0 || !printable(ids[i]) {
            m == "invalid "@ + kind + " id"@
        } else {
            (exists|j: int| 0 <= j < i && ids[j] == ids[i]) && m == "duplicate "@ + kind + " id "@ + ids[i]
        }
}

/// Checks that `ids` are acceptable, distinct ids of the given kind.
pub fn unique(ids: &Vec<String>, kind: &str) -> (r: Result<(), ContentError>)
    ensures
        r is Ok <==> ids_ok(views(ids@)),
        r matches Err(ContentError::Validation(m)) ==> ids_fault(views(ids@), kind@, m@),
{
    let ghost v = views(ids@);
    let mut i: usize = 0;
    while i < ids.len()
        invariant
            i <= ids@.len(),
            v == views(ids@),
            forall|a: int| 0 <= a < i ==> (#[trigger] v[a]).len() > 0 && printable(v[a]),
            forall|a: int, b: int| 0 <= a < b < i ==> #[trigger] v[a] != #[trigger] v[b],
        decreases ids@.len() - i,
    {
        let id = ids[i].as_str();
        assert(v[i as int] == id@);
        if id.unicode_len() == 0 || has_control(id) {
            let m = message_for(kind, "invalid ", " id");
            proof {
                assert(ids_fault(v, kind@, m@)) by {
                    assert(v[i as int].len() == 0 || !printable(v[i as int]));
                }
            }
            return Err(ContentError::Validation(m));
        }
        let mut j: usize = 0;
        while j < i
            invariant
                i < ids@.len(),
                j <= i,
                v == views(ids@),
                forall|a: int| 0 <= a < j ==> #[trigger] v[a] != v[i as int],
                v[i as int] == ids@[i as int]@,
                id@ == ids@[i as int]@,
                v[i as int].len() > 0 && printable(v[i as int]),
                forall|a: int| 0 <= a < i ==> (#[trigger] v[a]).len() > 0 && printable(v[a]),
                forall|a: int, b: int| 0 <= a < b < i ==> #[trigger] v[a] != #[trigger] v[b],
            decreases i - j,
        {
            assert(v[j as int] == ids@[j as int]@);
            let other = ids[j].as_str();
            assert(other@ == v[j as int]);
            assert(id@ == v[i as int]);
            if same(other, id) {
                assert(v[j as int] == v[i as int]);
                let mut m = message_for(kind, "duplicate ", " id ");
                vstd::string::StringExecFns::append(&mut m, id);
                proof {
                    assert(ids_fault(v, kind@, m@)) by {
                        assert(0 <= j < i && v[j as int] == v[i as int]);
                        assert(m@ == "duplicate "@ + kind@ + " id "@ + v[i as int]);
                    }
                }
                return Err(ContentError::Validation(m));
            }
            j = j + 1;
        }
        i = i + 1;
    }
    Ok(())
}


// ---------------------------------------------------------------------------------------
// Ids.

/// The body of a quote: the text after its first colon, trimmed; all of it without one.
pub open spec fn quote_body(t: Seq<char>) -> Seq<char> {
    match find_first(t, |ch: char| ch == ':') {
        Some(i) => strip_back(strip_front(t.subrange(i + 1, t.len() as int))),
        None => t,
    }
}

/// Every id list of the catalogue is acceptable, as are event texts and quote bodies.
pub open spec fn ids_section_ok(c: GameContent) -> bool {
    &&& ids_ok(c.eras@.map_values(|x: EraDefinition| x.id@))
    &&& ids_ok(c.trails@.map_values(|x: TrailDefinition| x.id@))
    &&& ids_ok(c.occupations@.map_values(|x: OccupationDefinition| x.id@))
    &&& ids_ok(c.items@.map_values(|x: ItemDefinition| x.id@))
    &&& ids_ok(c.ailments@.map_values(|x: AilmentDefinition| x.id@))
    &&& ids_ok(c.events@.map_values(|x: EventDefinition| x.id@))
    &&& ids_ok(c.quotes@.map_values(|x: QuoteDefinition| x.id@))
    &&& ids_ok(c.letters@.map_values(|x: LetterDefinition| x.id@))
    &&& ids_ok(c.speakers@.map_values(|x: SpeakerDefinition| x.id@))
    &&& ids_ok(c.events@.map_values(|x: EventDefinition| x.text@))
    &&& ids_ok(c.quotes@.map_values(|x: QuoteDefinition| quote_body(x.text@)))
}

fn trim_text(s: &str) -> (r: String)
    ensures
        r@ == strip_back(strip_front(s@)),
{
    let n = s.unicode_len();
    let mut lo: usize = 0;
    while lo < n && crate::text::is_space_char(s.get_char(lo))
        invariant
            lo <= n,
            n == s@.len(),
            forall|k: int| 0 <= k < lo ==> is_space(#[trigger] s@[k]),
        decreases n - lo,
    {
        lo = lo + 1;
    }
    proof { crate::ui::lemma_strip_front(s@, lo as int); }
    let mut hi: usize = n;
    while hi > lo && crate::text::is_space_char(s.get_char(hi - 1))
        invariant
            lo <= hi <= n,
            n == s@.len(),
            forall|k: int| hi <= k < n ==> is_space(#[trigger] s@[k]),
        decreases hi,
    {
        hi = hi - 1;
    }
    let ghost front = s@.subrange(lo as int, n as int);
    proof {
        assert forall|k: int| hi - lo <= k < front.len() implies is_space(#[trigger] front[k]) by {
            assert(front[k] == s@[lo + k]);
        }
        if hi > lo {
            assert(front[hi - lo - 1] == s@[hi - 1]);
        }
        crate::ui::lemma_strip_back(front, hi - lo);
        assert(front.subrange(0, hi - lo) =~= s@.subrange(lo as int, hi as int));
    }
    s.substring_char(lo, hi).to_owned()
}

fn body_of(t: &str) -> (r: String)
    ensures
        r@ == quote_body(t@),
{
    let n = t.unicode_len();
    let mut i: usize = 0;
    while i < n
        invariant
            i <= n,
            n == t@.len(),
            forall|k: int| 0 <= k < i ==> !(|ch: char| ch == ':')(#[trigger] t@[k]),
        decreases n - i,
    {
        if t.get_char(i) == ':' {
            proof { lemma_first_is(t@, |ch: char| ch == ':', i as int); }
            let rest = t.substring_char(i + 1, n);
            return trim_text(rest);
        }
        i = i + 1;
    }
    proof { lemma_first_none(t@, |ch: char| ch == ':'); }
    t.to_owned()
}

/// `m` names a fault of one of the catalogue's id lists, its event texts or its quote bodies.
pub open spec fn ids_section_fault(c: GameContent, m: Seq<char>) -> bool {
    ||| ids_fault(c.eras@.map_values(|x: EraDefinition| x.id@), "era"@, m)
    ||| ids_fault(c.trails@.map_values(|x: TrailDefinition| x.id@), "trail"@, m)
    ||| ids_fault(c.occupations@.map_values(|x: OccupationDefinition| x.id@), "occupation"@, m)
    ||| ids_fault(c.items@.map_values(|x: ItemDefinition| x.id@), "item"@, m)
    ||| ids_fault(c.ailments@.map_values(|x: AilmentDefinition| x.id@), "ailment"@, m)
    ||| ids_fault(c.events@.map_values(|x: EventDefinition| x.id@), "event"@, m)
    ||| ids_fault(c.quotes@.map_values(|x: QuoteDefinition| x.id@), "quote"@, m)
    ||| ids_fault(c.letters@.map_values(|x: LetterDefinition| x.id@), "letter"@, m)
    ||| ids_fault(c.speakers@.map_values(|x: SpeakerDefinition| x.id@), "speaker"@, m)
    ||| ids_fault(c.events@.map_values(|x: EventDefinition| x.text@), "event text"@, m)
    ||| ids_fault(c.quotes@.map_values(|x: QuoteDefinition| quote_body(x.text@)), "quote body"@, m)
}

/// `m` names a fault of the first unacceptable id list of the catalogue, the lists taken
/// in the order eras, trails, occupations, items, ailments, events, quotes, letters,
/// speakers, event texts, quote bodies.
pub open spec fn ids_first_fault(c: GameContent, m: Seq<char>) -> bool {
    if !ids_ok(c.eras@.map_values(|x: EraDefinition| x.id@)) {
        ids_fault(c.eras@.map_values(|x: EraDefinition| x.id@), "era"@, m)
    } else if !ids_ok(c.trails@.map_values(|x: TrailDefinition| x.id@)) {
        ids_fault(c.trails@.map_values(|x: TrailDefinition| x.id@), "trail"@, m)
    } else if !ids_ok(c.occupations@.map_values(|x: OccupationDefinition| x.id@)) {
        ids_fault(c.occupations@.map_values(|x: OccupationDefinition| x.id@), "occupation"@, m)
    } else if !ids_ok(c.items@.map_values(|x: ItemDefinition| x.id@)) {
        ids_fault(c.items@.map_values(|x: ItemDefinition| x.id@), "item"@, m)
    } else if !ids_ok(c.ailments@.map_values(|x: AilmentDefinition| x.id@)) {
        ids_fault(c.ailments@.map_values(|x: AilmentDefinition| x.id@), "ailment"@, m)
    } else if !ids_ok(c.events@.map_values(|x: EventDefinition| x.id@)) {
        ids_fault(c.events@.map_values(|x: EventDefinition| x.id@), "event"@, m)
    } else if !ids_ok(c.quotes@.map_values(|x: QuoteDefinition| x.id@)) {
        ids_fault(c.quotes@.map_values(|x: QuoteDefinition| x.id@), "quote"@, m)
    } else if !ids_ok(c.letters@.map_values(|x: LetterDefinition| x.id@)) {
        ids_fault(c.letters@.map_values(|x: LetterDefinition| x.id@), "letter"@, m)
    } else if !ids_ok(c.speakers@.map_values(|x: SpeakerDefinition| x.id@)) {
        ids_fault(c.speakers@.map_values(|x: SpeakerDefinition| x.id@), "speaker"@, m)
    } else if !ids_ok(c.events@.map_values(|x: EventDefinition| x.text@)) {
        ids_fault(c.events@.map_values(|x: EventDefinition| x.text@), "event text"@, m)
    } else {
        ids_fault(c.quotes@.map_values(|x: QuoteDefinition| quote_body(x.text@)), "quote body"@, m)
    }
}

fn ids_section(c: &GameContent) -> (r: Result<(), ContentError>)
    ensures
        r is Ok <==> ids_section_ok(*c),
        r matches Err(ContentError::Validation(m)) ==> ids_section_fault(*c, m@),
        r matches Err(ContentError::Validation(m)) ==> ids_first_fault(*c, m@),
{
    let mut v: Vec<String> = Vec::new();
    let mut i: usize = 0;
    while i < c.eras.len()
        invariant
            i <= c.eras@.len(),
            v@.len() == i,
            forall|k: int| 0 <= k < i ==> #[trigger] v@[k]@ == c.eras@[k].id@,
        decreases c.eras@.len() - i,
    {
        v.push(c.eras[i].id.clone());
        i = i + 1;
    }
    assert(views(v@) =~= c.eras@.map_values(|x: EraDefinition| x.id@));
    unique(&v, "era")?;
    let mut v: Vec<String> = Vec::new();
    let mut i: usize = 0;
    while i < c.trails.len()
        invariant
            i <= c.trails@.len(),
            v@.len() == i,
            forall|k: int| 0 <= k < i ==> #[trigger] v@[k]@ == c.trails@[k].id@,
        decreases c.trails@.len() - i,
    {
        v.push(c.trails[i].id.clone());
        i = i + 1;
    }
    assert(views(v@) =~= c.trails@.map_values(|x: TrailDefinition| x.id@));
    unique(&v, "trail")?;
    let mut v: Vec<String> = Vec::new();
    let mut i: usize = 0;
    while i < c.occupations.len()
        invariant
            i <= c.occupations@.len(),
            v@.len() == i,
            forall|k: int| 0 <= k < i ==> #[trigger] v@[k]@ == c.occupations@[k].id@,
        decreases c.occupations@.len() - i,
    {
        v.push(c.occupations[i].id.clone());
        i = i + 1;
    }
    assert(views(v@) =~= c.occupations@.map_values(|x: OccupationDefinition| x.id@));
    unique(&v, "occupation")?;
    let mut v: Vec<String> = Vec::new();
    let mut i: usize = 0;
    while i < c.items.len()
        invariant
            i <= c.items@.len(),
            v@.len() == i,
            forall|k: int| 0 <= k < i ==> #[trigger] v@[k]@ == c.items@[k].id@,
        decreases c.items@.len() - i,
    {
        v.push(c.items[i].id.clone());
        i = i + 1;
    }
    assert(views(v@) =~= c.items@.map_values(|x: ItemDefinition| x.id@));
    unique(&v, "item")?;
    let mut v: Vec<String> = Vec::new();
    let mut i: usize = 0;
    while i < c.ailments.len()
        invariant
            i <= c.ailments@.len(),
            v@.len() == i,
            forall|k: int| 0 <= k < i ==> #[trigger] v@[k]@ == c.ailments@[k].id@,
        decreases c.ailments@.len() - i,
    {
        v.push(c.ailments[i].id.clone());
        i = i + 1;
    }
    assert(views(v@) =~= c.ailments@.map_values(|x: AilmentDefinition| x.id@));
    unique(&v, "ailment")?;
    let mut v: Vec<String> = Vec::new();
    let mut i: usize = 0;
    while i < c.events.len()
        invariant
            i <= c.events@.len(),
            v@.len() == i,
            forall|k: int| 0 <= k < i ==> #[trigger] v@[k]@ == c.events@[k].id@,
        decreases c.events@.len() - i,
    {
        v.push(c.events[i].id.clone());
        i = i + 1;
    }
    assert(views(v@) =~= c.events@.map_values(|x: EventDefinition| x.id@));
    unique(&v, "event")?;
    let mut v: Vec<String> = Vec::new();
    let mut i: usize = 0;
    while i < c.quotes.len()
        invariant
            i <= c.quotes@.len(),
            v@.len() == i,
            forall|k: int| 0 <= k < i ==> #[trigger] v@[k]@ == c.quotes@[k].id@,
        decreases c.quotes@.len() - i,
    {
        v.push(c.quotes[i].id.clone());
        i = i + 1;
    }
    assert(views(v@) =~= c.quotes@.map_values(|x: QuoteDefinition| x.id@));
    unique(&v, "quote")?;
    let mut v: Vec<String> = Vec::new();
    let mut i: usize = 0;
    while i < c.letters.len()
        invariant
            i <= c.letters@.len(),
            v@.len() == i,
            forall|k: int| 0 <= k < i ==> #[trigger] v@[k]@ == c.letters@[k].id@,
        decreases c.letters@.len() - i,
    {
        v.push(c.letters[i].id.clone());
        i = i + 1;
    }
    assert(views(v@) =~= c.letters@.map_values(|x: LetterDefinition| x.id@));
    unique(&v, "letter")?;
    let mut v: Vec<String> = Vec::new();
    let mut i: usize = 0;
    while i < c.speakers.len()
        invariant
            i <= c.speakers@.len(),
            v@.len() == i,
            forall|k: int| 0 <= k < i ==> #[trigger] v@[k]@ == c.speakers@[k].id@,
        decreases c.speakers@.len() - i,
    {
        v.push(c.speakers[i].id.clone());
        i = i + 1;
    }
    assert(views(v@) =~= c.speakers@.map_values(|x: SpeakerDefinition| x.id@));
    unique(&v, "speaker")?;
    let mut v: Vec<String> = Vec::new();
    let mut i: usize = 0;
    while i < c.events.len()
        invariant
            i <= c.events@.len(),
            v@.len() == i,
            forall|k: int| 0 <= k < i ==> #[trigger] v@[k]@ == c.events@[k].text@,
        decreases c.events@.len() - i,
    {
        v.push(c.events[i].text.clone());
        i = i + 1;
    }
    assert(views(v@) =~= c.events@.map_values(|x: EventDefinition| x.text@));
    unique(&v, "event text")?;
    let mut v: Vec<String> = Vec::new();
    let mut i: usize = 0;
    while i < c.quotes.len()
        invariant
            i <= c.quotes@.len(),
            v@.len() == i,
            forall|k: int| 0 <= k < i ==> #[trigger] v@[k]@ == quote_body(c.quotes@[k].text@),
        decreases c.quotes@.len() - i,
    {
        v.push(body_of(c.quotes[i].text.as_str()));
        i = i + 1;
    }
    assert(views(v@) =~= c.quotes@.map_values(|x: QuoteDefinition| quote_body(x.text@)));
    unique(&v, "quote body")?;
    Ok(())
}


// ---------------------------------------------------------------------------------------
// Membership.

/// Some landmark of some trail has id `id`.
pub open spec fn is_landmark(c: GameContent, id: Seq<char>) -> bool {
    exists|t: int, n: int| 0 <= t < c.trails@.len() && 0 <= n < c.trails@[t].nodes@.len() && #[trigger] c.trails@[t].nodes@[n].id@ == id
}

/// Some fort of some trail has id `id`.
pub open spec fn is_fort(c: GameContent, id: Seq<char>) -> bool {
    exists|t: int, n: int| 0 <= t < c.trails@.len() && 0 <= n < c.trails@[t].nodes@.len()
        && #[trigger] c.trails@[t].nodes@[n].id@ == id && c.trails@[t].nodes@[n].kind == LandmarkKind::Fort
}

/// Some store of some trail has id `id`.
pub open spec fn is_store(c: GameContent, id: Seq<char>) -> bool {
    exists|t: int, n: int| 0 <= t < c.trails@.len() && 0 <= n < c.trails@[t].nodes@.len()
        && #[trigger] c.trails@[t].nodes@[n].id@ == id && c.trails@[t].nodes@[n].store
}

/// Some event has id `id`.
pub open spec fn is_event(c: GameContent, id: Seq<char>) -> bool {
    exists|k: int| 0 <= k < c.events@.len() && #[trigger] c.events@[k].id@ == id
}

/// Some era has id `id`.
pub open spec fn is_era(c: GameContent, id: Seq<char>) -> bool {
    exists|k: int| 0 <= k < c.eras@.len() && #[trigger] c.eras@[k].id@ == id
}

/// A landmark of the catalogue that satisfies `want`, by kind and store.
fn find_landmark(c: &GameContent, id: &str, fort: bool, store: bool) -> (r: bool)
    ensures
        !fort && !store ==> r == is_landmark(*c, id@),
        fort && !store ==> r == is_fort(*c, id@),
        !fort && store ==> r == is_store(*c, id@),
{
    let mut t: usize = 0;
    while t < c.trails.len()
        invariant
            t <= c.trails@.len(),
            forall|a: int, n: int| 0 <= a < t && 0 <= n < c.trails@[a].nodes@.len() && #[trigger] c.trails@[a].nodes@[n].id@ == id@
                ==> !(!fort || c.trails@[a].nodes@[n].kind == LandmarkKind::Fort) || !(!store || c.trails@[a].nodes@[n].store),
        decreases c.trails@.len() - t,
    {
        let nodes = &c.trails[t].nodes;
        let mut n: usize = 0;
        while n < nodes.len()
            invariant
                t < c.trails@.len(),
                nodes@ == c.trails@[t as int].nodes@,
                n <= nodes@.len(),
                forall|a: int, m: int| 0 <= a < t && 0 <= m < c.trails@[a].nodes@.len() && #[trigger] c.trails@[a].nodes@[m].id@ == id@
                    ==> !(!fort || c.trails@[a].nodes@[m].kind == LandmarkKind::Fort) || !(!store || c.trails@[a].nodes@[m].store),
                forall|m: int| 0 <= m < n && #[trigger] nodes@[m].id@ == id@
                    ==> !(!fort || nodes@[m].kind == LandmarkKind::Fort) || !(!store || nodes@[m].store),
            decreases nodes@.len() - n,
        {
            if same(nodes[n].id.as_str(), id) && (!fort || nodes[n].kind == LandmarkKind::Fort) && (!store || nodes[n].store) {
                assert(c.trails@[t as int].nodes@[n as int].id@ == id@);
                return true;
            }
            n = n + 1;
        }
        proof {
            assert forall|a: int, m: int| 0 <= a < t + 1 && 0 <= m < c.trails@[a].nodes@.len() && #[trigger] c.trails@[a].nodes@[m].id@ == id@
                implies !(!fort || c.trails@[a].nodes@[m].kind == LandmarkKind::Fort) || !(!store || c.trails@[a].nodes@[m].store) by {
                if a == t {
                    assert(nodes@[m] == c.trails@[a].nodes@[m]);
                    assert(nodes@[m].id@ == id@);
                    assert(m < n);
                }
            }
        }
        t = t + 1;
    }
    false
}

fn find_event_id(c: &GameContent, id: &str) -> (r: bool)
    ensures
        r == is_event(*c, id@),
{
    let mut k: usize = 0;
    while k < c.events.len()
        invariant
            k <= c.events@.len(),
            forall|j: int| 0 <= j < k ==> #[trigger] c.events@[j].id@ != id@,
        decreases c.events@.len() - k,
    {
        if same(c.events[k].id.as_str(), id) {
            return true;
        }
        k = k + 1;
    }
    false
}

fn find_era_id(c: &GameContent, id: &str) -> (r: bool)
    ensures
        r == is_era(*c, id@),
{
    let mut k: usize = 0;
    while k < c.eras.len()
        invariant
            k <= c.eras@.len(),
            forall|j: int| 0 <= j < k ==> #[trigger] c.eras@[j].id@ != id@,
        decreases c.eras@.len() - k,
    {
        if same(c.eras[k].id.as_str(), id) {
            return true;
        }
        k = k + 1;
    }
    false
}

// ---------------------------------------------------------------------------------------
// Occupations, ailments, items, quotes and speakers.

/// Occupations start with no debt and score with a positive multiplier.
pub open spec fn occupations_ok(c: GameContent) -> bool {
    forall|k: int| 0 <= k < c.occupations@.len() ==> (#[trigger] c.occupations@[k]).starting_cash_cents >= 0
        && c.occupations@[k].score_multiplier_milli > 0
}

/// Ailments hurt, have a severity, and kill no more often than always.
pub open spec fn ailments_ok(c: GameContent) -> bool {
    forall|k: int| 0 <= k < c.ailments@.len() ==> (#[trigger] c.ailments@[k]).severity > 0
        && c.ailments@[k].daily_damage > 0 && c.ailments@[k].mortality_per_mille <= 1000
}

/// Items can be bought and cost nothing negative.
pub open spec fn items_ok(c: GameContent) -> bool {
    forall|k: int| 0 <= k < c.items@.len() ==> (#[trigger] c.items@[k]).limit > 0 && c.items@[k].price_cents >= 0
}

/// The state tags a quote may carry.
pub open spec fn tag_ok(t: Seq<char>) -> bool {
    t == "hungry"@ || t == "sick"@ || t == "wealthy"@ || t == "late"@ || t == "cold"@ || t == "weary"@
        || t == "homesick"@ || t == "grieving"@ || t == "hopeful"@ || t == "thirsty"@
}

/// A quote is named (its text has a colon) and concise, has a season, names only real
/// landmarks, and carries only known tags.
pub open spec fn quote_ok(c: GameContent, q: QuoteDefinition) -> bool {
    &&& text_ok(q.text@, 240)
    &&& q.text@.contains(':')
    &&& q.seasons@.len() > 0
    &&& (q.landmark_id matches Some(id) ==> is_landmark(c, id@))
    &&& forall|k: int| 0 <= k < q.state_tags@.len() ==> tag_ok(#[trigger] q.state_tags@[k]@)
}

/// A speaker stands at a fort, has a name, two distinct greetings, and a small favor.
pub open spec fn speaker_ok(c: GameContent, s: SpeakerDefinition) -> bool {
    &&& is_fort(c, s.landmark_id@)
    &&& text_ok(s.name@, 60)
    &&& text_ok(s.greeting@, 240)
    &&& text_ok(s.returning_greeting@, 240)
    &&& s.greeting@ != s.returning_greeting@
    &&& 0 < s.favor_food_lbs <= 50
}

/// `m` names the first fault of the first unsound occupation.
pub open spec fn occupation_fault(c: GameContent, m: Seq<char>) -> bool {
    exists|k: int| 0 <= k < c.occupations@.len()
        && (forall|a: int| 0 <= a < k ==> (#[trigger] c.occupations@[a]).starting_cash_cents >= 0 && c.occupations@[a].score_multiplier_milli > 0)
        && if (#[trigger] c.occupations@[k]).starting_cash_cents < 0 {
            m == "occupation "@ + c.occupations@[k].id@ + " has negative cash"@
        } else {
            c.occupations@[k].score_multiplier_milli == 0 && m == "occupation "@ + c.occupations@[k].id@ + " has invalid multiplier"@
        }
}

/// `m` names the fault of the first unsound ailment.
pub open spec fn ailment_fault(c: GameContent, m: Seq<char>) -> bool {
    exists|k: int| 0 <= k < c.ailments@.len()
        && (forall|a: int| 0 <= a < k ==> (#[trigger] c.ailments@[a]).severity > 0 && c.ailments@[a].daily_damage > 0 && c.ailments@[a].mortality_per_mille <= 1000)
        && !((#[trigger] c.ailments@[k]).severity > 0 && c.ailments@[k].daily_damage > 0 && c.ailments@[k].mortality_per_mille <= 1000)
        && m == "ailment "@ + c.ailments@[k].id@ + " has invalid ranges"@
}

/// `m` names the first fault of the first unsound item.
pub open spec fn item_fault(c: GameContent, m: Seq<char>) -> bool {
    exists|k: int| 0 <= k < c.items@.len()
        && (forall|a: int| 0 <= a < k ==> (#[trigger] c.items@[a]).limit > 0 && c.items@[a].price_cents >= 0)
        && if (#[trigger] c.items@[k]).limit == 0 {
            m == "item "@ + c.items@[k].id@ + " has zero limit"@
        } else {
            c.items@[k].price_cents < 0 && m == "item "@ + c.items@[k].id@ + " has negative price"@
        }
}

/// `m` names a fault of an occupation, an ailment or an item.
pub open spec fn plain_fault(c: GameContent, m: Seq<char>) -> bool {
    occupation_fault(c, m) || ailment_fault(c, m) || item_fault(c, m)
}

/// `m` names a fault of the occupations when they are unsound, else of the ailments when
/// they are, else of the items.
pub open spec fn plain_first_fault(c: GameContent, m: Seq<char>) -> bool {
    if !occupations_ok(c) { occupation_fault(c, m) } else if !ailments_ok(c) { ailment_fault(c, m) } else { item_fault(c, m) }
}

fn plain_checks(c: &GameContent) -> (r: Result<(), ContentError>)
    ensures
        r is Ok <==> occupations_ok(*c) && ailments_ok(*c) && items_ok(*c),
        r matches Err(ContentError::Validation(m)) ==> plain_fault(*c, m@),
        r matches Err(ContentError::Validation(m)) ==> plain_first_fault(*c, m@),
{
    let mut k: usize = 0;
    while k < c.occupations.len()
        invariant
            k <= c.occupations@.len(),
            forall|j: int| 0 <= j < k ==> (#[trigger] c.occupations@[j]).starting_cash_cents >= 0 && c.occupations@[j].score_multiplier_milli > 0,
        decreases c.occupations@.len() - k,
    {
        let o = &c.occupations[k];
        if o.starting_cash_cents < 0 {
            let m = message_for(o.id.as_str(), "occupation ", " has negative cash");
            proof { assert(c.occupations@[k as int].starting_cash_cents < 0); assert(occupation_fault(*c, m@)); }
            return Err(ContentError::Validation(m));
        }
        if o.score_multiplier_milli == 0 {
            let m = message_for(o.id.as_str(), "occupation ", " has invalid multiplier");
            proof { assert(c.occupations@[k as int].score_multiplier_milli == 0); assert(occupation_fault(*c, m@)); }
            return Err(ContentError::Validation(m));
        }
        k = k + 1;
    }
    let mut k: usize = 0;
    while k < c.ailments.len()
        invariant
            k <= c.ailments@.len(),
            occupations_ok(*c),
            forall|j: int| 0 <= j < k ==> (#[trigger] c.ailments@[j]).severity > 0 && c.ailments@[j].daily_damage > 0 && c.ailments@[j].mortality_per_mille <= 1000,
        decreases c.ailments@.len() - k,
    {
        let a = &c.ailments[k];
        if !(a.severity > 0 && a.daily_damage > 0 && a.mortality_per_mille <= 1000) {
            let m = message_for(a.id.as_str(), "ailment ", " has invalid ranges");
            proof { assert(c.ailments@[k as int] == *a); assert(ailment_fault(*c, m@)); }
            return Err(ContentError::Validation(m));
        }
        k = k + 1;
    }
    let mut k: usize = 0;
    while k < c.items.len()
        invariant
            k <= c.items@.len(),
            occupations_ok(*c),
            ailments_ok(*c),
            forall|j: int| 0 <= j < k ==> (#[trigger] c.items@[j]).limit > 0 && c.items@[j].price_cents >= 0,
        decreases c.items@.len() - k,
    {
        let it = &c.items[k];
        if it.limit == 0 {
            let m = message_for(it.id.as_str(), "item ", " has zero limit");
            proof { assert(c.items@[k as int].limit == 0); assert(item_fault(*c, m@)); }
            return Err(ContentError::Validation(m));
        }
        if it.price_cents < 0 {
            let m = message_for(it.id.as_str(), "item ", " has negative price");
            proof { assert(c.items@[k as int].price_cents < 0); assert(item_fault(*c, m@)); }
            return Err(ContentError::Validation(m));
        }
        k = k + 1;
    }
    Ok(())
}

fn tag_allowed(t: &str) -> (r: bool)
    ensures
        r == tag_ok(t@),
{
    same(t, "hungry") || same(t, "sick") || same(t, "wealthy") || same(t, "late") || same(t, "cold")
        || same(t, "weary") || same(t, "homesick") || same(t, "grieving") || same(t, "hopeful") || same(t, "thirsty")
}

fn has_colon(t: &str) -> (r: bool)
    ensures
        r == t@.contains(':'),
{
    let n = t.unicode_len();
    let mut i: usize = 0;
    while i < n
        invariant
            i <= n,
            n == t@.len(),
            forall|k: int| 0 <= k < i ==> t@[k] != ':',
        decreases n - i,
    {
        if t.get_char(i) == ':' {
            return true;
        }
        i = i + 1;
    }
    false
}

/// `m` names the first fault of quote `q`, its checks taken in order: its text, its
/// seasons, its landmark, its state tags.
pub open spec fn quote_fault(c: GameContent, q: QuoteDefinition, m: Seq<char>) -> bool {
    if !(text_ok(q.text@, 240) && q.text@.contains(':')) {
        m == "quote "@ + q.id@ + " must be named and concise"@
    } else if q.seasons@.len() == 0 {
        m == "quote "@ + q.id@ + " needs at least one season"@
    } else if q.landmark_id matches Some(p) && !is_landmark(c, p@) {
        m == "quote "@ + q.id@ + " names unknown landmark "@ + q.landmark_id->0@
    } else {
        (exists|k: int| 0 <= k < q.state_tags@.len() && !tag_ok(#[trigger] q.state_tags@[k]@))
            && m == "quote "@ + q.id@ + " has an unsupported state tag"@
    }
}

/// `m` names the first fault of speaker `s`, its checks taken in order: its landmark, its
/// name, its greetings, its favor.
pub open spec fn speaker_fault(c: GameContent, s: SpeakerDefinition, m: Seq<char>) -> bool {
    if !is_fort(c, s.landmark_id@) {
        m == "speaker "@ + s.id@ + " names a non-fort landmark "@ + s.landmark_id@
    } else if !text_ok(s.name@, 60) {
        m == "speaker "@ + s.id@ + " needs a name"@
    } else if !(text_ok(s.greeting@, 240) && text_ok(s.returning_greeting@, 240) && s.greeting@ != s.returning_greeting@) {
        m == "speaker "@ + s.id@ + " needs distinct first-meeting and returning greetings"@
    } else {
        !(0 < s.favor_food_lbs <= 50) && m == "speaker "@ + s.id@ + " favor_food_lbs must stay a small, bounded amount"@
    }
}

/// `m` names a fault of the first unsound quote, or, when every quote is sound, of the
/// first unsound speaker.
pub open spec fn talk_fault(c: GameContent, m: Seq<char>) -> bool {
    ||| exists|k: int| 0 <= k < c.quotes@.len() && #[trigger] quote_fault(c, c.quotes@[k], m)
            && forall|a: int| 0 <= a < k ==> #[trigger] quote_ok(c, c.quotes@[a])
    ||| (forall|a: int| 0 <= a < c.quotes@.len() ==> #[trigger] quote_ok(c, c.quotes@[a]))
        && exists|k: int| 0 <= k < c.speakers@.len() && #[trigger] speaker_fault(c, c.speakers@[k], m)
            && forall|a: int| 0 <= a < k ==> #[trigger] speaker_ok(c, c.speakers@[a])
}

fn quote_check(c: &GameContent, q: &QuoteDefinition) -> (r: Result<(), ContentError>)
    ensures
        r is Ok <==> quote_ok(*c, *q),
        r matches Err(ContentError::Validation(m)) ==> quote_fault(*c, *q, m@),
{
    let id = q.id.as_str();
    expect(valid_text(q.text.as_str(), 240) && has_colon(q.text.as_str()), message_for(id, "quote ", " must be named and concise").as_str())?;
    expect(q.seasons.len() != 0, message_for(id, "quote ", " needs at least one season").as_str())?;
    match &q.landmark_id {
        Some(place) => if !find_landmark(c, place.as_str(), false, false) {
            let mut m = message_for(id, "quote ", " names unknown landmark ");
            vstd::string::StringExecFns::append(&mut m, place.as_str());
            return Err(ContentError::Validation(m));
        },
        None => {},
    }
    let mut k: usize = 0;
    while k < q.state_tags.len()
        invariant
            k <= q.state_tags@.len(),
            id@ == q.id@,
            text_ok(q.text@, 240) && q.text@.contains(':'),
            q.seasons@.len() != 0,
            !(q.landmark_id matches Some(p) && !is_landmark(*c, p@)),
            forall|j: int| 0 <= j < k ==> tag_ok(#[trigger] q.state_tags@[j]@),
        decreases q.state_tags@.len() - k,
    {
        if !tag_allowed(q.state_tags[k].as_str()) {
            let m = message_for(id, "quote ", " has an unsupported state tag");
            proof { assert(!tag_ok(q.state_tags@[k as int]@)); assert(quote_fault(*c, *q, m@)); }
            return Err(ContentError::Validation(m));
        }
        k = k + 1;
    }
    Ok(())
}

fn speaker_check(c: &GameContent, s: &SpeakerDefinition) -> (r: Result<(), ContentError>)
    ensures
        r is Ok <==> speaker_ok(*c, *s),
        r matches Err(ContentError::Validation(m)) ==> speaker_fault(*c, *s, m@),
{
    let id = s.id.as_str();
    if !find_landmark(c, s.landmark_id.as_str(), true, false) {
        let mut m = message_for(id, "speaker ", " names a non-fort landmark ");
        vstd::string::StringExecFns::append(&mut m, s.landmark_id.as_str());
        return Err(ContentError::Validation(m));
    }
    expect(valid_text(s.name.as_str(), 60), message_for(id, "speaker ", " needs a name").as_str())?;
    expect(
        valid_text(s.greeting.as_str(), 240) && valid_text(s.returning_greeting.as_str(), 240)
            && !same(s.greeting.as_str(), s.returning_greeting.as_str()),
        message_for(id, "speaker ", " needs distinct first-meeting and returning greetings").as_str(),
    )?;
    expect(
        s.favor_food_lbs > 0 && s.favor_food_lbs <= 50,
        message_for(id, "speaker ", " favor_food_lbs must stay a small, bounded amount").as_str(),
    )
}

fn talk_checks(c: &GameContent) -> (r: Result<(), ContentError>)
    ensures
        r is Ok <==> (forall|k: int| 0 <= k < c.quotes@.len() ==> #[trigger] quote_ok(*c, c.quotes@[k]))
            && (forall|k: int| 0 <= k < c.speakers@.len() ==> #[trigger] speaker_ok(*c, c.speakers@[k])),
        r matches Err(ContentError::Validation(m)) ==> talk_fault(*c, m@),
{
    let mut k: usize = 0;
    while k < c.quotes.len()
        invariant
            k <= c.quotes@.len(),
            forall|j: int| 0 <= j < k ==> #[trigger] quote_ok(*c, c.quotes@[j]),
        decreases c.quotes@.len() - k,
    {
        match quote_check(c, &c.quotes[k]) {
            Err(e) => {
                proof { assert(e matches ContentError::Validation(m) && quote_fault(*c, c.quotes@[k as int], m@)); }
                return Err(e);
            },
            Ok(_) => {},
        }
        k = k + 1;
    }
    let mut k: usize = 0;
    while k < c.speakers.len()
        invariant
            k <= c.speakers@.len(),
            forall|j: int| 0 <= j < c.quotes@.len() ==> #[trigger] quote_ok(*c, c.quotes@[j]),
            forall|j: int| 0 <= j < k ==> #[trigger] speaker_ok(*c, c.speakers@[j]),
        decreases c.speakers@.len() - k,
    {
        match speaker_check(c, &c.speakers[k]) {
            Err(e) => {
                proof { assert(e matches ContentError::Validation(m) && speaker_fault(*c, c.speakers@[k as int], m@)); }
                return Err(e);
            },
            Ok(_) => {},
        }
        k = k + 1;
    }
    Ok(())
}


// ---------------------------------------------------------------------------------------
// Era rules and regions.

/// One era's rules: a known era, percentages within bounds, a guide fee of one to six
/// sets of clothing, closures only of real stores, and event weights only of real
/// events, between a quarter and three times.
pub open spec fn era_rules_entry_ok(c: GameContent, id: Seq<char>, r: EraRules) -> bool {
    &&& is_era(c, id)
    &&& 50 <= r.price_percent <= 200
    &&& 50 <= r.ferry_fee_percent <= 200
    &&& 1 <= r.guide_cost_clothing <= 6
    &&& forall|k: int| 0 <= k < r.unavailable_stores@.len() ==> is_store(c, #[trigger] r.unavailable_stores@[k]@)
    &&& forall|k: int| 0 <= k < r.event_weight_percent.rows().len() ==>
            is_event(c, (#[trigger] r.event_weight_percent.rows()[k]).0@)
            && 25 <= r.event_weight_percent.rows()[k].1 <= 300
}

/// Era rules are sound, and when there are any, every era has them; regions name real
/// landmarks, and when there are any, every landmark has one.
pub open spec fn world_rules_ok(c: GameContent) -> bool {
    &&& forall|k: int| 0 <= k < c.era_rules@.len() ==> #[trigger] era_rules_entry_ok(c, c.era_rules@[k].0@, c.era_rules@[k].1)
    &&& c.era_rules@.len() > 0 ==> forall|e: int| 0 <= e < c.eras@.len() ==> has_rules(c, (#[trigger] c.eras@[e]).id@)
    &&& forall|k: int| 0 <= k < c.regions@.len() ==> is_landmark(c, (#[trigger] c.regions@[k]).0@)
    &&& c.regions@.len() > 0 ==> forall|t: int, n: int| 0 <= t < c.trails@.len() && 0 <= n < c.trails@[t].nodes@.len() ==>
            has_region(c, (#[trigger] c.trails@[t].nodes@[n]).id@)
}

/// Some era rules are keyed by `id`.
pub open spec fn has_rules(c: GameContent, id: Seq<char>) -> bool {
    exists|k: int| 0 <= k < c.era_rules@.len() && #[trigger] c.era_rules@[k].0@ == id
}

/// Some region is keyed by `id`.
pub open spec fn has_region(c: GameContent, id: Seq<char>) -> bool {
    exists|k: int| 0 <= k < c.regions@.len() && #[trigger] c.regions@[k].0@ == id
}

/// `m` names the first fault of the rules `r` given for era `id`, its checks taken in
/// order: the era, the price, ferry and guide figures, the closed stores one by one, then
/// the event weights one by one (event, then percent).
pub open spec fn era_rules_fault(c: GameContent, id: Seq<char>, r: EraRules, m: Seq<char>) -> bool {
    let rows = r.event_weight_percent.rows();
    if !is_era(c, id) {
        m == "era rules name unknown era "@ + id + ""@
    } else if !(50 <= r.price_percent <= 200) {
        m == "era rules "@ + id + " have invalid price percent"@
    } else if !(50 <= r.ferry_fee_percent <= 200) {
        m == "era rules "@ + id + " have invalid ferry percent"@
    } else if !(1 <= r.guide_cost_clothing <= 6) {
        m == "era rules "@ + id + " have invalid guide clothing cost"@
    } else if exists|k: int| 0 <= k < r.unavailable_stores@.len() && !is_store(c, #[trigger] r.unavailable_stores@[k]@) {
        exists|k: int| 0 <= k < r.unavailable_stores@.len() && !is_store(c, #[trigger] r.unavailable_stores@[k]@)
            && (forall|a: int| 0 <= a < k ==> is_store(c, #[trigger] r.unavailable_stores@[a]@))
            && m == "era rules "@ + id + " name unknown store "@ + r.unavailable_stores@[k]@
    } else {
        exists|k: int| 0 <= k < rows.len() && !(is_event(c, (#[trigger] rows[k]).0@) && 25 <= rows[k].1 <= 300)
            && (forall|a: int| 0 <= a < k ==> is_event(c, (#[trigger] rows[a]).0@) && 25 <= rows[a].1 <= 300)
            && if !is_event(c, rows[k].0@) {
                m == "era rules "@ + id + " name unknown event "@ + rows[k].0@
            } else {
                m == "era rules "@ + id + " have invalid event percent"@
            }
    }
}

/// Every era rules entry is sound.
pub open spec fn era_rules_sound(c: GameContent) -> bool {
    forall|k: int| 0 <= k < c.era_rules@.len() ==> #[trigger] era_rules_entry_ok(c, c.era_rules@[k].0@, c.era_rules@[k].1)
}

/// When there are era rules, every era has them.
pub open spec fn eras_ruled(c: GameContent) -> bool {
    c.era_rules@.len() > 0 ==> forall|e: int| 0 <= e < c.eras@.len() ==> has_rules(c, (#[trigger] c.eras@[e]).id@)
}

/// Every region names a landmark.
pub open spec fn regions_known(c: GameContent) -> bool {
    forall|k: int| 0 <= k < c.regions@.len() ==> is_landmark(c, (#[trigger] c.regions@[k]).0@)
}

/// `m` names a fault of the first unsound era rules entry; when every entry is sound, of
/// the first era without rules; then of the first region naming no landmark; then of a
/// landmark without a region.
pub open spec fn world_fault(c: GameContent, m: Seq<char>) -> bool {
    ||| exists|k: int| 0 <= k < c.era_rules@.len() && #[trigger] era_rules_fault(c, c.era_rules@[k].0@, c.era_rules@[k].1, m)
            && forall|a: int| 0 <= a < k ==> #[trigger] era_rules_entry_ok(c, c.era_rules@[a].0@, c.era_rules@[a].1)
    ||| era_rules_sound(c) && exists|e: int| 0 <= e < c.eras@.len() && c.era_rules@.len() > 0 && !has_rules(c, (#[trigger] c.eras@[e]).id@)
            && m == "era "@ + c.eras@[e].id@ + " has no rules"@
            && forall|x: int| 0 <= x < e ==> has_rules(c, (#[trigger] c.eras@[x]).id@)
    ||| era_rules_sound(c) && eras_ruled(c) && exists|k: int| 0 <= k < c.regions@.len() && !is_landmark(c, (#[trigger] c.regions@[k]).0@)
            && m == "region names unknown landmark "@ + c.regions@[k].0@ + ""@
            && forall|a: int| 0 <= a < k ==> is_landmark(c, (#[trigger] c.regions@[a]).0@)
    ||| era_rules_sound(c) && eras_ruled(c) && regions_known(c)
        && exists|t: int, n: int| 0 <= t < c.trails@.len() && 0 <= n < c.trails@[t].nodes@.len() && c.regions@.len() > 0
            && !has_region(c, (#[trigger] c.trails@[t].nodes@[n]).id@) && m == "landmark "@ + c.trails@[t].nodes@[n].id@ + " has no region"@
}

fn era_rules_entry(c: &GameContent, id: &String, r: &EraRules) -> (ok: Result<(), ContentError>)
    ensures
        ok is Ok <==> era_rules_entry_ok(*c, id@, *r),
        ok matches Err(ContentError::Validation(m)) ==> era_rules_fault(*c, id@, *r, m@),
{
    let era = id.as_str();
    expect(find_era_id(c, era), message_for(era, "era rules name unknown era ", "").as_str())?;
    expect(50 <= r.price_percent && r.price_percent <= 200, message_for(era, "era rules ", " have invalid price percent").as_str())?;
    expect(50 <= r.ferry_fee_percent && r.ferry_fee_percent <= 200, message_for(era, "era rules ", " have invalid ferry percent").as_str())?;
    expect(1 <= r.guide_cost_clothing && r.guide_cost_clothing <= 6, message_for(era, "era rules ", " have invalid guide clothing cost").as_str())?;
    let mut k: usize = 0;
    while k < r.unavailable_stores.len()
        invariant
            k <= r.unavailable_stores@.len(),
            era@ == id@,
            is_era(*c, id@),
            50 <= r.price_percent <= 200,
            50 <= r.ferry_fee_percent <= 200,
            1 <= r.guide_cost_clothing <= 6,
            forall|j: int| 0 <= j < k ==> is_store(*c, #[trigger] r.unavailable_stores@[j]@),
        decreases r.unavailable_stores@.len() - k,
    {
        if !find_landmark(c, r.unavailable_stores[k].as_str(), false, true) {
            let mut m = message_for(era, "era rules ", " name unknown store ");
            vstd::string::StringExecFns::append(&mut m, r.unavailable_stores[k].as_str());
            proof { assert(!is_store(*c, r.unavailable_stores@[k as int]@)); assert(era_rules_fault(*c, id@, *r, m@)); }
            return Err(ContentError::Validation(m));
        }
        k = k + 1;
    }
    let n = r.event_weight_percent.len();
    let mut k: usize = 0;
    while k < n
        invariant
            k <= n,
            n == r.event_weight_percent.rows().len(),
            era@ == id@,
            is_era(*c, id@),
            50 <= r.price_percent <= 200,
            50 <= r.ferry_fee_percent <= 200,
            1 <= r.guide_cost_clothing <= 6,
            forall|j: int| 0 <= j < r.unavailable_stores@.len() ==> is_store(*c, #[trigger] r.unavailable_stores@[j]@),
            forall|j: int| 0 <= j < k ==> is_event(*c, (#[trigger] r.event_weight_percent.rows()[j]).0@)
                && 25 <= r.event_weight_percent.rows()[j].1 <= 300,
        decreases n - k,
    {
        let ev = r.event_weight_percent.key_at(k);
        let pct = r.event_weight_percent.value_at(k);
        if !find_event_id(c, ev.as_str()) {
            let mut m = message_for(era, "era rules ", " name unknown event ");
            vstd::string::StringExecFns::append(&mut m, ev.as_str());
            proof { assert(!is_event(*c, r.event_weight_percent.rows()[k as int].0@)); assert(era_rules_fault(*c, id@, *r, m@)); }
            return Err(ContentError::Validation(m));
        }
        if !(25 <= pct && pct <= 300) {
            let m = message_for(era, "era rules ", " have invalid event percent");
            proof { assert(!(25 <= r.event_weight_percent.rows()[k as int].1 <= 300)); assert(era_rules_fault(*c, id@, *r, m@)); }
            return Err(ContentError::Validation(m));
        }
        k = k + 1;
    }
    Ok(())
}

fn has_rules_for(c: &GameContent, id: &str) -> (r: bool)
    ensures
        r == has_rules(*c, id@),
{
    let mut k: usize = 0;
    while k < c.era_rules.len()
        invariant
            k <= c.era_rules@.len(),
            forall|j: int| 0 <= j < k ==> #[trigger] c.era_rules@[j].0@ != id@,
        decreases c.era_rules@.len() - k,
    {
        if same(c.era_rules[k].0.as_str(), id) {
            return true;
        }
        k = k + 1;
    }
    false
}

fn has_region_for(c: &GameContent, id: &str) -> (r: bool)
    ensures
        r == has_region(*c, id@),
{
    let mut k: usize = 0;
    while k < c.regions.len()
        invariant
            k <= c.regions@.len(),
            forall|j: int| 0 <= j < k ==> #[trigger] c.regions@[j].0@ != id@,
        decreases c.regions@.len() - k,
    {
        if same(c.regions[k].0.as_str(), id) {
            return true;
        }
        k = k + 1;
    }
    false
}

fn world_rules(c: &GameContent) -> (r: Result<(), ContentError>)
    ensures
        r is Ok <==> world_rules_ok(*c),
        r matches Err(ContentError::Validation(m)) ==> world_fault(*c, m@),
{
    let mut k: usize = 0;
    while k < c.era_rules.len()
        invariant
            k <= c.era_rules@.len(),
            forall|j: int| 0 <= j < k ==> #[trigger] era_rules_entry_ok(*c, c.era_rules@[j].0@, c.era_rules@[j].1),
        decreases c.era_rules@.len() - k,
    {
        match era_rules_entry(c, &c.era_rules[k].0, &c.era_rules[k].1) {
            Err(e) => {
                proof { assert(e matches ContentError::Validation(m) && era_rules_fault(*c, c.era_rules@[k as int].0@, c.era_rules@[k as int].1, m@)); }
                return Err(e);
            },
            Ok(_) => {},
        }
        k = k + 1;
    }
    if c.era_rules.len() > 0 {
        let mut e: usize = 0;
        while e < c.eras.len()
            invariant
                e <= c.eras@.len(),
                c.era_rules@.len() > 0,
                forall|j: int| 0 <= j < c.era_rules@.len() ==> #[trigger] era_rules_entry_ok(*c, c.era_rules@[j].0@, c.era_rules@[j].1),
                forall|x: int| 0 <= x < e ==> has_rules(*c, (#[trigger] c.eras@[x]).id@),
            decreases c.eras@.len() - e,
        {
            if !has_rules_for(c, c.eras[e].id.as_str()) {
                assert(!has_rules(*c, c.eras@[e as int].id@));
                let m = message_for(c.eras[e].id.as_str(), "era ", " has no rules");
                proof { assert(world_fault(*c, m@)); }
                return Err(ContentError::Validation(m));
            }
            e = e + 1;
        }
    }
    let mut k: usize = 0;
    while k < c.regions.len()
        invariant
            k <= c.regions@.len(),
            forall|j: int| 0 <= j < c.era_rules@.len() ==> #[trigger] era_rules_entry_ok(*c, c.era_rules@[j].0@, c.era_rules@[j].1),
            c.era_rules@.len() > 0 ==> forall|x: int| 0 <= x < c.eras@.len() ==> has_rules(*c, (#[trigger] c.eras@[x]).id@),
            forall|j: int| 0 <= j < k ==> is_landmark(*c, (#[trigger] c.regions@[j]).0@),
        decreases c.regions@.len() - k,
    {
        if !find_landmark(c, c.regions[k].0.as_str(), false, false) {
            let m = message_for(c.regions[k].0.as_str(), "region names unknown landmark ", "");
            proof { assert(!is_landmark(*c, c.regions@[k as int].0@)); assert(world_fault(*c, m@)); }
            return Err(ContentError::Validation(m));
        }
        k = k + 1;
    }
    if c.regions.len() > 0 {
        let mut t: usize = 0;
        while t < c.trails.len()
            invariant
                t <= c.trails@.len(),
                c.regions@.len() > 0,
                forall|j: int| 0 <= j < c.era_rules@.len() ==> #[trigger] era_rules_entry_ok(*c, c.era_rules@[j].0@, c.era_rules@[j].1),
                c.era_rules@.len() > 0 ==> forall|x: int| 0 <= x < c.eras@.len() ==> has_rules(*c, (#[trigger] c.eras@[x]).id@),
                forall|j: int| 0 <= j < c.regions@.len() ==> is_landmark(*c, (#[trigger] c.regions@[j]).0@),
                forall|a: int, n: int| 0 <= a < t && 0 <= n < c.trails@[a].nodes@.len() ==> has_region(*c, (#[trigger] c.trails@[a].nodes@[n]).id@),
            decreases c.trails@.len() - t,
        {
            let nodes = &c.trails[t].nodes;
            let mut n: usize = 0;
            while n < nodes.len()
                invariant
                    t < c.trails@.len(),
                    c.regions@.len() > 0,
                    era_rules_sound(*c),
                    eras_ruled(*c),
                    regions_known(*c),
                    nodes@ == c.trails@[t as int].nodes@,
                    n <= nodes@.len(),
                    forall|a: int, m: int| 0 <= a < t && 0 <= m < c.trails@[a].nodes@.len() ==> has_region(*c, (#[trigger] c.trails@[a].nodes@[m]).id@),
                    forall|m: int| 0 <= m < n ==> has_region(*c, (#[trigger] nodes@[m]).id@),
                decreases nodes@.len() - n,
            {
                if !has_region_for(c, nodes[n].id.as_str()) {
                    assert(!has_region(*c, c.trails@[t as int].nodes@[n as int].id@));
                    let m = message_for(nodes[n].id.as_str(), "landmark ", " has no region");
                    proof { assert(world_fault(*c, m@)); }
                    return Err(ContentError::Validation(m));
                }
                n = n + 1;
            }
            t = t + 1;
        }
    }
    Ok(())
}


// ---------------------------------------------------------------------------------------
// Trails.

/// Some landmark of the trail has id `id`.
pub open spec fn has_node(t: TrailDefinition, id: Seq<char>) -> bool {
    exists|n: int| 0 <= n < t.nodes@.len() && #[trigger] t.nodes@[n].id@ == id
}

/// Position of the landmark with id `id` on the trail.
pub open spec fn index_of(t: TrailDefinition, id: Seq<char>) -> Option<int> {
    find_first(t.nodes@, node_named(id))
}

/// Some route of landmark `j` leads to landmark `i`.
pub open spec fn step(t: TrailDefinition, j: int, i: int) -> bool {
    exists|q: int| 0 <= q < t.nodes@[j].routes@.len() && #[trigger] index_of(t, t.nodes@[j].routes@[q].target_id@) == Some(i)
}

/// The landmarks reached from landmark `s` in at most `n` steps, never going on from
/// landmark `d` (a position past the last landmark stops nowhere).
pub open spec fn reach_set(t: TrailDefinition, s: int, d: int, n: nat) -> Set<int>
    decreases n,
{
    if n == 0 {
        set![s]
    } else {
        let prev = reach_set(t, s, d, (n - 1) as nat);
        prev.union(Set::new(|i: int| exists|j: int| 0 <= j < t.nodes@.len() && j != d && prev.contains(j) && #[trigger] step(t, j, i)))
    }
}

/// The landmarks that reach landmark `g` in at most `n` steps.
pub open spec fn finish_set(t: TrailDefinition, g: int, n: nat) -> Set<int>
    decreases n,
{
    if n == 0 {
        set![g]
    } else {
        let prev = finish_set(t, g, (n - 1) as nat);
        prev.union(Set::new(|a: int| exists|j: int| 0 <= j < t.nodes@.len() && prev.contains(j) && #[trigger] step(t, a, j)))
    }
}

/// One landmark is well formed: a concise name, distinct routes of positive length to
/// landmarks of the trail, river data exactly where a crossing is, two routes at a fork,
/// none at the goal, and a way on from everywhere else.
pub open spec fn node_ok(t: TrailDefinition, n: LandmarkDefinition) -> bool {
    &&& text_ok(n.name@, 60)
    &&& ids_ok(n.routes@.map_values(|r: RouteDefinition| r.id@))
    &&& forall|q: int| 0 <= q < n.routes@.len() ==> (#[trigger] n.routes@[q]).distance_miles > 0 && has_node(t, n.routes@[q].target_id@)
    &&& (n.river matches Some(r) ==> r.width_feet > 0 && r.depth_feet > 0)
    &&& (n.kind == LandmarkKind::River ==> n.river is Some)
    &&& (n.river is Some ==> n.kind == LandmarkKind::River || n.kind == LandmarkKind::Finale)
    &&& (n.kind == LandmarkKind::Fork ==> n.routes@.len() >= 2)
    &&& (n.id@ == t.goal_node_id@ ==> n.routes@.len() == 0)
    &&& (n.id@ != t.goal_node_id@ ==> n.routes@.len() > 0)
}

/// A trail is well formed: distinct landmarks, a real start and goal, well-formed
/// landmarks, every landmark reached from the start, and the goal reached from every
/// landmark (within as many steps as there are landmarks).
pub open spec fn trail_ok(t: TrailDefinition) -> bool {
    &&& ids_ok(t.nodes@.map_values(|n: LandmarkDefinition| n.id@))
    &&& has_node(t, t.start_node_id@)
    &&& has_node(t, t.goal_node_id@)
    &&& forall|n: int| 0 <= n < t.nodes@.len() ==> #[trigger] node_ok(t, t.nodes@[n])
    &&& forall|i: int| 0 <= i < t.nodes@.len() ==>
            #[trigger] reach_set(t, index_of(t, t.start_node_id@)->0, t.nodes@.len() as int, t.nodes@.len()).contains(i)
    &&& forall|i: int| 0 <= i < t.nodes@.len() ==>
            #[trigger] finish_set(t, index_of(t, t.goal_node_id@)->0, t.nodes@.len()).contains(i)
}

pub(crate) fn trail_has_node(t: &TrailDefinition, id: &str) -> (r: bool)
    ensures
        r == has_node(*t, id@),
{
    let mut n: usize = 0;
    while n < t.nodes.len()
        invariant
            n <= t.nodes@.len(),
            forall|j: int| 0 <= j < n ==> #[trigger] t.nodes@[j].id@ != id@,
        decreases t.nodes@.len() - n,
    {
        if same(t.nodes[n].id.as_str(), id) {
            return true;
        }
        n = n + 1;
    }
    false
}

/// Route `q` of landmark `n` is sound: positive length, to a landmark of trail `t`.
pub open spec fn route_ok(t: TrailDefinition, n: LandmarkDefinition, q: int) -> bool {
    n.routes@[q].distance_miles > 0 && has_node(t, n.routes@[q].target_id@)
}

/// `m` names the first fault of landmark `n` of trail `t`, its checks taken in order: its
/// name, its route ids, its routes one by one (length, then target), its river data, a
/// river without crossing data, river data away from a crossing, a fork with one route,
/// and routes at the goal or none elsewhere.
pub open spec fn node_fault(t: TrailDefinition, n: LandmarkDefinition, m: Seq<char>) -> bool {
    if !text_ok(n.name@, 60) {
        m == "landmark "@ + n.id@ + " has invalid name"@
    } else if !ids_ok(n.routes@.map_values(|r: RouteDefinition| r.id@)) {
        ids_fault(n.routes@.map_values(|r: RouteDefinition| r.id@), "route"@, m)
    } else if exists|q: int| 0 <= q < n.routes@.len() && !#[trigger] route_ok(t, n, q) {
        exists|q: int| 0 <= q < n.routes@.len() && !#[trigger] route_ok(t, n, q)
            && (forall|a: int| 0 <= a < q ==> #[trigger] route_ok(t, n, a))
            && if n.routes@[q].distance_miles == 0 {
                m == "route "@ + n.routes@[q].id@ + " has zero distance"@
            } else {
                m == "route "@ + n.routes@[q].id@ + " has unknown target "@ + n.routes@[q].target_id@
            }
    } else if n.river matches Some(r) && !(r.width_feet > 0 && r.depth_feet > 0) {
        m == "river "@ + n.id@ + " has invalid dimensions"@
    } else if n.kind == LandmarkKind::River && n.river is None {
        m == "river "@ + n.id@ + " is missing crossing data"@
    } else if n.river is Some && !(n.kind == LandmarkKind::River || n.kind == LandmarkKind::Finale) {
        m == "landmark "@ + n.id@ + " has river data but is not a crossing"@
    } else if n.kind == LandmarkKind::Fork && n.routes@.len() < 2 {
        m == "fork "@ + n.id@ + " needs two routes"@
    } else if n.id@ == t.goal_node_id@ {
        n.routes@.len() != 0 && m == "finale "@ + n.id@ + " must not have routes"@
    } else {
        n.routes@.len() == 0 && m == "non-finale "@ + n.id@ + " is a trap"@
    }
}

/// `m` names the first fault of trail `t`, its checks taken in order: its landmark ids,
/// its start, its goal, its first unsound landmark, then a landmark the start does not
/// reach, and last a landmark that does not reach the goal.
pub open spec fn trail_fault(t: TrailDefinition, m: Seq<char>) -> bool {
    let n = t.nodes@.len();
    let fwd = reach_set(t, index_of(t, t.start_node_id@)->0, n as int, n);
    let back = finish_set(t, index_of(t, t.goal_node_id@)->0, n);
    if !ids_ok(t.nodes@.map_values(|x: LandmarkDefinition| x.id@)) {
        ids_fault(t.nodes@.map_values(|x: LandmarkDefinition| x.id@), "landmark"@, m)
    } else if !has_node(t, t.start_node_id@) {
        m == "trail "@ + t.id@ + " has unknown start"@
    } else if !has_node(t, t.goal_node_id@) {
        m == "trail "@ + t.id@ + " has unknown goal"@
    } else if exists|k: int| 0 <= k < n && !#[trigger] node_ok(t, t.nodes@[k]) {
        exists|k: int| 0 <= k < n && !#[trigger] node_ok(t, t.nodes@[k]) && node_fault(t, t.nodes@[k], m)
            && forall|a: int| 0 <= a < k ==> #[trigger] node_ok(t, t.nodes@[a])
    } else if exists|i: int| 0 <= i < n && !#[trigger] fwd.contains(i) {
        m == "trail "@ + t.id@ + " has unreachable nodes"@
    } else {
        (exists|i: int| 0 <= i < n && !#[trigger] back.contains(i))
            && m == "trail "@ + t.id@ + " has a route that cannot reach its goal"@
    }
}

fn node_check(t: &TrailDefinition, n: &LandmarkDefinition) -> (r: Result<(), ContentError>)
    ensures
        r is Ok <==> node_ok(*t, *n),
        r matches Err(ContentError::Validation(m)) ==> node_fault(*t, *n, m@),
{
    if !valid_text(n.name.as_str(), 60) {
        return Err(ContentError::Validation(message_for(n.id.as_str(), "landmark ", " has invalid name")));
    }
    let mut ids: Vec<String> = Vec::new();
    let mut q: usize = 0;
    while q < n.routes.len()
        invariant
            q <= n.routes@.len(),
            ids@.len() == q,
            forall|k: int| 0 <= k < q ==> #[trigger] ids@[k]@ == n.routes@[k].id@,
        decreases n.routes@.len() - q,
    {
        ids.push(n.routes[q].id.clone());
        q = q + 1;
    }
    assert(views(ids@) =~= n.routes@.map_values(|r: RouteDefinition| r.id@));
    unique(&ids, "route")?;
    let mut q: usize = 0;
    while q < n.routes.len()
        invariant
            q <= n.routes@.len(),
            text_ok(n.name@, 60),
            ids_ok(n.routes@.map_values(|r: RouteDefinition| r.id@)),
            forall|k: int| 0 <= k < q ==> (#[trigger] n.routes@[k]).distance_miles > 0 && has_node(*t, n.routes@[k].target_id@),
        decreases n.routes@.len() - q,
    {
        if n.routes[q].distance_miles == 0 {
            let m = message_for(n.routes[q].id.as_str(), "route ", " has zero distance");
            proof {
                assert forall|a: int| 0 <= a < q implies #[trigger] route_ok(*t, *n, a) by {
                    assert(n.routes@[a].distance_miles > 0);
                }
                assert(!route_ok(*t, *n, q as int));
                assert(node_fault(*t, *n, m@));
            }
            return Err(ContentError::Validation(m));
        }
        if !trail_has_node(t, n.routes[q].target_id.as_str()) {
            let mut m = message_for(n.routes[q].id.as_str(), "route ", " has unknown target ");
            vstd::string::StringExecFns::append(&mut m, n.routes[q].target_id.as_str());
            proof {
                assert forall|a: int| 0 <= a < q implies #[trigger] route_ok(*t, *n, a) by {
                    assert(n.routes@[a].distance_miles > 0);
                }
                assert(!route_ok(*t, *n, q as int));
                assert(node_fault(*t, *n, m@));
            }
            return Err(ContentError::Validation(m));
        }
        q = q + 1;
    }
    let dims_ok = match n.river {
        Some(r) => r.width_feet > 0 && r.depth_feet > 0,
        None => true,
    };
    if !dims_ok {
        return Err(ContentError::Validation(message_for(n.id.as_str(), "river ", " has invalid dimensions")));
    }
    if n.kind == LandmarkKind::River && n.river.is_none() {
        return Err(ContentError::Validation(message_for(n.id.as_str(), "river ", " is missing crossing data")));
    }
    if n.river.is_some() && !(n.kind == LandmarkKind::River || n.kind == LandmarkKind::Finale) {
        return Err(ContentError::Validation(message_for(n.id.as_str(), "landmark ", " has river data but is not a crossing")));
    }
    if n.kind == LandmarkKind::Fork && n.routes.len() < 2 {
        return Err(ContentError::Validation(message_for(n.id.as_str(), "fork ", " needs two routes")));
    }
    if same(n.id.as_str(), t.goal_node_id.as_str()) {
        if n.routes.len() != 0 {
            return Err(ContentError::Validation(message_for(n.id.as_str(), "finale ", " must not have routes")));
        }
    } else if n.routes.len() == 0 {
        return Err(ContentError::Validation(message_for(n.id.as_str(), "non-finale ", " is a trap")));
    }
    Ok(())
}

/// `adj` lists, for every landmark, the positions of the landmarks its routes lead to.
pub open spec fn adj_ok(t: TrailDefinition, adj: Seq<Vec<usize>>) -> bool {
    &&& adj.len() == t.nodes@.len()
    &&& forall|j: int| 0 <= j < adj.len() ==> (#[trigger] adj[j])@.len() == t.nodes@[j].routes@.len()
    &&& forall|j: int, q: int| 0 <= j < adj.len() && 0 <= q < adj[j]@.len() ==>
            #[trigger] adj[j]@[q] < t.nodes@.len()
            && index_of(t, t.nodes@[j].routes@[q].target_id@) == Some(adj[j]@[q] as int)
}

pub(crate) proof fn lemma_step(t: TrailDefinition, adj: Seq<Vec<usize>>, j: int, i: int)
    requires
        adj_ok(t, adj),
        0 <= j < adj.len(),
    ensures
        step(t, j, i) <==> exists|q: int| 0 <= q < adj[j]@.len() && #[trigger] adj[j]@[q] == i,
{
    if step(t, j, i) {
        let q = choose|q: int| 0 <= q < t.nodes@[j].routes@.len() && #[trigger] index_of(t, t.nodes@[j].routes@[q].target_id@) == Some(i);
        assert(adj[j]@[q] == i);
    }
    if exists|q: int| 0 <= q < adj[j]@.len() && #[trigger] adj[j]@[q] == i {
        let q = choose|q: int| 0 <= q < adj[j]@.len() && #[trigger] adj[j]@[q] == i;
        assert(index_of(t, t.nodes@[j].routes@[q].target_id@) == Some(i));
    }
}

pub(crate) fn adjacency(t: &TrailDefinition) -> (adj: Vec<Vec<usize>>)
    requires
        forall|j: int, q: int| 0 <= j < t.nodes@.len() && 0 <= q < t.nodes@[j].routes@.len() ==>
            has_node(*t, (#[trigger] t.nodes@[j].routes@[q]).target_id@),
    ensures
        adj_ok(*t, adj@),
{
    let mut adj: Vec<Vec<usize>> = Vec::new();
    let mut j: usize = 0;
    while j < t.nodes.len()
        invariant
            j <= t.nodes@.len(),
            adj@.len() == j,
            forall|a: int, q: int| 0 <= a < t.nodes@.len() && 0 <= q < t.nodes@[a].routes@.len() ==>
                has_node(*t, (#[trigger] t.nodes@[a].routes@[q]).target_id@),
            forall|a: int| 0 <= a < j ==> (#[trigger] adj@[a])@.len() == t.nodes@[a].routes@.len(),
            forall|a: int, q: int| 0 <= a < j && 0 <= q < adj@[a]@.len() ==>
                #[trigger] adj@[a]@[q] < t.nodes@.len()
                && index_of(*t, t.nodes@[a].routes@[q].target_id@) == Some(adj@[a]@[q] as int),
        decreases t.nodes@.len() - j,
    {
        let routes = &t.nodes[j].routes;
        let mut row: Vec<usize> = Vec::new();
        let mut q: usize = 0;
        while q < routes.len()
            invariant
                j < t.nodes@.len(),
                routes@ == t.nodes@[j as int].routes@,
                q <= routes@.len(),
                row@.len() == q,
                forall|a: int, b: int| 0 <= a < t.nodes@.len() && 0 <= b < t.nodes@[a].routes@.len() ==>
                    has_node(*t, (#[trigger] t.nodes@[a].routes@[b]).target_id@),
                forall|b: int| 0 <= b < q ==>
                    #[trigger] row@[b] < t.nodes@.len()
                    && index_of(*t, routes@[b].target_id@) == Some(row@[b] as int),
            decreases routes@.len() - q,
        {
            let found = find_node(&t.nodes, routes[q].target_id.as_str());
            proof {
                lemma_first_facts(t.nodes@, node_named(routes@[q as int].target_id@));
                assert(has_node(*t, t.nodes@[j as int].routes@[q as int].target_id@));
                let w = choose|n: int| 0 <= n < t.nodes@.len() && #[trigger] t.nodes@[n].id@ == routes@[q as int].target_id@;
                assert(node_named(routes@[q as int].target_id@)(t.nodes@[w]));
            }
            let i = match found {
                Some(i) => i,
                None => {
                    proof { assert(false); }
                    0
                },
            };
            row.push(i);
            q = q + 1;
        }
        adj.push(row);
        j = j + 1;
    }
    adj
}

fn leads_to(row: &Vec<usize>, i: usize) -> (r: bool)
    ensures
        r == exists|q: int| 0 <= q < row@.len() && #[trigger] row@[q] == i,
{
    let mut q: usize = 0;
    while q < row.len()
        invariant
            q <= row@.len(),
            forall|b: int| 0 <= b < q ==> #[trigger] row@[b] != i,
        decreases row@.len() - q,
    {
        if row[q] == i {
            return true;
        }
        q = q + 1;
    }
    false
}

/// One round forwards: a landmark is marked when it was, or when a marked landmark other
/// than `d` leads to it.
fn spread(t: &TrailDefinition, adj: &Vec<Vec<usize>>, cur: &Vec<bool>, d: usize) -> (next: Vec<bool>)
    requires
        adj_ok(*t, adj@),
        cur@.len() == t.nodes@.len(),
    ensures
        next@.len() == cur@.len(),
        forall|i: int| 0 <= i < next@.len() ==>
            #[trigger] next@[i] == (cur@[i] || exists|j: int| 0 <= j < cur@.len() && j != d && cur@[j] && #[trigger] step(*t, j, i)),
{
    let mut next: Vec<bool> = Vec::new();
    let mut i: usize = 0;
    while i < cur.len()
        invariant
            adj_ok(*t, adj@),
            cur@.len() == t.nodes@.len(),
            i <= cur@.len(),
            next@.len() == i,
            forall|a: int| 0 <= a < i ==>
                #[trigger] next@[a] == (cur@[a] || exists|j: int| 0 <= j < cur@.len() && j != d && cur@[j] && #[trigger] step(*t, j, a)),
        decreases cur@.len() - i,
    {
        let mut found = cur[i];
        let mut j: usize = 0;
        while j < cur.len()
            invariant
                adj_ok(*t, adj@),
                cur@.len() == t.nodes@.len(),
                i < cur@.len(),
                j <= cur@.len(),
                found == (cur@[i as int] || exists|b: int| 0 <= b < j && b != d && cur@[b] && #[trigger] step(*t, b, i as int)),
            decreases cur@.len() - j,
        {
            proof { lemma_step(*t, adj@, j as int, i as int); }
            if j != d && cur[j] && leads_to(&adj[j], i) {
                found = true;
            }
            j = j + 1;
        }
        next.push(found);
        i = i + 1;
    }
    next
}

/// One round backwards: a landmark is marked when it was, or when it leads to a marked
/// landmark.
fn gather(t: &TrailDefinition, adj: &Vec<Vec<usize>>, cur: &Vec<bool>) -> (next: Vec<bool>)
    requires
        adj_ok(*t, adj@),
        cur@.len() == t.nodes@.len(),
    ensures
        next@.len() == cur@.len(),
        forall|a: int| 0 <= a < next@.len() ==>
            #[trigger] next@[a] == (cur@[a] || exists|j: int| 0 <= j < cur@.len() && #[trigger] step(*t, a, j) && cur@[j]),
{
    let mut next: Vec<bool> = Vec::new();
    let mut a: usize = 0;
    while a < cur.len()
        invariant
            adj_ok(*t, adj@),
            cur@.len() == t.nodes@.len(),
            a <= cur@.len(),
            next@.len() == a,
            forall|x: int| 0 <= x < a ==>
                #[trigger] next@[x] == (cur@[x] || exists|j: int| 0 <= j < cur@.len() && #[trigger] step(*t, x, j) && cur@[j]),
        decreases cur@.len() - a,
    {
        let row = &adj[a];
        let mut found = cur[a];
        let mut q: usize = 0;
        while q < row.len()
            invariant
                adj_ok(*t, adj@),
                cur@.len() == t.nodes@.len(),
                a < cur@.len(),
                row@ == adj@[a as int]@,
                q <= row@.len(),
                found == (cur@[a as int] || exists|b: int| 0 <= b < q && #[trigger] cur@[row@[b] as int]),
            decreases row@.len() - q,
        {
            if cur[row[q]] {
                found = true;
            }
            q = q + 1;
        }
        proof {
            let e1 = exists|j: int| 0 <= j < cur@.len() && #[trigger] step(*t, a as int, j) && cur@[j];
            let e2 = exists|b: int| 0 <= b < row@.len() && #[trigger] cur@[row@[b] as int];
            if e1 {
                let j = choose|j: int| 0 <= j < cur@.len() && #[trigger] step(*t, a as int, j) && cur@[j];
                lemma_step(*t, adj@, a as int, j);
                let b = choose|b: int| 0 <= b < adj@[a as int]@.len() && #[trigger] adj@[a as int]@[b] == j;
                assert(cur@[row@[b] as int]);
            }
            if e2 {
                let b = choose|b: int| 0 <= b < row@.len() && #[trigger] cur@[row@[b] as int];
                let j = row@[b] as int;
                lemma_step(*t, adj@, a as int, j);
                assert(adj@[a as int]@[b] == j);
                assert(step(*t, a as int, j));
            }
            assert(e1 == e2);
        }
        next.push(found);
        a = a + 1;
    }
    next
}

/// Which landmarks landmark `s` reaches within as many steps as there are landmarks,
/// never going on from landmark `d`.
pub(crate) fn reach_from(t: &TrailDefinition, adj: &Vec<Vec<usize>>, s: usize, d: usize) -> (r: Vec<bool>)
    requires
        adj_ok(*t, adj@),
        s < t.nodes@.len(),
    ensures
        r@.len() == t.nodes@.len(),
        forall|i: int| 0 <= i < r@.len() ==> #[trigger] r@[i] == reach_set(*t, s as int, d as int, t.nodes@.len()).contains(i),
{
    let n = t.nodes.len();
    let mut cur: Vec<bool> = Vec::new();
    let mut i: usize = 0;
    while i < n
        invariant
            n == t.nodes@.len(),
            i <= n,
            cur@.len() == i,
            forall|a: int| 0 <= a < i ==> #[trigger] cur@[a] == reach_set(*t, s as int, d as int, 0).contains(a),
        decreases n - i,
    {
        cur.push(i == s);
        i = i + 1;
    }
    let mut k: usize = 0;
    while k < n
        invariant
            adj_ok(*t, adj@),
            n == t.nodes@.len(),
            k <= n,
            cur@.len() == n,
            forall|a: int| 0 <= a < n ==> #[trigger] cur@[a] == reach_set(*t, s as int, d as int, k as nat).contains(a),
        decreases n - k,
    {
        let next = spread(t, adj, &cur, d);
        proof {
            let prev = reach_set(*t, s as int, d as int, k as nat);
            assert forall|b: int| 0 <= b < n implies #[trigger] next@[b] == reach_set(*t, s as int, d as int, (k + 1) as nat).contains(b) by {
                let e1 = exists|j: int| 0 <= j < cur@.len() && j != d && cur@[j] && #[trigger] step(*t, j, b);
                let e2 = exists|j: int| 0 <= j < n && j != d && prev.contains(j) && #[trigger] step(*t, j, b);
                if e1 {
                    let j = choose|j: int| 0 <= j < cur@.len() && j != d && cur@[j] && #[trigger] step(*t, j, b);
                    assert(prev.contains(j));
                }
                if e2 {
                    let j = choose|j: int| 0 <= j < n && j != d && prev.contains(j) && #[trigger] step(*t, j, b);
                    assert(cur@[j]);
                }
            }
        }
        cur = next;
        k = k + 1;
    }
    cur
}

/// Which landmarks reach landmark `g` within as many steps as there are landmarks.
fn finish_at(t: &TrailDefinition, adj: &Vec<Vec<usize>>, g: usize) -> (r: Vec<bool>)
    requires
        adj_ok(*t, adj@),
        g < t.nodes@.len(),
    ensures
        r@.len() == t.nodes@.len(),
        forall|a: int| 0 <= a < r@.len() ==> #[trigger] r@[a] == finish_set(*t, g as int, t.nodes@.len()).contains(a),
{
    let n = t.nodes.len();
    let mut cur: Vec<bool> = Vec::new();
    let mut i: usize = 0;
    while i < n
        invariant
            n == t.nodes@.len(),
            i <= n,
            cur@.len() == i,
            forall|a: int| 0 <= a < i ==> #[trigger] cur@[a] == finish_set(*t, g as int, 0).contains(a),
        decreases n - i,
    {
        cur.push(i == g);
        i = i + 1;
    }
    let mut k: usize = 0;
    while k < n
        invariant
            adj_ok(*t, adj@),
            n == t.nodes@.len(),
            k <= n,
            cur@.len() == n,
            forall|a: int| 0 <= a < n ==> #[trigger] cur@[a] == finish_set(*t, g as int, k as nat).contains(a),
        decreases n - k,
    {
        let next = gather(t, adj, &cur);
        proof {
            let prev = finish_set(*t, g as int, k as nat);
            assert forall|a: int| 0 <= a < n implies #[trigger] next@[a] == finish_set(*t, g as int, (k + 1) as nat).contains(a) by {
                let e1 = exists|j: int| 0 <= j < cur@.len() && #[trigger] step(*t, a, j) && cur@[j];
                let e2 = exists|j: int| 0 <= j < n && prev.contains(j) && #[trigger] step(*t, a, j);
                if e1 {
                    let j = choose|j: int| 0 <= j < cur@.len() && #[trigger] step(*t, a, j) && cur@[j];
                    assert(prev.contains(j));
                }
                if e2 {
                    let j = choose|j: int| 0 <= j < n && prev.contains(j) && #[trigger] step(*t, a, j);
                    assert(cur@[j]);
                }
            }
        }
        cur = next;
        k = k + 1;
    }
    cur
}

#[verifier::rlimit(100)]
fn trail_check(t: &TrailDefinition) -> (r: Result<(), ContentError>)
    ensures
        r is Ok <==> trail_ok(*t),
        r matches Err(ContentError::Validation(m)) ==> trail_fault(*t, m@),
{
    let mut ids: Vec<String> = Vec::new();
    let mut n: usize = 0;
    while n < t.nodes.len()
        invariant
            n <= t.nodes@.len(),
            ids@.len() == n,
            forall|k: int| 0 <= k < n ==> #[trigger] ids@[k]@ == t.nodes@[k].id@,
        decreases t.nodes@.len() - n,
    {
        ids.push(t.nodes[n].id.clone());
        n = n + 1;
    }
    assert(views(ids@) =~= t.nodes@.map_values(|n: LandmarkDefinition| n.id@));
    unique(&ids, "landmark")?;
    if !trail_has_node(t, t.start_node_id.as_str()) {
        return Err(ContentError::Validation(message_for(t.id.as_str(), "trail ", " has unknown start")));
    }
    if !trail_has_node(t, t.goal_node_id.as_str()) {
        return Err(ContentError::Validation(message_for(t.id.as_str(), "trail ", " has unknown goal")));
    }
    let mut n: usize = 0;
    while n < t.nodes.len()
        invariant
            n <= t.nodes@.len(),
            ids_ok(t.nodes@.map_values(|n: LandmarkDefinition| n.id@)),
            has_node(*t, t.start_node_id@),
            has_node(*t, t.goal_node_id@),
            forall|k: int| 0 <= k < n ==> #[trigger] node_ok(*t, t.nodes@[k]),
        decreases t.nodes@.len() - n,
    {
        match node_check(t, &t.nodes[n]) {
            Err(e) => {
                proof { assert(e matches ContentError::Validation(m) && node_fault(*t, t.nodes@[n as int], m@)); }
                return Err(e);
            },
            Ok(_) => {},
        }
        n = n + 1;
    }
    assert forall|j: int, q: int| 0 <= j < t.nodes@.len() && 0 <= q < t.nodes@[j].routes@.len() implies
        has_node(*t, (#[trigger] t.nodes@[j].routes@[q]).target_id@) by {
        assert(node_ok(*t, t.nodes@[j]));
    }
    let adj = adjacency(t);
    let s = find_node(&t.nodes, t.start_node_id.as_str());
    let g = find_node(&t.nodes, t.goal_node_id.as_str());
    proof {
        lemma_first_facts(t.nodes@, node_named(t.start_node_id@));
        lemma_first_facts(t.nodes@, node_named(t.goal_node_id@));
        let w = choose|n: int| 0 <= n < t.nodes@.len() && #[trigger] t.nodes@[n].id@ == t.start_node_id@;
        assert(node_named(t.start_node_id@)(t.nodes@[w]));
        let v = choose|n: int| 0 <= n < t.nodes@.len() && #[trigger] t.nodes@[n].id@ == t.goal_node_id@;
        assert(node_named(t.goal_node_id@)(t.nodes@[v]));
    }
    let (s, g) = match (s, g) {
        (Some(s), Some(g)) => (s, g),
        _ => {
            proof { assert(false); }
            return Ok(());
        },
    };
    let forward = reach_from(t, &adj, s, t.nodes.len());
    let backward = finish_at(t, &adj, g);
    let mut i: usize = 0;
    while i < t.nodes.len()
        invariant
            i <= t.nodes@.len(),
            forward@.len() == t.nodes@.len(),
            backward@.len() == t.nodes@.len(),
            index_of(*t, t.start_node_id@) == Some(s as int),
            index_of(*t, t.goal_node_id@) == Some(g as int),
            ids_ok(t.nodes@.map_values(|n: LandmarkDefinition| n.id@)),
            has_node(*t, t.start_node_id@),
            has_node(*t, t.goal_node_id@),
            forall|k: int| 0 <= k < t.nodes@.len() ==> #[trigger] node_ok(*t, t.nodes@[k]),
            forall|k: int| 0 <= k < forward@.len() ==> #[trigger] forward@[k] == reach_set(*t, s as int, t.nodes@.len() as int, t.nodes@.len()).contains(k),
            forall|k: int| 0 <= k < backward@.len() ==> #[trigger] backward@[k] == finish_set(*t, g as int, t.nodes@.len()).contains(k),
            forall|k: int| 0 <= k < i ==> #[trigger] forward@[k],
        decreases t.nodes@.len() - i,
    {
        if !forward[i] {
            assert(!reach_set(*t, index_of(*t, t.start_node_id@)->0, t.nodes@.len() as int, t.nodes@.len()).contains(i as int));
            let m = message_for(t.id.as_str(), "trail ", " has unreachable nodes");
            proof {
                assert(!(exists|k: int| 0 <= k < t.nodes@.len() && !#[trigger] node_ok(*t, t.nodes@[k])));
                assert(trail_fault(*t, m@));
            }
            return Err(ContentError::Validation(m));
        }
        i = i + 1;
    }
    let mut i: usize = 0;
    while i < t.nodes.len()
        invariant
            i <= t.nodes@.len(),
            forward@.len() == t.nodes@.len(),
            backward@.len() == t.nodes@.len(),
            index_of(*t, t.start_node_id@) == Some(s as int),
            index_of(*t, t.goal_node_id@) == Some(g as int),
            ids_ok(t.nodes@.map_values(|n: LandmarkDefinition| n.id@)),
            has_node(*t, t.start_node_id@),
            has_node(*t, t.goal_node_id@),
            forall|k: int| 0 <= k < t.nodes@.len() ==> #[trigger] node_ok(*t, t.nodes@[k]),
            forall|k: int| 0 <= k < forward@.len() ==> #[trigger] forward@[k] == reach_set(*t, s as int, t.nodes@.len() as int, t.nodes@.len()).contains(k),
            forall|k: int| 0 <= k < backward@.len() ==> #[trigger] backward@[k] == finish_set(*t, g as int, t.nodes@.len()).contains(k),
            forall|k: int| 0 <= k < t.nodes@.len() ==> #[trigger] forward@[k],
            forall|k: int| 0 <= k < i ==> #[trigger] backward@[k],
        decreases t.nodes@.len() - i,
    {
        if !backward[i] {
            assert(!finish_set(*t, index_of(*t, t.goal_node_id@)->0, t.nodes@.len()).contains(i as int));
            let m = message_for(t.id.as_str(), "trail ", " has a route that cannot reach its goal");
            proof {
                let fwd = reach_set(*t, index_of(*t, t.start_node_id@)->0, t.nodes@.len() as int, t.nodes@.len());
                assert forall|a: int| 0 <= a < t.nodes@.len() implies #[trigger] fwd.contains(a) by {
                    assert(forward@[a]);
                }
                assert(!(exists|k: int| 0 <= k < t.nodes@.len() && !#[trigger] node_ok(*t, t.nodes@[k])));
                assert(trail_fault(*t, m@));
            }
            return Err(ContentError::Validation(m));
        }
        i = i + 1;
    }
    assert forall|k: int| 0 <= k < t.nodes@.len() implies
        #[trigger] reach_set(*t, index_of(*t, t.start_node_id@)->0, t.nodes@.len() as int, t.nodes@.len()).contains(k) by {
        assert(forward@[k]);
    }
    assert forall|k: int| 0 <= k < t.nodes@.len() implies
        #[trigger] finish_set(*t, index_of(*t, t.goal_node_id@)->0, t.nodes@.len()).contains(k) by {
        assert(backward@[k]);
    }
    Ok(())
}

/// Every trail is well formed.
pub open spec fn trails_ok(c: GameContent) -> bool {
    forall|t: int| 0 <= t < c.trails@.len() ==> #[trigger] trail_ok(c.trails@[t])
}

/// `m` names a fault of the first unsound trail.
pub open spec fn trails_fault(c: GameContent, m: Seq<char>) -> bool {
    exists|k: int| 0 <= k < c.trails@.len() && #[trigger] trail_fault(c.trails@[k], m)
        && forall|a: int| 0 <= a < k ==> #[trigger] trail_ok(c.trails@[a])
}

fn trails_section(c: &GameContent) -> (r: Result<(), ContentError>)
    ensures
        r is Ok <==> trails_ok(*c),
        r matches Err(ContentError::Validation(m)) ==> trails_fault(*c, m@),
{
    let mut t: usize = 0;
    while t < c.trails.len()
        invariant
            t <= c.trails@.len(),
            forall|a: int| 0 <= a < t ==> #[trigger] trail_ok(c.trails@[a]),
        decreases c.trails@.len() - t,
    {
        match trail_check(&c.trails[t]) {
            Err(e) => {
                proof { assert(e matches ContentError::Validation(m) && trail_fault(c.trails@[t as int], m@)); }
                return Err(e);
            },
            Ok(_) => {},
        }
        t = t + 1;
    }
    Ok(())
}

// ---------------------------------------------------------------------------------------
// Letters.

/// Era rules keyed by `id`.
pub open spec fn rules_named(id: Seq<char>) -> spec_fn((String, EraRules)) -> bool {
    |p: (String, EraRules)| p.0@ == id
}

/// `store` is the letter's origin or its destination.
pub open spec fn names_end(store: String, l: LetterDefinition) -> bool {
    store@ == l.origin_id@ || store@ == l.destination_id@
}

/// The rules of era `id` close the letter's origin or its destination.
pub open spec fn era_closes(c: GameContent, id: Seq<char>, l: LetterDefinition) -> bool {
    let k = find_first(c.era_rules@, rules_named(id))->0;
    &&& find_first(c.era_rules@, rules_named(id)) is Some
    &&& exists|q: int| 0 <= q < c.era_rules@[k].1.unavailable_stores@.len()
            && #[trigger] names_end(c.era_rules@[k].1.unavailable_stores@[q], l)
}

/// Some supply stop of the trail has id `id`.
pub open spec fn has_stop(t: TrailDefinition, id: Seq<char>) -> bool {
    exists|n: int| 0 <= n < t.nodes@.len() && #[trigger] t.nodes@[n].id@ == id && t.nodes@[n].store
}

/// On its trail a letter goes from a supply stop to another, later one that the wagon
/// can reach and cannot go round on the way to the goal.
pub open spec fn letter_way_ok(t: TrailDefinition, l: LetterDefinition) -> bool {
    let n = t.nodes@.len();
    let d = index_of(t, l.destination_id@)->0;
    let g = index_of(t, t.goal_node_id@)->0;
    &&& index_of(t, l.origin_id@) is Some
    &&& t.nodes@[index_of(t, l.origin_id@)->0].store
    &&& has_stop(t, l.destination_id@)
    &&& l.origin_id@ != l.destination_id@
    &&& reach_set(t, index_of(t, l.origin_id@)->0, n as int, n).contains(d)
    &&& (g != d ==> !reach_set(t, index_of(t, l.origin_id@)->0, d, n).contains(g))
}

/// A letter is well formed: readable texts, a reward of one to thirty dollars, a known
/// trail on which its way is sound, and some era in which neither end is closed.
pub open spec fn letter_ok(c: GameContent, l: LetterDefinition) -> bool {
    &&& text_ok(l.recipient@, 80)
    &&& text_ok(l.text@, 240)
    &&& 100 <= l.reward_cents <= 3000
    &&& find_first(c.trails@, trail_named(l.trail_id@)) is Some
    &&& letter_way_ok(c.trails@[find_first(c.trails@, trail_named(l.trail_id@))->0], l)
    &&& exists|e: int| 0 <= e < c.eras@.len() && !era_closes(c, (#[trigger] c.eras@[e]).id@, l)
}

pub(crate) fn find_rules(v: &Vec<(String, EraRules)>, id: &str) -> (r: Option<usize>)
    ensures
        pos(r) == find_first(v@, rules_named(id@)),
{
    let mut i: usize = 0;
    while i < v.len()
        invariant
            i <= v@.len(),
            forall|j: int| 0 <= j < i ==> !#[trigger] rules_named(id@)(v@[j]),
        decreases v@.len() - i,
    {
        if same(v[i].0.as_str(), id) {
            proof { lemma_first_is(v@, rules_named(id@), i as int); }
            return Some(i);
        }
        i = i + 1;
    }
    proof { lemma_first_none(v@, rules_named(id@)); }
    None
}

fn closes(c: &GameContent, id: &str, l: &LetterDefinition) -> (r: bool)
    ensures
        r == era_closes(*c, id@, *l),
{
    match find_rules(&c.era_rules, id) {
        None => false,
        Some(k) => {
            proof { lemma_first_facts(c.era_rules@, rules_named(id@)); }
            let stores = &c.era_rules[k].1.unavailable_stores;
            let mut q: usize = 0;
            while q < stores.len()
                invariant
                    k < c.era_rules@.len(),
                    find_first(c.era_rules@, rules_named(id@)) == Some(k as int),
                    stores@ == c.era_rules@[k as int].1.unavailable_stores@,
                    q <= stores@.len(),
                    forall|b: int| 0 <= b < q ==> !#[trigger] names_end(stores@[b], *l),
                decreases stores@.len() - q,
            {
                if same(stores[q].as_str(), l.origin_id.as_str()) || same(stores[q].as_str(), l.destination_id.as_str()) {
                    assert(names_end(c.era_rules@[k as int].1.unavailable_stores@[q as int], *l));
                    let ghost kk = find_first(c.era_rules@, rules_named(id@))->0;
                    assert(kk == k as int);
                    assert(q < c.era_rules@[kk].1.unavailable_stores@.len());
                    assert(names_end(c.era_rules@[kk].1.unavailable_stores@[q as int], *l));
                    assert(era_closes(*c, id@, *l));
                    return true;
                }
                q = q + 1;
            }
            false
        },
    }
}

fn stop_named(t: &TrailDefinition, id: &str) -> (r: bool)
    ensures
        r == has_stop(*t, id@),
{
    let mut n: usize = 0;
    while n < t.nodes.len()
        invariant
            n <= t.nodes@.len(),
            forall|j: int| 0 <= j < n ==> #[trigger] t.nodes@[j].id@ != id@ || !t.nodes@[j].store,
        decreases t.nodes@.len() - n,
    {
        if same(t.nodes[n].id.as_str(), id) && t.nodes[n].store {
            return true;
        }
        n = n + 1;
    }
    false
}

/// `m` names the first fault of the way of letter `l` along trail `t`, its checks taken in
/// order: the origin, its store, the destination's store, a distinct destination, one
/// reached from the origin, and one that no route from the origin to the goal passes by.
pub open spec fn letter_way_fault(t: TrailDefinition, l: LetterDefinition, m: Seq<char>) -> bool {
    let n = t.nodes@.len();
    let o = index_of(t, l.origin_id@)->0;
    let d = index_of(t, l.destination_id@)->0;
    let g = index_of(t, t.goal_node_id@)->0;
    if index_of(t, l.origin_id@) is None {
        m == "letter "@ + l.id@ + " names an unknown origin"@
    } else if !t.nodes@[o].store {
        m == "letter "@ + l.id@ + " origin is not a supply stop"@
    } else if !has_stop(t, l.destination_id@) {
        m == "letter "@ + l.id@ + " destination is not a supply stop"@
    } else if l.origin_id@ == l.destination_id@ {
        m == "letter "@ + l.id@ + " does not travel later"@
    } else if !reach_set(t, o, n as int, n).contains(d) {
        m == "letter "@ + l.id@ + " destination is unreachable"@
    } else {
        g != d && reach_set(t, o, d, n).contains(g) && m == "letter "@ + l.id@ + " destination can be bypassed"@
    }
}

/// `m` names the first fault of letter `l`, its checks taken in order: its texts, its
/// reward, its trail, its way along the trail, and an era in which it can be carried.
pub open spec fn letter_fault(c: GameContent, l: LetterDefinition, m: Seq<char>) -> bool {
    if !(text_ok(l.recipient@, 80) && text_ok(l.text@, 240)) {
        m == "invalid letter text"@
    } else if !(100 <= l.reward_cents <= 3000) {
        m == "letter reward is out of range"@
    } else if find_first(c.trails@, trail_named(l.trail_id@)) is None {
        m == "letter "@ + l.id@ + " names an unknown trail"@
    } else if !letter_way_ok(c.trails@[find_first(c.trails@, trail_named(l.trail_id@))->0], l) {
        letter_way_fault(c.trails@[find_first(c.trails@, trail_named(l.trail_id@))->0], l, m)
    } else {
        !(exists|e: int| 0 <= e < c.eras@.len() && !era_closes(c, (#[trigger] c.eras@[e]).id@, l))
            && m == "letter "@ + l.id@ + " destination is unavailable in every era"@
    }
}

/// `m` names a fault of the first unsound letter.
pub open spec fn letters_fault(c: GameContent, m: Seq<char>) -> bool {
    exists|k: int| 0 <= k < c.letters@.len() && #[trigger] letter_fault(c, c.letters@[k], m)
        && forall|a: int| 0 <= a < k ==> #[trigger] letter_ok(c, c.letters@[a])
}

fn letter_way(t: &TrailDefinition, l: &LetterDefinition) -> (r: Result<(), ContentError>)
    requires
        trail_ok(*t),
    ensures
        r is Ok <==> letter_way_ok(*t, *l),
        r matches Err(ContentError::Validation(m)) ==> letter_way_fault(*t, *l, m@),
{
    let o = match find_node(&t.nodes, l.origin_id.as_str()) {
        Some(o) => o,
        None => {
            return Err(ContentError::Validation(message_for(l.id.as_str(), "letter ", " names an unknown origin")));
        },
    };
    proof { lemma_first_facts(t.nodes@, node_named(l.origin_id@)); }
    if !t.nodes[o].store {
        return Err(ContentError::Validation(message_for(l.id.as_str(), "letter ", " origin is not a supply stop")));
    }
    if !stop_named(t, l.destination_id.as_str()) {
        return Err(ContentError::Validation(message_for(l.id.as_str(), "letter ", " destination is not a supply stop")));
    }
    if same(l.origin_id.as_str(), l.destination_id.as_str()) {
        return Err(ContentError::Validation(message_for(l.id.as_str(), "letter ", " does not travel later")));
    }
    assert forall|j: int, q: int| 0 <= j < t.nodes@.len() && 0 <= q < t.nodes@[j].routes@.len() implies
        has_node(*t, (#[trigger] t.nodes@[j].routes@[q]).target_id@) by {
        assert(node_ok(*t, t.nodes@[j]));
    }
    let adj = adjacency(t);
    let d = find_node(&t.nodes, l.destination_id.as_str());
    let g = find_node(&t.nodes, t.goal_node_id.as_str());
    proof {
        lemma_first_facts(t.nodes@, node_named(l.destination_id@));
        lemma_first_facts(t.nodes@, node_named(t.goal_node_id@));
        let w = choose|n: int| 0 <= n < t.nodes@.len() && #[trigger] t.nodes@[n].id@ == l.destination_id@ && t.nodes@[n].store;
        assert(node_named(l.destination_id@)(t.nodes@[w]));
        let v = choose|n: int| 0 <= n < t.nodes@.len() && #[trigger] t.nodes@[n].id@ == t.goal_node_id@;
        assert(node_named(t.goal_node_id@)(t.nodes@[v]));
    }
    let (d, g) = match (d, g) {
        (Some(d), Some(g)) => (d, g),
        _ => {
            proof { assert(false); }
            return Ok(());
        },
    };
    let reach = reach_from(t, &adj, o, t.nodes.len());
    if !reach[d] {
        return Err(ContentError::Validation(message_for(l.id.as_str(), "letter ", " destination is unreachable")));
    }
    if g != d {
        let round = reach_from(t, &adj, o, d);
        if round[g] {
            return Err(ContentError::Validation(message_for(l.id.as_str(), "letter ", " destination can be bypassed")));
        }
    }
    Ok(())
}

fn letter_check(c: &GameContent, l: &LetterDefinition) -> (r: Result<(), ContentError>)
    requires
        trails_ok(*c),
    ensures
        r is Ok <==> letter_ok(*c, *l),
        r matches Err(ContentError::Validation(m)) ==> letter_fault(*c, *l, m@),
{
    if !(valid_text(l.recipient.as_str(), 80) && valid_text(l.text.as_str(), 240)) {
        return Err(ContentError::Validation(String::from_str("invalid letter text")));
    }
    if l.reward_cents < 100 || l.reward_cents > 3000 {
        return Err(ContentError::Validation(String::from_str("letter reward is out of range")));
    }
    let ti = match find_trail(&c.trails, l.trail_id.as_str()) {
        Some(ti) => ti,
        None => {
            return Err(ContentError::Validation(message_for(l.id.as_str(), "letter ", " names an unknown trail")));
        },
    };
    proof { lemma_first_facts(c.trails@, trail_named(l.trail_id@)); }
    assert(trail_ok(c.trails@[ti as int]));
    letter_way(&c.trails[ti], l)?;
    if !some_era_open(c, l) {
        return Err(ContentError::Validation(message_for(l.id.as_str(), "letter ", " destination is unavailable in every era")));
    }
    Ok(())
}

fn some_era_open(c: &GameContent, l: &LetterDefinition) -> (r: bool)
    ensures
        r == exists|e: int| 0 <= e < c.eras@.len() && !era_closes(*c, (#[trigger] c.eras@[e]).id@, *l),
{
    let mut e: usize = 0;
    while e < c.eras.len()
        invariant
            e <= c.eras@.len(),
            forall|x: int| 0 <= x < e ==> era_closes(*c, (#[trigger] c.eras@[x]).id@, *l),
        decreases c.eras@.len() - e,
    {
        if !closes(c, c.eras[e].id.as_str(), l) {
            assert(!era_closes(*c, c.eras@[e as int].id@, *l));
            return true;
        }
        e = e + 1;
    }
    false
}

/// Every letter is well formed.
pub open spec fn letters_ok(c: GameContent) -> bool {
    forall|k: int| 0 <= k < c.letters@.len() ==> #[trigger] letter_ok(c, c.letters@[k])
}

fn letters_section(c: &GameContent) -> (r: Result<(), ContentError>)
    requires
        trails_ok(*c),
    ensures
        r is Ok <==> letters_ok(*c),
        r matches Err(ContentError::Validation(m)) ==> letters_fault(*c, m@),
{
    let mut k: usize = 0;
    while k < c.letters.len()
        invariant
            trails_ok(*c),
            k <= c.letters@.len(),
            forall|a: int| 0 <= a < k ==> #[trigger] letter_ok(*c, c.letters@[a]),
        decreases c.letters@.len() - k,
    {
        match letter_check(c, &c.letters[k]) {
            Err(e) => {
                proof { assert(e matches ContentError::Validation(m) && letter_fault(*c, c.letters@[k as int], m@)); }
                return Err(e);
            },
            Ok(_) => {},
        }
        k = k + 1;
    }
    Ok(())
}

// ---------------------------------------------------------------------------------------
// Events.

/// Some trail has id `id`.
pub open spec fn is_trail(c: GameContent, id: Seq<char>) -> bool {
    exists|k: int| 0 <= k < c.trails@.len() && #[trigger] c.trails@[k].id@ == id
}

/// Some occupation has id `id`.
pub open spec fn is_occupation(c: GameContent, id: Seq<char>) -> bool {
    exists|k: int| 0 <= k < c.occupations@.len() && #[trigger] c.occupations@[k].id@ == id
}

/// Some item has id `id`.
pub open spec fn is_item(c: GameContent, id: Seq<char>) -> bool {
    exists|k: int| 0 <= k < c.items@.len() && #[trigger] c.items@[k].id@ == id
}

/// Some ailment has id `id`.
pub open spec fn is_ailment(c: GameContent, id: Seq<char>) -> bool {
    exists|k: int| 0 <= k < c.ailments@.len() && #[trigger] c.ailments@[k].id@ == id
}

/// Some effect of the event or of one of its choices is `e`.
pub open spec fn event_has_effect(ev: EventDefinition, p: spec_fn(Effect) -> bool) -> bool {
    ||| exists|f: int| 0 <= f < ev.effects@.len() && #[trigger] p(ev.effects@[f])
    ||| exists|h: int, f: int| 0 <= h < ev.choices@.len() && 0 <= f < ev.choices@[h].effects@.len()
            && #[trigger] p(ev.choices@[h].effects@[f])
}

/// The effect sets flag `flag`.
pub open spec fn sets_flag(flag: Seq<char>) -> spec_fn(Effect) -> bool {
    |e: Effect| e matches Effect::SetFlag(f) && f@ == flag
}

/// The effect schedules event `id`.
pub open spec fn schedules(id: Seq<char>) -> spec_fn(Effect) -> bool {
    |e: Effect| e matches Effect::Schedule { event_id, .. } && event_id@ == id
}

/// Some event sets flag `flag`.
pub open spec fn produced(c: GameContent, flag: Seq<char>) -> bool {
    exists|k: int| 0 <= k < c.events@.len() && #[trigger] event_has_effect(c.events@[k], sets_flag(flag))
}

/// Some event schedules event `id`.
pub open spec fn scheduled(c: GameContent, id: Seq<char>) -> bool {
    exists|k: int| 0 <= k < c.events@.len() && #[trigger] event_has_effect(c.events@[k], schedules(id))
}

/// A condition names only real things, within the bounds the rules can meet, and its
/// compounds are not empty.
pub open spec fn cond_ok(c: GameContent, cond: Condition) -> bool
    decreases cond,
{
    match cond {
        Condition::All(ch) => ch@.len() > 0 && conds_ok(c, ch@),
        Condition::Any(ch) => ch@.len() > 0 && conds_ok(c, ch@),
        Condition::Not(b) => cond_ok(c, *b),
        Condition::Trail(id) => is_trail(c, id@),
        Condition::Era(id) => is_era(c, id@),
        Condition::Occupation(id) => is_occupation(c, id@),
        Condition::HasAilment(id) => is_ailment(c, id@),
        Condition::AtLandmark(id) => is_landmark(c, id@),
        Condition::InventoryAtLeast { item_id, quantity } => is_item(c, item_id@) && quantity > 0,
        Condition::CashAtLeast(cash) => cash >= 0,
        Condition::MoraleBelow(m) => 0 <= m <= 100,
        Condition::RelationshipAtLeast(a) => -100 <= a <= 100,
        Condition::PartySizeBelow(n) => 1 <= n <= 12,
        Condition::Flag(f) => produced(c, f@),
        _ => true,
    }
}

/// Every condition of the list is sound.
pub open spec fn conds_ok(c: GameContent, s: Seq<Condition>) -> bool
    decreases s,
{
    if s.len() == 0 {
        true
    } else {
        conds_ok(c, s.drop_last()) && cond_ok(c, s.last())
    }
}

/// `m` names a fault of condition `cond` or of a condition inside it.
pub open spec fn cond_fault(c: GameContent, cond: Condition, m: Seq<char>) -> bool
    decreases cond,
{
    match cond {
        Condition::All(ch) => (ch@.len() == 0 && m == "compound condition is empty"@) || conds_fault(c, ch@, m),
        Condition::Any(ch) => (ch@.len() == 0 && m == "compound condition is empty"@) || conds_fault(c, ch@, m),
        Condition::Not(b) => cond_fault(c, *b, m),
        Condition::Trail(id) => !is_trail(c, id@) && m == "unknown trail condition "@ + id@ + ""@,
        Condition::Era(id) => !is_era(c, id@) && m == "unknown era condition "@ + id@ + ""@,
        Condition::Occupation(id) => !is_occupation(c, id@) && m == "unknown occupation condition "@ + id@ + ""@,
        Condition::HasAilment(id) => !is_ailment(c, id@) && m == "unknown ailment condition "@ + id@ + ""@,
        Condition::AtLandmark(id) => !is_landmark(c, id@) && m == "unknown landmark condition "@ + id@ + ""@,
        Condition::InventoryAtLeast { item_id, quantity } =>
            if !is_item(c, item_id@) { m == "unknown item condition "@ + item_id@ + ""@ }
            else { quantity == 0 && m == "item condition "@ + item_id@ + " has zero quantity"@ },
        Condition::CashAtLeast(cash) => cash < 0 && m == "cash condition is negative"@,
        Condition::MoraleBelow(x) => !(0 <= x <= 100) && m == "morale condition is out of range"@,
        Condition::RelationshipAtLeast(a) => !(-100 <= a <= 100) && m == "relationship condition is out of range"@,
        Condition::PartySizeBelow(n) => !(1 <= n <= 12) && m == "party-size condition is out of range"@,
        Condition::Flag(f) => !produced(c, f@) && m == "flag condition "@ + f@ + " is never produced"@,
        _ => false,
    }
}

/// `m` names a fault of the first unsound condition of the list.
pub open spec fn conds_fault(c: GameContent, s: Seq<Condition>, m: Seq<char>) -> bool
    decreases s,
{
    if s.len() == 0 {
        false
    } else {
        if !conds_ok(c, s.drop_last()) { conds_fault(c, s.drop_last(), m) } else { cond_fault(c, s.last(), m) }
    }
}

proof fn lemma_fault_not_ok(c: GameContent, cond: Condition, m: Seq<char>)
    ensures
        cond_fault(c, cond, m) ==> !cond_ok(c, cond),
    decreases cond,
{
    match cond {
        Condition::All(ch) => {
            assert(decreases_to!(cond => ch@));
            lemma_faults_not_ok(c, ch@, m);
        },
        Condition::Any(ch) => {
            assert(decreases_to!(cond => ch@));
            lemma_faults_not_ok(c, ch@, m);
        },
        Condition::Not(b) => lemma_fault_not_ok(c, *b, m),
        _ => {},
    }
}

proof fn lemma_faults_not_ok(c: GameContent, s: Seq<Condition>, m: Seq<char>)
    ensures
        conds_fault(c, s, m) ==> !conds_ok(c, s),
    decreases s,
{
    if s.len() > 0 {
        assert(decreases_to!(s => s.last()));
        lemma_fault_not_ok(c, s.last(), m);
        lemma_faults_not_ok(c, s.drop_last(), m);
    }
}

proof fn lemma_conds_all_ok(c: GameContent, s: Seq<Condition>)
    requires
        forall|a: int| 0 <= a < s.len() ==> cond_ok(c, #[trigger] s[a]),
    ensures
        conds_ok(c, s),
    decreases s.len(),
{
    if s.len() > 0 {
        assert forall|a: int| 0 <= a < s.drop_last().len() implies cond_ok(c, #[trigger] s.drop_last()[a]) by {
            assert(s.drop_last()[a] == s[a]);
        }
        lemma_conds_all_ok(c, s.drop_last());
    }
}

proof fn lemma_conds_fault_each(c: GameContent, s: Seq<Condition>, i: int, m: Seq<char>)
    requires
        0 <= i < s.len(),
        cond_fault(c, s[i], m),
        forall|a: int| 0 <= a < i ==> cond_ok(c, #[trigger] s[a]),
    ensures
        conds_fault(c, s, m),
    decreases s.len(),
{
    let d = s.drop_last();
    if i < s.len() - 1 {
        assert(d[i] == s[i]);
        assert forall|a: int| 0 <= a < i implies cond_ok(c, #[trigger] d[a]) by {
            assert(d[a] == s[a]);
        }
        lemma_conds_fault_each(c, d, i, m);
        lemma_faults_not_ok(c, d, m);
    } else {
        assert forall|a: int| 0 <= a < d.len() implies cond_ok(c, #[trigger] d[a]) by {
            assert(d[a] == s[a]);
        }
        lemma_conds_all_ok(c, d);
    }
}

fn trail_id_known(c: &GameContent, id: &str) -> (r: bool)
    ensures
        r == is_trail(*c, id@),
{
    let mut k: usize = 0;
    while k < c.trails.len()
        invariant
            k <= c.trails@.len(),
            forall|j: int| 0 <= j < k ==> #[trigger] c.trails@[j].id@ != id@,
        decreases c.trails@.len() - k,
    {
        if same(c.trails[k].id.as_str(), id) {
            return true;
        }
        k = k + 1;
    }
    false
}

fn occupation_id_known(c: &GameContent, id: &str) -> (r: bool)
    ensures
        r == is_occupation(*c, id@),
{
    let mut k: usize = 0;
    while k < c.occupations.len()
        invariant
            k <= c.occupations@.len(),
            forall|j: int| 0 <= j < k ==> #[trigger] c.occupations@[j].id@ != id@,
        decreases c.occupations@.len() - k,
    {
        if same(c.occupations[k].id.as_str(), id) {
            return true;
        }
        k = k + 1;
    }
    false
}

fn item_id_known(c: &GameContent, id: &str) -> (r: bool)
    ensures
        r == is_item(*c, id@),
{
    let mut k: usize = 0;
    while k < c.items.len()
        invariant
            k <= c.items@.len(),
            forall|j: int| 0 <= j < k ==> #[trigger] c.items@[j].id@ != id@,
        decreases c.items@.len() - k,
    {
        if same(c.items[k].id.as_str(), id) {
            return true;
        }
        k = k + 1;
    }
    false
}

fn ailment_id_known(c: &GameContent, id: &str) -> (r: bool)
    ensures
        r == is_ailment(*c, id@),
{
    let mut k: usize = 0;
    while k < c.ailments.len()
        invariant
            k <= c.ailments@.len(),
            forall|j: int| 0 <= j < k ==> #[trigger] c.ailments@[j].id@ != id@,
        decreases c.ailments@.len() - k,
    {
        if same(c.ailments[k].id.as_str(), id) {
            return true;
        }
        k = k + 1;
    }
    false
}

/// `sets_flag` when `flag`, else `schedules`.
pub open spec fn marker(id: Seq<char>, flag: bool) -> spec_fn(Effect) -> bool {
    if flag { sets_flag(id) } else { schedules(id) }
}

fn effect_marks(e: &Effect, id: &str, flag: bool) -> (r: bool)
    ensures
        r == marker(id@, flag)(*e),
{
    match e {
        Effect::SetFlag(f) => flag && same(f.as_str(), id),
        Effect::Schedule { event_id, .. } => !flag && same(event_id.as_str(), id),
        _ => false,
    }
}

fn event_marks(ev: &EventDefinition, id: &str, flag: bool) -> (r: bool)
    ensures
        r == event_has_effect(*ev, marker(id@, flag)),
{
    let mut f: usize = 0;
    while f < ev.effects.len()
        invariant
            f <= ev.effects@.len(),
            forall|x: int| 0 <= x < f ==> !#[trigger] marker(id@, flag)(ev.effects@[x]),
        decreases ev.effects@.len() - f,
    {
        if effect_marks(&ev.effects[f], id, flag) {
            return true;
        }
        f = f + 1;
    }
    let mut h: usize = 0;
    while h < ev.choices.len()
        invariant
            h <= ev.choices@.len(),
            forall|x: int| 0 <= x < ev.effects@.len() ==> !#[trigger] marker(id@, flag)(ev.effects@[x]),
            forall|y: int, x: int| 0 <= y < h && 0 <= x < ev.choices@[y].effects@.len() ==>
                !#[trigger] marker(id@, flag)(ev.choices@[y].effects@[x]),
        decreases ev.choices@.len() - h,
    {
        let effects = &ev.choices[h].effects;
        let mut f: usize = 0;
        while f < effects.len()
            invariant
                h < ev.choices@.len(),
                effects@ == ev.choices@[h as int].effects@,
                f <= effects@.len(),
                forall|x: int| 0 <= x < ev.effects@.len() ==> !#[trigger] marker(id@, flag)(ev.effects@[x]),
                forall|y: int, x: int| 0 <= y < h && 0 <= x < ev.choices@[y].effects@.len() ==>
                    !#[trigger] marker(id@, flag)(ev.choices@[y].effects@[x]),
                forall|x: int| 0 <= x < f ==> !#[trigger] marker(id@, flag)(effects@[x]),
            decreases effects@.len() - f,
        {
            if effect_marks(&effects[f], id, flag) {
                assert(marker(id@, flag)(ev.choices@[h as int].effects@[f as int]));
                return true;
            }
            f = f + 1;
        }
        h = h + 1;
    }
    false
}

fn marked_by_some_event(c: &GameContent, id: &str, flag: bool) -> (r: bool)
    ensures
        flag ==> r == produced(*c, id@),
        !flag ==> r == scheduled(*c, id@),
{
    let mut k: usize = 0;
    while k < c.events.len()
        invariant
            k <= c.events@.len(),
            forall|j: int| 0 <= j < k ==> !#[trigger] event_has_effect(c.events@[j], marker(id@, flag)),
        decreases c.events@.len() - k,
    {
        if event_marks(&c.events[k], id, flag) {
            assert(event_has_effect(c.events@[k as int], marker(id@, flag)));
            return true;
        }
        k = k + 1;
    }
    proof {
        if flag {
            assert(marker(id@, flag) == sets_flag(id@));
        } else {
            assert(marker(id@, flag) == schedules(id@));
        }
    }
    false
}

fn cond_check(c: &GameContent, cond: &Condition) -> (r: Result<(), ContentError>)
    ensures
        r is Ok <==> cond_ok(*c, *cond),
        r matches Err(ContentError::Validation(m)) ==> cond_fault(*c, *cond, m@),
    decreases cond,
{
    match cond {
        Condition::All(ch) => {
            expect(ch.len() > 0, "compound condition is empty")?;
            conds_check(c, ch)
        },
        Condition::Any(ch) => {
            expect(ch.len() > 0, "compound condition is empty")?;
            conds_check(c, ch)
        },
        Condition::Not(b) => cond_check(c, b),
        Condition::Trail(id) => expect(trail_id_known(c, id.as_str()), message_for(id.as_str(), "unknown trail condition ", "").as_str()),
        Condition::Era(id) => expect(find_era_id(c, id.as_str()), message_for(id.as_str(), "unknown era condition ", "").as_str()),
        Condition::Occupation(id) => expect(occupation_id_known(c, id.as_str()), message_for(id.as_str(), "unknown occupation condition ", "").as_str()),
        Condition::HasAilment(id) => expect(ailment_id_known(c, id.as_str()), message_for(id.as_str(), "unknown ailment condition ", "").as_str()),
        Condition::AtLandmark(id) => expect(find_landmark(c, id.as_str(), false, false), message_for(id.as_str(), "unknown landmark condition ", "").as_str()),
        Condition::InventoryAtLeast { item_id, quantity } => {
            expect(item_id_known(c, item_id.as_str()), message_for(item_id.as_str(), "unknown item condition ", "").as_str())?;
            expect(*quantity > 0, message_for(item_id.as_str(), "item condition ", " has zero quantity").as_str())
        },
        Condition::CashAtLeast(cash) => expect(*cash >= 0, "cash condition is negative"),
        Condition::MoraleBelow(m) => expect(0 <= *m && *m <= 100, "morale condition is out of range"),
        Condition::RelationshipAtLeast(a) => expect(-100 <= *a && *a <= 100, "relationship condition is out of range"),
        Condition::PartySizeBelow(n) => expect(1 <= *n && *n <= 12, "party-size condition is out of range"),
        Condition::Flag(f) => expect(marked_by_some_event(c, f.as_str(), true), message_for(f.as_str(), "flag condition ", " is never produced").as_str()),
        _ => Ok(()),
    }
}

fn conds_check(c: &GameContent, s: &Vec<Condition>) -> (r: Result<(), ContentError>)
    ensures
        r is Ok <==> conds_ok(*c, s@),
        r matches Err(ContentError::Validation(m)) ==> conds_fault(*c, s@, m@),
    decreases s,
{
    let mut i: usize = 0;
    while i < s.len()
        invariant
            i <= s@.len(),
            conds_ok(*c, s@.take(i as int)),
        decreases s@.len() - i,
    {
        proof {
            assert(s@.take(i + 1).drop_last() =~= s@.take(i as int));
            assert(decreases_to!(s => s@[i as int]));
        }
        let checked = cond_check(c, &s[i]);
        if checked.is_err() {
            proof {
                if conds_ok(*c, s@) {
                    lemma_conds_each(*c, s@, i as int);
                }
                let m = checked->Err_0->Validation_0;
                assert forall|a: int| 0 <= a < i implies cond_ok(*c, #[trigger] s@[a]) by {
                    lemma_conds_each(*c, s@.take(i as int), a);
                    assert(s@.take(i as int)[a] == s@[a]);
                }
                lemma_conds_fault_each(*c, s@, i as int, m@);
            }
            return checked;
        }
        i = i + 1;
    }
    assert(s@.take(s@.len() as int) =~= s@);
    Ok(())
}

/// A sound list has only sound conditions.
proof fn lemma_conds_each(c: GameContent, s: Seq<Condition>, i: int)
    requires
        0 <= i < s.len(),
        conds_ok(c, s),
    ensures
        cond_ok(c, s[i]),
    decreases s.len(),
{
    if i < s.len() - 1 {
        assert(s.drop_last()[i] == s[i]);
        lemma_conds_each(c, s.drop_last(), i);
    }
}

/// The landmarks a condition asks to be at, through its compounds but not under a
/// negation (a negated goal can hold anywhere before arrival).
pub open spec fn at_marks(cond: Condition) -> Seq<Seq<char>>
    decreases cond,
{
    match cond {
        Condition::AtLandmark(id) => seq![id@],
        Condition::All(ch) => at_marks_list(ch@),
        Condition::Any(ch) => at_marks_list(ch@),
        _ => Seq::empty(),
    }
}

/// The landmarks a list of conditions asks to be at, in order.
pub open spec fn at_marks_list(s: Seq<Condition>) -> Seq<Seq<char>>
    decreases s,
{
    if s.len() == 0 {
        Seq::empty()
    } else {
        at_marks_list(s.drop_last()) + at_marks(s.last())
    }
}

/// What a condition requires outright, through `All` only: the trails when `trails`,
/// else the landmarks.
pub open spec fn needs(cond: Condition, trails: bool) -> Seq<Seq<char>>
    decreases cond,
{
    match cond {
        Condition::Trail(id) => if trails { seq![id@] } else { Seq::empty() },
        Condition::AtLandmark(id) => if trails { Seq::empty() } else { seq![id@] },
        Condition::All(ch) => needs_list(ch@, trails),
        _ => Seq::empty(),
    }
}

/// What a list of conditions requires outright, in order.
pub open spec fn needs_list(s: Seq<Condition>, trails: bool) -> Seq<Seq<char>>
    decreases s,
{
    if s.len() == 0 {
        Seq::empty()
    } else {
        needs_list(s.drop_last(), trails) + needs(s.last(), trails)
    }
}

/// Some trail passes landmark `id` on the way to another goal.
pub open spec fn before_goal(c: GameContent, id: Seq<char>) -> bool {
    exists|t: int| 0 <= t < c.trails@.len() && #[trigger] has_node(c.trails@[t], id) && c.trails@[t].goal_node_id@ != id
}

/// The landmarks a list of conditions asks to be at can be reached before a goal, and
/// the trails it requires exist and hold the landmarks it requires.
pub open spec fn places_ok(c: GameContent, s: Seq<Condition>) -> bool {
    let marks = at_marks_list(s);
    let ts = needs_list(s, true);
    let ls = needs_list(s, false);
    &&& forall|k: int| 0 <= k < marks.len() ==> before_goal(c, #[trigger] marks[k])
    &&& forall|a: int| 0 <= a < ts.len() ==> (#[trigger] find_first(c.trails@, trail_named(ts[a]))) is Some
    &&& forall|a: int, b: int| 0 <= a < ts.len() && 0 <= b < ls.len() ==>
            has_node(c.trails@[find_first(c.trails@, trail_named(#[trigger] ts[a]))->0], #[trigger] ls[b])
}

fn collect_marks(cond: &Condition, out: &mut Vec<String>)
    ensures
        views(final(out)@) == views(old(out)@) + at_marks(*cond),
    decreases cond,
{
    match cond {
        Condition::AtLandmark(id) => {
            out.push(id.clone());
            assert(views(out@) =~= views(old(out)@) + at_marks(*cond));
        },
        Condition::All(ch) => collect_marks_list(ch, out),
        Condition::Any(ch) => collect_marks_list(ch, out),
        _ => {
            assert(views(out@) =~= views(old(out)@) + at_marks(*cond));
        },
    }
}

fn collect_marks_list(s: &Vec<Condition>, out: &mut Vec<String>)
    ensures
        views(final(out)@) == views(old(out)@) + at_marks_list(s@),
    decreases s,
{
    let mut i: usize = 0;
    while i < s.len()
        invariant
            i <= s@.len(),
            views(out@) == views(old(out)@) + at_marks_list(s@.take(i as int)),
        decreases s@.len() - i,
    {
        proof {
            assert(s@.take(i + 1).drop_last() =~= s@.take(i as int));
            assert(decreases_to!(s => s@[i as int]));
        }
        collect_marks(&s[i], out);
        proof {
            assert(views(out@) =~= views(old(out)@) + at_marks_list(s@.take(i + 1)));
        }
        i = i + 1;
    }
    assert(s@.take(s@.len() as int) =~= s@);
}

fn collect_needs(cond: &Condition, trails: bool, out: &mut Vec<String>)
    ensures
        views(final(out)@) == views(old(out)@) + needs(*cond, trails),
    decreases cond,
{
    match cond {
        Condition::Trail(id) => {
            if trails {
                out.push(id.clone());
            }
            assert(views(out@) =~= views(old(out)@) + needs(*cond, trails));
        },
        Condition::AtLandmark(id) => {
            if !trails {
                out.push(id.clone());
            }
            assert(views(out@) =~= views(old(out)@) + needs(*cond, trails));
        },
        Condition::All(ch) => collect_needs_list(ch, trails, out),
        _ => {
            assert(views(out@) =~= views(old(out)@) + needs(*cond, trails));
        },
    }
}

fn collect_needs_list(s: &Vec<Condition>, trails: bool, out: &mut Vec<String>)
    ensures
        views(final(out)@) == views(old(out)@) + needs_list(s@, trails),
    decreases s,
{
    let mut i: usize = 0;
    while i < s.len()
        invariant
            i <= s@.len(),
            views(out@) == views(old(out)@) + needs_list(s@.take(i as int), trails),
        decreases s@.len() - i,
    {
        proof {
            assert(s@.take(i + 1).drop_last() =~= s@.take(i as int));
            assert(decreases_to!(s => s@[i as int]));
        }
        collect_needs(&s[i], trails, out);
        proof {
            assert(views(out@) =~= views(old(out)@) + needs_list(s@.take(i + 1), trails));
        }
        i = i + 1;
    }
    assert(s@.take(s@.len() as int) =~= s@);
}

fn before_goal_check(c: &GameContent, id: &str) -> (r: bool)
    ensures
        r == before_goal(*c, id@),
{
    let mut t: usize = 0;
    while t < c.trails.len()
        invariant
            t <= c.trails@.len(),
            forall|a: int| 0 <= a < t ==> !#[trigger] has_node(c.trails@[a], id@) || c.trails@[a].goal_node_id@ == id@,
        decreases c.trails@.len() - t,
    {
        if trail_has_node(&c.trails[t], id) && !same(c.trails[t].goal_node_id.as_str(), id) {
            return true;
        }
        t = t + 1;
    }
    false
}

/// The trail `ts[a]` exists and holds every landmark of `ls`.
pub open spec fn trail_holds(c: GameContent, ts: Seq<Seq<char>>, ls: Seq<Seq<char>>, a: int) -> bool {
    find_first(c.trails@, trail_named(ts[a])) is Some
        && forall|y: int| 0 <= y < ls.len() ==> has_node(c.trails@[find_first(c.trails@, trail_named(ts[a]))->0], #[trigger] ls[y])
}

/// `m` names the first fault of the places a list of conditions asks for: the first
/// landmark no party reaches before a goal; else the first required trail that does not
/// exist or that lacks a required landmark, with the first landmark it lacks.
pub open spec fn places_fault(c: GameContent, s: Seq<Condition>, m: Seq<char>) -> bool {
    let marks = at_marks_list(s);
    let ts = needs_list(s, true);
    let ls = needs_list(s, false);
    if exists|k: int| 0 <= k < marks.len() && !before_goal(c, #[trigger] marks[k]) {
        exists|k: int| 0 <= k < marks.len() && !before_goal(c, #[trigger] marks[k])
            && (forall|x: int| 0 <= x < k ==> before_goal(c, #[trigger] marks[x]))
            && m == "event landmark "@ + marks[k] + " is terminal-only"@
    } else {
        exists|a: int| 0 <= a < ts.len() && !#[trigger] trail_holds(c, ts, ls, a)
            && (forall|x: int| 0 <= x < a ==> #[trigger] trail_holds(c, ts, ls, x))
            && if find_first(c.trails@, trail_named(ts[a])) is None {
                m == "trail condition "@ + ts[a] + " names no trail"@
            } else {
                exists|b: int| 0 <= b < ls.len()
                    && !has_node(c.trails@[find_first(c.trails@, trail_named(ts[a]))->0], #[trigger] ls[b])
                    && (forall|y: int| 0 <= y < b ==> has_node(c.trails@[find_first(c.trails@, trail_named(ts[a]))->0], #[trigger] ls[y]))
                    && m == "trail condition "@ + ts[a] + " cannot reach landmark "@ + ls[b]
            }
    }
}

/// `m` names a fault of effect `e`.
pub open spec fn effect_fault(c: GameContent, e: Effect, m: Seq<char>) -> bool {
    match e {
        Effect::Message(x) => !text_ok(x@, 240) && m == "message effect has invalid text"@,
        Effect::InflictAilment(id) => !is_ailment(c, id@) && m == "unknown ailment effect "@ + id@ + ""@,
        Effect::HealAilment(id) => !is_ailment(c, id@) && m == "unknown ailment effect "@ + id@ + ""@,
        Effect::AdjustItem { item_id, quantity } =>
            if !is_item(c, item_id@) { m == "unknown item effect "@ + item_id@ + ""@ }
            else { quantity == 0 && m == "item effect "@ + item_id@ + " has zero quantity"@ },
        Effect::AdjustCash(x) => x == 0 && m == "cash effect is zero"@,
        Effect::AdjustMorale(x) => !(x != 0 && -100 <= x <= 100) && m == "morale effect is out of range"@,
        Effect::AdjustRelationship(a) => !(a != 0 && -100 <= a <= 100) && m == "relationship effect is out of range"@,
        Effect::AddMember { name, age } =>
            if !text_ok(name@, 24) { m == "added member has an invalid name"@ }
            else { age > 100 && m == "added member age is out of range"@ },
        Effect::Schedule { event_id, days } =>
            if !is_event(c, event_id@) { m == "scheduled event "@ + event_id@ + " does not exist"@ }
            else { !(1 <= days <= 365) && m == "scheduled event "@ + event_id@ + " has invalid days"@ },
        Effect::SetFlag(f) => !text_ok(f@, 80) && m == "flag effect has an invalid id"@,
        Effect::ClearFlag(f) => !text_ok(f@, 80) && m == "flag effect has an invalid id"@,
        _ => false,
    }
}

/// `m` names a fault of the first unsound effect of the list.
pub open spec fn effects_fault(c: GameContent, s: Seq<Effect>, m: Seq<char>) -> bool {
    exists|f: int| 0 <= f < s.len() && #[trigger] effect_fault(c, s[f], m)
        && forall|a: int| 0 <= a < f ==> effect_ok(c, #[trigger] s[a])
}

/// `m` names the first fault of choice `h` of the event `event_id`, its checks taken in
/// order: its id and label, its conditions, the places they ask for, its effects.
pub open spec fn choice_fault(c: GameContent, event_id: Seq<char>, h: EventChoice, m: Seq<char>) -> bool {
    if !(text_ok(h.id@, 80) && text_ok(h.label@, 80)) {
        m == "event "@ + event_id + " has an invalid choice"@
    } else if !conds_ok(c, h.conditions@) {
        conds_fault(c, h.conditions@, m)
    } else if !places_ok(c, h.conditions@) {
        places_fault(c, h.conditions@, m)
    } else {
        effects_fault(c, h.effects@, m)
    }
}

/// `m` names the first fault of event `ev`, its checks taken in order: an unscheduled
/// event of no weight, its text, its conditions, the places they ask for, its effects,
/// its first unsound choice, its choice ids, and a missing fallback choice.
pub open spec fn event_fault(c: GameContent, ev: EventDefinition, m: Seq<char>) -> bool {
    if ev.weight == 0 && !scheduled(c, ev.id@) {
        m == "weight-zero event "@ + ev.id@ + " is not scheduled"@
    } else if !text_ok(ev.text@, 240) {
        m == "event "@ + ev.id@ + " text is invalid"@
    } else if !conds_ok(c, ev.conditions@) {
        conds_fault(c, ev.conditions@, m)
    } else if !places_ok(c, ev.conditions@) {
        places_fault(c, ev.conditions@, m)
    } else if !effects_ok(c, ev.effects@) {
        effects_fault(c, ev.effects@, m)
    } else if exists|h: int| 0 <= h < ev.choices@.len() && !#[trigger] choice_ok(c, ev.choices@[h]) {
        exists|h: int| 0 <= h < ev.choices@.len() && #[trigger] choice_fault(c, ev.id@, ev.choices@[h], m)
            && !choice_ok(c, ev.choices@[h]) && forall|a: int| 0 <= a < h ==> #[trigger] choice_ok(c, ev.choices@[a])
    } else if !ids_ok(ev.choices@.map_values(|h: EventChoice| h.id@)) {
        ids_fault(ev.choices@.map_values(|h: EventChoice| h.id@), "event choice"@, m)
    } else {
        ev.choices@.len() != 0 && !(exists|h: int| 0 <= h < ev.choices@.len() && #[trigger] fallback(ev.choices@[h]))
            && m == "event "@ + ev.id@ + " has no unconditional fallback"@
    }
}

/// `m` names a fault of the first unsound event.
pub open spec fn events_fault(c: GameContent, m: Seq<char>) -> bool {
    exists|k: int| 0 <= k < c.events@.len() && #[trigger] event_fault(c, c.events@[k], m)
        && forall|a: int| 0 <= a < k ==> #[trigger] event_ok(c, c.events@[a])
}

fn places_check(c: &GameContent, s: &Vec<Condition>) -> (r: Result<(), ContentError>)
    ensures
        r is Ok <==> places_ok(*c, s@),
        r matches Err(ContentError::Validation(m)) ==> places_fault(*c, s@, m@),
{
    let mut marks: Vec<String> = Vec::new();
    collect_marks_list(s, &mut marks);
    assert(views(marks@) =~= at_marks_list(s@));
    let mut k: usize = 0;
    while k < marks.len()
        invariant
            k <= marks@.len(),
            views(marks@) == at_marks_list(s@),
            forall|x: int| 0 <= x < k ==> before_goal(*c, #[trigger] at_marks_list(s@)[x]),
        decreases marks@.len() - k,
    {
        if !before_goal_check(c, marks[k].as_str()) {
            assert(!before_goal(*c, at_marks_list(s@)[k as int]));
            let m = message_for(marks[k].as_str(), "event landmark ", " is terminal-only");
            proof { assert(marks@[k as int]@ == at_marks_list(s@)[k as int]); assert(places_fault(*c, s@, m@)); }
            return Err(ContentError::Validation(m));
        }
        k = k + 1;
    }
    let mut ts: Vec<String> = Vec::new();
    collect_needs_list(s, true, &mut ts);
    let mut ls: Vec<String> = Vec::new();
    collect_needs_list(s, false, &mut ls);
    assert(views(ts@) =~= needs_list(s@, true));
    assert(views(ls@) =~= needs_list(s@, false));
    let ghost tv = needs_list(s@, true);
    let ghost lv = needs_list(s@, false);
    let mut a: usize = 0;
    while a < ts.len()
        invariant
            a <= ts@.len(),
            views(ts@) == tv,
            views(ls@) == lv,
            tv == needs_list(s@, true),
            lv == needs_list(s@, false),
            forall|x: int| 0 <= x < at_marks_list(s@).len() ==> before_goal(*c, #[trigger] at_marks_list(s@)[x]),
            forall|x: int| 0 <= x < a ==> (#[trigger] find_first(c.trails@, trail_named(tv[x]))) is Some,
            forall|x: int, y: int| 0 <= x < a && 0 <= y < lv.len() ==>
                has_node(c.trails@[find_first(c.trails@, trail_named(#[trigger] tv[x]))->0], #[trigger] lv[y]),
        decreases ts@.len() - a,
    {
        let ti = match find_trail(&c.trails, ts[a].as_str()) {
            Some(ti) => ti,
            None => {
                assert(find_first(c.trails@, trail_named(tv[a as int])) is None);
                let m = message_for(ts[a].as_str(), "trail condition ", " names no trail");
                proof {
                    assert(ts@[a as int]@ == tv[a as int]);
                    assert forall|x: int| 0 <= x < a implies #[trigger] trail_holds(*c, tv, lv, x) by {
                        assert(find_first(c.trails@, trail_named(tv[x])) is Some);
                    }
                    assert(!trail_holds(*c, tv, lv, a as int));
                    assert(!(exists|k: int| 0 <= k < at_marks_list(s@).len() && !before_goal(*c, #[trigger] at_marks_list(s@)[k])));
                    assert(places_fault(*c, s@, m@));
                }
                return Err(ContentError::Validation(m));
            },
        };
        proof { lemma_first_facts(c.trails@, trail_named(tv[a as int])); }
        let mut b: usize = 0;
        while b < ls.len()
            invariant
                a < ts@.len(),
                ti < c.trails@.len(),
                find_first(c.trails@, trail_named(tv[a as int])) == Some(ti as int),
                b <= ls@.len(),
                views(ts@) == tv,
                views(ls@) == lv,
                tv == needs_list(s@, true),
                lv == needs_list(s@, false),
                forall|y: int| 0 <= y < b ==> has_node(c.trails@[ti as int], #[trigger] lv[y]),
                forall|x: int| 0 <= x < at_marks_list(s@).len() ==> before_goal(*c, #[trigger] at_marks_list(s@)[x]),
                forall|x: int| 0 <= x < a ==> (#[trigger] find_first(c.trails@, trail_named(tv[x]))) is Some,
                forall|x: int, y: int| 0 <= x < a && 0 <= y < lv.len() ==>
                    has_node(c.trails@[find_first(c.trails@, trail_named(#[trigger] tv[x]))->0], #[trigger] lv[y]),
            decreases ls@.len() - b,
        {
            if !trail_has_node(&c.trails[ti], ls[b].as_str()) {
                assert(!has_node(c.trails@[find_first(c.trails@, trail_named(tv[a as int]))->0], lv[b as int]));
                let mut m = message_for(ts[a].as_str(), "trail condition ", " cannot reach landmark ");
                vstd::string::StringExecFns::append(&mut m, ls[b].as_str());
                proof {
                    assert(ts@[a as int]@ == tv[a as int]);
                    assert(ls@[b as int]@ == lv[b as int]);
                    assert forall|x: int| 0 <= x < a implies #[trigger] trail_holds(*c, tv, lv, x) by {
                        assert(find_first(c.trails@, trail_named(tv[x])) is Some);
                    }
                    assert(!trail_holds(*c, tv, lv, a as int));
                    assert(!(exists|k: int| 0 <= k < at_marks_list(s@).len() && !before_goal(*c, #[trigger] at_marks_list(s@)[k])));
                    assert(places_fault(*c, s@, m@));
                }
                return Err(ContentError::Validation(m));
            }
            b = b + 1;
        }
        a = a + 1;
    }
    Ok(())
}

/// An effect names only real things, changes something, and stays within the bounds
/// the rules accept.
pub open spec fn effect_ok(c: GameContent, e: Effect) -> bool {
    match e {
        Effect::Message(m) => text_ok(m@, 240),
        Effect::InflictAilment(id) => is_ailment(c, id@),
        Effect::HealAilment(id) => is_ailment(c, id@),
        Effect::AdjustItem { item_id, quantity } => is_item(c, item_id@) && quantity != 0,
        Effect::AdjustCash(x) => x != 0,
        Effect::AdjustMorale(m) => m != 0 && -100 <= m <= 100,
        Effect::AdjustRelationship(a) => a != 0 && -100 <= a <= 100,
        Effect::AddMember { name, age } => text_ok(name@, 24) && age <= 100,
        Effect::Schedule { event_id, days } => is_event(c, event_id@) && 1 <= days <= 365,
        Effect::SetFlag(f) => text_ok(f@, 80),
        Effect::ClearFlag(f) => text_ok(f@, 80),
        _ => true,
    }
}

/// Every effect of the list is sound.
pub open spec fn effects_ok(c: GameContent, s: Seq<Effect>) -> bool {
    forall|f: int| 0 <= f < s.len() ==> effect_ok(c, #[trigger] s[f])
}

fn effect_check(c: &GameContent, e: &Effect) -> (r: Result<(), ContentError>)
    ensures
        r is Ok <==> effect_ok(*c, *e),
        r matches Err(ContentError::Validation(m)) ==> effect_fault(*c, *e, m@),
{
    match e {
        Effect::Message(m) => expect(valid_text(m.as_str(), 240), "message effect has invalid text"),
        Effect::InflictAilment(id) => expect(ailment_id_known(c, id.as_str()), message_for(id.as_str(), "unknown ailment effect ", "").as_str()),
        Effect::HealAilment(id) => expect(ailment_id_known(c, id.as_str()), message_for(id.as_str(), "unknown ailment effect ", "").as_str()),
        Effect::AdjustItem { item_id, quantity } => {
            expect(item_id_known(c, item_id.as_str()), message_for(item_id.as_str(), "unknown item effect ", "").as_str())?;
            expect(*quantity != 0, message_for(item_id.as_str(), "item effect ", " has zero quantity").as_str())
        },
        Effect::AdjustCash(x) => expect(*x != 0, "cash effect is zero"),
        Effect::AdjustMorale(m) => expect(*m != 0 && -100 <= *m && *m <= 100, "morale effect is out of range"),
        Effect::AdjustRelationship(a) => expect(*a != 0 && -100 <= *a && *a <= 100, "relationship effect is out of range"),
        Effect::AddMember { name, age } => {
            expect(valid_text(name.as_str(), 24), "added member has an invalid name")?;
            expect(*age <= 100, "added member age is out of range")
        },
        Effect::Schedule { event_id, days } => {
            expect(find_event_id(c, event_id.as_str()), message_for(event_id.as_str(), "scheduled event ", " does not exist").as_str())?;
            expect(1 <= *days && *days <= 365, message_for(event_id.as_str(), "scheduled event ", " has invalid days").as_str())
        },
        Effect::SetFlag(f) => expect(valid_text(f.as_str(), 80), "flag effect has an invalid id"),
        Effect::ClearFlag(f) => expect(valid_text(f.as_str(), 80), "flag effect has an invalid id"),
        _ => Ok(()),
    }
}

fn effects_check(c: &GameContent, s: &Vec<Effect>) -> (r: Result<(), ContentError>)
    ensures
        r is Ok <==> effects_ok(*c, s@),
        r matches Err(ContentError::Validation(m)) ==> effects_fault(*c, s@, m@),
{
    let mut f: usize = 0;
    while f < s.len()
        invariant
            f <= s@.len(),
            forall|x: int| 0 <= x < f ==> effect_ok(*c, #[trigger] s@[x]),
        decreases s@.len() - f,
    {
        match effect_check(c, &s[f]) {
            Err(e) => {
                proof { assert(e matches ContentError::Validation(m) && effect_fault(*c, s@[f as int], m@)); }
                return Err(e);
            },
            Ok(_) => {},
        }
        f = f + 1;
    }
    Ok(())
}

/// The effect takes neither cash nor goods.
pub open spec fn costs_nothing(e: Effect) -> bool {
    &&& !(e matches Effect::AdjustCash(a) && a < 0)
    &&& !(e matches Effect::AdjustItem { quantity, .. } && quantity < 0)
}

/// A choice open to every party: no conditions and no cost.
pub open spec fn fallback(h: EventChoice) -> bool {
    h.conditions@.len() == 0 && forall|f: int| 0 <= f < h.effects@.len() ==> costs_nothing(#[trigger] h.effects@[f])
}

/// A choice has a concise id and label, and sound conditions, places and effects.
pub open spec fn choice_ok(c: GameContent, h: EventChoice) -> bool {
    &&& text_ok(h.id@, 80)
    &&& text_ok(h.label@, 80)
    &&& conds_ok(c, h.conditions@)
    &&& places_ok(c, h.conditions@)
    &&& effects_ok(c, h.effects@)
}

/// An event can happen (it has weight or something schedules it), reads well, has
/// sound conditions, places, effects and choices, distinct choice ids, and, when it
/// offers choices, one that every party can take.
pub open spec fn event_ok(c: GameContent, ev: EventDefinition) -> bool {
    &&& ev.weight != 0 || scheduled(c, ev.id@)
    &&& text_ok(ev.text@, 240)
    &&& conds_ok(c, ev.conditions@)
    &&& places_ok(c, ev.conditions@)
    &&& effects_ok(c, ev.effects@)
    &&& forall|h: int| 0 <= h < ev.choices@.len() ==> #[trigger] choice_ok(c, ev.choices@[h])
    &&& ids_ok(ev.choices@.map_values(|h: EventChoice| h.id@))
    &&& ev.choices@.len() == 0 || exists|h: int| 0 <= h < ev.choices@.len() && #[trigger] fallback(ev.choices@[h])
}

/// Every event is sound.
pub open spec fn events_ok(c: GameContent) -> bool {
    forall|k: int| 0 <= k < c.events@.len() ==> #[trigger] event_ok(c, c.events@[k])
}

fn fallback_check(h: &EventChoice) -> (r: bool)
    ensures
        r == fallback(*h),
{
    if h.conditions.len() != 0 {
        return false;
    }
    let mut f: usize = 0;
    while f < h.effects.len()
        invariant
            f <= h.effects@.len(),
            forall|x: int| 0 <= x < f ==> costs_nothing(#[trigger] h.effects@[x]),
        decreases h.effects@.len() - f,
    {
        let free = match &h.effects[f] {
            Effect::AdjustCash(a) => *a >= 0,
            Effect::AdjustItem { quantity, .. } => *quantity >= 0,
            _ => true,
        };
        if !free {
            assert(!costs_nothing(h.effects@[f as int]));
            return false;
        }
        f = f + 1;
    }
    true
}

fn choice_check(c: &GameContent, event_id: &str, h: &EventChoice) -> (r: Result<(), ContentError>)
    ensures
        r is Ok <==> choice_ok(*c, *h),
        r matches Err(ContentError::Validation(m)) ==> choice_fault(*c, event_id@, *h, m@),
{
    if !(valid_text(h.id.as_str(), 80) && valid_text(h.label.as_str(), 80)) {
        return Err(ContentError::Validation(message_for(event_id, "event ", " has an invalid choice")));
    }
    conds_check(c, &h.conditions)?;
    places_check(c, &h.conditions)?;
    effects_check(c, &h.effects)?;
    Ok(())
}

fn event_check(c: &GameContent, ev: &EventDefinition) -> (r: Result<(), ContentError>)
    ensures
        r is Ok <==> event_ok(*c, *ev),
        r matches Err(ContentError::Validation(m)) ==> event_fault(*c, *ev, m@),
{
    if ev.weight == 0 && !marked_by_some_event(c, ev.id.as_str(), false) {
        return Err(ContentError::Validation(message_for(ev.id.as_str(), "weight-zero event ", " is not scheduled")));
    }
    if !valid_text(ev.text.as_str(), 240) {
        return Err(ContentError::Validation(message_for(ev.id.as_str(), "event ", " text is invalid")));
    }
    conds_check(c, &ev.conditions)?;
    places_check(c, &ev.conditions)?;
    effects_check(c, &ev.effects)?;
    let mut ids: Vec<String> = Vec::new();
    let mut open = false;
    let mut h: usize = 0;
    while h < ev.choices.len()
        invariant
            h <= ev.choices@.len(),
            ids@.len() == h,
            forall|k: int| 0 <= k < h ==> #[trigger] ids@[k]@ == ev.choices@[k].id@,
            forall|k: int| 0 <= k < h ==> #[trigger] choice_ok(*c, ev.choices@[k]),
            open == exists|k: int| 0 <= k < h && #[trigger] fallback(ev.choices@[k]),
            !(ev.weight == 0 && !scheduled(*c, ev.id@)),
            text_ok(ev.text@, 240),
            conds_ok(*c, ev.conditions@),
            places_ok(*c, ev.conditions@),
            effects_ok(*c, ev.effects@),
        decreases ev.choices@.len() - h,
    {
        match choice_check(c, ev.id.as_str(), &ev.choices[h]) {
            Err(e) => {
                proof {
                    assert(!choice_ok(*c, ev.choices@[h as int]));
                    assert(e matches ContentError::Validation(m) && choice_fault(*c, ev.id@, ev.choices@[h as int], m@));
                }
                return Err(e);
            },
            Ok(_) => {},
        }
        ids.push(ev.choices[h].id.clone());
        if fallback_check(&ev.choices[h]) {
            open = true;
        }
        h = h + 1;
    }
    assert(views(ids@) =~= ev.choices@.map_values(|h: EventChoice| h.id@));
    unique(&ids, "event choice")?;
    if ev.choices.len() != 0 && !open {
        return Err(ContentError::Validation(message_for(ev.id.as_str(), "event ", " has no unconditional fallback")));
    }
    Ok(())
}

fn events_section(c: &GameContent) -> (r: Result<(), ContentError>)
    ensures
        r is Ok <==> events_ok(*c),
        r matches Err(ContentError::Validation(m)) ==> events_fault(*c, m@),
{
    let mut k: usize = 0;
    while k < c.events.len()
        invariant
            k <= c.events@.len(),
            forall|a: int| 0 <= a < k ==> #[trigger] event_ok(*c, c.events@[a]),
        decreases c.events@.len() - k,
    {
        match event_check(c, &c.events[k]) {
            Err(e) => {
                proof { assert(e matches ContentError::Validation(m) && event_fault(*c, c.events@[k as int], m@)); }
                return Err(e);
            },
            Ok(_) => {},
        }
        k = k + 1;
    }
    Ok(())
}

// ---------------------------------------------------------------------------------------
// The whole catalogue.

/// A catalogue is sound when every section of it is.
pub open spec fn content_valid(c: GameContent) -> bool {
    &&& ids_section_ok(c)
    &&& trails_ok(c)
    &&& letters_ok(c)
    &&& world_rules_ok(c)
    &&& occupations_ok(c)
    &&& ailments_ok(c)
    &&& items_ok(c)
    &&& events_ok(c)
    &&& forall|k: int| 0 <= k < c.quotes@.len() ==> #[trigger] quote_ok(c, c.quotes@[k])
    &&& forall|k: int| 0 <= k < c.speakers@.len() ==> #[trigger] speaker_ok(c, c.speakers@[k])
}

proof fn lemma_plain_text(s: Seq<char>, max: nat)
    requires
        0 < s.len() <= max,
        forall|k: int| 0 <= k < s.len() ==> 0x20 <= (#[trigger] s[k] as u32) < 0x7f,
    ensures
        text_ok(s, max),
{
    crate::seed::lemma_ascii_len(s);
}

/// The starter catalogue that `GameContent::starter` builds is sound.
pub proof fn lemma_starter_sound(c: GameContent)
    requires
        c.eras@.len() == 1,
        c.eras@[0].id@ == "1848"@,
        c.trails@.len() == 1,
        c.occupations@.len() == 1,
        c.occupations@[0].id@ == "farmer"@,
        c.occupations@[0].starting_cash_cents == 40_000,
        c.occupations@[0].score_multiplier_milli == 3000,
        c.items@.len() == 4,
        c.items@[0].id@ == "oxen"@ && c.items@[0].price_cents == 4_000 && c.items@[0].limit == 9,
        c.items@[1].id@ == "food"@ && c.items@[1].price_cents == 20 && c.items@[1].limit == 2_000,
        c.items@[2].id@ == "clothing"@ && c.items@[2].price_cents == 1_000 && c.items@[2].limit == 99,
        c.items@[3].id@ == "medicine"@ && c.items@[3].price_cents == 1_500 && c.items@[3].limit == 5,
        c.trails@[0].id@ == "oregon"@,
        c.trails@[0].start_node_id@ == "independence"@,
        c.trails@[0].goal_node_id@ == "willamette"@,
        c.trails@[0].nodes@.len() == 2,
        c.trails@[0].nodes@[0].id@ == "independence"@,
        c.trails@[0].nodes@[0].name@ == "Independence"@,
        c.trails@[0].nodes@[0].kind == LandmarkKind::Town,
        c.trails@[0].nodes@[0].river is None,
        c.trails@[0].nodes@[0].routes@.len() == 1,
        c.trails@[0].nodes@[0].routes@[0].id@ == "main"@,
        c.trails@[0].nodes@[0].routes@[0].target_id@ == "willamette"@,
        c.trails@[0].nodes@[0].routes@[0].distance_miles == 2_040,
        c.trails@[0].nodes@[1].id@ == "willamette"@,
        c.trails@[0].nodes@[1].name@ == "Willamette Valley"@,
        c.trails@[0].nodes@[1].kind == LandmarkKind::Finale,
        c.trails@[0].nodes@[1].river is None,
        c.trails@[0].nodes@[1].routes@.len() == 0,
        c.era_rules@.len() == 0,
        c.regions@.len() == 0,
        c.ailments@.len() == 0,
        c.events@.len() == 0,
        c.quotes@.len() == 0,
        c.letters@.len() == 0,
        c.speakers@.len() == 0,
    ensures
        content_valid(c),
{
    reveal_strlit("1848");
    reveal_strlit("farmer");
    reveal_strlit("oxen");
    reveal_strlit("food");
    reveal_strlit("clothing");
    reveal_strlit("medicine");
    reveal_strlit("oregon");
    reveal_strlit("independence");
    reveal_strlit("willamette");
    reveal_strlit("Independence");
    reveal_strlit("Willamette Valley");
    reveal_strlit("main");
    let t = c.trails@[0];
    let n0 = t.nodes@[0];
    let n1 = t.nodes@[1];
    assert(ids_section_ok(c)) by {
        let items = c.items@.map_values(|x: ItemDefinition| x.id@);
        assert(items[0] == "oxen"@ && items[1] == "food"@ && items[2] == "clothing"@ && items[3] == "medicine"@);
        assert("oxen"@[0] != "food"@[0] && "oxen"@[0] != "clothing"@[0] && "oxen"@[0] != "medicine"@[0]);
        assert("food"@[0] != "clothing"@[0] && "food"@[0] != "medicine"@[0] && "clothing"@[0] != "medicine"@[0]);
        assert(c.eras@.map_values(|x: EraDefinition| x.id@)[0] == "1848"@);
        assert(c.trails@.map_values(|x: TrailDefinition| x.id@)[0] == "oregon"@);
        assert(c.occupations@.map_values(|x: OccupationDefinition| x.id@)[0] == "farmer"@);
    }
    assert("independence"@.len() != "willamette"@.len());
    assert(index_of(t, "independence"@) == Some(0int)) by {
        lemma_first_is(t.nodes@, node_named("independence"@), 0);
    }
    assert(index_of(t, "willamette"@) == Some(1int)) by {
        assert(!node_named("willamette"@)(n0));
        lemma_first_is(t.nodes@, node_named("willamette"@), 1);
    }
    assert(has_node(t, "independence"@)) by { assert(t.nodes@[0].id@ == "independence"@); }
    assert(has_node(t, "willamette"@)) by { assert(t.nodes@[1].id@ == "willamette"@); }
    assert(step(t, 0, 1)) by { assert(index_of(t, t.nodes@[0].routes@[0].target_id@) == Some(1int)); }
    assert(node_ok(t, n0)) by {
        lemma_plain_text(n0.name@, 60);
        assert(n0.routes@.map_values(|r: RouteDefinition| r.id@)[0] == "main"@);
    }
    assert(node_ok(t, n1)) by {
        lemma_plain_text(n1.name@, 60);
    }
    assert(trail_ok(t)) by {
        assert(t.nodes@.map_values(|n: LandmarkDefinition| n.id@)[0] == "independence"@);
        assert(t.nodes@.map_values(|n: LandmarkDefinition| n.id@)[1] == "willamette"@);
        let r0 = reach_set(t, 0, 2, 0);
        assert(r0.contains(0));
        assert(step(t, 0, 1));
        assert(exists|j: int| 0 <= j < t.nodes@.len() && j != 2 && r0.contains(j) && #[trigger] step(t, j, 1));
        assert(reach_set(t, 0, 2, 1).contains(1));
        assert(reach_set(t, 0, 2, 1).contains(0));
        assert(reach_set(t, 0, 2, 2).contains(0) && reach_set(t, 0, 2, 2).contains(1));
        let f0 = finish_set(t, 1, 0);
        assert(f0.contains(1));
        assert(exists|j: int| 0 <= j < t.nodes@.len() && f0.contains(j) && #[trigger] step(t, 0, j));
        assert(finish_set(t, 1, 1).contains(0));
        assert(finish_set(t, 1, 1).contains(1));
        assert(finish_set(t, 1, 2).contains(0) && finish_set(t, 1, 2).contains(1));
    }
}

/// `m` is the message of a rule that catalogue `c` breaks.
pub open spec fn catalogue_fault(c: GameContent, m: Seq<char>) -> bool {
    ||| ids_section_fault(c, m)
    ||| trails_fault(c, m)
    ||| letters_fault(c, m)
    ||| world_fault(c, m)
    ||| plain_fault(c, m)
    ||| events_fault(c, m)
    ||| talk_fault(c, m)
}

/// `m` names a fault of the first unsound part of catalogue `c`, the parts taken in the
/// order ids, era rules and regions, trails, letters, occupations with ailments and items,
/// events, then quotes and speakers.
pub open spec fn first_part_fault(c: GameContent, m: Seq<char>) -> bool {
    if !ids_section_ok(c) {
        ids_first_fault(c, m)
    } else if !world_rules_ok(c) {
        world_fault(c, m)
    } else if !trails_ok(c) {
        trails_fault(c, m)
    } else if !letters_ok(c) {
        letters_fault(c, m)
    } else if !(occupations_ok(c) && ailments_ok(c) && items_ok(c)) {
        plain_first_fault(c, m)
    } else if !events_ok(c) {
        events_fault(c, m)
    } else {
        talk_fault(c, m)
    }
}

/// Check a catalogue before any journey uses it: it is accepted exactly when it is sound,
/// and otherwise the error's message names a rule the catalogue breaks, with the ids
/// involved, in the first part of the catalogue that is unsound.
pub fn validate(content: &GameContent) -> (r: Result<(), ContentError>)
    ensures
        r is Ok <==> content_valid(*content),
        r matches Err(ContentError::Validation(m)) ==> catalogue_fault(*content, m@) && first_part_fault(*content, m@),
{
    ids_section(content)?;
    world_rules(content)?;
    trails_section(content)?;
    letters_section(content)?;
    plain_checks(content)?;
    events_section(content)?;
    talk_checks(content)?;
    Ok(())
}

} // verus!
