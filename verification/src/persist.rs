//! What the front end keeps between sessions: settings, where saves live, and the hall of
//! fame of completed journeys. Reading and writing files is the caller's part; these
//! are the rules about what is kept.

use vstd::prelude::*;
use std::path::PathBuf;
use crate::journal::JournalEntry;
use crate::text::{is_space, printable, same, text_before, compare_text, lemma_text_before_transitive};

verus! {

/// A location in the file system, opaque to the rules.
#[verifier::external_type_specification]
#[verifier::external_body]
pub struct ExPathBuf(PathBuf);

/// Where the front end keeps its files.
#[derive(Debug)]
pub struct Storage {
    root: PathBuf,
}

impl Storage {
    /// The directory this storage uses.
    pub closed spec fn dir(self) -> PathBuf {
        self.root
    }

    /// Storage under `root`.
    pub fn at(root: PathBuf) -> (r: Storage)
        ensures
            r.dir() == root,
    {
        Storage { root }
    }

    /// The directory this storage uses.
    pub fn root(&self) -> (r: &PathBuf)
        ensures
            *r == self.dir(),
    {
        &self.root
    }
}

/// Terminal palette the player chose.
#[derive(Debug, Clone, Copy, PartialEq, Eq, Structural)]
pub enum ColorMode {
    Truecolor,
    Indexed,
    Basic,
    Mono,
}

impl Default for ColorMode {
    fn default() -> (r: Self)
        ensures
            r == ColorMode::Truecolor,
    {
        ColorMode::Truecolor
    }
}

/// How fast scenes play.
#[derive(Debug, Clone, Copy, PartialEq, Eq, Structural)]
pub enum Speed {
    Instant,
    Fast,
    Normal,
    Slow,
}

impl Default for Speed {
    fn default() -> (r: Self)
        ensures
            r == Speed::Normal,
    {
        Speed::Normal
    }
}

impl Speed {
    /// Pause between scene steps, in milliseconds.
    pub fn milliseconds(self) -> (r: u64)
        ensures
            r == match self {
                Speed::Instant => 0u64,
                Speed::Fast => 300,
                Speed::Normal => 600,
                Speed::Slow => 1200,
            },
    {
        match self {
            Speed::Instant => 0,
            Speed::Fast => 300,
            Speed::Normal => 600,
            Speed::Slow => 1200,
        }
    }
}

/// The player's presentation settings.
#[derive(Debug, Clone, Copy, PartialEq, Eq, Structural)]
pub struct Settings {
    pub color: ColorMode,
    pub speed: Speed,
    pub bell: bool,
    pub no_art: bool,
    pub reduced_motion: bool,
}

impl Default for Settings {
    fn default() -> (r: Self)
        ensures
            r == (Settings { color: ColorMode::Truecolor, speed: Speed::Normal, bell: false, no_art: false, reduced_motion: false }),
    {
        Settings { color: ColorMode::default(), speed: Speed::default(), bell: false, no_art: false, reduced_motion: false }
    }
}

/// One completed journey in the hall of fame.
#[derive(Debug, Clone)]
pub struct RunRecord {
    pub run_id: String,
    pub leader: String,
    pub seed: u64,
    pub trail: String,
    pub era: u16,
    pub ended_on: String,
    pub occupation: String,
    pub score: u32,
    pub survivors: usize,
    pub days: u32,
    pub miles: u32,
    pub arrived: bool,
    pub epitaph: String,
    pub cause: String,
    /// A completed journey keeps its factual record after the save is replaced.
    pub journal: Vec<JournalEntry>,
}

/// The hall of fame.
#[derive(Debug, Clone)]
pub struct History {
    pub runs: Vec<RunRecord>,
}

/// Some run of `runs` has id `id`.
pub open spec fn has_run(runs: Seq<RunRecord>, id: Seq<char>) -> bool {
    exists|k: int| 0 <= k < runs.len() && #[trigger] runs[k].run_id@ == id
}

/// In the hall of fame run `i` ranks above run `j`: a higher score first, then the run id
/// in dictionary order, then the order of the history.
pub open spec fn ranks_above(runs: Seq<RunRecord>, i: int, j: int) -> bool {
    ||| runs[i].score > runs[j].score
    ||| runs[i].score == runs[j].score && text_before(runs[i].run_id@, runs[j].run_id@)
    ||| runs[i].score == runs[j].score && runs[i].run_id@ == runs[j].run_id@ && i < j
}

/// `sel` lists, best first, the (at most twenty) arrived runs that lead the hall of fame.
pub open spec fn leader_listing(runs: Seq<RunRecord>, sel: Seq<int>) -> bool {
    &&& sel.len() <= 20
    &&& forall|p: int| 0 <= p < sel.len() ==> 0 <= #[trigger] sel[p] < runs.len() && runs[sel[p]].arrived
    &&& forall|p: int, q: int| 0 <= p < q < sel.len() ==> ranks_above(runs, #[trigger] sel[p], #[trigger] sel[q])
    &&& forall|k: int| 0 <= k < runs.len() && #[trigger] runs[k].arrived && !sel.contains(k) ==>
            sel.len() == 20 && forall|p: int| 0 <= p < sel.len() ==> ranks_above(runs, #[trigger] sel[p], k)
}

proof fn lemma_ranks_transitive(runs: Seq<RunRecord>, i: int, j: int, k: int)
    requires
        ranks_above(runs, i, j),
        ranks_above(runs, j, k),
    ensures
        ranks_above(runs, i, k),
{
    if runs[i].score == runs[j].score && runs[j].score == runs[k].score {
        if text_before(runs[i].run_id@, runs[j].run_id@) && text_before(runs[j].run_id@, runs[k].run_id@) {
            lemma_text_before_transitive(runs[i].run_id@, runs[j].run_id@, runs[k].run_id@);
        }
    }
}

impl History {
    /// The hall of fame: the arrived runs, highest score first (run id, then history
    /// order, breaking ties), at most twenty of them.
    pub fn leaders(&self) -> (r: Vec<&RunRecord>)
        ensures
            exists|sel: Seq<int>| {
                &&& leader_listing(self.runs@, sel)
                &&& r@.len() == sel.len()
                &&& forall|p: int| 0 <= p < sel.len() ==> *(#[trigger] r@[p]) == self.runs@[sel[p]]
            },
    {
        let runs = &self.runs;
        let n = runs.len();
        let mut chosen: Vec<bool> = Vec::new();
        let mut k: usize = 0;
        while k < n
            invariant
                n == runs@.len(),
                k <= n,
                chosen@.len() == k,
                forall|j: int| 0 <= j < k ==> !#[trigger] chosen@[j],
            decreases n - k,
        {
            chosen.push(false);
            k = k + 1;
        }
        let mut r: Vec<&RunRecord> = Vec::new();
        let ghost mut sel: Seq<int> = Seq::empty();
        let mut done = false;
        while r.len() < 20 && !done
            invariant
                n == runs@.len(),
                runs@ == self.runs@,
                chosen@.len() == n,
                r@.len() == sel.len(),
                sel.len() <= 20,
                forall|p: int| 0 <= p < sel.len() ==> 0 <= #[trigger] sel[p] < n && runs@[sel[p]].arrived,
                forall|p: int, q: int| 0 <= p < q < sel.len() ==> ranks_above(runs@, #[trigger] sel[p], #[trigger] sel[q]),
                forall|j: int| 0 <= j < n ==> (#[trigger] chosen@[j] <==> sel.contains(j)),
                forall|j: int, p: int| 0 <= j < n && runs@[j].arrived && !#[trigger] chosen@[j] && 0 <= p < sel.len() ==>
                    ranks_above(runs@, #[trigger] sel[p], j),
                done ==> forall|j: int| 0 <= j < n && #[trigger] runs@[j].arrived ==> chosen@[j],
                forall|p: int| 0 <= p < sel.len() ==> *(#[trigger] r@[p]) == runs@[sel[p]],
            decreases 20 - r@.len() + (if done { 0int } else { 1int }),
        {
            let mut best: Option<usize> = None;
            let mut k: usize = 0;
            while k < n
                invariant
                    n == runs@.len(),
                    chosen@.len() == n,
                    k <= n,
                    best matches Some(b) ==> b < k && runs@[b as int].arrived && !chosen@[b as int]
                        && forall|j: int| 0 <= j < k && j != b && runs@[j].arrived && !#[trigger] chosen@[j] ==>
                            ranks_above(runs@, b as int, j),
                    best is None ==> forall|j: int| 0 <= j < k && #[trigger] runs@[j].arrived ==> chosen@[j],
                decreases n - k,
            {
                if runs[k].arrived && !chosen[k] {
                    match best {
                        Some(b) => {
                            let c = compare_text(runs[k].run_id.as_str(), runs[b].run_id.as_str());
                            if runs[k].score > runs[b].score || (runs[k].score == runs[b].score && c == -1) {
                                proof {
                                    assert forall|j: int| 0 <= j < k + 1 && j != k && runs@[j].arrived && !#[trigger] chosen@[j] implies
                                        ranks_above(runs@, k as int, j) by {
                                        if j != b as int {
                                            lemma_ranks_transitive(runs@, k as int, b as int, j);
                                        }
                                    }
                                }
                                best = Some(k);
                            }
                        },
                        None => {
                            best = Some(k);
                        },
                    }
                }
                k = k + 1;
            }
            match best {
                None => {
                    done = true;
                },
                Some(b) => {
                    r.push(&runs[b]);
                    chosen.set(b, true);
                    proof {
                        let old_sel = sel;
                        sel = sel.push(b as int);
                        assert forall|j: int| 0 <= j < n implies (#[trigger] chosen@[j] <==> sel.contains(j)) by {
                            if j == b as int {
                                assert(sel[sel.len() - 1] == j);
                            } else {
                                if sel.contains(j) {
                                    let p = choose|p: int| 0 <= p < sel.len() && sel[p] == j;
                                    assert(old_sel[p] == j);
                                }
                                if old_sel.contains(j) {
                                    let p = choose|p: int| 0 <= p < old_sel.len() && old_sel[p] == j;
                                    assert(sel[p] == j);
                                }
                            }
                        }
                        assert forall|p: int| 0 <= p < sel.len() implies *(#[trigger] r@[p]) == runs@[sel[p]] by {
                            if p < old_sel.len() {
                                assert(sel[p] == old_sel[p]);
                            }
                        }
                    }
                },
            }
        }
        proof {
            assert forall|k: int| 0 <= k < n && #[trigger] runs@[k].arrived && !sel.contains(k) implies
                sel.len() == 20 && forall|p: int| 0 <= p < sel.len() ==> ranks_above(runs@, #[trigger] sel[p], k) by {
                assert(!chosen@[k]);
            }
            assert(leader_listing(self.runs@, sel));
        }
        r
    }

    /// An empty hall of fame.
    pub fn new() -> (r: History)
        ensures
            r.runs@.len() == 0,
    {
        History { runs: Vec::new() }
    }

    /// Records a completed journey once: a run id already present is not recorded again.
    /// Returns whether the entry was added.
    pub fn record_run(&mut self, entry: RunRecord) -> (r: bool)
        ensures
            r == !has_run(old(self).runs@, entry.run_id@),
            r ==> final(self).runs@ == old(self).runs@.push(entry),
            !r ==> final(self).runs@ == old(self).runs@,
    {
        let mut k: usize = 0;
        while k < self.runs.len()
            invariant
                k <= self.runs@.len(),
                forall|j: int| 0 <= j < k ==> #[trigger] self.runs@[j].run_id@ != entry.run_id@,
            decreases self.runs@.len() - k,
        {
            if same(self.runs[k].run_id.as_str(), entry.run_id.as_str()) {
                return false;
            }
            k = k + 1;
        }
        self.runs.push(entry);
        true
    }
}

/// Why an epitaph was not set.
#[derive(Debug, Clone, Copy, PartialEq, Eq, Structural)]
pub enum EpitaphError {
    /// More than 80 characters, or a control character.
    NotPrintable,
    /// No completed journey has that run id.
    UnknownRun,
}

/// An epitaph the hall of fame accepts: at most 80 printable characters.
pub open spec fn epitaph_ok(e: Seq<char>) -> bool {
    e.len() <= 80 && printable(e)
}

/// `s` with white space trimmed from both ends.
pub open spec fn trimmed(s: Seq<char>) -> Seq<char> {
    crate::ui::strip_back(crate::ui::strip_front(s))
}

/// Position of the first run with id `id`, if any.
pub open spec fn run_pos(runs: Seq<RunRecord>, id: Seq<char>) -> Option<int> {
    crate::lookup::find_first(runs, |r: RunRecord| r.run_id@ == id)
}

fn trim_text(s: &str) -> (r: String)
    ensures
        r@ == trimmed(s@),
{
    let n = s.unicode_len();
    let mut lo: usize = 0;
    while lo < n && crate::text::is_space_char(s.get_char(lo))
        invariant
            lo <= n,
            n == s@.len(),
            forall|k: int| 0 <= k < lo ==> is_space(#[trigger] s@[k]),
        decreases n - lo,
    {
        lo = lo + 1;
    }
    proof { crate::ui::lemma_strip_front(s@, lo as int); }
    let mut hi: usize = n;
    while hi > lo && crate::text::is_space_char(s.get_char(hi - 1))
        invariant
            lo <= hi <= n,
            n == s@.len(),
            forall|k: int| hi <= k < n ==> is_space(#[trigger] s@[k]),
        decreases hi,
    {
        hi = hi - 1;
    }
    let ghost front = s@.subrange(lo as int, n as int);
    proof {
        assert forall|k: int| hi - lo <= k < front.len() implies is_space(#[trigger] front[k]) by {
            assert(front[k] == s@[lo + k]);
        }
        if hi > lo {
            assert(front[hi - lo - 1] == s@[hi - 1]);
        }
        crate::ui::lemma_strip_back(front, hi - lo);
        assert(front.subrange(0, hi - lo) =~= s@.subrange(lo as int, hi as int));
    }
    s.substring_char(lo, hi).to_owned()
}

impl Storage {
    /// Sets the epitaph of a completed journey in `history`, trimmed. The epitaph must be
    /// at most 80 printable characters, and the journey must be recorded.
    pub fn set_epitaph(&self, history: &mut History, run_id: &str, epitaph: &str) -> (r: Result<(), EpitaphError>)
        ensures
            !epitaph_ok(epitaph@) ==> r == Err::<(), EpitaphError>(EpitaphError::NotPrintable) && final(history).runs@ == old(history).runs@,
            epitaph_ok(epitaph@) && run_pos(old(history).runs@, run_id@) is None
                ==> r == Err::<(), EpitaphError>(EpitaphError::UnknownRun) && final(history).runs@ == old(history).runs@,
            epitaph_ok(epitaph@) && run_pos(old(history).runs@, run_id@) is Some ==> {
                let k = run_pos(old(history).runs@, run_id@)->0;
                &&& r is Ok
                &&& final(history).runs@.len() == old(history).runs@.len()
                &&& final(history).runs@[k].epitaph@ == trimmed(epitaph@)
                &&& forall|j: int| 0 <= j < old(history).runs@.len() && j != k ==> #[trigger] final(history).runs@[j] == old(history).runs@[j]
                &&& final(history).runs@[k] == (RunRecord { epitaph: final(history).runs@[k].epitaph, ..old(history).runs@[k] })
            },
    {
        let n = epitaph.unicode_len();
        if n > 80 || crate::text::has_control(epitaph) {
            return Err(EpitaphError::NotPrintable);
        }
        let mut k: usize = 0;
        while k < history.runs.len()
            invariant
                k <= history.runs@.len(),
                history.runs@ == old(history).runs@,
                epitaph_ok(epitaph@),
                forall|j: int| 0 <= j < k ==> (#[trigger] old(history).runs@[j]).run_id@ != run_id@,
            decreases history.runs@.len() - k,
        {
            if same(history.runs[k].run_id.as_str(), run_id) {
                proof {
                    crate::lookup::lemma_first_is(old(history).runs@, |r: RunRecord| r.run_id@ == run_id@, k as int);
                }
                let text = trim_text(epitaph);
                history.runs[k].epitaph = text;
                return Ok(());
            }
            k = k + 1;
        }
        proof { crate::lookup::lemma_first_none(old(history).runs@, |r: RunRecord| r.run_id@ == run_id@); }
        Err(EpitaphError::UnknownRun)
    }
}

} // verus!
