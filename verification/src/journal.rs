//! Durable, factual milestones for a single journey.

use vstd::prelude::*;
use vstd::string::StringExecFns;
use crate::text::{push_spaced, push_dollars, spaced, dollars};

verus! {

/// Journals keep at most this many entries.
pub const MAX_ENTRIES: usize = 200;

#[derive(Debug, Clone, PartialEq, Eq)]
pub enum DeathCause {
    RiverCrossing,
    Rafting,
    Ailments(Vec<String>),
    Exhaustion,
    Starvation,
}

/// Ailment names, spaced, joined by " and ".
pub open spec fn joined_ailments(ailments: Seq<String>) -> Seq<char>
    decreases ailments.len(),
{
    if ailments.len() == 0 {
        Seq::empty()
    } else if ailments.len() == 1 {
        spaced(ailments[0]@)
    } else {
        joined_ailments(ailments.drop_last()) + " and "@ + spaced(ailments.last()@)
    }
}

/// The words naming a cause of death.
pub open spec fn cause_words(cause: DeathCause) -> Seq<char> {
    match cause {
        DeathCause::RiverCrossing => "a river crossing"@,
        DeathCause::Rafting => "the Columbia rafting"@,
        DeathCause::Ailments(list) => joined_ailments(list@),
        DeathCause::Exhaustion => "exhaustion"@,
        DeathCause::Starvation => "starvation"@,
    }
}

impl DeathCause {
    /// The words naming this cause of death.
    pub fn description(&self) -> (r: String)
        ensures
            r@ == cause_words(*self),
    {
        match self {
            DeathCause::RiverCrossing => "a river crossing".to_owned(),
            DeathCause::Rafting => "the Columbia rafting".to_owned(),
            DeathCause::Ailments(list) => {
                let mut out = String::new();
                let mut i: usize = 0;
                while i < list.len()
                    invariant
                        i <= list@.len(),
                        out@ == joined_ailments(list@.subrange(0, i as int)),
                    decreases list@.len() - i,
                {
                    if i != 0 {
                        out.append(" and ");
                    }
                    push_spaced(&mut out, list[i].as_str());
                    proof {
                        let s = list@.subrange(0, (i + 1) as int);
                        assert(s.drop_last() =~= list@.subrange(0, i as int));
                        if i == 0 {
                            assert(out@ =~= joined_ailments(s));
                        } else {
                            assert(out@ =~= joined_ailments(s));
                        }
                    }
                    i = i + 1;
                }
                assert(list@.subrange(0, list@.len() as int) =~= list@);
                out
            },
            DeathCause::Exhaustion => "exhaustion".to_owned(),
            DeathCause::Starvation => "starvation".to_owned(),
        }
    }
}

#[derive(Debug, Clone, PartialEq, Eq)]
pub enum JournalKind {
    Departed,
    Landmark { landmark_id: String, name: String },
    Recovered { name: String, ailment: String },
    Relationship { left: String, right: String, affinity: i16 },
    Birth { mother: String, child: String },
    Marriage { left: String, right: String },
    LeftParty { name: String },
    LetterAccepted { recipient: String, destination: String, reward_cents: i64 },
    LetterDelivered { recipient: String, destination: String, reward_cents: i64 },
    Death { name: String, cause: DeathCause },
    Arrived,
    Failed,
}

/// Facts that must survive trimming: departure, landmarks, deaths and the ending.
pub open spec fn is_critical(kind: JournalKind) -> bool {
    match kind {
        JournalKind::Departed | JournalKind::Landmark { .. } | JournalKind::Death { .. }
        | JournalKind::Arrived | JournalKind::Failed => true,
        _ => false,
    }
}

/// How two travelers' affinity reads in the journal.
pub open spec fn closeness(affinity: i16) -> Seq<char> {
    if affinity >= 20 {
        "close"@
    } else if affinity <= -20 {
        "distant"@
    } else {
        "getting acquainted"@
    }
}

/// The sentence a journal entry reads as.
pub open spec fn kind_text(kind: JournalKind) -> Seq<char> {
    match kind {
        JournalKind::Departed => "The party departed."@,
        JournalKind::Landmark { name, .. } => "Reached "@ + name@ + "."@,
        JournalKind::Recovered { name, ailment } => name@ + " recovered from "@ + spaced(ailment@) + "."@,
        JournalKind::Relationship { left, right, affinity } => left@ + " and "@ + right@ + " are "@ + closeness(affinity) + "."@,
        JournalKind::Birth { mother, child } => mother@ + " gave birth to "@ + child@ + "."@,
        JournalKind::Marriage { left, right } => left@ + " and "@ + right@ + " married."@,
        JournalKind::LeftParty { name } => name@ + " left the party."@,
        JournalKind::LetterAccepted { recipient, destination, reward_cents } => "Accepted a sealed letter for "@
            + recipient@ + ", bound for "@ + destination@ + " ($"@ + dollars(reward_cents as int) + ")."@,
        JournalKind::LetterDelivered { recipient, destination, reward_cents } => "Delivered the sealed letter to "@
            + recipient@ + " at "@ + destination@ + "; earned $"@ + dollars(reward_cents as int) + "."@,
        JournalKind::Death { name, cause } => name@ + " died from "@ + cause_words(cause) + "."@,
        JournalKind::Arrived => "The party arrived at journey's end."@,
        JournalKind::Failed => "The journey ended on the trail."@,
    }
}

impl JournalKind {
    /// Whether this fact must survive trimming.
    pub fn critical(&self) -> (r: bool)
        ensures
            r == is_critical(*self),
    {
        match self {
            JournalKind::Departed | JournalKind::Landmark { .. } | JournalKind::Death { .. }
            | JournalKind::Arrived | JournalKind::Failed => true,
            _ => false,
        }
    }

    /// The sentence this entry reads as.
    pub fn text(&self) -> (r: String)
        ensures
            r@ == kind_text(*self),
    {
        let mut out = String::new();
        match self {
            JournalKind::Departed => out.append("The party departed."),
            JournalKind::Landmark { name, .. } => {
                out.append("Reached ");
                out.append(name.as_str());
                out.append(".");
            },
            JournalKind::Recovered { name, ailment } => {
                out.append(name.as_str());
                out.append(" recovered from ");
                push_spaced(&mut out, ailment.as_str());
                out.append(".");
            },
            JournalKind::Relationship { left, right, affinity } => {
                out.append(left.as_str());
                out.append(" and ");
                out.append(right.as_str());
                out.append(" are ");
                if *affinity >= 20 {
                    out.append("close");
                } else if *affinity <= -20 {
                    out.append("distant");
                } else {
                    out.append("getting acquainted");
                }
                out.append(".");
            },
            JournalKind::Birth { mother, child } => {
                out.append(mother.as_str());
                out.append(" gave birth to ");
                out.append(child.as_str());
                out.append(".");
            },
            JournalKind::Marriage { left, right } => {
                out.append(left.as_str());
                out.append(" and ");
                out.append(right.as_str());
                out.append(" married.");
            },
            JournalKind::LeftParty { name } => {
                out.append(name.as_str());
                out.append(" left the party.");
            },
            JournalKind::LetterAccepted { recipient, destination, reward_cents } => {
                out.append("Accepted a sealed letter for ");
                out.append(recipient.as_str());
                out.append(", bound for ");
                out.append(destination.as_str());
                out.append(" ($");
                push_dollars(&mut out, *reward_cents);
                out.append(").");
            },
            JournalKind::LetterDelivered { recipient, destination, reward_cents } => {
                out.append("Delivered the sealed letter to ");
                out.append(recipient.as_str());
                out.append(" at ");
                out.append(destination.as_str());
                out.append("; earned $");
                push_dollars(&mut out, *reward_cents);
                out.append(".");
            },
            JournalKind::Death { name, cause } => {
                out.append(name.as_str());
                out.append(" died from ");
                let words = cause.description();
                out.append(words.as_str());
                out.append(".");
            },
            JournalKind::Arrived => out.append("The party arrived at journey's end."),
            JournalKind::Failed => out.append("The journey ended on the trail."),
        }
        assert(out@ =~= kind_text(*self));
        out
    }
}

#[derive(Debug, Clone, PartialEq, Eq)]
pub struct JournalEntry {
    pub sequence: u32,
    pub day: u32,
    pub miles: u32,
    pub kind: JournalKind,
}

/// A bounded log of milestones. When full, the oldest non-critical entry makes room.
#[derive(Debug, Clone, PartialEq, Eq)]
pub struct Journal {
    pub entries: Vec<JournalEntry>,
    pub next_sequence: u32,
}

/// Position of the first non-critical entry, if any.
pub open spec fn first_noncritical(entries: Seq<JournalEntry>) -> Option<int> {
    if exists|i: int| 0 <= i < entries.len() && !is_critical(#[trigger] entries[i].kind) {
        Some(choose|i: int| 0 <= i < entries.len() && !is_critical(#[trigger] entries[i].kind)
            && forall|j: int| 0 <= j < i ==> is_critical(#[trigger] entries[j].kind))
    } else {
        None
    }
}

/// The entries' sequence numbers rise from first to last and stay below the next one.
pub open spec fn rising(j: Journal) -> bool {
    &&& forall|i: int, k: int| 0 <= i < k < j.entries@.len() ==> #[trigger] j.entries@[i].sequence < #[trigger] j.entries@[k].sequence
    &&& forall|i: int| 0 <= i < j.entries@.len() ==> #[trigger] j.entries@[i].sequence < j.next_sequence
}

impl Journal {
    /// The sequence number the next entry receives.
    pub open spec fn next(self) -> u32 {
        self.next_sequence
    }

    /// An empty journal.
    pub fn new() -> (r: Self)
        ensures
            r.entries@.len() == 0,
            r.next() == 0,
            rising(r),
    {
        Journal { entries: Vec::new(), next_sequence: 0 }
    }

    /// Records a milestone. When the journal is full, the oldest non-critical entry is
    /// dropped; when every entry is critical, a non-critical milestone is not recorded,
    /// while a critical one is still appended.
    pub fn record(&mut self, day: u32, miles: u32, kind: JournalKind)
        ensures
            ({
                let entry = JournalEntry { sequence: old(self).next(), day, miles, kind };
                let full = old(self).entries@.len() >= MAX_ENTRIES;
                let kept = if !full {
                    Some(old(self).entries@)
                } else {
                    match first_noncritical(old(self).entries@) {
                        Some(i) => Some(old(self).entries@.remove(i)),
                        None => if is_critical(kind) { Some(old(self).entries@) } else { None },
                    }
                };
                match kept {
                    Some(k) => final(self).entries@ == k.push(entry) && final(self).next() == (if old(self).next() == u32::MAX { u32::MAX } else { (old(self).next() + 1) as u32 }),
                    None => *final(self) == *old(self),
                }
            }),
            rising(*old(self)) && old(self).next() < u32::MAX ==> rising(*final(self)),
    {
        if self.entries.len() >= MAX_ENTRIES {
            let mut index: usize = 0;
            while index < self.entries.len() && self.entries[index].kind.critical()
                invariant
                    index <= self.entries@.len(),
                    forall|j: int| 0 <= j < index ==> is_critical(#[trigger] self.entries@[j].kind),
                    self.entries@ == old(self).entries@,
                decreases self.entries@.len() - index,
            {
                index = index + 1;
            }
            if index < self.entries.len() {
                proof {
                    let i = index as int;
                    assert(!is_critical(self.entries@[i].kind));
                    let c = choose|c: int| 0 <= c < self.entries@.len() && !is_critical(#[trigger] self.entries@[c].kind)
                        && forall|j: int| 0 <= j < c ==> is_critical(#[trigger] self.entries@[j].kind);
                    if c < i {
                        assert(is_critical(self.entries@[c].kind));
                    }
                    if i < c {
                        assert(is_critical(self.entries@[i].kind));
                    }
                    assert(first_noncritical(old(self).entries@) == Some(i));
                }
                self.entries.remove(index);
            } else {
                proof {
                    assert(first_noncritical(old(self).entries@) is None);
                }
                if !kind.critical() {
                    return;
                }
            }
        }
        let seq = self.next_sequence;
        self.entries.push(JournalEntry { sequence: seq, day, miles, kind });
        self.next_sequence = self.next_sequence.saturating_add(1);
    }
}

impl Default for Journal {
    fn default() -> (r: Self)
        ensures
            r.entries@.len() == 0,
            r.next() == 0,
    {
        Journal::new()
    }
}

} // verus!
