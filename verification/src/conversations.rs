//! Conversations with recurring travelers: what a speaker remembers of the party, so a
//! second meeting is recognized and a one-time favor cannot be had twice.

use vstd::prelude::*;
use crate::content::LandmarkKind;
use crate::state::{GameState, RunStatus};

verus! {

/// What the party can ask about.
#[derive(Debug, Clone, Copy, PartialEq, Eq, PartialOrd, Ord)]
pub enum ConversationTopic {
    Route,
    Supplies,
    News,
}

/// Where a conversation takes place, which picks its scene.
#[derive(Debug, Clone, Copy, PartialEq, Eq)]
pub enum SpeakerSetting {
    Fort,
    Wagon,
}

/// A named speaker the party can approach.
#[derive(Debug, Clone)]
pub struct SpeakerView {
    pub id: String,
    pub name: String,
    pub setting: SpeakerSetting,
}

/// The position of a topic in the order topics are listed.
pub open spec fn topic_rank(t: ConversationTopic) -> int {
    match t {
        ConversationTopic::Route => 0,
        ConversationTopic::Supplies => 1,
        ConversationTopic::News => 2,
    }
}

fn rank_of(t: ConversationTopic) -> (r: u8)
    ensures
        r == topic_rank(t),
{
    match t {
        ConversationTopic::Route => 0,
        ConversationTopic::Supplies => 1,
        ConversationTopic::News => 2,
    }
}

/// What a speaker remembers of the party: how often and when they last talked, the
/// topics discussed (in topic order, each once), and whether the favor was given.
#[derive(Debug, Clone, PartialEq, Eq)]
pub struct ConversationMemory {
    pub times_talked: u32,
    pub last_talked_day: Option<u32>,
    pub topics_discussed: Vec<ConversationTopic>,
    pub favor_received: bool,
}

/// Topics listed in topic order, each once.
pub open spec fn topics_ordered(ts: Seq<ConversationTopic>) -> bool {
    forall|i: int, j: int| 0 <= i < j < ts.len() ==> topic_rank(#[trigger] ts[i]) < topic_rank(#[trigger] ts[j])
}

/// Whether a conversation on `day` earns the one-time favor: the party is recognized on a
/// return visit on a later day, the favor was not given before, and it can be delivered.
pub open spec fn favor_due(before: ConversationMemory, day: u32, deliverable: bool) -> bool {
    &&& before.times_talked > 0
    &&& before.last_talked_day matches Some(d) && d < day
    &&& !before.favor_received
    &&& deliverable
}

/// What one conversation does to the memory.
pub open spec fn remembered(before: ConversationMemory, after: ConversationMemory, day: u32, topic: ConversationTopic,
    deliverable: bool) -> bool {
    &&& after.times_talked == before.times_talked + 1
    &&& after.last_talked_day == Some(day)
    &&& after.topics_discussed@.to_set() == before.topics_discussed@.to_set().insert(topic)
    &&& after.favor_received == (before.favor_received || favor_due(before, day, deliverable))
}

impl ConversationMemory {
    /// A speaker who has not met the party.
    pub fn new() -> (r: Self)
        ensures
            r.times_talked == 0,
            r.last_talked_day is None,
            r.topics_discussed@.len() == 0,
            !r.favor_received,
    {
        ConversationMemory { times_talked: 0, last_talked_day: None, topics_discussed: Vec::new(), favor_received: false }
    }

    /// Records a conversation on `day` about `topic`, where `deliverable` says whether the
    /// favor could be handed over now (a full wagon cannot take it). Returns whether the
    /// speaker recognized the party (they had talked before) and whether the favor is
    /// granted now: a later-day return, not granted before, and deliverable. A favor not
    /// granted stays available for a later visit.
    pub fn remember(&mut self, day: u32, topic: ConversationTopic, deliverable: bool) -> (r: (bool, bool))
        requires
            old(self).times_talked < u32::MAX,
            topics_ordered(old(self).topics_discussed@),
        ensures
            r.0 == (old(self).times_talked > 0),
            r.1 == favor_due(*old(self), day, deliverable),
            remembered(*old(self), *final(self), day, topic, deliverable),
            topics_ordered(final(self).topics_discussed@),
    {
        let recognized = self.times_talked > 0;
        let later = match self.last_talked_day {
            Some(d) => d < day,
            None => false,
        };
        let grant = recognized && later && !self.favor_received && deliverable;
        self.times_talked = self.times_talked + 1;
        self.last_talked_day = Some(day);
        let ghost before = self.topics_discussed@;
        let rank = rank_of(topic);
        let mut p: usize = 0;
        while p < self.topics_discussed.len() && rank_of(self.topics_discussed[p]) < rank
            invariant
                p <= self.topics_discussed@.len(),
                self.topics_discussed@ == before,
                rank == topic_rank(topic),
                forall|q: int| 0 <= q < p ==> topic_rank(#[trigger] before[q]) < topic_rank(topic),
            decreases self.topics_discussed@.len() - p,
        {
            p = p + 1;
        }
        if p < self.topics_discussed.len() && rank_of(self.topics_discussed[p]) == rank {
            proof {
                assert(before.to_set().insert(topic) =~= before.to_set()) by {
                    assert(before.contains(topic));
                }
            }
        } else {
            self.topics_discussed.insert(p, topic);
            proof {
                let after = self.topics_discussed@;
                assert forall|x: ConversationTopic| after.to_set().contains(x) <==> before.to_set().insert(topic).contains(x) by {
                    if after.contains(x) {
                        let k = choose|k: int| 0 <= k < after.len() && after[k] == x;
                        if k < p {
                            assert(before[k] == x);
                        } else if k > p {
                            assert(before[k - 1] == x);
                        }
                    }
                    if before.contains(x) {
                        let k = choose|k: int| 0 <= k < before.len() && before[k] == x;
                        if k < p {
                            assert(after[k] == x);
                        } else {
                            assert(after[k + 1] == x);
                        }
                    }
                    if x == topic {
                        assert(after[p as int] == x);
                    }
                }
                assert(after.to_set() =~= before.to_set().insert(topic));
                assert forall|i: int, j: int| 0 <= i < j < after.len() implies topic_rank(#[trigger] after[i]) < topic_rank(#[trigger] after[j]) by {
                    if p < before.len() {
                        assert(topic_rank(before[p as int]) >= topic_rank(topic));
                        assert(before[p as int] != topic);
                        assert(topic_rank(before[p as int]) != topic_rank(topic));
                    }
                    if j < p {
                    } else if j == p {
                        assert(after[i] == before[i]);
                    } else if i < p {
                        assert(after[j] == before[j - 1]);
                        assert(after[i] == before[i]);
                        if j - 1 > p {
                            assert(topic_rank(before[p as int]) < topic_rank(before[j - 1]));
                        }
                    } else if i == p {
                        assert(after[j] == before[j - 1]);
                        if j - 1 > p {
                            assert(topic_rank(before[p as int]) < topic_rank(before[j - 1]));
                        }
                    } else {
                        assert(after[i] == before[i - 1]);
                        assert(after[j] == before[j - 1]);
                    }
                }
            }
        }
        if grant {
            self.favor_received = true;
        }
        (recognized, grant)
    }
}

/// The speaker menu's row for `s`.
pub open spec fn speaker_row(s: SpeakerView) -> Seq<char> {
    match s.setting {
        SpeakerSetting::Fort => "Speak with "@ + s.name@,
        SpeakerSetting::Wagon => "Speak with "@ + s.name@ + " (neighboring wagon)"@,
    }
}

/// The rows of the speaker-choice menu: one per speaker, then listening to the camp,
/// which keeps the old way of hearing camp talk.
pub fn speaker_menu(speakers: &[SpeakerView]) -> (r: Vec<String>)
    ensures
        r@.len() == speakers@.len() + 1,
        forall|i: int| 0 <= i < speakers@.len() ==> (#[trigger] r@[i])@ == speaker_row(speakers@[i]),
        r@[speakers@.len() as int]@ == "Listen to the camp"@,
{
    let mut rows: Vec<String> = Vec::new();
    let mut i: usize = 0;
    while i < speakers.len()
        invariant
            i <= speakers@.len(),
            rows@.len() == i,
            forall|j: int| 0 <= j < i ==> (#[trigger] rows@[j])@ == speaker_row(speakers@[j]),
        decreases speakers@.len() - i,
    {
        let speaker = &speakers[i];
        let mut row = "Speak with ".to_owned();
        vstd::string::StringExecFns::append(&mut row, speaker.name.as_str());
        match speaker.setting {
            SpeakerSetting::Fort => {},
            SpeakerSetting::Wagon => {
                vstd::string::StringExecFns::append(&mut row, " (neighboring wagon)");
            },
        }
        rows.push(row);
        i = i + 1;
    }
    rows.push("Listen to the camp".to_owned());
    rows
}

/// The scene of a conversation: the fort's own picture when a fort's speaker is met
/// at that fort, the plains beside a neighboring wagon, or camp at night.
pub open spec fn scene_of(game: GameState, speaker: Option<SpeakerSetting>) -> (Seq<char>, Seq<char>) {
    if speaker == Some(SpeakerSetting::Fort) && game.status is AtLandmark && (game.here() matches Some(n)
        && n.kind is Fort) {
        (game.here()->0.id@ + ".px"@, "AT THE FORT"@)
    } else if speaker == Some(SpeakerSetting::Wagon) {
        ("terrain_plains.px"@, "A NEIGHBORING WAGON"@)
    } else {
        ("terrain_plains.px"@, "CAMP AT NIGHT"@)
    }
}

/// The picture file and one-line description of a conversation's scene.
pub fn setting(game: &GameState, speaker: Option<SpeakerSetting>) -> (r: (String, &'static str))
    ensures
        (r.0@, r.1@) == scene_of(*game, speaker),
{
    match speaker {
        Some(SpeakerSetting::Fort) => {
            if matches!(game.status, RunStatus::AtLandmark(_)) {
                if let Some(node) = game.current_landmark() {
                    if matches!(node.kind, LandmarkKind::Fort) {
                        let mut file = node.id.clone();
                        vstd::string::StringExecFns::append(&mut file, ".px");
                        return (file, "AT THE FORT");
                    }
                }
            }
            ("terrain_plains.px".to_owned(), "CAMP AT NIGHT")
        },
        Some(SpeakerSetting::Wagon) => ("terrain_plains.px".to_owned(), "A NEIGHBORING WAGON"),
        None => ("terrain_plains.px".to_owned(), "CAMP AT NIGHT"),
    }
}

} // verus!
