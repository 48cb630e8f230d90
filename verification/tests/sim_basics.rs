use pioneer_trail::calendar::CalendarDate;
use pioneer_trail::journal::{Journal, JournalKind, MAX_ENTRIES};
use pioneer_trail::party::{trait_has_effect, Trait};

#[test]
fn month_and_leap_rollover() {
    assert_eq!(
        CalendarDate::new(1848, 2, 28).unwrap().next_day(),
        CalendarDate::new(1848, 2, 29).unwrap()
    );
    assert_eq!(
        CalendarDate::new(1847, 2, 28).unwrap().next_day(),
        CalendarDate::new(1847, 3, 1).unwrap()
    );
    assert_eq!(
        CalendarDate::new(1848, 12, 31).unwrap().next_day(),
        CalendarDate::new(1849, 1, 1).unwrap()
    );
}

#[test]
fn keeps_critical_facts_when_trimming() {
    let mut journal = Journal::default();
    journal.record(0, 0, JournalKind::Departed);
    for day in 1..=MAX_ENTRIES as u32 {
        journal.record(
            day,
            day,
            JournalKind::Recovered { name: "Ada".into(), ailment: "fever".into() },
        );
    }
    assert!(matches!(
        journal.entries.first().map(|entry| &entry.kind),
        Some(JournalKind::Departed)
    ));
    assert_eq!(journal.entries.len(), MAX_ENTRIES);
}

#[test]
fn every_trait_changes_a_profile_or_daily_behavior() {
    assert_eq!(Trait::ALL.len(), 20);
    for trait_ in Trait::ALL {
        assert!(trait_has_effect(trait_), "{trait_:?} has no modeled effect");
    }
}
