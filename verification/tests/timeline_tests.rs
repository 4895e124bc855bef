use trainsim::timeline::{apply_task, advance_one_day, anyone_training, World};
use trainsim::types::{Error, Overlap, Target, Task};

fn world_with_amu() -> World {
    let mut w = World { now: 0, persons: vec![] };
    let r = apply_task(
        &mut w,
        Task::Baseline {
            name: "Amu".to_string(),
            skills: vec![
                ("Dreamwalking".to_string(), 1_000),
                ("Illusion".to_string(), 1_000),
                ("Integrity".to_string(), 2_000),
                ("Lore".to_string(), 1_000),
            ],
        },
    );
    assert_eq!(r, Ok(None));
    w
}

#[test]
fn backward_date_jump_is_rejected_before_any_mutation() {
    let mut w = world_with_amu();
    w.now = 10;
    let r = apply_task(&mut w, Task::At { day: 10 });
    assert_eq!(r, Err(Error::ConfigurationError));
    let r2 = apply_task(&mut w, Task::At { day: 3 });
    assert_eq!(r2, Err(Error::ConfigurationError));
    assert_eq!(w.now, 10);
    assert_eq!(w.persons.len(), 1);
    assert_eq!(w.persons[0].name, "Amu");
}

#[test]
fn forward_date_jump_hands_back_the_day() {
    let mut w = world_with_amu();
    w.now = 10;
    let r = apply_task(&mut w, Task::At { day: 13 });
    assert_eq!(r, Ok(Some(13)));
    // The event itself does not advance the calendar: the caller runs the
    // days one at a time.
    assert_eq!(w.now, 10);
    advance_one_day(&mut w);
    assert_eq!(w.now, 11);
}

#[test]
fn duplicate_baseline_is_rejected() {
    let mut w = world_with_amu();
    let r = apply_task(
        &mut w,
        Task::Baseline { name: "Amu".to_string(), skills: vec![("Lore".to_string(), 1_000)] },
    );
    assert_eq!(r, Err(Error::ConfigurationError));
    assert_eq!(w.persons.len(), 1);
    assert_eq!(w.persons[0].skills.len(), 4);
}

#[test]
fn unknown_individual_is_rejected() {
    let mut w = world_with_amu();
    let r = apply_task(
        &mut w,
        Task::Schedule { name: "Utau".to_string(), segment: vec![("School".to_string(), 1_000)] },
    );
    assert_eq!(r, Err(Error::ConfigurationError));
    let r2 = apply_task(
        &mut w,
        Task::Target { name: "Utau".to_string(), target: vec![("Lore".to_string(), 2_000)] },
    );
    assert_eq!(r2, Err(Error::ConfigurationError));
}

#[test]
fn schedule_and_limits_replace_wholesale() {
    let mut w = world_with_amu();
    let r = apply_task(
        &mut w,
        Task::Schedule {
            name: "Amu".to_string(),
            segment: vec![("School".to_string(), 1_000), ("Evening".to_string(), 2_000)],
        },
    );
    assert_eq!(r, Ok(None));
    assert_eq!(w.persons[0].schedule.len(), 2);
    let r2 = apply_task(
        &mut w,
        Task::Schedule { name: "Amu".to_string(), segment: vec![("Sleep".to_string(), 500)] },
    );
    assert_eq!(r2, Ok(None));
    assert_eq!(w.persons[0].schedule, vec![("Sleep".to_string(), 500)]);
    let r3 = apply_task(
        &mut w,
        Task::SafetyLimit {
            name: "Amu".to_string(),
            limit: vec![("Integrity".to_string(), 2_000)],
        },
    );
    assert_eq!(r3, Ok(None));
    assert_eq!(w.persons[0].safety_limit, vec![("Integrity".to_string(), 2_000)]);
    let r4 = apply_task(
        &mut w,
        Task::ScheduleLimit {
            name: "Amu".to_string(),
            limit: vec![("Sleep".to_string(), vec!["Dreamwalking".to_string()])],
        },
    );
    assert_eq!(r4, Ok(None));
    assert_eq!(w.persons[0].schedule_limit.len(), 1);
}

#[test]
fn overlap_gets_singletons_for_every_possessed_skill() {
    let mut w = world_with_amu();
    let r = apply_task(
        &mut w,
        Task::Overlap {
            name: "Amu".to_string(),
            when: vec![Overlap {
                combo: vec!["Illusion".to_string(), "Dreamwalking".to_string()],
                bonus: 1_250,
            }],
        },
    );
    assert_eq!(r, Ok(None));
    let overlap = &w.persons[0].overlap;
    // The configured combo stays first; each of the four possessed skills
    // gains a neutral singleton.
    assert_eq!(overlap.len(), 5);
    assert_eq!(overlap[0].combo.len(), 2);
    assert_eq!(overlap[0].bonus, 1_250);
    for extra in &overlap[1..] {
        assert_eq!(extra.combo.len(), 1);
        assert_eq!(extra.bonus, 1_000);
    }
    let names: Vec<String> = overlap[1..].iter().map(|o| o.combo[0].clone()).collect();
    assert!(names.contains(&"Dreamwalking".to_string()));
    assert!(names.contains(&"Illusion".to_string()));
    assert!(names.contains(&"Integrity".to_string()));
    assert!(names.contains(&"Lore".to_string()));
}

#[test]
fn configured_singleton_is_not_duplicated() {
    let mut w = world_with_amu();
    let r = apply_task(
        &mut w,
        Task::Overlap {
            name: "Amu".to_string(),
            when: vec![Overlap { combo: vec!["Lore".to_string()], bonus: 1_500 }],
        },
    );
    assert_eq!(r, Ok(None));
    let overlap = &w.persons[0].overlap;
    // Lore already has a singleton (with its own bonus): only the three
    // other skills gain one.
    assert_eq!(overlap.len(), 4);
    assert_eq!(overlap[0].combo, vec!["Lore".to_string()]);
    assert_eq!(overlap[0].bonus, 1_500);
}

#[test]
fn targets_are_seeded_from_the_classifier() {
    let mut w = world_with_amu();
    let r = apply_task(
        &mut w,
        Task::Target {
            name: "Amu".to_string(),
            target: vec![("Lore".to_string(), 2_000), ("Dreamwalking".to_string(), 2_000)],
        },
    );
    assert_eq!(r, Ok(None));
    let target = &w.persons[0].target;
    assert_eq!(target.len(), 2);
    // Lore at rank 1 is an ability: 1 * 48 hours to the next rank.
    assert_eq!(target[0].0, "Lore");
    assert_eq!(target[0].1.target_ranks, 2_000);
    assert_eq!(target[0].1.hours_needed, 48_000);
    // Dreamwalking at rank 1 is psionic: 1 * 48 hours as well.
    assert_eq!(target[1].1.hours_needed, 48_000);
    assert!(anyone_training(&w));
}

#[test]
fn target_for_unpossessed_skill_is_a_configuration_error() {
    let mut w = world_with_amu();
    let r = apply_task(
        &mut w,
        Task::Target { name: "Amu".to_string(), target: vec![("Strength".to_string(), 2_000)] },
    );
    assert_eq!(r, Err(Error::ConfigurationError));
    assert!(w.persons[0].target.is_empty());
    assert!(!anyone_training(&w));
}

#[test]
fn target_for_unknown_skill_is_a_classification_error() {
    let mut w = world_with_amu();
    let r = apply_task(
        &mut w,
        Task::Baseline {
            name: "Ikuto".to_string(),
            skills: vec![("Basketweaving".to_string(), 1_000)],
        },
    );
    assert_eq!(r, Ok(None));
    let r2 = apply_task(
        &mut w,
        Task::Target {
            name: "Ikuto".to_string(),
            target: vec![("Basketweaving".to_string(), 2_000)],
        },
    );
    assert_eq!(r2, Err(Error::ClassificationError));
    assert!(w.persons[1].target.is_empty());
}
