use trainsim::driver::apply_training;
use trainsim::types::{Overlap, Person, Target};

fn person_with_two_targets() -> Person {
    Person {
        name: "Amu".to_string(),
        skills: vec![("Lore".to_string(), 1_000), ("Illusion".to_string(), 2_000)],
        schedule: vec![("Evening".to_string(), 2_000)],
        safety_limit: vec![],
        schedule_limit: vec![],
        overlap: vec![
            Overlap { combo: vec!["Lore".to_string()], bonus: 1_000 },
            Overlap { combo: vec!["Illusion".to_string()], bonus: 1_000 },
        ],
        target: vec![
            ("Lore".to_string(), Target { target_ranks: 2_000, hours_needed: 1_000 }),
            ("Illusion".to_string(), Target { target_ranks: 3_000, hours_needed: 500 }),
        ],
        preference: vec![],
    }
}

#[test]
fn remaining_need_drops_by_realized_output() {
    let mut p = person_with_two_targets();
    let roi = vec![("Lore".to_string(), 700), ("Illusion".to_string(), 200)];
    let retired = apply_training(&mut p, &roi);
    assert!(retired.is_empty());
    assert_eq!(p.target.len(), 2);
    assert_eq!(p.target[0].0, "Lore");
    assert_eq!(p.target[0].1.hours_needed, 300);
    assert_eq!(p.target[0].1.target_ranks, 2_000);
    assert_eq!(p.target[1].1.hours_needed, 300);
}

#[test]
fn exhausted_targets_retire_with_their_rank() {
    let mut p = person_with_two_targets();
    let roi = vec![("Lore".to_string(), 700), ("Illusion".to_string(), 600)];
    let retired = apply_training(&mut p, &roi);
    // The second target needed 500 and got 600: retired at its recorded
    // rank; remaining need is clamped at zero, never negative.
    assert_eq!(retired, vec![("Illusion".to_string(), 2_000)]);
    assert_eq!(p.target.len(), 1);
    assert_eq!(p.target[0].0, "Lore");
    assert_eq!(p.target[0].1.hours_needed, 300);
}

#[test]
fn need_met_exactly_also_retires() {
    let mut p = person_with_two_targets();
    let roi = vec![("Lore".to_string(), 1_000), ("Illusion".to_string(), 0)];
    let retired = apply_training(&mut p, &roi);
    assert_eq!(retired, vec![("Lore".to_string(), 1_000)]);
    assert_eq!(p.target.len(), 1);
    assert_eq!(p.target[0].0, "Illusion");
    assert_eq!(p.target[0].1.hours_needed, 500);
}

#[test]
fn zero_output_changes_nothing() {
    let mut p = person_with_two_targets();
    let roi = vec![("Lore".to_string(), 0), ("Illusion".to_string(), 0)];
    let retired = apply_training(&mut p, &roi);
    assert!(retired.is_empty());
    assert_eq!(p.target[0].1.hours_needed, 1_000);
    assert_eq!(p.target[1].1.hours_needed, 500);
}
