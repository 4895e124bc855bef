use trainsim::types::{Person, SCALE};

#[test]
fn new_person_starts_with_baseline_and_default_preferences() {
    let p = Person::new(
        "Amu".to_string(),
        vec![("Lore".to_string(), 1_000), ("Illusion".to_string(), 2_500)],
    );
    assert_eq!(p.name, "Amu");
    assert_eq!(p.skills.len(), 2);
    assert!(p.schedule.is_empty());
    assert!(p.safety_limit.is_empty());
    assert!(p.schedule_limit.is_empty());
    assert!(p.overlap.is_empty());
    assert!(p.target.is_empty());
    // The default preference list carries the fixed priority ordering at
    // the neutral weight.
    assert_eq!(
        p.preference,
        vec![
            ("Lore".to_string(), SCALE),
            ("Illusion".to_string(), SCALE),
            ("Dreamwalking".to_string(), SCALE),
            ("Integrity".to_string(), SCALE),
        ]
    );
}
