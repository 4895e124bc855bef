use trainsim::classifier::{category, effective_training_hours_needed, Category};
use trainsim::types::Error;

#[test]
fn categories_of_known_skills() {
    assert_eq!(category(&"Strength".to_string()), Ok(Category::Attribute));
    assert_eq!(category(&"Intelligence".to_string()), Ok(Category::Attribute));
    assert_eq!(category(&"Lore".to_string()), Ok(Category::Ability));
    assert_eq!(category(&"Integrity".to_string()), Ok(Category::Ability));
    assert_eq!(category(&"Martial Arts".to_string()), Ok(Category::Ability));
    assert_eq!(category(&"Dreamwalking".to_string()), Ok(Category::Psionic));
    assert_eq!(category(&"Illusion".to_string()), Ok(Category::Psionic));
}

#[test]
fn unknown_skill_is_a_classification_error() {
    assert_eq!(category(&"Basketweaving".to_string()), Err(Error::ClassificationError));
    assert_eq!(
        effective_training_hours_needed(&"Basketweaving".to_string(), 0),
        Err(Error::ClassificationError)
    );
}

#[test]
fn first_rank_costs_per_category() {
    // Fixed first-rank costs, in thousandths of an hour:
    // attribute 3 * 48 * 4 hours, ability 3 * 48, psionic 2 * 48.
    assert_eq!(effective_training_hours_needed(&"Strength".to_string(), 0), Ok(576_000));
    assert_eq!(effective_training_hours_needed(&"Lore".to_string(), 0), Ok(144_000));
    assert_eq!(effective_training_hours_needed(&"Dreamwalking".to_string(), 0), Ok(96_000));
}

#[test]
fn fractional_rank_below_one_costs_like_rank_zero() {
    assert_eq!(effective_training_hours_needed(&"Lore".to_string(), 500), Ok(144_000));
    assert_eq!(effective_training_hours_needed(&"Strength".to_string(), 999), Ok(576_000));
}

#[test]
fn positive_ranks_scale_linearly() {
    // Rank r costs r * 48 * 4 hours for attributes and r * 48 otherwise.
    assert_eq!(effective_training_hours_needed(&"Strength".to_string(), 1_000), Ok(192_000));
    assert_eq!(effective_training_hours_needed(&"Strength".to_string(), 2_000), Ok(384_000));
    assert_eq!(effective_training_hours_needed(&"Lore".to_string(), 1_000), Ok(48_000));
    assert_eq!(effective_training_hours_needed(&"Lore".to_string(), 2_000), Ok(96_000));
    assert_eq!(effective_training_hours_needed(&"Lore".to_string(), 3_000), Ok(144_000));
    assert_eq!(effective_training_hours_needed(&"Illusion".to_string(), 2_000), Ok(96_000));
    // The whole part of the rank decides.
    assert_eq!(effective_training_hours_needed(&"Lore".to_string(), 3_500), Ok(144_000));
}
