//! Skill classifier: maps a skill name to its category and computes the
//! effective training hours needed to advance one rank from the current
//! rank.  An unrecognized skill is a classification error, never a silent
//! default.

use vstd::prelude::*;
use crate::types::{Error, MAX_NEED, MAX_RANK, SCALE};

verus! {

/// Hours of training in a week, whole hours.
pub const HOURS_PER_WEEK: i64 = 48;

/// Weeks in a month.
pub const WEEKS_PER_MONTH: i64 = 4;

/// The three skill categories, each with its own training-cost rate.
#[derive(Clone, Copy, Debug, PartialEq, Eq, Structural)]
pub enum Category {
    Attribute,
    Ability,
    Psionic,
}

/// The skill is one of the attributes.
pub open spec fn is_attribute(s: Seq<char>) -> bool {
    ||| s == "Strength"@
    ||| s == "Dexterity"@
    ||| s == "Stamina"@
    ||| s == "Charisma"@
    ||| s == "Manipulation"@
    ||| s == "Appearance"@
    ||| s == "Perception"@
    ||| s == "Intelligence"@
    ||| s == "Wits"@
}

/// The skill is one of the abilities.
pub open spec fn is_ability(s: Seq<char>) -> bool {
    ||| s == "Archery"@
    ||| s == "Athletics"@
    ||| s == "Awareness"@
    ||| s == "Brawl"@
    ||| s == "Bureaucracy"@
    ||| s == "Craft"@
    ||| s == "Dodge"@
    ||| s == "Integrity"@
    ||| s == "Investigation"@
    ||| s == "Larceny"@
    ||| s == "Linguistics"@
    ||| s == "Lore"@
    ||| s == "Martial Arts"@
    ||| s == "Medicine"@
    ||| s == "Melee"@
    ||| s == "Occult"@
    ||| s == "Performance"@
    ||| s == "Presence"@
    ||| s == "Resistance"@
    ||| s == "Ride"@
    ||| s == "Sail"@
    ||| s == "Socialize"@
    ||| s == "Stealth"@
    ||| s == "Survival"@
    ||| s == "Thrown"@
    ||| s == "War"@
    ||| s == "Firearms"@
    ||| s == "Driving"@
}

/// The skill is one of the psionic disciplines.
pub open spec fn is_psionic(s: Seq<char>) -> bool {
    ||| s == "Dreamwalking"@
    ||| s == "Illusion"@
}

/// The category of a skill name, or `None` when it is unrecognized.
/// Attributes are checked first, then abilities, then psionics.
pub open spec fn spec_category(s: Seq<char>) -> Option<Category> {
    if is_attribute(s) {
        Some(Category::Attribute)
    } else if is_ability(s) {
        Some(Category::Ability)
    } else if is_psionic(s) {
        Some(Category::Psionic)
    } else {
        None
    }
}

/// Effective training hours (thousandths) needed to advance one rank for a
/// skill of category `c` at current rank `rank` (thousandths of a rank).
/// Let `r` be the whole part of the rank: at `r <= 0` the cost is the
/// category's fixed first-rank cost, otherwise it scales linearly with `r`.
pub open spec fn spec_hours_needed(c: Category, rank: int) -> int {
    let r = rank / (SCALE as int);
    if r <= 0 {
        match c {
            Category::Attribute => 3 * HOURS_PER_WEEK * WEEKS_PER_MONTH * SCALE,
            Category::Ability => 3 * HOURS_PER_WEEK * SCALE,
            Category::Psionic => 2 * HOURS_PER_WEEK * SCALE,
        }
    } else {
        match c {
            Category::Attribute => r * HOURS_PER_WEEK * WEEKS_PER_MONTH * SCALE,
            Category::Ability => r * HOURS_PER_WEEK * SCALE,
            Category::Psionic => r * HOURS_PER_WEEK * SCALE,
        }
    }
}

/// String equality against a literal.
fn eq_lit(s: &String, lit: &str) -> (r: bool)
    ensures
        r == (s@ == lit@),
{
    let owned: String = lit.to_owned();
    *s == owned
}

/// Membership in the attribute list.
fn check_attribute(s: &String) -> (r: bool)
    ensures
        r == is_attribute(s@),
{
    eq_lit(s, "Strength") || eq_lit(s, "Dexterity") || eq_lit(s, "Stamina")
        || eq_lit(s, "Charisma") || eq_lit(s, "Manipulation") || eq_lit(s, "Appearance")
        || eq_lit(s, "Perception") || eq_lit(s, "Intelligence") || eq_lit(s, "Wits")
}

/// Membership in the ability list.
fn check_ability(s: &String) -> (r: bool)
    ensures
        r == is_ability(s@),
{
    eq_lit(s, "Archery") || eq_lit(s, "Athletics") || eq_lit(s, "Awareness")
        || eq_lit(s, "Brawl") || eq_lit(s, "Bureaucracy") || eq_lit(s, "Craft")
        || eq_lit(s, "Dodge") || eq_lit(s, "Integrity") || eq_lit(s, "Investigation")
        || eq_lit(s, "Larceny") || eq_lit(s, "Linguistics") || eq_lit(s, "Lore")
        || eq_lit(s, "Martial Arts") || eq_lit(s, "Medicine") || eq_lit(s, "Melee")
        || eq_lit(s, "Occult") || eq_lit(s, "Performance") || eq_lit(s, "Presence")
        || eq_lit(s, "Resistance") || eq_lit(s, "Ride") || eq_lit(s, "Sail")
        || eq_lit(s, "Socialize") || eq_lit(s, "Stealth") || eq_lit(s, "Survival")
        || eq_lit(s, "Thrown") || eq_lit(s, "War") || eq_lit(s, "Firearms")
        || eq_lit(s, "Driving")
}

/// Membership in the psionic list.
fn check_psionic(s: &String) -> (r: bool)
    ensures
        r == is_psionic(s@),
{
    eq_lit(s, "Dreamwalking") || eq_lit(s, "Illusion")
}

/// The category of a skill, or a classification error when the name is
/// unrecognized.
pub fn category(skill: &String) -> (r: Result<Category, Error>)
    ensures
        match spec_category(skill@) {
            Some(c) => r == Ok::<Category, Error>(c),
            None => r == Err::<Category, Error>(Error::ClassificationError),
        },
{
    if check_attribute(skill) {
        Ok(Category::Attribute)
    } else if check_ability(skill) {
        Ok(Category::Ability)
    } else if check_psionic(skill) {
        Ok(Category::Psionic)
    } else {
        Err(Error::ClassificationError)
    }
}

/// Effective training hours (thousandths) needed to advance one rank,
/// given the skill's current rank (thousandths).  Exactly
/// `spec_hours_needed` for the skill's category; a classification error
/// for an unrecognized skill.
pub fn effective_training_hours_needed(skill: &String, current_rank: i64) -> (r: Result<
    i64,
    Error,
>)
    requires
        0 <= current_rank <= MAX_RANK,
    ensures
        match spec_category(skill@) {
            Some(c) => r matches Ok(h) && h == spec_hours_needed(c, current_rank as int),
            None => r == Err::<i64, Error>(Error::ClassificationError),
        },
        r matches Ok(h) ==> 0 < h <= MAX_NEED,
{
    let cat = match category(skill) {
        Ok(c) => c,
        Err(e) => {
            return Err(e);
        },
    };
    let r: i64 = current_rank / SCALE;
    assert(0 <= r <= MAX_RANK / SCALE);
    let hours: i64 = if r <= 0 {
        match cat {
            Category::Attribute => 3 * HOURS_PER_WEEK * WEEKS_PER_MONTH * SCALE,
            Category::Ability => 3 * HOURS_PER_WEEK * SCALE,
            Category::Psionic => 2 * HOURS_PER_WEEK * SCALE,
        }
    } else {
        match cat {
            Category::Attribute => r * 192_000,
            Category::Ability => r * 48_000,
            Category::Psionic => r * 48_000,
        }
    };
    assert(HOURS_PER_WEEK * WEEKS_PER_MONTH * SCALE == 192_000);
    assert(HOURS_PER_WEEK * SCALE == 48_000);
    Ok(hours)
}

} // verus!
