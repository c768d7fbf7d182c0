//! Decisions that the stage runtime takes from the scene: which tiles are
//! solid, which imported nodes are placeholders to remove, which stage comes
//! next, when a bridge switches and when a stage is cleared.
use vstd::prelude::*;
use crate::text::{ends_with, text_eq};

verus! {

/// The names of the input actions that the game reads.
#[derive(Debug, Clone, Copy)]
pub struct InputActions {
    pub left: &'static str,
    pub right: &'static str,
    pub jump: &'static str,
    pub restart: &'static str,
    pub undo: &'static str,
}

/// The player collides only with tiles whose rule is "solid for all".
pub fn player_rule_is_solid(rule_solid_all: i32, rule: i32) -> (solid: bool)
    ensures
        solid == (rule == rule_solid_all),
{
    rule == rule_solid_all
}

/// Crates collide with "solid for all" tiles and with "solid for crates
/// only" tiles.
pub fn crate_rule_is_solid(rule_solid_all: i32, rule_solid_box_only: i32, rule: i32) -> (solid: bool)
    ensures
        solid == (rule == rule_solid_all || rule == rule_solid_box_only),
{
    rule == rule_solid_all || rule == rule_solid_box_only
}

/// One of `identifiers` reads `identifier`.
pub open spec fn is_listed(identifiers: Seq<&str>, identifier: Seq<char>) -> bool {
    exists|i: int| 0 <= i < identifiers.len() && #[trigger] identifiers[i]@ == identifier
}

/// `identifier` is one of `identifiers`.
pub fn is_placeholder_identifier(identifiers: &[&str], identifier: &str) -> (found: bool)
    ensures
        found == is_listed(identifiers@, identifier@),
{
    let n = identifiers.len();
    let mut i: usize = 0;
    while i < n
        invariant
            n == identifiers@.len(),
            i <= n,
            forall|j: int| 0 <= j < i ==> #[trigger] identifiers@[j]@ != identifier@,
        decreases n - i,
    {
        if text_eq(identifiers[i], identifier) {
            return true;
        }
        i = i + 1;
    }
    false
}

/// An imported entity node is a placeholder to remove when its identifier
/// names a placeholder or its script is the generic entity script of the
/// importer.
pub fn is_entity_placeholder(
    identifiers: &[&str],
    identifier: &str,
    script_path: Option<&str>,
    placeholder_script_suffix: &str,
) -> (remove: bool)
    ensures
        remove == (is_listed(identifiers@, identifier@) || (script_path matches Some(path)
            && crate::text::has_suffix(path@, placeholder_script_suffix@))),
{
    if is_placeholder_identifier(identifiers, identifier) {
        return true;
    }
    match script_path {
        Some(path) => ends_with(path, placeholder_script_suffix),
        None => false,
    }
}

/// A stage index can be loaded when it names one of the `total` stages.
pub fn stage_index_is_valid(index: i64, total: usize) -> (valid: bool)
    ensures
        valid == (0 <= index < total),
{
    if total == 0 || index < 0 {
        return false;
    }
    (index as u64 as u128) < (total as u128)
}

/// The stage after `stage_index`, wrapping around after the last; none
/// without stages.
pub fn next_stage_index(stage_index: i32, total: usize) -> (next: Option<usize>)
    requires
        stage_index < i32::MAX,
    ensures
        total == 0 ==> next is None,
        total > 0 ==> next == Some((((stage_index + 1) as i32) as usize) % total),
{
    if total == 0 {
        return None;
    }
    let following = (stage_index + 1) as usize;
    Some(following % total)
}

/// The number that players see for a stage: its index plus one.
pub fn stage_number(stage_index: i32) -> (number: i64)
    ensures
        number == stage_index + 1,
{
    stage_index as i64 + 1
}

/// The bridge is up while any switch is pressed.
pub fn any_switch_active(switches: &[bool]) -> (active: bool)
    ensures
        active == exists|i: int| 0 <= i < switches@.len() && #[trigger] switches@[i],
{
    let n = switches.len();
    let mut i: usize = 0;
    while i < n
        invariant
            n == switches@.len(),
            i <= n,
            forall|j: int| 0 <= j < i ==> !(#[trigger] switches@[j]),
        decreases n - i,
    {
        if switches[i] {
            return true;
        }
        i = i + 1;
    }
    false
}

/// A stage is cleared when it has goals and every one of them is active.
pub fn all_goals_active(goals: &[bool]) -> (cleared: bool)
    ensures
        cleared == (goals@.len() > 0 && forall|i: int| 0 <= i < goals@.len() ==> #[trigger] goals@[i]),
{
    let n = goals.len();
    if n == 0 {
        return false;
    }
    let mut i: usize = 0;
    while i < n
        invariant
            n == goals@.len(),
            i <= n,
            forall|j: int| 0 <= j < i ==> #[trigger] goals@[j],
        decreases n - i,
    {
        if !goals[i] {
            return false;
        }
        i = i + 1;
    }
    true
}

} // verus!
