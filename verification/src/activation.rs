//! Counting how many relevant bodies overlap a trigger area (a goal petal or
//! a bridge switch): the trigger is active while at least one is inside.
use vstd::prelude::*;

verus! {

/// What a single enter or exit event did to a trigger's activity.
#[derive(Debug, Clone, Copy, PartialEq, Eq, Structural)]
pub enum ActivationChange {
    Activated,
    Deactivated,
    Unchanged,
}

/// Counts the relevant bodies that currently overlap a trigger.
#[derive(Debug, Clone, Copy, PartialEq, Eq, Structural)]
pub struct ActivationCounter {
    active_count: u32,
}

/// The count after a body enters: relevant bodies add one, saturating at
/// the largest `u32`.
pub open spec fn count_after_enter(count: nat, relevant: bool) -> nat {
    if relevant && count < u32::MAX {
        count + 1
    } else {
        count
    }
}

/// The count after a body leaves: relevant bodies take one away, never
/// below zero.
pub open spec fn count_after_exit(count: nat, relevant: bool) -> nat {
    if relevant && count > 0 {
        (count - 1) as nat
    } else {
        count
    }
}

/// What an enter event reports: the first relevant body activates.
pub open spec fn change_on_enter(count: nat, relevant: bool) -> ActivationChange {
    if relevant && count == 0 {
        ActivationChange::Activated
    } else {
        ActivationChange::Unchanged
    }
}

/// What an exit event reports: the last relevant body leaving deactivates.
pub open spec fn change_on_exit(count: nat, relevant: bool) -> ActivationChange {
    if relevant && count == 1 {
        ActivationChange::Deactivated
    } else {
        ActivationChange::Unchanged
    }
}

impl ActivationCounter {
    /// The number of relevant bodies currently counted.
    pub closed spec fn count(self) -> nat {
        self.active_count as nat
    }

    pub fn is_active(&self) -> (active: bool)
        ensures
            active == (self.count() > 0),
    {
        self.active_count > 0
    }

    /// Registers a body entering the trigger area.
    pub fn on_enter(&mut self, relevant: bool) -> (change: ActivationChange)
        ensures
            final(self).count() == count_after_enter(old(self).count(), relevant),
            change == change_on_enter(old(self).count(), relevant),
    {
        if !relevant {
            return ActivationChange::Unchanged;
        }
        self.active_count = self.active_count.saturating_add(1);
        if self.active_count == 1 {
            ActivationChange::Activated
        } else {
            ActivationChange::Unchanged
        }
    }

    /// Registers a body leaving the trigger area.
    pub fn on_exit(&mut self, relevant: bool) -> (change: ActivationChange)
        ensures
            final(self).count() == count_after_exit(old(self).count(), relevant),
            change == change_on_exit(old(self).count(), relevant),
    {
        if !relevant {
            return ActivationChange::Unchanged;
        }
        let was_active = self.is_active();
        self.active_count = self.active_count.saturating_sub(1);
        if was_active && !self.is_active() {
            ActivationChange::Deactivated
        } else {
            ActivationChange::Unchanged
        }
    }
}

impl Default for ActivationCounter {
    /// A trigger with no body inside.
    fn default() -> (counter: Self)
        ensures
            counter.count() == 0,
    {
        ActivationCounter { active_count: 0 }
    }
}

/// An enter event reports `Activated` exactly when the trigger goes from
/// inactive to active, and `Unchanged` otherwise; it never deactivates.
pub proof fn law_enter_reports_activation(count: nat, relevant: bool)
    requires
        count <= u32::MAX,
    ensures
        (change_on_enter(count, relevant) == ActivationChange::Activated) <==> (count == 0
            && count_after_enter(count, relevant) > 0),
        change_on_enter(count, relevant) != ActivationChange::Deactivated,
        (count > 0) ==> (count_after_enter(count, relevant) > 0),
{
}

/// An exit event reports `Deactivated` exactly when the trigger goes from
/// active to inactive, and `Unchanged` otherwise; it never activates.
pub proof fn law_exit_reports_deactivation(count: nat, relevant: bool)
    ensures
        (change_on_exit(count, relevant) == ActivationChange::Deactivated) <==> (count > 0
            && count_after_exit(count, relevant) == 0),
        change_on_exit(count, relevant) != ActivationChange::Activated,
        (count == 0) ==> (count_after_exit(count, relevant) == 0),
{
}

/// A body that enters and then leaves puts the counter back where it was
/// (below the saturation point).
pub proof fn law_enter_then_exit_restores(count: nat, relevant: bool)
    requires
        count < u32::MAX,
    ensures
        count_after_exit(count_after_enter(count, relevant), relevant) == count,
{
}

/// Bodies that are not relevant never change the counter.
pub proof fn law_irrelevant_bodies_ignored(count: nat)
    ensures
        count_after_enter(count, false) == count,
        count_after_exit(count, false) == count,
        change_on_enter(count, false) == ActivationChange::Unchanged,
        change_on_exit(count, false) == ActivationChange::Unchanged,
{
}

} // verus!
