//! A bounded history of snapshots for undo: near-duplicates of the latest
//! entry are not recorded, the oldest entries fall off beyond the capacity,
//! and undo steps back to the entry before the latest; restoring a snapshot
//! matches its entries to the scene's crates by name.
use vstd::prelude::*;
use crate::lines::views;
use crate::text::text_eq;

verus! {

/// The capacity actually used: at least one entry is always kept.
pub open spec fn effective_cap(max_len: usize) -> nat {
    if max_len == 0 {
        1
    } else {
        max_len as nat
    }
}

/// `history` with its oldest entries dropped until at most `max_len`
/// (at least one) remain.
pub open spec fn keep_newest<T>(history: Seq<T>, max_len: usize) -> Seq<T> {
    if history.len() > effective_cap(max_len) {
        history.skip(history.len() - effective_cap(max_len))
    } else {
        history
    }
}

/// Records `snapshot` as the newest entry of `history`, unless `is_close`
/// says that it is close to the current newest entry; then keeps only the
/// `max_len` newest entries (at least one).
pub fn push_dedup_with_cap<T, F>(history: &mut Vec<T>, snapshot: T, max_len: usize, is_close: F)
    where
        F: Fn(&T, &T) -> bool,
    requires
        old(history)@.len() > 0 ==> is_close.requires((&old(history)@.last(), &snapshot)),
    ensures
        ({
            let before = old(history)@;
            let after = final(history)@;
            ||| {
                &&& before.len() > 0
                &&& is_close.ensures((&before.last(), &snapshot), true)
                &&& after == before
            }
            ||| {
                &&& (before.len() == 0 || is_close.ensures((&before.last(), &snapshot), false))
                &&& after == keep_newest(before.push(snapshot), max_len)
            }
        }),
{
    let len = history.len();
    if len > 0 {
        let close = is_close(&history[len - 1], &snapshot);
        if close {
            return;
        }
    }
    history.push(snapshot);
    let max: usize = if max_len == 0 {
        1
    } else {
        max_len
    };
    if history.len() > max {
        let overflow = history.len() - max;
        let kept = history.split_off(overflow);
        *history = kept;
    }
}

/// Undo: drops the newest entry and returns (a clone of) the one before it,
/// which stays in the history; with fewer than two entries nothing changes.
pub fn pop_previous<T: Clone>(history: &mut Vec<T>) -> (previous: Option<T>)
    ensures
        old(history)@.len() < 2 ==> previous is None && final(history)@ == old(history)@,
        old(history)@.len() >= 2 ==> {
            &&& final(history)@ == old(history)@.drop_last()
            &&& previous matches Some(p) && cloned(final(history)@.last(), p)
        },
{
    if history.len() < 2 {
        return None;
    }
    history.pop();
    let last = history.len() - 1;
    Some(history[last].clone())
}

/// Pushing a snapshot that is not close to the newest entry and then
/// undoing gives back the entry that was newest before the push, provided
/// the capacity holds at least two entries.
pub proof fn law_push_then_undo<T>(before: Seq<T>, snapshot: T, max_len: usize)
    requires
        before.len() > 0,
        max_len >= 2,
        before.len() <= max_len,
    ensures
        keep_newest(before.push(snapshot), max_len).len() >= 2,
        keep_newest(before.push(snapshot), max_len).drop_last().last() == before.last(),
{
    let pushed = before.push(snapshot);
    let kept = keep_newest(pushed, max_len);
    if pushed.len() > effective_cap(max_len) {
        assert(kept.drop_last().last() == pushed[pushed.len() - 2]);
    }
}

/// The history never holds more entries than its capacity (at least one)
/// once a snapshot has been recorded, and the newest entry is the snapshot.
pub proof fn law_capacity_respected<T>(before: Seq<T>, snapshot: T, max_len: usize)
    ensures
        keep_newest(before.push(snapshot), max_len).len() <= effective_cap(max_len),
        keep_newest(before.push(snapshot), max_len).len() > 0,
        keep_newest(before.push(snapshot), max_len).last() == snapshot,
{
}


/// What restoring a snapshot does to one crate of the scene.
#[derive(Debug, Clone, Copy, PartialEq, Eq, Structural)]
pub enum RestoreAction {
    /// A later crate has the same name and takes its place: this one is
    /// left as it is.
    Untouched,
    /// The crate takes the position and velocity of this snapshot entry.
    Restore(usize),
    /// The snapshot does not know the crate: it is stopped.
    Stop,
}

/// Whether a crate later in the scene has the name of crate `i`.
pub open spec fn named_again_later(scene: Seq<Seq<char>>, i: int) -> bool {
    exists|k: int| i < k < scene.len() && scene[k] == scene[i]
}

/// The action for crate `i` of the scene (crate names in scene order)
/// when the snapshot holds entries named `snapshot`: a crate whose name
/// comes again later is untouched; else the first entry of its name is
/// restored; else it is stopped.
pub open spec fn is_restore_action(
    scene: Seq<Seq<char>>,
    snapshot: Seq<Seq<char>>,
    i: int,
    action: RestoreAction,
) -> bool {
    match action {
        RestoreAction::Untouched => named_again_later(scene, i),
        RestoreAction::Restore(j) => !named_again_later(scene, i) && j < snapshot.len()
            && snapshot[j as int] == scene[i] && forall|m: int|
            0 <= m < j ==> snapshot[m] != scene[i],
        RestoreAction::Stop => !named_again_later(scene, i) && !snapshot.contains(scene[i]),
    }
}

/// For each crate of the scene, in order, what restoring a snapshot with
/// entries named `snapshot_names` does to it.
pub fn snapshot_restore_plan(scene_names: &Vec<String>, snapshot_names: &Vec<String>) -> (plan: Vec<RestoreAction>)
    ensures
        plan@.len() == scene_names@.len(),
        forall|i: int| 0 <= i < plan@.len() ==> is_restore_action(
            views(scene_names@),
            views(snapshot_names@),
            i,
            #[trigger] plan@[i],
        ),
{
    let ghost scene = views(scene_names@);
    let ghost snapshot = views(snapshot_names@);
    let n = scene_names.len();
    let m = snapshot_names.len();
    let mut plan: Vec<RestoreAction> = Vec::new();
    let mut i: usize = 0;
    while i < n
        invariant
            n == scene_names@.len(),
            m == snapshot_names@.len(),
            scene == views(scene_names@),
            snapshot == views(snapshot_names@),
            i <= n,
            plan@.len() == i,
            forall|c: int| 0 <= c < i ==> is_restore_action(scene, snapshot, c, #[trigger] plan@[c]),
        decreases n - i,
    {
        let name = scene_names[i].as_str();
        let mut k: usize = i + 1;
        let mut again = false;
        while k < n && !again
            invariant
                n == scene_names@.len(),
                scene == views(scene_names@),
                i < n,
                name@ == scene[i as int],
                i + 1 <= k <= n,
                again ==> named_again_later(scene, i as int),
                !again ==> forall|c: int| i < c < k ==> scene[c] != scene[i as int],
            decreases n - k + if again { 0int } else { 1int },
        {
            if text_eq(scene_names[k].as_str(), name) {
                assert(scene[k as int] == scene_names@[k as int]@);
                again = true;
            } else {
                assert(scene[k as int] == scene_names@[k as int]@);
                k = k + 1;
            }
        }
        let action = if again {
            RestoreAction::Untouched
        } else {
            let mut j: usize = 0;
            let mut found = false;
            while j < m && !found
                invariant
                    m == snapshot_names@.len(),
                    snapshot == views(snapshot_names@),
                    name@ == scene[i as int],
                    j <= m,
                    found ==> j < m && snapshot[j as int] == scene[i as int],
                    forall|c: int| 0 <= c < j ==> snapshot[c] != scene[i as int],
                decreases m - j + if found { 0int } else { 1int },
            {
                assert(snapshot[j as int] == snapshot_names@[j as int]@);
                if text_eq(snapshot_names[j].as_str(), name) {
                    found = true;
                } else {
                    j = j + 1;
                }
            }
            if found {
                RestoreAction::Restore(j)
            } else {
                assert(!snapshot.contains(scene[i as int]));
                RestoreAction::Stop
            }
        };
        plan.push(action);
        i = i + 1;
    }
    plan
}

} // verus!
