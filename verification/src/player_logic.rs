//! Player decisions that do not depend on positions: the push intent that a
//! held direction builds up, the push that it leads to, the jump counter
//! that drives vertical motion, and the player's animation state.
use vstd::prelude::*;

verus! {

/// Where a held push direction stands.
#[derive(Debug, Clone, Copy, PartialEq, Eq, Structural)]
pub enum PushIntentProgress {
    /// The direction is new; the resistance countdown starts.
    DirectionChanged,
    /// The direction is held, the countdown is still running.
    Waiting,
    /// The direction has been held long enough to push.
    Ready,
}

/// One frame of push intent: `(direction, timer, progress)` after holding
/// `dir_sign` with `(current_dir, current_timer)` before.
pub open spec fn push_intent_step(
    current_dir: i32,
    current_timer: i32,
    dir_sign: i32,
    resist_frames: i32,
) -> (i32, i32, PushIntentProgress) {
    if current_dir != dir_sign {
        (dir_sign, if resist_frames > 0 { resist_frames } else { 0 }, PushIntentProgress::DirectionChanged)
    } else if current_timer > 0 {
        (dir_sign, (current_timer - 1) as i32, PushIntentProgress::Waiting)
    } else {
        (dir_sign, 0, PushIntentProgress::Ready)
    }
}

/// Advances the push intent by one frame in which `dir_sign` is held.
pub fn update_push_intent(current_dir: i32, current_timer: i32, dir_sign: i32, resist_frames: i32) -> (next: (
    i32,
    i32,
    PushIntentProgress,
))
    ensures
        next == push_intent_step(current_dir, current_timer, dir_sign, resist_frames),
{
    if current_dir != dir_sign {
        let timer = if resist_frames > 0 {
            resist_frames
        } else {
            0
        };
        return (dir_sign, timer, PushIntentProgress::DirectionChanged);
    }
    if current_timer > 0 {
        return (dir_sign, current_timer - 1, PushIntentProgress::Waiting);
    }
    (dir_sign, 0, PushIntentProgress::Ready)
}

/// The push intent after holding `dir_sign` for `frames` frames (at least
/// one) from `(current_dir, current_timer)`.
pub open spec fn hold_direction(
    current_dir: i32,
    current_timer: i32,
    dir_sign: i32,
    resist_frames: i32,
    frames: nat,
) -> (i32, i32, PushIntentProgress)
    decreases frames,
{
    let next = push_intent_step(current_dir, current_timer, dir_sign, resist_frames);
    if frames <= 1 {
        next
    } else {
        hold_direction(next.0, next.1, dir_sign, resist_frames, (frames - 1) as nat)
    }
}

/// Holding the same direction counts the timer down one frame at a time and
/// is ready on the frame after it reaches zero.
pub proof fn law_countdown_then_ready(dir_sign: i32, timer: i32, resist_frames: i32, frames: nat)
    requires
        timer >= 0,
        1 <= frames <= timer + 1,
    ensures
        frames <= timer ==> hold_direction(dir_sign, timer, dir_sign, resist_frames, frames) == (
            dir_sign,
            (timer - frames) as i32,
            PushIntentProgress::Waiting,
        ),
        frames == timer + 1 ==> hold_direction(dir_sign, timer, dir_sign, resist_frames, frames)
            == (dir_sign, 0i32, PushIntentProgress::Ready),
    decreases frames,
{
    if frames > 1 {
        law_countdown_then_ready(dir_sign, (timer - 1) as i32, resist_frames, (frames - 1) as nat);
    }
}

/// After a change of direction, a push is ready only once the direction has
/// been held for `resist_frames` more frames: the frame of the change, then
/// `resist_frames` waiting frames, then the ready frame.
pub proof fn law_push_needs_resistance(
    current_dir: i32,
    current_timer: i32,
    dir_sign: i32,
    resist_frames: i32,
    frames: nat,
)
    requires
        current_dir != dir_sign,
        resist_frames >= 0,
        1 <= frames <= resist_frames + 2,
    ensures
        frames == 1 ==> hold_direction(current_dir, current_timer, dir_sign, resist_frames, frames).2
            == PushIntentProgress::DirectionChanged,
        2 <= frames <= resist_frames + 1 ==> hold_direction(
            current_dir,
            current_timer,
            dir_sign,
            resist_frames,
            frames,
        ).2 == PushIntentProgress::Waiting,
        frames == resist_frames + 2 ==> hold_direction(
            current_dir,
            current_timer,
            dir_sign,
            resist_frames,
            frames,
        ).2 == PushIntentProgress::Ready,
{
    if frames > 1 {
        law_countdown_then_ready(dir_sign, resist_frames, resist_frames, (frames - 1) as nat);
    }
}

/// The push bookkeeping that a player carries from frame to frame: the held
/// direction, the frames it still has to be held, the frames until the next
/// push is allowed.
#[derive(Debug, Clone, Copy, PartialEq, Eq, Structural)]
pub struct PushState {
    pub intent_dir: i32,
    pub intent_timer: i32,
    pub cooldown: i32,
}

/// `state` with the push intent cleared.
pub open spec fn without_intent(state: PushState) -> PushState {
    PushState { intent_dir: 0, intent_timer: 0, cooldown: state.cooldown }
}

/// One frame of a push attempt: the direction held (`None` without one),
/// whether the player stands on something, whether a row of crates that can
/// move lies ahead. The intent is cleared without a direction, during the
/// cooldown, in the air, or when nothing can be pushed; a push happens when
/// the intent is ready, and starts the cooldown.
pub open spec fn push_frame_spec(
    state: PushState,
    dir: Option<i32>,
    on_floor: bool,
    chain_found: bool,
    resist_frames: i32,
    cooldown_frames: i32,
) -> (PushState, bool) {
    match dir {
        None => (without_intent(state), false),
        Some(d) => if state.cooldown > 0 || !on_floor {
            (without_intent(state), false)
        } else {
            let (next_dir, next_timer, progress) = push_intent_step(
                state.intent_dir,
                state.intent_timer,
                d,
                resist_frames,
            );
            let advanced = PushState {
                intent_dir: next_dir,
                intent_timer: next_timer,
                cooldown: state.cooldown,
            };
            match progress {
                PushIntentProgress::DirectionChanged => (advanced, false),
                PushIntentProgress::Waiting => if chain_found {
                    (advanced, false)
                } else {
                    (without_intent(state), false)
                },
                PushIntentProgress::Ready => if chain_found {
                    (PushState { intent_dir: 0, intent_timer: 0, cooldown: cooldown_frames }, true)
                } else {
                    (without_intent(state), false)
                },
            }
        },
    }
}

/// Decides one frame of a push attempt; returns the next state and whether
/// the crates ahead are pushed this frame.
pub fn push_frame(
    state: PushState,
    dir: Option<i32>,
    on_floor: bool,
    chain_found: bool,
    resist_frames: i32,
    cooldown_frames: i32,
) -> (next: (PushState, bool))
    ensures
        next == push_frame_spec(state, dir, on_floor, chain_found, resist_frames, cooldown_frames),
{
    let cleared = PushState { intent_dir: 0, intent_timer: 0, cooldown: state.cooldown };
    let d = match dir {
        None => {
            return (cleared, false);
        },
        Some(d) => d,
    };
    if state.cooldown > 0 || !on_floor {
        return (cleared, false);
    }
    let (next_dir, next_timer, progress) = update_push_intent(
        state.intent_dir,
        state.intent_timer,
        d,
        resist_frames,
    );
    let advanced = PushState { intent_dir: next_dir, intent_timer: next_timer, cooldown: state.cooldown };
    match progress {
        PushIntentProgress::DirectionChanged => (advanced, false),
        PushIntentProgress::Waiting => {
            if chain_found {
                (advanced, false)
            } else {
                (cleared, false)
            }
        },
        PushIntentProgress::Ready => {
            if chain_found {
                (PushState { intent_dir: 0, intent_timer: 0, cooldown: cooldown_frames }, true)
            } else {
                (cleared, false)
            }
        },
    }
}

/// A push happens only with a direction held since an earlier frame whose
/// countdown has run out, outside the cooldown, on the floor, with crates
/// that can move ahead; it clears the intent and starts the cooldown.
pub proof fn law_push_needs_ready_intent(
    state: PushState,
    dir: Option<i32>,
    on_floor: bool,
    chain_found: bool,
    resist_frames: i32,
    cooldown_frames: i32,
)
    ensures
        ({
            let (next, pushed) = push_frame_spec(
                state,
                dir,
                on_floor,
                chain_found,
                resist_frames,
                cooldown_frames,
            );
            pushed ==> {
                &&& dir == Some(state.intent_dir)
                &&& state.intent_timer <= 0
                &&& state.cooldown <= 0
                &&& on_floor
                &&& chain_found
                &&& next == PushState { intent_dir: 0, intent_timer: 0, cooldown: cooldown_frames }
            }
        }),
{
}

/// A ready push is made in either direction: with the direction held since
/// an earlier frame, its countdown run out, no cooldown, on the floor and
/// with crates that can move ahead, the frame pushes, clears the intent and
/// starts the cooldown.
pub proof fn law_ready_intent_pushes(
    state: PushState,
    dir_sign: i32,
    resist_frames: i32,
    cooldown_frames: i32,
)
    requires
        state.intent_dir == dir_sign,
        state.intent_timer <= 0,
        state.cooldown <= 0,
    ensures
        push_frame_spec(state, Some(dir_sign), true, true, resist_frames, cooldown_frames) == (
            PushState { intent_dir: 0, intent_timer: 0, cooldown: cooldown_frames },
            true,
        ),
{
}

/// While the cooldown runs no push happens, and the cooldown itself is left
/// to count down elsewhere.
pub proof fn law_no_push_during_cooldown(
    state: PushState,
    dir: Option<i32>,
    on_floor: bool,
    chain_found: bool,
    resist_frames: i32,
    cooldown_frames: i32,
)
    requires
        state.cooldown > 0,
    ensures
        push_frame_spec(state, dir, on_floor, chain_found, resist_frames, cooldown_frames) == (
            without_intent(state),
            false,
        ),
{
}

/// The position `i` cells along a row from `x0`, each cell `step` apart.
pub open spec fn row_x(x0: int, step: int, i: nat) -> int
    decreases i,
{
    if i == 0 {
        x0
    } else {
        row_x(x0, step, (i - 1) as nat) + step
    }
}

/// A crate occupies the cell keyed `(x, y)`; keys are `i32`.
pub open spec fn occupies(occupied: Seq<(i32, i32)>, x: int, y: i32) -> bool {
    i32::MIN <= x <= i32::MAX && occupied.contains((x as i32, y))
}

/// `length` crates stand in a row from `first`, one `step` apart, and the
/// cell after them is free.
pub open spec fn is_chain_length(first: (i32, i32), step: i32, occupied: Seq<(i32, i32)>, length: nat) -> bool {
    &&& forall|i: nat| i < length ==> occupies(occupied, #[trigger] row_x(first.0 as int, step as int, i), first.1)
    &&& !occupies(occupied, row_x(first.0 as int, step as int, length), first.1)
}

/// Whether `occupied` holds `cell`.
fn holds_cell(occupied: &Vec<(i32, i32)>, cell: (i32, i32)) -> (held: bool)
    ensures
        held == occupied@.contains(cell),
{
    let mut i: usize = 0;
    while i < occupied.len()
        invariant
            i <= occupied@.len(),
            forall|j: int| 0 <= j < i ==> occupied@[j] != cell,
        decreases occupied@.len() - i,
    {
        let other = occupied[i];
        if other.0 == cell.0 && other.1 == cell.1 {
            assert(occupied@[i as int] == cell);
            return true;
        }
        i = i + 1;
    }
    false
}

/// The number of crates in the row that a push moves: the crates standing
/// one after another from the cell `first`, each `step` further along its
/// row, among the occupied cells (cell keys; a cell beyond the `i32` range
/// counts as free).
pub fn push_chain_length(first: (i32, i32), step: i32, occupied: &Vec<(i32, i32)>) -> (length: u64)
    requires
        step != 0,
    ensures
        is_chain_length(first, step, occupied@, length as nat),
{
    let mut x: i64 = first.0 as i64;
    let mut k: u64 = 0;
    loop
        invariant
            step != 0,
            x == row_x(first.0 as int, step as int, k as nat),
            step > 0 ==> x >= first.0 + k,
            step < 0 ==> x <= first.0 - k,
            i32::MIN - 0x1_0000_0000 <= x <= i32::MAX + 0x1_0000_0000,
            forall|i: nat| i < k ==> occupies(occupied@, #[trigger] row_x(first.0 as int, step as int, i), first.1),
        decreases
            if i32::MIN <= x <= i32::MAX {
                if step > 0 {
                    i32::MAX - x + 1
                } else {
                    x - i32::MIN + 1
                }
            } else {
                0
            },
    {
        let inside = i32::MIN as i64 <= x && x <= i32::MAX as i64;
        if !inside || !holds_cell(occupied, (x as i32, first.1)) {
            return k;
        }
        proof {
            assert forall|i: nat| i < k + 1 implies occupies(
                occupied@,
                #[trigger] row_x(first.0 as int, step as int, i),
                first.1,
            ) by {
                if i == k {
                    assert(row_x(first.0 as int, step as int, i) == x);
                }
            }
            assert(row_x(first.0 as int, step as int, (k + 1) as nat) == x + step);
        }
        x = x + step as i64;
        k = k + 1;
    }
}

/// The push cooldown after one frame: it counts down to zero.
pub fn cooldown_after_frame(cooldown: i32) -> (next: i32)
    ensures
        next == if cooldown > 0 {
            cooldown - 1
        } else {
            cooldown as int
        },
{
    if cooldown > 0 {
        cooldown - 1
    } else {
        cooldown
    }
}

/// A jump starts when input is on, jump was just pressed, no jump is under
/// way and the player stands on something.
pub fn jump_starts(input_enabled: bool, jump_pressed: bool, counter: i32, on_floor: bool) -> (starts: bool)
    ensures
        starts == (input_enabled && jump_pressed && counter == 0 && on_floor),
{
    input_enabled && jump_pressed && counter == 0 && on_floor
}

/// The jump counter after its frame tick, and whether the player steps up.
pub open spec fn jump_tick_spec(counter: i32, threshold: i32) -> (i32, bool) {
    let next: i32 = if counter > 0 { (counter - 1) as i32 } else { counter };
    (next, counter > 0 && next > threshold)
}

/// The first part of a frame of vertical motion: a running jump counts
/// down, and the player steps up while the counter stays above the ascend
/// threshold.
pub fn jump_tick(counter: i32, threshold: i32) -> (tick: (i32, bool))
    ensures
        tick == jump_tick_spec(counter, threshold),
{
    if counter > 0 {
        let next = counter - 1;
        (next, next > threshold)
    } else {
        (counter, false)
    }
}

/// The counter after the ceiling probe: a ceiling ends the rise.
pub open spec fn after_ceiling_spec(counter: i32, blocked: bool, threshold: i32) -> i32 {
    if counter > threshold && blocked {
        threshold
    } else {
        counter
    }
}

/// The counter once the ceiling above the player is known (`blocked`):
/// a blocked rise ends at the ascend threshold.
pub fn after_ceiling_probe(counter: i32, blocked: bool, threshold: i32) -> (next: i32)
    ensures
        next == after_ceiling_spec(counter, blocked, threshold),
{
    if counter > threshold && blocked {
        threshold
    } else {
        counter
    }
}

/// The counter after the floor probe, and whether the player steps down.
pub open spec fn after_floor_spec(counter: i32, on_floor: bool, threshold: i32) -> (i32, bool) {
    if !on_floor && counter < threshold {
        (1, true)
    } else {
        (counter, false)
    }
}

/// The counter once the floor below the player is known: without floor and
/// past the rise, the player falls one step and the counter holds at one.
pub fn after_floor_probe(counter: i32, on_floor: bool, threshold: i32) -> (next: (i32, bool))
    ensures
        next == after_floor_spec(counter, on_floor, threshold),
{
    if !on_floor && counter < threshold {
        (1, true)
    } else {
        (counter, false)
    }
}

/// The counter after the landing probe, and whether the player is snapped
/// to the grid.
pub open spec fn after_landing_spec(counter: i32, on_floor: bool) -> (i32, bool) {
    if on_floor {
        (if counter > 0 { 0 } else { counter }, true)
    } else {
        (counter, false)
    }
}

/// The counter once it is known whether the player has landed: on the
/// floor the jump ends and the player is snapped to the grid.
pub fn after_landing_probe(counter: i32, on_floor: bool) -> (next: (i32, bool))
    ensures
        next == after_landing_spec(counter, on_floor),
{
    if on_floor {
        (if counter > 0 {
            0
        } else {
            counter
        }, true)
    } else {
        (counter, false)
    }
}

/// One frame of vertical motion in open air (no ceiling, no floor): the
/// counter after it, whether the player stepped up, whether it stepped down.
pub open spec fn airborne_frame(counter: i32, threshold: i32) -> (i32, bool, bool) {
    let (ticked, up) = jump_tick_spec(counter, threshold);
    let unblocked = after_ceiling_spec(ticked, false, threshold);
    let (fallen, down) = after_floor_spec(unblocked, false, threshold);
    let (landed, _) = after_landing_spec(fallen, false);
    (landed, up, down)
}

/// The counter after `frames` frames in open air.
pub open spec fn airborne_after(counter: i32, threshold: i32, frames: nat) -> i32
    decreases frames,
{
    if frames == 0 {
        counter
    } else {
        airborne_frame(airborne_after(counter, threshold, (frames - 1) as nat), threshold).0
    }
}

proof fn lemma_airborne_counter(start: i32, threshold: i32, frames: nat)
    requires
        1 <= threshold < start,
    ensures
        airborne_after(start, threshold, frames) == if frames <= start - threshold {
            start - frames
        } else {
            1
        },
    decreases frames,
{
    if frames > 0 {
        lemma_airborne_counter(start, threshold, (frames - 1) as nat);
    }
}

/// A jump in open air: from the start value of the counter, the player steps
/// up on each of the first `start - 1 - threshold` frames, neither rises nor
/// falls on the next frame (the apex), and falls one step on every frame
/// after that until it lands.
pub proof fn law_jump_rises_then_falls(start: i32, threshold: i32, frame: nat)
    requires
        1 <= threshold < start,
    ensures
        ({
            let (_, up, down) = airborne_frame(airborne_after(start, threshold, frame), threshold);
            &&& frame < start - 1 - threshold ==> up && !down
            &&& frame == start - 1 - threshold ==> !up && !down
            &&& frame > start - 1 - threshold ==> !up && down
        }),
{
    lemma_airborne_counter(start, threshold, frame);
}

/// A ceiling ends the rise at once: after a blocked ceiling probe during
/// the rise, the next frame no longer steps up.
pub proof fn law_ceiling_ends_rise(counter: i32, threshold: i32)
    requires
        counter > threshold,
    ensures
        !jump_tick_spec(after_ceiling_spec(counter, true, threshold), threshold).1,
{
}

/// The player's animation state.
#[derive(Debug, Clone, Copy, PartialEq, Eq, Structural)]
pub enum PlayerState {
    Idle,
    Move,
    Jump,
}

/// The animation that a player template plays in each state.
pub fn animation_name_for_state(state: PlayerState) -> (name: &'static str)
    ensures
        state == PlayerState::Idle ==> name@ == "idle"@,
        state == PlayerState::Move ==> name@ == "move"@,
        state == PlayerState::Jump ==> name@ == "jump"@,
{
    match state {
        PlayerState::Idle => "idle",
        PlayerState::Move => "move",
        PlayerState::Jump => "jump",
    }
}

/// The state after a physics frame: jumping while the jump counter runs or
/// without floor support, else moving if the player moved sideways, else idle.
pub fn state_after_frame(jump_counter: i32, has_floor_support: bool, moved_horizontally: bool) -> (state: PlayerState)
    ensures
        state == if jump_counter > 0 || !has_floor_support {
            PlayerState::Jump
        } else if moved_horizontally {
            PlayerState::Move
        } else {
            PlayerState::Idle
        },
{
    if jump_counter > 0 || !has_floor_support {
        return PlayerState::Jump;
    }
    if moved_horizontally {
        PlayerState::Move
    } else {
        PlayerState::Idle
    }
}

/// A jump is active while its counter runs or the player is in the air.
pub fn is_jump_active(jump_counter: i32, state: PlayerState) -> (active: bool)
    ensures
        active == (jump_counter > 0 || state == PlayerState::Jump),
{
    jump_counter > 0 || state == PlayerState::Jump
}

/// The facing that a requested value sets: left for negative values, right
/// otherwise.
pub fn facing_from(requested: i64) -> (facing: i32)
    ensures
        facing == if requested < 0 {
            -1i32
        } else {
            1i32
        },
{
    if requested < 0 {
        -1
    } else {
        1
    }
}

} // verus!
