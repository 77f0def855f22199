//! What one scheduler pass does to a single task, proved from the
//! definition of the pass.

use crate::components::{ActivationState, LcnCommand, Schedule};
use crate::local_time::LocalTime;
use crate::marked::{
    drop_marked, kept_before, lemma_drop_marked_keeps, lemma_drop_marked_len,
    lemma_drop_marked_none, lemma_drop_marked_origin, origin_of,
};
use crate::systems::scheduler::{
    advanced, candidate_at, days_to_wait, flagged_after, has_repeat_spec, lemma_days_to_wait,
    pass, removals, resolves, slot_removed, slot_state, slot_unresolved, SECONDS_PER_DAY,
};
use crate::world::{Entity, WorldView};
use vstd::prelude::*;

verus! {

/// Advancing the states keeps the world well-formed and touches nothing but
/// the states.
pub proof fn lemma_advanced_wf(w: WorldView, now: LocalTime, candidates: Seq<Option<i64>>)
    requires
        w.wf(),
    ensures
        advanced(w, now, candidates).wf(),
        advanced(w, now, candidates).entities == w.entities,
        advanced(w, now, candidates).columns.schedules == w.columns.schedules,
        advanced(w, now, candidates).columns.lcn_commands == w.columns.lcn_commands,
{
}

/// A pass leaves the world well-formed, and gives out no identifier.
pub proof fn lemma_pass_wf(w: WorldView, now: LocalTime, candidates: Seq<Option<i64>>)
    requires
        w.wf(),
    ensures
        pass(w, now, candidates).wf(),
        pass(w, now, candidates).next_id == w.next_id,
{
    lemma_advanced_wf(w, now, candidates);
    advanced(w, now, candidates).lemma_drop_marked_wf(removals(w, now, candidates));
}

/// A task that the pass does not remove is alive afterwards, with the state
/// that the transition rule gave it and its other components untouched.
pub proof fn lemma_pass_keeps(w: WorldView, now: LocalTime, candidates: Seq<Option<i64>>, i: int)
    requires
        w.wf(),
        0 <= i < w.entities.len(),
        !slot_removed(w, i, now, candidates),
    ensures
        pass(w, now, candidates).is_alive(w.entities[i]),
        pass(w, now, candidates).component::<ActivationState>(w.entities[i]) == slot_state(
            w,
            i,
            now,
            candidates,
        ),
        pass(w, now, candidates).component::<Schedule>(w.entities[i]) == w.columns.schedules[i],
        pass(w, now, candidates).component::<LcnCommand>(w.entities[i])
            == w.columns.lcn_commands[i],
{
    let a = advanced(w, now, candidates);
    let m = removals(w, now, candidates);
    let r = pass(w, now, candidates);
    lemma_pass_wf(w, now, candidates);
    lemma_drop_marked_keeps(w.entities, m, i);
    lemma_drop_marked_keeps(w.columns.schedules, m, i);
    lemma_drop_marked_keeps(a.columns.activation_states, m, i);
    lemma_drop_marked_keeps(w.columns.lcn_commands, m, i);
    r.lemma_slot_unique(w.entities[i], kept_before(m, i));
}

/// A pass creates no entity, and a task that it removes is no longer alive.
pub proof fn lemma_pass_removes(w: WorldView, now: LocalTime, candidates: Seq<Option<i64>>, entity: Entity)
    requires
        w.wf(),
    ensures
        pass(w, now, candidates).is_alive(entity) ==> w.is_alive(entity) && !slot_removed(
            w,
            w.slot_of(entity),
            now,
            candidates,
        ),
{
    let m = removals(w, now, candidates);
    let r = pass(w, now, candidates);
    if r.is_alive(entity) {
        let p = r.slot_of(entity);
        lemma_drop_marked_origin(w.entities, m, p);
        w.lemma_slot_unique(entity, origin_of(m, p));
    }
}

/// A one-shot task that waits to be scheduled, and whose time of day has
/// already passed today, is removed by the pass.
pub proof fn lemma_past_one_shot_is_removed(
    w: WorldView,
    now: LocalTime,
    candidates: Seq<Option<i64>>,
    i: int,
    candidate: i64,
)
    requires
        w.wf(),
        now.valid(),
        0 <= i < w.entities.len(),
        w.columns.activation_states[i] == Some(ActivationState::ToBeScheduled),
        w.columns.schedules[i] is Some,
        !has_repeat_spec(w.columns.schedules[i]->0.weekdays),
        candidate_at(candidates, i) == Some(candidate),
        !now.at_or_before(candidate as int),
    ensures
        !pass(w, now, candidates).is_alive(w.entities[i]),
{
    lemma_days_to_wait(now.weekday as int, w.columns.schedules[i]->0.weekdays);
    assert(slot_removed(w, i, now, candidates));
    w.lemma_slot_unique(w.entities[i], i);
    lemma_pass_removes(w, now, candidates, w.entities[i]);
}

/// A task that waits to be scheduled, whose time of day is still ahead
/// today, and which is one-shot or has today's weekday flagged, is scheduled
/// by the pass for that time today.
pub proof fn lemma_due_today_is_scheduled(
    w: WorldView,
    now: LocalTime,
    candidates: Seq<Option<i64>>,
    i: int,
    candidate: i64,
)
    requires
        w.wf(),
        now.valid(),
        0 <= i < w.entities.len(),
        w.columns.activation_states[i] == Some(ActivationState::ToBeScheduled),
        w.columns.schedules[i] is Some,
        w.columns.schedules[i]->0.valid(),
        !has_repeat_spec(w.columns.schedules[i]->0.weekdays)
            || w.columns.schedules[i]->0.weekdays[now.weekday as int],
        candidate_at(candidates, i) == Some(candidate),
        now.at_or_before(candidate as int),
    ensures
        pass(w, now, candidates).component::<ActivationState>(w.entities[i]) == Some(
            ActivationState::Scheduled(candidate),
        ),
{
    lemma_pass_keeps(w, now, candidates, i);
}

/// A task whose scheduled timestamp has been reached is ready to run after
/// the pass.
pub proof fn lemma_due_becomes_ready(
    w: WorldView,
    now: LocalTime,
    candidates: Seq<Option<i64>>,
    i: int,
    due: i64,
)
    requires
        w.wf(),
        0 <= i < w.entities.len(),
        w.columns.activation_states[i] == Some(ActivationState::Scheduled(due)),
        w.columns.schedules[i] is Some,
        due <= now.timestamp,
    ensures
        pass(w, now, candidates).component::<ActivationState>(w.entities[i]) == Some(
            ActivationState::ReadyToRun,
        ),
{
    lemma_pass_keeps(w, now, candidates, i);
}

/// A task that recurs on a single weekday, has fired today at `last` and was
/// reset, is scheduled by the next pass of the same day for exactly seven
/// days after `last`.
pub proof fn lemma_single_weekday_recurs_weekly(
    w: WorldView,
    now: LocalTime,
    candidates: Seq<Option<i64>>,
    i: int,
    last: i64,
)
    requires
        w.wf(),
        now.valid(),
        0 <= i < w.entities.len(),
        w.columns.activation_states[i] == Some(ActivationState::ToBeScheduled),
        w.columns.schedules[i] is Some,
        w.columns.schedules[i]->0.valid(),
        forall|k: int|
            0 <= k < 7 ==> (#[trigger] w.columns.schedules[i]->0.weekdays[k] <==> k
                == now.weekday),
        candidate_at(candidates, i) == Some(last),
        !now.at_or_before(last as int),
        last + 7 * SECONDS_PER_DAY <= i64::MAX,
    ensures
        pass(w, now, candidates).component::<ActivationState>(w.entities[i]) == Some(
            ActivationState::Scheduled((last + 7 * SECONDS_PER_DAY) as i64),
        ),
{
    let weekdays = w.columns.schedules[i]->0.weekdays;
    let today = now.weekday as int;
    assert(weekdays[today]);
    lemma_days_to_wait(today, weekdays);
    let d = days_to_wait(today, weekdays)->0;
    assert(flagged_after(today, weekdays, d));
    assert(weekdays[(today + d) % 7]);
    assert(d == 7);
    lemma_pass_keeps(w, now, candidates, i);
}

/// Running the pass a second time at the same moment, with the same
/// candidates for the tasks that are left, changes nothing, provided that
/// the first pass left no task scheduled for a moment that has already come.
pub proof fn lemma_pass_idempotent(w: WorldView, now: LocalTime, candidates: Seq<Option<i64>>)
    requires
        w.wf(),
        candidates.len() == w.entities.len(),
        forall|i: int|
            0 <= i < w.entities.len() ==> match #[trigger] slot_state(w, i, now, candidates) {
                Some(ActivationState::Scheduled(t)) => w.columns.schedules[i] is Some ==> t
                    > now.timestamp,
                _ => true,
            },
    ensures
        pass(
            pass(w, now, candidates),
            now,
            drop_marked(candidates, removals(w, now, candidates)),
        ) == pass(w, now, candidates),
{
    let a = advanced(w, now, candidates);
    let m = removals(w, now, candidates);
    let r = pass(w, now, candidates);
    let again = drop_marked(candidates, m);
    lemma_pass_wf(w, now, candidates);
    lemma_drop_marked_len(candidates, w.entities, m);
    assert forall|p: int| 0 <= p < r.entities.len() implies !slot_removed(r, p, now, again)
        && slot_state(r, p, now, again) == r.columns.activation_states[p] by {
        let o = origin_of(m, p);
        lemma_drop_marked_origin(w.entities, m, p);
        lemma_drop_marked_origin(w.columns.schedules, m, p);
        lemma_drop_marked_origin(a.columns.activation_states, m, p);
        lemma_drop_marked_origin(candidates, m, p);
        assert(r.columns.schedules[p] == w.columns.schedules[o]);
        assert(r.columns.activation_states[p] == slot_state(w, o, now, candidates));
        assert(candidate_at(again, p) == candidate_at(candidates, o));
        assert(!slot_removed(w, o, now, candidates));
    }
    let second = advanced(r, now, again);
    let none = removals(r, now, again);
    assert(second.columns.activation_states =~= r.columns.activation_states);
    assert(second == r);
    lemma_drop_marked_none(r.entities, none);
    lemma_drop_marked_none(r.columns.schedules, none);
    lemma_drop_marked_none(r.columns.activation_states, none);
    lemma_drop_marked_none(r.columns.lcn_commands, none);
}

/// After a pass that resolves every waiting task, no task that carries a
/// schedule still waits to be scheduled.
pub proof fn lemma_pass_leaves_none_waiting(
    w: WorldView,
    now: LocalTime,
    candidates: Seq<Option<i64>>,
    p: int,
)
    requires
        w.wf(),
        resolves(w, now, candidates),
        0 <= p < pass(w, now, candidates).entities.len(),
    ensures
        !(pass(w, now, candidates).columns.activation_states[p] == Some(
            ActivationState::ToBeScheduled,
        ) && pass(w, now, candidates).columns.schedules[p] is Some),
{
    let a = advanced(w, now, candidates);
    let m = removals(w, now, candidates);
    let o = origin_of(m, p);
    lemma_drop_marked_len(w.entities, w.columns.schedules, m);
    lemma_drop_marked_len(w.entities, a.columns.activation_states, m);
    lemma_drop_marked_origin(w.entities, m, p);
    lemma_drop_marked_origin(w.columns.schedules, m, p);
    lemma_drop_marked_origin(a.columns.activation_states, m, p);
    assert(!slot_unresolved(w, o, now, candidates));
    assert(!slot_removed(w, o, now, candidates));
}

} // verus!
