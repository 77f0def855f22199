//! The activation scheduler: turns weekly schedules into activation
//! timestamps and advances each task through its lifecycle.

use crate::components::{ActivationState, Columns, Schedule};
use crate::local_time::{local_now, LocalTime};
use crate::marked::{lemma_drop_marked_from_ends, lemma_drop_marked_from_step};
use crate::world::{Ecs, Entity, WorldView};
use vstd::prelude::*;

verus! {

/// The number of seconds in a day.
pub const SECONDS_PER_DAY: i64 = 86_400;

/// Whether any weekday is flagged, that is, whether the task recurs.
pub open spec fn has_repeat_spec(weekdays: [bool; 7]) -> bool {
    exists|i: int| 0 <= i < 7 && weekdays[i]
}

/// Whether the weekday `days` days after `weekday` is flagged.
pub open spec fn flagged_after(weekday: int, weekdays: [bool; 7], days: int) -> bool {
    weekdays[(weekday + days) % 7]
}

/// The first `d` in `from..=6` for which the weekday `d` days after
/// `weekday` is flagged.
pub open spec fn first_flagged_from(weekday: int, weekdays: [bool; 7], from: int) -> Option<int>
    decreases 7 - from,
{
    if from > 6 {
        None
    } else if flagged_after(weekday, weekdays, from) {
        Some(from)
    } else {
        first_flagged_from(weekday, weekdays, from + 1)
    }
}

/// The number of days, from 1 to 6, until the next flagged weekday after
/// `weekday`. Today's own weekday is not looked at. `None` if none of the
/// six days that follow today is flagged.
pub open spec fn days_to_next_run_spec(weekday: int, weekdays: [bool; 7]) -> Option<int> {
    first_flagged_from(weekday, weekdays, 1)
}

/// The number of days until the next occurrence of a schedule whose time of
/// day today is no longer to come: the days to the next flagged weekday, a
/// full week if today's is the only flagged weekday, and none if the task
/// does not recur.
pub open spec fn days_to_wait(weekday: int, weekdays: [bool; 7]) -> Option<int> {
    match days_to_next_run_spec(weekday, weekdays) {
        Some(d) => Some(d),
        None => if has_repeat_spec(weekdays) {
            Some(7)
        } else {
            None
        },
    }
}

/// What the scheduler decides for one task.
#[derive(Copy, Clone, PartialEq, Eq, Structural, Debug)]
pub enum Decision {
    /// The task stays, in the given state.
    Keep(ActivationState),
    /// The task has no occurrence left and is to be removed.
    Remove,
}

/// The rule for a task that waits to be scheduled. `candidate` is the
/// timestamp of the schedule's time of day on today's date, if the local
/// calendar has one.
///
/// A schedule that names no time of day has no occurrence, and its task is
/// removed. A task stays as it is where no timestamp can be given to it:
/// where the local calendar has no candidate for a time of day, or where the
/// next occurrence lies beyond the last timestamp.
pub open spec fn schedule_next(schedule: Schedule, now: LocalTime, candidate: Option<i64>) -> Decision {
    if !schedule.valid() {
        Decision::Remove
    } else {
        match candidate {
            None => Decision::Keep(ActivationState::ToBeScheduled),
            Some(c) => {
                if now.at_or_before(c as int) && (!has_repeat_spec(schedule.weekdays)
                    || schedule.weekdays[now.weekday as int]) {
                    Decision::Keep(ActivationState::Scheduled(c))
                } else {
                    match days_to_wait(now.weekday as int, schedule.weekdays) {
                        None => Decision::Remove,
                        Some(d) => {
                            if c + d * SECONDS_PER_DAY <= i64::MAX {
                                Decision::Keep(
                                    ActivationState::Scheduled((c + d * SECONDS_PER_DAY) as i64),
                                )
                            } else {
                                Decision::Keep(ActivationState::ToBeScheduled)
                            }
                        },
                    }
                }
            },
        }
    }
}

/// The transition rule for one task.
pub open spec fn decide_spec(
    state: ActivationState,
    schedule: Schedule,
    now: LocalTime,
    candidate: Option<i64>,
) -> Decision {
    match state {
        ActivationState::ReadyToRun => Decision::Keep(ActivationState::ReadyToRun),
        ActivationState::Scheduled(t) => {
            if t <= now.timestamp {
                Decision::Keep(ActivationState::ReadyToRun)
            } else {
                Decision::Keep(ActivationState::Scheduled(t))
            }
        },
        ActivationState::ToBeScheduled => schedule_next(schedule, now, candidate),
    }
}

/// The first flagged day at or after `from` is flagged, no day between is,
/// and there is none exactly when no day from `from` to 6 is flagged.
pub proof fn lemma_first_flagged_from(weekday: int, weekdays: [bool; 7], from: int)
    requires
        1 <= from <= 7,
    ensures
        match first_flagged_from(weekday, weekdays, from) {
            Some(d) => from <= d <= 6 && flagged_after(weekday, weekdays, d) && forall|k: int|
                from <= k < d ==> !flagged_after(weekday, weekdays, k),
            None => forall|k: int| from <= k <= 6 ==> !flagged_after(weekday, weekdays, k),
        },
    decreases 7 - from,
{
    if from <= 6 && !flagged_after(weekday, weekdays, from) {
        lemma_first_flagged_from(weekday, weekdays, from + 1);
    }
}

/// The search finds the first flagged day among the six that follow today,
/// and finds none exactly when none of them is flagged.
pub proof fn lemma_days_to_next_run(weekday: int, weekdays: [bool; 7])
    ensures
        match days_to_next_run_spec(weekday, weekdays) {
            Some(d) => 1 <= d <= 6 && flagged_after(weekday, weekdays, d) && forall|k: int|
                1 <= k < d ==> !flagged_after(weekday, weekdays, k),
            None => forall|k: int| 1 <= k <= 6 ==> !flagged_after(weekday, weekdays, k),
        },
{
    lemma_first_flagged_from(weekday, weekdays, 1);
}

/// A task has a next occurrence to wait for exactly when it recurs, and
/// then within one to seven days, on a flagged weekday.
pub proof fn lemma_days_to_wait(weekday: int, weekdays: [bool; 7])
    requires
        0 <= weekday,
    ensures
        days_to_wait(weekday, weekdays) is Some <==> has_repeat_spec(weekdays),
        match days_to_wait(weekday, weekdays) {
            Some(d) => 1 <= d <= 7 && flagged_after(weekday, weekdays, d) && forall|k: int|
                1 <= k < d ==> !flagged_after(weekday, weekdays, k),
            None => true,
        },
{
    lemma_days_to_next_run(weekday, weekdays);
    assert(0 <= weekday % 7 < 7);
    if has_repeat_spec(weekdays) {
        let i = choose|i: int| 0 <= i < 7 && weekdays[i];
        if days_to_next_run_spec(weekday, weekdays) is None {
            let k = if i > weekday % 7 {
                i - weekday % 7
            } else {
                i - weekday % 7 + 7
            };
            assert((weekday + k) % 7 == i);
            if k < 7 {
                assert(flagged_after(weekday, weekdays, k));
            }
            assert(i == weekday % 7);
            assert((weekday + 7) % 7 == weekday % 7);
            assert(flagged_after(weekday, weekdays, 7));
        }
    }
    if days_to_next_run_spec(weekday, weekdays) is Some {
        let d = days_to_next_run_spec(weekday, weekdays)->0;
        assert(0 <= (weekday + d) % 7 < 7);
        assert(weekdays[(weekday + d) % 7]);
    }
}

/// Whether any weekday is flagged.
pub fn has_repeat(weekdays: &[bool; 7]) -> (b: bool)
    ensures
        b == has_repeat_spec(*weekdays),
{
    let mut i: usize = 0;
    while i < 7
        invariant
            i <= 7,
            forall|j: int| 0 <= j < i ==> !weekdays[j],
        decreases 7 - i,
    {
        if weekdays[i] {
            return true;
        }
        i += 1;
    }
    false
}

/// The number of days, from 1 to 6, from the weekday `weekday` to the next
/// flagged weekday; `None` if none of the six days that follow is flagged.
pub fn days_to_next_run(weekday: u32, weekdays: &[bool; 7]) -> (r: Option<i64>)
    ensures
        match days_to_next_run_spec(weekday as int, *weekdays) {
            Some(d) => r == Some(d as i64),
            None => r is None,
        },
        match r {
            Some(d) => 1 <= d <= 6 && flagged_after(weekday as int, *weekdays, d as int)
                && forall|k: int| 1 <= k < d ==> !flagged_after(weekday as int, *weekdays, k),
            None => forall|k: int| 1 <= k <= 6 ==> !flagged_after(weekday as int, *weekdays, k),
        },
{
    let start: u32 = weekday % 7;
    let mut days: u32 = 1;
    proof {
        lemma_days_to_next_run(weekday as int, *weekdays);
    }
    while days < 7
        invariant
            1 <= days <= 7,
            start == weekday % 7,
            first_flagged_from(weekday as int, *weekdays, days as int) == days_to_next_run_spec(
                weekday as int,
                *weekdays,
            ),
        decreases 7 - days,
    {
        let day: u32 = (start + days) % 7;
        assert(day == (weekday + days) % 7);
        if weekdays[day as usize] {
            proof {
                lemma_days_to_next_run(weekday as int, *weekdays);
            }
            return Some(days as i64);
        }
        days += 1;
    }
    None
}

/// Applies the transition rule to one task.
pub fn decide(
    state: ActivationState,
    schedule: &Schedule,
    now: &LocalTime,
    candidate: Option<i64>,
) -> (d: Decision)
    requires
        now.valid(),
    ensures
        d == decide_spec(state, *schedule, *now, candidate),
{
    match state {
        ActivationState::ReadyToRun => Decision::Keep(ActivationState::ReadyToRun),
        ActivationState::Scheduled(t) => {
            if t <= now.timestamp {
                Decision::Keep(ActivationState::ReadyToRun)
            } else {
                Decision::Keep(ActivationState::Scheduled(t))
            }
        },
        ActivationState::ToBeScheduled => {
            if !schedule.is_valid() {
                return Decision::Remove;
            }
            let c = match candidate {
                None => {
                    return Decision::Keep(ActivationState::ToBeScheduled);
                },
                Some(c) => c,
            };
            if now.is_at_or_before(c) && (!has_repeat(&schedule.weekdays)
                || schedule.weekdays[now.weekday as usize]) {
                return Decision::Keep(ActivationState::Scheduled(c));
            }
            let wait = match days_to_next_run(now.weekday, &schedule.weekdays) {
                Some(days) => Some(days),
                None => if has_repeat(&schedule.weekdays) {
                    Some(7)
                } else {
                    None
                },
            };
            proof {
                lemma_days_to_wait(now.weekday as int, schedule.weekdays);
            }
            match wait {
                None => Decision::Remove,
                Some(days) => {
                    let shift: i64 = days * SECONDS_PER_DAY;
                    if c <= i64::MAX - shift {
                        Decision::Keep(ActivationState::Scheduled(c + shift))
                    } else {
                        Decision::Keep(ActivationState::ToBeScheduled)
                    }
                },
            }
        },
    }
}

/// The candidate for slot `i`: none where the list is too short.
pub open spec fn candidate_at(candidates: Seq<Option<i64>>, i: int) -> Option<i64> {
    if 0 <= i < candidates.len() {
        candidates[i]
    } else {
        None
    }
}

/// What the scheduler decides for slot `i`: nothing unless the slot carries
/// both a state and a schedule.
pub open spec fn slot_decision(
    w: WorldView,
    i: int,
    now: LocalTime,
    candidates: Seq<Option<i64>>,
) -> Option<Decision> {
    match (w.columns.activation_states[i], w.columns.schedules[i]) {
        (Some(state), Some(schedule)) => Some(
            decide_spec(state, schedule, now, candidate_at(candidates, i)),
        ),
        _ => None,
    }
}

/// Whether the pass removes the entity of slot `i`.
pub open spec fn slot_removed(w: WorldView, i: int, now: LocalTime, candidates: Seq<Option<i64>>) -> bool {
    slot_decision(w, i, now, candidates) == Some(Decision::Remove)
}

/// The activation state that slot `i` holds after the pass has looked at it.
pub open spec fn slot_state(
    w: WorldView,
    i: int,
    now: LocalTime,
    candidates: Seq<Option<i64>>,
) -> Option<ActivationState> {
    match slot_decision(w, i, now, candidates) {
        Some(Decision::Keep(state)) => Some(state),
        _ => w.columns.activation_states[i],
    }
}

/// The world with the first `upto` slots advanced and nothing removed yet.
pub open spec fn advanced_upto(
    w: WorldView,
    now: LocalTime,
    candidates: Seq<Option<i64>>,
    upto: int,
) -> WorldView {
    WorldView {
        columns: Columns {
            activation_states: Seq::new(
                w.entities.len(),
                |i: int|
                    if i < upto {
                        slot_state(w, i, now, candidates)
                    } else {
                        w.columns.activation_states[i]
                    },
            ),
            ..w.columns
        },
        ..w
    }
}

/// The world with every slot advanced and nothing removed yet.
pub open spec fn advanced(w: WorldView, now: LocalTime, candidates: Seq<Option<i64>>) -> WorldView {
    advanced_upto(w, now, candidates, w.entities.len() as int)
}

/// For each slot, whether the pass removes its entity.
pub open spec fn removals(w: WorldView, now: LocalTime, candidates: Seq<Option<i64>>) -> Seq<bool> {
    Seq::new(w.entities.len(), |i: int| slot_removed(w, i, now, candidates))
}

/// One scheduler pass: every task that carries a state and a schedule is
/// advanced by the transition rule, then the tasks with no occurrence left
/// are removed, all columns in step.
pub open spec fn pass(w: WorldView, now: LocalTime, candidates: Seq<Option<i64>>) -> WorldView {
    advanced(w, now, candidates).drop_marked(removals(w, now, candidates))
}

/// Runs one scheduler pass at the moment `now`. `candidates[i]` is the
/// timestamp of the time of day of slot `i`'s schedule on today's date, if
/// the local calendar has one.
pub fn process_with(ecs: &mut Ecs, now: &LocalTime, candidates: &Vec<Option<i64>>)
    requires
        old(ecs)@.wf(),
        now.valid(),
    ensures
        final(ecs)@ == pass(old(ecs)@, *now, candidates@),
        final(ecs)@.wf(),
{
    let n = ecs.len();
    let ghost start = ecs@;
    let mut marks: Vec<bool> = Vec::new();
    let mut i: usize = 0;
    assert(ecs@ =~= advanced_upto(start, *now, candidates@, 0)) by {
        assert(ecs@.columns.activation_states =~= advanced_upto(
            start,
            *now,
            candidates@,
            0,
        ).columns.activation_states);
    }
    while i < n
        invariant
            start.wf(),
            now.valid(),
            n == start.entities.len(),
            i <= n,
            ecs@ == advanced_upto(start, *now, candidates@, i as int),
            ecs@.wf(),
            marks@ == removals(start, *now, candidates@).take(i as int),
        decreases n - i,
    {
        let state = ecs.components().activation_states[i];
        let schedule = ecs.components().schedules[i];
        let candidate = if i < candidates.len() {
            candidates[i]
        } else {
            None
        };
        let mut remove = false;
        if let (Some(state), Some(schedule)) = (state, schedule) {
            match decide(state, &schedule, now, candidate) {
                Decision::Keep(next) => {
                    *ecs.slot_mut::<ActivationState>(i) = Some(next);
                },
                Decision::Remove => {
                    remove = true;
                },
            }
        }
        marks.push(remove);
        proof {
            let after = advanced_upto(start, *now, candidates@, i + 1);
            assert(ecs@.columns.activation_states =~= after.columns.activation_states);
            assert(ecs@ == after);
            assert(marks@ =~= removals(start, *now, candidates@).take(i + 1));
        }
        i += 1;
    }
    let ghost all = advanced(start, *now, candidates@);
    let ghost gone = removals(start, *now, candidates@);
    proof {
        assert(marks@ =~= gone);
        lemma_drop_marked_from_ends(all.entities, gone);
        lemma_drop_marked_from_ends(all.columns.schedules, gone);
        lemma_drop_marked_from_ends(all.columns.activation_states, gone);
        lemma_drop_marked_from_ends(all.columns.lcn_commands, gone);
    }
    let mut cut: usize = n;
    while cut > 0
        invariant
            cut <= n,
            n == all.entities.len(),
            all.columns.aligned(n as nat),
            marks@ == gone,
            gone.len() == n,
            ecs@ == all.drop_marked_from(gone, cut as int),
            ecs@.wf(),
        decreases cut,
    {
        proof {
            lemma_drop_marked_from_step(all.entities, gone, cut as int);
            lemma_drop_marked_from_step(all.columns.schedules, gone, cut as int);
            lemma_drop_marked_from_step(all.columns.activation_states, gone, cut as int);
            lemma_drop_marked_from_step(all.columns.lcn_commands, gone, cut as int);
        }
        cut -= 1;
        if marks[cut] {
            let entity = ecs.entity_at(cut);
            proof {
                ecs@.lemma_slot_unique(entity, cut as int);
            }
            ecs.remove_entity(entity);
        }
    }
}

/// Whether `candidates` can be what the local calendar gave for the tasks of
/// `w` that wait to be scheduled: one entry per slot, and none for a slot
/// that does not wait or whose schedule names no time of day.
pub open spec fn candidates_for(w: WorldView, candidates: Seq<Option<i64>>) -> bool {
    &&& candidates.len() == w.entities.len()
    &&& forall|i: int|
        0 <= i < candidates.len() && (#[trigger] candidates[i]) is Some ==> {
            &&& w.columns.activation_states[i] == Some(ActivationState::ToBeScheduled)
            &&& w.columns.schedules[i] is Some
            &&& w.columns.schedules[i]->0.valid()
        }
}

/// Whether the pass would leave the task of slot `i` waiting to be
/// scheduled, for want of a timestamp to give it.
pub open spec fn slot_unresolved(
    w: WorldView,
    i: int,
    now: LocalTime,
    candidates: Seq<Option<i64>>,
) -> bool {
    slot_decision(w, i, now, candidates) == Some(
        Decision::Keep(ActivationState::ToBeScheduled),
    )
}

/// Whether the pass gives every task that waits to be scheduled a timestamp
/// or removes it.
pub open spec fn resolves(w: WorldView, now: LocalTime, candidates: Seq<Option<i64>>) -> bool {
    forall|i: int| 0 <= i < w.entities.len() ==> !slot_unresolved(w, i, now, candidates)
}

/// A task that cannot be scheduled: the local calendar has no single moment
/// for its time of day today, or its next occurrence lies beyond the last
/// timestamp.
#[derive(Copy, Clone, PartialEq, Eq, Debug)]
pub struct Unschedulable {
    pub entity: Entity,
}

impl Unschedulable {
    /// The error in words.
    pub fn message(&self) -> (s: String)
        ensures
            s@ == "No such local time"@,
    {
        "No such local time".to_owned()
    }
}

/// What a pass at `now` makes of the world when the local calendar gave
/// `candidates`: the pass is run if it resolves every waiting task, and else
/// the world is left as it was and a task that cannot be scheduled is named.
pub open spec fn processed(
    before: WorldView,
    now: LocalTime,
    candidates: Seq<Option<i64>>,
    r: Result<(), Unschedulable>,
    after: WorldView,
) -> bool {
    match r {
        Ok(_) => resolves(before, now, candidates) && after == pass(before, now, candidates),
        Err(e) => after == before && exists|i: int|
            0 <= i < before.entities.len() && #[trigger] slot_unresolved(
                before,
                i,
                now,
                candidates,
            ) && e.entity == before.entities[i],
    }
}

/// The first task that the pass would leave waiting, if there is one.
fn find_unresolved(ecs: &Ecs, now: &LocalTime, candidates: &Vec<Option<i64>>) -> (r: Option<
    Entity,
>)
    requires
        ecs@.wf(),
        now.valid(),
        candidates.len() == ecs@.entities.len(),
    ensures
        match r {
            None => resolves(ecs@, *now, candidates@),
            Some(entity) => exists|i: int|
                0 <= i < ecs@.entities.len() && #[trigger] slot_unresolved(
                    ecs@,
                    i,
                    *now,
                    candidates@,
                ) && entity == ecs@.entities[i],
        },
{
    let n = ecs.len();
    let mut i: usize = 0;
    while i < n
        invariant
            ecs@.wf(),
            now.valid(),
            n == ecs@.entities.len(),
            candidates.len() == n,
            i <= n,
            forall|j: int| 0 <= j < i ==> !slot_unresolved(ecs@, j, *now, candidates@),
        decreases n - i,
    {
        let state = ecs.components().activation_states[i];
        let schedule = ecs.components().schedules[i];
        if let (Some(state), Some(schedule)) = (state, schedule) {
            let waiting = match decide(state, &schedule, now, candidates[i]) {
                Decision::Keep(ActivationState::ToBeScheduled) => true,
                _ => false,
            };
            if waiting {
                assert(slot_unresolved(ecs@, i as int, *now, candidates@));
                return Some(ecs.entity_at(i));
            }
        }
        i += 1;
    }
    None
}

/// Runs one scheduler pass at the moment `now`. For each task that waits to
/// be scheduled, the local calendar is asked for the timestamp of the
/// schedule's time of day on today's date. If a task can then not be
/// scheduled, nothing is done and the task is named.
pub fn process_internal(ecs: &mut Ecs, now: &LocalTime) -> (r: Result<(), Unschedulable>)
    requires
        old(ecs)@.wf(),
        now.valid(),
    ensures
        exists|candidates: Seq<Option<i64>>|
            candidates_for(old(ecs)@, candidates) && #[trigger] processed(
                old(ecs)@,
                *now,
                candidates,
                r,
                final(ecs)@,
            ),
        final(ecs)@.wf(),
{
    let n = ecs.len();
    let mut candidates: Vec<Option<i64>> = Vec::new();
    let mut i: usize = 0;
    while i < n
        invariant
            ecs@.wf(),
            n == ecs@.entities.len(),
            i <= n,
            candidates.len() == i,
            forall|j: int|
                0 <= j < i && (#[trigger] candidates[j]) is Some ==> {
                    &&& ecs@.columns.activation_states[j] == Some(ActivationState::ToBeScheduled)
                    &&& ecs@.columns.schedules[j] is Some
                    &&& ecs@.columns.schedules[j]->0.valid()
                },
        decreases n - i,
    {
        let state = ecs.components().activation_states[i];
        let schedule = ecs.components().schedules[i];
        let candidate = match (state, schedule) {
            (Some(ActivationState::ToBeScheduled), Some(schedule)) => now.today_at(
                schedule.hour,
                schedule.min,
                schedule.sec,
            ),
            _ => None,
        };
        candidates.push(candidate);
        i += 1;
    }
    match find_unresolved(ecs, now, &candidates) {
        Some(entity) => {
            assert(processed(ecs@, *now, candidates@, Err(Unschedulable { entity }), ecs@));
            Err(Unschedulable { entity })
        },
        None => {
            process_with(ecs, now, &candidates);
            assert(processed(old(ecs)@, *now, candidates@, Ok(()), ecs@));
            Ok(())
        },
    }
}

/// Runs one scheduler pass at the current moment of the local clock.
pub fn process(ecs: &mut Ecs) -> (r: Result<(), Unschedulable>)
    requires
        old(ecs)@.wf(),
    ensures
        exists|now: LocalTime, candidates: Seq<Option<i64>>|
            now.valid() && candidates_for(old(ecs)@, candidates) && #[trigger] processed(
                old(ecs)@,
                now,
                candidates,
                r,
                final(ecs)@,
            ),
        final(ecs)@.wf(),
{
    let now = local_now();
    process_internal(ecs, &now)
}

} // verus!
