//! The decisions of the control loop: how long to wait for the next
//! request, and what each request does to the world.

use crate::components::ActivationState;
use crate::local_time::local_now;
use crate::requests::{Request, Response, TaskRequest};
use crate::systems::status_reporter::{
    get_status, is_task, report_view, status, status_upto, summary,
};
use crate::world::{Entity, World, WorldView};
use vstd::prelude::*;

verus! {

/// Why the control loop cannot go on.
#[derive(Copy, Clone, PartialEq, Eq, Structural, Debug)]
pub enum ControlError {
    /// Every sender of requests is gone.
    Disconnected,
    /// A task is scheduled for a moment that has passed, and is not ready to
    /// run.
    Overdue,
}

impl ControlError {
    /// The error in words.
    pub fn message(&self) -> (s: String)
        ensures
            s@ == match *self {
                ControlError::Disconnected => "Producer thread diconnected"@,
                ControlError::Overdue
                    => "task should be executed in the past but is not ready to run"@,
            },
    {
        match self {
            ControlError::Disconnected => "Producer thread diconnected".to_owned(),
            ControlError::Overdue => {
                "task should be executed in the past but is not ready to run".to_owned()
            },
        }
    }
}

/// Whether a task in this state is to be looked at without delay: it is
/// ready to run, or it waits to be scheduled.
pub open spec fn is_due_now(state: Option<ActivationState>) -> bool {
    state == Some(ActivationState::ReadyToRun) || state == Some(ActivationState::ToBeScheduled)
}

/// Whether some task is ready to run or waits to be scheduled.
pub open spec fn has_due_now(states: Seq<Option<ActivationState>>) -> bool {
    exists|i: int| 0 <= i < states.len() && is_due_now(#[trigger] states[i])
}

/// Whether some task is scheduled for `t`.
pub open spec fn is_scheduled_at(states: Seq<Option<ActivationState>>, t: int) -> bool {
    exists|i: int|
        0 <= i < states.len() && #[trigger] states[i] == Some(
            ActivationState::Scheduled(t as i64),
        ) && i64::MIN <= t <= i64::MAX
}

/// Whether `t` is the earliest moment that any task is scheduled for.
pub open spec fn is_earliest(states: Seq<Option<ActivationState>>, t: int) -> bool {
    &&& is_scheduled_at(states, t)
    &&& forall|u: int| #[trigger] is_scheduled_at(states, u) ==> t <= u
}

/// Whether, at the moment `now`, a task is scheduled for a moment that has
/// passed while no task is ready to run or waits to be scheduled.
pub open spec fn is_overdue(states: Seq<Option<ActivationState>>, now: int) -> bool {
    !has_due_now(states) && exists|t: int| is_scheduled_at(states, t) && t < now
}

/// How long the control loop may wait for a request at the moment `now`:
/// not at all if a task is ready to run or waits to be scheduled, else until
/// the earliest scheduled task is due, and without limit only if no task is
/// pending.
pub open spec fn wake_in(states: Seq<Option<ActivationState>>, now: int) -> Option<u64> {
    if has_due_now(states) {
        Some(0)
    } else if exists|t: int| is_earliest(states, t) {
        Some(((choose|t: int| is_earliest(states, t)) - now) as u64)
    } else {
        None
    }
}

/// The wait at the moment `now`, or the error that a task is overdue.
pub open spec fn wake_result(states: Seq<Option<ActivationState>>, now: int) -> Result<
    Option<u64>,
    ControlError,
> {
    if is_overdue(states, now) {
        Err(ControlError::Overdue)
    } else {
        Ok(wake_in(states, now))
    }
}

/// With no task to look at without delay, the wait lasts until the earliest
/// scheduled moment.
pub proof fn lemma_wake_in_earliest(states: Seq<Option<ActivationState>>, now: int, t: int)
    requires
        !has_due_now(states),
        is_earliest(states, t),
    ensures
        wake_in(states, now) == Some((t - now) as u64),
        is_overdue(states, now) <==> t < now,
{
    let chosen = choose|u: int| is_earliest(states, u);
    assert(is_scheduled_at(states, t));
    assert(is_scheduled_at(states, chosen));
}

/// The wait at the moment `now`, or the error that a task is overdue.
fn wake(world: &World, now: i64) -> (r: Result<Option<u64>, ControlError>)
    requires
        world@.wf(),
    ensures
        r == wake_result(world@.columns.activation_states, now as int),
{
    let states = &world.components().activation_states;
    let ghost all = states@;
    let mut time: Option<i64> = None;
    let mut i: usize = 0;
    while i < states.len()
        invariant
            all == states@,
            all == world@.columns.activation_states,
            i <= states.len(),
            !has_due_now(all.take(i as int)),
            match time {
                Some(t) => is_earliest(all.take(i as int), t as int),
                None => forall|u: int| !is_scheduled_at(all.take(i as int), u),
            },
        decreases states.len() - i,
    {
        let ghost seen = all.take(i as int);
        let ghost next = all.take(i + 1);
        assert(forall|j: int| 0 <= j < i ==> seen[j] == next[j]);
        assert(next[i as int] == all[i as int]);
        match states[i] {
            Some(ActivationState::ReadyToRun) => {
                assert(is_due_now(all[i as int]));
                return Ok(Some(0));
            },
            Some(ActivationState::ToBeScheduled) => {
                assert(is_due_now(all[i as int]));
                return Ok(Some(0));
            },
            Some(ActivationState::Scheduled(t)) => {
                let earliest = match time {
                    Some(e) => e,
                    None => i64::MAX,
                };
                if t < earliest || time.is_none() {
                    time = Some(t);
                }
                proof {
                    let e = time->0 as int;
                    assert(is_scheduled_at(next, t as int));
                    assert(is_scheduled_at(next, e)) by {
                        if e != t {
                            assert(is_scheduled_at(seen, e));
                            let k = choose|k: int|
                                0 <= k < seen.len() && #[trigger] seen[k] == Some(
                                    ActivationState::Scheduled(e as i64),
                                );
                            assert(next[k] == seen[k]);
                        }
                    }
                    assert forall|u: int| #[trigger] is_scheduled_at(next, u) implies e <= u by {
                        let k = choose|k: int|
                            0 <= k < next.len() && #[trigger] next[k] == Some(
                                ActivationState::Scheduled(u as i64),
                            ) && i64::MIN <= u <= i64::MAX;
                        if k < i {
                            assert(seen[k] == next[k]);
                            assert(is_scheduled_at(seen, u));
                        }
                    }
                }
            },
            None => {
                proof {
                    assert forall|u: int| is_scheduled_at(next, u) implies is_scheduled_at(
                        seen,
                        u,
                    ) by {
                        let k = choose|k: int|
                            0 <= k < next.len() && #[trigger] next[k] == Some(
                                ActivationState::Scheduled(u as i64),
                            ) && i64::MIN <= u <= i64::MAX;
                        assert(seen[k] == next[k]);
                    }
                    match time {
                        Some(t) => {
                            let k = choose|k: int|
                                0 <= k < seen.len() && #[trigger] seen[k] == Some(
                                    ActivationState::Scheduled(t),
                                );
                            assert(next[k] == seen[k]);
                            assert(is_scheduled_at(next, t as int));
                        },
                        None => {},
                    }
                }
            },
        }
        proof {
            if has_due_now(next) {
                let k = choose|k: int| 0 <= k < next.len() && is_due_now(#[trigger] next[k]);
                assert(seen[k] == next[k]);
            }
        }
        i += 1;
    }
    assert(all.take(i as int) =~= all);
    match time {
        None => {
            assert(!exists|t: int| is_earliest(all, t));
            Ok(None)
        },
        Some(t) => {
            proof {
                lemma_wake_in_earliest(all, now as int, t as int);
            }
            if t < now {
                Err(ControlError::Overdue)
            } else {
                Ok(Some((t as i128 - now as i128) as u64))
            }
        },
    }
}

/// Whether, at the moment `now`, a task is scheduled for a moment that has
/// passed while no task is ready to run or waits to be scheduled.
pub fn has_overdue(world: &World, now: i64) -> (b: bool)
    requires
        world@.wf(),
    ensures
        b == is_overdue(world@.columns.activation_states, now as int),
{
    wake(world, now).is_err()
}

/// The number of seconds from `now` until the next task is due: 0 if a task
/// is ready to run or waits to be scheduled, nothing if no task is pending.
/// No task may be overdue.
pub fn seconds_to_next_execution(world: &World, now: i64) -> (r: Option<u64>)
    requires
        world@.wf(),
        !is_overdue(world@.columns.activation_states, now as int),
    ensures
        r == wake_in(world@.columns.activation_states, now as int),
{
    match wake(world, now) {
        Ok(seconds) => seconds,
        Err(_) => None,
    }
}

/// The number of seconds from the current moment of the local clock until
/// the next task is due, or the error that a task is overdue.
pub fn get_seconds_to_next_execution(world: &World) -> (r: Result<Option<u64>, ControlError>)
    requires
        world@.wf(),
    ensures
        exists|now: int| r == #[trigger] wake_result(world@.columns.activation_states, now),
{
    let now = local_now();
    wake(world, now.timestamp)
}

/// The world with the new task `entity` made from `task`: the entity is
/// created, and given the schedule, the state `ToBeScheduled` and the
/// command.
pub open spec fn with_task(w: WorldView, entity: Entity, task: TaskRequest) -> WorldView {
    w.create(entity).set_component(entity, Some(task.schedule)).set_component(
        entity,
        Some(ActivationState::ToBeScheduled),
    ).set_component(entity, Some(task.cmd))
}

/// Creates the task that the request describes.
pub fn create_lcn_task(world: &mut World, task: TaskRequest) -> (entity: Entity)
    requires
        old(world)@.wf(),
        old(world)@.next_id < i64::MAX,
    ensures
        entity.ident() == old(world)@.next_id,
        !old(world)@.is_alive(entity),
        final(world)@ == with_task(old(world)@, entity, task),
        final(world)@.wf(),
{
    let entity = world.new_entity();
    proof {
        world@.lemma_slot_unique(entity, world@.entities.len() - 1);
    }
    world.add_component(entity, task.schedule);
    proof {
        world@.lemma_slot_unique(entity, world@.entities.len() - 1);
    }
    world.add_component(entity, ActivationState::ToBeScheduled);
    proof {
        world@.lemma_slot_unique(entity, world@.entities.len() - 1);
    }
    world.add_component(entity, task.cmd);
    entity
}

/// Whether `response` and the world `after` are what the request makes of
/// the world `before`.
pub open spec fn handled(
    before: WorldView,
    request: Request,
    response: Response,
    after: WorldView,
) -> bool {
    match request {
        Request::NewTask(task) => {
            &&& response matches Response::NewTask(entity)
            &&& entity.ident() == before.next_id
            &&& after == with_task(before, entity, task)
        },
        Request::RemoveTask(entity) => {
            &&& response matches Response::RemoveTask(removed)
            &&& removed == before.is_alive(entity)
            &&& after == before.remove_entity(entity)
        },
        Request::GetStatus => {
            &&& response matches Response::GetStatus(report)
            &&& report_view(report@) == status(before)
            &&& after == before
        },
    }
}

/// Carries out one request and gives the reply to send.
pub fn handle_request(world: &mut World, request: Request) -> (response: Response)
    requires
        old(world)@.wf(),
        request is NewTask ==> old(world)@.next_id < i64::MAX,
    ensures
        handled(old(world)@, request, response, final(world)@),
        final(world)@.wf(),
{
    match request {
        Request::NewTask(task) => {
            let entity = create_lcn_task(world, task);
            Response::NewTask(entity)
        },
        Request::RemoveTask(entity) => {
            let mut removed = false;
            if world.is_alive(entity) {
                world.remove_entity(entity);
                removed = true;
            }
            Response::RemoveTask(removed)
        },
        Request::GetStatus => {
            let report = get_status(world);
            Response::GetStatus(report)
        },
    }
}

/// What the wait for the next request ended with.
#[derive(Debug)]
pub enum Event {
    /// A request arrived.
    Request(Request),
    /// The time to wait ran out before a request arrived.
    TimedOut,
    /// Every sender of requests is gone.
    Disconnected,
}

/// The control loop's step after its wait: a request is carried out and
/// answered, a timeout changes nothing, and a disconnect is an error.
pub fn process(world: &mut World, event: Event) -> (r: Result<Option<Response>, ControlError>)
    requires
        old(world)@.wf(),
        event matches Event::Request(request) ==> (request is NewTask ==> old(world)@.next_id
            < i64::MAX),
    ensures
        match event {
            Event::Request(request) => r matches Ok(Some(response)) && handled(
                old(world)@,
                request,
                response,
                final(world)@,
            ),
            Event::TimedOut => r matches Ok(None) && final(world)@ == old(world)@,
            Event::Disconnected => r matches Err(ControlError::Disconnected) && final(world)@
                == old(world)@,
        },
        final(world)@.wf(),
{
    match event {
        Event::Request(request) => Ok(Some(handle_request(world, request))),
        Event::TimedOut => Ok(None),
        Event::Disconnected => Err(ControlError::Disconnected),
    }
}

/// A request to remove an entity that is not alive is answered with "not
/// removed" and leaves the world as it was.
pub proof fn lemma_remove_unknown_changes_nothing(
    before: WorldView,
    entity: Entity,
    response: Response,
    after: WorldView,
)
    requires
        handled(before, Request::RemoveTask(entity), response, after),
        !before.is_alive(entity),
    ensures
        response matches Response::RemoveTask(removed) && !removed,
        after == before,
{
}

/// The slots that a new task leaves alone report what they reported before.
proof fn lemma_status_upto_with_task(w: WorldView, entity: Entity, task: TaskRequest, upto: int)
    requires
        w.wf(),
        w.next_id < i64::MAX,
        entity.ident() == w.next_id,
        0 <= upto <= w.entities.len(),
    ensures
        status_upto(with_task(w, entity, task), upto) == status_upto(w, upto),
    decreases upto,
{
    lemma_with_task_columns(w, entity, task);
    if upto > 0 {
        lemma_status_upto_with_task(w, entity, task, upto - 1);
        let after = with_task(w, entity, task);
        assert(is_task(after, upto - 1) == is_task(w, upto - 1));
    }
}

/// A new task takes the slot after the last, with its three components in
/// it, and leaves every other slot as it was.
pub proof fn lemma_with_task_columns(w: WorldView, entity: Entity, task: TaskRequest)
    requires
        w.wf(),
        w.next_id < i64::MAX,
        entity.ident() == w.next_id,
    ensures
        with_task(w, entity, task).wf(),
        with_task(w, entity, task).next_id == w.next_id + 1,
        with_task(w, entity, task).entities == w.entities.push(entity),
        with_task(w, entity, task).columns.schedules == w.columns.schedules.push(
            Some(task.schedule),
        ),
        with_task(w, entity, task).columns.activation_states == w.columns.activation_states.push(
            Some(ActivationState::ToBeScheduled),
        ),
        with_task(w, entity, task).columns.lcn_commands == w.columns.lcn_commands.push(
            Some(task.cmd),
        ),
{
    let n = w.entities.len() as int;
    let created = w.create(entity);
    assert(created.wf()) by {
        assert forall|i: int| 0 <= i < n implies #[trigger] created.entities[i] != entity by {
            assert(w.entities[i].ident() < w.next_id);
        }
    }
    created.lemma_slot_unique(entity, n);
    let first = created.set_component(entity, Some(task.schedule));
    created.lemma_set_slot_wf(n, Some(task.schedule));
    first.lemma_slot_unique(entity, n);
    let second = first.set_component(entity, Some(ActivationState::ToBeScheduled));
    first.lemma_set_slot_wf(n, Some(ActivationState::ToBeScheduled));
    second.lemma_slot_unique(entity, n);
    second.lemma_set_slot_wf(n, Some(task.cmd));
    let last = with_task(w, entity, task);
    assert(last.columns.schedules =~= w.columns.schedules.push(Some(task.schedule)));
    assert(last.columns.activation_states =~= w.columns.activation_states.push(
        Some(ActivationState::ToBeScheduled),
    ));
    assert(last.columns.lcn_commands =~= w.columns.lcn_commands.push(Some(task.cmd)));
}

/// The status taken right after a task was created reports every task that
/// was there before, and then the new task, as one that is to be scheduled.
pub proof fn lemma_new_task_in_status(w: WorldView, entity: Entity, task: TaskRequest)
    requires
        w.wf(),
        w.next_id < i64::MAX,
        entity.ident() == w.next_id,
    ensures
        status(with_task(w, entity, task)) == status(w).push(
            summary(entity.ident(), ActivationState::ToBeScheduled, task.schedule, task.cmd),
        ),
{
    let n = w.entities.len() as int;
    lemma_with_task_columns(w, entity, task);
    lemma_status_upto_with_task(w, entity, task, n);
    assert(is_task(with_task(w, entity, task), n));
}

} // verus!
