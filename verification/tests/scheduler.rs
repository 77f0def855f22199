use chrono::{Datelike, Duration, Timelike};
use home_automation::components::{ActivationState, LcnCommand, Schedule};
use home_automation::local_time::LocalTime;
use home_automation::systems::scheduler::{
    days_to_next_run, decide, has_repeat, process, process_internal, process_with, Decision,
    Unschedulable, SECONDS_PER_DAY,
};
use home_automation::world::{Ecs, Entity};

fn local(date_time: chrono::DateTime<chrono::Local>) -> LocalTime {
    LocalTime::new(
        date_time.timestamp(),
        date_time.timestamp_subsec_nanos(),
        date_time.year(),
        date_time.month(),
        date_time.day(),
        date_time.weekday().num_days_from_monday(),
    )
    .unwrap()
}

fn to_schedule(date_time: chrono::DateTime<chrono::Local>) -> Schedule {
    Schedule {
        hour: date_time.hour() as i8,
        min: date_time.minute() as i8,
        sec: date_time.second() as i8,
        weekdays: [false; 7],
    }
}

fn new_action(ecs: &mut Ecs, schedule: Schedule) -> Entity {
    let entity = ecs.new_entity();
    ecs.add_component(entity, schedule);
    ecs.add_component(entity, ActivationState::ToBeScheduled);
    entity
}

// Wednesday 2024-01-03, 21:00:00 UTC.
const WEDNESDAY_21H: i64 = 1_704_315_600;
const WEDNESDAY: u32 = 2;

fn wednesday(timestamp: i64, nanos: u32) -> LocalTime {
    LocalTime::new(timestamp, nanos, 2024, 1, 3, WEDNESDAY).unwrap()
}

fn state_of(ecs: &mut Ecs, entity: Entity) -> ActivationState {
    *ecs.get_component::<ActivationState>(entity).unwrap()
}

#[test]
fn test_one_time_action() {
    let mut ecs = Ecs::new();
    let mut now = chrono::Local::now();
    if now.hour() >= 23 {
        now = now - Duration::hours(1);
    }
    let action = new_action(&mut ecs, to_schedule(now + Duration::hours(1)));

    process_internal(&mut ecs, &local(now)).unwrap();
    let action_state = ecs.get_component::<ActivationState>(action).unwrap();
    now = now + Duration::hours(1);
    assert_eq!(*action_state, ActivationState::Scheduled(now.timestamp()));

    process_internal(&mut ecs, &local(now)).unwrap();
    let action_state = ecs.get_component::<ActivationState>(action).unwrap();
    assert_eq!(*action_state, ActivationState::ReadyToRun);

    *action_state = ActivationState::ToBeScheduled;
    process_internal(&mut ecs, &local(now)).unwrap();
    assert!(!ecs.is_alive(action));

    let action = new_action(&mut ecs, to_schedule(now - Duration::hours(1)));
    assert!(ecs.is_alive(action));
    process_internal(&mut ecs, &local(now)).unwrap();
    assert!(!ecs.is_alive(action));
}

#[test]
fn test_one_time_action_in_the_past() {
    let mut ecs = Ecs::new();
    let mut now = chrono::Local::now();
    if now.hour() < 1 {
        now = now + Duration::hours(1);
    }

    let action = new_action(&mut ecs, to_schedule(now - Duration::hours(1)));
    assert!(ecs.is_alive(action));
    process_internal(&mut ecs, &local(now)).unwrap();
    assert!(!ecs.is_alive(action));
}

#[test]
fn test_everyday_action() {
    let mut ecs = Ecs::new();
    let mut now = chrono::Local::now();
    let mut scheduled_time = now - Duration::hours(1);

    let mut schedule = to_schedule(scheduled_time.clone());
    schedule.weekdays = [true; 7];
    let action = new_action(&mut ecs, schedule);

    let mut repeat = 0;
    while repeat < 8 {
        process_internal(&mut ecs, &local(now)).unwrap();

        scheduled_time = scheduled_time + Duration::days(1);

        {
            let action_state = ecs.get_component::<ActivationState>(action).unwrap();
            assert_eq!(
                *action_state,
                ActivationState::Scheduled(scheduled_time.timestamp())
            );
        }

        now = now + Duration::days(1);
        process_internal(&mut ecs, &local(now)).unwrap();

        {
            let action_state = ecs.get_component::<ActivationState>(action).unwrap();
            assert_eq!(*action_state, ActivationState::ReadyToRun);
            *action_state = ActivationState::ToBeScheduled;
        }
        repeat += 1;
    }
}

#[test]
fn test_mult_day_action() {
    let mut ecs = Ecs::new();
    let mut now = chrono::Local::now();
    let mut schedule = to_schedule(now.clone());

    let today = now.weekday().num_days_from_monday() as usize;
    schedule.weekdays[(today + 2) % 7] = true;
    schedule.weekdays[(today + 6) % 7] = true;

    println!("days {:?}", schedule.weekdays);
    let action = new_action(&mut ecs, schedule);

    process_internal(&mut ecs, &local(now)).unwrap();

    {
        let action_state = ecs.get_component::<ActivationState>(action).unwrap();
        let scheduled_time = now + Duration::days(2);
        assert_eq!(
            *action_state,
            ActivationState::Scheduled(scheduled_time.timestamp())
        );
    }

    now = now + Duration::days(2);
    process_internal(&mut ecs, &local(now)).unwrap();

    {
        let action_state = ecs.get_component::<ActivationState>(action).unwrap();
        assert_eq!(*action_state, ActivationState::ReadyToRun);
        *action_state = ActivationState::ToBeScheduled;
    }

    let mut repeat = 0;
    while repeat < 2 {
        process_internal(&mut ecs, &local(now)).unwrap();

        {
            let action_state = ecs.get_component::<ActivationState>(action).unwrap();
            let scheduled_time = now + Duration::days(4);
            assert_eq!(
                *action_state,
                ActivationState::Scheduled(scheduled_time.timestamp())
            );
        }

        now = now + Duration::days(4);
        process_internal(&mut ecs, &local(now)).unwrap();

        {
            let action_state = ecs.get_component::<ActivationState>(action).unwrap();
            assert_eq!(*action_state, ActivationState::ReadyToRun);
            *action_state = ActivationState::ToBeScheduled;
        }

        process_internal(&mut ecs, &local(now)).unwrap();

        {
            let action_state = ecs.get_component::<ActivationState>(action).unwrap();
            let scheduled_time = now + Duration::days(3);
            assert_eq!(
                *action_state,
                ActivationState::Scheduled(scheduled_time.timestamp())
            );
        }

        now = now + Duration::days(3);
        process_internal(&mut ecs, &local(now)).unwrap();

        {
            let action_state = ecs.get_component::<ActivationState>(action).unwrap();
            assert_eq!(*action_state, ActivationState::ReadyToRun);
            *action_state = ActivationState::ToBeScheduled;
        }
        repeat += 1;
    }
}

#[test]
fn add_action_for_next_day_after_current_time() {
    let mut ecs = Ecs::new();
    let now = chrono::Local::now();

    let mut schedule = to_schedule(now + Duration::seconds(1));

    let today = now.weekday().num_days_from_monday() as usize;
    let tomorrow = (today + 1) % 7;
    schedule.weekdays[tomorrow] = true;

    let action = new_action(&mut ecs, schedule);
    process_internal(&mut ecs, &local(now)).unwrap();
    let state = ecs.get_component::<ActivationState>(action).unwrap();
    let expected_sched_time = now + Duration::seconds(1) + Duration::days(1);
    assert_eq!(
        *state,
        ActivationState::Scheduled(expected_sched_time.timestamp())
    );
}

#[test]
fn has_repeat_tells_one_shot_from_recurring() {
    assert!(!has_repeat(&[false; 7]));
    assert!(has_repeat(&[false, false, false, false, false, false, true]));
    assert!(has_repeat(&[true; 7]));
}

#[test]
fn days_to_next_run_finds_the_next_flagged_weekday() {
    let mut weekdays = [false; 7];
    assert_eq!(days_to_next_run(0, &weekdays), None);
    weekdays[3] = true;
    assert_eq!(days_to_next_run(0, &weekdays), Some(3));
    assert_eq!(days_to_next_run(2, &weekdays), Some(1));
    assert_eq!(days_to_next_run(4, &weekdays), Some(6));
    assert_eq!(days_to_next_run(6, &weekdays), Some(4));
    weekdays[5] = true;
    assert_eq!(days_to_next_run(3, &weekdays), Some(2));
    assert_eq!(days_to_next_run(5, &weekdays), Some(5));
    assert_eq!(days_to_next_run(u32::MAX, &[true; 7]), Some(1));
}

#[test]
fn days_to_next_run_never_looks_at_today() {
    let mut weekdays = [false; 7];
    weekdays[3] = true;
    assert_eq!(days_to_next_run(3, &weekdays), None);
    assert_eq!(days_to_next_run(10, &weekdays), None);
    weekdays[2] = true;
    assert_eq!(days_to_next_run(3, &weekdays), Some(6));
    for today in 0..7 {
        assert_eq!(days_to_next_run(today, &[true; 7]), Some(1));
        assert_eq!(days_to_next_run(today, &[false; 7]), None);
    }
}

#[test]
fn decide_keeps_a_task_that_is_ready_to_run() {
    let now = wednesday(WEDNESDAY_21H, 0);
    let schedule = Schedule { hour: 22, min: 0, sec: 0, weekdays: [false; 7] };
    assert_eq!(
        decide(ActivationState::ReadyToRun, &schedule, &now, Some(0)),
        Decision::Keep(ActivationState::ReadyToRun)
    );
}

#[test]
fn decide_makes_a_due_task_ready() {
    let now = wednesday(WEDNESDAY_21H, 0);
    let schedule = Schedule { hour: 21, min: 0, sec: 0, weekdays: [true; 7] };
    assert_eq!(
        decide(ActivationState::Scheduled(WEDNESDAY_21H), &schedule, &now, None),
        Decision::Keep(ActivationState::ReadyToRun)
    );
    assert_eq!(
        decide(ActivationState::Scheduled(WEDNESDAY_21H - 1), &schedule, &now, None),
        Decision::Keep(ActivationState::ReadyToRun)
    );
    assert_eq!(
        decide(ActivationState::Scheduled(WEDNESDAY_21H + 1), &schedule, &now, None),
        Decision::Keep(ActivationState::Scheduled(WEDNESDAY_21H + 1))
    );
}

#[test]
fn decide_schedules_for_today_when_the_time_is_ahead() {
    let now = wednesday(WEDNESDAY_21H, 0);
    let one_shot = Schedule { hour: 22, min: 0, sec: 0, weekdays: [false; 7] };
    let candidate = WEDNESDAY_21H + 3600;
    assert_eq!(
        decide(ActivationState::ToBeScheduled, &one_shot, &now, Some(candidate)),
        Decision::Keep(ActivationState::Scheduled(candidate))
    );
    let mut wednesdays = one_shot;
    wednesdays.weekdays[WEDNESDAY as usize] = true;
    assert_eq!(
        decide(ActivationState::ToBeScheduled, &wednesdays, &now, Some(candidate)),
        Decision::Keep(ActivationState::Scheduled(candidate))
    );
}

#[test]
fn decide_schedules_for_this_very_second_only_on_the_second() {
    let schedule = Schedule { hour: 21, min: 0, sec: 0, weekdays: [false; 7] };
    let on_the_second = wednesday(WEDNESDAY_21H, 0);
    assert_eq!(
        decide(ActivationState::ToBeScheduled, &schedule, &on_the_second, Some(WEDNESDAY_21H)),
        Decision::Keep(ActivationState::Scheduled(WEDNESDAY_21H))
    );
    let just_after = wednesday(WEDNESDAY_21H, 1);
    assert_eq!(
        decide(ActivationState::ToBeScheduled, &schedule, &just_after, Some(WEDNESDAY_21H)),
        Decision::Remove
    );
}

#[test]
fn decide_removes_a_one_shot_task_whose_time_has_passed() {
    let now = wednesday(WEDNESDAY_21H, 0);
    let schedule = Schedule { hour: 20, min: 59, sec: 59, weekdays: [false; 7] };
    assert_eq!(
        decide(ActivationState::ToBeScheduled, &schedule, &now, Some(WEDNESDAY_21H - 1)),
        Decision::Remove
    );
}

#[test]
fn decide_skips_to_the_next_flagged_day() {
    let now = wednesday(WEDNESDAY_21H, 0);
    let mut schedule = Schedule { hour: 22, min: 0, sec: 0, weekdays: [false; 7] };
    schedule.weekdays[4] = true;
    let candidate = WEDNESDAY_21H + 3600;
    assert_eq!(
        decide(ActivationState::ToBeScheduled, &schedule, &now, Some(candidate)),
        Decision::Keep(ActivationState::Scheduled(candidate + 2 * SECONDS_PER_DAY))
    );
    assert_eq!(SECONDS_PER_DAY, 86_400);
}

#[test]
fn decide_defers_a_passed_weekly_task_by_seven_days() {
    let now = wednesday(WEDNESDAY_21H, 0);
    let mut schedule = Schedule { hour: 20, min: 0, sec: 0, weekdays: [false; 7] };
    schedule.weekdays[WEDNESDAY as usize] = true;
    let candidate = WEDNESDAY_21H - 3600;
    assert_eq!(
        decide(ActivationState::ToBeScheduled, &schedule, &now, Some(candidate)),
        Decision::Keep(ActivationState::Scheduled(candidate + 604_800))
    );
}

#[test]
fn decide_leaves_a_task_without_a_local_time_unscheduled() {
    let now = wednesday(WEDNESDAY_21H, 0);
    let schedule = Schedule { hour: 22, min: 0, sec: 0, weekdays: [true; 7] };
    assert_eq!(
        decide(ActivationState::ToBeScheduled, &schedule, &now, None),
        Decision::Keep(ActivationState::ToBeScheduled)
    );
    let mut tomorrow = Schedule { hour: 22, min: 0, sec: 0, weekdays: [false; 7] };
    tomorrow.weekdays[3] = true;
    assert_eq!(
        decide(ActivationState::ToBeScheduled, &tomorrow, &now, Some(i64::MAX)),
        Decision::Keep(ActivationState::ToBeScheduled)
    );
}

#[test]
fn decide_removes_a_task_whose_schedule_names_no_time_of_day() {
    let now = wednesday(WEDNESDAY_21H, 0);
    for (hour, min, sec) in [(24, 0, 0), (0, 60, 0), (0, 0, 60), (-1, 0, 0), (0, -1, 0), (0, 0, -1)] {
        let schedule = Schedule { hour, min, sec, weekdays: [true; 7] };
        assert_eq!(
            decide(ActivationState::ToBeScheduled, &schedule, &now, None),
            Decision::Remove
        );
        assert_eq!(
            decide(ActivationState::ToBeScheduled, &schedule, &now, Some(WEDNESDAY_21H + 5)),
            Decision::Remove
        );
        assert_eq!(
            decide(ActivationState::Scheduled(WEDNESDAY_21H + 5), &schedule, &now, None),
            Decision::Keep(ActivationState::Scheduled(WEDNESDAY_21H + 5))
        );
    }
}

#[test]
fn one_shot_task_runs_once_and_is_removed() {
    let mut ecs = Ecs::new();
    let schedule = Schedule { hour: 22, min: 0, sec: 0, weekdays: [false; 7] };
    let task = new_action(&mut ecs, schedule);
    let at_22h = WEDNESDAY_21H + 3600;

    process_with(&mut ecs, &wednesday(WEDNESDAY_21H, 0), &vec![Some(at_22h)]);
    assert_eq!(state_of(&mut ecs, task), ActivationState::Scheduled(at_22h));

    let later = wednesday(at_22h + 1, 0);
    process_with(&mut ecs, &later, &vec![None]);
    assert_eq!(state_of(&mut ecs, task), ActivationState::ReadyToRun);

    *ecs.get_component::<ActivationState>(task).unwrap() = ActivationState::ToBeScheduled;
    process_with(&mut ecs, &later, &vec![Some(at_22h)]);
    assert!(!ecs.is_alive(task));
    assert_eq!(ecs.len(), 0);
}

#[test]
fn task_for_the_day_after_tomorrow_recurs_weekly() {
    let mut ecs = Ecs::new();
    let at_9h = WEDNESDAY_21H - 12 * 3600;
    let mut schedule = Schedule { hour: 9, min: 0, sec: 0, weekdays: [false; 7] };
    schedule.weekdays[4] = true;
    let task = new_action(&mut ecs, schedule);

    process_with(&mut ecs, &wednesday(at_9h, 0), &vec![Some(at_9h)]);
    let fired = at_9h + 2 * 86_400;
    assert_eq!(state_of(&mut ecs, task), ActivationState::Scheduled(fired));

    let friday = LocalTime::new(fired, 500, 2024, 1, 5, 4).unwrap();
    process_with(&mut ecs, &friday, &vec![None]);
    assert_eq!(state_of(&mut ecs, task), ActivationState::ReadyToRun);

    *ecs.get_component::<ActivationState>(task).unwrap() = ActivationState::ToBeScheduled;
    process_with(&mut ecs, &friday, &vec![Some(fired)]);
    assert_eq!(
        state_of(&mut ecs, task),
        ActivationState::Scheduled(fired + 7 * 86_400)
    );
}

#[test]
fn pass_removes_marked_tasks_and_keeps_the_columns_in_step() {
    let mut ecs = Ecs::new();
    let now = wednesday(WEDNESDAY_21H, 0);
    let past = Schedule { hour: 20, min: 0, sec: 0, weekdays: [false; 7] };
    let ahead = Schedule { hour: 22, min: 0, sec: 0, weekdays: [false; 7] };
    let gone_first = new_action(&mut ecs, past);
    let kept = new_action(&mut ecs, ahead);
    ecs.add_component(kept, LcnCommand { id: 7 });
    let gone_second = new_action(&mut ecs, past);
    let bare = ecs.new_entity();
    let last = new_action(&mut ecs, ahead);
    ecs.add_component(last, LcnCommand { id: 9 });

    let candidates = vec![
        Some(WEDNESDAY_21H - 3600),
        Some(WEDNESDAY_21H + 3600),
        Some(WEDNESDAY_21H - 3600),
        None,
        Some(WEDNESDAY_21H + 3600),
    ];
    process_with(&mut ecs, &now, &candidates);

    assert_eq!(ecs.len(), 3);
    assert!(!ecs.is_alive(gone_first));
    assert!(!ecs.is_alive(gone_second));
    assert_eq!(ecs.entity_at(0), kept);
    assert_eq!(ecs.entity_at(1), bare);
    assert_eq!(ecs.entity_at(2), last);
    assert_eq!(
        state_of(&mut ecs, kept),
        ActivationState::Scheduled(WEDNESDAY_21H + 3600)
    );
    assert_eq!(ecs.get_component::<LcnCommand>(kept).unwrap().id, 7);
    assert_eq!(ecs.get_component::<LcnCommand>(last).unwrap().id, 9);
    assert_eq!(ecs.get_component::<Schedule>(last).unwrap().hour, 22);
    assert!(ecs.get_component::<ActivationState>(bare).is_none());
    assert_eq!(ecs.components().schedules.len(), 3);
    assert_eq!(ecs.components().activation_states.len(), 3);
    assert_eq!(ecs.components().lcn_commands.len(), 3);
}

#[test]
fn pass_treats_missing_candidates_as_absent() {
    let mut ecs = Ecs::new();
    let schedule = Schedule { hour: 22, min: 0, sec: 0, weekdays: [false; 7] };
    let task = new_action(&mut ecs, schedule);
    process_with(&mut ecs, &wednesday(WEDNESDAY_21H, 0), &Vec::new());
    assert_eq!(state_of(&mut ecs, task), ActivationState::ToBeScheduled);
}

#[test]
fn pass_skips_entities_without_a_schedule() {
    let mut ecs = Ecs::new();
    let entity = ecs.new_entity();
    ecs.add_component(entity, ActivationState::Scheduled(0));
    process_with(&mut ecs, &wednesday(WEDNESDAY_21H, 0), &vec![None]);
    assert_eq!(state_of(&mut ecs, entity), ActivationState::Scheduled(0));
}

#[test]
fn second_pass_at_the_same_moment_changes_nothing() {
    let mut ecs = Ecs::new();
    let now = wednesday(WEDNESDAY_21H, 0);
    let past = Schedule { hour: 20, min: 0, sec: 0, weekdays: [false; 7] };
    let ahead = Schedule { hour: 22, min: 0, sec: 0, weekdays: [false; 7] };
    let daily = Schedule { hour: 20, min: 0, sec: 0, weekdays: [true; 7] };
    new_action(&mut ecs, past);
    let first = new_action(&mut ecs, ahead);
    let second = new_action(&mut ecs, daily);
    let due = new_action(&mut ecs, daily);
    ecs.add_component(due, ActivationState::Scheduled(WEDNESDAY_21H));

    let earlier = Some(WEDNESDAY_21H - 3600);
    let later = Some(WEDNESDAY_21H + 3600);
    process_with(&mut ecs, &now, &vec![earlier, later, earlier, earlier]);
    let after_one = (
        ecs.len(),
        state_of(&mut ecs, first),
        state_of(&mut ecs, second),
        state_of(&mut ecs, due),
    );
    assert_eq!(
        after_one,
        (
            3,
            ActivationState::Scheduled(WEDNESDAY_21H + 3600),
            ActivationState::Scheduled(WEDNESDAY_21H - 3600 + 86_400),
            ActivationState::ReadyToRun
        )
    );

    process_with(&mut ecs, &now, &vec![later, earlier, earlier]);
    let after_two = (
        ecs.len(),
        state_of(&mut ecs, first),
        state_of(&mut ecs, second),
        state_of(&mut ecs, due),
    );
    assert_eq!(after_one, after_two);
}

#[test]
fn process_internal_asks_the_local_calendar() {
    let mut ecs = Ecs::new();
    let now = chrono::Local::now();
    let mut schedule = to_schedule(now);
    schedule.weekdays = [true; 7];
    let task = new_action(&mut ecs, schedule);
    let mut on_the_second = local(now);
    on_the_second.nanos = 0;
    process_internal(&mut ecs, &on_the_second).unwrap();
    assert_eq!(
        state_of(&mut ecs, task),
        ActivationState::Scheduled(now.timestamp())
    );
}

#[test]
fn process_internal_removes_a_task_whose_schedule_names_no_time_of_day() {
    let mut ecs = Ecs::new();
    let now = local(chrono::Local::now());
    let negative = new_action(&mut ecs, Schedule { hour: -1, min: 0, sec: 0, weekdays: [true; 7] });
    let too_late = new_action(&mut ecs, Schedule { hour: 24, min: 0, sec: 0, weekdays: [true; 7] });
    assert_eq!(process_internal(&mut ecs, &now), Ok(()));
    assert!(!ecs.is_alive(negative));
    assert!(!ecs.is_alive(too_late));
    assert_eq!(ecs.len(), 0);
}

#[test]
fn process_internal_names_a_task_without_a_local_time_and_does_nothing() {
    let mut ecs = Ecs::new();
    let no_such_day = LocalTime::new(WEDNESDAY_21H, 0, 2023, 2, 30, WEDNESDAY).unwrap();
    let due = new_action(&mut ecs, Schedule { hour: 1, min: 0, sec: 0, weekdays: [true; 7] });
    ecs.add_component(due, ActivationState::Scheduled(WEDNESDAY_21H - 1));
    let task = new_action(&mut ecs, Schedule { hour: 22, min: 0, sec: 0, weekdays: [true; 7] });
    assert_eq!(
        process_internal(&mut ecs, &no_such_day),
        Err(Unschedulable { entity: task })
    );
    assert_eq!(
        state_of(&mut ecs, due),
        ActivationState::Scheduled(WEDNESDAY_21H - 1)
    );
    assert_eq!(state_of(&mut ecs, task), ActivationState::ToBeScheduled);
    assert_eq!(ecs.len(), 2);
    assert_eq!(Unschedulable { entity: task }.message(), "No such local time");
}

#[test]
fn process_internal_leaves_no_task_waiting() {
    let mut ecs = Ecs::new();
    let now = chrono::Local::now();
    let tasks = [
        new_action(&mut ecs, to_schedule(now)),
        new_action(&mut ecs, Schedule { hour: 12, min: 0, sec: 0, weekdays: [true; 7] }),
        new_action(&mut ecs, Schedule { hour: 99, min: 0, sec: 0, weekdays: [false; 7] }),
    ];
    assert_eq!(process_internal(&mut ecs, &local(now)), Ok(()));
    for task in tasks {
        if ecs.is_alive(task) {
            assert!(matches!(state_of(&mut ecs, task), ActivationState::Scheduled(_)));
        }
    }
    assert!(ecs.is_alive(tasks[1]) && !ecs.is_alive(tasks[2]));
}

#[test]
fn process_reads_the_clock() {
    let mut ecs = Ecs::new();
    let before = chrono::Local::now();
    let task = new_action(
        &mut ecs,
        Schedule { hour: before.hour() as i8, min: before.minute() as i8, sec: 0, weekdays: [true; 7] },
    );
    ecs.add_component(task, ActivationState::Scheduled(before.timestamp() - 10));
    let waiting = new_action(&mut ecs, Schedule::default());
    ecs.add_component(waiting, ActivationState::Scheduled(before.timestamp() + 1000));
    process(&mut ecs).unwrap();
    assert_eq!(state_of(&mut ecs, task), ActivationState::ReadyToRun);
    assert_eq!(
        state_of(&mut ecs, waiting),
        ActivationState::Scheduled(before.timestamp() + 1000)
    );
}
