use home_automation::components::{ActivationState, LcnCommand, Schedule};
use home_automation::requests::{Request, Response, TaskRequest};
use home_automation::systems::request_processor::{
    create_lcn_task, get_seconds_to_next_execution, handle_request, has_overdue, process,
    seconds_to_next_execution, ControlError, Event,
};
use home_automation::systems::status_reporter::{
    get_status, state_to_string, weekdays_to_string,
};
use home_automation::world::{Entity, World};

fn task(hour: i8, min: i8, id: i32) -> TaskRequest {
    TaskRequest {
        schedule: Schedule { hour, min, sec: 0, weekdays: [false; 7] },
        cmd: LcnCommand { id },
    }
}

fn with_state(world: &mut World, state: ActivationState) -> Entity {
    let entity = world.new_entity();
    world.add_component(entity, state);
    entity
}

#[test]
fn create_lcn_task_gives_the_three_components() {
    let mut world = World::new();
    let entity = create_lcn_task(&mut world, task(22, 30, 5));
    assert_eq!(entity.id(), 0);
    assert!(world.is_alive(entity));
    assert_eq!(
        *world.get_component::<ActivationState>(entity).unwrap(),
        ActivationState::ToBeScheduled
    );
    assert_eq!(world.get_component::<Schedule>(entity).unwrap().hour, 22);
    assert_eq!(world.get_component::<Schedule>(entity).unwrap().min, 30);
    assert_eq!(world.get_component::<LcnCommand>(entity).unwrap().id, 5);
    let next = create_lcn_task(&mut world, task(1, 2, 3));
    assert_eq!(next.id(), 1);
    assert_eq!(world.len(), 2);
}

#[test]
fn remove_task_of_an_unknown_entity_changes_nothing() {
    let mut world = World::new();
    let entity = create_lcn_task(&mut world, task(22, 30, 5));
    let response = handle_request(&mut world, Request::RemoveTask(Entity::new(17)));
    assert!(matches!(response, Response::RemoveTask(false)));
    assert_eq!(world.len(), 1);
    assert!(world.is_alive(entity));
    assert_eq!(world.get_component::<LcnCommand>(entity).unwrap().id, 5);
}

#[test]
fn remove_task_removes_a_live_entity_once() {
    let mut world = World::new();
    let entity = create_lcn_task(&mut world, task(22, 30, 5));
    let response = handle_request(&mut world, Request::RemoveTask(entity));
    assert!(matches!(response, Response::RemoveTask(true)));
    assert!(!world.is_alive(entity));
    let again = handle_request(&mut world, Request::RemoveTask(entity));
    assert!(matches!(again, Response::RemoveTask(false)));
}

#[test]
fn status_right_after_a_new_task_shows_it_to_be_scheduled() {
    let mut world = World::new();
    let entity = match handle_request(&mut world, Request::NewTask(task(7, 5, 12))) {
        Response::NewTask(entity) => entity,
        other => panic!("unexpected response {:?}", other),
    };
    let report = match handle_request(&mut world, Request::GetStatus) {
        Response::GetStatus(report) => report,
        other => panic!("unexpected response {:?}", other),
    };
    assert_eq!(report.len(), 1);
    assert_eq!(report[0].id, entity.id());
    assert_eq!(report[0].activation_time, "07:05");
    assert_eq!(report[0].repeat_days, "");
    assert_eq!(report[0].state, "To be scheduled");
    assert_eq!(report[0].cmd_id, 12);
}

#[test]
fn identifiers_are_not_reused() {
    let mut world = World::new();
    let first = create_lcn_task(&mut world, task(1, 0, 1));
    handle_request(&mut world, Request::RemoveTask(first));
    let second = create_lcn_task(&mut world, task(1, 0, 1));
    assert_ne!(first, second);
    assert_eq!(second.id(), 1);
    assert!(!world.is_full());
}

#[test]
fn process_answers_a_request() {
    let mut world = World::new();
    let response = process(&mut world, Event::Request(Request::NewTask(task(1, 0, 1))));
    assert!(matches!(response, Ok(Some(Response::NewTask(e))) if e.id() == 0));
    assert_eq!(world.len(), 1);
}

#[test]
fn process_lets_a_timeout_pass() {
    let mut world = World::new();
    create_lcn_task(&mut world, task(1, 0, 1));
    assert!(matches!(process(&mut world, Event::TimedOut), Ok(None)));
    assert_eq!(world.len(), 1);
}

#[test]
fn process_fails_when_the_senders_are_gone() {
    let mut world = World::new();
    let result = process(&mut world, Event::Disconnected);
    assert!(matches!(result, Err(ControlError::Disconnected)));
    assert_eq!(ControlError::Disconnected.message(), "Producer thread diconnected");
    assert_eq!(
        ControlError::Overdue.message(),
        "task should be executed in the past but is not ready to run"
    );
}

#[test]
fn wait_is_unlimited_without_pending_tasks() {
    let mut world = World::new();
    assert_eq!(seconds_to_next_execution(&world, 100), None);
    world.new_entity();
    let entity = world.new_entity();
    world.add_component(entity, Schedule::default());
    assert_eq!(seconds_to_next_execution(&world, 100), None);
    assert!(!has_overdue(&world, 100));
}

#[test]
fn wait_is_zero_when_a_task_waits_to_be_scheduled() {
    let mut world = World::new();
    with_state(&mut world, ActivationState::ToBeScheduled);
    assert_eq!(seconds_to_next_execution(&world, 100), Some(0));
    with_state(&mut world, ActivationState::Scheduled(500));
    assert_eq!(seconds_to_next_execution(&world, 100), Some(0));
    assert_eq!(seconds_to_next_execution(&world, 1000), Some(0));
    assert!(!has_overdue(&world, 1000));
}

#[test]
fn wait_lasts_until_the_earliest_scheduled_task() {
    let mut world = World::new();
    with_state(&mut world, ActivationState::Scheduled(500));
    with_state(&mut world, ActivationState::Scheduled(130));
    world.new_entity();
    with_state(&mut world, ActivationState::Scheduled(131));
    assert_eq!(seconds_to_next_execution(&world, 100), Some(30));
    assert_eq!(seconds_to_next_execution(&world, 130), Some(0));
    assert_eq!(seconds_to_next_execution(&world, -70), Some(200));
}

#[test]
fn wait_spans_the_whole_range_of_timestamps() {
    let mut world = World::new();
    with_state(&mut world, ActivationState::Scheduled(i64::MAX));
    assert_eq!(seconds_to_next_execution(&world, i64::MIN), Some(u64::MAX));
}

#[test]
fn wait_is_zero_when_a_task_is_ready() {
    let mut world = World::new();
    with_state(&mut world, ActivationState::Scheduled(500));
    with_state(&mut world, ActivationState::ReadyToRun);
    assert_eq!(seconds_to_next_execution(&world, 100), Some(0));
    assert_eq!(seconds_to_next_execution(&world, 1000), Some(0));
    assert!(!has_overdue(&world, 1000));
}

#[test]
fn a_task_scheduled_for_the_past_is_overdue() {
    let mut world = World::new();
    with_state(&mut world, ActivationState::Scheduled(500));
    with_state(&mut world, ActivationState::Scheduled(99));
    assert!(has_overdue(&world, 100));
    assert!(!has_overdue(&world, 99));
    assert!(!has_overdue(&world, 98));
    assert_eq!(seconds_to_next_execution(&world, 99), Some(0));
}

#[test]
fn wait_is_measured_from_the_clock() {
    let mut world = World::new();
    assert_eq!(get_seconds_to_next_execution(&world), Ok(None));
    let now = chrono::Local::now().timestamp();
    with_state(&mut world, ActivationState::Scheduled(now + 1000));
    let wait = get_seconds_to_next_execution(&world).unwrap().unwrap();
    assert!(990 <= wait && wait <= 1000);
    with_state(&mut world, ActivationState::Scheduled(now - 1000));
    assert_eq!(get_seconds_to_next_execution(&world), Err(ControlError::Overdue));
    with_state(&mut world, ActivationState::ToBeScheduled);
    assert_eq!(get_seconds_to_next_execution(&world), Ok(Some(0)));
}

#[test]
fn status_lists_complete_tasks_in_slot_order() {
    let mut world = World::new();
    let first = create_lcn_task(&mut world, task(23, 59, 1));
    let incomplete = world.new_entity();
    world.add_component(incomplete, ActivationState::ReadyToRun);
    world.add_component(incomplete, Schedule::default());
    let second = create_lcn_task(
        &mut world,
        TaskRequest {
            schedule: Schedule {
                hour: 0,
                min: 10,
                sec: 30,
                weekdays: [true, false, true, false, false, false, true],
            },
            cmd: LcnCommand { id: -4 },
        },
    );
    world.add_component(first, ActivationState::Scheduled(1234));
    world.add_component(second, ActivationState::ReadyToRun);

    let report = get_status(&world);
    assert_eq!(report.len(), 2);
    assert_eq!(report[0].id, first.id());
    assert_eq!(report[0].activation_time, "23:59");
    assert_eq!(report[0].repeat_days, "");
    assert_eq!(report[0].state, "Scheduled");
    assert_eq!(report[0].cmd_id, 1);
    assert_eq!(report[1].id, second.id());
    assert_eq!(report[1].activation_time, "00:10");
    assert_eq!(report[1].repeat_days, "Mon ,Wed ,Sun");
    assert_eq!(report[1].state, "Ready to run");
    assert_eq!(report[1].cmd_id, -4);
}

#[test]
fn status_writes_any_number_in_at_least_two_characters() {
    let mut world = World::new();
    for (hour, min) in [(9, 10), (-5, 100), (-128, 127), (-10, 99), (0, -1)] {
        create_lcn_task(&mut world, task(hour, min, 0));
    }
    let times: Vec<String> = get_status(&world).into_iter().map(|s| s.activation_time).collect();
    assert_eq!(times, vec!["09:10", "-5:100", "-128:127", "-10:99", "00:-1"]);
    for (index, (hour, min)) in [(9i8, 10i8), (-5, 100), (-128, 127), (-10, 99), (0, -1)]
        .into_iter()
        .enumerate()
    {
        assert_eq!(times[index], format!("{:02}:{:02}", hour, min));
    }
}

#[test]
fn weekdays_are_joined_by_space_and_comma() {
    assert_eq!(weekdays_to_string(&[false; 7]), "");
    assert_eq!(weekdays_to_string(&[true, false, false, false, false, false, false]), "Mon");
    assert_eq!(weekdays_to_string(&[false, true, false, false, false, false, false]), "Tue");
    assert_eq!(weekdays_to_string(&[true, true, false, false, false, false, false]), "Mon ,Tue");
    assert_eq!(
        weekdays_to_string(&[false, false, true, false, true, true, false]),
        "Wed ,Fri ,Sat"
    );
    assert_eq!(
        weekdays_to_string(&[true; 7]),
        "Mon ,Tue ,Wed ,Thu ,Fri ,Sat ,Sun"
    );
    assert_eq!(weekdays_to_string(&[false, false, false, true, false, false, true]), "Thu ,Sun");
}

#[test]
fn states_have_names() {
    assert_eq!(state_to_string(&ActivationState::ToBeScheduled), "To be scheduled");
    assert_eq!(state_to_string(&ActivationState::Scheduled(5)), "Scheduled");
    assert_eq!(state_to_string(&ActivationState::ReadyToRun), "Ready to run");
}
