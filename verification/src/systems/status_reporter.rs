//! The read-only summary of every task, for reporting.

use crate::components::{ActivationState, LcnCommand, Schedule};
use crate::world::{World, WorldView};
use vstd::prelude::*;
use vstd::string::*;

verus! {

/// The summary of one task.
#[derive(Debug)]
pub struct TaskStatus {
    pub id: i64,
    pub activation_time: String,
    pub repeat_days: String,
    pub state: String,
    pub cmd_id: i32,
}

/// The mathematical content of a [`TaskStatus`].
pub struct TaskStatusView {
    pub id: int,
    pub activation_time: Seq<char>,
    pub repeat_days: Seq<char>,
    pub state: Seq<char>,
    pub cmd_id: int,
}

impl View for TaskStatus {
    type V = TaskStatusView;

    open spec fn view(&self) -> TaskStatusView {
        TaskStatusView {
            id: self.id as int,
            activation_time: self.activation_time@,
            repeat_days: self.repeat_days@,
            state: self.state@,
            cmd_id: self.cmd_id as int,
        }
    }
}

/// The character of a decimal digit.
pub open spec fn digit_char(d: int) -> char {
    if d == 0 {
        '0'
    } else if d == 1 {
        '1'
    } else if d == 2 {
        '2'
    } else if d == 3 {
        '3'
    } else if d == 4 {
        '4'
    } else if d == 5 {
        '5'
    } else if d == 6 {
        '6'
    } else if d == 7 {
        '7'
    } else if d == 8 {
        '8'
    } else {
        '9'
    }
}

/// The decimal digits of a natural number, without leading zeros.
pub open spec fn decimal(n: nat) -> Seq<char>
    decreases n,
{
    if n < 10 {
        seq![digit_char(n as int)]
    } else {
        decimal(n / 10).push(digit_char((n % 10) as int))
    }
}

/// A number written in at least two characters: a single digit gets a
/// leading zero, a negative number its sign.
pub open spec fn two_digits(n: int) -> Seq<char> {
    if n < 0 {
        seq!['-'] + decimal((-n) as nat)
    } else if n < 10 {
        seq!['0'] + decimal(n as nat)
    } else {
        decimal(n as nat)
    }
}

/// The time of day of a schedule as `HH:MM`.
pub open spec fn activation_time_text(schedule: Schedule) -> Seq<char> {
    two_digits(schedule.hour as int) + seq![':'] + two_digits(schedule.min as int)
}

/// The name of a weekday if it is flagged, nothing otherwise.
pub open spec fn day_text(flagged: bool, name: Seq<char>) -> Seq<char> {
    if flagged {
        name
    } else {
        Seq::empty()
    }
}

/// The names of the flagged weekdays, each but Monday's with `" ,"` before
/// it.
pub open spec fn weekdays_joined(weekdays: [bool; 7]) -> Seq<char> {
    day_text(weekdays[0], "Mon"@) + day_text(weekdays[1], " ,Tue"@) + day_text(
        weekdays[2],
        " ,Wed"@,
    ) + day_text(weekdays[3], " ,Thu"@) + day_text(weekdays[4], " ,Fri"@) + day_text(
        weekdays[5],
        " ,Sat"@,
    ) + day_text(weekdays[6], " ,Sun"@)
}

/// The names of the flagged weekdays, separated by `" ,"`.
pub open spec fn weekdays_text(weekdays: [bool; 7]) -> Seq<char> {
    let all = weekdays_joined(weekdays);
    if all.len() >= 2 && all[0] == ' ' && all[1] == ',' {
        all.skip(2)
    } else {
        all
    }
}

/// The name of an activation state.
pub open spec fn state_text(state: ActivationState) -> Seq<char> {
    match state {
        ActivationState::ToBeScheduled => "To be scheduled"@,
        ActivationState::Scheduled(_) => "Scheduled"@,
        ActivationState::ReadyToRun => "Ready to run"@,
    }
}

fn digit_str(d: u8) -> (s: &'static str)
    requires
        d < 10,
    ensures
        s@ == seq![digit_char(d as int)],
{
    proof {
        reveal_strlit("0");
        reveal_strlit("1");
        reveal_strlit("2");
        reveal_strlit("3");
        reveal_strlit("4");
        reveal_strlit("5");
        reveal_strlit("6");
        reveal_strlit("7");
        reveal_strlit("8");
        reveal_strlit("9");
    }
    let s = match d {
        0 => "0",
        1 => "1",
        2 => "2",
        3 => "3",
        4 => "4",
        5 => "5",
        6 => "6",
        7 => "7",
        8 => "8",
        _ => "9",
    };
    assert(s@ =~= seq![digit_char(d as int)]);
    s
}

/// Appends `n` in at least two characters.
fn push_two_digits(text: &mut String, n: i8)
    ensures
        final(text)@ == old(text)@ + two_digits(n as int),
{
    let magnitude: u8 = if n < 0 {
        text.append("-");
        (-(n as i16)) as u8
    } else {
        if n < 10 {
            text.append("0");
        }
        n as u8
    };
    proof {
        reveal_strlit("-");
        reveal_strlit("0");
    }
    let ghost prefix = text@;
    if magnitude >= 100 {
        text.append(digit_str(magnitude / 100));
    }
    if magnitude >= 10 {
        text.append(digit_str((magnitude / 10) % 10));
    }
    text.append(digit_str(magnitude % 10));
    proof {
        let m = magnitude as nat;
        reveal_with_fuel(decimal, 3);
        assert(text@ =~= prefix + decimal(m));
        assert(text@ =~= old(text)@ + two_digits(n as int));
    }
}

pub fn state_to_string(state: &ActivationState) -> (s: String)
    ensures
        s@ == state_text(*state),
{
    match state {
        ActivationState::ToBeScheduled => String::from_str("To be scheduled"),
        ActivationState::Scheduled(_) => String::from_str("Scheduled"),
        ActivationState::ReadyToRun => String::from_str("Ready to run"),
    }
}

/// Appends the name of a weekday if it is flagged.
fn push_day(text: &mut String, flagged: bool, name: &str)
    ensures
        final(text)@ == old(text)@ + day_text(flagged, name@),
{
    if flagged {
        text.append(name);
    } else {
        assert(text@ + Seq::<char>::empty() =~= text@);
    }
}

pub fn weekdays_to_string(weekdays: &[bool; 7]) -> (s: String)
    ensures
        s@ == weekdays_text(*weekdays),
{
    let mut result = String::new();
    push_day(&mut result, weekdays[0], "Mon");
    assert(result@ =~= day_text(weekdays[0], "Mon"@));
    push_day(&mut result, weekdays[1], " ,Tue");
    push_day(&mut result, weekdays[2], " ,Wed");
    push_day(&mut result, weekdays[3], " ,Thu");
    push_day(&mut result, weekdays[4], " ,Fri");
    push_day(&mut result, weekdays[5], " ,Sat");
    push_day(&mut result, weekdays[6], " ,Sun");
    assert(result@ == weekdays_joined(*weekdays));
    let text = result.as_str();
    let len = text.unicode_len();
    if len >= 2 && text.get_char(0) == ' ' && text.get_char(1) == ',' {
        let stripped = String::from_str(text.substring_char(2, len));
        assert(stripped@ =~= result@.skip(2));
        stripped
    } else {
        result
    }
}

/// The summary of the task `entity` with the given components.
pub open spec fn summary(
    id: int,
    state: ActivationState,
    schedule: Schedule,
    command: LcnCommand,
) -> TaskStatusView {
    TaskStatusView {
        id,
        activation_time: activation_time_text(schedule),
        repeat_days: weekdays_text(schedule.weekdays),
        state: state_text(state),
        cmd_id: command.id as int,
    }
}

/// Whether slot `i` carries a state, a schedule and a command.
pub open spec fn is_task(w: WorldView, i: int) -> bool {
    &&& w.columns.activation_states[i] is Some
    &&& w.columns.schedules[i] is Some
    &&& w.columns.lcn_commands[i] is Some
}

/// The summaries of the tasks among the first `upto` slots, in slot order.
pub open spec fn status_upto(w: WorldView, upto: int) -> Seq<TaskStatusView>
    decreases upto,
{
    if upto <= 0 {
        Seq::empty()
    } else if is_task(w, upto - 1) {
        status_upto(w, upto - 1).push(
            summary(
                w.entities[upto - 1].ident(),
                w.columns.activation_states[upto - 1]->0,
                w.columns.schedules[upto - 1]->0,
                w.columns.lcn_commands[upto - 1]->0,
            ),
        )
    } else {
        status_upto(w, upto - 1)
    }
}

/// The summaries of all tasks: one for every entity that carries a state, a
/// schedule and a command, in slot order.
pub open spec fn status(w: WorldView) -> Seq<TaskStatusView> {
    status_upto(w, w.entities.len() as int)
}

/// The views of a list of summaries.
pub open spec fn report_view(report: Seq<TaskStatus>) -> Seq<TaskStatusView> {
    report.map_values(|t: TaskStatus| t@)
}

/// Reports every task of the world. The world is left as it is.
pub fn get_status(world: &World) -> (report: Vec<TaskStatus>)
    requires
        world@.wf(),
    ensures
        report_view(report@) == status(world@),
{
    let mut report = Vec::<TaskStatus>::new();
    let n = world.len();
    let mut i: usize = 0;
    assert(report_view(report@) =~= status_upto(world@, 0));
    while i < n
        invariant
            world@.wf(),
            n == world@.entities.len(),
            i <= n,
            report_view(report@) == status_upto(world@, i as int),
        decreases n - i,
    {
        let components = world.components();
        let state = components.activation_states[i];
        let schedule = components.schedules[i];
        let cmd = components.lcn_commands[i];
        if let (Some(state), Some(schedule), Some(cmd)) = (state, schedule, cmd) {
            let id = world.entity_at(i).id();
            let mut activation_time = String::new();
            push_two_digits(&mut activation_time, schedule.hour);
            activation_time.append(":");
            push_two_digits(&mut activation_time, schedule.min);
            proof {
                reveal_strlit(":");
                assert(activation_time@ =~= activation_time_text(schedule));
            }
            let cmd_id = cmd.id;
            let repeat_days = weekdays_to_string(&schedule.weekdays);
            let state = state_to_string(&state);
            let ghost before = report@;
            let entry = TaskStatus { id, activation_time, repeat_days, state, cmd_id };
            report.push(entry);
            assert(report_view(report@) =~= report_view(before).push(entry@));
        }
        i += 1;
    }
    report
}

} // verus!
