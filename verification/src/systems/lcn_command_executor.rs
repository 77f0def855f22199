//! What the command executor decides: which commands are due, and what a
//! successful execution does to the task. Sending the commands is the
//! caller's part.

use crate::components::{ActivationState, LcnCommand};
use crate::world::{Entity, World, WorldView};
use vstd::prelude::*;
use vstd::string::*;
use vstd::utf8::is_char_boundary;

verus! {

/// Whether slot `i` holds a task that is ready to run and has a command.
pub open spec fn is_ready(w: WorldView, i: int) -> bool {
    &&& w.columns.activation_states[i] == Some(ActivationState::ReadyToRun)
    &&& w.columns.lcn_commands[i] is Some
}

/// Whether any task is ready to run and has a command.
pub open spec fn has_ready_command(w: WorldView) -> bool {
    exists|i: int| 0 <= i < w.entities.len() && is_ready(w, i)
}

/// The commands among the first `upto` slots whose tasks are ready to run,
/// each with its entity, in slot order.
pub open spec fn ready_upto(w: WorldView, upto: int) -> Seq<(Entity, LcnCommand)>
    decreases upto,
{
    if upto <= 0 {
        Seq::empty()
    } else if is_ready(w, upto - 1) {
        ready_upto(w, upto - 1).push((w.entities[upto - 1], w.columns.lcn_commands[upto - 1]->0))
    } else {
        ready_upto(w, upto - 1)
    }
}

/// The world after the command of `entity` was executed: a task that was
/// ready to run is to be scheduled again, and nothing else changes.
pub open spec fn executed(w: WorldView, entity: Entity) -> WorldView {
    if w.component::<ActivationState>(entity) == Some(ActivationState::ReadyToRun) {
        w.set_component(entity, Some(ActivationState::ToBeScheduled))
    } else {
        w
    }
}

pub fn has_command_to_execute(world: &World) -> (b: bool)
    requires
        world@.wf(),
    ensures
        b == has_ready_command(world@),
{
    let components = world.components();
    let n = world.len();
    let mut i: usize = 0;
    while i < n
        invariant
            world@.wf(),
            components@ == world@.columns,
            n == world@.entities.len(),
            i <= n,
            forall|j: int| 0 <= j < i ==> !is_ready(world@, j),
        decreases n - i,
    {
        let ready = match components.activation_states[i] {
            Some(ActivationState::ReadyToRun) => true,
            _ => false,
        };
        if ready && components.lcn_commands[i].is_some() {
            assert(is_ready(world@, i as int));
            return true;
        }
        i += 1;
    }
    false
}

/// The commands to execute now, each with the entity of its task.
pub fn ready_commands(world: &World) -> (commands: Vec<(Entity, LcnCommand)>)
    requires
        world@.wf(),
    ensures
        commands@ == ready_upto(world@, world@.entities.len() as int),
{
    let components = world.components();
    let n = world.len();
    let mut commands: Vec<(Entity, LcnCommand)> = Vec::new();
    let mut i: usize = 0;
    assert(commands@ =~= ready_upto(world@, 0));
    while i < n
        invariant
            world@.wf(),
            components@ == world@.columns,
            n == world@.entities.len(),
            i <= n,
            commands@ == ready_upto(world@, i as int),
        decreases n - i,
    {
        let ready = match components.activation_states[i] {
            Some(ActivationState::ReadyToRun) => true,
            _ => false,
        };
        if ready {
            if let Some(command) = components.lcn_commands[i] {
                commands.push((world.entity_at(i), command));
            }
        }
        i += 1;
    }
    commands
}

/// Records that the command of `entity` was executed.
pub fn command_executed(world: &mut World, entity: Entity)
    requires
        old(world)@.wf(),
    ensures
        final(world)@ == executed(old(world)@, entity),
        final(world)@.wf(),
{
    let ready = match world.read_component::<ActivationState>(entity) {
        Some(ActivationState::ReadyToRun) => true,
        _ => false,
    };
    if ready {
        world.add_component(entity, ActivationState::ToBeScheduled);
    }
}

/// How far behind the start of the word `mdl` its number begins.
pub const MDL_OFFSET: usize = 10;

/// The bytes of the word `mdl`.
pub open spec fn mdl_word() -> Seq<u8> {
    seq![109u8, 100u8, 108u8]
}

/// The bytes of `:true}}`, with which the answer to an accepted command
/// ends.
pub open spec fn success_token() -> Seq<u8> {
    seq![58u8, 116u8, 114u8, 117u8, 101u8, 125u8, 125u8]
}

/// Whether `word` stands in `text` at position `i`.
pub open spec fn occurs_at(text: Seq<u8>, word: Seq<u8>, i: int) -> bool {
    &&& 0 <= i
    &&& i + word.len() <= text.len()
    &&& text.subrange(i, i + word.len()) == word
}

/// The first position at or after `from` where `word` stands in `text`.
pub open spec fn find_from(text: Seq<u8>, word: Seq<u8>, from: int) -> Option<int>
    decreases text.len() - from,
{
    if from < 0 || from >= text.len() || from + word.len() > text.len() {
        None
    } else if occurs_at(text, word, from) {
        Some(from)
    } else {
        find_from(text, word, from + 1)
    }
}

/// Whether the byte is a decimal digit.
pub open spec fn is_digit(b: u8) -> bool {
    48 <= b <= 57
}

/// The number of decimal digits that stand in a row from `from` on.
pub open spec fn digits_from(text: Seq<u8>, from: int) -> int
    decreases text.len() - from,
{
    if 0 <= from < text.len() && is_digit(text[from]) {
        1 + digits_from(text, from + 1)
    } else {
        0
    }
}

/// The number that a run of decimal digits writes.
pub open spec fn decimal_value(digits: Seq<u8>) -> nat
    decreases digits.len(),
{
    if digits.len() == 0 {
        0
    } else {
        10 * decimal_value(digits.drop_last()) + (digits.last() - 48) as nat
    }
}

/// The number that follows the first `mdl` of a page: the decimal digits
/// that start `MDL_OFFSET` bytes behind the start of the word. There is none
/// if the word is missing, if that place lies outside the page or inside a
/// character, if no digit stands there, or if the number is too large.
pub open spec fn parse_mdl_spec(page: Seq<u8>) -> Option<i32> {
    match find_from(page, mdl_word(), 0) {
        None => None,
        Some(i) => {
            let start = i + MDL_OFFSET;
            let count = digits_from(page, start);
            let value = decimal_value(page.subrange(start, start + count));
            if start > page.len() || !is_char_boundary(page, start) || count == 0 || value
                > i32::MAX {
                None
            } else {
                Some(value as i32)
            }
        },
    }
}

/// The run of digits from `from` on ends at `end`.
proof fn lemma_digits_from(text: Seq<u8>, from: int, end: int)
    requires
        0 <= from <= end <= text.len(),
        forall|k: int| from <= k < end ==> is_digit(#[trigger] text[k]),
        end == text.len() || !is_digit(text[end]),
    ensures
        digits_from(text, from) == end - from,
    decreases end - from,
{
    if from < end {
        lemma_digits_from(text, from + 1, end);
    }
}

/// Reads the number that follows the first `mdl` of a page.
pub fn parse_mdl(html: &str) -> (r: Option<i32>)
    ensures
        r == parse_mdl_spec(html.spec_bytes()),
{
    let bytes = html.as_bytes();
    let ghost page = bytes@;
    let len = bytes.len();
    let mut i: usize = 0;
    let mut found = false;
    while !found && len >= 3 && i <= len - 3
        invariant
            page == bytes@,
            len == page.len(),
            i <= len,
            find_from(page, mdl_word(), 0) == find_from(page, mdl_word(), i as int),
            found ==> occurs_at(page, mdl_word(), i as int),
        decreases len - i + (if found { 0int } else { 1int }),
    {
        if bytes[i] == 109 && bytes[i + 1] == 100 && bytes[i + 2] == 108 {
            assert(page.subrange(i as int, i + 3) =~= mdl_word());
            found = true;
        } else {
            assert(!occurs_at(page, mdl_word(), i as int)) by {
                if occurs_at(page, mdl_word(), i as int) {
                    let part = page.subrange(i as int, i + 3);
                    assert(part[0] == 109 && part[1] == 100 && part[2] == 108);
                }
            }
            i += 1;
        }
    }
    if !found {
        return None;
    }
    if len - i < MDL_OFFSET {
        return None;
    }
    let start = i + MDL_OFFSET;
    if !html.is_char_boundary(start) {
        return None;
    }
    let mut end: usize = start;
    let mut value: u64 = 0;
    let mut too_large = false;
    assert(page.subrange(start as int, start as int) =~= Seq::empty());
    while end < len && 48 <= bytes[end] && bytes[end] <= 57
        invariant
            page == bytes@,
            len == page.len(),
            start <= end <= len,
            forall|k: int| start <= k < end ==> is_digit(#[trigger] page[k]),
            too_large ==> decimal_value(page.subrange(start as int, end as int)) > i32::MAX,
            !too_large ==> value == decimal_value(page.subrange(start as int, end as int))
                && value <= i32::MAX,
        decreases len - end,
    {
        let digit = (bytes[end] - 48) as u64;
        proof {
            let before = page.subrange(start as int, end as int);
            let after = page.subrange(start as int, end + 1);
            assert(after.drop_last() =~= before);
            assert(after.last() == page[end as int]);
            assert(decimal_value(after) == 10 * decimal_value(before) + digit);
        }
        if !too_large {
            value = value * 10 + digit;
            if value > 2147483647 {
                too_large = true;
            }
        }
        end += 1;
    }
    proof {
        lemma_digits_from(page, start as int, end as int);
    }
    if end == start || too_large {
        None
    } else {
        Some(value as i32)
    }
}

/// Whether the text with which an answer to a command ends shows that the
/// command was accepted.
pub fn check_command_response(text: &str) -> (r: Option<()>)
    ensures
        r is Some <==> text.spec_bytes().len() >= 7 && text.spec_bytes().subrange(
            text.spec_bytes().len() - 7,
            text.spec_bytes().len() as int,
        ) == success_token(),
{
    let bytes = text.as_bytes();
    let len = bytes.len();
    if len < 7 {
        return None;
    }
    let at = len - 7;
    let ghost tail = bytes@.subrange(at as int, len as int);
    if bytes[at] == 58 && bytes[at + 1] == 116 && bytes[at + 2] == 114 && bytes[at + 3] == 117
        && bytes[at + 4] == 101 && bytes[at + 5] == 125 && bytes[at + 6] == 125 {
        assert(tail =~= success_token());
        Some(())
    } else {
        assert(tail != success_token()) by {
            if tail == success_token() {
                assert(tail[0] == 58 && tail[1] == 116 && tail[2] == 114 && tail[3] == 117
                    && tail[4] == 101 && tail[5] == 125 && tail[6] == 125);
            }
        }
        None
    }
}

} // verus!
