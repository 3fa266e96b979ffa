//! Which commands an event runs.

use vstd::prelude::*;

use crate::config::{InputEvent, ScrollDir};
use crate::seat::Axis;

verus! {

/// The command lines of the events that are `wanted`, in their order.
pub open spec fn lines(
    commands: Seq<(InputEvent, String)>,
    wanted: spec_fn(InputEvent) -> bool,
) -> Seq<String>
    decreases commands.len(),
{
    if commands.len() == 0 {
        Seq::empty()
    } else if wanted(commands.last().0) {
        lines(commands.drop_last(), wanted).push(commands.last().1)
    } else {
        lines(commands.drop_last(), wanted)
    }
}

/// The first command line of an event, if it has any.
pub open spec fn first_line(commands: Seq<(InputEvent, String)>, event: InputEvent) -> Option<String>
    decreases commands.len(),
{
    if commands.len() == 0 {
        None
    } else if commands[0].0 == event {
        Some(commands[0].1)
    } else {
        first_line(commands.drop_first(), event)
    }
}

/// An event is a click with one button.
pub open spec fn is_button(button: u16) -> spec_fn(InputEvent) -> bool {
    |event: InputEvent| event == InputEvent::Button(button)
}

/// An event is a scroll along one axis, in one direction.
pub open spec fn is_scroll(axis: Axis, positive: bool) -> spec_fn(InputEvent) -> bool {
    |event: InputEvent|
        event is Scroll && event->Scroll_0.axis() == axis && event->Scroll_0.spec_is_positive()
            == positive
}

/// The first command line of an event, if it has any.
pub fn first_command(commands: &Vec<(InputEvent, String)>, event: InputEvent) -> (r: Option<String>)
    ensures
        r == first_line(commands@, event),
{
    let mut i: usize = 0;
    assert(commands@.skip(0) =~= commands@);
    while i < commands.len()
        invariant
            i <= commands.len(),
            first_line(commands@, event) == first_line(commands@.skip(i as int), event),
        decreases commands.len() - i,
    {
        assert(commands@.skip(i as int).drop_first() =~= commands@.skip(i + 1));
        if commands[i].0 == event {
            return Some(commands[i].1.clone());
        }
        i += 1;
    }
    None
}

/// Adds the command lines of clicks with `button` to `out`.
pub fn push_button_commands(commands: &Vec<(InputEvent, String)>, button: u16, out: &mut Vec<String>)
    ensures
        final(out)@ == old(out)@ + lines(commands@, is_button(button)),
{
    let ghost start = out@;
    let mut i: usize = 0;
    assert(start + Seq::<String>::empty() =~= start);
    while i < commands.len()
        invariant
            i <= commands.len(),
            out@ == start + lines(commands@.take(i as int), is_button(button)),
        decreases commands.len() - i,
    {
        assert(commands@.take(i + 1).drop_last() =~= commands@.take(i as int));
        if commands[i].0 == InputEvent::Button(button) {
            out.push(commands[i].1.clone());
        }
        i += 1;
    }
    assert(commands@.take(commands@.len() as int) =~= commands@);
}

/// Adds the command lines of scrolls along `axis`, in one direction, to `out`.
pub fn push_scroll_commands(
    commands: &Vec<(InputEvent, String)>,
    axis: Axis,
    positive: bool,
    out: &mut Vec<String>,
)
    ensures
        final(out)@ == old(out)@ + lines(commands@, is_scroll(axis, positive)),
{
    let ghost start = out@;
    let mut i: usize = 0;
    assert(start + Seq::<String>::empty() =~= start);
    while i < commands.len()
        invariant
            i <= commands.len(),
            out@ == start + lines(commands@.take(i as int), is_scroll(axis, positive)),
        decreases commands.len() - i,
    {
        assert(commands@.take(i + 1).drop_last() =~= commands@.take(i as int));
        if let InputEvent::Scroll(scroll) = commands[i].0 {
            if scroll.on_axis(axis) && scroll.is_positive() == positive {
                out.push(commands[i].1.clone());
            }
        }
        i += 1;
    }
    assert(commands@.take(commands@.len() as int) =~= commands@);
}

/// The arguments of the process that runs a command line in a shell.
pub fn shell_command(command: &str) -> (r: Vec<String>)
    ensures
        r@.len() == 4,
        r@[0]@ == "env"@,
        r@[1]@ == "sh"@,
        r@[2]@ == "-c"@,
        r@[3]@ == command@,
{
    let mut r: Vec<String> = Vec::new();
    r.push("env".to_owned());
    r.push("sh".to_owned());
    r.push("-c".to_owned());
    r.push(command.to_owned());
    r
}

/// A scroll runs the commands of its own direction alone.
pub proof fn scroll_directions_are_apart(dir: ScrollDir, axis: Axis, positive: bool)
    ensures
        is_scroll(axis, positive)(InputEvent::Scroll(dir)) <==> dir.axis() == axis
            && dir.spec_is_positive() == positive,
        is_scroll(axis, positive)(InputEvent::Scroll(dir)) ==> !is_scroll(axis, !positive)(
            InputEvent::Scroll(dir),
        ),
{
}

/// The lines for wanted events are those of the entries with such events, all of them, in the order
/// of the list: they stand at the places that come back, from the first place of the list on.
pub proof fn lines_are_those_of_wanted_entries(
    commands: Seq<(InputEvent, String)>,
    wanted: spec_fn(InputEvent) -> bool,
) -> (places: Seq<int>)
    ensures
        places.len() == lines(commands, wanted).len(),
        forall|n: int|
            0 <= n < places.len() ==> 0 <= #[trigger] places[n] < commands.len() && wanted(
                commands[places[n]].0,
            ) && lines(commands, wanted)[n] == commands[places[n]].1,
        forall|m: int, n: int| 0 <= m < n < places.len() ==> places[m] < places[n],
        forall|i: int|
            0 <= i < commands.len() && wanted((#[trigger] commands[i]).0) ==> places.contains(i),
    decreases commands.len(),
{
    if commands.len() == 0 {
        Seq::empty()
    } else {
        let rest = commands.drop_last();
        let before = lines_are_those_of_wanted_entries(rest, wanted);
        let last = commands.len() - 1;
        let places = if wanted(commands[last].0) {
            before.push(last)
        } else {
            before
        };
        assert forall|n: int| 0 <= n < places.len() implies 0 <= #[trigger] places[n]
            < commands.len() && wanted(commands[places[n]].0) && lines(commands, wanted)[n]
            == commands[places[n]].1 by {
            if n < before.len() {
                assert(places[n] == before[n]);
                assert(rest[before[n]] == commands[before[n]]);
            }
        }
        assert forall|m: int, n: int| 0 <= m < n < places.len() implies places[m] < places[n] by {
            assert(places[m] == before[m]);
            if n < before.len() {
                assert(places[n] == before[n]);
            }
        }
        assert forall|i: int|
            0 <= i < commands.len() && wanted((#[trigger] commands[i]).0) implies places.contains(
            i,
        ) by {
            if i < last {
                assert(rest[i] == commands[i]);
                let n = choose|n: int| 0 <= n < before.len() && before[n] == i;
                assert(places[n] == i);
            } else {
                assert(places[places.len() - 1] == i);
            }
        }
        places
    }
}

/// The first line of an event is that of the first entry with it, at the place that comes back;
/// there is none only where no entry of the list, the last one included, has the event.
pub proof fn first_line_is_that_of_first_entry(
    commands: Seq<(InputEvent, String)>,
    event: InputEvent,
) -> (at: int)
    ensures
        match first_line(commands, event) {
            Some(line) => {
                &&& 0 <= at < commands.len()
                &&& commands[at].0 == event
                &&& commands[at].1 == line
                &&& forall|j: int| 0 <= j < at ==> (#[trigger] commands[j]).0 != event
            },
            None => forall|j: int| 0 <= j < commands.len() ==> (#[trigger] commands[j]).0 != event,
        },
    decreases commands.len(),
{
    if commands.len() == 0 {
        0
    } else if commands[0].0 == event {
        0
    } else {
        let tail = commands.drop_first();
        let at = first_line_is_that_of_first_entry(tail, event);
        assert forall|j: int| 0 < j < commands.len() implies (#[trigger] commands[j])
            == tail[j - 1] by {}
        at + 1
    }
}

/// A click is wanted by its button, and a scroll by its direction: values grow downwards and to the
/// right.
pub proof fn wanted_events(event: InputEvent, button: u16)
    ensures
        is_button(button)(event) <==> event == InputEvent::Button(button),
        is_scroll(Axis::Vertical, true)(event) <==> event == InputEvent::Scroll(ScrollDir::Down),
        is_scroll(Axis::Vertical, false)(event) <==> event == InputEvent::Scroll(ScrollDir::Up),
        is_scroll(Axis::Horizontal, true)(event) <==> event == InputEvent::Scroll(ScrollDir::Right),
        is_scroll(Axis::Horizontal, false)(event) <==> event == InputEvent::Scroll(ScrollDir::Left),
{
}

} // verus!
