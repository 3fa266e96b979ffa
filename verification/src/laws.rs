//! What holds of the program from one event to the next.

use vstd::prelude::*;

use crate::app::{
    drawn, edge_lines, fresh_pointer, grown_bufsize, has_pointer, has_relative_pointer, ids_differ,
    is_new_gap, matching, needs_drawing, offers_pointer, pointer_lines, region_opened, scroll_lines,
    scroll_rest, scroll_sum, AppState, Pending,
};
use crate::commands::{first_line, is_button, lines};
use crate::config::{GapConfig, InputEvent};
use crate::gap::{cell, WayGap};
use crate::list::{first, is_first, lemma_first, lemma_found, swap_removed};
use crate::objects::{is_first_free, WaylandObject};
use crate::protocol::{ButtonState, WlAxis};
use crate::seat::{moved, triggers, Pointer, Seat, SCROLL_STEP};
use crate::utils::{output_matches, step_after, wanted_text, Last, Step};

verus! {

/// A search finds the same place again where every item is wanted as much as it was before.
proof fn lemma_same_place<T>(a: Seq<T>, b: Seq<T>, wanted: spec_fn(T) -> bool)
    requires
        a.len() == b.len(),
        forall|i: int| 0 <= i < a.len() ==> wanted(#[trigger] a[i]) == wanted(b[i]),
    ensures
        first(a, wanted) == first(b, wanted),
{
    lemma_found(a, wanted);
    lemma_found(b, wanted);
    if let Some(i) = first(a, wanted) {
        assert forall|j: int| 0 <= j < i implies !wanted(#[trigger] b[j]) by {
            assert(!wanted(a[j]));
        }
        assert(wanted(a[i]));
        assert(is_first(b, wanted, i));
        lemma_first(b, wanted, i);
    } else if let Some(i) = first(b, wanted) {
        assert(!wanted(a[i]));
    }
}

/// A pointer is found at the same seat again after something of it has changed but its ids.
proof fn lemma_same_seat<Shm>(s: AppState<Shm>, k: int, pointer: Pointer, id: u32)
    requires
        0 <= k < s.seats.len(),
        s.seats[k].pointer is Some,
        pointer.id == s.seats[k].pointer->0.id,
        pointer.relative_pointer_id == s.seats[k].pointer->0.relative_pointer_id,
    ensures
        first(s.with_pointer(k, pointer).seats, has_pointer(id)) == first(s.seats, has_pointer(id)),
        first(s.with_pointer(k, pointer).seats, has_relative_pointer(id)) == first(
            s.seats,
            has_relative_pointer(id),
        ),
{
    let t = s.with_pointer(k, pointer);
    assert forall|i: int| 0 <= i < t.seats.len() implies has_pointer(id)(#[trigger] t.seats[i])
        == has_pointer(id)(s.seats[i]) by {}
    lemma_same_place(t.seats, s.seats, has_pointer(id));
    assert forall|i: int| 0 <= i < t.seats.len() implies has_relative_pointer(id)(
        #[trigger] t.seats[i],
    ) == has_relative_pointer(id)(s.seats[i]) by {}
    lemma_same_place(t.seats, s.seats, has_relative_pointer(id));
}

/// The pointer `id` is that of the seat at place `k`.
pub open spec fn is_pointer_of<Shm>(s: AppState<Shm>, id: u32, k: int) -> bool {
    first(s.seats, has_pointer(id)) == Some(k)
}

/// Where a pointer has gone out of its region, nothing that it does runs a command or counts
/// towards one, until it comes into a region again.
pub proof fn pointer_outside_is_quiet<Shm>(s: AppState<Shm>, id: u32, axis: WlAxis, value: i32)
    ensures
        s.left(id).frame_lines(id).len() == 0,
        s.left(id).framed(id) == s.left(id),
        s.left(id).scrolled(id, axis, value) == s.left(id),
        s.left(id).leave_line(id) is None,
        s.left(id).left(id) == s.left(id),
{
    lemma_found(s.seats, has_pointer(id));
    if let Some(k) = first(s.seats, has_pointer(id)) {
        let p = Pointer { current_waygap: None, ..s.seats[k].pointer->0 };
        assert(s.left(id) == s.with_pointer(k, p));
        lemma_same_seat(s, k, p, id);
        assert(s.left(id).left(id) =~= s.left(id));
    }
}

/// Where a pointer has gone out of its region, its movements build up no pressure.
pub proof fn pointer_outside_presses_nothing<Shm>(
    s: AppState<Shm>,
    id: u32,
    relative: u32,
    time: u64,
    dx: i32,
    dy: i32,
)
    requires
        first(s.seats, has_relative_pointer(relative)) == first(s.seats, has_pointer(id)),
    ensures
        s.left(id).moved(relative, time, dx, dy) == s.left(id),
{
    lemma_found(s.seats, has_pointer(id));
    if let Some(k) = first(s.seats, has_pointer(id)) {
        let p = Pointer { current_waygap: None, ..s.seats[k].pointer->0 };
        lemma_same_seat(s, k, p, relative);
    }
}

impl<Shm> AppState<Shm> {
    /// The state with another serial for the last time that a pointer came into a region.
    pub open spec fn with_serial(self, id: u32, serial: u32) -> AppState<Shm> {
        match first(self.seats, has_pointer(id)) {
            Some(k) => self.with_pointer(
                k,
                Pointer { enter_serial: serial, ..self.seats[k].pointer->0 },
            ),
            None => self,
        }
    }
}

/// A pointer that has come into a region runs that region's command for leaving when it goes, and
/// is then as it would be had it gone without coming in, but for the serial.
pub proof fn leaving_runs_region_command<Shm>(
    s: AppState<Shm>,
    id: u32,
    serial: u32,
    surface: u32,
)
    requires
        first(s.seats, has_pointer(id)) is Some,
        s.gap_with_surface(surface) is Some,
        s.waygaps.len() <= usize::MAX,
    ensures
        s.entered(id, serial, surface).leave_line(id) == first_line(
            s.waygaps[s.gap_with_surface(surface)->0].commands@,
            InputEvent::Leave,
        ),
        s.entered(id, serial, surface).left(id) == s.left(id).with_serial(id, serial),
{
    lemma_found(s.seats, has_pointer(id));
    lemma_found(s.waygaps, |gap: WayGap<Shm>| gap.wl_surface == surface);
    let k = first(s.seats, has_pointer(id))->0;
    let i = s.gap_with_surface(surface)->0;
    let p = Pointer {
        enter_serial: serial,
        current_waygap: Some(i as usize),
        ..s.seats[k].pointer->0
    };
    lemma_same_seat(s, k, p, id);
    lemma_same_seat(s, k, Pointer { current_waygap: None, ..s.seats[k].pointer->0 }, id);
    assert(s.entered(id, serial, surface).left(id) =~= s.left(id).with_serial(id, serial));
}

/// A click in a region runs the commands for that button, and nothing else where the pointer has
/// done nothing else.
pub proof fn click_runs_its_commands<Shm>(s: AppState<Shm>, id: u32, k: int, i: int, button: u32)
    requires
        is_pointer_of(s, id, k),
        s.gap_of(k) == Some(i),
        button <= u16::MAX,
        -SCROLL_STEP < s.seats[k].pointer->0.scroll < SCROLL_STEP,
        !s.seats[k].pointer->0.should_trigger_edge,
    ensures
        s.clicked(id, button, ButtonState::Pressed).frame_lines(id) == lines(
            s.waygaps[i].commands@,
            is_button(button as u16),
        ),
{
    lemma_found(s.seats, has_pointer(id));
    let p = Pointer { button: (button % 0x1_0000) as u16, ..s.seats[k].pointer->0 };
    assert(button % 0x1_0000 == button);
    lemma_same_seat(s, k, p, id);
    let commands = s.waygaps[i].commands@;
    assert(pointer_lines(p, commands) =~= lines(commands, is_button(button as u16)));
}

/// What has been acted upon in one frame is not acted upon in the next: a click and a push are
/// used up, and so is one step of scrolling.
pub proof fn frame_uses_up<Shm>(s: AppState<Shm>, id: u32, k: int, i: int)
    requires
        is_pointer_of(s, id, k),
        s.gap_of(k) == Some(i),
        -2 * SCROLL_STEP < s.seats[k].pointer->0.scroll < 2 * SCROLL_STEP,
    ensures
        s.framed(id).frame_lines(id) == lines(s.waygaps[i].commands@, is_button(0)),
        s.framed(id).framed(id) == s.framed(id),
{
    lemma_found(s.seats, has_pointer(id));
    let was = s.seats[k].pointer->0;
    let p = Pointer {
        button: 0,
        scroll: scroll_rest(was.scroll),
        should_trigger_edge: false,
        ..was
    };
    lemma_same_seat(s, k, p, id);
    let commands = s.waygaps[i].commands@;
    assert(pointer_lines(p, commands) =~= lines(commands, is_button(0)));
    assert(s.framed(id).framed(id) =~= s.framed(id));
}

/// A frame takes one step off a scroll value that has come to a step, and leaves a smaller one.
pub proof fn scroll_goes_step_by_step(scroll: i64)
    ensures
        scroll >= SCROLL_STEP ==> 0 <= scroll_rest(scroll) == scroll - SCROLL_STEP,
        scroll <= -SCROLL_STEP ==> 0 >= scroll_rest(scroll) == scroll + SCROLL_STEP,
        -SCROLL_STEP < scroll < SCROLL_STEP ==> scroll_rest(scroll) == scroll,
{
}

/// Scrolling back by as much undoes a scroll.
pub proof fn scrolling_back_undoes(scroll: i64, value: i32)
    requires
        i64::MIN <= scroll + value <= i64::MAX,
        value > i32::MIN,
    ensures
        scroll_sum(scroll_sum(scroll, value), (-value) as i32) == scroll,
{
}

/// A push beyond the edge that triggers it runs the region's command for that in the next frame.
pub proof fn push_runs_edge_command<Shm>(
    s: AppState<Shm>,
    id: u32,
    relative: u32,
    k: int,
    i: int,
    time: u64,
    dx: i32,
    dy: i32,
)
    requires
        is_pointer_of(s, id, k),
        first(s.seats, has_relative_pointer(relative)) == Some(k),
        s.gap_of(k) == Some(i),
        triggers(
            s.seats[k].pointer->0,
            s.waygaps[i].anchor,
            s.waygaps[i].activation_force,
            time,
            dx,
            dy,
        ),
    ensures
        match first_line(s.waygaps[i].commands@, InputEvent::Edge) {
            Some(line) => {
                let ran = s.moved(relative, time, dx, dy).frame_lines(id);
                ran.len() > 0 && ran.last() == line
            },
            None => true,
        },
{
    lemma_found(s.seats, has_pointer(id));
    let p = moved(
        s.seats[k].pointer->0,
        s.waygaps[i].anchor,
        s.waygaps[i].activation_force,
        time,
        dx,
        dy,
    );
    lemma_same_seat(s, k, p, id);
}

/// Movements that do not trigger the edge change no command that the next frame runs.
pub proof fn quiet_movement_runs_nothing<Shm>(
    s: AppState<Shm>,
    id: u32,
    relative: u32,
    k: int,
    i: int,
    time: u64,
    dx: i32,
    dy: i32,
)
    requires
        is_pointer_of(s, id, k),
        first(s.seats, has_relative_pointer(relative)) == Some(k),
        s.gap_of(k) == Some(i),
        !triggers(
            s.seats[k].pointer->0,
            s.waygaps[i].anchor,
            s.waygaps[i].activation_force,
            time,
            dx,
            dy,
        ),
    ensures
        s.moved(relative, time, dx, dy).frame_lines(id) == s.frame_lines(id),
{
    lemma_found(s.seats, has_pointer(id));
    let was = s.seats[k].pointer->0;
    let p = moved(was, s.waygaps[i].anchor, s.waygaps[i].activation_force, time, dx, dy);
    lemma_same_seat(s, k, p, id);
    let commands = s.waygaps[i].commands@;
    assert(scroll_lines(p, commands) == scroll_lines(was, commands));
    assert(edge_lines(p, commands) == edge_lines(was, commands));
}

/// What a pointer does changes nothing but that pointer: all regions, outputs and objects, and all
/// other seats, stay as they are.
pub proof fn pointers_do_not_meddle<Shm>(
    s: AppState<Shm>,
    id: u32,
    serial: u32,
    surface: u32,
    button: u32,
    state: ButtonState,
    axis: WlAxis,
    value: i32,
    j: int,
)
    requires
        0 <= j < s.seats.len(),
        first(s.seats, has_pointer(id)) != Some(j),
    ensures
        s.entered(id, serial, surface) == (AppState {
            seats: s.entered(id, serial, surface).seats,
            ..s
        }),
        s.entered(id, serial, surface).seats[j] == s.seats[j],
        s.left(id) == (AppState { seats: s.left(id).seats, ..s }),
        s.left(id).seats[j] == s.seats[j],
        s.clicked(id, button, state) == (AppState {
            seats: s.clicked(id, button, state).seats,
            ..s
        }),
        s.clicked(id, button, state).seats[j] == s.seats[j],
        s.scrolled(id, axis, value) == (AppState { seats: s.scrolled(id, axis, value).seats, ..s }),
        s.scrolled(id, axis, value).seats[j] == s.seats[j],
        s.framed(id) == (AppState { seats: s.framed(id).seats, ..s }),
        s.framed(id).seats[j] == s.seats[j],
{
    lemma_found(s.seats, has_pointer(id));
}

/// Once the program has to end, no event changes that.
pub proof fn exit_is_final<Shm>(
    s: AppState<Shm>,
    after: AppState<Shm>,
    id: u32,
    other: u32,
    number: u32,
    kind: WaylandObject,
    i: int,
    width: u32,
    height: u32,
    output: u32,
    time: u64,
    dx: i32,
    dy: i32,
    value: i32,
    state: ButtonState,
    axis: WlAxis,
    text: Seq<char>,
    shm: Shm,
)
    requires
        s.exit,
    ensures
        s.entered(id, number, other).exit,
        s.left(id).exit,
        s.clicked(id, number, state).exit,
        s.scrolled(id, axis, value).exit,
        s.framed(id).exit,
        s.moved(id, time, dx, dy).exit,
        s.output_created(number, id).exit,
        s.output_named(id, text).exit,
        s.output_described(id, text).exit,
        s.output_done(id).exit,
        s.seat_created(number, id).exit,
        s.pointer_gained(id, number, other).exit,
        s.pointer_lost(id).exit,
        s.global_removed(id).exit,
        s.id_deleted(id).exit,
        s.object_made(id, kind).exit,
        s.gap_added(after, i, number, id, other, output, shm) ==> after.exit,
        s.frame_drawn(i, width, height, id, other).exit,
        s.frame_shown(i).exit,
        s.ended().exit,
{
}

/// The program ends only once it has to, because of an error or of a signal, and then with status
/// 0. It does end then, as soon as it has acted upon the events that had come, unless it can wait
/// no longer.
pub proof fn program_ends_when_it_has_to<Shm>(
    s: AppState<Shm>,
    signalled: bool,
    last: Last,
    status: u8,
)
    ensures
        step_after(s.exit || signalled, last) == Step::Exit(status) ==> status == 0 && (s.exit
            || signalled),
        (s.exit || signalled) && last != Last::Ready && last != Last::Failed ==> step_after(
            s.exit || signalled,
            last,
        ) == Step::Exit(0),
        step_after(s.exit || signalled, last) == Step::Handle <==> last == Last::Ready,
        step_after(s.exit || signalled, last) == Step::Fail <==> last == Last::Failed,
        step_after(s.ended().exit, Last::Handled) == Step::Exit(0),
{
}

/// A run of the program that ends with a status: at each point of it, whether the program had to
/// end, and what it had done last.
pub open spec fn ends_with(run: Seq<(bool, Last)>, status: u8) -> bool {
    &&& run.len() > 0
    &&& step_after(run.last().0, run.last().1) == Step::Exit(status)
    &&& forall|k: int|
        0 <= k < run.len() - 1 ==> {
            let step = step_after((#[trigger] run[k]).0, run[k].1);
            step == Step::Wait || step == Step::Handle
        }
}

/// A run of the program ends with status 0, once the program has to end, and at the first such
/// point where no events wait to be acted upon. It never failed to wait before that.
pub proof fn run_ends_when_it_has_to(run: Seq<(bool, Last)>, status: u8)
    requires
        ends_with(run, status),
    ensures
        status == 0,
        run.last().0,
        forall|k: int|
            0 <= k < run.len() - 1 ==> (#[trigger] run[k]).1 != Last::Failed && (run[k].0
                ==> run[k].1 == Last::Ready),
{
}

/// A region that has been drawn at a size is not drawn again at that size, and keeps its place,
/// whether or not all requests for it could be sent.
pub proof fn drawing_settles<Shm>(
    s: AppState<Shm>,
    layer_surface: u32,
    width: u32,
    height: u32,
    pool: u32,
    buffer: u32,
    i: int,
)
    requires
        s.to_draw(layer_surface, width, height) == Some(i),
    ensures
        ({
            let drawn = s.frame_drawn(i, width, height, pool, buffer);
            let shown = drawn.frame_shown(i);
            &&& drawn.gap_with_layer_surface(layer_surface) == Some(i)
            &&& drawn.to_draw(layer_surface, width, height) is None
            &&& drawn.can_configure(layer_surface, width, height)
            &&& shown.gap_with_layer_surface(layer_surface) == Some(i)
            &&& shown.to_draw(layer_surface, width, height) is None
            &&& shown.can_configure(layer_surface, width, height)
        }),
{
    let wanted = |gap: WayGap<Shm>| gap.layer_surface == layer_surface;
    lemma_found(s.waygaps, wanted);
    let drawn = s.frame_drawn(i, width, height, pool, buffer).waygaps;
    assert forall|j: int| 0 <= j < drawn.len() implies wanted(#[trigger] drawn[j]) == wanted(
        s.waygaps[j],
    ) by {}
    lemma_same_place(drawn, s.waygaps, wanted);
    assert(!needs_drawing(drawn[i], width, height));
    let shown = s.frame_drawn(i, width, height, pool, buffer).frame_shown(i).waygaps;
    assert forall|j: int| 0 <= j < shown.len() implies wanted(#[trigger] shown[j]) == wanted(
        s.waygaps[j],
    ) by {}
    lemma_same_place(shown, s.waygaps, wanted);
    assert(!needs_drawing(shown[i], width, height));
}

/// The shared memory of a region never shrinks, and once the region is drawn has room for all its
/// pixels: the preview can be drawn in it.
pub proof fn drawn_region_has_room<Shm>(gap: WayGap<Shm>, width: u32, height: u32)
    requires
        width * height * 4 <= u32::MAX,
        width >= 1,
        height >= 1,
    ensures
        drawn(gap, width, height).bufsize >= gap.bufsize,
        drawn(gap, width, height).bufsize >= width * height * 4,
        cell(height - 1, width - 1, width as int) < drawn(gap, width, height).bufsize / 4,
        cell(height - 1, width - 1, width as int) <= u32::MAX,
{
    assert(grown_bufsize(gap, width, height) >= width * height * 4);
    assert((height - 1) * width + (width - 1) == width * height - 1) by (nonlinear_arith);
    assert(width * height >= 1) by (nonlinear_arith)
        requires
            width >= 1,
            height >= 1,
    ;
}

/// An output that is taken in gets an id that no other output has, and whatever else happens keeps
/// the outputs apart, as long as no object is deleted that an output still waits under.
pub proof fn outputs_stay_sound<Shm>(
    s: AppState<Shm>,
    id: u32,
    other: u32,
    number: u32,
    kind: WaylandObject,
    text: Seq<char>,
)
    requires
        s.outputs_sound(),
    ensures
        is_first_free(s.objects, id) ==> s.output_created(number, id).outputs_sound(),
        s.output_named(number, text).outputs_sound(),
        s.output_described(number, text).outputs_sound(),
        s.output_done(number).outputs_sound(),
        s.seat_created(number, id).outputs_sound(),
        s.pointer_gained(number, id, other).outputs_sound(),
        s.object_made(id, kind).outputs_sound(),
        s.pending_at(id) is None ==> s.id_deleted(id).outputs_sound(),
{
    output_is_ready_once(s, number);
    let wanted = |pending: Pending| pending.id == number;
    lemma_found(s.pending_outputs, wanted);
    lemma_found(s.pending_outputs, |pending: Pending| pending.id == id);
    if let Some(i) = s.ready(number) {
        let before = s.pending_outputs;
        let after = swap_removed(before, i);
        assert forall|j: int| 0 <= j < after.len() implies s.objects.contains_key(
            (#[trigger] after[j]).id,
        ) by {
            if j == i {
                assert(after[j] == before[before.len() - 1]);
            } else {
                assert(after[j] == before[j]);
            }
        }
    }
    if s.pending_at(id) is None {
        assert forall|j: int| 0 <= j < s.pending_outputs.len() implies s.objects.remove(
            id,
        ).contains_key((#[trigger] s.pending_outputs[j]).id) by {
            assert(s.pending_outputs[j].id != id);
        }
    }
}

/// The regions of an output are opened once: an output that tells about itself again is passed
/// over.
pub proof fn output_is_ready_once<Shm>(s: AppState<Shm>, output: u32)
    requires
        ids_differ(s.pending_outputs),
    ensures
        s.output_done(output).ready(output) is None,
        ids_differ(s.output_done(output).pending_outputs),
{
    let wanted = |pending: Pending| pending.id == output;
    lemma_found(s.pending_outputs, wanted);
    if let Some(i) = s.ready(output) {
        let before = s.pending_outputs;
        let after = swap_removed(before, i);
        assert forall|j: int| 0 <= j < after.len() implies !wanted(#[trigger] after[j]) by {
            if j == i {
                assert(after[j] == before[before.len() - 1]);
            } else {
                assert(after[j] == before[j]);
            }
        }
        lemma_found(after, wanted);
        assert(s.output_done(output).pending_outputs == after);
    }
}

/// What an output tells about itself does not change which outputs there are.
pub proof fn telling_keeps_outputs<Shm>(s: AppState<Shm>, output: u32, text: Seq<char>, other: u32)
    ensures
        s.output_named(output, text).pending_at(other) == s.pending_at(other),
        s.output_described(output, text).pending_at(other) == s.pending_at(other),
{
    let wanted = |pending: Pending| pending.id == other;
    lemma_found(s.pending_outputs, |pending: Pending| pending.id == output);
    let named = s.output_named(output, text).pending_outputs;
    assert forall|i: int| 0 <= i < named.len() implies wanted(#[trigger] named[i]) == wanted(
        s.pending_outputs[i],
    ) by {}
    lemma_same_place(named, s.pending_outputs, wanted);
    let described = s.output_described(output, text).pending_outputs;
    assert forall|i: int| 0 <= i < described.len() implies wanted(#[trigger] described[i])
        == wanted(s.pending_outputs[i]) by {}
    lemma_same_place(described, s.pending_outputs, wanted);
}

/// On an output those regions of the configuration are opened that are for it, each once, in the
/// order of the configuration.
pub proof fn matching_is_exact(
    config: Seq<(String, GapConfig)>,
    name: Seq<char>,
    description: Seq<char>,
)
    requires
        config.len() <= usize::MAX,
    ensures
        forall|i: int|
            0 <= i < config.len() ==> (#[trigger] matching(config, name, description).contains(
                i as usize,
            ) <==> output_matches(wanted_text(config[i].1.output), name, description)),
        forall|j: int|
            0 <= j < matching(config, name, description).len() ==> #[trigger] matching(
                config,
                name,
                description,
            )[j] < config.len(),
        forall|a: int, b: int|
            0 <= a < b < matching(config, name, description).len() ==> #[trigger] matching(
                config,
                name,
                description,
            )[a] < #[trigger] matching(config, name, description)[b],
    decreases config.len(),
{
    let all = matching(config, name, description);
    if config.len() > 0 {
        let rest = config.drop_last();
        let before = matching(rest, name, description);
        matching_is_exact(rest, name, description);
        let last = (config.len() - 1) as usize;
        assert forall|i: int| 0 <= i < config.len() implies (#[trigger] all.contains(i as usize)
            <==> output_matches(wanted_text(config[i].1.output), name, description)) by {
            if i < rest.len() {
                assert(rest[i] == config[i]);
                assert(before.contains(i as usize) <==> output_matches(
                    wanted_text(rest[i].1.output),
                    name,
                    description,
                ));
                if all.contains(i as usize) {
                    let j = choose|j: int| 0 <= j < all.len() && all[j] == i as usize;
                    assert(before[j] == i as usize);
                }
                if before.contains(i as usize) {
                    let j = choose|j: int| 0 <= j < before.len() && before[j] == i as usize;
                    assert(all[j] == i as usize);
                }
            } else {
                if all != before {
                    assert(all[all.len() - 1] == last);
                } else if all.contains(last) {
                    let j = choose|j: int| 0 <= j < all.len() && all[j] == last;
                    assert(before[j] < rest.len());
                }
            }
        }
    }
}

/// From each of the states to the next, one of the regions is opened, in their order.
pub open spec fn regions_opened<Shm>(
    states: Seq<AppState<Shm>>,
    regions: Seq<usize>,
    registry_name: u32,
    output: u32,
) -> bool {
    &&& states.len() == regions.len() + 1
    &&& forall|k: int|
        0 <= k < regions.len() ==> #[trigger] region_opened(
            states[k],
            states[k + 1],
            regions[k] as int,
            registry_name,
            output,
        )
}

/// A region is one of the configuration, on an output, as it is once it has been opened.
pub open spec fn is_region_on<Shm>(
    gap: WayGap<Shm>,
    config: GapConfig,
    registry_name: u32,
    output: u32,
) -> bool {
    is_new_gap(gap, config, registry_name, gap.wl_surface, gap.layer_surface, output, gap.shm)
}

/// Once an output has told all about itself and its regions have been opened, the regions are those
/// that there were, followed by one for each entry of the configuration that is for the output, in
/// the order of the configuration. The output, and it alone, waits no longer; an entry that names
/// no output is for every one; and nothing happens when the output tells about itself again.
pub proof fn output_gets_its_regions<Shm>(
    s: AppState<Shm>,
    output: u32,
    i: int,
    states: Seq<AppState<Shm>>,
)
    requires
        s.outputs_sound(),
        s.ready(output) == Some(i),
        s.config.len() <= usize::MAX,
        states.len() > 0,
        states[0] == s.output_done(output),
        regions_opened(
            states,
            matching(s.config, s.pending_outputs[i].name, s.pending_outputs[i].description),
            s.pending_outputs[i].registry_name,
            output,
        ),
    ensures
        ({
            let pending = s.pending_outputs[i];
            let regions = matching(s.config, pending.name, pending.description);
            let after = states.last();
            &&& after == (AppState {
                objects: after.objects,
                waygaps: after.waygaps,
                pending_outputs: swap_removed(s.pending_outputs, i),
                ..s
            })
            &&& after.waygaps.len() == s.waygaps.len() + regions.len()
            &&& after.waygaps.take(s.waygaps.len() as int) == s.waygaps
            &&& forall|k: int|
                0 <= k < regions.len() ==> is_region_on(
                    #[trigger] after.waygaps[s.waygaps.len() + k],
                    s.config[regions[k] as int].1,
                    pending.registry_name,
                    output,
                )
            &&& forall|c: int|
                0 <= c < s.config.len() && s.config[c].1.output is None
                    ==> #[trigger] regions.contains(c as usize)
            &&& after.ready(output) is None
            &&& after.output_done(output) == after
        }),
{
    let pending = s.pending_outputs[i];
    let regions = matching(s.config, pending.name, pending.description);
    lemma_regions_opened(
        states,
        regions,
        pending.registry_name,
        output,
        regions.len() as int,
    );
    matching_is_exact(s.config, pending.name, pending.description);
    output_is_ready_once(s, output);
    let after = states.last();
    assert(after == states[regions.len() as int]);
    assert(states[0].waygaps == s.waygaps);
    assert(after.pending_at(output) == states[0].pending_at(output));
    assert(!states[0].covers(output)) by {
        assert(!s.covers(output));
        if states[0].covers(output) {
            let g = choose|g: int|
                0 <= g < states[0].waygaps.len() && #[trigger] states[0].waygaps[g].wl_output
                    == output;
            assert(s.waygaps[g].wl_output == output);
        }
    }
}

proof fn lemma_regions_opened<Shm>(
    states: Seq<AppState<Shm>>,
    regions: Seq<usize>,
    registry_name: u32,
    output: u32,
    n: int,
)
    requires
        regions_opened(states, regions, registry_name, output),
        0 <= n <= regions.len(),
    ensures
        states[n] == (AppState {
            objects: states[n].objects,
            waygaps: states[n].waygaps,
            ..states[0]
        }),
        states[n].waygaps.len() == states[0].waygaps.len() + n,
        states[n].waygaps.take(states[0].waygaps.len() as int) == states[0].waygaps,
        forall|k: int|
            0 <= k < n ==> is_region_on(
                #[trigger] states[n].waygaps[states[0].waygaps.len() + k],
                states[0].config[regions[k] as int].1,
                registry_name,
                output,
            ),
    decreases n,
{
    let start = states[0].waygaps.len() as int;
    if n == 0 {
        assert(states[0].waygaps.take(start) =~= states[0].waygaps);
    } else {
        lemma_regions_opened(states, regions, registry_name, output, n - 1);
        let before = states[n - 1];
        let after = states[n];
        assert(region_opened(before, states[n - 1 + 1], regions[n - 1] as int, registry_name, output));
        assert forall|j: int| 0 <= j < before.waygaps.len() implies after.waygaps[j]
            == before.waygaps[j] by {
            assert(after.waygaps.drop_last()[j] == before.waygaps[j]);
        }
        assert(after.waygaps.take(start) =~= before.waygaps.take(start));
        assert forall|k: int| 0 <= k < n implies is_region_on(
            #[trigger] after.waygaps[start + k],
            states[0].config[regions[k] as int].1,
            registry_name,
            output,
        ) by {
            if k < n - 1 {
                assert(after.waygaps[start + k] == before.waygaps[start + k]);
            } else {
                assert(after.waygaps[start + k] == after.waygaps.last());
            }
        }
    }
}

/// A seat that gets a pointer and loses it again is as it was.
pub proof fn losing_undoes_gaining<Shm>(
    s: AppState<Shm>,
    seat: u32,
    with: u32,
    without: u32,
    pointer: u32,
    relative: u32,
)
    requires
        s.gains_pointer(seat, with),
        !offers_pointer(without),
    ensures
        s.pointer_gained(seat, pointer, relative).loses_pointer(seat, without),
        s.pointer_gained(seat, pointer, relative).pointer_lost(seat).seats == s.seats,
{
    let wanted = |other: Seat| other.id == seat;
    lemma_found(s.seats, wanted);
    let k = s.seat_at(seat)->0;
    let t = s.pointer_gained(seat, pointer, relative);
    assert forall|i: int| 0 <= i < t.seats.len() implies wanted(#[trigger] t.seats[i]) == wanted(
        s.seats[i],
    ) by {}
    lemma_same_place(t.seats, s.seats, wanted);
    assert(t.seats[k].pointer == Some(fresh_pointer(pointer, relative)));
    assert(t.pointer_lost(seat).seats =~= s.seats);
}

/// All seats but the one at place `k` are as they were.
pub open spec fn only_seat_changed<Shm>(s: AppState<Shm>, after: AppState<Shm>, k: int) -> bool {
    &&& after.seats.len() == s.seats.len()
    &&& forall|j: int| 0 <= j < s.seats.len() && j != k ==> #[trigger] after.seats[j] == s.seats[j]
}

/// A seat has a pointer if and only if its capabilities say so: it gets one, loses it, or is as
/// they say already. No other seat changes.
pub proof fn capabilities_decide<Shm>(
    s: AppState<Shm>,
    seat: u32,
    capabilities: u32,
    k: int,
    pointer: u32,
    relative: u32,
)
    requires
        s.seat_at(seat) == Some(k),
    ensures
        s.gains_pointer(seat, capabilities) ==> {
            let t = s.pointer_gained(seat, pointer, relative);
            &&& offers_pointer(capabilities) && t.seats[k].pointer is Some
            &&& t.seats[k].pointer->0.id == pointer
            &&& t.seats[k].pointer->0.relative_pointer_id == Some(relative)
            &&& only_seat_changed(s, t, k)
        },
        s.loses_pointer(seat, capabilities) ==> {
            let t = s.pointer_lost(seat);
            &&& !offers_pointer(capabilities) && t.seats[k].pointer is None
            &&& only_seat_changed(s, t, k)
        },
        !s.gains_pointer(seat, capabilities) && !s.loses_pointer(seat, capabilities) ==> (
        s.seats[k].pointer is Some <==> offers_pointer(capabilities)),
{
    lemma_found(s.seats, |other: Seat| other.id == seat);
}

/// Capabilities that a seat has told before change nothing: a pointer that was got with them stays,
/// and one that was lost with them is not lost again.
pub proof fn same_capabilities_change_nothing<Shm>(
    s: AppState<Shm>,
    seat: u32,
    capabilities: u32,
    pointer: u32,
    relative: u32,
)
    ensures
        s.gains_pointer(seat, capabilities) ==> {
            let t = s.pointer_gained(seat, pointer, relative);
            !t.gains_pointer(seat, capabilities) && !t.loses_pointer(seat, capabilities)
        },
        s.loses_pointer(seat, capabilities) ==> {
            let t = s.pointer_lost(seat);
            !t.gains_pointer(seat, capabilities) && !t.loses_pointer(seat, capabilities)
        },
{
    let wanted = |other: Seat| other.id == seat;
    lemma_found(s.seats, wanted);
    if s.gains_pointer(seat, capabilities) {
        let t = s.pointer_gained(seat, pointer, relative);
        assert forall|i: int| 0 <= i < t.seats.len() implies wanted(#[trigger] t.seats[i])
            == wanted(s.seats[i]) by {}
        lemma_same_place(t.seats, s.seats, wanted);
    }
    if s.loses_pointer(seat, capabilities) {
        let t = s.pointer_lost(seat);
        assert forall|i: int| 0 <= i < t.seats.len() implies wanted(#[trigger] t.seats[i])
            == wanted(s.seats[i]) by {}
        lemma_same_place(t.seats, s.seats, wanted);
    }
}

/// When a global goes, one region or one seat that came with it goes, and nothing else: all the
/// others stay, each as it was.
pub proof fn global_takes_its_own<Shm>(s: AppState<Shm>, name: u32)
    ensures
        ({
            let t = s.global_removed(name);
            &&& t == (AppState { waygaps: t.waygaps, seats: t.seats, ..s })
            &&& s.gap_of_global(name) matches Some(i) ==> {
                &&& s.waygaps[i].registry_name == name
                &&& t.waygaps.to_multiset() == s.waygaps.to_multiset().remove(s.waygaps[i])
                &&& t.seats == s.seats
            }
            &&& s.gap_of_global(name) is None ==> t.waygaps == s.waygaps
            &&& s.gap_of_global(name) is None && s.seat_of_global(name) is None ==> t == s
            &&& s.gap_of_global(name) is None ==> (s.seat_of_global(name) matches Some(k) ==> {
                &&& s.seats[k].registry_name == name
                &&& t.seats.to_multiset() == s.seats.to_multiset().remove(s.seats[k])
            })
        }),
{
    lemma_found(s.waygaps, |gap: WayGap<Shm>| gap.registry_name == name);
    lemma_found(s.seats, |seat: Seat| seat.registry_name == name);
    if let Some(i) = s.gap_of_global(name) {
        lemma_swap_removed(s.waygaps, i);
    } else if let Some(k) = s.seat_of_global(name) {
        lemma_swap_removed(s.seats, k);
    }
}

proof fn lemma_swap_removed<T>(s: Seq<T>, i: int)
    requires
        0 <= i < s.len(),
    ensures
        swap_removed(s, i).to_multiset() == s.to_multiset().remove(s[i]),
{
    broadcast use vstd::seq_lib::group_to_multiset_ensures;

    let last = s.last();
    let swapped = s.update(i, last);
    vstd::seq_lib::to_multiset_update(s, i, last);
    assert(swapped.drop_last() =~= swapped.remove(swapped.len() - 1));
    vstd::seq_lib::to_multiset_remove(swapped, swapped.len() - 1);
    assert(swapped.last() == last);
    assert(swap_removed(s, i).to_multiset() =~= s.to_multiset().remove(s[i]));
}

} // verus!
