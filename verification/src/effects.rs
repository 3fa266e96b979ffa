//! What each event does, said of the seats, regions and outputs themselves.

use vstd::prelude::*;

use crate::app::{
    can_draw, drawn, fresh_pointer, full_time, giving_back, grown_bufsize, has_pointer,
    has_relative_pointer, is_new_gap, missing, needs_drawing, offers_pointer, region_opened,
    scroll_rest, scroll_sum, AppState, Pending,
};
use crate::commands::{first_line, is_button, is_scroll, lines};
use crate::config::{Anchor, GapConfig, InputEvent};
use crate::gap::WayGap;
use crate::list::{first, is_first, lemma_first, lemma_found, swap_removed};
use crate::objects::WaylandObject;
use crate::protocol::{ButtonState, Request, WlAxis};
use crate::seat::{in_time, moved, Axis, AxisSource, Pointer, Seat};

verus! {

/// The seat at place `k` has the pointer `p`, with the id `id`, and no seat before it has a pointer
/// with that id.
pub open spec fn pointer_at<Shm>(s: AppState<Shm>, id: u32, k: int, p: Pointer) -> bool {
    &&& 0 <= k < s.seats.len()
    &&& s.seats[k].pointer == Some(p)
    &&& p.id == id
    &&& forall|j: int|
        0 <= j < k && (#[trigger] s.seats[j]).pointer is Some ==> s.seats[j].pointer->0.id != id
}

/// No seat has a pointer with the id `id`.
pub open spec fn no_pointer<Shm>(s: AppState<Shm>, id: u32) -> bool {
    forall|j: int|
        0 <= j < s.seats.len() && (#[trigger] s.seats[j]).pointer is Some
            ==> s.seats[j].pointer->0.id != id
}

/// The seat at place `k` has the pointer `p`, whose movements come from the object `id`, and no seat
/// before it has such a pointer.
pub open spec fn mover_at<Shm>(s: AppState<Shm>, id: u32, k: int, p: Pointer) -> bool {
    &&& 0 <= k < s.seats.len()
    &&& s.seats[k].pointer == Some(p)
    &&& p.relative_pointer_id == Some(id)
    &&& forall|j: int|
        0 <= j < k && (#[trigger] s.seats[j]).pointer is Some
            ==> s.seats[j].pointer->0.relative_pointer_id != Some(id)
}

/// No seat has a pointer whose movements come from the object `id`.
pub open spec fn no_mover<Shm>(s: AppState<Shm>, id: u32) -> bool {
    forall|j: int|
        0 <= j < s.seats.len() && (#[trigger] s.seats[j]).pointer is Some
            ==> s.seats[j].pointer->0.relative_pointer_id != Some(id)
}

/// `after` is `s` with the pointer `q` in the seat at place `k`, and nothing else is different.
pub open spec fn only_pointer_became<Shm>(
    s: AppState<Shm>,
    after: AppState<Shm>,
    k: int,
    q: Pointer,
) -> bool {
    &&& after.seats.len() == s.seats.len()
    &&& after.seats[k].pointer == Some(q)
    &&& after.seats[k].registry_name == s.seats[k].registry_name
    &&& after.seats[k].id == s.seats[k].id
    &&& forall|j: int| 0 <= j < s.seats.len() && j != k ==> #[trigger] after.seats[j] == s.seats[j]
    &&& after == (AppState { seats: after.seats, ..s })
}

/// An object of the program's own, of the kind `kind`, stands at `id`.
pub open spec fn stands_at(
    objects: Map<u32, WaylandObject>,
    kind: WaylandObject,
    id: u32,
) -> bool {
    1 <= id < 0xff00_0000 && objects.contains_key(id) && objects[id] == kind
}

/// No object of the program's own has the kind `kind`.
pub open spec fn none_of(objects: Map<u32, WaylandObject>, kind: WaylandObject) -> bool {
    forall|id: u32| 1 <= id < 0xff00_0000 && objects.contains_key(id) ==> #[trigger] objects[id] != kind
}

proof fn lemma_pointer_at<Shm>(s: AppState<Shm>, id: u32, k: int, p: Pointer)
    requires
        pointer_at(s, id, k, p),
    ensures
        first(s.seats, has_pointer(id)) == Some(k),
{
    assert(is_first(s.seats, has_pointer(id), k));
    lemma_first(s.seats, has_pointer(id), k);
}

proof fn lemma_no_pointer<Shm>(s: AppState<Shm>, id: u32)
    requires
        no_pointer(s, id),
    ensures
        first(s.seats, has_pointer(id)) is None,
{
    lemma_found(s.seats, has_pointer(id));
}

/// A pointer that comes into a region is in the first one with that surface, with the serial it came
/// with, and runs that region's command for coming in.
pub proof fn coming_in<Shm>(
    s: AppState<Shm>,
    id: u32,
    serial: u32,
    surface: u32,
    k: int,
    p: Pointer,
    i: int,
)
    requires
        pointer_at(s, id, k, p),
        0 <= i < s.waygaps.len() <= usize::MAX,
        s.waygaps[i].wl_surface == surface,
        forall|j: int| 0 <= j < i ==> (#[trigger] s.waygaps[j]).wl_surface != surface,
    ensures
        only_pointer_became(
            s,
            s.entered(id, serial, surface),
            k,
            Pointer { enter_serial: serial, current_waygap: Some(i as usize), ..p },
        ),
        s.enter_line(id, surface) == first_line(s.waygaps[i].commands@, InputEvent::Enter),
{
    lemma_pointer_at(s, id, k, p);
    let wanted = |gap: WayGap<Shm>| gap.wl_surface == surface;
    assert(is_first(s.waygaps, wanted, i));
    lemma_first(s.waygaps, wanted, i);
}

/// A pointer that no seat has, or a surface that no region has, changes and runs nothing.
pub proof fn coming_in_elsewhere<Shm>(s: AppState<Shm>, id: u32, serial: u32, surface: u32)
    requires
        no_pointer(s, id) || forall|j: int|
            0 <= j < s.waygaps.len() ==> (#[trigger] s.waygaps[j]).wl_surface != surface,
    ensures
        s.entered(id, serial, surface) == s,
        s.enter_line(id, surface) is None,
{
    if no_pointer(s, id) {
        lemma_no_pointer(s, id);
    } else {
        lemma_found(s.waygaps, |gap: WayGap<Shm>| gap.wl_surface == surface);
    }
}

/// A pointer that goes out is in no region, and runs the command for that of the region that it was
/// in, if it was in one.
pub proof fn going_out<Shm>(s: AppState<Shm>, id: u32, k: int, p: Pointer)
    requires
        pointer_at(s, id, k, p),
    ensures
        only_pointer_became(s, s.left(id), k, Pointer { current_waygap: None, ..p }),
        p.current_waygap is None ==> s.leave_line(id) is None,
        p.current_waygap is Some && p.current_waygap->0 < s.waygaps.len() ==> s.leave_line(id)
            == first_line(s.waygaps[p.current_waygap->0 as int].commands@, InputEvent::Leave),
        p.current_waygap is Some && p.current_waygap->0 >= s.waygaps.len() ==> s.leave_line(
            id,
        ) is None,
{
    lemma_pointer_at(s, id, k, p);
}

/// A button that is pressed is kept by its lower 16 bits, and one that is released is forgotten, in a
/// region or not.
pub proof fn pressing_and_releasing<Shm>(
    s: AppState<Shm>,
    id: u32,
    button: u32,
    k: int,
    p: Pointer,
    kept: u16,
)
    requires
        pointer_at(s, id, k, p),
        button % 0x1_0000 == kept,
    ensures
        only_pointer_became(
            s,
            s.clicked(id, button, ButtonState::Pressed),
            k,
            Pointer { button: kept, ..p },
        ),
        only_pointer_became(
            s,
            s.clicked(id, button, ButtonState::Released),
            k,
            Pointer { button: 0, ..p },
        ),
{
    lemma_pointer_at(s, id, k, p);
}

/// A scroll in a region adds to what has been scrolled before, and tells the axis; it adds up to
/// 2^63 at most, either way.
pub proof fn scrolling_in_a_region<Shm>(
    s: AppState<Shm>,
    id: u32,
    axis: WlAxis,
    value: i32,
    k: int,
    p: Pointer,
)
    requires
        pointer_at(s, id, k, p),
        p.current_waygap is Some,
        p.current_waygap->0 < s.waygaps.len(),
    ensures
        ({
            let q = s.scrolled(id, axis, value).seats[k].pointer->0;
            let sum = p.scroll + value;
            &&& only_pointer_became(
                s,
                s.scrolled(id, axis, value),
                k,
                Pointer { axis: q.axis, scroll: q.scroll, ..p },
            )
            &&& q.axis == Axis::Vertical <==> axis == WlAxis::VerticalScroll
            &&& i64::MIN <= sum <= i64::MAX ==> q.scroll == sum
            &&& sum > i64::MAX ==> q.scroll == i64::MAX
            &&& sum < i64::MIN ==> q.scroll == i64::MIN
        }),
{
    lemma_pointer_at(s, id, k, p);
}

/// What a frame acts upon: it forgets the button and the push, takes one step of 15 pixels off what
/// has been scrolled, and runs the commands for the button, then those for the direction of that
/// step, then that for the push.
pub proof fn acting_upon_a_frame<Shm>(s: AppState<Shm>, id: u32, k: int, p: Pointer, i: int)
    requires
        pointer_at(s, id, k, p),
        p.current_waygap is Some,
        p.current_waygap->0 == i,
        i < s.waygaps.len(),
    ensures
        ({
            let q = s.framed(id).seats[k].pointer->0;
            let commands = s.waygaps[i].commands@;
            let clicks = lines(commands, is_button(p.button));
            let scrolls = if p.scroll >= 3840 {
                lines(commands, is_scroll(p.axis, true))
            } else if p.scroll <= -3840 {
                lines(commands, is_scroll(p.axis, false))
            } else {
                Seq::empty()
            };
            let pushes = if p.should_trigger_edge && first_line(
                commands,
                InputEvent::Edge,
            ) is Some {
                seq![first_line(commands, InputEvent::Edge)->0]
            } else {
                Seq::empty()
            };
            &&& only_pointer_became(
                s,
                s.framed(id),
                k,
                Pointer { button: 0, should_trigger_edge: false, scroll: q.scroll, ..p },
            )
            &&& p.scroll >= 3840 ==> q.scroll == p.scroll - 3840
            &&& p.scroll <= -3840 ==> q.scroll == p.scroll + 3840
            &&& -3840 < p.scroll < 3840 ==> q.scroll == p.scroll
            &&& s.frame_lines(id) == clicks + scrolls + pushes
        }),
{
    lemma_pointer_at(s, id, k, p);
}

/// A pointer that is in no region that there is neither scrolls nor runs anything, and neither does
/// one that no seat has.
pub proof fn acting_outside<Shm>(s: AppState<Shm>, id: u32, axis: WlAxis, value: i32, k: int, p: Pointer)
    requires
        no_pointer(s, id) || pointer_at(s, id, k, p) && (p.current_waygap is None
            || p.current_waygap->0 >= s.waygaps.len()),
    ensures
        s.scrolled(id, axis, value) == s,
        s.framed(id) == s,
        s.frame_lines(id).len() == 0,
        no_pointer(s, id) ==> s.left(id) == s && s.leave_line(id) is None,
        no_pointer(s, id) ==> forall|button: u32, state: ButtonState| #[trigger]
            s.clicked(id, button, state) == s,
{
    if no_pointer(s, id) {
        lemma_no_pointer(s, id);
    } else {
        lemma_pointer_at(s, id, k, p);
    }
}

/// A movement presses against the region that the pointer is in, with that region's anchor and
/// force; outside of any region it does nothing.
pub proof fn moving<Shm>(
    s: AppState<Shm>,
    id: u32,
    time: u64,
    dx: i32,
    dy: i32,
    k: int,
    p: Pointer,
)
    requires
        mover_at(s, id, k, p),
    ensures
        p.current_waygap is Some && p.current_waygap->0 < s.waygaps.len() ==> {
            let gap = s.waygaps[p.current_waygap->0 as int];
            &&& only_pointer_became(
                s,
                s.moved(id, time, dx, dy),
                k,
                moved(p, gap.anchor, gap.activation_force, time, dx, dy),
            )
            &&& s.motion_in_time(id, time, dx, dy) == in_time(
                p,
                gap.anchor,
                gap.activation_force,
                time,
                dx,
                dy,
            )
        },
        p.current_waygap is None || p.current_waygap->0 >= s.waygaps.len() ==> s.moved(
            id,
            time,
            dx,
            dy,
        ) == s && s.motion_in_time(id, time, dx, dy),
{
    assert(is_first(s.seats, has_relative_pointer(id), k));
    lemma_first(s.seats, has_relative_pointer(id), k);
}

/// Movements from an object that belongs to no pointer do nothing.
pub proof fn moving_nothing<Shm>(s: AppState<Shm>, id: u32, time: u64, dx: i32, dy: i32)
    requires
        no_mover(s, id),
    ensures
        s.moved(id, time, dx, dy) == s,
        s.motion_in_time(id, time, dx, dy),
{
    lemma_found(s.seats, has_relative_pointer(id));
}

/// The time of a movement counts on in microseconds: within the lower half by as much as that, and
/// from its end into the upper half by one. It starts at 0, and a later time is never mistaken for an
/// earlier one.
pub proof fn time_counts_on(hi: u32, lo: u32, later_hi: u32, later_lo: u32)
    ensures
        full_time(0, 0) == 0,
        lo <= later_lo ==> full_time(hi, later_lo) - full_time(hi, lo) == later_lo - lo,
        hi < u32::MAX ==> full_time((hi + 1) as u32, 0) == full_time(hi, u32::MAX) + 1,
        full_time(hi, lo) == full_time(later_hi, later_lo) <==> hi == later_hi && lo == later_lo,
        hi < later_hi ==> full_time(hi, lo) < full_time(later_hi, later_lo),
        full_time(hi, lo) >> 32u64 == hi,
        full_time(hi, lo) & 0xffff_ffff == lo,
{
    let time = full_time(hi, lo);
    assert(time == hi as u64 * 0x1_0000_0000 + lo as u64);
    assert(time >> 32u64 == time / 0x1_0000_0000) by (bit_vector);
    assert(time & 0xffff_ffff == time % 0x1_0000_0000) by (bit_vector);
}

/// Of two hard pushes whose times differ in the lower half alone, by more than 250000 microseconds,
/// the second triggers as the first does, later by that difference.
pub proof fn later_pushes_trigger_again(
    p: Pointer,
    anchor: Anchor,
    force: u32,
    hi: u32,
    lo: u32,
    wait: u32,
    dx: i32,
    dy: i32,
)
    requires
        lo + wait <= u32::MAX,
        wait > 250000,
        full_time(hi, lo) > p.last_trigger_time + 250000,
        (anchor == Anchor::Left && -dx > force * 256) || (anchor == Anchor::Right && dx > force
            * 256) || (anchor == Anchor::Top && -dy > force * 256) || (anchor == Anchor::Bottom
            && dy > force * 256) || (anchor == Anchor::TopRight && dx > force * 256) || (anchor
            == Anchor::TopLeft && -dx > force * 256) || (anchor == Anchor::BottomRight && dx
            > force * 256) || (anchor == Anchor::BottomLeft && -dx > force * 256),
    ensures
        ({
            let once = moved(p, anchor, force, full_time(hi, lo), dx, dy);
            let between = Pointer { should_trigger_edge: false, ..once };
            let twice = moved(between, anchor, force, full_time(hi, (lo + wait) as u32), dx, dy);
            &&& once.should_trigger_edge
            &&& twice.should_trigger_edge
            &&& twice.last_trigger_time - once.last_trigger_time == wait
        }),
{
    time_counts_on(hi, lo, hi, (lo + wait) as u32);
    crate::seat::movement_in_full(p, anchor, force, full_time(hi, lo), dx, dy);
    let once = moved(p, anchor, force, full_time(hi, lo), dx, dy);
    let between = Pointer { should_trigger_edge: false, ..once };
    crate::seat::movement_in_full(
        between,
        anchor,
        force,
        full_time(hi, (lo + wait) as u32),
        dx,
        dy,
    );
}

/// A seat offers a pointer where the lowest bit of its capabilities is set, whatever the other bits
/// are.
pub proof fn lowest_bit_offers_a_pointer(capabilities: u32, others: u32)
    ensures
        offers_pointer(capabilities) <==> capabilities & 1 == 1,
        others & 1 == 0 ==> offers_pointer(capabilities | others) == offers_pointer(capabilities),
        offers_pointer(capabilities | 1),
{
    assert((capabilities & 1 == 1) == (capabilities % 2 == 1)) by (bit_vector);
    let both = capabilities | others;
    assert((both & 1 == 1) == (both % 2 == 1)) by (bit_vector);
    assert(others & 1 == 0 ==> (capabilities | others) & 1 == capabilities & 1) by (bit_vector);
    let set = capabilities | 1;
    assert((set & 1 == 1) == (set % 2 == 1)) by (bit_vector);
    assert((capabilities | 1) & 1 == 1) by (bit_vector);
}

/// A seat that is told to have a pointer, and has none, gets one that has done nothing yet; one that
/// is told to have none loses the one that it has; and nothing else changes.
pub proof fn following_capabilities<Shm>(
    s: AppState<Shm>,
    seat: u32,
    capabilities: u32,
    k: int,
    pointer: u32,
    relative: u32,
)
    requires
        0 <= k < s.seats.len(),
        s.seats[k].id == seat,
        forall|j: int| 0 <= j < k ==> (#[trigger] s.seats[j]).id != seat,
    ensures
        s.gains_pointer(seat, capabilities) <==> capabilities & 1 == 1 && s.seats[k].pointer is None,
        s.loses_pointer(seat, capabilities) <==> capabilities & 1 == 0 && s.seats[k].pointer is Some,
        ({
            let t = s.pointer_gained(seat, pointer, relative);
            let q = t.seats[k].pointer->0;
            &&& only_pointer_became(
                AppState {
                    objects: s.objects.insert(pointer, WaylandObject::Pointer).insert(
                        relative,
                        WaylandObject::RelativePointer,
                    ),
                    ..s
                },
                t,
                k,
                q,
            )
            &&& q.id == pointer
            &&& q.relative_pointer_id == Some(relative)
            &&& q.pressure_x == 0 && q.pressure_y == 0
            &&& q.last_time == 0 && q.last_trigger_time == 0
            &&& !q.should_trigger_edge
            &&& q.button == 0 && q.scroll == 0 && q.scroll120 == 0 && q.enter_serial == 0
            &&& q.axis == Axis::Vertical && q.source == AxisSource::Unknown
            &&& q.current_waygap is None
        }),
        ({
            let t = s.pointer_lost(seat);
            &&& t.seats.len() == s.seats.len()
            &&& t.seats[k].pointer is None
            &&& t.seats[k].id == seat
            &&& t.seats[k].registry_name == s.seats[k].registry_name
            &&& forall|j: int|
                0 <= j < s.seats.len() && j != k ==> #[trigger] t.seats[j] == s.seats[j]
            &&& t == (AppState { seats: t.seats, ..s })
        }),
{
    let wanted = |other: Seat| other.id == seat;
    assert(is_first(s.seats, wanted, k));
    lemma_first(s.seats, wanted, k);
    assert((capabilities & 1 == 1) == (capabilities % 2 == 1)) by (bit_vector);
    assert(capabilities & 1 == 1 || capabilities & 1 == 0) by (bit_vector);
    assert(s.pointer_gained(seat, pointer, relative).seats[k].pointer == Some(
        fresh_pointer(pointer, relative),
    ));
}

/// A seat that there is not neither gets nor loses anything.
pub proof fn following_no_seat<Shm>(s: AppState<Shm>, seat: u32, capabilities: u32)
    requires
        forall|j: int| 0 <= j < s.seats.len() ==> (#[trigger] s.seats[j]).id != seat,
    ensures
        !s.gains_pointer(seat, capabilities),
        !s.loses_pointer(seat, capabilities),
{
    lemma_found(s.seats, |other: Seat| other.id == seat);
}

/// A pointer is given back by its own id, after what its movements come from.
pub proof fn pointers_are_given_back(p: Pointer)
    ensures
        giving_back(p).last() == (Request::ReleasePointer { pointer: p.id }),
        p.relative_pointer_id is None ==> giving_back(p).len() == 1,
        p.relative_pointer_id is Some ==> giving_back(p).len() == 2 && giving_back(p)[0] == (
        Request::DestroyRelativePointer { relative_pointer: p.relative_pointer_id->0 }),
{
}

/// What an output tells about itself is kept for the first one that waits under that id, and for no
/// other; an output that does not wait tells nothing.
pub proof fn outputs_tell<Shm>(s: AppState<Shm>, output: u32, text: Seq<char>, i: int, j: int)
    requires
        0 <= i < s.pending_outputs.len(),
        s.pending_outputs[i].id == output,
        forall|n: int| 0 <= n < i ==> (#[trigger] s.pending_outputs[n]).id != output,
        0 <= j < s.pending_outputs.len(),
    ensures
        ({
            let t = s.output_named(output, text);
            let u = s.output_described(output, text);
            let was = s.pending_outputs;
            &&& t == (AppState { pending_outputs: t.pending_outputs, ..s })
            &&& t.pending_outputs.len() == was.len()
            &&& t.pending_outputs[i] == (Pending { name: text, ..was[i] })
            &&& j != i ==> t.pending_outputs[j] == was[j]
            &&& u == (AppState { pending_outputs: u.pending_outputs, ..s })
            &&& u.pending_outputs.len() == was.len()
            &&& u.pending_outputs[i] == (Pending { description: text, ..was[i] })
            &&& j != i ==> u.pending_outputs[j] == was[j]
        }),
{
    let wanted = |pending: Pending| pending.id == output;
    assert(is_first(s.pending_outputs, wanted, i));
    lemma_first(s.pending_outputs, wanted, i);
}

/// An output that waits, and on which there is no region, is ready when it says so; it waits no
/// longer, and all others still do.
pub proof fn outputs_get_ready<Shm>(s: AppState<Shm>, output: u32, i: int)
    requires
        0 <= i < s.pending_outputs.len(),
        s.pending_outputs[i].id == output,
        forall|n: int| 0 <= n < i ==> (#[trigger] s.pending_outputs[n]).id != output,
        forall|g: int| 0 <= g < s.waygaps.len() ==> (#[trigger] s.waygaps[g]).wl_output != output,
    ensures
        ({
            let t = s.output_done(output);
            &&& s.ready(output) == Some(i)
            &&& t == (AppState { pending_outputs: t.pending_outputs, ..s })
            &&& t.pending_outputs.len() == s.pending_outputs.len() - 1
            &&& forall|n: int|
                0 <= n < s.pending_outputs.len() - 1 ==> #[trigger] t.pending_outputs[n]
                    == s.pending_outputs[if n == i {
                    s.pending_outputs.len() - 1
                } else {
                    n
                }]
        }),
{
    let wanted = |pending: Pending| pending.id == output;
    assert(is_first(s.pending_outputs, wanted, i));
    lemma_first(s.pending_outputs, wanted, i);
}

/// An output that does not wait, or on which there is a region already, is passed over.
pub proof fn outputs_are_passed_over<Shm>(s: AppState<Shm>, output: u32, g: int, text: Seq<char>)
    requires
        (0 <= g < s.waygaps.len() && s.waygaps[g].wl_output == output) || forall|n: int|
            0 <= n < s.pending_outputs.len() ==> (#[trigger] s.pending_outputs[n]).id != output,
    ensures
        s.ready(output) is None,
        s.output_done(output) == s,
        (forall|n: int|
            0 <= n < s.pending_outputs.len() ==> (#[trigger] s.pending_outputs[n]).id != output)
            ==> s.output_named(output, text) == s && s.output_described(output, text) == s,
{
    lemma_found(s.pending_outputs, |pending: Pending| pending.id == output);
}

/// The first region of a global that goes leaves with it; where there is none, the first seat of it
/// does; where there is neither, nothing changes.
pub proof fn globals_go<Shm>(s: AppState<Shm>, name: u32, i: int)
    ensures
        0 <= i < s.waygaps.len() && s.waygaps[i].registry_name == name && (forall|j: int|
            0 <= j < i ==> (#[trigger] s.waygaps[j]).registry_name != name) ==> s.global_removed(
            name,
        ) == (AppState { waygaps: swap_removed(s.waygaps, i), ..s }),
        (forall|j: int|
            0 <= j < s.waygaps.len() ==> (#[trigger] s.waygaps[j]).registry_name != name) && 0 <= i
            < s.seats.len() && s.seats[i].registry_name == name && (forall|j: int|
            0 <= j < i ==> (#[trigger] s.seats[j]).registry_name != name) ==> s.global_removed(name)
            == (AppState { seats: swap_removed(s.seats, i), ..s }),
        (forall|j: int|
            0 <= j < s.waygaps.len() ==> (#[trigger] s.waygaps[j]).registry_name != name) && (
        forall|j: int| 0 <= j < s.seats.len() ==> (#[trigger] s.seats[j]).registry_name != name)
            ==> s.global_removed(name) == s,
{
    let gap_of_it = |gap: WayGap<Shm>| gap.registry_name == name;
    let seat_of_it = |seat: Seat| seat.registry_name == name;
    lemma_found(s.waygaps, gap_of_it);
    lemma_found(s.seats, seat_of_it);
    if 0 <= i < s.waygaps.len() && s.waygaps[i].registry_name == name && (forall|j: int|
        0 <= j < i ==> (#[trigger] s.waygaps[j]).registry_name != name) {
        assert(is_first(s.waygaps, gap_of_it, i));
        lemma_first(s.waygaps, gap_of_it, i);
    }
    if 0 <= i < s.seats.len() && s.seats[i].registry_name == name && (forall|j: int|
        0 <= j < i ==> (#[trigger] s.seats[j]).registry_name != name) {
        assert(is_first(s.seats, seat_of_it, i));
        lemma_first(s.seats, seat_of_it, i);
    }
}

/// A region is drawn again for a new size, and for its first one: it then has that size and memory
/// for all its pixels, at four bytes each, or what it had where that is more.
pub proof fn drawing_at_a_size<Shm>(
    s: AppState<Shm>,
    layer_surface: u32,
    width: u32,
    height: u32,
    pool: u32,
    buffer: u32,
    i: int,
)
    requires
        0 <= i < s.waygaps.len(),
        s.waygaps[i].layer_surface == layer_surface,
        forall|j: int| 0 <= j < i ==> (#[trigger] s.waygaps[j]).layer_surface != layer_surface,
    ensures
        ({
            let gap = s.waygaps[i];
            let same = gap.configured && gap.width == width && gap.height == height;
            &&& same ==> s.to_draw(layer_surface, width, height) is None
            &&& !same ==> s.to_draw(layer_surface, width, height) == Some(i)
            &&& same ==> s.can_configure(layer_surface, width, height)
            &&& !same ==> (s.can_configure(layer_surface, width, height) <==> can_draw(
                gap,
                width,
                height,
                s.preview,
            ))
        }),
        ({
            let t = s.frame_drawn(i, width, height, pool, buffer);
            let gap = s.waygaps[i];
            let now = t.waygaps[i];
            &&& width * height * 4 <= u32::MAX ==> now.bufsize >= width * height * 4
                && now.bufsize >= gap.bufsize && (now.bufsize == width * height * 4 || now.bufsize
                == gap.bufsize)
            &&& now.width == width && now.height == height && now.configured
            &&& now == (WayGap { width, height, configured: true, bufsize: now.bufsize, ..gap })
            &&& t.waygaps.len() == s.waygaps.len()
            &&& forall|j: int|
                0 <= j < s.waygaps.len() && j != i ==> #[trigger] t.waygaps[j] == s.waygaps[j]
            &&& t.objects == s.objects.insert(pool, WaylandObject::ShmPool).insert(
                buffer,
                WaylandObject::Buffer,
            )
            &&& t == (AppState { objects: t.objects, waygaps: t.waygaps, ..s })
        }),
        ({
            let t = s.frame_shown(i);
            &&& t.waygaps.len() == s.waygaps.len()
            &&& t.waygaps[i] == (WayGap { redraw: false, ..s.waygaps[i] })
            &&& forall|j: int|
                0 <= j < s.waygaps.len() && j != i ==> #[trigger] t.waygaps[j] == s.waygaps[j]
            &&& t == (AppState { waygaps: t.waygaps, ..s })
        }),
{
    let wanted = |gap: WayGap<Shm>| gap.layer_surface == layer_surface;
    assert(is_first(s.waygaps, wanted, i));
    lemma_first(s.waygaps, wanted, i);
    assert(needs_drawing(s.waygaps[i], width, height) <==> !(s.waygaps[i].configured
        && s.waygaps[i].width == width && s.waygaps[i].height == height));
    assert(drawn(s.waygaps[i], width, height).bufsize == grown_bufsize(
        s.waygaps[i],
        width,
        height,
    ) as u32);
}

/// A size for a surface that no region has asks for nothing, and can always be taken.
pub proof fn drawing_nothing<Shm>(s: AppState<Shm>, layer_surface: u32, width: u32, height: u32)
    requires
        forall|j: int|
            0 <= j < s.waygaps.len() ==> (#[trigger] s.waygaps[j]).layer_surface != layer_surface,
    ensures
        s.to_draw(layer_surface, width, height) is None,
        s.can_configure(layer_surface, width, height),
{
    lemma_found(s.waygaps, |gap: WayGap<Shm>| gap.layer_surface == layer_surface);
}

/// Every ordinary size can be drawn: one with something to see, and memory below 2^29 bytes.
pub proof fn ordinary_sizes_can_be_drawn<Shm>(gap: WayGap<Shm>, width: u32, height: u32)
    requires
        width >= 1,
        height >= 1,
        width * height * 4 < 0x2000_0000,
        gap.bufsize < 0x2000_0000,
    ensures
        can_draw(gap, width, height, true),
        can_draw(gap, width, height, false),
{
    assert(width <= width * height) by (nonlinear_arith)
        requires
            width >= 1,
            height >= 1,
    ;
}

/// A size can be drawn where all its bytes can be counted in 32 bits, where a row and the memory, the
/// larger of the old and the new, still can as signed numbers when they are taken four times, and,
/// for the preview, where there is something to see.
pub proof fn sizes_that_can_be_drawn<Shm>(
    gap: WayGap<Shm>,
    width: u32,
    height: u32,
    preview: bool,
    bytes: int,
)
    requires
        bytes >= width * height * 4 && bytes >= gap.bufsize,
        bytes == width * height * 4 || bytes == gap.bufsize,
    ensures
        can_draw(gap, width, height, preview) <==> width * height * 4 <= u32::MAX && (width
            < 0x2000_0000 || width >= 0xe000_0000) && (bytes < 0x2000_0000 || bytes >= 0xe000_0000)
            && (preview ==> width >= 1 && height >= 1),
{
}

/// A region that has been opened is as the configuration says, in the next free surface and layer
/// surface, on its output, after all the others, which stay.
pub proof fn opening_a_region<Shm>(
    s: AppState<Shm>,
    after: AppState<Shm>,
    region: int,
    registry_name: u32,
    output: u32,
)
    requires
        region_opened(s, after, region, registry_name, output),
    ensures
        ({
            let gap = after.waygaps.last();
            let config = s.config[region].1;
            let along_top = config.anchor == Anchor::Top || config.anchor == Anchor::Bottom;
            let along_side = config.anchor == Anchor::Left || config.anchor == Anchor::Right;
            &&& after.waygaps == s.waygaps.push(gap)
            &&& after == (AppState { objects: after.objects, waygaps: after.waygaps, ..s })
            &&& after.objects == s.objects.insert(gap.wl_surface, WaylandObject::Surface).insert(
                gap.layer_surface,
                WaylandObject::LayerSurface,
            )
            &&& !s.objects.contains_key(gap.wl_surface)
            &&& !s.objects.contains_key(gap.layer_surface)
            &&& gap.wl_surface != gap.layer_surface
            &&& gap.registry_name == registry_name
            &&& gap.wl_output == output
            &&& gap.anchor == config.anchor
            &&& gap.commands@ == config.commands@
            &&& gap.preview_color == config.preview_color
            &&& gap.activation_force == config.activation_force
            &&& gap.width == (if along_top {
                0
            } else {
                config.size
            })
            &&& gap.height == (if along_side {
                0
            } else {
                config.size
            })
            &&& gap.bufsize == 0 && !gap.configured && !gap.redraw
        }),
{
    let gap = after.waygaps.last();
    assert(after.waygaps =~= after.waygaps.drop_last().push(gap));
}

/// A region that has just been made is as it was configured.
pub proof fn new_regions_are_as_configured<Shm>(
    gap: WayGap<Shm>,
    config: GapConfig,
    registry_name: u32,
    wl_surface: u32,
    layer_surface: u32,
    wl_output: u32,
    shm: Shm,
)
    requires
        is_new_gap(gap, config, registry_name, wl_surface, layer_surface, wl_output, shm),
    ensures
        gap.registry_name == registry_name,
        gap.wl_surface == wl_surface,
        gap.layer_surface == layer_surface,
        gap.wl_output == wl_output,
        gap.shm == shm,
        gap.anchor == config.anchor,
        gap.commands@ == config.commands@,
        gap.preview_color == config.preview_color,
        gap.activation_force == config.activation_force,
        gap.bufsize == 0,
        !gap.configured,
        !gap.redraw,
{
}

/// Outputs, seats and objects that are taken in come after those that there are, and nothing else
/// changes; an object that is deleted is gone; and the program that has to end only does that.
pub proof fn taking_in<Shm>(
    s: AppState<Shm>,
    registry_name: u32,
    id: u32,
    other: u32,
    kind: WaylandObject,
)
    ensures
        ({
            let t = s.output_created(registry_name, id);
            let new = t.pending_outputs.last();
            &&& t.pending_outputs == s.pending_outputs.push(new)
            &&& new.registry_name == registry_name
            &&& new.id == id
            &&& new.name.len() == 0 && new.description.len() == 0
            &&& t.objects == s.objects.insert(id, WaylandObject::Output)
            &&& t == (AppState { objects: t.objects, pending_outputs: t.pending_outputs, ..s })
        }),
        ({
            let t = s.seat_created(registry_name, id);
            let new = t.seats.last();
            &&& t.seats == s.seats.push(new)
            &&& new.registry_name == registry_name
            &&& new.id == id
            &&& new.pointer is None
            &&& t.objects == s.objects.insert(id, WaylandObject::Seat)
            &&& t == (AppState { objects: t.objects, seats: t.seats, ..s })
        }),
        ({
            let t = s.object_made(id, kind);
            &&& t.objects.contains_key(id) && t.objects[id] == kind
            &&& other != id ==> t.objects.contains_key(other) == s.objects.contains_key(other)
                && t.objects[other] == s.objects[other]
            &&& t == (AppState { objects: t.objects, ..s })
        }),
        ({
            let t = s.id_deleted(id);
            &&& !t.objects.contains_key(id)
            &&& other != id ==> t.objects.contains_key(other) == s.objects.contains_key(other)
            &&& other != id && s.objects.contains_key(other) ==> t.objects[other]
                == s.objects[other]
            &&& t == (AppState { objects: t.objects, ..s })
        }),
        s.ended().exit,
        s.ended() == (AppState { exit: true, ..s }),
{
    assert(s.output_created(registry_name, id).pending_outputs =~= s.pending_outputs.push(
        s.output_created(registry_name, id).pending_outputs.last(),
    ));
    assert(s.seat_created(registry_name, id).seats =~= s.seats.push(
        s.seat_created(registry_name, id).seats.last(),
    ));
}

/// The program needs an object of each of five kinds. What is missing is the first of them of which
/// it has none, and nothing is missing where it has them all.
pub proof fn what_is_missing(
    objects: Map<u32, WaylandObject>,
    registry: u32,
    compositor: u32,
    layer_shell: u32,
    shm: u32,
    manager: u32,
)
    ensures
        none_of(objects, WaylandObject::Registry) ==> missing(objects) == Some(
            WaylandObject::Registry,
        ),
        stands_at(objects, WaylandObject::Registry, registry) ==> {
            &&& none_of(objects, WaylandObject::Compositor) ==> missing(objects) == Some(
                WaylandObject::Compositor,
            )
            &&& stands_at(objects, WaylandObject::Compositor, compositor) ==> {
                &&& none_of(objects, WaylandObject::LayerShell) ==> missing(objects) == Some(
                    WaylandObject::LayerShell,
                )
                &&& stands_at(objects, WaylandObject::LayerShell, layer_shell) ==> {
                    &&& none_of(objects, WaylandObject::Shm) ==> missing(objects) == Some(
                        WaylandObject::Shm,
                    )
                    &&& stands_at(objects, WaylandObject::Shm, shm) ==> {
                        &&& none_of(objects, WaylandObject::RelativePointerMgr) ==> missing(objects)
                            == Some(WaylandObject::RelativePointerMgr)
                        &&& stands_at(objects, WaylandObject::RelativePointerMgr, manager)
                            ==> missing(objects) is None
                    }
                }
            }
        },
{
}

/// Scrolls in a row add up, and what a frame leaves of a scroll is nearer to nothing, by one step.
pub proof fn scrolls_add_up(scroll: i64, a: i32, b: i32, both: i32)
    requires
        both == a + b,
        i64::MIN <= scroll + a <= i64::MAX,
    ensures
        scroll_sum(scroll_sum(scroll, a), b) == scroll_sum(scroll, both),
        scroll_sum(scroll, 0) == scroll,
        scroll >= 3840 ==> scroll - scroll_rest(scroll) == 3840,
        scroll <= -3840 ==> scroll_rest(scroll) - scroll == 3840,
        -3840 < scroll < 3840 ==> scroll_rest(scroll) == scroll,
{
}

} // verus!
