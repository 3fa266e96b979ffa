//! Seats and their pointers.
//!
//! Movements and scroll values are counted in 256ths of a pixel, as they come off the wire.

use vstd::prelude::*;

use crate::config::Anchor;
use crate::gap::{at_bottom, at_left, at_right, at_top};
use crate::protocol::{WlAxis, WlAxisSource};

verus! {

/// One pixel.
pub const PIXEL: u32 = 256;

/// The pause in a movement, in microseconds, after which pressure starts from nothing.
pub const PRESSURE_PAUSE: u64 = 400;

/// The time, in microseconds, for which an edge stays quiet once it has been triggered.
pub const TRIGGER_PAUSE: u64 = 250000;

/// The scroll value that counts as one step: 15 pixels.
pub const SCROLL_STEP: i64 = 3840;

/// The axis of a scroll movement.
#[derive(Clone, Copy, Debug, PartialEq, Eq, Structural)]
pub enum Axis {
    Vertical,
    Horizontal,
}

impl vstd::std_specs::convert::FromSpecImpl<WlAxis> for Axis {
    open spec fn obeys_from_spec() -> bool {
        true
    }

    open spec fn from_spec(axis: WlAxis) -> Axis {
        match axis {
            WlAxis::VerticalScroll => Axis::Vertical,
            WlAxis::HorizontalScroll => Axis::Horizontal,
        }
    }
}

impl From<WlAxis> for Axis {
    fn from(axis: WlAxis) -> (r: Axis) {
        match axis {
            WlAxis::VerticalScroll => Axis::Vertical,
            WlAxis::HorizontalScroll => Axis::Horizontal,
        }
    }
}

/// The source of a scroll movement.
#[derive(Clone, Copy, Debug, PartialEq, Eq, Structural)]
pub enum AxisSource {
    Wheel,
    Finger,
    Continuous,
    WheelTilt,
    Unknown,
}

impl vstd::std_specs::convert::FromSpecImpl<WlAxisSource> for AxisSource {
    open spec fn obeys_from_spec() -> bool {
        true
    }

    open spec fn from_spec(source: WlAxisSource) -> AxisSource {
        match source {
            WlAxisSource::Wheel => AxisSource::Wheel,
            WlAxisSource::Finger => AxisSource::Finger,
            WlAxisSource::Continuous => AxisSource::Continuous,
            WlAxisSource::WheelTilt => AxisSource::WheelTilt,
        }
    }
}

impl From<WlAxisSource> for AxisSource {
    fn from(source: WlAxisSource) -> (r: AxisSource) {
        match source {
            WlAxisSource::Wheel => AxisSource::Wheel,
            WlAxisSource::Finger => AxisSource::Finger,
            WlAxisSource::Continuous => AxisSource::Continuous,
            WlAxisSource::WheelTilt => AxisSource::WheelTilt,
        }
    }
}

/// What a pointer has done since the last frame, and where it is.
#[derive(Clone, Copy, Debug)]
pub struct Pointer {
    pub id: u32,
    pub relative_pointer_id: Option<u32>,
    /// How far the pointer has been pushed beyond the left or right edge of the screen.
    pub pressure_x: u64,
    /// How far the pointer has been pushed beyond the top or bottom edge of the screen.
    pub pressure_y: u64,
    pub last_time: u64,
    pub last_trigger_time: u64,
    pub should_trigger_edge: bool,
    pub button: u16,
    pub enter_serial: u32,
    pub scroll: i64,
    pub scroll120: i32,
    pub axis: Axis,
    pub source: AxisSource,
    /// The place of the region that the pointer is in, among all regions.
    pub current_waygap: Option<usize>,
}

/// How far a movement to the right goes beyond the edge of a region at `anchor`: a movement back
/// counts below zero, and one along the edge not at all.
pub open spec fn outward_x(anchor: Anchor, dx: i32) -> int {
    if at_left(anchor) {
        -dx
    } else if at_right(anchor) {
        dx as int
    } else {
        0
    }
}

/// How far a downward movement goes beyond the edge of a region at `anchor`: a movement back
/// counts below zero, and one along the edge not at all.
pub open spec fn outward_y(anchor: Anchor, dy: i32) -> int {
    if at_top(anchor) {
        -dy
    } else if at_bottom(anchor) {
        dy as int
    } else {
        0
    }
}

/// The pressure after a movement: it grows outward, and is gone after more than a pixel back.
pub open spec fn pushed(pressure: u64, outward: int) -> u64 {
    if outward > 0 {
        if pressure + outward <= u64::MAX {
            (pressure + outward) as u64
        } else {
            u64::MAX
        }
    } else if outward < -PIXEL {
        0
    } else {
        pressure
    }
}

/// The pressure has been overcome in one of the two directions.
pub open spec fn overcomes(pressure_x: u64, pressure_y: u64, force: u32) -> bool {
    pressure_x > force * PIXEL || pressure_y > force * PIXEL
}

/// The pressure after the movement, as it builds up from the pressure `before` it.
pub open spec fn built_up(p: Pointer, time: u64, before: u64, outward: int) -> u64 {
    pushed(
        if time - p.last_time > PRESSURE_PAUSE {
            0
        } else {
            before
        },
        outward,
    )
}

/// A movement is hard enough to trigger an edge.
pub open spec fn breaks_through(
    p: Pointer,
    anchor: Anchor,
    force: u32,
    time: u64,
    dx: i32,
    dy: i32,
) -> bool {
    overcomes(
        built_up(p, time, p.pressure_x, outward_x(anchor, dx)),
        built_up(p, time, p.pressure_y, outward_y(anchor, dy)),
        force,
    )
}

/// A movement triggers the edge: it is hard enough, and the last time is long enough ago.
pub open spec fn triggers(
    p: Pointer,
    anchor: Anchor,
    force: u32,
    time: u64,
    dx: i32,
    dy: i32,
) -> bool {
    &&& breaks_through(p, anchor, force, time, dx, dy)
    &&& time - p.last_trigger_time > TRIGGER_PAUSE
}

/// The pointer after a movement against a region at `anchor`.
pub open spec fn moved(p: Pointer, anchor: Anchor, force: u32, time: u64, dx: i32, dy: i32) -> Pointer {
    let through = breaks_through(p, anchor, force, time, dx, dy);
    let triggered = triggers(p, anchor, force, time, dx, dy);
    Pointer {
        pressure_x: if through {
            0
        } else {
            built_up(p, time, p.pressure_x, outward_x(anchor, dx))
        },
        pressure_y: if through {
            0
        } else {
            built_up(p, time, p.pressure_y, outward_y(anchor, dy))
        },
        should_trigger_edge: p.should_trigger_edge || triggered,
        last_trigger_time: if triggered {
            time
        } else {
            p.last_trigger_time
        },
        last_time: time,
        ..p
    }
}

/// The time does not run back behind the last trigger, where that is looked at.
pub open spec fn in_time(p: Pointer, anchor: Anchor, force: u32, time: u64, dx: i32, dy: i32) -> bool {
    breaks_through(p, anchor, force, time, dx, dy) ==> time >= p.last_trigger_time
}

/// The pressure after a movement.
fn push(pressure: u64, outward: i64) -> (r: u64)
    ensures
        r == pushed(pressure, outward as int),
{
    if outward > 0 {
        pressure.saturating_add(outward as u64)
    } else if outward < -256 {
        0
    } else {
        pressure
    }
}

impl Pointer {
    /// A pointer that has not done anything, and is in no region.
    pub fn new(id: u32) -> (r: Pointer)
        ensures
            r == (Pointer {
                id,
                relative_pointer_id: None,
                pressure_x: 0,
                pressure_y: 0,
                last_time: 0,
                last_trigger_time: 0,
                should_trigger_edge: false,
                button: 0,
                enter_serial: 0,
                scroll: 0,
                scroll120: 0,
                axis: Axis::Vertical,
                source: AxisSource::Unknown,
                current_waygap: None,
            }),
    {
        Pointer {
            id,
            relative_pointer_id: None,
            pressure_x: 0,
            pressure_y: 0,
            last_time: 0,
            last_trigger_time: 0,
            should_trigger_edge: false,
            button: 0,
            enter_serial: 0,
            scroll: 0,
            scroll120: 0,
            axis: Axis::Vertical,
            source: AxisSource::Unknown,
            current_waygap: None,
        }
    }

    /// The pressure in both directions after a movement against a region at `anchor`.
    fn pressed(&self, anchor: Anchor, time: u64, dx: i32, dy: i32) -> (r: (u64, u64))
        ensures
            r.0 == built_up(*self, time, self.pressure_x, outward_x(anchor, dx)),
            r.1 == built_up(*self, time, self.pressure_y, outward_y(anchor, dy)),
    {
        let dt: u64 = time.saturating_sub(self.last_time);
        let (before_x, before_y): (u64, u64) = if dt > PRESSURE_PAUSE {
            (0, 0)
        } else {
            (self.pressure_x, self.pressure_y)
        };
        let out_x: i64 = match anchor {
            Anchor::Left | Anchor::TopLeft | Anchor::BottomLeft => -(dx as i64),
            Anchor::Right | Anchor::TopRight | Anchor::BottomRight => dx as i64,
            _ => 0,
        };
        let out_y: i64 = match anchor {
            Anchor::Top | Anchor::TopLeft | Anchor::TopRight => -(dy as i64),
            Anchor::Bottom | Anchor::BottomLeft | Anchor::BottomRight => dy as i64,
            _ => 0,
        };
        (push(before_x, out_x), push(before_y, out_y))
    }

    /// Whether the time does not run back behind the last trigger, where that is looked at.
    pub fn is_in_time(&self, anchor: Anchor, force: u32, time: u64, dx: i32, dy: i32) -> (r: bool)
        ensures
            r == in_time(*self, anchor, force, time, dx, dy),
    {
        let (pressure_x, pressure_y) = self.pressed(anchor, time, dx, dy);
        let limit: u64 = force as u64 * PIXEL as u64;
        !(pressure_x > limit || pressure_y > limit) || time >= self.last_trigger_time
    }

    /// Takes in a movement of the pointer in a region at `anchor`.
    pub fn relative_motion(&mut self, anchor: Anchor, force: u32, time: u64, dx: i32, dy: i32)
        requires
            in_time(*old(self), anchor, force, time, dx, dy),
        ensures
            *final(self) == moved(*old(self), anchor, force, time, dx, dy),
    {
        let (pressure_x, pressure_y) = self.pressed(anchor, time, dx, dy);
        self.pressure_x = pressure_x;
        self.pressure_y = pressure_y;
        let limit: u64 = force as u64 * PIXEL as u64;
        if self.pressure_x > limit || self.pressure_y > limit {
            if time - self.last_trigger_time > TRIGGER_PAUSE {
                self.should_trigger_edge = true;
                self.last_trigger_time = time;
            }
            self.pressure_x = 0;
            self.pressure_y = 0;
        }
        self.last_time = time;
    }
}

/// A seat: what belongs to one user of the screen.
#[derive(Clone, Copy, Debug)]
pub struct Seat {
    pub registry_name: u32,
    pub id: u32,
    pub pointer: Option<Pointer>,
}

impl Seat {
    /// A seat without a pointer.
    pub fn new(registry_name: u32, wl_seat: u32) -> (r: Seat)
        ensures
            r == (Seat { registry_name, id: wl_seat, pointer: None }),
    {
        Seat { registry_name, id: wl_seat, pointer: None }
    }
}

/// One movement of a pointer.
pub struct Motion {
    pub time: u64,
    pub dx: i32,
    pub dy: i32,
}

/// The pointer after a row of movements against one region.
pub open spec fn moved_by(p: Pointer, anchor: Anchor, force: u32, motions: Seq<Motion>) -> Pointer
    decreases motions.len(),
{
    if motions.len() == 0 {
        p
    } else {
        let m = motions.last();
        moved(moved_by(p, anchor, force, motions.drop_last()), anchor, force, m.time, m.dx, m.dy)
    }
}

/// In a row of movements, the one at place `i` triggers the edge.
pub open spec fn triggers_at(
    p: Pointer,
    anchor: Anchor,
    force: u32,
    motions: Seq<Motion>,
    i: int,
) -> bool {
    let m = motions[i];
    triggers(moved_by(p, anchor, force, motions.take(i)), anchor, force, m.time, m.dx, m.dy)
}

/// The sum of the movements to the right or left that go beyond the edge.
pub open spec fn total_outward_x(anchor: Anchor, motions: Seq<Motion>) -> int
    decreases motions.len(),
{
    if motions.len() == 0 {
        0
    } else {
        let out = outward_x(anchor, motions.last().dx);
        total_outward_x(anchor, motions.drop_last()) + (if out > 0 {
            out
        } else {
            0
        })
    }
}

/// The sum of the movements up or down that go beyond the edge.
pub open spec fn total_outward_y(anchor: Anchor, motions: Seq<Motion>) -> int
    decreases motions.len(),
{
    if motions.len() == 0 {
        0
    } else {
        let out = outward_y(anchor, motions.last().dy);
        total_outward_y(anchor, motions.drop_last()) + (if out > 0 {
            out
        } else {
            0
        })
    }
}

/// After every movement the pressure is within the force that it takes to trigger the edge.
pub proof fn pressure_stays_below_force(
    p: Pointer,
    anchor: Anchor,
    force: u32,
    time: u64,
    dx: i32,
    dy: i32,
)
    ensures
        moved(p, anchor, force, time, dx, dy).pressure_x <= force * PIXEL,
        moved(p, anchor, force, time, dx, dy).pressure_y <= force * PIXEL,
{
}

/// An edge is triggered at most once in a quarter of a second, whatever the pointer does.
pub proof fn triggers_keep_apart(
    p: Pointer,
    anchor: Anchor,
    force: u32,
    motions: Seq<Motion>,
    i: int,
    j: int,
)
    requires
        0 <= i < j < motions.len(),
        triggers_at(p, anchor, force, motions, i),
        triggers_at(p, anchor, force, motions, j),
    ensures
        motions[j].time - motions[i].time > TRIGGER_PAUSE,
{
    lemma_trigger_time_grows(p, anchor, force, motions, i, j);
}

proof fn lemma_trigger_time_grows(
    p: Pointer,
    anchor: Anchor,
    force: u32,
    motions: Seq<Motion>,
    i: int,
    j: int,
)
    requires
        0 <= i < j <= motions.len(),
        triggers_at(p, anchor, force, motions, i),
    ensures
        moved_by(p, anchor, force, motions.take(j)).last_trigger_time >= motions[i].time,
    decreases j,
{
    assert(motions.take(j).drop_last() =~= motions.take(j - 1));
    assert(motions.take(j).last() == motions[j - 1]);
    if i < j - 1 {
        lemma_trigger_time_grows(p, anchor, force, motions, i, j - 1);
    }
}

/// One movement that goes further beyond the edge than the activation force triggers an edge that
/// has rested, however the pointer moved before.
pub proof fn hard_push_triggers(
    p: Pointer,
    anchor: Anchor,
    force: u32,
    time: u64,
    dx: i32,
    dy: i32,
)
    requires
        outward_x(anchor, dx) > force * PIXEL || outward_y(anchor, dy) > force * PIXEL,
        time - p.last_trigger_time > TRIGGER_PAUSE,
    ensures
        triggers(p, anchor, force, time, dx, dy),
        moved(p, anchor, force, time, dx, dy).should_trigger_edge,
{
}

/// Movements along an edge, or away from it, build up no pressure.
pub proof fn only_outward_movements_press(
    p: Pointer,
    anchor: Anchor,
    force: u32,
    time: u64,
    dx: i32,
    dy: i32,
)
    requires
        outward_x(anchor, dx) <= 0,
        outward_y(anchor, dy) <= 0,
    ensures
        moved(p, anchor, force, time, dx, dy).pressure_x <= p.pressure_x,
        moved(p, anchor, force, time, dx, dy).pressure_y <= p.pressure_y,
{
}

/// Movements that together do not go further beyond the edge than the activation force trigger
/// nothing.
pub proof fn gentle_movements_trigger_nothing(
    p: Pointer,
    anchor: Anchor,
    force: u32,
    motions: Seq<Motion>,
    i: int,
)
    requires
        p.pressure_x == 0,
        p.pressure_y == 0,
        total_outward_x(anchor, motions) <= force * PIXEL,
        total_outward_y(anchor, motions) <= force * PIXEL,
        0 <= i < motions.len(),
    ensures
        !triggers_at(p, anchor, force, motions, i),
{
    lemma_totals_grow(anchor, motions, i + 1, motions.len() as int);
    assert(motions.take(motions.len() as int) =~= motions);
    lemma_pressure_within_totals(p, anchor, force, motions.take(i));
    assert(motions.take(i + 1).drop_last() =~= motions.take(i));
    assert(motions.take(i + 1).last() == motions[i]);
}

proof fn lemma_totals_grow(anchor: Anchor, motions: Seq<Motion>, i: int, j: int)
    requires
        0 <= i <= j <= motions.len(),
    ensures
        0 <= total_outward_x(anchor, motions.take(i)) <= total_outward_x(anchor, motions.take(j)),
        0 <= total_outward_y(anchor, motions.take(i)) <= total_outward_y(anchor, motions.take(j)),
    decreases j,
{
    if j > 0 {
        assert(motions.take(j).drop_last() =~= motions.take(j - 1));
        if i < j {
            lemma_totals_grow(anchor, motions, i, j - 1);
        } else {
            lemma_totals_grow(anchor, motions, j - 1, j - 1);
        }
    }
}

proof fn lemma_pressure_within_totals(
    p: Pointer,
    anchor: Anchor,
    force: u32,
    motions: Seq<Motion>,
)
    requires
        p.pressure_x == 0,
        p.pressure_y == 0,
    ensures
        moved_by(p, anchor, force, motions).pressure_x <= total_outward_x(anchor, motions),
        moved_by(p, anchor, force, motions).pressure_y <= total_outward_y(anchor, motions),
    decreases motions.len(),
{
    if motions.len() > 0 {
        lemma_pressure_within_totals(p, anchor, force, motions.drop_last());
    }
}

/// What a movement does, side by side: pressure against the left or right edge of the screen grows
/// with movements beyond it and is gone after more than one pixel back, and so it is at the top and
/// the bottom; it does not outlast 400 microseconds of rest. More pressure than the force, in pixels
/// of 256 parts, is used up, and triggers the edge where more than 250000 microseconds have gone by
/// since the last time. Nothing else of the pointer changes.
pub proof fn movement_in_full(
    p: Pointer,
    anchor: Anchor,
    force: u32,
    time: u64,
    dx: i32,
    dy: i32,
)
    ensures
        ({
            let q = moved(p, anchor, force, time, dx, dy);
            let left = anchor == Anchor::Left || anchor == Anchor::TopLeft || anchor
                == Anchor::BottomLeft;
            let right = anchor == Anchor::Right || anchor == Anchor::TopRight || anchor
                == Anchor::BottomRight;
            let top = anchor == Anchor::Top || anchor == Anchor::TopLeft || anchor
                == Anchor::TopRight;
            let bottom = anchor == Anchor::Bottom || anchor == Anchor::BottomLeft || anchor
                == Anchor::BottomRight;
            let kept_x: int = if time > p.last_time + 400 {
                0
            } else {
                p.pressure_x as int
            };
            let kept_y: int = if time > p.last_time + 400 {
                0
            } else {
                p.pressure_y as int
            };
            let x: int = if left && dx < 0 {
                kept_x - dx
            } else if right && dx > 0 {
                kept_x + dx
            } else if left && dx > 256 || right && dx < -256 {
                0
            } else {
                kept_x
            };
            let y: int = if top && dy < 0 {
                kept_y - dy
            } else if bottom && dy > 0 {
                kept_y + dy
            } else if top && dy > 256 || bottom && dy < -256 {
                0
            } else {
                kept_y
            };
            let over = x > force * 256 || y > force * 256;
            let long_ago = time > p.last_trigger_time + 250000;
            &&& over ==> q.pressure_x == 0 && q.pressure_y == 0
            &&& !over ==> q.pressure_x == x && q.pressure_y == y
            &&& q.should_trigger_edge <==> p.should_trigger_edge || over && long_ago
            &&& q.last_trigger_time == (if over && long_ago {
                time
            } else {
                p.last_trigger_time
            })
            &&& q.last_time == time
            &&& q == (Pointer {
                pressure_x: q.pressure_x,
                pressure_y: q.pressure_y,
                should_trigger_edge: q.should_trigger_edge,
                last_trigger_time: q.last_trigger_time,
                last_time: q.last_time,
                ..p
            })
            &&& in_time(p, anchor, force, time, dx, dy) <==> (over ==> time >= p.last_trigger_time)
            &&& triggers(p, anchor, force, time, dx, dy) <==> over && long_ago
        }),
{
}

/// Two movements beyond the same edge, one soon after the other, press as much as one movement as
/// long as both.
pub proof fn pushes_add_up(
    p: Pointer,
    force: u32,
    time: u64,
    later: u64,
    a: i32,
    b: i32,
    both: i32,
)
    requires
        a > 0,
        b > 0,
        both == a + b,
        time <= p.last_time + 400,
        time <= later <= time + 400,
        p.pressure_x + both <= force * 256,
        p.pressure_y <= force * 256,
    ensures
        moved(
            moved(p, Anchor::Right, force, time, a, 0),
            Anchor::Right,
            force,
            later,
            b,
            0,
        ).pressure_x == moved(p, Anchor::Right, force, time, both, 0).pressure_x,
        moved(p, Anchor::Right, force, time, both, 0).pressure_x == p.pressure_x + a + b,
{
}

/// Opposite edges mirror each other, and so do opposite corners.
pub proof fn edges_mirror(p: Pointer, force: u32, time: u64, dx: i32, dy: i32)
    requires
        dx > i32::MIN,
        dy > i32::MIN,
    ensures
        moved(p, Anchor::Left, force, time, dx, dy) == moved(
            p,
            Anchor::Right,
            force,
            time,
            (-dx) as i32,
            dy,
        ),
        moved(p, Anchor::Top, force, time, dx, dy) == moved(
            p,
            Anchor::Bottom,
            force,
            time,
            dx,
            (-dy) as i32,
        ),
        moved(p, Anchor::TopLeft, force, time, dx, dy) == moved(
            p,
            Anchor::BottomRight,
            force,
            time,
            (-dx) as i32,
            (-dy) as i32,
        ),
        moved(p, Anchor::TopRight, force, time, dx, dy) == moved(
            p,
            Anchor::BottomLeft,
            force,
            time,
            (-dx) as i32,
            (-dy) as i32,
        ),
        moved(p, Anchor::TopLeft, force, time, dx, dy) == moved(
            p,
            Anchor::TopRight,
            force,
            time,
            (-dx) as i32,
            dy,
        ),
{
}

/// Axes and sources of scrolling keep their numbers: the vertical axis comes first.
pub proof fn axes_keep_their_order(axis: WlAxis, source: WlAxisSource)
    ensures
        <Axis as vstd::std_specs::convert::FromSpec<WlAxis>>::from_spec(axis) == Axis::Vertical
            <==> axis == WlAxis::VerticalScroll,
        <AxisSource as vstd::std_specs::convert::FromSpec<WlAxisSource>>::from_spec(source)
            != AxisSource::Unknown,
        <AxisSource as vstd::std_specs::convert::FromSpec<WlAxisSource>>::from_spec(source)
            == AxisSource::Wheel <==> source == WlAxisSource::Wheel,
        <AxisSource as vstd::std_specs::convert::FromSpec<WlAxisSource>>::from_spec(source)
            == AxisSource::Finger <==> source == WlAxisSource::Finger,
        <AxisSource as vstd::std_specs::convert::FromSpec<WlAxisSource>>::from_spec(source)
            == AxisSource::Continuous <==> source == WlAxisSource::Continuous,
{
}

} // verus!
