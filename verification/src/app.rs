//! The program between two events: its regions, seats and outputs, and what each event does.

use vstd::prelude::*;

use crate::commands::{
    first_command, first_line, is_button, is_scroll, lines, push_button_commands,
    push_scroll_commands,
};
use crate::config::{Config, GapConfig, InputEvent};
use crate::gap::{
    create_layer_surface, create_surface, fits_fourfold, frame_requests, layer_requests, WayGap,
    BUFFER_SCALE,
};
use crate::list::{first, is_first, lemma_first, swap_removed};
use crate::objects::{is_first_free, is_first_of, some_of, Objects, WaylandObject};
use crate::protocol::{ButtonState, Interface, Request, WlAxis};
use crate::seat::{in_time, moved, Axis, Pointer, Seat, SCROLL_STEP};
use crate::text::same_text;
use crate::utils::{is_output_match, output_matches, wanted_text};

verus! {

/// An output that has not told all about itself yet.
pub struct PendingOutput {
    pub registry_name: u32,
    pub id: u32,
    pub name: String,
    pub description: String,
}

/// What is known of an output that has not told all about itself yet.
pub struct Pending {
    pub registry_name: u32,
    pub id: u32,
    pub name: Seq<char>,
    pub description: Seq<char>,
}

impl View for PendingOutput {
    type V = Pending;

    open spec fn view(&self) -> Pending {
        Pending {
            registry_name: self.registry_name,
            id: self.id,
            name: self.name@,
            description: self.description@,
        }
    }
}

/// The program between two events. `Shm` is the handle of a region's shared memory.
pub struct App<Shm> {
    pub objects: Objects,
    pub registry: u32,
    pub compositor: u32,
    pub shm: u32,
    pub layer_shell: u32,
    pub relative_ptr_mgr: u32,
    pub waygaps: Vec<WayGap<Shm>>,
    pub seats: Vec<Seat>,
    pub pending_outputs: Vec<PendingOutput>,
    pub config: Config,
    pub preview: bool,
    pub exit: bool,
}

/// The state of the program between two events.
#[verifier::ext_equal]
pub struct AppState<Shm> {
    pub objects: Map<u32, WaylandObject>,
    pub registry: u32,
    pub compositor: u32,
    pub shm: u32,
    pub layer_shell: u32,
    pub relative_ptr_mgr: u32,
    pub waygaps: Seq<WayGap<Shm>>,
    pub seats: Seq<Seat>,
    pub pending_outputs: Seq<Pending>,
    pub config: Seq<(String, GapConfig)>,
    pub preview: bool,
    pub exit: bool,
}

impl<Shm> View for App<Shm> {
    type V = AppState<Shm>;

    open spec fn view(&self) -> AppState<Shm> {
        AppState {
            objects: self.objects@,
            registry: self.registry,
            compositor: self.compositor,
            shm: self.shm,
            layer_shell: self.layer_shell,
            relative_ptr_mgr: self.relative_ptr_mgr,
            waygaps: self.waygaps@,
            seats: self.seats@,
            pending_outputs: self.pending_outputs@.map_values(|output: PendingOutput| output@),
            config: self.config.0@,
            preview: self.preview,
            exit: self.exit,
        }
    }
}

/// A seat has the pointer `id`.
pub open spec fn has_pointer(id: u32) -> spec_fn(Seat) -> bool {
    |seat: Seat| seat.pointer is Some && seat.pointer->0.id == id
}

/// A seat has a pointer whose relative movements come from the object `id`.
pub open spec fn has_relative_pointer(id: u32) -> spec_fn(Seat) -> bool {
    |seat: Seat| seat.pointer is Some && seat.pointer->0.relative_pointer_id == Some(id)
}

/// The place of the first seat with the pointer `ptr_id`.
pub fn get_pointer(seats: &Vec<Seat>, ptr_id: u32) -> (r: Option<usize>)
    ensures
        match r {
            Some(k) => k < seats@.len() && first(seats@, has_pointer(ptr_id)) == Some(k as int)
                && has_pointer(ptr_id)(seats@[k as int]),
            None => first(seats@, has_pointer(ptr_id)) is None,
        },
{
    let mut k: usize = 0;
    while k < seats.len()
        invariant
            k <= seats.len(),
            forall|j: int| 0 <= j < k ==> !has_pointer(ptr_id)(#[trigger] seats@[j]),
        decreases seats.len() - k,
    {
        if let Some(ptr) = seats[k].pointer {
            if ptr.id == ptr_id {
                assert(is_first(seats@, has_pointer(ptr_id), k as int));
                proof {
                    lemma_first(seats@, has_pointer(ptr_id), k as int);
                }
                return Some(k);
            }
        }
        k += 1;
    }
    None
}

/// The place of the first seat with a pointer whose relative movements come from the object
/// `relative_ptr_id`.
pub fn get_relative_pointer(seats: &Vec<Seat>, relative_ptr_id: u32) -> (r: Option<usize>)
    ensures
        match r {
            Some(k) => k < seats@.len() && first(seats@, has_relative_pointer(relative_ptr_id))
                == Some(k as int) && has_relative_pointer(relative_ptr_id)(seats@[k as int]),
            None => first(seats@, has_relative_pointer(relative_ptr_id)) is None,
        },
{
    let mut k: usize = 0;
    while k < seats.len()
        invariant
            k <= seats.len(),
            forall|j: int|
                0 <= j < k ==> !has_relative_pointer(relative_ptr_id)(#[trigger] seats@[j]),
        decreases seats.len() - k,
    {
        if let Some(ptr) = seats[k].pointer {
            if let Some(id) = ptr.relative_pointer_id {
                if id == relative_ptr_id {
                    assert(is_first(seats@, has_relative_pointer(relative_ptr_id), k as int));
                    proof {
                        lemma_first(seats@, has_relative_pointer(relative_ptr_id), k as int);
                    }
                    return Some(k);
                }
            }
        }
        k += 1;
    }
    None
}

impl<Shm> AppState<Shm> {
    /// The state with another pointer in the seat at place `k`.
    pub open spec fn with_pointer(self, k: int, pointer: Pointer) -> AppState<Shm> {
        AppState {
            seats: self.seats.update(k, Seat { pointer: Some(pointer), ..self.seats[k] }),
            ..self
        }
    }

    /// The place of the region that the pointer of the seat at place `k` is in.
    pub open spec fn gap_of(self, k: int) -> Option<int> {
        match self.seats[k].pointer->0.current_waygap {
            Some(i) => if i < self.waygaps.len() {
                Some(i as int)
            } else {
                None
            },
            None => None,
        }
    }

    /// The place of the first region with the surface `surface`.
    pub open spec fn gap_with_surface(self, surface: u32) -> Option<int> {
        first(self.waygaps, |gap: WayGap<Shm>| gap.wl_surface == surface)
    }

    /// A pointer has come into a region.
    pub open spec fn entered(self, pointer: u32, serial: u32, surface: u32) -> AppState<Shm> {
        match (self.gap_with_surface(surface), first(self.seats, has_pointer(pointer))) {
            (Some(i), Some(k)) => self.with_pointer(
                k,
                Pointer {
                    enter_serial: serial,
                    current_waygap: Some(i as usize),
                    ..self.seats[k].pointer->0
                },
            ),
            _ => self,
        }
    }

    /// The command that runs when a pointer comes into a region.
    pub open spec fn enter_line(self, pointer: u32, surface: u32) -> Option<String> {
        match (self.gap_with_surface(surface), first(self.seats, has_pointer(pointer))) {
            (Some(i), Some(k)) => first_line(self.waygaps[i].commands@, InputEvent::Enter),
            _ => None,
        }
    }

    /// A pointer has gone out of its region.
    pub open spec fn left(self, pointer: u32) -> AppState<Shm> {
        match first(self.seats, has_pointer(pointer)) {
            Some(k) => self.with_pointer(
                k,
                Pointer { current_waygap: None, ..self.seats[k].pointer->0 },
            ),
            None => self,
        }
    }

    /// The command that runs when a pointer goes out of its region.
    pub open spec fn leave_line(self, pointer: u32) -> Option<String> {
        match first(self.seats, has_pointer(pointer)) {
            Some(k) => match self.gap_of(k) {
                Some(i) => first_line(self.waygaps[i].commands@, InputEvent::Leave),
                None => None,
            },
            None => None,
        }
    }

    /// A button of a pointer has been pressed or released.
    pub open spec fn clicked(self, pointer: u32, button: u32, state: ButtonState) -> AppState<Shm> {
        match first(self.seats, has_pointer(pointer)) {
            Some(k) => self.with_pointer(
                k,
                Pointer {
                    button: match state {
                        ButtonState::Released => 0,
                        ButtonState::Pressed => (button % 0x1_0000) as u16,
                    },
                    ..self.seats[k].pointer->0
                },
            ),
            None => self,
        }
    }

    /// A pointer has scrolled by `value` in its region.
    pub open spec fn scrolled(self, pointer: u32, axis: WlAxis, value: i32) -> AppState<Shm> {
        match first(self.seats, has_pointer(pointer)) {
            Some(k) => if self.gap_of(k) is Some {
                self.with_pointer(
                    k,
                    Pointer {
                        axis: vstd::std_specs::convert::FromSpec::from_spec(axis),
                        scroll: scroll_sum(self.seats[k].pointer->0.scroll, value),
                        ..self.seats[k].pointer->0
                    },
                )
            } else {
                self
            },
            None => self,
        }
    }

    /// All that a pointer did at once has been told: it has been acted upon.
    pub open spec fn framed(self, pointer: u32) -> AppState<Shm> {
        match first(self.seats, has_pointer(pointer)) {
            Some(k) => if self.gap_of(k) is Some {
                self.with_pointer(
                    k,
                    Pointer {
                        button: 0,
                        scroll: scroll_rest(self.seats[k].pointer->0.scroll),
                        should_trigger_edge: false,
                        ..self.seats[k].pointer->0
                    },
                )
            } else {
                self
            },
            None => self,
        }
    }

    /// The commands that run once all that a pointer did at once has been told.
    pub open spec fn frame_lines(self, pointer: u32) -> Seq<String> {
        match first(self.seats, has_pointer(pointer)) {
            Some(k) => match self.gap_of(k) {
                Some(i) => pointer_lines(
                    self.seats[k].pointer->0,
                    self.waygaps[i].commands@,
                ),
                None => Seq::empty(),
            },
            None => Seq::empty(),
        }
    }

    /// The time does not run back behind the last trigger of the region that a pointer is in.
    pub open spec fn motion_in_time(self, relative: u32, time: u64, dx: i32, dy: i32) -> bool {
        match first(self.seats, has_relative_pointer(relative)) {
            Some(k) => match self.gap_of(k) {
                Some(i) => in_time(
                    self.seats[k].pointer->0,
                    self.waygaps[i].anchor,
                    self.waygaps[i].activation_force,
                    time,
                    dx,
                    dy,
                ),
                None => true,
            },
            None => true,
        }
    }

    /// A pointer has moved in its region.
    pub open spec fn moved(self, relative: u32, time: u64, dx: i32, dy: i32) -> AppState<Shm> {
        match first(self.seats, has_relative_pointer(relative)) {
            Some(k) => match self.gap_of(k) {
                Some(i) => self.with_pointer(
                    k,
                    moved(
                        self.seats[k].pointer->0,
                        self.waygaps[i].anchor,
                        self.waygaps[i].activation_force,
                        time,
                        dx,
                        dy,
                    ),
                ),
                None => self,
            },
            None => self,
        }
    }
}

/// A time in microseconds from its two halves.
pub open spec fn full_time(hi: u32, lo: u32) -> u64 {
    (hi * 0x1_0000_0000 + lo) as u64
}

/// The scroll value after `value` more.
pub open spec fn scroll_sum(scroll: i64, value: i32) -> i64 {
    if scroll + value > i64::MAX {
        i64::MAX
    } else if scroll + value < i64::MIN {
        i64::MIN
    } else {
        (scroll + value) as i64
    }
}

/// The scroll value that is left once one step of it has been acted upon.
pub open spec fn scroll_rest(scroll: i64) -> i64 {
    if scroll <= -SCROLL_STEP {
        (scroll + SCROLL_STEP) as i64
    } else if scroll >= SCROLL_STEP {
        (scroll - SCROLL_STEP) as i64
    } else {
        scroll
    }
}

/// The commands for a scroll value: those of one direction, once it comes to a step.
pub open spec fn scroll_lines(p: Pointer, commands: Seq<(InputEvent, String)>) -> Seq<String> {
    if p.scroll <= -SCROLL_STEP {
        lines(commands, is_scroll(p.axis, false))
    } else if p.scroll >= SCROLL_STEP {
        lines(commands, is_scroll(p.axis, true))
    } else {
        Seq::empty()
    }
}

/// The commands for a push beyond the edge.
pub open spec fn edge_lines(p: Pointer, commands: Seq<(InputEvent, String)>) -> Seq<String> {
    match first_line(commands, InputEvent::Edge) {
        Some(line) => if p.should_trigger_edge {
            seq![line]
        } else {
            Seq::empty()
        },
        None => Seq::empty(),
    }
}

/// The commands for all that a pointer has done since the last frame: clicks, then scrolling, then
/// pushes beyond the edge.
pub open spec fn pointer_lines(p: Pointer, commands: Seq<(InputEvent, String)>) -> Seq<String> {
    lines(commands, is_button(p.button)) + scroll_lines(p, commands) + edge_lines(p, commands)
}

/// The scroll value after `value` more.
fn add_scroll(scroll: i64, value: i32) -> (r: i64)
    ensures
        r == scroll_sum(scroll, value),
{
    match scroll.checked_add(value as i64) {
        Some(sum) => sum,
        None => if value > 0 {
            i64::MAX
        } else {
            i64::MIN
        },
    }
}

impl<Shm> App<Shm> {
    /// The place of the first region with the surface `surface`.
    fn find_surface(&self, surface: u32) -> (r: Option<usize>)
        ensures
            match r {
                Some(i) => i < self.waygaps@.len() && self@.gap_with_surface(surface) == Some(
                    i as int,
                ),
                None => self@.gap_with_surface(surface) is None,
            },
    {
        let ghost wanted = |gap: WayGap<Shm>| gap.wl_surface == surface;
        let mut i: usize = 0;
        while i < self.waygaps.len()
            invariant
                i <= self.waygaps.len(),
                wanted == (|gap: WayGap<Shm>| gap.wl_surface == surface),
                forall|j: int| 0 <= j < i ==> !wanted(#[trigger] self.waygaps@[j]),
            decreases self.waygaps.len() - i,
        {
            if self.waygaps[i].wl_surface == surface {
                assert(is_first(self.waygaps@, wanted, i as int));
                proof {
                    lemma_first(self.waygaps@, wanted, i as int);
                }
                return Some(i);
            }
            i += 1;
        }
        None
    }

    /// Puts another pointer into the seat at place `k`.
    fn set_pointer(&mut self, k: usize, pointer: Pointer)
        requires
            k < old(self).seats@.len(),
        ensures
            final(self)@ == old(self)@.with_pointer(k as int, pointer),
            final(self).objects == old(self).objects,
    {
        let seat = self.seats[k];
        self.seats[k] = Seat { pointer: Some(pointer), ..seat };
    }

    /// The place of the region that the pointer of the seat at place `k` is in.
    fn current_gap(&self, k: usize) -> (r: Option<usize>)
        requires
            k < self.seats@.len(),
            self.seats@[k as int].pointer is Some,
        ensures
            match r {
                Some(i) => i < self.waygaps@.len() && self@.gap_of(k as int) == Some(i as int),
                None => self@.gap_of(k as int) is None,
            },
    {
        match self.seats[k].pointer {
            Some(ptr) => match ptr.current_waygap {
                Some(i) => if i < self.waygaps.len() {
                    Some(i)
                } else {
                    None
                },
                None => None,
            },
            None => None,
        }
    }

    /// A pointer comes into the region with the surface `surface`: the command to run.
    pub fn enter(&mut self, pointer: u32, serial: u32, surface: u32) -> (r: Option<String>)
        ensures
            final(self)@ == old(self)@.entered(pointer, serial, surface),
            final(self).objects == old(self).objects,
            r == old(self)@.enter_line(pointer, surface),
    {
        let i: usize = match self.find_surface(surface) {
            Some(i) => i,
            None => {
                return None;
            },
        };
        match get_pointer(&self.seats, pointer) {
            Some(k) => {
                let mut ptr: Pointer = self.seats[k].pointer.unwrap();
                ptr.enter_serial = serial;
                ptr.current_waygap = Some(i);
                self.set_pointer(k, ptr);
                first_command(&self.waygaps[i].commands, InputEvent::Enter)
            },
            None => None,
        }
    }

    /// A pointer goes out of its region: the command to run.
    pub fn leave(&mut self, pointer: u32) -> (r: Option<String>)
        ensures
            final(self)@ == old(self)@.left(pointer),
            final(self).objects == old(self).objects,
            r == old(self)@.leave_line(pointer),
    {
        match get_pointer(&self.seats, pointer) {
            Some(k) => {
                let line = match self.current_gap(k) {
                    Some(i) => first_command(&self.waygaps[i].commands, InputEvent::Leave),
                    None => None,
                };
                let mut ptr: Pointer = self.seats[k].pointer.unwrap();
                ptr.current_waygap = None;
                self.set_pointer(k, ptr);
                line
            },
            None => None,
        }
    }

    /// A button of a pointer is pressed or released.
    pub fn button(&mut self, pointer: u32, button: u32, state: ButtonState)
        ensures
            final(self)@ == old(self)@.clicked(pointer, button, state),
            final(self).objects == old(self).objects,
    {
        if let Some(k) = get_pointer(&self.seats, pointer) {
            let mut ptr: Pointer = self.seats[k].pointer.unwrap();
            ptr.button = match state {
                ButtonState::Released => 0,
                ButtonState::Pressed => (button % 0x1_0000) as u16,
            };
            self.set_pointer(k, ptr);
        }
    }

    /// A pointer scrolls by `value`.
    pub fn axis(&mut self, pointer: u32, axis: WlAxis, value: i32)
        ensures
            final(self)@ == old(self)@.scrolled(pointer, axis, value),
            final(self).objects == old(self).objects,
    {
        let k: usize = match get_pointer(&self.seats, pointer) {
            Some(k) => match self.current_gap(k) {
                Some(_) => k,
                None => {
                    return ;
                },
            },
            None => {
                return ;
            },
        };
        let mut ptr: Pointer = self.seats[k].pointer.unwrap();
        ptr.axis = Axis::from(axis);
        ptr.scroll = add_scroll(ptr.scroll, value);
        self.set_pointer(k, ptr);
    }

    /// All that a pointer did at once has been told: the commands to run.
    pub fn frame(&mut self, pointer: u32) -> (r: Vec<String>)
        ensures
            final(self)@ == old(self)@.framed(pointer),
            final(self).objects == old(self).objects,
            r@ == old(self)@.frame_lines(pointer),
    {
        let mut out: Vec<String> = Vec::new();
        let (k, i) = match get_pointer(&self.seats, pointer) {
            Some(k) => match self.current_gap(k) {
                Some(i) => (k, i),
                None => {
                    return out;
                },
            },
            None => {
                return out;
            },
        };
        let mut ptr: Pointer = self.seats[k].pointer.unwrap();
        let ghost p = ptr;
        let ghost commands = self.waygaps@[i as int].commands@;
        push_button_commands(&self.waygaps[i].commands, ptr.button, &mut out);
        ptr.button = 0;
        if ptr.scroll <= -SCROLL_STEP {
            ptr.scroll = ptr.scroll + SCROLL_STEP;
            push_scroll_commands(&self.waygaps[i].commands, ptr.axis, false, &mut out);
        } else if ptr.scroll >= SCROLL_STEP {
            ptr.scroll = ptr.scroll - SCROLL_STEP;
            push_scroll_commands(&self.waygaps[i].commands, ptr.axis, true, &mut out);
        }
        assert(out@ =~= lines(commands, is_button(p.button)) + scroll_lines(p, commands));
        if ptr.should_trigger_edge {
            if let Some(line) = first_command(&self.waygaps[i].commands, InputEvent::Edge) {
                out.push(line);
            }
            ptr.should_trigger_edge = false;
        }
        assert(out@ =~= pointer_lines(p, commands));
        self.set_pointer(k, ptr);
        out
    }

    /// Whether a movement at this time can be taken in.
    pub fn is_motion_in_time(
        &self,
        relative: u32,
        utime_hi: u32,
        utime_lo: u32,
        dx_unaccel: i32,
        dy_unaccel: i32,
    ) -> (r: bool)
        ensures
            r == self@.motion_in_time(
                relative,
                full_time(utime_hi, utime_lo),
                dx_unaccel,
                dy_unaccel,
            ),
    {
        match get_relative_pointer(&self.seats, relative) {
            Some(k) => match self.current_gap(k) {
                Some(i) => {
                    let time: u64 = utime_hi as u64 * 0x1_0000_0000 + utime_lo as u64;
                    let ptr: Pointer = self.seats[k].pointer.unwrap();
                    ptr.is_in_time(
                        self.waygaps[i].anchor,
                        self.waygaps[i].activation_force,
                        time,
                        dx_unaccel,
                        dy_unaccel,
                    )
                },
                None => true,
            },
            None => true,
        }
    }

    /// A pointer moves. The movement is given as the device has told it.
    pub fn relative_motion(
        &mut self,
        relative: u32,
        utime_hi: u32,
        utime_lo: u32,
        dx_unaccel: i32,
        dy_unaccel: i32,
    )
        requires
            old(self)@.motion_in_time(
                relative,
                full_time(utime_hi, utime_lo),
                dx_unaccel,
                dy_unaccel,
            ),
        ensures
            final(self)@ == old(self)@.moved(
                relative,
                full_time(utime_hi, utime_lo),
                dx_unaccel,
                dy_unaccel,
            ),
            final(self).objects == old(self).objects,
    {
        let k: usize = match get_relative_pointer(&self.seats, relative) {
            Some(k) => k,
            None => {
                return ;
            },
        };
        let i: usize = match self.current_gap(k) {
            Some(i) => i,
            None => {
                return ;
            },
        };
        let time: u64 = utime_hi as u64 * 0x1_0000_0000 + utime_lo as u64;
        let mut ptr: Pointer = self.seats[k].pointer.unwrap();
        ptr.relative_motion(
            self.waygaps[i].anchor,
            self.waygaps[i].activation_force,
            time,
            dx_unaccel,
            dy_unaccel,
        );
        self.set_pointer(k, ptr);
    }
}

/// The first kind of object that the program needs and does not have.
pub open spec fn missing(objects: Map<u32, WaylandObject>) -> Option<WaylandObject> {
    if !some_of(objects, WaylandObject::Registry) {
        Some(WaylandObject::Registry)
    } else if !some_of(objects, WaylandObject::Compositor) {
        Some(WaylandObject::Compositor)
    } else if !some_of(objects, WaylandObject::LayerShell) {
        Some(WaylandObject::LayerShell)
    } else if !some_of(objects, WaylandObject::Shm) {
        Some(WaylandObject::Shm)
    } else if !some_of(objects, WaylandObject::RelativePointerMgr) {
        Some(WaylandObject::RelativePointerMgr)
    } else {
        None
    }
}

/// The bit for a pointer among the capabilities of a seat.
pub const CAPABILITY_POINTER: u32 = 1;

/// A seat that has the capabilities `capabilities` has a pointer.
pub open spec fn offers_pointer(capabilities: u32) -> bool {
    capabilities % 2 == 1
}

/// The places of the regions in the configuration that are for an output.
pub open spec fn matching(
    config: Seq<(String, GapConfig)>,
    name: Seq<char>,
    description: Seq<char>,
) -> Seq<usize>
    decreases config.len(),
{
    if config.len() == 0 {
        Seq::empty()
    } else {
        let before = matching(config.drop_last(), name, description);
        if output_matches(wanted_text(config.last().1.output), name, description) {
            before.push((config.len() - 1) as usize)
        } else {
            before
        }
    }
}

/// An output that has told all about itself, and the regions to open on it, by their places in
/// the configuration.
pub struct ReadyOutput {
    pub registry_name: u32,
    pub name: String,
    pub regions: Vec<usize>,
}

/// What a new size of a region asks for.
pub struct Redraw {
    /// The place of the region.
    pub gap: usize,
    /// The length to give to the shared memory first, where it is too short.
    pub truncate: Option<u64>,
    /// Whether to draw the preview.
    pub preview: bool,
    /// The requests that show what is drawn.
    pub requests: Vec<Request>,
}

/// A region has to be drawn again at a size.
pub open spec fn needs_drawing<Shm>(gap: WayGap<Shm>, width: u32, height: u32) -> bool {
    !(gap.configured && gap.width == width && gap.height == height)
}

/// The size of the shared memory that a region has once it is drawn at a size.
pub open spec fn grown_bufsize<Shm>(gap: WayGap<Shm>, width: u32, height: u32) -> int {
    if width * height * 4 > gap.bufsize {
        width * height * 4
    } else {
        gap.bufsize as int
    }
}

/// A region once it is drawn at a size.
pub open spec fn drawn<Shm>(gap: WayGap<Shm>, width: u32, height: u32) -> WayGap<Shm> {
    WayGap {
        width,
        height,
        bufsize: grown_bufsize(gap, width, height) as u32,
        configured: true,
        ..gap
    }
}

/// A region can be drawn at a size: its pixels can be counted, and there is something to preview.
pub open spec fn can_draw<Shm>(gap: WayGap<Shm>, width: u32, height: u32, preview: bool) -> bool {
    &&& width * height * 4 <= u32::MAX
    &&& fits_fourfold(width)
    &&& fits_fourfold(grown_bufsize(gap, width, height) as u32)
    &&& preview ==> width >= 1 && height >= 1
}

impl<Shm> AppState<Shm> {
    /// The state with another object.
    pub open spec fn object_made(self, id: u32, kind: WaylandObject) -> AppState<Shm> {
        AppState { objects: self.objects.insert(id, kind), ..self }
    }

    /// The state without the object `id`.
    pub open spec fn id_deleted(self, id: u32) -> AppState<Shm> {
        AppState { objects: self.objects.remove(id), ..self }
    }

    /// The program has to end.
    pub open spec fn ended(self) -> AppState<Shm> {
        AppState { exit: true, ..self }
    }

    /// An output has been taken in, under the id `id`.
    pub open spec fn output_created(self, registry_name: u32, id: u32) -> AppState<Shm> {
        AppState {
            objects: self.objects.insert(id, WaylandObject::Output),
            pending_outputs: self.pending_outputs.push(
                Pending { registry_name, id, name: Seq::empty(), description: Seq::empty() },
            ),
            ..self
        }
    }

    /// A seat has been taken in, under the id `id`.
    pub open spec fn seat_created(self, registry_name: u32, id: u32) -> AppState<Shm> {
        AppState {
            objects: self.objects.insert(id, WaylandObject::Seat),
            seats: self.seats.push(Seat { registry_name, id, pointer: None }),
            ..self
        }
    }

    /// `after` is the state with one more region, at the end.
    pub open spec fn gap_added(
        self,
        after: AppState<Shm>,
        region: int,
        registry_name: u32,
        wl_surface: u32,
        layer_surface: u32,
        wl_output: u32,
        shm: Shm,
    ) -> bool {
        &&& after == (AppState { waygaps: after.waygaps, ..self })
        &&& after.waygaps.len() == self.waygaps.len() + 1
        &&& after.waygaps.drop_last() == self.waygaps
        &&& is_new_gap(
            after.waygaps.last(),
            self.config[region].1,
            registry_name,
            wl_surface,
            layer_surface,
            wl_output,
            shm,
        )
    }

    /// The region at place `i` has been drawn at a size, in the buffer `buffer`.
    pub open spec fn frame_drawn(
        self,
        i: int,
        width: u32,
        height: u32,
        pool: u32,
        buffer: u32,
    ) -> AppState<Shm> {
        AppState {
            objects: self.objects.insert(pool, WaylandObject::ShmPool).insert(
                buffer,
                WaylandObject::Buffer,
            ),
            waygaps: self.waygaps.update(i, drawn(self.waygaps[i], width, height)),
            ..self
        }
    }

    /// All requests that show the region at place `i` have been sent.
    pub open spec fn frame_shown(self, i: int) -> AppState<Shm> {
        AppState {
            waygaps: self.waygaps.update(i, WayGap { redraw: false, ..self.waygaps[i] }),
            ..self
        }
    }

    /// Every output that has not told all about itself is an object of its own.
    pub open spec fn outputs_sound(self) -> bool {
        &&& ids_differ(self.pending_outputs)
        &&& forall|i: int|
            0 <= i < self.pending_outputs.len() ==> self.objects.contains_key(
                (#[trigger] self.pending_outputs[i]).id,
            )
    }

    /// A region is on the output `output`.
    pub open spec fn covers(self, output: u32) -> bool {
        exists|i: int| 0 <= i < self.waygaps.len() && #[trigger] self.waygaps[i].wl_output == output
    }

    /// The place of the first output with the id `output` that has not told all about itself.
    pub open spec fn pending_at(self, output: u32) -> Option<int> {
        first(self.pending_outputs, |pending: Pending| pending.id == output)
    }

    /// The place of the output that is ready to be used, if `output` is one.
    pub open spec fn ready(self, output: u32) -> Option<int> {
        if self.covers(output) {
            None
        } else {
            self.pending_at(output)
        }
    }

    /// An output has told all about itself.
    pub open spec fn output_done(self, output: u32) -> AppState<Shm> {
        match self.ready(output) {
            Some(i) => AppState { pending_outputs: swap_removed(self.pending_outputs, i), ..self },
            None => self,
        }
    }

    /// The state with another name for the output `output`.
    pub open spec fn output_named(self, output: u32, name: Seq<char>) -> AppState<Shm> {
        match self.pending_at(output) {
            Some(i) => AppState {
                pending_outputs: self.pending_outputs.update(
                    i,
                    Pending { name, ..self.pending_outputs[i] },
                ),
                ..self
            },
            None => self,
        }
    }

    /// The state with another description for the output `output`.
    pub open spec fn output_described(self, output: u32, description: Seq<char>) -> AppState<Shm> {
        match self.pending_at(output) {
            Some(i) => AppState {
                pending_outputs: self.pending_outputs.update(
                    i,
                    Pending { description, ..self.pending_outputs[i] },
                ),
                ..self
            },
            None => self,
        }
    }

    /// The place of the first region that came with the global `name`.
    pub open spec fn gap_of_global(self, name: u32) -> Option<int> {
        first(self.waygaps, |gap: WayGap<Shm>| gap.registry_name == name)
    }

    /// The place of the first seat that came with the global `name`.
    pub open spec fn seat_of_global(self, name: u32) -> Option<int> {
        first(self.seats, |seat: Seat| seat.registry_name == name)
    }

    /// The global `name` is gone: so is a region that came with it, or else a seat.
    pub open spec fn global_removed(self, name: u32) -> AppState<Shm> {
        match self.gap_of_global(name) {
            Some(i) => AppState { waygaps: swap_removed(self.waygaps, i), ..self },
            None => match self.seat_of_global(name) {
                Some(k) => AppState { seats: swap_removed(self.seats, k), ..self },
                None => self,
            },
        }
    }

    /// The place of the first seat with the id `seat`.
    pub open spec fn seat_at(self, seat: u32) -> Option<int> {
        first(self.seats, |s: Seat| s.id == seat)
    }

    /// The seat `seat` gets a pointer with the capabilities `capabilities`.
    pub open spec fn gains_pointer(self, seat: u32, capabilities: u32) -> bool {
        match self.seat_at(seat) {
            Some(k) => offers_pointer(capabilities) && self.seats[k].pointer is None,
            None => false,
        }
    }

    /// The seat `seat` loses its pointer with the capabilities `capabilities`.
    pub open spec fn loses_pointer(self, seat: u32, capabilities: u32) -> bool {
        match self.seat_at(seat) {
            Some(k) => !offers_pointer(capabilities) && self.seats[k].pointer is Some,
            None => false,
        }
    }

    /// The seat `seat` has got the pointer `pointer`, with relative movements from `relative`.
    pub open spec fn pointer_gained(self, seat: u32, pointer: u32, relative: u32) -> AppState<Shm> {
        let k = self.seat_at(seat)->0;
        AppState {
            objects: self.objects.insert(pointer, WaylandObject::Pointer).insert(
                relative,
                WaylandObject::RelativePointer,
            ),
            seats: self.seats.update(
                k,
                Seat { pointer: Some(fresh_pointer(pointer, relative)), ..self.seats[k] },
            ),
            ..self
        }
    }

    /// The seat `seat` has lost its pointer.
    pub open spec fn pointer_lost(self, seat: u32) -> AppState<Shm> {
        let k = self.seat_at(seat)->0;
        AppState { seats: self.seats.update(k, Seat { pointer: None, ..self.seats[k] }), ..self }
    }

    /// The place of the first region with the layer surface `layer_surface`.
    pub open spec fn gap_with_layer_surface(self, layer_surface: u32) -> Option<int> {
        first(self.waygaps, |gap: WayGap<Shm>| gap.layer_surface == layer_surface)
    }

    /// The place of the region to draw again, where the compositor gives the layer surface
    /// `layer_surface` a size.
    pub open spec fn to_draw(self, layer_surface: u32, width: u32, height: u32) -> Option<int> {
        match self.gap_with_layer_surface(layer_surface) {
            Some(i) => if needs_drawing(self.waygaps[i], width, height) {
                Some(i)
            } else {
                None
            },
            None => None,
        }
    }

    /// A size that the compositor gives can be taken.
    pub open spec fn can_configure(self, layer_surface: u32, width: u32, height: u32) -> bool {
        match self.to_draw(layer_surface, width, height) {
            Some(i) => can_draw(self.waygaps[i], width, height, self.preview),
            None => true,
        }
    }
}

/// A region is opened: its surface and its layer surface get the next free ids, and it comes after
/// all others.
pub open spec fn region_opened<Shm>(
    s: AppState<Shm>,
    after: AppState<Shm>,
    region: int,
    registry_name: u32,
    output: u32,
) -> bool {
    let gap = after.waygaps.last();
    let with_surface = s.object_made(gap.wl_surface, WaylandObject::Surface);
    let with_both = with_surface.object_made(gap.layer_surface, WaylandObject::LayerSurface);
    &&& is_first_free(s.objects, gap.wl_surface)
    &&& is_first_free(with_surface.objects, gap.layer_surface)
    &&& with_both.gap_added(
        after,
        region,
        registry_name,
        gap.wl_surface,
        gap.layer_surface,
        output,
        gap.shm,
    )
}

/// Opening a region takes three steps: its surface, its layer surface, and the region itself.
pub proof fn region_opens_in_steps<Shm>(
    s: AppState<Shm>,
    after: AppState<Shm>,
    region: int,
    registry_name: u32,
    wl_surface: u32,
    layer_surface: u32,
    output: u32,
    shm: Shm,
)
    requires
        is_first_free(s.objects, wl_surface),
        is_first_free(
            s.object_made(wl_surface, WaylandObject::Surface).objects,
            layer_surface,
        ),
        s.object_made(wl_surface, WaylandObject::Surface).object_made(
            layer_surface,
            WaylandObject::LayerSurface,
        ).gap_added(after, region, registry_name, wl_surface, layer_surface, output, shm),
    ensures
        region_opened(s, after, region, registry_name, output),
{
}

/// No two outputs that have not told all about themselves have the same id.
pub open spec fn ids_differ(outputs: Seq<Pending>) -> bool {
    forall|i: int, j: int|
        0 <= i < j < outputs.len() ==> (#[trigger] outputs[i]).id != (#[trigger] outputs[j]).id
}

/// The requests that give a pointer back.
pub open spec fn giving_back(p: Pointer) -> Seq<Request> {
    (match p.relative_pointer_id {
        Some(relative) => seq![Request::DestroyRelativePointer { relative_pointer: relative }],
        None => Seq::empty(),
    }) + seq![Request::ReleasePointer { pointer: p.id }]
}

/// A pointer that has just come to a seat.
pub open spec fn fresh_pointer(pointer: u32, relative: u32) -> Pointer {
    Pointer {
        id: pointer,
        relative_pointer_id: Some(relative),
        pressure_x: 0,
        pressure_y: 0,
        last_time: 0,
        last_trigger_time: 0,
        should_trigger_edge: false,
        button: 0,
        enter_serial: 0,
        scroll: 0,
        scroll120: 0,
        axis: Axis::Vertical,
        source: crate::seat::AxisSource::Unknown,
        current_waygap: None,
    }
}

/// Whether four times the signed number in `v` still has 32 bits.
fn is_small(v: u32) -> (r: bool)
    ensures
        r == fits_fourfold(v),
{
    v < 0x2000_0000 || v >= 0xe000_0000
}

/// Whether the capabilities of a seat are those of one with a pointer.
fn has_pointer_capability(capabilities: u32) -> (r: bool)
    ensures
        r == offers_pointer(capabilities),
{
    assert((capabilities & 1 == 1) == (capabilities % 2 == 1)) by (bit_vector);
    capabilities & CAPABILITY_POINTER == CAPABILITY_POINTER
}

impl<Shm> App<Shm> {
    /// The program at its start, with the objects that it has bound. It needs one of each kind
    /// that it works with.
    pub fn new(objects: Objects, config: Config, preview: bool) -> (r: Result<
        App<Shm>,
        WaylandObject,
    >)
        ensures
            match r {
                Ok(app) => {
                    &&& missing(objects@) is None
                    &&& app.objects == objects
                    &&& is_first_of(objects@, WaylandObject::Registry, app.registry)
                    &&& is_first_of(objects@, WaylandObject::Compositor, app.compositor)
                    &&& is_first_of(objects@, WaylandObject::LayerShell, app.layer_shell)
                    &&& is_first_of(objects@, WaylandObject::Shm, app.shm)
                    &&& is_first_of(
                        objects@,
                        WaylandObject::RelativePointerMgr,
                        app.relative_ptr_mgr,
                    )
                    &&& app.waygaps@.len() == 0
                    &&& app.seats@.len() == 0
                    &&& app.pending_outputs@.len() == 0
                    &&& app.config == config
                    &&& app.preview == preview
                    &&& !app.exit
                    &&& app@.outputs_sound()
                },
                Err(kind) => missing(objects@) == Some(kind),
            },
    {
        let registry: u32 = match objects.get_first(WaylandObject::Registry) {
            Some(id) => id,
            None => {
                return Err(WaylandObject::Registry);
            },
        };
        let compositor: u32 = match objects.get_first(WaylandObject::Compositor) {
            Some(id) => id,
            None => {
                return Err(WaylandObject::Compositor);
            },
        };
        let layer_shell: u32 = match objects.get_first(WaylandObject::LayerShell) {
            Some(id) => id,
            None => {
                return Err(WaylandObject::LayerShell);
            },
        };
        let shm: u32 = match objects.get_first(WaylandObject::Shm) {
            Some(id) => id,
            None => {
                return Err(WaylandObject::Shm);
            },
        };
        let relative_ptr_mgr: u32 = match objects.get_first(WaylandObject::RelativePointerMgr) {
            Some(id) => id,
            None => {
                return Err(WaylandObject::RelativePointerMgr);
            },
        };
        Ok(
            App {
                objects,
                registry,
                compositor,
                shm,
                layer_shell,
                relative_ptr_mgr,
                waygaps: Vec::new(),
                seats: Vec::new(),
                pending_outputs: Vec::new(),
                config,
                preview,
                exit: false,
            },
        )
    }

    /// Takes in an output that the compositor offers: the request that binds it.
    pub fn create_output(&mut self, registry_name: u32, version: u32) -> (r: Request)
        requires
            old(self).objects.spec_room() >= 1,
        ensures
            final(self).objects.spec_room() >= old(self).objects.spec_room() - 1,
            exists|id: u32|
                {
                    &&& #[trigger] is_first_free(old(self)@.objects, id)
                    &&& final(self)@ == old(self)@.output_created(registry_name, id)
                    &&& r == (Request::Bind {
                        registry: old(self)@.registry,
                        name: registry_name,
                        id,
                        interface: Interface::WlOutput,
                        version,
                    })
                },
            old(self)@.outputs_sound() ==> final(self)@.outputs_sound(),
    {
        let id: u32 = self.objects.create(WaylandObject::Output);
        assert(is_first_free(old(self)@.objects, id));
        self.pending_outputs.push(
            PendingOutput { registry_name, id, name: String::new(), description: String::new() },
        );
        assert(self@ =~= old(self)@.output_created(registry_name, id));
        Request::Bind {
            registry: self.registry,
            name: registry_name,
            id,
            interface: Interface::WlOutput,
            version,
        }
    }

    /// Takes in a seat that the compositor offers: the request that binds it.
    pub fn create_seat(&mut self, registry_name: u32, version: u32) -> (r: Request)
        requires
            old(self).objects.spec_room() >= 1,
        ensures
            final(self).objects.spec_room() >= old(self).objects.spec_room() - 1,
            exists|id: u32|
                {
                    &&& #[trigger] is_first_free(old(self)@.objects, id)
                    &&& final(self)@ == old(self)@.seat_created(registry_name, id)
                    &&& r == (Request::Bind {
                        registry: old(self)@.registry,
                        name: registry_name,
                        id,
                        interface: Interface::WlSeat,
                        version,
                    })
                },
    {
        let wl_seat: u32 = self.objects.create(WaylandObject::Seat);
        assert(is_first_free(old(self)@.objects, wl_seat));
        self.seats.push(Seat::new(registry_name, wl_seat));
        assert(self@.pending_outputs =~= old(self)@.pending_outputs);
        Request::Bind {
            registry: self.registry,
            name: registry_name,
            id: wl_seat,
            interface: Interface::WlSeat,
            version,
        }
    }

    /// The compositor offers another global: the request that binds it, where it is a seat.
    pub fn global(&mut self, name: u32, interface: &str, version: u32) -> (r: Option<Request>)
        requires
            interface@ == Interface::WlSeat.spec_name() ==> old(self).objects.spec_room() >= 1,
        ensures
            interface@ != Interface::WlSeat.spec_name() ==> r is None && final(self)@ == old(
                self,
            )@ && final(self).objects == old(self).objects,
            interface@ == Interface::WlSeat.spec_name() ==> {
                &&& final(self).objects.spec_room() >= old(self).objects.spec_room() - 1
                &&& exists|id: u32|
                    {
                        &&& #[trigger] is_first_free(old(self)@.objects, id)
                        &&& final(self)@ == old(self)@.seat_created(name, id)
                        &&& r == Some(
                            Request::Bind {
                                registry: old(self)@.registry,
                                name,
                                id,
                                interface: Interface::WlSeat,
                                version,
                            },
                        )
                    }
            },
    {
        if same_text(interface, Interface::WlSeat.name()) {
            Some(self.create_seat(name, version))
        } else {
            None
        }
    }

    /// A global is gone.
    pub fn global_remove(&mut self, name: u32)
        ensures
            final(self)@ == old(self)@.global_removed(name),
            final(self).objects == old(self).objects,
    {
        let ghost wanted = |gap: WayGap<Shm>| gap.registry_name == name;
        let mut i: usize = 0;
        while i < self.waygaps.len()
            invariant
                i <= self.waygaps.len(),
                *self == *old(self),
                wanted == (|gap: WayGap<Shm>| gap.registry_name == name),
                forall|j: int| 0 <= j < i ==> !wanted(#[trigger] self.waygaps@[j]),
            decreases self.waygaps.len() - i,
        {
            if self.waygaps[i].registry_name == name {
                assert(is_first(self.waygaps@, wanted, i as int));
                proof {
                    lemma_first(self.waygaps@, wanted, i as int);
                }
                self.waygaps.swap_remove(i);
                return ;
            }
            i += 1;
        }
        let ghost wanted_seat = |seat: Seat| seat.registry_name == name;
        let mut k: usize = 0;
        while k < self.seats.len()
            invariant
                k <= self.seats.len(),
                *self == *old(self),
                self@.gap_of_global(name) is None,
                wanted_seat == (|seat: Seat| seat.registry_name == name),
                forall|j: int| 0 <= j < k ==> !wanted_seat(#[trigger] self.seats@[j]),
            decreases self.seats.len() - k,
        {
            if self.seats[k].registry_name == name {
                assert(is_first(self.seats@, wanted_seat, k as int));
                proof {
                    lemma_first(self.seats@, wanted_seat, k as int);
                }
                self.seats.swap_remove(k);
                return ;
            }
            k += 1;
        }
    }

    /// An object that the program has destroyed is gone.
    pub fn delete_id(&mut self, id: u32)
        ensures
            final(self)@ == old(self)@.id_deleted(id),
            final(self).objects.spec_room() == old(self).objects.spec_room(),
    {
        self.objects.remove(id);
    }

    /// The program has to end.
    pub fn set_exit(&mut self)
        ensures
            final(self)@ == old(self)@.ended(),
            final(self).objects == old(self).objects,
    {
        self.exit = true;
    }

    /// Whether the program has to end.
    pub fn should_exit(&self) -> (r: bool)
        ensures
            r == self@.exit,
    {
        self.exit
    }

    /// The compositor has found an error of the program: the program has to end.
    pub fn error(&mut self)
        ensures
            final(self)@ == old(self)@.ended(),
            final(self).objects == old(self).objects,
    {
        self.set_exit();
    }

    /// The compositor has no more use for a buffer: the request that destroys it.
    pub fn release(&self, buffer: u32) -> (r: Request)
        ensures
            r == (Request::DestroyBuffer { buffer }),
    {
        Request::DestroyBuffer { buffer }
    }

    /// A seat tells what it has: the requests that get its pointer, or give it back.
    pub fn capabilities(&mut self, seat: u32, capabilities: u32) -> (r: Vec<Request>)
        requires
            old(self)@.gains_pointer(seat, capabilities) ==> old(self).objects.spec_room() >= 2,
        ensures
            old(self)@.gains_pointer(seat, capabilities) ==> {
                &&& final(self).objects.spec_room() >= old(self).objects.spec_room() - 2
                &&& exists|pointer: u32, relative: u32|
                    {
                        &&& #[trigger] is_first_free(old(self)@.objects, pointer)
                        &&& #[trigger] is_first_free(
                            old(self)@.objects.insert(pointer, WaylandObject::Pointer),
                            relative,
                        )
                        &&& final(self)@ == old(self)@.pointer_gained(seat, pointer, relative)
                        &&& r@ == seq![
                            Request::GetPointer { seat, id: pointer },
                            Request::GetRelativePointer {
                                manager: old(self)@.relative_ptr_mgr,
                                id: relative,
                                pointer,
                            },
                        ]
                    }
            },
            old(self)@.loses_pointer(seat, capabilities) ==> {
                &&& final(self)@ == old(self)@.pointer_lost(seat)
                &&& final(self).objects == old(self).objects
                &&& r@ == giving_back(
                    old(self)@.seats[old(self)@.seat_at(seat)->0].pointer->0,
                )
            },
            !old(self)@.gains_pointer(seat, capabilities) && !old(self)@.loses_pointer(
                seat,
                capabilities,
            ) ==> final(self)@ == old(self)@ && final(self).objects == old(self).objects && r@.len()
                == 0,
    {
        let mut requests: Vec<Request> = Vec::new();
        let k: usize = match self.find_seat(seat) {
            Some(k) => k,
            None => {
                return requests;
            },
        };
        let found: Seat = self.seats[k];
        if has_pointer_capability(capabilities) {
            if found.pointer.is_none() {
                let ptr_id: u32 = self.objects.create(WaylandObject::Pointer);
                requests.push(Request::GetPointer { seat, id: ptr_id });
                let mut pointer = Pointer::new(ptr_id);
                let relative_ptr_id: u32 = self.objects.create(WaylandObject::RelativePointer);
                requests.push(
                    Request::GetRelativePointer {
                        manager: self.relative_ptr_mgr,
                        id: relative_ptr_id,
                        pointer: ptr_id,
                    },
                );
                pointer.relative_pointer_id = Some(relative_ptr_id);
                self.seats[k] = Seat { pointer: Some(pointer), ..found };
                assert(is_first_free(old(self)@.objects, ptr_id));
                assert(is_first_free(
                    old(self)@.objects.insert(ptr_id, WaylandObject::Pointer),
                    relative_ptr_id,
                ));
                assert(self@ =~= old(self)@.pointer_gained(seat, ptr_id, relative_ptr_id));
            }
        } else if let Some(ptr) = found.pointer {
            self.seats[k] = Seat { pointer: None, ..found };
            if let Some(rel_ptr_id) = ptr.relative_pointer_id {
                requests.push(Request::DestroyRelativePointer { relative_pointer: rel_ptr_id });
            }
            requests.push(Request::ReleasePointer { pointer: ptr.id });
            assert(requests@ =~= giving_back(ptr));
        }
        requests
    }

    /// The place of the first seat with the id `seat`.
    fn find_seat(&self, seat: u32) -> (r: Option<usize>)
        ensures
            match r {
                Some(k) => k < self.seats@.len() && self@.seat_at(seat) == Some(k as int)
                    && self.seats@[k as int].id == seat,
                None => self@.seat_at(seat) is None,
            },
    {
        let ghost wanted = |s: Seat| s.id == seat;
        let mut k: usize = 0;
        while k < self.seats.len()
            invariant
                k <= self.seats.len(),
                wanted == (|s: Seat| s.id == seat),
                forall|j: int| 0 <= j < k ==> !wanted(#[trigger] self.seats@[j]),
            decreases self.seats.len() - k,
        {
            if self.seats[k].id == seat {
                assert(is_first(self.seats@, wanted, k as int));
                proof {
                    lemma_first(self.seats@, wanted, k as int);
                }
                return Some(k);
            }
            k += 1;
        }
        None
    }

    /// Whether a seat gets a pointer with these capabilities.
    pub fn gets_pointer(&self, seat: u32, capabilities: u32) -> (r: bool)
        ensures
            r == self@.gains_pointer(seat, capabilities),
    {
        match self.find_seat(seat) {
            Some(k) => has_pointer_capability(capabilities) && self.seats[k].pointer.is_none(),
            None => false,
        }
    }

    /// The place of the first output with the id `output` that has not told all about itself.
    fn find_pending(&self, output: u32) -> (r: Option<usize>)
        ensures
            match r {
                Some(i) => i < self.pending_outputs@.len() && self@.pending_at(output) == Some(
                    i as int,
                ),
                None => self@.pending_at(output) is None,
            },
    {
        let ghost wanted = |pending: Pending| pending.id == output;
        let mut i: usize = 0;
        while i < self.pending_outputs.len()
            invariant
                i <= self.pending_outputs.len(),
                wanted == (|pending: Pending| pending.id == output),
                forall|j: int| 0 <= j < i ==> !wanted(#[trigger] self@.pending_outputs[j]),
            decreases self.pending_outputs.len() - i,
        {
            if self.pending_outputs[i].id == output {
                assert(is_first(self@.pending_outputs, wanted, i as int));
                proof {
                    lemma_first(self@.pending_outputs, wanted, i as int);
                }
                return Some(i);
            }
            assert(self@.pending_outputs[i as int].id != output);
            i += 1;
        }
        None
    }

    /// An output tells its name.
    pub fn name(&mut self, output: u32, name: &str)
        ensures
            final(self)@ == old(self)@.output_named(output, name@),
            final(self).objects == old(self).objects,
    {
        if let Some(i) = self.find_pending(output) {
            self.pending_outputs[i].name = name.to_owned();
            assert(self@.pending_outputs =~= old(self)@.output_named(output, name@).pending_outputs);
        }
    }

    /// An output tells its description.
    pub fn description(&mut self, output: u32, description: &str)
        ensures
            final(self)@ == old(self)@.output_described(output, description@),
            final(self).objects == old(self).objects,
    {
        if let Some(i) = self.find_pending(output) {
            self.pending_outputs[i].description = description.to_owned();
            assert(self@.pending_outputs =~= old(self)@.output_described(
                output,
                description@,
            ).pending_outputs);
        }
    }

    /// An output has told all about itself: the regions to open on it, the first time.
    pub fn done(&mut self, output: u32) -> (r: Option<ReadyOutput>)
        ensures
            final(self)@ == old(self)@.output_done(output),
            final(self).objects == old(self).objects,
            match old(self)@.ready(output) {
                Some(i) => {
                    &&& r is Some
                    &&& r->0.registry_name == old(self)@.pending_outputs[i].registry_name
                    &&& r->0.name@ == old(self)@.pending_outputs[i].name
                    &&& r->0.regions@ == matching(
                        old(self)@.config,
                        old(self)@.pending_outputs[i].name,
                        old(self)@.pending_outputs[i].description,
                    )
                },
                None => r is None,
            },
    {
        let mut g: usize = 0;
        while g < self.waygaps.len()
            invariant
                g <= self.waygaps.len(),
                *self == *old(self),
                forall|j: int| 0 <= j < g ==> (#[trigger] self.waygaps@[j]).wl_output != output,
            decreases self.waygaps.len() - g,
        {
            if self.waygaps[g].wl_output == output {
                assert(self@.waygaps[g as int].wl_output == output);
                return None;
            }
            g += 1;
        }
        assert(!self@.covers(output));
        let index: usize = match self.find_pending(output) {
            Some(index) => index,
            None => {
                return None;
            },
        };
        let ready = self.pending_outputs.swap_remove(index);
        assert(ready@ == old(self)@.pending_outputs[index as int]);
        assert(self@.pending_outputs =~= swap_removed(old(self)@.pending_outputs, index as int));
        let mut regions: Vec<usize> = Vec::new();
        let mut c: usize = 0;
        while c < self.config.0.len()
            invariant
                c <= self.config.0@.len(),
                regions@ == matching(
                    self.config.0@.take(c as int),
                    ready.name@,
                    ready.description@,
                ),
            decreases self.config.0.len() - c,
        {
            assert(self.config.0@.take(c + 1).drop_last() =~= self.config.0@.take(c as int));
            if is_output_match(
                &self.config.0[c].1.output,
                ready.name.as_str(),
                ready.description.as_str(),
            ) {
                regions.push(c);
            }
            c += 1;
        }
        assert(self.config.0@.take(self.config.0@.len() as int) =~= self.config.0@);
        Some(ReadyOutput { registry_name: ready.registry_name, name: ready.name, regions })
    }

    /// Begins a region: the id of its surface, and the request for it.
    pub fn open_gap(&mut self) -> (r: (u32, Request))
        requires
            old(self).objects.spec_room() >= 1,
        ensures
            is_first_free(old(self)@.objects, r.0),
            final(self)@ == old(self)@.object_made(r.0, WaylandObject::Surface),
            final(self).objects.spec_room() >= old(self).objects.spec_room() - 1,
            r.1 == (Request::CreateSurface { compositor: old(self)@.compositor, id: r.0 }),
    {
        create_surface(&mut self.objects, self.compositor)
    }

    /// Goes on with a region whose surface has been asked for: the id of its layer surface, and
    /// the requests that place it. `region` is its place in the configuration.
    pub fn place_gap(&mut self, region: usize, wl_surface: u32, wl_output: u32) -> (r: (
        u32,
        Vec<Request>,
    ))
        requires
            old(self).objects.spec_room() >= 1,
            region < old(self)@.config.len(),
        ensures
            is_first_free(old(self)@.objects, r.0),
            final(self)@ == old(self)@.object_made(r.0, WaylandObject::LayerSurface),
            final(self).objects.spec_room() >= old(self).objects.spec_room() - 1,
            r.1@ == layer_requests(
                old(self)@.layer_shell,
                r.0,
                wl_surface,
                wl_output,
                old(self)@.config[region as int].1,
            ),
    {
        create_layer_surface(
            &mut self.objects,
            self.layer_shell,
            wl_surface,
            wl_output,
            &self.config.0[region].1,
        )
    }

    /// Ends the making of a region: all its requests have been sent.
    pub fn add_gap(
        &mut self,
        region: usize,
        registry_name: u32,
        wl_surface: u32,
        layer_surface: u32,
        wl_output: u32,
        shm: Shm,
    )
        requires
            region < old(self)@.config.len(),
        ensures
            final(self).objects == old(self).objects,
            old(self)@.gap_added(
                final(self)@,
                region as int,
                registry_name,
                wl_surface,
                layer_surface,
                wl_output,
                shm,
            ),
            forall|s: AppState<Shm>|
                is_first_free(s.objects, wl_surface) && is_first_free(
                    s.object_made(wl_surface, WaylandObject::Surface).objects,
                    layer_surface,
                ) && old(self)@ == #[trigger] s.object_made(
                    wl_surface,
                    WaylandObject::Surface,
                ).object_made(layer_surface, WaylandObject::LayerSurface) ==> region_opened(
                    s,
                    final(self)@,
                    region as int,
                    registry_name,
                    wl_output,
                ),
    {
        let gap = WayGap::new(
            registry_name,
            wl_surface,
            layer_surface,
            wl_output,
            &self.config.0[region].1,
            shm,
        );
        self.waygaps.push(gap);
        assert(self@.waygaps.drop_last() =~= old(self)@.waygaps);
    }

    /// The place of the first region with the layer surface `layer_surface`.
    fn find_layer_surface(&self, layer_surface: u32) -> (r: Option<usize>)
        ensures
            match r {
                Some(i) => i < self.waygaps@.len() && self@.gap_with_layer_surface(layer_surface)
                    == Some(i as int),
                None => self@.gap_with_layer_surface(layer_surface) is None,
            },
    {
        let ghost wanted = |gap: WayGap<Shm>| gap.layer_surface == layer_surface;
        let mut i: usize = 0;
        while i < self.waygaps.len()
            invariant
                i <= self.waygaps.len(),
                wanted == (|gap: WayGap<Shm>| gap.layer_surface == layer_surface),
                forall|j: int| 0 <= j < i ==> !wanted(#[trigger] self.waygaps@[j]),
            decreases self.waygaps.len() - i,
        {
            if self.waygaps[i].layer_surface == layer_surface {
                assert(is_first(self.waygaps@, wanted, i as int));
                proof {
                    lemma_first(self.waygaps@, wanted, i as int);
                }
                return Some(i);
            }
            i += 1;
        }
        None
    }

    /// Whether a size that the compositor gives can be taken.
    pub fn can_take_size(&self, layer_surface: u32, width: u32, height: u32) -> (r: bool)
        ensures
            r == self@.can_configure(layer_surface, width, height),
    {
        let i: usize = match self.find_layer_surface(layer_surface) {
            Some(i) => i,
            None => {
                return true;
            },
        };
        let gap = &self.waygaps[i];
        if gap.configured && gap.width == width && gap.height == height {
            return true;
        }
        assert(width * height * 4 <= 0xffff_ffff * 0xffff_ffff * 4) by (nonlinear_arith)
            requires
                width <= 0xffff_ffff,
                height <= 0xffff_ffff,
        ;
        let bytes: u128 = width as u128 * height as u128 * 4;
        if bytes > u32::MAX as u128 {
            return false;
        }
        let bufsize: u32 = if bytes as u32 > gap.bufsize {
            bytes as u32
        } else {
            gap.bufsize
        };
        is_small(width) && is_small(bufsize) && (!self.preview || (width >= 1 && height >= 1))
    }

    /// Whether a region has to be drawn again at a size that the compositor gives.
    pub fn has_to_draw(&self, layer_surface: u32, width: u32, height: u32) -> (r: bool)
        ensures
            r == self@.to_draw(layer_surface, width, height) is Some,
    {
        match self.find_layer_surface(layer_surface) {
            Some(i) => {
                let gap = &self.waygaps[i];
                !(gap.configured && gap.width == width && gap.height == height)
            },
            None => false,
        }
    }

    /// All requests that show the region at place `gap` have been sent.
    pub fn frame_sent(&mut self, gap: usize)
        requires
            gap < old(self)@.waygaps.len(),
        ensures
            final(self)@ == old(self)@.frame_shown(gap as int),
            final(self).objects == old(self).objects,
    {
        self.waygaps[gap].frame_sent();
        assert(self@ =~= old(self)@.frame_shown(gap as int));
    }

    /// The request that tells the compositor that a size has been taken.
    pub fn ack_configure(&self, layer_surface: u32, serial: u32) -> (r: Request)
        ensures
            r == (Request::AckConfigure { layer_surface, serial }),
    {
        Request::AckConfigure { layer_surface, serial }
    }

    /// The compositor gives a region a size: what to draw, where it is another one.
    pub fn configure(&mut self, layer_surface: u32, width: u32, height: u32) -> (r: Option<Redraw>)
        requires
            old(self)@.can_configure(layer_surface, width, height),
            old(self)@.to_draw(layer_surface, width, height) is Some ==> old(
                self,
            ).objects.spec_room() >= 2,
        ensures
            match old(self)@.to_draw(layer_surface, width, height) {
                Some(i) => {
                    &&& r is Some
                    &&& r->0.gap == i
                    &&& r->0.truncate == (if width * height * 4 > old(self)@.waygaps[i].bufsize {
                        Some((width * height * 4) as u64)
                    } else {
                        None
                    })
                    &&& r->0.preview == old(self)@.preview
                    &&& final(self).objects.spec_room() >= old(self).objects.spec_room() - 2
                    &&& exists|pool: u32, buffer: u32|
                        {
                            &&& #[trigger] is_first_free(old(self)@.objects, pool)
                            &&& #[trigger] is_first_free(
                                old(self)@.objects.insert(pool, WaylandObject::ShmPool),
                                buffer,
                            )
                            &&& final(self)@ == old(self)@.frame_drawn(
                                i,
                                width,
                                height,
                                pool,
                                buffer,
                            )
                            &&& r->0.requests@ == frame_requests(
                                old(self)@.shm,
                                pool,
                                buffer,
                                old(self)@.waygaps[i].wl_surface,
                                grown_bufsize(old(self)@.waygaps[i], width, height) as u32,
                                width,
                                height,
                            )
                        }
                },
                None => r is None && final(self)@ == old(self)@ && final(self).objects == old(
                    self,
                ).objects,
            },
    {
        let i: usize = match self.find_layer_surface(layer_surface) {
            Some(i) => i,
            None => {
                return None;
            },
        };
        let width: u32 = width * BUFFER_SCALE;
        let height: u32 = height * BUFFER_SCALE;
        if self.waygaps[i].configured && self.waygaps[i].width == width && self.waygaps[i].height
            == height {
            return None;
        }
        let gap = &mut self.waygaps[i];
        gap.width = width;
        gap.height = height;
        assert(width * height <= u32::MAX) by (nonlinear_arith)
            requires
                width * height * 4 <= u32::MAX,
        ;
        let truncate = gap.expand_shm(width * height);
        gap.configured = true;
        let requests = gap.draw_frame(self.shm, &mut self.objects);
        proof {
            let gap = old(self)@.waygaps[i as int];
            let bufsize = grown_bufsize(gap, width, height) as u32;
            let (pool, buffer) = choose|pool: u32, buffer: u32|
                {
                    &&& is_first_free(old(self)@.objects, pool)
                    &&& is_first_free(
                        old(self)@.objects.insert(pool, WaylandObject::ShmPool),
                        buffer,
                    )
                    &&& self.objects@ == old(self)@.objects.insert(
                        pool,
                        WaylandObject::ShmPool,
                    ).insert(buffer, WaylandObject::Buffer)
                    &&& requests@ == #[trigger] frame_requests(
                        old(self)@.shm,
                        pool,
                        buffer,
                        gap.wl_surface,
                        bufsize,
                        width,
                        height,
                    )
                };
            assert(is_first_free(old(self)@.objects, pool));
            assert(is_first_free(
                old(self)@.objects.insert(pool, WaylandObject::ShmPool),
                buffer,
            ));
            assert(self@.pending_outputs =~= old(self)@.pending_outputs);
            assert(self@.waygaps =~= old(self)@.waygaps.update(
                i as int,
                drawn(gap, width, height),
            ));
        }
        Some(Redraw { gap: i, truncate, preview: self.preview, requests })
    }
}

/// A region whose requests have just been sent.
pub open spec fn is_new_gap<Shm>(
    gap: WayGap<Shm>,
    config: GapConfig,
    registry_name: u32,
    wl_surface: u32,
    layer_surface: u32,
    wl_output: u32,
    shm: Shm,
) -> bool {
    &&& gap.registry_name == registry_name
    &&& gap.wl_surface == wl_surface
    &&& gap.layer_surface == layer_surface
    &&& gap.wl_output == wl_output
    &&& gap.width == crate::gap::asked_width(config.anchor, config.size)
    &&& gap.height == crate::gap::asked_height(config.anchor, config.size)
    &&& gap.anchor == config.anchor
    &&& gap.bufsize == 0
    &&& gap.shm == shm
    &&& !gap.configured
    &&& !gap.redraw
    &&& gap.commands@ == config.commands@
    &&& gap.preview_color == config.preview_color
    &&& gap.activation_force == config.activation_force
}

} // verus!
