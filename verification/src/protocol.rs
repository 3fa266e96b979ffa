//! The part of the wayland protocols that the program speaks: requests as plain values.

use vstd::prelude::*;

use crate::config::Layer;
use crate::text::same_text;

verus! {

/// The name under which the surfaces of the program appear.
pub const NAMESPACE: &'static str = "waygaps";

/// The interfaces of the global objects that the program looks for.
#[derive(Clone, Copy, Debug, PartialEq, Eq, Structural)]
pub enum Interface {
    WlCompositor,
    WlShm,
    WlOutput,
    WlSeat,
    ZwlrLayerShellV1,
    ZwpRelativePointerManagerV1,
}

impl Interface {
    /// The name of the interface in the protocol.
    pub open spec fn spec_name(self) -> Seq<char> {
        match self {
            Interface::WlCompositor => "wl_compositor"@,
            Interface::WlShm => "wl_shm"@,
            Interface::WlOutput => "wl_output"@,
            Interface::WlSeat => "wl_seat"@,
            Interface::ZwlrLayerShellV1 => "zwlr_layer_shell_v1"@,
            Interface::ZwpRelativePointerManagerV1 => "zwp_relative_pointer_manager_v1"@,
        }
    }

    /// The name of the interface in the protocol.
    pub fn name(self) -> (r: &'static str)
        ensures
            r@ == self.spec_name(),
    {
        match self {
            Interface::WlCompositor => "wl_compositor",
            Interface::WlShm => "wl_shm",
            Interface::WlOutput => "wl_output",
            Interface::WlSeat => "wl_seat",
            Interface::ZwlrLayerShellV1 => "zwlr_layer_shell_v1",
            Interface::ZwpRelativePointerManagerV1 => "zwp_relative_pointer_manager_v1",
        }
    }

    /// The interface of the name `name`, if it is one that the program looks for.
    pub fn of_name(name: &str) -> (r: Option<Interface>)
        ensures
            match r {
                Some(interface) => interface.spec_name() == name@,
                None => forall|interface: Interface| #[trigger] interface.spec_name() != name@,
            },
    {
        if same_text(name, "wl_compositor") {
            Some(Interface::WlCompositor)
        } else if same_text(name, "wl_shm") {
            Some(Interface::WlShm)
        } else if same_text(name, "wl_output") {
            Some(Interface::WlOutput)
        } else if same_text(name, "wl_seat") {
            Some(Interface::WlSeat)
        } else if same_text(name, "zwlr_layer_shell_v1") {
            Some(Interface::ZwlrLayerShellV1)
        } else if same_text(name, "zwp_relative_pointer_manager_v1") {
            Some(Interface::ZwpRelativePointerManagerV1)
        } else {
            None
        }
    }
}

/// Different interfaces have different names.
pub proof fn interface_names_differ(a: Interface, b: Interface)
    requires
        a != b,
    ensures
        a.spec_name() != b.spec_name(),
{
    reveal_strlit("wl_compositor");
    reveal_strlit("wl_shm");
    reveal_strlit("wl_output");
    reveal_strlit("wl_seat");
    reveal_strlit("zwlr_layer_shell_v1");
    reveal_strlit("zwp_relative_pointer_manager_v1");
    assert("wl_compositor"@.len() == 13 && "wl_shm"@.len() == 6 && "wl_output"@.len() == 9);
    assert("wl_seat"@.len() == 7 && "zwlr_layer_shell_v1"@.len() == 19);
    assert("zwp_relative_pointer_manager_v1"@.len() == 31);
}

/// The layers of the layer shell, in the order of their numbers.
#[derive(Clone, Copy, Debug, PartialEq, Eq, Structural)]
pub enum WlrLayer {
    Background,
    Bottom,
    Top,
    Overlay,
}

impl vstd::std_specs::convert::FromSpecImpl<Layer> for WlrLayer {
    open spec fn obeys_from_spec() -> bool {
        true
    }

    open spec fn from_spec(layer: Layer) -> WlrLayer {
        match layer {
            Layer::Background => WlrLayer::Background,
            Layer::Bottom => WlrLayer::Bottom,
            Layer::Top => WlrLayer::Top,
            Layer::Overlay => WlrLayer::Overlay,
        }
    }
}

impl From<Layer> for WlrLayer {
    fn from(layer: Layer) -> (r: WlrLayer) {
        match layer {
            Layer::Background => WlrLayer::Background,
            Layer::Bottom => WlrLayer::Bottom,
            Layer::Top => WlrLayer::Top,
            Layer::Overlay => WlrLayer::Overlay,
        }
    }
}

impl WlrLayer {
    /// The name of the layer.
    pub open spec fn spec_name(self) -> Seq<char> {
        match self {
            WlrLayer::Overlay => "overlay"@,
            WlrLayer::Top => "top"@,
            WlrLayer::Bottom => "bottom"@,
            WlrLayer::Background => "background"@,
        }
    }

    /// The name of the layer.
    pub fn name(self) -> (r: &'static str)
        ensures
            r@ == self.spec_name(),
    {
        match self {
            WlrLayer::Overlay => "overlay",
            WlrLayer::Top => "top",
            WlrLayer::Bottom => "bottom",
            WlrLayer::Background => "background",
        }
    }
}

impl WlrLayer {
    /// The number of the layer in the protocol, from the one at the back up.
    pub open spec fn spec_number(self) -> u32 {
        match self {
            WlrLayer::Background => 0,
            WlrLayer::Bottom => 1,
            WlrLayer::Top => 2,
            WlrLayer::Overlay => 3,
        }
    }

    /// The number of the layer in the protocol.
    pub fn number(self) -> (r: u32)
        ensures
            r == self.spec_number(),
    {
        match self {
            WlrLayer::Background => 0,
            WlrLayer::Bottom => 1,
            WlrLayer::Top => 2,
            WlrLayer::Overlay => 3,
        }
    }
}

/// The edges of the screen that a surface of the layer shell holds on to.
#[derive(Clone, Copy, Debug, PartialEq, Eq, Structural)]
pub struct WlrAnchor {
    pub top: bool,
    pub bottom: bool,
    pub left: bool,
    pub right: bool,
}

impl WlrAnchor {
    /// The edges as a set of bits.
    pub open spec fn spec_bits(self) -> int {
        (if self.top { 1int } else { 0 }) + (if self.bottom { 2int } else { 0 }) + (
        if self.left { 4int } else { 0 }) + (if self.right { 8int } else { 0 })
    }

    /// The edges as a set of bits.
    pub fn bits(self) -> (r: u32)
        ensures
            r == self.spec_bits(),
    {
        let top: u32 = if self.top { 1 } else { 0 };
        let bottom: u32 = if self.bottom { 2 } else { 0 };
        let left: u32 = if self.left { 4 } else { 0 };
        let right: u32 = if self.right { 8 } else { 0 };
        top + bottom + left + right
    }
}

/// The axes of a pointer, in the order of their numbers.
#[derive(Clone, Copy, Debug, PartialEq, Eq, Structural)]
pub enum WlAxis {
    VerticalScroll,
    HorizontalScroll,
}

impl WlAxis {
    /// The axis with a number of the protocol, if there is one.
    pub fn of_number(number: u32) -> (r: Option<WlAxis>)
        ensures
            r == (if number == 0 {
                Some(WlAxis::VerticalScroll)
            } else if number == 1 {
                Some(WlAxis::HorizontalScroll)
            } else {
                None
            }),
    {
        match number {
            0 => Some(WlAxis::VerticalScroll),
            1 => Some(WlAxis::HorizontalScroll),
            _ => None,
        }
    }
}

/// The sources of scroll movements, in the order of their numbers.
#[derive(Clone, Copy, Debug, PartialEq, Eq, Structural)]
pub enum WlAxisSource {
    Wheel,
    Finger,
    Continuous,
    WheelTilt,
}

/// The states of a button, in the order of their numbers.
#[derive(Clone, Copy, Debug, PartialEq, Eq, Structural)]
pub enum ButtonState {
    Released,
    Pressed,
}

impl ButtonState {
    /// The state with a number of the protocol, if there is one.
    pub fn of_number(number: u32) -> (r: Option<ButtonState>)
        ensures
            r == (if number == 0 {
                Some(ButtonState::Released)
            } else if number == 1 {
                Some(ButtonState::Pressed)
            } else {
                None
            }),
    {
        match number {
            0 => Some(ButtonState::Released),
            1 => Some(ButtonState::Pressed),
            _ => None,
        }
    }
}

/// The pixel formats that every compositor takes, in the order of their numbers.
#[derive(Clone, Copy, Debug, PartialEq, Eq, Structural)]
pub enum ShmFormat {
    /// Opacity, red, green and blue.
    Argb8888,
    /// Red, green and blue.
    Xrgb8888,
}

impl ShmFormat {
    /// The number of the format in the protocol.
    pub open spec fn spec_number(self) -> u32 {
        match self {
            ShmFormat::Argb8888 => 0,
            ShmFormat::Xrgb8888 => 1,
        }
    }

    /// The number of the format in the protocol.
    pub fn number(self) -> (r: u32)
        ensures
            r == self.spec_number(),
    {
        match self {
            ShmFormat::Argb8888 => 0,
            ShmFormat::Xrgb8888 => 1,
        }
    }
}

/// A request to the compositor. Objects are given by their ids.
#[derive(Clone, Copy, Debug, PartialEq, Eq)]
#[allow(inconsistent_fields)]
pub enum Request {
    Bind { registry: u32, name: u32, id: u32, interface: Interface, version: u32 },
    CreateSurface { compositor: u32, id: u32 },
    GetLayerSurface {
        layer_shell: u32,
        id: u32,
        surface: u32,
        output: u32,
        layer: WlrLayer,
        namespace: &'static str,
    },
    SetExclusiveZone { layer_surface: u32, zone: i32 },
    SetMargin { layer_surface: u32, top: i32, right: i32, bottom: i32, left: i32 },
    SetLayer { layer_surface: u32, layer: WlrLayer },
    SetAnchor { layer_surface: u32, anchor: WlrAnchor },
    SetSize { layer_surface: u32, width: u32, height: u32 },
    AckConfigure { layer_surface: u32, serial: u32 },
    Commit { surface: u32 },
    CreatePool { shm: u32, id: u32, size: i32 },
    CreateBuffer {
        pool: u32,
        id: u32,
        offset: i32,
        width: i32,
        height: i32,
        stride: i32,
        format: ShmFormat,
    },
    DestroyPool { pool: u32 },
    SetBufferScale { surface: u32, scale: i32 },
    Attach { surface: u32, buffer: u32, x: i32, y: i32 },
    DamageBuffer { surface: u32, x: i32, y: i32, width: i32, height: i32 },
    DestroyBuffer { buffer: u32 },
    GetPointer { seat: u32, id: u32 },
    GetRelativePointer { manager: u32, id: u32, pointer: u32 },
    DestroyRelativePointer { relative_pointer: u32 },
    ReleasePointer { pointer: u32 },
}

/// Each edge has a bit of its own: the top 1, the bottom 2, the left 4 and the right 8.
pub proof fn edges_have_bits(anchor: WlrAnchor)
    ensures
        0 <= anchor.spec_bits() < 16,
        anchor.spec_bits() % 2 == 1 <==> anchor.top,
        anchor.spec_bits() / 2 % 2 == 1 <==> anchor.bottom,
        anchor.spec_bits() / 4 % 2 == 1 <==> anchor.left,
        anchor.spec_bits() / 8 % 2 == 1 <==> anchor.right,
{
}

/// A layer of the configuration is the layer of the same name of the layer shell, and the layers
/// are numbered from the back to the front.
pub proof fn layers_keep_their_names(layer: Layer)
    ensures
        <WlrLayer as vstd::std_specs::convert::FromSpec<Layer>>::from_spec(layer).spec_name()
            == layer.spec_name(),
        WlrLayer::Background.spec_number() == 0,
        WlrLayer::Bottom.spec_number() == WlrLayer::Background.spec_number() + 1,
        WlrLayer::Top.spec_number() == WlrLayer::Bottom.spec_number() + 1,
        WlrLayer::Overlay.spec_number() == WlrLayer::Top.spec_number() + 1,
{
}

/// A format is 0 where its pixels have an opacity and 1 where they have none.
pub proof fn formats_are_numbered(format: ShmFormat)
    ensures
        format.spec_number() == 0 <==> format == ShmFormat::Argb8888,
        format.spec_number() == 1 <==> format == ShmFormat::Xrgb8888,
{
}

} // verus!
