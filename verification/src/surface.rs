//! The surface of one corner or edge.

use vstd::prelude::*;

use crate::gaps::{Anchor, GapConfig};
use crate::objects::Objects;
use crate::protocol::{Request, WlrAnchor, WlrLayer, NAMESPACE};

verus! {

/// The kinds of wayland object that a surface deals with.
#[derive(Clone, Copy, Debug, PartialEq, Eq, Structural)]
pub enum WaylandObject {
    // standard stuff
    Display,
    Registry,
    Callback,
    Compositor,
    Seat,
    Shm,
    ShmPool,
    Buffer,
    Surface,
    Output,
    Pointer,
    // layer shell
    LayerShell,
    LayerSurface,
}

/// The surface of one corner or edge. `Shm` is the handle of its shared memory.
pub struct Surface<Shm> {
    pub registry_name: u32,
    pub wl_output: u32,
    pub wl_surface: u32,
    pub layer_surface: u32,
    pub frame_callback: Option<u32>,
    pub width: u32,
    pub height: u32,
    pub anchor: WlrAnchor,
    pub bufsize: u32,
    pub ftags: u32,
    pub otags: u32,
    pub urg: u32,
    pub shm: Shm,
    pub configured: bool,
    pub selected: bool,
    pub redraw: bool,
    pub last_window_width: u32,
}

/// The edges that a surface at `anchor` holds on to: two for a corner, one for an edge.
pub open spec fn edges(anchor: Anchor) -> WlrAnchor {
    WlrAnchor {
        top: anchor == Anchor::TopLeft || anchor == Anchor::TopRight || anchor == Anchor::Top,
        bottom: anchor == Anchor::BottomLeft || anchor == Anchor::BottomRight || anchor
            == Anchor::Bottom,
        left: anchor == Anchor::TopLeft || anchor == Anchor::BottomLeft || anchor == Anchor::Left,
        right: anchor == Anchor::TopRight || anchor == Anchor::BottomRight || anchor
            == Anchor::Right,
    }
}

/// The width of a surface at `anchor`: 0, for what the compositor chooses, along a horizontal edge.
pub open spec fn width(anchor: Anchor, size: u32) -> u32 {
    if anchor == Anchor::Top || anchor == Anchor::Bottom {
        0
    } else {
        size
    }
}

/// The height of a surface at `anchor`: 0, for what the compositor chooses, along a vertical edge.
pub open spec fn height(anchor: Anchor, size: u32) -> u32 {
    if anchor == Anchor::Left || anchor == Anchor::Right {
        0
    } else {
        size
    }
}

/// The edges, the width and the height of a surface.
fn placement(config: &GapConfig) -> (r: (WlrAnchor, u32, u32))
    ensures
        r.0 == edges(config.anchor),
        r.1 == width(config.anchor, config.size),
        r.2 == height(config.anchor, config.size),
{
    let none = WlrAnchor { top: false, bottom: false, left: false, right: false };
    match config.anchor {
        Anchor::TopLeft => (WlrAnchor { left: true, top: true, ..none }, config.size, config.size),
        Anchor::TopRight => (WlrAnchor { right: true, top: true, ..none }, config.size, config.size),
        Anchor::BottomRight => (
            WlrAnchor { right: true, bottom: true, ..none },
            config.size,
            config.size,
        ),
        Anchor::BottomLeft => (
            WlrAnchor { left: true, bottom: true, ..none },
            config.size,
            config.size,
        ),
        Anchor::Left => (WlrAnchor { left: true, ..none }, config.size, 0),
        Anchor::Right => (WlrAnchor { right: true, ..none }, config.size, 0),
        Anchor::Top => (WlrAnchor { top: true, ..none }, 0, config.size),
        Anchor::Bottom => (WlrAnchor { bottom: true, ..none }, 0, config.size),
    }
}

/// Makes the layer surface of a corner or edge: its id, and the requests that place it.
pub fn create_layer_surface(
    objects: &mut Objects,
    layer_shell: u32,
    wl_surface: u32,
    wl_output: u32,
    config: &GapConfig,
) -> (r: (u32, Vec<Request>))
    requires
        old(objects).spec_room() >= 1,
    ensures
        crate::objects::is_first_free(old(objects)@, r.0),
        final(objects)@ == old(objects)@.insert(r.0, crate::objects::WaylandObject::LayerSurface),
        final(objects).spec_room() >= old(objects).spec_room() - 1,
        r.1@ == seq![
            Request::GetLayerSurface {
                layer_shell,
                id: r.0,
                surface: wl_surface,
                output: wl_output,
                layer: WlrLayer::Overlay,
                namespace: NAMESPACE,
            },
            Request::SetAnchor { layer_surface: r.0, anchor: edges(config.anchor) },
            Request::SetSize {
                layer_surface: r.0,
                width: width(config.anchor, config.size),
                height: height(config.anchor, config.size),
            },
        ],
{
    let layer_surface: u32 = objects.create(crate::objects::WaylandObject::LayerSurface);
    let (anchor, width, height) = placement(config);
    let mut requests: Vec<Request> = Vec::new();
    requests.push(
        Request::GetLayerSurface {
            layer_shell,
            id: layer_surface,
            surface: wl_surface,
            output: wl_output,
            layer: WlrLayer::Overlay,
            namespace: NAMESPACE,
        },
    );
    requests.push(Request::SetAnchor { layer_surface, anchor });
    requests.push(Request::SetSize { layer_surface, width, height });
    (layer_surface, requests)
}

impl<Shm> Surface<Shm> {
    /// The surface once its requests have been sent: nothing drawn, nothing configured.
    pub fn new(
        registry_name: u32,
        wl_output: u32,
        wl_surface: u32,
        layer_surface: u32,
        config: &GapConfig,
        shm: Shm,
    ) -> (r: Surface<Shm>)
        ensures
            r == (Surface {
                registry_name,
                wl_output,
                wl_surface,
                layer_surface,
                frame_callback: None,
                width: width(config.anchor, config.size),
                height: height(config.anchor, config.size),
                anchor: edges(config.anchor),
                bufsize: 0,
                ftags: 0,
                otags: 0,
                urg: 0,
                shm,
                configured: false,
                selected: false,
                redraw: false,
                last_window_width: 0,
            }),
    {
        let (anchor, width, height) = placement(config);
        Surface {
            registry_name,
            wl_output,
            wl_surface,
            layer_surface,
            frame_callback: None,
            width,
            height,
            anchor,
            bufsize: 0,
            ftags: 0,
            otags: 0,
            urg: 0,
            shm,
            configured: false,
            selected: false,
            redraw: false,
            last_window_width: 0,
        }
    }
}

/// A surface in a corner is square and holds on to the two edges that meet there; one at an edge
/// reaches `size` into the screen and holds on to that edge alone.
pub proof fn surfaces_lie_at_their_anchors(anchor: Anchor, size: u32)
    ensures
        edges(anchor).left <==> anchor == Anchor::TopLeft || anchor == Anchor::BottomLeft || anchor
            == Anchor::Left,
        edges(anchor).right <==> anchor == Anchor::TopRight || anchor == Anchor::BottomRight
            || anchor == Anchor::Right,
        edges(anchor).top <==> anchor == Anchor::TopLeft || anchor == Anchor::TopRight || anchor
            == Anchor::Top,
        edges(anchor).bottom <==> anchor == Anchor::BottomLeft || anchor == Anchor::BottomRight
            || anchor == Anchor::Bottom,
        edges(anchor).left || edges(anchor).right ==> width(anchor, size) == size,
        edges(anchor).top || edges(anchor).bottom ==> height(anchor, size) == size,
        !edges(anchor).left && !edges(anchor).right ==> width(anchor, size) == 0,
        !edges(anchor).top && !edges(anchor).bottom ==> height(anchor, size) == 0,
{
}

} // verus!
