//! The regions on the screen.

use vstd::prelude::*;

use crate::config::{Anchor, Color, GapConfig, InputEvent, Layer};
use crate::objects::{is_first_free, Objects, WaylandObject};
use crate::protocol::{Request, ShmFormat, WlrAnchor, WlrLayer, NAMESPACE};

verus! {

/// How many pixels of a buffer make one pixel of a surface, in each direction.
pub const BUFFER_SCALE: u32 = 1;

/// A region on the screen. `Shm` is the handle of the shared memory that it is drawn in.
pub struct WayGap<Shm> {
    pub registry_name: u32,
    pub wl_surface: u32,
    pub layer_surface: u32,
    pub wl_output: u32,
    pub width: u32,
    pub height: u32,
    pub anchor: Anchor,
    /// The size of the shared memory in bytes.
    pub bufsize: u32,
    pub shm: Shm,
    pub configured: bool,
    pub redraw: bool,
    pub commands: Vec<(InputEvent, String)>,
    pub preview_color: Color,
    pub activation_force: u32,
}

/// `anchor` is at the left edge of the screen.
pub open spec fn at_left(anchor: Anchor) -> bool {
    anchor == Anchor::Left || anchor == Anchor::TopLeft || anchor == Anchor::BottomLeft
}

/// `anchor` is at the right edge of the screen.
pub open spec fn at_right(anchor: Anchor) -> bool {
    anchor == Anchor::Right || anchor == Anchor::TopRight || anchor == Anchor::BottomRight
}

/// `anchor` is at the top edge of the screen.
pub open spec fn at_top(anchor: Anchor) -> bool {
    anchor == Anchor::Top || anchor == Anchor::TopLeft || anchor == Anchor::TopRight
}

/// `anchor` is at the bottom edge of the screen.
pub open spec fn at_bottom(anchor: Anchor) -> bool {
    anchor == Anchor::Bottom || anchor == Anchor::BottomLeft || anchor == Anchor::BottomRight
}

/// `anchor` is the whole left or right edge of the screen.
pub open spec fn is_vertical_edge(anchor: Anchor) -> bool {
    anchor == Anchor::Left || anchor == Anchor::Right
}

/// `anchor` is the whole top or bottom edge of the screen.
pub open spec fn is_horizontal_edge(anchor: Anchor) -> bool {
    anchor == Anchor::Top || anchor == Anchor::Bottom
}

/// The edges that a region holds on to: its own, and where it is an edge, the two across it too,
/// so that it stretches between them.
pub open spec fn edges(anchor: Anchor) -> WlrAnchor {
    WlrAnchor {
        top: at_top(anchor) || is_vertical_edge(anchor),
        bottom: at_bottom(anchor) || is_vertical_edge(anchor),
        left: at_left(anchor) || is_horizontal_edge(anchor),
        right: at_right(anchor) || is_horizontal_edge(anchor),
    }
}

/// The width to ask for: 0, for the width of the screen, along a horizontal edge.
pub open spec fn asked_width(anchor: Anchor, size: u32) -> u32 {
    if is_horizontal_edge(anchor) {
        0
    } else {
        size
    }
}

/// The height to ask for: 0, for the height of the screen, along a vertical edge.
pub open spec fn asked_height(anchor: Anchor, size: u32) -> u32 {
    if is_vertical_edge(anchor) {
        0
    } else {
        size
    }
}

/// The edges, the width and the height of a region.
fn placement(config: &GapConfig) -> (r: (WlrAnchor, u32, u32))
    ensures
        r.0 == edges(config.anchor),
        r.1 == asked_width(config.anchor, config.size),
        r.2 == asked_height(config.anchor, config.size),
{
    let size: u32 = config.size * BUFFER_SCALE;
    let none = WlrAnchor { top: false, bottom: false, left: false, right: false };
    match config.anchor {
        Anchor::TopLeft => (WlrAnchor { left: true, top: true, ..none }, size, size),
        Anchor::TopRight => (WlrAnchor { right: true, top: true, ..none }, size, size),
        Anchor::BottomRight => (WlrAnchor { right: true, bottom: true, ..none }, size, size),
        Anchor::BottomLeft => (WlrAnchor { left: true, bottom: true, ..none }, size, size),
        Anchor::Left => (WlrAnchor { left: true, top: true, bottom: true, ..none }, size, 0),
        Anchor::Right => (WlrAnchor { right: true, top: true, bottom: true, ..none }, size, 0),
        Anchor::Top => (WlrAnchor { top: true, left: true, right: true, ..none }, 0, size),
        Anchor::Bottom => (WlrAnchor { bottom: true, left: true, right: true, ..none }, 0, size),
    }
}

/// The margins of a region, from the top clockwise. Only an edge has margins: the start margin is
/// at its top or left end, the end margin at the other.
pub open spec fn margins(config: GapConfig) -> (i32, i32, i32, i32) {
    if is_vertical_edge(config.anchor) {
        (config.start_margin, 0, config.end_margin, 0)
    } else if is_horizontal_edge(config.anchor) {
        (0, config.end_margin, 0, config.start_margin)
    } else {
        (0, 0, 0, 0)
    }
}

/// The request that sets the margins of a region.
pub open spec fn margin_request(layer_surface: u32, config: GapConfig) -> Request {
    let (top, right, bottom, left) = margins(config);
    Request::SetMargin { layer_surface, top, right, bottom, left }
}

/// The requests that make the layer surface of a region and place it, in their order.
pub open spec fn layer_requests(
    layer_shell: u32,
    layer_surface: u32,
    wl_surface: u32,
    wl_output: u32,
    config: GapConfig,
) -> Seq<Request> {
    seq![
        Request::GetLayerSurface {
            layer_shell,
            id: layer_surface,
            surface: wl_surface,
            output: wl_output,
            layer: WlrLayer::Overlay,
            namespace: NAMESPACE,
        },
    ] + (if config.ignore_exclusive_zone {
        seq![Request::SetExclusiveZone { layer_surface, zone: (-1) as i32 }]
    } else {
        seq![]
    }) + seq![
        margin_request(layer_surface, config),
        Request::SetLayer {
            layer_surface,
            layer: vstd::std_specs::convert::FromSpec::from_spec(config.layer),
        },
        Request::SetAnchor { layer_surface, anchor: edges(config.anchor) },
        Request::SetSize {
            layer_surface,
            width: asked_width(config.anchor, config.size),
            height: asked_height(config.anchor, config.size),
        },
        Request::Commit { surface: wl_surface },
    ]
}

/// Makes the surface of a region: its id, and the request for it.
pub fn create_surface(objects: &mut Objects, wl_compositor: u32) -> (r: (u32, Request))
    requires
        old(objects).spec_room() >= 1,
    ensures
        is_first_free(old(objects)@, r.0),
        final(objects)@ == old(objects)@.insert(r.0, WaylandObject::Surface),
        final(objects).spec_room() >= old(objects).spec_room() - 1,
        r.1 == (Request::CreateSurface { compositor: wl_compositor, id: r.0 }),
{
    let wl_surface: u32 = objects.create(WaylandObject::Surface);
    (wl_surface, Request::CreateSurface { compositor: wl_compositor, id: wl_surface })
}

/// Makes the layer surface of a region: its id, and the requests that place it.
pub fn create_layer_surface(
    objects: &mut Objects,
    layer_shell: u32,
    wl_surface: u32,
    wl_output: u32,
    config: &GapConfig,
) -> (r: (u32, Vec<Request>))
    requires
        old(objects).spec_room() >= 1,
    ensures
        is_first_free(old(objects)@, r.0),
        final(objects)@ == old(objects)@.insert(r.0, WaylandObject::LayerSurface),
        final(objects).spec_room() >= old(objects).spec_room() - 1,
        r.1@ == layer_requests(layer_shell, r.0, wl_surface, wl_output, *config),
{
    let layer_surface: u32 = objects.create(WaylandObject::LayerSurface);
    let mut requests: Vec<Request> = Vec::new();
    requests.push(
        Request::GetLayerSurface {
            layer_shell,
            id: layer_surface,
            surface: wl_surface,
            output: wl_output,
            layer: WlrLayer::Overlay,
            namespace: NAMESPACE,
        },
    );
    let (anchor, width, height) = placement(config);
    if config.ignore_exclusive_zone {
        requests.push(Request::SetExclusiveZone { layer_surface, zone: -1 });
    }
    let (top, right, bottom, left): (i32, i32, i32, i32) = match config.anchor {
        Anchor::Left | Anchor::Right => (config.start_margin, 0, config.end_margin, 0),
        Anchor::Top | Anchor::Bottom => (0, config.end_margin, 0, config.start_margin),
        _ => (0, 0, 0, 0),
    };
    requests.push(Request::SetMargin { layer_surface, top, right, bottom, left });
    requests.push(Request::SetLayer { layer_surface, layer: WlrLayer::from(config.layer) });
    requests.push(Request::SetAnchor { layer_surface, anchor });
    requests.push(Request::SetSize { layer_surface, width, height });
    requests.push(Request::Commit { surface: wl_surface });
    (layer_surface, requests)
}

/// A copy of a list of commands.
fn copy_commands(commands: &Vec<(InputEvent, String)>) -> (r: Vec<(InputEvent, String)>)
    ensures
        r@ == commands@,
{
    let mut r: Vec<(InputEvent, String)> = Vec::new();
    let mut i: usize = 0;
    while i < commands.len()
        invariant
            i <= commands.len(),
            r@ == commands@.take(i as int),
        decreases commands.len() - i,
    {
        r.push((commands[i].0, commands[i].1.clone()));
        assert(commands@.take(i + 1) =~= commands@.take(i as int).push(commands@[i as int]));
        i += 1;
    }
    assert(commands@.take(commands@.len() as int) =~= commands@);
    r
}

/// The number that the 32 bits of `v` stand for where they are signed.
pub open spec fn signed(v: u32) -> int {
    if v <= i32::MAX {
        v as int
    } else {
        v - 0x1_0000_0000
    }
}

/// The 32 bits of `v` as a signed number.
fn as_signed(v: u32) -> (r: i32)
    ensures
        r == signed(v),
{
    if v <= 0x7fff_ffff {
        v as i32
    } else {
        -((0xffff_ffff - v) as i32) - 1
    }
}

/// The requests that hand a drawn buffer to the compositor, in their order.
pub open spec fn frame_requests(
    wl_shm: u32,
    pool: u32,
    buffer: u32,
    wl_surface: u32,
    bufsize: u32,
    width: u32,
    height: u32,
) -> Seq<Request> {
    seq![
        Request::CreatePool { shm: wl_shm, id: pool, size: (signed(bufsize) * 4) as i32 },
        Request::CreateBuffer {
            pool,
            id: buffer,
            offset: 0,
            width: signed(width) as i32,
            height: signed(height) as i32,
            stride: (signed(width) * 4) as i32,
            format: ShmFormat::Argb8888,
        },
        Request::DestroyPool { pool },
        Request::SetBufferScale { surface: wl_surface, scale: BUFFER_SCALE as i32 },
        Request::Attach { surface: wl_surface, buffer, x: 0, y: 0 },
        Request::DamageBuffer {
            surface: wl_surface,
            x: 0,
            y: 0,
            width: signed(width) as i32,
            height: signed(height) as i32,
        },
        Request::Commit { surface: wl_surface },
    ]
}

/// Four times the signed number in `v` still has 32 bits.
pub open spec fn fits_fourfold(v: u32) -> bool {
    i32::MIN <= signed(v) * 4 <= i32::MAX
}

impl<Shm> WayGap<Shm> {
    /// The region once its requests have been sent: nothing drawn, nothing configured.
    pub fn new(
        registry_name: u32,
        wl_surface: u32,
        layer_surface: u32,
        wl_output: u32,
        config: &GapConfig,
        shm: Shm,
    ) -> (r: WayGap<Shm>)
        ensures
            r.registry_name == registry_name,
            r.wl_surface == wl_surface,
            r.layer_surface == layer_surface,
            r.wl_output == wl_output,
            r.width == asked_width(config.anchor, config.size),
            r.height == asked_height(config.anchor, config.size),
            r.anchor == config.anchor,
            r.bufsize == 0,
            r.shm == shm,
            !r.configured,
            !r.redraw,
            r.commands@ == config.commands@,
            r.preview_color == config.preview_color,
            r.activation_force == config.activation_force,
    {
        let (_, width, height) = placement(config);
        WayGap {
            registry_name,
            wl_surface,
            layer_surface,
            wl_output,
            width,
            height,
            anchor: config.anchor,
            bufsize: 0,
            shm,
            configured: false,
            redraw: false,
            commands: copy_commands(&config.commands),
            preview_color: config.preview_color,
            activation_force: config.activation_force as u32,
        }
    }

    /// Makes a buffer from the shared memory of the region: the requests that show it.
    pub fn draw_frame(&mut self, wl_shm: u32, objects: &mut Objects) -> (r: Vec<Request>)
        requires
            old(objects).spec_room() >= 2,
            fits_fourfold(old(self).bufsize),
            fits_fourfold(old(self).width),
        ensures
            *final(self) == *old(self),
            exists|pool: u32, buffer: u32|
                {
                    &&& is_first_free(old(objects)@, pool)
                    &&& is_first_free(old(objects)@.insert(pool, WaylandObject::ShmPool), buffer)
                    &&& final(objects)@ == old(objects)@.insert(pool, WaylandObject::ShmPool).insert(
                        buffer,
                        WaylandObject::Buffer,
                    )
                    &&& r@ == #[trigger] frame_requests(
                        wl_shm,
                        pool,
                        buffer,
                        old(self).wl_surface,
                        old(self).bufsize,
                        old(self).width,
                        old(self).height,
                    )
                },
            final(objects).spec_room() >= old(objects).spec_room() - 2,
    {
        let pool: u32 = objects.create(WaylandObject::ShmPool);
        let buffer: u32 = objects.create(WaylandObject::Buffer);
        let width: i32 = as_signed(self.width);
        let height: i32 = as_signed(self.height);
        let mut requests: Vec<Request> = Vec::new();
        requests.push(
            Request::CreatePool { shm: wl_shm, id: pool, size: as_signed(self.bufsize) * 4 },
        );
        requests.push(
            Request::CreateBuffer {
                pool,
                id: buffer,
                offset: 0,
                width,
                height,
                stride: width * 4,
                format: ShmFormat::Argb8888,
            },
        );
        requests.push(Request::DestroyPool { pool });
        requests.push(
            Request::SetBufferScale { surface: self.wl_surface, scale: BUFFER_SCALE as i32 },
        );
        requests.push(Request::Attach { surface: self.wl_surface, buffer, x: 0, y: 0 });
        requests.push(
            Request::DamageBuffer { surface: self.wl_surface, x: 0, y: 0, width, height },
        );
        requests.push(Request::Commit { surface: self.wl_surface });
        assert(requests@ =~= frame_requests(
            wl_shm,
            pool,
            buffer,
            old(self).wl_surface,
            old(self).bufsize,
            old(self).width,
            old(self).height,
        ));
        requests
    }

    /// All requests that show the region have been sent: it need not be drawn again.
    pub fn frame_sent(&mut self)
        ensures
            *final(self) == (WayGap { redraw: false, ..*old(self) }),
    {
        self.redraw = false;
    }

    /// Makes the shared memory large enough for `size` pixels: the length in bytes to give it,
    /// where it is too short.
    pub fn expand_shm(&mut self, size: u32) -> (r: Option<u64>)
        requires
            size * 4 <= u32::MAX,
        ensures
            r == (if size * 4 > old(self).bufsize {
                Some((size * 4) as u64)
            } else {
                None
            }),
            *final(self) == (WayGap {
                bufsize: if size * 4 > old(self).bufsize {
                    (size * 4) as u32
                } else {
                    old(self).bufsize
                },
                ..*old(self)
            }),
    {
        if size * 4 > self.bufsize {
            self.bufsize = size * 4;
            Some(size as u64 * 4)
        } else {
            None
        }
    }

    /// Fills the region with its preview color. `canvas` is its shared memory.
    pub fn draw_preview(&self, canvas: &mut [u32])
        requires
            self.width >= 1,
            self.height >= 1,
            cell(self.height - 1, self.width - 1, self.width as int) <= u32::MAX,
            cell(self.height - 1, self.width - 1, self.width as int) < old(canvas)@.len(),
        ensures
            final(canvas)@.len() == old(canvas)@.len(),
            forall|at: int|
                0 <= at < final(canvas)@.len() ==> #[trigger] final(canvas)@[at] == (if at
                    < self.width * self.height {
                    self.preview_color.pixel()
                } else {
                    old(canvas)@[at] as int
                }),
    {
        bg(canvas, 0, 0, self.width, self.height, self.width, self.preview_color);
        proof {
            assert forall|at: int|
                0 <= at < canvas@.len() implies in_rectangle(
                at,
                0,
                0,
                self.width as int,
                self.height as int,
                self.width as int,
            ) == (at < self.width * self.height) by {
                lemma_full_rectangle(at, self.width as int, self.height as int);
            }
        }
    }
}

/// Rows without gaps between them hold the places below the product of width and height.
proof fn lemma_full_rectangle(at: int, width: int, height: int)
    requires
        0 <= at,
        width >= 1,
        height >= 1,
    ensures
        in_rectangle(at, 0, 0, width, height, width) == (at < width * height),
{
    if at < width * height {
        let y = at / width;
        let x = at % width;
        assert(0 <= y < height && 0 <= x < width && at == y * width + x) by (nonlinear_arith)
            requires
                0 <= at < width * height,
                width >= 1,
                y == at / width,
                x == at % width,
        ;
        assert(at == cell(y, x, width));
    }
    if in_rectangle(at, 0, 0, width, height, width) {
        let (y, x) = choose|y: int, x: int|
            0 <= y < height && 0 <= x < width && at == #[trigger] cell(y, x, width);
        assert(y * width + x < width * height) by (nonlinear_arith)
            requires
                0 <= y < height,
                0 <= x < width,
        ;
    }
}

/// A corner region is square, holds on to the two edges that meet there, and has no margins.
pub proof fn corners_are_square(config: GapConfig)
    requires
        !is_vertical_edge(config.anchor),
        !is_horizontal_edge(config.anchor),
    ensures
        asked_width(config.anchor, config.size) == config.size,
        asked_height(config.anchor, config.size) == config.size,
        edges(config.anchor).top != edges(config.anchor).bottom,
        edges(config.anchor).left != edges(config.anchor).right,
        margins(config) == (0i32, 0i32, 0i32, 0i32),
{
}

/// An edge region reaches `size` into the screen, stretches between the two edges across it, and
/// keeps the margins there and nowhere else.
pub proof fn edges_stretch(config: GapConfig)
    ensures
        is_vertical_edge(config.anchor) ==> {
            &&& asked_width(config.anchor, config.size) == config.size
            &&& asked_height(config.anchor, config.size) == 0
            &&& edges(config.anchor).top && edges(config.anchor).bottom
            &&& edges(config.anchor).left != edges(config.anchor).right
            &&& margins(config) == (config.start_margin, 0i32, config.end_margin, 0i32)
        },
        is_horizontal_edge(config.anchor) ==> {
            &&& asked_height(config.anchor, config.size) == config.size
            &&& asked_width(config.anchor, config.size) == 0
            &&& edges(config.anchor).left && edges(config.anchor).right
            &&& edges(config.anchor).top != edges(config.anchor).bottom
            &&& margins(config) == (0i32, config.end_margin, 0i32, config.start_margin)
        },
{
}

/// The place of the pixel in row `y` and column `x` of a canvas whose rows are `stride` apart.
pub open spec fn cell(y: int, x: int, stride: int) -> int {
    y * stride + x
}

/// The place `at` lies in the rows from `y1` on below `y2` and the columns from `x1` on below `x2`.
pub open spec fn in_rectangle(at: int, x1: int, y1: int, x2: int, y2: int, stride: int) -> bool {
    exists|y: int, x: int| y1 <= y < y2 && x1 <= x < x2 && at == #[trigger] cell(y, x, stride)
}

/// Fills a rectangle of a canvas with one color, and leaves the rest as it is.
pub fn bg(canvas: &mut [u32], x1: u32, y1: u32, x2: u32, y2: u32, stride: u32, color: Color)
    requires
        x2 >= 1,
        y2 >= 1,
        cell(y2 - 1, x2 - 1, stride as int) <= u32::MAX,
        cell(y2 - 1, x2 - 1, stride as int) < old(canvas)@.len(),
    ensures
        final(canvas)@.len() == old(canvas)@.len(),
        forall|at: int|
            0 <= at < final(canvas)@.len() ==> #[trigger] final(canvas)@[at] == (if in_rectangle(
                at,
                x1 as int,
                y1 as int,
                x2 as int,
                y2 as int,
                stride as int,
            ) {
                color.pixel()
            } else {
                old(canvas)@[at] as int
            }),
{
    let color: u32 = color.as_u32();
    let ghost was = canvas@;
    let ghost s = stride as int;
    let mut y: u32 = y1;
    while y < y2
        invariant
            y1 <= y <= y2 || y == y1,
            x2 >= 1,
            y2 >= 1,
            s == stride,
            cell(y2 - 1, x2 - 1, s) <= u32::MAX,
            cell(y2 - 1, x2 - 1, s) < was.len(),
            canvas@.len() == was.len(),
            forall|at: int|
                0 <= at < was.len() ==> #[trigger] canvas@[at] == (if in_rectangle(
                    at,
                    x1 as int,
                    y1 as int,
                    x2 as int,
                    y as int,
                    s,
                ) {
                    color
                } else {
                    was[at]
                }),
        decreases y2 - y,
    {
        let ghost rows = canvas@;
        assert(y * s <= (y2 - 1) * s) by (nonlinear_arith)
            requires
                y <= y2 - 1,
                0 <= s,
        ;
        let row: usize = (y * stride) as usize;
        let mut x: u32 = x1;
        while x < x2
            invariant
                y1 <= y < y2,
                x1 <= x <= x2 || x == x1,
                s == stride,
                row == y * s,
                row + x2 - 1 <= cell(y2 - 1, x2 - 1, s),
                cell(y2 - 1, x2 - 1, s) <= u32::MAX,
                cell(y2 - 1, x2 - 1, s) < was.len(),
                canvas@.len() == was.len(),
                rows.len() == was.len(),
                forall|at: int|
                    0 <= at < was.len() ==> #[trigger] canvas@[at] == (if row + x1 <= at < row + x {
                        color
                    } else {
                        rows[at]
                    }),
            decreases x2 - x,
        {
            canvas[row + x as usize] = color;
            x += 1;
        }
        proof {
            assert forall|at: int| 0 <= at < was.len() implies #[trigger] canvas@[at] == (
            if in_rectangle(at, x1 as int, y1 as int, x2 as int, y + 1, s) {
                color
            } else {
                was[at]
            }) by {
                if row + x1 <= at < row + x2 {
                    assert(at == cell(y as int, at - row, s));
                } else {
                    assert(rows[at] == canvas@[at]);
                    if in_rectangle(at, x1 as int, y1 as int, x2 as int, y + 1, s) {
                        let (yy, xx) = choose|yy: int, xx: int|
                            y1 <= yy < y + 1 && x1 <= xx < x2 && at == #[trigger] cell(yy, xx, s);
                        assert(yy != y);
                        assert(in_rectangle(at, x1 as int, y1 as int, x2 as int, y as int, s));
                    }
                    if in_rectangle(at, x1 as int, y1 as int, x2 as int, y as int, s) {
                        let (yy, xx) = choose|yy: int, xx: int|
                            y1 <= yy < y && x1 <= xx < x2 && at == #[trigger] cell(yy, xx, s);
                        assert(in_rectangle(at, x1 as int, y1 as int, x2 as int, y + 1, s));
                    }
                }
            }
        }
        y += 1;
    }
}

/// The requests that place a region, one by one, said of the configuration itself. There is one of
/// each, but for the exclusive zone, which is set only where it is to be ignored.
pub proof fn region_is_placed_as_configured(
    layer_shell: u32,
    layer_surface: u32,
    wl_surface: u32,
    wl_output: u32,
    config: GapConfig,
)
    ensures
        ({
            let sent = layer_requests(layer_shell, layer_surface, wl_surface, wl_output, config);
            let left = config.anchor == Anchor::Left;
            let right = config.anchor == Anchor::Right;
            let top = config.anchor == Anchor::Top;
            let bottom = config.anchor == Anchor::Bottom;
            let first: int = if config.ignore_exclusive_zone {
                2
            } else {
                1
            };
            &&& sent.len() == first + 5
            &&& sent[0] is GetLayerSurface
            &&& sent[0]->GetLayerSurface_layer_shell == layer_shell
            &&& sent[0]->GetLayerSurface_id == layer_surface
            &&& sent[0]->GetLayerSurface_surface == wl_surface
            &&& sent[0]->GetLayerSurface_output == wl_output
            &&& sent[0]->GetLayerSurface_layer == WlrLayer::Overlay
            &&& sent[0]->GetLayerSurface_namespace@ == "waygaps"@
            &&& config.ignore_exclusive_zone ==> sent[1] is SetExclusiveZone
                && sent[1]->SetExclusiveZone_layer_surface == layer_surface
                && sent[1]->SetExclusiveZone_zone == -1
            &&& sent[first] is SetMargin
            &&& sent[first]->SetMargin_layer_surface == layer_surface
            &&& sent[first]->SetMargin_top == (if left || right {
                config.start_margin
            } else {
                0
            })
            &&& sent[first]->SetMargin_bottom == (if left || right {
                config.end_margin
            } else {
                0
            })
            &&& sent[first]->SetMargin_left == (if top || bottom {
                config.start_margin
            } else {
                0
            })
            &&& sent[first]->SetMargin_right == (if top || bottom {
                config.end_margin
            } else {
                0
            })
            &&& sent[first + 1] is SetLayer
            &&& sent[first + 1]->SetLayer_layer_surface == layer_surface
            &&& sent[first + 1]->SetLayer_layer == WlrLayer::Background <==> config.layer
                == Layer::Background
            &&& sent[first + 1]->SetLayer_layer == WlrLayer::Bottom <==> config.layer
                == Layer::Bottom
            &&& sent[first + 1]->SetLayer_layer == WlrLayer::Top <==> config.layer == Layer::Top
            &&& sent[first + 2] is SetAnchor
            &&& sent[first + 2]->SetAnchor_layer_surface == layer_surface
            &&& sent[first + 2]->SetAnchor_anchor.left <==> left || top || bottom || config.anchor
                == Anchor::TopLeft || config.anchor == Anchor::BottomLeft
            &&& sent[first + 2]->SetAnchor_anchor.right <==> right || top || bottom
                || config.anchor == Anchor::TopRight || config.anchor == Anchor::BottomRight
            &&& sent[first + 2]->SetAnchor_anchor.top <==> top || left || right || config.anchor
                == Anchor::TopLeft || config.anchor == Anchor::TopRight
            &&& sent[first + 2]->SetAnchor_anchor.bottom <==> bottom || left || right
                || config.anchor == Anchor::BottomLeft || config.anchor == Anchor::BottomRight
            &&& sent[first + 3] is SetSize
            &&& sent[first + 3]->SetSize_layer_surface == layer_surface
            &&& sent[first + 3]->SetSize_width == (if top || bottom {
                0
            } else {
                config.size
            })
            &&& sent[first + 3]->SetSize_height == (if left || right {
                0
            } else {
                config.size
            })
            &&& sent[first + 4] == (Request::Commit { surface: wl_surface })
        }),
{
}

/// The same region turned to the opposite edge keeps its size and its margins, and only changes the
/// edge that it lies at.
pub proof fn opposite_edges_are_alike(a: GapConfig, b: GapConfig)
    requires
        a.anchor == Anchor::Left && b.anchor == Anchor::Right || a.anchor == Anchor::Top && b.anchor
            == Anchor::Bottom,
        a.size == b.size,
        a.start_margin == b.start_margin,
        a.end_margin == b.end_margin,
    ensures
        margins(a) == margins(b),
        asked_width(a.anchor, a.size) == asked_width(b.anchor, b.size),
        asked_height(a.anchor, a.size) == asked_height(b.anchor, b.size),
        edges(a.anchor) != edges(b.anchor),
        forall|layer_surface: u32| #[trigger]
            margin_request(layer_surface, a) == margin_request(layer_surface, b),
{
}

/// The requests that show a region, one by one: a pool of its shared memory, a buffer of its size in
/// the pool with four bytes for each pixel, and that buffer attached as a whole and committed.
pub proof fn frame_is_shown_in_full(
    wl_shm: u32,
    pool: u32,
    buffer: u32,
    wl_surface: u32,
    bufsize: u32,
    width: u32,
    height: u32,
)
    requires
        bufsize * 4 <= i32::MAX,
        width * 4 <= i32::MAX,
        height <= i32::MAX,
    ensures
        ({
            let sent = frame_requests(wl_shm, pool, buffer, wl_surface, bufsize, width, height);
            &&& sent.len() == 7
            &&& sent[0] is CreatePool
            &&& sent[0]->CreatePool_shm == wl_shm
            &&& sent[0]->CreatePool_id == pool
            &&& sent[0]->CreatePool_size == bufsize * 4
            &&& sent[1] is CreateBuffer
            &&& sent[1]->CreateBuffer_pool == pool
            &&& sent[1]->CreateBuffer_id == buffer
            &&& sent[1]->CreateBuffer_offset == 0
            &&& sent[1]->CreateBuffer_width == width
            &&& sent[1]->CreateBuffer_height == height
            &&& sent[1]->CreateBuffer_stride == width * 4
            &&& sent[1]->CreateBuffer_format == ShmFormat::Argb8888
            &&& sent[2] == (Request::DestroyPool { pool })
            &&& sent[3] == (Request::SetBufferScale { surface: wl_surface, scale: 1 })
            &&& sent[4] == (Request::Attach { surface: wl_surface, buffer, x: 0, y: 0 })
            &&& sent[5] is DamageBuffer
            &&& sent[5]->DamageBuffer_surface == wl_surface
            &&& sent[5]->DamageBuffer_x == 0
            &&& sent[5]->DamageBuffer_y == 0
            &&& sent[5]->DamageBuffer_width == width
            &&& sent[5]->DamageBuffer_height == height
            &&& sent[6] == (Request::Commit { surface: wl_surface })
        }),
{
}

/// A number of 32 bits that is read as a signed one changes by 2^32 or not at all, and four times it
/// fits where it is small either way.
pub proof fn signed_numbers_wrap(v: u32)
    ensures
        -0x8000_0000 <= signed(v) <= 0x7fff_ffff,
        signed(v) == v || signed(v) == v - 0x1_0000_0000,
        fits_fourfold(v) <==> v < 0x2000_0000 || v >= 0xe000_0000,
{
}

/// A rectangle holds the pixels of its rows and columns, and, where its columns are within a row, no
/// others.
pub proof fn rectangle_holds_its_pixels(
    x: int,
    y: int,
    x1: int,
    y1: int,
    x2: int,
    y2: int,
    stride: int,
)
    requires
        0 <= x1,
        0 <= x < stride,
        x2 <= stride,
    ensures
        in_rectangle(y * stride + x, x1, y1, x2, y2, stride) <==> x1 <= x < x2 && y1 <= y < y2,
{
    if x1 <= x < x2 && y1 <= y < y2 {
        assert(cell(y, x, stride) == y * stride + x);
    }
    if in_rectangle(y * stride + x, x1, y1, x2, y2, stride) {
        let (v, u) = choose|v: int, u: int|
            y1 <= v < y2 && x1 <= u < x2 && y * stride + x == #[trigger] cell(v, u, stride);
        assert(v == y && u == x) by (nonlinear_arith)
            requires
                0 <= x < stride,
                0 <= u < stride,
                y * stride + x == v * stride + u,
        ;
    }
}

} // verus!
