use rustix::net::{bind, listen, socket_with, AddressFamily, SocketAddrUnix, SocketFlags, SocketType};
use waybackend::objman::ObjectManager;
use waygaps::config::{Anchor, Color, GapConfig, InputEvent, Layer};
use waygaps::gap::{bg, create_layer_surface, create_surface, WayGap, BUFFER_SCALE};
use waygaps::gaps;
use waygaps::objects::{Objects, WaylandObject, MAX_OBJECTS};
use waygaps::protocol::{
    ButtonState, Interface, Request, ShmFormat, WlAxis, WlrAnchor, WlrLayer, NAMESPACE,
};
use waygaps::surface;

fn manager(name: &str) -> ObjectManager<WaylandObject> {
    let name = format!("waygaps-drawing-{name}-{:?}", rustix::process::getpid());
    let addr = SocketAddrUnix::new_abstract_name(name.as_bytes()).unwrap();
    let family = AddressFamily::UNIX;
    let listener = socket_with(family, SocketType::STREAM, SocketFlags::CLOEXEC, None).unwrap();
    bind(&listener, &addr).unwrap();
    listen(&listener, 1).unwrap();
    let socket = socket_with(family, SocketType::STREAM, SocketFlags::CLOEXEC, None).unwrap();
    let (_, manager, _) = waybackend::connect_to(WaylandObject::Display, socket, &addr).unwrap();
    manager
}

#[test]
fn ids_are_handed_out_from_the_smallest_up() {
    let mut objects = Objects::new(manager("ids"));
    assert_eq!(objects.room(), MAX_OBJECTS - 1);
    assert_eq!(objects.create(WaylandObject::Registry), 2);
    assert_eq!(objects.create(WaylandObject::Callback), 3);
    assert_eq!(objects.create(WaylandObject::Surface), 4);
    assert_eq!(objects.room(), MAX_OBJECTS - 4);
    assert_eq!(objects.get_first(WaylandObject::Callback), Some(3));
    assert_eq!(objects.get_first(WaylandObject::Display), Some(1));
    assert_eq!(objects.get_first(WaylandObject::Seat), None);
    assert_eq!(objects.remove(3), Some(WaylandObject::Callback));
    assert_eq!(objects.remove(3), None);
    assert_eq!(objects.remove(0), None);
    assert_eq!(objects.get_first(WaylandObject::Callback), None);
    assert_eq!(objects.room(), MAX_OBJECTS - 4);
    assert_eq!(objects.create(WaylandObject::Seat), 3);
    assert_eq!(objects.room(), MAX_OBJECTS - 4);
    assert_eq!(objects.create(WaylandObject::Seat), 5);
    assert_eq!(objects.get_first(WaylandObject::Seat), Some(3));
}

#[test]
fn objects_are_looked_up_by_id() {
    let mut manager = manager("lookup");
    let registry = manager.create(WaylandObject::Registry);
    let callback = manager.create(WaylandObject::Callback);
    let mut objects = Objects::new(manager);
    assert_eq!(objects.get(registry), (2, Some(WaylandObject::Registry)));
    assert_eq!(objects.get(callback), (3, Some(WaylandObject::Callback)));
    assert_eq!(objects.get(waybackend::WL_DISPLAY), (1, Some(WaylandObject::Display)));
    assert_eq!(objects.room(), MAX_OBJECTS - 3);
    objects.remove(3);
    assert_eq!(objects.get(callback), (3, None));
}

#[test]
fn a_full_table_of_kinds_is_taken_over() {
    let mut manager = manager("kinds");
    for kind in [WaylandObject::RelativePointerMgr, WaylandObject::Pointer, WaylandObject::Shm] {
        let _ = manager.create(kind);
    }
    manager.remove(4);
    let mut objects = Objects::new(manager);
    assert_eq!(objects.room(), MAX_OBJECTS - 3);
    assert_eq!(objects.create(WaylandObject::Buffer), 4);
}

fn anchor(top: bool, bottom: bool, left: bool, right: bool) -> WlrAnchor {
    WlrAnchor { top, bottom, left, right }
}

fn placed(config: &GapConfig, name: &str) -> Vec<Request> {
    let mut objects = Objects::new(manager(name));
    let (surface, request) = create_surface(&mut objects, 40);
    assert_eq!(surface, 2);
    assert_eq!(request, Request::CreateSurface { compositor: 40, id: 2 });
    let (layer_surface, requests) = create_layer_surface(&mut objects, 50, surface, 60, config);
    assert_eq!(layer_surface, 3);
    requests
}

#[test]
fn an_edge_is_placed() {
    let config = GapConfig {
        anchor: Anchor::Top,
        size: 50,
        start_margin: 10,
        end_margin: 20,
        layer: Layer::Top,
        ..GapConfig::default()
    };
    assert_eq!(
        placed(&config, "edge"),
        vec![
            Request::GetLayerSurface {
                layer_shell: 50,
                id: 3,
                surface: 2,
                output: 60,
                layer: WlrLayer::Overlay,
                namespace: "waygaps",
            },
            Request::SetExclusiveZone { layer_surface: 3, zone: -1 },
            Request::SetMargin { layer_surface: 3, top: 0, right: 20, bottom: 0, left: 10 },
            Request::SetLayer { layer_surface: 3, layer: WlrLayer::Top },
            Request::SetAnchor { layer_surface: 3, anchor: anchor(true, false, true, true) },
            Request::SetSize { layer_surface: 3, width: 0, height: 50 },
            Request::Commit { surface: 2 },
        ]
    );
}

#[test]
fn a_corner_is_placed() {
    let config = GapConfig {
        anchor: Anchor::BottomRight,
        size: 50,
        start_margin: 10,
        end_margin: 20,
        ignore_exclusive_zone: false,
        ..GapConfig::default()
    };
    assert_eq!(
        placed(&config, "corner"),
        vec![
            Request::GetLayerSurface {
                layer_shell: 50,
                id: 3,
                surface: 2,
                output: 60,
                layer: WlrLayer::Overlay,
                namespace: "waygaps",
            },
            Request::SetMargin { layer_surface: 3, top: 0, right: 0, bottom: 0, left: 0 },
            Request::SetLayer { layer_surface: 3, layer: WlrLayer::Overlay },
            Request::SetAnchor { layer_surface: 3, anchor: anchor(false, true, false, true) },
            Request::SetSize { layer_surface: 3, width: 50, height: 50 },
            Request::Commit { surface: 2 },
        ]
    );
}

#[test]
fn all_anchors_are_placed() {
    let cases = [
        (Anchor::TopLeft, anchor(true, false, true, false), 5, 7, 7),
        (Anchor::TopRight, anchor(true, false, false, true), 9, 7, 7),
        (Anchor::BottomRight, anchor(false, true, false, true), 10, 7, 7),
        (Anchor::BottomLeft, anchor(false, true, true, false), 6, 7, 7),
        (Anchor::Left, anchor(true, true, true, false), 7, 7, 0),
        (Anchor::Right, anchor(true, true, false, true), 11, 7, 0),
        (Anchor::Top, anchor(true, false, true, true), 13, 0, 7),
        (Anchor::Bottom, anchor(false, true, true, true), 14, 0, 7),
    ];
    for (at, edges, bits, width, height) in cases {
        let config = GapConfig { anchor: at, size: 7, ..GapConfig::default() };
        let requests = placed(&config, at.name());
        assert!(requests.contains(&Request::SetAnchor { layer_surface: 3, anchor: edges }));
        assert!(requests.contains(&Request::SetSize { layer_surface: 3, width, height }));
        assert_eq!(edges.bits(), bits);
    }
}

#[test]
fn side_edges_keep_their_margins() {
    let config = GapConfig {
        anchor: Anchor::Left,
        start_margin: 3,
        end_margin: -4,
        ..GapConfig::default()
    };
    assert!(placed(&config, "side").contains(&Request::SetMargin {
        layer_surface: 3,
        top: 3,
        right: 0,
        bottom: -4,
        left: 0
    }));
}

fn gap(anchor: Anchor, size: u32) -> WayGap<()> {
    let config = GapConfig {
        anchor,
        size,
        commands: vec![(InputEvent::Enter, "hello".to_string())],
        ..GapConfig::default()
    };
    WayGap::new(1, 2, 3, 4, &config, ())
}

#[test]
fn a_new_region_is_not_drawn() {
    let gap = gap(Anchor::Bottom, 12);
    assert_eq!((gap.registry_name, gap.wl_surface, gap.layer_surface, gap.wl_output), (1, 2, 3, 4));
    assert_eq!((gap.width, gap.height, gap.bufsize), (0, 12, 0));
    assert!(!gap.configured && !gap.redraw);
    assert_eq!(gap.commands, vec![(InputEvent::Enter, "hello".to_string())]);
    assert_eq!(gap.preview_color, Color::new(25, 128, 16, 16));
    assert_eq!(gap.activation_force, 25);
    assert_eq!(gap.anchor, Anchor::Bottom);
}

#[test]
fn shared_memory_only_grows() {
    let mut gap = gap(Anchor::TopLeft, 12);
    assert_eq!(gap.expand_shm(0), None);
    assert_eq!(gap.expand_shm(100), Some(400));
    assert_eq!(gap.bufsize, 400);
    assert_eq!(gap.expand_shm(100), None);
    assert_eq!(gap.expand_shm(50), None);
    assert_eq!(gap.bufsize, 400);
    assert_eq!(gap.expand_shm(101), Some(404));
    assert_eq!(gap.bufsize, 404);
}

#[test]
fn a_frame_is_drawn() {
    let mut objects = Objects::new(manager("frame"));
    let mut gap = gap(Anchor::TopLeft, 12);
    gap.expand_shm(144);
    gap.redraw = true;
    assert_eq!(
        gap.draw_frame(9, &mut objects),
        vec![
            Request::CreatePool { shm: 9, id: 2, size: 2304 },
            Request::CreateBuffer {
                pool: 2,
                id: 3,
                offset: 0,
                width: 12,
                height: 12,
                stride: 48,
                format: ShmFormat::Argb8888,
            },
            Request::DestroyPool { pool: 2 },
            Request::SetBufferScale { surface: 2, scale: 1 },
            Request::Attach { surface: 2, buffer: 3, x: 0, y: 0 },
            Request::DamageBuffer { surface: 2, x: 0, y: 0, width: 12, height: 12 },
            Request::Commit { surface: 2 },
        ]
    );
    assert!(gap.redraw);
    gap.frame_sent();
    assert!(!gap.redraw);
    assert_eq!(objects.get_first(WaylandObject::ShmPool), Some(2));
    assert_eq!(objects.get_first(WaylandObject::Buffer), Some(3));
    assert_eq!(BUFFER_SCALE, 1);
}

#[test]
fn a_rectangle_is_filled() {
    let color = Color::new(1, 2, 3, 4);
    let mut canvas = vec![7u32; 20];
    bg(&mut canvas, 1, 1, 3, 3, 5, color);
    let mut want = vec![7u32; 20];
    for at in [6, 7, 11, 12] {
        want[at] = 0x0102_0304;
    }
    assert_eq!(canvas, want);
}

#[test]
fn an_empty_rectangle_is_left() {
    let mut canvas = vec![7u32; 4];
    bg(&mut canvas, 2, 0, 1, 1, 1, Color::new(1, 2, 3, 4));
    assert_eq!(canvas, vec![7u32; 4]);
}

#[test]
fn the_preview_fills_the_region() {
    let mut gap = gap(Anchor::TopLeft, 3);
    gap.height = 2;
    let mut canvas = vec![0u32; 8];
    gap.draw_preview(&mut canvas);
    assert_eq!(canvas, vec![0x1980_1010, 0x1980_1010, 0x1980_1010, 0x1980_1010, 0x1980_1010, 0x1980_1010, 0, 0]);
}

#[test]
fn interfaces_have_names() {
    let cases = [
        (Interface::WlCompositor, "wl_compositor"),
        (Interface::WlShm, "wl_shm"),
        (Interface::WlOutput, "wl_output"),
        (Interface::WlSeat, "wl_seat"),
        (Interface::ZwlrLayerShellV1, "zwlr_layer_shell_v1"),
        (Interface::ZwpRelativePointerManagerV1, "zwp_relative_pointer_manager_v1"),
    ];
    for (interface, name) in cases {
        assert_eq!(interface.name(), name);
        assert_eq!(Interface::of_name(name), Some(interface));
    }
    assert_eq!(Interface::of_name("wl_output2"), None);
    assert_eq!(NAMESPACE, "waygaps");
}

#[test]
fn surfaces_of_corners_and_edges() {
    let cases = [
        (gaps::Anchor::TopLeft, anchor(true, false, true, false), 9, 9),
        (gaps::Anchor::TopRight, anchor(true, false, false, true), 9, 9),
        (gaps::Anchor::BottomRight, anchor(false, true, false, true), 9, 9),
        (gaps::Anchor::BottomLeft, anchor(false, true, true, false), 9, 9),
        (gaps::Anchor::Left, anchor(false, false, true, false), 9, 0),
        (gaps::Anchor::Right, anchor(false, false, false, true), 9, 0),
        (gaps::Anchor::Top, anchor(true, false, false, false), 0, 9),
        (gaps::Anchor::Bottom, anchor(false, true, false, false), 0, 9),
    ];
    assert_eq!(gaps::Anchor::default(), gaps::Anchor::TopLeft);
    for (i, (at, edges, width, height)) in cases.into_iter().enumerate() {
        let config = gaps::GapConfig {
            output: None,
            enter_command: Vec::new(),
            exit_command: Vec::new(),
            click_command: Vec::new(),
            anchor: at,
            size: 9,
            margin: 1,
            timeout_ms: 250,
            color: 0,
        };
        assert_eq!(config.clone().timeout_ms, 250);
        let mut objects = Objects::new(manager(&format!("surface{i}")));
        let (wl_surface, _) = create_surface(&mut objects, 40);
        let (layer_surface, requests) =
            surface::create_layer_surface(&mut objects, 50, wl_surface, 60, &config);
        assert_eq!(
            requests,
            vec![
                Request::GetLayerSurface {
                    layer_shell: 50,
                    id: 3,
                    surface: 2,
                    output: 60,
                    layer: WlrLayer::Overlay,
                    namespace: "waygaps",
                },
                Request::SetAnchor { layer_surface: 3, anchor: edges },
                Request::SetSize { layer_surface: 3, width, height },
            ]
        );
        let surface = surface::Surface::new(8, 60, wl_surface, layer_surface, &config, "shm");
        assert_eq!((surface.registry_name, surface.wl_output), (8, 60));
        assert_eq!((surface.wl_surface, surface.layer_surface), (2, 3));
        assert_eq!((surface.width, surface.height, surface.anchor), (width, height, edges));
        assert_eq!(surface.shm, "shm");
        assert_eq!(surface.frame_callback, None);
        assert!(!surface.configured && !surface.selected && !surface.redraw);
    }
}

#[test]
fn numbers_of_the_protocol() {
    assert_eq!(WlrLayer::Background.number(), 0);
    assert_eq!(WlrLayer::Bottom.number(), 1);
    assert_eq!(WlrLayer::Top.number(), 2);
    assert_eq!(WlrLayer::Overlay.number(), 3);
    assert_eq!(ShmFormat::Argb8888.number(), 0);
    assert_eq!(ShmFormat::Xrgb8888.number(), 1);
    assert_eq!(WlAxis::of_number(0), Some(WlAxis::VerticalScroll));
    assert_eq!(WlAxis::of_number(1), Some(WlAxis::HorizontalScroll));
    assert_eq!(WlAxis::of_number(2), None);
    assert_eq!(ButtonState::of_number(0), Some(ButtonState::Released));
    assert_eq!(ButtonState::of_number(1), Some(ButtonState::Pressed));
    assert_eq!(ButtonState::of_number(2), None);
}
