use rustix::net::{bind, listen, socket_with, AddressFamily, SocketAddrUnix, SocketFlags, SocketType};
use waybackend::objman::ObjectManager;
use waygaps::app::{get_pointer, get_relative_pointer, App};
use waygaps::config::{Anchor, BTreeConfig, Config, GapConfig, InputEvent, Layer};
use waygaps::globals::{is_bound, Globals};
use waygaps::objects::{Objects, WaylandObject};
use waygaps::protocol::{ButtonState, Interface, Request, ShmFormat, WlAxis, WlrAnchor, WlrLayer};

const PX: i32 = 256;

fn manager(name: &str) -> ObjectManager<WaylandObject> {
    let name = format!("waygaps-app-{name}-{:?}", rustix::process::getpid());
    let addr = SocketAddrUnix::new_abstract_name(name.as_bytes()).unwrap();
    let family = AddressFamily::UNIX;
    let listener = socket_with(family, SocketType::STREAM, SocketFlags::CLOEXEC, None).unwrap();
    bind(&listener, &addr).unwrap();
    listen(&listener, 1).unwrap();
    let socket = socket_with(family, SocketType::STREAM, SocketFlags::CLOEXEC, None).unwrap();
    let (_, manager, _) = waybackend::connect_to(WaylandObject::Display, socket, &addr).unwrap();
    manager
}

/// Registry 2, callback 3, compositor 4, shm 5, layer shell 6, relative pointer manager 7.
fn bound(name: &str) -> Objects {
    let mut manager = manager(name);
    for kind in [
        WaylandObject::Registry,
        WaylandObject::Callback,
        WaylandObject::Compositor,
        WaylandObject::Shm,
        WaylandObject::LayerShell,
        WaylandObject::RelativePointerMgr,
    ] {
        let _ = manager.create(kind);
    }
    Objects::new(manager)
}

fn command(key: &str, line: &str) -> (InputEvent, String) {
    (InputEvent::from_key(key).unwrap(), line.to_string())
}

fn hot_corner() -> GapConfig {
    GapConfig {
        output: Some("eDP-1".to_string()),
        anchor: Anchor::TopRight,
        size: 50,
        start_margin: 10,
        end_margin: 10,
        activation_force: 20,
        layer: Layer::Top,
        ignore_exclusive_zone: false,
        commands: vec![
            command("enter", "notify-send enter"),
            command("leave", "notify-send leave"),
            command("edge", "notify-send edge"),
            command("scroll-up", "notify-send up"),
            command("scroll-down", "notify-send down"),
            command("scroll-left", "notify-send left"),
            command("scroll-right", "notify-send right"),
            command("mouse-left", "notify-send 'left click'"),
            command("mouse-right", "notify-send 'right click'"),
            command("mouse-middle", "notify-send 'middle click'"),
            command("mouse-275", "notify-send 'back button'"),
            command("mouse-left", "notify-send again"),
            command("enter", "notify-send never"),
        ],
        ..GapConfig::default()
    }
}

fn config() -> Config {
    let mut config = BTreeConfig::new();
    config.insert("hot-corner-1".to_string(), hot_corner());
    config.insert("everywhere".to_string(), GapConfig::default());
    config.insert(
        "other".to_string(),
        GapConfig { output: Some("HDMI".to_string()), ..GapConfig::default() },
    );
    config.into_config()
}

fn app(name: &str, preview: bool) -> App<u32> {
    match App::new(bound(name), config(), preview) {
        Ok(app) => app,
        Err(kind) => panic!("missing {kind:?}"),
    }
}

/// The app with the output 8, the hot corner on it (surface 9, layer surface 10) and a seat 11
/// with the pointer 12, whose relative movements come from 13.
fn running(name: &str) -> App<u32> {
    let mut app = app(name, false);
    app.create_output(100, 4);
    app.name(8, "eDP-1");
    app.description(8, "Built-in");
    let ready = app.done(8).unwrap();
    assert_eq!(ready.regions, vec![0, 1]);
    let (surface, _) = app.open_gap();
    let (layer_surface, _) = app.place_gap(1, surface, 8);
    app.add_gap(1, ready.registry_name, surface, layer_surface, 8, 77);
    app.create_seat(200, 7);
    app.capabilities(11, 1);
    app
}

#[test]
fn a_missing_global_is_told() {
    let order = [
        WaylandObject::Registry,
        WaylandObject::Compositor,
        WaylandObject::LayerShell,
        WaylandObject::Shm,
        WaylandObject::RelativePointerMgr,
    ];
    for (i, missing) in order.iter().enumerate() {
        let mut manager = manager(&format!("missing{i}"));
        for kind in &order[..i] {
            let _ = manager.create(*kind);
        }
        let app: Result<App<u32>, WaylandObject> =
            App::new(Objects::new(manager), BTreeConfig::new().into_config(), false);
        assert_eq!(app.err(), Some(*missing));
    }
}

#[test]
fn the_app_starts() {
    let app = app("start", true);
    assert_eq!((app.registry, app.compositor, app.shm), (2, 4, 5));
    assert_eq!((app.layer_shell, app.relative_ptr_mgr), (6, 7));
    assert!(app.waygaps.is_empty() && app.seats.is_empty() && app.pending_outputs.is_empty());
    assert_eq!(app.config.0.len(), 3);
    assert!(app.preview && !app.should_exit());
}

#[test]
fn globals_are_bound() {
    let mut manager = manager("globals");
    let _ = manager.create(WaylandObject::Registry);
    let mut globals = Globals::new(Objects::new(manager));
    assert_eq!(
        globals.add_global(2, 1, "wl_compositor", 6),
        Some(Request::Bind {
            registry: 2,
            name: 1,
            id: 3,
            interface: Interface::WlCompositor,
            version: 6
        })
    );
    assert_eq!(globals.add_global(2, 5, "wl_output", 4), None);
    assert_eq!(globals.add_global(2, 6, "wl_seat", 9), None);
    assert_eq!(globals.add_global(2, 7, "xdg_wm_base", 1), None);
    assert_eq!(globals.add_global(2, 8, "wl_output", 3), None);
    assert_eq!(globals.add_global(2, 12, "wl_output", 2), None);
    for (name, interface) in [
        (20, Interface::WlShm),
        (21, Interface::ZwlrLayerShellV1),
        (22, Interface::ZwpRelativePointerManagerV1),
    ] {
        let id = name - 16;
        assert_eq!(
            globals.add_global(2, name, interface.name(), 1),
            Some(Request::Bind { registry: 2, name, id, interface, version: 1 })
        );
    }
    assert!(is_bound("wl_shm") && is_bound("zwlr_layer_shell_v1"));
    assert!(!is_bound("wl_seat") && !is_bound("wl_output") && !is_bound("xdg_wm_base"));
    assert_eq!(globals.room(), waygaps::objects::MAX_OBJECTS - 6);
    let (objects, outputs, seats) = globals.finish();
    assert_eq!(outputs, vec![(5, 4), (8, 3), (12, 2)]);
    assert_eq!(seats, vec![(6, 9)]);
    assert_eq!(objects.get_first(WaylandObject::Compositor), Some(3));
    assert_eq!(objects.get_first(WaylandObject::Shm), Some(4));
    assert_eq!(objects.get_first(WaylandObject::LayerShell), Some(5));
    assert_eq!(objects.get_first(WaylandObject::RelativePointerMgr), Some(6));
    assert_eq!(objects.get_first(WaylandObject::Output), None);
}

#[test]
fn outputs_open_their_regions_once() {
    let mut app = app("outputs", false);
    assert_eq!(
        app.create_output(100, 4),
        Request::Bind {
            registry: 2,
            name: 100,
            id: 8,
            interface: Interface::WlOutput,
            version: 4
        }
    );
    app.create_output(101, 4);
    app.name(9, "HDMI-A-1");
    app.name(8, "eDP-1");
    app.description(9, "A monitor that is no eDP-1");
    app.description(77, "nothing");
    assert!(app.done(77).is_none());
    let first = app.done(8).unwrap();
    assert_eq!((first.registry_name, first.name.as_str()), (100, "eDP-1"));
    assert_eq!(first.regions, vec![0, 1]);
    assert!(app.done(8).is_none());
    let second = app.done(9).unwrap();
    assert_eq!((second.registry_name, second.name.as_str()), (101, "HDMI-A-1"));
    assert_eq!(second.regions, vec![0, 1, 2]);
    assert!(app.done(9).is_none());
    assert!(app.pending_outputs.is_empty());
}

#[test]
fn an_output_with_a_region_is_passed_over() {
    let mut app = running("covered");
    assert_eq!(app.waygaps[0].wl_output, 8);
    app.pending_outputs.push(waygaps::app::PendingOutput {
        registry_name: 1,
        id: 8,
        name: String::new(),
        description: String::new(),
    });
    assert!(app.done(8).is_none());
    assert_eq!(app.pending_outputs.len(), 1);
}

#[test]
fn a_region_is_opened() {
    let mut app = app("open", false);
    assert_eq!(app.open_gap(), (8, Request::CreateSurface { compositor: 4, id: 8 }));
    let (layer_surface, requests) = app.place_gap(1, 8, 30);
    assert_eq!(layer_surface, 9);
    assert_eq!(
        requests,
        vec![
            Request::GetLayerSurface {
                layer_shell: 6,
                id: 9,
                surface: 8,
                output: 30,
                layer: WlrLayer::Overlay,
                namespace: "waygaps",
            },
            Request::SetMargin { layer_surface: 9, top: 0, right: 0, bottom: 0, left: 0 },
            Request::SetLayer { layer_surface: 9, layer: WlrLayer::Top },
            Request::SetAnchor {
                layer_surface: 9,
                anchor: WlrAnchor { top: true, bottom: false, left: false, right: true },
            },
            Request::SetSize { layer_surface: 9, width: 50, height: 50 },
            Request::Commit { surface: 8 },
        ]
    );
    app.add_gap(1, 100, 8, 9, 30, 5);
    assert_eq!(app.waygaps.len(), 1);
    assert_eq!(app.waygaps[0].commands.len(), 13);
    assert_eq!(app.waygaps[0].activation_force, 20);
    assert_eq!(app.waygaps[0].shm, 5);
    assert!(!app.waygaps[0].configured);
}

#[test]
fn a_new_size_is_drawn_once() {
    let mut app = running("size");
    assert_eq!(
        app.ack_configure(10, 3),
        Request::AckConfigure { layer_surface: 10, serial: 3 }
    );
    assert!(app.can_take_size(10, 50, 40));
    let redraw = app.configure(10, 50, 40).unwrap();
    assert_eq!((redraw.gap, redraw.truncate, redraw.preview), (0, Some(8000), false));
    assert_eq!(
        redraw.requests,
        vec![
            Request::CreatePool { shm: 5, id: 14, size: 32000 },
            Request::CreateBuffer {
                pool: 14,
                id: 15,
                offset: 0,
                width: 50,
                height: 40,
                stride: 200,
                format: ShmFormat::Argb8888,
            },
            Request::DestroyPool { pool: 14 },
            Request::SetBufferScale { surface: 9, scale: 1 },
            Request::Attach { surface: 9, buffer: 15, x: 0, y: 0 },
            Request::DamageBuffer { surface: 9, x: 0, y: 0, width: 50, height: 40 },
            Request::Commit { surface: 9 },
        ]
    );
    assert!(app.waygaps[0].configured);
    app.waygaps[0].redraw = true;
    app.frame_sent(0);
    assert!(!app.waygaps[0].redraw);
    assert!(!app.has_to_draw(10, 50, 40));
    assert!(app.has_to_draw(10, 50, 41));
    assert!(!app.has_to_draw(99, 50, 41));
    assert_eq!((app.waygaps[0].width, app.waygaps[0].height), (50, 40));
    assert!(app.configure(10, 50, 40).is_none());
    assert!(app.configure(99, 50, 41).is_none());

    app.delete_id(14);
    let smaller = app.configure(10, 10, 40).unwrap();
    assert_eq!(smaller.truncate, None);
    assert_eq!(smaller.requests[0], Request::CreatePool { shm: 5, id: 14, size: 32000 });
    assert_eq!(app.waygaps[0].bufsize, 8000);
    assert_eq!(app.release(15), Request::DestroyBuffer { buffer: 15 });
}

#[test]
fn drawing_leaves_the_mark_until_all_is_sent() {
    let mut app = running("mark");
    app.waygaps[0].redraw = true;
    assert!(app.configure(10, 50, 40).is_some());
    assert!(app.waygaps[0].redraw);
    app.frame_sent(0);
    assert!(!app.waygaps[0].redraw);
}

#[test]
fn an_output_gets_its_regions_in_order() {
    let mut app = running("inorder");
    app.create_output(101, 4);
    app.name(14, "HDMI-A-1");
    let ready = app.done(14).unwrap();
    assert_eq!(ready.regions, vec![0, 2]);
    for region in ready.regions {
        let (surface, _) = app.open_gap();
        let (layer_surface, _) = app.place_gap(region, surface, 14);
        app.add_gap(region, ready.registry_name, surface, layer_surface, 14, 5);
    }
    let all: Vec<(u32, u32, u32, u32)> = app
        .waygaps
        .iter()
        .map(|gap| (gap.registry_name, gap.wl_output, gap.wl_surface, gap.layer_surface))
        .collect();
    assert_eq!(all, vec![(100, 8, 9, 10), (101, 14, 15, 16), (101, 14, 17, 18)]);
    assert!(app.done(14).is_none());
    assert_eq!(app.waygaps.len(), 3);
}

#[test]
fn the_asked_size_is_drawn_the_first_time() {
    let mut app = running("asked");
    assert_eq!((app.waygaps[0].width, app.waygaps[0].height), (50, 50));
    assert!(app.configure(10, 50, 50).is_some());
    assert!(app.configure(10, 50, 50).is_none());
}

#[test]
fn sizes_that_cannot_be_drawn() {
    let mut app = running("toolarge");
    assert!(!app.can_take_size(10, 65536, 65536));
    assert!(!app.can_take_size(10, 32768, 32768));
    assert!(!app.can_take_size(10, u32::MAX, u32::MAX));
    assert!(app.can_take_size(10, 0, 40));
    assert!(app.can_take_size(99, u32::MAX, u32::MAX));
    app.preview = true;
    assert!(!app.can_take_size(10, 0, 40));
    assert!(!app.can_take_size(10, 40, 0));
    assert!(app.can_take_size(10, 40, 1));
    assert!(app.configure(10, 40, 1).unwrap().preview);
}

#[test]
fn seats_come_and_go() {
    let mut app = app("seats", false);
    assert_eq!(
        app.global(200, "wl_seat", 7),
        Some(Request::Bind { registry: 2, name: 200, id: 8, interface: Interface::WlSeat, version: 7 })
    );
    assert_eq!(app.global(201, "wl_output", 4), None);
    assert_eq!(app.global(202, "wl_seat2", 4), None);
    assert_eq!(app.seats.len(), 1);
    assert!(app.gets_pointer(8, 3));
    assert!(!app.gets_pointer(8, 2));
    assert!(!app.gets_pointer(99, 1));
    assert_eq!(
        app.capabilities(8, 3),
        vec![
            Request::GetPointer { seat: 8, id: 9 },
            Request::GetRelativePointer { manager: 7, id: 10, pointer: 9 },
        ]
    );
    assert!(!app.gets_pointer(8, 1));
    assert_eq!(app.capabilities(8, 1), vec![]);
    assert_eq!(app.capabilities(99, 1), vec![]);
    assert_eq!(get_pointer(&app.seats, 9), Some(0));
    assert_eq!(get_pointer(&app.seats, 10), None);
    assert_eq!(get_relative_pointer(&app.seats, 10), Some(0));
    assert_eq!(get_relative_pointer(&app.seats, 9), None);
    assert_eq!(
        app.capabilities(8, 2),
        vec![
            Request::DestroyRelativePointer { relative_pointer: 10 },
            Request::ReleasePointer { pointer: 9 },
        ]
    );
    assert!(app.seats[0].pointer.is_none());
    assert_eq!(app.capabilities(8, 0), vec![]);
    app.global_remove(200);
    assert!(app.seats.is_empty());
}

#[test]
fn a_pointer_without_relative_movements_is_given_back() {
    let mut app = running("plain");
    let mut pointer = app.seats[0].pointer.unwrap();
    pointer.relative_pointer_id = None;
    app.seats[0].pointer = Some(pointer);
    assert_eq!(app.capabilities(11, 0), vec![Request::ReleasePointer { pointer: 12 }]);
}

#[test]
fn globals_go() {
    let mut app = running("gone");
    app.add_gap(0, 100, 30, 31, 8, 1);
    app.add_gap(2, 101, 32, 33, 9, 2);
    app.global_remove(999);
    assert_eq!((app.waygaps.len(), app.seats.len()), (3, 1));
    app.global_remove(100);
    let left: Vec<u32> = app.waygaps.iter().map(|gap| gap.wl_surface).collect();
    assert_eq!(left, vec![32, 30]);
    app.global_remove(200);
    assert_eq!((app.waygaps.len(), app.seats.len()), (2, 0));
}

#[test]
fn entering_and_leaving() {
    let mut app = running("enter");
    assert_eq!(app.leave(12), None);
    assert_eq!(app.enter(12, 5, 999), None);
    assert_eq!(app.enter(999, 5, 9), None);
    assert_eq!(app.seats[0].pointer.unwrap().current_waygap, None);
    assert_eq!(app.enter(12, 5, 9), Some("notify-send enter".to_string()));
    let pointer = app.seats[0].pointer.unwrap();
    assert_eq!((pointer.current_waygap, pointer.enter_serial), (Some(0), 5));
    assert_eq!(app.leave(12), Some("notify-send leave".to_string()));
    assert_eq!(app.leave(12), None);
    assert_eq!(app.leave(999), None);
}

#[test]
fn nothing_runs_outside() {
    let mut app = running("outside");
    app.enter(12, 5, 9);
    app.leave(12);
    app.button(12, 272, ButtonState::Pressed);
    app.axis(12, WlAxis::VerticalScroll, 100 * PX);
    app.relative_motion(13, 0, 1_000_000, 500 * PX, -500 * PX);
    assert_eq!(app.frame(12), Vec::<String>::new());
    let pointer = app.seats[0].pointer.unwrap();
    assert_eq!((pointer.scroll, pointer.pressure_x, pointer.last_time), (0, 0, 0));
}

#[test]
fn clicks_run_their_commands() {
    let mut app = running("click");
    app.enter(12, 5, 9);
    app.button(12, 272, ButtonState::Pressed);
    assert_eq!(app.frame(12), vec!["notify-send 'left click'", "notify-send again"]);
    assert_eq!(app.frame(12), Vec::<String>::new());
    app.button(12, 275, ButtonState::Pressed);
    assert_eq!(app.frame(12), vec!["notify-send 'back button'"]);
    app.button(12, 273, ButtonState::Pressed);
    app.button(12, 273, ButtonState::Released);
    assert_eq!(app.frame(12), Vec::<String>::new());
    app.button(12, 0x1_0000 + 274, ButtonState::Pressed);
    assert_eq!(app.frame(12), vec!["notify-send 'middle click'"]);
    app.button(999, 272, ButtonState::Pressed);
    assert_eq!(app.frame(12), Vec::<String>::new());
    assert_eq!(app.frame(999), Vec::<String>::new());
}

#[test]
fn scrolling_runs_step_by_step() {
    let mut app = running("scroll");
    app.enter(12, 5, 9);
    app.axis(12, WlAxis::VerticalScroll, 15 * PX - 1);
    assert_eq!(app.frame(12), Vec::<String>::new());
    app.axis(12, WlAxis::VerticalScroll, 1);
    assert_eq!(app.frame(12), vec!["notify-send down"]);
    assert_eq!(app.frame(12), Vec::<String>::new());
    app.axis(12, WlAxis::VerticalScroll, -30 * PX);
    assert_eq!(app.frame(12), vec!["notify-send up"]);
    assert_eq!(app.frame(12), vec!["notify-send up"]);
    assert_eq!(app.frame(12), Vec::<String>::new());
    app.axis(12, WlAxis::HorizontalScroll, 15 * PX);
    assert_eq!(app.frame(12), vec!["notify-send right"]);
    app.axis(12, WlAxis::HorizontalScroll, -15 * PX);
    assert_eq!(app.frame(12), vec!["notify-send left"]);
    app.axis(12, WlAxis::HorizontalScroll, 20 * PX);
    app.axis(12, WlAxis::HorizontalScroll, -20 * PX);
    assert_eq!(app.frame(12), Vec::<String>::new());
    assert_eq!(app.seats[0].pointer.unwrap().scroll, 0);
}

#[test]
fn pushing_runs_the_edge_command() {
    let mut app = running("push");
    app.enter(12, 5, 9);
    app.relative_motion(13, 0, 1_000_000, 20 * PX, 0);
    assert_eq!(app.frame(12), Vec::<String>::new());
    app.relative_motion(13, 0, 1_000_100, 1, 0);
    assert_eq!(app.frame(12), vec!["notify-send edge"]);
    assert_eq!(app.frame(12), Vec::<String>::new());
    app.relative_motion(13, 0, 1_100_000, 0, -100 * PX);
    assert_eq!(app.frame(12), Vec::<String>::new());
    assert!(app.is_motion_in_time(13, 1, 0, 0, -100 * PX));
    assert!(!app.is_motion_in_time(13, 0, 1_000_099, 0, -100 * PX));
    assert!(app.is_motion_in_time(999, 0, 0, 0, -100 * PX));
    app.relative_motion(13, 1, 0, 0, -100 * PX);
    assert_eq!(app.seats[0].pointer.unwrap().last_time, 1 << 32);
    assert_eq!(app.frame(12), vec!["notify-send edge"]);
}

#[test]
fn all_at_once_runs_in_order() {
    let mut app = running("order");
    app.enter(12, 5, 9);
    app.relative_motion(13, 0, 1_000_000, 0, -21 * PX);
    app.axis(12, WlAxis::VerticalScroll, 15 * PX);
    app.button(12, 273, ButtonState::Pressed);
    assert_eq!(
        app.frame(12),
        vec!["notify-send 'right click'", "notify-send down", "notify-send edge"]
    );
}

#[test]
fn a_region_without_commands_runs_none() {
    let mut app = running("quiet");
    app.add_gap(0, 100, 30, 31, 8, 1);
    assert_eq!(app.enter(12, 5, 30), None);
    app.button(12, 272, ButtonState::Pressed);
    app.axis(12, WlAxis::VerticalScroll, 15 * PX);
    app.relative_motion(13, 0, 1_000_000, -26 * PX, 0);
    assert!(app.seats[0].pointer.unwrap().should_trigger_edge);
    assert_eq!(app.frame(12), Vec::<String>::new());
    assert!(!app.seats[0].pointer.unwrap().should_trigger_edge);
    assert_eq!(app.leave(12), None);
}

#[test]
fn an_error_ends_the_program() {
    let mut app = app("error", false);
    assert!(!app.should_exit());
    app.error();
    assert!(app.should_exit());
    app.global_remove(1);
    assert!(app.should_exit());
}

#[test]
fn a_signal_ends_the_program() {
    let mut app = app("signal", false);
    app.set_exit();
    assert!(app.should_exit());
}
