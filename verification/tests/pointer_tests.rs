use waygaps::config::Anchor;
use waygaps::protocol::{WlAxis, WlAxisSource};
use waygaps::seat::{Axis, AxisSource, Pointer, Seat};

const PX: i32 = 256;

#[test]
fn axes_and_sources() {
    assert_eq!(Axis::from(WlAxis::VerticalScroll), Axis::Vertical);
    assert_eq!(Axis::from(WlAxis::HorizontalScroll), Axis::Horizontal);
    assert_eq!(AxisSource::from(WlAxisSource::Wheel), AxisSource::Wheel);
    assert_eq!(AxisSource::from(WlAxisSource::Finger), AxisSource::Finger);
    assert_eq!(AxisSource::from(WlAxisSource::Continuous), AxisSource::Continuous);
    assert_eq!(AxisSource::from(WlAxisSource::WheelTilt), AxisSource::WheelTilt);
}

#[test]
fn new_pointers_and_seats() {
    let pointer = Pointer::new(7);
    assert_eq!(pointer.id, 7);
    assert_eq!(pointer.relative_pointer_id, None);
    assert_eq!((pointer.pressure_x, pointer.pressure_y), (0, 0));
    assert_eq!((pointer.last_time, pointer.last_trigger_time), (0, 0));
    assert!(!pointer.should_trigger_edge);
    assert_eq!((pointer.button, pointer.enter_serial), (0, 0));
    assert_eq!((pointer.scroll, pointer.scroll120), (0, 0));
    assert_eq!(pointer.axis, Axis::Vertical);
    assert_eq!(pointer.source, AxisSource::Unknown);
    assert_eq!(pointer.current_waygap, None);
    let seat = Seat::new(3, 9);
    assert_eq!((seat.registry_name, seat.id), (3, 9));
    assert!(seat.pointer.is_none());
}

#[test]
fn a_hard_push_triggers() {
    let mut pointer = Pointer::new(1);
    pointer.relative_motion(Anchor::Left, 25, 1_000_000, -25 * PX - 1, 0);
    assert!(pointer.should_trigger_edge);
    assert_eq!(pointer.last_trigger_time, 1_000_000);
    assert_eq!((pointer.pressure_x, pointer.pressure_y), (0, 0));
    assert_eq!(pointer.last_time, 1_000_000);
}

#[test]
fn a_push_as_hard_as_the_force_does_not_trigger() {
    let mut pointer = Pointer::new(1);
    pointer.relative_motion(Anchor::Left, 25, 1_000_000, -25 * PX, 0);
    assert!(!pointer.should_trigger_edge);
    assert_eq!(pointer.pressure_x, 25 * 256);
    pointer.relative_motion(Anchor::Left, 25, 1_000_400, -1, 0);
    assert!(pointer.should_trigger_edge);
}

#[test]
fn pressure_is_gone_after_a_pause() {
    let mut pointer = Pointer::new(1);
    pointer.relative_motion(Anchor::Left, 25, 1_000_000, -25 * PX, 0);
    pointer.relative_motion(Anchor::Left, 25, 1_000_401, -1, 0);
    assert!(!pointer.should_trigger_edge);
    assert_eq!(pointer.pressure_x, 1);
}

#[test]
fn pressure_is_gone_after_more_than_a_pixel_back() {
    let mut pointer = Pointer::new(1);
    pointer.relative_motion(Anchor::Top, 25, 1_000_000, 0, -10 * PX);
    pointer.relative_motion(Anchor::Top, 25, 1_000_010, 0, PX);
    assert_eq!(pointer.pressure_y, 10 * 256);
    pointer.relative_motion(Anchor::Top, 25, 1_000_020, 0, PX + 1);
    assert_eq!(pointer.pressure_y, 0);
}

#[test]
fn movements_along_an_edge_press_nothing() {
    let mut pointer = Pointer::new(1);
    pointer.relative_motion(Anchor::Top, 1, 1_000_000, -1000 * PX, 0);
    pointer.relative_motion(Anchor::Bottom, 1, 1_000_001, 1000 * PX, 0);
    pointer.relative_motion(Anchor::Left, 1, 1_000_002, 0, 1000 * PX);
    pointer.relative_motion(Anchor::Right, 1, 1_000_003, 0, -1000 * PX);
    assert_eq!((pointer.pressure_x, pointer.pressure_y), (0, 0));
    assert!(!pointer.should_trigger_edge);
}

#[test]
fn an_edge_rests_after_it_was_triggered() {
    let mut pointer = Pointer::new(1);
    pointer.relative_motion(Anchor::BottomRight, 5, 300_000, 6 * PX, 0);
    assert!(pointer.should_trigger_edge);
    pointer.should_trigger_edge = false;
    pointer.relative_motion(Anchor::BottomRight, 5, 550_000, 6 * PX, 6 * PX);
    assert!(!pointer.should_trigger_edge);
    assert_eq!((pointer.pressure_x, pointer.pressure_y), (0, 0));
    pointer.relative_motion(Anchor::BottomRight, 5, 550_001, 0, 6 * PX);
    assert!(pointer.should_trigger_edge);
    assert_eq!(pointer.last_trigger_time, 550_001);
}

#[test]
fn time_before_the_last_trigger_is_told() {
    let mut pointer = Pointer::new(1);
    pointer.relative_motion(Anchor::Left, 5, 900_000, -6 * PX, 0);
    assert!(pointer.is_in_time(Anchor::Left, 5, 900_000, -6 * PX, 0));
    assert!(!pointer.is_in_time(Anchor::Left, 5, 899_999, -6 * PX, 0));
    assert!(pointer.is_in_time(Anchor::Left, 5, 899_999, -PX, 0));
}

#[test]
fn a_huge_movement_keeps_in_range() {
    let mut pointer = Pointer::new(1);
    pointer.relative_motion(Anchor::Left, u32::MAX, 1, i32::MIN, 0);
    assert_eq!(pointer.pressure_x, 1 << 31);
    pointer.pressure_x = u64::MAX;
    pointer.relative_motion(Anchor::Left, u32::MAX, 2, i32::MIN, 0);
    assert!(!pointer.should_trigger_edge);
    assert_eq!(pointer.pressure_x, 0);
}

fn next(seed: &mut u64) -> u64 {
    *seed ^= *seed << 13;
    *seed ^= *seed >> 7;
    *seed ^= *seed << 17;
    *seed
}

#[test]
fn pressure_agrees_with_floating_point() {
    let anchors = [
        Anchor::TopLeft,
        Anchor::TopRight,
        Anchor::BottomRight,
        Anchor::BottomLeft,
        Anchor::Left,
        Anchor::Right,
        Anchor::Top,
        Anchor::Bottom,
    ];
    let mut seed: u64 = 88172645463325252;
    for anchor in anchors {
        let force = 5u32;
        let mut pointer = Pointer::new(1);
        let (mut x, mut y) = (0.0f64, 0.0f64);
        let (mut last_time, mut last_trigger, mut trigger) = (0u64, 0u64, false);
        let mut time = 1_000_000u64;
        for _ in 0..5000 {
            time += next(&mut seed) % 500;
            let raw_x = (next(&mut seed) % 3000) as i32 - 1500;
            let raw_y = (next(&mut seed) % 3000) as i32 - 1500;
            pointer.relative_motion(anchor, force, time, raw_x, raw_y);

            if time.saturating_sub(last_time) > 400 {
                x = 0.0;
                y = 0.0;
            }
            let dx = raw_x as f64 / 256.0;
            let dy = raw_y as f64 / 256.0;
            let left = matches!(anchor, Anchor::Left | Anchor::TopLeft | Anchor::BottomLeft);
            let right = matches!(anchor, Anchor::Right | Anchor::TopRight | Anchor::BottomRight);
            let top = matches!(anchor, Anchor::Top | Anchor::TopLeft | Anchor::TopRight);
            let bottom =
                matches!(anchor, Anchor::Bottom | Anchor::BottomLeft | Anchor::BottomRight);
            if left && dx < 0.0 || right && dx > 0.0 {
                x += dx.abs();
            } else if left && dx > 1.0 || right && dx < -1.0 {
                x = 0.0;
            }
            if top && dy < 0.0 || bottom && dy > 0.0 {
                y += dy.abs();
            } else if top && dy > 1.0 || bottom && dy < -1.0 {
                y = 0.0;
            }
            if x > force as f64 || y > force as f64 {
                if time - last_trigger > 250000 {
                    trigger = true;
                    last_trigger = time;
                }
                x = 0.0;
                y = 0.0;
            }
            last_time = time;

            assert_eq!(pointer.pressure_x as f64 / 256.0, x);
            assert_eq!(pointer.pressure_y as f64 / 256.0, y);
            assert_eq!(pointer.should_trigger_edge, trigger);
            assert_eq!(pointer.last_trigger_time, last_trigger);
            assert_eq!(pointer.last_time, last_time);
        }
        assert!(trigger);
    }
}
