use waygaps::config::{
    default_activation_force, default_anchor, default_ignore_exclusive_zone, default_layer,
    default_margin, default_preview_color, default_size, parse_button_id, Anchor, BTreeConfig,
    ButtonIdError, Color, GapConfig, InputEvent, Layer, ScrollDir,
};
use waygaps::protocol::WlrLayer;
use waygaps::seat::Axis;
use waygaps::text::{has_text, is_before, same_text};

#[test]
fn named_keys() {
    let cases = [
        ("enter", InputEvent::Enter),
        ("leave", InputEvent::Leave),
        ("edge", InputEvent::Edge),
        ("scroll-up", InputEvent::Scroll(ScrollDir::Up)),
        ("scroll-down", InputEvent::Scroll(ScrollDir::Down)),
        ("scroll-left", InputEvent::Scroll(ScrollDir::Left)),
        ("scroll-right", InputEvent::Scroll(ScrollDir::Right)),
        ("mouse-left", InputEvent::Button(272)),
        ("mouse-right", InputEvent::Button(273)),
        ("mouse-middle", InputEvent::Button(274)),
    ];
    for (key, event) in cases {
        assert_eq!(InputEvent::from_key(key), Ok(event));
        let boxed: Box<str> = key.into();
        assert_eq!(InputEvent::try_from(boxed), Ok(event));
    }
}

#[test]
fn numbered_buttons() {
    assert_eq!(InputEvent::from_key("mouse-275"), Ok(InputEvent::Button(275)));
    assert_eq!(InputEvent::from_key("mouse-0"), Ok(InputEvent::Button(0)));
    assert_eq!(InputEvent::from_key("mouse-+7"), Ok(InputEvent::Button(7)));
    assert_eq!(InputEvent::from_key("mouse-00272"), Ok(InputEvent::Button(272)));
    assert_eq!(InputEvent::from_key("mouse-65535"), Ok(InputEvent::Button(65535)));
}

#[test]
fn every_button_has_a_key() {
    for id in 0..=u16::MAX {
        let key = format!("mouse-{id}");
        assert_eq!(InputEvent::from_key(&key), Ok(InputEvent::Button(id)));
    }
}

#[test]
fn wrong_button_ids() {
    assert_eq!(
        InputEvent::from_key("mouse-65536"),
        Err("invalid mouse button id: 'mouse-65536' in command '65536': number too large to fit in target type".to_string())
    );
    assert_eq!(
        InputEvent::from_key("mouse-"),
        Err("invalid mouse button id: 'mouse-' in command '': cannot parse integer from empty string".to_string())
    );
    assert_eq!(
        InputEvent::from_key("mouse-back"),
        Err("invalid mouse button id: 'mouse-back' in command 'back': invalid digit found in string".to_string())
    );
}

#[test]
fn unknown_keys() {
    let tail = "`, expected one of `enter`, `leave`, `edge`, `scroll-up`, `scroll-down`, `scroll-left`, `scroll-right`, `mouse-left`, `mouse-right`, or `mouse-middle`";
    for key in ["", "Enter", "enter ", "scroll", "mouse", "mous-1", "\u{e9}dge"] {
        assert_eq!(InputEvent::from_key(key), Err(format!("unknown input event: `{key}{tail}")));
    }
}

#[test]
fn button_ids_read_like_numbers() {
    let texts = [
        "", "+", "-", "0", "7", "007", "+12", "++1", "-1", "65535", "65536", "65540", "99999",
        "655350", "123456789012", "1a", "a1", "70000a", "6553a", " 1", "1 ", "\u{663}", "12\u{e9}",
    ];
    for text in texts {
        match (parse_button_id(text), text.parse::<u16>()) {
            (Ok(a), Ok(b)) => assert_eq!(a, b),
            (Err(a), Err(b)) => assert_eq!(a.message(), b.to_string()),
            (a, b) => panic!("{text}: {a:?} {b:?}"),
        }
    }
    assert_eq!(parse_button_id(""), Err(ButtonIdError::Empty));
    assert_eq!(parse_button_id("+"), Err(ButtonIdError::InvalidDigit));
    assert_eq!(parse_button_id("65536"), Err(ButtonIdError::PosOverflow));
    assert_eq!(parse_button_id("65536x"), Err(ButtonIdError::PosOverflow));
}

#[test]
fn scroll_directions() {
    assert!(ScrollDir::Left.on_axis(Axis::Horizontal));
    assert!(ScrollDir::Right.on_axis(Axis::Horizontal));
    assert!(ScrollDir::Up.on_axis(Axis::Vertical));
    assert!(ScrollDir::Down.on_axis(Axis::Vertical));
    assert!(!ScrollDir::Left.on_axis(Axis::Vertical));
    assert!(!ScrollDir::Right.on_axis(Axis::Vertical));
    assert!(!ScrollDir::Up.on_axis(Axis::Horizontal));
    assert!(!ScrollDir::Down.on_axis(Axis::Horizontal));
    assert!(!ScrollDir::Left.is_positive());
    assert!(ScrollDir::Right.is_positive());
    assert!(!ScrollDir::Up.is_positive());
    assert!(ScrollDir::Down.is_positive());
}

#[test]
fn layers_have_names() {
    let cases = [
        (Layer::Background, WlrLayer::Background, "background"),
        (Layer::Bottom, WlrLayer::Bottom, "bottom"),
        (Layer::Top, WlrLayer::Top, "top"),
        (Layer::Overlay, WlrLayer::Overlay, "overlay"),
    ];
    for (layer, wlr, name) in cases {
        assert_eq!(layer.name(), name);
        assert_eq!(WlrLayer::from(layer), wlr);
        assert_eq!(wlr.name(), name);
    }
}

#[test]
fn anchors_have_names() {
    assert_eq!(Anchor::TopLeft.name(), "top-left");
    assert_eq!(Anchor::TopRight.name(), "top-right");
    assert_eq!(Anchor::BottomRight.name(), "bottom-right");
    assert_eq!(Anchor::BottomLeft.name(), "bottom-left");
    assert_eq!(Anchor::Left.name(), "left");
    assert_eq!(Anchor::Right.name(), "right");
    assert_eq!(Anchor::Top.name(), "top");
    assert_eq!(Anchor::Bottom.name(), "bottom");
}

#[test]
fn names_read_back() {
    for anchor in [
        Anchor::TopLeft,
        Anchor::TopRight,
        Anchor::BottomRight,
        Anchor::BottomLeft,
        Anchor::Left,
        Anchor::Right,
        Anchor::Top,
        Anchor::Bottom,
    ] {
        assert_eq!(Anchor::of_name(anchor.name()), Some(anchor));
    }
    for layer in [Layer::Background, Layer::Bottom, Layer::Top, Layer::Overlay] {
        assert_eq!(Layer::of_name(layer.name()), Some(layer));
    }
    assert_eq!(Anchor::of_name("TopLeft"), None);
    assert_eq!(Anchor::of_name(""), None);
    assert_eq!(Layer::of_name("Top"), None);
}

#[test]
fn defaults() {
    let gap = GapConfig::default();
    assert_eq!(gap.output, None);
    assert_eq!(gap.anchor, Anchor::TopLeft);
    assert_eq!(gap.size, 10);
    assert_eq!(gap.start_margin, 0);
    assert_eq!(gap.end_margin, 0);
    assert_eq!(gap.activation_force, 25);
    assert!(gap.ignore_exclusive_zone);
    assert_eq!(gap.layer, Layer::Overlay);
    assert_eq!(gap.preview_color, Color { a: 25, r: 128, g: 16, b: 16 });
    assert!(gap.commands.is_empty());

    assert_eq!(default_anchor(), gap.anchor);
    assert_eq!(default_size(), gap.size);
    assert_eq!(default_margin(), gap.start_margin);
    assert_eq!(default_activation_force(), gap.activation_force);
    assert_eq!(default_ignore_exclusive_zone(), gap.ignore_exclusive_zone);
    assert_eq!(default_layer(), gap.layer);
    assert_eq!(default_preview_color(), gap.preview_color);
}

#[test]
fn colors_are_pixels() {
    assert_eq!(Color::new(25, 128, 16, 16).as_u32(), 0x1980_1010);
    assert_eq!(Color::new(255, 255, 255, 255).as_u32(), 0xffff_ffff);
    assert_eq!(Color::new(0, 0, 0, 1).as_u32(), 1);
    assert_ne!(Color::new(1, 2, 3, 4).as_u32(), Color::new(1, 2, 4, 3).as_u32());
}

fn sized(size: u32) -> GapConfig {
    GapConfig { size, ..GapConfig::default() }
}

fn listed(entries: &[(&str, u32)]) -> Vec<(String, u32)> {
    let mut config = BTreeConfig::new();
    for (name, size) in entries {
        config.insert(name.to_string(), sized(*size));
    }
    config.into_config().0.into_iter().map(|(name, gap)| (name, gap.size)).collect()
}

#[test]
fn regions_come_in_the_order_of_their_names() {
    let want = vec![
        ("".to_string(), 5),
        ("Z".to_string(), 4),
        ("a".to_string(), 3),
        ("ab".to_string(), 2),
        ("b".to_string(), 1),
    ];
    assert_eq!(listed(&[("b", 1), ("ab", 2), ("a", 3), ("Z", 4), ("", 5)]), want);
    assert_eq!(listed(&[("", 5), ("a", 3), ("Z", 4), ("b", 1), ("ab", 2)]), want);
}

#[test]
fn a_name_is_taken_over() {
    assert_eq!(listed(&[("b", 1), ("a", 2), ("b", 3)]), vec![("a".to_string(), 2), ("b".to_string(), 3)]);
    assert_eq!(listed(&[]), Vec::<(String, u32)>::new());
}

#[test]
fn regions_are_sorted_like_a_tree_map() {
    let names = ["hot-corner-2", "hot-corner-10", "\u{e4}", "z", "a b", "a", "\u{1f600}", "hot"];
    let mut tree = std::collections::BTreeMap::new();
    let mut config = BTreeConfig::new();
    for (i, name) in names.iter().enumerate() {
        tree.insert(name.to_string(), i as u32);
        config.insert(name.to_string(), sized(i as u32));
    }
    let ours: Vec<(String, u32)> =
        config.into_config().0.into_iter().map(|(name, gap)| (name, gap.size)).collect();
    let theirs: Vec<(String, u32)> = tree.into_iter().collect();
    assert_eq!(ours, theirs);
}

#[test]
fn text_compares_like_strings() {
    let texts = ["", "a", "b", "ab", "aba", "ba", "\u{e9}", "\u{1f600}", "a\u{e9}", "Z"];
    for a in texts {
        for b in texts {
            assert_eq!(is_before(a, b), a < b);
            assert_eq!(same_text(a, b), a == b);
            assert_eq!(has_text(a, b), a.contains(b));
        }
    }
}
