//! What the user configures: the regions, where they lie, and what they trigger.

use vstd::prelude::*;

use crate::decimal::{
    decimal, digit_prefix, digit_prefix_is_longest, is_digit, leading_digits, lemma_decimal, lemma_leading_digits,
    lemma_value_grows, value,
};
use crate::seat::Axis;
use crate::text::{
    before, before_is_asymmetric, before_is_irreflexive, before_is_total, before_is_transitive,
    chars_of, is_before, same_text,
};

verus! {

/// Something that a pointer does in a region, which can trigger a command.
#[derive(Clone, Copy, Debug, PartialEq, Eq, Structural)]
pub enum InputEvent {
    Enter,
    Leave,
    Edge,
    // This can be a u16 instead of a u32 because button codes
    // above 0xFFFF are currently undefined (but may be used in future
    // versions of the wl_pointer protocol)
    Button(u16),
    Scroll(ScrollDir),
}

/// Why the number of a mouse button could not be read.
#[derive(Clone, Copy, Debug, PartialEq, Eq, Structural)]
pub enum ButtonIdError {
    Empty,
    InvalidDigit,
    PosOverflow,
}

impl ButtonIdError {
    /// The error in words.
    pub open spec fn spec_message(self) -> Seq<char> {
        match self {
            ButtonIdError::Empty => "cannot parse integer from empty string"@,
            ButtonIdError::InvalidDigit => "invalid digit found in string"@,
            ButtonIdError::PosOverflow => "number too large to fit in target type"@,
        }
    }

    /// The error in words.
    pub fn message(self) -> (r: &'static str)
        ensures
            r@ == self.spec_message(),
    {
        match self {
            ButtonIdError::Empty => "cannot parse integer from empty string",
            ButtonIdError::InvalidDigit => "invalid digit found in string",
            ButtonIdError::PosOverflow => "number too large to fit in target type",
        }
    }
}

/// The number of a mouse button: digits, after at most one plus sign, for a number of 16 bits.
///
/// Where the text goes wrong in two ways, what comes first in it decides on the error.
pub open spec fn button_id(num: Seq<char>) -> Result<u16, ButtonIdError> {
    let digits = if num.len() > 0 && num[0] == '+' {
        num.drop_first()
    } else {
        num
    };
    if num.len() == 0 {
        Err(ButtonIdError::Empty)
    } else if digits.len() == 0 {
        Err(ButtonIdError::InvalidDigit)
    } else if value(digit_prefix(digits)) > u16::MAX {
        Err(ButtonIdError::PosOverflow)
    } else if leading_digits(digits) < digits.len() {
        Err(ButtonIdError::InvalidDigit)
    } else {
        Ok(value(digits) as u16)
    }
}

/// Reads the number of a mouse button.
pub fn parse_button_id(num: &str) -> (r: Result<u16, ButtonIdError>)
    ensures
        r == button_id(num@),
{
    let chars = chars_of(num);
    if chars.len() == 0 {
        return Err(ButtonIdError::Empty);
    }
    let start: usize = if chars[0] == '+' {
        1
    } else {
        0
    };
    if chars.len() == start {
        return Err(ButtonIdError::InvalidDigit);
    }
    let ghost digits = num@.skip(start as int);
    proof {
        if start == 1 {
            assert(digits =~= num@.drop_first());
        } else {
            assert(digits =~= num@);
        }
    }
    let mut id: u16 = 0;
    let mut i: usize = start;
    while i < chars.len()
        invariant
            chars@ == num@,
            start <= i <= chars.len(),
            digits == chars@.skip(start as int),
            digits.len() == chars.len() - start,
            digits.len() > 0,
            digits == (if num@[0] == '+' {
                num@.drop_first()
            } else {
                num@
            }),
            num@.len() > 0,
            id == value(digits.take(i - start)),
            forall|j: int| 0 <= j < i - start ==> is_digit(#[trigger] digits[j]),
        decreases chars.len() - i,
    {
        let c: char = chars[i];
        let ghost n = (i - start) as nat;
        assert(digits[n as int] == c);
        if c < '0' || c > '9' {
            proof {
                lemma_leading_digits(digits, n);
            }
            return Err(ButtonIdError::InvalidDigit);
        }
        let d: u32 = c as u32 - '0' as u32;
        let next: u32 = id as u32 * 10 + d;
        proof {
            assert(digits.take(n as int + 1).drop_last() =~= digits.take(n as int));
            assert(next == value(digits.take(n as int + 1)));
        }
        if next > 0xffff {
            proof {
                lemma_leading_digits(digits, n + 1);
                lemma_value_grows(
                    digits,
                    n as int + 1,
                    leading_digits(digits) as int,
                );
            }
            return Err(ButtonIdError::PosOverflow);
        }
        id = next as u16;
        i += 1;
    }
    proof {
        lemma_leading_digits(digits, digits.len());
        assert(digits.take(digits.len() as int) =~= digits);
    }
    Ok(id)
}

/// What the keys of mouse buttons begin with.
pub open spec fn is_mouse_key(key: Seq<char>) -> bool {
    key.len() >= 6 && key.take(6) == "mouse-"@
}

/// The event that a key of the configuration stands for, or what is wrong with the key.
pub open spec fn event_of_key(key: Seq<char>) -> Result<InputEvent, Seq<char>> {
    if key == "enter"@ {
        Ok(InputEvent::Enter)
    } else if key == "leave"@ {
        Ok(InputEvent::Leave)
    } else if key == "edge"@ {
        Ok(InputEvent::Edge)
    } else if key == "scroll-up"@ {
        Ok(InputEvent::Scroll(ScrollDir::Up))
    } else if key == "scroll-down"@ {
        Ok(InputEvent::Scroll(ScrollDir::Down))
    } else if key == "scroll-left"@ {
        Ok(InputEvent::Scroll(ScrollDir::Left))
    } else if key == "scroll-right"@ {
        Ok(InputEvent::Scroll(ScrollDir::Right))
    } else if key == "mouse-left"@ {
        Ok(InputEvent::Button(272))
    } else if key == "mouse-right"@ {
        Ok(InputEvent::Button(273))
    } else if key == "mouse-middle"@ {
        Ok(InputEvent::Button(274))
    } else if is_mouse_key(key) {
        match button_id(key.skip(6)) {
            Ok(id) => Ok(InputEvent::Button(id)),
            Err(e) => Err(
                "invalid mouse button id: '"@ + key + "' in command '"@ + key.skip(6) + "': "@
                    + e.spec_message(),
            ),
        }
    } else {
        Err(
            "unknown input event: `"@ + key
                + "`, expected one of `enter`, `leave`, `edge`, `scroll-up`, `scroll-down`, `scroll-left`, `scroll-right`, `mouse-left`, `mouse-right`, or `mouse-middle`"@,
        )
    }
}

impl vstd::std_specs::convert::TryFromSpecImpl<Box<str>> for InputEvent {
    open spec fn obeys_try_from_spec() -> bool {
        false
    }

    open spec fn try_from_spec(key: Box<str>) -> Result<Self, String> {
        arbitrary()
    }
}

impl TryFrom<Box<str>> for InputEvent {
    type Error = String;

    /// Reads a key of the configuration.
    fn try_from(key: Box<str>) -> (r: Result<Self, String>)
        ensures
            reads_key(key@, r),
    {
        InputEvent::from_key(&*key)
    }
}

/// `r` is what reading the key `key` comes to: the event, or what is wrong in words.
pub open spec fn reads_key(key: Seq<char>, r: Result<InputEvent, String>) -> bool {
    match event_of_key(key) {
        Ok(event) => r == Ok::<InputEvent, String>(event),
        Err(message) => r is Err && r->Err_0@ == message,
    }
}

impl InputEvent {
    /// Reads a key of the configuration.
    pub fn from_key(key: &str) -> (r: Result<InputEvent, String>)
        ensures
            reads_key(key@, r),
    {
        if same_text(key, "enter") {
            Ok(InputEvent::Enter)
        } else if same_text(key, "leave") {
            Ok(InputEvent::Leave)
        } else if same_text(key, "edge") {
            Ok(InputEvent::Edge)
        } else if same_text(key, "scroll-up") {
            Ok(InputEvent::Scroll(ScrollDir::Up))
        } else if same_text(key, "scroll-down") {
            Ok(InputEvent::Scroll(ScrollDir::Down))
        } else if same_text(key, "scroll-left") {
            Ok(InputEvent::Scroll(ScrollDir::Left))
        } else if same_text(key, "scroll-right") {
            Ok(InputEvent::Scroll(ScrollDir::Right))
        } else if same_text(key, "mouse-left") {
            Ok(InputEvent::Button(272))
        } else if same_text(key, "mouse-right") {
            Ok(InputEvent::Button(273))
        } else if same_text(key, "mouse-middle") {
            Ok(InputEvent::Button(274))
        } else {
            let len: usize = key.unicode_len();
            if len >= 6 && same_text(key.substring_char(0, 6), "mouse-") {
                proof {
                    assert(key@.subrange(0, 6) =~= key@.take(6));
                    assert(key@.subrange(6, len as int) =~= key@.skip(6));
                }
                let num = key.substring_char(6, len);
                match parse_button_id(num) {
                    Ok(id) => Ok(InputEvent::Button(id)),
                    Err(e) => Err(
                        "invalid mouse button id: '".to_owned().concat(key).concat("' in command '").concat(
                            num,
                        ).concat("': ").concat(e.message()),
                    ),
                }
            } else {
                proof {
                    if len >= 6 {
                        assert(key@.subrange(0, 6) =~= key@.take(6));
                    }
                }
                Err(
                    "unknown input event: `".to_owned().concat(key).concat(
                        "`, expected one of `enter`, `leave`, `edge`, `scroll-up`, `scroll-down`, `scroll-left`, `scroll-right`, `mouse-left`, `mouse-right`, or `mouse-middle`",
                    ),
                )
            }
        }
    }
}

/// The key that a configuration names the event by.
pub open spec fn key_of_event(event: InputEvent) -> Seq<char> {
    match event {
        InputEvent::Enter => "enter"@,
        InputEvent::Leave => "leave"@,
        InputEvent::Edge => "edge"@,
        InputEvent::Scroll(ScrollDir::Up) => "scroll-up"@,
        InputEvent::Scroll(ScrollDir::Down) => "scroll-down"@,
        InputEvent::Scroll(ScrollDir::Left) => "scroll-left"@,
        InputEvent::Scroll(ScrollDir::Right) => "scroll-right"@,
        InputEvent::Button(id) => "mouse-"@ + decimal(id as nat),
    }
}

/// Every event has a key: a name, or for a mouse button `mouse-` and its code in decimal.
pub proof fn every_event_has_a_key(event: InputEvent)
    ensures
        event_of_key(key_of_event(event)) == Ok::<InputEvent, Seq<char>>(event),
{
    reveal_key_names();
    if let InputEvent::Button(id) = event {
        let num = decimal(id as nat);
        let key = "mouse-"@ + num;
        lemma_decimal(id as nat);
        assert(is_digit(num[0]));
        assert(key[6] == num[0]);
        assert(key.take(6) =~= "mouse-"@);
        assert(key.skip(6) =~= num);
        lemma_leading_digits(num, num.len());
        assert(num.take(num.len() as int) =~= num);
        assert(key[0] == 'm');
    } else {
        assert("enter"@[0] == 'e' && "enter"@.len() == 5);
    }
}

/// The three named mouse buttons are those with the codes 272, 273 and 274.
pub proof fn named_buttons_have_codes()
    ensures
        event_of_key("mouse-left"@) == event_of_key("mouse-"@ + decimal(272)),
        event_of_key("mouse-right"@) == event_of_key("mouse-"@ + decimal(273)),
        event_of_key("mouse-middle"@) == event_of_key("mouse-"@ + decimal(274)),
{
    reveal_key_names();
    every_event_has_a_key(InputEvent::Button(272));
    every_event_has_a_key(InputEvent::Button(273));
    every_event_has_a_key(InputEvent::Button(274));
}

proof fn reveal_key_names()
    ensures
        "enter"@.len() == 5,
        "enter"@[0] == 'e',
        "enter"@[1] == 'n',
        "leave"@.len() == 5,
        "leave"@[0] == 'l',
        "edge"@.len() == 4,
        "edge"@[0] == 'e',
        "scroll-up"@.len() == 9,
        "scroll-up"@[0] == 's',
        "scroll-down"@.len() == 11,
        "scroll-down"@[0] == 's',
        "scroll-down"@[7] == 'd',
        "scroll-left"@.len() == 11,
        "scroll-left"@[0] == 's',
        "scroll-left"@[7] == 'l',
        "scroll-right"@.len() == 12,
        "scroll-right"@[0] == 's',
        "mouse-left"@.len() == 10,
        "mouse-left"@[0] == 'm',
        "mouse-left"@[6] == 'l',
        "mouse-right"@.len() == 11,
        "mouse-right"@[0] == 'm',
        "mouse-right"@[6] == 'r',
        "mouse-middle"@.len() == 12,
        "mouse-middle"@[0] == 'm',
        "mouse-middle"@[6] == 'm',
        "mouse-"@.len() == 6,
        "mouse-"@[0] == 'm',
{
    reveal_strlit("enter");
    reveal_strlit("leave");
    reveal_strlit("edge");
    reveal_strlit("scroll-up");
    reveal_strlit("scroll-down");
    reveal_strlit("scroll-left");
    reveal_strlit("scroll-right");
    reveal_strlit("mouse-left");
    reveal_strlit("mouse-right");
    reveal_strlit("mouse-middle");
    reveal_strlit("mouse-");
}

/// A direction of scrolling.
#[derive(Clone, Copy, Debug, PartialEq, Eq, Structural)]
pub enum ScrollDir {
    Left,
    Right,
    Up,
    Down,
}

impl ScrollDir {
    /// The axis that the direction lies on.
    pub open spec fn axis(self) -> Axis {
        match self {
            ScrollDir::Left | ScrollDir::Right => Axis::Horizontal,
            ScrollDir::Up | ScrollDir::Down => Axis::Vertical,
        }
    }

    /// Whether values grow in this direction: to the right and downwards they do.
    pub open spec fn spec_is_positive(self) -> bool {
        self == ScrollDir::Right || self == ScrollDir::Down
    }

    /// Whether the direction lies on `axis`.
    pub fn on_axis(self, axis: Axis) -> (r: bool)
        ensures
            r == (self.axis() == axis),
    {
        matches!(self, ScrollDir::Left | ScrollDir::Right) && matches!(axis, Axis::Horizontal)
            || matches!(self, ScrollDir::Up | ScrollDir::Down) && matches!(axis, Axis::Vertical)
    }

    /// Whether values grow in this direction.
    pub fn is_positive(self) -> (r: bool)
        ensures
            r == self.spec_is_positive(),
    {
        matches!(self, ScrollDir::Right | ScrollDir::Down)
    }
}

/// A direction lies on exactly one axis, and an axis has one direction of each sign.
pub proof fn directions_partition_axes(a: ScrollDir, b: ScrollDir, axis: Axis)
    ensures
        a.axis() == axis <==> a.axis() != other_axis(axis),
        a.axis() == b.axis() && a.spec_is_positive() == b.spec_is_positive() ==> a == b,
{
}

/// The axis across `axis`.
pub open spec fn other_axis(axis: Axis) -> Axis {
    match axis {
        Axis::Vertical => Axis::Horizontal,
        Axis::Horizontal => Axis::Vertical,
    }
}

/// The layer that a region is drawn on.
#[derive(Clone, Copy, Debug, PartialEq, Eq, Structural)]
pub enum Layer {
    Background,
    Bottom,
    Top,
    Overlay,
}

impl Layer {
    /// The name of the layer.
    pub open spec fn spec_name(self) -> Seq<char> {
        match self {
            Layer::Overlay => "overlay"@,
            Layer::Top => "top"@,
            Layer::Bottom => "bottom"@,
            Layer::Background => "background"@,
        }
    }

    /// The name of the layer.
    pub fn name(self) -> (r: &'static str)
        ensures
            r@ == self.spec_name(),
    {
        match self {
            Layer::Overlay => "overlay",
            Layer::Top => "top",
            Layer::Bottom => "bottom",
            Layer::Background => "background",
        }
    }
}

/// The layer with a name, if there is one.
pub open spec fn layer_of_name(name: Seq<char>) -> Option<Layer> {
    if exists|layer: Layer| #[trigger] layer.spec_name() == name {
        Some(choose|layer: Layer| #[trigger] layer.spec_name() == name)
    } else {
        None
    }
}

impl Layer {
    /// The layer with a name, if there is one.
    pub fn of_name(name: &str) -> (r: Option<Layer>)
        ensures
            r == layer_of_name(name@),
    {
        let r = if same_text(name, "overlay") {
            Some(Layer::Overlay)
        } else if same_text(name, "top") {
            Some(Layer::Top)
        } else if same_text(name, "bottom") {
            Some(Layer::Bottom)
        } else if same_text(name, "background") {
            Some(Layer::Background)
        } else {
            None
        };
        proof {
            if let Some(layer) = r {
                assert(layer.spec_name() == name@);
                layer_reads_back(layer);
            }
        }
        r
    }
}

/// The name of a layer is read back as that layer.
pub proof fn layer_reads_back(layer: Layer)
    ensures
        layer_of_name(layer.spec_name()) == Some(layer),
{
    let found = choose|found: Layer| #[trigger] found.spec_name() == layer.spec_name();
    assert(found.spec_name() == layer.spec_name());
    if found != layer {
        layer_names_differ(found, layer);
    }
}

/// Different layers have different names.
pub proof fn layer_names_differ(a: Layer, b: Layer)
    requires
        a != b,
    ensures
        a.spec_name() != b.spec_name(),
{
    reveal_strlit("overlay");
    reveal_strlit("top");
    reveal_strlit("bottom");
    reveal_strlit("background");
    assert("overlay"@.len() == 7 && "top"@.len() == 3 && "bottom"@.len() == 6);
    assert("background"@.len() == 10);
}

/// The corner or the edge of the screen that a region lies at.
#[derive(Clone, Copy, Debug, PartialEq, Eq, Structural)]
pub enum Anchor {
    TopLeft,
    TopRight,
    BottomRight,
    BottomLeft,
    Left,
    Right,
    Top,
    Bottom,
}

impl Anchor {
    /// The name of the anchor.
    pub open spec fn spec_name(self) -> Seq<char> {
        match self {
            Anchor::TopLeft => "top-left"@,
            Anchor::TopRight => "top-right"@,
            Anchor::BottomRight => "bottom-right"@,
            Anchor::BottomLeft => "bottom-left"@,
            Anchor::Left => "left"@,
            Anchor::Right => "right"@,
            Anchor::Top => "top"@,
            Anchor::Bottom => "bottom"@,
        }
    }

    /// The name of the anchor.
    pub fn name(self) -> (r: &'static str)
        ensures
            r@ == self.spec_name(),
    {
        match self {
            Anchor::TopLeft => "top-left",
            Anchor::TopRight => "top-right",
            Anchor::BottomRight => "bottom-right",
            Anchor::BottomLeft => "bottom-left",
            Anchor::Left => "left",
            Anchor::Right => "right",
            Anchor::Top => "top",
            Anchor::Bottom => "bottom",
        }
    }
}

/// The anchor with a name, if there is one.
pub open spec fn anchor_of_name(name: Seq<char>) -> Option<Anchor> {
    if exists|anchor: Anchor| #[trigger] anchor.spec_name() == name {
        Some(choose|anchor: Anchor| #[trigger] anchor.spec_name() == name)
    } else {
        None
    }
}

impl Anchor {
    /// The anchor with a name, if there is one.
    pub fn of_name(name: &str) -> (r: Option<Anchor>)
        ensures
            r == anchor_of_name(name@),
    {
        let r = if same_text(name, "top-left") {
            Some(Anchor::TopLeft)
        } else if same_text(name, "top-right") {
            Some(Anchor::TopRight)
        } else if same_text(name, "bottom-right") {
            Some(Anchor::BottomRight)
        } else if same_text(name, "bottom-left") {
            Some(Anchor::BottomLeft)
        } else if same_text(name, "left") {
            Some(Anchor::Left)
        } else if same_text(name, "right") {
            Some(Anchor::Right)
        } else if same_text(name, "top") {
            Some(Anchor::Top)
        } else if same_text(name, "bottom") {
            Some(Anchor::Bottom)
        } else {
            None
        };
        proof {
            if let Some(anchor) = r {
                assert(anchor.spec_name() == name@);
                anchor_reads_back(anchor);
            }
        }
        r
    }
}

/// The name of an anchor is read back as that anchor.
pub proof fn anchor_reads_back(anchor: Anchor)
    ensures
        anchor_of_name(anchor.spec_name()) == Some(anchor),
{
    let found = choose|found: Anchor| #[trigger] found.spec_name() == anchor.spec_name();
    assert(found.spec_name() == anchor.spec_name());
    if found != anchor {
        anchor_names_differ(found, anchor);
    }
}

/// Different anchors have different names.
pub proof fn anchor_names_differ(a: Anchor, b: Anchor)
    requires
        a != b,
    ensures
        a.spec_name() != b.spec_name(),
{
    reveal_strlit("top-left");
    reveal_strlit("top-right");
    reveal_strlit("bottom-right");
    reveal_strlit("bottom-left");
    reveal_strlit("left");
    reveal_strlit("right");
    reveal_strlit("top");
    reveal_strlit("bottom");
    assert("top-left"@.len() == 8 && "top-right"@.len() == 9 && "bottom-right"@.len() == 12);
    assert("bottom-left"@.len() == 11 && "left"@.len() == 4 && "right"@.len() == 5);
    assert("top"@.len() == 3 && "bottom"@.len() == 6);
}

/// A color with its opacity.
#[derive(Clone, Copy, Debug, PartialEq, Eq, Structural)]
pub struct Color {
    pub a: u8,
    pub r: u8,
    pub g: u8,
    pub b: u8,
}

impl Color {
    /// The color as one ARGB8888 pixel: opacity in the highest byte, then red, green and blue.
    pub open spec fn pixel(self) -> int {
        self.a * 0x100_0000 + self.r * 0x1_0000 + self.g * 0x100 + self.b
    }

    /// A color of the given opacity, red, green and blue.
    pub fn new(a: u8, r: u8, g: u8, b: u8) -> (color: Color)
        ensures
            color == (Color { a, r, g, b }),
    {
        Color { a, r, g, b }
    }

    /// The color as one ARGB8888 pixel.
    pub fn as_u32(self) -> (pixel: u32)
        ensures
            pixel == self.pixel(),
    {
        self.a as u32 * 0x100_0000 + self.r as u32 * 0x1_0000 + self.g as u32 * 0x100
            + self.b as u32
    }
}

/// Different colors are different pixels.
pub proof fn pixels_differ(a: Color, b: Color)
    requires
        a != b,
    ensures
        a.pixel() != b.pixel(),
{
    if a.a != b.a {
        assert(a.a < b.a ==> a.pixel() < b.pixel());
        assert(b.a < a.a ==> b.pixel() < a.pixel());
    } else if a.r != b.r {
        assert(a.r < b.r ==> a.pixel() < b.pixel());
        assert(b.r < a.r ==> b.pixel() < a.pixel());
    } else if a.g != b.g {
        assert(a.g < b.g ==> a.pixel() < b.pixel());
        assert(b.g < a.g ==> b.pixel() < a.pixel());
    }
}

/// One region as the user configures it.
#[derive(Debug)]
pub struct GapConfig {
    /// A part of the name or of the description of the outputs that the region is for, or all
    /// outputs.
    pub output: Option<String>,
    pub anchor: Anchor,
    pub size: u32,
    pub start_margin: i32,
    pub end_margin: i32,
    pub activation_force: u16,
    pub ignore_exclusive_zone: bool,
    pub layer: Layer,
    pub preview_color: Color,
    /// The shell command for each event.
    pub commands: Vec<(InputEvent, String)>,
}

impl Default for GapConfig {
    fn default() -> (r: GapConfig)
        ensures
            r.output is None,
            r.anchor == Anchor::TopLeft,
            r.size == 10,
            r.start_margin == 0,
            r.end_margin == 0,
            r.activation_force == 25,
            r.ignore_exclusive_zone,
            r.layer == Layer::Overlay,
            r.preview_color == (Color { a: 25, r: 128, g: 16, b: 16 }),
            r.commands@.len() == 0,
    {
        GapConfig {
            output: None,
            anchor: default_anchor(),
            size: default_size(),
            start_margin: default_margin(),
            end_margin: default_margin(),
            activation_force: default_activation_force(),
            ignore_exclusive_zone: default_ignore_exclusive_zone(),
            layer: default_layer(),
            preview_color: default_preview_color(),
            commands: Vec::new(),
        }
    }
}

/// The anchor of a region that names none.
pub fn default_anchor() -> (r: Anchor)
    ensures
        r == Anchor::TopLeft,
{
    Anchor::TopLeft
}

/// The size of a region that names none.
pub fn default_size() -> (r: u32)
    ensures
        r == 10,
{
    10
}

/// The margins of a region that names none.
pub fn default_margin() -> (r: i32)
    ensures
        r == 0,
{
    0
}

/// The activation force of a region that names none.
pub fn default_activation_force() -> (r: u16)
    ensures
        r == 25,
{
    25
}

/// Whether a region that does not say so ignores the exclusive zones of other surfaces.
pub fn default_ignore_exclusive_zone() -> (r: bool)
    ensures
        r,
{
    true
}

/// The layer of a region that names none.
pub fn default_layer() -> (r: Layer)
    ensures
        r == Layer::Overlay,
{
    Layer::Overlay
}

/// The preview color of a region that names none.
pub fn default_preview_color() -> (r: Color)
    ensures
        r == (Color { a: 25, r: 128, g: 16, b: 16 }),
{
    Color::new(25, 128, 16, 16)
}

/// The entries stand in the order of their names, and no name occurs twice.
pub open spec fn in_order(entries: Seq<(String, GapConfig)>) -> bool {
    forall|i: int, j: int|
        0 <= i < j < entries.len() ==> before((#[trigger] entries[i]).0@, (#[trigger] entries[j]).0@)
}

/// `entries` has an entry of the name `name` at place `at`.
pub open spec fn named_at(entries: Seq<(String, GapConfig)>, name: Seq<char>, at: int) -> bool {
    0 <= at < entries.len() && entries[at].0@ == name
}

/// The regions of a list of entries, by name.
pub open spec fn by_name(entries: Seq<(String, GapConfig)>) -> Map<Seq<char>, GapConfig> {
    Map::new(
        |name: Seq<char>| exists|at: int| named_at(entries, name, at),
        |name: Seq<char>| entries[choose|at: int| named_at(entries, name, at)].1,
    )
}

/// In a list in order, each name leads to the entry that has it.
pub proof fn lemma_by_name(entries: Seq<(String, GapConfig)>, at: int)
    requires
        in_order(entries),
        0 <= at < entries.len(),
    ensures
        by_name(entries).contains_key(entries[at].0@),
        by_name(entries)[entries[at].0@] == entries[at].1,
{
    let name = entries[at].0@;
    assert(named_at(entries, name, at));
    let found = choose|found: int| named_at(entries, name, found);
    assert(named_at(entries, name, found));
    if found < at {
        before_is_irreflexive(name);
        assert(before(entries[found].0@, entries[at].0@));
    } else if at < found {
        before_is_irreflexive(name);
        assert(before(entries[at].0@, entries[found].0@));
    }
}

/// All regions, in the order of their names.
#[derive(Debug)]
pub struct Config(pub Vec<(String, GapConfig)>);

/// Regions by name, as they are collected from a configuration file.
#[derive(Debug)]
pub struct BTreeConfig {
    entries: Vec<(String, GapConfig)>,
}

impl View for BTreeConfig {
    type V = Map<Seq<char>, GapConfig>;

    closed spec fn view(&self) -> Map<Seq<char>, GapConfig> {
        by_name(self.entries@)
    }
}

impl BTreeConfig {
    #[verifier::type_invariant]
    spec fn sorted(self) -> bool {
        in_order(self.entries@)
    }

    /// No regions.
    pub fn new() -> (r: BTreeConfig)
        ensures
            r@ == Map::<Seq<char>, GapConfig>::empty(),
    {
        let r = BTreeConfig { entries: Vec::new() };
        assert(by_name(r.entries@) =~= Map::<Seq<char>, GapConfig>::empty());
        r
    }

    /// Puts a region under a name, in the place of the one that had the name before.
    pub fn insert(&mut self, name: String, gap: GapConfig)
        ensures
            final(self)@ == old(self)@.insert(name@, gap),
    {
        proof {
            use_type_invariant(&*self);
        }
        let mut entries: Vec<(String, GapConfig)> = Vec::new();
        std::mem::swap(&mut entries, &mut self.entries);
        let ghost was = entries@;
        let mut at: usize = 0;
        while at < entries.len() && is_before(entries[at].0.as_str(), name.as_str())
            invariant
                at <= entries.len(),
                entries@ == was,
                in_order(was),
                forall|i: int| 0 <= i < at ==> before((#[trigger] was[i]).0@, name@),
            decreases entries.len() - at,
        {
            at += 1;
        }
        if at < entries.len() && same_text(entries[at].0.as_str(), name.as_str()) {
            proof {
                lemma_replace(was, at as int, name, gap);
            }
            entries[at] = (name, gap);
        } else {
            proof {
                lemma_insert(was, at as int, name, gap);
            }
            entries.insert(at, (name, gap));
        }
        self.entries = entries;
    }

    /// All regions, in the order of their names.
    pub fn into_config(self) -> (r: Config)
        ensures
            in_order(r.0@),
            by_name(r.0@) == self@,
    {
        proof {
            use_type_invariant(&self);
        }
        Config(self.entries)
    }
}

proof fn lemma_replace(was: Seq<(String, GapConfig)>, at: int, name: String, gap: GapConfig)
    requires
        in_order(was),
        0 <= at < was.len(),
        was[at].0@ == name@,
    ensures
        in_order(was.update(at, (name, gap))),
        by_name(was.update(at, (name, gap))) == by_name(was).insert(name@, gap),
{
    let now = was.update(at, (name, gap));
    assert forall|i: int, j: int| 0 <= i < j < now.len() implies before(
        (#[trigger] now[i]).0@,
        (#[trigger] now[j]).0@,
    ) by {
        assert(before(was[i].0@, was[j].0@));
    }
    lemma_same_by_name(was, now, at, name, gap);
}

proof fn lemma_insert(was: Seq<(String, GapConfig)>, at: int, name: String, gap: GapConfig)
    requires
        in_order(was),
        0 <= at <= was.len(),
        forall|i: int| 0 <= i < at ==> before((#[trigger] was[i]).0@, name@),
        at < was.len() ==> !before(was[at].0@, name@) && was[at].0@ != name@,
    ensures
        in_order(was.insert(at, (name, gap))),
        by_name(was.insert(at, (name, gap))) == by_name(was).insert(name@, gap),
{
    let now = was.insert(at, (name, gap));
    assert forall|j: int| at <= j < was.len() implies before(name@, (#[trigger] was[j]).0@) by {
        before_is_total(was[at].0@, name@);
        if at < j {
            assert(before(was[at].0@, was[j].0@));
            before_is_transitive(name@, was[at].0@, was[j].0@);
        }
    }
    assert forall|i: int, j: int| 0 <= i < j < now.len() implies before(
        (#[trigger] now[i]).0@,
        (#[trigger] now[j]).0@,
    ) by {
        if j < at {
            assert(before(was[i].0@, was[j].0@));
        } else if i < at {
            if j == at {
                assert(before(was[i].0@, name@));
            } else {
                assert(before(was[i].0@, was[j - 1].0@));
            }
        } else if i == at {
            assert(before(name@, was[j - 1].0@));
        } else {
            assert(before(was[i - 1].0@, was[j - 1].0@));
        }
    }
    lemma_same_by_name(was, now, at, name, gap);
}

/// Two lists in order that differ in one entry alone differ in its name alone.
proof fn lemma_same_by_name(
    was: Seq<(String, GapConfig)>,
    now: Seq<(String, GapConfig)>,
    at: int,
    name: String,
    gap: GapConfig,
)
    requires
        in_order(was),
        in_order(now),
        0 <= at < now.len(),
        now[at] == (name, gap),
        now =~= was.update(at, (name, gap)) && at < was.len() && was[at].0@ == name@ || now
            =~= was.insert(at, (name, gap)) && at <= was.len(),
    ensures
        by_name(now) == by_name(was).insert(name@, gap),
{
    let a = by_name(now);
    let b = by_name(was).insert(name@, gap);
    lemma_by_name(now, at);
    assert forall|other: Seq<char>| a.contains_key(other) <==> b.contains_key(other) by {
        if a.contains_key(other) && other != name@ {
            let i = choose|i: int| named_at(now, other, i);
            assert(named_at(now, other, i));
            if now.len() == was.len() {
                assert(named_at(was, other, i));
            } else if i < at {
                assert(named_at(was, other, i));
            } else {
                assert(named_at(was, other, i - 1));
            }
        }
        if by_name(was).contains_key(other) && other != name@ {
            let i = choose|i: int| named_at(was, other, i);
            assert(named_at(was, other, i));
            if now.len() == was.len() || i < at {
                assert(named_at(now, other, i));
            } else {
                assert(named_at(now, other, i + 1));
            }
        }
    }
    assert forall|other: Seq<char>| a.contains_key(other) implies a[other] == b[other] by {
        if other != name@ {
            let i = choose|i: int| named_at(now, other, i);
            assert(named_at(now, other, i));
            lemma_by_name(now, i);
            if now.len() == was.len() || i < at {
                assert(was[i] == now[i]);
                lemma_by_name(was, i);
            } else {
                assert(was[i - 1] == now[i]);
                lemma_by_name(was, i - 1);
            }
        }
    }
    assert(a =~= b);
}

/// The order in which two regions of different names are put in does not matter: the same list
/// comes out.
pub proof fn insertion_order_is_free(
    regions: Map<Seq<char>, GapConfig>,
    a: Seq<char>,
    gap_a: GapConfig,
    b: Seq<char>,
    gap_b: GapConfig,
    one: Config,
    other: Config,
)
    requires
        a != b,
        in_order(one.0@),
        by_name(one.0@) == regions.insert(a, gap_a).insert(b, gap_b),
        in_order(other.0@),
        by_name(other.0@) == regions.insert(b, gap_b).insert(a, gap_a),
    ensures
        one.0@.len() == other.0@.len(),
        forall|i: int|
            0 <= i < one.0@.len() ==> (#[trigger] one.0@[i]).0@ == other.0@[i].0@ && one.0@[i].1
                == other.0@[i].1,
{
    assert(by_name(one.0@) =~= by_name(other.0@));
    config_order_is_unique(one.0@, other.0@);
}

/// Regions by name make one list only: two lists in order with the same regions are the same.
pub proof fn config_order_is_unique(a: Seq<(String, GapConfig)>, b: Seq<(String, GapConfig)>)
    requires
        in_order(a),
        in_order(b),
        by_name(a) == by_name(b),
    ensures
        a.len() == b.len(),
        forall|i: int| 0 <= i < a.len() ==> (#[trigger] a[i]).0@ == b[i].0@ && a[i].1 == b[i].1,
{
    lemma_names_agree(a, b, a.len() as int);
    lemma_names_agree(b, a, b.len() as int);
    assert forall|i: int| 0 <= i < a.len() implies (#[trigger] a[i]).0@ == b[i].0@ && a[i].1
        == b[i].1 by {
        lemma_by_name(a, i);
        lemma_by_name(b, i);
    }
}

/// The first names of a list in order are the first names of any other with the same regions.
proof fn lemma_names_agree(a: Seq<(String, GapConfig)>, b: Seq<(String, GapConfig)>, n: int)
    requires
        in_order(a),
        in_order(b),
        by_name(a) == by_name(b),
        0 <= n <= a.len(),
    ensures
        n <= b.len(),
        forall|i: int| 0 <= i < n ==> (#[trigger] a[i]).0@ == b[i].0@,
    decreases n,
{
    if n > 0 {
        lemma_names_agree(a, b, n - 1);
        let name = a[n - 1].0@;
        lemma_by_name(a, n - 1);
        let j = choose|j: int| named_at(b, name, j);
        assert(named_at(b, name, j));
        if j < n - 1 {
            assert(a[j].0@ == b[j].0@);
            assert(before(a[j].0@, a[n - 1].0@));
            before_is_irreflexive(name);
        }
        if j > n - 1 {
            lemma_by_name(b, n - 1);
            let other = b[n - 1].0@;
            assert(before(b[n - 1].0@, b[j].0@));
            let k = choose|k: int| named_at(a, other, k);
            assert(named_at(a, other, k));
            if k < n - 1 {
                assert(a[k].0@ == b[k].0@);
                assert(before(b[k].0@, b[n - 1].0@));
                before_is_irreflexive(other);
            } else if k > n - 1 {
                assert(before(a[n - 1].0@, a[k].0@));
                before_is_asymmetric(name, other);
            } else {
                before_is_irreflexive(name);
            }
        }
    }
}

/// The bytes of a pixel, from the lowest up, are blue, green, red and the opacity.
pub proof fn pixels_hold_four_bytes(color: Color)
    ensures
        0 <= color.pixel() < 0x1_0000_0000,
        color.pixel() % 0x100 == color.b,
        color.pixel() / 0x100 % 0x100 == color.g,
        color.pixel() / 0x1_0000 % 0x100 == color.r,
        color.pixel() / 0x100_0000 == color.a,
{
}

/// A key that is a word stands for its event, and no other key does.
pub proof fn words_stand_for_events(key: Seq<char>)
    ensures
        event_of_key(key) == Ok::<InputEvent, Seq<char>>(InputEvent::Enter) <==> key == "enter"@,
        event_of_key(key) == Ok::<InputEvent, Seq<char>>(InputEvent::Leave) <==> key == "leave"@,
        event_of_key(key) == Ok::<InputEvent, Seq<char>>(InputEvent::Edge) <==> key == "edge"@,
        event_of_key(key) == Ok::<InputEvent, Seq<char>>(InputEvent::Scroll(ScrollDir::Up))
            <==> key == "scroll-up"@,
        event_of_key(key) == Ok::<InputEvent, Seq<char>>(InputEvent::Scroll(ScrollDir::Down))
            <==> key == "scroll-down"@,
        event_of_key(key) == Ok::<InputEvent, Seq<char>>(InputEvent::Scroll(ScrollDir::Left))
            <==> key == "scroll-left"@,
        event_of_key(key) == Ok::<InputEvent, Seq<char>>(InputEvent::Scroll(ScrollDir::Right))
            <==> key == "scroll-right"@,
{
    reveal_key_names();
}

/// `mouse-` and digits, with or without a plus sign before them, are the key of the button with
/// that number, and of none where the number does not have 16 bits.
pub proof fn numbers_stand_for_buttons(digits: Seq<char>, plus: bool)
    requires
        digits.len() > 0,
        forall|i: int| 0 <= i < digits.len() ==> 48 <= (#[trigger] digits[i]) as int <= 57,
    ensures
        ({
            let num = if plus {
                seq!['+'] + digits
            } else {
                digits
            };
            let read = event_of_key("mouse-"@ + num);
            &&& value(digits) <= 65535 ==> read == Ok::<InputEvent, Seq<char>>(
                InputEvent::Button(value(digits) as u16),
            )
            &&& value(digits) > 65535 ==> read is Err
        }),
{
    reveal_key_names();
    let num = if plus {
        seq!['+'] + digits
    } else {
        digits
    };
    let key = "mouse-"@ + num;
    assert('0' as int == 48 && '9' as int == 57 && '+' as int == 43);
    assert forall|i: int| 0 <= i < digits.len() implies is_digit(#[trigger] digits[i]) by {}
    lemma_leading_digits(digits, digits.len());
    assert(digits.take(digits.len() as int) =~= digits);
    assert(key.take(6) =~= "mouse-"@);
    assert(key.skip(6) =~= num);
    assert(key[6] == num[0]);
    assert(key[0] == 'm');
    assert(is_digit(num[0]) || num[0] == '+');
    if plus {
        assert(num.drop_first() =~= digits);
        assert(num[0] == '+');
    } else {
        assert(num[0] == digits[0]);
    }
    assert(button_id(num) == (if value(digits) > 65535 {
        Err::<u16, ButtonIdError>(ButtonIdError::PosOverflow)
    } else {
        Ok::<u16, ButtonIdError>(value(digits) as u16)
    }));
}

/// The key of a button is one of the three names, or `mouse-`, at most one plus sign, and digits
/// that stand for its number: the digits come back.
pub proof fn button_keys_are_names_or_numbers(key: Seq<char>, id: u16) -> (digits: Seq<char>)
    requires
        event_of_key(key) == Ok::<InputEvent, Seq<char>>(InputEvent::Button(id)),
    ensures
        key == "mouse-left"@ && id == 272 || key == "mouse-right"@ && id == 273 || key
            == "mouse-middle"@ && id == 274 || (digits.len() > 0 && value(digits) == id && (key
            == "mouse-"@ + digits || key == "mouse-"@ + (seq!['+'] + digits)) && forall|i: int|
            0 <= i < digits.len() ==> 48 <= (#[trigger] digits[i]) as int <= 57),
{
    reveal_key_names();
    assert('0' as int == 48 && '9' as int == 57 && '+' as int == 43);
    if key == "mouse-left"@ || key == "mouse-right"@ || key == "mouse-middle"@ {
        Seq::empty()
    } else {
        let num = key.skip(6);
        let digits = if num.len() > 0 && num[0] == '+' {
            num.drop_first()
        } else {
            num
        };
        assert(key =~= "mouse-"@ + num) by {
            assert forall|i: int| 0 <= i < 6 implies key[i] == "mouse-"@[i] by {
                assert(key.take(6)[i] == key[i]);
            }
        }
        if num.len() > 0 && num[0] == '+' {
            assert(num =~= seq!['+'] + digits);
        }
        digit_prefix_is_longest(digits);
        assert(digit_prefix(digits).len() == leading_digits(digits)) by {
            lemma_leading_digits(digits, 0);
        }
        assert(leading_digits(digits) == digits.len());
        assert(digit_prefix(digits) =~= digits);
        digits
    }
}

/// A number that goes wrong at some place is one with a wrong digit, unless the digits before that
/// place are too many already; a plus sign in front changes nothing.
pub proof fn wrong_digits_are_told(head: Seq<char>, wrong: char, tail: Seq<char>, plus: bool)
    requires
        forall|i: int| 0 <= i < head.len() ==> 48 <= (#[trigger] head[i]) as int <= 57,
        !(48 <= wrong as int <= 57),
        plus || head.len() > 0 || wrong != '+',
    ensures
        ({
            let num = head.push(wrong) + tail;
            button_id(
                if plus {
                    seq!['+'] + num
                } else {
                    num
                },
            ) == Err::<u16, ButtonIdError>(
                if value(head) > 65535 {
                    ButtonIdError::PosOverflow
                } else {
                    ButtonIdError::InvalidDigit
                },
            )
        }),
        button_id(Seq::<char>::empty()) == Err::<u16, ButtonIdError>(ButtonIdError::Empty),
        button_id(seq!['+']) == Err::<u16, ButtonIdError>(ButtonIdError::InvalidDigit),
{
    assert('0' as int == 48 && '9' as int == 57 && '+' as int == 43);
    let num = head.push(wrong) + tail;
    assert forall|i: int| 0 <= i < head.len() implies is_digit(#[trigger] num[i]) by {
        assert(num[i] == head[i]);
    }
    assert(num[head.len() as int] == wrong);
    lemma_leading_digits(num, head.len());
    assert(digit_prefix(num) =~= head);
    if plus {
        let all = seq!['+'] + num;
        assert(all[0] == '+');
        assert(all.drop_first() =~= num);
    } else {
        assert(num[0] == (if head.len() > 0 {
            head[0]
        } else {
            wrong
        }));
    }
    assert(seq!['+'].drop_first() =~= Seq::<char>::empty());
}

/// What is said of a wrong key names the key, and says whether it is that of a mouse button: of one
/// that is, it says what is wrong with the number, which comes back.
pub proof fn wrong_keys_are_named(key: Seq<char>) -> (num: Seq<char>)
    requires
        event_of_key(key) is Err,
    ensures
        key.len() >= 6 && key.subrange(0, 6) == "mouse-"@ ==> {
            &&& key == "mouse-"@ + num
            &&& button_id(num) is Err
            &&& event_of_key(key)->Err_0 == "invalid mouse button id: '"@ + key
                + "' in command '"@ + num + "': "@ + (match button_id(num)->Err_0 {
                ButtonIdError::Empty => "cannot parse integer from empty string"@,
                ButtonIdError::InvalidDigit => "invalid digit found in string"@,
                ButtonIdError::PosOverflow => "number too large to fit in target type"@,
            })
        },
        !(key.len() >= 6 && key.subrange(0, 6) == "mouse-"@) ==> event_of_key(key)->Err_0
            == "unknown input event: `"@ + key
            + "`, expected one of `enter`, `leave`, `edge`, `scroll-up`, `scroll-down`, `scroll-left`, `scroll-right`, `mouse-left`, `mouse-right`, or `mouse-middle`"@,
{
    if key.len() >= 6 {
        assert(key.subrange(0, 6) =~= key.take(6));
        assert(key =~= key.take(6) + key.skip(6));
    }
    key.skip(6)
}

/// The name of an edge is its word, and that of a corner is made of the words of the two edges that
/// meet there, the upper or the lower one first.
pub proof fn anchors_are_named_for_their_edges()
    ensures
        Anchor::Left.spec_name() == "left"@,
        Anchor::Right.spec_name() == "right"@,
        Anchor::Top.spec_name() == "top"@,
        Anchor::Bottom.spec_name() == "bottom"@,
        Anchor::TopLeft.spec_name() == Anchor::Top.spec_name() + "-"@ + Anchor::Left.spec_name(),
        Anchor::TopRight.spec_name() == Anchor::Top.spec_name() + "-"@ + Anchor::Right.spec_name(),
        Anchor::BottomLeft.spec_name() == Anchor::Bottom.spec_name() + "-"@
            + Anchor::Left.spec_name(),
        Anchor::BottomRight.spec_name() == Anchor::Bottom.spec_name() + "-"@
            + Anchor::Right.spec_name(),
{
    reveal_strlit("-");
    reveal_strlit("left");
    reveal_strlit("right");
    reveal_strlit("top");
    reveal_strlit("bottom");
    reveal_strlit("top-left");
    reveal_strlit("top-right");
    reveal_strlit("bottom-left");
    reveal_strlit("bottom-right");
}

/// A name is read as the layer or the anchor that it is the name of, and as none where it is no
/// such name.
pub proof fn names_are_read_as_written(name: Seq<char>)
    ensures
        layer_of_name(name) == Some(Layer::Overlay) <==> name == "overlay"@,
        layer_of_name(name) == Some(Layer::Top) <==> name == "top"@,
        layer_of_name(name) == Some(Layer::Bottom) <==> name == "bottom"@,
        layer_of_name(name) == Some(Layer::Background) <==> name == "background"@,
        anchor_of_name(name) == Some(Anchor::Left) <==> name == "left"@,
        anchor_of_name(name) == Some(Anchor::Right) <==> name == "right"@,
        anchor_of_name(name) == Some(Anchor::Top) <==> name == "top"@,
        anchor_of_name(name) == Some(Anchor::Bottom) <==> name == "bottom"@,
        anchor_of_name(name) == Some(Anchor::TopLeft) <==> name == "top-left"@,
        anchor_of_name(name) == Some(Anchor::TopRight) <==> name == "top-right"@,
        anchor_of_name(name) == Some(Anchor::BottomLeft) <==> name == "bottom-left"@,
        anchor_of_name(name) == Some(Anchor::BottomRight) <==> name == "bottom-right"@,
{
    layer_reads_back(Layer::Overlay);
    layer_reads_back(Layer::Top);
    layer_reads_back(Layer::Bottom);
    layer_reads_back(Layer::Background);
    anchor_reads_back(Anchor::Left);
    anchor_reads_back(Anchor::Right);
    anchor_reads_back(Anchor::Top);
    anchor_reads_back(Anchor::Bottom);
    anchor_reads_back(Anchor::TopLeft);
    anchor_reads_back(Anchor::TopRight);
    anchor_reads_back(Anchor::BottomLeft);
    anchor_reads_back(Anchor::BottomRight);
}

/// The regions by name are those of the entries and no others, and the entries stand in the order of
/// their names, so that no name comes twice.
pub proof fn entries_make_the_regions(
    entries: Seq<(String, GapConfig)>,
    i: int,
    j: int,
    name: Seq<char>,
)
    requires
        in_order(entries),
        0 <= i < j < entries.len(),
    ensures
        before(entries[i].0@, entries[j].0@),
        entries[i].0@ != entries[j].0@,
        by_name(entries).contains_key(name) <==> exists|k: int|
            0 <= k < entries.len() && (#[trigger] entries[k]).0@ == name,
        by_name(entries)[entries[i].0@] == entries[i].1,
        by_name(entries)[entries[j].0@] == entries[j].1,
{
    before_is_irreflexive(entries[i].0@);
    lemma_by_name(entries, i);
    lemma_by_name(entries, j);
    if by_name(entries).contains_key(name) {
        let k = choose|k: int| named_at(entries, name, k);
        assert(named_at(entries, name, k));
        assert(entries[k].0@ == name);
    }
    if exists|k: int| 0 <= k < entries.len() && (#[trigger] entries[k]).0@ == name {
        let k = choose|k: int| 0 <= k < entries.len() && (#[trigger] entries[k]).0@ == name;
        assert(named_at(entries, name, k));
    }
}

} // verus!
