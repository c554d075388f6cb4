//! Input from the viewer: what a message asks of the host's pointer and keyboard.

use vstd::arithmetic::power2::{lemma_pow2_adds, lemma_pow2_pos, pow2};
use vstd::prelude::*;
use vstd::string::*;

use crate::ieee::{lemma_units_increase, units_of};
use crate::text::{has_prefix, same, starts_with};

verus! {

/// A key of the host.
#[derive(Clone, Copy, Debug, PartialEq, Eq, Structural)]
pub enum Key {
    Escape,
    Return,
    Tab,
    Backspace,
    Space,
    UpArrow,
    DownArrow,
    LeftArrow,
    RightArrow,
    Shift,
    Control,
    Alt,
    Meta,
    CapsLock,
    Delete,
    Home,
    End,
    PageUp,
    PageDown,
    F1,
    F2,
    F3,
    F4,
    F5,
    F6,
    F7,
    F8,
    F9,
    F10,
    F11,
    F12,
    /// The key that types a character.
    Unicode(char),
}

/// A button of the host's pointer.
#[derive(Clone, Copy, Debug, PartialEq, Eq, Structural)]
pub enum Button {
    Left,
    Middle,
    Right,
}

#[derive(Clone, Copy, Debug, PartialEq, Eq, Structural)]
pub enum Direction {
    Press,
    Release,
}

/// The key of a code that stands for one key whatever the layout.
pub open spec fn named_key(code: Seq<char>) -> Option<Key> {
    if code == "Escape"@ {
        Some(Key::Escape)
    } else if code == "Enter"@ {
        Some(Key::Return)
    } else if code == "Tab"@ {
        Some(Key::Tab)
    } else if code == "Backspace"@ {
        Some(Key::Backspace)
    } else if code == "Space"@ {
        Some(Key::Space)
    } else if code == "ArrowUp"@ {
        Some(Key::UpArrow)
    } else if code == "ArrowDown"@ {
        Some(Key::DownArrow)
    } else if code == "ArrowLeft"@ {
        Some(Key::LeftArrow)
    } else if code == "ArrowRight"@ {
        Some(Key::RightArrow)
    } else if code == "ShiftLeft"@ {
        Some(Key::Shift)
    } else if code == "ShiftRight"@ {
        Some(Key::Shift)
    } else if code == "ControlLeft"@ {
        Some(Key::Control)
    } else if code == "ControlRight"@ {
        Some(Key::Control)
    } else if code == "AltLeft"@ {
        Some(Key::Alt)
    } else if code == "AltRight"@ {
        Some(Key::Alt)
    } else if code == "MetaLeft"@ {
        Some(Key::Meta)
    } else if code == "MetaRight"@ {
        Some(Key::Meta)
    } else if code == "CapsLock"@ {
        Some(Key::CapsLock)
    } else if code == "Delete"@ {
        Some(Key::Delete)
    } else if code == "Home"@ {
        Some(Key::Home)
    } else if code == "End"@ {
        Some(Key::End)
    } else if code == "PageUp"@ {
        Some(Key::PageUp)
    } else if code == "PageDown"@ {
        Some(Key::PageDown)
    } else if code == "F1"@ {
        Some(Key::F1)
    } else if code == "F2"@ {
        Some(Key::F2)
    } else if code == "F3"@ {
        Some(Key::F3)
    } else if code == "F4"@ {
        Some(Key::F4)
    } else if code == "F5"@ {
        Some(Key::F5)
    } else if code == "F6"@ {
        Some(Key::F6)
    } else if code == "F7"@ {
        Some(Key::F7)
    } else if code == "F8"@ {
        Some(Key::F8)
    } else if code == "F9"@ {
        Some(Key::F9)
    } else if code == "F10"@ {
        Some(Key::F10)
    } else if code == "F11"@ {
        Some(Key::F11)
    } else if code == "F12"@ {
        Some(Key::F12)
    } else {
        None
    }
}

/// The small letter of a capital ASCII letter; anything else as it is.
pub open spec fn ascii_lowercase(c: char) -> char {
    if 'A' <= c <= 'Z' {
        (c as u32 + 32) as char
    } else {
        c
    }
}

/// `code` is `prefix` with one ASCII character behind it.
pub open spec fn followed_by_ascii(code: Seq<char>, prefix: Seq<char>) -> bool {
    has_prefix(code, prefix) && code.len() == prefix.len() + 1 && code.last() < 128
}

/// The key of a keyboard event: by its code where that names a key, a letter or a digit, else by
/// the one character that the key types.
pub open spec fn key_of(code: Seq<char>, key: Seq<char>) -> Option<Key> {
    match named_key(code) {
        Some(named) => Some(named),
        None => if followed_by_ascii(code, "Key"@) {
            Some(Key::Unicode(ascii_lowercase(code.last())))
        } else if followed_by_ascii(code, "Digit"@) {
            Some(Key::Unicode(code.last()))
        } else if key.len() == 1 {
            Some(Key::Unicode(key[0]))
        } else {
            None
        },
    }
}

fn map_named_key(code: &str) -> (key: Option<Key>)
    ensures
        key == named_key(code@),
{
    if same(code, "Escape") {
        Some(Key::Escape)
    } else if same(code, "Enter") {
        Some(Key::Return)
    } else if same(code, "Tab") {
        Some(Key::Tab)
    } else if same(code, "Backspace") {
        Some(Key::Backspace)
    } else if same(code, "Space") {
        Some(Key::Space)
    } else if same(code, "ArrowUp") {
        Some(Key::UpArrow)
    } else if same(code, "ArrowDown") {
        Some(Key::DownArrow)
    } else if same(code, "ArrowLeft") {
        Some(Key::LeftArrow)
    } else if same(code, "ArrowRight") {
        Some(Key::RightArrow)
    } else if same(code, "ShiftLeft") {
        Some(Key::Shift)
    } else if same(code, "ShiftRight") {
        Some(Key::Shift)
    } else if same(code, "ControlLeft") {
        Some(Key::Control)
    } else if same(code, "ControlRight") {
        Some(Key::Control)
    } else if same(code, "AltLeft") {
        Some(Key::Alt)
    } else if same(code, "AltRight") {
        Some(Key::Alt)
    } else if same(code, "MetaLeft") {
        Some(Key::Meta)
    } else if same(code, "MetaRight") {
        Some(Key::Meta)
    } else if same(code, "CapsLock") {
        Some(Key::CapsLock)
    } else if same(code, "Delete") {
        Some(Key::Delete)
    } else if same(code, "Home") {
        Some(Key::Home)
    } else if same(code, "End") {
        Some(Key::End)
    } else if same(code, "PageUp") {
        Some(Key::PageUp)
    } else if same(code, "PageDown") {
        Some(Key::PageDown)
    } else if same(code, "F1") {
        Some(Key::F1)
    } else if same(code, "F2") {
        Some(Key::F2)
    } else if same(code, "F3") {
        Some(Key::F3)
    } else if same(code, "F4") {
        Some(Key::F4)
    } else if same(code, "F5") {
        Some(Key::F5)
    } else if same(code, "F6") {
        Some(Key::F6)
    } else if same(code, "F7") {
        Some(Key::F7)
    } else if same(code, "F8") {
        Some(Key::F8)
    } else if same(code, "F9") {
        Some(Key::F9)
    } else if same(code, "F10") {
        Some(Key::F10)
    } else if same(code, "F11") {
        Some(Key::F11)
    } else if same(code, "F12") {
        Some(Key::F12)
    } else {
        None
    }
}

/// The one ASCII character behind `prefix`, where `code` is made of these.
fn ascii_behind(code: &str, prefix: &str) -> (c: Option<char>)
    ensures
        match c {
            Some(last) => followed_by_ascii(code@, prefix@) && last == code@.last(),
            None => !followed_by_ascii(code@, prefix@),
        },
{
    if !starts_with(code, prefix) {
        return None;
    }
    let length: usize = code.unicode_len();
    if length - prefix.unicode_len() != 1 {
        return None;
    }
    let last: char = code.get_char(length - 1);
    if (last as u32) < 128 {
        Some(last)
    } else {
        None
    }
}

/// The key of a keyboard event.
pub fn map_key(code: &str, key: &str) -> (mapped: Option<Key>)
    ensures
        mapped == key_of(code@, key@),
{
    if let Some(named) = map_named_key(code) {
        return Some(named);
    }
    if let Some(letter) = ascii_behind(code, "Key") {
        let small: char = if 'A' <= letter && letter <= 'Z' {
            (letter as u8 + 32) as char
        } else {
            letter
        };
        return Some(Key::Unicode(small));
    }
    if let Some(digit) = ascii_behind(code, "Digit") {
        return Some(Key::Unicode(digit));
    }
    if key.unicode_len() == 1 {
        Some(Key::Unicode(key.get_char(0)))
    } else {
        None
    }
}

/// Letters and digits are known by where they lie, not by what they type: the code of a letter
/// key is its small letter and the code of a digit key its digit, whatever `key` says.
pub proof fn law_letters_and_digits_go_by_code(c: char, key: Seq<char>)
    ensures
        'A' <= c <= 'Z' ==> key_of("Key"@.push(c), key) == Some(Key::Unicode((c as u32 + 32) as char)),
        '0' <= c <= '9' ==> key_of("Digit"@.push(c), key) == Some(Key::Unicode(c)),
{
    reveal_strlit("Key");
    reveal_strlit("Digit");
    reveal_strlit("Escape");
    reveal_strlit("Enter");
    reveal_strlit("Tab");
    reveal_strlit("Backspace");
    reveal_strlit("Space");
    reveal_strlit("ArrowUp");
    reveal_strlit("ArrowDown");
    reveal_strlit("ArrowLeft");
    reveal_strlit("ArrowRight");
    reveal_strlit("ShiftLeft");
    reveal_strlit("ShiftRight");
    reveal_strlit("ControlLeft");
    reveal_strlit("ControlRight");
    reveal_strlit("AltLeft");
    reveal_strlit("AltRight");
    reveal_strlit("MetaLeft");
    reveal_strlit("MetaRight");
    reveal_strlit("CapsLock");
    reveal_strlit("Delete");
    reveal_strlit("Home");
    reveal_strlit("End");
    reveal_strlit("PageUp");
    reveal_strlit("PageDown");
    reveal_strlit("F1");
    reveal_strlit("F2");
    reveal_strlit("F3");
    reveal_strlit("F4");
    reveal_strlit("F5");
    reveal_strlit("F6");
    reveal_strlit("F7");
    reveal_strlit("F8");
    reveal_strlit("F9");
    reveal_strlit("F10");
    reveal_strlit("F11");
    reveal_strlit("F12");
    let letter = "Key"@.push(c);
    let digit = "Digit"@.push(c);
    assert(letter[0] == 'K' && letter.len() == 4 && digit[0] == 'D' && digit[1] == 'i');
    assert(letter.take(3) =~= "Key"@);
    assert(digit.take(5) =~= "Digit"@);
    assert(digit[0] != 'K');
    assert(!has_prefix(digit, "Key"@)) by {
        assert(digit.take(3)[0] == 'D');
    }
    assert("Delete"@[1] == 'e');
    assert(named_key(letter) is None);
    assert(named_key(digit) is None);
}

/// The button with the given number.
pub open spec fn button_of(number: u16) -> Option<Button> {
    if number == 0 {
        Some(Button::Left)
    } else if number == 1 {
        Some(Button::Middle)
    } else if number == 2 {
        Some(Button::Right)
    } else {
        None
    }
}

pub fn map_button(number: u16) -> (button: Option<Button>)
    ensures
        button == button_of(number),
{
    match number {
        0 => Some(Button::Left),
        1 => Some(Button::Middle),
        2 => Some(Button::Right),
        _ => None,
    }
}

/// A double-precision number, kept as its IEEE 754 bit pattern.
#[derive(Clone, Copy, Debug, PartialEq, Eq, Structural)]
pub struct Real {
    pub bits: u64,
}

/// The bit pattern of 1.0.
pub const REAL_ONE: u64 = 0x3ff0_0000_0000_0000;

/// The bit pattern of infinity.
pub const REAL_INFINITY: u64 = 0x7ff0_0000_0000_0000;

/// The sign bit.
pub const REAL_SIGN: u64 = 0x8000_0000_0000_0000;

/// The number of fractions between two powers of two.
pub const REAL_UNIT: u64 = 0x10_0000_0000_0000;

impl Real {
    pub open spec fn magnitude(self) -> int {
        if self.bits >= REAL_SIGN {
            self.bits - REAL_SIGN
        } else {
            self.bits as int
        }
    }

    pub open spec fn finite(self) -> bool {
        self.magnitude() < REAL_INFINITY
    }

    /// The number that the bits stand for, in units of the smallest positive one, which is the
    /// 1074th negative power of two. Meaningful for finite numbers.
    pub open spec fn units(self) -> int {
        if self.bits >= REAL_SIGN {
            -units_of(self.magnitude(), REAL_UNIT as int)
        } else {
            units_of(self.magnitude(), REAL_UNIT as int)
        }
    }

    /// The finite number held within zero and one.
    pub open spec fn clamped(self) -> Real {
        if self.bits > REAL_SIGN {
            Real { bits: 0 }
        } else if REAL_ONE < self.bits < REAL_SIGN {
            Real { bits: REAL_ONE }
        } else {
            self
        }
    }

    pub fn is_finite(&self) -> (finite: bool)
        ensures
            finite == self.finite(),
    {
        if self.bits >= REAL_SIGN {
            self.bits - REAL_SIGN < REAL_INFINITY
        } else {
            self.bits < REAL_INFINITY
        }
    }

    /// Holds the number within zero and one.
    pub fn clamp(&self) -> (clamped: Real)
        requires
            self.finite(),
        ensures
            clamped == self.clamped(),
    {
        if self.bits > REAL_SIGN {
            Real { bits: 0 }
        } else if REAL_ONE < self.bits && self.bits < REAL_SIGN {
            Real { bits: REAL_ONE }
        } else {
            *self
        }
    }
}

/// A clamped position is the nearest number between zero and one: it lies there, and a number
/// that lies there is kept.
pub proof fn law_position_range(position: Real)
    requires
        position.finite(),
    ensures
        0 <= position.clamped().units() <= pow2(1074),
        0 <= position.units() <= pow2(1074) ==> position.clamped() == position,
        position.units() < 0 ==> position.clamped().units() == 0,
        position.units() > pow2(1074) ==> position.clamped().units() == pow2(1074),
{
    let unit = REAL_UNIT as int;
    let m = position.magnitude();
    lemma_pow2_adds(52, 1022);
    vstd::arithmetic::power2::lemma2_to64();
    lemma_pow2_adds(26, 26);
    assert(REAL_UNIT == pow2(52));
    lemma_pow2_pos(1074);
    assert(units_of(REAL_ONE as int, unit) == pow2(1074)) by {
        assert(REAL_ONE as int / unit == 1023 && REAL_ONE as int % unit == 0);
    }
    assert(units_of(0, unit) == 0);
    if m > 0 {
        lemma_units_increase(0, m, unit);
    }
    if m < REAL_ONE {
        lemma_units_increase(m, REAL_ONE as int, unit);
    } else if m > REAL_ONE {
        lemma_units_increase(REAL_ONE as int, m, unit);
    }
}

/// What a viewer asks for.
pub enum Message {
    /// Move the pointer to a place on the screen, in parts of its sides.
    MouseMove { x: Real, y: Real },
    /// Turn the wheel; the mode tells the unit.
    Wheel { delta_x: Real, delta_y: Real, delta_mode: u32 },
    KeyDown { code: String, key: String },
    KeyUp { code: String, key: String },
    MouseButton { button: u16, down: bool },
}

/// By how much a wheel's movement is multiplied to make steps.
#[derive(Clone, Copy, Debug, PartialEq, Eq, Structural)]
pub struct ScrollScale {
    pub numerator: u32,
    pub denominator: u32,
}

/// The scale of each unit: pixels, of which forty make a step, lines and pages.
pub open spec fn scale_of(delta_mode: u32) -> Option<ScrollScale> {
    if delta_mode == 0 {
        Some(ScrollScale { numerator: 1, denominator: 40 })
    } else if delta_mode == 1 {
        Some(ScrollScale { numerator: 1, denominator: 1 })
    } else if delta_mode == 2 {
        Some(ScrollScale { numerator: 24, denominator: 1 })
    } else {
        None
    }
}

pub fn scroll_scale(delta_mode: u32) -> (scale: Option<ScrollScale>)
    ensures
        scale == scale_of(delta_mode),
{
    match delta_mode {
        0 => Some(ScrollScale { numerator: 1, denominator: 40 }),
        1 => Some(ScrollScale { numerator: 1, denominator: 1 }),
        2 => Some(ScrollScale { numerator: 24, denominator: 1 }),
        _ => None,
    }
}

/// What is done to the host's pointer or keyboard.
#[derive(Clone, Copy, Debug, PartialEq, Eq, Structural)]
pub enum Command {
    /// Move the pointer to a place on the screen, in parts of its sides.
    MoveTo { x: Real, y: Real },
    /// Add to what is left of earlier scrolling, and turn the wheel by whole steps.
    Scroll { delta_x: Real, delta_y: Real, scale: ScrollScale },
    Key(Key, Direction),
    Button(Button, Direction),
}

pub open spec fn direction_of(down: bool) -> Direction {
    if down {
        Direction::Press
    } else {
        Direction::Release
    }
}

/// What a message leads to; nothing where it holds a number that is not finite, or names a
/// unit, a key or a button that is not known.
pub open spec fn command_of(message: Message) -> Option<Command> {
    match message {
        Message::MouseMove { x, y } => if x.finite() && y.finite() {
            Some(Command::MoveTo { x: x.clamped(), y: y.clamped() })
        } else {
            None
        },
        Message::Wheel { delta_x, delta_y, delta_mode } => match scale_of(delta_mode) {
            Some(scale) if delta_x.finite() && delta_y.finite() => Some(
                Command::Scroll { delta_x, delta_y, scale },
            ),
            _ => None,
        },
        Message::KeyDown { code, key } => match key_of(code@, key@) {
            Some(mapped) => Some(Command::Key(mapped, Direction::Press)),
            None => None,
        },
        Message::KeyUp { code, key } => match key_of(code@, key@) {
            Some(mapped) => Some(Command::Key(mapped, Direction::Release)),
            None => None,
        },
        Message::MouseButton { button, down } => match button_of(button) {
            Some(mapped) => Some(Command::Button(mapped, direction_of(down))),
            None => None,
        },
    }
}

/// The command for a key of a keyboard event.
fn key_event(code: &str, key: &str, direction: Direction) -> (command: Option<Command>)
    ensures
        command == match key_of(code@, key@) {
            Some(mapped) => Some(Command::Key(mapped, direction)),
            None => None,
        },
{
    match map_key(code, key) {
        Some(mapped) => Some(Command::Key(mapped, direction)),
        None => None,
    }
}

/// Decides what is done about a message.
pub fn handle(message: &Message) -> (command: Option<Command>)
    ensures
        command == command_of(*message),
{
    match message {
        Message::MouseMove { x, y } => {
            if x.is_finite() && y.is_finite() {
                Some(Command::MoveTo { x: x.clamp(), y: y.clamp() })
            } else {
                None
            }
        },
        Message::Wheel { delta_x, delta_y, delta_mode } => {
            if !delta_x.is_finite() || !delta_y.is_finite() {
                return None;
            }
            match scroll_scale(*delta_mode) {
                Some(scale) => Some(
                    Command::Scroll { delta_x: *delta_x, delta_y: *delta_y, scale },
                ),
                None => None,
            }
        },
        Message::KeyDown { code, key } => key_event(code.as_str(), key.as_str(), Direction::Press),
        Message::KeyUp { code, key } => key_event(code.as_str(), key.as_str(), Direction::Release),
        Message::MouseButton { button, down } => match map_button(*button) {
            Some(mapped) => Some(
                Command::Button(
                    mapped,
                    if *down {
                        Direction::Press
                    } else {
                        Direction::Release
                    },
                ),
            ),
            None => None,
        },
    }
}

/// A key or button that a viewer can press can be released: the message that ends the press
/// names the same key or button.
pub proof fn law_presses_can_be_released(code: String, key: String, button: u16)
    ensures
        match command_of(Message::KeyDown { code, key }) {
            Some(Command::Key(pressed, Direction::Press)) => command_of(
                Message::KeyUp { code, key },
            ) == Some(Command::Key(pressed, Direction::Release)),
            Some(_) => false,
            None => command_of(Message::KeyUp { code, key }) is None,
        },
        match command_of(Message::MouseButton { button, down: true }) {
            Some(Command::Button(pressed, Direction::Press)) => command_of(
                Message::MouseButton { button, down: false },
            ) == Some(Command::Button(pressed, Direction::Release)),
            Some(_) => false,
            None => command_of(Message::MouseButton { button, down: false }) is None,
        },
{
}

/// A screen of the host: where it lies on the desktop and how large it is.
#[derive(Clone, Copy, Debug, PartialEq, Eq, Structural)]
pub struct Display {
    pub x: i32,
    pub y: i32,
    pub width: u32,
    pub height: u32,
    pub is_primary: bool,
}

/// The first display that is the primary one, or else the first.
pub fn choose_display(displays: &Vec<Display>) -> (chosen: Option<Display>)
    ensures
        match chosen {
            Some(display) => exists|i: int|
                {
                    &&& 0 <= i < displays@.len()
                    &&& display == #[trigger] displays@[i]
                    &&& forall|j: int| 0 <= j < i ==> !(#[trigger] displays@[j]).is_primary
                    &&& display.is_primary || i == 0 && forall|j: int|
                        0 <= j < displays@.len() ==> !(#[trigger] displays@[j]).is_primary
                },
            None => displays@.len() == 0,
        },
{
    let mut i: usize = 0;
    while i < displays.len()
        invariant
            i <= displays@.len(),
            forall|j: int| 0 <= j < i ==> !(#[trigger] displays@[j]).is_primary,
        decreases displays@.len() - i,
    {
        if displays[i].is_primary {
            return Some(displays[i]);
        }
        i += 1;
    }
    if displays.len() == 0 {
        None
    } else {
        assert(displays@[0] == displays[0]);
        Some(displays[0])
    }
}

/// The last pixel of a side, counted from zero.
pub open spec fn last_pixel(side: u32) -> int {
    if side == 0 {
        0
    } else {
        side - 1
    }
}

/// The last pixels of both sides of a display, counted from zero.
pub fn extent(display: &Display) -> (extent: (u32, u32))
    ensures
        extent.0 == last_pixel(display.width),
        extent.1 == last_pixel(display.height),
{
    (
        if display.width == 0 {
            0
        } else {
            display.width - 1
        },
        if display.height == 0 {
            0
        } else {
            display.height - 1
        },
    )
}

/// A pixel of a display as a place on the desktop.
pub fn place_on(display: &Display, x: i32, y: i32) -> (place: (i32, i32))
    requires
        i32::MIN <= display.x + x <= i32::MAX,
        i32::MIN <= display.y + y <= i32::MAX,
    ensures
        place.0 == display.x + x,
        place.1 == display.y + y,
{
    (display.x + x, display.y + y)
}

/// A direction in which the wheel turns.
#[derive(Clone, Copy, Debug, PartialEq, Eq, Structural)]
pub enum Axis {
    Horizontal,
    Vertical,
}

/// The turns of the wheel for whole steps in both directions; a direction without a step is
/// left out.
pub open spec fn turns_of(horizontal: i32, vertical: i32) -> Seq<(i32, Axis)> {
    (if horizontal != 0 {
        seq![(horizontal, Axis::Horizontal)]
    } else {
        Seq::empty()
    }) + (if vertical != 0 {
        seq![(vertical, Axis::Vertical)]
    } else {
        Seq::empty()
    })
}

pub fn wheel_turns(horizontal: i32, vertical: i32) -> (turns: Vec<(i32, Axis)>)
    ensures
        turns@ == turns_of(horizontal, vertical),
{
    let mut turns: Vec<(i32, Axis)> = Vec::new();
    if horizontal != 0 {
        turns.push((horizontal, Axis::Horizontal));
    }
    if vertical != 0 {
        turns.push((vertical, Axis::Vertical));
    }
    assert(turns@ =~= turns_of(horizontal, vertical));
    turns
}

/// The codes that stand for one key whatever the layout.
pub open spec fn layout_free_codes() -> Seq<Seq<char>> {
    seq![
        "Escape"@,
        "Enter"@,
        "Tab"@,
        "Backspace"@,
        "Space"@,
        "ArrowUp"@,
        "ArrowDown"@,
        "ArrowLeft"@,
        "ArrowRight"@,
        "ShiftLeft"@,
        "ShiftRight"@,
        "ControlLeft"@,
        "ControlRight"@,
        "AltLeft"@,
        "AltRight"@,
        "MetaLeft"@,
        "MetaRight"@,
        "CapsLock"@,
        "Delete"@,
        "Home"@,
        "End"@,
        "PageUp"@,
        "PageDown"@,
        "F1"@,
        "F2"@,
        "F3"@,
        "F4"@,
        "F5"@,
        "F6"@,
        "F7"@,
        "F8"@,
        "F9"@,
        "F10"@,
        "F11"@,
        "F12"@,
    ]
}

/// The length of a code and its first and last character, by which most codes differ.
spec fn outline(code: Seq<char>) -> (int, char, char) {
    (code.len() as int, code[0], code[code.len() - 1])
}

proof fn lemma_codes_differ()
    ensures
        layout_free_codes().no_duplicates(),
{
    reveal_strlit("Escape");
    reveal_strlit("Enter");
    reveal_strlit("Tab");
    reveal_strlit("Backspace");
    reveal_strlit("Space");
    reveal_strlit("ArrowUp");
    reveal_strlit("ArrowDown");
    reveal_strlit("ArrowLeft");
    reveal_strlit("ArrowRight");
    reveal_strlit("ShiftLeft");
    reveal_strlit("ShiftRight");
    reveal_strlit("ControlLeft");
    reveal_strlit("ControlRight");
    reveal_strlit("AltLeft");
    reveal_strlit("AltRight");
    reveal_strlit("MetaLeft");
    reveal_strlit("MetaRight");
    reveal_strlit("CapsLock");
    reveal_strlit("Delete");
    reveal_strlit("Home");
    reveal_strlit("End");
    reveal_strlit("PageUp");
    reveal_strlit("PageDown");
    reveal_strlit("F1");
    reveal_strlit("F2");
    reveal_strlit("F3");
    reveal_strlit("F4");
    reveal_strlit("F5");
    reveal_strlit("F6");
    reveal_strlit("F7");
    reveal_strlit("F8");
    reveal_strlit("F9");
    reveal_strlit("F10");
    reveal_strlit("F11");
    reveal_strlit("F12");
    let codes = layout_free_codes();
    assert forall|i: int, j: int| 0 <= i < j < codes.len() implies codes[i] != codes[j] by {
        assert(outline(codes[i]) != outline(codes[j]) || codes[i][4] != codes[j][4]
            || codes[i][1] != codes[j][1]);
    }
}

/// Every code of a named key is the key of that name, whatever `key` says: both keys of a pair
/// of modifiers are that modifier, and all others are keys of their own.
pub proof fn law_named_keys_go_by_code(key: Seq<char>)
    ensures
        key_of("Escape"@, key) == Some(Key::Escape),
        key_of("Enter"@, key) == Some(Key::Return),
        key_of("Tab"@, key) == Some(Key::Tab),
        key_of("Backspace"@, key) == Some(Key::Backspace),
        key_of("Space"@, key) == Some(Key::Space),
        key_of("ArrowUp"@, key) == Some(Key::UpArrow),
        key_of("ArrowDown"@, key) == Some(Key::DownArrow),
        key_of("ArrowLeft"@, key) == Some(Key::LeftArrow),
        key_of("ArrowRight"@, key) == Some(Key::RightArrow),
        key_of("ShiftLeft"@, key) == Some(Key::Shift),
        key_of("ShiftRight"@, key) == Some(Key::Shift),
        key_of("ControlLeft"@, key) == Some(Key::Control),
        key_of("ControlRight"@, key) == Some(Key::Control),
        key_of("AltLeft"@, key) == Some(Key::Alt),
        key_of("AltRight"@, key) == Some(Key::Alt),
        key_of("MetaLeft"@, key) == Some(Key::Meta),
        key_of("MetaRight"@, key) == Some(Key::Meta),
        key_of("CapsLock"@, key) == Some(Key::CapsLock),
        key_of("Delete"@, key) == Some(Key::Delete),
        key_of("Home"@, key) == Some(Key::Home),
        key_of("End"@, key) == Some(Key::End),
        key_of("PageUp"@, key) == Some(Key::PageUp),
        key_of("PageDown"@, key) == Some(Key::PageDown),
        key_of("F1"@, key) == Some(Key::F1),
        key_of("F2"@, key) == Some(Key::F2),
        key_of("F3"@, key) == Some(Key::F3),
        key_of("F4"@, key) == Some(Key::F4),
        key_of("F5"@, key) == Some(Key::F5),
        key_of("F6"@, key) == Some(Key::F6),
        key_of("F7"@, key) == Some(Key::F7),
        key_of("F8"@, key) == Some(Key::F8),
        key_of("F9"@, key) == Some(Key::F9),
        key_of("F10"@, key) == Some(Key::F10),
        key_of("F11"@, key) == Some(Key::F11),
        key_of("F12"@, key) == Some(Key::F12),
{
    lemma_codes_differ();
    let codes = layout_free_codes();
    assert forall|i: int, j: int| 0 <= i < j < codes.len() implies codes[i] != codes[j] by {}
}

/// Codes that name no key, letter or digit do not matter: the key is the one that types the
/// character, where it types just one.
pub proof fn law_other_keys_go_by_what_they_type(code: Seq<char>, key: Seq<char>)
    requires
        !layout_free_codes().contains(code),
        forall|c: char| c < 128 ==> code != #[trigger] "Key"@.push(c),
        forall|c: char| c < 128 ==> code != #[trigger] "Digit"@.push(c),
    ensures
        key.len() == 1 ==> key_of(code, key) == Some(Key::Unicode(key[0])),
        key.len() != 1 ==> key_of(code, key) is None,
{
    let codes = layout_free_codes();
    assert forall|i: int| 0 <= i < codes.len() implies #[trigger] codes[i] != code by {
        assert(codes.contains(codes[i]));
    }
    assert(codes[0] != code && codes[1] != code && codes[2] != code && codes[3] != code);
    assert(codes[4] != code && codes[5] != code && codes[6] != code && codes[7] != code);
    assert(codes[8] != code && codes[9] != code && codes[10] != code && codes[11] != code);
    assert(codes[12] != code && codes[13] != code && codes[14] != code && codes[15] != code);
    assert(codes[16] != code && codes[17] != code && codes[18] != code && codes[19] != code);
    assert(codes[20] != code && codes[21] != code && codes[22] != code && codes[23] != code);
    assert(codes[24] != code && codes[25] != code && codes[26] != code && codes[27] != code);
    assert(codes[28] != code && codes[29] != code && codes[30] != code && codes[31] != code);
    assert(codes[32] != code && codes[33] != code && codes[34] != code);
    if followed_by_ascii(code, "Key"@) {
        assert(code =~= "Key"@.push(code.last()));
    }
    if followed_by_ascii(code, "Digit"@) {
        assert(code =~= "Digit"@.push(code.last()));
    }
}

/// The buttons of the pointer by their numbers: the main one, the wheel and the other one. There
/// are no more.
pub proof fn law_buttons_go_by_number(number: u16)
    ensures
        button_of(number) == Some(Button::Left) <==> number == 0,
        button_of(number) == Some(Button::Middle) <==> number == 1,
        button_of(number) == Some(Button::Right) <==> number == 2,
        button_of(number) is None <==> number > 2,
{
}

/// Numbers are finite unless their exponent is full.
pub proof fn law_finite_numbers(number: Real)
    ensures
        number.finite() <==> number.bits & 0x7ff0_0000_0000_0000 != 0x7ff0_0000_0000_0000,
{
    let bits = number.bits;
    assert((bits & 0x7ff0_0000_0000_0000 != 0x7ff0_0000_0000_0000) <==> (if bits
        >= 0x8000_0000_0000_0000 {
        bits - 0x8000_0000_0000_0000 < 0x7ff0_0000_0000_0000
    } else {
        bits < 0x7ff0_0000_0000_0000
    })) by (bit_vector);
}

/// The pointer goes where it is sent: each part of the screen's sides as it is given where it
/// lies between zero and one, else to the nearer end; and nowhere where one of them is no finite
/// number.
pub proof fn law_pointer_goes_where_it_is_sent(x: Real, y: Real)
    ensures
        match command_of(Message::MouseMove { x, y }) {
            Some(Command::MoveTo { x: to_x, y: to_y }) => {
                &&& x.finite() && y.finite()
                &&& 0 <= x.units() <= pow2(1074) ==> to_x == x
                &&& x.units() < 0 ==> to_x.units() == 0
                &&& x.units() > pow2(1074) ==> to_x.units() == pow2(1074)
                &&& 0 <= y.units() <= pow2(1074) ==> to_y == y
                &&& y.units() < 0 ==> to_y.units() == 0
                &&& y.units() > pow2(1074) ==> to_y.units() == pow2(1074)
            },
            Some(_) => false,
            None => !x.finite() || !y.finite(),
        },
{
    if x.finite() && y.finite() {
        law_position_range(x);
        law_position_range(y);
    }
}

/// The wheel turns as it was turned: by the movement that was sent, in steps of forty pixels, of
/// a line, or of a twenty-fourth of a page; and not at all where the unit is another or a number
/// is not finite.
pub proof fn law_wheel_turns_as_it_was_turned(delta_x: Real, delta_y: Real, delta_mode: u32)
    ensures
        match command_of(Message::Wheel { delta_x, delta_y, delta_mode }) {
            Some(Command::Scroll { delta_x: x, delta_y: y, scale }) => {
                &&& delta_x.finite() && delta_y.finite()
                &&& x == delta_x && y == delta_y
                &&& scale.denominator > 0
                &&& delta_mode == 0 ==> 40 * scale.numerator == scale.denominator
                &&& delta_mode == 1 ==> scale.numerator == scale.denominator
                &&& delta_mode == 2 ==> scale.numerator == 24 * scale.denominator
                &&& delta_mode <= 2
            },
            Some(_) => false,
            None => !delta_x.finite() || !delta_y.finite() || delta_mode > 2,
        },
{
}

/// A key or button goes down where it went down and up where it went up, and it is the one of the
/// message.
pub proof fn law_keys_and_buttons_follow(code: String, key: String, button: u16, down: bool)
    ensures
        match command_of(Message::KeyDown { code, key }) {
            Some(Command::Key(pressed, direction)) => direction is Press && key_of(code@, key@)
                == Some(pressed),
            Some(_) => false,
            None => key_of(code@, key@) is None,
        },
        match command_of(Message::KeyUp { code, key }) {
            Some(Command::Key(released, direction)) => direction is Release && key_of(
                code@,
                key@,
            ) == Some(released),
            Some(_) => false,
            None => key_of(code@, key@) is None,
        },
        match command_of(Message::MouseButton { button, down }) {
            Some(Command::Button(moved, direction)) => {
                &&& direction is Press <==> down
                &&& moved is Left <==> button == 0
                &&& moved is Middle <==> button == 1
                &&& moved is Right <==> button == 2
            },
            Some(_) => false,
            None => button > 2,
        },
{
}

/// The wheel turns in each direction in which there are steps, by all of them, and in no other;
/// sideways first.
pub proof fn law_wheel_turns_make_up_the_steps(horizontal: i32, vertical: i32, i: int)
    ensures
        ({
            let turns = turns_of(horizontal, vertical);
            &&& turns.contains((horizontal, Axis::Horizontal)) <==> horizontal != 0
            &&& turns.contains((vertical, Axis::Vertical)) <==> vertical != 0
            &&& turns.len() <= 2
            &&& 0 <= i < turns.len() ==> turns[i] == (horizontal, Axis::Horizontal) || turns[i] == (
            vertical, Axis::Vertical)
            &&& turns.len() == 2 ==> turns[0].1 is Horizontal && turns[1].1 is Vertical
        }),
{
    let turns = turns_of(horizontal, vertical);
    if horizontal != 0 {
        assert(turns[0] == (horizontal, Axis::Horizontal));
    }
    if vertical != 0 {
        assert(turns[turns.len() - 1] == (vertical, Axis::Vertical));
    }
}

/// The pixels of a side run from zero to the last one.
pub proof fn law_last_pixels_end_their_sides(side: u32)
    ensures
        side > 0 ==> last_pixel(side) + 1 == side,
        side == 0 ==> last_pixel(side) == 0,
{
}

/// Codes of letters and digits go by the character behind their name where it is one of ASCII:
/// a small letter for a capital one, every other character as it is.
pub proof fn law_characters_go_by_code(c: char, key: Seq<char>)
    requires
        c < 128,
    ensures
        !('A' <= c <= 'Z') ==> key_of("Key"@.push(c), key) == Some(Key::Unicode(c)),
        key_of("Digit"@.push(c), key) == Some(Key::Unicode(c)),
{
    let letter = "Key"@.push(c);
    let digit = "Digit"@.push(c);
    reveal_strlit("Key");
    reveal_strlit("Digit");
    lemma_codes_begin();
    assert(letter.take(3) =~= "Key"@);
    assert(digit.take(5) =~= "Digit"@);
    assert(!has_prefix(digit, "Key"@)) by {
        assert(digit.take(3)[0] == 'D');
    }
    assert(letter[0] == 'K' && digit[0] == 'D' && digit[1] == 'i');
}

/// No code of a named key begins like that of a letter or a digit.
proof fn lemma_codes_begin()
    ensures
        forall|code: Seq<char>|
            #![trigger named_key(code)]
            code.len() >= 2 && (code[0] == 'K' || code[0] == 'D' && code[1] == 'i') ==> named_key(
                code,
            ) is None,
{
    reveal_strlit("Escape");
    reveal_strlit("Enter");
    reveal_strlit("Tab");
    reveal_strlit("Backspace");
    reveal_strlit("Space");
    reveal_strlit("ArrowUp");
    reveal_strlit("ArrowDown");
    reveal_strlit("ArrowLeft");
    reveal_strlit("ArrowRight");
    reveal_strlit("ShiftLeft");
    reveal_strlit("ShiftRight");
    reveal_strlit("ControlLeft");
    reveal_strlit("ControlRight");
    reveal_strlit("AltLeft");
    reveal_strlit("AltRight");
    reveal_strlit("MetaLeft");
    reveal_strlit("MetaRight");
    reveal_strlit("CapsLock");
    reveal_strlit("Delete");
    reveal_strlit("Home");
    reveal_strlit("End");
    reveal_strlit("PageUp");
    reveal_strlit("PageDown");
    reveal_strlit("F1");
    reveal_strlit("F2");
    reveal_strlit("F3");
    reveal_strlit("F4");
    reveal_strlit("F5");
    reveal_strlit("F6");
    reveal_strlit("F7");
    reveal_strlit("F8");
    reveal_strlit("F9");
    reveal_strlit("F10");
    reveal_strlit("F11");
    reveal_strlit("F12");
}

} // verus!
