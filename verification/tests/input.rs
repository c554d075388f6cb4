use beam::input::{
    choose_display, extent, handle, map_button, map_key, place_on, scroll_scale, wheel_turns, Axis,
    Button, Command, Direction, Display, Key, Message, Real, ScrollScale,
};

fn number(value: f64) -> Real {
    Real { bits: value.to_bits() }
}

#[test]
fn keys_are_known_by_code() {
    let named = [
        ("Escape", Key::Escape),
        ("Enter", Key::Return),
        ("Space", Key::Space),
        ("ArrowLeft", Key::LeftArrow),
        ("ShiftLeft", Key::Shift),
        ("ShiftRight", Key::Shift),
        ("MetaRight", Key::Meta),
        ("End", Key::End),
        ("F1", Key::F1),
        ("F10", Key::F10),
        ("F12", Key::F12),
    ];
    for (code, key) in named {
        assert_eq!(map_key(code, "x"), Some(key));
    }
    assert_eq!(map_key("KeyQ", "a"), Some(Key::Unicode('q')));
    assert_eq!(map_key("Digit7", "/"), Some(Key::Unicode('7')));
    assert_eq!(map_key("Key_", "a"), Some(Key::Unicode('_')));
}

#[test]
fn other_keys_are_known_by_what_they_type() {
    assert_eq!(map_key("Semicolon", "\u{f6}"), Some(Key::Unicode('\u{f6}')));
    assert_eq!(map_key("F13", "F13"), None);
    assert_eq!(map_key("Unidentified", ""), None);
    assert_eq!(map_key("Key\u{e9}", "k"), Some(Key::Unicode('k')));
    assert_eq!(map_key("KeyAB", "k"), Some(Key::Unicode('k')));
    assert_eq!(map_key("Digit", "5"), Some(Key::Unicode('5')));
}

#[test]
fn buttons_are_numbered() {
    assert_eq!(map_button(0), Some(Button::Left));
    assert_eq!(map_button(1), Some(Button::Middle));
    assert_eq!(map_button(2), Some(Button::Right));
    assert_eq!(map_button(3), None);
}

#[test]
fn presses_are_released() {
    let down = Message::KeyDown { code: "KeyA".to_string(), key: "A".to_string() };
    let up = Message::KeyUp { code: "KeyA".to_string(), key: "A".to_string() };
    assert_eq!(handle(&down), Some(Command::Key(Key::Unicode('a'), Direction::Press)));
    assert_eq!(handle(&up), Some(Command::Key(Key::Unicode('a'), Direction::Release)));
    let press = Message::MouseButton { button: 2, down: true };
    let release = Message::MouseButton { button: 2, down: false };
    assert_eq!(handle(&press), Some(Command::Button(Button::Right, Direction::Press)));
    assert_eq!(handle(&release), Some(Command::Button(Button::Right, Direction::Release)));
    assert_eq!(handle(&Message::MouseButton { button: 9, down: true }), None);
    let unknown = Message::KeyDown { code: "Fn".to_string(), key: "Fn".to_string() };
    assert_eq!(handle(&unknown), None);
}

#[test]
fn positions_are_clamped_like_numbers() {
    let values = [0.0, -0.0, 0.5, 1.0, 1.0000000000000002, 7.0, -0.1, -1e300, 1e300, 5e-324];
    for x in values {
        match handle(&Message::MouseMove { x: number(x), y: number(0.25) }) {
            Some(Command::MoveTo { x: clamped, y }) => {
                assert_eq!(clamped.bits, x.clamp(0.0, 1.0).to_bits());
                assert_eq!(y, number(0.25));
            }
            _ => panic!("the position is finite"),
        }
    }
    for x in [f64::NAN, f64::INFINITY, f64::NEG_INFINITY, -f64::NAN] {
        assert_eq!(handle(&Message::MouseMove { x: number(x), y: number(0.0) }), None);
        assert_eq!(handle(&Message::MouseMove { x: number(0.0), y: number(x) }), None);
    }
}

#[test]
fn wheels_have_units() {
    let wheel = |delta_mode: u32| {
        handle(&Message::Wheel { delta_x: number(-3.0), delta_y: number(4.0), delta_mode })
    };
    let scroll = |numerator: u32, denominator: u32| {
        Some(Command::Scroll {
            delta_x: number(-3.0),
            delta_y: number(4.0),
            scale: ScrollScale { numerator, denominator },
        })
    };
    assert_eq!(wheel(0), scroll(1, 40));
    assert_eq!(wheel(1), scroll(1, 1));
    assert_eq!(wheel(2), scroll(24, 1));
    assert_eq!(wheel(3), None);
    assert_eq!(scroll_scale(7), None);
    let endless = Message::Wheel { delta_x: number(f64::INFINITY), delta_y: number(0.0), delta_mode: 0 };
    assert_eq!(handle(&endless), None);
    assert_eq!(wheel_turns(0, 0), vec![]);
    assert_eq!(wheel_turns(-2, 3), vec![(-2, Axis::Horizontal), (3, Axis::Vertical)]);
    assert_eq!(wheel_turns(0, 1), vec![(1, Axis::Vertical)]);
}

fn display(x: i32, is_primary: bool) -> Display {
    Display { x, y: -5, width: 800, height: 600, is_primary }
}

#[test]
fn primary_displays_are_preferred() {
    assert_eq!(choose_display(&vec![]), None);
    let plain = vec![display(1, false), display(2, false)];
    assert_eq!(choose_display(&plain).unwrap().x, 1);
    let marked = vec![display(1, false), display(2, true), display(3, true)];
    assert_eq!(choose_display(&marked).unwrap().x, 2);
}

#[test]
fn pixels_are_placed_on_the_desktop() {
    let chosen = display(100, true);
    assert_eq!(extent(&chosen), (799, 599));
    assert_eq!(place_on(&chosen, 799, 0), (899, -5));
    let flat = Display { width: 0, height: 1, ..chosen };
    assert_eq!(extent(&flat), (0, 0));
}
