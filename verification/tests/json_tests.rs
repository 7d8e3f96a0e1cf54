use std::time::Duration;

use remote_ctl::events::{
    EventDuration, InputEvent, Key, KeyboardAction, KeyboardEvent, MouseButton, MouseButtonAction,
    MouseButtonEvent, MouseEvent, MouseMoveEvent, MouseMoveOrigin, MouseScrollDir,
    MouseScrollEvent,
};
use remote_ctl::volume::{DeciBel, LinVolt, VolumeLevel};

fn wire_duration(d: Duration) -> EventDuration {
    EventDuration { secs: d.as_secs(), nanos: d.subsec_nanos() }
}

#[test]
fn key_up() {
    let event = InputEvent::Keyboard(KeyboardEvent {
        action: KeyboardAction::Up,
        key: Key::Alt,
    });
    assert_eq!(event.to_json(), r#"{"Keyboard":{"action":"Up","key":"Alt"}}"#);
}

#[test]
fn key_click() {
    let event = InputEvent::Keyboard(KeyboardEvent {
        action: KeyboardAction::Click(wire_duration(Duration::from_millis(100))),
        key: Key::Alt,
    });
    assert_eq!(
        event.to_json(),
        r#"{"Keyboard":{"action":{"Click":{"secs":0,"nanos":100000000}},"key":"Alt"}}"#
    );
}

#[test]
fn audio() {
    let event = InputEvent::Volume(VolumeLevel::Frac(500_000));
    assert_eq!(event.to_json(), r#"{"Volume":{"Frac":0.5}}"#);
}

#[test]
fn mouse() {
    let event = InputEvent::Mouse(MouseEvent::Move(MouseMoveEvent {
        origin: MouseMoveOrigin::Rel,
        x: 10,
        y: 15,
    }));
    assert_eq!(event.to_json(), r#"{"Mouse":{"Move":{"origin":"Rel","x":10,"y":15}}}"#);
}

#[test]
fn volume_log_negative() {
    let event = InputEvent::Volume(VolumeLevel::Log(DeciBel(-20_500_000)));
    assert_eq!(event.to_json(), r#"{"Volume":{"Log":-20.5}}"#);
}

#[test]
fn volume_lin_whole_number() {
    let event = InputEvent::Volume(VolumeLevel::Lin(LinVolt(1_000_000)));
    assert_eq!(event.to_json(), r#"{"Volume":{"Lin":1.0}}"#);
}

#[test]
fn volume_frac_many_digits() {
    let event = InputEvent::Volume(VolumeLevel::Frac(123_450));
    assert_eq!(event.to_json(), r#"{"Volume":{"Frac":0.12345}}"#);
}

#[test]
fn mouse_button_click() {
    let event = InputEvent::Mouse(MouseEvent::Button(MouseButtonEvent {
        action: MouseButtonAction::Click(wire_duration(Duration::from_millis(5))),
        button: MouseButton::Left,
    }));
    assert_eq!(
        event.to_json(),
        r#"{"Mouse":{"Button":{"action":{"Click":{"secs":0,"nanos":5000000}},"button":"Left"}}}"#
    );
}

#[test]
fn mouse_scroll_negative() {
    let event = InputEvent::Mouse(MouseEvent::Scroll(MouseScrollEvent {
        dir: MouseScrollDir::Hor,
        len: -3,
    }));
    assert_eq!(event.to_json(), r#"{"Mouse":{"Scroll":{"dir":"Hor","len":-3}}}"#);
}

#[test]
fn key_layout_and_raw() {
    let layout = InputEvent::Keyboard(KeyboardEvent {
        action: KeyboardAction::Down,
        key: Key::Layout('a'),
    });
    assert_eq!(
        layout.to_json(),
        r#"{"Keyboard":{"action":"Down","key":{"Layout":"a"}}}"#
    );
    let raw = InputEvent::Keyboard(KeyboardEvent {
        action: KeyboardAction::Up,
        key: Key::Raw(30),
    });
    assert_eq!(raw.to_json(), r#"{"Keyboard":{"action":"Up","key":{"Raw":30}}}"#);
}

#[test]
fn key_layout_escapes() {
    let quote = InputEvent::Keyboard(KeyboardEvent {
        action: KeyboardAction::Down,
        key: Key::Layout('"'),
    });
    assert_eq!(
        quote.to_json(),
        "{\"Keyboard\":{\"action\":\"Down\",\"key\":{\"Layout\":\"\\\"\"}}}"
    );
    let newline = InputEvent::Keyboard(KeyboardEvent {
        action: KeyboardAction::Down,
        key: Key::Layout('\n'),
    });
    assert_eq!(
        newline.to_json(),
        "{\"Keyboard\":{\"action\":\"Down\",\"key\":{\"Layout\":\"\\n\"}}}"
    );
}

#[test]
fn encoder_agrees_with_serde_json() {
    let event = InputEvent::Mouse(MouseEvent::Move(MouseMoveEvent {
        origin: MouseMoveOrigin::Abs,
        x: -7,
        y: 42,
    }));
    let value: serde_json::Value = serde_json::from_str(&event.to_json()).unwrap();
    assert_eq!(value["Mouse"]["Move"]["origin"], serde_json::Value::String("Abs".to_string()));
    assert_eq!(value["Mouse"]["Move"]["x"], serde_json::Value::from(-7));
    assert_eq!(value["Mouse"]["Move"]["y"], serde_json::Value::from(42));

    let volume = InputEvent::Volume(VolumeLevel::Frac(250_000));
    let value: serde_json::Value = serde_json::from_str(&volume.to_json()).unwrap();
    assert_eq!(value["Volume"]["Frac"], serde_json::Value::from(0.25));
}

#[test]
fn decode_round_trips() {
    let events = [
        InputEvent::Keyboard(KeyboardEvent { action: KeyboardAction::Up, key: Key::Alt }),
        InputEvent::Keyboard(KeyboardEvent {
            action: KeyboardAction::Click(wire_duration(Duration::from_millis(100))),
            key: Key::Alt,
        }),
        InputEvent::Volume(VolumeLevel::Frac(500_000)),
        InputEvent::Volume(VolumeLevel::Log(DeciBel(-20_500_000))),
        InputEvent::Volume(VolumeLevel::Lin(LinVolt(1_000_000))),
        InputEvent::Mouse(MouseEvent::Move(MouseMoveEvent {
            origin: MouseMoveOrigin::Rel,
            x: 10,
            y: 15,
        })),
        InputEvent::Mouse(MouseEvent::Scroll(MouseScrollEvent {
            dir: MouseScrollDir::Ver,
            len: -2,
        })),
        InputEvent::Mouse(MouseEvent::Button(MouseButtonEvent {
            action: MouseButtonAction::Down,
            button: MouseButton::Right,
        })),
        InputEvent::Keyboard(KeyboardEvent {
            action: KeyboardAction::Down,
            key: Key::Layout('x'),
        }),
        InputEvent::Keyboard(KeyboardEvent { action: KeyboardAction::Up, key: Key::Raw(30) }),
    ];
    for event in events {
        assert_eq!(InputEvent::from_json(&event.to_json()), Some(event));
    }
}

#[test]
fn decode_rejects_malformed_text() {
    assert_eq!(InputEvent::from_json(""), None);
    assert_eq!(InputEvent::from_json("{"), None);
    assert_eq!(InputEvent::from_json("{\"Sound\":{\"Frac\":0.5}}"), None);
    assert_eq!(InputEvent::from_json("{\"Volume\":{\"Frac\":0.5}}trailing"), None);
    assert_eq!(InputEvent::from_json("{\"Volume\":{\"Frac\":}}"), None);
    assert_eq!(InputEvent::from_json("{\"Keyboard\":{\"action\":\"Up\",\"key\":\"NoSuchKey\"}}"), None);
}

#[test]
fn decode_rejects_non_canonical_spelling() {
    // The value is fine, but the text is not the canonical form.
    assert_eq!(InputEvent::from_json("{\"Volume\":{\"Frac\":0.50}}"), None);
    assert_eq!(InputEvent::from_json("{ \"Volume\":{\"Frac\":0.5}}"), None);
}

#[test]
fn decode_canonical_texts_directly() {
    // Success on canonical text is part of the decoder's contract for
    // volume and mouse-move events.
    assert_eq!(
        InputEvent::from_json(r#"{"Volume":{"Frac":0.5}}"#),
        Some(InputEvent::Volume(VolumeLevel::Frac(500_000)))
    );
    assert_eq!(
        InputEvent::from_json(r#"{"Volume":{"Log":-20.5}}"#),
        Some(InputEvent::Volume(VolumeLevel::Log(DeciBel(-20_500_000))))
    );
    assert_eq!(
        InputEvent::from_json(r#"{"Mouse":{"Move":{"origin":"Rel","x":10,"y":15}}}"#),
        Some(InputEvent::Mouse(MouseEvent::Move(MouseMoveEvent {
            origin: MouseMoveOrigin::Rel,
            x: 10,
            y: 15,
        })))
    );
    assert_eq!(
        InputEvent::from_json(r#"{"Keyboard":{"action":"Up","key":"Alt"}}"#),
        Some(InputEvent::Keyboard(KeyboardEvent { action: KeyboardAction::Up, key: Key::Alt }))
    );
}
