use chatey::screen::{alignment_for, next_scroll_position, Alignment};
use chatey::{handle_input_event, HandlingSignal, InputEvent};

#[test]
fn characters_are_typed_and_erased() {
    let mut buf = Vec::new();
    let mut scroll = 0i8;
    assert_eq!(handle_input_event(InputEvent::Key { ch: 'h', control: false }, &mut buf, &mut scroll), HandlingSignal::Continue);
    assert_eq!(handle_input_event(InputEvent::Key { ch: 'c', control: false }, &mut buf, &mut scroll), HandlingSignal::Continue);
    assert_eq!(handle_input_event(InputEvent::Key { ch: 'x', control: true }, &mut buf, &mut scroll), HandlingSignal::Continue);
    assert_eq!(buf, vec!['h', 'c', 'x']);
    assert_eq!(handle_input_event(InputEvent::Backspace, &mut buf, &mut scroll), HandlingSignal::Continue);
    assert_eq!(buf, vec!['h', 'c']);
    let mut empty: Vec<char> = Vec::new();
    assert_eq!(handle_input_event(InputEvent::Backspace, &mut empty, &mut scroll), HandlingSignal::Continue);
    assert!(empty.is_empty());
    assert_eq!(scroll, 0);
}

#[test]
fn enter_ends_the_line_and_quits_quit() {
    let mut buf = vec!['a'];
    let mut scroll = 0i8;
    assert_eq!(handle_input_event(InputEvent::Enter, &mut buf, &mut scroll), HandlingSignal::End);
    assert_eq!(handle_input_event(InputEvent::Escape, &mut buf, &mut scroll), HandlingSignal::Quit);
    assert_eq!(handle_input_event(InputEvent::Key { ch: 'c', control: true }, &mut buf, &mut scroll), HandlingSignal::Quit);
    assert_eq!(handle_input_event(InputEvent::Failed, &mut buf, &mut scroll), HandlingSignal::Quit);
    assert_eq!(handle_input_event(InputEvent::Ignored, &mut buf, &mut scroll), HandlingSignal::Continue);
    assert_eq!(buf, vec!['a']);
}

#[test]
fn the_wheel_sets_the_scroll_move() {
    let mut buf = Vec::new();
    let mut scroll = 0i8;
    handle_input_event(InputEvent::ScrollUp, &mut buf, &mut scroll);
    assert_eq!(scroll, 1);
    handle_input_event(InputEvent::ScrollDown, &mut buf, &mut scroll);
    assert_eq!(scroll, -1);
}

#[test]
fn scroll_position_is_bounded() {
    assert_eq!(next_scroll_position(0, -1, 100), 0);
    assert_eq!(next_scroll_position(0, 1, 100), 1);
    assert_eq!(next_scroll_position(5, 1, 10), 2);
    assert_eq!(next_scroll_position(3, 0, 5), 0);
    assert_eq!(next_scroll_position(10, -1, 100), 9);
    assert_eq!(next_scroll_position(65535, 1, 1_000_000), 65535);
    assert_eq!(next_scroll_position(usize::MAX, -128, usize::MAX), 65535);
    assert_eq!(next_scroll_position(40, 127, 200), 167);
}

#[test]
fn messages_are_placed_by_sender() {
    assert_eq!(alignment_for(&"You".to_string()), Alignment::Right);
    assert_eq!(alignment_for(&"SYSTEM".to_string()), Alignment::Center);
    assert_eq!(alignment_for(&"Alice".to_string()), Alignment::Left);
}
