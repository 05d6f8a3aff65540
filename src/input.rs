//! What the chat client does with one terminal event: edit the line being
//! typed, move the view, send the line, or quit.
use vstd::prelude::*;

verus! {

/// What the client does after an event.
#[derive(Clone, Copy, Debug, PartialEq, Eq, Structural)]
pub enum HandlingSignal {
    /// Keep reading events.
    Continue,
    /// The line is done: send it.
    End,
    /// Leave the chat.
    Quit,
}

/// One terminal event, as far as the client reads it.
#[derive(Clone, Copy, Debug, PartialEq, Eq, Structural)]
pub enum InputEvent {
    Escape,
    /// A character key; `control` is whether Control, and no other modifier, was held.
    Key { ch: char, control: bool },
    Backspace,
    Enter,
    ScrollDown,
    ScrollUp,
    /// Any other key or mouse event, or a resize.
    Ignored,
    /// The event stream failed or ended.
    Failed,
}

/// Applies `event` to the line being typed (`buffer`) and to the pending scroll
/// move (`scroll`): a character is added, Backspace takes the last one off, the
/// wheel sets the move to one step down (-1) or up (1). Enter ends the line;
/// Escape, Control-C and a failed stream quit.
pub fn handle_input_event(event: InputEvent, buffer: &mut Vec<char>, scroll: &mut i8) -> (r: HandlingSignal)
    ensures
        match event {
            InputEvent::Key { ch, control } => if ch == 'c' && control {
                &&& r == HandlingSignal::Quit
                &&& final(buffer)@ == old(buffer)@
                &&& *final(scroll) == *old(scroll)
            } else {
                &&& r == HandlingSignal::Continue
                &&& final(buffer)@ == old(buffer)@.push(ch)
                &&& *final(scroll) == *old(scroll)
            },
            InputEvent::Backspace => {
                &&& r == HandlingSignal::Continue
                &&& final(buffer)@ == if old(buffer)@.len() > 0 {
                    old(buffer)@.drop_last()
                } else {
                    old(buffer)@
                }
                &&& *final(scroll) == *old(scroll)
            },
            InputEvent::ScrollDown => {
                &&& r == HandlingSignal::Continue
                &&& final(buffer)@ == old(buffer)@
                &&& *final(scroll) == -1
            },
            InputEvent::ScrollUp => {
                &&& r == HandlingSignal::Continue
                &&& final(buffer)@ == old(buffer)@
                &&& *final(scroll) == 1
            },
            InputEvent::Enter => {
                &&& r == HandlingSignal::End
                &&& final(buffer)@ == old(buffer)@
                &&& *final(scroll) == *old(scroll)
            },
            InputEvent::Ignored => {
                &&& r == HandlingSignal::Continue
                &&& final(buffer)@ == old(buffer)@
                &&& *final(scroll) == *old(scroll)
            },
            InputEvent::Escape | InputEvent::Failed => {
                &&& r == HandlingSignal::Quit
                &&& final(buffer)@ == old(buffer)@
                &&& *final(scroll) == *old(scroll)
            },
        },
{
    match event {
        InputEvent::Escape => HandlingSignal::Quit,
        InputEvent::Key { ch, control } => {
            if ch == 'c' && control {
                return HandlingSignal::Quit;
            }
            buffer.push(ch);
            HandlingSignal::Continue
        },
        InputEvent::Backspace => {
            let _ = buffer.pop();
            HandlingSignal::Continue
        },
        InputEvent::Enter => HandlingSignal::End,
        InputEvent::ScrollDown => {
            *scroll = -1;
            HandlingSignal::Continue
        },
        InputEvent::ScrollUp => {
            *scroll = 1;
            HandlingSignal::Continue
        },
        InputEvent::Ignored => HandlingSignal::Continue,
        InputEvent::Failed => HandlingSignal::Quit,
    }
}

} // verus!
