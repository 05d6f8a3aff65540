//! Where the chat client's view of the history stands, and how each message
//! is placed.
use vstd::prelude::*;

use crate::message::SYSTEM_NAME;

verus! {

/// How many messages the chat view shows at once.
pub const MAX_MESSAGES_ON_SCREEN: usize = 8;

/// The farthest the view may be scrolled back.
pub const MAX_SCROLL: usize = 65535;

/// The name under which the client shows its own messages.
pub const CLIENT_NAME: &'static str = "You";

/// `x` held within `lo..=hi`.
pub open spec fn clamp(x: int, lo: int, hi: int) -> int {
    if x < lo {
        lo
    } else if x > hi {
        hi
    } else {
        x
    }
}

/// The scroll position once `movement` is applied to `position`: never below
/// zero, never past `MAX_SCROLL`, and never so far back that fewer than a full
/// screen of the `history_len` messages would show.
pub open spec fn scroll_target(position: int, movement: int, history_len: int) -> int {
    let moved = clamp(position + movement, 0, MAX_SCROLL as int);
    let furthest = clamp(history_len - MAX_MESSAGES_ON_SCREEN as int, 0, MAX_SCROLL as int);
    if moved < furthest {
        moved
    } else {
        furthest
    }
}

/// The scroll position once `movement` is applied, as `scroll_target` says.
pub fn next_scroll_position(position: usize, movement: i8, history_len: usize) -> (r: usize)
    ensures
        r as int == scroll_target(position as int, movement as int, history_len as int),
{
    let moved: usize = if movement < 0 {
        let back = (-(movement as i16)) as usize;
        if position < back {
            0
        } else if position - back > MAX_SCROLL {
            MAX_SCROLL
        } else {
            position - back
        }
    } else {
        let ahead = movement as usize;
        if position >= MAX_SCROLL || MAX_SCROLL - position < ahead {
            MAX_SCROLL
        } else {
            position + ahead
        }
    };
    let furthest: usize = if history_len < MAX_MESSAGES_ON_SCREEN {
        0
    } else if history_len - MAX_MESSAGES_ON_SCREEN > MAX_SCROLL {
        MAX_SCROLL
    } else {
        history_len - MAX_MESSAGES_ON_SCREEN
    };
    if moved < furthest {
        moved
    } else {
        furthest
    }
}

/// Where a message is placed across the view.
#[derive(Clone, Copy, Debug, PartialEq, Eq, Structural)]
pub enum Alignment {
    Left,
    Center,
    Right,
}

/// The client's own messages go right, notices in the middle, the others left.
pub fn alignment_for(username: &String) -> (r: Alignment)
    ensures
        r == if username@ == CLIENT_NAME@ {
            Alignment::Right
        } else if username@ == SYSTEM_NAME@ {
            Alignment::Center
        } else {
            Alignment::Left
        },
{
    if *username == String::from_str(CLIENT_NAME) {
        Alignment::Right
    } else if *username == String::from_str(SYSTEM_NAME) {
        Alignment::Center
    } else {
        Alignment::Left
    }
}

} // verus!
