//! The messages that the relay carries and that the clients keep.
use vstd::prelude::*;

use crate::text::{decimal, push_decimal, push_text};

verus! {

/// Display name under which join and leave notices are sent.
pub const SYSTEM_NAME: &'static str = "SYSTEM";

/// Relies on `SystemTime::elapsed`, called on the Unix epoch: the time from the
/// epoch to now, read here in milliseconds; `None` when the clock reads earlier
/// than the epoch. Nothing is promised of the value.
#[verifier::external_body]
fn clock_millis() -> Option<u64> {
    match std::time::UNIX_EPOCH.elapsed() {
        Ok(d) => Some(d.as_millis() as u64),
        Err(_) => None,
    }
}

/// The current time in milliseconds since the Unix epoch, or zero when the clock
/// reads earlier than the epoch.
fn now_millis() -> u64 {
    match clock_millis() {
        Some(t) => t,
        None => 0,
    }
}

/// What a relayed message says: who sent it, under which name, when, and what.
pub struct ChatView {
    pub sender: u64,
    pub name: Seq<char>,
    pub sent_at: u64,
    pub body: Seq<char>,
}

/// A message taken in from one connection, on its way to all the others.
/// It is never changed once made.
#[derive(Clone, Debug)]
pub struct ChatMessage {
    from_addr: u64,
    from_username: String,
    timestamp: u64,
    message: String,
}

impl View for ChatMessage {
    type V = ChatView;

    closed spec fn view(&self) -> ChatView {
        ChatView {
            sender: self.from_addr,
            name: self.from_username@,
            sent_at: self.timestamp,
            body: self.message@,
        }
    }
}

impl ChatMessage {
    /// A message from connection `socket`, stamped with the time `sent_at`
    /// (milliseconds since the Unix epoch).
    pub fn build_at(socket: u64, username: String, message: String, sent_at: u64) -> (r: Self)
        ensures
            r@ == (ChatView { sender: socket, name: username@, sent_at, body: message@ }),
    {
        ChatMessage { from_addr: socket, from_username: username, timestamp: sent_at, message }
    }

    /// A message from connection `socket`, stamped with the current time.
    pub fn build(socket: u64, username: String, message: String) -> (r: Option<Self>)
        ensures
            r is Some,
            r->0@.sender == socket,
            r->0@.name == username@,
            r->0@.body == message@,
    {
        let now = now_millis();
        Some(Self::build_at(socket, username, message, now))
    }

    /// A copy of the message.
    pub fn duplicate(&self) -> (r: Self)
        ensures
            r@ == self@,
    {
        ChatMessage {
            from_addr: self.from_addr,
            from_username: self.from_username.clone(),
            timestamp: self.timestamp,
            message: self.message.clone(),
        }
    }

    /// The connection that sent the message.
    pub fn get_addr(&self) -> (r: u64)
        ensures
            r == self@.sender,
    {
        self.from_addr
    }

    /// The display name of the sender.
    pub fn get_username(&self) -> (r: String)
        ensures
            r@ == self@.name,
    {
        self.from_username.clone()
    }

    /// The text of the message.
    pub fn get_message(&self) -> (r: String)
        ensures
            r@ == self@.body,
    {
        self.message.clone()
    }

    /// When the message was made, in milliseconds since the Unix epoch.
    pub fn get_timestamp(&self) -> (r: u64)
        ensures
            r == self@.sent_at,
    {
        self.timestamp
    }

    /// The message as a line of text at time `now` (milliseconds since the Unix
    /// epoch): `"<sender> : <text>, <seconds> s ago"`.
    pub fn describe_at(&self, now: u64) -> (r: String)
        ensures
            r@ == decimal(self@.sender as nat) + " : "@ + self@.body + ", "@ + decimal(
                age_secs(self@.sent_at, now),
            ) + " s ago"@,
    {
        let secs: u64 = if now >= self.timestamp {
            (now - self.timestamp) / 1000
        } else {
            0
        };
        let mut r = String::new();
        push_decimal(&mut r, self.from_addr);
        push_text(&mut r, " : ");
        push_text(&mut r, self.message.as_str());
        push_text(&mut r, ", ");
        push_decimal(&mut r, secs);
        push_text(&mut r, " s ago");
        r
    }

    /// The message as a line of text now, as `describe_at` gives it.
    pub fn describe(&self) -> (r: String)
        ensures
            exists|now: u64| r@ == decimal(self@.sender as nat) + " : "@ + self@.body + ", "@ + decimal(
                #[trigger] age_secs(self@.sent_at, now),
            ) + " s ago"@,
    {
        let now = now_millis();
        self.describe_at(now)
    }

    /// A message with the text of `msg`, under the sender's own identity and name,
    /// stamped with the current time: what a client says of itself is not trusted.
    pub fn from(msg: ClientMessage, from_addr: u64, from_username: String) -> (r: Self)
        ensures
            r@.sender == from_addr,
            r@.name == from_username@,
            r@.body == msg@.body,
    {
        let now = now_millis();
        Self::build_at(from_addr, from_username, msg.input_message, now)
    }
}

/// What a message sent to a client carries: its text, the sender's name and
/// the time it was made.
pub struct WireView {
    pub body: Seq<char>,
    pub name: Seq<char>,
    pub sent_at: u64,
}

/// A message as a client receives and keeps it.
#[derive(Clone, Debug)]
pub struct ClientMessage {
    input_message: String,
    from_username: String,
    timestamp: u64,
}

impl View for ClientMessage {
    type V = WireView;

    closed spec fn view(&self) -> WireView {
        WireView { body: self.input_message@, name: self.from_username@, sent_at: self.timestamp }
    }
}

/// The units in which the age of a message is told.
#[derive(Clone, Copy, Debug, PartialEq, Eq, Structural)]
pub enum AgeUnit {
    Seconds,
    Minutes,
    Hours,
    Days,
    Years,
}

pub open spec fn unit_label(u: AgeUnit) -> Seq<char> {
    match u {
        AgeUnit::Seconds => "s"@,
        AgeUnit::Minutes => "min"@,
        AgeUnit::Hours => "h"@,
        AgeUnit::Days => "day(s)"@,
        AgeUnit::Years => "year(s)"@,
    }
}

pub const SECS_PER_MINUTE: u64 = 60;
pub const SECS_PER_HOUR: u64 = 3600;
pub const SECS_PER_DAY: u64 = 86400;
pub const SECS_PER_YEAR: u64 = 31536000;
pub const SECS_PER_MILLENNIUM: u64 = 31536000000;

/// The largest amount that an age is told with.
pub const MAX_AGE_AMOUNT: u64 = 65535;

/// An age in seconds, told in the largest unit of which it holds at least one,
/// rounded down. Past a thousand years the count of millennia is given, capped at
/// `MAX_AGE_AMOUNT`, under the unit of seconds.
pub open spec fn age_in_units(secs: nat) -> (nat, AgeUnit) {
    if secs < 60 {
        (secs, AgeUnit::Seconds)
    } else if secs < 3600 {
        (secs / 60, AgeUnit::Minutes)
    } else if secs < 86400 {
        (secs / 3600, AgeUnit::Hours)
    } else if secs < 31536000 {
        (secs / 86400, AgeUnit::Days)
    } else if secs < 31536000000 {
        (secs / 31536000, AgeUnit::Years)
    } else if secs / 31536000000 <= 65535 {
        (secs / 31536000000, AgeUnit::Seconds)
    } else {
        (65535, AgeUnit::Seconds)
    }
}

/// Whole seconds from `sent_at` to `now` (both in milliseconds); zero if the
/// clock reads earlier than the stamp.
pub open spec fn age_secs(sent_at: u64, now: u64) -> nat {
    if now >= sent_at {
        ((now - sent_at) / 1000) as nat
    } else {
        0
    }
}

/// The caption of a message: its sender and how long ago it was made.
pub open spec fn metadata_text(name: Seq<char>, secs: nat) -> Seq<char> {
    name + ", "@ + decimal(age_in_units(secs).0) + " "@ + unit_label(age_in_units(secs).1) + " ago"@
}

impl AgeUnit {
    pub fn label(&self) -> (r: &'static str)
        ensures
            r@ == unit_label(*self),
    {
        match self {
            AgeUnit::Seconds => "s",
            AgeUnit::Minutes => "min",
            AgeUnit::Hours => "h",
            AgeUnit::Days => "day(s)",
            AgeUnit::Years => "year(s)",
        }
    }
}

/// `secs` told in units, as `age_in_units` says.
pub fn age_amount(secs: u64) -> (r: (u64, AgeUnit))
    ensures
        r.0 as nat == age_in_units(secs as nat).0,
        r.1 == age_in_units(secs as nat).1,
{
    if secs < SECS_PER_MINUTE {
        (secs, AgeUnit::Seconds)
    } else if secs < SECS_PER_HOUR {
        (secs / SECS_PER_MINUTE, AgeUnit::Minutes)
    } else if secs < SECS_PER_DAY {
        (secs / SECS_PER_HOUR, AgeUnit::Hours)
    } else if secs < SECS_PER_YEAR {
        (secs / SECS_PER_DAY, AgeUnit::Days)
    } else if secs < SECS_PER_MILLENNIUM {
        (secs / SECS_PER_YEAR, AgeUnit::Years)
    } else if secs / SECS_PER_MILLENNIUM <= MAX_AGE_AMOUNT {
        (secs / SECS_PER_MILLENNIUM, AgeUnit::Seconds)
    } else {
        (MAX_AGE_AMOUNT, AgeUnit::Seconds)
    }
}

impl ClientMessage {
    /// A message with the given name, text and time stamp (milliseconds since the
    /// Unix epoch).
    pub fn new_at(from_username: String, input_message: String, timestamp: u64) -> (r: Self)
        ensures
            r@ == (WireView { body: input_message@, name: from_username@, sent_at: timestamp }),
    {
        ClientMessage { input_message, from_username, timestamp }
    }

    /// A message with the given name and text, stamped with the current time.
    pub fn new(from_username: String, input_message: String) -> (r: Self)
        ensures
            r@.body == input_message@,
            r@.name == from_username@,
    {
        let now = now_millis();
        Self::new_at(from_username, input_message, now)
    }

    /// The text of the message.
    pub fn get_message(&self) -> (r: String)
        ensures
            r@ == self@.body,
    {
        self.input_message.clone()
    }

    /// The display name of the sender.
    pub fn get_username(&self) -> (r: String)
        ensures
            r@ == self@.name,
    {
        self.from_username.clone()
    }

    /// When the message was made, in milliseconds since the Unix epoch.
    pub fn get_timestamp(&self) -> (r: u64)
        ensures
            r == self@.sent_at,
    {
        self.timestamp
    }

    /// The form of a relayed message that is sent to a client: its text, the
    /// sender's name and the time it was made.
    pub fn from(input: ChatMessage) -> (r: Self)
        ensures
            r@ == (WireView { body: input@.body, name: input@.name, sent_at: input@.sent_at }),
    {
        Self::new_at(input.from_username, input.message, input.timestamp)
    }

    /// The caption of the message at time `now` (milliseconds since the Unix
    /// epoch): `"<name>, <amount> <unit> ago"`.
    pub fn metadata_at(&self, now: u64) -> (r: String)
        ensures
            r@ == metadata_text(self@.name, age_secs(self@.sent_at, now)),
    {
        let secs: u64 = if now >= self.timestamp {
            (now - self.timestamp) / 1000
        } else {
            0
        };
        let (amount, unit) = age_amount(secs);
        let mut r = self.from_username.clone();
        push_text(&mut r, ", ");
        push_decimal(&mut r, amount);
        push_text(&mut r, " ");
        push_text(&mut r, unit.label());
        push_text(&mut r, " ago");
        r
    }

    /// The caption of the message now, as `metadata_at` tells it.
    pub fn get_metadata(&self) -> (r: String)
        ensures
            exists|now: u64| r@ == metadata_text(self@.name, #[trigger] age_secs(self@.sent_at, now)),
    {
        let now = now_millis();
        self.metadata_at(now)
    }
}

} // verus!
