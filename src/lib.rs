//! The core of a text chat relay. Clients connect, give a display name, and
//! exchange short messages that are fanned out to every other connected client.
//!
//! - `registry`: the live connections and their delivery handles;
//! - `relay`: one message fanned out to all but its sender, with failed peers pruned;
//! - `session`: one connection's handshake, message pumps and teardown;
//! - `message` and `codec`: the messages and their wire form;
//! - `input` and `screen`: the chat client's handling of keys and of its view.
pub mod codec;
pub mod input;
pub mod message;
pub mod registry;
pub mod relay;
pub mod screen;
pub mod session;
pub mod text;

pub use codec::{decode, encode, CodecError};
pub use input::{handle_input_event, HandlingSignal, InputEvent};
pub use message::{ChatMessage, ClientMessage, SYSTEM_NAME};
pub use registry::{Outbound, Registry, RegistryError};
pub use relay::{broadcast_message, Delivery};
pub use session::{HandleError, HandleResult, Inbound, Session, SessionError, SessionPhase};
