//! One connection's life: the handshake that names it, the two pumps that carry
//! its messages, and the teardown. The session makes every decision; its caller
//! reads frames, waits on the connection's queue and writes frames, and hands
//! each of these events in.
use vstd::prelude::*;

use crate::codec::{encode, wire};
use crate::message::{ChatMessage, ChatView, ClientMessage, SYSTEM_NAME};
use crate::registry::{without, Outbound, Registry};
use crate::relay::{broadcast_message, relay_effect, relayed, Delivery};
use crate::text::push_text;

verus! {

/// What follows a name in the notice that it joined.
pub const JOIN_NOTICE: &'static str = " has entered the channel";

/// What follows a name in the notice that it left.
pub const LEAVE_NOTICE: &'static str = " has exited the channel";

/// An event was handled and the session goes on.
#[derive(Clone, Copy, Debug, PartialEq, Eq, Structural)]
pub enum HandleResult {
    ResponseSuccessful,
}

/// An event could not be handled. `ConnectionDropped` ends the session;
/// `MalformedMessage` drops one frame and the session goes on; `UnknownClient`
/// is an event for a connection that has not joined; `DuplicateRegistration`
/// means the connection's id was already registered, so its handshake was
/// refused and the session ended.
#[derive(Clone, Copy, Debug, PartialEq, Eq, Structural)]
pub enum HandleError {
    ConnectionDropped,
    MalformedMessage,
    UnknownClient,
    DuplicateRegistration,
}

/// Why a session ended.
#[derive(Clone, Copy, Debug, PartialEq, Eq, Structural)]
pub enum SessionError {
    HandshakeFailed,
    PeerDisconnected,
}

/// Where a session stands: waiting for its name, joined, or over.
#[derive(Clone, Copy, Debug, PartialEq, Eq, Structural)]
pub enum SessionPhase {
    Handshaking,
    Active,
    Closed(SessionError),
}

/// What the connection's inbound side produced.
#[derive(Debug)]
pub enum Inbound {
    /// One text frame.
    Text(String),
    /// A frame that could not be read as text.
    Unreadable,
    /// The peer closed its side, or the stream failed.
    Ended,
}

/// A join or leave notice about `name`, made at `at`, on behalf of connection
/// `sender`.
pub open spec fn notice(sender: u64, name: Seq<char>, at: u64, tail: Seq<char>) -> ChatView {
    ChatView { sender, name: SYSTEM_NAME@, sent_at: at, body: name + tail }
}

/// `after` is `before` once `id` has registered with `handle` and the notice that
/// `name` joined has been relayed.
pub open spec fn joined(
    before: Registry,
    after: Registry,
    id: u64,
    handle: Outbound,
    name: Seq<char>,
    now: u64,
) -> bool {
    exists|report: Seq<Delivery>|
        relay_effect(
            before.ids().push(id),
            before.handles().insert(id, handle),
            before.sent(),
            before.attempts(),
            after,
            notice(id, name, now, JOIN_NOTICE@),
            report,
        )
}

/// `after` is `before` once `id` has been removed and the notice that `name` left
/// has been relayed.
pub open spec fn left(before: Registry, after: Registry, id: u64, name: Seq<char>, now: u64) -> bool {
    exists|report: Seq<Delivery>|
        relay_effect(
            without(before.ids(), id),
            before.handles().remove(id),
            before.sent(),
            before.attempts(),
            after,
            notice(id, name, now, LEAVE_NOTICE@),
            report,
        )
}

/// `after` holds what `before` held, and nothing was queued.
pub open spec fn unchanged(before: Registry, after: Registry) -> bool {
    &&& after.wf()
    &&& after.ids() == before.ids()
    &&& after.handles() == before.handles()
    &&& after.sent() == before.sent()
    &&& after.attempts() == before.attempts()
}

/// A connection that ends its handshake without a name leaves the registry as
/// it was: it is listed by no snapshot taken for anyone, and nothing, no leave
/// notice included, is queued on its account.
pub proof fn lemma_aborted_handshake_unseen(before: Registry, after: Registry, id: u64, excluding: u64)
    requires
        before.wf(),
        !before.ids().contains(id),
        unchanged(before, after),
    ensures
        !without(after.ids(), excluding).contains(id),
        !after.handles().dom().contains(id),
        after.sent() == before.sent(),
{
    crate::registry::lemma_remove_all_contains(after.ids(), set![excluding], id);
}

/// The state of one connection.
pub struct Session {
    id: u64,
    name: String,
    phase: SessionPhase,
    outbound: Option<Outbound>,
}

impl Session {
    /// The connection's id.
    pub closed spec fn id(&self) -> u64 {
        self.id
    }

    /// The name it gave; empty until it has joined.
    pub closed spec fn name(&self) -> Seq<char> {
        self.name@
    }

    pub closed spec fn phase(&self) -> SessionPhase {
        self.phase
    }

    /// The handle of its queue, held until it is registered.
    pub closed spec fn handle(&self) -> Option<Outbound> {
        self.outbound
    }

    /// A session waiting for its name still holds the handle of its queue.
    pub open spec fn wf(&self) -> bool {
        self.phase() is Handshaking ==> self.handle() is Some
    }

    /// A new connection `id`, whose queue is reached through `outbound`.
    pub fn new(id: u64, outbound: Outbound) -> (r: Self)
        ensures
            r.wf(),
            r.id() == id,
            r.name() == Seq::<char>::empty(),
            r.phase() == SessionPhase::Handshaking,
            r.handle() == Some(outbound),
    {
        Session { id, name: String::new(), phase: SessionPhase::Handshaking, outbound: Some(outbound) }
    }

    /// The connection's id.
    pub fn get_id(&self) -> (r: u64)
        ensures
            r == self.id(),
    {
        self.id
    }

    /// The name it gave; empty until it has joined.
    pub fn get_username(&self) -> (r: String)
        ensures
            r@ == self.name(),
    {
        self.name.clone()
    }

    /// Where the session stands.
    pub fn current_phase(&self) -> (r: SessionPhase)
        ensures
            r == self.phase(),
    {
        self.phase
    }

    /// Removes the connection and relays the notice that it left.
    fn leave(&mut self, registry: &mut Registry, now: u64)
        requires
            old(self).phase() is Active,
            old(registry).wf(),
        ensures
            final(self).wf(),
            final(self).id() == old(self).id(),
            final(self).name() == old(self).name(),
            final(self).phase() == SessionPhase::Closed(SessionError::PeerDisconnected),
            final(registry).wf(),
            left(*old(registry), *final(registry), old(self).id(), old(self).name(), now),
    {
        let ghost before = *registry;
        registry.deregister(self.id);
        let ghost mid = *registry;
        let mut body = self.name.clone();
        push_text(&mut body, LEAVE_NOTICE);
        let message = ChatMessage::build_at(self.id, String::from_str(SYSTEM_NAME), body, now);
        let report = broadcast_message(message, registry);
        self.phase = SessionPhase::Closed(SessionError::PeerDisconnected);
        proof {
            assert(relayed(mid, *registry, notice(self.id, self.name@, now, LEAVE_NOTICE@), report@));
            assert(relay_effect(
                without(before.ids(), self.id),
                before.handles().remove(self.id),
                before.sent(),
                before.attempts(),
                *registry,
                notice(self.id, self.name@, now, LEAVE_NOTICE@),
                report@,
            ));
        }
    }
    /// Handles what the connection's inbound side produced at time `now`.
    ///
    /// While waiting for its name, a text frame is the name: the connection is
    /// registered and the notice that it joined is relayed to the others (an id
    /// that is already registered is refused with `DuplicateRegistration` and the
    /// session ends). Anything
    /// else ends the session there, and it is never registered.
    ///
    /// Once joined, a text frame is relayed, stamped with the connection's own id
    /// and name and with `now`; an unreadable frame is dropped; the end of the
    /// stream removes the connection and relays the notice that it left.
    pub fn handle_received_from_client(
        &mut self,
        registry: &mut Registry,
        inbound: Inbound,
        now: u64,
    ) -> (r: Result<HandleResult, HandleError>)
        requires
            old(self).wf(),
            old(registry).wf(),
        ensures
            final(self).wf(),
            final(registry).wf(),
            final(self).id() == old(self).id(),
            old(self).phase() is Handshaking ==> match inbound {
                Inbound::Text(name) => if old(registry).ids().contains(old(self).id()) {
                    &&& r == Err::<HandleResult, HandleError>(HandleError::DuplicateRegistration)
                    &&& final(self).phase() == SessionPhase::Closed(SessionError::HandshakeFailed)
                    &&& unchanged(*old(registry), *final(registry))
                } else {
                    &&& r == Ok::<HandleResult, HandleError>(HandleResult::ResponseSuccessful)
                    &&& final(self).phase() == SessionPhase::Active
                    &&& final(self).name() == name@
                    &&& joined(
                        *old(registry),
                        *final(registry),
                        old(self).id(),
                        old(self).handle()->0,
                        name@,
                        now,
                    )
                },
                _ => {
                    &&& r == Err::<HandleResult, HandleError>(HandleError::ConnectionDropped)
                    &&& final(self).phase() == SessionPhase::Closed(SessionError::HandshakeFailed)
                    &&& unchanged(*old(registry), *final(registry))
                },
            },
            old(self).phase() is Active ==> match inbound {
                Inbound::Text(body) => {
                    &&& r == Ok::<HandleResult, HandleError>(HandleResult::ResponseSuccessful)
                    &&& final(self).phase() == SessionPhase::Active
                    &&& final(self).name() == old(self).name()
                    &&& exists|report: Seq<Delivery>|
                        relayed(
                            *old(registry),
                            *final(registry),
                            (ChatView {
                                sender: old(self).id(),
                                name: old(self).name(),
                                sent_at: now,
                                body: body@,
                            }),
                            report,
                        )
                },
                Inbound::Unreadable => {
                    &&& r == Err::<HandleResult, HandleError>(HandleError::MalformedMessage)
                    &&& final(self).phase() == SessionPhase::Active
                    &&& final(self).name() == old(self).name()
                    &&& unchanged(*old(registry), *final(registry))
                },
                Inbound::Ended => {
                    &&& r == Err::<HandleResult, HandleError>(HandleError::ConnectionDropped)
                    &&& final(self).phase() == SessionPhase::Closed(SessionError::PeerDisconnected)
                    &&& final(self).name() == old(self).name()
                    &&& left(*old(registry), *final(registry), old(self).id(), old(self).name(), now)
                },
            },
            old(self).phase() is Closed ==> {
                &&& r == Err::<HandleResult, HandleError>(HandleError::ConnectionDropped)
                &&& final(self).phase() == old(self).phase()
                &&& final(self).name() == old(self).name()
                &&& unchanged(*old(registry), *final(registry))
            },
    {
        let ghost before = *registry;
        match self.phase {
            SessionPhase::Handshaking => match inbound {
                Inbound::Text(name) => {
                    let handle = match self.outbound.take() {
                        Some(h) => h,
                        None => {
                            assert(false);
                            return Err(HandleError::ConnectionDropped);
                        },
                    };
                    match registry.register(self.id, handle) {
                        Err(_) => {
                            self.phase = SessionPhase::Closed(SessionError::HandshakeFailed);
                            Err(HandleError::DuplicateRegistration)
                        },
                        Ok(()) => {
                            self.name = name;
                            let mut body = self.name.clone();
                            push_text(&mut body, JOIN_NOTICE);
                            let message = ChatMessage::build_at(
                                self.id,
                                String::from_str(SYSTEM_NAME),
                                body,
                                now,
                            );
                            let report = broadcast_message(message, registry);
                            self.phase = SessionPhase::Active;
                            proof {
                                assert(relay_effect(
                                    before.ids().push(self.id),
                                    before.handles().insert(self.id, handle),
                                    before.sent(),
                                    before.attempts(),
                                    *registry,
                                    notice(self.id, self.name@, now, JOIN_NOTICE@),
                                    report@,
                                ));
                            }
                            Ok(HandleResult::ResponseSuccessful)
                        },
                    }
                },
                _ => {
                    self.outbound = None;
                    self.phase = SessionPhase::Closed(SessionError::HandshakeFailed);
                    Err(HandleError::ConnectionDropped)
                },
            },
            SessionPhase::Active => match inbound {
                Inbound::Text(body) => {
                    let message = ChatMessage::build_at(self.id, self.name.clone(), body, now);
                    broadcast_message(message, registry);
                    Ok(HandleResult::ResponseSuccessful)
                },
                Inbound::Unreadable => Err(HandleError::MalformedMessage),
                Inbound::Ended => {
                    self.leave(registry, now);
                    Err(HandleError::ConnectionDropped)
                },
            },
            SessionPhase::Closed(_) => Err(HandleError::ConnectionDropped),
        }
    }

    /// Handles what the connection's own queue produced at time `now`.
    ///
    /// Once joined, a queued message becomes the frame to write to the peer: its
    /// wire form. The end of the queue (the relay removed the connection) removes
    /// it, if that was not done yet, and relays the notice that it left. Before
    /// the session has joined nothing can be queued for it; after it has ended,
    /// nothing more is done.
    pub fn handle_received_from_server(
        &mut self,
        registry: &mut Registry,
        queued: Option<ChatMessage>,
        now: u64,
    ) -> (r: Result<String, HandleError>)
        requires
            old(self).wf(),
            old(registry).wf(),
        ensures
            final(self).wf(),
            final(registry).wf(),
            final(self).id() == old(self).id(),
            final(self).name() == old(self).name(),
            old(self).phase() is Active ==> match queued {
                Some(m) => {
                    &&& r is Ok
                    &&& r->Ok_0@ == wire(m@.body, m@.name, m@.sent_at)
                    &&& final(self).phase() == SessionPhase::Active
                    &&& unchanged(*old(registry), *final(registry))
                },
                None => {
                    &&& r == Err::<String, HandleError>(HandleError::ConnectionDropped)
                    &&& final(self).phase() == SessionPhase::Closed(SessionError::PeerDisconnected)
                    &&& left(*old(registry), *final(registry), old(self).id(), old(self).name(), now)
                },
            },
            old(self).phase() is Handshaking ==> {
                &&& r == Err::<String, HandleError>(HandleError::UnknownClient)
                &&& final(self).phase() == old(self).phase()
                &&& unchanged(*old(registry), *final(registry))
            },
            old(self).phase() is Closed ==> {
                &&& r == Err::<String, HandleError>(HandleError::ConnectionDropped)
                &&& final(self).phase() == old(self).phase()
                &&& unchanged(*old(registry), *final(registry))
            },
    {
        match self.phase {
            SessionPhase::Active => match queued {
                Some(m) => Ok(encode(&ClientMessage::from(m))),
                None => {
                    self.leave(registry, now);
                    Err(HandleError::ConnectionDropped)
                },
            },
            SessionPhase::Handshaking => Err(HandleError::UnknownClient),
            SessionPhase::Closed(_) => Err(HandleError::ConnectionDropped),
        }
    }

    /// Handles a failed write to the peer at time `now`: a joined session removes
    /// the connection and relays the notice that it left; one still waiting for
    /// its name ends without having been registered; an ended one is left as it
    /// is.
    pub fn connection_lost(&mut self, registry: &mut Registry, now: u64)
        requires
            old(self).wf(),
            old(registry).wf(),
        ensures
            final(self).wf(),
            final(registry).wf(),
            final(self).id() == old(self).id(),
            final(self).name() == old(self).name(),
            old(self).phase() is Active ==> {
                &&& final(self).phase() == SessionPhase::Closed(SessionError::PeerDisconnected)
                &&& left(*old(registry), *final(registry), old(self).id(), old(self).name(), now)
            },
            old(self).phase() is Handshaking ==> {
                &&& final(self).phase() == SessionPhase::Closed(SessionError::HandshakeFailed)
                &&& unchanged(*old(registry), *final(registry))
            },
            old(self).phase() is Closed ==> {
                &&& final(self).phase() == old(self).phase()
                &&& unchanged(*old(registry), *final(registry))
            },
    {
        match self.phase {
            SessionPhase::Active => {
                self.leave(registry, now);
            },
            SessionPhase::Handshaking => {
                self.outbound = None;
                self.phase = SessionPhase::Closed(SessionError::HandshakeFailed);
            },
            SessionPhase::Closed(_) => {},
        }
    }

    /// Why the session ended, once it has.
    pub fn outcome(&self) -> (r: Option<SessionError>)
        ensures
            match self.phase() {
                SessionPhase::Closed(e) => r == Some(e),
                _ => r is None,
            },
    {
        match self.phase {
            SessionPhase::Closed(e) => Some(e),
            _ => None,
        }
    }
}

} // verus!
