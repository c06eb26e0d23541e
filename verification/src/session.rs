//! The life of one connection: it connects, is active while its transport
//! yields messages, and disconnects when the transport closes or fails.

use vstd::prelude::*;
use vstd::string::*;
use crate::codec::{Payload, PayloadModel};
use crate::registry::{handle, MailboxId};
use crate::relay::{Relay, RelayModel};

verus! {

/// Where a connection stands in its life.
#[derive(Debug, Clone, Copy, PartialEq, Eq, Structural)]
pub enum SessionState {
    /// The handshake is done; the connection is not registered yet.
    Connecting,
    /// The connection is registered and its messages are broadcast.
    Active,
    /// The connection has ended. Nothing follows.
    Disconnected,
}

/// What the transport of a connection yields when it is asked for the next
/// message.
#[derive(Debug, PartialEq, Eq)]
pub enum Inbound {
    /// A message came.
    Message(Payload),
    /// The transport failed.
    Failed,
    /// The peer closed the transport.
    Closed,
}

/// An [`Inbound`] as a mathematical value.
pub enum InboundModel {
    Message(PayloadModel),
    Failed,
    Closed,
}

impl View for Inbound {
    type V = InboundModel;

    open spec fn view(&self) -> InboundModel {
        match self {
            Inbound::Message(payload) => InboundModel::Message(payload@),
            Inbound::Failed => InboundModel::Failed,
            Inbound::Closed => InboundModel::Closed,
        }
    }
}

/// One connection.
pub struct Session {
    username: String,
    mailbox: Option<MailboxId>,
    state: SessionState,
}

/// A [`Session`] as a mathematical value.
pub struct SessionModel {
    /// The name under which the connection registers.
    pub username: Seq<char>,
    /// The mailbox that was made for the connection, once it is registered.
    pub mailbox: Option<int>,
    pub state: SessionState,
}

/// The name a connection goes by when the request supplies none.
pub open spec fn default_name() -> Seq<char> {
    "test"@
}

/// The name under which a connection registers: the one the request supplied,
/// or `"test"` when it supplied none. The name is taken as it is.
pub fn connection_identity(supplied: Option<String>) -> (name: String)
    ensures
        name@ == (match supplied {
            Some(s) => s@,
            None => default_name(),
        }),
{
    match supplied {
        Some(s) => s,
        None => String::from_str("test"),
    }
}

impl SessionModel {
    /// A connection whose handshake is done, under the name that the request
    /// supplied or the default.
    pub open spec fn start(supplied: Option<Seq<char>>) -> SessionModel {
        SessionModel {
            username: match supplied {
                Some(name) => name,
                None => default_name(),
            },
            mailbox: None,
            state: SessionState::Connecting,
        }
    }

    /// The session after it was asked to connect: a connecting session
    /// becomes active, with the mailbox that is made for it; any other stays
    /// as it is.
    pub open spec fn connected(self, relay: RelayModel) -> SessionModel {
        if self.state == SessionState::Connecting {
            SessionModel {
                username: self.username,
                mailbox: Some(relay.mailboxes.len() as int),
                state: SessionState::Active,
            }
        } else {
            self
        }
    }

    /// The relay after the session was asked to connect.
    pub open spec fn relay_connected(self, relay: RelayModel) -> RelayModel {
        if self.state == SessionState::Connecting {
            relay.connect(self.username)
        } else {
            relay
        }
    }

    /// The session after its transport yielded `inbound`: an active session
    /// stays active on a message and is disconnected by a failure or a close;
    /// any other stays as it is.
    pub open spec fn received(self, inbound: InboundModel) -> SessionModel {
        if self.state == SessionState::Active && !(inbound is Message) {
            SessionModel {
                username: self.username,
                mailbox: self.mailbox,
                state: SessionState::Disconnected,
            }
        } else {
            self
        }
    }

    /// The relay after the transport of the session yielded `inbound`.
    pub open spec fn relay_received(self, relay: RelayModel, inbound: InboundModel) -> RelayModel {
        if self.state == SessionState::Active {
            match inbound {
                InboundModel::Message(payload) => relay.message(self.username, payload),
                _ => relay.disconnect(self.username),
            }
        } else {
            relay
        }
    }
}

impl View for Session {
    type V = SessionModel;

    closed spec fn view(&self) -> SessionModel {
        SessionModel { username: self.username@, mailbox: handle(self.mailbox), state: self.state }
    }
}

impl Session {
    /// A connection whose handshake is done. `supplied` is the name that the
    /// request gave, if it gave one.
    pub fn new(supplied: Option<String>) -> (session: Session)
        ensures
            session@ == SessionModel::start(
                match supplied {
                    Some(name) => Some(name@),
                    None => None,
                },
            ),
    {
        Session {
            username: connection_identity(supplied),
            mailbox: None,
            state: SessionState::Connecting,
        }
    }

    /// Connects the session: its mailbox is made and registered under its
    /// name, the list of names is broadcast, and the session is active. A
    /// session that is not connecting is left alone, and so is the relay.
    pub fn connect(&mut self, relay: &mut Relay)
        ensures
            final(self)@ == old(self)@.connected(old(relay)@),
            final(relay)@ == old(self)@.relay_connected(old(relay)@),
            final(relay)@.wf(),
    {
        match self.state {
            SessionState::Connecting => {
                let mailbox = relay.user_connected(self.username.clone());
                self.mailbox = Some(mailbox);
                self.state = SessionState::Active;
            },
            _ => {
                proof {
                    use_type_invariant(&*relay);
                }
            },
        }
    }

    /// Takes what the transport yielded. While the session is active, a text
    /// message is broadcast under its name and any other message is dropped;
    /// a failure or a close disconnects it: its name is unregistered and the
    /// list of names is broadcast. A session that is not active is left
    /// alone, and so is the relay.
    pub fn receive(&mut self, relay: &mut Relay, inbound: &Inbound)
        ensures
            final(self)@ == old(self)@.received(inbound@),
            final(relay)@ == old(self)@.relay_received(old(relay)@, inbound@),
            final(relay)@.wf(),
    {
        match self.state {
            SessionState::Active => {
                match inbound {
                    Inbound::Message(payload) => {
                        relay.user_message(self.username.as_str(), payload);
                    },
                    _ => {
                        relay.user_disconnected(self.username.as_str());
                        self.state = SessionState::Disconnected;
                    },
                }
            },
            _ => {
                proof {
                    use_type_invariant(&*relay);
                }
            },
        }
    }

    /// Where the session stands.
    pub fn state(&self) -> (state: SessionState)
        ensures
            state == self@.state,
    {
        self.state
    }

    /// The name of the session.
    pub fn username(&self) -> (name: &str)
        ensures
            name@ == self@.username,
    {
        self.username.as_str()
    }

    /// The mailbox of the session, once it has connected.
    pub fn mailbox(&self) -> (mailbox: Option<MailboxId>)
        ensures
            handle(mailbox) == self@.mailbox,
    {
        self.mailbox
    }
}

} // verus!
