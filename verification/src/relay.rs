//! The relay: the registry together with the mailboxes of all connections,
//! and the broadcasts that fill them.

use vstd::prelude::*;
use crate::codec::{encode, encoded, Event, EventModel, Payload, PayloadModel};
use crate::mailbox::{Delivery, DeliveryModel, Mailbox, MailboxModel, WriteOutcome};
use crate::registry::{
    handle, handles, lemma_names, lemma_register, lemma_register_reaches, lemma_unregister,
    lemma_unregister_reaches, MailboxId, Registry, RegistryModel,
};

verus! {

/// A [`Relay`] as a mathematical value.
pub struct RelayModel {
    /// Who is connected, and with which mailbox.
    pub registry: RegistryModel,
    /// Every mailbox that was ever made, at the place that its handle names.
    pub mailboxes: Seq<MailboxModel>,
}

impl RelayModel {
    /// What holds of every relay: the registry has no name twice; each
    /// registration names a mailbox that exists, and no two name the same;
    /// and a mailbox is open exactly while it is registered.
    pub open spec fn wf(self) -> bool {
        &&& self.registry.wf()
        &&& self.registry.distinct_mailboxes()
        &&& forall|id: int| #[trigger] self.registry.reaches(id) ==> 0 <= id < self.mailboxes.len()
        &&& forall|id: int|
            0 <= id < self.mailboxes.len() ==> ((#[trigger] self.mailboxes[id]).open
                <==> self.registry.reaches(id))
    }

    /// The relay to which nobody has connected yet.
    pub open spec fn empty() -> RelayModel {
        RelayModel { registry: RegistryModel::empty(), mailboxes: Seq::empty() }
    }

    /// The relay after `text` was broadcast: it was offered once to each
    /// registered mailbox, and to no other.
    pub open spec fn broadcast(self, text: Seq<char>) -> RelayModel {
        RelayModel {
            registry: self.registry,
            mailboxes: Seq::new(
                self.mailboxes.len(),
                |id: int|
                    if self.registry.reaches(id) {
                        self.mailboxes[id].enqueue(text)
                    } else {
                        self.mailboxes[id]
                    },
            ),
        }
    }

    /// The text of the event that lists the registered names.
    pub open spec fn user_list(self) -> Seq<char> {
        encoded(EventModel::UpdateUsers { usernames: self.registry.names() })
    }

    /// The mailboxes after the one registered under `name`, if any, was
    /// closed.
    pub open spec fn release(self, name: Seq<char>) -> Seq<MailboxModel> {
        match self.registry.mailbox_of(name) {
            Some(id) => self.mailboxes.update(id, self.mailboxes[id].close()),
            None => self.mailboxes,
        }
    }

    /// The relay after a connection came under `name`: the mailbox that the
    /// name had, if any, is closed; a new mailbox is made and registered under
    /// the name; then the list of names is broadcast.
    pub open spec fn connect(self, name: Seq<char>) -> RelayModel {
        let joined = RelayModel {
            registry: self.registry.register(name, self.mailboxes.len() as int),
            mailboxes: self.release(name).push(MailboxModel::empty()),
        };
        joined.broadcast(joined.user_list())
    }

    /// The relay after the connection under `name` sent `payload`: a text is
    /// broadcast as a message of `name`, anything else changes nothing.
    pub open spec fn message(self, name: Seq<char>, payload: PayloadModel) -> RelayModel {
        match payload {
            PayloadModel::Text(text) => self.broadcast(
                encoded(EventModel::SendMessage { username: name, message: text }),
            ),
            PayloadModel::NonText => self,
        }
    }

    /// The relay after the connection under `name` ended: the name is
    /// unregistered and its mailbox closed, if it had one; then the list of
    /// names is broadcast.
    pub open spec fn disconnect(self, name: Seq<char>) -> RelayModel {
        let left = RelayModel {
            registry: self.registry.unregister(name),
            mailboxes: self.release(name),
        };
        left.broadcast(left.user_list())
    }

    /// What the delivery loop of `mailbox` does next; a loop whose mailbox
    /// does not exist ends.
    pub open spec fn next(self, mailbox: int) -> DeliveryModel {
        if 0 <= mailbox < self.mailboxes.len() {
            self.mailboxes[mailbox].next()
        } else {
            DeliveryModel::Exit
        }
    }

    /// The relay after the delivery loop of `mailbox` took its next step.
    pub open spec fn after_next(self, mailbox: int) -> RelayModel {
        if 0 <= mailbox < self.mailboxes.len() {
            RelayModel {
                registry: self.registry,
                mailboxes: self.mailboxes.update(mailbox, self.mailboxes[mailbox].after_next()),
            }
        } else {
            self
        }
    }
}

/// The registry and the mailboxes of all connections.
pub struct Relay {
    registry: Registry,
    mailboxes: Vec<Mailbox>,
}

impl View for Relay {
    type V = RelayModel;

    closed spec fn view(&self) -> RelayModel {
        RelayModel { registry: self.registry@, mailboxes: self.mailboxes.deep_view() }
    }
}

/// Whether one of the first `count` of `targets` is `id`.
spec fn among(targets: Seq<MailboxId>, count: int, id: int) -> bool {
    exists|k: int| 0 <= k < count && #[trigger] targets[k] == id
}

/// A broadcast keeps a relay well formed, and leaves what is not registered
/// as it was.
pub proof fn lemma_broadcast(relay: RelayModel, text: Seq<char>)
    requires
        relay.wf(),
    ensures
        relay.broadcast(text).wf(),
        relay.broadcast(text).registry == relay.registry,
        relay.broadcast(text).mailboxes.len() == relay.mailboxes.len(),
        forall|id: int|
            0 <= id < relay.mailboxes.len() ==> #[trigger] relay.broadcast(text).mailboxes[id] == (
            if relay.registry.reaches(id) {
                MailboxModel { pending: relay.mailboxes[id].pending.push(text), open: true }
            } else {
                relay.mailboxes[id]
            }),
{
    let after = relay.broadcast(text);
    assert forall|id: int| 0 <= id < after.mailboxes.len() implies ((
    #[trigger] after.mailboxes[id]).open <==> after.registry.reaches(id)) by {
        assert(relay.mailboxes[id].open <==> relay.registry.reaches(id));
    }
    assert forall|id: int| 0 <= id < relay.mailboxes.len() implies #[trigger] after.mailboxes[id]
        == (if relay.registry.reaches(id) {
        MailboxModel { pending: relay.mailboxes[id].pending.push(text), open: true }
    } else {
        relay.mailboxes[id]
    }) by {
        assert(relay.mailboxes[id].open <==> relay.registry.reaches(id));
    }
}

/// The relay stays well formed when a connection comes.
pub proof fn lemma_connect(relay: RelayModel, name: Seq<char>)
    requires
        relay.wf(),
    ensures
        relay.connect(name).wf(),
        relay.connect(name).registry == relay.registry.register(name, relay.mailboxes.len() as int),
        relay.connect(name).mailboxes.len() == relay.mailboxes.len() + 1,
{
    let id = relay.mailboxes.len() as int;
    let joined = RelayModel {
        registry: relay.registry.register(name, id),
        mailboxes: relay.release(name).push(MailboxModel::empty()),
    };
    lemma_joined(relay, name);
    lemma_held(relay, name);
    lemma_broadcast(joined, joined.user_list());
}

/// The relay between registering a new connection and telling of it is well
/// formed.
proof fn lemma_joined(relay: RelayModel, name: Seq<char>)
    requires
        relay.wf(),
    ensures
        (RelayModel {
            registry: relay.registry.register(name, relay.mailboxes.len() as int),
            mailboxes: relay.release(name).push(MailboxModel::empty()),
        }).wf(),
{
    let id = relay.mailboxes.len() as int;
    let joined = RelayModel {
        registry: relay.registry.register(name, id),
        mailboxes: relay.release(name).push(MailboxModel::empty()),
    };
    assert(!relay.registry.reaches(id));
    lemma_register(relay.registry, name, id);
    lemma_register_reaches(relay.registry, name, id);
    lemma_held(relay, name);
    assert forall|other: int| 0 <= other < joined.mailboxes.len() implies ((
    #[trigger] joined.mailboxes[other]).open <==> joined.registry.reaches(other)) by {
        if other < id {
            assert(relay.mailboxes[other].open <==> relay.registry.reaches(other));
        }
    }
}

/// The mailbox that a name holds is one that the registry reaches.
proof fn lemma_held(relay: RelayModel, name: Seq<char>)
    requires
        relay.wf(),
    ensures
        match relay.registry.mailbox_of(name) {
            Some(id) => relay.registry.reaches(id) && 0 <= id < relay.mailboxes.len(),
            None => true,
        },
        relay.release(name).len() == relay.mailboxes.len(),
{
    if relay.registry.has(name) {
        let at = relay.registry.slot(name);
        assert(relay.registry.reaches(relay.registry.entries[at].mailbox));
    }
}

/// The relay between unregistering a connection and telling of it is well
/// formed.
proof fn lemma_left(relay: RelayModel, name: Seq<char>)
    requires
        relay.wf(),
    ensures
        (RelayModel {
            registry: relay.registry.unregister(name),
            mailboxes: relay.release(name),
        }).wf(),
{
    let left = RelayModel {
        registry: relay.registry.unregister(name),
        mailboxes: relay.release(name),
    };
    lemma_unregister(relay.registry, name);
    lemma_unregister_reaches(relay.registry, name);
    lemma_held(relay, name);
    assert forall|other: int| 0 <= other < left.mailboxes.len() implies ((
    #[trigger] left.mailboxes[other]).open <==> left.registry.reaches(other)) by {
        assert(relay.mailboxes[other].open <==> relay.registry.reaches(other));
    }
}

/// The relay stays well formed when a connection ends.
pub proof fn lemma_disconnect(relay: RelayModel, name: Seq<char>)
    requires
        relay.wf(),
    ensures
        relay.disconnect(name).wf(),
        relay.disconnect(name).registry == relay.registry.unregister(name),
        relay.disconnect(name).mailboxes.len() == relay.mailboxes.len(),
{
    let left = RelayModel {
        registry: relay.registry.unregister(name),
        mailboxes: relay.release(name),
    };
    lemma_left(relay, name);
    lemma_held(relay, name);
    lemma_broadcast(left, left.user_list());
}

/// The relay stays well formed when a delivery loop takes a step.
pub proof fn lemma_after_next(relay: RelayModel, mailbox: int)
    requires
        relay.wf(),
    ensures
        relay.after_next(mailbox).wf(),
{
    let after = relay.after_next(mailbox);
    assert forall|other: int| 0 <= other < after.mailboxes.len() implies ((
    #[trigger] after.mailboxes[other]).open <==> after.registry.reaches(other)) by {
        assert(relay.mailboxes[other].open <==> relay.registry.reaches(other));
    }
}

/// Offers `text` once to each mailbox that `registry` names.
fn deliver(registry: &Registry, mailboxes: &mut Vec<Mailbox>, text: &str)
    requires
        (RelayModel { registry: registry@, mailboxes: old(mailboxes).deep_view() }).wf(),
    ensures
        (RelayModel { registry: registry@, mailboxes: final(mailboxes).deep_view() }) == (
        RelayModel { registry: registry@, mailboxes: old(mailboxes).deep_view() }).broadcast(text@),
{
    let ghost before = RelayModel { registry: registry@, mailboxes: mailboxes.deep_view() };
    let targets = registry.snapshot_mailboxes();
    proof {
        assert(handles(targets@).len() == before.registry.mailboxes().len());
        assert forall|i: int| 0 <= i < targets.len() implies #[trigger] targets@[i]
            == before.registry.entries[i].mailbox by {
            assert(handles(targets@)[i] == before.registry.mailboxes()[i]);
        }
    }
    let mut k: usize = 0;
    while k < targets.len()
        invariant
            k <= targets.len(),
            before.wf(),
            before.registry == registry@,
            targets.len() == before.registry.entries.len(),
            forall|i: int|
                0 <= i < targets.len() ==> #[trigger] targets@[i]
                    == before.registry.entries[i].mailbox,
            mailboxes.len() == before.mailboxes.len(),
            forall|id: int|
                0 <= id < mailboxes.len() ==> (#[trigger] mailboxes[id])@ == (if among(
                    targets@,
                    k as int,
                    id,
                ) {
                    before.mailboxes[id].enqueue(text@)
                } else {
                    before.mailboxes[id]
                }),
        decreases targets.len() - k,
    {
        let id = targets[k];
        assert(before.registry.entries[k as int].mailbox == id);
        assert(before.registry.reaches(id as int));
        assert(!among(targets@, k as int, id as int)) by {
            if among(targets@, k as int, id as int) {
                let j = choose|j: int| 0 <= j < k && #[trigger] targets@[j] == id;
                assert(before.registry.entries[j].mailbox != before.registry.entries[k as int].mailbox);
            }
        }
        let ghost during = mailboxes.deep_view();
        mailboxes[id].enqueue(text.to_owned());
        assert forall|other: int| 0 <= other < mailboxes.len() implies (
        #[trigger] mailboxes[other])@ == (if among(targets@, k + 1, other) {
            before.mailboxes[other].enqueue(text@)
        } else {
            before.mailboxes[other]
        }) by {
            if other == id {
                assert(among(targets@, k + 1, other)) by {
                    assert(targets@[k as int] == other);
                }
            } else {
                assert(mailboxes[other]@ == during[other]);
                if among(targets@, k + 1, other) {
                    let j = choose|j: int| 0 <= j < k + 1 && #[trigger] targets@[j] == other;
                    assert(among(targets@, k as int, other));
                }
            }
        }
        k += 1;
    }
    proof {
        let after = RelayModel { registry: registry@, mailboxes: mailboxes.deep_view() };
        assert forall|id: int| 0 <= id < before.mailboxes.len() implies among(
            targets@,
            targets.len() as int,
            id,
        ) == before.registry.reaches(id) by {
            if before.registry.reaches(id) {
                let i = choose|i: int|
                    0 <= i < before.registry.entries.len() && (
                    #[trigger] before.registry.entries[i]).mailbox == id;
                assert(targets@[i] == id);
            }
            if among(targets@, targets.len() as int, id) {
                let j = choose|j: int| 0 <= j < targets.len() && #[trigger] targets@[j] == id;
                assert(before.registry.entries[j].mailbox == id);
            }
        }
        assert(after.mailboxes =~= before.broadcast(text@).mailboxes);
    }
}

/// Tells every registered mailbox who is registered.
fn announce(registry: &Registry, mailboxes: &mut Vec<Mailbox>)
    requires
        (RelayModel { registry: registry@, mailboxes: old(mailboxes).deep_view() }).wf(),
    ensures
        ({
            let before = RelayModel { registry: registry@, mailboxes: old(mailboxes).deep_view() };
            RelayModel { registry: registry@, mailboxes: final(mailboxes).deep_view() }
                == before.broadcast(before.user_list())
        }),
{
    let usernames = registry.snapshot_names();
    let text = encode(&Event::UpdateUsers { usernames });
    deliver(registry, mailboxes, text.as_str());
}

/// Closes the mailbox under `id`, if there is one.
fn release(mailboxes: &mut Vec<Mailbox>, id: Option<MailboxId>)
    requires
        id matches Some(id) ==> id < old(mailboxes).len(),
    ensures
        final(mailboxes).deep_view() == (match id {
            Some(id) => old(mailboxes).deep_view().update(
                id as int,
                old(mailboxes).deep_view()[id as int].close(),
            ),
            None => old(mailboxes).deep_view(),
        }),
{
    let ghost before = mailboxes.deep_view();
    match id {
        Some(id) => {
            mailboxes[id].close();
            assert(mailboxes.deep_view() =~= before.update(id as int, before[id as int].close()));
        },
        None => {
            assert(mailboxes.deep_view() =~= before);
        },
    }
}

impl Relay {
    /// What holds of every relay: see [`RelayModel::wf`].
    #[verifier::type_invariant]
    pub open spec fn inv(&self) -> bool {
        self@.wf()
    }

    /// A relay to which nobody has connected yet.
    pub fn new() -> (relay: Relay)
        ensures
            relay@ == RelayModel::empty(),
            relay@.wf(),
    {
        let relay = Relay { registry: Registry::new(), mailboxes: Vec::new() };
        assert(relay.mailboxes.deep_view() =~= Seq::empty());
        assert(!exists|id: int| relay@.registry.reaches(id));
        relay
    }

    /// Takes the relay apart, leaving an empty one in its place.
    fn take(&mut self) -> (parts: (Registry, Vec<Mailbox>))
        ensures
            final(self)@ == RelayModel::empty(),
            old(self)@ == (RelayModel { registry: parts.0@, mailboxes: parts.1.deep_view() }),
            old(self)@.wf(),
    {
        proof {
            use_type_invariant(&*self);
        }
        let mut taken = Relay::new();
        std::mem::swap(self, &mut taken);
        let Relay { registry, mailboxes } = taken;
        (registry, mailboxes)
    }

    /// Broadcasts the list of registered names: every registered mailbox is
    /// offered the event once, however much waits in it or in any other.
    pub fn broadcast_user_list(&mut self)
        ensures
            final(self)@ == old(self)@.broadcast(old(self)@.user_list()),
            final(self)@.wf(),
    {
        let (registry, mut mailboxes) = self.take();
        announce(&registry, &mut mailboxes);
        proof {
            lemma_broadcast(old(self)@, old(self)@.user_list());
        }
        *self = Relay { registry, mailboxes };
    }

    /// Broadcasts a message of `username`: every registered mailbox is
    /// offered the event once, the sender's own among them, however much
    /// waits in it or in any other.
    pub fn broadcast_message(&mut self, username: &str, message: &str)
        ensures
            final(self)@ == old(self)@.broadcast(
                encoded(EventModel::SendMessage { username: username@, message: message@ }),
            ),
            final(self)@.wf(),
    {
        let (registry, mut mailboxes) = self.take();
        let event = Event::SendMessage { username: username.to_owned(), message: message.to_owned() };
        let text = encode(&event);
        deliver(&registry, &mut mailboxes, text.as_str());
        proof {
            lemma_broadcast(old(self)@, text@);
        }
        *self = Relay { registry, mailboxes };
    }

    /// A connection came under `username`. Makes its mailbox, registers it
    /// in place of the one that the name had, and broadcasts the list of
    /// names. Returns the handle of the new mailbox.
    pub fn user_connected(&mut self, username: String) -> (mailbox: MailboxId)
        ensures
            final(self)@ == old(self)@.connect(username@),
            mailbox == old(self)@.mailboxes.len(),
            final(self)@.wf(),
    {
        let (mut registry, mut mailboxes) = self.take();
        let ghost name = username@;
        let mailbox = mailboxes.len();
        proof {
            lemma_held(old(self)@, name);
            lemma_joined(old(self)@, name);
            lemma_connect(old(self)@, name);
        }
        let replaced = registry.register(username, mailbox);
        release(&mut mailboxes, replaced);
        mailboxes.push(Mailbox::new());
        assert(mailboxes.deep_view() =~= old(self)@.release(name).push(MailboxModel::empty()));
        announce(&registry, &mut mailboxes);
        *self = Relay { registry, mailboxes };
        mailbox
    }

    /// The connection under `username` sent `payload`. A text is broadcast
    /// as a message of that name; anything else is dropped and changes
    /// nothing. Returns whether the payload was broadcast.
    pub fn user_message(&mut self, username: &str, payload: &Payload) -> (sent: bool)
        ensures
            final(self)@ == old(self)@.message(username@, payload@),
            sent == (payload@ is Text),
            final(self)@.wf(),
    {
        match payload {
            Payload::Text(text) => {
                self.broadcast_message(username, text.as_str());
                true
            },
            Payload::NonText => {
                proof {
                    use_type_invariant(&*self);
                }
                false
            },
        }
    }

    /// The connection under `username` ended. Unregisters the name, closes
    /// the mailbox that it had, and broadcasts the list of names.
    pub fn user_disconnected(&mut self, username: &str)
        ensures
            final(self)@ == old(self)@.disconnect(username@),
            final(self)@.wf(),
    {
        let (mut registry, mut mailboxes) = self.take();
        proof {
            lemma_held(old(self)@, username@);
            lemma_left(old(self)@, username@);
            lemma_disconnect(old(self)@, username@);
        }
        let removed = registry.unregister(username);
        release(&mut mailboxes, removed);
        announce(&registry, &mut mailboxes);
        *self = Relay { registry, mailboxes };
    }

    /// The next step of the delivery loop that owns `mailbox`. `last` says
    /// how the write before this step ended, `None` before the first; the
    /// step does not depend on it.
    pub fn next_delivery(&mut self, mailbox: MailboxId, last: Option<WriteOutcome>) -> (step:
        Delivery)
        ensures
            step@ == old(self)@.next(mailbox as int),
            final(self)@ == old(self)@.after_next(mailbox as int),
            final(self)@.wf(),
    {
        let (registry, mut mailboxes) = self.take();
        let ghost before = mailboxes.deep_view();
        let step = if mailbox < mailboxes.len() {
            let step = mailboxes[mailbox].next_delivery(last);
            assert(mailboxes.deep_view() =~= before.update(
                mailbox as int,
                before[mailbox as int].after_next(),
            ));
            step
        } else {
            Delivery::Exit
        };
        proof {
            lemma_after_next(old(self)@, mailbox as int);
        }
        *self = Relay { registry, mailboxes };
        step
    }

    /// The names that are registered at this moment.
    pub fn snapshot_names(&self) -> (names: Vec<String>)
        ensures
            names.deep_view() == self@.registry.names(),
    {
        self.registry.snapshot_names()
    }

    /// The mailbox registered under `username`.
    pub fn mailbox_of(&self, username: &str) -> (mailbox: Option<MailboxId>)
        ensures
            handle(mailbox) == self@.registry.mailbox_of(username@),
    {
        self.registry.lookup(username)
    }

    /// How many texts wait in `mailbox`; none in one that does not exist.
    pub fn pending(&self, mailbox: MailboxId) -> (n: usize)
        ensures
            n == (if mailbox < self@.mailboxes.len() {
                self@.mailboxes[mailbox as int].pending.len()
            } else {
                0
            }),
    {
        if mailbox < self.mailboxes.len() {
            self.mailboxes[mailbox].len()
        } else {
            0
        }
    }
}

/// What a transition of the relay is: every way in which its state changes.
pub enum Transition {
    Connect { name: Seq<char> },
    Message { name: Seq<char>, payload: PayloadModel },
    Disconnect { name: Seq<char> },
    Broadcast { text: Seq<char> },
    Deliver { mailbox: int },
}

impl RelayModel {
    /// The relay after `transition`.
    pub open spec fn apply(self, transition: Transition) -> RelayModel {
        match transition {
            Transition::Connect { name } => self.connect(name),
            Transition::Message { name, payload } => self.message(name, payload),
            Transition::Disconnect { name } => self.disconnect(name),
            Transition::Broadcast { text } => self.broadcast(text),
            Transition::Deliver { mailbox } => self.after_next(mailbox),
        }
    }
}

/// Every transition keeps the relay well formed, and no mailbox is ever
/// taken away.
pub proof fn law_transitions_keep_wf(relay: RelayModel, transition: Transition)
    requires
        relay.wf(),
    ensures
        relay.apply(transition).wf(),
        relay.apply(transition).mailboxes.len() >= relay.mailboxes.len(),
{
    match transition {
        Transition::Connect { name } => lemma_connect(relay, name),
        Transition::Message { name, payload } => match payload {
            PayloadModel::Text(text) => lemma_broadcast(
                relay,
                encoded(EventModel::SendMessage { username: name, message: text }),
            ),
            PayloadModel::NonText => {},
        },
        Transition::Disconnect { name } => lemma_disconnect(relay, name),
        Transition::Broadcast { text } => lemma_broadcast(relay, text),
        Transition::Deliver { mailbox } => lemma_after_next(relay, mailbox),
    }
}

/// A mailbox that is not registered gets nothing more, ever: no transition
/// registers it again, and none but the steps of its own delivery loop
/// changes it.
pub proof fn law_unregistered_is_silent(relay: RelayModel, id: int, transition: Transition)
    requires
        relay.wf(),
        0 <= id < relay.mailboxes.len(),
        !relay.registry.reaches(id),
    ensures
        !relay.apply(transition).registry.reaches(id),
        !(transition matches Transition::Deliver { mailbox } && mailbox == id) ==> relay.apply(
            transition,
        ).mailboxes[id] == relay.mailboxes[id],
{
    assert(!relay.mailboxes[id].open);
    match transition {
        Transition::Connect { name } => {
            let joined = RelayModel {
                registry: relay.registry.register(name, relay.mailboxes.len() as int),
                mailboxes: relay.release(name).push(MailboxModel::empty()),
            };
            lemma_held(relay, name);
            lemma_joined(relay, name);
            lemma_register_reaches(relay.registry, name, relay.mailboxes.len() as int);
            lemma_broadcast(joined, joined.user_list());
        },
        Transition::Message { name, payload } => match payload {
            PayloadModel::Text(text) => lemma_broadcast(
                relay,
                encoded(EventModel::SendMessage { username: name, message: text }),
            ),
            PayloadModel::NonText => {},
        },
        Transition::Disconnect { name } => {
            let left = RelayModel {
                registry: relay.registry.unregister(name),
                mailboxes: relay.release(name),
            };
            lemma_held(relay, name);
            lemma_left(relay, name);
            lemma_unregister_reaches(relay.registry, name);
            lemma_broadcast(left, left.user_list());
        },
        Transition::Broadcast { text } => lemma_broadcast(relay, text),
        Transition::Deliver { mailbox } => {},
    }
}

/// The last connection under a name wins. When a second connection comes
/// under the name of a first, the name has the mailbox of the second; the
/// mailbox of the first is closed and registered no more, and it does not
/// even get the list of names that announces the second. When the name is
/// then disconnected once, nobody is registered under it.
pub proof fn law_last_connection_wins(relay: RelayModel, name: Seq<char>)
    requires
        relay.wf(),
    ensures
        ({
            let first = relay.mailboxes.len() as int;
            let once = relay.connect(name);
            let second = once.mailboxes.len() as int;
            let twice = once.connect(name);
            &&& once.registry.mailbox_of(name) == Some(first)
            &&& twice.registry.mailbox_of(name) == Some(second)
            &&& first != second
            &&& !twice.registry.reaches(first)
            &&& twice.mailboxes[first] == once.mailboxes[first].close()
            &&& !twice.disconnect(name).registry.has(name)
            &&& !twice.disconnect(name).registry.names().contains(name)
        }),
{
    let first = relay.mailboxes.len() as int;
    let once = relay.connect(name);
    lemma_connect(relay, name);
    lemma_register(relay.registry, name, first);
    let second = once.mailboxes.len() as int;
    let twice = once.connect(name);
    lemma_connect(once, name);
    lemma_register(once.registry, name, second);
    lemma_held(once, name);
    lemma_joined(once, name);
    lemma_register_reaches(once.registry, name, second);
    let joined = RelayModel {
        registry: once.registry.register(name, second),
        mailboxes: once.release(name).push(MailboxModel::empty()),
    };
    lemma_broadcast(joined, joined.user_list());
    assert(joined.mailboxes[first] == once.mailboxes[first].close());
    lemma_disconnect(twice, name);
    lemma_unregister(twice.registry, name);
    lemma_names(twice.registry.unregister(name), name);
}

/// A sender hears itself: a text that the connection under a registered
/// name sends comes last in the mailbox registered under that name.
pub proof fn law_sender_hears_itself(
    relay: RelayModel,
    name: Seq<char>,
    message: Seq<char>,
    own: int,
)
    requires
        relay.wf(),
        relay.registry.mailbox_of(name) == Some(own),
    ensures
        relay.message(name, PayloadModel::Text(message)).mailboxes[own].pending
            == relay.mailboxes[own].pending.push(
            encoded(EventModel::SendMessage { username: name, message }),
        ),
{
    lemma_held(relay, name);
    lemma_broadcast(relay, encoded(EventModel::SendMessage { username: name, message }));
}

/// A consumer that never drains holds nobody up. However much waits in the
/// mailbox `slow`, a broadcast puts its text last in every registered
/// mailbox, `slow` and any `other` alike, and changes nothing else in them.
pub proof fn law_slow_consumer_is_isolated(
    relay: RelayModel,
    text: Seq<char>,
    slow: int,
    other: int,
)
    requires
        relay.wf(),
        relay.registry.reaches(slow),
        relay.registry.reaches(other),
    ensures
        relay.broadcast(text).mailboxes[slow].pending == relay.mailboxes[slow].pending.push(text),
        relay.broadcast(text).mailboxes[other].pending == relay.mailboxes[other].pending.push(
            text,
        ),
        relay.broadcast(text).mailboxes[other].open,
{
    lemma_broadcast(relay, text);
}

/// A payload that is no text changes nothing in the relay: the registry and
/// every mailbox are as they were.
pub proof fn law_rejected_payload_changes_nothing(relay: RelayModel, name: Seq<char>)
    ensures
        relay.message(name, PayloadModel::NonText) == relay,
{
}

} // verus!
